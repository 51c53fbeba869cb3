//! What a run shows: the lines for the output, the lines for the error
//! channel, and the status that the run ends with.

use crate::parser::{results_view, Expr, ParseError, Parsed};
use crate::rendering::{lex_error_message, token_text};
use crate::scanner::{entries_view, LexError, Scanned, Token, TokenView};
use crate::syntax::expr_text;
use vstd::prelude::*;
use vstd::string::*;

verus! {

/// The status of a run that met a lexical error.
pub const LEXICAL_ERROR_STATUS: i32 = 65;

/// What a run shows.
#[derive(Debug, PartialEq, Eq)]
pub struct Report {
    /// The lines for the output, in order.
    pub output: Vec<String>,
    /// The lines for the error channel, in order.
    pub errors: Vec<String>,
    /// The status that the run ends with; zero if nothing went wrong.
    pub status: i32,
}

/// The character sequences of a list of lines.
pub open spec fn texts(lines: Seq<String>) -> Seq<Seq<char>> {
    lines.map_values(|line: String| line@)
}

/// The lines that show the tokens of a scan, in order; errors show no line
/// here.
pub open spec fn token_lines(entries: Seq<Scanned>) -> Seq<Seq<char>>
    decreases entries.len(),
{
    if entries.len() == 0 {
        Seq::empty()
    } else {
        match entries.last() {
            Ok(token) => token_lines(entries.drop_last()).push(token_text(token)),
            Err(_) => token_lines(entries.drop_last()),
        }
    }
}

/// The messages of the lexical errors of a scan, in order.
pub open spec fn error_lines(entries: Seq<Scanned>) -> Seq<Seq<char>>
    decreases entries.len(),
{
    if entries.len() == 0 {
        Seq::empty()
    } else {
        match entries.last() {
            Ok(_) => error_lines(entries.drop_last()),
            Err(error) => error_lines(entries.drop_last()).push(lex_error_message(error)),
        }
    }
}

/// Whether a scan holds a lexical error.
pub open spec fn has_error(entries: Seq<Scanned>) -> bool {
    exists|i: int| 0 <= i < entries.len() && (#[trigger] entries[i]) is Err
}

/// The lines that show the trees of a parse, in order; failures show no line
/// here.
pub open spec fn tree_lines(results: Seq<Parsed>) -> Seq<Seq<char>>
    decreases results.len(),
{
    if results.len() == 0 {
        Seq::empty()
    } else {
        match results.last() {
            Ok(expr) => tree_lines(results.drop_last()).push(expr_text(expr)),
            Err(_) => tree_lines(results.drop_last()),
        }
    }
}

/// The lines that stand for the failures of a parse: one line `error` for
/// each, whatever its message.
pub open spec fn failure_lines(results: Seq<Parsed>) -> Seq<Seq<char>>
    decreases results.len(),
{
    if results.len() == 0 {
        Seq::empty()
    } else {
        match results.last() {
            Ok(_) => failure_lines(results.drop_last()),
            Err(_) => failure_lines(results.drop_last()).push("error"@),
        }
    }
}

/// What a run shows of a scan.
///
/// The output holds the line of each token, in order, and then the line of
/// the end marker. The error channel holds the message of each lexical error,
/// in order. The status is 65 if there is a lexical error, and zero if there
/// is none; an error keeps no token from being shown.
pub fn tokenize_report(entries: &[Result<Token, LexError>]) -> (report: Report)
    ensures
        texts(report.output@) == token_lines(entries_view(entries@)).push(
            token_text(TokenView::Eof),
        ),
        texts(report.errors@) == error_lines(entries_view(entries@)),
        report.status == if has_error(entries_view(entries@)) {
            LEXICAL_ERROR_STATUS
        } else {
            0
        },
{
    let ghost all = entries_view(entries@);
    let mut output: Vec<String> = Vec::new();
    let mut errors: Vec<String> = Vec::new();
    let mut status: i32 = 0;
    let mut at: usize = 0;
    assert(all.take(0) =~= Seq::<Scanned>::empty());
    assert(texts(output@) =~= Seq::<Seq<char>>::empty());
    assert(texts(errors@) =~= Seq::<Seq<char>>::empty());
    while at < entries.len()
        invariant
            at <= entries.len(),
            all == entries_view(entries@),
            texts(output@) == token_lines(all.take(at as int)),
            texts(errors@) == error_lines(all.take(at as int)),
            status == if has_error(all.take(at as int)) {
                LEXICAL_ERROR_STATUS
            } else {
                0
            },
        decreases entries.len() - at,
    {
        let ghost seen = all.take(at as int);
        let ghost next = all.take(at + 1);
        let ghost shown = texts(output@);
        let ghost told = texts(errors@);
        proof {
            assert(next.drop_last() =~= seen);
            assert(next.last() == all[at as int]);
            if has_error(seen) {
                let i = choose|i: int| 0 <= i < seen.len() && (#[trigger] seen[i]) is Err;
                assert(next[i] is Err);
            }
            if has_error(next) && !has_error(seen) {
                let i = choose|i: int| 0 <= i < next.len() && (#[trigger] next[i]) is Err;
                if i < at {
                    assert(seen[i] is Err);
                }
            }
        }
        match &entries[at] {
            Ok(token) => {
                output.push(token.render());
                assert(texts(output@) =~= shown.push(token_text(token@)));
            },
            Err(error) => {
                errors.push(error.message());
                assert(texts(errors@) =~= told.push(lex_error_message(*error)));
                status = LEXICAL_ERROR_STATUS;
                assert(next[at as int] is Err);
            },
        }
        at = at + 1;
    }
    assert(all.take(at as int) =~= all);
    let ghost shown = texts(output@);
    output.push(Token::Eof.render());
    assert(texts(output@) =~= shown.push(token_text(TokenView::Eof)));
    Report { output, errors, status }
}

/// What a run shows of a parse.
///
/// The output holds the text of each tree, in order. The error channel holds
/// one line `error` for each failure. The status is zero.
pub fn parse_report(results: &[Result<Expr, ParseError>]) -> (report: Report)
    ensures
        texts(report.output@) == tree_lines(results_view(results@)),
        texts(report.errors@) == failure_lines(results_view(results@)),
        report.status == 0,
{
    let ghost all = results_view(results@);
    let mut output: Vec<String> = Vec::new();
    let mut errors: Vec<String> = Vec::new();
    let mut at: usize = 0;
    assert(all.take(0) =~= Seq::<Parsed>::empty());
    assert(texts(output@) =~= Seq::<Seq<char>>::empty());
    assert(texts(errors@) =~= Seq::<Seq<char>>::empty());
    while at < results.len()
        invariant
            at <= results.len(),
            all == results_view(results@),
            texts(output@) == tree_lines(all.take(at as int)),
            texts(errors@) == failure_lines(all.take(at as int)),
        decreases results.len() - at,
    {
        let ghost seen = all.take(at as int);
        let ghost next = all.take(at + 1);
        let ghost shown = texts(output@);
        let ghost told = texts(errors@);
        proof {
            assert(next.drop_last() =~= seen);
            assert(next.last() == all[at as int]);
        }
        match &results[at] {
            Ok(expr) => {
                output.push(expr.render());
                assert(texts(output@) =~= shown.push(expr_text(expr@)));
            },
            Err(_) => {
                errors.push(String::from_str("error"));
                assert(texts(errors@) =~= told.push("error"@));
            },
        }
        at = at + 1;
    }
    assert(all.take(at as int) =~= all);
    Report { output, errors, status: 0 }
}

} // verus!
