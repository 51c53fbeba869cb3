//! What holds of every parse and of the text of every tree.

use crate::parser::{ExprView, Parsed};
use crate::rendering::lex_error_message;
use crate::scanner::{error_entry, token_entry, LexError, Scanned, TokenView};
use crate::number_laws::number_value_is_number_text;
use crate::syntax::{
    expr_text, expression, is_parsed_tree, lemma_expression_taken_bounds, literal, parse,
};
use vstd::prelude::*;

verus! {

/// The parse that is one tree.
pub open spec fn one_tree(expr: ExprView) -> Seq<Parsed> {
    seq![Ok(expr)]
}

/// The parse that is one failure.
pub open spec fn one_failure(message: Seq<char>) -> Seq<Parsed> {
    seq![Err(message)]
}

/// Nothing parses to nothing.
pub proof fn lemma_parse_empty()
    ensures
        parse(Seq::<Scanned>::empty()) == Seq::<Parsed>::empty(),
{
}

/// A parse is the result of the first attempt and the parse of what that
/// attempt leaves: whether the attempt fails or not, the parse goes on behind
/// it.
pub proof fn parse_goes_on_behind_each_attempt(entries: Seq<Scanned>)
    requires
        entries.len() > 0,
    ensures
        1 <= expression(entries).taken <= entries.len(),
        parse(entries) == seq![expression(entries).result] + parse(
            entries.skip(expression(entries).taken as int),
        ),
{
    lemma_expression_taken_bounds(entries);
}

/// A lexical error among the entries gives one failure with the message of
/// the error, and the parse goes on behind it.
pub proof fn lexical_error_is_handed_on(error: LexError, rest: Seq<Scanned>)
    ensures
        parse(seq![error_entry(error)] + rest) == one_failure(lex_error_message(error)) + parse(
            rest,
        ),
{
    let entries = seq![error_entry(error)] + rest;
    assert(entries.skip(1) =~= rest);
}

/// A literal token gives its literal, and the parse goes on behind it.
pub proof fn literal_token_parses_to_literal(token: TokenView, rest: Seq<Scanned>)
    requires
        literal(token) is Some,
    ensures
        parse(seq![token_entry(token)] + rest) == one_tree(ExprView::Literal(literal(token)->0))
            + parse(rest),
{
    let entries = seq![token_entry(token)] + rest;
    assert(entries.skip(1) =~= rest);
}

/// An attempt that succeeds does not depend on the entries behind those it
/// took.
pub proof fn lemma_success_is_local(entries: Seq<Scanned>, more: Seq<Scanned>)
    requires
        entries.len() > 0,
        expression(entries).result is Ok,
    ensures
        expression(entries + more) == expression(entries),
    decreases entries.len(),
{
    let longer = entries + more;
    assert(longer[0] == entries[0]);
    let token = entries[0]->Ok_0;
    if literal(token) is None && token is LeftParen {
        let behind = entries.skip(1);
        assert(longer.skip(1) =~= behind + more);
        if behind.len() > 0 {
            lemma_expression_taken_bounds(behind);
            lemma_success_is_local(behind, more);
            let close = 1 + expression(behind).taken;
            assert(longer[close as int] == entries[close as int]);
        }
    }
}

/// An expression between parentheses parses to the grouping of its tree:
/// where the entries `inside` are one expression, whole, the entries that put
/// them between an opening and a closing parenthesis are one tree, the
/// grouping of that expression.
pub proof fn parenthesised_expression_parses_to_grouping(inside: Seq<Scanned>)
    requires
        inside.len() > 0,
        expression(inside).result is Ok,
        expression(inside).taken == inside.len(),
    ensures
        parse(
            seq![token_entry(TokenView::LeftParen)] + inside + seq![
                token_entry(TokenView::RightParen),
            ],
        ) == one_tree(ExprView::Grouping(Box::new(expression(inside).result->Ok_0))),
{
    let close = seq![token_entry(TokenView::RightParen)];
    let entries = seq![token_entry(TokenView::LeftParen)] + inside + close;
    assert(entries.skip(1) =~= inside + close);
    lemma_success_is_local(inside, close);
    lemma_parse_empty();
    assert(entries.skip(entries.len() as int) =~= Seq::<Scanned>::empty());
    assert(entries[inside.len() as int + 1] == token_entry(TokenView::RightParen));
    assert(expression(entries).taken == entries.len());
}

/// The text of a grouping nests the text of its inner tree: it is that text
/// between `(group ` and `)`, and holds it whole, seven characters in.
pub proof fn grouping_text_nests_inner_text(inner: ExprView)
    ensures
        expr_text(ExprView::Grouping(Box::new(inner))) == "(group "@ + expr_text(inner) + ")"@,
        expr_text(ExprView::Grouping(Box::new(inner))).subrange(
            7,
            7 + expr_text(inner).len() as int,
        ) == expr_text(inner),
{
    reveal_strlit("(group ");
    reveal_strlit(")");
    let outer = expr_text(ExprView::Grouping(Box::new(inner)));
    assert(outer =~= "(group "@ + expr_text(inner) + ")"@);
    assert(outer.subrange(7, 7 + expr_text(inner).len() as int) =~= expr_text(inner));
}

/// Every tree that an attempt gives is a literal or a grouping of one, and
/// its numbers are in the notation that number literals are held in.
pub proof fn attempt_gives_parsed_tree(entries: Seq<Scanned>)
    requires
        entries.len() > 0,
    ensures
        expression(entries).result matches Ok(expr) ==> is_parsed_tree(expr),
    decreases entries.len(),
{
    if let Ok(token) = entries[0] {
        if let TokenView::Number(text) = token {
            number_value_is_number_text(text);
        }
        if literal(token) is None && token is LeftParen && entries.len() > 1 {
            attempt_gives_parsed_tree(entries.skip(1));
        }
    }
}

/// Every tree of a parse is a literal or a grouping of one, and its numbers
/// are in the notation that number literals are held in.
pub proof fn parse_gives_parsed_trees(entries: Seq<Scanned>)
    ensures
        forall|i: int|
            0 <= i < parse(entries).len() ==> (#[trigger] parse(entries)[i] matches Ok(expr)
                ==> is_parsed_tree(expr)),
    decreases entries.len(),
{
    if entries.len() > 0 {
        lemma_expression_taken_bounds(entries);
        let behind = entries.skip(expression(entries).taken as int);
        attempt_gives_parsed_tree(entries);
        parse_gives_parsed_trees(behind);
        assert forall|i: int| 0 <= i < parse(entries).len() implies (#[trigger] parse(
            entries,
        )[i] matches Ok(expr) ==> is_parsed_tree(expr)) by {
            if i > 0 {
                assert(parse(entries)[i] == parse(behind)[i - 1]);
            }
        }
    }
}

} // verus!
