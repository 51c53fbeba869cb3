//! What holds of every scan.

use crate::chars::{is_digit, is_identifier_part, is_identifier_start, is_skip, CharClass};
use crate::grammar::{
    comment_starts, is_numeral, is_sound_entry, is_unexpected, is_word, keyword,
    lemma_lexeme_len_bounds, lemma_number_prefix_is_numeral, lemma_numeral_is_taken_whole,
    lemma_run_len_is, lemma_run_len_members, lexeme, lexeme_len, operator,
    operator_with_equal, punctuation, scan_line, scan_lines, scan_text, string_body_len,
    string_is_closed, word_len, word_token,
};
use crate::rendering::{token_lexeme, token_name, token_text};
use crate::scanner::{one_error, one_token, LexError, Scanned, TokenView};
use vstd::prelude::*;

verus! {

/// Nothing scans to nothing.
proof fn lemma_scan_empty(line: usize)
    ensures
        scan_line(Seq::<char>::empty(), line) == Seq::<Scanned>::empty(),
{
}

/// The scan of a line that one step takes whole is the entry of that step.
proof fn lemma_scan_single_step(s: Seq<char>, line: usize)
    requires
        s.len() > 0,
        !is_skip(s[0]),
        !comment_starts(s),
        lexeme_len(s) == s.len(),
    ensures
        scan_line(s, line) == seq![lexeme(s, line)],
{
    lemma_scan_empty(line);
    assert(s.skip(s.len() as int) =~= Seq::<char>::empty());
    assert(seq![lexeme(s, line)] + Seq::<Scanned>::empty() =~= seq![lexeme(s, line)]);
}

/// A line that is one punctuation mark scans to exactly one token, and the
/// line that shows the token is its name, the mark and `null`.
pub proof fn punctuation_scans_to_one_token(c: char, line: usize)
    requires
        punctuation(c) is Some,
    ensures
        scan_line(seq![c], line) == one_token(punctuation(c)->0),
        token_text(punctuation(c)->0) == token_name(punctuation(c)->0) + seq![' ', c, ' ']
            + "null"@,
{
    let s = seq![c];
    lemma_scan_single_step(s, line);
    let token = punctuation(c)->0;
    reveal_strlit("(");
    reveal_strlit(")");
    reveal_strlit("{");
    reveal_strlit("}");
    reveal_strlit(",");
    reveal_strlit(".");
    reveal_strlit("-");
    reveal_strlit("+");
    reveal_strlit(";");
    reveal_strlit("*");
    assert(token_lexeme(token) =~= seq![c]);
    assert(token_text(token) =~= token_name(token) + seq![' ', c, ' '] + "null"@);
}

/// A line that is one of `!`, `=`, `>`, `<` with `=` right behind it scans to
/// exactly one token, the operator of both characters.
pub proof fn operator_with_equal_scans_to_one_token(c: char, line: usize)
    requires
        operator(c) is Some,
    ensures
        scan_line(seq![c, '='], line) == one_token(operator_with_equal(c)->0),
{
    lemma_scan_single_step(seq![c, '='], line);
}

/// A line that is a decimal numeral scans to exactly one number token, whose
/// text is the line: nothing of the numeral is lost or changed.
pub proof fn numeral_scans_to_itself(s: Seq<char>, line: usize)
    requires
        is_numeral(s),
    ensures
        scan_line(s, line) == one_token(TokenView::Number(s)),
{
    lemma_numeral_is_taken_whole(s);
    assert(s.take(s.len() as int) =~= s);
    lemma_scan_single_step(s, line);
}

/// A line that opens a string and has no second quote scans to exactly one
/// entry, the error of the unterminated string, and to no token.
pub proof fn unterminated_string_scans_to_one_error(body: Seq<char>, line: usize)
    requires
        forall|i: int| 0 <= i < body.len() ==> body[i] != '"',
    ensures
        scan_line(seq!['"'] + body, line) == one_error(LexError::UnterminatedString { line }),
{
    let s = seq!['"'] + body;
    assert(s.skip(1) =~= body);
    lemma_run_len_is(CharClass::Except('"'), body, body.len() as int);
    lemma_scan_single_step(s, line);
}

/// A line that is a string between its two quotes scans to exactly one string
/// token, whose text is what stands between the quotes.
pub proof fn string_scans_to_its_content(body: Seq<char>, line: usize)
    requires
        forall|i: int| 0 <= i < body.len() ==> body[i] != '"',
    ensures
        scan_line(seq!['"'] + body + seq!['"'], line) == one_token(TokenView::String(body)),
{
    let s = seq!['"'] + body + seq!['"'];
    let behind = s.skip(1);
    assert(behind =~= body + seq!['"']);
    assert forall|i: int| 0 <= i < body.len() implies CharClass::Except('"').has(
        #[trigger] behind[i],
    ) by {
        assert(behind[i] == body[i]);
    }
    lemma_run_len_is(CharClass::Except('"'), behind, body.len() as int);
    assert(s.subrange(1, 1 + body.len() as int) =~= body);
    lemma_scan_single_step(s, line);
}

/// A line that begins with two slashes scans to nothing at all.
pub proof fn comment_scans_to_nothing(s: Seq<char>, line: usize)
    requires
        comment_starts(s),
    ensures
        scan_line(s, line) == Seq::<Scanned>::empty(),
{
}

/// A character that begins no token gives one error, which names it and the
/// line, and the scan goes on behind it as if it had not been there.
pub proof fn unexpected_character_is_passed(c: char, rest: Seq<char>, line: usize)
    requires
        is_unexpected(c),
    ensures
        scan_line(seq![c] + rest, line) == one_error(
            LexError::UnexpectedCharacter { line, character: c },
        ) + scan_line(rest, line),
{
    let s = seq![c] + rest;
    assert(s.skip(1) =~= rest);
}

/// A line that is a word scans to exactly one token: the keyword, if the word
/// is reserved, and else the identifier of that name.
pub proof fn word_scans_to_one_token(word: Seq<char>, line: usize)
    requires
        is_word(word),
    ensures
        scan_line(word, line) == one_token(word_token(word)),
        keyword(word) is Some ==> word_token(word) == keyword(word)->0,
        keyword(word) is None ==> word_token(word) == TokenView::Identifier(word),
{
    let behind = word.skip(1);
    assert forall|i: int| 0 <= i < behind.len() implies CharClass::IdentifierPart.has(
        #[trigger] behind[i],
    ) by {
        assert(behind[i] == word[i + 1]);
    }
    lemma_run_len_is(CharClass::IdentifierPart, behind, behind.len() as int);
    assert(word.take(word.len() as int) =~= word);
    lemma_scan_single_step(word, line);
}

/// Every reserved word is a word, and no keyword is an identifier.
pub proof fn lemma_reserved_word_is_word(word: Seq<char>)
    requires
        keyword(word) is Some,
    ensures
        is_word(word),
        !(keyword(word)->0 is Identifier),
{
    reveal_strlit("and");
    reveal_strlit("class");
    reveal_strlit("else");
    reveal_strlit("false");
    reveal_strlit("for");
    reveal_strlit("fun");
    reveal_strlit("if");
    reveal_strlit("nil");
    reveal_strlit("or");
    reveal_strlit("print");
    reveal_strlit("return");
    reveal_strlit("super");
    reveal_strlit("this");
    reveal_strlit("true");
    reveal_strlit("var");
    reveal_strlit("while");
}

/// A line that is a reserved word scans to exactly one token, the keyword of
/// that word, and never to an identifier.
pub proof fn reserved_word_scans_to_keyword(word: Seq<char>, line: usize)
    requires
        keyword(word) is Some,
    ensures
        scan_line(word, line) == one_token(keyword(word)->0),
        !(keyword(word)->0 is Identifier),
{
    lemma_reserved_word_is_word(word);
    word_scans_to_one_token(word, line);
}

/// What one step makes of the beginning of a line, where that is no
/// whitespace, is a sound entry.
pub proof fn lemma_lexeme_is_sound(s: Seq<char>, line: usize)
    requires
        s.len() > 0,
        !is_skip(s[0]),
    ensures
        is_sound_entry(lexeme(s, line), line),
{
    let c = s[0];
    if punctuation(c) is Some || operator(c) is Some || c == '/' {
    } else if c == '"' {
        if string_is_closed(s) {
            let body = s.subrange(1, 1 + string_body_len(s) as int);
            lemma_run_len_members(CharClass::Except('"'), s.skip(1));
            assert forall|i: int| 0 <= i < body.len() implies body[i] != '"' by {
                assert(body[i] == s.skip(1)[i]);
                assert(CharClass::Except('"').has(s.skip(1)[i]));
            }
        }
    } else if is_digit(c) {
        lemma_number_prefix_is_numeral(s);
    } else if is_identifier_start(c) {
        let word = s.take(word_len(s) as int);
        lemma_run_len_members(CharClass::IdentifierPart, s.skip(1));
        assert forall|i: int| 1 <= i < word.len() implies is_identifier_part(
            #[trigger] word[i],
        ) by {
            assert(word[i] == s.skip(1)[i - 1]);
            assert(CharClass::IdentifierPart.has(s.skip(1)[i - 1]));
        }
        assert(is_word(word));
    } else {
    }
}

/// Every entry of a scan is sound: the text of a number token is a decimal
/// numeral, the text of a string token holds no quote, the name of an
/// identifier is a word that is not reserved, no entry is the end marker, and
/// every error names the line that was scanned.
pub proof fn scanned_entries_are_sound(s: Seq<char>, line: usize)
    ensures
        forall|i: int|
            0 <= i < scan_line(s, line).len() ==> is_sound_entry(
                #[trigger] scan_line(s, line)[i],
                line,
            ),
    decreases s.len(),
{
    if s.len() == 0 {
    } else if is_skip(s[0]) {
        scanned_entries_are_sound(s.skip(1), line);
    } else if comment_starts(s) {
    } else {
        lemma_lexeme_len_bounds(s);
        let behind = s.skip(lexeme_len(s) as int);
        scanned_entries_are_sound(behind, line);
        lemma_lexeme_is_sound(s, line);
        assert forall|i: int| 0 <= i < scan_line(s, line).len() implies is_sound_entry(
            #[trigger] scan_line(s, line)[i],
            line,
        ) by {
            if i > 0 {
                assert(scan_line(s, line)[i] == scan_line(behind, line)[i - 1]);
            }
        }
    }
}

/// A text without a newline is one line, the first.
pub proof fn text_of_one_line_scans_as_line(s: Seq<char>)
    requires
        forall|i: int| 0 <= i < s.len() ==> s[i] != '\n',
    ensures
        scan_text(s) == scan_line(s, 1),
{
    lemma_run_len_is(CharClass::Except('\n'), s, s.len() as int);
    assert(s.take(s.len() as int) =~= s);
}

/// A text is scanned line by line: what stands before the first newline is
/// scanned by itself, under the number of the line, and what stands behind
/// that newline is scanned under the numbers that follow. Nothing that begins
/// on a line, not even a string that the line leaves open, reaches into the
/// next.
pub proof fn text_scans_line_by_line(first: Seq<char>, rest: Seq<char>, line: usize)
    requires
        forall|i: int| 0 <= i < first.len() ==> first[i] != '\n',
    ensures
        scan_lines(first + seq!['\n'] + rest, line) == if rest.len() > 0 {
            scan_line(first, line) + scan_lines(rest, (line + 1) as usize)
        } else {
            scan_line(first, line)
        },
{
    let text = first + seq!['\n'] + rest;
    assert forall|i: int| 0 <= i < first.len() implies CharClass::Except('\n').has(
        #[trigger] text[i],
    ) by {
        assert(text[i] == first[i]);
    }
    assert(text[first.len() as int] == '\n');
    lemma_run_len_is(CharClass::Except('\n'), text, first.len() as int);
    assert(text.take(first.len() as int) =~= first);
    assert(text.skip(first.len() as int + 1) =~= rest);
}

} // verus!
