//! The lexical grammar, stated over character sequences.
//!
//! Each function here takes what is left of a line and says what the scanner
//! makes of its beginning. Nothing in this file runs: it is what the
//! executable scanner is proved against.

use crate::chars::{is_digit, is_identifier_part, is_identifier_start, is_skip, CharClass};
use crate::scanner::{LexError, Scanned, TokenView};
use vstd::prelude::*;

verus! {

/// The length of the longest prefix of `s` whose characters all belong to
/// `class`.
pub open spec fn run_len(class: CharClass, s: Seq<char>) -> nat
    decreases s.len(),
{
    if s.len() > 0 && class.has(s[0]) {
        1 + run_len(class, s.skip(1))
    } else {
        0
    }
}

/// Every character of a run belongs to the class, and the character after it,
/// if there is one, does not.
pub proof fn lemma_run_len_members(class: CharClass, s: Seq<char>)
    ensures
        run_len(class, s) <= s.len(),
        forall|i: int| 0 <= i < run_len(class, s) ==> class.has(#[trigger] s[i]),
        run_len(class, s) < s.len() ==> !class.has(s[run_len(class, s) as int]),
    decreases s.len(),
{
    if s.len() > 0 && class.has(s[0]) {
        let rest = s.skip(1);
        lemma_run_len_members(class, rest);
        assert forall|i: int| 0 <= i < run_len(class, s) implies class.has(#[trigger] s[i]) by {
            if i > 0 {
                assert(s[i] == rest[i - 1]);
            }
        }
        if run_len(class, s) < s.len() {
            assert(s[run_len(class, s) as int] == rest[run_len(class, rest) as int]);
        }
    }
}

/// A prefix of class members that ends the sequence, or is followed by a
/// character outside the class, is the run.
pub proof fn lemma_run_len_is(class: CharClass, s: Seq<char>, n: int)
    requires
        0 <= n <= s.len(),
        forall|i: int| 0 <= i < n ==> class.has(#[trigger] s[i]),
        n < s.len() ==> !class.has(s[n]),
    ensures
        run_len(class, s) == n,
    decreases s.len(),
{
    if n > 0 {
        let rest = s.skip(1);
        assert(class.has(s[0]));
        assert forall|i: int| 0 <= i < n - 1 implies class.has(#[trigger] rest[i]) by {
            assert(rest[i] == s[i + 1]);
        }
        if n - 1 < rest.len() {
            assert(rest[n - 1] == s[n]);
        }
        lemma_run_len_is(class, rest, n - 1);
    }
}

/// The ten punctuation marks that are tokens by themselves.
pub open spec fn punctuation(c: char) -> Option<TokenView> {
    if c == '(' {
        Some(TokenView::LeftParen)
    } else if c == ')' {
        Some(TokenView::RightParen)
    } else if c == '{' {
        Some(TokenView::LeftBrace)
    } else if c == '}' {
        Some(TokenView::RightBrace)
    } else if c == ',' {
        Some(TokenView::Comma)
    } else if c == '.' {
        Some(TokenView::Dot)
    } else if c == '-' {
        Some(TokenView::Minus)
    } else if c == '+' {
        Some(TokenView::Plus)
    } else if c == ';' {
        Some(TokenView::Semicolon)
    } else if c == '*' {
        Some(TokenView::Star)
    } else {
        None
    }
}

/// The four operators that an `=` right behind them extends, as the tokens
/// they are alone.
pub open spec fn operator(c: char) -> Option<TokenView> {
    if c == '!' {
        Some(TokenView::Bang)
    } else if c == '=' {
        Some(TokenView::Equal)
    } else if c == '>' {
        Some(TokenView::Greater)
    } else if c == '<' {
        Some(TokenView::Less)
    } else {
        None
    }
}

/// The same four operators as the tokens they are together with the `=`.
pub open spec fn operator_with_equal(c: char) -> Option<TokenView> {
    if c == '!' {
        Some(TokenView::BangEqual)
    } else if c == '=' {
        Some(TokenView::EqualEqual)
    } else if c == '>' {
        Some(TokenView::GreaterEqual)
    } else if c == '<' {
        Some(TokenView::LessEqual)
    } else {
        None
    }
}

/// The token that a reserved word stands for; `None` for any other text.
pub open spec fn keyword(word: Seq<char>) -> Option<TokenView> {
    if word == "and"@ {
        Some(TokenView::And)
    } else if word == "class"@ {
        Some(TokenView::Class)
    } else if word == "else"@ {
        Some(TokenView::Else)
    } else if word == "false"@ {
        Some(TokenView::False)
    } else if word == "for"@ {
        Some(TokenView::For)
    } else if word == "fun"@ {
        Some(TokenView::Fun)
    } else if word == "if"@ {
        Some(TokenView::If)
    } else if word == "nil"@ {
        Some(TokenView::Nil)
    } else if word == "or"@ {
        Some(TokenView::Or)
    } else if word == "print"@ {
        Some(TokenView::Print)
    } else if word == "return"@ {
        Some(TokenView::Return)
    } else if word == "super"@ {
        Some(TokenView::Super)
    } else if word == "this"@ {
        Some(TokenView::This)
    } else if word == "true"@ {
        Some(TokenView::True)
    } else if word == "var"@ {
        Some(TokenView::Var)
    } else if word == "while"@ {
        Some(TokenView::While)
    } else {
        None
    }
}

/// The token of a word: its keyword if it is reserved, else an identifier of
/// that name.
pub open spec fn word_token(word: Seq<char>) -> TokenView {
    match keyword(word) {
        Some(token) => token,
        None => TokenView::Identifier(word),
    }
}

/// Whether `s` begins with `=` after its first character.
pub open spec fn equal_follows(s: Seq<char>) -> bool {
    s.len() > 1 && s[1] == '='
}

/// The length of the string body that follows the opening quote `s[0]`: the
/// characters before the next quote, or all that is left if there is none.
pub open spec fn string_body_len(s: Seq<char>) -> nat {
    run_len(CharClass::Except('"'), s.skip(1))
}

/// Whether the string that `s[0]` opens is closed on this line.
pub open spec fn string_is_closed(s: Seq<char>) -> bool {
    1 + string_body_len(s) < s.len()
}

/// Whether a dot stands at `at` in `s` with a digit right behind it.
pub open spec fn fraction_follows(s: Seq<char>, at: int) -> bool {
    0 <= at && at + 1 < s.len() && s[at] == '.' && is_digit(s[at + 1])
}

/// The length of the numeral that the digit `s[0]` begins: the longest run of
/// digits, and, only if a dot and at least one digit follow it, the dot and the
/// longest run of digits behind the dot.
pub open spec fn number_len(s: Seq<char>) -> nat
    recommends
        s.len() > 0 && is_digit(s[0]),
{
    let whole = run_len(CharClass::Digit, s);
    if fraction_follows(s, whole as int) {
        whole + 1 + run_len(CharClass::Digit, s.skip(whole as int + 1))
    } else {
        whole
    }
}

/// The length of the word that `s[0]` begins: that character and the longest
/// run of identifier characters behind it.
pub open spec fn word_len(s: Seq<char>) -> nat {
    1 + run_len(CharClass::IdentifierPart, s.skip(1))
}

/// How many characters the scanner takes from the beginning of `s` in one
/// step, given that `s` is not empty.
pub open spec fn lexeme_len(s: Seq<char>) -> nat
    recommends
        s.len() > 0,
{
    let c = s[0];
    if operator(c) is Some {
        if equal_follows(s) {
            2
        } else {
            1
        }
    } else if c == '"' {
        if string_is_closed(s) {
            string_body_len(s) + 2
        } else {
            s.len()
        }
    } else if is_digit(c) {
        number_len(s)
    } else if is_identifier_start(c) {
        word_len(s)
    } else {
        1
    }
}

/// What the scanner makes of the beginning of `s` in one step, given that `s`
/// is not empty: a token, or the reason why there is none.
pub open spec fn lexeme(s: Seq<char>, line: usize) -> Scanned
    recommends
        s.len() > 0,
{
    let c = s[0];
    if punctuation(c) is Some {
        Ok(punctuation(c)->0)
    } else if operator(c) is Some {
        if equal_follows(s) {
            Ok(operator_with_equal(c)->0)
        } else {
            Ok(operator(c)->0)
        }
    } else if c == '/' {
        Ok(TokenView::Slash)
    } else if c == '"' {
        if string_is_closed(s) {
            Ok(TokenView::String(s.subrange(1, 1 + string_body_len(s) as int)))
        } else {
            Err(LexError::UnterminatedString { line })
        }
    } else if is_digit(c) {
        Ok(TokenView::Number(s.take(number_len(s) as int)))
    } else if is_identifier_start(c) {
        Ok(word_token(s.take(word_len(s) as int)))
    } else {
        Err(LexError::UnexpectedCharacter { line, character: c })
    }
}

/// Whether every character of `s` is a decimal digit.
pub open spec fn all_digits(s: Seq<char>) -> bool {
    forall|i: int| 0 <= i < s.len() ==> is_digit(#[trigger] s[i])
}

/// Whether `s` is a decimal numeral: one digit or more, and then, or not, a
/// dot and one digit or more.
pub open spec fn is_numeral(s: Seq<char>) -> bool {
    ||| s.len() > 0 && all_digits(s)
    ||| exists|dot: int| is_numeral_with_dot_at(s, dot)
}

/// Whether `s` is a decimal numeral whose dot stands at `dot`.
pub open spec fn is_numeral_with_dot_at(s: Seq<char>, dot: int) -> bool {
    &&& 0 < dot < s.len() - 1
    &&& s[dot] == '.'
    &&& all_digits(s.take(dot))
    &&& all_digits(s.skip(dot + 1))
}

/// A decimal numeral begins with a digit, and the numeral at its beginning is
/// the whole of it.
pub proof fn lemma_numeral_is_taken_whole(s: Seq<char>)
    requires
        is_numeral(s),
    ensures
        s.len() > 0,
        is_digit(s[0]),
        number_len(s) == s.len(),
{
    if s.len() > 0 && all_digits(s) {
        lemma_run_len_is(CharClass::Digit, s, s.len() as int);
    } else {
        let dot = choose|dot: int| is_numeral_with_dot_at(s, dot);
        let whole = s.take(dot);
        let fraction = s.skip(dot + 1);
        assert forall|i: int| 0 <= i < dot implies CharClass::Digit.has(#[trigger] s[i]) by {
            assert(s[i] == whole[i]);
        }
        assert(is_digit(s[0]));
        lemma_run_len_is(CharClass::Digit, s, dot);
        assert(is_digit(s[dot + 1])) by {
            assert(s[dot + 1] == fraction[0]);
        }
        lemma_run_len_is(CharClass::Digit, fraction, fraction.len() as int);
    }
}

/// Where a line begins with a digit, what the scanner takes as a number is a
/// decimal numeral.
pub proof fn lemma_number_prefix_is_numeral(s: Seq<char>)
    requires
        s.len() > 0,
        is_digit(s[0]),
    ensures
        number_len(s) <= s.len(),
        is_numeral(s.take(number_len(s) as int)),
{
    let whole = run_len(CharClass::Digit, s);
    lemma_run_len_members(CharClass::Digit, s);
    if fraction_follows(s, whole as int) {
        let behind = s.skip(whole as int + 1);
        lemma_run_len_members(CharClass::Digit, behind);
        let taken = s.take(number_len(s) as int);
        assert(all_digits(taken.take(whole as int))) by {
            assert forall|i: int| 0 <= i < whole implies is_digit(
                #[trigger] taken.take(whole as int)[i],
            ) by {
                assert(taken.take(whole as int)[i] == s[i]);
            }
        }
        assert(all_digits(taken.skip(whole as int + 1))) by {
            assert forall|i: int| 0 <= i < taken.skip(whole as int + 1).len() implies is_digit(
                #[trigger] taken.skip(whole as int + 1)[i],
            ) by {
                assert(taken.skip(whole as int + 1)[i] == behind[i]);
            }
        }
        assert(is_numeral_with_dot_at(taken, whole as int));
    } else {
        let taken = s.take(whole as int);
        assert forall|i: int| 0 <= i < taken.len() implies is_digit(#[trigger] taken[i]) by {
            assert(taken[i] == s[i]);
        }
    }
}

/// Whether `s` is a word: a character that begins an identifier, and behind
/// it only characters that continue one.
pub open spec fn is_word(s: Seq<char>) -> bool {
    &&& s.len() > 0
    &&& is_identifier_start(s[0])
    &&& forall|i: int| 1 <= i < s.len() ==> is_identifier_part(#[trigger] s[i])
}

/// Whether `c` begins nothing that the scanner knows: it is no whitespace and
/// the first character of no token.
pub open spec fn is_unexpected(c: char) -> bool {
    &&& !is_skip(c)
    &&& punctuation(c) is None
    &&& operator(c) is None
    &&& c != '/'
    &&& c != '"'
    &&& !is_digit(c)
    &&& !is_identifier_start(c)
}

/// What every entry of the scan of line `line` is like: a number is a decimal
/// numeral, a string holds no quote, an identifier is a word that is not
/// reserved, the end marker does not occur, and an error names the line, and
/// the character if it is about one, which then begins no token.
pub open spec fn is_sound_entry(entry: Scanned, line: usize) -> bool {
    match entry {
        Ok(TokenView::Number(numeral)) => is_numeral(numeral),
        Ok(TokenView::String(text)) => !text.contains('"'),
        Ok(TokenView::Identifier(name)) => is_word(name) && keyword(name) is None,
        Ok(TokenView::Eof) => false,
        Ok(_) => true,
        Err(LexError::UnexpectedCharacter { line: at, character }) => at == line && is_unexpected(
            character,
        ),
        Err(LexError::UnterminatedString { line: at }) => at == line,
    }
}

/// One step takes at least one character and no more than there are.
pub proof fn lemma_lexeme_len_bounds(s: Seq<char>)
    requires
        s.len() > 0,
    ensures
        1 <= lexeme_len(s) <= s.len(),
{
    lemma_run_len_members(CharClass::Except('"'), s.skip(1));
    lemma_run_len_members(CharClass::IdentifierPart, s.skip(1));
    lemma_run_len_members(CharClass::Digit, s);
    let whole = run_len(CharClass::Digit, s);
    if fraction_follows(s, whole as int) {
        lemma_run_len_members(CharClass::Digit, s.skip(whole as int + 1));
    }
}

/// Whether `s` begins a comment: two slashes.
pub open spec fn comment_starts(s: Seq<char>) -> bool {
    s.len() > 1 && s[0] == '/' && s[1] == '/'
}

/// The scan of a line, or of what is left of one: whitespace is passed over,
/// a comment ends the scan, and anything else is one entry followed by the
/// scan of what that entry leaves.
pub open spec fn scan_line(s: Seq<char>, line: usize) -> Seq<Scanned>
    decreases s.len(),
{
    if s.len() == 0 {
        Seq::empty()
    } else if is_skip(s[0]) {
        scan_line(s.skip(1), line)
    } else if comment_starts(s) {
        Seq::empty()
    } else {
        proof {
            lemma_lexeme_len_bounds(s);
        }
        seq![lexeme(s, line)] + scan_line(s.skip(lexeme_len(s) as int), line)
    }
}

/// The length of the first line of `s`: the characters before its first
/// newline, or all of them if it has none.
pub open spec fn line_len(s: Seq<char>) -> nat {
    run_len(CharClass::Except('\n'), s)
}

/// The scan of a text of several lines, the first of which has the number
/// `line`: the scan of the first line, followed by the scan of the lines
/// behind its newline, which count on from `line`. A newline at the very end
/// of the text begins no further line.
pub open spec fn scan_lines(s: Seq<char>, line: usize) -> Seq<Scanned>
    decreases s.len(),
{
    let first = line_len(s);
    if first + 1 < s.len() {
        scan_line(s.take(first as int), line) + scan_lines(
            s.skip(first as int + 1),
            (line + 1) as usize,
        )
    } else {
        scan_line(s.take(first as int), line)
    }
}

/// The scan of a whole source text: its lines are numbered from one.
pub open spec fn scan_text(text: Seq<char>) -> Seq<Scanned> {
    scan_lines(text, 1)
}

} // verus!
