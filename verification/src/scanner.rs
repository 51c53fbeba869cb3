//! The scanner: source text becomes tokens and lexical errors, line by line.

use crate::chars::{digit, identifier_start, is_digit, is_skip, CharClass};
use crate::grammar::{
    comment_starts, is_numeral, is_sound_entry, keyword, lemma_lexeme_len_bounds,
    lemma_run_len_is, lemma_run_len_members, lexeme, lexeme_len, line_len, number_len, operator, operator_with_equal, punctuation, run_len, scan_line,
    scan_lines, scan_text, string_body_len, word_len,
};
use crate::number::{all_zeros, formatted_number, fraction_part, whole_part};
use crate::number_laws::{formatted_number_writes_the_same_number, write_same_number};
use crate::rendering::{lex_error_message, token_lexeme, token_literal, token_name, token_text};
use crate::scanner_laws::scanned_entries_are_sound;
use crate::text::{collect, push_decimal, spells, to_chars};
use vstd::prelude::*;
use vstd::slice::slice_subrange;
use vstd::string::*;

verus! {

/// A lexical unit of the language.
///
/// String, number and identifier tokens carry text: the content between the
/// quotes, the numeral as written, and the name.
#[derive(Clone, Debug, PartialEq, Eq)]
pub enum Token {
    LeftParen,
    RightParen,
    LeftBrace,
    RightBrace,
    /// The end marker. No scan holds it: it is shown behind the last token.
    Eof,
    Comma,
    Dot,
    Minus,
    Plus,
    Semicolon,
    Star,
    Bang,
    BangEqual,
    Equal,
    EqualEqual,
    Greater,
    GreaterEqual,
    Less,
    LessEqual,
    Slash,
    /// A string literal, with what stands between its quotes.
    String(String),
    /// A number literal, with its numeral as written.
    Number(String),
    /// An identifier, with its name.
    Identifier(String),
    And,
    Class,
    Else,
    False,
    For,
    Fun,
    If,
    Nil,
    Or,
    Print,
    Return,
    Super,
    This,
    True,
    Var,
    While,
}

/// A token as a mathematical value: its texts are character sequences.
pub enum TokenView {
    LeftParen,
    RightParen,
    LeftBrace,
    RightBrace,
    Eof,
    Comma,
    Dot,
    Minus,
    Plus,
    Semicolon,
    Star,
    Bang,
    BangEqual,
    Equal,
    EqualEqual,
    Greater,
    GreaterEqual,
    Less,
    LessEqual,
    Slash,
    String(Seq<char>),
    Number(Seq<char>),
    Identifier(Seq<char>),
    And,
    Class,
    Else,
    False,
    For,
    Fun,
    If,
    Nil,
    Or,
    Print,
    Return,
    Super,
    This,
    True,
    Var,
    While,
}

impl View for Token {
    type V = TokenView;

    open spec fn view(&self) -> TokenView {
        match self {
            Token::LeftParen => TokenView::LeftParen,
            Token::RightParen => TokenView::RightParen,
            Token::LeftBrace => TokenView::LeftBrace,
            Token::RightBrace => TokenView::RightBrace,
            Token::Eof => TokenView::Eof,
            Token::Comma => TokenView::Comma,
            Token::Dot => TokenView::Dot,
            Token::Minus => TokenView::Minus,
            Token::Plus => TokenView::Plus,
            Token::Semicolon => TokenView::Semicolon,
            Token::Star => TokenView::Star,
            Token::Bang => TokenView::Bang,
            Token::BangEqual => TokenView::BangEqual,
            Token::Equal => TokenView::Equal,
            Token::EqualEqual => TokenView::EqualEqual,
            Token::Greater => TokenView::Greater,
            Token::GreaterEqual => TokenView::GreaterEqual,
            Token::Less => TokenView::Less,
            Token::LessEqual => TokenView::LessEqual,
            Token::Slash => TokenView::Slash,
            Token::String(text) => TokenView::String(text@),
            Token::Number(numeral) => TokenView::Number(numeral@),
            Token::Identifier(name) => TokenView::Identifier(name@),
            Token::And => TokenView::And,
            Token::Class => TokenView::Class,
            Token::Else => TokenView::Else,
            Token::False => TokenView::False,
            Token::For => TokenView::For,
            Token::Fun => TokenView::Fun,
            Token::If => TokenView::If,
            Token::Nil => TokenView::Nil,
            Token::Or => TokenView::Or,
            Token::Print => TokenView::Print,
            Token::Return => TokenView::Return,
            Token::Super => TokenView::Super,
            Token::This => TokenView::This,
            Token::True => TokenView::True,
            Token::Var => TokenView::Var,
            Token::While => TokenView::While,
        }
    }
}

/// Why a stretch of a line is no token.
#[derive(Clone, Copy, Debug, PartialEq, Eq)]
pub enum LexError {
    /// A character that begins no token.
    UnexpectedCharacter { line: usize, character: char },
    /// A string literal whose closing quote is missing at the end of the line.
    UnterminatedString { line: usize },
}

/// One entry of a scan, as a mathematical value.
pub type Scanned = Result<TokenView, LexError>;

/// The entry that is a token.
pub open spec fn token_entry(token: TokenView) -> Scanned {
    Ok(token)
}

/// The entry that is a lexical error.
pub open spec fn error_entry(error: LexError) -> Scanned {
    Err(error)
}

/// The scan that is one token.
pub open spec fn one_token(token: TokenView) -> Seq<Scanned> {
    seq![token_entry(token)]
}

/// The scan that is one lexical error.
pub open spec fn one_error(error: LexError) -> Seq<Scanned> {
    seq![error_entry(error)]
}

/// The mathematical value of one entry of a scan.
pub open spec fn entry_view(entry: Result<Token, LexError>) -> Scanned {
    match entry {
        Ok(token) => Ok(token@),
        Err(error) => Err(error),
    }
}

/// The mathematical value of a scan, entry by entry.
pub open spec fn entries_view(entries: Seq<Result<Token, LexError>>) -> Seq<Scanned> {
    entries.map_values(|entry: Result<Token, LexError>| entry_view(entry))
}

/// Whether the scanner passes over `c` without making a token of it.
pub fn skip_char(c: char) -> (skipped: bool)
    ensures
        skipped == is_skip(c),
{
    c == ' ' || c == '\n' || c == '\r' || c == '\t'
}

/// The position at which the longest run of members of `class` that begins at
/// `start` ends.
pub fn run_end(chars: &[char], start: usize, class: CharClass) -> (end: usize)
    requires
        start <= chars.len(),
    ensures
        start <= end <= chars.len(),
        end == start + run_len(class, chars@.skip(start as int)),
{
    let mut end = start;
    while end < chars.len() && class.contains(chars[end])
        invariant
            start <= end <= chars.len(),
            run_len(class, chars@.skip(start as int)) == (end - start) + run_len(
                class,
                chars@.skip(end as int),
            ),
        decreases chars.len() - end,
    {
        assert(chars@.skip(end as int).skip(1) =~= chars@.skip(end + 1));
        end = end + 1;
    }
    end
}

/// The position at which the numeral that begins with the digit at `start`
/// ends: behind the longest run of digits, and behind a dot and the digits
/// after it if a dot and a digit follow that run.
pub fn number_end(chars: &[char], start: usize) -> (end: usize)
    requires
        start < chars.len(),
        is_digit(chars[start as int]),
    ensures
        start < end <= chars.len(),
        end == start + number_len(chars@.skip(start as int)),
{
    let ghost rest = chars@.skip(start as int);
    let whole = run_end(chars, start, CharClass::Digit);
    if whole < chars.len() && chars[whole] == '.' && whole + 1 < chars.len() && digit(
        chars[whole + 1],
    ) {
        assert(rest.skip(whole - start + 1) =~= chars@.skip(whole + 1));
        run_end(chars, whole + 1, CharClass::Digit)
    } else {
        whole
    }
}

/// The punctuation token that `c` is by itself, if it is one.
fn punctuation_token(c: char) -> (token: Option<Token>)
    ensures
        match token {
            Some(token) => punctuation(c) == Some(token@),
            None => punctuation(c) is None,
        },
{
    match c {
        '(' => Some(Token::LeftParen),
        ')' => Some(Token::RightParen),
        '{' => Some(Token::LeftBrace),
        '}' => Some(Token::RightBrace),
        ',' => Some(Token::Comma),
        '.' => Some(Token::Dot),
        '-' => Some(Token::Minus),
        '+' => Some(Token::Plus),
        ';' => Some(Token::Semicolon),
        '*' => Some(Token::Star),
        _ => None,
    }
}

/// The two tokens of an operator that `=` extends, if `c` is one: alone, and
/// with the `=`.
fn operator_tokens(c: char) -> (tokens: Option<(Token, Token)>)
    ensures
        match tokens {
            Some((alone, extended)) => operator(c) == Some(alone@) && operator_with_equal(c)
                == Some(extended@),
            None => operator(c) is None,
        },
{
    match c {
        '!' => Some((Token::Bang, Token::BangEqual)),
        '=' => Some((Token::Equal, Token::EqualEqual)),
        '>' => Some((Token::Greater, Token::GreaterEqual)),
        '<' => Some((Token::Less, Token::LessEqual)),
        _ => None,
    }
}

/// The keyword that the characters from `from` up to `to` spell, if they spell
/// one.
fn keyword_token(chars: &[char], from: usize, to: usize) -> (token: Option<Token>)
    requires
        from <= to <= chars.len(),
    ensures
        match token {
            Some(token) => keyword(chars@.subrange(from as int, to as int)) == Some(token@),
            None => keyword(chars@.subrange(from as int, to as int)) is None,
        },
{
    if spells(chars, from, to, "and") {
        Some(Token::And)
    } else if spells(chars, from, to, "class") {
        Some(Token::Class)
    } else if spells(chars, from, to, "else") {
        Some(Token::Else)
    } else if spells(chars, from, to, "false") {
        Some(Token::False)
    } else if spells(chars, from, to, "for") {
        Some(Token::For)
    } else if spells(chars, from, to, "fun") {
        Some(Token::Fun)
    } else if spells(chars, from, to, "if") {
        Some(Token::If)
    } else if spells(chars, from, to, "nil") {
        Some(Token::Nil)
    } else if spells(chars, from, to, "or") {
        Some(Token::Or)
    } else if spells(chars, from, to, "print") {
        Some(Token::Print)
    } else if spells(chars, from, to, "return") {
        Some(Token::Return)
    } else if spells(chars, from, to, "super") {
        Some(Token::Super)
    } else if spells(chars, from, to, "this") {
        Some(Token::This)
    } else if spells(chars, from, to, "true") {
        Some(Token::True)
    } else if spells(chars, from, to, "var") {
        Some(Token::Var)
    } else if spells(chars, from, to, "while") {
        Some(Token::While)
    } else {
        None
    }
}

impl Token {
    /// One step of the scanner: what the characters of `chars` from `start` on
    /// begin with, and the position behind it.
    ///
    /// The step is a punctuation mark; an operator, with the `=` behind it if
    /// there is one; a slash; a string up to its closing quote, or the error
    /// of a string that the line does not close, which takes the rest of the
    /// line; a numeral; a word, which is a keyword or an identifier; or the
    /// error of a character that begins none of these.
    pub fn from_chars(chars: &[char], start: usize, line: usize) -> (step: (
        Result<Token, LexError>,
        usize,
    ))
        requires
            start < chars.len(),
        ensures
            entry_view(step.0) == lexeme(chars@.skip(start as int), line),
            step.1 == start + lexeme_len(chars@.skip(start as int)),
            start < step.1 <= chars.len(),
    {
        let ghost rest = chars@.skip(start as int);
        proof {
            lemma_lexeme_len_bounds(rest);
            assert(rest.skip(1) =~= chars@.skip(start + 1));
        }
        let c = chars[start];
        if let Some(token) = punctuation_token(c) {
            return (Ok(token), start + 1);
        }
        if let Some((alone, extended)) = operator_tokens(c) {
            if start + 1 < chars.len() && chars[start + 1] == '=' {
                return (Ok(extended), start + 2);
            }
            return (Ok(alone), start + 1);
        }
        if c == '/' {
            return (Ok(Token::Slash), start + 1);
        }
        if c == '"' {
            let close = run_end(chars, start + 1, CharClass::Except('"'));
            if close < chars.len() {
                let text = collect(chars, start + 1, close);
                assert(rest.subrange(1, 1 + string_body_len(rest) as int) =~= chars@.subrange(
                    start + 1,
                    close as int,
                ));
                return (Ok(Token::String(text)), close + 1);
            }
            return (Err(LexError::UnterminatedString { line }), close);
        }
        if digit(c) {
            let end = number_end(chars, start);
            let numeral = collect(chars, start, end);
            assert(rest.take(number_len(rest) as int) =~= chars@.subrange(
                start as int,
                end as int,
            ));
            return (Ok(Token::Number(numeral)), end);
        }
        if identifier_start(c) {
            let end = run_end(chars, start + 1, CharClass::IdentifierPart);
            assert(rest.take(word_len(rest) as int) =~= chars@.subrange(start as int, end as int));
            if let Some(token) = keyword_token(chars, start, end) {
                return (Ok(token), end);
            }
            let name = collect(chars, start, end);
            return (Ok(Token::Identifier(name)), end);
        }
        (Err(LexError::UnexpectedCharacter { line, character: c }), start + 1)
    }
}

/// Scans the characters of one line of source text, given its number.
///
/// The result holds, in the order of the text, one entry for each token and
/// for each lexical error of the line: exactly [`scan_line`] of the
/// characters. Whitespace gives no entry, `//` ends the scan, an error does
/// not: the scan goes on behind the character, or the string, that caused it.
pub fn scan_chars(chars: &[char], line: usize) -> (entries: Vec<Result<Token, LexError>>)
    ensures
        entries_view(entries@) == scan_line(chars@, line),
{
    let mut entries: Vec<Result<Token, LexError>> = Vec::new();
    let mut at: usize = 0;
    assert(chars@.skip(0) =~= chars@);
    assert(entries_view(entries@) + scan_line(chars@, line) =~= scan_line(chars@, line));
    while at < chars.len()
        invariant
            at <= chars.len(),
            scan_line(chars@, line) == entries_view(entries@) + scan_line(
                chars@.skip(at as int),
                line,
            ),
        decreases chars.len() - at,
    {
        let ghost rest = chars@.skip(at as int);
        let ghost before = entries_view(entries@);
        let c = chars[at];
        if skip_char(c) {
            assert(rest.skip(1) =~= chars@.skip(at + 1));
            at = at + 1;
        } else if c == '/' && at + 1 < chars.len() && chars[at + 1] == '/' {
            assert(comment_starts(rest));
            at = chars.len();
        } else {
            let (entry, next) = Token::from_chars(chars, at, line);
            assert(rest.skip(lexeme_len(rest) as int) =~= chars@.skip(next as int));
            entries.push(entry);
            assert(entries_view(entries@) =~= before.push(lexeme(rest, line)));
            at = next;
        }
    }
    assert(chars@.skip(at as int) =~= Seq::<char>::empty());
    entries
}

/// Scans one line of source text, given its number.
///
/// The result is exactly [`scan_line`] of the characters of `input`, and
/// every entry of it is sound: a number token holds a decimal numeral, a
/// string token holds no quote, an identifier is no reserved word, and an
/// error names `line`.
pub fn tokenize(input: &str, line: usize) -> (entries: Vec<Result<Token, LexError>>)
    ensures
        entries_view(entries@) == scan_line(input@, line),
        forall|i: int|
            0 <= i < entries.len() ==> is_sound_entry(entry_view(#[trigger] entries[i]), line),
{
    let chars = to_chars(input);
    let entries = scan_chars(chars.as_slice(), line);
    proof {
        scanned_entries_are_sound(input@, line);
        assert forall|i: int| 0 <= i < entries.len() implies is_sound_entry(
            entry_view(#[trigger] entries[i]),
            line,
        ) by {
            assert(entries_view(entries@)[i] == entry_view(entries[i]));
        }
    }
    entries
}

/// Scans a whole source text, line by line.
///
/// The lines are what stands between the newlines of `source`, numbered from
/// one. The result holds the entries of all lines in the order of the text:
/// exactly [`scan_text`] of the characters of `source`. Nothing is carried
/// from one line into the next. A carriage return before a newline belongs to
/// its line, where it is whitespace, or the end of a string left open.
pub fn scan_source(source: &str) -> (entries: Vec<Result<Token, LexError>>)
    ensures
        entries_view(entries@) == scan_text(source@),
{
    let chars = to_chars(source);
    let mut entries: Vec<Result<Token, LexError>> = Vec::new();
    let mut at: usize = 0;
    let mut line: usize = 1;
    assert(chars@.skip(0) =~= chars@);
    assert(entries_view(entries@) + scan_lines(chars@, 1) =~= scan_lines(chars@, 1));
    while at < chars.len()
        invariant
            at <= chars.len(),
            line <= at + 1,
            scan_text(chars@) == entries_view(entries@) + scan_lines(chars@.skip(at as int), line),
        decreases chars.len() - at,
    {
        let ghost rest = chars@.skip(at as int);
        let ghost before = entries_view(entries@);
        let end = run_end(chars.as_slice(), at, CharClass::Except('\n'));
        let mut found = scan_chars(slice_subrange(chars.as_slice(), at, end), line);
        let ghost first = entries_view(found@);
        assert(rest.take(line_len(rest) as int) =~= chars@.subrange(at as int, end as int));
        entries.append(&mut found);
        assert(entries_view(entries@) =~= before + first);
        if end < chars.len() && end + 1 < chars.len() {
            assert(rest.skip(line_len(rest) as int + 1) =~= chars@.skip(end + 1));
            at = end + 1;
            line = line + 1;
        } else {
            at = chars.len();
        }
    }
    assert(chars@.skip(at as int) =~= Seq::<char>::empty());
    assert(Seq::<char>::empty().take(0) =~= Seq::<char>::empty());
    entries
}

/// The value of a number token as text.
///
/// A numeral without a dot gets `.0` added. A numeral with nothing but zeros
/// behind its dot keeps one of them. Any other numeral is returned as it is.
/// The text of a decimal numeral writes the same number as the numeral.
pub fn format_number_string(string: &String) -> (formatted: String)
    ensures
        formatted@ == formatted_number(string@),
        is_numeral(string@) ==> write_same_number(string@, formatted@),
{
    proof {
        if is_numeral(string@) {
            formatted_number_writes_the_same_number(string@);
        }
    }
    let chars = to_chars(string.as_str());
    let dot = run_end(chars.as_slice(), 0, CharClass::Except('.'));
    assert(chars@.skip(0) =~= chars@);
    if dot == chars.len() {
        let mut formatted = string.clone();
        formatted.append(".0");
        return formatted;
    }
    let ghost fraction = fraction_part(chars@);
    let zeros = run_end(chars.as_slice(), dot + 1, CharClass::Only('0'));
    proof {
        lemma_run_len_members(CharClass::Only('0'), fraction);
        if all_zeros(fraction) {
            lemma_run_len_is(CharClass::Only('0'), fraction, fraction.len() as int);
        }
    }
    if zeros == chars.len() {
        let mut formatted = collect(chars.as_slice(), 0, dot);
        assert(whole_part(chars@) =~= chars@.subrange(0, dot as int));
        formatted.append(".0");
        formatted
    } else {
        assert(!CharClass::Only('0').has(fraction[zeros - dot - 1]));
        string.clone()
    }
}

impl Token {
    /// The name of the token's kind, in capitals.
    pub fn name(&self) -> (name: &'static str)
        ensures
            name@ == token_name(self@),
    {
        match self {
            Token::LeftParen => "LEFT_PAREN",
            Token::RightParen => "RIGHT_PAREN",
            Token::LeftBrace => "LEFT_BRACE",
            Token::RightBrace => "RIGHT_BRACE",
            Token::Eof => "EOF",
            Token::Comma => "COMMA",
            Token::Dot => "DOT",
            Token::Minus => "MINUS",
            Token::Plus => "PLUS",
            Token::Semicolon => "SEMICOLON",
            Token::Star => "STAR",
            Token::Bang => "BANG",
            Token::BangEqual => "BANG_EQUAL",
            Token::Equal => "EQUAL",
            Token::EqualEqual => "EQUAL_EQUAL",
            Token::Greater => "GREATER",
            Token::GreaterEqual => "GREATER_EQUAL",
            Token::Less => "LESS",
            Token::LessEqual => "LESS_EQUAL",
            Token::Slash => "SLASH",
            Token::String(_) => "STRING",
            Token::Number(_) => "NUMBER",
            Token::Identifier(_) => "IDENTIFIER",
            Token::And => "AND",
            Token::Class => "CLASS",
            Token::Else => "ELSE",
            Token::False => "FALSE",
            Token::For => "FOR",
            Token::Fun => "FUN",
            Token::If => "IF",
            Token::Nil => "NIL",
            Token::Or => "OR",
            Token::Print => "PRINT",
            Token::Return => "RETURN",
            Token::Super => "SUPER",
            Token::This => "THIS",
            Token::True => "TRUE",
            Token::Var => "VAR",
            Token::While => "WHILE",
        }
    }

    /// The source text of the token: what the scanner read to make it.
    pub fn lexeme(&self) -> (lexeme: String)
        ensures
            lexeme@ == token_lexeme(self@),
    {
        match self {
            Token::LeftParen => String::from_str("("),
            Token::RightParen => String::from_str(")"),
            Token::LeftBrace => String::from_str("{"),
            Token::RightBrace => String::from_str("}"),
            Token::Eof => String::from_str(""),
            Token::Comma => String::from_str(","),
            Token::Dot => String::from_str("."),
            Token::Minus => String::from_str("-"),
            Token::Plus => String::from_str("+"),
            Token::Semicolon => String::from_str(";"),
            Token::Star => String::from_str("*"),
            Token::Bang => String::from_str("!"),
            Token::BangEqual => String::from_str("!="),
            Token::Equal => String::from_str("="),
            Token::EqualEqual => String::from_str("=="),
            Token::Greater => String::from_str(">"),
            Token::GreaterEqual => String::from_str(">="),
            Token::Less => String::from_str("<"),
            Token::LessEqual => String::from_str("<="),
            Token::Slash => String::from_str("/"),
            Token::String(text) => {
                let mut lexeme = String::new();
                lexeme.push('"');
                lexeme.append(text.as_str());
                lexeme.push('"');
                assert(lexeme@ =~= seq!['"'] + text@ + seq!['"']);
                lexeme
            },
            Token::Number(numeral) => numeral.clone(),
            Token::Identifier(name) => name.clone(),
            Token::And => String::from_str("and"),
            Token::Class => String::from_str("class"),
            Token::Else => String::from_str("else"),
            Token::False => String::from_str("false"),
            Token::For => String::from_str("for"),
            Token::Fun => String::from_str("fun"),
            Token::If => String::from_str("if"),
            Token::Nil => String::from_str("nil"),
            Token::Or => String::from_str("or"),
            Token::Print => String::from_str("print"),
            Token::Return => String::from_str("return"),
            Token::Super => String::from_str("super"),
            Token::This => String::from_str("this"),
            Token::True => String::from_str("true"),
            Token::Var => String::from_str("var"),
            Token::While => String::from_str("while"),
        }
    }

    /// The value of the token as text: the content of a string, the formatted
    /// value of a number, and `null` for every other token.
    pub fn literal(&self) -> (literal: String)
        ensures
            literal@ == token_literal(self@),
    {
        match self {
            Token::String(text) => text.clone(),
            Token::Number(numeral) => format_number_string(numeral),
            _ => String::from_str("null"),
        }
    }

    /// The line that shows the token: its name, its source text and its
    /// value, with one space between them.
    pub fn render(&self) -> (line: String)
        ensures
            line@ == token_text(self@),
    {
        let mut line = String::from_str(self.name());
        line.push(' ');
        line.append(self.lexeme().as_str());
        line.push(' ');
        line.append(self.literal().as_str());
        assert(line@ =~= token_text(self@));
        line
    }
}

impl LexError {
    /// The message of the error: the line in brackets, then what is wrong.
    pub fn message(&self) -> (message: String)
        ensures
            message@ == lex_error_message(*self),
    {
        let mut message = String::from_str("[line ");
        match self {
            LexError::UnexpectedCharacter { line, character } => {
                push_decimal(&mut message, *line);
                message.append("] Error: Unexpected character: ");
                message.push(*character);
                assert(message@ =~= lex_error_message(*self));
            },
            LexError::UnterminatedString { line } => {
                push_decimal(&mut message, *line);
                message.append("] Error: Unterminated string.");
            },
        }
        message
    }
}

} // verus!
