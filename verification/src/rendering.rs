//! The text that tokens and lexical errors are shown as, stated over
//! character sequences.

use crate::number::formatted_number;
use crate::scanner::{LexError, TokenView};
use crate::text::decimal;
use vstd::prelude::*;

verus! {

/// The name of a token's kind, in capitals.
pub open spec fn token_name(token: TokenView) -> Seq<char> {
    match token {
        TokenView::LeftParen => "LEFT_PAREN"@,
        TokenView::RightParen => "RIGHT_PAREN"@,
        TokenView::LeftBrace => "LEFT_BRACE"@,
        TokenView::RightBrace => "RIGHT_BRACE"@,
        TokenView::Eof => "EOF"@,
        TokenView::Comma => "COMMA"@,
        TokenView::Dot => "DOT"@,
        TokenView::Minus => "MINUS"@,
        TokenView::Plus => "PLUS"@,
        TokenView::Semicolon => "SEMICOLON"@,
        TokenView::Star => "STAR"@,
        TokenView::Bang => "BANG"@,
        TokenView::BangEqual => "BANG_EQUAL"@,
        TokenView::Equal => "EQUAL"@,
        TokenView::EqualEqual => "EQUAL_EQUAL"@,
        TokenView::Greater => "GREATER"@,
        TokenView::GreaterEqual => "GREATER_EQUAL"@,
        TokenView::Less => "LESS"@,
        TokenView::LessEqual => "LESS_EQUAL"@,
        TokenView::Slash => "SLASH"@,
        TokenView::String(_) => "STRING"@,
        TokenView::Number(_) => "NUMBER"@,
        TokenView::Identifier(_) => "IDENTIFIER"@,
        TokenView::And => "AND"@,
        TokenView::Class => "CLASS"@,
        TokenView::Else => "ELSE"@,
        TokenView::False => "FALSE"@,
        TokenView::For => "FOR"@,
        TokenView::Fun => "FUN"@,
        TokenView::If => "IF"@,
        TokenView::Nil => "NIL"@,
        TokenView::Or => "OR"@,
        TokenView::Print => "PRINT"@,
        TokenView::Return => "RETURN"@,
        TokenView::Super => "SUPER"@,
        TokenView::This => "THIS"@,
        TokenView::True => "TRUE"@,
        TokenView::Var => "VAR"@,
        TokenView::While => "WHILE"@,
    }
}

/// The source text of a token: what the scanner read to make it. The end
/// marker has none.
pub open spec fn token_lexeme(token: TokenView) -> Seq<char> {
    match token {
        TokenView::LeftParen => "("@,
        TokenView::RightParen => ")"@,
        TokenView::LeftBrace => "{"@,
        TokenView::RightBrace => "}"@,
        TokenView::Eof => ""@,
        TokenView::Comma => ","@,
        TokenView::Dot => "."@,
        TokenView::Minus => "-"@,
        TokenView::Plus => "+"@,
        TokenView::Semicolon => ";"@,
        TokenView::Star => "*"@,
        TokenView::Bang => "!"@,
        TokenView::BangEqual => "!="@,
        TokenView::Equal => "="@,
        TokenView::EqualEqual => "=="@,
        TokenView::Greater => ">"@,
        TokenView::GreaterEqual => ">="@,
        TokenView::Less => "<"@,
        TokenView::LessEqual => "<="@,
        TokenView::Slash => "/"@,
        TokenView::String(text) => seq!['"'] + text + seq!['"'],
        TokenView::Number(numeral) => numeral,
        TokenView::Identifier(name) => name,
        TokenView::And => "and"@,
        TokenView::Class => "class"@,
        TokenView::Else => "else"@,
        TokenView::False => "false"@,
        TokenView::For => "for"@,
        TokenView::Fun => "fun"@,
        TokenView::If => "if"@,
        TokenView::Nil => "nil"@,
        TokenView::Or => "or"@,
        TokenView::Print => "print"@,
        TokenView::Return => "return"@,
        TokenView::Super => "super"@,
        TokenView::This => "this"@,
        TokenView::True => "true"@,
        TokenView::Var => "var"@,
        TokenView::While => "while"@,
    }
}

/// The value of a token as text: the content of a string, the formatted
/// value of a number, and `null` for every other token.
pub open spec fn token_literal(token: TokenView) -> Seq<char> {
    match token {
        TokenView::String(text) => text,
        TokenView::Number(numeral) => formatted_number(numeral),
        _ => "null"@,
    }
}

/// The line that shows a token: its name, its source text and its value, with
/// one space between them.
pub open spec fn token_text(token: TokenView) -> Seq<char> {
    token_name(token) + seq![' '] + token_lexeme(token) + seq![' '] + token_literal(token)
}

/// The message of a lexical error: the line in brackets, then what is wrong.
pub open spec fn lex_error_message(error: LexError) -> Seq<char> {
    match error {
        LexError::UnexpectedCharacter { line, character } => "[line "@ + decimal(line as nat)
            + "] Error: Unexpected character: "@ + seq![character],
        LexError::UnterminatedString { line } => "[line "@ + decimal(line as nat)
            + "] Error: Unterminated string."@,
    }
}

} // verus!
