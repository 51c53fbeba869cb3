//! The grammar of expressions and the text that shows a tree, stated over
//! sequences of scanned entries and of characters.

use crate::number::{is_number_text, number_value};
use crate::parser::{ExprView, ObjectView, Parsed};
use crate::rendering::lex_error_message;
use crate::scanner::{token_entry, Scanned, TokenView};
use vstd::prelude::*;

verus! {

/// The value of the literal that a token is by itself, if it is one.
pub open spec fn literal(token: TokenView) -> Option<ObjectView> {
    match token {
        TokenView::True => Some(ObjectView::Boolean(true)),
        TokenView::False => Some(ObjectView::Boolean(false)),
        TokenView::Nil => Some(ObjectView::Nil),
        TokenView::Number(text) => Some(ObjectView::Number(number_value(text))),
        TokenView::String(text) => Some(ObjectView::String(text)),
        _ => None,
    }
}

/// The message of the error for a token that begins no expression.
pub open spec fn no_production_message() -> Seq<char> {
    "Wrong expression"@
}

/// The message of the error for an opening parenthesis that nothing follows.
pub open spec fn nothing_in_paren_message() -> Seq<char> {
    "Unterminated paren"@
}

/// The message of the error for a grouping that no closing parenthesis ends.
pub open spec fn missing_paren_message() -> Seq<char> {
    "pare"@
}

/// One attempt at an expression: what it gave, and how many entries it took.
pub struct Attempt {
    pub result: Parsed,
    pub taken: nat,
}

/// The attempt at an expression at the beginning of `entries`, given that
/// `entries` is not empty.
///
/// A lexical error is handed on as it is. A literal token is its literal. An
/// opening parenthesis begins a grouping: the attempt behind it is made, and
/// if it fails the grouping fails at once with the same message; if it
/// succeeds the entry behind it is taken too, and must be the closing
/// parenthesis. Any other token begins no expression.
pub open spec fn expression(entries: Seq<Scanned>) -> Attempt
    recommends
        entries.len() > 0,
    decreases entries.len(),
{
    if entries.len() == 0 {
        Attempt { result: Err(nothing_in_paren_message()), taken: 0 }
    } else {
        match entries[0] {
            Err(error) => Attempt { result: Err(lex_error_message(error)), taken: 1 },
            Ok(token) => if literal(token) is Some {
                Attempt { result: Ok(ExprView::Literal(literal(token)->0)), taken: 1 }
            } else if token is LeftParen {
                let inner = expression(entries.skip(1));
                let close = 1 + inner.taken;
                match inner.result {
                    Err(message) => Attempt { result: Err(message), taken: close },
                    Ok(expr) => if close < entries.len() {
                        if entries[close as int] == token_entry(TokenView::RightParen) {
                            Attempt {
                                result: Ok(ExprView::Grouping(Box::new(expr))),
                                taken: close + 1,
                            }
                        } else {
                            Attempt { result: Err(missing_paren_message()), taken: close + 1 }
                        }
                    } else {
                        Attempt { result: Err(missing_paren_message()), taken: close }
                    },
                }
            } else {
                Attempt { result: Err(no_production_message()), taken: 1 }
            },
        }
    }
}

/// Whether `expr` is a tree that the parser builds: a literal, whose value,
/// if it is a number, is in the notation that number literals are held in, or
/// the grouping of such a tree.
pub open spec fn is_parsed_tree(expr: ExprView) -> bool
    decreases expr,
{
    match expr {
        ExprView::Literal(ObjectView::Number(number)) => is_number_text(number),
        ExprView::Literal(_) => true,
        ExprView::Grouping(inner) => is_parsed_tree(*inner),
        _ => false,
    }
}

/// An attempt takes one entry at least, and no more than there are.
pub proof fn lemma_expression_taken_bounds(entries: Seq<Scanned>)
    requires
        entries.len() > 0,
    ensures
        1 <= expression(entries).taken <= entries.len(),
    decreases entries.len(),
{
    reveal_with_fuel(expression, 2);
    if entries[0] is Ok && entries[0]->Ok_0 is LeftParen && entries.len() > 1 {
        lemma_expression_taken_bounds(entries.skip(1));
    }
}

/// The parse of scanned entries: the attempt at their beginning, and the
/// parse of what that attempt leaves.
pub open spec fn parse(entries: Seq<Scanned>) -> Seq<Parsed>
    decreases entries.len(),
{
    if entries.len() == 0 {
        Seq::empty()
    } else {
        proof {
            lemma_expression_taken_bounds(entries);
        }
        seq![expression(entries).result] + parse(entries.skip(expression(entries).taken as int))
    }
}

/// The text that shows the value of a literal.
pub open spec fn object_text(value: ObjectView) -> Seq<char> {
    match value {
        ObjectView::Nil => "nil"@,
        ObjectView::Boolean(value) => if value {
            "true"@
        } else {
            "false"@
        },
        ObjectView::Number(number) => number,
        ObjectView::String(text) => text,
    }
}

/// The text that shows a tree: a literal is its value, a grouping is its
/// inner tree between `(group ` and `)`. The other forms have no text of
/// their own yet and show as `Wrong expr`.
pub open spec fn expr_text(expr: ExprView) -> Seq<char>
    decreases expr,
{
    match expr {
        ExprView::Literal(value) => object_text(value),
        ExprView::Grouping(inner) => "(group "@ + expr_text(*inner) + ")"@,
        _ => "Wrong expr"@,
    }
}

} // verus!
