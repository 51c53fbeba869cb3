//! The parser: scanned entries become expression trees.

use crate::number::number_of;
use crate::parser_laws::parse_gives_parsed_trees;
use crate::scanner::{
    entries_view, entry_view, token_entry, LexError, Scanned, Token, TokenView,
};
use crate::syntax::{
    expr_text, expression, is_parsed_tree, lemma_expression_taken_bounds, literal,
    nothing_in_paren_message, object_text, parse,
};
use vstd::prelude::*;
use vstd::string::*;

verus! {

/// The value of a literal.
///
/// A number is held as text, in decimal notation with a dot: it is exactly
/// the number that was written, and no rounding takes place.
#[derive(Clone, Debug, PartialEq, Eq)]
pub enum Object {
    /// The value of `nil`.
    Nil,
    /// The value of `true` or `false`.
    Boolean(bool),
    /// A number, as text: digits, a dot, digits, with no zero to strip.
    Number(String),
    /// The content of a string literal.
    String(String),
}

/// The value of a literal as a mathematical value.
pub enum ObjectView {
    Nil,
    Boolean(bool),
    Number(Seq<char>),
    String(Seq<char>),
}

impl View for Object {
    type V = ObjectView;

    open spec fn view(&self) -> ObjectView {
        match self {
            Object::Nil => ObjectView::Nil,
            Object::Boolean(value) => ObjectView::Boolean(*value),
            Object::Number(numeral) => ObjectView::Number(numeral@),
            Object::String(text) => ObjectView::String(text@),
        }
    }
}

/// An expression tree. Every node owns the nodes below it.
///
/// The parser builds literals and groupings. The other forms are the shape
/// that the rest of the grammar will take.
#[derive(Debug, PartialEq, Eq)]
pub enum Expr {
    Literal(Object),
    Grouping(Box<Expr>),
    Unary { operator: Token, operand: Box<Expr> },
    Binary { left: Box<Expr>, operator: Token, right: Box<Expr> },
    Logical { left: Box<Expr>, operator: Token, right: Box<Expr> },
    Assign { name: Token, value: Box<Expr> },
    Call { callee: Box<Expr>, paren: Token, arguments: Vec<Expr> },
    Get { object: Box<Expr>, name: Token },
    SetProperty { object: Box<Expr>, name: Token, value: Box<Expr> },
    Super { keyword: Token, method: Token },
    This { keyword: Token },
    Variable { name: Token },
}

/// An expression tree as a mathematical value.
pub enum ExprView {
    Literal(ObjectView),
    Grouping(Box<ExprView>),
    Unary { operator: TokenView, operand: Box<ExprView> },
    Binary { left: Box<ExprView>, operator: TokenView, right: Box<ExprView> },
    Logical { left: Box<ExprView>, operator: TokenView, right: Box<ExprView> },
    Assign { name: TokenView, value: Box<ExprView> },
    Call { callee: Box<ExprView>, paren: TokenView, arguments: Seq<ExprView> },
    Get { object: Box<ExprView>, name: TokenView },
    SetProperty { object: Box<ExprView>, name: TokenView, value: Box<ExprView> },
    Super { keyword: TokenView, method: TokenView },
    This { keyword: TokenView },
    Variable { name: TokenView },
}

/// The mathematical value of an expression tree.
pub open spec fn expr_view(expr: Expr) -> ExprView
    decreases expr,
{
    match expr {
        Expr::Literal(value) => ExprView::Literal(value@),
        Expr::Grouping(inner) => ExprView::Grouping(Box::new(expr_view(*inner))),
        Expr::Unary { operator, operand } => ExprView::Unary {
            operator: operator@,
            operand: Box::new(expr_view(*operand)),
        },
        Expr::Binary { left, operator, right } => ExprView::Binary {
            left: Box::new(expr_view(*left)),
            operator: operator@,
            right: Box::new(expr_view(*right)),
        },
        Expr::Logical { left, operator, right } => ExprView::Logical {
            left: Box::new(expr_view(*left)),
            operator: operator@,
            right: Box::new(expr_view(*right)),
        },
        Expr::Assign { name, value } => ExprView::Assign {
            name: name@,
            value: Box::new(expr_view(*value)),
        },
        Expr::Call { callee, paren, arguments } => ExprView::Call {
            callee: Box::new(expr_view(*callee)),
            paren: paren@,
            arguments: Seq::new(
                arguments@.len(),
                |i: int|
                    if 0 <= i < arguments@.len() {
                        expr_view(arguments@[i])
                    } else {
                        ExprView::Literal(ObjectView::Nil)
                    },
            ),
        },
        Expr::Get { object, name } => ExprView::Get {
            object: Box::new(expr_view(*object)),
            name: name@,
        },
        Expr::SetProperty { object, name, value } => ExprView::SetProperty {
            object: Box::new(expr_view(*object)),
            name: name@,
            value: Box::new(expr_view(*value)),
        },
        Expr::Super { keyword, method } => ExprView::Super { keyword: keyword@, method: method@ },
        Expr::This { keyword } => ExprView::This { keyword: keyword@ },
        Expr::Variable { name } => ExprView::Variable { name: name@ },
    }
}

impl View for Expr {
    type V = ExprView;

    open spec fn view(&self) -> ExprView {
        expr_view(*self)
    }
}

/// Why a stretch of the scanned entries is no expression.
#[derive(Clone, Debug, PartialEq, Eq)]
pub struct ParseError {
    /// What is wrong. A lexical error that the parser hands on is here with
    /// its own message.
    pub message: String,
}

impl View for ParseError {
    type V = Seq<char>;

    open spec fn view(&self) -> Seq<char> {
        self.message@
    }
}

/// One result of a parse, as a mathematical value: a tree, or the message of
/// an error.
pub type Parsed = Result<ExprView, Seq<char>>;

/// The mathematical value of one result of a parse.
pub open spec fn result_view(result: Result<Expr, ParseError>) -> Parsed {
    match result {
        Ok(expr) => Ok(expr@),
        Err(error) => Err(error@),
    }
}

/// The mathematical value of a parse, result by result.
pub open spec fn results_view(results: Seq<Result<Expr, ParseError>>) -> Seq<Parsed> {
    results.map_values(|result: Result<Expr, ParseError>| result_view(result))
}

impl ParseError {
    /// The error that carries `message`.
    fn new(message: &str) -> (error: ParseError)
        ensures
            error@ == message@,
    {
        ParseError { message: String::from_str(message) }
    }
}

impl Object {
    /// The text that shows the value.
    pub fn render(&self) -> (text: String)
        ensures
            text@ == object_text(self@),
    {
        match self {
            Object::Nil => String::from_str("nil"),
            Object::Boolean(value) => if *value {
                String::from_str("true")
            } else {
                String::from_str("false")
            },
            Object::Number(number) => number.clone(),
            Object::String(text) => text.clone(),
        }
    }
}

/// The value of the literal that `token` is by itself, if it is one.
fn literal_of(token: &Token) -> (value: Option<Object>)
    ensures
        match value {
            Some(value) => literal(token@) == Some(value@),
            None => literal(token@) is None,
        },
{
    match token {
        Token::True => Some(Object::Boolean(true)),
        Token::False => Some(Object::Boolean(false)),
        Token::Nil => Some(Object::Nil),
        Token::Number(text) => Some(Object::Number(number_of(text))),
        Token::String(text) => Some(Object::String(text.clone())),
        _ => None,
    }
}

/// Whether `entry` is the closing parenthesis.
fn is_right_paren(entry: &Result<Token, LexError>) -> (answer: bool)
    ensures
        answer == (entry_view(*entry) == token_entry(TokenView::RightParen)),
{
    match entry {
        Ok(Token::RightParen) => true,
        _ => false,
    }
}

impl Expr {
    /// The attempt at an expression that begins at `start`: what it gives,
    /// and the position behind the entries it took.
    ///
    /// A lexical error is handed on with its message. A literal token gives
    /// its literal. An opening parenthesis gives the grouping of the
    /// expression behind it; the grouping fails with the message of that
    /// expression where it fails, and where the entry behind it is not the
    /// closing parenthesis. Any other token fails.
    pub fn from_tokens(entries: &[Result<Token, LexError>], start: usize) -> (attempt: (
        Result<Expr, ParseError>,
        usize,
    ))
        requires
            start < entries.len(),
        ensures
            result_view(attempt.0) == expression(entries_view(entries@).skip(start as int)).result,
            attempt.1 == start + expression(entries_view(entries@).skip(start as int)).taken,
            start < attempt.1 <= entries.len(),
        decreases entries.len() - start,
    {
        let ghost all = entries_view(entries@);
        let ghost rest = all.skip(start as int);
        proof {
            lemma_expression_taken_bounds(rest);
            assert(rest.skip(1) =~= all.skip(start + 1));
        }
        match &entries[start] {
            Err(error) => (Err(ParseError { message: error.message() }), start + 1),
            Ok(token) => {
                if let Some(value) = literal_of(token) {
                    return (Ok(Expr::Literal(value)), start + 1);
                }
                match token {
                    Token::LeftParen => {
                        if start + 1 == entries.len() {
                            assert(expression(rest).result == Err::<ExprView, Seq<char>>(
                                nothing_in_paren_message(),
                            ) && expression(rest).taken == 1) by {
                                reveal_with_fuel(expression, 2);
                            }
                            return (Err(ParseError::new("Unterminated paren")), start + 1);
                        }
                        let (inner, close) = Expr::from_tokens(entries, start + 1);
                        match inner {
                            Err(error) => (Err(error), close),
                            Ok(expr) => {
                                if close == entries.len() {
                                    (Err(ParseError::new("pare")), close)
                                } else if is_right_paren(&entries[close]) {
                                    (Ok(Expr::Grouping(Box::new(expr))), close + 1)
                                } else {
                                    (Err(ParseError::new("pare")), close + 1)
                                }
                            },
                        }
                    },
                    _ => (Err(ParseError::new("Wrong expression")), start + 1),
                }
            },
        }
    }

    /// The text that shows the tree.
    pub fn render(&self) -> (text: String)
        ensures
            text@ == expr_text(self@),
        decreases self,
    {
        match self {
            Expr::Literal(value) => value.render(),
            Expr::Grouping(inner) => {
                let mut text = String::from_str("(group ");
                text.append(inner.render().as_str());
                text.append(")");
                text
            },
            _ => String::from_str("Wrong expr"),
        }
    }
}

/// Parses scanned entries into expressions.
///
/// The result holds, in the order of the entries, one result for each
/// attempt at an expression: exactly [`parse`] of the entries. An attempt
/// begins at the first entry and then behind each attempt before it; a
/// failure does not end the parse.
pub fn parse_tokens(entries: &[Result<Token, LexError>]) -> (results: Vec<Result<Expr, ParseError>>)
    ensures
        results_view(results@) == parse(entries_view(entries@)),
        forall|i: int|
            0 <= i < results.len() ==> (#[trigger] results[i] matches Ok(expr) ==> is_parsed_tree(
                expr@,
            )),
{
    let ghost all = entries_view(entries@);
    let mut results: Vec<Result<Expr, ParseError>> = Vec::new();
    let mut at: usize = 0;
    assert(all.skip(0) =~= all);
    assert(results_view(results@) + parse(all) =~= parse(all));
    while at < entries.len()
        invariant
            at <= entries.len(),
            all == entries_view(entries@),
            parse(all) == results_view(results@) + parse(all.skip(at as int)),
        decreases entries.len() - at,
    {
        let ghost rest = all.skip(at as int);
        let ghost before = results_view(results@);
        let (result, next) = Expr::from_tokens(entries, at);
        assert(rest.skip(expression(rest).taken as int) =~= all.skip(next as int));
        results.push(result);
        assert(results_view(results@) =~= before.push(expression(rest).result));
        at = next;
    }
    assert(all.skip(at as int) =~= Seq::<Scanned>::empty());
    proof {
        parse_gives_parsed_trees(all);
        assert forall|i: int| 0 <= i < results.len() implies (#[trigger] results[i] matches Ok(
            expr,
        ) ==> is_parsed_tree(expr@)) by {
            assert(results_view(results@)[i] == result_view(results[i]));
        }
    }
    results
}

} // verus!
