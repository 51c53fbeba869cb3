//! Character classes of the lexical grammar.

use vstd::prelude::*;

verus! {

/// Whitespace that separates tokens and produces none.
pub open spec fn is_skip(c: char) -> bool {
    c == ' ' || c == '\n' || c == '\r' || c == '\t'
}

/// The decimal digits `0` to `9`.
pub open spec fn is_digit(c: char) -> bool {
    '0' <= c <= '9'
}

/// The letters `a` to `z` and `A` to `Z`.
pub open spec fn is_ascii_letter(c: char) -> bool {
    ('a' <= c <= 'z') || ('A' <= c <= 'Z')
}

/// The characters below U+0080.
pub open spec fn is_ascii(c: char) -> bool {
    c <= '\u{7f}'
}

/// What `char::is_alphabetic` of the standard library returns for `c`: whether
/// `c` has the Unicode property Alphabetic.
pub uninterp spec fn unicode_alphabetic(c: char) -> bool;

/// What `char::is_alphanumeric` of the standard library returns for `c`:
/// whether `c` is alphabetic or belongs to one of the Unicode number
/// categories.
pub uninterp spec fn unicode_alphanumeric(c: char) -> bool;

/// A letter: an ASCII letter, or a character beyond ASCII that Unicode calls
/// alphabetic.
pub open spec fn is_alphabetic(c: char) -> bool {
    if is_ascii(c) {
        is_ascii_letter(c)
    } else {
        unicode_alphabetic(c)
    }
}

/// A letter or a number: an ASCII letter or digit, or a character beyond ASCII
/// that Unicode calls alphabetic or numeric.
pub open spec fn is_alphanumeric(c: char) -> bool {
    if is_ascii(c) {
        is_ascii_letter(c) || is_digit(c)
    } else {
        unicode_alphanumeric(c)
    }
}

/// A character that may begin an identifier.
pub open spec fn is_identifier_start(c: char) -> bool {
    is_alphabetic(c) || c == '_'
}

/// A character that may continue an identifier.
pub open spec fn is_identifier_part(c: char) -> bool {
    is_alphanumeric(c) || c == '_'
}

/// Calls `char::is_alphabetic` of the standard library. Nothing is proved of
/// the answer, and nothing is claimed of it but that it is a function of the
/// character, the one named [`unicode_alphabetic`].
#[verifier::external_body]
fn unicode_is_alphabetic(c: char) -> (answer: bool)
    ensures
        answer == unicode_alphabetic(c),
{
    c.is_alphabetic()
}

/// Calls `char::is_alphanumeric` of the standard library. Nothing is proved of
/// the answer, and nothing is claimed of it but that it is a function of the
/// character, the one named [`unicode_alphanumeric`].
#[verifier::external_body]
fn unicode_is_alphanumeric(c: char) -> (answer: bool)
    ensures
        answer == unicode_alphanumeric(c),
{
    c.is_alphanumeric()
}

/// Whether `c` is a decimal digit.
pub fn digit(c: char) -> (answer: bool)
    ensures
        answer == is_digit(c),
{
    '0' <= c && c <= '9'
}

/// Whether `c` is a letter.
pub fn alphabetic(c: char) -> (answer: bool)
    ensures
        answer == is_alphabetic(c),
{
    if c <= '\u{7f}' {
        ('a' <= c && c <= 'z') || ('A' <= c && c <= 'Z')
    } else {
        unicode_is_alphabetic(c)
    }
}

/// Whether `c` is a letter or a number.
pub fn alphanumeric(c: char) -> (answer: bool)
    ensures
        answer == is_alphanumeric(c),
{
    if c <= '\u{7f}' {
        ('a' <= c && c <= 'z') || ('A' <= c && c <= 'Z') || ('0' <= c && c <= '9')
    } else {
        unicode_is_alphanumeric(c)
    }
}

/// Whether `c` may begin an identifier.
pub fn identifier_start(c: char) -> (answer: bool)
    ensures
        answer == is_identifier_start(c),
{
    c == '_' || alphabetic(c)
}

/// Whether `c` may continue an identifier.
pub fn identifier_part(c: char) -> (answer: bool)
    ensures
        answer == is_identifier_part(c),
{
    c == '_' || alphanumeric(c)
}

/// A set of characters of which the scanner takes a longest run.
#[derive(Clone, Copy, Debug, PartialEq, Eq)]
pub enum CharClass {
    /// The decimal digits.
    Digit,
    /// The characters that continue an identifier.
    IdentifierPart,
    /// Every character but the one given.
    Except(char),
    /// The one character given.
    Only(char),
}

impl CharClass {
    /// Whether `c` belongs to the class.
    pub open spec fn has(self, c: char) -> bool {
        match self {
            CharClass::Digit => is_digit(c),
            CharClass::IdentifierPart => is_identifier_part(c),
            CharClass::Except(other) => c != other,
            CharClass::Only(one) => c == one,
        }
    }

    /// Whether `c` belongs to the class.
    pub fn contains(&self, c: char) -> (answer: bool)
        ensures
            answer == self.has(c),
    {
        match self {
            CharClass::Digit => digit(c),
            CharClass::IdentifierPart => identifier_part(c),
            CharClass::Except(other) => c != *other,
            CharClass::Only(one) => c == *one,
        }
    }
}

} // verus!
