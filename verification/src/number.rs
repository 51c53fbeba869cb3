//! Number literals in decimal notation.
//!
//! A number token shows its value with a dot and a digit behind it. A number
//! literal is held as text: the whole part without leading zeros, a dot, and
//! the fraction without trailing zeros. Neither changes the number that the
//! numeral writes.

use crate::chars::{digit, CharClass};
use crate::grammar::{
    is_numeral, lemma_number_prefix_is_numeral, lemma_numeral_is_taken_whole, run_len,
};
use crate::number_laws::number_value_is_number_text;
use crate::scanner::{number_end, run_end};
use crate::text::{collect, to_chars};
use vstd::prelude::*;
use vstd::string::*;

verus! {

/// The position of the first dot of `s`, or the length of `s` if it has none.
pub open spec fn first_dot(s: Seq<char>) -> nat {
    run_len(CharClass::Except('.'), s)
}

/// The digits of a numeral before its dot.
pub open spec fn whole_part(numeral: Seq<char>) -> Seq<char> {
    numeral.take(first_dot(numeral) as int)
}

/// The digits of a numeral behind its dot; none if it has no dot.
pub open spec fn fraction_part(numeral: Seq<char>) -> Seq<char> {
    if first_dot(numeral) < numeral.len() {
        numeral.skip(first_dot(numeral) as int + 1)
    } else {
        Seq::empty()
    }
}

/// Whether every character of `s` is the digit zero.
pub open spec fn all_zeros(s: Seq<char>) -> bool {
    forall|i: int| 0 <= i < s.len() ==> #[trigger] s[i] == '0'
}

/// A numeral as a number token shows its value. A numeral without a dot gets
/// `.0` added. A numeral with nothing but zeros behind its dot shows one of
/// them. Any other numeral shows as it is written.
pub open spec fn formatted_number(numeral: Seq<char>) -> Seq<char> {
    if first_dot(numeral) == numeral.len() {
        numeral + ".0"@
    } else if all_zeros(fraction_part(numeral)) {
        whole_part(numeral) + ".0"@
    } else {
        numeral
    }
}

/// How many zeros `digits` ends with.
pub open spec fn trailing_zeros(digits: Seq<char>) -> nat
    decreases digits.len(),
{
    if digits.len() > 0 && digits.last() == '0' {
        1 + trailing_zeros(digits.drop_last())
    } else {
        0
    }
}

/// `digits` without the zeros it begins with; `0` if nothing else is there.
pub open spec fn without_leading_zeros(digits: Seq<char>) -> Seq<char> {
    let zeros = run_len(CharClass::Only('0'), digits);
    if zeros < digits.len() {
        digits.skip(zeros as int)
    } else {
        seq!['0']
    }
}

/// `digits` without the zeros it ends with; `0` if nothing else is there.
pub open spec fn without_trailing_zeros(digits: Seq<char>) -> Seq<char> {
    let zeros = trailing_zeros(digits);
    if zeros < digits.len() {
        digits.take(digits.len() - zeros)
    } else {
        seq!['0']
    }
}

/// The number that a decimal numeral writes, in the one notation that a
/// number literal is held in: the whole part without leading zeros, a dot, and
/// the fraction without trailing zeros, with one digit at least on each side.
pub open spec fn number_text(numeral: Seq<char>) -> Seq<char> {
    without_leading_zeros(whole_part(numeral)) + seq!['.'] + without_trailing_zeros(
        fraction_part(numeral),
    )
}

/// The number that the text of a number token stands for: the number that it
/// writes if it is a decimal numeral, and zero if it is not.
pub open spec fn number_value(text: Seq<char>) -> Seq<char> {
    if is_numeral(text) {
        number_text(text)
    } else {
        seq!['0', '.', '0']
    }
}

/// Whether `text` is a number in the notation that a number literal is held
/// in: a decimal numeral with no zero to strip.
pub open spec fn is_number_text(text: Seq<char>) -> bool {
    is_numeral(text) && number_text(text) == text
}

/// Whether `chars` is a decimal numeral.
pub fn numeral(chars: &[char]) -> (answer: bool)
    ensures
        answer == is_numeral(chars@),
{
    if chars.len() == 0 || !digit(chars[0]) {
        proof {
            if is_numeral(chars@) {
                lemma_numeral_is_taken_whole(chars@);
            }
        }
        return false;
    }
    let end = number_end(chars, 0);
    proof {
        assert(chars@.skip(0) =~= chars@);
        if is_numeral(chars@) {
            lemma_numeral_is_taken_whole(chars@);
        }
        if end == chars.len() {
            lemma_number_prefix_is_numeral(chars@);
            assert(chars@.take(chars@.len() as int) =~= chars@);
        }
    }
    end == chars.len()
}

/// The number that `chars` writes, in the notation that a number literal is
/// held in.
pub fn number_string(chars: &[char]) -> (number: String)
    ensures
        number@ == number_text(chars@),
{
    let dot = run_end(chars, 0, CharClass::Except('.'));
    let ghost whole = chars@.take(dot as int);
    let ghost fraction = fraction_part(chars@);
    proof {
        assert(chars@.skip(0) =~= chars@);
        assert(whole.skip(0) =~= whole);
    }
    let mut from: usize = 0;
    while from < dot && chars[from] == '0'
        invariant
            from <= dot <= chars.len(),
            whole == chars@.take(dot as int),
            run_len(CharClass::Only('0'), whole) == from + run_len(
                CharClass::Only('0'),
                whole.skip(from as int),
            ),
        decreases dot - from,
    {
        assert(whole.skip(from as int).skip(1) =~= whole.skip(from + 1));
        from = from + 1;
    }
    let mut number = if from < dot {
        assert(whole.skip(from as int) =~= chars@.subrange(from as int, dot as int));
        collect(chars, from, dot)
    } else {
        String::from_str("0")
    };
    proof {
        reveal_strlit("0");
        assert("0"@ =~= seq!['0']);
    }
    assert(number@ == without_leading_zeros(whole));
    number.push('.');
    let mut end: usize = chars.len();
    if dot < chars.len() {
        assert(fraction.take(fraction.len() as int) =~= fraction);
        while end > dot + 1 && chars[end - 1] == '0'
            invariant
                dot < end <= chars.len(),
                fraction == chars@.skip(dot + 1),
                trailing_zeros(fraction) == (chars.len() - end) + trailing_zeros(
                    fraction.take(end - dot - 1),
                ),
            decreases end,
        {
            assert(fraction.take(end - dot - 1).drop_last() =~= fraction.take(end - dot - 2));
            end = end - 1;
        }
        if end > dot + 1 {
            let digits = collect(chars, dot + 1, end);
            assert(fraction.take(end - dot - 1) =~= chars@.subrange(dot + 1, end as int));
            number.append(digits.as_str());
        } else {
            number.push('0');
        }
    } else {
        number.push('0');
    }
    assert(number@ =~= number_text(chars@));
    number
}

/// The number that the text of a number token stands for: the number that it
/// writes if it is a decimal numeral, and zero if it is not.
pub fn number_of(text: &String) -> (number: String)
    ensures
        number@ == number_value(text@),
        is_number_text(number@),
{
    proof {
        number_value_is_number_text(text@);
    }
    let chars = to_chars(text.as_str());
    if numeral(chars.as_slice()) {
        number_string(chars.as_slice())
    } else {
        let number = String::from_str("0.0");
        proof {
            reveal_strlit("0.0");
            assert("0.0"@ =~= seq!['0', '.', '0']);
        }
        number
    }
}

} // verus!
