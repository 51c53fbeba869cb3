//! What holds of the notation that number literals are held in.

use crate::chars::{is_digit, CharClass};
use crate::grammar::{
    all_digits, is_numeral, is_numeral_with_dot_at, lemma_run_len_is, lemma_run_len_members,
    run_len,
};
use crate::number::{
    all_zeros, first_dot, formatted_number, fraction_part, is_number_text, number_text,
    number_value, trailing_zeros, whole_part, without_leading_zeros, without_trailing_zeros,
};
use vstd::prelude::*;

verus! {

/// The parts of a decimal numeral are digits: one or more before the dot,
/// and, if there is a dot, one or more behind it.
pub proof fn lemma_numeral_parts(numeral: Seq<char>)
    requires
        is_numeral(numeral),
    ensures
        whole_part(numeral).len() > 0,
        all_digits(whole_part(numeral)),
        all_digits(fraction_part(numeral)),
        first_dot(numeral) < numeral.len() ==> fraction_part(numeral).len() > 0,
        first_dot(numeral) <= numeral.len(),
{
    if numeral.len() > 0 && all_digits(numeral) {
        assert forall|i: int| 0 <= i < numeral.len() implies CharClass::Except('.').has(
            #[trigger] numeral[i],
        ) by {
            assert(is_digit(numeral[i]));
        }
        lemma_run_len_is(CharClass::Except('.'), numeral, numeral.len() as int);
        assert(whole_part(numeral) =~= numeral);
    } else {
        let dot = choose|dot: int| is_numeral_with_dot_at(numeral, dot);
        assert forall|i: int| 0 <= i < dot implies CharClass::Except('.').has(
            #[trigger] numeral[i],
        ) by {
            assert(numeral[i] == numeral.take(dot)[i]);
            assert(is_digit(numeral.take(dot)[i]));
        }
        lemma_run_len_is(CharClass::Except('.'), numeral, dot);
    }
}

/// The formatted value of a decimal numeral is a decimal numeral with a dot:
/// it always shows a dot with one digit or more behind it.
pub proof fn formatted_numeral_has_fraction(s: Seq<char>)
    requires
        is_numeral(s),
    ensures
        exists|dot: int| is_numeral_with_dot_at(formatted_number(s), dot),
        is_numeral(formatted_number(s)),
{
    reveal_strlit(".0");
    lemma_numeral_parts(s);
    let formatted = formatted_number(s);
    let whole = whole_part(s);
    if first_dot(s) == s.len() || all_zeros(fraction_part(s)) {
        assert(formatted =~= whole + seq!['.', '0']);
        assert(formatted.take(whole.len() as int) =~= whole);
        assert(formatted.skip(whole.len() as int + 1) =~= seq!['0']);
        assert(is_numeral_with_dot_at(formatted, whole.len() as int));
    } else {
        let dot = first_dot(s) as int;
        lemma_run_len_members(CharClass::Except('.'), s);
        assert(s.take(dot) == whole);
        assert(s.skip(dot + 1) == fraction_part(s));
        assert(is_numeral_with_dot_at(formatted, dot));
    }
}

/// What is left of digits without their leading zeros is digits, one or
/// more.
pub proof fn lemma_without_leading_zeros_is_digits(digits: Seq<char>)
    requires
        all_digits(digits),
    ensures
        without_leading_zeros(digits).len() > 0,
        all_digits(without_leading_zeros(digits)),
{
    let zeros = run_len(CharClass::Only('0'), digits);
    lemma_run_len_members(CharClass::Only('0'), digits);
    if zeros < digits.len() {
        let rest = digits.skip(zeros as int);
        assert forall|i: int| 0 <= i < rest.len() implies is_digit(#[trigger] rest[i]) by {
            assert(rest[i] == digits[i + zeros]);
        }
    }
}

/// Digits end with no more zeros than they have characters.
pub proof fn lemma_trailing_zeros_bound(digits: Seq<char>)
    ensures
        trailing_zeros(digits) <= digits.len(),
    decreases digits.len(),
{
    if digits.len() > 0 && digits.last() == '0' {
        lemma_trailing_zeros_bound(digits.drop_last());
    }
}

/// What is left of digits without their trailing zeros is digits, one or
/// more.
pub proof fn lemma_without_trailing_zeros_is_digits(digits: Seq<char>)
    requires
        all_digits(digits),
    ensures
        without_trailing_zeros(digits).len() > 0,
        all_digits(without_trailing_zeros(digits)),
{
    let zeros = trailing_zeros(digits);
    lemma_trailing_zeros_bound(digits);
    if zeros < digits.len() {
        let rest = digits.take(digits.len() - zeros);
        assert forall|i: int| 0 <= i < rest.len() implies is_digit(#[trigger] rest[i]) by {
            assert(rest[i] == digits[i]);
        }
    }
}

/// The text that a number literal is held in is a decimal numeral with a
/// dot: it always shows a dot with one digit or more on each side.
pub proof fn number_text_has_whole_and_fraction(numeral: Seq<char>)
    requires
        is_numeral(numeral),
    ensures
        is_numeral_with_dot_at(
            number_text(numeral),
            without_leading_zeros(whole_part(numeral)).len() as int,
        ),
        is_numeral(number_text(numeral)),
{
    lemma_numeral_parts(numeral);
    let whole = without_leading_zeros(whole_part(numeral));
    let fraction = without_trailing_zeros(fraction_part(numeral));
    lemma_without_leading_zeros_is_digits(whole_part(numeral));
    lemma_without_trailing_zeros_is_digits(fraction_part(numeral));
    let text = number_text(numeral);
    assert(text.take(whole.len() as int) =~= whole);
    assert(text.skip(whole.len() as int + 1) =~= fraction);
    assert(is_numeral_with_dot_at(text, whole.len() as int));
}

/// The number that a number token stands for always shows a dot with one
/// digit or more on each side, whatever the text of the token.
pub proof fn number_value_has_whole_and_fraction(text: Seq<char>)
    ensures
        is_numeral(number_value(text)),
        exists|dot: int| is_numeral_with_dot_at(number_value(text), dot),
{
    if is_numeral(text) {
        number_text_has_whole_and_fraction(text);
    } else {
        let zero = seq!['0', '.', '0'];
        assert(zero.take(1) =~= seq!['0']);
        assert(zero.skip(2) =~= seq!['0']);
        assert(is_numeral_with_dot_at(zero, 1));
    }
}

/// The value of a decimal digit.
pub open spec fn digit_value(c: char) -> nat {
    if is_digit(c) {
        (c as int - '0' as int) as nat
    } else {
        0
    }
}

/// The number that a sequence of decimal digits writes; zero for none.
pub open spec fn digits_value(digits: Seq<char>) -> nat
    decreases digits.len(),
{
    if digits.len() == 0 {
        0
    } else {
        10 * digits_value(digits.drop_last()) + digit_value(digits.last())
    }
}

/// Ten to the power of `n`.
pub open spec fn power_of_ten(n: nat) -> nat
    decreases n,
{
    if n == 0 {
        1
    } else {
        10 * power_of_ten((n - 1) as nat)
    }
}

/// Whether two numerals write the same number: their whole parts have the
/// same value, and so have their fractions once each is given as many places
/// as the other has.
pub open spec fn write_same_number(a: Seq<char>, b: Seq<char>) -> bool {
    &&& digits_value(whole_part(a)) == digits_value(whole_part(b))
    &&& digits_value(fraction_part(a)) * power_of_ten(fraction_part(b).len()) == digits_value(
        fraction_part(b),
    ) * power_of_ten(fraction_part(a).len())
}

/// Powers of ten multiply by adding their exponents.
pub proof fn lemma_power_of_ten_adds(a: nat, b: nat)
    ensures
        power_of_ten(a) * power_of_ten(b) == power_of_ten(a + b),
    decreases a,
{
    if a == 0 {
        assert(power_of_ten(0) == 1);
        assert(1 * power_of_ten(b) == power_of_ten(b));
    } else {
        let less = (a - 1) as nat;
        lemma_power_of_ten_adds(less, b);
        assert(power_of_ten(a) == 10 * power_of_ten(less));
        assert((a + b - 1) as nat == less + b);
        assert(power_of_ten(a + b) == 10 * power_of_ten(less + b));
        let x = power_of_ten(less);
        let y = power_of_ten(b);
        assert((10 * x) * y == 10 * (x * y)) by (nonlinear_arith);
    }
}

/// A zero in front of digits does not change what they write.
pub proof fn lemma_leading_zero_has_no_value(digits: Seq<char>)
    requires
        digits.len() > 0,
        digits[0] == '0',
    ensures
        digits_value(digits) == digits_value(digits.skip(1)),
    decreases digits.len(),
{
    if digits.len() == 1 {
        assert(digits.skip(1) =~= Seq::<char>::empty());
        assert(digits.drop_last() =~= Seq::<char>::empty());
        assert(digits_value(Seq::<char>::empty()) == 0);
    } else {
        lemma_leading_zero_has_no_value(digits.drop_last());
        assert(digits.skip(1).drop_last() =~= digits.drop_last().skip(1));
        assert(digits.skip(1).last() == digits.last());
    }
}

/// Zeros in front of digits do not change what they write.
pub proof fn lemma_leading_zeros_have_no_value(digits: Seq<char>, zeros: nat)
    requires
        zeros <= digits.len(),
        forall|i: int| 0 <= i < zeros ==> digits[i] == '0',
    ensures
        digits_value(digits) == digits_value(digits.skip(zeros as int)),
    decreases zeros,
{
    if zeros == 0 {
        assert(digits.skip(0) =~= digits);
    } else {
        lemma_leading_zero_has_no_value(digits);
        let rest = digits.skip(1);
        assert forall|i: int| 0 <= i < zeros - 1 implies rest[i] == '0' by {
            assert(rest[i] == digits[i + 1]);
        }
        lemma_leading_zeros_have_no_value(rest, (zeros - 1) as nat);
        assert(rest.skip(zeros - 1) =~= digits.skip(zeros as int));
    }
}

/// Digits without their leading zeros write the same number.
pub proof fn lemma_without_leading_zeros_keeps_value(digits: Seq<char>)
    ensures
        digits_value(without_leading_zeros(digits)) == digits_value(digits),
{
    let zeros = run_len(CharClass::Only('0'), digits);
    lemma_run_len_members(CharClass::Only('0'), digits);
    lemma_leading_zeros_have_no_value(digits, zeros);
    if zeros >= digits.len() {
        assert(digits.skip(zeros as int) =~= Seq::<char>::empty());
        assert(digits_value(Seq::<char>::empty()) == 0);
        let zero = seq!['0'];
        assert(zero.drop_last() =~= Seq::<char>::empty());
        assert(digits_value(zero) == 0);
    }
}

/// Each zero that digits end with multiplies what the digits before it write
/// by ten.
pub proof fn lemma_trailing_zeros_scale(digits: Seq<char>)
    ensures
        trailing_zeros(digits) <= digits.len(),
        digits_value(digits) == digits_value(digits.take(digits.len() - trailing_zeros(digits)))
            * power_of_ten(trailing_zeros(digits)),
    decreases digits.len(),
{
    let zeros = trailing_zeros(digits);
    if digits.len() > 0 && digits.last() == '0' {
        let shorter = digits.drop_last();
        lemma_trailing_zeros_scale(shorter);
        let fewer = trailing_zeros(shorter);
        assert(zeros == fewer + 1);
        let kept = digits.take(digits.len() - zeros);
        assert(shorter.take(shorter.len() - fewer) =~= kept);
        let kept_value = digits_value(kept);
        let scale = power_of_ten(fewer);
        assert(digit_value('0') == 0);
        assert(digits_value(digits) == 10 * digits_value(shorter));
        assert(digits_value(shorter) == kept_value * scale);
        assert(power_of_ten(zeros) == 10 * scale);
        assert(10 * (kept_value * scale) == kept_value * (10 * scale)) by (nonlinear_arith);
    } else {
        assert(zeros == 0);
        assert(power_of_ten(0) == 1);
        assert(digits.take(digits.len() as int) =~= digits);
        assert(digits_value(digits) * 1 == digits_value(digits));
    }
}

/// Digits without their trailing zeros write the same fraction: the values
/// agree once each is given as many places as the other has.
pub proof fn lemma_without_trailing_zeros_keeps_value(digits: Seq<char>)
    ensures
        digits_value(digits) * power_of_ten(without_trailing_zeros(digits).len())
            == digits_value(without_trailing_zeros(digits)) * power_of_ten(digits.len()),
{
    let zeros = trailing_zeros(digits);
    lemma_trailing_zeros_scale(digits);
    if zeros < digits.len() {
        let kept = digits.take(digits.len() - zeros);
        lemma_power_of_ten_adds(zeros, kept.len());
        let value = digits_value(kept);
        let a = power_of_ten(zeros);
        let b = power_of_ten(kept.len());
        assert((value * a) * b == value * (a * b)) by (nonlinear_arith);
    } else {
        assert(digits.take(0) =~= Seq::<char>::empty());
        assert(digits_value(Seq::<char>::empty()) == 0);
        let zero = seq!['0'];
        assert(zero.drop_last() =~= Seq::<char>::empty());
        assert(digits_value(zero) == 0);
        assert(digits_value(digits) == 0) by (nonlinear_arith)
            requires
                digits_value(digits) == 0 * power_of_ten(zeros),
        ;
        assert(0 * power_of_ten(1) == 0 * power_of_ten(digits.len())) by (nonlinear_arith);
    }
}

/// The parts of the text that a number literal is held in are the parts of
/// the numeral without their idle zeros.
pub proof fn lemma_number_text_parts(numeral: Seq<char>)
    requires
        is_numeral(numeral),
    ensures
        whole_part(number_text(numeral)) == without_leading_zeros(whole_part(numeral)),
        fraction_part(number_text(numeral)) == without_trailing_zeros(fraction_part(numeral)),
{
    lemma_numeral_parts(numeral);
    let whole = without_leading_zeros(whole_part(numeral));
    let fraction = without_trailing_zeros(fraction_part(numeral));
    lemma_without_leading_zeros_is_digits(whole_part(numeral));
    lemma_without_trailing_zeros_is_digits(fraction_part(numeral));
    let text = number_text(numeral);
    assert forall|i: int| 0 <= i < whole.len() implies CharClass::Except('.').has(
        #[trigger] text[i],
    ) by {
        assert(text[i] == whole[i]);
        assert(is_digit(whole[i]));
    }
    assert(text[whole.len() as int] == '.');
    lemma_run_len_is(CharClass::Except('.'), text, whole.len() as int);
    assert(text.take(whole.len() as int) =~= whole);
    assert(text.skip(whole.len() as int + 1) =~= fraction);
}

/// The text that a number literal is held in writes the same number as the
/// numeral it was made from: nothing is rounded and nothing is lost.
pub proof fn number_text_writes_the_same_number(numeral: Seq<char>)
    requires
        is_numeral(numeral),
    ensures
        write_same_number(numeral, number_text(numeral)),
{
    lemma_number_text_parts(numeral);
    lemma_without_leading_zeros_keeps_value(whole_part(numeral));
    lemma_without_trailing_zeros_keeps_value(fraction_part(numeral));
}

/// The text that a number literal is held in is the same for a numeral and
/// for the text made from it: it is a normal form.
pub proof fn number_text_is_a_normal_form(numeral: Seq<char>)
    requires
        is_numeral(numeral),
    ensures
        number_text(number_text(numeral)) == number_text(numeral),
{
    lemma_number_text_parts(numeral);
    lemma_numeral_parts(numeral);
    let whole = without_leading_zeros(whole_part(numeral));
    let fraction = without_trailing_zeros(fraction_part(numeral));
    lemma_without_leading_zeros_is_normal(whole_part(numeral));
    lemma_without_trailing_zeros_is_normal(fraction_part(numeral));
}

/// Digits without their leading zeros have no leading zeros left to lose.
pub proof fn lemma_without_leading_zeros_is_normal(digits: Seq<char>)
    ensures
        without_leading_zeros(without_leading_zeros(digits)) == without_leading_zeros(digits),
{
    let zeros = run_len(CharClass::Only('0'), digits);
    lemma_run_len_members(CharClass::Only('0'), digits);
    if zeros < digits.len() {
        let rest = digits.skip(zeros as int);
        assert(rest[0] == digits[zeros as int]);
        lemma_run_len_is(CharClass::Only('0'), rest, 0);
        assert(rest.skip(0) =~= rest);
    } else {
        let zero = seq!['0'];
        lemma_run_len_is(CharClass::Only('0'), zero, 1);
    }
}

/// Digits without their trailing zeros have no trailing zeros left to lose.
pub proof fn lemma_without_trailing_zeros_is_normal(digits: Seq<char>)
    ensures
        without_trailing_zeros(without_trailing_zeros(digits)) == without_trailing_zeros(digits),
{
    let zeros = trailing_zeros(digits);
    lemma_trailing_zeros_bound(digits);
    lemma_trailing_zeros_stop(digits);
    if zeros < digits.len() {
        let kept = digits.take(digits.len() - zeros);
        assert(kept.last() == digits[digits.len() - zeros - 1]);
        assert(trailing_zeros(kept) == 0);
        assert(kept.take(kept.len() as int) =~= kept);
    } else {
        let zero = seq!['0'];
        assert(zero.drop_last() =~= Seq::<char>::empty());
        assert(trailing_zeros(zero.drop_last()) == 0);
        assert(trailing_zeros(zero) == 1);
    }
}

/// The digit before the zeros that digits end with is no zero.
pub proof fn lemma_trailing_zeros_stop(digits: Seq<char>)
    ensures
        trailing_zeros(digits) <= digits.len(),
        trailing_zeros(digits) < digits.len() ==> digits[digits.len() - trailing_zeros(digits)
            - 1] != '0',
    decreases digits.len(),
{
    if digits.len() > 0 && digits.last() == '0' {
        lemma_trailing_zeros_stop(digits.drop_last());
    }
}

/// The number that a number token stands for is always in the notation that
/// a number literal is held in, whatever the text of the token.
pub proof fn number_value_is_number_text(text: Seq<char>)
    ensures
        is_number_text(number_value(text)),
{
    if is_numeral(text) {
        number_text_has_whole_and_fraction(text);
        number_text_is_a_normal_form(text);
    } else {
        let zero = seq!['0', '.', '0'];
        number_value_has_whole_and_fraction(text);
        assert(zero[0] != '.' && zero[1] == '.');
        lemma_run_len_is(CharClass::Except('.'), zero, 1);
        assert(whole_part(zero) =~= seq!['0']);
        assert(fraction_part(zero) =~= seq!['0']);
        let digit = seq!['0'];
        lemma_run_len_is(CharClass::Only('0'), digit, 1);
        assert(digit.drop_last() =~= Seq::<char>::empty());
        assert(trailing_zeros(digit.drop_last()) == 0);
        assert(trailing_zeros(digit) == 1);
        assert(number_text(zero) =~= zero);
    }
}

/// Digits that are all zeros write zero.
pub proof fn lemma_zeros_write_zero(digits: Seq<char>)
    requires
        all_zeros(digits),
    ensures
        digits_value(digits) == 0,
{
    lemma_leading_zeros_have_no_value(digits, digits.len());
    assert(digits.skip(digits.len() as int) =~= Seq::<char>::empty());
    assert(digits_value(Seq::<char>::empty()) == 0);
}

/// The formatted value of a decimal numeral writes the same number as the
/// numeral: what a number token shows as its value is the number that was
/// written.
pub proof fn formatted_number_writes_the_same_number(s: Seq<char>)
    requires
        is_numeral(s),
    ensures
        write_same_number(s, formatted_number(s)),
{
    reveal_strlit(".0");
    lemma_numeral_parts(s);
    let formatted = formatted_number(s);
    let whole = whole_part(s);
    if first_dot(s) == s.len() || all_zeros(fraction_part(s)) {
        assert(formatted =~= whole + seq!['.', '0']);
        assert forall|i: int| 0 <= i < whole.len() implies CharClass::Except('.').has(
            #[trigger] formatted[i],
        ) by {
            assert(formatted[i] == whole[i]);
            assert(is_digit(whole[i]));
        }
        assert(formatted[whole.len() as int] == '.');
        lemma_run_len_is(CharClass::Except('.'), formatted, whole.len() as int);
        assert(whole_part(formatted) =~= whole);
        let zero = seq!['0'];
        assert(fraction_part(formatted) =~= zero);
        lemma_zeros_write_zero(zero);
        lemma_zeros_write_zero(fraction_part(s));
        let a = power_of_ten(1);
        let b = power_of_ten(fraction_part(s).len());
        assert(0 * a == 0 * b) by (nonlinear_arith);
    }
}

} // verus!
