//! Numbers written as text read back as the same numbers.

use crate::decimal::{decimal_of_text, pow10, Decimal};
use crate::grammar::{
    is_sign, lemma_digits_alone, lemma_digits_with_point, lemma_with_exponent, signed_value,
};
use crate::render::{
    decimal_text, digits_of, integer_text, lemma_digits_write_the_number, plain_text, reduced,
    zeros, PLAIN_LIMIT,
};
use crate::text::{all_digits, is_digit, lemma_number_value_concat, number_value};
use vstd::prelude::*;

verus! {

/// Runs of digits make a run of digits when joined, and when cut.
pub proof fn lemma_runs_of_digits(a: Seq<char>, b: Seq<char>, at: int)
    requires
        all_digits(a),
        all_digits(b),
        0 <= at <= a.len(),
    ensures
        all_digits(a + b),
        all_digits(a.take(at)),
        all_digits(a.skip(at)),
{
    assert forall|i: int| 0 <= i < (a + b).len() implies is_digit(#[trigger] (a + b)[i]) by {
        if i < a.len() {
            assert((a + b)[i] == a[i]);
        } else {
            assert((a + b)[i] == b[i - a.len()]);
        }
    }
    assert forall|i: int| 0 <= i < a.take(at).len() implies is_digit(#[trigger] a.take(at)[i]) by {
        assert(a.take(at)[i] == a[i]);
    }
    assert forall|i: int| 0 <= i < a.skip(at).len() implies is_digit(#[trigger] a.skip(at)[i]) by {
        assert(a.skip(at)[i] == a[i + at]);
    }
}

/// Zeros behind a run of digits multiply its number by a power of ten.
pub proof fn lemma_zeros_behind(digits: Seq<char>, n: nat)
    ensures
        all_digits(zeros(n)),
        number_value(digits + zeros(n)) == number_value(digits) * pow10(n),
    decreases n,
{
    if n == 0 {
        assert(digits + zeros(0) =~= digits);
        assert(number_value(digits) * 1 == number_value(digits));
    } else {
        lemma_zeros_behind(digits, (n - 1) as nat);
        let longer = digits + zeros(n);
        let shorter = digits + zeros((n - 1) as nat);
        assert(longer.drop_last() =~= shorter);
        assert(longer.last() == '0');
        assert(number_value(longer) == number_value(shorter) * 10);
        assert(number_value(digits) * pow10((n - 1) as nat) * 10 == number_value(digits) * (10
            * pow10((n - 1) as nat))) by (nonlinear_arith);
    }
}

/// Zeros before a run of digits leave its number as it is.
pub proof fn lemma_zeros_before(n: nat, digits: Seq<char>)
    ensures
        number_value(zeros(n) + digits) == number_value(digits),
{
    lemma_zeros_behind(Seq::<char>::empty(), n);
    assert(Seq::<char>::empty() + zeros(n) =~= zeros(n));
    assert(number_value(zeros(n)) == 0) by (nonlinear_arith)
        requires
            number_value(zeros(n)) == 0 * pow10(n),
    ;
    lemma_number_value_concat(zeros(n), digits);
    lemma_number_value_concat(Seq::<char>::empty(), digits);
    assert(Seq::<char>::empty() + digits =~= digits);
}

/// A number without needless zeros is the number it was made from: the
/// coefficient lost a factor of ten for each step that the power went up.
pub proof fn lemma_reduced_keeps_the_number(mantissa: nat, exponent: int)
    ensures
        ({
            let (m, e) = reduced(mantissa, exponent);
            if mantissa == 0 {
                m == 0 && e == 0
            } else {
                e >= exponent && mantissa == m * pow10((e - exponent) as nat) && (e < 0 ==> m % 10
                    != 0)
            }
        }),
    decreases mantissa,
{
    if mantissa != 0 && exponent < 0 && mantissa % 10 == 0 {
        lemma_reduced_keeps_the_number(mantissa / 10, exponent + 1);
        let (m, e) = reduced(mantissa, exponent);
        let steps = (e - exponent - 1) as nat;
        assert(pow10(steps + 1) == 10 * pow10(steps));
        assert(mantissa == m * pow10(steps + 1)) by (nonlinear_arith)
            requires
                mantissa == (mantissa / 10) * 10,
                mantissa / 10 == m * pow10(steps),
                pow10(steps + 1) == 10 * pow10(steps),
        ;
    } else if mantissa != 0 {
        assert(mantissa * 1 == mantissa);
    }
}

/// A number with digits before and behind its point reads back as itself.
proof fn lemma_split_digits_read_back(sign: Seq<char>, mantissa: u128, exponent: i64)
    requires
        is_sign(sign),
        exponent < 0,
        digits_of(mantissa as nat).len() > -exponent,
    ensures
        decimal_of_text(sign + plain_text(mantissa as nat, exponent as int)) == Some(
            Decimal { negative: sign =~= seq!['-'], mantissa, exponent },
        ),
{
    let digits = digits_of(mantissa as nat);
    lemma_digits_write_the_number(mantissa as nat);
    let at = digits.len() + exponent;
    let whole = digits.take(at);
    let fraction = digits.skip(at);
    lemma_runs_of_digits(digits, Seq::<char>::empty(), at);
    lemma_digits_with_point(sign, whole, fraction);
    assert(whole + fraction =~= digits);
    let text = sign + whole + seq!['.'] + fraction;
    assert(sign + plain_text(mantissa as nat, exponent as int) =~= text);
}

/// A number below one, written with `0.` and zeros before its digits,
/// reads back as itself.
proof fn lemma_padded_digits_read_back(sign: Seq<char>, mantissa: u128, exponent: i64)
    requires
        is_sign(sign),
        exponent < 0,
        digits_of(mantissa as nat).len() <= -exponent,
    ensures
        decimal_of_text(sign + plain_text(mantissa as nat, exponent as int)) == Some(
            Decimal { negative: sign =~= seq!['-'], mantissa, exponent },
        ),
{
    let digits = digits_of(mantissa as nat);
    lemma_digits_write_the_number(mantissa as nat);
    let count = (-exponent - digits.len()) as nat;
    let padding = zeros(count);
    let whole = seq!['0'];
    let fraction = padding + digits;
    lemma_zeros_behind(Seq::<char>::empty(), count);
    lemma_runs_of_digits(padding, digits, 0);
    assert(all_digits(whole));
    lemma_digits_with_point(sign, whole, fraction);
    assert(whole + fraction =~= zeros(count + 1) + digits);
    lemma_zeros_before(count + 1, digits);
    let text = sign + whole + seq!['.'] + fraction;
    assert(sign + plain_text(mantissa as nat, exponent as int) =~= text) by {
        assert(seq!['0', '.'] =~= whole + seq!['.']);
    }
}

/// A number written out in full with a point reads back as itself.
pub proof fn lemma_fraction_reads_back(negative: bool, mantissa: u128, exponent: i64)
    requires
        exponent < 0,
    ensures
        ({
            let sign = if negative { seq!['-'] } else { Seq::<char>::empty() };
            decimal_of_text(sign + plain_text(mantissa as nat, exponent as int)) == Some(
                Decimal { negative, mantissa, exponent },
            )
        }),
{
    let sign = if negative { seq!['-'] } else { Seq::<char>::empty() };
    if digits_of(mantissa as nat).len() > -exponent {
        lemma_split_digits_read_back(sign, mantissa, exponent);
    } else {
        lemma_padded_digits_read_back(sign, mantissa, exponent);
    }
}

/// A whole number written out in full reads back with the power of ten
/// zero, where its digits and zeros together fit the coefficient.
pub proof fn lemma_whole_reads_back(negative: bool, mantissa: u128, exponent: i64)
    requires
        exponent >= 0,
        mantissa * pow10(exponent as nat) <= u128::MAX,
    ensures
        ({
            let sign = if negative { seq!['-'] } else { Seq::<char>::empty() };
            decimal_of_text(sign + plain_text(mantissa as nat, exponent as int)) == Some(
                Decimal {
                    negative,
                    mantissa: (mantissa * pow10(exponent as nat)) as u128,
                    exponent: 0,
                },
            )
        }),
{
    let sign = if negative { seq!['-'] } else { Seq::<char>::empty() };
    let digits = digits_of(mantissa as nat);
    lemma_digits_write_the_number(mantissa as nat);
    lemma_zeros_behind(digits, exponent as nat);
    let whole = digits + zeros(exponent as nat);
    lemma_runs_of_digits(digits, zeros(exponent as nat), 0);
    lemma_digits_alone(sign, whole);
    assert(sign + plain_text(mantissa as nat, exponent as int) =~= sign + whole);
}

/// A number written as coefficient, `e` and power reads back as itself.
pub proof fn lemma_scientific_reads_back(negative: bool, mantissa: u128, exponent: i64)
    ensures
        ({
            let sign = if negative { seq!['-'] } else { Seq::<char>::empty() };
            decimal_of_text(
                sign + digits_of(mantissa as nat) + seq!['e'] + integer_text(exponent as int),
            ) == Some(Decimal { negative, mantissa, exponent })
        }),
{
    let sign = if negative { seq!['-'] } else { Seq::<char>::empty() };
    let digits = digits_of(mantissa as nat);
    lemma_digits_write_the_number(mantissa as nat);
    lemma_digits_alone(sign, digits);
    let size = (if exponent < 0 {
        -(exponent as int)
    } else {
        exponent as int
    }) as nat;
    let power_sign = if exponent < 0 { seq!['-'] } else { Seq::<char>::empty() };
    lemma_digits_write_the_number(size);
    assert(integer_text(exponent as int) =~= power_sign + digits_of(size));
    lemma_with_exponent(sign + digits, 'e', power_sign, digits_of(size));
    assert(sign + digits + seq!['e'] + integer_text(exponent as int) =~= sign + digits + seq!['e']
        + power_sign + digits_of(size));
    assert(signed_value(power_sign, digits_of(size)) == exponent);
}

/// Whether the text of `d` can be read back. A whole number that is
/// written out with zeros behind its digits must fit the coefficient with
/// them; every other text can.
pub open spec fn is_readable(d: Decimal) -> bool {
    let (m, e) = reduced(d.mantissa as nat, d.exponent as int);
    0 < e <= PLAIN_LIMIT ==> m * pow10(e as nat) <= u128::MAX
}

/// The decimal as which the text of `d` reads back: the same number,
/// without its needless zeros, and with the zeros that were written out
/// behind its digits in the coefficient.
pub open spec fn read_back(d: Decimal) -> Decimal {
    let (m, e) = reduced(d.mantissa as nat, d.exponent as int);
    if 0 < e <= PLAIN_LIMIT {
        Decimal { negative: d.negative, mantissa: (m * pow10(e as nat)) as u128, exponent: 0 }
    } else {
        Decimal { negative: d.negative, mantissa: m as u128, exponent: e as i64 }
    }
}

/// The text of a decimal reads back as the same number.
pub proof fn lemma_decimal_text_reads_back(d: Decimal)
    requires
        is_readable(d),
    ensures
        decimal_of_text(decimal_text(d)) == Some(read_back(d)),
{
    let (m, e) = reduced(d.mantissa as nat, d.exponent as int);
    lemma_reduced_keeps_the_number(d.mantissa as nat, d.exponent as int);
    lemma_reduced_is_no_larger(d.mantissa as nat, d.exponent as int);
    if -PLAIN_LIMIT <= e <= PLAIN_LIMIT {
        if e < 0 {
            lemma_fraction_reads_back(d.negative, m as u128, e as i64);
        } else {
            if e == 0 {
                assert(m * pow10(0) == m) by (nonlinear_arith)
                    requires
                        pow10(0) == 1,
                ;
            }
            lemma_whole_reads_back(d.negative, m as u128, e as i64);
        }
    } else {
        lemma_scientific_reads_back(d.negative, m as u128, e as i64);
    }
}

/// Leaving needless zeros out makes the coefficient no larger and keeps
/// the power of ten between the power it was and zero, or where it was.
pub proof fn lemma_reduced_is_no_larger(mantissa: nat, exponent: int)
    ensures
        reduced(mantissa, exponent).0 <= mantissa,
        exponent <= 0 ==> exponent <= reduced(mantissa, exponent).1 <= 0,
        exponent > 0 && mantissa > 0 ==> reduced(mantissa, exponent).1 == exponent,
        mantissa == 0 ==> reduced(mantissa, exponent).1 == 0,
    decreases mantissa,
{
    if mantissa != 0 && exponent < 0 && mantissa % 10 == 0 {
        lemma_reduced_is_no_larger(mantissa / 10, exponent + 1);
    }
}

} // verus!
