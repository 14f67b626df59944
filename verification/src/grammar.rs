//! The grammar of decimal texts, stated from the parts of a text.
//!
//! [`decimal_of_text`](crate::decimal::decimal_of_text) reads a text from
//! the left. The laws here say the same from the other side: a text put
//! together from a sign, digits, a point, more digits and an exponent is a
//! decimal text, and writes the number that its parts write.

use crate::decimal::{
    is_decimal_text, layout_of, marker_at, minus_at, sign_at, text_exponent, text_mantissa,
};
use crate::text::{all_digits, digit_run_end, is_digit, lemma_digit_run, number_value};
use vstd::prelude::*;

verus! {

/// Whether `sign` is a plus sign, a minus sign, or no sign at all.
pub open spec fn is_sign(sign: Seq<char>) -> bool {
    sign.len() == 0 || sign =~= seq!['+'] || sign =~= seq!['-']
}

/// Whether `marker` is the marker of an exponent.
pub open spec fn is_marker(marker: char) -> bool {
    marker == 'e' || marker == 'E'
}

/// The number that a signed run of digits writes.
pub open spec fn signed_value(sign: Seq<char>, digits: Seq<char>) -> int {
    if sign =~= seq!['-'] {
        -(number_value(digits) as int)
    } else {
        number_value(digits) as int
    }
}

/// A run of digits that ends where the text ends, or before a character
/// that is no digit, is the longest run from its start.
pub proof fn lemma_run_of_digits(s: Seq<char>, from: int, to: int)
    requires
        0 <= from <= to <= s.len(),
        forall|i: int| from <= i < to ==> is_digit(#[trigger] s[i]),
        to < s.len() ==> !is_digit(s[to]),
    ensures
        digit_run_end(s, from) == to,
    decreases to - from,
{
    if from < to {
        lemma_run_of_digits(s, from + 1, to);
    }
}

/// Digits with a point among them, behind an optional sign, are a decimal
/// text: the digits are its coefficient, and each digit behind the point
/// takes one from its power of ten.
pub proof fn lemma_digits_with_point(sign: Seq<char>, whole: Seq<char>, fraction: Seq<char>)
    requires
        is_sign(sign),
        all_digits(whole),
        all_digits(fraction),
        whole.len() + fraction.len() > 0,
    ensures
        ({
            let text = sign + whole + seq!['.'] + fraction;
            &&& is_decimal_text(text)
            &&& !layout_of(text).has_exponent
            &&& minus_at(text, 0) == (sign =~= seq!['-'])
            &&& text_mantissa(text) == number_value(whole + fraction)
            &&& text_exponent(text) == -fraction.len()
        }),
{
    let text = sign + whole + seq!['.'] + fraction;
    let start = sign.len() as int;
    let point = start + whole.len();
    let end = text.len() as int;
    assert(text[point] == '.');
    assert forall|i: int| start <= i < point implies is_digit(#[trigger] text[i]) by {
        assert(text[i] == whole[i - start]);
    }
    assert forall|i: int| point + 1 <= i < end implies is_digit(#[trigger] text[i]) by {
        assert(text[i] == fraction[i - point - 1]);
    }
    if sign.len() == 0 {
        assert(!sign_at(text, 0)) by {
            if whole.len() > 0 {
                assert(is_digit(text[0]));
            }
        }
    } else {
        assert(text[0] == sign[0]);
    }
    lemma_run_of_digits(text, start, point);
    lemma_run_of_digits(text, point + 1, end);
    lemma_run_of_digits(text, end, end);
    assert(text.subrange(start, point) =~= whole);
    assert(text.subrange(point + 1, end) =~= fraction);
    assert(text.subrange(end, end) =~= Seq::<char>::empty());
}

/// Digits behind an optional sign are a decimal text: the digits are its
/// coefficient, and its power of ten is zero.
pub proof fn lemma_digits_alone(sign: Seq<char>, whole: Seq<char>)
    requires
        is_sign(sign),
        all_digits(whole),
        whole.len() > 0,
    ensures
        ({
            let text = sign + whole;
            &&& is_decimal_text(text)
            &&& !layout_of(text).has_exponent
            &&& minus_at(text, 0) == (sign =~= seq!['-'])
            &&& text_mantissa(text) == number_value(whole)
            &&& text_exponent(text) == 0
        }),
{
    let text = sign + whole;
    let start = sign.len() as int;
    let end = text.len() as int;
    assert forall|i: int| start <= i < end implies is_digit(#[trigger] text[i]) by {
        assert(text[i] == whole[i - start]);
    }
    if sign.len() == 0 {
        assert(is_digit(text[0]));
    } else {
        assert(text[0] == sign[0]);
    }
    lemma_run_of_digits(text, start, end);
    lemma_run_of_digits(text, end, end);
    assert(text.subrange(start, end) =~= whole);
    assert(text.subrange(end, end) =~= Seq::<char>::empty());
    assert(whole + Seq::<char>::empty() =~= whole);
}

/// Where a text goes on behind a run of digits with a character that is no
/// digit, the run is the same in the longer text.
pub proof fn lemma_run_in_longer_text(s: Seq<char>, rest: Seq<char>, from: int)
    requires
        0 <= from <= s.len(),
        rest.len() > 0 ==> !is_digit(rest[0]),
    ensures
        digit_run_end(s + rest, from) == digit_run_end(s, from),
    decreases s.len() - from,
{
    let t = s + rest;
    if from < s.len() {
        assert(t[from] == s[from]);
        if is_digit(s[from]) {
            lemma_run_in_longer_text(s, rest, from + 1);
        }
    } else if rest.len() > 0 {
        assert(t[from] == rest[0]);
    }
}

/// A decimal text without an exponent, followed by a marker, an optional
/// sign and digits, is a decimal text: it has the coefficient of the text
/// before the marker, and the exponent is added to its power of ten.
pub proof fn lemma_with_exponent(
    base: Seq<char>,
    marker: char,
    sign: Seq<char>,
    digits: Seq<char>,
)
    requires
        is_decimal_text(base),
        !layout_of(base).has_exponent,
        is_marker(marker),
        is_sign(sign),
        all_digits(digits),
        digits.len() > 0,
    ensures
        ({
            let text = base + seq![marker] + sign + digits;
            &&& is_decimal_text(text)
            &&& minus_at(text, 0) == minus_at(base, 0)
            &&& text_mantissa(text) == text_mantissa(base)
            &&& text_exponent(text) == text_exponent(base) + signed_value(sign, digits)
        }),
{
    let rest = seq![marker] + sign + digits;
    let text = base + rest;
    assert(text =~= base + seq![marker] + sign + digits);
    let l = layout_of(base);
    let n = base.len() as int;
    lemma_digit_run(base, l.whole_start);
    lemma_digit_run(base, l.fraction_start);
    assert(l.fraction_end == n) by {
        lemma_run_of_digits(base, l.fraction_end, l.fraction_end);
    }
    assert(rest[0] == marker);
    assert(base.len() > 0);
    assert(text[0] == base[0]);
    lemma_run_in_longer_text(base, rest, l.whole_start);
    if l.whole_end < n {
        assert(text[l.whole_end] == base[l.whole_end]);
    }
    lemma_run_in_longer_text(base, rest, l.fraction_start);
    let t = layout_of(text);
    assert(t.whole_start == l.whole_start);
    assert(t.whole_end == l.whole_end);
    assert(t.fraction_start == l.fraction_start);
    assert(t.fraction_end == n);
    assert(text[n] == marker);
    assert(marker_at(text, n));
    let begin = n + 1 + sign.len();
    let end = text.len() as int;
    if sign.len() == 0 {
        assert(text[n + 1] == digits[0]);
        assert(is_digit(text[n + 1]));
    } else {
        assert(text[n + 1] == sign[0]);
    }
    assert(t.exponent_start == begin);
    assert forall|i: int| begin <= i < end implies is_digit(#[trigger] text[i]) by {
        assert(text[i] == digits[i - begin]);
    }
    lemma_run_of_digits(text, begin, end);
    assert(text.subrange(begin, end) =~= digits);
    assert(text.subrange(t.whole_start, t.whole_end) =~= base.subrange(l.whole_start, l.whole_end));
    assert(text.subrange(t.fraction_start, t.fraction_end) =~= base.subrange(
        l.fraction_start,
        l.fraction_end,
    ));
    assert(base.subrange(l.exponent_start, l.exponent_end) =~= Seq::<char>::empty());
}

} // verus!
