//! Exact decimal numbers.
//!
//! Chances and multipliers of the feed are fractions such as `12.5` or
//! `0.25`. A [`Decimal`] keeps such a number exactly, as a sign, a whole
//! coefficient and a power of ten, so that reading a text, dividing by a
//! hundred and cutting off the fraction are all integer work.

use crate::text::{
    chars_of, digit_run_end, fitting, lemma_fitting_continued, lemma_fitting_from_zero,
    number_value, scan_digits,
};
use vstd::arithmetic::div_mod::*;
use vstd::prelude::*;

verus! {

/// The number `mantissa * 10^exponent`, negated where `negative` is set.
#[derive(Clone, Copy, Debug, PartialEq, Eq, Structural)]
pub struct Decimal {
    pub negative: bool,
    pub mantissa: u128,
    pub exponent: i64,
}

/// Ten to the power `n`.
pub open spec fn pow10(n: nat) -> nat
    decreases n,
{
    if n == 0 {
        1
    } else {
        10 * pow10((n - 1) as nat)
    }
}

/// Whether a sign character stands at `at`.
pub open spec fn sign_at(s: Seq<char>, at: int) -> bool {
    0 <= at < s.len() && (s[at] == '+' || s[at] == '-')
}

/// Whether a minus sign stands at `at`.
pub open spec fn minus_at(s: Seq<char>, at: int) -> bool {
    0 <= at < s.len() && s[at] == '-'
}

/// Whether an exponent marker stands at `at`.
pub open spec fn marker_at(s: Seq<char>, at: int) -> bool {
    0 <= at < s.len() && (s[at] == 'e' || s[at] == 'E')
}

/// Where the parts of a decimal text begin and end.
///
/// The text is read as an optional sign, digits, an optional point followed
/// by digits, and an optional exponent: a marker `e` or `E`, an optional sign
/// and digits.
pub struct Layout {
    pub whole_start: int,
    pub whole_end: int,
    pub fraction_start: int,
    pub fraction_end: int,
    pub has_exponent: bool,
    pub exponent_start: int,
    pub exponent_end: int,
}

/// The layout of `s`, read from the left as far as the grammar goes.
pub open spec fn layout_of(s: Seq<char>) -> Layout {
    let whole_start: int = if sign_at(s, 0) { 1 } else { 0 };
    let whole_end = digit_run_end(s, whole_start);
    let has_point = whole_end < s.len() && s[whole_end] == '.';
    let fraction_start = if has_point { whole_end + 1 } else { whole_end };
    let fraction_end = digit_run_end(s, fraction_start);
    let has_exponent = marker_at(s, fraction_end);
    let exponent_start = if !has_exponent {
        fraction_end
    } else if sign_at(s, fraction_end + 1) {
        fraction_end + 2
    } else {
        fraction_end + 1
    };
    let exponent_end = digit_run_end(s, exponent_start);
    Layout {
        whole_start,
        whole_end,
        fraction_start,
        fraction_end,
        has_exponent,
        exponent_start,
        exponent_end,
    }
}

/// Whether `s` is a decimal text: at least one digit before or behind the
/// point, at least one digit in an exponent, and nothing left over.
pub open spec fn is_decimal_text(s: Seq<char>) -> bool {
    let l = layout_of(s);
    &&& (l.whole_end - l.whole_start) + (l.fraction_end - l.fraction_start) > 0
    &&& l.has_exponent ==> l.exponent_end > l.exponent_start
    &&& l.exponent_end == s.len()
}

/// The coefficient that a decimal text writes: its digits before and behind
/// the point, read as one number.
pub open spec fn text_mantissa(s: Seq<char>) -> nat {
    let l = layout_of(s);
    number_value(
        s.subrange(l.whole_start, l.whole_end) + s.subrange(l.fraction_start, l.fraction_end),
    )
}

/// The power of ten that a decimal text writes: its exponent, less one for
/// each digit behind the point.
pub open spec fn text_exponent(s: Seq<char>) -> int {
    let l = layout_of(s);
    let written = number_value(s.subrange(l.exponent_start, l.exponent_end)) as int;
    let signed = if l.has_exponent && minus_at(s, l.fraction_end + 1) {
        -written
    } else {
        written
    };
    signed - (l.fraction_end - l.fraction_start)
}

/// The number that a text writes, if it is a decimal text whose coefficient
/// and power of ten fit a [`Decimal`].
pub open spec fn decimal_of_text(s: Seq<char>) -> Option<Decimal> {
    if is_decimal_text(s) && text_mantissa(s) <= u128::MAX && i64::MIN <= text_exponent(s)
        <= i64::MAX {
        Some(
            Decimal {
                negative: minus_at(s, 0),
                mantissa: text_mantissa(s) as u128,
                exponent: text_exponent(s) as i64,
            },
        )
    } else {
        None
    }
}

/// The whole part of the size of `d`, whatever its sign.
pub open spec fn whole_magnitude(d: Decimal) -> nat {
    if d.exponent >= 0 {
        d.mantissa as nat * pow10(d.exponent as nat)
    } else {
        d.mantissa as nat / pow10((-d.exponent) as nat)
    }
}

/// `d` with its fraction cut off.
pub open spec fn whole_part(d: Decimal) -> int {
    if d.negative {
        -(whole_magnitude(d) as int)
    } else {
        whole_magnitude(d) as int
    }
}

/// The 32-bit integer nearest to `v`.
pub open spec fn clamp_i32(v: int) -> i32 {
    if v < i32::MIN {
        i32::MIN
    } else if v > i32::MAX {
        i32::MAX
    } else {
        v as i32
    }
}

/// The whole number `n` as a decimal.
pub open spec fn decimal_of_integer(n: i64) -> Decimal {
    Decimal {
        negative: n < 0,
        mantissa: (if n < 0 { -(n as int) } else { n as int }) as u128,
        exponent: 0,
    }
}

/// A hundredth of `d`, if its power of ten can go down by two.
pub open spec fn hundredth_of(d: Decimal) -> Option<Decimal> {
    if d.exponent < i64::MIN + 2 {
        None
    } else {
        Some(
            Decimal {
                negative: d.negative,
                mantissa: d.mantissa,
                exponent: (d.exponent - 2) as i64,
            },
        )
    }
}

/// A power of ten is at least one.
proof fn lemma_pow10_positive(n: nat)
    ensures
        pow10(n) >= 1,
    decreases n,
{
    if n > 0 {
        lemma_pow10_positive((n - 1) as nat);
    }
}

/// Powers of ten grow with the exponent.
proof fn lemma_pow10_monotonic(a: nat, b: nat)
    requires
        a <= b,
    ensures
        pow10(a) <= pow10(b),
    decreases b,
{
    if a < b {
        lemma_pow10_monotonic(a, (b - 1) as nat);
        lemma_pow10_positive((b - 1) as nat);
    }
}

impl Decimal {
    /// The whole number `n`.
    pub fn from_integer(n: i64) -> (d: Decimal)
        ensures
            d == decimal_of_integer(n),
            whole_part(d) == n,
    {
        let wide: i128 = n as i128;
        let mantissa: u128 = if n < 0 {
            (-wide) as u128
        } else {
            wide as u128
        };
        proof {
            reveal_with_fuel(pow10, 1);
            assert(mantissa as nat * 1 == mantissa as nat);
        }
        Decimal { negative: n < 0, mantissa, exponent: 0 }
    }

    /// The number one.
    pub fn one() -> (d: Decimal)
        ensures
            d == (Decimal { negative: false, mantissa: 1, exponent: 0 }),
    {
        Decimal { negative: false, mantissa: 1, exponent: 0 }
    }

    /// The number zero.
    pub fn zero() -> (d: Decimal)
        ensures
            d == (Decimal { negative: false, mantissa: 0, exponent: 0 }),
    {
        Decimal { negative: false, mantissa: 0, exponent: 0 }
    }

    /// A hundredth of this number, exactly: the power of ten goes down by
    /// two. `None` where it cannot go down any further.
    pub fn hundredth(self) -> (r: Option<Decimal>)
        ensures
            r == hundredth_of(self),
    {
        if self.exponent < i64::MIN + 2 {
            None
        } else {
            Some(
                Decimal {
                    negative: self.negative,
                    mantissa: self.mantissa,
                    exponent: self.exponent - 2,
                },
            )
        }
    }

    /// This number with its fraction cut off, as the nearest 32-bit integer:
    /// what lies beyond the range comes out as the range's end.
    pub fn truncate(self) -> (n: i32)
        ensures
            n == clamp_i32(whole_part(self)),
    {
        let limit: u128 = 0x8000_0000;
        let mut magnitude: u128 = self.mantissa;
        let mut exponent: i64 = self.exponent;
        proof {
            reveal_with_fuel(pow10, 1);
            assert(self.mantissa as nat / 1 == self.mantissa as nat);
            assert(self.mantissa as nat * 1 == self.mantissa as nat);
        }
        if exponent < 0 {
            while exponent < 0 && magnitude > 0
                invariant
                    self.exponent <= exponent <= 0,
                    self.exponent < 0,
                    magnitude as nat == self.mantissa as nat / pow10(
                        (exponent - self.exponent) as nat,
                    ),
                decreases -exponent,
            {
                proof {
                    let k = (exponent - self.exponent) as nat;
                    lemma_pow10_positive(k);
                    lemma_div_denominator(self.mantissa as int, pow10(k) as int, 10);
                    assert(pow10(k + 1) == 10 * pow10(k));
                    assert(pow10(k) * 10 == 10 * pow10(k)) by (nonlinear_arith);
                }
                magnitude = magnitude / 10;
                exponent = exponent + 1;
            }
            proof {
                let k = (exponent - self.exponent) as nat;
                let all = (-self.exponent) as nat;
                if exponent < 0 {
                    lemma_pow10_monotonic(k, all);
                    lemma_pow10_positive(k);
                    lemma_div_is_ordered_by_denominator(
                        self.mantissa as int,
                        pow10(k) as int,
                        pow10(all) as int,
                    );
                }
                assert(magnitude as nat == whole_magnitude(self));
            }
        } else {
            while exponent > 0 && magnitude > 0 && magnitude < limit
                invariant
                    0 <= exponent <= self.exponent,
                    limit == 0x8000_0000,
                    magnitude as nat * pow10(exponent as nat) == whole_magnitude(self),
                decreases exponent,
            {
                proof {
                    let e = exponent as nat;
                    assert(pow10(e) == 10 * pow10((e - 1) as nat));
                    assert((magnitude as nat * 10) * pow10((e - 1) as nat) == magnitude as nat * (
                    10 * pow10((e - 1) as nat))) by (nonlinear_arith);
                }
                magnitude = magnitude * 10;
                exponent = exponent - 1;
            }
            proof {
                let e = exponent as nat;
                lemma_pow10_positive(e);
                if magnitude == 0 {
                    assert(0 * pow10(e) == 0);
                } else if magnitude >= limit {
                    assert(magnitude as nat * pow10(e) >= magnitude as nat) by (nonlinear_arith)
                        requires
                            pow10(e) >= 1,
                    ;
                } else {
                    assert(magnitude as nat * 1 == magnitude as nat);
                }
            }
        }
        // Here `magnitude` is the whole part's size, or both lie beyond the range.
        if self.negative {
            if magnitude >= limit {
                i32::MIN
            } else {
                let small: i64 = magnitude as i64;
                (-small) as i32
            }
        } else {
            if magnitude >= limit {
                i32::MAX
            } else {
                magnitude as i32
            }
        }
    }
}

/// What reading a text from the left found: the layout, the sign, and the
/// two numbers written, each unless it outgrew 128 bits.
struct Reading {
    negative: bool,
    digits: usize,
    fraction_digits: usize,
    has_exponent: bool,
    exponent_negative: bool,
    exponent_digits: usize,
    end: usize,
    mantissa: Option<u128>,
    written: Option<u128>,
}

/// Whether `r` is what the layout of `s` holds.
spec fn reading_matches(r: Reading, s: Seq<char>) -> bool {
    let l = layout_of(s);
    &&& r.negative == minus_at(s, 0)
    &&& r.digits == (l.whole_end - l.whole_start) + (l.fraction_end - l.fraction_start)
    &&& r.fraction_digits == l.fraction_end - l.fraction_start
    &&& r.has_exponent == l.has_exponent
    &&& r.exponent_negative == (l.has_exponent && minus_at(s, l.fraction_end + 1))
    &&& r.exponent_digits == l.exponent_end - l.exponent_start
    &&& r.end == l.exponent_end
    &&& r.end <= s.len()
    &&& r.mantissa == fitting(text_mantissa(s))
    &&& r.written == fitting(number_value(s.subrange(l.exponent_start, l.exponent_end)))
}

/// Reads `cs` from the left as far as the grammar of a decimal text goes.
fn read_decimal(cs: &Vec<char>) -> (r: Reading)
    ensures
        reading_matches(r, cs@),
{
    let n: usize = cs.len();
    let negative: bool = n > 0 && cs[0] == '-';
    let whole_start: usize = if n > 0 && (cs[0] == '+' || cs[0] == '-') {
        1
    } else {
        0
    };
    let whole = scan_digits(cs, whole_start, Some(0));
    let has_point: bool = whole.end < n && cs[whole.end] == '.';
    let fraction_start: usize = if has_point {
        whole.end + 1
    } else {
        whole.end
    };
    let fraction = scan_digits(cs, fraction_start, whole.value);
    let has_exponent: bool = fraction.end < n && (cs[fraction.end] == 'e' || cs[fraction.end]
        == 'E');
    let has_sign: bool = has_exponent && fraction.end + 1 < n && (cs[fraction.end + 1] == '+'
        || cs[fraction.end + 1] == '-');
    let exponent_negative: bool = has_sign && cs[fraction.end + 1] == '-';
    let exponent_start: usize = if !has_exponent {
        fraction.end
    } else if has_sign {
        fraction.end + 2
    } else {
        fraction.end + 1
    };
    let written = scan_digits(cs, exponent_start, Some(0));
    proof {
        lemma_fitting_continued(
            cs@.subrange(whole_start as int, whole.end as int),
            cs@.subrange(fraction_start as int, fraction.end as int),
        );
        lemma_fitting_from_zero(cs@.subrange(exponent_start as int, written.end as int));
    }
    Reading {
        negative,
        digits: (whole.end - whole_start) + (fraction.end - fraction_start),
        fraction_digits: fraction.end - fraction_start,
        has_exponent,
        exponent_negative,
        exponent_digits: written.end - exponent_start,
        end: written.end,
        mantissa: fraction.value,
        written: written.value,
    }
}

/// Reads a decimal text: an optional sign, digits with an optional point
/// among them, and an optional exponent. The value is kept exactly. A text
/// of another form gives `None`, and so does one whose digits or exponent
/// outgrow a [`Decimal`].
pub fn parse_decimal(text: &str) -> (r: Option<Decimal>)
    ensures
        r == decimal_of_text(text@),
{
    let cs = chars_of(text);
    let reading = read_decimal(&cs);
    if reading.digits == 0 {
        return None;
    }
    if reading.has_exponent && reading.exponent_digits == 0 {
        return None;
    }
    if reading.end != cs.len() {
        return None;
    }
    let mantissa: u128 = match reading.mantissa {
        None => {
            return None;
        },
        Some(m) => m,
    };
    let size: u128 = match reading.written {
        None => {
            return None;
        },
        Some(e) => e,
    };
    if size > 0x1_0000_0000_0000_0000_0000 {
        return None;
    }
    let signed: i128 = if reading.exponent_negative {
        -(size as i128)
    } else {
        size as i128
    };
    let shifted: i128 = signed - (reading.fraction_digits as i128);
    if shifted < i64::MIN as i128 || shifted > i64::MAX as i128 {
        return None;
    }
    Some(Decimal { negative: reading.negative, mantissa, exponent: shifted as i64 })
}

} // verus!
