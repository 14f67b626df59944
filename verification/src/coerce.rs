//! Bonus values as the feed encodes them, and their reading as numbers.
//!
//! The feed writes one and the same quantity as a JSON integer, as a JSON
//! number with a fraction, or as a string of digits. [`RawValue`] keeps the
//! encoding; each field of a record asks for an integer or for a decimal, and
//! the functions here resolve the encoding for it.

use crate::decimal::{
    clamp_i32, decimal_of_integer, decimal_of_text, hundredth_of, minus_at, parse_decimal,
    sign_at, whole_part, Decimal,
};
use crate::error::FeedError;
use crate::text::{
    all_digits, chars_of, fitting, lemma_digit_run, lemma_fitting_from_zero, number_value,
    scan_digits,
};
use vstd::arithmetic::div_mod::lemma_mod_multiples_vanish;
use vstd::prelude::*;

verus! {

/// One value of the feed.
#[derive(Clone, Debug, PartialEq, Eq)]
pub enum RawValue {
    /// A JSON integer.
    Integer(i64),
    /// A JSON number that is no 64-bit integer, kept exactly.
    Decimal(Decimal),
    /// A JSON string.
    Text(String),
    /// Anything else: null, a boolean, an array, an object.
    Other,
}

/// A [`RawValue`] with its text as a sequence of characters.
pub enum Raw {
    Integer(i64),
    Decimal(Decimal),
    Text(Seq<char>),
    Other,
}

impl View for RawValue {
    type V = Raw;

    open spec fn view(&self) -> Raw {
        match self {
            RawValue::Integer(n) => Raw::Integer(*n),
            RawValue::Decimal(d) => Raw::Decimal(*d),
            RawValue::Text(t) => Raw::Text(t@),
            RawValue::Other => Raw::Other,
        }
    }
}

/// Whether a text writes a whole number: an optional sign and at least
/// one digit, nothing else.
pub open spec fn is_whole_text(s: Seq<char>) -> bool {
    let start: int = if sign_at(s, 0) { 1 } else { 0 };
    s.len() > start && all_digits(s.subrange(start, s.len() as int))
}

/// The whole number that a text writes, if it writes one.
pub open spec fn whole_of_text(s: Seq<char>) -> Option<int> {
    let start: int = if sign_at(s, 0) { 1 } else { 0 };
    let size = number_value(s.subrange(start, s.len() as int)) as int;
    if !is_whole_text(s) {
        None
    } else if minus_at(s, 0) {
        Some(-size)
    } else {
        Some(size)
    }
}

/// The 32-bit integer that a text writes: a whole number within the range.
pub open spec fn integer_of_text(s: Seq<char>) -> Option<i32> {
    match whole_of_text(s) {
        Some(v) => if i32::MIN <= v <= i32::MAX {
            Some(v as i32)
        } else {
            None
        },
        None => None,
    }
}

/// The 64-bit integer that a text writes: a whole number within the range.
pub open spec fn integer64_of_text(s: Seq<char>) -> Option<i64> {
    match whole_of_text(s) {
        Some(v) => if i64::MIN <= v <= i64::MAX {
            Some(v as i64)
        } else {
            None
        },
        None => None,
    }
}

/// A 64-bit integer cast to 32 bits: the integer of the 32-bit range that
/// differs from `n` by a multiple of 2^32.
pub open spec fn wrapped_i32(n: i64) -> i32 {
    ((n + 0x8000_0000) % 0x1_0000_0000 - 0x8000_0000) as i32
}

/// A value read for an integer field. An integer is cast to 32 bits and
/// keeps its low bits; a number with a fraction is cut off and kept within
/// the range; a text must write a 32-bit integer.
pub open spec fn integer_of(v: Raw) -> Result<i32, FeedError> {
    match v {
        Raw::Integer(n) => Ok(wrapped_i32(n)),
        Raw::Decimal(d) => Ok(clamp_i32(whole_part(d))),
        Raw::Text(t) => match integer_of_text(t) {
            Some(n) => Ok(n),
            None => Err(FeedError::MalformedInput),
        },
        Raw::Other => Err(FeedError::MalformedInput),
    }
}

/// A value read for a decimal field. A text must be a decimal text.
pub open spec fn decimal_of(v: Raw) -> Result<Decimal, FeedError> {
    match v {
        Raw::Integer(n) => Ok(decimal_of_integer(n)),
        Raw::Decimal(d) => Ok(d),
        Raw::Text(t) => match decimal_of_text(t) {
            Some(d) => Ok(d),
            None => Err(FeedError::MalformedInput),
        },
        Raw::Other => Err(FeedError::MalformedInput),
    }
}

/// A value read as a percentage and stored as a ratio: the decimal it
/// writes, divided by a hundred.
pub open spec fn ratio_of(v: Raw) -> Result<Decimal, FeedError> {
    match decimal_of(v) {
        Ok(d) => match hundredth_of(d) {
            Some(h) => Ok(h),
            None => Err(FeedError::OutOfRange),
        },
        Err(e) => Err(e),
    }
}

/// A whole number as it was read: its sign, and its size unless that
/// outgrew 128 bits.
struct Whole {
    negative: bool,
    size: Option<u128>,
}

/// Reads a text as a whole number.
fn read_whole(text: &str) -> (r: Option<Whole>)
    ensures
        match whole_of_text(text@) {
            None => r is None,
            Some(v) => r is Some && r->0.negative == minus_at(text@, 0) && r->0.size == fitting(
                (if v < 0 {
                    -v
                } else {
                    v
                }) as nat,
            ),
        },
{
    let cs = chars_of(text);
    let n: usize = cs.len();
    let negative: bool = n > 0 && cs[0] == '-';
    let start: usize = if n > 0 && (cs[0] == '+' || cs[0] == '-') {
        1
    } else {
        0
    };
    let scan = scan_digits(&cs, start, Some(0));
    proof {
        let digits = cs@.subrange(start as int, n as int);
        lemma_digit_run(cs@, start as int);
        lemma_fitting_from_zero(cs@.subrange(start as int, scan.end as int));
        if scan.end < n {
            assert(digits[scan.end - start] == cs@[scan.end as int]);
        }
    }
    if scan.end != n || n == start {
        None
    } else {
        Some(Whole { negative, size: scan.value })
    }
}

/// Reads a text as a 32-bit integer: an optional sign, then digits only.
pub fn parse_integer(text: &str) -> (r: Option<i32>)
    ensures
        r == integer_of_text(text@),
{
    match read_whole(text) {
        Some(Whole { negative, size: Some(size) }) => {
            if negative {
                if size > 0x8000_0000 {
                    None
                } else {
                    Some((-(size as i64)) as i32)
                }
            } else {
                if size > 0x7fff_ffff {
                    None
                } else {
                    Some(size as i32)
                }
            }
        },
        _ => None,
    }
}

/// Reads a text as a 64-bit integer: an optional sign, then digits only.
pub fn parse_integer64(text: &str) -> (r: Option<i64>)
    ensures
        r == integer64_of_text(text@),
{
    match read_whole(text) {
        Some(Whole { negative, size: Some(size) }) => {
            if negative {
                if size > 0x8000_0000_0000_0000 {
                    None
                } else {
                    Some((-(size as i128)) as i64)
                }
            } else {
                if size > 0x7fff_ffff_ffff_ffff {
                    None
                } else {
                    Some(size as i64)
                }
            }
        },
        _ => None,
    }
}

/// An integer of the 32-bit range is cast to itself.
pub proof fn lemma_small_integers_are_kept(n: i64)
    requires
        i32::MIN <= n <= i32::MAX,
    ensures
        wrapped_i32(n) == n,
{
}

/// Casts a 64-bit integer to 32 bits, keeping its low bits. An integer of
/// the 32-bit range comes out as it is.
pub fn wrap_i32(n: i64) -> (r: i32)
    ensures
        r == wrapped_i32(n),
        i32::MIN <= n <= i32::MAX ==> r == n,
{
    let shifted: u128 = (n as i128 + 0x8000_0000_0000_0000 + 0x8000_0000) as u128;
    let low: u128 = shifted % 0x1_0000_0000;
    proof {
        lemma_mod_multiples_vanish(0x8000_0000, n + 0x8000_0000, 0x1_0000_0000);
        if i32::MIN <= n <= i32::MAX {
            lemma_small_integers_are_kept(n);
        }
    }
    (low as i64 - 0x8000_0000) as i32
}

impl RawValue {
    /// Reads this value for an integer field.
    pub fn to_integer(&self) -> (r: Result<i32, FeedError>)
        ensures
            r == integer_of(self@),
    {
        match self {
            RawValue::Integer(n) => Ok(wrap_i32(*n)),
            RawValue::Decimal(d) => Ok(d.truncate()),
            RawValue::Text(t) => match parse_integer(t.as_str()) {
                Some(n) => Ok(n),
                None => Err(FeedError::MalformedInput),
            },
            RawValue::Other => Err(FeedError::MalformedInput),
        }
    }

    /// Reads this value for a decimal field.
    pub fn to_decimal(&self) -> (r: Result<Decimal, FeedError>)
        ensures
            r == decimal_of(self@),
    {
        match self {
            RawValue::Integer(n) => Ok(Decimal::from_integer(*n)),
            RawValue::Decimal(d) => Ok(*d),
            RawValue::Text(t) => match parse_decimal(t.as_str()) {
                Some(d) => Ok(d),
                None => Err(FeedError::MalformedInput),
            },
            RawValue::Other => Err(FeedError::MalformedInput),
        }
    }

    /// Reads this value as a percentage and gives the ratio.
    pub fn to_ratio(&self) -> (r: Result<Decimal, FeedError>)
        ensures
            r == ratio_of(self@),
    {
        match self.to_decimal() {
            Ok(d) => match d.hundredth() {
                Some(h) => Ok(h),
                None => Err(FeedError::OutOfRange),
            },
            Err(e) => Err(e),
        }
    }
}

} // verus!
