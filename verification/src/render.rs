//! Numbers as text, for the rows of the tables.

use crate::coerce::integer_of_text;
use crate::decimal::{decimal_of_text, Decimal};
use crate::round_trip::{is_readable, lemma_decimal_text_reads_back, read_back};
use crate::text::{all_digits, digit_value, is_digit, number_value};
use vstd::prelude::*;

verus! {

/// The character that writes a digit.
pub open spec fn digit_char(d: nat) -> char
    recommends
        d < 10,
{
    if d == 0 {
        '0'
    } else if d == 1 {
        '1'
    } else if d == 2 {
        '2'
    } else if d == 3 {
        '3'
    } else if d == 4 {
        '4'
    } else if d == 5 {
        '5'
    } else if d == 6 {
        '6'
    } else if d == 7 {
        '7'
    } else if d == 8 {
        '8'
    } else {
        '9'
    }
}

/// The digits that write a natural number in base ten, without leading
/// zeros; zero is written `0`.
pub open spec fn digits_of(v: nat) -> Seq<char>
    decreases v,
{
    if v < 10 {
        seq![digit_char(v)]
    } else {
        digits_of(v / 10).push(digit_char(v % 10))
    }
}

/// The text of an integer: its digits, behind a minus sign where it is
/// negative.
pub open spec fn integer_text(n: int) -> Seq<char> {
    if n < 0 {
        seq!['-'] + digits_of((-n) as nat)
    } else {
        digits_of(n as nat)
    }
}

/// A run of `n` zeros.
pub open spec fn zeros(n: nat) -> Seq<char> {
    Seq::new(n, |i: int| '0')
}

/// The text of a truth value.
pub open spec fn bool_text(b: bool) -> Seq<char> {
    if b {
        "true"@
    } else {
        "false"@
    }
}

/// The largest power of ten, up or down, that is written out in full.
pub const PLAIN_LIMIT: i64 = 50;

/// A coefficient and a power of ten without the zeros that a fraction
/// does not need: zero has the power zero, and as long as the power is below
/// zero, a zero at the end of the coefficient is dropped and the power raised
/// by one.
pub open spec fn reduced(mantissa: nat, exponent: int) -> (nat, int)
    decreases mantissa,
{
    if mantissa == 0 {
        (0, 0)
    } else if exponent < 0 && mantissa % 10 == 0 {
        reduced(mantissa / 10, exponent + 1)
    } else {
        (mantissa, exponent)
    }
}

/// The text of the number `mantissa * 10^exponent`, written out in full:
/// the digits followed by zeros, or the digits with a point among them, with
/// `0.` and zeros before them where the number is below one.
pub open spec fn plain_text(mantissa: nat, exponent: int) -> Seq<char> {
    let digits = digits_of(mantissa);
    if exponent >= 0 {
        digits + zeros(exponent as nat)
    } else if digits.len() > -exponent {
        digits.take(digits.len() + exponent) + seq!['.'] + digits.skip(digits.len() + exponent)
    } else {
        seq!['0', '.'] + zeros((-exponent - digits.len()) as nat) + digits
    }
}

/// The text of a decimal: a minus sign where it is negative, then the
/// number without needless zeros, written out in full where its power of ten
/// is within [`PLAIN_LIMIT`] and as coefficient, `e` and power where not.
pub open spec fn decimal_text(d: Decimal) -> Seq<char> {
    let sign = if d.negative { seq!['-'] } else { Seq::<char>::empty() };
    let (mantissa, exponent) = reduced(d.mantissa as nat, d.exponent as int);
    if -PLAIN_LIMIT <= exponent <= PLAIN_LIMIT {
        sign + plain_text(mantissa, exponent)
    } else {
        sign + digits_of(mantissa) + seq!['e'] + integer_text(exponent)
    }
}

/// Writes a digit behind the text.
fn push_digit(text: &mut String, d: u8)
    requires
        d < 10,
    ensures
        final(text)@ == old(text)@.push(digit_char(d as nat)),
{
    proof {
        reveal_strlit("0");
        reveal_strlit("1");
        reveal_strlit("2");
        reveal_strlit("3");
        reveal_strlit("4");
        reveal_strlit("5");
        reveal_strlit("6");
        reveal_strlit("7");
        reveal_strlit("8");
        reveal_strlit("9");
    }
    let ghost before = text@;
    match d {
        0 => text.append("0"),
        1 => text.append("1"),
        2 => text.append("2"),
        3 => text.append("3"),
        4 => text.append("4"),
        5 => text.append("5"),
        6 => text.append("6"),
        7 => text.append("7"),
        8 => text.append("8"),
        _ => text.append("9"),
    }
    assert(text@ =~= before.push(digit_char(d as nat)));
}

/// Writes the digits of `v` behind the text.
fn push_digits(text: &mut String, v: u128)
    ensures
        final(text)@ == old(text)@ + digits_of(v as nat),
    decreases v,
{
    let ghost before = text@;
    if v >= 10 {
        push_digits(text, v / 10);
    }
    push_digit(text, (v % 10) as u8);
    assert(text@ =~= before + digits_of(v as nat));
}

/// Writes `n` zeros behind the text.
fn push_zeros(text: &mut String, n: usize)
    ensures
        final(text)@ == old(text)@ + zeros(n as nat),
{
    let ghost before = text@;
    let mut i: usize = 0;
    assert(text@ =~= before + zeros(0));
    while i < n
        invariant
            i <= n,
            text@ == before + zeros(i as nat),
        decreases n - i,
    {
        push_digit(text, 0);
        i += 1;
        assert(text@ =~= before + zeros(i as nat));
    }
}

/// Writes an integer behind the text.
fn push_integer(text: &mut String, n: i64)
    ensures
        final(text)@ == old(text)@ + integer_text(n as int),
{
    let ghost before = text@;
    if n < 0 {
        proof {
            reveal_strlit("-");
        }
        text.append("-");
        assert(text@ =~= before + seq!['-']);
        push_digits(text, (-(n as i128)) as u128);
        assert(text@ =~= before + integer_text(n as int));
    } else {
        push_digits(text, n as u128);
    }
}

/// The text of an integer, as `to_string` writes it. It reads back as the
/// integer.
pub fn integer_to_text(n: i32) -> (text: String)
    ensures
        text@ == integer_text(n as int),
        integer_of_text(text@) == Some(n),
{
    proof {
        lemma_integer_text_reads_back(n);
    }
    let mut text = String::new();
    push_integer(&mut text, n as i64);
    assert(Seq::<char>::empty() + integer_text(n as int) =~= integer_text(n as int));
    text
}

/// The text of a truth value: `true` or `false`.
pub fn bool_to_text(b: bool) -> (text: String)
    ensures
        text@ == bool_text(b),
{
    if b {
        "true".to_string()
    } else {
        "false".to_string()
    }
}

/// The characters that write a list of digits.
pub open spec fn digit_chars(digits: Seq<u8>) -> Seq<char> {
    digits.map_values(|d: u8| digit_char(d as nat))
}

/// Whether every entry of a list is a digit.
pub open spec fn are_digits(digits: Seq<u8>) -> bool {
    forall|i: int| 0 <= i < digits.len() ==> #[trigger] digits[i] < 10
}

/// The digits of `v`, each as its number.
fn digit_values(v: u128) -> (digits: Vec<u8>)
    ensures
        are_digits(digits@),
        digit_chars(digits@) == digits_of(v as nat),
    decreases v,
{
    if v >= 10 {
        let mut digits = digit_values(v / 10);
        let ghost before = digits@;
        digits.push((v % 10) as u8);
        assert(digit_chars(digits@) =~= digit_chars(before).push(digit_char((v % 10) as nat)));
        digits
    } else {
        let mut digits: Vec<u8> = Vec::new();
        digits.push(v as u8);
        assert(digit_chars(digits@) =~= seq![digit_char(v as nat)]);
        digits
    }
}

/// Writes the digits from place `from` up to place `to` behind the text.
fn push_digit_range(text: &mut String, digits: &Vec<u8>, from: usize, to: usize)
    requires
        from <= to <= digits@.len(),
        are_digits(digits@),
    ensures
        final(text)@ == old(text)@ + digit_chars(digits@).subrange(from as int, to as int),
{
    let ghost before = text@;
    let ghost written = digit_chars(digits@);
    let mut i: usize = from;
    assert(text@ =~= before + written.subrange(from as int, from as int));
    while i < to
        invariant
            from <= i <= to,
            to <= digits@.len(),
            are_digits(digits@),
            written == digit_chars(digits@),
            text@ == before + written.subrange(from as int, i as int),
        decreases to - i,
    {
        push_digit(text, digits[i]);
        i += 1;
        assert(text@ =~= before + written.subrange(from as int, i as int));
    }
}

/// The text of a decimal, written out in full where that stays short:
/// `0.25`, `12.5`, `-3`, `1200`. Zeros that a fraction does not need are
/// left out, so that one is `1` however it was written. The text reads
/// back as the same number.
pub fn decimal_to_text(d: Decimal) -> (text: String)
    ensures
        text@ == decimal_text(d),
        is_readable(d) ==> decimal_of_text(text@) == Some(read_back(d)),
{
    proof {
        if is_readable(d) {
            lemma_decimal_text_reads_back(d);
        }
    }
    write_decimal(d)
}

/// Writes the text of a decimal.
fn write_decimal(d: Decimal) -> (text: String)
    ensures
        text@ == decimal_text(d),
{
    let mut mantissa: u128 = d.mantissa;
    let mut exponent: i64 = d.exponent;
    if mantissa == 0 {
        exponent = 0;
    } else {
        while exponent < 0 && mantissa % 10 == 0
            invariant
                mantissa > 0,
                reduced(mantissa as nat, exponent as int) == reduced(
                    d.mantissa as nat,
                    d.exponent as int,
                ),
            decreases mantissa,
        {
            mantissa = mantissa / 10;
            exponent = exponent + 1;
        }
    }
    assert(reduced(d.mantissa as nat, d.exponent as int) == (mantissa as nat, exponent as int));
    let mut text = String::new();
    if d.negative {
        proof {
            reveal_strlit("-");
        }
        text.append("-");
    }
    let ghost sign = text@;
    assert(sign =~= if d.negative {
        seq!['-']
    } else {
        Seq::<char>::empty()
    });
    if exponent > PLAIN_LIMIT || exponent < -PLAIN_LIMIT {
        push_digits(&mut text, mantissa);
        proof {
            reveal_strlit("e");
        }
        let ghost upto = text@;
        text.append("e");
        assert(text@ =~= upto + seq!['e']);
        push_integer(&mut text, exponent);
    } else if exponent >= 0 {
        push_digits(&mut text, mantissa);
        push_zeros(&mut text, exponent as usize);
    } else {
        let digits = digit_values(mantissa);
        let ghost written = digits_of(mantissa as nat);
        let places: usize = (-exponent) as usize;
        let length: usize = digits.len();
        if length > places {
            push_digit_range(&mut text, &digits, 0, length - places);
            proof {
                reveal_strlit(".");
            }
            let ghost upto = text@;
            text.append(".");
            assert(text@ =~= upto + seq!['.']);
            push_digit_range(&mut text, &digits, length - places, length);
            assert(written.take(length - places) =~= written.subrange(0, length - places));
            assert(written.skip(length - places) =~= written.subrange(
                length - places,
                length as int,
            ));
        } else {
            proof {
                reveal_strlit("0.");
            }
            let ghost upto = text@;
            text.append("0.");
            assert(text@ =~= upto + seq!['0', '.']);
            push_zeros(&mut text, places - length);
            push_digit_range(&mut text, &digits, 0, length);
            assert(written.subrange(0, length as int) =~= written);
        }
    }
    text
}

/// The digits that write a number are digits, at least one, and write
/// that number.
pub proof fn lemma_digits_write_the_number(v: nat)
    ensures
        digits_of(v).len() >= 1,
        all_digits(digits_of(v)),
        number_value(digits_of(v)) == v,
    decreases v,
{
    if v < 10 {
        let single = digits_of(v);
        assert(single.drop_last() =~= Seq::<char>::empty());
        assert(number_value(single.drop_last()) == 0);
        assert(is_digit(single[0]) && digit_value(single[0]) == v);
    } else {
        lemma_digits_write_the_number(v / 10);
        let shorter = digits_of(v / 10);
        let last = digit_char(v % 10);
        assert(is_digit(last) && digit_value(last) == v % 10);
        assert(digits_of(v).drop_last() =~= shorter);
    }
}

/// The text of a 32-bit integer reads back as that integer.
pub proof fn lemma_integer_text_reads_back(n: i32)
    ensures
        integer_of_text(integer_text(n as int)) == Some(n),
{
    let text = integer_text(n as int);
    if n < 0 {
        let size = (-(n as int)) as nat;
        lemma_digits_write_the_number(size);
        assert(text.subrange(1, text.len() as int) =~= digits_of(size));
        assert(text[0] == '-');
    } else {
        lemma_digits_write_the_number(n as nat);
        assert(text.subrange(0, text.len() as int) =~= text);
        assert(is_digit(text[0]));
    }
}

} // verus!
