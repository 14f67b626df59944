//! Small helpers on strings and decimal digits.

use vstd::prelude::*;

verus! {

/// Whether `c` is one of the ten ASCII digits.
pub open spec fn is_digit(c: char) -> bool {
    '0' <= c && c <= '9'
}

/// The number a digit stands for.
pub open spec fn digit_value(c: char) -> nat
    recommends
        is_digit(c),
{
    (c as int - '0' as int) as nat
}

/// Whether every character of `s` is a digit.
pub open spec fn all_digits(s: Seq<char>) -> bool {
    forall|i: int| 0 <= i < s.len() ==> is_digit(#[trigger] s[i])
}

/// The number that a run of digits writes in base ten; the empty run writes 0.
pub open spec fn number_value(s: Seq<char>) -> nat
    decreases s.len(),
{
    if s.len() == 0 {
        0
    } else {
        number_value(s.drop_last()) * 10 + digit_value(s.last())
    }
}

/// The end of the longest run of digits of `s` that starts at `from`.
pub open spec fn digit_run_end(s: Seq<char>, from: int) -> int
    decreases s.len() - from,
{
    if 0 <= from < s.len() && is_digit(s[from]) {
        digit_run_end(s, from + 1)
    } else {
        from
    }
}

/// A run of digits ends inside the text, and only digits stand in it.
pub proof fn lemma_digit_run(s: Seq<char>, from: int)
    requires
        0 <= from <= s.len(),
    ensures
        from <= digit_run_end(s, from) <= s.len(),
        all_digits(s.subrange(from, digit_run_end(s, from))),
        digit_run_end(s, from) < s.len() ==> !is_digit(s[digit_run_end(s, from)]),
    decreases s.len() - from,
{
    if from < s.len() && is_digit(s[from]) {
        lemma_digit_run(s, from + 1);
        let end = digit_run_end(s, from);
        assert forall|i: int| 0 <= i < end - from implies is_digit(
            #[trigger] s.subrange(from, end)[i],
        ) by {
            if i > 0 {
                assert(s.subrange(from, end)[i] == s.subrange(from + 1, end)[i - 1]);
            }
        }
    }
}

/// The characters of `s`, in order.
pub fn chars_of(s: &str) -> (v: Vec<char>)
    ensures
        v@ == s@,
{
    let mut v: Vec<char> = Vec::new();
    for c in it: s.chars()
        invariant
            it.seq() == s@,
            v@ == it.seq().take(it.index()),
    {
        v.push(c);
        assert(it.seq().take(it.index() + 1) =~= it.seq().take(it.index()).push(c));
    }
    assert(s@.take(s@.len() as int) =~= s@);
    v
}

/// Whether two strings hold the same characters.
pub fn same_text(a: &str, b: &str) -> (same: bool)
    ensures
        same == (a@ == b@),
{
    let left = chars_of(a);
    let right = chars_of(b);
    if left.len() != right.len() {
        return false;
    }
    let mut i: usize = 0;
    while i < left.len()
        invariant
            i <= left.len(),
            left.len() == right.len(),
            left@ == a@,
            right@ == b@,
            forall|j: int| 0 <= j < i ==> left@[j] == right@[j],
        decreases left.len() - i,
    {
        if left[i] != right[i] {
            assert(a@[i as int] != b@[i as int]);
            return false;
        }
        i += 1;
    }
    assert(left@ =~= right@);
    true
}

/// The digit that `c` stands for, if it is one.
pub fn digit_of(c: char) -> (d: Option<u8>)
    ensures
        d is Some == is_digit(c),
        d is Some ==> d->0 == digit_value(c) && d->0 < 10,
{
    if '0' <= c && c <= '9' {
        Some((c as u32 - '0' as u32) as u8)
    } else {
        None
    }
}

/// The number that `start` becomes when the digits of `s` are written behind it.
pub(crate) open spec fn extended_value(start: nat, s: Seq<char>) -> nat
    decreases s.len(),
{
    if s.len() == 0 {
        start
    } else {
        extended_value(start, s.drop_last()) * 10 + digit_value(s.last())
    }
}

/// Writing digits behind a number never makes it smaller.
pub(crate) proof fn lemma_extended_value_grows(start: nat, s: Seq<char>)
    ensures
        extended_value(start, s) >= start,
    decreases s.len(),
{
    if s.len() > 0 {
        lemma_extended_value_grows(start, s.drop_last());
    }
}

/// Writing one more digit behind a number.
pub(crate) proof fn lemma_extended_value_push(start: nat, s: Seq<char>, c: char)
    ensures
        extended_value(start, s.push(c)) == extended_value(start, s) * 10 + digit_value(c),
{
    assert(s.push(c).drop_last() =~= s);
}

/// The number of two runs of digits written one behind the other.
pub(crate) proof fn lemma_number_value_concat(a: Seq<char>, b: Seq<char>)
    ensures
        number_value(a + b) == extended_value(number_value(a), b),
    decreases b.len(),
{
    if b.len() == 0 {
        assert(a + b =~= a);
    } else {
        lemma_number_value_concat(a, b.drop_last());
        assert((a + b).drop_last() =~= a + b.drop_last());
    }
}

/// A number, if it fits 128 bits.
pub(crate) open spec fn fitting(v: nat) -> Option<u128> {
    if v <= u128::MAX {
        Some(v as u128)
    } else {
        None
    }
}

/// The result of reading digits: where the run ended, and the number read,
/// unless it outgrew 128 bits.
pub(crate) struct Scan {
    pub(crate) end: usize,
    pub(crate) value: Option<u128>,
}

/// The number `start` with the digits `s` behind it, if it fits 128 bits.
pub(crate) open spec fn fitting_value(start: Option<u128>, s: Seq<char>) -> Option<u128> {
    match start {
        Some(v) => if extended_value(v as nat, s) <= u128::MAX {
            Some(extended_value(v as nat, s) as u128)
        } else {
            None
        },
        None => None,
    }
}

/// Reads the digits of `cs` from `from` on, writing them behind `start`.
pub(crate) fn scan_digits(cs: &Vec<char>, from: usize, start: Option<u128>) -> (scan: Scan)
    requires
        from <= cs.len(),
    ensures
        scan.end == digit_run_end(cs@, from as int),
        from <= scan.end <= cs.len(),
        scan.value == fitting_value(start, cs@.subrange(from as int, scan.end as int)),
{
    let mut i: usize = from;
    let mut value: Option<u128> = start;
    proof {
        assert(cs@.subrange(from as int, from as int) =~= Seq::<char>::empty());
    }
    while i < cs.len()
        invariant
            from <= i <= cs.len(),
            digit_run_end(cs@, from as int) == digit_run_end(cs@, i as int),
            value == fitting_value(start, cs@.subrange(from as int, i as int)),
        ensures
            from <= i <= cs.len(),
            digit_run_end(cs@, from as int) == i,
            value == fitting_value(start, cs@.subrange(from as int, i as int)),
        decreases cs.len() - i,
    {
        let digit = digit_of(cs[i]);
        match digit {
            None => {
                break ;
            },
            Some(d) => {
                proof {
                    let before = cs@.subrange(from as int, i as int);
                    assert(cs@.subrange(from as int, i + 1) =~= before.push(cs@[i as int]));
                    if start is Some {
                        lemma_extended_value_push(start->0 as nat, before, cs@[i as int]);
                        lemma_extended_value_grows(start->0 as nat, before);
                    }
                }
                value =
                match value {
                    None => None,
                    Some(v) => match v.checked_mul(10) {
                        None => None,
                        Some(tenfold) => tenfold.checked_add(d as u128),
                    },
                };
                i += 1;
            },
        }
    }
    Scan { end: i, value }
}

/// A run of digits read from zero on is the run's number.
pub(crate) proof fn lemma_fitting_from_zero(s: Seq<char>)
    ensures
        fitting_value(Some(0), s) == fitting(number_value(s)),
{
    lemma_number_value_concat(Seq::<char>::empty(), s);
    assert(Seq::<char>::empty() + s =~= s);
}

/// Digits read behind a run that was read from zero on give the number of
/// both runs together.
pub(crate) proof fn lemma_fitting_continued(a: Seq<char>, b: Seq<char>)
    ensures
        fitting_value(fitting_value(Some(0), a), b) == fitting(number_value(a + b)),
{
    lemma_fitting_from_zero(a);
    lemma_number_value_concat(a, b);
    lemma_extended_value_grows(number_value(a), b);
}

} // verus!
