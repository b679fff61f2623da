//! Coercion of one text cell into a typed value: surrounding white space is
//! trimmed and the rest is read as a decimal integer, the way std's `from_str`
//! reads one. Anything else gives no value.

use vstd::prelude::*;
use crate::text::{chars_of, trim, trim_bounds};

verus! {

/// An ASCII decimal digit.
pub open spec fn is_digit(c: char) -> bool {
    48 <= c as u32 && c as u32 <= 57
}

/// The value of a decimal digit.
pub open spec fn digit_value(c: char) -> nat {
    (c as u32 - 48) as nat
}

/// Every character of `s` is a decimal digit.
pub open spec fn all_digits(s: Seq<char>) -> bool {
    forall|i: int| 0 <= i < s.len() ==> is_digit(#[trigger] s[i])
}

/// The number that the digits of `s` spell, most significant first.
pub open spec fn digits_value(s: Seq<char>) -> nat
    decreases s.len(),
{
    if s.len() == 0 {
        0
    } else {
        digits_value(s.drop_last()) * 10 + digit_value(s.last())
    }
}

/// An unsigned integer no larger than `max`: an optional `+`, then one or
/// more digits.
pub open spec fn parse_unsigned(s: Seq<char>, max: nat) -> Option<nat> {
    let d = if s.len() > 0 && s[0] == '+' {
        s.drop_first()
    } else {
        s
    };
    if d.len() > 0 && all_digits(d) && digits_value(d) <= max {
        Some(digits_value(d))
    } else {
        None
    }
}

/// A signed integer between `-min_magnitude` and `max`: an optional sign,
/// then one or more digits.
pub open spec fn parse_signed(s: Seq<char>, min_magnitude: nat, max: nat) -> Option<int> {
    if s.len() > 0 && s[0] == '-' {
        let d = s.drop_first();
        if d.len() > 0 && all_digits(d) && digits_value(d) <= min_magnitude {
            Some(-digits_value(d))
        } else {
            None
        }
    } else {
        match parse_unsigned(s, max) {
            Some(n) => Some(n as int),
            None => None,
        }
    }
}

/// A cell read as a `u32`.
pub open spec fn coerce_u32(s: Seq<char>) -> Option<u32> {
    match parse_unsigned(trim(s), u32::MAX as nat) {
        Some(n) => Some(n as u32),
        None => None,
    }
}

/// A cell read as a `u16`.
pub open spec fn coerce_u16(s: Seq<char>) -> Option<u16> {
    match parse_unsigned(trim(s), u16::MAX as nat) {
        Some(n) => Some(n as u16),
        None => None,
    }
}

/// A cell read as an `i64`.
pub open spec fn coerce_i64(s: Seq<char>) -> Option<i64> {
    match parse_signed(trim(s), 0x8000_0000_0000_0000, i64::MAX as nat) {
        Some(n) => Some(n as i64),
        None => None,
    }
}

/// A prefix of a digit string spells no larger a number than the whole.
pub proof fn lemma_prefix_value_le(s: Seq<char>, j: int)
    requires
        all_digits(s),
        0 <= j <= s.len(),
    ensures
        digits_value(s.take(j)) <= digits_value(s),
    decreases s.len(),
{
    if j < s.len() {
        let t = s.drop_last();
        assert(all_digits(t)) by {
            assert forall|i: int| 0 <= i < t.len() implies is_digit(#[trigger] t[i]) by {
                assert(t[i] == s[i]);
            }
        }
        assert(t.take(j) =~= s.take(j));
        lemma_prefix_value_le(t, j);
    } else {
        assert(s.take(j) =~= s);
    }
}

/// The digits of `v[lo..hi]` as a number, where there is at least one, all
/// are digits and the number is at most `max`.
fn digits_in(v: &Vec<char>, lo: usize, hi: usize, max: u64) -> (r: Option<u64>)
    requires
        lo <= hi <= v.len(),
        max >= 9,
    ensures
        ({
            let d = v@.subrange(lo as int, hi as int);
            r == if d.len() > 0 && all_digits(d) && digits_value(d) <= max {
                Some(digits_value(d) as u64)
            } else {
                None
            }
        }),
{
    if lo == hi {
        return None;
    }
    let ghost d = v@.subrange(lo as int, hi as int);
    let mut acc: u64 = 0;
    let mut i: usize = lo;
    while i < hi
        invariant
            lo <= i <= hi <= v.len(),
            d == v@.subrange(lo as int, hi as int),
            all_digits(v@.subrange(lo as int, i as int)),
            acc as nat == digits_value(v@.subrange(lo as int, i as int)),
            acc <= max,
            max >= 9,
        decreases hi - i,
    {
        let ghost p = v@.subrange(lo as int, i + 1);
        assert(p.drop_last() =~= v@.subrange(lo as int, i as int));
        assert(p.last() == v[i as int]);
        let c = v[i];
        let u = c as u32;
        if u < 48 || u > 57 {
            assert(!is_digit(d[i - lo]));
            return None;
        }
        let dv = (u - 48) as u64;
        if acc > (max - dv) / 10 {
            assert(acc * 10 + dv > max) by (nonlinear_arith)
                requires
                    acc > (max - dv) / 10,
                    dv <= max || dv > max,
            {
            }
            proof {
                if all_digits(d) {
                    assert(d.take(i + 1 - lo) =~= p);
                    lemma_prefix_value_le(d, i + 1 - lo);
                }
            }
            return None;
        }
        assert(acc * 10 + dv <= max) by (nonlinear_arith)
            requires
                acc <= (max - dv) / 10,
                dv <= 9,
        {
        }
        acc = acc * 10 + dv;
        assert(all_digits(p)) by {
            assert forall|k: int| 0 <= k < p.len() implies is_digit(#[trigger] p[k]) by {
                if k < p.len() - 1 {
                    assert(p[k] == v@.subrange(lo as int, i as int)[k]);
                }
            }
        }
        i = i + 1;
    }
    assert(v@.subrange(lo as int, hi as int) =~= d);
    Some(acc)
}

/// `v[lo..hi]` read as an unsigned integer no larger than `max`.
fn unsigned_in(v: &Vec<char>, lo: usize, hi: usize, max: u64) -> (r: Option<u64>)
    requires
        lo <= hi <= v.len(),
        max >= 9,
    ensures
        r == match parse_unsigned(v@.subrange(lo as int, hi as int), max as nat) {
            Some(n) => Some(n as u64),
            None => None,
        },
{
    let ghost s = v@.subrange(lo as int, hi as int);
    if lo < hi && v[lo] == '+' {
        assert(s.drop_first() =~= v@.subrange(lo + 1, hi as int));
        digits_in(v, lo + 1, hi, max)
    } else {
        digits_in(v, lo, hi, max)
    }
}

/// The cell `v[lo..hi]` read as a `u32`.
pub fn u32_in(v: &Vec<char>, lo: usize, hi: usize) -> (r: Option<u32>)
    requires
        lo <= hi <= v.len(),
    ensures
        r == coerce_u32(v@.subrange(lo as int, hi as int)),
{
    let (a, b) = trim_bounds(v, lo, hi);
    match unsigned_in(v, a, b, u32::MAX as u64) {
        Some(n) => Some(n as u32),
        None => None,
    }
}

/// The cell `v[lo..hi]` read as a `u16`.
pub fn u16_in(v: &Vec<char>, lo: usize, hi: usize) -> (r: Option<u16>)
    requires
        lo <= hi <= v.len(),
    ensures
        r == coerce_u16(v@.subrange(lo as int, hi as int)),
{
    let (a, b) = trim_bounds(v, lo, hi);
    match unsigned_in(v, a, b, u16::MAX as u64) {
        Some(n) => Some(n as u16),
        None => None,
    }
}

/// The cell `v[lo..hi]` read as an `i64`.
pub fn i64_in(v: &Vec<char>, lo: usize, hi: usize) -> (r: Option<i64>)
    requires
        lo <= hi <= v.len(),
    ensures
        r == coerce_i64(v@.subrange(lo as int, hi as int)),
{
    let (a, b) = trim_bounds(v, lo, hi);
    let ghost s = v@.subrange(a as int, b as int);
    if a < b && v[a] == '-' {
        assert(s.drop_first() =~= v@.subrange(a + 1, b as int));
        match digits_in(v, a + 1, b, 0x8000_0000_0000_0000) {
            Some(m) => {
                if m == 0x8000_0000_0000_0000 {
                    Some(i64::MIN)
                } else {
                    Some(-(m as i64))
                }
            },
            None => None,
        }
    } else {
        match unsigned_in(v, a, b, i64::MAX as u64) {
            Some(n) => Some(n as i64),
            None => None,
        }
    }
}

/// A text cell read as a `u32`.
pub fn parse_u32(cell: &str) -> (r: Option<u32>)
    ensures
        r == coerce_u32(cell@),
{
    let v = chars_of(cell);
    assert(v@.subrange(0, v.len() as int) =~= cell@);
    u32_in(&v, 0, v.len())
}

/// A text cell read as a `u16`.
pub fn parse_u16(cell: &str) -> (r: Option<u16>)
    ensures
        r == coerce_u16(cell@),
{
    let v = chars_of(cell);
    assert(v@.subrange(0, v.len() as int) =~= cell@);
    u16_in(&v, 0, v.len())
}

/// A text cell read as an `i64`.
pub fn parse_i64(cell: &str) -> (r: Option<i64>)
    ensures
        r == coerce_i64(cell@),
{
    let v = chars_of(cell);
    assert(v@.subrange(0, v.len() as int) =~= cell@);
    i64_in(&v, 0, v.len())
}

} // verus!
