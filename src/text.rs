//! Character-level helpers: splitting a line on commas and trimming cells.

use vstd::prelude::*;
use vstd::string::*;

verus! {

/// The Unicode `White_Space` property, the set of characters that
/// `str::trim` strips.
pub open spec fn white(c: char) -> bool {
    let u = c as u32;
    (0x9 <= u && u <= 0xd) || u == 0x20 || u == 0x85 || u == 0xa0 || u == 0x1680 || (0x2000 <= u
        && u <= 0x200a) || u == 0x2028 || u == 0x2029 || u == 0x202f || u == 0x205f || u == 0x3000
}

/// Whether `c` is white space.
pub fn is_white(c: char) -> (r: bool)
    ensures
        r == white(c),
{
    let u = c as u32;
    (0x9 <= u && u <= 0xd) || u == 0x20 || u == 0x85 || u == 0xa0 || u == 0x1680 || (0x2000 <= u
        && u <= 0x200a) || u == 0x2028 || u == 0x2029 || u == 0x202f || u == 0x205f || u == 0x3000
}

/// `s` without its leading white space.
pub open spec fn trim_start(s: Seq<char>) -> Seq<char>
    decreases s.len(),
{
    if s.len() > 0 && white(s[0]) {
        trim_start(s.drop_first())
    } else {
        s
    }
}

/// `s` without its trailing white space.
pub open spec fn trim_end(s: Seq<char>) -> Seq<char>
    decreases s.len(),
{
    if s.len() > 0 && white(s.last()) {
        trim_end(s.drop_last())
    } else {
        s
    }
}

/// `s` without leading and trailing white space.
pub open spec fn trim(s: Seq<char>) -> Seq<char> {
    trim_end(trim_start(s))
}

/// The cells of a line split at every comma, with no quoting: a line without
/// a comma is one cell, and a comma at either end gives an empty cell there.
pub open spec fn split(s: Seq<char>) -> Seq<Seq<char>>
    decreases s.len(),
{
    if s.len() == 0 {
        seq![Seq::empty()]
    } else {
        let p = split(s.drop_last());
        if s.last() == ',' {
            p.push(Seq::empty())
        } else {
            p.update(p.len() - 1, p.last().push(s.last()))
        }
    }
}

/// A line has at least one cell.
pub proof fn lemma_split_nonempty(s: Seq<char>)
    ensures
        split(s).len() >= 1,
    decreases s.len(),
{
    if s.len() > 0 {
        lemma_split_nonempty(s.drop_last());
    }
}

/// The characters of `s`, one by one.
pub fn chars_of(s: &str) -> (r: Vec<char>)
    ensures
        r@ == s@,
{
    let n = s.unicode_len();
    let mut r: Vec<char> = Vec::with_capacity(n);
    let mut i: usize = 0;
    while i < n
        invariant
            n == s@.len(),
            i <= n,
            r@ == s@.take(i as int),
        decreases n - i,
    {
        r.push(s.get_char(i));
        i = i + 1;
        assert(r@ =~= s@.take(i as int));
    }
    assert(r@ =~= s@);
    r
}

/// The bounds of the trimmed part of `v[lo..hi]`.
pub fn trim_bounds(v: &Vec<char>, lo: usize, hi: usize) -> (r: (usize, usize))
    requires
        lo <= hi <= v.len(),
    ensures
        lo <= r.0 <= r.1 <= hi,
        v@.subrange(r.0 as int, r.1 as int) == trim(v@.subrange(lo as int, hi as int)),
{
    let mut a = lo;
    while a < hi && is_white(v[a])
        invariant
            lo <= a <= hi <= v.len(),
            trim_start(v@.subrange(lo as int, hi as int)) == trim_start(
                v@.subrange(a as int, hi as int),
            ),
        decreases hi - a,
    {
        assert(v@.subrange(a as int, hi as int).drop_first() =~= v@.subrange(
            a + 1,
            hi as int,
        ));
        a = a + 1;
    }
    assert(trim_start(v@.subrange(a as int, hi as int)) == v@.subrange(a as int, hi as int));
    let mut b = hi;
    while b > a && is_white(v[b - 1])
        invariant
            lo <= a <= b <= hi <= v.len(),
            trim(v@.subrange(lo as int, hi as int)) == trim_end(v@.subrange(a as int, b as int)),
        decreases b - a,
    {
        assert(v@.subrange(a as int, b as int).drop_last() =~= v@.subrange(
            a as int,
            b - 1,
        ));
        b = b - 1;
    }
    (a, b)
}

/// The bounds of each cell of `v`, as `split` gives them.
pub fn split_bounds(v: &Vec<char>) -> (r: Vec<(usize, usize)>)
    ensures
        r.len() == split(v@).len(),
        forall|j: int| 0 <= j < r.len() ==> (#[trigger] r[j]).0 <= r[j].1 && r[j].1 <= v.len(),
        forall|j: int|
            0 <= j < r.len() ==> #[trigger] split(v@)[j] == v@.subrange(
                r[j].0 as int,
                r[j].1 as int,
            ),
{
    let mut r: Vec<(usize, usize)> = Vec::new();
    let mut start: usize = 0;
    let mut i: usize = 0;
    proof {
        lemma_split_nonempty(v@.take(0));
    }
    while i < v.len()
        invariant
            start <= i <= v.len(),
            split(v@.take(i as int)).len() == r.len() + 1,
            split(v@.take(i as int)).last() == v@.subrange(start as int, i as int),
            forall|j: int| 0 <= j < r.len() ==> (#[trigger] r[j]).0 <= r[j].1 && r[j].1 <= i,
            forall|j: int|
                0 <= j < r.len() ==> #[trigger] split(v@.take(i as int))[j] == v@.subrange(
                    r[j].0 as int,
                    r[j].1 as int,
                ),
        decreases v.len() - i,
    {
        let ghost t = v@.take(i + 1);
        let ghost p = split(v@.take(i as int));
        let ghost r0 = r@;
        assert(t.drop_last() =~= v@.take(i as int));
        assert(t.last() == v[i as int]);
        if v[i] == ',' {
            assert(split(t) == p.push(Seq::empty()));
            r.push((start, i));
            start = i + 1;
            assert(v@.subrange(start as int, i + 1) =~= Seq::<char>::empty());
            assert forall|j: int| 0 <= j < r.len() implies #[trigger] split(t)[j]
                == v@.subrange(r[j].0 as int, r[j].1 as int) by {
                assert(split(t)[j] == p[j]);
                if j < r0.len() {
                    assert(r[j] == r0[j]);
                }
            }
        } else {
            assert(split(t) == p.update(p.len() - 1, p.last().push(t.last())));
            assert(v@.subrange(start as int, i as int).push(v[i as int]) =~= v@.subrange(
                start as int,
                i + 1,
            ));
            assert forall|j: int| 0 <= j < r.len() implies #[trigger] split(t)[j]
                == v@.subrange(r[j].0 as int, r[j].1 as int) by {
                assert(split(t)[j] == p[j]);
            }
        }
        assert forall|j: int| 0 <= j < r.len() implies (#[trigger] r[j]).0 <= r[j].1 && r[j].1 <= i + 1 by {
            if j < r0.len() {
                assert(r[j] == r0[j]);
            }
        }
        i = i + 1;
        assert(t == v@.take(i as int));
    }
    let ghost r0 = r@;
    r.push((start, v.len()));
    assert(v@.take(v.len() as int) =~= v@);
    assert forall|j: int| 0 <= j < r.len() implies #[trigger] split(v@)[j]
        == v@.subrange(r[j].0 as int, r[j].1 as int) by {
        assert(split(v@.take(v.len() as int))[j] == split(v@)[j]);
        if j < r0.len() {
            assert(r[j] == r0[j]);
        }
    }
    r
}

} // verus!
