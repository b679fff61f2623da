//! Batching for bulk import: records gather in a buffer of fixed capacity,
//! which is flushed as one batch each time it fills, and once more at the
//! end if anything is left in it.

use vstd::prelude::*;
use vstd::arithmetic::div_mod::{lemma_basic_div, lemma_hoist_over_denominator};

verus! {

/// The number of batches of at most `k` records that `n` records make:
/// `n / k` rounded up.
pub open spec fn batch_count(n: nat, k: nat) -> nat {
    ((n + k - 1) / (k as int)) as nat
}

/// `s` cut into batches of `k`, in order; the last one may be shorter.
pub open spec fn batches<T>(s: Seq<T>, k: nat) -> Seq<Seq<T>>
    recommends
        k > 0,
    decreases s.len(),
{
    if s.len() == 0 || k == 0 {
        Seq::empty()
    } else if s.len() <= k {
        seq![s]
    } else {
        seq![s.take(k as int)] + batches(s.skip(k as int), k)
    }
}

/// The batches put back together, in order.
pub open spec fn concat<T>(parts: Seq<Seq<T>>) -> Seq<T>
    decreases parts.len(),
{
    if parts.len() == 0 {
        Seq::empty()
    } else {
        concat(parts.drop_last()) + parts.last()
    }
}

proof fn lemma_concat_prepend<T>(x: Seq<T>, parts: Seq<Seq<T>>)
    ensures
        concat(seq![x] + parts) == x + concat(parts),
    decreases parts.len(),
{
    if parts.len() == 0 {
        assert(seq![x] + parts =~= seq![x]);
        assert(seq![x].drop_last() =~= Seq::<Seq<T>>::empty());
        assert(concat(Seq::<Seq<T>>::empty()) == Seq::<T>::empty());
        assert(concat(seq![x]) == concat(seq![x].drop_last()) + x);
        assert(concat(seq![x]) =~= x + concat(parts));
    } else {
        lemma_concat_prepend(x, parts.drop_last());
        assert((seq![x] + parts).drop_last() =~= seq![x] + parts.drop_last());
        assert(concat(seq![x] + parts) =~= x + concat(parts));
    }
}

/// For `B` records and batches of `K`: there are `B / K` batches rounded
/// up, none empty and none over `K`, and together they hold the `B` records
/// in order.
pub proof fn lemma_batches_cover<T>(s: Seq<T>, k: nat)
    requires
        k > 0,
    ensures
        batches(s, k).len() == batch_count(s.len(), k),
        forall|j: int|
            0 <= j < batches(s, k).len() ==> 0 < (#[trigger] batches(s, k)[j]).len() <= k,
        concat(batches(s, k)) == s,
    decreases s.len(),
{
    let n = s.len();
    if n == 0 {
        lemma_basic_div(k - 1, k as int);
    } else if n <= k {
        lemma_hoist_over_denominator(n - 1, 1, k);
        lemma_basic_div(n - 1, k as int);
        assert(seq![s].drop_last() =~= Seq::<Seq<T>>::empty());
        assert(concat(Seq::<Seq<T>>::empty()) == Seq::<T>::empty());
        assert(concat(seq![s]) == concat(seq![s].drop_last()) + s);
        assert(concat(seq![s]) =~= s);
    } else {
        let rest = s.skip(k as int);
        lemma_batches_cover(rest, k);
        lemma_hoist_over_denominator(rest.len() + k - 1, 1, k);
        assert forall|j: int|
            0 <= j < batches(s, k).len() implies 0 < (#[trigger] batches(s, k)[j]).len() <= k by {
            if j > 0 {
                assert(batches(s, k)[j] == batches(rest, k)[j - 1]);
            }
        }
        lemma_concat_prepend(s.take(k as int), batches(rest, k));
        assert(s.take(k as int) + rest =~= s);
    }
}

/// Batches of a prefix made of whole batches, then one more batch.
proof fn lemma_batches_extend<T>(a: Seq<T>, b: Seq<T>, k: nat, m: nat)
    requires
        k > 0,
        a.len() == m * k,
        0 < b.len() <= k,
    ensures
        batches(a + b, k) == batches(a, k).push(b),
    decreases m,
{
    if m == 0 {
        assert(m * k == 0) by (nonlinear_arith)
            requires
                m == 0,
        ;
        assert(a + b =~= b);
        assert(batches(a, k) =~= Seq::<Seq<T>>::empty());
        assert(batches(a, k).push(b) =~= seq![b]);
    } else {
        assert(a.len() == (m - 1) * k + k) by (nonlinear_arith)
            requires
                a.len() == m * k,
                m > 0,
        ;
        let a2 = a.skip(k as int);
        assert((a + b).take(k as int) =~= a.take(k as int));
        assert((a + b).skip(k as int) =~= a2 + b);
        lemma_batches_extend(a2, b, k, (m - 1) as nat);
        if a.len() == k {
            assert(a.take(k as int) =~= a);
            assert(a2 =~= Seq::<T>::empty());
            assert(batches(a2, k) =~= Seq::<Seq<T>>::empty());
            assert(batches(a + b, k) =~= batches(a, k).push(b));
        } else {
            assert(batches(a + b, k) =~= batches(a, k).push(b));
        }
    }
}

/// A batch handed out for import: its records, and the number imported
/// once it is, counting all earlier batches.
pub struct Batch<T> {
    pub records: Vec<T>,
    pub total: usize,
}

/// The buffer that records gather in between imports.
pub struct Batcher<T> {
    buffer: Vec<T>,
    capacity: usize,
    imported: usize,
}

impl<T> Batcher<T> {
    /// The records waiting in the buffer.
    pub closed spec fn pending(&self) -> Seq<T> {
        self.buffer@
    }

    /// The size at which the buffer is flushed.
    pub closed spec fn capacity(&self) -> nat {
        self.capacity as nat
    }

    /// The number of records handed out in batches so far.
    pub closed spec fn imported(&self) -> nat {
        self.imported as nat
    }

    /// The buffer is never full between calls.
    pub closed spec fn wf(&self) -> bool {
        0 < self.capacity && self.buffer.len() < self.capacity
    }

    /// An empty buffer that flushes at `capacity` records.
    pub fn new(capacity: usize) -> (r: Batcher<T>)
        requires
            capacity > 0,
        ensures
            r.wf(),
            r.pending() == Seq::<T>::empty(),
            r.capacity() == capacity,
            r.imported() == 0,
    {
        Batcher { buffer: Vec::new(), capacity, imported: 0 }
    }

    /// Adds a record; when that fills the buffer, hands its contents out as
    /// a batch and empties it.
    pub fn push(&mut self, record: T) -> (r: Option<Batch<T>>)
        requires
            old(self).wf(),
            old(self).imported() + old(self).pending().len() < usize::MAX,
        ensures
            final(self).wf(),
            final(self).capacity() == old(self).capacity(),
            old(self).pending().len() + 1 == old(self).capacity() ==> {
                &&& r is Some
                &&& r->0.records@ == old(self).pending().push(record)
                &&& r->0.total == old(self).imported() + old(self).capacity()
                &&& final(self).pending() == Seq::<T>::empty()
                &&& final(self).imported() == r->0.total
            },
            old(self).pending().len() + 1 < old(self).capacity() ==> {
                &&& r is None
                &&& final(self).pending() == old(self).pending().push(record)
                &&& final(self).imported() == old(self).imported()
            },
    {
        self.buffer.push(record);
        if self.buffer.len() == self.capacity {
            let mut records: Vec<T> = Vec::new();
            std::mem::swap(&mut records, &mut self.buffer);
            self.imported = self.imported + records.len();
            Some(Batch { records, total: self.imported })
        } else {
            None
        }
    }

    /// Hands out what is left in the buffer, if anything.
    pub fn finish(self) -> (r: Option<Batch<T>>)
        requires
            self.wf(),
            self.imported() + self.pending().len() <= usize::MAX,
        ensures
            self.pending().len() == 0 ==> r is None,
            self.pending().len() > 0 ==> {
                &&& r is Some
                &&& r->0.records@ == self.pending()
                &&& r->0.total == self.imported() + self.pending().len()
            },
    {
        if self.buffer.len() == 0 {
            None
        } else {
            let total = self.imported + self.buffer.len();
            Some(Batch { records: self.buffer, total })
        }
    }
}

/// `v` in reverse order.
fn reversed<T>(v: Vec<T>) -> (r: Vec<T>)
    ensures
        r@ == v@.reverse(),
{
    let ghost s = v@;
    let mut v = v;
    let mut r: Vec<T> = Vec::new();
    while v.len() > 0
        invariant
            v.len() <= s.len(),
            v@ == s.take(v.len() as int),
            r@ == s.skip(v.len() as int).reverse(),
        decreases v.len(),
    {
        let x = v.pop().unwrap();
        r.push(x);
        assert(v@ =~= s.take(v.len() as int));
        assert(r@ =~= s.skip(v.len() as int).reverse());
    }
    assert(s.skip(0) =~= s);
    r
}

/// The batches that `records` go out in with a buffer of `size`, each with
/// its running total.
pub fn plan_batches<T>(records: Vec<T>, size: usize) -> (r: Vec<Batch<T>>)
    requires
        size > 0,
    ensures
        r.len() == batches(records@, size as nat).len(),
        r.len() == batch_count(records.len() as nat, size as nat),
        forall|j: int|
            0 <= j < r.len() ==> {
                &&& (#[trigger] r[j]).records@ == batches(records@, size as nat)[j]
                &&& r[j].total == if (j + 1) * size <= records.len() {
                    (j + 1) * size
                } else {
                    records.len() as int
                }
            },
{
    let ghost s = records@;
    let ghost k = size as nat;
    proof {
        lemma_batches_cover(s, k);
    }
    let n = records.len();
    let mut out: Vec<Batch<T>> = Vec::new();
    let mut b: Batcher<T> = Batcher::new(size);
    let mut rest = reversed(records);
    let mut i: usize = 0;
    assert(out.len() * k == 0) by (nonlinear_arith)
        requires
            out.len() == 0,
    ;
    assert(s.take(0) =~= Seq::<T>::empty());
    while i < n
        invariant
            s.len() == n,
            k == size,
            k > 0,
            i <= n,
            rest@ == s.skip(i as int).reverse(),
            b.wf(),
            b.capacity() == k,
            i == out.len() * k + b.pending().len(),
            b.imported() == out.len() * k,
            b.pending() == s.subrange(out.len() * k, i as int),
            batches(s.take(out.len() * k), k).len() == out.len(),
            forall|j: int|
                0 <= j < out.len() ==> {
                    &&& (#[trigger] out[j]).records@ == batches(s.take(out.len() * k), k)[j]
                    &&& out[j].total == (j + 1) * k
                },
        decreases n - i,
    {
        let ghost full = out.len();
        assert(rest@.len() > 0);
        assert(rest@.last() == s[i as int]);
        let item = rest.pop().unwrap();
        assert(rest@ =~= s.skip(i + 1).reverse());
        match b.push(item) {
            Some(batch) => {
                let ghost a = s.take(full * k);
                let ghost c = s.subrange(full * k, i + 1);
                assert((full + 1) * k == full * k + k) by (nonlinear_arith);
                assert(a + c =~= s.take((full + 1) * k));
                proof {
                    lemma_batches_extend(a, c, k, full as nat);
                }
                let ghost old_out = out@;
                out.push(batch);
                assert forall|j: int| 0 <= j < out.len() implies {
                    &&& (#[trigger] out[j]).records@ == batches(s.take(out.len() * k), k)[j]
                    &&& out[j].total == (j + 1) * k
                } by {
                    if j < full {
                        assert(out[j] == old_out[j]);
                    }
                }
            },
            None => {
                assert(b.pending() =~= s.subrange(out.len() * k, i + 1));
            },
        }
        i = i + 1;
    }
    let ghost full = out.len();
    let ghost a = s.take(full * k);
    assert((full + 1) * k == full * k + k) by (nonlinear_arith);
    match b.finish() {
        Some(batch) => {
            let ghost c = s.subrange(full * k, n as int);
            assert(a + c =~= s);
            proof {
                lemma_batches_extend(a, c, k, full as nat);
            }
            let ghost old_out = out@;
            out.push(batch);
            assert forall|j: int| 0 <= j < out.len() implies {
                &&& (#[trigger] out[j]).records@ == batches(s, k)[j]
                &&& out[j].total == if (j + 1) * size <= n {
                    (j + 1) * size
                } else {
                    n as int
                }
            } by {
                if j < full {
                    assert(out[j] == old_out[j]);
                    assert((j + 1) * k <= full * k) by (nonlinear_arith)
                        requires
                            j < full,
                    ;
                }
            }
        },
        None => {
            assert(a =~= s);
            assert forall|j: int| 0 <= j < out.len() implies {
                &&& (#[trigger] out[j]).records@ == batches(s, k)[j]
                &&& out[j].total == if (j + 1) * size <= n {
                    (j + 1) * size
                } else {
                    n as int
                }
            } by {
                assert((j + 1) * k <= full * k) by (nonlinear_arith)
                    requires
                        j < full,
                ;
            }
        },
    }
    out
}

} // verus!
