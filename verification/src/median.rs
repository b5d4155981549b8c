//! Streaming median estimator for the metrics surface.
//!
//! The estimator keeps the lower half of the inputs seen so far and the
//! upper half, with the lower half never smaller than the upper half and
//! at most one element bigger. The median is the top of the lower half
//! when the total count is odd, and the mean of the two tops when it is
//! even. The halves are kept as sorted vectors: the lower half ascending
//! (its top, the maximum, is last) and the upper half descending (its
//! top, the minimum, is last).

use vstd::prelude::*;

verus! {

/// The sequence is sorted in ascending order.
pub open spec fn sorted_asc(s: Seq<usize>) -> bool {
    forall|i: int, j: int| 0 <= i < j < s.len() ==> s[i] <= s[j]
}

/// The sequence is sorted in descending order.
pub open spec fn sorted_desc(s: Seq<usize>) -> bool {
    forall|i: int, j: int| 0 <= i < j < s.len() ==> s[i] >= s[j]
}

/// Insertion into an ascending sequence, before the first element that is
/// not smaller than the value.
pub open spec fn insert_asc(s: Seq<usize>, v: usize) -> Seq<usize>
    decreases s.len(),
{
    if s.len() == 0 {
        seq![v]
    } else if v <= s[0] {
        seq![v] + s
    } else {
        seq![s[0]] + insert_asc(s.drop_first(), v)
    }
}

/// Insertion into a descending sequence, before the first element that is
/// not greater than the value.
pub open spec fn insert_desc(s: Seq<usize>, v: usize) -> Seq<usize>
    decreases s.len(),
{
    if s.len() == 0 {
        seq![v]
    } else if v >= s[0] {
        seq![v] + s
    } else {
        seq![s[0]] + insert_desc(s.drop_first(), v)
    }
}

proof fn lemma_insert_asc_len(s: Seq<usize>, v: usize)
    ensures
        insert_asc(s, v).len() == s.len() + 1,
    decreases s.len(),
{
    if s.len() != 0 && !(v <= s[0]) {
        lemma_insert_asc_len(s.drop_first(), v);
    }
}

proof fn lemma_insert_desc_len(s: Seq<usize>, v: usize)
    ensures
        insert_desc(s, v).len() == s.len() + 1,
    decreases s.len(),
{
    if s.len() != 0 && !(v >= s[0]) {
        lemma_insert_desc_len(s.drop_first(), v);
    }
}

/// Every element of the inserted sequence is the new value or came from
/// the original, and the insertion keeps ascending order.
proof fn lemma_insert_asc_sorted(s: Seq<usize>, v: usize)
    requires
        sorted_asc(s),
    ensures
        sorted_asc(insert_asc(s, v)),
        forall|i: int|
            0 <= i < insert_asc(s, v).len() ==> insert_asc(s, v)[i] == v || s.contains(
                #[trigger] insert_asc(s, v)[i],
            ),
    decreases s.len(),
{
    lemma_insert_asc_len(s, v);
    if s.len() == 0 {
    } else if v <= s[0] {
    } else {
        assert(sorted_asc(s.drop_first()));
        lemma_insert_asc_sorted(s.drop_first(), v);
        let r = insert_asc(s, v);
        let r1 = insert_asc(s.drop_first(), v);
        assert forall|i: int| 0 <= i < r.len() implies r[i] == v || s.contains(#[trigger] r[i]) by {
            if i > 0 {
                assert(r[i] == r1[i - 1]);
                if r1[i - 1] != v {
                    let k = choose|k: int|
                        0 <= k < s.drop_first().len() && s.drop_first()[k] == r1[i - 1];
                    assert(s[k + 1] == r1[i - 1]);
                }
            }
        }
        assert forall|i: int, j: int| 0 <= i < j < r.len() implies r[i] <= r[j] by {
            if i == 0 {
                if r[j] == v {
                    assert(r[0] == s[0] < v);
                } else {
                    let k = choose|k: int| 0 <= k < s.len() && s[k] == r[j];
                    assert(s[0] <= s[k]);
                }
            } else {
                assert(r[i] == r1[i - 1] && r[j] == r1[j - 1]);
            }
        }
    }
}

/// Every element of the inserted sequence is the new value or came from
/// the original, and the insertion keeps descending order.
proof fn lemma_insert_desc_sorted(s: Seq<usize>, v: usize)
    requires
        sorted_desc(s),
    ensures
        sorted_desc(insert_desc(s, v)),
        forall|i: int|
            0 <= i < insert_desc(s, v).len() ==> insert_desc(s, v)[i] == v || s.contains(
                #[trigger] insert_desc(s, v)[i],
            ),
    decreases s.len(),
{
    lemma_insert_desc_len(s, v);
    if s.len() == 0 {
    } else if v >= s[0] {
    } else {
        assert(sorted_desc(s.drop_first()));
        lemma_insert_desc_sorted(s.drop_first(), v);
        let r = insert_desc(s, v);
        let r1 = insert_desc(s.drop_first(), v);
        assert forall|i: int| 0 <= i < r.len() implies r[i] == v || s.contains(#[trigger] r[i]) by {
            if i > 0 {
                assert(r[i] == r1[i - 1]);
                if r1[i - 1] != v {
                    let k = choose|k: int|
                        0 <= k < s.drop_first().len() && s.drop_first()[k] == r1[i - 1];
                    assert(s[k + 1] == r1[i - 1]);
                }
            }
        }
        assert forall|i: int, j: int| 0 <= i < j < r.len() implies r[i] >= r[j] by {
            if i == 0 {
                if r[j] == v {
                    assert(r[0] == s[0] > v);
                } else {
                    let k = choose|k: int| 0 <= k < s.len() && s[k] == r[j];
                    assert(s[0] >= s[k]);
                }
            } else {
                assert(r[i] == r1[i - 1] && r[j] == r1[j - 1]);
            }
        }
    }
}

/// What one `add` does to the two halves: place the value on the proper
/// side, then rebalance so the lower half holds half the elements,
/// rounded up.
pub open spec fn sm_add(lo: Seq<usize>, up: Seq<usize>, v: usize) -> (Seq<usize>, Seq<usize>) {
    let placed = if lo.len() == 0 || v <= lo.last() {
        (insert_asc(lo, v), up)
    } else {
        (lo, insert_desc(up, v))
    };
    let l1 = placed.0;
    let u1 = placed.1;
    if l1.len() > u1.len() + 1 {
        (l1.drop_last(), u1.push(l1.last()))
    } else if u1.len() > l1.len() {
        (l1.push(u1.last()), u1.drop_last())
    } else {
        (l1, u1)
    }
}

/// The median read off the two halves: the top of the lower half when it
/// is the bigger one, else the mean of the two tops, an absent top
/// reading 0.
pub open spec fn spec_median_of(lo: Seq<usize>, up: Seq<usize>) -> usize {
    let lo_top: usize = if lo.len() == 0 {
        0
    } else {
        lo.last()
    };
    let up_top: usize = if up.len() == 0 {
        0
    } else {
        up.last()
    };
    if lo.len() > up.len() {
        lo_top
    } else {
        ((lo_top + up_top) / 2) as usize
    }
}

/// Streaming median over all values fed to `add`.
pub struct StreamingMedian {
    lower: Vec<usize>,
    upper: Vec<usize>,
}

impl StreamingMedian {
    /// The lower half, ascending.
    pub closed spec fn lo(self) -> Seq<usize> {
        self.lower@
    }

    /// The upper half, descending.
    pub closed spec fn up(self) -> Seq<usize> {
        self.upper@
    }

    /// Both halves sorted with their tops last, every element of the
    /// lower half at most every element of the upper half, and the
    /// lower half bigger by at most one.
    pub open spec fn wf(self) -> bool {
        &&& sorted_asc(self.lo())
        &&& sorted_desc(self.up())
        &&& forall|i: int, j: int|
            0 <= i < self.lo().len() && 0 <= j < self.up().len() ==> self.lo()[i]
                <= self.up()[j]
        &&& self.up().len() <= self.lo().len() <= self.up().len() + 1
    }

    /// A fresh estimator holds nothing.
    pub fn new() -> (r: StreamingMedian)
        ensures
            r.wf(),
            r.lo().len() == 0,
            r.up().len() == 0,
    {
        StreamingMedian { lower: Vec::new(), upper: Vec::new() }
    }

    /// Feeds one value. The halves change exactly as `sm_add` says.
    pub fn add(&mut self, value: usize)
        requires
            old(self).wf(),
        ensures
            final(self).wf(),
            (final(self).lo(), final(self).up()) == sm_add(old(self).lo(), old(self).up(), value),
    {
        let ghost lo0 = self.lo();
        let ghost up0 = self.up();
        if self.lower.len() == 0 || value <= self.lower[self.lower.len() - 1] {
            insert_sorted_asc(&mut self.lower, value);
            proof {
                lemma_insert_asc_sorted(lo0, value);
                lemma_insert_asc_len(lo0, value);
            }
        } else {
            insert_sorted_desc(&mut self.upper, value);
            proof {
                lemma_insert_desc_sorted(up0, value);
                lemma_insert_desc_len(up0, value);
            }
        }
        if self.lower.len() > 0 && self.lower.len() - 1 > self.upper.len() {
            let moved = self.lower.pop().unwrap();
            self.upper.push(moved);
        } else if self.upper.len() > self.lower.len() {
            let moved = self.upper.pop().unwrap();
            self.lower.push(moved);
        }
    }

    /// The median of everything fed so far.
    pub fn median(&self) -> (m: usize)
        requires
            self.wf(),
        ensures
            m == spec_median_of(self.lo(), self.up()),
    {
        let lo_top: usize = if self.lower.len() == 0 {
            0
        } else {
            self.lower[self.lower.len() - 1]
        };
        let up_top: usize = if self.upper.len() == 0 {
            0
        } else {
            self.upper[self.upper.len() - 1]
        };
        if self.lower.len() > self.upper.len() {
            lo_top
        } else {
            (((lo_top as u128) + (up_top as u128)) / 2) as usize
        }
    }
}

/// The halves of a fresh estimator after feeding 1, 2, ..., n in order.
pub open spec fn sm_after_ascending(n: usize) -> (Seq<usize>, Seq<usize>)
    decreases n,
{
    if n == 0 {
        (Seq::<usize>::empty(), Seq::<usize>::empty())
    } else {
        let prev = sm_after_ascending((n - 1) as usize);
        sm_add(prev.0, prev.1, n)
    }
}

proof fn lemma_ascending_shape(n: usize)
    ensures
        sm_after_ascending(n).0 =~= Seq::new(((n + 1) / 2) as nat, |i: int| (i + 1) as usize),
        sm_after_ascending(n).1 =~= Seq::new((n / 2) as nat, |i: int| (n - i) as usize),
    decreases n,
{
    if n == 0 {
    } else if n == 1 {
        assert(insert_asc(Seq::<usize>::empty(), 1usize) =~= seq![1usize]);
    } else {
        lemma_ascending_shape((n - 1) as usize);
        let lo0 = sm_after_ascending((n - 1) as usize).0;
        let up0 = sm_after_ascending((n - 1) as usize).1;
        assert(lo0.len() == n / 2 && lo0.last() == n / 2);
        assert(n > n / 2);
        if up0.len() == 0 {
            assert(insert_desc(up0, n) =~= seq![n]);
        } else {
            assert(up0[0] == n - 1);
            assert(insert_desc(up0, n) =~= seq![n] + up0);
        }
        let u1 = insert_desc(up0, n);
        assert(u1 =~= seq![n] + up0);
        assert(u1.len() == (n - 1) / 2 + 1);
        if n % 2 == 1 {
            assert(u1.len() == lo0.len() + 1);
            assert(u1.last() == up0.last() && up0.last() == (n + 1) / 2);
            assert(sm_after_ascending(n).0 =~= lo0.push(u1.last()));
            assert(sm_after_ascending(n).1 =~= u1.drop_last());
            assert(sm_after_ascending(n).0 =~= Seq::new(
                ((n + 1) / 2) as nat,
                |i: int| (i + 1) as usize,
            ));
            assert(sm_after_ascending(n).1 =~= Seq::new((n / 2) as nat, |i: int| (n - i) as usize));
        } else {
            assert(u1.len() == lo0.len());
            assert(sm_after_ascending(n).0 == lo0);
            assert(sm_after_ascending(n).1 == u1);
            assert(sm_after_ascending(n).0 =~= Seq::new(
                ((n + 1) / 2) as nat,
                |i: int| (i + 1) as usize,
            ));
            assert(sm_after_ascending(n).1 =~= Seq::new((n / 2) as nat, |i: int| (n - i) as usize));
        }
    }
}

/// Law: feeding 1, 2, ..., n (n at least 1) into a fresh estimator, in
/// that order, leaves the median at the ceiling of n / 2.
pub proof fn lemma_median_after_ascending(n: usize)
    requires
        1 <= n,
    ensures
        spec_median_of(sm_after_ascending(n).0, sm_after_ascending(n).1) == (n + 1) / 2,
{
    lemma_ascending_shape(n);
}

/// Inserts a value into an ascending vector at the first position whose
/// element is not smaller.
fn insert_sorted_asc(v: &mut Vec<usize>, value: usize)
    requires
        sorted_asc(old(v)@),
    ensures
        final(v)@ == insert_asc(old(v)@, value),
{
    let mut i: usize = 0;
    while i < v.len() && v[i] < value
        invariant
            0 <= i <= v@.len(),
            forall|k: int| 0 <= k < i ==> v@[k] < value,
            sorted_asc(v@),
        decreases v@.len() - i,
    {
        i = i + 1;
    }
    proof {
        lemma_insert_asc_split(v@, value, i as int);
    }
    v.insert(i, value);
}

/// Inserts a value into a descending vector at the first position whose
/// element is not greater.
fn insert_sorted_desc(v: &mut Vec<usize>, value: usize)
    requires
        sorted_desc(old(v)@),
    ensures
        final(v)@ == insert_desc(old(v)@, value),
{
    let mut i: usize = 0;
    while i < v.len() && v[i] > value
        invariant
            0 <= i <= v@.len(),
            forall|k: int| 0 <= k < i ==> v@[k] > value,
            sorted_desc(v@),
        decreases v@.len() - i,
    {
        i = i + 1;
    }
    proof {
        lemma_insert_desc_split(v@, value, i as int);
    }
    v.insert(i, value);
}

proof fn lemma_insert_asc_split(s: Seq<usize>, v: usize, i: int)
    requires
        0 <= i <= s.len(),
        forall|k: int| 0 <= k < i ==> s[k] < v,
        i < s.len() ==> v <= s[i],
    ensures
        insert_asc(s, v) =~= s.take(i) + seq![v] + s.skip(i),
    decreases i,
{
    if i == 0 {
        assert(s.take(0) + seq![v] + s.skip(0) =~= seq![v] + s);
        if s.len() == 0 {
            assert(insert_asc(s, v) =~= seq![v] + s);
        }
    } else {
        lemma_insert_asc_split(s.drop_first(), v, i - 1);
        assert(s.drop_first().take(i - 1) =~= s.take(i).drop_first());
        assert(s.drop_first().skip(i - 1) =~= s.skip(i));
        assert(insert_asc(s, v) == seq![s[0]] + insert_asc(s.drop_first(), v));
    }
}

proof fn lemma_insert_desc_split(s: Seq<usize>, v: usize, i: int)
    requires
        0 <= i <= s.len(),
        forall|k: int| 0 <= k < i ==> s[k] > v,
        i < s.len() ==> v >= s[i],
    ensures
        insert_desc(s, v) =~= s.take(i) + seq![v] + s.skip(i),
    decreases i,
{
    if i == 0 {
        assert(s.take(0) + seq![v] + s.skip(0) =~= seq![v] + s);
        if s.len() == 0 {
            assert(insert_desc(s, v) =~= seq![v] + s);
        }
    } else {
        lemma_insert_desc_split(s.drop_first(), v, i - 1);
        assert(s.drop_first().take(i - 1) =~= s.take(i).drop_first());
        assert(s.drop_first().skip(i - 1) =~= s.skip(i));
        assert(insert_desc(s, v) == seq![s[0]] + insert_desc(s.drop_first(), v));
    }
}

} // verus!
