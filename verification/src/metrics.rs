//! The metrics surface: named counters, log queues and keyed aggregates.
//!
//! Each metric owns a counter, a queue of log lines with take-all
//! semantics, and a map from string keys to aggregate buckets holding a
//! hit count, a sum and a streaming median. The registry maps metric
//! names to metrics, handing a fresh default to readers of unknown
//! names so consumers never fail to read. Counter arithmetic wraps, as
//! the shared atomic counters it stands for do; the per-metric append
//! log files live with the caller.

use vstd::prelude::*;

use crate::median::{sm_add, sorted_asc, sorted_desc, StreamingMedian};
use crate::views::{lemma_strs_view_index, strs_view};

verus! {

/// One keyed aggregate bucket.
pub struct Count {
    /// How many values were folded in.
    pub count: usize,
    /// Their sum, wrapping.
    pub sum: usize,
    /// Their streaming median.
    pub middle: StreamingMedian,
    /// Example payloads recorded when the bucket was made.
    pub egs: Vec<String>,
}

/// The mathematical shape of a bucket.
#[verifier::ext_equal]
pub ghost struct CountV {
    /// How many values were folded in.
    pub count: usize,
    /// Their sum, wrapping.
    pub sum: usize,
    /// The median estimator's lower half.
    pub lo: Seq<usize>,
    /// The median estimator's upper half.
    pub up: Seq<usize>,
    /// Example payloads.
    pub egs: Seq<Seq<char>>,
}

impl View for Count {
    type V = CountV;

    open spec fn view(&self) -> CountV {
        CountV {
            count: self.count,
            sum: self.sum,
            lo: self.middle.lo(),
            up: self.middle.up(),
            egs: strs_view(self.egs@),
        }
    }
}

/// The views of a bucket map, in order.
pub open spec fn buckets_view(s: Seq<(String, Count)>) -> Seq<(Seq<char>, CountV)>
    decreases s,
{
    if s.len() == 0 {
        Seq::empty()
    } else {
        seq![(s[0].0@, s[0].1@)] + buckets_view(s.drop_first())
    }
}

/// A bucket-map view has the entry views, in place.
pub broadcast proof fn lemma_buckets_view_index(s: Seq<(String, Count)>)
    ensures
        (#[trigger] buckets_view(s)).len() == s.len(),
        forall|i: int| 0 <= i < s.len() ==> buckets_view(s)[i] == (s[i].0@, s[i].1@),
    decreases s,
{
    if s.len() != 0 {
        lemma_buckets_view_index(s.drop_first());
        assert forall|i: int| 0 <= i < s.len() implies buckets_view(s)[i] == (s[i].0@, s[i].1@) by {
            if i > 0 {
                assert(s.drop_first()[i - 1] == s[i]);
            }
        }
    }
}

/// The bucket's median estimator is well formed: both halves sorted with
/// their tops last, the lower half's values at most the upper half's,
/// and the lower half bigger by at most one.
pub open spec fn bucket_ok(c: CountV) -> bool {
    &&& sorted_asc(c.lo)
    &&& sorted_desc(c.up)
    &&& (forall|a: int, b: int| 0 <= a < c.lo.len() && 0 <= b < c.up.len() ==> c.lo[a] <= c.up[b])
    &&& c.up.len() <= c.lo.len() <= c.up.len() + 1
}

/// The first index bound to `key`, or the length when the key is absent.
pub open spec fn first_key_index(m: Seq<(Seq<char>, CountV)>, key: Seq<char>) -> int
    decreases m.len(),
{
    if m.len() == 0 {
        0
    } else if m[0].0 == key {
        0
    } else {
        1 + first_key_index(m.drop_first(), key)
    }
}

/// One named counter with its log queue and keyed aggregates.
pub struct Metric {
    number: usize,
    logs: Vec<String>,
    map_count: Vec<(String, Count)>,
}

impl Metric {
    /// The counter's value.
    pub closed spec fn spec_number(self) -> usize {
        self.number
    }

    /// The queued log lines, in order.
    pub closed spec fn spec_logs(self) -> Seq<Seq<char>> {
        strs_view(self.logs@)
    }

    /// The keyed aggregates, in insertion order.
    pub closed spec fn spec_map(self) -> Seq<(Seq<char>, CountV)> {
        buckets_view(self.map_count@)
    }

    /// Every bucket's median estimator is well formed.
    pub open spec fn wf(self) -> bool {
        forall|i: int| 0 <= i < self.spec_map().len() ==> bucket_ok((#[trigger] self.spec_map()[i]).1)
    }

    /// A fresh metric: counter zero, nothing queued, no aggregates.
    pub fn new() -> (r: Metric)
        ensures
            r.wf(),
            r.spec_number() == 0,
            r.spec_logs().len() == 0,
            r.spec_map().len() == 0,
    {
        Metric { number: 0, logs: Vec::new(), map_count: Vec::new() }
    }

    /// Reads the counter.
    pub fn get(&self) -> (v: usize)
        ensures
            v == self.spec_number(),
    {
        self.number
    }

    /// Writes the counter.
    pub fn set(&mut self, value: usize)
        ensures
            final(self).spec_number() == value,
            final(self).spec_logs() == old(self).spec_logs(),
            final(self).spec_map() == old(self).spec_map(),
            old(self).wf() ==> final(self).wf(),
    {
        self.number = value;
    }

    /// Adds to the counter, wrapping.
    pub fn add(&mut self, value: usize)
        ensures
            final(self).spec_number() == vstd::wrapping::usize_specs::wrapping_add(old(self).spec_number(), value),
            final(self).spec_logs() == old(self).spec_logs(),
            final(self).spec_map() == old(self).spec_map(),
            old(self).wf() ==> final(self).wf(),
    {
        self.number = self.number.wrapping_add(value);
    }

    /// Takes from the counter, wrapping.
    pub fn sub(&mut self, value: usize)
        ensures
            final(self).spec_number() == vstd::wrapping::usize_specs::wrapping_sub(old(self).spec_number(), value),
            final(self).spec_logs() == old(self).spec_logs(),
            final(self).spec_map() == old(self).spec_map(),
            old(self).wf() ==> final(self).wf(),
    {
        self.number = self.number.wrapping_sub(value);
    }

    /// Steps the counter up by one, wrapping.
    pub fn increment(&mut self)
        ensures
            final(self).spec_number() == vstd::wrapping::usize_specs::wrapping_add(old(self).spec_number(), 1),
            final(self).spec_logs() == old(self).spec_logs(),
            final(self).spec_map() == old(self).spec_map(),
            old(self).wf() ==> final(self).wf(),
    {
        self.number = self.number.wrapping_add(1);
    }

    /// Steps the counter down by one, wrapping.
    pub fn decrement(&mut self)
        ensures
            final(self).spec_number() == vstd::wrapping::usize_specs::wrapping_sub(old(self).spec_number(), 1),
            final(self).spec_logs() == old(self).spec_logs(),
            final(self).spec_map() == old(self).spec_map(),
            old(self).wf() ==> final(self).wf(),
    {
        self.number = self.number.wrapping_sub(1);
    }

    /// Queues one log line.
    pub fn push(&mut self, log: String)
        ensures
            final(self).spec_logs() == old(self).spec_logs().push(log@),
            final(self).spec_number() == old(self).spec_number(),
            final(self).spec_map() == old(self).spec_map(),
            old(self).wf() ==> final(self).wf(),
    {
        let ghost prev = self.logs@;
        let ghost lv = log@;
        self.logs.push(log);
        proof {
            lemma_strs_view_index(prev);
            lemma_strs_view_index(self.logs@);
            assert(strs_view(self.logs@) =~= strs_view(prev).push(lv));
        }
    }

    /// Replaces the line at the index, or queues the line when the index
    /// is out of range.
    pub fn update(&mut self, index: usize, new_log: String)
        ensures
            final(self).spec_logs() == if index < old(self).spec_logs().len() {
                old(self).spec_logs().update(index as int, new_log@)
            } else {
                old(self).spec_logs().push(new_log@)
            },
            final(self).spec_number() == old(self).spec_number(),
            final(self).spec_map() == old(self).spec_map(),
            old(self).wf() ==> final(self).wf(),
    {
        let ghost prev = self.logs@;
        let ghost lv = new_log@;
        proof {
            lemma_strs_view_index(prev);
        }
        if index < self.logs.len() {
            let slot = vstd::std_specs::vec::vec_index_mut(&mut self.logs, index);
            *slot = new_log;
            proof {
                lemma_strs_view_index(self.logs@);
                assert(strs_view(self.logs@) =~= strs_view(prev).update(index as int, lv));
            }
        } else {
            self.logs.push(new_log);
            proof {
                lemma_strs_view_index(self.logs@);
                assert(strs_view(self.logs@) =~= strs_view(prev).push(lv));
            }
        }
    }

    /// Takes every queued line, leaving the queue empty.
    pub fn consumers(&mut self) -> (r: Vec<String>)
        ensures
            strs_view(r@) == old(self).spec_logs(),
            final(self).spec_logs().len() == 0,
            final(self).spec_number() == old(self).spec_number(),
            final(self).spec_map() == old(self).spec_map(),
            old(self).wf() ==> final(self).wf(),
    {
        let mut drained: Vec<String> = Vec::new();
        core::mem::swap(&mut drained, &mut self.logs);
        proof {
            assert(strs_view(self.logs@) =~= Seq::<Seq<char>>::empty());
        }
        drained
    }

    /// Clears the counter and the queue, as a run restart does.
    pub fn reset(&mut self)
        ensures
            final(self).spec_number() == 0,
            final(self).spec_logs().len() == 0,
            final(self).spec_map() == old(self).spec_map(),
            old(self).wf() ==> final(self).wf(),
    {
        self.number = 0;
        self.logs = Vec::new();
        proof {
            assert(strs_view(self.logs@) =~= Seq::<Seq<char>>::empty());
        }
    }

    /// Reads every queued line without taking it.
    pub fn logs(&self) -> (r: Vec<String>)
        ensures
            strs_view(r@) == self.spec_logs(),
    {
        broadcast use lemma_strs_view_index;

        let mut out: Vec<String> = Vec::new();
        let mut i: usize = 0;
        while i < self.logs.len()
            invariant
                0 <= i <= self.logs@.len(),
                out@.len() == i,
                forall|k: int| 0 <= k < i ==> (#[trigger] out@[k])@ == self.logs@[k]@,
            decreases self.logs@.len() - i,
        {
            out.push(self.logs[i].clone());
            i = i + 1;
        }
        proof {
            lemma_strs_view_index(out@);
            lemma_strs_view_index(self.logs@);
            assert(strs_view(out@) =~= strs_view(self.logs@));
        }
        out
    }

    /// Borrows the bucket of a key, when one exists.
    pub fn map_get(&self, key: &str) -> (r: Option<&Count>)
        ensures
            match r {
                Option::Some(c) => exists|i: int|
                    0 <= i < self.spec_map().len() && (#[trigger] self.spec_map()[i]).0 == key@
                        && c@ == self.spec_map()[i].1,
                Option::None => forall|i: int|
                    0 <= i < self.spec_map().len() ==> (#[trigger] self.spec_map()[i]).0 != key@,
            },
    {
        broadcast use lemma_buckets_view_index;

        let mut i: usize = 0;
        while i < self.map_count.len()
            invariant
                0 <= i <= self.map_count@.len(),
                self.spec_map().len() == self.map_count@.len(),
                forall|k: int|
                    0 <= k < self.map_count@.len() ==> (#[trigger] self.spec_map()[k]) == (
                        self.map_count@[k].0@,
                        self.map_count@[k].1@,
                    ),
                forall|k: int| 0 <= k < i ==> (#[trigger] self.spec_map()[k]).0 != key@,
            decreases self.map_count@.len() - i,
        {
            if crate::document::str_key_eq(&self.map_count[i].0, key) {
                proof {
                    assert((#[trigger] self.spec_map()[i as int]).0 == key@);
                }
                return Some(&self.map_count[i].1);
            }
            i = i + 1;
        }
        None
    }

    /// The keys of the aggregate map, in insertion order.
    pub fn map_keys(&self) -> (r: Vec<String>)
        ensures
            strs_view(r@).len() == self.spec_map().len(),
            forall|i: int|
                0 <= i < self.spec_map().len() ==> strs_view(r@)[i] == (
                    #[trigger] self.spec_map()[i]).0,
    {
        broadcast use lemma_buckets_view_index, lemma_strs_view_index;

        let mut out: Vec<String> = Vec::new();
        let mut i: usize = 0;
        while i < self.map_count.len()
            invariant
                0 <= i <= self.map_count@.len(),
                self.spec_map().len() == self.map_count@.len(),
                forall|k: int|
                    0 <= k < self.map_count@.len() ==> (#[trigger] self.spec_map()[k]) == (
                        self.map_count@[k].0@,
                        self.map_count@[k].1@,
                    ),
                out@.len() == i,
                forall|k: int| 0 <= k < i ==> (#[trigger] out@[k])@ == self.spec_map()[k].0,
            decreases self.map_count@.len() - i,
        {
            out.push(self.map_count[i].0.clone());
            i = i + 1;
        }
        proof {
            lemma_strs_view_index(out@);
        }
        out
    }

    /// Folds one value into the keyed aggregate: an existing bucket gains
    /// a hit, the value in its sum (wrapping) and in its median; a fresh
    /// bucket starts at one hit with the value as its sum and the example
    /// recorded, its median estimator still empty.
    pub fn map_add(&mut self, key: &str, value: usize, eg: &str)
        requires
            old(self).wf(),
        ensures
            final(self).wf(),
            final(self).spec_number() == old(self).spec_number(),
            final(self).spec_logs() == old(self).spec_logs(),
            ({
                let m = old(self).spec_map();
                let j = first_key_index(m, key@);
                if j < m.len() {
                    final(self).spec_map() == m.update(
                        j,
                        (
                            m[j].0,
                            CountV {
                                count: vstd::wrapping::usize_specs::wrapping_add(
                                    m[j].1.count,
                                    1,
                                ),
                                sum: vstd::wrapping::usize_specs::wrapping_add(
                                    m[j].1.sum,
                                    value,
                                ),
                                lo: sm_add(m[j].1.lo, m[j].1.up, value).0,
                                up: sm_add(m[j].1.lo, m[j].1.up, value).1,
                                egs: m[j].1.egs,
                            },
                        ),
                    )
                } else {
                    final(self).spec_map() == m.push(
                        (
                            key@,
                            CountV {
                                count: 1,
                                sum: value,
                                lo: Seq::empty(),
                                up: Seq::empty(),
                                egs: seq![eg@],
                            },
                        ),
                    )
                }
            }),
    {
        broadcast use lemma_buckets_view_index;

        let ghost m = self.spec_map();
        let ghost mk = key@;
        let mut i: usize = 0;
        proof {
            assert(m.skip(0) =~= m);
        }
        while i < self.map_count.len()
            invariant
                *self == *old(self),
                old(self).wf(),
                mk == key@,
                0 <= i <= self.map_count@.len(),
                m == buckets_view(self.map_count@),
                m.len() == self.map_count@.len(),
                forall|k: int|
                    0 <= k < self.map_count@.len() ==> m[k] == (
                        self.map_count@[k].0@,
                        self.map_count@[k].1@,
                    ),
                forall|k: int| 0 <= k < i ==> m[k].0 != mk,
            decreases self.map_count@.len() - i,
        {
            if crate::document::str_key_eq(&self.map_count[i].0, key) {
                proof {
                    lemma_first_key_found(m, mk, i as int);
                    assert(m == old(self).spec_map());
                    assert(bucket_ok(old(self).spec_map()[i as int].1));
                    assert(m[i as int].1 == self.map_count@[i as int].1@);
                    assert(self.map_count@[i as int].1.middle.wf());
                }
                let ghost before = self.map_count@;
                let entry = vstd::std_specs::vec::vec_index_mut(&mut self.map_count, i);
                entry.1.count = entry.1.count.wrapping_add(1);
                entry.1.sum = entry.1.sum.wrapping_add(value);
                entry.1.middle.add(value);
                proof {
                    lemma_buckets_view_index(before);
                    lemma_buckets_view_index(self.map_count@);
                    assert(buckets_view(self.map_count@) =~= m.update(
                        i as int,
                        (m[i as int].0, self.map_count@[i as int].1@),
                    ));
                    assert(bucket_ok(self.map_count@[i as int].1@));
                    assert forall|k: int| 0 <= k < self.spec_map().len() implies bucket_ok(
                        (#[trigger] self.spec_map()[k]).1,
                    ) by {
                        if k != i {
                            assert(self.spec_map()[k] == m[k]);
                            assert(bucket_ok(old(self).spec_map()[k].1));
                        }
                    }
                }
                return ;
            }
            i = i + 1;
        }
        proof {
            lemma_first_key_absent(m, mk);
        }
        let ghost before = self.map_count@;
        let mut egs: Vec<String> = Vec::new();
        egs.push(eg.to_owned());
        proof {
            lemma_strs_view_index(egs@);
            assert(strs_view(egs@) =~= seq![eg@]);
        }
        let bucket = Count { count: 1, sum: value, middle: StreamingMedian::new(), egs };
        self.map_count.push((key.to_owned(), bucket));
        proof {
            lemma_buckets_view_index(before);
            lemma_buckets_view_index(self.map_count@);
            assert(buckets_view(self.map_count@) =~= m.push(
                (mk, self.map_count@.last().1@),
            ));
            assert(self.map_count@.last().1@ =~~= CountV {
                count: 1,
                sum: value,
                lo: Seq::empty(),
                up: Seq::empty(),
                egs: seq![eg@],
            });
            assert(bucket_ok(self.map_count@.last().1@));
            assert forall|k: int| 0 <= k < self.spec_map().len() implies bucket_ok(
                (#[trigger] self.spec_map()[k]).1,
            ) by {
                if k < m.len() {
                    assert(self.spec_map()[k] == m[k]);
                    assert(bucket_ok(old(self).spec_map()[k].1));
                }
            }
        }
    }
}

/// A hit at `i` after misses before it is the first hit.
proof fn lemma_first_key_found(m: Seq<(Seq<char>, CountV)>, key: Seq<char>, i: int)
    requires
        0 <= i < m.len(),
        m[i].0 == key,
        forall|k: int| 0 <= k < i ==> m[k].0 != key,
    ensures
        first_key_index(m, key) == i,
    decreases m.len(),
{
    if i > 0 {
        assert(forall|k: int| 0 <= k < i - 1 ==> m.drop_first()[k].0 != key);
        assert(m.drop_first()[i - 1].0 == key);
        lemma_first_key_found(m.drop_first(), key, i - 1);
    }
}

/// With no hit anywhere, the first hit sits at the length.
proof fn lemma_first_key_absent(m: Seq<(Seq<char>, CountV)>, key: Seq<char>)
    requires
        forall|k: int| 0 <= k < m.len() ==> m[k].0 != key,
    ensures
        first_key_index(m, key) == m.len(),
    decreases m.len(),
{
    if m.len() != 0 {
        assert(forall|k: int| 0 <= k < m.drop_first().len() ==> m.drop_first()[k].0 != key);
        lemma_first_key_absent(m.drop_first(), key);
    }
}

/// The names of the metrics an executor run uses.
pub fn ind_keys() -> (r: Vec<String>)
    ensures
        strs_view(r@) == seq![
            "boot_worker"@,
            "query_count"@,
            "cost_ms"@,
            "progress"@,
            "logs"@,
            "progress_total"@,
            "thread_count"@,
            "done_worker"@,
            "query_qps"@,
            "querying"@,
            "dyn_threads"@,
            "dyn_cc_limit"@,
        ],
{
    let mut r: Vec<String> = Vec::new();
    r.push("boot_worker".to_owned());
    r.push("query_count".to_owned());
    r.push("cost_ms".to_owned());
    r.push("progress".to_owned());
    r.push("logs".to_owned());
    r.push("progress_total".to_owned());
    r.push("thread_count".to_owned());
    r.push("done_worker".to_owned());
    r.push("query_qps".to_owned());
    r.push("querying".to_owned());
    r.push("dyn_threads".to_owned());
    r.push("dyn_cc_limit".to_owned());
    proof {
        lemma_strs_view_index(r@);
        assert(strs_view(r@) =~= seq![
            "boot_worker"@,
            "query_count"@,
            "cost_ms"@,
            "progress"@,
            "logs"@,
            "progress_total"@,
            "thread_count"@,
            "done_worker"@,
            "query_qps"@,
            "querying"@,
            "dyn_threads"@,
            "dyn_cc_limit"@,
        ]);
    }
    r
}

/// The registry of named metrics. Beside the registered metrics it
/// keeps one fresh default, handed to readers of unknown names so
/// consumers never fail to read.
pub struct Indicator {
    metric: Vec<(String, Metric)>,
    fallback: Metric,
}

impl Indicator {
    /// The metric names, in registration order.
    pub closed spec fn spec_names(self) -> Seq<Seq<char>> {
        Seq::new(self.metric@.len(), |i: int| self.metric@[i].0@)
    }

    /// The metric at a position.
    pub closed spec fn spec_metric(self, i: int) -> Metric {
        self.metric@[i].1
    }

    /// The default metric read under unknown names.
    pub closed spec fn spec_fallback(self) -> Metric {
        self.fallback
    }

    /// The default reads as a fresh metric.
    pub open spec fn fallback_fresh(self) -> bool {
        &&& self.spec_fallback().spec_number() == 0
        &&& self.spec_fallback().spec_logs().len() == 0
        &&& self.spec_fallback().spec_map().len() == 0
        &&& self.spec_fallback().wf()
    }

    /// Every metric is well formed and the default reads fresh.
    pub open spec fn wf(self) -> bool {
        &&& forall|i: int|
            0 <= i < self.spec_names().len() ==> (#[trigger] self.spec_metric(i)).wf()
        &&& self.fallback_fresh()
    }

    /// An empty registry.
    pub fn new() -> (r: Indicator)
        ensures
            r.wf(),
            r.spec_names().len() == 0,
    {
        Indicator { metric: Vec::new(), fallback: Metric::new() }
    }

    /// Registers one fresh metric per name, in order.
    pub fn init(&mut self, names: Vec<String>)
        ensures
            final(self).wf(),
            final(self).spec_names() == strs_view(names@),
            forall|i: int|
                0 <= i < names@.len() ==> (#[trigger] final(self).spec_metric(i)).spec_number()
                    == 0,
    {
        broadcast use lemma_strs_view_index;

        let mut metric: Vec<(String, Metric)> = Vec::new();
        let mut i: usize = 0;
        while i < names.len()
            invariant
                0 <= i <= names@.len(),
                metric@.len() == i,
                forall|k: int| 0 <= k < i ==> (#[trigger] metric@[k]).0@ == names@[k]@,
                forall|k: int|
                    0 <= k < i ==> (#[trigger] metric@[k]).1.wf() && metric@[k].1.spec_number()
                        == 0,
            decreases names@.len() - i,
        {
            let name = names[i].clone();
            metric.push((name, Metric::new()));
            i = i + 1;
        }
        *self = Indicator { metric, fallback: Metric::new() };
        proof {
            assert(final(self).spec_names() =~= strs_view(names@));
        }
    }

    /// How many metrics are registered.
    pub fn len(&self) -> (n: usize)
        ensures
            n == self.spec_names().len(),
    {
        self.metric.len()
    }

    /// The position of a named metric, when one is registered.
    pub fn find(&self, name: &str) -> (r: Option<usize>)
        ensures
            match r {
                Option::Some(i) => i < self.spec_names().len() && self.spec_names()[i as int]
                    == name@,
                Option::None => forall|i: int|
                    0 <= i < self.spec_names().len() ==> self.spec_names()[i] != name@,
            },
    {
        let mut i: usize = 0;
        while i < self.metric.len()
            invariant
                0 <= i <= self.metric@.len(),
                self.spec_names().len() == self.metric@.len(),
                forall|k: int| 0 <= k < self.metric@.len() ==> self.spec_names()[k] == self.metric@[k].0@,
                forall|k: int| 0 <= k < i ==> self.spec_names()[k] != name@,
            decreases self.metric@.len() - i,
        {
            if crate::document::str_key_eq(&self.metric[i].0, name) {
                return Some(i);
            }
            i = i + 1;
        }
        None
    }

    /// Borrows the metric at a position.
    pub fn metric_at(&self, i: usize) -> (r: &Metric)
        requires
            i < self.spec_names().len(),
        ensures
            *r == self.spec_metric(i as int),
    {
        &self.metric[i].1
    }

    /// Borrows the metric at a position for writing.
    pub fn metric_at_mut(&mut self, i: usize) -> (r: &mut Metric)
        requires
            i < old(self).spec_names().len(),
        ensures
            *r == old(self).spec_metric(i as int),
            final(self).spec_names() == old(self).spec_names(),
            forall|k: int|
                0 <= k < old(self).spec_names().len() && k != i ==> final(self).spec_metric(k)
                    == old(self).spec_metric(k),
            final(self).spec_metric(i as int) == *final(r),
            final(self).spec_fallback() == old(self).spec_fallback(),
    {
        let entry = vstd::std_specs::vec::vec_index_mut(&mut self.metric, i);
        &mut entry.1
    }

    /// Borrows the named metric, so consumers never fail to read: a
    /// registered name reads its metric, and an unknown name reads as a
    /// fresh default.
    pub fn take(&self, name: &str) -> (r: &Metric)
        requires
            self.wf(),
        ensures
            (exists|i: int| 0 <= i < self.spec_names().len() && self.spec_names()[i] == name@)
                ==> exists|i: int|
                0 <= i < self.spec_names().len() && self.spec_names()[i] == name@ && *r
                    == self.spec_metric(i),
            (forall|i: int| 0 <= i < self.spec_names().len() ==> self.spec_names()[i] != name@)
                ==> r.spec_number() == 0 && r.spec_logs().len() == 0 && r.spec_map().len() == 0,
            r.wf(),
    {
        let mut i: usize = 0;
        while i < self.metric.len()
            invariant
                self.wf(),
                0 <= i <= self.metric@.len(),
                self.spec_names().len() == self.metric@.len(),
                forall|k: int| 0 <= k < self.metric@.len() ==> self.spec_names()[k] == self.metric@[k].0@,
                forall|k: int| 0 <= k < i ==> self.spec_names()[k] != name@,
            decreases self.metric@.len() - i,
        {
            if crate::document::str_key_eq(&self.metric[i].0, name) {
                proof {
                    assert(self.spec_names()[i as int] == name@ && self.spec_metric(i as int)
                        == self.metric@[i as int].1);
                    assert(self.spec_metric(i as int).wf());
                }
                return &self.metric[i].1;
            }
            i = i + 1;
        }
        &self.fallback
    }

    /// Zeroes every counter and takes every queue, as a restart does.
    pub fn reset(&mut self)
        requires
            old(self).wf(),
        ensures
            final(self).wf(),
            final(self).spec_names() == old(self).spec_names(),
            forall|i: int|
                0 <= i < final(self).spec_names().len() ==> (#[trigger] final(self).spec_metric(
                    i,
                )).spec_number() == 0 && final(self).spec_metric(i).spec_logs().len() == 0
                    && final(self).spec_metric(i).spec_map() == old(self).spec_metric(i).spec_map(),
    {
        let mut i: usize = 0;
        while i < self.metric.len()
            invariant
                0 <= i <= self.metric@.len(),
                old(self).wf(),
                self.fallback == old(self).fallback,
                self.metric@.len() == old(self).metric@.len(),
                forall|k: int|
                    0 <= k < self.metric@.len() ==> (#[trigger] self.metric@[k]).0@ == old(
                        self,
                    ).metric@[k].0@,
                forall|k: int|
                    i <= k < self.metric@.len() ==> (#[trigger] self.metric@[k]).1 == old(
                        self,
                    ).metric@[k].1,
                forall|k: int|
                    0 <= k < i ==> (#[trigger] self.metric@[k]).1.spec_number() == 0
                        && self.metric@[k].1.spec_logs().len() == 0 && self.metric@[k].1.spec_map()
                        == old(self).metric@[k].1.spec_map() && self.metric@[k].1.wf(),
            decreases self.metric@.len() - i,
        {
            let ghost before = self.metric@;
            proof {
                assert(old(self).spec_metric(i as int).wf());
                assert(old(self).spec_metric(i as int) == old(self).metric@[i as int].1);
                assert(before[i as int].1 == old(self).metric@[i as int].1);
                assert(before[i as int].1.wf());
            }
            let entry = vstd::std_specs::vec::vec_index_mut(&mut self.metric, i);
            entry.1.set(0);
            let _ = entry.1.consumers();
            proof {
                assert(self.metric@.len() == before.len());
                assert(forall|k: int|
                    0 <= k < before.len() && k != i ==> self.metric@[k] == before[k]);
                assert(self.metric@[i as int].0 == before[i as int].0);
            }
            i = i + 1;
        }
        proof {
            assert(final(self).spec_names() =~= old(self).spec_names());
            assert forall|k: int| 0 <= k < final(self).spec_names().len() implies bucket_wf_at(
                *self,
                k,
            ) by {
                assert(self.metric@[k].1.wf());
            }
            assert forall|k: int| 0 <= k < final(self).spec_names().len() implies (
            #[trigger] final(self).spec_metric(k)).spec_number() == 0 && final(self).spec_metric(
                k,
            ).spec_logs().len() == 0 && final(self).spec_metric(k).spec_map() == old(
                self,
            ).spec_metric(k).spec_map() by {
                assert(final(self).spec_metric(k) == self.metric@[k].1);
            }
        }
    }
}

/// The metric at a position of the registry is well formed.
pub open spec fn bucket_wf_at(ind: Indicator, k: int) -> bool {
    ind.spec_metric(k).wf()
}

} // verus!
