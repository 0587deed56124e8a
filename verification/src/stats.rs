//! The time-series store: an append-only, time-ordered collection of
//! (elapsed-time, memory) samples and its statistical reductions.
//!
//! All reductions return 0 on an empty series; that sentinel overlaps with a
//! legitimately observed reading of 0 KB, a known limitation kept on purpose.

use vstd::prelude::*;

verus! {

/// One observation: elapsed time in milliseconds and resident memory in kilobytes.
#[derive(Clone, Copy, PartialEq, Eq, Structural, Debug)]
pub struct Sample {
    pub time_ms: u64,
    pub memory_kb: u64,
}

/// The memory values of a series, in time order.
pub open spec fn memory_values(s: Seq<Sample>) -> Seq<u64> {
    s.map_values(|p: Sample| p.memory_kb)
}

/// The elapsed time of the final sample, or 0 for an empty series.
pub open spec fn last_time_spec(s: Seq<Sample>) -> u64 {
    if s.len() == 0 {
        0
    } else {
        s.last().time_ms
    }
}

/// Sum of all values, as an unbounded integer.
pub open spec fn sum_spec(vals: Seq<u64>) -> int
    decreases vals.len(),
{
    if vals.len() == 0 {
        0
    } else {
        sum_spec(vals.drop_last()) + vals.last()
    }
}

/// Largest value, with 0 standing for an empty sequence.
pub open spec fn max_spec(vals: Seq<u64>) -> u64
    decreases vals.len(),
{
    if vals.len() == 0 {
        0
    } else {
        let m = max_spec(vals.drop_last());
        if vals.last() > m {
            vals.last()
        } else {
            m
        }
    }
}

/// Smallest value, with 0 standing for an empty sequence.
pub open spec fn min_spec(vals: Seq<u64>) -> u64
    decreases vals.len(),
{
    if vals.len() == 0 {
        0
    } else if vals.len() == 1 {
        vals.last()
    } else {
        let m = min_spec(vals.drop_last());
        if vals.last() < m {
            vals.last()
        } else {
            m
        }
    }
}

/// The order the median sorts by: plain `<=` on kilobyte values.
pub open spec fn le_order() -> spec_fn(u64, u64) -> bool {
    |a: u64, b: u64| a <= b
}

/// The memory values rearranged into ascending order.
pub open spec fn sorted_values(vals: Seq<u64>) -> Seq<u64> {
    vals.sort_by(le_order())
}

/// Numerator of the exact median: for an even count, the sum of the two
/// middle values of the sorted copy (the denominator is then 2); for an odd
/// count, the single middle value; 0 for an empty sequence.
pub open spec fn median_num_spec(vals: Seq<u64>) -> int {
    let sorted = sorted_values(vals);
    if vals.len() == 0 {
        0
    } else if vals.len() % 2 == 0 {
        sorted[vals.len() / 2 - 1] + sorted[vals.len() as int / 2] as int
    } else {
        sorted[vals.len() as int / 2] as int
    }
}

pub open spec fn median_den_spec(vals: Seq<u64>) -> int {
    if vals.len() > 0 && vals.len() % 2 == 0 {
        2
    } else {
        1
    }
}

pub proof fn lemma_le_total_ordering()
    ensures
        vstd::relations::total_ordering(le_order()),
{
    let r = le_order();
    assert forall|x: u64| #[trigger] r(x, x) by {}
    assert forall|x: u64, y: u64| #[trigger] r(x, y) && #[trigger] r(y, x) implies x == y by {}
    assert forall|x: u64, y: u64, z: u64| #[trigger] r(x, y) && #[trigger] r(y, z) implies r(
        x,
        z,
    ) by {}
    assert forall|x: u64, y: u64| #[trigger] r(x, y) || #[trigger] r(y, x) by {}
}

/// An exact quotient of integers, used where a reduction is a real number:
/// the mean is `sum / count` and an even-length median is a half-integer.
#[derive(Clone, Copy, PartialEq, Eq, Structural, Debug)]
pub struct Ratio {
    pub num: u128,
    pub den: u64,
}

impl Ratio {
    pub open spec fn wf(self) -> bool {
        self.den > 0
    }

    /// Whether the quotient equals the whole number `v` exactly.
    pub fn equals_int(&self, v: u64) -> (r: bool)
        ensures
            r == (self.num == v * self.den),
    {
        proof {
            assert((v as u128) * (self.den as u128) <= (u64::MAX as u128) * (u64::MAX as u128))
                by (nonlinear_arith)
                requires
                    v <= u64::MAX,
                    self.den <= u64::MAX,
            ;
        }
        self.num == (v as u128) * (self.den as u128)
    }
}

/// Bounds the sum by the count times the largest possible value, so that a
/// 128-bit accumulator can never overflow.
pub proof fn lemma_sum_bound(vals: Seq<u64>)
    ensures
        0 <= sum_spec(vals) <= vals.len() * (u64::MAX as int),
    decreases vals.len(),
{
    if vals.len() > 0 {
        lemma_sum_bound(vals.drop_last());
    }
}

/// Produces the values of `v` in ascending order by insertion into a sorted
/// output, leaving `v` itself untouched.
fn sorted_copy(v: &Vec<u64>) -> (out: Vec<u64>)
    ensures
        out@ == v@.sort_by(le_order()),
        out@.len() == v@.len(),
{
    broadcast use vstd::seq_lib::group_to_multiset_ensures;

    let n = v.len();
    let mut out: Vec<u64> = Vec::new();
    let mut i: usize = 0;
    while i < n
        invariant
            i <= n,
            n == v@.len(),
            vstd::relations::sorted_by(out@, le_order()),
            out@.to_multiset() == v@.take(i as int).to_multiset(),
        decreases n - i,
    {
        let x = v[i];
        let m = out.len();
        let mut k: usize = 0;
        while k < m && out[k] <= x
            invariant
                k <= m,
                m == out@.len(),
                forall|j: int| 0 <= j < k ==> out@[j] <= x,
            decreases m - k,
        {
            k += 1;
        }
        proof {
            assert(k == m || !(out@[k as int] <= x));
        }
        let ghost before = out@;
        out.insert(k, x);
        proof {
            broadcast use vstd::seq_lib::group_to_multiset_ensures;

            before.insert_ensures(k as int, x);
            assert forall|a: int, b: int| 0 <= a < b < out@.len() implies #[trigger] le_order()(
                out@[a],
                out@[b],
            ) by {
                if b < k {
                    assert(le_order()(before[a], before[b]));
                    assert(out@[a] == before[a] && out@[b] == before[b]);
                } else if a < k && b == k {
                    assert(out@[a] == before[a] && out@[b] == x);
                    assert(before[a] <= x);
                } else if a < k && b > k {
                    assert(out@[a] == before[a] && out@[b] == before[b - 1]);
                    if a == b - 1 {
                    } else {
                        assert(le_order()(before[a], before[b - 1]));
                    }
                } else if a == k {
                    // out[a] == x, and everything at or past k in `before`
                    // exceeds x because the scan stopped at k.
                    assert(out@[a] == x && out@[b] == before[b - 1]);
                    assert(k < m);
                    assert(!(before[k as int] <= x));
                    if b - 1 == k {
                    } else {
                        assert(le_order()(before[k as int], before[b - 1]));
                    }
                } else {
                    assert(out@[a] == before[a - 1] && out@[b] == before[b - 1]);
                    assert(le_order()(before[a - 1], before[b - 1]));
                }
            }
            assert(v@.take(i as int + 1) =~= v@.take(i as int).push(v@[i as int]));
            assert(out@ == before.insert(k as int, x));
            assert(before.insert(k as int, x).to_multiset() == before.to_multiset().insert(x));
            assert(v@.take(i as int).push(v@[i as int]).to_multiset() == v@.take(
                i as int,
            ).to_multiset().insert(v@[i as int]));
            assert(out@.to_multiset() == v@.take(i as int + 1).to_multiset());
        }
        i += 1;
    }
    proof {
        assert(v@.take(n as int) =~= v@);
        lemma_le_total_ordering();
        v@.lemma_sort_by_ensures(le_order());
        vstd::seq_lib::lemma_sorted_unique(out@, v@.sort_by(le_order()), le_order());
        assert(out@ =~= v@.sort_by(le_order()));
        assert(out@.len() == out@.to_multiset().len());
        assert(v@.len() == v@.to_multiset().len());
    }
    out
}

/// Append-only, time-ordered collection of samples.
#[derive(Debug)]
pub struct MemoryStats {
    samples: Vec<Sample>,
}

impl View for MemoryStats {
    type V = Seq<Sample>;

    closed spec fn view(&self) -> Seq<Sample> {
        self.samples@
    }
}

impl MemoryStats {
    /// An empty series, as created at the start of a run.
    pub fn new() -> (s: Self)
        ensures
            s@ == Seq::<Sample>::empty(),
    {
        let s = MemoryStats { samples: Vec::new() };
        proof {
            assert(s@ =~= Seq::<Sample>::empty());
        }
        s
    }

    /// Appends one observation; never fails and never reorders what is there.
    pub fn add_sample(&mut self, time_ms: u64, memory_kb: u64)
        ensures
            final(self)@ == old(self)@.push(Sample { time_ms, memory_kb }),
    {
        self.samples.push(Sample { time_ms, memory_kb });
    }

    pub fn len(&self) -> (n: usize)
        ensures
            n == self@.len(),
    {
        self.samples.len()
    }

    pub fn is_empty(&self) -> (b: bool)
        ensures
            b == (self@.len() == 0),
    {
        self.samples.len() == 0
    }

    /// The sample at a position, for walking the series in time order.
    pub fn sample_at(&self, i: usize) -> (p: Sample)
        requires
            i < self@.len(),
        ensures
            p == self@[i as int],
    {
        self.samples[i]
    }

    /// Largest memory value, or 0 if the series is empty.
    pub fn max(&self) -> (m: u64)
        ensures
            m == max_spec(memory_values(self@)),
    {
        let ghost vals = memory_values(self@);
        let n = self.samples.len();
        let mut m: u64 = 0;
        let mut i: usize = 0;
        while i < n
            invariant
                i <= n,
                n == self@.len(),
                vals == memory_values(self@),
                m == max_spec(vals.take(i as int)),
            decreases n - i,
        {
            let v = self.samples[i].memory_kb;
            proof {
                assert(vals.take(i as int + 1).drop_last() =~= vals.take(i as int));
                assert(vals.take(i as int + 1).last() == vals[i as int]);
                assert(vals[i as int] == self@[i as int].memory_kb);
            }
            if v > m {
                m = v;
            }
            i += 1;
        }
        proof {
            assert(vals.take(n as int) =~= vals);
        }
        m
    }

    /// Smallest memory value, or 0 if the series is empty.
    pub fn min(&self) -> (m: u64)
        ensures
            m == min_spec(memory_values(self@)),
    {
        let ghost vals = memory_values(self@);
        let n = self.samples.len();
        if n == 0 {
            return 0;
        }
        let mut m: u64 = self.samples[0].memory_kb;
        proof {
            assert(vals.take(1).last() == vals[0]);
            assert(vals[0] == self@[0].memory_kb);
        }
        let mut i: usize = 1;
        while i < n
            invariant
                1 <= i <= n,
                n == self@.len(),
                vals == memory_values(self@),
                m == min_spec(vals.take(i as int)),
            decreases n - i,
        {
            let v = self.samples[i].memory_kb;
            proof {
                assert(vals.take(i as int + 1).drop_last() =~= vals.take(i as int));
                assert(vals.take(i as int + 1).last() == vals[i as int]);
                assert(vals[i as int] == self@[i as int].memory_kb);
            }
            if v < m {
                m = v;
            }
            i += 1;
        }
        proof {
            assert(vals.take(n as int) =~= vals);
        }
        m
    }

    /// The mean memory value as the exact quotient sum-over-count,
    /// or 0 over 1 if the series is empty.
    pub fn mean(&self) -> (r: Ratio)
        ensures
            r.num == sum_spec(memory_values(self@)),
            self@.len() == 0 ==> r.den == 1,
            self@.len() > 0 ==> r.den == self@.len(),
            r.wf(),
    {
        let ghost vals = memory_values(self@);
        let n = self.samples.len();
        let mut total: u128 = 0;
        let mut i: usize = 0;
        while i < n
            invariant
                i <= n,
                n == self@.len(),
                vals == memory_values(self@),
                total == sum_spec(vals.take(i as int)),
            decreases n - i,
        {
            let v = self.samples[i].memory_kb;
            proof {
                assert(vals.take(i as int + 1).drop_last() =~= vals.take(i as int));
                assert(vals.take(i as int + 1).last() == vals[i as int]);
                assert(vals[i as int] == self@[i as int].memory_kb);
                lemma_sum_bound(vals.take(i as int));
            }
            total = total + (v as u128);
            i += 1;
        }
        proof {
            assert(vals.take(n as int) =~= vals);
        }
        if n == 0 {
            Ratio { num: total, den: 1 }
        } else {
            Ratio { num: total, den: n as u64 }
        }
    }

    /// The median of a sorted copy of the memory values: the single middle
    /// value for an odd count, the exact average of the two middle values for
    /// an even count, and 0 over 1 if the series is empty. The time-ordered
    /// series itself is left untouched.
    pub fn median(&self) -> (r: Ratio)
        ensures
            r.num == median_num_spec(memory_values(self@)),
            r.den == median_den_spec(memory_values(self@)),
            r.wf(),
    {
        let ghost vals = memory_values(self@);
        let n = self.samples.len();
        if n == 0 {
            return Ratio { num: 0, den: 1 };
        }
        let mut values: Vec<u64> = Vec::new();
        let mut i: usize = 0;
        while i < n
            invariant
                i <= n,
                n == self@.len(),
                vals == memory_values(self@),
                values@ == vals.take(i as int),
            decreases n - i,
        {
            values.push(self.samples[i].memory_kb);
            proof {
                assert(vals[i as int] == self@[i as int].memory_kb);
                assert(vals.take(i as int + 1) =~= vals.take(i as int).push(vals[i as int]));
            }
            i += 1;
        }
        proof {
            assert(vals.take(n as int) =~= vals);
        }
        let sorted = sorted_copy(&values);
        let mid = n / 2;
        if n % 2 == 0 {
            let a = sorted[mid - 1];
            let b = sorted[mid];
            Ratio { num: (a as u128) + (b as u128), den: 2 }
        } else {
            Ratio { num: sorted[mid] as u128, den: 1 }
        }
    }

    /// Elapsed time of the final sample, or 0 if the series is empty.
    pub fn last_elapsed_ms(&self) -> (t: u64)
        ensures
            t == last_time_spec(self@),
    {
        let n = self.samples.len();
        if n == 0 {
            0
        } else {
            self.samples[n - 1].time_ms
        }
    }

    /// The read-only view over a finished series, computed fresh from it.
    pub fn summary(&self) -> (r: RunResult)
        ensures
            r.count == self@.len(),
            r.mean == self.mean_spec(),
            r.median == self.median_spec(),
            r.max_kb == max_spec(memory_values(self@)),
            r.min_kb == min_spec(memory_values(self@)),
    {
        RunResult {
            count: self.len(),
            mean: self.mean(),
            median: self.median(),
            max_kb: self.max(),
            min_kb: self.min(),
        }
    }

    /// What `mean` returns, as a value.
    pub open spec fn mean_spec(&self) -> Ratio {
        Ratio {
            num: sum_spec(memory_values(self@)) as u128,
            den: if self@.len() == 0 {
                1u64
            } else {
                self@.len() as u64
            },
        }
    }

    /// What `median` returns, as a value.
    pub open spec fn median_spec(&self) -> Ratio {
        Ratio {
            num: median_num_spec(memory_values(self@)) as u128,
            den: median_den_spec(memory_values(self@)) as u64,
        }
    }
}

/// The statistics of a finished run, derived once from the full series.
#[derive(Clone, Copy, PartialEq, Eq, Structural, Debug)]
pub struct RunResult {
    pub count: usize,
    pub mean: Ratio,
    pub median: Ratio,
    pub max_kb: u64,
    pub min_kb: u64,
}

/// Every reduction of an empty series is 0: the sum behind the mean, the
/// median numerator, and the largest and smallest values.
pub proof fn lemma_empty_series_reductions()
    ensures
        sum_spec(Seq::<u64>::empty()) == 0,
        median_num_spec(Seq::<u64>::empty()) == 0,
        max_spec(Seq::<u64>::empty()) == 0,
        min_spec(Seq::<u64>::empty()) == 0,
{
}

/// A series is chronologically ordered when no sample's elapsed time exceeds
/// a later one's.
pub open spec fn time_ordered(s: Seq<Sample>) -> bool {
    forall|i: int, j: int| 0 <= i < j < s.len() ==> s[i].time_ms <= s[j].time_ms
}

/// Appending a sample whose elapsed time exceeds every earlier one keeps the
/// series chronologically ordered, so the primary sequence never needs a
/// re-sort.
pub proof fn lemma_append_keeps_time_order(s: Seq<Sample>, p: Sample)
    requires
        time_ordered(s),
        forall|i: int| 0 <= i < s.len() ==> s[i].time_ms < p.time_ms,
    ensures
        time_ordered(s.push(p)),
{
    assert forall|i: int, j: int| 0 <= i < j < s.push(p).len() implies s.push(p)[i].time_ms
        <= s.push(p)[j].time_ms by {
        if j == s.len() {
            assert(s.push(p)[i] == s[i]);
        } else {
            assert(s.push(p)[i] == s[i] && s.push(p)[j] == s[j]);
        }
    }
}

} // verus!
