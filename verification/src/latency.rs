//! Latency results: round-trip measurements with the statistics derived
//! from them — counts, minimum, average, maximum, arbitrary percentiles
//! over the ascending order, and jitter as the population standard
//! deviation. RTTs are microseconds.

use vstd::multiset::Multiset;
use vstd::prelude::*;
use vstd::relations::{sorted_by, total_ordering};
use vstd::seq_lib::lemma_sorted_unique;

verus! {

/// One latency probe: the RTT it measured, or `None` for a dropped probe,
/// and when it happened relative to the phase start.
#[derive(Debug, Clone, PartialEq, Eq)]
pub struct LatencyMeasurement {
    /// Round-trip time in microseconds; `None` marks a dropped probe.
    pub rtt_micros: Option<u64>,
    /// Time since the phase began, microseconds.
    pub elapsed_micros: u64,
}

/// The RTTs of the successful measurements, in measurement order.
pub open spec fn spec_rtts(s: Seq<LatencyMeasurement>) -> Seq<u64>
    decreases s.len(),
{
    if s.len() == 0 {
        Seq::empty()
    } else {
        let rest = spec_rtts(s.drop_last());
        match s.last().rtt_micros {
            Some(r) => rest.push(r),
            None => rest,
        }
    }
}

/// The ordering the statistics sort by.
pub open spec fn rtt_leq() -> spec_fn(u64, u64) -> bool {
    |a: u64, b: u64| a <= b
}

/// The successful RTTs in ascending order.
pub open spec fn spec_sorted_rtts(s: Seq<LatencyMeasurement>) -> Seq<u64> {
    spec_rtts(s).sort_by(rtt_leq())
}

/// Sum of a sequence of RTTs.
pub open spec fn spec_rtt_sum(s: Seq<u64>) -> int
    decreases s.len(),
{
    if s.len() == 0 {
        0
    } else {
        spec_rtt_sum(s.drop_last()) + s.last()
    }
}

/// The smallest value of a non-empty sequence.
pub open spec fn spec_seq_min(s: Seq<u64>) -> u64
    recommends
        s.len() > 0,
    decreases s.len(),
{
    if s.len() <= 1 {
        s[0]
    } else if s.last() < spec_seq_min(s.drop_last()) {
        s.last()
    } else {
        spec_seq_min(s.drop_last())
    }
}

/// The largest value of a non-empty sequence.
pub open spec fn spec_seq_max(s: Seq<u64>) -> u64
    recommends
        s.len() > 0,
    decreases s.len(),
{
    if s.len() <= 1 {
        s[0]
    } else if s.last() > spec_seq_max(s.drop_last()) {
        s.last()
    } else {
        spec_seq_max(s.drop_last())
    }
}

/// Sum of squared deviations of the RTTs from `mean`.
pub open spec fn spec_sq_dev_sum(s: Seq<u64>, mean: u64) -> int
    decreases s.len(),
{
    if s.len() == 0 {
        0
    } else {
        spec_sq_dev_sum(s.drop_last(), mean) + (s.last() - mean) * (s.last() - mean)
    }
}

/// Population variance of the successful RTTs around the truncated integer
/// mean, with the squared-deviation sum saturated to `u128::MAX` first.
pub open spec fn spec_variance(s: Seq<LatencyMeasurement>) -> int {
    let rtts = spec_rtts(s);
    let n = rtts.len();
    if n == 0 {
        0
    } else {
        let mean = spec_rtt_sum(rtts) / n as int;
        let ss = spec_sq_dev_sum(rtts, mean as u64);
        (if ss > u128::MAX {
            u128::MAX as int
        } else {
            ss
        }) / n as int
    }
}

/// The index that the `p`-th percentile selects in an ascending sequence
/// of `n` values: `p·n/100` rounded half to even, clamped to the last
/// index.
pub open spec fn spec_percentile_index(p: u64, n: nat) -> int
    recommends
        n > 0,
{
    let q = (p as int) * (n as int);
    let b = q / 100;
    let r = q % 100;
    let rounded = if r > 50 {
        b + 1
    } else if r < 50 {
        b
    } else if b % 2 == 0 {
        b
    } else {
        b + 1
    };
    if rounded >= n {
        n - 1
    } else {
        rounded
    }
}

/// The RTT sum is nonnegative and at most one `u64` per value.
pub proof fn lemma_rtt_sum_bound(s: Seq<u64>)
    ensures
        0 <= spec_rtt_sum(s) <= s.len() * u64::MAX,
    decreases s.len(),
{
    if s.len() == 0 {
    } else {
        lemma_rtt_sum_bound(s.drop_last());
        assert((s.len() - 1) * u64::MAX + u64::MAX == s.len() * u64::MAX) by (nonlinear_arith);
    }
}

/// Every value of a non-empty sequence lies between its minimum and its
/// maximum, and both are values of the sequence.
pub proof fn lemma_min_max(s: Seq<u64>)
    requires
        s.len() > 0,
    ensures
        forall|i: int| 0 <= i < s.len() ==> spec_seq_min(s) <= #[trigger] s[i] <= spec_seq_max(s),
        s.contains(spec_seq_min(s)),
        s.contains(spec_seq_max(s)),
    decreases s.len(),
{
    if s.len() > 1 {
        lemma_min_max(s.drop_last());
        assert forall|i: int| 0 <= i < s.len() implies spec_seq_min(s) <= #[trigger] s[i]
            <= spec_seq_max(s) by {
            if i < s.len() - 1 {
                assert(s.drop_last()[i] == s[i]);
            }
        }
        if s.last() < spec_seq_min(s.drop_last()) {
            assert(s[s.len() - 1] == spec_seq_min(s));
        } else {
            let j = choose|j: int|
                0 <= j < s.drop_last().len() && s.drop_last()[j] == spec_seq_min(s.drop_last());
            assert(s[j] == spec_seq_min(s));
        }
        if s.last() > spec_seq_max(s.drop_last()) {
            assert(s[s.len() - 1] == spec_seq_max(s));
        } else {
            let j = choose|j: int|
                0 <= j < s.drop_last().len() && s.drop_last()[j] == spec_seq_max(s.drop_last());
            assert(s[j] == spec_seq_max(s));
        }
    } else {
        assert(s[0] == spec_seq_min(s));
        assert(s[0] == spec_seq_max(s));
    }
}

/// The ascending order of the RTTs holds the same values as the RTTs, and
/// each of them lies between their minimum and maximum.
pub proof fn lemma_sorted_rtts_bounds(s: Seq<LatencyMeasurement>)
    requires
        spec_rtts(s).len() > 0,
    ensures
        spec_sorted_rtts(s).len() == spec_rtts(s).len(),
        forall|i: int|
            0 <= i < spec_sorted_rtts(s).len() ==> spec_seq_min(spec_rtts(s))
                <= #[trigger] spec_sorted_rtts(s)[i] <= spec_seq_max(spec_rtts(s)),
{
    broadcast use vstd::seq_lib::group_to_multiset_ensures;

    let rtts = spec_rtts(s);
    let sorted = spec_sorted_rtts(s);
    rtts.lemma_sort_by_ensures(rtt_leq());
    assert(rtts.to_multiset().len() == sorted.to_multiset().len());
    lemma_min_max(rtts);
    assert forall|i: int| 0 <= i < sorted.len() implies spec_seq_min(rtts) <= #[trigger] sorted[i]
        <= spec_seq_max(rtts) by {
        assert(sorted.contains(sorted[i]));
        assert(sorted.to_multiset().count(sorted[i]) > 0);
        assert(rtts.to_multiset().count(sorted[i]) > 0);
        assert(rtts.contains(sorted[i]));
        let j = choose|j: int| 0 <= j < rtts.len() && rtts[j] == sorted[i];
        assert(rtts[j] == sorted[i]);
    }
}

/// Largest `r` with `r * r <= x`.
pub fn isqrt_u128(x: u128) -> (r: u64)
    ensures
        (r as int) * (r as int) <= x,
        ((r as int) + 1) * ((r as int) + 1) > x,
{
    let mut lo: u64 = 0;
    let mut hi: u64 = u64::MAX;
    proof {
        assert(((u64::MAX as int) + 1) * ((u64::MAX as int) + 1) > u128::MAX) by (nonlinear_arith);
    }
    while lo < hi
        invariant
            lo <= hi,
            (lo as int) * (lo as int) <= x,
            ((hi as int) + 1) * ((hi as int) + 1) > x,
        decreases hi - lo,
    {
        let mid = hi - (hi - lo) / 2;
        proof {
            assert(lo < mid <= hi);
            assert((mid as int) * (mid as int) <= (u64::MAX as int) * (u64::MAX as int))
                by (nonlinear_arith)
                requires
                    0 <= (mid as int),
                    (mid as int) <= u64::MAX,
            ;
        }
        let sq: u128 = (mid as u128) * (mid as u128);
        if sq <= x {
            lo = mid;
        } else {
            hi = mid - 1;
        }
    }
    lo
}

/// The successful RTTs of `v`, in ascending order.
pub fn sort_rtts(v: &Vec<u64>) -> (out: Vec<u64>)
    ensures
        out@ == v@.sort_by(rtt_leq()),
{
    broadcast use vstd::seq_lib::group_to_multiset_ensures;

    let ghost leq = rtt_leq();
    let mut work: Vec<u64> = Vec::new();
    let mut i: usize = 0;
    proof {
        assert(v@.take(0) =~= Seq::<u64>::empty());
    }
    while i < v.len()
        invariant
            i <= v@.len(),
            work@ == v@.take(i as int),
        decreases v@.len() - i,
    {
        work.push(v[i]);
        proof {
            assert(work@ =~= v@.take(i as int + 1));
        }
        i = i + 1;
    }
    proof {
        assert(v@.take(v@.len() as int) =~= v@);
    }
    let mut out: Vec<u64> = Vec::new();
    while work.len() > 0
        invariant
            out@.to_multiset().add(work@.to_multiset()) =~= v@.to_multiset(),
            sorted_by(out@, rtt_leq()),
            forall|a: int, b: int|
                0 <= a < out@.len() && 0 <= b < work@.len() ==> #[trigger] out@[a]
                    <= #[trigger] work@[b],
        decreases work@.len(),
    {
        let mut j: usize = 0;
        let mut k: usize = 1;
        while k < work.len()
            invariant
                0 <= j < work@.len(),
                k <= work@.len(),
                forall|t: int| 0 <= t < k ==> work@[j as int] <= #[trigger] work@[t],
            decreases work@.len() - k,
        {
            if work[k] < work[j] {
                j = k;
            }
            k = k + 1;
        }
        let ghost work_before = work@;
        let ghost out_before = out@;
        let m = work.remove(j);
        out.push(m);
        proof {
            broadcast use vstd::multiset::group_multiset_axioms;

            work_before.to_multiset_ensures();
            out_before.to_multiset_ensures();
            assert(work@ == work_before.remove(j as int));
            assert(work_before.remove(j as int).to_multiset() =~= work_before.to_multiset().remove(
                work_before[j as int],
            ));
            assert(out@ == out_before.push(m));
            assert(out_before.push(m).to_multiset() =~= out_before.to_multiset().insert(m));
            assert(work_before.contains(m));
            assert(work_before.to_multiset().count(m) > 0);
            assert(out@.to_multiset().add(work@.to_multiset()) =~= v@.to_multiset());
            assert(sorted_by(out@, rtt_leq())) by {
                assert(forall|a: int|
                    0 <= a < out_before.len() ==> out_before[a] <= #[trigger] work_before[j as int]);
                assert(out@.last() == m);
                assert(forall|a: int| 0 <= a < out@.len() - 1 ==> out@[a] == out_before[a]);
            }
            assert forall|a: int, b: int|
                0 <= a < out@.len() && 0 <= b < work@.len() implies #[trigger] out@[a]
                <= #[trigger] work@[b] by {
                assert(work@[b] == work_before[if b < j {
                    b
                } else {
                    b + 1
                }]);
                assert(work_before[j as int] <= work@[b]);
            }
        }
    }
    proof {
        assert(work@.to_multiset() =~= Multiset::<u64>::empty());
        assert(out@.to_multiset() =~= v@.to_multiset());
        v@.lemma_sort_by_ensures(rtt_leq());
        assert(total_ordering(rtt_leq()));
        lemma_sorted_unique(out@, v@.sort_by(rtt_leq()), rtt_leq());
        assert(out@ =~= v@.sort_by(rtt_leq()));
    }
    out
}

/// The latency result of one phase: its probes and when it was produced
/// (microseconds since the Unix epoch).
#[derive(Debug, Clone, PartialEq, Eq)]
pub struct LatencyResult {
    pub measurements: Vec<LatencyMeasurement>,
    pub timestamp_micros: u64,
}

impl LatencyResult {
    /// A result over the given probes, stamped with the clock now.
    pub fn new(measurements: Vec<LatencyMeasurement>) -> (r: LatencyResult)
        ensures
            r.measurements@ == measurements@,
    {
        LatencyResult {
            measurements,
            timestamp_micros: crate::protocol::current_timestamp_micros(),
        }
    }

    /// The RTTs of the successful probes, in probe order.
    pub fn rtts(&self) -> (r: Vec<u64>)
        ensures
            r@ == spec_rtts(self.measurements@),
    {
        let ghost s = self.measurements@;
        let mut out: Vec<u64> = Vec::new();
        let mut i: usize = 0;
        proof {
            assert(s.take(0) =~= Seq::<LatencyMeasurement>::empty());
        }
        while i < self.measurements.len()
            invariant
                i <= s.len(),
                self.measurements@ == s,
                out@ == spec_rtts(s.take(i as int)),
            decreases s.len() - i,
        {
            proof {
                assert(s.take(i as int + 1).drop_last() =~= s.take(i as int));
                assert(s.take(i as int + 1).last() == s[i as int]);
            }
            match self.measurements[i].rtt_micros {
                Some(r) => {
                    out.push(r);
                },
                None => {},
            }
            i = i + 1;
        }
        proof {
            assert(s.take(s.len() as int) =~= s);
        }
        out
    }

    /// Total number of probes.
    pub fn count(&self) -> (r: usize)
        ensures
            r == self.measurements@.len(),
    {
        self.measurements.len()
    }

    /// Number of probes that measured an RTT.
    pub fn successful_count(&self) -> (r: usize)
        ensures
            r == spec_rtts(self.measurements@).len(),
    {
        proof {
            lemma_rtts_len(self.measurements@);
        }
        self.rtts().len()
    }

    /// Number of dropped probes.
    pub fn dropped_count(&self) -> (r: usize)
        ensures
            r == self.measurements@.len() - spec_rtts(self.measurements@).len(),
    {
        proof {
            lemma_rtts_len(self.measurements@);
        }
        self.measurements.len() - self.successful_count()
    }

    /// Average RTT in microseconds (the truncated mean); `None` when no
    /// probe succeeded.
    pub fn avg_rtt(&self) -> (r: Option<u64>)
        ensures
            spec_rtts(self.measurements@).len() == 0 ==> r is None,
            spec_rtts(self.measurements@).len() > 0 ==> r == Some(
                (spec_rtt_sum(spec_rtts(self.measurements@)) / spec_rtts(
                    self.measurements@,
                ).len() as int) as u64,
            ),
    {
        let rtts = self.rtts();
        let n = rtts.len();
        if n == 0 {
            return None;
        }
        let sum = rtt_sum_wide(&rtts);
        proof {
            lemma_rtt_sum_bound(rtts@);
            vstd::arithmetic::div_mod::lemma_multiply_divide_le(
                spec_rtt_sum(rtts@),
                n as int,
                u64::MAX as int,
            );
        }
        Some((sum / n as u128) as u64)
    }

    /// Smallest measured RTT; `None` when no probe succeeded.
    pub fn min_rtt(&self) -> (r: Option<u64>)
        ensures
            spec_rtts(self.measurements@).len() == 0 ==> r is None,
            spec_rtts(self.measurements@).len() > 0 ==> r == Some(
                spec_seq_min(spec_rtts(self.measurements@)),
            ),
    {
        let rtts = self.rtts();
        let ghost s = rtts@;
        if rtts.len() == 0 {
            return None;
        }
        let mut best = rtts[0];
        let mut i: usize = 1;
        while i < rtts.len()
            invariant
                1 <= i <= s.len(),
                rtts@ == s,
                s.len() > 0,
                best == spec_seq_min(s.take(i as int)),
            decreases s.len() - i,
        {
            proof {
                assert(s.take(i as int + 1).drop_last() =~= s.take(i as int));
                assert(s.take(i as int + 1).last() == s[i as int]);
            }
            if rtts[i] < best {
                best = rtts[i];
            }
            i = i + 1;
        }
        proof {
            assert(s.take(s.len() as int) =~= s);
        }
        Some(best)
    }

    /// Largest measured RTT; `None` when no probe succeeded.
    pub fn max_rtt(&self) -> (r: Option<u64>)
        ensures
            spec_rtts(self.measurements@).len() == 0 ==> r is None,
            spec_rtts(self.measurements@).len() > 0 ==> r == Some(
                spec_seq_max(spec_rtts(self.measurements@)),
            ),
    {
        let rtts = self.rtts();
        let ghost s = rtts@;
        if rtts.len() == 0 {
            return None;
        }
        let mut best = rtts[0];
        let mut i: usize = 1;
        while i < rtts.len()
            invariant
                1 <= i <= s.len(),
                rtts@ == s,
                s.len() > 0,
                best == spec_seq_max(s.take(i as int)),
            decreases s.len() - i,
        {
            proof {
                assert(s.take(i as int + 1).drop_last() =~= s.take(i as int));
                assert(s.take(i as int + 1).last() == s[i as int]);
            }
            if rtts[i] > best {
                best = rtts[i];
            }
            i = i + 1;
        }
        proof {
            assert(s.take(s.len() as int) =~= s);
        }
        Some(best)
    }

    /// The `p`-th percentile RTT: `Some` exactly when `p` is at most 100
    /// and at least one probe succeeded; the value at the percentile's
    /// index in the ascending order of the RTTs.
    pub fn percentile_rtt(&self, p: u64) -> (r: Option<u64>)
        ensures
            r is Some <==> (p <= 100 && spec_rtts(self.measurements@).len() > 0),
            (p <= 100 && spec_rtts(self.measurements@).len() > 0) ==> r == Some(
                spec_sorted_rtts(self.measurements@)[spec_percentile_index(
                    p,
                    spec_rtts(self.measurements@).len(),
                )],
            ),
    {
        if p > 100 {
            return None;
        }
        let rtts = self.rtts();
        if rtts.len() == 0 {
            return None;
        }
        let sorted = sort_rtts(&rtts);
        proof {
            rtts@.lemma_sort_by_ensures(rtt_leq());
            broadcast use vstd::seq_lib::group_to_multiset_ensures;

            assert(rtts@.to_multiset() =~= sorted@.to_multiset());
            assert(rtts@.len() == rtts@.to_multiset().len());
            assert(sorted@.len() == sorted@.to_multiset().len());
            assert(sorted@.len() == rtts@.len());
        }
        let n = rtts.len();
        proof {
            assert((p as int) * (n as int) <= 100 * (u64::MAX as int)) by (nonlinear_arith)
                requires
                    0 <= (p as int),
                    (p as int) <= 100,
                    0 <= (n as int),
                    (n as int) <= u64::MAX,
            ;
        }
        let q: u128 = (p as u128) * (n as u128);
        let b: u128 = q / 100;
        let rem: u128 = q % 100;
        proof {
            assert((p as int) * (n as int) <= 100 * (n as int)) by (nonlinear_arith)
                requires
                    0 <= (p as int),
                    (p as int) <= 100,
                    0 <= (n as int),
            ;
            vstd::arithmetic::div_mod::lemma_div_is_ordered(
                (p as int) * (n as int),
                100 * (n as int),
                100,
            );
            assert(100 * (n as int) / 100 == n as int) by {
                vstd::arithmetic::div_mod::lemma_div_multiples_vanish(n as int, 100);
            }
        }
        let rounded: u128 = if rem > 50 {
            b + 1
        } else if rem < 50 {
            b
        } else if b % 2 == 0 {
            b
        } else {
            b + 1
        };
        let idx: usize = if rounded >= n as u128 {
            n - 1
        } else {
            rounded as usize
        };
        proof {
            assert(idx as int == spec_percentile_index(p, rtts@.len()));
        }
        Some(sorted[idx])
    }

    /// Jitter: the population standard deviation of the successful RTTs
    /// around their truncated mean, rounded down; `None` when no probe
    /// succeeded.
    pub fn jitter(&self) -> (r: Option<u64>)
        ensures
            spec_rtts(self.measurements@).len() == 0 ==> r is None,
            spec_rtts(self.measurements@).len() > 0 ==> (r matches Some(j) && (j as int) * (
            j as int) <= spec_variance(self.measurements@) && ((j as int) + 1) * ((j as int) + 1)
                > spec_variance(self.measurements@)),
    {
        let rtts = self.rtts();
        let n = rtts.len();
        if n == 0 {
            return None;
        }
        let sum = rtt_sum_wide(&rtts);
        proof {
            lemma_rtt_sum_bound(rtts@);
            vstd::arithmetic::div_mod::lemma_multiply_divide_le(
                spec_rtt_sum(rtts@),
                n as int,
                u64::MAX as int,
            );
        }
        let mean: u64 = (sum / n as u128) as u64;
        let ss = sq_dev_sum_sat(&rtts, mean);
        let variance: u128 = ss / n as u128;
        let j = isqrt_u128(variance);
        proof {
            let ghost_rtts = spec_rtts(self.measurements@);
            lemma_sq_dev_sum_nonneg(ghost_rtts, mean);
            assert(mean == (spec_rtt_sum(ghost_rtts) / (ghost_rtts.len() as int)) as u64);
            assert((ss as int) == (if spec_sq_dev_sum(
                ghost_rtts,
                (spec_rtt_sum(ghost_rtts) / (ghost_rtts.len() as int)) as u64,
            ) > u128::MAX {
                u128::MAX as int
            } else {
                spec_sq_dev_sum(
                    ghost_rtts,
                    (spec_rtt_sum(ghost_rtts) / (ghost_rtts.len() as int)) as u64,
                )
            }));
            assert(variance == spec_variance(self.measurements@));
        }
        Some(j)
    }
}

/// The count of successful RTTs never exceeds the number of probes.
pub proof fn lemma_rtts_len(s: Seq<LatencyMeasurement>)
    ensures
        spec_rtts(s).len() <= s.len(),
    decreases s.len(),
{
    if s.len() > 0 {
        lemma_rtts_len(s.drop_last());
    }
}

/// The exact sum of a vector of RTTs, as a 128-bit value.
fn rtt_sum_wide(v: &Vec<u64>) -> (r: u128)
    ensures
        r == spec_rtt_sum(v@),
{
    let ghost s = v@;
    let mut acc: u128 = 0;
    let mut i: usize = 0;
    proof {
        assert(s.take(0) =~= Seq::<u64>::empty());
    }
    while i < v.len()
        invariant
            i <= s.len(),
            v@ == s,
            acc == spec_rtt_sum(s.take(i as int)),
        decreases s.len() - i,
    {
        proof {
            assert(s.take(i as int + 1).drop_last() =~= s.take(i as int));
            assert(s.take(i as int + 1).last() == s[i as int]);
            lemma_rtt_sum_bound(s.take(i as int));
            assert((i as int) * u64::MAX + u64::MAX <= (u64::MAX as int) * u64::MAX + u64::MAX)
                by (nonlinear_arith)
                requires
                    0 <= (i as int),
                    (i as int) <= u64::MAX,
            ;
        }
        acc = acc + v[i] as u128;
        i = i + 1;
    }
    proof {
        assert(s.take(s.len() as int) =~= s);
    }
    acc
}

/// Sum of squared deviations from `mean`, saturated to `u128::MAX`.
fn sq_dev_sum_sat(v: &Vec<u64>, mean: u64) -> (r: u128)
    ensures
        r == if spec_sq_dev_sum(v@, mean) > u128::MAX {
            u128::MAX
        } else {
            spec_sq_dev_sum(v@, mean) as u128
        },
{
    let ghost s = v@;
    let mut acc: u128 = 0;
    let mut i: usize = 0;
    proof {
        assert(s.take(0) =~= Seq::<u64>::empty());
        lemma_sq_dev_sum_nonneg(s.take(0), mean);
    }
    while i < v.len()
        invariant
            i <= s.len(),
            v@ == s,
            acc == if spec_sq_dev_sum(s.take(i as int), mean) > u128::MAX {
                u128::MAX
            } else {
                spec_sq_dev_sum(s.take(i as int), mean) as u128
            },
        decreases s.len() - i,
    {
        proof {
            assert(s.take(i as int + 1).drop_last() =~= s.take(i as int));
            assert(s.take(i as int + 1).last() == s[i as int]);
            lemma_sq_dev_sum_nonneg(s.take(i as int), mean);
            lemma_sq_dev_sum_nonneg(s.take(i as int + 1), mean);
        }
        let x = v[i];
        let diff: u64 = if x >= mean {
            x - mean
        } else {
            mean - x
        };
        proof {
            assert((diff as int) * (diff as int) == ((x as int) - (mean as int)) * ((x as int) - (
            mean as int))) by (nonlinear_arith)
                requires
                    (diff as int) == (x as int) - (mean as int) || (diff as int) == (mean as int)
                        - (x as int),
            ;
            assert((diff as int) * (diff as int) <= (u64::MAX as int) * (u64::MAX as int))
                by (nonlinear_arith)
                requires
                    0 <= (diff as int),
                    (diff as int) <= u64::MAX,
            ;
        }
        let sq: u128 = (diff as u128) * (diff as u128);
        if acc <= u128::MAX - sq {
            acc = acc + sq;
        } else {
            acc = u128::MAX;
        }
        i = i + 1;
    }
    proof {
        assert(s.take(s.len() as int) =~= s);
    }
    acc
}

/// A sum of squares is nonnegative and grows with each value.
pub proof fn lemma_sq_dev_sum_nonneg(s: Seq<u64>, mean: u64)
    ensures
        spec_sq_dev_sum(s, mean) >= 0,
    decreases s.len(),
{
    if s.len() > 0 {
        lemma_sq_dev_sum_nonneg(s.drop_last(), mean);
        assert((s.last() - mean) * (s.last() - mean) >= 0) by (nonlinear_arith);
    }
}

/// Percentile bounds: the percentile is defined exactly when `p` is at
/// most 100 and at least one probe succeeded, and its value lies between
/// the minimum and the maximum RTT.
pub proof fn lemma_percentile_bounds(s: Seq<LatencyMeasurement>, p: u64)
    requires
        p <= 100,
        spec_rtts(s).len() > 0,
    ensures
        0 <= spec_percentile_index(p, spec_rtts(s).len()) < spec_rtts(s).len(),
        spec_seq_min(spec_rtts(s)) <= spec_sorted_rtts(s)[spec_percentile_index(
            p,
            spec_rtts(s).len(),
        )] <= spec_seq_max(spec_rtts(s)),
{
    let rtts = spec_rtts(s);
    let n = rtts.len();
    let q = (p as int) * (n as int);
    assert((p as int) * (n as int) >= 0) by (nonlinear_arith)
        requires
            0 <= (p as int),
            0 <= (n as int),
    ;
    vstd::arithmetic::div_mod::lemma_div_pos_is_pos(q, 100);
    vstd::arithmetic::div_mod::lemma_remainder_lower(q, 100);
    lemma_sorted_rtts_bounds(s);
}

} // verus!
