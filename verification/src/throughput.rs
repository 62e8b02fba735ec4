//! Aggregated throughput results: the measurement vector of one phase with
//! its total duration, and the statistics derived from it.

use crate::measurement::{
    spec_error_kind, spec_is_success, spec_measured_bytes, ErrorKind, ThroughputMeasurement,
};
use vstd::arithmetic::div_mod::lemma_hoist_over_denominator;
use vstd::prelude::*;

verus! {

/// Sum of the bytes of the successful measurements.
pub open spec fn spec_bytes_sum(s: Seq<ThroughputMeasurement>) -> int
    decreases s.len(),
{
    if s.len() == 0 {
        0
    } else {
        spec_bytes_sum(s.drop_last()) + spec_measured_bytes(s.last())
    }
}

/// Number of successful measurements.
pub open spec fn spec_success_count(s: Seq<ThroughputMeasurement>) -> int
    decreases s.len(),
{
    if s.len() == 0 {
        0
    } else {
        spec_success_count(s.drop_last()) + if spec_is_success(s.last()) {
            1int
        } else {
            0int
        }
    }
}

/// Sum of the retry counts of the failed measurements.
pub open spec fn spec_retry_sum(s: Seq<ThroughputMeasurement>) -> int
    decreases s.len(),
{
    if s.len() == 0 {
        0
    } else {
        spec_retry_sum(s.drop_last()) + (match s.last() {
            ThroughputMeasurement::Failure { retry_count, .. } => retry_count as int,
            _ => 0,
        })
    }
}

/// Number of failed measurements whose error has the given kind.
pub open spec fn spec_kind_count(s: Seq<ThroughputMeasurement>, k: ErrorKind) -> int
    decreases s.len(),
{
    if s.len() == 0 {
        0
    } else {
        spec_kind_count(s.drop_last(), k) + (match s.last() {
            ThroughputMeasurement::Failure { error, .. } => if spec_error_kind(error) == k {
                1int
            } else {
                0int
            },
            _ => 0,
        })
    }
}

/// Average throughput in bytes per second: the byte sum over the duration
/// in seconds; 0 when the duration is 0.
pub open spec fn spec_avg_throughput(bytes: int, duration_micros: u64) -> int {
    if duration_micros == 0 {
        0
    } else {
        bytes * 1_000_000 / (duration_micros as int)
    }
}

/// A value saturated to `u64::MAX`.
pub open spec fn spec_sat_u64(v: int) -> u64 {
    if v > u64::MAX {
        u64::MAX
    } else if v < 0 {
        0
    } else {
        v as u64
    }
}

/// The byte sum is nonnegative and at most one `u64` per measurement.
pub proof fn lemma_bytes_sum_bound(s: Seq<ThroughputMeasurement>)
    ensures
        0 <= spec_bytes_sum(s) <= s.len() * u64::MAX,
    decreases s.len(),
{
    if s.len() == 0 {
    } else {
        lemma_bytes_sum_bound(s.drop_last());
        assert((s.len() - 1) * u64::MAX + u64::MAX == s.len() * u64::MAX) by (nonlinear_arith);
    }
}

/// The retry sum is nonnegative and at most one `u32` per measurement.
pub proof fn lemma_retry_sum_bound(s: Seq<ThroughputMeasurement>)
    ensures
        0 <= spec_retry_sum(s) <= s.len() * u32::MAX,
    decreases s.len(),
{
    if s.len() == 0 {
    } else {
        lemma_retry_sum_bound(s.drop_last());
        assert((s.len() - 1) * u32::MAX + u32::MAX == s.len() * u32::MAX) by (nonlinear_arith);
    }
}

/// A positive retry sum comes from at least one failed measurement.
pub proof fn lemma_retry_sum_failures(s: Seq<ThroughputMeasurement>)
    ensures
        spec_retry_sum(s) > 0 ==> s.len() - spec_success_count(s) > 0,
        0 <= spec_success_count(s) <= s.len(),
    decreases s.len(),
{
    if s.len() > 0 {
        lemma_retry_sum_failures(s.drop_last());
    }
}

/// The count of each error kind is bounded by the number of measurements.
pub proof fn lemma_kind_count_bound(s: Seq<ThroughputMeasurement>, k: ErrorKind)
    ensures
        0 <= spec_kind_count(s, k) <= s.len(),
    decreases s.len(),
{
    if s.len() > 0 {
        lemma_kind_count_bound(s.drop_last(), k);
    }
}

/// The throughput result of one phase: its measurements, the phase's total
/// duration in microseconds, and when it was produced (microseconds since
/// the Unix epoch).
#[derive(Debug, Clone, PartialEq, Eq)]
pub struct ThroughputResult {
    pub measurements: Vec<ThroughputMeasurement>,
    pub total_duration_micros: u64,
    pub timestamp_micros: u64,
}

impl ThroughputResult {
    /// A result over the given measurements and duration, stamped with the
    /// clock now.
    pub fn new(measurements: Vec<ThroughputMeasurement>, total_duration_micros: u64) -> (r:
        ThroughputResult)
        ensures
            r.measurements@ == measurements@,
            r.total_duration_micros == total_duration_micros,
    {
        ThroughputResult {
            measurements,
            total_duration_micros,
            timestamp_micros: crate::protocol::current_timestamp_micros(),
        }
    }

    /// The exact byte sum of the successes, as a 128-bit value.
    fn bytes_sum_wide(&self) -> (r: u128)
        ensures
            r == spec_bytes_sum(self.measurements@),
    {
        let ghost s = self.measurements@;
        let mut acc: u128 = 0;
        let mut i: usize = 0;
        proof {
            assert(s.take(0) =~= Seq::<ThroughputMeasurement>::empty());
        }
        while i < self.measurements.len()
            invariant
                i <= s.len(),
                self.measurements@ == s,
                acc == spec_bytes_sum(s.take(i as int)),
            decreases s.len() - i,
        {
            proof {
                assert(s.take(i as int + 1).drop_last() =~= s.take(i as int));
                assert(s.take(i as int + 1).last() == s[i as int]);
                lemma_bytes_sum_bound(s.take(i as int));
                assert((i as int) * u64::MAX + u64::MAX <= (u64::MAX as int) * u64::MAX
                    + u64::MAX) by (nonlinear_arith)
                    requires
                        0 <= (i as int),
                        (i as int) <= u64::MAX,
                ;
            }
            let b = match &self.measurements[i] {
                ThroughputMeasurement::Success { bytes, .. } => *bytes,
                ThroughputMeasurement::Failure { .. } => 0,
            };
            acc = acc + b as u128;
            i = i + 1;
        }
        proof {
            assert(s.take(s.len() as int) =~= s);
        }
        acc
    }

    /// Total bytes transferred across the successful measurements,
    /// saturated to `u64::MAX`.
    pub fn bytes_transferred(&self) -> (r: u64)
        ensures
            r == spec_sat_u64(spec_bytes_sum(self.measurements@)),
    {
        let sum = self.bytes_sum_wide();
        proof {
            lemma_bytes_sum_bound(self.measurements@);
        }
        if sum > u64::MAX as u128 {
            u64::MAX
        } else {
            sum as u64
        }
    }

    /// Average throughput in bytes per second — the byte sum over the
    /// duration in seconds, 0 when the duration is 0 — saturated to
    /// `u64::MAX`.
    pub fn avg_throughput(&self) -> (r: u64)
        ensures
            r == spec_sat_u64(
                spec_avg_throughput(
                    spec_bytes_sum(self.measurements@),
                    self.total_duration_micros,
                ),
            ),
    {
        let dur = self.total_duration_micros;
        if dur == 0 {
            return 0;
        }
        let sum = self.bytes_sum_wide();
        proof {
            lemma_bytes_sum_bound(self.measurements@);
        }
        let q: u128 = sum / (dur as u128);
        let rem: u128 = sum % (dur as u128);
        let ghost sum_i = spec_bytes_sum(self.measurements@);
        proof {
            // sum * 1M / dur splits into the quotient part and the
            // remainder part of the division by dur.
            assert(sum_i == (q as int) * (dur as int) + rem as int) by {
                vstd::arithmetic::div_mod::lemma_fundamental_div_mod(sum_i, dur as int);
            }
            assert(rem < dur as u128);
            lemma_hoist_over_denominator(
                (rem as int) * 1_000_000,
                (q as int) * 1_000_000,
                dur as nat,
            );
            assert(((q as int) * 1_000_000) * (dur as int) == ((q as int) * (dur as int))
                * 1_000_000) by (nonlinear_arith);
            assert(sum_i * 1_000_000 == ((q as int) * (dur as int) + rem as int) * 1_000_000);
            assert(((q as int) * (dur as int) + rem as int) * 1_000_000 == ((q as int) * (
            dur as int)) * 1_000_000 + (rem as int) * 1_000_000) by (nonlinear_arith);
            assert(sum_i * 1_000_000 / (dur as int) == (q as int) * 1_000_000 + (rem as int)
                * 1_000_000 / (dur as int));
        }
        if q > (u64::MAX / 1_000_000) as u128 {
            // The quotient part alone exceeds the result type.
            proof {
                assert((q as int) * 1_000_000 > u64::MAX) by (nonlinear_arith)
                    requires
                        (q as int) > (u64::MAX as int) / 1_000_000,
                ;
                assert((rem as int) * 1_000_000 / (dur as int) >= 0) by {
                    vstd::arithmetic::div_mod::lemma_div_pos_is_pos(
                        (rem as int) * 1_000_000,
                        dur as int,
                    );
                }
            }
            return u64::MAX;
        }
        let scaled_q: u128 = q * 1_000_000;
        let scaled_rem: u128 = (rem * 1_000_000) / (dur as u128);
        proof {
            assert(scaled_rem < 1_000_000) by {
                assert((rem as int) * 1_000_000 < (dur as int) * 1_000_000) by (nonlinear_arith)
                    requires
                        0 <= (rem as int),
                        (rem as int) < (dur as int),
                ;
                assert((rem as int) * 1_000_000 / (dur as int) < 1_000_000) by {
                    vstd::arithmetic::div_mod::lemma_multiply_divide_lt(
                        (rem as int) * 1_000_000,
                        dur as int,
                        1_000_000,
                    );
                }
            }
        }
        let avg: u128 = scaled_q + scaled_rem;
        if avg > u64::MAX as u128 {
            u64::MAX
        } else {
            avg as u64
        }
    }

    /// Number of successful measurements.
    pub fn successful_count(&self) -> (r: usize)
        ensures
            r == spec_success_count(self.measurements@),
    {
        let ghost s = self.measurements@;
        let mut cnt: usize = 0;
        let mut i: usize = 0;
        proof {
            assert(s.take(0) =~= Seq::<ThroughputMeasurement>::empty());
            lemma_retry_sum_failures(s);
        }
        while i < self.measurements.len()
            invariant
                i <= s.len(),
                self.measurements@ == s,
                cnt == spec_success_count(s.take(i as int)),
                cnt <= i,
            decreases s.len() - i,
        {
            proof {
                assert(s.take(i as int + 1).drop_last() =~= s.take(i as int));
                assert(s.take(i as int + 1).last() == s[i as int]);
            }
            if matches!(&self.measurements[i], ThroughputMeasurement::Success { .. }) {
                cnt = cnt + 1;
            }
            i = i + 1;
        }
        proof {
            assert(s.take(s.len() as int) =~= s);
        }
        cnt
    }

    /// Share of measurements that succeeded, in permille of the total;
    /// 0 when there are no measurements.
    pub fn connection_success_rate(&self) -> (r: u64)
        ensures
            self.measurements@.len() == 0 ==> r == 0,
            self.measurements@.len() > 0 ==> r == spec_success_count(self.measurements@) * 1000
                / (self.measurements@.len() as int),
    {
        let n = self.measurements.len();
        if n == 0 {
            return 0;
        }
        let cnt = self.successful_count();
        proof {
            lemma_retry_sum_failures(self.measurements@);
            assert(spec_success_count(self.measurements@) * 1000 <= (self.measurements@.len()
                as int) * 1000) by (nonlinear_arith)
                requires
                    0 <= spec_success_count(self.measurements@) <= self.measurements@.len(),
            ;
        }
        let r = crate::congestion::mul_div_sat(cnt as u64, 1000, n as u64);
        proof {
            assert((self.measurements@.len() as int) * 1000 / (self.measurements@.len() as int)
                <= 1000) by (nonlinear_arith)
                requires
                    self.measurements@.len() > 0,
            ;
            vstd::arithmetic::div_mod::lemma_div_is_ordered(
                spec_success_count(self.measurements@) * 1000,
                (self.measurements@.len() as int) * 1000,
                self.measurements@.len() as int,
            );
        }
        r
    }

    /// Share of requests that succeeded; for this transport the same as
    /// the connection success rate.
    pub fn request_success_rate(&self) -> (r: u64)
        ensures
            self.measurements@.len() == 0 ==> r == 0,
            self.measurements@.len() > 0 ==> r == spec_success_count(self.measurements@) * 1000
                / (self.measurements@.len() as int),
    {
        self.connection_success_rate()
    }

    /// Retry statistics: total retries recorded on failures, successes
    /// after retry (never recorded on successes, so 0), and failures after
    /// retry. The total saturates to `u64::MAX`.
    pub fn retry_statistics(&self) -> (r: (u64, u64, u64))
        ensures
            r.0 == spec_sat_u64(spec_retry_sum(self.measurements@)),
            r.1 == 0,
            r.2 == self.measurements@.len() - spec_success_count(self.measurements@),
    {
        let ghost s = self.measurements@;
        let mut total: u128 = 0;
        let mut failed: usize = 0;
        let mut i: usize = 0;
        proof {
            assert(s.take(0) =~= Seq::<ThroughputMeasurement>::empty());
        }
        while i < self.measurements.len()
            invariant
                i <= s.len(),
                self.measurements@ == s,
                total == spec_retry_sum(s.take(i as int)),
                failed == i - spec_success_count(s.take(i as int)),
                failed <= i,
            decreases s.len() - i,
        {
            proof {
                assert(s.take(i as int + 1).drop_last() =~= s.take(i as int));
                assert(s.take(i as int + 1).last() == s[i as int]);
                lemma_retry_sum_bound(s.take(i as int));
                assert((i as int) * u32::MAX + u32::MAX <= (u64::MAX as int) * u32::MAX
                    + u32::MAX) by (nonlinear_arith)
                    requires
                        0 <= (i as int),
                        (i as int) <= u64::MAX,
                ;
            }
            match &self.measurements[i] {
                ThroughputMeasurement::Failure { retry_count, .. } => {
                    total = total + *retry_count as u128;
                    failed = failed + 1;
                },
                ThroughputMeasurement::Success { .. } => {},
            }
            i = i + 1;
        }
        proof {
            assert(s.take(s.len() as int) =~= s);
            lemma_retry_sum_bound(s);
        }
        let total_sat = if total > u64::MAX as u128 {
            u64::MAX
        } else {
            total as u64
        };
        (total_sat, 0, failed as u64)
    }

    /// Success rate after retries, permille: 1000 when no retries were
    /// recorded; otherwise the share of retried operations that ended in
    /// success, which is 0, as successes carry no retry record.
    pub fn retry_success_rate(&self) -> (r: u64)
        ensures
            spec_retry_sum(self.measurements@) == 0 ==> r == 1000,
            spec_retry_sum(self.measurements@) != 0 ==> r == 0,
    {
        let (total, successes, failed) = self.retry_statistics();
        proof {
            lemma_retry_sum_bound(self.measurements@);
        }
        if total == 0 {
            return 1000;
        }
        proof {
            lemma_retry_sum_failures(self.measurements@);
        }
        let denom = successes + failed;
        crate::congestion::mul_div_sat(successes, 1000, denom)
    }

    /// Number of failed measurements.
    pub fn total_errors(&self) -> (r: u64)
        ensures
            r == self.measurements@.len() - spec_success_count(self.measurements@),
    {
        let (_, _, failed) = self.retry_statistics();
        failed
    }

    /// How many failures each error kind has.
    pub fn error_count_of(&self, kind: ErrorKind) -> (r: u64)
        ensures
            r == spec_kind_count(self.measurements@, kind),
    {
        let ghost s = self.measurements@;
        let mut cnt: u64 = 0;
        let mut i: usize = 0;
        proof {
            assert(s.take(0) =~= Seq::<ThroughputMeasurement>::empty());
        }
        while i < self.measurements.len()
            invariant
                i <= s.len(),
                self.measurements@ == s,
                cnt == spec_kind_count(s.take(i as int), kind),
                cnt <= i,
            decreases s.len() - i,
        {
            proof {
                assert(s.take(i as int + 1).drop_last() =~= s.take(i as int));
                assert(s.take(i as int + 1).last() == s[i as int]);
                lemma_kind_count_bound(s.take(i as int), kind);
            }
            match &self.measurements[i] {
                ThroughputMeasurement::Failure { error, .. } => {
                    let k = error.kind();
                    if k == kind {
                        cnt = cnt + 1;
                    }
                },
                ThroughputMeasurement::Success { .. } => {},
            }
            i = i + 1;
        }
        proof {
            assert(s.take(s.len() as int) =~= s);
        }
        cnt
    }

    /// The error histogram: each kind that occurs, with its count, in the
    /// fixed kind order.
    pub fn error_distribution(&self) -> (r: Vec<(ErrorKind, u64)>)
        ensures
            r@ == spec_error_distribution(self.measurements@),
    {
        let mut out: Vec<(ErrorKind, u64)> = Vec::new();
        let c1 = self.error_count_of(ErrorKind::ConnectionFailed);
        if c1 > 0 {
            out.push((ErrorKind::ConnectionFailed, c1));
        }
        let c2 = self.error_count_of(ErrorKind::TransferFailed);
        if c2 > 0 {
            out.push((ErrorKind::TransferFailed, c2));
        }
        let c3 = self.error_count_of(ErrorKind::Timeout);
        if c3 > 0 {
            out.push((ErrorKind::Timeout, c3));
        }
        let c4 = self.error_count_of(ErrorKind::Unknown);
        if c4 > 0 {
            out.push((ErrorKind::Unknown, c4));
        }
        proof {
            assert(out@ =~= spec_error_distribution(self.measurements@));
        }
        out
    }
}

/// The error histogram as a sequence: each kind with a positive count, in
/// the fixed kind order.
pub open spec fn spec_error_distribution(s: Seq<ThroughputMeasurement>) -> Seq<(ErrorKind, u64)> {
    let base = Seq::<(ErrorKind, u64)>::empty();
    let s1 = if spec_kind_count(s, ErrorKind::ConnectionFailed) > 0 {
        base.push((ErrorKind::ConnectionFailed, spec_kind_count(s, ErrorKind::ConnectionFailed) as u64))
    } else {
        base
    };
    let s2 = if spec_kind_count(s, ErrorKind::TransferFailed) > 0 {
        s1.push((ErrorKind::TransferFailed, spec_kind_count(s, ErrorKind::TransferFailed) as u64))
    } else {
        s1
    };
    let s3 = if spec_kind_count(s, ErrorKind::Timeout) > 0 {
        s2.push((ErrorKind::Timeout, spec_kind_count(s, ErrorKind::Timeout) as u64))
    } else {
        s2
    };
    if spec_kind_count(s, ErrorKind::Unknown) > 0 {
        s3.push((ErrorKind::Unknown, spec_kind_count(s, ErrorKind::Unknown) as u64))
    } else {
        s3
    }
}

/// When the mathematical average throughput fits the result type, the
/// computed average is exactly the byte sum of the successes divided by
/// the duration in seconds.
pub proof fn lemma_throughput_arithmetic(s: Seq<ThroughputMeasurement>, duration_micros: u64)
    requires
        duration_micros > 0,
        spec_avg_throughput(spec_bytes_sum(s), duration_micros) <= u64::MAX,
    ensures
        spec_sat_u64(spec_avg_throughput(spec_bytes_sum(s), duration_micros)) == spec_bytes_sum(s)
            * 1_000_000 / (duration_micros as int),
{
    lemma_bytes_sum_bound(s);
    assert(spec_bytes_sum(s) * 1_000_000 >= 0) by (nonlinear_arith)
        requires
            spec_bytes_sum(s) >= 0,
    ;
    vstd::arithmetic::div_mod::lemma_div_pos_is_pos(
        spec_bytes_sum(s) * 1_000_000,
        duration_micros as int,
    );
}

} // verus!
