//! Coarse bandwidth monitoring and packet-loss accounting used by the
//! simple client: a sliding window of byte totals, and a sent/received
//! packet counter pair. Times are microseconds.

use crate::congestion::{elapsed_micros, mul_div_sat, spec_elapsed, spec_mul_div};
use vstd::prelude::*;

verus! {

/// One byte-total observation: a running byte count and when it was taken.
#[derive(Debug, Clone, Copy, PartialEq, Eq, Structural)]
pub struct BandwidthMeasurement {
    /// When the observation was made, microseconds since the Unix epoch.
    pub timestamp_micros: u64,
    /// The running byte total at that time.
    pub bytes: u64,
}

impl BandwidthMeasurement {
    /// An observation of `bytes` stamped with the clock now.
    pub fn new(bytes: u64) -> (m: BandwidthMeasurement)
        ensures
            m.bytes == bytes,
    {
        BandwidthMeasurement {
            timestamp_micros: crate::protocol::current_timestamp_micros(),
            bytes,
        }
    }

    /// An observation of `bytes` at a given time.
    pub fn new_at(bytes: u64, now: u64) -> (m: BandwidthMeasurement)
        ensures
            m.bytes == bytes,
            m.timestamp_micros == now,
    {
        BandwidthMeasurement { timestamp_micros: now, bytes }
    }
}

/// Observations left after dropping the stale front: the longest prefix
/// older than `cutoff` is removed.
pub open spec fn spec_drop_stale_bw(
    s: Seq<BandwidthMeasurement>,
    cutoff: u64,
) -> Seq<BandwidthMeasurement>
    decreases s.len(),
{
    if s.len() == 0 {
        s
    } else if s[0].timestamp_micros < cutoff {
        spec_drop_stale_bw(s.subrange(1, s.len() as int), cutoff)
    } else {
        s
    }
}

/// A sliding window of byte-total observations.
#[derive(Debug, Clone, PartialEq, Eq)]
pub struct BandwidthMonitor {
    pub measurements: Vec<BandwidthMeasurement>,
    /// Length of the window, microseconds.
    pub window_micros: u64,
}

impl BandwidthMonitor {
    /// An empty monitor over the given window.
    pub fn new(window_micros: u64) -> (m: BandwidthMonitor)
        ensures
            m.measurements@.len() == 0,
            m.window_micros == window_micros,
    {
        BandwidthMonitor { measurements: Vec::new(), window_micros }
    }

    /// Record a byte total at `now` and drop observations that fell out
    /// of the window.
    pub fn add_measurement_at(&mut self, bytes: u64, now: u64)
        ensures
            final(self).window_micros == old(self).window_micros,
            final(self).measurements@ == spec_drop_stale_bw(
                old(self).measurements@.push(
                    BandwidthMeasurement { timestamp_micros: now, bytes },
                ),
                spec_elapsed(now, old(self).window_micros),
            ),
    {
        let cutoff = elapsed_micros(now, self.window_micros);
        self.measurements.push(BandwidthMeasurement { timestamp_micros: now, bytes });
        let ghost full = self.measurements@;
        while self.measurements.len() > 0 && self.measurements[0].timestamp_micros < cutoff
            invariant
                self.window_micros == old(self).window_micros,
                spec_drop_stale_bw(self.measurements@, cutoff) == spec_drop_stale_bw(full, cutoff),
                full == old(self).measurements@.push(
                    BandwidthMeasurement { timestamp_micros: now, bytes },
                ),
                cutoff == spec_elapsed(now, old(self).window_micros),
            decreases self.measurements@.len(),
        {
            let ghost before = self.measurements@;
            self.measurements.remove(0);
            proof {
                assert(self.measurements@ =~= before.subrange(1, before.len() as int));
            }
        }
        proof {
            assert(spec_drop_stale_bw(self.measurements@, cutoff) == self.measurements@);
        }
    }

    /// Record a byte total stamped with the clock now.
    pub fn add_measurement(&mut self, bytes: u64)
        ensures
            final(self).window_micros == old(self).window_micros,
            exists|now: u64|
                final(self).measurements@ == spec_drop_stale_bw(
                    old(self).measurements@.push(
                        BandwidthMeasurement { timestamp_micros: now, bytes },
                    ),
                    spec_elapsed(now, old(self).window_micros),
                ),
    {
        let now = crate::protocol::current_timestamp_micros();
        self.add_measurement_at(bytes, now);
    }

    /// Current bandwidth in bits per second from the first and last
    /// observations of the window: the byte difference over the elapsed
    /// time; 0 with fewer than two observations, a non-advancing clock,
    /// or a shrinking byte total.
    pub fn current_bandwidth_bps(&self) -> (r: u64)
        ensures
            ({
                let s = self.measurements@;
                if s.len() < 2 {
                    r == 0
                } else {
                    let first = s[0];
                    let last = s[s.len() - 1];
                    if last.timestamp_micros <= first.timestamp_micros || last.bytes < first.bytes {
                        r == 0
                    } else {
                        r == spec_mul_div(
                            ((last.bytes - first.bytes) * 8) as u64,
                            1_000_000,
                            (last.timestamp_micros - first.timestamp_micros) as u64,
                        ) || ((last.bytes - first.bytes) * 8 > u64::MAX && r == u64::MAX)
                    }
                }
            }),
    {
        if self.measurements.len() < 2 {
            return 0;
        }
        let first = self.measurements[0];
        let last = self.measurements[self.measurements.len() - 1];
        if last.timestamp_micros <= first.timestamp_micros || last.bytes < first.bytes {
            return 0;
        }
        let diff = last.bytes - first.bytes;
        if diff > u64::MAX / 8 {
            proof {
                assert((last.bytes - first.bytes) * 8 > u64::MAX);
            }
            return u64::MAX;
        }
        let bits = diff * 8;
        mul_div_sat(bits, 1_000_000, last.timestamp_micros - first.timestamp_micros)
    }

    /// Average of the observed byte totals, in bits: eight times the mean
    /// of the totals; 0 with no observations.
    pub fn average_bandwidth_bits(&self) -> (r: u64)
        ensures
            self.measurements@.len() == 0 ==> r == 0,
            self.measurements@.len() > 0 ==> r == spec_mul_div(
                crate::throughput::spec_sat_u64(spec_bw_bytes_sum(self.measurements@)),
                8,
                1,
            ) / (self.measurements@.len() as u64),
    {
        let n = self.measurements.len();
        if n == 0 {
            return 0;
        }
        let ghost s = self.measurements@;
        let mut acc: u128 = 0;
        let mut i: usize = 0;
        proof {
            assert(s.take(0) =~= Seq::<BandwidthMeasurement>::empty());
        }
        while i < self.measurements.len()
            invariant
                i <= s.len(),
                self.measurements@ == s,
                acc == spec_bw_bytes_sum(s.take(i as int)),
            decreases s.len() - i,
        {
            proof {
                assert(s.take(i as int + 1).drop_last() =~= s.take(i as int));
                assert(s.take(i as int + 1).last() == s[i as int]);
                lemma_bw_bytes_sum_bound(s.take(i as int));
                assert((i as int) * u64::MAX + u64::MAX <= (u64::MAX as int) * u64::MAX
                    + u64::MAX) by (nonlinear_arith)
                    requires
                        0 <= (i as int),
                        (i as int) <= u64::MAX,
                ;
            }
            acc = acc + self.measurements[i].bytes as u128;
            i = i + 1;
        }
        proof {
            assert(s.take(s.len() as int) =~= s);
            lemma_bw_bytes_sum_bound(s);
        }
        let total: u64 = if acc > u64::MAX as u128 {
            u64::MAX
        } else {
            acc as u64
        };
        let bits = mul_div_sat(total, 8, 1);
        bits / (n as u64)
    }
}

/// Sum of the byte totals of the observations.
pub open spec fn spec_bw_bytes_sum(s: Seq<BandwidthMeasurement>) -> int
    decreases s.len(),
{
    if s.len() == 0 {
        0
    } else {
        spec_bw_bytes_sum(s.drop_last()) + s.last().bytes
    }
}

/// The byte-total sum is nonnegative and at most one `u64` per
/// observation.
pub proof fn lemma_bw_bytes_sum_bound(s: Seq<BandwidthMeasurement>)
    ensures
        0 <= spec_bw_bytes_sum(s) <= s.len() * u64::MAX,
    decreases s.len(),
{
    if s.len() > 0 {
        lemma_bw_bytes_sum_bound(s.drop_last());
        assert((s.len() - 1) * u64::MAX + u64::MAX == s.len() * u64::MAX) by (nonlinear_arith);
    }
}

/// Sent and received packet counters for loss accounting.
#[derive(Debug, Clone, Copy, PartialEq, Eq, Structural)]
pub struct PacketLossTracker {
    pub expected_packets: u32,
    pub received_packets: u32,
}

impl PacketLossTracker {
    /// Both counters at zero.
    pub fn new() -> (t: PacketLossTracker)
        ensures
            t.expected_packets == 0,
            t.received_packets == 0,
    {
        PacketLossTracker { expected_packets: 0, received_packets: 0 }
    }

    /// Count a sent packet.
    pub fn packet_sent(&mut self)
        requires
            old(self).expected_packets < u32::MAX,
        ensures
            final(self).expected_packets == old(self).expected_packets + 1,
            final(self).received_packets == old(self).received_packets,
    {
        self.expected_packets = self.expected_packets + 1;
    }

    /// Count a received packet.
    pub fn packet_received(&mut self)
        requires
            old(self).received_packets < u32::MAX,
        ensures
            final(self).received_packets == old(self).received_packets + 1,
            final(self).expected_packets == old(self).expected_packets,
    {
        self.received_packets = self.received_packets + 1;
    }

    /// Packets lost: sent minus received, never negative.
    pub fn packets_lost(&self) -> (r: u32)
        ensures
            r == if self.expected_packets >= self.received_packets {
                (self.expected_packets - self.received_packets) as u32
            } else {
                0
            },
    {
        if self.expected_packets >= self.received_packets {
            self.expected_packets - self.received_packets
        } else {
            0
        }
    }

    /// Loss in permille of the expected packets; 0 when none were
    /// expected.
    pub fn loss_permille(&self) -> (r: u64)
        ensures
            self.expected_packets == 0 ==> r == 0,
            self.expected_packets > 0 ==> r == ((if self.expected_packets
                >= self.received_packets {
                (self.expected_packets - self.received_packets) as u32
            } else {
                0
            }) as int) * 1000 / (self.expected_packets as int),
    {
        if self.expected_packets == 0 {
            return 0;
        }
        let lost = self.packets_lost();
        mul_div_sat(lost as u64, 1000, self.expected_packets as u64)
    }
}

} // verus!
