//! BBR-style congestion control: a sliding-window bandwidth filter, a
//! running minimum RTT, and a four-state machine that turns both into a
//! pacing rate and a congestion window.
//!
//! Rates are bytes per second, times microseconds, gains permille (a gain
//! of 1.25 is 1250).

use crate::pacing::{sat_add, spec_sat_add};
use vstd::prelude::*;

verus! {

/// Startup pacing gain, permille (ln 2 times 4, as BBR uses).
pub const STARTUP_PACING_GAIN_PERMILLE: u64 = 2770;

/// Startup congestion-window gain, permille.
pub const STARTUP_CWND_GAIN_PERMILLE: u64 = 2000;

/// ProbeRTT congestion-window gain, permille.
pub const PROBE_RTT_CWND_GAIN_PERMILLE: u64 = 500;

/// Length of a full ProbeBW gain cycle, microseconds.
pub const PROBE_BW_CYCLE_MICROS: u64 = 8_000_000;

/// Number of gains in the ProbeBW cycle.
pub const PROBE_BW_CYCLE_LEN: usize = 8;

/// How long ProbeRTT holds, microseconds.
pub const PROBE_RTT_DURATION_MICROS: u64 = 200_000;

/// Segment size assumed for window sizing, bytes.
pub const MSS: u64 = 1400;

/// Smallest congestion window: 4 segments.
pub const MIN_CWND: u64 = 5600;

/// Largest congestion window: 1 MiB.
pub const MAX_CWND: u64 = 1_048_576;

/// Initial congestion window: 10 segments.
pub const INITIAL_CWND: u64 = 14_000;

/// Window of the minimum-RTT filter, microseconds.
pub const MIN_RTT_FILTER_MICROS: u64 = 10_000_000;

/// Window of the bandwidth filter, microseconds.
pub const BW_FILTER_MICROS: u64 = 2_000_000;

/// `a * b / c`, saturated to `u64::MAX`.
pub open spec fn spec_mul_div(a: u64, b: u64, c: u64) -> u64
    recommends
        c > 0,
{
    if c == 0 {
        0
    } else if a * b / (c as int) > u64::MAX {
        u64::MAX
    } else {
        (a * b / (c as int)) as u64
    }
}

/// `a * b / c`, saturated to `u64::MAX`.
pub fn mul_div_sat(a: u64, b: u64, c: u64) -> (r: u64)
    requires
        c > 0,
    ensures
        r == spec_mul_div(a, b, c),
{
    proof {
        assert((a as int) * (b as int) <= (u64::MAX as int) * (u64::MAX as int))
            by (nonlinear_arith)
            requires
                a <= u64::MAX,
                b <= u64::MAX,
        ;
    }
    let v: u128 = (a as u128) * (b as u128) / (c as u128);
    if v > u64::MAX as u128 {
        assert(a * b / (c as int) > u64::MAX);
        u64::MAX
    } else {
        assert(v == a * b / (c as int));
        v as u64
    }
}

/// `now - then`, or 0 when the clock reads earlier than `then`.
pub open spec fn spec_elapsed(now: u64, then: u64) -> u64 {
    if now >= then {
        (now - then) as u64
    } else {
        0
    }
}

/// `now - then`, or 0 when the clock reads earlier than `then`.
pub fn elapsed_micros(now: u64, then: u64) -> (r: u64)
    ensures
        r == spec_elapsed(now, then),
{
    if now >= then {
        now - then
    } else {
        0
    }
}

/// One bandwidth sample: a delivery rate and when it was taken.
#[derive(Debug, Clone, Copy, PartialEq, Eq, Structural)]
pub struct BandwidthSample {
    /// Delivery rate, bytes per second.
    pub bw: u64,
    /// When the sample was taken, microseconds.
    pub time: u64,
}

/// Samples left after dropping the stale front: the longest prefix of
/// samples older than `cutoff` is removed.
pub open spec fn spec_drop_stale(s: Seq<BandwidthSample>, cutoff: u64) -> Seq<BandwidthSample>
    decreases s.len(),
{
    if s.len() == 0 {
        s
    } else if s[0].time < cutoff {
        spec_drop_stale(s.subrange(1, s.len() as int), cutoff)
    } else {
        s
    }
}

/// The largest rate among the samples, 0 when there are none.
pub open spec fn spec_max_bw_of(s: Seq<BandwidthSample>) -> u64
    decreases s.len(),
{
    if s.len() == 0 {
        0
    } else if s.last().bw >= spec_max_bw_of(s.drop_last()) {
        s.last().bw
    } else {
        spec_max_bw_of(s.drop_last())
    }
}

/// Sliding-window maximum filter over bandwidth samples.
#[derive(Debug, Clone, PartialEq, Eq)]
pub struct BandwidthFilter {
    pub samples: Vec<BandwidthSample>,
    pub max_bw: u64,
}

impl BandwidthFilter {
    /// The cached maximum is the maximum of the samples held.
    pub open spec fn wf(self) -> bool {
        self.max_bw == spec_max_bw_of(self.samples@)
    }

    /// An empty filter.
    pub fn new() -> (f: BandwidthFilter)
        ensures
            f.samples@.len() == 0,
            f.max_bw == 0,
            f.wf(),
    {
        BandwidthFilter { samples: Vec::new(), max_bw: 0 }
    }

    /// Add a sample taken at `now`, drop samples older than the filter
    /// window, and refresh the maximum.
    pub fn update(&mut self, bw: u64, now: u64, filter_len_micros: u64)
        ensures
            final(self).samples@ == spec_drop_stale(
                old(self).samples@.push(BandwidthSample { bw, time: now }),
                spec_elapsed(now, filter_len_micros),
            ),
            final(self).max_bw == spec_max_bw_of(final(self).samples@),
            final(self).wf(),
    {
        let cutoff = elapsed_micros(now, filter_len_micros);
        self.samples.push(BandwidthSample { bw, time: now });
        let ghost full = self.samples@;
        while self.samples.len() > 0 && self.samples[0].time < cutoff
            invariant
                spec_drop_stale(self.samples@, cutoff) == spec_drop_stale(full, cutoff),
            decreases self.samples@.len(),
        {
            let ghost before = self.samples@;
            self.samples.remove(0);
            proof {
                assert(self.samples@ =~= before.subrange(1, before.len() as int));
            }
        }
        proof {
            assert(spec_drop_stale(self.samples@, cutoff) == self.samples@);
        }
        let mut best: u64 = 0;
        let mut i: usize = 0;
        let ghost kept = self.samples@;
        proof {
            assert(kept.take(0) =~= Seq::<BandwidthSample>::empty());
        }
        while i < self.samples.len()
            invariant
                i <= self.samples@.len(),
                self.samples@ == kept,
                best == spec_max_bw_of(kept.take(i as int)),
            decreases self.samples@.len() - i,
        {
            proof {
                assert(kept.take(i as int + 1).drop_last() =~= kept.take(i as int));
                assert(kept.take(i as int + 1).last() == kept[i as int]);
            }
            let s = self.samples[i].bw;
            if s >= best {
                best = s;
            }
            i = i + 1;
        }
        proof {
            assert(kept.take(kept.len() as int) =~= kept);
        }
        self.max_bw = best;
    }

    /// The maximum rate within the window.
    pub fn get_max_bw(&self) -> (r: u64)
        ensures
            r == self.max_bw,
            self.wf() ==> r == spec_max_bw_of(self.samples@),
    {
        self.max_bw
    }
}

/// The four BBR states.
#[derive(Debug, Clone, Copy, PartialEq, Eq, Structural)]
pub enum BbrState {
    Startup,
    Drain,
    ProbeBw,
    ProbeRtt,
}

/// The ProbeBW gain for a cycle position, permille: one probing phase, one
/// draining phase, six cruising phases.
pub open spec fn spec_probe_bw_gain_permille(index: usize) -> u64 {
    if index % 8 == 0 {
        1250
    } else if index % 8 == 1 {
        750
    } else {
        1000
    }
}

/// The ProbeBW gain for a cycle position, permille.
pub fn probe_bw_gain_permille(index: usize) -> (g: u64)
    ensures
        g == spec_probe_bw_gain_permille(index),
{
    if index % 8 == 0 {
        1250
    } else if index % 8 == 1 {
        750
    } else {
        1000
    }
}

/// The next ProbeBW cycle position after `i`.
pub open spec fn spec_next_cycle_index(i: usize) -> usize {
    if i >= 7 {
        0
    } else {
        (i + 1) as usize
    }
}

/// Bandwidth-delay product: `max_bw` bytes per second over `min_rtt`
/// microseconds, saturated.
pub open spec fn spec_bdp(max_bw: u64, min_rtt_micros: u64) -> u64 {
    spec_mul_div(max_bw, min_rtt_micros, 1_000_000)
}

/// `value` scaled by a permille gain, saturated.
pub open spec fn spec_scaled(value: u64, gain_permille: u64) -> u64 {
    spec_mul_div(value, gain_permille, 1000)
}

/// A window clamped into `[MIN_CWND, MAX_CWND]`.
pub open spec fn spec_clamp_cwnd(c: u64) -> u64 {
    if c < MIN_CWND {
        MIN_CWND
    } else if c > MAX_CWND {
        MAX_CWND
    } else {
        c
    }
}

/// The pacing rate that a state implies from the filtered bandwidth and the
/// ProbeBW cycle position.
pub open spec fn spec_pacing_rate_for(
    state: BbrState,
    max_bw: u64,
    cycle_index: usize,
) -> u64 {
    match state {
        BbrState::Startup => spec_scaled(max_bw, STARTUP_PACING_GAIN_PERMILLE),
        BbrState::Drain => spec_mul_div(max_bw, 1000, STARTUP_PACING_GAIN_PERMILLE),
        BbrState::ProbeBw => spec_scaled(max_bw, spec_probe_bw_gain_permille(cycle_index)),
        BbrState::ProbeRtt => max_bw,
    }
}

/// The congestion window that a state implies from the bandwidth-delay
/// product, clamped.
pub open spec fn spec_cwnd_for(
    state: BbrState,
    max_bw: u64,
    min_rtt_micros: u64,
    cycle_index: usize,
) -> u64 {
    let bdp = spec_bdp(max_bw, min_rtt_micros);
    match state {
        BbrState::Startup => spec_clamp_cwnd(spec_scaled(bdp, STARTUP_CWND_GAIN_PERMILLE)),
        BbrState::Drain => spec_clamp_cwnd(bdp),
        BbrState::ProbeBw => spec_clamp_cwnd(
            spec_scaled(bdp, spec_probe_bw_gain_permille(cycle_index)),
        ),
        BbrState::ProbeRtt => spec_clamp_cwnd(spec_scaled(bdp, PROBE_RTT_CWND_GAIN_PERMILLE)),
    }
}

/// BBR congestion-control state.
#[derive(Debug, Clone, PartialEq, Eq)]
pub struct BbrCongestionControl {
    pub state: BbrState,
    pub max_bw: BandwidthFilter,
    /// Running minimum RTT, microseconds.
    pub min_rtt_micros: u64,
    /// When the minimum RTT was last refreshed, microseconds.
    pub min_rtt_stamp: u64,
    /// Pacing rate, bytes per second.
    pub pacing_rate: u64,
    /// Congestion window, bytes.
    pub cwnd: u64,
    /// Position in the ProbeBW gain cycle.
    pub cycle_index: usize,
    /// When the current cycle phase began, microseconds.
    pub cycle_start: u64,
    pub packets_sent: u64,
    pub packets_acked: u64,
    /// When the current state was entered, microseconds.
    pub state_start: u64,
}

impl BbrCongestionControl {
    /// Fresh state at clock reading `now`: Startup, an empty filter, a
    /// conservative 1 s minimum RTT, and the initial window.
    pub fn new_at(now: u64) -> (b: BbrCongestionControl)
        ensures
            b.state == BbrState::Startup,
            b.max_bw.samples@.len() == 0,
            b.max_bw.max_bw == 0,
            b.max_bw.wf(),
            b.min_rtt_micros == 1_000_000,
            b.min_rtt_stamp == now,
            b.pacing_rate == 0,
            b.cwnd == INITIAL_CWND,
            b.cycle_index == 0,
            b.cycle_start == now,
            b.packets_sent == 0,
            b.packets_acked == 0,
            b.state_start == now,
    {
        BbrCongestionControl {
            state: BbrState::Startup,
            max_bw: BandwidthFilter::new(),
            min_rtt_micros: 1_000_000,
            min_rtt_stamp: now,
            pacing_rate: 0,
            cwnd: INITIAL_CWND,
            cycle_index: 0,
            cycle_start: now,
            packets_sent: 0,
            packets_acked: 0,
            state_start: now,
        }
    }

    /// Fresh state stamped with the clock now.
    pub fn new() -> (b: BbrCongestionControl)
        ensures
            b.state == BbrState::Startup,
            b.max_bw.samples@.len() == 0,
            b.max_bw.wf(),
            b.min_rtt_micros == 1_000_000,
            b.pacing_rate == 0,
            b.cwnd == INITIAL_CWND,
            b.cycle_index == 0,
            b.packets_sent == 0,
            b.packets_acked == 0,
    {
        let now = current_time();
        BbrCongestionControl::new_at(now)
    }

    /// Refresh the RTT and bandwidth model from one ACK: the minimum RTT is
    /// replaced when the sample is lower or the filter window has elapsed,
    /// and the delivery rate `bytes_acked / rtt` enters the bandwidth
    /// filter.
    pub fn update_model(&mut self, bytes_acked: u64, rtt_micros: u64, now: u64)
        ensures
            ({
                let refreshed = rtt_micros < old(self).min_rtt_micros || spec_elapsed(
                    now,
                    old(self).min_rtt_stamp,
                ) > MIN_RTT_FILTER_MICROS;
                &&& final(self).min_rtt_micros == if refreshed {
                    rtt_micros
                } else {
                    old(self).min_rtt_micros
                }
                &&& final(self).min_rtt_stamp == if refreshed {
                    now
                } else {
                    old(self).min_rtt_stamp
                }
            }),
            final(self).max_bw.samples@ == spec_drop_stale(
                old(self).max_bw.samples@.push(
                    BandwidthSample {
                        bw: spec_mul_div(
                            bytes_acked,
                            1_000_000,
                            if rtt_micros == 0 {
                                1
                            } else {
                                rtt_micros
                            },
                        ),
                        time: now,
                    },
                ),
                spec_elapsed(now, BW_FILTER_MICROS),
            ),
            final(self).max_bw.wf(),
            final(self).state == old(self).state,
            final(self).pacing_rate == old(self).pacing_rate,
            final(self).cwnd == old(self).cwnd,
            final(self).cycle_index == old(self).cycle_index,
            final(self).cycle_start == old(self).cycle_start,
            final(self).packets_sent == old(self).packets_sent,
            final(self).packets_acked == old(self).packets_acked,
            final(self).state_start == old(self).state_start,
    {
        if rtt_micros < self.min_rtt_micros || elapsed_micros(now, self.min_rtt_stamp)
            > MIN_RTT_FILTER_MICROS {
            self.min_rtt_micros = rtt_micros;
            self.min_rtt_stamp = now;
        }
        let divisor = if rtt_micros == 0 {
            1
        } else {
            rtt_micros
        };
        let delivery_rate = mul_div_sat(bytes_acked, 1_000_000, divisor);
        self.max_bw.update(delivery_rate, now, BW_FILTER_MICROS);
    }

    /// Recompute the pacing rate and window that the current state implies.
    pub fn update_control_parameters(&mut self)
        requires
            old(self).max_bw.wf(),
        ensures
            final(self).pacing_rate == spec_pacing_rate_for(
                old(self).state,
                old(self).max_bw.max_bw,
                old(self).cycle_index,
            ),
            final(self).cwnd == spec_cwnd_for(
                old(self).state,
                old(self).max_bw.max_bw,
                old(self).min_rtt_micros,
                old(self).cycle_index,
            ),
            final(self).state == old(self).state,
            final(self).max_bw == old(self).max_bw,
            final(self).min_rtt_micros == old(self).min_rtt_micros,
            final(self).min_rtt_stamp == old(self).min_rtt_stamp,
            final(self).cycle_index == old(self).cycle_index,
            final(self).cycle_start == old(self).cycle_start,
            final(self).packets_sent == old(self).packets_sent,
            final(self).packets_acked == old(self).packets_acked,
            final(self).state_start == old(self).state_start,
    {
        let bw = self.max_bw.get_max_bw();
        let bdp = mul_div_sat(bw, self.min_rtt_micros, 1_000_000);
        match self.state {
            BbrState::Startup => {
                self.pacing_rate = mul_div_sat(bw, STARTUP_PACING_GAIN_PERMILLE, 1000);
                self.cwnd = clamp_cwnd(mul_div_sat(bdp, STARTUP_CWND_GAIN_PERMILLE, 1000));
            },
            BbrState::Drain => {
                self.pacing_rate = mul_div_sat(bw, 1000, STARTUP_PACING_GAIN_PERMILLE);
                self.cwnd = clamp_cwnd(bdp);
            },
            BbrState::ProbeBw => {
                let gain = probe_bw_gain_permille(self.cycle_index);
                self.pacing_rate = mul_div_sat(bw, gain, 1000);
                self.cwnd = clamp_cwnd(mul_div_sat(bdp, gain, 1000));
            },
            BbrState::ProbeRtt => {
                self.pacing_rate = bw;
                self.cwnd = clamp_cwnd(mul_div_sat(bdp, PROBE_RTT_CWND_GAIN_PERMILLE, 1000));
            },
        }
    }

    /// Whether Startup has acknowledged enough packets to move on: more
    /// than three windows' worth of segments.
    pub fn check_startup_done(&self) -> (r: bool)
        ensures
            r == (self.packets_acked > 3 * (self.cwnd / MSS)),
    {
        self.packets_acked > 3 * (self.cwnd / MSS)
    }

    /// Whether Drain has brought the bytes in flight down to the
    /// bandwidth-delay product.
    pub fn check_drain_done(&self, bytes_in_flight: u64) -> (r: bool)
        requires
            self.max_bw.wf(),
        ensures
            r == (bytes_in_flight <= spec_bdp(self.max_bw.max_bw, self.min_rtt_micros)),
    {
        let bdp = mul_div_sat(self.max_bw.get_max_bw(), self.min_rtt_micros, 1_000_000);
        bytes_in_flight <= bdp
    }

    /// In ProbeBW, move to the next gain after an eighth of the cycle.
    pub fn advance_cycle_phase(&mut self, now: u64)
        ensures
            ({
                let advanced = old(self).state == BbrState::ProbeBw && spec_elapsed(
                    now,
                    old(self).cycle_start,
                ) >= PROBE_BW_CYCLE_MICROS / 8;
                &&& final(self).cycle_index == if advanced {
                    spec_next_cycle_index(old(self).cycle_index)
                } else {
                    old(self).cycle_index
                }
                &&& final(self).cycle_start == if advanced {
                    now
                } else {
                    old(self).cycle_start
                }
            }),
            final(self).state == old(self).state,
            final(self).max_bw == old(self).max_bw,
            final(self).min_rtt_micros == old(self).min_rtt_micros,
            final(self).min_rtt_stamp == old(self).min_rtt_stamp,
            final(self).pacing_rate == old(self).pacing_rate,
            final(self).cwnd == old(self).cwnd,
            final(self).packets_sent == old(self).packets_sent,
            final(self).packets_acked == old(self).packets_acked,
            final(self).state_start == old(self).state_start,
    {
        if !matches!(self.state, BbrState::ProbeBw) {
            return ;
        }
        if elapsed_micros(now, self.cycle_start) >= PROBE_BW_CYCLE_MICROS / 8 {
            self.cycle_index = if self.cycle_index >= 7 {
                0
            } else {
                self.cycle_index + 1
            };
            self.cycle_start = now;
        }
    }

    /// Walk the state machine one step at clock reading `now`: Startup
    /// drains once enough packets were acknowledged, Drain probes bandwidth
    /// once the flight is down to the bandwidth-delay product, ProbeBW
    /// drops into ProbeRTT when the minimum RTT has gone unrefreshed past
    /// its filter window and otherwise cycles its gains, and ProbeRTT
    /// returns to ProbeBW after its hold time.
    pub fn update_state(&mut self, bytes_in_flight: u64, now: u64)
        requires
            old(self).max_bw.wf(),
        ensures
            final(self).max_bw == old(self).max_bw,
            final(self).min_rtt_micros == old(self).min_rtt_micros,
            final(self).min_rtt_stamp == old(self).min_rtt_stamp,
            final(self).pacing_rate == old(self).pacing_rate,
            final(self).cwnd == old(self).cwnd,
            final(self).packets_sent == old(self).packets_sent,
            final(self).packets_acked == old(self).packets_acked,
            match old(self).state {
                BbrState::Startup => {
                    if old(self).packets_acked > 3 * (old(self).cwnd / MSS) {
                        final(self).state == BbrState::Drain && final(self).state_start == now
                            && final(self).cycle_index == old(self).cycle_index && final(self).cycle_start == old(self).cycle_start
                    } else {
                        *final(self) == *old(self)
                    }
                },
                BbrState::Drain => {
                    if bytes_in_flight <= spec_bdp(
                        old(self).max_bw.max_bw,
                        old(self).min_rtt_micros,
                    ) {
                        final(self).state == BbrState::ProbeBw && final(self).state_start == now
                            && final(self).cycle_index == 0 && final(self).cycle_start == now
                    } else {
                        *final(self) == *old(self)
                    }
                },
                BbrState::ProbeBw => {
                    if spec_elapsed(now, old(self).min_rtt_stamp) > MIN_RTT_FILTER_MICROS {
                        final(self).state == BbrState::ProbeRtt && final(self).state_start == now
                    } else {
                        final(self).state == BbrState::ProbeBw
                            && final(self).state_start == old(self).state_start
                    }
                },
                BbrState::ProbeRtt => {
                    if spec_elapsed(now, old(self).state_start) >= PROBE_RTT_DURATION_MICROS {
                        final(self).state == BbrState::ProbeBw && final(self).state_start == now
                            && final(self).cycle_index == 0 && final(self).cycle_start == now
                    } else {
                        *final(self) == *old(self)
                    }
                },
            },
    {
        match self.state {
            BbrState::Startup => {
                if self.check_startup_done() {
                    self.state = BbrState::Drain;
                    self.state_start = now;
                }
            },
            BbrState::Drain => {
                if self.check_drain_done(bytes_in_flight) {
                    self.state = BbrState::ProbeBw;
                    self.state_start = now;
                    self.cycle_start = now;
                    self.cycle_index = 0;
                }
            },
            BbrState::ProbeBw => {
                if elapsed_micros(now, self.min_rtt_stamp) > MIN_RTT_FILTER_MICROS {
                    self.state = BbrState::ProbeRtt;
                    self.state_start = now;
                } else {
                    self.advance_cycle_phase(now);
                }
            },
            BbrState::ProbeRtt => {
                if elapsed_micros(now, self.state_start) >= PROBE_RTT_DURATION_MICROS {
                    self.state = BbrState::ProbeBw;
                    self.state_start = now;
                    self.cycle_start = now;
                    self.cycle_index = 0;
                }
            },
        }
    }

    /// Count a sent packet and rerun the state machine and controls.
    pub fn on_packet_sent(&mut self, now: u64)
        requires
            old(self).max_bw.wf(),
        ensures
            final(self).packets_sent == spec_sat_add(old(self).packets_sent, 1),
            final(self).max_bw == old(self).max_bw,
            final(self).pacing_rate == spec_pacing_rate_for(
                final(self).state,
                final(self).max_bw.max_bw,
                final(self).cycle_index,
            ),
            final(self).cwnd == spec_cwnd_for(
                final(self).state,
                final(self).max_bw.max_bw,
                final(self).min_rtt_micros,
                final(self).cycle_index,
            ),
    {
        self.packets_sent = sat_add(self.packets_sent, 1);
        self.update_state(0, now);
        self.update_control_parameters();
    }

    /// Feed one ACK through the model, the state machine, and the
    /// controls.
    pub fn on_ack_received(&mut self, bytes_acked: u64, rtt_micros: u64, now: u64)
        requires
            old(self).max_bw.wf(),
        ensures
            final(self).packets_acked == spec_sat_add(old(self).packets_acked, 1),
            final(self).max_bw.wf(),
            final(self).pacing_rate == spec_pacing_rate_for(
                final(self).state,
                final(self).max_bw.max_bw,
                final(self).cycle_index,
            ),
            final(self).cwnd == spec_cwnd_for(
                final(self).state,
                final(self).max_bw.max_bw,
                final(self).min_rtt_micros,
                final(self).cycle_index,
            ),
    {
        self.packets_acked = sat_add(self.packets_acked, 1);
        self.update_model(bytes_acked, rtt_micros, now);
        self.update_state(0, now);
        self.update_control_parameters();
    }

    /// A loss does not back the rate off directly; the state machine and
    /// controls are rerun on the unchanged model.
    pub fn on_packet_lost(&mut self, now: u64)
        requires
            old(self).max_bw.wf(),
        ensures
            final(self).max_bw == old(self).max_bw,
            final(self).packets_acked == old(self).packets_acked,
            final(self).packets_sent == old(self).packets_sent,
            final(self).pacing_rate == spec_pacing_rate_for(
                final(self).state,
                final(self).max_bw.max_bw,
                final(self).cycle_index,
            ),
            final(self).cwnd == spec_cwnd_for(
                final(self).state,
                final(self).max_bw.max_bw,
                final(self).min_rtt_micros,
                final(self).cycle_index,
            ),
    {
        self.update_state(0, now);
        self.update_control_parameters();
    }

    /// The sending rate handed to the pacer: the pacing rate, floored at
    /// 1000 bytes per second.
    pub fn get_sending_rate(&self) -> (r: u64)
        ensures
            r == if self.pacing_rate >= 1000 {
                self.pacing_rate
            } else {
                1000
            },
            r >= 1000,
    {
        if self.pacing_rate >= 1000 {
            self.pacing_rate
        } else {
            1000
        }
    }

    /// The congestion window in bytes.
    pub fn get_cwnd(&self) -> (r: u64)
        ensures
            r == self.cwnd,
    {
        self.cwnd
    }

    /// More data may be sent while the flight is below the window.
    pub fn can_send(&self, bytes_in_flight: u64) -> (r: bool)
        ensures
            r == (bytes_in_flight < self.cwnd),
    {
        bytes_in_flight < self.cwnd
    }
}

/// A window clamped into `[MIN_CWND, MAX_CWND]`.
pub fn clamp_cwnd(c: u64) -> (r: u64)
    ensures
        r == spec_clamp_cwnd(c),
{
    if c < MIN_CWND {
        MIN_CWND
    } else if c > MAX_CWND {
        MAX_CWND
    } else {
        c
    }
}

/// Current time for congestion bookkeeping.
fn current_time() -> (t: u64) {
    crate::protocol::current_timestamp_micros()
}

} // verus!
