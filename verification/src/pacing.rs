//! Rate-based pacing: converts a target sending rate in bytes per second
//! into per-packet send gaps, absorbing bursts by carrying the ideal send
//! time forward. Times are microseconds.

use vstd::prelude::*;

verus! {

/// Lowest rate the pacer will run at, in bytes per second.
pub const MIN_PACING_RATE: u64 = 1000;

/// A requested rate clamped to the pacer's floor.
pub open spec fn spec_clamped_rate(rate: u64) -> u64 {
    if rate >= MIN_PACING_RATE {
        rate
    } else {
        MIN_PACING_RATE
    }
}

/// Microseconds that sending `size` bytes takes at `rate` bytes per second,
/// saturated to `u64::MAX`.
pub open spec fn spec_send_duration_micros(size: usize, rate: u64) -> u64
    recommends
        rate > 0,
{
    if rate == 0 {
        0
    } else if size * 1_000_000 / (rate as int) > u64::MAX {
        u64::MAX
    } else {
        (size * 1_000_000 / (rate as int)) as u64
    }
}

/// `a + b`, saturated to `u64::MAX`.
pub open spec fn spec_sat_add(a: u64, b: u64) -> u64 {
    if a + b > u64::MAX {
        u64::MAX
    } else {
        (a + b) as u64
    }
}

/// What one call of `schedule_next_send` does: `None` means send at once
/// (the schedule was not ahead of `now`); a wait means hold the packet and
/// charge the ideal send time, so bursts are absorbed rather than
/// forgotten.
pub open spec fn spec_schedule_outcome(
    pre: Pacer,
    packet_size: usize,
    now: u64,
    post: Pacer,
    wait: Option<u64>,
) -> bool {
    let dur = spec_send_duration_micros(packet_size, pre.sending_rate);
    match pre.last_send_time {
        None => wait is None && post.last_send_time == Some(now) && post.next_send_time == Some(
            spec_sat_add(now, dur),
        ),
        Some(last) => {
            let ideal = spec_sat_add(last, dur);
            if now >= ideal {
                wait is None && post.last_send_time == Some(now) && post.next_send_time == Some(
                    spec_sat_add(now, dur),
                )
            } else {
                wait == Some((ideal - now) as u64) && post.last_send_time == Some(ideal)
                    && post.next_send_time == Some(spec_sat_add(ideal, dur))
            }
        },
    }
}

/// Pacing state: the target rate, and the send time that the schedule has
/// reached.
#[derive(Debug, Clone, PartialEq, Eq)]
pub struct Pacer {
    /// Target sending rate in bytes per second, never below the floor.
    pub sending_rate: u64,
    /// The time charged to the last scheduled send, in microseconds.
    pub last_send_time: Option<u64>,
    /// When the packet after the last scheduled one may go out.
    pub next_send_time: Option<u64>,
}

impl Pacer {
    /// The pacer's invariant: the rate never falls below the floor.
    pub open spec fn wf(self) -> bool {
        self.sending_rate >= MIN_PACING_RATE
    }

    /// A pacer at the requested rate, clamped to the floor, with no send
    /// scheduled yet.
    pub fn new(initial_rate: u64) -> (p: Pacer)
        ensures
            p.sending_rate == spec_clamped_rate(initial_rate),
            p.last_send_time is None,
            p.next_send_time is None,
            p.wf(),
    {
        Pacer {
            sending_rate: if initial_rate >= MIN_PACING_RATE {
                initial_rate
            } else {
                MIN_PACING_RATE
            },
            last_send_time: None,
            next_send_time: None,
        }
    }

    /// Replace the target rate, clamped to the floor.
    pub fn update_rate(&mut self, rate: u64)
        ensures
            final(self).sending_rate == spec_clamped_rate(rate),
            final(self).last_send_time == old(self).last_send_time,
            final(self).next_send_time == old(self).next_send_time,
            final(self).wf(),
    {
        self.sending_rate = if rate >= MIN_PACING_RATE {
            rate
        } else {
            MIN_PACING_RATE
        };
    }

    /// The current target rate; at least the floor on any well-formed pacer.
    pub fn get_rate(&self) -> (r: u64)
        ensures
            r == self.sending_rate,
            self.wf() ==> r >= MIN_PACING_RATE,
    {
        self.sending_rate
    }

    /// Schedule the send of `packet_size` bytes at clock reading `now`:
    /// `None` means send at once (the schedule was not ahead of `now`);
    /// `Some(wait)` means hold the packet for `wait` microseconds. The
    /// ideal send time, not `now`, is charged when waiting, so bursts are
    /// absorbed rather than forgotten.
    pub fn schedule_next_send(&mut self, packet_size: usize, now: u64) -> (wait: Option<u64>)
        requires
            old(self).wf(),
        ensures
            final(self).sending_rate == old(self).sending_rate,
            final(self).wf(),
            spec_schedule_outcome(
                *old(self),
                packet_size,
                now,
                *final(self),
                wait,
            ),
    {
        let dur = send_duration_micros(packet_size, self.sending_rate);
        match self.last_send_time {
            None => {
                self.last_send_time = Some(now);
                self.next_send_time = Some(sat_add(now, dur));
                None
            },
            Some(last) => {
                let ideal = sat_add(last, dur);
                if now >= ideal {
                    self.last_send_time = Some(now);
                    self.next_send_time = Some(sat_add(now, dur));
                    None
                } else {
                    let wait = ideal - now;
                    self.last_send_time = Some(ideal);
                    self.next_send_time = Some(sat_add(ideal, dur));
                    Some(wait)
                }
            },
        }
    }
}

/// `a + b`, saturated to `u64::MAX`.
pub fn sat_add(a: u64, b: u64) -> (r: u64)
    ensures
        r == spec_sat_add(a, b),
{
    if a <= u64::MAX - b {
        a + b
    } else {
        u64::MAX
    }
}

/// Microseconds that sending `size` bytes takes at `rate` bytes per second.
pub fn send_duration_micros(size: usize, rate: u64) -> (r: u64)
    requires
        rate > 0,
    ensures
        r == spec_send_duration_micros(size, rate),
{
    let v: u128 = (size as u128) * 1_000_000u128 / (rate as u128);
    if v > u64::MAX as u128 {
        assert(size * 1_000_000 / (rate as int) > u64::MAX);
        u64::MAX
    } else {
        assert(v == size * 1_000_000 / (rate as int));
        v as u64
    }
}

} // verus!
