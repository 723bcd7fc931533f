use vstd::prelude::*;

verus! {

/// Nanoseconds in a second.
pub const NANOS_PER_SECOND: u64 = 1_000_000_000;

/// The frame interval assumed when no target rate is set: a sixtieth of a
/// second.
pub const FALLBACK_INTERVAL_NS: u64 = 16_666_666;

/// An elapsed time above this (a quarter second) is taken for a stall, such
/// as a window drag, and is not handed on as it stands.
pub const MAX_DT_NS: u64 = 250_000_000;

/// What the frame loop does next.
pub enum TickAction {
    /// Run one tick, with `dt_ns` nanoseconds of elapsed time.
    Tick { dt_ns: u64 },
    /// Sleep until the clock reads `deadline_ns`, then ask again.
    WaitUntil { deadline_ns: u64 },
    /// Closing was asked for: run no more ticks.
    Exit,
}

/// The pacing of ticks. Times are nanoseconds on a monotonic clock.
pub struct FrameScheduler {
    /// The nominal frame interval.
    pub interval_ns: u64,
    /// Whether ticks are held to the interval.
    pub capped: bool,
    /// When the last tick started.
    pub last_tick_ns: Option<u64>,
    /// Whether closing was asked for.
    pub closed: bool,
}

/// The nominal interval for a target rate: a second divided by the rate,
/// or the fallback when uncapped.
pub open spec fn nominal_interval(target_fps: Option<u32>) -> u64 {
    match target_fps {
        Some(f) => if f > 0 {
            (NANOS_PER_SECOND / (f as u64)) as u64
        } else {
            FALLBACK_INTERVAL_NS
        },
        None => FALLBACK_INTERVAL_NS,
    }
}

/// The time handed to client code for `elapsed` nanoseconds since the last
/// tick: the elapsed time itself, or the nominal interval after a stall.
pub open spec fn clamp_dt(elapsed: int, interval: u64) -> u64 {
    if elapsed > MAX_DT_NS {
        interval
    } else {
        elapsed as u64
    }
}

/// The earliest time at which the tick after one started at `last` is due.
pub open spec fn due_time(last: u64, interval: u64) -> int {
    last + interval
}

/// The scheduler's decision at time `now`, and its state afterwards.
pub open spec fn poll_spec(s: FrameScheduler, now: u64) -> (FrameScheduler, TickAction) {
    if s.closed {
        (s, TickAction::Exit)
    } else {
        match s.last_tick_ns {
            None => (FrameScheduler { last_tick_ns: Some(now), ..s }, TickAction::Tick { dt_ns: 0 }),
            Some(last) => if s.capped && now < due_time(last, s.interval_ns) {
                (
                    s,
                    TickAction::WaitUntil {
                        deadline_ns: if due_time(last, s.interval_ns) > u64::MAX {
                            u64::MAX
                        } else {
                            due_time(last, s.interval_ns) as u64
                        },
                    },
                )
            } else {
                (
                    FrameScheduler { last_tick_ns: Some(now), ..s },
                    TickAction::Tick {
                        dt_ns: clamp_dt(
                            if now >= last {
                                now - last
                            } else {
                                0
                            },
                            s.interval_ns,
                        ),
                    },
                )
            },
        }
    }
}

impl FrameScheduler {
    /// The scheduler that `new(target_fps)` makes.
    pub open spec fn spec_new(target_fps: Option<u32>) -> FrameScheduler {
        FrameScheduler {
            interval_ns: nominal_interval(target_fps),
            capped: target_fps is Some && target_fps->0 > 0,
            last_tick_ns: None,
            closed: false,
        }
    }

    /// A scheduler for the given target rate; `None` (or a zero rate) runs
    /// uncapped.
    pub fn new(target_fps: Option<u32>) -> (r: FrameScheduler)
        ensures
            r == Self::spec_new(target_fps),
    {
        let (interval_ns, capped) = match target_fps {
            Some(f) => if f > 0 {
                (NANOS_PER_SECOND / (f as u64), true)
            } else {
                (FALLBACK_INTERVAL_NS, false)
            },
            None => (FALLBACK_INTERVAL_NS, false),
        };
        FrameScheduler { interval_ns, capped, last_tick_ns: None, closed: false }
    }

    /// Asks for closing: no tick runs after this.
    pub fn request_close(&mut self)
        ensures
            final(self).closed,
            final(self).interval_ns == old(self).interval_ns,
            final(self).capped == old(self).capped,
            final(self).last_tick_ns == old(self).last_tick_ns,
    {
        self.closed = true;
    }

    /// Decides, at time `now_ns`, whether to tick now (and with what elapsed
    /// time), to wait for the next deadline, or to stop.
    pub fn poll(&mut self, now_ns: u64) -> (r: TickAction)
        ensures
            *final(self) == poll_spec(*old(self), now_ns).0,
            r == poll_spec(*old(self), now_ns).1,
    {
        if self.closed {
            return TickAction::Exit;
        }
        match self.last_tick_ns {
            None => {
                self.last_tick_ns = Some(now_ns);
                TickAction::Tick { dt_ns: 0 }
            },
            Some(last) => {
                let due: u64 = last.saturating_add(self.interval_ns);
                if self.capped && (now_ns as u128) < (last as u128) + (self.interval_ns as u128) {
                    TickAction::WaitUntil { deadline_ns: due }
                } else {
                    let elapsed: u64 = now_ns.saturating_sub(last);
                    let dt_ns: u64 = if elapsed > MAX_DT_NS {
                        self.interval_ns
                    } else {
                        elapsed
                    };
                    self.last_tick_ns = Some(now_ns);
                    TickAction::Tick { dt_ns }
                }
            },
        }
    }
}

/// With a target rate set, a tick never starts before the nominal interval
/// has passed since the previous tick started: after a tick at `t1`, a poll
/// at `t2` ticks only if `t2 >= t1 + interval`.
pub proof fn ticks_are_spaced(s: FrameScheduler, t1: u64, t2: u64)
    requires
        s.capped,
        poll_spec(s, t1).1 is Tick,
        poll_spec(poll_spec(s, t1).0, t2).1 is Tick,
    ensures
        t2 >= t1 + s.interval_ns,
{
}

/// An elapsed time above the stall threshold reaches client code as the
/// nominal interval; any other passes through unchanged.
pub proof fn stall_is_clamped(s: FrameScheduler, now: u64)
    requires
        !s.closed,
        s.last_tick_ns is Some,
        poll_spec(s, now).1 is Tick,
    ensures
        now - s.last_tick_ns->0 > MAX_DT_NS ==> poll_spec(s, now).1->dt_ns == s.interval_ns,
        0 <= now - s.last_tick_ns->0 <= MAX_DT_NS ==> poll_spec(s, now).1->dt_ns == now
            - s.last_tick_ns->0,
{
}

} // verus!
