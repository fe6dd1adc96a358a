use vstd::prelude::*;

use crate::time::{Duration, Instant};

verus! {

/// The phase a pomodoro timer is in.
#[derive(Clone, Copy, Debug, PartialEq, Eq, Structural)]
pub enum PomodoroState {
    Work,
    ShortBreak,
    LongBreak,
    Idle,
}

/// A work / short break / long break cycle driven by the time that passes
/// between calls of `update`.
#[derive(Clone, Copy, Debug)]
pub struct PomodoroTimer {
    pub state: PomodoroState,
    pub work_duration: Duration,
    pub short_break_duration: Duration,
    pub long_break_duration: Duration,
    /// Work periods completed since the last `reset`.
    pub cycles: u32,
    /// Every this many completed work periods the break is a long one.
    pub cycles_before_long_break: u32,
    /// Clock reading at the last `start` or `update`.
    pub last_transition: Instant,
    /// Time spent in the current state.
    pub elapsed: Duration,
}

impl PomodoroTimer {
    /// How long the current state lasts: zero for `Idle`.
    pub open spec fn configured_duration_for(self) -> nat {
        match self.state {
            PomodoroState::Work => self.work_duration.nanos as nat,
            PomodoroState::ShortBreak => self.short_break_duration.nanos as nat,
            PomodoroState::LongBreak => self.long_break_duration.nanos as nat,
            PomodoroState::Idle => 0,
        }
    }

    /// What `time_left` reports: the configured duration less the elapsed
    /// time, never below zero.
    pub open spec fn remaining(self) -> nat {
        if self.elapsed.nanos >= self.configured_duration_for() {
            0
        } else {
            (self.configured_duration_for() - self.elapsed.nanos) as nat
        }
    }

    /// The timer that `start` leaves behind.
    pub open spec fn started(self, now: Instant) -> PomodoroTimer {
        PomodoroTimer {
            state: PomodoroState::Work,
            last_transition: now,
            elapsed: Duration { nanos: 0 },
            ..self
        }
    }

    /// The timer that `reset` leaves behind.
    pub open spec fn cleared(self) -> PomodoroTimer {
        PomodoroTimer {
            state: PomodoroState::Idle,
            cycles: 0,
            elapsed: Duration { nanos: 0 },
            ..self
        }
    }

    /// Elapsed time after adding what passed since the last transition: a
    /// clock that went backwards adds nothing, and the sum stops at the
    /// longest representable span.
    pub open spec fn accrued(self, now: Instant) -> u64 {
        let delta: int = if now.nanos >= self.last_transition.nanos {
            now.nanos - self.last_transition.nanos
        } else {
            0
        };
        if self.elapsed.nanos + delta <= u64::MAX {
            (self.elapsed.nanos + delta) as u64
        } else {
            u64::MAX
        }
    }

    /// Whether `update` may run on this timer: a work period that ends has
    /// to be counted and classified.
    pub open spec fn can_update(self) -> bool {
        self.state == PomodoroState::Work ==> {
            &&& self.cycles < u32::MAX
            &&& self.cycles_before_long_break > 0
        }
    }

    /// The timer that `update(now)` leaves behind: the elapsed time grows by
    /// what passed since the last transition, then at most one threshold
    /// crossing of the current state is processed.
    pub open spec fn stepped(self, now: Instant) -> PomodoroTimer {
        let el = self.accrued(now);
        let t = PomodoroTimer { last_transition: now, elapsed: Duration { nanos: el }, ..self };
        match self.state {
            PomodoroState::Work => if el >= self.work_duration.nanos {
                let k = (self.cycles + 1) as u32;
                PomodoroTimer {
                    state: if k % self.cycles_before_long_break == 0 {
                        PomodoroState::LongBreak
                    } else {
                        PomodoroState::ShortBreak
                    },
                    cycles: k,
                    elapsed: Duration { nanos: 0 },
                    ..t
                }
            } else {
                t
            },
            PomodoroState::ShortBreak => if el >= self.short_break_duration.nanos {
                PomodoroTimer { state: PomodoroState::Work, elapsed: Duration { nanos: 0 }, ..t }
            } else {
                t
            },
            PomodoroState::LongBreak => if el >= self.long_break_duration.nanos {
                PomodoroTimer { state: PomodoroState::Work, elapsed: Duration { nanos: 0 }, ..t }
            } else {
                t
            },
            PomodoroState::Idle => t,
        }
    }

    /// An idle timer with the given durations, no completed cycles, and its
    /// clock reading at the origin.
    pub fn new(
        work: Duration,
        short_break: Duration,
        long_break: Duration,
        cycles_before_long_break: u32,
    ) -> (r: Self)
        ensures
            r.state == PomodoroState::Idle,
            r.work_duration == work,
            r.short_break_duration == short_break,
            r.long_break_duration == long_break,
            r.cycles == 0,
            r.cycles_before_long_break == cycles_before_long_break,
            r.last_transition.nanos == 0,
            r.elapsed.nanos == 0,
    {
        PomodoroTimer {
            state: PomodoroState::Idle,
            work_duration: work,
            short_break_duration: short_break,
            long_break_duration: long_break,
            cycles: 0,
            cycles_before_long_break,
            last_transition: Instant::from_nanos(0),
            elapsed: Duration::zero(),
        }
    }

    /// Begins a work period at `now`, from any state.
    pub fn start(&mut self, now: Instant)
        ensures
            *final(self) == old(self).started(now),
    {
        self.state = PomodoroState::Work;
        self.last_transition = now;
        self.elapsed = Duration::zero();
    }

    /// Back to `Idle` with no completed cycles.
    pub fn reset(&mut self)
        ensures
            *final(self) == old(self).cleared(),
    {
        self.state = PomodoroState::Idle;
        self.cycles = 0;
        self.elapsed = Duration::zero();
    }

    /// Advances the timer to the clock reading `now`. An idle timer still
    /// accrues elapsed time, which stays inert until the next `start`.
    pub fn update(&mut self, now: Instant)
        requires
            old(self).can_update(),
        ensures
            *final(self) == old(self).stepped(now),
    {
        let delta = now.saturating_duration_since(self.last_transition);
        self.elapsed = self.elapsed.saturating_add(delta);
        self.last_transition = now;
        match self.state {
            PomodoroState::Work => {
                if self.elapsed.nanos >= self.work_duration.nanos {
                    self.cycles = self.cycles + 1;
                    self.elapsed = Duration::zero();
                    if self.cycles % self.cycles_before_long_break == 0 {
                        self.state = PomodoroState::LongBreak;
                    } else {
                        self.state = PomodoroState::ShortBreak;
                    }
                }
            },
            PomodoroState::ShortBreak => {
                if self.elapsed.nanos >= self.short_break_duration.nanos {
                    self.state = PomodoroState::Work;
                    self.elapsed = Duration::zero();
                }
            },
            PomodoroState::LongBreak => {
                if self.elapsed.nanos >= self.long_break_duration.nanos {
                    self.state = PomodoroState::Work;
                    self.elapsed = Duration::zero();
                }
            },
            PomodoroState::Idle => {},
        }
    }

    pub fn is_running(&self) -> (r: bool)
        ensures
            r == (self.state != PomodoroState::Idle),
    {
        self.state != PomodoroState::Idle
    }

    /// Time until the current state ends; zero when idle.
    pub fn time_left(&self) -> (r: Duration)
        ensures
            r.nanos == self.remaining(),
            r.nanos <= self.configured_duration_for(),
            self.state == PomodoroState::Idle ==> r.nanos == 0,
    {
        match self.state {
            PomodoroState::Work => self.work_duration.saturating_sub(self.elapsed),
            PomodoroState::ShortBreak => self.short_break_duration.saturating_sub(self.elapsed),
            PomodoroState::LongBreak => self.long_break_duration.saturating_sub(self.elapsed),
            PomodoroState::Idle => Duration::zero(),
        }
    }
}

/// `cycles` never decreases under `update` or `start`; `reset` is what
/// brings it back to zero.
pub proof fn lemma_cycles_monotone(t: PomodoroTimer, now: Instant)
    requires
        t.can_update(),
    ensures
        t.stepped(now).cycles >= t.cycles,
        t.started(now).cycles == t.cycles,
        t.cleared().cycles == 0,
{
}

/// An update that ends a work period counts it: with `k` the new number of
/// completed work periods and `N` the long-break threshold, the break that
/// follows is long exactly when `k % N == 0`, and short otherwise.
pub proof fn lemma_break_follows_work(t: PomodoroTimer, now: Instant)
    requires
        t.can_update(),
        t.state == PomodoroState::Work,
    ensures
        ({
            let n = t.stepped(now);
            n.state != PomodoroState::Work ==> {
                &&& n.cycles == t.cycles + 1
                &&& n.state == PomodoroState::LongBreak <==> n.cycles % t.cycles_before_long_break
                    == 0
                &&& n.state == PomodoroState::ShortBreak <==> n.cycles % t.cycles_before_long_break
                    != 0
            }
        }),
        t.stepped(now).state != PomodoroState::Idle,
{
}

} // verus!
