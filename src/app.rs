use vstd::prelude::*;

use crate::pomodoro::{PomodoroState, PomodoroTimer};
use crate::stats::{
    distinct_apps, lemma_total_within_span, lemma_usage_bounded, lemma_usage_map_absent,
    lemma_usage_map_lookup, lemma_usage_map_update, total_duration, usage_map, usage_of, AppUsage,
    Stats,
};
use crate::time::{Duration, Instant};

verus! {

/// Settings for break reminders.
#[derive(Clone, Copy, Debug)]
pub struct Config {
    pub break_duration: Duration,
    pub break_interval: Duration,
    pub eye_strain_break_interval: Duration,
    pub eye_strain_break_duration: Duration,
}

/// One stretch of time during which a single application held focus.
#[derive(Debug)]
pub struct Session {
    pub start_at: Instant,
    pub end_at: Instant,
    /// The focused application's name as the probe reported it.
    pub app: String,
    /// The window title seen when the session opened.
    pub window_title: String,
}

impl Clone for Session {
    fn clone(&self) -> (r: Session)
        ensures
            r == *self,
    {
        Session {
            start_at: self.start_at,
            end_at: self.end_at,
            app: self.app.clone(),
            window_title: self.window_title.clone(),
        }
    }
}

impl Session {
    pub open spec fn well_formed(self) -> bool {
        self.start_at.nanos <= self.end_at.nanos
    }

    /// Length of the session in nanoseconds.
    pub open spec fn duration(self) -> nat {
        if self.end_at.nanos >= self.start_at.nanos {
            (self.end_at.nanos - self.start_at.nanos) as nat
        } else {
            0
        }
    }
}

/// Sessions that each end no earlier than they start, and that follow one
/// another without overlapping (one may end at the instant the next starts).
pub open spec fn log_ordered(log: Seq<Session>) -> bool {
    &&& forall|i: int| 0 <= i < log.len() ==> #[trigger] log[i].well_formed()
    &&& forall|i: int, j: int|
        0 <= i < j < log.len() ==> #[trigger] log[i].end_at.nanos <= #[trigger] log[j].start_at.nanos
}

/// A session opened at `now`, not yet extended.
pub open spec fn opened(app: String, window_title: String, now: Instant) -> Session {
    Session { start_at: now, end_at: now, app, window_title }
}

/// The time a sample taken at `now` is stamped with: a clock that reads
/// earlier than the active session's end counts as no time passing.
pub open spec fn stamp(active: Option<Session>, now: Instant) -> Instant {
    match active {
        Some(a) => if now.nanos >= a.end_at.nanos {
            now
        } else {
            a.end_at
        },
        None => now,
    }
}

/// The closed-session log after a sample of application `app` at `now`.
pub open spec fn next_log(log: Seq<Session>, active: Option<Session>, app: String, now: Instant) -> Seq<
    Session,
> {
    match active {
        Some(a) => if a.app@ == app@ {
            log
        } else {
            log.push(Session { end_at: stamp(active, now), ..a })
        },
        None => log,
    }
}

/// The active session after a sample `(app, window_title)` at `now`: the
/// first sample opens one; one of the same application extends it, whatever
/// the title; one of another application opens a new one.
pub open spec fn next_active(
    active: Option<Session>,
    app: String,
    window_title: String,
    now: Instant,
) -> Option<Session> {
    match active {
        Some(a) => if a.app@ == app@ {
            Some(Session { end_at: stamp(active, now), ..a })
        } else {
            Some(opened(app, window_title, stamp(active, now)))
        },
        None => Some(opened(app, window_title, now)),
    }
}

/// A closed-session log and active session that fit together: the log is
/// ordered, the active session is well formed and starts no earlier than the
/// last closed one ends, and there is no closed session without an active
/// one.
pub open spec fn tracker_ok(log: Seq<Session>, active: Option<Session>) -> bool {
    &&& log_ordered(log)
    &&& match active {
        Some(a) => {
            &&& a.well_formed()
            &&& log.len() > 0 ==> log.last().end_at.nanos <= a.start_at.nanos
        },
        None => log.len() == 0,
    }
}

/// Everything the update loop owns: break settings, the session tracker and
/// its statistics, and the pomodoro timer.
#[derive(Debug)]
pub struct AppState {
    pub config: Config,
    /// Closed sessions, oldest first.
    pub sessions: Vec<Session>,
    /// The session of the application focused now; none before the first
    /// sample.
    pub active_session: Option<Session>,
    /// Totals over `sessions` alone: the active session counts once closed.
    pub stats: Stats,
    pub pomodoro_timer: PomodoroTimer,
}

impl AppState {
    pub open spec fn well_formed(&self) -> bool {
        &&& tracker_ok(self.sessions@, self.active_session)
        &&& self.stats.well_formed()
        &&& self.stats@ == usage_of(self.sessions@)
    }

    /// A fresh state: nothing observed yet, default break settings, and a
    /// 25 / 5 / 15 minute pomodoro timer with a long break every 4 cycles.
    pub fn new() -> (r: Self)
        ensures
            r.well_formed(),
            r.sessions@.len() == 0,
            r.active_session.is_none(),
            r.stats@ == Map::<Seq<char>, (nat, nat)>::empty(),
            r.config.break_duration.nanos == 10 * 1_000_000_000,
            r.config.break_interval.nanos == 60 * 1_000_000_000,
            r.config.eye_strain_break_interval.nanos == 60 * 1_000_000_000,
            r.config.eye_strain_break_duration.nanos == 10 * 1_000_000_000,
            r.pomodoro_timer.state == PomodoroState::Idle,
            r.pomodoro_timer.work_duration.nanos == 25 * 60 * 1_000_000_000,
            r.pomodoro_timer.short_break_duration.nanos == 5 * 60 * 1_000_000_000,
            r.pomodoro_timer.long_break_duration.nanos == 15 * 60 * 1_000_000_000,
            r.pomodoro_timer.cycles == 0,
            r.pomodoro_timer.cycles_before_long_break == 4,
            r.pomodoro_timer.elapsed.nanos == 0,
    {
        let config = Config {
            break_duration: Duration::from_secs(10),
            break_interval: Duration::from_secs(60),
            eye_strain_break_interval: Duration::from_secs(60),
            eye_strain_break_duration: Duration::from_secs(10),
        };
        let pomodoro_timer = PomodoroTimer::new(
            Duration::from_secs(25 * 60),
            Duration::from_secs(5 * 60),
            Duration::from_secs(15 * 60),
            4,
        );
        let r = AppState {
            config,
            sessions: Vec::new(),
            active_session: None,
            stats: Stats { per_app: Vec::new() },
            pomodoro_timer,
        };
        assert(r.sessions@ =~= Seq::<Session>::empty());
        r
    }

    /// Folds the closed-session log into per-application totals. The log is
    /// ordered, which keeps every total within the span it covers, so no sum
    /// overflows.
    pub fn compute_stats(&self) -> (r: Stats)
        requires
            log_ordered(self.sessions@),
        ensures
            r.well_formed(),
            r@ == usage_of(self.sessions@),
    {
        let ghost log = self.sessions@;
        let n = self.sessions.len();
        let mut per_app: Vec<AppUsage> = Vec::new();
        let mut i: usize = 0;
        assert(log.take(0) =~= Seq::<Session>::empty());
        while i < n
            invariant
                n == log.len(),
                log == self.sessions@,
                log_ordered(log),
                0 <= i <= n,
                distinct_apps(per_app@),
                usage_map(per_app@) == usage_of(log.take(i as int)),
            decreases n - i,
        {
            let s = &self.sessions[i];
            let ghost done = log.take(i as int);
            let ghost upto = log.take(i + 1);
            proof {
                assert(upto.drop_last() =~= done);
                assert(upto.last() == log[i as int]);
                assert(log[i as int].well_formed());
                assert(log_ordered(upto)) by {
                    assert forall|a: int| 0 <= a < upto.len() implies #[trigger] upto[a].well_formed() by {
                        assert(upto[a] == log[a]);
                    }
                    assert forall|a: int, b: int| 0 <= a < b < upto.len() implies #[trigger] upto[a].end_at.nanos
                        <= #[trigger] upto[b].start_at.nanos by {
                        assert(upto[a] == log[a] && upto[b] == log[b]);
                    }
                }
                lemma_usage_bounded(upto);
                lemma_total_within_span(upto);
            }
            let d = s.end_at.nanos - s.start_at.nanos;
            let mut j: usize = 0;
            let mut found: bool = false;
            while !found && j < per_app.len()
                invariant
                    j <= per_app.len(),
                    found ==> j < per_app.len() && per_app@[j as int].app@ == s.app@,
                    !found ==> forall|q: int| 0 <= q < j ==> per_app@[q].app@ != s.app@,
                decreases per_app.len() - j + (if found { 0int } else { 1int }),
            {
                if per_app[j].app == s.app {
                    found = true;
                } else {
                    j = j + 1;
                }
            }
            let ghost before = per_app@;
            if found {
                proof {
                    lemma_usage_map_lookup(before, j as int);
                    let k = s.app@;
                    assert(usage_of(done).contains_key(k));
                    assert(usage_of(upto).contains_key(k));
                    assert(usage_of(upto)[k].0 == before[j as int].total_time.nanos + log[
                        i as int
                    ].duration());
                    assert(usage_of(upto)[k].1 == before[j as int].session_count + 1);
                    assert(d == log[i as int].duration());
                    assert(total_duration(upto) <= u64::MAX);
                }
                let total = per_app[j].total_time.nanos + d;
                let count = per_app[j].session_count + 1;
                let entry = AppUsage {
                    app: s.app.clone(),
                    total_time: Duration::from_nanos(total),
                    session_count: count,
                };
                per_app.set(j, entry);
                proof {
                    lemma_usage_map_update(before, j as int, entry);
                    assert(distinct_apps(per_app@)) by {
                        assert forall|a: int, b: int| 0 <= a < b < per_app@.len() implies #[trigger] per_app@[a].app@
                            != #[trigger] per_app@[b].app@ by {
                            assert(before[a].app@ != before[b].app@);
                        }
                    }
                }
            } else {
                proof {
                    lemma_usage_map_absent(before, s.app@);
                    assert(total_duration(upto) <= u64::MAX);
                }
                let entry = AppUsage {
                    app: s.app.clone(),
                    total_time: Duration::from_nanos(d),
                    session_count: 1,
                };
                per_app.push(entry);
                proof {
                    assert(per_app@.drop_last() =~= before);
                    assert(distinct_apps(per_app@)) by {
                        assert forall|a: int, b: int| 0 <= a < b < per_app@.len() implies #[trigger] per_app@[a].app@
                            != #[trigger] per_app@[b].app@ by {
                            if b < before.len() {
                                assert(before[a].app@ != before[b].app@);
                            }
                        }
                    }
                }
            }
            i = i + 1;
        }
        assert(log.take(n as int) =~= log);
        Stats { per_app }
    }

    /// Takes one focus sample `(app, window_title)` observed at `now` and
    /// returns the next state: the first sample opens the active session, a
    /// sample of the same application extends it to `now`, and a sample of
    /// another application closes it at `now` into the log and opens a new
    /// one there. The statistics are folded anew from the closed sessions.
    pub fn run_check(&self, app: String, window_title: String, now: Instant) -> (r: AppState)
        requires
            self.well_formed(),
        ensures
            r.well_formed(),
            r.sessions@ == next_log(self.sessions@, self.active_session, app, now),
            r.active_session == next_active(self.active_session, app, window_title, now),
            r.active_session.is_some(),
            r.stats@ == usage_of(r.sessions@),
            r.config == self.config,
            r.pomodoro_timer == self.pomodoro_timer,
    {
        let mut sessions = self.sessions.clone();
        assert(sessions@ =~= self.sessions@);
        let active = match &self.active_session {
            None => Session { start_at: now, end_at: now, app, window_title },
            Some(a) => {
                let at = if now.nanos >= a.end_at.nanos {
                    now
                } else {
                    a.end_at
                };
                if a.app == app {
                    let mut extended = a.clone();
                    extended.end_at = at;
                    extended
                } else {
                    let mut closed = a.clone();
                    closed.end_at = at;
                    sessions.push(closed);
                    Session { start_at: at, end_at: at, app, window_title }
                }
            },
        };
        let mut r = AppState {
            config: self.config,
            sessions,
            active_session: Some(active),
            stats: Stats { per_app: Vec::new() },
            pomodoro_timer: self.pomodoro_timer,
        };
        proof {
            lemma_advance_keeps_order(self.sessions@, self.active_session, app, window_title, now);
        }
        r.stats = r.compute_stats();
        r
    }
}

/// A sample keeps the tracker in order: closed sessions never overlap and
/// come in order of their start, and the active session begins where the
/// last closed one ends or later.
pub proof fn lemma_advance_keeps_order(
    log: Seq<Session>,
    active: Option<Session>,
    app: String,
    window_title: String,
    now: Instant,
)
    requires
        tracker_ok(log, active),
    ensures
        tracker_ok(
            next_log(log, active, app, now),
            next_active(active, app, window_title, now),
        ),
{
    let l = next_log(log, active, app, now);
    if let Some(a) = active {
        if a.app@ != app@ {
            let c = Session { end_at: stamp(active, now), ..a };
            assert(l == log.push(c));
            assert forall|i: int| 0 <= i < l.len() implies #[trigger] l[i].well_formed() by {
                if i < log.len() {
                    assert(l[i] == log[i]);
                }
            }
            assert forall|i: int, j: int| 0 <= i < j < l.len() implies #[trigger] l[i].end_at.nanos
                <= #[trigger] l[j].start_at.nanos by {
                assert(l[i] == log[i]);
                if j < log.len() {
                    assert(l[j] == log[j]);
                } else {
                    assert(log[i].end_at.nanos <= log[log.len() - 1].end_at.nanos) by {
                        if i < log.len() - 1 {
                            assert(log[i].end_at.nanos <= log[log.len() - 1].start_at.nanos);
                            assert(log[log.len() - 1].well_formed());
                        }
                    }
                }
            }
        }
    }
}

/// The closed-session log and active session after feeding the samples
/// `(app, window_title, now)` one by one to a tracker that has seen nothing.
pub open spec fn replay(samples: Seq<(String, String, Instant)>) -> (Seq<Session>, Option<Session>)
    decreases samples.len(),
{
    if samples.len() == 0 {
        (Seq::empty(), None)
    } else {
        let prev = replay(samples.drop_last());
        let (app, window_title, now) = samples.last();
        (next_log(prev.0, prev.1, app, now), next_active(prev.1, app, window_title, now))
    }
}

/// Whatever samples come, in whatever order and with whatever clock
/// readings, the closed sessions never overlap and are ordered by start.
pub proof fn lemma_replay_never_overlaps(samples: Seq<(String, String, Instant)>)
    ensures
        tracker_ok(replay(samples).0, replay(samples).1),
        log_ordered(replay(samples).0),
        forall|i: int, j: int|
            0 <= i < j < replay(samples).0.len() ==> #[trigger] replay(samples).0[i].start_at.nanos
                <= #[trigger] replay(samples).0[j].start_at.nanos,
    decreases samples.len(),
{
    if samples.len() > 0 {
        lemma_replay_never_overlaps(samples.drop_last());
        let prev = replay(samples.drop_last());
        let (app, window_title, now) = samples.last();
        lemma_advance_keeps_order(prev.0, prev.1, app, window_title, now);
    }
    let log = replay(samples).0;
    assert forall|i: int, j: int| 0 <= i < j < log.len() implies #[trigger] log[i].start_at.nanos
        <= #[trigger] log[j].start_at.nanos by {
        assert(log[i].well_formed());
        assert(log[i].end_at.nanos <= log[j].start_at.nanos);
    }
}

/// Two samples of the same application in a row add no closed session: the
/// second only moves the end of the active session, which keeps its start
/// and the window title it opened with.
pub proof fn lemma_same_app_coalesces(
    log: Seq<Session>,
    active: Option<Session>,
    app: String,
    first_title: String,
    first_now: Instant,
    again: String,
    second_title: String,
    second_now: Instant,
)
    requires
        again@ == app@,
    ensures
        ({
            let log1 = next_log(log, active, app, first_now);
            let active1 = next_active(active, app, first_title, first_now);
            let log2 = next_log(log1, active1, again, second_now);
            let active2 = next_active(active1, again, second_title, second_now);
            &&& log2 == log1
            &&& active2 == Some(Session { end_at: stamp(active1, second_now), ..active1.unwrap() })
        }),
{
}

} // verus!
