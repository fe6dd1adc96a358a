use background::app::{AppState, Session};
use background::stats::Stats;
use background::time::{Duration, Instant};

fn secs(n: u64) -> Instant {
    Instant::from_nanos(n * 1_000_000_000)
}

fn sample(state: &AppState, app: &str, title: &str, at: Instant) -> AppState {
    state.run_check(app.to_string(), title.to_string(), at)
}

fn usage(stats: &Stats, app: &str) -> Option<(Duration, usize)> {
    stats
        .per_app
        .iter()
        .find(|u| u.app == app)
        .map(|u| (u.total_time, u.session_count))
}

fn span(s: &Session) -> (u64, u64) {
    (s.start_at.nanos, s.end_at.nanos)
}

#[test]
fn new_state_has_observed_nothing() {
    let state = AppState::new();
    assert!(state.active_session.is_none());
    assert!(state.sessions.is_empty());
    assert!(state.stats.per_app.is_empty());
    assert_eq!(state.config.break_duration, Duration::from_secs(10));
    assert_eq!(state.config.break_interval, Duration::from_secs(60));
    assert_eq!(state.pomodoro_timer.work_duration, Duration::from_secs(25 * 60));
    assert_eq!(state.pomodoro_timer.short_break_duration, Duration::from_secs(5 * 60));
    assert_eq!(state.pomodoro_timer.long_break_duration, Duration::from_secs(15 * 60));
    assert_eq!(state.pomodoro_timer.cycles_before_long_break, 4);
}

#[test]
fn focus_switch_closes_the_session() {
    let state = AppState::new();
    let state = sample(&state, "Safari", "", secs(0));
    let active = state.active_session.as_ref().unwrap();
    assert_eq!(active.app, "Safari");
    assert_eq!(span(active), (0, 0));
    assert!(state.sessions.is_empty());

    let state = sample(&state, "Safari", "", secs(5));
    let active = state.active_session.as_ref().unwrap();
    assert_eq!(span(active), (0, 5_000_000_000));
    assert!(state.sessions.is_empty());

    let state = sample(&state, "Mail", "", secs(8));
    assert_eq!(state.sessions.len(), 1);
    assert_eq!(state.sessions[0].app, "Safari");
    assert_eq!(span(&state.sessions[0]), (0, 8_000_000_000));
    let active = state.active_session.as_ref().unwrap();
    assert_eq!(active.app, "Mail");
    assert_eq!(span(active), (8_000_000_000, 8_000_000_000));
    assert_eq!(state.stats.per_app.len(), 1);
    assert_eq!(usage(&state.stats, "Safari"), Some((Duration::from_secs(8), 1)));
}

#[test]
fn same_app_with_new_title_extends_the_session() {
    let state = AppState::new();
    let state = sample(&state, "Code", "main.rs", secs(1));
    let state = sample(&state, "Code", "lib.rs", secs(4));
    let state = sample(&state, "Code", "", secs(9));
    assert!(state.sessions.is_empty());
    let active = state.active_session.as_ref().unwrap();
    assert_eq!(active.window_title, "main.rs");
    assert_eq!(span(active), (1_000_000_000, 9_000_000_000));
}

#[test]
fn stats_sum_per_app_over_closed_sessions() {
    let mut state = AppState::new();
    let steps = [
        ("Safari", 0),
        ("Mail", 3),
        ("Safari", 4),
        ("Safari", 6),
        ("Mail", 10),
        ("Terminal", 12),
    ];
    for (app, t) in steps {
        state = sample(&state, app, "", secs(t));
    }
    assert_eq!(state.sessions.len(), 4);
    assert_eq!(usage(&state.stats, "Safari"), Some((Duration::from_secs(9), 2)));
    assert_eq!(usage(&state.stats, "Mail"), Some((Duration::from_secs(3), 2)));
    // The active session is not counted until it closes.
    assert_eq!(usage(&state.stats, "Terminal"), None);
    let recomputed = state.compute_stats();
    assert_eq!(recomputed.per_app.len(), state.stats.per_app.len());
    for u in &recomputed.per_app {
        assert_eq!(usage(&state.stats, &u.app), Some((u.total_time, u.session_count)));
    }
}

#[test]
fn quick_flip_flop_gives_zero_length_sessions() {
    let mut state = AppState::new();
    for app in ["A", "B", "A", "B"] {
        state = sample(&state, app, "", secs(7));
    }
    assert_eq!(state.sessions.len(), 3);
    for s in &state.sessions {
        assert_eq!(span(s), (7_000_000_000, 7_000_000_000));
    }
    assert_eq!(usage(&state.stats, "A"), Some((Duration::zero(), 2)));
    assert_eq!(usage(&state.stats, "B"), Some((Duration::zero(), 1)));
}

#[test]
fn backwards_clock_never_shortens_or_overlaps() {
    let state = AppState::new();
    let state = sample(&state, "Safari", "", secs(10));
    let state = sample(&state, "Safari", "", secs(20));
    let state = sample(&state, "Safari", "", secs(15));
    assert_eq!(span(state.active_session.as_ref().unwrap()), (10_000_000_000, 20_000_000_000));
    let state = sample(&state, "Mail", "", secs(12));
    assert_eq!(span(&state.sessions[0]), (10_000_000_000, 20_000_000_000));
    assert_eq!(span(state.active_session.as_ref().unwrap()), (20_000_000_000, 20_000_000_000));
    assert_eq!(usage(&state.stats, "Safari"), Some((Duration::from_secs(10), 1)));
}

#[test]
fn closed_sessions_are_ordered_and_disjoint() {
    let mut state = AppState::new();
    let steps = [("A", 1), ("B", 2), ("B", 5), ("C", 4), ("A", 9), ("", 11), ("A", 11)];
    for (app, t) in steps {
        state = sample(&state, app, "", secs(t));
    }
    let log = &state.sessions;
    assert_eq!(log.len(), 5);
    for s in log {
        assert!(s.start_at.nanos <= s.end_at.nanos);
    }
    for w in log.windows(2) {
        assert!(w[0].end_at.nanos <= w[1].start_at.nanos);
    }
    // An empty probe result is one more application, not dropped.
    assert_eq!(usage(&state.stats, ""), Some((Duration::zero(), 1)));
}

#[test]
fn run_check_leaves_config_and_timer_alone() {
    let state = AppState::new();
    let next = sample(&state, "Finder", "Desktop", secs(3));
    assert_eq!(next.config.eye_strain_break_interval, state.config.eye_strain_break_interval);
    assert_eq!(next.pomodoro_timer.cycles, state.pomodoro_timer.cycles);
    assert_eq!(next.pomodoro_timer.state, state.pomodoro_timer.state);
    assert_eq!(next.active_session.as_ref().unwrap().window_title, "Desktop");
}

#[test]
fn crate_level_constructors_start_empty() {
    for state in [background::create_process(), background::create_appstate()] {
        assert!(state.active_session.is_none());
        assert!(state.sessions.is_empty());
        assert!(state.stats.per_app.is_empty());
        assert_eq!(state.pomodoro_timer.cycles, 0);
    }
}
