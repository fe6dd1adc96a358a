use background::pomodoro::{PomodoroState, PomodoroTimer};
use background::time::{Duration, Instant};

fn make_timer() -> PomodoroTimer {
    PomodoroTimer::new(
        Duration::from_millis(100), // work
        Duration::from_millis(50),  // short break
        Duration::from_millis(200), // long break
        4,                          // cycles before long break
    )
}

#[test]
fn test_initial_state() {
    let timer = make_timer();
    assert_eq!(timer.state, PomodoroState::Idle);
    assert_eq!(timer.cycles, 0);
    assert_eq!(timer.elapsed, Duration::zero());
    assert_eq!(timer.time_left(), Duration::zero());
    assert!(!timer.is_running());
}

#[test]
fn test_start_and_work_transition() {
    let mut timer = make_timer();
    timer.start(Instant::from_nanos(0));
    assert_eq!(timer.state, PomodoroState::Work);
    assert!(timer.is_running());
    assert_eq!(timer.cycles, 0);
    // Simulate work period elapsed
    timer.elapsed = timer.work_duration;
    timer.update(timer.last_transition);
    assert_eq!(timer.state, PomodoroState::ShortBreak);
    assert_eq!(timer.cycles, 1);
    assert_eq!(timer.elapsed, Duration::zero());
}

#[test]
fn test_short_break_to_work() {
    let mut timer = make_timer();
    timer.state = PomodoroState::ShortBreak;
    timer.elapsed = timer.short_break_duration;
    timer.update(timer.last_transition);
    assert_eq!(timer.state, PomodoroState::Work);
    assert_eq!(timer.elapsed, Duration::zero());
}

#[test]
fn test_long_break_to_work() {
    let mut timer = make_timer();
    timer.state = PomodoroState::LongBreak;
    timer.elapsed = timer.long_break_duration;
    timer.update(timer.last_transition);
    assert_eq!(timer.state, PomodoroState::Work);
    assert_eq!(timer.elapsed, Duration::zero());
}

#[test]
fn test_cycles_and_long_break() {
    let mut timer = make_timer();
    timer.start(Instant::from_nanos(0));
    for i in 1..=4 {
        timer.elapsed = timer.work_duration;
        timer.update(timer.last_transition);
        if i < 4 {
            assert_eq!(timer.state, PomodoroState::ShortBreak);
            timer.elapsed = timer.short_break_duration;
            timer.update(timer.last_transition);
            assert_eq!(timer.state, PomodoroState::Work);
        } else {
            assert_eq!(timer.state, PomodoroState::LongBreak);
            timer.elapsed = timer.long_break_duration;
            timer.update(timer.last_transition);
            assert_eq!(timer.state, PomodoroState::Work);
        }
    }
    assert_eq!(timer.cycles, 4);
}

#[test]
fn test_reset() {
    let mut timer = make_timer();
    timer.start(Instant::from_nanos(0));
    timer.elapsed = timer.work_duration;
    timer.update(timer.last_transition);
    timer.reset();
    assert_eq!(timer.state, PomodoroState::Idle);
    assert_eq!(timer.cycles, 0);
    assert_eq!(timer.elapsed, Duration::zero());
    assert!(!timer.is_running());
}

#[test]
fn test_time_left() {
    let mut timer = make_timer();
    timer.start(Instant::from_nanos(0));
    timer.elapsed = Duration::from_millis(30);
    assert_eq!(timer.time_left(), Duration::from_millis(70));
    timer.state = PomodoroState::ShortBreak;
    timer.elapsed = Duration::from_millis(10);
    assert_eq!(timer.time_left(), Duration::from_millis(40));
    timer.state = PomodoroState::LongBreak;
    timer.elapsed = Duration::from_millis(100);
    assert_eq!(timer.time_left(), Duration::from_millis(100));
    timer.state = PomodoroState::Idle;
    assert_eq!(timer.time_left(), Duration::zero());
}

fn ms(n: u64) -> Instant {
    Instant::from_nanos(n * 1_000_000)
}

#[test]
fn update_measures_time_between_calls() {
    let mut timer = make_timer();
    timer.start(ms(1_000));
    timer.update(ms(1_040));
    assert_eq!(timer.state, PomodoroState::Work);
    assert_eq!(timer.elapsed, Duration::from_millis(40));
    assert_eq!(timer.last_transition, ms(1_040));
    timer.update(ms(1_100));
    assert_eq!(timer.state, PomodoroState::ShortBreak);
    assert_eq!(timer.cycles, 1);
    assert_eq!(timer.elapsed, Duration::zero());
}

#[test]
fn update_with_backwards_clock_adds_nothing() {
    let mut timer = make_timer();
    timer.start(ms(500));
    timer.update(ms(530));
    timer.update(ms(200));
    assert_eq!(timer.elapsed, Duration::from_millis(30));
    assert_eq!(timer.last_transition, ms(200));
    assert_eq!(timer.state, PomodoroState::Work);
}

#[test]
fn long_pause_crosses_one_threshold_per_update() {
    let mut timer = make_timer();
    timer.start(ms(0));
    timer.update(ms(3_600_000));
    assert_eq!(timer.state, PomodoroState::ShortBreak);
    assert_eq!(timer.cycles, 1);
    assert_eq!(timer.elapsed, Duration::zero());
}

#[test]
fn idle_accrues_elapsed_without_transition() {
    let mut timer = make_timer();
    timer.update(ms(700));
    assert_eq!(timer.state, PomodoroState::Idle);
    assert_eq!(timer.elapsed, Duration::from_millis(700));
    assert_eq!(timer.time_left(), Duration::zero());
    timer.start(ms(800));
    assert_eq!(timer.elapsed, Duration::zero());
}

#[test]
fn start_restarts_work_and_keeps_cycles() {
    let mut timer = make_timer();
    timer.start(ms(0));
    timer.elapsed = timer.work_duration;
    timer.update(ms(0));
    assert_eq!(timer.cycles, 1);
    timer.start(ms(10));
    assert_eq!(timer.state, PomodoroState::Work);
    assert_eq!(timer.cycles, 1);
    timer.update(ms(60));
    timer.start(ms(70));
    assert_eq!(timer.elapsed, Duration::zero());
    assert_eq!(timer.cycles, 1);
}

#[test]
fn cycles_never_decrease_and_breaks_follow_threshold() {
    let mut timer = PomodoroTimer::new(
        Duration::from_millis(100),
        Duration::from_millis(50),
        Duration::from_millis(200),
        3,
    );
    timer.start(ms(0));
    let mut now = 0;
    let mut last_cycles = 0;
    for k in 1..=7u32 {
        now += 100;
        timer.update(ms(now));
        assert!(timer.cycles >= last_cycles);
        last_cycles = timer.cycles;
        assert_eq!(timer.cycles, k);
        if k % 3 == 0 {
            assert_eq!(timer.state, PomodoroState::LongBreak);
            now += 200;
        } else {
            assert_eq!(timer.state, PomodoroState::ShortBreak);
            now += 50;
        }
        timer.update(ms(now));
        assert_eq!(timer.state, PomodoroState::Work);
        assert_eq!(timer.cycles, k);
    }
}

#[test]
fn time_left_never_exceeds_configured_duration() {
    let mut timer = make_timer();
    timer.start(ms(0));
    assert_eq!(timer.time_left(), Duration::from_millis(100));
    timer.elapsed = Duration::from_millis(250);
    assert_eq!(timer.time_left(), Duration::zero());
    timer.state = PomodoroState::LongBreak;
    timer.elapsed = Duration::zero();
    assert_eq!(timer.time_left(), Duration::from_millis(200));
}

#[test]
fn durations_convert_exactly() {
    assert_eq!(Duration::from_millis(3).nanos, 3_000_000);
    assert_eq!(Duration::from_secs(2).nanos, 2_000_000_000);
    assert_eq!(Duration::from_secs(125).as_secs(), 125);
    assert_eq!(Duration::from_millis(1_999).as_secs(), 1);
    assert_eq!(
        Duration::from_millis(5).saturating_sub(Duration::from_millis(2)),
        Duration::from_millis(3)
    );
    assert_eq!(
        Duration::from_millis(2).saturating_sub(Duration::from_millis(5)),
        Duration::zero()
    );
    assert_eq!(
        Duration::from_nanos(u64::MAX - 1).saturating_add(Duration::from_nanos(5)),
        Duration::from_nanos(u64::MAX)
    );
    assert_eq!(
        Instant::from_nanos(10).saturating_duration_since(Instant::from_nanos(4)),
        Duration::from_nanos(6)
    );
    assert_eq!(
        Instant::from_nanos(4).saturating_duration_since(Instant::from_nanos(10)),
        Duration::zero()
    );
}
