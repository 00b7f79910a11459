use countdown::cmd::TimerOpt;
use countdown::parse::DurationParseError;
use countdown::session::{Message, TimerState};
use countdown::timer::TimeoutDuration;

#[test]
fn total_seconds_formula() {
    let d = TimeoutDuration::new(1, 15, 60);
    assert_eq!(d.total_seconds(), 4560);
    assert_eq!(d.total_seconds(), 4560);
    assert_eq!(d, TimeoutDuration::new(1, 15, 60));
    assert!(!d.is_zero());
    assert!(TimeoutDuration::new(0, 0, 0).is_zero());
}

#[test]
fn ticks_count_and_timeout_fires_one_tick_late() {
    let mut d = TimeoutDuration::new(0, 0, 3);
    for n in 0..=3 {
        assert_eq!(d.progress, n);
        assert!(!d.is_timeout());
        d.tick();
    }
    assert_eq!(d.progress, 4);
    assert!(d.is_timeout());
    d.tick();
    assert!(d.is_timeout());
    assert_eq!(d.hours, 0);
    assert_eq!(d.seconds, 3);
}

#[test]
fn remaining_display_counts_down_into_overtime() {
    let mut d = TimeoutDuration::new(0, 0, 10);
    assert_eq!(d.remaining_display(), "00:00:10");
    for _ in 0..10 {
        d.tick();
    }
    assert_eq!(d.remaining_display(), "-00:00:00");
    for _ in 0..5 {
        d.tick();
    }
    assert_eq!(d.remaining_display(), "-00:00:05");
}

#[test]
fn remaining_display_wide_fields() {
    let d = TimeoutDuration::new(24, 0, 0);
    assert_eq!(d.remaining_display(), "24:00:00");
    let d = TimeoutDuration::new(1, 15, 30);
    assert_eq!(d.remaining_display(), "01:15:30");
    let d = TimeoutDuration { hours: 0, minutes: 0, seconds: 1, progress: 360_001 };
    assert_eq!(d.remaining_display(), "-100:00:00");
    let d = TimeoutDuration::new(0, 90, 0);
    assert_eq!(d.remaining_display(), "01:30:00");
}

#[test]
fn total_duration_shows_elapsed() {
    let mut d = TimeoutDuration::new(0, 0, 10);
    assert_eq!(d.total_duration(), "Total duration: 00:00:00");
    for _ in 0..3725 {
        d.tick();
    }
    assert_eq!(d.total_duration(), "Total duration: 01:02:05");
}

#[test]
fn summary_shows_configured_fields() {
    let d = TimeoutDuration::new(1, 15, 0);
    assert_eq!(d.summary(), "Total time: 1 Hour 15 Minutes 0 Seconds");
    let d = TimeoutDuration::new(0, 90, 125);
    assert_eq!(d.summary(), "Total time: 0 Hour 90 Minutes 125 Seconds");
}

#[test]
fn is_valid_boundary() {
    let day = TimeoutDuration::new(0, 0, 86400);
    assert_eq!(day.is_valid().unwrap(), TimeoutDuration::new(0, 0, 86400));
    assert!(matches!(
        TimeoutDuration::new(0, 0, 86401).is_valid(),
        Err(DurationParseError::OverLimit)
    ));
}

#[test]
fn default_is_empty() {
    assert_eq!(TimeoutDuration::default(), TimeoutDuration::new(0, 0, 0));
}

#[test]
fn session_pause_resume_and_single_notification() {
    let opt = TimerOpt { duration: TimeoutDuration::new(0, 0, 2), title: String::from("tea") };
    let mut s = TimerState::new(opt);
    assert_eq!(s.title, "tea");
    assert_eq!(s.button_label(), "Pause");
    assert_eq!(s.on_press_command(), Message::Stop);
    assert!(!s.update(Message::Tick));
    assert!(!s.update(Message::Stop));
    assert!(s.pause);
    assert_eq!(s.button_label(), "Start");
    assert_eq!(s.on_press_command(), Message::Start);
    assert!(!s.update(Message::Tick));
    assert_eq!(s.value.progress, 1);
    assert!(!s.update(Message::Start));
    assert!(!s.update(Message::Tick));
    assert_eq!(s.value.progress, 2);
    assert!(s.update(Message::Tick));
    assert!(s.notified);
    assert!(!s.update(Message::Tick));
    assert!(!s.update(Message::Tick));
    assert_eq!(s.value.progress, 5);
}
