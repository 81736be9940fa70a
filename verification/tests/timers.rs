use window_systems::commands::Command;
use window_systems::timeouts::{
    fresh_marker_cleanup, reposition_dragged_window, timeout_ticker, Dragged, Initializing, Span,
    Timeout, Waiting,
};

fn span(secs: u64, nanos: u32) -> Span {
    Span::new(secs, nanos).unwrap()
}

#[test]
fn spans_hold_less_than_a_second_of_nanoseconds() {
    assert_eq!(Span::new(1, 1_000_000_000), None);
    assert_eq!(span(3, 999_999_999).secs(), 3);
    assert_eq!(span(3, 999_999_999).nanos(), 999_999_999);
    assert_eq!(Span::from_secs(4), span(4, 0));
    assert_eq!(Span::zero(), span(0, 0));
}

#[test]
fn a_timeout_adds_up_the_time() {
    let mut timeout = Timeout::new(Span::from_secs(5), None);
    timeout.tick(span(2, 600_000_000));
    assert_eq!(timeout.elapsed, span(2, 600_000_000));
    assert!(!timeout.finished);
    timeout.tick(span(2, 399_999_999));
    assert_eq!(timeout.elapsed, span(4, 999_999_999));
    assert!(!timeout.finished);
    timeout.tick(span(0, 1));
    assert_eq!(timeout.elapsed, span(5, 0));
    assert!(timeout.finished);
}

#[test]
fn a_timeout_ends_at_its_duration() {
    let mut timeout = Timeout::new(span(1, 500), Some(String::from("gone")));
    timeout.tick(Span::from_secs(9));
    let done = Timeout {
        elapsed: span(1, 500),
        duration: span(1, 500),
        finished: true,
        message: Some(String::from("gone")),
    };
    assert_eq!(timeout, done);
    timeout.tick(Span::from_secs(9));
    assert_eq!(timeout, done);
}

#[test]
fn a_timeout_of_no_time_needs_one_tick() {
    let mut timeout = Timeout::new(Span::zero(), None);
    assert!(!timeout.finished);
    timeout.tick(Span::zero());
    assert!(timeout.finished);
}

#[test]
fn time_saturates() {
    let longest = span(u64::MAX, 999_999_999);
    let mut timeout = Timeout::new(longest, None);
    timeout.tick(span(u64::MAX, 999_999_998));
    assert!(!timeout.finished);
    timeout.tick(longest);
    assert!(timeout.finished);
    assert_eq!(timeout.elapsed, longest);
}

#[test]
fn the_ticker_gives_up_after_the_wait() {
    let mut timers = vec![
        Waiting { entity: 1, timeout: Timeout::new(Span::from_secs(1), None) },
        Waiting { entity: 2, timeout: Timeout::new(Span::from_secs(3), None) },
    ];
    assert_eq!(timeout_ticker(&mut timers, Span::from_secs(1)), vec![]);
    assert!(timers[0].timeout.finished);
    assert_eq!(timers[1].timeout.elapsed, Span::from_secs(1));
    assert_eq!(timeout_ticker(&mut timers, Span::from_secs(1)), vec![Command::Despawn(1)]);
    assert_eq!(timers[0].timeout.elapsed, Span::from_secs(1));
    assert_eq!(timers[1].timeout.elapsed, Span::from_secs(2));
}

#[test]
fn what_is_ready_is_no_longer_waited_for() {
    let entries = vec![
        Initializing { entity: 1, fresh: true },
        Initializing { entity: 2, fresh: false },
    ];
    assert_eq!(fresh_marker_cleanup(&entries), vec![Command::RemoveTimeout(2)]);
}

#[test]
fn a_drag_ends_with_its_timeout() {
    let mut over = Timeout::new(Span::from_secs(1), None);
    over.tick(Span::from_secs(1));
    let markers = vec![
        Dragged { window: 1, timeout: Timeout::new(Span::from_secs(1), None) },
        Dragged { window: 2, timeout: over },
    ];
    assert_eq!(reposition_dragged_window(&markers), vec![Command::Reshuffle(2)]);
}
