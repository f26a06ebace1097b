use indicatif::state::{AtomicPosition, DrawThrottle, ProgressFinish, ProgressState, INTERVAL};

#[test]
fn test_atomic_position_large_time_difference() {
    let mut atomic_position = AtomicPosition::new();
    let later = u128::from(INTERVAL * u64::from(u8::MAX));
    // Should not panic.
    assert!(atomic_position.allow(Some(later)));
}

#[test]
fn progress_bar_test_pbar_zero() {
    let state = ProgressState::new(Some(0));
    assert_eq!(state.fraction(), (1, 1));
}

#[test]
fn progress_bar_test_pbar_maxu64() {
    let state = ProgressState::new(Some(!0));
    assert_eq!(state.fraction(), (0, 1));
}

#[test]
fn progress_bar_test_pbar_overflow() {
    let mut state = ProgressState::new(Some(1));
    state.inc(2);
    state.finish_using_style(ProgressFinish::AndLeave, 8);
    assert!(state.is_finished());
    assert_eq!(state.pos, 1);
}

#[test]
fn progress_bar_test_get_position() {
    let mut state = ProgressState::new(Some(1));
    state.inc(2);
    assert_eq!(state.pos(), 2);
}

#[test]
fn progress_test_pbar_zero() {
    assert_eq!(ProgressState::new(Some(0)).fraction(), (1, 1));
}

#[test]
fn progress_test_pbar_maxu64() {
    assert_eq!(ProgressState::new(Some(u64::MAX)).fraction(), (0, 1));
}

#[test]
fn progress_test_pbar_overflow() {
    let mut state = ProgressState::new(Some(1));
    state.inc(2);
    state.finish_using_style(ProgressFinish::AndLeave, 8);
    assert!(state.is_finished());
}

#[test]
fn progress_test_get_position() {
    let mut state = ProgressState::new(Some(1));
    state.inc(2);
    assert_eq!(state.pos(), 2);
}

#[test]
fn throttle_redraws_every_delta() {
    let mut t = DrawThrottle::new();
    assert!(t.update(0, 0));
    t.set_draw_delta(0, 10);
    assert!(!t.update(5, 0));
    assert!(t.update(10, 0));
    assert_eq!(t.draw_next, 20);
    t.set_draw_rate(20, 100, 25);
    assert_eq!(t.draw_next, 24);
    assert!(!t.update(23, 100));
    assert!(t.update(24, 100));
    assert_eq!(t.draw_next, 28);
    t.redraw_from(3);
    assert!(t.update(3, 100));
    t.set_draw_delta(u64::MAX - 1, 5);
    assert_eq!(t.draw_next, u64::MAX);
}

#[test]
fn hidden_finished_bar_is_not_rendered() {
    let mut state = ProgressState::new(Some(4));
    assert!(state.should_render());
    state.finish_using_style(ProgressFinish::AndLeave, 8);
    assert!(state.should_render());
    let mut state = ProgressState::new(Some(4));
    state.finish_using_style(ProgressFinish::AndClear, 8);
    assert!(!state.should_render());
}
