use indicatif::channel::{apply_draw_state, should_draw, JoinState, JoinStep, Multiplexer, ProgressDrawState};
use indicatif::draw::{adjust_line_count, DrawState, LineAdjust, RateLimiter, TargetState, TermOp, VisualLines};
use indicatif::multi::MultiProgressAlignment;
use indicatif::state::AtomicPosition;
use indicatif::term::{clear_last_lines, size_or_default, terminal_size};

fn lines(v: &[&str]) -> Vec<String> {
    v.iter().map(|s| s.to_string()).collect()
}

fn state(v: &[&str], orphans: usize, move_cursor: bool, alignment: MultiProgressAlignment) -> DrawState {
    DrawState { lines: lines(v), orphan_lines_count: orphans, move_cursor, alignment }
}

#[test]
fn draw_to_term_clears_then_writes() {
    let st = state(&["a", "b"], 0, false, MultiProgressAlignment::Top);
    let (ops, count) = st.draw_to_term(VisualLines(1), 80, 24);
    assert_eq!(
        ops,
        vec![
            TermOp::MoveCursorUp(0),
            TermOp::ClearLine,
            TermOp::MoveCursorUp(0),
            TermOp::WriteStr("a".to_string()),
            TermOp::WriteLine(String::new()),
            TermOp::WriteStr("b".to_string()),
            TermOp::WriteStr(" ".repeat(79)),
            TermOp::Flush,
        ]
    );
    assert_eq!(count, VisualLines(2));
}

#[test]
fn draw_to_term_clears_several_lines() {
    let st = state(&["a"], 0, false, MultiProgressAlignment::Top);
    let (ops, _) = st.draw_to_term(VisualLines(2), 10, 24);
    assert_eq!(
        &ops[..5],
        &[
            TermOp::MoveCursorUp(1),
            TermOp::ClearLine,
            TermOp::MoveCursorDown(1),
            TermOp::ClearLine,
            TermOp::MoveCursorUp(1),
        ]
    );
}

#[test]
fn draw_to_term_moves_cursor_when_asked() {
    let st = state(&["a"], 0, true, MultiProgressAlignment::Top);
    let (ops, count) = st.draw_to_term(VisualLines(3), 4, 24);
    assert_eq!(
        ops,
        vec![
            TermOp::MoveCursorUp(3),
            TermOp::WriteStr("a".to_string()),
            TermOp::WriteStr("   ".to_string()),
            TermOp::Flush,
        ]
    );
    assert_eq!(count, VisualLines(1));
}

#[test]
fn draw_to_term_bottom_alignment_shifts() {
    let st = state(&["a"], 0, true, MultiProgressAlignment::Bottom);
    let (ops, count) = st.draw_to_term(VisualLines(3), 1, 24);
    assert_eq!(
        ops,
        vec![
            TermOp::MoveCursorUp(3),
            TermOp::WriteLine(String::new()),
            TermOp::WriteLine(String::new()),
            TermOp::WriteStr("a".to_string()),
            TermOp::WriteStr(String::new()),
            TermOp::Flush,
        ]
    );
    assert_eq!(count, VisualLines(3));
}

#[test]
fn draw_to_term_stops_at_terminal_height() {
    let st = state(&["a", "b", "c", "d"], 0, true, MultiProgressAlignment::Top);
    let (ops, count) = st.draw_to_term(VisualLines(0), 5, 2);
    assert_eq!(
        ops,
        vec![
            TermOp::MoveCursorUp(0),
            TermOp::WriteStr("a".to_string()),
            TermOp::WriteLine(String::new()),
            TermOp::WriteStr("b".to_string()),
            TermOp::WriteStr(String::new()),
            TermOp::Flush,
        ]
    );
    assert_eq!(count, VisualLines(2));
}

#[test]
fn draw_to_term_does_not_count_orphan_lines() {
    let st = state(&["printed", "bar"], 1, true, MultiProgressAlignment::Top);
    let (_, count) = st.draw_to_term(VisualLines(0), 80, 1);
    assert_eq!(count, VisualLines(1));
}

#[test]
fn line_adjustments_saturate() {
    assert_eq!(adjust_line_count(VisualLines(3), LineAdjust::Keep(VisualLines(5))), VisualLines(0));
    assert_eq!(adjust_line_count(VisualLines(3), LineAdjust::Clear(VisualLines(5))), VisualLines(8));
    assert_eq!(adjust_line_count(VisualLines(usize::MAX), LineAdjust::Clear(VisualLines(5))), VisualLines(usize::MAX));
}

#[test]
fn rate_limiter_allows_bursts_then_waits() {
    let mut r = RateLimiter::new(20, 0);
    for _ in 0..20 {
        assert!(r.allow(0));
    }
    assert!(!r.allow(0));
    assert!(!r.allow(49_999_999));
    assert!(r.allow(50_000_000));
}

#[test]
fn rate_limiter_refuses_times_before_the_last() {
    let mut r = RateLimiter::new(1, 1_000);
    assert!(!r.allow(999));
    assert!(r.allow(1_000));
}

#[test]
fn target_decisions() {
    let mut hidden = TargetState::Hidden;
    assert!(!hidden.drawable(true, true, 0));
    let mut multi = TargetState::Multi { idx: 3 };
    assert!(multi.drawable(false, false, 0));
    let mut term = TargetState::Term {
        last_line_count: VisualLines(2),
        rate_limiter: RateLimiter::new(20, 0),
        draw_state: DrawState::default(),
    };
    assert!(!term.drawable(true, false, 0));
    assert!(term.drawable(true, true, 0));
    term.adjust_last_line_count(LineAdjust::Clear(VisualLines(3)));
    match term {
        TargetState::Term { last_line_count, .. } => assert_eq!(last_line_count, VisualLines(5)),
        _ => unreachable!(),
    }
    let mut like = TargetState::TermLike { last_line_count: VisualLines(0), rate_limiter: None, draw_state: DrawState::default() };
    assert!(like.drawable(false, false, 0));
}

#[test]
fn position_budget() {
    let mut p = AtomicPosition::new();
    assert!(!p.allow(None));
    for _ in 0..10 {
        assert!(p.allow(Some(0)));
    }
    assert!(!p.allow(Some(999_999)));
    assert!(p.allow(Some(1_000_000)));
    p.inc(5);
    p.inc(u64::MAX);
    assert_eq!(p.pos(), 4);
    p.set(7);
    assert_eq!(p.pos(), 7);
    p.reset(3);
    assert_eq!(p.pos(), 0);
}

#[test]
fn clear_last_lines_goes_up_and_down() {
    assert_eq!(
        clear_last_lines(2),
        vec![
            TermOp::MoveCursorUp(2),
            TermOp::ClearLine,
            TermOp::MoveCursorDown(1),
            TermOp::ClearLine,
            TermOp::MoveCursorDown(1),
            TermOp::MoveCursorUp(2),
        ]
    );
}

#[test]
fn console_geometry() {
    assert_eq!(terminal_size(Some((0, 0, 79, 24))), Some((25, 80)));
    assert_eq!(terminal_size(None), None);
    assert_eq!(size_or_default(None), (24, 80));
    assert_eq!(size_or_default(Some((10, 20))), (10, 20));
}

fn frame(v: &[&str], orphans: usize, finished: bool, force: bool) -> ProgressDrawState {
    ProgressDrawState { lines: lines(v), orphan_lines: orphans, finished, force_draw: force, move_cursor: false, ts: 0 }
}

#[test]
fn join_groups_and_frames_updates() {
    let mut j = JoinState::new(false);
    let a = j.add();
    let b = j.insert(0);
    assert_eq!(j.ordering, vec![b, a]);
    j.receive(a, frame(&["log", "bar a"], 1, false, false));
    assert_eq!(j.next_step(true), JoinStep::Skip);
    assert_eq!(j.next_step(false), JoinStep::TryGroup);
    assert!(!j.grouped_with(true));
    assert_eq!(j.grouped, 1);
    j.receive(b, frame(&["bar b"], 0, true, false));
    assert!(j.grouped_with(false));
    let f = j.frame(42);
    assert_eq!(f.lines, lines(&["log", "bar b", "bar a"]));
    assert_eq!(f.orphan_lines, 1);
    assert!(f.force_draw);
    assert!(!f.finished);
    assert_eq!(f.ts, 42);
    assert!(!j.is_done());
    j.receive(a, frame(&[], 0, true, false));
    assert!(j.is_done());
}

#[test]
fn terminal_target_draws_frames() {
    let f = frame(&["x", "y"], 0, false, false);
    assert!(should_draw(&f, None, Some(0), 0));
    assert!(!should_draw(&f, Some(100), Some(0), 100));
    assert!(should_draw(&f, Some(100), Some(0), 101));
    assert!(should_draw(&frame(&[], 0, true, false), Some(100), Some(0), 0));
    let ops = apply_draw_state(&None, &f);
    assert_eq!(ops, vec![TermOp::WriteLine("x".to_string()), TermOp::WriteLine("y".to_string()), TermOp::Flush]);
    let last = Some(frame(&["o", "p", "q"], 1, false, false));
    let ops = apply_draw_state(&last, &f);
    assert_eq!(ops[0], TermOp::ClearLastLines(2));
}

#[test]
fn multiplexer_redraws_everything() {
    let mut m = Multiplexer::new(2);
    assert!(m.any_outstanding());
    let ops = m.update(0, lines(&["a"]), false);
    assert_eq!(ops, vec![TermOp::ClearLastLines(0), TermOp::WriteLine("a".to_string()), TermOp::Flush]);
    let ops = m.update(1, lines(&["b"]), true);
    assert_eq!(
        ops,
        vec![
            TermOp::ClearLastLines(1),
            TermOp::WriteLine("a".to_string()),
            TermOp::WriteLine("b".to_string()),
            TermOp::Flush,
        ]
    );
    assert!(m.any_outstanding());
    m.update(0, lines(&["a2"]), true);
    assert!(!m.any_outstanding());
    assert_eq!(m.finish(), vec![TermOp::ClearLastLines(2)]);
}
