use indicatif::bar::{BarState, ProgressBarBuilder};
use indicatif::format::TimeSpan;
use indicatif::state::{ProgressFinish, Status};
use indicatif::text::split_lines;

#[test]
fn split_lines_like_str_lines() {
    assert_eq!(split_lines("a\nb\r\n\nc"), vec!["a", "b", "", "c"]);
    assert_eq!(split_lines(""), Vec::<String>::new());
    assert_eq!(split_lines("x\n"), vec!["x"]);
    assert_eq!(split_lines("x\r"), vec!["x\r"]);
    assert_eq!(split_lines("\n"), vec![""]);
}

#[test]
fn bar_lines_need_a_width() {
    let bar = BarState::new(Some(10));
    assert!(bar.draw_lines(None, false, &Vec::new()).is_empty());
    let line = bar.draw_lines(Some(80), false, &Vec::new());
    assert_eq!(line, vec!["\u{2591}".repeat(75) + " 0/10"]);
}

#[test]
fn hidden_finished_bar_draws_nothing() {
    let mut bar = BarState::new(Some(10));
    bar.finish_using_style(ProgressFinish::AndClear);
    assert_eq!(bar.state.status, Status::DoneHidden);
    assert_eq!(bar.state.pos, 10);
    assert!(bar.draw_lines(Some(80), false, &Vec::new()).is_empty());
    assert!(bar.draw_forced(false));
}

#[test]
fn println_puts_message_lines_first() {
    let mut bar = BarState::new(Some(4));
    bar.style = bar.style.template("{pos}");
    let (lines, count) = bar.println_lines("hello\nworld", Some(80), false, &Vec::new());
    assert_eq!(lines, vec!["hello", "world", "0"]);
    assert_eq!(count, 2);
    let (lines, count) = bar.println_lines("", None, false, &Vec::new());
    assert_eq!(lines, vec![""]);
    assert_eq!(count, 1);
}

#[test]
fn finish_with_message_completes_the_bar() {
    let mut bar = BarState::new(Some(3));
    bar.set_tab_width(2);
    bar.finish_using_style(ProgressFinish::WithMessage("done\t!".to_string()));
    assert_eq!(bar.state.pos, 3);
    assert_eq!(bar.state.message.expanded(), "done  !");
    assert_eq!(bar.state.status, Status::DoneVisible);
}

#[test]
fn builder_applies_configuration_in_order() {
    let mut b = ProgressBarBuilder::new(10);
    b.message = Some("a\tb".to_string());
    b.prefix = Some("p".to_string());
    b.tab_width = Some(3);
    b.position = Some(4);
    b.elapsed = Some(TimeSpan::from_secs(2));
    b.on_finish = Some(ProgressFinish::Abandon);
    let built = b.build_unregistered();
    assert_eq!(built.bar.tab_width, 3);
    assert_eq!(built.bar.state.message.expanded(), "a   b");
    assert_eq!(built.bar.state.prefix.expanded(), "p");
    assert_eq!(built.bar.state.pos, 4);
    assert_eq!(built.bar.state.len, Some(10));
    assert!(matches!(built.bar.on_finish, ProgressFinish::Abandon));
    assert_eq!(built.elapsed, Some(TimeSpan::from_secs(2)));
    assert!(built.steady_tick.is_none());
}

#[test]
fn spinner_builder_has_no_length() {
    let built = ProgressBarBuilder::new_spinner().build_unregistered();
    assert_eq!(built.bar.state.len, None);
    let (lines, _) = built.bar.println_lines("m", Some(80), false, &Vec::new());
    assert_eq!(lines.len(), 2);
}
