use indicatif::bar::{MultiBar, ProgressBarBuilder};
use indicatif::format::TimeSpan;
use indicatif::multi::{InsertLocation, MultiState};
use indicatif::state::ProgressFinish;
use indicatif::style::ProgressStyle;

#[test]
fn builder_new_sets_length() {
    let b = ProgressBarBuilder::new(42).build_unregistered();
    assert_eq!(b.bar.state.len, Some(42));
}

#[test]
fn builder_no_length() {
    let b = ProgressBarBuilder::no_length().build_unregistered();
    assert_eq!(b.bar.state.len, None);
}

#[test]
fn builder_new_spinner_has_no_length() {
    let b = ProgressBarBuilder::new_spinner().build_unregistered();
    assert_eq!(b.bar.state.len, None);
}

#[test]
fn builder_with_message() {
    let b = ProgressBarBuilder::new(10).with_message("hello").build_unregistered();
    assert_eq!(b.bar.state.message.expanded(), "hello");
}

#[test]
fn builder_with_prefix() {
    let b = ProgressBarBuilder::new(10).with_prefix("[1/3]").build_unregistered();
    assert_eq!(b.bar.state.prefix.expanded(), "[1/3]");
}

#[test]
fn builder_with_position() {
    let b = ProgressBarBuilder::new(100).with_position(50).build_unregistered();
    assert_eq!(b.bar.state.pos, 50);
}

#[test]
fn builder_with_style() {
    let style = ProgressStyle::default_bar().template("{msg}");
    let mut b = ProgressBarBuilder::new(10).with_style(style).build_unregistered();
    b.bar.set_message("test");
    assert_eq!(b.bar.state.message.expanded(), "test");
    assert_eq!(b.bar.draw_lines(Some(80), false, &Vec::new()), vec!["test"]);
}

#[test]
fn builder_with_elapsed() {
    let b = ProgressBarBuilder::new(100).with_elapsed(TimeSpan::from_secs(42)).build_unregistered();
    assert!(b.elapsed.unwrap().as_secs() >= 42);
}

#[test]
fn builder_with_tab_width() {
    let b = ProgressBarBuilder::new(10).with_tab_width(4).with_message("a\tb").build_unregistered();
    assert_eq!(b.bar.tab_width, 4);
    assert_eq!(b.bar.state.message.expanded(), "a    b");
}

#[test]
fn builder_chaining() {
    let b = ProgressBarBuilder::new(100)
        .with_message("downloading")
        .with_prefix("[1/3]")
        .with_position(25)
        .build_unregistered();
    assert_eq!(b.bar.state.len, Some(100));
    assert_eq!(b.bar.state.message.expanded(), "downloading");
    assert_eq!(b.bar.state.prefix.expanded(), "[1/3]");
    assert_eq!(b.bar.state.pos, 25);
}

#[test]
fn builder_with_finish() {
    let mut b = ProgressBarBuilder::new(10).with_finish(ProgressFinish::AndLeave).build_unregistered();
    b.bar.finish_using_style(ProgressFinish::AndLeave);
    assert!(b.bar.state.is_finished());
    assert!(matches!(b.bar.on_finish, ProgressFinish::AndLeave));
}

#[test]
fn builder_clone() {
    let cfg = ProgressBarBuilder::new(100).with_message("test").with_prefix("pfx");
    let b = cfg.clone().build_unregistered();
    assert_eq!(b.bar.state.message.expanded(), "test");
    assert_eq!(b.bar.state.prefix.expanded(), "pfx");
}

#[test]
fn multi_bar_new_sets_length() {
    let b = MultiBar::new(42).materialize();
    assert_eq!(b.bar.state.len, Some(42));
}

#[test]
fn multi_bar_no_length() {
    let b = MultiBar::no_length().materialize();
    assert_eq!(b.bar.state.len, None);
}

#[test]
fn multi_bar_new_spinner_has_no_length() {
    let b = MultiBar::new_spinner().materialize();
    assert_eq!(b.bar.state.len, None);
}

#[test]
fn multi_bar_with_message() {
    let b = MultiBar::new(10).with_message("hello").materialize();
    assert_eq!(b.bar.state.message.expanded(), "hello");
}

#[test]
fn multi_bar_with_prefix() {
    let b = MultiBar::new(10).with_prefix("[1/3]").materialize();
    assert_eq!(b.bar.state.prefix.expanded(), "[1/3]");
}

#[test]
fn multi_bar_with_position() {
    let b = MultiBar::new(100).with_position(50).materialize();
    assert_eq!(b.bar.state.pos, 50);
}

#[test]
fn multi_bar_with_style() {
    let style = ProgressStyle::default_bar().template("{msg}");
    let mut b = MultiBar::new(10).with_style(style).materialize();
    b.bar.set_message("test");
    assert_eq!(b.bar.state.message.expanded(), "test");
    assert_eq!(b.bar.draw_lines(Some(80), false, &Vec::new()), vec!["test"]);
}

#[test]
fn multi_bar_with_elapsed() {
    let b = MultiBar::new(100).with_elapsed(TimeSpan::from_secs(42)).materialize();
    assert!(b.elapsed.unwrap().as_secs() >= 42);
}

#[test]
fn multi_bar_with_tab_width() {
    let b = MultiBar::new(10).with_tab_width(4).with_message("a\tb").materialize();
    assert_eq!(b.bar.tab_width, 4);
    assert_eq!(b.bar.state.message.expanded(), "a    b");
}

#[test]
fn multi_bar_builder_chaining() {
    let b = MultiBar::new(100)
        .with_message("downloading")
        .with_prefix("[1/3]")
        .with_position(25)
        .materialize();
    assert_eq!(b.bar.state.len, Some(100));
    assert_eq!(b.bar.state.message.expanded(), "downloading");
    assert_eq!(b.bar.state.prefix.expanded(), "[1/3]");
    assert_eq!(b.bar.state.pos, 25);
}

#[test]
fn multi_bar_with_finish() {
    let mut b = MultiBar::new(10).with_finish(ProgressFinish::AndLeave).materialize();
    b.bar.finish_using_style(ProgressFinish::AndLeave);
    assert!(b.bar.state.is_finished());
    assert!(matches!(b.bar.on_finish, ProgressFinish::AndLeave));
}

#[test]
fn multi_bar_clone() {
    let cfg = MultiBar::new(100).with_message("test").with_prefix("pfx");
    let b = cfg.clone().materialize();
    assert_eq!(b.bar.state.message.expanded(), "test");
    assert_eq!(b.bar.state.prefix.expanded(), "pfx");
}

#[test]
fn builder_register_before_after() {
    let mut st = MultiState::new();
    let p0 = st.insert(InsertLocation::End);
    let p1 = st.insert(InsertLocation::End);
    let p2 = st.insert(InsertLocation::After(p1));
    let p3 = st.insert(InsertLocation::Before(p0));
    let bars: Vec<_> = [1, 2, 3, 4].iter().map(|&n| ProgressBarBuilder::new(n).build_unregistered()).collect();
    assert_eq!(st.ordering(), &vec![p3, p0, p1, p2]);
    assert_eq!(bars[p0].bar.state.len, Some(1));
    assert_eq!(bars[p1].bar.state.len, Some(2));
    assert_eq!(bars[p2].bar.state.len, Some(3));
    assert_eq!(bars[p3].bar.state.len, Some(4));
}

#[test]
fn multi_bar_insert_before_after() {
    let mut st = MultiState::new();
    let p0 = st.insert(InsertLocation::End);
    let p1 = st.insert(InsertLocation::End);
    let p2 = st.insert(InsertLocation::After(p1));
    let p3 = st.insert(InsertLocation::Before(p0));
    let bars: Vec<_> = [1, 2, 3, 4].iter().map(|&n| MultiBar::new(n).materialize()).collect();
    assert_eq!(st.ordering(), &vec![p3, p0, p1, p2]);
    assert_eq!(bars[p0].bar.state.len, Some(1));
    assert_eq!(bars[p1].bar.state.len, Some(2));
    assert_eq!(bars[p2].bar.state.len, Some(3));
    assert_eq!(bars[p3].bar.state.len, Some(4));
}
