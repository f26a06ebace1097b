use indicatif::ansi::{measure_text_width, strip_ansi_codes, style, Style};
use indicatif::draw::{visual_line_count, RateLimiter};
use indicatif::multi::{InsertLocation, MultiState};
use indicatif::state::{AtomicPosition, ProgressFinish, ProgressState};
use indicatif::style::{pad_str, ProgressStyle};
use indicatif::template::Alignment;

fn lines(v: &[&str]) -> Vec<String> {
    v.iter().map(|s| s.to_string()).collect()
}

#[test]
fn styled_text_strips_to_text() {
    let st = Style::new().red().on_blue().bold().underlined().hidden();
    let s = style("hello world").fg(indicatif::ansi::Color::Cyan).force_styling(true).to_string();
    assert_eq!(strip_ansi_codes(&s), "hello world");
    let t = st.apply_to("abc").force_styling(true).to_string();
    assert_eq!(strip_ansi_codes(&t), "abc");
    assert_eq!(measure_text_width(&t), 3);
}

#[test]
fn rows_of_concatenated_lines_add_up() {
    let a = lines(&["1234567890", ""]);
    let b = lines(&["abc", "abcdefgh"]);
    let mut ab = a.clone();
    ab.extend(b.clone());
    let width = 4;
    let total = visual_line_count(&ab, width).as_usize();
    assert_eq!(total, visual_line_count(&a, width).as_usize() + visual_line_count(&b, width).as_usize());
    assert_eq!(total, 3 + 1 + 1 + 2);
    assert!(total >= ab.len());
}

#[test]
fn budgets_never_exceed_a_burst() {
    let mut r = RateLimiter::new(100, 0);
    // Waiting a long time refills at most a burst.
    assert!(r.allow(0));
    let far = 3_600_000_000_000u128;
    let mut allowed = 0;
    for _ in 0..100 {
        if r.allow(far) {
            allowed += 1;
        }
    }
    // One draw refills the budget to a burst, which is then used up.
    assert_eq!(allowed, 21);
    let mut p = AtomicPosition::new();
    let mut allowed = 0;
    for _ in 0..100 {
        if p.allow(Some(10_000_000_000)) {
            allowed += 1;
        }
    }
    assert_eq!(allowed, 11);
}

#[test]
fn finished_bar_is_complete() {
    let mut state = ProgressState::new(Some(40));
    state.set_pos(3);
    state.finish_using_style(ProgressFinish::AndLeave, 8);
    assert_eq!(state.fraction(), (1, 1));
    let style = ProgressStyle::default_bar().template("{bar:6} {percent}").progress_chars("#>-");
    assert_eq!(style.format_state(&state, 80, false, &Vec::new()), vec!["###### 100".to_string()]);
    let mut past = ProgressState::new(Some(5));
    past.set_pos(9);
    assert_eq!(past.fraction(), (1, 1));
    let empty = ProgressState::new(Some(0));
    assert_eq!(empty.fraction(), (1, 1));
}

#[test]
fn bar_fills_its_width() {
    let style = ProgressStyle::default_bar().progress_chars("=>-");
    for (num, den) in [(0u64, 1u64), (1, 3), (1, 2), (2, 3), (1, 1)] {
        for width in [0usize, 1, 7, 40] {
            assert_eq!(style.format_bar(num, den, width, &None, false).len(), width);
        }
    }
}

#[test]
fn padding_adds_the_missing_columns() {
    for align in [Alignment::Left, Alignment::Center, Alignment::Right] {
        let p = pad_str("abc", 10, align, false);
        assert_eq!(p.chars().count(), 10);
        assert_eq!(p.trim(), "abc");
    }
}

#[test]
fn grouped_counts_keep_their_digits() {
    let mut state = ProgressState::new(None);
    state.set_pos(9_876_543_210);
    let style = ProgressStyle::default_bar().template("{human_pos}");
    let shown = style.format_state(&state, 80, false, &Vec::new()).remove(0);
    assert_eq!(shown, "9,876,543,210");
    assert_eq!(shown.replace(',', ""), "9876543210");
}

#[test]
fn adding_then_removing_restores_the_order() {
    let mut st = MultiState::new();
    for _ in 0..4 {
        st.insert(InsertLocation::End);
    }
    let before = st.ordering().clone();
    let idx = st.insert(InsertLocation::Index(2));
    st.remove_idx(idx);
    assert_eq!(st.ordering(), &before);
    // The slot removed last is the next one given out.
    assert_eq!(st.insert(InsertLocation::End), idx);
}

#[test]
fn brace_free_text_expands_to_itself() {
    let s = "plain text: 42% done";
    let vars = indicatif::expand::template_vars(s).unwrap();
    assert!(vars.is_empty());
    assert_eq!(indicatif::expand::expand_template(s, &Vec::new(), true), s);
}

#[test]
fn styled_text_with_lone_escape_strips_to_its_own_stripping() {
    let text = "a\u{1b}";
    let s = style(text).red().force_styling(true).to_string();
    assert_eq!(strip_ansi_codes(&s), strip_ansi_codes(text));
    assert_eq!(strip_ansi_codes(&s), "a\u{1b}");
    let text = "x\u{1b}[1";
    let s = style(text).bold().force_styling(true).to_string();
    assert_eq!(strip_ansi_codes(&s), strip_ansi_codes(text));
}

#[test]
fn dotted_style_halves_apply_in_turn() {
    let whole = Style::new().from_dotted_str("red.on_blue.bold");
    let halves = Style::new().from_dotted_str("red").from_dotted_str("on_blue.bold");
    assert_eq!(whole, halves);
    assert_eq!(Style::new().bold().from_dotted_str(""), Style::new().bold());
}

#[test]
fn multi_state_slots_are_drawn_or_free() {
    let mut st = MultiState::new();
    for _ in 0..5 {
        st.insert(InsertLocation::End);
    }
    st.remove_idx(1);
    st.remove_idx(3);
    assert_eq!(st.ordering().len() + st.free_set().len(), st.members_len());
    assert_eq!(st.len(), 3);
}
