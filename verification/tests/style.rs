use indicatif::dotted::DottedStyle;
use indicatif::format::TimeSpan;
use indicatif::state::{ProgressFinish, ProgressState};
use indicatif::style::{pad_str, ProgressStyle};
use indicatif::template::{Alignment, Template};

fn ext(pairs: &[(&str, &str)]) -> Vec<(String, String)> {
    pairs.iter().map(|(k, v)| (k.to_string(), v.to_string())).collect()
}

#[test]
fn style_test_expand_template() {
    let state = ProgressState::new(Some(10));
    let values = ext(&[("foo", "FOO"), ("bar", "BAR")]);

    let style = ProgressStyle::default_bar().template("{{ {foo} {bar} }}");
    let rv = style.format_state(&state, 80, false, &values);
    assert_eq!(&rv[0], "{ FOO BAR }");

    let style = ProgressStyle::default_bar().template(r#"{ "foo": "{foo}", "bar": {bar} }"#);
    let rv = style.format_state(&state, 80, false, &values);
    assert_eq!(&rv[0], r#"{ "foo": "FOO", "bar": BAR }"#);
}

#[test]
fn style_test_expand_template_flags() {
    let state = ProgressState::new(Some(10));
    let values = ext(&[("foo", "XXX")]);

    let style = ProgressStyle::default_bar().template("{foo:5}");
    assert_eq!(&style.format_state(&state, 80, true, &values)[0], "XXX  ");

    let style = ProgressStyle::default_bar().template("{foo:.red.on_blue}");
    assert_eq!(&style.format_state(&state, 80, true, &values)[0], "\u{1b}[31m\u{1b}[44mXXX\u{1b}[0m");

    let style = ProgressStyle::default_bar().template("{foo:^5.red.on_blue}");
    assert_eq!(&style.format_state(&state, 80, true, &values)[0], "\u{1b}[31m\u{1b}[44m XXX \u{1b}[0m");

    let style = ProgressStyle::default_bar().template("{foo:^5.red.on_blue/green.on_cyan}");
    assert_eq!(&style.format_state(&state, 80, true, &values)[0], "\u{1b}[31m\u{1b}[44m XXX \u{1b}[0m");
}

#[test]
fn styles_are_plain_without_colors() {
    let state = ProgressState::new(Some(10));
    let values = ext(&[("foo", "XXX")]);
    let style = ProgressStyle::default_bar().template("{foo:.red.on_blue}");
    assert_eq!(&style.format_state(&state, 80, false, &values)[0], "XXX");
}

#[test]
fn position_length_and_percent_keys() {
    let mut state = ProgressState::new(Some(2000));
    state.set_pos(1234);
    let style = ProgressStyle::default_bar().template("{pos}/{len} {human_pos}/{human_len} {percent}%");
    let rv = style.format_state(&state, 80, false, &Vec::new());
    assert_eq!(rv, vec!["1234/2000 1,234/2,000 62%".to_string()]);
}

#[test]
fn length_defaults_to_position() {
    let mut state = ProgressState::new(None);
    state.set_pos(7);
    let style = ProgressStyle::default_bar().template("{pos}/{len} {percent}");
    assert_eq!(style.format_state(&state, 80, false, &Vec::new()), vec!["7/7 0".to_string()]);
}

#[test]
fn percent_rounds_half_to_even() {
    let mut state = ProgressState::new(Some(8));
    state.set_pos(1);
    let style = ProgressStyle::default_bar().template("{percent}");
    // 12.5 rounds to 12.
    assert_eq!(style.format_state(&state, 80, false, &Vec::new()), vec!["12".to_string()]);
}

#[test]
fn bar_key_uses_width_and_chars() {
    let mut state = ProgressState::new(Some(10));
    state.set_pos(5);
    let style = ProgressStyle::default_bar().template("[{bar:10}]").progress_chars("=> ");
    assert_eq!(style.format_state(&state, 80, false, &Vec::new()), vec!["[=====>    ]".to_string()]);
}

#[test]
fn format_bar_fills_by_fraction() {
    let style = ProgressStyle::default_bar();
    let bar: String = style.format_bar(5, 10, 20, &None, false).into_iter().collect();
    assert_eq!(bar, "\u{2588}".repeat(10) + &"\u{2591}".repeat(10));
    let full: String = style.format_bar(1, 1, 4, &None, false).into_iter().collect();
    assert_eq!(full, "\u{2588}".repeat(4));
    let empty: String = style.format_bar(0, 1, 4, &None, false).into_iter().collect();
    assert_eq!(empty, "\u{2591}".repeat(4));
}

#[test]
fn format_bar_picks_fine_grained_cluster() {
    let style = ProgressStyle::default_bar().progress_chars("#abc-");
    // 1/4 of 2 cells: fill 0.5, three fine-grained entries: 3 - floor(0.5 * 3) = 2.
    let bar: String = style.format_bar(1, 4, 2, &None, false).into_iter().collect();
    assert_eq!(bar, "b-");
}

#[test]
fn format_bar_styles_empty_part() {
    let style = ProgressStyle::default_bar().progress_chars("#-");
    let alt = Some(DottedStyle::from_dotted_str("blue"));
    let bar: String = style.format_bar(1, 2, 4, &alt, true).into_iter().collect();
    // Half of 4 cells: 2 filled, the cell after them as the current one,
    // and the last one empty, in the alternative style.
    assert_eq!(bar, "##-\u{1b}[34m-\u{1b}[0m");
}

#[test]
fn spinner_ticks_and_final_tick() {
    let style = ProgressStyle::default_spinner().tick_chars("abc");
    assert_eq!(style.get_tick_str(0), "a");
    assert_eq!(style.get_tick_str(1), "b");
    assert_eq!(style.get_tick_str(2), "a");
    assert_eq!(style.get_final_tick_str(), "c");
    let mut state = ProgressState::new(None);
    state.tick();
    assert_eq!(style.current_tick_str(&state), "b");
    state.finish_using_style(ProgressFinish::AndLeave, 8);
    assert_eq!(style.current_tick_str(&state), "c");
}

#[test]
fn tick_strings_are_kept_whole() {
    let style = ProgressStyle::default_spinner().tick_strings(&["one", "two", "done"]);
    assert_eq!(style.get_tick_str(1), "two");
    assert_eq!(style.get_final_tick_str(), "done");
}

#[test]
fn spinner_and_message_template() {
    let mut state = ProgressState::new(None);
    state.message = indicatif::state::TabExpandedString::new("loading\tfiles", 2);
    let style = ProgressStyle::default_spinner().tick_chars("xy");
    assert_eq!(style.format_state(&state, 80, false, &Vec::new()), vec!["x loading  files".to_string()]);
}

#[test]
fn wide_bar_takes_remaining_width() {
    let mut state = ProgressState::new(Some(4));
    state.set_pos(2);
    let style = ProgressStyle::default_bar().template("[{wide_bar}]").progress_chars("#-");
    // Width 10; "[", the placeholder and "]" take 3 columns; the bar takes
    // the 7 left plus one.
    let rv = style.format_state(&state, 10, false, &Vec::new());
    assert_eq!(rv, vec!["[####----]".to_string()]);
}

#[test]
fn wide_message_is_padded_and_trimmed() {
    let mut state = ProgressState::new(None);
    state.message = indicatif::state::TabExpandedString::new("hi", 8);
    let style = ProgressStyle::default_bar().template(">{wide_msg:>}");
    assert_eq!(style.format_state(&state, 6, false, &Vec::new()), vec![">   hi".to_string()]);
    let style = ProgressStyle::default_bar().template("{wide_msg}");
    assert_eq!(style.format_state(&state, 6, false, &Vec::new()), vec!["hi".to_string()]);
}

#[test]
fn new_lines_split_the_output() {
    let state = ProgressState::new(Some(3));
    let style = ProgressStyle::default_bar().template("{pos}\n{len}");
    assert_eq!(style.format_state(&state, 80, false, &Vec::new()), vec!["0".to_string(), "3".to_string()]);
}

#[test]
fn durations_render_as_clock_and_words() {
    let mut state = ProgressState::new(Some(3));
    state.elapsed = TimeSpan::from_secs(3725);
    state.eta = TimeSpan::from_secs(90);
    let style = ProgressStyle::default_bar().template("{elapsed_precise} {elapsed} {eta}");
    assert_eq!(style.format_state(&state, 80, false, &Vec::new()), vec!["01:02:05 62m 2m".to_string()]);
}

#[test]
fn unknown_keys_render_nothing() {
    let state = ProgressState::new(Some(3));
    let style = ProgressStyle::default_bar().template("<{nothing}>");
    assert_eq!(style.format_state(&state, 80, false, &Vec::new()), vec!["<>".to_string()]);
}

#[test]
fn outside_values_take_precedence() {
    let state = ProgressState::new(Some(3));
    let style = ProgressStyle::default_bar().template("{pos}");
    let values = ext(&[("pos", "custom"), ("pos", "second")]);
    assert_eq!(style.format_state(&state, 80, false, &values), vec!["custom".to_string()]);
}

#[test]
fn pad_str_aligns_and_truncates() {
    assert_eq!(pad_str("ab", 5, Alignment::Left, false), "ab   ");
    assert_eq!(pad_str("ab", 5, Alignment::Right, false), "   ab");
    assert_eq!(pad_str("ab", 5, Alignment::Center, false), " ab  ");
    assert_eq!(pad_str("abcdef", 3, Alignment::Left, true), "abc");
    assert_eq!(pad_str("abcdef", 3, Alignment::Left, false), "abcdef");
}

#[test]
fn on_finish_is_kept() {
    let style = ProgressStyle::default_bar().on_finish(ProgressFinish::Abandon);
    assert!(matches!(style.get_on_finish(), ProgressFinish::Abandon));
    let default = ProgressStyle::default_bar();
    assert!(matches!(default.get_on_finish(), ProgressFinish::AndClear));
}

#[test]
fn brace_before_whitespace_stays_in_place() {
    let state = ProgressState::new(Some(10));
    let style = ProgressStyle::default_bar().template("a{ b}");
    assert_eq!(style.format_state(&state, 80, false, &Vec::new())[0], "a{ b}");
    let style = ProgressStyle::default_bar().template("x {ab c}");
    assert_eq!(style.format_state(&state, 80, false, &Vec::new())[0], "x {ab c}");
}

#[test]
fn templates_can_be_tested_before_parsing() {
    assert!(Template::try_from_str("{foo} {bar:>5.red}").is_some());
    assert!(Template::try_from_str("{:}").is_none());
    assert!(Template::try_from_str("{foo:x}").is_none());
    assert!(Template::try_from_str("{foo:99999}").is_none());
    assert_eq!(Template::try_from_str("a{ b}").unwrap().parts.len(), 2);
}

#[test]
fn template_styles_take_every_console_term() {
    let state = ProgressState::new(Some(10));
    let values = ext(&[("foo", "XXX")]);
    let style = ProgressStyle::default_bar().template("{foo:.strikethrough}");
    assert_eq!(&style.format_state(&state, 80, true, &values)[0], "\u{1b}[9mXXX\u{1b}[0m");
    let style = ProgressStyle::default_bar().template("{foo:.red.bright}");
    assert_eq!(&style.format_state(&state, 80, true, &values)[0], "\u{1b}[38;5;9mXXX\u{1b}[0m");
    let style = ProgressStyle::default_bar().template("{foo:.strikethrough}");
    assert_eq!(&style.format_state(&state, 80, false, &values)[0], "XXX");
}
