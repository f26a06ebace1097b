use console::Style;
use indicatif::dotted::DottedStyle;
use indicatif::expand::{expand_template, template_vars, TemplateVar};
use indicatif::template::Alignment;

/// The console style a placeholder's style string names.
fn console_style(s: &Option<DottedStyle>) -> Option<Style> {
    s.as_ref().map(|d| Style::from_dotted_str(&d.dotted))
}

/// Expands `s` with the value that `f` gives for each placeholder.
fn expand_with(s: &str, colors: bool, mut f: impl FnMut(&TemplateVar) -> String) -> String {
    let vars = template_vars(s).expect("widths fit");
    let values: Vec<String> = vars.iter().map(|v| f(v)).collect();
    expand_template(s, &values, colors)
}

#[test]
fn utils_test_expand_template() {
    let rv = expand_with("{{ {foo} {bar} }}", false, |var| var.key.to_uppercase());
    assert_eq!(&rv, "{ FOO BAR }");
    let rv = expand_with(r#"{ "foo": "{foo}", "bar": {bar} }"#, false, |var| {
        var.key.to_uppercase()
    });
    assert_eq!(&rv, r#"{ "foo": "FOO", "bar": BAR }"#);
}

#[test]
fn utils_test_expand_template_flags() {
    let rv = expand_with("{foo:5}", true, |var| {
        assert_eq!(var.key, "foo");
        assert_eq!(var.width, Some(5));
        "XXX".into()
    });
    assert_eq!(&rv, "XXX  ");

    let rv = expand_with("{foo:.red.on_blue}", true, |var| {
        assert_eq!(var.key, "foo");
        assert_eq!(var.width, None);
        assert_eq!(var.align, Alignment::Left);
        assert_eq!(console_style(&var.style), Some(Style::new().red().on_blue()));
        "XXX".into()
    });
    assert_eq!(&rv, "\u{1b}[31m\u{1b}[44mXXX\u{1b}[0m");

    let rv = expand_with("{foo:^5.red.on_blue}", true, |var| {
        assert_eq!(var.key, "foo");
        assert_eq!(var.width, Some(5));
        assert_eq!(var.align, Alignment::Center);
        assert_eq!(console_style(&var.style), Some(Style::new().red().on_blue()));
        "XXX".into()
    });
    assert_eq!(&rv, "\u{1b}[31m\u{1b}[44m XXX \u{1b}[0m");

    let rv = expand_with("{foo:^5.red.on_blue/green.on_cyan}", true, |var| {
        assert_eq!(var.key, "foo");
        assert_eq!(var.width, Some(5));
        assert_eq!(var.align, Alignment::Center);
        assert_eq!(console_style(&var.style), Some(Style::new().red().on_blue()));
        assert_eq!(console_style(&var.alt_style), Some(Style::new().green().on_cyan()));
        "XXX".into()
    });
    assert_eq!(&rv, "\u{1b}[31m\u{1b}[44m XXX \u{1b}[0m");
}

#[test]
fn expand_keeps_unmatched_braces() {
    assert_eq!(expand_with("a } b { c", false, |_| String::new()), "a } b { c");
    assert_eq!(expand_with("{}", false, |_| String::new()), "{}");
    assert_eq!(expand_with("{a{b}", false, |v| v.key.clone()), "{ab");
}

#[test]
fn expand_marks_last_element() {
    let vars = template_vars("{a} {b}").unwrap();
    assert_eq!(vars.len(), 2);
    assert!(!vars[0].last_element);
    assert!(vars[1].last_element);
}

#[test]
fn expand_key_of_colons_keeps_brace() {
    let vars = template_vars("{::}").unwrap();
    assert_eq!(vars[0].key, "::}");
    let vars = template_vars("{:foo:3}").unwrap();
    assert_eq!(vars[0].key, "foo");
    assert_eq!(vars[0].width, Some(3));
}

#[test]
fn expand_truncates_and_aligns() {
    assert_eq!(expand_with("[{x:>5}]", false, |_| "ab".into()), "[   ab]");
    assert_eq!(expand_with("[{x:3!}]", false, |_| "abcdef".into()), "[abc]");
    assert_eq!(expand_with("[{x:3}]", false, |_| "abcdef".into()), "[abcdef]");
}

#[test]
fn expand_refuses_width_over_usize() {
    assert!(template_vars("{x:99999999999999999999999}").is_none());
}

#[test]
fn duplicate_keeps_options() {
    let vars = template_vars("{foo:^7!.red}").unwrap();
    let d = vars[0].duplicate_for_key("bar");
    assert_eq!(d.key, "bar");
    assert_eq!(d.width, Some(7));
    assert_eq!(d.align, Alignment::Center);
    assert!(d.truncate);
    assert_eq!(console_style(&d.style), Some(Style::new().red()));
}
