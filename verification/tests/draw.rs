use indicatif::draw::{visual_line_count, VisualLines};

#[test]
fn real_line_count_test() {
    struct Case {
        lines: &'static [&'static str],
        expectation: usize,
        width: usize,
    }

    let lines_and_expectations = [
        Case { lines: &["1234567890"], expectation: 1, width: 10 },
        Case { lines: &["1234567890"], expectation: 2, width: 5 },
        Case { lines: &["1234567890"], expectation: 3, width: 4 },
        Case { lines: &["1234567890"], expectation: 4, width: 3 },
        Case { lines: &["1234567890", "", "1234567890"], expectation: 3, width: 10 },
        Case { lines: &["1234567890", "", "1234567890"], expectation: 5, width: 5 },
        Case { lines: &["1234567890", "", "1234567890"], expectation: 7, width: 4 },
        Case {
            lines: &["aaaaaaaaaaaaa", "", "bbbbbbbbbbbbbbbbb", "", "ccccccc"],
            expectation: 8,
            width: 7,
        },
        Case { lines: &["", "", "", "", ""], expectation: 5, width: 6 },
        Case {
            lines: &["\u{1b}[1m\u{1b}[1m\u{1b}[1m", "\u{1b}[1m\u{1b}[1m\u{1b}[1m"],
            expectation: 2,
            width: 5,
        },
        Case {
            lines: &["a\u{1b}[1m\u{1b}[1m\u{1b}[1ma", "a\u{1b}[1m\u{1b}[1m\u{1b}[1ma"],
            expectation: 2,
            width: 5,
        },
        Case {
            lines: &["aa\u{1b}[1m\u{1b}[1m\u{1b}[1mabcd", "aa\u{1b}[1m\u{1b}[1m\u{1b}[1mabcd"],
            expectation: 4,
            width: 5,
        },
    ];

    for case in lines_and_expectations.iter() {
        let lines: Vec<String> = case.lines.iter().map(|s| s.to_string()).collect();
        let result = visual_line_count(&lines, case.width);
        assert_eq!(result, VisualLines(case.expectation), "lines: {:?}", case.lines);
    }
}
