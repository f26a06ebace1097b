use std::time::Duration;

use indicatif::format::{FormattedDuration, HumanDuration, TimeSpan};

const MILLI: Duration = Duration::from_millis(1);
const SECOND: Duration = Duration::from_secs(1);
const MINUTE: Duration = Duration::from_secs(60);
const HOUR: Duration = Duration::from_secs(60 * 60);
const DAY: Duration = Duration::from_secs(24 * 60 * 60);
const WEEK: Duration = Duration::from_secs(7 * 24 * 60 * 60);
const YEAR: Duration = Duration::from_secs(365 * 24 * 60 * 60);

const UNITS_NAMES_ALTS: &[(Duration, &str, &str)] = &[
    (YEAR, "year", "y"),
    (WEEK, "week", "w"),
    (DAY, "day", "d"),
    (HOUR, "hour", "h"),
    (MINUTE, "minute", "m"),
    (SECOND, "second", "s"),
];

fn span(d: Duration) -> TimeSpan {
    TimeSpan::new(d.as_secs(), d.subsec_nanos())
}

fn human(d: Duration) -> String {
    HumanDuration(span(d)).to_string()
}

#[test]
fn human_duration_alternate() {
    for (unit, _, alt) in UNITS_NAMES_ALTS {
        assert_eq!(format!("2{}", alt), HumanDuration(span(2 * *unit)).format(true));
    }
}

#[test]
fn human_duration_less_than_one_second() {
    assert_eq!("0 seconds", human(Duration::ZERO));
    assert_eq!("0 seconds", human(MILLI));
    assert_eq!("0 seconds", human(499 * MILLI));
    assert_eq!("1 second", human(500 * MILLI));
    assert_eq!("1 second", human(999 * MILLI));
}

#[test]
fn human_duration_less_than_two_seconds() {
    assert_eq!("1 second", human(1499 * MILLI));
    assert_eq!("2 seconds", human(1500 * MILLI));
    assert_eq!("2 seconds", human(1999 * MILLI));
}

#[test]
fn human_duration_one_unit() {
    assert_eq!("1 second", human(SECOND));
    assert_eq!("60 seconds", human(MINUTE));
    assert_eq!("60 minutes", human(HOUR));
    assert_eq!("24 hours", human(DAY));
    assert_eq!("7 days", human(WEEK));
    assert_eq!("52 weeks", human(YEAR));
}

#[test]
fn human_duration_less_than_one_and_a_half_unit() {
    assert_eq!("89 seconds", human(MINUTE + MINUTE / 2 - SECOND / 2 - MILLI));
    assert_eq!("89 minutes", human(HOUR + HOUR / 2 - MINUTE / 2 - MILLI));
    assert_eq!("35 hours", human(DAY + DAY / 2 - HOUR / 2 - MILLI));
    assert_eq!("10 days", human(WEEK + WEEK / 2 - DAY / 2 - MILLI));
    assert_eq!("78 weeks", human(YEAR + YEAR / 2 - WEEK / 2 - MILLI));
}

#[test]
fn human_duration_one_and_a_half_unit() {
    assert_eq!("2 minutes", human(MINUTE + MINUTE / 2 - SECOND / 2));
    assert_eq!("2 hours", human(HOUR + HOUR / 2 - MINUTE / 2));
    assert_eq!("2 days", human(DAY + DAY / 2 - HOUR / 2));
    assert_eq!("2 weeks", human(WEEK + WEEK / 2 - DAY / 2));
    assert_eq!("2 years", human(YEAR + YEAR / 2 - WEEK / 2));
}

#[test]
fn human_duration_two_units() {
    assert_eq!("2 seconds", human(2 * SECOND));
    assert_eq!("2 minutes", human(2 * MINUTE));
    assert_eq!("2 hours", human(2 * HOUR));
    assert_eq!("2 days", human(2 * DAY));
    assert_eq!("2 weeks", human(2 * WEEK));
    assert_eq!("2 years", human(2 * YEAR));
}

#[test]
fn human_duration_less_than_two_and_a_half_units() {
    assert_eq!("2 seconds", human(2 * SECOND + SECOND / 2 - MILLI));
    assert_eq!("2 minutes", human(2 * MINUTE + MINUTE / 2 - MILLI));
    assert_eq!("2 hours", human(2 * HOUR + HOUR / 2 - MILLI));
    assert_eq!("2 days", human(2 * DAY + DAY / 2 - MILLI));
    assert_eq!("2 weeks", human(2 * WEEK + WEEK / 2 - MILLI));
    assert_eq!("2 years", human(2 * YEAR + YEAR / 2 - MILLI));
}

#[test]
fn human_duration_two_and_a_half_units() {
    assert_eq!("3 seconds", human(2 * SECOND + SECOND / 2));
    assert_eq!("3 minutes", human(2 * MINUTE + MINUTE / 2));
    assert_eq!("3 hours", human(2 * HOUR + HOUR / 2));
    assert_eq!("3 days", human(2 * DAY + DAY / 2));
    assert_eq!("3 weeks", human(2 * WEEK + WEEK / 2));
    assert_eq!("3 years", human(2 * YEAR + YEAR / 2));
}

#[test]
fn human_duration_three_units() {
    assert_eq!("3 seconds", human(3 * SECOND));
    assert_eq!("3 minutes", human(3 * MINUTE));
    assert_eq!("3 hours", human(3 * HOUR));
    assert_eq!("3 days", human(3 * DAY));
    assert_eq!("3 weeks", human(3 * WEEK));
    assert_eq!("3 years", human(3 * YEAR));
}

#[test]
fn formatted_duration_clock_and_days() {
    assert_eq!(FormattedDuration(TimeSpan::from_secs(0)).to_string(), "00:00:00");
    assert_eq!(FormattedDuration(TimeSpan::new(3723, 999_999_999)).to_string(), "01:02:03");
    assert_eq!(FormattedDuration(TimeSpan::from_secs(2 * 86400 + 5)).to_string(), "2d 00:00:05");
}

#[test]
fn time_span_conversions() {
    let t = TimeSpan::new(1, 2_500_000_000);
    assert_eq!(t.as_secs(), 3);
    assert_eq!(t.subsec_nanos(), 500_000_000);
    assert_eq!(TimeSpan::from_millis(1234).as_nanos(), 1_234_000_000);
    assert_eq!(TimeSpan::zero().as_nanos(), 0);
}
