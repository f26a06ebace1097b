//! Human readable formatting of durations and byte counts.
use vstd::prelude::*;

use crate::text::{decimal, decimal2, push_decimal, push_decimal2, push_decimal_wide, push_str, string_of};

verus! {

pub const NANOS_PER_SEC: u128 = 1_000_000_000;

/// The largest span a `TimeSpan` can hold, in nanoseconds.
pub open spec fn max_span() -> nat {
    (u64::MAX as nat) * 1_000_000_000 + 999_999_999
}

/// A span of time with nanosecond precision: whole seconds and the
/// nanoseconds beyond them.  Its view is the total number of nanoseconds.
#[derive(Copy, Clone, Debug, PartialEq, Eq, Structural)]
pub struct TimeSpan {
    secs: u64,
    nanos: u32,
}

impl View for TimeSpan {
    type V = nat;

    closed spec fn view(&self) -> nat {
        (self.secs as nat) * 1_000_000_000 + (self.nanos as nat)
    }
}

impl TimeSpan {
    #[verifier::type_invariant]
    closed spec fn wf(self) -> bool {
        self.nanos < 1_000_000_000
    }

    /// A span of `secs` seconds and `nanos` nanoseconds; nanoseconds beyond
    /// one second carry into the seconds.
    pub fn new(secs: u64, nanos: u32) -> (t: TimeSpan)
        requires
            secs + nanos / 1_000_000_000 <= u64::MAX,
        ensures
            t@ == secs * 1_000_000_000 + nanos,
    {
        let carry = (nanos / 1_000_000_000) as u64;
        TimeSpan { secs: secs + carry, nanos: nanos % 1_000_000_000 }
    }

    /// The empty span.
    pub fn zero() -> (t: TimeSpan)
        ensures
            t@ == 0,
    {
        TimeSpan { secs: 0, nanos: 0 }
    }

    /// A span of whole seconds.
    pub fn from_secs(secs: u64) -> (t: TimeSpan)
        ensures
            t@ == secs * 1_000_000_000,
    {
        TimeSpan { secs, nanos: 0 }
    }

    /// A span of whole milliseconds.
    pub fn from_millis(millis: u64) -> (t: TimeSpan)
        ensures
            t@ == millis * 1_000_000,
    {
        TimeSpan { secs: millis / 1000, nanos: ((millis % 1000) * 1_000_000) as u32 }
    }

    /// A span of nanoseconds given as one number.
    pub fn from_nanos_wide(n: u128) -> (t: TimeSpan)
        requires
            n <= max_span(),
        ensures
            t@ == n,
    {
        TimeSpan { secs: (n / NANOS_PER_SEC) as u64, nanos: (n % NANOS_PER_SEC) as u32 }
    }

    /// Whole seconds of the span.
    pub fn as_secs(&self) -> (s: u64)
        ensures
            s == self@ / 1_000_000_000,
    {
        proof {
            use_type_invariant(self);
        }
        self.secs
    }

    /// Nanoseconds beyond the whole seconds.
    pub fn subsec_nanos(&self) -> (n: u32)
        ensures
            n == self@ % 1_000_000_000,
    {
        proof {
            use_type_invariant(self);
        }
        self.nanos
    }

    /// The span as a number of nanoseconds.
    pub fn as_nanos(&self) -> (n: u128)
        ensures
            n == self@,
            n <= max_span(),
    {
        proof {
            use_type_invariant(self);
        }
        (self.secs as u128) * NANOS_PER_SEC + (self.nanos as u128)
    }
}

/// Wraps a time span for basic formatting as `[Dd ]HH:MM:SS`.
#[derive(Debug)]
pub struct FormattedDuration(pub TimeSpan);

/// Wraps a time span for human readable formatting.
#[derive(Debug)]
pub struct HumanDuration(pub TimeSpan);

/// Formats bytes for human readability.
#[derive(Debug)]
pub struct HumanBytes(pub u64);

/// Formats bytes for human readability using SI prefixes.
#[derive(Debug)]
pub struct DecimalBytes(pub u64);

/// Formats bytes for human readability using ISO/IEC prefixes.
#[derive(Debug)]
pub struct BinaryBytes(pub u64);

/// `[Dd ]HH:MM:SS` for a number of whole seconds: days appear only when there
/// is at least one.
pub open spec fn formatted_secs(t: nat) -> Seq<char> {
    let seconds = t % 60;
    let minutes = (t / 60) % 60;
    let hours = (t / 3600) % 24;
    let days = t / 86400;
    let clock = decimal2(hours) + seq![':'] + decimal2(minutes) + seq![':'] + decimal2(seconds);
    if days > 0 {
        decimal(days) + seq!['d', ' '] + clock
    } else {
        clock
    }
}

proof fn lemma_day_split(t: nat)
    ensures
        (t % 86400) % 60 == t % 60,
        ((t % 86400) / 60) % 60 == (t / 60) % 60,
        ((t % 86400) / 3600) % 24 == (t / 3600) % 24,
        (t % 86400) / 86400 == 0,
{
    let q = t / 86400;
    let r = t % 86400;
    assert(t == 86400 * q + r && r < 86400);
    assert(r % 60 == t % 60) by (nonlinear_arith)
        requires
            t == 86400 * q + r,
            0 <= r < 86400,
            q >= 0,
    {
        assert(t == 60 * (1440 * q) + r);
    }
    assert((r / 60) % 60 == (t / 60) % 60) by (nonlinear_arith)
        requires
            t == 86400 * q + r,
            0 <= r < 86400,
            q >= 0,
    {
        assert(t / 60 == 1440 * q + r / 60);
        assert(1440 * q + r / 60 == 60 * (24 * q) + r / 60);
    }
    assert((r / 3600) % 24 == (t / 3600) % 24) by (nonlinear_arith)
        requires
            t == 86400 * q + r,
            0 <= r < 86400,
            q >= 0,
    {
        assert(t / 3600 == 24 * q + r / 3600);
    }
}

proof fn lemma_decimal2_len(n: nat)
    requires
        n < 100,
    ensures
        decimal2(n).len() == 2,
{
    if n >= 10 {
        assert(decimal(n / 10).len() == 1);
    }
}

/// The clock text tells the days apart: a span of at least a day is its
/// number of days, `d `, and the clock of what is left of the last day; a
/// shorter span is the eight characters `HH:MM:SS` alone.
pub proof fn law_formatted_days(t: nat)
    ensures
        t >= 86400 ==> formatted_secs(t) == decimal(t / 86400) + seq!['d', ' '] + formatted_secs(t % 86400),
        t < 86400 ==> formatted_secs(t).len() == 8,
{
    lemma_day_split(t);
    lemma_decimal2_len((t / 3600) % 24);
    lemma_decimal2_len((t / 60) % 60);
    lemma_decimal2_len(t % 60);
    if t < 86400 {
        assert(t / 86400 == 0);
    }
}

impl FormattedDuration {
    /// The span formatted as `[Dd ]HH:MM:SS`, fractions of a second dropped.
    pub fn to_string(&self) -> (s: String)
        ensures
            s@ == formatted_secs(self.0@ / 1_000_000_000),
    {
        let mut t = self.0.as_secs();
        let seconds = t % 60;
        t = t / 60;
        let minutes = t % 60;
        t = t / 60;
        let hours = t % 24;
        t = t / 24;
        let mut out: Vec<char> = Vec::new();
        if t > 0 {
            push_decimal(&mut out, t);
            out.push('d');
            out.push(' ');
        }
        push_decimal2(&mut out, hours);
        out.push(':');
        push_decimal2(&mut out, minutes);
        out.push(':');
        push_decimal2(&mut out, seconds);
        proof {
            let s = self.0@ / 1_000_000_000;
            assert(s / 60 / 60 == s / 3600) by (nonlinear_arith);
            assert(s / 60 / 60 / 24 == s / 86400) by (nonlinear_arith);
            assert(out@ =~= formatted_secs(s));
        }
        string_of(&out)
    }
}

/// Length in seconds of the units `HumanDuration` counts in: year, week,
/// day, hour, minute, second.
pub open spec fn unit_secs(i: int) -> nat {
    if i == 0 {
        365 * 24 * 60 * 60
    } else if i == 1 {
        7 * 24 * 60 * 60
    } else if i == 2 {
        24 * 60 * 60
    } else if i == 3 {
        60 * 60
    } else if i == 4 {
        60
    } else {
        1
    }
}

pub open spec fn unit_name(i: int) -> Seq<char> {
    if i == 0 {
        "year"@
    } else if i == 1 {
        "week"@
    } else if i == 2 {
        "day"@
    } else if i == 3 {
        "hour"@
    } else if i == 4 {
        "minute"@
    } else {
        "second"@
    }
}

pub open spec fn unit_alt(i: int) -> char {
    if i == 0 {
        'y'
    } else if i == 1 {
        'w'
    } else if i == 2 {
        'd'
    } else if i == 3 {
        'h'
    } else if i == 4 {
        'm'
    } else {
        's'
    }
}

/// `n / u` rounded to the nearest integer, halves rounded up.
pub open spec fn round_div(n: nat, u: nat) -> nat
    recommends
        u > 0,
{
    (2 * n + u) / (2 * u)
}

/// A count with a unit: `3 hours` in the long form, `3h` in the short one.
pub open spec fn count_with_unit(x: nat, i: int, alternate: bool) -> Seq<char> {
    if alternate {
        decimal(x).push(unit_alt(i))
    } else {
        decimal(x) + seq![' '] + unit_name(i) + (if x == 1 && i == 5 {
            Seq::empty()
        } else {
            seq!['s']
        })
    }
}

/// What `HumanDuration` prints for a span of `d` nanoseconds, trying the
/// units from the `i`-th on.  A unit is chosen once the span reaches one and a
/// half of it less half of the next smaller unit; the count is then rounded
/// and never shown below 2.  Spans too short for a minute are counted in
/// seconds, rounded, with the singular for exactly one.
pub open spec fn human_from(d: nat, i: int, alternate: bool) -> Seq<char>
    decreases 5 - i,
{
    if i >= 5 {
        count_with_unit(round_div(d, 1_000_000_000), 5, alternate)
    } else {
        let unit = unit_secs(i) * 1_000_000_000;
        let next = unit_secs(i + 1) * 1_000_000_000;
        if d + next / 2 >= unit + unit / 2 {
            let x = round_div(d, unit);
            count_with_unit(if x < 2 { 2 } else { x }, i, alternate)
        } else {
            human_from(d, i + 1, alternate)
        }
    }
}

pub open spec fn human_duration(d: nat, alternate: bool) -> Seq<char> {
    human_from(d, 0, alternate)
}

fn unit_nanos(i: usize) -> (n: u128)
    requires
        i <= 5,
    ensures
        n == unit_secs(i as int) * 1_000_000_000,
{
    let secs: u128 = if i == 0 {
        365 * 24 * 60 * 60
    } else if i == 1 {
        7 * 24 * 60 * 60
    } else if i == 2 {
        24 * 60 * 60
    } else if i == 3 {
        60 * 60
    } else if i == 4 {
        60
    } else {
        1
    };
    secs * NANOS_PER_SEC
}

fn push_count_with_unit(out: &mut Vec<char>, x: u128, i: usize, alternate: bool)
    requires
        i <= 5,
    ensures
        final(out)@ == old(out)@ + count_with_unit(x as nat, i as int, alternate),
{
    let ghost start = out@;
    push_decimal_wide(out, x);
    if alternate {
        let c = if i == 0 {
            'y'
        } else if i == 1 {
            'w'
        } else if i == 2 {
            'd'
        } else if i == 3 {
            'h'
        } else if i == 4 {
            'm'
        } else {
            's'
        };
        out.push(c);
        assert(out@ =~= start + count_with_unit(x as nat, i as int, alternate));
    } else {
        out.push(' ');
        let name = if i == 0 {
            "year"
        } else if i == 1 {
            "week"
        } else if i == 2 {
            "day"
        } else if i == 3 {
            "hour"
        } else if i == 4 {
            "minute"
        } else {
            "second"
        };
        push_str(out, name);
        if !(x == 1 && i == 5) {
            out.push('s');
        }
        assert(out@ =~= start + count_with_unit(x as nat, i as int, alternate));
    }
}

impl HumanDuration {
    /// The span in words, as `{}` prints it (`3 hours`) or, when `alternate`,
    /// as `{:#}` prints it (`3h`).
    pub fn format(&self, alternate: bool) -> (s: String)
        requires
            self.0@ + 302_400_000_000_000 <= max_span(),
        ensures
            s@ == human_duration(self.0@, alternate),
    {
        let d = self.0.as_nanos();
        let mut out: Vec<char> = Vec::new();
        let mut i: usize = 0;
        while i < 5
            invariant
                i <= 5,
                d == self.0@,
                d + 302_400_000_000_000 <= max_span(),
                out@ == Seq::<char>::empty(),
                human_duration(d as nat, alternate) == human_from(d as nat, i as int, alternate),
            decreases 5 - i,
        {
            let unit = unit_nanos(i);
            let next = unit_nanos(i + 1);
            assert(next / 2 <= 302_400_000_000_000);
            if d + next / 2 >= unit + unit / 2 {
                let x = (2 * d + unit) / (2 * unit);
                let x = if x < 2 { 2 } else { x };
                push_count_with_unit(&mut out, x, i, alternate);
                assert(out@ =~= human_from(d as nat, i as int, alternate));
                return string_of(&out);
            }
            i = i + 1;
        }
        let x = (2 * d + NANOS_PER_SEC) / (2 * NANOS_PER_SEC);
        push_count_with_unit(&mut out, x, 5, alternate);
        assert(out@ =~= human_from(d as nat, 5, alternate));
        string_of(&out)
    }

    /// The span in words, as `{}` prints it.
    pub fn to_string(&self) -> (s: String)
        requires
            self.0@ + 302_400_000_000_000 <= max_span(),
        ensures
            s@ == human_duration(self.0@, false),
    {
        self.format(false)
    }
}

} // verus!
