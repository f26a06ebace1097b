//! Parsing of progress bar templates such as
//! `[{elapsed_precise}] {bar:40.cyan/blue} {pos:>7}/{len:7} {msg}`.
//!
//! A placeholder is `{key}` or `{key:options}` where the options are an
//! optional alignment (`<`, `^`, `>`), an optional width, an optional `!`
//! for truncation, an optional `.`-separated style, and an optional
//! `/`-separated alternative style.  `{{` and `}}` stand for literal braces.
use vstd::prelude::*;

use crate::dotted::{opt_dotted, DottedStyle};
use crate::text::{chars_of, string_of};

verus! {

/// Horizontal alignment of a placeholder's text within its width.
#[derive(Copy, Clone, Debug, PartialEq, Eq, Structural)]
pub enum Alignment {
    Left,
    Center,
    Right,
}

/// One part of a parsed template.
#[derive(Clone, Debug)]
pub enum TemplatePart {
    Literal(String),
    Placeholder {
        key: String,
        align: Alignment,
        width: Option<u16>,
        truncate: bool,
        style: Option<DottedStyle>,
        alt_style: Option<DottedStyle>,
    },
    NewLine,
}

/// The view of a template part, with strings as sequences of characters.
pub enum Part {
    Literal(Seq<char>),
    Placeholder {
        key: Seq<char>,
        align: Alignment,
        width: Option<u16>,
        truncate: bool,
        style: Option<Seq<char>>,
        alt_style: Option<Seq<char>>,
    },
    NewLine,
}

impl View for TemplatePart {
    type V = Part;

    open spec fn view(&self) -> Part {
        match self {
            TemplatePart::Literal(s) => Part::Literal(s@),
            TemplatePart::Placeholder { key, align, width, truncate, style, alt_style } => {
                Part::Placeholder {
                    key: key@,
                    align: *align,
                    width: *width,
                    truncate: *truncate,
                    style: opt_dotted(*style),
                    alt_style: opt_dotted(*alt_style),
                }
            },
            TemplatePart::NewLine => Part::NewLine,
        }
    }
}

pub open spec fn part_views(v: Seq<TemplatePart>) -> Seq<Part> {
    v.map_values(|p: TemplatePart| p@)
}

/// States of the template scanner.
#[derive(Copy, Clone, Debug, PartialEq, Eq, Structural)]
pub enum ScanState {
    Literal,
    MaybeOpen,
    DoubleClose,
    Key,
    Align,
    Width,
    FirstStyle,
    AltStyle,
}

/// The scanner: its state, the parts finished so far, and the pending text.
pub struct Scan {
    pub state: ScanState,
    pub parts: Seq<Part>,
    pub buf: Seq<char>,
}

pub open spec fn is_ascii_ws(c: char) -> bool {
    c == ' ' || c == '\t' || c == '\n' || c == '\x0C' || c == '\r'
}

pub open spec fn is_digit_c(c: char) -> bool {
    '0' <= c && c <= '9'
}

/// The number that a string of decimal digits spells.
pub open spec fn digits_value(s: Seq<char>) -> nat
    decreases s.len(),
{
    if s.len() == 0 {
        0
    } else {
        digits_value(s.drop_last()) * 10 + ((s.last() as int) - ('0' as int)) as nat
    }
}

pub open spec fn is_placeholder(p: Part) -> bool {
    p is Placeholder
}

pub open spec fn last_is_placeholder(parts: Seq<Part>) -> bool {
    parts.len() > 0 && is_placeholder(parts.last())
}

pub open spec fn with_last(parts: Seq<Part>, p: Part) -> Seq<Part> {
    parts.update(parts.len() - 1, p)
}

pub open spec fn set_align(p: Part, a: Alignment) -> Part {
    match p {
        Part::Placeholder { key, align, width, truncate, style, alt_style } => Part::Placeholder { key, align: a, width, truncate, style, alt_style },
        _ => p,
    }
}

pub open spec fn set_truncate(p: Part) -> Part {
    match p {
        Part::Placeholder { key, align, width, truncate, style, alt_style } => Part::Placeholder { key, align, width, truncate: true, style, alt_style },
        _ => p,
    }
}

pub open spec fn set_width(p: Part, w: u16) -> Part {
    match p {
        Part::Placeholder { key, align, width, truncate, style, alt_style } => Part::Placeholder { key, align, width: Some(w), truncate, style, alt_style },
        _ => p,
    }
}

pub open spec fn set_style(p: Part, st: Seq<char>) -> Part {
    match p {
        Part::Placeholder { key, align, width, truncate, style, alt_style } => Part::Placeholder { key, align, width, truncate, style: Some(st), alt_style },
        _ => p,
    }
}

pub open spec fn set_alt_style(p: Part, st: Seq<char>) -> Part {
    match p {
        Part::Placeholder { key, align, width, truncate, style, alt_style } => Part::Placeholder { key, align, width, truncate, style, alt_style: Some(st) },
        _ => p,
    }
}

pub open spec fn new_placeholder(key: Seq<char>, truncate: bool) -> Part {
    Part::Placeholder {
        key,
        align: Alignment::Left,
        width: None,
        truncate,
        style: None,
        alt_style: None,
    }
}

/// The state the scanner moves to on `c`, the character it keeps, and what
/// it does to the parts first; `None` where the scanner has no
/// transition (an unexpected character).
pub open spec fn transition(st: Scan, c: char) -> Option<(ScanState, Option<char>, Seq<Part>, Seq<char>)> {
    let s = st.state;
    let parts = st.parts;
    let buf = st.buf;
    if s == ScanState::Literal && c == '{' {
        Some((ScanState::MaybeOpen, None, parts, buf))
    } else if s == ScanState::Literal && c == '\n' {
        let p1 = if buf.len() > 0 { parts.push(Part::Literal(buf)) } else { parts };
        Some((ScanState::Literal, None, p1.push(Part::NewLine), Seq::empty()))
    } else if s == ScanState::Literal && c == '}' {
        Some((ScanState::DoubleClose, Some('}'), parts, buf))
    } else if s == ScanState::Literal {
        Some((ScanState::Literal, Some(c), parts, buf))
    } else if s == ScanState::DoubleClose && c == '}' {
        Some((ScanState::Literal, None, parts, buf))
    } else if s == ScanState::MaybeOpen && c == '{' {
        Some((ScanState::Literal, Some('{'), parts, buf))
    } else if s == ScanState::MaybeOpen && is_ascii_ws(c) {
        // Whitespace right after a brace: the brace is literal text where it
        // stands, after the pending text.
        let text = buf.push('{').push(c);
        Some((ScanState::Literal, None, parts.push(Part::Literal(text)), Seq::empty()))
    } else if s == ScanState::Key && is_ascii_ws(c) {
        // Whitespace inside a key: the brace and the key read so far become
        // literal text.
        let text = seq!['{'] + buf.push(c);
        Some((ScanState::Literal, None, parts.push(Part::Literal(text)), Seq::empty()))
    } else if s == ScanState::MaybeOpen && c != '}' && c != ':' {
        Some((ScanState::Key, Some(c), parts, buf))
    } else if s == ScanState::Key && c != '}' && c != ':' {
        Some((ScanState::Key, Some(c), parts, buf))
    } else if s == ScanState::Key && c == ':' {
        Some((ScanState::Align, None, parts, buf))
    } else if s == ScanState::Key && c == '}' {
        Some((ScanState::Literal, None, parts, buf))
    } else if s == ScanState::Align && (c == '<' || c == '^' || c == '>') {
        let p1 = if last_is_placeholder(parts) {
            let a = if c == '<' {
                Alignment::Left
            } else if c == '^' {
                Alignment::Center
            } else {
                Alignment::Right
            };
            with_last(parts, set_align(parts.last(), a))
        } else {
            parts
        };
        Some((ScanState::Width, None, p1, buf))
    } else if s == ScanState::Align && is_digit_c(c) {
        Some((ScanState::Width, Some(c), parts, buf))
    } else if (s == ScanState::Align || s == ScanState::Width) && c == '!' {
        let p1 = if last_is_placeholder(parts) {
            with_last(parts, set_truncate(parts.last()))
        } else {
            parts
        };
        Some((ScanState::Width, None, p1, buf))
    } else if s == ScanState::Align && c == '.' {
        Some((ScanState::FirstStyle, None, parts, buf))
    } else if s == ScanState::Align && c == '}' {
        Some((ScanState::Literal, None, parts, buf))
    } else if s == ScanState::Width && is_digit_c(c) {
        Some((ScanState::Width, Some(c), parts, buf))
    } else if s == ScanState::Width && c == '.' {
        Some((ScanState::FirstStyle, None, parts, buf))
    } else if s == ScanState::Width && c == '}' {
        Some((ScanState::Literal, None, parts, buf))
    } else if s == ScanState::FirstStyle && c == '/' {
        Some((ScanState::AltStyle, None, parts, buf))
    } else if s == ScanState::FirstStyle && c == '}' {
        Some((ScanState::Literal, None, parts, buf))
    } else if s == ScanState::FirstStyle {
        Some((ScanState::FirstStyle, Some(c), parts, buf))
    } else if s == ScanState::AltStyle && c == '}' {
        Some((ScanState::Literal, None, parts, buf))
    } else if s == ScanState::AltStyle {
        Some((ScanState::AltStyle, Some(c), parts, buf))
    } else {
        None
    }
}

/// What leaving state `from` for state `to` does with the pending text:
/// a finished literal or key becomes a part, a finished width or style is
/// stored in the last placeholder.  `None` where a width does not fit `u16`.
pub open spec fn on_leave(from: ScanState, to: ScanState, parts: Seq<Part>, buf: Seq<char>) -> Option<(Seq<Part>, Seq<char>)> {
    if from == ScanState::MaybeOpen && to == ScanState::Key && buf.len() > 0 {
        Some((parts.push(Part::Literal(buf)), Seq::empty()))
    } else if from == ScanState::Key && (to == ScanState::Align || to == ScanState::Literal) && buf.len() > 0 {
        Some((parts.push(new_placeholder(buf, false)), Seq::empty()))
    } else if from == ScanState::Width && (to == ScanState::FirstStyle || to == ScanState::Literal) && buf.len() > 0 {
        if last_is_placeholder(parts) {
            if digits_value(buf) <= u16::MAX {
                Some((with_last(parts, set_width(parts.last(), digits_value(buf) as u16)), Seq::empty()))
            } else {
                None
            }
        } else {
            Some((parts, buf))
        }
    } else if from == ScanState::FirstStyle && (to == ScanState::AltStyle || to == ScanState::Literal) && buf.len() > 0 {
        if last_is_placeholder(parts) {
            Some((with_last(parts, set_style(parts.last(), buf)), Seq::empty()))
        } else {
            Some((parts, buf))
        }
    } else if from == ScanState::AltStyle && to == ScanState::Literal && buf.len() > 0 {
        if last_is_placeholder(parts) {
            Some((with_last(parts, set_alt_style(parts.last(), buf)), Seq::empty()))
        } else {
            Some((parts, buf))
        }
    } else {
        Some((parts, buf))
    }
}

/// One step of the scanner on character `c`.
pub open spec fn step(st: Scan, c: char) -> Option<Scan> {
    match transition(st, c) {
        None => None,
        Some((to, keep, parts, buf)) => match on_leave(st.state, to, parts, buf) {
            None => None,
            Some((parts2, buf2)) => Some(
                Scan {
                    state: to,
                    parts: parts2,
                    buf: match keep {
                        Some(k) => buf2.push(k),
                        None => buf2,
                    },
                },
            ),
        },
    }
}

pub open spec fn initial_scan() -> Scan {
    Scan { state: ScanState::Literal, parts: Seq::empty(), buf: Seq::empty() }
}

/// The scanner after the first `n` characters of `s`.
pub open spec fn scan(s: Seq<char>, n: nat) -> Option<Scan>
    decreases n,
{
    if n == 0 {
        Some(initial_scan())
    } else if n > s.len() {
        None
    } else {
        match scan(s, (n - 1) as nat) {
            Some(st) => step(st, s[n - 1]),
            None => None,
        }
    }
}

/// Whether `s` is a template the scanner accepts.
pub open spec fn template_ok(s: Seq<char>) -> bool {
    scan(s, s.len()) is Some
}

/// The parts of the template `s`: text still pending at the end becomes a
/// literal when the scanner is outside a placeholder, and is dropped inside
/// one.
pub open spec fn template_parts(s: Seq<char>) -> Seq<Part>
    recommends
        template_ok(s),
{
    let st = scan(s, s.len()).unwrap();
    if (st.state == ScanState::Literal || st.state == ScanState::DoubleClose) && st.buf.len() > 0 {
        st.parts.push(Part::Literal(st.buf))
    } else {
        st.parts
    }
}

proof fn lemma_scan_prefix(s: Seq<char>, i: nat, n: nat)
    requires
        i <= n,
        scan(s, n) is Some,
    ensures
        scan(s, i) is Some,
    decreases n - i,
{
    if i < n {
        lemma_scan_prefix(s, i + 1, n);
    }
}

/// A parsed template: the sequence of its parts.
#[derive(Clone, Debug)]
pub struct Template {
    pub parts: Vec<TemplatePart>,
}

fn is_ascii_ws_exec(c: char) -> (b: bool)
    ensures
        b == is_ascii_ws(c),
{
    c == ' ' || c == '\t' || c == '\n' || c == '\x0C' || c == '\r'
}

fn last_is_placeholder_exec(parts: &Vec<TemplatePart>) -> (b: bool)
    ensures
        b == last_is_placeholder(part_views(parts@)),
{
    if parts.len() == 0 {
        false
    } else {
        match &parts[parts.len() - 1] {
            TemplatePart::Placeholder { .. } => true,
            _ => false,
        }
    }
}

/// Parses a decimal number that fits in `u16`.
fn parse_u16(buf: &Vec<char>) -> (r: Option<u16>)
    requires
        forall|k: int| 0 <= k < buf@.len() ==> is_digit_c(#[trigger] buf@[k]),
    ensures
        r matches Some(v) ==> digits_value(buf@) == v,
        r is None <==> digits_value(buf@) > u16::MAX,
{
    let mut v: u32 = 0;
    let mut i: usize = 0;
    while i < buf.len()
        invariant
            i <= buf.len(),
            forall|k: int| 0 <= k < buf@.len() ==> is_digit_c(#[trigger] buf@[k]),
            v == digits_value(buf@.take(i as int)),
            v <= u16::MAX,
        decreases buf.len() - i,
    {
        let d = (buf[i] as u32) - ('0' as u32);
        assert(buf@.take(i + 1).drop_last() =~= buf@.take(i as int));
        let nv = v * 10 + d;
        if nv > 65535 {
            proof {
                lemma_digits_value_grows(buf@, (i + 1) as nat);
            }
            return None;
        }
        v = nv;
        i = i + 1;
    }
    assert(buf@.take(buf.len() as int) =~= buf@);
    Some(v as u16)
}

pub(crate) proof fn lemma_digits_value_grows(s: Seq<char>, k: nat)
    requires
        k <= s.len(),
        forall|j: int| 0 <= j < s.len() ==> is_digit_c(#[trigger] s[j]),
    ensures
        digits_value(s.take(k as int)) <= digits_value(s),
    decreases s.len() - k,
{
    if k < s.len() {
        lemma_digits_value_grows(s, k + 1);
        assert(s.take(k + 1 as int).drop_last() =~= s.take(k as int));
    } else {
        assert(s.take(k as int) =~= s);
    }
}

/// A change to the last placeholder of a template.
enum Edit {
    Align(Alignment),
    Truncate,
    Width(u16),
    Style(DottedStyle),
    AltStyle(DottedStyle),
}

spec fn apply_edit(p: Part, e: Edit) -> Part {
    match e {
        Edit::Align(a) => set_align(p, a),
        Edit::Truncate => set_truncate(p),
        Edit::Width(w) => set_width(p, w),
        Edit::Style(st) => set_style(p, st@),
        Edit::AltStyle(st) => set_alt_style(p, st@),
    }
}

/// Applies an edit to the last part, which is a placeholder.
fn edit_last(parts: &mut Vec<TemplatePart>, e: Edit)
    requires
        last_is_placeholder(part_views(old(parts)@)),
    ensures
        part_views(final(parts)@) == with_last(
            part_views(old(parts)@),
            apply_edit(part_views(old(parts)@).last(), e),
        ),
{
    let ghost before = part_views(parts@);
    let last = parts.pop().unwrap();
    let new_part = match last {
        TemplatePart::Placeholder { key, align, width, truncate, style, alt_style } => {
            match e {
                Edit::Align(a) => TemplatePart::Placeholder { key, align: a, width, truncate, style, alt_style },
                Edit::Truncate => TemplatePart::Placeholder { key, align, width, truncate: true, style, alt_style },
                Edit::Width(w) => TemplatePart::Placeholder { key, align, width: Some(w), truncate, style, alt_style },
                Edit::Style(st) => TemplatePart::Placeholder { key, align, width, truncate, style: Some(st), alt_style },
                Edit::AltStyle(st) => TemplatePart::Placeholder { key, align, width, truncate, style, alt_style: Some(st) },
            }
        },
        other => other,
    };
    parts.push(new_part);
    assert(part_views(parts@) =~= with_last(before, apply_edit(before.last(), e)));
}

fn push_part(parts: &mut Vec<TemplatePart>, p: TemplatePart)
    ensures
        part_views(final(parts)@) == part_views(old(parts)@).push(p@),
{
    parts.push(p);
    assert(part_views(final(parts)@) =~= part_views(old(parts)@).push(p@));
}

impl Template {
    /// Parses a template.  The template must be one the scanner accepts: a
    /// lone `}` outside a placeholder, a `{` followed by `}` or `:`, an
    /// unexpected character among a placeholder's options, or a width beyond
    /// `u16` are rejected.
    pub fn from_str(s: &str) -> (t: Template)
        requires
            template_ok(s@),
        ensures
            part_views(t.parts@) == template_parts(s@),
    {
        match Self::try_from_str(s) {
            Some(t) => t,
            None => {
                proof {
                    assert(false);
                }
                Template { parts: Vec::new() }
            },
        }
    }

    /// Parses a template, or gives `None` where the scanner rejects it (see
    /// `from_str`).
    pub fn try_from_str(s: &str) -> (r: Option<Template>)
        ensures
            r is Some <==> template_ok(s@),
            r matches Some(t) ==> part_views(t.parts@) == template_parts(s@),
    {
        let v = chars_of(s);
        let mut state = ScanState::Literal;
        let mut parts: Vec<TemplatePart> = Vec::new();
        let mut buf: Vec<char> = Vec::new();
        let mut i: usize = 0;
        assert(part_views(parts@) =~= Seq::<Part>::empty());
        while i < v.len()
            invariant
                i <= v.len(),
                v@ == s@,
                scan(v@, i as nat) == Some(Scan { state, parts: part_views(parts@), buf: buf@ }),
                (state == ScanState::Width || state == ScanState::Align) ==> forall|k: int|
                    0 <= k < buf@.len() ==> is_digit_c(#[trigger] buf@[k]),
            decreases v.len() - i,
        {
            let c = v[i];
            let ghost st = Scan { state, parts: part_views(parts@), buf: buf@ };
            if !has_transition(state, c, &parts, &buf) {
                proof {
                    assert(scan(v@, (i + 1) as nat) is None);
                    if template_ok(v@) {
                        lemma_scan_prefix(v@, (i + 1) as nat, v.len() as nat);
                    }
                }
                return None;
            }
            let (to, keep) = transition_exec(state, c, &mut parts, &mut buf);
            let ok = on_leave_exec(state, to, &mut parts, &mut buf);
            if !ok {
                proof {
                    assert(scan(v@, (i + 1) as nat) is None);
                    if template_ok(v@) {
                        lemma_scan_prefix(v@, (i + 1) as nat, v.len() as nat);
                    }
                }
                return None;
            }
            match keep {
                Some(k) => buf.push(k),
                None => {},
            }
            state = to;
            proof {
                assert(scan(v@, (i + 1) as nat) == step(st, c));
            }
            i = i + 1;
        }
        if (state == ScanState::Literal || state == ScanState::DoubleClose) && buf.len() > 0 {
            push_part(&mut parts, TemplatePart::Literal(string_of(&buf)));
        }
        Some(Template { parts })
    }
}

/// Performs the transition of the scanner on `c`: returns the next state and
/// the character to keep, and makes the changes to the parts and the
/// pending text that the transition makes.
fn transition_exec(
    state: ScanState,
    c: char,
    parts: &mut Vec<TemplatePart>,
    buf: &mut Vec<char>,
) -> (r: (ScanState, Option<char>))
    requires
        transition(Scan { state, parts: part_views(old(parts)@), buf: old(buf)@ }, c) is Some,
    ensures
        transition(Scan { state, parts: part_views(old(parts)@), buf: old(buf)@ }, c) == Some(
            (r.0, r.1, part_views(final(parts)@), final(buf)@),
        ),
{
    let ghost st = Scan { state, parts: part_views(parts@), buf: buf@ };
    if state == ScanState::Literal && c == '{' {
        (ScanState::MaybeOpen, None)
    } else if state == ScanState::Literal && c == '\n' {
        if buf.len() > 0 {
            push_part(parts, TemplatePart::Literal(string_of(buf)));
        }
        push_part(parts, TemplatePart::NewLine);
        *buf = Vec::new();
        (ScanState::Literal, None)
    } else if state == ScanState::Literal && c == '}' {
        (ScanState::DoubleClose, Some('}'))
    } else if state == ScanState::Literal {
        (ScanState::Literal, Some(c))
    } else if state == ScanState::DoubleClose && c == '}' {
        (ScanState::Literal, None)
    } else if state == ScanState::MaybeOpen && c == '{' {
        (ScanState::Literal, Some('{'))
    } else if state == ScanState::MaybeOpen && is_ascii_ws_exec(c) {
        let mut text: Vec<char> = Vec::new();
        crate::text::push_all(&mut text, buf);
        text.push('{');
        text.push(c);
        assert(text@ =~= st.buf.push('{').push(c));
        push_part(parts, TemplatePart::Literal(string_of(&text)));
        *buf = Vec::new();
        (ScanState::Literal, None)
    } else if state == ScanState::Key && is_ascii_ws_exec(c) {
        let mut text: Vec<char> = Vec::new();
        text.push('{');
        crate::text::push_all(&mut text, buf);
        text.push(c);
        assert(text@ =~= seq!['{'] + st.buf.push(c));
        push_part(parts, TemplatePart::Literal(string_of(&text)));
        *buf = Vec::new();
        (ScanState::Literal, None)
    } else if state == ScanState::MaybeOpen && c != '}' && c != ':' {
        (ScanState::Key, Some(c))
    } else if state == ScanState::Key && c != '}' && c != ':' {
        (ScanState::Key, Some(c))
    } else if state == ScanState::Key && c == ':' {
        (ScanState::Align, None)
    } else if state == ScanState::Key && c == '}' {
        (ScanState::Literal, None)
    } else if state == ScanState::Align && (c == '<' || c == '^' || c == '>') {
        if last_is_placeholder_exec(parts) {
            let a = if c == '<' {
                Alignment::Left
            } else if c == '^' {
                Alignment::Center
            } else {
                Alignment::Right
            };
            edit_last(parts, Edit::Align(a));
        }
        (ScanState::Width, None)
    } else if state == ScanState::Align && '0' <= c && c <= '9' {
        (ScanState::Width, Some(c))
    } else if (state == ScanState::Align || state == ScanState::Width) && c == '!' {
        if last_is_placeholder_exec(parts) {
            edit_last(parts, Edit::Truncate);
        }
        (ScanState::Width, None)
    } else if state == ScanState::Align && c == '.' {
        (ScanState::FirstStyle, None)
    } else if state == ScanState::Align && c == '}' {
        (ScanState::Literal, None)
    } else if state == ScanState::Width && '0' <= c && c <= '9' {
        (ScanState::Width, Some(c))
    } else if state == ScanState::Width && c == '.' {
        (ScanState::FirstStyle, None)
    } else if state == ScanState::Width && c == '}' {
        (ScanState::Literal, None)
    } else if state == ScanState::FirstStyle && c == '/' {
        (ScanState::AltStyle, None)
    } else if state == ScanState::FirstStyle && c == '}' {
        (ScanState::Literal, None)
    } else if state == ScanState::FirstStyle {
        (ScanState::FirstStyle, Some(c))
    } else if state == ScanState::AltStyle && c == '}' {
        (ScanState::Literal, None)
    } else {
        (ScanState::AltStyle, Some(c))
    }
}

/// Performs what leaving state `from` for `to` does with the pending text.
/// Returns `false`, changing nothing, where a width does not fit `u16`.
fn on_leave_exec(from: ScanState, to: ScanState, parts: &mut Vec<TemplatePart>, buf: &mut Vec<char>) -> (ok: bool)
    requires
        from == ScanState::Width ==> forall|k: int| 0 <= k < old(buf)@.len() ==> is_digit_c(#[trigger] old(buf)@[k]),
    ensures
        ok == on_leave(from, to, part_views(old(parts)@), old(buf)@) is Some,
        ok ==> on_leave(from, to, part_views(old(parts)@), old(buf)@) == Some(
            (part_views(final(parts)@), final(buf)@),
        ),
{
    if from == ScanState::MaybeOpen && to == ScanState::Key && buf.len() > 0 {
        push_part(parts, TemplatePart::Literal(string_of(buf)));
        *buf = Vec::new();
    } else if from == ScanState::Key && (to == ScanState::Align || to == ScanState::Literal) && buf.len() > 0 {
        let key = string_of(buf);
        push_part(
            parts,
            TemplatePart::Placeholder {
                key,
                align: Alignment::Left,
                width: None,
                truncate: false,
                style: None,
                alt_style: None,
            },
        );
        *buf = Vec::new();
    } else if from == ScanState::Width && (to == ScanState::FirstStyle || to == ScanState::Literal) && buf.len() > 0 {
        if last_is_placeholder_exec(parts) {
            match parse_u16(buf) {
                Some(w) => {
                    edit_last(parts, Edit::Width(w));
                    *buf = Vec::new();
                },
                None => {
                    return false;
                },
            }
        }
    } else if from == ScanState::FirstStyle && (to == ScanState::AltStyle || to == ScanState::Literal) && buf.len() > 0 {
        if last_is_placeholder_exec(parts) {
            let st = DottedStyle::from_dotted_str(string_of(buf).as_str());
            edit_last(parts, Edit::Style(st));
            *buf = Vec::new();
        }
    } else if from == ScanState::AltStyle && to == ScanState::Literal && buf.len() > 0 {
        if last_is_placeholder_exec(parts) {
            let st = DottedStyle::from_dotted_str(string_of(buf).as_str());
            edit_last(parts, Edit::AltStyle(st));
            *buf = Vec::new();
        }
    }
    true
}

/// Whether the scanner has a transition from `state` on `c`.
fn has_transition(state: ScanState, c: char, parts: &Vec<TemplatePart>, buf: &Vec<char>) -> (b: bool)
    ensures
        b == transition(Scan { state, parts: part_views(parts@), buf: buf@ }, c) is Some,
{
    match state {
        ScanState::Literal => true,
        ScanState::DoubleClose => c == '}',
        ScanState::MaybeOpen => c != '}' && c != ':',
        ScanState::Key => true,
        ScanState::Align => c == '<' || c == '^' || c == '>' || ('0' <= c && c <= '9') || c == '!' || c == '.'
            || c == '}',
        ScanState::Width => ('0' <= c && c <= '9') || c == '!' || c == '.' || c == '}',
        ScanState::FirstStyle => true,
        ScanState::AltStyle => true,
    }
}


/// Whether character `c` keeps the scanner in `state`, adding `c` to the
/// pending text.
pub open spec fn stays_in(state: ScanState, c: char) -> bool {
    match state {
        ScanState::Key => c != '}' && c != ':' && !is_ascii_ws(c),
        ScanState::Width => is_digit_c(c),
        ScanState::FirstStyle => c != '/' && c != '}',
        ScanState::AltStyle => c != '}',
        _ => false,
    }
}

proof fn lemma_scan_run(s: Seq<char>, i: nat, j: nat, st: Scan)
    requires
        i <= j <= s.len(),
        scan(s, i) == Some(st),
        forall|k: int| i <= k < j ==> stays_in(st.state, #[trigger] s[k]),
    ensures
        scan(s, j) == Some(Scan { state: st.state, parts: st.parts, buf: st.buf + s.subrange(i as int, j as int) }),
    decreases j - i,
{
    if j == i {
        assert(st.buf + s.subrange(i as int, j as int) =~= st.buf);
    } else {
        lemma_scan_run(s, i, (j - 1) as nat, st);
        let c = s[j - 1];
        assert(stays_in(st.state, c));
        assert(st.buf + s.subrange(i as int, j - 1) + seq![c] =~= st.buf + s.subrange(i as int, j as int));
        assert((st.buf + s.subrange(i as int, j - 1)).push(c) =~= st.buf + s.subrange(i as int, j as int));
    }
}

/// The template `{key:WIDTH.STYLE/ALT}` (the width optional) is one
/// placeholder with that key, width, style and alternative style: the text
/// after `/` is kept as the style of the bar's empty part.
#[verifier::rlimit(60)]
pub proof fn law_placeholder_with_alt_style(k: Seq<char>, wd: Seq<char>, sty: Seq<char>, a: Seq<char>)
    requires
        k.len() >= 1,
        k[0] != '{',
        forall|i: int| 0 <= i < k.len() ==> stays_in(ScanState::Key, #[trigger] k[i]),
        forall|i: int| 0 <= i < wd.len() ==> is_digit_c(#[trigger] wd[i]),
        digits_value(wd) <= u16::MAX,
        sty.len() >= 1,
        forall|i: int| 0 <= i < sty.len() ==> stays_in(ScanState::FirstStyle, #[trigger] sty[i]),
        a.len() >= 1,
        forall|i: int| 0 <= i < a.len() ==> stays_in(ScanState::AltStyle, #[trigger] a[i]),
    ensures
        ({
            let t = seq!['{'] + k + seq![':'] + wd + seq!['.'] + sty + seq!['/'] + a + seq!['}'];
            &&& template_ok(t)
            &&& template_parts(t) == seq![
                Part::Placeholder {
                    key: k,
                    align: Alignment::Left,
                    width: if wd.len() > 0 { Some(digits_value(wd) as u16) } else { None },
                    truncate: false,
                    style: Some(sty),
                    alt_style: Some(a),
                },
            ]
        }),
{
    let t = seq!['{'] + k + seq![':'] + wd + seq!['.'] + sty + seq!['/'] + a + seq!['}'];
    let kl: int = k.len() as int;
    let wl: int = wd.len() as int;
    let sl: int = sty.len() as int;
    let al: int = a.len() as int;
    assert(t.len() == kl + wl + sl + al + 5);
    assert(t[0] == '{');
    assert forall|i: int| 0 <= i < kl implies t[1 + i] == k[i] by {}
    assert(t[1 + kl] == ':');
    assert forall|i: int| 0 <= i < wl implies t[2 + kl + i] == wd[i] by {}
    assert(t[2 + kl + wl] == '.');
    assert forall|i: int| 0 <= i < sl implies t[3 + kl + wl + i] == sty[i] by {}
    assert(t[3 + kl + wl + sl] == '/');
    assert forall|i: int| 0 <= i < al implies t[4 + kl + wl + sl + i] == a[i] by {}
    assert(t[4 + kl + wl + sl + al] == '}');

    // `{`
    let s1 = Scan { state: ScanState::MaybeOpen, parts: Seq::empty(), buf: Seq::empty() };
    assert(scan(t, 1) == Some(s1)) by {
        assert(scan(t, 0) == Some(initial_scan()));
    }
    // the first character of the key
    let s2 = Scan { state: ScanState::Key, parts: Seq::empty(), buf: seq![k[0]] };
    assert(scan(t, 2) == Some(s2)) by {
        assert(t[1] == k[0]);
        assert(stays_in(ScanState::Key, k[0]));
    }
    // the rest of the key
    assert forall|i: int| 2 <= i < 1 + kl implies stays_in(ScanState::Key, #[trigger] t[i]) by {
        assert(t[i] == k[i - 1]);
    }
    lemma_scan_run(t, 2, (1 + kl) as nat, s2);
    assert(seq![k[0]] + t.subrange(2, 1 + kl) =~= k);
    // `:` finishes the key
    let ph = new_placeholder(k, false);
    let s3 = Scan { state: ScanState::Align, parts: seq![ph], buf: Seq::empty() };
    assert(scan(t, (2 + kl) as nat) == Some(s3));
    // the width, then `.`
    let wpart = if wl > 0 { set_width(ph, digits_value(wd) as u16) } else { ph };
    let s5 = Scan { state: ScanState::FirstStyle, parts: seq![wpart], buf: Seq::empty() };
    if wl > 0 {
        let s4 = Scan { state: ScanState::Width, parts: seq![ph], buf: seq![wd[0]] };
        assert(scan(t, (3 + kl) as nat) == Some(s4)) by {
            assert(t[2 + kl] == wd[0]);
        }
        assert forall|i: int| 3 + kl <= i < 2 + kl + wl implies stays_in(ScanState::Width, #[trigger] t[i]) by {
            assert(t[i] == wd[i - 2 - kl]);
        }
        lemma_scan_run(t, (3 + kl) as nat, (2 + kl + wl) as nat, s4);
        assert(seq![wd[0]] + t.subrange(3 + kl, 2 + kl + wl) =~= wd);
        assert(scan(t, (2 + kl + wl) as nat) == Some(Scan { state: ScanState::Width, parts: seq![ph], buf: wd }));
        assert(with_last(seq![ph], set_width(seq![ph].last(), digits_value(wd) as u16)) =~= seq![wpart]);
        assert(last_is_placeholder(seq![ph]));
        assert(scan(t, (3 + kl + wl) as nat) == Some(s5));
    } else {
        assert(scan(t, (3 + kl + wl) as nat) == Some(s5));
    }
    // the style, then `/`
    assert forall|i: int| 3 + kl + wl <= i < 3 + kl + wl + sl implies stays_in(
        ScanState::FirstStyle,
        #[trigger] t[i],
    ) by {
        assert(t[i] == sty[i - 3 - kl - wl]);
    }
    lemma_scan_run(t, (3 + kl + wl) as nat, (3 + kl + wl + sl) as nat, s5);
    assert(Seq::<char>::empty() + t.subrange(3 + kl + wl, 3 + kl + wl + sl) =~= sty);
    let spart = set_style(wpart, sty);
    let s6 = Scan { state: ScanState::AltStyle, parts: seq![spart], buf: Seq::empty() };
    assert(with_last(seq![wpart], set_style(seq![wpart].last(), sty)) =~= seq![spart]);
    assert(scan(t, (4 + kl + wl + sl) as nat) == Some(s6));
    // the alternative style, then `}`
    assert forall|i: int| 4 + kl + wl + sl <= i < 4 + kl + wl + sl + al implies stays_in(
        ScanState::AltStyle,
        #[trigger] t[i],
    ) by {
        assert(t[i] == a[i - 4 - kl - wl - sl]);
    }
    lemma_scan_run(t, (4 + kl + wl + sl) as nat, (4 + kl + wl + sl + al) as nat, s6);
    assert(Seq::<char>::empty() + t.subrange(4 + kl + wl + sl, 4 + kl + wl + sl + al) =~= a);
    let apart = set_alt_style(spart, a);
    assert(with_last(seq![spart], set_alt_style(seq![spart].last(), a)) =~= seq![apart]);
    let s7 = Scan { state: ScanState::Literal, parts: seq![apart], buf: Seq::empty() };
    assert(scan(t, t.len()) == Some(s7));
}

} // verus!
