//! Terminal styling: colors, attributes, styled values, and the grammar of
//! ANSI escape sequences that is used to measure the printable width of text.
use vstd::prelude::*;

use crate::text::{chars_of, decimal, eq_str, push_all, push_decimal, string_of};

verus! {

// ---------------------------------------------------------------------------
// The grammar of escape sequences.
//
// An escape sequence is a lead character (ESC or CSI), a run of introducer
// characters `[ ( ) # ; ?`, an optional parameter list made of one to four
// digits followed by any number of `;` groups of up to four digits, and a
// final character.  Where several matches start at the same place, the
// preferred one is the one a backtracking matcher with greedy repetition
// finds first; the spec functions below state that order directly.
// ---------------------------------------------------------------------------

pub open spec fn is_lead(c: char) -> bool {
    c == '\x1b' || c == '\u{9b}'
}

pub open spec fn is_intro(c: char) -> bool {
    c == '[' || c == '(' || c == ')' || c == '#' || c == ';' || c == '?'
}

pub open spec fn is_digit(c: char) -> bool {
    '0' <= c && c <= '9'
}

pub open spec fn is_final(c: char) -> bool {
    ||| is_digit(c)
    ||| ('A' <= c && c <= 'P')
    ||| c == 'R'
    ||| c == 'Z'
    ||| c == 'c'
    ||| ('f' <= c && c <= 'n')
    ||| c == 'q'
    ||| c == 'r'
    ||| c == 'y'
    ||| c == '='
    ||| c == '>'
    ||| c == '<'
}

/// First position at or after `p` that does not hold an introducer.
pub open spec fn intro_end(s: Seq<char>, p: int) -> int
    decreases s.len() - p,
{
    if p < 0 || p >= s.len() || !is_intro(s[p]) {
        p
    } else {
        intro_end(s, p + 1)
    }
}

/// Number of digits starting at `p`, at most `m`.
pub open spec fn digits_upto(s: Seq<char>, p: int, m: nat) -> nat
    decreases m,
{
    if m == 0 || p < 0 || p >= s.len() || !is_digit(s[p]) {
        0
    } else {
        1 + digits_upto(s, p + 1, (m - 1) as nat)
    }
}

/// The final character, if the one at `q` is one.
pub open spec fn final_at(s: Seq<char>, q: int) -> Option<int> {
    if 0 <= q < s.len() && is_final(s[q]) {
        Some(q + 1)
    } else {
        None
    }
}

/// End of the first match, in backtracking order, of `(;[0-9]{0,4})*` followed
/// by a final character, starting at `q`.
pub open spec fn rep_tail(s: Seq<char>, q: int) -> Option<int>
    decreases s.len() + 1 - q, 0int,
{
    if q < 0 || q > s.len() {
        None
    } else {
        let first = if q < s.len() && s[q] == ';' {
            semi_group(s, q + 1, digits_upto(s, q + 1, 4))
        } else {
            None
        };
        if first is Some {
            first
        } else {
            final_at(s, q)
        }
    }
}

/// One more `;` group whose digits start at `p`: try `j` digits, then fewer.
pub open spec fn semi_group(s: Seq<char>, p: int, j: nat) -> Option<int>
    decreases s.len() + 1 - p, j + 1,
{
    if p < 0 || p + j > s.len() {
        None
    } else {
        let r = rep_tail(s, p + j);
        if r is Some {
            r
        } else if j == 0 {
            None
        } else {
            semi_group(s, p, (j - 1) as nat)
        }
    }
}

/// The leading digit group `[0-9]{1,4}` with `k` digits, then fewer.
pub open spec fn lead_group(s: Seq<char>, p: int, k: nat) -> Option<int>
    decreases k,
{
    if k == 0 {
        None
    } else {
        let r = rep_tail(s, p + k);
        if r is Some {
            r
        } else {
            lead_group(s, p, (k - 1) as nat)
        }
    }
}

/// End of the first match of the optional parameter list and the final
/// character at `p`.
pub open spec fn params_then_final(s: Seq<char>, p: int) -> Option<int> {
    let r = lead_group(s, p, digits_upto(s, p, 4));
    if r is Some {
        r
    } else {
        final_at(s, p)
    }
}

/// End of the escape sequence that starts at `i`, if one does.
pub open spec fn escape_at(s: Seq<char>, i: int) -> Option<int> {
    if 0 <= i < s.len() && is_lead(s[i]) {
        params_then_final(s, intro_end(s, i + 1))
    } else {
        None
    }
}

/// The text left after removing, from left to right, every escape sequence.
pub open spec fn strip_from(s: Seq<char>, i: int) -> Seq<char>
    decreases s.len() - i,
{
    if i < 0 || i >= s.len() {
        Seq::empty()
    } else {
        match escape_at(s, i) {
            Some(e) => if i < e && e <= s.len() {
                strip_from(s, e)
            } else {
                Seq::empty()
            },
            None => seq![s[i]] + strip_from(s, i + 1),
        }
    }
}

pub open spec fn strip_ansi(s: Seq<char>) -> Seq<char> {
    strip_from(s, 0)
}

// The greedy scan that the executable matcher performs: take every `;` group
// with as many digits as allowed; if the character reached is not final, the
// last digit taken serves as the final character instead.
pub open spec fn greedy(s: Seq<char>, q: int, last: Option<int>) -> Option<int>
    decreases s.len() - q,
{
    if 0 <= q < s.len() && s[q] == ';' {
        let j = digits_upto(s, q + 1, 4);
        proof {
            lemma_digits_bound(s, q + 1, 4);
        }
        greedy(s, q + 1 + j, if j > 0 { Some(q + 1 + j) } else { last })
    } else if 0 <= q < s.len() && is_final(s[q]) {
        Some(q + 1)
    } else {
        last
    }
}

pub proof fn lemma_digits_bound(s: Seq<char>, p: int, m: nat)
    ensures
        digits_upto(s, p, m) <= m,
        digits_upto(s, p, m) > 0 ==> 0 <= p && p + digits_upto(s, p, m) <= s.len(),
        forall|t: int| p <= t < p + digits_upto(s, p, m) ==> is_digit(#[trigger] s[t]),
    decreases m,
{
    if m > 0 && 0 <= p < s.len() && is_digit(s[p]) {
        lemma_digits_bound(s, p + 1, (m - 1) as nat);
    }
}

proof fn lemma_greedy_some(s: Seq<char>, q: int, e: int)
    ensures
        greedy(s, q, Some(e)) is Some,
    decreases s.len() - q,
{
    if 0 <= q < s.len() && s[q] == ';' {
        let j = digits_upto(s, q + 1, 4);
        lemma_digits_bound(s, q + 1, 4);
        lemma_greedy_some(s, q + 1 + j, if j > 0 { q + 1 + j } else { e });
    }
}

proof fn lemma_greedy_or(s: Seq<char>, q: int, l: Option<int>)
    ensures
        greedy(s, q, l) == (if greedy(s, q, None) is Some { greedy(s, q, None) } else { l }),
    decreases s.len() - q,
{
    if 0 <= q < s.len() && s[q] == ';' {
        let j = digits_upto(s, q + 1, 4);
        lemma_digits_bound(s, q + 1, 4);
        if j > 0 {
            lemma_greedy_some(s, q + 1 + j, q + 1 + j);
        } else {
            lemma_greedy_or(s, q + 1 + j, l);
            lemma_greedy_or(s, q + 1 + j, None);
        }
    }
}

proof fn lemma_rep_tail_greedy(s: Seq<char>, q: int)
    requires
        0 <= q <= s.len(),
    ensures
        rep_tail(s, q) == greedy(s, q, None),
    decreases s.len() - q,
{
    if q < s.len() && s[q] == ';' {
        let p = q + 1;
        let j = digits_upto(s, p, 4);
        lemma_digits_bound(s, p, 4);
        lemma_rep_tail_greedy(s, p + j);
        if j > 0 {
            assert(is_digit(s[p + j - 1]));
            assert(rep_tail(s, p + j - 1) == Some(p + j)) by {
                assert(final_at(s, p + j - 1) == Some(p + j));
            }
            assert(semi_group(s, p, (j - 1) as nat) == Some(p + j));
            lemma_greedy_or(s, p + j, Some(p + j));
        }
    }
}

proof fn lemma_params_greedy(s: Seq<char>, p: int)
    requires
        0 <= p <= s.len(),
    ensures
        params_then_final(s, p) == (if digits_upto(s, p, 4) > 0 {
            greedy(s, p + digits_upto(s, p, 4), Some(p + digits_upto(s, p, 4)))
        } else {
            final_at(s, p)
        }),
{
    let k = digits_upto(s, p, 4);
    lemma_digits_bound(s, p, 4);
    if k > 0 {
        lemma_rep_tail_greedy(s, p + k);
        lemma_greedy_or(s, p + k, Some(p + k));
        assert(is_digit(s[p + k - 1]));
        if k > 1 {
            assert(rep_tail(s, p + k - 1) == Some(p + k)) by {
                assert(final_at(s, p + k - 1) == Some(p + k));
            }
            assert(lead_group(s, p, (k - 1) as nat) == Some(p + k));
        } else {
            assert(final_at(s, p) == Some(p + 1));
        }
    }
}

fn is_lead_char(c: char) -> (b: bool)
    ensures
        b == is_lead(c),
{
    c == '\x1b' || c == '\u{9b}'
}

fn is_intro_char(c: char) -> (b: bool)
    ensures
        b == is_intro(c),
{
    c == '[' || c == '(' || c == ')' || c == '#' || c == ';' || c == '?'
}

fn is_digit_char(c: char) -> (b: bool)
    ensures
        b == is_digit(c),
{
    '0' <= c && c <= '9'
}

fn is_final_char(c: char) -> (b: bool)
    ensures
        b == is_final(c),
{
    ('0' <= c && c <= '9') || ('A' <= c && c <= 'P') || c == 'R' || c == 'Z' || c == 'c' || ('f'
        <= c && c <= 'n') || c == 'q' || c == 'r' || c == 'y' || c == '=' || c == '>' || c == '<'
}

fn intro_end_exec(s: &Vec<char>, p: usize) -> (q: usize)
    requires
        p <= s.len(),
    ensures
        q as int == intro_end(s@, p as int),
        p <= q <= s.len(),
{
    let mut q = p;
    while q < s.len() && is_intro_char(s[q])
        invariant
            p <= q <= s.len(),
            intro_end(s@, p as int) == intro_end(s@, q as int),
        decreases s.len() - q,
    {
        q = q + 1;
    }
    q
}

fn digits_upto_exec(s: &Vec<char>, p: usize, m: usize) -> (n: usize)
    requires
        p <= s.len(),
    ensures
        n as nat == digits_upto(s@, p as int, m as nat),
        p + n <= s.len(),
{
    let mut n: usize = 0;
    while n < m && p + n < s.len() && is_digit_char(s[p + n])
        invariant
            n <= m,
            p + n <= s.len(),
            digits_upto(s@, p as int, m as nat) == n + digits_upto(
                s@,
                (p + n) as int,
                (m - n) as nat,
            ),
        decreases m - n,
    {
        n = n + 1;
    }
    n
}

fn final_at_exec(s: &Vec<char>, q: usize) -> (r: Option<usize>)
    ensures
        r matches Some(e) ==> final_at(s@, q as int) == Some(e as int),
        r is None ==> final_at(s@, q as int) is None,
{
    if q < s.len() && is_final_char(s[q]) {
        Some(q + 1)
    } else {
        None
    }
}

pub open spec fn opt_int(o: Option<usize>) -> Option<int> {
    match o {
        Some(x) => Some(x as int),
        None => None,
    }
}

fn greedy_exec(s: &Vec<char>, q0: usize, last0: Option<usize>) -> (r: Option<usize>)
    requires
        q0 <= s.len(),
    ensures
        r matches Some(e) ==> greedy(s@, q0 as int, opt_int(last0)) == Some(
            e as int,
        ),
        r is None ==> greedy(s@, q0 as int, opt_int(last0)) is None,
{
    let mut q = q0;
    let mut last = last0;
    while q < s.len() && s[q] == ';'
        invariant
            q <= s.len(),
            greedy(s@, q0 as int, opt_int(last0)) == greedy(
                s@,
                q as int,
                opt_int(last),
            ),
        decreases s.len() - q,
    {
        let j = digits_upto_exec(s, q + 1, 4);
        if j > 0 {
            last = Some(q + 1 + j);
        }
        q = q + 1 + j;
    }
    if q < s.len() && is_final_char(s[q]) {
        Some(q + 1)
    } else {
        last
    }
}

/// End of the escape sequence that starts at `i`, if one does.
fn escape_at_exec(s: &Vec<char>, i: usize) -> (r: Option<usize>)
    requires
        i < s.len(),
    ensures
        r matches Some(e) ==> escape_at(s@, i as int) == Some(e as int) && i < e <= s.len(),
        r is None ==> escape_at(s@, i as int) is None,
{
    if !is_lead_char(s[i]) {
        return None;
    }
    let p = intro_end_exec(s, i + 1);
    proof {
        lemma_params_greedy(s@, p as int);
    }
    let k = digits_upto_exec(s, p, 4);
    if k > 0 {
        proof {
            lemma_greedy_bound(s@, (p + k) as int, Some((p + k) as int));
        }
        greedy_exec(s, p + k, Some(p + k))
    } else {
        final_at_exec(s, p)
    }
}

proof fn lemma_greedy_bound(s: Seq<char>, q: int, l: Option<int>)
    requires
        0 <= q <= s.len(),
        l matches Some(e) ==> 0 < e <= s.len(),
    ensures
        greedy(s, q, l) matches Some(e) ==> 0 < e <= s.len() && (e > q || l == Some(e)),
    decreases s.len() - q,
{
    if 0 <= q < s.len() && s[q] == ';' {
        let j = digits_upto(s, q + 1, 4);
        lemma_digits_bound(s, q + 1, 4);
        lemma_greedy_bound(s, q + 1 + j, if j > 0 { Some(q + 1 + j) } else { l });
    }
}

/// Removes every ANSI escape sequence from a string.
pub fn strip_ansi_codes(s: &str) -> (r: String)
    ensures
        r@ == strip_ansi(s@),
{
    let v = chars_of(s);
    let mut out: Vec<char> = Vec::new();
    let mut i: usize = 0;
    while i < v.len()
        invariant
            i <= v.len(),
            v@ == s@,
            out@ + strip_from(v@, i as int) == strip_ansi(v@),
        decreases v.len() - i,
    {
        match escape_at_exec(&v, i) {
            Some(e) => {
                i = e;
            },
            None => {
                let ghost prev = out@;
                out.push(v[i]);
                assert(prev + strip_from(v@, i as int) =~= out@ + strip_from(v@, (i + 1) as int));
                i = i + 1;
            },
        }
    }
    string_of(&out)
}

/// Names the display width that `unicode_width` gives a string.
pub uninterp spec fn unicode_str_width(s: Seq<char>) -> nat;

/// Calls `UnicodeWidthStr::width` of the `unicode_width` crate.  The contract
/// names its result, and states the one fact that its source shows plainly:
/// a string made only of characters up to U+00A0, other than line feed and
/// carriage return, is as wide as it is long.
#[verifier::external_body]
fn str_width(s: &str) -> (w: usize)
    ensures
        w == unicode_str_width(s@),
        (forall|i: int|
            0 <= i < s@.len() ==> #[trigger] s@[i] <= '\u{a0}' && s@[i] != '\n' && s@[i] != '\r')
            ==> w == s@.len(),
{
    unicode_width::UnicodeWidthStr::width(s)
}

/// Measures the width of a string in terminal columns, ignoring escape codes.
pub fn measure_text_width(s: &str) -> (w: usize)
    ensures
        w == unicode_str_width(strip_ansi(s@)),
        (forall|i: int|
            0 <= i < strip_ansi(s@).len() ==> #[trigger] strip_ansi(s@)[i] <= '\u{a0}'
                && strip_ansi(s@)[i] != '\n' && strip_ansi(s@)[i] != '\r') ==> w == strip_ansi(
            s@,
        ).len(),
{
    let stripped = strip_ansi_codes(s);
    str_width(stripped.as_str())
}

/// Whether colors should be used, as `clicolors_control` decides it from the
/// environment and from earlier calls of [`set_colors_enabled`].
#[verifier::external_body]
pub fn colors_enabled() -> bool {
    clicolors_control::colors_enabled()
}

/// Forces colorization on or off for the whole process, through
/// `clicolors_control::set_colors_enabled`.
#[verifier::external_body]
pub fn set_colors_enabled(val: bool) {
    clicolors_control::set_colors_enabled(val)
}

// ---------------------------------------------------------------------------
// Colors, attributes and styles.
// ---------------------------------------------------------------------------

/// A terminal color.
#[derive(Copy, Clone, Debug, PartialEq, Eq, Structural)]
pub enum Color {
    Black,
    Red,
    Green,
    Yellow,
    Blue,
    Magenta,
    Cyan,
    White,
}

impl Color {
    pub open spec fn code(self) -> nat {
        match self {
            Color::Black => 0,
            Color::Red => 1,
            Color::Green => 2,
            Color::Yellow => 3,
            Color::Blue => 4,
            Color::Magenta => 5,
            Color::Cyan => 6,
            Color::White => 7,
        }
    }

    fn ansi_num(&self) -> (n: u64)
        ensures
            n == self.code(),
    {
        match *self {
            Color::Black => 0,
            Color::Red => 1,
            Color::Green => 2,
            Color::Yellow => 3,
            Color::Blue => 4,
            Color::Magenta => 5,
            Color::Cyan => 6,
            Color::White => 7,
        }
    }
}

/// A terminal style attribute.
#[derive(Copy, Clone, Debug, PartialEq, Eq, Structural, PartialOrd, Ord)]
pub enum Attribute {
    Bold,
    Dim,
    Underlined,
    Blink,
    Reverse,
    Hidden,
}

impl Attribute {
    pub open spec fn code(self) -> nat {
        match self {
            Attribute::Bold => 1,
            Attribute::Dim => 2,
            Attribute::Underlined => 4,
            Attribute::Blink => 5,
            Attribute::Reverse => 7,
            Attribute::Hidden => 8,
        }
    }

    fn ansi_num(&self) -> (n: u64)
        ensures
            n == self.code(),
    {
        match *self {
            Attribute::Bold => 1,
            Attribute::Dim => 2,
            Attribute::Underlined => 4,
            Attribute::Blink => 5,
            Attribute::Reverse => 7,
            Attribute::Hidden => 8,
        }
    }
}

/// A stored style that can be applied.
///
/// The set of attributes is held as one flag per attribute; codes are written
/// in the order of the attributes' declaration.
#[derive(Copy, Clone, Debug, PartialEq, Eq, Structural)]
pub struct Style {
    pub fg: Option<Color>,
    pub bg: Option<Color>,
    pub bold: bool,
    pub dim: bool,
    pub underlined: bool,
    pub blink: bool,
    pub reverse: bool,
    pub hidden: bool,
    pub force: Option<bool>,
}

/// Wraps a value for formatting with a style.
pub fn style<D>(val: D) -> (o: StyledObject<D>)
    ensures
        o.style == Style::empty(),
        o.val == val,
{
    Style::new().apply_to(val)
}

/// A value together with the style it is to be printed with.
#[derive(Clone)]
pub struct StyledObject<D> {
    pub style: Style,
    pub val: D,
}

impl<D> StyledObject<D> {
    /// Forces styling on or off, overriding the detection from the environment.
    pub fn force_styling(self, value: bool) -> (o: StyledObject<D>)
        ensures
            o.val == self.val,
            o.style == (Style { force: Some(value), ..self.style }),
    {
        StyledObject { style: self.style.force_styling(value), val: self.val }
    }

    /// Sets a foreground color.
    pub fn fg(self, color: Color) -> (o: StyledObject<D>)
        ensures
            o.val == self.val,
            o.style == self.style.with_fg(color),
    {
        StyledObject { style: self.style.fg(color), val: self.val }
    }

    /// Sets a background color.
    pub fn bg(self, color: Color) -> (o: StyledObject<D>)
        ensures
            o.val == self.val,
            o.style == self.style.with_bg(color),
    {
        StyledObject { style: self.style.bg(color), val: self.val }
    }

    /// Adds an attribute.
    pub fn attr(self, attr: Attribute) -> (o: StyledObject<D>)
        ensures
            o.val == self.val,
            o.style == self.style.with_attr(attr),
    {
        StyledObject { style: self.style.attr(attr), val: self.val }
    }

    /// Applies terms from a dotted string, as [`Style::from_dotted_str`] does.
    pub fn from_dotted_str(self, s: &str) -> (o: StyledObject<D>)
        ensures
            o.val == self.val,
            o.style == dotted_parts(s@).fold_left(
                self.style,
                |acc: Style, t: Seq<char>| apply_term(acc, t),
            ),
    {
        StyledObject { style: self.style.from_dotted_str(s), val: self.val }
    }

    pub fn black(self) -> (o: StyledObject<D>) ensures o.val == self.val, o.style == self.style.with_fg(Color::Black) { self.fg(Color::Black) }
    pub fn red(self) -> (o: StyledObject<D>) ensures o.val == self.val, o.style == self.style.with_fg(Color::Red) { self.fg(Color::Red) }
    pub fn green(self) -> (o: StyledObject<D>) ensures o.val == self.val, o.style == self.style.with_fg(Color::Green) { self.fg(Color::Green) }
    pub fn yellow(self) -> (o: StyledObject<D>) ensures o.val == self.val, o.style == self.style.with_fg(Color::Yellow) { self.fg(Color::Yellow) }
    pub fn blue(self) -> (o: StyledObject<D>) ensures o.val == self.val, o.style == self.style.with_fg(Color::Blue) { self.fg(Color::Blue) }
    pub fn magenta(self) -> (o: StyledObject<D>) ensures o.val == self.val, o.style == self.style.with_fg(Color::Magenta) { self.fg(Color::Magenta) }
    pub fn cyan(self) -> (o: StyledObject<D>) ensures o.val == self.val, o.style == self.style.with_fg(Color::Cyan) { self.fg(Color::Cyan) }
    pub fn white(self) -> (o: StyledObject<D>) ensures o.val == self.val, o.style == self.style.with_fg(Color::White) { self.fg(Color::White) }
    pub fn on_black(self) -> (o: StyledObject<D>) ensures o.val == self.val, o.style == self.style.with_bg(Color::Black) { self.bg(Color::Black) }
    pub fn on_red(self) -> (o: StyledObject<D>) ensures o.val == self.val, o.style == self.style.with_bg(Color::Red) { self.bg(Color::Red) }
    pub fn on_green(self) -> (o: StyledObject<D>) ensures o.val == self.val, o.style == self.style.with_bg(Color::Green) { self.bg(Color::Green) }
    pub fn on_yellow(self) -> (o: StyledObject<D>) ensures o.val == self.val, o.style == self.style.with_bg(Color::Yellow) { self.bg(Color::Yellow) }
    pub fn on_blue(self) -> (o: StyledObject<D>) ensures o.val == self.val, o.style == self.style.with_bg(Color::Blue) { self.bg(Color::Blue) }
    pub fn on_magenta(self) -> (o: StyledObject<D>) ensures o.val == self.val, o.style == self.style.with_bg(Color::Magenta) { self.bg(Color::Magenta) }
    pub fn on_cyan(self) -> (o: StyledObject<D>) ensures o.val == self.val, o.style == self.style.with_bg(Color::Cyan) { self.bg(Color::Cyan) }
    pub fn on_white(self) -> (o: StyledObject<D>) ensures o.val == self.val, o.style == self.style.with_bg(Color::White) { self.bg(Color::White) }
    pub fn bold(self) -> (o: StyledObject<D>) ensures o.val == self.val, o.style == self.style.with_attr(Attribute::Bold) { self.attr(Attribute::Bold) }
    pub fn dim(self) -> (o: StyledObject<D>) ensures o.val == self.val, o.style == self.style.with_attr(Attribute::Dim) { self.attr(Attribute::Dim) }
    pub fn underlined(self) -> (o: StyledObject<D>) ensures o.val == self.val, o.style == self.style.with_attr(Attribute::Underlined) { self.attr(Attribute::Underlined) }
    pub fn blink(self) -> (o: StyledObject<D>) ensures o.val == self.val, o.style == self.style.with_attr(Attribute::Blink) { self.attr(Attribute::Blink) }
    pub fn reverse(self) -> (o: StyledObject<D>) ensures o.val == self.val, o.style == self.style.with_attr(Attribute::Reverse) { self.attr(Attribute::Reverse) }
    pub fn hidden(self) -> (o: StyledObject<D>) ensures o.val == self.val, o.style == self.style.with_attr(Attribute::Hidden) { self.attr(Attribute::Hidden) }
}

/// Whether styling is on for a style whose `force` is `force`, when the
/// environment says `env_enabled`.
pub open spec fn styling_on(force: Option<bool>, env_enabled: bool) -> bool {
    match force {
        Some(b) => b,
        None => env_enabled,
    }
}

impl<'a> StyledObject<&'a str> {
    /// The styled text, with styling on exactly when `force` says so or, where
    /// the style does not force it, when `colors_enabled` is true.
    pub fn to_string_with(&self, colors_enabled: bool) -> (r: String)
        ensures
            r@ == self.style.render(styling_on(self.style.force, colors_enabled), self.val@),
    {
        let enabled = match self.style.force {
            Some(b) => b,
            None => colors_enabled,
        };
        let text = chars_of(self.val);
        let mut out: Vec<char> = Vec::new();
        self.style.render_into(&mut out, &text, enabled);
        string_of(&out)
    }

    /// The styled text, with the environment deciding where the style does
    /// not force styling on or off.
    pub fn to_string(&self) -> (r: String)
        ensures
            r@ == self.style.render(true, self.val@) || r@ == self.style.render(false, self.val@),
            self.style.force matches Some(b) ==> r@ == self.style.render(b, self.val@),
    {
        let env = match self.style.force {
            Some(_) => false,
            None => colors_enabled(),
        };
        self.to_string_with(env)
    }
}

impl StyledObject<String> {
    /// The styled text, with styling on exactly when `force` says so or, where
    /// the style does not force it, when `colors_enabled` is true.
    pub fn to_string_with(&self, colors_enabled: bool) -> (r: String)
        ensures
            r@ == self.style.render(styling_on(self.style.force, colors_enabled), self.val@),
    {
        let enabled = match self.style.force {
            Some(b) => b,
            None => colors_enabled,
        };
        let text = chars_of(self.val.as_str());
        let mut out: Vec<char> = Vec::new();
        self.style.render_into(&mut out, &text, enabled);
        string_of(&out)
    }

    /// The styled text, with the environment deciding where the style does
    /// not force styling on or off.
    pub fn to_string(&self) -> (r: String)
        ensures
            r@ == self.style.render(true, self.val@) || r@ == self.style.render(false, self.val@),
            self.style.force matches Some(b) ==> r@ == self.style.render(b, self.val@),
    {
        let env = match self.style.force {
            Some(_) => false,
            None => colors_enabled(),
        };
        self.to_string_with(env)
    }
}

/// One SGR escape sequence `ESC [ n m`.
#[verifier::opaque]
pub open spec fn sgr(n: nat) -> Seq<char> {
    seq!['\x1b', '['] + decimal(n) + seq!['m']
}

pub open spec fn opt_code(on: bool, n: nat) -> Seq<char> {
    if on {
        sgr(n)
    } else {
        Seq::empty()
    }
}

impl Style {
    pub open spec fn empty() -> Style {
        Style {
            fg: None,
            bg: None,
            bold: false,
            dim: false,
            underlined: false,
            blink: false,
            reverse: false,
            hidden: false,
            force: None,
        }
    }

    pub open spec fn has(self, a: Attribute) -> bool {
        match a {
            Attribute::Bold => self.bold,
            Attribute::Dim => self.dim,
            Attribute::Underlined => self.underlined,
            Attribute::Blink => self.blink,
            Attribute::Reverse => self.reverse,
            Attribute::Hidden => self.hidden,
        }
    }

    /// The set of attributes of the style.
    pub open spec fn attrs(self) -> Set<Attribute> {
        Set::new(|a: Attribute| self.has(a))
    }

    pub open spec fn with_fg(self, c: Color) -> Style {
        Style { fg: Some(c), ..self }
    }

    pub open spec fn with_bg(self, c: Color) -> Style {
        Style { bg: Some(c), ..self }
    }

    pub open spec fn with_attr(self, a: Attribute) -> Style {
        match a {
            Attribute::Bold => Style { bold: true, ..self },
            Attribute::Dim => Style { dim: true, ..self },
            Attribute::Underlined => Style { underlined: true, ..self },
            Attribute::Blink => Style { blink: true, ..self },
            Attribute::Reverse => Style { reverse: true, ..self },
            Attribute::Hidden => Style { hidden: true, ..self },
        }
    }

    /// The escape codes that the style writes before the text.
    pub open spec fn codes(self) -> Seq<char> {
        self.fg_code() + self.bg_code() + opt_code(self.bold, 1) + opt_code(self.dim, 2) + opt_code(self.underlined, 4)
            + opt_code(self.blink, 5) + opt_code(self.reverse, 7) + opt_code(self.hidden, 8)
    }

    /// The text as the style renders it when styling is on or off: the codes,
    /// the text, and a reset when at least one code was written.
    pub open spec fn render(self, enabled: bool, text: Seq<char>) -> Seq<char> {
        if enabled && self.codes().len() > 0 {
            self.codes() + text + sgr(0)
        } else {
            text
        }
    }

    /// Returns an empty default style.
    pub fn new() -> (s: Style)
        ensures
            s == Style::empty(),
            s.attrs() =~= Set::<Attribute>::empty(),
    {
        Style {
            fg: None,
            bg: None,
            bold: false,
            dim: false,
            underlined: false,
            blink: false,
            reverse: false,
            hidden: false,
            force: None,
        }
    }

    /// Apply the style to a value.
    pub fn apply_to<D>(&self, val: D) -> (o: StyledObject<D>)
        ensures
            o.style == *self,
            o.val == val,
    {
        StyledObject { style: *self, val }
    }

    /// Forces styling on or off, overriding the detection from the environment.
    pub fn force_styling(self, value: bool) -> (s: Style)
        ensures
            s == (Style { force: Some(value), ..self }),
    {
        Style { force: Some(value), ..self }
    }

    /// Sets a foreground color.
    pub fn fg(self, color: Color) -> (s: Style)
        ensures
            s == self.with_fg(color),
    {
        Style { fg: Some(color), ..self }
    }

    /// Sets a background color.
    pub fn bg(self, color: Color) -> (s: Style)
        ensures
            s == self.with_bg(color),
    {
        Style { bg: Some(color), ..self }
    }

    /// Adds an attribute.
    pub fn attr(self, attr: Attribute) -> (s: Style)
        ensures
            s == self.with_attr(attr),
            s.attrs() =~= self.attrs().insert(attr),
    {
        match attr {
            Attribute::Bold => Style { bold: true, ..self },
            Attribute::Dim => Style { dim: true, ..self },
            Attribute::Underlined => Style { underlined: true, ..self },
            Attribute::Blink => Style { blink: true, ..self },
            Attribute::Reverse => Style { reverse: true, ..self },
            Attribute::Hidden => Style { hidden: true, ..self },
        }
    }

    /// Applies terms from a dotted string such as `red.on_blue`: the string is
    /// split at each dot and the terms are applied from left to right.
    /// Unknown terms are ignored.
    pub fn from_dotted_str(self, s: &str) -> (r: Style)
        ensures
            r == dotted_parts(s@).fold_left(self, |acc: Style, t: Seq<char>| apply_term(acc, t)),
    {
        let v = chars_of(s);
        let mut rv = self;
        let mut cur: Vec<char> = Vec::new();
        let ghost mut done: Seq<Seq<char>> = Seq::empty();
        let mut i: usize = 0;
        while i < v.len()
            invariant
                i <= v.len(),
                v@ == s@,
                dotted_parts(v@.take(i as int)) == done.push(cur@),
                rv == done.fold_left(self, |acc: Style, t: Seq<char>| apply_term(acc, t)),
            decreases v.len() - i,
        {
            let c = v[i];
            assert(v@.take((i + 1) as int).drop_last() =~= v@.take(i as int));
            if c == '.' {
                rv = apply_term_exec(rv, &cur);
                proof {
                    assert(done.push(cur@).drop_last() =~= done);
                    done = done.push(cur@);
                }
                cur = Vec::new();
                assert(dotted_parts(v@.take((i + 1) as int)) =~= done.push(cur@));
            } else {
                cur.push(c);
                assert(dotted_parts(v@.take((i + 1) as int)) =~= done.push(cur@));
            }
            i = i + 1;
        }
        assert(v@.take(v.len() as int) =~= v@);
        let r = apply_term_exec(rv, &cur);
        assert(done.push(cur@).drop_last() =~= done);
        r
    }

    pub fn black(self) -> (s: Style) ensures s == self.with_fg(Color::Black) { self.fg(Color::Black) }
    pub fn red(self) -> (s: Style) ensures s == self.with_fg(Color::Red) { self.fg(Color::Red) }
    pub fn green(self) -> (s: Style) ensures s == self.with_fg(Color::Green) { self.fg(Color::Green) }
    pub fn yellow(self) -> (s: Style) ensures s == self.with_fg(Color::Yellow) { self.fg(Color::Yellow) }
    pub fn blue(self) -> (s: Style) ensures s == self.with_fg(Color::Blue) { self.fg(Color::Blue) }
    pub fn magenta(self) -> (s: Style) ensures s == self.with_fg(Color::Magenta) { self.fg(Color::Magenta) }
    pub fn cyan(self) -> (s: Style) ensures s == self.with_fg(Color::Cyan) { self.fg(Color::Cyan) }
    pub fn white(self) -> (s: Style) ensures s == self.with_fg(Color::White) { self.fg(Color::White) }
    pub fn on_black(self) -> (s: Style) ensures s == self.with_bg(Color::Black) { self.bg(Color::Black) }
    pub fn on_red(self) -> (s: Style) ensures s == self.with_bg(Color::Red) { self.bg(Color::Red) }
    pub fn on_green(self) -> (s: Style) ensures s == self.with_bg(Color::Green) { self.bg(Color::Green) }
    pub fn on_yellow(self) -> (s: Style) ensures s == self.with_bg(Color::Yellow) { self.bg(Color::Yellow) }
    pub fn on_blue(self) -> (s: Style) ensures s == self.with_bg(Color::Blue) { self.bg(Color::Blue) }
    pub fn on_magenta(self) -> (s: Style) ensures s == self.with_bg(Color::Magenta) { self.bg(Color::Magenta) }
    pub fn on_cyan(self) -> (s: Style) ensures s == self.with_bg(Color::Cyan) { self.bg(Color::Cyan) }
    pub fn on_white(self) -> (s: Style) ensures s == self.with_bg(Color::White) { self.bg(Color::White) }
    pub fn bold(self) -> (s: Style) ensures s == self.with_attr(Attribute::Bold) { self.attr(Attribute::Bold) }
    pub fn dim(self) -> (s: Style) ensures s == self.with_attr(Attribute::Dim) { self.attr(Attribute::Dim) }
    pub fn underlined(self) -> (s: Style) ensures s == self.with_attr(Attribute::Underlined) { self.attr(Attribute::Underlined) }
    pub fn blink(self) -> (s: Style) ensures s == self.with_attr(Attribute::Blink) { self.attr(Attribute::Blink) }
    pub fn reverse(self) -> (s: Style) ensures s == self.with_attr(Attribute::Reverse) { self.attr(Attribute::Reverse) }
    pub fn hidden(self) -> (s: Style) ensures s == self.with_attr(Attribute::Hidden) { self.attr(Attribute::Hidden) }

    pub open spec fn fg_code(self) -> Seq<char> {
        match self.fg {
            Some(c) => sgr(c.code() + 30),
            None => Seq::empty(),
        }
    }

    pub open spec fn bg_code(self) -> Seq<char> {
        match self.bg {
            Some(c) => sgr(c.code() + 40),
            None => Seq::empty(),
        }
    }

    /// The escape codes of the style.
    fn codes_vec(&self) -> (v: Vec<char>)
        ensures
            v@ == self.codes(),
    {
        let mut out: Vec<char> = Vec::new();
        self.push_color_codes(&mut out);
        let ghost a = out@;
        push_opt_sgr(&mut out, self.bold, 1);
        let ghost a1 = out@;
        push_opt_sgr(&mut out, self.dim, 2);
        let ghost a2 = out@;
        push_opt_sgr(&mut out, self.underlined, 4);
        let ghost a3 = out@;
        push_opt_sgr(&mut out, self.blink, 5);
        let ghost a4 = out@;
        push_opt_sgr(&mut out, self.reverse, 7);
        let ghost a5 = out@;
        push_opt_sgr(&mut out, self.hidden, 8);
        proof {
            let x = self.fg_code() + self.bg_code();
            assert(a == x);
            assert(a1 == x + opt_code(self.bold, 1));
            assert(a2 == x + opt_code(self.bold, 1) + opt_code(self.dim, 2));
            assert(a3 == x + opt_code(self.bold, 1) + opt_code(self.dim, 2) + opt_code(self.underlined, 4));
            assert(a4 == x + opt_code(self.bold, 1) + opt_code(self.dim, 2) + opt_code(self.underlined, 4) + opt_code(self.blink, 5));
            assert(a5 == x + opt_code(self.bold, 1) + opt_code(self.dim, 2) + opt_code(self.underlined, 4) + opt_code(self.blink, 5) + opt_code(self.reverse, 7));
        }
        out
    }

    fn push_color_codes(&self, out: &mut Vec<char>)
        ensures
            final(out)@ == old(out)@ + (self.fg_code() + self.bg_code()),
    {
        let ghost start = out@;
        match self.fg {
            Some(c) => push_sgr(out, c.ansi_num() + 30),
            None => {},
        }
        let ghost a = out@;
        assert(a =~= start + self.fg_code());
        match self.bg {
            Some(c) => push_sgr(out, c.ansi_num() + 40),
            None => {},
        }
        assert(out@ =~= a + self.bg_code());
        assert(out@ =~= start + (self.fg_code() + self.bg_code()));
    }

    /// Appends `text` as the style renders it when styling is `enabled`
    /// (the style's own `force`, where set, is not consulted here).
    pub fn render_into(&self, out: &mut Vec<char>, text: &Vec<char>, enabled: bool)
        ensures
            final(out)@ == old(out)@ + self.render(enabled, text@),
    {
        if enabled {
            let codes = self.codes_vec();
            if codes.len() > 0 {
                push_all(out, &codes);
                push_all(out, text);
                push_sgr(out, 0);
                assert(final_seq_eq(out@, old(out)@, self.codes(), text@));
                return;
            }
        }
        push_all(out, text);
    }
}

pub open spec fn final_seq_eq(o: Seq<char>, start: Seq<char>, codes: Seq<char>, text: Seq<char>) -> bool {
    o =~= start + (codes + text + sgr(0))
}

fn push_opt_sgr(out: &mut Vec<char>, on: bool, n: u64)
    ensures
        final(out)@ == old(out)@ + opt_code(on, n as nat),
{
    if on {
        push_sgr(out, n);
    } else {
        assert(out@ =~= out@ + opt_code(on, n as nat));
    }
}

fn push_sgr(out: &mut Vec<char>, n: u64)
    ensures
        final(out)@ == old(out)@ + sgr(n as nat),
{
    out.push('\x1b');
    out.push('[');
    push_decimal(out, n);
    out.push('m');
    reveal(sgr);
    assert(final(out)@ =~= old(out)@ + sgr(n as nat));
}

/// The terms of a dotted style string, split at each dot.
pub open spec fn dotted_parts(s: Seq<char>) -> Seq<Seq<char>>
    decreases s.len(),
{
    if s.len() == 0 {
        seq![Seq::empty()]
    } else {
        let init = dotted_parts(s.drop_last());
        if s.last() == '.' {
            init.push(Seq::empty())
        } else if init.len() == 0 {
            seq![seq![s.last()]]
        } else {
            init.update(init.len() - 1, init.last().push(s.last()))
        }
    }
}

/// The effect of one term of a dotted style string.
pub open spec fn apply_term(st: Style, t: Seq<char>) -> Style {
    if t == "black"@ {
        st.with_fg(Color::Black)
    } else if t == "red"@ {
        st.with_fg(Color::Red)
    } else if t == "green"@ {
        st.with_fg(Color::Green)
    } else if t == "yellow"@ {
        st.with_fg(Color::Yellow)
    } else if t == "blue"@ {
        st.with_fg(Color::Blue)
    } else if t == "magenta"@ {
        st.with_fg(Color::Magenta)
    } else if t == "cyan"@ {
        st.with_fg(Color::Cyan)
    } else if t == "white"@ {
        st.with_fg(Color::White)
    } else if t == "on_black"@ {
        st.with_bg(Color::Black)
    } else if t == "on_red"@ {
        st.with_bg(Color::Red)
    } else if t == "on_green"@ {
        st.with_bg(Color::Green)
    } else if t == "on_yellow"@ {
        st.with_bg(Color::Yellow)
    } else if t == "on_blue"@ {
        st.with_bg(Color::Blue)
    } else if t == "on_magenta"@ {
        st.with_bg(Color::Magenta)
    } else if t == "on_cyan"@ {
        st.with_bg(Color::Cyan)
    } else if t == "on_white"@ {
        st.with_bg(Color::White)
    } else if t == "bold"@ {
        st.with_attr(Attribute::Bold)
    } else if t == "dim"@ {
        st.with_attr(Attribute::Dim)
    } else if t == "underlined"@ {
        st.with_attr(Attribute::Underlined)
    } else if t == "blink"@ {
        st.with_attr(Attribute::Blink)
    } else if t == "reverse"@ {
        st.with_attr(Attribute::Reverse)
    } else if t == "hidden"@ {
        st.with_attr(Attribute::Hidden)
    } else {
        st
    }
}

/// The style `st` with the terms of the dotted string `s` applied from left
/// to right, as `from_dotted_str` gives it.
pub open spec fn apply_dotted(st: Style, s: Seq<char>) -> Style {
    dotted_parts(s).fold_left(st, |acc: Style, t: Seq<char>| apply_term(acc, t))
}

proof fn lemma_dotted_parts_nonempty(s: Seq<char>)
    ensures
        dotted_parts(s).len() >= 1,
    decreases s.len(),
{
    if s.len() > 0 {
        lemma_dotted_parts_nonempty(s.drop_last());
    }
}

proof fn lemma_dotted_parts_split(a: Seq<char>, b: Seq<char>)
    ensures
        dotted_parts(a + seq!['.'] + b) == dotted_parts(a) + dotted_parts(b),
    decreases b.len(),
{
    let s = a + seq!['.'] + b;
    lemma_dotted_parts_nonempty(a);
    if b.len() == 0 {
        assert(s.drop_last() =~= a);
        assert(dotted_parts(s) =~= dotted_parts(a) + dotted_parts(b));
    } else {
        let b0 = b.drop_last();
        assert(s.drop_last() =~= a + seq!['.'] + b0);
        lemma_dotted_parts_split(a, b0);
        lemma_dotted_parts_nonempty(b0);
        let da = dotted_parts(a);
        let db0 = dotted_parts(b0);
        assert(b.drop_last() =~= b0);
        assert(s.last() == b.last());
        if b.last() == '.' {
            assert(dotted_parts(s) =~= da + dotted_parts(b));
        } else {
            assert((da + db0).last() == db0.last());
            assert((da + db0).update((da + db0).len() - 1, db0.last().push(b.last())) =~= da + db0.update(
                db0.len() - 1,
                db0.last().push(b.last()),
            ));
            assert(dotted_parts(s) =~= da + dotted_parts(b));
        }
    }
}

/// A dotted style string made of two halves joined by a dot acts as the two
/// halves applied in turn.
pub proof fn law_dotted_halves(st: Style, a: Seq<char>, b: Seq<char>)
    ensures
        apply_dotted(st, a + seq!['.'] + b) == apply_dotted(apply_dotted(st, a), b),
{
    lemma_dotted_parts_split(a, b);
    let da = dotted_parts(a);
    let db = dotted_parts(b);
    let all = da + db;
    let f = |acc: Style, t: Seq<char>| apply_term(acc, t);
    all.lemma_fold_left_split(st, f, da.len() as int);
    assert(all.subrange(0, da.len() as int) =~= da);
    assert(all.subrange(da.len() as int, all.len() as int) =~= db);
}

/// An empty dotted style string changes nothing.
pub proof fn law_dotted_empty(st: Style)
    ensures
        apply_dotted(st, Seq::empty()) == st,
{
    reveal_strlit("black");
    reveal_strlit("red");
    reveal_strlit("green");
    reveal_strlit("yellow");
    reveal_strlit("blue");
    reveal_strlit("magenta");
    reveal_strlit("cyan");
    reveal_strlit("white");
    reveal_strlit("on_black");
    reveal_strlit("on_red");
    reveal_strlit("on_green");
    reveal_strlit("on_yellow");
    reveal_strlit("on_blue");
    reveal_strlit("on_magenta");
    reveal_strlit("on_cyan");
    reveal_strlit("on_white");
    reveal_strlit("bold");
    reveal_strlit("dim");
    reveal_strlit("underlined");
    reveal_strlit("blink");
    reveal_strlit("reverse");
    reveal_strlit("hidden");
    let e = Seq::<char>::empty();
    assert(dotted_parts(e) == seq![e]);
    reveal_with_fuel(Seq::fold_left, 2);
    assert(seq![e].drop_last() =~= Seq::<Seq<char>>::empty());
}

fn apply_term_exec(st: Style, t: &Vec<char>) -> (r: Style)
    ensures
        r == apply_term(st, t@),
{
    if eq_str(t, "black") {
        st.black()
    } else if eq_str(t, "red") {
        st.red()
    } else if eq_str(t, "green") {
        st.green()
    } else if eq_str(t, "yellow") {
        st.yellow()
    } else if eq_str(t, "blue") {
        st.blue()
    } else if eq_str(t, "magenta") {
        st.magenta()
    } else if eq_str(t, "cyan") {
        st.cyan()
    } else if eq_str(t, "white") {
        st.white()
    } else if eq_str(t, "on_black") {
        st.on_black()
    } else if eq_str(t, "on_red") {
        st.on_red()
    } else if eq_str(t, "on_green") {
        st.on_green()
    } else if eq_str(t, "on_yellow") {
        st.on_yellow()
    } else if eq_str(t, "on_blue") {
        st.on_blue()
    } else if eq_str(t, "on_magenta") {
        st.on_magenta()
    } else if eq_str(t, "on_cyan") {
        st.on_cyan()
    } else if eq_str(t, "on_white") {
        st.on_white()
    } else if eq_str(t, "bold") {
        st.bold()
    } else if eq_str(t, "dim") {
        st.dim()
    } else if eq_str(t, "underlined") {
        st.underlined()
    } else if eq_str(t, "blink") {
        st.blink()
    } else if eq_str(t, "reverse") {
        st.reverse()
    } else if eq_str(t, "hidden") {
        st.hidden()
    } else {
        st
    }
}


// ---------------------------------------------------------------------------
// Styled text measures as the text itself.
// ---------------------------------------------------------------------------

proof fn lemma_intro_end_shift(x: Seq<char>, y: Seq<char>, j: int)
    requires
        0 <= j,
    ensures
        intro_end(x + y, x.len() + j) == intro_end(y, j) + x.len(),
    decreases y.len() - j,
{
    let s = x + y;
    if j < y.len() {
        assert(s[x.len() + j] == y[j]);
        if is_intro(y[j]) {
            lemma_intro_end_shift(x, y, j + 1);
        }
    }
}

proof fn lemma_digits_shift(x: Seq<char>, y: Seq<char>, j: int, m: nat)
    requires
        0 <= j,
    ensures
        digits_upto(x + y, x.len() + j, m) == digits_upto(y, j, m),
    decreases m,
{
    let s = x + y;
    if m > 0 && j < y.len() {
        assert(s[x.len() + j] == y[j]);
        if is_digit(y[j]) {
            lemma_digits_shift(x, y, j + 1, (m - 1) as nat);
        }
    }
}

pub open spec fn shifted(r: Option<int>, off: int) -> Option<int> {
    match r {
        Some(e) => Some(e + off),
        None => None,
    }
}

proof fn lemma_final_shift(x: Seq<char>, y: Seq<char>, j: int)
    requires
        0 <= j,
    ensures
        final_at(x + y, x.len() + j) == shifted(final_at(y, j), x.len() as int),
{
    if j < y.len() {
        assert((x + y)[x.len() + j] == y[j]);
    }
}

proof fn lemma_rep_tail_shift(x: Seq<char>, y: Seq<char>, j: int)
    requires
        0 <= j,
    ensures
        rep_tail(x + y, x.len() + j) == shifted(rep_tail(y, j), x.len() as int),
    decreases y.len() + 1 - j, 0int,
{
    let s = x + y;
    if j <= y.len() {
        if j < y.len() {
            assert(s[x.len() + j] == y[j]);
            if y[j] == ';' {
                lemma_digits_shift(x, y, j + 1, 4);
                lemma_digits_bound(y, j + 1, 4);
                lemma_semi_group_shift(x, y, j + 1, digits_upto(y, j + 1, 4));
            }
        }
        lemma_final_shift(x, y, j);
    }
}

proof fn lemma_semi_group_shift(x: Seq<char>, y: Seq<char>, j: int, k: nat)
    requires
        0 <= j,
    ensures
        semi_group(x + y, x.len() + j, k) == shifted(semi_group(y, j, k), x.len() as int),
    decreases y.len() + 1 - j, k + 1,
{
    if j + k <= y.len() {
        lemma_rep_tail_shift(x, y, j + k);
        if k > 0 {
            lemma_semi_group_shift(x, y, j, (k - 1) as nat);
        }
    }
}

proof fn lemma_lead_group_shift(x: Seq<char>, y: Seq<char>, j: int, k: nat)
    requires
        0 <= j,
    ensures
        lead_group(x + y, x.len() + j, k) == shifted(lead_group(y, j, k), x.len() as int),
    decreases k,
{
    if k > 0 {
        lemma_rep_tail_shift(x, y, j + k);
        lemma_lead_group_shift(x, y, j, (k - 1) as nat);
    }
}

proof fn lemma_escape_shift(x: Seq<char>, y: Seq<char>, j: int)
    requires
        0 <= j,
    ensures
        escape_at(x + y, x.len() + j) == shifted(escape_at(y, j), x.len() as int),
{
    let s = x + y;
    if j < y.len() {
        assert(s[x.len() + j] == y[j]);
        if is_lead(y[j]) {
            lemma_intro_end_shift(x, y, j + 1);
            let p = intro_end(y, j + 1);
            assert(p >= j + 1) by {
                lemma_intro_end_ge(y, j + 1);
            }
            lemma_digits_shift(x, y, p, 4);
            lemma_lead_group_shift(x, y, p, digits_upto(y, p, 4));
            lemma_final_shift(x, y, p);
        }
    }
}

proof fn lemma_intro_end_ge(s: Seq<char>, p: int)
    ensures
        intro_end(s, p) >= p,
    decreases s.len() - p,
{
    if 0 <= p < s.len() && is_intro(s[p]) {
        lemma_intro_end_ge(s, p + 1);
    }
}

/// Stripping the text after a prefix does not depend on the prefix.
proof fn lemma_strip_shift(x: Seq<char>, y: Seq<char>, j: int)
    requires
        0 <= j,
    ensures
        strip_from(x + y, x.len() + j) == strip_from(y, j),
    decreases y.len() - j,
{
    let s = x + y;
    if j < y.len() {
        lemma_escape_shift(x, y, j);
        assert(s[x.len() + j] == y[j]);
        match escape_at(y, j) {
            Some(e) => {
                if j < e && e <= y.len() {
                    lemma_strip_shift(x, y, e);
                }
            },
            None => {
                lemma_strip_shift(x, y, j + 1);
            },
        }
    }
}

proof fn lemma_decimal_small(n: nat)
    requires
        n < 10000,
    ensures
        1 <= decimal(n).len() <= 4,
        n < 1000 ==> decimal(n).len() <= 3,
        n < 100 ==> decimal(n).len() <= 2,
        n < 10 ==> decimal(n).len() == 1,
        forall|i: int| 0 <= i < decimal(n).len() ==> is_digit(#[trigger] decimal(n)[i]),
    decreases n,
{
    if n < 10 {
        assert(decimal(n) == seq![crate::text::digit_char(n)]);
    } else {
        lemma_decimal_small(n / 10);
        let d = decimal(n / 10);
        assert(decimal(n) == d.push(crate::text::digit_char(n % 10)));
        assert forall|i: int| 0 <= i < decimal(n).len() implies is_digit(#[trigger] decimal(n)[i]) by {
            if i < d.len() {
                assert(decimal(n)[i] == d[i]);
            }
        }
    }
}

/// An SGR sequence with fewer than five digits is one escape sequence.
proof fn lemma_strip_sgr(n: nat, y: Seq<char>)
    requires
        n < 10000,
    ensures
        strip_ansi(sgr(n) + y) == strip_ansi(y),
{
    reveal(sgr);
    let code = sgr(n);
    let d = decimal(n);
    lemma_decimal_small(n);
    let s = code + y;
    assert(code.len() == d.len() + 3);
    assert(s[0] == '\x1b');
    assert(s[1] == '[');
    assert forall|i: int| 0 <= i < d.len() implies s[2 + i] == d[i] by {
        assert(code[2 + i] == d[i]);
    }
    let dl: int = d.len() as int;
    assert(s[2 + dl] == 'm') by {
        assert(code[2 + dl] == 'm');
    }
    assert(intro_end(s, 2) == 2) by {
        assert(is_digit(s[2]));
    }
    assert(intro_end(s, 1) == 2);
    let k: nat = d.len();
    assert(digits_upto(s, 2, 4) == k) by {
        lemma_digits_run(s, 2, k, 4);
    }
    assert(rep_tail(s, 2 + dl) == Some(3 + dl));
    assert(lead_group(s, 2, k) == Some(3 + dl));
    assert(escape_at(s, 0) == Some(code.len() as int));
    lemma_strip_shift(code, y, 0);
}

proof fn lemma_digits_run(s: Seq<char>, p: int, k: nat, m: nat)
    requires
        0 <= p,
        p + k < s.len(),
        k <= m,
        forall|i: int| p <= i < p + k ==> is_digit(#[trigger] s[i]),
        !is_digit(s[p + k]),
    ensures
        digits_upto(s, p, m) == k,
    decreases k,
{
    if k > 0 {
        lemma_digits_run(s, p + 1, (k - 1) as nat, (m - 1) as nat);
    }
}

proof fn lemma_strip_opt(on: bool, n: nat, y: Seq<char>)
    requires
        n < 10000,
    ensures
        strip_ansi(opt_code(on, n) + y) == strip_ansi(y),
{
    if on {
        lemma_strip_sgr(n, y);
    } else {
        assert(opt_code(on, n) + y =~= y);
    }
}

/// Text without lead characters, followed by anything, strips to itself
/// followed by what the rest strips to.
proof fn lemma_strip_plain(t: Seq<char>, z: Seq<char>, j: int)
    requires
        0 <= j <= t.len(),
        forall|i: int| 0 <= i < t.len() ==> !is_lead(#[trigger] t[i]),
    ensures
        strip_from(t + z, j) == t.skip(j) + strip_ansi(z),
    decreases t.len() - j,
{
    let s = t + z;
    if j == t.len() {
        lemma_strip_shift(t, z, 0);
        assert(t.skip(j) =~= Seq::<char>::empty());
        assert(t.skip(j) + strip_ansi(z) =~= strip_ansi(z));
    } else {
        assert(s[j] == t[j]);
        assert(escape_at(s, j) is None);
        lemma_strip_plain(t, z, j + 1);
        assert(t.skip(j) =~= seq![t[j]] + t.skip(j + 1));
    }
}

/// The `k`-th escape code a style writes (from 1), and the number it
/// carries; it is empty when the style does not set that part.
pub open spec fn code_part(st: Style, k: nat) -> (bool, nat) {
    if k == 1 {
        (st.fg is Some, match st.fg {
            Some(c) => c.code() + 30,
            None => 0,
        })
    } else if k == 2 {
        (st.bg is Some, match st.bg {
            Some(c) => c.code() + 40,
            None => 0,
        })
    } else if k == 3 {
        (st.bold, 1)
    } else if k == 4 {
        (st.dim, 2)
    } else if k == 5 {
        (st.underlined, 4)
    } else if k == 6 {
        (st.blink, 5)
    } else if k == 7 {
        (st.reverse, 7)
    } else {
        (st.hidden, 8)
    }
}

/// The first `k` escape codes a style writes.
pub open spec fn code_prefix(st: Style, k: nat) -> Seq<char>
    decreases k,
{
    if k == 0 {
        Seq::empty()
    } else {
        code_prefix(st, (k - 1) as nat) + opt_code(code_part(st, k).0, code_part(st, k).1)
    }
}

proof fn lemma_strip_prefix(st: Style, k: nat, y: Seq<char>)
    requires
        k <= 8,
    ensures
        strip_ansi(code_prefix(st, k) + y) == strip_ansi(y),
    decreases k,
{
    if k == 0 {
        assert(code_prefix(st, k) + y =~= y);
    } else {
        let part = opt_code(code_part(st, k).0, code_part(st, k).1);
        assert(code_prefix(st, k) + y =~= code_prefix(st, (k - 1) as nat) + (part + y));
        lemma_strip_prefix(st, (k - 1) as nat, part + y);
        lemma_strip_opt(code_part(st, k).0, code_part(st, k).1, y);
    }
}

/// The escape codes of a style strip away entirely.
proof fn lemma_strip_codes(st: Style, y: Seq<char>)
    ensures
        strip_ansi(st.codes() + y) == strip_ansi(y),
{
    reveal_with_fuel(code_prefix, 9);
    assert(st.fg_code() == opt_code(code_part(st, 1).0, code_part(st, 1).1));
    assert(st.bg_code() == opt_code(code_part(st, 2).0, code_part(st, 2).1));
    assert(st.codes() =~= code_prefix(st, 8));
    lemma_strip_prefix(st, 8, y);
}

/// Text that is followed by nothing or by a lead character: no escape
/// sequence can reach past its end.
pub open spec fn cut_before(y: Seq<char>) -> bool {
    y.len() == 0 || is_lead(y[0])
}

proof fn lemma_intro_end_cut(x: Seq<char>, y: Seq<char>, p: int)
    requires
        cut_before(y),
        p <= x.len(),
    ensures
        intro_end(x + y, p) == intro_end(x, p),
        0 <= p ==> intro_end(x, p) <= x.len(),
    decreases x.len() - p,
{
    let s = x + y;
    if 0 <= p < x.len() {
        assert(s[p] == x[p]);
        if is_intro(x[p]) {
            lemma_intro_end_cut(x, y, p + 1);
        }
    } else if p == x.len() && y.len() > 0 {
        assert(s[p] == y[0]);
    }
}

proof fn lemma_digits_cut(x: Seq<char>, y: Seq<char>, p: int, m: nat)
    requires
        cut_before(y),
        p <= x.len(),
    ensures
        digits_upto(x + y, p, m) == digits_upto(x, p, m),
    decreases m,
{
    let s = x + y;
    if m > 0 && 0 <= p < x.len() {
        assert(s[p] == x[p]);
        if is_digit(x[p]) {
            lemma_digits_cut(x, y, p + 1, (m - 1) as nat);
        }
    } else if m > 0 && p == x.len() && y.len() > 0 {
        assert(s[p] == y[0]);
    }
}

proof fn lemma_final_cut(x: Seq<char>, y: Seq<char>, q: int)
    requires
        cut_before(y),
        q <= x.len(),
    ensures
        final_at(x + y, q) == final_at(x, q),
{
    if 0 <= q < x.len() {
        assert((x + y)[q] == x[q]);
    } else if q == x.len() && y.len() > 0 {
        assert((x + y)[q] == y[0]);
    }
}

proof fn lemma_rep_tail_cut(x: Seq<char>, y: Seq<char>, q: int)
    requires
        cut_before(y),
        q <= x.len(),
    ensures
        rep_tail(x + y, q) == rep_tail(x, q),
        rep_tail(x, q) matches Some(e) ==> q < e <= x.len(),
    decreases x.len() + 1 - q, 0int,
{
    let s = x + y;
    if 0 <= q {
        if q < x.len() {
            assert(s[q] == x[q]);
            if x[q] == ';' {
                lemma_digits_cut(x, y, q + 1, 4);
                lemma_digits_bound(x, q + 1, 4);
                lemma_semi_group_cut(x, y, q + 1, digits_upto(x, q + 1, 4));
            }
        } else if y.len() > 0 {
            assert(s[q] == y[0]);
        }
        lemma_final_cut(x, y, q);
    }
}

proof fn lemma_semi_group_cut(x: Seq<char>, y: Seq<char>, p: int, j: nat)
    requires
        cut_before(y),
        0 <= p,
        p + j <= x.len(),
    ensures
        semi_group(x + y, p, j) == semi_group(x, p, j),
        semi_group(x, p, j) matches Some(e) ==> p < e <= x.len(),
    decreases x.len() + 1 - p, j + 1,
{
    lemma_rep_tail_cut(x, y, p + j);
    if j > 0 {
        lemma_semi_group_cut(x, y, p, (j - 1) as nat);
    }
}

proof fn lemma_lead_group_cut(x: Seq<char>, y: Seq<char>, p: int, k: nat)
    requires
        cut_before(y),
        0 <= p,
        p + k <= x.len(),
    ensures
        lead_group(x + y, p, k) == lead_group(x, p, k),
        lead_group(x, p, k) matches Some(e) ==> p < e <= x.len(),
    decreases k,
{
    if k > 0 {
        lemma_rep_tail_cut(x, y, p + k);
        lemma_lead_group_cut(x, y, p, (k - 1) as nat);
    }
}

proof fn lemma_escape_cut(x: Seq<char>, y: Seq<char>, i: int)
    requires
        cut_before(y),
        0 <= i < x.len(),
    ensures
        escape_at(x + y, i) == escape_at(x, i),
        escape_at(x, i) matches Some(e) ==> i < e <= x.len(),
{
    let s = x + y;
    assert(s[i] == x[i]);
    if is_lead(x[i]) {
        lemma_intro_end_cut(x, y, i + 1);
        lemma_intro_end_ge(x, i + 1);
        let p = intro_end(x, i + 1);
        lemma_digits_cut(x, y, p, 4);
        lemma_digits_bound(x, p, 4);
        let k = digits_upto(x, p, 4);
        if k > 0 {
            lemma_lead_group_cut(x, y, p, k);
        }
        lemma_final_cut(x, y, p);
    }
}

/// Stripping text that is followed by nothing or by a lead character is
/// stripping each side apart.
proof fn lemma_strip_cut(x: Seq<char>, y: Seq<char>, i: int)
    requires
        cut_before(y),
        0 <= i <= x.len(),
    ensures
        strip_from(x + y, i) == strip_from(x, i) + strip_ansi(y),
    decreases x.len() - i,
{
    let s = x + y;
    if i == x.len() {
        lemma_strip_shift(x, y, 0);
        assert(strip_from(x, i) + strip_ansi(y) =~= strip_ansi(y));
    } else {
        lemma_escape_cut(x, y, i);
        assert(s[i] == x[i]);
        match escape_at(x, i) {
            Some(e) => {
                lemma_strip_cut(x, y, e);
            },
            None => {
                lemma_strip_cut(x, y, i + 1);
                assert(seq![x[i]] + (strip_from(x, i + 1) + strip_ansi(y)) =~= (seq![x[i]] + strip_from(
                    x,
                    i + 1,
                )) + strip_ansi(y));
            },
        }
    }
}

/// Styling text only adds escape sequences: stripped of them, styled text is
/// the text stripped of its own, and so it is as wide as the text.  Text
/// without lead characters strips to itself.
pub proof fn law_styled_text_strips_to_text(st: Style, enabled: bool, text: Seq<char>)
    ensures
        strip_ansi(st.render(enabled, text)) == strip_ansi(text),
        (forall|i: int| 0 <= i < text.len() ==> !is_lead(#[trigger] text[i])) ==> strip_ansi(
            st.render(enabled, text),
        ) == text,
        unicode_str_width(strip_ansi(st.render(enabled, text))) == unicode_str_width(strip_ansi(text)),
{
    if forall|i: int| 0 <= i < text.len() ==> !is_lead(#[trigger] text[i]) {
        lemma_strip_plain(text, Seq::empty(), 0);
        assert(text + Seq::<char>::empty() =~= text);
        assert(strip_ansi(Seq::<char>::empty()) =~= Seq::<char>::empty());
        assert(text.skip(0) =~= text);
    }
    if enabled && st.codes().len() > 0 {
        let tail = text + sgr(0);
        reveal(sgr);
        assert(sgr(0)[0] == '\x1b');
        lemma_strip_cut(text, sgr(0), 0);
        lemma_strip_sgr(0, Seq::empty());
        assert(sgr(0) + Seq::<char>::empty() =~= sgr(0));
        assert(strip_ansi(Seq::<char>::empty()) =~= Seq::<char>::empty());
        assert(strip_ansi(text) + Seq::<char>::empty() =~= strip_ansi(text));
        lemma_strip_codes(st, tail);
        assert(st.render(enabled, text) =~= st.codes() + tail);
    }
}

} // verus!
