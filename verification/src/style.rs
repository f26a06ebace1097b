//! Progress styles: spinner and bar characters, the template, and the
//! rendering of a progress state into lines of text.
use vstd::prelude::*;

use crate::dotted::{opt_dotted, opt_render, opt_render_into, DottedStyle};
use crate::draw::{measure_text_width, text_width, views};
use crate::format::{formatted_secs, human_duration, max_span, FormattedDuration, HumanDuration};
use crate::state::{fraction, ProgressFinish, ProgressState};
use crate::template::{scan, template_ok, template_parts, Alignment, Part, Template, TemplatePart, part_views};
use crate::text::{chars_of, decimal, digit, digit_char, eq_str, push_all, push_decimal, push_decimal_wide, push_repeat, push_str, string_of};

verus! {

/// The spinner's default tick characters.
pub const DEFAULT_TICKS: &'static str = "\u{2801}\u{2801}\u{2809}\u{2819}\u{281a}\u{2812}\u{2802}\u{2802}\u{2812}\u{2832}\u{2834}\u{2824}\u{2804}\u{2804}\u{2824}\u{2820}\u{2820}\u{2824}\u{2826}\u{2816}\u{2812}\u{2810}\u{2810}\u{2812}\u{2813}\u{280b}\u{2809}\u{2808}\u{2808} ";

// ---------------------------------------------------------------------------
// Text helpers of the renderer.
// ---------------------------------------------------------------------------

/// `n` copies of `s` one after the other.
pub open spec fn repeat_seq(s: Seq<char>, n: nat) -> Seq<char>
    decreases n,
{
    if n == 0 {
        Seq::empty()
    } else {
        repeat_seq(s, (n - 1) as nat) + s
    }
}

pub open spec fn spaces(n: nat) -> Seq<char> {
    Seq::new(n, |_i: int| ' ')
}

/// Bytes that a character takes in UTF-8.
pub open spec fn utf8_len(c: char) -> nat {
    if (c as u32) < 0x80 {
        1
    } else if (c as u32) < 0x800 {
        2
    } else if (c as u32) < 0x10000 {
        3
    } else {
        4
    }
}

/// Bytes that a string takes in UTF-8.
pub open spec fn utf8_size(s: Seq<char>) -> nat
    decreases s.len(),
{
    if s.len() == 0 {
        0
    } else {
        utf8_size(s.drop_last()) + utf8_len(s.last())
    }
}

/// The first `n` bytes of `s` as a string, when `n` falls on a character
/// boundary inside `s`; what `str::get(..n)` gives.
pub open spec fn byte_prefix(s: Seq<char>, n: nat) -> Option<Seq<char>> {
    if exists|k: int| 0 <= k <= s.len() && utf8_size(#[trigger] s.take(k)) == n {
        Some(s.take(choose|k: int| 0 <= k <= s.len() && utf8_size(#[trigger] s.take(k)) == n))
    } else {
        None
    }
}

/// Unicode white space, as `char::is_whitespace` tells it.
pub open spec fn is_white(c: char) -> bool {
    ||| ('\t' <= c && c <= '\r')
    ||| c == ' '
    ||| c == '\u{85}'
    ||| c == '\u{a0}'
    ||| c == '\u{1680}'
    ||| ('\u{2000}' <= c && c <= '\u{200a}')
    ||| c == '\u{2028}'
    ||| c == '\u{2029}'
    ||| c == '\u{202f}'
    ||| c == '\u{205f}'
    ||| c == '\u{3000}'
}

/// `s` without its trailing white space.
pub open spec fn trim_end(s: Seq<char>) -> Seq<char>
    decreases s.len(),
{
    if s.len() > 0 && is_white(s.last()) {
        trim_end(s.drop_last())
    } else {
        s
    }
}

/// `s` with every NUL character replaced by `r`.
pub open spec fn replace_nul(s: Seq<char>, r: Seq<char>) -> Seq<char>
    decreases s.len(),
{
    if s.len() == 0 {
        Seq::empty()
    } else {
        replace_nul(s.drop_last(), r) + (if s.last() == '\0' {
            r
        } else {
            seq![s.last()]
        })
    }
}

/// The text padded to `width` columns as `align` says; text at least as
/// wide is left alone, or cut to its first `width` bytes when `truncate` is
/// set and that many bytes end on a character boundary.
pub open spec fn pad(s: Seq<char>, width: nat, align: Alignment, truncate: bool) -> Seq<char> {
    let cols = text_width(s);
    if cols >= width {
        if truncate {
            match byte_prefix(s, width) {
                Some(p) => p,
                None => s,
            }
        } else {
            s
        }
    } else {
        let diff = (width - cols) as nat;
        match align {
            Alignment::Left => s + spaces(diff),
            Alignment::Right => spaces(diff) + s,
            Alignment::Center => spaces(diff / 2) + s + spaces((diff - diff / 2) as nat),
        }
    }
}

/// Digits of `n` grouped by three with commas: `1,234,567`.
pub open spec fn human_count(n: nat) -> Seq<char> {
    commas_from(decimal(n), 0)
}

pub open spec fn commas_from(d: Seq<char>, idx: int) -> Seq<char>
    decreases d.len() - idx,
{
    if idx < 0 || idx >= d.len() {
        Seq::empty()
    } else {
        let pos = d.len() - idx - 1;
        seq![d[idx]] + (if pos > 0 && pos % 3 == 0 {
            seq![',']
        } else {
            Seq::empty()
        }) + commas_from(d, idx + 1)
    }
}

/// `num / den` rounded to the nearest integer, ties to the even one.
pub open spec fn round_half_even(num: nat, den: nat) -> nat
    recommends
        den > 0,
{
    let q = num / den;
    let r = num % den;
    if 2 * r > den {
        q + 1
    } else if 2 * r < den {
        q
    } else if q % 2 == 0 {
        q
    } else {
        q + 1
    }
}

fn utf8_len_exec(c: char) -> (n: usize)
    ensures
        n == utf8_len(c),
{
    if (c as u32) < 0x80 {
        1
    } else if (c as u32) < 0x800 {
        2
    } else if (c as u32) < 0x10000 {
        3
    } else {
        4
    }
}

proof fn lemma_utf8_size_mono(s: Seq<char>, a: int, b: int)
    requires
        0 <= a <= b <= s.len(),
    ensures
        utf8_size(s.take(a)) + (b - a) <= utf8_size(s.take(b)),
    decreases b - a,
{
    if a < b {
        lemma_utf8_size_mono(s, a, b - 1);
        assert(s.take(b).drop_last() =~= s.take(b - 1));
    }
}

/// `str::get(..n)`: the first `n` bytes when they end on a character
/// boundary inside `s`.
fn byte_prefix_exec(s: &Vec<char>, n: usize) -> (r: Option<Vec<char>>)
    ensures
        r matches Some(p) ==> byte_prefix(s@, n as nat) == Some(p@),
        r is None ==> byte_prefix(s@, n as nat) is None,
{
    let mut k: usize = 0;
    let mut size: usize = 0;
    while k < s.len() && size < n
        invariant
            k <= s.len(),
            size == utf8_size(s@.take(k as int)),
            size <= n || k == 0,
            forall|j: int| 0 <= j < k ==> utf8_size(#[trigger] s@.take(j)) < n,
        decreases s.len() - k,
    {
        let add = utf8_len_exec(s[k]);
        assert(s@.take(k + 1).drop_last() =~= s@.take(k as int));
        if add > n - size {
            // `n` falls inside the character at `k`.
            proof {
                assert forall|j: int| 0 <= j <= s.len() implies utf8_size(#[trigger] s@.take(j)) != n by {
                    if j > k {
                        lemma_utf8_size_mono(s@, k + 1, j);
                    }
                }
            }
            return None;
        }
        size = size + add;
        k = k + 1;
    }
    if size == n {
        let mut p: Vec<char> = Vec::new();
        let mut i: usize = 0;
        while i < k
            invariant
                i <= k <= s.len(),
                p@ == s@.take(i as int),
            decreases k - i,
        {
            p.push(s[i]);
            i = i + 1;
            assert(p@ =~= s@.take(i as int));
        }
        proof {
            assert forall|j: int| 0 <= j <= s.len() && utf8_size(#[trigger] s@.take(j)) == n implies j == k by {
                if j < k {
                } else if j > k {
                    lemma_utf8_size_mono(s@, k as int, j);
                    if s@.take(j).len() > 0 {
                        assert(utf8_size(s@.take(j)) >= utf8_size(s@.take(k as int)) + 1);
                    }
                }
            }
        }
        Some(p)
    } else {
        proof {
            assert forall|j: int| 0 <= j <= s.len() implies utf8_size(#[trigger] s@.take(j)) != n by {
                if j > k {
                    lemma_utf8_size_mono(s@, k as int, j);
                } else if j == k {
                } else {
                }
            }
        }
        None
    }
}

fn is_white_exec(c: char) -> (b: bool)
    ensures
        b == is_white(c),
{
    ('\t' <= c && c <= '\r') || c == ' ' || c == '\u{85}' || c == '\u{a0}' || c == '\u{1680}' || (
    '\u{2000}' <= c && c <= '\u{200a}') || c == '\u{2028}' || c == '\u{2029}' || c == '\u{202f}'
        || c == '\u{205f}' || c == '\u{3000}'
}

fn trim_end_exec(s: &Vec<char>) -> (r: Vec<char>)
    ensures
        r@ == trim_end(s@),
{
    let mut n = s.len();
    assert(s@.take(n as int) =~= s@);
    while n > 0 && is_white_exec(s[n - 1])
        invariant
            n <= s.len(),
            trim_end(s@) == trim_end(s@.take(n as int)),
        decreases n,
    {
        assert(s@.take(n as int).drop_last() =~= s@.take(n - 1));
        n = n - 1;
    }
    let mut r: Vec<char> = Vec::new();
    let mut i: usize = 0;
    while i < n
        invariant
            i <= n <= s.len(),
            r@ == s@.take(i as int),
        decreases n - i,
    {
        r.push(s[i]);
        i = i + 1;
        assert(r@ =~= s@.take(i as int));
    }
    proof {
        assert(s@.take(s.len() as int) =~= s@);
    }
    r
}

fn replace_nul_exec(s: &Vec<char>, r: &Vec<char>) -> (o: Vec<char>)
    ensures
        o@ == replace_nul(s@, r@),
{
    let mut o: Vec<char> = Vec::new();
    let mut i: usize = 0;
    while i < s.len()
        invariant
            i <= s.len(),
            o@ == replace_nul(s@.take(i as int), r@),
        decreases s.len() - i,
    {
        assert(s@.take(i + 1).drop_last() =~= s@.take(i as int));
        if s[i] == '\0' {
            push_all(&mut o, r);
        } else {
            o.push(s[i]);
        }
        i = i + 1;
        assert(o@ =~= replace_nul(s@.take(i as int), r@));
    }
    assert(s@.take(s.len() as int) =~= s@);
    o
}

fn push_repeat_seq(out: &mut Vec<char>, s: &Vec<char>, n: usize)
    ensures
        final(out)@ == old(out)@ + repeat_seq(s@, n as nat),
{
    let ghost start = out@;
    let mut i: usize = 0;
    while i < n
        invariant
            i <= n,
            out@ == start + repeat_seq(s@, i as nat),
        decreases n - i,
    {
        push_all(out, s);
        i = i + 1;
        assert(out@ =~= start + repeat_seq(s@, i as nat));
    }
}

/// Pads (or truncates) text as `pad` says.
pub(crate) fn pad_exec(s: &Vec<char>, width: usize, align: Alignment, truncate: bool) -> (r: Vec<char>)
    ensures
        r@ == pad(s@, width as nat, align, truncate),
{
    let text = string_of(s);
    let cols = measure_text_width(text.as_str());
    if cols >= width {
        if truncate {
            match byte_prefix_exec(s, width) {
                Some(p) => p,
                None => s.clone(),
            }
        } else {
            s.clone()
        }
    } else {
        let diff = width - cols;
        let (left, right) = match align {
            Alignment::Left => (0, diff),
            Alignment::Right => (diff, 0),
            Alignment::Center => (diff / 2, diff - diff / 2),
        };
        let mut out: Vec<char> = Vec::new();
        push_repeat(&mut out, ' ', left);
        push_all(&mut out, s);
        push_repeat(&mut out, ' ', right);
        proof {
            if align == Alignment::Left {
                assert(out@ =~= s@ + spaces(diff as nat));
            } else if align == Alignment::Right {
                assert(out@ =~= spaces(diff as nat) + s@);
            } else {
                assert(out@ =~= spaces((diff / 2) as nat) + s@ + spaces((diff - diff / 2) as nat));
            }
        }
        out
    }
}

/// Pads text to `width` columns as `align` says; text at least that wide
/// is left alone, or cut to its first `width` bytes when `truncate` is set
/// and they end on a character boundary.
pub fn pad_str(s: &str, width: usize, align: Alignment, truncate: bool) -> (r: String)
    ensures
        r@ == pad(s@, width as nat, align, truncate),
{
    let v = chars_of(s);
    let p = pad_exec(&v, width, align, truncate);
    string_of(&p)
}

fn push_human_count(out: &mut Vec<char>, n: u64)
    ensures
        final(out)@ == old(out)@ + human_count(n as nat),
{
    let mut d: Vec<char> = Vec::new();
    push_decimal(&mut d, n);
    assert(d@ =~= decimal(n as nat));
    let ghost start = out@;
    let len = d.len();
    let mut idx: usize = 0;
    while idx < len
        invariant
            idx <= len == d.len(),
            d@ == decimal(n as nat),
            start + commas_from(d@, 0) == out@ + commas_from(d@, idx as int),
        decreases len - idx,
    {
        let ghost before = out@;
        out.push(d[idx]);
        let pos = len - idx - 1;
        if pos > 0 && pos % 3 == 0 {
            out.push(',');
        }
        assert(before + commas_from(d@, idx as int) =~= out@ + commas_from(d@, idx + 1));
        idx = idx + 1;
    }
    assert(commas_from(d@, len as int) =~= Seq::<char>::empty());
    assert(out@ =~= start + human_count(n as nat));
}

fn round_half_even_exec(num: u128, den: u128) -> (r: u128)
    requires
        den > 0,
        den <= u64::MAX,
        num <= u64::MAX * 100,
    ensures
        r == round_half_even(num as nat, den as nat),
{
    let q = num / den;
    let r = num % den;
    if 2 * r > den {
        q + 1
    } else if 2 * r < den {
        q
    } else if q % 2 == 0 {
        q
    } else {
        q + 1
    }
}


// ---------------------------------------------------------------------------
// The style.
// ---------------------------------------------------------------------------

/// Each character of `s` as a string of its own.
pub open spec fn singles(s: Seq<char>) -> Seq<Seq<char>> {
    Seq::new(s.len(), |i: int| seq![s[i]])
}

proof fn lemma_views(v: Seq<String>)
    ensures
        views(v).len() == v.len(),
        forall|i: int| 0 <= i < v.len() ==> #[trigger] views(v)[i] == v[i]@,
{
}

/// Splits text into the clusters a bar is drawn with: one per character.
fn segment(s: &str) -> (r: Vec<String>)
    ensures
        views(r@) == singles(s@),
{
    let v = chars_of(s);
    let mut r: Vec<String> = Vec::new();
    let mut i: usize = 0;
    while i < v.len()
        invariant
            i <= v.len(),
            v@ == s@,
            views(r@) == singles(s@.take(i as int)),
        decreases v.len() - i,
    {
        let mut one = String::new();
        one.push(v[i]);
        let ghost old_r = r@;
        r.push(one);
        i = i + 1;
        proof {
            lemma_views(r@);
            lemma_views(old_r);
            assert forall|k: int| 0 <= k < i implies #[trigger] views(r@)[k] == singles(s@.take(i as int))[k] by {
                if k < i - 1 {
                    assert(views(old_r)[k] == singles(s@.take(i - 1))[k]);
                }
            }
        }
        assert(views(r@) =~= singles(s@.take(i as int)));
    }
    assert(s@.take(v.len() as int) =~= s@);
    r
}

/// Columns a cluster takes: one per character.
fn measure(s: &str) -> (n: usize)
    ensures
        n == s@.len(),
{
    chars_of(s).len()
}

/// The width shared by the given clusters.
fn width(c: &Vec<String>) -> (w: usize)
    requires
        c.len() > 0,
        forall|i: int| 0 <= i < c.len() ==> (#[trigger] c@[i])@.len() == c@[0]@.len(),
    ensures
        w == c@[0]@.len(),
{
    let w = measure(c[0].as_str());
    let mut i: usize = 1;
    while i < c.len()
        invariant
            1 <= i <= c.len(),
            w == c@[0]@.len(),
            forall|k: int| 0 <= k < c.len() ==> (#[trigger] c@[k])@.len() == c@[0]@.len(),
        decreases c.len() - i,
    {
        let m = measure(c[i].as_str());
        assert(m == w);
        i = i + 1;
    }
    w
}

/// `text` as the alternative style of a bar renders it; without one it is
/// left plain.
pub open spec fn alt_render(alt: Option<Seq<char>>, colors: bool, text: Seq<char>) -> Seq<char> {
    opt_render(alt, colors, text)
}

/// Controls the rendering style of progress bars: the spinner's tick
/// strings, the characters the bar is drawn with, the template, and what
/// happens when the bar finishes.
#[derive(Clone)]
pub struct ProgressStyle {
    tick_strings: Vec<String>,
    progress_chars: Vec<String>,
    template: Template,
    on_finish: ProgressFinish,
    char_width: usize,
}

/// The position of the tick string shown for tick `idx` among `n` strings:
/// the last one is kept for the finished state.
pub open spec fn tick_index(idx: u64, n: nat) -> int {
    ((idx as usize) as int) % ((n - 1) as int)
}

impl ProgressStyle {
    /// Every style has at least two bar clusters, each at least one column
    /// wide.
    pub closed spec fn wf(self) -> bool {
        &&& self.progress_chars.len() >= 2
        &&& self.char_width >= 1
    }

    /// The spinner's tick strings, the last one shown once finished.
    pub closed spec fn ticks(self) -> Seq<Seq<char>> {
        views(self.tick_strings@)
    }

    /// The clusters a bar is drawn with: filled, then the ones for a
    /// partly filled cell, then the empty one.
    pub closed spec fn chars(self) -> Seq<Seq<char>> {
        views(self.progress_chars@)
    }

    /// Columns each cluster of the bar takes.
    pub closed spec fn cluster_width(self) -> nat {
        self.char_width as nat
    }

    /// The parts of the template.
    pub closed spec fn parts(self) -> Seq<Part> {
        part_views(self.template.parts@)
    }

    /// What happens when the bar finishes.
    pub closed spec fn finish(self) -> ProgressFinish {
        self.on_finish
    }

    fn new(template: &str) -> (s: ProgressStyle)
        requires
            template_ok(template@),
        ensures
            s.wf(),
            s.parts() == template_parts(template@),
            s.ticks() == singles(DEFAULT_TICKS@),
            s.chars() == singles("\u{2588}\u{2591}"@),
            s.cluster_width() == 1,
            s.finish() is AndClear,
    {
        let progress_chars = segment("\u{2588}\u{2591}");
        proof {
            reveal_strlit("\u{2588}\u{2591}");
            lemma_views(progress_chars@);
            assert(views(progress_chars@)[0] == progress_chars@[0]@);
            assert(views(progress_chars@)[1] == progress_chars@[1]@);
            assert(progress_chars@[0]@.len() == 1);
            assert(progress_chars@[1]@.len() == 1);
        }
        let char_width = width(&progress_chars);
        let tick_strings = segment(DEFAULT_TICKS);
        ProgressStyle {
            tick_strings,
            progress_chars,
            char_width,
            template: Template::from_str(template),
            on_finish: ProgressFinish::default_finish(),
        }
    }

    /// The default style for bars: `{wide_bar} {pos}/{len}`.
    pub fn default_bar() -> (s: ProgressStyle)
        ensures
            s.wf(),
            s.parts() == template_parts("{wide_bar} {pos}/{len}"@),
            s.ticks() == singles(DEFAULT_TICKS@),
            s.chars() == singles("\u{2588}\u{2591}"@),
            s.cluster_width() == 1,
            s.finish() is AndClear,
    {
        proof {
            reveal_strlit("{wide_bar} {pos}/{len}");
            reveal_with_fuel(scan, 24);
            assert(template_ok("{wide_bar} {pos}/{len}"@));
        }
        Self::new("{wide_bar} {pos}/{len}")
    }

    /// The default style for spinners: `{spinner} {msg}`.
    pub fn default_spinner() -> (s: ProgressStyle)
        ensures
            s.wf(),
            s.parts() == template_parts("{spinner} {msg}"@),
            s.ticks() == singles(DEFAULT_TICKS@),
            s.chars() == singles("\u{2588}\u{2591}"@),
            s.cluster_width() == 1,
            s.finish() is AndClear,
    {
        proof {
            reveal_strlit("{spinner} {msg}");
            reveal_with_fuel(scan, 17);
            assert(template_ok("{spinner} {msg}"@));
        }
        Self::new("{spinner} {msg}")
    }

    /// Sets the spinner's tick characters; at least two are needed.
    pub fn tick_chars(self, s: &str) -> (r: ProgressStyle)
        requires
            self.wf(),
            s@.len() >= 2,
        ensures
            r.wf(),
            r.ticks() == singles(s@),
            r.chars() == self.chars(),
            r.cluster_width() == self.cluster_width(),
            r.parts() == self.parts(),
            r.finish() == self.finish(),
    {
        let mut r = self;
        r.tick_strings = segment(s);
        r
    }

    /// Sets the spinner's tick strings; at least two are needed.
    pub fn tick_strings(self, s: &[&str]) -> (r: ProgressStyle)
        requires
            self.wf(),
            s@.len() >= 2,
        ensures
            r.wf(),
            r.ticks() == s@.map_values(|t: &str| t@),
            r.chars() == self.chars(),
            r.cluster_width() == self.cluster_width(),
            r.parts() == self.parts(),
            r.finish() == self.finish(),
    {
        let mut v: Vec<String> = Vec::new();
        let mut i: usize = 0;
        while i < s.len()
            invariant
                i <= s.len(),
                views(v@) == s@.take(i as int).map_values(|t: &str| t@),
            decreases s.len() - i,
        {
            let mut one = String::new();
            let cs = chars_of(s[i]);
            let mut k: usize = 0;
            while k < cs.len()
                invariant
                    k <= cs.len(),
                    i < s.len(),
                    cs@ == s@[i as int]@,
                    one@ == cs@.take(k as int),
                decreases cs.len() - k,
            {
                one.push(cs[k]);
                k = k + 1;
                assert(one@ =~= cs@.take(k as int));
            }
            assert(cs@.take(cs.len() as int) =~= cs@);
            let ghost old_v = v@;
            v.push(one);
            i = i + 1;
            proof {
                lemma_views(v@);
                lemma_views(old_v);
                assert forall|k: int| 0 <= k < i implies #[trigger] views(v@)[k] == s@.take(i as int).map_values(|t: &str| t@)[k] by {
                    if k < i - 1 {
                        assert(views(old_v)[k] == s@.take(i - 1).map_values(|t: &str| t@)[k]);
                    }
                }
            }
            assert(views(v@) =~= s@.take(i as int).map_values(|t: &str| t@));
        }
        assert(s@.take(s.len() as int) =~= s@);
        let mut r = self;
        r.tick_strings = v;
        r
    }

    /// Sets the characters the bar is drawn with: the filled one, any for a
    /// partly filled cell, and the empty one; at least two are needed.
    pub fn progress_chars(self, s: &str) -> (r: ProgressStyle)
        requires
            self.wf(),
            s@.len() >= 2,
        ensures
            r.wf(),
            r.chars() == singles(s@),
            r.cluster_width() == 1,
            r.ticks() == self.ticks(),
            r.parts() == self.parts(),
            r.finish() == self.finish(),
    {
        let chars = segment(s);
        proof {
            lemma_views(chars@);
            assert forall|i: int| 0 <= i < chars.len() implies (#[trigger] chars@[i])@.len() == chars@[0]@.len() by {
                assert(views(chars@)[i] == chars@[i]@);
                assert(views(chars@)[0] == chars@[0]@);
            }
            assert(views(chars@)[0] == chars@[0]@);
        }
        let w = width(&chars);
        let mut r = self;
        r.progress_chars = chars;
        r.char_width = w;
        r
    }

    /// Sets the template.
    pub fn template(self, s: &str) -> (r: ProgressStyle)
        requires
            self.wf(),
            template_ok(s@),
        ensures
            r.wf(),
            r.parts() == template_parts(s@),
            r.ticks() == self.ticks(),
            r.chars() == self.chars(),
            r.cluster_width() == self.cluster_width(),
            r.finish() == self.finish(),
    {
        let mut r = self;
        r.template = Template::from_str(s);
        r
    }

    /// Sets what happens when the bar finishes.
    pub fn on_finish(self, finish: ProgressFinish) -> (r: ProgressStyle)
        requires
            self.wf(),
        ensures
            r.wf(),
            r.finish() == finish,
            r.ticks() == self.ticks(),
            r.chars() == self.chars(),
            r.cluster_width() == self.cluster_width(),
            r.parts() == self.parts(),
    {
        let mut r = self;
        r.on_finish = finish;
        r
    }

    /// The tick string for tick number `idx`.
    pub fn get_tick_str(&self, idx: u64) -> (s: &str)
        requires
            self.ticks().len() >= 2,
        ensures
            s@ == self.ticks()[tick_index(idx, self.ticks().len())],
    {
        let n = self.tick_strings.len() - 1;
        #[verifier::truncate]
        let i = idx as usize;
        proof {
            assert(self.ticks()[(i % n) as int] == self.tick_strings@[(i % n) as int]@);
        }
        self.tick_strings[i % n].as_str()
    }

    /// The tick string for the finished state: the last one.
    pub fn get_final_tick_str(&self) -> (s: &str)
        requires
            self.ticks().len() >= 1,
        ensures
            s@ == self.ticks().last(),
    {
        let n = self.tick_strings.len();
        proof {
            assert(self.ticks()[n - 1] == self.tick_strings@[n - 1]@);
        }
        self.tick_strings[n - 1].as_str()
    }

    /// What happens when the bar finishes.
    pub fn get_on_finish(&self) -> (f: &ProgressFinish)
        ensures
            *f == self.finish(),
    {
        &self.on_finish
    }

    /// Whether the spinner can be drawn for `state`: two tick strings while
    /// running, one once finished.
    pub open spec fn ticks_ready(self, state: ProgressState) -> bool {
        if state.finished() {
            self.ticks().len() >= 1
        } else {
            self.ticks().len() >= 2
        }
    }

    /// The tick string shown for `state`.
    pub open spec fn current_tick(self, state: ProgressState) -> Seq<char> {
        if state.finished() {
            self.ticks().last()
        } else {
            self.ticks()[tick_index(state.tick, self.ticks().len())]
        }
    }

    /// The tick string shown for `state`.
    pub fn current_tick_str(&self, state: &ProgressState) -> (s: &str)
        requires
            self.ticks_ready(*state),
        ensures
            s@ == self.current_tick(*state),
    {
        if state.is_finished() {
            self.get_final_tick_str()
        } else {
            self.get_tick_str(state.tick)
        }
    }

    /// The bar for the fraction `num / den` drawn `width` columns wide: as
    /// many clusters as fit, the filled ones first, then, where the bar is
    /// neither empty nor full, one cluster for the partly filled cell (the
    /// finer the more of it is filled when there are several to choose
    /// from), then the empty ones in the alternative style.
    pub open spec fn bar_text(self, num: nat, den: nat, width: nat, alt: Option<Seq<char>>, colors: bool) -> Seq<char> {
        let chars = self.chars();
        let w = width / self.cluster_width();
        let prod = num * w;
        let filled = prod / den;
        let head = prod > 0 && filled < w;
        let n: int = if chars.len() >= 2 {
            chars.len() - 2
        } else {
            0
        };
        let cur: int = if n <= 1 {
            1
        } else {
            n - ((prod % den) as int * n) / (den as int)
        };
        let bg: int = w - filled - (if head {
            1int
        } else {
            0
        });
        repeat_seq(chars[0], filled) + (if head {
            chars[cur]
        } else {
            Seq::empty()
        }) + alt_render(alt, colors, repeat_seq(chars.last(), if bg > 0 {
            bg as nat
        } else {
            0
        }))
    }

    /// Draws the bar for the fraction `num / den` in `width` columns.
    pub fn format_bar(&self, num: u64, den: u64, width: usize, alt_style: &Option<DottedStyle>, colors: bool) -> (r: Vec<char>)
        requires
            self.wf(),
            0 < den,
            num <= den,
        ensures
            r@ == self.bar_text(num as nat, den as nat, width as nat, opt_dotted(*alt_style), colors),
    {
        let w = width / self.char_width;
        proof {
            assert((num as u128) * (w as u128) <= 0xffff_ffff_ffff_ffffu128 * 0xffff_ffff_ffff_ffffu128) by (nonlinear_arith)
                requires
                    num <= 0xffff_ffff_ffff_ffffu64,
                    w <= 0xffff_ffff_ffff_ffffu64,
            ;
        }
        let prod: u128 = (num as u128) * (w as u128);
        let filled_wide: u128 = prod / (den as u128);
        proof {
            assert(prod <= (den as u128) * (w as u128)) by (nonlinear_arith)
                requires
                    prod == (num as u128) * (w as u128),
                    num <= den,
            ;
            assert(filled_wide <= w) by (nonlinear_arith)
                requires
                    prod <= (den as u128) * (w as u128),
                    filled_wide == prod / (den as u128),
                    den > 0,
            ;
        }
        let filled = filled_wide as usize;
        let head: usize = if prod > 0 && filled < w {
            1
        } else {
            0
        };
        let n = self.progress_chars.len() - 2;
        let cur: usize = if n <= 1 {
            1
        } else {
            let rem: u128 = prod % (den as u128);
            proof {
                assert(rem * (n as u128) <= 0xffff_ffff_ffff_ffffu128 * 0xffff_ffff_ffff_ffffu128) by (nonlinear_arith)
                    requires
                        rem < den,
                        den <= 0xffff_ffff_ffff_ffffu64,
                        n <= 0xffff_ffff_ffff_ffffu64,
                ;
            }
            let x: u128 = rem * (n as u128) / (den as u128);
            proof {
                assert(rem * (n as u128) < (den as u128) * (n as u128)) by (nonlinear_arith)
                    requires
                        rem < den,
                        n > 1,
                ;
                assert(x < n) by (nonlinear_arith)
                    requires
                        rem * (n as u128) < (den as u128) * (n as u128),
                        x == (rem * (n as u128)) / (den as int),
                        den > 0,
                ;
            }
            n - (x as usize)
        };
        let bg = w.saturating_sub(filled).saturating_sub(head);
        let first = chars_of(self.progress_chars[0].as_str());
        let last = chars_of(self.progress_chars[self.progress_chars.len() - 1].as_str());
        let mut out: Vec<char> = Vec::new();
        push_repeat_seq(&mut out, &first, filled);
        if head == 1 {
            let mid = chars_of(self.progress_chars[cur].as_str());
            push_all(&mut out, &mid);
        }
        let mut rest: Vec<char> = Vec::new();
        push_repeat_seq(&mut rest, &last, bg);
        opt_render_into(alt_style, &mut out, &rest, colors);
        proof {
            let chars = self.chars();
            assert(chars[0] == first@);
            assert(chars.last() == last@);
            assert(head == 1 ==> chars[cur as int] == self.progress_chars@[cur as int]@);
            assert(rest@ =~= repeat_seq(last@, bg as nat));
            assert(out@ =~= self.bar_text(num as nat, den as nat, width as nat, opt_dotted(*alt_style), colors));
        }
        out
    }
}


// ---------------------------------------------------------------------------
// Rendering a state through the template.
// ---------------------------------------------------------------------------

/// The element of a line that takes the room the rest leaves free.
#[derive(Copy, Clone, Debug)]
pub enum WideElement {
    /// The bar of the placeholder at this index of the template.
    Bar { idx: usize },
    Message { align: Alignment },
}

/// Values of keys computed outside the style, as `(key, text)` pairs.
pub open spec fn ext_views(ext: Seq<(String, String)>) -> Seq<(Seq<char>, Seq<char>)> {
    ext.map_values(|p: (String, String)| (p.0@, p.1@))
}

/// The text given for `key`: the first pair with that key.
pub open spec fn lookup(ext: Seq<(Seq<char>, Seq<char>)>, key: Seq<char>) -> Option<Seq<char>>
    decreases ext.len(),
{
    if ext.len() == 0 {
        None
    } else if ext[0].0 == key {
        Some(ext[0].1)
    } else {
        lookup(ext.drop_first(), key)
    }
}

/// The key of a placeholder.
pub open spec fn part_key(p: Part) -> Option<Seq<char>> {
    match p {
        Part::Placeholder { key, .. } => Some(key),
        _ => None,
    }
}

/// Half a week in nanoseconds: how far beyond a span `HumanDuration` looks.
pub open spec fn half_week() -> nat {
    302_400_000_000_000
}

/// The wide element a placeholder makes, if any: `wide_bar` and `wide_msg`
/// do unless an outside value is given for them.
pub open spec fn key_wide(key: Seq<char>, align: Alignment, idx: usize, ext: Seq<(Seq<char>, Seq<char>)>) -> Option<WideElement> {
    if lookup(ext, key) is Some {
        None
    } else if key == "wide_bar"@ {
        Some(WideElement::Bar { idx })
    } else if key == "wide_msg"@ {
        Some(WideElement::Message { align })
    } else {
        None
    }
}

impl ProgressStyle {
    /// Whether the template shows key `k` without an outside value for it.
    pub open spec fn key_used(self, ext: Seq<(Seq<char>, Seq<char>)>, k: Seq<char>) -> bool {
        exists|i: int| 0 <= i < self.parts().len() && #[trigger] part_key(self.parts()[i]) == Some(k) && lookup(ext, k) is None
    }

    /// Whether `state` can be rendered: the spinner has its tick strings and
    /// the spans shown in words are short enough to be measured.
    pub open spec fn renderable(self, st: ProgressState, ext: Seq<(Seq<char>, Seq<char>)>) -> bool {
        &&& self.wf()
        &&& self.key_used(ext, "spinner"@) ==> self.ticks_ready(st)
        &&& self.key_used(ext, "elapsed"@) ==> st.elapsed@ + half_week() <= max_span()
        &&& self.key_used(ext, "eta"@) ==> st.eta@ + half_week() <= max_span()
        &&& self.key_used(ext, "duration"@) ==> st.duration@ + half_week() <= max_span()
    }

    /// The alternative style of the placeholder at `idx` of the template.
    pub open spec fn part_alt(self, idx: usize) -> Option<Seq<char>> {
        if idx < self.parts().len() {
            match self.parts()[idx as int] {
                Part::Placeholder { alt_style, .. } => alt_style,
                _ => None,
            }
        } else {
            None
        }
    }

    /// The text of a built-in key: the bar (`bar`, 20 columns unless a width
    /// is given), the spinner, the message and the prefix, the position and
    /// the length (the position where there is no length) in digits or with
    /// thousands grouped (`human_pos`, `human_len`), the percentage, and the
    /// elapsed time, the estimate of the time left and of the whole duration,
    /// as a clock (`*_precise`) or in words.  `wide_bar` and `wide_msg` hold
    /// the place of their element with a NUL; unknown keys show nothing.
    pub open spec fn key_text(self, st: ProgressState, key: Seq<char>, width: Option<u16>, alt: Option<Seq<char>>, colors: bool) -> Seq<char> {
        let fr = fraction(st.pos, st.len);
        let len = match st.len {
            Some(l) => l,
            None => st.pos,
        };
        if key == "wide_bar"@ {
            seq!['\0']
        } else if key == "bar"@ {
            self.bar_text(fr.0, fr.1, match width {
                Some(w) => w as nat,
                None => 20,
            }, alt, colors)
        } else if key == "spinner"@ {
            self.current_tick(st)
        } else if key == "wide_msg"@ {
            seq!['\0']
        } else if key == "msg"@ {
            st.message.shown()
        } else if key == "prefix"@ {
            st.prefix.shown()
        } else if key == "pos"@ {
            decimal(st.pos as nat)
        } else if key == "human_pos"@ {
            human_count(st.pos as nat)
        } else if key == "len"@ {
            decimal(len as nat)
        } else if key == "human_len"@ {
            human_count(len as nat)
        } else if key == "percent"@ {
            decimal(round_half_even(100 * fr.0, fr.1))
        } else if key == "elapsed_precise"@ {
            formatted_secs(st.elapsed@ / 1_000_000_000)
        } else if key == "elapsed"@ {
            human_duration(st.elapsed@, true)
        } else if key == "eta_precise"@ {
            formatted_secs(st.eta@ / 1_000_000_000)
        } else if key == "eta"@ {
            human_duration(st.eta@, true)
        } else if key == "duration_precise"@ {
            formatted_secs(st.duration@ / 1_000_000_000)
        } else if key == "duration"@ {
            human_duration(st.duration@, true)
        } else {
            Seq::empty()
        }
    }

    /// What a placeholder writes: the outside value for its key, else the
    /// key's own text, padded to its width where it has one, in its style
    /// where it has one.
    pub open spec fn placeholder_text(
        self,
        st: ProgressState,
        p: Part,
        colors: bool,
        ext: Seq<(Seq<char>, Seq<char>)>,
    ) -> Seq<char> {
        match p {
            Part::Placeholder { key, align, width, truncate, style, alt_style } => {
                let buf = match lookup(ext, key) {
                    Some(v) => v,
                    None => self.key_text(st, key, width, alt_style, colors),
                };
                let padded = match width {
                    Some(w) => pad(buf, w as nat, align, truncate),
                    None => buf,
                };
                opt_render(style, colors, padded)
            },
            _ => Seq::empty(),
        }
    }

    /// A finished line with its wide element put in: it takes the columns
    /// of a terminal `tw` wide that the rest leaves, plus one.  A wide bar
    /// is drawn there; a wide message is padded (or cut) to that width, and
    /// its trailing blanks are dropped when it ends the line.
    pub open spec fn expand_line(
        self,
        st: ProgressState,
        tw: nat,
        colors: bool,
        cur: Seq<char>,
        wide: Option<WideElement>,
    ) -> Seq<char> {
        match wide {
            None => cur,
            Some(e) => {
                let used = text_width(cur);
                let left: nat = (if tw > used {
                    (tw - used) as nat
                } else {
                    0
                }) + 1;
                match e {
                    WideElement::Bar { idx } => {
                        let fr = fraction(st.pos, st.len);
                        replace_nul(cur, self.bar_text(fr.0, fr.1, left, self.part_alt(idx), colors))
                    },
                    WideElement::Message { align } => {
                        let padded = pad(st.message.shown(), left, align, true);
                        replace_nul(cur, if cur.len() > 0 && cur.last() == '\0' {
                            trim_end(padded)
                        } else {
                            padded
                        })
                    },
                }
            },
        }
    }

    /// The lines finished so far, the line being written, and the wide
    /// element, after the given parts.
    pub open spec fn fold_parts(
        self,
        st: ProgressState,
        tw: nat,
        colors: bool,
        ext: Seq<(Seq<char>, Seq<char>)>,
        parts: Seq<Part>,
    ) -> (Seq<Seq<char>>, Seq<char>, Option<WideElement>)
        decreases parts.len(),
    {
        if parts.len() == 0 {
            (Seq::empty(), Seq::empty(), None)
        } else {
            let prev = self.fold_parts(st, tw, colors, ext, parts.drop_last());
            match parts.last() {
                Part::Placeholder { key, align, width, truncate, style, alt_style } => {
                    let wide = match key_wide(key, align, (parts.len() - 1) as usize, ext) {
                        Some(e) => Some(e),
                        None => prev.2,
                    };
                    (prev.0, prev.1 + self.placeholder_text(st, parts.last(), colors, ext), wide)
                },
                Part::Literal(text) => (prev.0, prev.1 + text, prev.2),
                Part::NewLine => (prev.0.push(self.expand_line(st, tw, colors, prev.1, prev.2)), Seq::empty(), prev.2),
            }
        }
    }

    /// The lines the style renders for `st` on a terminal `tw` columns wide.
    pub open spec fn render(self, st: ProgressState, tw: nat, colors: bool, ext: Seq<(Seq<char>, Seq<char>)>) -> Seq<Seq<char>> {
        let f = self.fold_parts(st, tw, colors, ext, self.parts());
        if f.1.len() > 0 {
            f.0.push(self.expand_line(st, tw, colors, f.1, f.2))
        } else {
            f.0
        }
    }
}

impl ProgressStyle {
    /// Whether `st` can be rendered with the outside values `ext`, as
    /// `renderable` says.
    pub fn check_renderable(&self, st: &ProgressState, ext: &Vec<(String, String)>) -> (b: bool)
        requires
            self.wf(),
        ensures
            b == self.renderable(*st, ext_views(ext@)),
    {
        let ghost parts = self.parts();
        let ghost ev = ext_views(ext@);
        let mut spinner = false;
        let mut elapsed = false;
        let mut eta = false;
        let mut duration = false;
        let mut i: usize = 0;
        proof {
            lemma_part_views(self.template.parts@);
        }
        while i < self.template.parts.len()
            invariant
                i <= self.template.parts.len(),
                parts == self.parts(),
                parts.len() == self.template.parts.len(),
                forall|k: int| 0 <= k < parts.len() ==> #[trigger] parts[k] == self.template.parts@[k]@,
                ev == ext_views(ext@),
                spinner == exists|k: int| 0 <= k < i && #[trigger] part_key(parts[k]) == Some("spinner"@) && lookup(ev, "spinner"@) is None,
                elapsed == exists|k: int| 0 <= k < i && #[trigger] part_key(parts[k]) == Some("elapsed"@) && lookup(ev, "elapsed"@) is None,
                eta == exists|k: int| 0 <= k < i && #[trigger] part_key(parts[k]) == Some("eta"@) && lookup(ev, "eta"@) is None,
                duration == exists|k: int| 0 <= k < i && #[trigger] part_key(parts[k]) == Some("duration"@) && lookup(ev, "duration"@) is None,
            decreases self.template.parts.len() - i,
        {
            match &self.template.parts[i] {
                TemplatePart::Placeholder { key, .. } => {
                    let ghost k = key@;
                    assert(part_key(parts[i as int]) == Some(k));
                    if lookup_exec(ext, key).is_none() {
                        let kv = chars_of(key.as_str());
                        if eq_str(&kv, "spinner") {
                            spinner = true;
                        }
                        if eq_str(&kv, "elapsed") {
                            elapsed = true;
                        }
                        if eq_str(&kv, "eta") {
                            eta = true;
                        }
                        if eq_str(&kv, "duration") {
                            duration = true;
                        }
                    }
                },
                _ => {
                    assert(part_key(parts[i as int]) is None);
                },
            }
            i = i + 1;
        }
        let ticks_ok = if st.is_finished() {
            self.tick_strings.len() >= 1
        } else {
            self.tick_strings.len() >= 2
        };
        proof {
            lemma_views(self.tick_strings@);
        }
        let limit: u128 = 18_446_744_073_709_551_615u128 * 1_000_000_000 + 999_999_999 - 302_400_000_000_000;
        (!spinner || ticks_ok) && (!elapsed || st.elapsed.as_nanos() <= limit) && (!eta || st.eta.as_nanos() <= limit) && (
        !duration || st.duration.as_nanos() <= limit)
    }
}

/// The first value given for `key`.
fn lookup_exec(ext: &Vec<(String, String)>, key: &String) -> (r: Option<Vec<char>>)
    ensures
        r matches Some(v) ==> lookup(ext_views(ext@), key@) == Some(v@),
        r is None ==> lookup(ext_views(ext@), key@) is None,
{
    let ghost ev = ext_views(ext@);
    let mut i: usize = 0;
    assert(ev.skip(0) =~= ev);
    while i < ext.len()
        invariant
            i <= ext.len(),
            ev == ext_views(ext@),
            lookup(ev, key@) == lookup(ev.skip(i as int), key@),
        decreases ext.len() - i,
    {
        assert(ev.skip(i as int)[0] == (ext@[i as int].0@, ext@[i as int].1@));
        assert(ev.skip(i as int).drop_first() =~= ev.skip(i + 1));
        if ext[i].0 == *key {
            return Some(chars_of(ext[i].1.as_str()));
        }
        i = i + 1;
    }
    assert(ev.skip(i as int).len() == 0);
    None
}

impl ProgressStyle {
    /// The text of a built-in key, as `key_text` says.
    fn key_text_exec(
        &self,
        st: &ProgressState,
        key: &Vec<char>,
        width: Option<u16>,
        alt: &Option<DottedStyle>,
        colors: bool,
    ) -> (r: Vec<char>)
        requires
            self.wf(),
            key@ == "spinner"@ ==> self.ticks_ready(*st),
            key@ == "elapsed"@ ==> st.elapsed@ + half_week() <= max_span(),
            key@ == "eta"@ ==> st.eta@ + half_week() <= max_span(),
            key@ == "duration"@ ==> st.duration@ + half_week() <= max_span(),
        ensures
            r@ == self.key_text(*st, key@, width, opt_dotted(*alt), colors),
    {
        let (num, den) = st.fraction();
        let len = match st.len {
            Some(l) => l,
            None => st.pos,
        };
        let mut out: Vec<char> = Vec::new();
        if eq_str(key, "wide_bar") {
            out.push('\0');
        } else if eq_str(key, "bar") {
            let w: usize = match width {
                Some(w) => w as usize,
                None => 20,
            };
            out = self.format_bar(num, den, w, alt, colors);
        } else if eq_str(key, "spinner") {
            out = chars_of(self.current_tick_str(st));
        } else if eq_str(key, "wide_msg") {
            out.push('\0');
        } else if eq_str(key, "msg") {
            out = chars_of(st.message.expanded());
        } else if eq_str(key, "prefix") {
            out = chars_of(st.prefix.expanded());
        } else if eq_str(key, "pos") {
            push_decimal(&mut out, st.pos);
        } else if eq_str(key, "human_pos") {
            push_human_count(&mut out, st.pos);
        } else if eq_str(key, "len") {
            push_decimal(&mut out, len);
        } else if eq_str(key, "human_len") {
            push_human_count(&mut out, len);
        } else if eq_str(key, "percent") {
            let pct = round_half_even_exec(100 * (num as u128), den as u128);
            push_decimal_wide(&mut out, pct);
        } else if eq_str(key, "elapsed_precise") {
            out = chars_of(FormattedDuration(st.elapsed).to_string().as_str());
        } else if eq_str(key, "elapsed") {
            out = chars_of(HumanDuration(st.elapsed).format(true).as_str());
        } else if eq_str(key, "eta_precise") {
            out = chars_of(FormattedDuration(st.eta).to_string().as_str());
        } else if eq_str(key, "eta") {
            out = chars_of(HumanDuration(st.eta).format(true).as_str());
        } else if eq_str(key, "duration_precise") {
            out = chars_of(FormattedDuration(st.duration).to_string().as_str());
        } else if eq_str(key, "duration") {
            out = chars_of(HumanDuration(st.duration).format(true).as_str());
        }
        proof {
            assert(out@ =~= self.key_text(*st, key@, width, opt_dotted(*alt), colors));
        }
        out
    }

    /// Writes a placeholder as `placeholder_text` says and tells the wide
    /// element it makes.
    fn placeholder_exec(
        &self,
        st: &ProgressState,
        p: &TemplatePart,
        idx: usize,
        colors: bool,
        ext: &Vec<(String, String)>,
        cur: &mut Vec<char>,
    ) -> (wide: Option<WideElement>)
        requires
            p is Placeholder,
            self.wf(),
            lookup(ext_views(ext@), part_key(p@).unwrap()) is None ==> {
                let k = part_key(p@).unwrap();
                &&& k == "spinner"@ ==> self.ticks_ready(*st)
                &&& k == "elapsed"@ ==> st.elapsed@ + half_week() <= max_span()
                &&& k == "eta"@ ==> st.eta@ + half_week() <= max_span()
                &&& k == "duration"@ ==> st.duration@ + half_week() <= max_span()
            },
        ensures
            final(cur)@ == old(cur)@ + self.placeholder_text(*st, p@, colors, ext_views(ext@)),
            match p@ {
                Part::Placeholder { key, align, .. } => wide == key_wide(key, align, idx, ext_views(ext@)),
                _ => false,
            },
    {
        match p {
            TemplatePart::Placeholder { key, align, width, truncate, style, alt_style } => {
                let kv = chars_of(key.as_str());
                let found = lookup_exec(ext, key);
                let mut wide: Option<WideElement> = None;
                let buf = match found {
                    Some(v) => v,
                    None => {
                        if eq_str(&kv, "wide_bar") {
                            wide = Some(WideElement::Bar { idx });
                        } else if eq_str(&kv, "wide_msg") {
                            wide = Some(WideElement::Message { align: *align });
                        }
                        self.key_text_exec(st, &kv, *width, alt_style, colors)
                    },
                };
                let padded = match width {
                    Some(w) => pad_exec(&buf, *w as usize, *align, *truncate),
                    None => buf,
                };
                opt_render_into(style, cur, &padded, colors);
                wide
            },
            _ => None,
        }
    }

    /// Puts the wide element into a finished line, as `expand_line` says.
    fn expand_exec(
        &self,
        st: &ProgressState,
        tw: usize,
        colors: bool,
        cur: &Vec<char>,
        wide: Option<WideElement>,
    ) -> (r: Vec<char>)
        requires
            self.wf(),
            tw < usize::MAX,
        ensures
            r@ == self.expand_line(*st, tw as nat, colors, cur@, wide),
    {
        match wide {
            None => cur.clone(),
            Some(e) => {
                let text = string_of(cur);
                let used = measure_text_width(text.as_str());
                let left = tw.saturating_sub(used) + 1;
                match e {
                    WideElement::Bar { idx } => {
                        let (num, den) = st.fraction();
                        let none: Option<DottedStyle> = None;
                        let alt: &Option<DottedStyle> = if idx < self.template.parts.len() {
                            match &self.template.parts[idx] {
                                TemplatePart::Placeholder { alt_style, .. } => alt_style,
                                _ => &none,
                            }
                        } else {
                            &none
                        };
                        proof {
                            lemma_part_views(self.template.parts@);
                        }
                        assert(opt_dotted(*alt) == self.part_alt(idx));
                        let bar = self.format_bar(num, den, left, alt, colors);
                        replace_nul_exec(cur, &bar)
                    },
                    WideElement::Message { align } => {
                        let msg = chars_of(st.message.expanded());
                        let padded = pad_exec(&msg, left, align, true);
                        let n = cur.len();
                        if n > 0 && cur[n - 1] == '\0' {
                            let trimmed = trim_end_exec(&padded);
                            replace_nul_exec(cur, &trimmed)
                        } else {
                            replace_nul_exec(cur, &padded)
                        }
                    },
                }
            },
        }
    }

    /// Renders the state into lines through the template, as `render` says:
    /// `tw` is the terminal's width, `colors` whether the terminal shows
    /// colors, and `ext` holds the values of keys computed outside the style,
    /// which take precedence over the built-in ones.
    pub fn format_state(&self, st: &ProgressState, tw: usize, colors: bool, ext: &Vec<(String, String)>) -> (rv: Vec<String>)
        requires
            self.renderable(*st, ext_views(ext@)),
            tw < usize::MAX,
        ensures
            views(rv@) == self.render(*st, tw as nat, colors, ext_views(ext@)),
    {
        let ghost ev = ext_views(ext@);
        let ghost parts = self.parts();
        let mut cur: Vec<char> = Vec::new();
        let mut rv: Vec<String> = Vec::new();
        let mut wide: Option<WideElement> = None;
        let n = self.template.parts.len();
        let mut i: usize = 0;
        proof {
            lemma_part_views(self.template.parts@);
            assert(parts.take(0) =~= Seq::<Part>::empty());
            assert(views(rv@) =~= Seq::<Seq<char>>::empty());
        }
        while i < n
            invariant
                i <= n == self.template.parts.len(),
                parts == self.parts(),
                parts.len() == n,
                forall|k: int| 0 <= k < n ==> #[trigger] parts[k] == self.template.parts@[k]@,
                ev == ext_views(ext@),
                self.renderable(*st, ev),
                tw < usize::MAX,
                (views(rv@), cur@, wide) == self.fold_parts(*st, tw as nat, colors, ev, parts.take(i as int)),
            decreases n - i,
        {
            let ghost prev = self.fold_parts(*st, tw as nat, colors, ev, parts.take(i as int));
            assert(parts.take(i + 1).drop_last() =~= parts.take(i as int));
            assert(parts.take(i + 1).last() == parts[i as int]);
            let p = &self.template.parts[i];
            match p {
                TemplatePart::Placeholder { .. } => {
                    proof {
                        let k = part_key(parts[i as int]).unwrap();
                        assert(part_key(self.parts()[i as int]) == Some(k));
                    }
                    let w = self.placeholder_exec(st, p, i, colors, ext, &mut cur);
                    match w {
                        Some(e) => wide = Some(e),
                        None => {},
                    }
                },
                TemplatePart::Literal(text) => {
                    push_str(&mut cur, text.as_str());
                },
                TemplatePart::NewLine => {
                    let line = self.expand_exec(st, tw, colors, &cur, wide);
                    let ghost old_rv = rv@;
                    rv.push(string_of(&line));
                    proof {
                        lemma_views(rv@);
                        lemma_views(old_rv);
                        assert(views(rv@) =~= views(old_rv).push(line@));
                    }
                    cur = Vec::new();
                },
            }
            i = i + 1;
        }
        assert(parts.take(n as int) =~= parts);
        if cur.len() > 0 {
            let line = self.expand_exec(st, tw, colors, &cur, wide);
            let ghost old_rv = rv@;
            rv.push(string_of(&line));
            proof {
                lemma_views(rv@);
                lemma_views(old_rv);
                assert(views(rv@) =~= views(old_rv).push(line@));
            }
        }
        rv
    }
}

proof fn lemma_part_views(v: Seq<TemplatePart>)
    ensures
        part_views(v).len() == v.len(),
        forall|i: int| 0 <= i < v.len() ==> #[trigger] part_views(v)[i] == v[i]@,
{
}


proof fn lemma_repeat_len(s: Seq<char>, n: nat)
    ensures
        repeat_seq(s, n).len() == n * s.len(),
    decreases n,
{
    if n > 0 {
        lemma_repeat_len(s, (n - 1) as nat);
        assert(n * s.len() == (n - 1) * s.len() + s.len()) by (nonlinear_arith);
    } else {
        assert(n * s.len() == 0) by (nonlinear_arith)
            requires
                n == 0,
        ;
    }
}

/// A bar without an alternative style, drawn with one-character clusters,
/// is exactly as long as the number of clusters that fit in its width.
pub proof fn law_bar_fills_width(st: ProgressStyle, num: nat, den: nat, width: nat, colors: bool)
    requires
        st.wf(),
        0 < den,
        num <= den,
        forall|i: int| 0 <= i < st.chars().len() ==> (#[trigger] st.chars()[i]).len() == 1,
    ensures
        st.bar_text(num, den, width, None, colors).len() == width / st.cluster_width(),
{
    let chars = st.chars();
    lemma_views(st.progress_chars@);
    assert(chars.len() >= 2);
    assert(chars[0].len() == 1);
    assert(chars[chars.len() - 1].len() == 1);
    let w = width / st.cluster_width();
    let prod = num * w;
    let filled = prod / den;
    assert(prod <= den * w) by (nonlinear_arith)
        requires
            prod == num * w,
            num <= den,
    ;
    assert(filled <= w) by (nonlinear_arith)
        requires
            prod <= den * w,
            filled == prod / den,
            den > 0,
    ;
    let head = prod > 0 && filled < w;
    let n: int = chars.len() - 2;
    let cur: int = if n <= 1 { 1 } else { n - ((prod % den) as int * n) / (den as int) };
    if n > 1 {
        let x = ((prod % den) as int * n) / (den as int);
        assert(x < n) by (nonlinear_arith)
            requires
                x == ((prod % den) as int * n) / (den as int),
                0 <= prod % den < den,
                n > 1,
                den > 0,
        ;
        assert(x >= 0) by (nonlinear_arith)
            requires
                x == ((prod % den) as int * n) / (den as int),
                0 <= prod % den,
                n > 1,
                den > 0,
        ;
    }
    assert(0 <= cur < chars.len());
    assert(chars[cur].len() == 1);
    lemma_repeat_len(chars[0], filled);
    let bg: int = w - filled - (if head { 1int } else { 0 });
    lemma_repeat_len(chars.last(), if bg > 0 { bg as nat } else { 0 });
}

/// A complete bar is all filled: every cluster that fits is the filled one,
/// and no empty part is drawn.
pub proof fn law_complete_bar(st: ProgressStyle, width: nat, alt: Option<Seq<char>>, colors: bool)
    requires
        st.wf(),
    ensures
        st.bar_text(1, 1, width, alt, colors) == repeat_seq(st.chars()[0], width / st.cluster_width())
            + alt_render(alt, colors, Seq::empty()),
{
    let w = width / st.cluster_width();
    assert(repeat_seq(st.chars().last(), 0) =~= Seq::<char>::empty());
    assert(repeat_seq(st.chars()[0], w) + Seq::<char>::empty() =~= repeat_seq(st.chars()[0], w));
}

/// A partly filled cell filled less than one n-th, with n fine-grained
/// clusters to choose from, shows the last (thinnest) of them.
pub proof fn law_thin_partial_cell(
    st: ProgressStyle,
    num: nat,
    den: nat,
    width: nat,
    alt: Option<Seq<char>>,
    colors: bool,
)
    requires
        st.wf(),
        0 < den,
        num <= den,
        st.chars().len() >= 4,
        num * (width / st.cluster_width()) > 0,
        (num * (width / st.cluster_width())) / den < width / st.cluster_width(),
        ((num * (width / st.cluster_width())) % den) * ((st.chars().len() - 2) as nat) < den,
    ensures
        st.bar_text(num, den, width, alt, colors) == repeat_seq(
            st.chars()[0],
            (num * (width / st.cluster_width())) / den,
        ) + st.chars()[st.chars().len() - 2] + alt_render(
            alt,
            colors,
            repeat_seq(
                st.chars().last(),
                (width / st.cluster_width() - (num * (width / st.cluster_width())) / den - 1) as nat,
            ),
        ),
{
    let n: int = st.chars().len() - 2;
    let prod = num * (width / st.cluster_width());
    let rem = prod % den;
    assert((rem as int * n) / (den as int) == 0) by (nonlinear_arith)
        requires
            rem * n < den,
            rem >= 0,
            n >= 0,
            den > 0,
    ;
}

/// Of two partly filled cells, the fuller one never shows a later (emptier)
/// fine-grained cluster: with the same number of filled cells, more progress
/// picks a cluster at the same place or earlier among the n fine-grained
/// ones.
pub proof fn law_fuller_cell_not_emptier(
    st: ProgressStyle,
    num1: nat,
    num2: nat,
    den: nat,
    width: nat,
    alt: Option<Seq<char>>,
    colors: bool,
)
    requires
        st.wf(),
        0 < den,
        num1 <= num2 <= den,
        st.chars().len() >= 4,
        num1 * (width / st.cluster_width()) > 0,
        (num1 * (width / st.cluster_width())) / den == (num2 * (width / st.cluster_width())) / den,
        (num2 * (width / st.cluster_width())) / den < width / st.cluster_width(),
    ensures
        exists|k1: int, k2: int|
            #![trigger st.chars()[k1], st.chars()[k2]]
            1 <= k2 <= k1 <= st.chars().len() - 2 && st.bar_text(num1, den, width, alt, colors) == repeat_seq(
                st.chars()[0],
                (num1 * (width / st.cluster_width())) / den,
            ) + st.chars()[k1] + alt_render(
                alt,
                colors,
                repeat_seq(
                    st.chars().last(),
                    (width / st.cluster_width() - (num1 * (width / st.cluster_width())) / den - 1) as nat,
                ),
            ) && st.bar_text(num2, den, width, alt, colors) == repeat_seq(
                st.chars()[0],
                (num1 * (width / st.cluster_width())) / den,
            ) + st.chars()[k2] + alt_render(
                alt,
                colors,
                repeat_seq(
                    st.chars().last(),
                    (width / st.cluster_width() - (num1 * (width / st.cluster_width())) / den - 1) as nat,
                ),
            ),
{
    let w = width / st.cluster_width();
    let n: int = st.chars().len() - 2;
    let p1 = num1 * w;
    let p2 = num2 * w;
    let f = p1 / den;
    assert(p1 <= p2) by (nonlinear_arith)
        requires
            num1 <= num2,
            p1 == num1 * w,
            p2 == num2 * w,
    ;
    let r1 = p1 % den;
    let r2 = p2 % den;
    assert(r1 <= r2 && r2 < den) by (nonlinear_arith)
        requires
            p1 <= p2,
            p1 / den == p2 / den,
            den > 0,
            r1 == p1 % den,
            r2 == p2 % den,
    {
        assert(p1 == den * (p1 / den) + p1 % den);
        assert(p2 == den * (p2 / den) + p2 % den);
    }
    let x1 = (r1 as int * n) / (den as int);
    let x2 = (r2 as int * n) / (den as int);
    assert(x1 <= x2) by (nonlinear_arith)
        requires
            r1 <= r2,
            n >= 2,
            den > 0,
            x1 == (r1 as int * n) / (den as int),
            x2 == (r2 as int * n) / (den as int),
    {
        vstd::arithmetic::div_mod::lemma_div_is_ordered(r1 as int * n, r2 as int * n, den as int);
    }
    assert(x2 < n) by (nonlinear_arith)
        requires
            r2 < den,
            n >= 2,
            den > 0,
            x2 == (r2 as int * n) / (den as int),
    {
        assert(r2 as int * n < den as int * n);
        vstd::arithmetic::div_mod::lemma_div_is_ordered(r2 as int * n, den as int * n - 1, den as int);
        vstd::arithmetic::div_mod::lemma_div_multiples_vanish_fancy(n - 1, den as int - 1, den as int);
    }
    assert(x1 >= 0) by (nonlinear_arith)
        requires
            r1 >= 0,
            n >= 0,
            den > 0,
            x1 == (r1 as int * n) / (den as int),
    ;
    let k1 = n - x1;
    let k2 = n - x2;
    assert(1 <= k2 <= k1 <= n);
    assert(st.bar_text(num1, den, width, alt, colors) == repeat_seq(st.chars()[0], f) + st.chars()[k1] + alt_render(
        alt,
        colors,
        repeat_seq(st.chars().last(), (w - f - 1) as nat),
    ));
    assert(st.bar_text(num2, den, width, alt, colors) == repeat_seq(st.chars()[0], f) + st.chars()[k2] + alt_render(
        alt,
        colors,
        repeat_seq(st.chars().last(), (w - f - 1) as nat),
    ));
}

/// Padding text narrower than the width adds exactly the missing columns as
/// blanks, split as the alignment says.
pub proof fn law_pad_adds_missing_columns(s: Seq<char>, width: nat, align: Alignment, truncate: bool)
    requires
        text_width(s) < width,
    ensures
        pad(s, width, align, truncate).len() == s.len() + (width - text_width(s)),
{
}

proof fn lemma_key_elapsed_precise(style: ProgressStyle, st: ProgressState, width: Option<u16>, alt: Option<Seq<char>>, colors: bool)
    ensures
        style.key_text(st, "elapsed_precise"@, width, alt, colors) == formatted_secs(st.elapsed@ / 1_000_000_000),
{
    reveal_strlit("elapsed_precise");
    reveal_strlit("wide_bar");
    assert("elapsed_precise"@ != "wide_bar"@) by { assert("elapsed_precise"@.len() != "wide_bar"@.len()); }
    reveal_strlit("bar");
    assert("elapsed_precise"@ != "bar"@) by { assert("elapsed_precise"@.len() != "bar"@.len()); }
    reveal_strlit("spinner");
    assert("elapsed_precise"@ != "spinner"@) by { assert("elapsed_precise"@.len() != "spinner"@.len()); }
    reveal_strlit("wide_msg");
    assert("elapsed_precise"@ != "wide_msg"@) by { assert("elapsed_precise"@.len() != "wide_msg"@.len()); }
    reveal_strlit("msg");
    assert("elapsed_precise"@ != "msg"@) by { assert("elapsed_precise"@.len() != "msg"@.len()); }
    reveal_strlit("prefix");
    assert("elapsed_precise"@ != "prefix"@) by { assert("elapsed_precise"@.len() != "prefix"@.len()); }
    reveal_strlit("pos");
    assert("elapsed_precise"@ != "pos"@) by { assert("elapsed_precise"@.len() != "pos"@.len()); }
    reveal_strlit("human_pos");
    assert("elapsed_precise"@ != "human_pos"@) by { assert("elapsed_precise"@.len() != "human_pos"@.len()); }
    reveal_strlit("len");
    assert("elapsed_precise"@ != "len"@) by { assert("elapsed_precise"@.len() != "len"@.len()); }
    reveal_strlit("human_len");
    assert("elapsed_precise"@ != "human_len"@) by { assert("elapsed_precise"@.len() != "human_len"@.len()); }
    reveal_strlit("percent");
    assert("elapsed_precise"@ != "percent"@) by { assert("elapsed_precise"@.len() != "percent"@.len()); }
}

proof fn lemma_key_elapsed(style: ProgressStyle, st: ProgressState, width: Option<u16>, alt: Option<Seq<char>>, colors: bool)
    ensures
        style.key_text(st, "elapsed"@, width, alt, colors) == human_duration(st.elapsed@, true),
{
    reveal_strlit("elapsed");
    reveal_strlit("wide_bar");
    assert("elapsed"@ != "wide_bar"@) by { assert("elapsed"@.len() != "wide_bar"@.len()); }
    reveal_strlit("bar");
    assert("elapsed"@ != "bar"@) by { assert("elapsed"@.len() != "bar"@.len()); }
    reveal_strlit("spinner");
    assert("elapsed"@ != "spinner"@) by { assert("elapsed"@[0] != "spinner"@[0]); }
    reveal_strlit("wide_msg");
    assert("elapsed"@ != "wide_msg"@) by { assert("elapsed"@.len() != "wide_msg"@.len()); }
    reveal_strlit("msg");
    assert("elapsed"@ != "msg"@) by { assert("elapsed"@.len() != "msg"@.len()); }
    reveal_strlit("prefix");
    assert("elapsed"@ != "prefix"@) by { assert("elapsed"@.len() != "prefix"@.len()); }
    reveal_strlit("pos");
    assert("elapsed"@ != "pos"@) by { assert("elapsed"@.len() != "pos"@.len()); }
    reveal_strlit("human_pos");
    assert("elapsed"@ != "human_pos"@) by { assert("elapsed"@.len() != "human_pos"@.len()); }
    reveal_strlit("len");
    assert("elapsed"@ != "len"@) by { assert("elapsed"@.len() != "len"@.len()); }
    reveal_strlit("human_len");
    assert("elapsed"@ != "human_len"@) by { assert("elapsed"@.len() != "human_len"@.len()); }
    reveal_strlit("percent");
    assert("elapsed"@ != "percent"@) by { assert("elapsed"@[0] != "percent"@[0]); }
    reveal_strlit("elapsed_precise");
    assert("elapsed"@ != "elapsed_precise"@) by { assert("elapsed"@.len() != "elapsed_precise"@.len()); }
}

proof fn lemma_key_eta_precise(style: ProgressStyle, st: ProgressState, width: Option<u16>, alt: Option<Seq<char>>, colors: bool)
    ensures
        style.key_text(st, "eta_precise"@, width, alt, colors) == formatted_secs(st.eta@ / 1_000_000_000),
{
    reveal_strlit("eta_precise");
    reveal_strlit("wide_bar");
    assert("eta_precise"@ != "wide_bar"@) by { assert("eta_precise"@.len() != "wide_bar"@.len()); }
    reveal_strlit("bar");
    assert("eta_precise"@ != "bar"@) by { assert("eta_precise"@.len() != "bar"@.len()); }
    reveal_strlit("spinner");
    assert("eta_precise"@ != "spinner"@) by { assert("eta_precise"@.len() != "spinner"@.len()); }
    reveal_strlit("wide_msg");
    assert("eta_precise"@ != "wide_msg"@) by { assert("eta_precise"@.len() != "wide_msg"@.len()); }
    reveal_strlit("msg");
    assert("eta_precise"@ != "msg"@) by { assert("eta_precise"@.len() != "msg"@.len()); }
    reveal_strlit("prefix");
    assert("eta_precise"@ != "prefix"@) by { assert("eta_precise"@.len() != "prefix"@.len()); }
    reveal_strlit("pos");
    assert("eta_precise"@ != "pos"@) by { assert("eta_precise"@.len() != "pos"@.len()); }
    reveal_strlit("human_pos");
    assert("eta_precise"@ != "human_pos"@) by { assert("eta_precise"@.len() != "human_pos"@.len()); }
    reveal_strlit("len");
    assert("eta_precise"@ != "len"@) by { assert("eta_precise"@.len() != "len"@.len()); }
    reveal_strlit("human_len");
    assert("eta_precise"@ != "human_len"@) by { assert("eta_precise"@.len() != "human_len"@.len()); }
    reveal_strlit("percent");
    assert("eta_precise"@ != "percent"@) by { assert("eta_precise"@.len() != "percent"@.len()); }
    reveal_strlit("elapsed_precise");
    assert("eta_precise"@ != "elapsed_precise"@) by { assert("eta_precise"@.len() != "elapsed_precise"@.len()); }
    reveal_strlit("elapsed");
    assert("eta_precise"@ != "elapsed"@) by { assert("eta_precise"@.len() != "elapsed"@.len()); }
}

proof fn lemma_key_eta(style: ProgressStyle, st: ProgressState, width: Option<u16>, alt: Option<Seq<char>>, colors: bool)
    ensures
        style.key_text(st, "eta"@, width, alt, colors) == human_duration(st.eta@, true),
{
    reveal_strlit("eta");
    reveal_strlit("wide_bar");
    assert("eta"@ != "wide_bar"@) by { assert("eta"@.len() != "wide_bar"@.len()); }
    reveal_strlit("bar");
    assert("eta"@ != "bar"@) by { assert("eta"@[0] != "bar"@[0]); }
    reveal_strlit("spinner");
    assert("eta"@ != "spinner"@) by { assert("eta"@.len() != "spinner"@.len()); }
    reveal_strlit("wide_msg");
    assert("eta"@ != "wide_msg"@) by { assert("eta"@.len() != "wide_msg"@.len()); }
    reveal_strlit("msg");
    assert("eta"@ != "msg"@) by { assert("eta"@[0] != "msg"@[0]); }
    reveal_strlit("prefix");
    assert("eta"@ != "prefix"@) by { assert("eta"@.len() != "prefix"@.len()); }
    reveal_strlit("pos");
    assert("eta"@ != "pos"@) by { assert("eta"@[0] != "pos"@[0]); }
    reveal_strlit("human_pos");
    assert("eta"@ != "human_pos"@) by { assert("eta"@.len() != "human_pos"@.len()); }
    reveal_strlit("len");
    assert("eta"@ != "len"@) by { assert("eta"@[0] != "len"@[0]); }
    reveal_strlit("human_len");
    assert("eta"@ != "human_len"@) by { assert("eta"@.len() != "human_len"@.len()); }
    reveal_strlit("percent");
    assert("eta"@ != "percent"@) by { assert("eta"@.len() != "percent"@.len()); }
    reveal_strlit("elapsed_precise");
    assert("eta"@ != "elapsed_precise"@) by { assert("eta"@.len() != "elapsed_precise"@.len()); }
    reveal_strlit("elapsed");
    assert("eta"@ != "elapsed"@) by { assert("eta"@.len() != "elapsed"@.len()); }
    reveal_strlit("eta_precise");
    assert("eta"@ != "eta_precise"@) by { assert("eta"@.len() != "eta_precise"@.len()); }
}

proof fn lemma_key_duration_precise(style: ProgressStyle, st: ProgressState, width: Option<u16>, alt: Option<Seq<char>>, colors: bool)
    ensures
        style.key_text(st, "duration_precise"@, width, alt, colors) == formatted_secs(st.duration@ / 1_000_000_000),
{
    reveal_strlit("duration_precise");
    reveal_strlit("wide_bar");
    assert("duration_precise"@ != "wide_bar"@) by { assert("duration_precise"@.len() != "wide_bar"@.len()); }
    reveal_strlit("bar");
    assert("duration_precise"@ != "bar"@) by { assert("duration_precise"@.len() != "bar"@.len()); }
    reveal_strlit("spinner");
    assert("duration_precise"@ != "spinner"@) by { assert("duration_precise"@.len() != "spinner"@.len()); }
    reveal_strlit("wide_msg");
    assert("duration_precise"@ != "wide_msg"@) by { assert("duration_precise"@.len() != "wide_msg"@.len()); }
    reveal_strlit("msg");
    assert("duration_precise"@ != "msg"@) by { assert("duration_precise"@.len() != "msg"@.len()); }
    reveal_strlit("prefix");
    assert("duration_precise"@ != "prefix"@) by { assert("duration_precise"@.len() != "prefix"@.len()); }
    reveal_strlit("pos");
    assert("duration_precise"@ != "pos"@) by { assert("duration_precise"@.len() != "pos"@.len()); }
    reveal_strlit("human_pos");
    assert("duration_precise"@ != "human_pos"@) by { assert("duration_precise"@.len() != "human_pos"@.len()); }
    reveal_strlit("len");
    assert("duration_precise"@ != "len"@) by { assert("duration_precise"@.len() != "len"@.len()); }
    reveal_strlit("human_len");
    assert("duration_precise"@ != "human_len"@) by { assert("duration_precise"@.len() != "human_len"@.len()); }
    reveal_strlit("percent");
    assert("duration_precise"@ != "percent"@) by { assert("duration_precise"@.len() != "percent"@.len()); }
    reveal_strlit("elapsed_precise");
    assert("duration_precise"@ != "elapsed_precise"@) by { assert("duration_precise"@.len() != "elapsed_precise"@.len()); }
    reveal_strlit("elapsed");
    assert("duration_precise"@ != "elapsed"@) by { assert("duration_precise"@.len() != "elapsed"@.len()); }
    reveal_strlit("eta_precise");
    assert("duration_precise"@ != "eta_precise"@) by { assert("duration_precise"@.len() != "eta_precise"@.len()); }
    reveal_strlit("eta");
    assert("duration_precise"@ != "eta"@) by { assert("duration_precise"@.len() != "eta"@.len()); }
}

proof fn lemma_key_duration(style: ProgressStyle, st: ProgressState, width: Option<u16>, alt: Option<Seq<char>>, colors: bool)
    ensures
        style.key_text(st, "duration"@, width, alt, colors) == human_duration(st.duration@, true),
{
    reveal_strlit("duration");
    reveal_strlit("wide_bar");
    assert("duration"@ != "wide_bar"@) by { assert("duration"@[0] != "wide_bar"@[0]); }
    reveal_strlit("bar");
    assert("duration"@ != "bar"@) by { assert("duration"@.len() != "bar"@.len()); }
    reveal_strlit("spinner");
    assert("duration"@ != "spinner"@) by { assert("duration"@.len() != "spinner"@.len()); }
    reveal_strlit("wide_msg");
    assert("duration"@ != "wide_msg"@) by { assert("duration"@[0] != "wide_msg"@[0]); }
    reveal_strlit("msg");
    assert("duration"@ != "msg"@) by { assert("duration"@.len() != "msg"@.len()); }
    reveal_strlit("prefix");
    assert("duration"@ != "prefix"@) by { assert("duration"@.len() != "prefix"@.len()); }
    reveal_strlit("pos");
    assert("duration"@ != "pos"@) by { assert("duration"@.len() != "pos"@.len()); }
    reveal_strlit("human_pos");
    assert("duration"@ != "human_pos"@) by { assert("duration"@.len() != "human_pos"@.len()); }
    reveal_strlit("len");
    assert("duration"@ != "len"@) by { assert("duration"@.len() != "len"@.len()); }
    reveal_strlit("human_len");
    assert("duration"@ != "human_len"@) by { assert("duration"@.len() != "human_len"@.len()); }
    reveal_strlit("percent");
    assert("duration"@ != "percent"@) by { assert("duration"@.len() != "percent"@.len()); }
    reveal_strlit("elapsed_precise");
    assert("duration"@ != "elapsed_precise"@) by { assert("duration"@.len() != "elapsed_precise"@.len()); }
    reveal_strlit("elapsed");
    assert("duration"@ != "elapsed"@) by { assert("duration"@.len() != "elapsed"@.len()); }
    reveal_strlit("eta_precise");
    assert("duration"@ != "eta_precise"@) by { assert("duration"@.len() != "eta_precise"@.len()); }
    reveal_strlit("eta");
    assert("duration"@ != "eta"@) by { assert("duration"@.len() != "eta"@.len()); }
    reveal_strlit("duration_precise");
    assert("duration"@ != "duration_precise"@) by { assert("duration"@.len() != "duration_precise"@.len()); }
}

/// The time keys read their own span and nothing else of the state: the
/// elapsed time for `elapsed` and `elapsed_precise`, the estimate of what is
/// left for `eta` and `eta_precise`, and of the whole for `duration` and
/// `duration_precise`; the `_precise` keys show it as a clock.
pub proof fn law_time_keys_read_their_span(
    style: ProgressStyle,
    a: ProgressState,
    b: ProgressState,
    width: Option<u16>,
    alt: Option<Seq<char>>,
    colors: bool,
)
    ensures
        a.eta == b.eta ==> style.key_text(a, "eta_precise"@, width, alt, colors) == style.key_text(
            b,
            "eta_precise"@,
            width,
            alt,
            colors,
        ) && style.key_text(a, "eta"@, width, alt, colors) == style.key_text(b, "eta"@, width, alt, colors),
        a.elapsed == b.elapsed ==> style.key_text(a, "elapsed_precise"@, width, alt, colors) == style.key_text(
            b,
            "elapsed_precise"@,
            width,
            alt,
            colors,
        ) && style.key_text(a, "elapsed"@, width, alt, colors) == style.key_text(b, "elapsed"@, width, alt, colors),
        a.duration == b.duration ==> style.key_text(a, "duration_precise"@, width, alt, colors) == style.key_text(
            b,
            "duration_precise"@,
            width,
            alt,
            colors,
        ) && style.key_text(a, "duration"@, width, alt, colors) == style.key_text(b, "duration"@, width, alt, colors),
        style.key_text(a, "eta_precise"@, width, alt, colors) == formatted_secs(a.eta@ / 1_000_000_000),
        style.key_text(a, "elapsed_precise"@, width, alt, colors) == formatted_secs(a.elapsed@ / 1_000_000_000),
        style.key_text(a, "duration_precise"@, width, alt, colors) == formatted_secs(a.duration@ / 1_000_000_000),
{
    lemma_key_elapsed_precise(style, a, width, alt, colors);
    lemma_key_elapsed_precise(style, b, width, alt, colors);
    lemma_key_elapsed(style, a, width, alt, colors);
    lemma_key_elapsed(style, b, width, alt, colors);
    lemma_key_eta_precise(style, a, width, alt, colors);
    lemma_key_eta_precise(style, b, width, alt, colors);
    lemma_key_eta(style, a, width, alt, colors);
    lemma_key_eta(style, b, width, alt, colors);
    lemma_key_duration_precise(style, a, width, alt, colors);
    lemma_key_duration_precise(style, b, width, alt, colors);
    lemma_key_duration(style, a, width, alt, colors);
    lemma_key_duration(style, b, width, alt, colors);
}

/// Every comma is followed by exactly three digits and then a comma or the
/// end: the property of a grouped text.
pub open spec fn groups_of_three(r: Seq<char>) -> bool {
    forall|j: int|
        #[trigger] comma_at(r, j) ==> {
            &&& j + 4 <= r.len()
            &&& r[j + 1] != ','
            &&& r[j + 2] != ','
            &&& r[j + 3] != ','
            &&& (j + 4 == r.len() || r[j + 4] == ',')
        }
}

/// Whether `r` holds a comma at `j`.
pub open spec fn comma_at(r: Seq<char>, j: int) -> bool {
    0 <= j < r.len() && r[j] == ','
}

proof fn lemma_commas_shape(d: Seq<char>, idx: int)
    requires
        0 <= idx <= d.len(),
        forall|i: int| 0 <= i < d.len() ==> #[trigger] d[i] != ',',
    ensures
        ({
            let c = commas_from(d, idx);
            let m = d.len() - idx;
            let k = (m - 1) % 3 + 1;
            &&& c.len() == m + (if m > 0 { (m - 1) / 3 } else { 0 })
            &&& m > 0 ==> forall|j: int| 0 <= j < k && j < c.len() ==> #[trigger] c[j] != ','
            &&& m > 3 ==> c[k] == ','
        }),
    decreases d.len() - idx,
{
    let c = commas_from(d, idx);
    let m = d.len() - idx;
    if m > 0 {
        lemma_commas_shape(d, idx + 1);
        let c1 = commas_from(d, idx + 1);
        let pos = m - 1;
        if pos > 0 && pos % 3 == 0 {
            assert(c == seq![d[idx]] + seq![','] + c1);
            assert(c[0] == d[idx]);
        } else {
            assert(c == seq![d[idx]] + c1);
            let k = (m - 1) % 3 + 1;
            assert forall|j: int| 0 <= j < k && j < c.len() implies #[trigger] c[j] != ',' by {
                if j > 0 {
                    assert(c[j] == c1[j - 1]);
                } else {
                    assert(c[0] == d[idx]);
                }
            }
            if m > 3 {
                assert(c[k] == c1[k - 1]);
            }
        }
    }
}

proof fn lemma_groups_cons(x: char, sep: bool, c1: Seq<char>)
    requires
        x != ',',
        groups_of_three(c1),
        sep ==> c1.len() >= 3 && c1[0] != ',' && c1[1] != ',' && c1[2] != ',' && (c1.len() == 3 || c1[3] == ','),
    ensures
        groups_of_three(seq![x] + (if sep { seq![','] } else { Seq::<char>::empty() }) + c1),
{
    let c = seq![x] + (if sep { seq![','] } else { Seq::<char>::empty() }) + c1;
    let o: int = if sep { 2 } else { 1 };
    assert(c.len() == c1.len() + o);
    assert forall|j: int| o <= j < c.len() implies #[trigger] c[j] == c1[j - o] by {}
    assert(c[0] == x);
    assert forall|j: int| #[trigger] comma_at(c, j) implies {
        &&& j + 4 <= c.len()
        &&& c[j + 1] != ','
        &&& c[j + 2] != ','
        &&& c[j + 3] != ','
        &&& (j + 4 == c.len() || c[j + 4] == ',')
    } by {
        if j >= o {
            assert(comma_at(c1, j - o));
            assert(c[j + 1] == c1[j + 1 - o]);
            assert(c[j + 2] == c1[j + 2 - o]);
            assert(c[j + 3] == c1[j + 3 - o]);
            if j + 4 < c.len() {
                assert(c[j + 4] == c1[j + 4 - o]);
            }
        } else {
            assert(c[2] == c1[0]);
            assert(c[3] == c1[1]);
            assert(c[4] == c1[2]);
            if 5 < c.len() {
                assert(c[5] == c1[3]);
            }
        }
    }
}

proof fn lemma_commas_groups(d: Seq<char>, idx: int)
    requires
        0 <= idx <= d.len(),
        forall|i: int| 0 <= i < d.len() ==> #[trigger] d[i] != ',',
    ensures
        groups_of_three(commas_from(d, idx)),
    decreases d.len() - idx,
{
    let c = commas_from(d, idx);
    let m = d.len() - idx;
    if m > 0 {
        lemma_commas_groups(d, idx + 1);
        lemma_commas_shape(d, idx + 1);
        let c1 = commas_from(d, idx + 1);
        let pos = m - 1;
        let sep = pos > 0 && pos % 3 == 0;
        if sep {
            assert((pos - 1) % 3 + 1 == 3);
            assert(c1.len() >= 3);
            assert(c1[0] != ',' && c1[1] != ',' && c1[2] != ',');
            if pos > 3 {
                assert(c1[3] == ',');
            } else {
                assert(c1.len() == 3);
            }
        }
        assert(c == seq![d[idx]] + (if sep { seq![','] } else { Seq::<char>::empty() }) + c1);
        lemma_groups_cons(d[idx], sep, c1);
    } else {
        assert(c.len() == 0);
    }
}

/// Counts are grouped by thousands from the right: every comma is followed
/// by exactly three digits and then a comma or the end, and the group in
/// front has one to three digits.
pub proof fn law_human_count_groups(n: nat)
    ensures
        groups_of_three(human_count(n)),
        human_count(n).len() > 0,
        human_count(n)[0] != ',',
        human_count(n).len() <= 3 || human_count(n)[1] == ',' || human_count(n)[2] == ',' || human_count(n)[3]
            == ',',
{
    lemma_decimal_digits(n);
    lemma_decimal_len_pos(n);
    let d = decimal(n);
    lemma_commas_groups(d, 0);
    lemma_commas_shape(d, 0);
    let m = d.len() as int;
    let k = (m - 1) % 3 + 1;
    let c = human_count(n);
    assert(c[0] != ',');
    if m > 3 {
        assert(c[k] == ',');
    }
}

proof fn lemma_decimal_len_pos(n: nat)
    ensures
        decimal(n).len() >= 1,
    decreases n,
{
    if n >= 10 {
        lemma_decimal_len_pos(n / 10);
    }
}

/// Removing the commas of a count grouped by thousands gives back its
/// digits.
pub proof fn law_human_count_digits(n: nat)
    ensures
        human_count(n).filter(|c: char| c != ',') == decimal(n),
{
    lemma_decimal_digits(n);
    lemma_commas_filter(decimal(n), 0);
    assert(decimal(n).skip(0) =~= decimal(n));
}

proof fn lemma_decimal_digits(n: nat)
    ensures
        forall|i: int| 0 <= i < decimal(n).len() ==> #[trigger] decimal(n)[i] != ',',
    decreases n,
{
    if n >= 10 {
        lemma_decimal_digits(n / 10);
        let d = decimal(n / 10);
        assert(decimal(n) == d.push(digit_char(n % 10)));
        assert forall|i: int| 0 <= i < decimal(n).len() implies #[trigger] decimal(n)[i] != ',' by {
            if i < d.len() {
                assert(decimal(n)[i] == d[i]);
            }
        }
    }
}

proof fn lemma_commas_filter(d: Seq<char>, idx: int)
    requires
        0 <= idx <= d.len(),
        forall|i: int| 0 <= i < d.len() ==> #[trigger] d[i] != ',',
    ensures
        commas_from(d, idx).filter(|c: char| c != ',') == d.skip(idx),
    decreases d.len() - idx,
{
    if idx == d.len() {
        assert(commas_from(d, idx) =~= Seq::<char>::empty());
        assert(Seq::<char>::empty().filter(|c: char| c != ',') =~= Seq::<char>::empty());
        assert(d.skip(idx) =~= Seq::<char>::empty());
    } else {
        lemma_commas_filter(d, idx + 1);
        let pos = d.len() - idx - 1;
        let sep: Seq<char> = if pos > 0 && pos % 3 == 0 { seq![','] } else { Seq::empty() };
        let rest = commas_from(d, idx + 1);
        assert(commas_from(d, idx) == seq![d[idx]] + sep + rest);
        Seq::filter_distributes_over_add(seq![d[idx]] + sep, rest, |c: char| c != ',');
        Seq::filter_distributes_over_add(seq![d[idx]], sep, |c: char| c != ',');
        assert(seq![d[idx]].filter(|c: char| c != ',') =~= seq![d[idx]]) by {
            reveal_with_fuel(Seq::filter, 2);
        }
        assert(sep.filter(|c: char| c != ',') =~= Seq::<char>::empty()) by {
            reveal_with_fuel(Seq::filter, 2);
        }
        let one: Seq<char> = seq![d[idx]];
        assert(one.len() == 1 && one[0] == d[idx]);
        assert forall|k: int| 0 <= k < d.len() - idx implies #[trigger] d.skip(idx)[k] == (one + d.skip(idx + 1))[k] by {
            if k > 0 {
                assert((one + d.skip(idx + 1))[k] == d.skip(idx + 1)[k - 1]);
            }
        }
        assert(d.skip(idx) =~= one + d.skip(idx + 1));
    }
}

} // verus!
