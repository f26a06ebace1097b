//! Expansion of placeholders in a string.
//!
//! `{key}` or `{key:options}` is replaced by a value chosen for the
//! placeholder, padded to its width and styled; `{{` and `}}` stand for single
//! braces.  The options are an optional alignment (`<`, `^`, `>`), optional
//! width digits, an optional `!` for truncation, an optional `.`-separated
//! style and an optional `/`-separated alternative style.  Whatever follows
//! the recognised options is ignored, and a body made of colons alone keeps
//! its closing brace as its key.
use vstd::prelude::*;

use crate::dotted::{opt_dotted, opt_render, opt_render_into, DottedStyle};
use crate::style::{pad, pad_exec};
use crate::template::{digits_value, is_digit_c, lemma_digits_value_grows, Alignment};
use crate::text::{chars_of, push_all, string_of};

verus! {

/// A placeholder found in a string, with its options.
#[derive(Clone, Debug)]
pub struct TemplateVar {
    pub key: String,
    pub align: Alignment,
    pub truncate: bool,
    pub width: Option<usize>,
    pub style: Option<DottedStyle>,
    pub alt_style: Option<DottedStyle>,
    pub last_element: bool,
}

/// The view of a placeholder; its width is the number that its digits spell.
pub struct VarSpec {
    pub key: Seq<char>,
    pub align: Alignment,
    pub truncate: bool,
    pub width: Option<nat>,
    pub style: Option<Seq<char>>,
    pub alt_style: Option<Seq<char>>,
    pub last_element: bool,
}

pub open spec fn opt_nat(o: Option<usize>) -> Option<nat> {
    match o {
        Some(w) => Some(w as nat),
        None => None,
    }
}

impl View for TemplateVar {
    type V = VarSpec;

    open spec fn view(&self) -> VarSpec {
        VarSpec {
            key: self.key@,
            align: self.align,
            truncate: self.truncate,
            width: opt_nat(self.width),
            style: opt_dotted(self.style),
            alt_style: opt_dotted(self.alt_style),
            last_element: self.last_element,
        }
    }
}

pub open spec fn var_views(v: Seq<TemplateVar>) -> Seq<VarSpec> {
    v.map_values(|x: TemplateVar| x@)
}

pub open spec fn is_brace(c: char) -> bool {
    c == '{' || c == '}'
}

pub open spec fn is_word(c: char) -> bool {
    ('a' <= c && c <= 'z') || c == '_'
}

/// The end of the run of characters other than braces that starts at `j`.
pub open spec fn run_end(s: Seq<char>, j: int) -> int
    decreases s.len() - j,
{
    if 0 <= j < s.len() && !is_brace(s[j]) {
        run_end(s, j + 1)
    } else {
        j
    }
}

/// What the scanner finds at a position: a character to write, or a
/// placeholder whose body lies between two indices.
pub enum Token {
    Char(char),
    Var(int, int),
}

/// The token at `i` and the position after it.  A closing brace is written
/// as it is unless a second one follows; an opening brace starts a
/// placeholder only where a non-empty run without braces and a closing brace
/// follow it.
pub open spec fn token_at(s: Seq<char>, i: int) -> (Token, int) {
    if s[i] == '}' && i + 1 < s.len() && s[i + 1] == '}' {
        (Token::Char('}'), i + 2)
    } else if s[i] == '{' && i + 1 < s.len() && s[i + 1] == '{' {
        (Token::Char('{'), i + 2)
    } else if s[i] == '{' && run_end(s, i + 1) > i + 1 && run_end(s, i + 1) < s.len() && s[run_end(
        s,
        i + 1,
    )] == '}' {
        (Token::Var(i + 1, run_end(s, i + 1)), run_end(s, i + 1) + 1)
    } else {
        (Token::Char(s[i]), i + 1)
    }
}

pub open spec fn first_non_colon(b: Seq<char>, j: int) -> int
    decreases b.len() - j,
{
    if 0 <= j < b.len() && b[j] == ':' {
        first_non_colon(b, j + 1)
    } else {
        j
    }
}

pub open spec fn next_colon(b: Seq<char>, j: int) -> int
    decreases b.len() - j,
{
    if 0 <= j < b.len() && b[j] != ':' {
        next_colon(b, j + 1)
    } else {
        j
    }
}

pub open spec fn digits_end(b: Seq<char>, j: int) -> int
    decreases b.len() - j,
{
    if 0 <= j < b.len() && is_digit_c(b[j]) {
        digits_end(b, j + 1)
    } else {
        j
    }
}

/// The end of a run of words joined by single dots, from inside a word.
pub open spec fn words_end(b: Seq<char>, j: int) -> int
    decreases b.len() - j,
{
    if 0 <= j < b.len() && is_word(b[j]) {
        words_end(b, j + 1)
    } else if 0 <= j && j + 1 < b.len() && b[j] == '.' && is_word(b[j + 1]) {
        words_end(b, j + 1)
    } else {
        j
    }
}

pub open spec fn align_of(c: char) -> Option<Alignment> {
    if c == '<' {
        Some(Alignment::Left)
    } else if c == '^' {
        Some(Alignment::Center)
    } else if c == '>' {
        Some(Alignment::Right)
    } else {
        None
    }
}

pub open spec fn default_var(key: Seq<char>, last: bool) -> VarSpec {
    VarSpec {
        key,
        align: Alignment::Left,
        truncate: false,
        width: None,
        style: None,
        alt_style: None,
        last_element: last,
    }
}

/// The placeholder `v` with the options that start at `q0` in its body `b`.
pub open spec fn with_options(v: VarSpec, b: Seq<char>, q0: int) -> VarSpec {
    let a = if q0 < b.len() {
        align_of(b[q0])
    } else {
        None
    };
    let q1 = if a is Some {
        q0 + 1
    } else {
        q0
    };
    let q2 = digits_end(b, q1);
    let bang = q2 < b.len() && b[q2] == '!';
    let q3 = if bang {
        q2 + 1
    } else {
        q2
    };
    let has_style = q3 + 1 < b.len() && b[q3] == '.' && is_word(b[q3 + 1]);
    let q4 = if has_style {
        words_end(b, q3 + 1)
    } else {
        q3
    };
    let has_alt = q4 + 1 < b.len() && b[q4] == '/' && is_word(b[q4 + 1]);
    VarSpec {
        align: match a {
            Some(x) => x,
            None => Alignment::Left,
        },
        width: if q2 > q1 {
            Some(digits_value(b.subrange(q1, q2)))
        } else {
            None
        },
        truncate: bang,
        style: if has_style {
            Some(b.subrange(q3 + 1, q4))
        } else {
            None
        },
        alt_style: if has_alt {
            Some(b.subrange(q4 + 1, words_end(b, q4 + 1)))
        } else {
            None
        },
        ..v
    }
}

/// The placeholder whose body (between the braces) is `b`: the key is the
/// first run without colons, the options follow the colon after it.
pub open spec fn parse_var(b: Seq<char>, last: bool) -> VarSpec {
    let p0 = first_non_colon(b, 0);
    if p0 >= b.len() {
        default_var(b.push('}'), last)
    } else {
        let k = next_colon(b, p0);
        if k < b.len() {
            with_options(default_var(b.subrange(p0, k), last), b, k + 1)
        } else {
            default_var(b.subrange(p0, k), last)
        }
    }
}

pub open spec fn width_fits(v: VarSpec) -> bool {
    v.width matches Some(w) ==> w <= usize::MAX
}

/// The placeholders from position `i` on, in order.
pub open spec fn vars_from(s: Seq<char>, i: int) -> Seq<VarSpec>
    decreases s.len() - i,
{
    if 0 <= i < s.len() {
        let n = token_at(s, i).1;
        match token_at(s, i).0 {
            Token::Var(a, e) => seq![parse_var(s.subrange(a, e), n >= s.len())] + vars_from(s, n),
            Token::Char(_) => vars_from(s, n),
        }
    } else {
        Seq::empty()
    }
}

/// The placeholders of a string, in order.
pub open spec fn template_vars_of(s: Seq<char>) -> Seq<VarSpec> {
    vars_from(s, 0)
}

/// Every width in the string fits in `usize`.
pub open spec fn widths_fit(s: Seq<char>) -> bool {
    forall|j: int| 0 <= j < template_vars_of(s).len() ==> width_fits(#[trigger] template_vars_of(s)[j])
}

/// The text written for a placeholder whose value is `val`: padded to its
/// width, then styled.
pub open spec fn render_var(v: VarSpec, val: Seq<char>, colors: bool) -> Seq<char> {
    let padded = match v.width {
        Some(w) => pad(val, w, v.align, v.truncate),
        None => val,
    };
    opt_render(v.style, colors, padded)
}

/// The expansion from position `i` on, the placeholders taking the values
/// from `vals[j]` on.
pub open spec fn expand_from(s: Seq<char>, i: int, vals: Seq<Seq<char>>, j: int, colors: bool) -> Seq<char>
    decreases s.len() - i,
{
    if 0 <= i < s.len() {
        let n = token_at(s, i).1;
        match token_at(s, i).0 {
            Token::Var(a, e) => render_var(parse_var(s.subrange(a, e), n >= s.len()), vals[j], colors)
                + expand_from(s, n, vals, j + 1, colors),
            Token::Char(c) => seq![c] + expand_from(s, n, vals, j, colors),
        }
    } else {
        Seq::empty()
    }
}

/// The string with each placeholder replaced by its value, in order.
pub open spec fn expand(s: Seq<char>, vals: Seq<Seq<char>>, colors: bool) -> Seq<char> {
    expand_from(s, 0, vals, 0, colors)
}

/// What the scanner found: a character to write, or a placeholder's body.
enum Found {
    Char(char),
    Var(usize, usize),
}

fn token_exec(v: &Vec<char>, i: usize) -> (r: (Found, usize))
    requires
        i < v.len(),
    ensures
        i < r.1 <= v.len(),
        token_at(v@, i as int).1 == r.1,
        match r.0 {
            Found::Char(c) => token_at(v@, i as int).0 == Token::Char(c),
            Found::Var(a, e) => token_at(v@, i as int).0 == Token::Var(a as int, e as int) && a < e,
        },
{
    let n = v.len();
    if v[i] == '}' && i + 1 < n && v[i + 1] == '}' {
        return (Found::Char('}'), i + 2);
    }
    if v[i] == '{' && i + 1 < n && v[i + 1] == '{' {
        return (Found::Char('{'), i + 2);
    }
    if v[i] == '{' {
        let mut k = i + 1;
        while k < n && v[k] != '{' && v[k] != '}'
            invariant
                i + 1 <= k <= n,
                n == v.len(),
                run_end(v@, k as int) == run_end(v@, i + 1),
            decreases n - k,
        {
            k = k + 1;
        }
        if k > i + 1 && k < n && v[k] == '}' {
            return (Found::Var(i + 1, k), k + 1);
        }
    }
    (Found::Char(v[i]), i + 1)
}

/// A copy of `v[a..e]`.
fn copy_range(v: &Vec<char>, a: usize, e: usize) -> (r: Vec<char>)
    requires
        a <= e <= v.len(),
    ensures
        r@ == v@.subrange(a as int, e as int),
{
    let mut r: Vec<char> = Vec::new();
    let mut k = a;
    while k < e
        invariant
            a <= k <= e <= v.len(),
            r@ == v@.subrange(a as int, k as int),
        decreases e - k,
    {
        r.push(v[k]);
        k = k + 1;
        assert(r@ =~= v@.subrange(a as int, k as int));
    }
    r
}

fn is_word_exec(c: char) -> (b: bool)
    ensures
        b == is_word(c),
{
    ('a' <= c && c <= 'z') || c == '_'
}

/// Parses decimal digits into a `usize`, or `None` where the number does
/// not fit.
fn parse_usize(buf: &Vec<char>) -> (r: Option<usize>)
    requires
        forall|k: int| 0 <= k < buf@.len() ==> is_digit_c(#[trigger] buf@[k]),
    ensures
        r matches Some(v) ==> digits_value(buf@) == v,
        r is None <==> digits_value(buf@) > usize::MAX,
{
    let mut v: u128 = 0;
    let mut i: usize = 0;
    while i < buf.len()
        invariant
            i <= buf.len(),
            forall|k: int| 0 <= k < buf@.len() ==> is_digit_c(#[trigger] buf@[k]),
            v == digits_value(buf@.take(i as int)),
            v <= usize::MAX,
        decreases buf.len() - i,
    {
        let d = (buf[i] as u32) - ('0' as u32);
        assert(buf@.take(i + 1).drop_last() =~= buf@.take(i as int));
        let nv = v * 10 + d as u128;
        if nv > usize::MAX as u128 {
            proof {
                lemma_digits_value_grows(buf@, (i + 1) as nat);
            }
            return None;
        }
        v = nv;
        i = i + 1;
    }
    assert(buf@.take(buf.len() as int) =~= buf@);
    Some(v as usize)
}

/// The end of a run of dotted words that starts with a word character at `j`.
fn words_end_exec(b: &Vec<char>, j: usize) -> (e: usize)
    requires
        j <= b.len(),
    ensures
        j <= e <= b.len(),
        e == words_end(b@, j as int),
{
    let n = b.len();
    let mut k = j;
    while k < n && (is_word_exec(b[k]) || (b[k] == '.' && k + 1 < n && is_word_exec(b[k + 1])))
        invariant
            j <= k <= n,
            n == b.len(),
            words_end(b@, k as int) == words_end(b@, j as int),
        decreases n - k,
    {
        k = k + 1;
    }
    k
}

fn new_var(key: Vec<char>, last: bool) -> (r: TemplateVar)
    ensures
        r@ == default_var(key@, last),
{
    TemplateVar {
        key: string_of(&key),
        align: Alignment::Left,
        truncate: false,
        width: None,
        style: None,
        alt_style: None,
        last_element: last,
    }
}

/// Reads the options that start at `q0` into `var`; `None` where the width
/// does not fit in `usize`.
fn read_options(var: TemplateVar, b: &Vec<char>, q0: usize) -> (r: Option<TemplateVar>)
    requires
        q0 <= b.len(),
    ensures
        r is Some <==> width_fits(with_options(var@, b@, q0 as int)),
        r matches Some(x) ==> x@ == with_options(var@, b@, q0 as int),
{
    let n = b.len();
    let mut align = Alignment::Left;
    let mut q1 = q0;
    if q0 < n {
        if b[q0] == '<' {
            q1 = q0 + 1;
        } else if b[q0] == '^' {
            align = Alignment::Center;
            q1 = q0 + 1;
        } else if b[q0] == '>' {
            align = Alignment::Right;
            q1 = q0 + 1;
        }
    }
    let mut q2 = q1;
    while q2 < n && '0' <= b[q2] && b[q2] <= '9'
        invariant
            q1 <= q2 <= n,
            n == b.len(),
            digits_end(b@, q2 as int) == digits_end(b@, q1 as int),
            forall|k: int| q1 <= k < q2 ==> is_digit_c(#[trigger] b@[k]),
        decreases n - q2,
    {
        q2 = q2 + 1;
    }
    let width: Option<usize> = if q2 > q1 {
        let digits = copy_range(b, q1, q2);
        match parse_usize(&digits) {
            Some(w) => Some(w),
            None => {
                return None;
            },
        }
    } else {
        None
    };
    let bang = q2 < n && b[q2] == '!';
    let q3 = if bang {
        q2 + 1
    } else {
        q2
    };
    let has_style = q3 < n && q3 + 1 < n && b[q3] == '.' && is_word_exec(b[q3 + 1]);
    let mut q4 = q3;
    let mut style: Option<DottedStyle> = None;
    if has_style {
        let e = words_end_exec(b, q3 + 1);
        let w = copy_range(b, q3 + 1, e);
        style = Some(DottedStyle::from_dotted_str(string_of(&w).as_str()));
        q4 = e;
    }
    let has_alt = q4 < n && q4 + 1 < n && b[q4] == '/' && is_word_exec(b[q4 + 1]);
    let mut alt_style: Option<DottedStyle> = None;
    if has_alt {
        let e = words_end_exec(b, q4 + 1);
        let w = copy_range(b, q4 + 1, e);
        alt_style = Some(DottedStyle::from_dotted_str(string_of(&w).as_str()));
    }
    Some(TemplateVar { align, width, truncate: bang, style, alt_style, ..var })
}

/// The placeholder whose body is `b`; `None` where its width does not fit in
/// `usize`.
fn parse_var_exec(b: &Vec<char>, last: bool) -> (r: Option<TemplateVar>)
    ensures
        r is Some <==> width_fits(parse_var(b@, last)),
        r matches Some(x) ==> x@ == parse_var(b@, last),
{
    let n = b.len();
    let mut p0: usize = 0;
    while p0 < n && b[p0] == ':'
        invariant
            p0 <= n,
            n == b.len(),
            first_non_colon(b@, p0 as int) == first_non_colon(b@, 0),
        decreases n - p0,
    {
        p0 = p0 + 1;
    }
    if p0 >= n {
        let mut key = copy_range(b, 0, n);
        key.push('}');
        assert(b@.subrange(0, n as int) =~= b@);
        return Some(new_var(key, last));
    }
    let mut k = p0;
    while k < n && b[k] != ':'
        invariant
            p0 <= k <= n,
            n == b.len(),
            next_colon(b@, k as int) == next_colon(b@, p0 as int),
        decreases n - k,
    {
        k = k + 1;
    }
    let var = new_var(copy_range(b, p0, k), last);
    if k < n {
        read_options(var, b, k + 1)
    } else {
        Some(var)
    }
}

impl TemplateVar {
    /// The same placeholder under another key.
    pub fn duplicate_for_key(&self, key: &str) -> (r: TemplateVar)
        ensures
            r@ == (VarSpec { key: key@, ..self@ }),
    {
        TemplateVar {
            key: string_of(&chars_of(key)),
            align: self.align,
            truncate: self.truncate,
            width: self.width,
            style: dup_style(&self.style),
            alt_style: dup_style(&self.alt_style),
            last_element: self.last_element,
        }
    }
}

fn dup_style(s: &Option<DottedStyle>) -> (r: Option<DottedStyle>)
    ensures
        opt_dotted(r) == opt_dotted(*s),
{
    match s {
        Some(d) => Some(d.duplicate()),
        None => None,
    }
}

/// The placeholders of `s` in order, or `None` where the width of one of
/// them does not fit in `usize`.
pub fn template_vars(s: &str) -> (r: Option<Vec<TemplateVar>>)
    ensures
        r is Some <==> widths_fit(s@),
        r matches Some(v) ==> var_views(v@) == template_vars_of(s@),
{
    let v = chars_of(s);
    let n = v.len();
    let mut out: Vec<TemplateVar> = Vec::new();
    let mut i: usize = 0;
    while i < n
        invariant
            i <= n,
            n == v.len(),
            v@ == s@,
            var_views(out@) + vars_from(v@, i as int) == template_vars_of(v@),
            forall|j: int| 0 <= j < out@.len() ==> width_fits(#[trigger] var_views(out@)[j]),
        decreases n - i,
    {
        let (tok, next) = token_exec(&v, i);
        match tok {
            Found::Char(_) => {},
            Found::Var(a, e) => {
                let body = copy_range(&v, a, e);
                let ghost prev = out@;
                let ghost rest = vars_from(v@, next as int);
                assert(vars_from(v@, i as int) == seq![parse_var(body@, next >= n)] + rest);
                match parse_var_exec(&body, next >= n) {
                    Some(x) => {
                        out.push(x);
                        assert(var_views(out@) =~= var_views(prev).push(x@));
                        assert(var_views(prev).push(x@) + rest =~= var_views(prev) + (seq![x@] + rest));
                    },
                    None => {
                        assert(template_vars_of(v@)[prev.len() as int] == parse_var(body@, next >= n));
                        return None;
                    },
                }
            },
        }
        i = next;
    }
    assert(var_views(out@) =~= template_vars_of(s@));
    Some(out)
}

pub open spec fn value_views(v: Seq<String>) -> Seq<Seq<char>> {
    v.map_values(|x: String| x@)
}

/// Replaces each placeholder of `s` by the value at its position in
/// `values`, padded to its width and styled (with styling on where `colors`
/// is true); `{{` and `}}` become single braces.
pub fn expand_template(s: &str, values: &Vec<String>, colors: bool) -> (r: String)
    requires
        widths_fit(s@),
        values.len() == template_vars_of(s@).len(),
    ensures
        r@ == expand(s@, value_views(values@), colors),
{
    let v = chars_of(s);
    let n = v.len();
    let ghost vals = value_views(values@);
    let ghost all = template_vars_of(v@);
    let mut out: Vec<char> = Vec::new();
    let mut i: usize = 0;
    let mut j: usize = 0;
    while i < n
        invariant
            i <= n,
            n == v.len(),
            v@ == s@,
            all == template_vars_of(v@),
            vals == value_views(values@),
            values.len() == all.len(),
            widths_fit(v@),
            j <= all.len(),
            vars_from(v@, i as int) == all.skip(j as int),
            out@ + expand_from(v@, i as int, vals, j as int, colors) == expand(v@, vals, colors),
        decreases n - i,
    {
        let (tok, next) = token_exec(&v, i);
        let ghost prev = out@;
        let ghost rest = expand_from(v@, next as int, vals, j as int, colors);
        match tok {
            Found::Char(c) => {
                out.push(c);
                assert(prev.push(c) + rest =~= prev + (seq![c] + rest));
            },
            Found::Var(a, e) => {
                let body = copy_range(&v, a, e);
                let ghost var = parse_var(body@, next >= n);
                assert(vars_from(v@, i as int) == seq![var] + vars_from(v@, next as int));
                assert(all.skip(j as int)[0] == all[j as int]);
                assert(width_fits(all[j as int]));
                assert(all.skip(j as int).drop_first() =~= all.skip(j + 1));
                let ghost rest1 = expand_from(v@, next as int, vals, j + 1, colors);
                match parse_var_exec(&body, next >= n) {
                    Some(x) => {
                        let val = chars_of(values[j].as_str());
                        let padded = match x.width {
                            Some(w) => pad_exec(&val, w, x.align, x.truncate),
                            None => val,
                        };
                        opt_render_into(&x.style, &mut out, &padded, colors);
                        assert(out@ == prev + render_var(var, vals[j as int], colors));
                        assert(out@ + rest1 =~= prev + (render_var(var, vals[j as int], colors) + rest1));
                    },
                    None => {
                        assert(false);
                    },
                }
                j = j + 1;
            },
        }
        i = next;
    }
    assert(out@ =~= expand(v@, vals, colors));
    string_of(&out)
}

proof fn lemma_brace_free_from(s: Seq<char>, i: int, vals: Seq<Seq<char>>, j: int, colors: bool)
    requires
        0 <= i <= s.len(),
        forall|k: int| 0 <= k < s.len() ==> !is_brace(#[trigger] s[k]),
    ensures
        expand_from(s, i, vals, j, colors) == s.skip(i),
        vars_from(s, i).len() == 0,
    decreases s.len() - i,
{
    if i < s.len() {
        lemma_brace_free_from(s, i + 1, vals, j, colors);
        assert(s.skip(i) =~= seq![s[i]] + s.skip(i + 1));
    } else {
        assert(s.skip(i) =~= Seq::<char>::empty());
    }
}

/// A string without braces has no placeholders and expands to itself.
pub proof fn law_brace_free_text_unchanged(s: Seq<char>, vals: Seq<Seq<char>>, colors: bool)
    requires
        forall|k: int| 0 <= k < s.len() ==> !is_brace(#[trigger] s[k]),
    ensures
        expand(s, vals, colors) == s,
        template_vars_of(s).len() == 0,
{
    lemma_brace_free_from(s, 0, vals, 0, colors);
    assert(s.skip(0) =~= s);
}

} // verus!
