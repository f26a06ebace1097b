//! What a draw target does with the lines it is given: how many terminal rows
//! they take, which terminal operations redraw them, and how often drawing is
//! allowed.
use vstd::prelude::*;

use crate::multi::MultiProgressAlignment;

verus! {

/// Names the width that `console::measure_text_width` gives a string: the
/// columns it takes on the terminal, escape codes not counted.
pub uninterp spec fn console_text_width(s: Seq<char>) -> nat;

/// Calls `console::measure_text_width`; the contract names its result, a
/// function of the string alone (its own escape-code stripping followed by
/// the `unicode-width` tables), and states that the empty string takes no
/// column.
#[verifier::external_body]
pub(crate) fn measure_text_width(s: &str) -> (w: usize)
    ensures
        w == console_text_width(s@),
        s@.len() == 0 ==> w == 0,
{
    console::measure_text_width(s)
}

/// Columns that a line of text takes on the terminal.
pub open spec fn text_width(s: Seq<char>) -> nat {
    console_text_width(s)
}

/// The views of a sequence of strings.
pub open spec fn views(v: Seq<String>) -> Seq<Seq<char>> {
    v.map_values(|s: String| s@)
}

/// Rows that a line `w` columns wide takes on a terminal `width` columns wide:
/// at least one, more when it wraps.  On a zero-width terminal a non-empty
/// line takes `usize::MAX` rows.
pub open spec fn line_rows(w: nat, width: nat) -> nat {
    if width == 0 {
        if w == 0 {
            1
        } else {
            usize::MAX as nat
        }
    } else if w == 0 {
        1
    } else {
        ((w + width - 1) as nat) / width
    }
}

/// Rows that the given lines take together on a terminal `width` columns wide.
pub open spec fn rows_of(lines: Seq<Seq<char>>, width: nat) -> nat
    decreases lines.len(),
{
    if lines.len() == 0 {
        0
    } else {
        rows_of(lines.drop_last(), width) + line_rows(text_width(lines.last()), width)
    }
}

/// A count of terminal rows.
#[derive(Copy, Clone, Debug, Default, PartialEq, Eq, Structural)]
pub struct VisualLines(pub usize);

impl VisualLines {
    pub fn saturating_add(&self, other: Self) -> (r: Self)
        ensures
            r.0 == (if self.0 + other.0 > usize::MAX { usize::MAX as int } else { self.0 + other.0 }),
    {
        VisualLines(self.0.saturating_add(other.0))
    }

    pub fn saturating_sub(&self, other: Self) -> (r: Self)
        ensures
            r.0 == (if self.0 < other.0 { 0 } else { self.0 - other.0 }),
    {
        VisualLines(self.0.saturating_sub(other.0))
    }

    pub fn as_usize(&self) -> (n: usize)
        ensures
            n == self.0,
    {
        self.0
    }

    pub fn add(self, rhs: Self) -> (r: Self)
        requires
            self.0 + rhs.0 <= usize::MAX,
        ensures
            r.0 == self.0 + rhs.0,
    {
        VisualLines(self.0 + rhs.0)
    }

    pub fn sub(self, rhs: Self) -> (r: Self)
        requires
            self.0 >= rhs.0,
        ensures
            r.0 == self.0 - rhs.0,
    {
        VisualLines(self.0 - rhs.0)
    }

    pub fn from_usize(n: usize) -> (r: Self)
        ensures
            r.0 == n,
    {
        VisualLines(n)
    }
}

fn line_rows_exec(w: usize, width: usize) -> (r: usize)
    ensures
        r == line_rows(w as nat, width as nat),
        r >= 1,
{
    if width == 0 {
        if w == 0 {
            1
        } else {
            usize::MAX
        }
    } else if w == 0 {
        1
    } else {
        let q = w / width;
        if w % width != 0 {
            assert(q < usize::MAX) by (nonlinear_arith)
                requires
                    width > 0,
                    q == w / width,
                    w % width != 0,
            ;
        }
        let r = if w % width != 0 {
            q + 1
        } else {
            q
        };
        assert(r as int == ((w + width - 1) as nat) / (width as nat)) by (nonlinear_arith)
            requires
                width > 0,
                q as int == w as int / width as int,
                r as int == (if w % width != 0 { q + 1 } else { q as int }),
        ;
        assert(r >= 1) by (nonlinear_arith)
            requires
                width > 0,
                w > 0,
                r as int == ((w + width - 1) as nat) / (width as nat),
        ;
        r
    }
}

proof fn lemma_rows_of_push(lines: Seq<Seq<char>>, l: Seq<char>, width: nat)
    ensures
        rows_of(lines.push(l), width) == rows_of(lines, width) + line_rows(text_width(l), width),
{
    assert(lines.push(l).drop_last() =~= lines);
}

/// Rows that the lines `lo..hi` take on a terminal `width` columns wide.
pub fn rows_of_range(lines: &Vec<String>, lo: usize, hi: usize, width: usize) -> (r: VisualLines)
    requires
        lo <= hi <= lines.len(),
        rows_of(views(lines@).subrange(lo as int, hi as int), width as nat) <= usize::MAX,
    ensures
        r.0 == rows_of(views(lines@).subrange(lo as int, hi as int), width as nat),
{
    let mut total: usize = 0;
    let mut i: usize = lo;
    while i < hi
        invariant
            lo <= i <= hi <= lines.len(),
            rows_of(views(lines@).subrange(lo as int, hi as int), width as nat) <= usize::MAX,
            total == rows_of(views(lines@).subrange(lo as int, i as int), width as nat),
        decreases hi - i,
    {
        let w = measure_text_width(lines[i].as_str());
        let rows = line_rows_exec(w, width);
        proof {
            let v = views(lines@);
            assert(v.subrange(lo as int, i + 1) =~= v.subrange(lo as int, i as int).push(v[i as int]));
            lemma_rows_of_push(v.subrange(lo as int, i as int), v[i as int], width as nat);
            lemma_rows_of_prefix_le(v.subrange(lo as int, hi as int), (i + 1 - lo) as nat, width as nat);
            assert(v.subrange(lo as int, hi as int).take((i + 1 - lo) as int) =~= v.subrange(lo as int, i + 1));
        }
        total = total + rows;
        i = i + 1;
    }
    VisualLines(total)
}

/// Rows never decrease as lines are added.
pub proof fn lemma_rows_of_prefix_le(lines: Seq<Seq<char>>, k: nat, width: nat)
    requires
        k <= lines.len(),
    ensures
        rows_of(lines.take(k as int), width) <= rows_of(lines, width),
    decreases lines.len() - k,
{
    if k < lines.len() {
        lemma_rows_of_prefix_le(lines, k + 1, width);
        assert(lines.take(k + 1 as int).drop_last() =~= lines.take(k as int));
    } else {
        assert(lines.take(k as int) =~= lines);
    }
}

/// The rows of lines drawn one after the other are the rows of each part
/// added together.
pub proof fn law_rows_of_concat(a: Seq<Seq<char>>, b: Seq<Seq<char>>, width: nat)
    ensures
        rows_of(a + b, width) == rows_of(a, width) + rows_of(b, width),
    decreases b.len(),
{
    if b.len() == 0 {
        assert(a + b =~= a);
    } else {
        law_rows_of_concat(a, b.drop_last(), width);
        assert((a + b).drop_last() =~= a + b.drop_last());
    }
}

/// Every line takes at least one row, so lines never take fewer rows than
/// there are lines.
pub proof fn law_rows_at_least_lines(lines: Seq<Seq<char>>, width: nat)
    ensures
        rows_of(lines, width) >= lines.len(),
    decreases lines.len(),
{
    if lines.len() > 0 {
        law_rows_at_least_lines(lines.drop_last(), width);
        let w = text_width(lines.last());
        if width > 0 && w > 0 {
            assert(((w + width - 1) as nat) / width >= 1) by (nonlinear_arith)
                requires
                    width > 0,
                    w > 0,
            ;
        }
    }
}

/// The rows the given lines take, or `None` when they are too many to
/// count in a `usize`.
pub fn checked_visual_line_count(lines: &Vec<String>, width: usize) -> (r: Option<VisualLines>)
    ensures
        r matches Some(v) ==> v.0 == rows_of(views(lines@), width as nat),
        r is None ==> rows_of(views(lines@), width as nat) > usize::MAX,
{
    let ghost v = views(lines@);
    let mut total: usize = 0;
    let mut i: usize = 0;
    while i < lines.len()
        invariant
            i <= lines.len(),
            v == views(lines@),
            total == rows_of(v.take(i as int), width as nat),
        decreases lines.len() - i,
    {
        let w = measure_text_width(lines[i].as_str());
        let rows = line_rows_exec(w, width);
        proof {
            lemma_views(lines@);
            assert(v.take(i + 1) =~= v.take(i as int).push(v[i as int]));
            lemma_rows_of_push(v.take(i as int), v[i as int], width as nat);
        }
        match total.checked_add(rows) {
            Some(t) => total = t,
            None => {
                proof {
                    lemma_rows_of_prefix_le(v, (i + 1) as nat, width as nat);
                }
                return None;
            },
        }
        i = i + 1;
    }
    assert(v.take(lines.len() as int) =~= v);
    Some(VisualLines(total))
}

/// Calculates the number of terminal rows that the given lines take after
/// accounting for line wrapping and escape codes.
pub fn visual_line_count(lines: &Vec<String>, width: usize) -> (r: VisualLines)
    requires
        rows_of(views(lines@), width as nat) <= usize::MAX,
    ensures
        r.0 == rows_of(views(lines@), width as nat),
{
    assert(views(lines@).subrange(0, lines.len() as int) =~= views(lines@));
    rows_of_range(lines, 0, lines.len(), width)
}


// ---------------------------------------------------------------------------
// Keeping and clearing lines, the draw state, and rate limiting.
// ---------------------------------------------------------------------------

/// A change to the count of lines a target last drew.
#[derive(Copy, Clone, Debug)]
pub enum LineAdjust {
    /// Adds to the count, so that the next draw also clears those lines.
    Clear(VisualLines),
    /// Subtracts from the count, so that the next draw keeps those lines.
    Keep(VisualLines),
}

/// The count of lines last drawn after an adjustment; both directions
/// saturate.
pub open spec fn adjusted(last: nat, adjust: LineAdjust) -> nat {
    match adjust {
        LineAdjust::Clear(c) => if last + c.0 > usize::MAX {
            usize::MAX as nat
        } else {
            (last + c.0) as nat
        },
        LineAdjust::Keep(c) => if last < c.0 {
            0
        } else {
            (last - c.0) as nat
        },
    }
}

/// Applies an adjustment to the count of lines last drawn.
pub fn adjust_line_count(last: VisualLines, adjust: LineAdjust) -> (r: VisualLines)
    ensures
        r.0 == adjusted(last.0 as nat, adjust),
{
    match adjust {
        LineAdjust::Clear(count) => last.saturating_add(count),
        LineAdjust::Keep(count) => last.saturating_sub(count),
    }
}

/// The drawn state of an element: its lines (which may hold escape codes),
/// how many of them at the front are printed above it and are not redrawn,
/// whether to move the cursor up rather than clear lines, and the alignment.
#[derive(Clone, Debug)]
pub struct DrawState {
    pub lines: Vec<String>,
    pub orphan_lines_count: usize,
    pub move_cursor: bool,
    pub alignment: MultiProgressAlignment,
}

impl Default for DrawState {
    fn default() -> (s: DrawState)
        ensures
            s.lines@.len() == 0,
            s.orphan_lines_count == 0,
            !s.move_cursor,
            s.alignment == MultiProgressAlignment::Top,
    {
        DrawState {
            lines: Vec::new(),
            orphan_lines_count: 0,
            move_cursor: false,
            alignment: MultiProgressAlignment::Top,
        }
    }
}

impl DrawState {
    /// Forgets the lines.
    pub fn reset(&mut self)
        ensures
            final(self).lines@.len() == 0,
            final(self).orphan_lines_count == 0,
            final(self).move_cursor == old(self).move_cursor,
            final(self).alignment == old(self).alignment,
    {
        self.lines.clear();
        self.orphan_lines_count = 0;
    }

    /// Rows that the lines `lo..hi` take on a terminal `width` columns wide.
    pub fn visual_line_count(&self, lo: usize, hi: usize, width: usize) -> (r: VisualLines)
        requires
            lo <= hi <= self.lines.len(),
            rows_of(views(self.lines@).subrange(lo as int, hi as int), width as nat) <= usize::MAX,
        ensures
            r.0 == rows_of(views(self.lines@).subrange(lo as int, hi as int), width as nat),
    {
        rows_of_range(&self.lines, lo, hi, width)
    }
}

/// Most draws a rate limiter lets through in a burst.
pub const MAX_BURST: u8 = 20;

/// Limits how often a target draws, while allowing occasional bursts above
/// that rate.  Times are nanoseconds since a moment the caller chose.
#[derive(Copy, Clone, Debug)]
pub struct RateLimiter {
    interval: u16,
    capacity: u8,
    prev: u128,
}

/// A limiter's budget never exceeds a burst.
pub proof fn law_budget_bounded(r: RateLimiter)
    requires
        r.wf(),
    ensures
        r.budget() <= MAX_BURST,
{
}

impl RateLimiter {
    /// The limiter never holds more than a burst's worth of draws, and waits
    /// at least one millisecond between refills.
    pub closed spec fn wf(self) -> bool {
        &&& self.capacity <= MAX_BURST
        &&& self.interval >= 1
    }

    /// Milliseconds between two draws at the steady rate.
    pub closed spec fn interval_ms(self) -> nat {
        self.interval as nat
    }

    /// Draws allowed right away.
    pub closed spec fn budget(self) -> nat {
        self.capacity as nat
    }

    /// When the last draw was allowed, less the part of a period not yet
    /// turned into budget.
    pub closed spec fn last(self) -> nat {
        self.prev as nat
    }

    /// A limiter for `rate` draws per second, with a full budget, started at
    /// `now`.
    pub fn new(rate: u8, now: u128) -> (r: RateLimiter)
        requires
            rate > 0,
        ensures
            r.wf(),
            r.interval_ms() == 1000nat / (rate as nat),
            r.budget() == MAX_BURST,
            r.last() == now,
    {
        let interval = 1000 / (rate as u16);
        assert(interval >= 3) by (nonlinear_arith)
            requires
                interval == 1000u16 / (rate as u16),
                0 < rate <= 255,
        ;
        RateLimiter { interval, capacity: MAX_BURST, prev: now }
    }

    /// Whether a draw at `now` is allowed.  A time before the last draw is
    /// refused.  With no budget left a draw is refused until a period has
    /// passed.  Otherwise the draw is allowed: every whole period since the
    /// last draw adds one to the budget, the draw takes one, the budget is
    /// capped at a burst, and the time of the last draw moves to `now` less
    /// the part of a period that did not count.
    pub fn allow(&mut self, now: u128) -> (ok: bool)
        requires
            old(self).wf(),
        ensures
            final(self).wf(),
            allow_step(*old(self), now, ok, *final(self)),
    {
        if now < self.prev {
            return false;
        }
        let elapsed = now - self.prev;
        let period: u128 = (self.interval as u128) * 1_000_000;
        if self.capacity == 0 && elapsed < period {
            return false;
        }
        let new = elapsed / period;
        let remainder = elapsed % period;
        assert(new * 1_000_000 <= elapsed && remainder <= elapsed && (self.capacity > 0 || new >= 1)) by (nonlinear_arith)
            requires
                period >= 1_000_000,
                new == elapsed / period,
                remainder == elapsed % period,
                self.capacity > 0 || elapsed >= period,
        ;
        let cap = (self.capacity as u128) + new - 1;
        self.capacity = if cap > MAX_BURST as u128 {
            MAX_BURST
        } else {
            cap as u8
        };
        self.prev = now - remainder;
        true
    }
}

/// One call of `RateLimiter::allow` at `now`, from `before` to `after`,
/// answering `ok`.
pub open spec fn allow_step(before: RateLimiter, now: u128, ok: bool, after: RateLimiter) -> bool {
    &&& after.interval_ms() == before.interval_ms()
    &&& (now < before.last() ==> !ok && after == before)
    &&& (now >= before.last() ==> {
        let elapsed: nat = (now - before.last()) as nat;
        let period: nat = before.interval_ms() * 1_000_000;
        let refill = elapsed / period;
        if before.budget() == 0 && elapsed < period {
            !ok && after == before
        } else {
            &&& ok
            &&& after.budget() == if before.budget() + refill - 1 > MAX_BURST {
                MAX_BURST as int
            } else {
                before.budget() + refill - 1
            }
            &&& after.last() == now - elapsed % period
        }
    })
}

/// What a draw target is, with the state its decisions need; the terminal
/// itself stays with the caller.
#[derive(Clone, Debug)]
pub enum TargetState {
    /// A terminal, drawn to at most at the limiter's rate.
    Term { last_line_count: VisualLines, rate_limiter: RateLimiter, draw_state: DrawState },
    /// A member of a multi progress, at the given slot.
    Multi { idx: usize },
    /// Draws nowhere.
    Hidden,
    /// A terminal-like object, drawn to at the limiter's rate where it has one.
    TermLike { last_line_count: VisualLines, rate_limiter: Option<RateLimiter>, draw_state: DrawState },
}

impl TargetState {
    pub open spec fn wf(self) -> bool {
        match self {
            TargetState::Term { rate_limiter, .. } => rate_limiter.wf(),
            TargetState::TermLike { rate_limiter, .. } => rate_limiter matches Some(r) ==> r.wf(),
            _ => true,
        }
    }

    /// Whether a draw at `now` goes through: never to a hidden target or to
    /// a terminal that is not one (`is_term`), always to a multi progress,
    /// and otherwise when forced or when the limiter allows it (the limiter
    /// is asked only when the draw is not forced).
    pub fn drawable(&mut self, force_draw: bool, is_term: bool, now: u128) -> (ok: bool)
        requires
            old(self).wf(),
        ensures
            final(self).wf(),
            match *old(self) {
                TargetState::Term { last_line_count, rate_limiter, draw_state } => {
                    &&& (!is_term ==> !ok && *final(self) == *old(self))
                    &&& (is_term && force_draw ==> ok && *final(self) == *old(self))
                    &&& (is_term && !force_draw ==> (*final(self) matches TargetState::Term {
                        last_line_count: l2,
                        rate_limiter: r2,
                        draw_state: d2,
                    } && l2 == last_line_count && d2 == draw_state && allow_step(rate_limiter, now, ok, r2)))
                },
                TargetState::Multi { .. } => ok && *final(self) == *old(self),
                TargetState::Hidden => !ok && *final(self) == *old(self),
                TargetState::TermLike { rate_limiter: None, .. } => ok && *final(self) == *old(self),
                TargetState::TermLike { last_line_count, rate_limiter: Some(rl), draw_state } => {
                    &&& (force_draw ==> ok && *final(self) == *old(self))
                    &&& (!force_draw ==> (*final(self) matches TargetState::TermLike {
                        last_line_count: l2,
                        rate_limiter: Some(r2),
                        draw_state: d2,
                    } && l2 == last_line_count && d2 == draw_state && allow_step(rl, now, ok, r2)))
                },
            },
    {
        match self {
            TargetState::Term { rate_limiter, .. } => {
                if !is_term {
                    return false;
                }
                force_draw || rate_limiter.allow(now)
            },
            TargetState::Multi { .. } => true,
            TargetState::Hidden => false,
            TargetState::TermLike { rate_limiter, .. } => {
                match rate_limiter {
                    None => true,
                    Some(r) => force_draw || r.allow(now),
                }
            },
        }
    }

    /// Adjusts the count of lines last drawn, where the target keeps one.
    pub fn adjust_last_line_count(&mut self, adjust: LineAdjust)
        ensures
            match *old(self) {
                TargetState::Term { last_line_count, rate_limiter, draw_state } => *final(self) == (TargetState::Term {
                    last_line_count: VisualLines(adjusted(last_line_count.0 as nat, adjust) as usize),
                    rate_limiter,
                    draw_state,
                }),
                TargetState::TermLike { last_line_count, rate_limiter, draw_state } => *final(self) == (TargetState::TermLike {
                    last_line_count: VisualLines(adjusted(last_line_count.0 as nat, adjust) as usize),
                    rate_limiter,
                    draw_state,
                }),
                _ => *final(self) == *old(self),
            },
    {
        match self {
            TargetState::Term { last_line_count, .. } => {
                *last_line_count = adjust_line_count(*last_line_count, adjust);
            },
            TargetState::TermLike { last_line_count, .. } => {
                *last_line_count = adjust_line_count(*last_line_count, adjust);
            },
            _ => {},
        }
    }
}


// ---------------------------------------------------------------------------
// Drawing lines on a terminal.
// ---------------------------------------------------------------------------

/// An operation on a terminal.
#[derive(Clone, Debug, PartialEq, Eq)]
pub enum TermOp {
    MoveCursorUp(usize),
    MoveCursorDown(usize),
    ClearLine,
    WriteLine(String),
    WriteStr(String),
    ClearLastLines(usize),
    Flush,
}

/// The view of a terminal operation.
pub enum Op {
    Up(nat),
    Down(nat),
    Clear,
    Line(Seq<char>),
    Str(Seq<char>),
    ClearLast(nat),
    Flush,
}

impl View for TermOp {
    type V = Op;

    open spec fn view(&self) -> Op {
        match self {
            TermOp::MoveCursorUp(n) => Op::Up(*n as nat),
            TermOp::MoveCursorDown(n) => Op::Down(*n as nat),
            TermOp::ClearLine => Op::Clear,
            TermOp::WriteLine(s) => Op::Line(s@),
            TermOp::WriteStr(s) => Op::Str(s@),
            TermOp::ClearLastLines(n) => Op::ClearLast(*n as nat),
            TermOp::Flush => Op::Flush,
        }
    }
}

pub open spec fn op_views(v: Seq<TermOp>) -> Seq<Op> {
    v.map_values(|o: TermOp| o@)
}

/// Clearing the last `n` lines: up to the first of them, clear each one
/// going down, and back up.
pub open spec fn clear_ops(n: nat) -> Seq<Op> {
    let up = Op::Up(if n > 0 {
        (n - 1) as nat
    } else {
        0
    });
    seq![up] + clear_each(n, n) + seq![up]
}

/// The first `i` of the `n` steps of clearing lines: clear a line, then go
/// down unless it was the last.
pub open spec fn clear_each(i: nat, n: nat) -> Seq<Op>
    decreases i,
{
    if i == 0 {
        Seq::empty()
    } else {
        clear_each((i - 1) as nat, n) + seq![Op::Clear] + (if i != n {
            seq![Op::Down(1)]
        } else {
            Seq::empty()
        })
    }
}

/// Rows a drawn line takes: an empty line one, any other at least one.
pub open spec fn line_diff(line: Seq<char>, width: nat) -> nat {
    if line.len() == 0 {
        1
    } else {
        line_rows(text_width(line), width)
    }
}

/// The first `k` steps of writing the lines: the operations, the rows
/// written, the blanks that fill the last line, and whether writing stopped.
/// Writing stops at the first line after the orphan lines that would take
/// the rows written past the orphan lines beyond the terminal's height.
pub open spec fn write_pass(
    lines: Seq<Seq<char>>,
    orphans: nat,
    orphan_rows: nat,
    width: nat,
    height: nat,
    k: nat,
) -> (Seq<Op>, int, nat, bool)
    decreases k,
{
    if k == 0 {
        (Seq::empty(), 0, 0, false)
    } else {
        let p = write_pass(lines, orphans, orphan_rows, width, height, (k - 1) as nat);
        let idx = k - 1;
        let line = lines[idx];
        let diff = line_diff(line, width);
        if p.3 {
            p
        } else if orphans <= idx && p.1 - orphan_rows + diff > height {
            (p.0, p.1, p.2, true)
        } else {
            (
                p.0 + (if idx != 0 {
                    seq![Op::Line(Seq::empty())]
                } else {
                    Seq::empty()
                }) + seq![Op::Str(line)],
                p.1 + diff,
                if idx + 1 == lines.len() {
                    if width > text_width(line) {
                        (width - text_width(line)) as nat
                    } else {
                        0
                    }
                } else {
                    p.2
                },
                false,
            )
        }
    }
}

impl DrawState {
    /// What drawing the state on a terminal `width` columns wide and
    /// `height` rows high does, when `last` rows were drawn before: move up
    /// over the old lines (with `move_cursor` and lines to draw) or clear
    /// them; with bottom alignment, write empty lines for the rows the new
    /// lines lack; write the lines that fit; fill the last line with blanks;
    /// flush.  Also the count of rows drawn, without the orphan lines.
    pub open spec fn draw_plan(self, last: nat, width: nat, height: nat) -> (Seq<Op>, nat) {
        let lines = views(self.lines@);
        let head = if lines.len() > 0 && self.move_cursor {
            seq![Op::Up(last)]
        } else {
            clear_ops(last)
        };
        let visual = rows_of(lines, width);
        let shift: nat = if self.alignment == MultiProgressAlignment::Bottom && visual < last {
            (last - visual) as nat
        } else {
            0
        };
        let orphan_rows = rows_of(lines.take(self.orphan_lines_count as int), width);
        let p = write_pass(lines, self.orphan_lines_count as nat, orphan_rows, width, height, lines.len());
        (
            head + Seq::new(shift, |_i: int| Op::Line(Seq::empty())) + p.0 + seq![
                Op::Str(Seq::new(p.2, |_i: int| ' ')),
                Op::Flush,
            ],
            (p.1 - orphan_rows + shift) as nat,
        )
    }

    /// The operations that draw the state on a terminal, as `draw_plan`
    /// says, and the new count of rows drawn.
    pub fn draw_to_term(&self, last_line_count: VisualLines, width: usize, height: usize) -> (r: (
        Vec<TermOp>,
        VisualLines,
    ))
        requires
            self.orphan_lines_count <= self.lines.len(),
            rows_of(views(self.lines@), width as nat) <= usize::MAX,
        ensures
            op_views(r.0@) == self.draw_plan(last_line_count.0 as nat, width as nat, height as nat).0,
            r.1.0 == self.draw_plan(last_line_count.0 as nat, width as nat, height as nat).1,
    {
        let ghost lines = views(self.lines@);
        let last = last_line_count.0;
        let mut ops: Vec<TermOp> = Vec::new();
        if self.lines.len() > 0 && self.move_cursor {
            ops.push(TermOp::MoveCursorUp(last));
        } else {
            push_clear_ops(&mut ops, last);
        }
        let ghost head = op_views(ops@);
        proof {
            assert(lines.subrange(0, self.lines.len() as int) =~= lines);
        }
        let visual = rows_of_range(&self.lines, 0, self.lines.len(), width);
        let shift: usize = match self.alignment {
            MultiProgressAlignment::Bottom => if visual.0 < last {
                last - visual.0
            } else {
                0
            },
            MultiProgressAlignment::Top => 0,
        };
        let mut k: usize = 0;
        while k < shift
            invariant
                k <= shift,
                op_views(ops@) == head + Seq::new(k as nat, |_i: int| Op::Line(Seq::empty())),
            decreases shift - k,
        {
            push_op(&mut ops, TermOp::WriteLine(String::new()));
            k = k + 1;
            assert(op_views(ops@) =~= head + Seq::new(k as nat, |_i: int| Op::Line(Seq::empty())));
        }
        let ghost before_lines = op_views(ops@);
        proof {
            lemma_rows_of_prefix_le(lines, self.orphan_lines_count as nat, width as nat);
            assert(lines.subrange(0, self.orphan_lines_count as int) =~= lines.take(self.orphan_lines_count as int));
        }
        let orphan_rows = rows_of_range(&self.lines, 0, self.orphan_lines_count, width);
        let ghost orphans = self.orphan_lines_count as nat;
        let len = self.lines.len();
        let mut real_len: usize = 0;
        let mut filler: usize = 0;
        let mut idx: usize = 0;
        let mut stopped = false;
        let ghost mut drawn: nat = 0;
        while idx < len && !stopped
            invariant
                idx <= len == self.lines.len(),
                lines == views(self.lines@),
                orphans == self.orphan_lines_count,
                orphans <= len,
                orphan_rows.0 == rows_of(lines.take(orphans as int), width as nat),
                rows_of(lines, width as nat) <= usize::MAX,
                drawn == (if stopped { idx - 1 } else { idx as int }),
                drawn <= idx,
                real_len == rows_of(lines.take(drawn as int), width as nat),
                ({
                    let p = write_pass(lines, orphans, orphan_rows.0 as nat, width as nat, height as nat, idx as nat);
                    &&& op_views(ops@) == before_lines + p.0
                    &&& p.1 == real_len
                    &&& p.2 == filler
                    &&& p.3 == stopped
                }),
                stopped ==> orphans <= drawn,
            decreases len - idx,
        {
            let line = &self.lines[idx];
            let line_width = measure_text_width(line.as_str());
            proof {
                lemma_views(self.lines@);
                assert(lines[idx as int] == line@);
            }
            let diff: usize = if line.as_str().is_empty() {
                1
            } else {
                line_rows_exec(line_width, width)
            };
            proof {
                assert(diff == line_rows(text_width(line@), width as nat));
                assert(lines.take(idx + 1).drop_last() =~= lines.take(idx as int));
                lemma_rows_of_prefix_le(lines, (idx + 1) as nat, width as nat);
            }
            let ghost before = op_views(ops@);
            if orphans_reached(self.orphan_lines_count, idx) && (real_len as u128) + (diff as u128) > (height as u128) + (
            orphan_rows.0 as u128) {
                stopped = true;
            } else {
                if idx != 0 {
                    push_op(&mut ops, TermOp::WriteLine(String::new()));
                }
                push_op(&mut ops, TermOp::WriteStr(line.clone()));
                real_len = real_len + diff;
                if idx + 1 == len {
                    filler = width.saturating_sub(line_width);
                }
                proof {
                    drawn = drawn + 1;
                }
            }
            idx = idx + 1;
            assert(op_views(ops@) =~= before_lines + write_pass(lines, orphans, orphan_rows.0 as nat, width as nat, height as nat, idx as nat).0);
        }
        proof {
            if stopped {
                lemma_pass_stopped(lines, orphans, orphan_rows.0 as nat, width as nat, height as nat, idx as nat, len as nat);
            }
            lemma_rows_of_prefix_le(lines.take(drawn as int), orphans, width as nat);
            assert(lines.take(drawn as int).take(orphans as int) =~= lines.take(orphans as int));
            lemma_rows_of_prefix_le(lines, drawn, width as nat);
        }
        let ghost body = op_views(ops@);
        let mut blanks = String::new();
        let mut j: usize = 0;
        while j < filler
            invariant
                j <= filler,
                blanks@ == Seq::new(j as nat, |_i: int| ' '),
            decreases filler - j,
        {
            blanks.push(' ');
            j = j + 1;
            assert(blanks@ =~= Seq::new(j as nat, |_i: int| ' '));
        }
        push_op(&mut ops, TermOp::WriteStr(blanks));
        push_op(&mut ops, TermOp::Flush);
        let count = real_len - orphan_rows.0 + shift;
        proof {
            let plan = self.draw_plan(last as nat, width as nat, height as nat);
            assert(op_views(ops@) =~= plan.0);
        }
        (ops, VisualLines(count))
    }
}

proof fn lemma_pass_stopped(lines: Seq<Seq<char>>, orphans: nat, orphan_rows: nat, width: nat, height: nat, k: nat, m: nat)
    requires
        k <= m,
        write_pass(lines, orphans, orphan_rows, width, height, k).3,
    ensures
        write_pass(lines, orphans, orphan_rows, width, height, m) == write_pass(lines, orphans, orphan_rows, width, height, k),
    decreases m - k,
{
    if m > k {
        lemma_pass_stopped(lines, orphans, orphan_rows, width, height, k, (m - 1) as nat);
    }
}

fn orphans_reached(orphans: usize, idx: usize) -> (b: bool)
    ensures
        b == (orphans <= idx),
{
    orphans <= idx
}

proof fn lemma_views(v: Seq<String>)
    ensures
        views(v).len() == v.len(),
        forall|i: int| 0 <= i < v.len() ==> #[trigger] views(v)[i] == v[i]@,
{
}

pub proof fn lemma_op_views_push(v: Seq<TermOp>, o: TermOp)
    ensures
        op_views(v.push(o)) == op_views(v).push(o@),
{
    assert(op_views(v.push(o)) =~= op_views(v).push(o@));
}

/// Appends the operations that clear the last `n` lines.
fn push_clear_ops(ops: &mut Vec<TermOp>, n: usize)
    ensures
        op_views(final(ops)@) == op_views(old(ops)@) + clear_ops(n as nat),
{
    let ghost start = op_views(ops@);
    let up = n.saturating_sub(1);
    push_op(ops, TermOp::MoveCursorUp(up));
    let ghost first = op_views(ops@);
    let mut i: usize = 0;
    while i < n
        invariant
            i <= n,
            op_views(ops@) == first + clear_each(i as nat, n as nat),
        decreases n - i,
    {
        push_op(ops, TermOp::ClearLine);
        if i + 1 != n {
            push_op(ops, TermOp::MoveCursorDown(1));
        }
        i = i + 1;
        assert(op_views(ops@) =~= first + clear_each(i as nat, n as nat));
    }
    push_op(ops, TermOp::MoveCursorUp(up));
    assert(op_views(ops@) =~= start + clear_ops(n as nat));
}

pub fn push_op(ops: &mut Vec<TermOp>, o: TermOp)
    ensures
        op_views(final(ops)@) == op_views(old(ops)@).push(o@),
{
    let ghost before = ops@;
    ops.push(o);
    proof {
        lemma_op_views_push(before, o);
    }
}

} // verus!
