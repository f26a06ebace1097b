//! The state of one progress bar as the renderer sees it, and the changes
//! that finishing, resetting and advancing make to it.
use vstd::prelude::*;

use crate::format::TimeSpan;
use crate::text::{chars_of, push_repeat, string_of};

verus! {

/// Tab width used when none is set.
pub const DEFAULT_TAB_WIDTH: usize = 8;

/// `s` with every tab replaced by `w` spaces.
pub open spec fn expand_tabs(s: Seq<char>, w: nat) -> Seq<char>
    decreases s.len(),
{
    if s.len() == 0 {
        Seq::empty()
    } else {
        expand_tabs(s.drop_last(), w) + (if s.last() == '\t' {
            Seq::new(w, |_i: int| ' ')
        } else {
            seq![s.last()]
        })
    }
}

pub open spec fn has_tab(s: Seq<char>) -> bool {
    exists|i: int| 0 <= i < s.len() && s[i] == '\t'
}

proof fn lemma_expand_no_tabs(s: Seq<char>, w: nat)
    requires
        !has_tab(s),
    ensures
        expand_tabs(s, w) == s,
    decreases s.len(),
{
    if s.len() > 0 {
        assert(!has_tab(s.drop_last())) by {
            if has_tab(s.drop_last()) {
                let i = choose|i: int| 0 <= i < s.drop_last().len() && #[trigger] s.drop_last()[i] == '\t';
                assert(s[i] == '\t');
            }
        }
        lemma_expand_no_tabs(s.drop_last(), w);
        assert(s.drop_last().push(s.last()) =~= s);
    }
}

fn expand_tabs_exec(v: &Vec<char>, w: usize) -> (r: (Vec<char>, bool))
    ensures
        r.0@ == expand_tabs(v@, w as nat),
        r.1 == has_tab(v@),
{
    let mut out: Vec<char> = Vec::new();
    let mut found = false;
    let mut i: usize = 0;
    while i < v.len()
        invariant
            i <= v.len(),
            out@ == expand_tabs(v@.take(i as int), w as nat),
            found == has_tab(v@.take(i as int)),
        decreases v.len() - i,
    {
        let ghost prefix = v@.take(i as int);
        assert(v@.take(i + 1).drop_last() =~= prefix);
        if v[i] == '\t' {
            push_repeat(&mut out, ' ', w);
            found = true;
            assert(v@.take(i + 1)[i as int] == '\t');
        } else {
            out.push(v[i]);
            assert(out@ =~= expand_tabs(v@.take(i + 1), w as nat));
            assert(has_tab(v@.take(i + 1)) == has_tab(prefix)) by {
                if has_tab(v@.take(i + 1)) {
                    let j = choose|j: int| 0 <= j < i + 1 && #[trigger] v@.take(i + 1)[j] == '\t';
                    assert(j != i);
                    assert(prefix[j] == '\t');
                }
                if has_tab(prefix) {
                    let j = choose|j: int| 0 <= j < i && #[trigger] prefix[j] == '\t';
                    assert(v@.take(i + 1)[j] == '\t');
                }
            }
        }
        i = i + 1;
    }
    assert(v@.take(v.len() as int) =~= v@);
    (out, found)
}

/// A text shown by a progress bar (message or prefix), kept together with
/// its tab-expanded form.
#[derive(Debug)]
pub struct TabExpandedString {
    original: String,
    expanded: String,
    tab_width: usize,
    with_tabs: bool,
}

impl TabExpandedString {
    #[verifier::type_invariant]
    closed spec fn inv(self) -> bool {
        &&& self.with_tabs == has_tab(self.original@)
        &&& self.with_tabs ==> self.expanded@ == expand_tabs(self.original@, self.tab_width as nat)
        &&& !self.with_tabs ==> self.expanded@ == self.original@
    }

    /// The text as it was given.
    pub closed spec fn text(self) -> Seq<char> {
        self.original@
    }

    /// The tab width the text is currently expanded with.
    pub closed spec fn width_of_tabs(self) -> nat {
        self.tab_width as nat
    }

    /// The text as it is shown: each tab replaced by `tab_width` spaces.
    pub open spec fn shown(self) -> Seq<char> {
        expand_tabs(self.text(), self.width_of_tabs())
    }

    /// A text whose tabs are expanded to `tab_width` spaces.
    pub fn new(s: &str, tab_width: usize) -> (t: TabExpandedString)
        ensures
            t.text() == s@,
            t.width_of_tabs() == tab_width,
            t.shown() == expand_tabs(s@, tab_width as nat),
    {
        let v = chars_of(s);
        let (e, with_tabs) = expand_tabs_exec(&v, tab_width);
        if !with_tabs {
            proof {
                lemma_expand_no_tabs(v@, tab_width as nat);
            }
        }
        TabExpandedString { original: string_of(&v), expanded: string_of(&e), tab_width, with_tabs }
    }

    /// The text as it is shown.
    pub fn expanded(&self) -> (s: &str)
        ensures
            s@ == self.shown(),
    {
        proof {
            use_type_invariant(self);
            if !self.with_tabs {
                lemma_expand_no_tabs(self.original@, self.tab_width as nat);
            }
        }
        self.expanded.as_str()
    }

    /// Changes the tab width and expands the text again.
    pub fn set_tab_width(&mut self, new_tab_width: usize)
        ensures
            final(self).text() == old(self).text(),
            final(self).width_of_tabs() == new_tab_width,
            final(self).shown() == expand_tabs(old(self).text(), new_tab_width as nat),
    {
        proof {
            use_type_invariant(&*self);
        }
        if self.with_tabs && self.tab_width != new_tab_width {
            let v = chars_of(self.original.as_str());
            let (e, with_tabs) = expand_tabs_exec(&v, new_tab_width);
            *self = TabExpandedString {
                original: string_of(&v),
                expanded: string_of(&e),
                tab_width: new_tab_width,
                with_tabs,
            };
        } else if !self.with_tabs {
            proof {
                lemma_expand_no_tabs(self.original@, new_tab_width as nat);
            }
            let original = self.original.clone();
            let expanded = self.expanded.clone();
            *self = TabExpandedString { original, expanded, tab_width: new_tab_width, with_tabs: false };
        }
    }
}

/// The completion `pos / len` as a fraction `(num, den)` clamped to
/// `[0, 1]`: `0` without a length, `1` for a zero length.
pub open spec fn fraction(pos: u64, len: Option<u64>) -> (nat, nat) {
    match len {
        None => (0, 1),
        Some(l) => if l == 0 {
            (1, 1)
        } else if pos == 0 {
            (0, 1)
        } else if pos >= l {
            (1, 1)
        } else {
            (pos as nat, l as nat)
        },
    }
}

/// Behavior of a progress bar when it is finished.
#[derive(Clone, Debug)]
pub enum ProgressFinish {
    /// Finishes the progress bar and leaves the current message.
    AndLeave,
    /// Finishes the progress bar at the current position and leaves the
    /// current message.
    AtCurrentPos,
    /// Finishes the progress bar and sets a message.
    WithMessage(String),
    /// Finishes the progress bar and completely clears it (the default).
    AndClear,
    /// Finishes the progress bar and leaves the current message and progress.
    Abandon,
    /// Finishes the progress bar, sets a message, and leaves the current
    /// progress.
    AbandonWithMessage(String),
}

impl ProgressFinish {
    /// The default finish behavior, `AndClear`.
    pub fn default_finish() -> (f: ProgressFinish)
        ensures
            f is AndClear,
    {
        ProgressFinish::AndClear
    }
}

/// Whether a progress bar is running, finished and shown, or finished and
/// hidden.
#[derive(Copy, Clone, Debug, PartialEq, Eq, Structural)]
pub enum Status {
    InProgress,
    DoneVisible,
    DoneHidden,
}

/// The state of a progress bar at a moment in time.  The times (elapsed,
/// estimated remaining, estimated total) are measured outside and stored with
/// it before it is rendered.
pub struct ProgressState {
    pub pos: u64,
    pub len: Option<u64>,
    pub tick: u64,
    pub status: Status,
    pub message: TabExpandedString,
    pub prefix: TabExpandedString,
    pub elapsed: TimeSpan,
    pub eta: TimeSpan,
    pub duration: TimeSpan,
}

impl ProgressState {
    /// A fresh state: position 0, no ticks, in progress, empty texts.
    pub fn new(len: Option<u64>) -> (s: ProgressState)
        ensures
            s.pos == 0,
            s.len == len,
            s.tick == 0,
            s.status == Status::InProgress,
            s.message.shown() == Seq::<char>::empty(),
            s.prefix.shown() == Seq::<char>::empty(),
            s.message.text() == Seq::<char>::empty(),
            s.prefix.text() == Seq::<char>::empty(),
            s.message.width_of_tabs() == DEFAULT_TAB_WIDTH,
            s.prefix.width_of_tabs() == DEFAULT_TAB_WIDTH,
            s.elapsed@ == 0,
    {
        proof {
            reveal_strlit("");
        }
        ProgressState {
            pos: 0,
            len,
            tick: 0,
            status: Status::InProgress,
            message: TabExpandedString::new("", DEFAULT_TAB_WIDTH),
            prefix: TabExpandedString::new("", DEFAULT_TAB_WIDTH),
            elapsed: TimeSpan::zero(),
            eta: TimeSpan::zero(),
            duration: TimeSpan::zero(),
        }
    }

    /// The completion as the fraction `num / den`, between 0 and 1: nothing
    /// without a length, all of it for a zero length, and at most all of it.
    pub fn fraction(&self) -> (r: (u64, u64))
        ensures
            (r.0 as nat, r.1 as nat) == fraction(self.pos, self.len),
            r.1 > 0,
            r.0 <= r.1,
    {
        match self.len {
            None => (0, 1),
            Some(l) => {
                if l == 0 {
                    (1, 1)
                } else if self.pos == 0 {
                    (0, 1)
                } else if self.pos >= l {
                    (1, 1)
                } else {
                    (self.pos, l)
                }
            },
        }
    }

    pub open spec fn finished(self) -> bool {
        self.status != Status::InProgress
    }

    /// Whether the bar is still to be drawn: not once finished and hidden.
    pub fn should_render(&self) -> (b: bool)
        ensures
            b == (self.status != Status::DoneHidden),
    {
        match self.status {
            Status::DoneHidden => false,
            _ => true,
        }
    }

    /// Indicates that the progress bar finished.
    pub fn is_finished(&self) -> (b: bool)
        ensures
            b == self.finished(),
    {
        match self.status {
            Status::InProgress => false,
            Status::DoneVisible => true,
            Status::DoneHidden => true,
        }
    }

    pub fn pos(&self) -> (p: u64)
        ensures
            p == self.pos,
    {
        self.pos
    }

    pub fn set_pos(&mut self, pos: u64)
        ensures
            *final(self) == (ProgressState { pos, ..*old(self) }),
    {
        self.pos = pos;
    }

    pub fn len(&self) -> (l: Option<u64>)
        ensures
            l == self.len,
    {
        self.len
    }

    pub fn set_len(&mut self, len: u64)
        ensures
            *final(self) == (ProgressState { len: Some(len), ..*old(self) }),
    {
        self.len = Some(len);
    }

    /// Grows the length, where there is one, saturating at `u64::MAX`.
    pub fn inc_length(&mut self, delta: u64)
        ensures
            *final(self) == (ProgressState {
                len: match old(self).len {
                    Some(l) => Some(if l + delta > u64::MAX { u64::MAX } else { (l + delta) as u64 }),
                    None => None,
                },
                ..*old(self)
            }),
    {
        if let Some(len) = self.len {
            self.len = Some(len.saturating_add(delta));
        }
    }

    /// Advances the position, saturating at `u64::MAX`.
    pub fn inc(&mut self, delta: u64)
        ensures
            *final(self) == (ProgressState {
                pos: if old(self).pos + delta > u64::MAX { u64::MAX } else { (old(self).pos + delta) as u64 },
                ..*old(self)
            }),
    {
        self.pos = self.pos.saturating_add(delta);
    }

    /// Counts one more tick, saturating at `u64::MAX`.
    pub fn tick(&mut self)
        ensures
            *final(self) == (ProgressState {
                tick: if old(self).tick == u64::MAX { u64::MAX } else { (old(self).tick + 1) as u64 },
                ..*old(self)
            }),
    {
        self.tick = self.tick.saturating_add(1);
    }

    /// Finishes the bar as `finish` says: the status becomes finished (hidden
    /// for `AndClear`), the position jumps to the length where one is known,
    /// except for `AtCurrentPos` and the abandoning kinds, and the message is
    /// replaced where the kind carries one.
    pub fn finish_using_style(&mut self, finish: ProgressFinish, tab_width: usize)
        ensures
            final(self).status == (if finish is AndClear { Status::DoneHidden } else { Status::DoneVisible }),
            final(self).pos == (match (finish, old(self).len) {
                (ProgressFinish::AndLeave, Some(l)) => l,
                (ProgressFinish::WithMessage(_), Some(l)) => l,
                (ProgressFinish::AndClear, Some(l)) => l,
                _ => old(self).pos,
            }),
            final(self).len == old(self).len,
            final(self).tick == old(self).tick,
            finish matches ProgressFinish::WithMessage(m) ==> final(self).message.text() == m@
                && final(self).message.shown() == expand_tabs(m@, tab_width as nat),
            finish matches ProgressFinish::AbandonWithMessage(m) ==> final(self).message.text() == m@
                && final(self).message.shown() == expand_tabs(m@, tab_width as nat),
            !(finish is WithMessage || finish is AbandonWithMessage) ==> final(self).message == old(self).message,
            final(self).prefix == old(self).prefix,
            final(self).elapsed == old(self).elapsed,
            final(self).eta == old(self).eta,
            final(self).duration == old(self).duration,
    {
        self.status = Status::DoneVisible;
        match finish {
            ProgressFinish::AndLeave => {
                if let Some(len) = self.len {
                    self.pos = len;
                }
            },
            ProgressFinish::AtCurrentPos => {},
            ProgressFinish::WithMessage(msg) => {
                if let Some(len) = self.len {
                    self.pos = len;
                }
                self.message = TabExpandedString::new(msg.as_str(), tab_width);
            },
            ProgressFinish::AndClear => {
                if let Some(len) = self.len {
                    self.pos = len;
                }
                self.status = Status::DoneHidden;
            },
            ProgressFinish::Abandon => {},
            ProgressFinish::AbandonWithMessage(msg) => {
                self.message = TabExpandedString::new(msg.as_str(), tab_width);
            },
        }
    }

    /// Puts the bar back at the start: position 0, in progress.
    pub fn reset(&mut self)
        ensures
            *final(self) == (ProgressState { pos: 0, status: Status::InProgress, ..*old(self) }),
    {
        self.pos = 0;
        self.status = Status::InProgress;
    }
}


/// `a + b`, saturating at `u64::MAX`.
pub open spec fn sat_add(a: u64, b: u64) -> u64 {
    if a + b > u64::MAX {
        u64::MAX
    } else {
        (a + b) as u64
    }
}

/// Redraws throttled by position: a bar redraws once its position reaches
/// `draw_next`, and each redraw puts `draw_next` one step further on.  The
/// step is the number of positions made per second divided by `draw_rate`
/// when a rate is set, else `draw_delta`.
#[derive(Copy, Clone, Debug)]
pub struct DrawThrottle {
    pub draw_delta: u64,
    pub draw_rate: u64,
    pub draw_next: u64,
}

impl DrawThrottle {
    /// Redraws on every update.
    pub fn new() -> (t: DrawThrottle)
        ensures
            t == (DrawThrottle { draw_delta: 0, draw_rate: 0, draw_next: 0 }),
    {
        DrawThrottle { draw_delta: 0, draw_rate: 0, draw_next: 0 }
    }

    /// The positions between two redraws at `per_sec` positions a second.
    pub open spec fn step(self, per_sec: u64) -> u64 {
        if self.draw_rate != 0 {
            (per_sec / self.draw_rate) as u64
        } else {
            self.draw_delta
        }
    }

    /// Redraws every `n` positions from `pos` on.
    pub fn set_draw_delta(&mut self, pos: u64, n: u64)
        ensures
            *final(self) == (DrawThrottle { draw_delta: n, draw_next: sat_add(pos, n), ..*old(self) }),
    {
        self.draw_delta = n;
        self.draw_next = pos.saturating_add(n);
    }

    /// Redraws about `n` times a second at `per_sec` positions a second,
    /// from `pos` on.
    pub fn set_draw_rate(&mut self, pos: u64, per_sec: u64, n: u64)
        requires
            n > 0,
        ensures
            *final(self) == (DrawThrottle { draw_rate: n, draw_next: sat_add(pos, (per_sec / n) as u64), ..*old(self) }),
    {
        self.draw_rate = n;
        self.draw_next = pos.saturating_add(per_sec / n);
    }

    /// Whether an update to position `pos` redraws; when it does, the next
    /// redraw waits one step more.
    pub fn update(&mut self, pos: u64, per_sec: u64) -> (draw: bool)
        ensures
            draw == (pos >= old(self).draw_next),
            draw ==> *final(self) == (DrawThrottle { draw_next: sat_add(pos, old(self).step(per_sec)), ..*old(self) }),
            !draw ==> *final(self) == *old(self),
    {
        if pos >= self.draw_next {
            let step = if self.draw_rate != 0 {
                per_sec / self.draw_rate
            } else {
                self.draw_delta
            };
            self.draw_next = pos.saturating_add(step);
            true
        } else {
            false
        }
    }

    /// Makes the next update at `pos` or beyond redraw.
    pub fn redraw_from(&mut self, pos: u64)
        ensures
            *final(self) == (DrawThrottle { draw_next: pos, ..*old(self) }),
    {
        self.draw_next = pos;
    }
}

/// Nanoseconds of one unit of drawing budget.
pub const INTERVAL: u64 = 1_000_000;

/// Most position updates that may draw in a burst.
pub const MAX_BURST: u8 = 10;

/// The position of a bar together with a budget that decides which updates
/// of it may draw: one per millisecond, with bursts of up to `MAX_BURST`.
/// Times are given as the span since the position was created, or `None`
/// for a time before that.
pub struct AtomicPosition {
    pos: u64,
    capacity: u8,
    prev: u64,
}

/// The drawing budget of a position never exceeds a burst.
pub proof fn law_position_budget_bounded(a: AtomicPosition)
    requires
        a.wf(),
    ensures
        a.budget() <= MAX_BURST,
{
}

/// A bar at or past its length is complete, and so is a bar of length 0.
pub proof fn law_complete_at_length(pos: u64, len: u64)
    requires
        pos >= len,
    ensures
        fraction(pos, Some(len)) == (1nat, 1nat),
{
}

/// The completion never exceeds one and never has a zero denominator.
pub proof fn law_fraction_bounds(pos: u64, len: Option<u64>)
    ensures
        fraction(pos, len).1 > 0,
        fraction(pos, len).0 <= fraction(pos, len).1,
{
}

impl AtomicPosition {
    /// The budget never exceeds a burst.
    pub closed spec fn wf(self) -> bool {
        self.capacity <= MAX_BURST
    }

    /// The position.
    pub closed spec fn position(self) -> u64 {
        self.pos
    }

    /// The position.
    pub fn pos(&self) -> (p: u64)
        ensures
            p == self.position(),
    {
        self.pos
    }

    /// Updates that may still draw right away.
    pub closed spec fn budget(self) -> nat {
        self.capacity as nat
    }

    /// Nanoseconds since creation at which the budget was last counted.
    pub closed spec fn last(self) -> nat {
        self.prev as nat
    }

    /// Position 0 with a full budget.
    pub fn new() -> (a: AtomicPosition)
        ensures
            a.wf(),
            a.position() == 0,
            a.budget() == MAX_BURST,
            a.last() == 0,
    {
        AtomicPosition { pos: 0, capacity: MAX_BURST, prev: 0 }
    }

    /// Whether an update at `since_start` nanoseconds may draw.  An update
    /// before creation may not; with no budget left an update may not until
    /// a millisecond has passed; otherwise it may: each whole millisecond
    /// since the last count adds one to the budget, the update takes one, the
    /// budget is capped at a burst, and the count moves to the last whole
    /// millisecond.  The span is counted in 64 bits, as a truncating cast.
    pub fn allow(&mut self, since_start: Option<u128>) -> (ok: bool)
        requires
            old(self).wf(),
        ensures
            final(self).wf(),
            final(self).position() == old(self).position(),
            since_start is None ==> !ok && *final(self) == *old(self),
            since_start matches Some(t) ==> {
                let elapsed = (t as u64) as nat;
                let diff: nat = if elapsed > old(self).last() { (elapsed - old(self).last()) as nat } else { 0 };
                if old(self).budget() == 0 && diff < INTERVAL {
                    !ok && *final(self) == *old(self)
                } else {
                    &&& ok
                    &&& final(self).budget() == if old(self).budget() + diff / (INTERVAL as nat) - 1 > MAX_BURST {
                        MAX_BURST as int
                    } else {
                        old(self).budget() + diff / (INTERVAL as nat) - 1
                    }
                    &&& final(self).last() == elapsed - diff % (INTERVAL as nat)
                }
            },
    {
        let t = match since_start {
            None => return false,
            Some(t) => t,
        };
        #[verifier::truncate]
        let elapsed = t as u64;
        let diff = elapsed.saturating_sub(self.prev);
        if self.capacity == 0 && diff < INTERVAL {
            return false;
        }
        let new = diff / INTERVAL;
        let remainder = diff % INTERVAL;
        let cap = (self.capacity as u64) + new - 1;
        self.capacity = if cap > MAX_BURST as u64 {
            MAX_BURST
        } else {
            cap as u8
        };
        self.prev = elapsed - remainder;
        true
    }

    /// Moves back to position 0 and counts the budget from `since_start`
    /// milliseconds (saturating at zero before creation).
    pub fn reset(&mut self, since_start_millis: u128)
        requires
            old(self).wf(),
        ensures
            final(self).wf(),
            final(self).position() == 0,
            final(self).budget() == old(self).budget(),
            final(self).last() == (since_start_millis as u64) as nat,
    {
        self.pos = 0;
        #[verifier::truncate]
        let ms = since_start_millis as u64;
        self.prev = ms;
    }

    /// Advances the position, wrapping around as an atomic addition does.
    pub fn inc(&mut self, delta: u64)
        requires
            old(self).wf(),
        ensures
            final(self).wf(),
            final(self).position() == (old(self).position() + delta) % 0x1_0000_0000_0000_0000,
            final(self).budget() == old(self).budget(),
            final(self).last() == old(self).last(),
    {
        self.pos = self.pos.wrapping_add(delta);
    }

    /// Sets the position.
    pub fn set(&mut self, pos: u64)
        requires
            old(self).wf(),
        ensures
            final(self).wf(),
            final(self).position() == pos,
            final(self).budget() == old(self).budget(),
            final(self).last() == old(self).last(),
    {
        self.pos = pos;
    }
}

} // verus!
