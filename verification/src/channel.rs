//! Several bars drawn together by one thread that receives their drawn lines
//! over a channel: the bookkeeping of what was received, when updates are
//! grouped into one draw, what a terminal target does with a frame, and the
//! simpler multiplexer that redraws everything on every update.
use vstd::prelude::*;

use crate::draw::{op_views, push_op, views, Op, TermOp};

verus! {

/// Most updates grouped into one draw.
pub const MAX_GROUP_SIZE: usize = 32;

/// Lines drawn by a bar, or a frame drawn by the multi progress, with the
/// time it was made (nanoseconds since a moment the caller chose).
#[derive(Clone, Debug)]
pub struct ProgressDrawState {
    /// The lines to print (can contain escape codes).
    pub lines: Vec<String>,
    /// How many lines at the front are printed once and not redrawn.
    pub orphan_lines: usize,
    /// Whether the bar no longer needs drawing.
    pub finished: bool,
    /// Whether drawing is forced.
    pub force_draw: bool,
    /// Whether to move the cursor up rather than clear lines.
    pub move_cursor: bool,
    pub ts: u128,
}

/// One bar of the multi progress: whether it finished, and its last lines.
#[derive(Clone, Debug)]
pub struct MultiObject {
    pub done: bool,
    pub draw_state: Option<ProgressDrawState>,
}

/// What the receiving loop does after an update was stored.
#[derive(Copy, Clone, Debug, PartialEq, Eq, Structural)]
pub enum JoinStep {
    /// The target is hidden: receive the next update.
    Skip,
    /// Look for another queued update to group with this one.
    TryGroup,
    /// Draw now.
    Draw,
}

/// The state of the receiving loop of a multi progress.
pub struct JoinState {
    pub objects: Vec<MultiObject>,
    pub ordering: Vec<usize>,
    pub move_cursor: bool,
    pub orphan_lines: Vec<String>,
    pub grouped: usize,
    pub force_draw: bool,
}

/// Whether all bars finished (trivially so without bars).
pub open spec fn all_done(objects: Seq<MultiObject>) -> bool {
    forall|i: int| 0 <= i < objects.len() ==> (#[trigger] objects[i]).done
}

/// The lines of the first `k` bars of the order, one after the other.
pub open spec fn frame_lines(objects: Seq<MultiObject>, ordering: Seq<usize>, k: nat) -> Seq<Seq<char>>
    decreases k,
{
    if k == 0 {
        Seq::empty()
    } else {
        frame_lines(objects, ordering, (k - 1) as nat) + match objects[ordering[k - 1] as int].draw_state {
            Some(d) => views(d.lines@),
            None => Seq::empty(),
        }
    }
}

impl JoinState {
    /// Every bar in the order exists.
    pub open spec fn wf(self) -> bool {
        forall|i: int| 0 <= i < self.ordering.len() ==> #[trigger] self.ordering@[i] < self.objects.len()
    }

    /// No bars yet.
    pub fn new(move_cursor: bool) -> (s: JoinState)
        ensures
            s.wf(),
            s.objects@.len() == 0,
            s.ordering@.len() == 0,
            s.orphan_lines@.len() == 0,
            s.grouped == 0,
            !s.force_draw,
            s.move_cursor == move_cursor,
    {
        JoinState {
            objects: Vec::new(),
            ordering: Vec::new(),
            move_cursor,
            orphan_lines: Vec::new(),
            grouped: 0,
            force_draw: false,
        }
    }

    /// Adds a bar below the others and returns its index.
    pub fn add(&mut self) -> (idx: usize)
        requires
            old(self).wf(),
            old(self).objects.len() < usize::MAX,
        ensures
            final(self).wf(),
            idx == old(self).objects.len(),
            final(self).objects@ == old(self).objects@.push(MultiObject { done: false, draw_state: None }),
            final(self).ordering@ == old(self).ordering@.push(idx),
            final(self).orphan_lines@ == old(self).orphan_lines@,
            final(self).grouped == old(self).grouped,
            final(self).force_draw == old(self).force_draw,
            final(self).move_cursor == old(self).move_cursor,
    {
        let idx = self.objects.len();
        self.objects.push(MultiObject { done: false, draw_state: None });
        self.ordering.push(idx);
        idx
    }

    /// Adds a bar at position `index` of the order (at the end when the
    /// order is shorter) and returns its index.
    pub fn insert(&mut self, index: usize) -> (idx: usize)
        requires
            old(self).wf(),
            old(self).objects.len() < usize::MAX,
        ensures
            final(self).wf(),
            idx == old(self).objects.len(),
            final(self).objects@ == old(self).objects@.push(MultiObject { done: false, draw_state: None }),
            final(self).ordering@ == if index > old(self).ordering.len() {
                old(self).ordering@.push(idx)
            } else {
                old(self).ordering@.insert(index as int, idx)
            },
            final(self).orphan_lines@ == old(self).orphan_lines@,
            final(self).grouped == old(self).grouped,
            final(self).force_draw == old(self).force_draw,
            final(self).move_cursor == old(self).move_cursor,
    {
        let idx = self.objects.len();
        self.objects.push(MultiObject { done: false, draw_state: None });
        if index > self.ordering.len() {
            self.ordering.push(idx);
        } else {
            self.ordering.insert(index, idx);
        }
        idx
    }

    /// Whether all bars finished.
    pub fn is_done(&self) -> (b: bool)
        ensures
            b == all_done(self.objects@),
    {
        if self.objects.len() == 0 {
            return true;
        }
        let mut i: usize = 0;
        while i < self.objects.len()
            invariant
                i <= self.objects.len(),
                forall|j: int| 0 <= j < i ==> (#[trigger] self.objects@[j]).done,
            decreases self.objects.len() - i,
        {
            if !self.objects[i].done {
                return false;
            }
            i = i + 1;
        }
        true
    }

    /// Stores an update of bar `idx`: a finished bar is done, a finished or
    /// forced update forces the next draw, the update's orphan lines join
    /// the orphan lines, and the rest become the bar's lines.
    pub fn receive(&mut self, idx: usize, update: ProgressDrawState)
        requires
            old(self).wf(),
            idx < old(self).objects.len(),
            update.orphan_lines <= update.lines.len(),
        ensures
            final(self).wf(),
            final(self).objects@.len() == old(self).objects@.len(),
            final(self).objects@[idx as int].done == (old(self).objects@[idx as int].done || update.finished),
            final(self).objects@[idx as int].draw_state matches Some(d) && {
                &&& views(d.lines@) == views(update.lines@).skip(update.orphan_lines as int)
                &&& d.orphan_lines == 0
                &&& d.finished == update.finished
                &&& d.force_draw == update.force_draw
                &&& d.move_cursor == update.move_cursor
                &&& d.ts == update.ts
            },
            forall|j: int| 0 <= j < old(self).objects.len() && j != idx ==> #[trigger] final(self).objects@[j] == old(self).objects@[j],
            views(final(self).orphan_lines@) == views(old(self).orphan_lines@) + views(update.lines@).take(
                update.orphan_lines as int,
            ),
            final(self).force_draw == (old(self).force_draw || update.finished || update.force_draw),
            final(self).ordering@ == old(self).ordering@,
            final(self).grouped == old(self).grouped,
            final(self).move_cursor == old(self).move_cursor,
    {
        self.force_draw = self.force_draw || update.finished || update.force_draw;
        let mut head = update.lines;
        let ghost all = head@;
        let tail = head.split_off(update.orphan_lines);
        proof {
            assert(all =~= head@ + tail@);
            assert(views(tail@) =~= views(all).skip(update.orphan_lines as int));
            assert(views(head@) =~= views(all).take(update.orphan_lines as int));
        }
        let ghost before = self.orphan_lines@;
        self.orphan_lines.append(&mut head);
        assert(views(self.orphan_lines@) =~= views(before) + views(all).take(update.orphan_lines as int));
        let done = self.objects[idx].done || update.finished;
        let stored = ProgressDrawState {
            lines: tail,
            orphan_lines: 0,
            finished: update.finished,
            force_draw: update.force_draw,
            move_cursor: update.move_cursor,
            ts: update.ts,
        };
        self.objects.set(idx, MultiObject { done, draw_state: Some(stored) });
    }

    /// What to do once an update is stored: nothing more for a hidden
    /// target; draw when the group is full (starting a new group); else look
    /// for another queued update.
    pub fn next_step(&mut self, hidden: bool) -> (step: JoinStep)
        ensures
            hidden ==> step == JoinStep::Skip && final(self).grouped == old(self).grouped,
            !hidden && old(self).grouped >= MAX_GROUP_SIZE ==> step == JoinStep::Draw && final(self).grouped == 0,
            !hidden && old(self).grouped < MAX_GROUP_SIZE ==> step == JoinStep::TryGroup && final(self).grouped
                == old(self).grouped,
            final(self).objects@ == old(self).objects@,
            final(self).ordering@ == old(self).ordering@,
            final(self).orphan_lines@ == old(self).orphan_lines@,
            final(self).force_draw == old(self).force_draw,
            final(self).move_cursor == old(self).move_cursor,
    {
        if hidden {
            JoinStep::Skip
        } else if self.grouped >= MAX_GROUP_SIZE {
            self.grouped = 0;
            JoinStep::Draw
        } else {
            JoinStep::TryGroup
        }
    }

    /// After looking for another queued update: group with it when there is
    /// one (no draw yet), else draw now and start a new group.
    pub fn grouped_with(&mut self, queued: bool) -> (draw: bool)
        requires
            old(self).grouped < MAX_GROUP_SIZE,
        ensures
            draw == !queued,
            final(self).grouped == if queued {
                old(self).grouped + 1
            } else {
                0
            },
            final(self).objects@ == old(self).objects@,
            final(self).ordering@ == old(self).ordering@,
            final(self).orphan_lines@ == old(self).orphan_lines@,
            final(self).force_draw == old(self).force_draw,
            final(self).move_cursor == old(self).move_cursor,
    {
        if queued {
            self.grouped = self.grouped + 1;
            false
        } else {
            self.grouped = 0;
            true
        }
    }

    /// The frame to draw at `ts`: the orphan lines first (printed once and
    /// forgotten), then each bar's lines in order; forced when the updates
    /// asked for it or there are orphan lines; finished when all bars are.
    pub fn frame(&mut self, ts: u128) -> (f: ProgressDrawState)
        requires
            old(self).wf(),
        ensures
            final(self).wf(),
            views(f.lines@) == views(old(self).orphan_lines@) + frame_lines(
                old(self).objects@,
                old(self).ordering@,
                old(self).ordering@.len(),
            ),
            f.orphan_lines == old(self).orphan_lines.len(),
            f.force_draw == (old(self).force_draw || old(self).orphan_lines.len() > 0),
            f.move_cursor == old(self).move_cursor,
            f.finished == all_done(old(self).objects@),
            f.ts == ts,
            final(self).orphan_lines@.len() == 0,
            !final(self).force_draw,
            final(self).objects@ == old(self).objects@,
            final(self).ordering@ == old(self).ordering@,
            final(self).grouped == old(self).grouped,
            final(self).move_cursor == old(self).move_cursor,
    {
        let mut lines: Vec<String> = Vec::new();
        let orphan_count = self.orphan_lines.len();
        lines.append(&mut self.orphan_lines);
        let ghost head = views(lines@);
        let mut i: usize = 0;
        while i < self.ordering.len()
            invariant
                self.wf(),
                i <= self.ordering.len(),
                views(lines@) == head + frame_lines(self.objects@, self.ordering@, i as nat),
            decreases self.ordering.len() - i,
        {
            let index = self.ordering[i];
            let ghost at_start = views(lines@);
            match &self.objects[index].draw_state {
                Some(d) => {
                    let mut k: usize = 0;
                    while k < d.lines.len()
                        invariant
                            k <= d.lines.len(),
                            views(lines@) == at_start + views(d.lines@).take(k as int),
                        decreases d.lines.len() - k,
                    {
                        let ghost b = lines@;
                        lines.push(d.lines[k].clone());
                        proof {
                            lemma_views_push(b, d.lines@[k as int]);
                        }
                        k = k + 1;
                        assert(views(lines@) =~= at_start + views(d.lines@).take(k as int));
                    }
                    assert(views(d.lines@).take(d.lines.len() as int) =~= views(d.lines@));
                },
                None => {},
            }
            i = i + 1;
            assert(views(lines@) =~= head + frame_lines(self.objects@, self.ordering@, i as nat));
        }
        let finished = self.is_done();
        let force = self.force_draw || orphan_count > 0;
        self.force_draw = false;
        ProgressDrawState { lines, orphan_lines: orphan_count, finished, force_draw: force, move_cursor: self.move_cursor, ts }
    }
}

/// Whether a terminal target draws `frame` at `now`: always when finished or
/// forced, without a rate or a previous frame, and otherwise once more than
/// `rate` nanoseconds passed since the previous frame.
pub open spec fn draws_now(frame: ProgressDrawState, rate: Option<u128>, last_ts: Option<u128>, now: u128) -> bool {
    ||| frame.finished
    ||| frame.force_draw
    ||| rate is None
    ||| last_ts is None
    ||| (if now > last_ts.unwrap() {
        now - last_ts.unwrap()
    } else {
        0
    }) > rate.unwrap()
}

/// Decides whether a terminal target draws `frame` at `now`.
pub fn should_draw(frame: &ProgressDrawState, rate: Option<u128>, last_ts: Option<u128>, now: u128) -> (b: bool)
    ensures
        b == draws_now(*frame, rate, last_ts, now),
{
    if frame.finished || frame.force_draw {
        return true;
    }
    match (rate, last_ts) {
        (Some(r), Some(t)) => now.saturating_sub(t) > r,
        _ => true,
    }
}

/// What a terminal target does to draw `frame` after `last`: move up over
/// (with `move_cursor` and lines to draw) or clear the lines of the last
/// frame that were not orphan lines, write each line, flush.
pub open spec fn apply_ops(last: Option<ProgressDrawState>, frame: ProgressDrawState) -> Seq<Op> {
    let undo = match last {
        Some(l) => {
            let n = (l.lines.len() - l.orphan_lines) as nat;
            if frame.lines.len() > 0 && frame.move_cursor {
                seq![Op::Up(n)]
            } else {
                seq![Op::ClearLast(n)]
            }
        },
        None => Seq::empty(),
    };
    undo + views(frame.lines@).map_values(|l: Seq<char>| Op::Line(l)) + seq![Op::Flush]
}

/// The operations that draw `frame` on a terminal after `last`, as
/// `apply_ops` says.
pub fn apply_draw_state(last: &Option<ProgressDrawState>, frame: &ProgressDrawState) -> (ops: Vec<TermOp>)
    requires
        last matches Some(l) ==> l.orphan_lines <= l.lines.len(),
    ensures
        op_views(ops@) == apply_ops(*last, *frame),
{
    let mut ops: Vec<TermOp> = Vec::new();
    match last {
        Some(l) => {
            let n = l.lines.len() - l.orphan_lines;
            if frame.lines.len() > 0 && frame.move_cursor {
                push_op(&mut ops, TermOp::MoveCursorUp(n));
            } else {
                push_op(&mut ops, TermOp::ClearLastLines(n));
            }
        },
        None => {},
    }
    let ghost undo = op_views(ops@);
    let mut i: usize = 0;
    while i < frame.lines.len()
        invariant
            i <= frame.lines.len(),
            op_views(ops@) == undo + views(frame.lines@).take(i as int).map_values(|l: Seq<char>| Op::Line(l)),
        decreases frame.lines.len() - i,
    {
        push_op(&mut ops, TermOp::WriteLine(frame.lines[i].clone()));
        i = i + 1;
        assert(op_views(ops@) =~= undo + views(frame.lines@).take(i as int).map_values(|l: Seq<char>| Op::Line(l)));
    }
    assert(views(frame.lines@).take(frame.lines.len() as int) =~= views(frame.lines@));
    push_op(&mut ops, TermOp::Flush);
    assert(op_views(ops@) =~= apply_ops(*last, *frame));
    ops
}

// ---------------------------------------------------------------------------
// The multiplexer.
// ---------------------------------------------------------------------------

/// Bars drawn together by redrawing all of them on every update.
pub struct Multiplexer {
    pub outstanding: Vec<bool>,
    pub draw_states: Vec<Option<Vec<String>>>,
}

/// Lines of the stored states, all together.
pub open spec fn stored_lines(states: Seq<Option<Vec<String>>>) -> nat
    decreases states.len(),
{
    if states.len() == 0 {
        0
    } else {
        stored_lines(states.drop_last()) + match states.last() {
            Some(v) => v.len() as nat,
            None => 0,
        }
    }
}

/// The lines of the stored states, one after the other.
pub open spec fn all_lines(states: Seq<Option<Vec<String>>>) -> Seq<Seq<char>>
    decreases states.len(),
{
    if states.len() == 0 {
        Seq::empty()
    } else {
        all_lines(states.drop_last()) + match states.last() {
            Some(v) => views(v@),
            None => Seq::empty(),
        }
    }
}

/// What the multiplexer does on an update: clear every line drawn so far,
/// then write all lines again with the update in place, and flush.
pub open spec fn redraw_ops(before: Seq<Option<Vec<String>>>, after: Seq<Option<Vec<String>>>) -> Seq<Op> {
    seq![Op::ClearLast(stored_lines(before))] + all_lines(after).map_values(|l: Seq<char>| Op::Line(l)) + seq![Op::Flush]
}

impl Multiplexer {
    /// `n` bars, all outstanding, none drawn.
    pub fn new(n: usize) -> (m: Multiplexer)
        ensures
            m.outstanding@ == Seq::new(n as nat, |_i: int| true),
            m.draw_states@ == Seq::new(n as nat, |_i: int| None::<Vec<String>>),
    {
        let mut outstanding: Vec<bool> = Vec::new();
        let mut draw_states: Vec<Option<Vec<String>>> = Vec::new();
        let mut i: usize = 0;
        while i < n
            invariant
                i <= n,
                outstanding@ == Seq::new(i as nat, |_i: int| true),
                draw_states@ == Seq::new(i as nat, |_i: int| None::<Vec<String>>),
            decreases n - i,
        {
            outstanding.push(true);
            draw_states.push(None);
            i = i + 1;
            assert(outstanding@ =~= Seq::new(i as nat, |_i: int| true));
            assert(draw_states@ =~= Seq::new(i as nat, |_i: int| None::<Vec<String>>));
        }
        Multiplexer { outstanding, draw_states }
    }

    /// Whether some bar has not finished.
    pub fn any_outstanding(&self) -> (b: bool)
        ensures
            b == exists|i: int| 0 <= i < self.outstanding.len() && #[trigger] self.outstanding@[i],
    {
        let mut i: usize = 0;
        while i < self.outstanding.len()
            invariant
                i <= self.outstanding.len(),
                forall|j: int| 0 <= j < i ==> !#[trigger] self.outstanding@[j],
            decreases self.outstanding.len() - i,
        {
            if self.outstanding[i] {
                assert(self.outstanding@[i as int]);
                return true;
            }
            i = i + 1;
        }
        false
    }

    /// Handles an update of bar `idx`, as `redraw_ops` says; a finished bar
    /// is no longer outstanding.
    pub fn update(&mut self, idx: usize, lines: Vec<String>, finished: bool) -> (ops: Vec<TermOp>)
        requires
            idx < old(self).outstanding.len(),
            idx < old(self).draw_states.len(),
            stored_lines(old(self).draw_states@) <= usize::MAX,
        ensures
            final(self).outstanding@ == if finished {
                old(self).outstanding@.update(idx as int, false)
            } else {
                old(self).outstanding@
            },
            final(self).draw_states@ == old(self).draw_states@.update(idx as int, Some(lines)),
            op_views(ops@) == redraw_ops(old(self).draw_states@, final(self).draw_states@),
    {
        if finished {
            self.outstanding.set(idx, false);
        }
        let to_clear = count_lines(&self.draw_states);
        let mut ops: Vec<TermOp> = Vec::new();
        push_op(&mut ops, TermOp::ClearLastLines(to_clear));
        self.draw_states.set(idx, Some(lines));
        push_all_lines(&mut ops, &self.draw_states);
        push_op(&mut ops, TermOp::Flush);
        assert(op_views(ops@) =~= redraw_ops(old(self).draw_states@, self.draw_states@));
        ops
    }

    /// Clears every line drawn, once all bars finished.
    pub fn finish(&self) -> (ops: Vec<TermOp>)
        requires
            stored_lines(self.draw_states@) <= usize::MAX,
        ensures
            op_views(ops@) == seq![Op::ClearLast(stored_lines(self.draw_states@))],
    {
        let mut ops: Vec<TermOp> = Vec::new();
        push_op(&mut ops, TermOp::ClearLastLines(count_lines(&self.draw_states)));
        assert(op_views(ops@) =~= seq![Op::ClearLast(stored_lines(self.draw_states@))]);
        ops
    }
}

proof fn lemma_views_push(v: Seq<String>, s: String)
    ensures
        views(v.push(s)) == views(v).push(s@),
{
    assert(views(v.push(s)) =~= views(v).push(s@));
}

proof fn lemma_stored_prefix(states: Seq<Option<Vec<String>>>, k: int)
    requires
        0 <= k <= states.len(),
    ensures
        stored_lines(states.take(k)) <= stored_lines(states),
    decreases states.len() - k,
{
    if k < states.len() {
        lemma_stored_prefix(states, k + 1);
        assert(states.take(k + 1).drop_last() =~= states.take(k));
    } else {
        assert(states.take(k) =~= states);
    }
}

fn count_lines(states: &Vec<Option<Vec<String>>>) -> (n: usize)
    requires
        stored_lines(states@) <= usize::MAX,
    ensures
        n == stored_lines(states@),
{
    let mut total: usize = 0;
    let mut i: usize = 0;
    while i < states.len()
        invariant
            i <= states.len(),
            stored_lines(states@) <= usize::MAX,
            total == stored_lines(states@.take(i as int)),
        decreases states.len() - i,
    {
        proof {
            assert(states@.take(i + 1).drop_last() =~= states@.take(i as int));
            lemma_stored_prefix(states@, i + 1);
        }
        let add = match &states[i] {
            Some(v) => v.len(),
            None => 0,
        };
        total = total + add;
        i = i + 1;
    }
    assert(states@.take(states.len() as int) =~= states@);
    total
}

fn push_all_lines(ops: &mut Vec<TermOp>, states: &Vec<Option<Vec<String>>>)
    ensures
        op_views(final(ops)@) == op_views(old(ops)@) + all_lines(states@).map_values(|l: Seq<char>| Op::Line(l)),
{
    let ghost start = op_views(ops@);
    let mut i: usize = 0;
    while i < states.len()
        invariant
            i <= states.len(),
            op_views(ops@) == start + all_lines(states@.take(i as int)).map_values(|l: Seq<char>| Op::Line(l)),
        decreases states.len() - i,
    {
        assert(states@.take(i + 1).drop_last() =~= states@.take(i as int));
        let ghost mid = op_views(ops@);
        match &states[i] {
            Some(v) => {
                let mut k: usize = 0;
                while k < v.len()
                    invariant
                        k <= v.len(),
                        op_views(ops@) == mid + views(v@).take(k as int).map_values(|l: Seq<char>| Op::Line(l)),
                    decreases v.len() - k,
                {
                    push_op(ops, TermOp::WriteLine(v[k].clone()));
                    k = k + 1;
                    assert(op_views(ops@) =~= mid + views(v@).take(k as int).map_values(|l: Seq<char>| Op::Line(l)));
                }
                assert(views(v@).take(v.len() as int) =~= views(v@));
            },
            None => {},
        }
        i = i + 1;
        assert(op_views(ops@) =~= start + all_lines(states@.take(i as int)).map_values(|l: Seq<char>| Op::Line(l)));
    }
    assert(states@.take(states.len() as int) =~= states@);
}

} // verus!
