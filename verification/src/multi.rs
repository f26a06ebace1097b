//! Bookkeeping of several progress bars drawn together: their order, the
//! slots that removed bars free, and the lines of bars that were dropped.
use vstd::prelude::*;

use crate::draw::{checked_visual_line_count, rows_of, rows_of_range, views, DrawState, LineAdjust, VisualLines};

verus! {

/// Vertical alignment of a multi progress, which matters when some of its
/// progress bars get removed.
#[derive(Copy, Clone, Debug, PartialEq, Eq, Structural)]
pub enum MultiProgressAlignment {
    Top,
    Bottom,
}

impl MultiProgressAlignment {
    /// The default alignment, `Top`.
    pub fn default_alignment() -> (a: MultiProgressAlignment)
        ensures
            a == MultiProgressAlignment::Top,
    {
        MultiProgressAlignment::Top
    }
}


/// Where a new bar goes among the others.
#[derive(Copy, Clone, Debug)]
pub enum InsertLocation {
    /// Below all others.
    End,
    /// At this position, or at the end when there are fewer bars.
    Index(usize),
    /// At this position counted from the end, or at the start when there
    /// are fewer bars.
    IndexFromBack(usize),
    /// Right after the bar in this slot.
    After(usize),
    /// Right before the bar in this slot.
    Before(usize),
}

/// A member of a multi progress: the lines it last drew, if any, and
/// whether its bar was dropped.
#[derive(Clone, Debug)]
pub struct MultiStateMember {
    pub draw_state: Option<DrawState>,
    pub is_zombie: bool,
}

impl MultiStateMember {
    /// A member that has not drawn and whose bar is alive.
    pub open spec fn fresh(self) -> bool {
        &&& self.draw_state is None
        &&& !self.is_zombie
    }

    pub fn new() -> (m: MultiStateMember)
        ensures
            m.fresh(),
    {
        MultiStateMember { draw_state: None, is_zombie: false }
    }
}

/// The position of `x` in `s`.
pub open spec fn position(s: Seq<usize>, x: usize) -> int {
    choose|i: int| 0 <= i < s.len() && s[i] == x
}

/// Whether a location can be used: a bar to insert after or before must be
/// among the ordered bars.
/// How a bar stands to a multi progress: drawing elsewhere, drawing through
/// it from a slot, or drawing through another multi progress.
#[derive(Copy, Clone, Debug, PartialEq, Eq, Structural)]
pub enum Membership {
    Outside,
    Member(usize),
    Other,
}

pub open spec fn location_ok(order: Seq<usize>, loc: InsertLocation) -> bool {
    match loc {
        InsertLocation::After(a) => order.contains(a),
        InsertLocation::Before(b) => order.contains(b),
        _ => true,
    }
}

/// The position in the order where a new bar goes.
pub open spec fn insert_pos(order: Seq<usize>, loc: InsertLocation) -> int {
    match loc {
        InsertLocation::End => order.len() as int,
        InsertLocation::Index(p) => if p < order.len() {
            p as int
        } else {
            order.len() as int
        },
        InsertLocation::IndexFromBack(p) => if p >= order.len() {
            0
        } else {
            order.len() - p
        },
        InsertLocation::After(a) => position(order, a) + 1,
        InsertLocation::Before(b) => position(order, b),
    }
}

/// Rows that a member's lines take.
pub open spec fn member_rows(m: MultiStateMember, width: nat) -> nat {
    match m.draw_state {
        Some(d) => rows_of(views(d.lines@), width),
        None => 0,
    }
}

/// The lines of a member.
pub open spec fn member_lines(m: MultiStateMember) -> Seq<Seq<char>> {
    match m.draw_state {
        Some(d) => views(d.lines@),
        None => Seq::empty(),
    }
}

/// The bookkeeping of a multi progress: a slot per bar ever added (slots of
/// removed bars are reused), the order in which the bars are drawn, the
/// lines printed above all bars, and how many rows of dropped bars are
/// still on the screen.
pub struct MultiState {
    members: Vec<MultiStateMember>,
    free_set: Vec<usize>,
    ordering: Vec<usize>,
    alignment: MultiProgressAlignment,
    orphan_lines: Vec<String>,
    zombie_lines_count: VisualLines,
}

impl MultiState {
    /// The slots of the bars, in the order they are drawn.
    pub closed spec fn order(self) -> Seq<usize> {
        self.ordering@
    }

    /// The slots of removed bars, free for reuse; the last is reused first.
    pub closed spec fn free(self) -> Seq<usize> {
        self.free_set@
    }

    /// How many slots there are.
    pub closed spec fn slots(self) -> nat {
        self.members.len() as nat
    }

    /// The member in slot `i`.
    pub closed spec fn member(self, i: int) -> MultiStateMember {
        self.members@[i]
    }

    /// Lines printed above all bars, not yet drawn.
    pub closed spec fn orphans(self) -> Seq<Seq<char>> {
        views(self.orphan_lines@)
    }

    /// Rows of dropped bars still on the screen.
    pub closed spec fn zombie_lines(self) -> nat {
        self.zombie_lines_count.0 as nat
    }

    pub closed spec fn align(self) -> MultiProgressAlignment {
        self.alignment
    }

    /// The order and the free slots share no slot, hold each slot at most
    /// once, and together hold every slot.
    pub closed spec fn wf(self) -> bool {
        &&& self.ordering@.no_duplicates()
        &&& self.free_set@.no_duplicates()
        &&& forall|i: int| 0 <= i < self.ordering.len() ==> #[trigger] self.ordering@[i] < self.members.len()
        &&& forall|i: int| 0 <= i < self.free_set.len() ==> #[trigger] self.free_set@[i] < self.members.len()
        &&& forall|i: int| 0 <= i < self.ordering.len() ==> !self.free_set@.contains(#[trigger] self.ordering@[i])
        &&& forall|k: usize| k < self.members.len() ==> self.ordering@.contains(k) || self.free_set@.contains(k)
        &&& self.ordering.len() + self.free_set.len() == self.members.len()
    }

    /// What a well-formed state keeps: each slot is either drawn or free,
    /// never both, and appears only once; so the number of bars drawn is the
    /// number of slots less the free ones.
    pub proof fn law_slots_partitioned(self)
        requires
            self.wf(),
        ensures
            self.order().no_duplicates(),
            self.free().no_duplicates(),
            forall|i: int| 0 <= i < self.order().len() ==> #[trigger] self.order()[i] < self.slots(),
            forall|i: int| 0 <= i < self.free().len() ==> #[trigger] self.free()[i] < self.slots(),
            forall|i: int| 0 <= i < self.order().len() ==> !self.free().contains(#[trigger] self.order()[i]),
            forall|k: usize| k < self.slots() ==> self.order().contains(k) || self.free().contains(k),
            self.order().len() + self.free().len() == self.slots(),
    {
    }

    /// An empty multi progress with the default alignment.
    pub fn new() -> (s: MultiState)
        ensures
            s.wf(),
            s.order().len() == 0,
            s.free().len() == 0,
            s.slots() == 0,
            s.orphans().len() == 0,
            s.zombie_lines() == 0,
            s.align() == MultiProgressAlignment::Top,
    {
        let s = MultiState {
            members: Vec::new(),
            free_set: Vec::new(),
            ordering: Vec::new(),
            alignment: MultiProgressAlignment::default_alignment(),
            orphan_lines: Vec::new(),
            zombie_lines_count: VisualLines(0),
        };
        assert(views(s.orphan_lines@) =~= Seq::<Seq<char>>::empty());
        s
    }

    /// Sets the alignment.
    pub fn set_alignment(&mut self, alignment: MultiProgressAlignment)
        requires
            old(self).wf(),
        ensures
            final(self).wf(),
            final(self).align() == alignment,
            final(self).order() == old(self).order(),
            final(self).free() == old(self).free(),
            final(self).slots() == old(self).slots(),
            forall|i: int| #[trigger] final(self).member(i) == old(self).member(i),
            final(self).orphans() == old(self).orphans(),
            final(self).zombie_lines() == old(self).zombie_lines(),
    {
        self.alignment = alignment;
    }

    /// The alignment.
    pub fn alignment(&self) -> (a: MultiProgressAlignment)
        ensures
            a == self.align(),
    {
        self.alignment
    }

    /// How many bars there are: the slots that are not free.  This is
    /// always the number of bars in the order.
    pub fn len(&self) -> (n: usize)
        requires
            self.wf(),
        ensures
            n == self.slots() - self.free().len(),
            n == self.order().len(),
    {
        self.members.len() - self.free_set.len()
    }

    /// Hands over the rows of dropped bars on the screen, for a clear that
    /// wipes them, and forgets them.
    pub fn take_zombie_lines(&mut self) -> (c: VisualLines)
        requires
            old(self).wf(),
        ensures
            final(self).wf(),
            c.0 == old(self).zombie_lines(),
            final(self).zombie_lines() == 0,
            final(self).same_but_zombie_lines(*old(self)),
    {
        let c = self.zombie_lines_count;
        self.zombie_lines_count = VisualLines(0);
        c
    }

    /// The slots of the bars in the order they are drawn.
    pub fn ordering(&self) -> (v: &Vec<usize>)
        ensures
            v@ == self.order(),
    {
        &self.ordering
    }

    /// The free slots.
    pub fn free_set(&self) -> (v: &Vec<usize>)
        ensures
            v@ == self.free(),
    {
        &self.free_set
    }

    /// The number of slots.
    pub fn members_len(&self) -> (n: usize)
        ensures
            n == self.slots(),
    {
        self.members.len()
    }

    /// The member in slot `i`.
    pub fn member_at(&self, i: usize) -> (m: &MultiStateMember)
        requires
            i < self.slots(),
        ensures
            *m == self.member(i as int),
    {
        &self.members[i]
    }

    /// `new` is `old` with a bar added at `location` in slot `idx`, as
    /// `insert` does it.
    pub open spec fn inserted(old: MultiState, new: MultiState, location: InsertLocation, idx: usize) -> bool {
        &&& new.wf()
        &&& old.free().len() > 0 ==> {
            &&& idx == old.free().last()
            &&& new.free() == old.free().drop_last()
            &&& new.slots() == old.slots()
        }
        &&& old.free().len() == 0 ==> {
            &&& idx == old.slots()
            &&& new.free() == old.free()
            &&& new.slots() == old.slots() + 1
        }
        &&& new.order() == old.order().insert(insert_pos(old.order(), location), idx)
        &&& new.member(idx as int).fresh()
        &&& forall|j: int| 0 <= j < old.slots() && j != idx ==> #[trigger] new.member(j) == old.member(j)
        &&& new.orphans() == old.orphans()
        &&& new.zombie_lines() == old.zombie_lines()
        &&& new.align() == old.align()
    }

    /// Adds a bar unless it is already a member, which changes nothing: a
    /// bar outside any multi progress, or drawing through another one, is
    /// added at `location`.  Gives the slot of the added bar.
    pub fn add_bar(&mut self, membership: Membership, location: InsertLocation) -> (r: Option<usize>)
        requires
            old(self).wf(),
            !(membership is Member) ==> location_ok(old(self).order(), location) && old(self).slots() < usize::MAX,
        ensures
            final(self).wf(),
            membership is Member ==> r is None && *final(self) == *old(self),
            !(membership is Member) ==> (r matches Some(idx) && MultiState::inserted(
                *old(self),
                *final(self),
                location,
                idx,
            )),
    {
        match membership {
            Membership::Member(_) => None,
            _ => Some(self.insert(location)),
        }
    }

    /// Removes a bar that is a member, from its slot; a bar outside any
    /// multi progress or of another one is left alone.  Gives whether the bar
    /// was removed.
    pub fn remove_bar(&mut self, membership: Membership) -> (removed: bool)
        requires
            old(self).wf(),
            membership matches Membership::Member(i) ==> i < old(self).slots(),
        ensures
            final(self).wf(),
            removed == membership is Member,
            !removed ==> *final(self) == *old(self),
            membership matches Membership::Member(idx) ==> {
                &&& final(self).slots() == old(self).slots()
                &&& final(self).orphans() == old(self).orphans()
                &&& final(self).zombie_lines() == old(self).zombie_lines()
                &&& final(self).align() == old(self).align()
                &&& old(self).free().contains(idx) ==> {
                    &&& final(self).order() == old(self).order()
                    &&& final(self).free() == old(self).free()
                }
                &&& !old(self).free().contains(idx) ==> {
                    &&& final(self).order() == old(self).order().remove(position(old(self).order(), idx))
                    &&& final(self).free() == old(self).free().push(idx)
                    &&& final(self).member(idx as int).fresh()
                }
            },
    {
        match membership {
            Membership::Member(idx) => {
                self.remove_idx(idx);
                true
            },
            _ => false,
        }
    }

    /// Adds a bar at `location` and returns its slot: the last freed slot
    /// when there is one, else a new slot at the end.  A location relative to
    /// a bar needs that bar to be among the ordered ones.
    pub fn insert(&mut self, location: InsertLocation) -> (idx: usize)
        requires
            old(self).wf(),
            location_ok(old(self).order(), location),
            old(self).slots() < usize::MAX,
        ensures
            final(self).wf(),
            old(self).free().len() > 0 ==> {
                &&& idx == old(self).free().last()
                &&& final(self).free() == old(self).free().drop_last()
                &&& final(self).slots() == old(self).slots()
            },
            old(self).free().len() == 0 ==> {
                &&& idx == old(self).slots()
                &&& final(self).free() == old(self).free()
                &&& final(self).slots() == old(self).slots() + 1
            },
            final(self).order() == old(self).order().insert(insert_pos(old(self).order(), location), idx),
            final(self).member(idx as int).fresh(),
            forall|j: int| 0 <= j < old(self).slots() && j != idx ==> #[trigger] final(self).member(j) == old(self).member(j),
            final(self).orphans() == old(self).orphans(),
            final(self).zombie_lines() == old(self).zombie_lines(),
            final(self).align() == old(self).align(),
    {
        let ghost old_order = self.ordering@;
        let ghost old_free = self.free_set@;
        let ghost n = self.members.len();
        let idx = match self.free_set.pop() {
            Some(i) => {
                self.members.set(i, MultiStateMember::new());
                i
            },
            None => {
                self.members.push(MultiStateMember::new());
                self.members.len() - 1
            },
        };
        proof {
            if old_free.len() > 0 {
                assert(old_free.contains(idx));
                assert(old_free.drop_last() =~= self.free_set@);
            }
            assert(!old_order.contains(idx)) by {
                if old_order.contains(idx) {
                    let k = choose|k: int| 0 <= k < old_order.len() && old_order[k] == idx;
                    assert(old_order[k] == idx);
                }
            }
        }
        let pos: usize = match location {
            InsertLocation::End => self.ordering.len(),
            InsertLocation::Index(p) => if p < self.ordering.len() {
                p
            } else {
                self.ordering.len()
            },
            InsertLocation::IndexFromBack(p) => self.ordering.len().saturating_sub(p),
            InsertLocation::After(a) => find(&self.ordering, a) + 1,
            InsertLocation::Before(b) => find(&self.ordering, b),
        };
        self.ordering.insert(pos, idx);
        proof {
            lemma_insert_no_dup(old_order, pos as int, idx);
            let ord = self.ordering@;
            assert forall|i: int| 0 <= i < ord.len() implies #[trigger] ord[i] < self.members.len() by {
                if i < pos {
                    assert(ord[i] == old_order[i]);
                } else if i > pos {
                    assert(ord[i] == old_order[i - 1]);
                }
            }
            assert forall|i: int| 0 <= i < ord.len() implies !self.free_set@.contains(#[trigger] ord[i]) by {
                if i == pos {
                    if self.free_set@.contains(idx) {
                        let k = choose|k: int| 0 <= k < self.free_set@.len() && self.free_set@[k] == idx;
                        assert(old_free[k] == idx);
                        assert(old_free.last() == idx);
                    }
                } else {
                    let x = if i < pos { old_order[i] } else { old_order[i - 1] };
                    assert(ord[i] == x);
                    if self.free_set@.contains(x) {
                        let k = choose|k: int| 0 <= k < self.free_set@.len() && self.free_set@[k] == x;
                        assert(old_free[k] == x);
                        assert(old_free.contains(x));
                    }
                    assert(old_order.contains(x));
                }
            }
            assert forall|k: usize| k < self.members.len() implies ord.contains(k) || self.free_set@.contains(k) by {
                if k == idx {
                    assert(ord[pos as int] == idx);
                } else {
                    assert(k < n);
                    if old_order.contains(k) {
                        let j = choose|j: int| 0 <= j < old_order.len() && old_order[j] == k;
                        if j < pos {
                            assert(ord[j] == k);
                        } else {
                            assert(ord[j + 1] == k);
                        }
                    } else {
                        assert(old_free.contains(k));
                        let j = choose|j: int| 0 <= j < old_free.len() && old_free[j] == k;
                        if old_free.len() > 0 && j == old_free.len() - 1 {
                            assert(k == idx);
                        }
                        assert(self.free_set@[j] == k);
                    }
                }
            }
            assert forall|i: int| 0 <= i < self.free_set.len() implies #[trigger] self.free_set@[i] < self.members.len() by {
                assert(self.free_set@[i] == old_free[i]);
            }
        }
        idx
    }

    /// Removes the bar in slot `idx`: nothing happens when the slot is
    /// already free; otherwise the slot is emptied and freed and the bar
    /// leaves the order.
    pub fn remove_idx(&mut self, idx: usize)
        requires
            old(self).wf(),
            idx < old(self).slots(),
        ensures
            final(self).wf(),
            final(self).slots() == old(self).slots(),
            old(self).free().contains(idx) ==> {
                &&& final(self).order() == old(self).order()
                &&& final(self).free() == old(self).free()
                &&& forall|j: int| #[trigger] final(self).member(j) == old(self).member(j)
            },
            !old(self).free().contains(idx) ==> {
                &&& old(self).order().contains(idx)
                &&& final(self).order() == old(self).order().remove(position(old(self).order(), idx))
                &&& final(self).free() == old(self).free().push(idx)
                &&& final(self).member(idx as int).fresh()
                &&& forall|j: int| 0 <= j < old(self).slots() && j != idx ==> #[trigger] final(self).member(j) == old(self).member(j)
            },
            final(self).orphans() == old(self).orphans(),
            final(self).zombie_lines() == old(self).zombie_lines(),
            final(self).align() == old(self).align(),
    {
        if contains(&self.free_set, idx) {
            return;
        }
        let ghost old_order = self.ordering@;
        let ghost old_free = self.free_set@;
        assert(old_order.contains(idx));
        self.members.set(idx, MultiStateMember::new());
        self.free_set.push(idx);
        let pos = find(&self.ordering, idx);
        self.ordering.remove(pos);
        proof {
            let ord = self.ordering@;
            assert(ord =~= old_order.remove(pos as int));
            assert forall|i: int| 0 <= i < ord.len() implies #[trigger] ord[i] < self.members.len() by {
                if i < pos {
                    assert(ord[i] == old_order[i]);
                } else {
                    assert(ord[i] == old_order[i + 1]);
                }
            }
            assert(ord.no_duplicates()) by {
                assert forall|i: int, j: int| 0 <= i < ord.len() && 0 <= j < ord.len() && i != j implies ord[i] != ord[j] by {
                    let oi = if i < pos { i } else { i + 1 };
                    let oj = if j < pos { j } else { j + 1 };
                    assert(ord[i] == old_order[oi]);
                    assert(ord[j] == old_order[oj]);
                }
            }
            assert(self.free_set@.no_duplicates()) by {
                assert forall|i: int, j: int| 0 <= i < self.free_set.len() && 0 <= j < self.free_set.len() && i != j implies self.free_set@[i] != self.free_set@[j] by {
                    if i < old_free.len() && j < old_free.len() {
                        assert(self.free_set@[i] == old_free[i]);
                        assert(self.free_set@[j] == old_free[j]);
                    } else if i < old_free.len() {
                        assert(self.free_set@[i] == old_free[i]);
                        assert(old_free.contains(old_free[i]));
                    } else {
                        assert(self.free_set@[j] == old_free[j]);
                        assert(old_free.contains(old_free[j]));
                    }
                }
            }
            assert forall|i: int| 0 <= i < ord.len() implies !self.free_set@.contains(#[trigger] ord[i]) by {
                let oi = if i < pos { i } else { i + 1 };
                assert(ord[i] == old_order[oi]);
                assert(oi != pos);
                if self.free_set@.contains(ord[i]) {
                    let k = choose|k: int| 0 <= k < self.free_set@.len() && self.free_set@[k] == ord[i];
                    if k < old_free.len() {
                        assert(old_free[k] == ord[i]);
                        assert(old_free.contains(old_order[oi]));
                    } else {
                        assert(ord[i] == idx);
                    }
                }
            }
            assert forall|k: usize| k < self.members.len() implies ord.contains(k) || self.free_set@.contains(k) by {
                if k == idx {
                    assert(self.free_set@[old_free.len() as int] == idx);
                } else if old_order.contains(k) {
                    let j = choose|j: int| 0 <= j < old_order.len() && old_order[j] == k;
                    assert(j != pos);
                    if j < pos {
                        assert(ord[j] == k);
                    } else {
                        assert(ord[j - 1] == k);
                    }
                } else {
                    let j = choose|j: int| 0 <= j < old_free.len() && old_free[j] == k;
                    assert(self.free_set@[j] == k);
                }
            }
            assert forall|i: int| 0 <= i < self.free_set.len() implies #[trigger] self.free_set@[i] < self.members.len() by {
                if i < old_free.len() {
                    assert(self.free_set@[i] == old_free[i]);
                }
            }
            assert(position(old_order, idx) == pos) by {
                let c = position(old_order, idx);
                assert(old_order[pos as int] == idx);
            }
        }
    }
}

/// The position of `x` in `v`, which holds it exactly once.
fn find(v: &Vec<usize>, x: usize) -> (i: usize)
    requires
        v@.contains(x),
        v@.no_duplicates(),
    ensures
        i < v.len(),
        v@[i as int] == x,
        i == position(v@, x),
{
    let mut i: usize = 0;
    while i < v.len()
        invariant
            i <= v.len(),
            v@.contains(x),
            v@.no_duplicates(),
            forall|j: int| 0 <= j < i ==> v@[j] != x,
        decreases v.len() - i,
    {
        if v[i] == x {
            proof {
                let k = choose|k: int| 0 <= k < v@.len() && v@[k] == x;
                assert(v@[k] == x);
                let c = position(v@, x);
                assert(0 <= c < v@.len() && v@[c] == x);
                if c != i {
                    assert(v@[c] != v@[i as int]);
                }
            }
            return i;
        }
        i = i + 1;
    }
    let ghost k = choose|k: int| 0 <= k < v@.len() && v@[k] == x;
    assert(v@[k] == x);
    0
}

/// Whether `v` holds `x`.
fn contains(v: &Vec<usize>, x: usize) -> (b: bool)
    ensures
        b == v@.contains(x),
{
    let mut i: usize = 0;
    while i < v.len()
        invariant
            i <= v.len(),
            forall|j: int| 0 <= j < i ==> v@[j] != x,
        decreases v.len() - i,
    {
        if v[i] == x {
            assert(v@[i as int] == x);
            return true;
        }
        i = i + 1;
    }
    false
}

/// Adding a bar and removing it again leaves the other bars in the order
/// they had.
pub proof fn law_insert_then_remove(order: Seq<usize>, pos: int, idx: usize)
    requires
        order.no_duplicates(),
        !order.contains(idx),
        0 <= pos <= order.len(),
    ensures
        order.insert(pos, idx).remove(position(order.insert(pos, idx), idx)) == order,
{
    let t = order.insert(pos, idx);
    lemma_insert_no_dup(order, pos, idx);
    assert(t[pos] == idx);
    let c = position(t, idx);
    assert(0 <= c < t.len() && t[c] == idx);
    if c != pos {
        assert(t[c] != t[pos]);
    }
    assert(t.remove(pos) =~= order);
}

/// The slot of the bar removed last is the slot the next added bar gets:
/// removing pushes the slot on the free slots, and adding takes the last
/// free slot.
pub proof fn law_removed_slot_reused(free: Seq<usize>, idx: usize)
    ensures
        free.push(idx).len() > 0,
        free.push(idx).last() == idx,
        free.push(idx).drop_last() == free,
{
    assert(free.push(idx).drop_last() =~= free);
}

proof fn lemma_insert_no_dup(s: Seq<usize>, p: int, x: usize)
    requires
        s.no_duplicates(),
        !s.contains(x),
        0 <= p <= s.len(),
    ensures
        s.insert(p, x).no_duplicates(),
{
    let t = s.insert(p, x);
    assert forall|i: int, j: int| 0 <= i < t.len() && 0 <= j < t.len() && i != j implies t[i] != t[j] by {
        if i != p && j != p {
            let oi = if i < p { i } else { i - 1 };
            let oj = if j < p { j } else { j - 1 };
            assert(t[i] == s[oi]);
            assert(t[j] == s[oj]);
        } else if i == p {
            let oj = if j < p { j } else { j - 1 };
            assert(t[j] == s[oj]);
        } else {
            let oi = if i < p { i } else { i - 1 };
            assert(t[i] == s[oi]);
        }
    }
}


/// What a draw of a multi progress settles before it reaches the terminal:
/// the slots of the dropped bars at the head of the order, which are drawn
/// one last time and then removed; the rows they take; the rows of dropped
/// bars the target must clear first, where the draw prints lines above the
/// bars; and whether the draw is forced.
pub struct DrawPrep {
    pub reap_indices: Vec<usize>,
    pub adjust: VisualLines,
    pub clear: Option<VisualLines>,
    pub force_draw: bool,
}

impl MultiState {
    /// The position in the order of the first bar, at `i` or later, that was
    /// not dropped.
    pub open spec fn lead_from(self, i: nat) -> nat
        decreases self.order().len() - i,
    {
        if i >= self.order().len() || !self.member(self.order()[i as int] as int).is_zombie {
            i
        } else {
            self.lead_from(i + 1)
        }
    }

    /// How many dropped bars lead the order.
    pub open spec fn leading_zombies(self) -> nat {
        self.lead_from(0)
    }

    /// Rows that the first `k` bars of the order take.
    pub open spec fn rows_upto(self, k: nat, width: nat) -> nat
        decreases k,
    {
        if k == 0 {
            0
        } else {
            self.rows_upto((k - 1) as nat, width) + member_rows(self.member(self.order()[k - 1] as int), width)
        }
    }

    /// The lines of the first `k` bars of the order, one after the other.
    pub open spec fn lines_upto(self, k: nat) -> Seq<Seq<char>>
        decreases k,
    {
        if k == 0 {
            Seq::empty()
        } else {
            self.lines_upto((k - 1) as nat) + member_lines(self.member(self.order()[k - 1] as int))
        }
    }

    /// Everything but the rows of dropped bars on the screen is as before.
    pub open spec fn same_but_zombie_lines(self, other: MultiState) -> bool {
        &&& self.order() == other.order()
        &&& self.free() == other.free()
        &&& self.slots() == other.slots()
        &&& forall|i: int| #[trigger] self.member(i) == other.member(i)
        &&& self.orphans() == other.orphans()
        &&& self.align() == other.align()
    }

    /// Marks the bar in slot `index` as dropped.  A bar that is not the first
    /// of the order is only flagged, and the flag is returned as `None`.  The
    /// first bar is removed right away: its rows (none without a width or
    /// without lines) count as rows of dropped bars on the screen, and the
    /// target is told to keep them.
    pub fn mark_zombie(&mut self, index: usize, width: Option<usize>) -> (adj: Option<LineAdjust>)
        requires
            old(self).wf(),
            index < old(self).slots(),
            old(self).order().len() > 0,
            width matches Some(w) ==> member_rows(old(self).member(index as int), w as nat) <= usize::MAX,
        ensures
            final(self).wf(),
            final(self).slots() == old(self).slots(),
            final(self).orphans() == old(self).orphans(),
            final(self).align() == old(self).align(),
            index != old(self).order()[0] ==> {
                &&& adj is None
                &&& final(self).order() == old(self).order()
                &&& final(self).free() == old(self).free()
                &&& final(self).zombie_lines() == old(self).zombie_lines()
                &&& final(self).member(index as int) == (MultiStateMember { is_zombie: true, ..old(self).member(index as int) })
                &&& forall|j: int| 0 <= j < old(self).slots() && j != index ==> #[trigger] final(self).member(j) == old(self).member(j)
            },
            index == old(self).order()[0] ==> {
                let lc: nat = match width {
                    Some(w) => member_rows(old(self).member(index as int), w as nat),
                    None => 0,
                };
                &&& adj matches Some(LineAdjust::Keep(c)) && c.0 == lc
                &&& final(self).zombie_lines() == if old(self).zombie_lines() + lc > usize::MAX {
                    usize::MAX as nat
                } else {
                    old(self).zombie_lines() + lc
                }
                &&& final(self).order() == old(self).order().skip(1)
                &&& final(self).free() == old(self).free().push(index)
                &&& final(self).member(index as int).fresh()
                &&& forall|j: int| 0 <= j < old(self).slots() && j != index ==> #[trigger] final(self).member(j) == old(self).member(j)
            },
    {
        if index != self.ordering[0] {
            let mut m = MultiStateMember::new();
            self.members.set_and_swap(index, &mut m);
            m.is_zombie = true;
            self.members.set_and_swap(index, &mut m);
            return None;
        }
        let line_count: usize = match width {
            Some(w) => match &self.members[index].draw_state {
                Some(d) => {
                    proof {
                        assert(views(d.lines@).subrange(0, d.lines.len() as int) =~= views(d.lines@));
                    }
                    d.visual_line_count(0, d.lines.len(), w).0
                },
                None => 0,
            },
            None => 0,
        };
        self.zombie_lines_count = self.zombie_lines_count.saturating_add(VisualLines(line_count));
        proof {
            let ord = self.ordering@;
            assert(ord[0] == index);
            assert(!self.free_set@.contains(ord[0]));
            let c = position(ord, index);
            assert(0 <= c < ord.len() && ord[c] == index);
            if c != 0 {
                assert(ord[c] != ord[0]);
            }
            assert(ord.remove(0) =~= ord.skip(1));
        }
        self.remove_idx(index);
        Some(LineAdjust::Keep(VisualLines(line_count)))
    }

    /// Settles a draw as `DrawPrep` says, for a terminal `width` columns
    /// wide: counts the leading dropped bars and their rows, adds those rows
    /// to the rows of dropped bars on the screen, and, where the draw prints
    /// lines above the bars (`extra_lines`), hands all those rows to the
    /// target to clear and forgets them.  A draw with orphan lines to print
    /// is forced.
    pub fn prepare_draw(&mut self, force_draw: bool, extra_lines: bool, width: usize) -> (p: DrawPrep)
        requires
            old(self).wf(),
            old(self).zombie_lines() + old(self).rows_upto(old(self).leading_zombies(), width as nat) <= usize::MAX,
            rows_of(old(self).orphans(), width as nat) <= usize::MAX,
        ensures
            final(self).wf(),
            final(self).same_but_zombie_lines(*old(self)),
            p.reap_indices@ == old(self).order().take(old(self).leading_zombies() as int),
            p.adjust.0 == old(self).rows_upto(old(self).leading_zombies(), width as nat),
            extra_lines ==> {
                &&& p.clear == Some(VisualLines((old(self).zombie_lines() + p.adjust.0) as usize))
                &&& final(self).zombie_lines() == 0
            },
            !extra_lines ==> {
                &&& p.clear is None
                &&& final(self).zombie_lines() == old(self).zombie_lines() + p.adjust.0
            },
            p.force_draw == (force_draw || rows_of(old(self).orphans(), width as nat) > 0),
    {
        let ghost lead = self.leading_zombies();
        let ghost start = *self;
        let mut reap: Vec<usize> = Vec::new();
        let mut adjust: usize = 0;
        let mut i: usize = 0;
        let mut done = false;
        proof {
            self.lemma_rows_upto_mono(lead, width as nat);
        }
        while i < self.ordering.len() && !done
            invariant
                *self == start,
                self.wf(),
                lead == self.leading_zombies(),
                i <= self.ordering.len(),
                done ==> i == lead,
                !done ==> self.lead_from(i as nat) == lead,
                i <= lead,
                reap@ == self.order().take(i as int),
                adjust == self.rows_upto(i as nat, width as nat),
                self.zombie_lines() + self.rows_upto(lead, width as nat) <= usize::MAX,
                forall|k: nat| k <= lead ==> #[trigger] self.rows_upto(k, width as nat) <= self.rows_upto(lead, width as nat),
            decreases self.ordering.len() - i + (if done { 0int } else { 1 }),
        {
            let index = self.ordering[i];
            assert(index < self.members.len());
            proof {
                self.lemma_lead_from_ge(i as nat);
            }
            if !self.members[index].is_zombie {
                done = true;
            } else {
                proof {
                    assert(self.lead_from(i as nat) == self.lead_from((i + 1) as nat));
                    self.lemma_lead_from_ge((i + 1) as nat);
                }
                let line_count: usize = match &self.members[index].draw_state {
                    Some(d) => {
                        proof {
                            assert(views(d.lines@).subrange(0, d.lines.len() as int) =~= views(d.lines@));
                            assert(self.rows_upto((i + 1) as nat, width as nat) <= self.rows_upto(lead, width as nat));
                        }
                        d.visual_line_count(0, d.lines.len(), width).0
                    },
                    None => 0,
                };
                proof {
                    assert(self.rows_upto((i + 1) as nat, width as nat) <= self.rows_upto(lead, width as nat));
                }
                adjust = adjust + line_count;
                reap.push(index);
                i = i + 1;
                assert(reap@ =~= self.order().take(i as int));
            }
        }
        let zombies = self.zombie_lines_count.0 + adjust;
        let clear = if extra_lines {
            self.zombie_lines_count = VisualLines(0);
            Some(VisualLines(zombies))
        } else {
            self.zombie_lines_count = VisualLines(zombies);
            None
        };
        proof {
            assert(views(self.orphan_lines@).subrange(0, self.orphan_lines.len() as int) =~= views(self.orphan_lines@));
        }
        let orphan_rows = rows_of_range(&self.orphan_lines, 0, self.orphan_lines.len(), width);
        DrawPrep { reap_indices: reap, adjust: VisualLines(adjust), clear, force_draw: force_draw || orphan_rows.0 > 0 }
    }

    /// Whether a draw for a terminal `width` columns wide can count its
    /// rows: those of the dropped bars on the screen and at the head of the
    /// order together, and those of the orphan lines.
    pub fn draw_fits(&self, width: usize) -> (b: bool)
        requires
            self.wf(),
        ensures
            b == (self.zombie_lines() + self.rows_upto(self.leading_zombies(), width as nat) <= usize::MAX
                && rows_of(self.orphans(), width as nat) <= usize::MAX),
    {
        let ghost lead = self.leading_zombies();
        let mut total: usize = self.zombie_lines_count.0;
        let mut i: usize = 0;
        let mut done = false;
        proof {
            self.lemma_rows_upto_mono(lead, width as nat);
        }
        while i < self.ordering.len() && !done
            invariant
                self.wf(),
                lead == self.leading_zombies(),
                i <= self.ordering.len(),
                done ==> i == lead,
                !done ==> self.lead_from(i as nat) == lead,
                i <= lead,
                total == self.zombie_lines() + self.rows_upto(i as nat, width as nat),
                forall|k: nat| k <= lead ==> #[trigger] self.rows_upto(k, width as nat) <= self.rows_upto(lead, width as nat),
            decreases self.ordering.len() - i + (if done { 0int } else { 1 }),
        {
            let index = self.ordering[i];
            assert(index < self.members.len());
            proof {
                self.lemma_lead_from_ge(i as nat);
            }
            if !self.members[index].is_zombie {
                done = true;
            } else {
                proof {
                    assert(self.lead_from(i as nat) == self.lead_from((i + 1) as nat));
                    self.lemma_lead_from_ge((i + 1) as nat);
                }
                let rows: usize = match &self.members[index].draw_state {
                    Some(d) => match checked_visual_line_count(&d.lines, width) {
                        Some(v) => v.0,
                        None => {
                            proof {
                                assert(self.rows_upto((i + 1) as nat, width as nat) <= self.rows_upto(lead, width as nat));
                            }
                            return false;
                        },
                    },
                    None => 0,
                };
                match total.checked_add(rows) {
                    Some(t) => total = t,
                    None => {
                        proof {
                            assert(self.rows_upto((i + 1) as nat, width as nat) <= self.rows_upto(lead, width as nat));
                        }
                        return false;
                    },
                }
                i = i + 1;
            }
        }
        match checked_visual_line_count(&self.orphan_lines, width) {
            Some(_) => true,
            None => false,
        }
    }

    proof fn lemma_lead_from_ge(self, i: nat)
        ensures
            self.lead_from(i) >= i,
        decreases self.order().len() - i,
    {
        if i < self.order().len() && self.member(self.order()[i as int] as int).is_zombie {
            self.lemma_lead_from_ge(i + 1);
        }
    }

    proof fn lemma_lines_upto_eq(self, other: MultiState, k: nat)
        requires
            self.order() == other.order(),
            forall|i: int| #[trigger] self.member(i) == other.member(i),
        ensures
            self.lines_upto(k) == other.lines_upto(k),
        decreases k,
    {
        if k > 0 {
            self.lemma_lines_upto_eq(other, (k - 1) as nat);
        }
    }

    proof fn lemma_rows_upto_mono(self, m: nat, width: nat)
        ensures
            forall|k: nat| k <= m ==> #[trigger] self.rows_upto(k, width) <= self.rows_upto(m, width),
        decreases m,
    {
        if m > 0 {
            self.lemma_rows_upto_mono((m - 1) as nat, width);
        }
    }

    /// The lines of a draw: the extra lines, then the orphan lines (which the
    /// draw prints and forgets), then the lines of each bar in order.
    pub fn collect_lines(&mut self, extra: Vec<String>) -> (lines: Vec<String>)
        requires
            old(self).wf(),
        ensures
            final(self).wf(),
            views(lines@) == views(extra@) + old(self).orphans() + old(self).lines_upto(old(self).order().len()),
            final(self).orphans().len() == 0,
            final(self).order() == old(self).order(),
            final(self).free() == old(self).free(),
            final(self).slots() == old(self).slots(),
            forall|i: int| #[trigger] final(self).member(i) == old(self).member(i),
            final(self).zombie_lines() == old(self).zombie_lines(),
            final(self).align() == old(self).align(),
    {
        let ghost orph = self.orphans();
        let ghost e = views(extra@);
        let mut lines = extra;
        let mut taken: Vec<String> = Vec::new();
        std::mem::swap(&mut taken, &mut self.orphan_lines);
        let ghost before = lines@;
        let ghost t = taken@;
        lines.append(&mut taken);
        proof {
            lemma_views_concat(before, t);
            assert(views(self.orphan_lines@) =~= Seq::<Seq<char>>::empty());
        }
        let ghost snapshot = *self;
        proof {
            self.lemma_lines_upto_eq(*old(self), self.order().len());
        }
        let mut i: usize = 0;
        while i < self.ordering.len()
            invariant
                self.wf(),
                *self == snapshot,
                i <= self.ordering.len(),
                views(lines@) == e + orph + self.lines_upto(i as nat),
            decreases self.ordering.len() - i,
        {
            let index = self.ordering[i];
            assert(index < self.members.len());
            let ghost at_start = views(lines@);
            match &self.members[index].draw_state {
                Some(d) => {
                    let mut k: usize = 0;
                    while k < d.lines.len()
                        invariant
                            k <= d.lines.len(),
                            views(lines@) == at_start + views(d.lines@).take(k as int),
                        decreases d.lines.len() - k,
                    {
                        let ghost b = lines@;
                        lines.push(d.lines[k].clone());
                        proof {
                            lemma_views_concat(b, seq![d.lines@[k as int]]);
                            assert(seq![d.lines@[k as int]] =~= Seq::empty().push(d.lines@[k as int]));
                            assert(lines@ =~= b + seq![d.lines@[k as int]]);
                        }
                        k = k + 1;
                        assert(views(lines@) =~= at_start + views(d.lines@).take(k as int));
                    }
                    assert(views(d.lines@).take(d.lines.len() as int) =~= views(d.lines@));
                },
                None => {},
            }
            i = i + 1;
            assert(views(lines@) =~= e + orph + self.lines_upto(i as nat));
        }
        lines
    }
}

impl MultiState {
    /// Ends a draw: removes the dropped bars it drew for the last time (the
    /// slots `prepare_draw` reaped, which lead the order) and, unless the
    /// draw printed lines above the bars, tells the target to keep their rows.
    pub fn finish_draw(&mut self, reap: &Vec<usize>, adjust: VisualLines, extra_lines: bool) -> (adj: Option<LineAdjust>)
        requires
            old(self).wf(),
            reap.len() <= old(self).order().len(),
            reap@ == old(self).order().take(reap.len() as int),
        ensures
            final(self).wf(),
            final(self).order() == old(self).order().skip(reap.len() as int),
            final(self).free() == old(self).free() + reap@,
            final(self).slots() == old(self).slots(),
            forall|j: int| 0 <= j < reap.len() ==> (#[trigger] final(self).member(reap@[j] as int)).fresh(),
            forall|j: int| 0 <= j < old(self).slots() && !reap@.contains(j as usize) ==> #[trigger] final(self).member(j) == old(self).member(j),
            final(self).orphans() == old(self).orphans(),
            final(self).zombie_lines() == old(self).zombie_lines(),
            final(self).align() == old(self).align(),
            extra_lines ==> adj is None,
            !extra_lines ==> (adj matches Some(LineAdjust::Keep(c)) && c == adjust),
    {
        let ghost start = *self;
        let mut i: usize = 0;
        while i < reap.len()
            invariant
                self.wf(),
                start.wf(),
                i <= reap.len() <= start.order().len(),
                reap@ == start.order().take(reap.len() as int),
                self.order() == start.order().skip(i as int),
                self.free() == start.free() + reap@.take(i as int),
                self.slots() == start.slots(),
                forall|j: int| 0 <= j < i ==> (#[trigger] self.member(reap@[j] as int)).fresh(),
                forall|j: int| 0 <= j < start.slots() && !reap@.take(i as int).contains(j as usize) ==> #[trigger] self.member(j) == start.member(j),
                self.orphans() == start.orphans(),
                self.zombie_lines() == start.zombie_lines(),
                self.align() == start.align(),
            decreases reap.len() - i,
        {
            let index = reap[i];
            let ghost cur = *self;
            proof {
                assert(self.ordering@[0] == start.order()[i as int]);
                assert(reap@[i as int] == start.order()[i as int]);
                assert(!self.free_set@.contains(index));
                let c = position(self.ordering@, index);
                assert(0 <= c < self.ordering@.len() && self.ordering@[c] == index);
                if c != 0 {
                    assert(self.ordering@[c] != self.ordering@[0]);
                }
                assert(self.ordering@.remove(0) =~= start.order().skip(i + 1));
            }
            self.remove_idx(index);
            proof {
                assert(reap@.take(i + 1) =~= reap@.take(i as int).push(index));
                assert(self.free() =~= start.free() + reap@.take(i + 1));
                assert forall|j: int| 0 <= j < i + 1 implies (#[trigger] self.member(reap@[j] as int)).fresh() by {
                    if j < i {
                        let r = reap@[j];
                        assert(reap@.take(i + 1)[j] == r);
                        assert(start.order()[j] == r);
                        assert(start.order()[i as int] == index);
                        assert(r != index) by {
                            assert(start.ordering@.no_duplicates());
                            assert(start.ordering@[j] != start.ordering@[i as int]);
                        }
                        assert(r < start.members.len());
                        assert(self.member(r as int) == cur.member(r as int));
                    }
                }
                assert forall|j: int| 0 <= j < start.slots() && !reap@.take(i + 1).contains(j as usize) implies #[trigger] self.member(j) == start.member(j) by {
                    assert(reap@.take(i + 1)[i as int] == index);
                    if j == index {
                        assert(reap@.take(i + 1).contains(index));
                    }
                    if reap@.take(i as int).contains(j as usize) {
                        let k = choose|k: int| 0 <= k < i && reap@.take(i as int)[k] == j as usize;
                        assert(reap@.take(i + 1)[k] == j as usize);
                    }
                }
            }
            i = i + 1;
        }
        proof {
            assert(reap@.take(reap.len() as int) =~= reap@);
        }
        if extra_lines {
            None
        } else {
            Some(LineAdjust::Keep(adjust))
        }
    }

    /// Stores the lines the bar in slot `idx` drew: the first
    /// `orphan_lines_count` of them were printed above the bars and join the
    /// orphan lines; the rest become the bar's own lines.  A slot that has
    /// not drawn before gets a default draw state.
    pub fn set_member_lines(&mut self, idx: usize, lines: Vec<String>, orphan_lines_count: usize)
        requires
            old(self).wf(),
            idx < old(self).slots(),
            orphan_lines_count <= lines.len(),
        ensures
            final(self).wf(),
            final(self).member(idx as int).draw_state matches Some(d) && {
                &&& views(d.lines@) == views(lines@).skip(orphan_lines_count as int)
                &&& d.orphan_lines_count == 0
                &&& (old(self).member(idx as int).draw_state matches Some(od) ==> d.move_cursor == od.move_cursor
                    && d.alignment == od.alignment)
                &&& (old(self).member(idx as int).draw_state is None ==> !d.move_cursor && d.alignment
                    == MultiProgressAlignment::Top)
            },
            final(self).member(idx as int).is_zombie == old(self).member(idx as int).is_zombie,
            forall|j: int| 0 <= j < old(self).slots() && j != idx ==> #[trigger] final(self).member(j) == old(self).member(j),
            final(self).orphans() == old(self).orphans() + views(lines@).take(orphan_lines_count as int),
            final(self).order() == old(self).order(),
            final(self).free() == old(self).free(),
            final(self).slots() == old(self).slots(),
            final(self).zombie_lines() == old(self).zombie_lines(),
            final(self).align() == old(self).align(),
    {
        let mut m = MultiStateMember::new();
        self.members.set_and_swap(idx, &mut m);
        let mut d = match m.draw_state {
            Some(d) => d,
            None => DrawState::default(),
        };
        d.reset();
        let mut head = lines;
        let ghost all = head@;
        let tail = head.split_off(orphan_lines_count);
        proof {
            assert(all =~= head@ + tail@);
            lemma_views_concat(head@, tail@);
            assert(views(tail@) =~= views(all).skip(orphan_lines_count as int));
            assert(views(head@) =~= views(all).take(orphan_lines_count as int));
        }
        d.lines = tail;
        let ghost before = self.orphan_lines@;
        self.orphan_lines.append(&mut head);
        proof {
            lemma_views_concat(before, all.take(orphan_lines_count as int));
        }
        let mut n = MultiStateMember { draw_state: Some(d), is_zombie: m.is_zombie };
        self.members.set_and_swap(idx, &mut n);
    }
}

proof fn lemma_views_concat(a: Seq<String>, b: Seq<String>)
    ensures
        views(a + b) == views(a) + views(b),
{
    assert(views(a + b) =~= views(a) + views(b));
}

} // verus!
