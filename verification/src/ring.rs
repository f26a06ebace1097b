//! Smoothing of jittery read/write positions: a ring buffer that remembers
//! the maximum of its entries, and the seek tracker built on it.
use vstd::prelude::*;

verus! {

/// The largest value of a non-empty sequence.
pub open spec fn is_max_of(s: Seq<u64>, v: u64) -> bool {
    &&& exists|k: int| 0 <= k < s.len() && s[k] == v
    &&& forall|k: int| 0 <= k < s.len() ==> s[k] <= v
}

/// Ring buffer of the last `HISTORY` values that remembers where its maximum
/// is kept.
#[derive(Debug)]
pub struct MaxRingBuf<const HISTORY: usize> {
    history: Vec<u64>,
    head: u8,
    max_pos: u8,
}

impl<const HISTORY: usize> MaxRingBuf<HISTORY> {
    /// The buffer is well formed: `HISTORY` entries, both indices in range, and
    /// `max_pos` pointing at a largest entry.
    pub closed spec fn wf(&self) -> bool {
        &&& 0 < HISTORY <= 255
        &&& self.history@.len() == HISTORY
        &&& (self.head as int) < HISTORY
        &&& (self.max_pos as int) < HISTORY
        &&& forall|k: int|
            0 <= k < self.history@.len() ==> #[trigger] self.history@[k] <= self.history@[self.max_pos as int]
    }

    /// The remembered values, slot by slot.
    pub closed spec fn entries(&self) -> Seq<u64> {
        self.history@
    }

    /// The slot that the next value is written to.
    pub closed spec fn next_slot(&self) -> nat {
        self.head as nat
    }

    /// A well-formed buffer holds `HISTORY` entries and writes the next value
    /// into one of them.
    pub proof fn law_shape(&self)
        requires
            self.wf(),
        ensures
            0 < HISTORY <= 255,
            self.entries().len() == HISTORY,
            self.next_slot() < HISTORY,
    {
    }

    /// A buffer of `HISTORY` zeros.
    pub fn new() -> (b: Self)
        requires
            0 < HISTORY <= 255,
        ensures
            b.wf(),
            b.entries() == Seq::new(HISTORY as nat, |_i: int| 0u64),
            b.next_slot() == 0,
    {
        let mut history: Vec<u64> = Vec::new();
        let mut i: usize = 0;
        while i < HISTORY
            invariant
                i <= HISTORY,
                history@ == Seq::new(i as nat, |_i: int| 0u64),
            decreases HISTORY - i,
        {
            history.push(0);
            i = i + 1;
            assert(history@ =~= Seq::new(i as nat, |_i: int| 0u64));
        }
        MaxRingBuf { history, head: 0, max_pos: 0 }
    }

    /// Adds a value to the history, overwriting the oldest one.
    pub fn update(&mut self, new: u64)
        requires
            old(self).wf(),
        ensures
            final(self).wf(),
            final(self).entries() == old(self).entries().update(old(self).next_slot() as int, new),
            final(self).next_slot() == (old(self).next_slot() + 1) % (HISTORY as nat),
    {
        let head = self.head as usize;
        let max_pos = self.max_pos as usize;
        let prev_max = self.history[max_pos];
        self.history.set(head, new);
        if new > prev_max {
            self.max_pos = self.head;
        } else if self.max_pos == self.head && new < prev_max {
            // The largest entry was overwritten by a smaller one: find the
            // (last) largest entry again.
            let mut best: usize = 0;
            let mut i: usize = 1;
            while i < self.history.len()
                invariant
                    0 < i <= self.history.len(),
                    best < i,
                    forall|k: int| 0 <= k < i ==> self.history@[k] <= self.history@[best as int],
                decreases self.history.len() - i,
            {
                if self.history[i] >= self.history[best] {
                    best = i;
                }
                i = i + 1;
            }
            self.max_pos = best as u8;
        }
        self.head = ((self.head as usize + 1) % HISTORY) as u8;
    }

    /// Returns the maximum value out of the remembered entries.
    pub fn max(&self) -> (m: u64)
        requires
            self.wf(),
        ensures
            is_max_of(self.entries(), m),
    {
        let m = self.history[self.max_pos as usize];
        assert(self.history@[self.max_pos as int] == m);
        m
    }
}

/// Turns a jittery sequence of positions into a steadier one to show: after a
/// seek it reports the largest of the last `HISTORY` positions, and after
/// `RESET` sequential moves in a row it drops the history and reports
/// positions as they are.
#[derive(Debug)]
pub struct SeekMax<const RESET: u8, const HISTORY: usize> {
    buf: Option<(Box<MaxRingBuf<HISTORY>>, u8)>,
}

impl<const RESET: u8, const HISTORY: usize> SeekMax<RESET, HISTORY> {
    pub closed spec fn wf(&self) -> bool {
        match self.buf {
            Some((b, seq)) => b.wf() && (seq == 0 || seq < RESET),
            None => true,
        }
    }

    /// The history of positions, when one is kept.
    pub closed spec fn history(&self) -> Option<Seq<u64>> {
        match self.buf {
            Some((b, _)) => Some(b.entries()),
            None => None,
        }
    }

    /// The slot of the history the next position is written to.
    pub closed spec fn slot(&self) -> nat {
        match self.buf {
            Some((b, _)) => b.next_slot(),
            None => 0,
        }
    }

    /// Number of sequential moves since the last seek, when a history is kept.
    pub closed spec fn sequential(&self) -> nat {
        match self.buf {
            Some((_, seq)) => seq as nat,
            None => 0,
        }
    }

    /// A tracker without history.
    pub fn new() -> (s: Self)
        ensures
            s.wf(),
            s.history() is None,
    {
        SeekMax { buf: None }
    }

    /// Accounts for a sequential move by `delta` from `prev_pos`, and returns
    /// the position to show.
    pub fn update_seq(&mut self, prev_pos: u64, delta: u64) -> (shown: u64)
        requires
            old(self).wf(),
            prev_pos + delta <= u64::MAX,
        ensures
            final(self).wf(),
            shown >= prev_pos + delta,
            old(self).history() is None ==> final(self).history() is None && shown == prev_pos
                + delta,
            old(self).history() is Some && old(self).sequential() + 1 >= RESET ==> final(self).history() is None && shown == prev_pos + delta,
            old(self).history() is Some && old(self).sequential() + 1 < RESET ==> final(self).history() == Some(
                old(self).history().unwrap().update(old(self).slot() as int, (prev_pos + delta) as u64),
            ) && final(self).slot() == (old(self).slot() + 1) % (HISTORY as nat) && final(self).sequential()
                == old(self).sequential() + 1 && is_max_of(final(self).history().unwrap(), shown),
    {
        let new_pos = prev_pos + delta;
        match self.buf.take() {
            None => new_pos,
            Some((mut buf, seq)) => {
                let seq = seq + 1;
                if seq >= RESET {
                    return new_pos;
                }
                let ghost slot = buf.next_slot();
                buf.update(new_pos);
                let m = buf.max();
                assert(buf.entries()[slot as int] == new_pos);
                self.buf = Some((buf, seq));
                m
            },
        }
    }

    /// Accounts for a seek to `newpos` and returns the position to show.
    pub fn update_seek(&mut self, newpos: u64) -> (shown: u64)
        requires
            old(self).wf(),
            0 < HISTORY <= 255,
        ensures
            final(self).wf(),
            final(self).history() == Some(
                match old(self).history() {
                    Some(h) => h.update(old(self).slot() as int, newpos),
                    None => Seq::new(HISTORY as nat, |_i: int| 0u64).update(0, newpos),
                },
            ),
            final(self).slot() == ((if old(self).history() is Some { old(self).slot() } else { 0 }) + 1) % (
            HISTORY as nat),
            final(self).sequential() == 0,
            is_max_of(final(self).history().unwrap(), shown),
            shown >= newpos,
    {
        let mut buf = match self.buf.take() {
            Some((b, _)) => b,
            None => Box::new(MaxRingBuf::<HISTORY>::new()),
        };
        let ghost slot = buf.next_slot();
        buf.update(newpos);
        let m = buf.max();
        assert(buf.entries()[slot as int] == newpos);
        self.buf = Some((buf, 0));
        m
    }
}

} // verus!
