//! The transposition table: a direct-mapped, depth-preferred cache of
//! search results keyed by the full 64-bit hash.

use vstd::prelude::*;
use crate::moves::{Move, from_of, to_of, cap_of};

verus! {

/// What a stored score means relative to the search window.
#[derive(Debug, Clone, Copy, PartialEq, Eq, Structural)]
pub enum TtFlag {
    Exact,
    LowerBound,
    UpperBound,
}

/// One cached result.
#[derive(Debug, Clone, Copy)]
pub struct TtEntry {
    pub hash_key: u64,
    pub depth: i32,
    pub score: i32,
    pub flag: TtFlag,
    pub best_move: Move,
}

/// An entry whose move squares fit on the board and whose score is
/// within the search range.
pub open spec fn entry_inv(e: TtEntry) -> bool {
    &&& from_of(e.best_move) < 90
    &&& to_of(e.best_move) < 90
    &&& -2_000_000 <= e.score <= 2_000_000
}

/// The empty sentinel: hash zero, depth zero, score zero, an exact
/// flag, and the null move.
pub open spec fn is_empty_entry(e: TtEntry) -> bool {
    &&& e.hash_key == 0
    &&& e.depth == 0
    &&& e.score == 0
    &&& e.flag == TtFlag::Exact
    &&& from_of(e.best_move) == 0
    &&& to_of(e.best_move) == 0
    &&& !cap_of(e.best_move)
}

impl TtEntry {
    /// The empty sentinel: hash zero, the null move.
    pub fn new_empty() -> (r: TtEntry)
        ensures
            is_empty_entry(r),
            entry_inv(r),
    {
        TtEntry {
            hash_key: 0,
            depth: 0,
            score: 0,
            flag: TtFlag::Exact,
            best_move: Move::new(0, 0, None),
        }
    }
}

/// The table itself: a vector of slots indexed by hash modulo capacity.
pub struct TranspositionTable {
    entries: Vec<TtEntry>,
}

impl View for TranspositionTable {
    type V = Seq<TtEntry>;

    closed spec fn view(&self) -> Seq<TtEntry> {
        self.entries@
    }
}

impl TranspositionTable {
    /// At least one slot, and every slot satisfies the entry invariant.
    pub open spec fn wf(&self) -> bool {
        &&& self@.len() >= 1
        &&& forall|i: int| 0 <= i < self@.len() ==> entry_inv(#[trigger] self@[i])
    }

    /// A table sized from a megabyte budget, all slots empty.
    pub fn new(size_mb: usize) -> (r: TranspositionTable)
        requires
            1 <= size_mb <= 1024,
        ensures
            r.wf(),
            r@.len() == size_mb * 1024 * 1024 / 24,
            forall|i: int| 0 <= i < r@.len() ==> is_empty_entry(#[trigger] r@[i]),
    {
        // Slot count from the budget; 24 bytes is the entry footprint.
        let num_entries = size_mb * 1024 * 1024 / 24;
        let mut entries: Vec<TtEntry> = Vec::new();
        let mut i: usize = 0;
        while i < num_entries
            invariant
                i <= num_entries,
                entries@.len() == i,
                forall|j: int| 0 <= j < i ==> is_empty_entry(#[trigger] entries@[j]) && entry_inv(
                    entries@[j],
                ),
            decreases num_entries - i,
        {
            entries.push(TtEntry::new_empty());
            i = i + 1;
        }
        TranspositionTable { entries }
    }

    /// Looks up the slot of a hash; an entry comes back exactly when the
    /// slot holds that full hash, so a colliding slot reads as a miss.
    pub fn probe(&self, hash_key: u64) -> (r: Option<TtEntry>)
        requires
            self.wf(),
        ensures
            ({
                let e = self@[hash_key as int % self@.len() as int];
                if e.hash_key == hash_key {
                    r == Some(e)
                } else {
                    r is None
                }
            }),
    {
        let index = (hash_key % (self.entries.len() as u64)) as usize;
        let entry = self.entries[index];
        if entry.hash_key == hash_key {
            Some(entry)
        } else {
            None
        }
    }

    /// Stores an entry at its slot, keeping the deeper of the old and new
    /// results.
    pub fn store(&mut self, hash_key: u64, depth: i32, score: i32, flag: TtFlag, best_move: Move)
        requires
            old(self).wf(),
            from_of(best_move) < 90,
            to_of(best_move) < 90,
            -2_000_000 <= score <= 2_000_000,
        ensures
            final(self).wf(),
            final(self)@.len() == old(self)@.len(),
            ({
                let i = hash_key as int % old(self)@.len() as int;
                if depth >= old(self)@[i].depth {
                    final(self)@ == old(self)@.update(
                        i,
                        TtEntry { hash_key, depth, score, flag, best_move },
                    )
                } else {
                    final(self)@ == old(self)@
                }
            }),
    {
        let index = (hash_key % (self.entries.len() as u64)) as usize;
        if depth >= self.entries[index].depth {
            self.entries.set(index, TtEntry { hash_key, depth, score, flag, best_move });
        }
    }

    /// Resets every slot to the empty sentinel, so that every later
    /// probe for a nonzero hash misses until something is stored.
    pub fn clear(&mut self)
        requires
            old(self).wf(),
        ensures
            final(self).wf(),
            final(self)@.len() == old(self)@.len(),
            forall|i: int| 0 <= i < final(self)@.len() ==> is_empty_entry(
                #[trigger] final(self)@[i],
            ),
    {
        let n = self.entries.len();
        let mut i: usize = 0;
        while i < n
            invariant
                i <= n,
                self@.len() == n,
                forall|j: int| 0 <= j < i ==> is_empty_entry(#[trigger] self@[j]),
                forall|j: int| 0 <= j < n ==> entry_inv(#[trigger] self@[j]),
            decreases n - i,
        {
            self.entries.set(i, TtEntry::new_empty());
            i = i + 1;
        }
    }
}

} // verus!
