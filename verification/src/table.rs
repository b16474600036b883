//! The transposition table: a fixed number of slots, one entry each, found
//! by the position's hash. A new entry replaces whatever its slot held.

use vstd::prelude::*;
use crate::board::Board;
use crate::movegen::Move;

verus! {

/// What the score of an entry says about the true score of its position.
#[derive(Clone, Copy, PartialEq, Eq, Debug, Structural)]
pub enum NodeType {
    /// The true score is at most the recorded one.
    Upper,
    /// The true score is at least the recorded one.
    Lower,
    Exact,
}

#[derive(Clone, Copy, PartialEq, Eq, Debug, Structural)]
pub struct Entry {
    /// The full hash of the position that the entry was recorded for.
    pub hash: u64,
    /// The best move found there.
    pub hash_move: Move,
    pub score: i32,
    /// The remaining depth of the search that recorded it.
    pub depth: u8,
    pub node_type: NodeType,
}

impl Entry {
    pub fn new(hash: u64, hash_move: Move, score: i32, depth: u8, node_type: NodeType) -> (e: Entry)
        ensures
            e == (Entry { hash, hash_move, score, depth, node_type }),
    {
        Entry { hash, hash_move, score, depth, node_type }
    }
}

/// The slot of a hash in a table of `slots` slots.
pub open spec fn slot_of(hash: u64, slots: nat) -> int {
    hash as int % slots as int
}

/// The slots after `entry` was written for `hash`: its slot holds the entry,
/// whatever it held before, and no other slot changes.
pub open spec fn written(slots: Seq<Option<Entry>>, hash: u64, entry: Entry) -> Seq<Option<Entry>> {
    slots.update(slot_of(hash, slots.len()), Some(entry))
}

/// What a lookup of `hash` finds: the entry of its slot, if that was
/// recorded for this very hash.
pub open spec fn found(slots: Seq<Option<Entry>>, hash: u64) -> Option<Entry> {
    match slots[slot_of(hash, slots.len())] {
        Some(e) => if e.hash == hash {
            Some(e)
        } else {
            None
        },
        None => None,
    }
}

pub struct Table {
    entries: Vec<Option<Entry>>,
}

impl View for Table {
    type V = Seq<Option<Entry>>;

    closed spec fn view(&self) -> Seq<Option<Entry>> {
        self.entries@
    }
}

impl Table {
    /// A table of `size` empty slots.
    pub fn new(size: usize) -> (t: Table)
        ensures
            t@ == Seq::new(size as nat, |i: int| None::<Entry>),
    {
        let mut entries: Vec<Option<Entry>> = Vec::new();
        let mut i: usize = 0;
        while i < size
            invariant
                i <= size,
                entries@ == Seq::new(i as nat, |k: int| None::<Entry>),
            decreases size - i,
        {
            entries.push(None);
            i += 1;
            assert(entries@ == Seq::new(i as nat, |k: int| None::<Entry>));
        }
        Table { entries }
    }

    /// Empties every slot.
    pub fn reset(&mut self)
        ensures
            final(self)@ == Seq::new(old(self)@.len(), |i: int| None::<Entry>),
    {
        let n = self.entries.len();
        let mut i: usize = 0;
        while i < n
            invariant
                i <= n,
                n == self.entries@.len(),
                forall|k: int| 0 <= k < i ==> self.entries@[k] == None::<Entry>,
            decreases n - i,
        {
            self.entries[i] = None;
            i += 1;
        }
        assert(self.entries@ == Seq::new(n as nat, |i: int| None::<Entry>));
    }

    /// The number of slots.
    pub fn capacity(&self) -> (n: usize)
        ensures
            n == self@.len(),
    {
        self.entries.len()
    }

    fn slot(&self, board: &Board) -> (i: usize)
        requires
            self@.len() > 0,
        ensures
            i == slot_of(board.hash_key(), self@.len()),
            i < self@.len(),
    {
        let n = self.entries.len();
        (board.hash() % (n as u64)) as usize
    }

    /// What the slot of `board` holds, whichever position it was recorded
    /// for.
    pub fn index(&self, board: &Board) -> (e: &Option<Entry>)
        requires
            self@.len() > 0,
        ensures
            *e == self@[slot_of(board.hash_key(), self@.len())],
    {
        let i = self.slot(board);
        &self.entries[i]
    }

    /// Writes `entry` into the slot of `board`, over whatever is there.
    pub fn store(&mut self, board: &Board, entry: Entry)
        requires
            old(self)@.len() > 0,
        ensures
            final(self)@ == written(old(self)@, board.hash_key(), entry),
    {
        let i = self.slot(board);
        self.entries[i] = Some(entry);
    }

    /// The entry recorded for the hash of `board`, if its slot still holds
    /// it. An entry recorded for another hash that shares the slot is not
    /// returned.
    pub fn probe(&self, board: &Board) -> (e: Option<Entry>)
        requires
            self@.len() > 0,
        ensures
            e == found(self@, board.hash_key()),
    {
        match self.index(board) {
            Some(entry) => {
                if entry.hash == board.hash() {
                    Some(*entry)
                } else {
                    None
                }
            },
            None => None,
        }
    }
}

/// After an entry was written for one hash, the lookup of another hash that
/// falls into the same slot finds nothing, and the lookup of the hash itself
/// finds the entry.
pub proof fn lemma_collision_is_a_miss(
    slots: Seq<Option<Entry>>,
    hash: u64,
    entry: Entry,
    other: u64,
)
    requires
        slots.len() > 0,
        entry.hash == hash,
        other != hash,
        slot_of(other, slots.len()) == slot_of(hash, slots.len()),
    ensures
        found(written(slots, hash, entry), other) == None::<Entry>,
        found(written(slots, hash, entry), hash) == Some(entry),
{
}

/// A write changes no slot but its own.
pub proof fn lemma_write_is_local(slots: Seq<Option<Entry>>, hash: u64, entry: Entry, other: u64)
    requires
        slots.len() > 0,
        slot_of(other, slots.len()) != slot_of(hash, slots.len()),
    ensures
        found(written(slots, hash, entry), other) == found(slots, other),
{
}

} // verus!
