//! The transposition table: what the search found out about positions,
//! kept by position key in a table of fixed size.

use crate::takmove::Move;
use vstd::prelude::*;

verus! {

/// The size of the table where none is asked for, in MiB.
pub const DEFAULT_TT_SIZE_MIB: usize = 16;

/// The largest size of the table, in MiB.
pub const MAX_TT_SIZE_MIB: usize = 16384;

/// The slots that fit one MiB.
pub const SLOTS_PER_MIB: usize = 131072;

/// The slots that `estimate_full_permille` looks at.
pub const SAMPLE_SLOTS: usize = 1000;

/// From this score on a score says how far away a win is.
pub const SCORE_WIN: i32 = 25000;

/// The largest score that a slot holds.
pub const SCORE_LIMIT: i32 = 32767;

/// What a stored score says about the true score of the position.
#[derive(Copy, Clone, PartialEq, Eq, Structural, Debug)]
pub enum TtFlag {
    /// The true score is at most the stored one.
    UpperBound,
    /// The true score is at least the stored one.
    LowerBound,
    Exact,
}

/// One slot of the table. A slot without a flag is empty.
#[derive(Copy, Clone, Debug)]
pub struct Slot {
    pub tag: u16,
    pub mv: u16,
    pub score: i16,
    pub depth: u8,
    pub age: u8,
    pub flag: Option<TtFlag>,
}

/// What a probe gives: the score seen from the probing node, the depth
/// searched, the kind of bound and the best move, if one is known.
#[derive(Copy, Clone, Debug)]
pub struct ProbedTtEntry {
    pub score: i32,
    pub depth: i32,
    pub flag: Option<TtFlag>,
    pub mv: Option<Move>,
}

/// The slot in which a table of `len` slots keeps the position with `key`.
pub open spec fn slot_of(key: u64, len: nat) -> int {
    (key as int) % (len as int)
}

/// The part of the key that a slot keeps to tell positions apart.
pub open spec fn tag_of(key: u64) -> u16 {
    (key / 0x1_0000_0000_0000) as u16
}

/// `x`, but at least `lo` and at most `hi`.
pub open spec fn clamped(x: int, lo: int, hi: int) -> int {
    if x < lo {
        lo
    } else if x > hi {
        hi
    } else {
        x
    }
}

/// The score as a slot keeps it: a score that says how far from the root a
/// game ends is made to say how far from the storing node it ends.
pub open spec fn score_to_tt(score: int, ply: int) -> int {
    clamped(
        if score > SCORE_WIN {
            score + ply
        } else if score < -SCORE_WIN {
            score - ply
        } else {
            score
        },
        -SCORE_LIMIT as int,
        SCORE_LIMIT as int,
    )
}

/// The kept score as the probing node sees it.
pub open spec fn score_from_tt(score: int, ply: int) -> int {
    if score > SCORE_WIN {
        score - ply
    } else if score < -SCORE_WIN {
        score + ply
    } else {
        score
    }
}

/// What a probe gives where the slot is not that of the position.
pub open spec fn no_entry() -> ProbedTtEntry {
    ProbedTtEntry { score: 0, depth: 0, flag: None, mv: None }
}

/// What a probe at `ply` gives for a slot that is that of the position.
pub open spec fn entry_of(slot: Slot, ply: int) -> ProbedTtEntry {
    ProbedTtEntry {
        score: score_from_tt(slot.score as int, ply) as i32,
        depth: slot.depth as i32,
        flag: slot.flag,
        mv: if slot.mv == 0 {
            None
        } else {
            Some(Move::of_value(slot.mv))
        },
    }
}

/// Whether a slot holds what was stored for the position with `key`.
pub open spec fn slot_hits(slot: Slot, key: u64) -> bool {
    slot.flag is Some && slot.tag == tag_of(key)
}

/// What a probe for `key` at `ply` gives in a table with the given slots.
pub open spec fn probed(slots: Seq<Slot>, key: u64, ply: int) -> ProbedTtEntry {
    let slot = slots[slot_of(key, slots.len())];
    if slot_hits(slot, key) {
        entry_of(slot, ply)
    } else {
        no_entry()
    }
}

/// Whether a result of the given depth takes the place of what `slot`
/// holds: always for the same position, and else where the slot is empty, is
/// left from an earlier search, or holds a result that is not deeper.
pub open spec fn replaces(slot: Slot, key: u64, depth: int, age: u8) -> bool {
    slot.flag is None || slot.tag == tag_of(key) || slot.age != age || depth >= slot.depth
}

/// The slots after a result was kept for the position with `key`, found
/// at `ply` by the search with the given age: the slot of the position
/// holds the result where the result takes the place of what the slot
/// held, and nothing changes where it does not.
pub open spec fn stored(
    slots: Seq<Slot>,
    age: u8,
    key: u64,
    score: int,
    best_move: Option<Move>,
    depth: int,
    ply: int,
    flag: TtFlag,
) -> Seq<Slot> {
    let i = slot_of(key, slots.len());
    let d = clamped(depth, 0, 255);
    if replaces(slots[i], key, d, age) {
        slots.update(
            i,
            Slot {
                tag: tag_of(key),
                mv: match best_move {
                    Some(m) => m.value(),
                    None => 0u16,
                },
                score: score_to_tt(score, ply) as i16,
                depth: d as u8,
                age,
                flag: Some(flag),
            },
        )
    } else {
        slots
    }
}

/// The age of the search after the search with the given age.
pub open spec fn next_age(age: u8) -> u8 {
    if age == 255 {
        0u8
    } else {
        (age + 1) as u8
    }
}

/// The number of the first `n` slots that hold a result of the search
/// with the given age.
pub open spec fn used_slots(slots: Seq<Slot>, age: u8, n: nat) -> nat
    decreases n,
{
    if n == 0 {
        0
    } else {
        used_slots(slots, age, (n - 1) as nat) + if slots[n - 1].flag is Some && slots[n
            - 1].age == age {
            1nat
        } else {
            0nat
        }
    }
}

/// The table.
pub struct TranspositionTable {
    slots: Vec<Slot>,
    age: u8,
}

impl View for TranspositionTable {
    type V = Seq<Slot>;

    closed spec fn view(&self) -> Seq<Slot> {
        self.slots@
    }
}

impl Slot {
    /// The empty slot.
    pub fn empty() -> (r: Slot)
        ensures
            r.flag is None,
            r == (Slot { tag: 0, mv: 0, score: 0, depth: 0, age: 0, flag: None }),
    {
        Slot { tag: 0, mv: 0, score: 0, depth: 0, age: 0, flag: None }
    }
}

impl TranspositionTable {
    /// The age of the running search.
    pub closed spec fn age(self) -> u8 {
        self.age
    }

    /// The table has at least as many slots as a probe for fullness looks at.
    pub open spec fn wf(self) -> bool {
        self@.len() >= SAMPLE_SLOTS
    }

    /// The number of slots of a table of `size_mib` MiB.
    pub open spec fn slots_for(size_mib: usize) -> nat {
        (clamped(size_mib as int, 1, MAX_TT_SIZE_MIB as int) * SLOTS_PER_MIB) as nat
    }

    /// An empty table of `size_mib` MiB, of at least one and at most 16384.
    pub fn new(size_mib: usize) -> (r: TranspositionTable)
        ensures
            r.wf(),
            r.age() == 0,
            r@.len() == TranspositionTable::slots_for(size_mib),
            forall|i: int| 0 <= i < r@.len() ==> (#[trigger] r@[i]).flag is None,
    {
        let mut r = TranspositionTable { slots: Vec::new(), age: 0 };
        r.resize(size_mib);
        r
    }

    /// Makes the table an empty table of `size_mib` MiB.
    pub fn resize(&mut self, size_mib: usize)
        ensures
            final(self).wf(),
            final(self).age() == 0,
            final(self)@.len() == TranspositionTable::slots_for(size_mib),
            forall|i: int| 0 <= i < final(self)@.len() ==> (#[trigger] final(self)@[i]).flag is None,
    {
        let mib: usize = if size_mib < 1 {
            1
        } else if size_mib > MAX_TT_SIZE_MIB {
            MAX_TT_SIZE_MIB
        } else {
            size_mib
        };
        let count: usize = mib * SLOTS_PER_MIB;
        self.slots = vec![Slot::empty(); count];
        self.age = 0;
    }

    /// Empties every slot.
    pub fn clear(&mut self)
        ensures
            final(self)@.len() == old(self)@.len(),
            final(self).age() == 0,
            forall|i: int| 0 <= i < final(self)@.len() ==> (#[trigger] final(self)@[i]).flag is None,
    {
        let n: usize = self.slots.len();
        let mut i: usize = 0;
        while i < n
            invariant
                i <= n,
                n == self.slots@.len(),
                forall|j: int| 0 <= j < i ==> (#[trigger] self.slots@[j]).flag is None,
            decreases n - i,
        {
            self.slots[i] = Slot::empty();
            i = i + 1;
        }
        self.age = 0;
    }

    /// Begins a new search: what the table holds is old from now on.
    pub fn age_up(&mut self)
        ensures
            final(self)@ == old(self)@,
            final(self).age() == next_age(old(self).age()),
    {
        self.age = if self.age == 255 {
            0
        } else {
            self.age + 1
        };
    }

    /// What the table holds for the position with `key`, seen from a node
    /// at `ply`; whether it holds anything comes first.
    pub fn probe(&self, key: u64, ply: i32) -> (r: (bool, ProbedTtEntry))
        requires
            self.wf(),
            0 <= ply <= 255,
        ensures
            r.0 == slot_hits(self@[slot_of(key, self@.len())], key),
            r.1 == probed(self@, key, ply as int),
            -SCORE_LIMIT - 255 <= r.1.score <= SCORE_LIMIT + 255,
            0 <= r.1.depth <= 255,
    {
        let index: usize = (key % (self.slots.len() as u64)) as usize;
        let slot = self.slots[index];
        let tag: u16 = (key / 0x1_0000_0000_0000) as u16;
        if slot.flag.is_none() || slot.tag != tag {
            return (false, ProbedTtEntry { score: 0, depth: 0, flag: None, mv: None });
        }
        let kept: i32 = slot.score as i32;
        let score: i32 = if kept > SCORE_WIN {
            kept - ply
        } else if kept < -SCORE_WIN {
            kept + ply
        } else {
            kept
        };
        let mv = Move::from_raw(slot.mv);
        proof {
            if slot.mv != 0 {
                Move::lemma_of_value(slot.mv);
                mv.unwrap().lemma_value_eq(Move::of_value(slot.mv));
            }
        }
        (true, ProbedTtEntry { score, depth: slot.depth as i32, flag: slot.flag, mv })
    }

    /// Keeps a result for the position with `key`, found at `ply`, unless
    /// the slot holds a deeper result of this search for another position.
    pub fn store(
        &mut self,
        key: u64,
        score: i32,
        best_move: Option<Move>,
        depth: i32,
        ply: i32,
        flag: TtFlag,
    )
        requires
            old(self).wf(),
            0 <= ply <= 255,
            -1000000 <= score <= 1000000,
        ensures
            final(self).wf(),
            final(self).age() == old(self).age(),
            final(self)@.len() == old(self)@.len(),
            final(self)@ == stored(
                old(self)@,
                old(self).age(),
                key,
                score as int,
                best_move,
                depth as int,
                ply as int,
                flag,
            ),
    {
        let index: usize = (key % (self.slots.len() as u64)) as usize;
        let slot = self.slots[index];
        let tag: u16 = (key / 0x1_0000_0000_0000) as u16;
        let d: u8 = if depth < 0 {
            0
        } else if depth > 255 {
            255
        } else {
            depth as u8
        };
        if !(slot.flag.is_none() || slot.tag == tag || slot.age != self.age || d >= slot.depth) {
            return ;
        }
        let moved: i32 = if score > SCORE_WIN {
            score + ply
        } else if score < -SCORE_WIN {
            score - ply
        } else {
            score
        };
        let kept: i16 = if moved < -SCORE_LIMIT {
            -32767
        } else if moved > SCORE_LIMIT {
            32767
        } else {
            moved as i16
        };
        let raw: u16 = match best_move {
            Some(m) => m.raw(),
            None => 0,
        };
        self.slots[index] = Slot { tag, mv: raw, score: kept, depth: d, age: self.age, flag: Some(flag) };
    }

    /// How full the table is, in thousandths: the number of the first
    /// thousand slots that hold a result of this search.
    pub fn estimate_full_permille(&self) -> (r: usize)
        requires
            self.wf(),
        ensures
            r == used_slots(self@, self.age(), SAMPLE_SLOTS as nat),
            r <= 1000,
    {
        let mut used: usize = 0;
        let mut i: usize = 0;
        while i < SAMPLE_SLOTS
            invariant
                i <= SAMPLE_SLOTS,
                self.wf(),
                used == used_slots(self@, self.age(), i as nat),
                used <= i,
            decreases SAMPLE_SLOTS - i,
        {
            let slot = self.slots[i];
            if slot.flag.is_some() && slot.age == self.age {
                used = used + 1;
            }
            i = i + 1;
        }
        used
    }
}

} // verus!
