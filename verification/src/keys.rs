//! Zobrist keys: a fixed 64-bit value for every (piece type, square), for
//! every (height, owner, square) and for the side to move, mixed by XOR.

use crate::model::Tower;
use crate::types::{PieceType, Player};
use vstd::prelude::*;

verus! {

/// The value that stands for the number `x`: the output function of the
/// SplitMix64 generator.
pub open spec fn scramble(x: u64) -> u64 {
    let a = x.wrapping_add(0x9E37_79B9_7F4A_7C15);
    let b = (a ^ (a >> 30)).wrapping_mul(0xBF58_476D_1CE4_E5B9);
    let c = (b ^ (b >> 27)).wrapping_mul(0x94D0_49BB_1331_11EB);
    c ^ (c >> 31)
}

/// The key of a top piece of type `pt` on square `sq`.
pub open spec fn top_key(pt: PieceType, sq: int) -> u64 {
    scramble((1 + pt.index() * 36 + sq) as u64)
}

/// The key of a piece of `player` at `height` on square `sq`.
pub open spec fn owner_key(height: int, player: Player, sq: int) -> u64 {
    scramble((1000 + (height * 2 + player.index()) * 36 + sq) as u64)
}

/// The key of the second player being to move.
pub open spec fn side_key() -> u64 {
    scramble(0)
}

/// The keys that a position keeps.
#[derive(Copy, Clone, PartialEq, Eq, Structural, Debug)]
pub enum KeyKind {
    /// All pieces: the top piece's type and every piece's owner.
    Stacks,
    /// The top pieces that are walls or capstones.
    Blockers,
    /// The top pieces that are flats or capstones.
    Roads,
    /// All top pieces.
    Tops,
    /// The top pieces that are capstones.
    Caps,
    /// The top pieces that are walls.
    Walls,
}

/// Whether a top piece of type `pt` counts for the key `kind`.
pub open spec fn counts_for(kind: KeyKind, pt: PieceType) -> bool {
    match kind {
        KeyKind::Stacks => true,
        KeyKind::Blockers => pt.blocks(),
        KeyKind::Roads => pt.roads(),
        KeyKind::Tops => true,
        KeyKind::Caps => pt == PieceType::Capstone,
        KeyKind::Walls => pt == PieceType::Wall,
    }
}

/// What a top piece on square `sq` adds to the key `kind`.
pub open spec fn top_part(kind: KeyKind, top: Option<PieceType>, sq: int) -> u64 {
    match top {
        Some(pt) => if counts_for(kind, pt) {
            top_key(pt, sq)
        } else {
            0
        },
        None => 0,
    }
}

/// The keys of the owners of a tower on square `sq`, mixed.
pub open spec fn owners_key(owners: Seq<Player>, sq: int) -> u64
    decreases owners.len(),
{
    if owners.len() == 0 {
        0
    } else {
        owners_key(owners.drop_last(), sq) ^ owner_key(owners.len() - 1, owners.last(), sq)
    }
}

/// What the tower on square `sq` adds to the key `kind`.
pub open spec fn tower_part(kind: KeyKind, t: Tower, sq: int) -> u64 {
    match kind {
        KeyKind::Stacks => top_part(kind, t.top, sq) ^ owners_key(t.owners, sq),
        _ => top_part(kind, t.top, sq),
    }
}

/// The parts of the first `n` towers for the key `kind`, mixed.
pub open spec fn mixed(kind: KeyKind, towers: Seq<Tower>, n: nat) -> u64
    decreases n,
{
    if n == 0 {
        0
    } else {
        mixed(kind, towers, (n - 1) as nat) ^ tower_part(kind, towers[n - 1], n - 1)
    }
}

/// The key `kind` of a board, made from nothing but the board.
pub open spec fn regen_key(kind: KeyKind, towers: Seq<Tower>) -> u64 {
    mixed(kind, towers, 36)
}

/// The six keys of a position.
#[derive(Copy, Clone, PartialEq, Eq, Structural, Debug)]
pub struct Keys {
    pub stacks: u64,
    pub blockers: u64,
    pub roads: u64,
    pub tops: u64,
    pub caps: u64,
    pub walls: u64,
}

impl Keys {
    /// The key of the given kind.
    pub open spec fn of(self, kind: KeyKind) -> u64 {
        match kind {
            KeyKind::Stacks => self.stacks,
            KeyKind::Blockers => self.blockers,
            KeyKind::Roads => self.roads,
            KeyKind::Tops => self.tops,
            KeyKind::Caps => self.caps,
            KeyKind::Walls => self.walls,
        }
    }

    /// Every key is the one made from the board.
    pub open spec fn matches(self, towers: Seq<Tower>) -> bool {
        forall|kind: KeyKind| #[trigger] self.of(kind) == regen_key(kind, towers)
    }

    /// The keys of the empty board.
    pub fn zero() -> (r: Keys)
        ensures
            forall|kind: KeyKind| #[trigger] r.of(kind) == 0,
    {
        Keys { stacks: 0, blockers: 0, roads: 0, tops: 0, caps: 0, walls: 0 }
    }

    /// The keys after the top piece of the tower on square `sq` changed from
    /// `before` to `after`, with `extra` mixed into the key of all pieces.
    pub fn retop(self, sq: u8, before: Option<PieceType>, after: Option<PieceType>, extra: u64) -> (r:
        Keys)
        requires
            sq < 36,
        ensures
            r.stacks == self.stacks ^ top_part(KeyKind::Stacks, before, sq as int) ^ top_part(
                KeyKind::Stacks,
                after,
                sq as int,
            ) ^ extra,
            forall|kind: KeyKind|
                kind != KeyKind::Stacks ==> #[trigger] r.of(kind) == self.of(kind) ^ top_part(
                    kind,
                    before,
                    sq as int,
                ) ^ top_part(kind, after, sq as int),
    {
        let b = top_parts(before, sq);
        let a = top_parts(after, sq);
        proof {
            assert(b.of(KeyKind::Stacks) == b.stacks && a.of(KeyKind::Stacks) == a.stacks);
            assert(b.of(KeyKind::Blockers) == b.blockers && a.of(KeyKind::Blockers) == a.blockers);
            assert(b.of(KeyKind::Roads) == b.roads && a.of(KeyKind::Roads) == a.roads);
            assert(b.of(KeyKind::Tops) == b.tops && a.of(KeyKind::Tops) == a.tops);
            assert(b.of(KeyKind::Caps) == b.caps && a.of(KeyKind::Caps) == a.caps);
            assert(b.of(KeyKind::Walls) == b.walls && a.of(KeyKind::Walls) == a.walls);
        }
        Keys {
            stacks: self.stacks ^ b.stacks ^ a.stacks ^ extra,
            blockers: self.blockers ^ b.blockers ^ a.blockers,
            roads: self.roads ^ b.roads ^ a.roads,
            tops: self.tops ^ b.tops ^ a.tops,
            caps: self.caps ^ b.caps ^ a.caps,
            walls: self.walls ^ b.walls ^ a.walls,
        }
    }
}

/// The value that stands for the number `x`.
pub fn scrambled(x: u64) -> (r: u64)
    ensures
        r == scramble(x),
{
    let a: u64 = x.wrapping_add(0x9E37_79B9_7F4A_7C15);
    let b: u64 = (a ^ (a >> 30)).wrapping_mul(0xBF58_476D_1CE4_E5B9);
    let c: u64 = (b ^ (b >> 27)).wrapping_mul(0x94D0_49BB_1331_11EB);
    c ^ (c >> 31)
}

/// The key of a top piece of type `pt` on the square with number `sq`.
pub fn top_key_at(pt: PieceType, sq: u8) -> (r: u64)
    requires
        sq < 36,
    ensures
        r == top_key(pt, sq as int),
{
    scrambled(1 + (pt.raw() as u64) * 36 + sq as u64)
}

/// The key of a piece of `player` at `height` on the square with number `sq`.
pub fn owner_key_at(height: u8, player: Player, sq: u8) -> (r: u64)
    requires
        sq < 36,
    ensures
        r == owner_key(height as int, player, sq as int),
{
    scrambled(1000 + ((height as u64) * 2 + player.raw() as u64) * 36 + sq as u64)
}

/// The key of the second player being to move.
pub fn side_key_value() -> (r: u64)
    ensures
        r == side_key(),
{
    scrambled(0)
}

/// What a top piece on the square with number `sq` adds to each key.
pub fn top_parts(top: Option<PieceType>, sq: u8) -> (r: Keys)
    requires
        sq < 36,
    ensures
        forall|kind: KeyKind| #[trigger] r.of(kind) == top_part(kind, top, sq as int),
{
    match top {
        None => Keys::zero(),
        Some(pt) => {
            let k = top_key_at(pt, sq);
            Keys {
                stacks: k,
                blockers: if pt.is_blocker() {
                    k
                } else {
                    0
                },
                roads: if pt.is_road() {
                    k
                } else {
                    0
                },
                tops: k,
                caps: match pt {
                    PieceType::Capstone => k,
                    _ => 0,
                },
                walls: match pt {
                    PieceType::Wall => k,
                    _ => 0,
                },
            }
        },
    }
}

/// XOR can be regrouped, and mixing a value in twice takes it out again.
pub proof fn lemma_xor(a: u64, b: u64, c: u64, d: u64)
    ensures
        (a ^ b) ^ b == a,
        a ^ 0 == a,
        0 ^ a == a,
        a ^ a == 0,
        a ^ b == b ^ a,
        (a ^ b) ^ c == a ^ (b ^ c),
        ((a ^ b) ^ c) ^ d == ((a ^ d) ^ b) ^ c,
        (a ^ (b ^ d)) ^ (c ^ d) == (a ^ b) ^ c,
{
    assert((a ^ b) ^ b == a && a ^ 0 == a && 0 ^ a == a && a ^ a == 0 && a ^ b == b ^ a && (a ^ b)
        ^ c == a ^ (b ^ c) && ((a ^ b) ^ c) ^ d == ((a ^ d) ^ b) ^ c && (a ^ (b ^ d)) ^ (c ^ d)
        == (a ^ b) ^ c) by (bit_vector);
}

/// Replacing one tower takes its old part out of a key and mixes the new
/// part in.
pub proof fn lemma_mixed_update(kind: KeyKind, towers: Seq<Tower>, n: nat, s: int, t: Tower)
    requires
        0 <= s < towers.len(),
        n <= towers.len(),
    ensures
        mixed(kind, towers.update(s, t), n) == if s < n {
            mixed(kind, towers, n) ^ tower_part(kind, towers[s], s) ^ tower_part(kind, t, s)
        } else {
            mixed(kind, towers, n)
        },
    decreases n,
{
    if n > 0 {
        lemma_mixed_update(kind, towers, (n - 1) as nat, s, t);
        let below = mixed(kind, towers, (n - 1) as nat);
        let old = tower_part(kind, towers[s], s);
        let new = tower_part(kind, t, s);
        if s == n - 1 {
            lemma_xor(below, old, new, 0);
        } else if s < n - 1 {
            let last = tower_part(kind, towers[n - 1], n - 1);
            lemma_xor(below, old, new, last);
        }
    }
}

/// The keys of the empty board are zero.
pub proof fn lemma_mixed_empty(kind: KeyKind, towers: Seq<Tower>, n: nat)
    requires
        n <= towers.len(),
        forall|i: int| 0 <= i < n ==> #[trigger] towers[i] == Tower::empty(),
    ensures
        mixed(kind, towers, n) == 0,
    decreases n,
{
    if n > 0 {
        lemma_mixed_empty(kind, towers, (n - 1) as nat);
        lemma_xor(0, 0, 0, 0);
        assert(owners_key(towers[n - 1].owners, n - 1) == 0);
    }
}

} // verus!
