//! The position: stacks, bit-sets, reserves and keys, kept in step.

use crate::bitboard::{bit_at, lemma_bit_cleared, lemma_bits_binop, lemma_bits_ext, Bitboard};
use crate::keys::{
    lemma_mixed_empty, lemma_mixed_update, owner_key_at, owners_key, regen_key, top_part, KeyKind,
    Keys,
};
use crate::model::{
    drop_all, landing_ok, lemma_tally_bound, lemma_tally_same, lemma_tally_update,
    lemma_walk_frame, pieces_on_board, walk_ok, Board, Hand, Tower,
};
use crate::notation::{carried, unpack_pattern};
use crate::takmove::Move;
use crate::types::{Direction, Piece, PieceType, Player, Square};
use vstd::prelude::*;

verus! {

/// The stack on one square: bit `i` of `players` is set where the piece at
/// height `i` belongs to the second player.
#[derive(Copy, Clone, PartialEq, Eq, Debug)]
pub struct Stack {
    players: u64,
    height: u8,
    top: Option<PieceType>,
}

impl View for Stack {
    type V = Tower;

    closed spec fn view(&self) -> Tower {
        Tower {
            owners: Seq::new(
                self.height as nat,
                |i: int|
                    if bit_at(self.players, i) {
                        Player::P2
                    } else {
                        Player::P1
                    },
            ),
            top: self.top,
        }
    }
}

/// A bit that is 0 or 1, moved up to position `h`, is set there exactly when it is 1.
proof fn lemma_owner_bit(b: u64, h: int, i: int)
    requires
        b <= 1,
        0 <= h < 64,
        0 <= i < 64,
    ensures
        bit_at(b << (h as u64), i) == (i == h && b == 1),
{
    let hh = h as u64;
    let ii = i as u64;
    assert(b <= 1 && hh < 64 && ii < 64 ==> ((((b << hh) >> ii) & 1 == 1) == (ii == hh && b == 1)))
        by (bit_vector);
}

/// Mixing the parts of a tower before and after a piece went on or came off.
proof fn lemma_xor_piece(r: u64, tb: u64, ta: u64, ok: u64, o: u64)
    ensures
        (r ^ (tb ^ ok)) ^ (ta ^ (ok ^ o)) == ((r ^ tb) ^ ta) ^ o,
        (r ^ (tb ^ (ok ^ o))) ^ (ta ^ ok) == ((r ^ tb) ^ ta) ^ o,
        (r ^ tb) ^ ta == ((r ^ tb) ^ ta) ^ 0,
{
    assert((r ^ (tb ^ ok)) ^ (ta ^ (ok ^ o)) == ((r ^ tb) ^ ta) ^ o && (r ^ (tb ^ (ok ^ o))) ^ (ta
        ^ ok) == ((r ^ tb) ^ ta) ^ o && (r ^ tb) ^ ta == ((r ^ tb) ^ ta) ^ 0) by (bit_vector);
}

impl Stack {
    /// The height fits the bitmap, the stack has a top piece exactly when
    /// it has pieces, and no bit is set above the pieces.
    pub closed spec fn wf(self) -> bool {
        &&& self.height <= 63
        &&& (self.height == 0) == (self.top is None)
        &&& forall|i: int| self.height <= i < 64 ==> !bit_at(self.players, i)
    }

    /// Well-formed stacks that stand for the same tower are the same stack.
    pub proof fn lemma_same_tower(self, other: Stack)
        requires
            self.wf(),
            other.wf(),
            self@ == other@,
        ensures
            self == other,
    {
        assert(self@.owners.len() == other@.owners.len());
        assert(self@.owners.len() == self.height as nat);
        assert(other@.owners.len() == other.height as nat);
        assert(self.height == other.height);
        assert forall|i: int| 0 <= i < 64 implies bit_at(self.players, i) == bit_at(
            other.players,
            i,
        ) by {
            if i < self.height {
                assert(self@.owners[i] == other@.owners[i]);
                assert(self@.owners[i] == (if bit_at(self.players, i) {
                    Player::P2
                } else {
                    Player::P1
                }));
                assert(other@.owners[i] == (if bit_at(other.players, i) {
                    Player::P2
                } else {
                    Player::P1
                }));
            } else {
                assert(!bit_at(self.players, i));
                assert(!bit_at(other.players, i));
            }
        }
        lemma_bits_ext(self.players, other.players);
        assert(self.top == other.top);
    }

    /// A well-formed stack stands for a well-formed tower of at most 63 pieces.
    pub proof fn lemma_wf(self)
        requires
            self.wf(),
        ensures
            self@.wf(),
            self@.size() <= 63,
    {
    }

    /// The stack without pieces.
    pub fn empty() -> (r: Stack)
        ensures
            r.wf(),
            r@ == Tower::empty(),
    {
        let r = Stack { players: 0, height: 0, top: None };
        proof {
            assert forall|i: int| 0 <= i < 64 implies !bit_at(0u64, i) by {
                crate::bitboard::lemma_bits_masked(0, i);
            }
            assert(r@.owners =~= Seq::<Player>::empty());
        }
        r
    }

    pub fn is_empty(&self) -> (r: bool)
        ensures
            r == (self@.top is None),
    {
        self.top.is_none()
    }

    pub fn top(&self) -> (r: Option<PieceType>)
        ensures
            r == self@.top,
    {
        self.top
    }

    pub fn height(&self) -> (r: u8)
        ensures
            r == self@.size(),
    {
        self.height
    }

    /// The owner of the piece at height `i`, counted from the bottom.
    pub fn owner(&self, i: u8) -> (r: Player)
        requires
            i < self@.size(),
            self.wf(),
        ensures
            r == self@.owners[i as int],
    {
        if (self.players >> (i as u64)) & 1 == 1 {
            Player::P2
        } else {
            Player::P1
        }
    }

    /// The owner of the top piece.
    pub fn top_owner(&self) -> (r: Player)
        requires
            self.wf(),
            self@.size() > 0,
        ensures
            r == self@.owners.last(),
    {
        self.owner(self.height - 1)
    }

    /// The stack with one more piece on top.
    pub fn push(self, player: Player, pt: PieceType) -> (r: Stack)
        requires
            self.wf(),
            self@.size() < 63,
        ensures
            r.wf(),
            r@ == self@.push(player, pt),
    {
        let bit: u64 = player.raw() as u64;
        let r = Stack {
            players: self.players | (bit << (self.height as u64)),
            height: self.height + 1,
            top: Some(pt),
        };
        proof {
            let h = self.height as int;
            let m = bit << (self.height as u64);
            assert forall|i: int| 0 <= i < 64 implies bit_at(r.players, i) == (bit_at(
                self.players,
                i,
            ) || (i == h && bit == 1)) by {
                lemma_bits_binop(self.players, m, i);
                lemma_owner_bit(bit, h, i);
            }
            assert(r@.owners =~= self@.owners.push(player));
        }
        r
    }

    /// The stack without its top piece; what is then on top is flat.
    pub fn pop(self) -> (r: Stack)
        requires
            self.wf(),
            self@.size() > 0,
        ensures
            r.wf(),
            r@ == self@.without_top(1),
    {
        let h: u8 = self.height - 1;
        let r = Stack {
            players: self.players & !(1u64 << (h as u64)),
            height: h,
            top: if h == 0 {
                None
            } else {
                Some(PieceType::Flat)
            },
        };
        proof {
            assert forall|i: int| 0 <= i < 64 implies bit_at(r.players, i) == (bit_at(
                self.players,
                i,
            ) && i != h) by {
                lemma_bit_cleared(self.players, h as int, i);
            }
            assert(r@.owners =~= self@.owners.take(self@.owners.len() - 1));
        }
        r
    }

    /// The stack with its top piece, a wall, laid flat.
    pub fn flattened(self) -> (r: Stack)
        requires
            self.wf(),
            self@.top == Some(PieceType::Wall),
        ensures
            r.wf(),
            r@ == (Tower { top: Some(PieceType::Flat), ..self@ }),
    {
        Stack { players: self.players, height: self.height, top: Some(PieceType::Flat) }
    }

    /// A cursor over the owners of the pieces, from the bottom up.
    pub fn into_iter(self) -> (r: StackIterator)
        requires
            self.wf(),
        ensures
            r.wf(),
            r.owners() == self@.owners,
            r.position() == 0,
    {
        StackIterator { players: self.players, height: self.height, idx: 0 }
    }
}

/// A cursor over the owners of the pieces of a stack.
pub struct StackIterator {
    players: u64,
    height: u8,
    idx: u8,
}

impl StackIterator {
    /// The cursor is at or below the top of a stack of at most 63 pieces.
    pub closed spec fn wf(self) -> bool {
        self.idx <= self.height <= 63
    }

    /// The owners that the cursor walks.
    pub closed spec fn owners(self) -> Seq<Player> {
        Seq::new(
            self.height as nat,
            |i: int|
                if bit_at(self.players, i) {
                    Player::P2
                } else {
                    Player::P1
                },
        )
    }

    /// The height of the piece that `next` hands out.
    pub closed spec fn position(self) -> int {
        self.idx as int
    }

    /// The owner of the next piece, or `None` above the top.
    pub fn next(&mut self) -> (r: Option<Player>)
        requires
            old(self).wf(),
        ensures
            final(self).wf(),
            final(self).owners() == old(self).owners(),
            0 <= old(self).position() <= old(self).owners().len(),
            old(self).position() < old(self).owners().len() ==> r == Some(
                old(self).owners()[old(self).position()],
            ) && final(self).position() == old(self).position() + 1,
            old(self).position() >= old(self).owners().len() ==> r.is_none()
                && final(self).position() == old(self).position(),
    {
        if self.idx == self.height {
            return None;
        }
        let player = if (self.players >> (self.idx as u64)) & 1 == 1 {
            Player::P2
        } else {
            Player::P1
        };
        self.idx = self.idx + 1;
        Some(player)
    }
}


/// A position of the game.
#[derive(Copy, Clone, PartialEq, Eq, Debug)]
pub struct Position {
    stacks: [Stack; 36],
    players: [Bitboard; 2],
    flats: Bitboard,
    walls: Bitboard,
    caps: Bitboard,
    stm: Player,
    flats_in_hand: [u8; 2],
    caps_in_hand: [u8; 2],
    ply: u16,
    keys: Keys,
}

impl View for Position {
    type V = Board;

    closed spec fn view(&self) -> Board {
        Board {
            towers: Seq::new(36, |i: int| self.stacks[i]@),
            stm: self.stm,
            ply: self.ply as nat,
            hand1: Hand { flats: self.flats_in_hand[0] as nat, caps: self.caps_in_hand[0] as nat },
            hand2: Hand { flats: self.flats_in_hand[1] as nat, caps: self.caps_in_hand[1] as nat },
        }
    }
}

impl Position {
    /// The bit-sets say of square `i` what its stack says.
    pub closed spec fn marks_ok(self, i: int) -> bool {
        let t = self.stacks[i]@;
        &&& self.players[0].has(i) == t.owned_by(Player::P1)
        &&& self.players[1].has(i) == t.owned_by(Player::P2)
        &&& self.flats.has(i) == (t.top == Some(PieceType::Flat))
        &&& self.walls.has(i) == (t.top == Some(PieceType::Wall))
        &&& self.caps.has(i) == (t.top == Some(PieceType::Capstone))
    }

    /// The stacks are well-formed, and the bit-sets and the keys are those
    /// of the stacks.
    pub closed spec fn shape_ok(self) -> bool {
        &&& forall|i: int| 0 <= i < 36 ==> (#[trigger] self.stacks[i]).wf()
        &&& self.players[0].wf()
        &&& self.players[1].wf()
        &&& self.flats.wf()
        &&& self.walls.wf()
        &&& self.caps.wf()
        &&& forall|i: int| 0 <= i < 36 ==> #[trigger] self.marks_ok(i)
        &&& self.keys.matches(self@.towers)
    }

    /// The keys that the position keeps.
    pub closed spec fn keys(self) -> Keys {
        self.keys
    }

    /// What holds of every position: its parts are in step, and it is a
    /// position of a game.
    pub open spec fn wf(self) -> bool {
        self.shape_ok() && self@.wf()
    }

    /// The squares whose top piece belongs to `player`, as the position
    /// keeps them.
    pub closed spec fn player_set(self, player: Player) -> Bitboard {
        self.players[player.index()]
    }

    /// The squares whose top piece is of type `pt`, as the position keeps them.
    pub closed spec fn type_set(self, pt: PieceType) -> Bitboard {
        match pt {
            PieceType::Flat => self.flats,
            PieceType::Wall => self.walls,
            PieceType::Capstone => self.caps,
        }
    }

    /// In a position in step no square is in the sets of both players,
    /// none is in the sets of two piece types, the squares of the players
    /// are those of the piece types, they are the squares that hold a
    /// piece, and a stack is empty exactly where it has no top piece.
    pub proof fn lemma_sets(self, i: int)
        requires
            self.shape_ok(),
            0 <= i < 36,
        ensures
            !(self.player_set(Player::P1).has(i) && self.player_set(Player::P2).has(i)),
            !(self.type_set(PieceType::Flat).has(i) && self.type_set(PieceType::Wall).has(i)),
            !(self.type_set(PieceType::Flat).has(i) && self.type_set(PieceType::Capstone).has(i)),
            !(self.type_set(PieceType::Wall).has(i) && self.type_set(PieceType::Capstone).has(i)),
            (self.type_set(PieceType::Flat).has(i) || self.type_set(PieceType::Wall).has(i)
                || self.type_set(PieceType::Capstone).has(i)) == (self.player_set(Player::P1).has(
                i,
            ) || self.player_set(Player::P2).has(i)),
            (self.player_set(Player::P1).has(i) || self.player_set(Player::P2).has(i)) == (
            self@.towers[i].top is Some),
            (self@.towers[i].size() == 0) == (self@.towers[i].top is None),
            forall|p: Player| #[trigger] self.player_set(p).has(i) == self@.towers[i].owned_by(p),
            forall|pt: PieceType| #[trigger]
                self.type_set(pt).has(i) == (self@.towers[i].top == Some(pt)),
    {
        assert(self.marks_ok(i));
        assert(self.stacks[i].wf());
        self.stacks[i].lemma_wf();
        let t = self@.towers[i];
        assert(t == self.stacks[i]@);
        assert(t.wf());
        if t.owners.len() > 0 {
            assert(t.owned_by(Player::P1) || t.owned_by(Player::P2));
            assert(t.top == Some(PieceType::Flat) || t.top == Some(PieceType::Wall) || t.top
                == Some(PieceType::Capstone));
        }
        assert forall|p: Player| #[trigger] self.player_set(p).has(i) == t.owned_by(p) by {
            match p {
                Player::P1 => {},
                Player::P2 => {},
            }
        }
        assert forall|pt: PieceType| #[trigger] self.type_set(pt).has(i) == (t.top == Some(
            pt,
        )) by {
            match pt {
                PieceType::Flat => {},
                PieceType::Wall => {},
                PieceType::Capstone => {},
            }
        }
    }

    /// The number of plies of a position fits 16 bits.
    pub proof fn lemma_ply(self)
        ensures
            self@.ply <= 65535,
    {
    }

    /// Positions in step with the same board, side to move, plies and
    /// reserves are the same position.
    #[verifier::rlimit(30)]
    pub proof fn lemma_view_eq(self, other: Position)
        requires
            self.shape_ok(),
            other.shape_ok(),
            self@ == other@,
        ensures
            self == other,
    {
        assert forall|i: int| 0 <= i < 36 implies self.stacks[i] == other.stacks[i] by {
            assert(self.stacks[i].wf() && other.stacks[i].wf());
            assert(self@.towers[i] == other@.towers[i]);
            assert(self@.towers[i] == self.stacks[i]@);
            assert(other@.towers[i] == other.stacks[i]@);
            self.stacks[i].lemma_same_tower(other.stacks[i]);
        }
        assert(self.stacks =~= other.stacks);
        assert forall|i: int| 0 <= i < 36 implies #[trigger] self.players[0].has(i)
            == other.players[0].has(i) by {
            assert(self.marks_ok(i) && other.marks_ok(i));
        }
        assert forall|i: int| 0 <= i < 36 implies #[trigger] self.players[1].has(i)
            == other.players[1].has(i) by {
            assert(self.marks_ok(i) && other.marks_ok(i));
        }
        assert forall|i: int| 0 <= i < 36 implies #[trigger] self.flats.has(i) == other.flats.has(
            i,
        ) by {
            assert(self.marks_ok(i) && other.marks_ok(i));
        }
        assert forall|i: int| 0 <= i < 36 implies #[trigger] self.walls.has(i) == other.walls.has(
            i,
        ) by {
            assert(self.marks_ok(i) && other.marks_ok(i));
        }
        assert forall|i: int| 0 <= i < 36 implies #[trigger] self.caps.has(i) == other.caps.has(
            i,
        ) by {
            assert(self.marks_ok(i) && other.marks_ok(i));
        }
        self.players[0].lemma_same_squares(other.players[0]);
        self.players[1].lemma_same_squares(other.players[1]);
        self.flats.lemma_same_squares(other.flats);
        self.walls.lemma_same_squares(other.walls);
        self.caps.lemma_same_squares(other.caps);
        assert(self.players =~= other.players);
        assert(self.flats_in_hand =~= other.flats_in_hand) by {
            assert(self@.hand1.flats == other@.hand1.flats);
            assert(self@.hand2.flats == other@.hand2.flats);
        }
        assert(self.caps_in_hand =~= other.caps_in_hand) by {
            assert(self@.hand1.caps == other@.hand1.caps);
            assert(self@.hand2.caps == other@.hand2.caps);
        }
        assert(self.keys == other.keys) by {
            assert(self.keys.of(KeyKind::Stacks) == other.keys.of(KeyKind::Stacks));
            assert(self.keys.of(KeyKind::Blockers) == other.keys.of(KeyKind::Blockers));
            assert(self.keys.of(KeyKind::Roads) == other.keys.of(KeyKind::Roads));
            assert(self.keys.of(KeyKind::Tops) == other.keys.of(KeyKind::Tops));
            assert(self.keys.of(KeyKind::Caps) == other.keys.of(KeyKind::Caps));
            assert(self.keys.of(KeyKind::Walls) == other.keys.of(KeyKind::Walls));
        }
    }

    /// The keys of a position in step are the keys made from its board.
    pub proof fn lemma_keys(self)
        requires
            self.shape_ok(),
        ensures
            self.keys().matches(self@.towers),
            self@.towers.len() == 36,
    {
    }

    /// A position with the stacks, bit-sets and keys of one that is in
    /// step is in step.
    proof fn lemma_same_shape(self, other: Position)
        requires
            other.shape_ok(),
            self.stacks == other.stacks,
            self.players == other.players,
            self.flats == other.flats,
            self.walls == other.walls,
            self.caps == other.caps,
            self.keys == other.keys,
        ensures
            self.shape_ok(),
    {
        assert(self@.towers =~= other@.towers);
        assert forall|j: int| 0 <= j < 36 implies #[trigger] self.marks_ok(j) by {
            assert(other.marks_ok(j));
        }
    }

    /// Puts a piece of type `pt` of `player` on top of the stack on `sq`.
    #[verifier::rlimit(30)]
    pub(crate) fn put(&mut self, sq: Square, player: Player, pt: PieceType)
        requires
            old(self).shape_ok(),
            old(self)@.towers[sq.index()].size() < 63,
        ensures
            final(self).shape_ok(),
            final(self)@ == (Board {
                towers: old(self)@.towers.update(
                    sq.index(),
                    old(self)@.towers[sq.index()].push(player, pt),
                ),
                ..old(self)@
            }),
    {
        let i = sq.idx();
        let st = self.stacks[i];
        let before = st.top();
        let extra = owner_key_at(st.height(), player, sq.raw());
        let new = st.push(player, pt);
        let ghost old_towers = self@.towers;
        let ghost old_keys = self.keys;
        self.stacks[i] = new;
        let mine = self.players[player.idx()].with_sq(sq);
        let theirs = self.players[player.flip().idx()].without_sq(sq);
        self.players = match player {
            Player::P1 => [mine, theirs],
            Player::P2 => [theirs, mine],
        };
        self.flats = self.flats.without_sq(sq);
        self.walls = self.walls.without_sq(sq);
        self.caps = self.caps.without_sq(sq);
        match pt {
            PieceType::Flat => {
                self.flats = self.flats.with_sq(sq);
            },
            PieceType::Wall => {
                self.walls = self.walls.with_sq(sq);
            },
            PieceType::Capstone => {
                self.caps = self.caps.with_sq(sq);
            },
        }
        self.keys = self.keys.retop(sq.raw(), before, Some(pt), extra);
        proof {
            let towers = self@.towers;
            assert(towers =~= old_towers.update(i as int, new@));
            assert(new@.owners.drop_last() =~= st@.owners);
            assert forall|kind: KeyKind| #[trigger] self.keys.of(kind) == regen_key(
                kind,
                towers,
            ) by {
                lemma_mixed_update(kind, old_towers, 36, i as int, new@);
                assert(old_keys.of(kind) == regen_key(kind, old_towers));
                let r = regen_key(kind, old_towers);
                let tb = top_part(kind, before, i as int);
                let ta = top_part(kind, Some(pt), i as int);
                lemma_xor_piece(r, tb, ta, owners_key(st@.owners, i as int), extra);
            }
            assert forall|j: int| 0 <= j < 36 implies #[trigger] self.marks_ok(j) by {
                assert(old(self).marks_ok(j));
            }
        }
    }

    /// Sets the side to move, the number of plies played and the reserves.
    pub(crate) fn set_state(&mut self, stm: Player, ply: u16, flats: [u8; 2], caps: [u8; 2])
        requires
            old(self).shape_ok(),
        ensures
            final(self).shape_ok(),
            final(self)@ == (Board {
                towers: old(self)@.towers,
                stm,
                ply: ply as nat,
                hand1: Hand { flats: flats[0] as nat, caps: caps[0] as nat },
                hand2: Hand { flats: flats[1] as nat, caps: caps[1] as nat },
            }),
    {
        let ghost before = *self;
        self.stm = stm;
        self.ply = ply;
        self.flats_in_hand = flats;
        self.caps_in_hand = caps;
        proof {
            self.lemma_same_shape(before);
            assert(self@.towers =~= before@.towers);
        }
    }

    /// The towers of a position in step are well-formed and hold at most
    /// 63 pieces each.
    pub proof fn lemma_towers(self)
        requires
            self.shape_ok(),
        ensures
            self@.towers.len() == 36,
            forall|i: int| 0 <= i < 36 ==> (#[trigger] self@.towers[i]).wf() && self@.towers[i].size() <= 63,
    {
        assert forall|i: int| 0 <= i < 36 implies (#[trigger] self@.towers[i]).wf()
            && self@.towers[i].size() <= 63 by {
            assert(self.stacks[i].wf());
            self.stacks[i].lemma_wf();
        }
    }

    /// Takes the top piece off the stack on `sq` and gives its owner.
    #[verifier::rlimit(30)]
    fn take(&mut self, sq: Square) -> (r: Player)
        requires
            old(self).shape_ok(),
            old(self)@.towers[sq.index()].size() > 0,
        ensures
            final(self).shape_ok(),
            r == old(self)@.towers[sq.index()].owners.last(),
            final(self)@ == (Board {
                towers: old(self)@.towers.update(
                    sq.index(),
                    old(self)@.towers[sq.index()].without_top(1),
                ),
                ..old(self)@
            }),
    {
        let i = sq.idx();
        let st = self.stacks[i];
        let before = st.top();
        let owner = st.top_owner();
        let extra = owner_key_at(st.height() - 1, owner, sq.raw());
        let new = st.pop();
        let ghost old_towers = self@.towers;
        let ghost old_keys = self.keys;
        self.stacks[i] = new;
        let mut first = self.players[0].without_sq(sq);
        let mut second = self.players[1].without_sq(sq);
        self.flats = self.flats.without_sq(sq);
        self.walls = self.walls.without_sq(sq);
        self.caps = self.caps.without_sq(sq);
        if new.height() > 0 {
            self.flats = self.flats.with_sq(sq);
            match new.top_owner() {
                Player::P1 => {
                    first = first.with_sq(sq);
                },
                Player::P2 => {
                    second = second.with_sq(sq);
                },
            }
        }
        self.players = [first, second];
        self.keys = self.keys.retop(sq.raw(), before, new.top(), extra);
        proof {
            let towers = self@.towers;
            assert(towers =~= old_towers.update(i as int, new@));
            assert(st@.owners.drop_last() =~= new@.owners);
            assert forall|kind: KeyKind| #[trigger] self.keys.of(kind) == regen_key(
                kind,
                towers,
            ) by {
                lemma_mixed_update(kind, old_towers, 36, i as int, new@);
                assert(old_keys.of(kind) == regen_key(kind, old_towers));
                let r = regen_key(kind, old_towers);
                let tb = top_part(kind, before, i as int);
                let ta = top_part(kind, new@.top, i as int);
                lemma_xor_piece(r, tb, ta, owners_key(new@.owners, i as int), extra);
            }
            assert forall|j: int| 0 <= j < 36 implies #[trigger] self.marks_ok(j) by {
                assert(old(self).marks_ok(j));
            }
        }
        owner
    }

    /// Lays the wall on top of the stack on `sq` flat.
    fn flatten(&mut self, sq: Square)
        requires
            old(self).shape_ok(),
            old(self)@.towers[sq.index()].top == Some(PieceType::Wall),
        ensures
            final(self).shape_ok(),
            final(self)@ == (Board {
                towers: old(self)@.towers.update(
                    sq.index(),
                    (Tower { top: Some(PieceType::Flat), ..old(self)@.towers[sq.index()] }),
                ),
                ..old(self)@
            }),
    {
        let i = sq.idx();
        let st = self.stacks[i];
        let new = st.flattened();
        let ghost old_towers = self@.towers;
        let ghost old_keys = self.keys;
        self.stacks[i] = new;
        self.walls = self.walls.without_sq(sq);
        self.flats = self.flats.with_sq(sq);
        self.keys = self.keys.retop(
            sq.raw(),
            Some(PieceType::Wall),
            Some(PieceType::Flat),
            0,
        );
        proof {
            let towers = self@.towers;
            assert(towers =~= old_towers.update(i as int, new@));
            assert forall|kind: KeyKind| #[trigger] self.keys.of(kind) == regen_key(
                kind,
                towers,
            ) by {
                lemma_mixed_update(kind, old_towers, 36, i as int, new@);
                assert(old_keys.of(kind) == regen_key(kind, old_towers));
                let r = regen_key(kind, old_towers);
                let tb = top_part(kind, Some(PieceType::Wall), i as int);
                let ta = top_part(kind, Some(PieceType::Flat), i as int);
                lemma_xor_piece(r, tb, ta, owners_key(new@.owners, i as int), 0);
                crate::keys::lemma_xor(r, tb, ta, owners_key(new@.owners, i as int));
            }
            assert forall|j: int| 0 <= j < 36 implies #[trigger] self.marks_ok(j) by {
                assert(old(self).marks_ok(j));
            }
        }
    }
}


impl Position {
    /// The empty board with the first player to move.
    pub fn startpos() -> (r: Position)
        ensures
            r.wf(),
            r@ == Board::start(),
    {
        let r = Position {
            stacks: [Stack::empty();36],
            players: [Bitboard::empty();2],
            flats: Bitboard::empty(),
            walls: Bitboard::empty(),
            caps: Bitboard::empty(),
            stm: Player::P1,
            flats_in_hand: [30;2],
            caps_in_hand: [1;2],
            ply: 0,
            keys: Keys::zero(),
        };
        proof {
            assert(r@.towers =~= Board::start().towers);
            assert forall|kind: KeyKind| #[trigger] r.keys.of(kind) == regen_key(
                kind,
                r@.towers,
            ) by {
                lemma_mixed_empty(kind, r@.towers, 36);
            }
            assert forall|j: int| 0 <= j < 36 implies #[trigger] r.marks_ok(j) by {}
            Board::lemma_start_wf();
        }
        r
    }

    /// The side to move.
    pub fn stm(&self) -> (r: Player)
        ensures
            r == self@.stm,
    {
        self.stm
    }

    /// The stack on `sq`.
    pub fn stack_on(&self, sq: Square) -> (r: &Stack)
        ensures
            r@ == self@.towers[sq.index()],
            self.shape_ok() ==> r.wf(),
    {
        &self.stacks[sq.idx()]
    }

    /// The number of plies played.
    pub fn ply(&self) -> (r: u16)
        ensures
            r == self@.ply,
    {
        self.ply
    }

    /// The flats that `player` has left to place.
    pub fn flats_in_hand(&self, player: Player) -> (r: u8)
        ensures
            r == self@.hand(player).flats,
    {
        self.flats_in_hand[player.idx()]
    }

    /// The capstones that `player` has left to place.
    pub fn caps_in_hand(&self, player: Player) -> (r: u8)
        ensures
            r == self@.hand(player).caps,
    {
        self.caps_in_hand[player.idx()]
    }

    /// The squares whose top piece belongs to `player`.
    pub fn player_bb(&self, player: Player) -> (r: Bitboard)
        requires
            self.shape_ok(),
        ensures
            r.wf(),
            r == self.player_set(player),
            forall|i: int| 0 <= i < 36 ==> #[trigger] r.has(i) == self@.towers[i].owned_by(player),
    {
        let r = self.players[player.idx()];
        proof {
            assert forall|i: int| 0 <= i < 36 implies #[trigger] r.has(i)
                == self@.towers[i].owned_by(player) by {
                assert(self.marks_ok(i));
            }
        }
        r
    }

    /// The squares whose top piece is of type `pt`.
    pub fn type_bb(&self, pt: PieceType) -> (r: Bitboard)
        requires
            self.shape_ok(),
        ensures
            r.wf(),
            r == self.type_set(pt),
            forall|i: int| 0 <= i < 36 ==> #[trigger] r.has(i) == (self@.towers[i].top == Some(pt)),
    {
        let r = match pt {
            PieceType::Flat => self.flats,
            PieceType::Wall => self.walls,
            PieceType::Capstone => self.caps,
        };
        proof {
            assert forall|i: int| 0 <= i < 36 implies #[trigger] r.has(i) == (self@.towers[i].top
                == Some(pt)) by {
                assert(self.marks_ok(i));
            }
        }
        r
    }

    /// The squares whose top piece is `piece`.
    pub fn player_piece_bb(&self, piece: Piece) -> (r: Bitboard)
        requires
            self.shape_ok(),
        ensures
            r.wf(),
            forall|i: int|
                0 <= i < 36 ==> #[trigger] r.has(i) == self@.towers[i].topped_by(
                    piece.owner(),
                    piece.kind(),
                ),
    {
        self.player_bb(piece.player()).and(self.type_bb(piece.piece_type()))
    }

    /// The squares that hold a piece.
    pub fn occupied(&self) -> (r: Bitboard)
        requires
            self.shape_ok(),
        ensures
            r.wf(),
            forall|i: int| 0 <= i < 36 ==> #[trigger] r.has(i) == (self@.towers[i].top is Some),
    {
        let r = self.player_bb(Player::P1).or(self.player_bb(Player::P2));
        proof {
            assert forall|i: int| 0 <= i < 36 implies #[trigger] r.has(i) == (self@.towers[i].top
                is Some) by {
                assert(self.stacks[i].wf());
                self.stacks[i].lemma_wf();
            }
        }
        r
    }

    /// The squares where `player` has a flat or a capstone on top.
    pub fn roads(&self, player: Player) -> (r: Bitboard)
        requires
            self.shape_ok(),
        ensures
            r.wf(),
            forall|i: int|
                0 <= i < 36 ==> #[trigger] r.has(i) == (self@.towers[i].owned_by(player)
                    && self@.towers[i].top != Some(PieceType::Wall)),
    {
        self.player_bb(player).and(self.type_bb(PieceType::Wall).cmpl())
    }

    /// The squares with a wall or a capstone on top.
    pub fn all_blockers(&self) -> (r: Bitboard)
        requires
            self.shape_ok(),
        ensures
            r.wf(),
            forall|i: int|
                0 <= i < 36 ==> #[trigger] r.has(i) == (self@.towers[i].top == Some(
                    PieceType::Wall,
                ) || self@.towers[i].top == Some(PieceType::Capstone)),
    {
        self.type_bb(PieceType::Wall).or(self.type_bb(PieceType::Capstone))
    }

    /// The key of the position: that of all pieces, with the key of the
    /// side mixed in where the second player is to move.
    pub fn key(&self) -> (r: u64)
        requires
            self.shape_ok(),
        ensures
            r == self@.key(),
    {
        proof {
            assert(self.keys.of(KeyKind::Stacks) == regen_key(KeyKind::Stacks, self@.towers));
        }
        match self.stm {
            Player::P1 => self.keys.stacks,
            Player::P2 => self.keys.stacks ^ crate::keys::side_key_value(),
        }
    }

    /// The key of the walls and capstones on top.
    pub fn blocker_key(&self) -> (r: u64)
        requires
            self.shape_ok(),
        ensures
            r == regen_key(KeyKind::Blockers, self@.towers),
    {
        proof {
            assert(self.keys.of(KeyKind::Blockers) == regen_key(KeyKind::Blockers, self@.towers));
        }
        self.keys.blockers
    }

    /// The key of the flats and capstones on top.
    pub fn road_key(&self) -> (r: u64)
        requires
            self.shape_ok(),
        ensures
            r == regen_key(KeyKind::Roads, self@.towers),
    {
        proof {
            assert(self.keys.of(KeyKind::Roads) == regen_key(KeyKind::Roads, self@.towers));
        }
        self.keys.roads
    }

    /// The key of all top pieces.
    pub fn top_key(&self) -> (r: u64)
        requires
            self.shape_ok(),
        ensures
            r == regen_key(KeyKind::Tops, self@.towers),
    {
        proof {
            assert(self.keys.of(KeyKind::Tops) == regen_key(KeyKind::Tops, self@.towers));
        }
        self.keys.tops
    }

    /// The key of the capstones.
    pub fn cap_key(&self) -> (r: u64)
        requires
            self.shape_ok(),
        ensures
            r == regen_key(KeyKind::Caps, self@.towers),
    {
        proof {
            assert(self.keys.of(KeyKind::Caps) == regen_key(KeyKind::Caps, self@.towers));
        }
        self.keys.caps
    }

    /// The key of the walls.
    pub fn wall_key(&self) -> (r: u64)
        requires
            self.shape_ok(),
        ensures
            r == regen_key(KeyKind::Walls, self@.towers),
    {
        proof {
            assert(self.keys.of(KeyKind::Walls) == regen_key(KeyKind::Walls, self@.towers));
        }
        self.keys.walls
    }

    /// Whether the pieces of a spread can be dropped as the schedule says.
    fn walk_is_ok(&self, from: Square, dir: Direction, taken: u8, bits: u16, cap: bool) -> (r:
        bool)
        requires
            self.shape_ok(),
        ensures
            r == walk_ok(self@.towers, from.index(), dir, taken as nat, bits as nat, cap),
    {
        let mut sq = from;
        let mut n: u8 = taken;
        let mut b: u16 = bits;
        let ghost towers = self@.towers;
        let ghost whole = walk_ok(towers, from.index(), dir, taken as nat, bits as nat, cap);
        while n > 0
            invariant
                towers == self@.towers,
                whole == walk_ok(towers, from.index(), dir, taken as nat, bits as nat, cap),
                whole == walk_ok(towers, sq.index(), dir, n as nat, b as nat, cap),
            decreases n,
        {
            if b % 2 == 1 {
                match sq.shift_checked(dir) {
                    None => {
                        return false;
                    },
                    Some(next) => {
                        let ok = match self.stacks[next.idx()].top() {
                            None => true,
                            Some(PieceType::Flat) => true,
                            Some(PieceType::Wall) => n == 1 && cap,
                            Some(PieceType::Capstone) => false,
                        };
                        assert(ok == landing_ok(towers[next.index()].top, n == 1 && cap));
                        if !ok {
                            return false;
                        }
                        sq = next;
                    },
                }
            }
            b = b / 2;
            n = n - 1;
        }
        true
    }

    /// Whether `mv` may be played in this position.
    pub fn is_legal(&self, mv: Move) -> (r: bool)
        requires
            self.wf(),
        ensures
            r == self@.legal(mv),
    {
        if !mv.is_valid() {
            return false;
        }
        let sq = mv.sq();
        proof {
            sq.lemma_at_index();
        }
        let st = self.stacks[sq.idx()];
        assert(st.wf());
        proof {
            st.lemma_wf();
        }
        if mv.is_spread() {
            if self.ply < 2 || st.is_empty() {
                return false;
            }
            match (st.top_owner(), self.stm) {
                (Player::P1, Player::P2) => {
                    return false;
                },
                (Player::P2, Player::P1) => {
                    return false;
                },
                _ => {},
            }
            let (taken, bits) = unpack_pattern(mv.pattern());
            if taken > st.height() {
                return false;
            }
            let cap = match st.top() {
                Some(PieceType::Capstone) => true,
                _ => false,
            };
            self.walk_is_ok(sq, mv.dir(), taken, bits, cap)
        } else {
            if !st.is_empty() {
                return false;
            }
            let pt = mv.pt();
            let placer = if self.ply < 2 {
                self.stm.flip()
            } else {
                self.stm
            };
            match pt {
                PieceType::Flat => self.flats_in_hand[placer.idx()] >= 1,
                PieceType::Wall => self.ply >= 2 && self.flats_in_hand[placer.idx()] >= 1,
                PieceType::Capstone => self.ply >= 2 && self.caps_in_hand[placer.idx()] >= 1,
            }
        }
    }
}


impl Position {
    /// Takes the top `taken` pieces off the stack on `sq`; gives their
    /// owners, lowest first.
    #[verifier::rlimit(30)]
    fn lift(&mut self, sq: Square, taken: u8) -> (carry: [Player; 6])
        requires
            old(self).shape_ok(),
            1 <= taken <= 6,
            taken <= old(self)@.towers[sq.index()].size(),
        ensures
            final(self).shape_ok(),
            final(self)@ == (Board {
                towers: old(self)@.towers.update(
                    sq.index(),
                    old(self)@.towers[sq.index()].without_top(taken as nat),
                ),
                ..old(self)@
            }),
            carry@.take(taken as int) == old(self)@.towers[sq.index()].top_owners(taken as nat),
            pieces_on_board(final(self)@.towers) == pieces_on_board(old(self)@.towers) - taken,
    {
        let mut carry: [Player; 6] = [Player::P1;6];
        let mut k: u8 = taken;
        let ghost origin = self@.towers[sq.index()];
        let ghost start = self@;
        while k > 0
            invariant
                k <= taken <= 6,
                taken <= origin.size(),
                start.towers.len() == 36,
                origin == start.towers[sq.index()],
                self.shape_ok(),
                k == taken ==> self@ == start,
                k < taken ==> self@ == (Board {
                    towers: start.towers.update(
                        sq.index(),
                        origin.without_top((taken - k) as nat),
                    ),
                    ..start
                }),
                forall|j: int|
                    k <= j < taken ==> carry@[j] == origin.owners[origin.owners.len() - taken + j],
                pieces_on_board(self@.towers) == pieces_on_board(start.towers) - (taken - k),
            decreases k,
        {
            let ghost before = self@.towers;
            let ghost held = before[sq.index()];
            k = k - 1;
            let owner = self.take(sq);
            carry[k as usize] = owner;
            proof {
                let next = origin.without_top((taken - k) as nat);
                assert(held.without_top(1).owners =~= next.owners);
                assert(held.without_top(1) == next);
                assert(self@.towers =~= start.towers.update(sq.index(), next));
                lemma_tally_update(before, |t: Tower| t.size() as int, 36, sq.index(), next);
            }
        }
        proof {
            assert(carry@.take(taken as int) =~= origin.top_owners(taken as nat));
        }
        carry
    }

    /// Puts a piece on the stack on `at`, which a wall on top does not
    /// hinder: it is laid flat.
    fn land(&mut self, at: Square, player: Player, kind: PieceType)
        requires
            old(self).shape_ok(),
            old(self)@.towers.len() == 36,
            pieces_on_board(old(self)@.towers) < 62,
        ensures
            final(self).shape_ok(),
            final(self)@ == (Board {
                towers: old(self)@.towers.update(
                    at.index(),
                    old(self)@.towers[at.index()].push(player, kind),
                ),
                ..old(self)@
            }),
            pieces_on_board(final(self)@.towers) == pieces_on_board(old(self)@.towers) + 1,
    {
        let ghost before = self@.towers;
        match self.stacks[at.idx()].top() {
            Some(PieceType::Wall) => {
                self.flatten(at);
            },
            _ => {},
        }
        let ghost flat = self@.towers;
        proof {
            assert forall|i: int| 0 <= i < 36 implies (|t: Tower| t.size() as int)(
                #[trigger] flat[i],
            ) >= 0 by {}
            lemma_tally_bound(flat, |t: Tower| t.size() as int, 36, at.index());
            lemma_tally_same(before, flat, |t: Tower| t.size() as int, 36);
        }
        self.put(at, player, kind);
        proof {
            let pushed = before[at.index()].push(player, kind);
            assert(flat[at.index()].push(player, kind) == pushed);
            assert(self@.towers =~= before.update(at.index(), pushed));
            lemma_tally_update(flat, |t: Tower| t.size() as int, 36, at.index(), pushed);
        }
    }

    /// Drops the carried pieces from `from` on as the schedule says; the
    /// last piece is of type `top`.
    #[verifier::rlimit(30)]
    fn drop(
        &mut self,
        from: Square,
        dir: Direction,
        carry: [Player; 6],
        taken: u8,
        bits: u16,
        top: PieceType,
    )
        requires
            old(self).shape_ok(),
            1 <= taken <= 6,
            bits % 2 == 1,
            walk_ok(
                old(self)@.towers,
                from.index(),
                dir,
                taken as nat,
                bits as nat,
                top == PieceType::Capstone,
            ),
            pieces_on_board(old(self)@.towers) + taken <= 62,
        ensures
            final(self).shape_ok(),
            final(self)@ == (Board {
                towers: drop_all(
                    old(self)@.towers,
                    from.index(),
                    dir,
                    carry@.take(taken as int),
                    bits as nat,
                    top,
                ),
                ..old(self)@
            }),
    {
        let ghost start = self@;
        let ghost all = carry@.take(taken as int);
        let ghost target = drop_all(start.towers, from.index(), dir, all, bits as nat, top);
        let cap = match top {
            PieceType::Capstone => true,
            _ => false,
        };
        let mut at = from;
        let mut j: u8 = 0;
        let mut b: u16 = bits;
        proof {
            assert(all.skip(0) =~= all);
        }
        while j < taken
            invariant
                j <= taken <= 6,
                cap == (top == PieceType::Capstone),
                all == carry@.take(taken as int),
                self.shape_ok(),
                self@ == (Board { towers: self@.towers, ..start }),
                self@.towers.len() == 36,
                target == drop_all(
                    self@.towers,
                    at.index(),
                    dir,
                    all.skip(j as int),
                    b as nat,
                    top,
                ),
                walk_ok(self@.towers, at.index(), dir, (taken - j) as nat, b as nat, cap),
                j == 0 ==> b % 2 == 1,
                0 < j < taken ==> self@.towers[at.index()].top == Some(PieceType::Flat),
                pieces_on_board(self@.towers) + (taken - j) <= 62,
            decreases taken - j,
        {
            let ghost before = self@.towers;
            let ghost here = at.index();
            if b % 2 == 1 {
                match at.shift_checked(dir) {
                    Some(next) => {
                        at = next;
                    },
                    None => {},
                }
            }
            let kind = if j + 1 == taken {
                top
            } else {
                PieceType::Flat
            };
            self.land(at, carry[j as usize], kind);
            proof {
                let rest = all.skip(j as int);
                assert(rest[0] == carry@[j as int]);
                assert(rest.skip(1) =~= all.skip(j + 1));
                lemma_walk_frame(
                    before,
                    self@.towers,
                    at.index(),
                    dir,
                    (taken - j - 1) as nat,
                    (b / 2) as nat,
                    cap,
                );
            }
            b = b / 2;
            j = j + 1;
        }
    }

    /// The position after the side to move passed, which no rule allows
    /// but a search may try.
    pub fn apply_nullmove(&self) -> (r: Position)
        requires
            self.wf(),
            self@.ply < u16::MAX,
        ensures
            r.wf(),
            r@ == self@.pass(),
    {
        let mut pos = *self;
        pos.stm = pos.stm.flip();
        pos.ply = pos.ply + 1;
        proof {
            pos.lemma_same_shape(*self);
            assert(pos@.towers =~= self@.towers);
        }
        pos
    }

    /// The position after `mv`.
    #[verifier::rlimit(30)]
    pub fn apply_move(&self, mv: Move) -> (r: Position)
        requires
            self.wf(),
            self@.legal(mv),
            self@.ply < u16::MAX,
        ensures
            r.wf(),
            r@ == self@.play(mv),
            r.keys().matches(r@.towers),
    {
        let mut pos = *self;
        let ghost mut mid = pos;
        let sq = mv.sq();
        proof {
            sq.lemma_at_index();
            self@.lemma_play_wf(mv);
            self@.lemma_piece_count(Player::P1);
        }
        if mv.is_spread() {
            let st = self.stacks[sq.idx()];
            let (taken, bits) = unpack_pattern(mv.pattern());
            let top = match st.top() {
                Some(pt) => pt,
                None => PieceType::Flat,
            };
            proof {
                assert(st.wf());
                st.lemma_wf();
                self@.lemma_lifted(mv, Player::P1);
            }
            let carry = pos.lift(sq, taken);
            assert(pos@.towers == self@.lifted(mv));
            pos.drop(sq, mv.dir(), carry, taken, bits, top);
            assert(pos@.towers == self@.spread(mv));
            proof {
                mid = pos;
            }
        } else {
            let pt = mv.pt();
            let placer = if self.ply < 2 {
                self.stm.flip()
            } else {
                self.stm
            };
            proof {
                assert(self.stacks[sq.index()].wf());
                self.stacks[sq.index()].lemma_wf();
            }
            pos.put(sq, placer, pt);
            proof {
                mid = pos;
            }
            match pt {
                PieceType::Capstone => {
                    let left: u8 = pos.caps_in_hand[placer.idx()] - 1;
                    pos.caps_in_hand[placer.idx()] = left;
                },
                _ => {
                    let left: u8 = pos.flats_in_hand[placer.idx()] - 1;
                    pos.flats_in_hand[placer.idx()] = left;
                },
            }
        }
        pos.stm = pos.stm.flip();
        pos.ply = pos.ply + 1;
        assert(pos@ == self@.play(mv));
        proof {
            pos.lemma_same_shape(mid);
        }
        pos
    }
}

} // verus!
