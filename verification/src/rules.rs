//! How a game ends: by a road, or by counting flats once the board is full
//! or a player has run out of pieces.

use crate::bitboard::{ones_below, Bitboard};
use crate::board::Position;
use crate::model::{tally, Board, Tower};
use crate::road::{adjacent, has_road, is_path, joins, road};
use crate::types::{step_on_board, Direction, PieceType, Player};
use vstd::prelude::*;

verus! {

/// The flats that are added to the second player's count.
pub const KOMI: u32 = 2;

/// What counting the flats says.
#[derive(Copy, Clone, PartialEq, Eq, Structural, Debug)]
pub enum FlatCountOutcome {
    /// The game goes on.
    Undecided,
    Draw,
    Win(Player),
}

impl Board {
    /// Whether the top piece on square `i` belongs to `pl` and counts for a road.
    pub open spec fn road_square(self, pl: Player, i: int) -> bool {
        self.towers[i].owned_by(pl) && self.towers[i].top != Some(PieceType::Wall)
    }

    /// Whether `p` is a chain of road squares of `pl`, each one step from
    /// the one before.
    pub open spec fn chain(self, pl: Player, p: Seq<int>) -> bool {
        &&& forall|k: int| 0 <= k < p.len() ==> 0 <= #[trigger] p[k] < 36 && self.road_square(pl, p[k])
        &&& forall|k: int| 0 <= k < p.len() - 1 ==> adjacent(#[trigger] p[k], p[k + 1])
    }

    /// Whether a chain of road squares of `pl` joins the edges in the
    /// directions `a` and `b`.
    pub open spec fn chain_joins(self, pl: Player, a: Direction, b: Direction) -> bool {
        exists|p: Seq<int>|
            #[trigger] self.chain(pl, p) && p.len() > 0 && !step_on_board(p[0], a)
                && !step_on_board(p.last(), b)
    }

    /// Whether `pl` has a road: a chain of flats and capstones from the
    /// upper to the lower edge or from the left to the right edge.
    pub open spec fn has_road(self, pl: Player) -> bool {
        self.chain_joins(pl, Direction::Up, Direction::Down) || self.chain_joins(
            pl,
            Direction::Left,
            Direction::Right,
        )
    }

    /// The number of squares on which `pl` has a flat on top.
    pub open spec fn flats_of(self, pl: Player) -> int {
        tally(
            self.towers,
            |t: Tower|
                if t.topped_by(pl, PieceType::Flat) {
                    1int
                } else {
                    0int
                },
            36,
        )
    }

    /// Whether every square holds a piece.
    pub open spec fn full(self) -> bool {
        forall|i: int| 0 <= i < 36 ==> (#[trigger] self.towers[i]).top is Some
    }

    /// Whether `pl` has no piece left to place.
    pub open spec fn out_of_pieces(self, pl: Player) -> bool {
        self.hand(pl).flats == 0 && self.hand(pl).caps == 0
    }

    /// The result by flats: none while there is an empty square and both
    /// players have pieces; else the first player wins with more flats than
    /// the second has with the komi, and loses with fewer.
    pub open spec fn flat_count(self) -> FlatCountOutcome {
        if !(self.full() || self.out_of_pieces(Player::P1) || self.out_of_pieces(Player::P2)) {
            FlatCountOutcome::Undecided
        } else if self.flats_of(Player::P1) > self.flats_of(Player::P2) + KOMI {
            FlatCountOutcome::Win(Player::P1)
        } else if self.flats_of(Player::P1) == self.flats_of(Player::P2) + KOMI {
            FlatCountOutcome::Draw
        } else {
            FlatCountOutcome::Win(Player::P2)
        }
    }
}

/// A tally of ones and zeros is the number of squares of the set that
/// holds the squares counted one.
pub proof fn lemma_count_tally(bb: Bitboard, towers: Seq<Tower>, f: spec_fn(Tower) -> int, n: nat)
    requires
        n <= 36,
        towers.len() == 36,
        forall|i: int|
            0 <= i < n ==> f(#[trigger] towers[i]) == if bb.has(i) {
                1int
            } else {
                0int
            },
    ensures
        tally(towers, f, n) == ones_below(bb.value(), n),
    decreases n,
{
    if n > 0 {
        lemma_count_tally(bb, towers, f, (n - 1) as nat);
    }
}

/// A set that holds the road squares of `pl` joins two edges exactly when
/// a chain of road squares does.
proof fn lemma_joins(b: Board, pl: Player, occ: Bitboard, from: Direction, to: Direction)
    requires
        forall|i: int| 0 <= i < 36 ==> #[trigger] occ.has(i) == b.road_square(pl, i),
    ensures
        joins(occ, from, to) == b.chain_joins(pl, from, to),
{
    if joins(occ, from, to) {
        let p = choose|p: Seq<int>| #[trigger]
            is_path(occ, p) && p.len() > 0 && !step_on_board(p[0], from) && !step_on_board(
                p.last(),
                to,
            );
        assert(b.chain(pl, p)) by {
            assert forall|k: int| 0 <= k < p.len() implies 0 <= #[trigger] p[k] < 36
                && b.road_square(pl, p[k]) by {
                assert(occ.has(p[k]));
            }
        }
    }
    if b.chain_joins(pl, from, to) {
        let p = choose|p: Seq<int>| #[trigger]
            b.chain(pl, p) && p.len() > 0 && !step_on_board(p[0], from) && !step_on_board(
                p.last(),
                to,
            );
        assert(is_path(occ, p)) by {
            assert forall|k: int| 0 <= k < p.len() implies 0 <= #[trigger] p[k] < 36 && occ.has(
                p[k],
            ) by {
                assert(b.road_square(pl, p[k]));
            }
        }
    }
}

impl Position {
    /// Whether `player` has a road.
    pub fn has_road(&self, player: Player) -> (r: bool)
        requires
            self.shape_ok(),
        ensures
            r == self@.has_road(player),
    {
        let occ = self.roads(player);
        proof {
            lemma_joins(self@, player, occ, Direction::Up, Direction::Down);
            lemma_joins(self@, player, occ, Direction::Left, Direction::Right);
        }
        has_road(occ)
    }

    /// The number of squares on which `player` has a flat on top.
    pub fn flats_of(&self, player: Player) -> (r: u32)
        requires
            self.shape_ok(),
        ensures
            r == self@.flats_of(player),
            r <= 36,
    {
        let bb = self.player_piece_bb(PieceType::Flat.with_player(player));
        proof {
            self.lemma_keys();
            lemma_count_tally(
                bb,
                self@.towers,
                |t: Tower|
                    if t.topped_by(player, PieceType::Flat) {
                        1int
                    } else {
                        0int
                    },
                36,
            );
        }
        bb.popcount()
    }

    /// The result by flats, if the board is full or a player has no piece
    /// left.
    pub fn count_flats(&self) -> (r: FlatCountOutcome)
        requires
            self.shape_ok(),
        ensures
            r == self@.flat_count(),
    {
        let free = self.occupied().cmpl();
        let full = free.is_empty();
        proof {
            self.lemma_keys();
            if full {
                assert forall|i: int| 0 <= i < 36 implies (#[trigger] self@.towers[i]).top
                    is Some by {
                    assert(!free.has(i));
                }
            } else {
                let i = choose|i: int| 0 <= i < 64 && free.has(i);
                assert(self@.towers[i].top is None);
            }
        }
        let out1 = self.flats_in_hand(Player::P1) == 0 && self.caps_in_hand(Player::P1) == 0;
        let out2 = self.flats_in_hand(Player::P2) == 0 && self.caps_in_hand(Player::P2) == 0;
        if !(full || out1 || out2) {
            return FlatCountOutcome::Undecided;
        }
        let first = self.flats_of(Player::P1);
        let second = self.flats_of(Player::P2) + KOMI;
        if first > second {
            FlatCountOutcome::Win(Player::P1)
        } else if first == second {
            FlatCountOutcome::Draw
        } else {
            FlatCountOutcome::Win(Player::P2)
        }
    }
}

} // verus!
