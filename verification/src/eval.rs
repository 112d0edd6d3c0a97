//! The static evaluation of a position.

use crate::bitboard::{ones_below, Bitboard};
use crate::board::Position;
use crate::model::{count_owner, tally, Board, Tower};
use crate::rules::KOMI;
use crate::types::{Direction, PieceType, Player, Square};
use vstd::prelude::*;

verus! {

/// The score of a position, in hundredths of a flat or so.
pub type Score = i32;

/// The value of a flat on top.
pub const FLAT_VALUE: i32 = 75;

/// The value of a flat in the reserve.
pub const HAND_FLAT_VALUE: i32 = -13;

/// The value of a capstone in the reserve.
pub const HAND_CAP_VALUE: i32 = -25;

/// The value of two neighbouring road squares.
pub const PAIR_VALUE: i32 = 9;

/// The value of three road squares in a line.
pub const LINE_VALUE: i32 = 7;

/// What the side to move gets for having the move.
pub const TEMPO_VALUE: i32 = 30;

/// The pieces below the top piece that count for a stack.
pub const STACK_WINDOW: u8 = 6;

/// The number of `i` below `n` of which `f` holds.
pub open spec fn count_where(f: spec_fn(int) -> bool, n: nat) -> nat
    decreases n,
{
    if n == 0 {
        0
    } else {
        count_where(f, (n - 1) as nat) + if f(n - 1) {
            1nat
        } else {
            0nat
        }
    }
}

/// The squares of a set are as many as the numbers of which what the set
/// stands for holds.
pub proof fn lemma_count_where(bb: Bitboard, f: spec_fn(int) -> bool, n: nat)
    requires
        n <= 36,
        forall|i: int| 0 <= i < n ==> #[trigger] bb.has(i) == f(i),
    ensures
        ones_below(bb.value(), n) == count_where(f, n),
        count_where(f, n) <= n,
    decreases n,
{
    if n > 0 {
        lemma_count_where(bb, f, (n - 1) as nat);
        assert(bb.has(n - 1) == f(n - 1));
    }
}

/// The number of steps from square `i` to the nearest of the four central squares.
pub open spec fn ring_no(i: int) -> int {
    let file = i % 6;
    let rank = i / 6;
    (if file < 2 {
        2 - file
    } else if file > 3 {
        file - 3
    } else {
        0
    }) + (if rank < 2 {
        2 - rank
    } else if rank > 3 {
        rank - 3
    } else {
        0
    })
}

/// What a flat is worth by where it lies: from the centre outwards.
pub open spec fn ring_weight(i: int) -> int {
    let r = ring_no(i);
    if r == 0 {
        2
    } else if r == 1 {
        8
    } else if r == 2 {
        -5
    } else if r == 3 {
        -15
    } else {
        -40
    }
}

/// What a piece below the top of `pl`'s stack is worth where it is the
/// opponent's.
pub open spec fn support_value(top: Option<PieceType>) -> int {
    match top {
        Some(PieceType::Wall) => 35,
        Some(PieceType::Capstone) => 40,
        _ => 30,
    }
}

/// What a piece below the top of `pl`'s stack is worth where it is `pl`'s own.
pub open spec fn captive_value(top: Option<PieceType>) -> int {
    match top {
        Some(PieceType::Wall) => -15,
        Some(PieceType::Capstone) => -20,
        _ => -40,
    }
}

/// The pieces that count for a stack: up to six below its top piece.
pub open spec fn window(t: Tower) -> Seq<Player> {
    let h = t.owners.len() as int;
    t.owners.subrange(
        if h > 7 {
            h - 7
        } else {
            0
        },
        if h > 0 {
            h - 1
        } else {
            0
        },
    )
}

/// What the stack `t` is worth to `pl`: nothing unless its top piece is
/// `pl`'s; else each piece of the opponent in the window counts for, and
/// each own piece against.
pub open spec fn stack_value(t: Tower, pl: Player) -> int {
    if t.owned_by(pl) {
        count_owner(window(t), pl.other()) * support_value(t.top) + count_owner(window(t), pl)
            * captive_value(t.top)
    } else {
        0
    }
}

impl Board {
    /// Whether `pl` has road squares on `i` and on its right neighbour.
    pub open spec fn pair_right(self, pl: Player, i: int) -> bool {
        self.road_square(pl, i) && i % 6 != 5 && i + 1 < 36 && self.road_square(pl, i + 1)
    }

    /// Whether `pl` has road squares on `i` and on its upper neighbour.
    pub open spec fn pair_up(self, pl: Player, i: int) -> bool {
        self.road_square(pl, i) && i + 6 < 36 && self.road_square(pl, i + 6)
    }

    /// Whether `pl` has road squares on `i` and on the next two to the right.
    pub open spec fn line_right(self, pl: Player, i: int) -> bool {
        self.pair_right(pl, i) && self.pair_right(pl, i + 1)
    }

    /// Whether `pl` has road squares on `i` and on the next two upwards.
    pub open spec fn line_up(self, pl: Player, i: int) -> bool {
        self.pair_up(pl, i) && self.pair_up(pl, i + 6)
    }

    /// The pairs of neighbouring road squares of `pl`.
    pub open spec fn pairs(self, pl: Player) -> int {
        (count_where(|i: int| self.pair_right(pl, i), 36) + count_where(
            |i: int| self.pair_up(pl, i),
            36,
        )) as int
    }

    /// The lines of three road squares of `pl`.
    pub open spec fn lines(self, pl: Player) -> int {
        (count_where(|i: int| self.line_right(pl, i), 36) + count_where(
            |i: int| self.line_up(pl, i),
            36,
        )) as int
    }

    /// What the stacks are worth to `pl`.
    pub open spec fn stacks_value(self, pl: Player) -> int {
        tally(self.towers, |t: Tower| stack_value(t, pl), 36)
    }

    /// What the flats of `pl` on the first `n` squares are worth by where
    /// they lie.
    pub open spec fn ring_value(self, pl: Player, n: nat) -> int
        decreases n,
    {
        if n == 0 {
            0
        } else {
            self.ring_value(pl, (n - 1) as nat) + if self.towers[n - 1].topped_by(
                pl,
                PieceType::Flat,
            ) {
                ring_weight(n - 1)
            } else {
                0
            }
        }
    }

    /// What `pl` has, with `komi` flats added: flats on top, pieces in the
    /// reserve, neighbouring road squares, and stacks.
    pub open spec fn player_value(self, pl: Player, komi: int) -> int {
        (self.flats_of(pl) + komi) * FLAT_VALUE + self.hand(pl).flats * HAND_FLAT_VALUE
            + self.hand(pl).caps * HAND_CAP_VALUE + self.pairs(pl) * PAIR_VALUE + self.lines(pl)
            * LINE_VALUE + self.stacks_value(pl)
    }

    /// The evaluation for the side to move: what the first player has more
    /// than the second, who gets the komi, seen from the side to move, and
    /// the tempo on top.
    pub open spec fn static_eval(self) -> int {
        (self.player_value(Player::P1, 0) - self.player_value(Player::P2, KOMI as int)
            + self.ring_value(Player::P1, 36) - self.ring_value(Player::P2, 36)) * (
        if self.stm == Player::P1 {
            1int
        } else {
            -1int
        }) + TEMPO_VALUE
    }
}

/// What a flat on the square with number `i` is worth by where it lies.
fn ring_weight_of(i: u8) -> (r: i32)
    requires
        i < 36,
    ensures
        r == ring_weight(i as int),
{
    let file: u8 = i % 6;
    let rank: u8 = i / 6;
    let dx: u8 = if file < 2 {
        2 - file
    } else if file > 3 {
        file - 3
    } else {
        0
    };
    let dy: u8 = if rank < 2 {
        2 - rank
    } else if rank > 3 {
        rank - 3
    } else {
        0
    };
    match dx + dy {
        0 => 2,
        1 => 8,
        2 => -5,
        3 => -15,
        _ => -40,
    }
}

/// What the stack on `sq` is worth to `player`.
fn stack_value_of(pos: &Position, sq: Square, player: Player) -> (r: i32)
    requires
        pos.shape_ok(),
    ensures
        r == stack_value(pos@.towers[sq.index()], player),
        -240 <= r <= 240,
{
    let stack = pos.stack_on(sq);
    let h: u8 = stack.height();
    if h == 0 {
        return 0;
    }
    match (stack.top_owner(), player) {
        (Player::P1, Player::P2) => {
            return 0;
        },
        (Player::P2, Player::P1) => {
            return 0;
        },
        _ => {},
    }
    let ghost t = stack@;
    let ghost w = window(t);
    let low: u8 = if h > 7 {
        h - 7
    } else {
        0
    };
    let mut own: i32 = 0;
    let mut other: i32 = 0;
    let mut i: u8 = low;
    while i < h - 1
        invariant
            low <= i <= h - 1,
            h == t.owners.len(),
            h - 1 - low <= 6,
            w == t.owners.subrange(low as int, h - 1),
            t == stack@,
            stack.wf(),
            own == count_owner(w.take(i - low), player),
            other == count_owner(w.take(i - low), player.other()),
            own + other == i - low,
            0 <= own,
            0 <= other,
        decreases h - i,
    {
        let owner = stack.owner(i);
        proof {
            let next = w.take(i + 1 - low);
            assert(next.drop_last() =~= w.take(i - low));
            assert(next.last() == t.owners[i as int]);
        }
        match (owner, player) {
            (Player::P1, Player::P1) => {
                own = own + 1;
            },
            (Player::P2, Player::P2) => {
                own = own + 1;
            },
            _ => {
                other = other + 1;
            },
        }
        i = i + 1;
    }
    proof {
        assert(w.take(h - 1 - low) =~= w);
    }
    assert(0 <= own <= 6 && 0 <= other <= 6);
    match stack.top() {
        Some(PieceType::Wall) => other * 35 - own * 15,
        Some(PieceType::Capstone) => other * 40 - own * 20,
        _ => other * 30 - own * 40,
    }
}

/// What `player` has, with `komi` flats added; the komi is so that the
/// value fits the score.
#[must_use]
#[verifier::rlimit(30)]
pub fn static_eval_player(pos: &Position, player: Player, komi: u32) -> (r: Score)
    requires
        pos.wf(),
        FLAT_VALUE * (komi + 36) + 20000 <= i32::MAX,
    ensures
        r == pos@.player_value(player, komi as int),
        FLAT_VALUE * komi - 20000 <= r <= FLAT_VALUE * komi + 20000,
{
    let ghost b = pos@;
    let flats: i32 = (pos.flats_of(player) + komi) as i32 * FLAT_VALUE;
    let flats_in_hand: i32 = pos.flats_in_hand(player) as i32 * HAND_FLAT_VALUE;
    let caps_in_hand: i32 = pos.caps_in_hand(player) as i32 * HAND_CAP_VALUE;
    let road_bb = pos.roads(player);
    let adj_horz = road_bb.and(road_bb.shift(Direction::Left));
    let adj_vert = road_bb.and(road_bb.shift(Direction::Down));
    let line_horz = adj_horz.and(adj_horz.shift(Direction::Left));
    let line_vert = adj_vert.and(adj_vert.shift(Direction::Down));
    proof {
        pos.lemma_keys();
        assert forall|i: int| 0 <= i < 36 implies #[trigger] adj_horz.has(i) == b.pair_right(
            player,
            i,
        ) by {}
        assert forall|i: int| 0 <= i < 36 implies #[trigger] adj_vert.has(i) == b.pair_up(
            player,
            i,
        ) by {}
        assert forall|i: int| 0 <= i < 36 implies #[trigger] line_horz.has(i) == b.line_right(
            player,
            i,
        ) by {
            if i + 1 < 36 {
                assert(adj_horz.has(i + 1) == b.pair_right(player, i + 1));
            }
        }
        assert forall|i: int| 0 <= i < 36 implies #[trigger] line_vert.has(i) == b.line_up(
            player,
            i,
        ) by {
            if i + 6 < 36 {
                assert(adj_vert.has(i + 6) == b.pair_up(player, i + 6));
            }
        }
        lemma_count_where(adj_horz, |i: int| b.pair_right(player, i), 36);
        lemma_count_where(adj_vert, |i: int| b.pair_up(player, i), 36);
        lemma_count_where(line_horz, |i: int| b.line_right(player, i), 36);
        lemma_count_where(line_vert, |i: int| b.line_up(player, i), 36);
        b.lemma_piece_count(player);
    }
    let adj_value: i32 = (adj_horz.popcount() + adj_vert.popcount()) as i32 * PAIR_VALUE;
    let line_value: i32 = (line_horz.popcount() + line_vert.popcount()) as i32 * LINE_VALUE;
    let mut stacks_value: i32 = 0;
    let mut n: u8 = 0;
    while n < 36
        invariant
            n <= 36,
            pos.shape_ok(),
            b == pos@,
            stacks_value == tally(b.towers, |t: Tower| stack_value(t, player), n as nat),
            -240 * n <= stacks_value <= 240 * n,
        decreases 36 - n,
    {
        let sq = match Square::from_raw(n) {
            Some(sq) => sq,
            None => Square::A1,
        };
        stacks_value = stacks_value + stack_value_of(pos, sq, player);
        n = n + 1;
    }
    flats + flats_in_hand + caps_in_hand + adj_value + line_value + stacks_value
}

/// What the flats of `player` are worth by where they lie.
fn ring_value_of(pos: &Position, player: Player) -> (r: i32)
    requires
        pos.shape_ok(),
    ensures
        r == pos@.ring_value(player, 36),
        -1440 <= r <= 1440,
{
    let flat_bb = pos.player_piece_bb(PieceType::Flat.with_player(player));
    let mut sum: i32 = 0;
    let mut n: u8 = 0;
    while n < 36
        invariant
            n <= 36,
            pos.shape_ok(),
            forall|i: int|
                0 <= i < 36 ==> #[trigger] flat_bb.has(i) == pos@.towers[i].topped_by(
                    player,
                    PieceType::Flat,
                ),
            sum == pos@.ring_value(player, n as nat),
            -40 * n <= sum <= 40 * n,
        decreases 36 - n,
    {
        let sq = match Square::from_raw(n) {
            Some(sq) => sq,
            None => Square::A1,
        };
        if flat_bb.has_sq(sq) {
            sum = sum + ring_weight_of(n);
        }
        n = n + 1;
    }
    sum
}

/// The evaluation of `pos` for the side to move.
#[must_use]
pub fn static_eval(pos: &Position) -> (r: Score)
    requires
        pos.wf(),
    ensures
        r == pos@.static_eval(),
        -50000 <= r <= 50000,
{
    let p1_score = static_eval_player(pos, Player::P1, 0);
    let p2_score = static_eval_player(pos, Player::P2, KOMI);
    let flat_position_quality_diff = ring_value_of(pos, Player::P1) - ring_value_of(
        pos,
        Player::P2,
    );
    let eval = p1_score - p2_score + flat_position_quality_diff;
    eval * pos.stm().sign() + TEMPO_VALUE
}

} // verus!
