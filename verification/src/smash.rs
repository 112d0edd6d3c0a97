//! Walls and capstones in the way of a spread: a capstone that lands alone
//! on a wall flattens it, and nothing else lands on a wall or a capstone.

use crate::model::{drop_all, landing_ok, walk_ok, Board, Tower};
use crate::notation::{carried, strip_zeros};
use crate::takmove::Move;
use crate::types::{step_on_board, Direction, PieceType};
use vstd::prelude::*;

verus! {

/// Whether a walk that begins on `sq` with `n` pieces carried goes one
/// square on from the square `from` with `left` pieces still carried.
pub open spec fn moves_on(sq: int, dir: Direction, n: nat, bits: nat, from: int, left: nat) -> bool
    decreases n,
{
    if n == 0 {
        false
    } else if bits % 2 == 1 {
        (from == sq && left == n) || moves_on(
            sq + dir.delta(),
            dir,
            (n - 1) as nat,
            bits / 2,
            from,
            left,
        )
    } else {
        moves_on(sq, dir, (n - 1) as nat, bits / 2, from, left)
    }
}

/// Whether the spread `mv` goes one square on from the square `from`
/// with `left` pieces still carried.
pub open spec fn spread_moves_on(mv: Move, from: int, left: nat) -> bool {
    moves_on(
        mv.square_bits(),
        mv.direction(),
        carried(mv.pattern_bits() as nat),
        strip_zeros(mv.pattern_bits() as nat),
        from,
        left,
    )
}

/// Whether every square that the walk goes on to lies on the board and
/// lets the pieces land: it is empty or topped by a flat, or it is topped
/// by a wall and the one piece that is left is a capstone.
pub open spec fn path_clear(
    towers: Seq<Tower>,
    sq: int,
    dir: Direction,
    n: nat,
    bits: nat,
    cap: bool,
) -> bool {
    forall|from: int, left: nat| #[trigger]
        moves_on(sq, dir, n, bits, from, left) ==> step_on_board(from, dir) && landing_ok(
            towers[from + dir.delta()].top,
            left == 1 && cap,
        )
}

/// A walk can be made exactly when every square that it goes on to lies
/// on the board and lets the pieces land.
pub proof fn lemma_walk_steps(
    towers: Seq<Tower>,
    sq: int,
    dir: Direction,
    n: nat,
    bits: nat,
    cap: bool,
)
    ensures
        walk_ok(towers, sq, dir, n, bits, cap) == path_clear(towers, sq, dir, n, bits, cap),
    decreases n,
{
    if n > 0 {
        let next = if bits % 2 == 1 {
            sq + dir.delta()
        } else {
            sq
        };
        lemma_walk_steps(towers, next, dir, (n - 1) as nat, bits / 2, cap);
        if walk_ok(towers, sq, dir, n, bits, cap) {
            assert forall|from: int, left: nat| #[trigger]
                moves_on(sq, dir, n, bits, from, left) implies step_on_board(from, dir)
                && landing_ok(towers[from + dir.delta()].top, left == 1 && cap) by {
                if !(bits % 2 == 1 && from == sq && left == n) {
                    assert(moves_on(next, dir, (n - 1) as nat, bits / 2, from, left));
                }
            }
        }
        if path_clear(towers, sq, dir, n, bits, cap) {
            assert forall|from: int, left: nat| #[trigger]
                moves_on(next, dir, (n - 1) as nat, bits / 2, from, left) implies step_on_board(
                from,
                dir,
            ) && landing_ok(towers[from + dir.delta()].top, left == 1 && cap) by {
                assert(moves_on(sq, dir, n, bits, from, left));
            }
            if bits % 2 == 1 {
                assert(moves_on(sq, dir, n, bits, sq, n));
            }
        }
    }
}

/// A spread may be played exactly when the game is past its first two
/// plies, the stack belongs to the side to move and holds the pieces
/// carried, and every square that the spread goes on to lies on the board
/// and is empty or topped by a flat, or is topped by a wall on which the
/// last piece lands alone, a capstone.
pub proof fn lemma_spread_legal(b: Board, mv: Move)
    requires
        mv.valid(),
        mv.spreads(),
    ensures
        b.legal(mv) == ({
            let origin = b.towers[mv.square_bits()];
            &&& b.ply >= 2
            &&& origin.owned_by(b.stm)
            &&& carried(mv.pattern_bits() as nat) <= origin.size()
            &&& forall|from: int, left: nat| #[trigger]
                spread_moves_on(mv, from, left) ==> step_on_board(from, mv.direction())
                    && landing_ok(
                    b.towers[from + mv.direction().delta()].top,
                    left == 1 && origin.top == Some(PieceType::Capstone),
                )
        }),
{
    let origin = b.towers[mv.square_bits()];
    let n = carried(mv.pattern_bits() as nat);
    let bits = strip_zeros(mv.pattern_bits() as nat);
    let cap = origin.top == Some(PieceType::Capstone);
    lemma_walk_steps(b.towers, mv.square_bits(), mv.direction(), n, bits, cap);
    if path_clear(b.towers, mv.square_bits(), mv.direction(), n, bits, cap) {
        assert forall|from: int, left: nat| #[trigger]
            spread_moves_on(mv, from, left) implies step_on_board(from, mv.direction())
            && landing_ok(b.towers[from + mv.direction().delta()].top, left == 1 && cap) by {
            assert(moves_on(mv.square_bits(), mv.direction(), n, bits, from, left));
        }
    } else {
        let (from, left) = choose|from: int, left: nat| #[trigger]
            moves_on(mv.square_bits(), mv.direction(), n, bits, from, left) && !(step_on_board(
                from,
                mv.direction(),
            ) && landing_ok(b.towers[from + mv.direction().delta()].top, left == 1 && cap));
        assert(spread_moves_on(mv, from, left));
    }
}

/// A legal spread goes on to a square topped by a wall only with its last
/// piece alone, and only where that piece is a capstone; it never goes on
/// to a square topped by a capstone.
pub proof fn lemma_wall_in_the_way(b: Board, mv: Move, from: int, left: nat)
    requires
        b.legal(mv),
        mv.spreads(),
        spread_moves_on(mv, from, left),
    ensures
        step_on_board(from, mv.direction()),
        b.towers[from + mv.direction().delta()].top != Some(PieceType::Capstone),
        b.towers[from + mv.direction().delta()].top == Some(PieceType::Wall) ==> left == 1
            && b.towers[mv.square_bits()].top == Some(PieceType::Capstone),
{
    lemma_spread_legal(b, mv);
}

/// What dropping the carried pieces does to the walls: a wall that the
/// last piece goes on to gets that piece on top, every other wall stays
/// as it is, and no wall comes to be unless the last piece is one.
pub proof fn lemma_drop_walls(
    towers: Seq<Tower>,
    sq: int,
    dir: Direction,
    carry: Seq<crate::types::Player>,
    bits: nat,
    top: PieceType,
    j: int,
)
    requires
        towers.len() == 36,
        0 <= sq < 36,
        0 <= j < 36,
        walk_ok(towers, sq, dir, carry.len(), bits, top == PieceType::Capstone),
        carry.len() > 0 ==> bits % 2 == 1 || landing_ok(towers[sq].top, false),
    ensures
        ({
            let r = drop_all(towers, sq, dir, carry, bits, top);
            if towers[j].top == Some(PieceType::Wall) {
                if moves_on(sq, dir, carry.len(), bits, j - dir.delta(), 1) {
                    r[j] == towers[j].push(carry.last(), top)
                } else {
                    r[j] == towers[j]
                }
            } else {
                top != PieceType::Wall ==> r[j].top != Some(PieceType::Wall)
            }
        }),
    decreases carry.len(),
{
    let n = carry.len();
    if n > 0 {
        let at = if bits % 2 == 1 {
            sq + dir.delta()
        } else {
            sq
        };
        let kind = if n == 1 {
            top
        } else {
            PieceType::Flat
        };
        let next = towers.update(at, towers[at].push(carry[0], kind));
        let cap = top == PieceType::Capstone;
        crate::model::lemma_walk_frame(towers, next, at, dir, (n - 1) as nat, bits / 2, cap);
        lemma_drop_walls(next, at, dir, carry.skip(1), bits / 2, top, j);
        if n > 1 {
            assert(carry.skip(1).last() == carry.last());
        } else {
            assert(!moves_on(at, dir, 0, bits / 2, j - dir.delta(), 1));
        }
    }
}

/// A capstone flattens the wall on which it lands. Where a legal spread
/// goes on to the square `d`, which is topped by a wall, the stack on `d`
/// has after the spread one piece more, the capstone of the side that
/// moved on top; what was the wall lies below it and counts as a flat.
/// Every other wall stays as it is, and no wall comes to be.
pub proof fn lemma_wall_flattened(b: Board, mv: Move, d: int, left: nat, j: int)
    requires
        b.wf(),
        b.legal(mv),
        mv.spreads(),
        0 <= d < 36,
        0 <= j < 36,
        spread_moves_on(mv, d - mv.direction().delta(), left),
        b.towers[d].top == Some(PieceType::Wall),
    ensures
        b.play(mv).towers[d] == b.towers[d].push(b.stm, PieceType::Capstone),
        b.play(mv).towers[d].size() == b.towers[d].size() + 1,
        j != d && b.towers[j].top == Some(PieceType::Wall) ==> b.play(mv).towers[j] == b.towers[j],
        b.play(mv).towers[j].top == Some(PieceType::Wall) ==> b.towers[j].top == Some(
            PieceType::Wall,
        ) && j != d,
{
    let sq = mv.square_bits();
    let origin = b.towers[sq];
    let n = carried(mv.pattern_bits() as nat);
    let bits = strip_zeros(mv.pattern_bits() as nat);
    let carry = origin.top_owners(n);
    lemma_wall_in_the_way(b, mv, d - mv.direction().delta(), left);
    Board::lemma_spread_shape(mv);
    b.lemma_lifted(mv, b.stm);
    let lifted = b.lifted(mv);
    assert(carry.last() == origin.owners.last());
    assert(lifted[d] == b.towers[d]);
    lemma_drop_walls(lifted, sq, mv.direction(), carry, bits, PieceType::Capstone, d);
    lemma_drop_walls(lifted, sq, mv.direction(), carry, bits, PieceType::Capstone, j);
    if j != sq {
        assert(lifted[j] == b.towers[j]);
    }
    if j != d && lifted[j].top == Some(PieceType::Wall) && moves_on(
        sq,
        mv.direction(),
        n,
        bits,
        j - mv.direction().delta(),
        1,
    ) {
        lemma_one_last_step(sq, mv.direction(), n, bits, d - mv.direction().delta(), j
            - mv.direction().delta());
    }
}

/// A walk goes on with one piece left from one square only.
proof fn lemma_one_last_step(sq: int, dir: Direction, n: nat, bits: nat, a: int, b: int)
    requires
        moves_on(sq, dir, n, bits, a, 1),
        moves_on(sq, dir, n, bits, b, 1),
    ensures
        a == b,
    decreases n,
{
    if n > 0 {
        let next = if bits % 2 == 1 {
            sq + dir.delta()
        } else {
            sq
        };
        if n == 1 {
            assert(!moves_on(next, dir, 0, bits / 2, a, 1));
            assert(!moves_on(next, dir, 0, bits / 2, b, 1));
        } else {
            lemma_one_last_step(next, dir, (n - 1) as nat, bits / 2, a, b);
        }
    }
}

} // verus!
