//! Roads: chains of neighbouring squares from one edge of the board to the
//! opposite edge.

use crate::bitboard::{Bitboard, BOARD_MASK};
use crate::types::{step_on_board, Direction};
use vstd::prelude::*;

verus! {

/// Whether square `b` is one step from square `a`, up, down, left or right.
pub open spec fn adjacent(a: int, b: int) -> bool {
    ||| (step_on_board(a, Direction::Up) && b == a + 6)
    ||| (step_on_board(a, Direction::Down) && b == a - 6)
    ||| (step_on_board(a, Direction::Left) && b == a - 1)
    ||| (step_on_board(a, Direction::Right) && b == a + 1)
}

/// Whether `p` is a chain of squares of `occ`, each one step from the one before.
pub open spec fn is_path(occ: Bitboard, p: Seq<int>) -> bool {
    &&& forall|k: int| 0 <= k < p.len() ==> 0 <= #[trigger] p[k] < 36 && occ.has(p[k])
    &&& forall|k: int| 0 <= k < p.len() - 1 ==> adjacent(#[trigger] p[k], p[k + 1])
}

/// Whether a chain of squares of `occ` leads from a square of `seeds` to `j`.
pub open spec fn reaches(occ: Bitboard, seeds: Bitboard, j: int) -> bool {
    exists|p: Seq<int>| #[trigger] is_path(occ, p) && p.len() > 0 && seeds.has(p[0]) && p.last() == j
}

/// Whether a chain of squares of `occ` leads from the edge in direction
/// `a` to the edge in direction `b`.
pub open spec fn joins(occ: Bitboard, a: Direction, b: Direction) -> bool {
    exists|p: Seq<int>|
        #[trigger] is_path(occ, p) && p.len() > 0 && !step_on_board(p[0], a) && !step_on_board(
            p.last(),
            b,
        )
}

/// Whether the squares of `occ` hold a road: a chain from the upper to the
/// lower edge, or from the left to the right edge.
pub open spec fn road(occ: Bitboard) -> bool {
    joins(occ, Direction::Up, Direction::Down) || joins(occ, Direction::Left, Direction::Right)
}

/// A set that holds the seeds and with each square its neighbours in
/// `occ` holds every square that a chain from a seed leads to.
proof fn lemma_closed(occ: Bitboard, seeds: Bitboard, f: Bitboard, p: Seq<int>, k: int)
    requires
        is_path(occ, p),
        0 <= k < p.len(),
        seeds.has(p[0]),
        forall|j: int| 0 <= j < 36 && seeds.has(j) && occ.has(j) ==> f.has(j),
        forall|i: int, j: int|
            0 <= i < 36 && 0 <= j < 36 && f.has(i) && occ.has(j) && #[trigger] adjacent(i, j)
                ==> f.has(j),
    ensures
        f.has(p[k]),
    decreases k,
{
    if k > 0 {
        lemma_closed(occ, seeds, f, p, k - 1);
        assert(adjacent(p[k - 1], p[k]));
    }
}

/// A superset that is not the same set is the larger number.
proof fn lemma_grown(f: u64, a: u64, b: u64, c: u64, d: u64, o: u64)
    requires
        f & o == f,
        o <= BOARD_MASK,
    ensures
        ({
            let g = ((((f | a) | b) | c) | d) & o;
            &&& g & o == g
            &&& g <= BOARD_MASK
            &&& g != f ==> f < g
        }),
{
    assert(f & o == f && o <= 0xf_ffff_ffff ==> ({
        let g = ((((f | a) | b) | c) | d) & o;
        &&& g & o == g
        &&& g <= 0xf_ffff_ffff
        &&& g != f ==> f < g
    })) by (bit_vector);
}

/// The squares of `occ` that chains from the seeds lead to.
#[verifier::rlimit(30)]
pub fn flood(occ: Bitboard, seeds: Bitboard) -> (r: Bitboard)
    requires
        occ.wf(),
        seeds.wf(),
    ensures
        r.wf(),
        forall|j: int| 0 <= j < 36 ==> (#[trigger] r.has(j) <==> reaches(occ, seeds, j)),
{
    let mut f = seeds.and(occ);
    proof {
        assert forall|j: int| 0 <= j < 36 && #[trigger] f.has(j) implies reaches(
            occ,
            seeds,
            j,
        ) by {
            let p = seq![j];
            assert(is_path(occ, p));
            assert(p.last() == j);
        }
        let a = seeds.value();
        let o = occ.value();
        assert((a & o) & o == a & o) by (bit_vector);
    }
    loop
        invariant
            occ.wf(),
            f.wf(),
            f.value() & occ.value() == f.value(),
            forall|j: int| 0 <= j < 36 && #[trigger] f.has(j) ==> reaches(occ, seeds, j),
            forall|j: int| 0 <= j < 36 && seeds.has(j) && occ.has(j) ==> f.has(j),
        ensures
            f.wf(),
            forall|j: int| 0 <= j < 36 ==> (#[trigger] f.has(j) <==> reaches(occ, seeds, j)),
        decreases BOARD_MASK - f.value(),
    {
        let up = f.shift(Direction::Up);
        let down = f.shift(Direction::Down);
        let left = f.shift(Direction::Left);
        let right = f.shift(Direction::Right);
        let grown = f.or(up).or(down).or(left).or(right).and(occ);
        proof {
            lemma_grown(
                f.value(),
                up.value(),
                down.value(),
                left.value(),
                right.value(),
                occ.value(),
            );
        }
        if grown.raw() == f.raw() {
            proof {
                grown.lemma_value_eq(f);
                assert forall|i: int, j: int|
                    0 <= i < 36 && 0 <= j < 36 && f.has(i) && occ.has(j) && #[trigger] adjacent(
                        i,
                        j,
                    ) implies f.has(j) by {
                    if step_on_board(i, Direction::Up) && j == i + 6 {
                        assert(up.has(j));
                    } else if step_on_board(i, Direction::Down) && j == i - 6 {
                        assert(down.has(j));
                    } else if step_on_board(i, Direction::Left) && j == i - 1 {
                        assert(left.has(j));
                    } else {
                        assert(right.has(j));
                    }
                    assert(grown.has(j));
                }
                assert forall|j: int| 0 <= j < 36 && reaches(occ, seeds, j) implies f.has(j) by {
                    let p = choose|p: Seq<int>| #[trigger]
                        is_path(occ, p) && p.len() > 0 && seeds.has(p[0]) && p.last() == j;
                    lemma_closed(occ, seeds, f, p, p.len() - 1);
                }
            }
            break ;
        }
        proof {
            assert forall|j: int| 0 <= j < 36 && #[trigger] grown.has(j) implies reaches(
                occ,
                seeds,
                j,
            ) by {
                if !f.has(j) {
                    let i = if up.has(j) {
                        j - 6
                    } else if down.has(j) {
                        j + 6
                    } else if left.has(j) {
                        j + 1
                    } else {
                        j - 1
                    };
                    assert(f.has(i) && adjacent(i, j));
                    let p = choose|p: Seq<int>| #[trigger]
                        is_path(occ, p) && p.len() > 0 && seeds.has(p[0]) && p.last() == i;
                    let q = p.push(j);
                    assert(is_path(occ, q)) by {
                        assert forall|k: int| 0 <= k < q.len() - 1 implies adjacent(
                            #[trigger] q[k],
                            q[k + 1],
                        ) by {
                            if k < p.len() - 1 {
                                assert(adjacent(p[k], p[k + 1]));
                            }
                        }
                        assert forall|k: int| 0 <= k < q.len() implies 0 <= #[trigger] q[k] < 36
                            && occ.has(q[k]) by {
                            if k < p.len() {
                                assert(0 <= p[k] < 36 && occ.has(p[k]));
                            }
                        }
                    }
                    assert(q.last() == j && q[0] == p[0]);
                }
            }
        }
        f = grown;
    }
    f
}

/// Whether the squares of `road_occ` hold a road.
#[must_use]
pub fn has_road(road_occ: Bitboard) -> (r: bool)
    requires
        road_occ.wf(),
    ensures
        r == road(road_occ),
{
    let upper = Bitboard::edge(Direction::Up);
    let lower = Bitboard::edge(Direction::Down);
    let left = Bitboard::edge(Direction::Left);
    let right = Bitboard::edge(Direction::Right);
    let down = flood(road_occ, upper).and(lower);
    let across = flood(road_occ, left).and(right);
    proof {
        lemma_joined(road_occ, upper, lower, down, Direction::Up, Direction::Down);
        lemma_joined(road_occ, left, right, across, Direction::Left, Direction::Right);
    }
    !down.is_empty() || !across.is_empty()
}

/// The squares of the far edge that chains from the near edge lead to are
/// none exactly when no chain joins the edges.
proof fn lemma_joined(
    occ: Bitboard,
    near: Bitboard,
    far: Bitboard,
    met: Bitboard,
    a: Direction,
    b: Direction,
)
    requires
        met.wf(),
        forall|i: int| 0 <= i < 36 ==> (#[trigger] near.has(i) == !step_on_board(i, a)),
        forall|i: int| 0 <= i < 36 ==> (#[trigger] far.has(i) == !step_on_board(i, b)),
        forall|j: int|
            0 <= j < 36 ==> (#[trigger] met.has(j) <==> reaches(occ, near, j) && far.has(j)),
    ensures
        (met.value() != 0) == joins(occ, a, b),
{
    if met.value() != 0 {
        crate::bitboard::lemma_lowest_bit(met.value());
        let j = met.value().trailing_zeros() as int;
        if j >= 36 {
            crate::bitboard::lemma_bits_masked(met.value(), j);
        }
        assert(met.has(j));
        let p = choose|p: Seq<int>| #[trigger]
            is_path(occ, p) && p.len() > 0 && near.has(p[0]) && p.last() == j;
        assert(is_path(occ, p) && p.len() > 0 && !step_on_board(p[0], a) && !step_on_board(
            p.last(),
            b,
        ));
    }
    if joins(occ, a, b) {
        let p = choose|p: Seq<int>| #[trigger]
            is_path(occ, p) && p.len() > 0 && !step_on_board(p[0], a) && !step_on_board(
                p.last(),
                b,
            );
        let j = p.last();
        assert(0 <= p[0] < 36 && 0 <= p[p.len() - 1] < 36);
        assert(is_path(occ, p) && p.len() > 0 && near.has(p[0]) && p.last() == j);
        assert(reaches(occ, near, j));
        assert(met.has(j));
        if met.value() == 0 {
            crate::bitboard::lemma_bits_masked(0, j);
        }
    }
}

} // verus!
