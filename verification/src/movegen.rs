//! The legal moves of a position.

use crate::board::Position;
use crate::takmove::Move;
use crate::types::{Direction, PieceType, Square};
use vstd::prelude::*;

verus! {

/// Whether `m` is a spread from square `sq` that comes before the spread in
/// direction `d` with schedule `p`, in the order of direction, then schedule.
pub open spec fn spread_before(m: Move, sq: int, d: int, p: int) -> bool {
    &&& m.square_bits() == sq
    &&& m.spreads()
    &&& (m.flag_bits() < d || (m.flag_bits() == d && m.pattern_bits() < p))
}

/// A list with one more item holds what it held, and the item.
proof fn lemma_pushed(s: Seq<Move>, x: Move)
    ensures
        forall|m: Move| #[trigger] s.push(x).contains(m) <==> s.contains(m) || m == x,
        s.no_duplicates() && !s.contains(x) ==> s.push(x).no_duplicates(),
{
    let t = s.push(x);
    assert forall|m: Move| #[trigger] t.contains(m) <==> s.contains(m) || m == x by {
        if s.contains(m) {
            let i = choose|i: int| 0 <= i < s.len() && s[i] == m;
            assert(t[i] == m);
        }
        if m == x {
            assert(t[s.len() as int] == x);
        }
    }
}

/// Appends the legal spreads from `sq`.
#[verifier::rlimit(30)]
fn spreads_from(moves: &mut Vec<Move>, pos: &Position, sq: Square)
    requires
        pos.wf(),
        old(moves)@.no_duplicates(),
        forall|m: Move| old(moves)@.contains(m) ==> !(m.spreads() && m.square_bits() == sq.index()),
    ensures
        final(moves)@.no_duplicates(),
        forall|m: Move| #[trigger]
            final(moves)@.contains(m) <==> old(moves)@.contains(m) || (pos@.legal(m) && m.spreads()
                && m.square_bits() == sq.index()),
{
    let ghost before = moves@;
    let ghost b = pos@;
    let ghost s = sq.index();
    let mut d: u8 = 0;
    while d < 4
        invariant
            d <= 4,
            pos.wf(),
            b == pos@,
            s == sq.index(),
            moves@.no_duplicates(),
            forall|m: Move| #[trigger]
                moves@.contains(m) <==> before.contains(m) || (b.legal(m) && spread_before(
                    m,
                    s,
                    d as int,
                    0,
                )),
            forall|m: Move| before.contains(m) ==> !(m.spreads() && m.square_bits() == s),
        decreases 4 - d,
    {
        let dir = match Direction::from_raw(d) {
            Some(dir) => dir,
            None => Direction::Up,
        };
        let mut p: u16 = 1;
        while p < 64
            invariant
                1 <= p <= 64,
                d < 4,
                dir.index() == d,
                pos.wf(),
                b == pos@,
                s == sq.index(),
                moves@.no_duplicates(),
                forall|m: Move| #[trigger]
                    moves@.contains(m) <==> before.contains(m) || (b.legal(m) && spread_before(
                        m,
                        s,
                        d as int,
                        p as int,
                    )),
                forall|m: Move| before.contains(m) ==> !(m.spreads() && m.square_bits() == s),
            decreases 64 - p,
        {
            let mv = Move::spread(sq, dir, p);
            let ghost held = moves@;
            proof {
                sq.lemma_at_index();
                assert(mv.square_bits() == s && mv.flag_bits() == d) by {
                    Square::lemma_index_at(mv.square_bits());
                }
            }
            if pos.is_legal(mv) {
                proof {
                    lemma_pushed(held, mv);
                }
                moves.push(mv);
            }
            proof {
                assert forall|m: Move| #[trigger]
                    moves@.contains(m) <==> before.contains(m) || (b.legal(m) && spread_before(
                        m,
                        s,
                        d as int,
                        p + 1,
                    )) by {
                    if b.legal(m) && spread_before(m, s, d as int, p + 1) && !spread_before(
                        m,
                        s,
                        d as int,
                        p as int,
                    ) {
                        m.lemma_fields_eq(mv);
                    }
                }
            }
            p = p + 1;
        }
        proof {
            assert forall|m: Move| #[trigger]
                moves@.contains(m) <==> before.contains(m) || (b.legal(m) && spread_before(
                    m,
                    s,
                    d + 1,
                    0,
                )) by {}
        }
        d = d + 1;
    }
}

/// Appends the legal placements on `sq`.
#[verifier::rlimit(30)]
fn placements_on(moves: &mut Vec<Move>, pos: &Position, sq: Square)
    requires
        pos.wf(),
        old(moves)@.no_duplicates(),
        forall|m: Move|
            old(moves)@.contains(m) ==> !(!m.spreads() && m.square_bits() == sq.index()),
    ensures
        final(moves)@.no_duplicates(),
        forall|m: Move| #[trigger]
            final(moves)@.contains(m) <==> old(moves)@.contains(m) || (pos@.legal(m)
                && !m.spreads() && m.square_bits() == sq.index()),
{
    let ghost before = moves@;
    let ghost b = pos@;
    let ghost s = sq.index();
    let mut k: u8 = 0;
    while k < 3
        invariant
            k <= 3,
            pos.wf(),
            b == pos@,
            s == sq.index(),
            moves@.no_duplicates(),
            forall|m: Move| #[trigger]
                moves@.contains(m) <==> before.contains(m) || (b.legal(m) && !m.spreads()
                    && m.square_bits() == s && m.flag_bits() <= k),
            forall|m: Move| before.contains(m) ==> !(!m.spreads() && m.square_bits() == s),
        decreases 3 - k,
    {
        let pt = match PieceType::from_raw(k) {
            Some(pt) => pt,
            None => PieceType::Flat,
        };
        let mv = Move::placement(pt, sq);
        let ghost held = moves@;
        proof {
            sq.lemma_at_index();
            assert(mv.square_bits() == s && mv.flag_bits() == k + 1) by {
                Square::lemma_index_at(mv.square_bits());
            }
        }
        if pos.is_legal(mv) {
            proof {
                lemma_pushed(held, mv);
            }
            moves.push(mv);
        }
        proof {
            assert forall|m: Move| #[trigger]
                moves@.contains(m) <==> before.contains(m) || (b.legal(m) && !m.spreads()
                    && m.square_bits() == s && m.flag_bits() <= k + 1) by {
                if b.legal(m) && !m.spreads() && m.square_bits() == s && m.flag_bits() == k + 1 {
                    m.lemma_fields_eq(mv);
                }
            }
        }
        k = k + 1;
    }
}

/// A move may be played exactly when it is among the moves generated:
/// where `answer` is what `is_legal` says of `mv` in a position and `moves`
/// is what `generate_moves` lists for the position, `answer` holds exactly
/// when `moves` holds `mv`.
pub proof fn lemma_legal_iff_generated(pos: Position, mv: Move, answer: bool, moves: Seq<Move>)
    requires
        pos.wf(),
        answer == pos@.legal(mv),
        forall|m: Move| #[trigger] moves.contains(m) <==> pos@.legal(m),
    ensures
        answer <==> moves.contains(mv),
{
}

/// Replaces the contents of `moves` by the legal moves of `pos`, each once.
pub fn generate_moves(moves: &mut Vec<Move>, pos: &Position)
    requires
        pos.wf(),
    ensures
        final(moves)@.no_duplicates(),
        forall|m: Move| #[trigger] final(moves)@.contains(m) <==> pos@.legal(m),
{
    moves.clear();
    let ghost b = pos@;
    let mut n: u8 = 0;
    while n < 36
        invariant
            n <= 36,
            pos.wf(),
            b == pos@,
            moves@.no_duplicates(),
            forall|m: Move| #[trigger]
                moves@.contains(m) <==> b.legal(m) && m.square_bits() < n,
        decreases 36 - n,
    {
        let sq = match Square::from_raw(n) {
            Some(sq) => sq,
            None => Square::A1,
        };
        if pos.stack_on(sq).is_empty() {
            placements_on(moves, pos, sq);
        } else if pos.ply() >= 2 {
            spreads_from(moves, pos, sq);
        }
        n = n + 1;
    }
}

/// Fills `moves` with the legal moves of `pos`, each once, in place of
/// what it held.
pub fn generate_moves_into(moves: &mut Vec<Move>, pos: &Position)
    requires
        pos.wf(),
    ensures
        final(moves)@.no_duplicates(),
        forall|m: Move| #[trigger] final(moves)@.contains(m) <==> pos@.legal(m),
{
    generate_moves(moves, pos);
}

} // verus!
