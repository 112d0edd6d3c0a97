//! Counting the lines of play of a given length, to check the move generator.

use crate::board::Position;
use crate::model::Board;
use crate::movegen::generate_moves;
use crate::takmove::Move;
use vstd::prelude::*;

verus! {

/// The number of lines of `depth` moves from `b`, where lines that end the
/// game early are played on: one where `depth` is zero or less, else the
/// lines of one move less after each legal move.
pub open spec fn lines(b: Board, depth: int) -> nat
    decreases depth, 16385int,
{
    if depth <= 0 {
        1
    } else {
        lines_below(b, depth, 16384)
    }
}

/// The number of lines of `depth` moves from `b` that begin with a legal
/// move whose packed value is below `upto`.
pub open spec fn lines_below(b: Board, depth: int, upto: int) -> nat
    decreases depth, upto,
{
    if depth <= 0 || upto <= 0 || upto > 16384 {
        0
    } else {
        let first = Move::of_value((upto - 1) as u16);
        lines_below(b, depth, upto - 1) + if b.legal(first) {
            lines(b.play(first), depth - 1)
        } else {
            0
        }
    }
}

/// A count as a `usize`: the count, or the largest `usize` where the count
/// is larger.
pub open spec fn capped(n: nat) -> usize {
    if n > usize::MAX {
        usize::MAX
    } else {
        n as usize
    }
}

/// The number of lines of `depth` moves from `b` that begin with one of the
/// first `n` of `moves` whose packed value is below `upto`.
spec fn lines_listed(b: Board, depth: int, moves: Seq<Move>, n: int, upto: int) -> nat
    decreases n,
{
    if n <= 0 {
        0
    } else {
        lines_listed(b, depth, moves, n - 1, upto) + if moves[n - 1].value() < upto {
            lines(b.play(moves[n - 1]), depth - 1)
        } else {
            0
        }
    }
}

/// Whether `m` is among the first `n` of `moves`.
spec fn listed(moves: Seq<Move>, n: int, m: Move) -> bool {
    exists|i: int| 0 <= i < n && i < moves.len() && moves[i] == m
}

/// With one packed value more, the lines that begin with one of the first
/// `n` moves of a list without duplicates are more by the lines that begin
/// with the move of that value, where it is among the `n`.
proof fn lemma_listed_step(b: Board, depth: int, moves: Seq<Move>, n: int, upto: int)
    requires
        moves.no_duplicates(),
        0 <= n <= moves.len(),
        0 <= upto < 16384,
    ensures
        lines_listed(b, depth, moves, n, upto + 1) == lines_listed(b, depth, moves, n, upto) + (
        if listed(moves, n, Move::of_value(upto as u16)) {
            lines(b.play(Move::of_value(upto as u16)), depth - 1)
        } else {
            0
        }),
    decreases n,
{
    let m = Move::of_value(upto as u16);
    Move::lemma_of_value(upto as u16);
    if n > 0 {
        lemma_listed_step(b, depth, moves, n - 1, upto);
        let x = moves[n - 1];
        if x.value() == upto {
            x.lemma_value_eq(m);
            if listed(moves, n - 1, m) {
                let i = choose|i: int| 0 <= i < n - 1 && i < moves.len() && moves[i] == m;
                assert(moves[i] == moves[n - 1]);
            }
            assert(listed(moves, n, m));
        } else {
            if listed(moves, n, m) {
                let i = choose|i: int| 0 <= i < n && i < moves.len() && moves[i] == m;
                assert(i != n - 1);
                assert(listed(moves, n - 1, m));
            }
            if listed(moves, n - 1, m) {
                let i = choose|i: int| 0 <= i < n - 1 && i < moves.len() && moves[i] == m;
                assert(listed(moves, n, m));
            }
        }
    }
}

/// The lines that begin with a move of a list of the legal moves, each
/// once, whose packed value is below `upto`, are the lines that begin with
/// a legal move of such a value.
proof fn lemma_listed_below(b: Board, depth: int, moves: Seq<Move>, upto: int)
    requires
        moves.no_duplicates(),
        forall|m: Move| #[trigger] moves.contains(m) <==> b.legal(m),
        depth >= 1,
        0 <= upto <= 16384,
    ensures
        lines_listed(b, depth, moves, moves.len() as int, upto) == lines_below(b, depth, upto),
    decreases upto,
{
    if upto > 0 {
        lemma_listed_below(b, depth, moves, upto - 1);
        lemma_listed_step(b, depth, moves, moves.len() as int, upto - 1);
        let m = Move::of_value((upto - 1) as u16);
        if listed(moves, moves.len() as int, m) {
            let i = choose|i: int| 0 <= i < moves.len() && i < moves.len() && moves[i] == m;
            assert(moves.contains(m));
        }
        if moves.contains(m) {
            let i = choose|i: int| 0 <= i < moves.len() && moves[i] == m;
            assert(listed(moves, moves.len() as int, m));
        }
    } else {
        lemma_listed_none(b, depth, moves, moves.len() as int);
    }
}

/// No line begins with a move whose packed value is below zero.
proof fn lemma_listed_none(b: Board, depth: int, moves: Seq<Move>, n: int)
    requires
        0 <= n <= moves.len(),
    ensures
        lines_listed(b, depth, moves, n, 0) == 0,
    decreases n,
{
    if n > 0 {
        lemma_listed_none(b, depth, moves, n - 1);
    }
}

/// There is one line of one move for each move of a list of moves of the board.
proof fn lemma_listed_once(b: Board, moves: Seq<Move>, n: int)
    requires
        0 <= n <= moves.len(),
        forall|i: int| 0 <= i < moves.len() ==> (#[trigger] moves[i]).valid(),
    ensures
        lines_listed(b, 1, moves, n, 16384) == n,
    decreases n,
{
    if n > 0 {
        lemma_listed_once(b, moves, n - 1);
        assert(moves[n - 1].valid());
    }
}

/// The sum of two counts as a `usize` is the sum of the counts as `usize`
/// that sticks at the largest `usize`.
proof fn lemma_capped_sum(a: nat, b: nat)
    ensures
        capped(a + b) == (if capped(a) + capped(b) > usize::MAX {
            usize::MAX
        } else {
            (capped(a) + capped(b)) as usize
        }),
{
}

/// The number of lines of `depth` moves from `pos`, where lines that end
/// the game early are played on; the number sticks at the largest `usize`.
pub fn do_perft(pos: &Position, depth: i32) -> (r: usize)
    requires
        pos.wf(),
        depth >= 2 ==> pos@.ply + depth <= u16::MAX,
    ensures
        r == capped(lines(pos@, depth as int)),
        depth <= 0 ==> r == 1,
        depth == 1 ==> exists|moves: Seq<Move>|
            moves.no_duplicates() && r == moves.len() && forall|m: Move| #[trigger]
                moves.contains(m) <==> pos@.legal(m),
    decreases depth,
{
    if depth <= 0 {
        return 1;
    }
    let mut moves: Vec<Move> = Vec::new();
    generate_moves(&mut moves, pos);
    proof {
        assert forall|i: int| 0 <= i < moves@.len() implies (#[trigger] moves@[i]).valid() by {
            assert(moves@.contains(moves@[i]));
        }
        lemma_listed_below(pos@, depth as int, moves@, 16384);
    }
    if depth == 1 {
        proof {
            lemma_listed_once(pos@, moves@, moves@.len() as int);
        }
        return moves.len();
    }
    let mut total: usize = 0;
    let mut i: usize = 0;
    while i < moves.len()
        invariant
            i <= moves.len(),
            pos.wf(),
            depth > 1,
            pos@.ply + depth <= u16::MAX,
            forall|m: Move| #[trigger] moves@.contains(m) <==> pos@.legal(m),
            forall|k: int| 0 <= k < moves@.len() ==> (#[trigger] moves@[k]).valid(),
            total == capped(lines_listed(pos@, depth as int, moves@, i as int, 16384)),
        decreases moves.len() - i,
    {
        let mv = moves[i];
        assert(moves@.contains(mv));
        let next = pos.apply_move(mv);
        let ghost before: nat = lines_listed(pos@, depth as int, moves@, i as int, 16384);
        let ghost after: nat = lines(pos@.play(mv), depth - 1);
        proof {
            assert(mv.valid());
            lemma_capped_sum(before, after);
        }
        total = total.saturating_add(do_perft(&next, depth - 1));
        i = i + 1;
    }
    total
}

/// The number of lines of `depth` moves from `pos`, of one move where
/// `depth` is less.
#[must_use]
pub fn perft(pos: &Position, depth: i32) -> (r: usize)
    requires
        pos.wf(),
        depth >= 2 ==> pos@.ply + depth <= u16::MAX,
    ensures
        r == capped(
            lines(
                pos@,
                if depth < 1 {
                    1
                } else {
                    depth as int
                },
            ),
        ),
        depth <= 1 ==> exists|moves: Seq<Move>|
            moves.no_duplicates() && r == moves.len() && forall|m: Move| #[trigger]
                moves.contains(m) <==> pos@.legal(m),
{
    if depth < 1 {
        do_perft(pos, 1)
    } else {
        do_perft(pos, depth)
    }
}

} // verus!
