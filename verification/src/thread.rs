//! What one search thread keeps: the keys of the positions on its way, the
//! root moves with their lines, and the tables that it learns from.

use crate::board::Position;
use crate::correction::CorrectionHistory;
use crate::eval::Score;
use crate::history::History;
use crate::model::Board;
use crate::movepick::KillerTable;
use crate::pv::{pv_get, pv_moves, single_pv, PvList};
use crate::takmove::Move;
use vstd::prelude::*;

verus! {

/// The deepest ply that a search reaches.
pub const MAX_PLY: i32 = 255;

/// A score that no position has.
pub const SCORE_INF: Score = 32767;

/// The score of a game that is won at the root.
pub const SCORE_MATE: Score = 32766;

/// From this score on a score says that the game is won within `MAX_PLY` plies.
pub const SCORE_MAX_MATE: Score = 32511;

/// A move at the root, with what the last search of it found.
pub struct RootMove {
    pub score: Score,
    pub seldepth: i32,
    pub pv: PvList,
}

impl RootMove {
    /// The root move `mv`, not searched yet.
    pub fn new(mv: Move) -> (r: RootMove)
        ensures
            r.score == -SCORE_INF,
            r.seldepth == 0,
            pv_moves(r.pv) == seq![mv],
    {
        RootMove { score: -SCORE_INF, seldepth: 0, pv: single_pv(mv) }
    }

    /// The move: the first of the line.
    pub open spec fn first(self) -> Move {
        pv_moves(self.pv)[0]
    }

    /// The line holds the move.
    pub open spec fn wf(self) -> bool {
        pv_moves(self.pv).len() >= 1
    }
}

/// What the search keeps for one ply.
#[derive(Copy, Clone, Debug)]
pub struct StackEntry {
    pub mv: Option<Move>,
}

/// How often `key` occurs in `keys`.
pub open spec fn occurrences(keys: Seq<u64>, key: u64) -> nat
    decreases keys.len(),
{
    if keys.len() == 0 {
        0
    } else {
        occurrences(keys.drop_last(), key) + if keys.last() == key {
            1nat
        } else {
            0nat
        }
    }
}

/// The number of keys that were kept since the search began, the key of
/// the root among them, where the last was kept at `ply`.
pub open spec fn since_root(keys: Seq<u64>, ply: int) -> int {
    if ply < 0 {
        0
    } else if ply + 1 >= keys.len() {
        keys.len() as int
    } else {
        ply + 1
    }
}

/// Whether a position with key `curr`, reached by a move at `ply`, is a
/// draw by repetition: it occurred before within the search, the root
/// counted in, or twice before in all.
pub open spec fn repetition_draw(keys: Seq<u64>, curr: u64, ply: int) -> bool {
    occurrences(keys.skip(keys.len() - since_root(keys, ply)), curr) >= 1 || occurrences(
        keys,
        curr,
    ) >= 2
}

/// Counting the occurrences in the last keys of a list: one key more at
/// the front adds one where it is the key.
proof fn lemma_occurrences_front(keys: Seq<u64>, key: u64)
    requires
        keys.len() > 0,
    ensures
        occurrences(keys, key) == occurrences(keys.skip(1), key) + if keys[0] == key {
            1nat
        } else {
            0nat
        },
    decreases keys.len(),
{
    if keys.len() == 1 {
        assert(keys.skip(1) =~= keys.drop_last());
    } else {
        lemma_occurrences_front(keys.drop_last(), key);
        assert(keys.drop_last().skip(1) =~= keys.skip(1).drop_last());
    }
}

/// One key more at the end of a list adds one occurrence where it is the key.
pub proof fn lemma_occurrences_push(keys: Seq<u64>, last: u64, key: u64)
    ensures
        occurrences(keys.push(last), key) == occurrences(keys, key) + if last == key {
            1nat
        } else {
            0nat
        },
{
    assert(keys.push(last).drop_last() =~= keys);
}

/// Four moves that bring the stacks back bring the key back. Where the
/// stacks after four moves from `b` are those of `b`, the position after
/// them has the key of `b`, however many plies were played; so its key is
/// among the keys of the game, which are `keys` and then those of `b` and
/// of the positions after the first three moves.
pub proof fn lemma_key_returns(b: Board, m1: Move, m2: Move, m3: Move, m4: Move, keys: Seq<u64>)
    requires
        b.play(m1).play(m2).play(m3).play(m4).towers == b.towers,
    ensures
        b.play(m1).play(m2).play(m3).play(m4).key() == b.key(),
        occurrences(
            keys.push(b.key()).push(b.play(m1).key()).push(b.play(m1).play(m2).key()).push(
                b.play(m1).play(m2).play(m3).key(),
            ),
            b.play(m1).play(m2).play(m3).play(m4).key(),
        ) >= 1,
{
    let after = b.play(m1).play(m2).play(m3).play(m4);
    assert(after.stm == b.stm);
    b.lemma_key_of_stacks(after);
    let k = after.key();
    lemma_occurrences_push(keys, b.key(), k);
    lemma_occurrences_push(keys.push(b.key()), b.play(m1).key(), k);
    lemma_occurrences_push(keys.push(b.key()).push(b.play(m1).key()), b.play(m1).play(m2).key(), k);
    lemma_occurrences_push(
        keys.push(b.key()).push(b.play(m1).key()).push(b.play(m1).play(m2).key()),
        b.play(m1).play(m2).play(m3).key(),
        k,
    );
}

/// The data of a search thread.
pub struct ThreadData {
    pub id: u32,
    pub key_history: Vec<u64>,
    pub root_depth: i32,
    pub max_depth: i32,
    pub seldepth: i32,
    pub nodes: usize,
    pub root_moves: Vec<RootMove>,
    pub stack: Vec<StackEntry>,
    pub corrhist: CorrectionHistory,
    pub history: History,
    pub killers: Vec<KillerTable>,
}

impl ThreadData {
    /// The tables are whole, there is a place for every ply, and every
    /// move kept is a move of the board.
    pub open spec fn wf(self) -> bool {
        &&& self.stack@.len() == 256
        &&& self.killers@.len() == 255
        &&& self.corrhist.wf()
        &&& self.history.wf()
        &&& forall|i: int| 0 <= i < 255 ==> (#[trigger] self.killers@[i]).wf()
        &&& forall|i: int|
            0 <= i < 256 ==> ((#[trigger] self.stack@[i]).mv matches Some(m) ==> m.valid())
        &&& forall|i: int| 0 <= i < self.root_moves@.len() ==> (#[trigger] self.root_moves@[i]).wf()
        &&& 0 <= self.seldepth <= 256
    }

    /// Thread number `id`, with empty tables.
    pub fn new(id: u32) -> (r: ThreadData)
        ensures
            r.wf(),
            r.id == id,
            r.nodes == 0,
            r.root_depth == 0,
            r.max_depth == 0,
            r.key_history@.len() == 0,
            r.root_moves@.len() == 0,
    {
        ThreadData {
            id,
            key_history: Vec::new(),
            root_depth: 0,
            max_depth: 0,
            seldepth: 0,
            nodes: 0,
            root_moves: Vec::new(),
            stack: vec![StackEntry { mv: None }; 256],
            corrhist: CorrectionHistory::new(),
            history: History::new(),
            killers: vec![KillerTable::new(); 255],
        }
    }

    /// Whether this is the thread that reports and watches the clock.
    pub fn is_main_thread(&self) -> (r: bool)
        ensures
            r == (self.id == 0),
    {
        self.id == 0
    }

    /// Counts one node more; the count sticks at the largest `usize`.
    pub fn inc_nodes(&mut self)
        ensures
            final(self).nodes == (if old(self).nodes == usize::MAX {
                usize::MAX
            } else {
                (old(self).nodes + 1) as usize
            }),
            *final(self) == (ThreadData { nodes: final(self).nodes, ..*old(self) }),
    {
        if self.nodes < usize::MAX {
            self.nodes = self.nodes + 1;
        }
    }

    pub fn reset_seldepth(&mut self)
        ensures
            *final(self) == (ThreadData { seldepth: 0, ..*old(self) }),
    {
        self.seldepth = 0;
    }

    /// Raises the deepest ply seen to the one after `ply`.
    pub fn update_seldepth(&mut self, ply: i32)
        requires
            0 <= ply <= 255,
        ensures
            final(self).seldepth == (if old(self).seldepth > ply + 1 {
                old(self).seldepth as int
            } else {
                ply + 1
            }),
            *final(self) == (ThreadData { seldepth: final(self).seldepth, ..*old(self) }),
    {
        if self.seldepth < ply + 1 {
            self.seldepth = ply + 1;
        }
    }

    /// Plays `mv` at `ply`: keeps the key of `pos` and the move, and gives
    /// the position after the move.
    pub fn apply_move(&mut self, ply: i32, pos: &Position, mv: Move) -> (r: Position)
        requires
            old(self).wf(),
            0 <= ply <= 255,
            pos.wf(),
            pos@.legal(mv),
            pos@.ply < u16::MAX,
        ensures
            final(self).wf(),
            r.wf(),
            r@ == pos@.play(mv),
            final(self).key_history@ == old(self).key_history@.push(pos@.key()),
            final(self).stack@ == old(self).stack@.update(ply as int, StackEntry { mv: Some(mv) }),
            *final(self) == (ThreadData {
                key_history: final(self).key_history,
                stack: final(self).stack,
                ..*old(self)
            }),
    {
        self.key_history.push(pos.key());
        self.stack[ply as usize] = StackEntry { mv: Some(mv) };
        pos.apply_move(mv)
    }

    /// Passes at `ply`: keeps the key of `pos` and that no move was
    /// played, and gives the position after the pass.
    pub fn apply_nullmove(&mut self, ply: i32, pos: &Position) -> (r: Position)
        requires
            old(self).wf(),
            0 <= ply <= 255,
            pos.wf(),
            pos@.ply < u16::MAX,
        ensures
            final(self).wf(),
            r.wf(),
            r@ == pos@.pass(),
            final(self).key_history@ == old(self).key_history@.push(pos@.key()),
            final(self).stack@ == old(self).stack@.update(ply as int, StackEntry { mv: None }),
            *final(self) == (ThreadData {
                key_history: final(self).key_history,
                stack: final(self).stack,
                ..*old(self)
            }),
    {
        self.key_history.push(pos.key());
        self.stack[ply as usize] = StackEntry { mv: None };
        pos.apply_nullmove()
    }

    /// The root move `mv`, to be changed.
    #[must_use]
    pub fn get_root_move_mut(&mut self, mv: Move) -> (r: &mut RootMove)
        requires
            old(self).wf(),
            exists|j: int|
                0 <= j < old(self).root_moves@.len() && (#[trigger] old(self).root_moves@[j]).first()
                    == mv,
        ensures
            r.first() == mv,
            exists|j: int|
                0 <= j < old(self).root_moves@.len() && old(self).root_moves@[j] == *r && final(self).root_moves@ == old(self).root_moves@.update(j, *final(r)),
            *final(self) == (ThreadData { root_moves: final(self).root_moves, ..*old(self) }),
    {
        let i = match self.find_root_move(mv) {
            Some(i) => i,
            None => 0,
        };
        &mut self.root_moves[i]
    }

    /// Takes the last key back.
    pub fn pop_move(&mut self)
        ensures
            old(self).key_history@.len() > 0 ==> final(self).key_history@ == old(self).key_history@.drop_last(),
            old(self).key_history@.len() == 0 ==> final(self).key_history@ == old(self).key_history@,
            *final(self) == (ThreadData { key_history: final(self).key_history, ..*old(self) }),
    {
        self.key_history.pop();
    }

    /// Whether a position with key `curr`, reached by a move at `ply`, is
    /// a draw by repetition.
    pub fn is_drawn_by_repetition(&self, curr: u64, ply: i32) -> (r: bool)
        ensures
            r == repetition_draw(self.key_history@, curr, ply as int),
    {
        let n: usize = self.key_history.len();
        let inside: usize = if ply < 0 {
            0
        } else if ply as usize >= n {
            n
        } else {
            ply as usize + 1
        };
        let ghost keys = self.key_history@;
        let mut total: usize = 0;
        let mut near: usize = 0;
        let mut i: usize = n;
        proof {
            assert(keys.skip(n as int).len() == 0);
        }
        while i > 0
            invariant
                i <= n,
                n == keys.len(),
                keys == self.key_history@,
                inside <= n,
                total == occurrences(keys.skip(i as int), curr),
                total <= n - i,
                i >= n - inside ==> near == total,
                i < n - inside ==> near == occurrences(keys.skip(n - inside), curr),
            decreases i,
        {
            i = i - 1;
            proof {
                lemma_occurrences_front(keys.skip(i as int), curr);
                assert(keys.skip(i as int).skip(1) =~= keys.skip(i + 1));
            }
            if self.key_history[i] == curr {
                total = total + 1;
                if i >= n - inside {
                    near = near + 1;
                }
            }
        }
        proof {
            assert(keys.skip(0) =~= keys);
        }
        near >= 1 || total >= 2
    }

    /// The place of the root move `mv` among the root moves.
    pub fn find_root_move(&self, mv: Move) -> (r: Option<usize>)
        requires
            self.wf(),
        ensures
            match r {
                Some(i) => i < self.root_moves@.len() && self.root_moves@[i as int].first() == mv
                    && forall|j: int| 0 <= j < i ==> (#[trigger] self.root_moves@[j]).first() != mv,
                None => forall|j: int|
                    0 <= j < self.root_moves@.len() ==> (#[trigger] self.root_moves@[j]).first()
                        != mv,
            },
    {
        let mut i: usize = 0;
        while i < self.root_moves.len()
            invariant
                i <= self.root_moves@.len(),
                self.wf(),
                forall|j: int| 0 <= j < i ==> (#[trigger] self.root_moves@[j]).first() != mv,
            decreases self.root_moves@.len() - i,
        {
            assert(self.root_moves@[i as int].wf());
            let first = pv_get(&self.root_moves[i].pv, 0);
            proof {
                if first.value() == mv.value() {
                    first.lemma_value_eq(mv);
                }
            }
            if first.raw() == mv.raw() {
                return Some(i);
            }
            i = i + 1;
        }
        None
    }

    /// The root move `mv`.
    #[must_use]
    pub fn get_root_move(&self, mv: Move) -> (r: &RootMove)
        requires
            self.wf(),
            exists|j: int| 0 <= j < self.root_moves@.len() && (#[trigger] self.root_moves@[j]).first()
                == mv,
        ensures
            r.first() == mv,
            exists|j: int| 0 <= j < self.root_moves@.len() && #[trigger] self.root_moves@[j] == *r,
    {
        match self.find_root_move(mv) {
            Some(i) => {
                assert(self.root_moves@[i as int] == self.root_moves@[i as int]);
                &self.root_moves[i]
            },
            None => {
                assert(false);
                &self.root_moves[0]
            },
        }
    }

    /// The root move that comes first, which after a search is the best.
    #[must_use]
    pub fn pv_move(&self) -> (r: &RootMove)
        requires
            self.root_moves@.len() > 0,
        ensures
            *r == self.root_moves@[0],
    {
        &self.root_moves[0]
    }

    /// Begins a search from a position that was reached by the positions
    /// with the given keys.
    pub fn reset(&mut self, key_history: &[u64])
        ensures
            final(self).key_history@ == key_history@,
            *final(self) == (ThreadData { key_history: final(self).key_history, ..*old(self) }),
    {
        self.key_history.clear();
        let mut i: usize = 0;
        while i < key_history.len()
            invariant
                i <= key_history@.len(),
                self.key_history@ == key_history@.take(i as int),
                *self == (ThreadData { key_history: self.key_history, ..*old(self) }),
            decreases key_history@.len() - i,
        {
            self.key_history.push(key_history[i]);
            proof {
                assert(key_history@.take(i + 1) =~= key_history@.take(i as int).push(
                    key_history@[i as int],
                ));
            }
            i = i + 1;
        }
        proof {
            assert(key_history@.take(key_history@.len() as int) =~= key_history@);
        }
    }
}

} // verus!
