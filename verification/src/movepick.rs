//! The order in which the search tries moves: the move of the
//! transposition table, the killers, then the rest by their history.

use crate::board::Position;
use crate::history::History;
use crate::movegen::generate_moves;
use crate::takmove::Move;
use vstd::prelude::*;

verus! {

/// The bonus that puts placements before spreads of the same history.
pub const PLACEMENT_BONUS: i32 = 100;

/// Where a move picker stands.
#[derive(Copy, Clone, PartialEq, Eq, Structural, Debug)]
pub enum Stage {
    TtMove,
    Killer1,
    Killer2,
    GenMoves,
    Moves,
    End,
}

impl Stage {
    /// The number of the stage, from 0 for the first.
    pub open spec fn index(self) -> int {
        match self {
            Stage::TtMove => 0,
            Stage::Killer1 => 1,
            Stage::Killer2 => 2,
            Stage::GenMoves => 3,
            Stage::Moves => 4,
            Stage::End => 5,
        }
    }

    /// The stage after this one.
    pub fn next(&self) -> (r: Stage)
        requires
            *self != Stage::End,
        ensures
            r.index() == self.index() + 1,
    {
        match *self {
            Stage::TtMove => Stage::Killer1,
            Stage::Killer1 => Stage::Killer2,
            Stage::Killer2 => Stage::GenMoves,
            Stage::GenMoves => Stage::Moves,
            Stage::Moves => Stage::End,
            Stage::End => Stage::End,
        }
    }
}

/// The two moves that last cut off the search at a ply.
#[derive(Copy, Clone, Debug)]
pub struct KillerTable {
    killers: [Option<Move>; 2],
}

impl KillerTable {
    pub const COUNT: usize = 2;

    /// The killer found last.
    pub closed spec fn first(self) -> Option<Move> {
        self.killers[0]
    }

    /// The killer found before the last.
    pub closed spec fn second(self) -> Option<Move> {
        self.killers[1]
    }

    /// The two killers differ.
    pub open spec fn wf(self) -> bool {
        self.first() == self.second() ==> self.first() is None
    }

    /// Whether `mv` is one of the killers.
    pub open spec fn has(self, mv: Move) -> bool {
        self.first() == Some(mv) || self.second() == Some(mv)
    }

    /// The table without killers.
    pub fn new() -> (r: KillerTable)
        ensures
            r.wf(),
            r.first() is None,
            r.second() is None,
    {
        KillerTable { killers: [None, None] }
    }

    /// Makes `mv` the first killer, and what was the first the second,
    /// unless `mv` is the first already.
    pub fn push(&mut self, mv: Move)
        requires
            old(self).wf(),
        ensures
            final(self).wf(),
            final(self).first() == Some(mv),
            old(self).first() == Some(mv) ==> *final(self) == *old(self),
            old(self).first() != Some(mv) ==> final(self).second() == old(self).first(),
    {
        let same = match self.killers[0] {
            Some(k) => k.raw() == mv.raw(),
            None => false,
        };
        proof {
            if self.killers[0] is Some {
                if self.killers[0].unwrap().value() == mv.value() {
                    mv.lemma_value_eq(self.killers[0].unwrap());
                }
            }
        }
        if !same {
            self.killers = [Some(mv), self.killers[0]];
        }
    }

    #[must_use]
    pub fn contains(&self, mv: Move) -> (r: bool)
        ensures
            r == self.has(mv),
    {
        let first = match self.killers[0] {
            Some(k) => k.raw() == mv.raw(),
            None => false,
        };
        let second = match self.killers[1] {
            Some(k) => k.raw() == mv.raw(),
            None => false,
        };
        proof {
            if self.killers[0] is Some && self.killers[0].unwrap().value() == mv.value() {
                mv.lemma_value_eq(self.killers[0].unwrap());
            }
            if self.killers[1] is Some && self.killers[1].unwrap().value() == mv.value() {
                mv.lemma_value_eq(self.killers[1].unwrap());
            }
        }
        first || second
    }

    /// The first killer.
    pub fn get_first(&self) -> (r: Option<Move>)
        ensures
            r == self.first(),
    {
        self.killers[0]
    }

    /// The second killer.
    pub fn get_second(&self) -> (r: Option<Move>)
        ensures
            r == self.second(),
    {
        self.killers[1]
    }

    /// Forgets the killers.
    pub fn reset(&mut self)
        ensures
            final(self).wf(),
            final(self).first() is None,
            final(self).second() is None,
    {
        self.killers = [None, None];
    }
}

/// Whether two moves, of which one may be missing, are the same move.
fn same_move(a: Option<Move>, b: Move) -> (r: bool)
    ensures
        r == (a == Some(b)),
{
    match a {
        Some(m) => {
            proof {
                if m.value() == b.value() {
                    m.lemma_value_eq(b);
                }
            }
            m.raw() == b.raw()
        },
        None => false,
    }
}

/// Whether `m` is among the first `n` of the moves.
pub open spec fn among_first(moves: Seq<Move>, n: int, m: Move) -> bool {
    exists|k: int| 0 <= k < n && #[trigger] moves[k] == m
}

/// Whether a move is among the first of a list depends on those alone, and
/// with one more it is among them or is that one.
proof fn lemma_front(a: Seq<Move>, b: Seq<Move>, n: int, m: Move)
    requires
        0 <= n < a.len(),
        a.len() == b.len(),
        forall|k: int| 0 <= k < n ==> a[k] == b[k],
    ensures
        among_first(a, n, m) == among_first(b, n, m),
        among_first(b, n + 1, m) == (among_first(b, n, m) || b[n] == m),
        b.no_duplicates() ==> !among_first(b, n, b[n]),
        among_first(b, b.len() as int, m) == b.contains(m),
{
    if among_first(a, n, m) {
        let k = choose|k: int| 0 <= k < n && #[trigger] a[k] == m;
        assert(b[k] == m);
    }
    if among_first(b, n, m) {
        let k = choose|k: int| 0 <= k < n && #[trigger] b[k] == m;
        assert(a[k] == m);
        assert(0 <= k < n + 1 && b[k] == m);
    }
    if among_first(b, n + 1, m) {
        let k = choose|k: int| 0 <= k < n + 1 && #[trigger] b[k] == m;
        if k < n {
            assert(0 <= k < n && b[k] == m);
        }
    }
    if b[n] == m {
        assert(0 <= n < n + 1 && b[n] == m);
    }
    if b.contains(m) {
        let k = choose|k: int| 0 <= k < b.len() && b[k] == m;
        assert(0 <= k < b.len() && b[k] == m);
    }
}

/// Hands out the legal moves of a position one by one.
pub struct Movepicker<'a> {
    pos: &'a Position,
    moves: Vec<Move>,
    scores: Vec<i32>,
    idx: usize,
    tt_move: Option<Move>,
    killers: KillerTable,
    prev_move: Option<Move>,
    stage: Stage,
    yielded: Ghost<Seq<Move>>,
    scored: Ghost<History>,
}

impl<'a> Movepicker<'a> {
    /// The position whose moves are handed out.
    pub closed spec fn pos(self) -> Position {
        *self.pos
    }

    /// The moves handed out so far, in their order.
    pub closed spec fn yielded(self) -> Seq<Move> {
        self.yielded@
    }

    /// The stage at which the picker stands.
    pub closed spec fn stage(self) -> Stage {
        self.stage
    }

    /// The move that the picker tries first.
    pub closed spec fn tt_move(self) -> Option<Move> {
        self.tt_move
    }

    /// The killers that the picker tries next.
    pub closed spec fn killers(self) -> KillerTable {
        self.killers
    }

    /// The move that led to the position.
    pub closed spec fn prev_move(self) -> Option<Move> {
        self.prev_move
    }

    /// The history tables by which the listed moves were scored.
    pub closed spec fn scored(self) -> History {
        self.scored@
    }

    /// The stages that the picker has still before it.
    pub closed spec fn stages_left(self) -> int {
        5 - self.stage.index()
    }

    /// The listed moves that the picker has not looked at yet.
    pub closed spec fn moves_left(self) -> int {
        self.moves@.len() - self.idx
    }

    /// Whether `mv` is the move of the table or a killer, which have their
    /// turn before the other moves.
    pub open spec fn early(self, mv: Move) -> bool {
        self.tt_move() == Some(mv) || self.killers().has(mv)
    }

    /// The score by which `mv` is ordered among the other moves.
    pub open spec fn order_score(self, history: History, mv: Move) -> int {
        history.spec_score(self.pos()@.stm, mv, self.prev_move()) + if mv.spreads() {
            0
        } else {
            PLACEMENT_BONUS as int
        }
    }

    /// What the list of the other moves holds at the last stages.
    pub closed spec fn list_ok(self) -> bool {
        &&& self.moves@.no_duplicates()
        &&& forall|m: Move| #[trigger] self.moves@.contains(m) <==> self.pos()@.legal(m)
        &&& self.scores@.len() == self.moves@.len()
        &&& self.idx <= self.moves@.len()
        &&& forall|i: int|
            0 <= i < self.moves@.len() ==> #[trigger] self.scores@[i] == self.order_score(
                self.scored@,
                self.moves@[i],
            )
        &&& forall|m: Move| #[trigger]
            self.yielded@.contains(m) <==> self.pos()@.legal(m) && (self.early(m) || among_first(
                self.moves@,
                self.idx as int,
                m,
            ))
    }

    /// What holds of a picker between two calls.
    pub closed spec fn wf(self) -> bool {
        &&& self.pos().wf()
        &&& self.killers.wf()
        &&& (self.prev_move matches Some(p) ==> p.valid())
        &&& self.yielded@.no_duplicates()
        &&& forall|m: Move| #[trigger] self.yielded@.contains(m) ==> self.pos()@.legal(m)
        &&& (self.stage.index() <= 3 ==> forall|m: Move| #[trigger]
            self.yielded@.contains(m) ==> self.early(m))
        &&& (self.stage == Stage::TtMove ==> self.yielded@.len() == 0)
        &&& (self.stage.index() >= 1 ==> (self.tt_move matches Some(t) ==> (self.pos()@.legal(t)
            ==> self.yielded@.contains(t))))
        &&& (self.stage.index() == 1 ==> forall|m: Move| #[trigger]
            self.yielded@.contains(m) ==> self.tt_move == Some(m))
        &&& (self.stage.index() >= 2 ==> (self.killers.first() matches Some(k) ==> (
        self.pos()@.legal(k) ==> self.yielded@.contains(k))))
        &&& (self.stage.index() == 2 ==> forall|m: Move| #[trigger]
            self.yielded@.contains(m) ==> self.tt_move == Some(m) || self.killers.first() == Some(
                m,
            ))
        &&& (self.stage.index() >= 3 ==> (self.killers.second() matches Some(k) ==> (
        self.pos()@.legal(k) ==> self.yielded@.contains(k))))
        &&& (self.stage == Stage::Moves ==> self.list_ok())
        &&& (self.stage == Stage::End ==> forall|m: Move|
            self.pos()@.legal(m) ==> #[trigger] self.yielded@.contains(m))
    }

    /// A picker for the moves of `pos`, which tries `tt_move` first and
    /// the killers next.
    pub fn new(
        pos: &'a Position,
        tt_move: Option<Move>,
        killers: KillerTable,
        prev_move: Option<Move>,
    ) -> (r: Movepicker<'a>)
        requires
            pos.wf(),
            killers.wf(),
            prev_move matches Some(p) ==> p.valid(),
        ensures
            r.wf(),
            r.pos() == *pos,
            r.yielded().len() == 0,
            r.stage() == Stage::TtMove,
            r.tt_move() == tt_move,
            r.killers() == killers,
            r.prev_move() == prev_move,
            r.stages_left() == 5,
    {
        Movepicker {
            pos,
            moves: Vec::new(),
            scores: Vec::new(),
            idx: 0,
            tt_move,
            killers,
            prev_move,
            stage: Stage::TtMove,
            yielded: Ghost(Seq::empty()),
            scored: Ghost(arbitrary()),
        }
    }
}


/// A list with two items exchanged holds the same items, each as often.
proof fn lemma_swapped(s: Seq<Move>, i: int, j: int)
    requires
        0 <= i <= j < s.len(),
    ensures
        ({
            let t = s.update(i, s[j]).update(j, s[i]);
            &&& forall|m: Move| #[trigger] t.contains(m) <==> s.contains(m)
            &&& s.no_duplicates() ==> t.no_duplicates()
        }),
{
    let t = s.update(i, s[j]).update(j, s[i]);
    assert forall|m: Move| #[trigger] t.contains(m) <==> s.contains(m) by {
        if t.contains(m) {
            let k = choose|k: int| 0 <= k < t.len() && t[k] == m;
            if k == i {
                assert(s[j] == m);
            } else if k == j {
                assert(s[i] == m);
            } else {
                assert(s[k] == m);
            }
        }
        if s.contains(m) {
            let k = choose|k: int| 0 <= k < s.len() && s[k] == m;
            if k == i {
                assert(t[j] == m);
            } else if k == j {
                assert(t[i] == m);
            } else {
                assert(t[k] == m);
            }
        }
    }
}

impl<'a> Movepicker<'a> {
    /// Gives each of the listed moves its score.
    fn score_moves(&mut self, history: &History)
        requires
            old(self).pos().wf(),
            history.wf(),
            old(self).prev_move matches Some(p) ==> p.valid(),
            forall|i: int| 0 <= i < old(self).moves@.len() ==> (#[trigger] old(self).moves@[i]).valid(),
        ensures
            final(self).scores@.len() == final(self).moves@.len(),
            forall|i: int|
                0 <= i < final(self).moves@.len() ==> #[trigger] final(self).scores@[i] == old(self).order_score(*history, final(self).moves@[i]),
            final(self).moves == old(self).moves,
            final(self).pos == old(self).pos,
            final(self).idx == old(self).idx,
            final(self).tt_move == old(self).tt_move,
            final(self).killers == old(self).killers,
            final(self).prev_move == old(self).prev_move,
            final(self).stage == old(self).stage,
            final(self).yielded == old(self).yielded,
            final(self).scored == old(self).scored,
    {
        self.scores.clear();
        let mut i: usize = 0;
        while i < self.moves.len()
            invariant
                i <= self.moves@.len(),
                self.scores@.len() == i,
                self.pos().wf(),
                history.wf(),
                self.prev_move matches Some(p) ==> p.valid(),
                forall|k: int| 0 <= k < self.moves@.len() ==> (#[trigger] self.moves@[k]).valid(),
                forall|k: int|
                    0 <= k < i ==> #[trigger] self.scores@[k] == old(self).order_score(
                        *history,
                        self.moves@[k],
                    ),
                self.moves == old(self).moves,
                self.pos == old(self).pos,
                self.idx == old(self).idx,
                self.tt_move == old(self).tt_move,
                self.killers == old(self).killers,
                self.prev_move == old(self).prev_move,
                self.stage == old(self).stage,
                self.yielded == old(self).yielded,
                self.scored == old(self).scored,
            decreases self.moves@.len() - i,
        {
            let mv = self.moves[i];
            let mut score: i32 = history.score(self.pos, mv, self.prev_move);
            if !mv.is_spread() {
                score = score + PLACEMENT_BONUS;
            }
            self.scores.push(score);
            i = i + 1;
        }
    }

    /// Brings the move with the highest score among those not yet looked at
    /// to the front of them, and gives it.
    fn pick_best(&mut self) -> (r: Move)
        requires
            old(self).idx < old(self).moves@.len(),
            old(self).scores@.len() == old(self).moves@.len(),
        ensures
            r == final(self).moves@[old(self).idx as int],
            exists|j: int|
                old(self).idx <= j < old(self).moves@.len() && final(self).moves@ == old(self).moves@.update(old(self).idx as int, old(self).moves@[j]).update(
                    j,
                    old(self).moves@[old(self).idx as int],
                ) && final(self).scores@ == old(self).scores@.update(
                    old(self).idx as int,
                    old(self).scores@[j],
                ).update(j, old(self).scores@[old(self).idx as int]),
            forall|k: int|
                old(self).idx <= k < final(self).scores@.len() ==> #[trigger] final(self).scores@[k]
                    <= final(self).scores@[old(self).idx as int],
            final(self).pos == old(self).pos,
            final(self).idx == old(self).idx,
            final(self).tt_move == old(self).tt_move,
            final(self).killers == old(self).killers,
            final(self).prev_move == old(self).prev_move,
            final(self).stage == old(self).stage,
            final(self).yielded == old(self).yielded,
            final(self).scored == old(self).scored,
    {
        let n: usize = self.moves.len();
        let mut best_score: i32 = self.scores[self.idx];
        let mut best_idx: usize = self.idx;
        let mut i: usize = self.idx + 1;
        while i < self.moves.len()
            invariant
                self.idx <= best_idx < i <= self.moves@.len(),
                self.scores@.len() == self.moves@.len(),
                best_score == self.scores@[best_idx as int],
                forall|k: int| self.idx <= k < i ==> #[trigger] self.scores@[k] <= best_score,
                *self == *old(self),
            decreases self.moves@.len() - i,
        {
            if self.scores[i] > best_score {
                best_score = self.scores[i];
                best_idx = i;
            }
            i = i + 1;
        }
        let at: usize = self.idx;
        let front_score: i32 = self.scores[at];
        let front_move: Move = self.moves[at];
        let best_move: Move = self.moves[best_idx];
        self.scores[at] = best_score;
        self.scores[best_idx] = front_score;
        self.moves[at] = best_move;
        self.moves[best_idx] = front_move;
        best_move
    }

    /// The next move, or none when every legal move was handed out.
    ///
    /// First comes the move of the transposition table, then the first and
    /// the second killer, each if it is legal and did not come before; then
    /// the other legal moves.
    #[verifier::rlimit(30)]
    pub fn next(&mut self, history: &History) -> (r: Option<Move>)
        requires
            old(self).wf(),
            history.wf(),
        ensures
            final(self).wf(),
            final(self).pos() == old(self).pos(),
            final(self).tt_move() == old(self).tt_move(),
            final(self).killers() == old(self).killers(),
            final(self).prev_move() == old(self).prev_move(),
            match r {
                Some(m) => {
                    &&& final(self).yielded() == old(self).yielded().push(m)
                    &&& old(self).pos()@.legal(m)
                    &&& !old(self).yielded().contains(m)
                },
                None => {
                    &&& final(self).yielded() == old(self).yielded()
                    &&& final(self).stage() == Stage::End
                    &&& forall|m: Move|
                        old(self).pos()@.legal(m) ==> #[trigger] old(self).yielded().contains(m)
                },
            },
            old(self).stage() == Stage::TtMove ==> (old(self).tt_move() matches Some(t) ==> (old(self).pos()@.legal(t) ==> r == Some(t))),
            old(self).stage() == Stage::Killer1 ==> (old(self).killers().first() matches Some(k)
                ==> (old(self).tt_move() != Some(k) && old(self).pos()@.legal(k) ==> r == Some(k))),
            old(self).stage() == Stage::Killer2 ==> (old(self).killers().second() matches Some(k)
                ==> (old(self).tt_move() != Some(k) && old(self).pos()@.legal(k) ==> r == Some(k))),
            r matches Some(m) ==> (!old(self).early(m) ==> forall|other: Move|
                old(self).pos()@.legal(other) && !(#[trigger] final(self).yielded().contains(other))
                    ==> final(self).order_score(final(self).scored(), other) <= final(self).order_score(final(self).scored(), m)),
            old(self).stage().index() >= 4 ==> final(self).scored() == old(self).scored(),
            old(self).stage().index() <= 3 && final(self).stage().index() >= 4 ==> final(self).scored() == *history,
            r is Some ==> 0 <= final(self).stages_left() <= old(self).stages_left(),
            r is Some && final(self).stages_left() == old(self).stages_left() ==> 0 <= final(self).moves_left() < old(self).moves_left(),
    {
        loop
            invariant
                self.wf(),
                history.wf(),
                self.pos == old(self).pos,
                self.tt_move == old(self).tt_move,
                self.killers == old(self).killers,
                self.prev_move == old(self).prev_move,
                self.yielded == old(self).yielded,
                self.stage.index() >= old(self).stage.index(),
                old(self).stage.index() >= 4 ==> self.scored == old(self).scored,
                old(self).stage.index() <= 3 && self.stage.index() >= 4 ==> self.scored@
                    == *history,
                self.stage.index() <= 3 ==> forall|m: Move| #[trigger]
                    self.yielded@.contains(m) ==> self.early(m),
                self.stage == old(self).stage ==> self.moves@.len() - self.idx <= old(self).moves@.len() - old(self).idx,
                old(self).stage == Stage::TtMove && self.stage != Stage::TtMove ==> !(old(self).tt_move matches Some(t) && old(self).pos()@.legal(t)),
                old(self).stage == Stage::Killer1 && self.stage != Stage::Killer1 ==> !(old(self).killers.first() matches Some(k) && old(self).tt_move != Some(k) && old(self).pos()@.legal(k)),
                old(self).stage == Stage::Killer2 && self.stage != Stage::Killer2 ==> !(old(self).killers.second() matches Some(k) && old(self).tt_move != Some(k) && old(self).pos()@.legal(k)),
            decreases 5 - self.stage.index(), self.moves@.len() - self.idx,
        {
            match self.stage {
                Stage::TtMove => {
                    self.stage = Stage::Killer1;
                    match self.tt_move {
                        Some(tt_move) => {
                            if self.pos.is_legal(tt_move) {
                                proof {
                                    lemma_yield(self.yielded@, tt_move);
                                    self.yielded@ = self.yielded@.push(tt_move);
                                }
                                return Some(tt_move);
                            }
                        },
                        None => {},
                    }
                },
                Stage::Killer1 => {
                    self.stage = Stage::Killer2;
                    match self.killers.get_first() {
                        Some(killer) => {
                            if !same_move(self.tt_move, killer) && self.pos.is_legal(killer) {
                                proof {
                                    lemma_yield(self.yielded@, killer);
                                    self.yielded@ = self.yielded@.push(killer);
                                }
                                return Some(killer);
                            }
                        },
                        None => {},
                    }
                },
                Stage::Killer2 => {
                    self.stage = Stage::GenMoves;
                    match self.killers.get_second() {
                        Some(killer) => {
                            if !same_move(self.tt_move, killer) && self.pos.is_legal(killer) {
                                proof {
                                    lemma_yield(self.yielded@, killer);
                                    self.yielded@ = self.yielded@.push(killer);
                                }
                                return Some(killer);
                            }
                        },
                        None => {},
                    }
                },
                Stage::GenMoves => {
                    generate_moves(&mut self.moves, self.pos);
                    proof {
                        assert forall|i: int| 0 <= i < self.moves@.len() implies (
                        #[trigger] self.moves@[i]).valid() by {
                            assert(self.moves@.contains(self.moves@[i]));
                        }
                    }
                    self.score_moves(history);
                    self.idx = 0;
                    self.stage = Stage::Moves;
                    proof {
                        self.scored@ = *history;
                    }
                },
                Stage::Moves => {
                    if self.idx < self.moves.len() {
                        let ghost before = *self;
                        let mv = self.pick_best();
                        self.idx = self.idx + 1;
                        let at_first = same_move(self.tt_move, mv);
                        let early = at_first || self.killers.contains(mv);
                        proof {
                            let i = before.idx as int;
                            let j = choose|j: int|
                                i <= j < before.moves@.len() && self.moves@
                                    == before.moves@.update(i, before.moves@[j]).update(
                                    j,
                                    before.moves@[i],
                                );
                            lemma_swapped(before.moves@, i, j);
                            assert(self.moves@.contains(mv)) by {
                                assert(self.moves@[i] == mv);
                            }
                            assert(before.list_ok());
                            assert forall|k: int| 0 <= k < self.moves@.len() implies #[trigger]
                                self.scores@[k] == self.order_score(
                                    self.scored@,
                                    self.moves@[k],
                                ) by {
                                let from = if k == i {
                                    j
                                } else if k == j {
                                    i
                                } else {
                                    k
                                };
                                assert(before.scores@[from] == before.order_score(
                                    before.scored@,
                                    before.moves@[from],
                                ));
                            }
                            assert forall|m: Move|
                                among_first(self.moves@, i + 1, m) == (#[trigger] among_first(
                                    before.moves@,
                                    i,
                                    m,
                                ) || m == mv) by {
                                lemma_front(before.moves@, self.moves@, i, m);
                            }
                            lemma_front(before.moves@, self.moves@, i, mv);
                            assert(!before.yielded@.contains(mv) || early);
                            if !early {
                                lemma_yield(self.yielded@, mv);
                                self.yielded@ = self.yielded@.push(mv);
                            }
                            assert forall|m: Move| #[trigger]
                                self.yielded@.contains(m) <==> self.pos()@.legal(m) && (self.early(
                                    m,
                                ) || among_first(self.moves@, self.idx as int, m)) by {
                                assert(before.yielded@.contains(m) <==> before.pos()@.legal(m) && (
                                before.early(m) || among_first(before.moves@, i, m)));
                            }
                            assert(self.list_ok());
                            if !early {
                                assert forall|other: Move|
                                    self.pos()@.legal(other) && !(#[trigger] self.yielded@.contains(
                                        other,
                                    )) implies self.order_score(self.scored@, other)
                                    <= self.order_score(self.scored@, mv) by {
                                    assert(self.moves@.contains(other));
                                    let k = choose|k: int|
                                        0 <= k < self.moves@.len() && self.moves@[k] == other;
                                    if k < self.idx {
                                        assert(among_first(self.moves@, self.idx as int, other));
                                    }
                                    assert(self.scores@[k] <= self.scores@[i]);
                                    assert(self.scores@[k] == self.order_score(
                                        self.scored@,
                                        self.moves@[k],
                                    ));
                                    assert(self.scores@[i] == self.order_score(
                                        self.scored@,
                                        self.moves@[i],
                                    ));
                                }
                            }
                        }
                        if !early {
                            return Some(mv);
                        }
                    } else {
                        proof {
                            assert forall|m: Move| self.pos()@.legal(m) implies #[trigger]
                                self.yielded@.contains(m) by {
                                assert(self.moves@.contains(m));
                                let k = choose|k: int| 0 <= k < self.moves@.len() && self.moves@[k] == m;
                                assert(0 <= k < self.idx && self.moves@[k] == m);
                            }
                        }
                        self.stage = Stage::End;
                    }
                },
                Stage::End => {
                    return None;
                },
            }
        }
    }
}

/// A list with a new item at its end holds no item twice, and holds what
/// it held and the item.
proof fn lemma_yield(s: Seq<Move>, x: Move)
    ensures
        forall|m: Move| #[trigger] s.push(x).contains(m) <==> s.contains(m) || m == x,
        s.no_duplicates() && !s.contains(x) ==> s.push(x).no_duplicates(),
        s.push(x).len() == s.len() + 1,
{
    let t = s.push(x);
    assert forall|m: Move| #[trigger] t.contains(m) <==> s.contains(m) || m == x by {
        if s.contains(m) {
            let i = choose|i: int| 0 <= i < s.len() && s[i] == m;
            assert(t[i] == m);
        }
        if m == x {
            assert(t[s.len() as int] == x);
        }
    }
}

} // verus!
