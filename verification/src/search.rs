//! The search: iterative deepening over an alpha-beta search with a
//! transposition table, late-move reductions and reverse futility pruning.

use crate::board::Position;
use crate::correction::CorrectionHistory;
use crate::eval::{static_eval, Score};
use crate::history::{conthist_bumped, conthist_penalised, hist_bumped, hist_penalised, trunc_div};
use crate::limit::{reached, Limits};
use crate::model::Board;
use crate::movegen::generate_moves;
use crate::movepick::{KillerTable, Movepicker};
use crate::pv::{line_from, pv_clone, pv_get, pv_len, pv_moves, pv_new, update_pv, PvList};
use crate::rules::FlatCountOutcome;
use crate::takmove::Move;
use crate::thread::{
    repetition_draw, RootMove, StackEntry, ThreadData, MAX_PLY, SCORE_INF, SCORE_MATE,
    SCORE_MAX_MATE,
};
use crate::ttable::{probed, stored, ProbedTtEntry, Slot, TranspositionTable, TtFlag};
use crate::types::Player;
use vstd::prelude::*;

verus! {

/// No score that the search handles is larger in size.
pub const SCORE_BOUND: Score = 60000;

/// The depths of the table of late-move reductions.
pub const LMR_TABLE_DEPTHS: usize = 255;

/// The move numbers of the table of late-move reductions.
pub const LMR_TABLE_MOVES: usize = 64;

/// Up to this depth a node is cut off where the static evaluation is far
/// above beta.
pub const RFP_MAX_DEPTH: i32 = 6;

/// The kind of a node of the search.
#[derive(Copy, Clone, PartialEq, Eq, Structural, Debug)]
pub enum NodeKind {
    /// A node searched with a window of one point.
    NonPv,
    /// A node on the principal variation.
    Pv,
    /// The root.
    Root,
}

impl NodeKind {
    /// Whether the node is on the principal variation.
    pub open spec fn pv(self) -> bool {
        self != NodeKind::NonPv
    }

    /// Whether the node is the root.
    pub open spec fn root(self) -> bool {
        self == NodeKind::Root
    }

    pub fn is_pv(self) -> (r: bool)
        ensures
            r == self.pv(),
    {
        match self {
            NodeKind::NonPv => false,
            _ => true,
        }
    }

    pub fn is_root(self) -> (r: bool)
        ensures
            r == self.root(),
    {
        match self {
            NodeKind::Root => true,
            _ => false,
        }
    }
}

/// The table of late-move reductions: by how much the search of the move
/// with a given number is made shallower at a given depth.
pub struct LmrTable {
    rows: Vec<Vec<i32>>,
}

/// Whether the rows are those of a table of reductions: 255 rows of 64
/// reductions from 0 to 255.
pub open spec fn lmr_rows_ok(rows: Seq<Vec<i32>>) -> bool {
    &&& rows.len() == 255
    &&& forall|d: int| 0 <= d < 255 ==> (#[trigger] rows[d])@.len() == 64
    &&& forall|d: int, m: int|
        0 <= d < 255 && 0 <= m < 64 ==> 0 <= #[trigger] rows[d]@[m] <= 255
}

impl LmrTable {
    /// The rows of the table.
    pub closed spec fn rows(self) -> Seq<Vec<i32>> {
        self.rows@
    }

    /// The table is whole.
    pub open spec fn wf(self) -> bool {
        lmr_rows_ok(self.rows())
    }

    /// The reduction at `depth` for the move with number `move_count`: that
    /// of row `depth - 1` at place `min(move_count, 63) - 1`.
    pub open spec fn reduction(self, depth: int, move_count: int) -> int {
        self.rows()[depth - 1]@[(if move_count < 63 {
            move_count
        } else {
            63
        }) - 1] as int
    }

    /// The table with the given rows, if they are 255 rows of 64
    /// reductions from 0 to 255.
    pub fn from_rows(rows: Vec<Vec<i32>>) -> (r: Option<LmrTable>)
        ensures
            r.is_some() == lmr_rows_ok(rows@),
            r matches Some(t) ==> t.rows() == rows@ && t.wf(),
    {
        if rows.len() != LMR_TABLE_DEPTHS {
            return None;
        }
        let mut d: usize = 0;
        while d < LMR_TABLE_DEPTHS
            invariant
                d <= 255,
                rows@.len() == 255,
                forall|i: int| 0 <= i < d ==> (#[trigger] rows@[i])@.len() == 64,
                forall|i: int, m: int|
                    0 <= i < d && 0 <= m < 64 ==> 0 <= #[trigger] rows@[i]@[m] <= 255,
            decreases 255 - d,
        {
            if rows[d].len() != LMR_TABLE_MOVES {
                return None;
            }
            let mut m: usize = 0;
            while m < LMR_TABLE_MOVES
                invariant
                    m <= 64,
                    d < 255,
                    rows@.len() == 255,
                    rows@[d as int]@.len() == 64,
                    forall|k: int| 0 <= k < m ==> 0 <= #[trigger] rows@[d as int]@[k] <= 255,
                decreases 64 - m,
            {
                let value: i32 = rows[d][m];
                if value < 0 || value > 255 {
                    return None;
                }
                m = m + 1;
            }
            d = d + 1;
        }
        Some(LmrTable { rows })
    }

    /// The table in which nothing is reduced.
    pub fn zeros() -> (r: LmrTable)
        ensures
            r.wf(),
            forall|d: int, m: int| 1 <= d <= 255 && 1 <= m ==> r.reduction(d, m) == 0,
    {
        let row: Vec<i32> = vec![0i32; 64];
        let rows: Vec<Vec<i32>> = vec![row; 255];
        proof {
            assert forall|d: int| 0 <= d < 255 implies (#[trigger] rows@[d])@.len() == 64 by {
                assert(rows@[d]@ == row@);
            }
            assert forall|d: int, m: int| 0 <= d < 255 && 0 <= m < 64 implies 0
                <= #[trigger] rows@[d]@[m] <= 255 by {
                assert(rows@[d]@ == row@);
            }
        }
        let r = LmrTable { rows };
        proof {
            assert forall|d: int, m: int| 1 <= d <= 255 && 1 <= m implies r.reduction(d, m)
                == 0 by {
                assert(rows@[d - 1]@ == row@);
            }
        }
        r
    }

    /// The reduction at `depth` for the move with number `move_count`.
    pub fn get(&self, depth: i32, move_count: usize) -> (r: i32)
        requires
            self.wf(),
            1 <= depth <= 255,
            1 <= move_count,
        ensures
            r == self.reduction(depth as int, move_count as int),
            0 <= r <= 255,
    {
        let m: usize = if move_count < 63 {
            move_count
        } else {
            63
        };
        self.rows[(depth - 1) as usize][m - 1]
    }
}

/// The score of a game that the side to move at the root wins at `ply`.
pub open spec fn mate_score(ply: int) -> int {
    SCORE_MATE - ply - 1
}

/// What is known of the score of a position as soon as the move that led
/// to it is played, seen from the player who moved: a win by a road of
/// their own; else, after a spread, a loss by a road of the opponent;
/// else, after a placement, the result by flats if there is one; else,
/// after a spread, a draw if the position occurred before.
pub open spec fn immediate_score(
    after: Board,
    mv: Move,
    mover: Player,
    ply: int,
    repeated: bool,
) -> Option<int> {
    if after.has_road(mover) {
        Some(mate_score(ply))
    } else if mv.spreads() && after.has_road(mover.other()) {
        Some(-mate_score(ply))
    } else if !mv.spreads() && after.flat_count() != FlatCountOutcome::Undecided {
        match after.flat_count() {
            FlatCountOutcome::Win(p) => if p == mover {
                Some(mate_score(ply))
            } else {
                Some(-mate_score(ply))
            },
            _ => Some(0),
        }
    } else if mv.spreads() && repeated {
        Some(0)
    } else {
        None
    }
}

/// What is known of the score of `mv` for the side to move on `b`, at a
/// node `ply` plies from the root that was reached by the positions with
/// the keys `keys`, as soon as the move is played.
pub open spec fn known_score(b: Board, keys: Seq<u64>, mv: Move, ply: int) -> Option<int> {
    let after = b.play(mv);
    immediate_score(after, mv, b.stm, ply, repetition_draw(keys.push(b.key()), after.key(), ply))
}

/// The evaluation of `b` with the correction that `corrhist` holds for it.
pub open spec fn corrected(b: Board, corrhist: CorrectionHistory) -> int {
    b.static_eval() + trunc_div(corrhist.total(b.stm, b.towers), 16)
}

/// The score of `mv` at a node of depth one: what is known of it as soon as
/// it is played, else the corrected evaluation of the position after it,
/// seen from the side that moved.
pub open spec fn shallow_score(
    b: Board,
    keys: Seq<u64>,
    corrhist: CorrectionHistory,
    mv: Move,
    ply: int,
) -> int {
    match known_score(b, keys, mv, ply) {
        Some(s) => s,
        None => -corrected(b.play(mv), corrhist),
    }
}

/// Whether the score `best` of a node of the given depth takes `mv` into
/// account: it is no less than what is known of the move as soon as it is
/// played, and at depth one no less than the score of the move.
pub open spec fn move_counted(
    b: Board,
    keys: Seq<u64>,
    corrhist: CorrectionHistory,
    depth: int,
    ply: int,
    mv: Move,
    best: int,
) -> bool {
    &&& known_score(b, keys, mv, ply) matches Some(s) ==> best >= s
    &&& depth == 1 ==> best >= shallow_score(b, keys, corrhist, mv, ply)
}

/// Whether the search of one depth and the look at the bounds after it
/// go on while no more than `nodes` nodes are counted: the search of the
/// depth runs on; and the thread is not the main thread, or the depth is
/// the last, or there is no time after which no depth is begun, and
/// `nodes` is below the bound on the nodes.
pub open spec fn deepens(
    limits: Limits,
    id: u32,
    root_depth: int,
    max_depth: int,
    nodes: int,
) -> bool {
    runs_on(limits, id, root_depth, nodes) && (id != 0 || root_depth >= max_depth || (
    limits.soft_ms is None && !reached(nodes, limits.node_bound())))
}

/// Whether the bounds hold no time, and `nodes` is below the bound on the
/// nodes: nothing then stops a search that counts `nodes` nodes.
pub open spec fn unbounded_at(limits: Limits, nodes: int) -> bool {
    limits.hard_ms is None && limits.soft_ms is None && !reached(nodes, limits.node_bound())
}

/// The depth that a search reaches where nothing stops it: the depth asked
/// for, and one at least.
pub open spec fn last_depth(max_depth: int) -> int {
    if max_depth < 1 {
        1
    } else {
        max_depth
    }
}

/// A score that takes the moves `handed` into account and is raised to
/// the score of one more move takes that move into account too.
proof fn lemma_counted(
    b: Board,
    keys: Seq<u64>,
    corrhist: CorrectionHistory,
    depth: int,
    ply: int,
    handed: Seq<Move>,
    mv: Move,
    was: int,
    best: int,
    score: int,
)
    requires
        forall|m: Move| #[trigger]
            handed.contains(m) ==> move_counted(b, keys, corrhist, depth, ply, m, was),
        best >= was,
        best >= score,
        known_score(b, keys, mv, ply) matches Some(s) ==> score == s,
        depth == 1 ==> score == shallow_score(b, keys, corrhist, mv, ply),
    ensures
        forall|m: Move| #[trigger]
            handed.push(mv).contains(m) ==> move_counted(b, keys, corrhist, depth, ply, m, best),
{
    assert forall|m: Move| #[trigger] handed.push(mv).contains(m) implies move_counted(
        b,
        keys,
        corrhist,
        depth,
        ply,
        m,
        best,
    ) by {
        if m != mv {
            let k = choose|k: int| 0 <= k < handed.push(mv).len() && handed.push(mv)[k] == m;
            assert(handed[k] == m);
            assert(handed.contains(m));
        }
    }
}

/// The bound that the score of a node is for the transposition table:
/// a lower bound where it is beta or more, an upper bound where it is
/// alpha or less, else exact.
pub open spec fn node_flag(score: int, alpha: int, beta: int) -> TtFlag {
    if score >= beta {
        TtFlag::LowerBound
    } else if score > alpha {
        TtFlag::Exact
    } else {
        TtFlag::UpperBound
    }
}

/// Whether the table `after` is a table in which the result of a node was
/// kept: the score found for the board within the window from `alpha` to
/// `beta`, as the bound that it is, with the depth, and with a legal move
/// exactly where the score is above alpha.
pub open spec fn node_kept(
    after: Seq<Slot>,
    age: u8,
    b: Board,
    score: int,
    depth: int,
    ply: int,
    alpha: int,
    beta: int,
) -> bool {
    exists|held: Seq<Slot>, best: Option<Move>|
        {
            &&& best is Some == (score > alpha)
            &&& best matches Some(m) ==> b.legal(m)
            &&& after == #[trigger] stored(
                held,
                age,
                b.key(),
                score,
                best,
                depth,
                ply,
                node_flag(score, alpha, beta),
            )
        }
}

/// Whether the score `best` is no less than what is known of any legal
/// move of `b` as soon as it is played, at a node `ply` plies from the root
/// that was reached by the positions with the keys `keys`.
pub open spec fn counts_known(b: Board, keys: Seq<u64>, ply: int, best: int) -> bool {
    forall|m: Move|
        #![trigger b.legal(m)]
        b.legal(m) ==> (known_score(b, keys, m, ply) matches Some(s) ==> best >= s)
}

/// Whether a search by a thread with number `id`, at the root depth
/// `root_depth`, goes on within the bounds `limits` while no more than
/// `nodes` nodes are counted: the thread is not the main thread, which
/// alone looks at the bounds; or the root depth is one, which is always
/// searched whole; or there is no time at which the search stops, and
/// `nodes` is below the bound on the nodes.
pub open spec fn runs_on(limits: Limits, id: u32, root_depth: int, nodes: int) -> bool {
    id != 0 || root_depth <= 1 || (limits.hard_ms is None && !reached(nodes, limits.node_bound()))
}

/// The score of an entry of the transposition table where it settles a
/// node that is not on the principal variation: the entry is at least as
/// deep as the node, and its bound is exact, or an upper bound of at most
/// alpha, or a lower bound of at least beta.
pub open spec fn tt_cut(entry: ProbedTtEntry, depth: int, alpha: int, beta: int) -> Option<int> {
    if entry.depth >= depth && match entry.flag {
        Some(TtFlag::UpperBound) => entry.score <= alpha,
        Some(TtFlag::LowerBound) => entry.score >= beta,
        Some(TtFlag::Exact) => true,
        None => false,
    } {
        Some(entry.score as int)
    } else {
        None
    }
}

/// Whether a node at `depth` is cut off because its static evaluation
/// is above beta by more than the margin of `100 * depth + 100`.
pub open spec fn rfp_cut(static_eval: int, depth: int, beta: int) -> bool {
    depth <= RFP_MAX_DEPTH && static_eval - (100 * depth + 100) >= beta
}

/// Whether a node is left before any move is tried: it is off the
/// principal variation, and the transposition table settles it or its
/// corrected evaluation `leaf` is above beta by more than the margin.
pub open spec fn cut_short(
    kind: NodeKind,
    entry: ProbedTtEntry,
    leaf: int,
    depth: int,
    alpha: int,
    beta: int,
) -> bool {
    !kind.pv() && (tt_cut(entry, depth, alpha, beta) is Some || rfp_cut(leaf, depth, beta))
}

/// The depth of the reduced search of a late move: the full depth less
/// the reduction and less one at least, but one at least.
pub open spec fn reduced_depth(new_depth: int, r: int) -> int {
    let less = if new_depth - 1 < new_depth - r {
        new_depth - 1
    } else {
        new_depth - r
    };
    if less < 1 {
        1
    } else {
        less
    }
}

/// Whether the correction history learns from a node: its score is
/// exact, or an upper bound below the static evaluation, or a lower bound
/// above it.
pub open spec fn corrects(flag: TtFlag, best_score: int, static_eval: int) -> bool {
    match flag {
        TtFlag::Exact => true,
        TtFlag::UpperBound => best_score < static_eval,
        TtFlag::LowerBound => best_score > static_eval,
    }
}

/// The bonus of the history tables for a move that cut off a search of `depth`.
pub open spec fn cutoff_bonus(depth: int) -> int {
    let b = 300 * depth - 300;
    if b < 0 {
        0
    } else if b > 2500 {
        2500
    } else {
        b
    }
}

/// The number of moves in which a score says that the game is decided:
/// with a sign for the side that wins; none for another score.
pub open spec fn mate_distance(score: int) -> Option<int> {
    if score >= SCORE_MAX_MATE {
        Some((SCORE_MATE - score + 1) / 2)
    } else if score <= -SCORE_MAX_MATE {
        Some(-((SCORE_MATE + score) / 2))
    } else {
        None
    }
}

/// The score of an entry of the transposition table where it settles a node.
pub fn tt_cutoff(entry: &ProbedTtEntry, depth: i32, alpha: Score, beta: Score) -> (r: Option<
    Score,
>)
    ensures
        match r {
            Some(s) => tt_cut(*entry, depth as int, alpha as int, beta as int) == Some(s as int),
            None => tt_cut(*entry, depth as int, alpha as int, beta as int) is None,
        },
{
    if entry.depth < depth {
        return None;
    }
    let cuts = match entry.flag {
        Some(TtFlag::UpperBound) => entry.score <= alpha,
        Some(TtFlag::LowerBound) => entry.score >= beta,
        Some(TtFlag::Exact) => true,
        None => false,
    };
    if cuts {
        Some(entry.score)
    } else {
        None
    }
}

/// Whether a node is cut off by reverse futility pruning.
pub fn rfp_cutoff(static_eval: Score, depth: i32, beta: Score) -> (r: bool)
    requires
        -SCORE_BOUND <= static_eval <= SCORE_BOUND,
        0 <= depth <= 255,
    ensures
        r == rfp_cut(static_eval as int, depth as int, beta as int),
{
    depth <= RFP_MAX_DEPTH && static_eval - (100 * depth + 100) >= beta
}

/// The depth of the reduced search of a late move.
pub fn lmr_depth(new_depth: i32, r: i32) -> (d: i32)
    requires
        0 <= new_depth <= 255,
        0 <= r <= 255,
    ensures
        d == reduced_depth(new_depth as int, r as int),
        1 <= d,
        new_depth >= 1 ==> d <= new_depth,
{
    let less: i32 = if new_depth - 1 < new_depth - r {
        new_depth - 1
    } else {
        new_depth - r
    };
    if less < 1 {
        1
    } else {
        less
    }
}

/// Whether the correction history learns from a node.
pub fn corrhist_applies(flag: TtFlag, best_score: Score, static_eval: Score) -> (r: bool)
    ensures
        r == corrects(flag, best_score as int, static_eval as int),
{
    match flag {
        TtFlag::Exact => true,
        TtFlag::UpperBound => best_score < static_eval,
        TtFlag::LowerBound => best_score > static_eval,
    }
}

/// The bonus of the history tables for a move that cut off a search of `depth`.
pub fn history_bonus(depth: i32) -> (r: i32)
    requires
        0 <= depth <= 255,
    ensures
        r == cutoff_bonus(depth as int),
        0 <= r <= 2500,
{
    let b: i32 = 300 * depth - 300;
    if b < 0 {
        0
    } else if b > 2500 {
        2500
    } else {
        b
    }
}

/// The number of moves in which a score says that the game is decided.
pub fn mate_in(score: Score) -> (r: Option<i32>)
    requires
        -SCORE_INF < score <= SCORE_INF,
    ensures
        match r {
            Some(n) => mate_distance(score as int) == Some(n as int),
            None => mate_distance(score as int) is None,
        },
{
    if score >= SCORE_MAX_MATE {
        Some((SCORE_MATE - score + 1) / 2)
    } else if score <= -SCORE_MAX_MATE {
        Some(-((SCORE_MATE + score) / 2))
    } else {
        None
    }
}

/// What is known of the score of the position `after` as soon as `mv`,
/// which led to it at `ply`, is played.
pub fn immediate_result(thread: &ThreadData, after: &Position, mv: Move, mover: Player, ply: i32) -> (r:
    Option<Score>)
    requires
        after.wf(),
        0 <= ply <= 255,
    ensures
        match r {
            Some(s) => immediate_score(
                after@,
                mv,
                mover,
                ply as int,
                repetition_draw(thread.key_history@, after@.key(), ply as int),
            ) == Some(s as int),
            None => immediate_score(
                after@,
                mv,
                mover,
                ply as int,
                repetition_draw(thread.key_history@, after@.key(), ply as int),
            ) is None,
        },
        r matches Some(s) ==> -SCORE_MATE <= s <= SCORE_MATE,
{
    if after.has_road(mover) {
        return Some(SCORE_MATE - ply - 1);
    }
    if mv.is_spread() {
        if after.has_road(mover.flip()) {
            return Some(-SCORE_MATE + ply + 1);
        }
        if thread.is_drawn_by_repetition(after.key(), ply) {
            return Some(0);
        }
        None
    } else {
        match after.count_flats() {
            FlatCountOutcome::Undecided => None,
            FlatCountOutcome::Draw => Some(0),
            FlatCountOutcome::Win(player) => {
                let mine = match (player, mover) {
                    (Player::P1, Player::P1) => true,
                    (Player::P2, Player::P2) => true,
                    _ => false,
                };
                if mine {
                    Some(SCORE_MATE - ply - 1)
                } else {
                    Some(-SCORE_MATE + ply + 1)
                }
            },
        }
    }
}

/// The state of a running search: its bounds, and whether it was stopped.
#[derive(Debug)]
pub struct SearchContext {
    limits: Limits,
    stopped: bool,
}

impl SearchContext {
    /// The bounds of the search.
    pub closed spec fn limits(self) -> Limits {
        self.limits
    }

    /// Whether the search was stopped.
    pub closed spec fn stopped(self) -> bool {
        self.stopped
    }

    /// A search with the given bounds that was not stopped.
    pub fn new(limits: Limits) -> (r: SearchContext)
        ensures
            r.limits() == limits,
            !r.stopped(),
    {
        SearchContext { limits, stopped: false }
    }

    /// Whether no new depth is to be begun after `nodes` nodes; if so the
    /// search is stopped from now on.
    pub fn check_stop_soft(&mut self, nodes: usize) -> (r: bool)
        ensures
            final(self).limits() == old(self).limits(),
            final(self).stopped() == (old(self).stopped() || r),
            crate::limit::reached(nodes as int, old(self).limits().node_bound()) ==> r,
            old(self).limits().soft_ms is None ==> r == crate::limit::reached(
                nodes as int,
                old(self).limits().node_bound(),
            ),
    {
        if self.limits.should_stop_soft(nodes) {
            self.stopped = true;
            return true;
        }
        false
    }

    /// Whether the search is to stop after `nodes` nodes; if so it is
    /// stopped from now on.
    pub fn check_stop_hard(&mut self, nodes: usize) -> (r: bool)
        ensures
            final(self).limits() == old(self).limits(),
            final(self).stopped() == (old(self).stopped() || r),
            crate::limit::reached(nodes as int, old(self).limits().node_bound()) ==> r,
            old(self).limits().hard_ms is None ==> r == crate::limit::reached(
                nodes as int,
                old(self).limits().node_bound(),
            ),
    {
        if self.limits.should_stop_hard(nodes) {
            self.stopped = true;
            return true;
        }
        false
    }

    #[must_use]
    pub fn has_stopped(&self) -> (r: bool)
        ensures
            r == self.stopped(),
    {
        self.stopped
    }

    /// The milliseconds that have passed since the search began.
    pub fn elapsed_ms(&self) -> u128 {
        self.limits.elapsed_ms()
    }
}


/// The searcher proper: the transposition table and the table of reductions.
pub struct SearcherImpl {
    tt: TranspositionTable,
    lmr: LmrTable,
}

/// Whether the root move at place `i` is the first whose move is `mv`.
pub open spec fn is_first_with(moves: Seq<RootMove>, mv: Move, i: int) -> bool {
    &&& 0 <= i < moves.len()
    &&& moves[i].first() == mv
    &&& forall|j: int| 0 <= j < i ==> (#[trigger] moves[j]).first() != mv
}

/// The move that was played one ply before a node at `ply`, as the stack
/// of the thread keeps it; none at the root.
pub open spec fn move_before(stack: Seq<StackEntry>, ply: int) -> Option<Move> {
    if ply > 0 {
        stack[ply - 1].mv
    } else {
        None
    }
}

/// Whether `after` is what noting the root move `mv` makes of the root
/// moves `before`. The first root move with that move has, where `counts`
/// holds, the score, the deepest ply seen and the line of the move and
/// after it `child`; else it has the score that no position has, and what
/// it had beside. Every other root move is as it was.
pub open spec fn root_noted(
    before: Seq<RootMove>,
    after: Seq<RootMove>,
    seldepth: int,
    child: Seq<Move>,
    mv: Move,
    score: int,
    counts: bool,
) -> bool {
    &&& after.len() == before.len()
    &&& forall|j: int|
        0 <= j < before.len() && !is_first_with(before, mv, j) ==> #[trigger] after[j] == before[j]
    &&& forall|i: int|
        is_first_with(before, mv, i) ==> ({
            let was = before[i];
            let now = #[trigger] after[i];
            if counts {
                &&& now.score == score
                &&& now.seldepth == seldepth
                &&& pv_moves(now.pv) == line_from(mv, child)
            } else {
                &&& now.score == -SCORE_INF
                &&& now.seldepth == was.seldepth
                &&& pv_moves(now.pv) == pv_moves(was.pv)
            }
        })
}

/// Whether the scores of the root moves are those of a search of the root
/// that gave `score` within the window from `alpha` to `beta`: below beta
/// no root move scores more, and above alpha a root move has that score.
pub open spec fn root_ranked(moves: Seq<RootMove>, score: int, alpha: int, beta: int) -> bool {
    &&& score < beta ==> forall|i: int| 0 <= i < moves.len() ==> (#[trigger] moves[i]).score <= score
    &&& score > alpha ==> exists|i: int| 0 <= i < moves.len() && (#[trigger] moves[i]).score == score
}

/// Whether the scores of the root moves that begin with one of the moves
/// `handed` are those of a search that has tried these moves and found
/// `best`: none of them scores more, and above alpha one has that score.
#[verifier::opaque]
pub closed spec fn roots_scored(moves: Seq<RootMove>, handed: Seq<Move>, best: int, alpha: int) -> bool {
    &&& forall|i: int|
        0 <= i < moves.len() && handed.contains((#[trigger] moves[i]).first()) ==> moves[i].score
            <= best
    &&& best > alpha ==> exists|i: int|
        0 <= i < moves.len() && handed.contains((#[trigger] moves[i]).first()) && moves[i].score
            == best
}

/// Before a move is tried the scores of the root moves are as they should be.
proof fn lemma_roots_unscored(moves: Seq<RootMove>, handed: Seq<Move>, alpha: int)
    requires
        handed.len() == 0,
        alpha >= -SCORE_INF,
    ensures
        roots_scored(moves, handed, -SCORE_INF as int, alpha),
{
    reveal(roots_scored);
}

/// Once every legal move was tried the scores of the root moves are
/// those of the search, or the search was cut off.
proof fn lemma_roots_ranked(
    moves: Seq<RootMove>,
    handed: Seq<Move>,
    b: Board,
    all: bool,
    best: int,
    alpha: int,
    beta: int,
)
    requires
        roots_scored(moves, handed, best, alpha),
        forall|i: int| 0 <= i < moves.len() ==> b.legal((#[trigger] moves[i]).first()),
        all ==> forall|m: Move| #![trigger b.legal(m)] b.legal(m) ==> handed.contains(m),
        !all ==> best >= beta,
    ensures
        root_ranked(moves, best, alpha, beta),
{
    reveal(roots_scored);
    if best < beta {
        assert forall|i: int| 0 <= i < moves.len() implies (#[trigger] moves[i]).score <= best by {
            assert(b.legal(moves[i].first()));
        }
    }
}

/// The scores of the root moves stay as they should be when one more
/// move is tried and noted, and so do the best score and the lower end
/// of the window.
proof fn lemma_root_scored(
    before: Seq<RootMove>,
    after: Seq<RootMove>,
    handed: Seq<Move>,
    mv: Move,
    seldepth: int,
    child: Seq<Move>,
    score: int,
    was_best: int,
    best: int,
    was_lower: int,
    lower: int,
    alpha: int,
)
    requires
        one_each(before),
        exists|i: int| 0 <= i < before.len() && (#[trigger] before[i]).first() == mv,
        forall|i: int| 0 <= i < before.len() ==> (#[trigger] after[i]).first() == before[i].first(),
        root_noted(
            before,
            after,
            seldepth,
            child,
            mv,
            score,
            handed.len() == 0 || score > was_lower,
        ),
        !handed.contains(mv),
        roots_scored(before, handed, was_best, alpha),
        alpha >= -SCORE_INF,
        was_best >= -SCORE_INF,
        was_lower >= alpha,
        was_best > alpha ==> was_best == was_lower,
        was_best <= alpha ==> was_lower == alpha,
        handed.len() == 0 ==> was_best == -SCORE_INF,
        best == (if score > was_best {
            score
        } else {
            was_best
        }),
        lower == (if score > was_lower {
            score
        } else {
            was_lower
        }),
    ensures
        roots_scored(after, handed.push(mv), best, alpha),
        lower >= alpha,
        best > alpha ==> best == lower,
        best <= alpha ==> lower == alpha,
{
    reveal(roots_scored);
    reveal(one_each);
    let at = choose|i: int| 0 <= i < before.len() && (#[trigger] before[i]).first() == mv;
    let more = handed.push(mv);
    assert(is_first_with(before, mv, at)) by {
        assert forall|j: int| 0 <= j < at implies (#[trigger] before[j]).first() != mv by {
            assert(before[j].first() != before[at].first());
        }
    }
    assert forall|i: int| 0 <= i < before.len() && i != at implies #[trigger] after[i]
        == before[i] && before[i].first() != mv by {
        if i < at {
            assert(before[i].first() != before[at].first());
        } else {
            assert(before[at].first() != before[i].first());
        }
        assert(!is_first_with(before, mv, i));
    }
    assert(more[handed.len() as int] == mv);
    assert(more.contains(mv));
    assert forall|m: Move| handed.contains(m) implies more.contains(m) by {
        let k = choose|k: int| 0 <= k < handed.len() && handed[k] == m;
        assert(more[k] == m);
    }
    assert forall|m: Move| more.contains(m) && m != mv implies handed.contains(m) by {
        let k = choose|k: int| 0 <= k < more.len() && more[k] == m;
        assert(handed[k] == m);
    }
    assert forall|i: int|
        0 <= i < after.len() && more.contains((#[trigger] after[i]).first()) implies after[i].score
        <= best by {
        if i != at {
            assert(after[i] == before[i]);
            assert(handed.contains(before[i].first()));
        }
    }
    if best > alpha {
        if score > was_lower || handed.len() == 0 {
            assert(after[at].score == best && more.contains(after[at].first()));
        } else {
            let w = choose|i: int|
                0 <= i < before.len() && handed.contains((#[trigger] before[i]).first())
                    && before[i].score == was_best;
            assert(w != at);
            assert(after[w] == before[w]);
            assert(after[w].score == best && more.contains(after[w].first()));
        }
    }
}

/// What a search leaves as it is in the data of the thread: who it is,
/// how deep it is to go, the keys of the way to the node, and which the
/// root moves are.
pub open spec fn steady(a: ThreadData, b: ThreadData) -> bool {
    &&& b.wf()
    &&& b.id == a.id
    &&& b.root_depth == a.root_depth
    &&& b.max_depth == a.max_depth
    &&& b.key_history@ == a.key_history@
    &&& b.root_moves@.len() == a.root_moves@.len()
    &&& forall|i: int|
        0 <= i < a.root_moves@.len() ==> (#[trigger] b.root_moves@[i]).first()
            == a.root_moves@[i].first()
}

/// The larger of a depth and zero.
pub open spec fn plies_left(depth: int) -> int {
    if depth > 0 {
        depth
    } else {
        0
    }
}

impl SearcherImpl {
    /// The transposition table.
    pub closed spec fn tt(self) -> TranspositionTable {
        self.tt
    }

    /// The table of reductions.
    pub closed spec fn lmr(self) -> LmrTable {
        self.lmr
    }

    /// Both tables are whole.
    pub open spec fn wf(self) -> bool {
        self.tt().wf() && self.lmr().wf()
    }

    /// What a search leaves as it is in the searcher: the table of
    /// reductions, and the size and the age of the transposition table.
    pub open spec fn settled(self, later: SearcherImpl) -> bool {
        &&& later.wf()
        &&& later.lmr() == self.lmr()
        &&& later.tt()@.len() == self.tt()@.len()
        &&& later.tt().age() == self.tt().age()
    }

    /// A searcher with an empty transposition table of the default size.
    pub fn new(lmr: LmrTable) -> (r: SearcherImpl)
        requires
            lmr.wf(),
        ensures
            r.wf(),
            r.lmr() == lmr,
            r.tt()@.len() == TranspositionTable::slots_for(crate::ttable::DEFAULT_TT_SIZE_MIB),
            forall|i: int| 0 <= i < r.tt()@.len() ==> (#[trigger] r.tt()@[i]).flag is None,
    {
        SearcherImpl { tt: TranspositionTable::new(crate::ttable::DEFAULT_TT_SIZE_MIB), lmr }
    }

    /// Begins a new search: what the transposition table holds is old
    /// from now on, and gives way to what the new search finds.
    pub fn new_search(&mut self)
        requires
            old(self).wf(),
        ensures
            final(self).wf(),
            final(self).lmr() == old(self).lmr(),
            final(self).tt()@ == old(self).tt()@,
            final(self).tt().age() == crate::ttable::next_age(old(self).tt().age()),
    {
        self.tt.age_up();
    }

    /// Empties the transposition table.
    pub fn reset(&mut self)
        ensures
            final(self).lmr() == old(self).lmr(),
            final(self).tt()@.len() == old(self).tt()@.len(),
            forall|i: int|
                0 <= i < final(self).tt()@.len() ==> (#[trigger] final(self).tt()@[i]).flag is None,
    {
        self.tt.clear();
    }

    /// Makes the transposition table an empty table of `size_mib` MiB.
    pub fn set_tt_size(&mut self, size_mib: usize)
        ensures
            final(self).lmr() == old(self).lmr(),
            final(self).tt().wf(),
            final(self).tt()@.len() == TranspositionTable::slots_for(size_mib),
            forall|i: int|
                0 <= i < final(self).tt()@.len() ==> (#[trigger] final(self).tt()@[i]).flag is None,
    {
        self.tt.resize(size_mib);
    }

    /// Keeps a result for the position with `key` in the transposition table.
    pub fn store(
        &mut self,
        key: u64,
        score: Score,
        best_move: Option<Move>,
        depth: i32,
        ply: i32,
        flag: TtFlag,
    )
        requires
            old(self).wf(),
            0 <= ply <= 255,
            -SCORE_BOUND <= score <= SCORE_BOUND,
        ensures
            old(self).settled(*final(self)),
            final(self).tt()@ == crate::ttable::stored(
                old(self).tt()@,
                old(self).tt().age(),
                key,
                score as int,
                best_move,
                depth as int,
                ply as int,
                flag,
            ),
    {
        self.tt.store(key, score, best_move, depth, ply, flag);
    }

    /// How full the transposition table is, in thousandths.
    pub fn hashfull(&self) -> (r: usize)
        requires
            self.wf(),
        ensures
            r == crate::ttable::used_slots(
                self.tt()@,
                self.tt().age(),
                crate::ttable::SAMPLE_SLOTS as nat,
            ),
            r <= 1000,
    {
        self.tt.estimate_full_permille()
    }

    /// Keeps what the search of the root move `mv` found, where `child` is
    /// the line that the search found after the move. Where `counts`
    /// holds, the move was the first tried at this depth or raised alpha:
    /// its score, the deepest ply seen and its line are kept. Else its
    /// score becomes the score that no position has, which says that the
    /// move was not searched anew. The other root moves stay as they are.
    pub fn note_root(
        thread: &mut ThreadData,
        child: &PvList,
        mv: Move,
        score: Score,
        counts: bool,
    )
        requires
            old(thread).wf(),
        ensures
            steady(*old(thread), *final(thread)),
            *final(thread) == (ThreadData { root_moves: final(thread).root_moves, ..*old(thread) }),
            root_noted(
                old(thread).root_moves@,
                final(thread).root_moves@,
                old(thread).seldepth as int,
                pv_moves(*child),
                mv,
                score as int,
                counts,
            ),
    {
        match thread.find_root_move(mv) {
            Some(i) => {
                let ghost before = thread.root_moves@;
                if counts {
                    let mut pv = pv_new();
                    update_pv(&mut pv, mv, child);
                    proof {
                        assert(line_from(mv, pv_moves(*child))[0] == mv);
                    }
                    let seldepth = thread.seldepth;
                    thread.root_moves[i] = RootMove { score, seldepth, pv };
                } else {
                    let pv = pv_clone(&thread.root_moves[i].pv);
                    let seldepth = thread.root_moves[i].seldepth;
                    thread.root_moves[i] = RootMove { score: -SCORE_INF, seldepth, pv };
                }
                proof {
                    assert forall|j: int| 0 <= j < before.len() implies (
                    #[trigger] thread.root_moves@[j]).first() == before[j].first() by {}
                }
            },
            None => {},
        }
    }

    /// Keeps what the search of `mv` at a node `ply` plies from the root
    /// found. At the root the root move is noted; `counts` says that the
    /// move was the first tried or raised alpha. On the principal
    /// variation, where the move raised alpha, the line of the node becomes
    /// the move and after it the line of the node below. All else stays as
    /// it is.
    fn note_move(
        thread: &mut ThreadData,
        pvs: &mut Vec<PvList>,
        kind: NodeKind,
        ply: i32,
        mv: Move,
        counts: bool,
        raised: bool,
        score: Score,
    )
        requires
            old(thread).wf(),
            old(pvs)@.len() == 257,
            0 <= ply < 255,
        ensures
            steady(*old(thread), *final(thread)),
            final(pvs)@.len() == 257,
            *final(thread) == (ThreadData { root_moves: final(thread).root_moves, ..*old(thread) }),
            kind.root() ==> root_noted(
                old(thread).root_moves@,
                final(thread).root_moves@,
                old(thread).seldepth as int,
                pv_moves(old(pvs)@[ply + 1]),
                mv,
                score as int,
                counts,
            ),
            !kind.root() ==> final(thread).root_moves == old(thread).root_moves,
            raised && kind.pv() ==> pv_moves(final(pvs)@[ply as int]) == line_from(
                mv,
                pv_moves(old(pvs)@[ply + 1]),
            ) && forall|k: int|
                0 <= k < 257 && k != ply ==> #[trigger] final(pvs)@[k] == old(pvs)@[k],
            !(raised && kind.pv()) ==> final(pvs)@ == old(pvs)@,
    {
        if kind.is_root() {
            SearcherImpl::note_root(thread, &pvs[(ply + 1) as usize], mv, score, counts);
        }
        if raised && kind.is_pv() {
            let mut pv = pv_new();
            update_pv(&mut pv, mv, &pvs[(ply + 1) as usize]);
            pvs[ply as usize] = pv;
        }
    }

    /// Learns from the move `mv` that cut off the search of `pos`, `depth`
    /// plies deep, at `ply`. The move and, after it, each of the moves
    /// `tried` before it go into the history tables of the side to move,
    /// alone and after the move played one ply before: the move with the
    /// bonus of the depth, the others with the bonus taken off. The move
    /// becomes the first killer of the ply, and what was the first the
    /// second, unless the move is the first already. All else stays as it is.
    fn on_cutoff(
        thread: &mut ThreadData,
        pos: &Position,
        ply: i32,
        mv: Move,
        depth: i32,
        tried: &Vec<Move>,
    )
        requires
            old(thread).wf(),
            0 <= ply < 255,
            0 <= depth <= 255,
            mv.valid(),
            forall|i: int| 0 <= i < tried@.len() ==> (#[trigger] tried@[i]).valid(),
        ensures
            steady(*old(thread), *final(thread)),
            *final(thread) == (ThreadData {
                history: final(thread).history,
                killers: final(thread).killers,
                ..*old(thread)
            }),
            ({
                let prev = move_before(old(thread).stack@, ply as int);
                let bonus = cutoff_bonus(depth as int);
                &&& final(thread).history.hist() == hist_penalised(
                    hist_bumped(old(thread).history.hist(), pos@.stm, mv, bonus),
                    pos@.stm,
                    tried@,
                    bonus,
                    tried@.len(),
                )
                &&& final(thread).history.conthist() == conthist_penalised(
                    conthist_bumped(old(thread).history.conthist(), pos@.stm, mv, prev, bonus),
                    pos@.stm,
                    tried@,
                    prev,
                    bonus,
                    tried@.len(),
                )
            }),
            final(thread).killers@.len() == 255,
            forall|k: int|
                0 <= k < 255 && k != ply ==> #[trigger] final(thread).killers@[k] == old(thread).killers@[k],
            final(thread).killers@[ply as int].first() == Some(mv),
            final(thread).killers@[ply as int].second() == (if old(thread).killers@[ply as int].first()
                == Some(mv) {
                old(thread).killers@[ply as int].second()
            } else {
                old(thread).killers@[ply as int].first()
            }),
    {
        let prev: Option<Move> = if ply > 0 {
            thread.stack[(ply - 1) as usize].mv
        } else {
            None
        };
        let bonus = history_bonus(depth);
        let ghost stm = pos@.stm;
        thread.history.update(pos, mv, prev, bonus);
        let ghost first_hist = thread.history.hist();
        let ghost first_conthist = thread.history.conthist();
        let mut i: usize = 0;
        while i < tried.len()
            invariant
                i <= tried@.len(),
                stm == pos@.stm,
                steady(*old(thread), *thread),
                *thread == (ThreadData { history: thread.history, ..*old(thread) }),
                thread.history.hist() == hist_penalised(
                    first_hist,
                    stm,
                    tried@,
                    bonus as int,
                    i as nat,
                ),
                thread.history.conthist() == conthist_penalised(
                    first_conthist,
                    stm,
                    tried@,
                    prev,
                    bonus as int,
                    i as nat,
                ),
                prev matches Some(p) ==> p.valid(),
                0 <= bonus <= 2500,
                forall|k: int| 0 <= k < tried@.len() ==> (#[trigger] tried@[k]).valid(),
            decreases tried@.len() - i,
        {
            thread.history.update(pos, tried[i], prev, -bonus);
            i = i + 1;
        }
        let mut killers: KillerTable = thread.killers[ply as usize];
        killers.push(mv);
        thread.killers[ply as usize] = killers;
    }
}


impl SearcherImpl {
    /// The evaluation of `pos` with its correction.
    fn corrected_eval(thread: &ThreadData, pos: &Position) -> (r: Score)
        requires
            thread.wf(),
            pos.wf(),
        ensures
            r == corrected(pos@, thread.corrhist),
            -SCORE_BOUND <= r <= SCORE_BOUND,
    {
        let raw = static_eval(pos);
        let correction = thread.corrhist.correction(pos);
        raw + correction
    }

    /// The score of `pos` after `mv`, the move with number `move_count`
    /// at a node of the given kind and depth, seen from the side that moves.
    ///
    /// The move is kept as the move of the ply. Where the score is known
    /// as soon as the move is played, by a road, by the count of flats or by
    /// repetition, it is that score, and nothing is searched. Else the
    /// position after the move is searched one ply less deep, a late move
    /// less deep still and anew if it then raises alpha, with a window of
    /// one point off the principal variation; the score is the score found
    /// with its sign changed: 0 where the search was stopped, and at depth
    /// one the corrected evaluation of the position after the move, where
    /// nothing but the count of nodes changes beside.
    #[verifier::rlimit(30)]
    fn search_move(
        &mut self,
        ctx: &mut SearchContext,
        thread: &mut ThreadData,
        pvs: &mut Vec<PvList>,
        pos: &Position,
        mv: Move,
        depth: i32,
        ply: i32,
        alpha: Score,
        beta: Score,
        kind: NodeKind,
        move_count: usize,
    ) -> (r: Score)
        requires
            old(self).wf(),
            old(thread).wf(),
            old(pvs)@.len() == 257,
            pos.wf(),
            pos@.legal(mv),
            1 <= depth <= 255,
            0 <= ply,
            ply + depth <= 255,
            pos@.ply + depth <= 65535,
            -SCORE_BOUND <= alpha < beta <= SCORE_BOUND,
            move_count >= 1,
        ensures
            old(self).settled(*final(self)),
            steady(*old(thread), *final(thread)),
            final(pvs)@.len() == 257,
            final(ctx).limits() == old(ctx).limits(),
            old(ctx).stopped() ==> final(ctx).stopped(),
            -SCORE_BOUND <= r <= SCORE_BOUND,
            final(thread).stack@[ply as int] == (StackEntry { mv: Some(mv) }),
            forall|k: int|
                0 <= k < ply ==> #[trigger] final(thread).stack@[k] == old(thread).stack@[k],
            final(thread).root_moves@ == old(thread).root_moves@,
            final(thread).nodes >= old(thread).nodes,
            !old(ctx).stopped() && runs_on(
                old(ctx).limits(),
                old(thread).id,
                old(thread).root_depth as int,
                final(thread).nodes as int,
            ) ==> !final(ctx).stopped(),
            depth == 1 ==> final(self).tt() == old(self).tt() && final(pvs)@ == old(pvs)@
                && *final(thread) == (ThreadData {
                nodes: final(thread).nodes,
                key_history: final(thread).key_history,
                stack: final(thread).stack,
                ..*old(thread)
            }),
            ({
                let known = known_score(pos@, old(thread).key_history@, mv, ply as int);
                &&& known matches Some(s) ==> r == s && final(ctx).stopped() == old(ctx).stopped()
                    && final(self).tt() == old(self).tt() && final(pvs)@ == old(pvs)@
                    && *final(thread) == (ThreadData {
                    key_history: final(thread).key_history,
                    stack: final(thread).stack,
                    ..*old(thread)
                })
                &&& known is None && final(ctx).stopped() ==> r == 0
                &&& known is None && !final(ctx).stopped() && depth == 1 ==> r == -corrected(
                    pos@.play(mv),
                    old(thread).corrhist,
                )
            }),
        decreases depth, 0int,
    {
        let ghost keys = thread.key_history@;
        let new_pos = thread.apply_move(ply, pos, mv);
        let ghost entered = *thread;
        let score: Score = match immediate_result(thread, &new_pos, mv, pos.stm(), ply) {
            Some(s) => s,
            None => {
                let new_depth: i32 = depth - 1;
                let mut score: Score = 0;
                let late: bool = if kind.is_root() {
                    move_count >= 7
                } else {
                    move_count >= 5
                };
                if depth >= 2 && late {
                    let r = self.lmr.get(depth, move_count);
                    let reduced = lmr_depth(new_depth, r);
                    score = -self.search(
                        ctx,
                        thread,
                        pvs,
                        &new_pos,
                        reduced,
                        ply + 1,
                        -alpha - 1,
                        -alpha,
                        NodeKind::NonPv,
                    );
                    if score > alpha && reduced < new_depth {
                        score = -self.search(
                            ctx,
                            thread,
                            pvs,
                            &new_pos,
                            new_depth,
                            ply + 1,
                            -alpha - 1,
                            -alpha,
                            NodeKind::NonPv,
                        );
                    }
                } else if !kind.is_pv() || move_count > 1 {
                    score = -self.search(
                        ctx,
                        thread,
                        pvs,
                        &new_pos,
                        new_depth,
                        ply + 1,
                        -alpha - 1,
                        -alpha,
                        NodeKind::NonPv,
                    );
                }
                if kind.is_pv() && (move_count == 1 || score > alpha) {
                    score = -self.search(
                        ctx,
                        thread,
                        pvs,
                        &new_pos,
                        new_depth,
                        ply + 1,
                        -beta,
                        -alpha,
                        NodeKind::Pv,
                    );
                }
                score
            },
        };
        proof {
            assert(thread.key_history@ == keys.push(pos@.key()));
            assert(keys.push(pos@.key()).drop_last() =~= keys);
            assert(steady(entered, *thread));
        }
        thread.pop_move();
        score
    }

    /// The score of `pos` for the side to move, searched `depth` plies
    /// deep within the window from `alpha` to `beta`, at a node `ply` plies
    /// from the root.
    ///
    /// A search that is stopped gives 0, and one that was stopped before
    /// the call changes nothing. Only the bounds stop a search: it is not
    /// stopped where they let it run on. At depth zero the score is the
    /// evaluation with its correction. Off the principal variation the
    /// score is that of the transposition table where the table settles
    /// the node, and else the corrected evaluation where that is above
    /// beta by more than the margin of reverse futility pruning. In these
    /// three cases nothing but the count of nodes changes.
    ///
    /// Else the moves are tried. The score is then beta or more, or it
    /// takes every legal move into account: it is no less than what is
    /// known of a move as soon as it is played, by a road, by the count of
    /// flats or by repetition. At depth one it is no less than the score
    /// of any move, and is the score of a legal move, or the score that no
    /// position has where no move reached it. The score goes into the
    /// transposition table with the bound that it is for the window, and
    /// with a legal move exactly where it is above alpha. At the root, the
    /// root moves being the legal moves, no root move scores more than the
    /// score found, unless that is beta or more, and one has that score
    /// where it is above alpha.
    #[allow(clippy::too_many_arguments)]
    #[verifier::rlimit(50)]
    pub fn search(
        &mut self,
        ctx: &mut SearchContext,
        thread: &mut ThreadData,
        pvs: &mut Vec<PvList>,
        pos: &Position,
        depth: i32,
        ply: i32,
        alpha: Score,
        beta: Score,
        kind: NodeKind,
    ) -> (r: Score)
        requires
            old(self).wf(),
            old(thread).wf(),
            old(pvs)@.len() == 257,
            pos.wf(),
            depth <= 255,
            0 <= ply,
            ply + plies_left(depth as int) <= 255,
            pos@.ply + plies_left(depth as int) <= 65535,
            -SCORE_BOUND <= alpha < beta <= SCORE_BOUND,
        ensures
            old(self).settled(*final(self)),
            steady(*old(thread), *final(thread)),
            final(pvs)@.len() == 257,
            final(ctx).limits() == old(ctx).limits(),
            old(ctx).stopped() ==> final(ctx).stopped(),
            -SCORE_BOUND <= r <= SCORE_BOUND,
            final(ctx).stopped() ==> r == 0,
            old(ctx).stopped() ==> *final(thread) == *old(thread) && final(self).tt() == old(self).tt() && final(pvs)@ == old(pvs)@,
            forall|k: int|
                0 <= k < ply ==> #[trigger] final(thread).stack@[k] == old(thread).stack@[k],
            !kind.root() ==> final(thread).root_moves@ == old(thread).root_moves@,
            final(thread).nodes >= old(thread).nodes,
            !old(ctx).stopped() && runs_on(
                old(ctx).limits(),
                old(thread).id,
                old(thread).root_depth as int,
                final(thread).nodes as int,
            ) ==> !final(ctx).stopped(),
            depth <= 0 || cut_short(
                kind,
                probed(old(self).tt()@, pos@.key(), ply as int),
                corrected(pos@, old(thread).corrhist),
                depth as int,
                alpha as int,
                beta as int,
            ) ==> final(self).tt() == old(self).tt() && final(pvs)@ == old(pvs)@ && *final(thread)
                == (ThreadData { nodes: final(thread).nodes, ..*old(thread) }),
            !final(ctx).stopped() ==> ({
                let leaf = corrected(pos@, old(thread).corrhist);
                let entry = probed(old(self).tt()@, pos@.key(), ply as int);
                &&& depth <= 0 ==> r == leaf
                &&& depth > 0 && !kind.pv() ==> match tt_cut(
                    entry,
                    depth as int,
                    alpha as int,
                    beta as int,
                ) {
                    Some(s) => r == s,
                    None => rfp_cut(leaf, depth as int, beta as int) ==> r == leaf,
                }
                &&& depth > 0 && !cut_short(
                    kind,
                    entry,
                    leaf,
                    depth as int,
                    alpha as int,
                    beta as int,
                ) ==> r >= beta || forall|m: Move|
                    #![trigger pos@.legal(m)]
                    pos@.legal(m) ==> move_counted(
                        pos@,
                        old(thread).key_history@,
                        old(thread).corrhist,
                        depth as int,
                        ply as int,
                        m,
                        r as int,
                    )
                &&& depth > 0 && kind.root() && alpha >= -SCORE_INF && roots_of(
                    old(thread).root_moves@,
                    pos@,
                ) ==> root_ranked(final(thread).root_moves@, r as int, alpha as int, beta as int)
                &&& depth > 0 && alpha >= -SCORE_INF && !cut_short(
                    kind,
                    entry,
                    leaf,
                    depth as int,
                    alpha as int,
                    beta as int,
                ) ==> node_kept(
                    final(self).tt()@,
                    old(self).tt().age(),
                    pos@,
                    r as int,
                    depth as int,
                    ply as int,
                    alpha as int,
                    beta as int,
                )
                &&& depth == 1 && !cut_short(
                    kind,
                    entry,
                    leaf,
                    depth as int,
                    alpha as int,
                    beta as int,
                ) ==> r == -SCORE_INF || exists|m: Move|
                    pos@.legal(m) && r == #[trigger] shallow_score(
                        pos@,
                        old(thread).key_history@,
                        old(thread).corrhist,
                        m,
                        ply as int,
                    )
            }),
        decreases plies_left(depth as int), 1int,
    {
        if ctx.has_stopped() {
            return 0;
        }
        if !kind.is_root() && thread.is_main_thread() && thread.root_depth > 1
            && ctx.check_stop_hard(thread.nodes) {
            return 0;
        }
        thread.inc_nodes();
        if depth <= 0 {
            return SearcherImpl::corrected_eval(thread, pos);
        }
        if kind.is_pv() {
            thread.update_seldepth(ply);
        }
        let (_tt_hit, tt_entry) = self.tt.probe(pos.key(), ply);
        if !kind.is_pv() {
            match tt_cutoff(&tt_entry, depth, alpha, beta) {
                Some(s) => {
                    return s;
                },
                None => {},
            }
        }
        let static_eval = SearcherImpl::corrected_eval(thread, pos);
        if !kind.is_pv() && rfp_cutoff(static_eval, depth, beta) {
            return static_eval;
        }
        let killers: KillerTable = thread.killers[ply as usize];
        let prev: Option<Move> = if ply > 0 {
            thread.stack[(ply - 1) as usize].mv
        } else {
            None
        };
        let mut picker = Movepicker::new(pos, tt_entry.mv, killers, prev);
        let mut tried: Vec<Move> = Vec::new();
        let mut best_score: Score = -SCORE_INF;
        let mut best_move: Option<Move> = None;
        let mut tt_flag = TtFlag::UpperBound;
        let mut move_count: usize = 0;
        let mut lower: Score = alpha;
        proof {
            if alpha >= -SCORE_INF {
                lemma_roots_unscored(thread.root_moves@, picker.yielded(), alpha as int);
            }
        }
        loop
            invariant_except_break
                -SCORE_BOUND <= lower < beta <= SCORE_BOUND,
                alpha >= -SCORE_INF ==> best_score < beta,
                tt_flag == (if lower > alpha {
                    TtFlag::Exact
                } else {
                    TtFlag::UpperBound
                }),
            invariant
                lower >= alpha,
                best_move is Some == (lower > alpha),
                best_move matches Some(m) ==> pos@.legal(m),
                !cut_short(
                    kind,
                    probed(old(self).tt()@, pos@.key(), ply as int),
                    corrected(pos@, old(thread).corrhist),
                    depth as int,
                    alpha as int,
                    beta as int,
                ),
                1 <= depth <= 255,
                0 <= ply,
                ply + depth <= 255,
                pos@.ply + depth <= 65535,
                pos.wf(),
                picker.wf(),
                picker.pos() == *pos,
                old(self).settled(*self),
                steady(*old(thread), *thread),
                forall|k: int| 0 <= k < ply ==> #[trigger] thread.stack@[k] == old(thread).stack@[k],
                pvs@.len() == 257,
                ctx.limits() == old(ctx).limits(),
                !ctx.stopped(),
                !old(ctx).stopped(),
                -SCORE_INF <= best_score <= SCORE_BOUND,
                -SCORE_BOUND <= static_eval <= SCORE_BOUND,
                best_move matches Some(m) ==> m.valid(),
                forall|i: int| 0 <= i < tried@.len() ==> (#[trigger] tried@[i]).valid(),
                thread.nodes >= old(thread).nodes,
                !kind.root() ==> thread.root_moves@ == old(thread).root_moves@,
                (move_count == 0) == (picker.yielded().len() == 0),
                move_count == 0 ==> best_score == -SCORE_INF,
                alpha >= -SCORE_INF ==> lower >= alpha && (best_score > alpha ==> best_score
                    == lower) && (best_score <= alpha ==> lower == alpha),
                kind.root() && alpha >= -SCORE_INF && roots_of(old(thread).root_moves@, pos@)
                    ==> roots_scored(
                    thread.root_moves@,
                    picker.yielded(),
                    best_score as int,
                    alpha as int,
                ),
                depth == 1 ==> thread.corrhist == old(thread).corrhist,
                depth == 1 ==> best_score == -SCORE_INF || exists|m: Move|
                    pos@.legal(m) && best_score == #[trigger] shallow_score(
                        pos@,
                        old(thread).key_history@,
                        old(thread).corrhist,
                        m,
                        ply as int,
                    ),
                forall|m: Move| #[trigger]
                    picker.yielded().contains(m) ==> move_counted(
                        pos@,
                        old(thread).key_history@,
                        old(thread).corrhist,
                        depth as int,
                        ply as int,
                        m,
                        best_score as int,
                    ),
            ensures
                old(self).settled(*self),
                steady(*old(thread), *thread),
                forall|k: int| 0 <= k < ply ==> #[trigger] thread.stack@[k] == old(thread).stack@[k],
                pvs@.len() == 257,
                ctx.limits() == old(ctx).limits(),
                !ctx.stopped(),
                -SCORE_INF <= best_score <= SCORE_BOUND,
                1 <= depth <= 255,
                0 <= ply <= 254,
                thread.nodes >= old(thread).nodes,
                alpha >= -SCORE_INF ==> tt_flag == node_flag(
                    best_score as int,
                    alpha as int,
                    beta as int,
                ) && best_move is Some == (best_score > alpha),
                best_move matches Some(m) ==> pos@.legal(m),
                kind.root() && alpha >= -SCORE_INF && roots_of(old(thread).root_moves@, pos@)
                    ==> root_ranked(
                    thread.root_moves@,
                    best_score as int,
                    alpha as int,
                    beta as int,
                ),
                best_score >= beta || forall|m: Move|
                    #![trigger pos@.legal(m)]
                    pos@.legal(m) ==> move_counted(
                        pos@,
                        old(thread).key_history@,
                        old(thread).corrhist,
                        depth as int,
                        ply as int,
                        m,
                        best_score as int,
                    ),
            decreases picker.stages_left(), picker.moves_left(),
        {
            let ghost handed = picker.yielded();
            let mv = match picker.next(&thread.history) {
                Some(mv) => mv,
                None => {
                    proof {
                        assert forall|m: Move| #![trigger pos@.legal(m)] pos@.legal(m) implies handed.contains(
                            m,
                        ) by {}
                        if kind.root() && alpha >= -SCORE_INF && roots_of(
                            old(thread).root_moves@,
                            pos@,
                        ) {
                            lemma_roots_steady(*old(thread), *thread, pos@);
                            lemma_roots_ranked(
                                thread.root_moves@,
                                handed,
                                pos@,
                                true,
                                best_score as int,
                                alpha as int,
                                beta as int,
                            );
                        }
                    }
                    break ;
                },
            };
            let ghost was_lower = lower;
            let ghost roots_before = thread.root_moves@;
            move_count = move_count.saturating_add(1);
            if kind.is_pv() {
                pvs[(ply + 1) as usize] = pv_new();
            }
            let score = self.search_move(
                ctx,
                thread,
                pvs,
                pos,
                mv,
                depth,
                ply,
                lower,
                beta,
                kind,
                move_count,
            );
            if ctx.has_stopped() {
                return 0;
            }
            let ghost entered = *thread;
            let ghost lines = *pvs;
            SearcherImpl::note_move(
                thread,
                pvs,
                kind,
                ply,
                mv,
                move_count == 1 || score > lower,
                score > lower,
                score,
            );
            let ghost noted = thread.root_moves@;
            let ghost was_best = best_score;
            if score > best_score {
                best_score = score;
                proof {
                    if depth == 1 {
                        assert(pos@.legal(mv) && best_score == shallow_score(
                            pos@,
                            old(thread).key_history@,
                            old(thread).corrhist,
                            mv,
                            ply as int,
                        ));
                    }
                }
            }
            proof {
                lemma_counted(
                    pos@,
                    old(thread).key_history@,
                    old(thread).corrhist,
                    depth as int,
                    ply as int,
                    handed,
                    mv,
                    was_best as int,
                    best_score as int,
                    score as int,
                );
            }
            if score > lower {
                lower = score;
                best_move = Some(mv);
                tt_flag = TtFlag::Exact;
            }
            proof {
                if kind.root() && alpha >= -SCORE_INF && roots_of(old(thread).root_moves@, pos@) {
                    lemma_roots_steady(*old(thread), entered, pos@);
                    assert(pos@.legal(mv));
                    assert(roots_before == entered.root_moves@);
                    lemma_root_scored(
                        roots_before,
                        noted,
                        handed,
                        mv,
                        entered.seldepth as int,
                        pv_moves(lines@[ply + 1]),
                        score as int,
                        was_best as int,
                        best_score as int,
                        was_lower as int,
                        lower as int,
                        alpha as int,
                    );
                }
            }
            if score >= beta {
                tt_flag = TtFlag::LowerBound;
                SearcherImpl::on_cutoff(thread, pos, ply, mv, depth, &tried);
                proof {
                    if kind.root() && alpha >= -SCORE_INF && roots_of(
                        old(thread).root_moves@,
                        pos@,
                    ) {
                        lemma_roots_steady(*old(thread), *thread, pos@);
                        lemma_roots_ranked(
                            thread.root_moves@,
                            picker.yielded(),
                            pos@,
                            false,
                            best_score as int,
                            alpha as int,
                            beta as int,
                        );
                    }
                }
                break ;
            }
            tried.push(mv);
        }
        if corrhist_applies(tt_flag, best_score, static_eval) {
            thread.corrhist.update(pos, depth, best_score, static_eval);
        }
        let ghost held = self.tt@;
        self.tt.store(pos.key(), best_score, best_move, depth, ply, tt_flag);
        proof {
            if alpha >= -SCORE_INF {
                assert(self.tt@ == stored(
                    held,
                    old(self).tt().age(),
                    pos@.key(),
                    best_score as int,
                    best_move,
                    depth as int,
                    ply as int,
                    node_flag(best_score as int, alpha as int, beta as int),
                ));
            }
        }
        best_score
    }
}


/// Whether the scores of the root moves do not rise from one to the next.
pub open spec fn sorted_by_score(moves: Seq<RootMove>) -> bool {
    forall|i: int, j: int|
        0 <= i < j < moves.len() ==> (#[trigger] moves[i]).score >= (#[trigger] moves[j]).score
}

/// Puts the root moves in the order of their scores, the highest first.
pub fn sort_root_moves(moves: &mut Vec<RootMove>)
    ensures
        final(moves)@.to_multiset() == old(moves)@.to_multiset(),
        final(moves)@.len() == old(moves)@.len(),
        sorted_by_score(final(moves)@),
{
    broadcast use vstd::multiset::group_multiset_axioms;

    let n: usize = moves.len();
    let mut i: usize = 1;
    while i < n
        invariant
            1 <= i,
            n == moves@.len(),
            n == old(moves)@.len(),
            moves@.to_multiset() == old(moves)@.to_multiset(),
            forall|a: int, b: int|
                0 <= a < b < i && b < n ==> (#[trigger] moves@[a]).score >= (
                #[trigger] moves@[b]).score,
        decreases n - i,
    {
        let ghost before = moves@;
        let item = moves.remove(i);
        let ghost without = moves@;
        let mut j: usize = 0;
        while j < i && moves[j].score >= item.score
            invariant
                j <= i,
                i < n,
                moves@ == without,
                without.len() == n - 1,
                forall|a: int| 0 <= a < j ==> (#[trigger] without[a]).score >= item.score,
            decreases i - j,
        {
            j = j + 1;
        }
        moves.insert(j, item);
        proof {
            assert(without == before.remove(i as int));
            assert(moves@ == without.insert(j as int, item));
            vstd::seq_lib::to_multiset_remove(before, i as int);
            vstd::seq_lib::to_multiset_insert(without, j as int, item);
            vstd::seq_lib::to_multiset_contains(before, item);
            assert(before.contains(item)) by {
                assert(before[i as int] == item);
            }
            assert(moves@.to_multiset() =~= before.to_multiset());
            assert forall|a: int, b: int| 0 <= a < b < i + 1 && b < n implies (
            #[trigger] moves@[a]).score >= (#[trigger] moves@[b]).score by {
                let x = if a < j {
                    a
                } else {
                    a - 1
                };
                let y = if b < j {
                    b
                } else {
                    b - 1
                };
                if a != j {
                    assert(moves@[a] == without[x]);
                    assert(without[x] == before[x]);
                }
                if b != j {
                    assert(moves@[b] == without[y]);
                    assert(without[y] == before[y]);
                }
                if a != j && b != j {
                    assert(before[x].score >= before[y].score);
                }
            }
        }
        i = i + 1;
    }
}


/// What the search reports after a depth.
#[derive(Debug)]
pub struct SearchInfo {
    pub depth: i32,
    pub seldepth: i32,
    pub time_ms: u128,
    pub nodes: usize,
    pub score: Score,
    pub hashfull: usize,
    pub pv: Vec<Move>,
}

/// How one depth of the search ended: whether the search is over, and
/// what there is to report if it goes on.
#[derive(Debug)]
pub struct Step {
    pub info: Option<SearchInfo>,
    pub done: bool,
}

/// The moves of a line up to the first that is no move of the board.
pub open spec fn valid_prefix(moves: Seq<Move>) -> Seq<Move>
    decreases moves.len(),
{
    if moves.len() == 0 || !moves[0].valid() {
        Seq::empty()
    } else {
        seq![moves[0]] + valid_prefix(moves.skip(1))
    }
}

/// Whether every move of a line is a move of the board.
pub open spec fn all_valid(moves: Seq<Move>) -> bool {
    forall|k: int| 0 <= k < moves.len() ==> (#[trigger] moves[k]).valid()
}

/// Whether no two of the root moves begin with the same move.
#[verifier::opaque]
pub open spec fn one_each(moves: Seq<RootMove>) -> bool {
    forall|i: int, j: int|
        0 <= i < j < moves.len() ==> (#[trigger] moves[i]).first() != (#[trigger] moves[j]).first()
}

/// Whether the root moves are the legal moves of the board, each once.
pub open spec fn roots_of(moves: Seq<RootMove>, b: Board) -> bool {
    &&& forall|i: int| 0 <= i < moves.len() ==> (#[trigger] moves[i]).wf() && b.legal(moves[i].first())
    &&& forall|m: Move|
        #![trigger b.legal(m)]
        b.legal(m) ==> exists|i: int| 0 <= i < moves.len() && (#[trigger] moves[i]).first() == m
    &&& one_each(moves)
}

/// Root moves in another order begin with different moves as before.
proof fn lemma_one_each_permuted(a: Seq<RootMove>, b: Seq<RootMove>)
    requires
        a.to_multiset() == b.to_multiset(),
        one_each(a),
    ensures
        one_each(b),
{
    reveal(one_each);
    assert(a.no_duplicates()) by {
        assert forall|i: int, j: int| 0 <= i < a.len() && 0 <= j < a.len() && i != j implies a[i]
            != a[j] by {
            if i < j {
                assert(a[i].first() != a[j].first());
            } else {
                assert(a[j].first() != a[i].first());
            }
        }
    }
    a.lemma_multiset_has_no_duplicates();
    b.lemma_multiset_has_no_duplicates_conv();
    assert forall|i: int, j: int| 0 <= i < j < b.len() implies (#[trigger] b[i]).first() != (
    #[trigger] b[j]).first() by {
        vstd::seq_lib::to_multiset_contains(b, b[i]);
        vstd::seq_lib::to_multiset_contains(a, b[i]);
        vstd::seq_lib::to_multiset_contains(b, b[j]);
        vstd::seq_lib::to_multiset_contains(a, b[j]);
        assert(b.contains(b[i]));
        assert(b.contains(b[j]));
        let k = choose|k: int| 0 <= k < a.len() && a[k] == b[i];
        let l = choose|l: int| 0 <= l < a.len() && a[l] == b[j];
        assert(b[i] != b[j]);
        if k < l {
            assert(a[k].first() != a[l].first());
        } else {
            assert(a[l].first() != a[k].first());
        }
    }
}

/// Root moves that begin as others do begin with different moves as they do.
proof fn lemma_one_each_steady(a: Seq<RootMove>, b: Seq<RootMove>)
    requires
        a.len() == b.len(),
        forall|i: int| 0 <= i < a.len() ==> (#[trigger] b[i]).first() == a[i].first(),
        one_each(a),
    ensures
        one_each(b),
{
    reveal(one_each);
    assert forall|i: int, j: int| 0 <= i < j < b.len() implies (#[trigger] b[i]).first() != (
    #[trigger] b[j]).first() by {
        assert(a[i].first() != a[j].first());
    }
}

/// Root moves in another order are root moves of the same board.
proof fn lemma_roots_permuted(a: Seq<RootMove>, b: Seq<RootMove>, board: Board)
    requires
        a.to_multiset() == b.to_multiset(),
        roots_of(a, board),
    ensures
        roots_of(b, board),
{
    assert forall|i: int| 0 <= i < b.len() implies (#[trigger] b[i]).wf() && board.legal(
        b[i].first(),
    ) by {
        vstd::seq_lib::to_multiset_contains(b, b[i]);
        vstd::seq_lib::to_multiset_contains(a, b[i]);
        assert(b.contains(b[i]));
        let k = choose|k: int| 0 <= k < a.len() && a[k] == b[i];
        assert(a[k].wf());
    }
    assert forall|m: Move| #![trigger board.legal(m)] board.legal(m) implies exists|i: int|
        0 <= i < b.len() && (#[trigger] b[i]).first() == m by {
        let k = choose|k: int| 0 <= k < a.len() && (#[trigger] a[k]).first() == m;
        vstd::seq_lib::to_multiset_contains(a, a[k]);
        vstd::seq_lib::to_multiset_contains(b, a[k]);
        assert(a.contains(a[k]));
        let i = choose|i: int| 0 <= i < b.len() && b[i] == a[k];
        assert(b[i].first() == m);
    }
    lemma_one_each_permuted(a, b);
}

/// Root moves with the same first moves are root moves of the same board.
proof fn lemma_roots_steady(a: ThreadData, b: ThreadData, board: Board)
    requires
        steady(a, b),
        roots_of(a.root_moves@, board),
    ensures
        roots_of(b.root_moves@, board),
{
    assert forall|m: Move| #![trigger board.legal(m)] board.legal(m) implies exists|i: int|
        0 <= i < b.root_moves@.len() && (#[trigger] b.root_moves@[i]).first() == m by {
        let k = choose|k: int|
            0 <= k < a.root_moves@.len() && (#[trigger] a.root_moves@[k]).first() == m;
        assert(b.root_moves@[k].first() == m);
    }
    assert forall|i: int| 0 <= i < b.root_moves@.len() implies (#[trigger] b.root_moves@[i]).wf()
        && board.legal(b.root_moves@[i].first()) by {
        assert(a.root_moves@[i].wf());
    }
    lemma_one_each_steady(a.root_moves@, b.root_moves@);
}

/// Whether `info` is the report of a search at `depth` with the given
/// root moves, count of nodes and transposition table: the score, the
/// deepest ply and the line of the first root move, the line as far as its
/// moves are moves of the board, the count of nodes, and how full the
/// table is. The time is not part of it.
pub open spec fn report_of(
    info: SearchInfo,
    depth: int,
    root_moves: Seq<RootMove>,
    nodes: int,
    table: TranspositionTable,
) -> bool {
    &&& info.depth == depth
    &&& info.nodes == nodes
    &&& info.score == root_moves[0].score
    &&& info.seldepth == root_moves[0].seldepth
    &&& info.pv@ == valid_prefix(pv_moves(root_moves[0].pv))
    &&& info.hashfull == crate::ttable::used_slots(
        table@,
        table.age(),
        crate::ttable::SAMPLE_SLOTS as nat,
    )
}

/// After a search of the root and the sorting of the root moves the first
/// root move scores no less than what is known of any legal move as soon
/// as it is played.
proof fn lemma_best_first(
    searched: Seq<RootMove>,
    sorted: Seq<RootMove>,
    b: Board,
    keys: Seq<u64>,
    corrhist: CorrectionHistory,
    depth: int,
    found: int,
)
    requires
        searched.to_multiset() == sorted.to_multiset(),
        sorted_by_score(sorted),
        sorted.len() > 0,
        root_ranked(searched, found, -SCORE_INF as int, SCORE_INF as int),
        found >= SCORE_INF || forall|m: Move|
            #![trigger b.legal(m)]
            b.legal(m) ==> move_counted(b, keys, corrhist, depth, 0, m, found),
    ensures
        counts_known(b, keys, 0, sorted[0].score as int),
{
    assert forall|m: Move| #![trigger b.legal(m)] b.legal(m) implies (known_score(b, keys, m, 0)
        matches Some(s) ==> sorted[0].score >= s) by {
        if let Some(s) = known_score(b, keys, m, 0) {
            assert(-SCORE_INF < s < SCORE_INF);
            assert(found >= s);
            let i = choose|i: int| 0 <= i < searched.len() && (#[trigger] searched[i]).score == found;
            vstd::seq_lib::to_multiset_contains(searched, searched[i]);
            vstd::seq_lib::to_multiset_contains(sorted, searched[i]);
            assert(searched.contains(searched[i]));
            let j = choose|j: int| 0 <= j < sorted.len() && sorted[j] == searched[i];
            if j > 0 {
                assert(sorted[0].score >= sorted[j].score);
            }
        }
    }
}

impl SearcherImpl {
    /// What there is to report of the search so far.
    #[verifier::rlimit(30)]
    pub fn make_info(&self, thread: &ThreadData, depth: i32, time_ms: u128) -> (r: SearchInfo)
        requires
            self.wf(),
            thread.root_moves@.len() > 0,
        ensures
            r.depth == depth,
            r.time_ms == time_ms,
            r.nodes == thread.nodes,
            r.score == thread.root_moves@[0].score,
            r.seldepth == thread.root_moves@[0].seldepth,
            r.pv@ == valid_prefix(pv_moves(thread.root_moves@[0].pv)),
            all_valid(r.pv@),
            r.hashfull == crate::ttable::used_slots(
                self.tt()@,
                self.tt().age(),
                crate::ttable::SAMPLE_SLOTS as nat,
            ),
            r.hashfull <= 1000,
            report_of(r, depth as int, thread.root_moves@, thread.nodes as int, self.tt()),
    {
        let root_move = thread.pv_move();
        let n: usize = pv_len(&root_move.pv);
        let ghost all = pv_moves(root_move.pv);
        let mut pv: Vec<Move> = Vec::new();
        let mut i: usize = 0;
        proof {
            assert(all.skip(0) =~= all);
            assert(pv@ + valid_prefix(all) =~= valid_prefix(all));
        }
        while i < n
            invariant
                i <= n,
                n == all.len(),
                all == pv_moves(root_move.pv),
                pv@ == all.take(i as int),
                all_valid(pv@),
                valid_prefix(all) == pv@ + valid_prefix(all.skip(i as int)),
            ensures
                valid_prefix(all) == pv@,
                all_valid(pv@),
            decreases n - i,
        {
            let mv = pv_get(&root_move.pv, i);
            proof {
                let rest = all.skip(i as int);
                assert(rest[0] == mv);
                assert(rest.skip(1) =~= all.skip(i + 1));
            }
            if !mv.is_valid() {
                proof {
                    assert(pv@ + Seq::<Move>::empty() =~= pv@);
                }
                break ;
            }
            pv.push(mv);
            proof {
                assert(all.take(i + 1) =~= all.take(i as int).push(all[i as int]));
                let rest = all.skip(i as int);
                assert(all.take(i as int) + (seq![mv] + valid_prefix(rest.skip(1))) =~= all.take(
                    i as int,
                ).push(mv) + valid_prefix(rest.skip(1)));
            }
            i = i + 1;
        }
        proof {
            if i == n {
                assert(all.skip(n as int).len() == 0);
                assert(pv@ + Seq::<Move>::empty() =~= pv@);
            }
        }
        SearchInfo {
            depth,
            seldepth: root_move.seldepth,
            time_ms,
            nodes: thread.nodes,
            score: root_move.score,
            hashfull: self.tt.estimate_full_permille(),
            pv,
        }
    }

    /// Makes the legal moves of `root_pos` the root moves, and sets the
    /// count of nodes to zero and the depth to one.
    pub fn prepare(thread: &mut ThreadData, root_pos: &Position)
        requires
            old(thread).wf(),
            root_pos.wf(),
        ensures
            final(thread).wf(),
            roots_of(final(thread).root_moves@, root_pos@),
            final(thread).nodes == 0,
            final(thread).root_depth == 1,
            final(thread).key_history == old(thread).key_history,
            final(thread).max_depth == old(thread).max_depth,
            final(thread).id == old(thread).id,
    {
        let mut moves: Vec<Move> = Vec::new();
        generate_moves(&mut moves, root_pos);
        thread.root_moves.clear();
        let mut i: usize = 0;
        while i < moves.len()
            invariant
                i <= moves@.len(),
                thread.wf(),
                thread.root_moves@.len() == i,
                forall|k: int|
                    0 <= k < i ==> (#[trigger] thread.root_moves@[k]).first() == moves@[k],
                thread.key_history == old(thread).key_history,
                thread.max_depth == old(thread).max_depth,
                thread.id == old(thread).id,
            decreases moves@.len() - i,
        {
            let root_move = RootMove::new(moves[i]);
            proof {
                assert(seq![moves@[i as int]][0] == moves@[i as int]);
            }
            thread.root_moves.push(root_move);
            i = i + 1;
        }
        thread.nodes = 0;
        thread.root_depth = 1;
        proof {
            let b = root_pos@;
            assert forall|k: int| 0 <= k < thread.root_moves@.len() implies (
            #[trigger] thread.root_moves@[k]).wf() && b.legal(thread.root_moves@[k].first()) by {
                assert(moves@.contains(moves@[k]));
            }
            assert forall|m: Move| #![trigger b.legal(m)] b.legal(m) implies exists|k: int|
                0 <= k < thread.root_moves@.len() && (#[trigger] thread.root_moves@[k]).first()
                    == m by {
                assert(moves@.contains(m));
                let k = choose|k: int| 0 <= k < moves@.len() && moves@[k] == m;
                assert(thread.root_moves@[k].first() == m);
            }
            assert(one_each(thread.root_moves@)) by {
                reveal(one_each);
                assert forall|i: int, j: int| 0 <= i < j < thread.root_moves@.len() implies (
                #[trigger] thread.root_moves@[i]).first() != (
                #[trigger] thread.root_moves@[j]).first() by {
                    assert(moves@[i] != moves@[j]);
                }
            }
        }
    }

    /// Searches the root to the depth of the thread and puts the root
    /// moves in the order of their scores. Where the search was not stopped
    /// the first root move then scores no less than what is known of any
    /// legal move as soon as it is played: a win in one move is found.
    #[verifier::rlimit(30)]
    fn search_root(
        &mut self,
        ctx: &mut SearchContext,
        thread: &mut ThreadData,
        pvs: &mut Vec<PvList>,
        root_pos: &Position,
    )
        requires
            old(self).wf(),
            old(thread).wf(),
            old(pvs)@.len() == 257,
            root_pos.wf(),
            root_pos@.ply + 255 <= 65535,
            1 <= old(thread).root_depth <= 255,
            roots_of(old(thread).root_moves@, root_pos@),
        ensures
            old(self).settled(*final(self)),
            final(thread).wf(),
            final(pvs)@.len() == 257,
            final(ctx).limits() == old(ctx).limits(),
            old(ctx).stopped() ==> final(ctx).stopped(),
            roots_of(final(thread).root_moves@, root_pos@),
            sorted_by_score(final(thread).root_moves@),
            final(thread).key_history@ == old(thread).key_history@,
            final(thread).max_depth == old(thread).max_depth,
            final(thread).root_depth == old(thread).root_depth,
            final(thread).id == old(thread).id,
            final(thread).root_moves@.len() == old(thread).root_moves@.len(),
            final(thread).nodes >= old(thread).nodes,
            !old(ctx).stopped() && runs_on(
                old(ctx).limits(),
                old(thread).id,
                old(thread).root_depth as int,
                final(thread).nodes as int,
            ) ==> !final(ctx).stopped(),
            !final(ctx).stopped() && final(thread).root_moves@.len() > 0 ==> counts_known(
                root_pos@,
                old(thread).key_history@,
                0,
                final(thread).root_moves@[0].score as int,
            ),
    {
        thread.reset_seldepth();
        let ghost entered = *thread;
        let depth: i32 = thread.root_depth;
        let found = self.search(
            ctx,
            thread,
            pvs,
            root_pos,
            depth,
            0,
            -SCORE_INF,
            SCORE_INF,
            NodeKind::Root,
        );
        proof {
            lemma_roots_steady(entered, *thread, root_pos@);
        }
        let ghost searched = thread.root_moves@;
        sort_root_moves(&mut thread.root_moves);
        proof {
            lemma_roots_permuted(searched, thread.root_moves@, root_pos@);
            if !ctx.stopped() && searched.len() > 0 {
                lemma_best_first(
                    searched,
                    thread.root_moves@,
                    root_pos@,
                    entered.key_history@,
                    entered.corrhist,
                    depth as int,
                    found as int,
                );
            }
        }
    }

    /// Searches the root one depth deeper than before and puts the root
    /// moves in the order of their scores. The search is over when the
    /// depth asked for is reached, when the search was stopped, or when,
    /// on the main thread, the bounds say that no new depth is to be
    /// begun, which stops the search; else there is a report, on the main
    /// thread, and the next depth is one more.
    ///
    /// Only the bounds stop a search: it is not stopped where the bounds
    /// let the depth go on, and on the main thread it is stopped where
    /// another depth was to follow and the bound on the nodes is reached.
    /// Where the search was not stopped, the first root move scores no
    /// less than what is known of any legal move as soon as it is played.
    #[verifier::rlimit(30)]
    pub fn iterate(
        &mut self,
        ctx: &mut SearchContext,
        thread: &mut ThreadData,
        pvs: &mut Vec<PvList>,
        root_pos: &Position,
    ) -> (r: Step)
        requires
            old(self).wf(),
            old(thread).wf(),
            old(pvs)@.len() == 257,
            root_pos.wf(),
            root_pos@.ply + 255 <= 65535,
            1 <= old(thread).root_depth <= 255,
            old(thread).max_depth <= 255,
            roots_of(old(thread).root_moves@, root_pos@),
        ensures
            old(self).settled(*final(self)),
            final(thread).wf(),
            final(pvs)@.len() == 257,
            final(ctx).limits() == old(ctx).limits(),
            roots_of(final(thread).root_moves@, root_pos@),
            sorted_by_score(final(thread).root_moves@),
            final(thread).key_history@ == old(thread).key_history@,
            final(thread).max_depth == old(thread).max_depth,
            final(thread).id == old(thread).id,
            r.done == (old(thread).root_depth >= old(thread).max_depth || final(ctx).stopped()),
            old(ctx).stopped() ==> final(ctx).stopped(),
            r.done ==> final(thread).root_depth == old(thread).root_depth && r.info is None,
            !r.done ==> final(thread).root_depth == old(thread).root_depth + 1,
            r.info matches Some(info) ==> info.depth == old(thread).root_depth && info.pv@.len() >= 1
                && info.pv@[0] == final(thread).root_moves@[0].first() && root_pos@.legal(
                info.pv@[0],
            ) && all_valid(info.pv@),
            !r.done && old(thread).id == 0 && final(thread).root_moves@.len() > 0 ==> r.info is Some,
            old(thread).id != 0 || final(thread).root_moves@.len() == 0 ==> r.info is None,
            final(thread).root_moves@.len() == old(thread).root_moves@.len(),
            final(thread).nodes >= old(thread).nodes,
            !old(ctx).stopped() && deepens(
                old(ctx).limits(),
                old(thread).id,
                old(thread).root_depth as int,
                old(thread).max_depth as int,
                final(thread).nodes as int,
            ) ==> !final(ctx).stopped(),
            old(thread).id == 0 && old(thread).root_depth < old(thread).max_depth && reached(
                final(thread).nodes as int,
                old(ctx).limits().node_bound(),
            ) ==> final(ctx).stopped(),
            !final(ctx).stopped() && final(thread).root_moves@.len() > 0 ==> counts_known(
                root_pos@,
                old(thread).key_history@,
                0,
                final(thread).root_moves@[0].score as int,
            ),
            r.info matches Some(info) ==> report_of(
                info,
                old(thread).root_depth as int,
                final(thread).root_moves@,
                final(thread).nodes as int,
                final(self).tt(),
            ),
    {
        self.search_root(ctx, thread, pvs, root_pos);
        if thread.root_depth >= thread.max_depth || ctx.has_stopped() {
            return Step { info: None, done: true };
        }
        let mut info: Option<SearchInfo> = None;
        if thread.is_main_thread() {
            if ctx.check_stop_soft(thread.nodes) {
                return Step { info: None, done: true };
            }
            if thread.root_moves.len() > 0 {
                let time_ms = ctx.elapsed_ms();
                let made = self.make_info(thread, thread.root_depth, time_ms);
                assert(thread.root_moves@[0].wf());
                assert(made.pv@[0] == thread.root_moves@[0].first());
                info = Some(made);
            }
        }
        thread.root_depth = thread.root_depth + 1;
        Step { info, done: false }
    }

    /// Searches `root_pos` depth after depth until the search is over,
    /// and gives the reports: one for each depth that another followed,
    /// and one at the end, all on the main thread only. So the main thread
    /// gives one report for each depth that it began, in their order, where
    /// the position has a legal move. A search that nothing stops reaches
    /// the depth asked for, and only the bounds stop a search.
    #[verifier::rlimit(30)]
    pub fn run_search(
        &mut self,
        ctx: &mut SearchContext,
        thread: &mut ThreadData,
        pvs: &mut Vec<PvList>,
        root_pos: &Position,
    ) -> (r: Vec<SearchInfo>)
        requires
            old(self).wf(),
            old(thread).wf(),
            old(pvs)@.len() == 257,
            root_pos.wf(),
            root_pos@.ply + 255 <= 65535,
            old(thread).max_depth <= 255,
        ensures
            old(self).settled(*final(self)),
            final(thread).wf(),
            final(pvs)@.len() == 257,
            final(ctx).limits() == old(ctx).limits(),
            roots_of(final(thread).root_moves@, root_pos@),
            sorted_by_score(final(thread).root_moves@),
            final(thread).key_history@ == old(thread).key_history@,
            final(thread).id == old(thread).id,
            final(thread).max_depth == old(thread).max_depth,
            1 <= final(thread).root_depth <= 255,
            forall|k: int|
                0 <= k < r@.len() ==> (#[trigger] r@[k]).pv@.len() >= 1 && root_pos@.legal(
                    r@[k].pv@[0],
                ) && all_valid(r@[k].pv@),
            final(thread).id == 0 && final(thread).root_moves@.len() > 0 ==> r@.len() >= 1
                && r@.last().pv@[0] == final(thread).root_moves@[0].first(),
            r@.len() == (if final(thread).id == 0 && final(thread).root_moves@.len() > 0 {
                final(thread).root_depth as int
            } else {
                0
            }),
            forall|k: int| 0 <= k < r@.len() ==> (#[trigger] r@[k]).depth == k + 1,
            !final(ctx).stopped() ==> final(thread).root_depth == last_depth(
                old(thread).max_depth as int,
            ),
            old(ctx).stopped() ==> final(ctx).stopped(),
            !old(ctx).stopped() && (old(thread).id != 0 || unbounded_at(
                old(ctx).limits(),
                final(thread).nodes as int,
            )) ==> !final(ctx).stopped(),
            !final(ctx).stopped() && final(thread).root_moves@.len() > 0 ==> counts_known(
                root_pos@,
                old(thread).key_history@,
                0,
                final(thread).root_moves@[0].score as int,
            ),
            r@.len() > 0 ==> report_of(
                r@.last(),
                final(thread).root_depth as int,
                final(thread).root_moves@,
                final(thread).nodes as int,
                final(self).tt(),
            ),
    {
        SearcherImpl::prepare(thread, root_pos);
        let mut reports: Vec<SearchInfo> = Vec::new();
        loop
            invariant_except_break
                old(ctx).stopped() == ctx.stopped(),
                thread.root_depth <= last_depth(old(thread).max_depth as int),
            invariant
                old(ctx).stopped() ==> ctx.stopped(),
                thread.root_moves@.len() > 0 || reports@.len() == 0,
                thread.id != 0 ==> reports@.len() == 0,
                thread.id == 0 && thread.root_moves@.len() > 0 ==> reports@.len() == thread.root_depth
                    - 1,
                forall|k: int| 0 <= k < reports@.len() ==> (#[trigger] reports@[k]).depth == k + 1,
                old(self).settled(*self),
                thread.wf(),
                pvs@.len() == 257,
                ctx.limits() == old(ctx).limits(),
                root_pos.wf(),
                root_pos@.ply + 255 <= 65535,
                1 <= thread.root_depth <= 255,
                thread.max_depth <= 255,
                roots_of(thread.root_moves@, root_pos@),
                thread.key_history@ == old(thread).key_history@,
                thread.id == old(thread).id,
                thread.max_depth == old(thread).max_depth,
                forall|k: int|
                    0 <= k < reports@.len() ==> (#[trigger] reports@[k]).pv@.len() >= 1
                        && root_pos@.legal(reports@[k].pv@[0]) && all_valid(reports@[k].pv@),
            ensures
                old(self).settled(*self),
                thread.wf(),
                pvs@.len() == 257,
                ctx.limits() == old(ctx).limits(),
                roots_of(thread.root_moves@, root_pos@),
                sorted_by_score(thread.root_moves@),
                thread.key_history@ == old(thread).key_history@,
                thread.id == old(thread).id,
                thread.max_depth == old(thread).max_depth,
                1 <= thread.root_depth <= 255,
                forall|k: int|
                    0 <= k < reports@.len() ==> (#[trigger] reports@[k]).pv@.len() >= 1
                        && root_pos@.legal(reports@[k].pv@[0]) && all_valid(reports@[k].pv@),
                !ctx.stopped() ==> thread.root_depth == last_depth(old(thread).max_depth as int),
                !old(ctx).stopped() && (old(thread).id != 0 || unbounded_at(
                    old(ctx).limits(),
                    thread.nodes as int,
                )) ==> !ctx.stopped(),
                !ctx.stopped() && thread.root_moves@.len() > 0 ==> counts_known(
                    root_pos@,
                    old(thread).key_history@,
                    0,
                    thread.root_moves@[0].score as int,
                ),
            decreases 255 - thread.root_depth,
        {
            let step = self.iterate(ctx, thread, pvs, root_pos);
            match step.info {
                Some(info) => {
                    reports.push(info);
                },
                None => {},
            }
            if step.done {
                break ;
            }
        }
        if thread.is_main_thread() && thread.root_moves.len() > 0 {
            let time_ms = ctx.elapsed_ms();
            let last = self.make_info(thread, thread.root_depth, time_ms);
            assert(thread.root_moves@[0].wf());
            assert(last.pv@[0] == thread.root_moves@[0].first());
            reports.push(last);
        }
        reports
    }
}

/// The engine: a searcher with the data of its one thread, and the
/// search that it runs.
pub struct Searcher {
    searcher: SearcherImpl,
    data: ThreadData,
    pvs: Vec<PvList>,
    ctx: SearchContext,
    root: Position,
}

impl Searcher {
    /// The position that is searched.
    pub closed spec fn root(self) -> Position {
        self.root
    }

    /// The root moves of the search, after a depth the best first.
    pub closed spec fn root_moves(self) -> Seq<RootMove> {
        self.data.root_moves@
    }

    /// The transposition table.
    pub closed spec fn table(self) -> TranspositionTable {
        self.searcher.tt
    }

    /// The history tables.
    pub closed spec fn history(self) -> crate::history::History {
        self.data.history
    }

    /// The correction tables.
    pub closed spec fn corrhist(self) -> crate::correction::CorrectionHistory {
        self.data.corrhist
    }

    /// The depth that the next step searches.
    pub closed spec fn depth(self) -> int {
        self.data.root_depth as int
    }

    /// The depth at which the search is over.
    pub closed spec fn max_depth(self) -> int {
        self.data.max_depth as int
    }

    /// The bounds of the search.
    pub closed spec fn limits(self) -> Limits {
        self.ctx.limits()
    }

    /// Whether the search was stopped.
    pub closed spec fn stopped(self) -> bool {
        self.ctx.stopped()
    }

    /// The nodes that the search has counted.
    pub closed spec fn nodes(self) -> int {
        self.data.nodes as int
    }

    /// The keys of the positions by which the position searched was reached.
    pub closed spec fn keys(self) -> Seq<u64> {
        self.data.key_history@
    }

    /// The searcher, the data of its thread and its lines are whole, and
    /// the root moves are the legal moves of the position that is searched.
    pub closed spec fn wf(self) -> bool {
        &&& self.searcher.wf()
        &&& self.data.wf()
        &&& self.pvs@.len() == 257
        &&& self.data.id == 0
        &&& self.root.wf()
        &&& self.root@.ply + 255 <= 65535
        &&& 1 <= self.data.root_depth <= 255
        &&& self.data.max_depth <= 255
        &&& roots_of(self.data.root_moves@, self.root@)
    }

    /// A searcher with empty tables that reduces late moves as `lmr` says.
    pub fn new(lmr: LmrTable) -> (r: Searcher)
        requires
            lmr.wf(),
        ensures
            r.wf(),
    {
        let mut pvs: Vec<PvList> = Vec::new();
        let mut i: usize = 0;
        while i < 257
            invariant
                i <= 257,
                pvs@.len() == i,
            decreases 257 - i,
        {
            pvs.push(pv_new());
            i = i + 1;
        }
        let root = Position::startpos();
        let mut data = ThreadData::new(0);
        SearcherImpl::prepare(&mut data, &root);
        proof {
            Board::lemma_start_wf();
        }
        Searcher {
            searcher: SearcherImpl::new(lmr),
            data,
            pvs,
            ctx: SearchContext::new(Limits::unbounded(crate::limit::instant_now())),
            root,
        }
    }

    /// Makes ready to search `pos`, which was reached by the positions
    /// with the given keys, within the given bounds and to at most
    /// `max_depth`, beginning at `start_time`.
    pub fn begin(
        &mut self,
        pos: &Position,
        key_history: &[u64],
        start_time: std::time::Instant,
        limits: Limits,
        max_depth: i32,
    )
        requires
            old(self).wf(),
            pos.wf(),
            pos@.ply + 255 <= 65535,
        ensures
            final(self).wf(),
            final(self).root() == *pos,
            final(self).depth() == 1,
            final(self).max_depth() == (if max_depth > MAX_PLY {
                MAX_PLY
            } else {
                max_depth
            }),
            final(self).limits() == (Limits { start: start_time, ..limits }),
            final(self).keys() == key_history@,
            !final(self).stopped(),
            final(self).nodes() == 0,
            roots_of(final(self).root_moves(), pos@),
            final(self).table()@ == old(self).table()@,
            final(self).table().age() == crate::ttable::next_age(old(self).table().age()),
    {
        self.data.reset(key_history);
        self.data.max_depth = if max_depth > MAX_PLY {
            MAX_PLY
        } else {
            max_depth
        };
        self.ctx = SearchContext::new(Limits { start: start_time, ..limits });
        self.root = *pos;
        self.searcher.new_search();
        SearcherImpl::prepare(&mut self.data, pos);
    }

    /// Searches one depth deeper, and says whether the search is over and
    /// what there is to report. The search is over when the depth asked
    /// for is reached or the search was stopped. Only the bounds stop it:
    /// it is not stopped where they let the depth go on, and it is stopped
    /// where another depth was to follow and the bound on the nodes is
    /// reached. Where the search was not stopped, the first root move
    /// scores no less than what is known of any legal move as soon as it
    /// is played.
    pub fn step(&mut self) -> (r: Step)
        requires
            old(self).wf(),
        ensures
            final(self).wf(),
            final(self).root() == old(self).root(),
            final(self).max_depth() == old(self).max_depth(),
            final(self).limits() == old(self).limits(),
            roots_of(final(self).root_moves(), old(self).root()@),
            sorted_by_score(final(self).root_moves()),
            r.done == (old(self).depth() >= old(self).max_depth() || final(self).stopped()),
            old(self).stopped() ==> final(self).stopped(),
            final(self).nodes() >= old(self).nodes(),
            !old(self).stopped() && deepens(
                old(self).limits(),
                0,
                old(self).depth(),
                old(self).max_depth(),
                final(self).nodes(),
            ) ==> !final(self).stopped(),
            old(self).depth() < old(self).max_depth() && reached(
                final(self).nodes(),
                old(self).limits().node_bound(),
            ) ==> final(self).stopped(),
            final(self).keys() == old(self).keys(),
            !final(self).stopped() && final(self).root_moves().len() > 0 ==> counts_known(
                old(self).root()@,
                old(self).keys(),
                0,
                final(self).root_moves()[0].score as int,
            ),
            r.info matches Some(info) ==> report_of(
                info,
                old(self).depth(),
                final(self).root_moves(),
                final(self).nodes(),
                final(self).table(),
            ),
            r.done ==> final(self).depth() == old(self).depth() && r.info is None,
            !r.done ==> final(self).depth() == old(self).depth() + 1,
            r.info matches Some(info) ==> info.depth == old(self).depth() && info.pv@.len() >= 1
                && info.pv@[0] == final(self).root_moves()[0].first() && old(self).root()@.legal(
                info.pv@[0],
            ) && all_valid(info.pv@),
            !r.done && final(self).root_moves().len() > 0 ==> r.info is Some,
    {
        self.searcher.iterate(&mut self.ctx, &mut self.data, &mut self.pvs, &self.root)
    }

    /// What there is to report at the end of the search, if the
    /// position searched has a legal move.
    pub fn last_report(&self) -> (r: Option<SearchInfo>)
        requires
            self.wf(),
        ensures
            r.is_some() == (self.root_moves().len() > 0),
            r matches Some(info) ==> info.depth == self.depth() && info.pv@.len() >= 1
                && info.pv@[0] == self.root_moves()[0].first() && self.root()@.legal(info.pv@[0])
                && all_valid(info.pv@),
            r matches Some(info) ==> report_of(
                info,
                self.depth(),
                self.root_moves(),
                self.nodes(),
                self.table(),
            ),
    {
        if self.data.root_moves.len() > 0 {
            let time_ms = self.ctx.elapsed_ms();
            let info = self.searcher.make_info(&self.data, self.data.root_depth, time_ms);
            assert(self.data.root_moves@[0].wf());
            assert(info.pv@[0] == self.data.root_moves@[0].first());
            Some(info)
        } else {
            None
        }
    }

    /// Searches `pos`, which was reached by the positions with the given
    /// keys, within the given bounds and to at most `max_depth`, beginning
    /// at `start_time`; gives the reports of the search, one for each depth
    /// that was begun. After the search the root moves are the legal moves
    /// of `pos`, the best first. A search that nothing stops reaches the
    /// depth asked for, and only the bounds stop a search.
    pub fn start_search(
        &mut self,
        pos: &Position,
        key_history: &[u64],
        start_time: std::time::Instant,
        limits: Limits,
        max_depth: i32,
    ) -> (r: Vec<SearchInfo>)
        requires
            old(self).wf(),
            pos.wf(),
            pos@.ply + 255 <= 65535,
        ensures
            final(self).wf(),
            final(self).root() == *pos,
            roots_of(final(self).root_moves(), pos@),
            sorted_by_score(final(self).root_moves()),
            forall|k: int|
                0 <= k < r@.len() ==> (#[trigger] r@[k]).pv@.len() >= 1 && pos@.legal(r@[k].pv@[0])
                    && all_valid(r@[k].pv@),
            final(self).root_moves().len() > 0 ==> r@.len() >= 1 && r@.last().pv@[0] == final(self).root_moves()[0].first(),
            r@.len() == (if final(self).root_moves().len() > 0 {
                final(self).depth()
            } else {
                0
            }),
            forall|k: int| 0 <= k < r@.len() ==> (#[trigger] r@[k]).depth == k + 1,
            final(self).max_depth() == (if max_depth > MAX_PLY {
                MAX_PLY
            } else {
                max_depth
            }),
            final(self).limits() == (Limits { start: start_time, ..limits }),
            !final(self).stopped() ==> final(self).depth() == last_depth(final(self).max_depth()),
            unbounded_at(limits, final(self).nodes()) ==> !final(self).stopped(),
            final(self).keys() == key_history@,
            !final(self).stopped() && final(self).root_moves().len() > 0 ==> counts_known(
                pos@,
                key_history@,
                0,
                final(self).root_moves()[0].score as int,
            ),
            r@.len() > 0 ==> report_of(
                r@.last(),
                final(self).depth(),
                final(self).root_moves(),
                final(self).nodes(),
                final(self).table(),
            ),
    {
        self.data.reset(key_history);
        self.data.max_depth = if max_depth > MAX_PLY {
            MAX_PLY
        } else {
            max_depth
        };
        self.ctx = SearchContext::new(Limits { start: start_time, ..limits });
        self.root = *pos;
        self.searcher.new_search();
        self.searcher.run_search(&mut self.ctx, &mut self.data, &mut self.pvs, pos)
    }

    /// The move that the last search found best, if the position searched
    /// has a legal move.
    pub fn best_move(&self) -> (r: Option<Move>)
        requires
            self.wf(),
        ensures
            r.is_some() == (self.root_moves().len() > 0),
            r matches Some(m) ==> m == self.root_moves()[0].first() && self.root()@.legal(m),
    {
        if self.data.root_moves.len() > 0 {
            assert(self.data.root_moves@[0].wf());
            Some(pv_get(&self.data.root_moves[0].pv, 0))
        } else {
            None
        }
    }

    /// Forgets what earlier searches found: the transposition table is
    /// emptied, and the history and correction tables are set to zero.
    pub fn reset(&mut self)
        requires
            old(self).wf(),
        ensures
            final(self).wf(),
            final(self).root() == old(self).root(),
            final(self).table()@.len() == old(self).table()@.len(),
            forall|i: int|
                0 <= i < final(self).table()@.len() ==> (#[trigger] final(self).table()@[i]).flag
                    is None,
            forall|i: int|
                0 <= i < final(self).history().hist().len() ==> (#[trigger] final(self).history().hist()[i]).spec_get() == 0,
            forall|i: int|
                0 <= i < final(self).history().conthist().len() ==> (#[trigger] final(self).history().conthist()[i]).spec_get() == 0,
            forall|i: int|
                0 <= i < final(self).corrhist().entries().len() ==> (#[trigger] final(self).corrhist().entries()[i]).spec_get() == 0,
    {
        self.searcher.reset();
        self.data.corrhist.clear();
        self.data.history.clear();
    }

    /// Makes the transposition table an empty table of `size_mib` MiB, of
    /// at least one and at most 16384.
    pub fn set_tt_size(&mut self, size_mib: usize)
        requires
            old(self).wf(),
        ensures
            final(self).wf(),
            final(self).root() == old(self).root(),
            final(self).table()@.len() == TranspositionTable::slots_for(size_mib),
            forall|i: int|
                0 <= i < final(self).table()@.len() ==> (#[trigger] final(self).table()@[i]).flag
                    is None,
            final(self).history() == old(self).history(),
            final(self).corrhist() == old(self).corrhist(),
    {
        self.searcher.set_tt_size(size_mib);
    }
}

} // verus!
