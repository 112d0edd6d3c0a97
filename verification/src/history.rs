//! History tables: how well moves did in earlier searches, by the move
//! alone and by the move that came before it.

use crate::board::Position;
use crate::takmove::Move;
use crate::types::Player;
use vstd::prelude::*;

verus! {

/// The bound of the values of the history tables.
pub const HISTORY_LIMIT: i32 = 16384;

/// The largest bonus that one update of the history tables takes.
pub const HISTORY_MAX_BONUS: i32 = 4096;

/// The number of packed move values.
pub const MOVE_VALUES: usize = 16384;

/// The kinds of move that came before, times the squares: a spread, or a
/// placement of each piece type, from or on each square.
pub const MOVE_KINDS: usize = 144;

/// `a / b`, rounded towards zero.
pub open spec fn trunc_div(a: int, b: int) -> int {
    if a >= 0 {
        a / b
    } else {
        -((-a) / b)
    }
}

/// The size of `x`.
pub open spec fn magnitude(x: int) -> int {
    if x >= 0 {
        x
    } else {
        -x
    }
}

/// A value after a bonus: the bonus is added, and a part of the value in
/// proportion to the size of the bonus is taken off, which keeps the value
/// within the limit.
pub open spec fn gravity(value: int, bonus: int, limit: int) -> int {
    value + bonus - trunc_div(value * magnitude(bonus), limit)
}

/// `x`, but at least `lo` and at most `hi`.
pub open spec fn clamp_to(x: int, lo: int, hi: int) -> int {
    if x < lo {
        lo
    } else if x > hi {
        hi
    } else {
        x
    }
}

/// A value within the limit stays within it, for a bonus of at most a
/// quarter of the limit.
pub proof fn lemma_gravity_bound(v: int, b: int, l: int)
    requires
        l > 0,
        -l <= v <= l,
        -l <= 4 * b <= l,
    ensures
        -l <= gravity(v, b, l) <= l,
{
    let m = magnitude(b);
    let a = magnitude(v);
    let q = (a * m) / l;
    assert(0 <= a * m) by (nonlinear_arith)
        requires
            0 <= a,
            0 <= m,
    ;
    assert(a * m <= a * l) by (nonlinear_arith)
        requires
            0 <= a,
            0 <= m <= l,
    ;
    assert(0 <= q <= a) by (nonlinear_arith)
        requires
            0 <= a * m <= a * l,
            l > 0,
            q == (a * m) / l,
    ;
    assert(q >= a + m - l) by (nonlinear_arith)
        requires
            0 <= a <= l,
            0 <= m <= l,
            l > 0,
            q == (a * m) / l,
    {
        assert((l - a) * (l - m) >= 0);
        assert(a * m >= (a + m - l) * l);
    }
    assert(v * m == if v >= 0 {
        a * m
    } else {
        -(a * m)
    }) by (nonlinear_arith)
        requires
            a == magnitude(v),
    ;
    assert(trunc_div(v * m, l) == if v >= 0 {
        q
    } else {
        -q
    });
}

/// One value of a history table.
#[derive(Copy, Clone, Debug)]
pub struct Entry {
    value: i16,
}

impl Entry {
    /// The value.
    pub closed spec fn spec_get(self) -> int {
        self.value as int
    }

    /// The entry with the given value.
    pub closed spec fn of(v: int) -> Entry {
        Entry { value: v as i16 }
    }

    /// The entry with a value of 16 bits holds that value.
    pub proof fn lemma_of(v: int)
        requires
            -32768 <= v <= 32767,
        ensures
            Entry::of(v).spec_get() == v,
    {
    }

    /// The entry with value zero.
    pub fn zero() -> (r: Entry)
        ensures
            r.spec_get() == 0,
    {
        Entry { value: 0 }
    }

    /// Takes a bonus into the value.
    pub fn update(&mut self, bonus: i32, limit: i32)
        requires
            0 < limit <= 16384,
            -limit <= old(self).spec_get() <= limit,
            -limit <= 4 * bonus <= limit,
        ensures
            final(self).spec_get() == gravity(old(self).spec_get(), bonus as int, limit as int),
            *final(self) == Entry::of(gravity(old(self).spec_get(), bonus as int, limit as int)),
            -limit <= final(self).spec_get() <= limit,
    {
        let value: i32 = self.value as i32;
        let size: i32 = if bonus >= 0 {
            bonus
        } else {
            -bonus
        };
        proof {
            lemma_gravity_bound(value as int, bonus as int, limit as int);
            let a = magnitude(value as int);
            assert(0 <= a * size <= 16384 * 4096) by (nonlinear_arith)
                requires
                    0 <= a <= 16384,
                    0 <= size <= 4096,
            ;
            assert(value * size == if value >= 0 {
                a * size
            } else {
                -(a * size)
            }) by (nonlinear_arith)
                requires
                    a == magnitude(value as int),
            ;
        }
        let part: i32 = if value >= 0 {
            (value * size) / limit
        } else {
            -(((-value) * size) / limit)
        };
        self.value = (value + bonus - part) as i16;
    }

    #[must_use]
    pub fn get(&self) -> (r: i32)
        ensures
            r == self.spec_get(),
    {
        self.value as i32
    }
}

/// The number under which the table of the moves that came before keeps
/// `mv`: its kind times 36, plus its square.
pub open spec fn move_kind(mv: Move) -> int {
    (if mv.spreads() {
        0
    } else {
        1 + mv.kind().index()
    }) * 36 + mv.square_bits()
}

/// The values after the value at place `at` took the bonus, cut to at
/// most 4096 either way.
pub open spec fn bumped(entries: Seq<Entry>, at: int, bonus: int) -> Seq<Entry> {
    entries.update(
        at,
        Entry::of(
            gravity(
                entries[at].spec_get(),
                clamp_to(bonus, -HISTORY_MAX_BONUS as int, HISTORY_MAX_BONUS as int),
                HISTORY_LIMIT as int,
            ),
        ),
    )
}

/// The values by move after the value of `player` for `mv` took the bonus.
pub open spec fn hist_bumped(hist: Seq<Entry>, player: Player, mv: Move, bonus: int) -> Seq<
    Entry,
> {
    bumped(hist, hist_at(player, mv.value() as int), bonus)
}

/// The values by the move before and the move after the value of `player`
/// for `mv` after `prev` took the bonus; the same values where there is no
/// move before.
pub open spec fn conthist_bumped(
    conthist: Seq<Entry>,
    player: Player,
    mv: Move,
    prev: Option<Move>,
    bonus: int,
) -> Seq<Entry> {
    match prev {
        Some(p) => bumped(conthist, conthist_at(player, move_kind(p), mv.value() as int), bonus),
        None => conthist,
    }
}

/// The values by move after the values of `player` for the first `n` of
/// the moves tried took the bonus off, one move after the other.
pub open spec fn hist_penalised(
    hist: Seq<Entry>,
    player: Player,
    tried: Seq<Move>,
    bonus: int,
    n: nat,
) -> Seq<Entry>
    decreases n,
{
    if n == 0 {
        hist
    } else {
        hist_bumped(
            hist_penalised(hist, player, tried, bonus, (n - 1) as nat),
            player,
            tried[n - 1],
            -bonus,
        )
    }
}

/// The values by the move before and the move after the values of
/// `player` for the first `n` of the moves tried, after `prev`, took the
/// bonus off, one move after the other.
pub open spec fn conthist_penalised(
    conthist: Seq<Entry>,
    player: Player,
    tried: Seq<Move>,
    prev: Option<Move>,
    bonus: int,
    n: nat,
) -> Seq<Entry>
    decreases n,
{
    if n == 0 {
        conthist
    } else {
        conthist_bumped(
            conthist_penalised(conthist, player, tried, prev, bonus, (n - 1) as nat),
            player,
            tried[n - 1],
            prev,
            -bonus,
        )
    }
}

/// The history tables of both players.
pub struct History {
    hist: Vec<Entry>,
    conthist: Vec<Entry>,
}

/// The place of the value of `player` for the move with packed value `raw`.
pub open spec fn hist_at(player: Player, raw: int) -> int {
    player.index() * 16384 + raw
}

/// The place of the value of `player` for the move with packed value
/// `raw` after a move of kind `prev`.
pub open spec fn conthist_at(player: Player, prev: int, raw: int) -> int {
    (player.index() * 144 + prev) * 16384 + raw
}

impl History {
    /// The values by move, both players' in a row.
    pub closed spec fn hist(self) -> Seq<Entry> {
        self.hist@
    }

    /// The values by the move before and the move, both players' in a row.
    pub closed spec fn conthist(self) -> Seq<Entry> {
        self.conthist@
    }

    /// The value of `player` for `mv`.
    pub open spec fn butterfly(self, player: Player, mv: Move) -> int {
        self.hist()[hist_at(player, mv.value() as int)].spec_get()
    }

    /// The value of `player` for `mv` after `prev`.
    pub open spec fn countermove(self, player: Player, prev: Move, mv: Move) -> int {
        self.conthist()[conthist_at(player, move_kind(prev), mv.value() as int)].spec_get()
    }

    /// Both tables have all their places, and every value is within the limit.
    pub open spec fn wf(self) -> bool {
        &&& self.hist().len() == 2 * 16384
        &&& self.conthist().len() == 2 * 144 * 16384
        &&& forall|i: int|
            0 <= i < self.hist().len() ==> -HISTORY_LIMIT <= (#[trigger] self.hist()[i]).spec_get()
                <= HISTORY_LIMIT
        &&& forall|i: int|
            0 <= i < self.conthist().len() ==> -HISTORY_LIMIT <= (
            #[trigger] self.conthist()[i]).spec_get() <= HISTORY_LIMIT
    }

    /// What `player`'s tables say of `mv` after `prev`.
    pub open spec fn spec_score(self, player: Player, mv: Move, prev: Option<Move>) -> int {
        self.butterfly(player, mv) + match prev {
            Some(p) => self.countermove(player, p, mv),
            None => 0,
        }
    }

    /// Tables of zeros.
    pub fn new() -> (r: History)
        ensures
            r.wf(),
            forall|i: int| 0 <= i < r.hist().len() ==> (#[trigger] r.hist()[i]).spec_get() == 0,
            forall|i: int|
                0 <= i < r.conthist().len() ==> (#[trigger] r.conthist()[i]).spec_get() == 0,
    {
        History {
            hist: vec![Entry::zero(); 2 * MOVE_VALUES],
            conthist: vec![Entry::zero(); 2 * MOVE_KINDS * MOVE_VALUES],
        }
    }

    /// Sets every value to zero.
    pub fn clear(&mut self)
        ensures
            final(self).wf(),
            forall|i: int|
                0 <= i < final(self).hist().len() ==> (#[trigger] final(self).hist()[i]).spec_get()
                    == 0,
            forall|i: int|
                0 <= i < final(self).conthist().len() ==> (
                #[trigger] final(self).conthist()[i]).spec_get() == 0,
    {
        self.hist = vec![Entry::zero(); 2 * MOVE_VALUES];
        self.conthist = vec![Entry::zero(); 2 * MOVE_KINDS * MOVE_VALUES];
    }

    /// The number under which the table of the moves that came before
    /// keeps `mv`.
    pub fn move_idx(mv: Move) -> (r: usize)
        requires
            mv.valid(),
        ensures
            r == move_kind(mv),
            r < 144,
    {
        let kind: usize = if mv.is_spread() {
            0
        } else {
            1 + mv.pt().idx()
        };
        kind * 36 + mv.sq().idx()
    }

    /// Takes a bonus, cut to at most 4096 either way, into the values of
    /// the side to move for `mv`, alone and after `prev`.
    pub fn update(&mut self, pos: &Position, mv: Move, prev: Option<Move>, bonus: i32)
        requires
            old(self).wf(),
            mv.valid(),
            prev matches Some(p) ==> p.valid(),
        ensures
            final(self).wf(),
            final(self).hist() == hist_bumped(old(self).hist(), pos@.stm, mv, bonus as int),
            final(self).conthist() == conthist_bumped(
                old(self).conthist(),
                pos@.stm,
                mv,
                prev,
                bonus as int,
            ),
            ({
                let b = clamp_to(bonus as int, -HISTORY_MAX_BONUS as int, HISTORY_MAX_BONUS as int);
                let at = hist_at(pos@.stm, mv.value() as int);
                &&& final(self).butterfly(pos@.stm, mv) == gravity(
                    old(self).butterfly(pos@.stm, mv),
                    b,
                    HISTORY_LIMIT as int,
                )
                &&& forall|i: int|
                    0 <= i < 2 * 16384 && i != at ==> #[trigger] final(self).hist()[i] == old(self).hist()[i]
                &&& match prev {
                    Some(p) => {
                        let c = conthist_at(pos@.stm, move_kind(p), mv.value() as int);
                        &&& final(self).countermove(pos@.stm, p, mv) == gravity(
                            old(self).countermove(pos@.stm, p, mv),
                            b,
                            HISTORY_LIMIT as int,
                        )
                        &&& forall|i: int|
                            0 <= i < 2 * 144 * 16384 && i != c ==> #[trigger] final(self).conthist()[i] == old(self).conthist()[i]
                    },
                    None => final(self).conthist() == old(self).conthist(),
                }
            }),
    {
        let b: i32 = if bonus < -HISTORY_MAX_BONUS {
            -HISTORY_MAX_BONUS
        } else if bonus > HISTORY_MAX_BONUS {
            HISTORY_MAX_BONUS
        } else {
            bonus
        };
        let side: usize = pos.stm().idx();
        let at: usize = side * MOVE_VALUES + mv.raw() as usize;
        let mut entry = self.hist[at];
        entry.update(b, HISTORY_LIMIT);
        self.hist[at] = entry;
        match prev {
            Some(p) => {
                let c: usize = (side * MOVE_KINDS + History::move_idx(p)) * MOVE_VALUES
                    + mv.raw() as usize;
                let mut entry = self.conthist[c];
                entry.update(b, HISTORY_LIMIT);
                self.conthist[c] = entry;
            },
            None => {},
        }
    }

    /// What the tables of the side to move say of `mv` after `prev`.
    #[must_use]
    pub fn score(&self, pos: &Position, mv: Move, prev: Option<Move>) -> (r: i32)
        requires
            self.wf(),
            mv.valid(),
            prev matches Some(p) ==> p.valid(),
        ensures
            r == self.spec_score(pos@.stm, mv, prev),
            -2 * HISTORY_LIMIT <= r <= 2 * HISTORY_LIMIT,
    {
        let side: usize = pos.stm().idx();
        let at: usize = side * MOVE_VALUES + mv.raw() as usize;
        let mut res: i32 = self.hist[at].get();
        match prev {
            Some(p) => {
                let c: usize = (side * MOVE_KINDS + History::move_idx(p)) * MOVE_VALUES
                    + mv.raw() as usize;
                res = res + self.conthist[c].get();
            },
            None => {},
        }
        res
    }
}

} // verus!
