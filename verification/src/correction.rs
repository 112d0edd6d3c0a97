//! Correction history: by how much the static evaluation of positions with
//! the same walls, roads or top pieces was off in earlier searches.

use crate::board::Position;
use crate::history::{clamp_to, gravity, trunc_div, Entry};
use crate::keys::{regen_key, KeyKind};
use crate::types::Player;
use vstd::prelude::*;

verus! {

/// The bound of the values of the correction tables.
pub const CORRECTION_LIMIT: i32 = 1024;

/// The largest bonus that one update of the correction tables takes.
pub const CORRECTION_MAX_BONUS: i32 = 256;

/// The places of one correction table.
pub const CORRECTION_ENTRIES: usize = 16384;

/// The number of correction tables of one player.
pub const CORRECTION_TABLES: usize = 5;

/// The number of the correction table that goes by the key `kind`.
pub open spec fn table_no(kind: KeyKind) -> int {
    match kind {
        KeyKind::Blockers => 0,
        KeyKind::Roads => 1,
        KeyKind::Tops => 2,
        KeyKind::Caps => 3,
        _ => 4,
    }
}

/// The place of the value of `player` in table `table` for `key`.
pub open spec fn correction_at(player: Player, table: int, key: u64) -> int {
    (player.index() * 5 + table) * 16384 + (key as int) % 16384
}

/// The correction tables of both players.
pub struct CorrectionHistory {
    tables: Vec<Entry>,
}

impl CorrectionHistory {
    /// All values, table after table, both players' in a row.
    pub closed spec fn entries(self) -> Seq<Entry> {
        self.tables@
    }

    /// All places are there, and every value is within the limit.
    pub open spec fn wf(self) -> bool {
        &&& self.entries().len() == 2 * 5 * 16384
        &&& forall|i: int|
            0 <= i < self.entries().len() ==> -CORRECTION_LIMIT <= (
            #[trigger] self.entries()[i]).spec_get() <= CORRECTION_LIMIT
    }

    /// The value of `player` in the table that goes by `kind`, for `key`.
    pub open spec fn value(self, player: Player, kind: KeyKind, key: u64) -> int {
        self.entries()[correction_at(player, table_no(kind), key)].spec_get()
    }

    /// The sum of the five values of `player` for the keys of `towers`.
    pub open spec fn total(self, player: Player, towers: Seq<crate::model::Tower>) -> int {
        self.value(player, KeyKind::Blockers, regen_key(KeyKind::Blockers, towers)) + self.value(
            player,
            KeyKind::Roads,
            regen_key(KeyKind::Roads, towers),
        ) + self.value(player, KeyKind::Tops, regen_key(KeyKind::Tops, towers)) + self.value(
            player,
            KeyKind::Caps,
            regen_key(KeyKind::Caps, towers),
        ) + self.value(player, KeyKind::Walls, regen_key(KeyKind::Walls, towers))
    }

    /// The bonus for a search of `depth` that found `search_score` where
    /// the static evaluation was `static_eval`.
    pub open spec fn bonus(depth: int, search_score: int, static_eval: int) -> int {
        clamp_to(
            trunc_div((search_score - static_eval) * depth, 8),
            -CORRECTION_MAX_BONUS as int,
            CORRECTION_MAX_BONUS as int,
        )
    }

    /// Whether place `i` is one of the five that an update for the side to
    /// move of the board touches.
    pub open spec fn touched(b: crate::model::Board, i: int) -> bool {
        exists|kind: KeyKind|
            kind != KeyKind::Stacks && i == #[trigger] correction_at(
                b.stm,
                table_no(kind),
                regen_key(kind, b.towers),
            )
    }

    /// Tables of zeros.
    pub fn new() -> (r: CorrectionHistory)
        ensures
            r.wf(),
            forall|i: int| 0 <= i < r.entries().len() ==> (#[trigger] r.entries()[i]).spec_get() == 0,
    {
        CorrectionHistory {
            tables: vec![Entry::zero(); 2 * CORRECTION_TABLES * CORRECTION_ENTRIES],
        }
    }

    /// Sets every value to zero.
    pub fn clear(&mut self)
        ensures
            final(self).wf(),
            forall|i: int|
                0 <= i < final(self).entries().len() ==> (#[trigger] final(self).entries()[i]).spec_get()
                    == 0,
    {
        self.tables = vec![Entry::zero(); 2 * CORRECTION_TABLES * CORRECTION_ENTRIES];
    }

    /// Takes a bonus into the value of `side` in table `table` for `key`.
    fn bump(&mut self, side: usize, table: usize, key: u64, bonus: i32)
        requires
            old(self).wf(),
            side < 2,
            table < 5,
            -CORRECTION_MAX_BONUS <= bonus <= CORRECTION_MAX_BONUS,
        ensures
            final(self).wf(),
            ({
                let at = (side * 5 + table) * 16384 + (key as int) % 16384;
                &&& final(self).entries()[at].spec_get() == gravity(
                    old(self).entries()[at].spec_get(),
                    bonus as int,
                    CORRECTION_LIMIT as int,
                )
                &&& forall|i: int|
                    0 <= i < 2 * 5 * 16384 && i != at ==> #[trigger] final(self).entries()[i]
                        == old(self).entries()[i]
            }),
    {
        let at: usize = (side * CORRECTION_TABLES + table) * CORRECTION_ENTRIES + (key
            % 16384) as usize;
        let mut entry = self.tables[at];
        entry.update(bonus, CORRECTION_LIMIT);
        self.tables[at] = entry;
    }

    /// Takes into the five values of the side to move what a search of
    /// `depth` found: `search_score`, where the static evaluation was
    /// `static_eval`.
    pub fn update(&mut self, pos: &Position, depth: i32, search_score: i32, static_eval: i32)
        requires
            old(self).wf(),
            pos.shape_ok(),
            0 <= depth <= 255,
            -65536 <= search_score <= 65536,
            -65536 <= static_eval <= 65536,
        ensures
            final(self).wf(),
            ({
                let b = CorrectionHistory::bonus(
                    depth as int,
                    search_score as int,
                    static_eval as int,
                );
                &&& forall|kind: KeyKind|
                    kind != KeyKind::Stacks ==> #[trigger] final(self).value(
                        pos@.stm,
                        kind,
                        regen_key(kind, pos@.towers),
                    ) == gravity(
                        old(self).value(pos@.stm, kind, regen_key(kind, pos@.towers)),
                        b,
                        CORRECTION_LIMIT as int,
                    )
                &&& forall|i: int|
                    0 <= i < 2 * 5 * 16384 && !CorrectionHistory::touched(pos@, i)
                        ==> #[trigger] final(self).entries()[i] == old(self).entries()[i]
            }),
    {
        let diff: i32 = search_score - static_eval;
        let size: i32 = if diff >= 0 {
            diff
        } else {
            -diff
        };
        assert(0 <= size * depth <= 131072 * 255) by (nonlinear_arith)
            requires
                0 <= size <= 131072,
                0 <= depth <= 255,
        ;
        assert(diff * depth == if diff >= 0 {
            size * depth
        } else {
            -(size * depth)
        }) by (nonlinear_arith)
            requires
                size == crate::history::magnitude(diff as int),
        ;
        let part: i32 = (size * depth) / 8;
        let scaled: i32 = if diff >= 0 {
            part
        } else {
            -part
        };
        let bonus: i32 = if scaled < -CORRECTION_MAX_BONUS {
            -CORRECTION_MAX_BONUS
        } else if scaled > CORRECTION_MAX_BONUS {
            CORRECTION_MAX_BONUS
        } else {
            scaled
        };
        let side: usize = pos.stm().idx();
        let ghost b = pos@;
        proof {
            assert(CorrectionHistory::touched(
                b,
                correction_at(
                    b.stm,
                    table_no(KeyKind::Blockers),
                    regen_key(KeyKind::Blockers, b.towers),
                ),
            ));
            assert(CorrectionHistory::touched(
                b,
                correction_at(b.stm, table_no(KeyKind::Roads), regen_key(KeyKind::Roads, b.towers)),
            ));
            assert(CorrectionHistory::touched(
                b,
                correction_at(b.stm, table_no(KeyKind::Tops), regen_key(KeyKind::Tops, b.towers)),
            ));
            assert(CorrectionHistory::touched(
                b,
                correction_at(b.stm, table_no(KeyKind::Caps), regen_key(KeyKind::Caps, b.towers)),
            ));
            assert(CorrectionHistory::touched(
                b,
                correction_at(b.stm, table_no(KeyKind::Walls), regen_key(KeyKind::Walls, b.towers)),
            ));
        }
        self.bump(side, 0, pos.blocker_key(), bonus);
        self.bump(side, 1, pos.road_key(), bonus);
        self.bump(side, 2, pos.top_key(), bonus);
        self.bump(side, 3, pos.cap_key(), bonus);
        self.bump(side, 4, pos.wall_key(), bonus);
    }

    /// By how much the static evaluation of `pos` is to be corrected: a
    /// sixteenth of the sum of the five values of the side to move.
    pub fn correction(&self, pos: &Position) -> (r: i32)
        requires
            self.wf(),
            pos.shape_ok(),
        ensures
            r == trunc_div(self.total(pos@.stm, pos@.towers), 16),
            -320 <= r <= 320,
    {
        let side: usize = pos.stm().idx();
        let base: usize = side * CORRECTION_TABLES * CORRECTION_ENTRIES;
        let mut sum: i32 = 0;
        sum = sum + self.tables[base + (pos.blocker_key() % 16384) as usize].get();
        sum = sum + self.tables[base + CORRECTION_ENTRIES + (pos.road_key() % 16384) as usize].get();
        sum = sum + self.tables[base + 2 * CORRECTION_ENTRIES + (pos.top_key()
            % 16384) as usize].get();
        sum = sum + self.tables[base + 3 * CORRECTION_ENTRIES + (pos.cap_key()
            % 16384) as usize].get();
        sum = sum + self.tables[base + 4 * CORRECTION_ENTRIES + (pos.wall_key()
            % 16384) as usize].get();
        if sum >= 0 {
            sum / 16
        } else {
            -((-sum) / 16)
        }
    }
}

} // verus!
