//! The game as mathematics: towers of pieces on 36 squares, the reserves,
//! and what a move does to them.

use crate::notation::{
    carried, lemma_doubled_order, lemma_low_zeros_under, lemma_strip, strip_zeros,
};
use crate::takmove::Move;
use crate::types::{step_on_board, Direction, PieceType, Player};
use vstd::prelude::*;

verus! {

/// The flats (walls count as flats) that each player starts with.
pub const START_FLATS: u8 = 30;

/// The capstones that each player starts with.
pub const START_CAPS: u8 = 1;

/// The stack on one square: the owners of its pieces from the bottom up,
/// and the type of the topmost piece. Every piece below the top is flat.
pub struct Tower {
    pub owners: Seq<Player>,
    pub top: Option<PieceType>,
}

/// How often `p` occurs in `owners`.
pub open spec fn count_owner(owners: Seq<Player>, p: Player) -> nat
    decreases owners.len(),
{
    if owners.len() == 0 {
        0
    } else {
        count_owner(owners.drop_last(), p) + if owners.last() == p {
            1nat
        } else {
            0nat
        }
    }
}

impl Tower {
    /// A square without pieces.
    pub open spec fn empty() -> Tower {
        Tower { owners: Seq::empty(), top: None }
    }

    /// The tower has a top piece exactly when it has pieces.
    pub open spec fn wf(self) -> bool {
        (self.owners.len() == 0) == (self.top is None)
    }

    /// The number of pieces.
    pub open spec fn size(self) -> nat {
        self.owners.len()
    }

    /// The tower with one more piece on top.
    pub open spec fn push(self, player: Player, pt: PieceType) -> Tower {
        Tower { owners: self.owners.push(player), top: Some(pt) }
    }

    /// The tower without its top `n` pieces; what is then on top is flat.
    pub open spec fn without_top(self, n: nat) -> Tower {
        Tower {
            owners: self.owners.take(self.owners.len() - n),
            top: if self.owners.len() <= n {
                None
            } else {
                Some(PieceType::Flat)
            },
        }
    }

    /// The owners of the top `n` pieces, lowest first.
    pub open spec fn top_owners(self, n: nat) -> Seq<Player> {
        self.owners.skip(self.owners.len() - n)
    }

    /// Whether the top piece is of type `pt` and belongs to `p`.
    pub open spec fn topped_by(self, p: Player, pt: PieceType) -> bool {
        self.top == Some(pt) && self.owners.len() > 0 && self.owners.last() == p
    }

    /// Whether the top piece belongs to `p`.
    pub open spec fn owned_by(self, p: Player) -> bool {
        self.owners.len() > 0 && self.owners.last() == p
    }

    /// The number of pieces of `p` that are no capstone.
    pub open spec fn stones(self, p: Player) -> int {
        count_owner(self.owners, p) - if self.topped_by(p, PieceType::Capstone) {
            1int
        } else {
            0int
        }
    }

    /// 1 where the top piece is a capstone of `p`, else 0.
    pub open spec fn capstones(self, p: Player) -> int {
        if self.topped_by(p, PieceType::Capstone) {
            1
        } else {
            0
        }
    }
}

/// The reserve of one player.
pub struct Hand {
    pub flats: nat,
    pub caps: nat,
}

/// A position: the 36 towers, who is to move, how many plies were played,
/// and both reserves.
pub struct Board {
    pub towers: Seq<Tower>,
    pub stm: Player,
    pub ply: nat,
    pub hand1: Hand,
    pub hand2: Hand,
}

/// The sum of `f` over the first `n` towers.
pub open spec fn tally(towers: Seq<Tower>, f: spec_fn(Tower) -> int, n: nat) -> int
    decreases n,
{
    if n == 0 {
        0
    } else {
        tally(towers, f, (n - 1) as nat) + f(towers[n - 1])
    }
}

/// The pieces of `p` on the board that are no capstone.
pub open spec fn stones_on_board(towers: Seq<Tower>, p: Player) -> int {
    tally(towers, |t: Tower| t.stones(p), 36)
}

/// The capstones of `p` on the board.
pub open spec fn capstones_on_board(towers: Seq<Tower>, p: Player) -> int {
    tally(towers, |t: Tower| t.capstones(p), 36)
}

/// All pieces on the board.
pub open spec fn pieces_on_board(towers: Seq<Tower>) -> int {
    tally(towers, |t: Tower| t.size() as int, 36)
}

/// Where a piece may land: on an empty square or a flat, and a capstone
/// that lands alone also on a wall, which it flattens.
pub open spec fn landing_ok(top: Option<PieceType>, smash: bool) -> bool {
    top is None || top == Some(PieceType::Flat) || (smash && top == Some(PieceType::Wall))
}

/// Whether the `n` pieces still carried can be dropped from square `sq` on:
/// with the lowest bit of `bits` set the next piece goes one square on, else
/// it stays on `sq`. `cap` says that the last piece is a capstone.
pub open spec fn walk_ok(
    towers: Seq<Tower>,
    sq: int,
    dir: Direction,
    n: nat,
    bits: nat,
    cap: bool,
) -> bool
    decreases n,
{
    if n == 0 {
        true
    } else if bits % 2 == 1 {
        &&& step_on_board(sq, dir)
        &&& landing_ok(towers[sq + dir.delta()].top, n == 1 && cap)
        &&& walk_ok(towers, sq + dir.delta(), dir, (n - 1) as nat, bits / 2, cap)
    } else {
        walk_ok(towers, sq, dir, (n - 1) as nat, bits / 2, cap)
    }
}

/// The towers after the carried pieces were dropped from square `sq` on,
/// lowest first; the last piece is of type `top`, the others are flat.
pub open spec fn drop_all(
    towers: Seq<Tower>,
    sq: int,
    dir: Direction,
    carry: Seq<Player>,
    bits: nat,
    top: PieceType,
) -> Seq<Tower>
    decreases carry.len(),
{
    if carry.len() == 0 {
        towers
    } else {
        let at = if bits % 2 == 1 {
            sq + dir.delta()
        } else {
            sq
        };
        let kind = if carry.len() == 1 {
            top
        } else {
            PieceType::Flat
        };
        drop_all(
            towers.update(at, towers[at].push(carry[0], kind)),
            at,
            dir,
            carry.skip(1),
            bits / 2,
            top,
        )
    }
}

impl Board {
    /// The reserve of `p`.
    pub open spec fn hand(self, p: Player) -> Hand {
        match p {
            Player::P1 => self.hand1,
            Player::P2 => self.hand2,
        }
    }

    /// The board with the reserve of `p` replaced.
    pub open spec fn with_hand(self, p: Player, h: Hand) -> Board {
        match p {
            Player::P1 => Board { hand1: h, ..self },
            Player::P2 => Board { hand2: h, ..self },
        }
    }

    /// The empty board, the first player to move.
    pub open spec fn start() -> Board {
        Board {
            towers: Seq::new(36, |i: int| Tower::empty()),
            stm: Player::P1,
            ply: 0,
            hand1: Hand { flats: 30, caps: 1 },
            hand2: Hand { flats: 30, caps: 1 },
        }
    }

    /// What holds of the reserve of `p`: with the pieces on the board it
    /// makes up the 30 flats and the one capstone that the player began with.
    pub open spec fn hand_ok(self, p: Player) -> bool {
        &&& self.hand(p).flats + stones_on_board(self.towers, p) == 30
        &&& self.hand(p).caps + capstones_on_board(self.towers, p) == 1
    }

    /// What holds of every position of a game.
    pub open spec fn wf(self) -> bool {
        &&& self.towers.len() == 36
        &&& forall|i: int| 0 <= i < 36 ==> (#[trigger] self.towers[i]).wf()
        &&& self.hand_ok(Player::P1)
        &&& self.hand_ok(Player::P2)
        &&& (self.ply % 2 == 0) == (self.stm == Player::P1)
    }

    /// The key of the position: that of all pieces, with the key of the
    /// side mixed in where the second player is to move.
    pub open spec fn key(self) -> u64 {
        let k = crate::keys::regen_key(crate::keys::KeyKind::Stacks, self.towers);
        match self.stm {
            Player::P1 => k,
            Player::P2 => k ^ crate::keys::side_key(),
        }
    }

    /// The owner of a piece placed now: in the first two plies each player
    /// places a piece of the other.
    pub open spec fn placer(self) -> Player {
        if self.ply < 2 {
            self.stm.other()
        } else {
            self.stm
        }
    }

    /// Whether the placement `mv` may be played.
    pub open spec fn legal_placement(self, mv: Move) -> bool {
        &&& self.towers[mv.square_bits()].top is None
        &&& (self.ply < 2 ==> mv.kind() == PieceType::Flat)
        &&& if mv.kind() == PieceType::Capstone {
            self.hand(self.placer()).caps >= 1
        } else {
            self.hand(self.placer()).flats >= 1
        }
    }

    /// Whether the spread `mv` may be played.
    pub open spec fn legal_spread(self, mv: Move) -> bool {
        let origin = self.towers[mv.square_bits()];
        let pattern = mv.pattern_bits() as nat;
        &&& self.ply >= 2
        &&& origin.owned_by(self.stm)
        &&& carried(pattern) <= origin.size()
        &&& walk_ok(
            self.towers,
            mv.square_bits(),
            mv.direction(),
            carried(pattern),
            strip_zeros(pattern),
            origin.top == Some(PieceType::Capstone),
        )
    }

    /// Whether `mv` may be played.
    pub open spec fn legal(self, mv: Move) -> bool {
        &&& mv.valid()
        &&& if mv.spreads() {
            self.legal_spread(mv)
        } else {
            self.legal_placement(mv)
        }
    }

    /// The towers after the placement `mv`.
    pub open spec fn placed(self, mv: Move) -> Seq<Tower> {
        self.towers.update(
            mv.square_bits(),
            self.towers[mv.square_bits()].push(self.placer(), mv.kind()),
        )
    }

    /// The reserve of the placing player after the placement `mv`.
    pub open spec fn hand_after(self, mv: Move) -> Hand {
        let h = self.hand(self.placer());
        if mv.kind() == PieceType::Capstone {
            Hand { flats: h.flats, caps: (h.caps - 1) as nat }
        } else {
            Hand { flats: (h.flats - 1) as nat, caps: h.caps }
        }
    }

    /// The towers after the top pieces were taken off the origin of the spread `mv`.
    pub open spec fn lifted(self, mv: Move) -> Seq<Tower> {
        let sq = mv.square_bits();
        self.towers.update(sq, self.towers[sq].without_top(carried(mv.pattern_bits() as nat)))
    }

    /// The towers after the spread `mv`.
    pub open spec fn spread(self, mv: Move) -> Seq<Tower> {
        let sq = mv.square_bits();
        let pattern = mv.pattern_bits() as nat;
        drop_all(
            self.lifted(mv),
            sq,
            mv.direction(),
            self.towers[sq].top_owners(carried(pattern)),
            strip_zeros(pattern),
            self.towers[sq].top.unwrap(),
        )
    }

    /// The position after the side to move passed.
    pub open spec fn pass(self) -> Board {
        Board { stm: self.stm.other(), ply: self.ply + 1, ..self }
    }

    /// The position after `mv`.
    pub open spec fn play(self, mv: Move) -> Board {
        if mv.spreads() {
            Board { towers: self.spread(mv), stm: self.stm.other(), ply: self.ply + 1, ..self }
        } else {
            Board {
                towers: self.placed(mv),
                stm: self.stm.other(),
                ply: self.ply + 1,
                ..self
            }.with_hand(self.placer(), self.hand_after(mv))
        }
    }
}


/// Whether square `j` lies beyond `sq` for a walk in direction `dir`.
pub open spec fn ahead(sq: int, j: int, dir: Direction) -> bool {
    if dir.delta() > 0 {
        j > sq
    } else {
        j < sq
    }
}

/// Replacing one tower changes a tally by what the tower counts for.
pub proof fn lemma_tally_update(towers: Seq<Tower>, f: spec_fn(Tower) -> int, n: nat, s: int, t: Tower)
    requires
        0 <= s < towers.len(),
        n <= towers.len(),
    ensures
        tally(towers.update(s, t), f, n) == tally(towers, f, n) + if s < n {
            f(t) - f(towers[s])
        } else {
            0
        },
    decreases n,
{
    if n > 0 {
        lemma_tally_update(towers, f, (n - 1) as nat, s, t);
    }
}

/// Towers that agree up to `n` have the same tally up to `n`.
pub proof fn lemma_tally_same(a: Seq<Tower>, b: Seq<Tower>, f: spec_fn(Tower) -> int, n: nat)
    requires
        n <= a.len(),
        n <= b.len(),
        forall|i: int| 0 <= i < n ==> f(#[trigger] a[i]) == f(b[i]),
    ensures
        tally(a, f, n) == tally(b, f, n),
    decreases n,
{
    if n > 0 {
        lemma_tally_same(a, b, f, (n - 1) as nat);
    }
}

/// A tally of values that are not negative is at least each value.
pub proof fn lemma_tally_bound(towers: Seq<Tower>, f: spec_fn(Tower) -> int, n: nat, s: int)
    requires
        n <= towers.len(),
        0 <= s < n,
        forall|i: int| 0 <= i < n ==> f(#[trigger] towers[i]) >= 0,
    ensures
        tally(towers, f, n) >= f(towers[s]),
        tally(towers, f, n) >= 0,
    decreases n,
{
    assert(f(towers[n - 1]) >= 0);
    if n > 1 {
        if s < n - 1 {
            lemma_tally_bound(towers, f, (n - 1) as nat, s);
        } else {
            lemma_tally_bound(towers, f, (n - 1) as nat, 0);
        }
    } else {
        assert(tally(towers, f, 0) == 0);
    }
}

/// A tally of sums is the sum of the tallies.
pub proof fn lemma_tally_sum(
    towers: Seq<Tower>,
    f: spec_fn(Tower) -> int,
    g: spec_fn(Tower) -> int,
    h: spec_fn(Tower) -> int,
    n: nat,
)
    requires
        n <= towers.len(),
        forall|i: int| 0 <= i < n ==> h(#[trigger] towers[i]) == f(towers[i]) + g(towers[i]),
    ensures
        tally(towers, h, n) == tally(towers, f, n) + tally(towers, g, n),
    decreases n,
{
    if n > 0 {
        lemma_tally_sum(towers, f, g, h, (n - 1) as nat);
    }
}

/// Counting owners from the front.
pub proof fn lemma_count_front(owners: Seq<Player>, p: Player)
    requires
        owners.len() > 0,
    ensures
        count_owner(owners, p) == count_owner(owners.skip(1), p) + if owners[0] == p {
            1nat
        } else {
            0nat
        },
    decreases owners.len(),
{
    if owners.len() == 1 {
        assert(owners.skip(1) =~= owners.drop_last());
    } else {
        lemma_count_front(owners.drop_last(), p);
        assert(owners.drop_last().skip(1) =~= owners.skip(1).drop_last());
    }
}

/// Counting owners in two parts.
pub proof fn lemma_count_split(owners: Seq<Player>, k: int, p: Player)
    requires
        0 <= k <= owners.len(),
    ensures
        count_owner(owners, p) == count_owner(owners.take(k), p) + count_owner(owners.skip(k), p),
        count_owner(owners, p) <= owners.len(),
    decreases owners.len(),
{
    if owners.len() == 0 {
        assert(owners.take(k) =~= owners);
        assert(owners.skip(k) =~= owners);
    } else if k == owners.len() {
        assert(owners.take(k) =~= owners);
        assert(owners.skip(k).len() == 0);
        lemma_count_split(owners.drop_last(), 0, p);
    } else {
        lemma_count_split(owners.drop_last(), k, p);
        assert(owners.drop_last().take(k) =~= owners.take(k));
        assert(owners.drop_last().skip(k) =~= owners.skip(k).drop_last());
    }
}

/// The pieces of a tower are those of the one player and those of the other.
pub proof fn lemma_count_both(owners: Seq<Player>)
    ensures
        count_owner(owners, Player::P1) + count_owner(owners, Player::P2) == owners.len(),
    decreases owners.len(),
{
    if owners.len() > 0 {
        lemma_count_both(owners.drop_last());
    }
}

/// Whether a walk can go on depends only on the towers that lie ahead.
pub proof fn lemma_walk_frame(
    a: Seq<Tower>,
    b: Seq<Tower>,
    sq: int,
    dir: Direction,
    n: nat,
    bits: nat,
    cap: bool,
)
    requires
        a.len() == 36,
        b.len() == 36,
        0 <= sq < 36,
        forall|j: int| 0 <= j < 36 && ahead(sq, j, dir) ==> #[trigger] a[j] == b[j],
    ensures
        walk_ok(a, sq, dir, n, bits, cap) == walk_ok(b, sq, dir, n, bits, cap),
    decreases n,
{
    if n > 0 {
        if bits % 2 == 1 {
            if step_on_board(sq, dir) {
                let at = sq + dir.delta();
                assert(ahead(sq, at, dir));
                lemma_walk_frame(a, b, at, dir, (n - 1) as nat, bits / 2, cap);
            }
        } else {
            lemma_walk_frame(a, b, sq, dir, (n - 1) as nat, bits / 2, cap);
        }
    }
}

/// 1 where `cap` holds and the last of the carried pieces belongs to `p`.
pub open spec fn carried_cap(carry: Seq<Player>, cap: bool, p: Player) -> int {
    if cap && carry.len() > 0 && carry.last() == p {
        1
    } else {
        0
    }
}

/// Dropping the carried pieces puts exactly them on the board, and
/// leaves every tower well-formed.
#[verifier::rlimit(30)]
pub proof fn lemma_drop_all(
    towers: Seq<Tower>,
    sq: int,
    dir: Direction,
    carry: Seq<Player>,
    bits: nat,
    top: PieceType,
    p: Player,
)
    requires
        towers.len() == 36,
        forall|i: int| 0 <= i < 36 ==> (#[trigger] towers[i]).wf(),
        0 <= sq < 36,
        walk_ok(towers, sq, dir, carry.len(), bits, top == PieceType::Capstone),
        carry.len() > 0 ==> bits % 2 == 1 || towers[sq].top != Some(PieceType::Capstone),
    ensures
        ({
            let r = drop_all(towers, sq, dir, carry, bits, top);
            let cap = top == PieceType::Capstone;
            &&& r.len() == 36
            &&& forall|i: int| 0 <= i < 36 ==> (#[trigger] r[i]).wf()
            &&& stones_on_board(r, p) == stones_on_board(towers, p) + count_owner(carry, p)
                - carried_cap(carry, cap, p)
            &&& capstones_on_board(r, p) == capstones_on_board(towers, p) + carried_cap(
                carry,
                cap,
                p,
            )
        }),
    decreases carry.len(),
{
    let cap = top == PieceType::Capstone;
    if carry.len() > 0 {
        let at = if bits % 2 == 1 {
            sq + dir.delta()
        } else {
            sq
        };
        let kind = if carry.len() == 1 {
            top
        } else {
            PieceType::Flat
        };
        let old = towers[at];
        let new = old.push(carry[0], kind);
        let next = towers.update(at, new);
        assert(old.top != Some(PieceType::Capstone));
        assert(new.owners.drop_last() =~= old.owners);
        assert forall|i: int| 0 <= i < 36 implies (#[trigger] next[i]).wf() by {}
        assert(walk_ok(next, at, dir, (carry.len() - 1) as nat, bits / 2, cap)) by {
            lemma_walk_frame(towers, next, at, dir, (carry.len() - 1) as nat, bits / 2, cap);
        }
        lemma_drop_all(next, at, dir, carry.skip(1), bits / 2, top, p);
        lemma_count_front(carry, p);
        lemma_tally_update(towers, |t: Tower| t.stones(p), 36, at, new);
        lemma_tally_update(towers, |t: Tower| t.capstones(p), 36, at, new);
        if carry.len() > 1 {
            assert(carry.skip(1).last() == carry.last());
        }
    }
}


impl Board {
    /// A spread takes at least one piece and at most six, and its first
    /// piece goes one square on.
    pub proof fn lemma_spread_shape(mv: Move)
        requires
            mv.valid(),
            mv.spreads(),
        ensures
            1 <= carried(mv.pattern_bits() as nat) <= 6,
            strip_zeros(mv.pattern_bits() as nat) % 2 == 1,
            0 <= mv.square_bits() < 36,
            1 <= mv.pattern_bits() < 64,
    {
        let p = mv.pattern_bits() as nat;
        lemma_doubled_order(1, 1, 6);
        lemma_low_zeros_under(p, 64, 6);
        lemma_strip(p);
    }

    /// The towers after the pieces of a legal spread were lifted: what was
    /// lifted is missing from the board, and the walk can go ahead.
    #[verifier::rlimit(30)]
    pub proof fn lemma_lifted(self, mv: Move, p: Player)
        requires
            self.wf(),
            self.legal(mv),
            mv.spreads(),
        ensures
            ({
                let origin = self.towers[mv.square_bits()];
                let n = carried(mv.pattern_bits() as nat);
                let carry = origin.top_owners(n);
                let cap = origin.top == Some(PieceType::Capstone);
                let r = self.lifted(mv);
                &&& r.len() == 36
                &&& forall|i: int| 0 <= i < 36 ==> (#[trigger] r[i]).wf()
                &&& carry.len() == n
                &&& origin.top is Some
                &&& stones_on_board(r, p) == stones_on_board(self.towers, p) - count_owner(
                    carry,
                    p,
                ) + carried_cap(carry, cap, p)
                &&& capstones_on_board(r, p) == capstones_on_board(self.towers, p) - carried_cap(
                    carry,
                    cap,
                    p,
                )
                &&& walk_ok(r, mv.square_bits(), mv.direction(), n, strip_zeros(
                    mv.pattern_bits() as nat,
                ), cap)
            }),
    {
        let sq = mv.square_bits();
        let origin = self.towers[sq];
        let n = carried(mv.pattern_bits() as nat);
        let carry = origin.top_owners(n);
        let cap = origin.top == Some(PieceType::Capstone);
        let r = self.lifted(mv);
        let left = origin.without_top(n);
        Board::lemma_spread_shape(mv);
        assert(origin.wf());
        assert forall|i: int| 0 <= i < 36 implies (#[trigger] r[i]).wf() by {
            if i != sq {
                assert(r[i] == self.towers[i]);
            }
        }
        lemma_count_split(origin.owners, origin.owners.len() - n, p);
        assert(carry.last() == origin.owners.last());
        lemma_tally_update(self.towers, |t: Tower| t.stones(p), 36, sq, left);
        lemma_tally_update(self.towers, |t: Tower| t.capstones(p), 36, sq, left);
        lemma_walk_frame(
            self.towers,
            r,
            sq,
            mv.direction(),
            n,
            strip_zeros(mv.pattern_bits() as nat),
            cap,
        );
    }

    /// The reserves of a position add up with the pieces on the board, also
    /// after a legal move.
    #[verifier::rlimit(30)]
    pub proof fn lemma_play_hand(self, mv: Move, p: Player)
        requires
            self.wf(),
            self.legal(mv),
        ensures
            self.play(mv).hand_ok(p),
            self.play(mv).towers.len() == 36,
            forall|i: int| 0 <= i < 36 ==> (#[trigger] self.play(mv).towers[i]).wf(),
    {
        let sq = mv.square_bits();
        let origin = self.towers[sq];
        assert(origin.wf());
        if mv.spreads() {
            let n = carried(mv.pattern_bits() as nat);
            let carry = origin.top_owners(n);
            Board::lemma_spread_shape(mv);
            self.lemma_lifted(mv, p);
            lemma_drop_all(
                self.lifted(mv),
                sq,
                mv.direction(),
                carry,
                strip_zeros(mv.pattern_bits() as nat),
                origin.top.unwrap(),
                p,
            );
            assert(self.hand_ok(p));
        } else {
            let new = origin.push(self.placer(), mv.kind());
            let r = self.placed(mv);
            assert(origin.owners.len() == 0);
            assert(new.owners.drop_last() =~= origin.owners);
            assert(count_owner(origin.owners, p) == 0);
            lemma_tally_update(self.towers, |t: Tower| t.stones(p), 36, sq, new);
            lemma_tally_update(self.towers, |t: Tower| t.capstones(p), 36, sq, new);
            assert(self.hand_ok(p));
            assert forall|i: int| 0 <= i < 36 implies (#[trigger] r[i]).wf() by {
                if i != sq {
                    assert(r[i] == self.towers[i]);
                }
            }
        }
    }

    /// A legal move leads from a position of a game to a position of a game.
    pub proof fn lemma_play_wf(self, mv: Move)
        requires
            self.wf(),
            self.legal(mv),
        ensures
            self.play(mv).wf(),
    {
        self.lemma_play_hand(mv, Player::P1);
        self.lemma_play_hand(mv, Player::P2);
    }

    /// The empty board is a position of a game.
    pub proof fn lemma_start_wf()
        ensures
            Board::start().wf(),
    {
        let b = Board::start();
        lemma_tally_zero(b.towers, |t: Tower| t.stones(Player::P1), 36);
        lemma_tally_zero(b.towers, |t: Tower| t.stones(Player::P2), 36);
        lemma_tally_zero(b.towers, |t: Tower| t.capstones(Player::P1), 36);
        lemma_tally_zero(b.towers, |t: Tower| t.capstones(Player::P2), 36);
    }

    /// In a position of a game each player's reserve and pieces on the
    /// board make 31, and no tower holds more than 62 pieces.
    pub proof fn lemma_piece_count(self, p: Player)
        requires
            self.wf(),
        ensures
            self.hand(p).flats + self.hand(p).caps + tally(
                self.towers,
                |t: Tower| count_owner(t.owners, p) as int,
                36,
            ) == 31,
            pieces_on_board(self.towers) + self.hand1.flats + self.hand1.caps + self.hand2.flats
                + self.hand2.caps == 62,
            forall|i: int| 0 <= i < 36 ==> (#[trigger] self.towers[i]).size() <= 62,
    {
        let t = self.towers;
        let s1 = |t: Tower| t.stones(Player::P1);
        let s2 = |t: Tower| t.stones(Player::P2);
        let c1 = |t: Tower| t.capstones(Player::P1);
        let c2 = |t: Tower| t.capstones(Player::P2);
        let n1 = |t: Tower| count_owner(t.owners, Player::P1) as int;
        let n2 = |t: Tower| count_owner(t.owners, Player::P2) as int;
        let all = |t: Tower| t.size() as int;
        lemma_tally_sum(t, s1, c1, n1, 36);
        lemma_tally_sum(t, s2, c2, n2, 36);
        assert forall|i: int| 0 <= i < 36 implies all(#[trigger] t[i]) == n1(t[i]) + n2(t[i]) by {
            lemma_count_both(t[i].owners);
        }
        lemma_tally_sum(t, n1, n2, all, 36);
        assert forall|i: int| 0 <= i < 36 implies (#[trigger] t[i]).size() <= 62 by {
            lemma_tally_bound(t, all, 36, i);
        }
        lemma_tally_sum(
            t,
            |t: Tower| t.stones(p),
            |t: Tower| t.capstones(p),
            |t: Tower| count_owner(t.owners, p) as int,
            36,
        );
        assert(self.hand_ok(p));
    }

    /// The key of a position depends on its stacks and on the side to move
    /// alone, not on the number of plies played nor on the reserves.
    pub proof fn lemma_key_of_stacks(self, other: Board)
        requires
            self.towers == other.towers,
            self.stm == other.stm,
        ensures
            self.key() == other.key(),
    {
    }
}

/// A tally of zeros is zero.
pub proof fn lemma_tally_zero(towers: Seq<Tower>, f: spec_fn(Tower) -> int, n: nat)
    requires
        n <= towers.len(),
        forall|i: int| 0 <= i < n ==> f(#[trigger] towers[i]) == 0,
    ensures
        tally(towers, f, n) == 0,
    decreases n,
{
    if n > 0 {
        lemma_tally_zero(towers, f, (n - 1) as nat);
    }
}

} // verus!
