//! Sets of squares, held as the low 36 bits of a word.

use crate::types::{step_on_board, Direction, Square};
use vstd::prelude::*;

verus! {

/// The 36 bits that stand for squares.
pub const BOARD_MASK: u64 = 0xf_ffff_ffff;

/// The squares of rank 6.
pub const UPPER_EDGE_BITS: u64 = 0xfc0000000;

/// The squares of rank 1.
pub const LOWER_EDGE_BITS: u64 = 0x3f;

/// The squares of file a.
pub const LEFT_EDGE_BITS: u64 = 0x41041041;

/// The squares of file f.
pub const RIGHT_EDGE_BITS: u64 = 0x820820820;

/// Whether bit `i` of `x` is set.
pub open spec fn bit_at(x: u64, i: int) -> bool {
    0 <= i < 64 && (x >> (i as u64)) & 1 == 1
}

/// The number of set bits of `x` below position `n`.
pub open spec fn ones_below(x: u64, n: nat) -> nat
    decreases n,
{
    if n == 0 {
        0
    } else {
        ones_below(x, (n - 1) as nat) + if bit_at(x, n - 1) {
            1nat
        } else {
            0nat
        }
    }
}

/// The number of set bits of `x`.
pub open spec fn popcount(x: u64) -> nat {
    ones_below(x, 64)
}

/// At most `n` bits are set below position `n`, and none where the word is zero.
pub proof fn lemma_ones_bound(x: u64, n: nat)
    requires
        n <= 64,
    ensures
        ones_below(x, n) <= n,
        x == 0 ==> ones_below(x, n) == 0,
    decreases n,
{
    if n > 0 {
        lemma_ones_bound(x, (n - 1) as nat);
        lemma_bits_masked(0, n - 1);
    }
}

/// The set bits of a word within the board mask lie below position 36.
pub proof fn lemma_ones_board(x: u64, n: nat)
    requires
        x <= BOARD_MASK,
        36 <= n <= 64,
    ensures
        ones_below(x, n) == ones_below(x, 36),
    decreases n,
{
    if n > 36 {
        lemma_ones_board(x, (n - 1) as nat);
        lemma_bits_masked(x, n - 1);
    }
}

/// The bits of the three bitwise operations, one position at a time.
pub proof fn lemma_bits_binop(a: u64, b: u64, i: int)
    requires
        0 <= i < 64,
    ensures
        bit_at(a & b, i) == (bit_at(a, i) && bit_at(b, i)),
        bit_at(a | b, i) == (bit_at(a, i) || bit_at(b, i)),
        bit_at(a ^ b, i) == (bit_at(a, i) != bit_at(b, i)),
{
    let k = i as u64;
    assert(k < 64 ==> ((((a & b) >> k) & 1 == 1) == (((a >> k) & 1 == 1) && ((b >> k) & 1 == 1)))
        && ((((a | b) >> k) & 1 == 1) == (((a >> k) & 1 == 1) || ((b >> k) & 1 == 1))) && ((((a
        ^ b) >> k) & 1 == 1) == (((a >> k) & 1 == 1) != ((b >> k) & 1 == 1)))) by (bit_vector);
}

/// A word with one bit set has that bit and no other.
pub proof fn lemma_bit_single(k: int, i: int)
    requires
        0 <= k < 64,
        0 <= i < 64,
    ensures
        bit_at(1u64 << (k as u64), i) == (i == k),
{
    let kk = k as u64;
    let ii = i as u64;
    assert(kk < 64 && ii < 64 ==> ((((1u64 << kk) >> ii) & 1 == 1) == (ii == kk)))
        by (bit_vector);
}

/// Clearing one bit leaves the others as they were.
pub proof fn lemma_bit_cleared(a: u64, k: int, i: int)
    requires
        0 <= k < 64,
        0 <= i < 64,
    ensures
        bit_at(a & !(1u64 << (k as u64)), i) == (bit_at(a, i) && i != k),
{
    let kk = k as u64;
    let ii = i as u64;
    assert(kk < 64 && ii < 64 ==> ((((a & !(1u64 << kk)) >> ii) & 1 == 1) == (((a >> ii) & 1 == 1)
        && ii != kk))) by (bit_vector);
}

/// The bits of a word shifted up or down.
pub proof fn lemma_bit_shifted(a: u64, n: int, i: int)
    requires
        0 <= n < 64,
        0 <= i < 64,
    ensures
        bit_at(a << (n as u64), i) == (i >= n && bit_at(a, i - n)),
        bit_at(a >> (n as u64), i) == (i + n < 64 && bit_at(a, i + n)),
{
    let nn = n as u64;
    let ii = i as u64;
    assert(nn < 64 && ii < 64 ==> ((((a << nn) >> ii) & 1 == 1) == (ii >= nn && ((a >> ((ii
        - nn) as u64)) & 1 == 1))) && ((((a >> nn) >> ii) & 1 == 1) == (ii + nn < 64 && ((a >> ((ii
        + nn) as u64)) & 1 == 1)))) by (bit_vector);
}

/// A word is within the board mask exactly when no bit from 36 up is set.
pub proof fn lemma_bits_masked(a: u64, i: int)
    requires
        0 <= i < 64,
    ensures
        (a & BOARD_MASK) <= BOARD_MASK,
        bit_at(a & BOARD_MASK, i) == (i < 36 && bit_at(a, i)),
        bit_at(!a & BOARD_MASK, i) == (i < 36 && !bit_at(a, i)),
        a <= BOARD_MASK && i >= 36 ==> !bit_at(a, i),
        !bit_at(0, i),
{
    let ii = i as u64;
    assert((a & 0xf_ffff_ffff) <= 0xf_ffff_ffff && (ii < 64 ==> ((((a & 0xf_ffff_ffff) >> ii) & 1
        == 1) == (ii < 36 && ((a >> ii) & 1 == 1))) && ((((!a & 0xf_ffff_ffff) >> ii) & 1 == 1)
        == (ii < 36 && !((a >> ii) & 1 == 1))) && (a <= 0xf_ffff_ffff && ii >= 36 ==> !((a >> ii)
        & 1 == 1)) && !((0u64 >> ii) & 1 == 1))) by (bit_vector);
}

/// Words that agree in every bit from position `k` up agree when shifted
/// down by `k`.
proof fn lemma_high_bits(a: u64, b: u64, k: int)
    requires
        0 <= k <= 63,
        forall|i: int| k <= i < 64 ==> bit_at(a, i) == bit_at(b, i),
    ensures
        a >> (k as u64) == b >> (k as u64),
    decreases 63 - k,
{
    let kk = k as u64;
    assert(bit_at(a, k) == bit_at(b, k));
    if k == 63 {
        assert((((a >> 63) & 1 == 1) == ((b >> 63) & 1 == 1)) ==> a >> 63 == b >> 63)
            by (bit_vector);
    } else {
        lemma_high_bits(a, b, k + 1);
        let up = (k + 1) as u64;
        assert(kk < 63 && up == kk + 1 && a >> up == b >> up && (((a >> kk) & 1 == 1) == ((b >> kk)
            & 1 == 1)) ==> a >> kk == b >> kk) by (bit_vector);
    }
}

/// Words that agree in every bit are the same word.
pub proof fn lemma_bits_ext(a: u64, b: u64)
    requires
        forall|i: int| 0 <= i < 64 ==> bit_at(a, i) == bit_at(b, i),
    ensures
        a == b,
{
    lemma_high_bits(a, b, 0);
    assert(a >> 0 == a && b >> 0 == b) by (bit_vector);
}

/// Which squares the four edge constants hold.
pub proof fn lemma_edge_bits(i: int)
    requires
        0 <= i < 36,
    ensures
        bit_at(UPPER_EDGE_BITS, i) == (i >= 30),
        bit_at(LOWER_EDGE_BITS, i) == (i < 6),
        bit_at(LEFT_EDGE_BITS, i) == (i % 6 == 0),
        bit_at(RIGHT_EDGE_BITS, i) == (i % 6 == 5),
{
    let ii = i as u64;
    assert(ii < 36 ==> (((0xfc0000000u64 >> ii) & 1 == 1) == (ii >= 30)) && (((0x3fu64 >> ii) & 1
        == 1) == (ii < 6)) && (((0x41041041u64 >> ii) & 1 == 1) == (ii % 6 == 0)) && (((
    0x820820820u64 >> ii) & 1 == 1) == (ii % 6 == 5))) by (bit_vector);
}

/// A set of squares.
#[derive(Copy, Clone, PartialEq, Eq, Structural, Debug)]
pub struct Bitboard {
    raw: u64,
}

impl Bitboard {
    /// The word that holds the set.
    pub closed spec fn value(self) -> u64 {
        self.raw
    }

    /// No bit outside the board is set.
    pub open spec fn wf(self) -> bool {
        self.value() <= BOARD_MASK
    }

    /// Whether the square with number `i` is in the set.
    pub open spec fn has(self, i: int) -> bool {
        bit_at(self.value(), i)
    }

    /// The number of squares in the set.
    pub open spec fn count(self) -> nat {
        ones_below(self.value(), 36)
    }

    /// Sets of squares of the board that hold the same squares are the
    /// same set.
    pub proof fn lemma_same_squares(self, other: Bitboard)
        requires
            self.wf(),
            other.wf(),
            forall|i: int| 0 <= i < 36 ==> self.has(i) == other.has(i),
        ensures
            self == other,
    {
        assert forall|i: int| 0 <= i < 64 implies bit_at(self.raw, i) == bit_at(other.raw, i) by {
            if i >= 36 {
                lemma_bits_masked(self.raw, i);
                lemma_bits_masked(other.raw, i);
            } else {
                assert(self.has(i) == other.has(i));
            }
        }
        lemma_bits_ext(self.raw, other.raw);
    }

    /// Two sets with the same word are the same set.
    pub proof fn lemma_value_eq(self, other: Bitboard)
        requires
            self.value() == other.value(),
        ensures
            self == other,
    {
    }

    #[must_use]
    pub fn empty() -> (r: Bitboard)
        ensures
            r.value() == 0,
            r.wf(),
            forall|i: int| !r.has(i),
    {
        proof {
            assert forall|i: int| !bit_at(0u64, i) by {
                if 0 <= i < 64 {
                    lemma_bits_masked(0, i);
                }
            }
        }
        Bitboard { raw: 0 }
    }

    /// The set held in the low 36 bits of `raw`; higher bits are dropped.
    #[must_use]
    pub fn from_raw(raw: u64) -> (r: Bitboard)
        ensures
            r.value() == raw & BOARD_MASK,
            r.wf(),
            forall|i: int| #[trigger] r.has(i) == (i < 36 && bit_at(raw, i)),
    {
        proof {
            lemma_bits_masked(raw, 0);
            assert forall|i: int| #[trigger]
                bit_at(raw & BOARD_MASK, i) == (i < 36 && bit_at(raw, i)) by {
                if 0 <= i < 64 {
                    lemma_bits_masked(raw, i);
                }
            }
        }
        Bitboard { raw: raw & BOARD_MASK }
    }

    /// The set of the one square with number `sq`.
    #[must_use]
    pub fn single(sq: u8) -> (r: Bitboard)
        requires
            sq < 36,
        ensures
            r.value() == 1u64 << (sq as u64),
            r.wf(),
            forall|i: int| #[trigger] r.has(i) == (i == sq),
    {
        let raw: u64 = 1u64 << (sq as u64);
        proof {
            let s = sq as u64;
            assert(s < 36 ==> (1u64 << s) <= 0xf_ffff_ffff) by (bit_vector);
            assert forall|i: int| #[trigger] bit_at(raw, i) == (i == sq) by {
                if 0 <= i < 64 {
                    lemma_bit_single(sq as int, i);
                }
            }
        }
        Bitboard { raw }
    }

    /// The squares of the edge that lies in direction `dir`.
    #[must_use]
    pub fn edge(dir: Direction) -> (r: Bitboard)
        ensures
            r.wf(),
            forall|i: int| 0 <= i < 36 ==> (#[trigger] r.has(i) == !step_on_board(i, dir)),
    {
        let raw: u64 = match dir {
            Direction::Up => UPPER_EDGE_BITS,
            Direction::Down => LOWER_EDGE_BITS,
            Direction::Left => LEFT_EDGE_BITS,
            Direction::Right => RIGHT_EDGE_BITS,
        };
        proof {
            assert forall|i: int| 0 <= i < 36 implies (#[trigger] bit_at(raw, i) == !step_on_board(
                i,
                dir,
            )) by {
                lemma_edge_bits(i);
            }
        }
        Bitboard { raw }
    }

    #[must_use]
    pub fn raw(self) -> (r: u64)
        ensures
            r == self.value(),
    {
        self.raw
    }

    #[must_use]
    pub fn is_empty(self) -> (r: bool)
        ensures
            r == (self.value() == 0),
            r ==> forall|i: int| !self.has(i),
            !r ==> exists|i: int| 0 <= i < 64 && self.has(i),
    {
        proof {
            if self.raw == 0 {
                assert forall|i: int| !bit_at(0u64, i) by {
                    if 0 <= i < 64 {
                        lemma_bits_masked(0, i);
                    }
                }
            } else {
                lemma_lowest_bit(self.raw);
                assert(self.has(self.raw.trailing_zeros() as int));
            }
        }
        self.raw == 0
    }

    #[must_use]
    pub fn has_sq(self, sq: Square) -> (r: bool)
        ensures
            r == self.has(sq.index()),
    {
        let b = sq.bb();
        proof {
            let k = sq.index() as u64;
            let x = self.raw;
            assert(b.raw == 1u64 << k);
            assert(k < 64 ==> ((x & (1u64 << k)) != 0) == ((x >> k) & 1 == 1)) by (bit_vector);
        }
        (self.raw & b.raw) != 0
    }

    #[must_use]
    pub fn with_sq(self, sq: Square) -> (r: Bitboard)
        requires
            self.wf(),
        ensures
            r.wf(),
            r.value() == self.value() | (1u64 << (sq.index() as u64)),
            forall|i: int| #[trigger] r.has(i) == (self.has(i) || i == sq.index()),
    {
        self.or(sq.bb())
    }

    #[must_use]
    pub fn without_sq(self, sq: Square) -> (r: Bitboard)
        requires
            self.wf(),
        ensures
            r.wf(),
            r.value() == self.value() & !(1u64 << (sq.index() as u64)),
            forall|i: int| #[trigger] r.has(i) == (self.has(i) && i != sq.index()),
    {
        let b = sq.bb();
        let raw: u64 = self.raw & !b.raw;
        proof {
            let a = self.raw;
            let m = b.raw;
            assert(a <= 0xf_ffff_ffff ==> (a & !m) <= 0xf_ffff_ffff) by (bit_vector);
            assert forall|i: int| #[trigger]
                bit_at(raw, i) == (bit_at(a, i) && i != sq.index()) by {
                if 0 <= i < 64 {
                    lemma_bit_cleared(a, sq.index(), i);
                }
            }
        }
        Bitboard { raw }
    }

    #[must_use]
    pub fn with_sq_toggled(self, sq: Square) -> (r: Bitboard)
        requires
            self.wf(),
        ensures
            r.wf(),
            r.value() == self.value() ^ (1u64 << (sq.index() as u64)),
            forall|i: int| #[trigger] r.has(i) == (self.has(i) != (i == sq.index())),
    {
        self.xor(sq.bb())
    }

    pub fn set_sq(&mut self, sq: Square)
        requires
            old(self).wf(),
        ensures
            final(self).wf(),
            forall|i: int| #[trigger] final(self).has(i) == (old(self).has(i) || i == sq.index()),
    {
        *self = self.with_sq(sq);
    }

    pub fn clear_sq(&mut self, sq: Square)
        requires
            old(self).wf(),
        ensures
            final(self).wf(),
            forall|i: int| #[trigger] final(self).has(i) == (old(self).has(i) && i != sq.index()),
    {
        *self = self.without_sq(sq);
    }

    pub fn toggle_sq(&mut self, sq: Square)
        requires
            old(self).wf(),
        ensures
            final(self).wf(),
            forall|i: int| #[trigger]
                final(self).has(i) == (old(self).has(i) != (i == sq.index())),
    {
        *self = self.with_sq_toggled(sq);
    }

    /// The squares of the board that are not in the set.
    #[must_use]
    pub fn cmpl(self) -> (r: Bitboard)
        ensures
            r.wf(),
            r.value() == !self.value() & BOARD_MASK,
            forall|i: int| #[trigger] r.has(i) == (0 <= i < 36 && !self.has(i)),
    {
        let raw: u64 = !self.raw & BOARD_MASK;
        proof {
            lemma_bits_masked(!self.raw, 0);
            assert forall|i: int| #[trigger]
                bit_at(raw, i) == (0 <= i < 36 && !bit_at(self.raw, i)) by {
                if 0 <= i < 64 {
                    lemma_bits_masked(self.raw, i);
                }
            }
        }
        Bitboard { raw }
    }

    #[must_use]
    pub fn and(self, other: Bitboard) -> (r: Bitboard)
        requires
            self.wf() || other.wf(),
        ensures
            r.wf(),
            r.value() == self.value() & other.value(),
            forall|i: int| #[trigger] r.has(i) == (self.has(i) && other.has(i)),
    {
        let raw: u64 = self.raw & other.raw;
        proof {
            let a = self.raw;
            let b = other.raw;
            assert(a <= 0xf_ffff_ffff || b <= 0xf_ffff_ffff ==> (a & b) <= 0xf_ffff_ffff)
                by (bit_vector);
            assert forall|i: int| #[trigger] bit_at(raw, i) == (bit_at(a, i) && bit_at(b, i)) by {
                if 0 <= i < 64 {
                    lemma_bits_binop(a, b, i);
                }
            }
        }
        Bitboard { raw }
    }

    #[must_use]
    pub fn or(self, other: Bitboard) -> (r: Bitboard)
        requires
            self.wf(),
            other.wf(),
        ensures
            r.wf(),
            r.value() == self.value() | other.value(),
            forall|i: int| #[trigger] r.has(i) == (self.has(i) || other.has(i)),
    {
        let raw: u64 = self.raw | other.raw;
        proof {
            let a = self.raw;
            let b = other.raw;
            assert(a <= 0xf_ffff_ffff && b <= 0xf_ffff_ffff ==> (a | b) <= 0xf_ffff_ffff && (a ^ b)
                <= 0xf_ffff_ffff) by (bit_vector);
            assert forall|i: int| #[trigger] bit_at(raw, i) == (bit_at(a, i) || bit_at(b, i)) by {
                if 0 <= i < 64 {
                    lemma_bits_binop(a, b, i);
                }
            }
        }
        Bitboard { raw }
    }

    #[must_use]
    pub fn xor(self, other: Bitboard) -> (r: Bitboard)
        requires
            self.wf(),
            other.wf(),
        ensures
            r.wf(),
            r.value() == self.value() ^ other.value(),
            forall|i: int| #[trigger] r.has(i) == (self.has(i) != other.has(i)),
    {
        let raw: u64 = self.raw ^ other.raw;
        proof {
            let a = self.raw;
            let b = other.raw;
            assert(a <= 0xf_ffff_ffff && b <= 0xf_ffff_ffff ==> (a | b) <= 0xf_ffff_ffff && (a ^ b)
                <= 0xf_ffff_ffff) by (bit_vector);
            assert forall|i: int| #[trigger] bit_at(raw, i) == (bit_at(a, i) != bit_at(b, i)) by {
                if 0 <= i < 64 {
                    lemma_bits_binop(a, b, i);
                }
            }
        }
        Bitboard { raw }
    }

    /// Every square moved down by `count` numbers; squares below 0 leave.
    #[must_use]
    pub fn shr(self, count: u32) -> (r: Bitboard)
        requires
            self.wf(),
            count < 64,
        ensures
            r.wf(),
            r.value() == self.value() >> count,
            forall|i: int| 0 <= i < 36 ==> (#[trigger] r.has(i) == self.has(i + count)),
    {
        let raw: u64 = self.raw >> count;
        proof {
            let a = self.raw;
            assert(a <= 0xf_ffff_ffff && count < 64 ==> (a >> count) <= 0xf_ffff_ffff)
                by (bit_vector);
            assert(raw == a >> (count as u64)) by (bit_vector)
                requires
                    raw == a >> count,
                    count < 64,
            ;
            assert forall|i: int| 0 <= i < 36 implies (#[trigger] bit_at(raw, i) == bit_at(
                a,
                i + count,
            )) by {
                lemma_bit_shifted(a, count as int, i);
            }
        }
        Bitboard { raw }
    }

    /// Every square moved up by `count` numbers; squares above 35 leave.
    #[must_use]
    pub fn shl(self, count: u32) -> (r: Bitboard)
        requires
            count < 64,
        ensures
            r.wf(),
            r.value() == (self.value() << count) & BOARD_MASK,
            forall|i: int|
                0 <= i < 36 ==> (#[trigger] r.has(i) == (i >= count && self.has(i - count))),
    {
        let raw: u64 = (self.raw << count) & BOARD_MASK;
        proof {
            let a = self.raw;
            let s = a << (count as u64);
            assert(a << count == a << (count as u64)) by (bit_vector)
                requires
                    count < 64,
            ;
            lemma_bits_masked(s, 0);
            assert forall|i: int| 0 <= i < 36 implies (#[trigger] bit_at(raw, i) == (i >= count
                && bit_at(a, i - count))) by {
                lemma_bits_masked(s, i);
                lemma_bit_shifted(a, count as int, i);
            }
        }
        Bitboard { raw }
    }

    /// The square with the lowest number in the set.
    #[must_use]
    pub fn lsb(self) -> (r: Option<Square>)
        requires
            self.wf(),
        ensures
            r.is_none() <==> self.value() == 0,
            r matches Some(sq) ==> self.has(sq.index()) && forall|j: int|
                0 <= j < sq.index() ==> !self.has(j),
    {
        if self.raw == 0 {
            None
        } else {
            let tz: u32 = self.raw.trailing_zeros();
            proof {
                lemma_lowest_bit(self.raw);
                if tz >= 36 {
                    lemma_bits_masked(self.raw, tz as int);
                }
            }
            Square::from_raw(tz as u8)
        }
    }

    /// Takes the square with the lowest number out of the set.
    pub fn pop_lsb(&mut self) -> (r: Option<Square>)
        requires
            old(self).wf(),
        ensures
            final(self).wf(),
            r.is_none() <==> old(self).value() == 0,
            r.is_none() ==> *final(self) == *old(self),
            r matches Some(sq) ==> old(self).has(sq.index()) && (forall|j: int|
                0 <= j < sq.index() ==> !old(self).has(j)) && (forall|i: int| #[trigger]
                final(self).has(i) == (old(self).has(i) && i != sq.index())),
    {
        match self.lsb() {
            None => None,
            Some(sq) => {
                *self = self.without_sq(sq);
                Some(sq)
            },
        }
    }

    /// The neighbours, in direction `dir`, of the squares in the set.
    #[must_use]
    pub fn shift(&self, dir: Direction) -> (r: Bitboard)
        requires
            self.wf(),
        ensures
            r.wf(),
            forall|i: int|
                0 <= i < 36 ==> (#[trigger] r.has(i) == (0 <= i - dir.delta() < 36 && self.has(
                    i - dir.delta(),
                ) && step_on_board(i - dir.delta(), dir))),
    {
        match dir {
            Direction::Up => self.shl(6),
            Direction::Down => {
                let r = self.shr(6);
                assert forall|i: int| 0 <= i < 36 implies (#[trigger] r.has(i) == (0 <= i + 6 < 36
                    && self.has(i + 6) && step_on_board(i + 6, dir))) by {
                    lemma_bits_masked(self.raw, i + 6);
                }
                r
            },
            Direction::Right => {
                let edge = Bitboard::edge(Direction::Left);
                let r = self.shl(1).and(edge.cmpl());
                assert forall|i: int| 0 <= i < 36 implies (#[trigger] r.has(i) == (0 <= i - 1 < 36
                    && self.has(i - 1) && step_on_board(i - 1, dir))) by {
                    assert(edge.has(i) == !step_on_board(i, Direction::Left));
                }
                r
            },
            Direction::Left => {
                let edge = Bitboard::edge(Direction::Right);
                let r = self.shr(1).and(edge.cmpl());
                assert forall|i: int| 0 <= i < 36 implies (#[trigger] r.has(i) == (0 <= i + 1 < 36
                    && self.has(i + 1) && step_on_board(i + 1, dir))) by {
                    assert(edge.has(i) == !step_on_board(i, Direction::Right));
                    if i == 35 {
                        lemma_bits_masked(self.raw, 36);
                    }
                }
                r
            },
        }
    }

    /// The number of squares in the set.
    #[must_use]
    pub fn popcount(self) -> (r: u32)
        requires
            self.wf(),
        ensures
            r == self.count(),
            r <= 36,
    {
        proof {
            lemma_ones_board(self.raw, 64);
            lemma_ones_bound(self.raw, 36);
        }
        count_ones(self.raw)
    }

    /// A cursor over the squares of the set, lowest number first.
    #[must_use]
    pub fn into_iter(self) -> (r: Biterator)
        requires
            self.wf(),
        ensures
            r.rest() == self,
    {
        Biterator { board: self }
    }
}

/// The lowest set bit of a word that is not zero.
pub proof fn lemma_lowest_bit(x: u64)
    requires
        x != 0,
    ensures
        x.trailing_zeros() < 64,
        bit_at(x, x.trailing_zeros() as int),
        forall|j: int| 0 <= j < x.trailing_zeros() ==> !bit_at(x, j),
{
    vstd::std_specs::bits::axiom_u64_trailing_zeros(x);
    let tz = x.trailing_zeros();
    assert forall|j: int| 0 <= j < tz implies !bit_at(x, j) by {
        let jj = j as u64;
        assert((x >> jj) & 1u64 == 0u64);
    }
}

/// `u64::count_ones`: the number of ones in the binary representation of
/// the word, that is the number of positions from 0 to 63 at which its bit
/// is set.
#[verifier::external_body]
fn count_ones(x: u64) -> (r: u32)
    ensures
        r == popcount(x),
{
    x.count_ones()
}

/// A cursor over the squares of a set.
pub struct Biterator {
    board: Bitboard,
}

impl Biterator {
    /// The squares that the cursor has yet to hand out.
    pub closed spec fn rest(self) -> Bitboard {
        self.board
    }

    /// The square with the lowest number that is left, which then leaves.
    pub fn next(&mut self) -> (r: Option<Square>)
        requires
            old(self).rest().wf(),
        ensures
            final(self).rest().wf(),
            r.is_none() <==> old(self).rest().value() == 0,
            r.is_none() ==> final(self).rest() == old(self).rest(),
            r matches Some(sq) ==> old(self).rest().has(sq.index()) && (forall|j: int|
                0 <= j < sq.index() ==> !old(self).rest().has(j)) && (forall|i: int| #[trigger]
                final(self).rest().has(i) == (old(self).rest().has(i) && i != sq.index())),
    {
        self.board.pop_lsb()
    }
}

} // verus!
