//! Moves: a placement or a spread, packed into 14 bits.

use crate::types::{Direction, PieceType, Square};
use vstd::prelude::*;

verus! {

/// The most pieces that a spread may carry.
pub const CARRY_LIMIT: u8 = 6;

/// A move, held as `square | pattern << 6 | flag << 12`.
///
/// With a pattern of zero the move places a piece on the square and the flag
/// is the piece type plus one. Otherwise the move spreads the stack on the
/// square, the flag is the direction and the pattern is the drop schedule.
#[derive(Copy, Clone, PartialEq, Eq, Structural, Debug)]
pub struct Move {
    raw: u16,
}

impl Move {
    pub const TOTAL_BITS: usize = 14;

    pub const SQUARE_MASK: u16 = 63;

    pub const PATTERN_MASK: u16 = 63;

    pub const FLAG_MASK: u16 = 3;

    /// The packed value.
    pub closed spec fn value(self) -> u16 {
        self.raw
    }

    /// The six bits of the square.
    pub open spec fn square_bits(self) -> int {
        (self.value() as int) % 64
    }

    /// The six bits of the drop schedule; zero for a placement.
    pub open spec fn pattern_bits(self) -> int {
        ((self.value() as int) / 64) % 64
    }

    /// The two bits of the flag.
    pub open spec fn flag_bits(self) -> int {
        ((self.value() as int) / 4096) % 4
    }

    /// The value fits 14 bits, names a square of the board, and is a
    /// placement with a piece type or a spread.
    pub open spec fn valid(self) -> bool {
        &&& self.value() < 16384
        &&& self.square_bits() < 36
        &&& (self.pattern_bits() == 0 ==> self.flag_bits() >= 1)
    }

    /// Whether the move is a spread.
    pub open spec fn spreads(self) -> bool {
        self.pattern_bits() != 0
    }

    /// The square placed on or spread from.
    pub open spec fn square(self) -> Square {
        Square::at(self.square_bits())
    }

    /// The piece type of a placement.
    pub open spec fn kind(self) -> PieceType {
        if self.flag_bits() == 1 {
            PieceType::Flat
        } else if self.flag_bits() == 2 {
            PieceType::Wall
        } else {
            PieceType::Capstone
        }
    }

    /// The direction of a spread.
    pub open spec fn direction(self) -> Direction {
        if self.flag_bits() == 0 {
            Direction::Up
        } else if self.flag_bits() == 1 {
            Direction::Down
        } else if self.flag_bits() == 2 {
            Direction::Left
        } else {
            Direction::Right
        }
    }

    /// The move with the given packed value.
    pub closed spec fn of_value(v: u16) -> Move {
        Move { raw: v }
    }

    /// The placement of a piece of type `pt` on `sq`.
    pub open spec fn placing(pt: PieceType, sq: Square) -> Move {
        Move::of_value(((pt.index() + 1) * 4096 + sq.index()) as u16)
    }

    /// The spread from `sq` in direction `dir` with the given drop schedule.
    pub open spec fn spreading(sq: Square, dir: Direction, pattern: nat) -> Move {
        Move::of_value((dir.index() * 4096 + pattern * 64 + sq.index()) as u16)
    }

    pub proof fn lemma_of_value(v: u16)
        ensures
            Move::of_value(v).value() == v,
    {
    }

    /// A valid move is the placement or the spread that its fields give.
    pub proof fn lemma_of_fields(self)
        requires
            self.valid(),
        ensures
            Move::of_value(self.value()) == self,
            !self.spreads() ==> self == Move::placing(self.kind(), self.square()),
            self.spreads() ==> self == Move::spreading(
                self.square(),
                self.direction(),
                self.pattern_bits() as nat,
            ),
    {
        self.square().lemma_at_index();
        Square::lemma_index_at(self.square_bits());
        let a = self.value() as int;
        assert(a == (a / 4096) * 4096 + ((a / 64) % 64) * 64 + a % 64);
    }

    /// Two moves with the same packed value are the same move.
    pub proof fn lemma_value_eq(self, other: Move)
        requires
            self.value() == other.value(),
        ensures
            self == other,
    {
    }

    /// A valid move is determined by its square, pattern and flag.
    pub proof fn lemma_fields_eq(self, other: Move)
        requires
            self.valid(),
            other.valid(),
            self.square_bits() == other.square_bits(),
            self.pattern_bits() == other.pattern_bits(),
            self.flag_bits() == other.flag_bits(),
        ensures
            self == other,
    {
        let a = self.value() as int;
        let b = other.value() as int;
        assert(a == (a / 4096) * 4096 + ((a / 64) % 64) * 64 + a % 64);
        assert(b == (b / 4096) * 4096 + ((b / 64) % 64) * 64 + b % 64);
    }

    #[must_use]
    pub fn placement(pt: PieceType, dst: Square) -> (r: Move)
        ensures
            r.valid(),
            !r.spreads(),
            r.kind() == pt,
            r.square() == dst,
            r.value() == (pt.index() + 1) * 4096 + dst.index(),
            r == Move::placing(pt, dst),
    {
        proof {
            dst.lemma_at_index();
        }
        let raw: u16 = (pt.raw() as u16 + 1) * 4096 + dst.raw() as u16;
        Move { raw }
    }

    #[must_use]
    pub fn spread(src: Square, dir: Direction, pattern: u16) -> (r: Move)
        requires
            0 < pattern < 64,
        ensures
            r.valid(),
            r.spreads(),
            r.pattern_bits() == pattern,
            r.direction() == dir,
            r.square() == src,
            r.value() == dir.index() * 4096 + pattern * 64 + src.index(),
            r == Move::spreading(src, dir, pattern as nat),
    {
        proof {
            src.lemma_at_index();
        }
        let raw: u16 = (dir.raw() as u16) * 4096 + pattern * 64 + src.raw() as u16;
        Move { raw }
    }

    /// The move with the given packed value; none for zero, which is kept
    /// free to stand for "no move".
    #[must_use]
    pub fn from_raw(raw: u16) -> (r: Option<Move>)
        ensures
            r.is_some() <==> raw != 0,
            r matches Some(m) ==> m.value() == raw,
    {
        if raw == 0 {
            None
        } else {
            Some(Move { raw })
        }
    }

    pub fn raw(self) -> (r: u16)
        ensures
            r == self.value(),
    {
        self.raw
    }

    /// Whether the packed value is that of a placement or a spread on the board.
    #[must_use]
    pub fn is_valid(self) -> (r: bool)
        ensures
            r == self.valid(),
    {
        self.raw < 16384 && self.raw % 64 < 36 && ((self.raw / 64) % 64 != 0 || (self.raw / 4096)
            % 4 >= 1)
    }

    #[must_use]
    pub fn sq(self) -> (r: Square)
        requires
            self.square_bits() < 36,
        ensures
            r == self.square(),
            r.index() == self.square_bits(),
    {
        match Square::from_raw((self.raw % 64) as u8) {
            Some(sq) => sq,
            None => Square::A1,
        }
    }

    #[must_use]
    pub fn pattern(self) -> (r: u16)
        ensures
            r == self.pattern_bits(),
            r < 64,
    {
        (self.raw / 64) % 64
    }

    #[must_use]
    pub fn is_spread(self) -> (r: bool)
        ensures
            r == self.spreads(),
    {
        self.pattern() != 0
    }

    #[must_use]
    pub fn pt(self) -> (r: PieceType)
        requires
            !self.spreads(),
            self.flag_bits() >= 1,
        ensures
            r == self.kind(),
    {
        match (self.raw / 4096) % 4 {
            1 => PieceType::Flat,
            2 => PieceType::Wall,
            _ => PieceType::Capstone,
        }
    }

    #[must_use]
    pub fn dir(self) -> (r: Direction)
        requires
            self.spreads(),
        ensures
            r == self.direction(),
    {
        match (self.raw / 4096) % 4 {
            0 => Direction::Up,
            1 => Direction::Down,
            2 => Direction::Left,
            _ => Direction::Right,
        }
    }
}

} // verus!
