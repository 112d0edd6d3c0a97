//! Players, piece types, pieces, directions and squares of the 6x6 board.

use crate::bitboard::Bitboard;
use vstd::prelude::*;

verus! {

/// One of the two sides.
#[derive(Copy, Clone, PartialEq, Eq, Structural, Debug)]
pub enum Player {
    P1,
    P2,
}

impl Player {
    pub const COUNT: usize = 2;

    /// The number of the player: 0 for the first, 1 for the second.
    pub open spec fn index(self) -> int {
        match self {
            Player::P1 => 0,
            Player::P2 => 1,
        }
    }

    /// The other player.
    pub open spec fn other(self) -> Player {
        match self {
            Player::P1 => Player::P2,
            Player::P2 => Player::P1,
        }
    }

    #[must_use]
    pub fn from_raw(raw: u8) -> (r: Option<Player>)
        ensures
            r.is_some() <==> raw < 2,
            r matches Some(p) ==> p.index() == raw,
    {
        match raw {
            0 => Some(Player::P1),
            1 => Some(Player::P2),
            _ => None,
        }
    }

    #[must_use]
    pub fn raw(self) -> (r: u8)
        ensures
            r == self.index(),
    {
        match self {
            Player::P1 => 0,
            Player::P2 => 1,
        }
    }

    #[must_use]
    pub fn idx(self) -> (r: usize)
        ensures
            r == self.index(),
    {
        match self {
            Player::P1 => 0,
            Player::P2 => 1,
        }
    }

    /// `+1` for the first player, `-1` for the second.
    #[must_use]
    pub fn sign(self) -> (r: i32)
        ensures
            r == (if self == Player::P1 { 1i32 } else { -1i32 }),
    {
        match self {
            Player::P1 => 1,
            Player::P2 => -1,
        }
    }

    #[must_use]
    pub fn flip(self) -> (r: Player)
        ensures
            r == self.other(),
            r != self,
            r.other() == self,
    {
        match self {
            Player::P1 => Player::P2,
            Player::P2 => Player::P1,
        }
    }
}

/// The shape of a piece.
#[derive(Copy, Clone, PartialEq, Eq, Structural, Debug)]
pub enum PieceType {
    Flat,
    Wall,
    Capstone,
}

impl PieceType {
    pub const COUNT: usize = 3;

    pub open spec fn index(self) -> int {
        match self {
            PieceType::Flat => 0,
            PieceType::Wall => 1,
            PieceType::Capstone => 2,
        }
    }

    /// A wall or a capstone stops a spread.
    pub open spec fn blocks(self) -> bool {
        self != PieceType::Flat
    }

    /// A flat or a capstone counts towards a road.
    pub open spec fn roads(self) -> bool {
        self != PieceType::Wall
    }

    pub fn from_raw(raw: u8) -> (r: Option<PieceType>)
        ensures
            r.is_some() <==> raw < 3,
            r matches Some(pt) ==> pt.index() == raw,
    {
        match raw {
            0 => Some(PieceType::Flat),
            1 => Some(PieceType::Wall),
            2 => Some(PieceType::Capstone),
            _ => None,
        }
    }

    #[must_use]
    pub fn raw(self) -> (r: u8)
        ensures
            r == self.index(),
    {
        match self {
            PieceType::Flat => 0,
            PieceType::Wall => 1,
            PieceType::Capstone => 2,
        }
    }

    #[must_use]
    pub fn idx(self) -> (r: usize)
        ensures
            r == self.index(),
    {
        match self {
            PieceType::Flat => 0,
            PieceType::Wall => 1,
            PieceType::Capstone => 2,
        }
    }

    #[must_use]
    pub fn with_player(self, player: Player) -> (r: Piece)
        ensures
            r.kind() == self,
            r.owner() == player,
            r.index() == 2 * self.index() + player.index(),
    {
        match (self, player) {
            (PieceType::Flat, Player::P1) => Piece::P1Flat,
            (PieceType::Flat, Player::P2) => Piece::P2Flat,
            (PieceType::Wall, Player::P1) => Piece::P1Wall,
            (PieceType::Wall, Player::P2) => Piece::P2Wall,
            (PieceType::Capstone, Player::P1) => Piece::P1Capstone,
            (PieceType::Capstone, Player::P2) => Piece::P2Capstone,
        }
    }

    #[must_use]
    pub fn is_blocker(self) -> (r: bool)
        ensures
            r == self.blocks(),
    {
        match self {
            PieceType::Flat => false,
            _ => true,
        }
    }

    #[must_use]
    pub fn is_road(self) -> (r: bool)
        ensures
            r == self.roads(),
    {
        match self {
            PieceType::Wall => false,
            _ => true,
        }
    }

    /// The letter of the piece type in move notation.
    pub open spec fn letter(self) -> u8 {
        match self {
            PieceType::Flat => 70u8,
            PieceType::Wall => 83u8,
            PieceType::Capstone => 67u8,
        }
    }

    /// `F`, `S` or `C`.
    #[must_use]
    pub fn to_byte(self) -> (r: u8)
        ensures
            r == self.letter(),
    {
        match self {
            PieceType::Flat => 70,
            PieceType::Wall => 83,
            PieceType::Capstone => 67,
        }
    }
}

/// A piece type together with its owner.
#[derive(Copy, Clone, PartialEq, Eq, Structural, Debug)]
pub enum Piece {
    P1Flat,
    P2Flat,
    P1Wall,
    P2Wall,
    P1Capstone,
    P2Capstone,
}

impl Piece {
    pub const COUNT: usize = 6;

    pub open spec fn index(self) -> int {
        match self {
            Piece::P1Flat => 0,
            Piece::P2Flat => 1,
            Piece::P1Wall => 2,
            Piece::P2Wall => 3,
            Piece::P1Capstone => 4,
            Piece::P2Capstone => 5,
        }
    }

    pub open spec fn owner(self) -> Player {
        match self {
            Piece::P1Flat | Piece::P1Wall | Piece::P1Capstone => Player::P1,
            Piece::P2Flat | Piece::P2Wall | Piece::P2Capstone => Player::P2,
        }
    }

    pub open spec fn kind(self) -> PieceType {
        match self {
            Piece::P1Flat | Piece::P2Flat => PieceType::Flat,
            Piece::P1Wall | Piece::P2Wall => PieceType::Wall,
            Piece::P1Capstone | Piece::P2Capstone => PieceType::Capstone,
        }
    }

    pub fn from_raw(raw: u8) -> (r: Option<Piece>)
        ensures
            r.is_some() <==> raw < 6,
            r matches Some(p) ==> p.index() == raw,
    {
        match raw {
            0 => Some(Piece::P1Flat),
            1 => Some(Piece::P2Flat),
            2 => Some(Piece::P1Wall),
            3 => Some(Piece::P2Wall),
            4 => Some(Piece::P1Capstone),
            5 => Some(Piece::P2Capstone),
            _ => None,
        }
    }

    #[must_use]
    pub fn raw(self) -> (r: u8)
        ensures
            r == self.index(),
    {
        match self {
            Piece::P1Flat => 0,
            Piece::P2Flat => 1,
            Piece::P1Wall => 2,
            Piece::P2Wall => 3,
            Piece::P1Capstone => 4,
            Piece::P2Capstone => 5,
        }
    }

    #[must_use]
    pub fn idx(self) -> (r: usize)
        ensures
            r == self.index(),
    {
        match self {
            Piece::P1Flat => 0,
            Piece::P2Flat => 1,
            Piece::P1Wall => 2,
            Piece::P2Wall => 3,
            Piece::P1Capstone => 4,
            Piece::P2Capstone => 5,
        }
    }

    #[must_use]
    pub fn player(self) -> (r: Player)
        ensures
            r == self.owner(),
            r.index() == self.index() % 2,
    {
        match self {
            Piece::P1Flat | Piece::P1Wall | Piece::P1Capstone => Player::P1,
            Piece::P2Flat | Piece::P2Wall | Piece::P2Capstone => Player::P2,
        }
    }

    #[must_use]
    pub fn piece_type(self) -> (r: PieceType)
        ensures
            r == self.kind(),
            r.index() == self.index() / 2,
    {
        match self {
            Piece::P1Flat | Piece::P2Flat => PieceType::Flat,
            Piece::P1Wall | Piece::P2Wall => PieceType::Wall,
            Piece::P1Capstone | Piece::P2Capstone => PieceType::Capstone,
        }
    }
}

/// One of the four directions in which a stack can be spread.
#[derive(Copy, Clone, PartialEq, Eq, Structural, Debug)]
pub enum Direction {
    Up,
    Down,
    Left,
    Right,
}

impl Direction {
    pub const COUNT: usize = 4;

    pub open spec fn index(self) -> int {
        match self {
            Direction::Up => 0,
            Direction::Down => 1,
            Direction::Left => 2,
            Direction::Right => 3,
        }
    }

    /// What one step in this direction adds to a square's number.
    pub open spec fn delta(self) -> int {
        match self {
            Direction::Up => 6,
            Direction::Down => -6,
            Direction::Left => -1,
            Direction::Right => 1,
        }
    }

    /// The sign of the direction in move notation.
    pub open spec fn sign_byte(self) -> u8 {
        match self {
            Direction::Up => 43u8,
            Direction::Down => 45u8,
            Direction::Left => 60u8,
            Direction::Right => 62u8,
        }
    }

    pub fn from_raw(raw: u8) -> (r: Option<Direction>)
        ensures
            r.is_some() <==> raw < 4,
            r matches Some(d) ==> d.index() == raw,
    {
        match raw {
            0 => Some(Direction::Up),
            1 => Some(Direction::Down),
            2 => Some(Direction::Left),
            3 => Some(Direction::Right),
            _ => None,
        }
    }

    #[must_use]
    pub fn raw(self) -> (r: u8)
        ensures
            r == self.index(),
    {
        match self {
            Direction::Up => 0,
            Direction::Down => 1,
            Direction::Left => 2,
            Direction::Right => 3,
        }
    }

    #[must_use]
    pub fn idx(self) -> (r: usize)
        ensures
            r == self.index(),
    {
        match self {
            Direction::Up => 0,
            Direction::Down => 1,
            Direction::Left => 2,
            Direction::Right => 3,
        }
    }

    #[must_use]
    pub fn offset(self) -> (r: i8)
        ensures
            r == self.delta(),
    {
        match self {
            Direction::Up => 6,
            Direction::Down => -6,
            Direction::Left => -1,
            Direction::Right => 1,
        }
    }

    /// `+`, `-`, `<` or `>`.
    #[must_use]
    pub fn to_byte(self) -> (r: u8)
        ensures
            r == self.sign_byte(),
    {
        match self {
            Direction::Up => 43,
            Direction::Down => 45,
            Direction::Left => 60,
            Direction::Right => 62,
        }
    }
}

/// A square of the board, numbered by `rank * 6 + file`.
#[derive(Copy, Clone, PartialEq, Eq, Structural, Debug)]
pub enum Square {
    A1, B1, C1, D1, E1, F1,
    A2, B2, C2, D2, E2, F2,
    A3, B3, C3, D3, E3, F3,
    A4, B4, C4, D4, E4, F4,
    A5, B5, C5, D5, E5, F5,
    A6, B6, C6, D6, E6, F6,
}

/// Whether one step from square number `sq` in direction `dir` stays on the board.
pub open spec fn step_on_board(sq: int, dir: Direction) -> bool {
    match dir {
        Direction::Up => sq + 6 < 36,
        Direction::Down => sq - 6 >= 0,
        Direction::Left => sq % 6 != 0,
        Direction::Right => sq % 6 != 5,
    }
}

impl Square {
    pub const COUNT: usize = 36;

    /// The number of the square, from 0 (`a1`) to 35 (`f6`).
    pub open spec fn index(self) -> int {
        match self {
            Square::A1 => 0,
            Square::B1 => 1,
            Square::C1 => 2,
            Square::D1 => 3,
            Square::E1 => 4,
            Square::F1 => 5,
            Square::A2 => 6,
            Square::B2 => 7,
            Square::C2 => 8,
            Square::D2 => 9,
            Square::E2 => 10,
            Square::F2 => 11,
            Square::A3 => 12,
            Square::B3 => 13,
            Square::C3 => 14,
            Square::D3 => 15,
            Square::E3 => 16,
            Square::F3 => 17,
            Square::A4 => 18,
            Square::B4 => 19,
            Square::C4 => 20,
            Square::D4 => 21,
            Square::E4 => 22,
            Square::F4 => 23,
            Square::A5 => 24,
            Square::B5 => 25,
            Square::C5 => 26,
            Square::D5 => 27,
            Square::E5 => 28,
            Square::F5 => 29,
            Square::A6 => 30,
            Square::B6 => 31,
            Square::C6 => 32,
            Square::D6 => 33,
            Square::E6 => 34,
            Square::F6 => 35,
        }
    }

    /// The square with the given number; `a1` for a number that is none.
    pub open spec fn at(i: int) -> Square {
        if i == 1 {
            Square::B1
        } else if i == 2 {
            Square::C1
        } else if i == 3 {
            Square::D1
        } else if i == 4 {
            Square::E1
        } else if i == 5 {
            Square::F1
        } else if i == 6 {
            Square::A2
        } else if i == 7 {
            Square::B2
        } else if i == 8 {
            Square::C2
        } else if i == 9 {
            Square::D2
        } else if i == 10 {
            Square::E2
        } else if i == 11 {
            Square::F2
        } else if i == 12 {
            Square::A3
        } else if i == 13 {
            Square::B3
        } else if i == 14 {
            Square::C3
        } else if i == 15 {
            Square::D3
        } else if i == 16 {
            Square::E3
        } else if i == 17 {
            Square::F3
        } else if i == 18 {
            Square::A4
        } else if i == 19 {
            Square::B4
        } else if i == 20 {
            Square::C4
        } else if i == 21 {
            Square::D4
        } else if i == 22 {
            Square::E4
        } else if i == 23 {
            Square::F4
        } else if i == 24 {
            Square::A5
        } else if i == 25 {
            Square::B5
        } else if i == 26 {
            Square::C5
        } else if i == 27 {
            Square::D5
        } else if i == 28 {
            Square::E5
        } else if i == 29 {
            Square::F5
        } else if i == 30 {
            Square::A6
        } else if i == 31 {
            Square::B6
        } else if i == 32 {
            Square::C6
        } else if i == 33 {
            Square::D6
        } else if i == 34 {
            Square::E6
        } else if i == 35 {
            Square::F6
        } else {
            Square::A1
        }
    }

    pub proof fn lemma_index_at(i: int)
        requires
            0 <= i < 36,
        ensures
            Square::at(i).index() == i,
    {
    }

    pub proof fn lemma_at_index(self)
        ensures
            0 <= self.index() < 36,
            Square::at(self.index()) == self,
    {
    }

    #[must_use]
    pub fn from_raw(raw: u8) -> (r: Option<Square>)
        ensures
            r.is_some() <==> raw < 36,
            r matches Some(sq) ==> sq.index() == raw && sq == Square::at(raw as int),
    {
        match raw {
            0 => Some(Square::A1),
            1 => Some(Square::B1),
            2 => Some(Square::C1),
            3 => Some(Square::D1),
            4 => Some(Square::E1),
            5 => Some(Square::F1),
            6 => Some(Square::A2),
            7 => Some(Square::B2),
            8 => Some(Square::C2),
            9 => Some(Square::D2),
            10 => Some(Square::E2),
            11 => Some(Square::F2),
            12 => Some(Square::A3),
            13 => Some(Square::B3),
            14 => Some(Square::C3),
            15 => Some(Square::D3),
            16 => Some(Square::E3),
            17 => Some(Square::F3),
            18 => Some(Square::A4),
            19 => Some(Square::B4),
            20 => Some(Square::C4),
            21 => Some(Square::D4),
            22 => Some(Square::E4),
            23 => Some(Square::F4),
            24 => Some(Square::A5),
            25 => Some(Square::B5),
            26 => Some(Square::C5),
            27 => Some(Square::D5),
            28 => Some(Square::E5),
            29 => Some(Square::F5),
            30 => Some(Square::A6),
            31 => Some(Square::B6),
            32 => Some(Square::C6),
            33 => Some(Square::D6),
            34 => Some(Square::E6),
            35 => Some(Square::F6),
            _ => None,
        }
    }

    #[must_use]
    pub fn from_file_rank(file: u32, rank: u32) -> (r: Option<Square>)
        ensures
            r.is_some() <==> file < 6 && rank < 6,
            r matches Some(sq) ==> sq.index() == rank * 6 + file,
    {
        if file >= 6 || rank >= 6 {
            None
        } else {
            let raw: u32 = rank * 6 + file;
            Square::from_raw(raw as u8)
        }
    }

    #[must_use]
    pub fn raw(self) -> (r: u8)
        ensures
            r == self.index(),
            r < 36,
    {
        match self {
            Square::A1 => 0,
            Square::B1 => 1,
            Square::C1 => 2,
            Square::D1 => 3,
            Square::E1 => 4,
            Square::F1 => 5,
            Square::A2 => 6,
            Square::B2 => 7,
            Square::C2 => 8,
            Square::D2 => 9,
            Square::E2 => 10,
            Square::F2 => 11,
            Square::A3 => 12,
            Square::B3 => 13,
            Square::C3 => 14,
            Square::D3 => 15,
            Square::E3 => 16,
            Square::F3 => 17,
            Square::A4 => 18,
            Square::B4 => 19,
            Square::C4 => 20,
            Square::D4 => 21,
            Square::E4 => 22,
            Square::F4 => 23,
            Square::A5 => 24,
            Square::B5 => 25,
            Square::C5 => 26,
            Square::D5 => 27,
            Square::E5 => 28,
            Square::F5 => 29,
            Square::A6 => 30,
            Square::B6 => 31,
            Square::C6 => 32,
            Square::D6 => 33,
            Square::E6 => 34,
            Square::F6 => 35,
        }
    }

    #[must_use]
    pub fn idx(self) -> (r: usize)
        ensures
            r == self.index(),
            r < 36,
    {
        self.raw() as usize
    }

    #[must_use]
    pub fn rank(self) -> (r: u32)
        ensures
            r == self.index() / 6,
            r < 6,
    {
        self.raw() as u32 / 6
    }

    #[must_use]
    pub fn file(self) -> (r: u32)
        ensures
            r == self.index() % 6,
            r < 6,
    {
        self.raw() as u32 % 6
    }

    /// The set that holds this square alone.
    #[must_use]
    pub fn bb(self) -> (r: Bitboard)
        ensures
            r.wf(),
            r.value() == 1u64 << (self.index() as u64),
            forall|i: int| #[trigger] r.has(i) == (i == self.index()),
    {
        Bitboard::single(self.raw())
    }

    /// The square whose number is this one's plus the direction's offset, if
    /// that number is on the board. A step to the left or right may end on a
    /// neighbouring rank.
    #[must_use]
    pub fn shift(self, dir: Direction) -> (r: Option<Square>)
        ensures
            r.is_some() <==> 0 <= self.index() + dir.delta() < 36,
            r matches Some(sq) ==> sq.index() == self.index() + dir.delta(),
    {
        let shifted: i8 = self.raw() as i8 + dir.offset();
        if shifted >= 0 && shifted < 36 {
            Square::from_raw(shifted as u8)
        } else {
            None
        }
    }

    /// The neighbour in the given direction, if there is one on the board.
    #[must_use]
    pub fn shift_checked(self, dir: Direction) -> (r: Option<Square>)
        ensures
            r.is_some() <==> step_on_board(self.index(), dir),
            r matches Some(sq) ==> sq.index() == self.index() + dir.delta(),
    {
        match dir {
            Direction::Left => {
                if self.file() == 0 {
                    return None;
                }
            },
            Direction::Right => {
                if self.file() == 5 {
                    return None;
                }
            },
            _ => {},
        }
        self.shift(dir)
    }

    /// A cursor over all squares, from `a1` to `f6`.
    #[must_use]
    pub fn all() -> (r: SquareIterator)
        ensures
            r.position() == 0,
    {
        SquareIterator { raw: 0 }
    }

    /// The two characters of the square in notation: file letter, rank digit.
    pub open spec fn text(self) -> Seq<u8> {
        seq![(97 + self.index() % 6) as u8, (49 + self.index() / 6) as u8]
    }

    /// The name of the square, such as `c4`.
    pub fn to_bytes(self) -> (r: Vec<u8>)
        ensures
            r@ == self.text(),
    {
        let mut out: Vec<u8> = Vec::new();
        out.push(97u8 + self.file() as u8);
        out.push(49u8 + self.rank() as u8);
        assert(out@ =~= self.text());
        out
    }

    /// Reads a square name of exactly two characters.
    pub fn from_bytes(bytes: &[u8]) -> (r: Result<Square, SquareStrError>)
        ensures
            r == Square::parse(bytes@),
    {
        if bytes.len() != 2 {
            return Err(SquareStrError::WrongLength);
        }
        let file: u8 = bytes[0];
        if file < 97 || file > 102 {
            return Err(SquareStrError::InvalidFile);
        }
        let rank: u8 = bytes[1];
        if rank < 49 || rank > 54 {
            return Err(SquareStrError::InvalidRank);
        }
        match Square::from_file_rank((file - 97) as u32, (rank - 49) as u32) {
            Some(sq) => {
                proof {
                    sq.lemma_at_index();
                }
                Ok(sq)
            },
            None => Err(SquareStrError::InvalidFile),
        }
    }

    /// What a square name of two characters stands for.
    pub open spec fn parse(s: Seq<u8>) -> Result<Square, SquareStrError> {
        if s.len() != 2 {
            Err(SquareStrError::WrongLength)
        } else if s[0] < 97 || s[0] > 102 {
            Err(SquareStrError::InvalidFile)
        } else if s[1] < 49 || s[1] > 54 {
            Err(SquareStrError::InvalidRank)
        } else {
            Ok(Square::at((s[1] - 49) * 6 + (s[0] - 97)))
        }
    }

    /// Reading the name of a square gives the square back.
    pub proof fn lemma_parse_text(self)
        ensures
            Square::parse(self.text()) == Ok::<Square, SquareStrError>(self),
    {
        self.lemma_at_index();
    }
}

/// Why a text is not the name of a square.
#[derive(Copy, Clone, PartialEq, Eq, Structural, Debug)]
pub enum SquareStrError {
    NonAsciiString,
    WrongLength,
    InvalidFile,
    InvalidRank,
}

/// A cursor that walks the squares in the order of their numbers.
pub struct SquareIterator {
    raw: u8,
}

impl SquareIterator {
    /// The number of the square that `next` hands out, 36 or more at the end.
    pub closed spec fn position(self) -> int {
        self.raw as int
    }

    /// The next square, or `None` after `f6`.
    pub fn next(&mut self) -> (r: Option<Square>)
        ensures
            old(self).position() < 36 ==> r == Some(Square::at(old(self).position()))
                && final(self).position() == old(self).position() + 1,
            old(self).position() >= 36 ==> r.is_none() && final(self).position() == old(
                self,
            ).position(),
    {
        let sq = Square::from_raw(self.raw);
        if self.raw < 36 {
            self.raw += 1;
        }
        sq
    }
}

} // verus!
