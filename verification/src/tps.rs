//! Positions as text: the ranks from 6 down to 1, the side to move and
//! the number of the move.

use crate::board::Position;
use crate::model::{Board, Tower};
use crate::notation::{ascii, ascii_string};
use crate::types::{PieceType, Player, Square};
use vstd::prelude::*;

verus! {

/// The digit of a player in a stack: `1` or `2`.
pub open spec fn owner_digit(p: Player) -> u8 {
    match p {
        Player::P1 => 49u8,
        Player::P2 => 50u8,
    }
}

/// A stack as text: the owners from the bottom up, then `S` for a wall or
/// `C` for a capstone on top.
pub open spec fn tower_text(t: Tower) -> Seq<u8> {
    Seq::new(t.owners.len(), |i: int| owner_digit(t.owners[i])) + match t.top {
        Some(PieceType::Wall) => seq![83u8],
        Some(PieceType::Capstone) => seq![67u8],
        _ => Seq::<u8>::empty(),
    }
}

/// The number of empty squares in a row from `file` on in `rank`.
pub open spec fn empty_run(towers: Seq<Tower>, rank: int, file: int) -> nat
    decreases 6 - file,
{
    if 0 <= file < 6 && towers[rank * 6 + file].top is None {
        1 + empty_run(towers, rank, file + 1)
    } else {
        0
    }
}

/// The number of squares that the group starting at `file` stands for.
pub open spec fn group_width(towers: Seq<Tower>, rank: int, file: int) -> int {
    if towers[rank * 6 + file].top is None {
        empty_run(towers, rank, file) as int
    } else {
        1
    }
}

/// The group starting at `file`: `x` with the number of empty squares
/// where there are several, or a stack.
pub open spec fn group_text(towers: Seq<Tower>, rank: int, file: int) -> Seq<u8> {
    if towers[rank * 6 + file].top is None {
        if empty_run(towers, rank, file) > 1 {
            seq![120u8, (48 + empty_run(towers, rank, file)) as u8]
        } else {
            seq![120u8]
        }
    } else {
        tower_text(towers[rank * 6 + file])
    }
}

/// The groups of `rank` from `file` on, with commas between them.
pub open spec fn rank_text(towers: Seq<Tower>, rank: int, file: int) -> Seq<u8>
    decreases 6 - file,
{
    if file < 0 || file >= 6 {
        Seq::empty()
    } else {
        let w = group_width(towers, rank, file);
        if w >= 1 && file + w < 6 {
            group_text(towers, rank, file) + seq![44u8] + rank_text(towers, rank, file + w)
        } else {
            group_text(towers, rank, file)
        }
    }
}

/// The ranks from `rank` down to the first, with slashes between them.
pub open spec fn board_text(towers: Seq<Tower>, rank: int) -> Seq<u8>
    decreases rank,
{
    if rank < 0 {
        Seq::empty()
    } else if rank == 0 {
        rank_text(towers, 0, 0)
    } else {
        rank_text(towers, rank, 0) + seq![47u8] + board_text(towers, rank - 1)
    }
}

/// A number in decimal digits.
pub open spec fn decimal(n: nat) -> Seq<u8>
    decreases n,
{
    if n < 10 {
        seq![(48 + n) as u8]
    } else {
        decimal(n / 10).push((48 + n % 10) as u8)
    }
}

/// A position as text.
pub open spec fn tps_text(b: Board) -> Seq<u8> {
    board_text(b.towers, 5) + seq![32u8, owner_digit(b.stm), 32u8] + decimal(b.ply / 2 + 1)
}

/// Appends a number in decimal digits.
pub fn push_decimal(out: &mut Vec<u8>, n: u128)
    ensures
        final(out)@ == old(out)@ + decimal(n as nat),
        ascii(old(out)@) ==> ascii(final(out)@),
    decreases n,
{
    if n >= 10 {
        push_decimal(out, n / 10);
    }
    out.push(48 + (n % 10) as u8);
    proof {
        assert(final(out)@ =~= old(out)@ + decimal(n as nat));
    }
}

impl Position {
    /// Appends the stack on `sq` as text.
    fn push_stack(&self, out: &mut Vec<u8>, sq: Square)
        requires
            self.shape_ok(),
        ensures
            final(out)@ == old(out)@ + tower_text(self@.towers[sq.index()]),
            ascii(old(out)@) ==> ascii(final(out)@),
    {
        let stack = self.stack_on(sq);
        let ghost t = stack@;
        let ghost digits = Seq::new(t.owners.len(), |i: int| owner_digit(t.owners[i]));
        let h: u8 = stack.height();
        let mut i: u8 = 0;
        while i < h
            invariant
                i <= h,
                h == t.size(),
                t == stack@,
                stack.wf(),
                digits == Seq::new(t.owners.len(), |i: int| owner_digit(t.owners[i])),
                out@ == old(out)@ + digits.take(i as int),
                ascii(old(out)@) ==> ascii(out@),
            decreases h - i,
        {
            let d: u8 = match stack.owner(i) {
                Player::P1 => 49,
                Player::P2 => 50,
            };
            out.push(d);
            proof {
                assert(digits.take(i + 1) =~= digits.take(i as int).push(d));
            }
            i = i + 1;
        }
        proof {
            assert(digits.take(h as int) =~= digits);
        }
        match stack.top() {
            Some(PieceType::Wall) => {
                out.push(83);
            },
            Some(PieceType::Capstone) => {
                out.push(67);
            },
            _ => {},
        }
        proof {
            assert(out@ =~= old(out)@ + tower_text(t));
        }
    }

    /// Appends the groups of `rank`.
    fn push_rank(&self, out: &mut Vec<u8>, rank: u32)
        requires
            self.shape_ok(),
            rank < 6,
        ensures
            final(out)@ == old(out)@ + rank_text(self@.towers, rank as int, 0),
            ascii(old(out)@) ==> ascii(final(out)@),
    {
        let ghost towers = self@.towers;
        let ghost whole = rank_text(towers, rank as int, 0);
        let mut file: u32 = 0;
        while file < 6
            invariant
                file <= 6,
                rank < 6,
                self.shape_ok(),
                towers == self@.towers,
                out@ + rank_text(towers, rank as int, file as int) == old(out)@ + whole,
                ascii(old(out)@) ==> ascii(out@),
            decreases 6 - file,
        {
            let ghost before = out@;
            let ghost group = group_text(towers, rank as int, file as int);
            let sq = match Square::from_file_rank(file, rank) {
                Some(sq) => sq,
                None => Square::A1,
            };
            let mut width: u32 = 1;
            if self.stack_on(sq).is_empty() {
                while file + width < 6 && self.empty_at(file + width, rank)
                    invariant
                        1 <= width,
                        file + width <= 6,
                        rank < 6,
                        towers == self@.towers,
                        empty_run(towers, rank as int, file as int) == width + empty_run(
                            towers,
                            rank as int,
                            file + width,
                        ),
                    decreases 6 - width,
                {
                    width = width + 1;
                }
                out.push(120);
                if width > 1 {
                    out.push(48 + width as u8);
                }
                assert(out@ =~= before + group);
            } else {
                self.push_stack(out, sq);
            }
            if file + width < 6 {
                out.push(44);
            }
            proof {
                let rest = rank_text(towers, rank as int, file + width);
                assert(group_width(towers, rank as int, file as int) == width);
                if file + width < 6 {
                    assert(out@ + rest =~= before + (group + seq![44u8] + rest));
                } else {
                    assert(out@ + rest =~= before + group);
                }
            }
            file = file + width;
        }
        assert(out@ =~= old(out)@ + whole);
    }

    /// Whether the square on `file` and `rank` holds no piece.
    fn empty_at(&self, file: u32, rank: u32) -> (r: bool)
        requires
            file < 6,
            rank < 6,
        ensures
            r == (self@.towers[rank * 6 + file].top is None),
    {
        match Square::from_file_rank(file, rank) {
            Some(sq) => self.stack_on(sq).is_empty(),
            None => false,
        }
    }

    /// The position as text, in bytes.
    pub fn tps_bytes(&self) -> (r: Vec<u8>)
        requires
            self.wf(),
        ensures
            r@ == tps_text(self@),
            ascii(r@),
    {
        let mut out: Vec<u8> = Vec::new();
        let ghost towers = self@.towers;
        let mut left: u32 = 6;
        while left > 0
            invariant
                left <= 6,
                self.shape_ok(),
                towers == self@.towers,
                out@ + board_text(towers, left - 1) == board_text(towers, 5),
                ascii(out@),
            decreases left,
        {
            let ghost before = out@;
            left = left - 1;
            self.push_rank(&mut out, left);
            if left > 0 {
                out.push(47);
            }
            proof {
                let row = rank_text(towers, left as int, 0);
                let rest = board_text(towers, left - 1);
                if left > 0 {
                    assert(out@ + rest =~= before + (row + seq![47u8] + rest));
                } else {
                    assert(out@ + rest =~= before + row);
                }
            }
        }
        assert(out@ =~= board_text(towers, 5));
        out.push(32);
        match self.stm() {
            Player::P1 => {
                out.push(49);
            },
            Player::P2 => {
                out.push(50);
            },
        }
        out.push(32);
        assert(out@ =~= board_text(towers, 5) + seq![32u8, owner_digit(self@.stm), 32u8]);
        push_decimal(&mut out, (self.ply() as u32 / 2 + 1) as u128);
        out
    }

    /// The position as text.
    pub fn tps(&self) -> (r: String)
        requires
            self.wf(),
        ensures
            r@ == Seq::new(tps_text(self@).len(), |i: int| tps_text(self@)[i] as char),
    {
        let bytes = self.tps_bytes();
        ascii_string(bytes.as_slice())
    }
}

} // verus!
