//! Reading a position from its text.

use crate::board::Position;
use crate::model::{
    capstones_on_board, count_owner, stones_on_board, tally, Board, Hand, Tower,
};
use crate::types::Square;
use crate::tps::{
    board_text, decimal, empty_run, group_text, group_width, owner_digit, rank_text, tower_text,
    tps_text,
};
use crate::types::{PieceType, Player};
use vstd::prelude::*;
use vstd::string::StringSliceAdditionalSpecFns;

verus! {

/// Why a text is not a position.
#[derive(Copy, Clone, PartialEq, Eq, Structural, Debug)]
pub enum TpsError {
    /// The text ends where a square or the side to move is expected.
    BlankField,
    /// A character that has no place in the board.
    IllegalChar,
    /// A stack of more than 62 pieces.
    BadStack,
    /// A rank of more or fewer than six squares.
    WrongFileCount,
    /// More or fewer than six ranks.
    WrongRankCount,
    /// The side to move is neither `1` nor `2`.
    BadSideToMove,
    /// The number of the move is no number from 1 to 32768.
    BadMoveNumber,
    /// A player has more than 30 flats and walls, or more than one capstone.
    TooManyPieces,
}

/// The number of bytes at the start of `s` that are `1` or `2`.
pub open spec fn owner_run(s: Seq<u8>) -> nat
    decreases s.len(),
{
    if s.len() > 0 && (s[0] == 49 || s[0] == 50) {
        1 + owner_run(s.skip(1))
    } else {
        0
    }
}

/// The stack that `s` begins with, where it begins with `n` owners.
pub open spec fn stack_of(s: Seq<u8>, n: nat) -> Tower {
    Tower {
        owners: Seq::new(
            n,
            |i: int|
                if s[i] == 49 {
                    Player::P1
                } else {
                    Player::P2
                },
        ),
        top: Some(
            if s.len() > n && s[n as int] == 83 {
                PieceType::Wall
            } else if s.len() > n && s[n as int] == 67 {
                PieceType::Capstone
            } else {
                PieceType::Flat
            },
        ),
    }
}

/// The number of bytes that the stack at the start of `s` takes, where
/// it begins with `n` owners.
pub open spec fn stack_len(s: Seq<u8>, n: nat) -> nat {
    if s.len() > n && (s[n as int] == 83 || s[n as int] == 67) {
        n + 1
    } else {
        n
    }
}

/// The towers of the board and what follows the board in the text, where
/// `s` begins with a group that starts on `file` of `rank` and `towers`
/// holds the stacks read so far.
pub open spec fn scan(s: Seq<u8>, rank: int, file: int, towers: Seq<Tower>) -> Result<
    (Seq<Tower>, Seq<u8>),
    TpsError,
>
    decreases s.len(), 1int,
{
    if s.len() == 0 {
        Err(TpsError::BlankField)
    } else if s[0] == 120 {
        if s.len() > 1 && 49 <= s[1] <= 54 {
            after_group(s.skip(2), rank, file + (s[1] - 48), towers)
        } else {
            after_group(s.skip(1), rank, file + 1, towers)
        }
    } else if s[0] == 49 || s[0] == 50 {
        let n = owner_run(s);
        if n > 62 {
            Err(TpsError::BadStack)
        } else if stack_len(s, n) > s.len() {
            Err(TpsError::BadStack)
        } else {
            after_group(
                s.skip(stack_len(s, n) as int),
                rank,
                file + 1,
                towers.update(rank * 6 + file, stack_of(s, n)),
            )
        }
    } else {
        Err(TpsError::IllegalChar)
    }
}

/// The same, where `s` begins after a group that ended before `file`.
pub open spec fn after_group(s: Seq<u8>, rank: int, file: int, towers: Seq<Tower>) -> Result<
    (Seq<Tower>, Seq<u8>),
    TpsError,
>
    decreases s.len(), 0int,
{
    if file > 6 {
        Err(TpsError::WrongFileCount)
    } else if s.len() == 0 {
        Err(TpsError::BlankField)
    } else if s[0] == 44 {
        if file >= 6 {
            Err(TpsError::WrongFileCount)
        } else {
            scan(s.skip(1), rank, file, towers)
        }
    } else if s[0] == 47 {
        if file != 6 {
            Err(TpsError::WrongFileCount)
        } else if rank == 0 {
            Err(TpsError::WrongRankCount)
        } else {
            scan(s.skip(1), rank - 1, 0, towers)
        }
    } else if s[0] == 32 {
        if file != 6 {
            Err(TpsError::WrongFileCount)
        } else if rank != 0 {
            Err(TpsError::WrongRankCount)
        } else {
            Ok((towers, s.skip(1)))
        }
    } else {
        Err(TpsError::IllegalChar)
    }
}

/// The number that decimal digits stand for.
pub open spec fn digits_value(s: Seq<u8>) -> nat
    decreases s.len(),
{
    if s.len() == 0 {
        0
    } else {
        digits_value(s.drop_last()) * 10 + (s.last() - 48) as nat
    }
}

/// Whether `s` is made of one to five decimal digits.
pub open spec fn is_number(s: Seq<u8>) -> bool {
    &&& 1 <= s.len() <= 5
    &&& forall|i: int| 0 <= i < s.len() ==> 48 <= #[trigger] s[i] <= 57
}

/// The number of the move that the text after the side to move gives:
/// 1 where there is none.
pub open spec fn move_number(s: Seq<u8>) -> Option<nat> {
    if s.len() == 0 {
        Some(1nat)
    } else if s[0] != 32 || !is_number(s.skip(1)) {
        None
    } else {
        Some(digits_value(s.skip(1)))
    }
}

/// The board without pieces.
pub open spec fn no_towers() -> Seq<Tower> {
    Seq::new(36, |i: int| Tower::empty())
}

/// The position that a text stands for, or why it stands for none.
///
/// The text is the six ranks from the sixth to the first with `/` between
/// them, a space, the side to move, and after another space possibly the
/// number of the move. A rank is groups with `,` between them that make
/// up six squares; a group is `x` for an empty square, `x` and a digit for
/// up to six of them, or a stack: the owners of its pieces, `1` or `2`,
/// from the bottom up, and then `S` where its top is a wall and `C` where
/// it is a capstone. The reserves are what the board leaves of 30 flats and
/// one capstone for each player.
pub open spec fn tps_parse(s: Seq<u8>) -> Result<Board, TpsError> {
    match scan(s, 5, 0, no_towers()) {
        Err(e) => Err(e),
        Ok((towers, rest)) => {
            if rest.len() == 0 {
                Err(TpsError::BlankField)
            } else if rest[0] != 49 && rest[0] != 50 {
                Err(TpsError::BadSideToMove)
            } else {
                let stm = if rest[0] == 49 {
                    Player::P1
                } else {
                    Player::P2
                };
                match move_number(rest.skip(1)) {
                    None => Err(TpsError::BadMoveNumber),
                    Some(n) => {
                        if n < 1 || n > 32768 {
                            Err(TpsError::BadMoveNumber)
                        } else if stones_on_board(towers, Player::P1) > 30 || stones_on_board(
                            towers,
                            Player::P2,
                        ) > 30 || capstones_on_board(towers, Player::P1) > 1 || capstones_on_board(
                            towers,
                            Player::P2,
                        ) > 1 {
                            Err(TpsError::TooManyPieces)
                        } else {
                            Ok(
                                Board {
                                    towers,
                                    stm,
                                    ply: ((n - 1) * 2 + stm.index()) as nat,
                                    hand1: Hand {
                                        flats: (30 - stones_on_board(towers, Player::P1)) as nat,
                                        caps: (1 - capstones_on_board(towers, Player::P1)) as nat,
                                    },
                                    hand2: Hand {
                                        flats: (30 - stones_on_board(towers, Player::P2)) as nat,
                                        caps: (1 - capstones_on_board(towers, Player::P2)) as nat,
                                    },
                                },
                            )
                        }
                    },
                }
            }
        },
    }
}

/// Whether square `i` comes before `file` of `rank` in the text.
pub open spec fn read_before(i: int, rank: int, file: int) -> bool {
    i / 6 > rank || (i / 6 == rank && i % 6 < file)
}

/// The towers of `towers` on the squares that come before `file` of
/// `rank` in the text, and empty squares else.
pub open spec fn read_so_far(towers: Seq<Tower>, rank: int, file: int) -> Seq<Tower> {
    Seq::new(
        36,
        |i: int|
            if read_before(i, rank, file) {
                towers[i]
            } else {
                Tower::empty()
            },
    )
}

/// Digits of owners are read as that many owners.
proof fn lemma_owner_run(owners: Seq<Player>, tail: Seq<u8>)
    requires
        tail.len() == 0 || (tail[0] != 49 && tail[0] != 50),
    ensures
        owner_run(Seq::new(owners.len(), |i: int| owner_digit(owners[i])) + tail)
            == owners.len(),
    decreases owners.len(),
{
    let digits = Seq::new(owners.len(), |i: int| owner_digit(owners[i]));
    let s = digits + tail;
    if owners.len() == 0 {
        assert(s =~= tail);
    } else {
        let rest = owners.skip(1);
        let rest_digits = Seq::new(rest.len(), |i: int| owner_digit(rest[i]));
        assert(s.skip(1) =~= rest_digits + tail);
        lemma_owner_run(rest, tail);
        assert(s[0] == owner_digit(owners[0]));
    }
}

/// The text of a stack, before a separator, is read as the stack.
proof fn lemma_stack(t: Tower, tail: Seq<u8>)
    requires
        t.wf(),
        t.top is Some,
        tail.len() > 0,
        tail[0] == 44 || tail[0] == 47 || tail[0] == 32,
    ensures
        ({
            let s = tower_text(t) + tail;
            let n = owner_run(s);
            &&& n == t.owners.len()
            &&& s[0] == 49 || s[0] == 50
            &&& stack_of(s, n) == t
            &&& stack_len(s, n) == tower_text(t).len()
            &&& s.skip(stack_len(s, n) as int) == tail
        }),
{
    let digits = Seq::new(t.owners.len(), |i: int| owner_digit(t.owners[i]));
    let mark = match t.top {
        Some(PieceType::Wall) => seq![83u8],
        Some(PieceType::Capstone) => seq![67u8],
        _ => Seq::<u8>::empty(),
    };
    let s = tower_text(t) + tail;
    assert(s =~= digits + (mark + tail));
    lemma_owner_run(t.owners, mark + tail);
    let n = owner_run(s);
    assert(stack_of(s, n).owners =~= t.owners);
    assert(s.skip(stack_len(s, n) as int) =~= tail);
    assert(s[0] == owner_digit(t.owners[0]));
}

/// The empty squares in a row end with the rank.
proof fn lemma_empty_run(towers: Seq<Tower>, rank: int, file: int)
    requires
        0 <= file <= 6,
    ensures
        empty_run(towers, rank, file) <= 6 - file,
        forall|k: int|
            file <= k < file + empty_run(towers, rank, file) ==> (#[trigger] towers[rank * 6
                + k]).top is None,
    decreases 6 - file,
{
    if file < 6 && towers[rank * 6 + file].top is None {
        lemma_empty_run(towers, rank, file + 1);
    }
}

/// The group that starts on `file` of `rank`, before a separator, is read
/// as the towers of its squares.
#[verifier::rlimit(30)]
proof fn lemma_scan_group(towers: Seq<Tower>, rank: int, file: int, next: Seq<u8>)
    requires
        0 <= rank <= 5,
        0 <= file < 6,
        towers.len() == 36,
        forall|i: int| 0 <= i < 36 ==> (#[trigger] towers[i]).wf() && towers[i].size() <= 62,
        next.len() > 0,
        next[0] == 44 || next[0] == 47 || next[0] == 32,
    ensures
        1 <= group_width(towers, rank, file) <= 6 - file,
        scan(
            group_text(towers, rank, file) + next,
            rank,
            file,
            read_so_far(towers, rank, file),
        ) == after_group(
            next,
            rank,
            file + group_width(towers, rank, file),
            read_so_far(towers, rank, file + group_width(towers, rank, file)),
        ),
{
    let sq = rank * 6 + file;
    let t = towers[sq];
    let acc = read_so_far(towers, rank, file);
    let w = group_width(towers, rank, file);
    let group = group_text(towers, rank, file);
    let whole = group + next;
    let after = read_so_far(towers, rank, file + w);
    lemma_empty_run(towers, rank, file);
    assert(t.wf());
    if t.top is None {
        assert(acc =~= after) by {
            assert forall|i: int| 0 <= i < 36 implies acc[i] == after[i] by {
                if read_before(i, rank, file + w) && !read_before(i, rank, file) {
                    assert(i == rank * 6 + i % 6);
                    assert(towers[rank * 6 + i % 6].top is None);
                    assert(towers[i].wf());
                    assert(towers[i].owners =~= Seq::<Player>::empty());
                }
            }
        }
        if w > 1 {
            assert(whole[0] == 120 && whole[1] == (48 + w) as u8);
            assert(whole.skip(2) =~= next);
        } else {
            assert(whole[0] == 120);
            assert(whole[1] == next[0]);
            assert(whole.skip(1) =~= next);
        }
    } else {
        lemma_stack(t, next);
        assert(acc.update(sq, t) =~= after) by {
            assert forall|i: int| 0 <= i < 36 implies acc.update(sq, t)[i] == after[i] by {
                if i == sq {
                    assert(read_before(i, rank, file + 1));
                }
            }
        }
    }
}

/// The text of a rank from `file` on is read as the towers of the rank.
#[verifier::rlimit(30)]
proof fn lemma_scan_rank(towers: Seq<Tower>, rank: int, file: int, rest: Seq<u8>)
    requires
        0 <= rank <= 5,
        0 <= file < 6,
        towers.len() == 36,
        forall|i: int| 0 <= i < 36 ==> (#[trigger] towers[i]).wf() && towers[i].size() <= 62,
        rest.len() > 0,
        rest[0] == 47 || rest[0] == 32,
    ensures
        scan(rank_text(towers, rank, file) + rest, rank, file, read_so_far(towers, rank, file))
            == after_group(rest, rank, 6, read_so_far(towers, rank, 6)),
    decreases 6 - file,
{
    let w = group_width(towers, rank, file);
    let group = group_text(towers, rank, file);
    let whole = rank_text(towers, rank, file) + rest;
    lemma_empty_run(towers, rank, file);
    if file + w < 6 && w >= 1 {
        let tail = rank_text(towers, rank, file + w) + rest;
        let next = seq![44u8] + tail;
        assert(whole =~= group + next);
        lemma_scan_group(towers, rank, file, next);
        assert(next.skip(1) =~= tail);
        lemma_scan_rank(towers, rank, file + w, rest);
    } else {
        assert(whole =~= group + rest);
        lemma_scan_group(towers, rank, file, rest);
    }
}

/// The text of the ranks from `rank` down is read as the towers of the ranks.
proof fn lemma_scan_board(towers: Seq<Tower>, rank: int, rest: Seq<u8>)
    requires
        0 <= rank <= 5,
        towers.len() == 36,
        forall|i: int| 0 <= i < 36 ==> (#[trigger] towers[i]).wf() && towers[i].size() <= 62,
    ensures
        scan(
            board_text(towers, rank) + seq![32u8] + rest,
            rank,
            0,
            read_so_far(towers, rank, 0),
        ) == Ok::<(Seq<Tower>, Seq<u8>), TpsError>((towers, rest)),
    decreases rank,
{
    let whole = board_text(towers, rank) + seq![32u8] + rest;
    if rank == 0 {
        let tail = seq![32u8] + rest;
        assert(whole =~= rank_text(towers, 0, 0) + tail);
        lemma_scan_rank(towers, 0, 0, tail);
        assert(read_so_far(towers, 0, 6) =~= towers);
        assert(tail.skip(1) =~= rest);
    } else {
        let below = board_text(towers, rank - 1) + seq![32u8] + rest;
        let tail = seq![47u8] + below;
        assert(whole =~= rank_text(towers, rank, 0) + tail);
        lemma_scan_rank(towers, rank, 0, tail);
        assert(read_so_far(towers, rank, 6) =~= read_so_far(towers, rank - 1, 0));
        assert(tail.skip(1) =~= below);
        lemma_scan_board(towers, rank - 1, rest);
    }
}

/// The decimal digits of a number stand for the number.
proof fn lemma_decimal(n: nat)
    requires
        n < 100000,
    ensures
        digits_value(decimal(n)) == n,
        is_number(decimal(n)),
        n < 10 ==> decimal(n).len() == 1,
        10 <= n < 100 ==> decimal(n).len() == 2,
        100 <= n < 1000 ==> decimal(n).len() == 3,
        1000 <= n < 10000 ==> decimal(n).len() == 4,
        10000 <= n ==> decimal(n).len() == 5,
    decreases n,
{
    if n < 10 {
        let d = decimal(n);
        assert(d.drop_last().len() == 0);
        assert(digits_value(d.drop_last()) == 0);
    } else {
        lemma_decimal(n / 10);
        let d = decimal(n);
        assert(d.drop_last() =~= decimal(n / 10));
        assert forall|i: int| 0 <= i < d.len() implies 48 <= #[trigger] d[i] <= 57 by {
            if i < d.len() - 1 {
                assert(d[i] == decimal(n / 10)[i]);
            }
        }
    }
}

/// Reading the text of a position of a game gives the position back.
pub proof fn lemma_tps_round_trip(b: Board)
    requires
        b.wf(),
        b.ply <= 65535,
    ensures
        tps_parse(tps_text(b)) == Ok::<Board, TpsError>(b),
{
    let n = b.ply / 2 + 1;
    let side = seq![owner_digit(b.stm), 32u8] + decimal(n);
    let text = tps_text(b);
    b.lemma_piece_count(Player::P1);
    assert(text =~= board_text(b.towers, 5) + seq![32u8] + side);
    lemma_scan_board(b.towers, 5, side);
    assert(read_so_far(b.towers, 5, 0) =~= no_towers());
    lemma_decimal(n);
    assert(side.skip(1).skip(1) =~= decimal(n));
    assert(side.skip(1)[0] == 32);
    let parsed = tps_parse(text);
    assert(parsed is Ok);
    let p = parsed.unwrap();
    assert(p.towers == b.towers);
    assert(p.stm == b.stm);
    assert(p.ply == b.ply);
    assert(p.hand1 == b.hand1);
    assert(p.hand2 == b.hand2);
}


/// The pieces of `player` on the board: those that are no capstone, and
/// the capstones.
#[verifier::rlimit(30)]
fn count_pieces(pos: &Position, player: Player) -> (r: (u32, u32))
    requires
        pos.shape_ok(),
    ensures
        r.0 == stones_on_board(pos@.towers, player),
        r.1 == capstones_on_board(pos@.towers, player),
        r.0 <= 36 * 63,
        r.1 <= 36,
{
    let ghost towers = pos@.towers;
    let mut stones: u32 = 0;
    let mut caps: u32 = 0;
    let mut n: u8 = 0;
    proof {
        pos.lemma_towers();
    }
    while n < 36
        invariant
            n <= 36,
            pos.shape_ok(),
            towers == pos@.towers,
            towers.len() == 36,
            stones == tally(towers, |t: Tower| t.stones(player), n as nat),
            caps == tally(towers, |t: Tower| t.capstones(player), n as nat),
            stones <= 63 * n,
            caps <= n,
        decreases 36 - n,
    {
        let sq = match Square::from_raw(n) {
            Some(sq) => sq,
            None => Square::A1,
        };
        let stack = pos.stack_on(sq);
        let ghost t = stack@;
        proof {
            pos.lemma_towers();
            assert(towers[n as int].wf());
        }
        let h: u8 = stack.height();
        let mut own: u32 = 0;
        let mut i: u8 = 0;
        while i < h
            invariant
                i <= h,
                h == t.owners.len(),
                h <= 63,
                t == stack@,
                stack.wf(),
                own == count_owner(t.owners.take(i as int), player),
                own <= i,
            decreases h - i,
        {
            let owner = stack.owner(i);
            proof {
                let next = t.owners.take(i + 1);
                assert(next.drop_last() =~= t.owners.take(i as int));
                assert(next.last() == t.owners[i as int]);
            }
            match (owner, player) {
                (Player::P1, Player::P1) => {
                    own = own + 1;
                },
                (Player::P2, Player::P2) => {
                    own = own + 1;
                },
                _ => {},
            }
            i = i + 1;
        }
        proof {
            assert(t.owners.take(h as int) =~= t.owners);
        }
        let capped: bool = h > 0 && match stack.top() {
            Some(PieceType::Capstone) => match (stack.top_owner(), player) {
                (Player::P1, Player::P1) => true,
                (Player::P2, Player::P2) => true,
                _ => false,
            },
            _ => false,
        };
        assert(capped == t.topped_by(player, PieceType::Capstone));
        if capped {
            proof {
                crate::model::lemma_count_split(t.owners, t.owners.len() - 1, player);
                assert(t.owners.skip(t.owners.len() - 1).drop_last().len() == 0);
            }
            caps = caps + 1;
            stones = stones + (own - 1);
        } else {
            stones = stones + own;
        }
        n = n + 1;
    }
    (stones, caps)
}

impl Position {
    /// Reads the stack of `k` owners, and with the mark of its top piece
    /// `len` bytes, that begins at place `at` of `s`, and puts it on `sq`.
    #[verifier::rlimit(30)]
    fn read_stack(&mut self, s: &[u8], at: usize, k: usize, sq: Square)
        requires
            old(self).shape_ok(),
            old(self)@.towers[sq.index()] == Tower::empty(),
            1 <= k <= 62,
            at + k <= s@.len(),
            k == owner_run(s@.skip(at as int)),
        ensures
            final(self).shape_ok(),
            final(self)@ == (Board {
                towers: old(self)@.towers.update(sq.index(), stack_of(s@.skip(at as int), k as nat)),
                ..old(self)@
            }),
    {
        let ghost text = s@.skip(at as int);
        let ghost target = stack_of(text, k as nat);
        let ghost start = self@;
        let n: usize = s.len();
        let top: PieceType = if at + k < s.len() && s[at + k] == 83 {
            PieceType::Wall
        } else if at + k < s.len() && s[at + k] == 67 {
            PieceType::Capstone
        } else {
            PieceType::Flat
        };
        proof {
            self.lemma_towers();
            if at + k < s@.len() {
                assert(text[k as int] == s@[at + k]);
            }
            assert(target.top == Some(top));
            assert(target.owners.take(0) =~= Seq::<Player>::empty());
            assert(start.towers.update(sq.index(), Tower::empty()) =~= start.towers);
        }
        let mut j: usize = 0;
        while j < k
            invariant
                j <= k <= 62,
                at + k <= s@.len(),
                n == s@.len(),
                text == s@.skip(at as int),
                target == stack_of(text, k as nat),
                target.top == Some(top),
                start.towers.len() == 36,
                self.shape_ok(),
                self@ == (Board {
                    towers: start.towers.update(
                        sq.index(),
                        Tower {
                            owners: target.owners.take(j as int),
                            top: if j == 0 {
                                None
                            } else if j == k {
                                Some(top)
                            } else {
                                Some(PieceType::Flat)
                            },
                        },
                    ),
                    ..start
                }),
            decreases k - j,
        {
            let owner = if s[at + j] == 49 {
                Player::P1
            } else {
                Player::P2
            };
            let kind = if j + 1 == k {
                top
            } else {
                PieceType::Flat
            };
            proof {
                assert(text[j as int] == s@[at + j]);
                assert(target.owners[j as int] == owner);
                assert(target.owners.take(j + 1) =~= target.owners.take(j as int).push(owner));
            }
            let ghost before = self@.towers;
            self.put(sq, owner, kind);
            proof {
                assert(self@.towers =~= start.towers.update(
                    sq.index(),
                    Tower {
                        owners: target.owners.take(j + 1),
                        top: if j + 1 == k {
                            Some(top)
                        } else {
                            Some(PieceType::Flat)
                        },
                    },
                ));
            }
            j = j + 1;
        }
        proof {
            assert(target.owners.take(k as int) =~= target.owners);
            assert(start.towers.update(sq.index(), Tower::empty()) =~= start.towers);
        }
    }

    /// Reads the group that begins at place `at` of `s` and on `file` of
    /// `rank`; gives the place after the group and the file after its squares.
    #[verifier::rlimit(30)]
    fn read_group(&mut self, s: &[u8], at: usize, rank: u32, file: u32) -> (r: Result<
        (usize, u32),
        TpsError,
    >)
        requires
            old(self).shape_ok(),
            at <= s@.len(),
            rank <= 5,
            file < 6,
            forall|i: int|
                0 <= i < 36 && !read_before(i, rank as int, file as int) ==> #[trigger] old(
                    self,
                )@.towers[i] == Tower::empty(),
        ensures
            final(self).shape_ok(),
            match r {
                Ok((next, after)) => {
                    &&& at < next <= s@.len()
                    &&& file < after <= 12
                    &&& scan(s@.skip(at as int), rank as int, file as int, old(self)@.towers)
                        == after_group(
                        s@.skip(next as int),
                        rank as int,
                        after as int,
                        final(self)@.towers,
                    )
                    &&& forall|i: int|
                        0 <= i < 36 && !read_before(i, rank as int, after as int)
                            ==> #[trigger] final(self)@.towers[i] == Tower::empty()
                },
                Err(e) => scan(s@.skip(at as int), rank as int, file as int, old(self)@.towers)
                    == Err::<(Seq<Tower>, Seq<u8>), TpsError>(e),
            },
    {
        let n: usize = s.len();
        if at >= n {
            return Err(TpsError::BlankField);
        }
        let ghost text = s@.skip(at as int);
        let ghost held = self@.towers;
        let c: u8 = s[at];
        assert(text[0] == c);
        proof {
            self.lemma_towers();
        }
        if c == 120 {
            if at + 1 < n && 49 <= s[at + 1] && s[at + 1] <= 54 {
                assert(text[1] == s@[at + 1]);
                assert(text.skip(2) =~= s@.skip(at + 2));
                proof {
                    let after = file + (s@[at + 1] - 48);
                    assert forall|i: int| 0 <= i < 36 && !read_before(i, rank as int, after) implies
                        #[trigger] self@.towers[i] == Tower::empty() by {
                        assert(!read_before(i, rank as int, file as int));
                    }
                }
                Ok((at + 2, file + (s[at + 1] - 48) as u32))
            } else {
                proof {
                    if at + 1 < n {
                        assert(text[1] == s@[at + 1]);
                    }
                    assert(text.skip(1) =~= s@.skip(at + 1));
                    assert forall|i: int| 0 <= i < 36 && !read_before(i, rank as int, file + 1) implies
                        #[trigger] self@.towers[i] == Tower::empty() by {
                        assert(!read_before(i, rank as int, file as int));
                    }
                }
                Ok((at + 1, file + 1))
            }
        } else if c == 49 || c == 50 {
            let mut k: usize = 0;
            proof {
                assert(text.skip(0) =~= text);
            }
            while at + k < n && (s[at + k] == 49 || s[at + k] == 50)
                invariant
                    at + k <= n,
                    n == s@.len(),
                    text == s@.skip(at as int),
                    owner_run(text) == k + owner_run(text.skip(k as int)),
                decreases n - at - k,
            {
                proof {
                    let rest = text.skip(k as int);
                    assert(rest[0] == s@[at + k]);
                    assert(rest.skip(1) =~= text.skip(k + 1));
                }
                k = k + 1;
            }
            proof {
                let rest = text.skip(k as int);
                if at + k < n {
                    assert(rest[0] == s@[at + k]);
                }
                assert(owner_run(rest) == 0);
            }
            if k > 62 {
                return Err(TpsError::BadStack);
            }
            let sq = match Square::from_file_rank(file, rank) {
                Some(sq) => sq,
                None => Square::A1,
            };
            assert(!read_before(sq.index(), rank as int, file as int));
            self.read_stack(s, at, k, sq);
            let marked: bool = at + k < n && (s[at + k] == 83 || s[at + k] == 67);
            proof {
                if at + k < n {
                    assert(text[k as int] == s@[at + k]);
                }
            }
            let used: usize = if marked {
                k + 1
            } else {
                k
            };
            assert(used == stack_len(text, k as nat));
            assert(text.skip(used as int) =~= s@.skip(at + used));
            proof {
                assert forall|i: int| 0 <= i < 36 && !read_before(i, rank as int, file + 1) implies
                    #[trigger] self@.towers[i] == Tower::empty() by {
                    assert(i != sq.index());
                    assert(!read_before(i, rank as int, file as int));
                    assert(held[i] == Tower::empty());
                }
            }
            Ok((at + used, file + 1))
        } else {
            Err(TpsError::IllegalChar)
        }
    }

    /// Reads a position from its text.
    #[verifier::rlimit(30)]
    pub fn from_tps(s: &[u8]) -> (r: Result<Position, TpsError>)
        ensures
            match r {
                Ok(pos) => pos.wf() && tps_parse(s@) == Ok::<Board, TpsError>(pos@),
                Err(e) => tps_parse(s@) == Err::<Board, TpsError>(e),
            },
    {
        let n: usize = s.len();
        let mut pos = Position::startpos();
        let mut at: usize = 0;
        let mut rank: u32 = 5;
        let mut file: u32 = 0;
        let ghost whole = scan(s@, 5, 0, no_towers());
        proof {
            assert(s@.skip(0) =~= s@);
            assert(pos@.towers =~= no_towers());
        }
        loop
            invariant_except_break
                rank <= 5,
                file < 6,
                whole == scan(s@.skip(at as int), rank as int, file as int, pos@.towers),
                forall|i: int|
                    0 <= i < 36 && !read_before(i, rank as int, file as int)
                        ==> #[trigger] pos@.towers[i] == Tower::empty(),
            invariant
                n == s@.len(),
                at <= n,
                pos.shape_ok(),
                whole == scan(s@, 5, 0, no_towers()),
            ensures
                n == s@.len(),
                at <= n,
                pos.shape_ok(),
                whole == scan(s@, 5, 0, no_towers()),
                whole == Ok::<(Seq<Tower>, Seq<u8>), TpsError>((pos@.towers, s@.skip(at as int))),
            decreases n - at,
        {
            match pos.read_group(s, at, rank, file) {
                Ok((next, after)) => {
                    at = next;
                    file = after;
                },
                Err(e) => {
                    return Err(e);
                },
            }
            if file > 6 {
                return Err(TpsError::WrongFileCount);
            }
            if at >= n {
                return Err(TpsError::BlankField);
            }
            let ghost tail = s@.skip(at as int);
            let sep: u8 = s[at];
            assert(tail[0] == sep);
            assert(tail.skip(1) =~= s@.skip(at + 1));
            if sep == 44 {
                if file >= 6 {
                    return Err(TpsError::WrongFileCount);
                }
                at = at + 1;
            } else if sep == 47 {
                if file != 6 {
                    return Err(TpsError::WrongFileCount);
                }
                if rank == 0 {
                    return Err(TpsError::WrongRankCount);
                }
                rank = rank - 1;
                file = 0;
                at = at + 1;
            } else if sep == 32 {
                if file != 6 {
                    return Err(TpsError::WrongFileCount);
                }
                if rank != 0 {
                    return Err(TpsError::WrongRankCount);
                }
                at = at + 1;
                break ;
            } else {
                return Err(TpsError::IllegalChar);
            }
        }
        let side = Position::read_side(s, at);
        let (stm, number) = match side {
            Ok(pair) => pair,
            Err(e) => {
                return Err(e);
            },
        };
        let (stones1, caps1) = count_pieces(&pos, Player::P1);
        let (stones2, caps2) = count_pieces(&pos, Player::P2);
        if stones1 > 30 || stones2 > 30 || caps1 > 1 || caps2 > 1 {
            return Err(TpsError::TooManyPieces);
        }
        let ply: u32 = (number - 1) * 2 + match stm {
            Player::P1 => 0,
            Player::P2 => 1,
        };
        pos.set_state(
            stm,
            ply as u16,
            [(30 - stones1) as u8, (30 - stones2) as u8],
            [(1 - caps1) as u8, (1 - caps2) as u8],
        );
        proof {
            pos.lemma_towers();
        }
        Ok(pos)
    }

    /// Reads the side to move and the number of the move from place `begin`
    /// of `s` on.
    #[verifier::rlimit(30)]
    fn read_side(s: &[u8], begin: usize) -> (r: Result<(Player, u32), TpsError>)
        requires
            begin <= s@.len(),
        ensures
            match r {
                Ok((stm, number)) => {
                    let rest = s@.skip(begin as int);
                    &&& rest.len() > 0
                    &&& rest[0] == owner_digit(stm)
                    &&& move_number(rest.skip(1)) == Some(number as nat)
                    &&& 1 <= number <= 32768
                },
                Err(e) => {
                    let rest = s@.skip(begin as int);
                    &&& e == TpsError::BlankField ==> rest.len() == 0
                    &&& e == TpsError::BadSideToMove ==> rest.len() > 0 && rest[0] != 49 && rest[0]
                        != 50
                    &&& e == TpsError::BadMoveNumber ==> rest.len() > 0 && (rest[0] == 49 || rest[0]
                        == 50) && match move_number(rest.skip(1)) {
                        None => true,
                        Some(k) => k < 1 || k > 32768,
                    }
                    &&& e == TpsError::BlankField || e == TpsError::BadSideToMove || e
                        == TpsError::BadMoveNumber
                },
            },
    {
        let n: usize = s.len();
        let mut at: usize = begin;
        let ghost rest = s@.skip(begin as int);
        if at >= n {
            return Err(TpsError::BlankField);
        }
        assert(rest[0] == s@[at as int]);
        let stm = if s[at] == 49 {
            Player::P1
        } else if s[at] == 50 {
            Player::P2
        } else {
            return Err(TpsError::BadSideToMove);
        };
        at = at + 1;
        let ghost after = rest.skip(1);
        assert(after =~= s@.skip(at as int));
        let mut number: u32 = 1;
        if at < n {
            assert(after[0] == s@[at as int]);
            if s[at] != 32 {
                return Err(TpsError::BadMoveNumber);
            }
            at = at + 1;
            let ghost digits = after.skip(1);
            assert(digits =~= s@.skip(at as int));
            if n - at < 1 || n - at > 5 {
                return Err(TpsError::BadMoveNumber);
            }
            number = 0;
            let mut k: usize = at;
            while k < n
                invariant
                    at <= k <= n,
                    n == s@.len(),
                    n - at <= 5,
                    digits == s@.skip(at as int),
                    forall|i: int| 0 <= i < k - at ==> 48 <= #[trigger] digits[i] <= 57,
                    number == digits_value(digits.take(k - at)),
                    number < 100000,
                    k - at == 0 ==> number == 0,
                    k - at == 1 ==> number < 10,
                    k - at == 2 ==> number < 100,
                    k - at == 3 ==> number < 1000,
                    k - at == 4 ==> number < 10000,
                    begin <= n,
                    rest == s@.skip(begin as int),
                    rest.len() > 0,
                    rest[0] == 49 || rest[0] == 50,
                    after == rest.skip(1),
                    after.len() > 0,
                    after[0] == 32,
                    digits == after.skip(1),
                decreases n - k,
            {
                assert(digits[k - at] == s@[k as int]);
                if s[k] < 48 || s[k] > 57 {
                    assert(!is_number(digits));
                    return Err(TpsError::BadMoveNumber);
                }
                proof {
                    let upto = digits.take(k + 1 - at);
                    assert(upto.drop_last() =~= digits.take(k - at));
                    assert(upto.last() == s@[k as int]);
                }
                number = number * 10 + (s[k] - 48) as u32;
                k = k + 1;
            }
            proof {
                assert(digits.take(n - at) =~= digits);
                assert(is_number(digits));
            }
        }
        assert(move_number(after) == Some(number as nat));
        if number < 1 || number > 32768 {
            return Err(TpsError::BadMoveNumber);
        }
        Ok((stm, number))
    }

    /// Reads a position from its text.
    pub fn from_tps_str(s: &str) -> (r: Result<Position, TpsError>)
        ensures
            match r {
                Ok(pos) => pos.wf() && tps_parse(s.spec_bytes()) == Ok::<Board, TpsError>(pos@),
                Err(e) => tps_parse(s.spec_bytes()) == Err::<Board, TpsError>(e),
            },
    {
        Position::from_tps(s.as_bytes())
    }
}


/// Reading the text of a position gives the position back: where `text`
/// is what `tps_bytes` gives for `pos` and `read` is what `from_tps` gives
/// for `text`, `read` is `pos`.
pub proof fn lemma_position_round_trip(pos: Position, text: Seq<u8>, read: Result<
    Position,
    TpsError,
>)
    requires
        pos.wf(),
        text == tps_text(pos@),
        match read {
            Ok(p) => p.wf() && tps_parse(text) == Ok::<Board, TpsError>(p@),
            Err(e) => tps_parse(text) == Err::<Board, TpsError>(e),
        },
    ensures
        read == Ok::<Position, TpsError>(pos),
{
    pos.lemma_ply();
    lemma_tps_round_trip(pos@);
    match read {
        Ok(p) => {
            p.lemma_view_eq(pos);
        },
        Err(e) => {},
    }
}

} // verus!
