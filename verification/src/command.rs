//! The position that the words of a `position` command ask for.

use crate::board::Position;
use crate::model::Board;
use crate::notation::MoveStrError;
use crate::takmove::Move;
use crate::tpsparse::{tps_parse, TpsError};
use vstd::prelude::*;
use vstd::string::StringSliceAdditionalSpecFns;

verus! {

/// Why the words of a `position` command give no position.
#[derive(Copy, Clone, PartialEq, Eq, Structural, Debug)]
pub enum PositionError {
    /// There are no words.
    Empty,
    /// The first word is neither `startpos` nor `tps`.
    InvalidKind,
    /// Nothing follows `tps`.
    MissingTps,
    /// What follows `tps` is no position.
    BadTps(TpsError),
    /// The move with the given number, counted from 0, is no move.
    BadMove(usize, MoveStrError),
    /// The move with the given number, counted from 0, may not be played.
    IllegalMove(usize),
    /// The game is longer than 65535 plies.
    TooLong,
}

/// The words with one space between each two.
pub open spec fn joined(words: Seq<Seq<u8>>) -> Seq<u8>
    decreases words.len(),
{
    if words.len() == 0 {
        Seq::empty()
    } else if words.len() == 1 {
        words[0]
    } else {
        joined(words.drop_last()) + seq![32u8] + words.last()
    }
}

/// The number of words before the first that is `moves`, or of all words.
pub open spec fn words_before_moves(words: Seq<Seq<u8>>) -> nat
    decreases words.len(),
{
    if words.len() == 0 || words[0] == "moves".spec_bytes() {
        0
    } else {
        1 + words_before_moves(words.skip(1))
    }
}

/// The position after the move that `word` stands for, the move with
/// number `i`, was played from `b`.
#[verifier::opaque]
pub open spec fn played_one(b: Board, word: Seq<u8>, i: int) -> Result<Board, PositionError> {
    match Move::parse(word) {
        Err(e) => Err(PositionError::BadMove(i as usize, e)),
        Ok(mv) => if !b.legal(mv) {
            Err(PositionError::IllegalMove(i as usize))
        } else if b.ply >= 65535 {
            Err(PositionError::TooLong)
        } else {
            Ok(b.play(mv))
        },
    }
}

/// The position after the moves from number `i` on were played from `b`,
/// and the keys of the positions from which they were played, after `keys`.
pub open spec fn played(b: Board, keys: Seq<u64>, moves: Seq<Seq<u8>>, i: int) -> Result<
    (Board, Seq<u64>),
    PositionError,
>
    decreases moves.len() - i,
{
    if i < 0 || i >= moves.len() {
        Ok((b, keys))
    } else {
        match played_one(b, moves[i], i) {
            Err(e) => Err(e),
            Ok(next) => played(next, keys.push(b.key()), moves, i + 1),
        }
    }
}

/// The position from which the moves of the words are played, and the
/// number of words after the first that tell the position: `startpos`,
/// or `tps` and the words of a position.
pub open spec fn start_of(words: Seq<Seq<u8>>) -> Result<(Board, nat), PositionError> {
    if words.len() == 0 {
        Err(PositionError::Empty)
    } else if words[0] == "startpos".spec_bytes() {
        Ok((Board::start(), 0nat))
    } else if words[0] == "tps".spec_bytes() {
        let count = words_before_moves(words.skip(1));
        if count == 0 {
            Err(PositionError::MissingTps)
        } else {
            match tps_parse(joined(words.skip(1).take(count as int))) {
                Ok(b) => Ok((b, count)),
                Err(e) => Err(PositionError::BadTps(e)),
            }
        }
    } else {
        Err(PositionError::InvalidKind)
    }
}

/// The position that the words ask for, and the keys of the positions
/// that led to it: the position that the first words tell, and then
/// possibly `moves` and the moves to play from there.
pub open spec fn position_of(words: Seq<Seq<u8>>) -> Result<(Board, Seq<u64>), PositionError> {
    match start_of(words) {
        Err(e) => Err(e),
        Ok((b, count)) => {
            let rest = words.skip(1);
            if count >= rest.len() || rest[count as int] != "moves".spec_bytes() {
                Ok((b, Seq::<u64>::empty()))
            } else {
                played(b, Seq::<u64>::empty(), rest.skip(count as int + 1), 0)
            }
        },
    }
}

/// Whether the word is the given text.
fn is_word(word: &Vec<u8>, text: &str) -> (r: bool)
    ensures
        r == (word@ == text.spec_bytes()),
{
    let bytes = text.as_bytes();
    if word.len() != bytes.len() {
        return false;
    }
    let mut i: usize = 0;
    while i < word.len()
        invariant
            i <= word@.len(),
            word@.len() == bytes@.len(),
            bytes@ == text.spec_bytes(),
            forall|k: int| 0 <= k < i ==> word@[k] == bytes@[k],
        decreases word@.len() - i,
    {
        if word[i] != bytes[i] {
            return false;
        }
        i = i + 1;
    }
    assert(word@ =~= bytes@);
    true
}

/// The words from place `from` up to place `to`, with one space between
/// each two.
#[verifier::rlimit(30)]
fn join_words(words: &Vec<Vec<u8>>, from: usize, to: usize) -> (r: Vec<u8>)
    requires
        from <= to <= words@.len(),
    ensures
        r@ == joined(Seq::new((to - from) as nat, |i: int| words@[from + i]@)),
{
    let ghost all = Seq::new((to - from) as nat, |i: int| words@[from + i]@);
    let mut out: Vec<u8> = Vec::new();
    let mut k: usize = from;
    proof {
        assert(all.take(0) =~= Seq::<Seq<u8>>::empty());
    }
    while k < to
        invariant
            from <= k <= to <= words@.len(),
            all == Seq::new((to - from) as nat, |i: int| words@[from + i]@),
            out@ == joined(all.take(k - from)),
        decreases to - k,
    {
        let ghost before = out@;
        if k > from {
            out.push(32);
        }
        let word = &words[k];
        let ghost spaced = out@;
        let mut i: usize = 0;
        while i < word.len()
            invariant
                i <= word@.len(),
                out@ == spaced + word@.take(i as int),
            decreases word@.len() - i,
        {
            out.push(word[i]);
            proof {
                assert(word@.take(i + 1) =~= word@.take(i as int).push(word@[i as int]));
            }
            i = i + 1;
        }
        proof {
            assert(word@.take(word@.len() as int) =~= word@);
            let upto = all.take(k + 1 - from);
            assert(upto.drop_last() =~= all.take(k - from));
            assert(upto.last() == word@);
            if k == from {
                assert(out@ =~= word@);
            }
        }
        k = k + 1;
    }
    proof {
        assert(all.take(to - from) =~= all);
    }
    out
}

/// The position after the move that `word` stands for, the move with
/// number `i`, was played from `pos`.
fn play_word(pos: &Position, word: &Vec<u8>, i: usize) -> (r: Result<Position, PositionError>)
    requires
        pos.wf(),
    ensures
        match r {
            Ok(next) => next.wf() && played_one(pos@, word@, i as int) == Ok::<
                Board,
                PositionError,
            >(next@),
            Err(e) => played_one(pos@, word@, i as int) == Err::<Board, PositionError>(e),
        },
{
    reveal(played_one);
    let mv = match Move::from_bytes(word.as_slice()) {
        Ok(mv) => mv,
        Err(e) => {
            return Err(PositionError::BadMove(i, e));
        },
    };
    if !pos.is_legal(mv) {
        return Err(PositionError::IllegalMove(i));
    }
    if pos.ply() == u16::MAX {
        return Err(PositionError::TooLong);
    }
    Ok(pos.apply_move(mv))
}

/// The position from which the moves of the words are played, and the
/// place of the first word after those that tell the position.
#[verifier::rlimit(30)]
fn read_start(words: &Vec<Vec<u8>>) -> (r: Result<(Position, usize), PositionError>)
    ensures
        match r {
            Ok((pos, next)) => pos.wf() && 1 <= next <= words@.len() && start_of(
                Seq::new(words@.len(), |i: int| words@[i]@),
            ) == Ok::<(Board, nat), PositionError>((pos@, (next - 1) as nat)),
            Err(e) => start_of(Seq::new(words@.len(), |i: int| words@[i]@)) == Err::<
                (Board, nat),
                PositionError,
            >(e),
        },
{
    let ghost all = Seq::new(words@.len(), |i: int| words@[i]@);
    if words.len() == 0 {
        return Err(PositionError::Empty);
    }
    if is_word(&words[0], "startpos") {
        return Ok((Position::startpos(), 1));
    }
    if !is_word(&words[0], "tps") {
        return Err(PositionError::InvalidKind);
    }
    let ghost rest = all.skip(1);
    let mut next: usize = 1;
    proof {
        assert(rest.skip(0) =~= rest);
    }
    while next < words.len() && !is_word(&words[next], "moves")
        invariant
            1 <= next <= words@.len(),
            all == Seq::new(words@.len(), |i: int| words@[i]@),
            rest == all.skip(1),
            words_before_moves(rest) == (next - 1) + words_before_moves(rest.skip(next - 1)),
        decreases words@.len() - next,
    {
        proof {
            let tail = rest.skip(next - 1);
            assert(tail[0] == words@[next as int]@);
            assert(tail.skip(1) =~= rest.skip(next as int));
        }
        next = next + 1;
    }
    proof {
        let tail = rest.skip(next - 1);
        if next < words@.len() {
            assert(tail[0] == words@[next as int]@);
        }
        assert(words_before_moves(tail) == 0);
    }
    if next == 1 {
        return Err(PositionError::MissingTps);
    }
    let text = join_words(words, 1, next);
    proof {
        assert(Seq::new((next - 1) as nat, |i: int| words@[1 + i]@) =~= rest.take(next - 1));
    }
    match Position::from_tps(text.as_slice()) {
        Ok(pos) => Ok((pos, next)),
        Err(e) => Err(PositionError::BadTps(e)),
    }
}

/// The position that the words of a `position` command ask for, and
/// the keys of the positions that led to it.
#[verifier::rlimit(30)]
pub fn set_position(words: &Vec<Vec<u8>>) -> (r: Result<(Position, Vec<u64>), PositionError>)
    ensures
        match r {
            Ok((pos, keys)) => pos.wf() && position_of(Seq::new(words@.len(), |i: int| words@[i]@))
                == Ok::<(Board, Seq<u64>), PositionError>((pos@, keys@)),
            Err(e) => position_of(Seq::new(words@.len(), |i: int| words@[i]@)) == Err::<
                (Board, Seq<u64>),
                PositionError,
            >(e),
        },
{
    let ghost all = Seq::new(words@.len(), |i: int| words@[i]@);
    let (pos, next) = match read_start(words) {
        Ok(pair) => pair,
        Err(e) => {
            return Err(e);
        },
    };
    let ghost rest = all.skip(1);
    let ghost count = (next - 1) as nat;
    if next >= words.len() || !is_word(&words[next], "moves") {
        proof {
            if next < words@.len() {
                assert(rest[count as int] == words@[next as int]@);
            }
        }
        return Ok((pos, Vec::new()));
    }
    proof {
        assert(rest[count as int] == words@[next as int]@);
    }
    let first: usize = next + 1;
    proof {
        assert(Seq::new((words@.len() - first) as nat, |k: int| words@[first + k]@) =~= rest.skip(
            count as int + 1,
        ));
    }
    play_words(pos, words, first)
}

/// The position after the moves that the words from place `first` on
/// stand for were played from `pos`, and the keys of the positions from
/// which they were played.
#[verifier::rlimit(30)]
fn play_words(pos: Position, words: &Vec<Vec<u8>>, first: usize) -> (r: Result<
    (Position, Vec<u64>),
    PositionError,
>)
    requires
        pos.wf(),
        first <= words@.len(),
    ensures
        match r {
            Ok((end, keys)) => end.wf() && played(
                pos@,
                Seq::<u64>::empty(),
                Seq::new((words@.len() - first) as nat, |k: int| words@[first + k]@),
                0,
            ) == Ok::<(Board, Seq<u64>), PositionError>((end@, keys@)),
            Err(e) => played(
                pos@,
                Seq::<u64>::empty(),
                Seq::new((words@.len() - first) as nat, |k: int| words@[first + k]@),
                0,
            ) == Err::<(Board, Seq<u64>), PositionError>(e),
        },
{
    let ghost moves = Seq::new((words@.len() - first) as nat, |k: int| words@[first + k]@);
    let ghost target = played(pos@, Seq::<u64>::empty(), moves, 0);
    let mut cur = pos;
    let mut keys: Vec<u64> = Vec::new();
    let mut i: usize = first;
    while i < words.len()
        invariant
            first <= i <= words@.len(),
            moves == Seq::new((words@.len() - first) as nat, |k: int| words@[first + k]@),
            target == played(pos@, Seq::<u64>::empty(), moves, 0),
            cur.wf(),
            target == played(cur@, keys@, moves, i - first),
        decreases words@.len() - i,
    {
        proof {
            assert(moves[i - first] == words@[i as int]@);
        }
        let next = match play_word(&cur, &words[i], i - first) {
            Ok(next) => next,
            Err(e) => {
                proof {
                    assert(played(cur@, keys@, moves, i - first) == Err::<
                        (Board, Seq<u64>),
                        PositionError,
                    >(e));
                }
                return Err(e);
            },
        };
        keys.push(cur.key());
        cur = next;
        i = i + 1;
    }
    Ok((cur, keys))
}

} // verus!
