//! The lines in which the engine reports a search.

use crate::search::{all_valid, mate_distance, mate_in, SearchInfo};
use crate::takmove::Move;
use crate::thread::SCORE_INF;
use crate::tps::{decimal, push_decimal};
use vstd::prelude::*;
use vstd::string::StringSliceAdditionalSpecFns;

verus! {

/// A number in decimal digits, with a minus sign where it is negative.
pub open spec fn signed_decimal(n: int) -> Seq<u8> {
    if n < 0 {
        seq![45u8] + decimal((-n) as nat)
    } else {
        decimal(n as nat)
    }
}

/// The nodes searched in a second, where `nodes` were searched in `ms`
/// milliseconds; in less than a millisecond, a thousand times the nodes.
pub open spec fn nodes_per_second(nodes: nat, ms: nat) -> nat {
    if ms == 0 {
        nodes * 1000
    } else {
        nodes * 1000 / ms
    }
}

/// A score in a report: `mate` and the number of moves to the end of the
/// game where the score says how far away that is, else `cp` and the score.
pub open spec fn score_text(score: int) -> Seq<u8> {
    if -SCORE_INF < score <= SCORE_INF && mate_distance(score) is Some {
        "mate ".spec_bytes() + signed_decimal(mate_distance(score).unwrap())
    } else {
        "cp ".spec_bytes() + signed_decimal(score)
    }
}

/// The moves of a line, a space before each.
pub open spec fn line_text(moves: Seq<Move>) -> Seq<u8>
    decreases moves.len(),
{
    if moves.len() == 0 {
        Seq::empty()
    } else {
        line_text(moves.drop_last()) + seq![32u8] + moves.last().text()
    }
}

/// The report of a depth.
pub open spec fn info_text(info: SearchInfo) -> Seq<u8> {
    "info depth ".spec_bytes() + signed_decimal(info.depth as int) + " seldepth ".spec_bytes()
        + signed_decimal(info.seldepth as int) + " time ".spec_bytes() + decimal(
        info.time_ms as nat,
    ) + " nodes ".spec_bytes() + decimal(info.nodes as nat) + " nps ".spec_bytes() + decimal(
        nodes_per_second(info.nodes as nat, info.time_ms as nat),
    ) + " score ".spec_bytes() + score_text(info.score as int) + " hashfull ".spec_bytes()
        + decimal(info.hashfull as nat) + " pv".spec_bytes() + line_text(info.pv@)
}

/// The line that names the move chosen.
pub open spec fn bestmove_text(mv: Move) -> Seq<u8> {
    "bestmove ".spec_bytes() + mv.text()
}

/// Appends a text.
fn push_str(out: &mut Vec<u8>, text: &str)
    ensures
        final(out)@ == old(out)@ + text.spec_bytes(),
{
    let bytes = text.as_bytes();
    let mut i: usize = 0;
    while i < bytes.len()
        invariant
            i <= bytes@.len(),
            out@ == old(out)@ + bytes@.take(i as int),
        decreases bytes@.len() - i,
    {
        out.push(bytes[i]);
        proof {
            assert(bytes@.take(i + 1) =~= bytes@.take(i as int).push(bytes@[i as int]));
        }
        i = i + 1;
    }
    proof {
        assert(bytes@.take(bytes@.len() as int) =~= bytes@);
    }
}

/// Appends a number in decimal digits, with its sign.
fn push_signed(out: &mut Vec<u8>, n: i32)
    ensures
        final(out)@ == old(out)@ + signed_decimal(n as int),
{
    if n < 0 {
        out.push(45);
        let ghost held = out@;
        push_decimal(out, (-(n as i64)) as u128);
        proof {
            assert(out@ =~= old(out)@ + (seq![45u8] + decimal((-n) as nat)));
        }
    } else {
        push_decimal(out, n as u128);
    }
}

/// Appends the bytes of `more`.
fn push_bytes(out: &mut Vec<u8>, more: &Vec<u8>)
    ensures
        final(out)@ == old(out)@ + more@,
{
    let mut i: usize = 0;
    while i < more.len()
        invariant
            i <= more@.len(),
            out@ == old(out)@ + more@.take(i as int),
        decreases more@.len() - i,
    {
        out.push(more[i]);
        proof {
            assert(more@.take(i + 1) =~= more@.take(i as int).push(more@[i as int]));
        }
        i = i + 1;
    }
    proof {
        assert(more@.take(more@.len() as int) =~= more@);
    }
}

/// The report of a depth, as the bytes of a line without its end.
pub fn info_line(info: &SearchInfo) -> (r: Vec<u8>)
    requires
        all_valid(info.pv@),
    ensures
        r@ == info_text(*info),
{
    let mut out: Vec<u8> = Vec::new();
    push_str(&mut out, "info depth ");
    push_signed(&mut out, info.depth);
    push_str(&mut out, " seldepth ");
    push_signed(&mut out, info.seldepth);
    push_str(&mut out, " time ");
    push_decimal(&mut out, info.time_ms);
    push_str(&mut out, " nodes ");
    push_decimal(&mut out, info.nodes as u128);
    push_str(&mut out, " nps ");
    let nps: u128 = if info.time_ms == 0 {
        (info.nodes as u128) * 1000
    } else {
        (info.nodes as u128) * 1000 / info.time_ms
    };
    push_decimal(&mut out, nps);
    push_str(&mut out, " score ");
    let ghost before_score = out@;
    let mate = if info.score > -SCORE_INF && info.score <= SCORE_INF {
        mate_in(info.score)
    } else {
        None
    };
    match mate {
        Some(n) => {
            push_str(&mut out, "mate ");
            push_signed(&mut out, n);
        },
        None => {
            push_str(&mut out, "cp ");
            push_signed(&mut out, info.score);
        },
    }
    proof {
        assert(out@ =~= before_score + score_text(info.score as int));
    }
    push_str(&mut out, " hashfull ");
    push_decimal(&mut out, info.hashfull as u128);
    push_str(&mut out, " pv");
    let ghost head = out@;
    let mut i: usize = 0;
    while i < info.pv.len()
        invariant
            i <= info.pv@.len(),
            all_valid(info.pv@),
            out@ == head + line_text(info.pv@.take(i as int)),
        decreases info.pv@.len() - i,
    {
        let ghost held = out@;
        out.push(32);
        let text = info.pv[i].to_bytes();
        push_bytes(&mut out, &text);
        proof {
            let upto = info.pv@.take(i + 1);
            assert(upto.drop_last() =~= info.pv@.take(i as int));
            assert(upto.last() == info.pv@[i as int]);
            assert(out@ =~= head + line_text(upto));
        }
        i = i + 1;
    }
    proof {
        assert(info.pv@.take(info.pv@.len() as int) =~= info.pv@);
        assert(out@ =~= info_text(*info));
    }
    out
}

/// The line that names the move chosen, as bytes.
pub fn bestmove_line(mv: Move) -> (r: Vec<u8>)
    requires
        mv.valid(),
    ensures
        r@ == bestmove_text(mv),
{
    let mut out: Vec<u8> = Vec::new();
    push_str(&mut out, "bestmove ");
    let text = mv.to_bytes();
    push_bytes(&mut out, &text);
    out
}

} // verus!
