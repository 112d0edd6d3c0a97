//! Principal variations: the best line of play found, held in a list of
//! bounded length.

use crate::takmove::Move;
use vstd::prelude::*;

verus! {

/// The longest line that a principal variation holds.
pub const MAX_PV: usize = 255;

/// `arrayvec::ArrayVec`, a list of at most `CAP` items that lies where it
/// is declared: nothing is known of what is inside but through the
/// functions below.
#[verifier::external_type_specification]
#[verifier::external_body]
#[verifier::reject_recursive_types(T)]
pub struct ExArrayVec<T, const CAP: usize>(arrayvec::ArrayVec<T, CAP>);

/// A principal variation.
pub type PvList = arrayvec::ArrayVec<Move, 255>;

/// The moves that a principal variation holds, first move first.
pub uninterp spec fn pv_moves(pv: arrayvec::ArrayVec<Move, 255>) -> Seq<Move>;

/// `ArrayVec::new`: a list that holds nothing.
#[verifier::external_body]
pub(crate) fn pv_new() -> (r: PvList)
    ensures
        pv_moves(r) == Seq::<Move>::empty(),
{
    arrayvec::ArrayVec::new()
}

/// `ArrayVec::len`: the number of items held, which is never more than
/// the capacity that the list was made with.
#[verifier::external_body]
pub(crate) fn pv_len(pv: &PvList) -> (r: usize)
    ensures
        r == pv_moves(*pv).len(),
        r <= 255,
{
    pv.len()
}

/// `ArrayVec::clear`: takes every item out.
#[verifier::external_body]
pub(crate) fn pv_clear(pv: &mut PvList)
    ensures
        pv_moves(*final(pv)) == Seq::<Move>::empty(),
{
    pv.clear()
}

/// `ArrayVec::push`: puts an item at the end of a list that is not full.
#[verifier::external_body]
pub(crate) fn pv_push(pv: &mut PvList, mv: Move)
    requires
        pv_moves(*old(pv)).len() < 255,
    ensures
        pv_moves(*final(pv)) == pv_moves(*old(pv)).push(mv),
{
    pv.push(mv)
}

/// `ArrayVec::try_extend_from_slice`: puts the items of `child` at the
/// end where all of them fit, and changes nothing where they do not.
#[verifier::external_body]
pub(crate) fn pv_extend(pv: &mut PvList, child: &PvList) -> (r: bool)
    ensures
        r == (pv_moves(*old(pv)).len() + pv_moves(*child).len() <= 255),
        r ==> pv_moves(*final(pv)) == pv_moves(*old(pv)) + pv_moves(*child),
        !r ==> pv_moves(*final(pv)) == pv_moves(*old(pv)),
{
    pv.try_extend_from_slice(child.as_slice()).is_ok()
}

/// Indexing an `ArrayVec` as a slice: the item at place `i`.
#[verifier::external_body]
pub(crate) fn pv_get(pv: &PvList, i: usize) -> (r: Move)
    requires
        i < pv_moves(*pv).len(),
    ensures
        r == pv_moves(*pv)[i as int],
{
    pv[i]
}

/// `ArrayVec::clone`: a list that holds the same items.
#[verifier::external_body]
pub(crate) fn pv_clone(pv: &PvList) -> (r: PvList)
    ensures
        pv_moves(r) == pv_moves(*pv),
{
    pv.clone()
}

/// The line that begins with `mv` and goes on with `child`; where that
/// line is too long to be held, the move alone.
pub open spec fn line_from(mv: Move, child: Seq<Move>) -> Seq<Move> {
    if child.len() < 255 {
        seq![mv] + child
    } else {
        seq![mv]
    }
}

/// Makes `pv` the line that begins with `mv` and goes on with `child`;
/// where that line is too long to be held, the move alone.
pub fn update_pv(pv: &mut PvList, mv: Move, child: &PvList)
    ensures
        pv_moves(*final(pv)) == line_from(mv, pv_moves(*child)),
{
    pv_clear(pv);
    pv_push(pv, mv);
    let fits = pv_extend(pv, child);
    proof {
        assert(Seq::<Move>::empty().push(mv) =~= seq![mv]);
    }
}

/// The line of the one move `mv`.
pub fn single_pv(mv: Move) -> (r: PvList)
    ensures
        pv_moves(r) == seq![mv],
{
    let mut pv = pv_new();
    pv_push(&mut pv, mv);
    proof {
        assert(Seq::<Move>::empty().push(mv) =~= seq![mv]);
    }
    pv
}

} // verus!
