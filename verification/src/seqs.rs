//! Facts about sequences that the scans of the systems rest on.

use crate::params::PPM;
use vstd::prelude::*;

verus! {

/// The identifiers below `n`, in order.
pub open spec fn ids(n: nat) -> Seq<usize> {
    Seq::new(n, |i: int| i as usize)
}

/// Whether the event at index `i` was drawn; an event beyond the end of
/// `drawn` was not.
pub open spec fn drawn_at(drawn: Seq<bool>, i: int) -> bool {
    0 <= i < drawn.len() && drawn[i]
}

/// `e` is one of `list` for which `drawn` says yes.
pub open spec fn picked(list: Seq<usize>, drawn: Seq<bool>, e: usize) -> bool {
    exists|i: int| 0 <= i < list.len() && #[trigger] list[i] == e && drawn_at(drawn, i)
}

/// Who is picked from a list is picked from its front or is its last
/// element, drawn.
pub proof fn lemma_picked_step(list: Seq<usize>, drawn: Seq<bool>, e: usize)
    requires
        list.len() > 0,
    ensures
        picked(list, drawn, e) <==> picked(list.drop_last(), drawn, e) || (list.last() == e
            && drawn_at(drawn, list.len() - 1)),
{
    let front = list.drop_last();
    if picked(list, drawn, e) {
        let i = choose|i: int| 0 <= i < list.len() && #[trigger] list[i] == e && drawn_at(drawn, i);
        if i < front.len() {
            assert(front[i] == e);
        }
    }
}

/// `drawn` holds what one draw for each of the chances in `chances` can
/// give: false for a chance of zero, true for a chance of one or more.
pub open spec fn drawn_with(drawn: Seq<bool>, chances: Seq<u32>) -> bool {
    &&& drawn.len() == chances.len()
    &&& forall|i: int| 0 <= i < drawn.len() && chances[i] == 0 ==> !#[trigger] drawn[i]
    &&& forall|i: int| 0 <= i < drawn.len() && chances[i] >= PPM ==> #[trigger] drawn[i]
}

/// Filtering one element more of a sequence appends that element, if it
/// passes, to what the elements before it gave.
pub proof fn lemma_filter_step<A>(s: Seq<A>, pred: spec_fn(A) -> bool, i: int)
    requires
        0 <= i < s.len(),
    ensures
        s.take(i + 1).filter(pred) == if pred(s[i]) {
            s.take(i).filter(pred).push(s[i])
        } else {
            s.take(i).filter(pred)
        },
        s.take(0).filter(pred) == Seq::<A>::empty(),
{
    reveal(Seq::filter);
    assert(s.take(i + 1).drop_last() =~= s.take(i));
}

/// Filtering nothing gives nothing.
pub proof fn lemma_filter_none<A>(s: Seq<A>, pred: spec_fn(A) -> bool)
    ensures
        s.take(0).filter(pred) == Seq::<A>::empty(),
        s.take(s.len() as int) == s,
{
    reveal(Seq::filter);
}

/// What passes a filter is an element of the sequence and satisfies the
/// predicate, and the filter keeps the order and the distinctness of the
/// elements.
pub proof fn lemma_filter_members<A>(s: Seq<A>, pred: spec_fn(A) -> bool)
    ensures
        forall|i: int|
            0 <= i < s.filter(pred).len() ==> pred(#[trigger] s.filter(pred)[i]) && s.contains(
                s.filter(pred)[i],
            ),
        forall|i: int| 0 <= i < s.len() && pred(s[i]) ==> s.filter(pred).contains(#[trigger] s[i]),
        s.no_duplicates() ==> s.filter(pred).no_duplicates(),
    decreases s.len(),
{
    reveal(Seq::filter);
    if s.len() > 0 {
        let front = s.drop_last();
        lemma_filter_members(front, pred);
        assert(s.filter(pred) == if pred(s.last()) {
            front.filter(pred).push(s.last())
        } else {
            front.filter(pred)
        });
    }
}

} // verus!
