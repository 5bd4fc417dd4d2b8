//! The laws of the core, proved once and for all snapshots: reflexivity and
//! duality of the two closures, the past set of a fresh genesis, the literal
//! coloring policy's unconditional acceptance of unrecorded candidates, and
//! the survival of unreferenced tips across an insertion.

use vstd::prelude::*;

use crate::dag::{Color, DagView};
use crate::frontier::{lemma_tip_retained, tips_after};

verus! {

/// Every id belongs to its own future set and to its own past set.
pub proof fn lemma_closure_reflexive(d: DagView, id: u64)
    ensures
        d.future_set_spec(id).contains(id),
        d.past_set_spec(id).contains(id),
{
    assert(d.in_past(id, id));
}

/// Duality of the closures over one edge: a parent's future holds the child,
/// and the child's past holds the parent.
pub proof fn lemma_parent_duality(d: DagView, p: u64, c: u64)
    requires
        d.wf(),
        d.is_parent(p, c),
    ensures
        d.future_set_spec(p).contains(c),
        d.past_set_spec(c).contains(p),
{
    let i = choose|i: int| 0 <= i < d.parents_of(c).len() && d.parents_of(c)[i] == p;
    assert(d.parents_of(c)[i] < c);
    assert(d.in_past(p, p));
    d.lemma_past_fold(p, c, i);
}

/// In a DAG holding genesis alone, the past set of genesis is just genesis.
pub proof fn lemma_fresh_genesis_past(d: DagView)
    requires
        d.blocks.len() == 1,
        d.blocks[0].parents.len() == 0,
    ensures
        d.past_set_spec(0) =~= set![0u64],
{
    assert forall|a: u64| d.in_past(a, 0) implies a == 0 by {
        if a != 0 {
            let _ = d.lemma_past_unfold(a, 0);
        }
    }
    assert(d.in_past(0, 0));
}

/// The literal coloring policy sees an anticone of zero for every candidate
/// that is not yet recorded: its future cone degenerates to itself alone, so
/// the candidate is accepted under the k-cluster rule for every bound k >= 0.
pub proof fn lemma_unrecorded_candidate_anticone_zero(d: DagView, c: u64, r: u64)
    requires
        d.wf(),
        !d.valid_id(c),
        d.valid_id(r),
    ensures
        d.anticone_spec(c, r) == 0,
{
    let fc = d.future_set_spec(c);
    let fr = d.future_set_spec(r);
    assert forall|b: u64| #[trigger] fc.contains(b) implies b == c by {
        if b != c {
            d.lemma_past_valid(c, b);
        }
    }
    assert(fc.contains(c));
    assert(!fr.contains(c));
    assert(fc.difference(fr) =~= set![c]);
    assert(set![c].len() == 1);
}

/// Under the k-cluster rule the anticone bound never matters for an
/// unrecorded candidate: whatever bound k >= 0 the protocol fixes, the
/// candidate's empty anticone stays within it, so it is always accepted.
pub proof fn lemma_unrecorded_candidate_accepted_for_every_bound(
    d: DagView,
    c: u64,
    r: u64,
    k: int,
)
    requires
        d.wf(),
        !d.valid_id(c),
        d.valid_id(r),
        0 <= k,
    ensures
        d.anticone_spec(c, r) <= k,
{
    lemma_unrecorded_candidate_anticone_zero(d, c, r);
}

/// A tip survives an insertion that does not name it as a parent: it stays in
/// the frontier until it is itself referenced.
pub proof fn lemma_tip_survives_insertion(pre: DagView, post: DagView, parents: Seq<u64>, t: u64)
    requires
        pre.wf(),
        pre.tips.contains(t),
        !parents.contains(t),
        post.tips == tips_after(pre.tips, parents).push(pre.next_id()),
    ensures
        post.tips.contains(t),
{
    lemma_tip_retained(pre.tips, parents, t);
    let xi = choose|xi: int|
        0 <= xi < tips_after(pre.tips, parents).len() && tips_after(pre.tips, parents)[xi] == t;
    assert(post.tips[xi] == t);
}

} // verus!
