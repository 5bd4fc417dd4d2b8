//! The tip-set policy: how an insertion updates the frontier.
//!
//! Each parent of the new block is evicted from the tip set, unless it is the
//! sole remaining tip: the frontier is never left empty mid-update. As a
//! consequence a single-tip DAG that receives a block over exactly that tip
//! keeps the old tip beside the new one; this is deliberate, documented
//! behavior, not corrected here.

use vstd::prelude::*;

verus! {

/// One eviction step: drop `pid` from the tips unless it is absent or is the
/// sole remaining tip.
pub open spec fn evict_tip(tips: Seq<u64>, pid: u64) -> Seq<u64> {
    if tips.len() > 1 && tips.contains(pid) {
        tips.remove(tips.index_of(pid))
    } else {
        tips
    }
}

/// The tip set after evicting every parent in order, before the new block is
/// appended as a tip.
pub open spec fn tips_after(tips: Seq<u64>, parents: Seq<u64>) -> Seq<u64>
    decreases parents.len(),
{
    if parents.len() == 0 {
        tips
    } else {
        tips_after(evict_tip(tips, parents[0]), parents.drop_first())
    }
}

/// What one eviction preserves over a duplicate-free tip set: the set stays
/// duplicate-free and non-empty, keeps only former members, and loses exactly
/// the evicted id — except a sole tip, which is retained.
pub proof fn lemma_evict_props(tips: Seq<u64>, pid: u64)
    requires
        tips.no_duplicates(),
        tips.len() >= 1,
    ensures
        evict_tip(tips, pid).no_duplicates(),
        evict_tip(tips, pid).len() >= 1,
        forall|x: u64| #[trigger] evict_tip(tips, pid).contains(x)
            <==> (tips.contains(x) && (x != pid || tips.len() == 1)),
{
    if tips.len() > 1 && tips.contains(pid) {
        let i = tips.index_of(pid);
        let e = tips.remove(i);
        assert(0 <= i < tips.len() && tips[i] == pid);
        assert forall|x: int| 0 <= x < e.len() implies #[trigger] e[x] == (if x < i {
            tips[x]
        } else {
            tips[x + 1]
        }) by {}
        assert forall|x: int, y: int| 0 <= x < y < e.len() implies e[x] != e[y] by {}
        assert(e.no_duplicates());
        assert forall|x: u64| #[trigger] e.contains(x)
            implies (tips.contains(x) && x != pid) by {
            let xi = choose|xi: int| 0 <= xi < e.len() && e[xi] == x;
            if xi < i {
                assert(tips[xi] == x);
            } else {
                assert(tips[xi + 1] == x);
            }
        }
        assert forall|x: u64| tips.contains(x) && x != pid
            implies #[trigger] e.contains(x) by {
            let xi = choose|xi: int| 0 <= xi < tips.len() && tips[xi] == x;
            if xi < i {
                assert(e[xi] == x);
            } else {
                assert(xi != i);
                assert(e[xi - 1] == x);
            }
        }
    }
}

/// Processing one more parent evicts it from the already-evicted set.
pub proof fn lemma_tips_after_snoc(tips: Seq<u64>, parents: Seq<u64>, pid: u64)
    ensures
        tips_after(tips, parents.push(pid)) == evict_tip(tips_after(tips, parents), pid),
    decreases parents.len(),
{
    if parents.len() == 0 {
        assert(parents.push(pid).drop_first() =~= Seq::<u64>::empty());
        assert(parents.push(pid)[0] == pid);
        assert(tips_after(tips, parents.push(pid))
            == tips_after(evict_tip(tips, pid), Seq::<u64>::empty()));
        assert(tips_after(evict_tip(tips, pid), Seq::<u64>::empty()) == evict_tip(tips, pid));
        assert(tips_after(tips, parents) == tips);
    } else {
        assert(parents.push(pid)[0] == parents[0]);
        assert(parents.push(pid).drop_first() =~= parents.drop_first().push(pid));
        lemma_tips_after_snoc(evict_tip(tips, parents[0]), parents.drop_first(), pid);
        assert(tips_after(tips, parents.push(pid))
            == tips_after(evict_tip(tips, parents[0]), parents.drop_first().push(pid)));
        assert(tips_after(tips, parents)
            == tips_after(evict_tip(tips, parents[0]), parents.drop_first()));
    }
}

/// A tip that none of the parents name survives the whole eviction pass.
pub proof fn lemma_tip_retained(tips: Seq<u64>, parents: Seq<u64>, t: u64)
    requires
        tips.no_duplicates(),
        tips.len() >= 1,
        tips.contains(t),
        !parents.contains(t),
    ensures
        tips_after(tips, parents).contains(t),
    decreases parents.len(),
{
    if parents.len() > 0 {
        lemma_evict_props(tips, parents[0]);
        assert(parents[0] != t);
        assert(evict_tip(tips, parents[0]).contains(t));
        assert forall|x: int| 0 <= x < parents.drop_first().len()
            implies #[trigger] parents.drop_first()[x] != t by {
            assert(parents.drop_first()[x] == parents[x + 1]);
        }
        assert(!parents.drop_first().contains(t));
        lemma_tip_retained(evict_tip(tips, parents[0]), parents.drop_first(), t);
    }
}

} // verus!
