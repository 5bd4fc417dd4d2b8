//! The insertion path: id allocation, coloring through the k-cluster rule,
//! recording, tip-set update, selected-parent recomputation — and the
//! fragmentation mitigation that funnels an over-wide frontier through the
//! same path.

use vstd::pervasive::unreached;
use vstd::prelude::*;

use crate::dag::{Block, BlockView, Color, DagError, DagView, ToyDag};
use crate::frontier::{evict_tip, lemma_evict_props, lemma_tips_after_snoc, tips_after};
use crate::laws::lemma_unrecorded_candidate_anticone_zero;
use crate::reach::lemma_past_set_same_blocks;

verus! {

impl DagView {
    /// A frontier member recorded as accepted: the candidates of the
    /// selected-parent choice.
    pub open spec fn is_accepted_tip(self, t: u64) -> bool {
        self.tips.contains(t) && self.valid_id(t) && self.color_of(t) == Color::Accepted
    }

    /// The weight proxy of the selected-parent choice: the size of the past
    /// cone.
    pub open spec fn past_size(self, t: u64) -> nat {
        self.past_set_spec(t).len()
    }
}

/// What recomputing the selected parent guarantees. When an accepted tip
/// exists, the pointer names an accepted tip of maximal past-cone size — ties
/// are broken by iteration order, so only maximality is promised. Otherwise
/// the pointer keeps its previous value `prev`: it is never unset.
pub open spec fn sp_ok(d: DagView, prev: u64) -> bool {
    if exists|t: u64| #[trigger] d.is_accepted_tip(t) {
        d.is_accepted_tip(d.selected_parent) && forall|t: u64|
            #[trigger] d.is_accepted_tip(t) ==> d.past_size(t) <= d.past_size(d.selected_parent)
    } else {
        d.selected_parent == prev
    }
}

impl ToyDag {
    /// Recompute the canonical pointer: among the accepted tips, pick one
    /// whose past cone is largest. Blocks and tips are untouched; with no
    /// accepted tip the pointer is left as it was.
    pub fn update_selected_parent(&mut self)
        requires
            old(self)@.wf(),
        ensures
            final(self)@.wf(),
            final(self)@.blocks == old(self)@.blocks,
            final(self)@.tips == old(self)@.tips,
            sp_ok(final(self)@, old(self)@.selected_parent),
    {
        let ghost orig = self@;
        let mut best: Option<u64> = None;
        let mut best_size: usize = 0;
        let mut i: usize = 0;
        while i < self.tips.len()
            invariant
                self@ == orig,
                orig.wf(),
                i <= orig.tips.len(),
                match best {
                    Option::None => forall|x: int|
                        0 <= x < i ==> orig.color_of(#[trigger] orig.tips[x]) != Color::Accepted,
                    Option::Some(b) => {
                        &&& orig.tips.contains(b)
                        &&& orig.valid_id(b)
                        &&& orig.color_of(b) == Color::Accepted
                        &&& best_size == orig.past_size(b)
                        &&& forall|x: int|
                            0 <= x < i && orig.color_of(#[trigger] orig.tips[x])
                                == Color::Accepted
                                ==> orig.past_size(orig.tips[x]) <= best_size
                    },
                },
            decreases orig.tips.len() - i,
        {
            let t = self.tips[i];
            let nb = self.blocks.len();
            proof {
                assert(orig.tips[i as int] == t);
                assert(orig.tips.contains(t));
                assert(orig.valid_id(t));
                assert(orig.blocks.len() == nb as int);
                assert((t as int) < nb as int);
                assert(t as usize as int == t as int);
                assert(self@.blocks[t as int] == self.blocks@[t as int]@);
            }
            if self.blocks[t as usize].color == Color::Accepted {
                proof {
                    assert(orig.color_of(t) == Color::Accepted);
                }
                let s = self.past_size(t);
                let replace = match best {
                    Option::None => true,
                    Option::Some(_) => s > best_size,
                };
                if replace {
                    best = Some(t);
                    best_size = s;
                }
            }
            i += 1;
        }
        match best {
            Option::Some(b) => {
                self.selected_parent = b;
                proof {
                    assert(self@.blocks == orig.blocks && self@.tips == orig.tips);
                    assert(self@.is_accepted_tip(b));
                    assert forall|t: u64| #[trigger] self@.is_accepted_tip(t)
                        implies self@.past_size(t) <= self@.past_size(self@.selected_parent) by {
                        lemma_past_set_same_blocks(self@, orig, t);
                        lemma_past_set_same_blocks(self@, orig, b);
                        let x = choose|x: int|
                            0 <= x < orig.tips.len() && orig.tips[x] == t;
                        assert(orig.color_of(orig.tips[x]) == Color::Accepted);
                        assert(orig.past_size(t) <= best_size);
                    }
                }
            },
            Option::None => {
                proof {
                    assert forall|t: u64| !(#[trigger] self@.is_accepted_tip(t)) by {
                        if self@.is_accepted_tip(t) {
                            let x = choose|x: int|
                                0 <= x < orig.tips.len() && orig.tips[x] == t;
                            assert(orig.color_of(orig.tips[x]) != Color::Accepted);
                        }
                    }
                }
            },
        }
    }

    /// Insert a block over the given parents: allocate the next id, color the
    /// candidate by the k-cluster rule against the selected parent, record
    /// it, update the frontier, and recompute the selected parent. An empty
    /// parent list is refused, as is any parent id that names no recorded
    /// block, and a refused insertion leaves the DAG exactly as it was.
    /// Every accepted insertion returns the freshly assigned id, one past the
    /// previous maximum; the candidate's anticone is always empty, so the new
    /// block is always recorded as accepted (see
    /// `crate::laws::lemma_unrecorded_candidate_anticone_zero`).
    pub fn create_block(&mut self, parent_ids: Vec<u64>) -> (r: Result<u64, DagError>)
        requires
            old(self)@.wf(),
        ensures
            final(self)@.wf(),
            parent_ids@.len() == 0 ==> r == Err::<u64, DagError>(DagError::InvalidParents)
                && final(self)@ == old(self)@,
            parent_ids@.len() > 0 && (exists|x: int|
                0 <= x < parent_ids@.len() && !old(self)@.valid_id(#[trigger] parent_ids@[x]))
                ==> r == Err::<u64, DagError>(DagError::UnknownBlock)
                    && final(self)@ == old(self)@,
            parent_ids@.len() > 0 && (forall|x: int|
                0 <= x < parent_ids@.len() ==> old(self)@.valid_id(#[trigger] parent_ids@[x]))
                ==> ({
                    &&& r == Ok::<u64, DagError>(old(self)@.next_id())
                    &&& final(self)@.blocks == old(self)@.blocks.push(
                        (BlockView {
                            id: old(self)@.next_id(),
                            parents: parent_ids@,
                            color: Color::Accepted,
                        }))
                    &&& final(self)@.tips == tips_after(old(self)@.tips, parent_ids@).push(
                        old(self)@.next_id())
                    &&& sp_ok(final(self)@, old(self)@.selected_parent)
                }),
    {
        let ghost orig = self@;
        if parent_ids.len() == 0 {
            return Err(DagError::InvalidParents);
        }
        let n = self.blocks.len();
        let mut v: usize = 0;
        while v < parent_ids.len()
            invariant
                self@ == orig,
                orig.wf(),
                n == orig.blocks.len(),
                v <= parent_ids@.len(),
                forall|x: int| 0 <= x < v ==> orig.valid_id(#[trigger] parent_ids@[x]),
            decreases parent_ids@.len() - v,
        {
            if parent_ids[v] >= n as u64 {
                return Err(DagError::UnknownBlock);
            }
            v += 1;
        }
        let id: u64 = n as u64;
        proof {
            assert(!orig.valid_id(id));
            assert(!orig.future_set_spec(orig.selected_parent).contains(id));
        }
        let color = self.classify(id, self.selected_parent);
        proof {
            lemma_unrecorded_candidate_anticone_zero(orig, id, orig.selected_parent);
            assert(color == Color::Accepted);
        }
        // evict the parents from the frontier, sparing a sole remaining tip
        let mut k: usize = 0;
        while k < parent_ids.len()
            invariant
                self@.blocks == orig.blocks,
                self@.selected_parent == orig.selected_parent,
                orig.wf(),
                k <= parent_ids@.len(),
                self@.tips == tips_after(orig.tips, parent_ids@.take(k as int)),
                self@.tips.no_duplicates(),
                self@.tips.len() >= 1,
                forall|x: int| 0 <= x < self@.tips.len()
                    ==> orig.tips.contains(#[trigger] self@.tips[x]),
            decreases parent_ids@.len() - k,
        {
            let pid = parent_ids[k];
            let ghost entry = self@.tips;
            if self.tips.len() > 1 {
                let mut pos: usize = 0;
                while pos < self.tips.len() && self.tips[pos] != pid
                    invariant
                        entry == self@.tips,
                        pos <= self@.tips.len(),
                        forall|x: int| 0 <= x < pos ==> self@.tips[x] != pid,
                    decreases self@.tips.len() - pos,
                {
                    pos += 1;
                }
                if pos < self.tips.len() {
                    proof {
                        assert(entry[pos as int] == pid);
                        assert(entry.contains(pid));
                        let i0 = entry.index_of(pid);
                        assert(entry[i0] == pid && 0 <= i0 < entry.len());
                        assert(i0 == pos as int);
                        lemma_evict_props(entry, pid);
                    }
                    self.tips.remove(pos);
                    proof {
                        assert(self@.tips == evict_tip(entry, pid));
                    }
                } else {
                    proof {
                        if entry.contains(pid) {
                            let xi = choose|xi: int|
                                0 <= xi < entry.len() && entry[xi] == pid;
                            assert(false);
                        }
                        assert(self@.tips == evict_tip(entry, pid));
                    }
                }
            } else {
                proof {
                    assert(self@.tips == evict_tip(entry, pid));
                }
            }
            proof {
                lemma_evict_props(entry, pid);
                lemma_tips_after_snoc(orig.tips, parent_ids@.take(k as int), pid);
                assert(parent_ids@.take(k as int).push(pid) =~= parent_ids@.take(k + 1 as int));
                assert forall|x: int| 0 <= x < self@.tips.len()
                    implies orig.tips.contains(#[trigger] self@.tips[x]) by {
                    assert(self@.tips.contains(self@.tips[x]));
                    assert(entry.contains(self@.tips[x]));
                }
            }
            k += 1;
        }
        proof {
            assert(parent_ids@.take(parent_ids@.len() as int) =~= parent_ids@);
        }
        // record the block, then append it as the newest tip
        let block = Block { id, parents: parent_ids, color };
        let ghost pre_push = self@;
        self.blocks.push(block);
        proof {
            assert(self@.blocks =~= pre_push.blocks.push(
                (BlockView { id, parents: parent_ids@, color: Color::Accepted })));
        }
        let ghost pre_tip = self@;
        self.tips.push(id);
        proof {
            assert(self@.tips == pre_tip.tips.push(id));
            // the fresh id is larger than every recorded tip, so no duplicate
            assert forall|x: int, y: int|
                0 <= x < y < self@.tips.len() implies self@.tips[x] != self@.tips[y] by {
                if y == self@.tips.len() - 1 {
                    assert(orig.tips.contains(self@.tips[x]));
                    let xi = choose|xi: int|
                        0 <= xi < orig.tips.len() && orig.tips[xi] == self@.tips[x];
                    assert(orig.valid_id(self@.tips[x]));
                }
            }
            assert(self@.tips.no_duplicates());
            assert forall|x: int| 0 <= x < self@.tips.len()
                implies self@.valid_id(#[trigger] self@.tips[x]) by {
                if x < self@.tips.len() - 1 {
                    assert(orig.tips.contains(self@.tips[x]));
                    let xi = choose|xi: int|
                        0 <= xi < orig.tips.len() && orig.tips[xi] == self@.tips[x];
                    assert(orig.valid_id(self@.tips[x]));
                }
            }
            assert(self@.wf());
        }
        let ghost inserted = self@;
        self.update_selected_parent();
        proof {
            assert(self@.blocks == inserted.blocks && self@.tips == inserted.tips);
        }
        Ok(id)
    }

    /// Fragmentation mitigation: when the frontier holds more tips than the
    /// threshold allows, insert one merge block whose parent list is the
    /// whole current tip set, through the normal insertion path; otherwise do
    /// nothing. Returns the merge block's id when one was made.
    pub fn maybe_stitch(&mut self, threshold: usize) -> (r: Option<u64>)
        requires
            old(self)@.wf(),
        ensures
            final(self)@.wf(),
            old(self)@.tips.len() <= threshold ==> r == Option::<u64>::None
                && final(self)@ == old(self)@,
            old(self)@.tips.len() > threshold ==> ({
                &&& r == Option::<u64>::Some(old(self)@.next_id())
                &&& final(self)@.blocks == old(self)@.blocks.push(
                    (BlockView {
                        id: old(self)@.next_id(),
                        parents: old(self)@.tips,
                        color: Color::Accepted,
                    }))
                &&& final(self)@.tips == tips_after(old(self)@.tips, old(self)@.tips).push(
                    old(self)@.next_id())
                &&& sp_ok(final(self)@, old(self)@.selected_parent)
            }),
    {
        if self.tips.len() > threshold {
            let parents = self.tips();
            let res = self.create_block(parents);
            match res {
                Result::Ok(id) => Some(id),
                // a non-empty list of recorded tips is always a valid parent list
                Result::Err(_) => unreached(),
            }
        } else {
            None
        }
    }
}

} // verus!
