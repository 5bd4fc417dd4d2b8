//! The DAG store and its entities: block records, colors, errors, and the
//! well-formedness invariant that every operation preserves.

use vstd::prelude::*;

verus! {

/// Protocol parameter of the k-cluster rule: a candidate block is accepted
/// when its anticone relative to the selected parent has at most this many
/// members.
pub const K: usize = 15;

/// Default tip-count threshold above which `ToyDag::maybe_stitch` inserts a
/// merge block over the whole frontier.
pub const STITCH_THRESHOLD: usize = 10;

/// Verdict of the coloring policy, assigned exactly once when a block is
/// created and never revisited.
#[derive(Clone, Copy, Debug, PartialEq, Eq, Structural)]
pub enum Color {
    Accepted,
    Rejected,
}

/// A recoverable failure of an insertion or of a reachability query.
#[derive(Clone, Copy, Debug, PartialEq, Eq, Structural)]
pub enum DagError {
    /// An insertion was attempted with an empty parent list.
    InvalidParents,
    /// An operation referenced an id that no recorded block carries.
    UnknownBlock,
}

/// One immutable block record. Ids are assigned densely by the store, so the
/// record with id `i` sits at index `i` of the block list.
#[derive(Clone, Debug)]
pub struct Block {
    pub id: u64,
    pub parents: Vec<u64>,
    pub color: Color,
}

/// Mathematical image of a block record.
pub struct BlockView {
    pub id: u64,
    pub parents: Seq<u64>,
    pub color: Color,
}

impl View for Block {
    type V = BlockView;

    open spec fn view(&self) -> BlockView {
        BlockView { id: self.id, parents: self.parents@, color: self.color }
    }
}

/// Mathematical image of the whole store.
pub struct DagView {
    pub blocks: Seq<BlockView>,
    pub tips: Seq<u64>,
    pub selected_parent: u64,
}

/// The DAG store: sole owner of every block record, of the frontier cache
/// (the tips), and of the selected-parent pointer. The next id to assign is
/// always the number of recorded blocks.
pub struct ToyDag {
    pub blocks: Vec<Block>,
    pub tips: Vec<u64>,
    pub selected_parent: u64,
}

impl View for ToyDag {
    type V = DagView;

    open spec fn view(&self) -> DagView {
        DagView {
            blocks: self.blocks@.map_values(|b: Block| b@),
            tips: self.tips@,
            selected_parent: self.selected_parent,
        }
    }
}

impl DagView {
    /// An id names a recorded block.
    pub open spec fn valid_id(self, id: u64) -> bool {
        (id as int) < self.blocks.len()
    }

    /// The id the next successful insertion will be given.
    pub open spec fn next_id(self) -> u64 {
        self.blocks.len() as u64
    }

    /// Parent list of the block with the given id.
    pub open spec fn parents_of(self, id: u64) -> Seq<u64> {
        self.blocks[id as int].parents
    }

    /// Color of the block with the given id.
    pub open spec fn color_of(self, id: u64) -> Color {
        self.blocks[id as int].color
    }

    /// `p` is recorded as a direct parent of `c`.
    pub open spec fn is_parent(self, p: u64, c: u64) -> bool {
        self.valid_id(c) && self.parents_of(c).contains(p)
    }

    /// Invariant of the store. Genesis (id 0) always exists, has no parents
    /// and is accepted; every other block has a non-empty parent list whose
    /// members were recorded earlier (so parent ids are smaller than the
    /// child's id); the tips are distinct recorded ids and never none; the
    /// selected parent names a recorded, accepted block.
    pub open spec fn wf(self) -> bool {
        &&& 1 <= self.blocks.len()
        &&& forall|i: int| 0 <= i < self.blocks.len() ==> (#[trigger] self.blocks[i]).id == i as u64
        &&& self.blocks[0].parents.len() == 0
        &&& self.blocks[0].color == Color::Accepted
        &&& forall|i: int| 1 <= i < self.blocks.len() ==> (#[trigger] self.blocks[i]).parents.len() > 0
        &&& forall|i: int, j: int|
            0 <= i < self.blocks.len() && 0 <= j < self.blocks[i].parents.len()
                ==> #[trigger] self.blocks[i].parents[j] < i as u64
        &&& forall|i: int| 0 <= i < self.tips.len() ==> self.valid_id(#[trigger] self.tips[i])
        &&& self.tips.no_duplicates()
        &&& 1 <= self.tips.len()
        &&& self.valid_id(self.selected_parent)
        &&& self.color_of(self.selected_parent) == Color::Accepted
    }
}

impl ToyDag {
    /// A fresh DAG pre-populated with genesis: block 0, no parents, accepted,
    /// the sole tip and the selected parent.
    pub fn new() -> (d: ToyDag)
        ensures
            d@.wf(),
            d@.blocks.len() == 1,
            d@.blocks[0].id == 0,
            d@.blocks[0].parents.len() == 0,
            d@.blocks[0].color == Color::Accepted,
            d@.tips == seq![0u64],
            d@.selected_parent == 0,
    {
        let genesis = Block { id: 0, parents: Vec::new(), color: Color::Accepted };
        let mut blocks: Vec<Block> = Vec::new();
        blocks.push(genesis);
        let mut tips: Vec<u64> = Vec::new();
        tips.push(0);
        let d = ToyDag { blocks, tips, selected_parent: 0 };
        proof {
            assert(d@.tips =~= seq![0u64]);
            assert(d@.blocks[0] == d.blocks@[0]@);
        }
        d
    }

    /// Snapshot of the current frontier, in the store's working order.
    pub fn tips(&self) -> (r: Vec<u64>)
        ensures
            r@ == self@.tips,
    {
        let mut r: Vec<u64> = Vec::new();
        let mut i: usize = 0;
        while i < self.tips.len()
            invariant
                i <= self.tips.len(),
                r@ == self@.tips.take(i as int),
            decreases self.tips.len() - i,
        {
            r.push(self.tips[i]);
            proof {
                assert(self@.tips.take(i as int).push(self@.tips[i as int])
                    =~= self@.tips.take(i + 1 as int));
            }
            i += 1;
        }
        proof {
            assert(self@.tips.take(self.tips@.len() as int) =~= self@.tips);
        }
        r
    }

    /// The current canonical reference block.
    pub fn selected_parent(&self) -> (r: u64)
        ensures
            r == self@.selected_parent,
    {
        self.selected_parent
    }

    /// How many blocks are recorded; equally, the next id to be assigned.
    pub fn block_count(&self) -> (r: usize)
        ensures
            r == self@.blocks.len(),
    {
        self.blocks.len()
    }
}

} // verus!
