//! The reachability engine: forward closure (future set) and backward closure
//! (past set) of a block over the current DAG snapshot, and the anticone
//! metric the coloring policy is built on.
//!
//! Both closures are pure queries. Callers may rely on set membership only:
//! the order in which members are handed out is a representation detail (here
//! ascending ids, where a hash-keyed store would give an arbitrary order).

use vstd::prelude::*;

use crate::dag::{Color, DagError, DagView, ToyDag, K};

verus! {

impl DagView {
    /// `a` lies in the past cone of `b`: either `a == b`, or `a` is reachable
    /// from `b` by following parent links. In a well-formed DAG parent links
    /// always point to smaller ids; links that do not are ignored so that the
    /// closure is well defined on every value.
    pub open spec fn in_past(self, a: u64, b: u64) -> bool
        decreases b,
    {
        a == b || (self.valid_id(b) && exists|i: int|
            0 <= i < self.parents_of(b).len()
                && self.parents_of(b)[i] < b
                && self.in_past(a, self.parents_of(b)[i]))
    }

    /// The backward closure of `id`, itself included.
    pub open spec fn past_set_spec(self, id: u64) -> Set<u64> {
        Set::new(|a: u64| self.in_past(a, id))
    }

    /// The forward closure of `id`, itself included: every recorded block
    /// whose past cone holds `id`. An id that no block carries has only
    /// itself, since nothing can reference it as a parent yet.
    pub open spec fn future_set_spec(self, id: u64) -> Set<u64> {
        Set::new(|b: u64| b == id || (self.valid_id(b) && self.in_past(id, b)))
    }

    /// The anticone metric of the literal coloring policy: how many members
    /// of the candidate's future cone lie outside the reference's future
    /// cone, the candidate itself not counted.
    pub open spec fn anticone_spec(self, block_id: u64, reference_id: u64) -> int {
        self.future_set_spec(block_id).difference(self.future_set_spec(reference_id)).len() - 1
    }

    /// Unfolds one step of `in_past` below the root: a strict cone member is
    /// in the past of one of the root's recorded parents, at the returned
    /// parent-list index.
    pub proof fn lemma_past_unfold(self, a: u64, b: u64) -> (i: int)
        requires
            self.in_past(a, b),
            a != b,
        ensures
            0 <= i < self.parents_of(b).len(),
            self.parents_of(b)[i] < b,
            self.in_past(a, self.parents_of(b)[i]),
    {
        choose|i: int|
            0 <= i < self.parents_of(b).len()
                && self.parents_of(b)[i] < b
                && self.in_past(a, self.parents_of(b)[i])
    }

    /// Folds one step of `in_past`: reaching a parent of `b` reaches `b`.
    pub proof fn lemma_past_fold(self, a: u64, b: u64, i: int)
        requires
            self.valid_id(b),
            0 <= i < self.parents_of(b).len(),
            self.parents_of(b)[i] < b,
            self.in_past(a, self.parents_of(b)[i]),
        ensures
            self.in_past(a, b),
    {
    }

    /// Everything in a past cone has an id no larger than the cone's root.
    pub proof fn lemma_past_le(self, a: u64, b: u64)
        requires
            self.in_past(a, b),
        ensures
            a <= b,
        decreases b,
    {
        if a != b {
            let i = choose|i: int|
                0 <= i < self.parents_of(b).len()
                    && self.parents_of(b)[i] < b
                    && self.in_past(a, self.parents_of(b)[i]);
            self.lemma_past_le(a, self.parents_of(b)[i]);
        }
    }

    /// Past-cone members of a recorded block are recorded.
    pub proof fn lemma_past_valid(self, a: u64, b: u64)
        requires
            self.wf(),
            self.in_past(a, b),
            self.valid_id(b),
        ensures
            self.valid_id(a),
        decreases b,
    {
        if a != b {
            let i = choose|i: int|
                0 <= i < self.parents_of(b).len()
                    && self.parents_of(b)[i] < b
                    && self.in_past(a, self.parents_of(b)[i]);
            self.lemma_past_valid(a, self.parents_of(b)[i]);
        }
    }

    /// A past cone absorbs the parents of its members: if `a` is a parent of
    /// `c` and `c` lies in the past cone of `b`, so does `a`.
    pub proof fn lemma_past_step(self, a: u64, c: u64, b: u64)
        requires
            self.wf(),
            self.is_parent(a, c),
            self.in_past(c, b),
        ensures
            self.in_past(a, b),
        decreases b,
    {
        if c == b {
            let i = choose|i: int|
                0 <= i < self.parents_of(b).len() && self.parents_of(b)[i] == a;
            assert(self.parents_of(b)[i] < b);
            assert(self.in_past(a, self.parents_of(b)[i]));
        } else {
            let i = choose|i: int|
                0 <= i < self.parents_of(b).len()
                    && self.parents_of(b)[i] < b
                    && self.in_past(c, self.parents_of(b)[i]);
            self.lemma_past_step(a, c, self.parents_of(b)[i]);
        }
    }

    /// A member of a past cone other than the root got there through a parent
    /// link: some larger cone member records it as a parent.
    pub proof fn lemma_past_decompose(self, a: u64, b: u64)
        requires
            self.wf(),
            self.in_past(a, b),
            a != b,
        ensures
            exists|c: u64| a < c && self.is_parent(a, c) && self.in_past(c, b),
        decreases b,
    {
        let i = choose|i: int|
            0 <= i < self.parents_of(b).len()
                && self.parents_of(b)[i] < b
                && self.in_past(a, self.parents_of(b)[i]);
        let p = self.parents_of(b)[i];
        if a == p {
            assert(self.parents_of(b).contains(a));
            assert(self.in_past(b, b));
            assert(a < b && self.is_parent(a, b) && self.in_past(b, b));
        } else {
            self.lemma_past_decompose(a, p);
            let c = choose|c: u64| a < c && self.is_parent(a, c) && self.in_past(c, p);
            assert(0 <= i < self.parents_of(b).len()
                && self.parents_of(b)[i] < b
                && self.in_past(c, self.parents_of(b)[i]));
            assert(self.in_past(c, b));
        }
    }
}

/// The reachability closure reads only the block records: two snapshots with
/// the same blocks agree on it, whatever their tips or selected parent.
pub proof fn lemma_in_past_same_blocks(d1: DagView, d2: DagView, a: u64, b: u64)
    requires
        d1.blocks == d2.blocks,
    ensures
        d1.in_past(a, b) == d2.in_past(a, b),
    decreases b,
{
    if a != b {
        if d1.in_past(a, b) {
            let i = d1.lemma_past_unfold(a, b);
            lemma_in_past_same_blocks(d1, d2, a, d1.parents_of(b)[i]);
            d2.lemma_past_fold(a, b, i);
        }
        if d2.in_past(a, b) {
            let i = d2.lemma_past_unfold(a, b);
            lemma_in_past_same_blocks(d1, d2, a, d2.parents_of(b)[i]);
            d1.lemma_past_fold(a, b, i);
        }
    }
}

/// Past cones, and so their cardinalities, also agree on snapshots with the
/// same blocks.
pub proof fn lemma_past_set_same_blocks(d1: DagView, d2: DagView, t: u64)
    requires
        d1.blocks == d2.blocks,
    ensures
        d1.past_set_spec(t) == d2.past_set_spec(t),
{
    assert forall|a: u64| d1.in_past(a, t) == d2.in_past(a, t) by {
        lemma_in_past_same_blocks(d1, d2, a, t);
    }
    assert(d1.past_set_spec(t) =~= d2.past_set_spec(t));
}

/// A set of ids bounded above is finite.
pub proof fn lemma_bounded_set_finite(s: Set<u64>, bound: u64)
    requires
        forall|x: u64| s.contains(x) ==> x <= bound,
    ensures
        s.finite(),
    decreases bound,
{
    if bound == 0 {
        if s.contains(0) {
            assert(s =~= set![0u64]);
        } else {
            assert(s =~= Set::<u64>::empty());
        }
    } else {
        let t = s.remove(bound);
        assert(forall|x: u64| t.contains(x) ==> x <= (bound - 1) as u64);
        lemma_bounded_set_finite(t, (bound - 1) as u64);
        if s.contains(bound) {
            assert(s =~= t.insert(bound));
        } else {
            assert(s =~= t);
        }
    }
}

/// The ids whose mark is set.
pub open spec fn marked_ids(m: Seq<bool>) -> Set<u64> {
    Set::new(|id: u64| (id as int) < m.len() && m[id as int])
}

impl ToyDag {
    /// One mark per recorded block: whether `id` lies in its past cone, that
    /// is, whether the block lies in the future cone of `id`. Works for any
    /// `id`, recorded or not; an unrecorded id marks nothing.
    fn future_marks(&self, id: u64) -> (m: Vec<bool>)
        requires
            self@.wf(),
        ensures
            m@.len() == self@.blocks.len(),
            forall|t: int| 0 <= t < m@.len() ==> m@[t] == self@.in_past(id, t as u64),
    {
        let n = self.blocks.len();
        let mut m: Vec<bool> = Vec::new();
        let mut j: usize = 0;
        while j < n
            invariant
                self@.wf(),
                n == self@.blocks.len(),
                j <= n,
                m@.len() == j,
                forall|t: int| 0 <= t < j ==> m@[t] == self@.in_past(id, t as u64),
            decreases n - j,
        {
            let mut hit: bool = j as u64 == id;
            let plen = self.blocks[j].parents.len();
            let mut k: usize = 0;
            while k < plen
                invariant
                    self@.wf(),
                    n == self@.blocks.len(),
                    j < n,
                    m@.len() == j,
                    plen == self@.parents_of(j as u64).len(),
                    k <= plen,
                    forall|t: int| 0 <= t < j ==> m@[t] == self@.in_past(id, t as u64),
                    hit == (j as u64 == id || exists|x: int|
                        0 <= x < k
                            && #[trigger] self@.in_past(id, self@.parents_of(j as u64)[x])),
                decreases plen - k,
            {
                let p = self.blocks[j].parents[k];
                assert(p == self@.parents_of(j as u64)[k as int]);
                assert(p < j as u64);
                if m[p as usize] {
                    hit = true;
                    assert(self@.in_past(id, self@.parents_of(j as u64)[k as int]));
                }
                k += 1;
            }
            proof {
                if hit && j as u64 != id {
                    let x = choose|x: int|
                        0 <= x < plen
                            && #[trigger] self@.in_past(id, self@.parents_of(j as u64)[x]);
                    assert(self@.parents_of(j as u64)[x] < j as u64);
                    self@.lemma_past_fold(id, j as u64, x);
                }
                if self@.in_past(id, j as u64) && j as u64 != id {
                    let x = self@.lemma_past_unfold(id, j as u64);
                    assert(0 <= x < plen && self@.in_past(id, self@.parents_of(j as u64)[x]));
                }
                assert(hit == self@.in_past(id, j as u64));
            }
            m.push(hit);
            j += 1;
        }
        m
    }

    /// Whether `t` occurs in the parent list of the recorded block `c`.
    fn parents_contain(&self, c: usize, t: u64) -> (r: bool)
        requires
            self@.wf(),
            (c as int) < self@.blocks.len(),
        ensures
            r == self@.parents_of(c as u64).contains(t),
    {
        let plen = self.blocks[c].parents.len();
        let mut r = false;
        let mut k: usize = 0;
        while k < plen
            invariant
                self@.wf(),
                (c as int) < self@.blocks.len(),
                plen == self@.parents_of(c as u64).len(),
                k <= plen,
                r == exists|x: int|
                    0 <= x < k && (#[trigger] self@.parents_of(c as u64)[x]) == t,
            decreases plen - k,
        {
            if self.blocks[c].parents[k] == t {
                r = true;
                proof {
                    assert(self@.parents_of(c as u64)[k as int] == t);
                }
            }
            k += 1;
        }
        proof {
            if r {
                let x = choose|x: int|
                    0 <= x < plen && (#[trigger] self@.parents_of(c as u64)[x]) == t;
                assert(self@.parents_of(c as u64).contains(t));
            }
            if self@.parents_of(c as u64).contains(t) {
                let x = choose|x: int|
                    0 <= x < self@.parents_of(c as u64).len()
                        && (#[trigger] self@.parents_of(c as u64)[x]) == t;
                assert(0 <= x < plen && self@.parents_of(c as u64)[x] == t);
            }
        }
        r
    }

    /// One mark per recorded block: whether it lies in the past cone of `id`.
    fn past_marks(&self, id: u64) -> (m: Vec<bool>)
        requires
            self@.wf(),
            self@.valid_id(id),
        ensures
            m@.len() == self@.blocks.len(),
            forall|t: int| 0 <= t < m@.len() ==> m@[t] == self@.in_past(t as u64, id),
    {
        let n = self.blocks.len();
        let mut m: Vec<bool> = Vec::new();
        while m.len() < n
            invariant
                m@.len() <= n,
                forall|t: int| 0 <= t < m@.len() ==> m@[t] == false,
            decreases n - m@.len(),
        {
            m.push(false);
        }
        let mut j: usize = n;
        while j > 0
            invariant
                self@.wf(),
                self@.valid_id(id),
                n == self@.blocks.len(),
                j <= n,
                m@.len() == n,
                forall|t: int| j <= t < n ==> m@[t] == self@.in_past(t as u64, id),
                forall|t: int| 0 <= t < j ==> m@[t] == false,
            decreases j,
        {
            j -= 1;
            let mut hit: bool = j as u64 == id;
            let mut c: usize = j + 1;
            while c < n
                invariant
                    self@.wf(),
                    self@.valid_id(id),
                    n == self@.blocks.len(),
                    j < n,
                    m@.len() == n,
                    j + 1 <= c <= n,
                    forall|t: int| j + 1 <= t < n ==> m@[t] == self@.in_past(t as u64, id),
                    hit == (j as u64 == id || exists|cc: u64|
                        j + 1 <= (cc as int) && (cc as int) < c
                            && self@.in_past(cc, id)
                            && #[trigger] self@.is_parent(j as u64, cc)),
                decreases n - c,
            {
                if m[c] {
                    if self.parents_contain(c, j as u64) {
                        hit = true;
                        proof {
                            assert(self@.in_past(c as u64, id)
                                && self@.is_parent(j as u64, c as u64));
                        }
                    }
                }
                c += 1;
            }
            proof {
                // the scan has looked at every possible cone member above `j`
                if hit && j as u64 != id {
                    let cc = choose|cc: u64|
                        j + 1 <= (cc as int) && (cc as int) < n
                            && self@.in_past(cc, id)
                            && #[trigger] self@.is_parent(j as u64, cc);
                    self@.lemma_past_step(j as u64, cc, id);
                }
                if self@.in_past(j as u64, id) && j as u64 != id {
                    self@.lemma_past_decompose(j as u64, id);
                    let cc = choose|cc: u64|
                        (j as u64) < cc && self@.is_parent(j as u64, cc)
                            && self@.in_past(cc, id);
                    self@.lemma_past_valid(cc, id);
                    assert(j + 1 <= (cc as int) && (cc as int) < n
                        && self@.in_past(cc, id)
                        && self@.is_parent(j as u64, cc));
                }
                assert(hit == self@.in_past(j as u64, id));
            }
            m[j] = hit;
        }
        m
    }

    /// The marked ids, ascending; the vector's length is the cardinality of
    /// the marked set.
    fn collect_marked(m: &Vec<bool>) -> (r: Vec<u64>)
        ensures
            forall|x: int| 0 <= x < r@.len()
                ==> (#[trigger] r@[x] as int) < m@.len() && m@[r@[x] as int],
            forall|id: u64| (id as int) < m@.len() && m@[id as int] ==> r@.contains(id),
            forall|x: int, y: int| 0 <= x < y < r@.len() ==> r@[x] < r@[y],
            r@.no_duplicates(),
            r@.len() == marked_ids(m@).len(),
    {
        let n = m.len();
        let mut r: Vec<u64> = Vec::new();
        let ghost mut seen: Set<u64> = Set::empty();
        let mut j: usize = 0;
        while j < n
            invariant
                n == m@.len(),
                j <= n,
                seen == Set::new(|id: u64| (id as int) < j && m@[id as int]),
                seen.finite(),
                r@.len() == seen.len(),
                forall|x: int| 0 <= x < r@.len()
                    ==> (#[trigger] r@[x] as int) < j && m@[r@[x] as int],
                forall|id: u64| (id as int) < j && m@[id as int] ==> r@.contains(id),
                forall|x: int, y: int| 0 <= x < y < r@.len() ==> r@[x] < r@[y],
            decreases n - j,
        {
            let ghost seen_pre = seen;
            let ghost r_pre = r@;
            if m[j] {
                r.push(j as u64);
                proof {
                    seen = seen.insert(j as u64);
                    assert(!seen_pre.contains(j as u64));
                    assert forall|id: u64| (id as int) < j + 1 && m@[id as int]
                        implies r@.contains(id) by {
                        if (id as int) < j {
                            let x = choose|x: int| 0 <= x < r_pre.len() && r_pre[x] == id;
                            assert(r@[x] == id);
                        } else {
                            assert(r@[r_pre.len() as int] == id);
                        }
                    }
                }
            }
            proof {
                assert(seen =~= Set::new(|id: u64| (id as int) < j + 1 && m@[id as int]));
            }
            j += 1;
        }
        proof {
            assert(seen =~= marked_ids(m@));
            assert forall|x: int, y: int|
                0 <= x < r@.len() && 0 <= y < r@.len() && x != y implies r@[x] != r@[y] by {
                if x < y {
                    assert(r@[x] < r@[y]);
                } else {
                    assert(r@[y] < r@[x]);
                }
            }
        }
        r
    }

    /// The past set of `id`: itself and every ancestor reachable over parent
    /// links, as ascending ids. Fails when `id` names no recorded block and
    /// the DAG is then untouched.
    pub fn past_set(&self, id: u64) -> (r: Result<Vec<u64>, DagError>)
        requires
            self@.wf(),
        ensures
            match r {
                Ok(v) => {
                    &&& self@.valid_id(id)
                    &&& forall|a: u64| v@.contains(a) <==> self@.past_set_spec(id).contains(a)
                    &&& v@.no_duplicates()
                    &&& v@.len() == self@.past_set_spec(id).len()
                },
                Err(e) => !self@.valid_id(id) && e == DagError::UnknownBlock,
            },
    {
        if id >= self.blocks.len() as u64 {
            return Err(DagError::UnknownBlock);
        }
        let marks = self.past_marks(id);
        let v = Self::collect_marked(&marks);
        proof {
            assert forall|a: u64| marked_ids(marks@).contains(a)
                <==> self@.past_set_spec(id).contains(a) by {
                if self@.in_past(a, id) {
                    self@.lemma_past_valid(a, id);
                }
            }
            assert(marked_ids(marks@) =~= self@.past_set_spec(id));
        }
        Ok(v)
    }

    /// The future set of `id`: itself and every recorded block that reaches
    /// it over parent links, as ascending ids. Fails when `id` names no
    /// recorded block and the DAG is then untouched.
    pub fn future_set(&self, id: u64) -> (r: Result<Vec<u64>, DagError>)
        requires
            self@.wf(),
        ensures
            match r {
                Ok(v) => {
                    &&& self@.valid_id(id)
                    &&& forall|b: u64| v@.contains(b) <==> self@.future_set_spec(id).contains(b)
                    &&& v@.no_duplicates()
                    &&& v@.len() == self@.future_set_spec(id).len()
                },
                Err(e) => !self@.valid_id(id) && e == DagError::UnknownBlock,
            },
    {
        if id >= self.blocks.len() as u64 {
            return Err(DagError::UnknownBlock);
        }
        let marks = self.future_marks(id);
        let v = Self::collect_marked(&marks);
        proof {
            assert(marked_ids(marks@) =~= self@.future_set_spec(id));
        }
        Ok(v)
    }

    /// Cardinality of the past cone of a recorded block: the weight proxy the
    /// selected-parent choice maximises.
    pub fn past_size(&self, id: u64) -> (r: usize)
        requires
            self@.wf(),
            self@.valid_id(id),
        ensures
            r == self@.past_set_spec(id).len(),
    {
        let marks = self.past_marks(id);
        let v = Self::collect_marked(&marks);
        proof {
            assert forall|a: u64| marked_ids(marks@).contains(a)
                <==> self@.past_set_spec(id).contains(a) by {
                if self@.in_past(a, id) {
                    self@.lemma_past_valid(a, id);
                }
            }
            assert(marked_ids(marks@) =~= self@.past_set_spec(id));
        }
        v.len()
    }

    /// The anticone metric of the coloring policy, relative to a reference
    /// whose future cone must not hold the candidate (the candidate of an
    /// insertion never lies in the selected parent's future cone, since it is
    /// not recorded yet).
    pub fn anticone_size(&self, block_id: u64, reference_id: u64) -> (r: usize)
        requires
            self@.wf(),
            !self@.future_set_spec(reference_id).contains(block_id),
        ensures
            r as int == self@.anticone_spec(block_id, reference_id),
    {
        let n = self.blocks.len();
        let fb = self.future_marks(block_id);
        let fr = self.future_marks(reference_id);
        let mut cnt: usize = 0;
        let ghost mut seen: Set<u64> = Set::empty();
        let mut j: usize = 0;
        while j < n
            invariant
                self@.wf(),
                n == self@.blocks.len(),
                fb@.len() == n,
                fr@.len() == n,
                forall|t: int| 0 <= t < n ==> fb@[t] == self@.in_past(block_id, t as u64),
                forall|t: int| 0 <= t < n ==> fr@[t] == self@.in_past(reference_id, t as u64),
                j <= n,
                seen == Set::new(|id: u64| (id as int) < j
                    && self@.in_past(block_id, id) && !self@.in_past(reference_id, id)),
                seen.finite(),
                cnt == seen.len(),
                cnt <= j,
            decreases n - j,
        {
            let ghost seen_pre = seen;
            if fb[j] && !fr[j] {
                cnt += 1;
                proof {
                    seen = seen.insert(j as u64);
                    assert(!seen_pre.contains(j as u64));
                }
            }
            proof {
                assert(seen =~= Set::new(|id: u64| (id as int) < j + 1
                    && self@.in_past(block_id, id) && !self@.in_past(reference_id, id)));
            }
            j += 1;
        }
        let ghost d = self@.future_set_spec(block_id).difference(
            self@.future_set_spec(reference_id));
        proof {
            assert forall|a: u64| #[trigger] d.contains(a) && a != block_id
                implies seen.contains(a) by {
                if a == reference_id {
                    assert(self@.in_past(reference_id, a));
                }
            }
            assert forall|a: u64| seen.contains(a) implies #[trigger] d.contains(a) by {
                if a == reference_id {
                    assert(self@.in_past(reference_id, a));
                }
            }
        }
        if block_id < n as u64 {
            proof {
                assert(seen.contains(block_id));
                assert(d =~= seen);
            }
            cnt - 1
        } else {
            proof {
                assert(!seen.contains(block_id));
                assert(d.contains(block_id));
                assert(d =~= seen.insert(block_id));
            }
            cnt
        }
    }

    /// The coloring policy: accept the candidate when its anticone relative
    /// to the reference stays within the k-cluster bound, reject it
    /// otherwise. A pure query; recording the verdict is the caller's task.
    pub fn classify(&self, candidate_id: u64, reference_id: u64) -> (c: Color)
        requires
            self@.wf(),
            !self@.future_set_spec(reference_id).contains(candidate_id),
        ensures
            c == (if self@.anticone_spec(candidate_id, reference_id) <= K as int {
                Color::Accepted
            } else {
                Color::Rejected
            }),
    {
        if self.anticone_size(candidate_id, reference_id) <= K {
            Color::Accepted
        } else {
            Color::Rejected
        }
    }
}

} // verus!
