//! The innovation registry: a run-wide historical record that assigns every
//! structural change a stable identifier, so that genomes of different
//! shapes can be aligned by lineage.
//!
//! Edge innovations are stored as a list of `((from, to), id)` entries in
//! which the identifier of each entry is its position, so identifiers are
//! allocated sequentially and an existing pair always maps back to the
//! identifier it was first given. Node identifiers for split mutations come
//! from a second monotone counter.

use vstd::prelude::*;

verus! {

/// One recorded edge innovation: the `(from, to)` node pair and its id.
pub type InnovationEntry = ((usize, usize), usize);

/// The pair `(a, b)` occurs among the recorded entries.
pub open spec fn has_pair(m: Seq<InnovationEntry>, a: usize, b: usize) -> bool {
    exists|i: int| 0 <= i < m.len() && #[trigger] m[i].0 == (a, b)
}

/// The index of the entry recording `(a, b)`; meaningful only when
/// [`has_pair`] holds and the registry is well formed (pairs distinct).
pub open spec fn pair_index(m: Seq<InnovationEntry>, a: usize, b: usize) -> int {
    choose|i: int| 0 <= i < m.len() && #[trigger] m[i].0 == (a, b)
}

/// Well-formedness of the recorded entries: each entry's identifier is its
/// position, and no `(from, to)` pair is recorded twice.
pub open spec fn map_wf(m: Seq<InnovationEntry>) -> bool {
    &&& m.len() <= usize::MAX
    &&& forall|i: int| 0 <= i < m.len() ==> #[trigger] m[i].1 == i
    &&& forall|i: int, j: int| 0 <= i < j < m.len() ==> (#[trigger] m[i]).0 != (#[trigger] m[j]).0
}

/// The identifier a lookup-or-record of `(a, b)` yields on a well-formed
/// registry: the recorded id if the pair is known, the next fresh id if not.
pub open spec fn spec_innovation_of(m: Seq<InnovationEntry>, a: usize, b: usize) -> int {
    if has_pair(m, a, b) {
        pair_index(m, a, b)
    } else {
        m.len() as int
    }
}

/// The recorded entries after a lookup-or-record of `(a, b)`.
pub open spec fn spec_map_after(m: Seq<InnovationEntry>, a: usize, b: usize) -> Seq<
    InnovationEntry,
> {
    if has_pair(m, a, b) {
        m
    } else {
        m.push(((a, b), m.len() as usize))
    }
}

/// The run-wide registry of structural innovations.
pub struct InnovationHistory {
    /// The recorded edge innovations, id equal to position.
    pub map: Vec<InnovationEntry>,
    /// The next unassigned edge innovation id; always `map.len()`.
    pub next_innovation: usize,
    /// The next unassigned node id for split mutations.
    pub next_node_id: usize,
}

impl InnovationHistory {
    /// The registry's invariant.
    pub open spec fn wf(&self) -> bool {
        &&& map_wf(self.map@)
        &&& self.next_innovation == self.map@.len()
    }

    /// An empty registry whose node counter starts at `first_node_id`, so
    /// that node ids already in use by seed genomes are never reissued.
    pub fn new(first_node_id: usize) -> (h: Self)
        ensures
            h.wf(),
            h.map@ =~= Seq::<InnovationEntry>::empty(),
            h.next_innovation == 0,
            h.next_node_id == first_node_id,
    {
        InnovationHistory { map: Vec::new(), next_innovation: 0, next_node_id: first_node_id }
    }

    /// Returns the innovation id of the structural edge `(from, to)`: the id
    /// recorded when the pair first appeared in this run, or a freshly
    /// allocated id that is recorded now. Total, and never reissues an id.
    pub fn get_innovation(&mut self, from: usize, to: usize) -> (r: usize)
        requires
            old(self).wf(),
        ensures
            final(self).wf(),
            r as int == spec_innovation_of(old(self).map@, from, to),
            final(self).map@ == spec_map_after(old(self).map@, from, to),
            final(self).next_node_id == old(self).next_node_id,
            has_pair(old(self).map@, from, to) ==> *final(self) == *old(self),
            !has_pair(old(self).map@, from, to) ==> r == old(self).map@.len(),
    {
        let n = self.map.len();
        let mut i: usize = 0;
        while i < n
            invariant
                n == self.map@.len(),
                0 <= i <= n,
                self.wf(),
                forall|j: int| 0 <= j < i ==> (#[trigger] self.map@[j]).0 != (from, to),
            decreases n - i,
        {
            let ((f, t), id) = self.map[i];
            if f == from && t == to {
                proof {
                    assert(self.map@[i as int].0 == (from, to));
                    lemma_pair_index_unique(self.map@, from, to, i as int);
                }
                return id;
            }
            i = i + 1;
        }
        assert(!has_pair(self.map@, from, to));
        let id = self.map.len();
        self.map.push(((from, to), id));
        self.next_innovation = self.map.len();
        id
    }

    /// Allocates a fresh, never-before-issued node id and advances the node
    /// counter.
    pub fn allocate_node_id(&mut self) -> (r: usize)
        requires
            old(self).wf(),
            old(self).next_node_id < usize::MAX,
        ensures
            final(self).wf(),
            r == old(self).next_node_id,
            final(self).next_node_id == old(self).next_node_id + 1,
            final(self).map@ == old(self).map@,
            final(self).next_innovation == old(self).next_innovation,
    {
        let id = self.next_node_id;
        self.next_node_id = self.next_node_id + 1;
        id
    }
}

/// On a well-formed registry the entry recording a pair is unique, so any
/// index holding the pair is the [`pair_index`].
proof fn lemma_pair_index_unique(m: Seq<InnovationEntry>, a: usize, b: usize, i: int)
    requires
        map_wf(m),
        0 <= i < m.len(),
        m[i].0 == (a, b),
    ensures
        has_pair(m, a, b),
        pair_index(m, a, b) == i,
{
    assert(has_pair(m, a, b));
    let j = pair_index(m, a, b);
    assert(0 <= j < m.len() && m[j].0 == (a, b));
    if i < j {
        assert(m[i].0 != m[j].0);
    } else if j < i {
        assert(m[j].0 != m[i].0);
    }
}

/// Innovation stability: asking the registry for the same structural pair a
/// second time, with no intervening reset, yields the same identifier and
/// leaves the registry unchanged.
pub proof fn lemma_innovation_stability(m: Seq<InnovationEntry>, a: usize, b: usize)
    requires
        map_wf(m),
        m.len() < usize::MAX,
    ensures
        map_wf(spec_map_after(m, a, b)),
        spec_innovation_of(spec_map_after(m, a, b), a, b) == spec_innovation_of(m, a, b),
        spec_map_after(spec_map_after(m, a, b), a, b) == spec_map_after(m, a, b),
{
    if !has_pair(m, a, b) {
        let m1 = m.push(((a, b), m.len() as usize));
        assert forall|i: int, j: int| 0 <= i < j < m1.len() implies (#[trigger] m1[i]).0 != (
        #[trigger] m1[j]).0 by {
            if j < m.len() {
                assert(m[i].0 != m[j].0);
            } else {
                assert(m1[j].0 == (a, b));
                assert(m1[i] == m[i]);
            }
        }
        assert(map_wf(m1));
        assert(m1[m.len() as int].0 == (a, b));
        lemma_pair_index_unique(m1, a, b, m.len() as int);
    }
}

/// Innovation distinctness: identifiers obtained for two structurally
/// distinct pairs are always distinct, whether or not either pair was
/// already recorded.
pub proof fn lemma_innovation_distinct(m: Seq<InnovationEntry>, a: usize, b: usize, c: usize, d: usize)
    requires
        map_wf(m),
        m.len() < usize::MAX,
        (a, b) != (c, d),
    ensures
        spec_innovation_of(spec_map_after(m, a, b), c, d) != spec_innovation_of(m, a, b),
{
    lemma_innovation_stability(m, a, b);
    let m1 = spec_map_after(m, a, b);
    let i1 = spec_innovation_of(m, a, b);
    if has_pair(m, a, b) {
        assert(m1 == m);
        assert(m[i1].0 == (a, b));
        if has_pair(m, c, d) {
            let j = pair_index(m, c, d);
            assert(m[j].0 == (c, d));
            if i1 < j {
                assert(m[i1].0 != m[j].0);
            } else if j < i1 {
                assert(m[j].0 != m[i1].0);
            }
        }
    } else {
        assert(i1 == m.len() as int);
        assert(m1 == m.push(((a, b), m.len() as usize)));
        if has_pair(m1, c, d) {
            let j = pair_index(m1, c, d);
            assert(m1[j].0 == (c, d));
            assert(j != m.len() as int);
        }
    }
}

} // verus!
