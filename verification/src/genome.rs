//! Genomes: the evolvable description of a feed-forward network.
//!
//! A genome owns a list of nodes and an ordered list of weighted, directed
//! connections between them. Nodes are kept in a topological order as an
//! invariant: every connection leads from an earlier node to a later,
//! non-input node. Mutation operators preserve that order (a split inserts
//! the new hidden node directly before the split connection's target), so a
//! genome can never hold a cycle or a dangling node reference — the
//! internal-consistency failures are made unrepresentable rather than
//! detected late.
//!
//! Duplicate `(from, to)` pairs within one genome are rejected at mutation
//! time, keeping edge pairs unique by construction.

use vstd::prelude::*;

verus! {

use crate::fixed::FP_ONE;
use crate::innovation::{InnovationHistory, spec_innovation_of, spec_map_after};
use crate::rng::{rand_chance, rand_fp_range, rand_index};

/// The largest weight magnitude a genome may carry; perturbations saturate
/// here instead of growing without bound.
pub const WEIGHT_LIMIT: i64 = 8_000_000;

/// The magnitude of a weight nudge: one tenth at the fixed-point scale.
pub const NUDGE_RANGE: i64 = 100_000;

/// Chance that a weight pass nudges a connection instead of resetting it.
pub const KEEP_CHANCE: i64 = 900_000;

/// Default chance of a weight-mutation pass.
pub const DEFAULT_WEIGHT_CHANCE: i64 = 800_000;

/// Default chance of an add-connection mutation.
pub const DEFAULT_CONNECTION_CHANCE: i64 = 50_000;

/// Default chance of an add-node (split) mutation.
pub const DEFAULT_NODE_CHANCE: i64 = 30_000;

/// The role of a network vertex.
#[derive(Clone, Copy, PartialEq, Eq, Structural, Debug)]
pub enum NodeType {
    Input,
    Hidden,
    Output,
}

/// A network vertex: a stable identifier and its role.
#[derive(Clone, Copy, PartialEq, Eq, Structural, Debug)]
pub struct NodeGene {
    pub id: usize,
    pub kind: NodeType,
}

/// A directed weighted edge between two nodes, carrying the innovation id it
/// was assigned at creation; the id never changes, even when the connection
/// is later disabled.
#[derive(Clone, Copy, PartialEq, Eq, Structural, Debug)]
pub struct Connection {
    pub from: usize,
    pub to: usize,
    pub weight: i64,
    pub enabled: bool,
    pub innovation: usize,
}

/// No two nodes share an identifier.
pub open spec fn unique_ids(nodes: Seq<NodeGene>) -> bool {
    forall|i: int, j: int|
        0 <= i < j < nodes.len() ==> (#[trigger] nodes[i]).id != (#[trigger] nodes[j]).id
}

/// Some node carries the identifier `id`.
pub open spec fn contains_id(nodes: Seq<NodeGene>, id: usize) -> bool {
    exists|i: int| 0 <= i < nodes.len() && (#[trigger] nodes[i]).id == id
}

/// The position of the node with identifier `id`; meaningful only under
/// [`contains_id`] and [`unique_ids`].
pub open spec fn pos_of(nodes: Seq<NodeGene>, id: usize) -> int {
    choose|i: int| 0 <= i < nodes.len() && (#[trigger] nodes[i]).id == id
}

/// Every node identifier lies below `bound` (so `bound` is never reissued).
pub open spec fn ids_below(nodes: Seq<NodeGene>, bound: usize) -> bool {
    forall|i: int| 0 <= i < nodes.len() ==> (#[trigger] nodes[i]).id < bound
}

/// A connection is consistent with the node list: both endpoints exist, the
/// edge leads forward in node order, its target may receive connections
/// (inputs may not), and its weight is bounded.
pub open spec fn conn_ok(nodes: Seq<NodeGene>, c: Connection) -> bool {
    &&& contains_id(nodes, c.from)
    &&& contains_id(nodes, c.to)
    &&& pos_of(nodes, c.from) < pos_of(nodes, c.to)
    &&& nodes[pos_of(nodes, c.to)].kind != NodeType::Input
    &&& -WEIGHT_LIMIT <= c.weight <= WEIGHT_LIMIT
}

/// The number of nodes of the given kind among the first `n` nodes.
pub open spec fn count_kind_prefix(nodes: Seq<NodeGene>, k: NodeType, n: int) -> int
    decreases n,
{
    if n <= 0 {
        0
    } else {
        count_kind_prefix(nodes, k, n - 1) + if nodes[n - 1].kind == k {
            1int
        } else {
            0int
        }
    }
}

/// The number of nodes of the given kind.
pub open spec fn count_kind(nodes: Seq<NodeGene>, k: NodeType) -> int {
    count_kind_prefix(nodes, k, nodes.len() as int)
}

/// The evolvable description of a network: nodes, connections, and the
/// fitness recorded by the most recent evaluation (not part of the genome's
/// identity).
pub struct Genome {
    pub nodes: Vec<NodeGene>,
    pub connections: Vec<Connection>,
    pub fitness: i64,
}

impl Genome {
    /// The genome's invariant: node ids unique, every connection consistent
    /// with the node order, and no duplicate `(from, to)` pair.
    pub open spec fn wf(&self) -> bool {
        &&& unique_ids(self.nodes@)
        &&& forall|k: int|
            0 <= k < self.connections@.len() ==> conn_ok(self.nodes@, #[trigger] self.connections@[k])
        &&& forall|k: int, l: int|
            0 <= k < l < self.connections@.len() ==> !((#[trigger] self.connections@[k]).from
                == (#[trigger] self.connections@[l]).from && self.connections@[k].to
                == self.connections@[l].to)
    }

    /// An empty genome.
    pub fn new() -> (g: Genome)
        ensures
            g.wf(),
            g.nodes@ =~= Seq::<NodeGene>::empty(),
            g.connections@ =~= Seq::<Connection>::empty(),
            g.fitness == 0,
    {
        Genome { nodes: Vec::new(), connections: Vec::new(), fitness: 0 }
    }

    /// An element-for-element copy of this genome.
    pub fn duplicate(&self) -> (g: Genome)
        ensures
            g.nodes@ == self.nodes@,
            g.connections@ == self.connections@,
            g.fitness == self.fitness,
    {
        let mut nodes: Vec<NodeGene> = Vec::new();
        let mut i: usize = 0;
        while i < self.nodes.len()
            invariant
                0 <= i <= self.nodes@.len(),
                nodes@ =~= self.nodes@.subrange(0, i as int),
            decreases self.nodes@.len() - i,
        {
            nodes.push(self.nodes[i]);
            i = i + 1;
        }
        let mut connections: Vec<Connection> = Vec::new();
        let mut j: usize = 0;
        while j < self.connections.len()
            invariant
                0 <= j <= self.connections@.len(),
                connections@ =~= self.connections@.subrange(0, j as int),
            decreases self.connections@.len() - j,
        {
            connections.push(self.connections[j]);
            j = j + 1;
        }
        proof {
            assert(nodes@ =~= self.nodes@);
            assert(connections@ =~= self.connections@);
        }
        Genome { nodes, connections, fitness: self.fitness }
    }

    /// The position of the node with identifier `id`, if present.
    pub fn find_node_pos(&self, id: usize) -> (r: Option<usize>)
        ensures
            match r {
                Some(p) => p < self.nodes@.len() && self.nodes@[p as int].id == id,
                None => !contains_id(self.nodes@, id),
            },
    {
        let n = self.nodes.len();
        let mut i: usize = 0;
        while i < n
            invariant
                n == self.nodes@.len(),
                0 <= i <= n,
                forall|j: int| 0 <= j < i ==> (#[trigger] self.nodes@[j]).id != id,
            decreases n - i,
        {
            if self.nodes[i].id == id {
                return Some(i);
            }
            i = i + 1;
        }
        None
    }

    /// Appends a fresh node whose identifier is the current node count, and
    /// returns that identifier. The identifier must not be in use yet.
    pub fn add_node(&mut self, kind: NodeType) -> (id: usize)
        requires
            old(self).wf(),
            !contains_id(old(self).nodes@, old(self).nodes@.len() as usize),
        ensures
            final(self).wf(),
            id == old(self).nodes@.len(),
            final(self).nodes@ == old(self).nodes@.push(NodeGene { id, kind }),
            final(self).connections@ == old(self).connections@,
            final(self).fitness == old(self).fitness,
    {
        let id = self.nodes.len();
        let g = NodeGene { id, kind };
        proof {
            lemma_insert_fresh_node(self.nodes@, self.nodes@.len() as int, g);
            assert(self.nodes@.insert(self.nodes@.len() as int, g) =~= self.nodes@.push(g));
        }
        self.nodes.push(g);
        proof {
            lemma_wf_after_node_extension(*old(self), *self);
        }
        id
    }
}

/// Some connection already joins `from` to `to`.
pub open spec fn pair_exists(conns: Seq<Connection>, from: usize, to: usize) -> bool {
    exists|k: int|
        0 <= k < conns.len() && (#[trigger] conns[k]).from == from && conns[k].to == to
}

/// Whether an add-connection mutation from `from` to `to` is accepted: both
/// nodes exist, the edge leads forward in node order (which also rejects a
/// self-loop), the target is not an input, and the pair is not yet present.
/// Keeping to forward edges is coarser than a reachability check — some
/// acyclic backward pairs are rejected too — but it keeps topological
/// validity by construction rather than by a cycle search.
pub open spec fn can_add(nodes: Seq<NodeGene>, conns: Seq<Connection>, from: usize, to: usize) -> bool {
    &&& contains_id(nodes, from)
    &&& contains_id(nodes, to)
    &&& pos_of(nodes, from) < pos_of(nodes, to)
    &&& nodes[pos_of(nodes, to)].kind != NodeType::Input
    &&& !pair_exists(conns, from, to)
}

/// A weight clamped to the admissible range.
pub open spec fn clamp_weight(x: int) -> int {
    if x < -WEIGHT_LIMIT {
        -WEIGHT_LIMIT as int
    } else if x > WEIGHT_LIMIT {
        WEIGHT_LIMIT as int
    } else {
        x
    }
}

/// The immutable identity of a connection: its endpoints and its innovation
/// id, which is assigned once and never changes, even when the connection
/// is disabled. Mutation may alter only a connection's weight and enabled
/// flag.
pub open spec fn same_edge(before: Connection, after: Connection) -> bool {
    &&& after.from == before.from
    &&& after.to == before.to
    &&& after.innovation == before.innovation
}

/// The old connections are still there, in their old order, each with its
/// old endpoints and innovation id; new connections may only follow them.
pub open spec fn edges_kept(before: Seq<Connection>, after: Seq<Connection>) -> bool {
    &&& after.len() >= before.len()
    &&& forall|k: int| 0 <= k < before.len() ==> same_edge(#[trigger] before[k], after[k])
}

/// Every old node still stands, unchanged in id and kind, somewhere in the
/// new node list: nodes are never removed or altered, only added.
pub open spec fn nodes_kept(before: Seq<NodeGene>, after: Seq<NodeGene>) -> bool {
    forall|i: int| 0 <= i < before.len() ==> #[trigger] after.contains(before[i])
}

proof fn lemma_nodes_kept_refl(s: Seq<NodeGene>)
    ensures
        nodes_kept(s, s),
{
    assert forall|i: int| 0 <= i < s.len() implies #[trigger] s.contains(s[i]) by {
        assert(s[i] == s[i]);
    }
}

proof fn lemma_edges_kept_refl(s: Seq<Connection>)
    ensures
        edges_kept(s, s),
{
}

proof fn lemma_edges_kept_trans(a: Seq<Connection>, b: Seq<Connection>, c: Seq<Connection>)
    requires
        edges_kept(a, b),
        edges_kept(b, c),
    ensures
        edges_kept(a, c),
{
    assert forall|k: int| 0 <= k < a.len() implies same_edge(#[trigger] a[k], c[k]) by {
        assert(same_edge(a[k], b[k]));
        assert(same_edge(b[k], c[k]));
    }
}

impl Genome {
    /// Replaces the weight of connection `idx` with `w`.
    pub fn set_weight(&mut self, idx: usize, w: i64)
        requires
            old(self).wf(),
            idx < old(self).connections@.len(),
            -WEIGHT_LIMIT <= w <= WEIGHT_LIMIT,
        ensures
            final(self).wf(),
            final(self).nodes@ == old(self).nodes@,
            final(self).fitness == old(self).fitness,
            final(self).connections@ == old(self).connections@.update(
                idx as int,
                ({
                    let c = old(self).connections@[idx as int];
                    Connection {
                        from: c.from,
                        to: c.to,
                        weight: w,
                        enabled: c.enabled,
                        innovation: c.innovation,
                    }
                }),
            ),
    {
        let c = self.connections[idx];
        self.connections[idx] = Connection {
            from: c.from,
            to: c.to,
            weight: w,
            enabled: c.enabled,
            innovation: c.innovation,
        };
    }

    /// Perturbs the weight of connection `idx` by `delta`, saturating at the
    /// admissible weight range.
    pub fn nudge_weight(&mut self, idx: usize, delta: i64)
        requires
            old(self).wf(),
            idx < old(self).connections@.len(),
            -FP_ONE <= delta <= FP_ONE,
        ensures
            final(self).wf(),
            final(self).nodes@ == old(self).nodes@,
            final(self).fitness == old(self).fitness,
            final(self).connections@ == old(self).connections@.update(
                idx as int,
                ({
                    let c = old(self).connections@[idx as int];
                    Connection {
                        from: c.from,
                        to: c.to,
                        weight: clamp_weight(c.weight + delta) as i64,
                        enabled: c.enabled,
                        innovation: c.innovation,
                    }
                }),
            ),
    {
        let c = self.connections[idx];
        let raw = c.weight + delta;
        let w = if raw < -WEIGHT_LIMIT {
            -WEIGHT_LIMIT
        } else if raw > WEIGHT_LIMIT {
            WEIGHT_LIMIT
        } else {
            raw
        };
        self.set_weight(idx, w);
    }

    /// Attempts to add an enabled connection from node `from` to node `to`
    /// with the given weight, consulting the innovation registry for the
    /// edge's identity. The attempt is accepted exactly under [`can_add`];
    /// a rejected attempt changes nothing.
    #[verifier::loop_isolation(false)]
    pub fn add_connection(
        &mut self,
        from: usize,
        to: usize,
        weight: i64,
        history: &mut InnovationHistory,
    ) -> (added: bool)
        requires
            old(self).wf(),
            old(history).wf(),
            -WEIGHT_LIMIT <= weight <= WEIGHT_LIMIT,
        ensures
            final(self).wf(),
            final(history).wf(),
            final(self).nodes@ == old(self).nodes@,
            final(self).fitness == old(self).fitness,
            final(history).next_node_id == old(history).next_node_id,
            added == can_add(old(self).nodes@, old(self).connections@, from, to),
            added ==> final(self).connections@ == old(self).connections@.push(
                (Connection {
                    from,
                    to,
                    weight,
                    enabled: true,
                    innovation: spec_innovation_of(old(history).map@, from, to) as usize,
                }),
            ) && final(history).map@ == spec_map_after(old(history).map@, from, to),
            !added ==> final(self).connections@ == old(self).connections@ && *final(history)
                == *old(history),
    {
        let pf = match self.find_node_pos(from) {
            Some(p) => p,
            None => {
                return false;
            },
        };
        let pt = match self.find_node_pos(to) {
            Some(p) => p,
            None => {
                return false;
            },
        };
        proof {
            lemma_pos_of_unique(self.nodes@, pf as int);
            lemma_pos_of_unique(self.nodes@, pt as int);
        }
        if pf >= pt {
            return false;
        }
        if matches!(self.nodes[pt].kind, NodeType::Input) {
            return false;
        }
        let n = self.connections.len();
        let mut k: usize = 0;
        while k < n
            invariant
                n == self.connections@.len(),
                0 <= k <= n,
                forall|j: int|
                    0 <= j < k ==> !((#[trigger] self.connections@[j]).from == from
                        && self.connections@[j].to == to),
            decreases n - k,
        {
            let c = self.connections[k];
            if c.from == from && c.to == to {
                return false;
            }
            k = k + 1;
        }
        assert(!pair_exists(self.connections@, from, to));
        let innovation = history.get_innovation(from, to);
        self.connections.push(Connection { from, to, weight, enabled: true, innovation });
        true
    }
}

impl Genome {
    /// The add-node mutation: splits the enabled connection at `conn_idx`,
    /// disabling it in place (its weight and innovation id remain), inserting
    /// a fresh hidden node directly before the connection's target, and
    /// appending two enabled connections — one from the old source to the new
    /// node with weight 1.0, one from the new node to the old target with the
    /// split connection's original weight — so the split is weight-preserving
    /// and the new node's immediate effect on the network is neutral.
    #[verifier::rlimit(50)]
    pub fn split_connection(&mut self, conn_idx: usize, history: &mut InnovationHistory)
        requires
            old(self).wf(),
            old(history).wf(),
            conn_idx < old(self).connections@.len(),
            old(self).connections@[conn_idx as int].enabled,
            ids_below(old(self).nodes@, old(history).next_node_id),
            old(history).next_node_id < usize::MAX,
        ensures
            final(self).wf(),
            final(history).wf(),
            final(self).fitness == old(self).fitness,
            final(history).next_node_id == old(history).next_node_id + 1,
            ids_below(final(self).nodes@, final(history).next_node_id),
            nodes_kept(old(self).nodes@, final(self).nodes@),
            edges_kept(old(self).connections@, final(self).connections@),
            count_kind(final(self).nodes@, NodeType::Input) == count_kind(
                old(self).nodes@,
                NodeType::Input,
            ),
            count_kind(final(self).nodes@, NodeType::Output) == count_kind(
                old(self).nodes@,
                NodeType::Output,
            ),
            ({
                let c = old(self).connections@[conn_idx as int];
                let new_id = old(history).next_node_id;
                let p = pos_of(old(self).nodes@, c.to);
                let i1 = spec_innovation_of(old(history).map@, c.from, new_id);
                let m1 = spec_map_after(old(history).map@, c.from, new_id);
                let i2 = spec_innovation_of(m1, new_id, c.to);
                &&& final(self).nodes@ == old(self).nodes@.insert(
                    p,
                    (NodeGene { id: new_id, kind: NodeType::Hidden }),
                )
                &&& final(self).connections@ == old(self).connections@.update(
                    conn_idx as int,
                    (Connection {
                        from: c.from,
                        to: c.to,
                        weight: c.weight,
                        enabled: false,
                        innovation: c.innovation,
                    }),
                ).push(
                    (Connection {
                        from: c.from,
                        to: new_id,
                        weight: FP_ONE,
                        enabled: true,
                        innovation: i1 as usize,
                    }),
                ).push(
                    (Connection {
                        from: new_id,
                        to: c.to,
                        weight: c.weight,
                        enabled: true,
                        innovation: i2 as usize,
                    }),
                )
                &&& final(history).map@ == spec_map_after(m1, new_id, c.to)
            }),
    {
        let ghost n0 = self.nodes@;
        let c = self.connections[conn_idx];
        self.connections[conn_idx] = Connection {
            from: c.from,
            to: c.to,
            weight: c.weight,
            enabled: false,
            innovation: c.innovation,
        };
        let new_id = history.allocate_node_id();
        proof {
            assert(conn_ok(n0, c));
            assert forall|i: int| 0 <= i < n0.len() implies (#[trigger] n0[i]).id != new_id by {
                assert(n0[i].id < new_id);
            }
            assert(!contains_id(n0, new_id));
        }
        let p = match self.find_node_pos(c.to) {
            Some(p) => p,
            None => {
                proof {
                    assert(contains_id(n0, c.to));
                    assert(false);
                }
                0
            },
        };
        proof {
            lemma_pos_of_unique(n0, p as int);
            assert(p as int == pos_of(n0, c.to));
            lemma_insert_fresh_node(n0, p as int, NodeGene { id: new_id, kind: NodeType::Hidden });
            lemma_count_insert(
                n0,
                p as int,
                NodeGene { id: new_id, kind: NodeType::Hidden },
                NodeType::Input,
                n0.len() as int + 1,
            );
            lemma_count_insert(
                n0,
                p as int,
                NodeGene { id: new_id, kind: NodeType::Hidden },
                NodeType::Output,
                n0.len() as int + 1,
            );
        }
        self.nodes.insert(p, NodeGene { id: new_id, kind: NodeType::Hidden });
        let innov1 = history.get_innovation(c.from, new_id);
        self.connections.push(
            Connection { from: c.from, to: new_id, weight: FP_ONE, enabled: true, innovation: innov1 },
        );
        let innov2 = history.get_innovation(new_id, c.to);
        self.connections.push(
            Connection { from: new_id, to: c.to, weight: c.weight, enabled: true, innovation: innov2 },
        );
        proof {
            let ns = self.nodes@;
            let cs = self.connections@;
            let old_cs = old(self).connections@;
            let len = old_cs.len() as int;
            // Consistency of every connection with the extended node list.
            assert forall|k: int| 0 <= k < cs.len() implies conn_ok(ns, #[trigger] cs[k]) by {
                if k < len {
                    let ck = old_cs[k];
                    assert(conn_ok(n0, ck));
                    assert(cs[k].from == ck.from && cs[k].to == ck.to && cs[k].weight == ck.weight);
                    assert(contains_id(n0, ck.from) && contains_id(n0, ck.to));
                } else if k == len {
                    assert(contains_id(n0, c.from));
                    assert(pos_of(n0, c.from) < p as int);
                } else {
                    assert(k == len + 1);
                    assert(contains_id(n0, c.to));
                    assert(ns[p + 1] == n0[p as int]);
                }
            }
            // No duplicate pairs: the fresh node id occurs in no old connection.
            assert forall|k: int| 0 <= k < len implies (#[trigger] cs[k]).from != new_id && cs[k].to
                != new_id by {
                let ck = old_cs[k];
                assert(conn_ok(n0, ck));
                let qf = pos_of(n0, ck.from);
                let qt = pos_of(n0, ck.to);
                assert(n0[qf].id == ck.from && n0[qf].id < new_id);
                assert(n0[qt].id == ck.to && n0[qt].id < new_id);
            }
            assert forall|k: int, l: int| 0 <= k < l < cs.len() implies !((#[trigger] cs[k]).from
                == (#[trigger] cs[l]).from && cs[k].to == cs[l].to) by {
                if l < len {
                    assert(old_cs[k].from == cs[k].from && old_cs[k].to == cs[k].to);
                    assert(old_cs[l].from == cs[l].from && old_cs[l].to == cs[l].to);
                } else if l == len {
                    assert(cs[l].to == new_id);
                } else {
                    assert(cs[l].from == new_id);
                    if k == len {
                        assert(cs[k].from == c.from);
                        assert(contains_id(n0, c.from));
                        let qf = pos_of(n0, c.from);
                        assert(n0[qf].id == c.from && n0[qf].id < new_id);
                    }
                }
            }
            // No node is ever removed or altered.
            assert forall|i: int| 0 <= i < n0.len() implies #[trigger] ns.contains(n0[i]) by {
                if i < p as int {
                    assert(ns[i] == n0[i]);
                    assert(ns.contains(ns[i]));
                } else {
                    assert(ns[i + 1] == n0[i]);
                    assert(ns.contains(ns[i + 1]));
                }
            }
            // Existing connections keep their endpoints and innovation ids.
            assert forall|k: int| 0 <= k < old_cs.len() implies same_edge(
                #[trigger] old_cs[k],
                cs[k],
            ) by {
                if k != conn_idx as int {
                    assert(cs[k] == old_cs[k]);
                }
            }
            // Every id stays below the advanced node counter.
            assert forall|i: int| 0 <= i < ns.len() implies (#[trigger] ns[i]).id < new_id + 1 by {
                if i < p as int {
                    assert(ns[i] == n0[i]);
                } else if i == p as int {
                    assert(ns[i].id == new_id);
                } else {
                    assert(ns[i] == n0[i - 1]);
                }
            }
        }
    }
}

impl Genome {
    /// One mutation pass with explicit probabilities, each given as a
    /// fixed-point value in `[0, FP_ONE]`. Three independently gated events:
    /// a weight pass (each enabled connection nudged by a small uniform
    /// delta with high probability, or reset to a fresh uniform weight), an
    /// add-connection attempt between two uniformly chosen nodes, and an
    /// add-node split of a uniformly chosen enabled connection. Infeasible
    /// attempts are silently skipped; mutation never fails. Nothing is ever
    /// removed: old nodes keep id and kind, old connections keep endpoints
    /// and innovation id, and only weights, enabled flags and appended
    /// nodes or connections may differ.
    #[verifier::rlimit(100)]
    pub fn mutate_with_rates(
        &mut self,
        history: &mut InnovationHistory,
        weight_chance: i64,
        connection_chance: i64,
        node_chance: i64,
    )
        requires
            old(self).wf(),
            old(history).wf(),
            ids_below(old(self).nodes@, old(history).next_node_id),
            old(history).next_node_id < usize::MAX,
            0 <= weight_chance <= FP_ONE,
            0 <= connection_chance <= FP_ONE,
            0 <= node_chance <= FP_ONE,
        ensures
            final(self).wf(),
            final(history).wf(),
            final(self).fitness == old(self).fitness,
            ids_below(final(self).nodes@, final(history).next_node_id),
            old(history).next_node_id <= final(history).next_node_id,
            final(history).next_node_id <= old(history).next_node_id + 1,
            nodes_kept(old(self).nodes@, final(self).nodes@),
            edges_kept(old(self).connections@, final(self).connections@),
            final(self).nodes@.len() <= old(self).nodes@.len() + 1,
            final(self).connections@.len() <= old(self).connections@.len() + 3,
            count_kind(final(self).nodes@, NodeType::Input) == count_kind(
                old(self).nodes@,
                NodeType::Input,
            ),
            count_kind(final(self).nodes@, NodeType::Output) == count_kind(
                old(self).nodes@,
                NodeType::Output,
            ),
    {
        proof {
            lemma_nodes_kept_refl(old(self).nodes@);
            lemma_edges_kept_refl(old(self).connections@);
        }
        if rand_chance(weight_chance) {
            let n = self.connections.len();
            let mut i: usize = 0;
            while i < n
                invariant
                    self.wf(),
                    n == self.connections@.len(),
                    n == old(self).connections@.len(),
                    0 <= i <= n,
                    self.nodes@ == old(self).nodes@,
                    self.fitness == old(self).fitness,
                    forall|k: int|
                        0 <= k < n ==> same_edge(
                            #[trigger] old(self).connections@[k],
                            self.connections@[k],
                        ),
                decreases n - i,
            {
                if self.connections[i].enabled {
                    if rand_chance(KEEP_CHANCE) {
                        let delta = rand_fp_range(-NUDGE_RANGE, NUDGE_RANGE);
                        self.nudge_weight(i, delta);
                    } else {
                        let w = rand_fp_range(-FP_ONE, FP_ONE);
                        self.set_weight(i, w);
                    }
                }
                i = i + 1;
            }
            proof {
                assert(edges_kept(old(self).connections@, self.connections@));
            }
        }
        let ghost mid = *self;
        proof {
            assert(mid.nodes@ == old(self).nodes@);
            assert(edges_kept(old(self).connections@, mid.connections@));
        }
        if rand_chance(connection_chance) {
            if self.nodes.len() > 0 {
                let a = rand_index(self.nodes.len());
                let b = rand_index(self.nodes.len());
                let from = self.nodes[a].id;
                let to = self.nodes[b].id;
                let w = rand_fp_range(-FP_ONE, FP_ONE);
                let _ = self.add_connection(from, to, w, history);
                proof {
                    assert forall|k: int| 0 <= k < mid.connections@.len() implies same_edge(
                        #[trigger] mid.connections@[k],
                        self.connections@[k],
                    ) by {
                        assert(self.connections@[k] == mid.connections@[k]);
                    }
                    assert(edges_kept(mid.connections@, self.connections@));
                    lemma_edges_kept_trans(
                        old(self).connections@,
                        mid.connections@,
                        self.connections@,
                    );
                }
            }
        }
        let ghost mid2 = *self;
        proof {
            assert(mid2.nodes@ == old(self).nodes@);
            assert(edges_kept(old(self).connections@, mid2.connections@));
        }
        if rand_chance(node_chance) {
            let n = self.connections.len();
            let mut enabled: Vec<usize> = Vec::new();
            let mut i: usize = 0;
            while i < n
                invariant
                    n == self.connections@.len(),
                    0 <= i <= n,
                    forall|j: int|
                        0 <= j < enabled@.len() ==> (#[trigger] enabled@[j]) < n
                            && self.connections@[enabled@[j] as int].enabled,
                decreases n - i,
            {
                if self.connections[i].enabled {
                    enabled.push(i);
                }
                i = i + 1;
            }
            if enabled.len() > 0 {
                let pick = rand_index(enabled.len());
                let conn_idx = enabled[pick];
                self.split_connection(conn_idx, history);
                proof {
                    assert(nodes_kept(old(self).nodes@, self.nodes@));
                    lemma_edges_kept_trans(
                        old(self).connections@,
                        mid2.connections@,
                        self.connections@,
                    );
                }
            }
        }
        proof {
            assert(nodes_kept(old(self).nodes@, self.nodes@));
            assert(edges_kept(old(self).connections@, self.connections@));
        }
    }

    /// One mutation pass with the engine's default probabilities: an 80%
    /// chance of a weight pass, 5% of an add-connection attempt, and 3% of
    /// an add-node split. Preserves everything [`mutate_with_rates`] does.
    pub fn mutate(&mut self, history: &mut InnovationHistory)
        requires
            old(self).wf(),
            old(history).wf(),
            ids_below(old(self).nodes@, old(history).next_node_id),
            old(history).next_node_id < usize::MAX,
        ensures
            final(self).wf(),
            final(history).wf(),
            final(self).fitness == old(self).fitness,
            ids_below(final(self).nodes@, final(history).next_node_id),
            old(history).next_node_id <= final(history).next_node_id,
            final(history).next_node_id <= old(history).next_node_id + 1,
            nodes_kept(old(self).nodes@, final(self).nodes@),
            edges_kept(old(self).connections@, final(self).connections@),
            final(self).nodes@.len() <= old(self).nodes@.len() + 1,
            final(self).connections@.len() <= old(self).connections@.len() + 3,
            count_kind(final(self).nodes@, NodeType::Input) == count_kind(
                old(self).nodes@,
                NodeType::Input,
            ),
            count_kind(final(self).nodes@, NodeType::Output) == count_kind(
                old(self).nodes@,
                NodeType::Output,
            ),
    {
        self.mutate_with_rates(
            history,
            DEFAULT_WEIGHT_CHANCE,
            DEFAULT_CONNECTION_CHANCE,
            DEFAULT_NODE_CHANCE,
        );
    }
}

/// Any index holding `id` is the unique position of `id`.
pub proof fn lemma_pos_of_unique(nodes: Seq<NodeGene>, i: int)
    requires
        unique_ids(nodes),
        0 <= i < nodes.len(),
    ensures
        contains_id(nodes, nodes[i].id),
        pos_of(nodes, nodes[i].id) == i,
{
    let id = nodes[i].id;
    assert(contains_id(nodes, id));
    let j = pos_of(nodes, id);
    assert(0 <= j < nodes.len() && nodes[j].id == id);
    if i < j {
        assert(nodes[i].id != nodes[j].id);
    } else if j < i {
        assert(nodes[j].id != nodes[i].id);
    }
}

/// How node positions shift when a node with a fresh identifier is inserted
/// at position `p`: the new node lands at `p`, earlier nodes keep their
/// position, and later nodes shift up by one.
proof fn lemma_insert_fresh_node(nodes: Seq<NodeGene>, p: int, g: NodeGene)
    requires
        unique_ids(nodes),
        0 <= p <= nodes.len(),
        !contains_id(nodes, g.id),
    ensures
        unique_ids(nodes.insert(p, g)),
        contains_id(nodes.insert(p, g), g.id),
        pos_of(nodes.insert(p, g), g.id) == p,
        forall|id: usize| #[trigger]
            contains_id(nodes, id) ==> contains_id(nodes.insert(p, g), id) && pos_of(
                nodes.insert(p, g),
                id,
            ) == (if pos_of(nodes, id) < p {
                pos_of(nodes, id)
            } else {
                pos_of(nodes, id) + 1
            }) && nodes.insert(p, g)[pos_of(nodes.insert(p, g), id)] == nodes[pos_of(nodes, id)],
{
    let ins = nodes.insert(p, g);
    assert(ins.len() == nodes.len() + 1);
    assert(forall|i: int| 0 <= i < p ==> #[trigger] ins[i] == nodes[i]);
    assert(ins[p] == g);
    assert(forall|i: int| p < i < ins.len() ==> #[trigger] ins[i] == nodes[i - 1]);
    assert forall|i: int, j: int| 0 <= i < j < ins.len() implies (#[trigger] ins[i]).id != (
    #[trigger] ins[j]).id by {
        if i == p {
            assert(ins[j] == nodes[j - 1]);
            assert(!(exists|q: int| 0 <= q < nodes.len() && (#[trigger] nodes[q]).id == g.id));
            assert(nodes[j - 1].id != g.id);
        } else if j == p {
            assert(ins[i] == nodes[i]);
            assert(nodes[i].id != g.id);
        } else {
            let i0 = if i < p {
                i
            } else {
                i - 1
            };
            let j0 = if j < p {
                j
            } else {
                j - 1
            };
            assert(ins[i] == nodes[i0] && ins[j] == nodes[j0]);
            assert(nodes[i0].id != nodes[j0].id);
        }
    }
    lemma_pos_of_unique(ins, p);
    assert forall|id: usize| #[trigger] contains_id(nodes, id) implies contains_id(ins, id)
        && pos_of(ins, id) == (if pos_of(nodes, id) < p {
        pos_of(nodes, id)
    } else {
        pos_of(nodes, id) + 1
    }) && ins[pos_of(ins, id)] == nodes[pos_of(nodes, id)] by {
        let q = pos_of(nodes, id);
        assert(0 <= q < nodes.len() && nodes[q].id == id);
        if q < p {
            assert(ins[q] == nodes[q]);
            lemma_pos_of_unique(ins, q);
        } else {
            assert(ins[q + 1] == nodes[q]);
            lemma_pos_of_unique(ins, q + 1);
        }
    }
}

/// How the per-kind node count changes when a node is inserted at `p`:
/// counting the first `n` positions of the extended list matches counting
/// the corresponding positions of the original, plus one if the inserted
/// node has the counted kind and lies within the prefix.
proof fn lemma_count_insert(nodes: Seq<NodeGene>, p: int, g: NodeGene, k: NodeType, n: int)
    requires
        0 <= p <= nodes.len(),
        0 <= n <= nodes.len() + 1,
    ensures
        count_kind_prefix(nodes.insert(p, g), k, n) == if n <= p {
            count_kind_prefix(nodes, k, n)
        } else {
            count_kind_prefix(nodes, k, n - 1) + if g.kind == k {
                1int
            } else {
                0int
            }
        },
    decreases n,
{
    if n > 0 {
        lemma_count_insert(nodes, p, g, k, n - 1);
        let ins = nodes.insert(p, g);
        if n - 1 < p {
            assert(ins[n - 1] == nodes[n - 1]);
        } else if n - 1 == p {
            assert(ins[n - 1] == g);
        } else {
            assert(ins[n - 1] == nodes[n - 2]);
        }
    }
}

/// Well-formedness survives any change that keeps the connections and
/// extends the node list in a position-preserving way.
proof fn lemma_wf_after_node_extension(before: Genome, after: Genome)
    requires
        before.wf(),
        after.connections@ == before.connections@,
        unique_ids(after.nodes@),
        forall|id: usize| #[trigger]
            contains_id(before.nodes@, id) ==> contains_id(after.nodes@, id) && pos_of(
                after.nodes@,
                id,
            ) == pos_of(before.nodes@, id) && after.nodes@[pos_of(after.nodes@, id)]
                == before.nodes@[pos_of(before.nodes@, id)],
    ensures
        after.wf(),
{
    assert forall|k: int| 0 <= k < after.connections@.len() implies conn_ok(
        after.nodes@,
        #[trigger] after.connections@[k],
    ) by {
        let c = before.connections@[k];
        assert(conn_ok(before.nodes@, c));
        assert(contains_id(before.nodes@, c.from));
        assert(contains_id(before.nodes@, c.to));
    }
}

} // verus!
