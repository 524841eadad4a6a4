//! The network compiler and activation engine.
//!
//! [`Genome::compile`] flattens a genome into a [`NeuralNetwork`]: a dense
//! array of per-node runtime state with resolved incoming edges, an
//! execution order holding every non-input node exactly once with every node
//! after all of its sources, the input count, and the output positions in
//! genome order. Because a genome's invariant keeps its connections forward
//! in node order, ascending node position is itself the evaluation order;
//! cycles are unrepresentable and compilation is total.
//!
//! [`NeuralNetwork::activate`] seeds the input nodes, sweeps the execution
//! order computing each node's squashed weighted sum (the sum saturates at
//! [`SAT_LIMIT`], beyond which the sigmoid is constant anyway), and gathers
//! the output values in genome order. It is a pure function of the network
//! and the inputs.

use vstd::prelude::*;

verus! {

use crate::fixed::{FP_ONE, sigmoid_fp, spec_sigmoid};
use crate::genome::{
    Connection, Genome, NodeGene, NodeType, WEIGHT_LIMIT, conn_ok, contains_id, count_kind,
    count_kind_prefix, lemma_pos_of_unique, pos_of, unique_ids,
};

/// Weighted sums saturate at this magnitude; the sigmoid clamps at a
/// smaller argument, so saturation never changes an activation value.
pub const SAT_LIMIT: i64 = 16_000_000;

/// Per-node runtime state of a compiled network: the originating node id,
/// the last computed value, the resolved incoming edges as
/// `(source position, weight)` pairs, and the node's role.
pub struct NodeState {
    pub id: usize,
    pub value: i64,
    pub incoming: Vec<(usize, i64)>,
    pub node_type: NodeType,
}

/// A compiled, directly executable network.
pub struct NeuralNetwork {
    pub nodes: Vec<NodeState>,
    pub execution_order: Vec<usize>,
    pub inputs_count: usize,
    pub output_indices: Vec<usize>,
}

/// A fixed-point product of a node value and a connection weight,
/// truncated toward zero as the executable division does.
pub open spec fn spec_mul_weight(v: int, w: int) -> int {
    if v * w >= 0 {
        v * w / (FP_ONE as int)
    } else {
        -((-(v * w)) / (FP_ONE as int))
    }
}

/// A running sum clamped to the saturation range.
pub open spec fn clamp_sat(x: int) -> int {
    if x < -SAT_LIMIT {
        -SAT_LIMIT as int
    } else if x > SAT_LIMIT {
        SAT_LIMIT as int
    } else {
        x
    }
}

/// The saturating weighted sum of the first `m` incoming edges, read
/// against the node values `vals`.
pub open spec fn spec_wsum(inc: Seq<(usize, i64)>, vals: Seq<i64>, m: int) -> int
    decreases m,
{
    if m <= 0 {
        0
    } else {
        clamp_sat(
            spec_wsum(inc, vals, m - 1) + spec_mul_weight(
                vals[inc[m - 1].0 as int] as int,
                inc[m - 1].1 as int,
            ),
        )
    }
}

/// The number of input nodes among the first `n` entries of a compiled
/// node array.
pub open spec fn count_input_states(ns: Seq<NodeState>, n: int) -> int
    decreases n,
{
    if n <= 0 {
        0
    } else {
        count_input_states(ns, n - 1) + if ns[n - 1].node_type == NodeType::Input {
            1int
        } else {
            0int
        }
    }
}

/// The value node `i` takes given the values `prev` of all earlier nodes:
/// input nodes take the next entry of `inputs`, every other node squashes
/// its saturating weighted sum.
pub open spec fn node_value(ns: Seq<NodeState>, inputs: Seq<i64>, prev: Seq<i64>, i: int) -> i64 {
    if ns[i].node_type == NodeType::Input {
        inputs[count_input_states(ns, i)]
    } else {
        spec_sigmoid(spec_wsum(ns[i].incoming@, prev, ns[i].incoming@.len() as int)) as i64
    }
}

/// The values of the first `n` nodes after activation: a single forward
/// sweep in node order, which the execution order follows.
pub open spec fn net_values_prefix(ns: Seq<NodeState>, inputs: Seq<i64>, n: int) -> Seq<i64>
    decreases n,
{
    if n <= 0 {
        Seq::<i64>::empty()
    } else {
        let prev = net_values_prefix(ns, inputs, n - 1);
        prev.push(node_value(ns, inputs, prev, n - 1))
    }
}

/// All node values after activation.
pub open spec fn net_values(net: NeuralNetwork, inputs: Seq<i64>) -> Seq<i64> {
    net_values_prefix(net.nodes@, inputs, net.nodes@.len() as int)
}

/// The output vector of an activation: the final values at the output
/// positions, in genome order.
pub open spec fn spec_net_outputs(net: NeuralNetwork, inputs: Seq<i64>) -> Seq<i64> {
    Seq::new(
        net.output_indices@.len(),
        |m: int| net_values(net, inputs)[net.output_indices@[m] as int],
    )
}

/// The incoming list of the node at position `t`, built from the first `n`
/// connections: each enabled connection targeting `t` contributes its
/// source position and weight, in connection order.
pub open spec fn spec_incoming_prefix(
    gn: Seq<NodeGene>,
    gc: Seq<Connection>,
    t: int,
    n: int,
) -> Seq<(usize, i64)>
    decreases n,
{
    if n <= 0 {
        Seq::<(usize, i64)>::empty()
    } else {
        let rest = spec_incoming_prefix(gn, gc, t, n - 1);
        let c = gc[n - 1];
        if c.enabled && pos_of(gn, c.to) == t {
            rest.push((pos_of(gn, c.from) as usize, c.weight))
        } else {
            rest
        }
    }
}

/// The full incoming list of the node at position `t`.
pub open spec fn spec_incoming(gn: Seq<NodeGene>, gc: Seq<Connection>, t: int) -> Seq<(usize, i64)> {
    spec_incoming_prefix(gn, gc, t, gc.len() as int)
}

/// The positions of the non-input nodes among the first `n`, ascending:
/// the execution order.
pub open spec fn spec_non_input_indices(gn: Seq<NodeGene>, n: int) -> Seq<usize>
    decreases n,
{
    if n <= 0 {
        Seq::<usize>::empty()
    } else {
        let rest = spec_non_input_indices(gn, n - 1);
        if gn[n - 1].kind != NodeType::Input {
            rest.push((n - 1) as usize)
        } else {
            rest
        }
    }
}

/// The positions of the output nodes among the first `n`, ascending.
pub open spec fn spec_output_indices(gn: Seq<NodeGene>, n: int) -> Seq<usize>
    decreases n,
{
    if n <= 0 {
        Seq::<usize>::empty()
    } else {
        let rest = spec_output_indices(gn, n - 1);
        if gn[n - 1].kind == NodeType::Output {
            rest.push((n - 1) as usize)
        } else {
            rest
        }
    }
}

/// What compilation promises: every field of the network is a function of
/// the genome alone.
pub open spec fn compile_post(g: Genome, net: NeuralNetwork) -> bool {
    &&& net.nodes@.len() == g.nodes@.len()
    &&& forall|i: int| 0 <= i < g.nodes@.len() ==> node_state_ok(g, #[trigger] net.nodes@[i], i)
    &&& net.execution_order@ == spec_non_input_indices(g.nodes@, g.nodes@.len() as int)
    &&& net.output_indices@ == spec_output_indices(g.nodes@, g.nodes@.len() as int)
    &&& net.inputs_count == count_kind(g.nodes@, NodeType::Input)
}

/// The node state at position `i` mirrors the genome's node there, with a
/// zeroed value and the resolved incoming list.
pub open spec fn node_state_ok(g: Genome, ns: NodeState, i: int) -> bool {
    &&& ns.id == g.nodes@[i].id
    &&& ns.node_type == g.nodes@[i].kind
    &&& ns.value == 0
    &&& ns.incoming@ == spec_incoming(g.nodes@, g.connections@, i)
}

impl NeuralNetwork {
    /// The compiled network's invariant: incoming edges point strictly
    /// backward with bounded weights, input nodes receive nothing, the
    /// execution order is the ascending list of exactly the non-input
    /// positions, the output list is the ascending list of exactly the
    /// output positions, the input count matches, and every stored value is
    /// a bounded activation value.
    pub open spec fn wf(&self) -> bool {
        let ns = self.nodes@;
        let ord = self.execution_order@;
        let outs = self.output_indices@;
        &&& forall|i: int, j: int|
            0 <= i < ns.len() && 0 <= j < ns[i].incoming@.len() ==> ((#[trigger] ns[i].incoming@[j]).0
                < i && -WEIGHT_LIMIT <= ns[i].incoming@[j].1 <= WEIGHT_LIMIT)
        &&& forall|i: int|
            0 <= i < ns.len() && (#[trigger] ns[i]).node_type == NodeType::Input ==> ns[i].incoming@.len()
                == 0
        &&& self.inputs_count == count_input_states(ns, ns.len() as int)
        &&& inputs_count_le(ns)
        &&& forall|m: int|
            0 <= m < ord.len() ==> (#[trigger] ord[m]) < ns.len() && ns[ord[m] as int].node_type
                != NodeType::Input
        &&& forall|m1: int, m2: int| 0 <= m1 < m2 < ord.len() ==> ord[m1] < ord[m2]
        &&& forall|i: int|
            0 <= i < ns.len() && (#[trigger] ns[i]).node_type != NodeType::Input ==> exists|m: int|
                0 <= m < ord.len() && ord[m] == i
        &&& forall|m: int|
            0 <= m < outs.len() ==> (#[trigger] outs[m]) < ns.len() && ns[outs[m] as int].node_type
                == NodeType::Output
        &&& forall|m1: int, m2: int| 0 <= m1 < m2 < outs.len() ==> outs[m1] < outs[m2]
        &&& forall|i: int|
            0 <= i < ns.len() && (#[trigger] ns[i]).node_type == NodeType::Output ==> exists|m: int|
                0 <= m < outs.len() && outs[m] == i
        &&& forall|i: int| 0 <= i < ns.len() ==> -FP_ONE <= (#[trigger] ns[i]).value <= FP_ONE
    }
}

/// At every position, at most as many input nodes precede it as exist in
/// total; a strict bound at input positions.
pub open spec fn inputs_count_le(ns: Seq<NodeState>) -> bool {
    forall|i: int|
        0 <= i < ns.len() && (#[trigger] ns[i]).node_type == NodeType::Input ==> count_input_states(
            ns,
            i,
        ) < count_input_states(ns, ns.len() as int)
}

/// Counting input states is monotone in the prefix length.
proof fn lemma_count_input_mono(ns: Seq<NodeState>, a: int, b: int)
    requires
        a <= b,
    ensures
        count_input_states(ns, a) <= count_input_states(ns, b),
    decreases b - a,
{
    if a < b {
        lemma_count_input_mono(ns, a, b - 1);
    }
}

/// At an input position the inputs counted so far fall strictly short of
/// the total.
proof fn lemma_count_input_strict(ns: Seq<NodeState>, i: int)
    requires
        0 <= i < ns.len(),
        ns[i].node_type == NodeType::Input,
    ensures
        count_input_states(ns, i) < count_input_states(ns, ns.len() as int),
{
    assert(count_input_states(ns, i + 1) == count_input_states(ns, i) + 1);
    lemma_count_input_mono(ns, i + 1, ns.len() as int);
}

/// The product of a bounded value and a bounded weight at the fixed-point
/// scale, truncated toward zero.
fn mul_weight(v: i64, w: i64) -> (r: i64)
    requires
        -FP_ONE <= v <= FP_ONE,
        -WEIGHT_LIMIT <= w <= WEIGHT_LIMIT,
    ensures
        r == spec_mul_weight(v as int, w as int),
        -WEIGHT_LIMIT <= r <= WEIGHT_LIMIT,
{
    proof {
        assert(-(FP_ONE as int) * WEIGHT_LIMIT <= (v as int) * (w as int) <= (FP_ONE as int)
            * WEIGHT_LIMIT) by (nonlinear_arith)
            requires
                -FP_ONE <= v <= FP_ONE,
                -WEIGHT_LIMIT <= w <= WEIGHT_LIMIT,
        ;
    }
    let p = v * w;
    if p >= 0 {
        proof {
            assert(p as int / (FP_ONE as int) <= WEIGHT_LIMIT) by (nonlinear_arith)
                requires
                    0 <= p as int <= (FP_ONE as int) * WEIGHT_LIMIT,
            ;
        }
        p / FP_ONE
    } else {
        let q = (-p) / FP_ONE;
        proof {
            assert((-p) as int / (FP_ONE as int) <= WEIGHT_LIMIT) by (nonlinear_arith)
                requires
                    0 <= (-p) as int <= (FP_ONE as int) * WEIGHT_LIMIT,
            ;
        }
        -q
    }
}

impl Genome {
    /// Compiles this genome into an executable network. Total and
    /// deterministic: every field of the result is pinned to a function of
    /// the genome (see [`compile_post`]), and the result is well formed —
    /// in particular its execution order holds every non-input node exactly
    /// once, after all of that node's sources.
    #[verifier::loop_isolation(false)]
    #[verifier::rlimit(50)]
    pub fn compile(&self) -> (net: NeuralNetwork)
        requires
            self.wf(),
        ensures
            compile_post(*self, net),
            net.wf(),
    {
        let gn = &self.nodes;
        let n = gn.len();
        let mut nodes_vec: Vec<NodeState> = Vec::new();
        let mut t: usize = 0;
        while t < n
            invariant
                0 <= t <= n,
                nodes_vec@.len() == t,
                forall|i: int| 0 <= i < t ==> node_state_ok(*self, #[trigger] nodes_vec@[i], i),
            decreases n - t,
        {
            let m = self.connections.len();
            let mut inc: Vec<(usize, i64)> = Vec::new();
            let mut k: usize = 0;
            while k < m
                invariant
                    0 <= k <= m,
                    t < n,
                    inc@ == spec_incoming_prefix(
                        self.nodes@,
                        self.connections@,
                        t as int,
                        k as int,
                    ),
                decreases m - k,
            {
                let c = self.connections[k];
                proof {
                    assert(conn_ok(self.nodes@, c));
                    lemma_pos_of_unique(self.nodes@, t as int);
                }
                if c.enabled && c.to == gn[t].id {
                    let pf = match self.find_node_pos(c.from) {
                        Some(p) => p,
                        None => {
                            proof {
                                assert(false);
                            }
                            0
                        },
                    };
                    proof {
                        lemma_pos_of_unique(self.nodes@, pf as int);
                    }
                    inc.push((pf, c.weight));
                } else {
                    proof {
                        if c.enabled {
                            let q = pos_of(self.nodes@, c.to);
                            assert(self.nodes@[q].id == c.to);
                        }
                    }
                }
                k = k + 1;
            }
            nodes_vec.push(
                NodeState { id: gn[t].id, value: 0, incoming: inc, node_type: gn[t].kind },
            );
            t = t + 1;
        }
        let mut execution_order: Vec<usize> = Vec::new();
        let mut output_indices: Vec<usize> = Vec::new();
        let mut inputs_count: usize = 0;
        let mut i: usize = 0;
        while i < n
            invariant
                0 <= i <= n,
                execution_order@ == spec_non_input_indices(self.nodes@, i as int),
                output_indices@ == spec_output_indices(self.nodes@, i as int),
                inputs_count == count_kind_prefix(self.nodes@, NodeType::Input, i as int),
                inputs_count <= i,
            decreases n - i,
        {
            match gn[i].kind {
                NodeType::Input => {
                    inputs_count = inputs_count + 1;
                },
                NodeType::Hidden => {
                    execution_order.push(i);
                },
                NodeType::Output => {
                    execution_order.push(i);
                    output_indices.push(i);
                },
            }
            i = i + 1;
        }
        let net = NeuralNetwork { nodes: nodes_vec, execution_order, inputs_count, output_indices };
        proof {
            assert(self.nodes@.len() == n);
            lemma_compiled_wf(*self, net);
        }
        net
    }
}

/// An element-for-element copy of a list of resolved incoming edges.
fn copy_pairs(v: &Vec<(usize, i64)>) -> (r: Vec<(usize, i64)>)
    ensures
        r@ == v@,
{
    let mut r: Vec<(usize, i64)> = Vec::new();
    let mut i: usize = 0;
    while i < v.len()
        invariant
            0 <= i <= v@.len(),
            r@ =~= v@.subrange(0, i as int),
        decreases v@.len() - i,
    {
        r.push(v[i]);
        i = i + 1;
    }
    proof {
        assert(r@ =~= v@);
    }
    r
}

impl NeuralNetwork {
    /// Runs the compiled network on one input vector: seeds the input
    /// nodes in declaration order, computes every non-input node's squashed
    /// saturating weighted sum in execution order, stores the values, and
    /// returns the output nodes' values in genome order. A pure function of
    /// the network's structure and the inputs (see
    /// [`lemma_compile_activate_deterministic`]). An input vector of the
    /// wrong length is a contract violation, excluded by precondition, and
    /// inputs are activation-scale values in `[-FP_ONE, FP_ONE]`, which
    /// keeps every weighted sum within machine range.
    #[verifier::loop_isolation(false)]
    #[verifier::rlimit(60)]
    pub fn activate(&mut self, inputs: &Vec<i64>) -> (outputs: Vec<i64>)
        requires
            old(self).wf(),
            inputs@.len() == old(self).inputs_count,
            forall|k: int| 0 <= k < inputs@.len() ==> -FP_ONE <= #[trigger] inputs@[k] <= FP_ONE,
        ensures
            final(self).wf(),
            final(self).nodes@.len() == old(self).nodes@.len(),
            forall|i: int|
                0 <= i < old(self).nodes@.len() ==> {
                    let before = old(self).nodes@[i];
                    let after = (#[trigger] final(self).nodes@[i]);
                    &&& after.id == before.id
                    &&& after.node_type == before.node_type
                    &&& after.incoming@ == before.incoming@
                    &&& after.value == net_values(*old(self), inputs@)[i]
                },
            final(self).execution_order@ == old(self).execution_order@,
            final(self).output_indices@ == old(self).output_indices@,
            final(self).inputs_count == old(self).inputs_count,
            outputs@ == spec_net_outputs(*old(self), inputs@),
            forall|m: int| 0 <= m < outputs@.len() ==> 0 <= #[trigger] outputs@[m] <= FP_ONE,
    {
        let ghost net0 = *self;
        let n = self.nodes.len();
        let mut vals: Vec<i64> = Vec::new();
        let mut in_ptr: usize = 0;
        let mut i: usize = 0;
        while i < n
            invariant
                0 <= i <= n,
                vals@.len() == i,
                vals@ == net_values_prefix(self.nodes@, inputs@, i as int),
                in_ptr == count_input_states(self.nodes@, i as int),
                0 <= in_ptr <= i,
                forall|k: int| 0 <= k < i ==> -FP_ONE <= #[trigger] vals@[k] <= FP_ONE,
                forall|k: int|
                    0 <= k < i && self.nodes@[k].node_type != NodeType::Input ==> 0 <= #[trigger] vals@[k]
                        <= FP_ONE,
            decreases n - i,
        {
            let is_input = matches!(self.nodes[i].node_type, NodeType::Input);
            if is_input {
                proof {
                    lemma_count_input_strict(self.nodes@, i as int);
                }
                vals.push(inputs[in_ptr]);
                in_ptr = in_ptr + 1;
            } else {
                let m = self.nodes[i].incoming.len();
                let mut acc: i64 = 0;
                let mut j: usize = 0;
                while j < m
                    invariant
                        0 <= j <= m,
                        i < n,
                        m == self.nodes@[i as int].incoming@.len(),
                        acc == spec_wsum(self.nodes@[i as int].incoming@, vals@, j as int),
                        -SAT_LIMIT <= acc <= SAT_LIMIT,
                    decreases m - j,
                {
                    let (src, w) = self.nodes[i].incoming[j];
                    let term = mul_weight(vals[src], w);
                    let sum = acc + term;
                    acc = if sum < -SAT_LIMIT {
                        -SAT_LIMIT
                    } else if sum > SAT_LIMIT {
                        SAT_LIMIT
                    } else {
                        sum
                    };
                    j = j + 1;
                }
                let s = sigmoid_fp(acc);
                vals.push(s);
            }
            i = i + 1;
        }
        let mut i2: usize = 0;
        while i2 < n
            invariant
                0 <= i2 <= n,
                self.nodes@.len() == n,
                forall|k: int| i2 <= k < n ==> #[trigger] self.nodes@[k] == net0.nodes@[k],
                forall|k: int|
                    0 <= k < i2 ==> ((#[trigger] self.nodes@[k]).id == net0.nodes@[k].id
                        && self.nodes@[k].node_type == net0.nodes@[k].node_type
                        && self.nodes@[k].incoming@ == net0.nodes@[k].incoming@
                        && self.nodes@[k].value == vals@[k]),
                self.execution_order@ == net0.execution_order@,
                self.output_indices@ == net0.output_indices@,
                self.inputs_count == net0.inputs_count,
            decreases n - i2,
        {
            let idv = self.nodes[i2].id;
            let ntv = self.nodes[i2].node_type;
            let valv = vals[i2];
            let inc = copy_pairs(&self.nodes[i2].incoming);
            self.nodes[i2] = NodeState { id: idv, value: valv, incoming: inc, node_type: ntv };
            i2 = i2 + 1;
        }
        let no = self.output_indices.len();
        let mut outputs: Vec<i64> = Vec::new();
        let mut q: usize = 0;
        while q < no
            invariant
                0 <= q <= no,
                outputs@.len() == q,
                forall|mm: int|
                    0 <= mm < q ==> #[trigger] outputs@[mm] == vals@[net0.output_indices@[mm] as int]
                        && 0 <= outputs@[mm] <= FP_ONE,
            decreases no - q,
        {
            let oi = self.output_indices[q];
            outputs.push(vals[oi]);
            q = q + 1;
        }
        proof {
            lemma_count_states_congruence(net0.nodes@, self.nodes@, n as int);
            assert(self.inputs_count == count_input_states(self.nodes@, n as int));
            assert forall|k: int|
                0 <= k < n && (#[trigger] self.nodes@[k]).node_type == NodeType::Input implies
                count_input_states(self.nodes@, k) < count_input_states(self.nodes@, n as int) by {
                lemma_count_input_strict(self.nodes@, k);
            }
            assert(outputs@ =~= spec_net_outputs(net0, inputs@));
        }
        outputs
    }
}

/// The network's structure mirrors the genome: every field except the
/// mutable node values is pinned to a function of the genome. Compilation
/// establishes this and activation preserves it.
pub open spec fn net_matches(g: Genome, net: NeuralNetwork) -> bool {
    &&& net.nodes@.len() == g.nodes@.len()
    &&& forall|i: int|
        0 <= i < g.nodes@.len() ==> ((#[trigger] net.nodes@[i]).id == g.nodes@[i].id
            && net.nodes@[i].node_type == g.nodes@[i].kind && net.nodes@[i].incoming@
            == spec_incoming(g.nodes@, g.connections@, i))
    &&& net.execution_order@ == spec_non_input_indices(g.nodes@, g.nodes@.len() as int)
    &&& net.output_indices@ == spec_output_indices(g.nodes@, g.nodes@.len() as int)
    &&& net.inputs_count == count_kind(g.nodes@, NodeType::Input)
}

/// A freshly compiled network matches its genome.
pub proof fn lemma_compile_post_matches(g: Genome, net: NeuralNetwork)
    requires
        compile_post(g, net),
    ensures
        net_matches(g, net),
{
    assert forall|i: int| 0 <= i < g.nodes@.len() implies ((#[trigger] net.nodes@[i]).id
        == g.nodes@[i].id && net.nodes@[i].node_type == g.nodes@[i].kind && net.nodes@[i].incoming@
        == spec_incoming(g.nodes@, g.connections@, i)) by {
        assert(node_state_ok(g, net.nodes@[i], i));
    }
}

/// The value the node at position `i` takes, stated over the genome alone.
pub open spec fn genome_node_value(
    gn: Seq<NodeGene>,
    gc: Seq<Connection>,
    inputs: Seq<i64>,
    prev: Seq<i64>,
    i: int,
) -> i64 {
    if gn[i].kind == NodeType::Input {
        inputs[count_kind_prefix(gn, NodeType::Input, i)]
    } else {
        spec_sigmoid(
            spec_wsum(spec_incoming(gn, gc, i), prev, spec_incoming(gn, gc, i).len() as int),
        ) as i64
    }
}

/// The values of the first `n` nodes after activation, stated over the
/// genome alone.
pub open spec fn genome_values_prefix(
    gn: Seq<NodeGene>,
    gc: Seq<Connection>,
    inputs: Seq<i64>,
    n: int,
) -> Seq<i64>
    decreases n,
{
    if n <= 0 {
        Seq::<i64>::empty()
    } else {
        let prev = genome_values_prefix(gn, gc, inputs, n - 1);
        prev.push(genome_node_value(gn, gc, inputs, prev, n - 1))
    }
}

/// The output vector that compiling a genome and activating the result
/// yields, stated over the genome alone: the whole pipeline is a pure
/// function of genome and inputs.
pub open spec fn genome_outputs(gn: Seq<NodeGene>, gc: Seq<Connection>, inputs: Seq<i64>) -> Seq<
    i64,
> {
    Seq::new(
        spec_output_indices(gn, gn.len() as int).len(),
        |m: int|
            genome_values_prefix(
                gn,
                gc,
                inputs,
                gn.len() as int,
            )[spec_output_indices(gn, gn.len() as int)[m] as int],
    )
}

/// A compiled node array counts input states exactly as the genome counts
/// input genes.
proof fn lemma_match_counts_agree(g: Genome, net: NeuralNetwork, n: int)
    requires
        net_matches(g, net),
        0 <= n <= g.nodes@.len(),
    ensures
        count_input_states(net.nodes@, n) == count_kind_prefix(g.nodes@, NodeType::Input, n),
    decreases n,
{
    if n > 0 {
        lemma_match_counts_agree(g, net, n - 1);
    }
}

/// Activation values of a matching network agree with the genome-level
/// statement.
proof fn lemma_values_bridge(g: Genome, net: NeuralNetwork, inputs: Seq<i64>, n: int)
    requires
        net_matches(g, net),
        0 <= n <= g.nodes@.len(),
    ensures
        net_values_prefix(net.nodes@, inputs, n) == genome_values_prefix(
            g.nodes@,
            g.connections@,
            inputs,
            n,
        ),
    decreases n,
{
    if n > 0 {
        lemma_values_bridge(g, net, inputs, n - 1);
        lemma_match_counts_agree(g, net, n - 1);
    }
}

/// The outputs of a matching network are the genome-level outputs.
pub proof fn lemma_net_genome_outputs(g: Genome, net: NeuralNetwork, inputs: Seq<i64>)
    requires
        net_matches(g, net),
    ensures
        spec_net_outputs(net, inputs) == genome_outputs(g.nodes@, g.connections@, inputs),
{
    lemma_values_bridge(g, net, inputs, g.nodes@.len() as int);
    assert(spec_net_outputs(net, inputs) =~= genome_outputs(g.nodes@, g.connections@, inputs));
}

/// Counting input states depends only on node roles.
proof fn lemma_count_states_congruence(ns1: Seq<NodeState>, ns2: Seq<NodeState>, n: int)
    requires
        forall|i: int|
            0 <= i < n ==> (#[trigger] ns2[i]).node_type == (#[trigger] ns1[i]).node_type,
    ensures
        count_input_states(ns1, n) == count_input_states(ns2, n),
    decreases n,
{
    if n > 0 {
        lemma_count_states_congruence(ns1, ns2, n - 1);
    }
}

/// Activation values depend only on node roles and resolved incoming
/// lists, never on the particular network value holding them.
proof fn lemma_values_congruence(
    ns1: Seq<NodeState>,
    ns2: Seq<NodeState>,
    inputs: Seq<i64>,
    n: int,
)
    requires
        forall|i: int|
            0 <= i < n ==> ((#[trigger] ns2[i]).node_type == (#[trigger] ns1[i]).node_type
                && ns2[i].incoming@ == ns1[i].incoming@),
    ensures
        net_values_prefix(ns1, inputs, n) == net_values_prefix(ns2, inputs, n),
    decreases n,
{
    if n > 0 {
        lemma_values_congruence(ns1, ns2, inputs, n - 1);
        lemma_count_states_congruence(ns1, ns2, n - 1);
    }
}

/// Determinism: two networks compiled from the same genome produce the
/// same output vector on the same inputs — compilation followed by
/// activation is a pure function of the genome and the input vector.
pub proof fn lemma_compile_activate_deterministic(
    g: Genome,
    net1: NeuralNetwork,
    net2: NeuralNetwork,
    inputs: Seq<i64>,
)
    requires
        compile_post(g, net1),
        compile_post(g, net2),
    ensures
        spec_net_outputs(net1, inputs) == spec_net_outputs(net2, inputs),
{
    assert forall|i: int| 0 <= i < net1.nodes@.len() implies ((#[trigger] net2.nodes@[i]).node_type
        == (#[trigger] net1.nodes@[i]).node_type && net2.nodes@[i].incoming@
        == net1.nodes@[i].incoming@) by {
        assert(node_state_ok(g, net1.nodes@[i], i));
        assert(node_state_ok(g, net2.nodes@[i], i));
    }
    lemma_values_congruence(net1.nodes@, net2.nodes@, inputs, net1.nodes@.len() as int);
    assert(spec_net_outputs(net1, inputs) =~= spec_net_outputs(net2, inputs));
}

/// Topological validity: a well-formed compiled network's execution order
/// contains every non-input node exactly once, only non-input nodes, and
/// schedules every node after all of its non-input sources (input sources
/// are seeded directly and never scheduled).
pub proof fn lemma_topological_validity(net: NeuralNetwork)
    requires
        net.wf(),
    ensures
        forall|i: int|
            0 <= i < net.nodes@.len() && (#[trigger] net.nodes@[i]).node_type != NodeType::Input
                ==> exists|m: int|
                0 <= m < net.execution_order@.len() && net.execution_order@[m] == i,
        forall|m1: int, m2: int|
            0 <= m1 < m2 < net.execution_order@.len() ==> net.execution_order@[m1]
                != net.execution_order@[m2],
        forall|m: int|
            0 <= m < net.execution_order@.len() ==> (#[trigger] net.execution_order@[m])
                < net.nodes@.len() && net.nodes@[net.execution_order@[m] as int].node_type
                != NodeType::Input,
        forall|m: int, j: int|
            0 <= m < net.execution_order@.len() && 0 <= j
                < net.nodes@[net.execution_order@[m] as int].incoming@.len() ==> ((
            #[trigger] net.nodes@[net.execution_order@[m] as int].incoming@[j]).0
                < net.execution_order@[m] && (net.nodes@[net.nodes@[net.execution_order@[m] as int].incoming@[j].0 as int].node_type
                != NodeType::Input ==> exists|m2: int|
                0 <= m2 < m && net.execution_order@[m2]
                    == net.nodes@[net.execution_order@[m] as int].incoming@[j].0)),
{
    let ns = net.nodes@;
    let ord = net.execution_order@;
    assert forall|m: int, j: int|
        0 <= m < ord.len() && 0 <= j < ns[ord[m] as int].incoming@.len() implies ((
    #[trigger] ns[ord[m] as int].incoming@[j]).0 < ord[m] && (ns[ns[ord[m] as int].incoming@[j].0 as int].node_type
        != NodeType::Input ==> exists|m2: int|
        0 <= m2 < m && ord[m2] == ns[ord[m] as int].incoming@[j].0)) by {
        let i = ord[m] as int;
        let s = ns[i].incoming@[j].0;
        assert(s < i);
        if ns[s as int].node_type != NodeType::Input {
            let m2 = choose|m2: int| 0 <= m2 < ord.len() && ord[m2] == s;
            assert(ord[m2] == s);
            if m2 > m {
                assert(ord[m] < ord[m2]);
            }
            if m2 == m {
                assert(ord[m2] == ord[m]);
            }
            assert(m2 < m);
            assert(0 <= m2 < m && ord[m2] == s);
        }
    }
}

/// Every resolved incoming edge of node `t` points strictly backward with
/// a bounded weight, and an input node's list is empty.
proof fn lemma_incoming_ok(gn: Seq<NodeGene>, gc: Seq<Connection>, t: int, n: int)
    requires
        unique_ids(gn),
        forall|k: int| 0 <= k < gc.len() ==> conn_ok(gn, #[trigger] gc[k]),
        gn.len() <= usize::MAX,
        0 <= t < gn.len(),
        0 <= n <= gc.len(),
    ensures
        forall|j: int|
            0 <= j < spec_incoming_prefix(gn, gc, t, n).len() ==> ((#[trigger] spec_incoming_prefix(
                gn,
                gc,
                t,
                n,
            )[j]).0 < t && -WEIGHT_LIMIT <= spec_incoming_prefix(gn, gc, t, n)[j].1 <= WEIGHT_LIMIT),
        gn[t].kind == NodeType::Input ==> spec_incoming_prefix(gn, gc, t, n).len() == 0,
    decreases n,
{
    if n > 0 {
        lemma_incoming_ok(gn, gc, t, n - 1);
        let c = gc[n - 1];
        assert(conn_ok(gn, c));
        let rest = spec_incoming_prefix(gn, gc, t, n - 1);
        let s = spec_incoming_prefix(gn, gc, t, n);
        if c.enabled && pos_of(gn, c.to) == t {
            assert(0 <= pos_of(gn, c.from) < t);
            assert(s == rest.push((pos_of(gn, c.from) as usize, c.weight)));
            assert((s[s.len() - 1].0) as int == pos_of(gn, c.from));
        } else {
            assert(s == rest);
        }
    }
}

/// The ascending non-input position list: its entries lie below `n`, are
/// strictly increasing, name only non-input nodes, and name every
/// non-input node below `n`.
proof fn lemma_non_input_props(gn: Seq<NodeGene>, n: int)
    requires
        gn.len() <= usize::MAX,
        0 <= n <= gn.len(),
    ensures
        forall|m: int|
            0 <= m < spec_non_input_indices(gn, n).len() ==> (#[trigger] spec_non_input_indices(
                gn,
                n,
            )[m]) < n && gn[spec_non_input_indices(gn, n)[m] as int].kind != NodeType::Input,
        forall|m1: int, m2: int|
            0 <= m1 < m2 < spec_non_input_indices(gn, n).len() ==> spec_non_input_indices(
                gn,
                n,
            )[m1] < spec_non_input_indices(gn, n)[m2],
        forall|i: int|
            0 <= i < n && (#[trigger] gn[i]).kind != NodeType::Input ==> exists|m: int|
                0 <= m < spec_non_input_indices(gn, n).len() && spec_non_input_indices(gn, n)[m]
                    == i,
    decreases n,
{
    if n > 0 {
        lemma_non_input_props(gn, n - 1);
        let rest = spec_non_input_indices(gn, n - 1);
        let s = spec_non_input_indices(gn, n);
        if gn[n - 1].kind != NodeType::Input {
            assert(s == rest.push((n - 1) as usize));
            assert(s[s.len() - 1] == (n - 1) as usize);
            assert forall|i: int| 0 <= i < n && (#[trigger] gn[i]).kind != NodeType::Input implies
                exists|m: int| 0 <= m < s.len() && s[m] == i by {
                if i < n - 1 {
                    let m0 = choose|m: int| 0 <= m < rest.len() && rest[m] == i;
                    assert(s[m0] == i);
                } else {
                    assert(s[s.len() - 1] == i);
                }
            }
        } else {
            assert(s == rest);
            assert forall|i: int| 0 <= i < n && (#[trigger] gn[i]).kind != NodeType::Input implies
                exists|m: int| 0 <= m < s.len() && s[m] == i by {
                let m0 = choose|m: int| 0 <= m < rest.len() && rest[m] == i;
                assert(s[m0] == i);
            }
        }
    }
}

/// The ascending output position list: the same properties for output
/// nodes.
proof fn lemma_output_props(gn: Seq<NodeGene>, n: int)
    requires
        gn.len() <= usize::MAX,
        0 <= n <= gn.len(),
    ensures
        forall|m: int|
            0 <= m < spec_output_indices(gn, n).len() ==> (#[trigger] spec_output_indices(
                gn,
                n,
            )[m]) < n && gn[spec_output_indices(gn, n)[m] as int].kind == NodeType::Output,
        forall|m1: int, m2: int|
            0 <= m1 < m2 < spec_output_indices(gn, n).len() ==> spec_output_indices(gn, n)[m1]
                < spec_output_indices(gn, n)[m2],
        forall|i: int|
            0 <= i < n && (#[trigger] gn[i]).kind == NodeType::Output ==> exists|m: int|
                0 <= m < spec_output_indices(gn, n).len() && spec_output_indices(gn, n)[m] == i,
    decreases n,
{
    if n > 0 {
        lemma_output_props(gn, n - 1);
        let rest = spec_output_indices(gn, n - 1);
        let s = spec_output_indices(gn, n);
        if gn[n - 1].kind == NodeType::Output {
            assert(s == rest.push((n - 1) as usize));
            assert(s[s.len() - 1] == (n - 1) as usize);
            assert forall|i: int| 0 <= i < n && (#[trigger] gn[i]).kind == NodeType::Output implies
                exists|m: int| 0 <= m < s.len() && s[m] == i by {
                if i < n - 1 {
                    let m0 = choose|m: int| 0 <= m < rest.len() && rest[m] == i;
                    assert(s[m0] == i);
                } else {
                    assert(s[s.len() - 1] == i);
                }
            }
        } else {
            assert(s == rest);
            assert forall|i: int| 0 <= i < n && (#[trigger] gn[i]).kind == NodeType::Output implies
                exists|m: int| 0 <= m < s.len() && s[m] == i by {
                let m0 = choose|m: int| 0 <= m < rest.len() && rest[m] == i;
                assert(s[m0] == i);
            }
        }
    }
}

/// A compiled node array counts input states exactly as the genome counts
/// input genes.
proof fn lemma_counts_agree(g: Genome, net: NeuralNetwork, n: int)
    requires
        compile_post(g, net),
        0 <= n <= g.nodes@.len(),
    ensures
        count_input_states(net.nodes@, n) == count_kind_prefix(g.nodes@, NodeType::Input, n),
    decreases n,
{
    if n > 0 {
        lemma_counts_agree(g, net, n - 1);
        assert(node_state_ok(g, net.nodes@[n - 1], n - 1));
    }
}

/// A network satisfying [`compile_post`] of a well-formed genome is well
/// formed.
proof fn lemma_compiled_wf(g: Genome, net: NeuralNetwork)
    requires
        g.wf(),
        g.nodes@.len() <= usize::MAX,
        compile_post(g, net),
    ensures
        net.wf(),
{
    let gn = g.nodes@;
    let ns = net.nodes@;
    lemma_non_input_props(gn, gn.len() as int);
    lemma_output_props(gn, gn.len() as int);
    lemma_counts_agree(g, net, gn.len() as int);
    assert forall|i: int, j: int|
        0 <= i < ns.len() && 0 <= j < ns[i].incoming@.len() implies ((#[trigger] ns[i].incoming@[j]).0
        < i && -WEIGHT_LIMIT <= ns[i].incoming@[j].1 <= WEIGHT_LIMIT) by {
        assert(node_state_ok(g, ns[i], i));
        lemma_incoming_ok(gn, g.connections@, i, g.connections@.len() as int);
    }
    assert forall|i: int|
        0 <= i < ns.len() && (#[trigger] ns[i]).node_type == NodeType::Input implies ns[i].incoming@.len()
        == 0 by {
        assert(node_state_ok(g, ns[i], i));
        lemma_incoming_ok(gn, g.connections@, i, g.connections@.len() as int);
    }
    let ord = net.execution_order@;
    assert forall|m: int| 0 <= m < ord.len() implies (#[trigger] ord[m]) < ns.len()
        && ns[ord[m] as int].node_type != NodeType::Input by {
        assert(node_state_ok(g, ns[ord[m] as int], ord[m] as int));
    }
    assert forall|i: int|
        0 <= i < ns.len() && (#[trigger] ns[i]).node_type != NodeType::Input implies exists|m: int|
        0 <= m < ord.len() && ord[m] == i by {
        assert(node_state_ok(g, ns[i], i));
        assert(gn[i].kind != NodeType::Input);
    }
    let outs = net.output_indices@;
    assert forall|m: int| 0 <= m < outs.len() implies (#[trigger] outs[m]) < ns.len()
        && ns[outs[m] as int].node_type == NodeType::Output by {
        assert(node_state_ok(g, ns[outs[m] as int], outs[m] as int));
    }
    assert forall|i: int|
        0 <= i < ns.len() && (#[trigger] ns[i]).node_type == NodeType::Output implies exists|m: int|
        0 <= m < outs.len() && outs[m] == i by {
        assert(node_state_ok(g, ns[i], i));
        assert(gn[i].kind == NodeType::Output);
    }
    assert forall|i: int|
        0 <= i < ns.len() && (#[trigger] ns[i]).node_type == NodeType::Input implies
        count_input_states(ns, i) < count_input_states(ns, ns.len() as int) by {
        lemma_count_input_strict(ns, i);
    }
    assert forall|i: int| 0 <= i < ns.len() implies -FP_ONE <= (#[trigger] ns[i]).value
        <= FP_ONE by {
        assert(node_state_ok(g, ns[i], i));
    }
}

} // verus!
