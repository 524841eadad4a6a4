use neat::fixed::{sigmoid_fp, FP_ONE};
use neat::genome::{Genome, NodeType};
use neat::innovation::InnovationHistory;

fn seed(w1: i64, w2: i64, h: &mut InnovationHistory) -> Genome {
    let mut g = Genome::new();
    let i1 = g.add_node(NodeType::Input);
    let i2 = g.add_node(NodeType::Input);
    let o = g.add_node(NodeType::Output);
    assert!(g.add_connection(i1, o, w1, h));
    assert!(g.add_connection(i2, o, w2, h));
    g
}

#[test]
fn sigmoid_reference_points() {
    assert_eq!(sigmoid_fp(0), FP_ONE / 2);
    assert_eq!(sigmoid_fp(14_000_000), FP_ONE);
    assert_eq!(sigmoid_fp(-14_000_000), 0);
    // Symmetry: sigmoid(x) + sigmoid(-x) is one.
    for x in [1, 37_000, 250_000, 600_000, 3_000_000, 13_999_999] {
        assert_eq!(sigmoid_fp(x) + sigmoid_fp(-x), FP_ONE);
    }
    // Monotone at sampled points.
    let samples = [-13_000_000, -2_000_000, -600_000, 0, 600_000, 2_000_000, 13_000_000];
    for w in samples.windows(2) {
        assert!(sigmoid_fp(w[0]) < sigmoid_fp(w[1]));
    }
}

#[test]
fn sigmoid_tracks_the_real_logistic_function() {
    for x in [-5_000_000i64, -600_000, -300_000, 0, 300_000, 600_000, 5_000_000] {
        let real = 1.0 / (1.0 + (-(x as f64) / 1e6).exp());
        let got = sigmoid_fp(x) as f64 / 1e6;
        assert!((got - real).abs() < 1e-4, "x={x} got={got} real={real}");
    }
}

#[test]
fn end_to_end_seed_activation() {
    // Seed genome: inputs [i1, i2], output o, i1->o weight 0.6 and
    // i2->o weight -0.3. activate([1, 0]) equals sigmoid(0.6).
    let mut h = InnovationHistory::new(3);
    let g = seed(600_000, -300_000, &mut h);
    let mut net = g.compile();
    let out = net.activate(&vec![FP_ONE, 0]);
    assert_eq!(out.len(), 1);
    assert_eq!(out[0], sigmoid_fp(600_000));
    let real = 1.0 / (1.0 + (-0.6f64).exp());
    assert!((out[0] as f64 / 1e6 - real).abs() < 1e-4);

    let out2 = net.activate(&vec![0, FP_ONE]);
    assert_eq!(out2[0], sigmoid_fp(-300_000));
    let out3 = net.activate(&vec![FP_ONE, FP_ONE]);
    assert_eq!(out3[0], sigmoid_fp(300_000));
}

#[test]
fn compile_resolves_incoming_edges() {
    let mut h = InnovationHistory::new(3);
    let g = seed(600_000, -300_000, &mut h);
    let net = g.compile();
    assert_eq!(net.inputs_count, 2);
    assert_eq!(net.output_indices, vec![2]);
    assert_eq!(net.execution_order, vec![2]);
    assert_eq!(net.nodes[2].incoming, vec![(0, 600_000), (1, -300_000)]);
    assert!(net.nodes[0].incoming.is_empty());
    assert!(net.nodes[1].incoming.is_empty());
}

#[test]
fn disabled_connections_are_invisible_to_computation() {
    let mut h = InnovationHistory::new(3);
    let mut g = seed(600_000, -300_000, &mut h);
    g.split_connection(0, &mut h);
    let mut net = g.compile();
    // The disabled edge contributes nothing; the split is weight-preserving
    // up to the new node's squash, so the output is sigmoid applied to
    // 0.6 * sigmoid(1.0 * 1.0) + (-0.3) * 0.
    let out = net.activate(&vec![FP_ONE, 0]);
    let hidden = sigmoid_fp(FP_ONE);
    let expected = sigmoid_fp((600_000 * hidden) / FP_ONE);
    assert_eq!(out[0], expected);
}

#[test]
fn determinism_of_compile_and_activate() {
    let mut h = InnovationHistory::new(3);
    let mut g = seed(450_000, -750_000, &mut h);
    for _ in 0..60 {
        g.mutate(&mut h);
    }
    let mut n1 = g.compile();
    let mut n2 = g.compile();
    let inputs = vec![FP_ONE, FP_ONE];
    let o1 = n1.activate(&inputs);
    let o2 = n2.activate(&inputs);
    assert_eq!(o1, o2);
    // Re-activating the same network with the same inputs is stable too.
    let o1b = n1.activate(&inputs);
    assert_eq!(o1, o1b);
}

#[test]
fn topological_validity_after_many_mutations() {
    let mut h = InnovationHistory::new(3);
    let mut g = seed(450_000, -750_000, &mut h);
    for _ in 0..300 {
        g.mutate(&mut h);
    }
    let net = g.compile();
    let n = net.nodes.len();
    // Every non-input node appears in the execution order exactly once.
    for i in 0..n {
        let occurrences = net.execution_order.iter().filter(|&&m| m == i).count();
        if net.nodes[i].node_type == NodeType::Input {
            assert_eq!(occurrences, 0);
        } else {
            assert_eq!(occurrences, 1);
        }
    }
    // Every node comes after all nodes that feed it.
    let position = |idx: usize| net.execution_order.iter().position(|&m| m == idx);
    for &m in net.execution_order.iter() {
        for &(src, _) in net.nodes[m].incoming.iter() {
            assert!(src < m);
            if net.nodes[src].node_type != NodeType::Input {
                assert!(position(src).unwrap() < position(m).unwrap());
            }
        }
    }
}
