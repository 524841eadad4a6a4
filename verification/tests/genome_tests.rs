use neat::fixed::FP_ONE;
use neat::genome::{Genome, NodeType, WEIGHT_LIMIT};
use neat::innovation::InnovationHistory;

fn seed(w1: i64, w2: i64, h: &mut InnovationHistory) -> Genome {
    let mut g = Genome::new();
    let i1 = g.add_node(NodeType::Input);
    let i2 = g.add_node(NodeType::Input);
    let o = g.add_node(NodeType::Output);
    assert!(g.add_connection(i1, o, w1, h));
    assert!(g.add_connection(i2, o, w2, h));
    g
}

#[test]
fn add_connection_rejects_self_loop_and_input_target() {
    let mut h = InnovationHistory::new(3);
    let mut g = seed(600_000, -300_000, &mut h);
    // A self-loop is never a forward edge.
    assert!(!g.add_connection(0, 0, 100_000, &mut h));
    // Inputs may not receive connections.
    assert!(!g.add_connection(0, 1, 100_000, &mut h));
    // A backward edge would break the topological order.
    assert!(!g.add_connection(2, 0, 100_000, &mut h));
    // A duplicate (from, to) pair is rejected.
    assert!(!g.add_connection(0, 2, 100_000, &mut h));
    assert_eq!(g.connections.len(), 2);
}

#[test]
fn weight_preserving_split() {
    let mut h = InnovationHistory::new(3);
    let mut g = seed(600_000, -300_000, &mut h);
    let old = g.connections[0];
    assert!(old.enabled);
    g.split_connection(0, &mut h);

    // The split connection is disabled in place, weight and innovation kept.
    assert!(!g.connections[0].enabled);
    assert_eq!(g.connections[0].from, old.from);
    assert_eq!(g.connections[0].to, old.to);
    assert_eq!(g.connections[0].weight, old.weight);
    assert_eq!(g.connections[0].innovation, old.innovation);

    // A fresh hidden node appeared.
    assert_eq!(g.nodes.len(), 4);
    let new_id = 3;
    assert!(g.nodes.iter().any(|n| n.id == new_id && n.kind == NodeType::Hidden));

    // Two new enabled connections: identity pass-through into the new node,
    // and the original weight out of it.
    let c1 = g.connections[2];
    let c2 = g.connections[3];
    assert_eq!((c1.from, c1.to, c1.weight, c1.enabled), (old.from, new_id, FP_ONE, true));
    assert_eq!((c2.from, c2.to, c2.weight, c2.enabled), (new_id, old.to, old.weight, true));
    // The seeds took innovation ids 0 and 1; the two split edges are the
    // next two recorded innovations.
    assert_eq!(c1.innovation, 2);
    assert_eq!(c2.innovation, 3);
    assert_ne!(c1.innovation, c2.innovation);
}

#[test]
fn split_inserts_node_in_topological_order() {
    let mut h = InnovationHistory::new(3);
    let mut g = seed(600_000, -300_000, &mut h);
    g.split_connection(0, &mut h);
    // The new hidden node stands directly before the split target.
    assert_eq!(g.nodes[2].id, 3);
    assert_eq!(g.nodes[3].id, 2);
    // Every connection still leads forward in node order.
    for c in g.connections.iter() {
        let pf = g.nodes.iter().position(|n| n.id == c.from).unwrap();
        let pt = g.nodes.iter().position(|n| n.id == c.to).unwrap();
        assert!(pf < pt);
    }
}

#[test]
fn nudge_weight_saturates_at_limit() {
    let mut h = InnovationHistory::new(3);
    let mut g = seed(WEIGHT_LIMIT - 50_000, 0, &mut h);
    g.nudge_weight(0, 100_000);
    assert_eq!(g.connections[0].weight, WEIGHT_LIMIT);
    g.nudge_weight(0, -100_000);
    assert_eq!(g.connections[0].weight, WEIGHT_LIMIT - 100_000);
}

#[test]
fn set_weight_replaces_only_the_weight() {
    let mut h = InnovationHistory::new(3);
    let mut g = seed(600_000, -300_000, &mut h);
    let before = g.connections[1];
    g.set_weight(1, 123_456);
    let after = g.connections[1];
    assert_eq!(after.weight, 123_456);
    assert_eq!((after.from, after.to, after.enabled, after.innovation),
               (before.from, before.to, before.enabled, before.innovation));
}

#[test]
fn mutation_preserves_node_roles_and_references() {
    let mut h = InnovationHistory::new(3);
    let mut g = seed(600_000, -300_000, &mut h);
    for _ in 0..200 {
        g.mutate(&mut h);
    }
    let inputs = g.nodes.iter().filter(|n| n.kind == NodeType::Input).count();
    let outputs = g.nodes.iter().filter(|n| n.kind == NodeType::Output).count();
    assert_eq!(inputs, 2);
    assert_eq!(outputs, 1);
    // Connections reference existing nodes, lead forward, and never target
    // an input; (from, to) pairs stay unique.
    for (k, c) in g.connections.iter().enumerate() {
        let pf = g.nodes.iter().position(|n| n.id == c.from).unwrap();
        let pt = g.nodes.iter().position(|n| n.id == c.to).unwrap();
        assert!(pf < pt);
        assert_ne!(g.nodes[pt].kind, NodeType::Input);
        assert!(c.weight >= -WEIGHT_LIMIT && c.weight <= WEIGHT_LIMIT);
        for c2 in g.connections.iter().skip(k + 1) {
            assert!(!(c.from == c2.from && c.to == c2.to));
        }
    }
}

#[test]
fn duplicate_copies_everything() {
    let mut h = InnovationHistory::new(3);
    let mut g = seed(600_000, -300_000, &mut h);
    g.fitness = 42;
    let d = g.duplicate();
    assert_eq!(d.fitness, 42);
    assert_eq!(d.nodes.len(), g.nodes.len());
    assert_eq!(d.connections.len(), g.connections.len());
    for (a, b) in d.connections.iter().zip(g.connections.iter()) {
        assert_eq!((a.from, a.to, a.weight, a.enabled, a.innovation),
                   (b.from, b.to, b.weight, b.enabled, b.innovation));
    }
}
