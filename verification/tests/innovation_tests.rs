use neat::innovation::InnovationHistory;

#[test]
fn innovation_same_pair_returns_same_id() {
    let mut h = InnovationHistory::new(3);
    let a = h.get_innovation(0, 2);
    let b = h.get_innovation(0, 2);
    assert_eq!(a, b);
    assert_eq!(h.next_innovation, 1);
}

#[test]
fn innovation_distinct_pairs_get_distinct_ids() {
    let mut h = InnovationHistory::new(3);
    let a = h.get_innovation(0, 2);
    let b = h.get_innovation(1, 2);
    assert_ne!(a, b);
    assert_eq!(a, 0);
    assert_eq!(b, 1);
}

#[test]
fn innovation_reversed_pair_is_a_new_edge() {
    let mut h = InnovationHistory::new(3);
    let a = h.get_innovation(0, 2);
    let b = h.get_innovation(2, 0);
    assert_ne!(a, b);
}

#[test]
fn innovation_survives_interleaved_queries() {
    let mut h = InnovationHistory::new(3);
    let a = h.get_innovation(0, 2);
    let _ = h.get_innovation(1, 2);
    let _ = h.get_innovation(0, 3);
    assert_eq!(h.get_innovation(0, 2), a);
}

#[test]
fn innovation_is_shared_across_genomes() {
    // Two genomes creating the same structural edge in one run are handed
    // the same innovation id by the shared registry.
    let mut h = InnovationHistory::new(3);
    let first = h.get_innovation(1, 2);
    let again = h.get_innovation(1, 2);
    assert_eq!(first, again);
    assert_eq!(h.map.len(), 1);
}

#[test]
fn allocate_node_id_is_monotone() {
    let mut h = InnovationHistory::new(3);
    let a = h.allocate_node_id();
    let b = h.allocate_node_id();
    assert_eq!(a, 3);
    assert_eq!(b, 4);
    assert_eq!(h.next_node_id, 5);
}
