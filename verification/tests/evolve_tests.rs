use neat::evolve::{roulette_select, ConfigError, Neat, NeatConfig, MAX_POPULATION};
use neat::fixed::FP_ONE;
use neat::genome::{Genome, NodeType};
use neat::innovation::InnovationHistory;

fn config() -> NeatConfig {
    NeatConfig {
        population_size: 100,
        mutate_weight_chance: 800_000,
        new_connection_chance: 50_000,
        new_node_chance: 30_000,
        max_generations: 100,
        target_fitness: 990_000,
    }
}

#[test]
fn selection_correctness() {
    // Fitnesses [0, 0, 0, 10] and pick 9.9999 choose index 3.
    let fitnesses = vec![0, 0, 0, 10 * FP_ONE];
    assert_eq!(roulette_select(&fitnesses, 9_999_900), Some(3));
    // The wheel never exceeds a pick at or past the total.
    assert_eq!(roulette_select(&fitnesses, 10 * FP_ONE), None);
    // The first index whose cumulative fitness exceeds the pick wins.
    let fs = vec![200_000, 300_000, 500_000];
    assert_eq!(roulette_select(&fs, 0), Some(0));
    assert_eq!(roulette_select(&fs, 199_999), Some(0));
    assert_eq!(roulette_select(&fs, 200_000), Some(1));
    assert_eq!(roulette_select(&fs, 499_999), Some(1));
    assert_eq!(roulette_select(&fs, 500_000), Some(2));
}

#[test]
fn config_rejection() {
    let mut c = config();
    c.population_size = 0;
    assert!(matches!(Neat::new(c), Err(ConfigError::ZeroPopulation)));
    let mut c = config();
    c.population_size = MAX_POPULATION + 1;
    assert!(matches!(Neat::new(c), Err(ConfigError::PopulationTooLarge)));
    let mut c = config();
    c.new_node_chance = FP_ONE + 1;
    assert!(matches!(Neat::new(c), Err(ConfigError::ChanceOutOfRange)));
    let mut c = config();
    c.mutate_weight_chance = -1;
    assert!(matches!(Neat::new(c), Err(ConfigError::ChanceOutOfRange)));
    assert!(Neat::new(config()).is_ok());
}

#[test]
fn new_population_is_seeded_minimal() {
    let neat = Neat::new(config()).unwrap();
    assert_eq!(neat.generation, 0);
    assert_eq!(neat.population.len(), 100);
    for g in neat.population.iter() {
        assert_eq!(g.nodes.len(), 3);
        assert_eq!(g.nodes[0].kind, NodeType::Input);
        assert_eq!(g.nodes[1].kind, NodeType::Input);
        assert_eq!(g.nodes[2].kind, NodeType::Output);
        assert_eq!(g.connections.len(), 2);
        // Structurally identical: both edges carry the run's first two
        // innovation ids in every seed genome.
        assert_eq!(g.connections[0].innovation, 0);
        assert_eq!(g.connections[1].innovation, 1);
        for c in g.connections.iter() {
            assert!(c.enabled);
            assert!(-FP_ONE <= c.weight && c.weight < FP_ONE);
        }
    }
}

fn seed(w1: i64, w2: i64, h: &mut InnovationHistory) -> Genome {
    let mut g = Genome::new();
    let i1 = g.add_node(NodeType::Input);
    let i2 = g.add_node(NodeType::Input);
    let o = g.add_node(NodeType::Output);
    assert!(g.add_connection(i1, o, w1, h));
    assert!(g.add_connection(i2, o, w2, h));
    g
}

#[test]
fn fitness_bounds() {
    // Fitness lies in (0, 1] for any genome the engine produces.
    let mut h = InnovationHistory::new(3);
    let mut g = seed(600_000, -300_000, &mut h);
    for _ in 0..50 {
        let f = Neat::compute_fitness(&g);
        assert!(0 < f && f <= FP_ONE);
        g.mutate(&mut h);
    }
}

#[test]
fn fitness_exact_value_without_connections() {
    // With no connections the output node reads sigmoid(0) = 0.5 on every
    // case, so each squared error is 0.25 and the total is 1.0:
    // fitness = 1 / (1 + 1) = 0.5.
    let mut g = Genome::new();
    g.add_node(NodeType::Input);
    g.add_node(NodeType::Input);
    g.add_node(NodeType::Output);
    let f = Neat::compute_fitness(&g);
    assert_eq!(f, FP_ONE / 2);
}

#[test]
fn fitness_one_needs_zero_error() {
    // A linear seed genome cannot solve XOR, so its error is positive and
    // its fitness stays strictly below one.
    let mut h = InnovationHistory::new(3);
    let g = seed(600_000, -300_000, &mut h);
    let f = Neat::compute_fitness(&g);
    assert!(f < FP_ONE);
}

#[test]
fn evolve_replaces_population_and_advances_generation() {
    let mut c = config();
    c.population_size = 30;
    let mut neat = Neat::new(c).unwrap();
    for _ in 0..5 {
        neat.evolve();
    }
    assert_eq!(neat.generation, 5);
    assert_eq!(neat.population.len(), 30);
    for g in neat.population.iter() {
        assert_eq!(g.nodes.iter().filter(|n| n.kind == NodeType::Input).count(), 2);
        // Offspring fitness is reset, awaiting the next evaluation.
        assert_eq!(g.fitness, 0);
    }
}

#[test]
fn run_stops_once_the_target_is_reached() {
    // Every fitness is at least a fifth, so a target at the floor is met in
    // the very first generation.
    let mut c = config();
    c.population_size = 10;
    c.max_generations = 50;
    c.target_fitness = FP_ONE / 5;
    let mut neat = Neat::new(c).unwrap();
    let (_, best_f) = neat.run();
    assert_eq!(neat.generation, 1);
    assert!(best_f >= FP_ONE / 5);
}

#[test]
fn generational_scenario() {
    // The full loop: one hundred generations with population one hundred on
    // the XOR task. The best fitness seen obeys the proven envelope and the
    // loop stops within its budget.
    let mut neat = Neat::new(config()).unwrap();
    let (best, best_f) = neat.run();
    assert!(FP_ONE / 5 <= best_f && best_f <= FP_ONE);
    assert!(neat.generation <= 100);
    assert_eq!(Neat::compute_fitness(&best), best_f);
}

#[test]
fn run_tracks_a_best_genome() {
    let mut c = config();
    c.population_size = 40;
    c.max_generations = 10;
    c.target_fitness = FP_ONE + 1; // never reached: run the full budget
    let mut neat = Neat::new(c).unwrap();
    let (best, best_f) = neat.run();
    assert!(0 < best_f && best_f <= FP_ONE);
    assert_eq!(neat.generation, 10);
    // The returned genome really scores what run reports.
    assert_eq!(Neat::compute_fitness(&best), best_f);
}
