//! The evolution loop and population manager.
//!
//! Each generation, every genome is compiled and scored on the XOR task
//! (fitness `1 / (1 + total squared error)` at the fixed-point scale, so
//! always in `(0, FP_ONE]` and equal to `FP_ONE` exactly when the recorded
//! squared error is zero), parents are drawn by roulette-wheel selection
//! proportional to fitness, each selected parent is cloned and mutated into
//! one offspring, and the population is replaced wholesale. A degenerate
//! wheel (no index reached) is recovered locally by injecting a freshly
//! seeded minimal genome.

use vstd::prelude::*;

verus! {

use crate::fixed::{FP_ONE, FP_ONE_SQ};
use crate::genome::{
    Connection, Genome, NodeGene, NodeType, contains_id, count_kind, count_kind_prefix, ids_below,
    lemma_pos_of_unique,
};
use crate::innovation::InnovationHistory;
use crate::network::{
    NeuralNetwork, genome_outputs, lemma_compile_post_matches, lemma_net_genome_outputs,
    net_matches,
};
use crate::rng::{rand_below, rand_fp_range};

/// The largest admissible population size: keeps every fitness total
/// representable in the fixed-point machine arithmetic.
pub const MAX_POPULATION: usize = 1_000_000;

/// The floor of the roulette draw range, preventing a zero-width range
/// when the fitness total degenerates: one tenth at the fixed-point scale.
pub const FITNESS_FLOOR: i64 = 100_000;

/// Node ids `0` and `1` (inputs) and `2` (output) belong to the seed
/// genome; the innovation registry issues split-node ids from here up.
pub const SEED_NODE_COUNT: usize = 3;

/// The recognized configuration options. Probabilities are fixed-point
/// values in `[0, FP_ONE]`.
#[derive(Clone, Copy, PartialEq, Eq, Structural, Debug)]
pub struct NeatConfig {
    pub population_size: usize,
    pub mutate_weight_chance: i64,
    pub new_connection_chance: i64,
    pub new_node_chance: i64,
    pub max_generations: usize,
    pub target_fitness: i64,
}

/// Why a configuration was rejected at construction.
#[derive(Clone, Copy, PartialEq, Eq, Structural, Debug)]
pub enum ConfigError {
    /// The population size is zero.
    ZeroPopulation,
    /// The population size exceeds [`MAX_POPULATION`].
    PopulationTooLarge,
    /// A mutation probability lies outside `[0, FP_ONE]`.
    ChanceOutOfRange,
}

impl NeatConfig {
    /// A configuration the manager accepts.
    pub open spec fn valid(&self) -> bool {
        &&& 1 <= self.population_size <= MAX_POPULATION
        &&& 0 <= self.mutate_weight_chance <= FP_ONE
        &&& 0 <= self.new_connection_chance <= FP_ONE
        &&& 0 <= self.new_node_chance <= FP_ONE
    }
}

/// The error a configuration is rejected with, if any; checks are ordered,
/// so the result is a function of the configuration.
pub open spec fn spec_validate(c: NeatConfig) -> Option<ConfigError> {
    if c.population_size == 0 {
        Some(ConfigError::ZeroPopulation)
    } else if c.population_size > MAX_POPULATION {
        Some(ConfigError::PopulationTooLarge)
    } else if !(0 <= c.mutate_weight_chance <= FP_ONE) || !(0 <= c.new_connection_chance <= FP_ONE)
        || !(0 <= c.new_node_chance <= FP_ONE) {
        Some(ConfigError::ChanceOutOfRange)
    } else {
        None
    }
}

/// The first network output on the XOR inputs `[a, b]`, or zero when the
/// genome has no output node.
pub open spec fn spec_pred(gn: Seq<NodeGene>, gc: Seq<Connection>, a: i64, b: i64) -> int {
    let outs = genome_outputs(gn, gc, seq![a, b]);
    if outs.len() > 0 {
        outs[0] as int
    } else {
        0
    }
}

/// The recorded squared error of one XOR case at the fixed-point scale.
pub open spec fn spec_case_err(
    gn: Seq<NodeGene>,
    gc: Seq<Connection>,
    a: i64,
    b: i64,
    expected: i64,
) -> int {
    let d = spec_pred(gn, gc, a, b) - expected;
    d * d / (FP_ONE as int)
}

/// The total recorded squared error over the four XOR cases.
pub open spec fn spec_xor_error(gn: Seq<NodeGene>, gc: Seq<Connection>) -> int {
    spec_case_err(gn, gc, 0, 0, 0) + spec_case_err(gn, gc, 0, FP_ONE, FP_ONE) + spec_case_err(
        gn,
        gc,
        FP_ONE,
        0,
        FP_ONE,
    ) + spec_case_err(gn, gc, FP_ONE, FP_ONE, 0)
}

/// The XOR fitness: `1 / (1 + total squared error)` at the fixed-point
/// scale.
pub open spec fn spec_xor_fitness(gn: Seq<NodeGene>, gc: Seq<Connection>) -> int {
    (FP_ONE_SQ as int) / (FP_ONE + spec_xor_error(gn, gc))
}

/// Scores one XOR case on an already compiled network.
fn xor_case(
    net: &mut NeuralNetwork,
    Ghost(g): Ghost<Genome>,
    a: i64,
    b: i64,
    expected: i64,
) -> (err: i64)
    requires
        old(net).wf(),
        net_matches(g, *old(net)),
        count_kind(g.nodes@, NodeType::Input) == 2,
        0 <= a <= FP_ONE,
        0 <= b <= FP_ONE,
        0 <= expected <= FP_ONE,
    ensures
        final(net).wf(),
        net_matches(g, *final(net)),
        err == spec_case_err(g.nodes@, g.connections@, a, b, expected),
        0 <= err <= FP_ONE,
{
    let mut inputs: Vec<i64> = Vec::new();
    inputs.push(a);
    inputs.push(b);
    proof {
        assert(inputs@ =~= seq![a, b]);
    }
    let outs = net.activate(&inputs);
    proof {
        lemma_net_genome_outputs(g, *old(net), inputs@);
    }
    let pred = if outs.len() > 0 {
        outs[0]
    } else {
        0
    };
    let d = pred - expected;
    proof {
        assert(0 <= d * d <= FP_ONE_SQ && d * d / (FP_ONE as int) <= FP_ONE) by (nonlinear_arith)
            requires
                -FP_ONE <= d <= FP_ONE,
        ;
    }
    (d * d) / FP_ONE
}

/// The cumulative fitness of the first `n` entries of the wheel.
pub open spec fn prefix_fitness(fs: Seq<i64>, n: int) -> int
    decreases n,
{
    if n <= 0 {
        0
    } else {
        prefix_fitness(fs, n - 1) + fs[n - 1]
    }
}

/// Cumulative fitness over non-negative entries is monotone.
pub proof fn lemma_prefix_fitness_mono(fs: Seq<i64>, a: int, b: int)
    requires
        forall|k: int| 0 <= k < fs.len() ==> #[trigger] fs[k] >= 0,
        0 <= a <= b <= fs.len(),
    ensures
        prefix_fitness(fs, a) <= prefix_fitness(fs, b),
    decreases b - a,
{
    if a < b {
        lemma_prefix_fitness_mono(fs, a, b - 1);
    }
}

/// Roulette-wheel selection: scans the wheel accumulating fitness and
/// returns the first index whose cumulative fitness exceeds `pick`, or
/// nothing when the whole wheel does not exceed `pick`.
#[verifier::loop_isolation(false)]
pub fn roulette_select(fitnesses: &Vec<i64>, pick: i64) -> (r: Option<usize>)
    requires
        forall|k: int| 0 <= k < fitnesses@.len() ==> #[trigger] fitnesses@[k] >= 0,
        0 <= pick,
        prefix_fitness(fitnesses@, fitnesses@.len() as int) <= i64::MAX,
    ensures
        match r {
            Some(i) => i < fitnesses@.len() && prefix_fitness(fitnesses@, i as int + 1) > pick
                && forall|j: int| 0 <= j < i ==> #[trigger] prefix_fitness(fitnesses@, j + 1)
                    <= pick,
            None => prefix_fitness(fitnesses@, fitnesses@.len() as int) <= pick,
        },
{
    let n = fitnesses.len();
    let mut acc: i64 = 0;
    let mut i: usize = 0;
    while i < n
        invariant
            0 <= i <= n,
            acc == prefix_fitness(fitnesses@, i as int),
            0 <= acc,
            forall|j: int| 0 <= j < i ==> #[trigger] prefix_fitness(fitnesses@, j + 1) <= pick,
        decreases n - i,
    {
        proof {
            lemma_prefix_fitness_mono(fitnesses@, i as int + 1, n as int);
            lemma_prefix_fitness_mono(fitnesses@, 0, i as int + 1);
        }
        let acc2 = acc + fitnesses[i];
        if acc2 > pick {
            return Some(i);
        }
        acc = acc2;
        i = i + 1;
    }
    proof {
        if n > 0 {
            assert(prefix_fitness(fitnesses@, (n - 1) as int + 1) <= pick);
        }
    }
    None
}

/// The population manager: the genomes of the current generation, the
/// accepted configuration, the generation counter, and the run-wide
/// innovation registry.
pub struct Neat {
    pub population: Vec<Genome>,
    pub config: NeatConfig,
    pub generation: usize,
    pub history: InnovationHistory,
}

/// The seed genome's nodes: two inputs and one output.
pub open spec fn seed_nodes() -> Seq<NodeGene> {
    seq![
        NodeGene { id: 0, kind: NodeType::Input },
        NodeGene { id: 1, kind: NodeType::Input },
        NodeGene { id: 2, kind: NodeType::Output },
    ]
}

/// A minimal seed genome as the manager creates it: exactly the three seed
/// nodes, a zero fitness, and exactly the two enabled connections
/// `0 -> 2` and `1 -> 2`, each with a uniform random weight drawn from the
/// half-open range `[-1.0, 1.0)`.
pub open spec fn is_seed_genome(g: Genome) -> bool {
    &&& g.nodes@ == seed_nodes()
    &&& g.fitness == 0
    &&& g.connections@.len() == 2
    &&& g.connections@[0].from == 0 && g.connections@[0].to == 2 && g.connections@[0].enabled
    &&& g.connections@[1].from == 1 && g.connections@[1].to == 2 && g.connections@[1].enabled
    &&& -FP_ONE <= g.connections@[0].weight < FP_ONE
    &&& -FP_ONE <= g.connections@[1].weight < FP_ONE
}

/// The child arose from the parent by mutation alone: its fitness is reset
/// to zero awaiting its own evaluation, every node of the parent still
/// stands with its id and kind, and every connection of the parent is still
/// there in order with its endpoints and innovation id — only weights,
/// enabled flags, and appended nodes and connections may differ.
pub open spec fn derived_from(parent: Genome, child: Genome) -> bool {
    &&& child.fitness == 0
    &&& crate::genome::nodes_kept(parent.nodes@, child.nodes@)
    &&& crate::genome::edges_kept(parent.connections@, child.connections@)
}

impl Neat {
    /// The manager's invariant: a valid configuration, a well-formed
    /// registry whose node counter never collides with seed node ids, and a
    /// population of exactly the configured size in which every genome is
    /// well formed, has the task's two inputs, and uses only ids the
    /// registry has already passed.
    pub open spec fn wf(&self) -> bool {
        &&& self.config.valid()
        &&& self.history.wf()
        &&& self.history.next_node_id >= SEED_NODE_COUNT
        &&& self.population@.len() == self.config.population_size
        &&& forall|i: int|
            0 <= i < self.population@.len() ==> {
                let g = #[trigger] self.population@[i];
                &&& g.wf()
                &&& count_kind(g.nodes@, NodeType::Input) == 2
                &&& ids_below(g.nodes@, self.history.next_node_id)
            }
    }

    /// A minimal seed genome: two inputs and one output, fully connected
    /// with fresh uniform random weights, structurally identical across
    /// calls (the registry hands both edges the same innovation ids every
    /// time).
    pub fn create_initial_genome(history: &mut InnovationHistory) -> (g: Genome)
        requires
            old(history).wf(),
            old(history).next_node_id >= SEED_NODE_COUNT,
        ensures
            final(history).wf(),
            final(history).next_node_id == old(history).next_node_id,
            g.wf(),
            is_seed_genome(g),
            count_kind(g.nodes@, NodeType::Input) == 2,
            count_kind(g.nodes@, NodeType::Output) == 1,
            ids_below(g.nodes@, final(history).next_node_id),
    {
        let mut g = Genome::new();
        let i1 = g.add_node(NodeType::Input);
        assert(!contains_id(g.nodes@, 1));
        let i2 = g.add_node(NodeType::Input);
        assert(!contains_id(g.nodes@, 2));
        let o = g.add_node(NodeType::Output);
        proof {
            assert(g.nodes@ =~= seed_nodes());
            lemma_pos_of_unique(g.nodes@, 0);
            lemma_pos_of_unique(g.nodes@, 1);
            lemma_pos_of_unique(g.nodes@, 2);
        }
        let w1 = rand_fp_range(-FP_ONE, FP_ONE);
        let added1 = g.add_connection(i1, o, w1, history);
        assert(added1);
        let w2 = rand_fp_range(-FP_ONE, FP_ONE);
        let added2 = g.add_connection(i2, o, w2, history);
        assert(added2);
        proof {
            reveal_with_fuel(count_kind_prefix, 5);
            assert(count_kind(g.nodes@, NodeType::Input) == 2);
            assert(count_kind(g.nodes@, NodeType::Output) == 1);
        }
        g
    }

    /// The fixed evaluation task: the genome's network is compiled fresh
    /// and run on all four XOR input pairs; the fitness is
    /// `1 / (1 + total squared error)` at the fixed-point scale. Always in
    /// `(0, FP_ONE]` — in fact at least a fifth — and equal to `FP_ONE`
    /// exactly when the recorded squared error is zero.
    pub fn compute_fitness(genome: &Genome) -> (f: i64)
        requires
            genome.wf(),
            count_kind(genome.nodes@, NodeType::Input) == 2,
        ensures
            f == spec_xor_fitness(genome.nodes@, genome.connections@),
            FP_ONE / 5 <= f <= FP_ONE,
            f == FP_ONE <==> spec_xor_error(genome.nodes@, genome.connections@) == 0,
    {
        let mut net = genome.compile();
        proof {
            lemma_compile_post_matches(*genome, net);
        }
        let e1 = xor_case(&mut net, Ghost(*genome), 0, 0, 0);
        let e2 = xor_case(&mut net, Ghost(*genome), 0, FP_ONE, FP_ONE);
        let e3 = xor_case(&mut net, Ghost(*genome), FP_ONE, 0, FP_ONE);
        let e4 = xor_case(&mut net, Ghost(*genome), FP_ONE, FP_ONE, 0);
        let total = e1 + e2 + e3 + e4;
        let f = FP_ONE_SQ / (FP_ONE + total);
        proof {
            assert((FP_ONE_SQ as int) / (FP_ONE + total) == FP_ONE <==> total == 0)
                by (nonlinear_arith)
                requires
                    0 <= total <= 4 * FP_ONE,
            ;
            assert(FP_ONE / 5 <= (FP_ONE_SQ as int) / (FP_ONE + total) <= FP_ONE)
                by (nonlinear_arith)
                requires
                    0 <= total <= 4 * FP_ONE,
            ;
        }
        f
    }
}

impl Neat {
    /// Builds a manager from a configuration, rejecting an out-of-range one
    /// at construction, and seeds a population of structurally identical
    /// minimal genomes with fresh random weights.
    #[verifier::loop_isolation(false)]
    pub fn new(config: NeatConfig) -> (r: Result<Neat, ConfigError>)
        ensures
            r is Ok <==> config.valid(),
            match r {
                Ok(neat) => neat.wf() && neat.generation == 0 && neat.config == config
                    && forall|i: int|
                    0 <= i < neat.population@.len() ==> is_seed_genome(
                        #[trigger] neat.population@[i],
                    ),
                Err(e) => spec_validate(config) == Some(e),
            },
    {
        if config.population_size == 0 {
            return Err(ConfigError::ZeroPopulation);
        }
        if config.population_size > MAX_POPULATION {
            return Err(ConfigError::PopulationTooLarge);
        }
        if config.mutate_weight_chance < 0 || config.mutate_weight_chance > FP_ONE
            || config.new_connection_chance < 0 || config.new_connection_chance > FP_ONE
            || config.new_node_chance < 0 || config.new_node_chance > FP_ONE {
            return Err(ConfigError::ChanceOutOfRange);
        }
        let mut history = InnovationHistory::new(SEED_NODE_COUNT);
        let mut population: Vec<Genome> = Vec::new();
        while population.len() < config.population_size
            invariant
                history.wf(),
                history.next_node_id == SEED_NODE_COUNT,
                population@.len() <= config.population_size,
                forall|i: int|
                    0 <= i < population@.len() ==> {
                        let g = #[trigger] population@[i];
                        &&& g.wf()
                        &&& is_seed_genome(g)
                        &&& count_kind(g.nodes@, NodeType::Input) == 2
                        &&& ids_below(g.nodes@, history.next_node_id)
                    },
            decreases config.population_size - population@.len(),
        {
            let g = Neat::create_initial_genome(&mut history);
            population.push(g);
        }
        Ok(Neat { population, config, generation: 0, history })
    }

    /// One full generational step: evaluate every genome on the XOR task
    /// and record its fitness, then draw parents by roulette-wheel
    /// selection and fill the next generation with mutated clones (a
    /// degenerate wheel injects a fresh seed genome instead), then replace
    /// the population wholesale and advance the generation counter. Every
    /// member of the new generation carries fitness zero, awaiting its own
    /// evaluation, and is either a fresh seed genome or derived by one
    /// mutation pass from a member of the replaced generation.
    #[verifier::loop_isolation(false)]
    #[verifier::rlimit(50)]
    pub fn evolve(&mut self)
        requires
            old(self).wf(),
            old(self).generation < usize::MAX,
            old(self).history.next_node_id + old(self).config.population_size < usize::MAX,
        ensures
            final(self).wf(),
            final(self).generation == old(self).generation + 1,
            final(self).config == old(self).config,
            final(self).population@.len() == old(self).config.population_size,
            old(self).history.next_node_id <= final(self).history.next_node_id,
            final(self).history.next_node_id <= old(self).history.next_node_id + old(
                self,
            ).config.population_size,
            forall|i: int|
                0 <= i < final(self).population@.len() ==> (#[trigger] final(self).population@[i]).fitness
                    == 0,
            forall|i: int|
                0 <= i < final(self).population@.len() ==> is_seed_genome(
                    #[trigger] final(self).population@[i],
                ) || (exists|j: int|
                    0 <= j < old(self).population@.len() && derived_from(
                        old(self).population@[j],
                        final(self).population@[i],
                    )),
    {
        let n = self.population.len();
        let mut fitnesses: Vec<i64> = Vec::new();
        let mut evaluated: Vec<Genome> = Vec::new();
        let mut i: usize = 0;
        while i < n
            invariant
                0 <= i <= n,
                fitnesses@.len() == i,
                evaluated@.len() == i,
                forall|k: int| 0 <= k < i ==> FP_ONE / 5 <= #[trigger] fitnesses@[k] <= FP_ONE,
                forall|k: int|
                    0 <= k < i ==> {
                        let g = #[trigger] evaluated@[k];
                        &&& g.wf()
                        &&& count_kind(g.nodes@, NodeType::Input) == 2
                        &&& ids_below(g.nodes@, self.history.next_node_id)
                        &&& g.nodes@ == old(self).population@[k].nodes@
                        &&& g.connections@ == old(self).population@[k].connections@
                    },
            decreases n - i,
        {
            let f = Self::compute_fitness(&self.population[i]);
            let mut scored = self.population[i].duplicate();
            scored.fitness = f;
            evaluated.push(scored);
            fitnesses.push(f);
            i = i + 1;
        }
        self.population = evaluated;
        let mut total: i64 = 0;
        let mut k: usize = 0;
        while k < n
            invariant
                0 <= k <= n,
                total == prefix_fitness(fitnesses@, k as int),
                0 <= total <= (k as int) * (FP_ONE as int),
            decreases n - k,
        {
            total = total + fitnesses[k];
            k = k + 1;
        }
        let pop_size = self.config.population_size;
        let ghost next0 = self.history.next_node_id;
        let mut new_population: Vec<Genome> = Vec::new();
        while new_population.len() < pop_size
            invariant
                new_population@.len() <= pop_size,
                self.history.wf(),
                self.history.next_node_id >= SEED_NODE_COUNT,
                next0 <= self.history.next_node_id,
                self.history.next_node_id as int <= next0 + new_population@.len(),
                self.population@.len() == n,
                n == old(self).population@.len(),
                self.generation == old(self).generation,
                self.config == old(self).config,
                forall|k2: int|
                    0 <= k2 < n ==> {
                        let g = #[trigger] self.population@[k2];
                        &&& g.wf()
                        &&& count_kind(g.nodes@, NodeType::Input) == 2
                        &&& ids_below(g.nodes@, next0)
                        &&& g.nodes@ == old(self).population@[k2].nodes@
                        &&& g.connections@ == old(self).population@[k2].connections@
                    },
                forall|k2: int|
                    0 <= k2 < new_population@.len() ==> {
                        let g = #[trigger] new_population@[k2];
                        &&& g.wf()
                        &&& count_kind(g.nodes@, NodeType::Input) == 2
                        &&& ids_below(g.nodes@, self.history.next_node_id)
                        &&& g.fitness == 0
                    },
                forall|k2: int|
                    0 <= k2 < new_population@.len() ==> is_seed_genome(
                        #[trigger] new_population@[k2],
                    ) || (exists|j: int|
                        0 <= j < n && derived_from(
                            old(self).population@[j],
                            new_population@[k2],
                        )),
            decreases pop_size - new_population@.len(),
        {
            let bound = if total > FITNESS_FLOOR {
                total
            } else {
                FITNESS_FLOOR
            };
            let draw = rand_below(bound as u64);
            let pick = draw as i64;
            match roulette_select(&fitnesses, pick) {
                Some(sel) => {
                    proof {
                        if sel >= n {
                            lemma_prefix_fitness_mono(fitnesses@, 0, sel as int + 1);
                        }
                    }
                    let ghost parent = old(self).population@[sel as int];
                    let mut child = self.population[sel].duplicate();
                    child.fitness = 0;
                    let ghost child0 = child;
                    child.mutate_with_rates(
                        &mut self.history,
                        self.config.mutate_weight_chance,
                        self.config.new_connection_chance,
                        self.config.new_node_chance,
                    );
                    proof {
                        assert(child0.nodes@ == parent.nodes@);
                        assert(child0.connections@ == parent.connections@);
                        assert(derived_from(parent, child));
                    }
                    new_population.push(child);
                },
                None => {
                    let g = Self::create_initial_genome(&mut self.history);
                    new_population.push(g);
                },
            }
        }
        self.population = new_population;
        self.generation = self.generation + 1;
    }

    /// The driving loop: runs [`Neat::evolve`] for up to the configured
    /// number of generations, re-scoring every genome after each step and
    /// tracking the best genome (by XOR fitness) seen across all
    /// generations — fitness is not monotonic across generations — and
    /// stopping early once the best fitness reaches the configured target.
    /// Returns the best genome and its fitness; once at least one
    /// generation ran, that fitness is exactly the returned genome's XOR
    /// fitness, it bounds the whole final population, and the loop stopped
    /// either at the target or only after spending the full generation
    /// budget.
    #[verifier::loop_isolation(false)]
    #[verifier::rlimit(80)]
    pub fn run(&mut self) -> (best: (Genome, i64))
        requires
            old(self).wf(),
            old(self).generation + old(self).config.max_generations <= usize::MAX,
            old(self).history.next_node_id + (old(self).config.max_generations + 1) * old(
                self,
            ).config.population_size < usize::MAX,
        ensures
            final(self).wf(),
            best.0.wf(),
            0 <= best.1 <= FP_ONE,
            final(self).config == old(self).config,
            final(self).generation <= old(self).generation + old(self).config.max_generations,
            old(self).config.max_generations >= 1 ==> {
                &&& final(self).generation >= old(self).generation + 1
                &&& best.1 == spec_xor_fitness(best.0.nodes@, best.0.connections@)
                &&& best.1 >= FP_ONE / 5
                &&& (best.1 >= old(self).config.target_fitness || final(self).generation == old(
                    self,
                ).generation + old(self).config.max_generations)
                &&& forall|i: int|
                    0 <= i < final(self).population@.len() ==> spec_xor_fitness(
                        (#[trigger] final(self).population@[i]).nodes@,
                        final(self).population@[i].connections@,
                    ) <= best.1
            },
            old(self).config.max_generations == 0 ==> *final(self) == *old(self) && best.1 == 0
                && best.0.nodes@ == old(self).population@[0].nodes@ && best.0.connections@ == old(
                self,
            ).population@[0].connections@ && best.0.fitness == old(self).population@[0].fitness,
    {
        let max_g = self.config.max_generations;
        let target = self.config.target_fitness;
        let ghost gen0 = self.generation;
        let ghost next0 = self.history.next_node_id;
        let ghost pop_size = self.config.population_size as int;
        if max_g == 0 {
            let unevolved = self.population[0].duplicate();
            return (unevolved, 0);
        }
        let mut best = self.population[0].duplicate();
        let mut best_f: i64 = 0;
        let mut gen: usize = 0;
        let mut done: bool = false;
        while gen < max_g && !done
            invariant
                0 <= gen <= max_g,
                self.wf(),
                self.config == old(self).config,
                self.generation as int == gen0 + gen,
                self.history.next_node_id as int <= next0 + (gen as int) * pop_size,
                best.wf(),
                0 <= best_f <= FP_ONE,
                gen == 0 ==> best_f == 0,
                done ==> best_f >= target,
                done ==> gen >= 1,
                gen >= 1 ==> {
                    &&& best_f == spec_xor_fitness(best.nodes@, best.connections@)
                    &&& best_f >= FP_ONE / 5
                    &&& forall|i: int|
                        0 <= i < self.population@.len() ==> spec_xor_fitness(
                            (#[trigger] self.population@[i]).nodes@,
                            self.population@[i].connections@,
                        ) <= best_f
                },
            decreases max_g - gen,
        {
            proof {
                assert((gen as int) * pop_size + pop_size == (gen as int + 1) * pop_size)
                    by (nonlinear_arith)
                ;
                assert((gen as int + 1) * pop_size <= (max_g as int + 1) * pop_size)
                    by (nonlinear_arith)
                    requires
                        gen as int + 1 <= max_g as int + 1,
                        pop_size >= 0,
                ;
            }
            self.evolve();
            let m = self.population.len();
            let mut i: usize = 0;
            while i < m
                invariant
                    0 <= i <= m,
                    m == self.population@.len(),
                    self.wf(),
                    best.wf(),
                    0 <= best_f <= FP_ONE,
                    best_f > 0 ==> best_f == spec_xor_fitness(best.nodes@, best.connections@)
                        && best_f >= FP_ONE / 5,
                    i >= 1 ==> best_f >= FP_ONE / 5,
                    forall|j: int|
                        0 <= j < i ==> spec_xor_fitness(
                            (#[trigger] self.population@[j]).nodes@,
                            self.population@[j].connections@,
                        ) <= best_f,
                decreases m - i,
            {
                let f = Self::compute_fitness(&self.population[i]);
                if f > best_f {
                    best_f = f;
                    best = self.population[i].duplicate();
                }
                i = i + 1;
            }
            gen = gen + 1;
            if best_f >= target {
                done = true;
            }
        }
        (best, best_f)
    }
}


} // verus!
