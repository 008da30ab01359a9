//! A population: a fixed number of agents that are stepped together and,
//! once all their games have ended, replaced by a next generation bred from
//! them.
//!
//! Breeding selects, copies, recombines and mutates networks, and each new
//! agent records how it was bred. The two functions that touch the value of
//! a parameter come from the caller: `draw`, which gives a fresh random
//! parameter, and `perturb`, which moves a parameter by a random amount.

use crate::agent::{tick, Agent, AgentView};
use crate::configs::{Config, ConfigView, TOURNAMENT_SIZE};
use crate::game::GameState;
use crate::nn::{
    lemma_crossover_keeps_shape, lemma_mutation_keeps_shape, lemma_same_sizes_same_shape, Net,
    NetView,
};
use crate::rng::pool_weights;
use crate::select::{
    gene_pool, is_ranking, lemma_ranking_top, rank_by_fitness, roulette_available,
    roulette_selection, roulette_weights, tournament_selection, wins_tournament,
};
use vstd::prelude::*;

verus! {

/// How an agent came into its population.
#[derive(Clone, Copy, PartialEq, Eq, Debug, Structural)]
pub enum Origin {
    /// Supplied by the caller.
    Given,
    /// Carries the network of agent `source` of the generation before,
    /// as it was.
    Elite { source: usize },
    /// Carries a mutated crossover of the networks of the agents `first`
    /// and `second` of the generation before, both sampled in proportion
    /// to fitness.
    Roulette { first: usize, second: usize },
    /// Carries a mutated copy of the network of the tournament winner
    /// `winner` of the generation before.
    Tournament { winner: usize },
    /// Carries a mutated copy of the network of agent `source` of the
    /// generation before.
    MutatedElite { source: usize },
    /// Carries a network of fresh random parameters.
    Random,
}

/// A group of agents and the settings they run with. The two mutation
/// parameters are percentages: a rate of 15 stands for 0.15.
pub struct Population {
    pub mutation_magnitude: u32,
    pub mutation_rate: u32,
    agents: Vec<Agent>,
    origins: Vec<Origin>,
    config: Config,
}

/// The mathematical value of a population.
pub struct PopulationView {
    pub mutation_magnitude: nat,
    pub mutation_rate: nat,
    pub agents: Seq<AgentView>,
    pub origins: Seq<Origin>,
    pub config: ConfigView,
}

/// The values of a sequence of agents.
pub open spec fn agents_view(agents: Seq<Agent>) -> Seq<AgentView> {
    agents.map_values(|a: Agent| a@)
}

/// The topology `sizes` as numbers.
pub open spec fn sizes_view(sizes: Seq<usize>) -> Seq<nat> {
    sizes.map_values(|s: usize| s as nat)
}

impl View for Population {
    type V = PopulationView;

    closed spec fn view(&self) -> PopulationView {
        PopulationView {
            mutation_magnitude: self.mutation_magnitude as nat,
            mutation_rate: self.mutation_rate as nat,
            agents: agents_view(self.agents@),
            origins: self.origins@,
            config: self.config@,
        }
    }
}

/// The number of agents whose game is live.
pub open spec fn live_count(agents: Seq<AgentView>) -> nat
    decreases agents.len(),
{
    if agents.len() == 0 {
        0
    } else {
        live_count(agents.drop_last()) + if agents.last().game.is_dead {
            0nat
        } else {
            1nat
        }
    }
}

/// No game is live exactly when the count of live games is zero.
pub proof fn lemma_live_count_zero(agents: Seq<AgentView>)
    ensures
        live_count(agents) == 0 <==> forall|i: int|
            0 <= i < agents.len() ==> (#[trigger] agents[i]).game.is_dead,
        live_count(agents) <= agents.len(),
    decreases agents.len(),
{
    if agents.len() > 0 {
        let front = agents.drop_last();
        lemma_live_count_zero(front);
        if live_count(agents) == 0 {
            assert forall|i: int| 0 <= i < agents.len() implies (
            #[trigger] agents[i]).game.is_dead by {
                if i < front.len() {
                    assert(front[i] == agents[i]);
                }
            }
        }
        if forall|i: int| 0 <= i < agents.len() ==> (#[trigger] agents[i]).game.is_dead {
            assert forall|i: int| 0 <= i < front.len() implies (
            #[trigger] front[i]).game.is_dead by {
                assert(front[i] == agents[i]);
            }
            assert(agents.last() == agents[agents.len() - 1]);
        }
    }
}

/// Agent `k` has the greatest score, and is the first that has it.
pub open spec fn is_first_best(agents: Seq<AgentView>, k: int) -> bool {
    &&& 0 <= k < agents.len()
    &&& forall|j: int|
        0 <= j < agents.len() ==> (#[trigger] agents[j]).game.score() <= agents[k].game.score()
    &&& forall|j: int| 0 <= j < k ==> (#[trigger] agents[j]).game.score() < agents[k].game.score()
}

/// The mutation parameters for a generation whose best score is `gen_max`
/// on a grid of side `grid_size`, as the pair of magnitude and rate in
/// percent: the closer the best score comes to the number of cells, the
/// smaller the magnitude.
pub open spec fn mutation_params(gen_max: nat, grid_size: int) -> (u32, u32) {
    let cells = (grid_size - 1) * (grid_size - 1);
    if 4 * gen_max > 3 * cells {
        (10, 15)
    } else if 2 * gen_max > cells {
        (10, 25)
    } else {
        (50, 15)
    }
}

impl PopulationView {
    /// The fitness of each agent.
    pub open spec fn fitness(self) -> Seq<u64> {
        self.agents.map_values(|a: AgentView| a.fitness())
    }

    /// An agent that fits the settings: a valid game on the configured
    /// grid and a network of the configured topology.
    pub open spec fn fits(self, a: AgentView) -> bool {
        &&& a.game.valid()
        &&& a.game.grid_size == self.config.grid_size
        &&& a.brain.wf()
        &&& a.brain.layer_sizes() == sizes_view(self.config.arch)
    }

    /// What every population satisfies: valid settings, as many agents as
    /// they ask for, each fitting them, and one origin for each agent.
    pub open spec fn wf(self) -> bool {
        &&& self.config.valid()
        &&& self.agents.len() == self.config.num_agents
        &&& self.origins.len() == self.agents.len()
        &&& forall|i: int| 0 <= i < self.agents.len() ==> self.fits(#[trigger] self.agents[i])
    }

    /// The greatest score of an agent.
    pub open spec fn best_score(self) -> nat
        recommends
            self.agents.len() > 0,
    {
        let k = choose|k: int| is_first_best(self.agents, k);
        self.agents[k].game.score()
    }

    /// Every live agent can still count a step.
    pub open spec fn can_step(self) -> bool {
        forall|i: int|
            0 <= i < self.agents.len() && !(#[trigger] self.agents[i]).game.is_dead
                ==> self.agents[i].game.total_steps < usize::MAX
    }
}

/// Two agents that are both first with the greatest score are the same.
pub proof fn lemma_first_best_unique(agents: Seq<AgentView>, a: int, b: int)
    requires
        is_first_best(agents, a),
        is_first_best(agents, b),
    ensures
        a == b,
{
    if a < b {
        assert(agents[a].game.score() < agents[b].game.score());
        assert(agents[b].game.score() <= agents[a].game.score());
    }
    if b < a {
        assert(agents[b].game.score() < agents[a].game.score());
        assert(agents[a].game.score() <= agents[b].game.score());
    }
}

impl Population {
    /// A population with the default settings. Every agent starts a fresh
    /// game with a network of the configured topology whose parameters are
    /// drawn afresh, and has the origin `Random`.
    pub fn new<D: Fn() -> u64>(draw: &D) -> (pop: Self)
        requires
            call_requires(*draw, ()),
        ensures
            pop@.wf(),
            pop@.config == ConfigView::standard(),
            pop@.is_first_generation(*draw),
    {
        Self::build(Config::new(), draw)
    }

    /// A population with the given settings, where they are valid. Every
    /// agent starts a fresh game with a network of the configured topology
    /// whose parameters are drawn afresh, and has the origin `Random`.
    pub fn with_config<D: Fn() -> u64>(config: Config, draw: &D) -> (made: Option<Self>)
        requires
            call_requires(*draw, ()),
        ensures
            made is Some <==> config@.valid(),
            made is Some ==> {
                &&& (made->0)@.wf()
                &&& (made->0)@.config == config@
                &&& (made->0)@.is_first_generation(*draw)
            },
    {
        if config.is_valid() {
            Some(Self::build(config, draw))
        } else {
            None
        }
    }

    /// A first generation with the given valid settings.
    fn build<D: Fn() -> u64>(config: Config, draw: &D) -> (pop: Self)
        requires
            config@.valid(),
            call_requires(*draw, ()),
        ensures
            pop@.wf(),
            pop@.config == config@,
            pop@.is_first_generation(*draw),
    {
        let mut agents: Vec<Agent> = Vec::new();
        let mut origins: Vec<Origin> = Vec::new();
        let ghost c = config@;
        let mut i: usize = 0;
        while i < config.num_agents
            invariant
                i <= config.num_agents,
                c == config@,
                c.valid(),
                call_requires(*draw, ()),
                agents.len() == i,
                origins.len() == i,
                forall|k: int| 0 <= k < i ==> origins[k] == Origin::Random,
                forall|k: int|
                    0 <= k < i ==> is_fresh(c, (#[trigger] agents[k])@) && is_random(
                        c,
                        agents[k]@.brain,
                        *draw,
                    ),
            decreases config.num_agents - i,
        {
            let brain = Net::new(config.arch.as_slice(), draw);
            agents.push(Agent::with_brain_on(brain, config.grid_size));
            origins.push(Origin::Random);
            i += 1;
        }
        let pop = Population {
            mutation_rate: 10,
            mutation_magnitude: 10,
            agents,
            origins,
            config,
        };
        proof {
            assert forall|k: int| 0 <= k < pop@.agents.len() implies pop@.fits(
                #[trigger] pop@.agents[k],
            ) && is_fresh(c, pop@.agents[k]) && is_random(c, pop@.agents[k].brain, *draw) by {
                assert(pop@.agents[k] == pop.agents[k]@);
                crate::game::lemma_initial_valid(
                    c.grid_size,
                    pop@.agents[k].game.food,
                    pop@.agents[k].game.dir,
                );
            }
        }
        pop
    }

    /// A population of the given agents, where the settings are valid, the
    /// agents are as many as they ask for, and each agent fits them. Every
    /// agent gets the origin `Given`.
    pub fn from_agents(config: Config, agents: Vec<Agent>) -> (made: Option<Self>)
        ensures
            made is Some <==> (PopulationView {
                mutation_magnitude: 10,
                mutation_rate: 10,
                agents: agents_view(agents@),
                origins: Seq::new(agents.len() as nat, |i: int| Origin::Given),
                config: config@,
            }).wf(),
            made is Some ==> (made->0)@ == (PopulationView {
                mutation_magnitude: 10,
                mutation_rate: 10,
                agents: agents_view(agents@),
                origins: Seq::new(agents.len() as nat, |i: int| Origin::Given),
                config: config@,
            }),
    {
        let ghost v = PopulationView {
            mutation_magnitude: 10,
            mutation_rate: 10,
            agents: agents_view(agents@),
            origins: Seq::new(agents.len() as nat, |i: int| Origin::Given),
            config: config@,
        };
        if !config.is_valid() || agents.len() != config.num_agents {
            return None;
        }
        let mut origins: Vec<Origin> = Vec::new();
        let mut i: usize = 0;
        while i < agents.len()
            invariant
                i <= agents.len(),
                v.agents == agents_view(agents@),
                v.config == config@,
                origins.len() == i,
                forall|k: int| 0 <= k < i ==> origins[k] == Origin::Given,
                forall|k: int| 0 <= k < i ==> v.fits(#[trigger] v.agents[k]),
            decreases agents.len() - i,
        {
            let a = &agents[i];
            assert(v.agents[i as int] == a@);
            let fits = a.game.is_valid() && a.game.grid_size == config.grid_size
                && a.brain.has_topology(config.arch.as_slice());
            if !fits {
                assert(!v.fits(v.agents[i as int]));
                return None;
            }
            origins.push(Origin::Given);
            i += 1;
        }
        assert(origins@ =~= v.origins);
        Some(Population { mutation_rate: 10, mutation_magnitude: 10, agents, origins, config })
    }
}

/// A fresh game on the configured grid.
pub open spec fn is_fresh(c: ConfigView, a: AgentView) -> bool {
    &&& a.game == GameState::initial(c.grid_size, a.game.food, a.game.dir)
    &&& a.game.food.in_food_range(c.grid_size)
}

/// A network of the configured topology whose parameters are all drawn.
pub open spec fn is_random<D: Fn() -> u64>(c: ConfigView, brain: NetView, draw: D) -> bool {
    &&& brain.wf()
    &&& brain.layer_sizes() == sizes_view(c.arch)
    &&& brain.is_drawn(draw)
}

impl PopulationView {
    /// Every agent plays a fresh game with a network of drawn parameters
    /// and has the origin `Random`.
    pub open spec fn is_first_generation<D: Fn() -> u64>(self, draw: D) -> bool {
        &&& forall|i: int|
            0 <= i < self.agents.len() ==> is_fresh(self.config, #[trigger] self.agents[i])
                && is_random(self.config, self.agents[i].brain, draw)
        &&& forall|i: int| 0 <= i < self.origins.len() ==> self.origins[i] == Origin::Random
    }
}

/// The keys of the outputs of each agent's network, as sequences.
pub open spec fn outputs_view(outputs: Seq<[u64; 4]>) -> Seq<Seq<u64>> {
    outputs.map_values(|o: [u64; 4]| o@)
}

impl PopulationView {
    /// The population after one tick of every agent of `prev`, agent `i`
    /// deciding on `outputs[i]`.
    pub open spec fn is_step_of(self, prev: PopulationView, outputs: Seq<Seq<u64>>) -> bool {
        &&& self.config == prev.config
        &&& self.origins == prev.origins
        &&& self.mutation_magnitude == prev.mutation_magnitude
        &&& self.mutation_rate == prev.mutation_rate
        &&& self.agents.len() == prev.agents.len()
        &&& forall|i: int|
            0 <= i < self.agents.len() ==> (#[trigger] self.agents[i]).brain
                == prev.agents[i].brain && self.agents[i].game == tick(
                prev.agents[i].game,
                outputs[i],
                self.agents[i].game.food,
            )
    }
}

/// A population in which no game is live rests: a step changes no agent.
pub proof fn lemma_dead_population_rests(
    prev: PopulationView,
    next: PopulationView,
    outputs: Seq<Seq<u64>>,
)
    requires
        next.is_step_of(prev, outputs),
        forall|i: int| 0 <= i < prev.agents.len() ==> (#[trigger] prev.agents[i]).game.is_dead,
    ensures
        next == prev,
{
    assert forall|i: int| 0 <= i < next.agents.len() implies next.agents[i] == prev.agents[i] by {
        assert(prev.agents[i].game.is_dead);
        assert(next.agents[i].brain == prev.agents[i].brain);
    }
    assert(next.agents =~= prev.agents);
}

impl Population {
    /// The agents, in order.
    pub fn agents(&self) -> (agents: &Vec<Agent>)
        ensures
            agents_view(agents@) == self@.agents,
    {
        &self.agents
    }

    /// How each agent came into the population.
    pub fn origins(&self) -> (origins: &Vec<Origin>)
        ensures
            origins@ == self@.origins,
    {
        &self.origins
    }

    /// The mutation rate, in percent, that the current generation was bred
    /// with.
    pub fn mutation_rate(&self) -> (rate: u32)
        ensures
            rate == self@.mutation_rate,
    {
        self.mutation_rate
    }

    /// The mutation magnitude, in percent, that the current generation was
    /// bred with.
    pub fn mutation_magnitude(&self) -> (magnitude: u32)
        ensures
            magnitude == self@.mutation_magnitude,
    {
        self.mutation_magnitude
    }

    /// The settings.
    pub fn config(&self) -> (config: &Config)
        ensures
            config@ == self@.config,
    {
        &self.config
    }

    /// Whether every live agent can still count a step.
    pub fn can_step(&self) -> (ok: bool)
        ensures
            ok == self@.can_step(),
    {
        let mut i: usize = 0;
        while i < self.agents.len()
            invariant
                i <= self.agents.len(),
                forall|k: int|
                    0 <= k < i && !(#[trigger] self@.agents[k]).game.is_dead
                        ==> self@.agents[k].game.total_steps < usize::MAX,
            decreases self.agents.len() - i,
        {
            assert(self@.agents[i as int] == self.agents[i as int]@);
            if !self.agents[i].game.is_dead && self.agents[i].game.total_steps == usize::MAX {
                return false;
            }
            i += 1;
        }
        true
    }

    /// One tick of every agent: agent `i` makes the move decided from
    /// `outputs[i]`, the keys of the four outputs that its network gave
    /// for its current reading. Returns the number of agents whose game is
    /// still live.
    pub fn update(&mut self, outputs: &Vec<[u64; 4]>) -> (alive: usize)
        requires
            old(self)@.wf(),
            old(self)@.can_step(),
            outputs.len() == old(self)@.agents.len(),
        ensures
            final(self)@.wf(),
            final(self)@.is_step_of(old(self)@, outputs_view(outputs@)),
            alive == live_count(final(self)@.agents),
    {
        let n = self.agents.len();
        let ghost prev = self@;
        let mut alive: usize = 0;
        let mut i: usize = 0;
        while i < n
            invariant
                i <= n,
                n == self.agents.len(),
                n == outputs.len(),
                prev == old(self)@,
                prev.wf(),
                prev.can_step(),
                prev.agents.len() == n,
                self.config == old(self).config,
                self.origins == old(self).origins,
                self.mutation_magnitude == old(self).mutation_magnitude,
                self.mutation_rate == old(self).mutation_rate,
                alive <= i,
                alive == live_count(agents_view(self.agents@).take(i as int)),
                forall|k: int| i <= k < n ==> (#[trigger] self.agents[k])@ == prev.agents[k],
                forall|k: int|
                    0 <= k < i ==> (#[trigger] self.agents[k])@.brain == prev.agents[k].brain
                        && self.agents[k]@.game == tick(
                        prev.agents[k].game,
                        outputs[k]@,
                        self.agents[k].game.food,
                    ) && self.agents[k]@.game.valid(),
            decreases n - i,
        {
            let ghost before = self.agents@;
            assert(prev.fits(prev.agents[i as int]));
            let still = self.agents[i].update(&outputs[i]);
            assert(forall|k: int| 0 <= k < n && k != i ==> self.agents[k] == before[k]);
            proof {
                let now = agents_view(self.agents@);
                assert(now.take(i + 1).drop_last() =~= now.take(i as int));
                assert(now.take(i as int) =~= agents_view(before).take(i as int));
            }
            if still {
                alive += 1;
            }
            i += 1;
        }
        proof {
            let now = agents_view(self.agents@);
            assert(now.take(n as int) =~= now);
            assert forall|k: int| 0 <= k < n implies (#[trigger] self@.agents[k]).brain
                == prev.agents[k].brain && self@.agents[k].game == tick(
                prev.agents[k].game,
                outputs_view(outputs@)[k],
                self@.agents[k].game.food,
            ) && self@.fits(self@.agents[k]) by {
                assert(self@.agents[k] == self.agents[k]@);
                assert(prev.fits(prev.agents[k]));
            }
        }
        alive
    }

    /// The fitness of each agent.
    pub fn fitnesses(&self) -> (fitness: Vec<u64>)
        ensures
            fitness@ == self@.fitness(),
    {
        let mut fitness: Vec<u64> = Vec::new();
        let mut i: usize = 0;
        while i < self.agents.len()
            invariant
                i <= self.agents.len(),
                fitness.len() == i,
                forall|k: int| 0 <= k < i ==> fitness[k] == self.agents[k]@.fitness(),
            decreases self.agents.len() - i,
        {
            fitness.push(self.agents[i].fitness());
            i += 1;
        }
        assert(fitness@ =~= self@.fitness());
        fitness
    }

    /// The position of the first agent with the greatest score.
    pub fn best_agent(&self) -> (best: usize)
        requires
            self@.agents.len() > 0,
        ensures
            is_first_best(self@.agents, best as int),
            self@.agents[best as int].game.score() == self@.best_score(),
    {
        let mut best: usize = 0;
        let mut i: usize = 1;
        while i < self.agents.len()
            invariant
                1 <= i <= self.agents.len(),
                best < i,
                forall|j: int|
                    0 <= j < i ==> (#[trigger] self@.agents[j]).game.score()
                        <= self@.agents[best as int].game.score(),
                forall|j: int|
                    0 <= j < best ==> (#[trigger] self@.agents[j]).game.score()
                        < self@.agents[best as int].game.score(),
            decreases self.agents.len() - i,
        {
            assert(self@.agents[i as int] == self.agents[i as int]@);
            assert(self@.agents[best as int] == self.agents[best as int]@);
            if self.agents[i].game.score() > self.agents[best].game.score() {
                best = i;
            }
            i += 1;
        }
        proof {
            assert(is_first_best(self@.agents, best as int));
            let k = choose|k: int| is_first_best(self@.agents, k);
            lemma_first_best_unique(self@.agents, k, best as int);
        }
        best
    }

    /// The best of the generation by score, not by fitness: a copy of the
    /// network of the first agent with the greatest score, and that score.
    pub fn get_gen_summary(&self) -> (best: (Net, usize))
        requires
            self@.agents.len() > 0,
        ensures
            best.1 == self@.best_score(),
            exists|k: int|
                is_first_best(self@.agents, k) && best.0@ == (#[trigger] self@.agents[k]).brain
                    && best.1 == self@.agents[k].game.score(),
    {
        let k = self.best_agent();
        assert(self@.agents[k as int] == self.agents[k as int]@);
        (self.agents[k].brain.clone(), self.agents[k].game.score())
    }

    /// The mutation parameters for a generation whose best score is
    /// `gen_max`, as the pair of magnitude and rate in percent.
    pub fn get_mutation_params(&self, gen_max: usize) -> (params: (u32, u32))
        requires
            self@.config.grid_size >= 1,
        ensures
            params == mutation_params(gen_max as nat, self@.config.grid_size),
    {
        let side: u128 = (self.config.grid_size - 1) as u128;
        assert(side * side <= 0x8000_0000 * 0x8000_0000) by (nonlinear_arith)
            requires
                0 <= side <= 0x8000_0000,
        ;
        let cells: u128 = side * side;
        let best: u128 = gen_max as u128;
        if 4 * best > 3 * cells {
            (10, 15)
        } else if 2 * best > cells {
            (10, 25)
        } else {
            (50, 15)
        }
    }
}

impl PopulationView {
    /// The number of agents that the next generation breeds by
    /// fitness-proportionate selection: the configured quota, or none where
    /// that selection cannot be set up.
    pub open spec fn roulette_slots(self) -> nat {
        if roulette_available(self.fitness()) {
            self.config.num_roulette()
        } else {
            0
        }
    }

    /// The number of agents that the next generation breeds by tournament:
    /// all that the other ways leave.
    pub open spec fn tournament_slots(self) -> nat {
        (self.config.num_agents - self.config.num_elite() - self.roulette_slots()
            - self.config.num_mutated() - self.config.num_random()) as nat
    }

    /// The mutation magnitude, in percent, that the next generation is
    /// bred with.
    pub open spec fn next_magnitude(self) -> u32 {
        mutation_params(self.best_score(), self.config.grid_size).0
    }

    /// The mutation rate, in percent, that the next generation is bred
    /// with.
    pub open spec fn next_rate(self) -> u32 {
        mutation_params(self.best_score(), self.config.grid_size).1
    }

    /// `brain` is a mutation of `base` at the rate and magnitude that the
    /// next generation is bred with.
    pub open spec fn mutated<P: Fn(u64, u32) -> u64>(
        self,
        base: NetView,
        brain: NetView,
        perturb: P,
    ) -> bool {
        brain.is_mutation_of(base, self.next_rate(), self.next_magnitude(), perturb)
    }

    /// Agent `i` of the next generation, with its origin, is bred from
    /// this population, ranked as `order`. The next generation holds, in
    /// this order: the elite, the fittest unchanged; the mutated
    /// crossovers of parents sampled in proportion to fitness; the mutated
    /// copies of tournament winners; the mutated copies of the fittest; the
    /// networks of fresh random parameters. Every agent plays a fresh game.
    pub open spec fn breeds<P: Fn(u64, u32) -> u64, D: Fn() -> u64>(
        self,
        order: Seq<usize>,
        i: int,
        origin: Origin,
        child: AgentView,
        perturb: P,
        draw: D,
    ) -> bool {
        let c = self.config;
        let n = self.agents.len() as int;
        let e = c.num_elite() as int;
        let r = e + self.roulette_slots();
        let t = r + self.tournament_slots();
        let m = t + c.num_mutated();
        &&& is_fresh(c, child)
        &&& match origin {
            Origin::Given => false,
            Origin::Elite { source } => {
                &&& 0 <= i < e
                &&& source == order[i]
                &&& child.brain == self.agents[source as int].brain
            },
            Origin::Roulette { first, second } => {
                &&& e <= i < r
                &&& first < n
                &&& second < n
                &&& roulette_weights(self.fitness())[first as int] > 0
                &&& roulette_weights(self.fitness())[second as int] > 0
                &&& exists|cross: NetView| #[trigger]
                    cross.is_crossover_of(
                        self.agents[first as int].brain,
                        self.agents[second as int].brain,
                    ) && self.mutated(cross, child.brain, perturb)
            },
            Origin::Tournament { winner } => {
                &&& r <= i < t
                &&& winner < n
                &&& wins_tournament(self.fitness(), TOURNAMENT_SIZE as nat, winner)
                &&& self.mutated(self.agents[winner as int].brain, child.brain, perturb)
            },
            Origin::MutatedElite { source } => {
                &&& t <= i < m
                &&& source == order[i - t]
                &&& self.mutated(self.agents[source as int].brain, child.brain, perturb)
            },
            Origin::Random => {
                &&& m <= i < n
                &&& is_random(c, child.brain, draw)
            },
        }
    }

    /// This population is a next generation of `prev`: it has the same
    /// settings and size, its mutation parameters follow from the best
    /// score of `prev`, and each of its agents is bred from `prev` under
    /// one ranking of `prev` by fitness.
    pub open spec fn is_bred_from<P: Fn(u64, u32) -> u64, D: Fn() -> u64>(
        self,
        prev: PopulationView,
        perturb: P,
        draw: D,
    ) -> bool {
        &&& self.config == prev.config
        &&& self.agents.len() == prev.agents.len()
        &&& self.origins.len() == prev.agents.len()
        &&& self.mutation_magnitude == prev.next_magnitude()
        &&& self.mutation_rate == prev.next_rate()
        &&& exists|order: Seq<usize>| #[trigger]
            is_ranking(order, prev.fitness()) && self.follows(prev, order, perturb, draw)
    }

    /// Each agent is bred from `prev` ranked as `order`.
    pub open spec fn follows<P: Fn(u64, u32) -> u64, D: Fn() -> u64>(
        self,
        prev: PopulationView,
        order: Seq<usize>,
        perturb: P,
        draw: D,
    ) -> bool {
        forall|i: int|
            0 <= i < self.agents.len() ==> #[trigger] prev.breeds(
                order,
                i,
                self.origins[i],
                self.agents[i],
                perturb,
                draw,
            )
    }
}

/// The first `agents.len()` agents of a next generation are bred from
/// `prev` ranked as `order`.
pub open spec fn bred_prefix<P: Fn(u64, u32) -> u64, D: Fn() -> u64>(
    prev: PopulationView,
    order: Seq<usize>,
    agents: Seq<Agent>,
    origins: Seq<Origin>,
    perturb: P,
    draw: D,
) -> bool {
    &&& agents.len() == origins.len()
    &&& forall|i: int|
        0 <= i < agents.len() ==> #[trigger] prev.breeds(
            order,
            i,
            origins[i],
            agents[i]@,
            perturb,
            draw,
        )
}

proof fn lemma_bred_push<P: Fn(u64, u32) -> u64, D: Fn() -> u64>(
    prev: PopulationView,
    order: Seq<usize>,
    agents: Seq<Agent>,
    origins: Seq<Origin>,
    a: Agent,
    o: Origin,
    perturb: P,
    draw: D,
)
    requires
        bred_prefix(prev, order, agents, origins, perturb, draw),
        prev.breeds(order, agents.len() as int, o, a@, perturb, draw),
    ensures
        bred_prefix(prev, order, agents.push(a), origins.push(o), perturb, draw),
{
    let agents2 = agents.push(a);
    let origins2 = origins.push(o);
    assert forall|i: int| 0 <= i < agents2.len() implies #[trigger] prev.breeds(
        order,
        i,
        origins2[i],
        agents2[i]@,
        perturb,
        draw,
    ) by {
        if i < agents.len() {
            assert(prev.breeds(order, i, origins[i], agents[i]@, perturb, draw));
        }
    }
}

/// An agent bred from a population fits its settings.
pub proof fn lemma_bred_fits<P: Fn(u64, u32) -> u64, D: Fn() -> u64>(
    prev: PopulationView,
    order: Seq<usize>,
    i: int,
    origin: Origin,
    child: AgentView,
    perturb: P,
    draw: D,
)
    requires
        prev.wf(),
        is_ranking(order, prev.fitness()),
        prev.breeds(order, i, origin, child, perturb, draw),
    ensures
        prev.fits(child),
{
    let c = prev.config;
    crate::game::lemma_initial_valid(c.grid_size, child.game.food, child.game.dir);
    crate::configs::lemma_quotas(c);
    match origin {
        Origin::Given => {},
        Origin::Elite { source } => {
            assert(prev.fits(prev.agents[source as int]));
        },
        Origin::Roulette { first, second } => {
            assert(prev.fits(prev.agents[first as int]));
            let cross = choose|cross: NetView| #[trigger]
                cross.is_crossover_of(
                    prev.agents[first as int].brain,
                    prev.agents[second as int].brain,
                ) && prev.mutated(cross, child.brain, perturb);
            lemma_crossover_keeps_shape(
                prev.agents[first as int].brain,
                prev.agents[second as int].brain,
                cross,
            );
            lemma_mutation_keeps_shape(
                cross,
                child.brain,
                prev.next_rate(),
                prev.next_magnitude(),
                perturb,
            );
        },
        Origin::Tournament { winner } => {
            assert(prev.fits(prev.agents[winner as int]));
            lemma_mutation_keeps_shape(
                prev.agents[winner as int].brain,
                child.brain,
                prev.next_rate(),
                prev.next_magnitude(),
                perturb,
            );
        },
        Origin::MutatedElite { source } => {
            assert(prev.fits(prev.agents[source as int]));
            lemma_mutation_keeps_shape(
                prev.agents[source as int].brain,
                child.brain,
                prev.next_rate(),
                prev.next_magnitude(),
                perturb,
            );
        },
        Origin::Random => {},
    }
}

/// Where a next generation has an elite, its first agent carries the
/// network of an agent of the generation before that none exceeds in
/// fitness.
pub proof fn lemma_elite_first<P: Fn(u64, u32) -> u64, D: Fn() -> u64>(
    prev: PopulationView,
    next: PopulationView,
    perturb: P,
    draw: D,
)
    requires
        prev.wf(),
        next.is_bred_from(prev, perturb, draw),
        prev.config.num_elite() >= 1,
    ensures
        next.agents.len() == prev.config.num_agents,
        next.origins[0] is Elite,
        ({
            let source = next.origins[0]->Elite_source as int;
            &&& 0 <= source < prev.agents.len()
            &&& next.agents[0].brain == prev.agents[source].brain
            &&& forall|k: int|
                0 <= k < prev.agents.len() ==> (#[trigger] prev.agents[k]).fitness()
                    <= prev.agents[source].fitness()
        }),
{
    let order = choose|order: Seq<usize>| #[trigger]
        is_ranking(order, prev.fitness()) && next.follows(prev, order, perturb, draw);
    crate::configs::lemma_quotas(prev.config);
    assert(prev.breeds(order, 0, next.origins[0], next.agents[0], perturb, draw));
    lemma_ranking_top(order, prev.fitness());
    let source = order[0] as int;
    assert forall|k: int| 0 <= k < prev.agents.len() implies (#[trigger] prev.agents[k]).fitness()
        <= prev.agents[source].fitness() by {
        assert(prev.fitness()[k] == prev.agents[k].fitness());
        assert(prev.fitness()[source] == prev.agents[source].fitness());
    }
}

impl Population {
    /// Replaces the agents by a next generation bred from them.
    pub fn reset<P: Fn(u64, u32) -> u64, D: Fn() -> u64>(&mut self, perturb: &P, draw: &D)
        requires
            old(self)@.wf(),
            forall|b: u64, m: u32| call_requires(*perturb, (b, m)),
            call_requires(*draw, ()),
        ensures
            final(self)@.wf(),
            final(self)@.is_bred_from(old(self)@, *perturb, *draw),
    {
        self.reset_pop(perturb, draw);
    }

    /// Breeds the next generation: sets the mutation parameters by the best
    /// score, ranks the agents by fitness, and fills the quotas in turn.
    fn reset_pop<P: Fn(u64, u32) -> u64, D: Fn() -> u64>(&mut self, perturb: &P, draw: &D)
        requires
            old(self)@.wf(),
            forall|b: u64, m: u32| call_requires(*perturb, (b, m)),
            call_requires(*draw, ()),
        ensures
            final(self)@.wf(),
            final(self)@.is_bred_from(old(self)@, *perturb, *draw),
    {
        let ghost prev = self@;
        let n = self.agents.len();
        let grid_size = self.config.grid_size;

        // Mutation parameters follow the best score of the generation.
        let best = self.best_agent();
        assert(self@.agents[best as int] == self.agents[best as int]@);
        let gen_max_score = self.agents[best].game.score();
        let (mutation_mag, mutation_rate) = self.get_mutation_params(gen_max_score);
        assert(mutation_mag == prev.next_magnitude() && mutation_rate == prev.next_rate());

        // Rank the agents by fitness.
        let fitness = self.fitnesses();
        let order = rank_by_fitness(&fitness);

        // How many agents each way of breeding contributes.
        proof {
            crate::configs::lemma_quotas(prev.config);
        }
        let num_elite = self.config.quota(self.config.retained);
        let num_roulette = self.config.quota(self.config.roulette);
        let num_mutated = self.config.quota(self.config.retained_mutated);
        let num_random = self.config.quota(self.config.random);
        let mut num_tournament = n - num_elite - num_roulette - num_mutated - num_random;

        let mut new_agents: Vec<Agent> = Vec::new();
        let mut new_origins: Vec<Origin> = Vec::new();

        // Elitism: the fittest are carried over with their networks as
        // they are.
        let mut i: usize = 0;
        while i < num_elite
            invariant
                i <= num_elite <= n,
                prev == self@,
                prev.wf(),
                n == prev.agents.len(),
                n == self.agents.len(),
                grid_size == prev.config.grid_size,
                num_elite == prev.config.num_elite(),
                is_ranking(order@, prev.fitness()),
                new_agents.len() == i,
                bred_prefix(prev, order@, new_agents@, new_origins@, *perturb, *draw),
            decreases num_elite - i,
        {
            let source = order[i];
            assert(prev.agents[source as int] == self.agents[source as int]@);
            let brain = self.agents[source].brain.clone();
            let child = Agent::with_brain_on(brain, grid_size);
            let origin = Origin::Elite { source };
            proof {
                lemma_bred_push(
                    prev,
                    order@,
                    new_agents@,
                    new_origins@,
                    child,
                    origin,
                    *perturb,
                    *draw,
                );
            }
            new_agents.push(child);
            new_origins.push(origin);
            i += 1;
        }

        // Fitness-proportionate selection: two parents sampled by weight,
        // their networks crossed over.
        let gene_pool = gene_pool(&fitness);
        match gene_pool {
            Some(pool) => {
                let mut k: usize = 0;
                while k < num_roulette
                    invariant
                        k <= num_roulette,
                        num_elite + num_roulette <= n,
                        prev == self@,
                        prev.wf(),
                        n == prev.agents.len(),
                        n == self.agents.len(),
                        grid_size == prev.config.grid_size,
                        num_elite == prev.config.num_elite(),
                        num_roulette == prev.roulette_slots(),
                        pool_weights(pool) == roulette_weights(prev.fitness()),
                        mutation_mag == prev.next_magnitude(),
                        mutation_rate == prev.next_rate(),
                        forall|b: u64, m: u32| call_requires(*perturb, (b, m)),
                        new_agents.len() == num_elite + k,
                        bred_prefix(prev, order@, new_agents@, new_origins@, *perturb, *draw),
                    decreases num_roulette - k,
                {
                    let first = roulette_selection(&pool);
                    let second = roulette_selection(&pool);
                    assert(prev.agents[first as int] == self.agents[first as int]@);
                    assert(prev.agents[second as int] == self.agents[second as int]@);
                    proof {
                        assert(prev.fits(prev.agents[first as int]));
                        assert(prev.fits(prev.agents[second as int]));
                        lemma_same_sizes_same_shape(
                            prev.agents[first as int].brain,
                            prev.agents[second as int].brain,
                        );
                    }
                    let mut new_brain = self.agents[first].brain.merge(&self.agents[second].brain);
                    let ghost cross = new_brain@;
                    new_brain.mutate(mutation_rate, mutation_mag, perturb);
                    assert(cross.is_crossover_of(
                        prev.agents[first as int].brain,
                        prev.agents[second as int].brain,
                    ) && prev.mutated(cross, new_brain@, *perturb));
                    let child = Agent::with_brain_on(new_brain, grid_size);
                    let origin = Origin::Roulette { first, second };
                    proof {
                        lemma_bred_push(
                    prev,
                    order@,
                    new_agents@,
                    new_origins@,
                    child,
                    origin,
                    *perturb,
                    *draw,
                );
                    }
                    new_agents.push(child);
                    new_origins.push(origin);
                    k += 1;
                }
            },
            None => {
                num_tournament += num_roulette;
            },
        }
        let ghost after_roulette = new_agents.len();

        // Tournament selection: the fittest of a few agents drawn at
        // random.
        let mut k: usize = 0;
        while k < num_tournament
            invariant
                k <= num_tournament,
                prev == self@,
                prev.wf(),
                n == prev.agents.len(),
                n == self.agents.len(),
                n >= 1,
                fitness.len() == n,
                grid_size == prev.config.grid_size,
                after_roulette == prev.config.num_elite() + prev.roulette_slots(),
                num_tournament == prev.tournament_slots(),
                fitness@ == prev.fitness(),
                mutation_mag == prev.next_magnitude(),
                mutation_rate == prev.next_rate(),
                forall|b: u64, m: u32| call_requires(*perturb, (b, m)),
                new_agents.len() == after_roulette + k,
                bred_prefix(prev, order@, new_agents@, new_origins@, *perturb, *draw),
            decreases num_tournament - k,
        {
            let winner = tournament_selection(&fitness, TOURNAMENT_SIZE);
            assert(prev.agents[winner as int] == self.agents[winner as int]@);
            let mut new_brain = self.agents[winner].brain.clone();
            new_brain.mutate(mutation_rate, mutation_mag, perturb);
            let child = Agent::with_brain_on(new_brain, grid_size);
            let origin = Origin::Tournament { winner };
            proof {
                lemma_bred_push(
                    prev,
                    order@,
                    new_agents@,
                    new_origins@,
                    child,
                    origin,
                    *perturb,
                    *draw,
                );
            }
            new_agents.push(child);
            new_origins.push(origin);
            k += 1;
        }
        let ghost after_tournament = new_agents.len();

        // Mutated elite: mutated copies of the fittest.
        let mut k: usize = 0;
        while k < num_mutated
            invariant
                k <= num_mutated <= n,
                prev == self@,
                prev.wf(),
                n == prev.agents.len(),
                n == self.agents.len(),
                grid_size == prev.config.grid_size,
                is_ranking(order@, prev.fitness()),
                after_tournament == prev.config.num_elite() + prev.roulette_slots()
                    + prev.tournament_slots(),
                num_mutated == prev.config.num_mutated(),
                mutation_mag == prev.next_magnitude(),
                mutation_rate == prev.next_rate(),
                forall|b: u64, m: u32| call_requires(*perturb, (b, m)),
                new_agents.len() == after_tournament + k,
                bred_prefix(prev, order@, new_agents@, new_origins@, *perturb, *draw),
            decreases num_mutated - k,
        {
            let source = order[k];
            assert(prev.agents[source as int] == self.agents[source as int]@);
            let mut old_brain = self.agents[source].brain.clone();
            old_brain.mutate(mutation_rate, mutation_mag, perturb);
            let child = Agent::with_brain_on(old_brain, grid_size);
            let origin = Origin::MutatedElite { source };
            proof {
                lemma_bred_push(
                    prev,
                    order@,
                    new_agents@,
                    new_origins@,
                    child,
                    origin,
                    *perturb,
                    *draw,
                );
            }
            new_agents.push(child);
            new_origins.push(origin);
            k += 1;
        }
        let ghost after_mutated = new_agents.len();

        // Fresh blood: networks of random parameters.
        let mut k: usize = 0;
        while k < num_random
            invariant
                k <= num_random,
                prev == self@,
                prev.wf(),
                n == prev.agents.len(),
                grid_size == prev.config.grid_size,
                after_mutated == prev.config.num_elite() + prev.roulette_slots()
                    + prev.tournament_slots() + prev.config.num_mutated(),
                after_mutated + num_random == n,
                call_requires(*draw, ()),
                new_agents.len() == after_mutated + k,
                bred_prefix(prev, order@, new_agents@, new_origins@, *perturb, *draw),
            decreases num_random - k,
        {
            let brain = Net::new(self.config.arch.as_slice(), draw);
            let child = Agent::with_brain_on(brain, grid_size);
            let origin = Origin::Random;
            proof {
                lemma_bred_push(
                    prev,
                    order@,
                    new_agents@,
                    new_origins@,
                    child,
                    origin,
                    *perturb,
                    *draw,
                );
            }
            new_agents.push(child);
            new_origins.push(origin);
            k += 1;
        }

        self.agents = new_agents;
        self.origins = new_origins;
        self.mutation_magnitude = mutation_mag;
        self.mutation_rate = mutation_rate;

        proof {
            let next = self@;
            assert forall|i: int| 0 <= i < next.agents.len() implies #[trigger] prev.breeds(
                order@,
                i,
                next.origins[i],
                next.agents[i],
                *perturb,
                *draw,
            ) && next.fits(next.agents[i]) by {
                assert(next.agents[i] == self.agents[i]@);
                assert(prev.breeds(order@, i, self.origins[i], self.agents[i]@, *perturb, *draw));
                lemma_bred_fits(prev, order@, i, next.origins[i], next.agents[i], *perturb, *draw);
            }
            assert forall|i: int| 0 <= i < next.agents.len() implies next.fits(
                #[trigger] next.agents[i],
            ) by {
                assert(prev.breeds(order@, i, next.origins[i], next.agents[i], *perturb, *draw));
            }
            assert(next.follows(prev, order@, *perturb, *draw));
            assert(is_ranking(order@, prev.fitness()) && next.follows(
                prev,
                order@,
                *perturb,
                *draw,
            ));
        }
    }
}

} // verus!
