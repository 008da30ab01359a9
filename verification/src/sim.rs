//! The evolution driver: steps a population until every game has ended,
//! then records the generation, keeps the best network seen so far, and
//! breeds the next generation.
//!
//! The driver measures no time and writes nothing: the caller hands in the
//! time a generation took and receives what there is to report. As in the
//! population, `draw` gives a fresh random parameter and `perturb` moves a
//! parameter by a random amount.

use crate::nn::{Net, NetView};
use crate::pop::{is_first_best, live_count, outputs_view, Population, PopulationView};
use vstd::prelude::*;

verus! {

/// What is known of a generation once all its games have ended.
#[derive(Clone, Copy, PartialEq, Eq, Debug, Structural)]
pub struct GenerationSummary {
    /// The number of the generation, from zero.
    pub gen_count: usize,
    /// The time the generation took, in milliseconds.
    pub time_elapsed_ms: u64,
    /// The best score of the generation.
    pub gen_max_score: usize,
    /// The best score of all generations so far, this one included.
    pub sim_max_score: usize,
}

/// The summary of a generation, and whether it set a new best score.
#[derive(Clone, Copy, PartialEq, Eq, Debug, Structural)]
pub struct GenerationReport {
    pub summary: GenerationSummary,
    pub improved: bool,
}

/// A run: the population, the number of the current generation, and the
/// best score and network seen so far.
pub struct Simulation {
    gen_count: usize,
    pub pop: Population,
    max_score: usize,
    best_net: Option<Net>,
}

/// The mathematical value of a run.
pub struct SimulationView {
    pub gen_count: nat,
    pub pop: PopulationView,
    pub max_score: nat,
    pub best_net: Option<NetView>,
}

impl View for Simulation {
    type V = SimulationView;

    closed spec fn view(&self) -> SimulationView {
        SimulationView {
            gen_count: self.gen_count as nat,
            pop: self.pop@,
            max_score: self.max_score as nat,
            best_net: match self.best_net {
                Some(net) => Some(net@),
                None => None,
            },
        }
    }
}

impl SimulationView {
    /// The run at the end of a generation whose population is `self.pop`
    /// and which took `elapsed_ms`: where the best score of the generation
    /// exceeds the best so far, it and the network of the first agent that
    /// reached it become the best so far.
    pub open spec fn ended(self, elapsed_ms: u64) -> (SimulationView, GenerationReport) {
        let gen_max = self.pop.best_score();
        let improved = gen_max > self.max_score;
        let max_score = if improved {
            gen_max
        } else {
            self.max_score
        };
        let winner = choose|k: int| is_first_best(self.pop.agents, k);
        (
            SimulationView {
                max_score,
                best_net: if improved {
                    Some(self.pop.agents[winner].brain)
                } else {
                    self.best_net
                },
                ..self
            },
            GenerationReport {
                summary: GenerationSummary {
                    gen_count: self.gen_count as usize,
                    time_elapsed_ms: elapsed_ms,
                    gen_max_score: gen_max as usize,
                    sim_max_score: max_score as usize,
                },
                improved,
            },
        )
    }

    /// The run after `self`, whose generation has ended, has started the
    /// next one: the counter moved on and the population was bred anew.
    pub open spec fn started_after<P: Fn(u64, u32) -> u64, D: Fn() -> u64>(
        self,
        prev: SimulationView,
        perturb: P,
        draw: D,
    ) -> bool {
        &&& self.gen_count == prev.gen_count + 1
        &&& self.max_score == prev.max_score
        &&& self.best_net == prev.best_net
        &&& self.pop.is_bred_from(prev.pop, perturb, draw)
    }
}

impl Simulation {
    /// A run of a population with the default settings, every network
    /// drawn afresh.
    pub fn new<D: Fn() -> u64>(draw: &D) -> (sim: Self)
        requires
            call_requires(*draw, ()),
        ensures
            sim@.gen_count == 0,
            sim@.max_score == 0,
            sim@.best_net is None,
            sim@.pop.wf(),
            sim@.pop.is_first_generation(*draw),
    {
        Self::with_population(Population::new(draw))
    }

    /// A run of the given population.
    pub fn with_population(pop: Population) -> (sim: Self)
        ensures
            sim@ == (SimulationView { gen_count: 0, pop: pop@, max_score: 0, best_net: None }),
    {
        Self { gen_count: 0, pop, max_score: 0, best_net: None }
    }

    /// The population.
    pub fn population(&self) -> (pop: &Population)
        ensures
            pop@ == self@.pop,
    {
        &self.pop
    }

    /// Whether every live agent can still count a step.
    pub fn can_step(&self) -> (ok: bool)
        ensures
            ok == self@.pop.can_step(),
    {
        self.pop.can_step()
    }

    /// The number of the current generation, from zero.
    pub fn gen_count(&self) -> (n: usize)
        ensures
            n == self@.gen_count,
    {
        self.gen_count
    }

    /// The best score of all generations that have ended.
    pub fn max_score(&self) -> (n: usize)
        ensures
            n == self@.max_score,
    {
        self.max_score
    }

    /// The network that reached the best score, once a generation has
    /// ended.
    pub fn best_net(&self) -> (best: &Option<Net>)
        ensures
            best is Some == self@.best_net is Some,
            best is Some ==> (best->0)@ == self@.best_net->0,
    {
        &self.best_net
    }

    /// One tick of every agent, agent `i` deciding on `outputs[i]`. When
    /// no game is live afterwards the generation ends: it is reported, with
    /// `elapsed_ms` as the time it took, and the next one is started.
    pub fn update<P: Fn(u64, u32) -> u64, D: Fn() -> u64>(
        &mut self,
        outputs: &Vec<[u64; 4]>,
        elapsed_ms: u64,
        perturb: &P,
        draw: &D,
    ) -> (report: Option<GenerationReport>)
        requires
            old(self)@.pop.wf(),
            old(self)@.pop.can_step(),
            old(self)@.gen_count < usize::MAX,
            outputs.len() == old(self)@.pop.agents.len(),
            forall|b: u64, m: u32| call_requires(*perturb, (b, m)),
            call_requires(*draw, ()),
        ensures
            final(self)@.pop.wf(),
            exists|stepped: PopulationView|
                {
                    let mid = SimulationView { pop: stepped, ..old(self)@ };
                    &&& #[trigger] stepped.is_step_of(old(self)@.pop, outputs_view(outputs@))
                    &&& stepped.wf()
                    &&& if live_count(stepped.agents) == 0 {
                        &&& report == Some(mid.ended(elapsed_ms).1)
                        &&& final(self)@.started_after(mid.ended(elapsed_ms).0, *perturb, *draw)
                    } else {
                        &&& report is None
                        &&& final(self)@ == mid
                    }
                },
    {
        let games_alive = self.pop.update(outputs);
        let ghost stepped = self.pop@;
        if games_alive == 0 {
            let report = self.end_current_genration(elapsed_ms);
            self.start_new_generation(perturb, draw);
            Some(report)
        } else {
            None
        }
    }

    /// Breeds the next generation and moves the counter on.
    pub fn start_new_generation<P: Fn(u64, u32) -> u64, D: Fn() -> u64>(
        &mut self,
        perturb: &P,
        draw: &D,
    )
        requires
            old(self)@.pop.wf(),
            old(self)@.gen_count < usize::MAX,
            forall|b: u64, m: u32| call_requires(*perturb, (b, m)),
            call_requires(*draw, ()),
        ensures
            final(self)@.pop.wf(),
            final(self)@.started_after(old(self)@, *perturb, *draw),
    {
        self.gen_count += 1;
        self.pop.reset(perturb, draw);
    }

    /// Records the generation that has ended, `elapsed_ms` being the time
    /// it took, and keeps its best network where it set a new best score.
    pub fn end_current_genration(&mut self, elapsed_ms: u64) -> (report: GenerationReport)
        requires
            old(self)@.pop.wf(),
        ensures
            final(self)@ == old(self)@.ended(elapsed_ms).0,
            report == old(self)@.ended(elapsed_ms).1,
    {
        let (best_net, gen_max_score) = self.pop.get_gen_summary();
        proof {
            let k = choose|k: int|
                is_first_best(self@.pop.agents, k) && best_net@ == (
                #[trigger] self@.pop.agents[k]).brain && gen_max_score
                    == self@.pop.agents[k].game.score();
            let winner = choose|k: int| is_first_best(self@.pop.agents, k);
            crate::pop::lemma_first_best_unique(self@.pop.agents, k, winner);
        }
        let improved = gen_max_score > self.max_score;
        if improved {
            self.max_score = gen_max_score;
            self.best_net = Some(best_net);
        }
        GenerationReport {
            summary: GenerationSummary {
                gen_count: self.gen_count,
                time_elapsed_ms: elapsed_ms,
                gen_max_score,
                sim_max_score: self.max_score,
            },
            improved,
        }
    }
}

impl Default for GenerationSummary {
    fn default() -> (summary: Self)
        ensures
            summary == (GenerationSummary {
                gen_count: 0,
                time_elapsed_ms: 0,
                gen_max_score: 0,
                sim_max_score: 0,
            }),
    {
        GenerationSummary { gen_count: 0, time_elapsed_ms: 0, gen_max_score: 0, sim_max_score: 0 }
    }
}

} // verus!
