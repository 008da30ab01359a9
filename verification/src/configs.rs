//! The default settings.

use vstd::prelude::*;

verus! {

/// Side length of the default grid: coordinates `0` and `GRID_SIZE` are wall.
pub const GRID_SIZE: i32 = 15;

/// Number of agents of the default population.
pub const NUM_AGENTS: usize = 1000;

/// The base budget of steps an agent may take without eating.
pub const NUM_STEPS: usize = 75;

/// Share of the next generation, in percent, that carries over the fittest
/// networks unchanged.
pub const POP_RETAINED: u32 = 10;

/// Share, in percent, of mutated copies of the fittest networks.
pub const POP_RETAINED_MUTATED: u32 = 0;

/// Share, in percent, bred by fitness-proportionate selection.
pub const POP_ROULETTE: u32 = 60;

/// Share, in percent, bred by tournament selection.
pub const POP_TOURNAMENT: u32 = 10;

/// Share, in percent, of fresh random networks.
pub const POP_NUM_RANDOM: u32 = 20;

/// Number of further draws after the first in one tournament.
pub const TOURNAMENT_SIZE: usize = 5;

/// Width of the sensor reading of an agent.
pub const SENSOR_COUNT: usize = 24;

/// The default topology: the input width, then the node count of each layer.
pub const NN_ARCH: [usize; 4] = [24, 16, 8, 4];

/// The default topology as a vector.
pub fn nn_arch() -> (sizes: Vec<usize>)
    ensures
        sizes@ == NN_ARCH@,
        sizes@ == seq![24usize, 16usize, 8usize, 4usize],
{
    let mut sizes: Vec<usize> = Vec::new();
    let mut i: usize = 0;
    while i < 4
        invariant
            i <= 4,
            sizes@ == NN_ARCH@.take(i as int),
        decreases 4 - i,
    {
        sizes.push(NN_ARCH[i]);
        assert(sizes@ =~= NN_ARCH@.take(i + 1));
        i += 1;
    }
    assert(sizes@ =~= NN_ARCH@);
    assert(sizes@ =~= seq![24usize, 16usize, 8usize, 4usize]);
    sizes
}

/// The settings of one run: the grid, the size of the population, the
/// share in percent of each way of breeding the next generation, and the
/// topology of every network.
#[derive(Debug, PartialEq, Eq)]
pub struct Config {
    pub grid_size: i32,
    pub num_agents: usize,
    pub retained: u32,
    pub retained_mutated: u32,
    pub roulette: u32,
    pub tournament: u32,
    pub random: u32,
    pub arch: Vec<usize>,
}

/// The mathematical value of the settings.
pub struct ConfigView {
    pub grid_size: int,
    pub num_agents: nat,
    pub retained: nat,
    pub retained_mutated: nat,
    pub roulette: nat,
    pub tournament: nat,
    pub random: nat,
    pub arch: Seq<usize>,
}

impl View for Config {
    type V = ConfigView;

    open spec fn view(&self) -> ConfigView {
        ConfigView {
            grid_size: self.grid_size as int,
            num_agents: self.num_agents as nat,
            retained: self.retained as nat,
            retained_mutated: self.retained_mutated as nat,
            roulette: self.roulette as nat,
            tournament: self.tournament as nat,
            random: self.random as nat,
            arch: self.arch@,
        }
    }
}

impl ConfigView {
    /// Settings that a population can be run with: a grid with at least one
    /// food cell, at least one agent, shares that add up to the whole, and
    /// a topology of at least two widths, none of them zero.
    pub open spec fn valid(self) -> bool {
        &&& self.grid_size >= 3
        &&& self.num_agents >= 1
        &&& self.retained + self.retained_mutated + self.roulette + self.tournament + self.random
            == 100
        &&& self.arch.len() >= 2
        &&& forall|i: int| 0 <= i < self.arch.len() ==> self.arch[i] > 0
    }

    /// The number of agents bred by a way whose share is `percent`: that
    /// share of the population, rounded down.
    pub open spec fn quota(self, percent: nat) -> nat {
        self.num_agents * percent / 100
    }

    /// Agents carried over unchanged.
    pub open spec fn num_elite(self) -> nat {
        self.quota(self.retained)
    }

    /// Agents bred by fitness-proportionate selection.
    pub open spec fn num_roulette(self) -> nat {
        self.quota(self.roulette)
    }

    /// Mutated copies of the fittest.
    pub open spec fn num_mutated(self) -> nat {
        self.quota(self.retained_mutated)
    }

    /// Fresh random agents.
    pub open spec fn num_random(self) -> nat {
        self.quota(self.random)
    }

    /// Agents bred by tournament: its own share and what rounding left of
    /// the others, so that the five numbers add up to the population.
    pub open spec fn num_tournament(self) -> nat {
        (self.num_agents - self.num_elite() - self.num_roulette() - self.num_mutated()
            - self.num_random()) as nat
    }
}

/// The quotas of valid settings add up to the population, and tournament
/// gets at least its own share.
pub proof fn lemma_quotas(c: ConfigView)
    requires
        c.valid(),
    ensures
        c.num_elite() + c.num_roulette() + c.num_tournament() + c.num_mutated() + c.num_random()
            == c.num_agents,
        c.num_tournament() >= c.quota(c.tournament),
{
    let n = c.num_agents as int;
    let a = c.retained as int;
    let b = c.roulette as int;
    let m = c.retained_mutated as int;
    let r = c.random as int;
    let t = c.tournament as int;
    assert((n * a) / 100 + (n * b) / 100 + (n * m) / 100 + (n * r) / 100 + (n * t) / 100 <= n)
        by (nonlinear_arith)
        requires
            a + b + m + r + t == 100,
            n >= 0,
            a >= 0,
            b >= 0,
            m >= 0,
            r >= 0,
            t >= 0,
    ;
    assert((n * t) / 100 >= 0) by (nonlinear_arith)
        requires
            n >= 0,
            t >= 0,
    ;
}

impl Clone for Config {
    fn clone(&self) -> (copy: Self)
        ensures
            copy@ == self@,
    {
        Config {
            grid_size: self.grid_size,
            num_agents: self.num_agents,
            retained: self.retained,
            retained_mutated: self.retained_mutated,
            roulette: self.roulette,
            tournament: self.tournament,
            random: self.random,
            arch: self.arch.clone(),
        }
    }
}

impl Default for Config {
    fn default() -> (config: Self)
        ensures
            config@ == ConfigView::standard(),
            config@.valid(),
    {
        Config::new()
    }
}

impl ConfigView {
    /// The default settings.
    pub open spec fn standard() -> ConfigView {
        ConfigView {
            grid_size: GRID_SIZE as int,
            num_agents: NUM_AGENTS as nat,
            retained: POP_RETAINED as nat,
            retained_mutated: POP_RETAINED_MUTATED as nat,
            roulette: POP_ROULETTE as nat,
            tournament: POP_TOURNAMENT as nat,
            random: POP_NUM_RANDOM as nat,
            arch: seq![24usize, 16usize, 8usize, 4usize],
        }
    }
}

impl Config {
    /// The default settings.
    pub fn new() -> (config: Self)
        ensures
            config@ == ConfigView::standard(),
            config@.valid(),
    {
        Config {
            grid_size: GRID_SIZE,
            num_agents: NUM_AGENTS,
            retained: POP_RETAINED,
            retained_mutated: POP_RETAINED_MUTATED,
            roulette: POP_ROULETTE,
            tournament: POP_TOURNAMENT,
            random: POP_NUM_RANDOM,
            arch: nn_arch(),
        }
    }

    /// Whether the settings are valid.
    pub fn is_valid(&self) -> (ok: bool)
        ensures
            ok == self@.valid(),
    {
        if self.grid_size < 3 || self.num_agents < 1 || self.arch.len() < 2 {
            return false;
        }
        let total: u64 = self.retained as u64 + self.retained_mutated as u64 + self.roulette as u64
            + self.tournament as u64 + self.random as u64;
        if total != 100 {
            return false;
        }
        let mut i: usize = 0;
        while i < self.arch.len()
            invariant
                i <= self.arch.len(),
                forall|k: int| 0 <= k < i ==> self.arch[k] > 0,
            decreases self.arch.len() - i,
        {
            if self.arch[i] == 0 {
                return false;
            }
            i += 1;
        }
        true
    }

    /// The number of agents bred by a way whose share is `percent`.
    pub fn quota(&self, percent: u32) -> (count: usize)
        requires
            percent <= 100,
        ensures
            count == self@.quota(percent as nat),
            count <= self.num_agents,
    {
        let n = self.num_agents as u128;
        let p = percent as u128;
        assert(n * p <= u64::MAX * 100) by (nonlinear_arith)
            requires
                n <= u64::MAX,
                p <= 100,
        ;
        assert(n * p / 100 <= n) by (nonlinear_arith)
            requires
                0 <= n,
                0 <= p <= 100,
        ;
        (n * p / 100) as usize
    }
}

} // verus!
