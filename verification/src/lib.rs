//! Neuroevolution of snake-playing networks: the game state machine, the
//! network with its genetic operators, the per-agent sensing and decision
//! rules, the selection-and-reproduction engine of a population, and the
//! driver that runs generation after generation.
//!
//! The library holds no floating-point number. Every parameter of a network
//! is stored as the bit pattern of an IEEE-754 double. The library moves,
//! selects and recombines parameters and decides where arithmetic is
//! applied; the arithmetic itself is handed in by the caller as functions
//! on bit patterns. Fitness is counted in tenths of a point, mutation rate
//! and magnitude in percent, and time in milliseconds.

pub mod agent;
pub mod compare;
pub mod configs;
pub mod game;
pub mod nn;
pub mod pop;
pub mod rng;
pub mod select;
pub mod sim;
pub mod utils;

pub use configs::{
    nn_arch, Config, GRID_SIZE, NN_ARCH, NUM_AGENTS, NUM_STEPS, POP_NUM_RANDOM, POP_RETAINED,
    POP_RETAINED_MUTATED, POP_ROULETTE, POP_TOURNAMENT, SENSOR_COUNT, TOURNAMENT_SIZE,
};
pub use utils::{get_eight_dirs, FourDirs, Point};
