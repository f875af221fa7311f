//! A generational evolutionary optimiser for one real variable.
//!
//! Candidates are fixed-point numbers: a value `v` stands for the real
//! `v / SCALE`. Fitness scores are fixed-point in the same unit and are
//! computed by the caller; the library selects, mutates, recombines and ranks.
//!
//! Selection is a roulette wheel. Negative scores are handled by shifting: when
//! the lowest score is negative, every weight is raised by its magnitude, so the
//! lowest-scoring candidate gets weight zero. A wheel whose weights are all zero
//! is reported as a degenerate distribution.
mod config;
mod evolution;
mod random;
mod selection;
mod variation;

pub use config::{Config, EvoError, EPSILON, SCALE};
pub use evolution::{initial_population, next_generation, rank, top_results, Scored};
pub use selection::{pick, select, select_by_draws, total_weight};
pub use variation::{crossover, crossover_by_weight, mutate, mutate_by_draw, Step};
