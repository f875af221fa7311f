use vstd::prelude::*;

verus! {

/// Fixed-point units per real unit.
pub const SCALE: i64 = 1_000_000_000;

/// The standard mutation step, 0.01, in fixed-point units.
pub const EPSILON: i64 = 10_000_000;

/// The ways a run can fail.
#[derive(Debug, Clone, Copy, PartialEq, Eq, Structural)]
pub enum EvoError {
    /// A setting is out of range; detected before any evolution begins.
    InvalidConfiguration,
    /// Every selection weight is zero, so no candidate can be drawn.
    DegenerateDistribution,
    /// A mutation step would leave the range of candidate values.
    NumericOverflow,
}

/// The tunable settings of a run.
#[derive(Debug, Clone, Copy, PartialEq, Eq, Structural)]
pub struct Config {
    /// Number of candidates a run starts with.
    pub population_size: usize,
    /// Number of generations to evolve.
    pub generations: usize,
    /// Number of candidates kept by selection in each generation.
    pub survivors: usize,
    /// Number of best candidates reported at the end.
    pub top_results: usize,
    /// Mutation step in fixed-point units.
    pub mutation_step: i64,
    /// Refill by crossover of survivors, or else by fresh random candidates.
    pub use_crossover: bool,
}

impl Config {
    /// The settings are in range: every size positive, survivors and reported
    /// results no more than the population, a positive mutation step.
    pub open spec fn valid(&self) -> bool {
        &&& self.population_size > 0
        &&& 0 < self.survivors <= self.population_size
        &&& 0 < self.top_results <= self.population_size
        &&& self.mutation_step > 0
    }

    /// The standard settings: 100 candidates, 1000 generations, 75 survivors,
    /// the best 5 reported, a step of 0.01, refill by crossover.
    pub fn standard() -> (c: Config)
        ensures
            c == (Config {
                population_size: 100,
                generations: 1000,
                survivors: 75,
                top_results: 5,
                mutation_step: EPSILON,
                use_crossover: true,
            }),
            c.valid(),
    {
        Config {
            population_size: 100,
            generations: 1000,
            survivors: 75,
            top_results: 5,
            mutation_step: EPSILON,
            use_crossover: true,
        }
    }

    /// Checks the settings before a run.
    pub fn validate(&self) -> (r: Result<(), EvoError>)
        ensures
            r is Ok <==> self.valid(),
            r matches Err(e) ==> e == EvoError::InvalidConfiguration,
    {
        if self.population_size == 0 || self.survivors == 0 || self.survivors > self.population_size
            || self.top_results == 0 || self.top_results > self.population_size
            || self.mutation_step <= 0 {
            Err(EvoError::InvalidConfiguration)
        } else {
            Ok(())
        }
    }
}

} // verus!
