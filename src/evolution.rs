use rand::rngs::StdRng;
use vstd::prelude::*;
use vstd::seq_lib::{to_multiset_build, to_multiset_insert};

use crate::config::{Config, EvoError, SCALE};
use crate::random::{draw_below, draw_unit};
use crate::selection::{drawable, select, total, weight};
use crate::variation::{crossover_by_weight, max2, min2, mutate};

verus! {

/// A candidate together with its fitness score, both fixed-point.
#[derive(Debug, Clone, Copy, PartialEq, Eq, Structural)]
pub struct Scored {
    pub candidate: i64,
    pub score: i64,
}

/// The candidates paired with their scores, position by position.
pub open spec fn scored_seq(population: Seq<i64>, scores: Seq<i64>) -> Seq<Scored> {
    Seq::new(population.len(), |i: int| Scored { candidate: population[i], score: scores[i] })
}

/// The scores never decrease along `s`.
pub open spec fn sorted_by_score(s: Seq<Scored>) -> bool {
    forall|i: int, j: int| 0 <= i < j < s.len() ==> s[i].score <= s[j].score
}

/// Every candidate can take a mutation step of `step` either way within `i64`.
pub open spec fn all_mutable(population: Seq<i64>, step: int) -> bool {
    forall|i: int| 0 <= i < population.len() ==> i64::MIN + step <= #[trigger] population[i] <= i64::MAX - step
}

/// `x` lies between two of the first `n` elements of `s`.
pub open spec fn within(x: i64, s: Seq<i64>, n: int) -> bool {
    exists|a: int, b: int| 0 <= a < n && 0 <= b < n && #[trigger] s[a] <= x <= #[trigger] s[b]
}

/// `x` is a candidate of `population` with positive weight, moved by at most
/// one mutation step.
pub open spec fn mutated_survivor(x: i64, population: Seq<i64>, scores: Seq<i64>, step: int) -> bool {
    exists|i: int|
        0 <= i < population.len() && weight(scores, i) > 0 && (x == #[trigger] population[i] - step
            || x == population[i] || x == population[i] + step)
}

/// The population size after repopulation: one short of the configured size,
/// unless selection already kept more.
pub open spec fn repopulated_len(config: Config) -> int {
    if config.survivors < config.population_size {
        config.population_size - 1
    } else {
        config.survivors as int
    }
}

/// A fresh population of `population_size` candidates, each uniform in `[0, 1)`.
pub fn initial_population(config: &Config, rng: &mut StdRng) -> (p: Vec<i64>)
    ensures
        p.len() == config.population_size,
        forall|k: int| 0 <= k < p.len() ==> 0 <= #[trigger] p[k] < SCALE,
{
    let mut p: Vec<i64> = Vec::new();
    while p.len() < config.population_size
        invariant
            p.len() <= config.population_size,
            forall|k: int| 0 <= k < p.len() ==> 0 <= #[trigger] p[k] < SCALE,
        decreases config.population_size - p.len(),
    {
        let x = draw_unit(rng);
        p.push(x);
    }
    p
}

/// Mutates every candidate once.
fn mutate_all(selected: &Vec<i64>, step: i64, rng: &mut StdRng) -> (r: Result<Vec<i64>, EvoError>)
    requires
        step > 0,
    ensures
        all_mutable(selected@, step as int) ==> r is Ok,
        r matches Err(e) ==> e == EvoError::NumericOverflow,
        r matches Ok(m) ==> m.len() == selected.len() && forall|k: int| 0 <= k < m.len() ==>
            (#[trigger] m[k] == selected[k] - step || m[k] == selected[k] || m[k] == selected[k] + step),
{
    let mut m: Vec<i64> = Vec::new();
    let mut k: usize = 0;
    while k < selected.len()
        invariant
            step > 0,
            k <= selected.len(),
            m.len() == k,
            forall|j: int| 0 <= j < k ==>
                (#[trigger] m[j] == selected[j] - step || m[j] == selected[j] || m[j] == selected[j] + step),
        decreases selected.len() - k,
    {
        match mutate(selected[k], step, rng) {
            Ok(x) => m.push(x),
            Err(e) => {
                proof {
                    assert(!(i64::MIN + step <= selected@[k as int] <= i64::MAX - step));
                }
                return Err(e);
            },
        }
        k = k + 1;
    }
    Ok(m)
}

proof fn lemma_within_blend(x: i64, y: i64, r: i64, s: Seq<i64>, n: int)
    requires
        within(x, s, n),
        within(y, s, n),
        min2(x as int, y as int) <= r <= max2(x as int, y as int),
    ensures
        within(r, s, n),
{
    let (a1, b1) = choose|a: int, b: int| 0 <= a < n && 0 <= b < n && #[trigger] s[a] <= x <= #[trigger] s[b];
    let (a2, b2) = choose|a: int, b: int| 0 <= a < n && 0 <= b < n && #[trigger] s[a] <= y <= #[trigger] s[b];
    if x <= y {
        assert(s[a1] <= r <= s[b2]);
    } else {
        assert(s[a2] <= r <= s[b1]);
    }
}

/// Appends blends of two uniformly chosen members until the population holds
/// `target` candidates. Every blend lies between two of the first candidates.
fn refill_by_crossover(p: &mut Vec<i64>, target: usize, rng: &mut StdRng)
    requires
        old(p).len() > 0,
    ensures
        final(p).len() == if old(p).len() < target { target as int } else { old(p).len() as int },
        final(p)@.subrange(0, old(p).len() as int) == old(p)@,
        forall|k: int| 0 <= k < final(p).len() ==> #[trigger] within(final(p)[k], final(p)@, old(p).len() as int),
{
    let n = p.len();
    let ghost base = p@;
    proof {
        assert forall|k: int| 0 <= k < p.len() implies #[trigger] within(p[k], p@, n as int) by {
            assert(p@[k] <= p[k] <= p@[k]);
        }
    }
    while p.len() < target
        invariant
            n > 0,
            n <= p.len(),
            n < target ==> p.len() <= target,
            n >= target ==> p.len() == n,
            p@.subrange(0, n as int) == base,
            forall|k: int| 0 <= k < p.len() ==> #[trigger] within(p[k], p@, n as int),
        decreases target - p.len(),
    {
        let len = p.len();
        let xi = draw_below(rng, len as u128) as usize;
        let yi = draw_below(rng, len as u128) as usize;
        let w = draw_unit(rng);
        let child = crossover_by_weight(p[xi], p[yi], w);
        proof {
            lemma_within_blend(p[xi as int], p[yi as int], child, p@, n as int);
        }
        let ghost before = p@;
        p.push(child);
        proof {
            assert(p@.subrange(0, n as int) =~= before.subrange(0, n as int));
            assert forall|k: int| 0 <= k < p.len() implies #[trigger] within(p[k], p@, n as int) by {
                assert(forall|j: int| 0 <= j < n ==> p@[j] == before[j]);
                if k < len {
                    assert(within(before[k], before, n as int));
                    let (a, b) = choose|a: int, b: int|
                        0 <= a < n && 0 <= b < n && #[trigger] before[a] <= before[k] <= #[trigger] before[b];
                    assert(p@[a] <= p[k] <= p@[b]);
                } else {
                    let (a, b) = choose|a: int, b: int|
                        0 <= a < n && 0 <= b < n && #[trigger] before[a] <= child <= #[trigger] before[b];
                    assert(p@[a] <= p[k] <= p@[b]);
                }
            }
        }
    }
}

/// Appends fresh candidates, each uniform in `[0, 1)`, until the population
/// holds `target` candidates.
fn refill_random(p: &mut Vec<i64>, target: usize, rng: &mut StdRng)
    ensures
        final(p).len() == if old(p).len() < target { target as int } else { old(p).len() as int },
        final(p)@.subrange(0, old(p).len() as int) == old(p)@,
        forall|k: int| old(p).len() <= k < final(p).len() ==> 0 <= #[trigger] final(p)[k] < SCALE,
{
    let n = p.len();
    let ghost base = p@;
    while p.len() < target
        invariant
            n <= p.len(),
            n < target ==> p.len() <= target,
            n >= target ==> p.len() == n,
            p@.subrange(0, n as int) == base,
            forall|k: int| n <= k < p.len() ==> 0 <= #[trigger] p[k] < SCALE,
        decreases target - p.len(),
    {
        let x = draw_unit(rng);
        let ghost before = p@;
        p.push(x);
        assert(p@.subrange(0, n as int) =~= before.subrange(0, n as int));
    }
}

/// One generation: roulette selection of `survivors` candidates, one mutation
/// of each, then repopulation up to one short of `population_size`, by
/// crossover of the current members or by fresh random candidates.
pub fn next_generation(config: &Config, population: &Vec<i64>, scores: &Vec<i64>, rng: &mut StdRng) -> (r: Result<Vec<i64>, EvoError>)
    requires
        config.valid(),
        population.len() == scores.len(),
    ensures
        r matches Err(e) ==> (e == EvoError::DegenerateDistribution <==> total(scores@) == 0),
        r matches Err(e) ==> e == EvoError::DegenerateDistribution || e == EvoError::NumericOverflow,
        total(scores@) > 0 && all_mutable(population@, config.mutation_step as int) ==> r is Ok,
        r matches Ok(p) ==> p.len() == repopulated_len(*config),
        r matches Ok(p) ==> config.survivors < config.population_size ==> p.len() == config.population_size - 1,
        r matches Ok(p) ==> forall|k: int| 0 <= k < config.survivors ==>
            #[trigger] mutated_survivor(p[k], population@, scores@, config.mutation_step as int),
        r matches Ok(p) ==> config.use_crossover ==> forall|k: int| 0 <= k < p.len() ==>
            #[trigger] within(p[k], p@, config.survivors as int),
        r matches Ok(p) ==> !config.use_crossover ==> forall|k: int| config.survivors <= k < p.len() ==>
            0 <= #[trigger] p[k] < SCALE,
{
    let step = config.mutation_step;
    let chosen = select(population, scores, config.survivors, rng);
    let selected = match chosen {
        Ok(v) => v,
        Err(e) => return Err(e),
    };
    assert(total(scores@) != 0);
    proof {
        if all_mutable(population@, step as int) {
            assert forall|k: int| 0 <= k < selected.len() implies
                i64::MIN + step <= #[trigger] selected@[k] <= i64::MAX - step by {
                assert(drawable(selected@[k], population@, scores@));
            }
        }
    }
    let mut p = match mutate_all(&selected, step, rng) {
        Ok(m) => m,
        Err(e) => return Err(e),
    };
    proof {
        assert forall|k: int| 0 <= k < config.survivors implies
            #[trigger] mutated_survivor(p[k], population@, scores@, step as int) by {
            assert(drawable(selected@[k], population@, scores@));
            let i = choose|i: int|
                0 <= i < population.len() && weight(scores@, i) > 0 && selected@[k] == #[trigger] population@[i];
            assert(p[k] == population@[i] - step || p[k] == population@[i] || p[k] == population@[i] + step);
        }
    }
    let ghost mutated = p@;
    let target = config.population_size - 1;
    if config.use_crossover {
        refill_by_crossover(&mut p, target, rng);
    } else {
        refill_random(&mut p, target, rng);
    }
    proof {
        assert forall|k: int| 0 <= k < config.survivors implies
            #[trigger] mutated_survivor(p[k], population@, scores@, step as int) by {
            assert(p@[k] == p@.subrange(0, mutated.len() as int)[k]);
            assert(mutated_survivor(mutated[k], population@, scores@, step as int));
        }
    }
    Ok(p)
}

/// The candidates paired with their scores and sorted ascending by score.
pub fn rank(population: &Vec<i64>, scores: &Vec<i64>) -> (r: Vec<Scored>)
    requires
        population.len() == scores.len(),
    ensures
        r@.to_multiset() == scored_seq(population@, scores@).to_multiset(),
        sorted_by_score(r@),
{
    let ghost all = scored_seq(population@, scores@);
    let mut r: Vec<Scored> = Vec::new();
    let mut i: usize = 0;
    assert(r@ =~= all.subrange(0, 0));
    while i < population.len()
        invariant
            population.len() == scores.len(),
            all == scored_seq(population@, scores@),
            i <= population.len(),
            r@.to_multiset() == all.subrange(0, i as int).to_multiset(),
            sorted_by_score(r@),
        decreases population.len() - i,
    {
        let e = Scored { candidate: population[i], score: scores[i] };
        let mut pos: usize = 0;
        while pos < r.len() && r[pos].score <= e.score
            invariant
                pos <= r.len(),
                forall|j: int| 0 <= j < pos ==> r[j].score <= e.score,
            decreases r.len() - pos,
        {
            pos = pos + 1;
        }
        let ghost before = r@;
        proof {
            if pos < r.len() {
                assert(r[pos as int].score > e.score);
            }
            assert(forall|j: int| pos <= j < r.len() ==> r[j].score > e.score);
        }
        r.insert(pos, e);
        proof {
            to_multiset_insert(before, pos as int, e);
            assert(all.subrange(0, i as int + 1) =~= all.subrange(0, i as int).push(e));
            to_multiset_build(all.subrange(0, i as int), e);
            assert(r@ =~= before.insert(pos as int, e));
        }
        i = i + 1;
    }
    assert(all.subrange(0, population.len() as int) =~= all);
    r
}

/// The `k` best ranked entries, highest score first.
pub fn top_results(ranked: &Vec<Scored>, k: usize) -> (r: Vec<Scored>)
    requires
        k <= ranked.len(),
    ensures
        r.len() == k,
        forall|i: int| 0 <= i < k ==> #[trigger] r[i] == ranked[ranked.len() - 1 - i],
{
    let mut r: Vec<Scored> = Vec::new();
    let mut i: usize = 0;
    while i < k
        invariant
            k <= ranked.len(),
            i <= k,
            r.len() == i,
            forall|j: int| 0 <= j < i ==> #[trigger] r[j] == ranked[ranked.len() - 1 - j],
        decreases k - i,
    {
        r.push(ranked[ranked.len() - 1 - i]);
        i = i + 1;
    }
    r
}

} // verus!
