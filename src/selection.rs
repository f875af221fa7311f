use rand::rngs::StdRng;
use vstd::prelude::*;

use crate::config::EvoError;
use crate::random::draw_below;

verus! {

/// The weight floor: the lowest of the first `n` scores, or 0 when none of them
/// is negative. Subtracting it shifts every weight to be non-negative.
pub open spec fn floor_of(scores: Seq<i64>, n: int) -> int
    decreases n,
{
    if n <= 0 {
        0
    } else {
        let f = floor_of(scores, n - 1);
        if scores[n - 1] < f { scores[n - 1] as int } else { f }
    }
}

/// The roulette weight of candidate `i`: its score shifted by the floor of all scores.
pub open spec fn weight(scores: Seq<i64>, i: int) -> int {
    scores[i] - floor_of(scores, scores.len() as int)
}

/// The summed weight of the first `n` candidates.
pub open spec fn weight_sum(scores: Seq<i64>, n: int) -> int
    decreases n,
{
    if n <= 0 {
        0
    } else {
        weight_sum(scores, n - 1) + weight(scores, n - 1)
    }
}

/// The summed weight of all candidates.
pub open spec fn total(scores: Seq<i64>) -> int {
    weight_sum(scores, scores.len() as int)
}

/// The candidate whose slice of the wheel `[weight_sum(i), weight_sum(i + 1))`
/// holds the draw `r`.
pub open spec fn roulette_index(scores: Seq<i64>, r: int) -> int {
    choose|i: int|
        0 <= i < scores.len() && #[trigger] weight_sum(scores, i) <= r < weight_sum(scores, i + 1)
}

/// `x` is a candidate of `population` with a positive weight.
pub open spec fn drawable(x: i64, population: Seq<i64>, scores: Seq<i64>) -> bool {
    exists|i: int| 0 <= i < population.len() && weight(scores, i) > 0 && x == #[trigger] population[i]
}

/// Every element of `v` is a candidate of `population` with a positive weight.
pub open spec fn drawn_from(v: Seq<i64>, population: Seq<i64>, scores: Seq<i64>) -> bool {
    forall|k: int| 0 <= k < v.len() ==> #[trigger] drawable(v[k], population, scores)
}

proof fn lemma_floor_bounds(scores: Seq<i64>, n: int)
    requires
        0 <= n <= scores.len(),
    ensures
        i64::MIN <= floor_of(scores, n) <= 0,
        forall|j: int| 0 <= j < n ==> floor_of(scores, n) <= scores[j],
    decreases n,
{
    if n > 0 {
        lemma_floor_bounds(scores, n - 1);
    }
}

proof fn lemma_weight_bounds(scores: Seq<i64>, i: int)
    requires
        0 <= i < scores.len(),
    ensures
        0 <= weight(scores, i) <= u64::MAX,
{
    lemma_floor_bounds(scores, scores.len() as int);
}

proof fn lemma_weight_sum_bound(scores: Seq<i64>, n: int)
    requires
        0 <= n <= scores.len(),
    ensures
        0 <= weight_sum(scores, n) <= n * (u64::MAX as int),
    decreases n,
{
    if n > 0 {
        lemma_weight_sum_bound(scores, n - 1);
        lemma_weight_bounds(scores, n - 1);
    }
}

proof fn lemma_weight_sum_monotone(scores: Seq<i64>, j: int, k: int)
    requires
        0 <= j <= k <= scores.len(),
    ensures
        weight_sum(scores, j) <= weight_sum(scores, k),
    decreases k - j,
{
    if j < k {
        lemma_weight_sum_monotone(scores, j, k - 1);
        lemma_weight_bounds(scores, k - 1);
    }
}

/// Exactly one candidate's slice of the wheel holds a draw below the total,
/// and that candidate has a positive weight.
proof fn lemma_roulette_index_unique(scores: Seq<i64>, r: int, i: int)
    requires
        0 <= i < scores.len(),
        weight_sum(scores, i) <= r < weight_sum(scores, i + 1),
    ensures
        roulette_index(scores, r) == i,
        weight(scores, i) > 0,
{
    let k = roulette_index(scores, r);
    assert(0 <= k < scores.len() && weight_sum(scores, k) <= r < weight_sum(scores, k + 1));
    if k < i {
        lemma_weight_sum_monotone(scores, k + 1, i);
    } else if i < k {
        lemma_weight_sum_monotone(scores, i + 1, k);
    }
}

fn floor_score(scores: &Vec<i64>) -> (f: i64)
    ensures
        f == floor_of(scores@, scores@.len() as int),
{
    let mut f: i64 = 0;
    let mut i: usize = 0;
    while i < scores.len()
        invariant
            i <= scores.len(),
            f == floor_of(scores@, i as int),
        decreases scores.len() - i,
    {
        if scores[i] < f {
            f = scores[i];
        }
        i = i + 1;
    }
    f
}

/// The summed roulette weight of all candidates, after the shift that makes
/// every weight non-negative.
pub fn total_weight(scores: &Vec<i64>) -> (t: u128)
    ensures
        t == total(scores@),
{
    let f = floor_score(scores);
    proof {
        lemma_floor_bounds(scores@, scores@.len() as int);
    }
    let mut t: u128 = 0;
    let mut i: usize = 0;
    while i < scores.len()
        invariant
            i <= scores.len(),
            f == floor_of(scores@, scores@.len() as int),
            t == weight_sum(scores@, i as int),
        decreases scores.len() - i,
    {
        proof {
            lemma_weight_bounds(scores@, i as int);
            lemma_weight_sum_bound(scores@, i as int + 1);
            assert((i as int + 1) * (u64::MAX as int) <= u128::MAX) by (nonlinear_arith)
                requires i < usize::MAX;
        }
        let w: u128 = (scores[i] as i128 - f as i128) as u128;
        t = t + w;
        i = i + 1;
    }
    t
}

/// The index of the candidate whose slice of the wheel holds the draw `r`.
pub fn pick(scores: &Vec<i64>, r: u128) -> (i: usize)
    requires
        r < total(scores@),
    ensures
        i < scores.len(),
        weight_sum(scores@, i as int) <= r < weight_sum(scores@, i as int + 1),
        i == roulette_index(scores@, r as int),
        weight(scores@, i as int) > 0,
{
    let f = floor_score(scores);
    proof {
        lemma_floor_bounds(scores@, scores@.len() as int);
        lemma_weight_sum_bound(scores@, scores@.len() as int);
    }
    let mut acc: u128 = 0;
    let mut i: usize = 0;
    loop
        invariant
            i < scores.len(),
            f == floor_of(scores@, scores@.len() as int),
            acc == weight_sum(scores@, i as int),
            acc <= r,
            r < total(scores@),
        decreases scores.len() - i,
    {
        proof {
            lemma_weight_bounds(scores@, i as int);
            lemma_weight_sum_bound(scores@, scores@.len() as int);
            lemma_weight_sum_monotone(scores@, i as int + 1, scores@.len() as int);
            assert((scores@.len() as int) * (u64::MAX as int) <= u128::MAX) by (nonlinear_arith)
                requires scores@.len() <= usize::MAX;
            assert(weight_sum(scores@, i as int + 1) == acc + weight(scores@, i as int));
        }
        let w: u128 = (scores[i] as i128 - f as i128) as u128;
        if r < acc + w {
            proof {
                lemma_roulette_index_unique(scores@, r as int, i as int);
            }
            return i;
        }
        acc = acc + w;
        i = i + 1;
    }
}

/// Roulette selection driven by the given draws: one candidate per draw, each
/// the one whose slice of the wheel holds that draw.
pub fn select_by_draws(population: &Vec<i64>, scores: &Vec<i64>, draws: &Vec<u128>) -> (r: Vec<i64>)
    requires
        population.len() == scores.len(),
        forall|k: int| 0 <= k < draws.len() ==> draws[k] < total(scores@),
    ensures
        r.len() == draws.len(),
        forall|k: int|
            0 <= k < draws.len() ==> r[k] == population[roulette_index(scores@, draws[k] as int)],
{
    let mut r: Vec<i64> = Vec::new();
    let mut k: usize = 0;
    while k < draws.len()
        invariant
            k <= draws.len(),
            population.len() == scores.len(),
            forall|j: int| 0 <= j < draws.len() ==> draws[j] < total(scores@),
            r.len() == k,
            forall|j: int|
                0 <= j < k ==> r[j] == population[roulette_index(scores@, draws[j] as int)],
        decreases draws.len() - k,
    {
        let i = pick(scores, draws[k]);
        r.push(population[i]);
        k = k + 1;
    }
    r
}

/// Roulette selection of `draws` candidates with replacement, each drawn with
/// probability proportional to its shifted weight. Fails exactly when every
/// weight is zero; otherwise returns `draws` candidates of positive weight.
pub fn select(population: &Vec<i64>, scores: &Vec<i64>, draws: usize, rng: &mut StdRng) -> (r: Result<Vec<i64>, EvoError>)
    requires
        population.len() == scores.len(),
    ensures
        r is Err <==> total(scores@) == 0,
        r matches Err(e) ==> e == EvoError::DegenerateDistribution,
        r matches Ok(v) ==> v.len() == draws,
        r matches Ok(v) ==> drawn_from(v@, population@, scores@),
{
    let t = total_weight(scores);
    if t == 0 {
        return Err(EvoError::DegenerateDistribution);
    }
    let mut ds: Vec<u128> = Vec::new();
    let mut k: usize = 0;
    while k < draws
        invariant
            k <= draws,
            t == total(scores@),
            t > 0,
            ds.len() == k,
            forall|j: int| 0 <= j < k ==> ds[j] < t,
        decreases draws - k,
    {
        let d = draw_below(rng, t);
        ds.push(d);
        k = k + 1;
    }
    let v = select_by_draws(population, scores, &ds);
    assert forall|k: int| 0 <= k < v@.len() implies #[trigger] drawable(v@[k], population@, scores@) by {
        let d = ds[k] as int;
        let i = roulette_index(scores@, d);
        lemma_roulette_exists(scores@, d);
        assert(0 <= i < scores.len() && weight_sum(scores@, i) <= d < weight_sum(scores@, i + 1));
        lemma_roulette_index_unique(scores@, d, i);
        assert(0 <= i < population.len() && weight(scores@, i) > 0 && v[k] == population[i]);
    }
    assert(drawn_from(v@, population@, scores@));
    Ok(v)
}

/// A draw below the total falls in some candidate's slice of the wheel.
proof fn lemma_roulette_exists(scores: Seq<i64>, r: int)
    requires
        0 <= r < total(scores),
    ensures
        exists|i: int| 0 <= i < scores.len() && #[trigger] weight_sum(scores, i) <= r < weight_sum(scores, i + 1),
{
    lemma_roulette_exists_below(scores, r, scores.len() as int);
}

proof fn lemma_roulette_exists_below(scores: Seq<i64>, r: int, n: int)
    requires
        0 <= n <= scores.len(),
        0 <= r < weight_sum(scores, n),
    ensures
        exists|i: int| 0 <= i < n && #[trigger] weight_sum(scores, i) <= r < weight_sum(scores, i + 1),
    decreases n,
{
    if weight_sum(scores, n - 1) <= r {
        assert(weight_sum(scores, n - 1) <= r < weight_sum(scores, n));
    } else {
        lemma_weight_sum_bound(scores, n - 1);
        lemma_roulette_exists_below(scores, r, n - 1);
    }
}

} // verus!
