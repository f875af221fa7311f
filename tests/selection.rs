use evolution::{pick, select, select_by_draws, total_weight, EvoError};
use rand::rngs::StdRng;
use rand::SeedableRng;

#[test]
fn total_weight_of_positive_scores() {
    assert_eq!(total_weight(&vec![1, 2, 3]), 6);
    assert_eq!(total_weight(&vec![]), 0);
}

#[test]
fn total_weight_shifts_negative_scores() {
    assert_eq!(total_weight(&vec![-2, 0, 3]), 7);
    assert_eq!(total_weight(&vec![-5, -5]), 0);
    assert_eq!(total_weight(&vec![i64::MIN, i64::MAX]), u64::MAX as u128);
}

#[test]
fn pick_finds_the_slice_holding_the_draw() {
    let scores = vec![1, 2, 3];
    assert_eq!(pick(&scores, 0), 0);
    assert_eq!(pick(&scores, 1), 1);
    assert_eq!(pick(&scores, 2), 1);
    assert_eq!(pick(&scores, 3), 2);
    assert_eq!(pick(&scores, 5), 2);
    assert_eq!(pick(&vec![0, 5, 0], 0), 1);
    assert_eq!(pick(&vec![-1, 1], 1), 1);
}

#[test]
fn select_by_draws_maps_each_draw() {
    let population = vec![10, 20, 30];
    let scores = vec![1, 2, 3];
    let chosen = select_by_draws(&population, &scores, &vec![5, 0, 2, 3, 1]);
    assert_eq!(chosen, vec![30, 10, 20, 30, 20]);
}

#[test]
fn select_returns_the_requested_count() {
    let mut rng = StdRng::seed_from_u64(3);
    let population = vec![10, 20, 30];
    let scores = vec![1, 2, 3];
    for draws in [0usize, 1, 2, 3, 10, 50] {
        let v = select(&population, &scores, draws, &mut rng).unwrap();
        assert_eq!(v.len(), draws);
        assert!(v.iter().all(|x| population.contains(x)));
    }
}

#[test]
fn select_never_draws_zero_weight() {
    let mut rng = StdRng::seed_from_u64(5);
    let population = vec![10, 20, 30];
    let scores = vec![0, 4, 0];
    let v = select(&population, &scores, 40, &mut rng).unwrap();
    assert!(v.iter().all(|x| *x == 20));
}

#[test]
fn select_all_zero_fitness_is_degenerate() {
    let mut rng = StdRng::seed_from_u64(1);
    let population = vec![1, 2, 3, 4];
    let scores = vec![0, 0, 0, 0];
    assert_eq!(
        select(&population, &scores, 4, &mut rng),
        Err(EvoError::DegenerateDistribution)
    );
}

#[test]
fn select_from_empty_population_is_degenerate() {
    let mut rng = StdRng::seed_from_u64(1);
    assert_eq!(select(&vec![], &vec![], 3, &mut rng), Err(EvoError::DegenerateDistribution));
}

#[test]
fn select_equal_negative_fitness_is_degenerate() {
    let mut rng = StdRng::seed_from_u64(1);
    assert_eq!(
        select(&vec![1, 2], &vec![-7, -7], 2, &mut rng),
        Err(EvoError::DegenerateDistribution)
    );
}
