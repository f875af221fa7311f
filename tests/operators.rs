use evolution::{
    crossover, crossover_by_weight, mutate, mutate_by_draw, Config, EvoError, EPSILON, SCALE,
};
use rand::rngs::StdRng;
use rand::SeedableRng;

#[test]
fn standard_config_is_valid() {
    let c = Config::standard();
    assert_eq!(c.population_size, 100);
    assert_eq!(c.generations, 1000);
    assert_eq!(c.survivors, 75);
    assert_eq!(c.top_results, 5);
    assert_eq!(c.mutation_step, EPSILON);
    assert!(c.use_crossover);
    assert_eq!(c.validate(), Ok(()));
}

#[test]
fn invalid_configurations_are_rejected() {
    let base = Config::standard();
    let cases = vec![
        Config { population_size: 0, ..base },
        Config { survivors: 0, ..base },
        Config { survivors: 101, ..base },
        Config { top_results: 0, ..base },
        Config { top_results: 101, ..base },
        Config { mutation_step: 0, ..base },
        Config { mutation_step: -5, ..base },
    ];
    for c in cases {
        assert_eq!(c.validate(), Err(EvoError::InvalidConfiguration));
    }
    let edge = Config { survivors: 100, top_results: 100, ..base };
    assert_eq!(edge.validate(), Ok(()));
}

#[test]
fn mutation_direction_follows_the_draw() {
    let x = 500_000_000;
    assert_eq!(mutate_by_draw(x, EPSILON, 0), Ok(x - EPSILON));
    assert_eq!(mutate_by_draw(x, EPSILON, 299_999_999), Ok(x - EPSILON));
    assert_eq!(mutate_by_draw(x, EPSILON, 300_000_000), Ok(x));
    assert_eq!(mutate_by_draw(x, EPSILON, 500_000_000), Ok(x));
    assert_eq!(mutate_by_draw(x, EPSILON, 700_000_000), Ok(x));
    assert_eq!(mutate_by_draw(x, EPSILON, 700_000_001), Ok(x + EPSILON));
    assert_eq!(mutate_by_draw(x, EPSILON, SCALE - 1), Ok(x + EPSILON));
}

#[test]
fn mutation_past_the_range_overflows() {
    assert_eq!(mutate_by_draw(i64::MIN, EPSILON, 0), Err(EvoError::NumericOverflow));
    assert_eq!(mutate_by_draw(i64::MAX, EPSILON, SCALE - 1), Err(EvoError::NumericOverflow));
    assert_eq!(mutate_by_draw(i64::MIN, EPSILON, 500_000_000), Ok(i64::MIN));
    assert_eq!(mutate_by_draw(i64::MIN + EPSILON, EPSILON, 0), Ok(i64::MIN));
}

#[test]
fn mutation_takes_one_of_three_values() {
    let mut rng = StdRng::seed_from_u64(7);
    let x = 123_456_789;
    let mut seen = [false; 3];
    for _ in 0..1000 {
        let m = mutate(x, EPSILON, &mut rng).unwrap();
        if m == x - EPSILON {
            seen[0] = true;
        } else if m == x {
            seen[1] = true;
        } else if m == x + EPSILON {
            seen[2] = true;
        } else {
            panic!("unexpected mutation {}", m);
        }
    }
    assert!(seen[0] && seen[1] && seen[2]);
}

#[test]
fn crossover_blends_by_weight() {
    assert_eq!(crossover_by_weight(7, 11, 0), 11);
    assert_eq!(crossover_by_weight(0, 10, SCALE / 2), 5);
    assert_eq!(crossover_by_weight(SCALE, 0, 250_000_000), 250_000_000);
    assert_eq!(crossover_by_weight(-1, 0, SCALE / 2), -1);
    assert_eq!(crossover_by_weight(i64::MIN, i64::MAX, SCALE - 1), i64::MIN + 18_446_744_073);
    assert_eq!(crossover_by_weight(42, 42, 123_456_789), 42);
}

#[test]
fn crossover_stays_between_parents() {
    let mut rng = StdRng::seed_from_u64(11);
    let (x, y) = (-300_000_000, 900_000_000);
    let mut distinct = std::collections::BTreeSet::new();
    for _ in 0..500 {
        let c = crossover(x, y, &mut rng);
        assert!(x <= c && c <= y);
        let d = crossover(y, x, &mut rng);
        assert!(x <= d && d <= y);
        distinct.insert(c);
    }
    assert!(distinct.len() > 1);
}
