use rosomaxa::algorithms::math::{isqrt, relative_distance, scale_round};
use rosomaxa::algorithms::sorting::sort_descending;
use rosomaxa::utils::DefaultRandom;

#[test]
fn square_root_is_rounded_down() {
    assert_eq!(isqrt(0), 0);
    assert_eq!(isqrt(1), 1);
    assert_eq!(isqrt(3), 1);
    assert_eq!(isqrt(4), 2);
    assert_eq!(isqrt(99), 9);
    assert_eq!(isqrt(100), 10);
    assert_eq!(isqrt(u128::MAX), u64::MAX);
    assert_eq!(isqrt(1 << 64), 1 << 32);
}

#[test]
fn relative_distance_of_single_components() {
    assert_eq!(relative_distance(&vec![7], &vec![7]), 0);
    assert_eq!(relative_distance(&vec![7], &vec![8]), 125_000);
    assert_eq!(relative_distance(&vec![7], &vec![10]), 300_000);
    assert_eq!(relative_distance(&vec![7], &vec![12]), 416_666);
    assert_eq!(relative_distance(&vec![12], &vec![7]), 416_666);
    assert_eq!(relative_distance(&vec![-5], &vec![5]), 2_000_000);
    assert_eq!(relative_distance(&vec![i64::MIN], &vec![i64::MAX]), 1_999_999);
}

#[test]
fn relative_distance_of_zero_and_empty() {
    assert_eq!(relative_distance(&vec![0], &vec![0]), 0);
    assert_eq!(relative_distance(&vec![], &vec![]), 0);
    assert_eq!(relative_distance(&vec![], &vec![5]), 0);
    assert_eq!(relative_distance(&vec![0], &vec![5]), 1_000_000);
}

#[test]
fn relative_distance_over_shared_components() {
    // 3/4 and 4/8 give the square root of 0.5625 + 0.25
    assert_eq!(relative_distance(&vec![1, 4], &vec![4, 8]), 901_387);
    assert_eq!(relative_distance(&vec![1, 4, 100], &vec![4, 8]), 901_387);
    assert_eq!(relative_distance(&vec![3, 0], &vec![0, 4]), 1_414_213);
}

#[test]
fn scaling_rounds_half_up() {
    assert_eq!(scale_round(5, 500_000), 3);
    assert_eq!(scale_round(4, 100_000), 0);
    assert_eq!(scale_round(10, 1_000_000), 10);
    assert_eq!(scale_round(u64::MAX, u64::MAX), u64::MAX);
}

#[test]
fn sorts_from_the_greatest_to_the_least() {
    let mut values = vec![3, 9, 1, 9, 0, 7];

    sort_descending(&mut values);

    assert_eq!(values, vec![9, 9, 7, 3, 1, 0]);
}

#[test]
fn uniform_int_stays_in_its_range() {
    let mut random = DefaultRandom::new_repeatable(41);
    let mut seen = [false; 3];

    for _ in 0..200 {
        let value = random.uniform_int(5, 7);
        assert!((5..=7).contains(&value));
        seen[(value - 5) as usize] = true;
    }

    assert_eq!(seen, [true, true, true]);
    assert_eq!(random.uniform_int(9, 9), 9);
    assert_eq!(DefaultRandom::new_repeatable(0).uniform_int(-3, -3), -3);
}

#[test]
fn hits_follow_the_probability() {
    let mut random = DefaultRandom::new_repeatable(43);

    assert!((0..100).all(|_| !random.is_hit(0)));
    assert!((0..100).all(|_| random.is_hit(1_000_000)));
    let hits = (0..1000).filter(|_| random.is_hit(500_000)).count();
    assert!(hits > 300 && hits < 700);
    let heads = (0..1000).filter(|_| random.is_head_not_tails()).count();
    assert!(heads > 300 && heads < 700);
}

#[test]
fn shuffles_keep_the_items() {
    let mut random = DefaultRandom::new_repeatable(47);
    let original: Vec<u32> = (0..100).collect();

    let mut all = original.clone();
    random.shuffle(&mut all);
    let mut part = original.clone();
    random.partial_shuffle(&mut part, 50);

    assert_ne!(all, original);
    assert_ne!(part, original);
    all.sort();
    part.sort();
    assert_eq!(all, original);
    assert_eq!(part, original);
}

#[test]
fn same_seed_gives_the_same_numbers() {
    let mut first = DefaultRandom::new_repeatable(53);
    let mut second = DefaultRandom::new_repeatable(53);

    let a: Vec<i32> = (0..20).map(|_| first.uniform_int(0, 1000)).collect();
    let b: Vec<i32> = (0..20).map(|_| second.uniform_int(0, 1000)).collect();

    assert_eq!(a, b);
}
