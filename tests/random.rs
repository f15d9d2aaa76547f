use tetris::RandomGenerator;

#[test]
fn generator_follows_the_recurrence() {
    let mut generator = RandomGenerator::new(101, 4, 1, 7);
    let values: Vec<u64> = (0..8).map(|_| generator.generate()).collect();
    assert_eq!(values, vec![29, 16, 65, 59, 35, 40, 60, 39]);
    assert_eq!(generator.seed, 39);
}

#[test]
fn same_parameters_give_same_sequence() {
    let mut a = RandomGenerator::new(101, 4, 1, 1_700_000_000);
    let mut b = RandomGenerator::new(101, 4, 1, 1_700_000_000);
    for _ in 0..200 {
        assert_eq!(a.generate(), b.generate());
    }
}

#[test]
fn values_stay_below_the_modulus() {
    let mut generator = RandomGenerator::new(13, 5, 3, 1000);
    for _ in 0..100 {
        assert!(generator.generate() < 13);
    }
}

#[test]
fn large_operands_do_not_overflow() {
    let mut generator = RandomGenerator::new(u64::MAX, u64::MAX, u64::MAX, u64::MAX);
    let expected = ((u64::MAX as u128 * u64::MAX as u128 + u64::MAX as u128) % u64::MAX as u128) as u64;
    assert_eq!(generator.generate(), expected);
}

#[test]
fn fixed_point_stays_fixed() {
    // 67 = (4 * 67 + 1) mod 101.
    let mut generator = RandomGenerator::new(101, 4, 1, 67);
    assert_eq!(generator.generate(), 67);
    assert_eq!(generator.generate(), 67);
}
