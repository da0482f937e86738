use my_htm::RandomSource;

#[test]
fn first_numbers_of_a_seed() {
    let mut rng = RandomSource::new(1234567);
    assert_eq!(rng.next_u64(), 6457827717110365317);
    assert_eq!(rng.next_u64(), 3203168211198807973);
    assert_eq!(rng.next_u64(), 9817491932198370423);
    assert_eq!(rng.next_u64(), 4593380528125082431);
    assert_eq!(rng.next_u64(), 16408922859458223821);
}

#[test]
fn first_numbers_of_seed_zero() {
    let mut rng = RandomSource::new(0);
    assert_eq!(rng.next_u64(), 16294208416658607535);
    assert_eq!(rng.next_u64(), 7960286522194355700);
    assert_eq!(rng.next_u64(), 487617019471545679);
}

#[test]
fn state_moves_by_the_increment() {
    let mut rng = RandomSource::new(5);
    assert_eq!(rng.state(), 5);
    rng.next_u64();
    assert_eq!(rng.state(), 5 + 0x9E37_79B9_7F4A_7C15);
    let mut last = RandomSource::new(u64::MAX);
    last.next_u64();
    assert_eq!(last.state(), 0x9E37_79B9_7F4A_7C14);
}

#[test]
fn below_is_the_remainder() {
    let mut rng = RandomSource::new(42);
    let mut drawn = Vec::new();
    for _ in 0..8 {
        drawn.push(rng.below(10));
    }
    assert_eq!(drawn, vec![3, 1, 8, 4, 0, 2, 5, 8]);
    let mut a = RandomSource::new(42);
    let mut b = RandomSource::new(42);
    for bound in 1..50usize {
        let r = a.below(bound);
        assert!(r < bound);
        assert_eq!(r as u64, b.next_u64() % bound as u64);
    }
}

#[test]
fn below_one_is_zero() {
    let mut rng = RandomSource::new(77);
    for _ in 0..20 {
        assert_eq!(rng.below(1), 0);
    }
}

#[test]
fn a_source_made_from_the_state_goes_on_alike() {
    let mut a = RandomSource::new(2024);
    a.next_u64();
    a.next_u64();
    let mut b = RandomSource::new(a.state());
    for _ in 0..10 {
        assert_eq!(a.next_u64(), b.next_u64());
    }
}
