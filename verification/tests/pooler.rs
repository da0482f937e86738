use bit_vec::BitVec;
use my_htm::{Config, ConfigError, HTMLayer, RandomSource, RuntimeError, ONE};

fn small() -> Config {
    Config {
        input_length: 16,
        column_count: 12,
        active_columns_per_area: 2,
        inhibition_radius: 3,
        potential_pool_size: 4,
        permanence_threshold: 500_000,
        permanence_increment: 100_000,
        permanence_decrement: 50_000,
        stimulus_threshold: 500_000,
        duty_cycle_period: 3,
        min_overlap_duty_cycle: 400_000,
    }
}

fn input_of(length: usize, on: fn(usize) -> bool) -> BitVec {
    let mut input = BitVec::new();
    for i in 0..length {
        input.push(on(i));
    }
    input
}

fn mask(active: &BitVec) -> Vec<u8> {
    active.iter().map(|bit| if bit { 1 } else { 0 }).collect()
}

fn pools(layer: &HTMLayer) -> Vec<Vec<usize>> {
    let mut all = Vec::new();
    for i in 0..layer.column_count() {
        let column = layer.column(i).unwrap();
        let mut pool = Vec::new();
        for s in 0..column.pool_size() {
            pool.push(column.synapse(s).unwrap().0);
        }
        all.push(pool);
    }
    all
}

fn permanences(layer: &HTMLayer) -> Vec<Vec<u64>> {
    let mut all = Vec::new();
    for i in 0..layer.column_count() {
        let column = layer.column(i).unwrap();
        let mut pool = Vec::new();
        for s in 0..column.pool_size() {
            pool.push(column.synapse(s).unwrap().1);
        }
        all.push(pool);
    }
    all
}

fn boosts(layer: &HTMLayer) -> Vec<u32> {
    (0..layer.column_count()).map(|i| layer.column(i).unwrap().boost()).collect()
}

fn active_duty_cycles(layer: &HTMLayer) -> Vec<u64> {
    (0..layer.column_count()).map(|i| layer.column(i).unwrap().active_duty_cycle()).collect()
}

fn overlap_duty_cycles(layer: &HTMLayer) -> Vec<u128> {
    (0..layer.column_count()).map(|i| layer.column(i).unwrap().overlap_duty_cycle()).collect()
}

#[test]
fn a_new_pooler_is_wired_from_the_seed() {
    let mut rng = RandomSource::new(99);
    let layer = HTMLayer::new(small(), &mut rng).unwrap();
    assert_eq!(layer.column_count(), 12);
    assert_eq!(
        pools(&layer),
        vec![
            vec![7, 10, 14, 15],
            vec![0, 1, 3, 13],
            vec![6, 8, 10, 14],
            vec![0, 6, 10, 13],
            vec![1, 2, 3, 8],
            vec![0, 2, 5, 8],
            vec![1, 2, 5, 9],
            vec![3, 4, 7, 12],
            vec![7, 12, 13, 14],
            vec![0, 1, 6, 15],
            vec![3, 6, 9, 14],
            vec![1, 6, 12, 14],
        ]
    );
    assert_eq!(rng.state(), 12278733189936530515);
}

#[test]
fn a_new_pooler_starts_neutral() {
    let mut rng = RandomSource::new(3);
    let layer = HTMLayer::new(small(), &mut rng).unwrap();
    assert!(layer.is_well_formed());
    for i in 0..12 {
        assert!(layer.column(i).unwrap().is_well_formed(16, 4));
        assert!(!layer.column(i).unwrap().is_well_formed(16, 5));
    }
    assert_eq!(permanences(&layer), vec![vec![500_000u64; 4]; 12]);
    assert_eq!(boosts(&layer), vec![1u32; 12]);
    assert_eq!(active_duty_cycles(&layer), vec![0u64; 12]);
    assert_eq!(overlap_duty_cycles(&layer), vec![0u128; 12]);
    assert_eq!(layer.config().inhibition_radius, 3);
    assert_eq!(layer.config().stimulus_threshold, 500_000);
}

#[test]
fn pools_hold_distinct_positions_of_the_input() {
    for seed in 0..20u64 {
        let mut rng = RandomSource::new(seed);
        let layer = HTMLayer::new(small(), &mut rng).unwrap();
        for pool in pools(&layer) {
            assert_eq!(pool.len(), 4);
            for s in 0..pool.len() {
                assert!(pool[s] < 16);
                if s > 0 {
                    assert!(pool[s - 1] < pool[s]);
                }
            }
        }
    }
}

#[test]
fn a_pooler_without_columns() {
    let mut config = small();
    config.column_count = 0;
    let mut rng = RandomSource::new(1);
    let mut layer = HTMLayer::new(config, &mut rng).unwrap();
    assert_eq!(rng.state(), 1);
    assert_eq!(layer.column_count(), 0);
    assert!(layer.column(0).is_none());
    let active = layer.spatial_pooling_output(&input_of(16, |_| true)).unwrap();
    assert_eq!(active.len(), 0);
}

#[test]
fn radius_not_above_k_is_refused() {
    let mut config = small();
    config.inhibition_radius = 2;
    config.active_columns_per_area = 2;
    let mut rng = RandomSource::new(1);
    assert_eq!(
        HTMLayer::new(config, &mut rng).err(),
        Some(ConfigError::InhibitionRadiusTooSmall)
    );
    config.inhibition_radius = 1;
    assert_eq!(
        HTMLayer::new(config, &mut rng).err(),
        Some(ConfigError::InhibitionRadiusTooSmall)
    );
    config.inhibition_radius = 0;
    config.active_columns_per_area = 0;
    assert_eq!(
        HTMLayer::new(config, &mut rng).err(),
        Some(ConfigError::InhibitionRadiusTooSmall)
    );
    assert_eq!(config.validate(), Err(ConfigError::InhibitionRadiusTooSmall));
    // nothing was drawn
    assert_eq!(rng.state(), 1);
    config.inhibition_radius = 3;
    config.active_columns_per_area = 2;
    assert!(HTMLayer::new(config, &mut rng).is_ok());
}

#[test]
fn a_pool_larger_than_the_input_is_refused() {
    let mut config = small();
    config.potential_pool_size = 17;
    let mut rng = RandomSource::new(1);
    assert_eq!(HTMLayer::new(config, &mut rng).err(), Some(ConfigError::PotentialPoolTooLarge));
    assert_eq!(rng.state(), 1);
    config.potential_pool_size = 16;
    assert!(HTMLayer::new(config, &mut rng).is_ok());
}

#[test]
fn a_period_of_no_cycle_is_refused() {
    let mut config = small();
    config.duty_cycle_period = 0;
    let mut rng = RandomSource::new(1);
    assert_eq!(
        HTMLayer::new(config, &mut rng).err(),
        Some(ConfigError::DutyCyclePeriodTooShort)
    );
    assert_eq!(rng.state(), 1);
    config.duty_cycle_period = 1;
    assert!(HTMLayer::new(config, &mut rng).is_ok());
}

#[test]
fn the_first_failed_constraint_is_named() {
    let mut config = small();
    config.inhibition_radius = 2;
    config.potential_pool_size = 17;
    config.duty_cycle_period = 0;
    assert_eq!(config.validate(), Err(ConfigError::InhibitionRadiusTooSmall));
    config.inhibition_radius = 3;
    assert_eq!(config.validate(), Err(ConfigError::PotentialPoolTooLarge));
    config.potential_pool_size = 4;
    assert_eq!(config.validate(), Err(ConfigError::DutyCyclePeriodTooShort));
    config.duty_cycle_period = 3;
    assert_eq!(config.validate(), Ok(()));
}

#[test]
fn overlap_counts_the_bits_that_are_on() {
    let mut rng = RandomSource::new(99);
    let layer = HTMLayer::new(small(), &mut rng).unwrap();
    let input = input_of(16, |i| i % 3 != 0);
    assert_eq!(layer.overlap(&input), Ok(vec![3, 2, 3, 2, 3, 3, 3, 2, 3, 1, 1, 2]));
    assert_eq!(layer.overlap(&input_of(16, |_| false)), Ok(vec![0; 12]));
    assert_eq!(layer.overlap(&input_of(16, |_| true)), Ok(vec![4; 12]));
}

#[test]
fn overlap_is_the_count_times_the_boost() {
    let mut rng = RandomSource::new(99);
    let mut layer = HTMLayer::new(small(), &mut rng).unwrap();
    let all = input_of(16, |_| true);
    // every column ties with its neighbors: none is active, all are boosted
    assert_eq!(mask(&layer.spatial_pooling_output(&all).unwrap()), vec![0; 12]);
    assert_eq!(boosts(&layer), vec![2; 12]);
    assert_eq!(layer.overlap(&all), Ok(vec![8; 12]));
    assert_eq!(mask(&layer.spatial_pooling_output(&all).unwrap()), vec![0; 12]);
    assert_eq!(boosts(&layer), vec![3; 12]);
    assert_eq!(layer.overlap(&all), Ok(vec![12; 12]));
}

#[test]
fn overlap_does_not_change_the_pooler() {
    let mut rng = RandomSource::new(99);
    let mut layer = HTMLayer::new(small(), &mut rng).unwrap();
    let input = input_of(16, |i| i % 3 != 0);
    layer.spatial_pooling_output(&input).unwrap();
    let before = (
        permanences(&layer),
        boosts(&layer),
        active_duty_cycles(&layer),
        overlap_duty_cycles(&layer),
    );
    let first = layer.overlap(&input).unwrap();
    let second = layer.overlap(&input).unwrap();
    assert_eq!(first, second);
    let after = (
        permanences(&layer),
        boosts(&layer),
        active_duty_cycles(&layer),
        overlap_duty_cycles(&layer),
    );
    assert_eq!(before, after);
}

#[test]
fn four_cycles_of_a_small_pooler() {
    let mut rng = RandomSource::new(99);
    let mut layer = HTMLayer::new(small(), &mut rng).unwrap();
    let thirds = input_of(16, |i| i % 3 != 0);
    let half = input_of(16, |i| i < 8);
    let even = input_of(16, |i| i % 2 == 0);

    assert_eq!(layer.overlap(&thirds), Ok(vec![3, 2, 3, 2, 3, 3, 3, 2, 3, 1, 1, 2]));
    let first = layer.spatial_pooling_output(&thirds).unwrap();
    assert_eq!(mask(&first), vec![1, 0, 0, 0, 0, 0, 0, 0, 0, 0, 0, 1]);

    assert_eq!(layer.overlap(&half), Ok(vec![2, 0, 0, 0, 6, 6, 6, 6, 0, 0, 0, 4]));
    let second = layer.spatial_pooling_output(&half).unwrap();
    assert_eq!(mask(&second), vec![1, 0, 0, 0, 0, 0, 0, 0, 0, 0, 0, 1]);

    assert_eq!(layer.overlap(&thirds), Ok(vec![9, 0, 0, 0, 9, 9, 9, 6, 0, 0, 0, 6]));
    let third = layer.spatial_pooling_output(&thirds).unwrap();
    assert_eq!(mask(&third), vec![1, 0, 0, 0, 0, 0, 0, 0, 0, 0, 0, 1]);

    assert_eq!(layer.overlap(&even), Ok(vec![8, 0, 0, 0, 8, 12, 4, 8, 0, 0, 0, 12]));
    let fourth = layer.spatial_pooling_output(&even).unwrap();
    assert_eq!(mask(&fourth), vec![1, 0, 0, 0, 0, 1, 0, 0, 0, 0, 0, 1]);

    assert_eq!(
        permanences(&layer),
        vec![
            vec![750000, 750000, 750000, 300000],
            vec![700000, 700000, 700000, 700000],
            vec![600000, 600000, 600000, 600000],
            vec![700000, 700000, 700000, 700000],
            vec![500000, 500000, 500000, 500000],
            vec![600000, 600000, 450000, 600000],
            vec![500000, 500000, 500000, 500000],
            vec![500000, 500000, 500000, 500000],
            vec![600000, 600000, 600000, 600000],
            vec![900000, 900000, 900000, 900000],
            vec![900000, 900000, 900000, 900000],
            vec![750000, 600000, 450000, 750000],
        ]
    );
    assert_eq!(boosts(&layer), vec![5, 0, 0, 0, 3, 5, 3, 3, 0, 0, 0, 5]);
    assert_eq!(
        active_duty_cycles(&layer),
        vec![802468, 0, 0, 0, 0, 333333, 0, 0, 0, 0, 0, 802468]
    );
    assert_eq!(
        overlap_duty_cycles(&layer),
        vec![
            5259258, 197530, 296296, 197530, 5851851, 7185184, 4518518, 5086419, 296296, 98765,
            98765, 6123456
        ]
    );
    // the wiring never changes
    let mut again = RandomSource::new(99);
    assert_eq!(pools(&layer), pools(&HTMLayer::new(small(), &mut again).unwrap()));
}

#[test]
fn a_single_column() {
    let config = Config {
        input_length: 4,
        column_count: 1,
        active_columns_per_area: 1,
        inhibition_radius: 2,
        potential_pool_size: 4,
        permanence_threshold: 500_000,
        permanence_increment: 100_000,
        permanence_decrement: 200_000,
        stimulus_threshold: 0,
        duty_cycle_period: 4,
        min_overlap_duty_cycle: 300_000,
    };
    let mut rng = RandomSource::new(5);
    let mut layer = HTMLayer::new(config, &mut rng).unwrap();
    assert_eq!(pools(&layer), vec![vec![0, 1, 2, 3]]);
    assert_eq!(layer.neighbors(0), Vec::<usize>::new());
    let mut input = BitVec::new();
    input.push(true);
    input.push(false);
    input.push(true);
    input.push(true);

    assert_eq!(layer.overlap(&input), Ok(vec![3]));
    assert_eq!(mask(&layer.spatial_pooling_output(&input).unwrap()), vec![1]);
    // raised where the bit is on, lowered where it is off
    assert_eq!(permanences(&layer), vec![vec![600_000, 300_000, 600_000, 600_000]]);
    // (0 * 3 + 1.0) / 4 and (0 * 3 + 3.0) / 4
    assert_eq!(active_duty_cycles(&layer), vec![250_000]);
    assert_eq!(overlap_duty_cycles(&layer), vec![750_000]);
    // a column without neighbors has no mean to reach
    assert_eq!(boosts(&layer), vec![0]);

    assert_eq!(layer.overlap(&input), Ok(vec![0]));
    assert_eq!(mask(&layer.spatial_pooling_output(&input).unwrap()), vec![0]);
    assert_eq!(permanences(&layer), vec![vec![600_000, 300_000, 600_000, 600_000]]);
    assert_eq!(active_duty_cycles(&layer), vec![187_500]);
    assert_eq!(overlap_duty_cycles(&layer), vec![562_500]);
    assert_eq!(boosts(&layer), vec![0]);

    layer.spatial_pooling_output(&input).unwrap();
    assert_eq!(active_duty_cycles(&layer), vec![140_625]);
    assert_eq!(overlap_duty_cycles(&layer), vec![421_875]);
    layer.spatial_pooling_output(&input).unwrap();
    assert_eq!(overlap_duty_cycles(&layer), vec![316_406]);
    assert_eq!(permanences(&layer), vec![vec![600_000, 300_000, 600_000, 600_000]]);
    // below the least overlap duty cycle: every permanence is raised
    layer.spatial_pooling_output(&input).unwrap();
    assert_eq!(overlap_duty_cycles(&layer), vec![237_304]);
    assert_eq!(permanences(&layer), vec![vec![700_000, 400_000, 700_000, 700_000]]);
}

#[test]
fn permanences_stop_at_zero_and_one() {
    let config = Config {
        input_length: 2,
        column_count: 1,
        active_columns_per_area: 1,
        inhibition_radius: 2,
        potential_pool_size: 2,
        permanence_threshold: 500_000,
        permanence_increment: 800_000,
        permanence_decrement: 700_000,
        stimulus_threshold: 0,
        duty_cycle_period: 1,
        min_overlap_duty_cycle: 0,
    };
    let mut rng = RandomSource::new(5);
    let mut layer = HTMLayer::new(config, &mut rng).unwrap();
    let mut input = BitVec::new();
    input.push(true);
    input.push(false);
    assert_eq!(mask(&layer.spatial_pooling_output(&input).unwrap()), vec![1]);
    assert_eq!(permanences(&layer), vec![vec![ONE, 0]]);
    // with a period of one cycle the duty cycles are the last cycle
    assert_eq!(active_duty_cycles(&layer), vec![ONE]);
    assert_eq!(overlap_duty_cycles(&layer), vec![ONE as u128]);
}

#[test]
fn input_of_another_length_is_refused() {
    let mut rng = RandomSource::new(99);
    let mut layer = HTMLayer::new(small(), &mut rng).unwrap();
    layer.spatial_pooling_output(&input_of(16, |i| i % 3 != 0)).unwrap();
    let before = (
        pools(&layer),
        permanences(&layer),
        boosts(&layer),
        active_duty_cycles(&layer),
        overlap_duty_cycles(&layer),
    );
    for length in [0usize, 1, 15, 17, 32] {
        let input = input_of(length, |_| true);
        assert_eq!(
            layer.spatial_pooling_output(&input).err(),
            Some(RuntimeError::InputLengthMismatch)
        );
        assert_eq!(layer.overlap(&input), Err(RuntimeError::InputLengthMismatch));
    }
    let after = (
        pools(&layer),
        permanences(&layer),
        boosts(&layer),
        active_duty_cycles(&layer),
        overlap_duty_cycles(&layer),
    );
    assert_eq!(before, after);
    assert!(layer.spatial_pooling_output(&input_of(16, |_| true)).is_ok());
}

#[test]
fn the_activation_has_a_bit_for_every_column() {
    let mut rng = RandomSource::new(8);
    let mut layer = HTMLayer::new(small(), &mut rng).unwrap();
    let active = layer.spatial_pooling_output(&input_of(16, |i| i % 2 == 1)).unwrap();
    assert_eq!(active.len(), 12);
}

#[test]
fn same_seed_same_poolers() {
    let mut config = small();
    config.column_count = 64;
    config.input_length = 100;
    config.potential_pool_size = 12;
    let mut first_rng = RandomSource::new(4242);
    let mut second_rng = RandomSource::new(4242);
    let mut first = HTMLayer::new(config, &mut first_rng).unwrap();
    let mut second = HTMLayer::new(config, &mut second_rng).unwrap();
    assert_eq!(pools(&first), pools(&second));
    let mut inputs = RandomSource::new(17);
    for _ in 0..25 {
        let mut input = BitVec::new();
        for _ in 0..100 {
            input.push(inputs.below(3) == 0);
        }
        let a = first.spatial_pooling_output(&input).unwrap();
        let b = second.spatial_pooling_output(&input).unwrap();
        assert_eq!(a, b);
    }
    assert_eq!(permanences(&first), permanences(&second));
    assert_eq!(boosts(&first), boosts(&second));
    assert_eq!(active_duty_cycles(&first), active_duty_cycles(&second));
    assert_eq!(overlap_duty_cycles(&first), overlap_duty_cycles(&second));
    assert_eq!(first_rng.state(), second_rng.state());
}

#[test]
fn another_seed_another_wiring() {
    let mut a = RandomSource::new(1);
    let mut b = RandomSource::new(2);
    assert_ne!(
        pools(&HTMLayer::new(small(), &mut a).unwrap()),
        pools(&HTMLayer::new(small(), &mut b).unwrap())
    );
}

#[test]
fn ranges_hold_after_every_cycle() {
    let mut config = small();
    config.column_count = 40;
    config.input_length = 30;
    config.potential_pool_size = 9;
    config.permanence_increment = 270_000;
    config.permanence_decrement = 410_000;
    config.stimulus_threshold = 1_000_000;
    let mut rng = RandomSource::new(11);
    let mut layer = HTMLayer::new(config, &mut rng).unwrap();
    let wiring = pools(&layer);
    let mut inputs = RandomSource::new(12);
    for _ in 0..60 {
        let mut input = BitVec::new();
        for _ in 0..30 {
            input.push(inputs.below(2) == 0);
        }
        let overlap = layer.overlap(&input).unwrap();
        let boost_before = boosts(&layer);
        layer.spatial_pooling_output(&input).unwrap();
        assert!(layer.is_well_formed());
        assert_eq!(pools(&layer), wiring);
        for column in permanences(&layer) {
            assert_eq!(column.len(), 9);
            for permanence in column {
                assert!(permanence <= ONE);
            }
        }
        for duty in active_duty_cycles(&layer) {
            assert!(duty <= ONE);
        }
        let after = boosts(&layer);
        for i in 0..40 {
            assert!(overlap[i] <= 9 * boost_before[i] as u128);
            assert!(after[i] == boost_before[i] + 1 || after[i] + 1 == boost_before[i]
                || (after[i] == 0 && boost_before[i] == 0));
        }
    }
}

#[test]
fn an_overlap_duty_cycle_can_pass_one() {
    let mut rng = RandomSource::new(99);
    let mut layer = HTMLayer::new(small(), &mut rng).unwrap();
    layer.spatial_pooling_output(&input_of(16, |_| true)).unwrap();
    // (0 * 2 + 4.0) / 3
    assert_eq!(overlap_duty_cycles(&layer), vec![1_333_333; 12]);
}

#[test]
fn columns_that_see_only_off_bits_are_not_active() {
    let mut config = small();
    config.stimulus_threshold = -1;
    let mut rng = RandomSource::new(99);
    let mut layer = HTMLayer::new(config, &mut rng).unwrap();
    // only bit 4 is on: column 7 alone reaches it
    let input = input_of(16, |i| i == 4);
    assert_eq!(layer.overlap(&input), Ok(vec![0, 0, 0, 0, 0, 0, 0, 1, 0, 0, 0, 0]));
    let active = layer.spatial_pooling_output(&input).unwrap();
    assert_eq!(mask(&active), vec![0, 0, 0, 0, 0, 0, 0, 1, 0, 0, 0, 0]);
    let none = layer.spatial_pooling_output(&input_of(16, |_| false)).unwrap();
    assert_eq!(mask(&none), vec![0; 12]);
}

#[test]
fn two_cycles_on_one_input_stay_active() {
    let config = Config {
        input_length: 1000,
        column_count: 2048,
        active_columns_per_area: 8,
        inhibition_radius: 10,
        potential_pool_size: 10,
        permanence_threshold: 2_000_000,
        permanence_increment: 8_000_000,
        permanence_decrement: 2_000_000,
        stimulus_threshold: 1_000_000,
        duty_cycle_period: 4,
        min_overlap_duty_cycle: 2_000_000,
    };
    let mut rng = RandomSource::new(1);
    let mut layer = HTMLayer::new(config, &mut rng).unwrap();
    let input = input_of(1000, |i| i % 2 == 0);
    let first = layer.spatial_pooling_output(&input).unwrap();
    assert_eq!(first.len(), 2048);
    assert!(first.any());
    assert_eq!(first.iter().filter(|bit| *bit).count(), 552);
    let second = layer.spatial_pooling_output(&input).unwrap();
    assert_eq!(second.len(), 2048);
    assert!(second.any());
    assert_eq!(second.iter().filter(|bit| *bit).count(), 292);
    // no stretch of mutual neighbors holds more than eight active columns
    let bits: Vec<bool> = second.iter().collect();
    for from in 0..2048usize {
        let to = (from + 11).min(2048);
        assert!(bits[from..to].iter().filter(|bit| **bit).count() <= 8);
    }
}

#[test]
fn two_cycles_on_pairs_of_bits_stay_active() {
    let config = Config {
        input_length: 1000,
        column_count: 2048,
        active_columns_per_area: 8,
        inhibition_radius: 10,
        potential_pool_size: 10,
        permanence_threshold: 2_000_000,
        permanence_increment: 8_000_000,
        permanence_decrement: 2_000_000,
        stimulus_threshold: 1_000_000,
        duty_cycle_period: 4,
        min_overlap_duty_cycle: 2_000_000,
    };
    let mut rng = RandomSource::new(1);
    let mut layer = HTMLayer::new(config, &mut rng).unwrap();
    let input = input_of(1000, |i| (i / 2) % 2 == 0);
    let first = layer.spatial_pooling_output(&input).unwrap();
    assert_eq!(first.iter().filter(|bit| *bit).count(), 593);
    let second = layer.spatial_pooling_output(&input).unwrap();
    assert_eq!(second.iter().filter(|bit| *bit).count(), 319);
}

#[test]
fn rescue_raises_every_permanence() {
    let mut rng = RandomSource::new(99);
    let mut layer = HTMLayer::new(small(), &mut rng).unwrap();
    let on = input_of(16, |_| true);
    let off = input_of(16, |_| false);
    layer.spatial_pooling_output(&on).unwrap();
    layer.spatial_pooling_output(&on).unwrap();
    assert_eq!(layer.column(4).unwrap().overlap_duty_cycle(), 3_555_555);
    // the overlap duty cycle falls, cycle by cycle without overlap
    let falling: [u128; 5] = [2_370_370, 1_580_246, 1_053_497, 702_331, 468_220];
    for expected in falling {
        assert_eq!(mask(&layer.spatial_pooling_output(&off).unwrap()), vec![0; 12]);
        assert_eq!(layer.column(4).unwrap().overlap_duty_cycle(), expected);
        // not below the least yet: no rescue
        assert_eq!(permanences(&layer)[4], vec![500_000; 4]);
    }
    layer.spatial_pooling_output(&off).unwrap();
    assert_eq!(layer.column(4).unwrap().overlap_duty_cycle(), 312_146);
    assert!(layer.column(4).unwrap().overlap_duty_cycle() < 400_000);
    let before = permanences(&layer)[4].clone();
    assert_eq!(before, vec![600_000; 4]);
    assert_eq!(mask(&layer.spatial_pooling_output(&off).unwrap()), vec![0; 12]);
    let after = permanences(&layer)[4].clone();
    for s in 0..4 {
        assert!(after[s] > before[s]);
        assert_eq!(after[s], before[s] + 100_000);
    }
}

#[test]
fn neighbors_of_the_columns_of_a_pooler() {
    let mut rng = RandomSource::new(99);
    let layer = HTMLayer::new(small(), &mut rng).unwrap();
    assert_eq!(layer.neighbors(0), vec![1, 2, 3]);
    assert_eq!(layer.neighbors(5), vec![2, 3, 4, 6, 7, 8]);
    assert_eq!(layer.neighbors(11), vec![8, 9, 10]);
}

#[test]
fn synapses_past_the_pool_are_none() {
    let mut rng = RandomSource::new(99);
    let layer = HTMLayer::new(small(), &mut rng).unwrap();
    let column = layer.column(11).unwrap();
    assert_eq!(column.pool_size(), 4);
    assert_eq!(column.synapse(3), Some((14, 500_000)));
    assert_eq!(column.synapse(4), None);
    assert!(layer.column(12).is_none());
}
