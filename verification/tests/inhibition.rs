use bit_vec::BitVec;
use my_htm::inhibition::{exceeds, local_threshold_of, neighbors, select};
use my_htm::{Config, RandomSource};

fn config(k: usize, radius: usize, stimulus_threshold: i64) -> Config {
    Config {
        input_length: 8,
        column_count: 8,
        active_columns_per_area: k,
        inhibition_radius: radius,
        potential_pool_size: 4,
        permanence_threshold: 500_000,
        permanence_increment: 100_000,
        permanence_decrement: 50_000,
        stimulus_threshold,
        duty_cycle_period: 4,
        min_overlap_duty_cycle: 0,
    }
}

fn mask(active: &BitVec) -> Vec<bool> {
    active.iter().collect()
}

fn ones(bits: &[u8]) -> Vec<bool> {
    bits.iter().map(|b| *b == 1).collect()
}

#[test]
fn neighbors_in_the_middle() {
    assert_eq!(neighbors(5, 2, 10), vec![3, 4, 6, 7]);
    assert_eq!(neighbors(5, 1, 10), vec![4, 6]);
}

#[test]
fn neighbors_end_at_the_edges() {
    assert_eq!(neighbors(0, 3, 10), vec![1, 2, 3]);
    assert_eq!(neighbors(1, 3, 10), vec![0, 2, 3, 4]);
    assert_eq!(neighbors(9, 3, 10), vec![6, 7, 8]);
    assert_eq!(neighbors(8, 3, 10), vec![5, 6, 7, 9]);
}

#[test]
fn neighbors_of_a_wide_radius_are_all_others() {
    assert_eq!(neighbors(2, 100, 5), vec![0, 1, 3, 4]);
    assert_eq!(neighbors(2, usize::MAX, 5), vec![0, 1, 3, 4]);
    assert_eq!(neighbors(0, usize::MAX, 1), Vec::<usize>::new());
}

#[test]
fn neighbors_of_radius_zero_are_none() {
    assert_eq!(neighbors(3, 0, 7), Vec::<usize>::new());
}

#[test]
fn threshold_is_the_kth_largest() {
    let overlap: Vec<u128> = vec![3, 9, 4, 0, 7, 7, 1, 2];
    // neighbors of 2 within 3: 3 9 0 7 7; positive, ascending: 3 7 7 9
    assert_eq!(local_threshold_of(&overlap, 2, 3, 1), 9);
    assert_eq!(local_threshold_of(&overlap, 2, 3, 2), 7);
    assert_eq!(local_threshold_of(&overlap, 2, 3, 3), 7);
    assert_eq!(local_threshold_of(&overlap, 2, 3, 4), 3);
    let all: Vec<u128> = (0..8).map(|i| local_threshold_of(&overlap, i, 3, 2)).collect();
    assert_eq!(all, vec![4, 4, 7, 7, 7, 4, 7, 7]);
}

#[test]
fn threshold_is_the_smallest_where_fewer_than_k_are_positive() {
    let overlap: Vec<u128> = vec![3, 9, 4, 0, 7, 7, 1, 2];
    assert_eq!(local_threshold_of(&overlap, 2, 3, 5), 3);
    assert_eq!(local_threshold_of(&overlap, 2, 3, 100), 3);
    // neighbors of 7 within 4: 0 7 7 1
    assert_eq!(local_threshold_of(&overlap, 7, 4, 3), 1);
    assert_eq!(local_threshold_of(&overlap, 7, 4, 4), 1);
}

#[test]
fn threshold_is_zero_where_none_is_positive() {
    let overlap: Vec<u128> = vec![0, 0, 6, 0, 0];
    assert_eq!(local_threshold_of(&overlap, 2, 2, 1), 0);
    assert_eq!(local_threshold_of(&overlap, 2, 2, 3), 0);
    let alone: Vec<u128> = vec![6];
    assert_eq!(local_threshold_of(&alone, 0, 2, 1), 0);
}

#[test]
fn threshold_leaves_out_the_column_itself() {
    let overlap: Vec<u128> = vec![1, 50, 2];
    assert_eq!(local_threshold_of(&overlap, 1, 1, 1), 2);
    assert_eq!(local_threshold_of(&overlap, 0, 1, 1), 50);
}

#[test]
fn exceeds_is_strict() {
    assert!(exceeds(2, 1_000_000));
    assert!(!exceeds(1, 1_000_000));
    assert!(exceeds(1, 999_999));
    assert!(!exceeds(1, 1_000_001));
    assert!(!exceeds(0, 0));
    assert!(exceeds(1, 0));
}

#[test]
fn exceeds_a_negative_threshold_always() {
    assert!(exceeds(0, -1));
    assert!(exceeds(0, i64::MIN));
    assert!(exceeds(u128::MAX, -5));
}

#[test]
fn exceeds_takes_large_values() {
    assert!(exceeds(u128::MAX, i64::MAX));
    assert!(exceeds(9_223_372_036_855, i64::MAX));
    assert!(!exceeds(9_223_372_036_854, i64::MAX));
}

#[test]
fn select_takes_the_best_of_each_neighborhood() {
    let overlap: Vec<u128> = vec![3, 9, 4, 0, 7, 7, 1, 2];
    let active = select(&overlap, &config(2, 3, 1_500_000));
    assert_eq!(active.len(), 8);
    assert_eq!(mask(&active), ones(&[0, 1, 0, 0, 0, 1, 0, 0]));
    let wide = select(&overlap, &config(3, 4, -1));
    assert_eq!(mask(&wide), ones(&[0, 1, 0, 0, 1, 1, 0, 1]));
}

#[test]
fn select_of_no_overlaps_is_empty() {
    let active = select(&Vec::new(), &config(2, 3, 0));
    assert_eq!(active.len(), 0);
}

#[test]
fn ties_lose() {
    let overlap: Vec<u128> = vec![4, 4, 4, 4, 4];
    let active = select(&overlap, &config(1, 2, 0));
    assert_eq!(mask(&active), ones(&[0, 0, 0, 0, 0]));
    // with two allowed, the second best of every neighborhood is 4 as well
    let two = select(&overlap, &config(2, 3, 0));
    assert_eq!(mask(&two), ones(&[0, 0, 0, 0, 0]));
}

#[test]
fn stimulus_threshold_is_a_floor() {
    let overlap: Vec<u128> = vec![1, 0, 0, 0, 2, 0, 0, 0, 3];
    assert_eq!(mask(&select(&overlap, &config(1, 2, 0))), ones(&[1, 0, 0, 0, 1, 0, 0, 0, 1]));
    assert_eq!(
        mask(&select(&overlap, &config(1, 2, 1_000_000))),
        ones(&[0, 0, 0, 0, 1, 0, 0, 0, 1])
    );
    assert_eq!(
        mask(&select(&overlap, &config(1, 2, 2_500_000))),
        ones(&[0, 0, 0, 0, 0, 0, 0, 0, 1])
    );
    assert_eq!(
        mask(&select(&overlap, &config(1, 2, 3_000_000))),
        ones(&[0, 0, 0, 0, 0, 0, 0, 0, 0])
    );
}

#[test]
fn columns_without_overlap_are_never_active() {
    let overlap: Vec<u128> = vec![0, 0, 5, 0, 0, 0];
    for stimulus in [-1_000_000i64, -1, 0, 1] {
        for k in 0..4usize {
            let active = mask(&select(&overlap, &config(k, 4, stimulus)));
            for i in [0usize, 1, 3, 4, 5] {
                assert!(!active[i]);
            }
        }
    }
    let none: Vec<u128> = vec![0, 0, 0];
    assert_eq!(mask(&select(&none, &config(1, 2, -7))), ones(&[0, 0, 0]));
}

#[test]
fn nothing_is_active_where_no_column_may_be() {
    let overlap: Vec<u128> = vec![3, 9, 4, 0, 7, 7, 1, 2];
    let active = select(&overlap, &config(0, 3, -1));
    assert_eq!(mask(&active), ones(&[0, 0, 0, 0, 0, 0, 0, 0]));
}

#[test]
fn a_column_alone_is_active_on_any_overlap() {
    let alone: Vec<u128> = vec![1];
    assert_eq!(mask(&select(&alone, &config(1, 2, 0))), ones(&[1]));
    assert_eq!(mask(&select(&alone, &config(1, 2, 1_000_000))), ones(&[0]));
}

#[test]
fn at_most_k_are_active_among_mutual_neighbors() {
    let mut rng = RandomSource::new(2718);
    for round in 0..60usize {
        let count = 1 + round % 37;
        let radius = 1 + round % 6;
        let k = round % (radius + 1);
        let overlap: Vec<u128> = (0..count).map(|_| rng.below(7) as u128).collect();
        let active = mask(&select(&overlap, &config(k, radius, 0)));
        for from in 0..count {
            let to = (from + radius + 1).min(count);
            let held = active[from..to].iter().filter(|a| **a).count();
            assert!(held <= k);
        }
    }
}

#[test]
fn a_whole_neighborhood_may_hold_more_than_k() {
    // columns 0 and 3 are both neighbors of column 2, but not of each other
    let overlap: Vec<u128> = vec![5, 0, 0, 5, 0, 0, 5];
    let active = mask(&select(&overlap, &config(1, 2, 0)));
    assert_eq!(active, ones(&[1, 0, 0, 1, 0, 0, 1]));
}
