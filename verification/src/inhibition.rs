//! Local competition: which columns are active, given their overlaps.
//!
//! A column competes with the columns within the inhibition radius of it.
//! It is active when its overlap exceeds the stimulus threshold and the
//! local threshold of its neighborhood, both strictly.

use crate::bits::{bits, empty_bits, push_bit};
use crate::config::Config;
use crate::scalar::ONE;
use bit_vec::BitVec;
use vstd::prelude::*;
use vstd::relations::{sorted_by, total_ordering};
use vstd::seq_lib::{lemma_sorted_unique, to_multiset_insert};

verus! {

/// Overlaps as numbers.
pub open spec fn scores(overlap: Seq<u128>) -> Seq<nat> {
    overlap.map_values(|v: u128| v as nat)
}

/// Column indices as numbers.
pub open spec fn indices(columns: Seq<usize>) -> Seq<int> {
    columns.map_values(|j: usize| j as int)
}

/// The first column within `radius` of column `i`.
pub open spec fn area_start(i: int, radius: int) -> int {
    if i >= radius {
        i - radius
    } else {
        0
    }
}

/// The column after the last one within `radius` of column `i`, among
/// `count` columns.
pub open spec fn area_end(i: int, radius: int, count: int) -> int {
    if i + radius < count {
        i + radius + 1
    } else {
        count
    }
}

/// The neighborhood of column `i`: the columns within `radius` of it, but
/// not `i` itself, in ascending order. It ends at the first and at the last
/// column and does not wrap around.
pub open spec fn neighborhood(i: int, radius: int, count: int) -> Seq<int>
    recommends
        0 <= i < count,
        0 <= radius,
{
    let start = area_start(i, radius);
    let end = area_end(i, radius, count);
    Seq::new((i - start) as nat, |t: int| start + t) + Seq::new(
        (end - i - 1) as nat,
        |t: int| i + 1 + t,
    )
}

/// The overlaps of the neighborhood of column `i`.
pub open spec fn neighbor_scores(overlap: Seq<nat>, i: int, radius: int) -> Seq<nat> {
    neighborhood(i, radius, overlap.len() as int).map_values(|j: int| overlap[j])
}

/// The order of the scores.
pub open spec fn at_most() -> spec_fn(nat, nat) -> bool {
    |a: nat, b: nat| a <= b
}

/// Whether a score is above zero.
pub open spec fn positive() -> spec_fn(nat) -> bool {
    |v: nat| v > 0
}

/// The positive overlaps of the neighborhood of column `i`, in ascending
/// order.
pub open spec fn ranked(overlap: Seq<nat>, i: int, radius: int) -> Seq<nat> {
    neighbor_scores(overlap, i, radius).filter(positive()).sort_by(at_most())
}

/// The local threshold of column `i`: the `k`-th largest of the positive
/// overlaps of its neighborhood; the smallest of them where they are fewer
/// than `k`; zero where there is none.
pub open spec fn local_threshold(overlap: Seq<nat>, i: int, radius: int, k: int) -> nat
    recommends
        0 <= i < overlap.len(),
        k >= 1,
{
    let rank = ranked(overlap, i, radius);
    if rank.len() == 0 {
        0
    } else if rank.len() < k {
        rank[0]
    } else {
        rank[rank.len() - k]
    }
}

/// Whether column `i` is active. Where no column may be active in an area
/// (`k` is 0), none is.
pub open spec fn is_active(overlap: Seq<nat>, i: int, config: Config) -> bool {
    &&& config.active_columns_per_area >= 1
    &&& overlap[i] * ONE > config.stimulus_threshold
    &&& overlap[i] > local_threshold(
        overlap,
        i,
        config.inhibition_radius as int,
        config.active_columns_per_area as int,
    )
}

/// The activation of all columns.
pub open spec fn activation(overlap: Seq<nat>, config: Config) -> Seq<bool> {
    Seq::new(overlap.len(), |i: int| is_active(overlap, i, config))
}

/// The columns that column `i` competes with, among `count` columns.
pub fn neighbors(i: usize, radius: usize, count: usize) -> (around: Vec<usize>)
    requires
        i < count,
    ensures
        indices(around@) == neighborhood(i as int, radius as int, count as int),
{
    let start: usize = if i >= radius {
        i - radius
    } else {
        0
    };
    let end: usize = if radius < count - i {
        i + radius + 1
    } else {
        count
    };
    let mut around: Vec<usize> = Vec::new();
    let mut j: usize = start;
    while j < i
        invariant
            start <= j <= i,
            around.len() == j - start,
            forall|t: int| 0 <= t < around.len() ==> around[t] == start + t,
        decreases i - j,
    {
        around.push(j);
        j += 1;
    }
    let mut j: usize = i + 1;
    while j < end
        invariant
            start <= i < end <= count,
            i + 1 <= j <= end,
            around.len() == (i - start) + (j - i - 1),
            forall|t: int| 0 <= t < i - start ==> around[t] == start + t,
            forall|t: int| i - start <= t < around.len() ==> around[t] == i + 1 + (t - (i - start)),
        decreases end - j,
    {
        around.push(j);
        j += 1;
    }
    assert(indices(around@) =~= neighborhood(i as int, radius as int, count as int));
    around
}

/// `<=` is a total order of the scores.
pub proof fn lemma_at_most_is_total()
    ensures
        total_ordering(at_most()),
{
    let r = at_most();
    assert(vstd::relations::reflexive(r));
    assert(vstd::relations::antisymmetric(r));
    assert(vstd::relations::transitive(r));
    assert(vstd::relations::strongly_connected(r));
}

/// Puts `score` into an ascending list, at its place.
pub fn insert_ascending(list: &mut Vec<u128>, score: u128)
    requires
        sorted_by(scores(old(list)@), at_most()),
    ensures
        sorted_by(scores(final(list)@), at_most()),
        scores(final(list)@).to_multiset() == scores(old(list)@).to_multiset().insert(
            score as nat,
        ),
        final(list).len() == old(list).len() + 1,
{
    let mut at: usize = 0;
    while at < list.len() && list[at] <= score
        invariant
            at <= list.len(),
            *list == *old(list),
            forall|t: int| 0 <= t < at ==> list[t] <= score,
        decreases list.len() - at,
    {
        at += 1;
    }
    let ghost before = scores(list@);
    list.insert(at, score);
    proof {
        let after = scores(list@);
        assert(after =~= before.insert(at as int, score as nat));
        to_multiset_insert(before, at as int, score as nat);
        assert forall|a: int, b: int| 0 <= a < b < after.len() implies (#[trigger] at_most()(
            after[a],
            after[b],
        )) by {
            if a < at && b > at {
                assert(at_most()(before[a], before[b - 1]));
            } else if a > at {
                assert(at_most()(before[a - 1], before[b - 1]));
            } else if b < at {
                assert(at_most()(before[a], before[b]));
            } else if a == at {
                assert(before[at as int] == old(list)[at as int]);
                if b - 1 > at {
                    assert(at_most()(before[at as int], before[b - 1]));
                }
            } else {
                assert(before[a] == old(list)[a]);
            }
        }
    }
}

/// The local threshold of column `i`.
pub fn local_threshold_of(overlap: &Vec<u128>, i: usize, radius: usize, k: usize) -> (t: u128)
    requires
        i < overlap.len(),
        k >= 1,
    ensures
        t as nat == local_threshold(scores(overlap@), i as int, radius as int, k as int),
{
    let around = neighbors(i, radius, overlap.len());
    let ghost all = neighbor_scores(scores(overlap@), i as int, radius as int);
    let mut rank: Vec<u128> = Vec::new();
    let mut n: usize = 0;
    assert(all.take(0).filter(positive()) =~= Seq::<nat>::empty());
    assert(scores(rank@) =~= Seq::<nat>::empty());
    while n < around.len()
        invariant
            n <= around.len(),
            i < overlap.len(),
            indices(around@) == neighborhood(i as int, radius as int, overlap.len() as int),
            all == neighbor_scores(scores(overlap@), i as int, radius as int),
            sorted_by(scores(rank@), at_most()),
            scores(rank@).to_multiset() == all.take(n as int).filter(positive()).to_multiset(),
        decreases around.len() - n,
    {
        proof {
            lemma_neighborhood_in_range(i as int, radius as int, overlap.len() as int, n as int);
            assert(indices(around@)[n as int] == around[n as int]);
        }
        let score: u128 = overlap[around[n]];
        proof {
            assert(all[n as int] == score as nat);
            assert(all.take(n + 1) =~= all.take(n as int).push(score as nat));
            all.take(n as int).lemma_filter_push(score as nat, positive());
        }
        if score > 0 {
            insert_ascending(&mut rank, score);
            proof {
                vstd::seq_lib::to_multiset_build(
                    all.take(n as int).filter(positive()),
                    score as nat,
                );
            }
        }
        n += 1;
    }
    proof {
        assert(all.take(n as int) =~= all);
        let wanted = all.filter(positive());
        lemma_at_most_is_total();
        wanted.lemma_sort_by_ensures(at_most());
        lemma_sorted_unique(scores(rank@), wanted.sort_by(at_most()), at_most());
        assert(scores(rank@) == ranked(scores(overlap@), i as int, radius as int));
    }
    if rank.len() == 0 {
        0
    } else if rank.len() < k {
        rank[0]
    } else {
        rank[rank.len() - k]
    }
}

/// Every member of a neighborhood is a column, and not the column itself.
pub proof fn lemma_neighborhood_in_range(i: int, radius: int, count: int, n: int)
    requires
        0 <= i < count,
        0 <= radius,
        0 <= n < neighborhood(i, radius, count).len(),
    ensures
        0 <= neighborhood(i, radius, count)[n] < count,
        neighborhood(i, radius, count)[n] != i,
        i - radius <= neighborhood(i, radius, count)[n] <= i + radius,
{
}

/// Whether `score` exceeds the stimulus threshold.
pub fn exceeds(score: u128, threshold: i64) -> (r: bool)
    ensures
        r == (score * ONE > threshold),
{
    if threshold < 0 {
        true
    } else {
        let whole: u128 = (threshold as u128) / (ONE as u128);
        assert(score > whole <==> score * ONE > threshold) by (nonlinear_arith)
            requires
                whole == (threshold as int) / (ONE as int),
                threshold >= 0,
                ONE == 1_000_000,
        ;
        score > whole
    }
}

/// The activation that the overlaps give.
pub fn select(overlap: &Vec<u128>, config: &Config) -> (active: BitVec<u32>)
    ensures
        bits(active) == activation(scores(overlap@), *config),
{
    let mut active = empty_bits();
    let k: usize = config.active_columns_per_area;
    let mut i: usize = 0;
    while i < overlap.len()
        invariant
            i <= overlap.len(),
            k == config.active_columns_per_area,
            bits(active).len() == i,
            forall|j: int|
                0 <= j < i ==> bits(active)[j] == is_active(scores(overlap@), j, *config),
        decreases overlap.len() - i,
    {
        let mut on: bool = false;
        if k >= 1 && exceeds(overlap[i], config.stimulus_threshold) {
            let threshold: u128 = local_threshold_of(overlap, i, config.inhibition_radius, k);
            on = overlap[i] > threshold;
        }
        assert(scores(overlap@)[i as int] == overlap[i as int]);
        push_bit(&mut active, on);
        i += 1;
    }
    assert(bits(active) =~= activation(scores(overlap@), *config));
    active
}

} // verus!
