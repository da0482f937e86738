//! What holds of the pooler as a whole.

use crate::column::{lemma_no_hits, lemma_overlap_bounded, overlap_score, ColumnView, BOOST_MAX};
use crate::config::Config;
use crate::counting::{
    count_reaching, lemma_count_reaching_add, lemma_count_reaching_bounded,
    lemma_count_reaching_permuted, lemma_count_reaching_positive,
};
use crate::cycle::{
    after_activity, after_learning, after_overlap, lemma_after_activity_wf,
    lemma_after_learning_wf, lemma_after_overlap_wf, lemma_after_regulation_wf, output, outputs,
    overlaps, run, step,
};
use crate::inhibition::{
    activation, area_end, area_start, at_most, is_active, lemma_at_most_is_total,
    neighbor_scores, positive, ranked, scores,
};
use crate::layer::{constructed, lemma_constructed_wf, LayerView};
use crate::scalar::{lemma_moving_average_between, moving_average, ONE};
use vstd::prelude::*;

verus! {

/// Determinism: two poolers made from the same configuration and the same
/// seed give the same activations for the same inputs, and are in the same
/// state after them.
pub proof fn lemma_same_seed_same_run(
    config: Config,
    seed: u64,
    inputs: Seq<Seq<bool>>,
    first: LayerView,
    second: LayerView,
)
    requires
        first == constructed(config, seed),
        second == constructed(config, seed),
    ensures
        outputs(first, inputs) == outputs(second, inputs),
        run(first, inputs) == run(second, inputs),
{
}

/// A cycle keeps what holds of every pooler.
pub proof fn lemma_step_keeps_ranges(layer: LayerView, input: Seq<bool>)
    requires
        layer.wf(),
    ensures
        step(layer, input).wf(),
{
    let config = layer.config;
    let active = output(layer, input);
    let overlap = overlaps(layer.columns, input);
    let learned = LayerView {
        config,
        columns: after_learning(layer.columns, active, input, config),
    };
    lemma_after_learning_wf(layer, active, input);
    let timed = LayerView { config, columns: after_activity(learned.columns, active, config) };
    lemma_after_activity_wf(learned, active);
    assert forall|i: int| 0 <= i < overlap.len() implies overlap[i] <= config.potential_pool_size
        * BOOST_MAX by {
        assert(layer.columns[i].wf(
            config.input_length as nat,
            config.potential_pool_size as nat,
        ));
        lemma_overlap_bounded(layer.columns[i], input);
    }
    let averaged = LayerView { config, columns: after_overlap(timed.columns, overlap, config) };
    lemma_after_overlap_wf(timed, overlap);
    lemma_after_regulation_wf(averaged);
}

/// Any number of cycles keep what holds of every pooler.
pub proof fn lemma_run_keeps_ranges(layer: LayerView, inputs: Seq<Seq<bool>>)
    requires
        layer.wf(),
    ensures
        run(layer, inputs).wf(),
    decreases inputs.len(),
{
    if inputs.len() > 0 {
        lemma_run_keeps_ranges(layer, inputs.drop_last());
        lemma_step_keeps_ranges(run(layer, inputs.drop_last()), inputs.last());
    }
}

/// The ranges: after any cycles, whatever the inputs were, every
/// permanence lies between 0 and 1, every active duty cycle lies between 0
/// and 1, no boost is negative or above what a column can hold, and every
/// overlap duty cycle lies between 0 and the largest overlap that the
/// column can have.
pub proof fn lemma_ranges(
    config: Config,
    seed: u64,
    inputs: Seq<Seq<bool>>,
    column: int,
    synapse: int,
)
    requires
        config.valid(),
        0 <= column < config.column_count,
        0 <= synapse < config.potential_pool_size,
    ensures
        ({
            let after = run(constructed(config, seed), inputs).columns[column];
            &&& after.pool.len() == config.potential_pool_size
            &&& 0 <= after.pool[synapse].permanence <= ONE
            &&& after.pool[synapse].input < config.input_length
            &&& 0 <= after.active_duty_cycle <= ONE
            &&& 0 <= after.boost <= BOOST_MAX
            &&& 0 <= after.overlap_duty_cycle <= config.potential_pool_size * BOOST_MAX * ONE
        }),
{
    lemma_constructed_wf(config, seed);
    lemma_run_keeps_ranges(constructed(config, seed), inputs);
    let layer = run(constructed(config, seed), inputs);
    lemma_run_keeps_configuration(constructed(config, seed), inputs);
    assert(layer.columns[column].wf(
        config.input_length as nat,
        config.potential_pool_size as nat,
    ));
}

/// The configuration of a pooler never changes.
pub proof fn lemma_run_keeps_configuration(layer: LayerView, inputs: Seq<Seq<bool>>)
    ensures
        run(layer, inputs).config == layer.config,
    decreases inputs.len(),
{
    if inputs.len() > 0 {
        lemma_run_keeps_configuration(layer, inputs.drop_last());
    }
}

/// The wiring never changes: a cycle leaves the number of columns, the
/// size of every pool and the input bit of every synapse as they are.
pub proof fn lemma_step_keeps_wiring(layer: LayerView, input: Seq<bool>, column: int)
    requires
        0 <= column < layer.columns.len(),
    ensures
        step(layer, input).columns.len() == layer.columns.len(),
        step(layer, input).columns[column].inputs() == layer.columns[column].inputs(),
{
    assert(step(layer, input).columns[column].inputs() =~= layer.columns[column].inputs());
}

/// The wiring is the same after any number of cycles.
pub proof fn lemma_run_keeps_wiring(layer: LayerView, inputs: Seq<Seq<bool>>, column: int)
    requires
        0 <= column < layer.columns.len(),
    ensures
        run(layer, inputs).columns.len() == layer.columns.len(),
        run(layer, inputs).columns[column].inputs() == layer.columns[column].inputs(),
    decreases inputs.len(),
{
    if inputs.len() > 0 {
        lemma_run_keeps_wiring(layer, inputs.drop_last(), column);
        lemma_step_keeps_wiring(run(layer, inputs.drop_last()), inputs.last(), column);
    }
}

/// An overlap duty cycle between 0 and 1 stays there in a cycle in which
/// the overlap of its column is at most 1.
pub proof fn lemma_overlap_duty_cycle_in_unit_range(duty: nat, overlap: nat, period: nat)
    requires
        duty <= ONE,
        overlap <= 1,
        period >= 1,
    ensures
        moving_average(duty, overlap * (ONE as nat), period) <= ONE,
{
    assert(overlap * (ONE as nat) <= ONE) by (nonlinear_arith)
        requires
            overlap <= 1,
    ;
    lemma_moving_average_between(duty, overlap * (ONE as nat), period);
}

/// Overlap purity: two overlap vectors taken of the same columns and the
/// same input are the same.
pub proof fn lemma_overlap_repeatable(
    columns: Seq<ColumnView>,
    input: Seq<bool>,
    first: Seq<u128>,
    second: Seq<u128>,
)
    requires
        scores(first) == overlaps(columns, input),
        scores(second) == overlaps(columns, input),
    ensures
        first == second,
{
    assert(first.len() == scores(first).len());
    assert(second.len() == scores(second).len());
    assert forall|i: int| 0 <= i < first.len() implies first[i] == second[i] by {
        assert(scores(first)[i] == first[i] as nat);
        assert(scores(second)[i] == second[i] as nat);
    }
    assert(first =~= second);
}

/// A column without overlap is not active, whatever the stimulus
/// threshold is.
pub proof fn lemma_no_overlap_not_active(overlap: Seq<nat>, config: Config, i: int)
    requires
        0 <= i < overlap.len(),
        overlap[i] == 0,
    ensures
        !is_active(overlap, i, config),
        !activation(overlap, config)[i],
{
}

/// A column whose synapses all reach input bits that are off has the
/// overlap 0 and is not active in that cycle.
pub proof fn lemma_silent_column_not_active(layer: LayerView, input: Seq<bool>, i: int)
    requires
        0 <= i < layer.columns.len(),
        forall|s: int|
            0 <= s < layer.columns[i].pool.len() ==> !input[(
            #[trigger] layer.columns[i].pool[s]).input as int],
    ensures
        overlaps(layer.columns, input)[i] == 0,
        !output(layer, input)[i],
{
    lemma_no_hits(layer.columns[i].pool, input);
    assert(overlap_score(layer.columns[i], input) == 0) by (nonlinear_arith)
        requires
            overlap_score(layer.columns[i], input) == 0 * layer.columns[i].boost,
    ;
}

/// The number of active columns from column `from` up to, but without,
/// column `to`.
pub open spec fn active_count(active: Seq<bool>, from: int, to: int) -> nat
    decreases to - from,
{
    if from >= to {
        0
    } else {
        active_count(active, from, to - 1) + if active[to - 1] {
            1nat
        } else {
            0nat
        }
    }
}

/// The overlaps of the neighborhood of a column are those of the columns
/// before it and those of the columns after it.
pub proof fn lemma_neighbor_scores_split(overlap: Seq<nat>, i: int, radius: int)
    requires
        0 <= i < overlap.len(),
        0 <= radius,
    ensures
        neighbor_scores(overlap, i, radius) == overlap.subrange(area_start(i, radius), i)
            + overlap.subrange(i + 1, area_end(i, radius, overlap.len() as int)),
{
    assert(neighbor_scores(overlap, i, radius) =~= overlap.subrange(area_start(i, radius), i)
        + overlap.subrange(i + 1, area_end(i, radius, overlap.len() as int)));
}

/// An active column is among the best of its neighborhood: fewer than `k`
/// of its neighbors have an overlap that reaches its own.
pub proof fn lemma_active_outranks(overlap: Seq<nat>, config: Config, i: int)
    requires
        0 <= i < overlap.len(),
        is_active(overlap, i, config),
    ensures
        count_reaching(neighbor_scores(overlap, i, config.inhibition_radius as int), overlap[i])
            < config.active_columns_per_area,
{
    let radius = config.inhibition_radius as int;
    let k = config.active_columns_per_area as int;
    let own = overlap[i];
    let around = neighbor_scores(overlap, i, radius);
    let wanted = around.filter(positive());
    let rank = ranked(overlap, i, radius);
    lemma_at_most_is_total();
    wanted.lemma_sort_by_ensures(at_most());
    vstd::seq_lib::to_multiset_len(wanted);
    vstd::seq_lib::to_multiset_len(rank);
    lemma_count_reaching_positive(around, own);
    lemma_count_reaching_permuted(wanted, rank, own);
    if rank.len() < k {
        lemma_count_reaching_bounded(rank, own, 0);
    } else {
        let at = rank.len() - k;
        assert forall|j: int| 0 <= j < at + 1 implies rank[j] < own by {
            if j < at {
                assert(at_most()(rank[j], rank[at]));
            }
        }
        lemma_count_reaching_bounded(rank, own, at + 1);
    }
}

/// No more columns are active in a stretch than have an overlap that
/// reaches `v`, where every active column of the stretch has one.
pub proof fn lemma_active_count_bounded(
    overlap: Seq<nat>,
    active: Seq<bool>,
    from: int,
    to: int,
    v: nat,
)
    requires
        0 <= from <= to <= overlap.len(),
        forall|j: int| from <= j < to && active[j] ==> overlap[j] >= v,
    ensures
        active_count(active, from, to) <= count_reaching(overlap.subrange(from, to), v),
    decreases to - from,
{
    if from < to {
        lemma_active_count_bounded(overlap, active, from, to - 1, v);
        assert(overlap.subrange(from, to).drop_last() =~= overlap.subrange(from, to - 1));
    }
}

/// The active columns of a stretch are those of its two parts.
pub proof fn lemma_active_count_split(active: Seq<bool>, from: int, mid: int, to: int)
    requires
        from <= mid <= to,
    ensures
        active_count(active, from, to) == active_count(active, from, mid) + active_count(
            active,
            mid,
            to,
        ),
    decreases to - mid,
{
    if mid < to {
        lemma_active_count_split(active, from, mid, to - 1);
    }
}

/// A wider stretch has no fewer overlaps that reach `v`.
pub proof fn lemma_count_reaching_wider(
    overlap: Seq<nat>,
    outer_from: int,
    from: int,
    to: int,
    outer_to: int,
    v: nat,
)
    requires
        0 <= outer_from <= from <= to <= outer_to <= overlap.len(),
    ensures
        count_reaching(overlap.subrange(from, to), v) <= count_reaching(
            overlap.subrange(outer_from, outer_to),
            v,
        ),
{
    let left = overlap.subrange(outer_from, from);
    let mid = overlap.subrange(from, to);
    let right = overlap.subrange(to, outer_to);
    assert(overlap.subrange(outer_from, outer_to) =~= (left + mid) + right);
    lemma_count_reaching_add(left, mid, v);
    lemma_count_reaching_add(left + mid, right, v);
}

/// Among the active columns of a stretch that has one, one has the least
/// overlap.
pub proof fn lemma_least_active(overlap: Seq<nat>, active: Seq<bool>, from: int, to: int) -> (m:
    int)
    requires
        0 <= from <= to <= overlap.len(),
        active_count(active, from, to) > 0,
    ensures
        from <= m < to,
        active[m],
        forall|j: int| from <= j < to && active[j] ==> overlap[m] <= overlap[j],
    decreases to - from,
{
    if active_count(active, from, to - 1) > 0 {
        let least = lemma_least_active(overlap, active, from, to - 1);
        if active[to - 1] && overlap[to - 1] < overlap[least] {
            to - 1
        } else {
            least
        }
    } else {
        lemma_none_active(active, from, to - 1);
        to - 1
    }
}

/// In a stretch without active columns no column is active.
pub proof fn lemma_none_active(active: Seq<bool>, from: int, to: int)
    requires
        active_count(active, from, to) == 0,
    ensures
        forall|j: int| from <= j < to ==> !active[j],
    decreases to - from,
{
    if from < to {
        lemma_none_active(active, from, to - 1);
    }
}

/// Sparsity: among columns that all lie within the inhibition radius of
/// each other, which any `radius + 1` columns in a row do, at most `k` are
/// active.
pub proof fn lemma_sparse_activation(overlap: Seq<nat>, config: Config, from: int, to: int)
    requires
        0 <= from <= to <= overlap.len(),
        to - from <= config.inhibition_radius + 1,
    ensures
        active_count(activation(overlap, config), from, to) <= config.active_columns_per_area,
{
    let active = activation(overlap, config);
    if active_count(active, from, to) > 0 {
        let m = lemma_least_active(overlap, active, from, to);
        let own = overlap[m];
        let radius = config.inhibition_radius as int;
        let start = area_start(m, radius);
        let end = area_end(m, radius, overlap.len() as int);
        lemma_active_outranks(overlap, config, m);
        lemma_neighbor_scores_split(overlap, m, radius);
        lemma_count_reaching_add(overlap.subrange(start, m), overlap.subrange(m + 1, end), own);
        lemma_active_count_split(active, from, m, to);
        lemma_active_count_split(active, m, m + 1, to);
        assert(active_count(active, m, m + 1) == 1) by {
            assert(active_count(active, m, m) == 0);
        }
        lemma_active_count_bounded(overlap, active, from, m, own);
        lemma_active_count_bounded(overlap, active, m + 1, to, own);
        lemma_count_reaching_wider(overlap, start, from, m, m, own);
        lemma_count_reaching_wider(overlap, m + 1, m + 1, to, end, own);
    }
}

/// A column and its neighborhood together hold at most `2 * k` active
/// columns: they are two stretches of mutual neighbors.
pub proof fn lemma_sparse_neighborhood(overlap: Seq<nat>, config: Config, i: int)
    requires
        0 <= i < overlap.len(),
    ensures
        active_count(
            activation(overlap, config),
            area_start(i, config.inhibition_radius as int),
            area_end(i, config.inhibition_radius as int, overlap.len() as int),
        ) <= 2 * config.active_columns_per_area,
{
    let radius = config.inhibition_radius as int;
    let start = area_start(i, radius);
    let end = area_end(i, radius, overlap.len() as int);
    lemma_active_count_split(activation(overlap, config), start, i + 1, end);
    lemma_sparse_activation(overlap, config, start, i + 1);
    lemma_sparse_activation(overlap, config, i + 1, end);
}

} // verus!
