//! What one cycle does to the columns, phase by phase: learning, the duty
//! cycles, then boosting and rescue.

use crate::column::{
    boosted, learned, lemma_learned_wf, lemma_recorded_wf, lemma_rescued_wf, overlap_score,
    recorded_activity, recorded_overlap, rescued, ColumnView, BOOST_MAX,
};
use crate::config::Config;
use crate::inhibition::{activation, neighborhood};
use crate::layer::LayerView;
use vstd::prelude::*;

verus! {

/// The overlap of every column with an input.
pub open spec fn overlaps(columns: Seq<ColumnView>, input: Seq<bool>) -> Seq<nat> {
    Seq::new(columns.len(), |i: int| overlap_score(columns[i], input))
}

/// The columns after learning: the active ones have learned from the
/// input, the others are as they were.
pub open spec fn after_learning(
    columns: Seq<ColumnView>,
    active: Seq<bool>,
    input: Seq<bool>,
    config: Config,
) -> Seq<ColumnView> {
    Seq::new(
        columns.len(),
        |i: int|
            if active[i] {
                learned(
                    columns[i],
                    input,
                    config.permanence_increment as nat,
                    config.permanence_decrement as nat,
                )
            } else {
                columns[i]
            },
    )
}

/// The columns after their active duty cycles have taken in the
/// activation.
pub open spec fn after_activity(
    columns: Seq<ColumnView>,
    active: Seq<bool>,
    config: Config,
) -> Seq<ColumnView> {
    Seq::new(
        columns.len(),
        |i: int| recorded_activity(columns[i], active[i], config.duty_cycle_period as nat),
    )
}

/// The columns after their overlap duty cycles have taken in the overlaps.
pub open spec fn after_overlap(
    columns: Seq<ColumnView>,
    overlap: Seq<nat>,
    config: Config,
) -> Seq<ColumnView> {
    Seq::new(
        columns.len(),
        |i: int| recorded_overlap(columns[i], overlap[i], config.duty_cycle_period as nat),
    )
}

/// The sum of the active duty cycles of the columns `around`.
pub open spec fn duty_sum(columns: Seq<ColumnView>, around: Seq<int>) -> nat
    decreases around.len(),
{
    if around.len() == 0 {
        0
    } else {
        duty_sum(columns, around.drop_last()) + columns[around.last()].active_duty_cycle
    }
}

/// Whether the active duty cycle of column `i` is at least the mean of
/// those of its neighborhood. The mean is taken exactly; a column without
/// neighbors has none to reach.
pub open spec fn reaches_mean(columns: Seq<ColumnView>, i: int, radius: int) -> bool {
    let around = neighborhood(i, radius, columns.len() as int);
    around.len() > 0 && columns[i].active_duty_cycle * around.len() >= duty_sum(columns, around)
}

/// Column `i` after boosting and rescue: its boost goes one step up where
/// its active duty cycle reaches the mean of its neighborhood, and one step
/// down where not; and all its permanences are raised where its overlap
/// duty cycle is below the least that is asked.
pub open spec fn regulated(columns: Seq<ColumnView>, i: int, config: Config) -> ColumnView {
    let column = boosted(columns[i], reaches_mean(columns, i, config.inhibition_radius as int));
    if column.overlap_duty_cycle < config.min_overlap_duty_cycle {
        rescued(column, config.permanence_increment as nat)
    } else {
        column
    }
}

/// The columns after boosting and rescue.
pub open spec fn after_regulation(columns: Seq<ColumnView>, config: Config) -> Seq<ColumnView> {
    Seq::new(columns.len(), |i: int| regulated(columns, i, config))
}

/// The columns after the three phases that follow the activation.
pub open spec fn adapted(
    columns: Seq<ColumnView>,
    active: Seq<bool>,
    overlap: Seq<nat>,
    input: Seq<bool>,
    config: Config,
) -> Seq<ColumnView> {
    after_regulation(
        after_overlap(
            after_activity(after_learning(columns, active, input, config), active, config),
            overlap,
            config,
        ),
        config,
    )
}

/// Learning keeps what holds of every pooler.
pub proof fn lemma_after_learning_wf(layer: LayerView, active: Seq<bool>, input: Seq<bool>)
    requires
        layer.wf(),
    ensures
        (LayerView {
            config: layer.config,
            columns: after_learning(layer.columns, active, input, layer.config),
        }).wf(),
{
    let after = after_learning(layer.columns, active, input, layer.config);
    assert forall|i: int| 0 <= i < after.len() implies (#[trigger] after[i]).wf(
        layer.config.input_length as nat,
        layer.config.potential_pool_size as nat,
    ) by {
        assert(layer.columns[i].wf(
            layer.config.input_length as nat,
            layer.config.potential_pool_size as nat,
        ));
        lemma_learned_wf(
            layer.columns[i],
            input,
            layer.config.permanence_increment as nat,
            layer.config.permanence_decrement as nat,
            layer.config.input_length as nat,
            layer.config.potential_pool_size as nat,
        );
    }
}

/// Taking an activation into the active duty cycles keeps what holds of
/// every pooler.
pub proof fn lemma_after_activity_wf(layer: LayerView, active: Seq<bool>)
    requires
        layer.wf(),
    ensures
        (LayerView {
            config: layer.config,
            columns: after_activity(layer.columns, active, layer.config),
        }).wf(),
{
    let after = after_activity(layer.columns, active, layer.config);
    assert forall|i: int| 0 <= i < after.len() implies (#[trigger] after[i]).wf(
        layer.config.input_length as nat,
        layer.config.potential_pool_size as nat,
    ) by {
        assert(layer.columns[i].wf(
            layer.config.input_length as nat,
            layer.config.potential_pool_size as nat,
        ));
        assert(0 <= layer.columns[i].pool.len() * BOOST_MAX) by (nonlinear_arith);
        lemma_recorded_wf(
            layer.columns[i],
            active[i],
            0,
            layer.config.duty_cycle_period as nat,
            layer.config.input_length as nat,
            layer.config.potential_pool_size as nat,
        );
    }
}

/// Taking overlaps into the overlap duty cycles keeps what holds of every
/// pooler, as long as each overlap is one that its column can have.
pub proof fn lemma_after_overlap_wf(layer: LayerView, overlap: Seq<nat>)
    requires
        layer.wf(),
        overlap.len() == layer.columns.len(),
        forall|i: int|
            0 <= i < overlap.len() ==> overlap[i] <= layer.config.potential_pool_size
                * BOOST_MAX,
    ensures
        (LayerView {
            config: layer.config,
            columns: after_overlap(layer.columns, overlap, layer.config),
        }).wf(),
{
    let after = after_overlap(layer.columns, overlap, layer.config);
    assert forall|i: int| 0 <= i < after.len() implies (#[trigger] after[i]).wf(
        layer.config.input_length as nat,
        layer.config.potential_pool_size as nat,
    ) by {
        assert(layer.columns[i].wf(
            layer.config.input_length as nat,
            layer.config.potential_pool_size as nat,
        ));
        lemma_recorded_wf(
            layer.columns[i],
            false,
            overlap[i],
            layer.config.duty_cycle_period as nat,
            layer.config.input_length as nat,
            layer.config.potential_pool_size as nat,
        );
    }
}

/// Boosting and rescue keep what holds of every pooler.
pub proof fn lemma_after_regulation_wf(layer: LayerView)
    requires
        layer.wf(),
    ensures
        (LayerView {
            config: layer.config,
            columns: after_regulation(layer.columns, layer.config),
        }).wf(),
{
    let after = after_regulation(layer.columns, layer.config);
    assert forall|i: int| 0 <= i < after.len() implies (#[trigger] after[i]).wf(
        layer.config.input_length as nat,
        layer.config.potential_pool_size as nat,
    ) by {
        assert(layer.columns[i].wf(
            layer.config.input_length as nat,
            layer.config.potential_pool_size as nat,
        ));
        let column = boosted(
            layer.columns[i],
            reaches_mean(layer.columns, i, layer.config.inhibition_radius as int),
        );
        assert(column.inputs() =~= layer.columns[i].inputs());
        lemma_rescued_wf(
            column,
            layer.config.permanence_increment as nat,
            layer.config.input_length as nat,
            layer.config.potential_pool_size as nat,
        );
    }
}

/// The activation that a pooler gives for an input.
pub open spec fn output(layer: LayerView, input: Seq<bool>) -> Seq<bool> {
    activation(overlaps(layer.columns, input), layer.config)
}

/// The pooler after a cycle on an input.
pub open spec fn step(layer: LayerView, input: Seq<bool>) -> LayerView {
    LayerView {
        config: layer.config,
        columns: adapted(
            layer.columns,
            output(layer, input),
            overlaps(layer.columns, input),
            input,
            layer.config,
        ),
    }
}

/// The pooler after a cycle on each of `inputs`, in order.
pub open spec fn run(layer: LayerView, inputs: Seq<Seq<bool>>) -> LayerView
    decreases inputs.len(),
{
    if inputs.len() == 0 {
        layer
    } else {
        step(run(layer, inputs.drop_last()), inputs.last())
    }
}

/// The activations that a pooler gives for `inputs`, one cycle after the
/// other.
pub open spec fn outputs(layer: LayerView, inputs: Seq<Seq<bool>>) -> Seq<Seq<bool>> {
    Seq::new(inputs.len(), |n: int| output(run(layer, inputs.take(n)), inputs[n]))
}

} // verus!
