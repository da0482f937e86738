//! The pooler: its construction, and the cycle that turns an input into an
//! activation and adapts the columns.

use crate::bits::{bit_at, bit_count, bits};
use crate::column::{fresh, lemma_fresh_wf, lemma_overlap_bounded, Column, ColumnView, BOOST_MAX};
use crate::config::{Config, ConfigError};
use crate::cycle::{
    adapted, after_activity, after_learning, after_overlap, after_regulation, duty_sum,
    lemma_after_activity_wf, lemma_after_learning_wf, lemma_after_overlap_wf,
    lemma_after_regulation_wf, output, overlaps, step,
};
use crate::inhibition::{
    indices, lemma_neighborhood_in_range, neighborhood, neighbors, scores, select,
};
use crate::random::{advance_by, lemma_advance_by_sum, RandomSource};
use crate::scalar::ONE;
use crate::wiring::{lemma_sampled_is_a_pool, sample_pool, sampled};
use bit_vec::BitVec;
use vstd::prelude::*;

verus! {

/// Why a cycle was not run.
#[derive(Clone, Copy, Debug, PartialEq, Eq, Structural)]
pub enum RuntimeError {
    /// The input has not as many bits as the pooler was configured for.
    InputLengthMismatch,
}

/// A spatial pooler: a layer of columns over a binary input.
#[derive(Debug)]
pub struct HTMLayer {
    config: Config,
    columns: Vec<Column>,
}

/// A pooler as numbers.
pub struct LayerView {
    /// The configuration.
    pub config: Config,
    /// The columns, in order.
    pub columns: Seq<ColumnView>,
}

impl View for HTMLayer {
    type V = LayerView;

    closed spec fn view(&self) -> LayerView {
        LayerView { config: self.config, columns: self.columns@.map_values(|c: Column| c@) }
    }
}

impl LayerView {
    /// What holds of a pooler for its whole life: its configuration is
    /// valid, it has as many columns as configured, and every column keeps
    /// its ranges.
    pub open spec fn wf(self) -> bool {
        &&& self.config.valid()
        &&& self.columns.len() == self.config.column_count
        &&& forall|i: int|
            0 <= i < self.columns.len() ==> (#[trigger] self.columns[i]).wf(
                self.config.input_length as nat,
                self.config.potential_pool_size as nat,
            )
    }
}

/// The columns of a new pooler. The pool of column `c` is drawn after
/// those of the columns before it.
pub open spec fn wired(config: Config, seed: u64) -> Seq<ColumnView> {
    Seq::new(
        config.column_count as nat,
        |c: int|
            fresh(
                sampled(
                    advance_by(seed, (c * config.potential_pool_size) as nat),
                    config.input_length as nat,
                    config.potential_pool_size as nat,
                ),
            ),
    )
}

/// The pooler that a valid configuration and a random source in the state
/// `seed` give.
pub open spec fn constructed(config: Config, seed: u64) -> LayerView {
    LayerView { config, columns: wired(config, seed) }
}

/// A new pooler keeps the ranges.
pub proof fn lemma_constructed_wf(config: Config, seed: u64)
    requires
        config.valid(),
    ensures
        constructed(config, seed).wf(),
{
    let layer = constructed(config, seed);
    assert forall|i: int| 0 <= i < layer.columns.len() implies (#[trigger] layer.columns[i]).wf(
        config.input_length as nat,
        config.potential_pool_size as nat,
    ) by {
        let state = advance_by(seed, (i * config.potential_pool_size) as nat);
        lemma_sampled_is_a_pool(
            state,
            config.input_length as nat,
            config.potential_pool_size as nat,
        );
        lemma_fresh_wf(
            sampled(state, config.input_length as nat, config.potential_pool_size as nat),
            config.input_length as nat,
        );
    }
}

/// The sum of the active duty cycles depends on the active duty cycles
/// alone.
pub proof fn lemma_duty_sum_same(a: Seq<ColumnView>, b: Seq<ColumnView>, around: Seq<int>)
    requires
        a.len() == b.len(),
        forall|j: int|
            0 <= j < a.len() ==> (#[trigger] a[j]).active_duty_cycle == b[j].active_duty_cycle,
        forall|n: int| 0 <= n < around.len() ==> 0 <= (#[trigger] around[n]) < a.len(),
    ensures
        duty_sum(a, around) == duty_sum(b, around),
    decreases around.len(),
{
    if around.len() > 0 {
        lemma_duty_sum_same(a, b, around.drop_last());
    }
}

impl HTMLayer {
    /// What holds of every pooler (see `LayerView::wf`).
    pub open spec fn wf(&self) -> bool {
        self@.wf()
    }

    /// Makes a pooler, and wires its columns with numbers drawn from `rng`.
    ///
    /// A configuration that fails a constraint is refused, and nothing is
    /// drawn.
    pub fn new(config: Config, rng: &mut RandomSource) -> (r: Result<HTMLayer, ConfigError>)
        ensures
            r.is_ok() <==> config.valid(),
            r matches Err(e) ==> config.violation() == Some(e) && final(rng)@ == old(rng)@,
            r matches Ok(layer) ==> layer@ == constructed(config, old(rng)@) && layer.wf()
                && final(rng)@ == advance_by(
                old(rng)@,
                (config.column_count * config.potential_pool_size) as nat,
            ),
    {
        match config.validate() {
            Err(e) => {
                return Err(e);
            },
            Ok(()) => {},
        }
        let ghost seed = rng@;
        let size: usize = config.potential_pool_size;
        let mut columns: Vec<Column> = Vec::new();
        let mut c: usize = 0;
        while c < config.column_count
            invariant
                c <= config.column_count,
                size == config.potential_pool_size,
                size <= config.input_length,
                columns.len() == c,
                rng@ == advance_by(seed, (c * size) as nat),
                forall|j: int| 0 <= j < c ==> (#[trigger] columns[j])@ == wired(config, seed)[j],
            decreases config.column_count - c,
        {
            let pool = sample_pool(rng, config.input_length, size);
            proof {
                lemma_advance_by_sum(seed, (c * size) as nat, size as nat);
                assert((c + 1) * size == c * size + size) by (nonlinear_arith);
                assert(c * size >= 0) by (nonlinear_arith)
                    requires
                        c >= 0,
                        size >= 0,
                ;
            }
            columns.push(Column::new(&pool));
            c += 1;
        }
        let layer = HTMLayer { config, columns };
        proof {
            assert(layer@.columns =~= wired(config, seed));
            lemma_constructed_wf(config, seed);
        }
        Ok(layer)
    }

    /// The overlap of every column with an input. Nothing of the pooler
    /// changes.
    pub fn overlap(&self, input: &BitVec<u32>) -> (r: Result<Vec<u128>, RuntimeError>)
        requires
            self.wf(),
        ensures
            r.is_ok() <==> bits(*input).len() == self@.config.input_length,
            r matches Err(e) ==> e == RuntimeError::InputLengthMismatch,
            r matches Ok(overlap) ==> scores(overlap@) == overlaps(self@.columns, bits(*input)),
    {
        if bit_count(input) != self.config.input_length {
            return Err(RuntimeError::InputLengthMismatch);
        }
        let mut overlap: Vec<u128> = Vec::new();
        let mut i: usize = 0;
        while i < self.columns.len()
            invariant
                self.wf(),
                bits(*input).len() == self@.config.input_length,
                i <= self.columns.len(),
                overlap.len() == i,
                forall|j: int|
                    0 <= j < i ==> overlap[j] as nat == overlaps(self@.columns, bits(*input))[j],
            decreases self.columns.len() - i,
        {
            assert(self@.columns[i as int] == self.columns[i as int]@);
            let score: u128 = self.columns[i].overlap(input);
            overlap.push(score);
            i += 1;
        }
        assert(scores(overlap@) =~= overlaps(self@.columns, bits(*input)));
        Ok(overlap)
    }

    /// Runs one cycle: gives the activation for an input, and adapts the
    /// columns to it.
    ///
    /// An input of another length than configured is refused, and the
    /// pooler stays as it is.
    pub fn spatial_pooling_output(&mut self, input: &BitVec<u32>) -> (r: Result<
        BitVec<u32>,
        RuntimeError,
    >)
        requires
            old(self).wf(),
        ensures
            final(self).wf(),
            r.is_ok() <==> bits(*input).len() == old(self)@.config.input_length,
            r matches Err(e) ==> e == RuntimeError::InputLengthMismatch && *final(self) == *old(
                self,
            ),
            r matches Ok(active) ==> bits(active) == output(old(self)@, bits(*input))
                && final(self)@ == step(old(self)@, bits(*input)),
    {
        let overlap: Vec<u128> = match self.overlap(input) {
            Ok(overlap) => overlap,
            Err(e) => {
                return Err(e);
            },
        };
        let active = select(&overlap, &self.config);
        proof {
            assert forall|i: int| 0 <= i < overlap.len() implies overlap[i]
                <= self@.config.potential_pool_size * BOOST_MAX by {
                assert(scores(overlap@)[i] == overlap[i]);
                lemma_overlap_bounded(self@.columns[i], bits(*input));
            }
        }
        self.spatial_pooling_learning(&active, &overlap, input);
        Ok(active)
    }

    /// Adapts the columns to a cycle: the active columns learn, then every
    /// column takes the cycle into its duty cycles, then its boost is
    /// adjusted and it is rescued where its overlap has been too rare.
    fn spatial_pooling_learning(
        &mut self,
        active: &BitVec<u32>,
        overlap: &Vec<u128>,
        input: &BitVec<u32>,
    )
        requires
            old(self).wf(),
            bits(*active).len() == old(self)@.columns.len(),
            overlap.len() == old(self)@.columns.len(),
            bits(*input).len() == old(self)@.config.input_length,
            forall|i: int|
                0 <= i < overlap.len() ==> overlap[i] <= old(self)@.config.potential_pool_size
                    * BOOST_MAX,
        ensures
            final(self).wf(),
            final(self)@.config == old(self)@.config,
            final(self)@.columns == adapted(
                old(self)@.columns,
                bits(*active),
                scores(overlap@),
                bits(*input),
                old(self)@.config,
            ),
    {
        self.learn(active, input);
        self.update_active_duty_cycle(active);
        self.update_overlap_duty_cycle(overlap);
        self.regulate();
    }

    /// Lets the active columns learn from the input.
    fn learn(&mut self, active: &BitVec<u32>, input: &BitVec<u32>)
        requires
            old(self).wf(),
            bits(*active).len() == old(self)@.columns.len(),
            bits(*input).len() == old(self)@.config.input_length,
        ensures
            final(self).wf(),
            final(self)@.config == old(self)@.config,
            final(self)@.columns == after_learning(
                old(self)@.columns,
                bits(*active),
                bits(*input),
                old(self)@.config,
            ),
    {
        let ghost base = self@.columns;
        let ghost goal = after_learning(base, bits(*active), bits(*input), self@.config);
        let mut i: usize = 0;
        while i < self.columns.len()
            invariant
                old(self).wf(),
                base == old(self)@.columns,
                goal == after_learning(base, bits(*active), bits(*input), old(self)@.config),
                self.config == old(self).config,
                self.columns.len() == base.len(),
                bits(*active).len() == base.len(),
                bits(*input).len() == old(self)@.config.input_length,
                i <= self.columns.len(),
                forall|j: int| 0 <= j < i ==> (#[trigger] self.columns[j])@ == goal[j],
                forall|j: int|
                    i <= j < self.columns.len() ==> (#[trigger] self.columns[j])@ == base[j],
            decreases self.columns.len() - i,
        {
            let on: bool = match bit_at(active, i) {
                Some(bit) => bit,
                None => false,
            };
            if on {
                assert(base[i as int].wf(
                    old(self)@.config.input_length as nat,
                    old(self)@.config.potential_pool_size as nat,
                ));
                self.columns[i].learn(
                    input,
                    self.config.permanence_increment,
                    self.config.permanence_decrement,
                );
            }
            i += 1;
        }
        proof {
            assert(self@.columns =~= goal);
            lemma_after_learning_wf(old(self)@, bits(*active), bits(*input));
        }
    }

    /// Takes the activation into the active duty cycle of every column.
    fn update_active_duty_cycle(&mut self, active: &BitVec<u32>)
        requires
            old(self).wf(),
            bits(*active).len() == old(self)@.columns.len(),
        ensures
            final(self).wf(),
            final(self)@.config == old(self)@.config,
            final(self)@.columns == after_activity(
                old(self)@.columns,
                bits(*active),
                old(self)@.config,
            ),
    {
        let ghost base = self@.columns;
        let ghost goal = after_activity(base, bits(*active), self@.config);
        let mut i: usize = 0;
        while i < self.columns.len()
            invariant
                old(self).wf(),
                base == old(self)@.columns,
                goal == after_activity(base, bits(*active), old(self)@.config),
                self.config == old(self).config,
                self.columns.len() == base.len(),
                bits(*active).len() == base.len(),
                i <= self.columns.len(),
                forall|j: int| 0 <= j < i ==> (#[trigger] self.columns[j])@ == goal[j],
                forall|j: int|
                    i <= j < self.columns.len() ==> (#[trigger] self.columns[j])@ == base[j],
            decreases self.columns.len() - i,
        {
            let on: bool = match bit_at(active, i) {
                Some(bit) => bit,
                None => false,
            };
            assert(base[i as int].wf(
                old(self)@.config.input_length as nat,
                old(self)@.config.potential_pool_size as nat,
            ));
            self.columns[i].record_activity(on, self.config.duty_cycle_period);
            i += 1;
        }
        proof {
            assert(self@.columns =~= goal);
            lemma_after_activity_wf(old(self)@, bits(*active));
        }
    }

    /// Takes the overlaps into the overlap duty cycle of every column.
    fn update_overlap_duty_cycle(&mut self, overlap: &Vec<u128>)
        requires
            old(self).wf(),
            overlap.len() == old(self)@.columns.len(),
            forall|i: int|
                0 <= i < overlap.len() ==> overlap[i] <= old(self)@.config.potential_pool_size
                    * BOOST_MAX,
        ensures
            final(self).wf(),
            final(self)@.config == old(self)@.config,
            final(self)@.columns == after_overlap(
                old(self)@.columns,
                scores(overlap@),
                old(self)@.config,
            ),
    {
        let ghost base = self@.columns;
        let ghost goal = after_overlap(base, scores(overlap@), self@.config);
        let mut i: usize = 0;
        while i < self.columns.len()
            invariant
                old(self).wf(),
                base == old(self)@.columns,
                goal == after_overlap(base, scores(overlap@), old(self)@.config),
                self.config == old(self).config,
                self.columns.len() == base.len(),
                overlap.len() == base.len(),
                forall|j: int|
                    0 <= j < overlap.len() ==> overlap[j] <= old(
                        self,
                    )@.config.potential_pool_size * BOOST_MAX,
                i <= self.columns.len(),
                forall|j: int| 0 <= j < i ==> (#[trigger] self.columns[j])@ == goal[j],
                forall|j: int|
                    i <= j < self.columns.len() ==> (#[trigger] self.columns[j])@ == base[j],
            decreases self.columns.len() - i,
        {
            assert(base[i as int].wf(
                old(self)@.config.input_length as nat,
                old(self)@.config.potential_pool_size as nat,
            ));
            assert(scores(overlap@)[i as int] == overlap[i as int]);
            self.columns[i].record_overlap(overlap[i], self.config.duty_cycle_period);
            i += 1;
        }
        proof {
            assert(self@.columns =~= goal);
            lemma_after_overlap_wf(old(self)@, scores(overlap@));
        }
    }

    /// The sum of the active duty cycles of the columns `around`.
    fn sum_of_duties(&self, around: &Vec<usize>) -> (sum: u128)
        requires
            forall|n: int| 0 <= n < around.len() ==> around[n] < self@.columns.len(),
            forall|j: int|
                0 <= j < self@.columns.len() ==> (#[trigger] self@.columns[j]).active_duty_cycle
                    <= ONE,
        ensures
            sum == duty_sum(self@.columns, indices(around@)),
            sum <= around.len() * ONE,
    {
        let mut sum: u128 = 0;
        let mut n: usize = 0;
        let ghost all = indices(around@);
        assert(all.take(0) =~= Seq::<int>::empty());
        while n < around.len()
            invariant
                n <= around.len(),
                all == indices(around@),
                sum == duty_sum(self@.columns, all.take(n as int)),
                sum <= n * ONE,
                forall|m: int| 0 <= m < around.len() ==> around[m] < self@.columns.len(),
                forall|j: int|
                    0 <= j < self@.columns.len() ==> (#[trigger] self@.columns[j]).active_duty_cycle
                        <= ONE,
            decreases around.len() - n,
        {
            let j: usize = around[n];
            proof {
                assert(all.take(n + 1).drop_last() =~= all.take(n as int));
                assert(all.take(n + 1).last() == j);
                assert(self@.columns[j as int] == self.columns[j as int]@);
            }
            let duty: u64 = self.columns[j].active_duty_cycle();
            sum = sum + duty as u128;
            n += 1;
        }
        assert(all.take(n as int) =~= all);
        sum
    }

    /// Adjusts the boost of every column, and rescues the columns whose
    /// overlap has been too rare.
    fn regulate(&mut self)
        requires
            old(self).wf(),
        ensures
            final(self).wf(),
            final(self)@.config == old(self)@.config,
            final(self)@.columns == after_regulation(old(self)@.columns, old(self)@.config),
    {
        let ghost base = self@.columns;
        let ghost goal = after_regulation(base, self@.config);
        let count: usize = self.columns.len();
        let mut i: usize = 0;
        while i < count
            invariant
                old(self).wf(),
                base == old(self)@.columns,
                goal == after_regulation(base, old(self)@.config),
                self.config == old(self).config,
                self.columns.len() == count,
                count == base.len(),
                i <= count,
                forall|j: int| 0 <= j < i ==> (#[trigger] self.columns[j])@ == goal[j],
                forall|j: int| i <= j < count ==> (#[trigger] self.columns[j])@ == base[j],
            decreases count - i,
        {
            let around = neighbors(i, self.config.inhibition_radius, count);
            proof {
                assert forall|j: int| 0 <= j < count implies (
                #[trigger] self@.columns[j]).active_duty_cycle
                    == base[j].active_duty_cycle && base[j].active_duty_cycle <= ONE by {
                    assert(self@.columns[j] == self.columns[j]@);
                    assert(base[j].wf(
                        old(self)@.config.input_length as nat,
                        old(self)@.config.potential_pool_size as nat,
                    ));
                }
                assert forall|n: int| 0 <= n < around.len() implies around[n] < count by {
                    lemma_neighborhood_in_range(
                        i as int,
                        self.config.inhibition_radius as int,
                        count as int,
                        n,
                    );
                    assert(indices(around@)[n] == around[n]);
                }
                lemma_duty_sum_same(self@.columns, base, indices(around@));
            }
            let sum: u128 = self.sum_of_duties(&around);
            assert(self@.columns[i as int] == self.columns[i as int]@);
            let own: u128 = self.columns[i].active_duty_cycle() as u128;
            assert(own * around.len() <= ONE * usize::MAX) by (nonlinear_arith)
                requires
                    own <= ONE,
                    around.len() <= usize::MAX,
            ;
            let up: bool = around.len() > 0 && own * (around.len() as u128) >= sum;
            assert(base[i as int].wf(
                old(self)@.config.input_length as nat,
                old(self)@.config.potential_pool_size as nat,
            ));
            self.columns[i].adjust_boost(up);
            if self.columns[i].overlap_duty_cycle() < self.config.min_overlap_duty_cycle as u128 {
                self.columns[i].rescue(self.config.permanence_increment);
            }
            i += 1;
        }
        proof {
            assert(self@.columns =~= goal);
            lemma_after_regulation_wf(old(self)@);
        }
    }

    /// Whether the pooler is well-formed. Every pooler that `new` has made
    /// is, and stays so.
    pub fn is_well_formed(&self) -> (r: bool)
        ensures
            r == self.wf(),
    {
        if self.config.validate().is_err() || self.columns.len() != self.config.column_count {
            return false;
        }
        let mut i: usize = 0;
        while i < self.columns.len()
            invariant
                i <= self.columns.len(),
                forall|j: int|
                    0 <= j < i ==> (#[trigger] self@.columns[j]).wf(
                        self@.config.input_length as nat,
                        self@.config.potential_pool_size as nat,
                    ),
            decreases self.columns.len() - i,
        {
            assert(self@.columns[i as int] == self.columns[i as int]@);
            if !self.columns[i].is_well_formed(
                self.config.input_length,
                self.config.potential_pool_size,
            ) {
                return false;
            }
            i += 1;
        }
        true
    }

    /// The columns that column `i` competes with.
    pub fn neighbors(&self, i: usize) -> (around: Vec<usize>)
        requires
            i < self@.columns.len(),
        ensures
            indices(around@) == neighborhood(
                i as int,
                self@.config.inhibition_radius as int,
                self@.columns.len() as int,
            ),
    {
        neighbors(i, self.config.inhibition_radius, self.columns.len())
    }

    /// The configuration.
    pub fn config(&self) -> (config: &Config)
        ensures
            *config == self@.config,
    {
        &self.config
    }

    /// The number of columns.
    pub fn column_count(&self) -> (count: usize)
        ensures
            count == self@.columns.len(),
    {
        self.columns.len()
    }

    /// Column `i`, where there is one.
    pub fn column(&self, i: usize) -> (r: Option<&Column>)
        ensures
            r.is_some() <==> i < self@.columns.len(),
            r matches Some(column) ==> column@ == self@.columns[i as int],
    {
        if i < self.columns.len() {
            Some(&self.columns[i])
        } else {
            None
        }
    }
}

} // verus!
