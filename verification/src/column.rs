//! A column: its potential pool of synapses, its boost and its duty cycles.

use crate::bits::{bit_at, bits};
use crate::scalar::{
    average_step, lemma_moving_average_between, lower, lowered, moving_average, raise, raised,
    ONE,
};
use crate::wiring::{ascending, lemma_ascending_by_steps, positions};
use bit_vec::BitVec;
use vstd::prelude::*;

verus! {

/// The permanence of a new synapse: 0.5.
pub const HALF: u64 = 500_000;

/// The largest boost that a column can hold.
pub const BOOST_MAX: u32 = 0xFFFF_FFFF;

/// A synapse: the input bit that it reaches, and its permanence.
#[derive(Clone, Copy, Debug)]
pub struct Synapse {
    input: usize,
    permanence: u64,
}

/// A synapse as numbers.
pub struct SynapseView {
    /// The position of the input bit that the synapse reaches.
    pub input: nat,
    /// The permanence, from 0 to `ONE`.
    pub permanence: nat,
}

impl View for Synapse {
    type V = SynapseView;

    closed spec fn view(&self) -> SynapseView {
        SynapseView { input: self.input as nat, permanence: self.permanence as nat }
    }
}

/// A column.
#[derive(Debug)]
pub struct Column {
    pool: Vec<Synapse>,
    boost: u32,
    active_duty_cycle: u64,
    overlap_duty_cycle: u128,
}

/// A column as numbers.
pub struct ColumnView {
    /// The potential pool, in ascending order of the input positions.
    pub pool: Seq<SynapseView>,
    /// The factor by which the column's overlap is multiplied.
    pub boost: nat,
    /// The moving average of the column's activity, from 0 to `ONE`.
    pub active_duty_cycle: nat,
    /// The moving average of the column's overlap, in fixed point.
    pub overlap_duty_cycle: nat,
}

impl View for Column {
    type V = ColumnView;

    closed spec fn view(&self) -> ColumnView {
        ColumnView {
            pool: self.pool@.map_values(|s: Synapse| s@),
            boost: self.boost as nat,
            active_duty_cycle: self.active_duty_cycle as nat,
            overlap_duty_cycle: self.overlap_duty_cycle as nat,
        }
    }
}

impl ColumnView {
    /// The input positions of the pool.
    pub open spec fn inputs(self) -> Seq<nat> {
        self.pool.map_values(|s: SynapseView| s.input)
    }

    /// The ranges that a column of a pooler keeps: a pool of `pool_size`
    /// synapses that reach different bits of an input of `input_length`
    /// bits, permanences and active duty cycle from 0 to 1, and a boost and
    /// an overlap duty cycle within what the column can hold.
    pub open spec fn wf(self, input_length: nat, pool_size: nat) -> bool {
        &&& self.pool.len() == pool_size
        &&& ascending(self.inputs())
        &&& forall|s: int|
            0 <= s < self.pool.len() ==> (#[trigger] self.pool[s]).input < input_length
        &&& forall|s: int|
            0 <= s < self.pool.len() ==> (#[trigger] self.pool[s]).permanence <= ONE
        &&& self.boost <= BOOST_MAX
        &&& self.active_duty_cycle <= ONE
        &&& self.overlap_duty_cycle <= self.pool.len() * BOOST_MAX * ONE
    }
}

/// A column that has just been wired to the input positions `inputs`:
/// every permanence is 0.5, the boost is 1 and the duty cycles are 0.
pub open spec fn fresh(inputs: Seq<nat>) -> ColumnView {
    ColumnView {
        pool: inputs.map_values(|i: nat| SynapseView { input: i, permanence: HALF as nat }),
        boost: 1,
        active_duty_cycle: 0,
        overlap_duty_cycle: 0,
    }
}

/// The number of synapses of `pool` whose input bit is on.
pub open spec fn hits(pool: Seq<SynapseView>, input: Seq<bool>) -> nat
    decreases pool.len(),
{
    if pool.len() == 0 {
        0
    } else {
        hits(pool.drop_last(), input) + if input[pool.last().input as int] {
            1nat
        } else {
            0nat
        }
    }
}

/// The overlap of a column with an input: the number of its synapses whose
/// input bit is on, times its boost.
pub open spec fn overlap_score(column: ColumnView, input: Seq<bool>) -> nat {
    hits(column.pool, input) * column.boost
}

/// A synapse after learning: raised where its input bit is on, lowered
/// where it is off.
pub open spec fn reinforced(
    synapse: SynapseView,
    input: Seq<bool>,
    increment: nat,
    decrement: nat,
) -> SynapseView {
    SynapseView {
        input: synapse.input,
        permanence: if input[synapse.input as int] {
            raised(synapse.permanence, increment)
        } else {
            lowered(synapse.permanence, decrement)
        },
    }
}

/// An active column after learning.
pub open spec fn learned(
    column: ColumnView,
    input: Seq<bool>,
    increment: nat,
    decrement: nat,
) -> ColumnView {
    ColumnView {
        pool: column.pool.map_values(
            |s: SynapseView| reinforced(s, input, increment, decrement),
        ),
        ..column
    }
}

/// A column after its rescue: every permanence is raised.
pub open spec fn rescued(column: ColumnView, increment: nat) -> ColumnView {
    ColumnView {
        pool: column.pool.map_values(
            |s: SynapseView|
                SynapseView { input: s.input, permanence: raised(s.permanence, increment) },
        ),
        ..column
    }
}

/// A column after its active duty cycle has taken in one more cycle, in
/// which the column was `active` or not.
pub open spec fn recorded_activity(column: ColumnView, active: bool, period: nat) -> ColumnView {
    ColumnView {
        active_duty_cycle: moving_average(
            column.active_duty_cycle,
            if active {
                ONE as nat
            } else {
                0
            },
            period,
        ),
        ..column
    }
}

/// A column after its overlap duty cycle has taken in one more cycle, in
/// which the column had the overlap `overlap`.
pub open spec fn recorded_overlap(column: ColumnView, overlap: nat, period: nat) -> ColumnView {
    ColumnView {
        overlap_duty_cycle: moving_average(
            column.overlap_duty_cycle,
            overlap * (ONE as nat),
            period,
        ),
        ..column
    }
}

/// A boost one step up, as far as a column can hold it, or one step down,
/// but not below zero.
pub open spec fn stepped(boost: nat, up: bool) -> nat {
    if up {
        if boost < BOOST_MAX {
            boost + 1
        } else {
            boost
        }
    } else {
        if boost >= 1 {
            (boost - 1) as nat
        } else {
            0
        }
    }
}

/// A column after its boost has been adjusted.
pub open spec fn boosted(column: ColumnView, up: bool) -> ColumnView {
    ColumnView { boost: stepped(column.boost, up), ..column }
}

/// No more synapses are hit than the pool has.
pub proof fn lemma_hits_bounded(pool: Seq<SynapseView>, input: Seq<bool>)
    ensures
        hits(pool, input) <= pool.len(),
    decreases pool.len(),
{
    if pool.len() > 0 {
        lemma_hits_bounded(pool.drop_last(), input);
    }
}

/// A column whose synapses all reach bits that are off has no overlap.
pub proof fn lemma_no_hits(pool: Seq<SynapseView>, input: Seq<bool>)
    requires
        forall|s: int| 0 <= s < pool.len() ==> !input[(#[trigger] pool[s]).input as int],
    ensures
        hits(pool, input) == 0,
    decreases pool.len(),
{
    if pool.len() > 0 {
        let front = pool.drop_last();
        assert forall|s: int| 0 <= s < front.len() implies !input[(
        #[trigger] front[s]).input as int] by {
            assert(front[s] == pool[s]);
        }
        lemma_no_hits(front, input);
    }
}

/// The overlap of a column is at most what its pool and the largest boost
/// give.
pub proof fn lemma_overlap_bounded(column: ColumnView, input: Seq<bool>)
    requires
        column.boost <= BOOST_MAX,
    ensures
        overlap_score(column, input) <= column.pool.len() * BOOST_MAX,
{
    lemma_hits_bounded(column.pool, input);
    let h = hits(column.pool, input);
    let n = column.pool.len();
    let b = column.boost;
    assert(h * b <= n * BOOST_MAX) by (nonlinear_arith)
        requires
            h <= n,
            b <= BOOST_MAX,
    ;
}

/// A column that has just been wired keeps the ranges.
pub proof fn lemma_fresh_wf(inputs: Seq<nat>, input_length: nat)
    requires
        ascending(inputs),
        forall|s: int| 0 <= s < inputs.len() ==> inputs[s] < input_length,
    ensures
        fresh(inputs).wf(input_length, inputs.len()),
        fresh(inputs).inputs() == inputs,
{
    assert(fresh(inputs).inputs() =~= inputs);
    assert(0 <= inputs.len() * BOOST_MAX * ONE) by (nonlinear_arith);
}

/// Learning keeps the ranges.
pub proof fn lemma_learned_wf(
    column: ColumnView,
    input: Seq<bool>,
    increment: nat,
    decrement: nat,
    input_length: nat,
    pool_size: nat,
)
    requires
        column.wf(input_length, pool_size),
    ensures
        learned(column, input, increment, decrement).wf(input_length, pool_size),
        learned(column, input, increment, decrement).inputs() == column.inputs(),
{
    let after = learned(column, input, increment, decrement);
    assert(after.inputs() =~= column.inputs());
    assert forall|s: int| 0 <= s < after.pool.len() implies (#[trigger] after.pool[s]).permanence
        <= ONE by {
        assert(column.pool[s].permanence <= ONE);
    }
    assert forall|s: int| 0 <= s < after.pool.len() implies (#[trigger] after.pool[s]).input
        < input_length by {
        assert(column.pool[s].input < input_length);
    }
}

/// A rescue keeps the ranges.
pub proof fn lemma_rescued_wf(
    column: ColumnView,
    increment: nat,
    input_length: nat,
    pool_size: nat,
)
    requires
        column.wf(input_length, pool_size),
    ensures
        rescued(column, increment).wf(input_length, pool_size),
        rescued(column, increment).inputs() == column.inputs(),
{
    let after = rescued(column, increment);
    assert(after.inputs() =~= column.inputs());
    assert forall|s: int| 0 <= s < after.pool.len() implies (#[trigger] after.pool[s]).input
        < input_length by {
        assert(column.pool[s].input < input_length);
    }
}

/// The duty cycles keep their ranges when they take in one more cycle,
/// as long as the overlap is one that the column can have.
pub proof fn lemma_recorded_wf(
    column: ColumnView,
    active: bool,
    overlap: nat,
    period: nat,
    input_length: nat,
    pool_size: nat,
)
    requires
        column.wf(input_length, pool_size),
        period >= 1,
        overlap <= column.pool.len() * BOOST_MAX,
    ensures
        recorded_activity(column, active, period).wf(input_length, pool_size),
        recorded_overlap(column, overlap, period).wf(input_length, pool_size),
{
    let fired: nat = if active {
        ONE as nat
    } else {
        0
    };
    lemma_moving_average_between(column.active_duty_cycle, fired, period);
    lemma_moving_average_between(column.overlap_duty_cycle, overlap * (ONE as nat), period);
    let n = column.pool.len();
    assert(overlap * ONE <= n * BOOST_MAX * ONE) by (nonlinear_arith)
        requires
            overlap <= n * BOOST_MAX,
    ;
}

impl Column {
    /// A column wired to the input positions `inputs`.
    pub(crate) fn new(inputs: &Vec<usize>) -> (column: Column)
        ensures
            column@ == fresh(positions(inputs@)),
    {
        let mut pool: Vec<Synapse> = Vec::new();
        let mut s: usize = 0;
        while s < inputs.len()
            invariant
                s <= inputs.len(),
                pool.len() == s,
                forall|t: int|
                    0 <= t < s ==> pool[t]@ == (SynapseView {
                        input: inputs[t] as nat,
                        permanence: HALF as nat,
                    }),
            decreases inputs.len() - s,
        {
            pool.push(Synapse { input: inputs[s], permanence: HALF });
            s += 1;
        }
        let column = Column { pool, boost: 1, active_duty_cycle: 0, overlap_duty_cycle: 0 };
        assert(column@.pool =~= fresh(positions(inputs@)).pool);
        column
    }

    /// The number of synapses whose input bit is on.
    pub(crate) fn hits(&self, input: &BitVec<u32>) -> (count: usize)
        requires
            forall|s: int|
                0 <= s < self@.pool.len() ==> (#[trigger] self@.pool[s]).input < bits(
                    *input,
                ).len(),
        ensures
            count == hits(self@.pool, bits(*input)),
    {
        let mut count: usize = 0;
        let mut s: usize = 0;
        assert(self@.pool.take(0) =~= Seq::<SynapseView>::empty());
        while s < self.pool.len()
            invariant
                s <= self.pool.len(),
                count <= s,
                count == hits(self@.pool.take(s as int), bits(*input)),
                forall|t: int|
                    0 <= t < self@.pool.len() ==> (#[trigger] self@.pool[t]).input < bits(
                        *input,
                    ).len(),
            decreases self.pool.len() - s,
        {
            let synapse = self.pool[s];
            proof {
                assert(self@.pool[s as int] == synapse@);
                assert(self@.pool.take(s + 1).drop_last() =~= self@.pool.take(s as int));
                assert(self@.pool.take(s + 1).last() == synapse@);
            }
            let on: bool = match bit_at(input, synapse.input) {
                Some(bit) => bit,
                None => false,
            };
            if on {
                count += 1;
            }
            s += 1;
        }
        assert(self@.pool.take(s as int) =~= self@.pool);
        count
    }

    /// The overlap of the column with an input.
    pub(crate) fn overlap(&self, input: &BitVec<u32>) -> (score: u128)
        requires
            forall|s: int|
                0 <= s < self@.pool.len() ==> (#[trigger] self@.pool[s]).input < bits(
                    *input,
                ).len(),
        ensures
            score == overlap_score(self@, bits(*input)),
    {
        let count: usize = self.hits(input);
        assert(count * self.boost <= usize::MAX * u32::MAX) by (nonlinear_arith)
            requires
                count <= usize::MAX,
                self.boost <= u32::MAX,
        ;
        (count as u128) * (self.boost as u128)
    }

    /// Learns from an input in which the column was active.
    pub(crate) fn learn(&mut self, input: &BitVec<u32>, increment: u64, decrement: u64)
        requires
            forall|s: int|
                0 <= s < old(self)@.pool.len() ==> (#[trigger] old(self)@.pool[s]).input < bits(
                    *input,
                ).len(),
            forall|s: int|
                0 <= s < old(self)@.pool.len() ==> (#[trigger] old(self)@.pool[s]).permanence
                    <= ONE,
        ensures
            final(self)@ == learned(
                old(self)@,
                bits(*input),
                increment as nat,
                decrement as nat,
            ),
    {
        let mut s: usize = 0;
        while s < self.pool.len()
            invariant
                s <= self.pool.len(),
                self.pool.len() == old(self).pool.len(),
                self.boost == old(self).boost,
                self.active_duty_cycle == old(self).active_duty_cycle,
                self.overlap_duty_cycle == old(self).overlap_duty_cycle,
                forall|t: int| s <= t < self.pool.len() ==> self.pool[t] == old(self).pool[t],
                forall|t: int|
                    0 <= t < s ==> self.pool[t]@ == reinforced(
                        old(self).pool[t]@,
                        bits(*input),
                        increment as nat,
                        decrement as nat,
                    ),
                forall|t: int|
                    0 <= t < old(self)@.pool.len() ==> (#[trigger] old(self)@.pool[t]).input
                        < bits(*input).len(),
                forall|t: int|
                    0 <= t < old(self)@.pool.len() ==> (#[trigger] old(self)@.pool[t]).permanence
                        <= ONE,
            decreases self.pool.len() - s,
        {
            let synapse = self.pool[s];
            assert(old(self)@.pool[s as int] == synapse@);
            let on: bool = match bit_at(input, synapse.input) {
                Some(bit) => bit,
                None => false,
            };
            let permanence: u64 = if on {
                raise(synapse.permanence, increment)
            } else {
                lower(synapse.permanence, decrement)
            };
            self.pool.set(s, Synapse { input: synapse.input, permanence });
            s += 1;
        }
        assert(self@.pool =~= learned(
            old(self)@,
            bits(*input),
            increment as nat,
            decrement as nat,
        ).pool);
    }

    /// Raises every permanence of the column.
    pub(crate) fn rescue(&mut self, increment: u64)
        requires
            forall|s: int|
                0 <= s < old(self)@.pool.len() ==> (#[trigger] old(self)@.pool[s]).permanence
                    <= ONE,
        ensures
            final(self)@ == rescued(old(self)@, increment as nat),
    {
        let mut s: usize = 0;
        while s < self.pool.len()
            invariant
                s <= self.pool.len(),
                self.pool.len() == old(self).pool.len(),
                self.boost == old(self).boost,
                self.active_duty_cycle == old(self).active_duty_cycle,
                self.overlap_duty_cycle == old(self).overlap_duty_cycle,
                forall|t: int| s <= t < self.pool.len() ==> self.pool[t] == old(self).pool[t],
                forall|t: int|
                    0 <= t < s ==> self.pool[t]@ == (SynapseView {
                        input: old(self).pool[t]@.input,
                        permanence: raised(old(self).pool[t]@.permanence, increment as nat),
                    }),
                forall|t: int|
                    0 <= t < old(self)@.pool.len() ==> (#[trigger] old(self)@.pool[t]).permanence
                        <= ONE,
            decreases self.pool.len() - s,
        {
            let synapse = self.pool[s];
            assert(old(self)@.pool[s as int] == synapse@);
            let permanence: u64 = raise(synapse.permanence, increment);
            self.pool.set(s, Synapse { input: synapse.input, permanence });
            s += 1;
        }
        assert(self@.pool =~= rescued(old(self)@, increment as nat).pool);
    }

    /// Takes one more cycle into the active duty cycle.
    pub(crate) fn record_activity(&mut self, active: bool, period: u32)
        requires
            period >= 1,
            old(self)@.active_duty_cycle <= ONE,
        ensures
            final(self)@ == recorded_activity(old(self)@, active, period as nat),
    {
        let fired: u128 = if active {
            ONE as u128
        } else {
            0
        };
        proof {
            lemma_moving_average_between(
                self.active_duty_cycle as nat,
                fired as nat,
                period as nat,
            );
        }
        let duty: u128 = average_step(self.active_duty_cycle as u128, fired, period);
        self.active_duty_cycle = duty as u64;
    }

    /// Takes one more cycle into the overlap duty cycle.
    pub(crate) fn record_overlap(&mut self, overlap: u128, period: u32)
        requires
            period >= 1,
            overlap <= old(self)@.pool.len() * BOOST_MAX,
        ensures
            final(self)@ == recorded_overlap(old(self)@, overlap as nat, period as nat),
    {
        proof {
            let n = self.pool.len();
            assert(overlap * ONE <= n * BOOST_MAX * ONE <= usize::MAX * BOOST_MAX * ONE)
                by (nonlinear_arith)
                requires
                    overlap <= n * BOOST_MAX,
                    n <= usize::MAX,
            ;
        }
        self.overlap_duty_cycle = average_step(
            self.overlap_duty_cycle,
            overlap * (ONE as u128),
            period,
        );
    }

    /// Moves the boost one step up or down.
    pub(crate) fn adjust_boost(&mut self, up: bool)
        ensures
            final(self)@ == boosted(old(self)@, up),
    {
        if up {
            if self.boost < BOOST_MAX {
                self.boost = self.boost + 1;
            }
        } else {
            if self.boost >= 1 {
                self.boost = self.boost - 1;
            }
        }
    }

    /// Whether the column keeps the ranges of a column of a pooler with
    /// inputs of `input_length` bits and pools of `pool_size` synapses.
    pub fn is_well_formed(&self, input_length: usize, pool_size: usize) -> (r: bool)
        ensures
            r == self@.wf(input_length as nat, pool_size as nat),
    {
        if self.pool.len() != pool_size || self.active_duty_cycle > ONE {
            return false;
        }
        assert(self.pool.len() * BOOST_MAX * ONE <= usize::MAX * BOOST_MAX * ONE)
            by (nonlinear_arith)
            requires
                self.pool.len() <= usize::MAX,
        ;
        let most: u128 = (self.pool.len() as u128) * (BOOST_MAX as u128) * (ONE as u128);
        if self.overlap_duty_cycle > most {
            return false;
        }
        let ghost inputs = self@.inputs();
        let mut s: usize = 0;
        while s < self.pool.len()
            invariant
                s <= self.pool.len(),
                inputs == self@.inputs(),
                forall|t: int| 0 <= t < s ==> (#[trigger] self@.pool[t]).input < input_length,
                forall|t: int| 0 <= t < s ==> (#[trigger] self@.pool[t]).permanence <= ONE,
                forall|t: int| 0 < t < s ==> inputs[t - 1] < #[trigger] inputs[t],
            decreases self.pool.len() - s,
        {
            let synapse = self.pool[s];
            assert(self@.pool[s as int] == synapse@);
            assert(inputs[s as int] == synapse.input);
            if synapse.input >= input_length || synapse.permanence > ONE {
                return false;
            }
            if s > 0 {
                let before = self.pool[s - 1];
                assert(self@.pool[s - 1] == before@);
                assert(inputs[s - 1] == before.input);
                if before.input >= synapse.input {
                    return false;
                }
            }
            s += 1;
        }
        proof {
            lemma_ascending_by_steps(inputs);
        }
        true
    }

    /// The active duty cycle.
    pub fn active_duty_cycle(&self) -> (duty: u64)
        ensures
            duty == self@.active_duty_cycle,
    {
        self.active_duty_cycle
    }

    /// The overlap duty cycle.
    pub fn overlap_duty_cycle(&self) -> (duty: u128)
        ensures
            duty == self@.overlap_duty_cycle,
    {
        self.overlap_duty_cycle
    }

    /// The boost.
    pub fn boost(&self) -> (boost: u32)
        ensures
            boost == self@.boost,
    {
        self.boost
    }

    /// The number of synapses.
    pub fn pool_size(&self) -> (size: usize)
        ensures
            size == self@.pool.len(),
    {
        self.pool.len()
    }

    /// The input position and the permanence of synapse `s`.
    pub fn synapse(&self, s: usize) -> (r: Option<(usize, u64)>)
        ensures
            r.is_some() <==> s < self@.pool.len(),
            r matches Some(pair) ==> pair.0 == self@.pool[s as int].input && pair.1
                == self@.pool[s as int].permanence,
    {
        if s < self.pool.len() {
            Some((self.pool[s].input, self.pool[s].permanence))
        } else {
            None
        }
    }
}

} // verus!
