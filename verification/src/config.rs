//! The configuration of a pooler, and the constraints that it must meet.

use vstd::prelude::*;

verus! {

/// What is fixed for the whole life of a pooler.
///
/// The scalars are in fixed point (see `scalar::ONE`).
#[derive(Clone, Copy, Debug)]
pub struct Config {
    /// The number of bits of every input.
    pub input_length: usize,
    /// The number of columns.
    pub column_count: usize,
    /// How many columns of one inhibition area may be active.
    pub active_columns_per_area: usize,
    /// How far the neighborhood of a column reaches to either side.
    pub inhibition_radius: usize,
    /// The number of synapses of every column.
    pub potential_pool_size: usize,
    /// The permanence above which a synapse counts as connected. The
    /// overlap does not depend on it: it counts every synapse of the pool.
    pub permanence_threshold: u64,
    /// The step by which a permanence is raised.
    pub permanence_increment: u64,
    /// The step by which a permanence is lowered.
    pub permanence_decrement: u64,
    /// The overlap that a column must exceed to be active.
    pub stimulus_threshold: i64,
    /// The number of cycles over which the duty cycles are averaged.
    pub duty_cycle_period: u32,
    /// The overlap duty cycle below which a column is rescued.
    pub min_overlap_duty_cycle: u64,
}

/// The constraint that a configuration fails to meet.
#[derive(Clone, Copy, Debug, PartialEq, Eq, Structural)]
pub enum ConfigError {
    /// The inhibition radius is not greater than the number of active
    /// columns per area.
    InhibitionRadiusTooSmall,
    /// The potential pool is larger than the input.
    PotentialPoolTooLarge,
    /// The duty cycle period is less than one cycle.
    DutyCyclePeriodTooShort,
}

impl Config {
    /// All three constraints hold.
    pub open spec fn valid(self) -> bool {
        &&& self.inhibition_radius > self.active_columns_per_area
        &&& self.potential_pool_size <= self.input_length
        &&& self.duty_cycle_period >= 1
    }

    /// The first constraint that fails, in the order of `ConfigError`.
    pub open spec fn violation(self) -> Option<ConfigError> {
        if self.inhibition_radius <= self.active_columns_per_area {
            Some(ConfigError::InhibitionRadiusTooSmall)
        } else if self.potential_pool_size > self.input_length {
            Some(ConfigError::PotentialPoolTooLarge)
        } else if self.duty_cycle_period < 1 {
            Some(ConfigError::DutyCyclePeriodTooShort)
        } else {
            None
        }
    }

    /// Checks the constraints, and names the first that fails.
    pub fn validate(&self) -> (r: Result<(), ConfigError>)
        ensures
            r.is_ok() <==> self.valid(),
            r.is_ok() <==> self.violation().is_none(),
            r matches Err(e) ==> self.violation() == Some(e),
    {
        if self.inhibition_radius <= self.active_columns_per_area {
            Err(ConfigError::InhibitionRadiusTooSmall)
        } else if self.potential_pool_size > self.input_length {
            Err(ConfigError::PotentialPoolTooLarge)
        } else if self.duty_cycle_period < 1 {
            Err(ConfigError::DutyCyclePeriodTooShort)
        } else {
            Ok(())
        }
    }
}

} // verus!
