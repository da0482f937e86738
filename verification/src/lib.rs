//! A spatial pooler: it turns a fixed-length binary input into a sparse
//! binary activation over a fixed population of columns, and adapts synapse
//! permanences, boosts and duty cycles after every cycle.
//!
//! Every scalar of the algorithm is held in fixed point, as a whole number
//! of millionths (see [`scalar::ONE`]).

pub mod bits;
pub mod column;
pub mod config;
pub mod counting;
pub mod cycle;
pub mod inhibition;
pub mod laws;
pub mod layer;
pub mod random;
pub mod scalar;
pub mod wiring;

pub use crate::column::Column;
pub use crate::config::{Config, ConfigError};
pub use crate::layer::{HTMLayer, RuntimeError};
pub use crate::random::RandomSource;
pub use crate::scalar::ONE;
