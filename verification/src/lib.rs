pub mod cell;
pub mod engine;
pub mod grid;
mod rng;
pub mod rule;

use vstd::prelude::*;

verus! {

/// The failures the simulation core can report to its host.
#[derive(Clone, Copy, Debug, PartialEq, Eq, Structural)]
pub enum SimError {
    /// A grid dimension at construction was zero or negative.
    InvalidDimension,
    /// A coordinate access fell outside the grid extent.
    OutOfBounds,
    /// `step` or `snapshot` was called before `initialize`.
    NotInitialized,
}

} // verus!
