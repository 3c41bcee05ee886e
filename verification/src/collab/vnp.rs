//! The kinds of processor.

use vstd::prelude::*;

verus! {

/// The kind of a processor.
#[derive(Debug, Clone, Copy, PartialEq, Eq)]
pub enum ProcessorType {
    /// Processes signals.
    Neural,
    /// Carries out actions.
    Muscle,
    /// Does both.
    Hybrid,
}

} // verus!
