//! The roles that a cell can take.

use vstd::prelude::*;

verus! {

/// Version of the core.
pub const SOMA_VERSION: &'static str = "0.1.0";

/// The resonance of a signal that has died away, in millionths.
pub const RESONANCE_MIN: u32 = 0;

/// The resonance of a signal in balance, in millionths.
pub const RESONANCE_NEUTRAL: u32 = 500_000;

/// The resonance of a signal at full strength, in millionths.
pub const RESONANCE_MAX: u32 = 1_000_000;

/// The specialisation of a cell.
#[derive(Debug, Clone, Copy, PartialEq, Eq, Hash)]
pub enum CellRole {
    /// Takes input in.
    Sensor,
    /// Computes.
    Logic,
    /// Drives output.
    Motor,
}

impl CellRole {
    /// The description of the role, as text.
    pub open spec fn description_text(&self) -> Seq<char> {
        match *self {
            CellRole::Sensor => "Sensor - processes input data"@,
            CellRole::Logic => "Logic - performs computations"@,
            CellRole::Motor => "Motor - controls output and actions"@,
        }
    }

    /// A short description of the role.
    pub fn description(&self) -> (text: &str)
        ensures
            text@ == self.description_text(),
    {
        match self {
            CellRole::Sensor => "Sensor - processes input data",
            CellRole::Logic => "Logic - performs computations",
            CellRole::Motor => "Motor - controls output and actions",
        }
    }
}

} // verus!
