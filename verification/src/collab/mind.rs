//! The modes of the inner council.

use vstd::prelude::*;

verus! {

/// How the council weighs its members.
#[derive(Debug, Clone, Copy, PartialEq, Eq)]
pub enum CouncilMode {
    /// All members weigh the same.
    Balanced,
    /// Intuition leads.
    Intuitive,
    /// Imagination leads.
    Creative,
    /// Planning leads.
    Structured,
}

} // verus!
