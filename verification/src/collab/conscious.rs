//! The kinds of action that reflection can ask for.

use vstd::prelude::*;

verus! {

/// What a feedback action does.
#[derive(Debug, Clone)]
pub enum FeedbackActionType {
    /// Changes the learning rate.
    AdjustLearningRate,
    /// Puts in a short pause.
    IntroducePause,
    /// Strengthens the correction.
    IncreaseCorrection,
    /// Weakens the correction.
    DecreaseCorrection,
    /// Sets the weights back.
    ResetWeights,
}

} // verus!
