//! The vocabulary of the decision engine: kinds of intent and the levels of luck and
//! resistance.

use vstd::prelude::*;
use vstd::string::StringExecFns;

verus! {

/// Version of the decision engine.
pub const DOMINO_VERSION: &'static str = "0.1.0";

/// What a request to the decision engine is for.
#[derive(Debug, Clone, PartialEq)]
pub enum DominoIntentKind {
    /// Routing a request.
    Routing,
    /// Scheduling a task.
    TaskScheduling,
    /// Serving a user.
    UserRequest,
    /// Something else, by name.
    Custom(String),
}

impl DominoIntentKind {
    /// The name of the kind, as text: a custom kind bears its own.
    pub open spec fn name(&self) -> Seq<char> {
        match *self {
            DominoIntentKind::Routing => "routing"@,
            DominoIntentKind::TaskScheduling => "task_scheduling"@,
            DominoIntentKind::UserRequest => "user_request"@,
            DominoIntentKind::Custom(s) => s@,
        }
    }

    /// The name of the kind.
    pub fn as_str(&self) -> (text: &str)
        ensures
            text@ == self.name(),
    {
        match self {
            DominoIntentKind::Routing => "routing",
            DominoIntentKind::TaskScheduling => "task_scheduling",
            DominoIntentKind::UserRequest => "user_request",
            DominoIntentKind::Custom(s) => s.as_str(),
        }
    }
}

/// The decision engine. It holds no state.
pub struct DominoEngine;

/// How lucky the conditions are.
#[derive(Debug, Clone, Copy, PartialEq, Eq)]
pub enum LuckLevel {
    Low,
    Medium,
    High,
}

impl LuckLevel {
    /// The name of the level, as text.
    pub open spec fn name(&self) -> Seq<char> {
        match *self {
            LuckLevel::Low => "low"@,
            LuckLevel::Medium => "medium"@,
            LuckLevel::High => "high"@,
        }
    }

    /// The name of the level.
    pub fn as_str(&self) -> (text: &'static str)
        ensures
            text@ == self.name(),
    {
        match self {
            LuckLevel::Low => "low",
            LuckLevel::Medium => "medium",
            LuckLevel::High => "high",
        }
    }
}

/// How much stands in the way.
#[derive(Debug, Clone, Copy, PartialEq, Eq)]
pub enum ResistanceLevel {
    Low,
    Medium,
    High,
}

impl ResistanceLevel {
    /// The name of the level, as text.
    pub open spec fn name(&self) -> Seq<char> {
        match *self {
            ResistanceLevel::Low => "low"@,
            ResistanceLevel::Medium => "medium"@,
            ResistanceLevel::High => "high"@,
        }
    }

    /// The name of the level.
    pub fn as_str(&self) -> (text: &'static str)
        ensures
            text@ == self.name(),
    {
        match self {
            ResistanceLevel::Low => "low",
            ResistanceLevel::Medium => "medium",
            ResistanceLevel::High => "high",
        }
    }
}

/// A fuzzy judgement: a level of luck with a level of resistance.
#[derive(Debug, Clone, Copy)]
pub struct FuzzyLuck {
    pub luck_level: LuckLevel,
    pub resistance_level: ResistanceLevel,
}

impl FuzzyLuck {
    /// The description of the judgement, as text.
    pub open spec fn description_text(&self) -> Seq<char> {
        "Luck: "@ + self.luck_level.name() + ", Resistance: "@ + self.resistance_level.name()
    }

    /// The judgement made of the two levels.
    pub fn new(luck_level: LuckLevel, resistance_level: ResistanceLevel) -> (judgement: Self)
        ensures
            judgement.luck_level == luck_level,
            judgement.resistance_level == resistance_level,
    {
        FuzzyLuck { luck_level, resistance_level }
    }

    /// A line of text that names both levels.
    pub fn description(&self) -> (text: String)
        ensures
            text@ == self.description_text(),
    {
        let text = String::from_str("Luck: ");
        let text = text.concat(self.luck_level.as_str());
        let text = text.concat(", Resistance: ");
        text.concat(self.resistance_level.as_str())
    }
}

} // verus!
