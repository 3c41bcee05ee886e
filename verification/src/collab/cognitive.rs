//! The vocabulary of the cognitive modules: intents, tasks that nodes solve together,
//! votes and events.

use vstd::hash_map::StringHashMap;
use vstd::prelude::*;
use vstd::string::StringExecFns;

verus! {

/// Version of the cognitive mesh.
pub const COGNITIVE_MESH_VERSION: &'static str = "1.2.0";

/// The semantic overlap from which nodes form a cognitive cluster, in millionths.
pub const SEMANTIC_THRESHOLD: u32 = 700_000;

/// What a node is trying to achieve.
#[derive(Debug, Clone, PartialEq)]
pub enum Intent {
    /// Keep the system steady.
    Stabilize,
    /// Spread the load.
    BalanceLoad,
    /// Heal by adapting.
    AdaptiveHealing,
    /// Look for new patterns.
    Explore,
    /// Use fewer resources.
    Optimize,
    /// Something else, by name.
    Custom(String),
}

impl Intent {
    /// The name of the intent, as text: a custom intent bears its own.
    pub open spec fn name(&self) -> Seq<char> {
        match *self {
            Intent::Stabilize => "stabilize"@,
            Intent::BalanceLoad => "load_balancing"@,
            Intent::AdaptiveHealing => "adaptive_healing"@,
            Intent::Explore => "explore"@,
            Intent::Optimize => "optimize"@,
            Intent::Custom(s) => s@,
        }
    }

    /// The context tags of the intent, as text: a custom intent has its name for its only
    /// tag.
    pub open spec fn tag_names(&self) -> Seq<Seq<char>> {
        match *self {
            Intent::Stabilize => seq!["stability"@, "homeostasis"@],
            Intent::BalanceLoad => seq!["load_balancing"@, "distribution"@],
            Intent::AdaptiveHealing => seq!["healing"@, "recovery"@, "adaptation"@],
            Intent::Explore => seq!["exploration"@, "discovery"@],
            Intent::Optimize => seq!["optimization"@, "efficiency"@],
            Intent::Custom(s) => seq![s@],
        }
    }

    /// The name of the intent.
    pub fn as_str(&self) -> (text: &str)
        ensures
            text@ == self.name(),
    {
        match self {
            Intent::Stabilize => "stabilize",
            Intent::BalanceLoad => "load_balancing",
            Intent::AdaptiveHealing => "adaptive_healing",
            Intent::Explore => "explore",
            Intent::Optimize => "optimize",
            Intent::Custom(s) => s.as_str(),
        }
    }

    /// The context tags of the intent.
    pub fn context_tags(&self) -> (tags: Vec<String>)
        ensures
            tags@.len() == self.tag_names().len(),
            forall|i: int| 0 <= i < tags@.len() ==> (#[trigger] tags@[i])@ == self.tag_names()[i],
    {
        let mut tags: Vec<String> = Vec::new();
        match self {
            Intent::Stabilize => {
                tags.push(String::from_str("stability"));
                tags.push(String::from_str("homeostasis"));
            },
            Intent::BalanceLoad => {
                tags.push(String::from_str("load_balancing"));
                tags.push(String::from_str("distribution"));
            },
            Intent::AdaptiveHealing => {
                tags.push(String::from_str("healing"));
                tags.push(String::from_str("recovery"));
                tags.push(String::from_str("adaptation"));
            },
            Intent::Explore => {
                tags.push(String::from_str("exploration"));
                tags.push(String::from_str("discovery"));
            },
            Intent::Optimize => {
                tags.push(String::from_str("optimization"));
                tags.push(String::from_str("efficiency"));
            },
            Intent::Custom(s) => {
                tags.push(s.clone());
            },
        }
        tags
    }
}

/// Sends a node's pulses at a fixed interval.
pub struct PulseManager {
    node_id: String,
    interval_secs: u64,
}

impl PulseManager {
    /// The identifier of the node whose pulses are sent.
    pub closed spec fn spec_node_id(&self) -> Seq<char> {
        self.node_id@
    }

    /// The seconds between two pulses.
    pub closed spec fn spec_interval_secs(&self) -> u64 {
        self.interval_secs
    }

    /// A manager for the node `node_id` that pulses every `interval_secs` seconds.
    pub fn new(node_id: String, interval_secs: u64) -> (manager: Self)
        ensures
            manager.spec_node_id() == node_id@,
            manager.spec_interval_secs() == interval_secs,
    {
        PulseManager { node_id, interval_secs }
    }

    /// The identifier of the node whose pulses are sent.
    pub fn node_id(&self) -> (id: &String)
        ensures
            id@ == self.spec_node_id(),
    {
        &self.node_id
    }

    /// The seconds between two pulses.
    pub fn interval_secs(&self) -> (secs: u64)
        ensures
            secs == self.spec_interval_secs(),
    {
        self.interval_secs
    }
}

/// What a task that nodes solve together is about.
#[derive(Debug, Clone)]
pub enum TaskType {
    /// Checking a hypothesis.
    HypothesisCheck(String),
    /// Playing a scenario through.
    Simulation(String),
    /// Bringing data together.
    DataAggregation(String),
    /// Coming to a decision.
    Decision(String),
}

/// How far a task has come.
#[derive(Debug, Clone, PartialEq)]
pub enum TaskStatus {
    Initialized,
    InProgress,
    Completed,
    /// Failed, with the reason.
    Failed(String),
}

/// The part that a node plays in a task.
#[derive(Debug, Clone, PartialEq)]
pub enum BraidRole {
    /// Puts hypotheses forward.
    Proposer,
    /// Checks them.
    Validator,
    /// Brings the results together.
    Aggregator,
}

/// A task that nodes solve together.
pub struct Task {
    pub id: String,
    pub task_type: TaskType,
    /// The node that set the task.
    pub initiator: String,
    /// The nodes that take part, each once, in the order in which they joined.
    pub participants: Vec<String>,
    /// What the task carries, by key.
    pub data: StringHashMap<String>,
    pub status: TaskStatus,
}

/// Whether `names` holds the name `name`.
pub open spec fn holds_name(names: Seq<String>, name: Seq<char>) -> bool {
    exists|i: int| 0 <= i < names.len() && (#[trigger] names[i])@ == name
}

impl Task {
    /// A task just set: nobody takes part yet and it carries nothing.
    pub fn new(id: String, task_type: TaskType, initiator: String) -> (task: Self)
        ensures
            task.id == id,
            task.task_type == task_type,
            task.initiator == initiator,
            task.participants@.len() == 0,
            task.data@ == Map::<Seq<char>, String>::empty(),
            task.status == TaskStatus::Initialized,
    {
        Task {
            id,
            task_type,
            initiator,
            participants: Vec::new(),
            data: StringHashMap::new(),
            status: TaskStatus::Initialized,
        }
    }

    /// Lets the node `node_id` take part, unless it already does.
    pub fn add_participant(&mut self, node_id: String)
        ensures
            final(self).participants@ == if holds_name(old(self).participants@, node_id@) {
                old(self).participants@
            } else {
                old(self).participants@.push(node_id)
            },
            final(self).id == old(self).id,
            final(self).task_type == old(self).task_type,
            final(self).initiator == old(self).initiator,
            final(self).data == old(self).data,
            final(self).status == old(self).status,
    {
        let mut i: usize = 0;
        while i < self.participants.len()
            invariant
                i <= self.participants.len(),
                *self == *old(self),
                forall|j: int| 0 <= j < i ==> (#[trigger] self.participants@[j])@ != node_id@,
            decreases self.participants.len() - i,
        {
            if self.participants[i] == node_id {
                return ;
            }
            i = i + 1;
        }
        self.participants.push(node_id);
    }

    /// Sets how far the task has come.
    pub fn set_status(&mut self, status: TaskStatus)
        ensures
            final(self).status == status,
            final(self).id == old(self).id,
            final(self).task_type == old(self).task_type,
            final(self).initiator == old(self).initiator,
            final(self).participants == old(self).participants,
            final(self).data == old(self).data,
    {
        self.status = status;
    }

    /// Lets the task carry `value` under `key`, in place of what it carried there.
    pub fn add_data(&mut self, key: String, value: String)
        ensures
            final(self).data@ == old(self).data@.insert(key@, value),
            final(self).id == old(self).id,
            final(self).task_type == old(self).task_type,
            final(self).initiator == old(self).initiator,
            final(self).participants == old(self).participants,
            final(self).status == old(self).status,
    {
        self.data.insert(key, value);
    }
}

/// The vote of a node on a result.
#[derive(Debug, Clone, PartialEq)]
pub enum Vote {
    Accept,
    Reject,
    Abstain,
}

/// The kind of a cognitive event.
#[derive(Debug, Clone, PartialEq)]
pub enum EventType {
    /// Intents were brought in line.
    IntentSync,
    /// A cluster formed.
    ClusterFormation,
    /// A task was solved together.
    BraidExecution,
    /// The network looked at itself.
    SelfReflection,
    /// The structure adapted.
    StructuralAdaptation,
    /// Something else, by name.
    Custom(String),
}

/// How an event came out.
#[derive(Debug, Clone, PartialEq)]
pub enum EventResult {
    Success,
    /// In part, with what is missing.
    PartialSuccess(String),
    /// Not at all, with the reason.
    Failure(String),
}

} // verus!
