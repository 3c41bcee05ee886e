//! The bridge to the world outside the mesh: its settings, its state, and the kinds of
//! message and of failure on its transport.

use vstd::prelude::*;
use vstd::string::StringExecFns;

verus! {

/// Settings of the bridge.
#[derive(Debug)]
pub struct BridgeConfig {
    /// The identifier of this node.
    pub node_id: String,
    /// The addresses to connect to.
    pub endpoints: Vec<String>,
    /// How long to wait for a connection, in milliseconds.
    pub connection_timeout: u64,
}

impl Default for BridgeConfig {
    /// The settings of a single node with no address to connect to and five seconds of
    /// patience.
    fn default() -> (config: Self)
        ensures
            config.node_id@ == "soma-node-1"@,
            config.endpoints@.len() == 0,
            config.connection_timeout == 5000,
    {
        BridgeConfig {
            node_id: String::from_str("soma-node-1"),
            endpoints: Vec::new(),
            connection_timeout: 5000,
        }
    }
}

/// The state of the bridge.
#[derive(Debug, Clone, Copy, PartialEq, Eq)]
pub enum BridgeStatus {
    Disconnected,
    Connecting,
    Connected,
    Error,
}

/// The kind of a message on the bridge.
#[derive(Debug, Clone, PartialEq, Eq)]
pub enum MessageType {
    /// A neural activation.
    Signal,
    /// An action to carry out.
    Command,
    /// A question.
    Query,
    /// The answer to a question.
    Response,
    /// A notification.
    Event,
    /// A synchronisation.
    Resonance,
}

/// Why the transport failed.
#[derive(Debug, Clone)]
pub enum TransportError {
    ConnectionError(String),
    SerializationError(String),
    Timeout,
    NotFound,
    Other(String),
}

impl TransportError {
    /// The failure in words, as text.
    pub open spec fn text(&self) -> Seq<char> {
        match *self {
            TransportError::ConnectionError(msg) => "Connection error: "@ + msg@,
            TransportError::SerializationError(msg) => "Serialization error: "@ + msg@,
            TransportError::Timeout => "Timeout"@,
            TransportError::NotFound => "Not found"@,
            TransportError::Other(msg) => "Error: "@ + msg@,
        }
    }

    /// The failure in words.
    pub fn describe(&self) -> (text: String)
        ensures
            text@ == self.text(),
    {
        match self {
            TransportError::ConnectionError(msg) => String::from_str("Connection error: ").concat(
                msg.as_str(),
            ),
            TransportError::SerializationError(msg) => String::from_str(
                "Serialization error: ",
            ).concat(msg.as_str()),
            TransportError::Timeout => String::from_str("Timeout"),
            TransportError::NotFound => String::from_str("Not found"),
            TransportError::Other(msg) => String::from_str("Error: ").concat(msg.as_str()),
        }
    }
}

} // verus!
