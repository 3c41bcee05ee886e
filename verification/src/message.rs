//! The messages that peers exchange.
//!
//! A load travels in millionths (see [`crate::units::UNIT`]); a timestamp is in
//! milliseconds of the sender's wall clock.

use vstd::prelude::*;

verus! {

/// A message between two nodes of the mesh.
#[derive(Debug)]
pub enum MeshMessage {
    /// Opens a link: the sender names itself.
    Handshake { node_id: String, timestamp: i64 },
    /// The sender is alive.
    Heartbeat { node_id: String, timestamp: i64 },
    /// The sender's current metrics.
    StateSync { node_id: String, cells: usize, generation: u32, load: u32, timestamp: i64 },
    /// The sender fired at `timestamp`.
    Fire { node_id: String, timestamp: i64 },
    /// The sender has taken the handshake of `ack_to`.
    Ack { node_id: String, ack_to: String, timestamp: i64 },
}

/// What a message holds, as plain values.
pub enum MessageView {
    Handshake { node_id: Seq<char>, timestamp: i64 },
    Heartbeat { node_id: Seq<char>, timestamp: i64 },
    StateSync { node_id: Seq<char>, cells: usize, generation: u32, load: u32, timestamp: i64 },
    Fire { node_id: Seq<char>, timestamp: i64 },
    Ack { node_id: Seq<char>, ack_to: Seq<char>, timestamp: i64 },
}

impl MessageView {
    /// The identifier of the node that sent the message.
    pub open spec fn sender(self) -> Seq<char> {
        match self {
            MessageView::Handshake { node_id, .. } => node_id,
            MessageView::Heartbeat { node_id, .. } => node_id,
            MessageView::StateSync { node_id, .. } => node_id,
            MessageView::Fire { node_id, .. } => node_id,
            MessageView::Ack { node_id, .. } => node_id,
        }
    }

    /// The time that the sender put on the message.
    pub open spec fn sent_at(self) -> i64 {
        match self {
            MessageView::Handshake { timestamp, .. } => timestamp,
            MessageView::Heartbeat { timestamp, .. } => timestamp,
            MessageView::StateSync { timestamp, .. } => timestamp,
            MessageView::Fire { timestamp, .. } => timestamp,
            MessageView::Ack { timestamp, .. } => timestamp,
        }
    }
}

impl View for MeshMessage {
    type V = MessageView;

    open spec fn view(&self) -> MessageView {
        match *self {
            MeshMessage::Handshake { node_id, timestamp } => MessageView::Handshake {
                node_id: node_id@,
                timestamp,
            },
            MeshMessage::Heartbeat { node_id, timestamp } => MessageView::Heartbeat {
                node_id: node_id@,
                timestamp,
            },
            MeshMessage::StateSync { node_id, cells, generation, load, timestamp } => {
                MessageView::StateSync { node_id: node_id@, cells, generation, load, timestamp }
            },
            MeshMessage::Fire { node_id, timestamp } => MessageView::Fire {
                node_id: node_id@,
                timestamp,
            },
            MeshMessage::Ack { node_id, ack_to, timestamp } => MessageView::Ack {
                node_id: node_id@,
                ack_to: ack_to@,
                timestamp,
            },
        }
    }
}

impl Clone for MeshMessage {
    fn clone(&self) -> (r: Self)
        ensures
            r@ == self@,
    {
        match self {
            MeshMessage::Handshake { node_id, timestamp } => MeshMessage::Handshake {
                node_id: node_id.clone(),
                timestamp: *timestamp,
            },
            MeshMessage::Heartbeat { node_id, timestamp } => MeshMessage::Heartbeat {
                node_id: node_id.clone(),
                timestamp: *timestamp,
            },
            MeshMessage::StateSync { node_id, cells, generation, load, timestamp } => {
                MeshMessage::StateSync {
                    node_id: node_id.clone(),
                    cells: *cells,
                    generation: *generation,
                    load: *load,
                    timestamp: *timestamp,
                }
            },
            MeshMessage::Fire { node_id, timestamp } => MeshMessage::Fire {
                node_id: node_id.clone(),
                timestamp: *timestamp,
            },
            MeshMessage::Ack { node_id, ack_to, timestamp } => MeshMessage::Ack {
                node_id: node_id.clone(),
                ack_to: ack_to.clone(),
                timestamp: *timestamp,
            },
        }
    }
}

impl MeshMessage {
    /// The identifier of the node that sent the message.
    pub fn node_id(&self) -> (id: &String)
        ensures
            id@ == self@.sender(),
    {
        match self {
            MeshMessage::Handshake { node_id, .. } => node_id,
            MeshMessage::Heartbeat { node_id, .. } => node_id,
            MeshMessage::StateSync { node_id, .. } => node_id,
            MeshMessage::Fire { node_id, .. } => node_id,
            MeshMessage::Ack { node_id, .. } => node_id,
        }
    }

    /// The time that the sender put on the message.
    pub fn timestamp(&self) -> (t: i64)
        ensures
            t == self@.sent_at(),
    {
        match self {
            MeshMessage::Handshake { timestamp, .. } => *timestamp,
            MeshMessage::Heartbeat { timestamp, .. } => *timestamp,
            MeshMessage::StateSync { timestamp, .. } => *timestamp,
            MeshMessage::Fire { timestamp, .. } => *timestamp,
            MeshMessage::Ack { timestamp, .. } => *timestamp,
        }
    }
}

} // verus!
