//! The life of one connection to a peer, as a state machine.
//!
//! A connection is opened by accepting a socket or by dialing a registered peer. Whoever
//! runs the socket tells the machine what happened on it, one event at a time; the machine
//! changes the node's registry accordingly and says what to write back.
//!
//! ```text
//! Connecting --opened--> Handshaking --handshake read--> Established
//!     |                       |                               |
//!     +--dial failed----------+--closed, write failed---------+--> Closing
//! ```

use crate::clock::now_millis;
use crate::message::{MeshMessage, MessageView};
use crate::node::{MeshNode, NodeView};
use crate::peer::{PeerView, HEBBIAN_FIRE_WINDOW_MS};
use crate::registry::{
    all_failed, all_have_room_for_failure, has_room_for_failure, has_room_for_success,
    heard_fire, heard_heartbeat, heard_state, upserted, with_link_down, with_link_failed,
    with_link_up,
};
use vstd::prelude::*;

verus! {

/// Which side opened the connection.
#[derive(Debug)]
pub enum LinkRole {
    /// The peer dialed this node.
    Accepted,
    /// This node dialed the registered peer `peer_id`.
    Dialed { peer_id: String },
}

/// Which side opened the connection, as plain values.
pub enum RoleView {
    Accepted,
    Dialed { peer_id: Seq<char> },
}

impl View for LinkRole {
    type V = RoleView;

    open spec fn view(&self) -> RoleView {
        match *self {
            LinkRole::Accepted => RoleView::Accepted,
            LinkRole::Dialed { peer_id } => RoleView::Dialed { peer_id: peer_id@ },
        }
    }
}

/// How far a connection has come.
#[derive(Debug, Clone, Copy, PartialEq, Eq)]
pub enum LinkPhase {
    /// The socket is not open yet.
    Connecting,
    /// The socket is open and this node has sent its handshake.
    Handshaking,
    /// The peer's handshake has been read.
    Established,
    /// The connection is over.
    Closing,
}

/// What happened on a connection's socket.
#[derive(Debug)]
pub enum LinkEvent {
    /// The socket was accepted, or the dial succeeded.
    Opened,
    /// The dial failed.
    DialFailed,
    /// A frame was read that holds a message.
    Frame(MeshMessage),
    /// A frame was read that holds no message.
    Malformed,
    /// A queued message could not be written.
    SendFailed,
    /// The stream ended or the socket was closed.
    Closed,
}

/// What happened on a connection's socket, as plain values.
pub enum EventView {
    Opened,
    DialFailed,
    Frame(MessageView),
    Malformed,
    SendFailed,
    Closed,
}

impl View for LinkEvent {
    type V = EventView;

    open spec fn view(&self) -> EventView {
        match *self {
            LinkEvent::Opened => EventView::Opened,
            LinkEvent::DialFailed => EventView::DialFailed,
            LinkEvent::Frame(m) => EventView::Frame(m@),
            LinkEvent::Malformed => EventView::Malformed,
            LinkEvent::SendFailed => EventView::SendFailed,
            LinkEvent::Closed => EventView::Closed,
        }
    }
}

/// What a message that may be missing holds, as plain values.
pub open spec fn optional_message_view(m: Option<MeshMessage>) -> Option<MessageView> {
    match m {
        Some(m) => Some(m@),
        None => None,
    }
}

/// Whether a message read on an accepted connection can be taken in: where it counts as
/// a success of its sender, the sender's counter of successes is not full.
pub open spec fn can_take_in(node: NodeView, m: MessageView) -> bool {
    match m {
        MessageView::Heartbeat { node_id, .. } => has_room_for_success(node.peers, node_id),
        MessageView::StateSync { node_id, .. } => has_room_for_success(node.peers, node_id),
        _ => true,
    }
}

/// Whether a message read on a dialed connection can be taken in: where it counts as a
/// success of its sender, the sender's counter of successes is not full.
pub open spec fn can_take_in_dialed(node: NodeView, m: MessageView) -> bool {
    match m {
        MessageView::Handshake { node_id, .. } => has_room_for_success(node.peers, node_id),
        MessageView::Heartbeat { node_id, .. } => has_room_for_success(node.peers, node_id),
        MessageView::StateSync { node_id, .. } => has_room_for_success(node.peers, node_id),
        _ => true,
    }
}

/// Whether a connection of role `role` in phase `phase` can take a step on `event`: the
/// counters that the step raises are not full.
pub open spec fn can_step(
    role: RoleView,
    phase: LinkPhase,
    node: NodeView,
    event: EventView,
) -> bool {
    match (role, phase, event) {
        (_, LinkPhase::Closing, _) => true,
        (RoleView::Accepted, LinkPhase::Connecting, _) => true,
        (RoleView::Accepted, _, EventView::Frame(m)) => can_take_in(node, m),
        (RoleView::Accepted, _, EventView::SendFailed) => all_have_room_for_failure(node.peers),
        (RoleView::Accepted, _, _) => true,
        (RoleView::Dialed { peer_id }, LinkPhase::Connecting, EventView::Opened) => {
            has_room_for_success(node.peers, peer_id)
        },
        (RoleView::Dialed { peer_id }, LinkPhase::Connecting, EventView::DialFailed) => {
            has_room_for_failure(node.peers, peer_id)
        },
        (RoleView::Dialed { .. }, LinkPhase::Connecting, _) => true,
        (RoleView::Dialed { .. }, _, EventView::Frame(m)) => can_take_in_dialed(node, m),
        (RoleView::Dialed { peer_id }, _, EventView::Closed) => has_room_for_failure(
            node.peers,
            peer_id,
        ),
        (RoleView::Dialed { .. }, _, _) => true,
    }
}

/// The node after a message was read at `now` on an accepted connection. A handshake
/// puts a new record of the sender in; a heartbeat, a state report or a fire changes the
/// sender's record, if there is one; an acknowledgement changes nothing.
pub open spec fn after_inbound(node: NodeView, m: MessageView, now: i64) -> NodeView {
    match m {
        MessageView::Handshake { node_id, .. } => NodeView {
            peers: upserted(node.peers, PeerView::fresh(node_id, now)),
            ..node
        },
        MessageView::Heartbeat { node_id, .. } => NodeView {
            peers: heard_heartbeat(node.peers, node_id, now),
            ..node
        },
        MessageView::StateSync { node_id, cells, generation, load, .. } => NodeView {
            peers: heard_state(node.peers, node_id, cells, generation, load, now),
            ..node
        },
        MessageView::Fire { node_id, timestamp } => NodeView {
            peers: heard_fire(node.peers, node_id, timestamp, HEBBIAN_FIRE_WINDOW_MS),
            ..node
        },
        MessageView::Ack { .. } => node,
    }
}

/// The answer to a message read at `now` on an accepted connection: an acknowledgement
/// to a handshake, and none to anything else.
pub open spec fn reply_to_inbound(node: NodeView, m: MessageView, now: i64) -> Option<MessageView> {
    match m {
        MessageView::Handshake { node_id, .. } => Some(
            MessageView::Ack { node_id: node.id, ack_to: node_id, timestamp: now },
        ),
        _ => None,
    }
}

/// The node after a message was read at `now` on a dialed connection. A handshake marks
/// the sender's link as up; a heartbeat or a state report changes the sender's record;
/// each only if the sender is known. Anything else changes nothing.
pub open spec fn after_dialed_inbound(node: NodeView, m: MessageView, now: i64) -> NodeView {
    match m {
        MessageView::Handshake { node_id, .. } => NodeView {
            peers: with_link_up(node.peers, node_id, now),
            ..node
        },
        MessageView::Heartbeat { node_id, .. } => NodeView {
            peers: heard_heartbeat(node.peers, node_id, now),
            ..node
        },
        MessageView::StateSync { node_id, cells, generation, load, .. } => NodeView {
            peers: heard_state(node.peers, node_id, cells, generation, load, now),
            ..node
        },
        _ => node,
    }
}

/// The outcome of one step of a connection.
pub struct StepView {
    /// The phase that the connection is in afterwards.
    pub phase: LinkPhase,
    /// The node afterwards.
    pub node: NodeView,
    /// What is to be written to the socket.
    pub reply: Option<MessageView>,
}

/// The handshake of the node stamped `now`.
pub open spec fn handshake_of(node: NodeView, now: i64) -> MessageView {
    MessageView::Handshake { node_id: node.id, timestamp: now }
}

/// One step of an accepted connection in phase `phase` on `event` at `now`.
pub open spec fn accepted_step(
    phase: LinkPhase,
    node: NodeView,
    event: EventView,
    now: i64,
) -> StepView {
    match phase {
        LinkPhase::Closing => StepView { phase, node, reply: None },
        LinkPhase::Connecting => match event {
            EventView::Opened => StepView {
                phase: LinkPhase::Handshaking,
                node: NodeView { outbox: Some(Seq::empty()), ..node },
                reply: Some(handshake_of(node, now)),
            },
            _ => StepView { phase, node, reply: None },
        },
        _ => match event {
            EventView::Frame(m) => StepView {
                phase: if m is Handshake {
                    LinkPhase::Established
                } else {
                    phase
                },
                node: after_inbound(node, m, now),
                reply: reply_to_inbound(node, m, now),
            },
            EventView::SendFailed => StepView {
                phase: LinkPhase::Closing,
                node: NodeView { peers: all_failed(node.peers, now), outbox: None, ..node },
                reply: None,
            },
            EventView::Closed => StepView {
                phase: LinkPhase::Closing,
                node: NodeView { outbox: None, ..node },
                reply: None,
            },
            _ => StepView { phase, node, reply: None },
        },
    }
}

/// One step of a connection dialed to `peer_id` in phase `phase` on `event` at `now`.
pub open spec fn dialed_step(
    peer_id: Seq<char>,
    phase: LinkPhase,
    node: NodeView,
    event: EventView,
    now: i64,
) -> StepView {
    match phase {
        LinkPhase::Closing => StepView { phase, node, reply: None },
        LinkPhase::Connecting => match event {
            EventView::Opened => StepView {
                phase: LinkPhase::Handshaking,
                node: NodeView { peers: with_link_up(node.peers, peer_id, now), ..node },
                reply: Some(handshake_of(node, now)),
            },
            EventView::DialFailed => StepView {
                phase: LinkPhase::Closing,
                node: NodeView { peers: with_link_failed(node.peers, peer_id, now), ..node },
                reply: None,
            },
            _ => StepView { phase, node, reply: None },
        },
        _ => match event {
            EventView::Frame(m) => StepView {
                phase: if m is Handshake {
                    LinkPhase::Established
                } else {
                    phase
                },
                node: after_dialed_inbound(node, m, now),
                reply: None,
            },
            EventView::Closed => StepView {
                phase: LinkPhase::Closing,
                node: NodeView { peers: with_link_down(node.peers, peer_id, now), ..node },
                reply: None,
            },
            _ => StepView { phase, node, reply: None },
        },
    }
}

/// One step of a connection of role `role` in phase `phase` on `event` at `now`.
pub open spec fn step_of(
    role: RoleView,
    phase: LinkPhase,
    node: NodeView,
    event: EventView,
    now: i64,
) -> StepView {
    match role {
        RoleView::Accepted => accepted_step(phase, node, event, now),
        RoleView::Dialed { peer_id } => dialed_step(peer_id, phase, node, event, now),
    }
}

impl MeshNode {
    /// The handshake of this node stamped `now`.
    pub fn handshake_at(&self, now: i64) -> (m: MeshMessage)
        ensures
            m@ == handshake_of(self@, now),
    {
        MeshMessage::Handshake { node_id: self.id().clone(), timestamp: now }
    }

    /// Takes in a message read at `now` on an accepted connection and returns the answer
    /// to write back, if one is due; see [`after_inbound`] and [`reply_to_inbound`].
    pub fn handle_inbound_at(&mut self, msg: &MeshMessage, now: i64) -> (reply: Option<MeshMessage>)
        requires
            can_take_in(old(self)@, msg@),
        ensures
            final(self)@ == after_inbound(old(self)@, msg@, now),
            optional_message_view(reply) == reply_to_inbound(old(self)@, msg@, now),
    {
        match msg {
            MeshMessage::Handshake { node_id, .. } => {
                let ack = MeshMessage::Ack {
                    node_id: self.id().clone(),
                    ack_to: node_id.clone(),
                    timestamp: now,
                };
                self.accept_handshake_at(node_id.as_str(), now);
                Some(ack)
            },
            MeshMessage::Heartbeat { node_id, .. } => {
                self.note_heartbeat_at(node_id.as_str(), now);
                None
            },
            MeshMessage::StateSync { node_id, cells, generation, load, .. } => {
                self.note_state_at(node_id.as_str(), *cells, *generation, *load, now);
                None
            },
            MeshMessage::Fire { node_id, timestamp } => {
                self.note_fire_remote(node_id.as_str(), *timestamp, HEBBIAN_FIRE_WINDOW_MS);
                None
            },
            MeshMessage::Ack { .. } => None,
        }
    }

    /// Takes in a message read at the present time on an accepted connection.
    pub fn handle_inbound(&mut self, msg: &MeshMessage) -> (reply: Option<MeshMessage>)
        requires
            can_take_in(old(self)@, msg@),
        ensures
            exists|now: i64|
                final(self)@ == #[trigger] after_inbound(old(self)@, msg@, now)
                    && optional_message_view(reply) == reply_to_inbound(old(self)@, msg@, now),
    {
        let now: i64 = now_millis();
        self.handle_inbound_at(msg, now)
    }

    /// Takes in a message read at `now` on a dialed connection; see
    /// [`after_dialed_inbound`].
    pub fn handle_dialed_inbound_at(&mut self, msg: &MeshMessage, now: i64)
        requires
            can_take_in_dialed(old(self)@, msg@),
        ensures
            final(self)@ == after_dialed_inbound(old(self)@, msg@, now),
    {
        match msg {
            MeshMessage::Handshake { node_id, .. } => {
                self.mark_connected_at(node_id.as_str(), now);
            },
            MeshMessage::Heartbeat { node_id, .. } => {
                self.note_heartbeat_at(node_id.as_str(), now);
            },
            MeshMessage::StateSync { node_id, cells, generation, load, .. } => {
                self.note_state_at(node_id.as_str(), *cells, *generation, *load, now);
            },
            _ => {},
        }
    }

    /// Takes in a message read at the present time on a dialed connection.
    pub fn handle_dialed_inbound(&mut self, msg: &MeshMessage)
        requires
            can_take_in_dialed(old(self)@, msg@),
        ensures
            exists|now: i64| final(self)@ == #[trigger] after_dialed_inbound(old(self)@, msg@, now),
    {
        let now: i64 = now_millis();
        self.handle_dialed_inbound_at(msg, now);
    }
}

/// One connection to a peer.
#[derive(Debug)]
pub struct Connection {
    pub role: LinkRole,
    pub phase: LinkPhase,
}

impl Connection {
    /// A connection that a peer opened, its socket not yet taken over.
    pub fn accepted() -> (c: Self)
        ensures
            c.role@ == RoleView::Accepted,
            c.phase == LinkPhase::Connecting,
    {
        Connection { role: LinkRole::Accepted, phase: LinkPhase::Connecting }
    }

    /// A connection that this node is about to dial to the registered peer `peer_id`.
    pub fn dialed(peer_id: String) -> (c: Self)
        ensures
            c.role@ == (RoleView::Dialed { peer_id: peer_id@ }),
            c.phase == LinkPhase::Connecting,
    {
        Connection { role: LinkRole::Dialed { peer_id }, phase: LinkPhase::Connecting }
    }

    /// Whether the connection is over.
    pub fn is_closing(&self) -> (b: bool)
        ensures
            b == (self.phase == LinkPhase::Closing),
    {
        match self.phase {
            LinkPhase::Closing => true,
            _ => false,
        }
    }

    /// Takes one step on `event` at `now`: changes the phase and the node as
    /// [`step_of`] says and returns what is to be written to the socket.
    pub fn step_at(&mut self, node: &mut MeshNode, event: &LinkEvent, now: i64) -> (reply: Option<
        MeshMessage,
    >)
        requires
            can_step(old(self).role@, old(self).phase, old(node)@, event@),
        ensures
            final(self).role == old(self).role,
            final(self).phase == step_of(
                old(self).role@,
                old(self).phase,
                old(node)@,
                event@,
                now,
            ).phase,
            final(node)@ == step_of(old(self).role@, old(self).phase, old(node)@, event@, now).node,
            optional_message_view(reply) == step_of(
                old(self).role@,
                old(self).phase,
                old(node)@,
                event@,
                now,
            ).reply,
    {
        match self.phase {
            LinkPhase::Closing => None,
            LinkPhase::Connecting => match event {
                LinkEvent::Opened => {
                    let handshake = node.handshake_at(now);
                    match &self.role {
                        LinkRole::Accepted => {
                            node.attach_outbox();
                        },
                        LinkRole::Dialed { peer_id } => {
                            node.mark_connected_at(peer_id.as_str(), now);
                        },
                    }
                    self.phase = LinkPhase::Handshaking;
                    Some(handshake)
                },
                LinkEvent::DialFailed => match &self.role {
                    LinkRole::Accepted => None,
                    LinkRole::Dialed { peer_id } => {
                        node.record_peer_failure_at(peer_id.as_str(), now);
                        self.phase = LinkPhase::Closing;
                        None
                    },
                },
                _ => None,
            },
            _ => match event {
                LinkEvent::Frame(msg) => {
                    let opens = match msg {
                        MeshMessage::Handshake { .. } => true,
                        _ => false,
                    };
                    let reply = match &self.role {
                        LinkRole::Accepted => node.handle_inbound_at(msg, now),
                        LinkRole::Dialed { .. } => {
                            node.handle_dialed_inbound_at(msg, now);
                            None
                        },
                    };
                    if opens {
                        self.phase = LinkPhase::Established;
                    }
                    reply
                },
                LinkEvent::SendFailed => match &self.role {
                    LinkRole::Accepted => {
                        node.record_failure_all_at(now);
                        node.detach_outbox();
                        self.phase = LinkPhase::Closing;
                        None
                    },
                    LinkRole::Dialed { .. } => None,
                },
                LinkEvent::Closed => {
                    match &self.role {
                        LinkRole::Accepted => {
                            node.detach_outbox();
                        },
                        LinkRole::Dialed { peer_id } => {
                            node.mark_disconnected_at(peer_id.as_str(), now);
                        },
                    }
                    self.phase = LinkPhase::Closing;
                    None
                },
                _ => None,
            },
        }
    }

    /// Takes one step on `event` at the present time.
    pub fn step(&mut self, node: &mut MeshNode, event: &LinkEvent) -> (reply: Option<MeshMessage>)
        requires
            can_step(old(self).role@, old(self).phase, old(node)@, event@),
        ensures
            final(self).role == old(self).role,
            exists|now: i64|
                {
                    let step = #[trigger] step_of(
                        old(self).role@,
                        old(self).phase,
                        old(node)@,
                        event@,
                        now,
                    );
                    &&& final(self).phase == step.phase
                    &&& final(node)@ == step.node
                    &&& optional_message_view(reply) == step.reply
                },
    {
        let now: i64 = now_millis();
        self.step_at(node, event, now)
    }
}

/// A connection that is over stays over, and nothing that happens on it changes the node
/// or is answered.
pub proof fn lemma_closing_is_final(role: RoleView, node: NodeView, event: EventView, now: i64)
    ensures
        step_of(role, LinkPhase::Closing, node, event, now) == (StepView {
            phase: LinkPhase::Closing,
            node,
            reply: None,
        }),
{
}

/// A frame that holds no message changes nothing and is not answered, in whatever phase
/// and role.
pub proof fn lemma_malformed_is_dropped(role: RoleView, phase: LinkPhase, node: NodeView, now: i64)
    ensures
        step_of(role, phase, node, EventView::Malformed, now) == (StepView {
            phase,
            node,
            reply: None,
        }),
{
}

/// No step ever takes a record out of the registry.
pub proof fn lemma_step_keeps_peers(
    role: RoleView,
    phase: LinkPhase,
    node: NodeView,
    event: EventView,
    now: i64,
)
    ensures
        step_of(role, phase, node, event, now).node.peers.len() >= node.peers.len(),
{
}

/// The place of a phase in the life of a connection.
pub open spec fn phase_rank(phase: LinkPhase) -> int {
    match phase {
        LinkPhase::Connecting => 0,
        LinkPhase::Handshaking => 1,
        LinkPhase::Established => 2,
        LinkPhase::Closing => 3,
    }
}

/// A connection never goes back to an earlier phase.
pub proof fn lemma_phase_never_goes_back(
    role: RoleView,
    phase: LinkPhase,
    node: NodeView,
    event: EventView,
    now: i64,
)
    ensures
        phase_rank(step_of(role, phase, node, event, now).phase) >= phase_rank(phase),
{
}

/// Only what is read on an accepted connection is ever answered, and only a handshake:
/// with the handshake of this node when the socket opens, and with an acknowledgement
/// when the peer's handshake is read.
pub proof fn lemma_replies(
    role: RoleView,
    phase: LinkPhase,
    node: NodeView,
    event: EventView,
    now: i64,
)
    ensures
        match step_of(role, phase, node, event, now).reply {
            Some(MessageView::Handshake { node_id, timestamp }) => {
                &&& phase == LinkPhase::Connecting
                &&& event == EventView::Opened
                &&& node_id == node.id
                &&& timestamp == now
            },
            Some(MessageView::Ack { node_id, ack_to, timestamp }) => {
                &&& role == RoleView::Accepted
                &&& event is Frame
                &&& event->Frame_0 is Handshake
                &&& node_id == node.id
                &&& ack_to == event->Frame_0.sender()
                &&& timestamp == now
            },
            Some(_) => false,
            None => true,
        },
{
}

/// While no counter of any record is full, every step can be taken and every message
/// taken in.
pub proof fn lemma_room_for_every_step(
    role: RoleView,
    phase: LinkPhase,
    node: NodeView,
    event: EventView,
    m: MessageView,
)
    requires
        node.counters_have_room(),
    ensures
        can_step(role, phase, node, event),
        can_take_in(node, m),
        can_take_in_dialed(node, m),
{
}

} // verus!
