use soma_mesh::message::MeshMessage;
use soma_mesh::node::MeshNode;
use soma_mesh::protocol::{Connection, LinkEvent, LinkPhase, LinkRole};
use soma_mesh::units::UNIT;

fn handshake(id: &str, ts: i64) -> MeshMessage {
    MeshMessage::Handshake { node_id: id.to_string(), timestamp: ts }
}

fn heartbeat(id: &str, ts: i64) -> MeshMessage {
    MeshMessage::Heartbeat { node_id: id.to_string(), timestamp: ts }
}

fn state(id: &str, cells: usize, generation: u32, load: u32, ts: i64) -> MeshMessage {
    MeshMessage::StateSync { node_id: id.to_string(), cells, generation, load, timestamp: ts }
}

fn fire(id: &str, ts: i64) -> MeshMessage {
    MeshMessage::Fire { node_id: id.to_string(), timestamp: ts }
}

#[test]
fn an_accepted_connection_sends_its_handshake_at_once() {
    let mut node = MeshNode::new("n1");
    let mut link = Connection::accepted();
    assert!(matches!(link.role, LinkRole::Accepted));
    assert_eq!(link.phase, LinkPhase::Connecting);
    let reply = link.step_at(&mut node, &LinkEvent::Opened, 100);
    match reply {
        Some(MeshMessage::Handshake { node_id, timestamp }) => {
            assert_eq!(node_id, "n1");
            assert_eq!(timestamp, 100);
        }
        other => panic!("not a handshake: {:?}", other),
    }
    assert_eq!(link.phase, LinkPhase::Handshaking);
    assert!(node.has_outbox());
    assert!(!link.is_closing());
}

#[test]
fn a_handshake_is_acknowledged_and_establishes_the_link() {
    let mut node = MeshNode::new("n1");
    let mut link = Connection::accepted();
    link.step_at(&mut node, &LinkEvent::Opened, 100);
    let reply = link.step_at(&mut node, &LinkEvent::Frame(handshake("p1", 90)), 110);
    match reply {
        Some(MeshMessage::Ack { node_id, ack_to, timestamp }) => {
            assert_eq!(node_id, "n1");
            assert_eq!(ack_to, "p1");
            assert_eq!(timestamp, 110);
        }
        other => panic!("not an acknowledgement: {:?}", other),
    }
    assert_eq!(link.phase, LinkPhase::Established);
    let p = node.get_peer("p1").unwrap();
    assert!(p.connected());
    assert_eq!(p.last_seen(), 110);
    assert_eq!(p.url(), &None);
    assert_eq!(p.weight(), 300_000);
}

#[test]
fn frames_on_an_accepted_connection_are_dispatched() {
    let mut node = MeshNode::new("n1");
    let mut link = Connection::accepted();
    link.step_at(&mut node, &LinkEvent::Opened, 100);
    link.step_at(&mut node, &LinkEvent::Frame(handshake("p1", 90)), 110);
    node.record_peer_failure_at("p1", 0);
    assert!(link.step_at(&mut node, &LinkEvent::Frame(heartbeat("p1", 1)), 200).is_none());
    assert_eq!(node.get_peer("p1").unwrap().last_seen(), 200);
    assert_eq!(node.get_peer("p1").unwrap().health().quality(), 900_000);
    assert!(link
        .step_at(&mut node, &LinkEvent::Frame(state("p1", 9, 4, 333_000, 1)), 300)
        .is_none());
    let p = node.get_peer("p1").unwrap();
    assert_eq!((p.cells(), p.generation(), p.load(), p.last_seen()), (9, 4, 333_000, 300));
    assert_eq!(p.health().quality(), UNIT);
    node.send_fire_at(1_000);
    assert!(link.step_at(&mut node, &LinkEvent::Frame(fire("p1", 1_050)), 400).is_none());
    let p = node.get_peer("p1").unwrap();
    assert_eq!(p.last_fires(), (1_000, 1_050));
    assert_eq!(p.weight(), 341_932);
    assert_eq!(p.last_seen(), 300);
    let ack = MeshMessage::Ack { node_id: "p1".to_string(), ack_to: "n1".to_string(), timestamp: 5 };
    assert!(link.step_at(&mut node, &LinkEvent::Frame(ack), 500).is_none());
    assert_eq!(node.get_peer("p1").unwrap().last_seen(), 300);
    assert_eq!(link.phase, LinkPhase::Established);
}

#[test]
fn frames_of_unknown_peers_and_malformed_frames_change_nothing() {
    let mut node = MeshNode::new("n1");
    let mut link = Connection::accepted();
    link.step_at(&mut node, &LinkEvent::Opened, 100);
    assert!(link.step_at(&mut node, &LinkEvent::Frame(heartbeat("ghost", 1)), 200).is_none());
    assert!(link.step_at(&mut node, &LinkEvent::Frame(state("ghost", 1, 1, 1, 1)), 200).is_none());
    assert!(link.step_at(&mut node, &LinkEvent::Frame(fire("ghost", 1)), 200).is_none());
    assert!(link.step_at(&mut node, &LinkEvent::Malformed, 200).is_none());
    assert_eq!(node.get_peer_count(), 0);
    assert_eq!(link.phase, LinkPhase::Handshaking);
    assert!(node.has_outbox());
}

#[test]
fn a_failed_write_ends_an_accepted_connection_and_counts_against_every_peer() {
    let mut node = MeshNode::new("n1");
    node.register_peer_at("other".to_string(), "ws://o".to_string(), 0);
    let mut link = Connection::accepted();
    link.step_at(&mut node, &LinkEvent::Opened, 100);
    link.step_at(&mut node, &LinkEvent::Frame(handshake("p1", 90)), 110);
    assert!(link.step_at(&mut node, &LinkEvent::SendFailed, 120).is_none());
    assert!(link.is_closing());
    assert!(!node.has_outbox());
    assert_eq!(node.get_peer("p1").unwrap().health().quality(), 800_000);
    assert_eq!(node.get_peer("other").unwrap().health().quality(), 800_000);
    assert!(node.get_peer("p1").unwrap().connected());
    assert!(link.step_at(&mut node, &LinkEvent::Frame(heartbeat("p1", 1)), 500).is_none());
    assert!(link.step_at(&mut node, &LinkEvent::Frame(handshake("p9", 1)), 500).is_none());
    assert!(link.step_at(&mut node, &LinkEvent::SendFailed, 500).is_none());
    assert!(link.step_at(&mut node, &LinkEvent::Opened, 500).is_none());
    assert_eq!(node.get_peer("p1").unwrap().last_seen(), 110);
    assert_eq!(node.get_peer("p1").unwrap().health().quality(), 800_000);
    assert_eq!(node.get_peer_count(), 2);
    assert!(link.is_closing());
}

#[test]
fn the_end_of_the_stream_ends_an_accepted_connection() {
    let mut node = MeshNode::new("n1");
    let mut link = Connection::accepted();
    link.step_at(&mut node, &LinkEvent::Opened, 100);
    link.step_at(&mut node, &LinkEvent::Frame(handshake("p1", 90)), 110);
    node.broadcast_heartbeat_at(111);
    assert!(link.step_at(&mut node, &LinkEvent::Closed, 120).is_none());
    assert_eq!(link.phase, LinkPhase::Closing);
    assert!(!node.has_outbox());
    assert!(node.take_outbound().is_empty());
    let p = node.get_peer("p1").unwrap();
    assert!(p.connected());
    assert_eq!(p.health().quality(), UNIT);
}

#[test]
fn nothing_happens_on_a_connection_that_is_not_open() {
    let mut node = MeshNode::new("n1");
    let mut link = Connection::accepted();
    assert!(link.step_at(&mut node, &LinkEvent::Frame(handshake("p1", 90)), 110).is_none());
    assert!(link.step_at(&mut node, &LinkEvent::SendFailed, 110).is_none());
    assert!(link.step_at(&mut node, &LinkEvent::Closed, 110).is_none());
    assert!(link.step_at(&mut node, &LinkEvent::DialFailed, 110).is_none());
    assert_eq!(link.phase, LinkPhase::Connecting);
    assert_eq!(node.get_peer_count(), 0);
    assert!(!node.has_outbox());
}

#[test]
fn a_failed_dial_counts_against_the_dialed_peer_only() {
    let mut node = MeshNode::new("n1");
    node.register_peer_at("p1".to_string(), "ws://x".to_string(), 0);
    node.register_peer_at("p2".to_string(), "ws://y".to_string(), 0);
    let mut link = Connection::dialed("p1".to_string());
    assert!(matches!(&link.role, LinkRole::Dialed { peer_id } if peer_id == "p1"));
    assert!(link.step_at(&mut node, &LinkEvent::DialFailed, 50).is_none());
    assert!(link.is_closing());
    let p1 = node.get_peer("p1").unwrap();
    assert_eq!(p1.health().quality(), 800_000);
    assert!(!p1.connected());
    assert_eq!(node.get_peer("p2").unwrap().health().quality(), UNIT);
    assert_eq!(node.get_peer_count(), 2);
    assert_eq!(node.peers_to_reconnect().len(), 2);
}

#[test]
fn five_failed_dials_through_the_state_machine() {
    let mut node = MeshNode::new("n1");
    node.register_peer_at("p1".to_string(), "ws://x".to_string(), 0);
    for _ in 0..5 {
        let targets = node.peers_to_reconnect();
        assert_eq!(targets, vec![("p1".to_string(), "ws://x".to_string())]);
        let mut link = Connection::dialed(targets[0].0.clone());
        link.step_at(&mut node, &LinkEvent::DialFailed, 50);
    }
    assert_eq!(node.get_peer("p1").unwrap().health().quality(), 0);
    assert!(node.peers_to_reconnect().is_empty());
    assert_eq!(node.get_peer_count(), 1);
}

#[test]
fn a_dial_that_succeeds_marks_the_peer_connected_and_sends_a_handshake() {
    let mut node = MeshNode::new("n1");
    node.register_peer_at("p1".to_string(), "ws://x".to_string(), 0);
    node.record_peer_failure_at("p1", 0);
    let mut link = Connection::dialed("p1".to_string());
    let reply = link.step_at(&mut node, &LinkEvent::Opened, 60);
    match reply {
        Some(MeshMessage::Handshake { node_id, timestamp }) => {
            assert_eq!(node_id, "n1");
            assert_eq!(timestamp, 60);
        }
        other => panic!("not a handshake: {:?}", other),
    }
    assert_eq!(link.phase, LinkPhase::Handshaking);
    assert!(!node.has_outbox());
    let p1 = node.get_peer("p1").unwrap();
    assert!(p1.connected());
    assert_eq!(p1.health().quality(), 900_000);
    assert_eq!(p1.last_seen(), 0);
    assert!(node.peers_to_reconnect().is_empty());
}

#[test]
fn frames_on_a_dialed_connection_are_dispatched_without_answer() {
    let mut node = MeshNode::new("n1");
    node.register_peer_at("p1".to_string(), "ws://x".to_string(), 0);
    for _ in 0..3 {
        node.record_peer_failure_at("p1", 0);
    }
    let mut link = Connection::dialed("p1".to_string());
    link.step_at(&mut node, &LinkEvent::Opened, 60);
    assert_eq!(node.get_peer("p1").unwrap().health().quality(), 500_000);
    assert!(link.step_at(&mut node, &LinkEvent::Frame(handshake("p1", 1)), 70).is_none());
    assert_eq!(link.phase, LinkPhase::Established);
    let p1 = node.get_peer("p1").unwrap();
    assert_eq!(p1.health().quality(), 600_000);
    assert_eq!(p1.url(), &Some("ws://x".to_string()));
    assert_eq!(p1.last_seen(), 0);
    assert!(link.step_at(&mut node, &LinkEvent::Frame(heartbeat("p1", 1)), 80).is_none());
    assert_eq!(node.get_peer("p1").unwrap().last_seen(), 80);
    assert!(link.step_at(&mut node, &LinkEvent::Frame(state("p1", 2, 3, 4, 1)), 90).is_none());
    let p1 = node.get_peer("p1").unwrap();
    assert_eq!((p1.cells(), p1.generation(), p1.load(), p1.last_seen()), (2, 3, 4, 90));
    node.send_fire_at(1_000);
    assert!(link.step_at(&mut node, &LinkEvent::Frame(fire("p1", 1_050)), 95).is_none());
    let p1 = node.get_peer("p1").unwrap();
    assert_eq!(p1.last_fires(), (1_000, 0));
    assert_eq!(p1.weight(), 300_000);
    assert!(link.step_at(&mut node, &LinkEvent::Frame(handshake("ghost", 1)), 96).is_none());
    assert_eq!(node.get_peer_count(), 1);
    assert!(link.step_at(&mut node, &LinkEvent::SendFailed, 97).is_none());
    assert!(link.step_at(&mut node, &LinkEvent::Malformed, 97).is_none());
    assert_eq!(link.phase, LinkPhase::Established);
    assert_eq!(node.get_peer("p1").unwrap().health().quality(), 800_000);
}

#[test]
fn the_close_of_a_dialed_connection_marks_the_peer_down() {
    let mut node = MeshNode::new("n1");
    node.register_peer_at("p1".to_string(), "ws://x".to_string(), 0);
    let mut link = Connection::dialed("p1".to_string());
    link.step_at(&mut node, &LinkEvent::Opened, 60);
    assert!(link.step_at(&mut node, &LinkEvent::Closed, 70).is_none());
    assert!(link.is_closing());
    let p1 = node.get_peer("p1").unwrap();
    assert!(!p1.connected());
    assert_eq!(p1.health().quality(), 800_000);
    assert_eq!(p1.health().successes(), 1);
    assert_eq!(p1.health().failures(), 1);
    assert_eq!(
        node.peers_to_reconnect(),
        vec![("p1".to_string(), "ws://x".to_string())]
    );
}

#[test]
fn steps_at_the_present_time() {
    let mut node = MeshNode::new("n1");
    let mut link = Connection::accepted();
    let reply = link.step(&mut node, &LinkEvent::Opened);
    match reply {
        Some(MeshMessage::Handshake { node_id, timestamp }) => {
            assert_eq!(node_id, "n1");
            assert!(timestamp > 1_600_000_000_000);
        }
        other => panic!("not a handshake: {:?}", other),
    }
    let reply = link.step(&mut node, &LinkEvent::Frame(handshake("p1", 1)));
    assert!(matches!(reply, Some(MeshMessage::Ack { .. })));
    assert!(node.get_peer("p1").unwrap().last_seen() > 1_600_000_000_000);
    let reply = node.handle_inbound(&heartbeat("p1", 1));
    assert!(reply.is_none());
    assert_eq!(node.get_peer("p1").unwrap().health().successes(), 1);
    node.handle_dialed_inbound(&state("p1", 5, 6, 7, 1));
    assert_eq!(node.get_peer("p1").unwrap().load(), 7);
    node.handle_dialed_inbound_at(&fire("p1", 9), 10);
    assert_eq!(node.get_peer("p1").unwrap().last_fires(), (0, 0));
    let reply = node.handle_inbound_at(&handshake("p2", 1), 77);
    assert!(matches!(reply, Some(MeshMessage::Ack { timestamp: 77, .. })));
    let h = node.handshake_at(5);
    assert_eq!(h.node_id(), "n1");
    assert_eq!(h.timestamp(), 5);
    assert_eq!(h.clone().timestamp(), 5);
}
