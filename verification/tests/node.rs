use soma_mesh::message::MeshMessage;
use soma_mesh::node::MeshNode;
use soma_mesh::peer::{PEER_ALIVE_TIMEOUT_MS, WEIGHT_INITIAL, WEIGHT_MAX, WEIGHT_MIN};
use soma_mesh::units::UNIT;

fn ids(node: &MeshNode) -> Vec<String> {
    node.peers().iter().map(|p| p.id().clone()).collect()
}

#[test]
fn a_new_node_knows_no_peer() {
    let node = MeshNode::new("n1");
    assert_eq!(node.id(), "n1");
    assert_eq!(node.get_peer_count(), 0);
    assert!(node.peers().is_empty());
    assert!(!node.has_outbox());
    assert!(node.counters_have_room());
    assert!(node.get_link_weights().is_empty());
    assert!(node.get_top_links(3).is_empty());
    assert!(node.snapshot_weights().is_empty());
    assert!(node.peers_to_reconnect().is_empty());
    assert_eq!(node.pick_best_peer(UNIT), None);
    assert!(node.get_alive_peers(PEER_ALIVE_TIMEOUT_MS).is_empty());
}

#[test]
fn a_failed_dial_lowers_quality_and_keeps_the_entry() {
    let mut node = MeshNode::new("n1");
    node.register_peer("p1".to_string(), "ws://x".to_string());
    assert_eq!(node.get_peer_count(), 1);
    assert_eq!(node.get_peer("p1").unwrap().health().quality(), 1_000_000);
    node.record_peer_failure_at("p1", 0);
    let p = node.get_peer("p1").unwrap();
    assert_eq!(p.health().quality(), 800_000);
    assert_eq!(p.health().failures(), 1);
    assert!(!p.connected());
    assert_eq!(node.get_peer_count(), 1);
    assert_eq!(
        node.peers_to_reconnect(),
        vec![("p1".to_string(), "ws://x".to_string())]
    );
}

#[test]
fn five_failed_dials_exclude_a_peer_from_the_sweep_for_good() {
    let mut node = MeshNode::new("n1");
    node.register_peer_at("p1".to_string(), "ws://x".to_string(), 0);
    node.register_peer_at("p2".to_string(), "ws://y".to_string(), 0);
    for n in 1..=5u32 {
        assert_eq!(node.peers_to_reconnect().len(), 2);
        node.record_peer_failure_at("p1", 0);
        assert_eq!(
            node.get_peer("p1").unwrap().health().quality(),
            1_000_000 - 200_000 * n
        );
    }
    assert_eq!(node.get_peer("p1").unwrap().health().quality(), 0);
    assert_eq!(
        node.peers_to_reconnect(),
        vec![("p2".to_string(), "ws://y".to_string())]
    );
    for _ in 0..3 {
        node.record_peer_failure_at("p1", 0);
        node.mark_stale_peers_at(PEER_ALIVE_TIMEOUT_MS, 1_000_000);
        assert_eq!(
            node.peers_to_reconnect(),
            vec![("p2".to_string(), "ws://y".to_string())]
        );
    }
    assert_eq!(node.get_peer_count(), 2);
    assert_eq!(node.get_peer("p1").unwrap().health().quality(), 0);
}

#[test]
fn registering_again_takes_the_place_of_the_old_record() {
    let mut node = MeshNode::new("n1");
    node.register_peer_at("a".to_string(), "ws://a".to_string(), 1);
    node.register_peer_at("b".to_string(), "ws://b".to_string(), 2);
    node.set_link_weight("a", 900_000);
    node.record_peer_failure_at("a", 0);
    node.register_peer_at("a".to_string(), "ws://a2".to_string(), 3);
    assert_eq!(ids(&node), vec!["a".to_string(), "b".to_string()]);
    let a = node.get_peer("a").unwrap();
    assert_eq!(a.url(), &Some("ws://a2".to_string()));
    assert_eq!(a.weight(), WEIGHT_INITIAL);
    assert_eq!(a.health().quality(), UNIT);
    assert_eq!(a.last_seen(), 3);
    assert_eq!(node.get_peer("b").unwrap().last_seen(), 2);
}

#[test]
fn a_handshake_makes_a_connected_record_without_address() {
    let mut node = MeshNode::new("n1");
    node.register_peer_at("a".to_string(), "ws://a".to_string(), 1);
    node.accept_handshake_at("a", 10);
    node.accept_handshake_at("b", 11);
    assert_eq!(ids(&node), vec!["a".to_string(), "b".to_string()]);
    let a = node.get_peer("a").unwrap();
    assert!(a.connected());
    assert_eq!(a.url(), &None);
    assert_eq!(a.last_seen(), 10);
    assert!(node.get_peer("b").unwrap().connected());
    assert!(node.peers_to_reconnect().is_empty());
}

#[test]
fn finding_a_peer() {
    let mut node = MeshNode::new("n1");
    node.accept_handshake_at("a", 10);
    node.accept_handshake_at("b", 11);
    assert_eq!(node.find_peer("a"), Some(0));
    assert_eq!(node.find_peer("b"), Some(1));
    assert_eq!(node.find_peer("c"), None);
    assert_eq!(node.find_peer(""), None);
    assert!(node.get_peer("c").is_none());
    assert_eq!(node.get_peer("b").unwrap().id(), "b");
}

#[test]
fn alive_peers_are_those_heard_of_within_the_timeout() {
    let mut node = MeshNode::new("n1");
    node.accept_handshake_at("old", 1_000);
    node.accept_handshake_at("mid", 10_000);
    node.accept_handshake_at("new", 20_000);
    let alive = node.get_alive_peers_at(15_000, 24_000);
    let names: Vec<String> = alive.iter().map(|p| p.id().clone()).collect();
    assert_eq!(names, vec!["mid".to_string(), "new".to_string()]);
    assert_eq!(node.get_alive_peers_at(15_000, 16_000).len(), 2);
    assert_eq!(node.get_alive_peers_at(15_000, 15_999).len(), 3);
    assert_eq!(node.get_alive_peers_at(15_000, 35_000).len(), 0);
    assert_eq!(node.get_alive_peers_at(0, 30_000).len(), 0);
    assert_eq!(node.get_alive_peers_at(0, 0).len(), 3);
    assert_eq!(node.get_peer_count(), 3);
    assert_eq!(node.alive_loads_at(24_000), vec![0, 0]);
    assert_eq!(node.alive_qualities_at(24_000), vec![UNIT, UNIT]);
}

#[test]
fn peers_heard_of_now_are_alive() {
    let mut node = MeshNode::new("n1");
    node.register_peer("a".to_string(), "ws://a".to_string());
    assert_eq!(node.get_alive_peers(PEER_ALIVE_TIMEOUT_MS).len(), 1);
    assert_eq!(node.get_alive_peers(-1).len(), 0);
}

#[test]
fn setting_a_link_weight_clamps_it() {
    let mut node = MeshNode::new("n1");
    node.accept_handshake_at("a", 0);
    node.accept_handshake_at("b", 0);
    node.set_link_weight("a", 750_000);
    assert_eq!(node.get_peer("a").unwrap().weight(), 750_000);
    node.set_link_weight("a", 2_000_000);
    assert_eq!(node.get_peer("a").unwrap().weight(), WEIGHT_MAX);
    node.set_link_weight("a", 1);
    assert_eq!(node.get_peer("a").unwrap().weight(), WEIGHT_MIN);
    node.set_link_weight("zzz", 500_000);
    assert_eq!(node.get_peer_count(), 2);
    assert_eq!(node.get_peer("b").unwrap().weight(), WEIGHT_INITIAL);
}

#[test]
fn link_weights_list_every_link_in_order() {
    let mut node = MeshNode::new("n1");
    node.accept_handshake_at("a", 0);
    node.accept_handshake_at("b", 0);
    node.accept_handshake_at("c", 0);
    node.set_link_weight("b", 800_000);
    node.record_peer_failure_at("c", 0);
    assert_eq!(
        node.get_link_weights(),
        vec![
            ("a".to_string(), 300_000, 1_000_000),
            ("b".to_string(), 800_000, 1_000_000),
            ("c".to_string(), 300_000, 800_000),
        ]
    );
}

#[test]
fn top_links_are_sorted_by_descending_weight_and_cut() {
    let mut node = MeshNode::new("n1");
    for (id, w) in [("a", 400_000), ("b", 900_000), ("c", 150_000), ("d", 900_000), ("e", 600_000)]
    {
        node.accept_handshake_at(id, 0);
        node.set_link_weight(id, w);
    }
    let top = node.get_top_links(3);
    assert_eq!(
        top,
        vec![
            ("b".to_string(), 900_000, 1_000_000),
            ("d".to_string(), 900_000, 1_000_000),
            ("e".to_string(), 600_000, 1_000_000),
        ]
    );
    for n in 0..8usize {
        let links = node.get_top_links(n);
        assert_eq!(links.len(), n.min(node.get_peer_count()));
        for pair in links.windows(2) {
            assert!(pair[0].1 >= pair[1].1);
        }
    }
    let all: Vec<String> = node.get_top_links(usize::MAX).into_iter().map(|l| l.0).collect();
    assert_eq!(all, vec!["b", "d", "e", "a", "c"]);
    assert_eq!(ids(&node), vec!["a", "b", "c", "d", "e"]);
}

#[test]
fn snapshot_and_load_of_weights() {
    let mut node = MeshNode::new("n1");
    node.accept_handshake_at("a", 0);
    node.accept_handshake_at("b", 0);
    node.set_link_weight("a", 450_000);
    let snapshot = node.snapshot_weights();
    assert_eq!(
        snapshot,
        vec![("a".to_string(), 450_000), ("b".to_string(), 300_000)]
    );
    let mut other = MeshNode::new("n2");
    other.accept_handshake_at("b", 0);
    other.accept_handshake_at("a", 0);
    other.accept_handshake_at("c", 0);
    other.load_weights(snapshot);
    assert_eq!(other.get_peer("a").unwrap().weight(), 450_000);
    assert_eq!(other.get_peer("b").unwrap().weight(), 300_000);
    assert_eq!(other.get_peer("c").unwrap().weight(), 300_000);
    other.load_weights(vec![
        ("c".to_string(), 5_000_000),
        ("nobody".to_string(), 500_000),
        ("a".to_string(), 0),
        ("a".to_string(), 200_000),
    ]);
    assert_eq!(other.get_peer("c").unwrap().weight(), WEIGHT_MAX);
    assert_eq!(other.get_peer("a").unwrap().weight(), 200_000);
    assert_eq!(other.get_peer_count(), 3);
}

#[test]
fn messages_are_queued_only_while_a_connection_is_attached() {
    let mut node = MeshNode::new("n1");
    node.broadcast_heartbeat_at(5);
    assert!(node.take_outbound().is_empty());
    assert!(!node.has_outbox());
    node.attach_outbox();
    assert!(node.has_outbox());
    node.broadcast_heartbeat_at(6);
    node.broadcast_state_at(4, 2, 250_000, 7);
    node.send_message(MeshMessage::Ack {
        node_id: "n1".to_string(),
        ack_to: "p".to_string(),
        timestamp: 8,
    });
    let out = node.take_outbound();
    assert_eq!(out.len(), 3);
    match &out[0] {
        MeshMessage::Heartbeat { node_id, timestamp } => {
            assert_eq!(node_id, "n1");
            assert_eq!(*timestamp, 6);
        }
        other => panic!("not a heartbeat: {:?}", other),
    }
    match &out[1] {
        MeshMessage::StateSync { node_id, cells, generation, load, timestamp } => {
            assert_eq!(node_id, "n1");
            assert_eq!((*cells, *generation, *load, *timestamp), (4, 2, 250_000, 7));
        }
        other => panic!("not a state report: {:?}", other),
    }
    match &out[2] {
        MeshMessage::Ack { ack_to, .. } => assert_eq!(ack_to, "p"),
        other => panic!("not an acknowledgement: {:?}", other),
    }
    assert!(node.take_outbound().is_empty());
    assert!(node.has_outbox());
    node.broadcast_heartbeat_at(9);
    node.detach_outbox();
    assert!(!node.has_outbox());
    assert!(node.take_outbound().is_empty());
    node.attach_outbox();
    node.broadcast_heartbeat_at(10);
    node.attach_outbox();
    assert!(node.take_outbound().is_empty());
}

#[test]
fn broadcasts_are_stamped_with_the_present_time() {
    let mut node = MeshNode::new("n1");
    node.attach_outbox();
    node.broadcast_heartbeat();
    node.broadcast_state(1, 2, 3);
    node.send_fire();
    let out = node.take_outbound();
    assert_eq!(out.len(), 3);
    for m in &out {
        assert_eq!(m.node_id(), "n1");
        assert!(m.timestamp() > 1_600_000_000_000);
    }
    assert!(matches!(out[0], MeshMessage::Heartbeat { .. }));
    assert!(matches!(out[1], MeshMessage::StateSync { cells: 1, generation: 2, load: 3, .. }));
    assert!(matches!(out[2], MeshMessage::Fire { .. }));
}

#[test]
fn a_fire_is_noted_with_every_peer_and_updates_no_weight() {
    let mut node = MeshNode::new("n1");
    node.accept_handshake_at("a", 0);
    node.accept_handshake_at("b", 0);
    node.note_fire_remote("a", 1_000, 120);
    let a_weight = node.get_peer("a").unwrap().weight();
    assert_eq!(a_weight, 299_928);
    node.attach_outbox();
    node.send_fire_at(1_050);
    assert_eq!(node.get_peer("a").unwrap().last_fires(), (1_050, 1_000));
    assert_eq!(node.get_peer("b").unwrap().last_fires(), (1_050, 0));
    assert_eq!(node.get_peer("a").unwrap().weight(), a_weight);
    assert_eq!(node.get_peer("b").unwrap().weight(), WEIGHT_INITIAL);
    let out = node.take_outbound();
    assert_eq!(out.len(), 1);
    match &out[0] {
        MeshMessage::Fire { node_id, timestamp } => {
            assert_eq!(node_id, "n1");
            assert_eq!(*timestamp, 1_050);
        }
        other => panic!("not a fire: {:?}", other),
    }
    node.detach_outbox();
    node.send_fire_at(2_000);
    assert_eq!(node.get_peer("b").unwrap().last_fires(), (2_000, 0));
    node.note_fire_local_all(3_000);
    assert_eq!(node.get_peer("a").unwrap().last_fires(), (3_000, 1_000));
}

#[test]
fn a_remote_fire_updates_the_weight_of_its_link_only() {
    let mut node = MeshNode::new("n1");
    node.accept_handshake_at("a", 0);
    node.accept_handshake_at("b", 0);
    node.send_fire_at(1_000);
    node.note_fire_remote("a", 1_050, 120);
    assert_eq!(node.get_peer("a").unwrap().weight(), 341_932);
    assert_eq!(node.get_peer("a").unwrap().last_fires(), (1_000, 1_050));
    assert_eq!(node.get_peer("b").unwrap().weight(), WEIGHT_INITIAL);
    node.note_fire_remote("b", 1_500, 120);
    assert_eq!(node.get_peer("b").unwrap().weight(), 293_931);
    node.note_fire_remote("nobody", 1_500, 120);
    assert_eq!(node.get_peer_count(), 2);
    assert_eq!(node.get_peer("a").unwrap().weight(), 341_932);
}

#[test]
fn heartbeats_and_state_reports_change_the_sender_only() {
    let mut node = MeshNode::new("n1");
    node.accept_handshake_at("a", 0);
    node.accept_handshake_at("b", 0);
    node.record_peer_failure_at("a", 0);
    node.note_heartbeat_at("a", 500);
    let a = node.get_peer("a").unwrap();
    assert_eq!(a.last_seen(), 500);
    assert_eq!(a.health().quality(), 900_000);
    node.note_state_at("b", 7, 3, 650_000, 600);
    let b = node.get_peer("b").unwrap();
    assert_eq!((b.cells(), b.generation(), b.load(), b.last_seen()), (7, 3, 650_000, 600));
    assert_eq!(b.health().successes(), 1);
    assert_eq!(node.get_peer("a").unwrap().load(), 0);
    node.note_heartbeat_at("nobody", 700);
    node.note_state_at("nobody", 1, 1, 1, 700);
    assert_eq!(node.get_peer_count(), 2);
    assert_eq!(node.get_peer("a").unwrap().last_seen(), 500);
}

#[test]
fn links_come_up_and_go_down() {
    let mut node = MeshNode::new("n1");
    node.register_peer_at("a".to_string(), "ws://a".to_string(), 0);
    node.record_peer_failure_at("a", 0);
    node.mark_connected_at("a", 0);
    let a = node.get_peer("a").unwrap();
    assert!(a.connected());
    assert_eq!(a.health().quality(), 900_000);
    assert_eq!(a.last_seen(), 0);
    assert!(node.peers_to_reconnect().is_empty());
    node.mark_disconnected_at("a", 0);
    let a = node.get_peer("a").unwrap();
    assert!(!a.connected());
    assert_eq!(a.health().quality(), 700_000);
    assert_eq!(node.peers_to_reconnect().len(), 1);
    node.mark_connected_at("nobody", 0);
    node.mark_disconnected_at("nobody", 0);
    node.record_peer_failure_at("nobody", 0);
    assert_eq!(node.get_peer_count(), 1);
}

#[test]
fn a_failed_write_counts_against_every_peer() {
    let mut node = MeshNode::new("n1");
    node.accept_handshake_at("a", 0);
    node.register_peer_at("b".to_string(), "ws://b".to_string(), 0);
    node.record_peer_failure_at("b", 0);
    node.record_failure_all_at(0);
    assert_eq!(node.get_peer("a").unwrap().health().quality(), 800_000);
    assert_eq!(node.get_peer("b").unwrap().health().quality(), 600_000);
    assert!(node.get_peer("a").unwrap().connected());
    assert_eq!(node.get_peer("a").unwrap().health().failures(), 1);
    assert_eq!(node.get_peer("b").unwrap().health().failures(), 2);
}

#[test]
fn stale_peers_are_marked_down_and_kept() {
    let mut node = MeshNode::new("n1");
    node.accept_handshake_at("old", 1_000);
    node.accept_handshake_at("new", 20_000);
    node.register_peer_at("reg".to_string(), "ws://r".to_string(), 1_000);
    node.mark_stale_peers_at(15_000, 24_000);
    let old = node.get_peer("old").unwrap();
    assert!(!old.connected());
    assert_eq!(old.health().quality(), 800_000);
    let new = node.get_peer("new").unwrap();
    assert!(new.connected());
    assert_eq!(new.health().quality(), UNIT);
    let reg = node.get_peer("reg").unwrap();
    assert!(!reg.connected());
    assert_eq!(reg.health().quality(), UNIT);
    node.mark_stale_peers_at(15_000, 24_000);
    assert_eq!(node.get_peer("old").unwrap().health().quality(), 800_000);
    assert_eq!(node.get_peer_count(), 3);
    node.mark_stale_peers(PEER_ALIVE_TIMEOUT_MS);
    assert!(!node.get_peer("new").unwrap().connected());
    assert_eq!(node.get_peer("new").unwrap().health().quality(), 800_000);
}

#[test]
fn the_sweep_dials_disconnected_peers_with_address_and_quality() {
    let mut node = MeshNode::new("n1");
    node.register_peer_at("a".to_string(), "ws://a".to_string(), 0);
    node.accept_handshake_at("b", 0);
    node.register_peer_at("c".to_string(), "ws://c".to_string(), 0);
    node.register_peer_at("d".to_string(), "ws://d".to_string(), 0);
    node.mark_stale_peers_at(15_000, 100_000);
    node.mark_connected_at("c", 0);
    for _ in 0..5 {
        node.record_peer_failure_at("d", 0);
    }
    assert_eq!(
        node.peers_to_reconnect(),
        vec![("a".to_string(), "ws://a".to_string())]
    );
}

#[test]
fn the_best_peer_has_the_highest_score_among_the_routable() {
    let mut node = MeshNode::new("n1");
    node.accept_handshake_at("a", 20_000);
    node.accept_handshake_at("b", 20_000);
    node.accept_handshake_at("c", 20_000);
    node.accept_handshake_at("stale", 1_000);
    node.register_peer_at("down".to_string(), "ws://d".to_string(), 20_000);
    node.set_link_weight("a", 500_000);
    node.set_link_weight("b", 700_000);
    node.set_link_weight("c", 600_000);
    node.set_link_weight("stale", 1_000_000);
    node.set_link_weight("down", 1_000_000);
    assert_eq!(node.pick_best_peer_at(UNIT, 24_000), Some("b".to_string()));
    node.record_peer_failure_at("b", 0);
    node.record_peer_failure_at("b", 0);
    assert_eq!(node.pick_best_peer_at(UNIT, 24_000), Some("c".to_string()));
    assert_eq!(node.pick_best_peer_at(UNIT, 10_000), Some("stale".to_string()));
    assert_eq!(node.pick_best_peer_at(UNIT, 40_000), None);
    node.set_link_weight("a", 600_000);
    assert_eq!(node.pick_best_peer_at(250_000, 24_000), Some("c".to_string()));
    assert_eq!(node.pick_best_peer_at(0, 24_000), Some("c".to_string()));
    node.mark_stale_peers_at(15_000, 24_000);
    node.mark_disconnected_at("c", 0);
    assert_eq!(node.pick_best_peer_at(UNIT, 24_000), Some("a".to_string()));
}

#[test]
fn the_best_peer_at_the_present_time() {
    let mut node = MeshNode::new("n1");
    node.register_peer("down".to_string(), "ws://d".to_string());
    assert_eq!(node.pick_best_peer(UNIT), None);
    node.mark_connected_at("down", 0);
    assert_eq!(node.pick_best_peer(UNIT), Some("down".to_string()));
}

#[test]
fn counters_have_room_until_one_is_full() {
    let mut node = MeshNode::new("n1");
    node.accept_handshake_at("a", 0);
    assert!(node.counters_have_room());
    node.record_failure_all_at(0);
    assert!(node.counters_have_room());
}

#[test]
fn drifted_links_are_those_off_the_initial_weight() {
    let mut node = MeshNode::new("n1");
    node.accept_handshake_at("a", 0);
    node.accept_handshake_at("b", 0);
    node.accept_handshake_at("c", 0);
    assert!(node.drifted_links().is_empty());
    node.set_link_weight("a", 450_000);
    node.set_link_weight("c", 100_000);
    assert_eq!(
        node.drifted_links(),
        vec![("a".to_string(), 450_000, 150_000), ("c".to_string(), 100_000, -200_000)]
    );
    node.set_link_weight("a", WEIGHT_INITIAL);
    assert_eq!(node.drifted_links(), vec![("c".to_string(), 100_000, -200_000)]);
}
