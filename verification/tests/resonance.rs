use soma_mesh::node::MeshNode;
use soma_mesh::resonance::{
    correction_among, resonance_among, stats_among, strength_among, ResonanceStats, BASE_STRENGTH,
    MAX_STRENGTH, MIN_STRENGTH, STRENGTH_RANGE,
};
use soma_mesh::stats::{max_of, mean_of, min_of, sum_of, variance_of};
use soma_mesh::units::{scale, UNIT};

fn node_with_loads(loads: &[u32], now: i64) -> MeshNode {
    let mut node = MeshNode::new("local");
    for (k, load) in loads.iter().enumerate() {
        let id = format!("p{}", k);
        node.accept_handshake_at(&id, now);
        node.note_state_at(&id, 1, 1, *load, now);
    }
    node
}

#[test]
fn correction_among_three_alive_peers() {
    let node = node_with_loads(&[200_000, 400_000, 600_000], 1_000);
    assert_eq!(node.compute_resonance_correction_at(900_000, 100_000, 2_000), -50_000);
    assert_eq!(node.compute_resonance_correction_at(100_000, 100_000, 2_000), 30_000);
    assert_eq!(node.compute_resonance_correction_at(400_000, 100_000, 2_000), 0);
    assert_eq!(node.compute_resonance_correction_at(900_000, 0, 2_000), 0);
    assert_eq!(node.compute_resonance_correction_at(900_000, UNIT, 2_000), -500_000);
    assert_eq!(node.compute_resonance_correction_at(900_000, 100_000, 16_000), 0);
}

#[test]
fn an_empty_registry_is_in_full_resonance_and_corrects_nothing() {
    let node = MeshNode::new("local");
    for load in [0u32, 1, 350_000, UNIT, u32::MAX] {
        for strength in [0u32, 50_000, 200_000, UNIT, u32::MAX] {
            assert_eq!(node.compute_resonance_correction(load, strength), 0);
            assert_eq!(node.compute_resonance_correction_at(load, strength, 0), 0);
        }
        assert_eq!(node.compute_network_resonance(load), UNIT);
        assert_eq!(node.compute_network_resonance_at(load, 123), UNIT);
        assert_eq!(node.apply_resonance(load), load);
        assert_eq!(node.apply_resonance_at(load, 5), load);
    }
    assert_eq!(node.compute_adaptive_strength(), BASE_STRENGTH);
    assert_eq!(node.compute_adaptive_strength(), 100_000);
}

#[test]
fn resonance_is_one_less_the_distance_from_the_mean() {
    let node = node_with_loads(&[200_000, 400_000, 600_000], 1_000);
    assert_eq!(node.compute_network_resonance_at(900_000, 2_000), 500_000);
    assert_eq!(node.compute_network_resonance_at(400_000, 2_000), UNIT);
    assert_eq!(node.compute_network_resonance_at(0, 2_000), 600_000);
    assert_eq!(node.compute_network_resonance_at(1_400_000, 2_000), 0);
    assert_eq!(node.compute_network_resonance_at(u32::MAX, 2_000), 0);
    assert_eq!(node.compute_network_resonance_at(900_000, 16_000), UNIT);
    assert_eq!(node.compute_network_resonance(400_000), UNIT);
}

#[test]
fn adaptive_strength_follows_the_mean_quality_of_alive_links() {
    let mut node = node_with_loads(&[200_000, 400_000, 600_000], 1_000);
    assert_eq!(node.compute_adaptive_strength_at(2_000), MAX_STRENGTH);
    assert_eq!(node.compute_adaptive_strength_at(2_000), 200_000);
    node.record_peer_failure_at("p0", 0);
    node.record_peer_failure_at("p1", 0);
    node.record_peer_failure_at("p1", 0);
    assert_eq!(node.compute_adaptive_strength_at(2_000), 170_000);
    assert_eq!(node.compute_adaptive_strength_at(16_000), MIN_STRENGTH);
    assert_eq!(node.compute_adaptive_strength_at(16_000), 50_000);
    for _ in 0..5 {
        node.record_failure_all_at(0);
    }
    assert_eq!(node.compute_adaptive_strength_at(2_000), MIN_STRENGTH);
    assert_eq!(MIN_STRENGTH + STRENGTH_RANGE, MAX_STRENGTH);
}

#[test]
fn adaptive_strength_at_the_present_time() {
    let mut node = MeshNode::new("local");
    node.register_peer("a".to_string(), "ws://a".to_string());
    assert_eq!(node.compute_adaptive_strength(), MAX_STRENGTH);
    node.record_peer_failure_at("a", 0);
    assert_eq!(node.compute_adaptive_strength(), 170_000);
    assert_eq!(node.compute_resonance_correction(500_000, 100_000), -50_000);
    assert_eq!(node.compute_network_resonance(500_000), 500_000);
    assert_eq!(node.apply_resonance(500_000), 415_000);
    let stats = node.get_resonance_stats(500_000);
    assert_eq!(stats.peer_count, 1);
    assert_eq!(stats.avg_load, 0);
}

#[test]
fn statistics_of_alive_peers() {
    let node = node_with_loads(&[200_000, 400_000, 600_000], 1_000);
    let stats = node.get_resonance_stats_at(900_000, 2_000);
    assert_eq!(
        stats,
        ResonanceStats {
            peer_count: 3,
            avg_load: 400_000,
            min_load: 200_000,
            max_load: 600_000,
            resonance: 500_000,
            variance: 26_666,
        }
    );
    let none = node.get_resonance_stats_at(900_000, 16_000);
    assert_eq!(
        none,
        ResonanceStats {
            peer_count: 0,
            avg_load: 900_000,
            min_load: 900_000,
            max_load: 900_000,
            resonance: UNIT,
            variance: 0,
        }
    );
    let other = node_with_loads(&[400_000, 100_000, 200_000], 1_000);
    let stats = other.get_resonance_stats_at(233_333, 2_000);
    assert_eq!(stats.avg_load, 233_333);
    assert_eq!(stats.min_load, 100_000);
    assert_eq!(stats.max_load, 400_000);
    assert_eq!(stats.resonance, UNIT);
    assert_eq!(stats.variance, 15_555);
}

#[test]
fn a_step_of_resonance_moves_the_load_toward_the_mean() {
    let node = node_with_loads(&[200_000, 400_000, 600_000], 1_000);
    assert_eq!(node.apply_resonance_at(900_000, 2_000), 800_000);
    assert_eq!(node.apply_resonance_at(0, 2_000), 80_000);
    assert_eq!(node.apply_resonance_at(400_000, 2_000), 400_000);
    assert_eq!(node.apply_resonance_at(900_000, 16_000), 900_000);
    assert_eq!(node.apply_resonance_at(3_000_000, 16_000), UNIT);
    assert_eq!(node.apply_resonance_at(3_000_000, 2_000), UNIT);
    let high = node_with_loads(&[u32::MAX], 1_000);
    assert_eq!(high.apply_resonance_at(900_000, 2_000), UNIT);
    assert_eq!(high.apply_resonance_at(0, 2_000), UNIT);
}

#[test]
fn values_among_plain_lists() {
    assert_eq!(resonance_among(&vec![], 5), UNIT);
    assert_eq!(resonance_among(&vec![300_000, 500_000], 450_000), 950_000);
    assert_eq!(correction_among(&vec![], 5, UNIT), 0);
    assert_eq!(correction_among(&vec![300_000, 500_000], 450_000, 200_000), -10_000);
    assert_eq!(correction_among(&vec![u32::MAX], 0, u32::MAX), 18_446_744_065_119);
    assert_eq!(correction_among(&vec![0], u32::MAX, u32::MAX), -18_446_744_065_119);
    assert_eq!(correction_among(&vec![5], 0, 100_000), 0);
    assert_eq!(correction_among(&vec![0], 5, 100_000), 0);
    assert_eq!(strength_among(0, &vec![]), BASE_STRENGTH);
    assert_eq!(strength_among(0, &vec![UNIT]), BASE_STRENGTH);
    assert_eq!(strength_among(3, &vec![]), MIN_STRENGTH);
    assert_eq!(strength_among(3, &vec![800_000, 600_000, UNIT]), 170_000);
    assert_eq!(strength_among(1, &vec![u32::MAX]), MAX_STRENGTH);
    assert_eq!(strength_among(1, &vec![0]), MIN_STRENGTH);
    assert_eq!(stats_among(&vec![7], 9).variance, 0);
}

#[test]
fn sums_means_and_extremes() {
    assert_eq!(sum_of(&vec![]), 0);
    assert_eq!(sum_of(&vec![1, 2, 3]), 6);
    assert_eq!(sum_of(&vec![u32::MAX, u32::MAX]), 8_589_934_590);
    assert_eq!(mean_of(&vec![]), 0);
    assert_eq!(mean_of(&vec![1, 2]), 1);
    assert_eq!(mean_of(&vec![u32::MAX, u32::MAX, u32::MAX]), u32::MAX);
    assert_eq!(min_of(&vec![5, 3, 9, 3]), 3);
    assert_eq!(max_of(&vec![5, 3, 9, 3]), 9);
    assert_eq!(min_of(&vec![4]), 4);
    assert_eq!(max_of(&vec![4]), 4);
    assert_eq!(variance_of(&vec![]), 0);
    assert_eq!(variance_of(&vec![200_000, 400_000, 600_000]), 26_666);
    assert_eq!(variance_of(&vec![0, u32::MAX]), 4_611_686_016_279);
    assert_eq!(scale(500_000, 500_000), 250_000);
    assert_eq!(scale(u32::MAX, u32::MAX), 18_446_744_065_119);
    assert_eq!(scale(1, 999_999), 0);
}
