//! The bridge, with the real frame decoder.

use wifi_densepose_tactical::bridge::{
    default_flush_ms, default_listen, default_server, reduce_frame, BridgeState, Config, CsiFrame,
    CsiSample, NodeCfg, MAX_SAMPLES,
};

/// Build a minimal ADR-018 frame: 20-byte header + `pairs` I/Q bytes.
fn frame_bytes(node_id: u8, rssi: i8, pairs: &[(i8, i8)]) -> Vec<u8> {
    let mut buf = Vec::new();
    buf.extend_from_slice(&0xC511_0001u32.to_le_bytes()); // magic
    buf.push(node_id); // node id
    buf.push(1); // n antennas
    buf.extend_from_slice(&(pairs.len() as u16).to_le_bytes()); // n subcarriers
    buf.extend_from_slice(&2437u32.to_le_bytes()); // freq MHz
    buf.extend_from_slice(&1u32.to_le_bytes()); // sequence
    buf.push(rssi as u8); // rssi
    buf.push((-95i8) as u8); // noise
    buf.push(0); // ppdu
    buf.push(0); // flags
    for (i, q) in pairs {
        buf.push(*i as u8);
        buf.push(*q as u8);
    }
    buf
}

fn node(node_id: u8, room: &str, sensor_id: &str, primary: bool) -> NodeCfg {
    NodeCfg { node_id, room: room.into(), sensor_id: sensor_id.into(), primary }
}

fn config() -> Config {
    Config {
        server: default_server(),
        listen: default_listen(),
        flush_ms: 1000,
        nodes: vec![node(1, "Den", "den-a", true), node(2, "Den", "den-b", false)],
    }
}

/// The mean amplitude of a sample, as a caller computes it.
fn mean_amplitude(s: &CsiSample) -> f64 {
    let sum: f64 = s.subcarriers.iter().map(|(i, q)| (*i as f64).hypot(*q as f64)).sum();
    sum / s.subcarriers.len() as f64
}

#[test]
fn config_maps_rooms_and_primary() {
    let state = BridgeState::from_config(&config());
    assert_eq!(*state.rooms(), vec!["Den"]);
    assert_eq!(state.room_nodes(&"Den".to_string()), Some(&vec![1, 2]));
    assert!(state.node(1).unwrap().is_primary);
    assert!(!state.node(2).unwrap().is_primary);
}

#[test]
fn defaulted_primary_is_first_node() {
    let mut cfg = config();
    cfg.nodes[0].primary = false; // no explicit primary
    let state = BridgeState::from_config(&cfg);
    assert!(state.node(1).unwrap().is_primary, "first listed node defaults to primary");
    assert!(!state.node(2).unwrap().is_primary);
}

#[test]
fn ingest_buffers_primary_series_and_all_rssi() {
    let mut state = BridgeState::from_config(&config());
    // Two frames from the primary node, one from the secondary.
    state.ingest_datagram(&frame_bytes(1, -55, &[(100, 0), (0, 50)]));
    state.ingest_datagram(&frame_bytes(1, -54, &[(100, 0), (0, 50)]));
    state.ingest_datagram(&frame_bytes(2, -61, &[(30, 40)]));

    assert_eq!(state.node(1).unwrap().samples.len(), 2, "primary buffers a sample per frame");
    assert!(state.node(2).unwrap().samples.is_empty(), "secondary buffers no series");
    let rssi = state.node(2).unwrap().last_rssi.map(|r| r as f64);
    assert_eq!(rssi, Some(-61.0), "secondary still reports RSSI");
}

#[test]
fn drain_produces_one_post_with_series_and_rssi() {
    let mut state = BridgeState::from_config(&config());
    state.ingest_datagram(&frame_bytes(1, -55, &[(100, 0), (0, 50)]));
    state.ingest_datagram(&frame_bytes(2, -61, &[(30, 40)]));

    let posts = state.drain_posts();
    assert_eq!(posts.len(), 1);
    let p = &posts[0];
    assert_eq!(p.room, "Den");
    assert_eq!(p.samples.len(), 1);
    assert_eq!(p.samples[0].strongest, Some((100, 0)));
    // Both nodes' RSSI present for localization.
    assert!(p.sensor_rssi.iter().any(|(id, _)| id == "den-a"));
    assert!(p.sensor_rssi.iter().any(|(id, _)| id == "den-b"));
    // Buffers cleared after draining.
    assert!(state.node(1).unwrap().samples.is_empty());
    // A second drain with no new data yields nothing.
    assert!(state.drain_posts().is_empty());
    // The signal strengths stay.
    assert_eq!(state.node(2).unwrap().last_rssi, Some(-61));
}

#[test]
fn unmapped_node_is_skipped() {
    let mut state = BridgeState::from_config(&config());
    let n = state.ingest_datagram(&frame_bytes(99, -50, &[(10, 10)]));
    assert_eq!(n, 0, "frames from unknown nodes are ignored");
}

#[test]
fn reduce_frame_mean_amplitude() {
    let mut state = BridgeState::from_config(&config());
    state.ingest_datagram(&frame_bytes(1, -50, &[(100, 0), (0, 50)]));
    let sample = &state.node(1).unwrap().samples[0];
    // mean(|100|, |50|) = 75
    assert!((mean_amplitude(sample) - 75.0).abs() < 0.01);
}

#[test]
fn datagram_is_decoded_byte_by_byte() {
    let mut state = BridgeState::from_config(&config());
    let bytes = frame_bytes(1, -128, &[(-1, 127), (-128, 0)]);
    assert_eq!(state.ingest_datagram(&bytes), 1);
    let node = state.node(1).unwrap();
    assert_eq!(node.last_rssi, Some(-128));
    assert_eq!(node.samples[0].subcarriers, vec![(-1, 127), (-128, 0)]);
    assert_eq!(node.samples[0].strongest, Some((-128, 0)));
    // Several antennas, a frame without subcarriers and a second frame behind.
    let mut two = frame_bytes(1, -40, &[(1, 1), (2, 2)]);
    two[5] = 2;
    two[6] = 1;
    two.extend_from_slice(&frame_bytes(2, -41, &[]));
    assert_eq!(state.ingest_datagram(&two), 2);
    assert_eq!(state.node(1).unwrap().samples[1].subcarriers, vec![(1, 1), (2, 2)]);
    assert_eq!(state.node(2).unwrap().last_rssi, Some(-41));
    // Bytes without the magic number give nothing.
    assert_eq!(state.ingest_datagram(&[7; 64]), 0);
}

#[test]
fn other_packets_are_skipped() {
    let mut state = BridgeState::from_config(&config());
    assert_eq!(state.ingest_datagram(&[]), 0);
    let whole = frame_bytes(1, -40, &[(1, 1)]);
    // Too short for a header, another magic number, too many antennas, cut off.
    assert_eq!(state.ingest_datagram(&whole[..19]), 0);
    let mut other = whole.clone();
    other[0] = 2;
    assert_eq!(state.ingest_datagram(&other), 0);
    for antennas in [0, 5] {
        let mut wrong = whole.clone();
        wrong[5] = antennas;
        assert_eq!(state.ingest_datagram(&wrong), 0);
    }
    let mut wide = whole.clone();
    wide[6] = 1;
    wide[7] = 1;
    wide.extend_from_slice(&[0; 600]);
    assert_eq!(state.ingest_datagram(&wide), 0);
    assert_eq!(state.ingest_datagram(&whole[..21]), 0);
    assert_eq!(state.node(1).unwrap().last_rssi, None);
}

#[test]
fn frames_are_found_end_to_end_and_behind_noise() {
    let mut state = BridgeState::from_config(&config());
    let mut bytes = vec![7, 1, 0, 0x11];
    bytes.extend_from_slice(&frame_bytes(1, -40, &[(1, 1)]));
    bytes.extend_from_slice(&frame_bytes(2, -41, &[(2, 2)]));
    // A header that announces more than there is, and a whole frame inside.
    let mut cut = frame_bytes(9, -42, &[(3, 3)]);
    cut[6] = 200;
    bytes.extend_from_slice(&cut);
    bytes.extend_from_slice(&frame_bytes(1, -43, &[(4, 4)]));
    bytes.extend_from_slice(&[9, 9]);
    assert_eq!(state.ingest_datagram(&bytes), 3);
    let series: Vec<_> =
        state.node(1).unwrap().samples.iter().map(|s| s.subcarriers.clone()).collect();
    assert_eq!(series, vec![vec![(1, 1)], vec![(4, 4)]]);
    assert_eq!(state.node(1).unwrap().last_rssi, Some(-43));
    assert_eq!(state.node(2).unwrap().last_rssi, Some(-41));
}

#[test]
fn a_room_has_one_primary_node() {
    let cfg = Config {
        nodes: vec![
            node(1, "Den", "a", false),
            node(2, "Den", "b", true),
            node(3, "Hall", "c", false),
            node(4, "Den", "d", true),
            node(5, "Hall", "e", false),
        ],
        ..config()
    };
    let mut state = BridgeState::from_config(&cfg);
    let primary: Vec<u8> =
        (1..=5).filter(|id| state.node(*id).unwrap().is_primary).collect();
    assert_eq!(primary, vec![2, 3]);
    for id in 1..=5 {
        state.ingest_datagram(&frame_bytes(id, -1, &[(id as i8, 0)]));
    }
    let posts = state.drain_posts();
    assert_eq!(posts.len(), 2);
    assert_eq!(posts[0].samples.len(), 1);
    assert_eq!(posts[0].samples[0].strongest, Some((2, 0)));
    assert_eq!(posts[1].samples[0].strongest, Some((3, 0)));
    // No node keeps samples that no drain takes.
    assert!((1..=5).all(|id| state.node(id).unwrap().samples.is_empty()));
}

#[test]
fn each_room_sends_its_own() {
    let cfg = Config {
        nodes: vec![
            node(1, "Den", "a", false),
            node(2, "Hall", "b", false),
            node(3, "Attic", "c", false),
            node(4, "Attic", "d", false),
        ],
        ..config()
    };
    let mut state = BridgeState::from_config(&cfg);
    for (id, rssi) in [(3, -30), (1, -10), (4, -40), (3, -31)] {
        state.ingest_datagram(&frame_bytes(id, rssi, &[(id as i8, 0)]));
    }
    let posts = state.drain_posts();
    let rooms: Vec<&str> = posts.iter().map(|p| p.room.as_str()).collect();
    assert_eq!(rooms, vec!["Den", "Attic"]);
    assert_eq!(posts[0].samples.len(), 1);
    assert_eq!(posts[0].sensor_rssi, vec![("a".to_string(), -10)]);
    assert_eq!(posts[1].samples.len(), 2);
    assert_eq!(posts[1].sensor_rssi, vec![("c".to_string(), -31), ("d".to_string(), -40)]);
}

#[test]
fn a_node_of_two_rooms_stays_primary_in_both() {
    let cfg = Config {
        nodes: vec![
            node(1, "Den", "a", false),
            node(2, "Den", "b", false),
            node(2, "Hall", "b", false),
            node(1, "Hall", "a", false),
        ],
        ..config()
    };
    let state = BridgeState::from_config(&cfg);
    assert!(state.node(1).unwrap().is_primary);
    assert!(!state.node(2).unwrap().is_primary);
}

#[test]
fn strongest_subcarrier_is_the_last_of_equals() {
    let frame = |pairs: Vec<(i16, i16)>| CsiFrame { node_id: 0, rssi_dbm: 0, subcarriers: pairs };
    assert_eq!(reduce_frame(&frame(vec![(3, 4), (5, 0), (0, 1)])).strongest, Some((5, 0)));
    assert_eq!(reduce_frame(&frame(vec![(i16::MIN, i16::MIN), (1, 0)])).strongest, Some((i16::MIN, i16::MIN)));
    assert_eq!(reduce_frame(&frame(vec![])).strongest, None);
}

#[test]
fn series_keeps_its_latest_samples() {
    let mut state = BridgeState::from_config(&config());
    let frames: Vec<CsiFrame> = (0..(MAX_SAMPLES + 3))
        .map(|k| CsiFrame { node_id: 1, rssi_dbm: -1, subcarriers: vec![(k as i16, 0)] })
        .collect();
    assert_eq!(state.ingest_frames(&frames), MAX_SAMPLES + 3);
    let posts = state.drain_posts();
    assert_eq!(posts[0].samples.len(), MAX_SAMPLES);
    assert_eq!(posts[0].samples[0].strongest, Some((3, 0)));
}

#[test]
fn rooms_keep_their_order_and_their_own_primary() {
    let cfg = Config {
        nodes: vec![
            node(4, "Hall", "h", false),
            node(1, "Den", "a", false),
            node(5, "Hall", "i", true),
            node(2, "Den", "b", false),
        ],
        ..config()
    };
    let mut state = BridgeState::from_config(&cfg);
    assert_eq!(*state.rooms(), vec!["Hall", "Den"]);
    let primary: Vec<u8> =
        [1, 2, 4, 5].into_iter().filter(|id| state.node(*id).unwrap().is_primary).collect();
    assert_eq!(primary, vec![1, 5]);
    for id in [1, 2, 4, 5] {
        state.ingest_datagram(&frame_bytes(id, -(id as i8), &[(1, 0)]));
    }
    let rooms: Vec<String> = state.drain_posts().into_iter().map(|p| p.room).collect();
    assert_eq!(rooms, vec!["Hall", "Den"]);
    assert!(state.room_nodes(&"Attic".to_string()).is_none());
    assert!(state.node(9).is_none());
}

#[test]
fn last_entry_of_a_node_counts() {
    let cfg = Config {
        nodes: vec![node(1, "Den", "old", true), node(1, "Den", "new", false)],
        ..config()
    };
    let state = BridgeState::from_config(&cfg);
    assert_eq!(state.node(1).unwrap().sensor_id, "new");
    assert!(state.node(1).unwrap().is_primary);
    assert_eq!(state.room_nodes(&"Den".to_string()), Some(&vec![1, 1]));
}

#[test]
fn config_defaults_and_addresses() {
    assert_eq!(default_server(), "http://127.0.0.1:8099");
    assert_eq!(default_listen(), "0.0.0.0:5005");
    assert_eq!(default_flush_ms(), 1000);
    let mut cfg = config();
    assert_eq!(cfg.csi_url(), "http://127.0.0.1:8099/api/csi");
    cfg.server = "http://host//".into();
    assert_eq!(cfg.csi_url(), "http://host/api/csi");
    cfg.server = "///".into();
    assert_eq!(cfg.csi_url(), "/api/csi");
    assert_eq!(cfg.flush_interval_ms(), 1000);
    cfg.flush_ms = 99;
    assert_eq!(cfg.flush_interval_ms(), 100);
}
