//! The scripted scenario.

use wifi_densepose_tactical::sim::{demo_structure, Scenario, BREATHING_SPAN, RSSI_SPAN};
use wifi_densepose_tactical::MovementLevel;

#[test]
fn demo_structure_has_a_triangulable_room() {
    let s = demo_structure();
    assert!(s.room_by_name("Bedroom 2").unwrap().localizable());
    assert_eq!(s.rooms.len(), 6);
}

#[test]
fn scenario_emits_one_reading_per_room() {
    let mut scenario = Scenario::new();
    let readings = scenario.tick();
    assert_eq!(readings.len(), 6);
}

#[test]
fn scenario_is_deterministic() {
    let mut a = Scenario::new();
    let mut b = Scenario::new();
    for _ in 0..5 {
        let ra = a.tick();
        let rb = b.tick();
        let pa: Vec<bool> = ra.iter().map(|r| r.presence).collect();
        let pb: Vec<bool> = rb.iter().map(|r| r.presence).collect();
        assert_eq!(pa, pb, "same seed must produce identical scenarios");
        for (x, y) in ra.iter().zip(&rb) {
            assert_eq!(x.rssi_tenths, y.rssi_tenths);
            assert_eq!(x.breathing_tenths, y.breathing_tenths);
            assert_eq!(x.movement, y.movement);
        }
    }
}

#[test]
fn occupied_rooms_are_usually_present() {
    let mut scenario = Scenario::new();
    let bed2 = scenario.structure().room_by_name("Bedroom 2").unwrap().id;
    let mut present = 0;
    for _ in 0..30 {
        for r in scenario.tick() {
            if r.room_id == bed2 && r.presence {
                present += 1;
            }
        }
    }
    // With ~1/14 dropout, the held room is present the large majority of ticks.
    assert!(present > 20, "expected mostly-present held room, got {present}/30");
    assert_eq!(scenario.ticks(), 30);
}

#[test]
fn one_bedroom_alone_is_triangulable() {
    let s = demo_structure();
    let fixable: Vec<&str> =
        s.rooms.iter().filter(|r| r.localizable()).map(|r| r.name.as_str()).collect();
    assert_eq!(fixable, vec!["Bedroom 2"]);
    let counts: Vec<usize> = s.rooms.iter().map(|r| r.sensor_count()).collect();
    assert_eq!(counts, vec![2, 1, 2, 2, 3, 1]);
}

#[test]
fn demo_floor_plan_is_where_it_should_be() {
    let s = demo_structure();
    assert_eq!(s.name, "SIM — 1420 Cedar St");
    let f = |bits: u64| f64::from_bits(bits);
    let corners: Vec<(f64, f64, f64, f64)> = s
        .rooms
        .iter()
        .map(|r| {
            let b = &r.bounds;
            (f(b.min_x.bits), f(b.min_y.bits), f(b.max_x.bits), f(b.max_y.bits))
        })
        .collect();
    assert_eq!(
        corners,
        vec![
            (0.0, 0.0, 6.0, 5.0),
            (6.0, 0.0, 10.0, 5.0),
            (0.0, 5.0, 10.0, 6.5),
            (0.0, 6.5, 5.0, 11.0),
            (5.0, 6.5, 10.0, 11.0),
            (10.0, 0.0, 12.0, 6.5),
        ]
    );
    let nodes: Vec<(String, f64, f64)> = s
        .rooms
        .iter()
        .flat_map(|r| &r.sensors)
        .map(|n| (n.id.clone(), f(n.x.bits), f(n.y.bits)))
        .collect();
    let expected = [
        ("living-a", 0.2, 0.2),
        ("living-b", 5.8, 0.2),
        ("kitchen-a", 6.2, 4.8),
        ("hall-a", 0.2, 5.8),
        ("hall-b", 9.8, 5.8),
        ("bed1-a", 0.2, 6.7),
        ("bed1-b", 4.8, 6.7),
        ("bed2-a", 5.2, 6.7),
        ("bed2-b", 9.8, 6.7),
        ("bed2-c", 7.5, 10.8),
        ("bath-a", 11.0, 3.0),
    ];
    for (have, want) in nodes.iter().zip(expected) {
        assert_eq!((have.0.as_str(), have.1, have.2), want);
    }
    assert_eq!(nodes.len(), expected.len());
}

#[test]
fn readings_follow_the_generator() {
    let mut scenario = Scenario::default();
    let rooms = scenario.structure().rooms.clone();
    let mut rng: u64 = 0x5EED_1234;
    let mut next = || {
        rng = rng.wrapping_mul(1664525).wrapping_add(1013904223);
        (rng >> 16) as u32
    };
    let script =
        [(0, false, false), (0, false, false), (1, true, false), (0, false, false), (2, false, true), (0, false, false)];
    for _ in 0..40 {
        let readings = scenario.tick();
        for (r, (room, (occupancy, moving, breathing))) in
            readings.iter().zip(rooms.iter().zip(script))
        {
            let dropout = next() % 14 == 0;
            let rssi: Vec<(String, u32)> = if dropout {
                vec![]
            } else {
                room.sensors.iter().map(|s| (s.id.clone(), next() % 140)).collect()
            };
            assert_eq!(r.room_id, room.id);
            assert_eq!(r.rssi_tenths, rssi);
            let present = occupancy > 0 && !dropout;
            assert_eq!(r.presence, present);
            if !present {
                assert_eq!((r.occupancy, r.movement), (0, MovementLevel::Still));
                assert_eq!(r.breathing_tenths, None);
                continue;
            }
            let movement = if moving {
                MovementLevel::Gross
            } else if next() % 4 == 0 {
                MovementLevel::Fine
            } else {
                MovementLevel::Still
            };
            let bpm = if breathing { Some(next() % 40) } else { None };
            assert_eq!((r.occupancy, r.movement, r.breathing_tenths), (occupancy, movement, bpm));
            assert!(r.rssi_tenths.iter().all(|(_, t)| *t < RSSI_SPAN));
            assert!(r.breathing_tenths.unwrap_or(0) < BREATHING_SPAN);
        }
    }
}
