//! Structures, readings and contacts.

use wifi_densepose_tactical::domain::reading::{
    classify_breathing, default_movement, BreathingPattern, BreathingType, MovementProfile,
    MovementType, VitalSigns, VitalSignsReading,
};
use wifi_densepose_tactical::domain::structure::{default_sensor_height, find_rssi, RoomBounds};
use wifi_densepose_tactical::measure::Measure;
use wifi_densepose_tactical::{
    LifeSign, Motion, MovementLevel, PersonContact, ReadingInput, Room, SensorRssi, Structure,
    TacticalError,
};

fn m(x: f64) -> Measure {
    Measure::from_bits(x.to_bits())
}

fn f(x: Measure) -> f64 {
    f64::from_bits(x.bits)
}

fn bounds(a: f64, b: f64, c: f64, d: f64) -> RoomBounds {
    RoomBounds::new(m(a), m(b), m(c), m(d))
}

fn movement(movement_type: MovementType) -> MovementProfile {
    MovementProfile {
        movement_type,
        intensity: m(0.0),
        frequency: m(0.0),
        is_voluntary: false,
    }
}

fn breathing_reading() -> VitalSignsReading {
    VitalSignsReading {
        signs: VitalSigns {
            breathing: Some(BreathingPattern {
                rate_bpm: m(16.0),
                amplitude: m(0.8f32 as f64),
                regularity: m(0.9f32 as f64),
                pattern_type: BreathingType::Normal,
            }),
            heartbeat: false,
            movement: movement(MovementType::Still),
        },
        confidence: m(0.85),
    }
}

fn gross_movement_reading() -> VitalSignsReading {
    let real = wifi_densepose_mat::domain::VitalSignsReading::new(
        None,
        None,
        wifi_densepose_mat::domain::MovementProfile {
            movement_type: wifi_densepose_mat::domain::MovementType::Gross,
            intensity: 0.8,
            frequency: 1.2,
            is_voluntary: true,
        },
    );
    VitalSignsReading {
        signs: VitalSigns {
            breathing: None,
            heartbeat: false,
            movement: MovementProfile {
                movement_type: MovementType::Gross,
                intensity: m(0.8f32 as f64),
                frequency: m(1.2f32 as f64),
                is_voluntary: true,
            },
        },
        confidence: m(real.confidence.value()),
    }
}

#[test]
fn breathing_presence_is_stationary_and_confirmed() {
    let v = breathing_reading();
    assert_eq!(PersonContact::classify_motion(&v), Motion::Stationary);
    assert_eq!(PersonContact::classify_life_sign(&v), LifeSign::BreathingConfirmed);
}

#[test]
fn gross_movement_is_moving() {
    let v = gross_movement_reading();
    assert_eq!(PersonContact::classify_motion(&v), Motion::Moving);
    // No clean breathing rhythm but strong movement => movement-only life sign.
    assert_eq!(PersonContact::classify_life_sign(&v), LifeSign::MovementOnly);
}

#[test]
fn small_and_periodic_motion_is_restless() {
    for kind in [MovementType::Fine, MovementType::Tremor, MovementType::Periodic] {
        let mut v = gross_movement_reading();
        v.signs.movement.movement_type = kind;
        assert_eq!(PersonContact::classify_motion(&v), Motion::Restless);
    }
}

#[test]
fn weak_confidence_without_breathing_is_faint() {
    let mut v = gross_movement_reading();
    v.confidence = m(0.39);
    assert_eq!(PersonContact::classify_life_sign(&v), LifeSign::Faint);
    v.confidence = m(0.4);
    assert_eq!(PersonContact::classify_life_sign(&v), LifeSign::MovementOnly);
    let mut b = breathing_reading();
    b.confidence = m(0.0);
    assert_eq!(PersonContact::classify_life_sign(&b), LifeSign::BreathingConfirmed);
}

#[test]
fn tags_are_lower_case() {
    let motions = [Motion::Stationary, Motion::Restless, Motion::Moving];
    let tags: Vec<&str> = motions.iter().map(|t| t.tag()).collect();
    assert_eq!(tags, vec!["stationary", "restless", "moving"]);
    let signs = [LifeSign::BreathingConfirmed, LifeSign::MovementOnly, LifeSign::Faint];
    let tags: Vec<&str> = signs.iter().map(|t| t.tag()).collect();
    assert_eq!(tags, vec!["breathing", "movement_only", "faint"]);
}

fn input(presence: bool, bpm: Option<f64>, movement: MovementLevel) -> ReadingInput {
    ReadingInput {
        room_id: None,
        room_name: Some("Den".into()),
        presence,
        breathing_bpm: bpm.map(m),
        movement,
        occupancy: None,
        sensor_rssi: vec![],
    }
}

#[test]
fn no_presence_yields_no_vitals() {
    let mut input = input(false, Some(15.0), MovementLevel::Gross);
    input.occupancy = Some(2);
    assert!(input.to_vitals().is_none());
}

#[test]
fn presence_with_breathing_builds_reading() {
    let input = input(true, Some(16.0), MovementLevel::Still);
    let v = input.to_vitals().expect("should have vitals");
    assert!(v.has_breathing());
    assert_eq!(input.effective_occupancy(), 1);
}

#[test]
fn presence_but_empty_signal_is_none() {
    assert!(input(true, None, MovementLevel::Still).to_vitals().is_none());
}

#[test]
fn implied_vitals_carry_the_assumed_signal() {
    let v = input(true, Some(16.0), MovementLevel::Gross).to_vitals().unwrap();
    let b = v.breathing.unwrap();
    assert_eq!(f(b.rate_bpm), 16.0);
    assert_eq!(f(b.amplitude), 0.7f32 as f64);
    assert_eq!(f(b.regularity), 0.75);
    assert_eq!(b.pattern_type, BreathingType::Normal);
    assert_eq!(v.movement.movement_type, MovementType::Gross);
    assert_eq!(f(v.movement.intensity), 0.8f32 as f64);
    assert_eq!(f(v.movement.frequency), 1.2f32 as f64);
    assert!(v.movement.is_voluntary);
    let fine = MovementLevel::Fine.to_profile();
    assert_eq!(f(fine.intensity), 0.4f32 as f64);
    assert_eq!(f(fine.frequency), 0.8f32 as f64);
    assert!(!fine.is_voluntary);
    assert_eq!(default_movement(), MovementLevel::Still);
}

#[test]
fn breathing_rates_are_classified_at_their_edges() {
    let kinds: Vec<BreathingType> =
        [9.9, 10.0, 30.0, 30.1, f64::NAN].iter().map(|r| classify_breathing(m(*r))).collect();
    assert_eq!(
        kinds,
        vec![
            BreathingType::Shallow,
            BreathingType::Normal,
            BreathingType::Normal,
            BreathingType::Labored,
            BreathingType::Normal,
        ]
    );
}

#[test]
fn occupancy_is_at_least_one() {
    let mut i = input(true, Some(16.0), MovementLevel::Still);
    for (given, taken) in [(None, 1), (Some(0), 1), (Some(1), 1), (Some(7), 7)] {
        i.occupancy = given;
        assert_eq!(i.effective_occupancy(), taken);
    }
    i.sensor_rssi = vec![SensorRssi { id: "a".into(), rssi: m(-40.0) }];
    assert_eq!(i.rssi_list(), vec![("a".to_string(), m(-40.0))]);
}

#[test]
fn bounds_hold_what_lies_in_them() {
    let b = bounds(0.0, 0.0, 4.0, 3.0);
    assert!(b.contains(m(1.0), m(1.0)));
    assert!(!b.contains(m(5.0), m(1.0)));
}

#[test]
fn bounds_hold_their_edges_and_no_nan() {
    let b = bounds(-1.0, 0.0, 4.0, 3.0);
    assert!(b.contains(m(-1.0), m(3.0)));
    assert!(b.contains(m(4.0), m(-0.0)));
    assert!(!b.contains(m(-1.5), m(1.0)));
    assert!(!b.contains(m(f64::NAN), m(1.0)));
}

#[test]
fn room_localizable_needs_three_sensors() {
    let room = Room::new("Den", 0, bounds(0.0, 0.0, 4.0, 4.0))
        .with_sensor("a", m(0.0), m(0.0))
        .with_sensor("b", m(4.0), m(0.0));
    assert!(!room.localizable());
    let room = room.with_sensor("c", m(2.0), m(4.0));
    assert!(room.localizable());
    assert_eq!(room.sensor_count(), 3);
    assert_eq!(f(default_sensor_height()), 1.2);
    assert_eq!(room.sensors[2].z, default_sensor_height());
}

#[test]
fn to_scan_zone_injects_matching_rssi_only() {
    let room = Room::new("Den", 0, bounds(0.0, 0.0, 4.0, 4.0))
        .with_sensor("a", m(0.0), m(0.0))
        .with_sensor("b", m(4.0), m(0.0))
        .with_sensor("c", m(2.0), m(4.0));
    let live = [("a".to_string(), m(-55.0)), ("c".to_string(), m(-60.0))];
    let zone = room.to_scan_zone(&live);
    assert_eq!(zone.sensors.iter().filter(|s| s.last_rssi.is_some()).count(), 2);
    assert!(zone.sensors.iter().find(|s| s.id == "b").unwrap().last_rssi.is_none());
    assert_eq!(room.live_count(&live), 2);
}

#[test]
fn first_reading_of_a_node_counts() {
    let live = [("a".to_string(), m(-55.0)), ("a".to_string(), m(-60.0))];
    assert_eq!(find_rssi(&live, &"a".to_string()), Some(m(-55.0)));
    assert_eq!(find_rssi(&live, &"b".to_string()), None);
}

#[test]
fn structure_room_lookup() {
    let room = Room::new("Kitchen", 0, bounds(0.0, 0.0, 3.0, 3.0));
    let id = room.id;
    let s = Structure::new("123 Main").with_room(room);
    assert!(s.room(id).is_some());
    assert!(s.room_by_name("kitchen").is_some());
    assert!(s.room_by_name("garage").is_none());
}

#[test]
fn only_ascii_letters_fold() {
    let s = Structure::new("S").with_room(Room::new("Küche", 0, bounds(0.0, 0.0, 1.0, 1.0)));
    assert!(s.room_by_name("kÜche").is_none());
    assert!(s.room_by_name("KüCHE").is_some());
}

#[test]
fn errors_have_their_messages() {
    assert_eq!(TacticalError::UnknownRoom("x".into()).message(), "unknown room: x");
    assert_eq!(TacticalError::EmptyStructure.message(), "structure has no rooms defined");
    assert_eq!(TacticalError::Invalid("y".into()).message(), "invalid input: y");
    let e = serde_json::from_str::<u8>("x").unwrap_err();
    let text = format!("serialization error: {e}");
    assert!(text.len() > "serialization error: ".len());
    let e = TacticalError::from(e);
    assert_eq!(e.message(), text);
    assert_eq!(e.message_with("why"), "serialization error: why");
    assert_eq!(TacticalError::EmptyStructure.message_with("why"), "structure has no rooms defined");
}
