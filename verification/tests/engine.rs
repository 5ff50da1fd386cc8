//! The engine, the picture and the entry advisor, with the real localizer.

use wifi_densepose_mat::domain as mat;
use wifi_densepose_mat::localization::LocalizationService;
use wifi_densepose_tactical::clock::Timestamp;
use wifi_densepose_tactical::domain::picture::{
    MmwaveCorroboration, SensorSummary, TacticalPicture, STANDING_ADVISORY,
};
use wifi_densepose_tactical::domain::reading::{
    BreathingPattern, BreathingType, Detection, MmwaveReading, MovementLevel, MovementProfile,
    MovementType, ReadingInput, RoomReading, SensorRssi, VitalSigns, VitalSignsReading,
};
use wifi_densepose_tactical::domain::structure::{Room, RoomBounds, ScanZone, Structure};
use wifi_densepose_tactical::engine::{
    Circle, EngineConfig, Fix, Point, Sensed, TacticalEngine,
};
use wifi_densepose_tactical::entry::{EntryAdvisor, TacticalPriority, ENTRY_DISCLAIMER};
use wifi_densepose_tactical::ids::{ContactId, RoomId};
use wifi_densepose_tactical::measure::Measure;
use wifi_densepose_tactical::{LifeSign, Motion, PersonContact, TacticalError};

fn m(x: f64) -> Measure {
    Measure::from_bits(x.to_bits())
}

fn f(x: Measure) -> f64 {
    f64::from_bits(x.bits)
}

fn at(secs: i64) -> Timestamp {
    Timestamp::from_parts(secs, 0).unwrap()
}

fn later(secs: i64) -> Timestamp {
    let now = Timestamp::now();
    Timestamp::from_parts(now.unix_seconds() + secs, now.subsec_nanos()).unwrap()
}

fn mat_breathing(b: &BreathingPattern) -> mat::BreathingPattern {
    mat::BreathingPattern {
        rate_bpm: f(b.rate_bpm) as f32,
        amplitude: f(b.amplitude) as f32,
        regularity: f(b.regularity) as f32,
        pattern_type: match b.pattern_type {
            BreathingType::Normal => mat::BreathingType::Normal,
            BreathingType::Shallow => mat::BreathingType::Shallow,
            BreathingType::Labored => mat::BreathingType::Labored,
            BreathingType::Irregular => mat::BreathingType::Irregular,
            BreathingType::Agonal => mat::BreathingType::Agonal,
            BreathingType::Apnea => mat::BreathingType::Apnea,
        },
    }
}

fn mat_vitals(signs: &VitalSigns) -> mat::VitalSignsReading {
    let movement = mat::MovementProfile {
        movement_type: match signs.movement.movement_type {
            MovementType::Still => mat::MovementType::None,
            MovementType::Gross => mat::MovementType::Gross,
            MovementType::Fine => mat::MovementType::Fine,
            MovementType::Tremor => mat::MovementType::Tremor,
            MovementType::Periodic => mat::MovementType::Periodic,
        },
        intensity: f(signs.movement.intensity) as f32,
        frequency: f(signs.movement.frequency) as f32,
        is_voluntary: signs.movement.is_voluntary,
    };
    mat::VitalSignsReading::new(signs.breathing.as_ref().map(mat_breathing), None, movement)
}

fn confidence(signs: &VitalSigns) -> Measure {
    m(mat_vitals(signs).confidence.value())
}

fn mat_zone(zone: &ScanZone) -> mat::ScanZone {
    let b = &zone.bounds;
    let mut out = mat::ScanZone::new(
        &zone.name,
        mat::ZoneBounds::rectangle(f(b.min_x), f(b.min_y), f(b.max_x), f(b.max_y)),
    );
    for s in &zone.sensors {
        out.add_sensor(mat::SensorPosition {
            id: s.id.clone(),
            x: f(s.x),
            y: f(s.y),
            z: f(s.z),
            sensor_type: mat::SensorType::Transceiver,
            is_operational: s.is_operational,
            last_rssi: s.last_rssi.map(f),
        });
    }
    out
}

fn center(b: &RoomBounds) -> (f64, f64) {
    ((f(b.min_x) + f(b.max_x)) / 2.0, (f(b.min_y) + f(b.max_y)) / 2.0)
}

fn enclosing_radius(b: &RoomBounds) -> f64 {
    let (cx, cy) = center(b);
    let (dx, dy) = (f(b.max_x) - cx, f(b.max_y) - cy);
    (dx * dx + dy * dy).sqrt()
}

fn nowhere() -> Sensed {
    let zero = m(0.0);
    Sensed {
        estimate: None,
        room_level: Circle { x: zero, y: zero, radius: zero },
        blended: Point { x: zero, y: zero },
    }
}

/// The geometry of a reading, as a caller computes it.
fn sense(engine: &TacticalEngine, reading: &RoomReading) -> Sensed {
    let room = match engine.structure().room(reading.room_id) {
        Some(room) => room,
        None => return nowhere(),
    };
    let zone = mat_zone(&room.to_scan_zone(&reading.sensor_rssi));
    let estimate = LocalizationService::new()
        .estimate_position(&mat_vitals(&reading.vitals.signs), &zone)
        .map(|p| Circle { x: m(p.x), y: m(p.y), radius: m(p.uncertainty.horizontal_error) });
    let (cx, cy) = center(&room.bounds);
    let mut sensed = Sensed {
        estimate,
        room_level: Circle { x: m(cx), y: m(cy), radius: m(enclosing_radius(&room.bounds)) },
        ..nowhere()
    };
    let fix = engine.localize(room, reading, &sensed);
    if let Some(b) = engine.blend(room.id, &fix) {
        let a = f(b.alpha);
        sensed.blended = Point {
            x: m(f(b.from.x) * (1.0 - a) + f(b.to.x) * a),
            y: m(f(b.from.y) * (1.0 - a) + f(b.to.y) * a),
        };
    }
    sensed
}

fn ingest(engine: &mut TacticalEngine, reading: RoomReading) -> Result<(), TacticalError> {
    let sensed = sense(engine, &reading);
    engine.ingest(reading, sensed)
}

fn picture(engine: &TacticalEngine) -> TacticalPicture {
    assert!(engine.total_fits());
    engine.picture()
}

fn bounds(a: f64, b: f64, c: f64, d: f64) -> RoomBounds {
    RoomBounds::new(m(a), m(b), m(c), m(d))
}

fn structure_with_triangulable_room() -> (Structure, RoomId) {
    let room = Room::new("Den", 0, bounds(0.0, 0.0, 12.0, 12.0))
        .with_sensor("s1", m(0.0), m(0.0))
        .with_sensor("s2", m(12.0), m(0.0))
        .with_sensor("s3", m(6.0), m(12.0));
    let id = room.id;
    (Structure::new("Test House").with_room(room), id)
}

fn rssi(list: &[(&str, f64)]) -> Vec<SensorRssi> {
    list.iter().map(|(id, r)| SensorRssi { id: id.to_string(), rssi: m(*r) }).collect()
}

fn three() -> Vec<SensorRssi> {
    rssi(&[("s1", -55.0), ("s2", -60.0), ("s3", -58.0)])
}

fn input_for(id: RoomId, sensor_rssi: Vec<SensorRssi>) -> ReadingInput {
    ReadingInput {
        room_id: Some(id),
        room_name: None,
        presence: true,
        breathing_bpm: Some(m(16.0)),
        movement: MovementLevel::Still,
        occupancy: Some(1),
        sensor_rssi,
    }
}

fn reading_of(id: RoomId, input: &ReadingInput) -> RoomReading {
    let signs = input.to_vitals().unwrap();
    RoomReading {
        room_id: id,
        vitals: signs.with_confidence(confidence(&signs)),
        occupancy: input.effective_occupancy(),
        sensor_rssi: input.rssi_list(),
    }
}

fn reading_for(id: RoomId, sensor_rssi: Vec<SensorRssi>) -> RoomReading {
    reading_of(id, &input_for(id, sensor_rssi))
}

#[test]
fn unknown_room_is_rejected() {
    let (structure, _) = structure_with_triangulable_room();
    let mut engine = TacticalEngine::new(structure);
    let bogus = RoomId::new();
    let reading = reading_for(bogus, vec![]);
    let err = ingest(&mut engine, reading).unwrap_err();
    assert!(matches!(&err, TacticalError::UnknownRoom(s) if *s == bogus.to_text()));
    assert_eq!(err.message(), format!("unknown room: {}", bogus.to_text()));
    assert!(picture(&engine).contacts.is_empty());
}

#[test]
fn room_level_presence_when_no_rssi() {
    let (structure, id) = structure_with_triangulable_room();
    let mut engine = TacticalEngine::new(structure);
    ingest(&mut engine, reading_for(id, vec![])).unwrap();
    let pic = picture(&engine);
    assert_eq!(pic.contacts.len(), 1);
    let c = &pic.contacts[0];
    assert!(!c.point_fix, "no RSSI => centroid fallback, not a point fix");
    assert!((f(c.x) - 6.0).abs() < 1e-6 && (f(c.y) - 6.0).abs() < 1e-6);
    assert_eq!(pic.total_occupancy_estimate, 1);
    assert_eq!(pic.occupied_rooms, 1);
}

#[test]
fn triangulated_point_fix_when_rssi_present() {
    let (structure, id) = structure_with_triangulable_room();
    let mut engine = TacticalEngine::new(structure);
    ingest(&mut engine, reading_for(id, three())).unwrap();
    let pic = picture(&engine);
    assert_eq!(pic.contacts.len(), 1);
    assert!(pic.contacts[0].point_fix, "3 RSSI sensors => point fix");
}

#[test]
fn point_fix_after_centroid_snaps_not_blends() {
    // Engine A: a fresh point fix (no prior contact).
    let (sa, ida) = structure_with_triangulable_room();
    let mut a = TacticalEngine::new(sa);
    ingest(&mut a, reading_for(ida, three())).unwrap();
    let pa = picture(&a).contacts[0].clone();
    // Engine B: room-level centroid first, then the same point fix.
    let (sb, idb) = structure_with_triangulable_room();
    let mut b = TacticalEngine::new(sb);
    ingest(&mut b, reading_for(idb, vec![])).unwrap();
    ingest(&mut b, reading_for(idb, three())).unwrap();
    let pb = picture(&b).contacts[0].clone();
    assert!(pb.point_fix);
    assert!(
        (f(pa.x) - f(pb.x)).abs() < 1e-9 && (f(pa.y) - f(pb.y)).abs() < 1e-9,
        "centroid->point-fix must snap: fresh=({},{}) transitioned=({},{})",
        f(pa.x),
        f(pa.y),
        f(pb.x),
        f(pb.y)
    );
}

#[test]
fn contact_id_is_stable_across_updates() {
    let (structure, id) = structure_with_triangulable_room();
    let mut engine = TacticalEngine::new(structure);
    ingest(&mut engine, reading_for(id, vec![])).unwrap();
    let first = picture(&engine).contacts[0].id;
    ingest(&mut engine, reading_for(id, vec![])).unwrap();
    let second = picture(&engine).contacts[0].id;
    assert_eq!(first, second, "same room keeps the same contact id");
}

#[test]
fn absence_clears_the_room() {
    let (structure, id) = structure_with_triangulable_room();
    let mut engine = TacticalEngine::new(structure);
    ingest(&mut engine, reading_for(id, vec![])).unwrap();
    assert_eq!(picture(&engine).contacts.len(), 1);
    engine.record_absence(id).unwrap();
    let pic = picture(&engine);
    assert_eq!(pic.contacts.len(), 0);
    assert_eq!(pic.total_occupancy_estimate, 0);
}

#[test]
fn reporting_nodes_are_tracked() {
    let (structure, id) = structure_with_triangulable_room();
    let mut engine = TacticalEngine::new(structure);
    ingest(&mut engine, reading_for(id, three())).unwrap();
    let pic = picture(&engine);
    assert_eq!(pic.sensors_total, 3, "3 configured nodes");
    assert_eq!(pic.sensors_reporting, 3, "all 3 just reported");
    assert!(pic.sensors.iter().all(|s| s.reporting && s.last_rssi.is_some()));
}

#[test]
fn nodes_go_stale_after_window() {
    let (structure, id) = structure_with_triangulable_room();
    let mut engine = TacticalEngine::new(structure);
    ingest(&mut engine, reading_for(id, three())).unwrap();
    // Far-future cutoff => every node is past the freshness window.
    let report = engine.sensor_report_at(later(3600));
    assert!(report.iter().all(|s| !s.reporting));
    assert!(report.iter().all(|s| s.configured));
}

#[test]
fn configured_node_with_no_data_reads_not_reporting() {
    let (structure, _) = structure_with_triangulable_room();
    let engine = TacticalEngine::new(structure);
    let report = engine.sensor_report();
    assert_eq!(report.len(), 3);
    assert!(report.iter().all(|s| !s.reporting && s.age_secs.is_none()));
}

fn mmwave_reading(name: &str, presence: bool, br: Option<f32>) -> MmwaveReading {
    MmwaveReading {
        room_id: None,
        room_name: Some(name.into()),
        presence,
        breathing_bpm: br.map(|b| m(b as f64)),
        heart_rate_bpm: Some(m(70.0)),
        distance_cm: Some(m(300.0)),
        targets: 1,
        confidence: 90,
    }
}

#[test]
fn mmwave_corroborates_a_csi_contact() {
    let (structure, id) = structure_with_triangulable_room();
    let mut engine = TacticalEngine::new(structure);
    ingest(&mut engine, reading_for(id, vec![])).unwrap();
    engine.apply_mmwave(&mmwave_reading("Den", true, Some(15.0))).unwrap();
    let pic = picture(&engine);
    let room = pic.rooms.iter().find(|r| r.room_id == id).unwrap();
    assert!(room.mmwave.is_some());
    assert!(room.corroborated, "CSI contact + mmWave presence => corroborated");
    assert_eq!(room.mmwave.as_ref().unwrap().breathing_bpm, Some(m(15.0)));
}

#[test]
fn mmwave_clear_with_csi_contact_is_not_corroborated() {
    let (structure, id) = structure_with_triangulable_room();
    let mut engine = TacticalEngine::new(structure);
    ingest(&mut engine, reading_for(id, vec![])).unwrap();
    engine.apply_mmwave(&mmwave_reading("Den", false, None)).unwrap();
    let pic = picture(&engine);
    let room = pic.rooms.iter().find(|r| r.room_id == id).unwrap();
    assert!(room.mmwave.is_some());
    assert!(!room.corroborated, "mmWave 'clear' must not corroborate");
}

#[test]
fn stale_mmwave_drops_from_picture() {
    let (structure, _) = structure_with_triangulable_room();
    let mut engine = TacticalEngine::new(structure);
    engine.apply_mmwave(&mmwave_reading("Den", true, Some(15.0))).unwrap();
    // Fresh now: present.
    assert_eq!(engine.mmwave_report_at(Timestamp::now()).len(), 1);
    assert_eq!(engine.mmwave_report().len(), 1);
    // Far-future: stale, dropped.
    assert!(engine.mmwave_report_at(later(3600)).is_empty());
}

#[test]
fn stale_contacts_are_pruned() {
    let (structure, id) = structure_with_triangulable_room();
    let mut engine = TacticalEngine::new(structure);
    ingest(&mut engine, reading_for(id, vec![])).unwrap();
    assert_eq!(picture(&engine).contacts.len(), 1);
    // Cutoff in the far future => everything is stale.
    let removed = engine.prune_stale_before(later(3600));
    assert_eq!(removed, 1);
    assert_eq!(picture(&engine).contacts.len(), 0);
}

fn engine_with_two_rooms() -> (TacticalEngine, RoomId, RoomId) {
    let bedroom = Room::new("Bedroom", 0, bounds(0.0, 0.0, 4.0, 4.0));
    let hallway = Room::new("Hallway", 0, bounds(4.0, 0.0, 6.0, 8.0));
    let (bid, hid) = (bedroom.id, hallway.id);
    let structure = Structure::new("Test").with_room(bedroom).with_room(hallway);
    (TacticalEngine::new(structure), bid, hid)
}

fn ingest_level(
    engine: &mut TacticalEngine,
    id: RoomId,
    movement: MovementLevel,
    breathing: Option<f32>,
) {
    let input = ReadingInput {
        breathing_bpm: breathing.map(|b| m(b as f64)),
        movement,
        ..input_for(id, vec![])
    };
    ingest(engine, reading_of(id, &input)).unwrap();
}

#[test]
fn stationary_room_focuses_before_moving_room() {
    let (mut engine, bid, hid) = engine_with_two_rooms();
    // Bedroom: stationary breathing. Hallway: gross movement.
    ingest_level(&mut engine, bid, MovementLevel::Still, Some(16.0));
    ingest_level(&mut engine, hid, MovementLevel::Gross, None);

    let rec = EntryAdvisor::assess(&picture(&engine));
    assert_eq!(rec.rooms[0].priority, TacticalPriority::Focus);
    assert_eq!(rec.rooms[0].room_name, "Bedroom");
    assert_eq!(rec.rooms[1].priority, TacticalPriority::Active);
    assert!(rec.disclaimer.contains("ADVISORY ONLY"));
}

#[test]
fn empty_structure_summary_is_honest() {
    let (engine, _, _) = engine_with_two_rooms();
    let rec = EntryAdvisor::assess(&picture(&engine));
    assert!(rec.summary.contains("No presence"));
    assert!(rec.rooms.iter().all(|r| r.priority == TacticalPriority::NoContact));
}

#[test]
fn apply_input_through_state() {
    let mut engine = TacticalEngine::new(wifi_densepose_tactical::sim::demo_structure());
    let input = ReadingInput {
        room_id: None,
        room_name: Some("Bedroom 2".into()),
        presence: true,
        breathing_bpm: Some(m(16.0)),
        movement: MovementLevel::Still,
        occupancy: Some(2),
        sensor_rssi: vec![],
    };
    let signs = input.to_vitals().unwrap();
    engine.apply_input(&input, confidence(&signs), nowhere()).unwrap();
    let pic = picture(&engine);
    assert_eq!(pic.total_occupancy_estimate, 2);
    assert_eq!(pic.occupied_rooms, 1);
}

#[test]
fn reading_texts_are_exact() {
    let (mut engine, bid, hid) = engine_with_two_rooms();
    ingest_level(&mut engine, bid, MovementLevel::Still, Some(16.0));
    ingest_level(&mut engine, hid, MovementLevel::Gross, None);
    let rec = EntryAdvisor::assess(&picture(&engine));
    assert_eq!(
        rec.summary,
        "~2 person(s) sensed across 2 room(s). Presence and motion only — no identity or threat assessment."
    );
    assert_eq!(
        rec.rooms[0].rationale,
        "~1 STATIONARY contact(s), breathing confirmed — people staying put (held persons or barricaded subject; sensor cannot tell); room-level presence only (add sensors for a point fix)."
    );
    assert_eq!(
        rec.rooms[1].rationale,
        "~1 contact(s), at least one MOVING — mobile subject, picture will change; room-level presence only (add sensors for a point fix)."
    );
    assert_eq!(rec.disclaimer, ENTRY_DISCLAIMER);
}

#[test]
fn empty_texts_are_exact() {
    let (engine, _, _) = engine_with_two_rooms();
    let pic = picture(&engine);
    assert_eq!(pic.advisory, STANDING_ADVISORY);
    let rec = EntryAdvisor::assess(&pic);
    assert_eq!(
        rec.summary,
        "No presence detected anywhere in the structure. This does NOT confirm it is empty — verify by other means."
    );
    assert_eq!(rec.rooms[0].rationale, "No contact. Absence is not proof of an empty room.");
}

fn contact_with(room_id: RoomId, motion: Motion, life_sign: LifeSign) -> PersonContact {
    PersonContact {
        id: ContactId::new(),
        room_id,
        room_name: "R".into(),
        x: m(0.0),
        y: m(0.0),
        point_fix: false,
        uncertainty_radius_m: m(1.0),
        motion,
        life_sign,
        breathing_bpm: None,
        confidence: m(0.2),
        first_seen: at(0),
        last_updated: at(0),
    }
}

#[test]
fn faint_room_is_monitored_and_fuller_room_comes_first() {
    let a = Room::new("A", 0, bounds(0.0, 0.0, 1.0, 1.0));
    let b = Room::new("B", 1, bounds(0.0, 0.0, 1.0, 1.0));
    let c = Room::new("C", 0, bounds(0.0, 0.0, 1.0, 1.0))
        .with_sensor("1", m(0.0), m(0.0))
        .with_sensor("2", m(1.0), m(0.0))
        .with_sensor("3", m(0.0), m(1.0));
    let contacts = vec![
        contact_with(a.id, Motion::Stationary, LifeSign::Faint),
        contact_with(b.id, Motion::Stationary, LifeSign::MovementOnly),
        contact_with(c.id, Motion::Restless, LifeSign::MovementOnly),
    ];
    let occupancy = vec![(c.id, 12)];
    let rooms = vec![a, b, c];
    let pic = TacticalPicture::assemble_at("S", &rooms, contacts, &occupancy, vec![], &[], at(5));
    assert_eq!(pic.total_occupancy_estimate, 14);
    assert_eq!(pic.generated_at, at(5));
    let rec = EntryAdvisor::assess(&pic);
    let names: Vec<&str> = rec.rooms.iter().map(|r| r.room_name.as_str()).collect();
    assert_eq!(names, vec!["C", "B", "A"]);
    assert_eq!(rec.rooms[2].priority, TacticalPriority::Monitor);
    assert_eq!(
        rec.rooms[2].rationale,
        "~1 faint/borderline signature(s) — watch, not confirmed; room-level presence only (add sensors for a point fix)."
    );
    assert_eq!(
        rec.rooms[0].rationale,
        "~12 STATIONARY contact(s), movement-based presence — people staying put (held persons or barricaded subject; sensor cannot tell); point-localized."
    );
    assert_eq!(rec.rooms[1].floor, 1);
}

#[test]
fn priorities_have_their_tags_and_ranks() {
    let all = [
        TacticalPriority::Focus,
        TacticalPriority::Active,
        TacticalPriority::Monitor,
        TacticalPriority::NoContact,
    ];
    let tags: Vec<&str> = all.iter().map(|p| p.tag()).collect();
    assert_eq!(tags, vec!["focus", "active", "monitor", "no_contact"]);
    let ranks: Vec<u8> = all.iter().map(|p| p.rank()).collect();
    assert_eq!(ranks, vec![0, 1, 2, 3]);
}

#[test]
fn default_config_has_the_documented_windows() {
    let (structure, _) = structure_with_triangulable_room();
    let config = TacticalEngine::new(structure).config();
    assert_eq!(config, EngineConfig::default());
    assert_eq!(f(config.position_alpha), 0.5);
    assert_eq!(config.contact_ttl_secs, 8);
    assert_eq!(config.sensor_stale_secs, 6);
    assert_eq!(config.mmwave_stale_secs, 6);
}

#[test]
fn same_kind_of_fix_is_blended_half_way() {
    let (structure, id) = structure_with_triangulable_room();
    let mut engine = TacticalEngine::new(structure);
    ingest(&mut engine, reading_for(id, three())).unwrap();
    let first = engine.contact(id).unwrap().clone();
    let moved = rssi(&[("s1", -54.0), ("s2", -61.0), ("s3", -58.0)]);
    let reading = reading_for(id, moved);
    let target = sense(&engine, &reading).estimate.unwrap();
    ingest(&mut engine, reading).unwrap();
    let c = engine.contact(id).unwrap();
    assert!(c.point_fix);
    assert_eq!(f(c.x), f(first.x) * 0.5 + f(target.x) * 0.5);
    assert_eq!(f(c.y), f(first.y) * 0.5 + f(target.y) * 0.5);
    assert_eq!(c.uncertainty_radius_m, target.radius);
}

#[test]
fn two_live_nodes_give_no_point_fix() {
    let (structure, id) = structure_with_triangulable_room();
    let mut engine = TacticalEngine::new(structure);
    let two = rssi(&[("s1", -55.0), ("s2", -60.0), ("other", -50.0)]);
    ingest(&mut engine, reading_for(id, two)).unwrap();
    let c = engine.contact(id).unwrap();
    assert!(!c.point_fix);
    // An estimate that came in all the same is not taken.
    let reading = reading_for(id, vec![]);
    let sensed = Sensed {
        estimate: Some(Circle { x: m(1.0), y: m(2.0), radius: m(0.4) }),
        room_level: Circle { x: m(6.0), y: m(6.0), radius: m(8.0) },
        ..nowhere()
    };
    let room = engine.structure().room(id).unwrap();
    let fix = engine.localize(room, &reading, &sensed);
    assert_eq!(
        fix,
        Fix { x: m(6.0), y: m(6.0), point_fix: false, uncertainty_radius_m: m(8.0) }
    );
}

#[test]
fn contact_keeps_its_first_sighting() {
    let (structure, id) = structure_with_triangulable_room();
    let mut engine = TacticalEngine::new(structure);
    let (a, b) = (ContactId::new(), ContactId::new());
    engine.ingest_at(reading_for(id, vec![]), nowhere(), at(100), a).unwrap();
    engine.ingest_at(reading_for(id, vec![]), nowhere(), at(103), b).unwrap();
    let c = engine.contact(id).unwrap();
    assert_eq!(c.id, a);
    assert_eq!(c.first_seen, at(100));
    assert_eq!(c.last_updated, at(103));
    assert_eq!(c.breathing_bpm, Some(m(16.0)));
    assert_eq!(c.room_name, "Den");
}

#[test]
fn pruning_keeps_what_is_not_older_than_the_cutoff() {
    let (mut engine, bid, hid) = engine_with_two_rooms();
    engine.ingest_at(reading_for(bid, vec![]), nowhere(), at(100), ContactId::new()).unwrap();
    engine.ingest_at(reading_for(hid, vec![]), nowhere(), at(110), ContactId::new()).unwrap();
    assert_eq!(engine.prune_stale_before(at(110)), 1);
    assert!(engine.contact(bid).is_none());
    assert!(engine.contact(hid).is_some());
    assert_eq!(engine.prune_stale_before(at(110)), 0);
    assert_eq!(picture(&engine).total_occupancy_estimate, 1);
}

#[test]
fn prune_stale_uses_the_time_to_live() {
    let (structure, id) = structure_with_triangulable_room();
    let mut engine = TacticalEngine::new(structure);
    ingest(&mut engine, reading_for(id, vec![])).unwrap();
    assert_eq!(engine.prune_stale(), 0);
    let fresh = ContactId::new();
    engine.ingest_at(reading_for(id, vec![]), nowhere(), later(-20), fresh).unwrap();
    assert_eq!(engine.prune_stale(), 1);
}

#[test]
fn absent_reading_still_hears_its_nodes() {
    let (structure, id) = structure_with_triangulable_room();
    let mut engine = TacticalEngine::new(structure);
    let fresh = ContactId::new();
    engine.ingest_at(reading_for(id, vec![]), nowhere(), at(100), fresh).unwrap();
    let input = ReadingInput { presence: false, ..input_for(id, three()) };
    engine.apply_input_at(&input, m(0.0), nowhere(), at(101), fresh).unwrap();
    assert!(engine.contact(id).is_none());
    let report = engine.sensor_report_at(at(101));
    assert!(report.iter().all(|s| s.reporting && s.age_secs == Some(0)));
    assert_eq!(report[1].last_rssi, Some(m(-60.0)));
}

#[test]
fn reading_of_an_unknown_room_says_what_it_named() {
    let (structure, _) = structure_with_triangulable_room();
    let mut engine = TacticalEngine::new(structure);
    let id = RoomId::from_uuid(0x0123_4567_89ab_cdef_0123_4567_89ab_cdef);
    let mut named = |room_id: Option<RoomId>, room_name: Option<&str>| {
        let input = ReadingInput {
            room_id,
            room_name: room_name.map(String::from),
            ..input_for(id, vec![])
        };
        match engine.apply_input(&input, m(0.5), nowhere()) {
            Err(TacticalError::UnknownRoom(s)) => s,
            other => panic!("{other:?}"),
        }
    };
    assert_eq!(named(Some(id), Some("Attic")), "Attic");
    assert_eq!(named(Some(id), None), "01234567-89ab-cdef-0123-456789abcdef");
    assert_eq!(named(None, None), "unspecified");
    let radar = MmwaveReading { room_name: None, ..mmwave_reading("Den", true, None) };
    let err = engine.apply_mmwave(&radar).unwrap_err();
    assert_eq!(err.message(), "unknown room: unspecified");
}

#[test]
fn rooms_resolve_by_id_then_by_name() {
    let (mut engine, bid, hid) = engine_with_two_rooms();
    assert_eq!(engine.resolve_room(Some(bid), Some("hallway")), Some(bid));
    assert_eq!(engine.resolve_room(Some(RoomId::new()), Some("HALLWAY")), Some(hid));
    assert_eq!(engine.resolve_room(None, Some("Halway")), None);
    assert_eq!(engine.resolve_room(None, None), None);
    assert!(engine.record_absence(RoomId::new()).is_err());
}

#[test]
fn radar_keeps_only_what_it_resolved() {
    let (structure, id) = structure_with_triangulable_room();
    let mut engine = TacticalEngine::new(structure);
    let radar = MmwaveReading {
        breathing_bpm: Some(m(0.0)),
        heart_rate_bpm: Some(m(-3.0)),
        distance_cm: Some(m(f64::NAN)),
        ..mmwave_reading("den", true, None)
    };
    engine.apply_mmwave_at(&radar, at(50)).unwrap();
    let report = engine.mmwave_report_at(at(56));
    assert_eq!(
        report,
        vec![(
            id,
            MmwaveCorroboration {
                presence: true,
                breathing_bpm: None,
                heart_rate_bpm: None,
                distance_cm: None,
                targets: 1,
                confidence: 90,
                age_secs: 6,
            }
        )]
    );
    assert!(engine.mmwave_report_at(at(57)).is_empty());
    // A reading from the future is not shown either.
    assert!(engine.mmwave_report_at(at(49)).is_empty());
}

#[test]
fn report_sorts_by_room_then_id_and_lists_strays() {
    let attic = Room::new("Attic", 1, bounds(0.0, 0.0, 1.0, 1.0)).with_sensor("z", m(0.0), m(0.0));
    let cellar = Room::new("Cellar", -1, bounds(0.0, 0.0, 1.0, 1.0))
        .with_sensor("b", m(0.0), m(0.0))
        .with_sensor("a", m(0.0), m(0.0));
    let (aid, cid) = (attic.id, cellar.id);
    let structure = Structure::new("S").with_room(cellar).with_room(attic);
    let mut engine = TacticalEngine::new(structure);
    let heard: Vec<(String, Measure)> =
        vec![("stray".into(), m(-70.0)), ("a".into(), m(-50.0)), ("a".into(), m(-51.0))];
    engine.note_sensors_at(cid, &heard, at(10));
    let lost: Vec<(String, Measure)> = vec![("ghost".into(), m(-90.0))];
    engine.note_sensors_at(RoomId::new(), &lost, at(3));
    let report: Vec<SensorSummary> = engine.sensor_report_at(at(12));
    let ids: Vec<&str> = report.iter().map(|s| s.id.as_str()).collect();
    assert_eq!(ids, vec!["ghost", "z", "a", "b", "stray"]);
    assert_eq!(report[0].room_name, None);
    assert!(!report[0].reporting && !report[0].configured);
    assert_eq!(report[0].age_secs, Some(9));
    assert_eq!(report[1].room_id, Some(aid));
    assert_eq!(report[2].last_rssi, Some(m(-51.0)));
    assert!(report[4].reporting && !report[4].configured);
    assert_eq!(report[4].room_name.as_deref(), Some("Cellar"));
    let pic = engine.picture_at(at(12));
    assert_eq!((pic.sensors_total, pic.sensors_reporting), (3, 1));
    assert_eq!(pic.sensors.len(), 5);
}

#[test]
fn new_structure_discards_all_that_was_tracked() {
    let (structure, id) = structure_with_triangulable_room();
    let mut engine = TacticalEngine::new(structure);
    ingest(&mut engine, reading_for(id, three())).unwrap();
    engine.apply_mmwave(&mmwave_reading("Den", true, None)).unwrap();
    let (next, _) = structure_with_triangulable_room();
    engine.set_structure(next);
    let pic = picture(&engine);
    assert!(pic.contacts.is_empty());
    assert_eq!((pic.total_occupancy_estimate, pic.sensors_reporting), (0, 0));
    assert!(pic.rooms[0].mmwave.is_none());
}

#[test]
fn csi_clears_the_room_where_nothing_is_found() {
    let (structure, id) = structure_with_triangulable_room();
    let mut engine = TacticalEngine::new(structure);
    let fresh = ContactId::new();
    let list = input_for(id, three()).rssi_list();
    let signs = input_for(id, vec![]).to_vitals().unwrap();
    let vitals = signs.with_confidence(confidence(&signs));
    engine.apply_csi_at(id, Detection::Found(vitals), list.clone(), nowhere(), at(10), fresh);
    assert_eq!(engine.contact(id).unwrap().last_updated, at(10));
    assert_eq!(engine.picture_at(at(10)).total_occupancy_estimate, 1);
    // Too little data: nothing but the nodes is refreshed.
    engine.apply_csi_at(id, Detection::TooLittle, list.clone(), nowhere(), at(12), fresh);
    assert_eq!(engine.contact(id).unwrap().last_updated, at(10));
    assert!(engine.sensor_report_at(at(12)).iter().all(|s| s.age_secs == Some(0)));
    // A reading without vital signs clears the room.
    let still = MovementProfile {
        movement_type: MovementType::Still,
        intensity: m(0.0),
        frequency: m(0.0),
        is_voluntary: false,
    };
    let nothing = VitalSignsReading {
        signs: VitalSigns { breathing: None, heartbeat: false, movement: still },
        confidence: m(0.0),
    };
    engine.apply_csi_at(id, Detection::Found(nothing), list.clone(), nowhere(), at(14), fresh);
    assert!(engine.contact(id).is_none());
    engine.apply_csi(id, Detection::Found(vitals), vec![], nowhere());
    assert!(engine.contact(id).is_some());
    // So does enough data in which nothing is found; the nodes are heard.
    engine.apply_csi_at(id, Detection::Nothing, list, nowhere(), at(20), fresh);
    let pic = engine.picture_at(at(20));
    assert!(pic.contacts.is_empty());
    assert_eq!((pic.rooms[0].contact_count, pic.rooms[0].occupancy_estimate), (0, 0));
    assert_eq!((pic.occupied_rooms, pic.sensors_reporting), (0, 3));
    // A room that the structure does not have gets no contact.
    engine.apply_csi_at(RoomId::new(), Detection::Found(vitals), vec![], nowhere(), at(21), fresh);
    assert!(engine.picture_at(at(21)).contacts.is_empty());
}

#[test]
fn total_that_does_not_fit_is_seen_beforehand() {
    let (mut engine, bid, hid) = engine_with_two_rooms();
    for id in [bid, hid] {
        let reading = RoomReading { occupancy: u32::MAX, ..reading_for(id, vec![]) };
        ingest(&mut engine, reading).unwrap();
    }
    assert!(!engine.total_fits());
    engine.record_absence(bid).unwrap();
    assert!(engine.total_fits());
    assert_eq!(engine.picture().total_occupancy_estimate, u32::MAX);
}

#[test]
fn noted_nodes_report_now() {
    let (structure, id) = structure_with_triangulable_room();
    let mut engine = TacticalEngine::new(structure);
    engine.note_sensors(id, &[("s2".to_string(), m(-44.0))]);
    let report = engine.sensor_report();
    let reporting: Vec<&str> =
        report.iter().filter(|s| s.reporting).map(|s| s.id.as_str()).collect();
    assert_eq!(reporting, vec!["s2"]);
    assert_eq!(report[1].last_rssi, Some(m(-44.0)));
}

#[test]
fn picture_takes_the_larger_of_report_and_count() {
    let room = Room::new("A", 2, bounds(0.0, 0.0, 1.0, 1.0));
    let id = room.id;
    let contacts = vec![
        contact_with(id, Motion::Stationary, LifeSign::Faint),
        contact_with(id, Motion::Moving, LifeSign::MovementOnly),
        contact_with(RoomId::new(), Motion::Moving, LifeSign::MovementOnly),
    ];
    let rooms = vec![room];
    let pic = TacticalPicture::assemble("S", &rooms, contacts, &[(id, 1), (id, 9)], vec![], &[]);
    assert_eq!(pic.rooms.len(), 1);
    assert_eq!((pic.rooms[0].contact_count, pic.rooms[0].occupancy_estimate), (2, 2));
    assert!(pic.rooms[0].any_moving);
    assert_eq!(pic.rooms[0].floor, 2);
    assert_eq!((pic.occupied_rooms, pic.contacts.len()), (1, 3));
    assert!(pic.ble_devices.is_empty());
}
