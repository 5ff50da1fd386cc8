//! Raw channel state, with the real detector.

use wifi_densepose_mat::{DetectionConfig, DetectionPipeline};
use wifi_densepose_tactical::domain::reading::{
    BreathingPattern, BreathingType, Detection, MovementProfile, MovementType, VitalSigns, VitalSignsReading,
};
use wifi_densepose_tactical::domain::structure::RoomBounds;
use wifi_densepose_tactical::engine::{Circle, Point, Sensed};
use wifi_densepose_tactical::ingest::{default_sample_rate, CsiIngest, Window};
use wifi_densepose_tactical::measure::Measure;
use wifi_densepose_tactical::server::{admit_csi, listen_port, sim_enabled};
use wifi_densepose_tactical::{Room, RoomId, Structure, TacticalEngine, TacticalError};

fn m(x: f64) -> Measure {
    Measure::from_bits(x.to_bits())
}

fn ms(list: &[f64]) -> Vec<Measure> {
    list.iter().map(|x| m(*x)).collect()
}

/// Counts that no whole rate has: a whole rate gives its own.
fn window() -> Window {
    Window { needed: 7, kept: 9 }
}

fn structure() -> (Structure, RoomId) {
    let bounds = RoomBounds::new(m(0.0), m(0.0), m(4.0), m(4.0));
    let room = Room::new("Den", 0, bounds);
    let id = room.id;
    (Structure::new("T").with_room(room), id)
}

/// What the detector says of one chunk.
fn detect(rate: f64, amps: &[f64], phases: &[f64]) -> Result<Option<VitalSignsReading>, String> {
    let config = DetectionConfig { sample_rate: rate, ..Default::default() };
    let pipeline = DetectionPipeline::new(config);
    pipeline.add_data(amps, phases);
    let zone = wifi_densepose_mat::domain::ScanZone::new(
        "Den",
        wifi_densepose_mat::domain::ZoneBounds::rectangle(0.0, 0.0, 4.0, 4.0),
    );
    let runtime = tokio::runtime::Builder::new_current_thread().build().unwrap();
    let reading = runtime.block_on(pipeline.process_zone(&zone)).map_err(|e| e.to_string())?;
    Ok(reading.map(|r| VitalSignsReading {
        signs: VitalSigns {
            breathing: r.breathing.as_ref().map(|b| BreathingPattern {
                rate_bpm: m(b.rate_bpm as f64),
                amplitude: m(b.amplitude as f64),
                regularity: m(b.regularity as f64),
                pattern_type: BreathingType::Normal,
            }),
            heartbeat: r.heartbeat.is_some(),
            movement: MovementProfile {
                movement_type: MovementType::Still,
                intensity: m(r.movement.intensity as f64),
                frequency: m(r.movement.frequency as f64),
                is_voluntary: r.movement.is_voluntary,
            },
        },
        confidence: m(r.confidence.value()),
    }))
}

#[test]
fn distills_breathing_from_synthetic_csi() {
    let (s, id) = structure();
    let rate = 100.0;
    let mut ingest = CsiIngest::from_structure(&s, m(rate), window());
    let n = (rate * 8.0) as usize;
    let amps: Vec<f64> = (0..n)
        .map(|i| {
            let t = i as f64 / rate;
            (2.0 * std::f64::consts::PI * 0.267 * t).sin() // ~16 BPM
        })
        .collect();
    let phases: Vec<f64> = amps.iter().map(|a| a * 0.5).collect();
    assert!(ingest.push(id, &ms(&amps), &ms(&phases)));
    match ingest.distill(id, detect(rate, &amps, &phases)).unwrap() {
        Detection::Found(reading) => assert!(reading.signs.has_vitals()),
        other => panic!("8s of breathing CSI should detect vitals: {other:?}"),
    }
}

#[test]
fn insufficient_data_yields_none() {
    let (s, id) = structure();
    let mut ingest = CsiIngest::from_structure(&s, m(100.0), window());
    // Only 1 s of data — below the detector's 5 s minimum.
    let amps = vec![0.1_f64; 100];
    let phases = vec![0.0_f64; 100];
    assert!(ingest.push(id, &ms(&amps), &ms(&phases)));
    let found = ingest.distill(id, detect(100.0, &amps, &phases)).unwrap();
    assert_eq!(found, Detection::TooLittle);
}

#[test]
fn enough_data_without_anyone_is_nothing() {
    let (s, id) = structure();
    let mut ingest = CsiIngest::from_structure(&s, m(100.0), window());
    // 8 s of a flat signal.
    let amps = vec![0.0_f64; 800];
    let phases = vec![0.0_f64; 800];
    assert!(ingest.push(id, &ms(&amps), &ms(&phases)));
    let outcome = detect(100.0, &amps, &phases);
    assert_eq!(outcome, Ok(None));
    assert_eq!(ingest.distill(id, outcome).unwrap(), Detection::Nothing);

    // The room reads clear, and its node is heard all the same.
    let mut engine = TacticalEngine::new(s);
    let vitals = VitalSigns {
        breathing: None,
        heartbeat: true,
        movement: MovementProfile {
            movement_type: MovementType::Still,
            intensity: m(0.0),
            frequency: m(0.0),
            is_voluntary: false,
        },
    };
    let zero = m(0.0);
    let sensed = Sensed {
        estimate: None,
        room_level: Circle { x: zero, y: zero, radius: zero },
        blended: Point { x: zero, y: zero },
    };
    engine.apply_csi(id, Detection::Found(vitals.with_confidence(zero)), vec![], sensed);
    assert!(engine.contact(id).is_some());
    engine.apply_csi(id, Detection::Nothing, vec![("n".to_string(), m(-40.0))], sensed);
    let picture = engine.picture();
    assert!(picture.contacts.is_empty());
    assert_eq!(picture.rooms[0].occupancy_estimate, 0);
    assert!(picture.sensors[0].reporting);
}

#[test]
fn whole_rates_give_their_own_counts() {
    assert_eq!(Window::of(default_sample_rate(), window()), Window { needed: 500, kept: 3000 });
    assert_eq!(Window::of(m(1.0), window()), Window { needed: 5, kept: 30 });
    for rate in [0.0, -100.0, 99.5, 1e9, f64::NAN, f64::INFINITY] {
        assert_eq!(Window::of(m(rate), window()), window(), "{rate}");
    }
    // Five seconds are the counts at which the detector begins to answer.
    for rate in [1.0f64, 3.0, 50.0, 100.0, 1000.0, 16777216.0] {
        let w = Window::of(m(rate), window());
        assert!(w.needed as f64 / rate >= 5.0);
        assert!(((w.needed - 1) as f64) / rate < 5.0);
        assert_eq!(w.kept, (30.0 * rate) as usize);
    }
    let (s, id) = structure();
    let mut uneven = CsiIngest::from_structure(&s, m(1.5), window());
    let chunk = ms(&[0.0; 7]);
    assert!(uneven.push(id, &chunk, &chunk));
    assert_eq!(uneven.distill(id, Ok(None)).unwrap(), Detection::Nothing);
}

#[test]
fn samples_are_counted_up_to_what_is_kept() {
    let (s, id) = structure();
    let mut ingest = CsiIngest::from_structure(&s, m(100.0), window());
    let chunk = ms(&[0.0; 499]);
    assert!(ingest.push(id, &chunk, &chunk));
    assert_eq!(ingest.room(id).unwrap().buffered(), 499);
    assert_eq!(ingest.distill(id, Ok(None)).unwrap(), Detection::TooLittle);
    // A refused chunk is not counted.
    assert!(!ingest.push(id, &chunk, &[]));
    assert_eq!(ingest.distill(id, Ok(None)).unwrap(), Detection::TooLittle);
    assert!(ingest.push(id, &ms(&[0.0]), &ms(&[0.0])));
    assert_eq!(ingest.distill(id, Ok(None)).unwrap(), Detection::Nothing);
    let long = ms(&[0.0; 2501]);
    assert!(ingest.push(id, &long, &long));
    assert_eq!(ingest.room(id).unwrap().buffered(), 3000);
    assert_eq!(ingest.distill(id, Ok(None)).unwrap(), Detection::Nothing);
    ingest.rebuild(&s);
    assert_eq!(ingest.room(id).unwrap().buffered(), 0);
    assert_eq!(ingest.distill(id, Ok(None)).unwrap(), Detection::TooLittle);
}

#[test]
fn mismatched_amp_phase_lengths_are_rejected() {
    let (s, id) = structure();
    let mut ingest = CsiIngest::from_structure(&s, m(100.0), window());
    assert!(!ingest.push(id, &ms(&vec![0.1; 4000]), &[]));
    // A matched push still works.
    assert!(ingest.push(id, &ms(&[0.1_f64; 10]), &ms(&[0.0_f64; 10])));
}

#[test]
fn unknown_room_errors() {
    let (s, _) = structure();
    let mut ingest = CsiIngest::from_structure(&s, m(100.0), window());
    let id = RoomId::new();
    let err = ingest.distill(id, Ok(None)).unwrap_err();
    assert!(matches!(err, TacticalError::UnknownRoom(t) if t == id.to_text()));
    assert!(!ingest.push(id, &[], &[]));
}

#[test]
fn failed_detection_is_an_error() {
    let (s, id) = structure();
    let mut ingest = CsiIngest::from_structure(&s, default_sample_rate(), window());
    assert_eq!(f64::from_bits(ingest.sample_rate().bits), 100.0);
    let err = ingest.distill(id, Err("no signal".into())).unwrap_err();
    assert_eq!(err.message(), "invalid input: detection failed: no signal");
}

#[test]
fn rebuild_follows_the_structure() {
    let (s, id) = structure();
    let mut ingest = CsiIngest::from_structure(&s, m(100.0), window());
    assert!(ingest.knows_room(id));
    assert_eq!(ingest.room(id).unwrap().zone().name, "Den");
    let (next, other) = structure();
    ingest.rebuild(&next);
    assert!(!ingest.knows_room(id));
    assert!(ingest.knows_room(other));
    assert!(ingest.room(id).is_none());
}

#[test]
fn chunks_are_admitted_for_known_rooms_only() {
    let (s, id) = structure();
    let mut ingest = CsiIngest::from_structure(&s, m(100.0), window());
    let engine = TacticalEngine::new(s);
    let one = ms(&[1.0]);
    assert_eq!(admit_csi(&engine, &mut ingest, None, Some("DEN"), &one, &one), Some(id));
    assert_eq!(ingest.room(id).unwrap().buffered(), 1);
    assert_eq!(admit_csi(&engine, &mut ingest, Some(id), None, &one, &[]), None);
    assert_eq!(admit_csi(&engine, &mut ingest, None, Some("Attic"), &one, &one), None);
    let (other, _) = structure();
    let mut elsewhere = CsiIngest::from_structure(&other, m(100.0), window());
    assert_eq!(admit_csi(&engine, &mut elsewhere, Some(id), None, &one, &one), None);
}

#[test]
fn server_settings() {
    assert_eq!(listen_port(0), 8099);
    assert_eq!(listen_port(-5), 8099);
    assert_eq!(listen_port(80), 80);
    assert_eq!(listen_port(65537), 1);
    assert_eq!(listen_port(i32::MAX), 65535);
    assert!(sim_enabled(&["ruview-tactical".to_string()]));
    assert!(!sim_enabled(&["ruview-tactical".to_string(), "--no-sim".to_string()]));
    assert!(sim_enabled(&["--no-simulation".to_string()]));
}
