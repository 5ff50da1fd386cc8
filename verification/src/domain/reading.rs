//! What a sensing cycle observed for one room.

use vstd::prelude::*;

use crate::ids::RoomId;
use crate::measure::Measure;

verus! {

/// Amplitude assumed for a breathing rhythm that a coarse reading reports: 0.7.
pub const ASSUMED_AMPLITUDE_BITS: u64 = 0x3FE6_6666_6000_0000;

/// Regularity assumed for a breathing rhythm that a coarse reading reports: 0.75.
pub const ASSUMED_REGULARITY_BITS: u64 = 0x3FE8_0000_0000_0000;

/// Below ten breaths per minute breathing is shallow.
pub const SHALLOW_BELOW_BITS: u64 = 0x4024_0000_0000_0000;

/// Above thirty breaths per minute breathing is labored.
pub const LABORED_ABOVE_BITS: u64 = 0x403E_0000_0000_0000;

/// Intensity of fine motion: 0.4.
pub const FINE_INTENSITY_BITS: u64 = 0x3FD9_9999_A000_0000;

/// Frequency of fine motion: 0.8.
pub const FINE_FREQUENCY_BITS: u64 = 0x3FE9_9999_A000_0000;

/// Intensity of gross motion: 0.8.
pub const GROSS_INTENSITY_BITS: u64 = 0x3FE9_9999_A000_0000;

/// Frequency of gross motion: 1.2.
pub const GROSS_FREQUENCY_BITS: u64 = 0x3FF3_3333_4000_0000;

/// Kinds of breathing.
#[derive(Clone, Copy, Debug, PartialEq, Eq, Structural)]
pub enum BreathingType {
    /// Regular breathing.
    Normal,
    /// Weak breathing.
    Shallow,
    /// Deep breathing.
    Labored,
    /// An irregular pattern.
    Irregular,
    /// Gasping.
    Agonal,
    /// No breathing.
    Apnea,
}

/// A breathing rhythm.
#[derive(Clone, Copy, Debug, PartialEq, Eq, Structural)]
pub struct BreathingPattern {
    /// Breaths per minute.
    pub rate_bpm: Measure,
    /// Signal amplitude.
    pub amplitude: Measure,
    /// Regularity of the pattern.
    pub regularity: Measure,
    /// Kind of breathing.
    pub pattern_type: BreathingType,
}

/// Kinds of movement.
#[derive(Clone, Copy, Debug, PartialEq, Eq, Structural)]
pub enum MovementType {
    /// No movement.
    Still,
    /// Large body movements.
    Gross,
    /// Small movements.
    Fine,
    /// Shaking.
    Tremor,
    /// Periodic movement.
    Periodic,
}

/// Movement as read from the signal.
#[derive(Clone, Copy, Debug, PartialEq, Eq, Structural)]
pub struct MovementProfile {
    /// Kind of movement.
    pub movement_type: MovementType,
    /// Intensity of movement.
    pub intensity: Measure,
    /// Frequency of the movement pattern.
    pub frequency: Measure,
    /// Whether the movement appears purposeful.
    pub is_voluntary: bool,
}

/// The vital signs of one detection.
#[derive(Clone, Copy, Debug, PartialEq, Eq, Structural)]
pub struct VitalSigns {
    /// Breathing, if detected.
    pub breathing: Option<BreathingPattern>,
    /// Whether a heartbeat was detected.
    pub heartbeat: bool,
    /// Movement.
    pub movement: MovementProfile,
}

/// Vital signs with the confidence that the detector gives them.
#[derive(Clone, Copy, Debug, PartialEq, Eq, Structural)]
pub struct VitalSignsReading {
    /// The signs.
    pub signs: VitalSigns,
    /// Detection confidence.
    pub confidence: Measure,
}

/// What the detector makes of the channel state buffered for a room.
#[derive(Clone, Copy, Debug, PartialEq, Eq, Structural)]
pub enum Detection {
    /// Too little is buffered for it to say anything.
    TooLittle,
    /// Enough is buffered, and there is nobody in it.
    Nothing,
    /// Vital signs.
    Found(VitalSignsReading),
}

impl VitalSigns {
    /// Whether any vital sign is present.
    pub open spec fn any(self) -> bool {
        self.breathing is Some || self.heartbeat || self.movement.movement_type
            != MovementType::Still
    }

    /// Whether any vital sign is present.
    pub fn has_vitals(&self) -> (r: bool)
        ensures
            r == self.any(),
    {
        self.breathing.is_some() || self.heartbeat || self.movement.movement_type
            != MovementType::Still
    }

    /// Whether breathing was detected.
    pub fn has_breathing(&self) -> (r: bool)
        ensures
            r == (self.breathing is Some),
    {
        self.breathing.is_some()
    }

    /// These signs with the confidence that the detector gives them.
    pub fn with_confidence(self, confidence: Measure) -> (r: VitalSignsReading)
        ensures
            r == (VitalSignsReading { signs: self, confidence }),
    {
        VitalSignsReading { signs: self, confidence }
    }
}

/// Coarse movement level reported for a room in a sensing cycle.
#[derive(Clone, Copy, Debug, PartialEq, Eq, Structural)]
pub enum MovementLevel {
    /// No motion energy above the noise floor.
    Still,
    /// Small or intermittent motion.
    Fine,
    /// Sustained gross motion.
    Gross,
}

impl MovementLevel {
    /// The movement that a level stands for.
    pub open spec fn profile(self) -> MovementProfile {
        match self {
            MovementLevel::Still => MovementProfile {
                movement_type: MovementType::Still,
                intensity: Measure { bits: 0 },
                frequency: Measure { bits: 0 },
                is_voluntary: false,
            },
            MovementLevel::Fine => MovementProfile {
                movement_type: MovementType::Fine,
                intensity: Measure { bits: FINE_INTENSITY_BITS },
                frequency: Measure { bits: FINE_FREQUENCY_BITS },
                is_voluntary: false,
            },
            MovementLevel::Gross => MovementProfile {
                movement_type: MovementType::Gross,
                intensity: Measure { bits: GROSS_INTENSITY_BITS },
                frequency: Measure { bits: GROSS_FREQUENCY_BITS },
                is_voluntary: true,
            },
        }
    }

    /// The movement that this level stands for.
    pub fn to_profile(self) -> (r: MovementProfile)
        ensures
            r == self.profile(),
    {
        match self {
            MovementLevel::Still => MovementProfile {
                movement_type: MovementType::Still,
                intensity: Measure { bits: 0 },
                frequency: Measure { bits: 0 },
                is_voluntary: false,
            },
            MovementLevel::Fine => MovementProfile {
                movement_type: MovementType::Fine,
                intensity: Measure { bits: FINE_INTENSITY_BITS },
                frequency: Measure { bits: FINE_FREQUENCY_BITS },
                is_voluntary: false,
            },
            MovementLevel::Gross => MovementProfile {
                movement_type: MovementType::Gross,
                intensity: Measure { bits: GROSS_INTENSITY_BITS },
                frequency: Measure { bits: GROSS_FREQUENCY_BITS },
                is_voluntary: true,
            },
        }
    }
}

/// The movement level of a reading that gives none.
pub fn default_movement() -> (r: MovementLevel)
    ensures
        r == MovementLevel::Still,
{
    MovementLevel::Still
}

/// A live RSSI reading from one sensor node.
#[derive(Clone, Debug)]
pub struct SensorRssi {
    /// Node id.
    pub id: String,
    /// Measured signal strength (dBm).
    pub rssi: Measure,
}

/// Hardware-agnostic reading for one room: is anyone present, at what breathing
/// rate, how much movement, roughly how many, and the RSSI of each node.
#[derive(Clone, Debug)]
pub struct ReadingInput {
    /// Room by id; goes before the name.
    pub room_id: Option<RoomId>,
    /// Room by name, for a reading without a known id.
    pub room_name: Option<String>,
    /// Whether any human presence was detected at all.
    pub presence: bool,
    /// Resolved breathing rate (breaths per minute).
    pub breathing_bpm: Option<Measure>,
    /// Movement level observed.
    pub movement: MovementLevel,
    /// Best occupancy estimate, a lower bound.
    pub occupancy: Option<u32>,
    /// RSSI of each node, if available.
    pub sensor_rssi: Vec<SensorRssi>,
}

/// A radar reading for one room.
#[derive(Clone, Debug)]
pub struct MmwaveReading {
    /// Room by id; goes before the name.
    pub room_id: Option<RoomId>,
    /// Room by name, for a reading without a known id.
    pub room_name: Option<String>,
    /// Whether the radar sees anyone.
    pub presence: bool,
    /// Breathing rate (breaths per minute).
    pub breathing_bpm: Option<Measure>,
    /// Heart rate (beats per minute).
    pub heart_rate_bpm: Option<Measure>,
    /// Distance to the nearest target (centimetres).
    pub distance_cm: Option<Measure>,
    /// Number of targets.
    pub targets: u8,
    /// Confidence of the radar (percent).
    pub confidence: u8,
}

/// The kind of breathing that a rate reads as.
pub open spec fn breathing_kind(bpm: Measure) -> BreathingType {
    if bpm.lt(Measure { bits: SHALLOW_BELOW_BITS }) {
        BreathingType::Shallow
    } else if (Measure { bits: LABORED_ABOVE_BITS }).lt(bpm) {
        BreathingType::Labored
    } else {
        BreathingType::Normal
    }
}

/// The kind of breathing that a rate reads as.
pub fn classify_breathing(bpm: Measure) -> (r: BreathingType)
    ensures
        r == breathing_kind(bpm),
{
    let labored: Measure = Measure { bits: LABORED_ABOVE_BITS };
    if bpm.below(Measure { bits: SHALLOW_BELOW_BITS }) {
        BreathingType::Shallow
    } else if labored.below(bpm) {
        BreathingType::Labored
    } else {
        BreathingType::Normal
    }
}

/// The breathing rhythm that a rate stands for in a coarse reading.
pub open spec fn assumed_breathing(bpm: Measure) -> BreathingPattern {
    BreathingPattern {
        rate_bpm: bpm,
        amplitude: Measure { bits: ASSUMED_AMPLITUDE_BITS },
        regularity: Measure { bits: ASSUMED_REGULARITY_BITS },
        pattern_type: breathing_kind(bpm),
    }
}

impl ReadingInput {
    /// The vital signs that this reading implies: none without presence, and
    /// none where there is neither breathing nor movement.
    pub open spec fn vitals(self) -> Option<VitalSigns> {
        if self.presence && (self.breathing_bpm is Some || self.movement != MovementLevel::Still) {
            Some(
                VitalSigns {
                    breathing: match self.breathing_bpm {
                        Some(bpm) => Some(assumed_breathing(bpm)),
                        None => None,
                    },
                    heartbeat: false,
                    movement: self.movement.profile(),
                },
            )
        } else {
            None
        }
    }

    /// The occupancy to assume: at least one.
    pub open spec fn occupants(self) -> u32 {
        match self.occupancy {
            Some(n) => if n >= 1 {
                n
            } else {
                1
            },
            None => 1,
        }
    }

    /// The vital signs that this reading implies, if any.
    pub fn to_vitals(&self) -> (r: Option<VitalSigns>)
        ensures
            r == self.vitals(),
    {
        if !self.presence {
            return None;
        }
        let breathing: Option<BreathingPattern> = match self.breathing_bpm {
            Some(bpm) => Some(
                BreathingPattern {
                    rate_bpm: bpm,
                    amplitude: Measure { bits: ASSUMED_AMPLITUDE_BITS },
                    regularity: Measure { bits: ASSUMED_REGULARITY_BITS },
                    pattern_type: classify_breathing(bpm),
                },
            ),
            None => None,
        };
        let movement: MovementProfile = self.movement.to_profile();
        if breathing.is_none() && movement.movement_type == MovementType::Still {
            return None;
        }
        Some(VitalSigns { breathing, heartbeat: false, movement })
    }

    /// Occupancy to assume, at least one.
    pub fn effective_occupancy(&self) -> (r: u32)
        ensures
            r == self.occupants(),
    {
        match self.occupancy {
            Some(n) => if n >= 1 {
                n
            } else {
                1
            },
            None => 1,
        }
    }

    /// The RSSI of each node as pairs of id and strength.
    pub open spec fn rssi_pairs(self) -> Seq<(String, Measure)> {
        self.sensor_rssi@.map_values(|s: SensorRssi| (s.id, s.rssi))
    }

    /// The RSSI of each node as pairs of id and strength.
    pub fn rssi_list(&self) -> (r: Vec<(String, Measure)>)
        ensures
            r@ == self.rssi_pairs(),
    {
        rssi_list(&self.sensor_rssi)
    }
}

/// Readings as pairs of id and strength.
pub fn rssi_list(sensor_rssi: &Vec<SensorRssi>) -> (r: Vec<(String, Measure)>)
    ensures
        r@ == sensor_rssi@.map_values(|s: SensorRssi| (s.id, s.rssi)),
{
    let ghost all = sensor_rssi@.map_values(|s: SensorRssi| (s.id, s.rssi));
    let mut r: Vec<(String, Measure)> = Vec::new();
    let mut i: usize = 0;
    while i < sensor_rssi.len()
        invariant
            i <= sensor_rssi@.len(),
            all == sensor_rssi@.map_values(|s: SensorRssi| (s.id, s.rssi)),
            r@ == all.take(i as int),
        decreases sensor_rssi@.len() - i,
    {
        r.push((sensor_rssi[i].id.clone(), sensor_rssi[i].rssi));
        i = i + 1;
        assert(r@ =~= all.take(i as int));
    }
    assert(r@ =~= all);
    r
}

/// A reading with its room and its vital signs resolved.
#[derive(Clone, Debug)]
pub struct RoomReading {
    /// Room this reading applies to.
    pub room_id: RoomId,
    /// Detected vitals.
    pub vitals: VitalSignsReading,
    /// Occupancy estimate.
    pub occupancy: u32,
    /// RSSI of each node as pairs of id and strength.
    pub sensor_rssi: Vec<(String, Measure)>,
}

/// The content of a resolved reading.
#[verifier::ext_equal]
pub struct RoomReadingView {
    /// Room this reading applies to.
    pub room_id: RoomId,
    /// Detected vitals.
    pub vitals: VitalSignsReading,
    /// Occupancy estimate.
    pub occupancy: u32,
    /// RSSI of each node as pairs of id and strength.
    pub sensor_rssi: Seq<(String, Measure)>,
}

impl View for RoomReading {
    type V = RoomReadingView;

    open spec fn view(&self) -> RoomReadingView {
        RoomReadingView {
            room_id: self.room_id,
            vitals: self.vitals,
            occupancy: self.occupancy,
            sensor_rssi: self.sensor_rssi@,
        }
    }
}

} // verus!
