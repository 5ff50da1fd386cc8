//! A detected human presence inside the structure.
//!
//! A contact is anonymous and unclassified. It records only what the radio
//! observed: that a human is present, roughly where, whether they move, and
//! whether breathing was detected.

use vstd::prelude::*;

use crate::clock::Timestamp;
use crate::domain::reading::{MovementType, VitalSignsReading};
use crate::ids::RoomId;
use crate::measure::Measure;

pub use crate::ids::ContactId;

verus! {

/// Below this detection confidence (0.4) a contact without breathing is faint.
pub const FAINT_BELOW_BITS: u64 = 0x3FD9_9999_9999_999A;

/// How a contact is moving.
#[derive(Clone, Copy, Debug, PartialEq, Eq, Structural)]
pub enum Motion {
    /// Detected but no bulk movement: a still occupant.
    Stationary,
    /// Small or intermittent movement.
    Restless,
    /// Sustained gross movement.
    Moving,
}

impl Motion {
    /// The lower-case tag of a motion.
    pub open spec fn tag_text(self) -> Seq<char> {
        match self {
            Motion::Stationary => "stationary"@,
            Motion::Restless => "restless"@,
            Motion::Moving => "moving"@,
        }
    }

    /// Lower-case tag for displays and JSON consumers.
    pub fn tag(&self) -> (r: &'static str)
        ensures
            r@ == self.tag_text(),
    {
        match self {
            Motion::Stationary => "stationary",
            Motion::Restless => "restless",
            Motion::Moving => "moving",
        }
    }
}

/// Evidence that the contact is a living person.
#[derive(Clone, Copy, Debug, PartialEq, Eq, Structural)]
pub enum LifeSign {
    /// A breathing rhythm was resolved: the strongest evidence.
    BreathingConfirmed,
    /// Movement but no clean breathing signal.
    MovementOnly,
    /// A weak or borderline signature: a possible contact.
    Faint,
}

impl LifeSign {
    /// The lower-case tag of a life sign.
    pub open spec fn tag_text(self) -> Seq<char> {
        match self {
            LifeSign::BreathingConfirmed => "breathing"@,
            LifeSign::MovementOnly => "movement_only"@,
            LifeSign::Faint => "faint"@,
        }
    }

    /// Lower-case tag for displays and JSON consumers.
    pub fn tag(&self) -> (r: &'static str)
        ensures
            r@ == self.tag_text(),
    {
        match self {
            LifeSign::BreathingConfirmed => "breathing",
            LifeSign::MovementOnly => "movement_only",
            LifeSign::Faint => "faint",
        }
    }
}

/// A single tracked human presence.
#[derive(Clone, Debug)]
pub struct PersonContact {
    /// Stable id, kept while the contact is tracked.
    pub id: ContactId,
    /// Room this contact is in.
    pub room_id: RoomId,
    /// Room label.
    pub room_name: String,
    /// Best-estimate floor-plan X (metres).
    pub x: Measure,
    /// Best-estimate floor-plan Y (metres).
    pub y: Measure,
    /// Whether the position is a triangulated point, not the room centroid.
    pub point_fix: bool,
    /// Radius of uncertainty around the position (metres).
    pub uncertainty_radius_m: Measure,
    /// Movement classification.
    pub motion: Motion,
    /// Life-sign classification.
    pub life_sign: LifeSign,
    /// Breathing rate in breaths per minute, when resolved.
    pub breathing_bpm: Option<Measure>,
    /// Detection confidence.
    pub confidence: Measure,
    /// When this contact was first seen.
    pub first_seen: Timestamp,
    /// When a reading last updated this contact.
    pub last_updated: Timestamp,
}

/// The motion that a kind of movement reads as: gross motion as moving, fine,
/// tremor and periodic motion as restless, and breathing-only presence as
/// stationary.
pub open spec fn motion_of(movement: MovementType) -> Motion {
    match movement {
        MovementType::Gross => Motion::Moving,
        MovementType::Fine => Motion::Restless,
        MovementType::Tremor => Motion::Restless,
        MovementType::Periodic => Motion::Restless,
        MovementType::Still => Motion::Stationary,
    }
}

/// The life sign that a reading gives: breathing confirms life; without it a
/// confidence below 0.4 is faint.
pub open spec fn life_sign_of(vitals: VitalSignsReading) -> LifeSign {
    if vitals.signs.breathing is Some {
        LifeSign::BreathingConfirmed
    } else if vitals.confidence.lt(Measure { bits: FAINT_BELOW_BITS }) {
        LifeSign::Faint
    } else {
        LifeSign::MovementOnly
    }
}

impl PersonContact {
    /// Classify motion from a vital-signs reading.
    pub fn classify_motion(vitals: &VitalSignsReading) -> (r: Motion)
        ensures
            r == motion_of(vitals.signs.movement.movement_type),
    {
        match vitals.signs.movement.movement_type {
            MovementType::Gross => Motion::Moving,
            MovementType::Fine => Motion::Restless,
            MovementType::Tremor => Motion::Restless,
            MovementType::Periodic => Motion::Restless,
            MovementType::Still => Motion::Stationary,
        }
    }

    /// Classify the life sign from a vital-signs reading.
    pub fn classify_life_sign(vitals: &VitalSignsReading) -> (r: LifeSign)
        ensures
            r == life_sign_of(*vitals),
    {
        if vitals.signs.breathing.is_some() {
            LifeSign::BreathingConfirmed
        } else if vitals.confidence.below(Measure { bits: FAINT_BELOW_BITS }) {
            LifeSign::Faint
        } else {
            LifeSign::MovementOnly
        }
    }

    /// A copy of this contact.
    pub fn duplicate(&self) -> (r: PersonContact)
        ensures
            r == *self,
    {
        PersonContact {
            id: self.id,
            room_id: self.room_id,
            room_name: self.room_name.clone(),
            x: self.x,
            y: self.y,
            point_fix: self.point_fix,
            uncertainty_radius_m: self.uncertainty_radius_m,
            motion: self.motion,
            life_sign: self.life_sign,
            breathing_bpm: self.breathing_bpm,
            confidence: self.confidence,
            first_seen: self.first_seen,
            last_updated: self.last_updated,
        }
    }
}

} // verus!
