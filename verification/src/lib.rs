//! Decision support for a sensed building.
//!
//! The library turns what WiFi sensing reports about the rooms of a building
//! into one picture: where human presence is detected, whether it moves, and
//! whether breathing was resolved. It keeps the floor plan, the tracked
//! contacts, the health of the sensor nodes and the radar readings, and it
//! orders the rooms for the people who plan an entry.
//!
//! Every output is advisory. A contact is anonymous presence: it carries no
//! identity, no intent and no friend/foe label. Absence of a contact does not
//! mean that a room is empty.
//!
//! Quantities that a sensor measures are held as [`measure::Measure`]: the
//! library stores, orders and compares them. The arithmetic on them (blending
//! two positions, the centroid of a room, a distance) is done by the caller and
//! comes in as a plain argument.

pub mod ble;
pub mod bridge;
pub mod clock;
pub mod domain;
pub mod engine;
pub mod entry;
mod error;
pub mod ids;
pub mod ingest;
pub mod measure;
pub mod ranked;
pub mod seqs;
pub mod server;
pub mod sim;
pub mod table;
pub mod text;

pub use crate::domain::contact::{ContactId, LifeSign, Motion, PersonContact};
pub use crate::domain::picture::{RoomOccupancy, TacticalPicture};
pub use crate::domain::reading::{MovementLevel, ReadingInput, RoomReading, SensorRssi};
pub use crate::domain::structure::{Room, Structure};
pub use crate::engine::{EngineConfig, TacticalEngine};
pub use crate::entry::{EntryAdvisor, EntryRecommendation, RoomAssessment, TacticalPriority};
pub use crate::error::TacticalError;
pub use crate::ids::{RoomId, StructureId};
