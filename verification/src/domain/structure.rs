//! The structure: a building as rooms with sensor nodes placed in them.

use vstd::prelude::*;

use crate::ids::random_uuid;
use crate::measure::Measure;
use crate::seqs::{first, first_at, first_none};
use crate::text::folded;

pub use crate::ids::{RoomId, StructureId};

verus! {

/// Sensors that a room needs for a point fix.
pub const MIN_SENSORS_FOR_FIX: usize = 3;

/// Height at which a node is placed when none is given: 1.2 m.
pub const DEFAULT_SENSOR_HEIGHT_BITS: u64 = 0x3FF3_3333_3333_3333;

/// Axis-aligned rectangular footprint of a room, in metres.
#[derive(Clone, Copy, Debug, PartialEq, Eq, Structural)]
pub struct RoomBounds {
    /// Minimum X.
    pub min_x: Measure,
    /// Minimum Y.
    pub min_y: Measure,
    /// Maximum X.
    pub max_x: Measure,
    /// Maximum Y.
    pub max_y: Measure,
}

impl RoomBounds {
    /// Whether a point lies in the footprint or on its edge.
    pub open spec fn holds(self, x: Measure, y: Measure) -> bool {
        &&& self.min_x.le(x)
        &&& x.le(self.max_x)
        &&& self.min_y.le(y)
        &&& y.le(self.max_y)
    }

    /// A footprint from two opposite corners.
    pub fn new(min_x: Measure, min_y: Measure, max_x: Measure, max_y: Measure) -> (r: RoomBounds)
        ensures
            r == (RoomBounds { min_x, min_y, max_x, max_y }),
    {
        RoomBounds { min_x, min_y, max_x, max_y }
    }

    /// Whether a floor-plan point falls inside this room.
    pub fn contains(&self, x: Measure, y: Measure) -> (r: bool)
        ensures
            r == self.holds(x, y),
    {
        self.min_x.at_most(x) && x.at_most(self.max_x) && self.min_y.at_most(y) && y.at_most(
            self.max_y,
        )
    }
}

/// A WiFi sensor node placed to cover a room.
#[derive(Clone, Debug)]
pub struct SensorPlacement {
    /// Node id, as in the RSSI readings of the node.
    pub id: String,
    /// X position (metres, floor-plan frame).
    pub x: Measure,
    /// Y position (metres, floor-plan frame).
    pub y: Measure,
    /// Height above the floor (metres).
    pub z: Measure,
}

/// The height of a node for which none is given.
pub fn default_sensor_height() -> (r: Measure)
    ensures
        r.bits == DEFAULT_SENSOR_HEIGHT_BITS,
{
    Measure { bits: DEFAULT_SENSOR_HEIGHT_BITS }
}

/// What a node can do.
#[derive(Clone, Copy, Debug, PartialEq, Eq, Structural)]
pub enum SensorType {
    /// Sends.
    Transmitter,
    /// Receives.
    Receiver,
    /// Sends and receives.
    Transceiver,
}

/// A node as the localizer sees it.
#[derive(Clone, Debug)]
pub struct SensorPosition {
    /// Node id.
    pub id: String,
    /// X position (metres).
    pub x: Measure,
    /// Y position (metres).
    pub y: Measure,
    /// Height (metres).
    pub z: Measure,
    /// What the node can do.
    pub sensor_type: SensorType,
    /// Whether the node works.
    pub is_operational: bool,
    /// Live signal strength (dBm), where the node reported one.
    pub last_rssi: Option<Measure>,
}

/// A room as the localizer sees it.
#[derive(Clone, Debug)]
pub struct ScanZone {
    /// Room label.
    pub name: String,
    /// Footprint.
    pub bounds: RoomBounds,
    /// The nodes of the room.
    pub sensors: Vec<SensorPosition>,
}

/// The condition that a reading is of a node.
pub open spec fn of_node(id: Seq<char>) -> spec_fn((String, Measure)) -> bool {
    |e: (String, Measure)| e.0@ == id
}

/// The live reading of a node in a list of readings: the first at its id.
pub open spec fn rssi_of(rssi: Seq<(String, Measure)>, id: Seq<char>) -> Option<Measure> {
    match first(rssi, of_node(id)) {
        Some(e) => Some(e.1),
        None => None,
    }
}

/// The live reading of a node in a list of readings.
pub fn find_rssi(rssi: &[(String, Measure)], id: &String) -> (r: Option<Measure>)
    ensures
        r == rssi_of(rssi@, id@),
{
    let ghost p = of_node(id@);
    let mut i: usize = 0;
    while i < rssi.len()
        invariant
            i <= rssi@.len(),
            p == of_node(id@),
            forall|j: int| 0 <= j < i ==> !p(#[trigger] rssi@[j]),
        decreases rssi@.len() - i,
    {
        if rssi[i].0 == *id {
            proof {
                first_at(rssi@, p, i as int);
            }
            return Some(rssi[i].1);
        }
        i = i + 1;
    }
    proof {
        first_none(rssi@, p);
    }
    None
}

impl SensorPlacement {
    /// This node as the localizer sees it, given the live readings.
    pub open spec fn position(self, rssi: Seq<(String, Measure)>) -> SensorPosition {
        SensorPosition {
            id: self.id,
            x: self.x,
            y: self.y,
            z: self.z,
            sensor_type: SensorType::Transceiver,
            is_operational: true,
            last_rssi: rssi_of(rssi, self.id@),
        }
    }
}

/// A room (or bounded area) of a structure.
#[derive(Clone, Debug)]
pub struct Room {
    /// Stable id.
    pub id: RoomId,
    /// Label, such as "Master Bedroom".
    pub name: String,
    /// Storey (ground is 0, a basement negative).
    pub floor: i32,
    /// Rectangular footprint in the floor-plan frame.
    pub bounds: RoomBounds,
    /// Nodes that cover this room. Three with live RSSI are needed for a point
    /// fix; fewer give room-level presence only.
    pub sensors: Vec<SensorPlacement>,
}

impl Room {
    /// Whether the room has the sensors for a point fix.
    pub open spec fn can_fix(self) -> bool {
        self.sensors@.len() >= MIN_SENSORS_FOR_FIX
    }

    /// The nodes of this room as the localizer sees them.
    pub open spec fn positions(self, rssi: Seq<(String, Measure)>) -> Seq<SensorPosition> {
        self.sensors@.map_values(|s: SensorPlacement| s.position(rssi))
    }

    /// How many nodes of this room have a live reading.
    pub open spec fn live_sensors(self, rssi: Seq<(String, Measure)>) -> nat {
        self.sensors@.filter(|s: SensorPlacement| rssi_of(rssi, s.id@) is Some).len()
    }

    /// A room with a footprint and no sensors yet, under a fresh random id.
    pub fn new(name: &str, floor: i32, bounds: RoomBounds) -> (r: Room)
        ensures
            random_uuid(r.id.uuid),
            r.name@ == name@,
            r.floor == floor,
            r.bounds == bounds,
            r.sensors@ == Seq::<SensorPlacement>::empty(),
    {
        Room { id: RoomId::new(), name: name.to_owned(), floor, bounds, sensors: Vec::new() }
    }

    /// This room with one more sensor node, at the default height.
    pub fn with_sensor(self, id: &str, x: Measure, y: Measure) -> (r: Room)
        ensures
            r.id == self.id,
            r.name == self.name,
            r.floor == self.floor,
            r.bounds == self.bounds,
            r.sensors@.len() == self.sensors@.len() + 1,
            r.sensors@.drop_last() == self.sensors@,
            r.sensors@.last().id@ == id@,
            r.sensors@.last().x == x,
            r.sensors@.last().y == y,
            r.sensors@.last().z.bits == DEFAULT_SENSOR_HEIGHT_BITS,
    {
        let mut room: Room = self;
        room.sensors.push(SensorPlacement { id: id.to_owned(), x, y, z: default_sensor_height() });
        assert(room.sensors@.drop_last() =~= self.sensors@);
        room
    }

    /// Number of sensors placed for this room.
    pub fn sensor_count(&self) -> (n: usize)
        ensures
            n == self.sensors@.len(),
    {
        self.sensors.len()
    }

    /// Whether the room can, in principle, be point-localized.
    pub fn localizable(&self) -> (r: bool)
        ensures
            r == self.can_fix(),
    {
        self.sensors.len() >= MIN_SENSORS_FOR_FIX
    }

    /// How many nodes of this room have a live reading.
    pub fn live_count(&self, rssi: &[(String, Measure)]) -> (n: usize)
        ensures
            n == self.live_sensors(rssi@),
            n <= self.sensors@.len(),
    {
        let ghost p = |s: SensorPlacement| rssi_of(rssi@, s.id@) is Some;
        let mut n: usize = 0;
        let mut i: usize = 0;
        assert(self.sensors@.take(0).filter(p) =~= Seq::<SensorPlacement>::empty());
        while i < self.sensors.len()
            invariant
                i <= self.sensors@.len(),
                n <= i,
                p == (|s: SensorPlacement| rssi_of(rssi@, s.id@) is Some),
                n == self.sensors@.take(i as int).filter(p).len(),
            decreases self.sensors@.len() - i,
        {
            proof {
                let s = self.sensors@;
                assert(s.take(i + 1) =~= s.take(i as int).push(s[i as int]));
                s.take(i as int).lemma_filter_push(s[i as int], p);
            }
            if find_rssi(rssi, &self.sensors[i].id).is_some() {
                n = n + 1;
            }
            i = i + 1;
        }
        assert(self.sensors@.take(i as int) =~= self.sensors@);
        n
    }

    /// This room as the localizer sees it. A node without a live reading is
    /// passed without one: none is made up.
    pub fn to_scan_zone(&self, rssi_by_id: &[(String, Measure)]) -> (zone: ScanZone)
        ensures
            zone.name == self.name,
            zone.bounds == self.bounds,
            zone.sensors@ == self.positions(rssi_by_id@),
    {
        let mut sensors: Vec<SensorPosition> = Vec::new();
        let mut i: usize = 0;
        while i < self.sensors.len()
            invariant
                i <= self.sensors@.len(),
                sensors@ == self.positions(rssi_by_id@).take(i as int),
            decreases self.sensors@.len() - i,
        {
            let s: &SensorPlacement = &self.sensors[i];
            let position: SensorPosition = SensorPosition {
                id: s.id.clone(),
                x: s.x,
                y: s.y,
                z: s.z,
                sensor_type: SensorType::Transceiver,
                is_operational: true,
                last_rssi: find_rssi(rssi_by_id, &s.id),
            };
            assert(position == self.sensors@[i as int].position(rssi_by_id@));
            sensors.push(position);
            i = i + 1;
            assert(sensors@ =~= self.positions(rssi_by_id@).take(i as int));
        }
        assert(sensors@ =~= self.positions(rssi_by_id@));
        ScanZone { name: self.name.clone(), bounds: self.bounds, sensors }
    }
}

/// A building: what the operator loads before a callout.
#[derive(Clone, Debug)]
pub struct Structure {
    /// Stable id.
    pub id: StructureId,
    /// Label, such as an address or callsign.
    pub name: String,
    /// Rooms in floor-plan order.
    pub rooms: Vec<Room>,
}

/// Whether no two rooms have the same id.
pub open spec fn distinct_rooms(rooms: Seq<Room>) -> bool {
    forall|i: int, j: int|
        0 <= i < j < rooms.len() ==> (#[trigger] rooms[i]).id != (#[trigger] rooms[j]).id
}

impl Structure {
    /// The first room with an id.
    pub open spec fn room_at(self, id: RoomId) -> Option<Room> {
        first(self.rooms@, |r: Room| r.id == id)
    }

    /// The first room whose name matches, ASCII letters in either case.
    pub open spec fn room_named(self, name: Seq<char>) -> Option<Room> {
        first(self.rooms@, |r: Room| folded(r.name@) == folded(name))
    }

    /// An empty structure, under a fresh random id.
    pub fn new(name: &str) -> (r: Structure)
        ensures
            random_uuid(r.id.uuid),
            r.name@ == name@,
            r.rooms@ == Seq::<Room>::empty(),
    {
        Structure { id: StructureId::new(), name: name.to_owned(), rooms: Vec::new() }
    }

    /// This structure with one more room.
    pub fn with_room(self, room: Room) -> (r: Structure)
        ensures
            r.id == self.id,
            r.name == self.name,
            r.rooms@ == self.rooms@.push(room),
    {
        let mut structure: Structure = self;
        structure.rooms.push(room);
        structure
    }

    /// Look up a room by id.
    pub fn room(&self, id: RoomId) -> (r: Option<&Room>)
        ensures
            match r {
                Some(room) => self.room_at(id) == Some(*room),
                None => self.room_at(id) is None,
            },
            r is Some ==> r->0.id == id,
    {
        let ghost p = |r: Room| r.id == id;
        let mut i: usize = 0;
        while i < self.rooms.len()
            invariant
                i <= self.rooms@.len(),
                p == (|r: Room| r.id == id),
                forall|j: int| 0 <= j < i ==> !p(#[trigger] self.rooms@[j]),
            decreases self.rooms@.len() - i,
        {
            if self.rooms[i].id == id {
                proof {
                    first_at(self.rooms@, p, i as int);
                }
                return Some(&self.rooms[i]);
            }
            i = i + 1;
        }
        proof {
            first_none(self.rooms@, p);
        }
        None
    }

    /// Look up a room by name, ASCII letters in either case.
    pub fn room_by_name(&self, name: &str) -> (r: Option<&Room>)
        ensures
            match r {
                Some(room) => self.room_named(name@) == Some(*room),
                None => self.room_named(name@) is None,
            },
    {
        let ghost p = |r: Room| folded(r.name@) == folded(name@);
        let mut i: usize = 0;
        while i < self.rooms.len()
            invariant
                i <= self.rooms@.len(),
                p == (|r: Room| folded(r.name@) == folded(name@)),
                forall|j: int| 0 <= j < i ==> !p(#[trigger] self.rooms@[j]),
            decreases self.rooms@.len() - i,
        {
            if self.rooms[i].name.as_str().eq_ignore_ascii_case(name) {
                proof {
                    first_at(self.rooms@, p, i as int);
                }
                return Some(&self.rooms[i]);
            }
            i = i + 1;
        }
        proof {
            first_none(self.rooms@, p);
        }
        None
    }
}

} // verus!
