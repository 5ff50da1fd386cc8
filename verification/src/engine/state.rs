//! What the engine holds, and how each event changes it.

use vstd::prelude::*;

use crate::clock::Timestamp;
use crate::domain::contact::{life_sign_of, motion_of, Motion, PersonContact};
use crate::domain::picture::{
    configured_count, contacts_in, moving_in, occupied, radar_by_content, radar_views,
    reporting_count, roll_up, total_estimate, BleDevice, MmwaveCorroboration, RadarView,
    RoomOccupancyView, SensorSummary, SensorSummaryView, TacticalPicture, STANDING_ADVISORY,
};
use crate::domain::reading::{
    Detection, MmwaveReading, ReadingInput, RoomReadingView, VitalSignsReading,
};
use crate::domain::structure::{rssi_of, Room, SensorPlacement, Structure, MIN_SENSORS_FOR_FIX};
use crate::error::TacticalError;
use crate::ids::{hyphenated, ContactId, RoomId};
use crate::measure::Measure;
use crate::ranked::{stable_sort_of, views};
use crate::seqs::{enumerates, filter_single, first_in_enumeration, first_is_first};
use crate::text::folded;

verus! {

/// Weight of a new fix in the blend with the tracked position: one half.
pub const DEFAULT_ALPHA_BITS: u64 = 0x3FE0_0000_0000_0000;

/// Tunables for tracking behaviour.
#[derive(Clone, Copy, Debug, PartialEq, Eq, Structural)]
pub struct EngineConfig {
    /// Weight of a new fix in the blend with the tracked position.
    pub position_alpha: Measure,
    /// A contact that no reading refreshed within this many seconds is dropped
    /// by [`TacticalEngine::prune_stale`].
    pub contact_ttl_secs: i64,
    /// A node that was not heard within this many seconds is not reporting.
    pub sensor_stale_secs: i64,
    /// A radar reading older than this many seconds is left out of the picture.
    pub mmwave_stale_secs: i64,
}

/// The tunables of an engine for which none are given.
pub open spec fn default_config() -> EngineConfig {
    EngineConfig {
        position_alpha: Measure { bits: DEFAULT_ALPHA_BITS },
        contact_ttl_secs: 8,
        sensor_stale_secs: 6,
        mmwave_stale_secs: 6,
    }
}

impl Default for EngineConfig {
    fn default() -> (r: EngineConfig)
        ensures
            r == default_config(),
    {
        EngineConfig {
            position_alpha: Measure { bits: DEFAULT_ALPHA_BITS },
            contact_ttl_secs: 8,
            sensor_stale_secs: 6,
            mmwave_stale_secs: 6,
        }
    }
}

/// What was last heard of a node.
#[derive(Clone, Copy, Debug, PartialEq, Eq, Structural)]
pub struct SensorActivity {
    /// The room that the node reported for.
    pub room_id: RoomId,
    /// When the node was last heard.
    pub last_seen: Timestamp,
    /// The signal strength it reported.
    pub last_rssi: Option<Measure>,
}

/// The last radar reading of a room.
#[derive(Clone, Copy, Debug, PartialEq, Eq, Structural)]
pub struct MmwaveState {
    /// Whether the radar sees anyone.
    pub presence: bool,
    /// Breathing rate, when the radar resolved one.
    pub breathing_bpm: Option<Measure>,
    /// Heart rate, when the radar resolved one.
    pub heart_rate_bpm: Option<Measure>,
    /// Distance to the nearest target, when the radar resolved one.
    pub distance_cm: Option<Measure>,
    /// Number of targets.
    pub targets: u8,
    /// Confidence of the radar.
    pub confidence: u8,
    /// When the reading came in.
    pub last_seen: Timestamp,
}

/// A position with a radius of uncertainty around it.
#[derive(Clone, Copy, Debug, PartialEq, Eq, Structural)]
pub struct Circle {
    /// X (metres).
    pub x: Measure,
    /// Y (metres).
    pub y: Measure,
    /// Radius (metres).
    pub radius: Measure,
}

/// A floor-plan point.
#[derive(Clone, Copy, Debug, PartialEq, Eq, Structural)]
pub struct Point {
    /// X (metres).
    pub x: Measure,
    /// Y (metres).
    pub y: Measure,
}

/// The geometry that comes with a reading: what the caller computed from the
/// measured quantities.
#[derive(Clone, Copy, Debug, PartialEq, Eq, Structural)]
pub struct Sensed {
    /// The triangulated position, where the localizer gives one.
    pub estimate: Option<Circle>,
    /// The centroid of the room and the radius of the circle that encloses it.
    pub room_level: Circle,
    /// The tracked position blended toward the new one, as
    /// [`TacticalEngine::blend`] asks for it; not used where it asks for none.
    pub blended: Point,
}

/// Where a reading places its contact.
#[derive(Clone, Copy, Debug, PartialEq, Eq, Structural)]
pub struct Fix {
    /// X (metres).
    pub x: Measure,
    /// Y (metres).
    pub y: Measure,
    /// Whether the position is a triangulated point, not the room centroid.
    pub point_fix: bool,
    /// Radius of uncertainty (metres).
    pub uncertainty_radius_m: Measure,
}

/// Two positions to be blended: `from * (1 - alpha) + to * alpha`.
#[derive(Clone, Copy, Debug, PartialEq, Eq, Structural)]
pub struct Blend {
    /// The tracked position.
    pub from: Point,
    /// The new position.
    pub to: Point,
    /// Weight of the new position.
    pub alpha: Measure,
}

/// Where a reading of a room places its contact: at the estimate, where the
/// localizer gives one and three nodes of the room report live; else at the
/// room level.
pub open spec fn located(room: Room, rssi: Seq<(String, Measure)>, sensed: Sensed) -> Fix {
    if sensed.estimate is Some && room.live_sensors(rssi) >= MIN_SENSORS_FOR_FIX {
        let c = sensed.estimate->0;
        Fix { x: c.x, y: c.y, point_fix: true, uncertainty_radius_m: c.radius }
    } else {
        let c = sensed.room_level;
        Fix { x: c.x, y: c.y, point_fix: false, uncertainty_radius_m: c.radius }
    }
}

/// The contact of a room after a reading. A tracked contact keeps its id and
/// its first sighting; it moves to the blend where the kind of fix is the same,
/// and snaps to the new fix where it is not.
pub open spec fn contact_after(
    prior: Option<PersonContact>,
    room: Room,
    vitals: VitalSignsReading,
    fix: Fix,
    blended: Point,
    now: Timestamp,
    fresh: ContactId,
) -> PersonContact {
    let smooth = prior is Some && prior->0.point_fix == fix.point_fix;
    PersonContact {
        id: if prior is Some {
            prior->0.id
        } else {
            fresh
        },
        room_id: room.id,
        room_name: if prior is Some {
            prior->0.room_name
        } else {
            room.name
        },
        x: if smooth {
            blended.x
        } else {
            fix.x
        },
        y: if smooth {
            blended.y
        } else {
            fix.y
        },
        point_fix: fix.point_fix,
        uncertainty_radius_m: fix.uncertainty_radius_m,
        motion: motion_of(vitals.signs.movement.movement_type),
        life_sign: life_sign_of(vitals),
        breathing_bpm: match vitals.signs.breathing {
            Some(b) => Some(b.rate_bpm),
            None => None,
        },
        confidence: vitals.confidence,
        first_seen: if prior is Some {
            prior->0.first_seen
        } else {
            now
        },
        last_updated: now,
    }
}

/// The last reading of a node in a list of readings.
pub open spec fn last_rssi_of(rssi: Seq<(String, Measure)>, id: Seq<char>) -> Option<Measure>
    decreases rssi.len(),
{
    if rssi.len() == 0 {
        None
    } else if rssi.last().0@ == id {
        Some(rssi.last().1)
    } else {
        last_rssi_of(rssi.drop_last(), id)
    }
}

/// What was last heard of the nodes, after a batch of readings of one room at
/// one time. A node that occurs twice in the batch keeps its last reading.
pub open spec fn heard(
    sensors: Map<Seq<char>, SensorActivity>,
    room_id: RoomId,
    rssi: Seq<(String, Measure)>,
    now: Timestamp,
) -> Map<Seq<char>, SensorActivity> {
    sensors.union_prefer_right(
        Map::new(
            |id: Seq<char>| last_rssi_of(rssi, id) is Some,
            |id: Seq<char>|
                SensorActivity { room_id, last_seen: now, last_rssi: last_rssi_of(rssi, id) },
        ),
    )
}

/// Rooms at zero.
pub open spec fn zeros(rooms: Set<RoomId>) -> Map<RoomId, u32> {
    Map::new(|id: RoomId| rooms.contains(id), |id: RoomId| 0)
}

/// Whether a measure is above zero.
pub open spec fn positive(m: Measure) -> bool {
    (Measure { bits: 0 }).lt(m)
}

/// A quantity that the radar resolved: one above zero.
pub open spec fn resolved(m: Option<Measure>) -> Option<Measure> {
    match m {
        Some(v) => if positive(v) {
            Some(v)
        } else {
            None
        },
        None => None,
    }
}

/// A radar reading as it is kept.
pub open spec fn kept(reading: MmwaveReading, now: Timestamp) -> MmwaveState {
    MmwaveState {
        presence: reading.presence,
        breathing_bpm: resolved(reading.breathing_bpm),
        heart_rate_bpm: resolved(reading.heart_rate_bpm),
        distance_cm: resolved(reading.distance_cm),
        targets: reading.targets,
        confidence: reading.confidence,
        last_seen: now,
    }
}

/// A kept radar reading as the picture shows it at `now`.
pub open spec fn corroboration(m: MmwaveState, now: Timestamp) -> RadarView {
    RadarView {
        presence: m.presence,
        breathing_bpm: m.breathing_bpm,
        heart_rate_bpm: m.heart_rate_bpm,
        distance_cm: m.distance_cm,
        targets: m.targets as nat,
        confidence: m.confidence as nat,
        age_secs: now.seconds_since(m.last_seen),
    }
}

/// Whether the detector found a vital sign.
pub open spec fn shows_vitals(found: Detection) -> bool {
    found is Found && found->Found_0.signs.any()
}

/// How a reading without a known room names it: by name, else by id.
pub open spec fn unknown_room(room_name: Option<String>, room_id: Option<RoomId>) -> Seq<char> {
    match room_name {
        Some(name) => name@,
        None => match room_id {
            Some(id) => hyphenated(id.uuid),
            None => "unspecified"@,
        },
    }
}

/// Whether an error says that a room is unknown, under the given name.
pub open spec fn is_unknown_room(e: TacticalError, name: Seq<char>) -> bool {
    match e {
        TacticalError::UnknownRoom(s) => s@ == name,
        _ => false,
    }
}

/// A contact stands under its own room, which is in the structure and has an
/// occupancy of at least one. A point fix needs three sensors in the room. A
/// room with an occupancy is in the structure, and has a contact where the
/// occupancy is above zero.
pub open spec fn tracks_agree(
    structure: Structure,
    contacts: Map<RoomId, PersonContact>,
    occupancy: Map<RoomId, u32>,
) -> bool {
    &&& forall|id: RoomId| #[trigger]
        contacts.contains_key(id) ==> {
            &&& contacts[id].room_id == id
            &&& structure.room_at(id) is Some
            &&& contacts[id].room_name == structure.room_at(id)->0.name
            &&& contacts[id].point_fix ==> structure.room_at(id)->0.can_fix()
            &&& occupancy.contains_key(id)
            &&& occupancy[id] >= 1
        }
    &&& forall|id: RoomId| #[trigger]
        occupancy.contains_key(id) ==> {
            &&& structure.room_at(id) is Some
            &&& occupancy[id] >= 1 ==> contacts.contains_key(id)
        }
}

/// A radar reading stands under a room of the structure, and its quantities are
/// above zero.
pub open spec fn radar_agrees(structure: Structure, mmwave: Map<RoomId, MmwaveState>) -> bool {
    forall|id: RoomId| #[trigger]
        mmwave.contains_key(id) ==> {
            &&& structure.room_at(id) is Some
            &&& mmwave[id].breathing_bpm is Some ==> positive(mmwave[id].breathing_bpm->0)
            &&& mmwave[id].heart_rate_bpm is Some ==> positive(mmwave[id].heart_rate_bpm->0)
            &&& mmwave[id].distance_cm is Some ==> positive(mmwave[id].distance_cm->0)
        }
}

/// All that the engine holds.
#[verifier::ext_equal]
pub struct EngineState {
    /// The loaded structure.
    pub structure: Structure,
    /// The contact of each occupied room.
    pub contacts: Map<RoomId, PersonContact>,
    /// The latest occupancy estimate of each room: at least one when occupied,
    /// zero when cleared.
    pub occupancy: Map<RoomId, u32>,
    /// What was last heard of each node.
    pub sensors: Map<Seq<char>, SensorActivity>,
    /// The latest radar reading of each room.
    pub mmwave: Map<RoomId, MmwaveState>,
    /// The tunables.
    pub config: EngineConfig,
}

impl EngineState {
    /// The state of an engine to which nothing was reported.
    pub open spec fn blank(structure: Structure, config: EngineConfig) -> EngineState {
        EngineState {
            structure,
            contacts: Map::empty(),
            occupancy: Map::empty(),
            sensors: Map::empty(),
            mmwave: Map::empty(),
            config,
        }
    }

    /// The parts of the state agree with the structure and with each other.
    pub open spec fn consistent(self) -> bool {
        &&& tracks_agree(self.structure, self.contacts, self.occupancy)
        &&& radar_agrees(self.structure, self.mmwave)
    }

    /// The room that an id or a name stands for: the id where the structure has
    /// it, else the room of that name, ASCII letters in either case.
    pub open spec fn resolves(self, id: Option<RoomId>, name: Option<Seq<char>>) -> Option<RoomId> {
        if id is Some && self.structure.room_at(id->0) is Some {
            id
        } else if name is Some && self.structure.room_named(name->0) is Some {
            Some(self.structure.room_named(name->0)->0.id)
        } else {
            None
        }
    }

    /// The contact of a room.
    pub open spec fn contact_of(self, id: RoomId) -> Option<PersonContact> {
        if self.contacts.contains_key(id) {
            Some(self.contacts[id])
        } else {
            None
        }
    }

    /// The blend that a new fix of a room asks for.
    pub open spec fn blend_of(self, id: RoomId, fix: Fix) -> Option<Blend> {
        if self.contacts.contains_key(id) && self.contacts[id].point_fix == fix.point_fix {
            Some(
                Blend {
                    from: Point { x: self.contacts[id].x, y: self.contacts[id].y },
                    to: Point { x: fix.x, y: fix.y },
                    alpha: self.config.position_alpha,
                },
            )
        } else {
            None
        }
    }

    /// After nodes of a room reported at `now`.
    pub open spec fn noted(
        self,
        room_id: RoomId,
        rssi: Seq<(String, Measure)>,
        now: Timestamp,
    ) -> EngineState {
        EngineState { sensors: heard(self.sensors, room_id, rssi, now), ..self }
    }

    /// After a detection in a room of the structure.
    pub open spec fn ingested(
        self,
        reading: RoomReadingView,
        sensed: Sensed,
        now: Timestamp,
        fresh: ContactId,
    ) -> EngineState {
        let id = reading.room_id;
        let room = self.structure.room_at(id)->0;
        let contact = contact_after(
            self.contact_of(id),
            room,
            reading.vitals,
            located(room, reading.sensor_rssi, sensed),
            sensed.blended,
            now,
            fresh,
        );
        EngineState {
            contacts: self.contacts.insert(id, contact),
            occupancy: self.occupancy.insert(
                id,
                if reading.occupancy >= 1 {
                    reading.occupancy
                } else {
                    1
                },
            ),
            ..self.noted(id, reading.sensor_rssi, now)
        }
    }

    /// After a room was scanned and found clear.
    pub open spec fn cleared(self, id: RoomId) -> EngineState {
        EngineState {
            contacts: self.contacts.remove(id),
            occupancy: self.occupancy.insert(id, 0),
            ..self
        }
    }

    /// After a reading of a room came in: a detection where it implies vital
    /// signs, else an absence. Its nodes were heard either way.
    pub open spec fn applied(
        self,
        id: RoomId,
        input: ReadingInput,
        confidence: Measure,
        sensed: Sensed,
        now: Timestamp,
        fresh: ContactId,
    ) -> EngineState {
        match input.vitals() {
            Some(signs) => self.ingested(
                RoomReadingView {
                    room_id: id,
                    vitals: VitalSignsReading { signs, confidence },
                    occupancy: input.occupants(),
                    sensor_rssi: input.rssi_pairs(),
                },
                sensed,
                now,
                fresh,
            ),
            None => self.noted(id, input.rssi_pairs(), now).cleared(id),
        }
    }

    /// After a batch of channel state came in for a room. While the detector has
    /// too little to go by, the contact stays as it is. Where it has enough and
    /// finds nothing, or no vital signs, the room is clear. The nodes were heard
    /// in any case. A room that the structure does not have gets neither a
    /// contact nor an occupancy.
    pub open spec fn csi_applied(
        self,
        id: RoomId,
        found: Detection,
        rssi: Seq<(String, Measure)>,
        sensed: Sensed,
        now: Timestamp,
        fresh: ContactId,
    ) -> EngineState {
        if found is TooLittle || self.structure.room_at(id) is None {
            self.noted(id, rssi, now)
        } else if shows_vitals(found) {
            self.ingested(
                RoomReadingView {
                    room_id: id,
                    vitals: found->Found_0,
                    occupancy: 1,
                    sensor_rssi: rssi,
                },
                sensed,
                now,
                fresh,
            )
        } else {
            self.noted(id, rssi, now).cleared(id)
        }
    }

    /// After a radar reading of a room.
    pub open spec fn radar_heard(
        self,
        id: RoomId,
        reading: MmwaveReading,
        now: Timestamp,
    ) -> EngineState {
        EngineState { mmwave: self.mmwave.insert(id, kept(reading, now)), ..self }
    }

    /// The rooms whose contact was last updated before `cutoff`.
    pub open spec fn stale(self, cutoff: Timestamp) -> Set<RoomId> {
        self.contacts.dom().filter(|id: RoomId| self.contacts[id].last_updated.earlier(cutoff))
    }

    /// After the contacts that were last updated before `cutoff` are dropped.
    pub open spec fn pruned(self, cutoff: Timestamp) -> EngineState {
        EngineState {
            contacts: self.contacts.remove_keys(self.stale(cutoff)),
            occupancy: self.occupancy.union_prefer_right(zeros(self.stale(cutoff))),
            ..self
        }
    }

    /// The radar readings that the picture shows at `now`.
    pub open spec fn fresh_radar(self, now: Timestamp) -> Map<RoomId, RadarView> {
        Map::new(
            |id: RoomId|
                self.mmwave.contains_key(id) && now.fresh(
                    self.mmwave[id].last_seen,
                    self.config.mmwave_stale_secs,
                ),
            |id: RoomId| corroboration(self.mmwave[id], now),
        )
    }

    /// The reported occupancy of a room.
    pub open spec fn occupancy_of(self, id: RoomId) -> u32 {
        if self.occupancy.contains_key(id) {
            self.occupancy[id]
        } else {
            0
        }
    }

    /// The sum of the reported occupancies of rooms.
    pub open spec fn people_in(self, rooms: Seq<Room>) -> nat
        decreases rooms.len(),
    {
        if rooms.len() == 0 {
            0
        } else {
            self.people_in(rooms.drop_last()) + self.occupancy_of(rooms.last().id) as nat
        }
    }

    /// The sum of the reported occupancies of all rooms.
    pub open spec fn people(self) -> nat {
        self.people_in(self.structure.rooms@)
    }

    /// What the picture shows of a room at `now`.
    pub open spec fn row(self, room: Room, now: Timestamp) -> RoomOccupancyView {
        let seen = self.contacts.contains_key(room.id);
        let radar = self.fresh_radar(now);
        RoomOccupancyView {
            room_id: room.id,
            room_name: room.name@,
            floor: room.floor as int,
            bounds: room.bounds,
            contact_count: if seen {
                1
            } else {
                0
            },
            occupancy_estimate: self.occupancy_of(room.id) as nat,
            any_moving: seen && self.contacts[room.id].motion == Motion::Moving,
            localizable: room.can_fix(),
            mmwave: if radar.contains_key(room.id) {
                Some(radar[room.id])
            } else {
                None
            },
            corroborated: seen && radar.contains_key(room.id) && radar[room.id].presence,
        }
    }

    /// What the report says of a node, under a room, at `now`.
    pub open spec fn node_row(
        self,
        id: Seq<char>,
        room_id: RoomId,
        room_name: Option<Seq<char>>,
        configured: bool,
        now: Timestamp,
    ) -> SensorSummaryView {
        let known = self.sensors.contains_key(id);
        let a = self.sensors[id];
        SensorSummaryView {
            id,
            room_id: Some(room_id),
            room_name,
            configured,
            reporting: known && now.fresh(a.last_seen, self.config.sensor_stale_secs),
            age_secs: if known {
                Some(now.seconds_since(a.last_seen))
            } else {
                None
            },
            last_rssi: if known {
                a.last_rssi
            } else {
                None
            },
        }
    }

    /// The report rows of the nodes of a room.
    pub open spec fn room_rows(self, room: Room, now: Timestamp) -> Seq<SensorSummaryView> {
        room.sensors@.map_values(
            |s: SensorPlacement| self.node_row(s.id@, room.id, Some(room.name@), true, now),
        )
    }

    /// The report rows of the nodes of rooms, in floor-plan order.
    pub open spec fn plan_rows(self, rooms: Seq<Room>, now: Timestamp) -> Seq<SensorSummaryView>
        decreases rooms.len(),
    {
        if rooms.len() == 0 {
            Seq::empty()
        } else {
            self.plan_rows(rooms.drop_last(), now) + self.room_rows(rooms.last(), now)
        }
    }

    /// Whether a node is in the floor plan.
    pub open spec fn planned(self, id: Seq<char>) -> bool {
        exists|i: int, j: int|
            #![trigger self.structure.rooms@[i].sensors@[j]]
            0 <= i < self.structure.rooms@.len() && 0 <= j < self.structure.rooms@[i].sensors@.len()
                && self.structure.rooms@[i].sensors@[j].id@ == id
    }

    /// The nodes that reported but are not in the floor plan, with their report
    /// rows.
    pub open spec fn strays(self, now: Timestamp) -> Map<Seq<char>, SensorSummaryView> {
        Map::new(
            |id: Seq<char>| self.sensors.contains_key(id) && !self.planned(id),
            |id: Seq<char>|
                self.node_row(
                    id,
                    self.sensors[id].room_id,
                    match self.structure.room_at(self.sensors[id].room_id) {
                        Some(room) => Some(room.name@),
                        None => None,
                    },
                    false,
                    now,
                ),
        )
    }

    /// Whether `out` is the node report at `now`: a row for each node of the
    /// floor plan and one for each stray, by room label and then by id.
    pub open spec fn reports(self, out: Seq<SensorSummaryView>, now: Timestamp) -> bool {
        exists|extra: Seq<(Seq<char>, SensorSummaryView)>|
            {
                &&& #[trigger] enumerates(extra, self.strays(now))
                &&& stable_sort_of::<SensorSummary>(
                    out,
                    self.plan_rows(self.structure.rooms@, now) + rows(extra),
                )
            }
    }
}

impl EngineState {
    /// Whether `picture` is the picture of this state at `now`.
    pub open spec fn pictured(self, picture: TacticalPicture, now: Timestamp) -> bool {
        &&& picture.structure_name@ == self.structure.name@
        &&& picture.generated_at == now
        &&& views(picture.rooms@) == self.structure.rooms@.map_values(
            |room: Room| self.row(room, now),
        )
        &&& enumerates(by_room(picture.contacts@), self.contacts)
        &&& picture.total_occupancy_estimate == self.people()
        &&& picture.occupied_rooms == occupied(picture.rooms@)
        &&& self.reports(views(picture.sensors@), now)
        &&& picture.sensors_total == configured_count(picture.sensors@)
        &&& picture.sensors_reporting == reporting_count(picture.sensors@)
        &&& picture.ble_devices@ == Seq::<BleDevice>::empty()
        &&& picture.advisory@ == STANDING_ADVISORY@
    }

    /// In a list of the contacts, a room has its contact once or none.
    proof fn one_contact_each(self, contacts: Seq<PersonContact>, id: RoomId)
        requires
            self.consistent(),
            enumerates(by_room(contacts), self.contacts),
        ensures
            contacts_in(contacts, id).len() == (if self.contacts.contains_key(id) {
                1nat
            } else {
                0
            }),
            moving_in(contacts, id) == (self.contacts.contains_key(id) && self.contacts[id].motion
                == Motion::Moving),
    {
        let p = |c: PersonContact| c.room_id == id;
        let s = by_room(contacts);
        if self.contacts.contains_key(id) {
            let i = choose|i: int| 0 <= i < s.len() && (#[trigger] s[i]).0 == id;
            assert(contacts[i] == self.contacts[id]);
            assert forall|j: int| 0 <= j < contacts.len() && j != i implies !p(
                #[trigger] contacts[j],
            ) by {
                assert(s[j].0 == contacts[j].room_id);
                if j < i {
                    assert(s[j].0 != s[i].0);
                } else {
                    assert(s[i].0 != s[j].0);
                }
            }
            filter_single(contacts, p, i);
        } else {
            assert forall|j: int| 0 <= j < contacts.len() implies !p(#[trigger] contacts[j]) by {
                assert(self.contacts.contains_key(s[j].0));
            }
            contacts.lemma_all_neg_filter_empty(p);
        }
    }

    /// The roll-up of a room from lists of what the state holds is its row.
    pub proof fn roll_up_is_row(
        self,
        contacts: Seq<PersonContact>,
        occupancy: Seq<(RoomId, u32)>,
        mmwave: Seq<(RoomId, MmwaveCorroboration)>,
        room: Room,
        now: Timestamp,
    )
        requires
            self.consistent(),
            enumerates(by_room(contacts), self.contacts),
            enumerates(occupancy, self.occupancy),
            enumerates(radar_views(mmwave), self.fresh_radar(now)),
        ensures
            roll_up(room, contacts, occupancy, mmwave)@ == self.row(room, now),
    {
        self.one_contact_each(contacts, room.id);
        first_in_enumeration(occupancy, self.occupancy, room.id);
        first_in_enumeration(radar_views(mmwave), self.fresh_radar(now), room.id);
        radar_by_content(mmwave, room.id);
        assert(self.contacts.contains_key(room.id) ==> self.occupancy.contains_key(room.id));
    }

    /// The total estimate from lists of what the state holds is the sum of the
    /// occupancies.
    pub proof fn total_is_people(
        self,
        contacts: Seq<PersonContact>,
        occupancy: Seq<(RoomId, u32)>,
        rooms: Seq<Room>,
    )
        requires
            self.consistent(),
            enumerates(by_room(contacts), self.contacts),
            enumerates(occupancy, self.occupancy),
        ensures
            total_estimate(rooms, contacts, occupancy) == self.people_in(rooms),
        decreases rooms.len(),
    {
        if rooms.len() > 0 {
            self.total_is_people(contacts, occupancy, rooms.drop_last());
            let id = rooms.last().id;
            self.one_contact_each(contacts, id);
            first_in_enumeration(occupancy, self.occupancy, id);
            assert(self.contacts.contains_key(id) ==> self.occupancy.contains_key(id));
        }
    }

    /// A room that a reading resolves to is in the structure.
    pub proof fn resolved_is_known(self, id: Option<RoomId>, name: Option<Seq<char>>)
        requires
            self.resolves(id, name) is Some,
        ensures
            self.structure.room_at(self.resolves(id, name)->0) is Some,
    {
        let found = self.resolves(id, name)->0;
        if !(id is Some && self.structure.room_at(id->0) is Some) {
            let rooms = self.structure.rooms@;
            first_is_first(rooms, |r: Room| folded(r.name@) == folded(name->0));
            first_is_first(rooms, |r: Room| r.id == found);
        }
    }

    /// An absence keeps the state consistent.
    pub proof fn cleared_is_consistent(self, id: RoomId)
        requires
            self.consistent(),
            self.structure.room_at(id) is Some,
        ensures
            self.cleared(id).consistent(),
    {
        let after = self.cleared(id);
        assert forall|k: RoomId| #[trigger] after.contacts.contains_key(k) implies {
            &&& k != id
            &&& self.contacts.contains_key(k)
        } by {}
        assert forall|k: RoomId| #[trigger] after.occupancy.contains_key(k) implies {
            &&& after.structure.room_at(k) is Some
            &&& after.occupancy[k] >= 1 ==> after.contacts.contains_key(k)
        } by {
            if k != id {
                assert(self.occupancy.contains_key(k));
            }
        }
    }

    /// Dropping stale contacts keeps the state consistent.
    pub proof fn pruned_is_consistent(self, cutoff: Timestamp)
        requires
            self.consistent(),
        ensures
            self.pruned(cutoff).consistent(),
    {
        let after = self.pruned(cutoff);
        assert forall|k: RoomId| #[trigger] after.contacts.contains_key(k) implies {
            &&& !self.stale(cutoff).contains(k)
            &&& self.contacts.contains_key(k)
        } by {}
        assert forall|k: RoomId| #[trigger] after.occupancy.contains_key(k) implies {
            &&& after.structure.room_at(k) is Some
            &&& after.occupancy[k] >= 1 ==> after.contacts.contains_key(k)
        } by {
            if self.stale(cutoff).contains(k) {
                assert(self.contacts.contains_key(k));
            } else {
                assert(self.occupancy.contains_key(k));
            }
        }
    }

    /// A radar reading of a room of the structure keeps the state consistent.
    pub proof fn radar_heard_is_consistent(self, id: RoomId, reading: MmwaveReading, now: Timestamp)
        requires
            self.consistent(),
            self.structure.room_at(id) is Some,
        ensures
            self.radar_heard(id, reading, now).consistent(),
    {
        let after = self.radar_heard(id, reading, now);
        assert forall|k: RoomId| #[trigger] after.mmwave.contains_key(k) implies {
            k == id || self.mmwave.contains_key(k)
        } by {}
    }

    /// A detection keeps the state consistent.
    pub proof fn ingested_is_consistent(
        self,
        reading: RoomReadingView,
        sensed: Sensed,
        now: Timestamp,
        fresh: ContactId,
    )
        requires
            self.consistent(),
            self.structure.room_at(reading.room_id) is Some,
        ensures
            self.ingested(reading, sensed, now, fresh).consistent(),
    {
        let id = reading.room_id;
        let room = self.structure.room_at(id)->0;
        let after = self.ingested(reading, sensed, now, fresh);
        let p = |s: SensorPlacement| rssi_of(reading.sensor_rssi, s.id@) is Some;
        room.sensors@.lemma_filter_len(p);
        first_is_first(self.structure.rooms@, |r: Room| r.id == id);
        assert forall|k: RoomId| #[trigger] after.contacts.contains_key(k) implies {
            &&& after.contacts[k].room_id == k
            &&& after.structure.room_at(k) is Some
            &&& after.contacts[k].room_name == after.structure.room_at(k)->0.name
            &&& after.contacts[k].point_fix ==> after.structure.room_at(k)->0.can_fix()
            &&& after.occupancy.contains_key(k)
            &&& after.occupancy[k] >= 1
        } by {
            if k != id {
                assert(self.contacts.contains_key(k));
            }
        }
    }
}

/// The rows of entries of rows at ids.
pub open spec fn rows(entries: Seq<(Seq<char>, SensorSummaryView)>) -> Seq<SensorSummaryView> {
    entries.map_values(|e: (Seq<char>, SensorSummaryView)| e.1)
}

/// Contacts as entries at their rooms.
pub open spec fn by_room(contacts: Seq<PersonContact>) -> Seq<(RoomId, PersonContact)> {
    contacts.map_values(|c: PersonContact| (c.room_id, c))
}

} // verus!
