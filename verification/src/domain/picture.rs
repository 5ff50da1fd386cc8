//! The picture handed to the operator.

use vstd::prelude::*;

use crate::clock::Timestamp;
use crate::domain::contact::{Motion, PersonContact};
use crate::domain::structure::{Room, RoomBounds};
use crate::ids::RoomId;
use crate::measure::Measure;
use crate::ranked::Ranked;
use crate::seqs::{at_key, first, first_at, first_none};
use crate::text::{
    comes_before, text_before, text_order_irreflexive, text_order_total, text_order_transitive,
};

verus! {

/// The advisory carried on every picture.
pub const STANDING_ADVISORY: &'static str =
    "Decision-support only. Contacts are anonymous human presence — NOT identified as hostage or suspect, NOT confirmed armed. Absence of a contact does not mean a room is empty. Corroborate before acting.";

/// What the radar of a room says, next to the WiFi contacts.
#[derive(Clone, Copy, Debug, PartialEq, Eq, Structural)]
pub struct MmwaveCorroboration {
    /// Whether the radar sees anyone.
    pub presence: bool,
    /// Breathing rate, when the radar resolved one.
    pub breathing_bpm: Option<Measure>,
    /// Heart rate, when the radar resolved one.
    pub heart_rate_bpm: Option<Measure>,
    /// Distance to the nearest target, when the radar resolved one.
    pub distance_cm: Option<Measure>,
    /// Number of targets.
    pub targets: u8,
    /// Confidence of the radar.
    pub confidence: u8,
    /// Age of the reading in whole seconds.
    pub age_secs: i64,
}

/// What the sensors currently see in one room.
#[derive(Clone, Debug)]
pub struct RoomOccupancy {
    /// Room id.
    pub room_id: RoomId,
    /// Room label.
    pub room_name: String,
    /// Storey.
    pub floor: i32,
    /// Room footprint.
    pub bounds: RoomBounds,
    /// Number of tracked contacts in the room.
    pub contact_count: usize,
    /// Best occupancy estimate for the room, a lower bound.
    pub occupancy_estimate: u32,
    /// Whether any contact in the room is moving.
    pub any_moving: bool,
    /// Whether the room has the sensors for a point fix.
    pub localizable: bool,
    /// Fresh radar reading of the room, if any.
    pub mmwave: Option<MmwaveCorroboration>,
    /// Whether WiFi and radar both see presence.
    pub corroborated: bool,
}

/// Health of one sensor node.
#[derive(Clone, Debug)]
pub struct SensorSummary {
    /// Node id.
    pub id: String,
    /// Room of the node.
    pub room_id: Option<RoomId>,
    /// Label of that room, when it is in the floor plan.
    pub room_name: Option<String>,
    /// Whether the node is in the floor plan.
    pub configured: bool,
    /// Whether the node was heard within the freshness window.
    pub reporting: bool,
    /// Whole seconds since the node was last heard.
    pub age_secs: Option<i64>,
    /// Last signal strength (dBm).
    pub last_rssi: Option<Measure>,
}

/// A nearby device that advertises over Bluetooth. It is a device, not a person.
#[derive(Clone, Debug)]
pub struct BleDevice {
    /// Device address or id.
    pub id: String,
    /// Advertised name, if any.
    pub name: Option<String>,
    /// Signal strength (dBm).
    pub rssi: Measure,
    /// Whole seconds since the device was last seen.
    pub age_secs: i64,
}

/// A snapshot of the whole structure.
#[derive(Clone, Debug)]
pub struct TacticalPicture {
    /// Structure label.
    pub structure_name: String,
    /// When this snapshot was made.
    pub generated_at: Timestamp,
    /// One entry for each room, in the order of the structure.
    pub rooms: Vec<RoomOccupancy>,
    /// Every tracked contact.
    pub contacts: Vec<PersonContact>,
    /// Sum of the room estimates.
    pub total_occupancy_estimate: u32,
    /// Number of rooms with at least one contact.
    pub occupied_rooms: usize,
    /// Health of each sensor node.
    pub sensors: Vec<SensorSummary>,
    /// Number of nodes in the floor plan.
    pub sensors_total: usize,
    /// How many of those are reporting.
    pub sensors_reporting: usize,
    /// Bluetooth devices nearby, attached by the caller.
    pub ble_devices: Vec<BleDevice>,
    /// The standing advisory, kept in the payload so that no viewer can drop it.
    pub advisory: String,
}

/// The content of a node summary.
#[verifier::ext_equal]
pub struct SensorSummaryView {
    /// Node id.
    pub id: Seq<char>,
    /// Room of the node.
    pub room_id: Option<RoomId>,
    /// Label of that room.
    pub room_name: Option<Seq<char>>,
    /// Whether the node is in the floor plan.
    pub configured: bool,
    /// Whether the node was heard within the freshness window.
    pub reporting: bool,
    /// Whole seconds since the node was last heard.
    pub age_secs: Option<int>,
    /// Last signal strength.
    pub last_rssi: Option<Measure>,
}

/// The content of an optional text.
pub open spec fn text_of(s: Option<String>) -> Option<Seq<char>> {
    match s {
        Some(t) => Some(t@),
        None => None,
    }
}

impl View for SensorSummary {
    type V = SensorSummaryView;

    open spec fn view(&self) -> SensorSummaryView {
        SensorSummaryView {
            id: self.id@,
            room_id: self.room_id,
            room_name: text_of(self.room_name),
            configured: self.configured,
            reporting: self.reporting,
            age_secs: match self.age_secs {
                Some(secs) => Some(secs as int),
                None => None,
            },
            last_rssi: self.last_rssi,
        }
    }
}

/// The content of what the radar of a room says.
#[verifier::ext_equal]
pub struct RadarView {
    /// Whether the radar sees anyone.
    pub presence: bool,
    /// Breathing rate, when the radar resolved one.
    pub breathing_bpm: Option<Measure>,
    /// Heart rate, when the radar resolved one.
    pub heart_rate_bpm: Option<Measure>,
    /// Distance to the nearest target, when the radar resolved one.
    pub distance_cm: Option<Measure>,
    /// Number of targets.
    pub targets: nat,
    /// Confidence of the radar.
    pub confidence: nat,
    /// Age of the reading in whole seconds.
    pub age_secs: int,
}

impl View for MmwaveCorroboration {
    type V = RadarView;

    open spec fn view(&self) -> RadarView {
        RadarView {
            presence: self.presence,
            breathing_bpm: self.breathing_bpm,
            heart_rate_bpm: self.heart_rate_bpm,
            distance_cm: self.distance_cm,
            targets: self.targets as nat,
            confidence: self.confidence as nat,
            age_secs: self.age_secs as int,
        }
    }
}

/// Radar readings at rooms by content.
pub open spec fn radar_views(mmwave: Seq<(RoomId, MmwaveCorroboration)>) -> Seq<
    (RoomId, RadarView),
> {
    mmwave.map_values(|e: (RoomId, MmwaveCorroboration)| (e.0, e.1@))
}

/// The content of what the sensors currently see in one room.
#[verifier::ext_equal]
pub struct RoomOccupancyView {
    /// Room id.
    pub room_id: RoomId,
    /// Room label.
    pub room_name: Seq<char>,
    /// Storey.
    pub floor: int,
    /// Room footprint.
    pub bounds: RoomBounds,
    /// Number of tracked contacts in the room.
    pub contact_count: nat,
    /// Best occupancy estimate for the room.
    pub occupancy_estimate: nat,
    /// Whether any contact in the room is moving.
    pub any_moving: bool,
    /// Whether the room has the sensors for a point fix.
    pub localizable: bool,
    /// Fresh radar reading of the room, if any.
    pub mmwave: Option<RadarView>,
    /// Whether WiFi and radar both see presence.
    pub corroborated: bool,
}

impl View for RoomOccupancy {
    type V = RoomOccupancyView;

    open spec fn view(&self) -> RoomOccupancyView {
        RoomOccupancyView {
            room_id: self.room_id,
            room_name: self.room_name@,
            floor: self.floor as int,
            bounds: self.bounds,
            contact_count: self.contact_count as nat,
            occupancy_estimate: self.occupancy_estimate as nat,
            any_moving: self.any_moving,
            localizable: self.localizable,
            mmwave: match self.mmwave {
                Some(m) => Some(m@),
                None => None,
            },
            corroborated: self.corroborated,
        }
    }
}

/// The order of optional texts: absence first, then the order of texts.
pub open spec fn label_before(a: Option<Seq<char>>, b: Option<Seq<char>>) -> bool {
    match (a, b) {
        (None, Some(_)) => true,
        (Some(x), Some(y)) => text_before(x, y),
        _ => false,
    }
}

/// The order of optional texts is strict and total.
proof fn label_order(a: Option<Seq<char>>, b: Option<Seq<char>>, c: Option<Seq<char>>)
    ensures
        !label_before(a, a),
        label_before(a, b) && label_before(b, c) ==> label_before(a, c),
        a != b ==> label_before(a, b) || label_before(b, a),
{
    if let Some(x) = a {
        text_order_irreflexive(x);
        if let Some(y) = b {
            text_order_total(x, y);
            if let Some(z) = c {
                if text_before(x, y) && text_before(y, z) {
                    text_order_transitive(x, y, z);
                }
            }
        }
    }
}

/// The order of texts is strict and total.
proof fn id_order(a: Seq<char>, b: Seq<char>, c: Seq<char>)
    ensures
        !text_before(a, a),
        text_before(a, b) && text_before(b, c) ==> text_before(a, c),
        a != b ==> text_before(a, b) || text_before(b, a),
{
    text_order_irreflexive(a);
    text_order_total(a, b);
    if text_before(a, b) && text_before(b, c) {
        text_order_transitive(a, b, c);
    }
}

impl Ranked for SensorSummary {
    /// Nodes are ordered by room label, then by id.
    open spec fn ahead(a: SensorSummaryView, b: SensorSummaryView) -> bool {
        label_before(a.room_name, b.room_name) || (a.room_name == b.room_name && text_before(
            a.id,
            b.id,
        ))
    }

    fn is_ahead(&self, other: &SensorSummary) -> (r: bool) {
        proof {
            id_order(self.id@, other.id@, other.id@);
        }
        match (&self.room_name, &other.room_name) {
            (None, None) => comes_before(self.id.as_str(), other.id.as_str()),
            (None, Some(_)) => true,
            (Some(_), None) => false,
            (Some(x), Some(y)) => {
                proof {
                    text_order_irreflexive(x@);
                }
                if *x == *y {
                    comes_before(self.id.as_str(), other.id.as_str())
                } else {
                    comes_before(x.as_str(), y.as_str())
                }
            },
        }
    }

    open spec fn placed(a: SensorSummaryView) -> bool {
        true
    }

    proof fn order_is_strict(a: SensorSummaryView, b: SensorSummaryView) {
        Self::order_is_weak(a, b, a);
    }

    proof fn order_is_weak(a: SensorSummaryView, b: SensorSummaryView, c: SensorSummaryView) {
        label_order(a.room_name, b.room_name, c.room_name);
        label_order(a.room_name, c.room_name, b.room_name);
        label_order(c.room_name, b.room_name, a.room_name);
        label_order(b.room_name, c.room_name, a.room_name);
        label_order(c.room_name, a.room_name, b.room_name);
        id_order(a.id, b.id, c.id);
        id_order(a.id, c.id, b.id);
        id_order(c.id, b.id, a.id);
        id_order(b.id, c.id, a.id);
        id_order(c.id, a.id, b.id);
    }
}

/// The contacts of one room, in their order.
pub open spec fn contacts_in(contacts: Seq<PersonContact>, id: RoomId) -> Seq<PersonContact> {
    contacts.filter(|c: PersonContact| c.room_id == id)
}

/// Whether a contact of the room is moving.
pub open spec fn moving_in(contacts: Seq<PersonContact>, id: RoomId) -> bool {
    exists|i: int|
        0 <= i < contacts.len() && (#[trigger] contacts[i]).room_id == id && contacts[i].motion
            == Motion::Moving
}

/// The reported occupancy of a room: zero where none was reported.
pub open spec fn occupancy_in(occupancy: Seq<(RoomId, u32)>, id: RoomId) -> u32 {
    match first(occupancy, at_key(id)) {
        Some(e) => e.1,
        None => 0,
    }
}

/// The radar reading of a room.
pub open spec fn mmwave_in(
    mmwave: Seq<(RoomId, MmwaveCorroboration)>,
    id: RoomId,
) -> Option<MmwaveCorroboration> {
    match first(mmwave, at_key(id)) {
        Some(e) => Some(e.1),
        None => None,
    }
}

/// The radar reading of a room is the same by content.
pub proof fn radar_by_content(mmwave: Seq<(RoomId, MmwaveCorroboration)>, id: RoomId)
    ensures
        first(radar_views(mmwave), at_key(id)) == (match mmwave_in(mmwave, id) {
            Some(m) => Some((id, m@)),
            None => None,
        }),
    decreases mmwave.len(),
{
    if mmwave.len() > 0 {
        radar_by_content(mmwave.skip(1), id);
        assert(radar_views(mmwave).skip(1) =~= radar_views(mmwave.skip(1)));
    }
}

/// The occupancy estimate of a room: the reported one, and no less than the
/// number of its contacts. That number is taken in 32 bits.
pub open spec fn estimate_in(reported: u32, contact_count: nat) -> u32 {
    let counted = (contact_count % 0x1_0000_0000) as u32;
    if reported >= counted {
        reported
    } else {
        counted
    }
}

/// What is known of one room.
pub open spec fn roll_up(
    room: Room,
    contacts: Seq<PersonContact>,
    occupancy: Seq<(RoomId, u32)>,
    mmwave: Seq<(RoomId, MmwaveCorroboration)>,
) -> RoomOccupancy {
    let count = contacts_in(contacts, room.id).len();
    let radar = mmwave_in(mmwave, room.id);
    RoomOccupancy {
        room_id: room.id,
        room_name: room.name,
        floor: room.floor,
        bounds: room.bounds,
        contact_count: count as usize,
        occupancy_estimate: estimate_in(occupancy_in(occupancy, room.id), count),
        any_moving: moving_in(contacts, room.id),
        localizable: room.can_fix(),
        mmwave: radar,
        corroborated: count > 0 && (match radar {
            Some(m) => m.presence,
            None => false,
        }),
    }
}

/// The sum of the occupancy estimates of the rooms.
pub open spec fn total_estimate(
    rooms: Seq<Room>,
    contacts: Seq<PersonContact>,
    occupancy: Seq<(RoomId, u32)>,
) -> nat
    decreases rooms.len(),
{
    if rooms.len() == 0 {
        0
    } else {
        total_estimate(rooms.drop_last(), contacts, occupancy) + estimate_in(
            occupancy_in(occupancy, rooms.last().id),
            contacts_in(contacts, rooms.last().id).len(),
        ) as nat
    }
}

/// How many rooms hold a contact.
pub open spec fn occupied(rooms: Seq<RoomOccupancy>) -> nat {
    rooms.filter(|r: RoomOccupancy| r.contact_count > 0).len()
}

/// How many nodes are in the floor plan.
pub open spec fn configured_count(sensors: Seq<SensorSummary>) -> nat {
    sensors.filter(|s: SensorSummary| s.configured).len()
}

/// How many nodes of the floor plan are reporting.
pub open spec fn reporting_count(sensors: Seq<SensorSummary>) -> nat {
    sensors.filter(|s: SensorSummary| s.configured && s.reporting).len()
}

/// The total never shrinks as rooms are added.
proof fn total_grows(
    rooms: Seq<Room>,
    contacts: Seq<PersonContact>,
    occupancy: Seq<(RoomId, u32)>,
    n: int,
)
    requires
        0 <= n <= rooms.len(),
    ensures
        total_estimate(rooms.take(n), contacts, occupancy) <= total_estimate(
            rooms,
            contacts,
            occupancy,
        ),
    decreases rooms.len() - n,
{
    if n == rooms.len() {
        assert(rooms.take(n) =~= rooms);
    } else {
        assert(rooms.take(n + 1).drop_last() =~= rooms.take(n));
        total_grows(rooms, contacts, occupancy, n + 1);
    }
}

/// The number of contacts of a room, and whether one of them is moving.
fn count_contacts(contacts: &Vec<PersonContact>, id: RoomId) -> (r: (usize, bool))
    ensures
        r.0 == contacts_in(contacts@, id).len(),
        r.1 == moving_in(contacts@, id),
{
    let ghost p = |c: PersonContact| c.room_id == id;
    let mut count: usize = 0;
    let mut moving: bool = false;
    let mut i: usize = 0;
    assert(contacts@.take(0).filter(p) =~= Seq::<PersonContact>::empty());
    while i < contacts.len()
        invariant
            i <= contacts@.len(),
            count <= i,
            p == (|c: PersonContact| c.room_id == id),
            count == contacts@.take(i as int).filter(p).len(),
            moving == exists|j: int|
                0 <= j < i && (#[trigger] contacts@[j]).room_id == id && contacts@[j].motion
                    == Motion::Moving,
        decreases contacts@.len() - i,
    {
        proof {
            assert(contacts@.take(i + 1) =~= contacts@.take(i as int).push(contacts@[i as int]));
            contacts@.take(i as int).lemma_filter_push(contacts@[i as int], p);
        }
        if contacts[i].room_id == id {
            count = count + 1;
            if contacts[i].motion == Motion::Moving {
                moving = true;
            }
        }
        i = i + 1;
    }
    assert(contacts@.take(i as int) =~= contacts@);
    (count, moving)
}

/// The reported occupancy of a room.
fn find_occupancy(occupancy: &[(RoomId, u32)], id: RoomId) -> (r: u32)
    ensures
        r == occupancy_in(occupancy@, id),
{
    let ghost p = at_key::<RoomId, u32>(id);
    let mut i: usize = 0;
    while i < occupancy.len()
        invariant
            i <= occupancy@.len(),
            p == at_key::<RoomId, u32>(id),
            forall|j: int| 0 <= j < i ==> !p(#[trigger] occupancy@[j]),
        decreases occupancy@.len() - i,
    {
        if occupancy[i].0 == id {
            proof {
                first_at(occupancy@, p, i as int);
            }
            return occupancy[i].1;
        }
        i = i + 1;
    }
    proof {
        first_none(occupancy@, p);
    }
    0
}

/// The radar reading of a room.
fn find_mmwave(mmwave: &[(RoomId, MmwaveCorroboration)], id: RoomId) -> (r: Option<
    MmwaveCorroboration,
>)
    ensures
        r == mmwave_in(mmwave@, id),
{
    let ghost p = at_key::<RoomId, MmwaveCorroboration>(id);
    let mut i: usize = 0;
    while i < mmwave.len()
        invariant
            i <= mmwave@.len(),
            p == at_key::<RoomId, MmwaveCorroboration>(id),
            forall|j: int| 0 <= j < i ==> !p(#[trigger] mmwave@[j]),
        decreases mmwave@.len() - i,
    {
        if mmwave[i].0 == id {
            proof {
                first_at(mmwave@, p, i as int);
            }
            return Some(mmwave[i].1);
        }
        i = i + 1;
    }
    proof {
        first_none(mmwave@, p);
    }
    None
}

/// The occupancy estimate of a room.
fn estimate(reported: u32, contact_count: usize) -> (r: u32)
    ensures
        r == estimate_in(reported, contact_count as nat),
{
    let wide: u64 = contact_count as u64;
    let counted: u32 = (wide % 0x1_0000_0000) as u32;
    if reported >= counted {
        reported
    } else {
        counted
    }
}

/// What is known of one room.
fn summarize(
    room: &Room,
    contacts: &Vec<PersonContact>,
    occupancy: &[(RoomId, u32)],
    mmwave: &[(RoomId, MmwaveCorroboration)],
) -> (r: RoomOccupancy)
    ensures
        r == roll_up(*room, contacts@, occupancy@, mmwave@),
{
    let (count, moving) = count_contacts(contacts, room.id);
    let radar: Option<MmwaveCorroboration> = find_mmwave(mmwave, room.id);
    let seen: bool = match radar {
        Some(m) => m.presence,
        None => false,
    };
    RoomOccupancy {
        room_id: room.id,
        room_name: room.name.clone(),
        floor: room.floor,
        bounds: room.bounds,
        contact_count: count,
        occupancy_estimate: estimate(find_occupancy(occupancy, room.id), count),
        any_moving: moving,
        localizable: room.localizable(),
        mmwave: radar,
        corroborated: count > 0 && seen,
    }
}

/// Whether the sum of the occupancy estimates fits the total of a picture.
pub fn occupancy_fits(
    rooms: &[Room],
    contacts: &Vec<PersonContact>,
    occupancy: &[(RoomId, u32)],
) -> (r: bool)
    ensures
        r == (total_estimate(rooms@, contacts@, occupancy@) <= u32::MAX),
{
    let mut total: u32 = 0;
    let mut i: usize = 0;
    assert(rooms@.take(0) =~= Seq::<Room>::empty());
    while i < rooms.len()
        invariant
            i <= rooms@.len(),
            total == total_estimate(rooms@.take(i as int), contacts@, occupancy@),
        decreases rooms@.len() - i,
    {
        assert(rooms@.take(i + 1).drop_last() =~= rooms@.take(i as int));
        let (count, _) = count_contacts(contacts, rooms[i].id);
        let e: u32 = estimate(find_occupancy(occupancy, rooms[i].id), count);
        if e > u32::MAX - total {
            proof {
                total_grows(rooms@, contacts@, occupancy@, i + 1);
            }
            return false;
        }
        total = total + e;
        i = i + 1;
    }
    assert(rooms@.take(i as int) =~= rooms@);
    true
}

impl TacticalPicture {
    /// Whether this is the picture made at `now` of the rooms, the contacts and
    /// what the sensors say.
    pub open spec fn shows(
        self,
        structure_name: Seq<char>,
        rooms: Seq<Room>,
        contacts: Seq<PersonContact>,
        occupancy: Seq<(RoomId, u32)>,
        sensors: Seq<SensorSummary>,
        mmwave: Seq<(RoomId, MmwaveCorroboration)>,
        now: Timestamp,
    ) -> bool {
        &&& self.structure_name@ == structure_name
        &&& self.generated_at == now
        &&& self.rooms@ == rooms.map_values(|r: Room| roll_up(r, contacts, occupancy, mmwave))
        &&& self.contacts@ == contacts
        &&& self.total_occupancy_estimate == total_estimate(rooms, contacts, occupancy)
        &&& self.occupied_rooms == occupied(self.rooms@)
        &&& self.sensors@ == sensors
        &&& self.sensors_total == configured_count(sensors)
        &&& self.sensors_reporting == reporting_count(sensors)
        &&& self.ble_devices@ == Seq::<BleDevice>::empty()
        &&& self.advisory@ == STANDING_ADVISORY@
    }

    /// The picture of the current contacts, made now.
    pub fn assemble(
        structure_name: &str,
        rooms: &[Room],
        contacts: Vec<PersonContact>,
        occupancy_by_room: &[(RoomId, u32)],
        sensors: Vec<SensorSummary>,
        mmwave: &[(RoomId, MmwaveCorroboration)],
    ) -> (r: TacticalPicture)
        requires
            total_estimate(rooms@, contacts@, occupancy_by_room@) <= u32::MAX,
        ensures
            r.shows(
                structure_name@,
                rooms@,
                contacts@,
                occupancy_by_room@,
                sensors@,
                mmwave@,
                r.generated_at,
            ),
            r.generated_at.secs() >= 0,
    {
        let now: Timestamp = Timestamp::now();
        TacticalPicture::assemble_at(
            structure_name,
            rooms,
            contacts,
            occupancy_by_room,
            sensors,
            mmwave,
            now,
        )
    }

    /// The picture of the current contacts, made at `now`.
    pub fn assemble_at(
        structure_name: &str,
        rooms: &[Room],
        contacts: Vec<PersonContact>,
        occupancy_by_room: &[(RoomId, u32)],
        sensors: Vec<SensorSummary>,
        mmwave: &[(RoomId, MmwaveCorroboration)],
        now: Timestamp,
    ) -> (r: TacticalPicture)
        requires
            total_estimate(rooms@, contacts@, occupancy_by_room@) <= u32::MAX,
        ensures
            r.shows(
                structure_name@,
                rooms@,
                contacts@,
                occupancy_by_room@,
                sensors@,
                mmwave@,
                now,
            ),
    {
        let ghost all = rooms@.map_values(
            |r: Room| roll_up(r, contacts@, occupancy_by_room@, mmwave@),
        );
        let ghost p = |r: RoomOccupancy| r.contact_count > 0;
        let mut room_rollup: Vec<RoomOccupancy> = Vec::new();
        let mut total: u32 = 0;
        let mut occupied_rooms: usize = 0;
        let mut i: usize = 0;
        assert(rooms@.take(0) =~= Seq::<Room>::empty());
        assert(all.take(0).filter(p) =~= Seq::<RoomOccupancy>::empty());
        while i < rooms.len()
            invariant
                i <= rooms@.len(),
                occupied_rooms <= i,
                all == rooms@.map_values(
                    |r: Room| roll_up(r, contacts@, occupancy_by_room@, mmwave@),
                ),
                p == (|r: RoomOccupancy| r.contact_count > 0),
                room_rollup@ == all.take(i as int),
                total == total_estimate(rooms@.take(i as int), contacts@, occupancy_by_room@),
                total_estimate(rooms@, contacts@, occupancy_by_room@) <= u32::MAX,
                occupied_rooms == all.take(i as int).filter(p).len(),
            decreases rooms@.len() - i,
        {
            let row: RoomOccupancy = summarize(&rooms[i], &contacts, occupancy_by_room, mmwave);
            proof {
                assert(rooms@.take(i + 1).drop_last() =~= rooms@.take(i as int));
                total_grows(rooms@, contacts@, occupancy_by_room@, i + 1);
                assert(all.take(i + 1) =~= all.take(i as int).push(row));
                all.take(i as int).lemma_filter_push(row, p);
            }
            total = total + row.occupancy_estimate;
            if row.contact_count > 0 {
                occupied_rooms = occupied_rooms + 1;
            }
            room_rollup.push(row);
            i = i + 1;
        }
        assert(rooms@.take(i as int) =~= rooms@);
        assert(all.take(i as int) =~= all);
        let (sensors_total, sensors_reporting) = count_sensors(&sensors);
        TacticalPicture {
            structure_name: structure_name.to_owned(),
            generated_at: now,
            rooms: room_rollup,
            contacts,
            total_occupancy_estimate: total,
            occupied_rooms,
            sensors,
            sensors_total,
            sensors_reporting,
            ble_devices: Vec::new(),
            advisory: STANDING_ADVISORY.to_owned(),
        }
    }
}

/// How many nodes are in the floor plan, and how many of those are reporting.
fn count_sensors(sensors: &Vec<SensorSummary>) -> (r: (usize, usize))
    ensures
        r.0 == configured_count(sensors@),
        r.1 == reporting_count(sensors@),
{
    let ghost p = |s: SensorSummary| s.configured;
    let ghost q = |s: SensorSummary| s.configured && s.reporting;
    let mut total: usize = 0;
    let mut reporting: usize = 0;
    let mut i: usize = 0;
    assert(sensors@.take(0).filter(p) =~= Seq::<SensorSummary>::empty());
    assert(sensors@.take(0).filter(q) =~= Seq::<SensorSummary>::empty());
    while i < sensors.len()
        invariant
            i <= sensors@.len(),
            total <= i,
            reporting <= i,
            p == (|s: SensorSummary| s.configured),
            q == (|s: SensorSummary| s.configured && s.reporting),
            total == sensors@.take(i as int).filter(p).len(),
            reporting == sensors@.take(i as int).filter(q).len(),
        decreases sensors@.len() - i,
    {
        proof {
            let s = sensors@;
            assert(s.take(i + 1) =~= s.take(i as int).push(s[i as int]));
            s.take(i as int).lemma_filter_push(s[i as int], p);
            s.take(i as int).lemma_filter_push(s[i as int], q);
        }
        if sensors[i].configured {
            total = total + 1;
            if sensors[i].reporting {
                reporting = reporting + 1;
            }
        }
        i = i + 1;
    }
    assert(sensors@.take(i as int) =~= sensors@);
    (total, reporting)
}

/// No more nodes are counted as reporting than are in the floor plan.
pub proof fn reporting_nodes_are_configured(sensors: Seq<SensorSummary>)
    ensures
        reporting_count(sensors) <= configured_count(sensors),
    decreases sensors.len(),
{
    let p = |s: SensorSummary| s.configured;
    let q = |s: SensorSummary| s.configured && s.reporting;
    if sensors.len() == 0 {
        assert(sensors.filter(q) =~= Seq::<SensorSummary>::empty());
    } else {
        let head = sensors.drop_last();
        reporting_nodes_are_configured(head);
        assert(sensors =~= head.push(sensors.last()));
        head.lemma_filter_push(sensors.last(), p);
        head.lemma_filter_push(sensors.last(), q);
    }
}

/// The occupancy estimate of a room is at least the number of its contacts, as
/// long as that number fits 32 bits.
pub proof fn estimate_covers_contacts(
    room: Room,
    contacts: Seq<PersonContact>,
    occupancy: Seq<(RoomId, u32)>,
    mmwave: Seq<(RoomId, MmwaveCorroboration)>,
)
    requires
        contacts.len() <= u32::MAX,
    ensures
        roll_up(room, contacts, occupancy, mmwave).occupancy_estimate >= roll_up(
            room,
            contacts,
            occupancy,
            mmwave,
        ).contact_count,
{
    contacts.lemma_filter_len(|c: PersonContact| c.room_id == room.id);
}

/// A room is corroborated exactly where the WiFi sensing has a contact in it and
/// the radar sees presence.
pub proof fn corroboration_needs_both(
    room: Room,
    contacts: Seq<PersonContact>,
    occupancy: Seq<(RoomId, u32)>,
    mmwave: Seq<(RoomId, MmwaveCorroboration)>,
)
    ensures
        roll_up(room, contacts, occupancy, mmwave).corroborated <==> (contacts_in(
            contacts,
            room.id,
        ).len() > 0 && mmwave_in(mmwave, room.id) is Some && mmwave_in(
            mmwave,
            room.id,
        )->0.presence),
{
}

} // verus!
