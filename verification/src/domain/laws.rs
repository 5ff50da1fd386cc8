//! What holds of rooms, readings, contacts and the picture.

use vstd::prelude::*;

use super::contact::{life_sign_of, motion_of, LifeSign, Motion, PersonContact};
use super::picture::{roll_up, MmwaveCorroboration};
use super::reading::{
    breathing_kind, BreathingType, MovementLevel, MovementType, ReadingInput, VitalSignsReading,
};
use super::structure::{of_node, rssi_of, Room, RoomBounds, SensorPlacement, SensorType, Structure};
use crate::ids::RoomId;
use crate::measure::{order_is_numeric, Measure};
use crate::seqs::{at_key, first_at, first_is_first, first_none};
use crate::text::folded;

verus! {

/// A contact moves exactly where the movement is gross, is stationary exactly
/// where there is none, and is restless under any other movement.
pub proof fn motion_reads_the_movement(movement: MovementType)
    ensures
        motion_of(movement) == Motion::Moving <==> movement == MovementType::Gross,
        motion_of(movement) == Motion::Stationary <==> movement == MovementType::Still,
        motion_of(movement) == Motion::Restless <==> movement == MovementType::Fine || movement
            == MovementType::Tremor || movement == MovementType::Periodic,
{
}

/// Breathing, and nothing else, confirms life. Without it a contact is faint
/// exactly where its confidence is a number below 0.4: a higher confidence never
/// makes it fainter.
pub proof fn life_sign_reads_the_vitals(a: VitalSignsReading, b: VitalSignsReading)
    ensures
        life_sign_of(a) == LifeSign::BreathingConfirmed <==> a.signs.breathing is Some,
        life_sign_of(a) == LifeSign::Faint <==> a.signs.breathing is None && a.confidence.lt(
            Measure { bits: 0x3FD9_9999_9999_999A },
        ),
        a.signs.breathing is None && b.signs.breathing is None && a.confidence.le(b.confidence)
            && life_sign_of(b) == LifeSign::Faint ==> life_sign_of(a) == LifeSign::Faint,
{
}

/// A breathing rate is shallow exactly below ten a minute, labored exactly above
/// thirty, and normal from the one to the other.
pub proof fn breathing_reads_the_rate(bpm: Measure)
    requires
        bpm.finite(),
    ensures
        breathing_kind(bpm) == BreathingType::Shallow <==> bpm.units() < (Measure {
            bits: 0x4024_0000_0000_0000,
        }).units(),
        breathing_kind(bpm) == BreathingType::Labored <==> bpm.units() > (Measure {
            bits: 0x403E_0000_0000_0000,
        }).units(),
        breathing_kind(bpm) == BreathingType::Normal <==> !(breathing_kind(bpm)
            == BreathingType::Shallow || breathing_kind(bpm) == BreathingType::Labored),
{
    let ten = Measure { bits: 0x4024_0000_0000_0000 };
    let thirty = Measure { bits: 0x403E_0000_0000_0000 };
    order_is_numeric(bpm, ten);
    order_is_numeric(thirty, bpm);
    order_is_numeric(ten, thirty);
}

/// A movement level stands for movement of its own kind: none for a still room,
/// fine for fine, gross for gross. Gross movement alone is purposeful, more
/// movement is more intense and more frequent, and none is neither.
pub proof fn levels_stand_for_movement(level: MovementLevel)
    ensures
        level.profile().movement_type == MovementType::Still <==> level == MovementLevel::Still,
        level.profile().movement_type == MovementType::Fine <==> level == MovementLevel::Fine,
        level.profile().movement_type == MovementType::Gross <==> level == MovementLevel::Gross,
        level.profile().is_voluntary <==> level == MovementLevel::Gross,
        MovementLevel::Still.profile().intensity.bits == 0,
        MovementLevel::Still.profile().frequency.bits == 0,
        MovementLevel::Fine.profile().intensity.bits == 0x3FD9_9999_A000_0000,
        MovementLevel::Fine.profile().frequency.bits == 0x3FE9_9999_A000_0000,
        MovementLevel::Gross.profile().intensity.bits == 0x3FE9_9999_A000_0000,
        MovementLevel::Gross.profile().frequency.bits == 0x3FF3_3333_4000_0000,
{
}

/// A reading implies vital signs exactly where it reports presence together with
/// breathing or movement. They hold the reported rate and the reported movement,
/// and no heartbeat.
pub proof fn readings_imply_what_they_report(input: ReadingInput)
    ensures
        input.vitals() is Some <==> input.presence && (input.breathing_bpm is Some
            || input.movement != MovementLevel::Still),
        input.vitals() is Some ==> {
            let signs = input.vitals()->0;
            &&& signs.any()
            &&& !signs.heartbeat
            &&& signs.breathing is Some <==> input.breathing_bpm is Some
            &&& signs.breathing is Some ==> {
                &&& signs.breathing->0.rate_bpm == input.breathing_bpm->0
                &&& signs.breathing->0.pattern_type == breathing_kind(input.breathing_bpm->0)
                &&& signs.breathing->0.amplitude.bits == 0x3FE6_6666_6000_0000
                &&& signs.breathing->0.regularity.bits == 0x3FE8_0000_0000_0000
            }
            &&& signs.movement == input.movement.profile()
        },
{
}

/// A reading stands for the number of people that it reports, and for one where
/// it reports none or no number.
pub proof fn readings_stand_for_someone(input: ReadingInput)
    ensures
        input.occupants() >= 1,
        input.occupancy is Some && input.occupancy->0 >= 1 ==> input.occupants()
            == input.occupancy->0,
        input.occupancy is None || input.occupancy->0 == 0 ==> input.occupants() == 1,
{
}

/// The signal strengths of a reading are those of its nodes, in their order.
pub proof fn readings_keep_their_strengths(input: ReadingInput, i: int)
    ensures
        input.rssi_pairs().len() == input.sensor_rssi@.len(),
        0 <= i < input.sensor_rssi@.len() ==> input.rssi_pairs()[i].0 == input.sensor_rssi@[i].id
            && input.rssi_pairs()[i].1 == input.sensor_rssi@[i].rssi,
{
}

/// Any vital sign makes a detection: breathing, a heartbeat, or movement of any
/// kind. None of them makes none.
pub proof fn any_sign_counts(vitals: VitalSignsReading)
    ensures
        vitals.signs.breathing is Some ==> vitals.signs.any(),
        vitals.signs.heartbeat ==> vitals.signs.any(),
        !(vitals.signs.movement.movement_type == MovementType::Still) ==> vitals.signs.any(),
        vitals.signs.any() ==> vitals.signs.breathing is Some || vitals.signs.heartbeat || !(
        vitals.signs.movement.movement_type == MovementType::Still),
{
}

/// A footprint holds a point exactly where its x lies between the x of the two
/// corners and its y between their y, the edges included.
pub proof fn footprint_holds_points(b: RoomBounds, x: Measure, y: Measure)
    requires
        b.min_x.finite(),
        b.min_y.finite(),
        b.max_x.finite(),
        b.max_y.finite(),
        x.finite(),
        y.finite(),
    ensures
        b.holds(x, y) <==> {
            &&& b.min_x.units() <= x.units() <= b.max_x.units()
            &&& b.min_y.units() <= y.units() <= b.max_y.units()
        },
{
    order_is_numeric(b.min_x, x);
    order_is_numeric(x, b.max_x);
    order_is_numeric(b.min_y, y);
    order_is_numeric(y, b.max_y);
}

/// Whether a node has a reading in a list.
pub open spec fn hears(rssi: Seq<(String, Measure)>, id: Seq<char>) -> bool {
    exists|e: int| 0 <= e < rssi.len() && (#[trigger] rssi[e]).0@ == id
}

/// The live reading of a node is the first in the list at its id; a node that
/// the list does not name has none.
pub proof fn live_reading_is_the_first(rssi: Seq<(String, Measure)>, id: Seq<char>, at: int)
    ensures
        rssi_of(rssi, id) is Some <==> hears(rssi, id),
        0 <= at < rssi.len() && rssi[at].0@ == id && (forall|k: int|
            0 <= k < at ==> (#[trigger] rssi[k]).0@ != id) ==> rssi_of(rssi, id) == Some(rssi[at].1),
{
    let p = of_node(id);
    first_is_first(rssi, p);
    if 0 <= at < rssi.len() && rssi[at].0@ == id && (forall|k: int|
        0 <= k < at ==> (#[trigger] rssi[k]).0@ != id) {
        first_at(rssi, p, at);
    }
}

/// The live sensors of a room are its nodes that the readings name. Three of
/// them are as many as a point fix needs, and only a room with three nodes has
/// them.
pub proof fn live_sensors_are_named(room: Room, rssi: Seq<(String, Measure)>)
    ensures
        room.live_sensors(rssi) == room.sensors@.filter(
            |n: SensorPlacement| hears(rssi, n.id@),
        ).len(),
        room.live_sensors(rssi) <= room.sensors@.len(),
        room.can_fix() <==> room.sensors@.len() >= 3,
        room.live_sensors(rssi) >= 3 ==> room.can_fix(),
{
    let p = |n: SensorPlacement| rssi_of(rssi, n.id@) is Some;
    let q = |n: SensorPlacement| hears(rssi, n.id@);
    assert forall|n: SensorPlacement| #[trigger] p(n) == q(n) by {
        live_reading_is_the_first(rssi, n.id@, 0);
    }
    assert(p =~= q);
    room.sensors@.lemma_filter_len(p);
}

/// The localizer sees each node of a room where it is placed, as a working
/// transceiver, with the signal strength of its first reading and with none
/// where it has none.
pub proof fn zone_shows_the_nodes(room: Room, rssi: Seq<(String, Measure)>, i: int)
    requires
        0 <= i < room.sensors@.len(),
    ensures
        room.positions(rssi).len() == room.sensors@.len(),
        room.positions(rssi)[i].id == room.sensors@[i].id,
        room.positions(rssi)[i].x == room.sensors@[i].x,
        room.positions(rssi)[i].y == room.sensors@[i].y,
        room.positions(rssi)[i].z == room.sensors@[i].z,
        room.positions(rssi)[i].sensor_type == SensorType::Transceiver,
        room.positions(rssi)[i].is_operational,
        room.positions(rssi)[i].last_rssi is Some <==> hears(rssi, room.sensors@[i].id@),
        forall|e: int|
            0 <= e < rssi.len() && (#[trigger] rssi[e]).0@ == room.sensors@[i].id@ && (forall|k: int|
                0 <= k < e ==> (#[trigger] rssi[k]).0@ != room.sensors@[i].id@)
                ==> room.positions(rssi)[i].last_rssi == Some(rssi[e].1),
{
    let id = room.sensors@[i].id@;
    live_reading_is_the_first(rssi, id, 0);
    assert forall|e: int|
        0 <= e < rssi.len() && (#[trigger] rssi[e]).0@ == id && (forall|k: int|
            0 <= k < e ==> (#[trigger] rssi[k]).0@ != id) implies room.positions(rssi)[i].last_rssi
        == Some(rssi[e].1) by {
        live_reading_is_the_first(rssi, id, e);
    }
}

/// A lookup by id gives the first room that has it, and none only where no room
/// has it. A lookup by name gives the first room of that name in either case.
pub proof fn lookups_give_the_first(s: Structure, id: RoomId, name: Seq<char>, i: int)
    requires
        0 <= i < s.rooms@.len(),
    ensures
        s.rooms@[i].id == id && (forall|k: int|
            0 <= k < i ==> (#[trigger] s.rooms@[k]).id != id) ==> s.room_at(id) == Some(
            s.rooms@[i],
        ),
        s.rooms@[i].id == id ==> s.room_at(id) is Some,
        s.room_at(id) is Some ==> s.room_at(id)->0.id == id && s.rooms@.contains(s.room_at(id)->0),
        folded(s.rooms@[i].name@) == folded(name) && (forall|k: int|
            0 <= k < i ==> folded((#[trigger] s.rooms@[k]).name@) != folded(name))
            ==> s.room_named(name) == Some(s.rooms@[i]),
        folded(s.rooms@[i].name@) == folded(name) ==> s.room_named(name) is Some,
        s.room_named(name) is Some ==> folded(s.room_named(name)->0.name@) == folded(name)
            && s.rooms@.contains(s.room_named(name)->0),
{
    let p = |r: Room| r.id == id;
    let q = |r: Room| folded(r.name@) == folded(name);
    first_is_first(s.rooms@, p);
    first_is_first(s.rooms@, q);
    if p(s.rooms@[i]) && (forall|k: int| 0 <= k < i ==> !p(#[trigger] s.rooms@[k])) {
        first_at(s.rooms@, p, i);
    }
    if q(s.rooms@[i]) && (forall|k: int| 0 <= k < i ==> !q(#[trigger] s.rooms@[k])) {
        first_at(s.rooms@, q, i);
    }
}

/// The roll-up of a room carries the room's own id, label, storey and footprint,
/// and can give a point fix where the room has three nodes. It counts the
/// contacts that stand in the room, and moves where one of them does.
pub proof fn roll_up_is_of_the_room(
    room: Room,
    contacts: Seq<PersonContact>,
    occupancy: Seq<(RoomId, u32)>,
    mmwave: Seq<(RoomId, MmwaveCorroboration)>,
)
    requires
        contacts.len() <= u32::MAX,
    ensures
        ({
            let row = roll_up(room, contacts, occupancy, mmwave);
            let here = contacts.filter(|c: PersonContact| c.room_id == room.id);
            &&& row.room_id == room.id
            &&& row.room_name == room.name
            &&& row.floor == room.floor
            &&& row.bounds == room.bounds
            &&& row.localizable <==> room.sensors@.len() >= 3
            &&& row.contact_count == here.len()
            &&& row.any_moving <==> exists|i: int|
                0 <= i < contacts.len() && (#[trigger] contacts[i]).room_id == room.id
                    && contacts[i].motion == Motion::Moving
        }),
{
    contacts.lemma_filter_len(|c: PersonContact| c.room_id == room.id);
}

/// The estimate of a room is what was first reported for it, or the number of
/// its contacts where that is more or nothing was reported.
pub proof fn estimate_is_reported_or_counted(
    room: Room,
    contacts: Seq<PersonContact>,
    occupancy: Seq<(RoomId, u32)>,
    mmwave: Seq<(RoomId, MmwaveCorroboration)>,
    e: int,
)
    requires
        contacts.len() <= u32::MAX,
    ensures
        ({
            let row = roll_up(room, contacts, occupancy, mmwave);
            let count = contacts.filter(|c: PersonContact| c.room_id == room.id).len();
            &&& 0 <= e < occupancy.len() && occupancy[e].0 == room.id && (forall|k: int|
                0 <= k < e ==> (#[trigger] occupancy[k]).0 != room.id) ==> row.occupancy_estimate
                == (if occupancy[e].1 >= count {
                occupancy[e].1 as int
            } else {
                count as int
            })
            &&& (forall|k: int| 0 <= k < occupancy.len() ==> (#[trigger] occupancy[k]).0 != room.id)
                ==> row.occupancy_estimate == count
        }),
{
    let p = at_key::<RoomId, u32>(room.id);
    contacts.lemma_filter_len(|c: PersonContact| c.room_id == room.id);
    if 0 <= e < occupancy.len() && p(occupancy[e]) && (forall|k: int|
        0 <= k < e ==> !p(#[trigger] occupancy[k])) {
        first_at(occupancy, p, e);
    }
    if forall|k: int| 0 <= k < occupancy.len() ==> !p(#[trigger] occupancy[k]) {
        first_none(occupancy, p);
    }
}

/// A room shows the first radar reading that is given for it, unchanged, and
/// none where none is. It is corroborated exactly where it has a contact and the
/// radar reading that it shows sees presence.
pub proof fn roll_up_shows_its_radar(
    room: Room,
    contacts: Seq<PersonContact>,
    occupancy: Seq<(RoomId, u32)>,
    mmwave: Seq<(RoomId, MmwaveCorroboration)>,
    e: int,
)
    requires
        contacts.len() <= u32::MAX,
    ensures
        ({
            let row = roll_up(room, contacts, occupancy, mmwave);
            &&& 0 <= e < mmwave.len() && mmwave[e].0 == room.id && (forall|k: int|
                0 <= k < e ==> (#[trigger] mmwave[k]).0 != room.id) ==> row.mmwave == Some(
                mmwave[e].1,
            )
            &&& (forall|k: int| 0 <= k < mmwave.len() ==> (#[trigger] mmwave[k]).0 != room.id)
                ==> row.mmwave is None
            &&& row.corroborated <==> row.contact_count > 0 && row.mmwave is Some
                && row.mmwave->0.presence
        }),
{
    let p = at_key::<RoomId, MmwaveCorroboration>(room.id);
    contacts.lemma_filter_len(|c: PersonContact| c.room_id == room.id);
    if 0 <= e < mmwave.len() && p(mmwave[e]) && (forall|k: int|
        0 <= k < e ==> !p(#[trigger] mmwave[k])) {
        first_at(mmwave, p, e);
    }
    if forall|k: int| 0 <= k < mmwave.len() ==> !p(#[trigger] mmwave[k]) {
        first_none(mmwave, p);
    }
}

/// A motion is told by its own tag, and so is a life sign.
pub proof fn contacts_have_their_tags(m: Motion, l: LifeSign)
    ensures
        m.tag_text() == "stationary"@ <==> m == Motion::Stationary,
        m.tag_text() == "restless"@ <==> m == Motion::Restless,
        m.tag_text() == "moving"@ <==> m == Motion::Moving,
        l.tag_text() == "breathing"@ <==> l == LifeSign::BreathingConfirmed,
        l.tag_text() == "movement_only"@ <==> l == LifeSign::MovementOnly,
        l.tag_text() == "faint"@ <==> l == LifeSign::Faint,
{
    reveal_strlit("stationary");
    reveal_strlit("restless");
    reveal_strlit("moving");
    reveal_strlit("breathing");
    reveal_strlit("movement_only");
    reveal_strlit("faint");
    assert("stationary"@.len() == 10 && "restless"@.len() == 8 && "moving"@.len() == 6);
    assert("breathing"@.len() == 9 && "movement_only"@.len() == 13 && "faint"@.len() == 5);
}

/// A rate that is no number reads as normal breathing.
pub proof fn no_number_reads_as_normal(bpm: Measure)
    requires
        bpm.nan(),
    ensures
        breathing_kind(bpm) == BreathingType::Normal,
{
}

} // verus!
