//! What each event does to what the engine holds, told by its inputs.

use vstd::prelude::*;

use super::state::{default_config, unknown_room, EngineConfig, EngineState, Fix, Sensed};
use crate::clock::Timestamp;
use crate::domain::contact::{LifeSign, Motion, PersonContact};
use crate::domain::laws::{
    hears, life_sign_reads_the_vitals, live_sensors_are_named, lookups_give_the_first,
    motion_reads_the_movement,
};
use crate::domain::reading::{
    Detection, MmwaveReading, MovementLevel, MovementType, ReadingInput, RoomReadingView,
};
use crate::domain::structure::{Room, SensorPlacement};
use crate::ids::{hyphenated, ContactId, RoomId};
use crate::measure::Measure;
use crate::text::folded;

verus! {

/// Whether a reading of a room is triangulated: the localizer gave a position,
/// and three nodes of the room are among those that reported.
pub open spec fn triangulated(room: Room, rssi: Seq<(String, Measure)>, sensed: Sensed) -> bool {
    &&& sensed.estimate is Some
    &&& room.sensors@.filter(|n: SensorPlacement| hears(rssi, n.id@)).len() >= 3
}

/// A detection places a first contact at the triangulated position where there
/// is one, and else at the room level that came with the reading. The radius is
/// that of the position taken. A later detection of the same kind of fix places
/// the contact at the blended position, one of another kind at its own; the
/// radius is that of the newest position in any case.
pub proof fn detection_places_the_contact(
    s: EngineState,
    reading: RoomReadingView,
    sensed: Sensed,
    now: Timestamp,
    fresh: ContactId,
)
    ensures
        ({
            let id = reading.room_id;
            let room = s.structure.room_at(id)->0;
            let exact = triangulated(room, reading.sensor_rssi, sensed);
            let c = s.ingested(reading, sensed, now, fresh).contacts[id];
            let smooth = s.contacts.contains_key(id) && s.contacts[id].point_fix == exact;
            &&& c.point_fix == exact
            &&& exact ==> c.uncertainty_radius_m == sensed.estimate->0.radius
            &&& !exact ==> c.uncertainty_radius_m == sensed.room_level.radius
            &&& exact && !smooth ==> c.x == sensed.estimate->0.x && c.y == sensed.estimate->0.y
            &&& !exact && !smooth ==> c.x == sensed.room_level.x && c.y == sensed.room_level.y
            &&& smooth ==> c.x == sensed.blended.x && c.y == sensed.blended.y
        }),
{
    live_sensors_are_named(s.structure.room_at(reading.room_id)->0, reading.sensor_rssi);
}

/// The blend that a new fix asks for leads from where the contact stands to
/// where the fix is, weighted as configured. It is asked for exactly where the
/// room has a contact with the same kind of fix.
pub proof fn blend_leads_to_the_fix(s: EngineState, id: RoomId, fix: Fix)
    ensures
        s.blend_of(id, fix) is Some <==> s.contacts.contains_key(id) && s.contacts[id].point_fix
            == fix.point_fix,
        s.blend_of(id, fix) is Some ==> {
            let b = s.blend_of(id, fix)->0;
            &&& b.from.x == s.contacts[id].x
            &&& b.from.y == s.contacts[id].y
            &&& b.to.x == fix.x
            &&& b.to.y == fix.y
            &&& b.alpha == s.config.position_alpha
        },
{
}

/// After a detection, of a room with a contact or without, the contact shows
/// what that reading says: its breathing rate or none, its confidence, its
/// motion and its life sign, and the time at which it came in.
pub proof fn detection_updates_the_contact(
    s: EngineState,
    reading: RoomReadingView,
    sensed: Sensed,
    now: Timestamp,
    fresh: ContactId,
)
    ensures
        ({
            let c = s.ingested(reading, sensed, now, fresh).contacts[reading.room_id];
            let signs = reading.vitals.signs;
            &&& signs.breathing is Some ==> c.breathing_bpm == Some(signs.breathing->0.rate_bpm)
            &&& signs.breathing is None ==> c.breathing_bpm is None
            &&& c.confidence == reading.vitals.confidence
            &&& c.last_updated == now
            &&& c.motion == Motion::Moving <==> signs.movement.movement_type == MovementType::Gross
            &&& c.motion == Motion::Stationary <==> signs.movement.movement_type
                == MovementType::Still
            &&& c.life_sign == LifeSign::BreathingConfirmed <==> signs.breathing is Some
            &&& c.life_sign == LifeSign::Faint <==> signs.breathing is None
                && reading.vitals.confidence.lt(Measure { bits: 0x3FD9_9999_9999_999A })
        }),
{
    motion_reads_the_movement(reading.vitals.signs.movement.movement_type);
    life_sign_reads_the_vitals(reading.vitals, reading.vitals);
}

/// A first contact gets the fresh id and the room's name, and is first seen when
/// it was detected. A tracked one keeps its id, its name and its first sighting.
pub proof fn detection_keeps_identity(
    s: EngineState,
    reading: RoomReadingView,
    sensed: Sensed,
    now: Timestamp,
    fresh: ContactId,
)
    requires
        s.structure.room_at(reading.room_id) is Some,
    ensures
        ({
            let id = reading.room_id;
            let c = s.ingested(reading, sensed, now, fresh).contacts[id];
            &&& c.room_id == id
            &&& !s.contacts.contains_key(id) ==> {
                &&& c.id == fresh
                &&& c.first_seen == now
                &&& c.room_name == s.structure.room_at(id)->0.name
            }
            &&& s.contacts.contains_key(id) ==> {
                &&& c.id == s.contacts[id].id
                &&& c.first_seen == s.contacts[id].first_seen
                &&& c.room_name == s.contacts[id].room_name
            }
        }),
{
    crate::seqs::first_is_first(s.structure.rooms@, |r: Room| r.id == reading.room_id);
}

/// A detection makes a room as full as it reports, and by one where it reports
/// nobody. It changes no other room, no radar reading, and neither the structure
/// nor the tunables.
pub proof fn detection_counts_its_room(
    s: EngineState,
    reading: RoomReadingView,
    sensed: Sensed,
    now: Timestamp,
    fresh: ContactId,
    other: RoomId,
)
    ensures
        ({
            let after = s.ingested(reading, sensed, now, fresh);
            &&& reading.occupancy >= 1 ==> after.occupancy_of(reading.room_id) == reading.occupancy
            &&& reading.occupancy == 0 ==> after.occupancy_of(reading.room_id) == 1
            &&& other != reading.room_id ==> {
                &&& after.occupancy_of(other) == s.occupancy_of(other)
                &&& after.contact_of(other) == s.contact_of(other)
            }
            &&& after.mmwave == s.mmwave
            &&& after.structure == s.structure
            &&& after.config == s.config
        }),
{
}

/// What the nodes of a batch reported is held of each: the room of the batch,
/// the time, and the last strength that the batch gives for it. Nothing changes
/// for a node that the batch does not name.
pub proof fn batch_is_held_of_its_nodes(
    s: EngineState,
    room_id: RoomId,
    rssi: Seq<(String, Measure)>,
    now: Timestamp,
    i: int,
    other: Seq<char>,
)
    ensures
        0 <= i < rssi.len() && (forall|k: int|
            i < k < rssi.len() ==> (#[trigger] rssi[k]).0@ != rssi[i].0@) ==> {
            let a = s.noted(room_id, rssi, now).sensors[rssi[i].0@];
            &&& s.noted(room_id, rssi, now).sensors.contains_key(rssi[i].0@)
            &&& a.room_id == room_id
            &&& a.last_seen == now
            &&& a.last_rssi == Some(rssi[i].1)
        },
        !hears(rssi, other) ==> {
            &&& s.noted(room_id, rssi, now).sensors.contains_key(other) == s.sensors.contains_key(
                other,
            )
            &&& s.sensors.contains_key(other) ==> s.noted(room_id, rssi, now).sensors[other]
                == s.sensors[other]
        },
        s.noted(room_id, rssi, now).contacts == s.contacts,
        s.noted(room_id, rssi, now).occupancy == s.occupancy,
        s.noted(room_id, rssi, now).mmwave == s.mmwave,
        s.noted(room_id, rssi, now).structure == s.structure,
        s.noted(room_id, rssi, now).config == s.config,
{
    if 0 <= i < rssi.len() && (forall|k: int|
        i < k < rssi.len() ==> (#[trigger] rssi[k]).0@ != rssi[i].0@) {
        last_is_last(rssi, i);
    }
    if !hears(rssi, other) {
        unnamed_has_none(rssi, other);
    }
}

/// The last reading of a node in a list is the one behind which it is not named.
proof fn last_is_last(rssi: Seq<(String, Measure)>, i: int)
    requires
        0 <= i < rssi.len(),
        forall|k: int| i < k < rssi.len() ==> (#[trigger] rssi[k]).0@ != rssi[i].0@,
    ensures
        super::state::last_rssi_of(rssi, rssi[i].0@) == Some(rssi[i].1),
    decreases rssi.len(),
{
    if i < rssi.len() - 1 {
        let head = rssi.drop_last();
        assert(rssi[rssi.len() - 1].0@ != rssi[i].0@);
        assert forall|k: int| i < k < head.len() implies (#[trigger] head[k]).0@ != head[i].0@ by {
            assert(rssi[k].0@ != rssi[i].0@);
        }
        last_is_last(head, i);
    }
}

/// A node that a list does not name has no reading in it.
proof fn unnamed_has_none(rssi: Seq<(String, Measure)>, id: Seq<char>)
    requires
        !hears(rssi, id),
    ensures
        super::state::last_rssi_of(rssi, id) is None,
    decreases rssi.len(),
{
    if rssi.len() > 0 {
        let head = rssi.drop_last();
        assert(rssi[rssi.len() - 1].0@ != id);
        assert(!hears(head, id)) by {
            if hears(head, id) {
                let e = choose|e: int| 0 <= e < head.len() && (#[trigger] head[e]).0@ == id;
                assert(rssi[e].0@ == id);
            }
        }
        unnamed_has_none(head, id);
    }
}

/// A detection hears the nodes of its reading as any batch does.
pub proof fn detection_hears_its_nodes(
    s: EngineState,
    reading: RoomReadingView,
    sensed: Sensed,
    now: Timestamp,
    fresh: ContactId,
)
    ensures
        s.ingested(reading, sensed, now, fresh).sensors == s.noted(
            reading.room_id,
            reading.sensor_rssi,
            now,
        ).sensors,
{
}

/// A reading that comes in makes a contact exactly where it reports presence
/// with breathing or movement; else the room is clear. The contact shows the
/// reported rate, the confidence given with it and the reported movement, and
/// the room is as full as reported, by at least one.
pub proof fn readings_become_contacts(
    s: EngineState,
    id: RoomId,
    input: ReadingInput,
    confidence: Measure,
    sensed: Sensed,
    now: Timestamp,
    fresh: ContactId,
)
    ensures
        ({
            let after = s.applied(id, input, confidence, sensed, now, fresh);
            let seen = input.presence && (input.breathing_bpm is Some || !(input.movement
                == MovementLevel::Still));
            &&& after.contact_of(id) is Some <==> seen
            &&& !seen ==> after.occupancy_of(id) == 0
            &&& seen ==> {
                let c = after.contacts[id];
                &&& c.breathing_bpm == input.breathing_bpm
                &&& c.confidence == confidence
                &&& c.last_updated == now
                &&& c.motion == Motion::Moving <==> input.movement == MovementLevel::Gross
                &&& c.motion == Motion::Restless <==> input.movement == MovementLevel::Fine
                &&& c.motion == Motion::Stationary <==> input.movement == MovementLevel::Still
                &&& input.occupancy is Some && input.occupancy->0 >= 1 ==> after.occupancy_of(id)
                    == input.occupancy->0
                &&& input.occupancy is None || input.occupancy->0 == 0 ==> after.occupancy_of(id)
                    == 1
            }
            &&& after.mmwave == s.mmwave
            &&& after.structure == s.structure
            &&& after.config == s.config
        }),
{
}

/// A node that a reading names is held as having reported then, for the room of
/// the reading, with the last strength that the reading gives it, whether anyone
/// is detected or not.
pub proof fn readings_hear_their_nodes(
    s: EngineState,
    id: RoomId,
    input: ReadingInput,
    confidence: Measure,
    sensed: Sensed,
    now: Timestamp,
    fresh: ContactId,
    i: int,
)
    requires
        0 <= i < input.sensor_rssi@.len(),
        forall|k: int|
            i < k < input.sensor_rssi@.len() ==> (#[trigger] input.sensor_rssi@[k]).id@
                != input.sensor_rssi@[i].id@,
    ensures
        ({
            let node = input.sensor_rssi@[i].id@;
            let sensors = s.applied(id, input, confidence, sensed, now, fresh).sensors;
            &&& sensors.contains_key(node)
            &&& sensors[node].room_id == id
            &&& sensors[node].last_seen == now
            &&& sensors[node].last_rssi == Some(input.sensor_rssi@[i].rssi)
        }),
{
    let rssi = input.rssi_pairs();
    assert forall|k: int| i < k < rssi.len() implies (#[trigger] rssi[k]).0@ != rssi[i].0@ by {
        assert(input.sensor_rssi@[k].id@ != input.sensor_rssi@[i].id@);
    }
    batch_is_held_of_its_nodes(s, id, rssi, now, i, input.sensor_rssi@[i].id@);
}

/// What the detector finds in channel state becomes the contact of the room: its
/// breathing rate or none, its confidence, and one person.
pub proof fn findings_become_contacts(
    s: EngineState,
    id: RoomId,
    found: Detection,
    rssi: Seq<(String, Measure)>,
    sensed: Sensed,
    now: Timestamp,
    fresh: ContactId,
)
    requires
        s.structure.room_at(id) is Some,
        found is Found,
    ensures
        ({
            let v = found->Found_0;
            let any = v.signs.breathing is Some || v.signs.heartbeat || !(
            v.signs.movement.movement_type == MovementType::Still);
            let after = s.csi_applied(id, found, rssi, sensed, now, fresh);
            &&& after.contact_of(id) is Some <==> any
            &&& any ==> {
                let c = after.contacts[id];
                &&& v.signs.breathing is Some ==> c.breathing_bpm == Some(
                    v.signs.breathing->0.rate_bpm,
                )
                &&& v.signs.breathing is None ==> c.breathing_bpm is None
                &&& c.confidence == v.confidence
                &&& c.last_updated == now
                &&& after.occupancy_of(id) == 1
            }
            &&& !any ==> after.occupancy_of(id) == 0
        }),
{
}

/// Channel state of a room that the structure does not have changes no contact
/// and no occupancy.
pub proof fn unknown_rooms_get_no_contact(
    s: EngineState,
    id: RoomId,
    found: Detection,
    rssi: Seq<(String, Measure)>,
    sensed: Sensed,
    now: Timestamp,
    fresh: ContactId,
)
    requires
        s.structure.room_at(id) is None,
    ensures
        s.csi_applied(id, found, rssi, sensed, now, fresh).contacts == s.contacts,
        s.csi_applied(id, found, rssi, sensed, now, fresh).occupancy == s.occupancy,
        s.csi_applied(id, found, rssi, sensed, now, fresh).mmwave == s.mmwave,
{
}

/// An absence touches nothing but its room: no node, no radar reading, and
/// neither the structure nor the tunables.
pub proof fn absence_touches_its_room(s: EngineState, id: RoomId)
    ensures
        s.cleared(id).sensors == s.sensors,
        s.cleared(id).mmwave == s.mmwave,
        s.cleared(id).structure == s.structure,
        s.cleared(id).config == s.config,
        !s.cleared(id).contacts.contains_key(id),
        s.cleared(id).occupancy.contains_key(id),
        s.cleared(id).occupancy[id] == 0,
{
}

/// Whether a quantity that a radar reports is shown as such: as it is where it is
/// above zero, and not at all where it is not.
pub open spec fn shown_where_positive(reported: Option<Measure>, shown: Option<Measure>) -> bool {
    match reported {
        Some(v) => if !v.nan() && v.rank() > 0 {
            shown == Some(v)
        } else {
            shown is None
        },
        None => shown is None,
    }
}

/// Right after a radar reading of a room, the picture shows of that room what
/// the reading says: presence, targets and confidence, and breathing rate, heart
/// rate and distance where they are above zero.
pub proof fn radar_is_shown_as_reported(
    s: EngineState,
    room: Room,
    reading: MmwaveReading,
    now: Timestamp,
)
    requires
        s.config.mmwave_stale_secs >= 0,
    ensures
        ({
            let shown = s.radar_heard(room.id, reading, now).row(room, now).mmwave;
            &&& shown is Some
            &&& shown->0.presence == reading.presence
            &&& shown->0.targets == reading.targets
            &&& shown->0.confidence == reading.confidence
            &&& shown->0.age_secs == 0
            &&& shown_where_positive(reading.breathing_bpm, shown->0.breathing_bpm)
            &&& shown_where_positive(reading.heart_rate_bpm, shown->0.heart_rate_bpm)
            &&& shown_where_positive(reading.distance_cm, shown->0.distance_cm)
        }),
{
}

/// A radar reading stays as it came in: at any later time the picture shows the
/// same of it but for its age, and no longer once that is past the window. It
/// changes no contact, no occupancy, no node and no other room's reading.
pub proof fn radar_reading_only_ages(
    s: EngineState,
    room: Room,
    reading: MmwaveReading,
    now: Timestamp,
    later: Timestamp,
    other: RoomId,
)
    requires
        s.config.mmwave_stale_secs >= 0,
        other != room.id,
    ensures
        ({
            let after = s.radar_heard(room.id, reading, now);
            let first = after.row(room, now).mmwave->0;
            let shown = after.row(room, later).mmwave;
            let age = later.seconds_since(now);
            &&& shown is Some <==> 0 <= age <= s.config.mmwave_stale_secs
            &&& shown is Some ==> {
                &&& shown->0.presence == first.presence
                &&& shown->0.breathing_bpm == first.breathing_bpm
                &&& shown->0.heart_rate_bpm == first.heart_rate_bpm
                &&& shown->0.distance_cm == first.distance_cm
                &&& shown->0.targets == first.targets
                &&& shown->0.confidence == first.confidence
                &&& shown->0.age_secs == age
            }
            &&& after.contacts == s.contacts
            &&& after.occupancy == s.occupancy
            &&& after.sensors == s.sensors
            &&& after.structure == s.structure
            &&& after.config == s.config
            &&& after.mmwave.contains_key(other) == s.mmwave.contains_key(other)
            &&& s.mmwave.contains_key(other) ==> after.mmwave[other] == s.mmwave[other]
        }),
{
}

/// Pruning with the cutoff that the time to live sets drops exactly the contacts
/// whose last update lies further back than that, to the nanosecond, empties
/// their rooms, and touches nothing else.
pub proof fn pruning_keeps_to_the_time_to_live(s: EngineState, now: Timestamp, id: RoomId)
    requires
        s.contacts.contains_key(id),
        -8_334_601_228_800 <= now.secs() - s.config.contact_ttl_secs <= 8_210_266_876_799,
    ensures
        ({
            let after = s.pruned(now.before(s.config.contact_ttl_secs));
            let updated = s.contacts[id].last_updated;
            let span = (now.secs() - updated.secs()) * 1_000_000_000 + now.nanos()
                - updated.nanos();
            &&& after.contacts.contains_key(id) <==> span <= s.config.contact_ttl_secs
                * 1_000_000_000
            &&& after.contacts.contains_key(id) ==> after.contacts[id] == s.contacts[id]
                && after.occupancy_of(id) == s.occupancy_of(id)
            &&& !after.contacts.contains_key(id) ==> after.occupancy_of(id) == 0
            &&& after.sensors == s.sensors
            &&& after.mmwave == s.mmwave
            &&& after.structure == s.structure
            &&& after.config == s.config
        }),
{
    crate::clock::going_back_is_exact(now, s.config.contact_ttl_secs);
}

/// What the picture shows of a room is the room itself, the contact that the
/// engine tracks in it, and the occupancy that was reported for it.
pub proof fn rows_show_the_room(s: EngineState, room: Room, now: Timestamp)
    ensures
        ({
            let row = s.row(room, now);
            &&& row.room_id == room.id
            &&& row.room_name == room.name@
            &&& row.floor == room.floor
            &&& row.bounds == room.bounds
            &&& row.localizable <==> room.sensors@.len() >= 3
            &&& row.contact_count == (if s.contacts.contains_key(room.id) {
                1int
            } else {
                0
            })
            &&& row.any_moving <==> s.contacts.contains_key(room.id)
                && s.contacts[room.id].motion == Motion::Moving
            &&& s.occupancy.contains_key(room.id) ==> row.occupancy_estimate
                == s.occupancy[room.id]
            &&& !s.occupancy.contains_key(room.id) ==> row.occupancy_estimate == 0
            &&& row.corroborated <==> s.contacts.contains_key(room.id) && row.mmwave is Some
                && row.mmwave->0.presence
        }),
{
}

/// A name stands for the first room that has it, in either case, unless an id is
/// given that the structure has: that goes first.
pub proof fn names_stand_for_rooms(s: EngineState, id: Option<RoomId>, name: Seq<char>, i: int)
    requires
        0 <= i < s.structure.rooms@.len(),
        folded(s.structure.rooms@[i].name@) == folded(name),
        forall|k: int|
            0 <= k < i ==> folded((#[trigger] s.structure.rooms@[k]).name@) != folded(name),
        id is Some ==> forall|k: int|
            0 <= k < s.structure.rooms@.len() ==> (#[trigger] s.structure.rooms@[k]).id != id->0,
    ensures
        s.resolves(id, Some(name)) == Some(s.structure.rooms@[i].id),
{
    lookups_give_the_first(s.structure, RoomId { uuid: 0 }, name, i);
    if id is Some {
        crate::seqs::first_is_first(s.structure.rooms@, |r: Room| r.id == id->0);
    }
}

/// A reading that names no room of the structure stands for none: neither its id
/// nor its name is one.
pub proof fn strangers_stand_for_nothing(
    s: EngineState,
    id: Option<RoomId>,
    name: Option<Seq<char>>,
)
    requires
        id is Some ==> forall|k: int|
            0 <= k < s.structure.rooms@.len() ==> (#[trigger] s.structure.rooms@[k]).id != id->0,
        name is Some ==> forall|k: int|
            0 <= k < s.structure.rooms@.len() ==> folded(
                (#[trigger] s.structure.rooms@[k]).name@,
            ) != folded(name->0),
    ensures
        s.resolves(id, name) is None,
{
    if id is Some {
        crate::seqs::first_is_first(s.structure.rooms@, |r: Room| r.id == id->0);
    }
    if name is Some {
        crate::seqs::first_is_first(
            s.structure.rooms@,
            |r: Room| folded(r.name@) == folded(name->0),
        );
    }
}

/// A room that is not known is told by the name that was given for it, else by
/// the id, else as unspecified.
pub proof fn strangers_are_told_by_name(name: Option<String>, id: Option<RoomId>)
    ensures
        name is Some ==> unknown_room(name, id) == name->0@,
        name is None && id is Some ==> unknown_room(name, id) == hyphenated(id->0.uuid),
        name is None && id is None ==> unknown_room(name, id) == "unspecified"@,
{
}

/// An engine for which no tunables are given weighs old and new position alike,
/// drops a contact after eight seconds, and takes nodes and radar readings as
/// fresh for six.
pub proof fn default_tunables()
    ensures
        2 * default_config().position_alpha.units() == (Measure {
            bits: 0x3FF0_0000_0000_0000,
        }).units(),
        default_config().contact_ttl_secs == 8,
        default_config().sensor_stale_secs == 6,
        default_config().mmwave_stale_secs == 6,
{
    vstd::arithmetic::power2::lemma_pow2_unfold(1022);
    let half = default_config().position_alpha;
    let one = Measure { bits: 0x3FF0_0000_0000_0000 };
    let p = vstd::arithmetic::power2::pow2(1021);
    assert(half.units() == 0x0010_0000_0000_0000 * p);
    assert(one.units() == 0x0010_0000_0000_0000 * vstd::arithmetic::power2::pow2(1022));
}

/// A new engine holds nothing but its structure and its tunables.
pub proof fn new_engines_hold_nothing(
    structure: crate::domain::structure::Structure,
    config: EngineConfig,
    id: RoomId,
    node: Seq<char>,
)
    ensures
        EngineState::blank(structure, config).structure == structure,
        EngineState::blank(structure, config).config == config,
        EngineState::blank(structure, config).contact_of(id) is None,
        EngineState::blank(structure, config).occupancy_of(id) == 0,
        !EngineState::blank(structure, config).sensors.contains_key(node),
        !EngineState::blank(structure, config).mmwave.contains_key(id),
{
}

/// Whatever is tracked in a room is what the engine gives out as its contact.
pub proof fn contacts_are_given_out(s: EngineState, id: RoomId, c: PersonContact)
    ensures
        s.contact_of(id) == Some(c) <==> s.contacts.contains_key(id) && s.contacts[id] == c,
        s.contact_of(id) is None <==> !s.contacts.contains_key(id),
{
}

/// A reading that comes in makes the same contact as a detection of the room
/// with the vital signs that it implies, the confidence given with it, and the
/// strengths that it reports.
pub proof fn readings_place_as_detections(
    s: EngineState,
    id: RoomId,
    input: ReadingInput,
    confidence: Measure,
    sensed: Sensed,
    now: Timestamp,
    fresh: ContactId,
    reading: RoomReadingView,
)
    requires
        input.vitals() is Some,
        reading.room_id == id,
        reading.vitals.signs == input.vitals()->0,
        reading.vitals.confidence == confidence,
        reading.sensor_rssi.len() == input.sensor_rssi@.len(),
        forall|i: int|
            0 <= i < input.sensor_rssi@.len() ==> (#[trigger] reading.sensor_rssi[i]).0
                == input.sensor_rssi@[i].id && reading.sensor_rssi[i].1
                == input.sensor_rssi@[i].rssi,
    ensures
        s.applied(id, input, confidence, sensed, now, fresh).contacts == s.ingested(
            reading,
            sensed,
            now,
            fresh,
        ).contacts,
        s.applied(id, input, confidence, sensed, now, fresh).sensors == s.ingested(
            reading,
            sensed,
            now,
            fresh,
        ).sensors,
{
    assert(reading.sensor_rssi =~= input.rssi_pairs());
    assert(reading.vitals == crate::domain::reading::VitalSignsReading {
        signs: input.vitals()->0,
        confidence,
    });
}

/// Vital signs that the detector finds in channel state make the same contact as
/// a detection of the room with these signs and the strengths that came along.
pub proof fn findings_place_as_detections(
    s: EngineState,
    found: Detection,
    sensed: Sensed,
    now: Timestamp,
    fresh: ContactId,
    reading: RoomReadingView,
)
    requires
        s.structure.room_at(reading.room_id) is Some,
        found == Detection::Found(reading.vitals),
        reading.vitals.signs.any(),
    ensures
        s.csi_applied(
            reading.room_id,
            found,
            reading.sensor_rssi,
            sensed,
            now,
            fresh,
        ).contacts == s.ingested(reading, sensed, now, fresh).contacts,
        s.csi_applied(
            reading.room_id,
            found,
            reading.sensor_rssi,
            sensed,
            now,
            fresh,
        ).sensors == s.ingested(reading, sensed, now, fresh).sensors,
{
}

/// Where the detector has enough to go by and finds nothing, the room is clear.
/// What comes in for a room, a reading or channel state, changes nothing of
/// another room, nor a radar reading, the structure or the tunables.
pub proof fn events_keep_to_their_room(
    s: EngineState,
    id: RoomId,
    input: ReadingInput,
    confidence: Measure,
    found: Detection,
    rssi: Seq<(String, Measure)>,
    sensed: Sensed,
    now: Timestamp,
    fresh: ContactId,
    other: RoomId,
)
    requires
        other != id,
    ensures
        ({
            let read = s.applied(id, input, confidence, sensed, now, fresh);
            let heard = s.csi_applied(id, found, rssi, sensed, now, fresh);
            &&& found is Nothing && s.structure.room_at(id) is Some ==> heard.contact_of(id) is None
                && heard.occupancy_of(id) == 0
            &&& read.contact_of(other) == s.contact_of(other)
            &&& heard.contact_of(other) == s.contact_of(other)
            &&& read.occupancy_of(other) == s.occupancy_of(other)
            &&& heard.occupancy_of(other) == s.occupancy_of(other)
            &&& heard.mmwave == s.mmwave
            &&& heard.structure == s.structure
            &&& heard.config == s.config
        }),
{
}

} // verus!
