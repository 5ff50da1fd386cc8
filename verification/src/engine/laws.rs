//! What holds of the engine as a whole.

use vstd::prelude::*;

use super::state::{
    by_room, heard, last_rssi_of, located, rows, shows_vitals, EngineConfig, EngineState, Sensed,
};
use crate::clock::Timestamp;
use crate::domain::contact::{LifeSign, Motion, PersonContact};
use crate::domain::picture::{
    occupied, reporting_nodes_are_configured, RoomOccupancy, SensorSummary, SensorSummaryView, TacticalPicture,
};
use crate::domain::reading::{
    Detection, MmwaveReading, MovementType, ReadingInput, RoomReadingView, VitalSignsReading,
};
use crate::domain::structure::{
    distinct_rooms, of_node, rssi_of, Room, SensorPlacement, Structure, MIN_SENSORS_FOR_FIX,
};
use crate::entry::{assessments, priority_follows_contacts, TacticalPriority};
use crate::ids::{ContactId, RoomId};
use crate::measure::Measure;
use crate::ranked::{
    equals, equals_of, same_classes_same_order, same_items_same_multiset, sort_keeps_counts,
    stable_sort_of, views,
};
use crate::seqs::{enumerates, filter_single, first_is_first, first_none};
use crate::text::{folded, text_order_irreflexive, text_order_total};

verus! {

/// An engine starts consistent, and every event keeps it so.
pub proof fn always_consistent(
    s: EngineState,
    structure: Structure,
    config: EngineConfig,
    id: RoomId,
    reading: RoomReadingView,
    input: ReadingInput,
    radar: MmwaveReading,
    found: Detection,
    confidence: Measure,
    sensed: Sensed,
    now: Timestamp,
    fresh: ContactId,
)
    requires
        s.consistent(),
    ensures
        EngineState::blank(structure, config).consistent(),
        s.noted(id, reading.sensor_rssi, now).consistent(),
        s.pruned(now).consistent(),
        s.csi_applied(id, found, reading.sensor_rssi, sensed, now, fresh).consistent(),
        s.structure.room_at(id) is Some ==> {
            &&& s.cleared(id).consistent()
            &&& s.radar_heard(id, radar, now).consistent()
            &&& s.applied(id, input, confidence, sensed, now, fresh).consistent()
        },
        s.structure.room_at(reading.room_id) is Some ==> s.ingested(
            reading,
            sensed,
            now,
            fresh,
        ).consistent(),
{
    s.pruned_is_consistent(now);
    if s.structure.room_at(reading.room_id) is Some {
        s.ingested_is_consistent(reading, sensed, now, fresh);
    }
    if s.structure.room_at(id) is Some {
        s.cleared_is_consistent(id);
        s.radar_heard_is_consistent(id, radar, now);
        s.noted(id, reading.sensor_rssi, now).cleared_is_consistent(id);
        s.noted(id, input.rssi_pairs(), now).cleared_is_consistent(id);
        if found is Found {
            s.ingested_is_consistent(
                RoomReadingView {
                    room_id: id,
                    vitals: found->Found_0,
                    occupancy: 1,
                    sensor_rssi: reading.sensor_rssi,
                },
                sensed,
                now,
                fresh,
            );
        }
        if input.vitals() is Some {
            s.ingested_is_consistent(
                RoomReadingView {
                    room_id: id,
                    vitals: VitalSignsReading { signs: input.vitals()->0, confidence },
                    occupancy: input.occupants(),
                    sensor_rssi: input.rssi_pairs(),
                },
                sensed,
                now,
                fresh,
            );
        }
    }
}

/// A room keeps its contact's id and first sighting over any further detection.
pub proof fn contact_keeps_identity(
    s: EngineState,
    reading: RoomReadingView,
    sensed: Sensed,
    now: Timestamp,
    fresh: ContactId,
)
    requires
        s.contacts.contains_key(reading.room_id),
    ensures
        s.ingested(reading, sensed, now, fresh).contacts[reading.room_id].id
            == s.contacts[reading.room_id].id,
        s.ingested(reading, sensed, now, fresh).contacts[reading.room_id].first_seen
            == s.contacts[reading.room_id].first_seen,
{
}

/// Where the kind of fix changes, the contact snaps to the new fix: it stands
/// where a first detection would have placed it.
pub proof fn fix_change_snaps(
    s: EngineState,
    reading: RoomReadingView,
    sensed: Sensed,
    now: Timestamp,
    fresh: ContactId,
)
    requires
        s.contacts.contains_key(reading.room_id),
        s.contacts[reading.room_id].point_fix != located(
            s.structure.room_at(reading.room_id)->0,
            reading.sensor_rssi,
            sensed,
        ).point_fix,
    ensures
        ({
            let c = s.ingested(reading, sensed, now, fresh).contacts[reading.room_id];
            let first = EngineState::blank(s.structure, s.config).ingested(
                reading,
                sensed,
                now,
                fresh,
            ).contacts[reading.room_id];
            &&& c.x == first.x
            &&& c.y == first.y
            &&& c.point_fix == first.point_fix
            &&& c.uncertainty_radius_m == first.uncertainty_radius_m
        }),
{
}

/// A contact is a point fix exactly where three nodes of its room reported live
/// and the localizer gave a position; without any reading it is none.
pub proof fn point_fix_needs_three_nodes(
    s: EngineState,
    reading: RoomReadingView,
    sensed: Sensed,
    now: Timestamp,
    fresh: ContactId,
)
    ensures
        s.ingested(reading, sensed, now, fresh).contacts[reading.room_id].point_fix <==> {
            &&& s.structure.room_at(reading.room_id)->0.live_sensors(reading.sensor_rssi)
                >= MIN_SENSORS_FOR_FIX
            &&& sensed.estimate is Some
        },
        reading.sensor_rssi.len() == 0 ==> !s.ingested(
            reading,
            sensed,
            now,
            fresh,
        ).contacts[reading.room_id].point_fix,
{
    if reading.sensor_rssi.len() == 0 {
        let room = s.structure.room_at(reading.room_id)->0;
        let p = |n: SensorPlacement|
            rssi_of(reading.sensor_rssi, n.id@) is Some;
        assert forall|i: int| 0 <= i < room.sensors@.len() implies !p(#[trigger] room.sensors@[i]) by {
            first_none(reading.sensor_rssi, of_node(room.sensors@[i].id@));
        }
        room.sensors@.lemma_all_neg_filter_empty(p);
    }
}

/// A detection changes nothing of the other rooms.
pub proof fn detection_stays_in_its_room(
    s: EngineState,
    reading: RoomReadingView,
    sensed: Sensed,
    now: Timestamp,
    fresh: ContactId,
    other: RoomId,
)
    requires
        other != reading.room_id,
    ensures
        s.ingested(reading, sensed, now, fresh).contact_of(other) == s.contact_of(other),
        s.ingested(reading, sensed, now, fresh).occupancy_of(other) == s.occupancy_of(other),
        s.ingested(reading, sensed, now, fresh).mmwave == s.mmwave,
{
}

/// A detection makes a room occupied, by at least one and by what it reports.
pub proof fn detection_occupies(
    s: EngineState,
    reading: RoomReadingView,
    sensed: Sensed,
    now: Timestamp,
    fresh: ContactId,
)
    ensures
        s.ingested(reading, sensed, now, fresh).contact_of(reading.room_id) is Some,
        s.ingested(reading, sensed, now, fresh).occupancy_of(reading.room_id) >= 1,
        s.ingested(reading, sensed, now, fresh).occupancy_of(reading.room_id) >= reading.occupancy,
{
}

/// The picture shows a detection: the room has one contact, the occupancy that
/// was reported but at least one, and motion where the movement was gross.
pub proof fn detection_is_pictured(
    s: EngineState,
    reading: RoomReadingView,
    sensed: Sensed,
    now: Timestamp,
    fresh: ContactId,
    room: Room,
    then: Timestamp,
)
    requires
        room.id == reading.room_id,
    ensures
        ({
            let row = s.ingested(reading, sensed, now, fresh).row(room, then);
            &&& row.contact_count == 1
            &&& row.occupancy_estimate == (if reading.occupancy >= 1 {
                reading.occupancy
            } else {
                1
            })
            &&& row.any_moving <==> reading.vitals.signs.movement.movement_type
                == MovementType::Gross
        }),
{
}

/// The priority that a contact, or none, gives its room.
pub open spec fn priority_for(contact: Option<PersonContact>) -> TacticalPriority {
    match contact {
        None => TacticalPriority::NoContact,
        Some(c) => if c.motion == Motion::Moving {
            TacticalPriority::Active
        } else if c.life_sign == LifeSign::Faint {
            TacticalPriority::Monitor
        } else {
            TacticalPriority::Focus
        },
    }
}

/// The advice on a room of a picture of the engine follows the contact that the
/// engine tracks in it.
pub proof fn advice_follows_the_engine(
    s: EngineState,
    picture: TacticalPicture,
    now: Timestamp,
    i: int,
)
    requires
        s.consistent(),
        s.pictured(picture, now),
        0 <= i < picture.rooms@.len(),
    ensures
        assessments(picture)[i].room_id == s.structure.rooms@[i].id,
        assessments(picture)[i].priority == priority_for(s.contact_of(s.structure.rooms@[i].id)),
        assessments(picture)[i].occupancy_estimate == s.occupancy_of(s.structure.rooms@[i].id),
{
    let contacts = picture.contacts@;
    let entries = by_room(contacts);
    let id = s.structure.rooms@[i].id;
    assert(views(picture.rooms@).len() == s.structure.rooms@.len());
    assert(views(picture.rooms@)[i] == picture.rooms@[i]@);
    assert(picture.rooms@[i]@ == s.row(s.structure.rooms@[i], now));
    priority_follows_contacts(contacts, id);
    if s.contacts.contains_key(id) {
        let k = choose|k: int| 0 <= k < entries.len() && (#[trigger] entries[k]).0 == id;
        assert(entries[k] == (contacts[k].room_id, contacts[k]));
        assert(contacts[k] == s.contacts[id]);
        assert forall|j: int| 0 <= j < contacts.len() && (#[trigger] contacts[j]).room_id
            == id implies contacts[j] == s.contacts[id] by {
            assert(entries[j] == (contacts[j].room_id, contacts[j]));
        }
    } else {
        assert forall|j: int| 0 <= j < contacts.len() implies (#[trigger] contacts[j]).room_id
            != id by {
            assert(entries[j] == (contacts[j].room_id, contacts[j]));
        }
    }
}

/// An absence takes the contact of its room away and brings its occupancy to
/// zero; the other rooms keep theirs. The picture then shows the room clear.
pub proof fn absence_clears(s: EngineState, id: RoomId, other: RoomId, room: Room, now: Timestamp)
    requires
        other != id,
        room.id == id,
    ensures
        s.cleared(id).contact_of(id) is None,
        s.cleared(id).occupancy_of(id) == 0,
        s.cleared(id).contact_of(other) == s.contact_of(other),
        s.cleared(id).occupancy_of(other) == s.occupancy_of(other),
        s.cleared(id).row(room, now).contact_count == 0,
        s.cleared(id).row(room, now).occupancy_estimate == 0,
        !s.cleared(id).row(room, now).any_moving,
        !s.cleared(id).row(room, now).corroborated,
{
}

/// A reading without presence leaves its room without a contact, and its nodes
/// are heard all the same.
pub proof fn absence_still_hears_nodes(
    s: EngineState,
    id: RoomId,
    input: ReadingInput,
    confidence: Measure,
    sensed: Sensed,
    now: Timestamp,
    fresh: ContactId,
)
    ensures
        !input.presence ==> s.applied(id, input, confidence, sensed, now, fresh).contact_of(
            id,
        ) is None,
        s.applied(id, input, confidence, sensed, now, fresh).sensors == heard(
            s.sensors,
            id,
            input.rssi_pairs(),
            now,
        ),
{
}

/// Channel state from which the detector can tell nothing yet leaves contacts
/// and occupancies as they are; the nodes are heard whatever the detector says.
pub proof fn csi_always_hears_nodes(
    s: EngineState,
    id: RoomId,
    found: Detection,
    rssi: Seq<(String, Measure)>,
    sensed: Sensed,
    now: Timestamp,
    fresh: ContactId,
)
    ensures
        s.csi_applied(id, found, rssi, sensed, now, fresh).sensors == heard(
            s.sensors,
            id,
            rssi,
            now,
        ),
        found is TooLittle ==> s.csi_applied(id, found, rssi, sensed, now, fresh).contacts
            == s.contacts,
        found is TooLittle ==> s.csi_applied(id, found, rssi, sensed, now, fresh).occupancy
            == s.occupancy,
{
}

/// A room has a contact after enough channel state came in for it exactly where
/// the detector found a vital sign in it: where it found none, the picture shows
/// the room clear. The other rooms stay as they are.
pub proof fn csi_tracks_what_is_found(
    s: EngineState,
    id: RoomId,
    found: Detection,
    rssi: Seq<(String, Measure)>,
    sensed: Sensed,
    now: Timestamp,
    fresh: ContactId,
    room: Room,
    other: RoomId,
)
    requires
        s.structure.room_at(id) is Some,
        !(found is TooLittle),
        room.id == id,
        other != id,
    ensures
        ({
            let after = s.csi_applied(id, found, rssi, sensed, now, fresh);
            &&& after.contact_of(id) is Some <==> shows_vitals(found)
            &&& after.occupancy_of(id) == (if shows_vitals(found) {
                1int
            } else {
                0
            })
            &&& after.row(room, now).contact_count == after.occupancy_of(id)
            &&& after.row(room, now).occupancy_estimate == after.occupancy_of(id)
            &&& after.contact_of(other) == s.contact_of(other)
            &&& after.occupancy_of(other) == s.occupancy_of(other)
        }),
{
}

/// After pruning, the contacts left are exactly those that were updated at or
/// after the cutoff, unchanged; pruning again drops nothing.
pub proof fn pruning_drops_the_stale(s: EngineState, cutoff: Timestamp)
    ensures
        forall|id: RoomId| #[trigger]
            s.pruned(cutoff).contacts.contains_key(id) <==> s.contacts.contains_key(id)
                && !s.contacts[id].last_updated.earlier(cutoff),
        forall|id: RoomId| #[trigger]
            s.pruned(cutoff).contacts.contains_key(id) ==> s.pruned(cutoff).contacts[id]
                == s.contacts[id],
        forall|id: RoomId|
            s.contacts.contains_key(id) && s.contacts[id].last_updated.earlier(cutoff)
                ==> #[trigger] s.pruned(cutoff).occupancy_of(id) == 0,
        s.pruned(cutoff).pruned(cutoff) == s.pruned(cutoff),
{
    let once = s.pruned(cutoff);
    assert(once.stale(cutoff) =~= Set::<RoomId>::empty());
    assert(once.pruned(cutoff) =~= once);
}

/// A node that reported at `now` is reporting at that time, whatever room is
/// asked for, as long as the window is not negative.
pub proof fn heard_nodes_report(
    s: EngineState,
    id: RoomId,
    rssi: Seq<(String, Measure)>,
    now: Timestamp,
    i: int,
    name: Option<Seq<char>>,
    configured: bool,
)
    requires
        0 <= i < rssi.len(),
        s.config.sensor_stale_secs >= 0,
    ensures
        ({
            let row = s.noted(id, rssi, now).node_row(rssi[i].0@, id, name, configured, now);
            &&& row.reporting
            &&& row.age_secs == Some(0int)
            &&& row.last_rssi is Some
            &&& row.last_rssi == last_rssi_of(rssi, rssi[i].0@)
        }),
{
    last_rssi_exists(rssi, i);
}

/// A node that occurs in a list of readings has a last reading there.
proof fn last_rssi_exists(rssi: Seq<(String, Measure)>, i: int)
    requires
        0 <= i < rssi.len(),
    ensures
        last_rssi_of(rssi, rssi[i].0@) is Some,
    decreases rssi.len(),
{
    if i < rssi.len() - 1 {
        last_rssi_exists(rssi.drop_last(), i);
    }
}

/// A node last heard longer ago than the window, or never, is not reporting.
pub proof fn silent_nodes_do_not_report(
    s: EngineState,
    id: Seq<char>,
    room_id: RoomId,
    name: Option<Seq<char>>,
    configured: bool,
    now: Timestamp,
)
    requires
        s.sensors.contains_key(id) ==> now.seconds_since(s.sensors[id].last_seen)
            > s.config.sensor_stale_secs,
    ensures
        !s.node_row(id, room_id, name, configured, now).reporting,
{
}

/// A radar reading older than the window is left out of the picture.
pub proof fn stale_radar_is_left_out(s: EngineState, room: Room, now: Timestamp)
    requires
        s.mmwave.contains_key(room.id) ==> now.seconds_since(s.mmwave[room.id].last_seen)
            > s.config.mmwave_stale_secs,
    ensures
        s.row(room, now).mmwave is None,
        !s.row(room, now).corroborated,
{
}

/// A fresh radar reading corroborates a contact exactly where the radar sees
/// presence and the room has a contact.
pub proof fn radar_corroborates(
    s: EngineState,
    room: Room,
    reading: MmwaveReading,
    now: Timestamp,
)
    requires
        s.config.mmwave_stale_secs >= 0,
    ensures
        ({
            let row = s.radar_heard(room.id, reading, now).row(room, now);
            &&& row.mmwave is Some
            &&& row.mmwave->0.age_secs == 0
            &&& row.corroborated <==> reading.presence && s.contacts.contains_key(room.id)
        }),
{
}

/// A radar reading that the picture shows is of the window: none is older, and
/// none of a later time. A node that reports was heard within its window.
pub proof fn shown_ages_are_fresh(
    s: EngineState,
    room: Room,
    now: Timestamp,
    id: Seq<char>,
    name: Option<Seq<char>>,
    configured: bool,
)
    ensures
        s.row(room, now).mmwave is Some ==> 0 <= s.row(room, now).mmwave->0.age_secs
            <= s.config.mmwave_stale_secs,
        s.node_row(id, room.id, name, configured, now).reporting ==> {
            let age = s.node_row(id, room.id, name, configured, now).age_secs;
            age is Some && 0 <= age->0 <= s.config.sensor_stale_secs
        },
{
}

/// The estimate of a room is never below the number of its contacts, and is
/// above zero exactly where it has a contact.
pub proof fn estimate_matches_contacts(s: EngineState, room: Room, now: Timestamp)
    requires
        s.consistent(),
    ensures
        s.row(room, now).occupancy_estimate >= s.row(room, now).contact_count,
        s.row(room, now).occupancy_estimate > 0 <==> s.row(room, now).contact_count > 0,
        s.row(room, now).contact_count <= 1,
{
    assert(s.contacts.contains_key(room.id) ==> s.occupancy.contains_key(room.id));
}

/// An id that the structure has goes before any name, and a name is taken in
/// either case.
pub proof fn rooms_resolve(
    s: EngineState,
    id: RoomId,
    name: Option<Seq<char>>,
    a: Seq<char>,
    b: Seq<char>,
)
    ensures
        s.structure.room_at(id) is Some ==> s.resolves(Some(id), name) == Some(id),
        folded(a) == folded(b) ==> s.resolves(None, Some(a)) == s.resolves(None, Some(b)),
        s.resolves(Some(id), name) is Some ==> s.structure.room_at(
            s.resolves(Some(id), name)->0,
        ) is Some,
        s.resolves(None, None) is None,
{
    if s.resolves(Some(id), name) is Some {
        s.resolved_is_known(Some(id), name);
    }
    if folded(a) == folded(b) {
        assert((|r: Room| folded(r.name@) == folded(a)) =~= (|r: Room|
            folded(r.name@) == folded(b)));
    }
}

/// Node rows that sort alike have the same room label and the same id.
proof fn equal_rows_share_key(a: SensorSummaryView, b: SensorSummaryView)
    ensures
        equals::<SensorSummary>(a, b) <==> a.room_name == b.room_name && a.id == b.id,
{
    text_order_irreflexive(a.id);
    text_order_total(a.id, b.id);
    if let (Some(x), Some(y)) = (a.room_name, b.room_name) {
        text_order_total(x, y);
        text_order_irreflexive(x);
    }
}

/// Of the strays in a list, those that sort like `x` are the stray with its id,
/// where that has its room label.
proof fn strays_like(
    s: EngineState,
    extra: Seq<(Seq<char>, SensorSummaryView)>,
    x: SensorSummaryView,
    now: Timestamp,
)
    requires
        enumerates(extra, s.strays(now)),
    ensures
        equals_of::<SensorSummary>(rows(extra), x) == (if s.strays(now).contains_key(x.id)
            && s.strays(now)[x.id].room_name == x.room_name {
            seq![s.strays(now)[x.id]]
        } else {
            Seq::empty()
        }),
{
    let f = |y: SensorSummaryView| equals::<SensorSummary>(y, x);
    let all = rows(extra);
    assert forall|i: int| 0 <= i < all.len() implies f(#[trigger] all[i]) == (extra[i].0 == x.id
        && extra[i].1.room_name == x.room_name) by {
        equal_rows_share_key(all[i], x);
        assert(s.strays(now).contains_key(extra[i].0));
    }
    if s.strays(now).contains_key(x.id) && s.strays(now)[x.id].room_name == x.room_name {
        let i = choose|i: int| 0 <= i < extra.len() && (#[trigger] extra[i]).0 == x.id;
        assert(f(all[i]));
        assert forall|j: int| 0 <= j < all.len() && j != i implies !f(#[trigger] all[j]) by {
            if j < i {
                assert(extra[j].0 != extra[i].0);
            } else {
                assert(extra[i].0 != extra[j].0);
            }
        }
        filter_single(all, f, i);
    } else {
        all.lemma_all_neg_filter_empty(f);
        assert(all.filter(f) =~= Seq::empty());
    }
}

/// A list of the strays holds each of their rows once.
proof fn strays_listed_once(
    s: EngineState,
    extra: Seq<(Seq<char>, SensorSummaryView)>,
    now: Timestamp,
)
    requires
        enumerates(extra, s.strays(now)),
    ensures
        rows(extra).no_duplicates(),
        forall|v: SensorSummaryView| #[trigger]
            rows(extra).contains(v) <==> s.strays(now).contains_key(v.id) && s.strays(now)[v.id]
                == v,
{
    let all = rows(extra);
    assert forall|i: int| 0 <= i < all.len() implies (#[trigger] all[i]).id == extra[i].0 by {
        assert(s.strays(now).contains_key(extra[i].0));
    }
    assert forall|i: int, j: int| 0 <= i < all.len() && 0 <= j < all.len() && i
        != j implies all[i] != all[j] by {
        if i < j {
            assert(extra[i].0 != extra[j].0);
        } else {
            assert(extra[j].0 != extra[i].0);
        }
        assert(all[i].id == extra[i].0 && all[j].id == extra[j].0);
    }
    assert forall|v: SensorSummaryView| #[trigger] all.contains(v) <==> s.strays(now).contains_key(
        v.id,
    ) && s.strays(now)[v.id] == v by {
        if all.contains(v) {
            let i = all.index_of(v);
            assert(all[i].id == extra[i].0);
            assert(s.strays(now)[extra[i].0] == extra[i].1);
        }
        if s.strays(now).contains_key(v.id) && s.strays(now)[v.id] == v {
            let i = choose|i: int| 0 <= i < extra.len() && (#[trigger] extra[i]).0 == v.id;
            assert(all[i] == v);
        }
    }
}

/// The node report of a state at a time is one only: what the sensors said and
/// the floor plan settle each row and its place.
pub proof fn report_is_settled(
    s: EngineState,
    a: Seq<SensorSummaryView>,
    b: Seq<SensorSummaryView>,
    now: Timestamp,
)
    requires
        s.reports(a, now),
        s.reports(b, now),
    ensures
        a == b,
{
    let plan = s.plan_rows(s.structure.rooms@, now);
    let ea = choose|extra: Seq<(Seq<char>, SensorSummaryView)>|
        {
            &&& #[trigger] enumerates(extra, s.strays(now))
            &&& stable_sort_of::<SensorSummary>(a, plan + rows(extra))
        };
    let eb = choose|extra: Seq<(Seq<char>, SensorSummaryView)>|
        {
            &&& #[trigger] enumerates(extra, s.strays(now))
            &&& stable_sort_of::<SensorSummary>(b, plan + rows(extra))
        };
    strays_listed_once(s, ea, now);
    strays_listed_once(s, eb, now);
    same_items_same_multiset(rows(ea), rows(eb));
    vstd::seq_lib::lemma_multiset_commutative(plan, rows(ea));
    vstd::seq_lib::lemma_multiset_commutative(plan, rows(eb));
    assert forall|x: SensorSummaryView| #[trigger] equals_of::<SensorSummary>(a, x) == equals_of::<
        SensorSummary,
    >(b, x) by {
        let f = |y: SensorSummaryView| equals::<SensorSummary>(y, x);
        strays_like(s, ea, x, now);
        strays_like(s, eb, x, now);
        Seq::filter_distributes_over_add(plan, rows(ea), f);
        Seq::filter_distributes_over_add(plan, rows(eb), f);
        assert(equals_of::<SensorSummary>(plan + rows(ea), x) == equals_of::<SensorSummary>(
            plan + rows(eb),
            x,
        ));
        assert(equals_of::<SensorSummary>(a, x) == equals_of::<SensorSummary>(
            plan + rows(ea),
            x,
        ));
        assert(equals_of::<SensorSummary>(b, x) == equals_of::<SensorSummary>(
            plan + rows(eb),
            x,
        ));
    }
    same_classes_same_order::<SensorSummary>(a, b);
}

/// The ids of the rooms that have a contact.
spec fn held_ids(s: EngineState, rooms: Seq<Room>) -> Set<RoomId>
    decreases rooms.len(),
{
    if rooms.len() == 0 {
        Set::empty()
    } else {
        let before = held_ids(s, rooms.drop_last());
        let id = rooms.last().id;
        if s.contacts.contains_key(id) {
            before.insert(id)
        } else {
            before
        }
    }
}

/// The rooms that have a contact, by id.
proof fn held_ids_are_held(s: EngineState, rooms: Seq<Room>)
    ensures
        held_ids(s, rooms).finite(),
        forall|id: RoomId| #[trigger]
            held_ids(s, rooms).contains(id) <==> s.contacts.contains_key(id) && exists|i: int|
                0 <= i < rooms.len() && (#[trigger] rooms[i]).id == id,
    decreases rooms.len(),
{
    if rooms.len() > 0 {
        let head = rooms.drop_last();
        held_ids_are_held(s, head);
        assert forall|id: RoomId| #[trigger] held_ids(s, rooms).contains(id) <==> (
        s.contacts.contains_key(id) && exists|i: int|
            0 <= i < rooms.len() && (#[trigger] rooms[i]).id == id) by {
            if held_ids(s, rooms).contains(id) {
                if held_ids(s, head).contains(id) {
                    let i = choose|i: int| 0 <= i < head.len() && (#[trigger] head[i]).id == id;
                    assert(rooms[i].id == id);
                } else {
                    assert(rooms[rooms.len() - 1].id == id);
                }
            }
            if s.contacts.contains_key(id) && exists|i: int|
                0 <= i < rooms.len() && (#[trigger] rooms[i]).id == id {
                let i = choose|i: int| 0 <= i < rooms.len() && (#[trigger] rooms[i]).id == id;
                if i < head.len() {
                    assert(head[i].id == id);
                }
            }
        }
    }
}

/// Of rooms with different ids, as many are occupied as have a contact.
proof fn occupied_are_held(s: EngineState, picture: Seq<RoomOccupancy>, rooms: Seq<Room>)
    requires
        picture.len() == rooms.len(),
        distinct_rooms(rooms),
        forall|i: int|
            0 <= i < rooms.len() ==> ((#[trigger] picture[i]).contact_count > 0
                <==> s.contacts.contains_key(rooms[i].id)),
    ensures
        occupied(picture) == held_ids(s, rooms).len(),
    decreases rooms.len(),
{
    let p = |r: RoomOccupancy| r.contact_count > 0;
    if rooms.len() == 0 {
        assert(picture.filter(p) =~= Seq::empty());
    } else {
        let n = rooms.len() - 1;
        let head = rooms.drop_last();
        let shown = picture.drop_last();
        assert forall|i: int| 0 <= i < head.len() implies ((#[trigger] shown[i]).contact_count > 0
            <==> s.contacts.contains_key(head[i].id)) by {
            assert(shown[i] == picture[i]);
        }
        assert forall|i: int, j: int| 0 <= i < j < head.len() implies (#[trigger] head[i]).id != (
        #[trigger] head[j]).id by {
            assert(rooms[i].id != rooms[j].id);
        }
        occupied_are_held(s, shown, head);
        held_ids_are_held(s, head);
        assert(picture =~= shown.push(picture[n]));
        shown.lemma_filter_push(picture[n], p);
        if held_ids(s, head).contains(rooms[n].id) {
            let i = choose|i: int| 0 <= i < head.len() && (#[trigger] head[i]).id == rooms[n].id;
            assert(rooms[i].id != rooms[n].id);
        }
    }
}

/// A picture of rooms with different ids counts as occupied as many rooms as
/// there are contacts: each contact is in a room of its own.
pub proof fn occupied_rooms_are_the_contacts(
    s: EngineState,
    picture: TacticalPicture,
    now: Timestamp,
)
    requires
        s.consistent(),
        s.pictured(picture, now),
        distinct_rooms(s.structure.rooms@),
    ensures
        picture.occupied_rooms == picture.contacts@.len(),
        picture.occupied_rooms == s.contacts.len(),
{
    let rooms = s.structure.rooms@;
    let shown = picture.rooms@;
    let entries = by_room(picture.contacts@);
    let ids = entries.map_values(|e: (RoomId, PersonContact)| e.0);
    assert(views(shown).len() == rooms.len());
    assert forall|i: int| 0 <= i < rooms.len() implies ((#[trigger] shown[i]).contact_count > 0
        <==> s.contacts.contains_key(rooms[i].id)) by {
        assert(views(shown)[i] == shown[i]@);
        assert(shown[i]@ == s.row(rooms[i], now));
    }
    occupied_are_held(s, shown, rooms);
    held_ids_are_held(s, rooms);
    assert forall|id: RoomId| s.contacts.contains_key(id) implies held_ids(s, rooms).contains(
        id,
    ) by {
        assert(s.structure.room_at(id) is Some);
        first_is_first(rooms, |r: Room| r.id == id);
    }
    assert(held_ids(s, rooms) =~= s.contacts.dom());
    assert forall|i: int, j: int| 0 <= i < ids.len() && 0 <= j < ids.len() && i
        != j implies ids[i] != ids[j] by {
        if i < j {
            assert(entries[i].0 != entries[j].0);
        } else {
            assert(entries[j].0 != entries[i].0);
        }
    }
    assert forall|id: RoomId| #[trigger] ids.to_set().contains(id) <==> s.contacts.contains_key(
        id,
    ) by {
        if ids.contains(id) {
            let i = ids.index_of(id);
            assert(entries[i].0 == id);
        }
        if s.contacts.contains_key(id) {
            let i = choose|i: int| 0 <= i < entries.len() && (#[trigger] entries[i]).0 == id;
            assert(ids[i] == id);
        }
    }
    assert(ids.to_set() =~= s.contacts.dom());
    ids.unique_seq_to_set();
}

/// The number of nodes in the floor plan of rooms.
pub open spec fn plan_size(rooms: Seq<Room>) -> nat
    decreases rooms.len(),
{
    if rooms.len() == 0 {
        0
    } else {
        plan_size(rooms.drop_last()) + rooms.last().sensors@.len()
    }
}

/// The rows of the floor plan are as many as its nodes, all of them configured.
proof fn plan_rows_are_configured(s: EngineState, rooms: Seq<Room>, now: Timestamp)
    ensures
        s.plan_rows(rooms, now).len() == plan_size(rooms),
        forall|i: int|
            0 <= i < s.plan_rows(rooms, now).len() ==> (#[trigger] s.plan_rows(
                rooms,
                now,
            )[i]).configured,
    decreases rooms.len(),
{
    if rooms.len() > 0 {
        plan_rows_are_configured(s, rooms.drop_last(), now);
    }
}

/// The items of a sequence that meet a condition are as many as their views
/// that meet it.
proof fn count_of_views(sensors: Seq<SensorSummary>, p: spec_fn(SensorSummaryView) -> bool)
    ensures
        sensors.filter(|x: SensorSummary| p(x@)).len() == views(sensors).filter(p).len(),
    decreases sensors.len(),
{
    let q = |x: SensorSummary| p(x@);
    if sensors.len() == 0 {
        assert(sensors.filter(q) =~= Seq::<SensorSummary>::empty());
        assert(views(sensors).filter(p) =~= Seq::<SensorSummaryView>::empty());
    } else {
        let head = sensors.drop_last();
        let x = sensors.last();
        count_of_views(head, p);
        assert(sensors =~= head.push(x));
        assert(views(sensors) =~= views(head).push(x@));
        head.lemma_filter_push(x, q);
        views(head).lemma_filter_push(x@, p);
    }
}

/// A picture counts as its total the nodes of the floor plan, one for each
/// placement, and never more of them as reporting.
pub proof fn picture_counts_the_plan(s: EngineState, picture: TacticalPicture, now: Timestamp)
    requires
        s.pictured(picture, now),
    ensures
        picture.sensors_total == plan_size(s.structure.rooms@),
        picture.sensors_reporting <= picture.sensors_total,
{
    let rooms = s.structure.rooms@;
    let out = views(picture.sensors@);
    let p = |v: SensorSummaryView| v.configured;
    let extra = choose|extra: Seq<(Seq<char>, SensorSummaryView)>|
        {
            &&& #[trigger] enumerates(extra, s.strays(now))
            &&& stable_sort_of::<SensorSummary>(out, s.plan_rows(rooms, now) + rows(extra))
        };
    let plan = s.plan_rows(rooms, now);
    plan_rows_are_configured(s, rooms, now);
    sort_keeps_counts::<SensorSummary>(out, plan + rows(extra), p);
    Seq::filter_distributes_over_add(plan, rows(extra), p);
    plan_filter_all(plan, p);
    assert forall|i: int| 0 <= i < rows(extra).len() implies !p(#[trigger] rows(extra)[i]) by {
        assert(s.strays(now).contains_key(extra[i].0));
    }
    rows(extra).lemma_all_neg_filter_empty(p);
    count_of_views(picture.sensors@, p);
    assert((|x: SensorSummary| p(x@)) =~= (|x: SensorSummary| x.configured));
    reporting_nodes_are_configured(picture.sensors@);
}

/// A filter that everything passes keeps the sequence.
proof fn plan_filter_all(plan: Seq<SensorSummaryView>, p: spec_fn(SensorSummaryView) -> bool)
    requires
        forall|i: int| 0 <= i < plan.len() ==> p(#[trigger] plan[i]),
    ensures
        plan.filter(p) == plan,
    decreases plan.len(),
{
    if plan.len() == 0 {
        assert(plan.filter(p) =~= plan);
    } else {
        let head = plan.drop_last();
        assert forall|i: int| 0 <= i < head.len() implies p(#[trigger] head[i]) by {
            assert(head[i] == plan[i]);
        }
        plan_filter_all(head, p);
        assert(plan =~= head.push(plan.last()));
        head.lemma_filter_push(plan.last(), p);
        assert(p(plan[plan.len() - 1]));
    }
}

} // verus!
