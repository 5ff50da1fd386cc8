//! What the node report and the picture say, told by what the engine holds.

use vstd::prelude::*;

use super::state::{by_room, rows, EngineState};
use crate::clock::Timestamp;
use crate::domain::contact::Motion;
use crate::domain::picture::{
    BleDevice, RoomOccupancy, SensorSummary, SensorSummaryView, TacticalPicture,
};
use crate::domain::structure::Room;
use crate::ids::RoomId;
use crate::ranked::{stable_sort_of, views, Ranked};
use crate::seqs::enumerates;
use crate::text::text_before;

verus! {

/// Whether a row tells the health of a node: how long ago it was last heard and
/// how strong, or nothing where it never was. It reports exactly where it was
/// heard within the window.
pub open spec fn tells_health(row: SensorSummaryView, s: EngineState, now: Timestamp) -> bool {
    if s.sensors.contains_key(row.id) {
        let age = now.seconds_since(s.sensors[row.id].last_seen);
        &&& row.age_secs == Some(age)
        &&& row.last_rssi == s.sensors[row.id].last_rssi
        &&& row.reporting <==> 0 <= age <= s.config.sensor_stale_secs
    } else {
        &&& row.age_secs is None
        &&& row.last_rssi is None
        &&& !row.reporting
    }
}

/// Whether a row is of the node placed at `j` in the room at `i` of the plan.
pub open spec fn is_placed(row: SensorSummaryView, s: EngineState, i: int, j: int) -> bool {
    let rooms = s.structure.rooms@;
    &&& 0 <= i < rooms.len()
    &&& 0 <= j < rooms[i].sensors@.len()
    &&& row.id == rooms[i].sensors@[j].id@
    &&& row.room_id == Some(rooms[i].id)
    &&& row.room_name == Some(rooms[i].name@)
    &&& row.configured
}

/// Whether no room of the plan has a node of that id.
pub open spec fn unplaced(s: EngineState, id: Seq<char>) -> bool {
    forall|i: int, j: int|
        0 <= i < s.structure.rooms@.len() && 0 <= j < s.structure.rooms@[i].sensors@.len()
            ==> (#[trigger] s.structure.rooms@[i].sensors@[j]).id@ != id
}

/// A row for a place of the plan is among the rows of the plan.
proof fn plan_rows_hold(s: EngineState, rooms: Seq<Room>, i: int, j: int, now: Timestamp)
    requires
        0 <= i < rooms.len(),
        0 <= j < rooms[i].sensors@.len(),
    ensures
        s.plan_rows(rooms, now).contains(
            s.node_row(rooms[i].sensors@[j].id@, rooms[i].id, Some(rooms[i].name@), true, now),
        ),
    decreases rooms.len(),
{
    let head = s.plan_rows(rooms.drop_last(), now);
    let mine = s.room_rows(rooms.last(), now);
    if i < rooms.len() - 1 {
        plan_rows_hold(s, rooms.drop_last(), i, j, now);
        let row = s.node_row(rooms[i].sensors@[j].id@, rooms[i].id, Some(rooms[i].name@), true, now);
        let k = head.index_of(row);
        assert((head + mine)[k] == row);
    } else {
        assert((head + mine)[head.len() + j] == mine[j]);
    }
}

/// A row of the plan is of one of its places.
proof fn plan_rows_are_placed(s: EngineState, rooms: Seq<Room>, k: int, now: Timestamp) -> (r: (
    int,
    int,
))
    requires
        0 <= k < s.plan_rows(rooms, now).len(),
    ensures
        0 <= r.0 < rooms.len(),
        0 <= r.1 < rooms[r.0].sensors@.len(),
        s.plan_rows(rooms, now)[k] == s.node_row(
            rooms[r.0].sensors@[r.1].id@,
            rooms[r.0].id,
            Some(rooms[r.0].name@),
            true,
            now,
        ),
    decreases rooms.len(),
{
    let head = s.plan_rows(rooms.drop_last(), now);
    if k < head.len() {
        plan_rows_are_placed(s, rooms.drop_last(), k, now)
    } else {
        (rooms.len() - 1, k - head.len())
    }
}

/// The rows that a report sorts.
proof fn report_source(s: EngineState, out: Seq<SensorSummaryView>, now: Timestamp) -> (extra: Seq<
    (Seq<char>, SensorSummaryView),
>)
    requires
        s.reports(out, now),
    ensures
        enumerates(extra, s.strays(now)),
        stable_sort_of::<SensorSummary>(
            out,
            s.plan_rows(s.structure.rooms@, now) + rows(extra),
        ),
        forall|v: SensorSummaryView| #[trigger]
            out.contains(v) <==> (s.plan_rows(s.structure.rooms@, now) + rows(extra)).contains(v),
{
    broadcast use vstd::seq_lib::group_to_multiset_ensures;

    let extra = choose|extra: Seq<(Seq<char>, SensorSummaryView)>|
        {
            &&& #[trigger] enumerates(extra, s.strays(now))
            &&& stable_sort_of::<SensorSummary>(
                out,
                s.plan_rows(s.structure.rooms@, now) + rows(extra),
            )
        };
    let all = s.plan_rows(s.structure.rooms@, now) + rows(extra);
    assert forall|v: SensorSummaryView| #[trigger] out.contains(v) <==> all.contains(v) by {
        assert(out.to_multiset().contains(v) <==> all.to_multiset().contains(v));
    }
    extra
}

/// The node report has a row for every node of the floor plan, under its room
/// and with its health.
pub proof fn report_lists_the_plan(
    s: EngineState,
    out: Seq<SensorSummaryView>,
    now: Timestamp,
    i: int,
    j: int,
)
    requires
        s.reports(out, now),
        0 <= i < s.structure.rooms@.len(),
        0 <= j < s.structure.rooms@[i].sensors@.len(),
    ensures
        exists|k: int|
            0 <= k < out.len() && is_placed(#[trigger] out[k], s, i, j) && tells_health(
                out[k],
                s,
                now,
            ),
{
    let rooms = s.structure.rooms@;
    let extra = report_source(s, out, now);
    let plan = s.plan_rows(rooms, now);
    let row = s.node_row(rooms[i].sensors@[j].id@, rooms[i].id, Some(rooms[i].name@), true, now);
    plan_rows_hold(s, rooms, i, j, now);
    let p = plan.index_of(row);
    assert((plan + rows(extra))[p] == row);
    assert(out.contains(row));
    let k = out.index_of(row);
    assert(is_placed(out[k], s, i, j));
}

/// The node report has a row for every node that reported without being in the
/// floor plan: under the room it reported for, with the label of that room where
/// the structure has it, and with its health.
pub proof fn report_lists_the_strays(
    s: EngineState,
    out: Seq<SensorSummaryView>,
    now: Timestamp,
    id: Seq<char>,
)
    requires
        s.reports(out, now),
        s.sensors.contains_key(id),
        unplaced(s, id),
    ensures
        exists|k: int|
            {
                let room_id = s.sensors[id].room_id;
                &&& 0 <= k < out.len()
                &&& (#[trigger] out[k]).id == id
                &&& !out[k].configured
                &&& out[k].room_id == Some(room_id)
                &&& s.structure.room_at(room_id) is Some ==> out[k].room_name == Some(
                    s.structure.room_at(room_id)->0.name@,
                )
                &&& s.structure.room_at(room_id) is None ==> out[k].room_name is None
                &&& tells_health(out[k], s, now)
            },
{
    let extra = report_source(s, out, now);
    let plan = s.plan_rows(s.structure.rooms@, now);
    assert(s.strays(now).contains_key(id));
    let e = choose|e: int| 0 <= e < extra.len() && (#[trigger] extra[e]).0 == id;
    let row = s.strays(now)[id];
    assert(extra[e].1 == row);
    assert((plan + rows(extra))[plan.len() + e] == row);
    assert(out.contains(row));
    let k = out.index_of(row);
    assert(out[k] == row);
}

/// The node report has no other rows: each is of a place of the floor plan, or
/// of a node that reported without having one.
pub proof fn report_lists_nothing_else(
    s: EngineState,
    out: Seq<SensorSummaryView>,
    now: Timestamp,
    k: int,
)
    requires
        s.reports(out, now),
        0 <= k < out.len(),
    ensures
        tells_health(out[k], s, now),
        out[k].configured ==> exists|i: int, j: int| #[trigger] is_placed(out[k], s, i, j),
        !out[k].configured ==> s.sensors.contains_key(out[k].id) && unplaced(s, out[k].id),
{
    let extra = report_source(s, out, now);
    let plan = s.plan_rows(s.structure.rooms@, now);
    let all = plan + rows(extra);
    assert(out.contains(out[k]));
    assert(all.contains(out[k]));
    let p = all.index_of(out[k]);
    if p < plan.len() {
        let (i, j) = plan_rows_are_placed(s, s.structure.rooms@, p, now);
        assert(plan[p] == out[k]);
        assert(is_placed(out[k], s, i, j));
    } else {
        let e = extra[p - plan.len()];
        assert(rows(extra)[p - plan.len()] == e.1);
        assert(s.strays(now).contains_key(e.0));
        assert(unplaced(s, e.0)) by {
            assert forall|i: int, j: int|
                0 <= i < s.structure.rooms@.len() && 0 <= j
                    < s.structure.rooms@[i].sensors@.len() implies (
            #[trigger] s.structure.rooms@[i].sensors@[j]).id@ != e.0 by {}
        }
    }
}

/// The node report goes by room label, nodes without one first, and under one
/// label by node id.
pub proof fn report_is_in_order(
    s: EngineState,
    out: Seq<SensorSummaryView>,
    now: Timestamp,
    i: int,
    j: int,
)
    requires
        s.reports(out, now),
        0 <= i < j < out.len(),
    ensures
        out[j].room_name is None ==> out[i].room_name is None,
        out[i].room_name is Some && out[j].room_name is Some ==> !text_before(
            out[j].room_name->0,
            out[i].room_name->0,
        ),
        out[i].room_name == out[j].room_name ==> !text_before(out[j].id, out[i].id),
{
    let extra = report_source(s, out, now);
    assert(!SensorSummary::ahead(out[j], out[i]));
}

/// A picture shows every room of the structure, in its order, as it is: its id,
/// label, storey and footprint, one contact or none, whether that moves, and the
/// occupancy that was reported.
pub proof fn pictures_show_the_rooms(
    s: EngineState,
    picture: TacticalPicture,
    now: Timestamp,
    i: int,
)
    requires
        s.pictured(picture, now),
        0 <= i < s.structure.rooms@.len(),
    ensures
        picture.rooms@.len() == s.structure.rooms@.len(),
        ({
            let room = s.structure.rooms@[i];
            let row = picture.rooms@[i];
            &&& row.room_id == room.id
            &&& row.room_name@ == room.name@
            &&& row.floor == room.floor
            &&& row.bounds == room.bounds
            &&& row.localizable <==> room.sensors@.len() >= 3
            &&& row.contact_count == (if s.contacts.contains_key(room.id) {
                1int
            } else {
                0
            })
            &&& row.any_moving <==> s.contacts.contains_key(room.id)
                && s.contacts[room.id].motion == Motion::Moving
            &&& row.occupancy_estimate == (if s.occupancy.contains_key(room.id) {
                s.occupancy[room.id] as int
            } else {
                0
            })
            &&& row.corroborated <==> s.contacts.contains_key(room.id) && row.mmwave is Some
                && row.mmwave->0.presence
        }),
{
    assert(views(picture.rooms@).len() == s.structure.rooms@.len());
    assert(views(picture.rooms@)[i] == picture.rooms@[i]@);
    assert(picture.rooms@[i]@ == s.row(s.structure.rooms@[i], now));
}

/// A picture shows of a room the radar reading that is held of it, with its age,
/// exactly where that is within the window.
pub proof fn pictures_show_the_radar(
    s: EngineState,
    picture: TacticalPicture,
    now: Timestamp,
    i: int,
)
    requires
        s.pictured(picture, now),
        0 <= i < s.structure.rooms@.len(),
    ensures
        ({
            let id = s.structure.rooms@[i].id;
            let held = s.mmwave[id];
            let age = now.seconds_since(held.last_seen);
            let shown = picture.rooms@[i].mmwave;
            &&& shown is Some <==> s.mmwave.contains_key(id) && 0 <= age
                <= s.config.mmwave_stale_secs
            &&& shown is Some ==> {
                &&& shown->0.presence == held.presence
                &&& shown->0.breathing_bpm == held.breathing_bpm
                &&& shown->0.heart_rate_bpm == held.heart_rate_bpm
                &&& shown->0.distance_cm == held.distance_cm
                &&& shown->0.targets == held.targets
                &&& shown->0.confidence == held.confidence
                &&& shown->0.age_secs == age
            }
        }),
{
    assert(views(picture.rooms@).len() == s.structure.rooms@.len());
    assert(views(picture.rooms@)[i] == picture.rooms@[i]@);
    assert(picture.rooms@[i]@ == s.row(s.structure.rooms@[i], now));
}

/// A picture carries every tracked contact as it is, and no other.
pub proof fn pictures_carry_the_contacts(
    s: EngineState,
    picture: TacticalPicture,
    now: Timestamp,
    id: RoomId,
    k: int,
)
    requires
        s.consistent(),
        s.pictured(picture, now),
    ensures
        s.contacts.contains_key(id) ==> picture.contacts@.contains(s.contacts[id]),
        0 <= k < picture.contacts@.len() ==> {
            let c = picture.contacts@[k];
            s.contacts.contains_key(c.room_id) && s.contacts[c.room_id] == c
        },
        forall|i: int, j: int|
            0 <= i < j < picture.contacts@.len() ==> (#[trigger] picture.contacts@[i]).room_id != (
            #[trigger] picture.contacts@[j]).room_id,
{
    let entries = by_room(picture.contacts@);
    if s.contacts.contains_key(id) {
        let e = choose|e: int| 0 <= e < entries.len() && (#[trigger] entries[e]).0 == id;
        assert(picture.contacts@[e] == s.contacts[id]);
    }
    if 0 <= k < picture.contacts@.len() {
        assert(entries[k] == (picture.contacts@[k].room_id, picture.contacts@[k]));
    }
    assert forall|i: int, j: int| 0 <= i < j < picture.contacts@.len() implies (
    #[trigger] picture.contacts@[i]).room_id != (#[trigger] picture.contacts@[j]).room_id by {
        assert(entries[i].0 != entries[j].0);
    }
}

/// The total of the estimates of rooms, counted up.
proof fn total_adds_up(s: EngineState, rooms: Seq<Room>, shown: Seq<RoomOccupancy>, now: Timestamp)
    requires
        views(shown) == rooms.map_values(|room: Room| s.row(room, now)),
    ensures
        s.people_in(rooms) == shown.fold_left(
            0int,
            |sum: int, r: RoomOccupancy| sum + r.occupancy_estimate,
        ),
    decreases rooms.len(),
{
    assert(views(shown).len() == rooms.len());
    if rooms.len() > 0 {
        let head = shown.drop_last();
        assert(views(head) =~= rooms.drop_last().map_values(|room: Room| s.row(room, now))) by {
            assert forall|i: int| 0 <= i < head.len() implies #[trigger] views(head)[i] == s.row(
                rooms[i],
                now,
            ) by {
                assert(views(shown)[i] == shown[i]@);
            }
        }
        total_adds_up(s, rooms.drop_last(), head, now);
        assert(views(shown)[rooms.len() - 1] == shown[rooms.len() - 1]@);
    }
}

/// The total of a picture is the sum of the estimates of its rooms, and the
/// counts of a picture are those of what it lists: rooms with a contact, nodes of
/// the plan, and nodes of the plan that report.
pub proof fn pictures_count_what_they_show(
    s: EngineState,
    picture: TacticalPicture,
    now: Timestamp,
)
    requires
        s.pictured(picture, now),
    ensures
        picture.total_occupancy_estimate == picture.rooms@.fold_left(
            0int,
            |sum: int, r: RoomOccupancy| sum + r.occupancy_estimate,
        ),
        picture.occupied_rooms == picture.rooms@.filter(
            |r: RoomOccupancy| r.contact_count > 0,
        ).len(),
        picture.sensors_total == picture.sensors@.filter(|n: SensorSummary| n.configured).len(),
        picture.sensors_reporting == picture.sensors@.filter(
            |n: SensorSummary| n.configured && n.reporting,
        ).len(),
{
    total_adds_up(s, s.structure.rooms@, picture.rooms@, now);
}

/// A picture is named after the structure, dated by when it was made, carries
/// the standing advisory, and has no Bluetooth devices yet.
pub proof fn pictures_are_labelled(s: EngineState, picture: TacticalPicture, now: Timestamp)
    requires
        s.pictured(picture, now),
    ensures
        picture.structure_name@ == s.structure.name@,
        picture.generated_at == now,
        picture.ble_devices@ == Seq::<BleDevice>::empty(),
        picture.advisory@
            == "Decision-support only. Contacts are anonymous human presence — NOT identified as hostage or suspect, NOT confirmed armed. Absence of a contact does not mean a room is empty. Corroborate before acting."@,
{
}

} // verus!
