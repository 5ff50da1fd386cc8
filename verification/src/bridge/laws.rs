//! What holds of the bridge as a whole.

use vstd::prelude::*;

use super::config::{
    distinct_ids, entry_extends, entry_in, flagged_in, ids_in, node_ids, primary_is_listed,
    primary_of, rooms_are_distinct, rooms_are_named, rooms_in, rooms_share_no_node, set_up,
    NodeCfg,
};
use super::frames::{power, sample_of, strongest, Sample};
use super::state::{
    drained, driver, heard_in, mapped, nodes_after, posts, primary_in, series, taken, BridgeView,
    Node, Nodes, Post, MAX_SAMPLES,
};
use crate::seqs::{filter_single, first, first_at, first_is_first, first_none};

verus! {

/// Whether all ids are of held nodes.
spec fn all_held(ids: Seq<u8>, nodes: Nodes) -> bool {
    forall|j: int| 0 <= j < ids.len() ==> nodes.contains_key(#[trigger] ids[j])
}

/// Whether two sets of nodes are the same but for the samples, of which the
/// second may have lost some.
spec fn only_emptied(before: Nodes, after: Nodes) -> bool {
    &&& after.dom() == before.dom()
    &&& forall|id: u8| #[trigger]
        before.contains_key(id) ==> {
            &&& after[id].sensor_id == before[id].sensor_id
            &&& after[id].is_primary == before[id].is_primary
            &&& after[id].last_rssi == before[id].last_rssi
            &&& after[id].samples == before[id].samples || after[id].samples.len() == 0
        }
}

/// The driver of a room rests on the primary nodes alone.
proof fn driver_stays(before: Nodes, after: Nodes, ids: Seq<u8>)
    requires
        only_emptied(before, after),
        all_held(ids, before),
    ensures
        driver(after, ids) == driver(before, ids),
        driver(before, ids) is Some ==> before.contains_key(driver(before, ids)->0),
{
    let p = primary_in(before);
    let q = primary_in(after);
    first_is_first(ids, p);
    match first(ids, p) {
        Some(x) => {
            let i = choose|i: int|
                0 <= i < ids.len() && #[trigger] ids[i] == x && p(x) && (forall|j: int|
                    0 <= j < i ==> !p(#[trigger] ids[j]));
            assert(before.contains_key(ids[i]));
            assert forall|j: int| 0 <= j < i implies !q(#[trigger] ids[j]) by {
                assert(before.contains_key(ids[j]));
                assert(!p(ids[j]));
            }
            first_at(ids, q, i);
        },
        None => {
            assert forall|j: int| 0 <= j < ids.len() implies !q(#[trigger] ids[j]) by {
                assert(before.contains_key(ids[j]));
                assert(!p(ids[j]));
            }
            first_none(ids, q);
        },
    }
}

/// Draining rooms empties series and changes nothing else; every drained room
/// has no series left.
proof fn drain_empties(b: BridgeView, n: int)
    requires
        b.linked(),
        0 <= n <= b.rooms.len(),
    ensures
        only_emptied(b.nodes, drained(b.nodes, b.rooms.take(n), b.room_nodes)),
        forall|i: int|
            0 <= i < n ==> series(
                drained(b.nodes, b.rooms.take(n), b.room_nodes),
                b.room_nodes[#[trigger] b.rooms[i]],
            ).len() == 0,
    decreases n,
{
    let after = drained(b.nodes, b.rooms.take(n), b.room_nodes);
    if n > 0 {
        drain_empties(b, n - 1);
        let mid = drained(b.nodes, b.rooms.take(n - 1), b.room_nodes);
        let room = b.rooms[n - 1];
        let ids = b.room_nodes[room];
        assert(b.rooms.take(n).drop_last() =~= b.rooms.take(n - 1));
        assert(b.rooms.take(n).last() == room);
        assert(after == taken(mid, ids));
        assert(all_held(ids, b.nodes)) by {
            assert(b.room_nodes.contains_key(room));
            assert forall|j: int| 0 <= j < ids.len() implies b.nodes.contains_key(
                #[trigger] ids[j],
            ) by {
                assert(b.nodes.contains_key(b.room_nodes[room][j]));
            }
        }
        driver_stays(b.nodes, mid, ids);
        assert(after.dom() =~= b.nodes.dom());
        assert forall|i: int| 0 <= i < n implies series(
            after,
            b.room_nodes[#[trigger] b.rooms[i]],
        ).len() == 0 by {
            let r = b.rooms[i];
            let these = b.room_nodes[r];
            assert(b.room_nodes.contains_key(r));
            assert forall|j: int| 0 <= j < these.len() implies b.nodes.contains_key(
                #[trigger] these[j],
            ) by {
                assert(b.nodes.contains_key(b.room_nodes[r][j]));
            }
            driver_stays(b.nodes, mid, these);
            driver_stays(b.nodes, after, these);
            if i < n - 1 {
                assert(series(mid, b.room_nodes[b.rooms[i]]).len() == 0);
            }
        }
    } else {
        assert(b.rooms.take(0) =~= Seq::empty());
    }
}

/// A second drain without new frames gives no payload.
pub proof fn second_drain_is_empty(b: BridgeView)
    requires
        b.linked(),
    ensures
        b.emptied().payloads() == Seq::<Post>::empty(),
        b.emptied().emptied() == b.emptied(),
{
    let after = b.emptied();
    let n = b.rooms.len() as int;
    assert(b.rooms.take(n) =~= b.rooms);
    drain_empties(b, n);
    assert(after.linked()) by {
        assert forall|room: Seq<char>, j: int|
            #![trigger after.room_nodes[room][j]]
            after.room_nodes.contains_key(room) && 0 <= j
                < after.room_nodes[room].len() implies after.nodes.contains_key(
            after.room_nodes[room][j],
        ) by {
            assert(b.nodes.contains_key(b.room_nodes[room][j]));
            assert(after.nodes.dom().contains(b.room_nodes[room][j]));
        }
    }
    nothing_to_drain(after, n);
    assert(after.emptied() =~= after);
}

/// Where the rooms have no series, a drain gives no payload and changes nothing.
proof fn nothing_to_drain(b: BridgeView, n: int)
    requires
        b.linked(),
        0 <= n <= b.rooms.len(),
        forall|i: int|
            0 <= i < b.rooms.len() ==> series(
                b.nodes,
                b.room_nodes[#[trigger] b.rooms[i]],
            ).len() == 0,
    ensures
        drained(b.nodes, b.rooms.take(n), b.room_nodes) == b.nodes,
        posts(b.nodes, b.rooms.take(n), b.room_nodes) == Seq::<Post>::empty(),
    decreases n,
{
    if n > 0 {
        nothing_to_drain(b, n - 1);
        let room = b.rooms[n - 1];
        let ids = b.room_nodes[room];
        assert(b.rooms.take(n).drop_last() =~= b.rooms.take(n - 1));
        assert(b.rooms.take(n).last() == room);
        assert(series(b.nodes, ids).len() == 0);
        assert(b.room_nodes.contains_key(room));
        assert forall|j: int| 0 <= j < ids.len() implies b.nodes.contains_key(#[trigger] ids[j]) by {
            assert(b.nodes.contains_key(b.room_nodes[room][j]));
        }
        driver_stays(b.nodes, b.nodes, ids);
        if driver(b.nodes, ids) is Some {
            let id = driver(b.nodes, ids)->0;
            assert(b.nodes[id].samples =~= Seq::empty());
            assert(b.nodes.insert(id, Node { samples: Seq::empty(), ..b.nodes[id] }) =~= b.nodes);
        }
    } else {
        assert(b.rooms.take(0) =~= Seq::empty());
    }
}

/// A frame of a node that is not configured changes nothing and is not counted.
pub proof fn unlisted_nodes_are_skipped(b: BridgeView, frame: (u8, i8, Seq<(i16, i16)>))
    requires
        !b.nodes.contains_key(frame.0),
    ensures
        b.fed(seq![frame]) == b,
        mapped(b.nodes, seq![frame]) == 0,
{
    let none = Seq::<(u8, i8, Seq<(i16, i16)>)>::empty();
    let p = |f: (u8, i8, Seq<(i16, i16)>)| b.nodes.contains_key(f.0);
    assert(seq![frame].drop_last() =~= none);
    assert(nodes_after(b.nodes, none) == b.nodes);
    assert(seq![frame] =~= none.push(frame));
    none.lemma_filter_push(frame, p);
    assert(none.filter(p) =~= none);
}

/// Over any frames, every node keeps its place, its floor-plan id and whether it
/// is primary; a node that is not primary buffers nothing; and no buffer grows
/// over its bound.
pub proof fn frames_keep_the_nodes(
    nodes: Nodes,
    frames: Seq<(u8, i8, Seq<(i16, i16)>)>,
    id: u8,
)
    requires
        nodes.contains_key(id),
    ensures
        nodes_after(nodes, frames).dom() == nodes.dom(),
        nodes_after(nodes, frames)[id].sensor_id == nodes[id].sensor_id,
        nodes_after(nodes, frames)[id].is_primary == nodes[id].is_primary,
        !nodes[id].is_primary ==> nodes_after(nodes, frames)[id].samples == nodes[id].samples,
        nodes[id].samples.len() <= MAX_SAMPLES ==> nodes_after(nodes, frames)[id].samples.len()
            <= MAX_SAMPLES,
    decreases frames.len(),
{
    if frames.len() > 0 {
        frames_keep_the_nodes(nodes, frames.drop_last(), id);
        if nodes.contains_key(frames.last().0) {
            frames_keep_the_nodes(nodes, frames.drop_last(), frames.last().0);
        }
        assert(nodes_after(nodes, frames).dom() =~= nodes.dom());
    }
}

/// Frames taken in two batches give what one batch gives.
pub proof fn batches_add_up(
    b: BridgeView,
    x: Seq<(u8, i8, Seq<(i16, i16)>)>,
    y: Seq<(u8, i8, Seq<(i16, i16)>)>,
)
    ensures
        b.fed(x).fed(y) == b.fed(x + y),
    decreases y.len(),
{
    if y.len() == 0 {
        assert(x + y =~= x);
    } else {
        batches_add_up(b, x, y.drop_last());
        assert((x + y).drop_last() =~= x + y.drop_last());
        assert((x + y).last() == y.last());
        nodes_stay(b.nodes, x);
    }
}

/// Frames add no node and take none away.
proof fn nodes_stay(nodes: Nodes, frames: Seq<(u8, i8, Seq<(i16, i16)>)>)
    ensures
        nodes_after(nodes, frames).dom() == nodes.dom(),
    decreases frames.len(),
{
    if frames.len() > 0 {
        nodes_stay(nodes, frames.drop_last());
        assert(nodes_after(nodes, frames).dom() =~= nodes.dom());
    }
}

/// A payload carries the signal strength of every node of its room that was
/// heard, primary or not.
pub proof fn every_heard_node_is_reported(nodes: Nodes, ids: Seq<u8>, j: int)
    requires
        0 <= j < ids.len(),
        nodes[ids[j]].last_rssi is Some,
    ensures
        heard_in(nodes, ids).contains((nodes[ids[j]].sensor_id, nodes[ids[j]].last_rssi->0)),
{
    let p = |id: u8| nodes[id].last_rssi is Some;
    let kept = ids.filter(p);
    ids.lemma_filter_contains(p, j);
    let k = kept.index_of(ids[j]);
    assert(heard_in(nodes, ids)[k] == (nodes[ids[j]].sensor_id, nodes[ids[j]].last_rssi->0));
}

/// Where no node is configured twice, exactly one node of a room is primary, and
/// it drives the room: the first flagged one, else the first listed.
pub proof fn one_node_drives_a_room(b: BridgeView, cfg: Seq<NodeCfg>, room: Seq<char>)
    requires
        set_up(b, cfg),
        distinct_ids(cfg),
        rooms_in(cfg).contains(room),
    ensures
        driver(b.nodes, ids_in(cfg, room)) == Some(primary_of(cfg, room)),
        ids_in(cfg, room).filter(primary_in(b.nodes)) == seq![primary_of(cfg, room)],
        flagged_in(cfg)(primary_of(cfg, room)) || forall|j: int|
            0 <= j < ids_in(cfg, room).len() ==> !flagged_in(cfg)(#[trigger] ids_in(cfg, room)[j]),
{
    let ids = ids_in(cfg, room);
    let p = primary_in(b.nodes);
    let at = rooms_in(cfg).index_of(room);
    rooms_are_named(cfg);
    assert(ids_in(cfg, rooms_in(cfg)[at]).len() > 0);
    primary_is_listed(cfg, room);
    let k = choose|k: int|
        0 <= k < ids.len() && #[trigger] ids_in(cfg, room)[k] == primary_of(cfg, room);
    assert(p(ids_in(cfg, room)[k]));
    assert forall|j: int| 0 <= j < ids.len() && j != k implies !p(#[trigger] ids[j]) by {
        if ids[j] == ids[k] {
            listed_once(cfg, room, j, k);
        }
        assert(ids_in(cfg, room)[j] != primary_of(cfg, room));
    }
    first_at(ids, p, k);
    filter_single(ids, p, k);
    first_is_first(ids, flagged_in(cfg));
}

/// Where no node is configured twice, a room lists no node twice.
proof fn listed_once(cfg: Seq<NodeCfg>, room: Seq<char>, i: int, j: int)
    requires
        distinct_ids(cfg),
        0 <= i < ids_in(cfg, room).len(),
        0 <= j < ids_in(cfg, room).len(),
        ids_in(cfg, room)[i] == ids_in(cfg, room)[j],
    ensures
        i == j,
    decreases cfg.len(),
{
    if cfg.len() == 0 {
        assert(cfg.filter(entry_in(room)) =~= Seq::<NodeCfg>::empty());
    } else {
        let head = cfg.drop_last();
        let n = cfg.len() - 1;
        assert(cfg.take(n + 1) =~= cfg);
        assert(cfg.take(n) =~= head);
        entry_extends(cfg, n, room);
        assert(node_ids(head).no_duplicates()) by {
            assert forall|x: int, y: int|
                0 <= x < head.len() && 0 <= y < head.len() && x != y implies node_ids(head)[x]
                != node_ids(head)[y] by {
                assert(node_ids(cfg)[x] != node_ids(cfg)[y]);
            }
        }
        let before = ids_in(head, room);
        if i < before.len() && j < before.len() {
            listed_once(head, room, i, j);
        } else if i < before.len() {
            fresh_entry(cfg, room, i);
        } else if j < before.len() {
            fresh_entry(cfg, room, j);
        }
    }
}

/// Where no node is configured twice, no earlier entry of a room is for the node
/// of the last entry.
proof fn fresh_entry(cfg: Seq<NodeCfg>, room: Seq<char>, i: int)
    requires
        cfg.len() > 0,
        distinct_ids(cfg),
        0 <= i < ids_in(cfg.drop_last(), room).len(),
    ensures
        ids_in(cfg.drop_last(), room)[i] != cfg.last().node_id,
{
    let head = cfg.drop_last();
    let p = entry_in(room);
    let kept = head.filter(p);
    head.lemma_filter_contains_rev(p, kept[i]);
    let k = head.index_of(kept[i]);
    assert(node_ids(cfg)[k] != node_ids(cfg)[cfg.len() - 1]);
}

/// The strongest subcarrier is one of the frame's, no other is stronger, and
/// there is one unless the frame has none.
pub proof fn strongest_is_strongest(pairs: Seq<(i16, i16)>)
    ensures
        strongest(pairs) is None <==> pairs.len() == 0,
        strongest(pairs) is Some ==> pairs.contains(strongest(pairs)->0),
        forall|j: int|
            0 <= j < pairs.len() ==> power(#[trigger] pairs[j]) <= power(strongest(pairs)->0),
    decreases pairs.len(),
{
    if pairs.len() > 0 {
        let head = pairs.drop_last();
        strongest_is_strongest(head);
        assert forall|j: int| 0 <= j < pairs.len() implies power(#[trigger] pairs[j]) <= power(
            strongest(pairs)->0,
        ) by {
            if j < head.len() {
                assert(head[j] == pairs[j]);
            }
        }
        if strongest(head) is Some {
            let k = head.index_of(strongest(head)->0);
            assert(pairs[k] == strongest(head)->0);
        }
        assert(pairs[pairs.len() - 1] == pairs.last());
    }
}

/// A drain keeps everything of the nodes but their series: who they are, whether
/// they are primary, and the signal strength that they last had.
pub proof fn drain_keeps_signal_strengths(b: BridgeView, id: u8)
    requires
        b.linked(),
        b.nodes.contains_key(id),
    ensures
        b.emptied().nodes.dom() == b.nodes.dom(),
        b.emptied().nodes[id].last_rssi == b.nodes[id].last_rssi,
        b.emptied().nodes[id].sensor_id == b.nodes[id].sensor_id,
        b.emptied().nodes[id].is_primary == b.nodes[id].is_primary,
{
    assert(b.rooms.take(b.rooms.len() as int) =~= b.rooms);
    drain_empties(b, b.rooms.len() as int);
}

/// A drain gives at most one payload for a room, in the order of the rooms, and
/// none without a series.
pub proof fn one_payload_per_room(b: BridgeView, i: int, j: int)
    requires
        b.linked(),
        0 <= i < j < b.payloads().len(),
    ensures
        b.payloads()[i].room != b.payloads()[j].room,
        b.rooms.index_of(b.payloads()[i].room) < b.rooms.index_of(b.payloads()[j].room),
        b.payloads()[i].samples.len() > 0,
        b.payloads()[j].samples.len() > 0,
{
    assert(b.rooms.take(b.rooms.len() as int) =~= b.rooms);
    payload_places(b, b.rooms.len() as int);
    let x = b.payloads()[i].room;
    let y = b.payloads()[j].room;
    assert(b.rooms.contains(x));
    assert(b.rooms.contains(y));
}

/// Whether no node serves two rooms.
pub open spec fn rooms_apart(b: BridgeView) -> bool {
    forall|i: int, x: int, j: int, y: int|
        #![trigger b.room_nodes[b.rooms[i]][x], b.room_nodes[b.rooms[j]][y]]
        0 <= i < b.rooms.len() && 0 <= j < b.rooms.len() && i != j && 0 <= x
            < b.room_nodes[b.rooms[i]].len() && 0 <= y < b.room_nodes[b.rooms[j]].len()
            ==> b.room_nodes[b.rooms[i]][x] != b.room_nodes[b.rooms[j]][y]
}

/// The condition that a room has buffered a series.
pub open spec fn has_series(b: BridgeView) -> spec_fn(Seq<char>) -> bool {
    |room: Seq<char>| series(b.nodes, b.room_nodes[room]).len() > 0
}

/// What a room has to send: its series, and the signal strengths of its nodes
/// that were heard.
pub open spec fn owed(b: BridgeView) -> spec_fn(Seq<char>) -> Post {
    |room: Seq<char>|
        Post {
            room,
            samples: series(b.nodes, b.room_nodes[room]),
            sensor_rssi: heard_in(b.nodes, b.room_nodes[room]),
        }
}

/// Where no node serves two rooms, a drain sends for each room that has buffered
/// a series exactly what it had before the drain, and nothing for the others.
pub proof fn each_room_sends_its_own(b: BridgeView)
    requires
        b.linked(),
        rooms_apart(b),
    ensures
        b.payloads() == b.rooms.filter(has_series(b)).map_values(owed(b)),
{
    assert(b.rooms.take(b.rooms.len() as int) =~= b.rooms);
    rooms_send_their_own(b, b.rooms.len() as int);
}

/// Where no node is configured twice, no node of the bridge serves two rooms.
pub proof fn distinct_nodes_keep_rooms_apart(b: BridgeView, cfg: Seq<NodeCfg>)
    requires
        set_up(b, cfg),
        distinct_ids(cfg),
    ensures
        rooms_apart(b),
{
    rooms_are_distinct(cfg);
    assert forall|i: int, x: int, j: int, y: int|
        #![trigger b.room_nodes[b.rooms[i]][x], b.room_nodes[b.rooms[j]][y]]
        0 <= i < b.rooms.len() && 0 <= j < b.rooms.len() && i != j && 0 <= x
            < b.room_nodes[b.rooms[i]].len() && 0 <= y
            < b.room_nodes[b.rooms[j]].len() implies b.room_nodes[b.rooms[i]][x]
        != b.room_nodes[b.rooms[j]][y] by {
        assert(rooms_in(cfg).contains(b.rooms[i]));
        assert(rooms_in(cfg).contains(b.rooms[j]));
        if ids_in(cfg, b.rooms[i])[x] == ids_in(cfg, b.rooms[j])[y] {
            rooms_share_no_node(cfg, b.rooms[i], x, b.rooms[j], y);
        }
    }
}

/// What the first `n` rooms send is what they had before the drain.
proof fn rooms_send_their_own(b: BridgeView, n: int)
    requires
        b.linked(),
        rooms_apart(b),
        0 <= n <= b.rooms.len(),
    ensures
        posts(b.nodes, b.rooms.take(n), b.room_nodes) == b.rooms.take(n).filter(
            has_series(b),
        ).map_values(owed(b)),
    decreases n,
{
    let p = has_series(b);
    let f = owed(b);
    if n == 0 {
        assert(b.rooms.take(0) =~= Seq::empty());
        assert(Seq::<Seq<char>>::empty().filter(p) =~= Seq::empty());
        assert(Seq::<Seq<char>>::empty().map_values(f) =~= Seq::empty());
    } else {
        rooms_send_their_own(b, n - 1);
        drain_leaves_others(b, n - 1);
        let head = b.rooms.take(n - 1);
        let room = b.rooms[n - 1];
        let ids = b.room_nodes[room];
        let mid = drained(b.nodes, head, b.room_nodes);
        assert(b.rooms.take(n).drop_last() =~= head);
        assert(b.rooms.take(n).last() == room);
        assert(b.rooms.take(n) =~= head.push(room));
        assert(nodes_agree(mid, b.nodes, ids)) by {
            assert forall|y: int| 0 <= y < ids.len() implies mid[#[trigger] ids[y]]
                == b.nodes[ids[y]] by {
                assert(b.room_nodes[b.rooms[n - 1]][y] == ids[y]);
            }
        }
        same_series(mid, b.nodes, ids);
        same_heard(mid, b.nodes, ids);
        head.lemma_filter_push(room, p);
        let kept = head.filter(p);
        assert(kept.push(room).map_values(f) =~= kept.map_values(f).push(f(room)));
    }
}

/// Whether two sets of nodes agree on nodes.
spec fn nodes_agree(a: Nodes, b: Nodes, ids: Seq<u8>) -> bool {
    forall|y: int| 0 <= y < ids.len() ==> a[#[trigger] ids[y]] == b[ids[y]]
}

/// The series of a room rests on its nodes alone.
proof fn same_series(a: Nodes, b: Nodes, ids: Seq<u8>)
    requires
        nodes_agree(a, b, ids),
    ensures
        series(a, ids) == series(b, ids),
{
    let p = primary_in(a);
    let q = primary_in(b);
    first_is_first(ids, p);
    match first(ids, p) {
        Some(x) => {
            let i = choose|i: int|
                0 <= i < ids.len() && #[trigger] ids[i] == x && p(x) && (forall|j: int|
                    0 <= j < i ==> !p(#[trigger] ids[j]));
            assert forall|j: int| 0 <= j < i implies !q(#[trigger] ids[j]) by {
                assert(!p(ids[j]));
            }
            first_at(ids, q, i);
        },
        None => {
            assert forall|j: int| 0 <= j < ids.len() implies !q(#[trigger] ids[j]) by {
                assert(!p(ids[j]));
            }
            first_none(ids, q);
        },
    }
}

/// The signal strengths of a room rest on its nodes alone.
proof fn same_heard(a: Nodes, b: Nodes, ids: Seq<u8>)
    requires
        nodes_agree(a, b, ids),
    ensures
        heard_in(a, ids) == heard_in(b, ids),
    decreases ids.len(),
{
    let p = |id: u8| a[id].last_rssi is Some;
    let q = |id: u8| b[id].last_rssi is Some;
    let f = |id: u8| (a[id].sensor_id, a[id].last_rssi->0);
    let g = |id: u8| (b[id].sensor_id, b[id].last_rssi->0);
    if ids.len() == 0 {
        assert(ids.filter(p) =~= ids);
        assert(ids.filter(q) =~= ids);
        assert(heard_in(a, ids) =~= heard_in(b, ids));
    } else {
        let head = ids.drop_last();
        let id = ids.last();
        assert(nodes_agree(a, b, head)) by {
            assert forall|y: int| 0 <= y < head.len() implies a[#[trigger] head[y]]
                == b[head[y]] by {
                assert(ids[y] == head[y]);
            }
        }
        same_heard(a, b, head);
        assert(a[ids[ids.len() - 1]] == b[ids[ids.len() - 1]]);
        assert(ids =~= head.push(id));
        head.lemma_filter_push(id, p);
        head.lemma_filter_push(id, q);
        assert(head.filter(p).push(id).map_values(f) =~= heard_in(a, head).push(f(id)));
        assert(head.filter(q).push(id).map_values(g) =~= heard_in(b, head).push(g(id)));
    }
}

/// Draining the first `n` rooms leaves the nodes of the others as they are.
proof fn drain_leaves_others(b: BridgeView, n: int)
    requires
        rooms_apart(b),
        0 <= n <= b.rooms.len(),
    ensures
        forall|j: int, y: int|
            #![trigger b.room_nodes[b.rooms[j]][y]]
            n <= j < b.rooms.len() && 0 <= y < b.room_nodes[b.rooms[j]].len() ==> drained(
                b.nodes,
                b.rooms.take(n),
                b.room_nodes,
            )[b.room_nodes[b.rooms[j]][y]] == b.nodes[b.room_nodes[b.rooms[j]][y]],
    decreases n,
{
    if n > 0 {
        drain_leaves_others(b, n - 1);
        let mid = drained(b.nodes, b.rooms.take(n - 1), b.room_nodes);
        let ids = b.room_nodes[b.rooms[n - 1]];
        assert(b.rooms.take(n).drop_last() =~= b.rooms.take(n - 1));
        assert(b.rooms.take(n).last() == b.rooms[n - 1]);
        first_is_first(ids, primary_in(mid));
        if driver(mid, ids) is Some {
            let x = choose|x: int| 0 <= x < ids.len() && #[trigger] ids[x] == driver(mid, ids)->0;
            assert forall|j: int, y: int|
                #![trigger b.room_nodes[b.rooms[j]][y]]
                n <= j < b.rooms.len() && 0 <= y < b.room_nodes[b.rooms[j]].len() implies taken(
                mid,
                ids,
            )[b.room_nodes[b.rooms[j]][y]] == b.nodes[b.room_nodes[b.rooms[j]][y]] by {
                assert(b.room_nodes[b.rooms[n - 1]][x] != b.room_nodes[b.rooms[j]][y]);
            }
        }
    } else {
        assert(b.rooms.take(0) =~= Seq::empty());
    }
}

/// The payloads of the first `n` rooms are of rooms among them, in their order.
proof fn payload_places(b: BridgeView, n: int)
    requires
        b.rooms.no_duplicates(),
        0 <= n <= b.rooms.len(),
    ensures
        forall|i: int|
            0 <= i < posts(b.nodes, b.rooms.take(n), b.room_nodes).len() ==> {
                let p = #[trigger] posts(b.nodes, b.rooms.take(n), b.room_nodes)[i];
                &&& b.rooms.contains(p.room)
                &&& 0 <= b.rooms.index_of(p.room) < n
                &&& p.samples.len() > 0
            },
        forall|i: int, j: int|
            0 <= i < j < posts(b.nodes, b.rooms.take(n), b.room_nodes).len() ==> b.rooms.index_of(
                (#[trigger] posts(b.nodes, b.rooms.take(n), b.room_nodes)[i]).room,
            ) < b.rooms.index_of(
                (#[trigger] posts(b.nodes, b.rooms.take(n), b.room_nodes)[j]).room,
            ),
    decreases n,
{
    if n > 0 {
        payload_places(b, n - 1);
        let room = b.rooms[n - 1];
        assert(b.rooms.take(n).drop_last() =~= b.rooms.take(n - 1));
        assert(b.rooms.take(n).last() == room);
        assert(b.rooms.contains(room));
        assert(b.rooms.index_of(room) == n - 1) by {
            let k = b.rooms.index_of(room);
            assert(b.rooms[k] == b.rooms[n - 1]);
        }
        let before = posts(b.nodes, b.rooms.take(n - 1), b.room_nodes);
        let after = posts(b.nodes, b.rooms.take(n), b.room_nodes);
        assert(after == before || (after.len() == before.len() + 1 && after.drop_last() =~= before
            && after.last().room == room && after.last().samples.len() > 0));
        assert forall|i: int| 0 <= i < after.len() implies {
            let p = #[trigger] after[i];
            &&& b.rooms.contains(p.room)
            &&& 0 <= b.rooms.index_of(p.room) < n
            &&& p.samples.len() > 0
        } by {
            if i < before.len() {
                assert(after[i] == before[i]);
            }
        }
        assert forall|i: int, j: int| 0 <= i < j < after.len() implies b.rooms.index_of(
            (#[trigger] after[i]).room,
        ) < b.rooms.index_of((#[trigger] after[j]).room) by {
            assert(after[i] == before[i]);
            if j < before.len() {
                assert(after[j] == before[j]);
            }
        }
    } else {
        assert(b.rooms.take(0) =~= Seq::empty());
    }
}

/// After frames came in, the signal strength held of a node is that of the last
/// of these frames that is of the node, and unchanged where none is.
pub proof fn last_frame_sets_the_strength(
    nodes: Nodes,
    frames: Seq<(u8, i8, Seq<(i16, i16)>)>,
    id: u8,
    k: int,
)
    requires
        nodes.contains_key(id),
    ensures
        0 <= k < frames.len() && frames[k].0 == id && (forall|j: int|
            k < j < frames.len() ==> (#[trigger] frames[j]).0 != id) ==> nodes_after(
            nodes,
            frames,
        )[id].last_rssi == Some(frames[k].1),
        (forall|j: int| 0 <= j < frames.len() ==> (#[trigger] frames[j]).0 != id) ==> nodes_after(
            nodes,
            frames,
        )[id].last_rssi == nodes[id].last_rssi,
    decreases frames.len(),
{
    if frames.len() > 0 {
        let head = frames.drop_last();
        last_frame_sets_the_strength(nodes, head, id, k);
        if 0 <= k < frames.len() - 1 && frames[k].0 == id && (forall|j: int|
            k < j < frames.len() ==> (#[trigger] frames[j]).0 != id) {
            assert(frames[frames.len() - 1].0 != id);
            assert forall|j: int| k < j < head.len() implies (#[trigger] head[j]).0 != id by {
                assert(frames[j].0 != id);
            }
        }
        if forall|j: int| 0 <= j < frames.len() ==> (#[trigger] frames[j]).0 != id {
            assert(frames[frames.len() - 1].0 != id);
            assert forall|j: int| 0 <= j < head.len() implies (#[trigger] head[j]).0 != id by {
                assert(frames[j].0 != id);
            }
        }
    }
}

/// The condition that a frame is of a node.
pub open spec fn sent_by(id: u8) -> spec_fn((u8, i8, Seq<(i16, i16)>)) -> bool {
    |f: (u8, i8, Seq<(i16, i16)>)| f.0 == id
}

/// The sample that each frame gives.
pub open spec fn sampled() -> spec_fn((u8, i8, Seq<(i16, i16)>)) -> Sample {
    |f: (u8, i8, Seq<(i16, i16)>)| sample_of(f)
}

/// The samples of the frames of a node.
pub open spec fn samples_of(frames: Seq<(u8, i8, Seq<(i16, i16)>)>, id: u8) -> Seq<Sample> {
    frames.filter(sent_by(id)).map_values(sampled())
}

/// One more frame adds its sample to those of its node, and to no other.
proof fn samples_grow(frames: Seq<(u8, i8, Seq<(i16, i16)>)>, id: u8)
    requires
        frames.len() > 0,
    ensures
        samples_of(frames, id) == (if frames.last().0 == id {
            samples_of(frames.drop_last(), id).push(sample_of(frames.last()))
        } else {
            samples_of(frames.drop_last(), id)
        }),
{
    let p = sent_by(id);
    let g = sampled();
    let head = frames.drop_last();
    assert(frames =~= head.push(frames.last()));
    head.lemma_filter_push(frames.last(), p);
    let kept = head.filter(p);
    assert(kept.push(frames.last()).map_values(g) =~= kept.map_values(g).push(
        sample_of(frames.last()),
    ));
}

/// After frames came in, a primary node holds what it held and behind it one
/// sample for each of its frames, in their order; of more than 4000 the latest
/// 4000. Any other node holds what it held.
pub proof fn series_follow_the_frames(
    nodes: Nodes,
    frames: Seq<(u8, i8, Seq<(i16, i16)>)>,
    id: u8,
)
    requires
        nodes.contains_key(id),
        nodes[id].samples.len() <= 4000,
    ensures
        ({
            let all = nodes[id].samples + samples_of(frames, id);
            let held = nodes_after(nodes, frames)[id].samples;
            &&& !nodes[id].is_primary ==> held == nodes[id].samples
            &&& nodes[id].is_primary && all.len() <= 4000 ==> held == all
            &&& nodes[id].is_primary && all.len() > 4000 ==> held == all.skip(all.len() - 4000)
        }),
    decreases frames.len(),
{
    let before = nodes[id].samples;
    frames_keep_the_nodes(nodes, frames, id);
    if nodes[id].is_primary {
        if frames.len() == 0 {
            let none = samples_of(frames, id);
            assert(frames.filter(sent_by(id)) =~= frames);
            assert(none =~= Seq::empty());
            assert(before + none =~= before);
        } else {
            let head = frames.drop_last();
            series_follow_the_frames(nodes, head, id);
            frames_keep_the_nodes(nodes, head, id);
            samples_grow(frames, id);
            let was = before + samples_of(head, id);
            let held = nodes_after(nodes, head)[id].samples;
            if frames.last().0 == id {
                let x = sample_of(frames.last());
                let all = before + samples_of(frames, id);
                assert(all =~= was.push(x));
                if was.len() > 4000 {
                    assert(held.push(x).skip(1) =~= all.skip(all.len() - 4000));
                } else if was.len() == 4000 {
                    assert(held.push(x).skip(1) =~= all.skip(1));
                }
            }
        }
    }
}

/// The sample of a frame holds the subcarriers of the frame as they are. Its
/// strongest is one that no other is above, counting the squares of both parts,
/// and the last of those where there are several.
pub proof fn samples_hold_the_frame(frame: (u8, i8, Seq<(i16, i16)>), k: int)
    ensures
        sample_of(frame).subcarriers == frame.2,
        frame.2.len() == 0 ==> sample_of(frame).strongest is None,
        0 <= k < frame.2.len() && (forall|j: int|
            0 <= j < frame.2.len() ==> (#[trigger] frame.2[j]).0 * frame.2[j].0 + frame.2[j].1
                * frame.2[j].1 <= frame.2[k].0 * frame.2[k].0 + frame.2[k].1 * frame.2[k].1) && (
        forall|j: int|
            k < j < frame.2.len() ==> (#[trigger] frame.2[j]).0 * frame.2[j].0 + frame.2[j].1
                * frame.2[j].1 < frame.2[k].0 * frame.2[k].0 + frame.2[k].1 * frame.2[k].1)
            ==> sample_of(frame).strongest == Some(frame.2[k]),
{
    let pairs = frame.2;
    if 0 <= k < pairs.len() && (forall|j: int|
        0 <= j < pairs.len() ==> (#[trigger] pairs[j]).0 * pairs[j].0 + pairs[j].1 * pairs[j].1
            <= pairs[k].0 * pairs[k].0 + pairs[k].1 * pairs[k].1) && (forall|j: int|
        k < j < pairs.len() ==> (#[trigger] pairs[j]).0 * pairs[j].0 + pairs[j].1 * pairs[j].1
            < pairs[k].0 * pairs[k].0 + pairs[k].1 * pairs[k].1) {
        assert forall|j: int| 0 <= j < pairs.len() implies power(#[trigger] pairs[j]) <= power(
            pairs[k],
        ) by {}
        assert forall|j: int| k < j < pairs.len() implies power(#[trigger] pairs[j]) < power(
            pairs[k],
        ) by {}
        last_strongest(pairs, k);
    }
}

/// The strongest subcarrier is the last that no other is above.
proof fn last_strongest(pairs: Seq<(i16, i16)>, k: int)
    requires
        0 <= k < pairs.len(),
        forall|j: int| 0 <= j < pairs.len() ==> power(#[trigger] pairs[j]) <= power(pairs[k]),
        forall|j: int| k < j < pairs.len() ==> power(#[trigger] pairs[j]) < power(pairs[k]),
    ensures
        strongest(pairs) == Some(pairs[k]),
    decreases pairs.len(),
{
    let head = pairs.drop_last();
    if k < pairs.len() - 1 {
        assert forall|j: int| 0 <= j < head.len() implies power(#[trigger] head[j]) <= power(
            head[k],
        ) by {
            assert(pairs[j] == head[j]);
        }
        assert forall|j: int| k < j < head.len() implies power(#[trigger] head[j]) < power(
            head[k],
        ) by {
            assert(pairs[j] == head[j]);
        }
        last_strongest(head, k);
        assert(power(pairs[pairs.len() - 1]) < power(pairs[k]));
    } else {
        strongest_is_strongest(head);
        if strongest(head) is Some {
            let m = head.index_of(strongest(head)->0);
            assert(power(pairs[m]) <= power(pairs[k]));
        }
    }
}

/// Frames are counted one by one: a frame of a configured node as one, any other
/// not at all.
pub proof fn frames_are_counted(
    nodes: Nodes,
    frames: Seq<(u8, i8, Seq<(i16, i16)>)>,
    frame: (u8, i8, Seq<(i16, i16)>),
)
    ensures
        mapped(nodes, Seq::empty()) == 0,
        mapped(nodes, frames.push(frame)) == mapped(nodes, frames) + (if nodes.contains_key(
            frame.0,
        ) {
            1int
        } else {
            0
        }),
{
    let p = |f: (u8, i8, Seq<(i16, i16)>)| nodes.contains_key(f.0);
    let none = Seq::<(u8, i8, Seq<(i16, i16)>)>::empty();
    assert(none.filter(p) =~= none);
    frames.lemma_filter_push(frame, p);
}

/// Where no node serves two rooms, a room whose one primary node holds samples
/// sends exactly these, under the room's name, and with them the latest strength
/// of each of its nodes that was heard, under the node's floor-plan id.
pub proof fn rooms_send_their_primary_series(b: BridgeView, i: int, p: int)
    requires
        b.linked(),
        rooms_apart(b),
        0 <= i < b.rooms.len(),
        0 <= p < b.room_nodes[b.rooms[i]].len(),
        b.nodes[b.room_nodes[b.rooms[i]][p]].is_primary,
        b.nodes[b.room_nodes[b.rooms[i]][p]].samples.len() > 0,
        forall|j: int|
            0 <= j < p ==> !b.nodes[#[trigger] b.room_nodes[b.rooms[i]][j]].is_primary,
    ensures
        exists|k: int|
            {
                let post = #[trigger] b.payloads()[k];
                let ids = b.room_nodes[b.rooms[i]];
                &&& 0 <= k < b.payloads().len()
                &&& post.room == b.rooms[i]
                &&& post.samples == b.nodes[ids[p]].samples
                &&& forall|j: int|
                    0 <= j < ids.len() && b.nodes[#[trigger] ids[j]].last_rssi is Some
                        ==> post.sensor_rssi.contains(
                        (b.nodes[ids[j]].sensor_id, b.nodes[ids[j]].last_rssi->0),
                    )
                &&& forall|e: int|
                    0 <= e < post.sensor_rssi.len() ==> exists|j: int|
                        0 <= j < ids.len() && b.nodes[#[trigger] ids[j]].last_rssi == Some(
                            (#[trigger] post.sensor_rssi[e]).1,
                        ) && b.nodes[ids[j]].sensor_id == post.sensor_rssi[e].0
            },
{
    let room = b.rooms[i];
    let ids = b.room_nodes[room];
    let q = primary_in(b.nodes);
    assert forall|j: int| 0 <= j < p implies !q(#[trigger] ids[j]) by {
        assert(!b.nodes[b.room_nodes[b.rooms[i]][j]].is_primary);
    }
    first_at(ids, q, p);
    each_room_sends_its_own(b);
    let kept = b.rooms.filter(has_series(b));
    b.rooms.lemma_filter_contains(has_series(b), i);
    let k = kept.index_of(room);
    let post = b.payloads()[k];
    assert(post == owed(b)(room));
    assert forall|j: int|
        0 <= j < ids.len() && b.nodes[#[trigger] ids[j]].last_rssi is Some implies
        post.sensor_rssi.contains(
            (b.nodes[ids[j]].sensor_id, b.nodes[ids[j]].last_rssi->0),
        ) by {
        every_heard_node_is_reported(b.nodes, ids, j);
    }
    assert forall|e: int| 0 <= e < post.sensor_rssi.len() implies exists|j: int|
        0 <= j < ids.len() && b.nodes[#[trigger] ids[j]].last_rssi == Some(
            (#[trigger] post.sensor_rssi[e]).1,
        ) && b.nodes[ids[j]].sensor_id == post.sensor_rssi[e].0 by {
        let h = |id: u8| b.nodes[id].last_rssi is Some;
        let heard = ids.filter(h);
        ids.lemma_filter_pred(h, e);
        ids.lemma_filter_contains_rev(h, heard[e]);
        let j = ids.index_of(heard[e]);
        assert(ids[j] == heard[e]);
    }
}

/// A room whose primary node holds no samples sends nothing.
pub proof fn quiet_rooms_send_nothing(b: BridgeView, k: int)
    requires
        b.linked(),
        rooms_apart(b),
        0 <= k < b.payloads().len(),
    ensures
        b.payloads()[k].samples.len() > 0,
        exists|i: int|
            {
                &&& 0 <= i < b.rooms.len()
                &&& #[trigger] b.rooms[i] == b.payloads()[k].room
                &&& exists|j: int|
                    0 <= j < b.room_nodes[b.rooms[i]].len()
                        && b.nodes[#[trigger] b.room_nodes[b.rooms[i]][j]].is_primary
                        && b.nodes[b.room_nodes[b.rooms[i]][j]].samples == b.payloads()[k].samples
            },
{
    each_room_sends_its_own(b);
    let f = has_series(b);
    let kept = b.rooms.filter(f);
    b.rooms.lemma_filter_pred(f, k);
    b.rooms.lemma_filter_contains_rev(f, kept[k]);
    let i = b.rooms.index_of(kept[k]);
    let ids = b.room_nodes[b.rooms[i]];
    assert(b.payloads()[k] == owed(b)(kept[k]));
    first_is_first(ids, primary_in(b.nodes));
    let x = driver(b.nodes, ids)->0;
    let j = choose|j: int| 0 <= j < ids.len() && #[trigger] ids[j] == x && primary_in(b.nodes)(x);
    assert(b.nodes[b.room_nodes[b.rooms[i]][j]].is_primary);
}

} // verus!
