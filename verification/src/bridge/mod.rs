//! The bridge from the sensor mesh to the server.
//!
//! Nodes stream channel-state frames over UDP. The bridge decodes each datagram,
//! keeps the latest signal strength of every node and the series of one primary
//! node for each room, and drains both into one payload per room.

pub mod config;
pub mod frames;
pub mod laws;
pub mod state;

use std::collections::HashMap;

use vstd::prelude::*;

use crate::ranked::views;
use crate::seqs::{first, first_at, first_is_first, first_none};
use crate::table::Table;

pub use self::config::{default_flush_ms, default_listen, default_server, Config, NodeCfg};
pub use self::frames::{reduce_frame, CsiFrame, CsiSample};
pub use self::state::{BridgeView, CsiPost, NodeState, MAX_SAMPLES};

use self::config::{
    any_in, distinct_ids, entry_extends, flagged, flagged_in, fresh_nodes, ids_by_room, ids_in,
    leaders, listed_nodes_have_entries, one_primary_where_distinct, primaries,
    primaries_are_given, rooms_are_distinct, rooms_are_named, rooms_in, set_up,
};
use self::frames::{
    csi_frames, foreign, foreign_datagrams_give_nothing, frame_in, one_frame, one_frame_is_read,
    parse_stream, Sample,
};
use self::state::{
    drained, driver, heard_in, mapped, node_after, nodes_after, nodes_held, posts, primary_in,
    rooms_listed, rssi_view, series, taken, Node, Nodes,
};

verus! {

broadcast use vstd::std_specs::hash::group_hash_axioms;

/// The bridge: node buffers and the nodes of each room.
#[derive(Debug)]
pub struct BridgeState {
    nodes: HashMap<u8, NodeState>,
    rooms: Vec<String>,
    room_nodes: Table<String, Vec<u8>>,
}

/// The content of a table of nodes.
spec fn nodes_view(t: Map<u8, NodeState>) -> Nodes {
    t.map_values(|n: NodeState| n@)
}

/// The content of a table of node ids.
spec fn ids_view(t: Map<Seq<char>, Vec<u8>>) -> Map<Seq<char>, Seq<u8>> {
    t.map_values(|v: Vec<u8>| v@)
}

impl View for BridgeState {
    type V = BridgeView;

    closed spec fn view(&self) -> BridgeView {
        BridgeView {
            nodes: nodes_view(self.nodes@),
            rooms: views(self.rooms@),
            room_nodes: ids_view(self.room_nodes@),
        }
    }
}

/// Whether a room is among those listed.
fn lists_room(rooms: &Vec<String>, room: &String) -> (r: bool)
    ensures
        r == views(rooms@).contains(room@),
{
    let mut i: usize = 0;
    while i < rooms.len()
        invariant
            i <= rooms@.len(),
            forall|j: int| 0 <= j < i ==> (#[trigger] rooms@[j])@ != room@,
        decreases rooms@.len() - i,
    {
        if rooms[i] == *room {
            assert(views(rooms@)[i as int] == room@);
            return true;
        }
        i = i + 1;
    }
    proof {
        if views(rooms@).contains(room@) {
            let j = views(rooms@).index_of(room@);
            assert(rooms@[j]@ == room@);
        }
    }
    false
}

/// The first primary node among ids.
fn find_driver(nodes: &HashMap<u8, NodeState>, ids: &Vec<u8>) -> (r: Option<u8>)
    requires
        forall|j: int| 0 <= j < ids@.len() ==> nodes@.contains_key(#[trigger] ids@[j]),
    ensures
        r == driver(nodes_view(nodes@), ids@),
        r is Some ==> nodes@.contains_key(r->0) && nodes@[r->0].is_primary && ids@.contains(r->0),
{
    let ghost p = primary_in(nodes_view(nodes@));
    let mut i: usize = 0;
    while i < ids.len()
        invariant
            i <= ids@.len(),
            forall|j: int| 0 <= j < ids@.len() ==> nodes@.contains_key(#[trigger] ids@[j]),
            p == primary_in(nodes_view(nodes@)),
            forall|j: int| 0 <= j < i ==> !p(#[trigger] ids@[j]),
        decreases ids@.len() - i,
    {
        if let Some(n) = nodes.get(&ids[i]) {
            assert(nodes_view(nodes@)[ids@[i as int]] == n@);
            if n.is_primary {
                proof {
                    first_at(ids@, p, i as int);
                }
                return Some(ids[i]);
            }
        }
        i = i + 1;
    }
    proof {
        first_none(ids@, p);
    }
    None
}

/// Whether a configuration flags a node as primary.
fn is_flagged(cfg: &Vec<NodeCfg>, id: u8) -> (r: bool)
    ensures
        r == flagged(cfg@, id),
{
    let mut r: bool = false;
    let mut i: usize = 0;
    while i < cfg.len()
        invariant
            i <= cfg@.len(),
            r == flagged(cfg@.take(i as int), id),
        decreases cfg@.len() - i,
    {
        assert(cfg@.take(i + 1).drop_last() =~= cfg@.take(i as int));
        if cfg[i].node_id == id {
            r = cfg[i].primary;
        }
        i = i + 1;
    }
    assert(cfg@.take(i as int) =~= cfg@);
    r
}

/// The first of the ids that a configuration flags as primary.
fn find_flagged(cfg: &Vec<NodeCfg>, ids: &Vec<u8>) -> (r: Option<u8>)
    ensures
        r == first(ids@, flagged_in(cfg@)),
        r is Some ==> flagged(cfg@, r->0),
{
    let mut i: usize = 0;
    while i < ids.len()
        invariant
            i <= ids@.len(),
            forall|j: int| 0 <= j < i ==> !flagged_in(cfg@)(#[trigger] ids@[j]),
        decreases ids@.len() - i,
    {
        if is_flagged(cfg, ids[i]) {
            proof {
                first_at(ids@, flagged_in(cfg@), i as int);
            }
            return Some(ids[i]);
        }
        i = i + 1;
    }
    proof {
        first_none(ids@, flagged_in(cfg@));
    }
    None
}

/// Make a node primary.
fn make_primary(nodes: &mut HashMap<u8, NodeState>, id: u8)
    requires
        old(nodes)@.contains_key(id),
    ensures
        nodes_view(final(nodes)@) == nodes_view(old(nodes)@).insert(
            id,
            Node { is_primary: true, ..nodes_view(old(nodes)@)[id] },
        ),
{
    let ghost before = nodes_view(nodes@);
    if let Some(held) = nodes.remove(&id) {
        let mut node: NodeState = held;
        node.is_primary = true;
        nodes.insert(id, node);
        assert(nodes_view(nodes@) =~= before.insert(id, Node { is_primary: true, ..before[id] }));
    }
}

/// Set up the nodes, none of them primary, the rooms and the nodes of each room.
fn lay_out(cfg: &Vec<NodeCfg>) -> (r: (
    HashMap<u8, NodeState>,
    Vec<String>,
    Table<String, Vec<u8>>,
))
    ensures
        nodes_view(r.0@) == fresh_nodes(cfg@, Set::empty()),
        views(r.1@) == rooms_in(cfg@),
        ids_view(r.2@) == ids_by_room(cfg@),
{
    let mut nodes: HashMap<u8, NodeState> = HashMap::new();
    let mut rooms: Vec<String> = Vec::new();
    let mut room_nodes: Table<String, Vec<u8>> = Table::new();
    let mut i: usize = 0;
    assert(views(rooms@) =~= rooms_in(cfg@.take(0)));
    assert(ids_view(room_nodes@) =~= ids_by_room(cfg@.take(0)));
    assert(nodes_view(nodes@) =~= fresh_nodes(cfg@.take(0), Set::empty()));
    while i < cfg.len()
        invariant
            i <= cfg@.len(),
            views(rooms@) == rooms_in(cfg@.take(i as int)),
            ids_view(room_nodes@) == ids_by_room(cfg@.take(i as int)),
            nodes_view(nodes@) == fresh_nodes(cfg@.take(i as int), Set::empty()),
        decreases cfg@.len() - i,
    {
        let n: &NodeCfg = &cfg[i];
        let ghost was = cfg@.take(i as int);
        let ghost is = cfg@.take(i + 1);
        let ghost rooms_before = views(rooms@);
        let ghost ids_before = ids_view(room_nodes@);
        let ghost nodes_before = nodes_view(nodes@);
        proof {
            assert(is.drop_last() =~= was);
            assert(is.last() == *n);
            rooms_are_named(was);
            rooms_are_named(is);
            assert forall|room: Seq<char>| #[trigger] ids_in(is, room) == (if n.room@ == room {
                ids_in(was, room).push(n.node_id)
            } else {
                ids_in(was, room)
            }) by {
                entry_extends(cfg@, i as int, room);
            }
        }
        let mut ids: Vec<u8> = match room_nodes.remove(&n.room) {
            Some(ids) => ids,
            None => Vec::new(),
        };
        proof {
            assert(ids_before.contains_key(n.room@) <==> rooms_before.contains(n.room@));
            if ids_before.contains_key(n.room@) {
                assert(ids@ == ids_before[n.room@]);
            } else {
                assert(ids_in(was, n.room@).len() == 0);
            }
            assert(ids@ =~= ids_in(was, n.room@));
        }
        if !lists_room(&rooms, &n.room) {
            let ghost old_rooms = rooms@;
            rooms.push(n.room.clone());
            assert(views(rooms@) =~= views(old_rooms).push(n.room@));
        }
        ids.push(n.node_id);
        room_nodes.insert(n.room.clone(), ids);
        let node: NodeState = NodeState {
            sensor_id: n.sensor_id.clone(),
            is_primary: false,
            samples: Vec::new(),
            last_rssi: None,
        };
        nodes.insert(n.node_id, node);
        proof {
            assert(views(node.samples@) =~= Seq::<Sample>::empty());
            assert(nodes_view(nodes@) =~= nodes_before.insert(n.node_id, node@));
            assert(nodes_view(nodes@) =~= fresh_nodes(is, Set::empty()));
            assert(views(rooms@) =~= rooms_in(is));
            assert forall|room: Seq<char>| rooms_in(is).contains(room) <==> (rooms_in(was).contains(
                room,
            ) || room == n.room@) by {
                if rooms_in(was).contains(room) {
                    let j = rooms_in(was).index_of(room);
                    assert(rooms_in(is)[j] == room);
                }
                if rooms_in(is).contains(room) && room != n.room@ {
                    let j = rooms_in(is).index_of(room);
                    assert(rooms_in(was)[j] == room);
                }
            }
            assert(ids@ =~= ids_in(is, n.room@));
            assert(ids_view(room_nodes@) =~= ids_before.insert(n.room@, ids@));
            assert(ids_view(room_nodes@) =~= ids_by_room(is));
        }
        i = i + 1;
    }
    assert(cfg@.take(i as int) =~= cfg@);
    (nodes, rooms, room_nodes)
}

/// Make a node of each room primary: first the first flagged one of each room,
/// then, where a room has none, the first that is listed for it.
fn appoint(
    cfg: &Vec<NodeCfg>,
    nodes: &mut HashMap<u8, NodeState>,
    rooms: &Vec<String>,
    room_nodes: &Table<String, Vec<u8>>,
)
    requires
        nodes_view(old(nodes)@) == fresh_nodes(cfg@, Set::empty()),
        views(rooms@) == rooms_in(cfg@),
        ids_view(room_nodes@) == ids_by_room(cfg@),
    ensures
        nodes_view(final(nodes)@) == fresh_nodes(cfg@, primaries(cfg@, rooms_in(cfg@))),
{
    let ghost plan = cfg@;
    let ghost all = rooms_in(plan);
    proof {
        rooms_are_named(plan);
    }
    let mut i: usize = 0;
    assert(all.take(0) =~= Seq::empty());
    while i < rooms.len()
        invariant
            i <= rooms@.len(),
            plan == cfg@,
            all == rooms_in(plan),
            views(rooms@) == all,
            ids_view(room_nodes@) == ids_by_room(plan),
            nodes_view(nodes@) == fresh_nodes(plan, leaders(plan, all.take(i as int))),
        decreases rooms@.len() - i,
    {
        let ghost room = all[i as int];
        proof {
            assert(views(rooms@)[i as int] == rooms@[i as int]@);
            assert(all.contains(room));
            assert(ids_view(room_nodes@).contains_key(room));
            assert(all.take(i + 1).drop_last() =~= all.take(i as int));
            assert(all.take(i + 1).last() == room);
        }
        if let Some(ids) = room_nodes.get(&rooms[i]) {
            assert(ids_view(room_nodes@)[room] == ids@);
            if let Some(id) = find_flagged(cfg, ids) {
                assert(nodes@.contains_key(id)) by {
                    assert(nodes_view(nodes@).contains_key(id));
                }
                make_primary(nodes, id);
            }
            assert(nodes_view(nodes@) =~= fresh_nodes(plan, leaders(plan, all.take(i + 1))));
        }
        i = i + 1;
    }
    let mut k: usize = 0;
    assert(all.take(i as int) =~= all);
    while k < rooms.len()
        invariant
            k <= rooms@.len(),
            plan == cfg@,
            all == rooms_in(plan),
            views(rooms@) == all,
            ids_view(room_nodes@) == ids_by_room(plan),
            nodes_view(nodes@) == fresh_nodes(plan, primaries(plan, all.take(k as int))),
            forall|n: int| 0 <= n < all.len() ==> ids_in(plan, #[trigger] all[n]).len() > 0,
        decreases rooms@.len() - k,
    {
        let ghost room = all[k as int];
        let ghost before = primaries(plan, all.take(k as int));
        proof {
            assert(views(rooms@)[k as int] == rooms@[k as int]@);
            assert(all.contains(room));
            assert(ids_view(room_nodes@).contains_key(room));
            assert(all.take(k + 1).drop_last() =~= all.take(k as int));
            assert(all.take(k + 1).last() == room);
        }
        if let Some(ids) = room_nodes.get(&rooms[k]) {
            assert(ids_view(room_nodes@)[room] == ids@);
            assert(ids@ == ids_in(plan, room));
            proof {
                assert forall|j: int| 0 <= j < ids@.len() implies nodes@.contains_key(
                    #[trigger] ids@[j],
                ) by {
                    listed_nodes_have_entries(plan, room, j);
                    assert(nodes_view(nodes@).contains_key(ids@[j]));
                }
                driven_where_any(plan, before, room);
            }
            if find_driver(nodes, ids).is_none() {
                make_primary(nodes, ids[0]);
            }
            assert(nodes_view(nodes@) =~= fresh_nodes(plan, primaries(plan, all.take(k + 1))));
        }
        k = k + 1;
    }
    assert(all.take(k as int) =~= all);
}

/// A room is driven exactly where one of its nodes is primary.
proof fn driven_where_any(plan: Seq<NodeCfg>, chosen: Set<u8>, room: Seq<char>)
    ensures
        driver(fresh_nodes(plan, chosen), ids_in(plan, room)) is Some <==> any_in(
            ids_in(plan, room),
            chosen,
        ),
{
    let ids = ids_in(plan, room);
    let nodes = fresh_nodes(plan, chosen);
    let p = primary_in(nodes);
    first_is_first(ids, p);
    assert forall|j: int| 0 <= j < ids.len() implies p(#[trigger] ids[j]) == chosen.contains(
        ids[j],
    ) by {
        listed_nodes_have_entries(plan, room, j);
    }
}

/// Every room of a configuration is driven.
proof fn every_room_is_driven(plan: Seq<NodeCfg>, k: int)
    requires
        0 <= k < rooms_in(plan).len(),
    ensures
        driver(
            fresh_nodes(plan, primaries(plan, rooms_in(plan))),
            ids_in(plan, rooms_in(plan)[k]),
        ) is Some,
{
    let all = rooms_in(plan);
    assert(all.take(all.len() as int) =~= all);
    primaries_are_given(plan, all.len() as int);
    driven_where_any(plan, primaries(plan, all), all[k]);
}

impl BridgeState {
    /// No room occurs twice, every room has its nodes listed, and every listed
    /// node is held.
    #[verifier::type_invariant]
    spec fn valid(self) -> bool {
        self@.linked()
    }

    /// A bridge for a configuration. The first node of a room that is flagged as
    /// primary is its primary node; where none is flagged, the first that is
    /// listed for it.
    pub fn from_config(cfg: &Config) -> (r: BridgeState)
        ensures
            set_up(r@, cfg.nodes@),
            r@.linked(),
    {
        let (mut nodes, rooms, room_nodes) = lay_out(&cfg.nodes);
        let ghost plan = cfg.nodes@;
        appoint(&cfg.nodes, &mut nodes, &rooms, &room_nodes);
        proof {
            let held = nodes_view(nodes@);
            let listed = ids_view(room_nodes@);
            assert forall|room: Seq<char>, j: int|
                #![trigger listed[room][j]]
                listed.contains_key(room) && 0 <= j < listed[room].len() implies held.contains_key(
                listed[room][j],
            ) by {
                listed_nodes_have_entries(plan, room, j);
            }
            assert(nodes_held(listed, held));
            assert forall|k: int| 0 <= k < views(rooms@).len() implies listed.contains_key(
                #[trigger] views(rooms@)[k],
            ) by {
                assert(rooms_in(plan).contains(rooms_in(plan)[k]));
            }
            assert(rooms_listed(views(rooms@), listed));
            rooms_are_distinct(plan);
        }
        let r: BridgeState = BridgeState { nodes, rooms, room_nodes };
        proof {
            if distinct_ids(plan) {
                one_primary_where_distinct(plan);
            }
            assert forall|k: int| 0 <= k < r@.rooms.len() implies driver(
                r@.nodes,
                #[trigger] r@.room_nodes[r@.rooms[k]],
            ) is Some by {
                assert(rooms_in(plan).contains(rooms_in(plan)[k]));
                every_room_is_driven(plan, k);
            }
        }
        r
    }

    /// Decode a datagram and take its frames in. Returns how many frames were of
    /// a configured node.
    pub fn ingest_datagram(&mut self, datagram: &[u8]) -> (n: usize)
        ensures
            final(self)@.linked(),
            final(self)@ == old(self)@.fed(csi_frames(datagram@)),
            n == mapped(old(self)@.nodes, csi_frames(datagram@)),
            one_frame(datagram@) ==> {
                &&& final(self)@ == old(self)@.fed(seq![frame_in(datagram@)])
                &&& n == (if old(self)@.nodes.contains_key(datagram@[4]) {
                    1nat
                } else {
                    0
                })
            },
            foreign(datagram@) ==> final(self)@ == old(self)@ && n == 0,
    {
        let frames: Vec<CsiFrame> = parse_stream(datagram);
        let n: usize = self.ingest_frames(frames.as_slice());
        proof {
            if foreign(datagram@) {
                foreign_datagrams_give_nothing(datagram@);
                let p = |g: (u8, i8, Seq<(i16, i16)>)| old(self)@.nodes.contains_key(g.0);
                let none = Seq::<(u8, i8, Seq<(i16, i16)>)>::empty();
                assert(none.filter(p) =~= none);
            }
            if one_frame(datagram@) {
                one_frame_is_read(datagram@);
                let f = frame_in(datagram@);
                let p = |g: (u8, i8, Seq<(i16, i16)>)| old(self)@.nodes.contains_key(g.0);
                let none = Seq::<(u8, i8, Seq<(i16, i16)>)>::empty();
                assert(seq![f] =~= none.push(f));
                none.lemma_filter_push(f, p);
                assert(none.filter(p) =~= none);
            }
        }
        n
    }

    /// Take frames in. Returns how many were of a configured node.
    pub fn ingest_frames(&mut self, frames: &[CsiFrame]) -> (n: usize)
        ensures
            final(self)@.linked(),
            final(self)@ == old(self)@.fed(views(frames@)),
            n == mapped(old(self)@.nodes, views(frames@)),
    {
        proof {
            use_type_invariant(&*self);
        }
        let ghost before = self@;
        let ghost start = self@.nodes;
        let ghost all = views(frames@);
        let ghost p = |f: (u8, i8, Seq<(i16, i16)>)| start.contains_key(f.0);
        let mut rooms: Vec<String> = Vec::new();
        let mut room_nodes: Table<String, Vec<u8>> = Table::new();
        let mut nodes: HashMap<u8, NodeState> = HashMap::new();
        assert(ids_view(room_nodes@) =~= Map::empty());
        assert(views(rooms@) =~= Seq::empty());
        std::mem::swap(&mut rooms, &mut self.rooms);
        std::mem::swap(&mut room_nodes, &mut self.room_nodes);
        std::mem::swap(&mut nodes, &mut self.nodes);
        let mut count: usize = 0;
        let mut i: usize = 0;
        assert(all.take(0).filter(p) =~= Seq::empty());
        assert(all.take(0) =~= Seq::empty());
        while i < frames.len()
            invariant
                i <= frames@.len(),
                count <= i,
                all == views(frames@),
                p == (|f: (u8, i8, Seq<(i16, i16)>)| start.contains_key(f.0)),
                nodes_view(nodes@) == nodes_after(start, all.take(i as int)),
                nodes_view(nodes@).dom() == start.dom(),
                count == all.take(i as int).filter(p).len(),
            decreases frames@.len() - i,
        {
            let frame: &CsiFrame = &frames[i];
            let ghost mid = nodes_view(nodes@);
            proof {
                assert(all[i as int] == frame@);
                assert(all.take(i + 1) =~= all.take(i as int).push(frame@));
                assert(all.take(i + 1).drop_last() =~= all.take(i as int));
                all.take(i as int).lemma_filter_push(frame@, p);
                assert(nodes@.contains_key(frame.node_id) <==> start.contains_key(frame.node_id)) by {
                    assert(mid.dom().contains(frame.node_id) == start.dom().contains(frame.node_id));
                }
            }
            if let Some(taken) = nodes.remove(&frame.node_id) {
                let node: NodeState = take_frame(taken, frame);
                nodes.insert(frame.node_id, node);
                count = count + 1;
                proof {
                    assert(mid[frame.node_id] == taken@);
                    assert(nodes_view(nodes@) =~= mid.insert(frame.node_id, node@));
                    assert(nodes_view(nodes@).dom() =~= start.dom());
                }
            } else {
                assert(nodes_view(nodes@) =~= mid);
            }
            i = i + 1;
        }
        assert(all.take(i as int) =~= all);
        proof {
            let after = before.fed(all);
            assert(after.nodes.dom() =~= before.nodes.dom());
            assert forall|room: Seq<char>, j: int|
                #![trigger after.room_nodes[room][j]]
                after.room_nodes.contains_key(room) && 0 <= j
                    < after.room_nodes[room].len() implies after.nodes.contains_key(
                after.room_nodes[room][j],
            ) by {
                assert(before.nodes.contains_key(before.room_nodes[room][j]));
                assert(after.nodes.dom().contains(before.room_nodes[room][j]));
            }
        }
        self.nodes = nodes;
        self.room_nodes = room_nodes;
        self.rooms = rooms;
        assert(self@ =~= before.fed(all));
        count
    }

    /// Drain the buffered series into one payload for each room that has one.
    /// The signal strengths stay.
    pub fn drain_posts(&mut self) -> (r: Vec<CsiPost>)
        ensures
            final(self)@.linked(),
            final(self)@ == old(self)@.emptied(),
            views(r@) == old(self)@.payloads(),
    {
        proof {
            use_type_invariant(&*self);
        }
        let ghost before = self@;
        let mut rooms: Vec<String> = Vec::new();
        let mut room_nodes: Table<String, Vec<u8>> = Table::new();
        let mut nodes: HashMap<u8, NodeState> = HashMap::new();
        assert(ids_view(room_nodes@) =~= Map::empty());
        assert(views(rooms@) =~= Seq::empty());
        std::mem::swap(&mut rooms, &mut self.rooms);
        std::mem::swap(&mut room_nodes, &mut self.room_nodes);
        std::mem::swap(&mut nodes, &mut self.nodes);
        let mut out: Vec<CsiPost> = Vec::new();
        let mut i: usize = 0;
        assert(before.rooms.take(0) =~= Seq::empty());
        assert(views(out@) =~= Seq::empty());
        while i < rooms.len()
            invariant
                i <= rooms@.len(),
                before.linked(),
                views(rooms@) == before.rooms,
                ids_view(room_nodes@) == before.room_nodes,
                nodes_view(nodes@) == drained(
                    before.nodes,
                    before.rooms.take(i as int),
                    before.room_nodes,
                ),
                nodes_view(nodes@).dom() == before.nodes.dom(),
                views(out@) == posts(before.nodes, before.rooms.take(i as int), before.room_nodes),
            decreases rooms@.len() - i,
        {
            let ghost room = before.rooms[i as int];
            let ghost mid = nodes_view(nodes@);
            proof {
                assert(views(rooms@)[i as int] == rooms@[i as int]@);
                assert(before.rooms.take(i + 1).drop_last() =~= before.rooms.take(i as int));
                assert(before.rooms.take(i + 1).last() == room);
                assert(before.room_nodes.contains_key(room));
            }
            if let Some(ids) = room_nodes.get(&rooms[i]) {
                assert(ids@ == before.room_nodes[room]);
                proof {
                    assert forall|j: int| 0 <= j < ids@.len() implies nodes@.contains_key(
                        #[trigger] ids@[j],
                    ) by {
                        assert(before.nodes.contains_key(before.room_nodes[room][j]));
                        assert(mid.dom().contains(ids@[j]));
                    }
                }
                let sensor_rssi: Vec<(String, i8)> = collect_rssi(&nodes, ids);
                let samples: Vec<CsiSample> = take_series(&mut nodes, ids);
                if samples.len() > 0 {
                    let post: CsiPost = CsiPost { room: rooms[i].clone(), samples, sensor_rssi };
                    let ghost was = out@;
                    out.push(post);
                    assert(views(out@) =~= views(was).push(post@));
                }
            }
            i = i + 1;
        }
        assert(before.rooms.take(i as int) =~= before.rooms);
        proof {
            let after = before.emptied();
            assert forall|room: Seq<char>, j: int|
                #![trigger after.room_nodes[room][j]]
                after.room_nodes.contains_key(room) && 0 <= j
                    < after.room_nodes[room].len() implies after.nodes.contains_key(
                after.room_nodes[room][j],
            ) by {
                assert(before.nodes.contains_key(before.room_nodes[room][j]));
                assert(after.nodes.dom().contains(before.room_nodes[room][j]));
            }
        }
        self.nodes = nodes;
        self.room_nodes = room_nodes;
        self.rooms = rooms;
        assert(self@ =~= before.emptied());
        out
    }

    /// The rooms, in the order in which the configuration first names them.
    pub fn rooms(&self) -> (r: &Vec<String>)
        ensures
            views(r@) == self@.rooms,
            self@.linked(),
    {
        proof {
            use_type_invariant(self);
        }
        &self.rooms
    }

    /// The ids of the nodes of a room.
    pub fn room_nodes(&self, room: &String) -> (r: Option<&Vec<u8>>)
        ensures
            match r {
                Some(ids) => self@.room_nodes.contains_key(room@) && ids@ == self@.room_nodes[room@],
                None => !self@.room_nodes.contains_key(room@),
            },
    {
        self.room_nodes.get(room)
    }

    /// What is held of a node.
    pub fn node(&self, id: u8) -> (r: Option<&NodeState>)
        ensures
            match r {
                Some(n) => self@.nodes.contains_key(id) && n@ == self@.nodes[id],
                None => !self@.nodes.contains_key(id),
            },
    {
        self.nodes.get(&id)
    }
}

/// A node after one of its frames.
fn take_frame(node: NodeState, frame: &CsiFrame) -> (r: NodeState)
    ensures
        r@ == node_after(node@, frame@),
{
    let mut after: NodeState = node;
    after.last_rssi = Some(frame.rssi_dbm);
    if after.is_primary {
        let mut samples: Vec<CsiSample> = Vec::new();
        std::mem::swap(&mut samples, &mut after.samples);
        let ghost before = samples@;
        let sample: CsiSample = reduce_frame(frame);
        samples.push(sample);
        assert(views(samples@) =~= views(before).push(sample@));
        if samples.len() > MAX_SAMPLES {
            let drop: usize = samples.len() - MAX_SAMPLES;
            let ghost all = views(samples@);
            let kept: Vec<CsiSample> = samples.split_off(drop);
            assert(views(kept@) =~= all.skip(drop as int));
            samples = kept;
        }
        after.samples = samples;
    }
    after
}

/// The floor-plan ids and signal strengths of the nodes of a room that were
/// heard.
fn collect_rssi(nodes: &HashMap<u8, NodeState>, ids: &Vec<u8>) -> (r: Vec<(String, i8)>)
    requires
        forall|j: int| 0 <= j < ids@.len() ==> nodes@.contains_key(#[trigger] ids@[j]),
    ensures
        rssi_view(r@) == heard_in(nodes_view(nodes@), ids@),
{
    let ghost held = nodes_view(nodes@);
    let ghost p = |id: u8| held[id].last_rssi is Some;
    let ghost f = |id: u8| (held[id].sensor_id, held[id].last_rssi->0);
    let mut r: Vec<(String, i8)> = Vec::new();
    let mut i: usize = 0;
    assert(ids@.take(0).filter(p) =~= Seq::<u8>::empty());
    assert(rssi_view(r@) =~= ids@.take(0).filter(p).map_values(f));
    while i < ids.len()
        invariant
            i <= ids@.len(),
            forall|j: int| 0 <= j < ids@.len() ==> nodes@.contains_key(#[trigger] ids@[j]),
            held == nodes_view(nodes@),
            p == (|id: u8| held[id].last_rssi is Some),
            f == (|id: u8| (held[id].sensor_id, held[id].last_rssi->0)),
            rssi_view(r@) == ids@.take(i as int).filter(p).map_values(f),
        decreases ids@.len() - i,
    {
        let id: u8 = ids[i];
        proof {
            assert(ids@.take(i + 1) =~= ids@.take(i as int).push(id));
            ids@.take(i as int).lemma_filter_push(id, p);
        }
        if let Some(n) = nodes.get(&id) {
            assert(held[id] == n@);
            if let Some(rssi) = n.last_rssi {
                let ghost was = r@;
                let ghost kept = ids@.take(i as int).filter(p);
                r.push((n.sensor_id.clone(), rssi));
                assert(rssi_view(r@) =~= rssi_view(was).push((n.sensor_id@, rssi)));
                assert(kept.push(id).map_values(f) =~= kept.map_values(f).push(f(id)));
            }
        }
        i = i + 1;
    }
    assert(ids@.take(i as int) =~= ids@);
    r
}

/// Take the buffered series of a room.
fn take_series(nodes: &mut HashMap<u8, NodeState>, ids: &Vec<u8>) -> (r: Vec<CsiSample>)
    requires
        forall|j: int| 0 <= j < ids@.len() ==> old(nodes)@.contains_key(#[trigger] ids@[j]),
    ensures
        views(r@) == series(nodes_view(old(nodes)@), ids@),
        nodes_view(final(nodes)@) == taken(nodes_view(old(nodes)@), ids@),
        nodes_view(final(nodes)@).dom() == nodes_view(old(nodes)@).dom(),
{
    let ghost before = nodes_view(nodes@);
    let mut samples: Vec<CsiSample> = Vec::new();
    assert(views(samples@) =~= Seq::<Sample>::empty());
    if let Some(id) = find_driver(nodes, ids) {
        if let Some(held) = nodes.remove(&id) {
            let mut node: NodeState = held;
            std::mem::swap(&mut samples, &mut node.samples);
            nodes.insert(id, node);
            proof {
                assert(views(node.samples@) =~= Seq::<Sample>::empty());
                assert(nodes_view(nodes@) =~= before.insert(
                    id,
                    Node { samples: Seq::empty(), ..before[id] },
                ));
                assert(nodes_view(nodes@).dom() =~= before.dom());
            }
        }
    }
    samples
}

} // verus!
