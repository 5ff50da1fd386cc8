//! The configuration of the bridge, and the bridge that it sets up.

use vstd::prelude::*;
use vstd::string::{StrSliceExecFns, StringExecFns};

use super::state::{driver, BridgeView, Node, Nodes};
use crate::seqs::{first, first_is_first};

verus! {

/// Milliseconds between two flushes where the configuration gives none.
pub const DEFAULT_FLUSH_MS: u64 = 1000;

/// Milliseconds between two flushes, at least.
pub const MIN_FLUSH_MS: u64 = 100;

/// The server of a configuration that gives none.
pub fn default_server() -> (r: String)
    ensures
        r@ == "http://127.0.0.1:8099"@,
{
    "http://127.0.0.1:8099".to_owned()
}

/// The address to listen on of a configuration that gives none: the port is the
/// one that the node firmware sends to.
pub fn default_listen() -> (r: String)
    ensures
        r@ == "0.0.0.0:5005"@,
{
    "0.0.0.0:5005".to_owned()
}

/// The flush interval of a configuration that gives none.
pub fn default_flush_ms() -> (r: u64)
    ensures
        r == DEFAULT_FLUSH_MS,
        r == 1000,
{
    DEFAULT_FLUSH_MS
}

/// One node's placement.
#[derive(Clone, Debug)]
pub struct NodeCfg {
    /// Id that the node puts into its frames.
    pub node_id: u8,
    /// Room of the node.
    pub room: String,
    /// Id of the node in the floor plan.
    pub sensor_id: String,
    /// Whether the node is flagged to drive the series of its room. The first
    /// flagged one does.
    pub primary: bool,
}

/// Bridge configuration.
#[derive(Clone, Debug)]
pub struct Config {
    /// Server to forward to.
    pub server: String,
    /// Address to listen on.
    pub listen: String,
    /// Milliseconds between two flushes.
    pub flush_ms: u64,
    /// The nodes of the mesh.
    pub nodes: Vec<NodeCfg>,
}

/// A text without the slashes at its end.
pub open spec fn without_slashes(s: Seq<char>) -> Seq<char>
    decreases s.len(),
{
    if s.len() > 0 && s.last() == '/' {
        without_slashes(s.drop_last())
    } else {
        s
    }
}

impl Config {
    /// The address that payloads are posted to.
    pub fn csi_url(&self) -> (r: String)
        ensures
            r@ == without_slashes(self.server@) + "/api/csi"@,
    {
        let server: &str = self.server.as_str();
        let mut n: usize = server.unicode_len();
        assert(server@.take(n as int) =~= server@);
        while n > 0 && server.get_char(n - 1) == '/'
            invariant
                n <= server@.len(),
                without_slashes(server@) == without_slashes(server@.take(n as int)),
            decreases n,
        {
            assert(server@.take(n as int).drop_last() =~= server@.take(n - 1));
            n = n - 1;
        }
        let head: &str = server.substring_char(0, n);
        assert(head@ =~= server@.take(n as int));
        let mut r: String = head.to_owned();
        r.append("/api/csi");
        r
    }

    /// Milliseconds to wait between two flushes.
    pub fn flush_interval_ms(&self) -> (r: u64)
        ensures
            r == (if self.flush_ms >= MIN_FLUSH_MS {
                self.flush_ms
            } else {
                MIN_FLUSH_MS
            }),
            r >= 100,
            self.flush_ms >= 100 ==> r == self.flush_ms,
            self.flush_ms <= 100 ==> r == 100,
    {
        if self.flush_ms >= MIN_FLUSH_MS {
            self.flush_ms
        } else {
            MIN_FLUSH_MS
        }
    }
}

/// The rooms of a configuration, in the order in which it first names them.
pub open spec fn rooms_in(cfg: Seq<NodeCfg>) -> Seq<Seq<char>>
    decreases cfg.len(),
{
    if cfg.len() == 0 {
        Seq::empty()
    } else {
        let before = rooms_in(cfg.drop_last());
        let room = cfg.last().room@;
        if before.contains(room) {
            before
        } else {
            before.push(room)
        }
    }
}

/// The condition that an entry is for a room.
pub open spec fn entry_in(room: Seq<char>) -> spec_fn(NodeCfg) -> bool {
    |n: NodeCfg| n.room@ == room
}

/// The node ids of entries.
pub open spec fn node_ids(entries: Seq<NodeCfg>) -> Seq<u8> {
    entries.map_values(|n: NodeCfg| n.node_id)
}

/// The node ids that a configuration lists for a room, in its order.
pub open spec fn ids_in(cfg: Seq<NodeCfg>, room: Seq<char>) -> Seq<u8> {
    node_ids(cfg.filter(entry_in(room)))
}

/// The node ids of each room of a configuration.
pub open spec fn ids_by_room(cfg: Seq<NodeCfg>) -> Map<Seq<char>, Seq<u8>> {
    Map::new(|room: Seq<char>| rooms_in(cfg).contains(room), |room: Seq<char>| ids_in(cfg, room))
}

/// The last entry of a configuration for a node.
pub open spec fn entry_of(cfg: Seq<NodeCfg>, id: u8) -> Option<NodeCfg>
    decreases cfg.len(),
{
    if cfg.len() == 0 {
        None
    } else if cfg.last().node_id == id {
        Some(cfg.last())
    } else {
        entry_of(cfg.drop_last(), id)
    }
}

/// Whether a configuration flags a node as primary.
pub open spec fn flagged(cfg: Seq<NodeCfg>, id: u8) -> bool {
    entry_of(cfg, id) is Some && entry_of(cfg, id)->0.primary
}

/// The condition that a configuration flags a node as primary.
pub open spec fn flagged_in(cfg: Seq<NodeCfg>) -> spec_fn(u8) -> bool {
    |id: u8| flagged(cfg, id)
}

/// The first node that a configuration lists for a room and flags as primary.
pub open spec fn first_flagged(cfg: Seq<NodeCfg>, room: Seq<char>) -> Option<u8> {
    first(ids_in(cfg, room), flagged_in(cfg))
}

/// The node that a configuration gives a room as its primary one: the first that
/// it flags, else the first that it lists.
pub open spec fn primary_of(cfg: Seq<NodeCfg>, room: Seq<char>) -> u8 {
    match first_flagged(cfg, room) {
        Some(id) => id,
        None => ids_in(cfg, room)[0],
    }
}

/// The first flagged nodes of rooms.
pub open spec fn leaders(cfg: Seq<NodeCfg>, rooms: Seq<Seq<char>>) -> Set<u8>
    decreases rooms.len(),
{
    if rooms.len() == 0 {
        Set::empty()
    } else {
        let before = leaders(cfg, rooms.drop_last());
        match first_flagged(cfg, rooms.last()) {
            Some(id) => before.insert(id),
            None => before,
        }
    }
}

/// Whether one of the ids is in a set.
pub open spec fn any_in(ids: Seq<u8>, set: Set<u8>) -> bool {
    exists|j: int| 0 <= j < ids.len() && set.contains(#[trigger] ids[j])
}

/// The primary nodes, once rooms that had none got their first listed node. The
/// rooms are taken in turn: a node that another room lists too may already be
/// primary.
pub open spec fn primaries(cfg: Seq<NodeCfg>, rooms: Seq<Seq<char>>) -> Set<u8>
    decreases rooms.len(),
{
    if rooms.len() == 0 {
        leaders(cfg, rooms_in(cfg))
    } else {
        let before = primaries(cfg, rooms.drop_last());
        let ids = ids_in(cfg, rooms.last());
        if any_in(ids, before) {
            before
        } else {
            before.insert(ids[0])
        }
    }
}

/// The nodes of a configuration, with nothing heard of them yet.
pub open spec fn fresh_nodes(cfg: Seq<NodeCfg>, primary: Set<u8>) -> Nodes {
    Map::new(
        |id: u8| entry_of(cfg, id) is Some,
        |id: u8|
            Node {
                sensor_id: entry_of(cfg, id)->0.sensor_id@,
                is_primary: primary.contains(id),
                samples: Seq::empty(),
                last_rssi: None,
            },
    )
}

/// Whether no two entries of a configuration are for the same node.
pub open spec fn distinct_ids(cfg: Seq<NodeCfg>) -> bool {
    node_ids(cfg).no_duplicates()
}

/// Whether of the nodes of each room exactly one is primary: the one that the
/// configuration gives it.
pub open spec fn one_primary_each(nodes: Nodes, cfg: Seq<NodeCfg>) -> bool {
    forall|room: Seq<char>, j: int|
        #![trigger ids_in(cfg, room)[j]]
        rooms_in(cfg).contains(room) && 0 <= j < ids_in(cfg, room).len() ==> (
        nodes[ids_in(cfg, room)[j]].is_primary <==> ids_in(cfg, room)[j] == primary_of(cfg, room))
}

/// Whether a bridge is set up as a configuration says. Every room has a primary
/// node, and only one where no node is configured twice.
pub open spec fn set_up(b: BridgeView, cfg: Seq<NodeCfg>) -> bool {
    &&& b.rooms == rooms_in(cfg)
    &&& b.room_nodes == ids_by_room(cfg)
    &&& b.nodes == fresh_nodes(cfg, primaries(cfg, rooms_in(cfg)))
    &&& forall|i: int|
        0 <= i < b.rooms.len() ==> driver(
            b.nodes,
            #[trigger] b.room_nodes[b.rooms[i]],
        ) is Some
    &&& distinct_ids(cfg) ==> one_primary_each(b.nodes, cfg)
}

/// One more entry adds its room where that is new, its node to the nodes of the
/// room, and is the last of its node.
pub proof fn entry_extends(cfg: Seq<NodeCfg>, n: int, room: Seq<char>)
    requires
        0 <= n < cfg.len(),
    ensures
        ids_in(cfg.take(n + 1), room) == (if cfg[n].room@ == room {
            ids_in(cfg.take(n), room).push(cfg[n].node_id)
        } else {
            ids_in(cfg.take(n), room)
        }),
{
    let p = entry_in(room);
    let head = cfg.take(n);
    assert(cfg.take(n + 1) =~= head.push(cfg[n]));
    head.lemma_filter_push(cfg[n], p);
    assert(node_ids(head.filter(p).push(cfg[n])) =~= node_ids(head.filter(p)).push(
        cfg[n].node_id,
    ));
}

/// A configuration names the rooms of its entries, and lists no node for a room
/// that it does not name.
pub proof fn rooms_are_named(cfg: Seq<NodeCfg>)
    ensures
        forall|i: int| 0 <= i < cfg.len() ==> rooms_in(cfg).contains((#[trigger] cfg[i]).room@),
        forall|i: int|
            0 <= i < rooms_in(cfg).len() ==> ids_in(cfg, #[trigger] rooms_in(cfg)[i]).len() > 0,
        forall|room: Seq<char>|
            !rooms_in(cfg).contains(room) ==> #[trigger] ids_in(cfg, room).len() == 0,
    decreases cfg.len(),
{
    if cfg.len() == 0 {
        assert forall|room: Seq<char>| #[trigger] ids_in(cfg, room).len() == 0 by {
            assert(cfg.filter(entry_in(room)) =~= Seq::<NodeCfg>::empty());
        }
    } else {
        let head = cfg.drop_last();
        let room = cfg.last().room@;
        let before = rooms_in(head);
        rooms_are_named(head);
        assert(cfg.take(cfg.len() as int) =~= cfg);
        assert(cfg.take(cfg.len() - 1) =~= head);
        if !before.contains(room) {
            assert(rooms_in(cfg)[before.len() as int] == room);
        }
        assert forall|r: Seq<char>| before.contains(r) implies rooms_in(cfg).contains(r) by {
            let j = before.index_of(r);
            assert(rooms_in(cfg)[j] == r);
        }
        assert forall|i: int| 0 <= i < cfg.len() implies rooms_in(cfg).contains(
            (#[trigger] cfg[i]).room@,
        ) by {
            if i < head.len() {
                assert(head[i] == cfg[i]);
            }
        }
        assert forall|i: int| 0 <= i < rooms_in(cfg).len() implies ids_in(
            cfg,
            #[trigger] rooms_in(cfg)[i],
        ).len() > 0 by {
            let r = rooms_in(cfg)[i];
            entry_extends(cfg, cfg.len() - 1, r);
            if i < before.len() {
                assert(before[i] == r);
            }
        }
        assert forall|r: Seq<char>| !rooms_in(cfg).contains(r) implies #[trigger] ids_in(
            cfg,
            r,
        ).len() == 0 by {
            entry_extends(cfg, cfg.len() - 1, r);
        }
    }
}

/// A configuration names no room twice.
pub proof fn rooms_are_distinct(cfg: Seq<NodeCfg>)
    ensures
        rooms_in(cfg).no_duplicates(),
    decreases cfg.len(),
{
    if cfg.len() > 0 {
        rooms_are_distinct(cfg.drop_last());
    }
}

/// A node that a configuration lists for a room has an entry.
pub proof fn listed_nodes_have_entries(cfg: Seq<NodeCfg>, room: Seq<char>, j: int)
    requires
        0 <= j < ids_in(cfg, room).len(),
    ensures
        entry_of(cfg, ids_in(cfg, room)[j]) is Some,
    decreases cfg.len(),
{
    if cfg.len() == 0 {
        assert(cfg.filter(entry_in(room)) =~= Seq::<NodeCfg>::empty());
    } else {
        let head = cfg.drop_last();
        assert(cfg.take(cfg.len() as int) =~= cfg);
        assert(cfg.take(cfg.len() - 1) =~= head);
        entry_extends(cfg, cfg.len() - 1, room);
        if j < ids_in(head, room).len() {
            assert(ids_in(cfg, room)[j] == ids_in(head, room)[j]);
            listed_nodes_have_entries(head, room, j);
        }
    }
}

/// A listed node is of an entry for its room.
proof fn listed_nodes_are_of_the_room(cfg: Seq<NodeCfg>, room: Seq<char>, j: int) -> (k: int)
    requires
        0 <= j < ids_in(cfg, room).len(),
    ensures
        0 <= k < cfg.len(),
        cfg[k].room@ == room,
        cfg[k].node_id == ids_in(cfg, room)[j],
{
    let p = entry_in(room);
    let kept = cfg.filter(p);
    cfg.lemma_filter_pred(p, j);
    cfg.lemma_filter_contains_rev(p, kept[j]);
    cfg.index_of(kept[j])
}

/// Where no node is configured twice, no two rooms list the same node.
pub proof fn rooms_share_no_node(
    cfg: Seq<NodeCfg>,
    a: Seq<char>,
    i: int,
    b: Seq<char>,
    j: int,
)
    requires
        distinct_ids(cfg),
        0 <= i < ids_in(cfg, a).len(),
        0 <= j < ids_in(cfg, b).len(),
        ids_in(cfg, a)[i] == ids_in(cfg, b)[j],
    ensures
        a == b,
{
    let x = listed_nodes_are_of_the_room(cfg, a, i);
    let y = listed_nodes_are_of_the_room(cfg, b, j);
    assert(node_ids(cfg)[x] == node_ids(cfg)[y]);
}

/// The primary node of a room is listed for it.
pub proof fn primary_is_listed(cfg: Seq<NodeCfg>, room: Seq<char>)
    requires
        ids_in(cfg, room).len() > 0,
    ensures
        exists|j: int|
            0 <= j < ids_in(cfg, room).len() && #[trigger] ids_in(cfg, room)[j] == primary_of(
                cfg,
                room,
            ),
{
    let ids = ids_in(cfg, room);
    first_is_first(ids, flagged_in(cfg));
    if first_flagged(cfg, room) is None {
        assert(ids[0] == primary_of(cfg, room));
    }
}

/// The leaders of rooms are their first flagged nodes.
proof fn leaders_are_flagged(cfg: Seq<NodeCfg>, rooms: Seq<Seq<char>>)
    ensures
        forall|i: int|
            0 <= i < rooms.len() && first_flagged(cfg, #[trigger] rooms[i]) is Some ==> leaders(
                cfg,
                rooms,
            ).contains(first_flagged(cfg, rooms[i])->0),
        forall|id: u8| #[trigger]
            leaders(cfg, rooms).contains(id) ==> exists|i: int|
                0 <= i < rooms.len() && first_flagged(cfg, #[trigger] rooms[i]) == Some(id),
    decreases rooms.len(),
{
    if rooms.len() > 0 {
        let head = rooms.drop_last();
        leaders_are_flagged(cfg, head);
        assert forall|i: int|
            0 <= i < rooms.len() && first_flagged(cfg, #[trigger] rooms[i]) is Some implies leaders(
            cfg,
            rooms,
        ).contains(first_flagged(cfg, rooms[i])->0) by {
            if i < head.len() {
                assert(head[i] == rooms[i]);
            }
        }
        assert forall|id: u8| #[trigger] leaders(cfg, rooms).contains(id) implies exists|i: int|
            0 <= i < rooms.len() && first_flagged(cfg, #[trigger] rooms[i]) == Some(id) by {
            if leaders(cfg, head).contains(id) {
                let i = choose|i: int|
                    0 <= i < head.len() && first_flagged(cfg, #[trigger] head[i]) == Some(id);
                assert(rooms[i] == head[i]);
            } else {
                assert(first_flagged(cfg, rooms[rooms.len() - 1]) == Some(id));
            }
        }
    }
}

/// After the first `n` rooms were taken in turn, a node is primary only where
/// the configuration gives it to a room; the leaders are primary; and each of
/// these rooms has a primary node.
pub proof fn primaries_are_given(cfg: Seq<NodeCfg>, n: int)
    requires
        0 <= n <= rooms_in(cfg).len(),
    ensures
        forall|id: u8| #[trigger]
            primaries(cfg, rooms_in(cfg).take(n)).contains(id) ==> exists|i: int|
                0 <= i < rooms_in(cfg).len() && primary_of(cfg, #[trigger] rooms_in(cfg)[i]) == id,
        leaders(cfg, rooms_in(cfg)).subset_of(primaries(cfg, rooms_in(cfg).take(n))),
        forall|i: int|
            0 <= i < n ==> any_in(
                ids_in(cfg, #[trigger] rooms_in(cfg)[i]),
                primaries(cfg, rooms_in(cfg).take(n)),
            ),
    decreases n,
{
    let rooms = rooms_in(cfg);
    let now = primaries(cfg, rooms.take(n));
    leaders_are_flagged(cfg, rooms);
    if n == 0 {
        assert forall|id: u8| #[trigger] now.contains(id) implies exists|i: int|
            0 <= i < rooms.len() && primary_of(cfg, #[trigger] rooms[i]) == id by {
            let i = choose|i: int|
                0 <= i < rooms.len() && first_flagged(cfg, #[trigger] rooms[i]) == Some(id);
            assert(primary_of(cfg, rooms[i]) == id);
        }
    } else {
        primaries_are_given(cfg, n - 1);
        rooms_are_named(cfg);
        let before = primaries(cfg, rooms.take(n - 1));
        let room = rooms[n - 1];
        let ids = ids_in(cfg, room);
        assert(rooms.take(n).drop_last() =~= rooms.take(n - 1));
        assert(rooms.take(n).last() == room);
        assert(ids.len() > 0);
        if !any_in(ids, before) {
            first_is_first(ids, flagged_in(cfg));
            if first_flagged(cfg, room) is Some {
                let id = first_flagged(cfg, room)->0;
                assert(before.contains(id));
                let j = choose|j: int| 0 <= j < ids.len() && #[trigger] ids[j] == id;
                assert(before.contains(ids[j]));
            }
            assert(primary_of(cfg, room) == ids[0]);
            assert(now.contains(ids[0]));
        }
        assert forall|i: int| 0 <= i < n implies any_in(
            ids_in(cfg, #[trigger] rooms[i]),
            now,
        ) by {
            if i < n - 1 {
                let these = ids_in(cfg, rooms[i]);
                assert(any_in(these, before));
                let j = choose|j: int| 0 <= j < these.len() && before.contains(#[trigger] these[j]);
                assert(now.contains(these[j]));
            }
        }
        assert forall|id: u8| #[trigger] now.contains(id) implies exists|i: int|
            0 <= i < rooms.len() && primary_of(cfg, #[trigger] rooms[i]) == id by {
            if !before.contains(id) {
                assert(primary_of(cfg, rooms[n - 1]) == id);
            }
        }
    }
}

/// Where no node is configured twice, exactly one node of each room is primary.
pub proof fn one_primary_where_distinct(cfg: Seq<NodeCfg>)
    requires
        distinct_ids(cfg),
    ensures
        one_primary_each(fresh_nodes(cfg, primaries(cfg, rooms_in(cfg))), cfg),
{
    let rooms = rooms_in(cfg);
    let chosen = primaries(cfg, rooms);
    let nodes = fresh_nodes(cfg, chosen);
    assert(rooms.take(rooms.len() as int) =~= rooms);
    primaries_are_given(cfg, rooms.len() as int);
    rooms_are_named(cfg);
    assert forall|room: Seq<char>, j: int|
        #![trigger ids_in(cfg, room)[j]]
        rooms.contains(room) && 0 <= j < ids_in(cfg, room).len() implies (
    nodes[ids_in(cfg, room)[j]].is_primary <==> ids_in(cfg, room)[j] == primary_of(cfg, room)) by {
        let ids = ids_in(cfg, room);
        let at = rooms.index_of(room);
        assert(rooms[at] == room);
        assert(any_in(ids_in(cfg, rooms[at]), chosen));
        let k = choose|k: int| 0 <= k < ids.len() && chosen.contains(#[trigger] ids[k]);
        only_the_primary(cfg, room, k);
        listed_nodes_have_entries(cfg, room, j);
        if chosen.contains(ids[j]) {
            only_the_primary(cfg, room, j);
        }
    }
}

/// Where no node is configured twice, a primary node that is listed for a room
/// is the one that the configuration gives it.
#[verifier::spinoff_prover]
#[verifier::rlimit(40)]
proof fn only_the_primary(cfg: Seq<NodeCfg>, room: Seq<char>, j: int)
    requires
        distinct_ids(cfg),
        0 <= j < ids_in(cfg, room).len(),
        primaries(cfg, rooms_in(cfg)).contains(ids_in(cfg, room)[j]),
    ensures
        ids_in(cfg, room)[j] == primary_of(cfg, room),
{
    let rooms = rooms_in(cfg);
    let id = ids_in(cfg, room)[j];
    assert(rooms.take(rooms.len() as int) =~= rooms);
    primaries_are_given(cfg, rooms.len() as int);
    rooms_are_named(cfg);
    let i = choose|i: int| 0 <= i < rooms.len() && primary_of(cfg, #[trigger] rooms[i]) == id;
    primary_is_listed(cfg, rooms[i]);
    let k = choose|k: int|
        0 <= k < ids_in(cfg, rooms[i]).len() && #[trigger] ids_in(cfg, rooms[i])[k] == primary_of(
            cfg,
            rooms[i],
        );
    rooms_share_no_node(cfg, room, j, rooms[i], k);
}

/// The address that payloads go to is what stands before the slashes at the end
/// of the server's, with the route behind it.
pub proof fn url_drops_the_last_slashes(server: Seq<char>)
    ensures
        without_slashes(server).is_prefix_of(server),
        without_slashes(server).len() > 0 ==> without_slashes(server).last() != '/',
        forall|i: int|
            without_slashes(server).len() <= i < server.len() ==> #[trigger] server[i] == '/',
    decreases server.len(),
{
    if server.len() > 0 && server.last() == '/' {
        let head = server.drop_last();
        url_drops_the_last_slashes(head);
        let kept = without_slashes(server);
        assert(kept =~= server.subrange(0, kept.len() as int)) by {
            assert(kept =~= head.subrange(0, kept.len() as int));
        }
        assert forall|i: int| kept.len() <= i < server.len() implies #[trigger] server[i]
            == '/' by {
            if i < head.len() {
                assert(head[i] == server[i]);
            }
        }
    } else {
        assert(server.subrange(0, server.len() as int) =~= server);
    }
}

/// The node of an id is the last that a configuration enters under it: it has
/// the floor-plan id of that entry, and nothing is held of it yet.
pub proof fn last_entry_names_the_node(cfg: Seq<NodeCfg>, primary: Set<u8>, i: int)
    requires
        0 <= i < cfg.len(),
        forall|k: int| i < k < cfg.len() ==> (#[trigger] cfg[k]).node_id != cfg[i].node_id,
    ensures
        fresh_nodes(cfg, primary).contains_key(cfg[i].node_id),
        fresh_nodes(cfg, primary)[cfg[i].node_id].sensor_id == cfg[i].sensor_id@,
        fresh_nodes(cfg, primary)[cfg[i].node_id].samples.len() == 0,
        fresh_nodes(cfg, primary)[cfg[i].node_id].last_rssi is None,
        flagged(cfg, cfg[i].node_id) == cfg[i].primary,
    decreases cfg.len(),
{
    if i < cfg.len() - 1 {
        let head = cfg.drop_last();
        assert(cfg[cfg.len() - 1].node_id != cfg[i].node_id);
        assert forall|k: int| i < k < head.len() implies (#[trigger] head[k]).node_id
            != head[i].node_id by {
            assert(cfg[k].node_id != cfg[i].node_id);
        }
        last_entry_names_the_node(head, primary, i);
    }
}

/// Of the nodes that a configuration lists for a room, each is of an entry for
/// that room, and each entry for it is among them.
pub proof fn rooms_list_their_entries(cfg: Seq<NodeCfg>, room: Seq<char>, i: int, j: int)
    ensures
        0 <= i < cfg.len() && cfg[i].room@ == room ==> ids_in(cfg, room).contains(cfg[i].node_id),
        0 <= j < ids_in(cfg, room).len() ==> exists|k: int|
            0 <= k < cfg.len() && (#[trigger] cfg[k]).room@ == room && cfg[k].node_id == ids_in(
                cfg,
                room,
            )[j],
{
    let p = entry_in(room);
    let kept = cfg.filter(p);
    if 0 <= i < cfg.len() && cfg[i].room@ == room {
        cfg.lemma_filter_contains(p, i);
        let k = kept.index_of(cfg[i]);
        assert(ids_in(cfg, room)[k] == cfg[i].node_id);
    }
    if 0 <= j < ids_in(cfg, room).len() {
        let k = listed_nodes_are_of_the_room(cfg, room, j);
        assert(cfg[k].room@ == room);
    }
}

} // verus!
