//! What the bridge holds, and how frames and drains change it.

use vstd::prelude::*;

use super::frames::{sample_of, CsiSample, Sample};
use crate::ranked::views;
use crate::seqs::first;

verus! {

/// Samples buffered for a node, at most: a server that is away cannot make the
/// buffer grow without bound.
pub const MAX_SAMPLES: usize = 4000;

/// What the bridge holds of a node.
#[derive(Debug)]
pub struct NodeState {
    /// Id of the node in the floor plan.
    pub sensor_id: String,
    /// Whether the node drives the series of its room.
    pub is_primary: bool,
    /// The buffered samples, oldest first.
    pub samples: Vec<CsiSample>,
    /// The latest signal strength (dBm).
    pub last_rssi: Option<i8>,
}

/// The content of what the bridge holds of a node.
#[verifier::ext_equal]
pub struct Node {
    /// Id of the node in the floor plan.
    pub sensor_id: Seq<char>,
    /// Whether the node drives the series of its room.
    pub is_primary: bool,
    /// The buffered samples, oldest first.
    pub samples: Seq<Sample>,
    /// The latest signal strength.
    pub last_rssi: Option<i8>,
}

impl View for NodeState {
    type V = Node;

    open spec fn view(&self) -> Node {
        Node {
            sensor_id: self.sensor_id@,
            is_primary: self.is_primary,
            samples: views(self.samples@),
            last_rssi: self.last_rssi,
        }
    }
}

/// A payload for one room.
#[derive(Debug)]
pub struct CsiPost {
    /// Room label.
    pub room: String,
    /// The series of the primary node.
    pub samples: Vec<CsiSample>,
    /// Floor-plan id and signal strength of each node heard.
    pub sensor_rssi: Vec<(String, i8)>,
}

/// The content of a payload.
#[verifier::ext_equal]
pub struct Post {
    /// Room label.
    pub room: Seq<char>,
    /// The series of the primary node.
    pub samples: Seq<Sample>,
    /// Floor-plan id and signal strength of each node heard.
    pub sensor_rssi: Seq<(Seq<char>, i8)>,
}

/// Ids and signal strengths by content.
pub open spec fn rssi_view(rssi: Seq<(String, i8)>) -> Seq<(Seq<char>, i8)> {
    rssi.map_values(|e: (String, i8)| (e.0@, e.1))
}

impl View for CsiPost {
    type V = Post;

    open spec fn view(&self) -> Post {
        Post {
            room: self.room@,
            samples: views(self.samples@),
            sensor_rssi: rssi_view(self.sensor_rssi@),
        }
    }
}

/// The nodes by id.
pub type Nodes = Map<u8, Node>;

/// All that the bridge holds.
#[verifier::ext_equal]
pub struct BridgeView {
    /// The nodes by id.
    pub nodes: Nodes,
    /// The rooms, in the order in which the configuration first names them.
    pub rooms: Seq<Seq<char>>,
    /// The ids of the nodes of each room, in the order of the configuration.
    pub room_nodes: Map<Seq<char>, Seq<u8>>,
}

/// The last `MAX_SAMPLES` of a series.
pub open spec fn latest(samples: Seq<Sample>) -> Seq<Sample> {
    if samples.len() > MAX_SAMPLES {
        samples.skip(samples.len() - MAX_SAMPLES)
    } else {
        samples
    }
}

/// A node after one of its frames: it keeps the signal strength, and the sample
/// where it is primary.
pub open spec fn node_after(node: Node, frame: (u8, i8, Seq<(i16, i16)>)) -> Node {
    Node {
        last_rssi: Some(frame.1),
        samples: if node.is_primary {
            latest(node.samples.push(sample_of(frame)))
        } else {
            node.samples
        },
        ..node
    }
}

/// The nodes after frames. A frame of a node that is not configured changes
/// nothing.
pub open spec fn nodes_after(nodes: Nodes, frames: Seq<(u8, i8, Seq<(i16, i16)>)>) -> Nodes
    decreases frames.len(),
{
    if frames.len() == 0 {
        nodes
    } else {
        let before = nodes_after(nodes, frames.drop_last());
        let frame = frames.last();
        if nodes.contains_key(frame.0) {
            before.insert(frame.0, node_after(before[frame.0], frame))
        } else {
            before
        }
    }
}

/// How many of the frames are of a configured node.
pub open spec fn mapped(nodes: Nodes, frames: Seq<(u8, i8, Seq<(i16, i16)>)>) -> nat {
    frames.filter(|f: (u8, i8, Seq<(i16, i16)>)| nodes.contains_key(f.0)).len()
}

/// The condition that a node is primary.
pub open spec fn primary_in(nodes: Nodes) -> spec_fn(u8) -> bool {
    |id: u8| nodes[id].is_primary
}

/// The node that drives the series of a room: its first primary one.
pub open spec fn driver(nodes: Nodes, ids: Seq<u8>) -> Option<u8> {
    first(ids, primary_in(nodes))
}

/// The series that a room has buffered.
pub open spec fn series(nodes: Nodes, ids: Seq<u8>) -> Seq<Sample> {
    match driver(nodes, ids) {
        Some(id) => nodes[id].samples,
        None => Seq::empty(),
    }
}

/// The nodes after the series of a room was taken.
pub open spec fn taken(nodes: Nodes, ids: Seq<u8>) -> Nodes {
    match driver(nodes, ids) {
        Some(id) => nodes.insert(id, Node { samples: Seq::empty(), ..nodes[id] }),
        None => nodes,
    }
}

/// The floor-plan ids and signal strengths of the nodes of a room that were
/// heard.
pub open spec fn heard_in(nodes: Nodes, ids: Seq<u8>) -> Seq<(Seq<char>, i8)> {
    ids.filter(|id: u8| nodes[id].last_rssi is Some).map_values(
        |id: u8| (nodes[id].sensor_id, nodes[id].last_rssi->0),
    )
}

/// The nodes after the series of rooms were taken, one room after the other.
pub open spec fn drained(
    nodes: Nodes,
    rooms: Seq<Seq<char>>,
    room_nodes: Map<Seq<char>, Seq<u8>>,
) -> Nodes
    decreases rooms.len(),
{
    if rooms.len() == 0 {
        nodes
    } else {
        taken(drained(nodes, rooms.drop_last(), room_nodes), room_nodes[rooms.last()])
    }
}

/// The payloads of rooms: one for each room with a series, with the signal
/// strength of every node of the room that was heard.
pub open spec fn posts(
    nodes: Nodes,
    rooms: Seq<Seq<char>>,
    room_nodes: Map<Seq<char>, Seq<u8>>,
) -> Seq<Post>
    decreases rooms.len(),
{
    if rooms.len() == 0 {
        Seq::empty()
    } else {
        let before = posts(nodes, rooms.drop_last(), room_nodes);
        let then = drained(nodes, rooms.drop_last(), room_nodes);
        let ids = room_nodes[rooms.last()];
        if series(then, ids).len() == 0 {
            before
        } else {
            before.push(
                Post {
                    room: rooms.last(),
                    samples: series(then, ids),
                    sensor_rssi: heard_in(then, ids),
                },
            )
        }
    }
}

/// Whether every room has its nodes listed.
pub open spec fn rooms_listed(
    rooms: Seq<Seq<char>>,
    room_nodes: Map<Seq<char>, Seq<u8>>,
) -> bool {
    forall|i: int| 0 <= i < rooms.len() ==> room_nodes.contains_key(#[trigger] rooms[i])
}

/// Whether every listed node is held.
pub open spec fn nodes_held(room_nodes: Map<Seq<char>, Seq<u8>>, nodes: Nodes) -> bool {
    forall|room: Seq<char>, j: int|
        #![trigger room_nodes[room][j]]
        room_nodes.contains_key(room) && 0 <= j < room_nodes[room].len() ==> nodes.contains_key(
            room_nodes[room][j],
        )
}

impl BridgeView {
    /// No room occurs twice, every room has its nodes listed, and every listed
    /// node is held.
    pub open spec fn linked(self) -> bool {
        &&& self.rooms.no_duplicates()
        &&& rooms_listed(self.rooms, self.room_nodes)
        &&& nodes_held(self.room_nodes, self.nodes)
    }

    /// After frames came in.
    pub open spec fn fed(self, frames: Seq<(u8, i8, Seq<(i16, i16)>)>) -> BridgeView {
        BridgeView { nodes: nodes_after(self.nodes, frames), ..self }
    }

    /// After a drain.
    pub open spec fn emptied(self) -> BridgeView {
        BridgeView { nodes: drained(self.nodes, self.rooms, self.room_nodes), ..self }
    }

    /// The payloads of a drain.
    pub open spec fn payloads(self) -> Seq<Post> {
        posts(self.nodes, self.rooms, self.room_nodes)
    }
}

} // verus!
