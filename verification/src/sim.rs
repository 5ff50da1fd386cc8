//! A scripted scenario that needs no hardware.
//!
//! Everything this module gives is synthetic: there is no live radio. Quantities
//! are counted in tenths, which the caller turns into measures.

use vstd::prelude::*;

use crate::domain::reading::MovementLevel;
use crate::domain::structure::{
    distinct_rooms, Room, RoomBounds, SensorPlacement, Structure, DEFAULT_SENSOR_HEIGHT_BITS,
};
use crate::ids::{random_uuid, RoomId};
use crate::measure::Measure;
use crate::ranked::views;
use crate::seqs::first_at;

verus! {

/// The noise that a scenario starts from.
pub const SEED: u64 = 0x5EED_1234;

/// Multiplier of the noise generator.
pub const LCG_MULTIPLIER: u64 = 1664525;

/// Increment of the noise generator.
pub const LCG_INCREMENT: u64 = 1013904223;

/// One cycle in this many is a dropout of a room.
pub const DROPOUT_IN: u32 = 14;

/// One cycle in this many shows fine motion of a still occupant.
pub const FINE_MOTION_IN: u32 = 4;

/// Tenths of a breath per minute over which a breathing rate varies.
pub const BREATHING_SPAN: u32 = 40;

/// Tenths of a dBm over which a signal strength varies.
pub const RSSI_SPAN: u32 = 140;

/// A node of a floor plan: its id and its position.
pub struct NodePlan {
    /// Node id.
    pub id: Seq<char>,
    /// X position.
    pub x: Measure,
    /// Y position.
    pub y: Measure,
}

/// A room of a floor plan: its label, its footprint and its nodes.
pub struct RoomPlan {
    /// Room label.
    pub name: Seq<char>,
    /// Footprint.
    pub bounds: RoomBounds,
    /// Nodes.
    pub nodes: Seq<NodePlan>,
}

/// A footprint from the bits of its corners.
pub open spec fn footprint(min_x: u64, min_y: u64, max_x: u64, max_y: u64) -> RoomBounds {
    RoomBounds {
        min_x: Measure { bits: min_x },
        min_y: Measure { bits: min_y },
        max_x: Measure { bits: max_x },
        max_y: Measure { bits: max_y },
    }
}

/// A node from its id and the bits of its position.
pub open spec fn placed(id: Seq<char>, x: u64, y: u64) -> NodePlan {
    NodePlan { id, x: Measure { bits: x }, y: Measure { bits: y } }
}

/// The bits of 0.
pub const M_0: u64 = 0;

/// The bits of 0.2.
pub const M_0_2: u64 = 0x3FC9_9999_9999_999A;

/// The bits of 3.
pub const M_3: u64 = 0x4008_0000_0000_0000;

/// The bits of 4.8.
pub const M_4_8: u64 = 0x4013_3333_3333_3333;

/// The bits of 5.
pub const M_5: u64 = 0x4014_0000_0000_0000;

/// The bits of 5.2.
pub const M_5_2: u64 = 0x4014_CCCC_CCCC_CCCD;

/// The bits of 5.8.
pub const M_5_8: u64 = 0x4017_3333_3333_3333;

/// The bits of 6.
pub const M_6: u64 = 0x4018_0000_0000_0000;

/// The bits of 6.2.
pub const M_6_2: u64 = 0x4018_CCCC_CCCC_CCCD;

/// The bits of 6.5.
pub const M_6_5: u64 = 0x401A_0000_0000_0000;

/// The bits of 6.7.
pub const M_6_7: u64 = 0x401A_CCCC_CCCC_CCCD;

/// The bits of 7.5.
pub const M_7_5: u64 = 0x401E_0000_0000_0000;

/// The bits of 9.8.
pub const M_9_8: u64 = 0x4023_9999_9999_999A;

/// The bits of 10.
pub const M_10: u64 = 0x4024_0000_0000_0000;

/// The bits of 10.8.
pub const M_10_8: u64 = 0x4025_9999_9999_999A;

/// The bits of 11.
pub const M_11: u64 = 0x4026_0000_0000_0000;

/// The bits of 12.
pub const M_12: u64 = 0x4028_0000_0000_0000;

/// The demo house: one bedroom with three nodes, the other rooms with one or
/// two.
pub open spec fn demo_plan() -> Seq<RoomPlan> {
    seq![
        RoomPlan {
            name: "Living Room"@,
            bounds: footprint(M_0, M_0, M_6, M_5),
            nodes: seq![placed("living-a"@, M_0_2, M_0_2), placed("living-b"@, M_5_8, M_0_2)],
        },
        RoomPlan {
            name: "Kitchen"@,
            bounds: footprint(M_6, M_0, M_10, M_5),
            nodes: seq![placed("kitchen-a"@, M_6_2, M_4_8)],
        },
        RoomPlan {
            name: "Hallway"@,
            bounds: footprint(M_0, M_5, M_10, M_6_5),
            nodes: seq![placed("hall-a"@, M_0_2, M_5_8), placed("hall-b"@, M_9_8, M_5_8)],
        },
        RoomPlan {
            name: "Bedroom 1"@,
            bounds: footprint(M_0, M_6_5, M_5, M_11),
            nodes: seq![placed("bed1-a"@, M_0_2, M_6_7), placed("bed1-b"@, M_4_8, M_6_7)],
        },
        RoomPlan {
            name: "Bedroom 2"@,
            bounds: footprint(M_5, M_6_5, M_10, M_11),
            nodes: seq![
                placed("bed2-a"@, M_5_2, M_6_7),
                placed("bed2-b"@, M_9_8, M_6_7),
                placed("bed2-c"@, M_7_5, M_10_8),
            ],
        },
        RoomPlan {
            name: "Bathroom"@,
            bounds: footprint(M_10, M_0, M_12, M_6_5),
            nodes: seq![placed("bath-a"@, M_11, M_3)],
        },
    ]
}

/// Whether a room is laid out as a plan says, on the ground floor and under a
/// random id.
pub open spec fn follows(room: Room, plan: RoomPlan) -> bool {
    &&& random_uuid(room.id.uuid)
    &&& room.name@ == plan.name
    &&& room.floor == 0
    &&& room.bounds == plan.bounds
    &&& room.sensors@.len() == plan.nodes.len()
    &&& forall|j: int|
        0 <= j < plan.nodes.len() ==> {
            &&& (#[trigger] room.sensors@[j]).id@ == plan.nodes[j].id
            &&& room.sensors@[j].x == plan.nodes[j].x
            &&& room.sensors@[j].y == plan.nodes[j].y
            &&& room.sensors@[j].z.bits == DEFAULT_SENSOR_HEIGHT_BITS
        }
}

/// Whether a structure is the demo house.
pub open spec fn is_demo(s: Structure) -> bool {
    &&& random_uuid(s.id.uuid)
    &&& s.name@ == "SIM — 1420 Cedar St"@
    &&& s.rooms@.len() == demo_plan().len()
    &&& forall|i: int| 0 <= i < demo_plan().len() ==> follows(#[trigger] s.rooms@[i], demo_plan()[i])
}

/// A footprint from the bits of its corners.
fn bounds_of(min_x: u64, min_y: u64, max_x: u64, max_y: u64) -> (r: RoomBounds)
    ensures
        r == footprint(min_x, min_y, max_x, max_y),
{
    RoomBounds::new(
        Measure::from_bits(min_x),
        Measure::from_bits(min_y),
        Measure::from_bits(max_x),
        Measure::from_bits(max_y),
    )
}

/// A room with one more node.
fn with_node(room: Room, id: &str, x: u64, y: u64, Ghost(plan): Ghost<RoomPlan>) -> (r: Room)
    requires
        follows(room, plan),
    ensures
        follows(r, RoomPlan { nodes: plan.nodes.push(placed(id@, x, y)), ..plan }),
        r.id == room.id,
{
    let r: Room = room.with_sensor(id, Measure::from_bits(x), Measure::from_bits(y));
    proof {
        let nodes = plan.nodes.push(placed(id@, x, y));
        assert forall|j: int| 0 <= j < nodes.len() implies {
            &&& (#[trigger] r.sensors@[j]).id@ == nodes[j].id
            &&& r.sensors@[j].x == nodes[j].x
            &&& r.sensors@[j].y == nodes[j].y
            &&& r.sensors@[j].z.bits == DEFAULT_SENSOR_HEIGHT_BITS
        } by {
            if j < plan.nodes.len() {
                assert(r.sensors@.drop_last()[j] == room.sensors@[j]);
            }
        }
    }
    r
}

/// A room without nodes, on the ground floor.
fn bare_room(name: &str, bounds: RoomBounds) -> (r: Room)
    ensures
        follows(r, RoomPlan { name: name@, bounds, nodes: Seq::empty() }),
{
    Room::new(name, 0, bounds)
}

/// A room with nodes as given.
fn planned_room(name: &str, bounds: RoomBounds, nodes: &[(&str, u64, u64)]) -> (r: Room)
    ensures
        follows(
            r,
            RoomPlan {
                name: name@,
                bounds,
                nodes: nodes@.map_values(|n: (&str, u64, u64)| placed(n.0@, n.1, n.2)),
            },
        ),
{
    let ghost all = nodes@.map_values(|n: (&str, u64, u64)| placed(n.0@, n.1, n.2));
    let ghost plan = RoomPlan { name: name@, bounds, nodes: Seq::empty() };
    let mut room: Room = bare_room(name, bounds);
    let mut i: usize = 0;
    assert(all.take(0) =~= Seq::empty());
    while i < nodes.len()
        invariant
            i <= nodes@.len(),
            all == nodes@.map_values(|n: (&str, u64, u64)| placed(n.0@, n.1, n.2)),
            plan == (RoomPlan { name: name@, bounds, nodes: Seq::empty() }),
            follows(room, RoomPlan { nodes: all.take(i as int), ..plan }),
        decreases nodes@.len() - i,
    {
        let (id, x, y) = nodes[i];
        assert(all.take(i + 1) =~= all.take(i as int).push(placed(id@, x, y)));
        room = with_node(
            room,
            id,
            x,
            y,
            Ghost(RoomPlan { nodes: all.take(i as int), ..plan }),
        );
        i = i + 1;
    }
    assert(all.take(i as int) =~= all);
    room
}

/// The demo house, under fresh random ids.
pub fn demo_structure() -> (r: Structure)
    ensures
        is_demo(r),
{
    let living: Room = planned_room(
        "Living Room",
        bounds_of(M_0, M_0, M_6, M_5),
        &[("living-a", M_0_2, M_0_2), ("living-b", M_5_8, M_0_2)],
    );
    let kitchen: Room = planned_room(
        "Kitchen",
        bounds_of(M_6, M_0, M_10, M_5),
        &[("kitchen-a", M_6_2, M_4_8)],
    );
    let hallway: Room = planned_room(
        "Hallway",
        bounds_of(M_0, M_5, M_10, M_6_5),
        &[("hall-a", M_0_2, M_5_8), ("hall-b", M_9_8, M_5_8)],
    );
    let bedroom1: Room = planned_room(
        "Bedroom 1",
        bounds_of(M_0, M_6_5, M_5, M_11),
        &[("bed1-a", M_0_2, M_6_7), ("bed1-b", M_4_8, M_6_7)],
    );
    let bedroom2: Room = planned_room(
        "Bedroom 2",
        bounds_of(M_5, M_6_5, M_10, M_11),
        &[("bed2-a", M_5_2, M_6_7), ("bed2-b", M_9_8, M_6_7), ("bed2-c", M_7_5, M_10_8)],
    );
    let bathroom: Room = planned_room(
        "Bathroom",
        bounds_of(M_10, M_0, M_12, M_6_5),
        &[("bath-a", M_11, M_3)],
    );
    let house: Structure = Structure::new("SIM — 1420 Cedar St").with_room(living).with_room(
        kitchen,
    ).with_room(hallway).with_room(bedroom1).with_room(bedroom2).with_room(bathroom);
    house
}

/// What the script says of a room.
#[derive(Clone, Copy, Debug, PartialEq, Eq, Structural)]
pub struct RoomTruth {
    /// Room id.
    pub room_id: RoomId,
    /// People present.
    pub occupancy: u32,
    /// Whether they move around.
    pub moving: bool,
    /// Whether a breathing rhythm can be resolved.
    pub breathing: bool,
}

/// A synthetic reading of a room.
#[derive(Clone, Debug)]
pub struct SimReading {
    /// Room id.
    pub room_id: RoomId,
    /// Whether presence is reported.
    pub presence: bool,
    /// Breathing rate, in tenths of a breath per minute above fourteen.
    pub breathing_tenths: Option<u32>,
    /// Movement level.
    pub movement: MovementLevel,
    /// Occupancy.
    pub occupancy: u32,
    /// Signal strength of each node, in tenths of a dBm below -52.
    pub rssi_tenths: Vec<(String, u32)>,
}

/// The content of a synthetic reading, without its room.
#[verifier::ext_equal]
pub struct Script {
    /// Whether presence is reported.
    pub presence: bool,
    /// Breathing rate, in tenths of a breath per minute above fourteen.
    pub breathing_tenths: Option<u32>,
    /// Movement level.
    pub movement: MovementLevel,
    /// Occupancy.
    pub occupancy: u32,
    /// Signal strength of each node, in tenths of a dBm below -52.
    pub rssi_tenths: Seq<(Seq<char>, u32)>,
}

/// Ids and tenths by content.
pub open spec fn tenths_view(rssi: Seq<(String, u32)>) -> Seq<(Seq<char>, u32)> {
    rssi.map_values(|e: (String, u32)| (e.0@, e.1))
}

impl View for SimReading {
    type V = (RoomId, Script);

    open spec fn view(&self) -> (RoomId, Script) {
        (
            self.room_id,
            Script {
                presence: self.presence,
                breathing_tenths: self.breathing_tenths,
                movement: self.movement,
                occupancy: self.occupancy,
                rssi_tenths: tenths_view(self.rssi_tenths@),
            },
        )
    }
}

/// The noise after one step of the generator.
pub open spec fn step(rng: u64) -> u64 {
    ((rng * LCG_MULTIPLIER + LCG_INCREMENT) % 0x1_0000_0000_0000_0000) as u64
}

/// The noise after `n` steps of the generator.
pub open spec fn steps(rng: u64, n: nat) -> u64
    decreases n,
{
    if n == 0 {
        rng
    } else {
        step(steps(rng, (n - 1) as nat))
    }
}

/// The number that a state of the generator draws: its bits 16 to 47.
pub open spec fn drawn(rng: u64) -> u32 {
    ((rng / 0x1_0000) % 0x1_0000_0000) as u32
}

/// The number that the `n`th step from a state draws.
pub open spec fn draw(rng: u64, n: nat) -> u32 {
    drawn(steps(rng, n))
}

/// The signal strengths of nodes: one draw for each.
pub open spec fn rssi_from(nodes: Seq<Seq<char>>, rng: u64) -> Seq<(Seq<char>, u32)> {
    Seq::new(nodes.len(), |k: int| (nodes[k], draw(rng, (k + 1) as nat) % RSSI_SPAN))
}

/// Whether a cycle is a dropout of the room: its nodes stay quiet.
pub open spec fn drops_out(rng: u64) -> bool {
    draw(rng, 1) % DROPOUT_IN == 0
}

/// The generator after the draws for the dropout and for the nodes.
pub open spec fn after_nodes(nodes: Seq<Seq<char>>, rng: u64) -> u64 {
    if drops_out(rng) {
        steps(rng, 1)
    } else {
        steps(steps(rng, 1), nodes.len())
    }
}

/// The reading of a room, from what the script says of it, its nodes and the
/// state of the generator.
pub open spec fn script_of(t: RoomTruth, nodes: Seq<Seq<char>>, rng: u64) -> Script {
    let rssi = if drops_out(rng) {
        Seq::empty()
    } else {
        rssi_from(nodes, steps(rng, 1))
    };
    if t.occupancy == 0 || drops_out(rng) {
        Script {
            presence: false,
            breathing_tenths: None,
            movement: MovementLevel::Still,
            occupancy: 0,
            rssi_tenths: rssi,
        }
    } else {
        let then = after_nodes(nodes, rng);
        let later = if t.moving {
            then
        } else {
            steps(then, 1)
        };
        Script {
            presence: true,
            breathing_tenths: if t.breathing {
                Some(draw(later, 1) % BREATHING_SPAN)
            } else {
                None
            },
            movement: if t.moving {
                MovementLevel::Gross
            } else if draw(then, 1) % FINE_MOTION_IN == 0 {
                MovementLevel::Fine
            } else {
                MovementLevel::Still
            },
            occupancy: t.occupancy,
            rssi_tenths: rssi,
        }
    }
}

/// The generator after the reading of a room.
pub open spec fn after_reading(t: RoomTruth, nodes: Seq<Seq<char>>, rng: u64) -> u64 {
    let then = after_nodes(nodes, rng);
    if t.occupancy == 0 || drops_out(rng) {
        then
    } else {
        let later = if t.moving {
            then
        } else {
            steps(then, 1)
        };
        if t.breathing {
            steps(later, 1)
        } else {
            later
        }
    }
}

/// The ids of the nodes of a room of a structure.
pub open spec fn nodes_in(structure: Structure, id: RoomId) -> Seq<Seq<char>> {
    match structure.room_at(id) {
        Some(room) => room.sensors@.map_values(|s: SensorPlacement| s.id@),
        None => Seq::empty(),
    }
}

/// The generator after the readings of rooms, one after the other.
pub open spec fn rng_after(structure: Structure, truth: Seq<RoomTruth>, rng: u64) -> u64
    decreases truth.len(),
{
    if truth.len() == 0 {
        rng
    } else {
        let t = truth.last();
        after_reading(
            t,
            nodes_in(structure, t.room_id),
            rng_after(structure, truth.drop_last(), rng),
        )
    }
}

/// The readings of rooms, one after the other.
pub open spec fn readings_of(structure: Structure, truth: Seq<RoomTruth>, rng: u64) -> Seq<
    (RoomId, Script),
> {
    Seq::new(
        truth.len(),
        |i: int|
            (
                truth[i].room_id,
                script_of(
                    truth[i],
                    nodes_in(structure, truth[i].room_id),
                    rng_after(structure, truth.take(i), rng),
                ),
            ),
    )
}

/// What the script of the demo house says of each room: the occupancy, whether
/// the occupants move and whether they can be heard breathing. Two people are
/// held still in the second bedroom, one paces the hallway, and the rest is
/// empty.
pub open spec fn demo_truth() -> Seq<(u32, bool, bool)> {
    seq![
        (0u32, false, false),
        (0u32, false, false),
        (1u32, true, false),
        (0u32, false, false),
        (2u32, false, true),
        (0u32, false, false),
    ]
}

/// A scripted scenario over the demo house.
#[derive(Debug)]
pub struct Scenario {
    structure: Structure,
    truth: Vec<RoomTruth>,
    tick: u64,
    rng: u64,
}

/// The content of a scenario.
#[verifier::ext_equal]
pub struct ScenarioView {
    /// The structure it runs over.
    pub structure: Structure,
    /// What it says of each room.
    pub truth: Seq<RoomTruth>,
    /// Cycles run.
    pub ticks: u64,
    /// State of the noise generator.
    pub rng: u64,
}

impl View for Scenario {
    type V = ScenarioView;

    closed spec fn view(&self) -> ScenarioView {
        ScenarioView {
            structure: self.structure,
            truth: self.truth@,
            ticks: self.tick,
            rng: self.rng,
        }
    }
}

impl ScenarioView {
    /// The scenario at its start, over a demo house.
    pub open spec fn fresh(self) -> bool {
        &&& is_demo(self.structure)
        &&& self.truth.len() == demo_truth().len()
        &&& forall|i: int|
            0 <= i < demo_truth().len() ==> {
                &&& (#[trigger] self.truth[i]).room_id == self.structure.rooms@[i].id
                &&& self.truth[i].occupancy == demo_truth()[i].0
                &&& self.truth[i].moving == demo_truth()[i].1
                &&& self.truth[i].breathing == demo_truth()[i].2
            }
        &&& self.ticks == 0
        &&& self.rng == SEED
    }

    /// The readings of the next cycle, one for each room.
    pub open spec fn readings(self) -> Seq<(RoomId, Script)> {
        readings_of(self.structure, self.truth, self.rng)
    }

    /// The scenario after the next cycle.
    pub open spec fn ticked(self) -> ScenarioView {
        ScenarioView {
            ticks: (self.ticks + 1) as u64,
            rng: rng_after(self.structure, self.truth, self.rng),
            ..self
        }
    }
}

/// Advance the noise generator and draw a number.
fn next_u32(rng: &mut u64) -> (r: u32)
    ensures
        *final(rng) == steps(*old(rng), 1),
        r == draw(*old(rng), 1),
{
    let ghost before = *rng;
    let after: u64 = rng.wrapping_mul(LCG_MULTIPLIER).wrapping_add(LCG_INCREMENT);
    proof {
        reveal_with_fuel(steps, 2);
        vstd::arithmetic::div_mod::lemma_add_mod_noop(
            before * LCG_MULTIPLIER,
            LCG_INCREMENT as int,
            0x1_0000_0000_0000_0000,
        );
        vstd::arithmetic::div_mod::lemma_small_mod(
            LCG_INCREMENT as nat,
            0x1_0000_0000_0000_0000,
        );
        assert(after == step(before));
        assert(after >> 16 == after / 0x1_0000) by (bit_vector);
    }
    *rng = after;
    ((after >> 16) % 0x1_0000_0000) as u32
}

/// Readings of the nodes of a room, one draw for each.
fn rssi_for_room(structure: &Structure, id: RoomId, rng: &mut u64) -> (r: Vec<(String, u32)>)
    ensures
        tenths_view(r@) == rssi_from(nodes_in(*structure, id), *old(rng)),
        *final(rng) == steps(*old(rng), nodes_in(*structure, id).len()),
{
    let ghost start = *rng;
    let ghost nodes = nodes_in(*structure, id);
    let mut r: Vec<(String, u32)> = Vec::new();
    if let Some(room) = structure.room(id) {
        let mut i: usize = 0;
        assert(tenths_view(r@) =~= rssi_from(nodes, start).take(0));
        while i < room.sensors.len()
            invariant
                i <= room.sensors@.len(),
                nodes == room.sensors@.map_values(|s: SensorPlacement| s.id@),
                *rng == steps(start, i as nat),
                tenths_view(r@) == rssi_from(nodes, start).take(i as int),
            decreases room.sensors@.len() - i,
        {
            let jitter: u32 = next_u32(rng) % RSSI_SPAN;
            proof {
                reveal_with_fuel(steps, 2);
                assert(steps(steps(start, i as nat), 1) == steps(start, (i + 1) as nat));
            }
            let ghost was = r@;
            r.push((room.sensors[i].id.clone(), jitter));
            i = i + 1;
            assert(tenths_view(r@) =~= tenths_view(was).push((nodes[i - 1], jitter)));
            assert(tenths_view(r@) =~= rssi_from(nodes, start).take(i as int));
        }
        assert(rssi_from(nodes, start).take(i as int) =~= rssi_from(nodes, start));
    } else {
        assert(tenths_view(r@) =~= rssi_from(nodes, start));
    }
    r
}

/// The reading of a room.
fn reading_for(structure: &Structure, t: &RoomTruth, rng: &mut u64) -> (r: SimReading)
    ensures
        r@ == (
            t.room_id,
            script_of(*t, nodes_in(*structure, t.room_id), *old(rng)),
        ),
        *final(rng) == after_reading(*t, nodes_in(*structure, t.room_id), *old(rng)),
{
    let dropout: bool = next_u32(rng) % DROPOUT_IN == 0;
    let rssi_tenths: Vec<(String, u32)> = if dropout {
        Vec::new()
    } else {
        rssi_for_room(structure, t.room_id, rng)
    };
    assert(dropout ==> tenths_view(rssi_tenths@) =~= Seq::empty());
    if t.occupancy == 0 || dropout {
        return SimReading {
            room_id: t.room_id,
            presence: false,
            breathing_tenths: None,
            movement: MovementLevel::Still,
            occupancy: 0,
            rssi_tenths,
        };
    }
    let movement: MovementLevel = if t.moving {
        MovementLevel::Gross
    } else if next_u32(rng) % FINE_MOTION_IN == 0 {
        MovementLevel::Fine
    } else {
        MovementLevel::Still
    };
    let breathing_tenths: Option<u32> = if t.breathing {
        Some(next_u32(rng) % BREATHING_SPAN)
    } else {
        None
    };
    SimReading {
        room_id: t.room_id,
        presence: true,
        breathing_tenths,
        movement,
        occupancy: t.occupancy,
        rssi_tenths,
    }
}

impl Default for Scenario {
    fn default() -> (r: Scenario)
        ensures
            r@.fresh(),
    {
        Scenario::new()
    }
}

impl Scenario {
    /// The scripted scenario at its start.
    pub fn new() -> (r: Scenario)
        ensures
            r@.fresh(),
    {
        let structure: Structure = demo_structure();
        let script: [(u32, bool, bool); 6] = [
            (0, false, false),
            (0, false, false),
            (1, true, false),
            (0, false, false),
            (2, false, true),
            (0, false, false),
        ];
        let mut truth: Vec<RoomTruth> = Vec::new();
        let mut i: usize = 0;
        while i < 6
            invariant
                i <= 6,
                is_demo(structure),
                structure.rooms@.len() == 6,
                script@ == demo_truth(),
                truth@.len() == i,
                forall|j: int|
                    0 <= j < i ==> {
                        &&& (#[trigger] truth@[j]).room_id == structure.rooms@[j].id
                        &&& truth@[j].occupancy == demo_truth()[j].0
                        &&& truth@[j].moving == demo_truth()[j].1
                        &&& truth@[j].breathing == demo_truth()[j].2
                    },
            decreases 6 - i,
        {
            let (occupancy, moving, breathing) = script[i];
            truth.push(RoomTruth { room_id: structure.rooms[i].id, occupancy, moving, breathing });
            i = i + 1;
        }
        Scenario { structure, truth, tick: 0, rng: SEED }
    }

    /// The structure that this scenario runs over.
    pub fn structure(&self) -> (r: &Structure)
        ensures
            *r == self@.structure,
    {
        &self.structure
    }

    /// Cycles run so far.
    pub fn ticks(&self) -> (r: u64)
        ensures
            r == self@.ticks,
    {
        self.tick
    }

    /// Run one sensing cycle: a reading for each room. Occupied rooms report
    /// presence with small jitter and now and then miss a cycle; empty rooms
    /// report none.
    pub fn tick(&mut self) -> (r: Vec<SimReading>)
        requires
            old(self)@.ticks < u64::MAX,
        ensures
            views(r@) == old(self)@.readings(),
            final(self)@ == old(self)@.ticked(),
    {
        let ghost before = self@;
        self.tick = self.tick + 1;
        let mut rng: u64 = self.rng;
        let mut r: Vec<SimReading> = Vec::new();
        let mut i: usize = 0;
        assert(before.truth.take(0) =~= Seq::empty());
        while i < self.truth.len()
            invariant
                i <= self.truth@.len(),
                self.truth@ == before.truth,
                self.structure == before.structure,
                self.tick == before.ticks + 1,
                rng == rng_after(before.structure, before.truth.take(i as int), before.rng),
                r@.len() == i,
                forall|j: int| 0 <= j < i ==> (#[trigger] r@[j])@ == before.readings()[j],
            decreases self.truth@.len() - i,
        {
            proof {
                let t = before.truth;
                assert(t.take(i + 1).drop_last() =~= t.take(i as int));
                assert(t.take(i + 1).last() == t[i as int]);
            }
            let reading: SimReading = reading_for(&self.structure, &self.truth[i], &mut rng);
            assert(reading@ == before.readings()[i as int]);
            r.push(reading);
            i = i + 1;
        }
        assert(before.truth.take(i as int) =~= before.truth);
        self.rng = rng;
        assert(views(r@) =~= before.readings());
        r
    }
}

/// One room of the demo house alone has the sensors for a point fix: the second
/// bedroom.
pub proof fn one_room_can_fix(s: Structure, i: int)
    requires
        is_demo(s),
        0 <= i < s.rooms@.len(),
    ensures
        s.rooms@[i].can_fix() <==> s.rooms@[i].name@ == "Bedroom 2"@,
{
    assert(follows(s.rooms@[i], demo_plan()[i]));
    reveal_strlit("Living Room");
    reveal_strlit("Kitchen");
    reveal_strlit("Hallway");
    reveal_strlit("Bedroom 1");
    reveal_strlit("Bedroom 2");
    reveal_strlit("Bathroom");
    assert("Bedroom 1"@[8] != "Bedroom 2"@[8]);
    assert("Living Room"@.len() != "Bedroom 2"@.len());
    assert("Kitchen"@.len() != "Bedroom 2"@.len());
    assert("Hallway"@.len() != "Bedroom 2"@.len());
    assert("Bathroom"@.len() != "Bedroom 2"@.len());
}

/// A room reports presence exactly where the script has people in it and the
/// cycle is no dropout. A dropout brings no signal strength; any other cycle
/// brings one of each node. The jitter stays within its span.
pub proof fn readings_keep_to_the_script(t: RoomTruth, nodes: Seq<Seq<char>>, rng: u64, k: int)
    ensures
        script_of(t, nodes, rng).presence <==> t.occupancy > 0 && !drops_out(rng),
        script_of(t, nodes, rng).presence ==> script_of(t, nodes, rng).occupancy == t.occupancy,
        script_of(t, nodes, rng).rssi_tenths.len() == (if drops_out(rng) {
            0
        } else {
            nodes.len()
        }),
        0 <= k < script_of(t, nodes, rng).rssi_tenths.len() ==> script_of(
            t,
            nodes,
            rng,
        ).rssi_tenths[k].1 < RSSI_SPAN,
        script_of(t, nodes, rng).breathing_tenths is Some ==> script_of(
            t,
            nodes,
            rng,
        ).breathing_tenths->0 < BREATHING_SPAN,
{
}

/// A scenario after `n` cycles.
pub open spec fn run(s: ScenarioView, n: nat) -> ScenarioView
    decreases n,
{
    if n == 0 {
        s
    } else {
        run(s, (n - 1) as nat).ticked()
    }
}

/// The ids of the nodes of a room of the demo house.
spec fn demo_nodes(i: int) -> Seq<Seq<char>> {
    demo_plan()[i].nodes.map_values(|n: NodePlan| n.id)
}

/// The nodes of a room of a demo house are those of the plan.
proof fn nodes_follow_the_plan(s: Structure, i: int)
    requires
        is_demo(s),
        distinct_rooms(s.rooms@),
        0 <= i < s.rooms@.len(),
    ensures
        nodes_in(s, s.rooms@[i].id) == demo_nodes(i),
{
    let id = s.rooms@[i].id;
    let p = |r: Room| r.id == id;
    assert forall|j: int| 0 <= j < i implies !p(#[trigger] s.rooms@[j]) by {
        assert(s.rooms@[j].id != s.rooms@[i].id);
    }
    first_at(s.rooms@, p, i);
    assert(follows(s.rooms@[i], demo_plan()[i]));
    assert(nodes_in(s, id) =~= demo_nodes(i));
}

/// What the script says of a room of the demo house.
spec fn says(s: ScenarioView) -> bool {
    &&& is_demo(s.structure)
    &&& distinct_rooms(s.structure.rooms@)
    &&& s.truth.len() == demo_truth().len()
    &&& forall|i: int|
        0 <= i < demo_truth().len() ==> {
            &&& (#[trigger] s.truth[i]).room_id == s.structure.rooms@[i].id
            &&& s.truth[i].occupancy == demo_truth()[i].0
            &&& s.truth[i].moving == demo_truth()[i].1
            &&& s.truth[i].breathing == demo_truth()[i].2
        }
}

/// From the same noise, two scenarios over demo houses come to the same noise.
proof fn same_noise(a: ScenarioView, b: ScenarioView, rng: u64, n: int)
    requires
        says(a),
        says(b),
        0 <= n <= demo_truth().len(),
    ensures
        rng_after(a.structure, a.truth.take(n), rng) == rng_after(
            b.structure,
            b.truth.take(n),
            rng,
        ),
    decreases n,
{
    if n > 0 {
        same_noise(a, b, rng, n - 1);
        assert(a.truth.take(n).drop_last() =~= a.truth.take(n - 1));
        assert(b.truth.take(n).drop_last() =~= b.truth.take(n - 1));
        assert(a.truth.take(n).last() == a.truth[n - 1]);
        assert(b.truth.take(n).last() == b.truth[n - 1]);
        nodes_follow_the_plan(a.structure, n - 1);
        nodes_follow_the_plan(b.structure, n - 1);
    }
}

/// Two scenarios started afresh give the same readings in every cycle, but for
/// the ids of the rooms.
pub proof fn scenarios_agree(a: ScenarioView, b: ScenarioView, n: nat, i: int)
    requires
        a.fresh(),
        b.fresh(),
        distinct_rooms(a.structure.rooms@),
        distinct_rooms(b.structure.rooms@),
        0 <= i < demo_truth().len(),
    ensures
        run(a, n).rng == run(b, n).rng,
        run(a, n).readings()[i].1 == run(b, n).readings()[i].1,
        run(a, n).readings().len() == demo_truth().len(),
    decreases n,
{
    still_says(a, n);
    still_says(b, n);
    let ra = run(a, n);
    let rb = run(b, n);
    if n > 0 {
        scenarios_agree(a, b, (n - 1) as nat, i);
        still_says(a, (n - 1) as nat);
        still_says(b, (n - 1) as nat);
        let pa = run(a, (n - 1) as nat);
        let pb = run(b, (n - 1) as nat);
        let all = demo_truth().len() as int;
        same_noise(pa, pb, pa.rng, all);
        assert(pa.truth.take(all) =~= pa.truth);
        assert(pb.truth.take(all) =~= pb.truth);
    }
    same_noise(ra, rb, ra.rng, i);
    nodes_follow_the_plan(ra.structure, i);
    nodes_follow_the_plan(rb.structure, i);
}

/// Running a scenario changes neither its structure nor its script.
proof fn still_says(s: ScenarioView, n: nat)
    requires
        s.fresh(),
        distinct_rooms(s.structure.rooms@),
    ensures
        says(run(s, n)),
        run(s, n).structure == s.structure,
        run(s, n).truth == s.truth,
    decreases n,
{
    if n > 0 {
        still_says(s, (n - 1) as nat);
    }
}

/// A room of the script reports nobody in a dropout and while it is empty: no
/// presence, no breathing, no movement and no number.
pub proof fn empty_rooms_report_nobody(t: RoomTruth, nodes: Seq<Seq<char>>, rng: u64)
    requires
        t.occupancy == 0 || drops_out(rng),
    ensures
        !script_of(t, nodes, rng).presence,
        script_of(t, nodes, rng).breathing_tenths is None,
        script_of(t, nodes, rng).movement == MovementLevel::Still,
        script_of(t, nodes, rng).occupancy == 0,
        drops_out(rng) ==> script_of(t, nodes, rng).rssi_tenths.len() == 0,
{
}

/// An occupied room of the script reports its people: gross movement exactly
/// where they move around, and a breathing rate exactly where one can be
/// resolved, from fourteen to below eighteen a minute. Each of its nodes reports
/// under its own id, in their order, within fourteen dBm.
pub proof fn occupied_rooms_report_their_people(
    t: RoomTruth,
    nodes: Seq<Seq<char>>,
    rng: u64,
    k: int,
)
    requires
        t.occupancy > 0,
        !drops_out(rng),
    ensures
        ({
            let r = script_of(t, nodes, rng);
            &&& r.presence
            &&& r.occupancy == t.occupancy
            &&& r.movement == MovementLevel::Gross <==> t.moving
            &&& r.breathing_tenths is Some <==> t.breathing
            &&& r.breathing_tenths is Some ==> r.breathing_tenths->0 < 40
            &&& r.rssi_tenths.len() == nodes.len()
            &&& 0 <= k < nodes.len() ==> r.rssi_tenths[k].0 == nodes[k] && r.rssi_tenths[k].1 < 140
        }),
{
}

/// An empty room of the script still has its nodes report, each under its own
/// id, unless it drops out.
pub proof fn empty_rooms_have_their_nodes_report(
    t: RoomTruth,
    nodes: Seq<Seq<char>>,
    rng: u64,
    k: int,
)
    requires
        !drops_out(rng),
        0 <= k < nodes.len(),
    ensures
        script_of(t, nodes, rng).rssi_tenths.len() == nodes.len(),
        script_of(t, nodes, rng).rssi_tenths[k].0 == nodes[k],
        script_of(t, nodes, rng).rssi_tenths[k].1 < 140,
{
}

/// A cycle of the script reads every room once, in the order of the script, and
/// changes neither structure nor script.
pub proof fn cycles_read_every_room(s: ScenarioView, i: int)
    requires
        0 <= i < s.truth.len(),
        s.ticks < u64::MAX,
    ensures
        s.readings().len() == s.truth.len(),
        s.readings()[i].0 == s.truth[i].room_id,
        s.ticked().structure == s.structure,
        s.ticked().truth == s.truth,
        s.ticked().ticks == s.ticks + 1,
{
}

/// The noise generator steps by multiplying and adding modulo two to the 64th,
/// and draws the 32 bits above the lowest sixteen.
pub proof fn noise_steps_and_draws(rng: u64)
    ensures
        exists|q: int|
            rng * 1664525 + 1013904223 == #[trigger] (q * 0x1_0000_0000_0000_0000) + step(rng),
        exists|high: int, low: int|
            {
                &&& rng == #[trigger] (high * 0x1_0000_0000_0000) + 0x1_0000 * drawn(rng)
                    + #[trigger] (low * 1)
                &&& 0 <= low < 0x1_0000
                &&& 0 <= high
            },
        drops_out(rng) <==> draw(rng, 1) % 14 == 0,
{
    let x = rng * 1664525 + 1013904223;
    let m = 0x1_0000_0000_0000_0000int;
    vstd::arithmetic::div_mod::lemma_fundamental_div_mod(x, m);
    let q = x / m;
    assert(x == (q * m) + step(rng));
    let above = rng as int / 0x1_0000;
    let low = rng as int % 0x1_0000;
    let high = above / 0x1_0000_0000;
    assert(rng == (high * 0x1_0000_0000_0000) + 0x1_0000 * drawn(rng) + (low * 1));
}

/// The script of the demo house has one person pace the hallway, two held still
/// and breathing in the second bedroom, and nobody anywhere else.
pub proof fn script_of_the_demo_house(s: ScenarioView, i: int)
    requires
        s.fresh(),
        0 <= i < s.structure.rooms@.len(),
    ensures
        s.truth.len() == 6,
        s.truth[i].room_id == s.structure.rooms@[i].id,
        i == 2 ==> s.structure.rooms@[i].name@ == "Hallway"@ && s.truth[i].occupancy == 1
            && s.truth[i].moving && !s.truth[i].breathing,
        i == 4 ==> s.structure.rooms@[i].name@ == "Bedroom 2"@ && s.truth[i].occupancy == 2
            && !s.truth[i].moving && s.truth[i].breathing,
        i != 2 && i != 4 ==> s.truth[i].occupancy == 0,
        s.ticks == 0,
        s.rng == 0x5EED_1234,
{
    assert(follows(s.structure.rooms@[i], demo_plan()[i]));
}

/// Steps of the generator add up.
proof fn steps_add_up(rng: u64, a: nat, b: nat)
    ensures
        steps(steps(rng, a), b) == steps(rng, a + b),
    decreases b,
{
    if b > 0 {
        steps_add_up(rng, a, (b - 1) as nat);
    }
}

/// A room takes its numbers from the noise one after the other: the first for
/// the dropout, one for each node, one for the movement of an occupant who stays
/// put, and one for a breathing rate. The next room goes on where it ended.
pub proof fn rooms_take_numbers_in_turn(t: RoomTruth, nodes: Seq<Seq<char>>, rng: u64, k: int)
    ensures
        ({
            let r = script_of(t, nodes, rng);
            let n = nodes.len();
            let still = if t.moving {
                0nat
            } else {
                1
            };
            let breath = if t.breathing {
                1nat
            } else {
                0
            };
            &&& drops_out(rng) ==> after_reading(t, nodes, rng) == steps(rng, 1)
            &&& !drops_out(rng) && t.occupancy == 0 ==> after_reading(t, nodes, rng) == steps(
                rng,
                n + 1,
            )
            &&& !drops_out(rng) && t.occupancy > 0 ==> after_reading(t, nodes, rng) == steps(
                rng,
                n + 1 + still + breath,
            )
            &&& !drops_out(rng) && 0 <= k < n ==> r.rssi_tenths[k].1 == draw(rng, (k + 2) as nat)
                % 140
            &&& !drops_out(rng) && t.occupancy > 0 && !t.moving ==> (r.movement
                == MovementLevel::Fine <==> draw(rng, n + 2) % 4 == 0)
            &&& !drops_out(rng) && t.occupancy > 0 && t.breathing ==> r.breathing_tenths == Some(
                (draw(rng, n + 2 + still) % 40) as u32,
            )
        }),
{
    let n = nodes.len();
    steps_add_up(rng, 1, n);
    steps_add_up(rng, n + 1, 1);
    steps_add_up(rng, n + 2, 1);
    if 0 <= k < n {
        steps_add_up(rng, 1, (k + 1) as nat);
    }
}

/// Every node of the demo house stands in the footprint of its room.
pub proof fn demo_nodes_stand_in_their_rooms(s: Structure, i: int, j: int)
    requires
        is_demo(s),
        0 <= i < s.rooms@.len(),
        0 <= j < s.rooms@[i].sensors@.len(),
    ensures
        s.rooms@.len() == 6,
        s.rooms@[i].bounds.holds(s.rooms@[i].sensors@[j].x, s.rooms@[i].sensors@[j].y),
        s.rooms@[i].floor == 0,
{
    assert(follows(s.rooms@[i], demo_plan()[i]));
    assert(s.rooms@[i].sensors@[j].x == demo_plan()[i].nodes[j].x);
}

} // verus!
