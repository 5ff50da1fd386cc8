//! Decisions of the server around the engine.

use vstd::prelude::*;

use crate::engine::{name_of, TacticalEngine};
use crate::ids::RoomId;
use crate::ingest::CsiIngest;
use crate::measure::Measure;

verus! {

/// The port that a server listens on where none is given.
pub const DEFAULT_PORT: u16 = 8099;

/// The flag that starts the server without the scripted scenario.
pub const NO_SIM_FLAG: &'static str = "--no-sim";

/// The port to listen on: the default where none above zero is given, else the
/// low sixteen bits of what is given.
pub fn listen_port(port: i32) -> (r: u16)
    ensures
        r == (if port <= 0 {
            DEFAULT_PORT as int
        } else {
            port as int % 0x1_0000
        }),
        port <= 0 ==> r == 8099,
        0 < port < 65536 ==> r == port,
{
    if port <= 0 {
        DEFAULT_PORT
    } else {
        (port as u32 % 0x1_0000) as u16
    }
}

/// Whether the scripted scenario runs: unless an argument says not to.
pub fn sim_enabled(args: &[String]) -> (r: bool)
    ensures
        r == !(exists|i: int| 0 <= i < args@.len() && (#[trigger] args@[i])@ == NO_SIM_FLAG@),
        !r <==> exists|i: int| 0 <= i < args@.len() && (#[trigger] args@[i])@ == "--no-sim"@,
{
    let flag: String = NO_SIM_FLAG.to_owned();
    let mut i: usize = 0;
    while i < args.len()
        invariant
            i <= args@.len(),
            flag@ == NO_SIM_FLAG@,
            forall|j: int| 0 <= j < i ==> (#[trigger] args@[j])@ != NO_SIM_FLAG@,
        decreases args@.len() - i,
    {
        if args[i] == flag {
            return false;
        }
        i = i + 1;
    }
    true
}

/// Count in a chunk of channel state, and say into the buffer of which room it
/// goes: of the room that it names, where the engine and the detector both know
/// it and there are as many phases as amplitudes. Any other chunk is refused.
pub fn admit_csi(
    engine: &TacticalEngine,
    ingest: &mut CsiIngest,
    room_id: Option<RoomId>,
    room_name: Option<&str>,
    amplitudes: &[Measure],
    phases: &[Measure],
) -> (r: Option<RoomId>)
    ensures
        match engine@.resolves(room_id, name_of(room_name)) {
            Some(id) => r == (if old(ingest)@.contains_key(id) && amplitudes@.len()
                == phases@.len() {
                Some(id)
            } else {
                None
            }),
            None => r is None,
        },
        final(ingest)@ == (match r {
            Some(id) => old(ingest)@.insert(id, old(ingest)@[id].fed(amplitudes@.len())),
            None => old(ingest)@,
        }),
        final(ingest).rate() == old(ingest).rate(),
        final(ingest).counts() == old(ingest).counts(),
{
    match engine.resolve_room(room_id, room_name) {
        Some(id) => if ingest.push(id, amplitudes, phases) {
            Some(id)
        } else {
            None
        },
        None => None,
    }
}

} // verus!
