//! Raw channel state on its way to the detector.
//!
//! The engine takes distilled readings. The bridge kept here stands before the
//! detector: it knows the rooms of the structure, admits a chunk of samples for
//! one of them and counts it, and turns what the detector says into a detection
//! or an error. The samples themselves are in the detector's own buffers, with
//! the caller.

use vstd::arithmetic::power2::{lemma2_to64, lemma_pow2_adds, pow2};
use vstd::prelude::*;
use vstd::string::StringExecFns;

use crate::domain::reading::{Detection, VitalSignsReading};
use crate::domain::structure::{Room, ScanZone, Structure};
use crate::engine::state::is_unknown_room;
use crate::error::TacticalError;
use crate::ids::{hyphenated, RoomId};
use crate::measure::{Measure, MAX_WHOLE, ONE_BITS};
use crate::table::Table;

verus! {

/// Samples per second that a node delivers where nothing else is known: 100.
pub const DEFAULT_CSI_SAMPLE_RATE_BITS: u64 = 0x4059_0000_0000_0000;

/// The sample rate of a bridge for which none is given.
pub fn default_sample_rate() -> (r: Measure)
    ensures
        r.bits == DEFAULT_CSI_SAMPLE_RATE_BITS,
        r.is_whole(100),
{
    proof {
        default_rate_is_whole();
    }
    Measure { bits: DEFAULT_CSI_SAMPLE_RATE_BITS }
}

/// The sample rate, counted in samples of one room.
#[derive(Clone, Copy, Debug, PartialEq, Eq, Structural)]
pub struct Window {
    /// The fewest samples that the detector can tell anything from: those of
    /// five seconds.
    pub needed: usize,
    /// The most samples that the detector keeps, the latest: those of thirty
    /// seconds.
    pub kept: usize,
}

/// The seconds of samples that the detector can first tell anything from.
pub const NEEDED_SECS: u32 = 5;

/// The seconds of samples that the detector keeps.
pub const KEPT_SECS: u32 = 30;

/// Whether `w` is a sample rate, counted in samples. A whole number of samples
/// per second gives so many for each second; `uneven` is given for any other
/// rate.
pub open spec fn counts_of(rate: Measure, uneven: Window, w: Window) -> bool {
    &&& forall|hz: int|
        1 <= hz <= MAX_WHOLE && #[trigger] rate.is_whole(hz) ==> {
            &&& w.needed == NEEDED_SECS * hz
            &&& w.kept == KEPT_SECS * hz
        }
    &&& (forall|hz: int| 1 <= hz <= MAX_WHOLE ==> !#[trigger] rate.is_whole(hz)) ==> w == uneven
}

impl Window {
    /// A sample rate, counted in samples; `uneven` where it is not a whole
    /// number of samples per second.
    pub fn of(rate: Measure, uneven: Window) -> (w: Window)
        ensures
            counts_of(rate, uneven, w),
    {
        match rate.whole() {
            Some(hz) => {
                let w: Window = Window {
                    needed: (NEEDED_SECS * hz) as usize,
                    kept: (KEPT_SECS * hz) as usize,
                };
                assert(rate.is_whole(hz as int));
                w
            },
            None => uneven,
        }
    }
}

/// The default rate is a hundred samples per second.
proof fn default_rate_is_whole()
    ensures
        (Measure { bits: DEFAULT_CSI_SAMPLE_RATE_BITS }).is_whole(100),
{
    let rate = Measure { bits: DEFAULT_CSI_SAMPLE_RATE_BITS };
    let one = Measure { bits: ONE_BITS };
    lemma2_to64();
    lemma_pow2_adds(6, 1022);
    assert(rate.units() == 0x0019_0000_0000_0000 * pow2(1028));
    assert(one.units() == 0x0010_0000_0000_0000 * pow2(1022));
    assert(rate.units() == 100 * one.units()) by (nonlinear_arith)
        requires
            rate.units() == 0x0019_0000_0000_0000 * pow2(1028),
            one.units() == 0x0010_0000_0000_0000 * pow2(1022),
            pow2(1028) == 64 * pow2(1022),
    ;
}

/// At the default rate the detector needs 500 samples, and keeps 3000.
pub proof fn default_counts(uneven: Window, w: Window)
    requires
        counts_of(Measure { bits: DEFAULT_CSI_SAMPLE_RATE_BITS }, uneven, w),
    ensures
        w.needed == 500,
        w.kept == 3000,
{
    default_rate_is_whole();
}

/// What the bridge holds of a room: the room as the detector sees it, and how
/// many samples the detector has of it. Detection does not look at the live
/// readings of the nodes, so none are in it.
#[derive(Debug)]
pub struct RoomIngest {
    zone: ScanZone,
    window: Window,
    buffered: usize,
}

/// The content of what the bridge holds of a room.
pub struct RoomIngestView {
    /// The room as the detector sees it.
    pub zone: ScanZone,
    /// The counts that its samples are held against.
    pub window: Window,
    /// The samples that the detector has.
    pub buffered: nat,
}

impl RoomIngestView {
    /// After `n` more samples.
    pub open spec fn fed(self, n: nat) -> RoomIngestView {
        RoomIngestView {
            buffered: if self.buffered + n <= self.window.kept {
                self.buffered + n
            } else {
                self.window.kept as nat
            },
            ..self
        }
    }

    /// Whether the samples are enough to tell anything from.
    pub open spec fn enough(self) -> bool {
        self.buffered >= self.window.needed
    }
}

impl View for RoomIngest {
    type V = RoomIngestView;

    closed spec fn view(&self) -> RoomIngestView {
        RoomIngestView { zone: self.zone, window: self.window, buffered: self.buffered as nat }
    }
}

/// Whether a zone is a room without live readings.
pub open spec fn zone_of(zone: ScanZone, room: Room) -> bool {
    &&& zone.name == room.name
    &&& zone.bounds == room.bounds
    &&& zone.sensors@ == room.positions(Seq::empty())
}

/// Whether an error says that detection failed, and why.
pub open spec fn is_detection_failure(e: TacticalError, why: Seq<char>) -> bool {
    match e {
        TacticalError::Invalid(s) => s@ == "detection failed: "@ + why,
        _ => false,
    }
}

/// Whether `r` is what the bridge makes of what the detector says: its reading,
/// or its failure as an error. A detector that gives no reading found nothing
/// where it had enough samples, and had too little to go by where it had not.
pub open spec fn distilled(
    outcome: Result<Option<VitalSignsReading>, String>,
    enough: bool,
    r: Result<Detection, TacticalError>,
) -> bool {
    match outcome {
        Ok(Some(vitals)) => r == Ok::<Detection, TacticalError>(Detection::Found(vitals)),
        Ok(None) => r == Ok::<Detection, TacticalError>(
            if enough {
                Detection::Nothing
            } else {
                Detection::TooLittle
            },
        ),
        Err(why) => r is Err && is_detection_failure(r->Err_0, why@),
    }
}

impl RoomIngest {
    /// The room as the detector sees it.
    pub fn zone(&self) -> (r: &ScanZone)
        ensures
            *r == self@.zone,
    {
        &self.zone
    }

    /// How many samples the detector has of the room.
    pub fn buffered(&self) -> (r: usize)
        ensures
            r == self@.buffered,
    {
        self.buffered
    }

    /// Count a chunk of samples in. It goes into the buffer of the room only
    /// where there are as many phases as amplitudes: the buffer keeps the two
    /// series in step.
    pub fn push(&mut self, amplitudes: &[Measure], phases: &[Measure]) -> (r: bool)
        ensures
            r == (amplitudes@.len() == phases@.len()),
            final(self)@ == (if r {
                old(self)@.fed(amplitudes@.len())
            } else {
                old(self)@
            }),
    {
        let n: usize = amplitudes.len();
        if n != phases.len() {
            return false;
        }
        let kept: usize = self.window.kept;
        if self.buffered > kept || n > kept - self.buffered {
            self.buffered = kept;
        } else {
            self.buffered = self.buffered + n;
        }
        true
    }

    /// What the detector says of the room, or the error that says why it says
    /// nothing.
    pub fn distill(&self, outcome: Result<Option<VitalSignsReading>, String>) -> (r: Result<
        Detection,
        TacticalError,
    >)
        ensures
            distilled(outcome, self@.enough(), r),
    {
        match outcome {
            Ok(Some(vitals)) => Ok(Detection::Found(vitals)),
            Ok(None) => if self.buffered >= self.window.needed {
                Ok(Detection::Nothing)
            } else {
                Ok(Detection::TooLittle)
            },
            Err(why) => {
                let mut text: String = "detection failed: ".to_owned();
                text.append(why.as_str());
                Err(TacticalError::Invalid(text))
            },
        }
    }
}

/// The last room of a structure with an id.
pub open spec fn last_room(rooms: Seq<Room>, id: RoomId) -> Option<Room>
    decreases rooms.len(),
{
    if rooms.len() == 0 {
        None
    } else if rooms.last().id == id {
        Some(rooms.last())
    } else {
        last_room(rooms.drop_last(), id)
    }
}

/// The bridge before the detector, for all rooms of a structure.
#[derive(Debug)]
pub struct CsiIngest {
    sample_rate: Measure,
    window: Window,
    rooms: Table<RoomId, RoomIngest>,
}

/// The content of a table of rooms.
pub open spec fn rooms_view(t: Map<RoomId, RoomIngest>) -> Map<RoomId, RoomIngestView> {
    t.map_values(|r: RoomIngest| r@)
}

impl View for CsiIngest {
    type V = Map<RoomId, RoomIngestView>;

    closed spec fn view(&self) -> Map<RoomId, RoomIngestView> {
        rooms_view(self.rooms@)
    }
}

/// Whether the bridge holds exactly the rooms of a structure, with nothing
/// buffered for them.
pub open spec fn holds_rooms(
    held: Map<RoomId, RoomIngestView>,
    rooms: Seq<Room>,
    window: Window,
) -> bool {
    forall|id: RoomId|
        {
            &&& #[trigger] held.contains_key(id) <==> last_room(rooms, id) is Some
            &&& held.contains_key(id) ==> {
                &&& zone_of(held[id].zone, last_room(rooms, id)->0)
                &&& held[id].window == window
                &&& held[id].buffered == 0
            }
        }
}

impl CsiIngest {
    /// Samples per second that the detector assumes.
    pub closed spec fn rate(&self) -> Measure {
        self.sample_rate
    }

    /// The counts that the samples of a room are held against.
    pub closed spec fn counts(&self) -> Window {
        self.window
    }

    /// A bridge for a structure, at a sample rate. `uneven` is that rate counted
    /// in samples, for a rate that is not a whole number of samples per second.
    pub fn from_structure(structure: &Structure, sample_rate: Measure, uneven: Window) -> (r:
        CsiIngest)
        ensures
            holds_rooms(r@, structure.rooms@, r.counts()),
            counts_of(sample_rate, uneven, r.counts()),
            r.rate() == sample_rate,
    {
        let window: Window = Window::of(sample_rate, uneven);
        let mut ingest: CsiIngest = CsiIngest { sample_rate, window, rooms: Table::new() };
        ingest.rebuild(structure);
        ingest
    }

    /// Hold the rooms of a structure, and no others, with nothing buffered.
    pub fn rebuild(&mut self, structure: &Structure)
        ensures
            holds_rooms(final(self)@, structure.rooms@, old(self).counts()),
            final(self).rate() == old(self).rate(),
            final(self).counts() == old(self).counts(),
    {
        let ghost all = structure.rooms@;
        self.rooms.clear();
        let mut i: usize = 0;
        while i < structure.rooms.len()
            invariant
                i <= all.len(),
                all == structure.rooms@,
                self.sample_rate == old(self).sample_rate,
                self.window == old(self).window,
                holds_rooms(rooms_view(self.rooms@), all.take(i as int), self.window),
            decreases all.len() - i,
        {
            let room: &Room = &structure.rooms[i];
            let none: Vec<(String, Measure)> = Vec::new();
            let zone: ScanZone = room.to_scan_zone(none.as_slice());
            assert(none@ =~= Seq::empty());
            assert(all.take(i + 1).drop_last() =~= all.take(i as int));
            assert(all.take(i + 1).last() == *room);
            let ghost before = rooms_view(self.rooms@);
            let held: RoomIngest = RoomIngest { zone, window: self.window, buffered: 0 };
            self.rooms.insert(room.id, held);
            assert(rooms_view(self.rooms@) =~= before.insert(room.id, held@));
            i = i + 1;
        }
        assert(all.take(i as int) =~= all);
    }

    /// Samples per second that the detector assumes.
    pub fn sample_rate(&self) -> (r: Measure)
        ensures
            r == self.rate(),
    {
        self.sample_rate
    }

    /// Whether a room is known to this bridge.
    pub fn knows_room(&self, room_id: RoomId) -> (r: bool)
        ensures
            r == self@.contains_key(room_id),
    {
        self.rooms.contains_key(&room_id)
    }

    /// What the bridge holds of a room.
    pub fn room(&self, room_id: RoomId) -> (r: Option<&RoomIngest>)
        ensures
            match r {
                Some(room) => self@.contains_key(room_id) && room@ == self@[room_id],
                None => !self@.contains_key(room_id),
            },
    {
        self.rooms.get(&room_id)
    }

    /// Count a chunk of samples of a room in. It goes into the buffer of the
    /// room only where the room is known and there are as many phases as
    /// amplitudes.
    pub fn push(&mut self, room_id: RoomId, amplitudes: &[Measure], phases: &[Measure]) -> (r: bool)
        ensures
            r == (old(self)@.contains_key(room_id) && amplitudes@.len() == phases@.len()),
            final(self)@ == (if r {
                old(self)@.insert(room_id, old(self)@[room_id].fed(amplitudes@.len()))
            } else {
                old(self)@
            }),
            final(self).rate() == old(self).rate(),
            final(self).counts() == old(self).counts(),
    {
        let ghost before = self@;
        match self.rooms.remove(&room_id) {
            Some(held) => {
                let mut room: RoomIngest = held;
                let r: bool = room.push(amplitudes, phases);
                self.rooms.insert(room_id, room);
                assert(self@ =~= before.insert(room_id, room@));
                assert(!r ==> self@ =~= before);
                r
            },
            None => {
                assert(self@ =~= before);
                false
            },
        }
    }

    /// What the detector says of a room, or the error that says why it says
    /// nothing: the room is unknown, or detection failed.
    pub fn distill(
        &self,
        room_id: RoomId,
        outcome: Result<Option<VitalSignsReading>, String>,
    ) -> (r: Result<Detection, TacticalError>)
        ensures
            self@.contains_key(room_id) ==> distilled(outcome, self@[room_id].enough(), r),
            !self@.contains_key(room_id) ==> r is Err && is_unknown_room(
                r->Err_0,
                hyphenated(room_id.uuid),
            ),
    {
        match self.rooms.get(&room_id) {
            Some(room) => room.distill(outcome),
            None => Err(TacticalError::UnknownRoom(room_id.to_text())),
        }
    }
}

/// After a rebuild the bridge knows exactly the rooms that the structure has.
pub proof fn knows_the_structure(
    held: Map<RoomId, RoomIngestView>,
    structure: Structure,
    window: Window,
    id: RoomId,
)
    requires
        holds_rooms(held, structure.rooms@, window),
    ensures
        held.contains_key(id) <==> structure.room_at(id) is Some,
{
    crate::seqs::first_is_first(structure.rooms@, |r: Room| r.id == id);
    last_room_exists(structure.rooms@, id);
    assert(held.contains_key(id) <==> last_room(structure.rooms@, id) is Some);
}

/// Samples that are enough stay enough as more come in, where the detector keeps
/// as many as it needs; and as many as it needs are enough.
pub proof fn enough_stays_enough(room: RoomIngestView, n: nat)
    requires
        room.window.needed <= room.window.kept,
    ensures
        room.enough() ==> room.fed(n).enough(),
        n >= room.window.needed ==> room.fed(n).enough(),
        room.buffered + n < room.window.needed ==> !room.fed(n).enough(),
{
}

/// There is a last room with an id exactly where there is one at all.
proof fn last_room_exists(rooms: Seq<Room>, id: RoomId)
    ensures
        last_room(rooms, id) is Some <==> exists|i: int|
            0 <= i < rooms.len() && (#[trigger] rooms[i]).id == id,
    decreases rooms.len(),
{
    if rooms.len() > 0 {
        let head = rooms.drop_last();
        last_room_exists(head, id);
        if exists|i: int| 0 <= i < rooms.len() && (#[trigger] rooms[i]).id == id {
            let i = choose|i: int| 0 <= i < rooms.len() && (#[trigger] rooms[i]).id == id;
            if i < head.len() {
                assert(head[i].id == id);
            }
        }
        if exists|i: int| 0 <= i < head.len() && (#[trigger] head[i]).id == id {
            let i = choose|i: int| 0 <= i < head.len() && (#[trigger] head[i]).id == id;
            assert(rooms[i].id == id);
        }
        assert(rooms[rooms.len() - 1] == rooms.last());
    }
}

/// At a whole number of samples per second the detector needs those of five
/// seconds, and keeps those of thirty.
pub proof fn whole_rates_count_seconds(rate: Measure, uneven: Window, w: Window, hz: int)
    requires
        counts_of(rate, uneven, w),
        1 <= hz <= 0x0100_0000,
        rate.is_whole(hz),
    ensures
        w.needed == 5 * hz,
        w.kept == 30 * hz,
{
}

/// What the detector finds is handed on as it is, and its failure as an error
/// that says why. Where it gives no reading, that means that nobody is there
/// exactly where it had as many samples as it needs.
pub proof fn outcomes_are_told_apart(
    room: RoomIngestView,
    vitals: VitalSignsReading,
    why: String,
    found: Result<Detection, TacticalError>,
    silent: Result<Detection, TacticalError>,
    failed: Result<Detection, TacticalError>,
)
    requires
        distilled(Ok(Some(vitals)), room.enough(), found),
        distilled(Ok(None), room.enough(), silent),
        distilled(Err(why), room.enough(), failed),
    ensures
        found is Ok && found->Ok_0 == Detection::Found(vitals),
        silent is Ok,
        silent->Ok_0 == Detection::Nothing <==> room.buffered >= room.window.needed,
        silent->Ok_0 == Detection::TooLittle <==> room.buffered < room.window.needed,
        failed is Err,
        failed->Err_0 is Invalid && failed->Err_0->Invalid_0@ == "detection failed: "@ + why@,
{
}

/// A chunk of samples adds as many as it has, up to what the detector keeps, and
/// changes nothing else of a room.
pub proof fn chunks_add_their_samples(room: RoomIngestView, n: nat)
    ensures
        room.buffered + n <= room.window.kept ==> room.fed(n).buffered == room.buffered + n,
        room.buffered + n >= room.window.kept ==> room.fed(n).buffered == room.window.kept,
        room.fed(n).zone == room.zone,
        room.fed(n).window == room.window,
{
}

/// A bridge sees each room of a structure with distinct ids as it is, with its
/// nodes where they are placed and without live readings, and has no samples of
/// it yet.
pub proof fn bridges_see_the_rooms(
    held: Map<RoomId, RoomIngestView>,
    structure: Structure,
    window: Window,
    i: int,
    j: int,
)
    requires
        holds_rooms(held, structure.rooms@, window),
        crate::domain::structure::distinct_rooms(structure.rooms@),
        0 <= i < structure.rooms@.len(),
    ensures
        ({
            let room = structure.rooms@[i];
            let seen = held[room.id];
            &&& held.contains_key(room.id)
            &&& seen.zone.name == room.name
            &&& seen.zone.bounds == room.bounds
            &&& seen.zone.sensors@.len() == room.sensors@.len()
            &&& 0 <= j < room.sensors@.len() ==> {
                &&& seen.zone.sensors@[j].id == room.sensors@[j].id
                &&& seen.zone.sensors@[j].x == room.sensors@[j].x
                &&& seen.zone.sensors@[j].y == room.sensors@[j].y
                &&& seen.zone.sensors@[j].z == room.sensors@[j].z
                &&& seen.zone.sensors@[j].last_rssi is None
            }
            &&& seen.window == window
            &&& seen.buffered == 0
        }),
{
    let room = structure.rooms@[i];
    last_of_distinct(structure.rooms@, i);
    assert(held.contains_key(room.id));
    if 0 <= j < room.sensors@.len() {
        crate::domain::laws::zone_shows_the_nodes(room, Seq::empty(), j);
    }
}

/// Among rooms with distinct ids the last with an id is the only one.
proof fn last_of_distinct(rooms: Seq<Room>, i: int)
    requires
        crate::domain::structure::distinct_rooms(rooms),
        0 <= i < rooms.len(),
    ensures
        last_room(rooms, rooms[i].id) == Some(rooms[i]),
    decreases rooms.len(),
{
    if i < rooms.len() - 1 {
        let head = rooms.drop_last();
        assert(rooms[i].id != rooms[rooms.len() - 1].id);
        assert forall|a: int, b: int| 0 <= a < b < head.len() implies (#[trigger] head[a]).id != (
        #[trigger] head[b]).id by {
            assert(rooms[a].id != rooms[b].id);
        }
        last_of_distinct(head, i);
    }
}

} // verus!
