//! The engine: take in readings, place and track contacts, give out pictures.

pub mod laws;
pub mod report;
pub mod state;
pub mod tracking;

use vstd::prelude::*;

use crate::clock::Timestamp;
use crate::domain::contact::PersonContact;
use crate::domain::picture::{
    occupancy_fits, radar_views, roll_up, text_of, MmwaveCorroboration, SensorSummary,
    TacticalPicture,
};
use crate::domain::reading::{Detection, MmwaveReading, ReadingInput, RoomReading};
use crate::domain::structure::{Room, SensorPlacement, Structure, MIN_SENSORS_FOR_FIX};
use crate::error::TacticalError;
use crate::ids::{hyphenated, random_uuid, ContactId, RoomId};
use crate::measure::Measure;
use crate::ranked::{stable_sort, views};
use crate::seqs::{entries_enumerate, entries_grow, entries_of, enumerates};
use crate::table::Table;

pub use self::state::{
    Blend, Circle, EngineConfig, EngineState, Fix, MmwaveState, Point, Sensed, SensorActivity,
};
use self::state::{
    by_room, contact_after, default_config, heard, is_unknown_room, located, resolved,
    rows, unknown_room, zeros,
};

verus! {

/// The tracked contacts and the occupancy of the rooms.
#[derive(Debug)]
struct Tracks {
    contacts: Table<RoomId, PersonContact>,
    occupancy: Table<RoomId, u32>,
}

impl Tracks {
    /// Nothing tracked.
    fn new() -> (r: Tracks)
        ensures
            r.contacts@ == Map::<RoomId, PersonContact>::empty(),
            r.occupancy@ == Map::<RoomId, u32>::empty(),
    {
        Tracks { contacts: Table::new(), occupancy: Table::new() }
    }
}

/// The engine of one structure. It holds one representative contact for each
/// occupied room: what WiFi reports of a room does not tell the people in it
/// apart, so the occupancy carries how many and the contact carries where.
#[derive(Debug)]
pub struct TacticalEngine {
    structure: Structure,
    tracks: Tracks,
    sensors: Table<String, SensorActivity>,
    mmwave: Table<RoomId, MmwaveState>,
    config: EngineConfig,
}

impl View for TacticalEngine {
    type V = EngineState;

    closed spec fn view(&self) -> EngineState {
        EngineState {
            structure: self.structure,
            contacts: self.tracks.contacts@,
            occupancy: self.tracks.occupancy@,
            sensors: self.sensors@,
            mmwave: self.mmwave@,
            config: self.config,
        }
    }
}

/// The content of an optional name.
pub open spec fn name_of(name: Option<&str>) -> Option<Seq<char>> {
    match name {
        Some(n) => Some(n@),
        None => None,
    }
}

/// The contact of a room after a reading.
fn update_contact(
    prior: Option<&PersonContact>,
    room: &Room,
    reading: &RoomReading,
    fix: Fix,
    blended: Point,
    now: Timestamp,
    fresh: ContactId,
) -> (r: PersonContact)
    ensures
        r == contact_after(
            match prior {
                Some(c) => Some(*c),
                None => None,
            },
            *room,
            reading.vitals,
            fix,
            blended,
            now,
            fresh,
        ),
{
    let breathing_bpm: Option<Measure> = match reading.vitals.signs.breathing {
        Some(b) => Some(b.rate_bpm),
        None => None,
    };
    let (id, room_name, first_seen, smooth) = match prior {
        Some(c) => (c.id, c.room_name.clone(), c.first_seen, c.point_fix == fix.point_fix),
        None => (fresh, room.name.clone(), now, false),
    };
    let (x, y) = if smooth {
        (blended.x, blended.y)
    } else {
        (fix.x, fix.y)
    };
    PersonContact {
        id,
        room_id: room.id,
        room_name,
        x,
        y,
        point_fix: fix.point_fix,
        uncertainty_radius_m: fix.uncertainty_radius_m,
        motion: PersonContact::classify_motion(&reading.vitals),
        life_sign: PersonContact::classify_life_sign(&reading.vitals),
        breathing_bpm,
        confidence: reading.vitals.confidence,
        first_seen,
        last_updated: now,
    }
}

impl TacticalEngine {
    /// What the engine holds is consistent.
    #[verifier::type_invariant]
    spec fn valid(self) -> bool {
        self@.consistent()
    }

    /// An engine for a structure, with the default tunables.
    pub fn new(structure: Structure) -> (r: TacticalEngine)
        ensures
            r@.consistent(),
            r@ == EngineState::blank(structure, default_config()),
    {
        TacticalEngine::with_config(structure, EngineConfig::default())
    }

    /// An engine for a structure, with the given tunables.
    pub fn with_config(structure: Structure, config: EngineConfig) -> (r: TacticalEngine)
        ensures
            r@.consistent(),
            r@ == EngineState::blank(structure, config),
    {
        TacticalEngine {
            structure,
            tracks: Tracks::new(),
            sensors: Table::new(),
            mmwave: Table::new(),
            config,
        }
    }

    /// Replace the loaded structure, discarding all that was tracked.
    pub fn set_structure(&mut self, structure: Structure)
        ensures
            final(self)@.consistent(),
            final(self)@ == EngineState::blank(structure, old(self)@.config),
    {
        *self = TacticalEngine::with_config(structure, self.config);
    }

    /// The loaded structure.
    pub fn structure(&self) -> (r: &Structure)
        ensures
            *r == self@.structure,
    {
        &self.structure
    }

    /// The tunables.
    pub fn config(&self) -> (r: EngineConfig)
        ensures
            r == self@.config,
    {
        self.config
    }

    /// The tracked contact of a room.
    pub fn contact(&self, room_id: RoomId) -> (r: Option<&PersonContact>)
        ensures
            match r {
                Some(c) => self@.contact_of(room_id) == Some(*c) && c.room_id == room_id,
                None => self@.contact_of(room_id) is None,
            },
    {
        proof {
            use_type_invariant(self);
        }
        self.tracks.contacts.get(&room_id)
    }

    /// Resolve a room by id or by name; the name in either case.
    pub fn resolve_room(&self, id: Option<RoomId>, name: Option<&str>) -> (r: Option<RoomId>)
        ensures
            r == self@.resolves(id, name_of(name)),
    {
        if let Some(id) = id {
            if self.structure.room(id).is_some() {
                return Some(id);
            }
        }
        match name {
            Some(name) => match self.structure.room_by_name(name) {
                Some(room) => Some(room.id),
                None => None,
            },
            None => None,
        }
    }

    /// Record that nodes of a room reported just now. Called on every path that
    /// brings live data, also where nobody was detected: node health is the
    /// state of the link.
    pub fn note_sensors(&mut self, room_id: RoomId, rssi: &[(String, Measure)])
        ensures
            final(self)@.consistent(),
            exists|now: Timestamp|
                now.secs() >= 0 && final(self)@ == #[trigger] old(self)@.noted(room_id, rssi@, now),
    {
        let now: Timestamp = Timestamp::now();
        self.note_sensors_at(room_id, rssi, now);
    }

    /// Record that nodes of a room reported at `now`.
    pub fn note_sensors_at(&mut self, room_id: RoomId, rssi: &[(String, Measure)], now: Timestamp)
        ensures
            final(self)@.consistent(),
            final(self)@ == old(self)@.noted(room_id, rssi@, now),
    {
        proof {
            use_type_invariant(&*self);
        }
        let ghost before = self.sensors@;
        let mut sensors: Table<String, SensorActivity> = Table::new();
        std::mem::swap(&mut sensors, &mut self.sensors);
        let mut i: usize = 0;
        assert(sensors@ =~= heard(before, room_id, rssi@.take(0), now));
        while i < rssi.len()
            invariant
                i <= rssi@.len(),
                sensors@ == heard(before, room_id, rssi@.take(i as int), now),
            decreases rssi@.len() - i,
        {
            assert(rssi@.take(i + 1).drop_last() =~= rssi@.take(i as int));
            sensors.insert(
                rssi[i].0.clone(),
                SensorActivity { room_id, last_seen: now, last_rssi: Some(rssi[i].1) },
            );
            i = i + 1;
            assert(sensors@ =~= heard(before, room_id, rssi@.take(i as int), now));
        }
        assert(rssi@.take(i as int) =~= rssi@);
        self.sensors = sensors;
        assert(self@ =~= old(self)@.noted(room_id, rssi@, now));
    }

    /// Where a reading of a room places its contact.
    pub fn localize(&self, room: &Room, reading: &RoomReading, sensed: &Sensed) -> (r: Fix)
        ensures
            r == located(*room, reading.sensor_rssi@, *sensed),
    {
        if let Some(c) = sensed.estimate {
            if room.live_count(reading.sensor_rssi.as_slice()) >= MIN_SENSORS_FOR_FIX {
                return Fix { x: c.x, y: c.y, point_fix: true, uncertainty_radius_m: c.radius };
            }
        }
        let c: Circle = sensed.room_level;
        Fix { x: c.x, y: c.y, point_fix: false, uncertainty_radius_m: c.radius }
    }

    /// The blend that a new fix asks for: of the tracked position and the new
    /// one, where the room has a contact with the same kind of fix. Where the
    /// kind changes the two positions mean different things, and the new one is
    /// taken as it is.
    pub fn blend(&self, room_id: RoomId, fix: &Fix) -> (r: Option<Blend>)
        ensures
            r == self@.blend_of(room_id, *fix),
    {
        match self.tracks.contacts.get(&room_id) {
            Some(c) => if c.point_fix == fix.point_fix {
                Some(
                    Blend {
                        from: Point { x: c.x, y: c.y },
                        to: Point { x: fix.x, y: fix.y },
                        alpha: self.config.position_alpha,
                    },
                )
            } else {
                None
            },
            None => None,
        }
    }

    /// Take in a resolved reading of a room, updating or creating its contact.
    pub fn ingest(&mut self, reading: RoomReading, sensed: Sensed) -> (r: Result<
        (),
        TacticalError,
    >)
        ensures
            final(self)@.consistent(),
            r is Ok <==> old(self)@.structure.room_at(reading.room_id) is Some,
            r is Ok ==> exists|now: Timestamp, fresh: ContactId|
                now.secs() >= 0 && random_uuid(fresh.uuid) && final(self)@ == #[trigger] old(self)@.ingested(
                    reading@,
                    sensed,
                    now,
                    fresh,
                ),
            r is Err ==> final(self)@ == old(self)@ && is_unknown_room(
                r->Err_0,
                hyphenated(reading.room_id.uuid),
            ),
    {
        let now: Timestamp = Timestamp::now();
        let fresh: ContactId = ContactId::new();
        self.ingest_at(reading, sensed, now, fresh)
    }

    /// Take in a resolved reading of a room at `now`. A contact that this
    /// creates gets the id `fresh`.
    pub fn ingest_at(
        &mut self,
        reading: RoomReading,
        sensed: Sensed,
        now: Timestamp,
        fresh: ContactId,
    ) -> (r: Result<(), TacticalError>)
        ensures
            final(self)@.consistent(),
            r is Ok <==> old(self)@.structure.room_at(reading.room_id) is Some,
            r is Ok ==> final(self)@ == old(self)@.ingested(reading@, sensed, now, fresh),
            r is Err ==> final(self)@ == old(self)@ && is_unknown_room(
                r->Err_0,
                hyphenated(reading.room_id.uuid),
            ),
    {
        proof {
            use_type_invariant(&*self);
        }
        let id: RoomId = reading.room_id;
        let contact: PersonContact = match self.structure.room(id) {
            Some(room) => {
                let fix: Fix = self.localize(room, &reading, &sensed);
                update_contact(
                    self.tracks.contacts.get(&id),
                    room,
                    &reading,
                    fix,
                    sensed.blended,
                    now,
                    fresh,
                )
            },
            None => {
                return Err(TacticalError::UnknownRoom(id.to_text()));
            },
        };
        let ghost after = self@.ingested(reading@, sensed, now, fresh);
        let ghost before = self@;
        let mut tracks: Tracks = Tracks::new();
        std::mem::swap(&mut tracks, &mut self.tracks);
        self.note_sensors_at(id, reading.sensor_rssi.as_slice(), now);
        let occupancy: u32 = if reading.occupancy >= 1 {
            reading.occupancy
        } else {
            1
        };
        tracks.contacts.insert(id, contact);
        tracks.occupancy.insert(id, occupancy);
        proof {
            before.ingested_is_consistent(reading@, sensed, now, fresh);
        }
        self.tracks = tracks;
        assert(self@ =~= after);
        Ok(())
    }

    /// Take in a reading: resolve its room by id or name, then a detection or an
    /// absence, as it reports presence or not. `confidence` is what the detector
    /// gives the vital signs of the reading.
    pub fn apply_input(&mut self, input: &ReadingInput, confidence: Measure, sensed: Sensed) -> (r:
        Result<(), TacticalError>)
        ensures
            final(self)@.consistent(),
            match old(self)@.resolves(input.room_id, text_of(input.room_name)) {
                Some(id) => r is Ok && exists|now: Timestamp, fresh: ContactId|
                    now.secs() >= 0 && random_uuid(fresh.uuid) && final(self)@ == #[trigger] old(self)@.applied(
                        id,
                        *input,
                        confidence,
                        sensed,
                        now,
                        fresh,
                    ),
                None => r is Err && final(self)@ == old(self)@ && is_unknown_room(
                    r->Err_0,
                    unknown_room(input.room_name, input.room_id),
                ),
            },
    {
        let now: Timestamp = Timestamp::now();
        let fresh: ContactId = ContactId::new();
        self.apply_input_at(input, confidence, sensed, now, fresh)
    }

    /// Take in a reading at `now`. A contact that this creates gets the id
    /// `fresh`.
    pub fn apply_input_at(
        &mut self,
        input: &ReadingInput,
        confidence: Measure,
        sensed: Sensed,
        now: Timestamp,
        fresh: ContactId,
    ) -> (r: Result<(), TacticalError>)
        ensures
            final(self)@.consistent(),
            match old(self)@.resolves(input.room_id, text_of(input.room_name)) {
                Some(id) => r is Ok && final(self)@ == old(self)@.applied(
                    id,
                    *input,
                    confidence,
                    sensed,
                    now,
                    fresh,
                ),
                None => r is Err && final(self)@ == old(self)@ && is_unknown_room(
                    r->Err_0,
                    unknown_room(input.room_name, input.room_id),
                ),
            },
    {
        proof {
            use_type_invariant(&*self);
        }
        let room_id: RoomId = match self.resolve_named(input.room_id, &input.room_name) {
            Ok(id) => id,
            Err(e) => {
                return Err(e);
            },
        };
        proof {
            self@.resolved_is_known(input.room_id, text_of(input.room_name));
        }
        let sensor_rssi: Vec<(String, Measure)> = input.rssi_list();
        match input.to_vitals() {
            Some(signs) => {
                let reading: RoomReading = RoomReading {
                    room_id,
                    vitals: signs.with_confidence(confidence),
                    occupancy: input.effective_occupancy(),
                    sensor_rssi,
                };
                self.ingest_at(reading, sensed, now, fresh)
            },
            None => {
                self.note_sensors_at(room_id, sensor_rssi.as_slice(), now);
                self.record_absence(room_id)
            },
        }
    }

    /// The room that a reading names, or the error that says what it named.
    fn resolve_named(&self, room_id: Option<RoomId>, room_name: &Option<String>) -> (r: Result<
        RoomId,
        TacticalError,
    >)
        ensures
            match self@.resolves(room_id, text_of(*room_name)) {
                Some(id) => r == Ok::<RoomId, TacticalError>(id),
                None => r is Err && is_unknown_room(r->Err_0, unknown_room(*room_name, room_id)),
            },
    {
        let name: Option<&str> = match room_name {
            Some(n) => Some(n.as_str()),
            None => None,
        };
        match self.resolve_room(room_id, name) {
            Some(id) => Ok(id),
            None => {
                let named: String = match room_name {
                    Some(n) => n.clone(),
                    None => match room_id {
                        Some(id) => id.to_text(),
                        None => "unspecified".to_owned(),
                    },
                };
                Err(TacticalError::UnknownRoom(named))
            },
        }
    }

    /// Take in what the detector made of the channel state of a room.
    pub fn apply_csi(
        &mut self,
        room_id: RoomId,
        found: Detection,
        sensor_rssi: Vec<(String, Measure)>,
        sensed: Sensed,
    )
        ensures
            final(self)@.consistent(),
            exists|now: Timestamp, fresh: ContactId|
                now.secs() >= 0 && random_uuid(fresh.uuid) && final(self)@ == #[trigger] old(self)@.csi_applied(
                    room_id,
                    found,
                    sensor_rssi@,
                    sensed,
                    now,
                    fresh,
                ),
    {
        let now: Timestamp = Timestamp::now();
        let fresh: ContactId = ContactId::new();
        self.apply_csi_at(room_id, found, sensor_rssi, sensed, now, fresh);
    }

    /// Take in what the detector made of the channel state of a room, at `now`.
    /// A contact that this creates gets the id `fresh`.
    pub fn apply_csi_at(
        &mut self,
        room_id: RoomId,
        found: Detection,
        sensor_rssi: Vec<(String, Measure)>,
        sensed: Sensed,
        now: Timestamp,
        fresh: ContactId,
    )
        ensures
            final(self)@.consistent(),
            final(self)@ == old(self)@.csi_applied(
                room_id,
                found,
                sensor_rssi@,
                sensed,
                now,
                fresh,
            ),
    {
        self.note_sensors_at(room_id, sensor_rssi.as_slice(), now);
        match found {
            Detection::TooLittle => {},
            Detection::Nothing => {
                let _ = self.record_absence(room_id);
            },
            Detection::Found(vitals) => if vitals.signs.has_vitals() {
                assert(self@.noted(room_id, sensor_rssi@, now) =~= self@);
                let reading: RoomReading = RoomReading {
                    room_id,
                    vitals,
                    occupancy: 1,
                    sensor_rssi,
                };
                let _ = self.ingest_at(reading, sensed, now, fresh);
            } else {
                let _ = self.record_absence(room_id);
            },
        }
    }

    /// Record that a room was scanned and found clear: drop its contact and
    /// bring its occupancy to zero. Absence is no proof that a room is empty.
    pub fn record_absence(&mut self, room_id: RoomId) -> (r: Result<(), TacticalError>)
        ensures
            final(self)@.consistent(),
            r is Ok <==> old(self)@.structure.room_at(room_id) is Some,
            r is Ok ==> final(self)@ == old(self)@.cleared(room_id),
            r is Err ==> final(self)@ == old(self)@ && is_unknown_room(
                r->Err_0,
                hyphenated(room_id.uuid),
            ),
    {
        proof {
            use_type_invariant(&*self);
        }
        if self.structure.room(room_id).is_none() {
            return Err(TacticalError::UnknownRoom(room_id.to_text()));
        }
        proof {
            self@.cleared_is_consistent(room_id);
        }
        let ghost after = self@.cleared(room_id);
        let mut tracks: Tracks = Tracks::new();
        std::mem::swap(&mut tracks, &mut self.tracks);
        let _ = tracks.contacts.remove(&room_id);
        tracks.occupancy.insert(room_id, 0);
        self.tracks = tracks;
        assert(self@ =~= after);
        Ok(())
    }

    /// Drop the contacts that no reading refreshed within the configured time.
    /// Returns how many were dropped.
    pub fn prune_stale(&mut self) -> (n: usize)
        ensures
            final(self)@.consistent(),
            exists|now: Timestamp|
                {
                    let cutoff = #[trigger] now.before(old(self)@.config.contact_ttl_secs);
                    &&& now.secs() >= 0
                    &&& final(self)@ == old(self)@.pruned(cutoff)
                    &&& n == old(self)@.stale(cutoff).len()
                },
    {
        let now: Timestamp = Timestamp::now();
        let cutoff: Timestamp = now.minus_seconds(self.config.contact_ttl_secs);
        self.prune_stale_before(cutoff)
    }

    /// Drop the contacts that were last updated before `cutoff`. Returns how
    /// many were dropped.
    pub fn prune_stale_before(&mut self, cutoff: Timestamp) -> (n: usize)
        ensures
            final(self)@.consistent(),
            final(self)@ == old(self)@.pruned(cutoff),
            old(self)@.stale(cutoff).finite(),
            n == old(self)@.stale(cutoff).len(),
    {
        proof {
            use_type_invariant(&*self);
            self@.pruned_is_consistent(cutoff);
        }
        let ghost before = self@;
        let ghost stale = before.stale(cutoff);
        let ghost mut gone = Set::<RoomId>::empty();
        let mut tracks: Tracks = Tracks::new();
        std::mem::swap(&mut tracks, &mut self.tracks);
        let mut n: usize = 0;
        let mut i: usize = 0;
        let mut left: usize = tracks.contacts.len();
        assert(before.contacts.remove_keys(gone) =~= before.contacts);
        assert(before.occupancy.union_prefer_right(zeros(gone)) =~= before.occupancy);
        while i < left
            invariant
                before.stale(cutoff) == stale,
                left == tracks.contacts.keys().len(),
                i <= left,
                n + left <= usize::MAX,
                gone.subset_of(stale),
                gone.finite(),
                n == gone.len(),
                tracks.contacts@ == before.contacts.remove_keys(gone),
                tracks.occupancy@ == before.occupancy.union_prefer_right(zeros(gone)),
                tracks.contacts.keys().no_duplicates(),
                forall|k: RoomId| #[trigger]
                    tracks.contacts@.contains_key(k) <==> tracks.contacts.keys().contains(k),
                forall|j: int| 0 <= j < i ==> !stale.contains(#[trigger] tracks.contacts.keys()[j]),
            decreases left - i,
        {
            let id: RoomId = *tracks.contacts.key_at(i);
            if tracks.contacts.value_at(i).last_updated.is_before(cutoff) {
                let _ = tracks.contacts.remove_at(i);
                tracks.occupancy.insert(id, 0);
                left = tracks.contacts.len();
                n = n + 1;
                proof {
                    assert(before.contacts.remove_keys(gone).remove(id)
                        =~= before.contacts.remove_keys(gone.insert(id)));
                    assert(before.occupancy.union_prefer_right(zeros(gone)).insert(id, 0)
                        =~= before.occupancy.union_prefer_right(zeros(gone.insert(id))));
                    gone = gone.insert(id);
                }
            } else {
                i = i + 1;
            }
        }
        proof {
            assert forall|k: RoomId| stale.contains(k) implies gone.contains(k) by {
                if !gone.contains(k) {
                    assert(tracks.contacts@.contains_key(k));
                    let j = tracks.contacts.keys().index_of(k);
                    assert(tracks.contacts.keys()[j] == k);
                }
            }
            assert(gone =~= stale);
            assert(before.pruned(cutoff).occupancy =~= before.occupancy.union_prefer_right(
                zeros(stale),
            ));
        }
        self.tracks = tracks;
        assert(self@ =~= before.pruned(cutoff));
        n
    }

    /// Take in a radar reading: resolve its room by id or name, and keep it as
    /// the latest of the room.
    pub fn apply_mmwave(&mut self, reading: &MmwaveReading) -> (r: Result<(), TacticalError>)
        ensures
            final(self)@.consistent(),
            match old(self)@.resolves(reading.room_id, text_of(reading.room_name)) {
                Some(id) => r is Ok && exists|now: Timestamp|
                    now.secs() >= 0 && final(self)@ == #[trigger] old(self)@.radar_heard(
                        id,
                        *reading,
                        now,
                    ),
                None => r is Err && final(self)@ == old(self)@ && is_unknown_room(
                    r->Err_0,
                    unknown_room(reading.room_name, reading.room_id),
                ),
            },
    {
        let now: Timestamp = Timestamp::now();
        self.apply_mmwave_at(reading, now)
    }

    /// Take in a radar reading at `now`.
    pub fn apply_mmwave_at(&mut self, reading: &MmwaveReading, now: Timestamp) -> (r: Result<
        (),
        TacticalError,
    >)
        ensures
            final(self)@.consistent(),
            match old(self)@.resolves(reading.room_id, text_of(reading.room_name)) {
                Some(id) => r is Ok && final(self)@ == old(self)@.radar_heard(id, *reading, now),
                None => r is Err && final(self)@ == old(self)@ && is_unknown_room(
                    r->Err_0,
                    unknown_room(reading.room_name, reading.room_id),
                ),
            },
    {
        proof {
            use_type_invariant(&*self);
        }
        let room_id: RoomId = match self.resolve_named(reading.room_id, &reading.room_name) {
            Ok(id) => id,
            Err(e) => {
                return Err(e);
            },
        };
        proof {
            self@.resolved_is_known(reading.room_id, text_of(reading.room_name));
            self@.radar_heard_is_consistent(room_id, *reading, now);
        }
        let ghost after = self@.radar_heard(room_id, *reading, now);
        let mut mmwave: Table<RoomId, MmwaveState> = Table::new();
        std::mem::swap(&mut mmwave, &mut self.mmwave);
        mmwave.insert(
            room_id,
            MmwaveState {
                presence: reading.presence,
                breathing_bpm: keep_resolved(reading.breathing_bpm),
                heart_rate_bpm: keep_resolved(reading.heart_rate_bpm),
                distance_cm: keep_resolved(reading.distance_cm),
                targets: reading.targets,
                confidence: reading.confidence,
                last_seen: now,
            },
        );
        self.mmwave = mmwave;
        assert(self@ =~= after);
        Ok(())
    }
}

impl TacticalEngine {
    /// The radar readings of the rooms, without those past the freshness window.
    pub fn mmwave_report(&self) -> (r: Vec<(RoomId, MmwaveCorroboration)>)
        ensures
            exists|now: Timestamp|
                now.secs() >= 0 && enumerates(radar_views(r@), #[trigger] self@.fresh_radar(now)),
    {
        let now: Timestamp = Timestamp::now();
        self.mmwave_report_at(now)
    }

    /// The radar readings of the rooms that are fresh at `now`.
    pub fn mmwave_report_at(&self, now: Timestamp) -> (r: Vec<(RoomId, MmwaveCorroboration)>)
        ensures
            enumerates(radar_views(r@), self@.fresh_radar(now)),
    {
        let ghost fresh = self@.fresh_radar(now);
        let ghost keys = self.mmwave.keys();
        let window: i64 = self.config.mmwave_stale_secs;
        let mut r: Vec<(RoomId, MmwaveCorroboration)> = Vec::new();
        let n: usize = self.mmwave.len();
        let mut i: usize = 0;
        assert(radar_views(r@) =~= entries_of(keys.take(0), fresh));
        while i < n
            invariant
                i <= n,
                n == keys.len(),
                keys == self.mmwave.keys(),
                fresh == self@.fresh_radar(now),
                window == self@.config.mmwave_stale_secs,
                radar_views(r@) == entries_of(keys.take(i as int), fresh),
            decreases n - i,
        {
            proof {
                entries_grow(keys, fresh, i as int);
            }
            let m: &MmwaveState = self.mmwave.value_at(i);
            if now.is_fresh(m.last_seen, window) {
                let shown: MmwaveCorroboration = MmwaveCorroboration {
                    presence: m.presence,
                    breathing_bpm: m.breathing_bpm,
                    heart_rate_bpm: m.heart_rate_bpm,
                    distance_cm: m.distance_cm,
                    targets: m.targets,
                    confidence: m.confidence,
                    age_secs: now.whole_seconds_since(m.last_seen),
                };
                let ghost was = r@;
                let ghost id = keys[i as int];
                r.push((*self.mmwave.key_at(i), shown));
                assert(radar_views(r@) =~= radar_views(was).push((id, shown@)));
            }
            i = i + 1;
        }
        proof {
            assert(keys.take(i as int) =~= keys);
            entries_enumerate(keys, fresh);
        }
        r
    }

    /// Health of each node: every node of the floor plan and every other node
    /// that reported, each with whether it is within the freshness window.
    pub fn sensor_report(&self) -> (r: Vec<SensorSummary>)
        ensures
            exists|now: Timestamp| now.secs() >= 0 && #[trigger] self@.reports(views(r@), now),
    {
        let now: Timestamp = Timestamp::now();
        self.sensor_report_at(now)
    }

    /// Health of each node at `now`.
    pub fn sensor_report_at(&self, now: Timestamp) -> (r: Vec<SensorSummary>)
        ensures
            self@.reports(views(r@), now),
    {
        let mut out: Vec<SensorSummary> = Vec::new();
        let ghost rooms = self@.structure.rooms@;
        let mut i: usize = 0;
        assert(views(out@) =~= self@.plan_rows(rooms.take(0), now));
        while i < self.structure.rooms.len()
            invariant
                i <= rooms.len(),
                rooms == self@.structure.rooms@,
                views(out@) == self@.plan_rows(rooms.take(i as int), now),
            decreases rooms.len() - i,
        {
            let room: &Room = &self.structure.rooms[i];
            let ghost head = views(out@);
            let ghost mine = self@.room_rows(*room, now);
            let mut j: usize = 0;
            assert(head =~= head + mine.take(0));
            while j < room.sensors.len()
                invariant
                    j <= room.sensors@.len(),
                    mine == self@.room_rows(*room, now),
                    views(out@) == head + mine.take(j as int),
                decreases room.sensors@.len() - j,
            {
                let s: &SensorPlacement = &room.sensors[j];
                let row: SensorSummary = self.summarize_node(
                    &s.id,
                    room.id,
                    Some(room.name.clone()),
                    true,
                    now,
                );
                let ghost was = out@;
                out.push(row);
                j = j + 1;
                assert(views(out@) =~= views(was).push(row@));
                assert(mine.take(j as int) =~= mine.take(j - 1).push(row@));
                assert(views(out@) =~= head + mine.take(j as int));
            }
            proof {
                assert(mine.take(j as int) =~= mine);
                assert(rooms.take(i + 1).drop_last() =~= rooms.take(i as int));
            }
            i = i + 1;
        }
        assert(rooms.take(i as int) =~= rooms);

        let ghost plan = self@.plan_rows(rooms, now);
        let ghost strays = self@.strays(now);
        let ghost keys = self.sensors.keys();
        let n: usize = self.sensors.len();
        let mut k: usize = 0;
        assert(rows(entries_of(keys.take(0), strays)) =~= Seq::empty());
        assert(views(out@) =~= plan + rows(entries_of(keys.take(0), strays)));
        while k < n
            invariant
                k <= n,
                n == keys.len(),
                keys == self.sensors.keys(),
                strays == self@.strays(now),
                views(out@) == plan + rows(entries_of(keys.take(k as int), strays)),
            decreases n - k,
        {
            proof {
                entries_grow(keys, strays, k as int);
            }
            let id: &String = self.sensors.key_at(k);
            if !self.is_planned(id) {
                let a: &SensorActivity = self.sensors.value_at(k);
                let room_name: Option<String> = match self.structure.room(a.room_id) {
                    Some(room) => Some(room.name.clone()),
                    None => None,
                };
                let row: SensorSummary = self.summarize_node(id, a.room_id, room_name, false, now);
                let ghost was = out@;
                let ghost entries = entries_of(keys.take(k as int), strays);
                out.push(row);
                assert(strays.contains_key(id@));
                assert(views(out@) =~= views(was).push(row@));
                assert(rows(entries.push((id@, strays[id@]))) =~= rows(entries).push(row@));
                assert(views(out@) =~= plan + rows(entries_of(keys.take(k + 1), strays)));
            }
            k = k + 1;
        }
        proof {
            assert(keys.take(k as int) =~= keys);
            entries_enumerate(keys, strays);
        }
        stable_sort(out)
    }

    /// Whether a node is in the floor plan.
    fn is_planned(&self, id: &String) -> (r: bool)
        ensures
            r == self@.planned(id@),
    {
        let ghost rooms = self@.structure.rooms@;
        let mut i: usize = 0;
        while i < self.structure.rooms.len()
            invariant
                i <= rooms.len(),
                rooms == self@.structure.rooms@,
                forall|a: int, b: int|
                    #![trigger rooms[a].sensors@[b]]
                    0 <= a < i && 0 <= b < rooms[a].sensors@.len() ==> rooms[a].sensors@[b].id@
                        != id@,
            decreases rooms.len() - i,
        {
            let room: &Room = &self.structure.rooms[i];
            let mut j: usize = 0;
            while j < room.sensors.len()
                invariant
                    i < rooms.len(),
                    rooms == self@.structure.rooms@,
                    *room == rooms[i as int],
                    j <= room.sensors@.len(),
                    forall|b: int| 0 <= b < j ==> (#[trigger] room.sensors@[b]).id@ != id@,
                decreases room.sensors@.len() - j,
            {
                if room.sensors[j].id == *id {
                    assert(self@.structure.rooms@[i as int].sensors@[j as int].id@ == id@);
                    return true;
                }
                j = j + 1;
            }
            i = i + 1;
        }
        false
    }

    /// What the report says of a node, under a room, at `now`.
    fn summarize_node(
        &self,
        id: &String,
        room_id: RoomId,
        room_name: Option<String>,
        configured: bool,
        now: Timestamp,
    ) -> (r: SensorSummary)
        ensures
            r@ == self@.node_row(id@, room_id, text_of(room_name), configured, now),
    {
        let (reporting, age_secs, last_rssi) = match self.sensors.get(id) {
            Some(a) => (
                now.is_fresh(a.last_seen, self.config.sensor_stale_secs),
                Some(now.whole_seconds_since(a.last_seen)),
                a.last_rssi,
            ),
            None => (false, None, None),
        };
        SensorSummary {
            id: id.clone(),
            room_id: Some(room_id),
            room_name,
            configured,
            reporting,
            age_secs,
            last_rssi,
        }
    }

    /// The tracked contacts.
    fn contact_list(&self) -> (r: Vec<PersonContact>)
        ensures
            enumerates(by_room(r@), self@.contacts),
    {
        proof {
            use_type_invariant(self);
        }
        let ghost all = self@.contacts;
        let ghost keys = self.tracks.contacts.keys();
        let mut r: Vec<PersonContact> = Vec::new();
        let n: usize = self.tracks.contacts.len();
        let mut i: usize = 0;
        assert(by_room(r@) =~= entries_of(keys.take(0), all));
        while i < n
            invariant
                i <= n,
                n == keys.len(),
                keys == self.tracks.contacts.keys(),
                all == self.tracks.contacts@,
                forall|id: RoomId| #[trigger] all.contains_key(id) ==> all[id].room_id == id,
                by_room(r@) == entries_of(keys.take(i as int), all),
            decreases n - i,
        {
            proof {
                entries_grow(keys, all, i as int);
            }
            let ghost was = r@;
            let c: PersonContact = self.tracks.contacts.value_at(i).duplicate();
            r.push(c);
            assert(by_room(r@) =~= by_room(was).push((c.room_id, c)));
            i = i + 1;
        }
        proof {
            assert(keys.take(i as int) =~= keys);
            entries_enumerate(keys, all);
        }
        r
    }

    /// The occupancy of the rooms.
    fn occupancy_list(&self) -> (r: Vec<(RoomId, u32)>)
        ensures
            enumerates(r@, self@.occupancy),
    {
        let ghost all = self@.occupancy;
        let ghost keys = self.tracks.occupancy.keys();
        let mut r: Vec<(RoomId, u32)> = Vec::new();
        let n: usize = self.tracks.occupancy.len();
        let mut i: usize = 0;
        assert(r@ =~= entries_of(keys.take(0), all));
        while i < n
            invariant
                i <= n,
                n == keys.len(),
                keys == self.tracks.occupancy.keys(),
                all == self.tracks.occupancy@,
                r@ == entries_of(keys.take(i as int), all),
            decreases n - i,
        {
            proof {
                entries_grow(keys, all, i as int);
            }
            r.push((*self.tracks.occupancy.key_at(i), *self.tracks.occupancy.value_at(i)));
            i = i + 1;
        }
        proof {
            assert(keys.take(i as int) =~= keys);
            entries_enumerate(keys, all);
        }
        r
    }

    /// Whether the sum of the occupancies fits the total of a picture.
    pub fn total_fits(&self) -> (r: bool)
        ensures
            r == (self@.people() <= u32::MAX),
    {
        proof {
            use_type_invariant(self);
        }
        let contacts: Vec<PersonContact> = self.contact_list();
        let occupancy: Vec<(RoomId, u32)> = self.occupancy_list();
        proof {
            self@.total_is_people(contacts@, occupancy@, self@.structure.rooms@);
        }
        occupancy_fits(self.structure.rooms.as_slice(), &contacts, occupancy.as_slice())
    }

    /// The current picture.
    pub fn picture(&self) -> (r: TacticalPicture)
        requires
            self@.people() <= u32::MAX,
        ensures
            self@.consistent(),
            self@.pictured(r, r.generated_at),
            r.generated_at.secs() >= 0,
    {
        let now: Timestamp = Timestamp::now();
        self.picture_at(now)
    }

    /// The picture at `now`.
    pub fn picture_at(&self, now: Timestamp) -> (r: TacticalPicture)
        requires
            self@.people() <= u32::MAX,
        ensures
            self@.consistent(),
            self@.pictured(r, now),
    {
        proof {
            use_type_invariant(self);
        }
        let contacts: Vec<PersonContact> = self.contact_list();
        let occupancy: Vec<(RoomId, u32)> = self.occupancy_list();
        let sensors: Vec<SensorSummary> = self.sensor_report_at(now);
        let mmwave: Vec<(RoomId, MmwaveCorroboration)> = self.mmwave_report_at(now);
        let ghost rooms = self@.structure.rooms@;
        proof {
            self@.total_is_people(contacts@, occupancy@, rooms);
        }
        let r: TacticalPicture = TacticalPicture::assemble_at(
            self.structure.name.as_str(),
            self.structure.rooms.as_slice(),
            contacts,
            occupancy.as_slice(),
            sensors,
            mmwave.as_slice(),
            now,
        );
        proof {
            assert forall|i: int| 0 <= i < rooms.len() implies roll_up(
                #[trigger] rooms[i],
                contacts@,
                occupancy@,
                mmwave@,
            )@ == self@.row(rooms[i], now) by {
                self@.roll_up_is_row(contacts@, occupancy@, mmwave@, rooms[i], now);
            }
            assert(views(r.rooms@) =~= rooms.map_values(|room: Room| self@.row(room, now)));
        }
        r
    }
}

/// A quantity that the radar resolved: one above zero.
fn keep_resolved(m: Option<Measure>) -> (r: Option<Measure>)
    ensures
        r == resolved(m),
{
    let zero: Measure = Measure { bits: 0 };
    match m {
        Some(v) => if zero.below(v) {
            Some(v)
        } else {
            None
        },
        None => None,
    }
}

} // verus!
