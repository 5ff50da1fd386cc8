//! Entry advisor.
//!
//! Turns a picture into an ordered, plain-language set of room assessments. It
//! organizes what the sensors saw; it does not authorize entry, rank threats or
//! identify anyone.

use vstd::prelude::*;
use vstd::string::StringExecFns;

use crate::domain::contact::{LifeSign, Motion, PersonContact};
use crate::domain::picture::{contacts_in, moving_in, RoomOccupancy, TacticalPicture};
use crate::ids::RoomId;
use crate::ranked::{sort_keeps_counts, stable_sort, stable_sort_of, views, Ranked};
use crate::text::{decimal, decimal_reads_back, decimal_text};

verus! {

/// The disclaimer stamped on every recommendation.
pub const ENTRY_DISCLAIMER: &'static str =
    "ADVISORY ONLY. This ordering reflects sensed presence and motion, NOT threat, identity, or friend/foe. WiFi sensing cannot distinguish hostage from suspect, cannot confirm a weapon, and cannot prove a room is empty. Not a substitute for command judgment or a use-of-force decision.";

/// Relative attention a room warrants, from presence and motion alone.
#[derive(Clone, Copy, Debug, PartialEq, Eq, Structural)]
pub enum TacticalPriority {
    /// Stationary occupants: a place where people stay put.
    Focus,
    /// Moving contacts: expect the picture to change.
    Active,
    /// A weak or borderline signature: worth watching, not confirmed.
    Monitor,
    /// No presence detected. Does not confirm that the room is empty.
    NoContact,
}

impl TacticalPriority {
    /// The place of a priority in the order of attention; lower comes first.
    pub open spec fn order(self) -> u8 {
        match self {
            TacticalPriority::Focus => 0,
            TacticalPriority::Active => 1,
            TacticalPriority::Monitor => 2,
            TacticalPriority::NoContact => 3,
        }
    }

    /// The lower-case tag of a priority.
    pub open spec fn tag_text(self) -> Seq<char> {
        match self {
            TacticalPriority::Focus => "focus"@,
            TacticalPriority::Active => "active"@,
            TacticalPriority::Monitor => "monitor"@,
            TacticalPriority::NoContact => "no_contact"@,
        }
    }

    /// Sort key, lower first.
    pub fn rank(&self) -> (r: u8)
        ensures
            r == self.order(),
    {
        match self {
            TacticalPriority::Focus => 0,
            TacticalPriority::Active => 1,
            TacticalPriority::Monitor => 2,
            TacticalPriority::NoContact => 3,
        }
    }

    /// Lower-case tag for displays and JSON consumers.
    pub fn tag(&self) -> (r: &'static str)
        ensures
            r@ == self.tag_text(),
    {
        match self {
            TacticalPriority::Focus => "focus",
            TacticalPriority::Active => "active",
            TacticalPriority::Monitor => "monitor",
            TacticalPriority::NoContact => "no_contact",
        }
    }
}

/// Assessment of a single room.
#[derive(Clone, Debug)]
pub struct RoomAssessment {
    /// Room id.
    pub room_id: RoomId,
    /// Room label.
    pub room_name: String,
    /// Storey.
    pub floor: i32,
    /// Assigned priority.
    pub priority: TacticalPriority,
    /// Occupancy estimate for the room, a lower bound.
    pub occupancy_estimate: u32,
    /// Whether the room has the sensors for a point fix.
    pub localizable: bool,
    /// Plain-language rationale.
    pub rationale: String,
}

/// The content of an assessment.
#[verifier::ext_equal]
pub struct RoomAssessmentView {
    /// Room id.
    pub room_id: RoomId,
    /// Room label.
    pub room_name: Seq<char>,
    /// Storey.
    pub floor: i32,
    /// Assigned priority.
    pub priority: TacticalPriority,
    /// Occupancy estimate for the room.
    pub occupancy_estimate: u32,
    /// Whether the room has the sensors for a point fix.
    pub localizable: bool,
    /// Plain-language rationale.
    pub rationale: Seq<char>,
}

impl View for RoomAssessment {
    type V = RoomAssessmentView;

    open spec fn view(&self) -> RoomAssessmentView {
        RoomAssessmentView {
            room_id: self.room_id,
            room_name: self.room_name@,
            floor: self.floor,
            priority: self.priority,
            occupancy_estimate: self.occupancy_estimate,
            localizable: self.localizable,
            rationale: self.rationale@,
        }
    }
}

impl Ranked for RoomAssessment {
    /// Rooms are ordered by priority, then the fuller room first.
    open spec fn ahead(a: RoomAssessmentView, b: RoomAssessmentView) -> bool {
        a.priority.order() < b.priority.order() || (a.priority.order() == b.priority.order()
            && a.occupancy_estimate > b.occupancy_estimate)
    }

    fn is_ahead(&self, other: &RoomAssessment) -> (r: bool) {
        let mine: u8 = self.priority.rank();
        let theirs: u8 = other.priority.rank();
        mine < theirs || (mine == theirs && self.occupancy_estimate > other.occupancy_estimate)
    }

    open spec fn placed(a: RoomAssessmentView) -> bool {
        true
    }

    proof fn order_is_strict(a: RoomAssessmentView, b: RoomAssessmentView) {
        Self::order_is_weak(a, b, a);
    }

    proof fn order_is_weak(a: RoomAssessmentView, b: RoomAssessmentView, c: RoomAssessmentView) {
    }
}

/// The full advisory: ordered assessments, a summary and the disclaimer.
#[derive(Clone, Debug)]
pub struct EntryRecommendation {
    /// One-line situation summary.
    pub summary: String,
    /// Room assessments, highest attention first.
    pub rooms: Vec<RoomAssessment>,
    /// Standing disclaimer, kept in the payload so that no viewer can drop it.
    pub disclaimer: String,
}

/// Whether every contact of the room is faint.
pub open spec fn all_faint_in(contacts: Seq<PersonContact>, id: RoomId) -> bool {
    forall|i: int|
        0 <= i < contacts.len() && (#[trigger] contacts[i]).room_id == id ==> contacts[i].life_sign
            == LifeSign::Faint
}

/// Whether breathing is confirmed for a contact of the room.
pub open spec fn breathing_in(contacts: Seq<PersonContact>, id: RoomId) -> bool {
    exists|i: int|
        0 <= i < contacts.len() && (#[trigger] contacts[i]).room_id == id && contacts[i].life_sign
            == LifeSign::BreathingConfirmed
}

/// The priority of a room: none without a contact; active where one moves;
/// monitored where all are faint; else in focus.
pub open spec fn priority_of(contacts: Seq<PersonContact>, id: RoomId) -> TacticalPriority {
    if contacts_in(contacts, id).len() == 0 {
        TacticalPriority::NoContact
    } else if moving_in(contacts, id) {
        TacticalPriority::Active
    } else if all_faint_in(contacts, id) {
        TacticalPriority::Monitor
    } else {
        TacticalPriority::Focus
    }
}

/// How well the room can place a contact, in words.
pub open spec fn location_text(localizable: bool) -> Seq<char> {
    if localizable {
        "point-localized"@
    } else {
        "room-level presence only (add sensors for a point fix)"@
    }
}

/// The rationale of a priority, in words.
pub open spec fn rationale_text(
    priority: TacticalPriority,
    breathing: bool,
    occupancy: u32,
    localizable: bool,
) -> Seq<char> {
    match priority {
        TacticalPriority::NoContact => "No contact. Absence is not proof of an empty room."@,
        TacticalPriority::Active => "~"@ + decimal(occupancy as nat)
            + " contact(s), at least one MOVING — mobile subject, picture will change; "@
            + location_text(localizable) + "."@,
        TacticalPriority::Focus => "~"@ + decimal(occupancy as nat) + " STATIONARY contact(s), "@
            + (if breathing {
            "breathing confirmed"@
        } else {
            "movement-based presence"@
        })
            + " — people staying put (held persons or barricaded subject; sensor cannot tell); "@
            + location_text(localizable) + "."@,
        TacticalPriority::Monitor => "~"@ + decimal(occupancy as nat)
            + " faint/borderline signature(s) — watch, not confirmed; "@ + location_text(
            localizable,
        ) + "."@,
    }
}

/// The situation in one line.
pub open spec fn summary_text(occupied_rooms: usize, total: u32) -> Seq<char> {
    if occupied_rooms == 0 {
        "No presence detected anywhere in the structure. This does NOT confirm it is empty — verify by other means."@
    } else {
        "~"@ + decimal(total as nat) + " person(s) sensed across "@ + decimal(
            occupied_rooms as nat,
        )
            + " room(s). Presence and motion only — no identity or threat assessment."@
    }
}

/// The assessment of a room of a picture.
pub open spec fn assessment(
    room: RoomOccupancy,
    contacts: Seq<PersonContact>,
) -> RoomAssessmentView {
    let priority = priority_of(contacts, room.room_id);
    RoomAssessmentView {
        room_id: room.room_id,
        room_name: room.room_name@,
        floor: room.floor,
        priority,
        occupancy_estimate: room.occupancy_estimate,
        localizable: room.localizable,
        rationale: rationale_text(
            priority,
            breathing_in(contacts, room.room_id),
            room.occupancy_estimate,
            room.localizable,
        ),
    }
}

/// The assessments of the rooms of a picture, in its order.
pub open spec fn assessments(picture: TacticalPicture) -> Seq<RoomAssessmentView> {
    picture.rooms@.map_values(|room: RoomOccupancy| assessment(room, picture.contacts@))
}

/// Makes recommendations from pictures.
pub struct EntryAdvisor;

impl EntryAdvisor {
    /// Assess a picture: each room once, highest attention first, rooms of the
    /// same attention in the order of the picture.
    pub fn assess(picture: &TacticalPicture) -> (r: EntryRecommendation)
        ensures
            r.summary@ == summary_text(picture.occupied_rooms, picture.total_occupancy_estimate),
            stable_sort_of::<RoomAssessment>(views(r.rooms@), assessments(*picture)),
            r.rooms@.len() == picture.rooms@.len(),
            r.disclaimer@ == ENTRY_DISCLAIMER@,
    {
        let ghost all = assessments(*picture);
        let mut rooms: Vec<RoomAssessment> = Vec::new();
        let mut i: usize = 0;
        assert(views(rooms@) =~= all.take(0));
        while i < picture.rooms.len()
            invariant
                i <= picture.rooms@.len(),
                rooms@.len() == i,
                all == assessments(*picture),
                views(rooms@) == all.take(i as int),
            decreases picture.rooms@.len() - i,
        {
            let room: &RoomOccupancy = &picture.rooms[i];
            let (priority, breathing) = EntryAdvisor::prioritize(&picture.contacts, room.room_id);
            let row: RoomAssessment = RoomAssessment {
                room_id: room.room_id,
                room_name: room.room_name.clone(),
                floor: room.floor,
                priority,
                occupancy_estimate: room.occupancy_estimate,
                localizable: room.localizable,
                rationale: EntryAdvisor::rationale(
                    priority,
                    breathing,
                    room.occupancy_estimate,
                    room.localizable,
                ),
            };
            let ghost was = rooms@;
            rooms.push(row);
            i = i + 1;
            assert(row@ == all[i - 1]);
            assert(views(rooms@) =~= views(was).push(row@));
            assert(views(rooms@) =~= all.take(i as int));
        }
        assert(all.take(i as int) =~= all);
        EntryRecommendation {
            summary: EntryAdvisor::summary(picture),
            rooms: stable_sort(rooms),
            disclaimer: ENTRY_DISCLAIMER.to_owned(),
        }
    }

    /// The priority of a room, and whether breathing is confirmed in it.
    fn prioritize(contacts: &Vec<PersonContact>, id: RoomId) -> (r: (TacticalPriority, bool))
        ensures
            r.0 == priority_of(contacts@, id),
            r.1 == breathing_in(contacts@, id),
    {
        let ghost p = |c: PersonContact| c.room_id == id;
        let mut present: bool = false;
        let mut moving: bool = false;
        let mut all_faint: bool = true;
        let mut breathing: bool = false;
        let mut i: usize = 0;
        while i < contacts.len()
            invariant
                i <= contacts@.len(),
                present == exists|j: int| 0 <= j < i && (#[trigger] contacts@[j]).room_id == id,
                moving == exists|j: int|
                    0 <= j < i && (#[trigger] contacts@[j]).room_id == id && contacts@[j].motion
                        == Motion::Moving,
                all_faint == forall|j: int|
                    0 <= j < i && (#[trigger] contacts@[j]).room_id == id
                        ==> contacts@[j].life_sign == LifeSign::Faint,
                breathing == exists|j: int|
                    0 <= j < i && (#[trigger] contacts@[j]).room_id == id
                        && contacts@[j].life_sign == LifeSign::BreathingConfirmed,
            decreases contacts@.len() - i,
        {
            let c: &PersonContact = &contacts[i];
            if c.room_id == id {
                present = true;
                if c.motion == Motion::Moving {
                    moving = true;
                }
                if c.life_sign != LifeSign::Faint {
                    all_faint = false;
                }
                if c.life_sign == LifeSign::BreathingConfirmed {
                    breathing = true;
                }
            }
            i = i + 1;
        }
        proof {
            if present {
                let j = choose|j: int|
                    0 <= j < contacts@.len() && (#[trigger] contacts@[j]).room_id == id;
                contacts@.lemma_filter_contains(p, j);
            } else {
                assert forall|j: int| 0 <= j < contacts@.len() implies !p(#[trigger] contacts@[j]) by {
                }
                contacts@.lemma_all_neg_filter_empty(p);
            }
        }
        let priority: TacticalPriority = if !present {
            TacticalPriority::NoContact
        } else if moving {
            TacticalPriority::Active
        } else if all_faint {
            TacticalPriority::Monitor
        } else {
            TacticalPriority::Focus
        };
        (priority, breathing)
    }

    /// The situation in one line.
    fn summary(picture: &TacticalPicture) -> (r: String)
        ensures
            r@ == summary_text(picture.occupied_rooms, picture.total_occupancy_estimate),
    {
        if picture.occupied_rooms == 0 {
            return "No presence detected anywhere in the structure. This does NOT confirm it is empty — verify by other means.".to_owned();
        }
        let mut r: String = "~".to_owned();
        r.append(decimal_text(picture.total_occupancy_estimate as u64).as_str());
        r.append(" person(s) sensed across ");
        r.append(decimal_text(picture.occupied_rooms as u64).as_str());
        r.append(" room(s). Presence and motion only — no identity or threat assessment.");
        r
    }

    /// The rationale of a priority, in words.
    fn rationale(
        priority: TacticalPriority,
        breathing: bool,
        occupancy: u32,
        localizable: bool,
    ) -> (r: String)
        ensures
            r@ == rationale_text(priority, breathing, occupancy, localizable),
    {
        if priority == TacticalPriority::NoContact {
            return "No contact. Absence is not proof of an empty room.".to_owned();
        }
        let loc: &'static str = if localizable {
            "point-localized"
        } else {
            "room-level presence only (add sensors for a point fix)"
        };
        let mut r: String = "~".to_owned();
        r.append(decimal_text(occupancy as u64).as_str());
        match priority {
            TacticalPriority::Active => {
                r.append(" contact(s), at least one MOVING — mobile subject, picture will change; ");
            },
            TacticalPriority::Focus => {
                let life: &'static str = if breathing {
                    "breathing confirmed"
                } else {
                    "movement-based presence"
                };
                r.append(" STATIONARY contact(s), ");
                r.append(life);
                r.append(
                    " — people staying put (held persons or barricaded subject; sensor cannot tell); ",
                );
            },
            _ => {
                r.append(" faint/borderline signature(s) — watch, not confirmed; ");
            },
        }
        r.append(loc);
        r.append(".");
        r
    }
}

/// In a recommendation no room stands behind one that warrants less attention,
/// and of two rooms of the same attention the fuller stands first. Every room of
/// the picture is assessed once.
pub proof fn attention_decreases(
    picture: TacticalPicture,
    rooms: Seq<RoomAssessmentView>,
    i: int,
    j: int,
)
    requires
        stable_sort_of::<RoomAssessment>(rooms, assessments(picture)),
        0 <= i < j < rooms.len(),
    ensures
        rooms[i].priority.order() <= rooms[j].priority.order(),
        rooms[i].priority == rooms[j].priority ==> rooms[i].occupancy_estimate
            >= rooms[j].occupancy_estimate,
        rooms.len() == picture.rooms@.len(),
        rooms.to_multiset() == assessments(picture).to_multiset(),
{
    assert(!RoomAssessment::ahead(rooms[j], rooms[i]));
    sort_keeps_counts::<RoomAssessment>(rooms, assessments(picture), |v: RoomAssessmentView| true);
}

/// A room is without priority exactly where the picture has no contact in it; a
/// room with a moving contact is active.
pub proof fn priority_follows_contacts(contacts: Seq<PersonContact>, id: RoomId)
    ensures
        priority_of(contacts, id) == TacticalPriority::NoContact <==> forall|i: int|
            0 <= i < contacts.len() ==> (#[trigger] contacts[i]).room_id != id,
        priority_of(contacts, id) == TacticalPriority::Active <==> moving_in(contacts, id),
{
    let p = |c: PersonContact| c.room_id == id;
    if forall|i: int| 0 <= i < contacts.len() ==> (#[trigger] contacts[i]).room_id != id {
        assert forall|j: int| 0 <= j < contacts.len() implies !p(#[trigger] contacts[j]) by {}
        contacts.lemma_all_neg_filter_empty(p);
    } else {
        let j = choose|j: int| 0 <= j < contacts.len() && (#[trigger] contacts[j]).room_id == id;
        contacts.lemma_filter_contains(p, j);
    }
}

/// The summary of a picture with an occupied room begins with how many people
/// are sensed, and goes on with in how many rooms, both in decimal. Without one
/// it says that no presence is detected.
pub proof fn summary_tells_how_many(occupied_rooms: usize, total: u32)
    ensures
        occupied_rooms == 0 ==> "No presence detected"@.is_prefix_of(
            summary_text(occupied_rooms, total),
        ),
        occupied_rooms > 0 ==> ("~"@ + decimal(total as nat) + " person(s)"@).is_prefix_of(
            summary_text(occupied_rooms, total),
        ),
        occupied_rooms > 0 ==> exists|tail: Seq<char>|
            summary_text(occupied_rooms, total) == #[trigger] ("~"@ + decimal(total as nat)
                + " person(s) sensed across "@ + decimal(occupied_rooms as nat) + " room(s)"@
                + tail),
{
    let text = summary_text(occupied_rooms, total);
    if occupied_rooms == 0 {
        reveal_strlit("No presence detected");
        reveal_strlit(
            "No presence detected anywhere in the structure. This does NOT confirm it is empty — verify by other means.",
        );
        assert(text.subrange(0, 20) =~= "No presence detected"@);
    } else {
        let n = decimal(total as nat);
        let tail = ". Presence and motion only — no identity or threat assessment."@;
        reveal_strlit(" room(s)");
        reveal_strlit(". Presence and motion only — no identity or threat assessment.");
        reveal_strlit(" room(s). Presence and motion only — no identity or threat assessment.");
        reveal_strlit(" person(s)");
        reveal_strlit(" person(s) sensed across ");
        reveal_strlit("~");
        assert(" room(s)"@ + tail
            =~= " room(s). Presence and motion only — no identity or threat assessment."@);
        assert(text =~= "~"@ + n + " person(s) sensed across "@ + decimal(occupied_rooms as nat)
            + " room(s)"@ + tail);
        let head = "~"@ + n + " person(s)"@;
        assert(text.subrange(0, head.len() as int) =~= head);
    }
}

/// Pictures with occupied rooms that are summed up in the same line sense the
/// same number of people.
pub proof fn summary_tells_totals_apart(a: (usize, u32), b: (usize, u32))
    requires
        a.0 > 0,
        b.0 > 0,
        summary_text(a.0, a.1) == summary_text(b.0, b.1),
    ensures
        a.1 == b.1,
{
    let m = decimal(a.1 as nat);
    let n = decimal(b.1 as nat);
    let text = summary_text(a.0, a.1);
    reveal_strlit("~");
    reveal_strlit(" person(s) sensed across ");
    decimal_reads_back(a.1 as nat);
    decimal_reads_back(b.1 as nat);
    assert forall|i: int| 0 <= i < m.len() implies text[i + 1] == #[trigger] m[i] by {}
    assert forall|i: int| 0 <= i < n.len() implies text[i + 1] == #[trigger] n[i] by {}
    assert(text[m.len() as int + 1] == ' ');
    assert(text[n.len() as int + 1] == ' ');
    if m.len() < n.len() {
        assert(n[m.len() as int] == text[m.len() as int + 1]);
    }
    if n.len() < m.len() {
        assert(m[n.len() as int] == text[n.len() as int + 1]);
    }
    assert(m =~= n);
}

/// A room has no priority without a contact in it; with one that moves it is
/// active; with none that moves it is monitored where all are faint, and in
/// focus where one is not.
pub proof fn priority_reads_the_contacts(contacts: Seq<PersonContact>, id: RoomId)
    ensures
        ({
            let p = priority_of(contacts, id);
            let some = exists|i: int|
                0 <= i < contacts.len() && (#[trigger] contacts[i]).room_id == id;
            let moving = exists|i: int|
                0 <= i < contacts.len() && (#[trigger] contacts[i]).room_id == id
                    && contacts[i].motion == Motion::Moving;
            let firm = exists|i: int|
                0 <= i < contacts.len() && (#[trigger] contacts[i]).room_id == id && !(
                contacts[i].life_sign == LifeSign::Faint);
            &&& p == TacticalPriority::NoContact <==> !some
            &&& p == TacticalPriority::Active <==> moving
            &&& p == TacticalPriority::Monitor <==> some && !moving && !firm
            &&& p == TacticalPriority::Focus <==> some && !moving && firm
        }),
{
    priority_follows_contacts(contacts, id);
    assert(!all_faint_in(contacts, id) <==> exists|i: int|
        0 <= i < contacts.len() && (#[trigger] contacts[i]).room_id == id && !(
        contacts[i].life_sign == LifeSign::Faint));
}

/// A recommendation lists the rooms in focus first, then the active ones, then
/// those to monitor, and those without a contact last.
pub proof fn rooms_go_by_attention(
    picture: TacticalPicture,
    rooms: Seq<RoomAssessmentView>,
    i: int,
    j: int,
)
    requires
        stable_sort_of::<RoomAssessment>(rooms, assessments(picture)),
        0 <= i < j < rooms.len(),
    ensures
        rooms[j].priority == TacticalPriority::Focus ==> rooms[i].priority
            == TacticalPriority::Focus,
        rooms[j].priority == TacticalPriority::Active ==> rooms[i].priority
            == TacticalPriority::Focus || rooms[i].priority == TacticalPriority::Active,
        rooms[i].priority == TacticalPriority::Monitor ==> rooms[j].priority
            == TacticalPriority::Monitor || rooms[j].priority == TacticalPriority::NoContact,
        rooms[i].priority == TacticalPriority::NoContact ==> rooms[j].priority
            == TacticalPriority::NoContact,
        rooms[i].priority == rooms[j].priority ==> rooms[i].occupancy_estimate
            >= rooms[j].occupancy_estimate,
{
    assert(!RoomAssessment::ahead(rooms[j], rooms[i]));
}

/// A recommendation assesses every room of the picture under its own id, label
/// and storey, with the estimate that the picture gives it, and no other room.
pub proof fn every_room_is_assessed(
    picture: TacticalPicture,
    rooms: Seq<RoomAssessmentView>,
    i: int,
    k: int,
)
    requires
        stable_sort_of::<RoomAssessment>(rooms, assessments(picture)),
    ensures
        0 <= i < picture.rooms@.len() ==> exists|j: int|
            0 <= j < rooms.len() && assesses(
                #[trigger] rooms[j],
                picture.rooms@[i],
                picture.contacts@,
            ),
        0 <= k < rooms.len() ==> exists|j: int|
            0 <= j < picture.rooms@.len() && assesses(
                rooms[k],
                #[trigger] picture.rooms@[j],
                picture.contacts@,
            ),
{
    broadcast use vstd::seq_lib::group_to_multiset_ensures;

    let all = assessments(picture);
    if 0 <= i < picture.rooms@.len() {
        assert(all.contains(all[i]));
        assert(rooms.to_multiset().contains(all[i]));
        assert(rooms.contains(all[i]));
        let j = rooms.index_of(all[i]);
        assert(assesses(rooms[j], picture.rooms@[i], picture.contacts@));
    }
    if 0 <= k < rooms.len() {
        assert(rooms.contains(rooms[k]));
        assert(all.to_multiset().contains(rooms[k]));
        assert(all.contains(rooms[k]));
        let j = all.index_of(rooms[k]);
        assert(assesses(rooms[k], picture.rooms@[j], picture.contacts@));
    }
}

/// Whether an assessment is of a room: with the room's own id, label, storey and
/// estimate, and with the priority that its contacts give it.
pub open spec fn assesses(
    a: RoomAssessmentView,
    room: RoomOccupancy,
    contacts: Seq<PersonContact>,
) -> bool {
    &&& a.room_id == room.room_id
    &&& a.room_name == room.room_name@
    &&& a.floor == room.floor
    &&& a.occupancy_estimate == room.occupancy_estimate
    &&& a.localizable == room.localizable
    &&& a.priority == priority_of(contacts, room.room_id)
}

/// Whether a text begins with one text and ends, behind it, with another.
pub open spec fn framed(text: Seq<char>, head: Seq<char>, tail: Seq<char>) -> bool {
    &&& head.len() + tail.len() <= text.len()
    &&& text.subrange(0, head.len() as int) == head
    &&& text.subrange(text.len() - tail.len(), text.len() as int) == tail
}

/// A text made of a head, a middle and a tail is framed by head and tail.
proof fn parts_frame(head: Seq<char>, mid: Seq<char>, tail: Seq<char>)
    ensures
        framed(head + mid + tail, head, tail),
{
    let text = head + mid + tail;
    assert(text.subrange(0, head.len() as int) =~= head);
    assert(text.subrange(text.len() - tail.len(), text.len() as int) =~= tail);
}

/// How well a room can place a contact is told by its nodes.
pub proof fn location_tells_the_fix(localizable: bool)
    ensures
        localizable ==> location_text(localizable) == "point-localized"@,
        !localizable ==> location_text(localizable)
            == "room-level presence only (add sensors for a point fix)"@,
{
}

/// The rationale of a room without a contact says that there is none, and that
/// this proves nothing.
pub proof fn rationale_of_no_contact(breathing: bool, occupancy: u32, localizable: bool)
    ensures
        framed(
            rationale_text(TacticalPriority::NoContact, breathing, occupancy, localizable),
            "No contact."@,
            "Absence is not proof of an empty room."@,
        ),
{
    let text = "No contact. Absence is not proof of an empty room."@;
    reveal_strlit("No contact.");
    reveal_strlit("Absence is not proof of an empty room.");
    reveal_strlit("No contact. Absence is not proof of an empty room.");
    assert(text.subrange(0, 11) =~= "No contact."@);
    assert(text.subrange(12, text.len() as int) =~= "Absence is not proof of an empty room."@);
}

/// The rationale of an active room begins with the estimate in decimal, says
/// that a contact moves, and ends with how well the room is placed.
pub proof fn rationale_of_active(breathing: bool, occupancy: u32, localizable: bool)
    ensures
        framed(
            rationale_text(TacticalPriority::Active, breathing, occupancy, localizable),
            "~"@ + decimal(occupancy as nat) + " contact(s), at least one MOVING"@,
            location_text(localizable) + "."@,
        ),
{
    let start = "~"@ + decimal(occupancy as nat);
    let end = location_text(localizable) + "."@;
    let moving = " contact(s), at least one MOVING"@;
    let change = " — mobile subject, picture will change; "@;
    let both = " contact(s), at least one MOVING — mobile subject, picture will change; "@;
    assert(both == moving + change) by {
        reveal_strlit(" contact(s), at least one MOVING");
        reveal_strlit(" — mobile subject, picture will change; ");
        reveal_strlit(" contact(s), at least one MOVING — mobile subject, picture will change; ");
        assert(both =~= moving + change);
    }
    parts_frame(start + moving, change, end);
    assert(start + (moving + change) + location_text(localizable) + "."@ =~= start + moving + change
        + end);
}

/// The rationale of a room in focus begins with the estimate in decimal, says
/// that the contacts stay put and whether breathing is confirmed, and ends with
/// how well the room is placed.
pub proof fn rationale_of_focus(occupancy: u32, localizable: bool)
    ensures
        framed(
            rationale_text(TacticalPriority::Focus, true, occupancy, localizable),
            "~"@ + decimal(occupancy as nat) + " STATIONARY contact(s), "@
                + "breathing confirmed"@,
            location_text(localizable) + "."@,
        ),
        framed(
            rationale_text(TacticalPriority::Focus, false, occupancy, localizable),
            "~"@ + decimal(occupancy as nat) + " STATIONARY contact(s), "@
                + "movement-based presence"@,
            location_text(localizable) + "."@,
        ),
{
    let still = "~"@ + decimal(occupancy as nat) + " STATIONARY contact(s), "@;
    let stay = " — people staying put (held persons or barricaded subject; sensor cannot tell); "@;
    let place = location_text(localizable);
    let yes = "breathing confirmed"@;
    let no = "movement-based presence"@;
    parts_frame(still + yes, stay, place + "."@);
    assert(still + yes + stay + place + "."@ =~= still + yes + stay + (place + "."@));
    parts_frame(still + no, stay, place + "."@);
    assert(still + no + stay + place + "."@ =~= still + no + stay + (place + "."@));
}

/// The rationale of a room to monitor begins with the estimate in decimal, says
/// that the signatures are faint, and ends with how well the room is placed.
pub proof fn rationale_of_monitor(breathing: bool, occupancy: u32, localizable: bool)
    ensures
        framed(
            rationale_text(TacticalPriority::Monitor, breathing, occupancy, localizable),
            "~"@ + decimal(occupancy as nat) + " faint/borderline signature(s)"@,
            location_text(localizable) + "."@,
        ),
{
    let start = "~"@ + decimal(occupancy as nat);
    let end = location_text(localizable) + "."@;
    let faint = " faint/borderline signature(s)"@;
    let watch = " — watch, not confirmed; "@;
    let both = " faint/borderline signature(s) — watch, not confirmed; "@;
    assert(both == faint + watch) by {
        reveal_strlit(" faint/borderline signature(s)");
        reveal_strlit(" — watch, not confirmed; ");
        reveal_strlit(" faint/borderline signature(s) — watch, not confirmed; ");
        assert(both =~= faint + watch);
    }
    parts_frame(start + faint, watch, end);
    assert(start + (faint + watch) + location_text(localizable) + "."@ =~= start + faint + watch
        + end);
}

/// Whether the rationale of a room may say that breathing is confirmed: where a
/// contact of that room has it, and no other.
pub proof fn breathing_is_of_the_room(contacts: Seq<PersonContact>, id: RoomId)
    ensures
        breathing_in(contacts, id) <==> exists|i: int|
            0 <= i < contacts.len() && (#[trigger] contacts[i]).room_id == id
                && contacts[i].life_sign == LifeSign::BreathingConfirmed,
{
}

/// A priority is told by its own tag.
pub proof fn priorities_have_their_tags(p: TacticalPriority)
    ensures
        p.tag_text() == "focus"@ <==> p == TacticalPriority::Focus,
        p.tag_text() == "active"@ <==> p == TacticalPriority::Active,
        p.tag_text() == "monitor"@ <==> p == TacticalPriority::Monitor,
        p.tag_text() == "no_contact"@ <==> p == TacticalPriority::NoContact,
{
    reveal_strlit("focus");
    reveal_strlit("active");
    reveal_strlit("monitor");
    reveal_strlit("no_contact");
    assert("focus"@.len() == 5 && "active"@.len() == 6);
    assert("monitor"@.len() == 7 && "no_contact"@.len() == 10);
}

/// The disclaimer says what the ordering is not.
pub proof fn disclaimer_stands()
    ensures
        ENTRY_DISCLAIMER@
            == "ADVISORY ONLY. This ordering reflects sensed presence and motion, NOT threat, identity, or friend/foe. WiFi sensing cannot distinguish hostage from suspect, cannot confirm a weapon, and cannot prove a room is empty. Not a substitute for command judgment or a use-of-force decision."@,
{
}

} // verus!
