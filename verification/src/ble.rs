//! Bluetooth devices nearby.
//!
//! A phone's own radio sees other devices that advertise, with a signal strength
//! but no bearing, and nothing of people who carry no such device. The tracker
//! keeps a short-lived list of those devices. It gives no floor-plan position.

use vstd::prelude::*;

use crate::clock::Timestamp;
use crate::domain::picture::{text_of, BleDevice};
use crate::measure::Measure;
use crate::ranked::{
    all_placed, equals, in_order, items_in_order_agree, neighbours_in_order, stable_sort, views,
    Ranked,
};
use crate::seqs::{
    entries_enumerate, entries_grow, entries_of, enumerates, permutation_enumerates,
};
use crate::table::Table;
use crate::text::{
    clip, clipped, comes_before, text_before, text_order_irreflexive, text_order_total,
    text_order_transitive,
};

verus! {

/// Devices tracked at once, at most. Bounds the memory that a flood of made-up
/// addresses can take.
pub const MAX_DEVICES: usize = 512;

/// Characters of a device id that are kept, at most.
pub const MAX_ID_LEN: usize = 64;

/// Characters of an advertised name that are kept, at most.
pub const MAX_NAME_LEN: usize = 64;

/// Seconds after which an unseen device is dropped.
pub const BLE_STALE_SECS: i64 = 8;

/// Path-loss exponent of the distance estimate: 2.5.
pub const PATH_LOSS_BITS: u64 = 0x4004_0000_0000_0000;

/// Signal strength at one metre that the distance estimate assumes: -59 dBm.
pub const TX_POWER_1M_BITS: u64 = 0xC04D_8000_0000_0000;

/// One observation of the phone scanner.
#[derive(Clone, Debug)]
pub struct BleObservation {
    /// Device address or id.
    pub id: String,
    /// Advertised name, if present.
    pub name: Option<String>,
    /// Measured signal strength (dBm).
    pub rssi: Measure,
}

/// What is known of a tracked device.
#[derive(Clone, Debug)]
struct DeviceState {
    name: Option<String>,
    rssi: Measure,
    last_seen: Timestamp,
}

/// The content of what is known of a tracked device.
#[verifier::ext_equal]
pub struct Device {
    /// Advertised name, if any.
    pub name: Option<Seq<char>>,
    /// Signal strength.
    pub rssi: Measure,
    /// When the device was last seen.
    pub last_seen: Timestamp,
}

impl View for DeviceState {
    type V = Device;

    closed spec fn view(&self) -> Device {
        Device { name: text_of(self.name), rssi: self.rssi, last_seen: self.last_seen }
    }
}

/// The content of a device in a snapshot.
#[verifier::ext_equal]
pub struct BleDeviceView {
    /// Device id.
    pub id: Seq<char>,
    /// Advertised name, if any.
    pub name: Option<Seq<char>>,
    /// Signal strength.
    pub rssi: Measure,
    /// Whole seconds since the device was last seen.
    pub age_secs: int,
}

impl View for BleDevice {
    type V = BleDeviceView;

    open spec fn view(&self) -> BleDeviceView {
        BleDeviceView {
            id: self.id@,
            name: text_of(self.name),
            rssi: self.rssi,
            age_secs: self.age_secs as int,
        }
    }
}

impl Ranked for BleDevice {
    /// The stronger signal first; by id where neither is stronger, as where one
    /// is not a number.
    open spec fn ahead(a: BleDeviceView, b: BleDeviceView) -> bool {
        b.rssi.lt(a.rssi) || (!a.rssi.lt(b.rssi) && text_before(a.id, b.id))
    }

    fn is_ahead(&self, other: &BleDevice) -> (r: bool) {
        if other.rssi.below(self.rssi) {
            true
        } else if self.rssi.below(other.rssi) {
            false
        } else {
            comes_before(self.id.as_str(), other.id.as_str())
        }
    }

    /// A signal that is not a number compares with none, so that it carries
    /// nothing over from one device to the next.
    open spec fn placed(a: BleDeviceView) -> bool {
        !a.rssi.nan()
    }

    proof fn order_is_strict(a: BleDeviceView, b: BleDeviceView) {
        text_order_irreflexive(a.id);
        if text_before(a.id, b.id) && text_before(b.id, a.id) {
            text_order_transitive(a.id, b.id, a.id);
        }
    }

    proof fn order_is_weak(a: BleDeviceView, b: BleDeviceView, c: BleDeviceView) {
        text_order_irreflexive(a.id);
        if text_before(a.id, b.id) && text_before(b.id, c.id) {
            text_order_transitive(a.id, b.id, c.id);
        }
        if text_before(a.id, b.id) {
            text_order_total(a.id, c.id);
            if text_before(c.id, a.id) {
                text_order_transitive(c.id, a.id, b.id);
            }
        }
    }
}

/// The tracked devices by id.
pub type Devices = Map<Seq<char>, Device>;

/// Whether no tracked signal is below that of the device `w`.
pub open spec fn weakest(devices: Devices, w: Seq<char>) -> bool {
    devices.contains_key(w) && forall|k: Seq<char>| #[trigger]
        devices.contains_key(k) ==> !devices[k].rssi.lt(devices[w].rssi)
}

/// The id under which an observed device is tracked.
pub open spec fn id_of(o: BleObservation) -> Seq<char> {
    clipped(o.id@, MAX_ID_LEN as nat)
}

/// The name that an observation gives its device.
pub open spec fn name_in(o: BleObservation) -> Option<Seq<char>> {
    match o.name {
        Some(n) => Some(clipped(n@, MAX_NAME_LEN as nat)),
        None => None,
    }
}

/// Whether one observation takes the tracked devices from `before` to `after`. A
/// tracked device is refreshed, and keeps its name where the observation gives
/// none. A new device comes in; where the tracker is full it takes the place of
/// a device with the weakest signal, and is left out where it is not above that.
pub open spec fn seen(before: Devices, o: BleObservation, now: Timestamp, after: Devices) -> bool {
    let id = id_of(o);
    let fresh = Device { name: name_in(o), rssi: o.rssi, last_seen: now };
    if before.contains_key(id) {
        after == before.insert(
            id,
            Device {
                name: if name_in(o) is Some {
                    name_in(o)
                } else {
                    before[id].name
                },
                ..fresh
            },
        )
    } else if before.len() < MAX_DEVICES {
        after == before.insert(id, fresh)
    } else {
        exists|w: Seq<char>|
            {
                &&& #[trigger] weakest(before, w)
                &&& after == (if o.rssi.le(before[w].rssi) {
                    before
                } else {
                    before.remove(w).insert(id, fresh)
                })
            }
    }
}

/// Whether the tracked devices go through `steps` under a batch of observations.
pub open spec fn passes_through(
    steps: Seq<Devices>,
    obs: Seq<BleObservation>,
    now: Timestamp,
) -> bool {
    &&& steps.len() == obs.len() + 1
    &&& forall|i: int|
        0 <= i < obs.len() ==> seen(steps[i], #[trigger] obs[i], now, steps[i + 1])
}

/// Whether a batch of observations, one after the other, takes the tracked
/// devices from `before` to `after`.
pub open spec fn all_seen(
    before: Devices,
    obs: Seq<BleObservation>,
    now: Timestamp,
    after: Devices,
) -> bool {
    exists|steps: Seq<Devices>|
        {
            &&& #[trigger] passes_through(steps, obs, now)
            &&& steps[0] == before
            &&& steps.last() == after
        }
}

/// Whether the tracked devices are within the bounds: their number, the lengths
/// of their ids and of their names.
pub open spec fn bounded(devices: Devices) -> bool {
    &&& devices.dom().finite()
    &&& devices.len() <= MAX_DEVICES
    &&& forall|k: Seq<char>| #[trigger]
        devices.contains_key(k) ==> {
            &&& k.len() <= MAX_ID_LEN
            &&& devices[k].name is Some ==> devices[k].name->0.len() <= MAX_NAME_LEN
        }
}

/// The devices that were last seen more than `stale_secs` whole seconds before
/// `now`.
pub open spec fn unseen(devices: Devices, stale_secs: i64, now: Timestamp) -> Set<Seq<char>> {
    devices.dom().filter(|k: Seq<char>| now.seconds_since(devices[k].last_seen) > stale_secs)
}

/// Whether the signals of all tracked devices are numbers.
pub open spec fn all_numbers(devices: Devices) -> bool {
    forall|k: Seq<char>| #[trigger] devices.contains_key(k) ==> !devices[k].rssi.nan()
}

/// The tracked devices as a snapshot shows them at `now`.
pub open spec fn shown(devices: Devices, now: Timestamp) -> Map<Seq<char>, BleDeviceView> {
    Map::new(
        |k: Seq<char>| devices.contains_key(k),
        |k: Seq<char>|
            BleDeviceView {
                id: k,
                name: devices[k].name,
                rssi: devices[k].rssi,
                age_secs: if now.seconds_since(devices[k].last_seen) >= 0 {
                    now.seconds_since(devices[k].last_seen)
                } else {
                    0
                },
            },
    )
}

/// The id of a device in a snapshot.
pub open spec fn own_id() -> spec_fn(BleDeviceView) -> Seq<char> {
    |d: BleDeviceView| d.id
}

/// Devices as entries at their ids.
pub open spec fn by_id(devices: Seq<BleDeviceView>) -> Seq<(Seq<char>, BleDeviceView)> {
    devices.map_values(|d: BleDeviceView| (own_id()(d), d))
}

/// Tracks the devices seen of late.
#[derive(Debug)]
pub struct BleTracker {
    devices: Table<String, DeviceState>,
    stale_secs: i64,
}

/// The content of a table of devices.
spec fn contents(t: Map<Seq<char>, DeviceState>) -> Devices {
    t.map_values(|d: DeviceState| d@)
}

impl View for BleTracker {
    type V = Devices;

    closed spec fn view(&self) -> Devices {
        contents(self.devices@)
    }
}

/// A name cut to the length that is kept.
fn clip_name(name: &Option<String>) -> (r: Option<String>)
    ensures
        text_of(r) == (match *name {
            Some(n) => Some(clipped(n@, MAX_NAME_LEN as nat)),
            None => None,
        }),
{
    match name {
        Some(n) => Some(clip(n.as_str(), MAX_NAME_LEN)),
        None => None,
    }
}

/// A copy of an optional text.
fn copy_name(name: &Option<String>) -> (r: Option<String>)
    ensures
        r == *name,
{
    match name {
        Some(n) => Some(n.clone()),
        None => None,
    }
}

/// The place of a device that no tracked signal is below.
fn find_weakest(devices: &Table<String, DeviceState>) -> (r: usize)
    requires
        devices@.len() > 0,
    ensures
        r < devices.keys().len(),
        weakest(contents(devices@), devices.keys()[r as int]),
{
    let ghost keys = devices.keys();
    let ghost all = contents(devices@);
    let n: usize = devices.len();
    let mut least: usize = 0;
    let mut i: usize = 1;
    while i < n
        invariant
            n == keys.len(),
            keys == devices.keys(),
            all == contents(devices@),
            least < i <= n,
            forall|j: int| 0 <= j < n ==> all.contains_key(#[trigger] keys[j]),
            forall|j: int|
                0 <= j < i ==> !(#[trigger] all[keys[j]]).rssi.lt(all[keys[least as int]].rssi),
        decreases n - i,
    {
        if devices.value_at(i).rssi.below(devices.value_at(least).rssi) {
            least = i;
        }
        i = i + 1;
    }
    assert forall|k: Seq<char>| #[trigger] all.contains_key(k) implies !all[k].rssi.lt(
        all[keys[least as int]].rssi,
    ) by {
        let j = keys.index_of(k);
        assert(all[keys[j]] == all[k]);
    }
    least
}

/// Take in one observation.
fn observe_one(devices: &mut Table<String, DeviceState>, o: &BleObservation, now: Timestamp)
    requires
        bounded(contents(old(devices)@)),
    ensures
        seen(contents(old(devices)@), *o, now, contents(final(devices)@)),
        bounded(contents(final(devices)@)),
{
    let ghost before = contents(devices@);
    let id: String = clip(o.id.as_str(), MAX_ID_LEN);
    let mut name: Option<String> = clip_name(&o.name);
    if let Some(known) = devices.get(&id) {
        if name.is_none() {
            name = copy_name(&known.name);
        }
        let ghost k = id@;
        let device: DeviceState = DeviceState { name, rssi: o.rssi, last_seen: now };
        devices.insert(id, device);
        proof {
            assert(contents(devices@) =~= before.insert(k, device@));
            observation_stays_bounded(before, *o, now, contents(devices@));
        }
        return;
    }
    if devices.len() >= MAX_DEVICES {
        assert(before.dom() =~= devices@.dom());
        let weak: usize = find_weakest(devices);
        let ghost w = devices.keys()[weak as int];
        if o.rssi.at_most(devices.value_at(weak).rssi) {
            assert(weakest(before, w));
            return;
        }
        let _ = devices.remove_at(weak);
        assert(contents(devices@) =~= before.remove(w));
        assert(weakest(before, w));
    }
    let ghost mid = contents(devices@);
    let ghost k = id@;
    let device: DeviceState = DeviceState { name, rssi: o.rssi, last_seen: now };
    devices.insert(id, device);
    proof {
        assert(contents(devices@) =~= mid.insert(k, device@));
        assert(seen(before, *o, now, contents(devices@)));
        observation_stays_bounded(before, *o, now, contents(devices@));
    }
}

impl Default for BleTracker {
    fn default() -> (r: BleTracker)
        ensures
            r@ == Devices::empty(),
            r.window() == BLE_STALE_SECS,
    {
        BleTracker::new()
    }
}

impl BleTracker {
    /// The tracked devices are within the bounds.
    #[verifier::type_invariant]
    spec fn valid(self) -> bool {
        bounded(self@)
    }

    /// Seconds after which an unseen device is dropped.
    pub closed spec fn window(self) -> i64 {
        self.stale_secs
    }

    /// A tracker without devices.
    pub fn new() -> (r: BleTracker)
        ensures
            r@ == Devices::empty(),
            r.window() == BLE_STALE_SECS,
            r.window() == 8,
    {
        let devices: Table<String, DeviceState> = Table::new();
        assert(contents(devices@) =~= Devices::empty());
        BleTracker { devices, stale_secs: BLE_STALE_SECS }
    }

    /// Record a batch of observations, made now.
    pub fn observe(&mut self, obs: &[BleObservation])
        ensures
            exists|now: Timestamp|
                now.secs() >= 0 && #[trigger] all_seen(old(self)@, obs@, now, final(self)@),
            final(self).window() == old(self).window(),
            bounded(final(self)@),
    {
        let now: Timestamp = Timestamp::now();
        self.observe_at(obs, now);
    }

    /// Record a batch of observations, made at `now`.
    pub fn observe_at(&mut self, obs: &[BleObservation], now: Timestamp)
        ensures
            all_seen(old(self)@, obs@, now, final(self)@),
            final(self).window() == old(self).window(),
            bounded(final(self)@),
    {
        proof {
            use_type_invariant(&*self);
        }
        let ghost before = self@;
        let mut devices: Table<String, DeviceState> = Table::new();
        assert(contents(devices@) =~= Devices::empty());
        std::mem::swap(&mut devices, &mut self.devices);
        let ghost mut steps = seq![before];
        let mut i: usize = 0;
        while i < obs.len()
            invariant
                i <= obs@.len(),
                steps.len() == i + 1,
                steps[0] == before,
                steps.last() == contents(devices@),
                forall|j: int|
                    0 <= j < i ==> seen(steps[j], #[trigger] obs@[j], now, steps[j + 1]),
                bounded(contents(devices@)),
            decreases obs@.len() - i,
        {
            observe_one(&mut devices, &obs[i], now);
            proof {
                steps = steps.push(contents(devices@));
            }
            i = i + 1;
        }
        assert(passes_through(steps, obs@, now));
        self.devices = devices;
    }

    /// Drop the devices that were not seen within the freshness window.
    pub fn prune(&mut self)
        ensures
            exists|now: Timestamp|
                now.secs() >= 0 && final(self)@ == old(self)@.remove_keys(
                    #[trigger] unseen(old(self)@, old(self).window(), now),
                ),
            final(self).window() == old(self).window(),
    {
        let now: Timestamp = Timestamp::now();
        self.prune_at(now);
    }

    /// Drop the devices that were not seen within the freshness window before
    /// `now`.
    pub fn prune_at(&mut self, now: Timestamp)
        ensures
            final(self)@ == old(self)@.remove_keys(unseen(old(self)@, old(self).window(), now)),
            final(self).window() == old(self).window(),
    {
        proof {
            use_type_invariant(&*self);
        }
        let ghost before = self@;
        let ghost stale = unseen(before, self.stale_secs, now);
        let window: i64 = self.stale_secs;
        let mut devices: Table<String, DeviceState> = Table::new();
        assert(contents(devices@) =~= Devices::empty());
        std::mem::swap(&mut devices, &mut self.devices);
        let mut left: usize = devices.len();
        let mut i: usize = 0;
        while i < left
            invariant
                stale == unseen(before, window, now),
                left == devices.keys().len(),
                i <= left,
                bounded(contents(devices@)),
                devices.keys().no_duplicates(),
                forall|k: Seq<char>| #[trigger]
                    devices@.contains_key(k) <==> devices.keys().contains(k),
                forall|k: Seq<char>| #[trigger]
                    contents(devices@).contains_key(k) ==> before.contains_key(k) && contents(
                        devices@,
                    )[k] == before[k],
                forall|k: Seq<char>| #[trigger]
                    before.contains_key(k) && !stale.contains(k) ==> devices@.contains_key(k),
                forall|j: int| 0 <= j < i ==> !stale.contains(#[trigger] devices.keys()[j]),
            decreases left - i,
        {
            let ghost k = devices.keys()[i as int];
            let age: i64 = now.whole_seconds_since(devices.value_at(i).last_seen);
            assert(contents(devices@).contains_key(k));
            assert(before[k] == contents(devices@)[k]);
            if age > window {
                let ghost was = contents(devices@);
                let _ = devices.remove_at(i);
                left = devices.len();
                proof {
                    assert(contents(devices@) =~= was.remove(k));
                    was.lemma_remove_key_len(k);
                }
            } else {
                i = i + 1;
            }
        }
        proof {
            let kept = contents(devices@);
            assert forall|k: Seq<char>| #[trigger] kept.contains_key(k) implies !stale.contains(
                k,
            ) by {
                let j = devices.keys().index_of(k);
                assert(devices.keys()[j] == k);
            }
            assert(kept =~= before.remove_keys(stale));
        }
        self.devices = devices;
    }

    /// The tracked devices, the strongest signal first, with their ages now.
    pub fn snapshot(&self) -> (r: Vec<BleDevice>)
        ensures
            exists|now: Timestamp|
                {
                    &&& now.secs() >= 0
                    &&& enumerates(by_id(views(r@)), #[trigger] shown(self@, now))
                    &&& neighbours_in_order::<BleDevice>(views(r@))
                    &&& all_numbers(self@) ==> in_order::<BleDevice>(views(r@))
                },
            forall|i: int| 0 <= i < r@.len() ==> (#[trigger] r@[i]).age_secs >= 0,
    {
        let now: Timestamp = Timestamp::now();
        self.snapshot_at(now)
    }

    /// The tracked devices, the strongest signal first, with their ages at
    /// `now`.
    pub fn snapshot_at(&self, now: Timestamp) -> (r: Vec<BleDevice>)
        ensures
            enumerates(by_id(views(r@)), shown(self@, now)),
            neighbours_in_order::<BleDevice>(views(r@)),
            all_numbers(self@) ==> in_order::<BleDevice>(views(r@)),
            forall|i: int| 0 <= i < r@.len() ==> (#[trigger] r@[i]).age_secs >= 0,
    {
        let ghost all = shown(self@, now);
        let ghost keys = self.devices.keys();
        let n: usize = self.devices.len();
        let mut out: Vec<BleDevice> = Vec::new();
        let mut i: usize = 0;
        assert(by_id(views(out@)) =~= entries_of(keys.take(0), all));
        while i < n
            invariant
                i <= n,
                n == keys.len(),
                keys == self.devices.keys(),
                all == shown(self@, now),
                by_id(views(out@)) == entries_of(keys.take(i as int), all),
            decreases n - i,
        {
            proof {
                entries_grow(keys, all, i as int);
            }
            let d: &DeviceState = self.devices.value_at(i);
            let age: i64 = now.whole_seconds_since(d.last_seen);
            let device: BleDevice = BleDevice {
                id: self.devices.key_at(i).clone(),
                name: copy_name(&d.name),
                rssi: d.rssi,
                age_secs: if age >= 0 {
                    age
                } else {
                    0
                },
            };
            let ghost was = out@;
            out.push(device);
            proof {
                let k = keys[i as int];
                assert(self@.contains_key(k));
                assert(device@ == all[k]);
                assert(views(out@) =~= views(was).push(device@));
                assert(by_id(views(out@)) =~= by_id(views(was)).push((k, device@)));
            }
            i = i + 1;
        }
        let ghost unsorted = views(out@);
        proof {
            assert(keys.take(i as int) =~= keys);
            assert forall|k: Seq<char>| #[trigger] all.contains_key(k) implies keys.contains(k) by {
                assert(self.devices@.contains_key(k));
            }
            entries_enumerate(keys, all);
        }
        let r: Vec<BleDevice> = stable_sort(out);
        proof {
            permutation_enumerates(views(r@), unsorted, all, own_id());
            if all_numbers(self@) {
                numbers_are_placed(self@, now, unsorted);
            }
            assert forall|i: int| 0 <= i < r@.len() implies (#[trigger] r@[i]).age_secs >= 0 by {
                assert(by_id(views(r@))[i].1 == r@[i]@);
            }
        }
        r
    }

    /// Number of tracked devices.
    pub fn len(&self) -> (n: usize)
        ensures
            n == self@.len(),
            n <= MAX_DEVICES,
    {
        proof {
            use_type_invariant(self);
            assert(self@.dom() =~= self.devices@.dom());
        }
        self.devices.len()
    }

    /// Whether no device is tracked.
    pub fn is_empty(&self) -> (r: bool)
        ensures
            r == (self@.len() == 0),
    {
        self.len() == 0
    }
}

/// An observation keeps the tracked devices within the bounds.
pub proof fn observation_stays_bounded(
    before: Devices,
    o: BleObservation,
    now: Timestamp,
    after: Devices,
)
    requires
        bounded(before),
        seen(before, o, now, after),
    ensures
        bounded(after),
{
    let id = id_of(o);
    if before.contains_key(id) {
        assert(after.dom() =~= before.dom());
    } else if before.len() < MAX_DEVICES {
        assert(after.dom() =~= before.dom().insert(id));
    } else {
        let w = choose|w: Seq<char>|
            {
                &&& #[trigger] weakest(before, w)
                &&& after == (if o.rssi.le(before[w].rssi) {
                    before
                } else {
                    before.remove(w).insert(
                        id,
                        Device { name: name_in(o), rssi: o.rssi, last_seen: now },
                    )
                })
            };
        if !o.rssi.le(before[w].rssi) {
            assert(after.dom() =~= before.dom().remove(w).insert(id));
        }
    }
}

/// A device that an observation drives out was one with the weakest signal: no
/// device that stays is below it. A device comes in unless the tracker is full
/// and its signal is not above the weakest.
pub proof fn the_strongest_stay(
    before: Devices,
    o: BleObservation,
    now: Timestamp,
    after: Devices,
    gone: Seq<char>,
    stays: Seq<char>,
)
    requires
        bounded(before),
        seen(before, o, now, after),
        before.contains_key(gone),
        !after.contains_key(gone),
        before.contains_key(stays),
        after.contains_key(stays),
    ensures
        !before[stays].rssi.lt(before[gone].rssi),
        !o.rssi.le(before[gone].rssi),
        before.len() == MAX_DEVICES,
        after.contains_key(id_of(o)),
{
}

/// A device that is left out of a full tracker has no signal above any that is
/// tracked.
pub proof fn the_weakest_is_left_out(
    before: Devices,
    o: BleObservation,
    now: Timestamp,
    after: Devices,
    k: Seq<char>,
)
    requires
        bounded(before),
        seen(before, o, now, after),
        !after.contains_key(id_of(o)),
        before.contains_key(k),
    ensures
        before.len() == MAX_DEVICES,
        after == before,
        !before[k].rssi.lt(o.rssi),
{
}

/// Seeing a tracked device again refreshes its signal and its time, takes a new
/// name over and keeps the old one where none is given; all other devices stay
/// as they are.
pub proof fn seeing_again_refreshes(
    before: Devices,
    o: BleObservation,
    now: Timestamp,
    after: Devices,
    other: Seq<char>,
)
    requires
        seen(before, o, now, after),
        before.contains_key(id_of(o)),
        other != id_of(o),
    ensures
        after[id_of(o)].rssi == o.rssi,
        after[id_of(o)].last_seen == now,
        after[id_of(o)].name == (if o.name is Some {
            name_in(o)
        } else {
            before[id_of(o)].name
        }),
        after.contains_key(other) == before.contains_key(other),
        after[other] == before[other],
{
}

/// A device in a snapshot has a place in the order where all signals are
/// numbers.
proof fn numbers_are_placed(devices: Devices, now: Timestamp, a: Seq<BleDeviceView>)
    requires
        all_numbers(devices),
        enumerates(by_id(a), shown(devices, now)),
    ensures
        all_placed::<BleDevice>(a),
{
    assert forall|i: int| 0 <= i < a.len() implies BleDevice::placed(#[trigger] a[i]) by {
        let e = by_id(a)[i];
        assert(shown(devices, now).contains_key(e.0));
        assert(devices.contains_key(e.0));
    }
}

/// A snapshot of the same devices at the same time is one only, where all
/// signals are numbers: the signals and the ids settle the place of each device.
pub proof fn snapshot_is_settled(
    devices: Devices,
    now: Timestamp,
    a: Seq<BleDeviceView>,
    b: Seq<BleDeviceView>,
)
    requires
        all_numbers(devices),
        enumerates(by_id(a), shown(devices, now)),
        enumerates(by_id(b), shown(devices, now)),
        in_order::<BleDevice>(a),
        in_order::<BleDevice>(b),
    ensures
        a == b,
{
    let key = own_id();
    numbers_are_placed(devices, now, a);
    assert forall|x: BleDeviceView, y: BleDeviceView|
        BleDevice::placed(x) && BleDevice::placed(y) && #[trigger] equals::<BleDevice>(
            x,
            y,
        ) implies key(x) == key(y) by {
        text_order_total(x.id, y.id);
    }
    items_in_order_agree::<BleDevice, Seq<char>>(a, b, shown(devices, now), key);
}

/// A device that is seen, and known or among fewer than 512, is tracked under
/// the first 64 characters of its id, with the strength and the time of the
/// observation, and with the first 64 characters of the name that it gives. A
/// known device that gives no name keeps the one it had. All other devices stay
/// as they were.
pub proof fn seen_devices_are_tracked(
    before: Devices,
    o: BleObservation,
    now: Timestamp,
    after: Devices,
    other: Seq<char>,
)
    requires
        seen(before, o, now, after),
        before.contains_key(clipped(o.id@, 64)) || before.len() < 512,
    ensures
        ({
            let id = clipped(o.id@, 64);
            &&& after.contains_key(id)
            &&& after[id].rssi == o.rssi
            &&& after[id].last_seen == now
            &&& o.name is Some ==> after[id].name == Some(clipped(o.name->0@, 64))
            &&& o.name is None && before.contains_key(id) ==> after[id].name == before[id].name
            &&& o.name is None && !before.contains_key(id) ==> after[id].name is None
            &&& other != id ==> {
                &&& after.contains_key(other) == before.contains_key(other)
                &&& before.contains_key(other) ==> after[other] == before[other]
            }
        }),
{
}

/// Where 512 devices are tracked, a new one comes in only above the weakest
/// signal, and then one of the weakest leaves for it. It comes in as it was
/// observed, and the others stay as they were.
pub proof fn full_trackers_trade_the_weakest(
    before: Devices,
    o: BleObservation,
    now: Timestamp,
    after: Devices,
)
    requires
        seen(before, o, now, after),
        bounded(before),
        before.len() == 512,
        !before.contains_key(clipped(o.id@, 64)),
    ensures
        exists|w: Seq<char>|
            {
                let id = clipped(o.id@, 64);
                &&& #[trigger] before.contains_key(w)
                &&& forall|k: Seq<char>| #[trigger]
                    before.contains_key(k) ==> !before[k].rssi.lt(before[w].rssi)
                &&& o.rssi.le(before[w].rssi) ==> after == before
                &&& !o.rssi.le(before[w].rssi) ==> {
                    &&& !after.contains_key(w)
                    &&& after.contains_key(id)
                    &&& after[id].rssi == o.rssi
                    &&& after[id].last_seen == now
                    &&& forall|k: Seq<char>|
                        k != w && k != id ==> #[trigger] after.contains_key(k)
                            == before.contains_key(k)
                    &&& forall|k: Seq<char>|
                        k != w && #[trigger] before.contains_key(k) ==> after[k] == before[k]
                }
            },
{
    let w = choose|w: Seq<char>|
        {
            &&& #[trigger] weakest(before, w)
            &&& after == (if o.rssi.le(before[w].rssi) {
                before
            } else {
                before.remove(w).insert(
                    id_of(o),
                    Device { name: name_in(o), rssi: o.rssi, last_seen: now },
                )
            })
        };
    assert(before.contains_key(w));
}

/// Pruning drops exactly the devices that were last seen more whole seconds ago
/// than the window has, and leaves the others as they were.
pub proof fn pruning_drops_the_unseen(
    devices: Devices,
    window: i64,
    now: Timestamp,
    id: Seq<char>,
)
    requires
        devices.contains_key(id),
    ensures
        ({
            let after = devices.remove_keys(unseen(devices, window, now));
            &&& after.contains_key(id) <==> now.seconds_since(devices[id].last_seen) <= window
            &&& after.contains_key(id) ==> after[id] == devices[id]
        }),
{
}

/// A snapshot shows every tracked device and no other, each with its own id, name
/// and strength, and with its age in whole seconds, which is zero for one that
/// was seen later than the snapshot is of.
pub proof fn snapshots_show_the_devices(
    devices: Devices,
    now: Timestamp,
    list: Seq<BleDeviceView>,
    id: Seq<char>,
    k: int,
)
    requires
        enumerates(by_id(list), shown(devices, now)),
    ensures
        devices.contains_key(id) ==> exists|i: int|
            0 <= i < list.len() && (#[trigger] list[i]).id == id,
        0 <= k < list.len() ==> {
            let d = list[k];
            let age = now.seconds_since(devices[d.id].last_seen);
            &&& devices.contains_key(d.id)
            &&& d.name == devices[d.id].name
            &&& d.rssi == devices[d.id].rssi
            &&& age >= 0 ==> d.age_secs == age
            &&& age < 0 ==> d.age_secs == 0
        },
        forall|i: int, j: int|
            0 <= i < j < list.len() ==> (#[trigger] list[i]).id != (#[trigger] list[j]).id,
{
    let e = by_id(list);
    if devices.contains_key(id) {
        assert(shown(devices, now).contains_key(id));
        let i = choose|i: int| 0 <= i < e.len() && (#[trigger] e[i]).0 == id;
        assert(list[i].id == id);
    }
    if 0 <= k < list.len() {
        assert(e[k] == (list[k].id, list[k]));
        assert(shown(devices, now).contains_key(e[k].0));
    }
    assert forall|i: int, j: int| 0 <= i < j < list.len() implies (#[trigger] list[i]).id != (
    #[trigger] list[j]).id by {
        assert(e[i].0 != e[j].0);
    }
}

/// A snapshot goes from the strongest signal to the weakest, and by id where two
/// are equally strong, as long as all signals are numbers.
pub proof fn snapshots_go_by_strength(list: Seq<BleDeviceView>, i: int, j: int)
    requires
        in_order::<BleDevice>(list),
        0 <= i < j < list.len(),
        !list[i].rssi.nan(),
        !list[j].rssi.nan(),
    ensures
        list[j].rssi.le(list[i].rssi),
        list[i].rssi.le(list[j].rssi) ==> !text_before(list[j].id, list[i].id),
{
    assert(!BleDevice::ahead(list[j], list[i]));
}

/// Of a batch of observations the last of a device counts: it settles strength
/// and time, as long as the batch cannot fill the tracker.
pub proof fn last_observation_counts(
    before: Devices,
    obs: Seq<BleObservation>,
    now: Timestamp,
    after: Devices,
    k: int,
)
    requires
        all_seen(before, obs, now, after),
        bounded(before),
        before.len() + obs.len() <= 512,
        0 <= k < obs.len(),
        forall|j: int|
            k < j < obs.len() ==> clipped((#[trigger] obs[j]).id@, 64) != clipped(obs[k].id@, 64),
    ensures
        after.contains_key(clipped(obs[k].id@, 64)),
        after[clipped(obs[k].id@, 64)].rssi == obs[k].rssi,
        after[clipped(obs[k].id@, 64)].last_seen == now,
{
    let steps = choose|steps: Seq<Devices>|
        {
            &&& #[trigger] passes_through(steps, obs, now)
            &&& steps[0] == before
            &&& steps.last() == after
        };
    step_keeps_the_last(steps, obs, now, k, obs.len() as int);
}

/// After `n` observations of a batch the tracker holds at most as many devices
/// more.
proof fn steps_grow_by_one(steps: Seq<Devices>, obs: Seq<BleObservation>, now: Timestamp, n: int)
    requires
        passes_through(steps, obs, now),
        bounded(steps[0]),
        steps[0].len() + obs.len() <= 512,
        0 <= n <= obs.len(),
    ensures
        bounded(steps[n]),
        steps[n].len() <= steps[0].len() + n,
    decreases n,
{
    if n > 0 {
        steps_grow_by_one(steps, obs, now, n - 1);
        let o = obs[n - 1];
        let was = steps[n - 1];
        assert(seen(steps[n - 1], obs[n - 1], now, steps[n - 1 + 1]));
        observation_stays_bounded(was, o, now, steps[n]);
        if was.contains_key(id_of(o)) {
            assert(steps[n].dom() =~= was.dom());
        } else {
            assert(steps[n].dom() =~= was.dom().insert(id_of(o)));
        }
    }
}

/// After its last observation in a batch a device is held as observed there.
proof fn step_keeps_the_last(
    steps: Seq<Devices>,
    obs: Seq<BleObservation>,
    now: Timestamp,
    k: int,
    n: int,
)
    requires
        passes_through(steps, obs, now),
        bounded(steps[0]),
        steps[0].len() + obs.len() <= 512,
        0 <= k < n <= obs.len(),
        forall|j: int|
            k < j < obs.len() ==> clipped((#[trigger] obs[j]).id@, 64) != clipped(obs[k].id@, 64),
    ensures
        steps[n].contains_key(clipped(obs[k].id@, 64)),
        steps[n][clipped(obs[k].id@, 64)].rssi == obs[k].rssi,
        steps[n][clipped(obs[k].id@, 64)].last_seen == now,
    decreases n,
{
    steps_grow_by_one(steps, obs, now, n - 1);
    assert(seen(steps[n - 1], obs[n - 1], now, steps[n - 1 + 1]));
    let id = clipped(obs[k].id@, 64);
    seen_devices_are_tracked(steps[n - 1], obs[n - 1], now, steps[n], id);
    if k < n - 1 {
        step_keeps_the_last(steps, obs, now, k, n - 1);
        assert(clipped(obs[n - 1].id@, 64) != id);
    }
}

} // verus!
