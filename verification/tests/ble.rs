//! The Bluetooth tracker.

use wifi_densepose_tactical::ble::{
    BleObservation, BleTracker, BLE_STALE_SECS, MAX_DEVICES, PATH_LOSS_BITS, TX_POWER_1M_BITS,
};
use wifi_densepose_tactical::clock::Timestamp;
use wifi_densepose_tactical::measure::Measure;

fn m(x: f64) -> Measure {
    Measure::from_bits(x.to_bits())
}

fn at(secs: i64) -> Timestamp {
    Timestamp::from_parts(secs, 0).unwrap()
}

fn obs(id: &str, name: Option<&str>, rssi: f64) -> BleObservation {
    BleObservation { id: id.to_string(), name: name.map(String::from), rssi: m(rssi) }
}

/// The distance that a caller estimates from a signal strength.
fn distance(rssi: Measure) -> f64 {
    let n = f64::from_bits(PATH_LOSS_BITS);
    let tx = f64::from_bits(TX_POWER_1M_BITS);
    10f64.powf((tx - f64::from_bits(rssi.bits)) / (10.0 * n)).clamp(0.1, 100.0)
}

#[test]
fn observe_and_snapshot_orders_by_proximity() {
    let mut t = BleTracker::new();
    t.observe(&[
        obs("aa", Some("Watch"), -80.0),
        obs("bb", None, -55.0),
        obs("cc", Some("Buds"), -67.0),
    ]);
    let snap = t.snapshot();
    assert_eq!(snap.len(), 3);
    // Strongest RSSI (closest) first.
    assert_eq!(snap[0].id, "bb");
    assert_eq!(snap[2].id, "aa");
    // Closer device has a smaller distance estimate.
    assert!(distance(snap[0].rssi) < distance(snap[2].rssi));
}

#[test]
fn distance_constants() {
    assert_eq!(f64::from_bits(PATH_LOSS_BITS), 2.5);
    assert_eq!(f64::from_bits(TX_POWER_1M_BITS), -59.0);
}

#[test]
fn stale_devices_are_pruned() {
    let mut t = BleTracker::new();
    t.observe(&[obs("aa", None, -60.0)]);
    assert_eq!(t.len(), 1);
    let now = Timestamp::now();
    t.prune_at(Timestamp::from_parts(now.unix_seconds() + 3600, now.subsec_nanos()).unwrap());
    assert_eq!(t.len(), 0);
    assert!(t.is_empty());
}

#[test]
fn device_map_is_capped_and_keeps_strongest() {
    let mut t = BleTracker::new();
    // Flood with more than the cap; rssi increases with index (stronger).
    for i in 0..(MAX_DEVICES + 200) {
        t.observe(&[obs(&format!("dev-{i}"), None, -120.0 + i as f64 * 0.01)]);
    }
    assert!(t.len() <= MAX_DEVICES, "device map must stay bounded");
    // The strongest (highest-index) device survived; the weakest did not.
    let snap = t.snapshot();
    assert!(snap.iter().any(|d| d.id == format!("dev-{}", MAX_DEVICES + 199)));
    assert!(!snap.iter().any(|d| d.id == "dev-0"));
}

#[test]
fn long_id_and_name_are_truncated() {
    let mut t = BleTracker::new();
    let long = "x".repeat(500);
    t.observe(&[obs(&long, Some(&long), -50.0)]);
    let snap = t.snapshot();
    assert_eq!(snap.len(), 1);
    assert!(snap[0].id.len() <= 64);
    assert!(snap[0].name.as_ref().unwrap().len() <= 64);
}

#[test]
fn repeated_observation_updates_rssi_and_name() {
    let mut t = BleTracker::new();
    t.observe(&[obs("aa", None, -70.0)]);
    t.observe(&[obs("aa", Some("Phone"), -55.0)]);
    let snap = t.snapshot();
    assert_eq!(snap.len(), 1);
    assert_eq!(snap[0].rssi, m(-55.0));
    assert_eq!(snap[0].name.as_deref(), Some("Phone"));
}

#[test]
fn name_stays_where_none_is_given() {
    let mut t = BleTracker::default();
    t.observe_at(&[obs("aa", Some("Phone"), -55.0), obs("aa", None, -60.0)], at(5));
    let snap = t.snapshot_at(at(9));
    assert_eq!(snap[0].name.as_deref(), Some("Phone"));
    assert_eq!((snap[0].rssi, snap[0].age_secs), (m(-60.0), 4));
    // A device seen after the time of the snapshot has no negative age.
    assert_eq!(t.snapshot_at(at(1))[0].age_secs, 0);
}

#[test]
fn ids_are_cut_by_characters() {
    let mut t = BleTracker::new();
    let id: String = "é".repeat(70);
    t.observe_at(&[obs(&id, None, -50.0)], at(0));
    assert_eq!(t.snapshot_at(at(0))[0].id, "é".repeat(64));
}

#[test]
fn devices_stay_for_the_whole_window() {
    let mut t = BleTracker::new();
    t.observe_at(&[obs("aa", None, -50.0)], at(100));
    t.prune_at(at(100 + BLE_STALE_SECS));
    assert_eq!(t.len(), 1);
    t.prune_at(at(90));
    assert_eq!(t.len(), 1);
    t.prune_at(at(101 + BLE_STALE_SECS));
    assert_eq!(t.len(), 0);
    t.prune();
}

#[test]
fn equal_signals_sort_by_id() {
    let mut t = BleTracker::new();
    t.observe_at(&[obs("b", None, 0.0), obs("a", None, -0.0), obs("c", None, -1.0)], at(0));
    let ids: Vec<String> = t.snapshot_at(at(0)).into_iter().map(|d| d.id).collect();
    assert_eq!(ids, vec!["a", "b", "c"]);
}

#[test]
fn signal_that_is_no_number_sorts_by_id() {
    for (nan, number, ids) in [("a", "b", ["a", "b"]), ("b", "a", ["a", "b"])] {
        let mut t = BleTracker::new();
        t.observe_at(&[obs(nan, None, f64::NAN), obs(number, None, -50.0)], at(0));
        let got: Vec<String> = t.snapshot_at(at(0)).into_iter().map(|d| d.id).collect();
        assert_eq!(got, ids);
    }
}

#[test]
fn ages_are_never_negative() {
    let mut t = BleTracker::new();
    t.observe_at(&[obs("a", None, -50.0)], at(10));
    assert_eq!(t.snapshot_at(at(4))[0].age_secs, 0);
    assert_eq!(t.snapshot_at(at(13))[0].age_secs, 3);
}

#[test]
fn newcomer_at_the_weakest_signal_is_left_out() {
    let mut t = BleTracker::new();
    let all: Vec<BleObservation> =
        (0..MAX_DEVICES).map(|i| obs(&format!("d{i}"), None, -50.0)).collect();
    t.observe_at(&all, at(0));
    t.observe_at(&[obs("late", None, -50.0)], at(1));
    assert_eq!(t.len(), MAX_DEVICES);
    assert!(t.snapshot_at(at(1)).iter().all(|d| d.id != "late"));
    t.observe_at(&[obs("late", None, -49.0)], at(1));
    assert_eq!(t.len(), MAX_DEVICES);
    assert_eq!(t.snapshot_at(at(1))[0].id, "late");
}
