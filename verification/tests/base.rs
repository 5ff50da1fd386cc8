//! Time, ids, text, measures, tables and sorting.

use wifi_densepose_tactical::clock::{Timestamp, MAX_SECS, MIN_SECS};
use wifi_densepose_tactical::domain::picture::SensorSummary;
use wifi_densepose_tactical::ids::{ContactId, RoomId, StructureId};
use wifi_densepose_tactical::measure::Measure;
use wifi_densepose_tactical::ranked::stable_sort;
use wifi_densepose_tactical::table::Table;
use wifi_densepose_tactical::text::{clip, comes_before, decimal_text};

fn m(x: f64) -> Measure {
    Measure::from_bits(x.to_bits())
}

#[test]
fn whole_numbers_are_told() {
    for n in [1u32, 2, 3, 5, 99, 100, 101, 65535, 65536, 16777215, 16777216] {
        assert_eq!(m(n as f64).whole(), Some(n));
        assert_eq!(m(-(n as f64)).whole(), None);
        assert_eq!(m(n as f64 + 0.5).whole(), None);
    }
    for x in [0.0, -0.0, 0.5, 0.999, 16777217.0, 1e300, f64::INFINITY, f64::NAN] {
        assert_eq!(m(x).whole(), None, "{x}");
    }
}

#[test]
fn measures_compare_as_doubles_do() {
    let values = [
        0.0,
        -0.0,
        1.0,
        -1.0,
        0.4,
        -59.0,
        f64::MIN_POSITIVE,
        f64::from_bits(1),
        -f64::from_bits(1),
        f64::MAX,
        f64::INFINITY,
        f64::NEG_INFINITY,
        f64::NAN,
        -f64::NAN,
        1e-300,
        16.0f32 as f64,
    ];
    for a in values {
        assert_eq!(m(a).is_nan(), a.is_nan());
        for b in values {
            assert_eq!(m(a).below(m(b)), a < b, "{a} < {b}");
            assert_eq!(m(a).at_most(m(b)), a <= b, "{a} <= {b}");
        }
    }
}

#[test]
fn current_time_is_the_clock_of_the_system() {
    let before = chrono::Utc::now();
    let now = Timestamp::now();
    let after = chrono::Utc::now();
    let mine = (now.unix_seconds(), now.subsec_nanos());
    assert!((before.timestamp(), before.timestamp_subsec_nanos()) <= mine);
    assert!(mine <= (after.timestamp(), after.timestamp_subsec_nanos()));
}

#[test]
fn whole_seconds_agree_with_the_calendar() {
    let points = [(0, 0), (0, 999_999_999), (-1, 1), (7, 500_000_000), (MIN_SECS, 0), (MAX_SECS, 999_999_999)];
    for (s1, n1) in points {
        for (s2, n2) in points {
            let a = Timestamp::from_parts(s1, n1).unwrap();
            let b = Timestamp::from_parts(s2, n2).unwrap();
            let ca = chrono::DateTime::from_timestamp(s1, n1).unwrap();
            let cb = chrono::DateTime::from_timestamp(s2, n2).unwrap();
            assert_eq!(a.whole_seconds_since(b), (ca - cb).num_seconds());
            assert_eq!(a.is_before(b), ca < cb);
            let age = (ca - cb).num_seconds();
            assert_eq!(a.is_fresh(b, 7), (0..=7).contains(&age));
        }
    }
}

#[test]
fn times_stay_within_the_calendar() {
    assert!(chrono::DateTime::from_timestamp(MIN_SECS, 0).is_some());
    assert!(chrono::DateTime::from_timestamp(MIN_SECS - 1, 0).is_none());
    assert!(chrono::DateTime::from_timestamp(MAX_SECS, 0).is_some());
    assert!(chrono::DateTime::from_timestamp(MAX_SECS + 1, 0).is_none());
    assert!(Timestamp::from_parts(MIN_SECS - 1, 0).is_none());
    assert!(Timestamp::from_parts(MAX_SECS + 1, 0).is_none());
    assert!(Timestamp::from_parts(0, 1_000_000_000).is_none());
    let t = Timestamp::from_parts(10, 5).unwrap();
    assert_eq!(t.minus_seconds(8), Timestamp::from_parts(2, 5).unwrap());
    assert_eq!(t.minus_seconds(-8), Timestamp::from_parts(18, 5).unwrap());
    assert_eq!(t.minus_seconds(i64::MAX).unix_seconds(), MIN_SECS);
    assert_eq!(t.minus_seconds(i64::MIN).unix_seconds(), MAX_SECS);
}

#[test]
fn ids_are_random_and_shown_hyphenated() {
    let a = RoomId::new();
    let b = RoomId::default();
    assert!(a != b);
    assert_eq!(a.to_text(), uuid::Uuid::from_u128(a.uuid).to_string());
    assert_eq!(uuid::Uuid::from_u128(a.uuid).get_version_num(), 4);
    assert_eq!(uuid::Uuid::from_u128(StructureId::new().uuid).get_version_num(), 4);
    assert_eq!(uuid::Uuid::from_u128(ContactId::default().uuid).get_version_num(), 4);
    let id = RoomId::from_uuid(0xfedc_ba98_7654_3210_0f1e_2d3c_4b5a_6978);
    assert_eq!(id.to_text(), "fedcba98-7654-3210-0f1e-2d3c4b5a6978");
    assert_eq!(StructureId { uuid: 0 }.to_text(), "00000000-0000-0000-0000-000000000000");
    assert_eq!(ContactId { uuid: 10 }.to_text(), "00000000-0000-0000-0000-00000000000a");
}

#[test]
fn texts_order_as_strings_do() {
    let words = ["", "a", "A", "ab", "b", "é", "z", "zz", "𝄞", "\u{ffff}"];
    for a in words {
        for b in words {
            assert_eq!(comes_before(a, b), a < b, "{a:?} < {b:?}");
        }
    }
}

#[test]
fn texts_are_cut_and_numbers_written() {
    assert_eq!(clip("héllo", 2), "hé");
    assert_eq!(clip("hé", 2), "hé");
    assert_eq!(clip("", 0), "");
    for n in [0, 7, 10, 99, 100, 1_000_000, u64::MAX] {
        assert_eq!(decimal_text(n), n.to_string());
    }
}

#[test]
fn tables_hold_one_value_for_each_key() {
    let mut t: Table<String, u32> = Table::new();
    t.insert("a".into(), 1);
    t.insert("b".into(), 2);
    t.insert("a".into(), 3);
    assert_eq!(t.len(), 2);
    assert_eq!(t.get(&"a".to_string()), Some(&3));
    assert_eq!(t.key_at(1), "b");
    assert_eq!(*t.value_at(1), 2);
    assert_eq!(t.remove(&"a".to_string()), Some(3));
    assert_eq!(t.remove(&"a".to_string()), None);
    assert!(!t.contains_key(&"a".to_string()));
    assert_eq!(t.remove_at(0), 2);
    t.insert("c".into(), 4);
    t.clear();
    assert_eq!(t.len(), 0);
}

fn row(id: &str, room_name: Option<&str>, age: i64) -> SensorSummary {
    SensorSummary {
        id: id.into(),
        room_id: None,
        room_name: room_name.map(String::from),
        configured: true,
        reporting: false,
        age_secs: Some(age),
        last_rssi: None,
    }
}

#[test]
fn sorting_keeps_equals_in_their_order() {
    let rows = vec![
        row("b", Some("R"), 1),
        row("a", Some("R"), 2),
        row("b", Some("R"), 3),
        row("z", None, 4),
        row("a", Some("Q"), 5),
        row("b", Some("R"), 6),
    ];
    let ages: Vec<i64> = stable_sort(rows).iter().map(|r| r.age_secs.unwrap()).collect();
    assert_eq!(ages, vec![4, 5, 2, 1, 3, 6]);
}
