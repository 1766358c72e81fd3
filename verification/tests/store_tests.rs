use rust_iss::json::JsonValue;
use rust_iss::sources::SourceKind;
use rust_iss::store::{Catalog, SpaceCache, TelemetryLog};

fn obj(fields: Vec<(&str, JsonValue)>) -> JsonValue {
    JsonValue::Obj(fields.into_iter().map(|(k, v)| (String::from(k), v)).collect())
}

#[test]
fn telemetry_append_assigns_monotonic_ids() {
    let mut log = TelemetryLog::new();
    let id0 = log.append(String::from("http://a"), JsonValue::Null, 1000);
    let id1 = log.append(String::from("http://a"), JsonValue::Null, 2000);
    assert_eq!(id0, 0);
    assert_eq!(id1, 1);
    assert_eq!(log.len(), 2);
    let latest = log.latest().unwrap();
    assert_eq!(latest.id, 1);
    assert_eq!(latest.at_ms, 2000);
}

#[test]
fn telemetry_last_two_orders_old_then_new() {
    let mut log = TelemetryLog::new();
    log.append(String::from("u"), JsonValue::Num(1), 10);
    log.append(String::from("u"), JsonValue::Num(2), 20);
    log.append(String::from("u"), JsonValue::Num(3), 30);
    let (older, newer) = log.last_two().unwrap();
    assert_eq!(older.at_ms, 20);
    assert_eq!(newer.at_ms, 30);
}

#[test]
fn telemetry_latest_on_empty_is_none() {
    let log = TelemetryLog::new();
    assert!(log.latest().is_none());
    assert!(log.last_two().is_none());
}

#[test]
fn cache_latest_per_source() {
    let mut cache = SpaceCache::new();
    cache.append(SourceKind::Apod, JsonValue::Num(1_000_000), 10);
    cache.append(SourceKind::Neo, JsonValue::Num(2_000_000), 20);
    cache.append(SourceKind::Apod, JsonValue::Num(3_000_000), 30);
    let apod = cache.latest(SourceKind::Apod).unwrap();
    assert_eq!(apod.at_ms, 30);
    let neo = cache.latest(SourceKind::Neo).unwrap();
    assert_eq!(neo.at_ms, 20);
    assert!(cache.latest(SourceKind::Spacex).is_none());
}

#[test]
fn cache_append_does_not_touch_other_sources() {
    let mut cache = SpaceCache::new();
    cache.append(SourceKind::Flr, JsonValue::Bool(true), 5);
    cache.append(SourceKind::Cme, JsonValue::Bool(false), 6);
    let flr_before = cache.latest(SourceKind::Flr).unwrap().id;
    cache.append(SourceKind::Cme, JsonValue::Null, 7);
    assert_eq!(cache.latest(SourceKind::Flr).unwrap().id, flr_before);
}

#[test]
fn upsert_same_key_leaves_one_row_with_latest_fields() {
    let mut cat = Catalog::new();
    cat.upsert(
        Some(String::from("k1")),
        Some(String::from("t1")),
        Some(String::from("s1")),
        Some(100),
        JsonValue::Num(1_000_000),
        10,
    );
    let updated = cat.upsert(
        Some(String::from("k1")),
        Some(String::from("t2")),
        Some(String::from("s2")),
        Some(200),
        JsonValue::Num(2_000_000),
        20,
    );
    assert!(updated);
    assert_eq!(cat.len(), 1);
    assert_eq!(cat.count_with_key("k1"), 1);
    let row = cat.row_at(0);
    assert_eq!(row.title.as_deref(), Some("t2"));
    assert_eq!(row.status.as_deref(), Some("s2"));
    assert_eq!(row.updated_at_ms, Some(200));
    assert_eq!(row.inserted_at_ms, 10);
}

#[test]
fn upsert_null_key_always_inserts_distinct_rows() {
    let mut cat = Catalog::new();
    let u1 = cat.upsert(None, Some(String::from("t")), None, None, JsonValue::Null, 1);
    let u2 = cat.upsert(None, Some(String::from("t")), None, None, JsonValue::Null, 1);
    assert!(!u1);
    assert!(!u2);
    assert_eq!(cat.len(), 2);
    assert_ne!(cat.row_at(0).id, cat.row_at(1).id);
}

#[test]
fn upsert_distinct_keys_stay_separate() {
    let mut cat = Catalog::new();
    cat.upsert(Some(String::from("a")), None, None, None, JsonValue::Null, 1);
    cat.upsert(Some(String::from("b")), None, None, None, JsonValue::Null, 2);
    assert_eq!(cat.len(), 2);
    assert_eq!(cat.count_with_key("a"), 1);
    assert_eq!(cat.count_with_key("b"), 1);
}

#[test]
fn recent_returns_most_recent_first() {
    let mut cat = Catalog::new();
    for i in 0..5 {
        cat.upsert(
            Some(format!("k{}", i)),
            None,
            None,
            None,
            JsonValue::Null,
            i as i64,
        );
    }
    let recent = cat.recent(3);
    assert_eq!(recent.len(), 3);
    assert_eq!(recent[0].natural_key.as_deref(), Some("k4"));
    assert_eq!(recent[1].natural_key.as_deref(), Some("k3"));
    assert_eq!(recent[2].natural_key.as_deref(), Some("k2"));
    assert_eq!(cat.recent(10).len(), 5);
}

#[test]
fn summary_reads_all_stores() {
    let mut cache = SpaceCache::new();
    let mut log = TelemetryLog::new();
    let mut cat = Catalog::new();
    cache.append(SourceKind::Apod, JsonValue::Num(0), 1);
    log.append(String::from("u"), obj(vec![]), 2);
    cat.upsert(Some(String::from("x")), None, None, None, JsonValue::Null, 3);
    let s = rust_iss::summary::summary(&cache, &log, &cat);
    assert!(s.apod.is_some());
    assert!(s.neo.is_none());
    assert!(s.flr.is_none());
    assert!(s.cme.is_none());
    assert!(s.spacex.is_none());
    assert_eq!(s.telemetry.unwrap().at_ms, 2);
    assert_eq!(s.catalog_count, 1);
}
