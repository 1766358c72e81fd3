use rust_iss::json::JsonValue;
use rust_iss::store::{Catalog, TelemetryLog};
use rust_iss::sync::sync_catalog;
use rust_iss::trend::{basis_of_log, trend_from_basis, trend_with_distance, TrendResult};

fn obj(fields: Vec<(&str, JsonValue)>) -> JsonValue {
    JsonValue::Obj(fields.into_iter().map(|(k, v)| (String::from(k), v)).collect())
}

fn s(v: &str) -> JsonValue {
    JsonValue::Str(String::from(v))
}

/// Degrees to fixed-point micro-degrees.
fn deg(x: f64) -> i64 {
    (x * 1e6).round() as i64
}

#[test]
fn trend_under_two_samples_is_empty() {
    let empty = TrendResult::empty();
    assert!(!empty.movement);
    assert_eq!(empty.distance_mm, 0);
    assert_eq!(empty.elapsed_ms, 0);
    assert!(empty.velocity.is_none());
    assert!(empty.from_time_ms.is_none());
    assert!(empty.to_time_ms.is_none());
    assert!(empty.from_lat.is_none());
    assert!(empty.from_lon.is_none());
    assert!(empty.to_lat.is_none());
    assert!(empty.to_lon.is_none());

    let mut log = TelemetryLog::new();
    assert!(basis_of_log(&log).is_none());
    log.append(String::from("u"), obj(vec![]), 1000);
    assert!(basis_of_log(&log).is_none());
}

#[test]
fn trend_with_missing_coordinates_keeps_times() {
    let mut log = TelemetryLog::new();
    log.append(
        String::from("u"),
        obj(vec![("latitude", JsonValue::Num(deg(10.0)))]),
        1_000,
    );
    log.append(
        String::from("u"),
        obj(vec![
            ("latitude", JsonValue::Num(deg(11.0))),
            ("longitude", JsonValue::Num(deg(21.0))),
        ]),
        4_500,
    );
    let b = basis_of_log(&log).unwrap();
    let r = trend_from_basis(&b, 12345);
    assert!(!r.movement);
    assert_eq!(r.distance_mm, 0);
    assert_eq!(r.from_time_ms, Some(1_000));
    assert_eq!(r.to_time_ms, Some(4_500));
    assert_eq!(r.elapsed_ms, 3_500);
}

#[test]
fn trend_two_close_fetches_report_movement() {
    // Two samples roughly ten kilometers apart.
    let mut log = TelemetryLog::new();
    log.append(
        String::from("u"),
        obj(vec![
            ("latitude", JsonValue::Num(deg(0.0))),
            ("longitude", JsonValue::Num(deg(0.0))),
            ("velocity", JsonValue::Num(deg(27000.0))),
        ]),
        1_000,
    );
    log.append(
        String::from("u"),
        obj(vec![
            ("latitude", JsonValue::Num(deg(0.09))),
            ("longitude", JsonValue::Num(deg(0.0))),
            ("velocity", JsonValue::Num(deg(27500.0))),
        ]),
        3_000,
    );
    let b = basis_of_log(&log).unwrap();
    let r = trend_with_distance(&b);
    assert!(r.movement);
    assert!(r.distance_mm > 100_000);
    // Roughly ten kilometers, against the reference float formula.
    let expect_km = {
        let dlat = 0.09f64.to_radians();
        let h = (dlat / 2.0).sin().powi(2);
        let c = 2.0 * h.sqrt().atan2((1.0 - h).sqrt());
        6371.0 * c
    };
    let got_km = r.distance_mm as f64 / 1e6;
    assert!((got_km - expect_km).abs() / expect_km < 0.01);
    assert_eq!(r.velocity, Some(deg(27500.0)));
    assert_eq!(r.elapsed_ms, 2_000);
}

#[test]
fn distance_of_a_point_to_itself_is_zero() {
    for (lat, lon) in [(0, 0), (45_123_456, -120_000_001), (-89_999_999, 179_999_999)] {
        assert_eq!(rust_iss::geo::haversine_mm(lat, lon, lat, lon), 0);
    }
}

#[test]
fn distance_is_symmetric() {
    let cases = [
        ((0i64, 0i64), (45_000_000i64, 90_000_000i64)),
        ((10_500_000, -3_250_000), (-60_000_000, 120_000_000)),
        ((51_476_853, -5_000), (51_476_854, -4_999)),
    ];
    for ((a1, o1), (a2, o2)) in cases {
        assert_eq!(
            rust_iss::geo::haversine_mm(a1, o1, a2, o2),
            rust_iss::geo::haversine_mm(a2, o2, a1, o1)
        );
    }
}

#[test]
fn quarter_meridian_distance_within_one_percent() {
    // From (0, 0) to (0, 90): a quarter of the equator, about 10007.5 km.
    let d_km = rust_iss::geo::haversine_mm(0, 0, 0, 90_000_000) as f64 / 1e6;
    assert!((d_km - 10_007.5).abs() / 10_007.5 < 0.01, "got {}", d_km);
    // Pole to equator along a meridian is the same arc length.
    let d2_km = rust_iss::geo::haversine_mm(0, 0, 90_000_000, 0) as f64 / 1e6;
    assert!((d2_km - 10_007.5).abs() / 10_007.5 < 0.01, "got {}", d2_km);
}

#[test]
fn sync_collapses_shared_keys_and_keeps_null_keys() {
    let mut cat = Catalog::new();
    cat.upsert(
        Some(String::from("existing")),
        None,
        None,
        None,
        JsonValue::Null,
        1,
    );
    let distinct_before = cat.len();

    let body = JsonValue::Arr(vec![
        obj(vec![("dataset_id", s("OSD-7")), ("title", s("first"))]),
        obj(vec![("dataset_id", s("OSD-7")), ("title", s("second"))]),
        obj(vec![("title", s("keyless"))]),
    ]);
    let written = sync_catalog(&mut cat, body, 50).unwrap();
    assert_eq!(written, 3);
    // Items one and two collapsed into a single new keyed row.
    assert_eq!(cat.count_with_key("OSD-7"), 1);
    assert_eq!(cat.len(), distinct_before + 2);
    // Last write wins on the shared key.
    let mut osd7_title = None;
    for i in 0..cat.len() {
        let row = cat.row_at(i);
        if row.natural_key.as_deref() == Some("OSD-7") {
            osd7_title = row.title.clone();
        }
    }
    assert_eq!(osd7_title.as_deref(), Some("second"));
    // The keyless item landed as an independent row.
    let last = cat.row_at(cat.len() - 1);
    assert!(last.natural_key.is_none());
    assert_eq!(last.title.as_deref(), Some("keyless"));
}

#[test]
fn sync_unwraps_items_and_results_containers() {
    let mut cat = Catalog::new();
    let body = obj(vec![(
        "items",
        JsonValue::Arr(vec![obj(vec![("id", s("a"))]), obj(vec![("id", s("b"))])]),
    )]);
    assert_eq!(sync_catalog(&mut cat, body, 1).unwrap(), 2);
    assert_eq!(cat.len(), 2);

    let mut cat2 = Catalog::new();
    let body2 = obj(vec![(
        "results",
        JsonValue::Arr(vec![obj(vec![("id", s("c"))])]),
    )]);
    assert_eq!(sync_catalog(&mut cat2, body2, 1).unwrap(), 1);
    assert_eq!(cat2.count_with_key("c"), 1);
}

#[test]
fn sync_wraps_plain_object_as_single_item() {
    let mut cat = Catalog::new();
    let body = obj(vec![("dataset_id", s("solo")), ("status", s("live"))]);
    assert_eq!(sync_catalog(&mut cat, body, 9).unwrap(), 1);
    assert_eq!(cat.len(), 1);
    let row = cat.row_at(0);
    assert_eq!(row.natural_key.as_deref(), Some("solo"));
    assert_eq!(row.status.as_deref(), Some("live"));
    assert_eq!(row.inserted_at_ms, 9);
}

#[test]
fn sync_empty_batch_writes_nothing() {
    let mut cat = Catalog::new();
    assert_eq!(sync_catalog(&mut cat, JsonValue::Arr(vec![]), 1).unwrap(), 0);
    assert_eq!(cat.len(), 0);
}

#[test]
fn sync_extracts_update_timestamp() {
    let mut cat = Catalog::new();
    let body = JsonValue::Arr(vec![obj(vec![
        ("id", s("t1")),
        ("lastUpdated", s("2024-01-01 12:00:00")),
    ])]);
    sync_catalog(&mut cat, body, 1).unwrap();
    assert_eq!(cat.row_at(0).updated_at_ms, Some(1_704_110_400_000));
}
