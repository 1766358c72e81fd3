use rust_iss::dates::parse_naive_utc_ms;
use rust_iss::digits::{parse_micros, parse_u64, render_micros, u64_string};
use rust_iss::extract::{field_micros, s_pick, t_pick};
use rust_iss::json::JsonValue;

fn obj(fields: Vec<(&str, JsonValue)>) -> JsonValue {
    JsonValue::Obj(fields.into_iter().map(|(k, v)| (String::from(k), v)).collect())
}

fn s(v: &str) -> JsonValue {
    JsonValue::Str(String::from(v))
}

#[test]
fn s_pick_prefers_earlier_candidate() {
    let item = obj(vec![("dataset_id", s("OSD-1")), ("id", s("other"))]);
    let got = s_pick(&item, &["dataset_id", "id"]);
    assert_eq!(got.as_deref(), Some("OSD-1"));
}

#[test]
fn s_pick_missing_key_moves_to_next() {
    let item = obj(vec![("id", s("fallback"))]);
    let got = s_pick(&item, &["dataset_id", "id"]);
    assert_eq!(got.as_deref(), Some("fallback"));
}

#[test]
fn s_pick_present_key_decides_alone() {
    // A present candidate that fails the type check yields nothing,
    // even though a later candidate would match.
    let item = obj(vec![("dataset_id", JsonValue::Bool(true)), ("id", s("x"))]);
    assert_eq!(s_pick(&item, &["dataset_id", "id"]), None);
    // An empty string is not a usable value either.
    let item2 = obj(vec![("dataset_id", s("")), ("id", s("x"))]);
    assert_eq!(s_pick(&item2, &["dataset_id", "id"]), None);
}

#[test]
fn s_pick_renders_numbers_decimally() {
    let item = obj(vec![("id", JsonValue::Num(1_500_000))]);
    assert_eq!(s_pick(&item, &["id"]).as_deref(), Some("1.5"));
    let whole = obj(vec![("id", JsonValue::Num(42_000_000))]);
    assert_eq!(s_pick(&whole, &["id"]).as_deref(), Some("42"));
    let neg = obj(vec![("id", JsonValue::Num(-500))]);
    assert_eq!(s_pick(&neg, &["id"]).as_deref(), Some("-0.0005"));
}

#[test]
fn timestamp_fixed_pattern_parses_as_utc() {
    // The documented UTC fallback pattern parses rather than failing.
    let got = parse_naive_utc_ms("2024-01-01 12:00:00");
    assert_eq!(got, Some(1_704_110_400_000));
    // Cross-check against chrono's own parser.
    let dt = chrono::NaiveDateTime::parse_from_str("2024-01-01 12:00:00", "%Y-%m-%d %H:%M:%S")
        .unwrap()
        .and_utc();
    assert_eq!(got, Some(dt.timestamp_millis()));
}

#[test]
fn timestamp_pattern_rejects_bad_fields() {
    assert_eq!(parse_naive_utc_ms("2024-13-01 12:00:00"), None);
    assert_eq!(parse_naive_utc_ms("2024-02-30 12:00:00"), None);
    assert_eq!(parse_naive_utc_ms("2024-01-01 24:00:00"), None);
    assert_eq!(parse_naive_utc_ms("2024-01-01T12:00:00"), None);
    assert_eq!(parse_naive_utc_ms("2024-1-1 12:00:00"), None);
    // Leap day of a leap year is fine.
    assert_eq!(
        parse_naive_utc_ms("2024-02-29 00:00:00"),
        Some(1_709_164_800_000)
    );
}

#[test]
fn t_pick_takes_timezone_qualified_form_first() {
    let item = obj(vec![("updated", s("2024-01-01T12:00:00Z"))]);
    assert_eq!(t_pick(&item, &["updated"]), Some(1_704_110_400_000));
}

#[test]
fn t_pick_falls_back_to_utc_pattern() {
    let item = obj(vec![("modified", s("2024-01-01 12:00:00"))]);
    assert_eq!(
        t_pick(&item, &["updated", "updated_at", "modified"]),
        Some(1_704_110_400_000)
    );
}

#[test]
fn t_pick_reads_whole_numbers_as_epoch_seconds() {
    let item = obj(vec![("timestamp", JsonValue::Num(1_704_110_400 * 1_000_000))]);
    assert_eq!(t_pick(&item, &["timestamp"]), Some(1_704_110_400_000));
}

#[test]
fn t_pick_unparseable_candidate_moves_on() {
    let item = obj(vec![("updated", s("not a date")), ("timestamp", s("2024-01-01 00:00:00"))]);
    assert_eq!(
        t_pick(&item, &["updated", "timestamp"]),
        Some(1_704_067_200_000)
    );
    let nothing = obj(vec![("updated", s("still not a date"))]);
    assert_eq!(t_pick(&nothing, &["updated"]), None);
}

#[test]
fn field_micros_reads_numbers_and_numeric_strings() {
    let item = obj(vec![("latitude", JsonValue::Num(50_123_456))]);
    assert_eq!(field_micros(&item, "latitude"), Some(50_123_456));
    let item2 = obj(vec![("latitude", s("-12.5"))]);
    assert_eq!(field_micros(&item2, "latitude"), Some(-12_500_000));
    let item3 = obj(vec![("latitude", s("abc"))]);
    assert_eq!(field_micros(&item3, "latitude"), None);
    assert_eq!(field_micros(&item3, "longitude"), None);
}

#[test]
fn decimal_parse_and_render() {
    assert_eq!(parse_micros("1.5"), Some(1_500_000));
    assert_eq!(parse_micros("-0.0005"), Some(-500));
    assert_eq!(parse_micros("10."), Some(10_000_000));
    assert_eq!(parse_micros(".25"), Some(250_000));
    assert_eq!(parse_micros(""), None);
    assert_eq!(parse_micros("-"), None);
    assert_eq!(parse_micros("1.2.3"), None);
    assert_eq!(parse_micros("12a"), None);
    assert_eq!(render_micros(1_500_000), "1.5");
    assert_eq!(render_micros(-500), "-0.0005");
    assert_eq!(render_micros(0), "0");
    assert_eq!(render_micros(42_000_000), "42");
}

#[test]
fn u64_text_round_trip() {
    assert_eq!(u64_string(0), "0");
    assert_eq!(u64_string(12345), "12345");
    assert_eq!(parse_u64("600"), Some(600));
    assert_eq!(parse_u64(""), None);
    assert_eq!(parse_u64("12x"), None);
    assert_eq!(parse_u64("18446744073709551615"), Some(u64::MAX));
    assert_eq!(parse_u64("18446744073709551616"), None);
}
