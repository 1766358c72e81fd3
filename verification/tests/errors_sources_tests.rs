use rust_iss::errors::{classify_http_error, ApiError};
use rust_iss::sources::{
    default_config, parse_refresh_list, query_params, ScheduleSource, SourceKind,
};

#[test]
fn error_constructors_set_their_codes() {
    assert_eq!(ApiError::database("d").error.code, "DATABASE_ERROR");
    assert_eq!(ApiError::not_found("n").error.code, "NOT_FOUND");
    assert_eq!(ApiError::internal("i").error.code, "INTERNAL_ERROR");
    assert_eq!(ApiError::validation("v").error.code, "VALIDATION_ERROR");
    let e = ApiError::upstream(404, "gone away");
    assert_eq!(e.error.code, "UPSTREAM_404");
    assert_eq!(e.error.message, "gone away");
    assert!(!e.ok);
}

#[test]
fn error_trace_ids_are_fresh_uuids() {
    let a = ApiError::new("X", "m");
    let b = ApiError::new("X", "m");
    assert_eq!(a.error.trace_id.len(), 36);
    assert_eq!(b.error.trace_id.len(), 36);
    assert_ne!(a.error.trace_id, b.error.trace_id);
}

#[test]
fn error_display_line_format() {
    let e = ApiError::new("SOME_CODE", "went wrong");
    let line = e.display_string();
    assert_eq!(
        line,
        format!(
            "ApiError[SOME_CODE]: went wrong (trace: {})",
            e.error.trace_id
        )
    );
}

#[test]
fn http_errors_classify_by_status_presence() {
    let up = classify_http_error(Some(503), "bad gateway");
    assert_eq!(up.error.code, "UPSTREAM_503");
    let int = classify_http_error(None, "timed out");
    assert_eq!(int.error.code, "INTERNAL_ERROR");
    assert_eq!(int.error.message, "timed out");
}

#[test]
fn refresh_list_trims_lowercases_and_drops_unknown() {
    let got = parse_refresh_list("apod, NEO ,x , SpaceX");
    assert_eq!(
        got,
        vec![SourceKind::Apod, SourceKind::Neo, SourceKind::Spacex]
    );
    let all = parse_refresh_list("apod,neo,flr,cme,spacex");
    assert_eq!(
        all,
        vec![
            SourceKind::Apod,
            SourceKind::Neo,
            SourceKind::Flr,
            SourceKind::Cme,
            SourceKind::Spacex
        ]
    );
    assert_eq!(parse_refresh_list(""), vec![]);
    assert_eq!(
        parse_refresh_list("cme,cme"),
        vec![SourceKind::Cme, SourceKind::Cme]
    );
}

#[test]
fn source_names_round_trip() {
    for k in [
        SourceKind::Apod,
        SourceKind::Neo,
        SourceKind::Flr,
        SourceKind::Cme,
        SourceKind::Spacex,
    ] {
        assert_eq!(SourceKind::from_name(k.name()), Some(k));
    }
    assert_eq!(SourceKind::from_name("iss"), None);
}

#[test]
fn default_intervals_match_documentation() {
    let c = default_config();
    assert_eq!(c.fetch_every_seconds, 600);
    assert_eq!(c.iss_every_seconds, 120);
    assert_eq!(c.apod_every_seconds, 43200);
    assert_eq!(c.neo_every_seconds, 7200);
    assert_eq!(c.donki_every_seconds, 3600);
    assert_eq!(c.spacex_every_seconds, 3600);
    assert_eq!(c.interval_for(ScheduleSource::Catalog), 600);
    assert_eq!(c.interval_for(ScheduleSource::Telemetry), 120);
    assert_eq!(c.interval_for(ScheduleSource::Donki), 3600);
}

#[test]
fn query_params_build_date_windows_and_key() {
    // 2024-01-03 is epoch day 19725.
    let day = 19725;
    let neo = query_params(ScheduleSource::Neo, "secret", day);
    assert_eq!(
        neo,
        vec![
            (String::from("start_date"), String::from("2024-01-01")),
            (String::from("end_date"), String::from("2024-01-03")),
            (String::from("api_key"), String::from("secret")),
        ]
    );
    let donki = query_params(ScheduleSource::Donki, "", day);
    assert_eq!(
        donki,
        vec![
            (String::from("startDate"), String::from("2023-12-29")),
            (String::from("endDate"), String::from("2024-01-03")),
        ]
    );
    let apod = query_params(ScheduleSource::Apod, "", day);
    assert_eq!(apod, vec![(String::from("thumbs"), String::from("true"))]);
    assert!(query_params(ScheduleSource::Spacex, "secret", day).is_empty());
    assert!(query_params(ScheduleSource::Telemetry, "secret", day).is_empty());
    assert!(query_params(ScheduleSource::Catalog, "secret", day).is_empty());
}

#[test]
fn day_numbers_match_chrono() {
    let d = chrono::NaiveDate::from_ymd_opt(2024, 1, 3).unwrap();
    let epoch = chrono::NaiveDate::from_ymd_opt(1970, 1, 1).unwrap();
    assert_eq!((d - epoch).num_days(), 19725);
    assert_eq!(rust_iss::dates::day_number(2024, 1, 3), 19725);
    assert_eq!(
        rust_iss::dates::day_number(
            chrono::Datelike::year(&d) as u64,
            chrono::Datelike::month(&d) as u64,
            chrono::Datelike::day(&d) as u64
        ),
        19725
    );
    assert_eq!(rust_iss::dates::day_number(1970, 1, 1), 0);
    assert_eq!(rust_iss::dates::day_number(1969, 12, 31), -1);
    assert_eq!(rust_iss::dates::civil_from_days(19725), (2024, 1, 3));
    assert_eq!(rust_iss::dates::day_string(19725), "2024-01-03");
}
