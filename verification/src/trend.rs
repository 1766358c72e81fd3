//! The movement trend derived from the two most recent telemetry
//! samples: coordinates and the upstream-reported velocity come from the
//! payloads, elapsed time from the capture times, and the great-circle
//! distance is supplied by the caller in millimeters.

use vstd::prelude::*;

use crate::extract::{field_micros, spec_field_micros};
use crate::geo::{haversine_mm, spec_haversine_mm};
use crate::store::{TelemetryLog, TelemetryRecord};

verus! {

/// A value forced into a closed interval.
pub open spec fn spec_clamp(v: int, lo: int, hi: int) -> int {
    if v < lo {
        lo
    } else if v > hi {
        hi
    } else {
        v
    }
}

fn clamp_i64(v: i64, lo: i64, hi: i64) -> (r: i64)
    requires
        lo <= hi,
    ensures
        r == spec_clamp(v as int, lo as int, hi as int),
{
    if v < lo {
        lo
    } else if v > hi {
        hi
    } else {
        v
    }
}

/// The movement threshold: one tenth of a kilometer, in millimeters.
pub const MOVEMENT_THRESHOLD_MM: u64 = 100000;

/// What the two most recent samples say before any distance is known.
#[derive(Debug, Clone, Copy)]
pub struct TrendBasis {
    pub from_time_ms: i64,
    pub to_time_ms: i64,
    pub elapsed_ms: i64,
    pub from_lat: Option<i64>,
    pub from_lon: Option<i64>,
    pub to_lat: Option<i64>,
    pub to_lon: Option<i64>,
    pub velocity: Option<i64>,
}

impl TrendBasis {
    /// Whether both coordinate pairs are fully present.
    pub open spec fn spec_coords_complete(&self) -> bool {
        self.from_lat is Some && self.from_lon is Some && self.to_lat is Some
            && self.to_lon is Some
    }

    pub fn coords_complete(&self) -> (r: bool)
        ensures
            r == self.spec_coords_complete(),
    {
        self.from_lat.is_some() && self.from_lon.is_some() && self.to_lat.is_some()
            && self.to_lon.is_some()
    }
}

/// The derived trend.
#[derive(Debug, Clone, Copy)]
pub struct TrendResult {
    pub movement: bool,
    pub distance_mm: u64,
    pub elapsed_ms: i64,
    pub velocity: Option<i64>,
    pub from_time_ms: Option<i64>,
    pub to_time_ms: Option<i64>,
    pub from_lat: Option<i64>,
    pub from_lon: Option<i64>,
    pub to_lat: Option<i64>,
    pub to_lon: Option<i64>,
}

impl TrendResult {
    /// The trend of fewer than two samples: no movement, zero distance,
    /// zero elapsed time, every optional field absent.
    pub fn empty() -> (r: TrendResult)
        ensures
            r.movement == false,
            r.distance_mm == 0,
            r.elapsed_ms == 0,
            r.velocity is None,
            r.from_time_ms is None,
            r.to_time_ms is None,
            r.from_lat is None,
            r.from_lon is None,
            r.to_lat is None,
            r.to_lon is None,
    {
        TrendResult {
            movement: false,
            distance_mm: 0,
            elapsed_ms: 0,
            velocity: None,
            from_time_ms: None,
            to_time_ms: None,
            from_lat: None,
            from_lon: None,
            to_lat: None,
            to_lon: None,
        }
    }
}

/// Reads coordinates, velocity and times from an (older, newer) sample
/// pair: latitude and longitude come from each payload by the fixed
/// field names, the velocity is the upstream-reported value on the newer
/// payload, never derived.
pub fn trend_basis(older: &TelemetryRecord, newer: &TelemetryRecord) -> (b: TrendBasis)
    requires
        0 <= older.at_ms <= newer.at_ms,
    ensures
        b.from_time_ms == older.at_ms,
        b.to_time_ms == newer.at_ms,
        b.elapsed_ms == newer.at_ms - older.at_ms,
        b.from_lat == spec_field_micros(older.payload, "latitude"@),
        b.from_lon == spec_field_micros(older.payload, "longitude"@),
        b.to_lat == spec_field_micros(newer.payload, "latitude"@),
        b.to_lon == spec_field_micros(newer.payload, "longitude"@),
        b.velocity == spec_field_micros(newer.payload, "velocity"@),
{
    TrendBasis {
        from_time_ms: older.at_ms,
        to_time_ms: newer.at_ms,
        elapsed_ms: newer.at_ms - older.at_ms,
        from_lat: field_micros(&older.payload, "latitude"),
        from_lon: field_micros(&older.payload, "longitude"),
        to_lat: field_micros(&newer.payload, "latitude"),
        to_lon: field_micros(&newer.payload, "longitude"),
        velocity: field_micros(&newer.payload, "velocity"),
    }
}

/// The basis taken from the two most recent records of the log, when at
/// least two exist.
pub fn basis_of_log(log: &TelemetryLog) -> (r: Option<TrendBasis>)
    requires
        log.wf(),
    ensures
        match r {
            None => log.rows().len() < 2,
            Some(b) => {
                let older = log.rows()[log.rows().len() - 2];
                let newer = log.rows()[log.rows().len() - 1];
                &&& log.rows().len() >= 2
                &&& b.from_time_ms == older.at_ms
                &&& b.to_time_ms == newer.at_ms
                &&& b.elapsed_ms == newer.at_ms - older.at_ms
                &&& b.from_lat == spec_field_micros(older.payload, "latitude"@)
                &&& b.from_lon == spec_field_micros(older.payload, "longitude"@)
                &&& b.to_lat == spec_field_micros(newer.payload, "latitude"@)
                &&& b.to_lon == spec_field_micros(newer.payload, "longitude"@)
                &&& b.velocity == spec_field_micros(newer.payload, "velocity"@)
            },
        },
{
    match log.last_two() {
        Some((older, newer)) => Some(trend_basis(older, newer)),
        None => None,
    }
}

/// Completes the trend once the caller knows the great-circle distance
/// of the two coordinate pairs. With an incomplete pair the distance is
/// zero and there is no movement, but both timestamps and the elapsed
/// time are still populated; movement otherwise means the distance
/// exceeds the threshold.
pub fn trend_from_basis(b: &TrendBasis, distance_mm: u64) -> (r: TrendResult)
    ensures
        r.from_time_ms == Some(b.from_time_ms),
        r.to_time_ms == Some(b.to_time_ms),
        r.elapsed_ms == b.elapsed_ms,
        r.velocity == b.velocity,
        r.from_lat == b.from_lat,
        r.from_lon == b.from_lon,
        r.to_lat == b.to_lat,
        r.to_lon == b.to_lon,
        b.spec_coords_complete() ==> r.distance_mm == distance_mm && r.movement == (distance_mm
            > MOVEMENT_THRESHOLD_MM),
        !b.spec_coords_complete() ==> r.distance_mm == 0 && r.movement == false,
{
    let complete = b.coords_complete();
    TrendResult {
        movement: complete && distance_mm > MOVEMENT_THRESHOLD_MM,
        distance_mm: if complete {
            distance_mm
        } else {
            0
        },
        elapsed_ms: b.elapsed_ms,
        velocity: b.velocity,
        from_time_ms: Some(b.from_time_ms),
        to_time_ms: Some(b.to_time_ms),
        from_lat: b.from_lat,
        from_lon: b.from_lon,
        to_lat: b.to_lat,
        to_lon: b.to_lon,
    }
}

/// The great-circle distance of the basis coordinates, once each is
/// forced into the latitude and longitude domain.
pub open spec fn spec_basis_distance_mm(b: TrendBasis) -> int {
    spec_haversine_mm(
        spec_clamp(b.from_lat->Some_0 as int, -90_000_000, 90_000_000),
        spec_clamp(b.from_lon->Some_0 as int, -360_000_000, 360_000_000),
        spec_clamp(b.to_lat->Some_0 as int, -90_000_000, 90_000_000),
        spec_clamp(b.to_lon->Some_0 as int, -360_000_000, 360_000_000),
    )
}

/// Completes the trend, deriving the great-circle distance from the
/// extracted coordinates themselves (each forced into its domain).
pub fn trend_with_distance(b: &TrendBasis) -> (r: TrendResult)
    ensures
        r.from_time_ms == Some(b.from_time_ms),
        r.to_time_ms == Some(b.to_time_ms),
        r.elapsed_ms == b.elapsed_ms,
        r.velocity == b.velocity,
        r.from_lat == b.from_lat,
        r.from_lon == b.from_lon,
        r.to_lat == b.to_lat,
        r.to_lon == b.to_lon,
        b.spec_coords_complete() ==> r.distance_mm == spec_basis_distance_mm(*b) && r.movement
            == (spec_basis_distance_mm(*b) > MOVEMENT_THRESHOLD_MM),
        !b.spec_coords_complete() ==> r.distance_mm == 0 && r.movement == false,
{
    let distance_mm: u64 = match (b.from_lat, b.from_lon, b.to_lat, b.to_lon) {
        (Some(a1), Some(o1), Some(a2), Some(o2)) => haversine_mm(
            clamp_i64(a1, -90_000_000, 90_000_000),
            clamp_i64(o1, -360_000_000, 360_000_000),
            clamp_i64(a2, -90_000_000, 90_000_000),
            clamp_i64(o2, -360_000_000, 360_000_000),
        ),
        _ => 0,
    };
    trend_from_basis(b, distance_mm)
}

} // verus!
