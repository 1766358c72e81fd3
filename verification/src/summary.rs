//! The cross-source summary: the latest snapshot of every cached
//! source, the latest telemetry record, and the catalog row count.

use vstd::prelude::*;

use crate::sources::SourceKind;
use crate::store::{spec_latest_for, CacheEntry, Catalog, SpaceCache, TelemetryLog, TelemetryRecord};

verus! {

/// One summary read across every store.
pub struct Summary<'a> {
    pub apod: Option<&'a CacheEntry>,
    pub neo: Option<&'a CacheEntry>,
    pub flr: Option<&'a CacheEntry>,
    pub cme: Option<&'a CacheEntry>,
    pub spacex: Option<&'a CacheEntry>,
    pub telemetry: Option<&'a TelemetryRecord>,
    pub catalog_count: usize,
}

/// Whether an optional entry is exactly the latest of one source.
pub open spec fn is_latest_of(
    entries: Seq<CacheEntry>,
    src: SourceKind,
    o: Option<&CacheEntry>,
) -> bool {
    match o {
        Some(e) => spec_latest_for(entries, src) == Some(*e),
        None => spec_latest_for(entries, src) is None,
    }
}

/// Reads the latest snapshot per source, the latest telemetry record,
/// and the catalog row count, in one pass.
pub fn summary<'a>(
    cache: &'a SpaceCache,
    log: &'a TelemetryLog,
    catalog: &'a Catalog,
) -> (s: Summary<'a>)
    ensures
        is_latest_of(cache.rows(), SourceKind::Apod, s.apod),
        is_latest_of(cache.rows(), SourceKind::Neo, s.neo),
        is_latest_of(cache.rows(), SourceKind::Flr, s.flr),
        is_latest_of(cache.rows(), SourceKind::Cme, s.cme),
        is_latest_of(cache.rows(), SourceKind::Spacex, s.spacex),
        match s.telemetry {
            Some(r) => log.rows().len() > 0 && *r == log.rows().last(),
            None => log.rows().len() == 0,
        },
        s.catalog_count == catalog.rows().len(),
{
    Summary {
        apod: cache.latest(SourceKind::Apod),
        neo: cache.latest(SourceKind::Neo),
        flr: cache.latest(SourceKind::Flr),
        cme: cache.latest(SourceKind::Cme),
        spacex: cache.latest(SourceKind::Spacex),
        telemetry: log.latest(),
        catalog_count: catalog.len(),
    }
}

} // verus!
