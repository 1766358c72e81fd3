//! Storage semantics: an append-only telemetry log, an append-only
//! per-source snapshot cache, and a catalog deduplicated by natural key.
//!
//! Append-only entities are never updated or deleted; recency order equals
//! identity order equals capture-time order. The catalog keeps at most one
//! row per non-null natural key; rows without a natural key are never
//! deduplicated.

use vstd::prelude::*;

use crate::json::JsonValue;
use crate::sources::SourceKind;

verus! {

/// One immutable telemetry sample.
#[derive(Debug)]
pub struct TelemetryRecord {
    pub id: u64,
    pub at_ms: i64,
    pub source_url: String,
    pub payload: JsonValue,
}

/// The append-only telemetry log.
#[derive(Debug)]
pub struct TelemetryLog {
    records: Vec<TelemetryRecord>,
    next_id: u64,
}

impl TelemetryLog {
    pub closed spec fn rows(&self) -> Seq<TelemetryRecord> {
        self.records@
    }

    pub closed spec fn spec_next_id(&self) -> u64 {
        self.next_id
    }

    /// Identities grow strictly, capture times never decrease, and both
    /// stay below the next identity to be assigned.
    pub open spec fn wf(&self) -> bool {
        &&& forall|i: int, j: int|
            #![trigger self.rows()[i], self.rows()[j]]
            0 <= i < j < self.rows().len() ==> self.rows()[i].id < self.rows()[j].id
                && self.rows()[i].at_ms <= self.rows()[j].at_ms
        &&& forall|i: int|
            0 <= i < self.rows().len() ==> (#[trigger] self.rows()[i]).id < self.spec_next_id()
        &&& forall|i: int| 0 <= i < self.rows().len() ==> 0 <= (#[trigger] self.rows()[i]).at_ms
    }

    pub fn new() -> (log: TelemetryLog)
        ensures
            log.wf(),
            log.rows().len() == 0,
            log.spec_next_id() == 0,
    {
        TelemetryLog { records: Vec::new(), next_id: 0 }
    }

    pub fn len(&self) -> (n: usize)
        ensures
            n == self.rows().len(),
    {
        self.records.len()
    }

    /// The capture time of the most recent record, or zero on an empty log.
    pub fn latest_at_ms(&self) -> (t: i64)
        ensures
            t == if self.rows().len() == 0 {
                0
            } else {
                self.rows().last().at_ms
            },
    {
        if self.records.len() == 0 {
            0
        } else {
            self.records[self.records.len() - 1].at_ms
        }
    }

    /// Whether an append at capture time `now_ms` is admissible.
    pub fn can_append(&self, now_ms: i64) -> (r: bool)
        ensures
            r == (self.spec_next_id() < u64::MAX && now_ms >= 0 && (self.rows().len() == 0
                || self.rows().last().at_ms <= now_ms)),
    {
        self.next_id < u64::MAX && now_ms >= 0 && self.latest_at_ms() <= now_ms
    }

    /// Appends one record; never overwrites.
    pub fn append(&mut self, source_url: String, payload: JsonValue, now_ms: i64) -> (id: u64)
        requires
            old(self).wf(),
            old(self).spec_next_id() < u64::MAX,
            now_ms >= 0,
            old(self).rows().len() == 0 || old(self).rows().last().at_ms <= now_ms,
        ensures
            final(self).wf(),
            id == old(self).spec_next_id(),
            final(self).spec_next_id() == old(self).spec_next_id() + 1,
            final(self).rows() == old(self).rows().push(
                TelemetryRecord { id, at_ms: now_ms, source_url, payload },
            ),
    {
        let id = self.next_id;
        self.records.push(TelemetryRecord { id, at_ms: now_ms, source_url, payload });
        self.next_id = id + 1;
        id
    }

    /// The most recent record, if any.
    pub fn latest(&self) -> (r: Option<&TelemetryRecord>)
        ensures
            match r {
                Some(rec) => self.rows().len() > 0 && *rec == self.rows().last(),
                None => self.rows().len() == 0,
            },
    {
        let n = self.records.len();
        if n == 0 {
            None
        } else {
            Some(&self.records[n - 1])
        }
    }

    /// The two most recent records as (older, newer), when at least two
    /// exist.
    pub fn last_two(&self) -> (r: Option<(&TelemetryRecord, &TelemetryRecord)>)
        ensures
            match r {
                Some(p) => self.rows().len() >= 2 && *p.0 == self.rows()[self.rows().len() - 2]
                    && *p.1 == self.rows().last(),
                None => self.rows().len() < 2,
            },
    {
        let n = self.records.len();
        if n < 2 {
            None
        } else {
            Some((&self.records[n - 2], &self.records[n - 1]))
        }
    }

    /// The record at one position, oldest first.
    pub fn row_at(&self, i: usize) -> (r: &TelemetryRecord)
        requires
            i < self.rows().len(),
        ensures
            *r == self.rows()[i as int],
    {
        &self.records[i]
    }
}

/// One cached snapshot for an auxiliary source.
#[derive(Debug)]
pub struct CacheEntry {
    pub id: u64,
    pub source: SourceKind,
    pub at_ms: i64,
    pub payload: JsonValue,
}

/// The most recent entry for one source: the one with the greatest
/// identity in that source's partition.
pub open spec fn spec_latest_for(entries: Seq<CacheEntry>, src: SourceKind) -> Option<CacheEntry>
    decreases entries.len(),
{
    if entries.len() == 0 {
        None
    } else if entries.last().source == src {
        Some(entries.last())
    } else {
        spec_latest_for(entries.drop_last(), src)
    }
}

/// The append-only snapshot cache, partitioned by source.
#[derive(Debug)]
pub struct SpaceCache {
    entries: Vec<CacheEntry>,
    next_id: u64,
}

impl SpaceCache {
    pub closed spec fn rows(&self) -> Seq<CacheEntry> {
        self.entries@
    }

    pub closed spec fn spec_next_id(&self) -> u64 {
        self.next_id
    }

    pub open spec fn wf(&self) -> bool {
        &&& forall|i: int, j: int|
            #![trigger self.rows()[i], self.rows()[j]]
            0 <= i < j < self.rows().len() ==> self.rows()[i].id < self.rows()[j].id
        &&& forall|i: int|
            0 <= i < self.rows().len() ==> (#[trigger] self.rows()[i]).id < self.spec_next_id()
    }

    pub fn new() -> (c: SpaceCache)
        ensures
            c.wf(),
            c.rows().len() == 0,
            c.spec_next_id() == 0,
    {
        SpaceCache { entries: Vec::new(), next_id: 0 }
    }

    pub fn len(&self) -> (n: usize)
        ensures
            n == self.rows().len(),
    {
        self.entries.len()
    }

    pub fn can_append(&self) -> (r: bool)
        ensures
            r == (self.spec_next_id() < u64::MAX),
    {
        self.next_id < u64::MAX
    }

    /// Appends one snapshot to a source's partition; never overwrites.
    pub fn append(&mut self, src: SourceKind, payload: JsonValue, now_ms: i64) -> (id: u64)
        requires
            old(self).wf(),
            old(self).spec_next_id() < u64::MAX,
        ensures
            final(self).wf(),
            id == old(self).spec_next_id(),
            final(self).spec_next_id() == old(self).spec_next_id() + 1,
            final(self).rows() == old(self).rows().push(
                CacheEntry { id, source: src, at_ms: now_ms, payload },
            ),
            spec_latest_for(final(self).rows(), src) == Some(
                CacheEntry { id, source: src, at_ms: now_ms, payload },
            ),
            forall|other: SourceKind|
                other != src ==> #[trigger] spec_latest_for(final(self).rows(), other)
                    == spec_latest_for(old(self).rows(), other),
    {
        let id = self.next_id;
        self.entries.push(CacheEntry { id, source: src, at_ms: now_ms, payload });
        self.next_id = id + 1;
        proof {
            assert(self.entries@.drop_last() =~= old(self).entries@);
        }
        id
    }

    /// The most recent snapshot for one source, if any.
    pub fn latest(&self, src: SourceKind) -> (r: Option<&CacheEntry>)
        ensures
            match r {
                Some(e) => spec_latest_for(self.rows(), src) == Some(*e),
                None => spec_latest_for(self.rows(), src) is None,
            },
    {
        let n = self.entries.len();
        let mut i: usize = n;
        proof {
            assert(self.rows().take(n as int) =~= self.rows());
        }
        while i > 0
            invariant
                i <= n,
                n == self.rows().len(),
                spec_latest_for(self.rows(), src) == spec_latest_for(
                    self.rows().take(i as int),
                    src,
                ),
            decreases i,
        {
            proof {
                assert(self.rows().take(i as int).last() == self.rows()[i - 1]);
                assert(self.rows().take(i as int).drop_last() =~= self.rows().take(i as int - 1));
            }
            if self.entries[i - 1].source == src {
                return Some(&self.entries[i - 1]);
            }
            i -= 1;
        }
        proof {
            assert(self.rows().take(0) =~= Seq::<CacheEntry>::empty());
        }
        None
    }
}

/// One catalog row: a normalized record from the dataset registry.
#[derive(Debug)]
pub struct CatalogRow {
    pub id: u64,
    pub natural_key: Option<String>,
    pub title: Option<String>,
    pub status: Option<String>,
    pub updated_at_ms: Option<i64>,
    pub inserted_at_ms: i64,
    pub raw: JsonValue,
}

/// Whether a row carries `k` as its natural key.
pub open spec fn row_has_key(r: CatalogRow, k: Seq<char>) -> bool {
    match r.natural_key {
        Some(s) => s@ == k,
        None => false,
    }
}

/// The characters of a row's natural key (empty when there is none).
pub open spec fn key_of(r: CatalogRow) -> Seq<char> {
    match r.natural_key {
        Some(s) => s@,
        None => Seq::empty(),
    }
}

/// How many rows carry `k` as their natural key.
pub open spec fn key_count(rows: Seq<CatalogRow>, k: Seq<char>) -> int
    decreases rows.len(),
{
    if rows.len() == 0 {
        0
    } else {
        key_count(rows.drop_last(), k) + if row_has_key(rows.last(), k) {
            1int
        } else {
            0int
        }
    }
}

/// Position of the first row carrying `k`, or -1.
pub open spec fn find_key(rows: Seq<CatalogRow>, k: Seq<char>) -> int
    decreases rows.len(),
{
    if rows.len() == 0 {
        -1
    } else if row_has_key(rows[0], k) {
        0
    } else {
        let r = find_key(rows.skip(1), k);
        if r == -1 {
            -1
        } else {
            r + 1
        }
    }
}

pub proof fn lemma_find_key(rows: Seq<CatalogRow>, k: Seq<char>)
    ensures
        find_key(rows, k) == -1 ==> forall|i: int|
            0 <= i < rows.len() ==> !row_has_key(#[trigger] rows[i], k),
        find_key(rows, k) != -1 ==> 0 <= find_key(rows, k) < rows.len() && row_has_key(
            rows[find_key(rows, k)],
            k,
        ) && forall|i: int| 0 <= i < find_key(rows, k) ==> !row_has_key(#[trigger] rows[i], k),
    decreases rows.len(),
{
    if rows.len() > 0 && !row_has_key(rows[0], k) {
        lemma_find_key(rows.skip(1), k);
        let r = find_key(rows.skip(1), k);
        if r == -1 {
            assert(find_key(rows, k) == -1);
            assert forall|i: int| 0 <= i < rows.len() implies !row_has_key(
                #[trigger] rows[i],
                k,
            ) by {
                if i > 0 {
                    assert(rows.skip(1)[i - 1] == rows[i]);
                }
            }
        } else {
            assert(find_key(rows, k) == r + 1);
            assert(rows.skip(1)[r] == rows[r + 1]);
            assert forall|i: int| 0 <= i < r + 1 implies !row_has_key(#[trigger] rows[i], k) by {
                if i > 0 {
                    assert(rows.skip(1)[i - 1] == rows[i]);
                }
            }
        }
    }
}

/// A row with no matching key anywhere is counted zero times.
pub proof fn lemma_key_count_zero(rows: Seq<CatalogRow>, k: Seq<char>)
    requires
        forall|i: int| 0 <= i < rows.len() ==> !row_has_key(#[trigger] rows[i], k),
    ensures
        key_count(rows, k) == 0,
    decreases rows.len(),
{
    if rows.len() > 0 {
        lemma_key_count_zero(rows.drop_last(), k);
    }
}

/// Pairwise distinctness of the non-null natural keys.
pub open spec fn keys_unique(rows: Seq<CatalogRow>) -> bool {
    forall|i: int, j: int|
        #![trigger rows[i], rows[j]]
        0 <= i < j < rows.len() && rows[i].natural_key is Some ==> !row_has_key(
            rows[j],
            key_of(rows[i]),
        )
}

/// Under unique keys, a present key is counted exactly once.
pub proof fn lemma_key_count_one(rows: Seq<CatalogRow>, k: Seq<char>, fi: int)
    requires
        keys_unique(rows),
        0 <= fi < rows.len(),
        row_has_key(rows[fi], k),
    ensures
        key_count(rows, k) == 1,
    decreases rows.len(),
{
    if fi == rows.len() - 1 {
        assert forall|i: int| 0 <= i < rows.drop_last().len() implies !row_has_key(
            #[trigger] rows.drop_last()[i],
            k,
        ) by {
            assert(rows.drop_last()[i] == rows[i]);
            assert(rows[i].natural_key is Some ==> !row_has_key(rows[fi], key_of(rows[i])));
        }
        lemma_key_count_zero(rows.drop_last(), k);
    } else {
        assert(rows.drop_last()[fi] == rows[fi]);
        lemma_key_count_one(rows.drop_last(), k, fi);
        assert(!row_has_key(rows.last(), k)) by {
            assert(rows[fi].natural_key is Some);
            assert(key_of(rows[fi]) == k);
        }
    }
}

/// The row that replaces an existing row on an upsert conflict:
/// identity and insertion time are kept, the mutable fields and the raw
/// payload are taken from the fresh item (last write wins).
pub open spec fn merged_row(existing: CatalogRow, fresh: CatalogRow) -> CatalogRow {
    CatalogRow {
        id: existing.id,
        natural_key: fresh.natural_key,
        title: fresh.title,
        status: fresh.status,
        updated_at_ms: fresh.updated_at_ms,
        inserted_at_ms: existing.inserted_at_ms,
        raw: fresh.raw,
    }
}

/// The catalog state after one upsert: a conflict on a non-null natural
/// key updates that row in place, anything else appends.
pub open spec fn spec_upsert(rows: Seq<CatalogRow>, fresh: CatalogRow) -> Seq<CatalogRow> {
    match fresh.natural_key {
        Some(k) => {
            let fi = find_key(rows, k@);
            if fi == -1 {
                rows.push(fresh)
            } else {
                rows.update(fi, merged_row(rows[fi], fresh))
            }
        },
        None => rows.push(fresh),
    }
}

/// An upsert never breaks pairwise distinctness of non-null natural keys.
pub proof fn lemma_upsert_keys_unique(rows: Seq<CatalogRow>, fresh: CatalogRow)
    requires
        keys_unique(rows),
    ensures
        keys_unique(spec_upsert(rows, fresh)),
{
    let rows1 = spec_upsert(rows, fresh);
    match fresh.natural_key {
        Some(ks) => {
            let k = ks@;
            lemma_find_key(rows, k);
            let fi = find_key(rows, k);
            if fi == -1 {
                assert forall|a: int, b: int|
                    #![trigger rows1[a], rows1[b]]
                    0 <= a < b < rows1.len() && rows1[a].natural_key is Some implies !row_has_key(
                    rows1[b],
                    key_of(rows1[a]),
                ) by {
                    if b < rows1.len() - 1 {
                        assert(rows1[a] == rows[a] && rows1[b] == rows[b]);
                    } else {
                        assert(rows1[a] == rows[a]);
                        if row_has_key(rows1[b], key_of(rows1[a])) {
                            assert(key_of(rows1[a]) == k);
                            assert(row_has_key(rows[a], k));
                        }
                    }
                }
            } else {
                assert forall|a: int|
                    0 <= a < rows1.len() implies (#[trigger] rows1[a]).natural_key is Some
                    == rows[a].natural_key is Some && key_of(rows1[a]) == key_of(rows[a]) by {
                    if a != fi {
                        assert(rows1[a] == rows[a]);
                    } else {
                        assert(rows[fi].natural_key is Some);
                        assert(key_of(rows[fi]) == k);
                    }
                }
                assert forall|a: int, b: int|
                    #![trigger rows1[a], rows1[b]]
                    0 <= a < b < rows1.len() && rows1[a].natural_key is Some implies !row_has_key(
                    rows1[b],
                    key_of(rows1[a]),
                ) by {
                    assert(rows[a].natural_key is Some);
                    assert(!row_has_key(rows[b], key_of(rows[a])));
                    assert(row_has_key(rows1[b], key_of(rows1[a])) == row_has_key(
                        rows[b],
                        key_of(rows[a]),
                    ));
                }
            }
        },
        None => {
            assert forall|a: int, b: int|
                #![trigger rows1[a], rows1[b]]
                0 <= a < b < rows1.len() && rows1[a].natural_key is Some implies !row_has_key(
                rows1[b],
                key_of(rows1[a]),
            ) by {
                if b < rows1.len() - 1 {
                    assert(rows1[a] == rows[a] && rows1[b] == rows[b]);
                } else {
                    assert(rows1[a] == rows[a]);
                    assert(!(rows1[b].natural_key is Some));
                }
            }
        },
    }
}

/// Law: upserting an item with a non-null natural key into a catalog
/// whose keys are pairwise distinct leaves exactly one row with that key,
/// and that row holds the freshly applied mutable fields and payload.
pub proof fn lemma_upsert_dedup(rows: Seq<CatalogRow>, fresh: CatalogRow)
    requires
        keys_unique(rows),
        fresh.natural_key is Some,
    ensures
        key_count(spec_upsert(rows, fresh), key_of(fresh)) == 1,
        keys_unique(spec_upsert(rows, fresh)),
        forall|i: int|
            0 <= i < spec_upsert(rows, fresh).len() && row_has_key(
                #[trigger] spec_upsert(rows, fresh)[i],
                key_of(fresh),
            ) ==> spec_upsert(rows, fresh)[i].title == fresh.title && spec_upsert(rows, fresh)[
                i
            ].status == fresh.status && spec_upsert(rows, fresh)[i].updated_at_ms
                == fresh.updated_at_ms && spec_upsert(rows, fresh)[i].raw == fresh.raw,
    decreases rows.len(),
{
    let k = key_of(fresh);
    let rows1 = spec_upsert(rows, fresh);
    lemma_upsert_keys_unique(rows, fresh);
    lemma_find_key(rows, k);
    let fi = find_key(rows, k);
    let ui: int = if fi == -1 {
        rows.len() as int
    } else {
        fi
    };
    assert(row_has_key(rows1[ui], k));
    lemma_key_count_one(rows1, k, ui);
    assert forall|i: int|
        0 <= i < rows1.len() && row_has_key(#[trigger] rows1[i], k) implies rows1[i].title
        == fresh.title && rows1[i].status == fresh.status && rows1[i].updated_at_ms
        == fresh.updated_at_ms && rows1[i].raw == fresh.raw by {
        if i != ui {
            if i < ui {
                assert(rows1[i].natural_key is Some && key_of(rows1[i]) == k);
                assert(!row_has_key(rows1[ui], key_of(rows1[i])));
            } else {
                assert(rows1[ui].natural_key is Some && key_of(rows1[ui]) == k);
                assert(!row_has_key(rows1[i], key_of(rows1[ui])));
            }
        }
    }
}

/// Law: repeated upserts of items sharing one non-null natural key leave
/// exactly one row for that key, no extra row, and the most recently
/// applied mutable fields.
pub proof fn lemma_repeated_upsert(rows: Seq<CatalogRow>, f1: CatalogRow, f2: CatalogRow)
    requires
        keys_unique(rows),
        f1.natural_key is Some,
        f2.natural_key is Some,
        key_of(f1) == key_of(f2),
    ensures
        key_count(spec_upsert(spec_upsert(rows, f1), f2), key_of(f2)) == 1,
        spec_upsert(spec_upsert(rows, f1), f2).len() == spec_upsert(rows, f1).len(),
        forall|i: int|
            0 <= i < spec_upsert(spec_upsert(rows, f1), f2).len() && row_has_key(
                #[trigger] spec_upsert(spec_upsert(rows, f1), f2)[i],
                key_of(f2),
            ) ==> spec_upsert(spec_upsert(rows, f1), f2)[i].title == f2.title && spec_upsert(
                spec_upsert(rows, f1),
                f2,
            )[i].status == f2.status && spec_upsert(spec_upsert(rows, f1), f2)[i].updated_at_ms
                == f2.updated_at_ms && spec_upsert(spec_upsert(rows, f1), f2)[i].raw == f2.raw,
{
    let k = key_of(f2);
    let rows1 = spec_upsert(rows, f1);
    lemma_upsert_dedup(rows, f1);
    lemma_upsert_dedup(rows1, f2);
    lemma_find_key(rows1, k);
    if find_key(rows1, k) == -1 {
        lemma_key_count_zero(rows1, k);
        assert(key_count(rows1, k) == 0);
        assert(key_count(rows1, key_of(f1)) == 1);
        assert(false);
    }
}

/// Law: an upsert with a null natural key always appends a fresh row and
/// never touches existing rows, whatever its field values; with a fresh
/// identity the appended row differs from every prior row.
pub proof fn lemma_null_key_inserts(rows: Seq<CatalogRow>, fresh: CatalogRow)
    requires
        fresh.natural_key is None,
    ensures
        spec_upsert(rows, fresh) == rows.push(fresh),
        spec_upsert(rows, fresh).len() == rows.len() + 1,
        forall|i: int| 0 <= i < rows.len() ==> spec_upsert(rows, fresh)[i] == #[trigger] rows[i],
        (forall|i: int| 0 <= i < rows.len() ==> (#[trigger] rows[i]).id != fresh.id) ==> forall|
            i: int,
        |
            0 <= i < rows.len() ==> #[trigger] spec_upsert(rows, fresh)[i] != spec_upsert(
                rows,
                fresh,
            )[rows.len() as int],
{
}

/// The deduplicated catalog.
#[derive(Debug)]
pub struct Catalog {
    rows_v: Vec<CatalogRow>,
    next_id: u64,
}

impl Catalog {
    pub closed spec fn rows(&self) -> Seq<CatalogRow> {
        self.rows_v@
    }

    pub closed spec fn spec_next_id(&self) -> u64 {
        self.next_id
    }

    /// Identities grow strictly and every non-null natural key appears at
    /// most once.
    pub open spec fn wf(&self) -> bool {
        &&& forall|i: int, j: int|
            #![trigger self.rows()[i], self.rows()[j]]
            0 <= i < j < self.rows().len() ==> self.rows()[i].id < self.rows()[j].id
        &&& forall|i: int|
            0 <= i < self.rows().len() ==> (#[trigger] self.rows()[i]).id < self.spec_next_id()
        &&& keys_unique(self.rows())
    }

    pub fn new() -> (c: Catalog)
        ensures
            c.wf(),
            c.rows().len() == 0,
            c.spec_next_id() == 0,
    {
        Catalog { rows_v: Vec::new(), next_id: 0 }
    }

    pub fn len(&self) -> (n: usize)
        ensures
            n == self.rows().len(),
    {
        self.rows_v.len()
    }

    /// The row at one position, oldest insertion first.
    pub fn row_at(&self, i: usize) -> (r: &CatalogRow)
        requires
            i < self.rows().len(),
        ensures
            *r == self.rows()[i as int],
    {
        &self.rows_v[i]
    }

    /// Up to `limit` rows, most recently inserted first.
    pub fn recent(&self, limit: usize) -> (out: Vec<&CatalogRow>)
        ensures
            out@.len() == if limit <= self.rows().len() {
                limit as int
            } else {
                self.rows().len() as int
            },
            forall|j: int|
                0 <= j < out@.len() ==> *out@[j] == self.rows()[self.rows().len() - 1 - j],
    {
        let n = self.rows_v.len();
        let mut out: Vec<&CatalogRow> = Vec::new();
        let mut j: usize = 0;
        while j < limit && j < n
            invariant
                n == self.rows().len(),
                j <= n,
                j <= limit,
                out@.len() == j,
                forall|q: int| 0 <= q < j ==> *out@[q] == self.rows()[self.rows().len() - 1 - q],
            decreases n - j,
        {
            out.push(&self.rows_v[n - 1 - j]);
            j += 1;
        }
        out
    }

    pub fn can_upsert(&self) -> (r: bool)
        ensures
            r == (self.spec_next_id() < u64::MAX),
    {
        self.next_id < u64::MAX
    }

    /// Whether `n` more identities can still be assigned.
    pub fn has_capacity(&self, n: usize) -> (r: bool)
        ensures
            r == (self.spec_next_id() + n <= u64::MAX),
    {
        n as u64 <= u64::MAX - self.next_id
    }

    /// How many rows carry `key` as their natural key (at most one in a
    /// well-formed catalog).
    pub fn count_with_key(&self, key: &str) -> (c: usize)
        ensures
            c == key_count(self.rows(), key@),
    {
        let n = self.rows_v.len();
        let mut c: usize = 0;
        let mut i: usize = 0;
        proof {
            assert(self.rows().take(0) =~= Seq::<CatalogRow>::empty());
        }
        while i < n
            invariant
                i <= n,
                n == self.rows().len(),
                c == key_count(self.rows().take(i as int), key@),
                0 <= c <= i,
            decreases n - i,
        {
            proof {
                assert(self.rows().take(i as int + 1).drop_last() =~= self.rows().take(i as int));
                assert(self.rows().take(i as int + 1).last() == self.rows()[i as int]);
            }
            let here = match &self.rows_v[i].natural_key {
                Some(s) => crate::json::str_eq(s.as_str(), key),
                None => false,
            };
            if here {
                c += 1;
            }
            i += 1;
        }
        proof {
            assert(self.rows().take(n as int) =~= self.rows());
        }
        c
    }

    /// One atomic insert-or-update (last write wins on a key conflict).
    pub fn upsert(
        &mut self,
        natural_key: Option<String>,
        title: Option<String>,
        status: Option<String>,
        updated_at_ms: Option<i64>,
        raw: JsonValue,
        now_ms: i64,
    ) -> (updated: bool)
        requires
            old(self).wf(),
            old(self).spec_next_id() < u64::MAX,
        ensures
            final(self).wf(),
            final(self).spec_next_id() == old(self).spec_next_id() + 1,
            final(self).rows() == spec_upsert(
                old(self).rows(),
                CatalogRow {
                    id: old(self).spec_next_id(),
                    natural_key,
                    title,
                    status,
                    updated_at_ms,
                    inserted_at_ms: now_ms,
                    raw,
                },
            ),
            updated == match natural_key {
                Some(k) => find_key(old(self).rows(), k@) != -1,
                None => false,
            },
    {
        let fresh_id = self.next_id;
        self.next_id = fresh_id + 1;
        match natural_key {
            Some(k) => {
                let ghost rows0 = self.rows_v@;
                let n = self.rows_v.len();
                let mut i: usize = 0;
                let mut found: bool = false;
                while i < n && !found
                    invariant
                        i <= n,
                        n == rows0.len(),
                        self.rows_v@ == rows0,
                        !found ==> forall|j: int|
                            0 <= j < i ==> !row_has_key(#[trigger] rows0[j], k@),
                        found ==> i < n && row_has_key(rows0[i as int], k@) && forall|j: int|
                            0 <= j < i ==> !row_has_key(#[trigger] rows0[j], k@),
                    decreases n - i + if found {
                        0int
                    } else {
                        1int
                    },
                {
                    let matches_here = match &self.rows_v[i].natural_key {
                        Some(s) => crate::json::str_eq(s.as_str(), k.as_str()),
                        None => false,
                    };
                    if matches_here {
                        found = true;
                    } else {
                        i += 1;
                    }
                }
                proof {
                    lemma_find_key(rows0, k@);
                }
                if found {
                    let id = self.rows_v[i].id;
                    let inserted_at_ms = self.rows_v[i].inserted_at_ms;
                    let row = CatalogRow {
                        id,
                        natural_key: Some(k),
                        title,
                        status,
                        updated_at_ms,
                        inserted_at_ms,
                        raw,
                    };
                    self.rows_v[i] = row;
                    proof {
                        assert(find_key(rows0, k@) == i);
                        let rows1 = self.rows_v@;
                        assert(rows1 == rows0.update(i as int, merged_row(rows0[i as int], CatalogRow {
                            id: fresh_id,
                            natural_key: Some(k),
                            title,
                            status,
                            updated_at_ms,
                            inserted_at_ms: now_ms,
                            raw,
                        })));
                        assert forall|a: int|
                            0 <= a < rows1.len() implies (#[trigger] rows1[a]).id == rows0[a].id
                            && (rows1[a].natural_key is Some <==> rows0[a].natural_key is Some)
                            && key_of(rows1[a]) == key_of(rows0[a]) by {
                            if a != i {
                                assert(rows1[a] == rows0[a]);
                            } else {
                                assert(rows0[i as int].natural_key is Some);
                                assert(key_of(rows0[i as int]) == k@);
                            }
                        }
                        assert forall|a: int, b: int|
                            #![trigger rows1[a], rows1[b]]
                            0 <= a < b < rows1.len() && rows1[a].natural_key is Some implies
                            !row_has_key(rows1[b], key_of(rows1[a])) by {
                            assert(rows0[a].natural_key is Some);
                            assert(!row_has_key(rows0[b], key_of(rows0[a])));
                            assert(row_has_key(rows1[b], key_of(rows1[a])) == row_has_key(
                                rows0[b],
                                key_of(rows0[a]),
                            ));
                        }
                    }
                    true
                } else {
                    let row = CatalogRow {
                        id: fresh_id,
                        natural_key: Some(k),
                        title,
                        status,
                        updated_at_ms,
                        inserted_at_ms: now_ms,
                        raw,
                    };
                    self.rows_v.push(row);
                    proof {
                        assert(find_key(rows0, k@) == -1);
                        let rows1 = self.rows_v@;
                        assert forall|a: int, b: int|
                            #![trigger rows1[a], rows1[b]]
                            0 <= a < b < rows1.len() && rows1[a].natural_key is Some implies
                            !row_has_key(rows1[b], key_of(rows1[a])) by {
                            if b < rows1.len() - 1 {
                                assert(rows1[a] == rows0[a] && rows1[b] == rows0[b]);
                            } else {
                                assert(rows1[a] == rows0[a]);
                                if row_has_key(rows1[b], key_of(rows1[a])) {
                                    assert(key_of(rows1[a]) == k@);
                                    assert(row_has_key(rows0[a], k@));
                                }
                            }
                        }
                    }
                    false
                }
            },
            None => {
                let row = CatalogRow {
                    id: fresh_id,
                    natural_key: None,
                    title,
                    status,
                    updated_at_ms,
                    inserted_at_ms: now_ms,
                    raw,
                };
                self.rows_v.push(row);
                proof {
                    let rows0 = old(self).rows_v@;
                    let rows1 = self.rows_v@;
                    assert forall|a: int, b: int|
                        #![trigger rows1[a], rows1[b]]
                        0 <= a < b < rows1.len() && rows1[a].natural_key is Some implies
                        !row_has_key(rows1[b], key_of(rows1[a])) by {
                        if b < rows1.len() - 1 {
                            assert(rows1[a] == rows0[a] && rows1[b] == rows0[b]);
                        } else {
                            assert(!(rows1[b].natural_key is Some));
                        }
                    }
                }
                false
            },
        }
    }
}

} // verus!
