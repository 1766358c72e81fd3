//! Catalog synchronization: one upstream batch, normalized item by item
//! and applied to the catalog as natural-key upserts.
//!
//! A batch is not item-isolated: a failure aborts the remaining items
//! (here the only possible failure, identity-space exhaustion, is
//! checked up front), and the reported count is the number of items
//! processed.

use vstd::prelude::*;

use crate::errors::ApiError;
use crate::extract::{key_views, s_pick, spec_s_pick, spec_t_pick, t_pick};
use crate::json::{find_array_binding, lookup, JsonValue};
use crate::store::{spec_upsert, Catalog, CatalogRow};

verus! {

/// The items of one upstream batch: the body itself when it is an
/// array, else the first array bound to `items`, else to `results`,
/// else the body alone as a single item.
pub open spec fn spec_items(body: JsonValue) -> Seq<JsonValue> {
    match body {
        JsonValue::Arr(a) => a@,
        _ => match lookup(body, "items"@) {
            Some(JsonValue::Arr(a)) => a@,
            _ => match lookup(body, "results"@) {
                Some(JsonValue::Arr(a)) => a@,
                _ => seq![body],
            },
        },
    }
}

/// Takes the batch items out of the body.
pub fn extract_items(body: JsonValue) -> (items: Vec<JsonValue>)
    ensures
        items@ == spec_items(body),
{
    match body {
        JsonValue::Arr(a) => a,
        JsonValue::Obj(fields) => {
            let mut fields = fields;
            let ghost v0 = fields;
            proof {
                assert(body == JsonValue::Obj(v0));
            }
            match find_array_binding(&fields, "items") {
                Some(i) => {
                    let pair = fields.remove(i);
                    match pair.1 {
                        JsonValue::Arr(a) => a,
                        _ => vstd::pervasive::unreached(),
                    }
                },
                None => {
                    match find_array_binding(&fields, "results") {
                        Some(i) => {
                            let pair = fields.remove(i);
                            match pair.1 {
                                JsonValue::Arr(a) => a,
                                _ => vstd::pervasive::unreached(),
                            }
                        },
                        None => {
                            vec![JsonValue::Obj(fields)]
                        },
                    }
                },
            }
        },
        other => {
            vec![other]
        },
    }
}

/// The candidate keys probed for the natural key.
pub open spec fn id_keys() -> Seq<Seq<char>> {
    seq!["dataset_id"@, "id"@, "uuid"@, "studyId"@, "accession"@, "osdr_id"@]
}

/// The candidate keys probed for the title.
pub open spec fn title_keys() -> Seq<Seq<char>> {
    seq!["title"@, "name"@, "label"@]
}

/// The candidate keys probed for the status.
pub open spec fn status_keys() -> Seq<Seq<char>> {
    seq!["status"@, "state"@, "lifecycle"@]
}

/// The candidate keys probed for the external-update timestamp.
pub open spec fn updated_keys() -> Seq<Seq<char>> {
    seq!["updated"@, "updated_at"@, "modified"@, "lastUpdated"@, "timestamp"@]
}

pub open spec fn opt_view(o: Option<String>) -> Option<Seq<char>> {
    match o {
        Some(s) => Some(s@),
        None => None,
    }
}

/// How one upstream item maps to the row upserted for it.
pub open spec fn row_matches_item(r: CatalogRow, item: JsonValue, id: u64, now_ms: i64) -> bool {
    &&& r.id == id
    &&& r.inserted_at_ms == now_ms
    &&& opt_view(r.natural_key) == spec_s_pick(item, id_keys())
    &&& opt_view(r.title) == spec_s_pick(item, title_keys())
    &&& opt_view(r.status) == spec_s_pick(item, status_keys())
    &&& r.updated_at_ms == spec_t_pick(item, updated_keys())
    &&& r.raw == item
}

/// The catalog after a batch of upserts, applied left to right.
pub open spec fn spec_fold_upsert(rows: Seq<CatalogRow>, drs: Seq<CatalogRow>) -> Seq<CatalogRow>
    decreases drs.len(),
{
    if drs.len() == 0 {
        rows
    } else {
        spec_fold_upsert(spec_upsert(rows, drs[0]), drs.skip(1))
    }
}

proof fn lemma_fold_push(rows: Seq<CatalogRow>, drs: Seq<CatalogRow>, dr: CatalogRow)
    ensures
        spec_fold_upsert(rows, drs.push(dr)) == spec_upsert(spec_fold_upsert(rows, drs), dr),
    decreases drs.len(),
{
    if drs.len() == 0 {
        assert(drs.push(dr)[0] == dr);
        assert(drs.push(dr).skip(1) =~= Seq::<CatalogRow>::empty());
        assert(spec_fold_upsert(rows, drs.push(dr)) == spec_fold_upsert(
            spec_upsert(rows, dr),
            drs.push(dr).skip(1),
        ));
        assert(spec_fold_upsert(spec_upsert(rows, dr), Seq::<CatalogRow>::empty()) == spec_upsert(
            rows,
            dr,
        ));
        assert(spec_fold_upsert(rows, drs) == rows);
    } else {
        assert(drs.push(dr)[0] == drs[0]);
        assert(drs.push(dr).skip(1) =~= drs.skip(1).push(dr));
        assert(spec_fold_upsert(rows, drs.push(dr)) == spec_fold_upsert(
            spec_upsert(rows, drs[0]),
            drs.skip(1).push(dr),
        ));
        lemma_fold_push(spec_upsert(rows, drs[0]), drs.skip(1), dr);
        assert(spec_fold_upsert(rows, drs) == spec_fold_upsert(
            spec_upsert(rows, drs[0]),
            drs.skip(1),
        ));
    }
}

/// Applies one upstream batch to the catalog. Each item is processed in
/// order: its natural key, title, status and update timestamp are
/// extracted by ordered-candidate probing and upserted together with
/// the raw item. Succeeds exactly when the identity space suffices, and
/// then reports the number of items processed; otherwise the catalog is
/// left untouched and a storage error is reported.
pub fn sync_catalog(catalog: &mut Catalog, body: JsonValue, now_ms: i64) -> (r: Result<
    usize,
    ApiError,
>)
    requires
        old(catalog).wf(),
    ensures
        final(catalog).wf(),
        match r {
            Ok(written) => {
                &&& written == spec_items(body).len()
                &&& old(catalog).spec_next_id() + spec_items(body).len() <= u64::MAX
                &&& final(catalog).spec_next_id() == old(catalog).spec_next_id() + spec_items(
                    body,
                ).len()
                &&& exists|drs: Seq<CatalogRow>|
                    {
                        &&& drs.len() == spec_items(body).len()
                        &&& (forall|i: int|
                            0 <= i < drs.len() ==> row_matches_item(
                                #[trigger] drs[i],
                                spec_items(body)[i],
                                (old(catalog).spec_next_id() + i) as u64,
                                now_ms,
                            ))
                        &&& final(catalog).rows() == spec_fold_upsert(old(catalog).rows(), drs)
                    }
            },
            Err(e) => {
                &&& old(catalog).spec_next_id() + spec_items(body).len() > u64::MAX
                &&& *final(catalog) == *old(catalog)
                &&& e.ok == false
                &&& e.error.code@ == "DATABASE_ERROR"@
            },
        },
{
    let ghost rows0 = catalog.rows();
    let ghost next0 = catalog.spec_next_id();
    let mut items = extract_items(body);
    let ghost items0 = items@;
    let count = items.len();
    if !catalog.has_capacity(count) {
        return Err(ApiError::database("catalog identity space exhausted"));
    }
    let mut written: usize = 0;
    let ghost mut drs: Seq<CatalogRow> = Seq::empty();
    proof {
        assert(items0.skip(0) =~= items0);
    }
    while written < count
        invariant
            written <= count,
            count == items0.len(),
            items@ == items0.skip(written as int),
            catalog.wf(),
            next0 + count <= u64::MAX,
            catalog.spec_next_id() == next0 + written,
            drs.len() == written,
            forall|i: int|
                0 <= i < drs.len() ==> row_matches_item(
                    #[trigger] drs[i],
                    items0[i],
                    (next0 + i) as u64,
                    now_ms,
                ),
            catalog.rows() == spec_fold_upsert(rows0, drs),
        decreases count - written,
    {
        let item = items.remove(0);
        proof {
            assert(items0.skip(written as int)[0] == items0[written as int]);
            assert(items0.skip(written as int).skip(1) =~= items0.skip(written as int + 1));
        }
        let id_ks: [&str; 6] = ["dataset_id", "id", "uuid", "studyId", "accession", "osdr_id"];
        let title_ks: [&str; 3] = ["title", "name", "label"];
        let status_ks: [&str; 3] = ["status", "state", "lifecycle"];
        let updated_ks: [&str; 5] = ["updated", "updated_at", "modified", "lastUpdated",
            "timestamp"];
        proof {
            assert(key_views(id_ks@) =~= id_keys());
            assert(key_views(title_ks@) =~= title_keys());
            assert(key_views(status_ks@) =~= status_keys());
            assert(key_views(updated_ks@) =~= updated_keys());
        }
        let natural_key = s_pick(&item, id_ks.as_slice());
        let title = s_pick(&item, title_ks.as_slice());
        let status = s_pick(&item, status_ks.as_slice());
        let updated_at_ms = t_pick(&item, updated_ks.as_slice());
        let ghost dr = CatalogRow {
            id: catalog.spec_next_id(),
            natural_key,
            title,
            status,
            updated_at_ms,
            inserted_at_ms: now_ms,
            raw: item,
        };
        proof {
            assert(row_matches_item(dr, items0[written as int], (next0 + written) as u64, now_ms));
        }
        let ghost rows_before = catalog.rows();
        catalog.upsert(natural_key, title, status, updated_at_ms, item, now_ms);
        proof {
            assert(catalog.rows() == spec_upsert(rows_before, dr));
            lemma_fold_push(rows0, drs, dr);
            drs = drs.push(dr);
        }
        written += 1;
    }
    proof {
        assert(drs.len() == spec_items(body).len());
        assert(catalog.rows() == spec_fold_upsert(rows0, drs));
    }
    Ok(written)
}

} // verus!
