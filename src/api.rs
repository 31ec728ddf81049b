//! The library's entry points: listing the reconciled records of a profile
//! and planning their deletion.

use vstd::prelude::*;
use crate::database::{
    list_entries, spec_merge_entries, process_workspace_rows, all_distinct_sources, distinct_sources,
    merge_entries_keeps_sources_distinct, merge_keeps_sources_distinct,
};
use crate::error::WorkspaceError;
use crate::models::{Workspace, RecordView, SourceView, record_views};
use crate::storage::{StorageEntry, storage_record, storage_records, storage_ids, record_ids, get_workspaces_from_storage};
use crate::text::has_prefix;
use crate::zed::{
    ZedSource, ZedRow, spec_merge_zed, spec_merge_zed_rows, spec_merge_zed_row, merge_zed_sources, zed_path, zed_last_used,
};

verus! {

/// One key-value store holding a recently-opened list.
pub struct DatabaseSource {
    /// The store's path under the profile, e.g. `User/state.vscdb`.
    pub locator: String,
    /// The stored list's text; `None` where the store, its table or its key
    /// is missing or could not be read.
    pub contents: Option<String>,
}

/// Whether a store contributes: its list was read and has the expected
/// shape.
pub open spec fn database_ok(db: DatabaseSource) -> bool {
    match db.contents {
        Some(t) => list_entries(t@) is Some,
        None => false,
    }
}

/// The records after merging every contributing store, in order.
pub open spec fn spec_merge_databases(recs: Seq<RecordView>, dbs: Seq<DatabaseSource>) -> Seq<RecordView>
    decreases dbs.len(),
{
    if dbs.len() == 0 {
        recs
    } else {
        let next = match dbs[0].contents {
            Some(t) => match list_entries(t@) {
                Some(es) => spec_merge_entries(recs, es, SourceView::Database(dbs[0].locator@)),
                None => recs,
            },
            None => recs,
        };
        spec_merge_databases(next, dbs.drop_first())
    }
}

/// `x` inserted into `s` after every record used at least as recently.
pub open spec fn insert_desc(s: Seq<RecordView>, x: RecordView) -> Seq<RecordView>
    decreases s.len(),
{
    if s.len() == 0 {
        seq![x]
    } else if s[0].last_used < x.last_used {
        seq![x] + s
    } else {
        seq![s[0]] + insert_desc(s.drop_first(), x)
    }
}

/// `s` stably sorted by `last_used`, most recent first: records used at the
/// same time keep their order.
pub open spec fn sort_desc(s: Seq<RecordView>) -> Seq<RecordView>
    decreases s.len(),
{
    if s.len() == 0 {
        s
    } else {
        insert_desc(sort_desc(s.drop_last()), s.last())
    }
}

/// The reconciled records before sorting: the metadata files' records, the
/// stores' lists merged in, then the editor's channels.
pub open spec fn spec_reconcile(storage: Seq<StorageEntry>, dbs: Seq<DatabaseSource>, zs: Seq<ZedSource>) -> Seq<RecordView> {
    spec_merge_zed(spec_merge_databases(storage_records(storage), dbs), zs)
}

/// A reconciled record's id: the directory name of the metadata file it
/// came from, or a generated one namespaced `db-` or `zed-` by the source
/// that created it.
pub open spec fn id_from_sources(w: Workspace, storage_ids: Seq<Seq<char>>) -> bool {
    storage_ids.contains(w.id@) || has_prefix(w.id@, "db-"@) || has_prefix(w.id@, "zed-"@)
}

/// The metadata files that the scan found; none where it failed.
pub open spec fn storage_seq(storage: Option<Vec<StorageEntry>>) -> Seq<StorageEntry> {
    match storage {
        Some(s) => s@,
        None => Seq::empty(),
    }
}

/// Whether at least one source could be read.
pub open spec fn any_source_read(storage: Option<Vec<StorageEntry>>, dbs: Seq<DatabaseSource>, zs: Seq<ZedSource>) -> bool {
    storage is Some
        || (exists|i: int| 0 <= i < dbs.len() && database_ok(#[trigger] dbs[i]))
        || (exists|i: int| 0 <= i < zs.len() && (#[trigger] zs[i]).rows is Some)
}

proof fn lemma_insert_desc_at(s: Seq<RecordView>, x: RecordView, p: int)
    requires
        0 <= p <= s.len(),
        forall|j: int| 0 <= j < p ==> s[j].last_used >= x.last_used,
        p < s.len() ==> s[p].last_used < x.last_used,
    ensures
        insert_desc(s, x) == s.insert(p, x),
    decreases p,
{
    if p == 0 {
        if s.len() > 0 {
            assert(seq![x] + s =~= s.insert(0, x));
        } else {
            assert(seq![x] =~= s.insert(0, x));
        }
    } else {
        let t = s.drop_first();
        assert forall|j: int| 0 <= j < p - 1 implies t[j].last_used >= x.last_used by {
            assert(t[j] == s[j + 1]);
        }
        lemma_insert_desc_at(t, x, p - 1);
        assert(seq![s[0]] + t.insert(p - 1, x) =~= s.insert(p, x));
    }
}

/// Sorts records by `last_used`, most recent first, keeping the order of
/// records used at the same time.
pub fn sort_by_last_used(v: Vec<Workspace>) -> (r: Vec<Workspace>)
    ensures
        record_views(r@) == sort_desc(record_views(v@)),
        forall|i: int| 0 <= i < r@.len() ==> v@.contains(#[trigger] r@[i]),
{
    let ghost orig = record_views(v@);
    let ghost vw = v@;
    let mut rest = v;
    let mut out: Vec<Workspace> = Vec::new();
    let mut n: usize = 0;
    let ghost len = orig.len();
    assert(orig.skip(0) =~= orig);
    let total = rest.len();
    assert(len == total);
    assert(record_views(out@) =~= sort_desc(orig.take(0)));
    while rest.len() > 0
        invariant
            n + rest.len() == len,
            len == orig.len(),
            len <= usize::MAX,
            record_views(rest@) == orig.skip(n as int),
            record_views(out@) == sort_desc(orig.take(n as int)),
            forall|k: int| 0 <= k < rest@.len() ==> vw.contains(#[trigger] rest@[k]),
            forall|k: int| 0 <= k < out@.len() ==> vw.contains(#[trigger] out@[k]),
        decreases rest.len(),
    {
        let ghost rb = rest@;
        let x = rest.remove(0);
        assert(rest@ =~= rb.drop_first());
        assert(vw.contains(rb[0]));
        assert forall|k: int| 0 <= k < rest@.len() implies vw.contains(#[trigger] rest@[k]) by {
            assert(rest@[k] == rb[k + 1]);
        }
        assert(record_views(rb)[0] == x@);
        assert(orig.skip(n as int)[0] == x@);
        assert forall|k: int| 0 <= k < rest@.len() implies #[trigger] record_views(rest@)[k] == orig.skip(n + 1)[k] by {
            assert(record_views(rest@)[k] == rb[k + 1]@);
            assert(record_views(rb)[k + 1] == rb[k + 1]@);
            assert(orig.skip(n as int)[k + 1] == orig.skip(n + 1)[k]);
        }
        assert(record_views(rest@) =~= orig.skip(n + 1));
        let mut p: usize = 0;
        while p < out.len() && out[p].last_used >= x.last_used
            invariant
                p <= out.len(),
                forall|j: int| 0 <= j < p ==> out@[j].last_used >= x.last_used,
            decreases out.len() - p,
        {
            p = p + 1;
        }
        proof {
            let ov = record_views(out@);
            assert forall|j: int| 0 <= j < p implies ov[j].last_used >= x@.last_used by {
                assert(ov[j] == out@[j]@);
            }
            lemma_insert_desc_at(ov, x@, p as int);
            assert(orig.take(n + 1).drop_last() =~= orig.take(n as int));
            assert(orig.take(n + 1).last() == x@);
        }
        let ghost before = out@;
        out.insert(p, x);
        assert(record_views(out@) =~= record_views(before).insert(p as int, x@));
        assert forall|k: int| 0 <= k < out@.len() implies vw.contains(#[trigger] out@[k]) by {
            if k < p {
                assert(out@[k] == before[k]);
            } else if k > p {
                assert(out@[k] == before[k - 1]);
            }
        }
        n = n + 1;
    }
    assert(orig.take(n as int) =~= orig);
    out
}

fn merge_databases(databases: &Vec<DatabaseSource>, records: &mut Vec<Workspace>) -> (any_ok: bool)
    ensures
        record_views(final(records)@) == spec_merge_databases(record_views(old(records)@), databases@),
        any_ok == exists|i: int| 0 <= i < databases@.len() && database_ok(#[trigger] databases@[i]),
        old(records)@.len() <= final(records)@.len(),
        forall|i: int| 0 <= i < old(records)@.len() ==> (#[trigger] final(records)@[i]).id == old(records)@[i].id,
        forall|i: int| old(records)@.len() <= i < final(records)@.len() ==> has_prefix((#[trigger] final(records)@[i]).id@, "db-"@),
{
    let ghost start = record_views(records@);
    let ghost start_ws = records@;
    let mut ok = false;
    let mut i: usize = 0;
    assert(databases@.skip(0) =~= databases@);
    while i < databases.len()
        invariant
            i <= databases.len(),
            spec_merge_databases(record_views(records@), databases@.skip(i as int))
                == spec_merge_databases(start, databases@),
            ok == exists|j: int| 0 <= j < i && database_ok(#[trigger] databases@[j]),
            start_ws.len() <= records@.len(),
            forall|k: int| 0 <= k < start_ws.len() ==> (#[trigger] records@[k]).id == start_ws[k].id,
            forall|k: int| start_ws.len() <= k < records@.len() ==> has_prefix((#[trigger] records@[k]).id@, "db-"@),
        decreases databases.len() - i,
    {
        let ghost before = records@;
        assert(databases@.skip(i as int).drop_first() =~= databases@.skip(i + 1));
        assert(databases@.skip(i as int)[0] == databases@[i as int]);
        let db = &databases[i];
        if let Some(text) = &db.contents {
            if let Ok(_) = process_workspace_rows(text.as_str(), records, db.locator.as_str()) {
                ok = true;
            }
            assert forall|k: int| start_ws.len() <= k < records@.len() implies has_prefix((#[trigger] records@[k]).id@, "db-"@) by {
                if k < before.len() {
                    assert(records@[k].id == before[k].id);
                }
            }
        }
        i = i + 1;
    }
    assert(databases@.skip(i as int) =~= Seq::<DatabaseSource>::empty());
    ok
}

fn any_rows(channels: &Vec<ZedSource>) -> (r: bool)
    ensures
        r == exists|i: int| 0 <= i < channels@.len() && (#[trigger] channels@[i]).rows is Some,
{
    let mut i: usize = 0;
    while i < channels.len()
        invariant
            i <= channels.len(),
            forall|j: int| 0 <= j < i ==> (#[trigger] channels@[j]).rows is None,
        decreases channels.len() - i,
    {
        if channels[i].rows.is_some() {
            return true;
        }
        i = i + 1;
    }
    false
}

/// Reconciles every source of a profile into one list of records, most
/// recently used first. The metadata files give the baseline records; each
/// store's list and then each channel of the third-party editor is merged
/// in. A source that could not be read, or has an unexpected shape,
/// contributes nothing; only where no source could be read is the result an
/// error.
pub fn get_workspaces(
    storage: &Option<Vec<StorageEntry>>,
    databases: &Vec<DatabaseSource>,
    external: &Vec<ZedSource>,
) -> (r: Result<Vec<Workspace>, WorkspaceError>)
    ensures
        any_source_read(*storage, databases@, external@) <==> r is Ok,
        r is Err ==> r->Err_0 is Database,
        r is Ok ==> record_views(r->Ok_0@) == sort_desc(spec_reconcile(
            match *storage {
                Some(s) => s@,
                None => Seq::empty(),
            },
            databases@,
            external@,
        )),
        r is Ok ==> forall|i: int| 0 <= i < r->Ok_0@.len() ==> id_from_sources(
            #[trigger] r->Ok_0@[i],
            storage_ids(storage_seq(*storage)),
        ),
{
    let mut records = match storage {
        Some(entries) => get_workspaces_from_storage(entries),
        None => Vec::new(),
    };
    proof {
        if storage is None {
            assert(record_views(records@) =~= storage_records(Seq::empty()));
        }
    }
    let ghost sids = storage_ids(storage_seq(*storage));
    proof {
        if storage is None {
            assert(records@.len() == 0);
        }
        assert forall|k: int| 0 <= k < records@.len() implies id_from_sources(#[trigger] records@[k], sids) by {
            assert(record_ids(records@)[k] == records@[k].id@);
        }
    }
    let ghost r0 = records@;
    let db_ok = merge_databases(databases, &mut records);
    let ghost r1 = records@;
    assert forall|k: int| 0 <= k < r1.len() implies id_from_sources(#[trigger] r1[k], sids) by {
        if k < r0.len() {
            assert(r1[k].id == r0[k].id);
            assert(id_from_sources(r0[k], sids));
        }
    }
    merge_zed_sources(external, &mut records);
    assert forall|k: int| 0 <= k < records@.len() implies id_from_sources(#[trigger] records@[k], sids) by {
        if k < r1.len() {
            assert(records@[k].id == r1[k].id);
            assert(id_from_sources(r1[k], sids));
        }
    }
    let zed_ok = any_rows(external);
    if storage.is_none() && !db_ok && !zed_ok {
        return Err(WorkspaceError::Database("no source could be read".to_string()));
    }
    let ghost unsorted = records@;
    let sorted = sort_by_last_used(records);
    assert forall|k: int| 0 <= k < sorted@.len() implies id_from_sources(#[trigger] sorted@[k], sids) by {
        let j = choose|j: int| 0 <= j < unsorted.len() && unsorted[j] == sorted@[k];
        assert(id_from_sources(unsorted[j], sids));
    }
    Ok(sorted)
}

proof fn lemma_storage_distinct(es: Seq<StorageEntry>)
    ensures
        all_distinct_sources(storage_records(es)),
    decreases es.len(),
{
    if es.len() > 0 {
        lemma_storage_distinct(es.drop_last());
        let prev = storage_records(es.drop_last());
        let tail: Seq<RecordView> = match storage_record(es.last()) {
            Some(r) => seq![r],
            None => Seq::empty(),
        };
        assert forall|i: int| 0 <= i < storage_records(es).len() implies distinct_sources(#[trigger] storage_records(es)[i]) by {
            if i < prev.len() {
                assert(storage_records(es)[i] == prev[i]);
            } else {
                assert(storage_records(es)[i] == tail[i - prev.len()]);
            }
        }
    }
}

proof fn lemma_databases_distinct(recs: Seq<RecordView>, dbs: Seq<DatabaseSource>)
    requires
        all_distinct_sources(recs),
    ensures
        all_distinct_sources(spec_merge_databases(recs, dbs)),
    decreases dbs.len(),
{
    if dbs.len() > 0 {
        let next = match dbs[0].contents {
            Some(t) => match list_entries(t@) {
                Some(es) => spec_merge_entries(recs, es, SourceView::Database(dbs[0].locator@)),
                None => recs,
            },
            None => recs,
        };
        if let Some(t) = dbs[0].contents {
            if let Some(es) = list_entries(t@) {
                merge_entries_keeps_sources_distinct(recs, es, SourceView::Database(dbs[0].locator@));
            }
        }
        lemma_databases_distinct(next, dbs.drop_first());
    }
}

proof fn lemma_zed_rows_distinct(recs: Seq<RecordView>, rows: Seq<ZedRow>, channel: Seq<char>)
    requires
        all_distinct_sources(recs),
    ensures
        all_distinct_sources(spec_merge_zed_rows(recs, rows, channel)),
    decreases rows.len(),
{
    if rows.len() > 0 {
        if let Some(p) = zed_path(rows[0]) {
            merge_keeps_sources_distinct(recs, p, Seq::empty(), zed_last_used(rows[0]), SourceView::Zed(channel));
        }
        lemma_zed_rows_distinct(spec_merge_zed_row(recs, rows[0], channel), rows.drop_first(), channel);
    }
}

proof fn lemma_zed_distinct(recs: Seq<RecordView>, zs: Seq<ZedSource>)
    requires
        all_distinct_sources(recs),
    ensures
        all_distinct_sources(spec_merge_zed(recs, zs)),
    decreases zs.len(),
{
    if zs.len() > 0 {
        let next = match zs[0].rows {
            Some(rows) => spec_merge_zed_rows(recs, rows@, zs[0].channel@),
            None => recs,
        };
        if let Some(rows) = zs[0].rows {
            lemma_zed_rows_distinct(recs, rows@, zs[0].channel@);
        }
        lemma_zed_distinct(next, zs.drop_first());
    }
}

proof fn lemma_insert_desc_members(s: Seq<RecordView>, x: RecordView)
    ensures
        insert_desc(s, x).len() == s.len() + 1,
        forall|i: int| 0 <= i < insert_desc(s, x).len()
            ==> #[trigger] insert_desc(s, x)[i] == x || s.contains(insert_desc(s, x)[i]),
    decreases s.len(),
{
    if s.len() > 0 && !(s[0].last_used < x.last_used) {
        lemma_insert_desc_members(s.drop_first(), x);
        let t = insert_desc(s.drop_first(), x);
        assert forall|i: int| 0 <= i < insert_desc(s, x).len()
            implies #[trigger] insert_desc(s, x)[i] == x || s.contains(insert_desc(s, x)[i]) by {
            if i == 0 {
                assert(s.contains(s[0]));
            } else {
                assert(insert_desc(s, x)[i] == t[i - 1]);
                if t[i - 1] != x {
                    let k = choose|k: int| 0 <= k < s.drop_first().len() && s.drop_first()[k] == t[i - 1];
                    assert(s[k + 1] == t[i - 1]);
                }
            }
        }
    } else if s.len() > 0 {
        assert forall|i: int| 0 <= i < insert_desc(s, x).len()
            implies #[trigger] insert_desc(s, x)[i] == x || s.contains(insert_desc(s, x)[i]) by {
            if i > 0 {
                assert(insert_desc(s, x)[i] == s[i - 1]);
            }
        }
    }
}

proof fn lemma_sort_distinct(s: Seq<RecordView>)
    requires
        all_distinct_sources(s),
    ensures
        all_distinct_sources(sort_desc(s)),
    decreases s.len(),
{
    if s.len() > 0 {
        assert(all_distinct_sources(s.drop_last())) by {
            assert forall|i: int| 0 <= i < s.drop_last().len() implies distinct_sources(#[trigger] s.drop_last()[i]) by {
                assert(s.drop_last()[i] == s[i]);
            }
        }
        lemma_sort_distinct(s.drop_last());
        let t = sort_desc(s.drop_last());
        lemma_insert_desc_members(t, s.last());
        assert(distinct_sources(s.last())) by {
            assert(s.last() == s[s.len() - 1]);
        }
        assert forall|i: int| 0 <= i < sort_desc(s).len() implies distinct_sources(#[trigger] sort_desc(s)[i]) by {
            let r = sort_desc(s)[i];
            if r != s.last() {
                assert(t.contains(r));
                let k = choose|k: int| 0 <= k < t.len() && t[k] == r;
                assert(distinct_sources(t[k]));
            }
        }
    }
}

/// No reconciled record holds the same source twice, and so none holds two
/// entries for the same store.
pub proof fn reconciled_records_have_distinct_sources(storage: Seq<StorageEntry>, dbs: Seq<DatabaseSource>, zs: Seq<ZedSource>)
    ensures
        all_distinct_sources(sort_desc(spec_reconcile(storage, dbs, zs))),
{
    lemma_storage_distinct(storage);
    lemma_databases_distinct(storage_records(storage), dbs);
    lemma_zed_distinct(spec_merge_databases(storage_records(storage), dbs), zs);
    lemma_sort_distinct(spec_reconcile(storage, dbs, zs));
}

/// Records are in order of `last_used`, most recent first.
pub open spec fn sorted_desc(s: Seq<RecordView>) -> bool {
    forall|i: int, j: int| 0 <= i < j < s.len() ==> s[i].last_used >= s[j].last_used
}

proof fn lemma_insert_desc_sorted(s: Seq<RecordView>, x: RecordView)
    requires
        sorted_desc(s),
    ensures
        sorted_desc(insert_desc(s, x)),
        insert_desc(s, x).len() == s.len() + 1,
        insert_desc(s, x).len() > 0,
        insert_desc(s, x)[0] == x || (s.len() > 0 && insert_desc(s, x)[0] == s[0]),
    decreases s.len(),
{
    if s.len() == 0 {
    } else if s[0].last_used < x.last_used {
        let r = seq![x] + s;
        assert forall|i: int, j: int| 0 <= i < j < r.len() implies r[i].last_used >= r[j].last_used by {
            if i == 0 {
                assert(r[j] == s[j - 1]);
                if j - 1 > 0 {
                    assert(s[0].last_used >= s[j - 1].last_used);
                }
            } else {
                assert(r[i] == s[i - 1] && r[j] == s[j - 1]);
            }
        }
    } else {
        let t = s.drop_first();
        assert(sorted_desc(t)) by {
            assert forall|i: int, j: int| 0 <= i < j < t.len() implies t[i].last_used >= t[j].last_used by {
                assert(t[i] == s[i + 1] && t[j] == s[j + 1]);
            }
        }
        lemma_insert_desc_sorted(t, x);
        let it = insert_desc(t, x);
        let r = seq![s[0]] + it;
        assert forall|i: int, j: int| 0 <= i < j < r.len() implies r[i].last_used >= r[j].last_used by {
            if i == 0 {
                assert(r[j] == it[j - 1]);
                lemma_insert_desc_members(t, x);
                if it[j - 1] != x {
                    let k = choose|k: int| 0 <= k < t.len() && t[k] == it[j - 1];
                    assert(t[k] == s[k + 1]);
                }
            } else {
                assert(r[i] == it[i - 1] && r[j] == it[j - 1]);
            }
        }
    }
}

/// Reconciliation lists records most recently used first.
pub proof fn sort_puts_most_recent_first(s: Seq<RecordView>)
    ensures
        sorted_desc(sort_desc(s)),
        sort_desc(s).len() == s.len(),
    decreases s.len(),
{
    if s.len() > 0 {
        sort_puts_most_recent_first(s.drop_last());
        lemma_insert_desc_sorted(sort_desc(s.drop_last()), s.last());
    }
}

} // verus!
