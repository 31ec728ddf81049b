//! The per-project metadata files: the first pass of reconciliation.

use vstd::prelude::*;
use crate::json::{json_parsed, parse_json};
use crate::models::{Workspace, WorkspaceSource, RecordView, SourceView, record_views, source_views};
use crate::parser::str_field;
use crate::paths::{normalize_path, spec_normalize};
use crate::text::{chars_of, string_of};

verus! {

/// One per-project metadata file, as the storage scan found it.
pub struct StorageEntry {
    /// The file's JSON text.
    pub content: String,
    /// The file's path under the profile, e.g.
    /// `workspaceStorage/<id>/workspace.json`.
    pub locator: String,
    /// The name of the directory that holds the file.
    pub id: String,
    /// The file's modification time, in milliseconds since the epoch.
    pub mtime_ms: i64,
}

/// The record that a metadata file yields: keyed by the canonical form of
/// its `folder` URI, last used at the file's modification time; none where
/// the file is not JSON or has no `folder` string.
pub open spec fn storage_record(e: StorageEntry) -> Option<RecordView> {
    match json_parsed(e.content@) {
        Some(doc) => match str_field(doc, "folder"@) {
            Some(f) => Some(RecordView {
                name: None,
                path: spec_normalize(f),
                last_used: e.mtime_ms,
                storage_path: Some(e.locator@),
                sources: seq![SourceView::Storage(e.locator@)],
            }),
            None => None,
        },
        None => None,
    }
}

/// The records that a list of metadata files yields, in order.
pub open spec fn storage_records(es: Seq<StorageEntry>) -> Seq<RecordView>
    decreases es.len(),
{
    if es.len() == 0 {
        Seq::empty()
    } else {
        storage_records(es.drop_last()) + match storage_record(es.last()) {
            Some(r) => seq![r],
            None => Seq::empty(),
        }
    }
}

/// The ids of the records that a list of metadata files yields, in order:
/// the name of each contributing file's directory.
pub open spec fn storage_ids(es: Seq<StorageEntry>) -> Seq<Seq<char>>
    decreases es.len(),
{
    if es.len() == 0 {
        Seq::empty()
    } else {
        storage_ids(es.drop_last()) + match storage_record(es.last()) {
            Some(_) => seq![es.last().id@],
            None => Seq::empty(),
        }
    }
}

/// The ids of a list of records.
pub open spec fn record_ids(ws: Seq<Workspace>) -> Seq<Seq<char>> {
    ws.map_values(|w: Workspace| w.id@)
}

/// Builds the baseline records from the metadata files, in order; a file
/// that is not JSON or names no folder contributes nothing. Each record's
/// id is the name of its file's directory.
pub fn get_workspaces_from_storage(entries: &Vec<StorageEntry>) -> (r: Vec<Workspace>)
    ensures
        record_views(r@) == storage_records(entries@),
        record_ids(r@) == storage_ids(entries@),
        forall|i: int| 0 <= i < r@.len() ==> (#[trigger] r@[i]).parsed_info is None,
{
    let mut out: Vec<Workspace> = Vec::new();
    let mut i: usize = 0;
    while i < entries.len()
        invariant
            i <= entries.len(),
            record_views(out@) == storage_records(entries@.take(i as int)),
            record_ids(out@) == storage_ids(entries@.take(i as int)),
            forall|k: int| 0 <= k < out@.len() ==> (#[trigger] out@[k]).parsed_info is None,
        decreases entries.len() - i,
    {
        let e = &entries[i];
        assert(entries@.take(i + 1).drop_last() =~= entries@.take(i as int));
        assert(entries@.take(i + 1).last() == entries@[i as int]);
        if let Some(doc) = parse_json(e.content.as_str()) {
            if let Some(v) = doc.get("folder") {
                if let Some(folder) = v.as_str() {
                    let mut sources: Vec<WorkspaceSource> = Vec::new();
                    sources.push(WorkspaceSource::Storage(e.locator.clone()));
                    assert(source_views(sources@) =~= seq![SourceView::Storage(e.locator@)]);
                    let w = Workspace {
                        id: e.id.clone(),
                        name: None,
                        path: normalize_path(folder.as_str()),
                        last_used: e.mtime_ms,
                        storage_path: Some(e.locator.clone()),
                        sources,
                        parsed_info: None,
                    };
                    let ghost before = out@;
                    out.push(w);
                    assert(record_views(out@) =~= record_views(before).push(w@));
                    assert(record_ids(out@) =~= record_ids(before).push(e.id@));
                }
            }
        }
        i = i + 1;
        assert(record_views(out@) =~= storage_records(entries@.take(i as int)));
        assert(record_ids(out@) =~= storage_ids(entries@.take(i as int)));
    }
    assert(entries@.take(entries.len() as int) =~= entries@);
    out
}

/// Position of the first occurrence of `n` in `h`.
pub open spec fn find_sub(h: Seq<char>, n: Seq<char>) -> Option<int>
    decreases h.len(),
{
    if n.len() > h.len() {
        None
    } else if h.take(n.len() as int) == n {
        Some(0)
    } else if h.len() == 0 {
        None
    } else {
        match find_sub(h.drop_first(), n) {
            Some(i) => Some(i + 1),
            None => None,
        }
    }
}

fn find_sub_exec(h: &[char], n: &[char]) -> (r: Option<usize>)
    ensures
        match r {
            Some(i) => find_sub(h@, n@) == Some(i as int) && i + n@.len() <= h@.len(),
            None => find_sub(h@, n@) is None,
        },
{
    let mut i: usize = 0;
    assert(h@.skip(0) =~= h@);
    loop
        invariant
            i <= h.len(),
            find_sub(h@, n@) == match find_sub(h@.skip(i as int), n@) {
                Some(k) => Some(k + i),
                None => None::<int>,
            },
        decreases h.len() - i,
    {
        let rest = crate::text::slice_vec(h, i, h.len());
        assert(rest@ =~= h@.skip(i as int));
        if n.len() > rest.len() {
            return None;
        }
        let head = crate::text::slice_vec(&rest, 0, n.len());
        assert(head@ =~= rest@.take(n@.len() as int));
        if crate::text::chars_eq(&head, n) {
            return Some(i);
        }
        if rest.len() == 0 {
            return None;
        }
        assert(h@.skip(i as int).drop_first() =~= h@.skip(i + 1));
        i = i + 1;
    }
}

/// The path of a metadata file under the profile, from its full path: from
/// the first `workspaceStorage` on, up to the next one (all of the rest
/// where there is none); the full path where it holds no
/// `workspaceStorage`.
pub open spec fn storage_locator_of(p: Seq<char>) -> Seq<char> {
    let m = "workspaceStorage"@;
    match find_sub(p, m) {
        Some(i) => {
            let rest = p.skip(i + m.len());
            m + match find_sub(rest, m) {
                Some(j) => rest.take(j),
                None => rest,
            }
        },
        None => p,
    }
}

/// Works out the path of a metadata file under the profile; see
/// `storage_locator_of`.
pub fn storage_locator(file_path: &str) -> (r: String)
    ensures
        r@ == storage_locator_of(file_path@),
{
    let p = chars_of(file_path);
    let m = chars_of("workspaceStorage");
    match find_sub_exec(&p, &m) {
        Some(i) => {
            assert(i + m@.len() <= p@.len());
            assert(i + m.len() <= p.len());
            let rest = crate::text::slice_vec(&p, i + m.len(), p.len());
            assert(rest@ =~= p@.skip(i + m@.len()));
            let mut out = crate::text::slice_vec(&m, 0, m.len());
            assert(out@ =~= m@);
            match find_sub_exec(&rest, &m) {
                Some(j) => {
                    let part = crate::text::slice_vec(&rest, 0, j);
                    assert(part@ =~= rest@.take(j as int));
                    crate::text::push_all(&mut out, &part);
                },
                None => {
                    crate::text::push_all(&mut out, &rest);
                },
            }
            string_of(&out)
        },
        None => file_path.to_string(),
    }
}

} // verus!
