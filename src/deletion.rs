//! Deletion engine: undoes reconciliation against each source of a record.
//! The library decides what to remove and computes the rewritten list; the
//! caller performs the removals and writes.

use vstd::prelude::*;
use crate::json::{Json, json_parsed, json_rendered, parse_json, render_json};
use crate::models::{Workspace, WorkspaceSource, SourceView, RecordView};
use crate::parser::{str_field, or_else, opt_view};
use crate::paths::{normalize_path, spec_normalize};
use crate::text::{chars_of, string_of, push_all};

verus! {

/// The path by which a list entry is matched on deletion: its `folderUri`,
/// else the `uri` or `configPath` of its `workspace` object.
pub open spec fn delete_identity(e: Json) -> Option<Seq<char>> {
    match str_field(e, "folderUri"@) {
        Some(p) => Some(p),
        None => match e.field("workspace"@) {
            Some(w) => or_else(str_field(w, "uri"@), str_field(w, "configPath"@)),
            None => None,
        },
    }
}

/// Whether a list entry names the record whose canonical path is `canon`.
pub open spec fn entry_matches(e: Json, canon: Seq<char>) -> bool {
    match delete_identity(e) {
        Some(p) => spec_normalize(p) == canon,
        None => false,
    }
}

/// The entries that do not name `canon`, in order.
pub open spec fn keep_unmatched(es: Seq<Json>, canon: Seq<char>) -> Seq<Json>
    decreases es.len(),
{
    if es.len() == 0 {
        es
    } else {
        (if entry_matches(es[0], canon) { Seq::empty() } else { seq![es[0]] }) + keep_unmatched(es.drop_first(), canon)
    }
}

/// Position of the first member named `key`.
pub open spec fn member_index(m: Seq<(String, Json)>, key: Seq<char>) -> Option<int>
    decreases m.len(),
{
    if m.len() == 0 {
        None
    } else if m[0].0@ == key {
        Some(0)
    } else {
        match member_index(m.drop_first(), key) {
            Some(k) => Some(k + 1),
            None => None,
        }
    }
}

/// `nd` is the list document `doc` with its `entries` array replaced by
/// `kept`, every other member unchanged.
pub open spec fn replaced_entries(doc: Json, nd: Json, kept: Seq<Json>) -> bool {
    match (doc, nd) {
        (Json::Object(m), Json::Object(m2)) => match member_index(m@, "entries"@) {
            Some(k) => m2@.len() == m@.len()
                && (forall|j: int| 0 <= j < m@.len() && j != k ==> m2@[j] == m@[j])
                && m2@[k].0 == m@[k].0
                && (match m2@[k].1 {
                    Json::Array(a) => a@ == kept,
                    _ => false,
                }),
            None => false,
        },
        _ => false,
    }
}

/// What removing a record from a stored list amounts to.
pub enum ListRewrite {
    /// Nothing in the list names the record, or the list is not a JSON
    /// object with an `entries` array: the store is left alone.
    Unchanged,
    /// The list's text with every entry that names the record removed,
    /// and how many entries were removed.
    Write(String, usize),
}

/// Removes from a stored recently-opened list every entry whose path has
/// the same canonical form as `workspace_path`. The list is rewritten only
/// where at least one entry was removed.
pub fn remove_matching_entries(list_text: &str, workspace_path: &str) -> (r: ListRewrite)
    ensures
        match json_parsed(list_text@) {
            Some(doc) => match doc.field("entries"@) {
                Some(Json::Array(a)) => {
                    let kept = keep_unmatched(a@, spec_normalize(workspace_path@));
                    if kept.len() < a@.len() {
                        r matches ListRewrite::Write(t, n) && n == a@.len() - kept.len()
                            && exists|nd: Json| replaced_entries(doc, nd, kept) && t@ == json_rendered(nd)
                    } else {
                        r is Unchanged
                    }
                },
                _ => r is Unchanged,
            },
            None => r is Unchanged,
        },
{
    let canon = normalize_path(workspace_path);
    let doc = match parse_json(list_text) {
        Some(d) => d,
        None => {
            return ListRewrite::Unchanged;
        },
    };
    let ghost doc0 = doc;
    match doc {
        Json::Object(mut members) => {
            let k = match find_member(&members, "entries") {
                Some(k) => k,
                None => {
                    proof { lemma_member_lookup(members@, "entries"@); }
                    return ListRewrite::Unchanged;
                },
            };
            proof { lemma_member_lookup(members@, "entries"@); }
            let ghost m0 = members@;
            let (key, val) = members.remove(k);
            match val {
                Json::Array(entries) => {
                    let ghost a0 = entries@;
                    let total = entries.len();
                    let kept = keep_entries(entries, &canon);
                    proof { lemma_keep_len(a0, canon@); }
                    if kept.len() < total {
                        let n = total - kept.len();
                        let ghost kv = kept@;
                        members.insert(k, (key, Json::Array(kept)));
                        let nd = Json::Object(members);
                        assert(replaced_entries(doc0, nd, kv)) by {
                            assert(members@.len() == m0.len());
                            assert forall|j: int| 0 <= j < m0.len() && j != k implies members@[j] == m0[j] by {}
                        }
                        let text = render_json(&nd);
                        ListRewrite::Write(text, n)
                    } else {
                        ListRewrite::Unchanged
                    }
                },
                _ => ListRewrite::Unchanged,
            }
        },
        _ => ListRewrite::Unchanged,
    }
}

proof fn lemma_keep_len(es: Seq<Json>, canon: Seq<char>)
    ensures
        keep_unmatched(es, canon).len() <= es.len(),
    decreases es.len(),
{
    if es.len() > 0 {
        lemma_keep_len(es.drop_first(), canon);
    }
}

proof fn lemma_member_lookup(m: Seq<(String, Json)>, key: Seq<char>)
    ensures
        match member_index(m, key) {
            Some(k) => 0 <= k < m.len() && crate::json::obj_lookup(m, key) == Some(m[k].1),
            None => crate::json::obj_lookup(m, key) is None,
        },
    decreases m.len(),
{
    if m.len() > 0 {
        lemma_member_lookup(m.drop_first(), key);
        if m[0].0@ != key {
            if let Some(k) = member_index(m.drop_first(), key) {
                assert(m.drop_first()[k] == m[k + 1]);
            }
        }
    }
}

fn find_member(m: &Vec<(String, Json)>, key: &str) -> (r: Option<usize>)
    ensures
        member_index(m@, key@) == match r {
            Some(k) => Some(k as int),
            None => None::<int>,
        },
        match r {
            Some(k) => k < m.len(),
            None => true,
        },
{
    let q = chars_of(key);
    let mut i: usize = 0;
    assert(m@.skip(0) =~= m@);
    while i < m.len()
        invariant
            i <= m.len(),
            q@ == key@,
            member_index(m@, key@) == match member_index(m@.skip(i as int), key@) {
                Some(k) => Some(k + i),
                None => None::<int>,
            },
        decreases m.len() - i,
    {
        assert(m@.skip(i as int).drop_first() =~= m@.skip(i + 1));
        assert(m@.skip(i as int)[0] == m@[i as int]);
        let k = chars_of(m[i].0.as_str());
        if crate::text::chars_eq(&k, &q) {
            return Some(i);
        }
        i = i + 1;
    }
    None
}

fn entry_matches_exec(e: &Json, canon: &String) -> (r: bool)
    ensures
        r == entry_matches(*e, canon@),
{
    let id = match crate::parser::str_field_exec(e, "folderUri") {
        Some(p) => Some(p),
        None => match e.get("workspace") {
            Some(w) => match crate::parser::str_field_exec(w, "uri") {
                Some(u) => Some(u),
                None => crate::parser::str_field_exec(w, "configPath"),
            },
            None => None,
        },
    };
    match id {
        Some(p) => normalize_path(p.as_str()) == *canon,
        None => false,
    }
}

fn keep_entries(entries: Vec<Json>, canon: &String) -> (r: Vec<Json>)
    ensures
        r@ == keep_unmatched(entries@, canon@),
{
    let ghost orig = entries@;
    let mut rest = entries;
    let mut kept: Vec<Json> = Vec::new();
    assert(kept@ + keep_unmatched(rest@, canon@) =~= keep_unmatched(orig, canon@));
    while rest.len() > 0
        invariant
            kept@ + keep_unmatched(rest@, canon@) == keep_unmatched(orig, canon@),
        decreases rest.len(),
    {
        let ghost rb = rest@;
        let e = rest.remove(0);
        assert(rest@ =~= rb.drop_first());
        if entry_matches_exec(&e, canon) {
            assert(keep_unmatched(rb, canon@) =~= keep_unmatched(rest@, canon@));
        } else {
            let ghost kb = kept@;
            kept.push(e);
            assert(kb + keep_unmatched(rb, canon@) =~= kept@ + keep_unmatched(rest@, canon@));
        }
    }
    assert(keep_unmatched(rest@, canon@) =~= Seq::<Json>::empty());
    assert(kept@ + Seq::<Json>::empty() =~= kept@);
    kept
}


/// No entry that a rewrite keeps still names the record.
pub proof fn kept_entries_never_match(es: Seq<Json>, canon: Seq<char>)
    ensures
        forall|i: int| 0 <= i < keep_unmatched(es, canon).len()
            ==> !entry_matches(#[trigger] keep_unmatched(es, canon)[i], canon),
    decreases es.len(),
{
    if es.len() > 0 {
        kept_entries_never_match(es.drop_first(), canon);
        let head: Seq<Json> = if entry_matches(es[0], canon) { Seq::empty() } else { seq![es[0]] };
        let tail = keep_unmatched(es.drop_first(), canon);
        assert(keep_unmatched(es, canon) == head + tail);
        assert forall|i: int| 0 <= i < keep_unmatched(es, canon).len()
            implies !entry_matches(#[trigger] keep_unmatched(es, canon)[i], canon) by {
            if i >= head.len() {
                assert(keep_unmatched(es, canon)[i] == tail[i - head.len()]);
            }
        }
    }
}

/// One removal that deleting records asks of the caller.
pub enum DeletionStep {
    /// Remove this directory and everything in it; a missing directory
    /// counts as removed.
    RemoveDir(String),
    /// Remove from the list in this store every entry that names this
    /// record path (see `remove_matching_entries`); a missing store, table
    /// or key counts as done.
    RewriteStore(String, String),
    /// A source whose location could not be worked out; it counts as a
    /// failure.
    Unresolvable(String),
}

/// The mathematical content of a `DeletionStep`.
pub enum StepView {
    RemoveDir(Seq<char>),
    RewriteStore(Seq<char>, Seq<char>),
    Unresolvable(Seq<char>),
}

impl View for DeletionStep {
    type V = StepView;

    open spec fn view(&self) -> StepView {
        match self {
            DeletionStep::RemoveDir(d) => StepView::RemoveDir(d@),
            DeletionStep::RewriteStore(db, p) => StepView::RewriteStore(db@, p@),
            DeletionStep::Unresolvable(s) => StepView::Unresolvable(s@),
        }
    }
}

/// The text up to the first `/` (all of it where there is none).
pub open spec fn first_segment(s: Seq<char>) -> Seq<char> {
    match crate::text::first_index_of(s, '/') {
        Some(i) => s.take(i),
        None => s,
    }
}

/// The directory of a metadata file, from its path under the profile:
/// `<profile>/User/workspaceStorage/<id>` where that path reads
/// `workspaceStorage/<id>[/...]`.
pub open spec fn storage_dir(profile: Seq<char>, storage_path: Seq<char>) -> Option<Seq<char>> {
    match crate::text::first_index_of(storage_path, '/') {
        Some(i) => if storage_path.take(i) == "workspaceStorage"@ {
            Some(profile + "/User/workspaceStorage/"@ + first_segment(storage_path.skip(i + 1)))
        } else {
            None
        },
        None => None,
    }
}

/// Works out the directory of a metadata file; see `storage_dir`.
pub fn build_storage_dir_path(profile_path: &str, storage_path: &str) -> (r: Option<String>)
    ensures
        opt_view(r) == storage_dir(profile_path@, storage_path@),
{
    let s = chars_of(storage_path);
    let i = match crate::text::find_char(&s, '/') {
        Some(i) => i,
        None => {
            proof { crate::parser::lemma_first_index(s@, '/', None); }
            return None;
        },
    };
    proof { crate::parser::lemma_first_index(s@, '/', Some(i)); }
    let head = crate::text::slice_vec(&s, 0, i);
    assert(head@ =~= s@.take(i as int));
    let marker = chars_of("workspaceStorage");
    if !crate::text::chars_eq(&head, &marker) {
        return None;
    }
    assert(i < s.len());
    let tail = crate::text::slice_vec(&s, i + 1, s.len());
    assert(tail@ =~= s@.skip(i + 1));
    let seg = match crate::text::find_char(&tail, '/') {
        Some(j) => {
            proof { crate::parser::lemma_first_index(tail@, '/', Some(j)); }
            let v = crate::text::slice_vec(&tail, 0, j);
            assert(v@ =~= tail@.take(j as int));
            v
        },
        None => {
            proof { crate::parser::lemma_first_index(tail@, '/', None); }
            tail
        },
    };
    let mut out = chars_of(profile_path);
    push_all(&mut out, &chars_of("/User/workspaceStorage/"));
    push_all(&mut out, &seg);
    Some(string_of(&out))
}

/// The path of a store, from its path under the profile.
pub open spec fn store_path(profile: Seq<char>, db_source: Seq<char>) -> Seq<char> {
    profile + seq!['/'] + db_source
}

/// Works out the path of a store; see `store_path`.
pub fn parse_db_source(profile_path: &str, db_source: &str) -> (r: String)
    ensures
        r@ == store_path(profile_path@, db_source@),
{
    let mut out = chars_of(profile_path);
    out.push('/');
    push_all(&mut out, &chars_of(db_source));
    string_of(&out)
}

/// The step that removes a record with path `path` from one source; none
/// for the third-party editor, which is only read.
pub open spec fn source_step(profile: Seq<char>, path: Seq<char>, src: SourceView) -> Option<StepView> {
    match src {
        SourceView::Storage(sp) => match storage_dir(profile, sp) {
            Some(d) => Some(StepView::RemoveDir(d)),
            None => Some(StepView::Unresolvable(sp)),
        },
        SourceView::Database(db) => Some(StepView::RewriteStore(store_path(profile, db), path)),
        SourceView::Zed(_) => None,
    }
}

/// The steps for a list of sources of a record, in order.
pub open spec fn sources_steps(profile: Seq<char>, path: Seq<char>, srcs: Seq<SourceView>) -> Seq<StepView>
    decreases srcs.len(),
{
    if srcs.len() == 0 {
        Seq::empty()
    } else {
        (match source_step(profile, path, srcs[0]) {
            Some(st) => seq![st],
            None => Seq::empty(),
        }) + sources_steps(profile, path, srcs.drop_first())
    }
}

/// The steps that delete a list of records, record by record and source by
/// source.
pub open spec fn deletion_plan(profile: Seq<char>, ws: Seq<RecordView>) -> Seq<StepView>
    decreases ws.len(),
{
    if ws.len() == 0 {
        Seq::empty()
    } else {
        sources_steps(profile, ws[0].path, ws[0].sources) + deletion_plan(profile, ws.drop_first())
    }
}

/// The views of a list of steps.
pub open spec fn step_views(s: Seq<DeletionStep>) -> Seq<StepView> {
    s.map_values(|x: DeletionStep| x@)
}

fn push_steps(out: &mut Vec<DeletionStep>, profile_path: &str, w: &Workspace)
    ensures
        step_views(final(out)@) == step_views(old(out)@) + sources_steps(profile_path@, w.path@, crate::models::source_views(w.sources@)),
{
    let ghost start = step_views(out@);
    let ghost srcs = crate::models::source_views(w.sources@);
    let mut i: usize = 0;
    assert(srcs.skip(0) =~= srcs);
    assert(step_views(out@) =~= start + Seq::<StepView>::empty());
    while i < w.sources.len()
        invariant
            i <= w.sources.len(),
            srcs == crate::models::source_views(w.sources@),
            step_views(out@) + sources_steps(profile_path@, w.path@, srcs.skip(i as int))
                == start + sources_steps(profile_path@, w.path@, srcs),
        decreases w.sources.len() - i,
    {
        assert(srcs.skip(i as int).drop_first() =~= srcs.skip(i + 1));
        assert(srcs.skip(i as int)[0] == w.sources@[i as int]@);
        let ghost before = step_views(out@);
        match &w.sources[i] {
            WorkspaceSource::Storage(sp) => {
                let st = match build_storage_dir_path(profile_path, sp.as_str()) {
                    Some(d) => DeletionStep::RemoveDir(d),
                    None => DeletionStep::Unresolvable(sp.clone()),
                };
                out.push(st);
                assert(step_views(out@) =~= before.push(st@));
            },
            WorkspaceSource::Database(db) => {
                let st = DeletionStep::RewriteStore(parse_db_source(profile_path, db.as_str()), w.path.clone());
                out.push(st);
                assert(step_views(out@) =~= before.push(st@));
            },
            WorkspaceSource::Zed(_) => {},
        }
        assert(step_views(out@) + sources_steps(profile_path@, w.path@, srcs.skip(i + 1))
            =~= before + sources_steps(profile_path@, w.path@, srcs.skip(i as int)));
        i = i + 1;
    }
    assert(srcs.skip(i as int) =~= Seq::<SourceView>::empty());
}

/// Deletes `workspaces` from every source they came from, as the removals
/// that carry it out, in order, for the caller to perform. Deleting
/// succeeds where every step does; a failed step does not stop the ones
/// after it.
pub fn delete_workspace(profile_path: &str, workspaces: &Vec<Workspace>) -> (r: Vec<DeletionStep>)
    ensures
        step_views(r@) == deletion_plan(profile_path@, crate::models::record_views(workspaces@)),
{
    let ghost ws = crate::models::record_views(workspaces@);
    let mut out: Vec<DeletionStep> = Vec::new();
    let mut i: usize = 0;
    assert(ws.skip(0) =~= ws);
    assert(step_views(out@) =~= Seq::<StepView>::empty());
    while i < workspaces.len()
        invariant
            i <= workspaces.len(),
            ws == crate::models::record_views(workspaces@),
            step_views(out@) + deletion_plan(profile_path@, ws.skip(i as int)) == deletion_plan(profile_path@, ws),
        decreases workspaces.len() - i,
    {
        assert(ws.skip(i as int).drop_first() =~= ws.skip(i + 1));
        assert(ws.skip(i as int)[0] == workspaces@[i as int]@);
        let ghost before = step_views(out@);
        push_steps(&mut out, profile_path, &workspaces[i]);
        assert(step_views(out@) + deletion_plan(profile_path@, ws.skip(i + 1))
            =~= before + deletion_plan(profile_path@, ws.skip(i as int)));
        i = i + 1;
    }
    assert(ws.skip(i as int) =~= Seq::<RecordView>::empty());
    assert(step_views(out@) + Seq::<StepView>::empty() =~= step_views(out@));
    out
}

/// Whether a removal succeeded: a directory or store that was already gone
/// counts as removed.
pub fn removal_succeeded(existed: bool, removed: bool) -> (r: bool)
    ensures
        r == (!existed || removed),
{
    !existed || removed
}

/// Whether deleting succeeded: every step did.
pub fn deletion_succeeded(outcomes: &Vec<bool>) -> (r: bool)
    ensures
        r == forall|i: int| 0 <= i < outcomes@.len() ==> outcomes@[i],
{
    let mut i: usize = 0;
    while i < outcomes.len()
        invariant
            i <= outcomes.len(),
            forall|j: int| 0 <= j < i ==> outcomes@[j],
        decreases outcomes.len() - i,
    {
        if !outcomes[i] {
            return false;
        }
        i = i + 1;
    }
    true
}

} // verus!
