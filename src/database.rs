//! Record reconciler: merges the entries of each source into the records
//! already known, matching them by canonical path and its candidate
//! spellings.

use vstd::prelude::*;
use crate::json::{Json, json_parsed, parse_json};
use crate::error::WorkspaceError;
use crate::models::{Workspace, WorkspaceSource, RecordView, SourceView, record_views, source_views};
use crate::paths::{normalize_path, generate_path_variations, spec_normalize, spec_variations, views};
use crate::parser::{str_field, or_else, opt_view, WorkspacePathInfo};
use crate::text::{chars_of, string_of, has_prefix, push_all};

verus! {

/// Relies on `uuid::Uuid::new_v4` and its `Display`: a fresh random
/// identifier in its hyphenated text form, 36 characters long.
#[verifier::external_body]
fn fresh_uuid() -> (r: String)
    ensures
        r@.len() == 36,
{
    uuid::Uuid::new_v4().to_string()
}

/// The record that `key` names: the last one whose path is `key`.
pub open spec fn find_record(recs: Seq<RecordView>, key: Seq<char>) -> Option<int>
    decreases recs.len(),
{
    if recs.len() == 0 {
        None
    } else if recs.last().path == key {
        Some(recs.len() - 1)
    } else {
        find_record(recs.drop_last(), key)
    }
}

/// The record that the first of `keys` to name one names.
pub open spec fn probe(recs: Seq<RecordView>, keys: Seq<Seq<char>>) -> Option<int>
    decreases keys.len(),
{
    if keys.len() == 0 {
        None
    } else {
        match find_record(recs, keys[0]) {
            Some(i) => Some(i),
            None => probe(recs, keys.drop_first()),
        }
    }
}

/// The keys tried for an entry's path, in order: its canonical path, then
/// the candidate spellings of that canonical path.
pub open spec fn match_keys(raw: Seq<char>) -> Seq<Seq<char>> {
    seq![spec_normalize(raw)] + spec_variations(spec_normalize(raw))
}

/// `r` with an entry merged in: the name set only where the record has none
/// and the entry's is non-empty, `last_used` the larger of the two, and the
/// source appended unless an identical one is already there.
pub open spec fn merge_into(r: RecordView, name: Seq<char>, t: i64, src: SourceView) -> RecordView {
    RecordView {
        name: if r.name is None && name.len() > 0 { Some(name) } else { r.name },
        last_used: if t > r.last_used { t } else { r.last_used },
        sources: if r.sources.contains(src) { r.sources } else { r.sources.push(src) },
        ..r
    }
}

/// The record made for an entry that matched none.
pub open spec fn new_record(path: Seq<char>, name: Seq<char>, t: i64, src: SourceView) -> RecordView {
    RecordView {
        name: if name.len() > 0 { Some(name) } else { None },
        path: path,
        last_used: t,
        storage_path: None,
        sources: seq![src],
    }
}

/// The records after merging one entry with path `raw`: into the record
/// that its keys find first, else as a new record under its canonical path.
pub open spec fn spec_merge(recs: Seq<RecordView>, raw: Seq<char>, name: Seq<char>, t: i64, src: SourceView) -> Seq<RecordView> {
    match probe(recs, match_keys(raw)) {
        Some(i) => recs.update(i, merge_into(recs[i], name, t, src)),
        None => recs.push(new_record(spec_normalize(raw), name, t, src)),
    }
}

fn find_record_exec(recs: &Vec<Workspace>, key: &String) -> (r: Option<usize>)
    ensures
        find_record(record_views(recs@), key@) == match r {
            Some(i) => Some(i as int),
            None => None::<int>,
        },
        match r {
            Some(i) => i < recs.len(),
            None => true,
        },
{
    let ghost rv = record_views(recs@);
    let mut i: usize = recs.len();
    assert(rv.take(recs.len() as int) =~= rv);
    while i > 0
        invariant
            i <= recs.len(),
            rv == record_views(recs@),
            find_record(rv.take(i as int), key@) == find_record(rv, key@),
        decreases i,
    {
        assert(rv.take(i as int).drop_last() =~= rv.take(i - 1));
        assert(rv.take(i as int).last() == rv[i - 1]);
        if recs[i - 1].path == *key {
            return Some(i - 1);
        }
        i = i - 1;
    }
    None
}

fn probe_exec(recs: &Vec<Workspace>, keys: &Vec<String>) -> (r: Option<usize>)
    ensures
        probe(record_views(recs@), views(keys@)) == match r {
            Some(i) => Some(i as int),
            None => None::<int>,
        },
        match r {
            Some(i) => i < recs.len(),
            None => true,
        },
{
    let ghost kv = views(keys@);
    let mut k: usize = 0;
    assert(kv.skip(0) =~= kv);
    while k < keys.len()
        invariant
            k <= keys.len(),
            kv == views(keys@),
            probe(record_views(recs@), kv.skip(k as int)) == probe(record_views(recs@), kv),
        decreases keys.len() - k,
    {
        assert(kv.skip(k as int).drop_first() =~= kv.skip(k + 1));
        assert(kv.skip(k as int)[0] == keys@[k as int]@);
        if let Some(i) = find_record_exec(recs, &keys[k]) {
            return Some(i);
        }
        k = k + 1;
    }
    None
}

/// Whether two sources are identical.
pub fn same_source(a: &WorkspaceSource, b: &WorkspaceSource) -> (r: bool)
    ensures
        r == (a@ == b@),
{
    match a {
        WorkspaceSource::Storage(x) => match b {
            WorkspaceSource::Storage(y) => *x == *y,
            _ => false,
        },
        WorkspaceSource::Database(x) => match b {
            WorkspaceSource::Database(y) => *x == *y,
            _ => false,
        },
        WorkspaceSource::Zed(x) => match b {
            WorkspaceSource::Zed(y) => *x == *y,
            _ => false,
        },
    }
}

fn has_source(sources: &Vec<WorkspaceSource>, src: &WorkspaceSource) -> (r: bool)
    ensures
        r == source_views(sources@).contains(src@),
{
    let mut i: usize = 0;
    while i < sources.len()
        invariant
            i <= sources.len(),
            forall|j: int| 0 <= j < i ==> sources@[j]@ != src@,
        decreases sources.len() - i,
    {
        if same_source(&sources[i], src) {
            assert(source_views(sources@)[i as int] == src@);
            return true;
        }
        i = i + 1;
    }
    assert(!source_views(sources@).contains(src@)) by {
        if source_views(sources@).contains(src@) {
            let k = choose|k: int| 0 <= k < source_views(sources@).len() && source_views(sources@)[k] == src@;
            assert(sources@[k]@ == src@);
        }
    }
    false
}

/// `candidate`, lengthened with `-` where needed so that no record has it
/// as id.
fn unique_id(records: &Vec<Workspace>, candidate: Vec<char>) -> (r: Vec<char>)
    ensures
        has_prefix(r@, candidate@),
        forall|i: int| 0 <= i < records@.len() ==> (#[trigger] records@[i]).id@ != r@,
{
    let mut clash = false;
    let mut longest: usize = 0;
    let mut i: usize = 0;
    while i < records.len()
        invariant
            i <= records.len(),
            !clash ==> forall|k: int| 0 <= k < i ==> (#[trigger] records@[k]).id@ != candidate@,
            forall|k: int| 0 <= k < i ==> (#[trigger] records@[k]).id@.len() <= longest,
        decreases records.len() - i,
    {
        let id = chars_of(records[i].id.as_str());
        if crate::text::chars_eq(&id, &candidate) {
            clash = true;
        }
        if id.len() > longest {
            longest = id.len();
        }
        i = i + 1;
    }
    let mut out = candidate;
    let ghost c0 = out@;
    assert(out@.subrange(0, c0.len() as int) =~= c0);
    if clash {
        while out.len() <= longest
            invariant
                has_prefix(out@, c0),
            decreases longest + 1 - out.len(),
        {
            let ghost before = out@;
            out.push('-');
            assert(out@.subrange(0, c0.len() as int) =~= before.subrange(0, c0.len() as int));
        }
    }
    out
}

/// Merges one entry into `w`; see `merge_into`.
fn merge_record_into(w: &mut Workspace, name: &str, last_used: i64, source: WorkspaceSource)
    ensures
        final(w)@ == merge_into(old(w)@, name@, last_used, source@),
        final(w).id == old(w).id,
        final(w).parsed_info == old(w).parsed_info,
{
    let nc = chars_of(name);
    if w.name.is_none() && nc.len() > 0 {
        w.name = Some(name.to_string());
    }
    if last_used > w.last_used {
        w.last_used = last_used;
    }
    if !has_source(&w.sources, &source) {
        let ghost before = w.sources@;
        w.sources.push(source);
        assert(source_views(w.sources@) =~= source_views(before).push(source@));
    }
}

/// Merges one entry whose path is `raw_path` into `records`; see
/// `spec_merge`. A new record gets an id made of `id_prefix` and a fresh
/// random identifier, and `info` as its cached parse; the ids and cached
/// parses of the records already there are kept.
pub fn process_workspace_details(
    raw_path: &str,
    name: &str,
    last_used: i64,
    records: &mut Vec<Workspace>,
    source: WorkspaceSource,
    id_prefix: &str,
    info: Option<WorkspacePathInfo>,
)
    ensures
        record_views(final(records)@) == spec_merge(record_views(old(records)@), raw_path@, name@, last_used, source@),
        forall|i: int| 0 <= i < old(records)@.len() ==> final(records)@[i].id == old(records)@[i].id,
        forall|i: int| 0 <= i < old(records)@.len() ==> final(records)@[i].parsed_info == old(records)@[i].parsed_info,
        probe(record_views(old(records)@), match_keys(raw_path@)) is Some ==> final(records)@.len() == old(records)@.len(),
        match probe(record_views(old(records)@), match_keys(raw_path@)) {
            Some(i) => {
                &&& final(records)@[i].last_used == if last_used > old(records)@[i].last_used {
                    last_used
                } else {
                    old(records)@[i].last_used
                }
                &&& source_views(final(records)@[i].sources@) == if source_views(old(records)@[i].sources@).contains(source@) {
                    source_views(old(records)@[i].sources@)
                } else {
                    source_views(old(records)@[i].sources@).push(source@)
                }
            },
            None => true,
        },
        probe(record_views(old(records)@), match_keys(raw_path@)) is None ==> {
            &&& final(records)@.len() == old(records)@.len() + 1
            &&& final(records)@.last().parsed_info == info
        },
        final(records)@.len() == old(records)@.len() || final(records)@.len() == old(records)@.len() + 1,
        final(records)@.len() > old(records)@.len() ==> has_prefix(final(records)@.last().id@, id_prefix@),
        final(records)@.len() > old(records)@.len() ==> forall|i: int| 0 <= i < old(records)@.len()
            ==> (#[trigger] old(records)@[i]).id@ != final(records)@.last().id@,
{
    let canonical = normalize_path(raw_path);
    let mut keys: Vec<String> = Vec::new();
    keys.push(canonical.clone());
    let variations = generate_path_variations(canonical.as_str());
    let mut j: usize = 0;
    while j < variations.len()
        invariant
            j <= variations.len(),
            views(keys@) == seq![canonical@] + views(variations@).take(j as int),
        decreases variations.len() - j,
    {
        let ghost before = keys@;
        keys.push(variations[j].clone());
        assert(views(keys@) =~= views(before).push(variations@[j as int]@));
        assert(views(variations@).take(j + 1) =~= views(variations@).take(j as int).push(variations@[j as int]@));
        j = j + 1;
    }
    assert(views(variations@).take(variations.len() as int) =~= views(variations@));
    assert(views(keys@) =~= match_keys(raw_path@));
    let ghost old_recs = records@;
    match probe_exec(records, &keys) {
        Some(i) => {
            let mut w = records.remove(i);
            merge_record_into(&mut w, name, last_used, source);
            records.insert(i, w);
            assert(record_views(records@) =~= record_views(old_recs).update(i as int, merge_into(old_recs[i as int]@, name@, last_used, source@)));
        },
        None => {
            let mut candidate: Vec<char> = chars_of(id_prefix);
            push_all(&mut candidate, &chars_of(fresh_uuid().as_str()));
            assert(candidate@.subrange(0, id_prefix@.len() as int) =~= id_prefix@);
            let id = unique_id(records, candidate);
            assert(id@.subrange(0, id_prefix@.len() as int) =~= id_prefix@) by {
                assert(id@.subrange(0, id_prefix@.len() as int) =~= id@.subrange(0, candidate@.len() as int).subrange(0, id_prefix@.len() as int));
            }
            let nc = chars_of(name);
            let mut sources: Vec<WorkspaceSource> = Vec::new();
            let ghost sv = source@;
            sources.push(source);
            assert(source_views(sources@) =~= seq![sv]);
            let w = Workspace {
                id: string_of(&id),
                name: if nc.len() > 0 { Some(name.to_string()) } else { None },
                path: canonical,
                last_used,
                storage_path: None,
                sources,
                parsed_info: info,
            };
            records.push(w);
            assert(record_views(records@) =~= record_views(old_recs).push(new_record(spec_normalize(raw_path@), name@, last_used, sv)));
        },
    }
}


/// The path of a recently-opened entry: its `folderUri`; none for a
/// `fileUri` entry (single files are not tracked); else the `uri`, or
/// failing that the `configPath`, of its `workspace` object.
pub open spec fn entry_path(e: Json) -> Option<Seq<char>> {
    match str_field(e, "folderUri"@) {
        Some(p) => Some(p),
        None => if str_field(e, "fileUri"@) is Some {
            None
        } else {
            match e.field("workspace"@) {
                Some(w) => or_else(str_field(w, "uri"@), str_field(w, "configPath"@)),
                None => None,
            }
        },
    }
}

/// The name of an entry, empty where it has none.
pub open spec fn entry_name(e: Json) -> Seq<char> {
    match str_field(e, "name"@) {
        Some(n) => n,
        None => Seq::empty(),
    }
}

/// The `lastUsed` time of an entry, 0 where it has none.
pub open spec fn entry_last_used(e: Json) -> i64 {
    match e.field("lastUsed"@) {
        Some(Json::Number(n)) => match n.int {
            Some(v) => v,
            None => 0,
        },
        _ => 0,
    }
}

/// The records after merging one entry of a recently-opened list.
pub open spec fn spec_merge_entry(recs: Seq<RecordView>, e: Json, src: SourceView) -> Seq<RecordView> {
    match entry_path(e) {
        Some(p) => spec_merge(recs, p, entry_name(e), entry_last_used(e), src),
        None => recs,
    }
}

/// The records after merging the entries of a list in order.
pub open spec fn spec_merge_entries(recs: Seq<RecordView>, es: Seq<Json>, src: SourceView) -> Seq<RecordView>
    decreases es.len(),
{
    if es.len() == 0 {
        recs
    } else {
        spec_merge_entries(spec_merge_entry(recs, es[0], src), es.drop_first(), src)
    }
}

/// The entries of a stored recently-opened list: the `entries` array of the
/// JSON object that `text` holds; `None` where `text` has another shape.
pub open spec fn list_entries(text: Seq<char>) -> Option<Seq<Json>> {
    match json_parsed(text) {
        Some(doc) => match doc.field("entries"@) {
            Some(Json::Array(a)) => Some(a@),
            _ => None,
        },
        None => None,
    }
}

/// How many of `es` carry a path.
pub open spec fn count_with_path(es: Seq<Json>) -> nat
    decreases es.len(),
{
    if es.len() == 0 {
        0
    } else {
        count_with_path(es.drop_first()) + if entry_path(es[0]) is Some { 1nat } else { 0nat }
    }
}

fn entry_path_exec(e: &Json) -> (r: Option<String>)
    ensures
        opt_view(r) == entry_path(*e),
{
    match crate::parser::str_field_exec(e, "folderUri") {
        Some(p) => Some(p),
        None => {
            if crate::parser::str_field_exec(e, "fileUri").is_some() {
                return None;
            }
            match e.get("workspace") {
                Some(w) => match crate::parser::str_field_exec(w, "uri") {
                    Some(u) => Some(u),
                    None => crate::parser::str_field_exec(w, "configPath"),
                },
                None => None,
            }
        },
    }
}

/// Merges one entry of a recently-opened list into `records`; returns
/// whether the entry carried a path.
pub fn process_workspace_entry(entry: &Json, records: &mut Vec<Workspace>, source: &WorkspaceSource, id_prefix: &str) -> (r: bool)
    ensures
        record_views(final(records)@) == spec_merge_entry(record_views(old(records)@), *entry, source@),
        r == entry_path(*entry) is Some,
        forall|i: int| 0 <= i < old(records)@.len() ==> final(records)@[i].id == old(records)@[i].id,
        old(records)@.len() <= final(records)@.len(),
        forall|i: int| old(records)@.len() <= i < final(records)@.len() ==> has_prefix(final(records)@[i].id@, id_prefix@),
{
    match entry_path_exec(entry) {
        Some(path) => {
            let name = match crate::parser::str_field_exec(entry, "name") {
                Some(n) => n,
                None => String::new(),
            };
            let last_used: i64 = match entry.get("lastUsed") {
                Some(Json::Number(n)) => match n.int {
                    Some(v) => v,
                    None => 0,
                },
                _ => 0,
            };
            process_workspace_details(path.as_str(), name.as_str(), last_used, records, copy_source(source), id_prefix, None);
            true
        },
        None => false,
    }
}

/// A copy of `s`.
pub fn copy_source(s: &WorkspaceSource) -> (r: WorkspaceSource)
    ensures
        r@ == s@,
{
    match s {
        WorkspaceSource::Storage(x) => WorkspaceSource::Storage(x.clone()),
        WorkspaceSource::Database(x) => WorkspaceSource::Database(x.clone()),
        WorkspaceSource::Zed(x) => WorkspaceSource::Zed(x.clone()),
    }
}

/// Merges every entry of a stored recently-opened list into `records`, in
/// order, under `Database(db_source)`. Returns how many entries carried a
/// path, or an error, leaving `records` as they were, where the text is
/// not a JSON object with an `entries` array.
pub fn process_workspace_rows(rows: &str, records: &mut Vec<Workspace>, db_source: &str) -> (r: Result<usize, WorkspaceError>)
    ensures
        match list_entries(rows@) {
            Some(es) => r is Ok && r->Ok_0 == count_with_path(es)
                && record_views(final(records)@) == spec_merge_entries(record_views(old(records)@), es, SourceView::Database(db_source@)),
            None => r is Err && r->Err_0 is Parse && final(records)@ == old(records)@,
        },
        old(records)@.len() <= final(records)@.len(),
        forall|i: int| 0 <= i < old(records)@.len() ==> final(records)@[i].id == old(records)@[i].id,
        forall|i: int| old(records)@.len() <= i < final(records)@.len() ==> has_prefix(final(records)@[i].id@, "db-"@),
{
    let doc = match parse_json(rows) {
        Some(d) => d,
        None => {
            return Err(WorkspaceError::Parse("recently opened list is not JSON".to_string()));
        },
    };
    let entries = match doc.get("entries") {
        Some(Json::Array(a)) => a,
        _ => {
            return Err(WorkspaceError::Parse("recently opened list has no entries array".to_string()));
        },
    };
    let source = WorkspaceSource::Database(db_source.to_string());
    let ghost es = entries@;
    let ghost start = records@;
    let ghost src = source@;
    let mut count: usize = 0;
    let mut i: usize = 0;
    assert(es.skip(0) =~= es);
    while i < entries.len()
        invariant
            i <= entries.len(),
            es == entries@,
            src == SourceView::Database(db_source@),
            source@ == src,
            count <= i,
            count + count_with_path(es.skip(i as int)) == count_with_path(es),
            spec_merge_entries(record_views(records@), es.skip(i as int), src)
                == spec_merge_entries(record_views(start), es, src),
            start.len() <= records@.len(),
            forall|k: int| 0 <= k < start.len() ==> records@[k].id == start[k].id,
            forall|k: int| start.len() <= k < records@.len() ==> has_prefix(records@[k].id@, "db-"@),
        decreases entries.len() - i,
    {
        assert(es.skip(i as int).drop_first() =~= es.skip(i + 1));
        assert(es.skip(i as int)[0] == es[i as int]);
        if process_workspace_entry(&entries[i], records, &source, "db-") {
            count = count + 1;
        }
        i = i + 1;
    }
    assert(es.skip(i as int) =~= Seq::<Json>::empty());
    Ok(count)
}


/// No two sources of `r` are identical.
pub open spec fn distinct_sources(r: RecordView) -> bool {
    forall|i: int, j: int| 0 <= i < j < r.sources.len() ==> r.sources[i] != r.sources[j]
}

/// Every record of `recs` has distinct sources.
pub open spec fn all_distinct_sources(recs: Seq<RecordView>) -> bool {
    forall|i: int| 0 <= i < recs.len() ==> distinct_sources(#[trigger] recs[i])
}

/// `src` appears at most once among the sources of `r`.
pub open spec fn held_at_most_once(r: RecordView, src: SourceView) -> bool {
    forall|a: int, b: int| 0 <= a < b < r.sources.len() ==> !(r.sources[a] == src && r.sources[b] == src)
}

/// `a` and `b` hold records with the same paths, position by position.
pub open spec fn same_paths(a: Seq<RecordView>, b: Seq<RecordView>) -> bool {
    a.len() == b.len() && forall|i: int| 0 <= i < a.len() ==> (#[trigger] a[i]).path == b[i].path
}

proof fn lemma_find_record_paths(a: Seq<RecordView>, b: Seq<RecordView>, key: Seq<char>)
    requires
        same_paths(a, b),
    ensures
        find_record(a, key) == find_record(b, key),
    decreases a.len(),
{
    if a.len() > 0 {
        assert(a.last().path == b.last().path);
        assert(same_paths(a.drop_last(), b.drop_last())) by {
            assert forall|i: int| 0 <= i < a.drop_last().len() implies (#[trigger] a.drop_last()[i]).path == b.drop_last()[i].path by {
                assert(a[i].path == b[i].path);
            }
        }
        lemma_find_record_paths(a.drop_last(), b.drop_last(), key);
    }
}

proof fn lemma_probe_paths(a: Seq<RecordView>, b: Seq<RecordView>, keys: Seq<Seq<char>>)
    requires
        same_paths(a, b),
    ensures
        probe(a, keys) == probe(b, keys),
    decreases keys.len(),
{
    if keys.len() > 0 {
        lemma_find_record_paths(a, b, keys[0]);
        lemma_probe_paths(a, b, keys.drop_first());
    }
}

proof fn lemma_find_record_bound(recs: Seq<RecordView>, key: Seq<char>)
    ensures
        match find_record(recs, key) {
            Some(i) => 0 <= i < recs.len() && recs[i].path == key,
            None => true,
        },
    decreases recs.len(),
{
    if recs.len() > 0 && recs.last().path != key {
        lemma_find_record_bound(recs.drop_last(), key);
    }
}

proof fn lemma_probe_bound(recs: Seq<RecordView>, keys: Seq<Seq<char>>)
    ensures
        match probe(recs, keys) {
            Some(i) => 0 <= i < recs.len(),
            None => true,
        },
    decreases keys.len(),
{
    if keys.len() > 0 {
        lemma_find_record_bound(recs, keys[0]);
        lemma_probe_bound(recs, keys.drop_first());
    }
}

proof fn lemma_merge_shape(recs: Seq<RecordView>, raw: Seq<char>, name: Seq<char>, t: i64, src: SourceView)
    ensures
        ({
            let m = spec_merge(recs, raw, name, t, src);
            match probe(recs, match_keys(raw)) {
                Some(i) => 0 <= i < recs.len() && m.len() == recs.len() && same_paths(m, recs),
                None => m.len() == recs.len() + 1 && same_paths(m.drop_last(), recs),
            }
        }),
{
    lemma_probe_bound(recs, match_keys(raw));
    let m = spec_merge(recs, raw, name, t, src);
    match probe(recs, match_keys(raw)) {
        Some(i) => {
            assert forall|k: int| 0 <= k < m.len() implies (#[trigger] m[k]).path == recs[k].path by {}
        },
        None => {
            assert forall|k: int| 0 <= k < m.drop_last().len() implies (#[trigger] m.drop_last()[k]).path == recs[k].path by {}
        },
    }
}

/// Merging an entry never lowers a record's `last_used`: the record it
/// matches ends with the larger of its own time and the entry's, and every
/// other record keeps its own.
pub proof fn merge_keeps_latest_time(recs: Seq<RecordView>, raw: Seq<char>, name: Seq<char>, t: i64, src: SourceView)
    ensures
        spec_merge(recs, raw, name, t, src).len() >= recs.len(),
        forall|i: int| 0 <= i < recs.len() ==> #[trigger] spec_merge(recs, raw, name, t, src)[i].last_used == if probe(recs, match_keys(raw)) == Some(i) {
            if t > recs[i].last_used { t } else { recs[i].last_used }
        } else {
            recs[i].last_used
        },
        forall|i: int| 0 <= i < recs.len() ==> #[trigger] spec_merge(recs, raw, name, t, src)[i].last_used >= recs[i].last_used,
{
    lemma_merge_shape(recs, raw, name, t, src);
}

/// Merging an entry keeps every record's sources free of repeats.
pub proof fn merge_keeps_sources_distinct(recs: Seq<RecordView>, raw: Seq<char>, name: Seq<char>, t: i64, src: SourceView)
    requires
        all_distinct_sources(recs),
    ensures
        all_distinct_sources(spec_merge(recs, raw, name, t, src)),
{
    lemma_merge_shape(recs, raw, name, t, src);
    let m = spec_merge(recs, raw, name, t, src);
    match probe(recs, match_keys(raw)) {
        Some(i) => {
            assert forall|k: int| 0 <= k < m.len() implies distinct_sources(#[trigger] m[k]) by {
                if k == i {
                    assert(distinct_sources(recs[i]));
                    let s = recs[i].sources;
                    if !s.contains(src) {
                        assert forall|a: int, b: int| 0 <= a < b < s.push(src).len() implies s.push(src)[a] != s.push(src)[b] by {
                            if b == s.len() {
                                assert(s[a] != src);
                            }
                        }
                    }
                } else {
                    assert(distinct_sources(recs[k]));
                }
            }
        },
        None => {
            assert forall|k: int| 0 <= k < m.len() implies distinct_sources(#[trigger] m[k]) by {
                if k < recs.len() {
                    assert(distinct_sources(recs[k]));
                }
            }
        },
    }
}

/// Merging the same entry a second time changes nothing.
pub proof fn merge_is_idempotent(recs: Seq<RecordView>, raw: Seq<char>, name: Seq<char>, t: i64, src: SourceView)
    ensures
        spec_merge(spec_merge(recs, raw, name, t, src), raw, name, t, src) == spec_merge(recs, raw, name, t, src),
{
    lemma_merge_shape(recs, raw, name, t, src);
    let m = spec_merge(recs, raw, name, t, src);
    let keys = match_keys(raw);
    match probe(recs, keys) {
        Some(i) => {
            lemma_probe_paths(m, recs, keys);
            let r = merge_into(recs[i], name, t, src);
            assert(r.sources.contains(src)) by {
                if !recs[i].sources.contains(src) {
                    assert(r.sources[r.sources.len() - 1] == src);
                }
            }
            assert(merge_into(r, name, t, src) == r);
            assert(m.update(i, merge_into(m[i], name, t, src)) =~= m);
        },
        None => {
            let n = new_record(spec_normalize(raw), name, t, src);
            assert(keys[0] == spec_normalize(raw));
            assert(m.last() == n);
            assert(find_record(m, keys[0]) == Some(recs.len() as int));
            assert(probe(m, keys) == Some(recs.len() as int));
            assert(n.sources[0] == src);
            assert(n.sources.contains(src));
            assert(merge_into(n, name, t, src) == n);
            assert(m.update(recs.len() as int, merge_into(m[recs.len() as int], name, t, src)) =~= m);
        },
    }
}

/// Merging a list of entries keeps every record's sources free of repeats.
pub proof fn merge_entries_keeps_sources_distinct(recs: Seq<RecordView>, es: Seq<Json>, src: SourceView)
    requires
        all_distinct_sources(recs),
    ensures
        all_distinct_sources(spec_merge_entries(recs, es, src)),
    decreases es.len(),
{
    if es.len() > 0 {
        let next = spec_merge_entry(recs, es[0], src);
        if let Some(p) = entry_path(es[0]) {
            merge_keeps_sources_distinct(recs, p, entry_name(es[0]), entry_last_used(es[0]), src);
        }
        merge_entries_keeps_sources_distinct(next, es.drop_first(), src);
    }
}

/// Every record of `recs` holds `src` at most once.
pub open spec fn all_held_at_most_once(recs: Seq<RecordView>, src: SourceView) -> bool {
    forall|i: int| 0 <= i < recs.len() ==> held_at_most_once(#[trigger] recs[i], src)
}

/// Merging an entry keeps every record holding any given source at most
/// once.
pub proof fn merge_keeps_single_provenance(
    recs: Seq<RecordView>,
    raw: Seq<char>,
    name: Seq<char>,
    t: i64,
    src: SourceView,
    s2: SourceView,
)
    requires
        all_held_at_most_once(recs, s2),
    ensures
        all_held_at_most_once(spec_merge(recs, raw, name, t, src), s2),
{
    lemma_merge_shape(recs, raw, name, t, src);
    let m = spec_merge(recs, raw, name, t, src);
    assert forall|k: int| 0 <= k < m.len() implies held_at_most_once(#[trigger] m[k], s2) by {
        if k < recs.len() {
            assert(held_at_most_once(recs[k], s2));
            if probe(recs, match_keys(raw)) == Some(k) {
                let old_s = recs[k].sources;
                if !old_s.contains(src) {
                    let ns = old_s.push(src);
                    assert(m[k].sources == ns);
                    assert forall|a: int, b: int| 0 <= a < b < ns.len() implies !(ns[a] == s2 && ns[b] == s2) by {
                        if b == old_s.len() && ns[b] == s2 && ns[a] == s2 {
                            assert(old_s[a] == src);
                            assert(old_s.contains(src));
                        } else if b < old_s.len() {
                            assert(ns[a] == old_s[a] && ns[b] == old_s[b]);
                        }
                    }
                }
            }
        } else {
            assert(m[k].sources == seq![src]);
        }
    }
}

/// Merging a list of entries keeps every record holding any given source
/// at most once.
pub proof fn merge_entries_keeps_single_provenance(recs: Seq<RecordView>, es: Seq<Json>, src: SourceView, s2: SourceView)
    requires
        all_held_at_most_once(recs, s2),
    ensures
        all_held_at_most_once(spec_merge_entries(recs, es, src), s2),
    decreases es.len(),
{
    if es.len() > 0 {
        if let Some(p) = entry_path(es[0]) {
            merge_keeps_single_provenance(recs, p, entry_name(es[0]), entry_last_used(es[0]), src, s2);
        }
        merge_entries_keeps_single_provenance(spec_merge_entries_step(recs, es, src), es.drop_first(), src, s2);
    }
}

/// The records after merging the first entry of `es`.
pub open spec fn spec_merge_entries_step(recs: Seq<RecordView>, es: Seq<Json>, src: SourceView) -> Seq<RecordView> {
    spec_merge_entry(recs, es[0], src)
}

/// Merging the same recently-opened list into the records twice leaves
/// every record holding that list's source at most once, provided none held
/// it twice before.
pub proof fn merging_list_twice_keeps_one_provenance(recs: Seq<RecordView>, es: Seq<Json>, src: SourceView)
    requires
        all_held_at_most_once(recs, src),
    ensures
        all_held_at_most_once(spec_merge_entries(recs, es, src), src),
        all_held_at_most_once(spec_merge_entries(spec_merge_entries(recs, es, src), es, src), src),
{
    merge_entries_keeps_single_provenance(recs, es, src, src);
    merge_entries_keeps_single_provenance(spec_merge_entries(recs, es, src), es, src, src);
}

/// The record that `keys` find first in `recs` holds `src`.
pub open spec fn hits_with(recs: Seq<RecordView>, keys: Seq<Seq<char>>, src: SourceView) -> bool {
    match probe(recs, keys) {
        Some(i) => 0 <= i < recs.len() && recs[i].sources.contains(src),
        None => false,
    }
}

/// Every entry of `es` that carries a path finds, in `recs`, a record that
/// holds `src`.
pub open spec fn all_hit(recs: Seq<RecordView>, es: Seq<Json>, src: SourceView) -> bool {
    forall|k: int| 0 <= k < es.len() && (#[trigger] entry_path(es[k])) is Some
        ==> hits_with(recs, match_keys(entry_path(es[k])->0), src)
}

proof fn lemma_probe_push(recs: Seq<RecordView>, n: RecordView, keys: Seq<Seq<char>>)
    ensures
        match probe(recs, keys) {
            Some(j) => probe(recs.push(n), keys) == Some(j) || probe(recs.push(n), keys) == Some(recs.len() as int),
            None => probe(recs.push(n), keys) is None || probe(recs.push(n), keys) == Some(recs.len() as int),
        },
    decreases keys.len(),
{
    if keys.len() > 0 {
        assert(recs.push(n).drop_last() =~= recs);
        lemma_probe_push(recs, n, keys.drop_first());
    }
}

/// Once an entry's keys find a record holding `src`, merging any entry
/// under `src` keeps it so.
proof fn lemma_hit_stable(
    recs: Seq<RecordView>,
    keys: Seq<Seq<char>>,
    raw: Seq<char>,
    name: Seq<char>,
    t: i64,
    src: SourceView,
)
    requires
        hits_with(recs, keys, src),
    ensures
        hits_with(spec_merge(recs, raw, name, t, src), keys, src),
{
    lemma_merge_shape(recs, raw, name, t, src);
    let m = spec_merge(recs, raw, name, t, src);
    let j = probe(recs, keys)->0;
    match probe(recs, match_keys(raw)) {
        Some(i) => {
            lemma_probe_paths(m, recs, keys);
            if i == j {
                let r = merge_into(recs[i], name, t, src);
                assert(r.sources.contains(src)) by {
                    if !recs[i].sources.contains(src) {
                    } else {
                        let k = choose|k: int| 0 <= k < recs[i].sources.len() && recs[i].sources[k] == src;
                        assert(r.sources[k] == src);
                    }
                }
            }
        },
        None => {
            let n = new_record(spec_normalize(raw), name, t, src);
            assert(m == recs.push(n));
            lemma_probe_push(recs, n, keys);
            if probe(m, keys) == Some(recs.len() as int) {
                assert(m[recs.len() as int].sources[0] == src);
            } else {
                assert(m[j] == recs[j]);
            }
        },
    }
}

/// After merging an entry, its keys find a record holding `src`.
proof fn lemma_hit_after_merge(recs: Seq<RecordView>, raw: Seq<char>, name: Seq<char>, t: i64, src: SourceView)
    ensures
        hits_with(spec_merge(recs, raw, name, t, src), match_keys(raw), src),
{
    lemma_merge_shape(recs, raw, name, t, src);
    let m = spec_merge(recs, raw, name, t, src);
    let keys = match_keys(raw);
    match probe(recs, keys) {
        Some(i) => {
            lemma_probe_paths(m, recs, keys);
            let r = merge_into(recs[i], name, t, src);
            assert(r.sources.contains(src)) by {
                if !recs[i].sources.contains(src) {
                    assert(r.sources[r.sources.len() - 1] == src);
                }
            }
        },
        None => {
            assert(keys[0] == spec_normalize(raw));
            assert(find_record(m, keys[0]) == Some(recs.len() as int));
            assert(m[recs.len() as int].sources[0] == src);
        },
    }
}

proof fn lemma_all_hit_stable(recs: Seq<RecordView>, pre: Seq<Json>, e: Json, src: SourceView)
    requires
        all_hit(recs, pre, src),
    ensures
        all_hit(spec_merge_entry(recs, e, src), pre, src),
{
    if let Some(p) = entry_path(e) {
        assert forall|k: int| 0 <= k < pre.len() && (#[trigger] entry_path(pre[k])) is Some
            implies hits_with(spec_merge_entry(recs, e, src), match_keys(entry_path(pre[k])->0), src) by {
            lemma_hit_stable(recs, match_keys(entry_path(pre[k])->0), p, entry_name(e), entry_last_used(e), src);
        }
    }
}

proof fn lemma_first_pass_hits(recs: Seq<RecordView>, pre: Seq<Json>, es: Seq<Json>, src: SourceView)
    requires
        all_hit(recs, pre, src),
    ensures
        all_hit(spec_merge_entries(recs, es, src), pre + es, src),
    decreases es.len(),
{
    if es.len() == 0 {
        assert(pre + es =~= pre);
    } else {
        let e = es[0];
        let m1 = spec_merge_entry(recs, e, src);
        lemma_all_hit_stable(recs, pre, e, src);
        let pre2 = pre.push(e);
        assert forall|k: int| 0 <= k < pre2.len() && (#[trigger] entry_path(pre2[k])) is Some
            implies hits_with(m1, match_keys(entry_path(pre2[k])->0), src) by {
            if k < pre.len() {
                assert(pre2[k] == pre[k]);
            } else {
                assert(pre2[k] == e);
                lemma_hit_after_merge(recs, entry_path(e)->0, entry_name(e), entry_last_used(e), src);
            }
        }
        lemma_first_pass_hits(m1, pre2, es.drop_first(), src);
        assert(pre2 + es.drop_first() =~= pre + es);
    }
}

proof fn lemma_second_pass_keeps(recs: Seq<RecordView>, es: Seq<Json>, src: SourceView)
    requires
        all_hit(recs, es, src),
    ensures
        spec_merge_entries(recs, es, src).len() == recs.len(),
        forall|i: int| 0 <= i < recs.len() ==> (#[trigger] spec_merge_entries(recs, es, src)[i]).sources == recs[i].sources,
    decreases es.len(),
{
    if es.len() > 0 {
        let e = es[0];
        let m1 = spec_merge_entry(recs, e, src);
        lemma_all_hit_stable(recs, es, e, src);
        let rest = es.drop_first();
        assert(all_hit(m1, rest, src)) by {
            assert forall|k: int| 0 <= k < rest.len() && (#[trigger] entry_path(rest[k])) is Some
                implies hits_with(m1, match_keys(entry_path(rest[k])->0), src) by {
                assert(rest[k] == es[k + 1]);
            }
        }
        if let Some(p) = entry_path(e) {
            assert(entry_path(es[0]) is Some);
            lemma_merge_shape(recs, p, entry_name(e), entry_last_used(e), src);
            let i = probe(recs, match_keys(p))->0;
            assert(m1.len() == recs.len());
            assert forall|k: int| 0 <= k < recs.len() implies (#[trigger] m1[k]).sources == recs[k].sources by {
                if k == i {
                    assert(recs[i].sources.contains(src));
                }
            }
        }
        lemma_second_pass_keeps(m1, rest, src);
    }
}

/// Merging the same recently-opened list a second time adds no record and
/// changes no record's sources: every entry finds a record that already
/// holds the list's source.
pub proof fn merging_list_again_keeps_records_and_sources(recs: Seq<RecordView>, es: Seq<Json>, src: SourceView)
    ensures
        spec_merge_entries(spec_merge_entries(recs, es, src), es, src).len() == spec_merge_entries(recs, es, src).len(),
        forall|i: int| 0 <= i < spec_merge_entries(recs, es, src).len()
            ==> (#[trigger] spec_merge_entries(spec_merge_entries(recs, es, src), es, src)[i]).sources
                == spec_merge_entries(recs, es, src)[i].sources,
{
    assert(all_hit(recs, Seq::empty(), src));
    lemma_first_pass_hits(recs, Seq::empty(), es, src);
    assert(Seq::<Json>::empty() + es =~= es);
    lemma_second_pass_keeps(spec_merge_entries(recs, es, src), es, src);
}

} // verus!
