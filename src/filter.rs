//! Filtering records by a query of free text and `:key:value` filters.

use vstd::prelude::*;
use crate::models::{Workspace, kind_label};
use crate::text::{chars_of, string_of, has_prefix, starts_with, slice_vec, push_all};
use crate::utils::{PathFacts, spec_exists, workspace_exists, flag_at, process_workspaces, parsed_from};

verus! {

/// The lower-case form of a text.
pub uninterp spec fn lower_of(s: Seq<char>) -> Seq<char>;

/// Relies on `str::to_lowercase`: the lower-case form, which depends on the
/// characters alone; the empty text stays empty.
#[verifier::external_body]
pub(crate) fn lowercase(s: &str) -> (r: String)
    ensures
        r@ == lower_of(s@),
        s@.len() == 0 ==> r@.len() == 0,
{
    s.to_lowercase()
}

/// Whether a character has Unicode's `White_Space` property, the set that
/// `char::is_whitespace` tests: tab to carriage return, space, next line,
/// no-break space, ogham space mark, the spaces U+2000 to U+200A, line and
/// paragraph separators, narrow no-break space, medium mathematical space
/// and ideographic space.
pub open spec fn white_space(c: char) -> bool {
    let u = c as u32;
    (0x9 <= u && u <= 0xD) || u == 0x20 || u == 0x85 || u == 0xA0 || u == 0x1680
        || (0x2000 <= u && u <= 0x200A) || u == 0x2028 || u == 0x2029 || u == 0x202F
        || u == 0x205F || u == 0x3000
}

/// Whether `c` is white space; see `white_space`.
pub fn is_whitespace_char(c: char) -> (r: bool)
    ensures
        r == white_space(c),
{
    let u = c as u32;
    (0x9 <= u && u <= 0xD) || u == 0x20 || u == 0x85 || u == 0xA0 || u == 0x1680
        || (0x2000 <= u && u <= 0x200A) || u == 0x2028 || u == 0x2029 || u == 0x202F
        || u == 0x205F || u == 0x3000
}

/// `s` without leading and trailing white space, as `str::trim` gives it.
pub open spec fn trim_ws(s: Seq<char>) -> Seq<char>
    decreases s.len(),
{
    if s.len() > 0 && white_space(s[0]) {
        trim_ws(s.drop_first())
    } else if s.len() > 0 && white_space(s.last()) {
        trim_ws(s.drop_last())
    } else {
        s
    }
}

fn trim_exec(s: &[char]) -> (r: Vec<char>)
    ensures
        r@ == trim_ws(s@),
{
    let mut lo: usize = 0;
    let mut hi: usize = s.len();
    assert(s@.subrange(0, s.len() as int) =~= s@);
    while lo < hi && is_whitespace_char(s[lo])
        invariant
            lo <= hi <= s.len(),
            hi == s.len(),
            trim_ws(s@.subrange(lo as int, hi as int)) == trim_ws(s@),
        decreases hi - lo,
    {
        assert(s@.subrange(lo as int, hi as int).drop_first() =~= s@.subrange(lo + 1, hi as int));
        lo = lo + 1;
    }
    while lo < hi && is_whitespace_char(s[hi - 1])
        invariant
            lo <= hi <= s.len(),
            trim_ws(s@.subrange(lo as int, hi as int)) == trim_ws(s@),
            lo < hi ==> !white_space(s@[lo as int]),
        decreases hi - lo,
    {
        let ghost t = s@.subrange(lo as int, hi as int);
        assert(t[0] == s@[lo as int]);
        assert(t.last() == s@[hi - 1]);
        assert(t.drop_last() =~= s@.subrange(lo as int, hi - 1));
        hi = hi - 1;
    }
    proof {
        let t = s@.subrange(lo as int, hi as int);
        if t.len() > 0 {
            assert(t[0] == s@[lo as int]);
            assert(t.last() == s@[hi - 1]);
        }
    }
    slice_vec(s, lo, hi)
}

/// `n` occurs in `h`.
pub open spec fn contains_seq(h: Seq<char>, n: Seq<char>) -> bool {
    exists|i: int| 0 <= i && i + n.len() <= h.len() && #[trigger] h.subrange(i, i + n.len()) == n
}

/// Whether `n` occurs in `h`.
pub fn contains_chars(h: &[char], n: &[char]) -> (r: bool)
    ensures
        r == contains_seq(h@, n@),
{
    if n.len() > h.len() {
        return false;
    }
    let last = h.len() - n.len();
    let mut i: usize = 0;
    loop
        invariant
            n.len() <= h.len(),
            last == h.len() - n.len(),
            i <= last,
            forall|j: int| 0 <= j < i ==> #[trigger] h@.subrange(j, j + n@.len()) != n@,
        decreases last - i,
    {
        let w = slice_vec(h, i, i + n.len());
        if crate::text::chars_eq(&w, n) {
            return true;
        }
        if i == last {
            return false;
        }
        i = i + 1;
    }
}

/// `s` cut at every `sep`; always at least one piece.
pub open spec fn split_on(s: Seq<char>, sep: char) -> Seq<Seq<char>>
    decreases s.len(),
{
    if s.len() == 0 {
        seq![Seq::empty()]
    } else if s[0] == sep {
        seq![Seq::empty()] + split_on(s.drop_first(), sep)
    } else {
        let rest = split_on(s.drop_first(), sep);
        rest.update(0, seq![s[0]] + rest[0])
    }
}

proof fn lemma_split_nonempty(s: Seq<char>, sep: char)
    ensures
        split_on(s, sep).len() >= 1,
    decreases s.len(),
{
    if s.len() > 0 {
        lemma_split_nonempty(s.drop_first(), sep);
    }
}

/// The pieces of `split_on(t, sep)`, with `cur` put in front of the first.
pub open spec fn split_after(cur: Seq<char>, t: Seq<char>, sep: char) -> Seq<Seq<char>> {
    split_on(t, sep).update(0, cur + split_on(t, sep)[0])
}

/// The views of a list of character vectors.
pub open spec fn char_views(v: Seq<Vec<char>>) -> Seq<Seq<char>> {
    v.map_values(|x: Vec<char>| x@)
}

/// Cuts `s` at every `sep`.
pub fn split_chars(s: &[char], sep: char) -> (r: Vec<Vec<char>>)
    ensures
        char_views(r@) == split_on(s@, sep),
{
    let mut done: Vec<Vec<char>> = Vec::new();
    let mut cur: Vec<char> = Vec::new();
    let mut i: usize = 0;
    proof { lemma_split_nonempty(s@, sep); }
    assert(s@.skip(0) =~= s@);
    assert(split_after(cur@, s@, sep) =~= split_on(s@, sep));
    assert(char_views(done@) + split_after(cur@, s@.skip(0), sep) =~= split_on(s@, sep));
    while i < s.len()
        invariant
            i <= s.len(),
            char_views(done@) + split_after(cur@, s@.skip(i as int), sep) == split_on(s@, sep),
        decreases s.len() - i,
    {
        let ghost t = s@.skip(i as int);
        assert(t.drop_first() =~= s@.skip(i + 1));
        assert(t[0] == s@[i as int]);
        proof { lemma_split_nonempty(t.drop_first(), sep); }
        let ghost before_done = char_views(done@);
        let ghost before_cur = cur@;
        if s[i] == sep {
            let finished = cur;
            done.push(finished);
            cur = Vec::new();
            assert(char_views(done@) =~= before_done.push(before_cur));
            assert(split_after(before_cur, t, sep) =~= seq![before_cur] + split_after(cur@, t.drop_first(), sep));
            assert(char_views(done@) + split_after(cur@, t.drop_first(), sep) =~= before_done + split_after(before_cur, t, sep));
        } else {
            cur.push(s[i]);
            let ghost rest = split_on(t.drop_first(), sep);
            assert(split_on(t, sep) == rest.update(0, seq![t[0]] + rest[0]));
            assert(cur@ =~= before_cur + seq![t[0]]);
            assert(before_cur + (seq![t[0]] + rest[0]) =~= cur@ + rest[0]);
            assert(split_after(before_cur, t, sep) =~= split_after(cur@, t.drop_first(), sep));
        }
        i = i + 1;
    }
    assert(s@.skip(i as int) =~= Seq::<char>::empty());
    let ghost last = cur@;
    done.push(cur);
    assert(split_after(last, Seq::<char>::empty(), sep) =~= seq![last]);
    assert(char_views(done@) =~= split_on(s@, sep));
    done
}

/// The filters of a query, as `filter_workspaces` reads them.
pub struct QueryView {
    pub remote: Option<Seq<Seq<char>>>,
    pub kind: Option<Seq<Seq<char>>>,
    pub path: Option<Seq<Seq<char>>>,
    pub tag: Option<Seq<Seq<char>>>,
    pub existing: Option<bool>,
    pub text: Seq<char>,
}

pub open spec fn empty_query() -> QueryView {
    QueryView { remote: None, kind: None, path: None, tag: None, existing: None, text: Seq::empty() }
}

/// `q` updated by one word of the query: `:remote:`, `:type:`, `:path:`,
/// `:tag:` or `:tags:` followed by comma-separated values; `:existing:`
/// followed by `true`/`yes`/`1` or `false`/`no`/`0`; any other non-empty
/// word joins the free text.
pub open spec fn apply_word(q: QueryView, w: Seq<char>) -> QueryView {
    if has_prefix(w, ":remote:"@) {
        QueryView { remote: Some(split_on(w.skip(":remote:"@.len() as int), ',')), ..q }
    } else if has_prefix(w, ":type:"@) {
        QueryView { kind: Some(split_on(w.skip(":type:"@.len() as int), ',')), ..q }
    } else if has_prefix(w, ":path:"@) {
        QueryView { path: Some(split_on(w.skip(":path:"@.len() as int), ',')), ..q }
    } else if has_prefix(w, ":tag:"@) {
        QueryView { tag: Some(split_on(w.skip(":tag:"@.len() as int), ',')), ..q }
    } else if has_prefix(w, ":tags:"@) {
        QueryView { tag: Some(split_on(w.skip(":tags:"@.len() as int), ',')), ..q }
    } else if has_prefix(w, ":existing:"@) {
        let v = w.skip(":existing:"@.len() as int);
        if v == "true"@ || v == "yes"@ || v == "1"@ {
            QueryView { existing: Some(true), ..q }
        } else if v == "false"@ || v == "no"@ || v == "0"@ {
            QueryView { existing: Some(false), ..q }
        } else {
            q
        }
    } else if w.len() > 0 {
        QueryView { text: if q.text.len() > 0 { q.text + seq![' '] + w } else { w }, ..q }
    } else {
        q
    }
}

/// `q` updated by each word in turn.
pub open spec fn apply_words(q: QueryView, ws: Seq<Seq<char>>) -> QueryView
    decreases ws.len(),
{
    if ws.len() == 0 {
        q
    } else {
        apply_words(apply_word(q, ws[0]), ws.drop_first())
    }
}

/// The normal form of a query: trimmed, then lower-cased.
pub open spec fn normal_query(query: Seq<char>) -> Seq<char> {
    lower_of(trim_ws(query))
}

/// The filters of a query: its normal form cut at each space.
pub open spec fn spec_query(query: Seq<char>) -> QueryView {
    apply_words(empty_query(), split_on(normal_query(query), ' '))
}

/// The exec form of `QueryView`.
pub struct Query {
    pub remote: Option<Vec<Vec<char>>>,
    pub kind: Option<Vec<Vec<char>>>,
    pub path: Option<Vec<Vec<char>>>,
    pub tag: Option<Vec<Vec<char>>>,
    pub existing: Option<bool>,
    pub text: Vec<char>,
}

pub open spec fn opt_char_views(o: Option<Vec<Vec<char>>>) -> Option<Seq<Seq<char>>> {
    match o {
        Some(v) => Some(char_views(v@)),
        None => None,
    }
}

impl View for Query {
    type V = QueryView;

    open spec fn view(&self) -> QueryView {
        QueryView {
            remote: opt_char_views(self.remote),
            kind: opt_char_views(self.kind),
            path: opt_char_views(self.path),
            tag: opt_char_views(self.tag),
            existing: self.existing,
            text: self.text@,
        }
    }
}

fn values_after(w: &[char], n: usize) -> (r: Option<Vec<Vec<char>>>)
    requires
        n <= w@.len(),
    ensures
        opt_char_views(r) == Some(split_on(w@.skip(n as int), ',')),
{
    let rest = slice_vec(w, n, w.len());
    assert(rest@ =~= w@.skip(n as int));
    Some(split_chars(&rest, ','))
}

fn word_is(v: &[char], t: &str) -> (b: bool)
    ensures
        b == (v@ == t@),
{
    crate::text::chars_eq(v, &chars_of(t))
}

fn apply_word_exec(q: &mut Query, w: &[char])
    ensures
        final(q)@ == apply_word(old(q)@, w@),
{
    let ghost q0 = q@;
    let remote = chars_of(":remote:");
    let kind = chars_of(":type:");
    let path = chars_of(":path:");
    let tag = chars_of(":tag:");
    let tags = chars_of(":tags:");
    let existing = chars_of(":existing:");
    if starts_with(w, &remote) {
        q.remote = values_after(w, remote.len());
    } else if starts_with(w, &kind) {
        q.kind = values_after(w, kind.len());
    } else if starts_with(w, &path) {
        q.path = values_after(w, path.len());
    } else if starts_with(w, &tag) {
        q.tag = values_after(w, tag.len());
    } else if starts_with(w, &tags) {
        q.tag = values_after(w, tags.len());
    } else if starts_with(w, &existing) {
        assert(!has_prefix(w@, ":remote:"@) && !has_prefix(w@, ":tags:"@));
        let v = slice_vec(w, existing.len(), w.len());
        assert(v@ =~= w@.skip(":existing:"@.len() as int));
        if word_is(&v, "true") || word_is(&v, "yes") || word_is(&v, "1") {
            q.existing = Some(true);
        } else if word_is(&v, "false") || word_is(&v, "no") || word_is(&v, "0") {
            q.existing = Some(false);
        }
    } else if w.len() > 0 {
        if q.text.len() > 0 {
            q.text.push(' ');
            push_all(&mut q.text, w);
            assert(q.text@ =~= q0.text + seq![' '] + w@);
        } else {
            q.text = slice_vec(w, 0, w.len());
            assert(q.text@ =~= w@);
        }
    }
}

/// Reads the filters of a query; see `spec_query`.
pub fn parse_query(query: &str) -> (r: Query)
    ensures
        r@ == spec_query(query@),
{
    let trimmed = string_of(&trim_exec(&chars_of(query)));
    let normal = chars_of(lowercase(trimmed.as_str()).as_str());
    let words = split_chars(&normal, ' ');
    let mut q = Query { remote: None, kind: None, path: None, tag: None, existing: None, text: Vec::new() };
    let ghost ws = char_views(words@);
    let mut i: usize = 0;
    assert(ws.skip(0) =~= ws);
    assert(q@ =~= empty_query());
    while i < words.len()
        invariant
            i <= words.len(),
            ws == char_views(words@),
            ws == split_on(normal_query(query@), ' '),
            apply_words(q@, ws.skip(i as int)) == spec_query(query@),
        decreases words.len() - i,
    {
        assert(ws.skip(i as int).drop_first() =~= ws.skip(i + 1));
        assert(ws.skip(i as int)[0] == words@[i as int]@);
        apply_word_exec(&mut q, &words[i]);
        i = i + 1;
    }
    assert(ws.skip(i as int) =~= Seq::<Seq<char>>::empty());
    q
}

/// Some value of `vals` occurs in `h`.
pub open spec fn any_contains(h: Seq<char>, vals: Seq<Seq<char>>) -> bool {
    exists|k: int| 0 <= k < vals.len() && contains_seq(h, #[trigger] vals[k])
}

/// Some value of `vals` occurs in the lower-case form of some tag.
pub open spec fn tags_match(tags: Seq<Seq<char>>, vals: Seq<Seq<char>>) -> bool {
    exists|j: int| 0 <= j < tags.len() && any_contains(lower_of(#[trigger] tags[j]), vals)
}

/// The type name of a record, by its cached parse; `folder` without one.
pub open spec fn record_kind(w: Workspace) -> Seq<char> {
    match w.parsed_info {
        Some(i) => kind_label(i.workspace_type),
        None => "folder"@,
    }
}

/// A record's name where non-empty, else its path.
pub open spec fn label_text(w: Workspace) -> Seq<char> {
    match w.name {
        Some(n) => if n@.len() > 0 { n@ } else { w.path@ },
        None => w.path@,
    }
}

/// The free text occurs in the lower-case path, name or label.
pub open spec fn text_matches(w: Workspace, t: Seq<char>) -> bool {
    contains_seq(lower_of(w.path@), t)
        || (w.name is Some && contains_seq(lower_of(w.name->0@), t))
        || contains_seq(lower_of(label_text(w)), t)
}

/// Whether a record passes every filter of `q`; `facts` is what the
/// filesystem reports for its probe path.
pub open spec fn spec_keep(w: Workspace, q: QueryView, facts: PathFacts) -> bool {
    &&& (q.text.len() == 0 || text_matches(w, q.text))
    &&& match q.remote {
        Some(vals) => match w.parsed_info {
            Some(i) => match i.remote_host {
                Some(h) => any_contains(lower_of(h@), vals),
                None => false,
            },
            None => false,
        },
        None => true,
    }
    &&& match q.kind {
        Some(vals) => vals.contains(record_kind(w)),
        None => true,
    }
    &&& match q.path {
        Some(vals) => match w.parsed_info {
            Some(i) => any_contains(lower_of(i.path@), vals),
            None => any_contains(lower_of(w.path@), vals),
        },
        None => true,
    }
    &&& match q.tag {
        Some(vals) => match w.parsed_info {
            Some(i) => tags_match(crate::paths::views(i.tags@), vals),
            None => false,
        },
        None => true,
    }
    &&& match q.existing {
        Some(b) => spec_exists(w, facts) == b,
        None => true,
    }
}

/// What the filesystem reports for record `i`: nothing exists past the end
/// of the reports.
pub open spec fn facts_at(facts: Seq<PathFacts>, i: int) -> PathFacts {
    if 0 <= i < facts.len() {
        facts[i]
    } else {
        PathFacts { exists: false, is_file: false }
    }
}

/// The positions, among the first `n` records, of those that pass `q`.
pub open spec fn kept_indices(ws: Seq<Workspace>, q: QueryView, facts: Seq<PathFacts>, n: nat) -> Seq<usize>
    decreases n,
{
    if n == 0 {
        Seq::empty()
    } else {
        kept_indices(ws, q, facts, (n - 1) as nat) + if spec_keep(ws[n - 1], q, facts_at(facts, n - 1)) {
            seq![(n - 1) as usize]
        } else {
            Seq::empty()
        }
    }
}

fn any_contains_exec(h: &[char], vals: &Vec<Vec<char>>) -> (r: bool)
    ensures
        r == any_contains(h@, char_views(vals@)),
{
    let mut k: usize = 0;
    while k < vals.len()
        invariant
            k <= vals.len(),
            forall|j: int| 0 <= j < k ==> !contains_seq(h@, #[trigger] char_views(vals@)[j]),
        decreases vals.len() - k,
    {
        if contains_chars(h, &vals[k]) {
            assert(contains_seq(h@, char_views(vals@)[k as int]));
            return true;
        }
        k = k + 1;
    }
    false
}

fn lower_chars(s: &String) -> (r: Vec<char>)
    ensures
        r@ == lower_of(s@),
{
    chars_of(lowercase(s.as_str()).as_str())
}

fn tags_match_exec(tags: &Vec<String>, vals: &Vec<Vec<char>>) -> (r: bool)
    ensures
        r == tags_match(crate::paths::views(tags@), char_views(vals@)),
{
    let ghost tv = crate::paths::views(tags@);
    let mut j: usize = 0;
    while j < tags.len()
        invariant
            j <= tags.len(),
            tv == crate::paths::views(tags@),
            forall|i: int| 0 <= i < j ==> !any_contains(lower_of(#[trigger] tv[i]), char_views(vals@)),
        decreases tags.len() - j,
    {
        assert(tv[j as int] == tags@[j as int]@);
        if any_contains_exec(&lower_chars(&tags[j]), vals) {
            return true;
        }
        j = j + 1;
    }
    false
}

fn kind_of(w: &Workspace) -> (r: Vec<char>)
    ensures
        r@ == record_kind(*w),
{
    match &w.parsed_info {
        Some(i) => match i.workspace_type {
            crate::parser::WorkspaceType::Folder => chars_of("folder"),
            crate::parser::WorkspaceType::File => chars_of("file"),
            crate::parser::WorkspaceType::Workspace => chars_of("workspace"),
        },
        None => chars_of("folder"),
    }
}

fn seq_contains_exec(vals: &Vec<Vec<char>>, x: &[char]) -> (r: bool)
    ensures
        r == char_views(vals@).contains(x@),
{
    let mut k: usize = 0;
    while k < vals.len()
        invariant
            k <= vals.len(),
            forall|j: int| 0 <= j < k ==> char_views(vals@)[j] != x@,
        decreases vals.len() - k,
    {
        if crate::text::chars_eq(&vals[k], x) {
            assert(char_views(vals@)[k as int] == x@);
            return true;
        }
        k = k + 1;
    }
    false
}

fn text_matches_exec(w: &Workspace, t: &[char]) -> (r: bool)
    ensures
        r == text_matches(*w, t@),
{
    let path_match = contains_chars(&lower_chars(&w.path), t);
    let name_match = match &w.name {
        Some(n) => contains_chars(&lower_chars(n), t),
        None => false,
    };
    let label = match &w.name {
        Some(n) => if chars_of(n.as_str()).len() > 0 { n.clone() } else { w.path.clone() },
        None => w.path.clone(),
    };
    let label_match = contains_chars(&lower_chars(&label), t);
    path_match || name_match || label_match
}

/// Whether a record passes every filter of `q`; see `spec_keep`.
pub fn keep_workspace(w: &Workspace, q: &Query, facts: &PathFacts) -> (r: bool)
    ensures
        r == spec_keep(*w, q@, *facts),
{
    if q.text.len() > 0 && !text_matches_exec(w, &q.text) {
        return false;
    }
    if let Some(vals) = &q.remote {
        let ok = match &w.parsed_info {
            Some(i) => match &i.remote_host {
                Some(h) => any_contains_exec(&lower_chars(h), vals),
                None => false,
            },
            None => false,
        };
        if !ok {
            return false;
        }
    }
    if let Some(vals) = &q.kind {
        if !seq_contains_exec(vals, &kind_of(w)) {
            return false;
        }
    }
    if let Some(vals) = &q.path {
        let ok = match &w.parsed_info {
            Some(i) => any_contains_exec(&lower_chars(&i.path), vals),
            None => any_contains_exec(&lower_chars(&w.path), vals),
        };
        if !ok {
            return false;
        }
    }
    if let Some(vals) = &q.tag {
        let ok = match &w.parsed_info {
            Some(i) => tags_match_exec(&i.tags, vals),
            None => false,
        };
        if !ok {
            return false;
        }
    }
    if let Some(b) = q.existing {
        if workspace_exists(w, facts) != b {
            return false;
        }
    }
    true
}

/// Filters records by a query: `:remote:`, `:type:`, `:path:`, `:tag:`
/// and `:existing:` filters plus free text (see `spec_query` and
/// `spec_keep`). Every record's path is parsed and cached first, with
/// `is_file[i]` as the file-existence flag of record `i`; `facts[i]` is
/// what the filesystem reports for its probe path. Returns the positions of
/// the records that pass, in order; all of them for an empty query.
pub fn filter_workspaces(workspaces: &mut Vec<Workspace>, query: &str, is_file: &Vec<bool>, facts: &Vec<PathFacts>) -> (r: Vec<usize>)
    ensures
        final(workspaces)@.len() == old(workspaces)@.len(),
        forall|i: int| 0 <= i < old(workspaces)@.len()
            ==> parsed_from(#[trigger] final(workspaces)@[i], old(workspaces)@[i], flag_at(is_file@, i)),
        normal_query(query@).len() == 0 ==> r@ == Seq::new(old(workspaces)@.len(), |i: int| i as usize),
        normal_query(query@).len() > 0 ==> r@ == kept_indices(final(workspaces)@, spec_query(query@), facts@, final(workspaces)@.len()),
{
    let _ = process_workspaces(workspaces, is_file);
    let normal = lowercase(string_of(&trim_exec(&chars_of(query))).as_str());
    let empty = chars_of(normal.as_str()).len() == 0;
    let q = parse_query(query);
    let mut out: Vec<usize> = Vec::new();
    let mut i: usize = 0;
    while i < workspaces.len()
        invariant
            i <= workspaces.len(),
            empty == (normal_query(query@).len() == 0),
            q@ == spec_query(query@),
            empty ==> out@ == Seq::new(i as nat, |k: int| k as usize),
            !empty ==> out@ == kept_indices(workspaces@, q@, facts@, i as nat),
        decreases workspaces.len() - i,
    {
        let f = if i < facts.len() {
            PathFacts { exists: facts[i].exists, is_file: facts[i].is_file }
        } else {
            PathFacts { exists: false, is_file: false }
        };
        assert(f == facts_at(facts@, i as int));
        if empty || keep_workspace(&workspaces[i], &q, &f) {
            out.push(i);
        }
        proof {
            if empty {
                assert(out@ =~= Seq::new((i + 1) as nat, |k: int| k as usize));
            } else {
                assert(kept_indices(workspaces@, q@, facts@, (i + 1) as nat) == kept_indices(workspaces@, q@, facts@, i as nat)
                    + if spec_keep(workspaces@[i as int], q@, facts_at(facts@, i as int)) { seq![i] } else { Seq::<usize>::empty() });
                assert(out@ =~= kept_indices(workspaces@, q@, facts@, (i + 1) as nat));
            }
        }
        i = i + 1;
    }
    out
}

/// The records, among the first `n`, that pass `q`, in order.
pub open spec fn kept_records(ws: Seq<Workspace>, q: QueryView, facts: Seq<PathFacts>, n: nat) -> Seq<Workspace>
    decreases n,
{
    if n == 0 {
        Seq::empty()
    } else {
        kept_records(ws, q, facts, (n - 1) as nat) + if spec_keep(ws[n - 1], q, facts_at(facts, n - 1)) {
            seq![ws[n - 1]]
        } else {
            Seq::empty()
        }
    }
}

/// `parsed` is `orig` with each record's parse cached, record `i` parsed
/// with file-existence flag `flags[i]`.
pub open spec fn parsed_all(parsed: Seq<Workspace>, orig: Seq<Workspace>, flags: Seq<bool>) -> bool {
    parsed.len() == orig.len()
        && forall|i: int| 0 <= i < parsed.len() ==> parsed_from(#[trigger] parsed[i], orig[i], flag_at(flags, i))
}

/// The records of `parsed` that a query lets through: all of them for an
/// empty query.
pub open spec fn search_result(parsed: Seq<Workspace>, query: Seq<char>, facts: Seq<PathFacts>) -> Seq<Workspace> {
    if normal_query(query).len() == 0 {
        parsed
    } else {
        kept_records(parsed, spec_query(query), facts, parsed.len())
    }
}

/// The records among `workspaces` that pass a query, in order, each with
/// its path parsed and cached; all of them for an empty query. The flags
/// and reports are as for `filter_workspaces`.
pub fn search_workspaces(workspaces: Vec<Workspace>, query: &str, is_file: &Vec<bool>, facts: &Vec<PathFacts>) -> (r: Vec<Workspace>)
    ensures
        exists|parsed: Seq<Workspace>| #[trigger] parsed_all(parsed, workspaces@, is_file@)
            && r@ == search_result(parsed, query@, facts@),
{
    let ghost orig = workspaces@;
    let mut all = workspaces;
    let _ = process_workspaces(&mut all, is_file);
    let ghost parsed = all@;
    let normal = lowercase(string_of(&trim_exec(&chars_of(query))).as_str());
    let empty = chars_of(normal.as_str()).len() == 0;
    let q = parse_query(query);
    let mut out: Vec<Workspace> = Vec::new();
    let mut i: usize = 0;
    let total = all.len();
    assert(forall|k: int| 0 <= k < parsed.len() ==> parsed_from(#[trigger] parsed[k], orig[k], flag_at(is_file@, k)));
    assert(parsed.skip(0) =~= parsed);
    while i < total
        invariant
            i <= total,
            total == parsed.len(),
            parsed.len() == orig.len(),
            forall|k: int| 0 <= k < parsed.len() ==> parsed_from(#[trigger] parsed[k], orig[k], flag_at(is_file@, k)),
            all@ == parsed.skip(i as int),
            empty == (normal_query(query@).len() == 0),
            q@ == spec_query(query@),
            empty ==> out@ == parsed.take(i as int),
            !empty ==> out@ == kept_records(parsed, q@, facts@, i as nat),
        decreases total - i,
    {
        let ghost before = all@;
        let w = all.remove(0);
        assert(w == parsed[i as int]);
        assert(all@ =~= parsed.skip(i + 1));
        let f = if i < facts.len() {
            PathFacts { exists: facts[i].exists, is_file: facts[i].is_file }
        } else {
            PathFacts { exists: false, is_file: false }
        };
        assert(f == facts_at(facts@, i as int));
        let keep = empty || keep_workspace(&w, &q, &f);
        if keep {
            out.push(w);
        }
        proof {
            if empty {
                assert(out@ =~= parsed.take(i + 1));
            } else {
                assert(out@ =~= kept_records(parsed, q@, facts@, (i + 1) as nat));
            }
        }
        i = i + 1;
    }
    assert(parsed.take(total as int) =~= parsed);
    assert(out@ == search_result(parsed, query@, facts@));
    assert(parsed_all(parsed, orig, is_file@));
    out
}

} // verus!
