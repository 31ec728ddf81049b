//! The state of the interactive browser: the loaded records, the filtered
//! view of them, the selection, the records marked for deletion, and the
//! search input with its completion.

use vstd::prelude::*;
use crate::models::{Workspace, decimal, push_decimal, spec_label};
use crate::text::{chars_of, string_of, push_all, slice_vec, has_prefix};
use crate::filter::{lower_of, white_space, lowercase, is_whitespace_char, contains_seq, contains_chars, char_views, record_kind, facts_at};
use crate::utils::{PathFacts, spec_exists, workspace_exists, process_workspaces};

verus! {

/// What the keyboard currently drives.
#[derive(Debug, Clone, Copy, PartialEq, Eq)]
pub enum InputMode {
    /// Moving through and selecting records.
    Normal,
    /// Editing the profile path.
    ProfilePath,
    /// Choosing among the known profile paths.
    SelectProfile,
    /// Typing a search query.
    Searching,
    /// Confirming deletion of the marked records.
    ConfirmDelete,
}

/// A record as the list shows it.
#[derive(Debug, Clone)]
pub struct WorkspaceInfo {
    pub id: String,
    pub name: Option<String>,
    pub path: String,
    /// Whether the path exists on disk.
    pub exists: bool,
    /// `folder`, `file` or `workspace`.
    pub workspace_type: String,
    pub is_remote: bool,
    pub remote_user: Option<String>,
    pub remote_port: Option<u16>,
    pub tags: Vec<String>,
}

/// Display settings.
#[derive(Debug, Clone, Copy)]
pub struct UiConfig {
    pub use_colors: bool,
}

/// The browser's state. Times are milliseconds on a clock the caller
/// reads; positions in the input are character positions.
pub struct App {
    pub profile_path: String,
    pub workspaces: Vec<Workspace>,
    /// Positions in `workspaces` of the records the filter lets through.
    pub filtered_workspaces: Vec<usize>,
    /// Position in `filtered_workspaces` of the selected record.
    pub selected_workspace_index: Option<usize>,
    /// Ids of the records marked for deletion, each once.
    pub marked_for_deletion: Vec<String>,
    pub input_mode: InputMode,
    pub input_buffer: String,
    pub cursor_position: usize,
    pub search_query: String,
    pub status_message: Option<String>,
    /// When the status message expires.
    pub status_expiry: Option<u64>,
    pub current_autocomplete_index: usize,
    pub is_autocomplete_active: bool,
    pub autocomplete_suggestion: Option<String>,
    /// Where the completed part of the input starts.
    pub autocomplete_start_position: usize,
    pub ui_config: UiConfig,
    pub known_profile_paths: Vec<String>,
    pub selected_profile_index: Option<usize>,
}

/// The set of ids that a list of ids holds.
pub open spec fn id_set(v: Seq<String>) -> Set<Seq<char>> {
    crate::paths::views(v).to_set()
}

/// The id of the record at position `k` of the filtered view, where both
/// positions are valid.
pub open spec fn filtered_id(app: App, k: int) -> Option<Seq<char>> {
    if 0 <= k < app.filtered_workspaces@.len() && app.filtered_workspaces@[k] < app.workspaces@.len() {
        Some(app.workspaces@[app.filtered_workspaces@[k] as int].id@)
    } else {
        None
    }
}

/// The ids of every record in the filtered view.
pub open spec fn filtered_ids(app: App) -> Set<Seq<char>> {
    Set::new(|id: Seq<char>| exists|k: int| #[trigger] filtered_id(app, k) == Some(id))
}

/// `a` is `b` with at most its status changed.
pub open spec fn same_but_status(a: App, b: App) -> bool {
    a == (App { status_message: a.status_message, status_expiry: a.status_expiry, ..b })
}

/// `a` is `b` with at most its marks changed.
pub open spec fn same_but_marks(a: App, b: App) -> bool {
    a == (App { marked_for_deletion: a.marked_for_deletion, ..b })
}

/// `a` is `b` with at most its marks and status changed.
pub open spec fn same_but_marks_and_status(a: App, b: App) -> bool {
    a == (App {
        marked_for_deletion: a.marked_for_deletion,
        status_message: a.status_message,
        status_expiry: a.status_expiry,
        ..b
    })
}

impl App {
    /// The marked ids are held once each.
    pub open spec fn marks_distinct(self) -> bool {
        crate::paths::views(self.marked_for_deletion@).no_duplicates()
    }

    /// The cursor lies within the input, and while a completion is shown,
    /// the completed part starts at or before the cursor.
    pub open spec fn input_positions_valid(self) -> bool {
        &&& self.cursor_position <= self.input_buffer@.len()
        &&& (self.is_autocomplete_active && self.autocomplete_suggestion is Some)
            ==> self.autocomplete_start_position <= self.cursor_position
    }

    /// The set of marked ids.
    pub open spec fn marked(self) -> Set<Seq<char>> {
        id_set(self.marked_for_deletion@)
    }

    /// A fresh browser for `profile_path`: nothing loaded, marked or typed.
    pub fn new(profile_path: String, known_profile_paths: Vec<String>, ui_config: UiConfig) -> (r: App)
        ensures
            r.profile_path == profile_path,
            r.known_profile_paths == known_profile_paths,
            r.workspaces@.len() == 0,
            r.filtered_workspaces@.len() == 0,
            r.selected_workspace_index is None,
            r.marked_for_deletion@.len() == 0,
            r.marks_distinct(),
            r.input_mode == InputMode::Normal,
            r.input_buffer@.len() == 0,
            r.cursor_position == 0,
            r.search_query@.len() == 0,
            r.status_message is None,
            r.status_expiry is None,
            r.current_autocomplete_index == 0,
            !r.is_autocomplete_active,
            r.autocomplete_suggestion is None,
            r.autocomplete_start_position == 0,
            r.ui_config.use_colors == ui_config.use_colors,
            r.selected_profile_index is None,
    {
        let r = App {
            profile_path,
            workspaces: Vec::new(),
            filtered_workspaces: Vec::new(),
            selected_workspace_index: None,
            marked_for_deletion: Vec::new(),
            input_mode: InputMode::Normal,
            input_buffer: String::new(),
            cursor_position: 0,
            search_query: String::new(),
            status_message: None,
            status_expiry: None,
            current_autocomplete_index: 0,
            is_autocomplete_active: false,
            autocomplete_suggestion: None,
            autocomplete_start_position: 0,
            ui_config,
            known_profile_paths,
            selected_profile_index: None,
        };
        assert(crate::paths::views(r.marked_for_deletion@) =~= Seq::<Seq<char>>::empty());
        r
    }

    /// Shows `message` until `duration_ms` after `now_ms`.
    pub fn set_status(&mut self, message: &str, duration_ms: u64, now_ms: u64)
        ensures
            final(self).status_message is Some && final(self).status_message->0@ == message@,
            final(self).status_expiry == Some(if now_ms as int + duration_ms as int > u64::MAX as int {
                u64::MAX
            } else {
                (now_ms + duration_ms) as u64
            }),
            final(self).marked_for_deletion == old(self).marked_for_deletion,
            final(self).workspaces == old(self).workspaces,
            final(self).filtered_workspaces == old(self).filtered_workspaces,
            final(self).selected_workspace_index == old(self).selected_workspace_index,
            final(self).search_query == old(self).search_query,
            final(self).input_buffer == old(self).input_buffer,
            final(self).cursor_position == old(self).cursor_position,
            final(self).is_autocomplete_active == old(self).is_autocomplete_active,
            final(self).autocomplete_suggestion == old(self).autocomplete_suggestion,
            final(self).autocomplete_start_position == old(self).autocomplete_start_position,
            final(self).current_autocomplete_index == old(self).current_autocomplete_index,
            same_but_status(*final(self), *old(self)),
    {
        self.status_message = Some(message.to_string());
        self.status_expiry = Some(now_ms.saturating_add(duration_ms));
    }

    /// Clears the status message once its time has passed.
    pub fn update_status(&mut self, now_ms: u64)
        ensures
            match old(self).status_expiry {
                Some(e) => if now_ms > e {
                    final(self).status_message is None && final(self).status_expiry is None
                } else {
                    final(self).status_message == old(self).status_message
                        && final(self).status_expiry == old(self).status_expiry
                },
                None => final(self).status_message == old(self).status_message
                    && final(self).status_expiry is None,
            },
            final(self).marked_for_deletion == old(self).marked_for_deletion,
    {
        if let Some(expiry) = self.status_expiry {
            if now_ms > expiry {
                self.status_message = None;
                self.status_expiry = None;
            }
        }
    }
}

/// Position of `id` among the marked ids.
fn find_mark(marks: &Vec<String>, id: &String) -> (r: Option<usize>)
    ensures
        match r {
            Some(i) => i < marks@.len() && marks@[i as int]@ == id@,
            None => !id_set(marks@).contains(id@),
        },
{
    let mut i: usize = 0;
    while i < marks.len()
        invariant
            i <= marks.len(),
            forall|j: int| 0 <= j < i ==> marks@[j]@ != id@,
        decreases marks.len() - i,
    {
        if marks[i] == *id {
            return Some(i);
        }
        i = i + 1;
    }
    assert(!id_set(marks@).contains(id@)) by {
        if id_set(marks@).contains(id@) {
            let k = choose|k: int| 0 <= k < crate::paths::views(marks@).len() && crate::paths::views(marks@)[k] == id@;
            assert(marks@[k]@ == id@);
        }
    }
    None
}

proof fn lemma_remove_distinct(v: Seq<String>, i: int)
    requires
        0 <= i < v.len(),
        crate::paths::views(v).no_duplicates(),
    ensures
        crate::paths::views(v.remove(i)).no_duplicates(),
        id_set(v.remove(i)) == id_set(v).remove(v[i]@),
{
    let w = crate::paths::views(v);
    let r = crate::paths::views(v.remove(i));
    assert(r =~= w.remove(i));
    assert forall|x: Seq<char>| r.contains(x) implies w.contains(x) && x != v[i]@ by {
        let k = choose|k: int| 0 <= k < r.len() && r[k] == x;
        if k < i {
            assert(r[k] == w[k]);
            assert(w[k] != w[i]);
        } else {
            assert(r[k] == w[k + 1]);
            assert(w[k + 1] != w[i]);
        }
    }
    assert forall|x: Seq<char>| w.contains(x) && x != v[i]@ implies r.contains(x) by {
        let k = choose|k: int| 0 <= k < w.len() && w[k] == x;
        if k < i {
            assert(r[k] == x);
        } else {
            assert(k != i);
            assert(r[k - 1] == x);
        }
    }
    assert(w[i] == v[i]@);
    assert(id_set(v.remove(i)) =~= id_set(v).remove(v[i]@));
}

proof fn lemma_push_distinct(v: Seq<String>, s: String)
    requires
        crate::paths::views(v).no_duplicates(),
        !id_set(v).contains(s@),
    ensures
        crate::paths::views(v.push(s)).no_duplicates(),
        id_set(v.push(s)) == id_set(v).insert(s@),
{
    let w = crate::paths::views(v);
    assert(crate::paths::views(v.push(s)) =~= w.push(s@));
    assert(id_set(v.push(s)) =~= id_set(v).insert(s@)) by {
        assert(w.push(s@).to_set() =~= w.to_set().insert(s@)) by {
            assert forall|x: Seq<char>| w.push(s@).contains(x) <==> w.to_set().insert(s@).contains(x) by {
                if w.push(s@).contains(x) && x != s@ {
                    let k = choose|k: int| 0 <= k < w.push(s@).len() && w.push(s@)[k] == x;
                    assert(k < w.len());
                    assert(w[k] == x);
                }
                if w.contains(x) {
                    let k = choose|k: int| 0 <= k < w.len() && w[k] == x;
                    assert(w.push(s@)[k] == x);
                }
                if x == s@ {
                    assert(w.push(s@)[w.len() as int] == x);
                }
            }
        }
    }
}

/// Adds `id` to the marks; returns whether it was not there yet.
fn insert_mark(marks: &mut Vec<String>, id: &String) -> (added: bool)
    requires
        crate::paths::views(old(marks)@).no_duplicates(),
    ensures
        crate::paths::views(final(marks)@).no_duplicates(),
        id_set(final(marks)@) == id_set(old(marks)@).insert(id@),
        added == !id_set(old(marks)@).contains(id@),
{
    match find_mark(marks, id) {
        Some(i) => {
            assert(crate::paths::views(marks@)[i as int] == id@);
            assert(id_set(marks@).insert(id@) =~= id_set(marks@));
            false
        },
        None => {
            let copy = id.clone();
            proof { lemma_push_distinct(marks@, copy); }
            marks.push(copy);
            true
        },
    }
}

/// Removes `id` from the marks; returns whether it was there.
fn remove_mark(marks: &mut Vec<String>, id: &String) -> (removed: bool)
    requires
        crate::paths::views(old(marks)@).no_duplicates(),
    ensures
        crate::paths::views(final(marks)@).no_duplicates(),
        id_set(final(marks)@) == id_set(old(marks)@).remove(id@),
        removed == id_set(old(marks)@).contains(id@),
{
    match find_mark(marks, id) {
        Some(i) => {
            proof { lemma_remove_distinct(marks@, i as int); }
            assert(crate::paths::views(marks@)[i as int] == id@);
            marks.remove(i);
            true
        },
        None => {
            assert(id_set(marks@).remove(id@) =~= id_set(marks@));
            false
        },
    }
}

/// The id of the selected record, where the selection is valid.
pub open spec fn selected_id(app: App) -> Option<Seq<char>> {
    match app.selected_workspace_index {
        Some(k) => filtered_id(app, k as int),
        None => None,
    }
}

/// The marks after marking the first `k` records of the filtered view,
/// and how many valid positions were visited.
pub open spec fn mark_fold(app: App, s: Set<Seq<char>>, k: nat) -> (Set<Seq<char>>, nat)
    decreases k,
{
    if k == 0 {
        (s, 0)
    } else {
        let prev = mark_fold(app, s, (k - 1) as nat);
        match filtered_id(app, k - 1) {
            Some(id) => (prev.0.insert(id), prev.1 + 1),
            None => prev,
        }
    }
}

/// The marks after unmarking the first `k` records of the filtered view,
/// and how many marks were removed.
pub open spec fn unmark_fold(app: App, s: Set<Seq<char>>, k: nat) -> (Set<Seq<char>>, nat)
    decreases k,
{
    if k == 0 {
        (s, 0)
    } else {
        let prev = unmark_fold(app, s, (k - 1) as nat);
        match filtered_id(app, k - 1) {
            Some(id) => if prev.0.contains(id) { (prev.0.remove(id), prev.1 + 1) } else { prev },
            None => prev,
        }
    }
}

/// The marks after toggling the first `k` records of the filtered view one
/// by one, and how many were marked and unmarked.
pub open spec fn toggle_fold(app: App, s: Set<Seq<char>>, k: nat) -> (Set<Seq<char>>, nat, nat)
    decreases k,
{
    if k == 0 {
        (s, 0, 0)
    } else {
        let prev = toggle_fold(app, s, (k - 1) as nat);
        match filtered_id(app, k - 1) {
            Some(id) => if prev.0.contains(id) {
                (prev.0.remove(id), prev.1, prev.2 + 1)
            } else {
                (prev.0.insert(id), prev.1 + 1, prev.2)
            },
            None => prev,
        }
    }
}

/// `before` + the decimal digits of `n` + `after`.
pub open spec fn count_message(before: Seq<char>, n: nat, after: Seq<char>) -> Seq<char> {
    before + decimal(n) + after
}

fn count_message_exec(before: &str, n: usize, after: &str) -> (r: String)
    ensures
        r@ == count_message(before@, n as nat, after@),
{
    let mut v = chars_of(before);
    push_decimal(&mut v, n as u64);
    push_all(&mut v, &chars_of(after));
    string_of(&v)
}

/// How long status messages about marks are shown.
pub const MARK_STATUS_MS: u64 = 2000;

/// The word before the cursor starts after the last space before it.
pub open spec fn word_start(buf: Seq<char>, cursor: int) -> int {
    match crate::parser::last_index_of(buf.take(cursor), ' ') {
        Some(p) => p + 1,
        None => 0,
    }
}

/// The word being typed, and where it starts: from the last space before
/// the cursor up to the cursor; while a completion is shown, only the part
/// the user typed, up to where the completion starts.
pub open spec fn spec_current_word(app: App) -> (Seq<char>, int) {
    let buf = app.input_buffer@;
    if buf.len() == 0 {
        (Seq::empty(), 0)
    } else {
        let ws = word_start(buf, app.cursor_position as int);
        if app.is_autocomplete_active && app.autocomplete_suggestion is Some && ws <= app.autocomplete_start_position {
            (buf.subrange(ws, app.autocomplete_start_position as int), ws)
        } else {
            (buf.subrange(ws, app.cursor_position as int), ws)
        }
    }
}

impl App {
    /// Marks the selected record, or unmarks it where it is marked.
    pub fn toggle_mark_selected(&mut self)
        requires
            old(self).marks_distinct(),
        ensures
            final(self).marks_distinct(),
            same_but_marks(*final(self), *old(self)),
            final(self).marked() == match selected_id(*old(self)) {
                Some(id) => if old(self).marked().contains(id) {
                    old(self).marked().remove(id)
                } else {
                    old(self).marked().insert(id)
                },
                None => old(self).marked(),
            },
    {
        if let Some(selected_idx) = self.selected_workspace_index {
            if selected_idx < self.filtered_workspaces.len() {
                let workspace_idx = self.filtered_workspaces[selected_idx];
                if workspace_idx < self.workspaces.len() {
                    let id = self.workspaces[workspace_idx].id.clone();
                    if !remove_mark(&mut self.marked_for_deletion, &id) {
                        insert_mark(&mut self.marked_for_deletion, &id);
                    }
                }
            }
        }
    }

    /// Clears every mark.
    pub fn cancel_deletion(&mut self, now_ms: u64)
        ensures
            same_but_marks_and_status(*final(self), *old(self)),
            final(self).marks_distinct(),
            final(self).marked() == Set::<Seq<char>>::empty(),
            final(self).status_message is Some && final(self).status_message->0@ == "Deletion canceled"@,
    {
        self.marked_for_deletion = Vec::new();
        assert(crate::paths::views(self.marked_for_deletion@) =~= Seq::<Seq<char>>::empty());
        assert(self.marked() =~= Set::<Seq<char>>::empty());
        self.set_status("Deletion canceled", MARK_STATUS_MS, now_ms);
    }

    /// Marks every record of the filtered view; says how many where there
    /// was any.
    pub fn mark_all_filtered(&mut self, now_ms: u64)
        requires
            old(self).marks_distinct(),
        ensures
            same_but_marks_and_status(*final(self), *old(self)),
            final(self).marks_distinct(),
            final(self).marked() == mark_fold(*old(self), old(self).marked(), old(self).filtered_workspaces@.len()).0,
            ({
                let n = mark_fold(*old(self), old(self).marked(), old(self).filtered_workspaces@.len()).1;
                if n > 0 {
                    final(self).status_message is Some && final(self).status_message->0@
                        == count_message("Marked "@, n, " workspaces for deletion"@)
                } else {
                    final(self).status_message == old(self).status_message
                }
            }),
    {
        let ghost a0 = *self;
        let mut count: usize = 0;
        let mut k: usize = 0;
        while k < self.filtered_workspaces.len()
            invariant
                k <= self.filtered_workspaces.len(),
                self.workspaces == a0.workspaces,
                self.filtered_workspaces == a0.filtered_workspaces,
                self.status_message == a0.status_message,
                same_but_marks(*self, a0),
                self.marks_distinct(),
                count <= k,
                (self.marked(), count as nat) == mark_fold(a0, a0.marked(), k as nat),
            decreases self.filtered_workspaces.len() - k,
        {
            let workspace_idx = self.filtered_workspaces[k];
            if workspace_idx < self.workspaces.len() {
                let id = self.workspaces[workspace_idx].id.clone();
                insert_mark(&mut self.marked_for_deletion, &id);
                count = count + 1;
            }
            k = k + 1;
        }
        if count > 0 {
            let msg = count_message_exec("Marked ", count, " workspaces for deletion");
            self.set_status(msg.as_str(), MARK_STATUS_MS, now_ms);
        }
    }

    /// Unmarks every record of the filtered view; says how many marks went
    /// where there was any.
    pub fn unmark_all_filtered(&mut self, now_ms: u64)
        requires
            old(self).marks_distinct(),
        ensures
            same_but_marks_and_status(*final(self), *old(self)),
            final(self).marks_distinct(),
            final(self).marked() == unmark_fold(*old(self), old(self).marked(), old(self).filtered_workspaces@.len()).0,
            ({
                let n = unmark_fold(*old(self), old(self).marked(), old(self).filtered_workspaces@.len()).1;
                if n > 0 {
                    final(self).status_message is Some && final(self).status_message->0@
                        == count_message("Unmarked "@, n, " workspaces"@)
                } else {
                    final(self).status_message == old(self).status_message
                }
            }),
    {
        let ghost a0 = *self;
        let mut count: usize = 0;
        let mut k: usize = 0;
        while k < self.filtered_workspaces.len()
            invariant
                k <= self.filtered_workspaces.len(),
                self.workspaces == a0.workspaces,
                self.filtered_workspaces == a0.filtered_workspaces,
                self.status_message == a0.status_message,
                same_but_marks(*self, a0),
                self.marks_distinct(),
                count <= k,
                (self.marked(), count as nat) == unmark_fold(a0, a0.marked(), k as nat),
            decreases self.filtered_workspaces.len() - k,
        {
            let workspace_idx = self.filtered_workspaces[k];
            if workspace_idx < self.workspaces.len() {
                let id = self.workspaces[workspace_idx].id.clone();
                if remove_mark(&mut self.marked_for_deletion, &id) {
                    count = count + 1;
                }
            }
            k = k + 1;
        }
        if count > 0 {
            let msg = count_message_exec("Unmarked ", count, " workspaces");
            self.set_status(msg.as_str(), MARK_STATUS_MS, now_ms);
        }
    }

    /// Toggles each record of the filtered view in turn; says how many were
    /// marked and unmarked.
    pub fn toggle_mark_all_filtered(&mut self, now_ms: u64)
        requires
            old(self).marks_distinct(),
        ensures
            same_but_marks_and_status(*final(self), *old(self)),
            final(self).marks_distinct(),
            final(self).marked() == toggle_fold(*old(self), old(self).marked(), old(self).filtered_workspaces@.len()).0,
            ({
                let t = toggle_fold(*old(self), old(self).marked(), old(self).filtered_workspaces@.len());
                if t.1 > 0 && t.2 > 0 {
                    final(self).status_message is Some && final(self).status_message->0@
                        == count_message("Toggled all: "@, t.1, " marked, "@) + decimal(t.2) + " unmarked"@
                } else if t.1 > 0 {
                    final(self).status_message is Some && final(self).status_message->0@
                        == count_message("Marked "@, t.1, " workspaces"@)
                } else if t.2 > 0 {
                    final(self).status_message is Some && final(self).status_message->0@
                        == count_message("Unmarked "@, t.2, " workspaces"@)
                } else {
                    final(self).status_message == old(self).status_message
                }
            }),
    {
        let ghost a0 = *self;
        let mut marked_count: usize = 0;
        let mut unmarked_count: usize = 0;
        let mut k: usize = 0;
        while k < self.filtered_workspaces.len()
            invariant
                k <= self.filtered_workspaces.len(),
                self.workspaces == a0.workspaces,
                self.filtered_workspaces == a0.filtered_workspaces,
                self.status_message == a0.status_message,
                same_but_marks(*self, a0),
                self.marks_distinct(),
                marked_count + unmarked_count <= k,
                (self.marked(), marked_count as nat, unmarked_count as nat) == toggle_fold(a0, a0.marked(), k as nat),
            decreases self.filtered_workspaces.len() - k,
        {
            let workspace_idx = self.filtered_workspaces[k];
            if workspace_idx < self.workspaces.len() {
                let id = self.workspaces[workspace_idx].id.clone();
                if remove_mark(&mut self.marked_for_deletion, &id) {
                    unmarked_count = unmarked_count + 1;
                } else {
                    insert_mark(&mut self.marked_for_deletion, &id);
                    marked_count = marked_count + 1;
                }
            }
            k = k + 1;
        }
        if marked_count > 0 && unmarked_count > 0 {
            let mut v = chars_of(count_message_exec("Toggled all: ", marked_count, " marked, ").as_str());
            push_decimal(&mut v, unmarked_count as u64);
            push_all(&mut v, &chars_of(" unmarked"));
            let msg = string_of(&v);
            self.set_status(msg.as_str(), MARK_STATUS_MS, now_ms);
        } else if marked_count > 0 {
            let msg = count_message_exec("Marked ", marked_count, " workspaces");
            self.set_status(msg.as_str(), MARK_STATUS_MS, now_ms);
        } else if unmarked_count > 0 {
            let msg = count_message_exec("Unmarked ", unmarked_count, " workspaces");
            self.set_status(msg.as_str(), MARK_STATUS_MS, now_ms);
        }
    }

    /// The word being typed and where it starts; see `spec_current_word`.
    pub fn get_current_word(&self) -> (r: (String, usize))
        requires
            self.input_positions_valid(),
        ensures
            r.0@ == spec_current_word(*self).0,
            r.1 as int == spec_current_word(*self).1,
            r.1 as int + r.0@.len() <= self.cursor_position,
    {
        let buf = chars_of(self.input_buffer.as_str());
        if buf.len() == 0 {
            return (String::new(), 0);
        }
        let before = slice_vec(&buf, 0, self.cursor_position);
        assert(before@ =~= buf@.take(self.cursor_position as int));
        let start = match crate::parser::find_last(&before, ' ') {
            Some(p) => p + 1,
            None => 0,
        };
        if self.is_autocomplete_active && self.autocomplete_suggestion.is_some() && start <= self.autocomplete_start_position {
            return (string_of(&slice_vec(&buf, start, self.autocomplete_start_position)), start);
        }
        (string_of(&slice_vec(&buf, start, self.cursor_position)), start)
    }
}

/// Accepts the shown completion: completion stops and its state is reset.
pub fn commit_autocomplete(app: &mut App)
    ensures
        !final(app).is_autocomplete_active,
        final(app).autocomplete_suggestion is None,
        final(app).current_autocomplete_index == 0,
        final(app).input_buffer == old(app).input_buffer,
        final(app).cursor_position == old(app).cursor_position,
        final(app).marked_for_deletion == old(app).marked_for_deletion,
{
    app.is_autocomplete_active = false;
    app.autocomplete_suggestion = None;
    app.current_autocomplete_index = 0;
}

/// `s` with `p` removed from its front as many times as it is there.
pub open spec fn strip_all_prefix(s: Seq<char>, p: Seq<char>) -> Seq<char>
    decreases s.len(),
{
    if p.len() > 0 && has_prefix(s, p) {
        strip_all_prefix(s.skip(p.len() as int), p)
    } else {
        s
    }
}

fn strip_all_prefix_exec(s: &[char], p: &[char]) -> (r: Vec<char>)
    ensures
        r@ == strip_all_prefix(s@, p@),
{
    let mut i: usize = 0;
    assert(s@.skip(0) =~= s@);
    loop
        invariant
            i <= s.len(),
            strip_all_prefix(s@.skip(i as int), p@) == strip_all_prefix(s@, p@),
        decreases s.len() - i,
    {
        let rest = slice_vec(s, i, s.len());
        assert(rest@ =~= s@.skip(i as int));
        if p.len() > 0 && crate::text::starts_with(&rest, p) {
            assert(s@.skip(i as int).skip(p@.len() as int) =~= s@.skip(i + p.len()));
            i = i + p.len();
        } else {
            return rest;
        }
    }
}

/// The words of `s`: its maximal runs of characters without white space.
pub open spec fn words_of(s: Seq<char>) -> Seq<Seq<char>>
    decreases s.len(),
{
    words_from(s, Seq::empty())
}

/// The words of `cur + s`, where `cur` holds no white space.
pub open spec fn words_from(s: Seq<char>, cur: Seq<char>) -> Seq<Seq<char>>
    decreases s.len(),
{
    if s.len() == 0 {
        if cur.len() > 0 { seq![cur] } else { Seq::empty() }
    } else if white_space(s[0]) {
        (if cur.len() > 0 { seq![cur] } else { Seq::empty() }) + words_from(s.drop_first(), Seq::empty())
    } else {
        words_from(s.drop_first(), cur.push(s[0]))
    }
}

/// Splits `s` into its words, as `str::split_whitespace` does.
pub fn split_words(s: &[char]) -> (r: Vec<Vec<char>>)
    ensures
        char_views(r@) == words_of(s@),
{
    let mut done: Vec<Vec<char>> = Vec::new();
    let mut cur: Vec<char> = Vec::new();
    let mut i: usize = 0;
    assert(s@.skip(0) =~= s@);
    assert(char_views(done@) =~= Seq::<Seq<char>>::empty());
    assert(char_views(done@) + words_from(s@.skip(0), cur@) =~= words_of(s@));
    while i < s.len()
        invariant
            i <= s.len(),
            char_views(done@) + words_from(s@.skip(i as int), cur@) == words_of(s@),
        decreases s.len() - i,
    {
        let ghost t = s@.skip(i as int);
        assert(t.drop_first() =~= s@.skip(i + 1));
        assert(t[0] == s@[i as int]);
        let ghost before_done = char_views(done@);
        let ghost before_cur = cur@;
        if is_whitespace_char(s[i]) {
            if cur.len() > 0 {
                let finished = cur;
                done.push(finished);
                assert(char_views(done@) =~= before_done.push(before_cur));
                assert(char_views(done@) + words_from(t.drop_first(), Seq::empty())
                    =~= before_done + (seq![before_cur] + words_from(t.drop_first(), Seq::empty())));
            } else {
                assert(before_done + words_from(t.drop_first(), Seq::empty())
                    =~= before_done + (Seq::<Seq<char>>::empty() + words_from(t.drop_first(), Seq::empty())));
            }
            cur = Vec::new();
        } else {
            cur.push(s[i]);
        }
        i = i + 1;
    }
    assert(s@.skip(i as int) =~= Seq::<char>::empty());
    if cur.len() > 0 {
        let ghost before_done = char_views(done@);
        let ghost last = cur@;
        done.push(cur);
        assert(char_views(done@) =~= before_done + seq![last]);
    } else {
        assert(char_views(done@) + Seq::<Seq<char>>::empty() =~= char_views(done@));
    }
    done
}

/// The browser's search filters, read from its lower-cased query.
pub struct BrowseQuery {
    pub remote: Option<bool>,
    pub kind: Option<Seq<char>>,
    pub tag: Option<Seq<char>>,
    pub existing: Option<bool>,
    pub keywords: Seq<Seq<char>>,
}

/// `q` updated by one word: `:remote:yes|no`, `:type:<t>`, `:tag:<t>`,
/// `:existing:yes|no`, or a keyword.
pub open spec fn browse_word(q: BrowseQuery, w: Seq<char>) -> BrowseQuery {
    if has_prefix(w, ":remote:"@) {
        let v = strip_all_prefix(w, ":remote:"@);
        if v == "yes"@ { BrowseQuery { remote: Some(true), ..q } }
        else if v == "no"@ { BrowseQuery { remote: Some(false), ..q } }
        else { q }
    } else if has_prefix(w, ":type:"@) {
        BrowseQuery { kind: Some(strip_all_prefix(w, ":type:"@)), ..q }
    } else if has_prefix(w, ":tag:"@) {
        BrowseQuery { tag: Some(strip_all_prefix(w, ":tag:"@)), ..q }
    } else if has_prefix(w, ":existing:"@) {
        let v = strip_all_prefix(w, ":existing:"@);
        if v == "yes"@ { BrowseQuery { existing: Some(true), ..q } }
        else if v == "no"@ { BrowseQuery { existing: Some(false), ..q } }
        else { q }
    } else if w.len() > 0 {
        BrowseQuery { keywords: q.keywords.push(w), ..q }
    } else {
        q
    }
}

pub open spec fn browse_words(q: BrowseQuery, ws: Seq<Seq<char>>) -> BrowseQuery
    decreases ws.len(),
{
    if ws.len() == 0 { q } else { browse_words(browse_word(q, ws[0]), ws.drop_first()) }
}

/// The browser's filters for a search query.
pub open spec fn spec_browse_query(query: Seq<char>) -> BrowseQuery {
    browse_words(
        BrowseQuery { remote: None, kind: None, tag: None, existing: None, keywords: Seq::empty() },
        words_of(lower_of(query)),
    )
}

/// The text that keywords are looked for in: label, path and tags, lower
/// case, separated by spaces.
pub open spec fn combined_text(w: Workspace) -> Seq<char> {
    let tags = match w.parsed_info {
        Some(i) => lower_of(join_spaces(crate::paths::views(i.tags@))),
        None => Seq::empty(),
    };
    lower_of(spec_label(w, false)) + seq![' '] + lower_of(w.path@) + seq![' '] + tags
}

/// Strings joined with single spaces.
pub open spec fn join_spaces(v: Seq<Seq<char>>) -> Seq<char>
    decreases v.len(),
{
    if v.len() == 0 {
        Seq::empty()
    } else if v.len() == 1 {
        v[0]
    } else {
        join_spaces(v.drop_last()) + seq![' '] + v.last()
    }
}

/// Whether a parsed record passes the browser's filters. A `:type:` value
/// other than `folder`, `file` or `workspace` filters nothing.
pub open spec fn browse_keep(w: Workspace, q: BrowseQuery, facts: PathFacts) -> bool {
    &&& match q.remote {
        Some(r) => (match w.parsed_info { Some(i) => i.remote_authority is Some, None => false }) == r,
        None => true,
    }
    &&& match q.kind {
        Some(t) => !(t == "folder"@ || t == "file"@ || t == "workspace"@) || record_kind(w) == t,
        None => true,
    }
    &&& match q.tag {
        Some(t) => match w.parsed_info {
            Some(i) => exists|j: int| 0 <= j < i.tags@.len() && contains_seq(lower_of(#[trigger] i.tags@[j]@), t),
            None => false,
        },
        None => true,
    }
    &&& match q.existing {
        Some(e) => spec_exists(w, facts) == e,
        None => true,
    }
    &&& forall|k: int| 0 <= k < q.keywords.len() ==> contains_seq(combined_text(w), #[trigger] q.keywords[k])
}

/// Positions, among the first `n` records, of those that pass.
pub open spec fn browse_indices(ws: Seq<Workspace>, q: BrowseQuery, facts: Seq<PathFacts>, n: nat) -> Seq<usize>
    decreases n,
{
    if n == 0 {
        Seq::empty()
    } else {
        browse_indices(ws, q, facts, (n - 1) as nat) + if browse_keep(ws[n - 1], q, facts_at(facts, n - 1)) {
            seq![(n - 1) as usize]
        } else {
            Seq::empty()
        }
    }
}

fn join_spaces_exec(v: &Vec<String>) -> (r: Vec<char>)
    ensures
        r@ == join_spaces(crate::paths::views(v@)),
{
    let ghost vv = crate::paths::views(v@);
    let mut out: Vec<char> = Vec::new();
    let mut i: usize = 0;
    assert(vv.take(0) =~= Seq::<Seq<char>>::empty());
    while i < v.len()
        invariant
            i <= v.len(),
            vv == crate::paths::views(v@),
            out@ == join_spaces(vv.take(i as int)),
        decreases v.len() - i,
    {
        assert(vv.take(i + 1).drop_last() =~= vv.take(i as int));
        assert(vv.take(i + 1).last() == v@[i as int]@);
        if i > 0 {
            out.push(' ');
        }
        push_all(&mut out, &chars_of(v[i].as_str()));
        proof {
            if i == 0 {
                assert(vv.take(1) =~= seq![v@[0]@]);
            }
        }
        i = i + 1;
        assert(out@ =~= join_spaces(vv.take(i as int)));
    }
    assert(vv.take(v.len() as int) =~= vv);
    out
}

fn combined_text_exec(w: &Workspace) -> (r: Vec<char>)
    ensures
        r@ == combined_text(*w),
{
    let mut out = chars_of(lowercase(crate::models::label_of(w, false).as_str()).as_str());
    out.push(' ');
    push_all(&mut out, &chars_of(lowercase(w.path.as_str()).as_str()));
    out.push(' ');
    match &w.parsed_info {
        Some(i) => {
            let joined = string_of(&join_spaces_exec(&i.tags));
            push_all(&mut out, &chars_of(lowercase(joined.as_str()).as_str()));
        },
        None => {},
    }
    out
}

/// The browser's exec form of `BrowseQuery`.
struct BrowseFilters {
    remote: Option<bool>,
    kind: Option<Vec<char>>,
    tag: Option<Vec<char>>,
    existing: Option<bool>,
    keywords: Vec<Vec<char>>,
}

spec fn browse_view(f: BrowseFilters) -> BrowseQuery {
    BrowseQuery {
        remote: f.remote,
        kind: match f.kind { Some(k) => Some(k@), None => None },
        tag: match f.tag { Some(k) => Some(k@), None => None },
        existing: f.existing,
        keywords: char_views(f.keywords@),
    }
}

fn yes_no(v: &[char]) -> (r: Option<bool>)
    ensures
        r == (if v@ == "yes"@ { Some(true) } else if v@ == "no"@ { Some(false) } else { None::<bool> }),
{
    if crate::text::chars_eq(v, &chars_of("yes")) {
        Some(true)
    } else if crate::text::chars_eq(v, &chars_of("no")) {
        Some(false)
    } else {
        None
    }
}

fn browse_word_exec(f: &mut BrowseFilters, w: &[char])
    ensures
        browse_view(*final(f)) == browse_word(browse_view(*old(f)), w@),
{
    let ghost f0 = browse_view(*f);
    let remote = chars_of(":remote:");
    let kind = chars_of(":type:");
    let tag = chars_of(":tag:");
    let existing = chars_of(":existing:");
    if crate::text::starts_with(w, &remote) {
        if let Some(b) = yes_no(&strip_all_prefix_exec(w, &remote)) {
            f.remote = Some(b);
        }
    } else if crate::text::starts_with(w, &kind) {
        f.kind = Some(strip_all_prefix_exec(w, &kind));
    } else if crate::text::starts_with(w, &tag) {
        f.tag = Some(strip_all_prefix_exec(w, &tag));
    } else if crate::text::starts_with(w, &existing) {
        if let Some(b) = yes_no(&strip_all_prefix_exec(w, &existing)) {
            f.existing = Some(b);
        }
    } else if w.len() > 0 {
        let ghost before = f.keywords@;
        f.keywords.push(slice_vec(w, 0, w.len()));
        assert(w@.subrange(0, w@.len() as int) =~= w@);
        assert(char_views(f.keywords@) =~= char_views(before).push(w@));
    }
}

fn browse_filters(query: &String) -> (r: BrowseFilters)
    ensures
        browse_view(r) == spec_browse_query(query@),
{
    let words = split_words(&chars_of(lowercase(query.as_str()).as_str()));
    let mut f = BrowseFilters { remote: None, kind: None, tag: None, existing: None, keywords: Vec::new() };
    let ghost ws = char_views(words@);
    let mut i: usize = 0;
    assert(ws.skip(0) =~= ws);
    assert(char_views(f.keywords@) =~= Seq::<Seq<char>>::empty());
    while i < words.len()
        invariant
            i <= words.len(),
            ws == char_views(words@),
            browse_words(browse_view(f), ws.skip(i as int)) == spec_browse_query(query@),
        decreases words.len() - i,
    {
        assert(ws.skip(i as int).drop_first() =~= ws.skip(i + 1));
        assert(ws.skip(i as int)[0] == words@[i as int]@);
        browse_word_exec(&mut f, &words[i]);
        i = i + 1;
    }
    assert(ws.skip(i as int) =~= Seq::<Seq<char>>::empty());
    f
}

fn all_keywords_in(text: &[char], kws: &Vec<Vec<char>>) -> (r: bool)
    ensures
        r == forall|j: int| 0 <= j < kws@.len() ==> contains_seq(text@, #[trigger] char_views(kws@)[j]),
{
    let mut k: usize = 0;
    while k < kws.len()
        invariant
            k <= kws.len(),
            forall|j: int| 0 <= j < k ==> contains_seq(text@, #[trigger] char_views(kws@)[j]),
        decreases kws.len() - k,
    {
        if !contains_chars(text, &kws[k]) {
            assert(!contains_seq(text@, char_views(kws@)[k as int]));
            return false;
        }
        k = k + 1;
    }
    true
}

fn any_tag_contains(tags: &Vec<String>, t: &[char]) -> (r: bool)
    ensures
        r == exists|k: int| 0 <= k < tags@.len() && contains_seq(lower_of(#[trigger] tags@[k]@), t@),
{
    let mut found = false;
    let mut j: usize = 0;
    while j < tags.len()
        invariant
            j <= tags.len(),
            found == exists|k: int| 0 <= k < j && contains_seq(lower_of(#[trigger] tags@[k]@), t@),
        decreases tags.len() - j,
    {
        if contains_chars(&chars_of(lowercase(tags[j].as_str()).as_str()), t) {
            found = true;
        }
        j = j + 1;
    }
    found
}

fn browse_keep_exec(w: &Workspace, f: &BrowseFilters, facts: &PathFacts) -> (r: bool)
    ensures
        r == browse_keep(*w, browse_view(*f), *facts),
{
    if let Some(r) = f.remote {
        let remote = match &w.parsed_info {
            Some(i) => i.remote_authority.is_some(),
            None => false,
        };
        if remote != r {
            return false;
        }
    }
    if let Some(t) = &f.kind {
        let known = crate::text::chars_eq(t, &chars_of("folder")) || crate::text::chars_eq(t, &chars_of("file"))
            || crate::text::chars_eq(t, &chars_of("workspace"));
        if known {
            let k = match &w.parsed_info {
                Some(i) => match i.workspace_type {
                    crate::parser::WorkspaceType::Folder => chars_of("folder"),
                    crate::parser::WorkspaceType::File => chars_of("file"),
                    crate::parser::WorkspaceType::Workspace => chars_of("workspace"),
                },
                None => chars_of("folder"),
            };
            if !crate::text::chars_eq(&k, t) {
                return false;
            }
        }
    }
    if let Some(t) = &f.tag {
        let ok = match &w.parsed_info {
            Some(i) => any_tag_contains(&i.tags, t),
            None => false,
        };
        if !ok {
            return false;
        }
    }
    if let Some(e) = f.existing {
        if workspace_exists(w, facts) != e {
            return false;
        }
    }
    if f.keywords.len() > 0 {
        let text = combined_text_exec(w);
        if !all_keywords_in(&text, &f.keywords) {
            assert(browse_view(*f).keywords == char_views(f.keywords@));
            assert(!(forall|j: int| 0 <= j < browse_view(*f).keywords.len()
                ==> contains_seq(combined_text(*w), #[trigger] browse_view(*f).keywords[j])));
            return false;
        }
    }
    true
}

impl App {
    /// Applies the search query: every record is parsed first (`is_file[i]`
    /// is record `i`'s file-existence flag), then the records that pass the
    /// query's filters are listed (see `browse_keep`; `facts[i]` is what the
    /// filesystem reports for record `i`'s probe path), and the first of
    /// them is selected.
    pub fn apply_filter(&mut self, is_file: &Vec<bool>, facts: &Vec<PathFacts>)
        ensures
            crate::filter::parsed_all(final(self).workspaces@, old(self).workspaces@, is_file@),
            final(self).filtered_workspaces@ == browse_indices(
                final(self).workspaces@,
                spec_browse_query(old(self).search_query@),
                facts@,
                final(self).workspaces@.len(),
            ),
            final(self).selected_workspace_index == if final(self).filtered_workspaces@.len() > 0 {
                Some(0usize)
            } else {
                None::<usize>
            },
            final(self).search_query == old(self).search_query,
            final(self).marked_for_deletion == old(self).marked_for_deletion,
            final(self).input_buffer == old(self).input_buffer,
            final(self).cursor_position == old(self).cursor_position,
            final(self).is_autocomplete_active == old(self).is_autocomplete_active,
            final(self).autocomplete_suggestion == old(self).autocomplete_suggestion,
            final(self).autocomplete_start_position == old(self).autocomplete_start_position,
            final(self).current_autocomplete_index == old(self).current_autocomplete_index,
            final(self).status_message == old(self).status_message,
            final(self).status_expiry == old(self).status_expiry,
    {
        let _ = process_workspaces(&mut self.workspaces, is_file);
        let f = browse_filters(&self.search_query);
        let mut out: Vec<usize> = Vec::new();
        let mut i: usize = 0;
        while i < self.workspaces.len()
            invariant
                i <= self.workspaces.len(),
                browse_view(f) == spec_browse_query(self.search_query@),
                out@ == browse_indices(self.workspaces@, browse_view(f), facts@, i as nat),
            decreases self.workspaces.len() - i,
        {
            let fa = if i < facts.len() {
                PathFacts { exists: facts[i].exists, is_file: facts[i].is_file }
            } else {
                PathFacts { exists: false, is_file: false }
            };
            assert(fa == facts_at(facts@, i as int));
            if browse_keep_exec(&self.workspaces[i], &f, &fa) {
                out.push(i);
            }
            assert(out@ =~= browse_indices(self.workspaces@, browse_view(f), facts@, (i + 1) as nat));
            i = i + 1;
        }
        self.selected_workspace_index = if out.len() > 0 { Some(0) } else { None };
        self.filtered_workspaces = out;
        proof {
            assert(crate::filter::parsed_all(self.workspaces@, old(self).workspaces@, is_file@));
        }
    }
}

impl App {
    /// Takes in freshly loaded records and applies the search query to
    /// them; see `apply_filter`.
    pub fn load_workspaces(&mut self, workspaces: Vec<Workspace>, is_file: &Vec<bool>, facts: &Vec<PathFacts>)
        ensures
            crate::filter::parsed_all(final(self).workspaces@, workspaces@, is_file@),
            final(self).filtered_workspaces@ == browse_indices(
                final(self).workspaces@,
                spec_browse_query(old(self).search_query@),
                facts@,
                final(self).workspaces@.len(),
            ),
            final(self).selected_workspace_index == if final(self).filtered_workspaces@.len() > 0 {
                Some(0usize)
            } else {
                None::<usize>
            },
            final(self).marked_for_deletion == old(self).marked_for_deletion,
    {
        self.workspaces = workspaces;
        self.apply_filter(is_file, facts);
    }
}

/// Searches for what the input holds and says how many records match.
pub fn update_search_results(app: &mut App, is_file: &Vec<bool>, facts: &Vec<PathFacts>, now_ms: u64)
    ensures
        final(app).search_query@ == old(app).input_buffer@,
        final(app).filtered_workspaces@ == browse_indices(
            final(app).workspaces@,
            spec_browse_query(old(app).input_buffer@),
            facts@,
            final(app).workspaces@.len(),
        ),
        crate::filter::parsed_all(final(app).workspaces@, old(app).workspaces@, is_file@),
        final(app).status_message is Some,
        final(app).status_message->0@ == if final(app).filtered_workspaces@.len() == 0 {
            "No matches found"@
        } else {
            count_message("Found "@, final(app).filtered_workspaces@.len(), " matches"@)
        },
        final(app).marked_for_deletion == old(app).marked_for_deletion,
{
    app.search_query = app.input_buffer.clone();
    app.apply_filter(is_file, facts);
    let count = app.filtered_workspaces.len();
    if count == 0 {
        app.set_status("No matches found", 1000, now_ms);
    } else {
        let msg = count_message_exec("Found ", count, " matches");
        app.set_status(msg.as_str(), 1000, now_ms);
    }
}

/// The filter modifiers that completion offers, in order.
pub open spec fn filter_modifiers() -> Seq<Seq<char>> {
    seq![":existing:"@, ":remote:"@, ":type:"@, ":path:"@, ":tag:"@]
}

fn filter_modifier_list() -> (r: Vec<Vec<char>>)
    ensures
        char_views(r@) == filter_modifiers(),
{
    let r = vec![chars_of(":existing:"), chars_of(":remote:"), chars_of(":type:"), chars_of(":path:"), chars_of(":tag:")];
    assert(char_views(r@) =~= filter_modifiers());
    r
}

/// What is left of each of `ms` that starts with `w`, once `w` is taken
/// off, in order.
pub open spec fn completions(ms: Seq<Seq<char>>, w: Seq<char>) -> Seq<Seq<char>>
    decreases ms.len(),
{
    if ms.len() == 0 {
        Seq::empty()
    } else {
        (if has_prefix(ms[0], w) { seq![ms[0].skip(w.len() as int)] } else { Seq::empty() })
            + completions(ms.drop_first(), w)
    }
}

/// The values of `vs` that start with `w`, in order.
pub open spec fn starting_with(vs: Seq<Seq<char>>, w: Seq<char>) -> Seq<Seq<char>>
    decreases vs.len(),
{
    if vs.len() == 0 {
        Seq::empty()
    } else {
        (if has_prefix(vs[0], w) { seq![vs[0]] } else { Seq::empty() }) + starting_with(vs.drop_first(), w)
    }
}

/// The values that completion offers for a modifier; none for one whose
/// values are free text.
pub open spec fn modifier_values(m: Seq<char>) -> Seq<Seq<char>> {
    if m == ":existing:"@ || m == ":remote:"@ {
        seq!["yes"@, "no"@]
    } else if m == ":type:"@ {
        seq!["folder"@, "file"@, "workspace"@]
    } else {
        Seq::empty()
    }
}

/// The state of the input that completion changes, with the status message
/// it shows and for how long (`None`: the status is left as it was).
pub struct InputEdit {
    pub buffer: Seq<char>,
    pub cursor: int,
    pub active: bool,
    pub suggestion: Option<Seq<char>>,
    pub start: int,
    pub index: int,
    pub status: Option<(Seq<char>, u64)>,
}

/// The input as it stands.
pub open spec fn current_input(app: App) -> InputEdit {
    InputEdit {
        buffer: app.input_buffer@,
        cursor: app.cursor_position as int,
        active: app.is_autocomplete_active,
        suggestion: crate::parser::opt_view(app.autocomplete_suggestion),
        start: app.autocomplete_start_position as int,
        index: app.current_autocomplete_index as int,
        status: None,
    }
}

/// `e` with `buffer[from..cursor]` replaced by `v` as the shown completion.
pub open spec fn complete_with(e: InputEdit, from: int, v: Seq<char>, index: int, status: (Seq<char>, u64)) -> InputEdit {
    InputEdit {
        buffer: e.buffer.take(from) + v + e.buffer.skip(e.cursor),
        cursor: from + v.len(),
        active: true,
        suggestion: Some(v),
        start: from,
        index: index,
        status: Some(status),
    }
}

/// `"Selected " + what + " (" + (i + 1) + "/" + n + ")"`.
pub open spec fn selected_of(what: Seq<char>, i: nat, n: nat) -> Seq<char> {
    "Selected "@ + what + " ("@ + decimal(i + 1) + seq!['/'] + decimal(n) + seq![')']
}

/// The help shown for a filter.
pub open spec fn filter_help(f: Seq<char>) -> (Seq<char>, u64) {
    if f == ":existing:"@ {
        ("Filter values for :existing: - yes, no"@, 3000)
    } else if f == ":remote:"@ {
        ("Filter values for :remote: - yes, no"@, 3000)
    } else if f == ":type:"@ {
        ("Filter values for :type: - folder, file, workspace"@, 3000)
    } else if f == ":path:"@ {
        ("Filter by path - :path:value"@, 3000)
    } else if f == ":tag:"@ {
        ("Filter by tag - :tag:value"@, 3000)
    } else {
        ("Type a value for "@ + f, 2000)
    }
}

/// The last position at which `n` occurs in `h`.
pub open spec fn last_occurrence(h: Seq<char>, n: Seq<char>) -> Option<int>
    decreases h.len(),
{
    if n.len() > h.len() {
        None
    } else if h.subrange(h.len() - n.len(), h.len() as int) == n {
        Some(h.len() - n.len())
    } else if h.len() == 0 {
        None
    } else {
        last_occurrence(h.drop_last(), n)
    }
}

/// Completion of a modifier's value, the modifier being the word before
/// the cursor: cycles through the modifier's values (or those that start
/// with what follows it), writing the chosen one after the modifier.
pub open spec fn value_completion(e: InputEdit, m: Seq<char>) -> InputEdit {
    let values = modifier_values(m);
    if values.len() == 0 {
        if m == ":path:"@ || m == ":tag:"@ {
            InputEdit { status: Some(("Type a value for "@ + m, 2000)), ..e }
        } else {
            e
        }
    } else {
        let before = e.buffer.take(e.cursor);
        match last_occurrence(before, m) {
            None => e,
            Some(mp) => {
                let vs = mp + m.len();
                let current = before.skip(vs);
                if current.len() == 0 || e.active {
                    let next = if e.active { (e.index + 1) % (values.len() as int) } else { 0 };
                    complete_with(e, vs, values[next], next,
                        (selected_of(m + " value: "@ + values[next], next as nat, values.len()), 2000))
                } else {
                    let ms = starting_with(values, current);
                    if ms.len() == 0 {
                        complete_with(e, vs, values[0], 0,
                            ("No matches. Selected "@ + m + " value: "@ + values[0], 2000))
                    } else if ms.len() == 1 {
                        complete_with(e, vs, ms[0], 0, ("Selected "@ + m + " value: "@ + ms[0], 2000))
                    } else {
                        complete_with(e, vs, ms[0], 0, (selected_of(m + " value: "@ + ms[0], 0, ms.len()), 2000))
                    }
                }
            },
        }
    }
}

/// What the Tab key does to the input: completes a modifier's value where
/// the word before the cursor is a modifier; completes, or cycles through,
/// the modifiers that a word starting with `:` begins; otherwise ends
/// completion.
pub open spec fn tab_edit(app: App) -> InputEdit {
    let e = current_input(app);
    let (word, pos) = spec_current_word(app);
    if filter_modifiers().contains(word) {
        value_completion(e, word)
    } else if has_prefix(word, ":"@) {
        let ms = completions(filter_modifiers(), word);
        if ms.len() > 0 {
            let idx = if ms.len() > 1 && e.active { (e.index + 1) % (ms.len() as int) } else { 0 };
            let m = ms[idx];
            let status = if ms.len() > 1 {
                (selected_of(m, idx as nat, ms.len()) + " - Press Tab again to cycle"@, 3000u64)
            } else {
                filter_help(m)
            };
            complete_with(e, pos + word.len(), m, idx, status)
        } else {
            InputEdit { active: false, suggestion: None, status: Some(("No matching filter found"@, 2000)), ..e }
        }
    } else {
        InputEdit { active: false, suggestion: None, ..e }
    }
}

/// The exec form of `InputEdit`.
struct Edit {
    buffer: Vec<char>,
    cursor: usize,
    active: bool,
    suggestion: Option<Vec<char>>,
    start: usize,
    index: usize,
    status: Option<(Vec<char>, u64)>,
}

spec fn edit_valid(e: Edit) -> bool {
    &&& e.cursor <= e.buffer@.len()
    &&& (e.active && e.suggestion is Some) ==> e.start <= e.cursor
}

spec fn edit_view(e: Edit) -> InputEdit {
    InputEdit {
        buffer: e.buffer@,
        cursor: e.cursor as int,
        active: e.active,
        suggestion: match e.suggestion { Some(v) => Some(v@), None => None },
        start: e.start as int,
        index: e.index as int,
        status: match e.status { Some(p) => Some((p.0@, p.1)), None => None },
    }
}

fn next_index(index: usize, n: usize) -> (r: usize)
    requires
        n > 0,
    ensures
        r as int == (index as int + 1) % (n as int),
        r < n,
{
    let m = index % n;
    proof {
        vstd::arithmetic::div_mod::lemma_add_mod_noop(index as int, 1, n as int);
        vstd::arithmetic::div_mod::lemma_mod_bound(index as int, n as int);
        if n == 1 {
            assert((index as int + 1) % 1 == 0) by (nonlinear_arith);
        } else {
            vstd::arithmetic::div_mod::lemma_small_mod(1, n as nat);
        }
    }
    if n == 1 {
        0
    } else if m + 1 == n {
        proof { vstd::arithmetic::div_mod::lemma_mod_self_0(n as int); }
        0
    } else {
        proof { vstd::arithmetic::div_mod::lemma_small_mod((m + 1) as nat, n as nat); }
        m + 1
    }
}

fn completions_exec(ms: &Vec<Vec<char>>, w: &[char]) -> (r: Vec<Vec<char>>)
    ensures
        char_views(r@) == completions(char_views(ms@), w@),
{
    let ghost mv = char_views(ms@);
    let mut out: Vec<Vec<char>> = Vec::new();
    let mut i: usize = 0;
    assert(mv.skip(0) =~= mv);
    assert(char_views(out@) + completions(mv.skip(0), w@) =~= completions(mv, w@));
    while i < ms.len()
        invariant
            i <= ms.len(),
            mv == char_views(ms@),
            char_views(out@) + completions(mv.skip(i as int), w@) == completions(mv, w@),
        decreases ms.len() - i,
    {
        assert(mv.skip(i as int).drop_first() =~= mv.skip(i + 1));
        assert(mv.skip(i as int)[0] == ms@[i as int]@);
        let ghost before = char_views(out@);
        if crate::text::starts_with(&ms[i], w) {
            let rest = slice_vec(&ms[i], w.len(), ms[i].len());
            assert(rest@ =~= ms@[i as int]@.skip(w@.len() as int));
            out.push(rest);
            assert(char_views(out@) =~= before.push(ms@[i as int]@.skip(w@.len() as int)));
        }
        assert(char_views(out@) + completions(mv.skip(i + 1), w@) =~= before + completions(mv.skip(i as int), w@));
        i = i + 1;
    }
    assert(mv.skip(i as int) =~= Seq::<Seq<char>>::empty());
    assert(char_views(out@) + Seq::<Seq<char>>::empty() =~= char_views(out@));
    out
}

fn starting_with_exec(vs: &Vec<Vec<char>>, w: &[char]) -> (r: Vec<Vec<char>>)
    ensures
        char_views(r@) == starting_with(char_views(vs@), w@),
{
    let ghost mv = char_views(vs@);
    let mut out: Vec<Vec<char>> = Vec::new();
    let mut i: usize = 0;
    assert(mv.skip(0) =~= mv);
    assert(char_views(out@) + starting_with(mv.skip(0), w@) =~= starting_with(mv, w@));
    while i < vs.len()
        invariant
            i <= vs.len(),
            mv == char_views(vs@),
            char_views(out@) + starting_with(mv.skip(i as int), w@) == starting_with(mv, w@),
        decreases vs.len() - i,
    {
        assert(mv.skip(i as int).drop_first() =~= mv.skip(i + 1));
        assert(mv.skip(i as int)[0] == vs@[i as int]@);
        let ghost before = char_views(out@);
        if crate::text::starts_with(&vs[i], w) {
            let copy = slice_vec(&vs[i], 0, vs[i].len());
            assert(copy@ =~= vs@[i as int]@);
            out.push(copy);
            assert(char_views(out@) =~= before.push(vs@[i as int]@));
        }
        assert(char_views(out@) + starting_with(mv.skip(i + 1), w@) =~= before + starting_with(mv.skip(i as int), w@));
        i = i + 1;
    }
    assert(mv.skip(i as int) =~= Seq::<Seq<char>>::empty());
    assert(char_views(out@) + Seq::<Seq<char>>::empty() =~= char_views(out@));
    out
}

fn modifier_values_exec(m: &[char]) -> (r: Vec<Vec<char>>)
    ensures
        char_views(r@) == modifier_values(m@),
{
    let r = if crate::text::chars_eq(m, &chars_of(":existing:")) || crate::text::chars_eq(m, &chars_of(":remote:")) {
        vec![chars_of("yes"), chars_of("no")]
    } else if crate::text::chars_eq(m, &chars_of(":type:")) {
        vec![chars_of("folder"), chars_of("file"), chars_of("workspace")]
    } else {
        Vec::new()
    };
    assert(char_views(r@) =~= modifier_values(m@));
    r
}

fn last_occurrence_exec(h: &[char], n: &[char]) -> (r: Option<usize>)
    ensures
        match r {
            Some(i) => last_occurrence(h@, n@) == Some(i as int) && i + n@.len() <= h@.len(),
            None => last_occurrence(h@, n@) is None,
        },
{
    let mut k: usize = h.len();
    assert(h@.take(h.len() as int) =~= h@);
    loop
        invariant
            k <= h.len(),
            last_occurrence(h@.take(k as int), n@) == last_occurrence(h@, n@),
        decreases k,
    {
        let t = slice_vec(h, 0, k);
        assert(t@ =~= h@.take(k as int));
        if n.len() > k {
            return None;
        }
        let tail = slice_vec(&t, k - n.len(), k);
        if crate::text::chars_eq(&tail, n) {
            return Some(k - n.len());
        }
        if k == 0 {
            return None;
        }
        assert(h@.take(k as int).drop_last() =~= h@.take(k - 1));
        k = k - 1;
    }
}

fn decimal_vec(n: usize) -> (r: Vec<char>)
    ensures
        r@ == decimal(n as nat),
{
    let mut v: Vec<char> = Vec::new();
    push_decimal(&mut v, n as u64);
    assert(v@ =~= decimal(n as nat));
    v
}

fn selected_of_exec(what: &[char], i: usize, n: usize) -> (r: Vec<char>)
    requires
        i < n,
    ensures
        r@ == selected_of(what@, i as nat, n as nat),
{
    let mut v = chars_of("Selected ");
    push_all(&mut v, what);
    push_all(&mut v, &chars_of(" ("));
    push_all(&mut v, &decimal_vec(i + 1));
    v.push('/');
    push_all(&mut v, &decimal_vec(n));
    v.push(')');
    v
}

fn concat3(a: &str, b: &[char], c: &str) -> (r: Vec<char>)
    ensures
        r@ == a@ + b@ + c@,
{
    let mut v = chars_of(a);
    push_all(&mut v, b);
    push_all(&mut v, &chars_of(c));
    v
}

fn filter_help_exec(f: &[char]) -> (r: (Vec<char>, u64))
    ensures
        (r.0@, r.1) == filter_help(f@),
{
    if crate::text::chars_eq(f, &chars_of(":existing:")) {
        (chars_of("Filter values for :existing: - yes, no"), 3000)
    } else if crate::text::chars_eq(f, &chars_of(":remote:")) {
        (chars_of("Filter values for :remote: - yes, no"), 3000)
    } else if crate::text::chars_eq(f, &chars_of(":type:")) {
        (chars_of("Filter values for :type: - folder, file, workspace"), 3000)
    } else if crate::text::chars_eq(f, &chars_of(":path:")) {
        (chars_of("Filter by path - :path:value"), 3000)
    } else if crate::text::chars_eq(f, &chars_of(":tag:")) {
        (chars_of("Filter by tag - :tag:value"), 3000)
    } else {
        let mut v = chars_of("Type a value for ");
        push_all(&mut v, f);
        (v, 2000)
    }
}

fn complete_with_exec(e: Edit, from: usize, v: Vec<char>, index: usize, status: (Vec<char>, u64)) -> (r: Edit)
    requires
        from <= e.cursor <= e.buffer@.len(),
    ensures
        edit_view(r) == complete_with(edit_view(e), from as int, v@, index as int, (status.0@, status.1)),
        r.cursor <= r.buffer@.len(),
        r.start <= r.cursor,
        edit_valid(r),
{
    let mut buffer = slice_vec(&e.buffer, 0, from);
    push_all(&mut buffer, &v);
    push_all(&mut buffer, &slice_vec(&e.buffer, e.cursor, e.buffer.len()));
    assert(buffer@ =~= e.buffer@.take(from as int) + v@ + e.buffer@.skip(e.cursor as int));
    let cursor = buffer.len() - (e.buffer.len() - e.cursor);
    let r = Edit {
        buffer,
        cursor,
        active: true,
        suggestion: Some(v),
        start: from,
        index,
        status: Some(status),
    };
    r
}

fn value_completion_exec(e: Edit, m: &[char]) -> (r: Edit)
    requires
        edit_valid(e),
    ensures
        edit_view(r) == value_completion(edit_view(e), m@),
        edit_valid(r),
{
    let values = modifier_values_exec(m);
    if values.len() == 0 {
        if crate::text::chars_eq(m, &chars_of(":path:")) || crate::text::chars_eq(m, &chars_of(":tag:")) {
            let mut msg = chars_of("Type a value for ");
            push_all(&mut msg, m);
            return Edit { status: Some((msg, 2000)), ..e };
        }
        return e;
    }
    let before = slice_vec(&e.buffer, 0, e.cursor);
    assert(before@ =~= e.buffer@.take(e.cursor as int));
    let mp = match last_occurrence_exec(&before, m) {
        Some(p) => p,
        None => {
            return e;
        },
    };
    let vs = mp + m.len();
    let current = slice_vec(&before, vs, before.len());
    assert(current@ =~= before@.skip(vs as int));
    let ghost ev = edit_view(e);
    if current.len() == 0 || e.active {
        let next = if e.active { next_index(e.index, values.len()) } else { 0 };
        let v = slice_vec(&values[next], 0, values[next].len());
        assert(v@ =~= char_views(values@)[next as int]);
        complete_with_choice(value_label(m), &v, next, values.len(), e, vs)
    } else {
        let ms = starting_with_exec(&values, &current);
        if ms.len() == 0 {
            let v = slice_vec(&values[0], 0, values[0].len());
            assert(v@ =~= char_views(values@)[0]);
            let mut msg = concat3("No matches. Selected ", m, " value: ");
            push_all(&mut msg, &v);
            complete_with_exec(e, vs, v, 0, (msg, 2000))
        } else if ms.len() == 1 {
            let v = slice_vec(&ms[0], 0, ms[0].len());
            assert(v@ =~= char_views(ms@)[0]);
            let mut msg = concat3("Selected ", m, " value: ");
            push_all(&mut msg, &v);
            complete_with_exec(e, vs, v, 0, (msg, 2000))
        } else {
            let v = slice_vec(&ms[0], 0, ms[0].len());
            assert(v@ =~= char_views(ms@)[0]);
            complete_with_choice(value_label(m), &v, 0, ms.len(), e, vs)
        }
    }
}

fn value_label(m: &[char]) -> (r: Vec<char>)
    ensures
        r@ == m@ + " value: "@,
{
    let mut what = slice_vec(m, 0, m.len());
    assert(what@ =~= m@);
    push_all(&mut what, &chars_of(" value: "));
    what
}

/// Completes with `v` after `what`, announcing choice `i` of `n`.
fn complete_with_choice(what: Vec<char>, v: &Vec<char>, i: usize, n: usize, e: Edit, from: usize) -> (r: Edit)
    requires
        i < n,
        from <= e.cursor <= e.buffer@.len(),
    ensures
        edit_view(r) == complete_with(edit_view(e), from as int, v@, i as int,
            (selected_of(what@ + v@, i as nat, n as nat), 2000)),
        edit_valid(r),
{
    let mut w = what;
    push_all(&mut w, v);
    let msg = selected_of_exec(&w, i, n);
    let copy = slice_vec(v, 0, v.len());
    assert(copy@ =~= v@);
    complete_with_exec(e, from, copy, i, (msg, 2000))
}

fn contains_word(ms: &Vec<Vec<char>>, w: &[char]) -> (r: bool)
    ensures
        r == char_views(ms@).contains(w@),
{
    let mut k: usize = 0;
    while k < ms.len()
        invariant
            k <= ms.len(),
            forall|j: int| 0 <= j < k ==> char_views(ms@)[j] != w@,
        decreases ms.len() - k,
    {
        if crate::text::chars_eq(&ms[k], w) {
            assert(char_views(ms@)[k as int] == w@);
            return true;
        }
        k = k + 1;
    }
    false
}

fn tab_edit_exec(app: &App) -> (r: Edit)
    requires
        app.input_positions_valid(),
    ensures
        edit_view(r) == tab_edit(*app),
        edit_valid(r),
{
    let e = Edit {
        buffer: chars_of(app.input_buffer.as_str()),
        cursor: app.cursor_position,
        active: app.is_autocomplete_active,
        suggestion: match &app.autocomplete_suggestion {
            Some(s) => Some(chars_of(s.as_str())),
            None => None,
        },
        start: app.autocomplete_start_position,
        index: app.current_autocomplete_index,
        status: None,
    };
    assert(edit_view(e) == current_input(*app));
    let (word_s, pos) = app.get_current_word();
    let word = chars_of(word_s.as_str());
    let mods = filter_modifier_list();
    if contains_word(&mods, &word) {
        return value_completion_exec(e, &word);
    }
    if crate::text::starts_with(&word, &chars_of(":")) {
        let ms = completions_exec(&mods, &word);
        if ms.len() > 0 {
            let idx = if ms.len() > 1 && e.active { next_index(e.index, ms.len()) } else { 0 };
            let m = slice_vec(&ms[idx], 0, ms[idx].len());
            assert(m@ =~= char_views(ms@)[idx as int]);
            let status = if ms.len() > 1 {
                let mut msg = selected_of_exec(&m, idx, ms.len());
                push_all(&mut msg, &chars_of(" - Press Tab again to cycle"));
                (msg, 3000u64)
            } else {
                filter_help_exec(&m)
            };
            complete_with_exec(e, pos + word.len(), m, idx, status)
        } else {
            Edit { active: false, suggestion: None, status: Some((chars_of("No matching filter found"), 2000)), ..e }
        }
    } else {
        Edit { active: false, suggestion: None, ..e }
    }
}

/// `app` shows the input `e` and, where `e` has one, its status message.
pub open spec fn shows_edit(app: App, before: App, e: InputEdit, now_ms: u64) -> bool {
    &&& app.input_buffer@ == e.buffer
    &&& app.cursor_position as int == e.cursor
    &&& app.is_autocomplete_active == e.active
    &&& crate::parser::opt_view(app.autocomplete_suggestion) == e.suggestion
    &&& app.autocomplete_start_position as int == e.start
    &&& app.current_autocomplete_index as int == e.index
    &&& match e.status {
        Some(st) => app.status_message is Some && app.status_message->0@ == st.0
            && app.status_expiry == Some(if now_ms as int + st.1 as int > u64::MAX as int {
                u64::MAX
            } else {
                (now_ms + st.1) as u64
            }),
        None => app.status_message == before.status_message && app.status_expiry == before.status_expiry,
    }
}

fn apply_edit(app: &mut App, e: Edit, now_ms: u64)
    requires
        edit_valid(e),
    ensures
        shows_edit(*final(app), *old(app), edit_view(e), now_ms),
        final(app).workspaces == old(app).workspaces,
        final(app).marked_for_deletion == old(app).marked_for_deletion,
        final(app).input_positions_valid(),
{
    app.input_buffer = string_of(&e.buffer);
    app.cursor_position = e.cursor;
    app.is_autocomplete_active = e.active;
    app.autocomplete_suggestion = match &e.suggestion {
        Some(v) => Some(string_of(v)),
        None => None,
    };
    app.autocomplete_start_position = e.start;
    app.current_autocomplete_index = e.index;
    match &e.status {
        Some(st) => {
            app.set_status(string_of(&st.0).as_str(), st.1, now_ms);
        },
        None => {},
    }
}

/// Handles the Tab key: applies `tab_edit` to the input, shows its status
/// message (until its duration after `now_ms`), and searches for what the
/// input then holds (see `apply_filter`).
pub fn process_tab_key(app: &mut App, now_ms: u64, is_file: &Vec<bool>, facts: &Vec<PathFacts>)
    requires
        old(app).input_positions_valid(),
    ensures
        shows_edit(*final(app), *old(app), tab_edit(*old(app)), now_ms),
        final(app).search_query@ == tab_edit(*old(app)).buffer,
        final(app).filtered_workspaces@ == browse_indices(
            final(app).workspaces@,
            spec_browse_query(tab_edit(*old(app)).buffer),
            facts@,
            final(app).workspaces@.len(),
        ),
        crate::filter::parsed_all(final(app).workspaces@, old(app).workspaces@, is_file@),
        final(app).marked_for_deletion == old(app).marked_for_deletion,
        final(app).input_positions_valid(),
{
    let e = tab_edit_exec(app);
    apply_edit(app, e, now_ms);
    app.search_query = app.input_buffer.clone();
    app.apply_filter(is_file, facts);
}

/// The positions, among the first `n` records, of those whose id is marked.
pub open spec fn marked_positions(ws: Seq<Workspace>, marks: Set<Seq<char>>, n: nat) -> Seq<usize>
    decreases n,
{
    if n == 0 {
        Seq::empty()
    } else {
        marked_positions(ws, marks, (n - 1) as nat) + if marks.contains(ws[n - 1].id@) {
            seq![(n - 1) as usize]
        } else {
            Seq::empty()
        }
    }
}

impl App {
    /// Starts deleting the marked records: returns their positions in
    /// `workspaces`, in order, with how many ids were marked, and clears
    /// the marks; the caller deletes them and reports back with
    /// `report_deletion`. With nothing marked it says so and returns none.
    pub fn delete_marked_workspaces(&mut self, now_ms: u64) -> (r: (Vec<usize>, usize))
        requires
            old(self).marks_distinct(),
        ensures
            final(self).marks_distinct(),
            final(self).workspaces == old(self).workspaces,
            final(self).marked_for_deletion@.len() == 0,
            same_but_marks_and_status(*final(self), *old(self)),
            old(self).marked_for_deletion@.len() == 0 ==> {
                &&& r.0@.len() == 0
                &&& r.1 == 0
                &&& final(self).status_message is Some
                &&& final(self).status_message->0@ == "No workspaces marked for deletion"@
            },
            old(self).marked_for_deletion@.len() > 0 ==> {
                &&& r.0@ == marked_positions(old(self).workspaces@, old(self).marked(), old(self).workspaces@.len())
                &&& r.1 == old(self).marked_for_deletion@.len()
                &&& final(self).marked() == Set::<Seq<char>>::empty()
            },
    {
        if self.marked_for_deletion.len() == 0 {
            self.set_status("No workspaces marked for deletion", MARK_STATUS_MS, now_ms);
            return (Vec::new(), 0);
        }
        let total = self.marked_for_deletion.len();
        let mut out: Vec<usize> = Vec::new();
        let mut i: usize = 0;
        while i < self.workspaces.len()
            invariant
                i <= self.workspaces.len(),
                out@ == marked_positions(self.workspaces@, self.marked(), i as nat),
            decreases self.workspaces.len() - i,
        {
            if find_mark(&self.marked_for_deletion, &self.workspaces[i].id).is_some() {
                proof {
                    let k = choose|k: int| 0 <= k < self.marked_for_deletion@.len() && self.marked_for_deletion@[k]@ == self.workspaces@[i as int].id@;
                    assert(crate::paths::views(self.marked_for_deletion@)[k] == self.workspaces@[i as int].id@);
                }
                out.push(i);
            }
            assert(out@ =~= marked_positions(self.workspaces@, self.marked(), (i + 1) as nat));
            i = i + 1;
        }
        self.marked_for_deletion = Vec::new();
        assert(crate::paths::views(self.marked_for_deletion@) =~= Seq::<Seq<char>>::empty());
        assert(self.marked() =~= Set::<Seq<char>>::empty());
        (out, total)
    }

    /// Reports how deleting went: `Ok(true)` where every source was
    /// removed, `Ok(false)` where some were not, `Err` with its text where
    /// deleting could not start.
    pub fn report_deletion(&mut self, outcome: Result<bool, String>, deleted: usize, total: usize, now_ms: u64)
        ensures
            final(self).status_message is Some,
            final(self).status_message->0@ == match outcome {
                Ok(true) => count_message("Successfully deleted "@, deleted as nat, seq!['/']) + decimal(total as nat) + " workspaces"@,
                Ok(false) => "Some workspaces could not be deleted, check logs for details"@,
                Err(e) => "Error deleting workspaces: "@ + e@,
            },
            final(self).marked_for_deletion == old(self).marked_for_deletion,
    {
        match outcome {
            Ok(true) => {
                let mut v = chars_of(count_message_exec("Successfully deleted ", deleted, "/").as_str());
                push_decimal(&mut v, total as u64);
                push_all(&mut v, &chars_of(" workspaces"));
                proof {
                    assert("/"@ == seq!['/']) by {
                        reveal_strlit("/");
                    }
                }
                self.set_status(string_of(&v).as_str(), 3000, now_ms);
            },
            Ok(false) => {
                self.set_status("Some workspaces could not be deleted, check logs for details", 3000, now_ms);
            },
            Err(e) => {
                let mut v = chars_of("Error deleting workspaces: ");
                push_all(&mut v, &chars_of(e.as_str()));
                self.set_status(string_of(&v).as_str(), 5000, now_ms);
            },
        }
    }
}

} // verus!
