//! Helpers over records: parsing them all, their folder names, and whether
//! their paths still exist.

use vstd::prelude::*;
use crate::error::WorkspaceError;
use crate::models::{Workspace, spec_info};
use crate::parser::{spec_parse, parse_workspace_path};
use crate::paths::file_scheme_chars;
use crate::text::{remove_all, remove_all_exec, chars_of, string_of, has_prefix, has_suffix, starts_with, ends_with, slice_vec};

verus! {

/// The text after the last `/`.
pub open spec fn last_segment(s: Seq<char>) -> Seq<char> {
    match crate::parser::last_index_of(s, '/') {
        Some(i) => s.skip(i + 1),
        None => s,
    }
}

/// The final component of a `/`-separated path, as `Path::file_name` gives
/// it: trailing `/` and `.` components are passed over; none where the path
/// has no component left or ends in `..`.
pub open spec fn file_name_of(s: Seq<char>) -> Option<Seq<char>>
    decreases s.len(),
{
    if s.len() == 0 {
        None
    } else if s.last() == '/' || last_segment(s) == seq!['.'] {
        file_name_of(s.drop_last())
    } else if last_segment(s) == seq!['.', '.'] {
        None
    } else {
        Some(last_segment(s))
    }
}

/// The final component of a `/`-separated path; see `file_name_of`.
pub fn file_name(s: &[char]) -> (r: Option<Vec<char>>)
    ensures
        match r {
            Some(v) => file_name_of(s@) == Some(v@),
            None => file_name_of(s@) is None,
        },
    decreases s@.len(),
{
    if s.len() == 0 {
        return None;
    }
    let seg = match crate::parser::find_last(s, '/') {
        Some(i) => {
            let v = slice_vec(s, i + 1, s.len());
            assert(v@ =~= s@.skip(i + 1));
            v
        },
        None => {
            let v = slice_vec(s, 0, s.len());
            assert(v@ =~= s@);
            v
        },
    };
    assert(seg@ == last_segment(s@));
    let is_dot = seg.len() == 1 && seg[0] == '.';
    let is_dotdot = seg.len() == 2 && seg[0] == '.' && seg[1] == '.';
    assert(is_dot == (seg@ == seq!['.'])) by {
        if seg@ == seq!['.'] {
            assert(seg@[0] == '.');
        }
        if is_dot {
            assert(seg@ =~= seq!['.']);
        }
    }
    assert(is_dotdot == (seg@ == seq!['.', '.'])) by {
        if seg@ == seq!['.', '.'] {
            assert(seg@[0] == '.' && seg@[1] == '.');
        }
        if is_dotdot {
            assert(seg@ =~= seq!['.', '.']);
        }
    }
    if s[s.len() - 1] == '/' || is_dot {
        let shorter = slice_vec(s, 0, s.len() - 1);
        assert(shorter@ =~= s@.drop_last());
        return file_name(&shorter);
    }
    if is_dotdot {
        return None;
    }
    Some(seg)
}

/// The folder name shown for a recorded path: for a local path, the final
/// component of the path with every `file://` removed (where it starts with
/// one); for a remote URI, the final component of the path it parses to;
/// `unnamed` where there is none or the URI is malformed.
pub open spec fn spec_basename(path: Seq<char>) -> Seq<char> {
    if !has_prefix(path, "vscode-remote://"@) {
        let clean = if has_prefix(path, crate::paths::file_scheme()) {
            remove_all(path, crate::paths::file_scheme())
        } else {
            path
        };
        match file_name_of(clean) {
            Some(n) => n,
            None => "unnamed"@,
        }
    } else {
        match spec_parse(path, false) {
            Ok(info) => match file_name_of(info.path) {
                Some(n) => n,
                None => "unnamed"@,
            },
            Err(_) => "unnamed"@,
        }
    }
}

fn name_or_unnamed(s: &[char]) -> (r: String)
    ensures
        r@ == match file_name_of(s@) {
            Some(n) => n,
            None => "unnamed"@,
        },
{
    match file_name(s) {
        Some(n) => string_of(&n),
        None => "unnamed".to_string(),
    }
}

/// The folder name shown for a recorded path; see `spec_basename`.
pub fn extract_folder_basename(path: &str) -> (r: String)
    ensures
        r@ == spec_basename(path@),
{
    let p = chars_of(path);
    let fs = file_scheme_chars();
    if !starts_with(&p, &chars_of("vscode-remote://")) {
        let clean = if starts_with(&p, &fs) {
            remove_all_exec(&p, &fs)
        } else {
            p
        };
        return name_or_unnamed(&clean);
    }
    match parse_workspace_path(path, false) {
        Ok(info) => name_or_unnamed(&chars_of(info.path.as_str())),
        Err(_) => "unnamed".to_string(),
    }
}

/// The file-existence check's flag for record `i`: false past the end of
/// the flags.
pub open spec fn flag_at(flags: Seq<bool>, i: int) -> bool {
    0 <= i < flags.len() && flags[i]
}

/// `new` is `old` with its parse cached, where it had none and its path
/// parses with file-existence flag `is_file`.
#[verifier::opaque]
pub open spec fn parsed_from(new: Workspace, old: Workspace, is_file: bool) -> bool {
    &&& new@ == old@
    &&& new.id == old.id
    &&& match spec_info(old, is_file) {
        Some(v) => new.parsed_info is Some && new.parsed_info->0@ == v,
        None => new.parsed_info is None,
    }
}

fn parse_one(w: &mut Workspace, is_file: bool)
    ensures
        parsed_from(*final(w), *old(w), is_file),
{
    let _ = w.parse_path(is_file);
    proof {
        reveal(parsed_from);
    }
}

/// Parses every record's path and caches the result; `is_file[i]` is what
/// the file-existence check reports for record `i`.
pub fn process_workspaces(workspaces: &mut Vec<Workspace>, is_file: &Vec<bool>) -> (r: Result<(), WorkspaceError>)
    ensures
        r is Ok,
        final(workspaces)@.len() == old(workspaces)@.len(),
        forall|i: int| 0 <= i < old(workspaces)@.len()
            ==> parsed_from(#[trigger] final(workspaces)@[i], old(workspaces)@[i], flag_at(is_file@, i)),
{
    let ghost start = workspaces@;
    let mut i: usize = 0;
    while i < workspaces.len()
        invariant
            i <= workspaces.len(),
            workspaces@.len() == start.len(),
            forall|k: int| i <= k < start.len() ==> #[trigger] workspaces@[k] == start[k],
            forall|k: int| 0 <= k < i ==> parsed_from(#[trigger] workspaces@[k], start[k], flag_at(is_file@, k)),
        decreases workspaces.len() - i,
    {
        let flag = i < is_file.len() && is_file[i];
        let ghost before = workspaces@;
        let mut w = workspaces.remove(i);
        parse_one(&mut w, flag);
        workspaces.insert(i, w);
        assert(workspaces@ =~= before.update(i as int, w));
        i = i + 1;
    }
    Ok(())
}

/// What the filesystem reports for the path that `existence_probe_path`
/// names.
pub struct PathFacts {
    pub exists: bool,
    pub is_file: bool,
}

/// The local path whose existence decides whether a record still exists:
/// its path with every `file://` removed where it starts with one.
pub open spec fn probe_path_of(w: Workspace) -> Seq<char> {
    if has_prefix(w.path@, crate::paths::file_scheme()) {
        remove_all(w.path@, crate::paths::file_scheme())
    } else {
        w.path@
    }
}

/// Whether a record's path names a remote workspace, by its cached parse
/// or a fresh one.
pub open spec fn names_remote(w: Workspace) -> bool {
    match spec_info(w, false) {
        Some(i) => i.remote_authority is Some,
        None => false,
    }
}

/// Whether a record still exists: a remote one is taken to; a local
/// `.code-workspace` file must exist as a file; any other local path must
/// exist.
pub open spec fn spec_exists(w: Workspace, facts: PathFacts) -> bool {
    if names_remote(w) {
        true
    } else if has_suffix(probe_path_of(w), ".code-workspace"@) {
        facts.exists && facts.is_file
    } else {
        facts.exists
    }
}

/// The local path to look up for `workspace_exists`; see `probe_path_of`.
pub fn existence_probe_path(workspace: &Workspace) -> (r: String)
    ensures
        r@ == probe_path_of(*workspace),
{
    let p = chars_of(workspace.path.as_str());
    let fs = file_scheme_chars();
    if starts_with(&p, &fs) {
        string_of(&remove_all_exec(&p, &fs))
    } else {
        workspace.path.clone()
    }
}

/// Whether a record still exists, given what the filesystem reports for
/// its probe path; see `spec_exists`.
pub fn workspace_exists(workspace: &Workspace, facts: &PathFacts) -> (r: bool)
    ensures
        r == spec_exists(*workspace, *facts),
{
    let remote = match &workspace.parsed_info {
        Some(info) => info.remote_authority.is_some(),
        None => match parse_workspace_path(workspace.path.as_str(), false) {
            Ok(info) => info.remote_authority.is_some(),
            Err(_) => false,
        },
    };
    if remote {
        return true;
    }
    let probe = chars_of(existence_probe_path(workspace).as_str());
    if ends_with(&probe, &chars_of(".code-workspace")) {
        facts.exists && facts.is_file
    } else {
        facts.exists
    }
}

} // verus!
