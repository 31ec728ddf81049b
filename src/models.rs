//! The unified workspace record and where its data came from.

use vstd::prelude::*;
use crate::parser::{WorkspacePathInfo, PathInfoView, WorkspaceType, spec_parse, parse_workspace_path, opt_view};
use crate::text::{chars_of, string_of, push_all};

verus! {

/// Where a record's data came from.
#[derive(Debug, Clone)]
pub enum WorkspaceSource {
    /// A per-project metadata file, by its path under the profile.
    Storage(String),
    /// A key-value store holding the recently opened list, by its path
    /// under the profile.
    Database(String),
    /// A third-party editor's database, by its release channel.
    Zed(String),
}

/// The mathematical content of a `WorkspaceSource`.
pub enum SourceView {
    Storage(Seq<char>),
    Database(Seq<char>),
    Zed(Seq<char>),
}

impl View for WorkspaceSource {
    type V = SourceView;

    open spec fn view(&self) -> SourceView {
        match self {
            WorkspaceSource::Storage(s) => SourceView::Storage(s@),
            WorkspaceSource::Database(s) => SourceView::Database(s@),
            WorkspaceSource::Zed(s) => SourceView::Zed(s@),
        }
    }
}

/// One project, unified over every source that mentions it.
#[derive(Debug, Clone)]
pub struct Workspace {
    /// Generated once, when the record is created.
    pub id: String,
    pub name: Option<String>,
    /// The canonical path, the key that records are matched by.
    pub path: String,
    /// Milliseconds since the epoch.
    pub last_used: i64,
    pub storage_path: Option<String>,
    pub sources: Vec<WorkspaceSource>,
    /// The parse of `path`, cached after the first parse.
    pub parsed_info: Option<WorkspacePathInfo>,
}

/// The mathematical content of a `Workspace`, without its generated id and
/// its cached parse.
pub struct RecordView {
    pub name: Option<Seq<char>>,
    pub path: Seq<char>,
    pub last_used: i64,
    pub storage_path: Option<Seq<char>>,
    pub sources: Seq<SourceView>,
}

/// The views of a list of sources.
pub open spec fn source_views(s: Seq<WorkspaceSource>) -> Seq<SourceView> {
    s.map_values(|x: WorkspaceSource| x@)
}

/// The views of a list of records.
pub open spec fn record_views(s: Seq<Workspace>) -> Seq<RecordView> {
    s.map_values(|x: Workspace| x@)
}

impl View for Workspace {
    type V = RecordView;

    open spec fn view(&self) -> RecordView {
        RecordView {
            name: opt_view(self.name),
            path: self.path@,
            last_used: self.last_used,
            storage_path: opt_view(self.storage_path),
            sources: source_views(self.sources@),
        }
    }
}

/// The decimal digits of `n`.
pub open spec fn decimal(n: nat) -> Seq<char>
    decreases n,
{
    if n < 10 {
        seq![digit_char(n)]
    } else {
        decimal(n / 10).push(digit_char(n % 10))
    }
}

pub open spec fn digit_char(d: nat) -> char {
    if d == 0 { '0' } else if d == 1 { '1' } else if d == 2 { '2' } else if d == 3 { '3' }
    else if d == 4 { '4' } else if d == 5 { '5' } else if d == 6 { '6' } else if d == 7 { '7' }
    else if d == 8 { '8' } else { '9' }
}

fn digit_char_exec(d: u64) -> (c: char)
    requires
        d < 10,
    ensures
        c == digit_char(d as nat),
{
    if d == 0 { '0' } else if d == 1 { '1' } else if d == 2 { '2' } else if d == 3 { '3' }
    else if d == 4 { '4' } else if d == 5 { '5' } else if d == 6 { '6' } else if d == 7 { '7' }
    else if d == 8 { '8' } else { '9' }
}

/// Appends the decimal digits of `n` to `v`.
pub fn push_decimal(v: &mut Vec<char>, n: u64)
    ensures
        final(v)@ == old(v)@ + decimal(n as nat),
    decreases n,
{
    if n >= 10 {
        push_decimal(v, n / 10);
        let ghost mid = v@;
        v.push(digit_char_exec(n % 10));
        assert(v@ =~= old(v)@ + decimal(n as nat));
    } else {
        v.push(digit_char_exec(n));
        assert(v@ =~= old(v)@ + decimal(n as nat));
    }
}

/// The parse of a record's path: the cached one where there is one, else a
/// fresh parse, `None` where the path is malformed.
pub open spec fn spec_info(w: Workspace, is_file: bool) -> Option<PathInfoView> {
    match w.parsed_info {
        Some(i) => Some(i@),
        None => match spec_parse(w.path@, is_file) {
            Ok(v) => Some(v),
            Err(_) => None,
        },
    }
}

/// The label of a remote parse: `[user@]host[:port]: path`.
pub open spec fn remote_label(info: PathInfoView, host: Seq<char>) -> Seq<char> {
    let with_user = match info.remote_user {
        Some(u) => u + seq!['@'] + host,
        None => host,
    };
    let with_port = match info.remote_port {
        Some(p) => with_user + seq![':'] + decimal(p as nat),
        None => with_user,
    };
    with_port + seq![':', ' '] + info.path
}

/// A record's label: its name where it has a non-empty one; else, where
/// its path parses, the parse's non-empty label, or the remote label where
/// there is a remote host, or the parsed path; else the path itself.
pub open spec fn spec_label(w: Workspace, is_file: bool) -> Seq<char> {
    if w.name is Some && w.name->0@.len() > 0 {
        w.name->0@
    } else {
        match spec_info(w, is_file) {
            Some(info) => if info.label is Some && info.label->0.len() > 0 {
                info.label->0
            } else {
                match info.remote_host {
                    Some(h) => remote_label(info, h),
                    None => info.path,
                }
            },
            None => w.path@,
        }
    }
}

/// The name of a workspace type.
pub open spec fn kind_label(t: WorkspaceType) -> Seq<char> {
    match t {
        WorkspaceType::Folder => "folder"@,
        WorkspaceType::File => "file"@,
        WorkspaceType::Workspace => "workspace"@,
    }
}

fn remote_label_exec(info: &WorkspacePathInfo, host: &String) -> (r: String)
    ensures
        r@ == remote_label(info@, host@),
{
    let mut out: Vec<char> = Vec::new();
    if let Some(user) = &info.remote_user {
        push_all(&mut out, &chars_of(user.as_str()));
        out.push('@');
    }
    push_all(&mut out, &chars_of(host.as_str()));
    if let Some(port) = info.remote_port {
        out.push(':');
        push_decimal(&mut out, port as u64);
    }
    out.push(':');
    out.push(' ');
    push_all(&mut out, &chars_of(info.path.as_str()));
    proof {
        let v = info@;
        let with_user = match v.remote_user {
            Some(u) => u + seq!['@'] + host@,
            None => host@,
        };
        let with_port = match v.remote_port {
            Some(p) => with_user + seq![':'] + decimal(p as nat),
            None => with_user,
        };
        assert(out@ =~= with_port + seq![':', ' '] + v.path);
    }
    string_of(&out)
}

/// The label of a record without touching its cache; see `spec_label`.
pub fn label_of(w: &Workspace, is_file: bool) -> (r: String)
    ensures
        r@ == spec_label(*w, is_file),
{
    if let Some(name) = &w.name {
        if chars_of(name.as_str()).len() > 0 {
            return name.clone();
        }
    }
    match &w.parsed_info {
        Some(info) => label_from_info(info),
        None => match parse_workspace_path(w.path.as_str(), is_file) {
            Ok(info) => label_from_info(&info),
            Err(_) => w.path.clone(),
        },
    }
}

fn label_from_info(info: &WorkspacePathInfo) -> (r: String)
    ensures
        r@ == (if info@.label is Some && info@.label->0.len() > 0 {
            info@.label->0
        } else {
            match info@.remote_host {
                Some(h) => remote_label(info@, h),
                None => info@.path,
            }
        }),
{
    if let Some(label) = &info.label {
        if chars_of(label.as_str()).len() > 0 {
            return label.clone();
        }
    }
    match &info.remote_host {
        Some(host) => remote_label_exec(info, host),
        None => info.path.clone(),
    }
}

impl Workspace {
    /// Parses the record's path and caches the result; `is_file` is what
    /// the file-existence check reports for the path. A cached parse is
    /// returned as it is.
    pub fn parse_path(&mut self, is_file: bool) -> (r: Option<&WorkspacePathInfo>)
        ensures
            final(self)@ == old(self)@,
            final(self).id == old(self).id,
            match r {
                Some(i) => spec_info(*old(self), is_file) == Some(i@) && final(self).parsed_info == Some(*i),
                None => spec_info(*old(self), is_file) is None && final(self).parsed_info is None,
            },
    {
        if self.parsed_info.is_none() {
            match parse_workspace_path(self.path.as_str(), is_file) {
                Ok(info) => {
                    self.parsed_info = Some(info);
                },
                Err(_) => {
                    return None;
                },
            }
        }
        self.parsed_info.as_ref()
    }

    /// The label shown for this record; see `spec_label`.
    pub fn get_label(&mut self, is_file: bool) -> (r: String)
        ensures
            r@ == spec_label(*old(self), is_file),
            final(self)@ == old(self)@,
            final(self).id == old(self).id,
    {
        if let Some(name) = &self.name {
            let nc = chars_of(name.as_str());
            if nc.len() > 0 {
                return name.clone();
            }
        }
        let fallback = self.path.clone();
        match self.parse_path(is_file) {
            Some(info) => {
                if let Some(label) = &info.label {
                    let lc = chars_of(label.as_str());
                    if lc.len() > 0 {
                        return label.clone();
                    }
                }
                match &info.remote_host {
                    Some(host) => remote_label_exec(info, host),
                    None => info.path.clone(),
                }
            },
            None => fallback,
        }
    }

    /// The record's type name: `folder`, `file` or `workspace`, and
    /// `folder` where the path does not parse.
    pub fn get_type(&mut self, is_file: bool) -> (r: String)
        ensures
            r@ == match spec_info(*old(self), is_file) {
                Some(info) => kind_label(info.workspace_type),
                None => "folder"@,
            },
            final(self)@ == old(self)@,
            final(self).id == old(self).id,
    {
        match self.parse_path(is_file) {
            Some(info) => match info.workspace_type {
                WorkspaceType::Folder => "folder".to_string(),
                WorkspaceType::File => "file".to_string(),
                WorkspaceType::Workspace => "workspace".to_string(),
            },
            None => "folder".to_string(),
        }
    }

    /// Whether the record's path names a remote workspace.
    pub fn is_remote(&mut self, is_file: bool) -> (r: bool)
        ensures
            r == match spec_info(*old(self), is_file) {
                Some(info) => info.remote_authority is Some,
                None => false,
            },
            final(self)@ == old(self)@,
            final(self).id == old(self).id,
    {
        match self.parse_path(is_file) {
            Some(info) => info.remote_authority.is_some(),
            None => false,
        }
    }
}

} // verus!
