//! The third-party editor's database: rows of recently opened workspaces,
//! some of them remote connections without a URI of their own.

use vstd::prelude::*;
use crate::database::{spec_merge, process_workspace_details, probe, match_keys};
use crate::models::{Workspace, WorkspaceSource, RecordView, SourceView, record_views, decimal, push_decimal};
use crate::parser::{opt_view, PathInfoView, WorkspacePathInfo, WorkspaceType};
use crate::text::{chars_of, string_of, push_all, has_prefix};

verus! {

/// The release channels whose databases are read.
pub open spec fn zed_channels() -> Seq<Seq<char>> {
    seq!["0-stable"@, "0-preview"@, "0-nightly"@, "0-dev"@]
}

/// The channels, in the order they are read.
pub fn zed_channel_names() -> (r: Vec<String>)
    ensures
        crate::paths::views(r@) == zed_channels(),
{
    let r = vec!["0-stable".to_string(), "0-preview".to_string(), "0-nightly".to_string(), "0-dev".to_string()];
    assert(crate::paths::views(r@) =~= zed_channels());
    r
}

/// One row of the editor's workspace table, joined with its remote
/// connection where it has one.
pub struct ZedRow {
    pub workspace_id: i64,
    pub paths: Option<String>,
    /// `YYYY-MM-DD HH:MM:SS`, in UTC.
    pub timestamp: String,
    pub kind: Option<String>,
    pub host: Option<String>,
    pub port: Option<u16>,
    pub user: Option<String>,
}

/// The rows read from one channel's database; `None` where it could not be
/// read.
pub struct ZedSource {
    pub channel: String,
    pub rows: Option<Vec<ZedRow>>,
}

/// Milliseconds since the epoch of `s` read as a UTC date and time in the
/// strftime format `fmt`; `None` where `s` does not match it.
pub uninterp spec fn datetime_millis(s: Seq<char>, fmt: Seq<char>) -> Option<i64>;

/// Relies on `chrono::NaiveDateTime::parse_from_str` and
/// `DateTime::timestamp_millis`: `s` read in the format `fmt` as a UTC time.
#[verifier::external_body]
fn parse_datetime_millis(s: &str, fmt: &str) -> (r: Option<i64>)
    ensures
        r == datetime_millis(s@, fmt@),
{
    chrono::NaiveDateTime::parse_from_str(s, fmt).ok().map(|dt| dt.and_utc().timestamp_millis())
}

/// The format of the editor's timestamps.
pub open spec fn zed_time_format() -> Seq<char> {
    "%Y-%m-%d %H:%M:%S"@
}

/// A row's time in milliseconds, 0 where its timestamp does not parse.
pub open spec fn zed_last_used(row: ZedRow) -> i64 {
    match datetime_millis(row.timestamp@, zed_time_format()) {
        Some(t) => t,
        None => 0,
    }
}

/// Reads an editor timestamp, `YYYY-MM-DD HH:MM:SS` in UTC, as milliseconds
/// since the epoch.
pub fn parse_zed_timestamp(s: &str) -> (r: Option<i64>)
    ensures
        r == datetime_millis(s@, zed_time_format()),
{
    parse_datetime_millis(s, "%Y-%m-%d %H:%M:%S")
}

/// Whether a row belongs to a remote connection.
pub open spec fn zed_is_remote(row: ZedRow) -> bool {
    row.kind is Some || row.host is Some
}

/// The URI that a remote row stands for:
/// `vscode-remote://<kind>+[user@]host[:port]<path>`.
pub open spec fn zed_remote_uri(kind: Seq<char>, user: Option<Seq<char>>, host: Seq<char>, port: Option<u16>, path: Seq<char>) -> Seq<char> {
    let with_user = match user {
        Some(u) => "vscode-remote://"@ + kind + seq!['+'] + u + seq!['@'],
        None => "vscode-remote://"@ + kind + seq!['+'],
    };
    let with_port = match port {
        Some(p) => with_user + host + seq![':'] + decimal(p as nat),
        None => with_user + host,
    };
    with_port + path
}

/// The identity path of a row: its stored path (`/` for a remote row that
/// has none), turned into a remote URI where the row has both a connection
/// kind and a host; none for a local row without a path or with an empty
/// one.
pub open spec fn zed_path(row: ZedRow) -> Option<Seq<char>> {
    let primary = match row.paths {
        Some(p) => Some(p@),
        None => if zed_is_remote(row) { Some("/"@) } else { None },
    };
    match primary {
        None => None,
        Some(p) => if p.len() == 0 && !zed_is_remote(row) {
            None
        } else if row.host is Some && row.kind is Some {
            Some(zed_remote_uri(row.kind->0@, opt_view(row.user), row.host->0@, row.port, p))
        } else {
            Some(p)
        },
    }
}

/// Builds the identity path of a row; see `zed_path`.
pub fn zed_workspace_path(row: &ZedRow) -> (r: Option<String>)
    ensures
        opt_view(r) == zed_path(*row),
{
    let remote = row.kind.is_some() || row.host.is_some();
    let primary = match &row.paths {
        Some(p) => p.clone(),
        None => {
            if remote {
                "/".to_string()
            } else {
                return None;
            }
        },
    };
    let pc = chars_of(primary.as_str());
    if pc.len() == 0 && !remote {
        return None;
    }
    match (&row.host, &row.kind) {
        (Some(host), Some(kind)) => {
            let mut uri: Vec<char> = chars_of("vscode-remote://");
            push_all(&mut uri, &chars_of(kind.as_str()));
            uri.push('+');
            if let Some(user) = &row.user {
                push_all(&mut uri, &chars_of(user.as_str()));
                uri.push('@');
            }
            push_all(&mut uri, &chars_of(host.as_str()));
            if let Some(port) = row.port {
                uri.push(':');
                push_decimal(&mut uri, port as u64);
            }
            push_all(&mut uri, &pc);
            proof {
                let with_user = match opt_view(row.user) {
                    Some(u) => "vscode-remote://"@ + kind@ + seq!['+'] + u + seq!['@'],
                    None => "vscode-remote://"@ + kind@ + seq!['+'],
                };
                let with_port = match row.port {
                    Some(p) => with_user + host@ + seq![':'] + decimal(p as nat),
                    None => with_user + host@,
                };
                assert(uri@ =~= with_port + primary@);
            }
            Some(string_of(&uri))
        },
        _ => Some(primary),
    }
}

/// The records after merging one row under `Zed(channel)`.
pub open spec fn spec_merge_zed_row(recs: Seq<RecordView>, row: ZedRow, channel: Seq<char>) -> Seq<RecordView> {
    match zed_path(row) {
        Some(p) => spec_merge(recs, p, Seq::empty(), zed_last_used(row), SourceView::Zed(channel)),
        None => recs,
    }
}

/// The records after merging a channel's rows in order.
pub open spec fn spec_merge_zed_rows(recs: Seq<RecordView>, rows: Seq<ZedRow>, channel: Seq<char>) -> Seq<RecordView>
    decreases rows.len(),
{
    if rows.len() == 0 {
        recs
    } else {
        spec_merge_zed_rows(spec_merge_zed_row(recs, rows[0], channel), rows.drop_first(), channel)
    }
}

/// The stored path of a row, `/` for a row without one.
pub open spec fn zed_primary(row: ZedRow) -> Seq<char> {
    match row.paths {
        Some(p) => p@,
        None => "/"@,
    }
}

/// The parse a row's record starts with: for a remote row with a kind and
/// a host, the remote details (authority `host[:port]`, host, user, port,
/// tags `remote` and the kind); for a local row, just its path; none for a
/// remote row missing its kind or host.
pub open spec fn zed_info(row: ZedRow) -> Option<PathInfoView> {
    if zed_is_remote(row) {
        if row.host is Some && row.kind is Some {
            let h = row.host->0@;
            Some(PathInfoView {
                original_path: zed_primary(row),
                workspace_type: WorkspaceType::Workspace,
                remote_authority: Some(match row.port {
                    Some(p) => h + seq![':'] + decimal(p as nat),
                    None => h,
                }),
                remote_host: Some(h),
                remote_user: opt_view(row.user),
                remote_port: row.port,
                path: zed_primary(row),
                container_path: None,
                label: None,
                tags: seq!["remote"@, row.kind->0@],
            })
        } else {
            None
        }
    } else {
        Some(PathInfoView {
            original_path: zed_primary(row),
            workspace_type: WorkspaceType::Workspace,
            remote_authority: None,
            remote_host: None,
            remote_user: None,
            remote_port: None,
            path: zed_primary(row),
            container_path: None,
            label: None,
            tags: Seq::empty(),
        })
    }
}

fn opt_clone(o: &Option<String>) -> (r: Option<String>)
    ensures
        opt_view(r) == opt_view(*o),
{
    match o {
        Some(s) => Some(s.clone()),
        None => None,
    }
}

/// Builds the parse a row's record starts with; see `zed_info`.
pub fn zed_info_exec(row: &ZedRow) -> (r: Option<WorkspacePathInfo>)
    ensures
        match r {
            Some(i) => zed_info(*row) == Some(i@),
            None => zed_info(*row) is None,
        },
{
    let primary = match &row.paths {
        Some(p) => p.clone(),
        None => "/".to_string(),
    };
    if row.kind.is_some() || row.host.is_some() {
        match (&row.host, &row.kind) {
            (Some(host), Some(kind)) => {
                let mut auth = chars_of(host.as_str());
                if let Some(port) = row.port {
                    auth.push(':');
                    push_decimal(&mut auth, port as u64);
                }
                let mut tags: Vec<String> = Vec::new();
                tags.push("remote".to_string());
                tags.push(kind.clone());
                let info = WorkspacePathInfo {
                    original_path: primary.clone(),
                    workspace_type: WorkspaceType::Workspace,
                    remote_authority: Some(string_of(&auth)),
                    remote_host: Some(host.clone()),
                    remote_user: opt_clone(&row.user),
                    remote_port: row.port,
                    path: primary,
                    container_path: None,
                    label: None,
                    tags,
                };
                proof {
                    let h = host@;
                    match row.port {
                        Some(p) => assert(auth@ =~= h + seq![':'] + decimal(p as nat)),
                        None => assert(auth@ =~= h),
                    }
                    assert(crate::paths::views(info.tags@) =~= seq!["remote"@, kind@]);
                }
                Some(info)
            },
            _ => None,
        }
    } else {
        let info = WorkspacePathInfo {
            original_path: primary.clone(),
            workspace_type: WorkspaceType::Workspace,
            remote_authority: None,
            remote_host: None,
            remote_user: None,
            remote_port: None,
            path: primary,
            container_path: None,
            label: None,
            tags: Vec::new(),
        };
        assert(crate::paths::views(info.tags@) =~= Seq::<Seq<char>>::empty());
        Some(info)
    }
}

/// The view of an optional parse.
pub open spec fn opt_info_view(o: Option<WorkspacePathInfo>) -> Option<PathInfoView> {
    match o {
        Some(i) => Some(i@),
        None => None,
    }
}

/// The views of the cached parses of a list of records.
pub open spec fn info_views(ws: Seq<Workspace>) -> Seq<Option<PathInfoView>> {
    ws.map_values(|w: Workspace| opt_info_view(w.parsed_info))
}

/// The parses of the records that merging a channel's rows creates, in
/// order: one for each row with a path that matches no record at its turn.
pub open spec fn zed_created(recs: Seq<RecordView>, rows: Seq<ZedRow>, channel: Seq<char>) -> Seq<Option<PathInfoView>>
    decreases rows.len(),
{
    if rows.len() == 0 {
        Seq::empty()
    } else {
        (match zed_path(rows[0]) {
            Some(p) => if probe(recs, match_keys(p)) is None { seq![zed_info(rows[0])] } else { Seq::empty() },
            None => Seq::empty(),
        }) + zed_created(spec_merge_zed_row(recs, rows[0], channel), rows.drop_first(), channel)
    }
}

/// The records that merging keeps from before and the ones it adds: old
/// ids and parses unchanged, new ids prefixed `zed-`.
pub open spec fn zed_merge_frame(new: Seq<Workspace>, old: Seq<Workspace>) -> bool {
    &&& old.len() <= new.len()
    &&& forall|i: int| 0 <= i < old.len() ==> (#[trigger] new[i]).id == old[i].id && new[i].parsed_info == old[i].parsed_info
    &&& forall|i: int| old.len() <= i < new.len() ==> has_prefix((#[trigger] new[i]).id@, "zed-"@)
}

/// Merges the rows of one channel into `records`, in order; a row without
/// an identity path is skipped. A record made for a row gets an id prefixed
/// `zed-` and the row's parse (`zed_info`); records already there keep
/// their ids and parses.
pub fn merge_zed_rows(rows: &Vec<ZedRow>, channel: &str, records: &mut Vec<Workspace>)
    ensures
        record_views(final(records)@) == spec_merge_zed_rows(record_views(old(records)@), rows@, channel@),
        zed_merge_frame(final(records)@, old(records)@),
        info_views(final(records)@).skip(old(records)@.len() as int)
            == zed_created(record_views(old(records)@), rows@, channel@),
{
    let ghost start = records@;
    let mut i: usize = 0;
    assert(rows@.skip(0) =~= rows@);
    assert(info_views(records@).skip(start.len() as int) =~= Seq::<Option<PathInfoView>>::empty());
    while i < rows.len()
        invariant
            i <= rows.len(),
            spec_merge_zed_rows(record_views(records@), rows@.skip(i as int), channel@)
                == spec_merge_zed_rows(record_views(start), rows@, channel@),
            zed_merge_frame(records@, start),
            info_views(records@).skip(start.len() as int) + zed_created(record_views(records@), rows@.skip(i as int), channel@)
                == zed_created(record_views(start), rows@, channel@),
        decreases rows.len() - i,
    {
        assert(rows@.skip(i as int).drop_first() =~= rows@.skip(i + 1));
        assert(rows@.skip(i as int)[0] == rows@[i as int]);
        let row = &rows[i];
        let ghost before = records@;
        if let Some(path) = zed_workspace_path(row) {
            let t = match parse_zed_timestamp(row.timestamp.as_str()) {
                Some(t) => t,
                None => 0,
            };
            let empty = String::new();
            let info = zed_info_exec(row);
            let ghost iv = opt_info_view(info);
            process_workspace_details(
                path.as_str(),
                empty.as_str(),
                t,
                records,
                WorkspaceSource::Zed(channel.to_string()),
                "zed-",
                info,
            );
            proof {
                if probe(record_views(before), match_keys(path@)) is None {
                    assert(info_views(records@).skip(start.len() as int)
                        =~= info_views(before).skip(start.len() as int).push(iv));
                    assert(info_views(records@).skip(start.len() as int) + zed_created(record_views(records@), rows@.skip(i + 1), channel@)
                        =~= info_views(before).skip(start.len() as int) + zed_created(record_views(before), rows@.skip(i as int), channel@));
                } else {
                    assert(info_views(records@) =~= info_views(before));
                    assert(zed_created(record_views(before), rows@.skip(i as int), channel@)
                        =~= zed_created(record_views(records@), rows@.skip(i + 1), channel@));
                }
            }
        } else {
            assert(zed_created(record_views(before), rows@.skip(i as int), channel@)
                =~= zed_created(record_views(records@), rows@.skip(i + 1), channel@));
        }
        i = i + 1;
    }
    assert(rows@.skip(i as int) =~= Seq::<ZedRow>::empty());
    assert(info_views(records@).skip(start.len() as int) + Seq::<Option<PathInfoView>>::empty()
        =~= info_views(records@).skip(start.len() as int));
}

/// The parses of the records that merging every readable channel creates,
/// in order.
pub open spec fn zed_sources_created(recs: Seq<RecordView>, zs: Seq<ZedSource>) -> Seq<Option<PathInfoView>>
    decreases zs.len(),
{
    if zs.len() == 0 {
        Seq::empty()
    } else {
        match zs[0].rows {
            Some(rows) => zed_created(recs, rows@, zs[0].channel@)
                + zed_sources_created(spec_merge_zed_rows(recs, rows@, zs[0].channel@), zs.drop_first()),
            None => zed_sources_created(recs, zs.drop_first()),
        }
    }
}

/// Every workspace that the editor's channels record, merged into one
/// list in channel order; a channel that could not be read contributes
/// nothing. Each record has an id prefixed `zed-` and the parse of the row
/// that created it.
pub fn get_zed_workspaces(channels: &Vec<ZedSource>) -> (r: Vec<Workspace>)
    ensures
        record_views(r@) == spec_merge_zed(Seq::empty(), channels@),
        forall|i: int| 0 <= i < r@.len() ==> has_prefix((#[trigger] r@[i]).id@, "zed-"@),
        info_views(r@) == zed_sources_created(Seq::empty(), channels@),
{
    let mut records: Vec<Workspace> = Vec::new();
    assert(record_views(records@) =~= Seq::<RecordView>::empty());
    merge_zed_sources(channels, &mut records);
    assert(info_views(records@).skip(0) =~= info_views(records@));
    records
}

/// The records after merging every readable channel in order.
pub open spec fn spec_merge_zed(recs: Seq<RecordView>, zs: Seq<ZedSource>) -> Seq<RecordView>
    decreases zs.len(),
{
    if zs.len() == 0 {
        recs
    } else {
        let next = match zs[0].rows {
            Some(rows) => spec_merge_zed_rows(recs, rows@, zs[0].channel@),
            None => recs,
        };
        spec_merge_zed(next, zs.drop_first())
    }
}

/// Merges the rows of every readable channel into `records`, in order; see
/// `merge_zed_rows`.
pub fn merge_zed_sources(channels: &Vec<ZedSource>, records: &mut Vec<Workspace>)
    ensures
        record_views(final(records)@) == spec_merge_zed(record_views(old(records)@), channels@),
        zed_merge_frame(final(records)@, old(records)@),
        info_views(final(records)@).skip(old(records)@.len() as int)
            == zed_sources_created(record_views(old(records)@), channels@),
{
    let ghost start = records@;
    let mut i: usize = 0;
    assert(channels@.skip(0) =~= channels@);
    assert(info_views(records@).skip(start.len() as int) =~= Seq::<Option<PathInfoView>>::empty());
    while i < channels.len()
        invariant
            i <= channels.len(),
            spec_merge_zed(record_views(records@), channels@.skip(i as int))
                == spec_merge_zed(record_views(start), channels@),
            zed_merge_frame(records@, start),
            info_views(records@).skip(start.len() as int) + zed_sources_created(record_views(records@), channels@.skip(i as int))
                == zed_sources_created(record_views(start), channels@),
        decreases channels.len() - i,
    {
        assert(channels@.skip(i as int).drop_first() =~= channels@.skip(i + 1));
        assert(channels@.skip(i as int)[0] == channels@[i as int]);
        let z = &channels[i];
        let ghost before = records@;
        if let Some(rows) = &z.rows {
            merge_zed_rows(rows, z.channel.as_str(), records);
            proof {
                let mid = before.len() as int;
                assert(info_views(records@).skip(start.len() as int)
                    =~= info_views(before).skip(start.len() as int) + info_views(records@).skip(mid));
                assert forall|k: int| 0 <= k < start.len() implies #[trigger] records@[k].id == start[k].id
                    && records@[k].parsed_info == start[k].parsed_info by {
                    assert(before[k].id == start[k].id);
                }
                assert forall|k: int| start.len() <= k < records@.len() implies has_prefix((#[trigger] records@[k]).id@, "zed-"@) by {
                    if k < mid {
                        assert(records@[k].id == before[k].id);
                        assert(has_prefix(before[k].id@, "zed-"@));
                    }
                }
            }
        }
        i = i + 1;
    }
    assert(channels@.skip(i as int) =~= Seq::<ZedSource>::empty());
    assert(info_views(records@).skip(start.len() as int) + Seq::<Option<PathInfoView>>::empty()
        =~= info_views(records@).skip(start.len() as int));
}

} // verus!
