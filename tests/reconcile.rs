use vscode_workspaces_editor::api::{get_workspaces, sort_by_last_used, DatabaseSource};
use vscode_workspaces_editor::database::{process_workspace_details, process_workspace_rows};
use vscode_workspaces_editor::error::WorkspaceError;
use vscode_workspaces_editor::models::{Workspace, WorkspaceSource};
use vscode_workspaces_editor::storage::{get_workspaces_from_storage, storage_locator, StorageEntry};
use vscode_workspaces_editor::zed::{get_zed_workspaces, zed_workspace_path, ZedRow, ZedSource};

fn storage_entry(folder: &str, id: &str, mtime: i64) -> StorageEntry {
    StorageEntry {
        content: format!("{{\"folder\":\"{}\"}}", folder),
        locator: format!("workspaceStorage/{}/workspace.json", id),
        id: id.to_string(),
        mtime_ms: mtime,
    }
}

fn db(locator: &str, text: &str) -> DatabaseSource {
    DatabaseSource { locator: locator.to_string(), contents: Some(text.to_string()) }
}

fn count_db_sources(w: &Workspace, locator: &str) -> usize {
    w.sources
        .iter()
        .filter(|s| matches!(s, WorkspaceSource::Database(l) if l == locator))
        .count()
}

#[test]
fn storage_and_database_entry_reconcile_into_one_record() {
    let m: i64 = 1_700_000_000_000;
    let storage = Some(vec![storage_entry("file:///home/u/p", "abc123", m)]);
    let list = format!(
        "{{\"entries\":[{{\"folderUri\":\"file:///home/u/p\",\"name\":\"proj\",\"lastUsed\":{}}}]}}",
        m + 1000
    );
    let dbs = vec![db("User/state.vscdb", &list)];
    let records = get_workspaces(&storage, &dbs, &Vec::new()).unwrap();
    assert_eq!(records.len(), 1);
    let r = &records[0];
    assert_eq!(r.id, "abc123");
    assert_eq!(r.name, Some("proj".to_string()));
    assert_eq!(r.path, "/home/u/p");
    assert_eq!(r.last_used, m + 1000);
    assert_eq!(r.sources.len(), 2);
    assert!(matches!(&r.sources[0], WorkspaceSource::Storage(s) if s == "workspaceStorage/abc123/workspace.json"));
    assert!(matches!(&r.sources[1], WorkspaceSource::Database(s) if s == "User/state.vscdb"));
}

#[test]
fn merging_the_same_list_twice_keeps_one_provenance() {
    let list = "{\"entries\":[{\"folderUri\":\"file:///a\"},{\"workspace\":{\"configPath\":\"/b.code-workspace\"}},{\"folderUri\":\"file:///a/\"}]}";
    let mut records = get_workspaces_from_storage(&vec![storage_entry("file:///a", "s1", 5)]);
    assert_eq!(process_workspace_rows(list, &mut records, "User/state.vscdb").unwrap(), 3);
    assert_eq!(process_workspace_rows(list, &mut records, "User/state.vscdb").unwrap(), 3);
    assert_eq!(records.len(), 2);
    for r in &records {
        assert_eq!(count_db_sources(r, "User/state.vscdb"), 1);
    }
    assert_eq!(records[1].path, "/b.code-workspace");
    assert!(records[1].id.starts_with("db-"));
    assert!(records[1].id.len() > 3);
}

#[test]
fn last_used_takes_the_larger_time() {
    let mut records = get_workspaces_from_storage(&vec![storage_entry("/x", "s", 500)]);
    process_workspace_details("/x", "", 100, &mut records, WorkspaceSource::Database("d".to_string()), "db-", None);
    assert_eq!(records[0].last_used, 500);
    process_workspace_details("/x", "", 900, &mut records, WorkspaceSource::Database("d".to_string()), "db-", None);
    assert_eq!(records[0].last_used, 900);
    process_workspace_details("/x", "late", 700, &mut records, WorkspaceSource::Database("e".to_string()), "db-", None);
    assert_eq!(records[0].last_used, 900);
    assert_eq!(records[0].name, Some("late".to_string()));
    assert_eq!(records[0].sources.len(), 3);
}

#[test]
fn file_entries_are_skipped_and_variations_match() {
    let list = "{\"entries\":[{\"fileUri\":\"file:///notes.txt\"},{\"folderUri\":\"file:///C:/work/\"}]}";
    let mut records = get_workspaces_from_storage(&vec![storage_entry("file:///C:/work", "w", 1)]);
    assert_eq!(process_workspace_rows(list, &mut records, "db").unwrap(), 1);
    assert_eq!(records.len(), 1);
    assert_eq!(records[0].sources.len(), 2);
}

#[test]
fn malformed_lists_are_errors_that_change_nothing() {
    let mut records: Vec<Workspace> = Vec::new();
    assert!(matches!(process_workspace_rows("not json", &mut records, "db"), Err(WorkspaceError::Parse(_))));
    assert!(matches!(process_workspace_rows("{\"other\":1}", &mut records, "db"), Err(WorkspaceError::Parse(_))));
    assert!(records.is_empty());
}

#[test]
fn no_readable_source_is_an_error() {
    let dbs = vec![DatabaseSource { locator: "User/state.vscdb".to_string(), contents: None }, db("x", "[]")];
    let zs = vec![ZedSource { channel: "0-stable".to_string(), rows: None }];
    assert!(matches!(get_workspaces(&None, &dbs, &zs), Err(WorkspaceError::Database(_))));
    assert_eq!(get_workspaces(&Some(Vec::new()), &dbs, &zs).unwrap().len(), 0);
}

#[test]
fn records_sorted_most_recent_first_and_stable() {
    let entries = vec![storage_entry("/a", "a", 10), storage_entry("/b", "b", 30), storage_entry("/c", "c", 10), storage_entry("/d", "d", 20)];
    let sorted = sort_by_last_used(get_workspaces_from_storage(&entries));
    let ids: Vec<&str> = sorted.iter().map(|w| w.id.as_str()).collect();
    assert_eq!(ids, vec!["b", "d", "a", "c"]);
}

#[test]
fn storage_files_without_folder_are_skipped() {
    let bad = StorageEntry { content: "{\"workspace\":\"x\"}".to_string(), locator: "l".to_string(), id: "i".to_string(), mtime_ms: 0 };
    let broken = StorageEntry { content: "{".to_string(), locator: "l".to_string(), id: "j".to_string(), mtime_ms: 0 };
    assert!(get_workspaces_from_storage(&vec![bad, broken]).is_empty());
}

fn zed_row(paths: Option<&str>, kind: Option<&str>, host: Option<&str>, port: Option<u16>, user: Option<&str>) -> ZedRow {
    ZedRow {
        workspace_id: 7,
        paths: paths.map(|s| s.to_string()),
        timestamp: "2025-06-27 16:20:06".to_string(),
        kind: kind.map(|s| s.to_string()),
        host: host.map(|s| s.to_string()),
        port,
        user: user.map(|s| s.to_string()),
    }
}

#[test]
fn zed_rows_become_identity_paths() {
    assert_eq!(zed_workspace_path(&zed_row(Some("/home/me/x"), None, None, None, None)), Some("/home/me/x".to_string()));
    assert_eq!(zed_workspace_path(&zed_row(None, None, None, None, None)), None);
    assert_eq!(zed_workspace_path(&zed_row(Some(""), None, None, None, None)), None);
    assert_eq!(
        zed_workspace_path(&zed_row(Some("/srv"), Some("ssh"), Some("box"), Some(2222), Some("me"))),
        Some("vscode-remote://ssh+me@box:2222/srv".to_string())
    );
    assert_eq!(
        zed_workspace_path(&zed_row(None, Some("ssh"), Some("box"), None, None)),
        Some("vscode-remote://ssh+box/".to_string())
    );
}

#[test]
fn zed_channels_merge_into_records() {
    let rows = vec![zed_row(Some("/home/me/x"), None, None, None, None), zed_row(Some("/home/me/x/"), None, None, None, None)];
    let zs = vec![ZedSource { channel: "0-stable".to_string(), rows: Some(rows) }];
    let records = get_zed_workspaces(&zs);
    assert_eq!(records.len(), 1);
    assert!(records[0].id.starts_with("zed-"));
    assert_eq!(records[0].last_used, 1751041206000);
    assert!(matches!(&records[0].sources[0], WorkspaceSource::Zed(c) if c == "0-stable"));
}

#[test]
fn storage_records_take_their_directory_ids() {
    let entries = vec![storage_entry("/a", "first", 1), storage_entry("/b", "second", 2)];
    let ws = get_workspaces_from_storage(&entries);
    let ids: Vec<&str> = ws.iter().map(|w| w.id.as_str()).collect();
    assert_eq!(ids, vec!["first", "second"]);
    assert!(ws.iter().all(|w| w.parsed_info.is_none()));
}

#[test]
fn storage_locators() {
    assert_eq!(
        storage_locator("/home/u/.config/Code/User/workspaceStorage/abc/workspace.json"),
        "workspaceStorage/abc/workspace.json"
    );
    assert_eq!(storage_locator("/elsewhere/x.json"), "/elsewhere/x.json");
    assert_eq!(storage_locator("/p/workspaceStorage/a/workspaceStorage/b"), "workspaceStorage/a/");
}

#[test]
fn remote_zed_rows_keep_their_connection_details() {
    let rows = vec![
        zed_row(Some("/srv"), Some("ssh"), Some("box"), Some(2222), Some("me")),
        zed_row(Some("/home/me/x"), None, None, None, None),
    ];
    let zs = vec![ZedSource { channel: "0-stable".to_string(), rows: Some(rows) }];
    let records = get_zed_workspaces(&zs);
    assert_eq!(records.len(), 2);
    let info = records[0].parsed_info.as_ref().unwrap();
    assert_eq!(records[0].path, "vscode-remote://ssh+me@box:2222/srv");
    assert_eq!(info.tags, vec!["remote".to_string(), "ssh".to_string()]);
    assert_eq!(info.remote_host, Some("box".to_string()));
    assert_eq!(info.remote_user, Some("me".to_string()));
    assert_eq!(info.remote_port, Some(2222));
    assert_eq!(info.remote_authority, Some("box:2222".to_string()));
    assert_eq!(info.path, "/srv");
    let local = records[1].parsed_info.as_ref().unwrap();
    assert!(local.tags.is_empty());
    assert_eq!(local.path, "/home/me/x");
    assert!(records.iter().all(|w| w.id.starts_with("zed-")));
}
