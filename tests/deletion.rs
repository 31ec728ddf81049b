use vscode_workspaces_editor::deletion::{
    build_storage_dir_path, delete_workspace, deletion_succeeded, parse_db_source, removal_succeeded,
    remove_matching_entries, DeletionStep, ListRewrite,
};
use vscode_workspaces_editor::models::{Workspace, WorkspaceSource};

fn record(path: &str, sources: Vec<WorkspaceSource>) -> Workspace {
    Workspace {
        id: "id".to_string(),
        name: None,
        path: path.to_string(),
        last_used: 0,
        storage_path: None,
        sources,
        parsed_info: None,
    }
}

#[test]
fn two_matching_entries_removed_in_one_write() {
    let list = "{\"entries\":[{\"folderUri\":\"file:///home/u/p\"},{\"folderUri\":\"file:///other\"},{\"folderUri\":\"file:///home/u/p/\"}],\"v\":1}";
    match remove_matching_entries(list, "/home/u/p") {
        ListRewrite::Write(text, removed) => {
            assert_eq!(removed, 2);
            let doc: serde_json::Value = serde_json::from_str(&text).unwrap();
            let again = remove_matching_entries(&text, "/home/u/p");
            assert!(matches!(again, ListRewrite::Unchanged));
            assert!(doc.get("v").is_some());
            assert_eq!(text, "{\"entries\":[{\"folderUri\":\"file:///other\"}],\"v\":1}");
        },
        ListRewrite::Unchanged => panic!("expected a rewrite"),
    }
}

#[test]
fn unmatched_or_malformed_lists_are_left_alone() {
    assert!(matches!(remove_matching_entries("{\"entries\":[{\"folderUri\":\"/x\"}]}", "/y"), ListRewrite::Unchanged));
    assert!(matches!(remove_matching_entries("nope", "/y"), ListRewrite::Unchanged));
    assert!(matches!(remove_matching_entries("{\"entries\":3}", "/y"), ListRewrite::Unchanged));
}

#[test]
fn workspace_entries_match_by_uri_or_config_path() {
    let list = "{\"entries\":[{\"workspace\":{\"id\":\"1\",\"configPath\":\"file:///w/a.code-workspace\"}},{\"fileUri\":\"file:///w/a.code-workspace\"}]}";
    match remove_matching_entries(list, "/w/a.code-workspace") {
        ListRewrite::Write(text, removed) => {
            assert_eq!(removed, 1);
            assert_eq!(text, "{\"entries\":[{\"fileUri\":\"file:///w/a.code-workspace\"}]}");
        },
        ListRewrite::Unchanged => panic!("expected a rewrite"),
    }
}

#[test]
fn storage_dirs_and_store_paths() {
    assert_eq!(
        build_storage_dir_path("/p", "workspaceStorage/abc/workspace.json"),
        Some("/p/User/workspaceStorage/abc".to_string())
    );
    assert_eq!(build_storage_dir_path("/p", "elsewhere/abc/workspace.json"), None);
    assert_eq!(build_storage_dir_path("/p", "workspaceStorage"), None);
    assert_eq!(parse_db_source("/p", "User/state.vscdb"), "/p/User/state.vscdb");
}

#[test]
fn plan_covers_each_source_in_order() {
    let ws = vec![
        record("/a", vec![
            WorkspaceSource::Storage("workspaceStorage/s1/workspace.json".to_string()),
            WorkspaceSource::Database("User/state.vscdb".to_string()),
            WorkspaceSource::Zed("0-stable".to_string()),
        ]),
        record("/b", vec![WorkspaceSource::Storage("bad".to_string())]),
    ];
    let steps = delete_workspace("/prof", &ws);
    assert_eq!(steps.len(), 3);
    assert!(matches!(&steps[0], DeletionStep::RemoveDir(d) if d == "/prof/User/workspaceStorage/s1"));
    assert!(matches!(&steps[1], DeletionStep::RewriteStore(db, p) if db == "/prof/User/state.vscdb" && p == "/a"));
    assert!(matches!(&steps[2], DeletionStep::Unresolvable(s) if s == "bad"));
    assert!(delete_workspace("/prof", &Vec::new()).is_empty());
}

#[test]
fn removing_an_already_missing_storage_dir_succeeds() {
    assert!(removal_succeeded(false, false));
    assert!(removal_succeeded(true, true));
    assert!(!removal_succeeded(true, false));
}

#[test]
fn deletion_succeeds_only_when_every_step_does() {
    assert!(deletion_succeeded(&vec![true, true]));
    assert!(deletion_succeeded(&vec![]));
    assert!(!deletion_succeeded(&vec![true, false, true]));
}
