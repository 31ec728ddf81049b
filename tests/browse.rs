use vscode_workspaces_editor::filter::{filter_workspaces, search_workspaces};
use vscode_workspaces_editor::models::{Workspace, WorkspaceSource};
use vscode_workspaces_editor::session::{commit_autocomplete, process_tab_key, update_search_results, App, InputMode, UiConfig};
use vscode_workspaces_editor::utils::{existence_probe_path, workspace_exists, PathFacts};

fn record(id: &str, name: Option<&str>, path: &str) -> Workspace {
    Workspace {
        id: id.to_string(),
        name: name.map(|n| n.to_string()),
        path: path.to_string(),
        last_used: 0,
        storage_path: None,
        sources: vec![WorkspaceSource::Database("db".to_string())],
        parsed_info: None,
    }
}

fn sample() -> Vec<Workspace> {
    vec![
        record("a", Some("Alpha"), "/home/me/alpha"),
        record("b", None, "vscode-remote://ssh-remote+me@Build-Box:22/srv/beta"),
        record("c", None, "/home/me/notes.code-workspace"),
    ]
}

fn no_facts() -> Vec<PathFacts> {
    Vec::new()
}

#[test]
fn filter_by_text_remote_type_and_tag() {
    let mut ws = sample();
    let flags = vec![false, false, false];
    assert_eq!(filter_workspaces(&mut ws, "  ", &flags, &no_facts()), vec![0, 1, 2]);
    assert_eq!(filter_workspaces(&mut ws, "ALPHA", &flags, &no_facts()), vec![0]);
    assert_eq!(filter_workspaces(&mut ws, ":remote:box", &flags, &no_facts()), vec![1]);
    assert_eq!(filter_workspaces(&mut ws, ":type:workspace", &flags, &no_facts()), vec![1]);
    assert_eq!(filter_workspaces(&mut ws, ":type:folder,file", &flags, &no_facts()), vec![0, 2]);
    assert_eq!(filter_workspaces(&mut ws, ":tag:ssh", &flags, &no_facts()), vec![1]);
    assert_eq!(filter_workspaces(&mut ws, ":path:beta", &flags, &no_facts()), vec![1]);
    assert!(ws.iter().all(|w| w.parsed_info.is_some()));
}

#[test]
fn filter_by_existence() {
    let mut ws = sample();
    let flags = vec![false, false, false];
    let facts = vec![
        PathFacts { exists: true, is_file: false },
        PathFacts { exists: false, is_file: false },
        PathFacts { exists: true, is_file: false },
    ];
    // The remote record counts as existing; the .code-workspace one must be a file.
    assert_eq!(filter_workspaces(&mut ws, ":existing:yes", &flags, &facts), vec![0, 1]);
    assert_eq!(filter_workspaces(&mut ws, ":existing:0", &flags, &facts), vec![2]);
}

#[test]
fn search_returns_matching_records() {
    let found = search_workspaces(sample(), "me/alpha", &vec![], &no_facts());
    assert_eq!(found.len(), 1);
    assert_eq!(found[0].id, "a");
    assert_eq!(search_workspaces(sample(), "", &vec![], &no_facts()).len(), 3);
}

#[test]
fn existence_probe_strips_file_scheme() {
    let w = record("x", None, "file:///tmp/p.code-workspace");
    assert_eq!(existence_probe_path(&w), "/tmp/p.code-workspace");
    assert!(!workspace_exists(&w, &PathFacts { exists: true, is_file: false }));
    assert!(workspace_exists(&w, &PathFacts { exists: true, is_file: true }));
}

fn app_with(ws: Vec<Workspace>) -> App {
    let mut app = App::new("/p".to_string(), Vec::new(), UiConfig { use_colors: false });
    app.load_workspaces(ws, &vec![], &no_facts());
    app
}

#[test]
fn new_app_is_empty() {
    let app = App::new("/p".to_string(), vec!["/q".to_string()], UiConfig { use_colors: true });
    assert_eq!(app.input_mode, InputMode::Normal);
    assert!(app.workspaces.is_empty());
    assert!(app.marked_for_deletion.is_empty());
    assert_eq!(app.known_profile_paths, vec!["/q".to_string()]);
}

#[test]
fn marking_and_unmarking() {
    let mut app = app_with(sample());
    assert_eq!(app.filtered_workspaces, vec![0, 1, 2]);
    assert_eq!(app.selected_workspace_index, Some(0));
    app.toggle_mark_selected();
    assert_eq!(app.marked_for_deletion, vec!["a".to_string()]);
    app.toggle_mark_selected();
    assert!(app.marked_for_deletion.is_empty());
    app.mark_all_filtered(0);
    assert_eq!(app.marked_for_deletion.len(), 3);
    assert_eq!(app.status_message.as_deref(), Some("Marked 3 workspaces for deletion"));
    app.unmark_all_filtered(0);
    assert!(app.marked_for_deletion.is_empty());
    assert_eq!(app.status_message.as_deref(), Some("Unmarked 3 workspaces"));
    app.toggle_mark_selected();
    app.toggle_mark_all_filtered(0);
    assert_eq!(app.marked_for_deletion.len(), 2);
    assert_eq!(app.status_message.as_deref(), Some("Toggled all: 2 marked, 1 unmarked"));
    app.cancel_deletion(0);
    assert!(app.marked_for_deletion.is_empty());
    assert_eq!(app.status_message.as_deref(), Some("Deletion canceled"));
}

#[test]
fn status_expires() {
    let mut app = app_with(Vec::new());
    app.set_status("hello", 2000, 1000);
    assert_eq!(app.status_expiry, Some(3000));
    app.update_status(3000);
    assert_eq!(app.status_message.as_deref(), Some("hello"));
    app.update_status(3001);
    assert!(app.status_message.is_none());
    assert!(app.status_expiry.is_none());
}

#[test]
fn browser_query_filters() {
    let mut app = app_with(sample());
    app.input_buffer = ":remote:yes".to_string();
    update_search_results(&mut app, &vec![], &no_facts(), 0);
    assert_eq!(app.filtered_workspaces, vec![1]);
    assert_eq!(app.status_message.as_deref(), Some("Found 1 matches"));
    app.input_buffer = "ALPHA home".to_string();
    update_search_results(&mut app, &vec![], &no_facts(), 0);
    assert_eq!(app.filtered_workspaces, vec![0]);
    app.input_buffer = "nothing-like-this".to_string();
    update_search_results(&mut app, &vec![], &no_facts(), 0);
    assert!(app.filtered_workspaces.is_empty());
    assert_eq!(app.selected_workspace_index, None);
    assert_eq!(app.status_message.as_deref(), Some("No matches found"));
}

#[test]
fn current_word_and_commit() {
    let mut app = app_with(Vec::new());
    app.input_buffer = "foo :rem".to_string();
    app.cursor_position = 8;
    assert_eq!(app.get_current_word(), (":rem".to_string(), 4));
    app.is_autocomplete_active = true;
    app.autocomplete_suggestion = Some("ote:".to_string());
    app.autocomplete_start_position = 6;
    assert_eq!(app.get_current_word(), (":r".to_string(), 4));
    commit_autocomplete(&mut app);
    assert!(!app.is_autocomplete_active);
    assert!(app.autocomplete_suggestion.is_none());
    assert_eq!(app.current_autocomplete_index, 0);
}

fn typed(app: &mut App, text: &str) {
    app.input_buffer = text.to_string();
    app.cursor_position = text.chars().count();
    app.is_autocomplete_active = false;
    app.autocomplete_suggestion = None;
}

#[test]
fn tab_completes_a_modifier() {
    let mut app = app_with(sample());
    typed(&mut app, ":re");
    process_tab_key(&mut app, 0, &vec![], &no_facts());
    assert_eq!(app.input_buffer, ":remote:");
    assert_eq!(app.cursor_position, 8);
    assert_eq!(app.autocomplete_suggestion.as_deref(), Some("mote:"));
    assert_eq!(app.autocomplete_start_position, 3);
    assert!(app.is_autocomplete_active);
    assert_eq!(app.status_message.as_deref(), Some("Type a value for mote:"));
    assert_eq!(app.search_query, ":remote:");
}

#[test]
fn tab_cycles_modifier_values() {
    let mut app = app_with(sample());
    typed(&mut app, ":remote:");
    process_tab_key(&mut app, 0, &vec![], &no_facts());
    assert_eq!(app.input_buffer, ":remote:yes");
    assert_eq!(app.cursor_position, 11);
    assert_eq!(app.status_message.as_deref(), Some("Selected :remote: value: yes (1/2)"));
    assert_eq!(app.filtered_workspaces, vec![1]);
    process_tab_key(&mut app, 0, &vec![], &no_facts());
    assert_eq!(app.input_buffer, ":remote:no");
    assert_eq!(app.current_autocomplete_index, 1);
    assert_eq!(app.status_message.as_deref(), Some("Selected :remote: value: no (2/2)"));
    assert_eq!(app.filtered_workspaces, vec![0, 2]);
}

#[test]
fn tab_cycles_between_modifiers() {
    let mut app = app_with(sample());
    typed(&mut app, ":t");
    process_tab_key(&mut app, 0, &vec![], &no_facts());
    assert_eq!(app.input_buffer, ":type:");
    assert_eq!(app.status_message.as_deref(), Some("Selected ype: (1/2) - Press Tab again to cycle"));
    process_tab_key(&mut app, 0, &vec![], &no_facts());
    assert_eq!(app.input_buffer, ":tag:");
    assert_eq!(app.status_message.as_deref(), Some("Selected ag: (2/2) - Press Tab again to cycle"));
}

#[test]
fn tab_without_a_modifier() {
    let mut app = app_with(sample());
    typed(&mut app, ":x");
    process_tab_key(&mut app, 0, &vec![], &no_facts());
    assert_eq!(app.input_buffer, ":x");
    assert_eq!(app.status_message.as_deref(), Some("No matching filter found"));
    assert!(!app.is_autocomplete_active);
    typed(&mut app, "alpha");
    app.status_message = None;
    process_tab_key(&mut app, 0, &vec![], &no_facts());
    assert!(app.status_message.is_none());
    assert_eq!(app.filtered_workspaces, vec![0]);
}

#[test]
fn deleting_marked_records_in_the_browser() {
    let mut app = app_with(sample());
    let (none, total) = app.delete_marked_workspaces(0);
    assert!(none.is_empty());
    assert_eq!(total, 0);
    assert_eq!(app.status_message.as_deref(), Some("No workspaces marked for deletion"));
    app.mark_all_filtered(0);
    app.toggle_mark_selected();
    let (positions, total) = app.delete_marked_workspaces(0);
    assert_eq!(positions, vec![1, 2]);
    assert_eq!(total, 2);
    assert!(app.marked_for_deletion.is_empty());
    app.report_deletion(Ok(true), positions.len(), total, 0);
    assert_eq!(app.status_message.as_deref(), Some("Successfully deleted 2/2 workspaces"));
    app.report_deletion(Ok(false), 0, 0, 0);
    assert_eq!(app.status_message.as_deref(), Some("Some workspaces could not be deleted, check logs for details"));
    app.report_deletion(Err("boom".to_string()), 0, 0, 0);
    assert_eq!(app.status_message.as_deref(), Some("Error deleting workspaces: boom"));
}
