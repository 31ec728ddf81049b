use vscode_workspaces_editor::paths::{generate_path_variations, normalize_path};
use vscode_workspaces_editor::utils::extract_folder_basename;

#[test]
fn normalize_strips_scheme_separators_and_decodes() {
    assert_eq!(normalize_path("file:///home/u/my%20p/"), "/home/u/my p");
    assert_eq!(normalize_path("C:\\Users\\me\\proj\\"), "C:/Users/me/proj");
    assert_eq!(normalize_path("vscode-remote://ssh-remote+h/p"), "vscode-remote://ssh-remote+h/p");
    assert_eq!(normalize_path("/plain"), "/plain");
}

#[test]
fn variations_in_order_without_repeats() {
    let v = generate_path_variations("file:///home/u/p/");
    assert_eq!(
        v,
        vec![
            "file:///home/u/p/".to_string(),
            "/home/u/p".to_string(),
            "/home/u/p/".to_string(),
            "file:\\\\\\home\\u\\p\\".to_string(),
            "file:///home/u/p".to_string(),
        ]
    );
    let w = generate_path_variations("C:\\x");
    assert_eq!(
        w,
        vec![
            "C:\\x".to_string(),
            "C:/x".to_string(),
            "file://C:\\x".to_string(),
            "\\x".to_string(),
        ]
    );
}

#[test]
fn folder_basenames() {
    assert_eq!(extract_folder_basename("file:///home/u/proj"), "proj");
    assert_eq!(extract_folder_basename("/home/u/proj/"), "proj");
    assert_eq!(extract_folder_basename("/home/u/proj/."), "proj");
    assert_eq!(extract_folder_basename("/home/.."), "unnamed");
    assert_eq!(extract_folder_basename("/"), "unnamed");
    assert_eq!(extract_folder_basename("vscode-remote://ssh-remote+h/srv/app"), "app");
    assert_eq!(extract_folder_basename("vscode-remote://nopath"), "unnamed");
}

#[test]
fn last_variation_trims_slashes_then_backslashes() {
    let v = generate_path_variations("a/\\");
    assert_eq!(
        v,
        vec![
            "a/\\".to_string(),
            "a".to_string(),
            "file://a/\\".to_string(),
            "a//".to_string(),
            "a\\\\".to_string(),
            "a/".to_string(),
        ]
    );
}

#[test]
fn toggling_the_scheme_removes_every_occurrence() {
    let v = generate_path_variations("file:///x/file://y");
    assert_eq!(v[2], "/x/y");
}
