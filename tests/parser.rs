use vscode_workspaces_editor::error::WorkspaceError;
use vscode_workspaces_editor::parser::{
    decode_hex_if_needed, parse_ssh_remote_string, parse_u16, parse_workspace_path, WorkspacePathInfo,
    WorkspaceType,
};

fn is_file(path: &str) -> bool {
    std::path::Path::new(path).is_file()
}

#[test]
fn test_parse_local_path() {
    let path = "/home/user/projects/myproject";
    let info = parse_workspace_path(path, is_file(path)).unwrap();

    assert_eq!(info.original_path, path);
    assert_eq!(info.workspace_type, WorkspaceType::Folder);
    assert_eq!(info.path, path);
    assert!(info.remote_authority.is_none());
    assert!(info.remote_host.is_none());
    assert!(info.remote_user.is_none());
    assert!(info.remote_port.is_none());
    assert!(info.container_path.is_none());
    assert!(info.tags.is_empty());
}

#[test]
fn test_parse_ssh_remote() {
    let path = "vscode-remote://ssh-remote+user@example.com/home/user/project";
    let info = parse_workspace_path(path, is_file(path)).unwrap();

    assert_eq!(info.original_path, path);
    assert_eq!(info.workspace_type, WorkspaceType::Workspace);
    // The path after the authority keeps a leading `/`.
    assert_eq!(info.path, "/home/user/project");
    assert!(info.remote_authority.is_some());
    assert!(info.remote_host.is_some());
    assert_eq!(info.remote_user, Some("user".to_string()));
    assert!(info.remote_port.is_none());
    assert!(info.tags.contains(&"remote".to_string()));
    assert!(info.tags.contains(&"ssh".to_string()));

    let path_with_port = "vscode-remote://ssh-remote+user@example.com:2222/home/user/project";
    let info_with_port = parse_workspace_path(path_with_port, is_file(path_with_port)).unwrap();

    assert_eq!(info_with_port.remote_user, Some("user".to_string()));
    assert_eq!(info_with_port.remote_port, Some(2222));
}

#[test]
fn test_parse_dev_container() {
    let path = "vscode-remote://dev-container+abc@hostname/container/path";
    let info = parse_workspace_path(path, is_file(path)).unwrap();

    assert_eq!(info.original_path, path);
    assert_eq!(info.workspace_type, WorkspaceType::Workspace);
    // The path after the authority keeps a leading `/`.
    assert_eq!(info.path, "/container/path");
    assert!(info.remote_authority.is_some());
    assert!(info.remote_host.is_some());
    assert!(info.tags.contains(&"remote".to_string()));
    assert!(info.tags.contains(&"devcontainer".to_string()));
}

#[test]
fn test_decode_hex() {
    let json_input = "{\"host\":\"example.com\"}";
    let result = decode_hex_if_needed(json_input).unwrap();
    assert_eq!(result, json_input);

    let hex_input = "7b22686f7374223a226578616d706c652e636f6d227d";
    let result = decode_hex_if_needed(hex_input).unwrap();
    assert_eq!(result, "{\"host\":\"example.com\"}");
}

fn blank_info() -> WorkspacePathInfo {
    WorkspacePathInfo {
        original_path: "test".to_string(),
        workspace_type: WorkspaceType::Workspace,
        remote_authority: None,
        remote_host: None,
        remote_user: None,
        remote_port: None,
        path: "original/path".to_string(),
        container_path: None,
        label: None,
        tags: Vec::new(),
    }
}

#[test]
fn test_parse_ssh_remote_string() {
    let mut info = blank_info();

    parse_ssh_remote_string("user@host", &mut info);
    assert_eq!(info.remote_user, Some("user".to_string()));
    assert_eq!(info.remote_host, Some("host".to_string()));
    assert!(info.remote_port.is_none());
    assert_eq!(info.path, "original/path");

    let mut info2 = info.clone();
    parse_ssh_remote_string("user@host:2222", &mut info2);
    assert_eq!(info2.remote_user, Some("user".to_string()));
    assert_eq!(info2.remote_host, Some("host".to_string()));
    assert_eq!(info2.remote_port, Some(2222));
    assert_eq!(info2.path, "original/path");

    let mut info3 = info.clone();
    parse_ssh_remote_string("user@host:/home/user/project", &mut info3);
    assert_eq!(info3.remote_user, Some("user".to_string()));
    assert_eq!(info3.remote_host, Some("host".to_string()));
    assert!(info3.remote_port.is_none());
    assert_eq!(info3.path, "/home/user/project");

    let mut info4 = info.clone();
    parse_ssh_remote_string("user@host:2222:/home/user/project", &mut info4);
    assert_eq!(info4.remote_user, Some("user".to_string()));
    assert_eq!(info4.remote_host, Some("host".to_string()));
    assert_eq!(info4.remote_port, Some(2222));
    assert_eq!(info4.path, "/home/user/project");

    let mut info5 = blank_info();
    parse_ssh_remote_string("host:/home/user/project", &mut info5);
    assert!(info5.remote_user.is_none());
    assert_eq!(info5.remote_host, Some("host".to_string()));
    assert!(info5.remote_port.is_none());
    assert_eq!(info5.path, "/home/user/project");
}

#[test]
fn local_path_follows_file_check() {
    let p = "/some/where/notes.txt";
    let as_file = parse_workspace_path(p, true).unwrap();
    assert_eq!(as_file.workspace_type, WorkspaceType::File);
    assert_eq!(as_file.path, p);
    let as_folder = parse_workspace_path(p, false).unwrap();
    assert_eq!(as_folder.workspace_type, WorkspaceType::Folder);
    assert_eq!(as_folder.path, p);
}

#[test]
fn ssh_uri_with_port_and_path() {
    let info = parse_workspace_path("vscode-remote://ssh-remote+user@host:2222/abs/path", false).unwrap();
    assert_eq!(info.remote_user, Some("user".to_string()));
    assert_eq!(info.remote_host, Some("host".to_string()));
    assert_eq!(info.remote_port, Some(2222));
    assert_eq!(info.path, "/abs/path");
    assert!(info.tags.contains(&"remote".to_string()));
    assert!(info.tags.contains(&"ssh".to_string()));
    assert_eq!(info.remote_authority, Some("ssh-remote+user@host:2222".to_string()));
}

#[test]
fn decode_hex_keeps_json_text_twice() {
    let s = "{\"hostName\":\"box\"}";
    let once = decode_hex_if_needed(s).unwrap();
    assert_eq!(once, s);
    let twice = decode_hex_if_needed(&once).unwrap();
    assert_eq!(twice, once);
}

#[test]
fn decode_hex_errors_on_odd_length() {
    assert!(matches!(decode_hex_if_needed("abc"), Err(WorkspaceError::Decode(_))));
    assert!(matches!(decode_hex_if_needed("7b2"), Err(WorkspaceError::Decode(_))));
}

#[test]
fn decode_hex_keeps_non_hex_and_non_json() {
    assert_eq!(decode_hex_if_needed("user@host").unwrap(), "user@host");
    // Decodes to "AB", which is not JSON: the input comes back.
    assert_eq!(decode_hex_if_needed("4142").unwrap(), "4142");
    assert_eq!(decode_hex_if_needed("").unwrap(), "");
}

#[test]
fn remote_uri_without_path_is_a_parse_error() {
    let r = parse_workspace_path("vscode-remote://ssh-remote+host", false);
    assert!(matches!(r, Err(WorkspaceError::Parse(_))));
}

#[test]
fn ssh_json_authority_in_hex() {
    // {"hostName":"box","user":"me","port":22} in hex.
    let json = "{\"hostName\":\"box\",\"user\":\"me\",\"port\":22}";
    let hex: String = json.bytes().map(|b| format!("{:02x}", b)).collect();
    let uri = format!("vscode-remote://ssh-remote+{}/work", hex);
    let info = parse_workspace_path(&uri, false).unwrap();
    assert_eq!(info.remote_host, Some("box".to_string()));
    assert_eq!(info.remote_user, Some("me".to_string()));
    assert_eq!(info.remote_port, Some(22));
    assert_eq!(info.container_path, Some("/work".to_string()));
    assert_eq!(info.path, "/work");
}

#[test]
fn dev_container_json_with_host_path_and_scheme() {
    let json = "{\"hostPath\":\"/home/me/app\",\"scheme\":\"docker\",\"settings\":{\"host\":\"ctr\"}}";
    let hex: String = json.bytes().map(|b| format!("{:02x}", b)).collect();
    let uri = format!("vscode-remote://dev-container+{}@ignored/workspaces/app", hex);
    let info = parse_workspace_path(&uri, false).unwrap();
    assert_eq!(info.remote_host, Some("ctr".to_string()));
    assert_eq!(info.container_path, Some("/workspaces/app".to_string()));
    assert_eq!(info.path, "/home/me/app");
    assert_eq!(info.tags, vec!["remote".to_string(), "devcontainer".to_string(), "docker".to_string()]);
}

#[test]
fn percent_encoded_authority_is_decoded() {
    let info = parse_workspace_path("vscode-remote://ssh-remote%2Bme@box/p", false).unwrap();
    assert_eq!(info.remote_authority, Some("ssh-remote+me@box".to_string()));
    assert_eq!(info.remote_user, Some("me".to_string()));
    assert_eq!(info.remote_host, Some("box".to_string()));
}

#[test]
fn port_reading_follows_std() {
    assert_eq!(parse_u16(&['2', '2']), Some(22));
    assert_eq!(parse_u16(&['+', '8']), Some(8));
    assert_eq!(parse_u16(&['6', '5', '5', '3', '5']), Some(65535));
    assert_eq!(parse_u16(&['6', '5', '5', '3', '6']), None);
    assert_eq!(parse_u16(&['+']), None);
    assert_eq!(parse_u16(&[]), None);
    assert_eq!(parse_u16(&['1', 'x']), None);
}

#[test]
fn json_port_out_of_range_gives_no_port() {
    let json = "{\"hostName\":\"box\",\"port\":70000}";
    let hex: String = json.bytes().map(|b| format!("{:02x}", b)).collect();
    let uri = format!("vscode-remote://ssh-remote+{}/work", hex);
    let info = parse_workspace_path(&uri, false).unwrap();
    assert_eq!(info.remote_host, Some("box".to_string()));
    assert_eq!(info.remote_port, None);
}
