use mini_claw::error::MiniClawError;
use mini_claw::workspace::{
    check_directory, choose_workspace, format_path_with_home, interpret_input, WorkspaceInput,
    WorkspaceManager,
};

#[test]
fn test_format_path_home() {
    let home = dirs::home_dir().unwrap();
    assert_eq!(WorkspaceManager::format_path(home.to_str().unwrap()), "~");
}

#[test]
fn test_format_path_subdirectory() {
    let home = dirs::home_dir().unwrap();
    let path = home.join("projects");
    assert_eq!(WorkspaceManager::format_path(path.to_str().unwrap()), "~/projects");
}

#[test]
fn test_format_path_absolute() {
    assert_eq!(WorkspaceManager::format_path("/etc/config"), "/etc/config");
}

#[test]
fn format_path_against_a_given_home() {
    assert_eq!(format_path_with_home("/home/u", "/home/u"), "~");
    assert_eq!(format_path_with_home("/home/u/src", "/home/u"), "~/src");
    assert_eq!(format_path_with_home("/opt", "/home/u"), "/opt");
}

#[test]
fn inputs_read_as_paths() {
    match interpret_input("~/code", "/home/u") {
        WorkspaceInput::Absolute(p) => assert_eq!(p, "/home/u/code"),
        _ => panic!("Expected an absolute path"),
    }
    match interpret_input("~~//x", "/home/u/") {
        WorkspaceInput::Absolute(p) => assert_eq!(p, "/home/u/x"),
        _ => panic!("Expected an absolute path"),
    }
    match interpret_input("/srv", "/home/u") {
        WorkspaceInput::Absolute(p) => assert_eq!(p, "/srv"),
        _ => panic!("Expected an absolute path"),
    }
    match interpret_input("sub/dir", "/home/u") {
        WorkspaceInput::Relative(p) => assert_eq!(p, "sub/dir"),
        _ => panic!("Expected a relative path"),
    }
}

#[test]
fn directory_checks() {
    assert!(check_directory("/d", true, true).is_ok());
    match check_directory("/nonexistent/dir/xyz", false, false) {
        Err(MiniClawError::Workspace(m)) => assert_eq!(m, "Directory not found: /nonexistent/dir/xyz"),
        _ => panic!("Expected an error"),
    }
    match check_directory("/f", true, false) {
        Err(MiniClawError::Workspace(m)) => assert_eq!(m, "Not a directory: /f"),
        _ => panic!("Expected an error"),
    }
}

#[test]
fn workspace_bindings() {
    let mut mgr = WorkspaceManager::new();
    assert!(mgr.mapped_workspace(999).is_none());
    mgr.commit_workspace(999, "/srv/p");
    assert_eq!(mgr.mapped_workspace(999).as_deref(), Some("/srv/p"));
    let text = mgr.to_json();
    let mut again = WorkspaceManager::new();
    again.load_json(&text);
    assert_eq!(again.mapped_workspace(999).as_deref(), Some("/srv/p"));
    assert_eq!(choose_workspace(Some("/srv/p".to_string()), false, "/home/u".to_string()), "/home/u");
    assert_eq!(choose_workspace(Some("/srv/p".to_string()), true, "/home/u".to_string()), "/srv/p");
    assert_eq!(choose_workspace(None, true, "/home/u".to_string()), "/home/u");
}
