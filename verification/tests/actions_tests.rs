use c9watch::actions::{app_cli_candidates, app_uses_reuse_flags};

#[test]
fn test_app_cli_candidates_known_editor() {
    let paths = app_cli_candidates("Zed");
    assert_eq!(paths[0], "/Applications/Zed.app/Contents/MacOS/cli");
    assert!(paths.contains(&"/usr/bin/zed".to_string()));
}

#[test]
fn test_app_cli_candidates_unknown_app() {
    assert!(app_cli_candidates("Terminal").is_empty());
}

#[test]
fn test_app_reuse_flags() {
    assert!(app_uses_reuse_flags("Visual Studio Code"));
    assert!(app_uses_reuse_flags("Cursor"));
    assert!(!app_uses_reuse_flags("Zed"));
}
