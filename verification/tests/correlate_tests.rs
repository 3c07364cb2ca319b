use c9watch::actions::get_app_name;
use c9watch::correlate::{
    encode_cwd, find_active_sessions, is_agent_process_name, ClaudeProcess, LogFileRecord,
    SessionDetectorError,
};

fn record(session_id: &str, modified_secs: u64, dir_name: &str, project_path: &str) -> LogFileRecord {
    LogFileRecord {
        session_id: session_id.to_string(),
        modified_secs,
        project_dir: format!("/home/me/.agent/projects/{}", dir_name),
        dir_name: dir_name.to_string(),
        project_path: project_path.to_string(),
        project_name: "proj".to_string(),
        has_reliable_path: true,
    }
}

#[test]
fn test_get_app_name_known_apps() {
    assert_eq!(get_app_name("Code.exe"), Some("Visual Studio Code"));
    assert_eq!(get_app_name("WindowsTerminal.exe"), Some("Windows Terminal"));
    assert_eq!(get_app_name("pwsh.exe"), Some("PowerShell"));
    assert_eq!(get_app_name("cmd.exe"), Some("Command Prompt"));
    assert_eq!(get_app_name("Cursor.exe"), Some("Cursor"));

    assert_eq!(get_app_name("code"), Some("Visual Studio Code"));
    assert_eq!(get_app_name("terminal"), Some("Terminal"));
    assert_eq!(get_app_name("zed"), Some("Zed"));
}

#[test]
fn test_get_app_name_unknown() {
    assert_eq!(get_app_name("unknown_process"), None);
}

#[test]
fn test_get_app_name_bundle_path() {
    assert_eq!(
        get_app_name("/Applications/Zed.app/Contents/MacOS/zed"),
        Some("Zed")
    );
    assert_eq!(
        get_app_name("/Applications/iTerm.app/Contents/MacOS/iTerm2"),
        Some("iTerm")
    );
}

#[test]
fn test_encode_cwd_substitution() {
    assert_eq!(encode_cwd("/Users/me/my_project"), "-Users-me-my-project");
    assert_eq!(encode_cwd("C:\\Users\\me\\proj"), "C-Users-me-proj");
    assert_eq!(encode_cwd(""), "");
}

#[test]
fn test_is_agent_process_name() {
    assert!(is_agent_process_name("agentd", "agentd"));
    assert!(is_agent_process_name("AgentD.exe", "agentd"));
    assert!(is_agent_process_name("some-agentd-wrapper", "agentd"));
    assert!(!is_agent_process_name("c9watch-agentd", "agentd"));
    assert!(!is_agent_process_name("bash", "agentd"));
}

#[test]
fn test_correlator_binds_file_at_or_after_start() {
    // Two log files in the same directory straddle the process's start:
    // the binding takes the one modified after the start, not the older one.
    let proc_start: u64 = 1_000_000;
    let older = record("older-session", proc_start - 600, "-home-me-proj", "/home/me/proj");
    let newer = record("newer-session", proc_start + 30, "-home-me-proj", "/home/me/proj");
    let processes = vec![ClaudeProcess {
        pid: 42,
        cwd: Some("/home/me/proj".to_string()),
        start_time: proc_start,
    }];
    let sessions = find_active_sessions(processes, vec![older, newer]);
    assert_eq!(sessions.len(), 1);
    assert_eq!(sessions[0].session_id, Some("newer-session".to_string()));
    assert_eq!(sessions[0].pid, 42);
}

#[test]
fn test_correlator_grace_allows_slightly_older_file() {
    // A file touched within the grace just before the start still binds.
    let proc_start: u64 = 1_000_000;
    let close = record("close-session", proc_start - 3, "-home-me-proj", "/home/me/proj");
    let processes = vec![ClaudeProcess {
        pid: 7,
        cwd: Some("/home/me/proj".to_string()),
        start_time: proc_start,
    }];
    let sessions = find_active_sessions(processes, vec![close]);
    assert_eq!(sessions.len(), 1);
    assert_eq!(sessions[0].session_id, Some("close-session".to_string()));
}

#[test]
fn test_correlator_claims_each_file_once() {
    // Two processes in one directory take the two most recent files, the
    // newest process claiming the freshest file first.
    let base: u64 = 1_000_000;
    let f1 = record("s1", base + 100, "-home-me-proj", "/home/me/proj");
    let f2 = record("s2", base + 50, "-home-me-proj", "/home/me/proj");
    let processes = vec![
        ClaudeProcess { pid: 1, cwd: Some("/home/me/proj".to_string()), start_time: base },
        ClaudeProcess { pid: 2, cwd: Some("/home/me/proj".to_string()), start_time: base + 10 },
    ];
    let sessions = find_active_sessions(processes, vec![f1, f2]);
    assert_eq!(sessions.len(), 2);
    // The younger process (pid 2) is matched first and takes the freshest log.
    assert_eq!(sessions[0].pid, 2);
    assert_eq!(sessions[0].session_id, Some("s1".to_string()));
    assert_eq!(sessions[1].pid, 1);
    assert_eq!(sessions[1].session_id, Some("s2".to_string()));
}

#[test]
fn test_correlator_matches_by_encoded_name() {
    // Without a reliable path, the encoded directory name is the evidence.
    let base: u64 = 1_000_000;
    let mut rec = record("enc-session", base + 5, "-home-me-my-app", "/unused");
    rec.has_reliable_path = false;
    let processes = vec![ClaudeProcess {
        pid: 9,
        cwd: Some("/home/me/my_app".to_string()),
        start_time: base,
    }];
    let sessions = find_active_sessions(processes, vec![rec]);
    assert_eq!(sessions.len(), 1);
    assert_eq!(sessions[0].session_id, Some("enc-session".to_string()));
}

#[test]
fn test_correlator_subdirectory_match() {
    // A process deeper inside the project still matches the reliable path.
    let base: u64 = 1_000_000;
    let rec = record("sub-session", base + 5, "-home-me-proj", "/home/me/proj");
    let processes = vec![ClaudeProcess {
        pid: 3,
        cwd: Some("/home/me/proj/src/deep".to_string()),
        start_time: base,
    }];
    let sessions = find_active_sessions(processes, vec![rec]);
    assert_eq!(sessions.len(), 1);
}

#[test]
fn test_correlator_process_without_cwd_yields_nothing() {
    let base: u64 = 1_000_000;
    let rec = record("s", base + 5, "-home-me-proj", "/home/me/proj");
    let processes = vec![ClaudeProcess { pid: 4, cwd: None, start_time: base }];
    let sessions = find_active_sessions(processes, vec![rec]);
    assert!(sessions.is_empty());
}

#[test]
fn test_detector_error_messages() {
    assert_eq!(
        SessionDetectorError::DirectoryRead("/tmp/x".to_string()).message(),
        "Failed to read directory: /tmp/x"
    );
    assert_eq!(
        SessionDetectorError::HomeDirectoryNotFound.message(),
        "Failed to get home directory"
    );
    assert_eq!(
        SessionDetectorError::ProcessRefreshError.message(),
        "Failed to refresh process information"
    );
}
