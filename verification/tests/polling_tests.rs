use c9watch::auth::generate_token;
use c9watch::correlate::ClaudeProcess;
use c9watch::permissions::PermissionChecker;
use c9watch::polling::{
    detect_and_enrich_sessions, notification_body, LogFileData, PollState, ProjectData, Session,
};
use c9watch::status::SessionStatus;

const NOW_TS: &str = "2026-01-08T15:23:03Z";

fn now_epoch() -> i64 {
    chrono::DateTime::parse_from_rfc3339(NOW_TS).unwrap().timestamp()
}

fn user_line(uuid: &str, text: &str) -> String {
    format!(
        r#"{{"type":"user","uuid":"{}","timestamp":"{}","message":{{"role":"user","content":"{}"}}}}"#,
        uuid, NOW_TS, text
    )
}

fn session_row(id: &str, status: SessionStatus) -> Session {
    Session {
        id: id.to_string(),
        pid: 1,
        session_name: "proj".to_string(),
        custom_title: None,
        project_path: "/home/me/proj".to_string(),
        git_branch: None,
        first_prompt: "hi".to_string(),
        summary: None,
        message_count: 1,
        modified: NOW_TS.to_string(),
        status,
        latest_message: "hi".to_string(),
        pending_tool_name: None,
    }
}

#[test]
fn test_detect_and_enrich_sessions() {
    let now = now_epoch();
    let start = (now - 60) as u64;
    let processes = vec![ClaudeProcess {
        pid: 42,
        cwd: Some("/home/me/proj".to_string()),
        start_time: start,
    }];
    let projects = vec![ProjectData {
        dir_path: "/home/me/.agent/projects/-home-me-proj".to_string(),
        dir_name: "-home-me-proj".to_string(),
        index_content: None,
        log_files: vec![LogFileData {
            file_name: "sess-1.jsonl".to_string(),
            modified_secs: start + 30,
            modified_rfc3339: NOW_TS.to_string(),
            lines: vec![user_line("u1", "hi there")],
        }],
    }];
    let checker = PermissionChecker::default();
    let names: Vec<(String, String)> = vec![];
    let titles: Vec<(String, String)> = vec![];
    let sessions = detect_and_enrich_sessions(processes, &projects, &checker, &names, &titles, now);
    assert_eq!(sessions.len(), 1);
    let s = &sessions[0];
    assert_eq!(s.id, "sess-1");
    assert_eq!(s.pid, 42);
    assert_eq!(s.session_name, "proj");
    assert_eq!(s.project_path, "/home/me/proj");
    assert_eq!(s.first_prompt, "hi there");
    assert_eq!(s.message_count, 1);
    assert_eq!(s.status, SessionStatus::Working);
}

#[test]
fn test_detect_and_enrich_sessions_empty_inputs() {
    let checker = PermissionChecker::default();
    let names: Vec<(String, String)> = vec![];
    let titles: Vec<(String, String)> = vec![];
    let projects: Vec<ProjectData> = vec![];
    let sessions = detect_and_enrich_sessions(vec![], &projects, &checker, &names, &titles, now_epoch());
    assert!(sessions.is_empty());
}

#[test]
fn test_detect_and_enrich_skips_empty_logs() {
    // A log with no user or assistant record is an abandoned session.
    let now = now_epoch();
    let start = (now - 60) as u64;
    let processes = vec![ClaudeProcess {
        pid: 42,
        cwd: Some("/home/me/proj".to_string()),
        start_time: start,
    }];
    let projects = vec![ProjectData {
        dir_path: "/home/me/.agent/projects/-home-me-proj".to_string(),
        dir_name: "-home-me-proj".to_string(),
        index_content: None,
        log_files: vec![LogFileData {
            file_name: "sess-2.jsonl".to_string(),
            modified_secs: start + 30,
            modified_rfc3339: NOW_TS.to_string(),
            lines: vec![r#"{"type":"progress","data":1}"#.to_string()],
        }],
    }];
    let checker = PermissionChecker::default();
    let names: Vec<(String, String)> = vec![];
    let titles: Vec<(String, String)> = vec![];
    let sessions = detect_and_enrich_sessions(processes, &projects, &checker, &names, &titles, now);
    assert!(sessions.is_empty());
}

#[test]
fn test_first_cycle_never_notifies() {
    // Whatever statuses the first cycle sees, it only seeds the memory.
    let mut state = PollState::new();
    let sessions = vec![
        session_row("a", SessionStatus::NeedsPermission),
        session_row("b", SessionStatus::WaitingForInput),
    ];
    let events = state.poll_cycle(&sessions, now_epoch());
    assert!(events.is_empty());
    assert!(!state.is_first_cycle);
}

#[test]
fn test_transition_fires_notification() {
    let mut state = PollState::new();
    let now = now_epoch();
    let _ = state.poll_cycle(&vec![session_row("a", SessionStatus::Working)], now);
    let events = state.poll_cycle(&vec![session_row("a", SessionStatus::NeedsPermission)], now + 4);
    assert_eq!(events.len(), 1);
    assert_eq!(events[0].session_id, "a");
    assert_eq!(events[0].status, SessionStatus::NeedsPermission);
}

#[test]
fn test_debounce_two_transitions_one_notification() {
    // Two working-to-permission transitions within the cooldown: one event.
    let mut state = PollState::new();
    let now = now_epoch();
    let _ = state.poll_cycle(&vec![session_row("a", SessionStatus::Working)], now);
    let e1 = state.poll_cycle(&vec![session_row("a", SessionStatus::NeedsPermission)], now + 4);
    let _ = state.poll_cycle(&vec![session_row("a", SessionStatus::Working)], now + 8);
    let e2 = state.poll_cycle(&vec![session_row("a", SessionStatus::NeedsPermission)], now + 12);
    assert_eq!(e1.len() + e2.len(), 1);
}

#[test]
fn test_notification_allowed_after_cooldown() {
    let mut state = PollState::new();
    let now = now_epoch();
    let _ = state.poll_cycle(&vec![session_row("a", SessionStatus::Working)], now);
    let e1 = state.poll_cycle(&vec![session_row("a", SessionStatus::NeedsPermission)], now + 4);
    let _ = state.poll_cycle(&vec![session_row("a", SessionStatus::Working)], now + 20);
    let e2 = state.poll_cycle(&vec![session_row("a", SessionStatus::NeedsPermission)], now + 40);
    assert_eq!(e1.len(), 1);
    assert_eq!(e2.len(), 1);
}

#[test]
fn test_no_notification_without_working_before() {
    let mut state = PollState::new();
    let now = now_epoch();
    let _ = state.poll_cycle(&vec![session_row("a", SessionStatus::Connecting)], now);
    let events = state.poll_cycle(&vec![session_row("a", SessionStatus::WaitingForInput)], now + 4);
    assert!(events.is_empty());
}

#[test]
fn test_memory_pruned_for_vanished_sessions() {
    // A session gone this cycle is forgotten: its next appearance is a
    // fresh start, with no remembered status.
    let mut state = PollState::new();
    let now = now_epoch();
    let _ = state.poll_cycle(&vec![session_row("a", SessionStatus::Working)], now);
    let _ = state.poll_cycle(&Vec::new(), now + 4);
    let events = state.poll_cycle(&vec![session_row("a", SessionStatus::WaitingForInput)], now + 8);
    assert!(events.is_empty());
    assert_eq!(state.previous_status.len(), 1);
}

#[test]
fn test_notification_body_texts() {
    let body = notification_body(
        &SessionStatus::NeedsPermission,
        "proj",
        Some(&"Bash".to_string()),
    );
    assert_eq!(body, Some("\u{1f510} proj: Needs permission for Bash".to_string()));

    let body2 = notification_body(&SessionStatus::NeedsPermission, "proj", None);
    assert_eq!(body2, Some("\u{1f510} proj: Needs permission for unknown tool".to_string()));

    let body3 = notification_body(&SessionStatus::WaitingForInput, "proj", None);
    assert_eq!(body3, Some("\u{2705} proj: Finished working".to_string()));

    assert_eq!(notification_body(&SessionStatus::Working, "proj", None), None);
    assert_eq!(notification_body(&SessionStatus::Connecting, "proj", None), None);
}

#[test]
fn test_generate_token_is_32_hex_chars() {
    let t1 = generate_token();
    assert_eq!(t1.len(), 32);
    assert!(t1.chars().all(|c| c.is_ascii_hexdigit() && !c.is_ascii_uppercase()));
    let t2 = generate_token();
    assert_eq!(t2.len(), 32);
}

#[test]
fn test_file_touch_override_forces_working() {
    // An idle inference is overridden while the log file is being written.
    let now = now_epoch();
    let start = (now - 600) as u64;
    let old_line = format!(
        r#"{{"type":"user","uuid":"u1","timestamp":"2026-01-08T15:10:00Z","message":{{"role":"user","content":"old prompt"}}}}"#
    );
    let processes = vec![ClaudeProcess {
        pid: 42,
        cwd: Some("/home/me/proj".to_string()),
        start_time: start,
    }];
    let mk_projects = |mtime: u64| {
        vec![ProjectData {
            dir_path: "/home/me/.agent/projects/-home-me-proj".to_string(),
            dir_name: "-home-me-proj".to_string(),
            index_content: None,
            log_files: vec![LogFileData {
                file_name: "sess-3.jsonl".to_string(),
                modified_secs: mtime,
                modified_rfc3339: NOW_TS.to_string(),
                lines: vec![old_line.clone()],
            }],
        }]
    };
    let checker = PermissionChecker::default();
    let names: Vec<(String, String)> = vec![];
    let titles: Vec<(String, String)> = vec![];

    // Touched 3 seconds ago: the stale prompt still counts as working.
    let fresh = detect_and_enrich_sessions(
        processes.clone(),
        &mk_projects((now - 3) as u64),
        &checker,
        &names,
        &titles,
        now,
    );
    assert_eq!(fresh.len(), 1);
    assert_eq!(fresh[0].status, SessionStatus::Working);

    // Touched a minute ago: the session is idle.
    let stale = detect_and_enrich_sessions(
        processes,
        &mk_projects((now - 60) as u64),
        &checker,
        &names,
        &titles,
        now,
    );
    assert_eq!(stale.len(), 1);
    assert_eq!(stale[0].status, SessionStatus::WaitingForInput);
}

#[test]
fn test_custom_name_overrides_project_name() {
    let now = now_epoch();
    let start = (now - 60) as u64;
    let processes = vec![ClaudeProcess {
        pid: 42,
        cwd: Some("/home/me/proj".to_string()),
        start_time: start,
    }];
    let projects = vec![ProjectData {
        dir_path: "/home/me/.agent/projects/-home-me-proj".to_string(),
        dir_name: "-home-me-proj".to_string(),
        index_content: None,
        log_files: vec![LogFileData {
            file_name: "sess-4.jsonl".to_string(),
            modified_secs: start + 30,
            modified_rfc3339: NOW_TS.to_string(),
            lines: vec![user_line("u1", "hello")],
        }],
    }];
    let checker = PermissionChecker::default();
    let names = vec![("sess-4".to_string(), "My Custom Name".to_string())];
    let titles = vec![("sess-4".to_string(), "A Title".to_string())];
    let sessions = detect_and_enrich_sessions(processes, &projects, &checker, &names, &titles, now);
    assert_eq!(sessions.len(), 1);
    assert_eq!(sessions[0].session_name, "My Custom Name");
    assert_eq!(sessions[0].custom_title, Some("A Title".to_string()));
}
