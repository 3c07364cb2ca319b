use c9watch::json::JsonValue;
use c9watch::parser::{AssistantMessage, MessageContent, SessionEntry, SessionEntryBase, UserMessage};
use c9watch::permissions::PermissionChecker;
use c9watch::status::{check_all_tools_completed, determine_status, determine_status_with_context, get_pending_tool_name, SessionStatus};

const NOW_TS: &str = "2026-01-08T15:23:03Z";
const OLD_TS: &str = "2026-01-01T12:00:00Z";

fn now_epoch() -> i64 {
    chrono::DateTime::parse_from_rfc3339(NOW_TS).unwrap().timestamp()
}

fn base_with(ts: &str) -> SessionEntryBase {
    SessionEntryBase {
        uuid: "test-uuid".to_string(),
        timestamp: ts.to_string(),
        session_id: Some("test-session".to_string()),
        cwd: None,
        version: None,
        git_branch: None,
        parent_uuid: None,
        is_sidechain: None,
        slug: None,
    }
}

fn create_base() -> SessionEntryBase {
    // A fresh timestamp, so recency checks pass.
    base_with(NOW_TS)
}

fn create_old_base() -> SessionEntryBase {
    // A stale timestamp, simulating an idle session.
    base_with(OLD_TS)
}

fn assistant(base: SessionEntryBase, content: Vec<MessageContent>, stop_reason: Option<&str>) -> SessionEntry {
    SessionEntry::Assistant {
        base,
        message: AssistantMessage {
            model: "model-a-1".to_string(),
            id: "msg_test".to_string(),
            role: "assistant".to_string(),
            content,
            stop_reason: stop_reason.map(|s| s.to_string()),
            stop_sequence: None,
            usage: None,
        },
    }
}

fn tool_use(id: &str, name: &str, input: Vec<(&str, &str)>) -> MessageContent {
    MessageContent::ToolUse {
        id: id.to_string(),
        name: name.to_string(),
        input: JsonValue::Object(
            input
                .into_iter()
                .map(|(k, v)| (k.to_string(), JsonValue::Text(v.to_string())))
                .collect(),
        ),
    }
}

fn tool_result(id: &str, content: &str) -> MessageContent {
    MessageContent::ToolResult {
        tool_use_id: id.to_string(),
        content: content.to_string(),
        is_error: Some(false),
    }
}

#[test]
fn test_empty_entries() {
    let entries: Vec<SessionEntry> = vec![];
    let checker = PermissionChecker::default();
    assert_eq!(determine_status(&entries, &checker, now_epoch()), SessionStatus::Connecting);
}

#[test]
fn test_user_message_means_working() {
    let entries = vec![SessionEntry::User {
        base: create_base(),
        message: UserMessage {
            role: "user".to_string(),
            content: "Hello".to_string(),
            is_tool_result: false,
        },
    }];
    let checker = PermissionChecker::default();
    assert_eq!(determine_status(&entries, &checker, now_epoch()), SessionStatus::Working);
}

#[test]
fn test_assistant_text_completed() {
    // An old turn that ended normally means waiting for input.
    let entries = vec![assistant(
        create_old_base(),
        vec![MessageContent::Text { text: "Hello there!".to_string() }],
        Some("end_turn"),
    )];
    let checker = PermissionChecker::default();
    assert_eq!(determine_status(&entries, &checker, now_epoch()), SessionStatus::WaitingForInput);
}

#[test]
fn test_assistant_generating() {
    let entries = vec![assistant(
        create_base(),
        vec![MessageContent::Text { text: "Thinking...".to_string() }],
        None,
    )];
    let checker = PermissionChecker::default();
    assert_eq!(determine_status(&entries, &checker, now_epoch()), SessionStatus::Working);
}

#[test]
fn test_tool_use_pending_auto_approved() {
    // Read is always approved, so a pending Read keeps the session working.
    let entries = vec![assistant(
        create_base(),
        vec![tool_use("toolu_123", "Read", vec![("file_path", "/test/file.txt")])],
        Some("tool_use"),
    )];
    let checker = PermissionChecker::default();
    assert_eq!(determine_status(&entries, &checker, now_epoch()), SessionStatus::Working);
}

#[test]
fn test_tool_use_pending_needs_permission() {
    let entries = vec![assistant(
        create_base(),
        vec![tool_use("toolu_123", "Bash", vec![("command", "rm -rf /some/path")])],
        Some("tool_use"),
    )];
    let checker = PermissionChecker::default();
    assert_eq!(determine_status(&entries, &checker, now_epoch()), SessionStatus::NeedsPermission);
}

#[test]
fn test_tool_use_completed() {
    // Every invocation answered: recency alone classifies, and this turn
    // is stale.
    let entries = vec![assistant(
        create_old_base(),
        vec![
            tool_use("toolu_123", "Read", vec![("file_path", "/test/file.txt")]),
            tool_result("toolu_123", "File content here"),
        ],
        Some("end_turn"),
    )];
    let checker = PermissionChecker::default();
    assert_eq!(determine_status(&entries, &checker, now_epoch()), SessionStatus::WaitingForInput);
}

#[test]
fn test_recent_completed_tools_still_working() {
    // Every invocation answered but the turn is fresh: the agent is most
    // likely about to continue, so recency keeps it working — the stop
    // reason carries no weight.
    let entries = vec![assistant(
        create_base(),
        vec![
            tool_use("toolu_123", "Read", vec![("file_path", "/test/file.txt")]),
            tool_result("toolu_123", "File content here"),
        ],
        Some("end_turn"),
    )];
    let checker = PermissionChecker::default();
    assert_eq!(determine_status(&entries, &checker, now_epoch()), SessionStatus::Working);
}

#[test]
fn test_multiple_tools_partially_completed_auto_approved() {
    // Both tools are read tools: even a partially answered pair keeps working.
    let entries = vec![assistant(
        create_base(),
        vec![
            tool_use("toolu_123", "Read", vec![("file_path", "/test/file1.txt")]),
            tool_use("toolu_456", "Read", vec![("file_path", "/test/file2.txt")]),
            tool_result("toolu_123", "File 1 content"),
        ],
        Some("tool_use"),
    )];
    let checker = PermissionChecker::default();
    assert_eq!(determine_status(&entries, &checker, now_epoch()), SessionStatus::Working);
}

#[test]
fn test_multiple_tools_partially_completed_needs_permission() {
    // One read tool answered; a pending shell command forces the demand.
    let entries = vec![assistant(
        create_base(),
        vec![
            tool_use("toolu_123", "Read", vec![("file_path", "/test/file1.txt")]),
            tool_use("toolu_456", "Bash", vec![("command", "make build")]),
            tool_result("toolu_123", "File 1 content"),
        ],
        Some("tool_use"),
    )];
    let checker = PermissionChecker::default();
    assert_eq!(determine_status(&entries, &checker, now_epoch()), SessionStatus::NeedsPermission);
}

#[test]
fn test_multiple_tools_all_completed() {
    // All answered and the turn stale: idle by recency.
    let entries = vec![assistant(
        create_old_base(),
        vec![
            tool_use("toolu_123", "Read", vec![("file_path", "/test/file1.txt")]),
            tool_use("toolu_456", "Read", vec![("file_path", "/test/file2.txt")]),
            tool_result("toolu_123", "File 1 content"),
            tool_result("toolu_456", "File 2 content"),
        ],
        Some("end_turn"),
    )];
    let checker = PermissionChecker::default();
    assert_eq!(determine_status(&entries, &checker, now_epoch()), SessionStatus::WaitingForInput);
}

#[test]
fn test_check_all_tools_completed() {
    let content = vec![
        tool_use("toolu_1", "Read", vec![]),
        MessageContent::ToolResult {
            tool_use_id: "toolu_1".to_string(),
            content: "result".to_string(),
            is_error: None,
        },
    ];
    assert!(check_all_tools_completed(&content));

    let incomplete_content = vec![tool_use("toolu_1", "Read", vec![])];
    assert!(!check_all_tools_completed(&incomplete_content));
}

#[test]
fn test_unknown_entries_after_tool_use_dont_override_status() {
    // Progress noise after a pending shell tool must not hide the demand.
    let entries = vec![
        assistant(
            create_base(),
            vec![tool_use("toolu_123", "Bash", vec![("command", "rm -rf /dangerous")])],
            Some("tool_use"),
        ),
        SessionEntry::Unknown,
        SessionEntry::Unknown,
    ];
    let checker = PermissionChecker::default();
    let status = determine_status(&entries, &checker, now_epoch());
    assert_ne!(status, SessionStatus::WaitingForInput);
    assert_eq!(status, SessionStatus::NeedsPermission);
}

#[test]
fn test_unknown_entries_after_user_message_still_working() {
    let entries = vec![
        SessionEntry::User {
            base: create_base(),
            message: UserMessage {
                role: "user".to_string(),
                content: "Hello".to_string(),
                is_tool_result: false,
            },
        },
        SessionEntry::Unknown,
        SessionEntry::Unknown,
    ];
    let checker = PermissionChecker::default();
    assert_eq!(determine_status(&entries, &checker, now_epoch()), SessionStatus::Working);
}

#[test]
fn test_only_unknown_entries_means_connecting() {
    let entries = vec![SessionEntry::Unknown, SessionEntry::Unknown];
    let checker = PermissionChecker::default();
    assert_eq!(determine_status(&entries, &checker, now_epoch()), SessionStatus::Connecting);
}

#[test]
fn test_old_assistant_text_no_stop_reason_is_idle() {
    // The log rarely carries a stop reason; an old text-only turn is idle.
    let entries = vec![assistant(
        create_old_base(),
        vec![MessageContent::Text { text: "Here's my response.".to_string() }],
        None,
    )];
    let checker = PermissionChecker::default();
    assert_eq!(determine_status(&entries, &checker, now_epoch()), SessionStatus::WaitingForInput);
}

#[test]
fn test_recent_assistant_text_no_stop_reason_is_working() {
    let entries = vec![assistant(
        create_base(),
        vec![MessageContent::Text { text: "Working on it...".to_string() }],
        None,
    )];
    let checker = PermissionChecker::default();
    assert_eq!(determine_status(&entries, &checker, now_epoch()), SessionStatus::Working);
}

#[test]
fn test_old_user_prompt_is_idle() {
    let entries = vec![SessionEntry::User {
        base: create_old_base(),
        message: UserMessage {
            role: "user".to_string(),
            content: "Hello".to_string(),
            is_tool_result: false,
        },
    }];
    let checker = PermissionChecker::default();
    assert_eq!(determine_status(&entries, &checker, now_epoch()), SessionStatus::WaitingForInput);
}

#[test]
fn test_recent_tool_result_is_working() {
    let entries = vec![SessionEntry::User {
        base: create_base(),
        message: UserMessage {
            role: "user".to_string(),
            content: "output".to_string(),
            is_tool_result: true,
        },
    }];
    let checker = PermissionChecker::default();
    assert_eq!(determine_status(&entries, &checker, now_epoch()), SessionStatus::Working);
}

#[test]
fn test_get_pending_tool_name_needs_permission() {
    let entries = vec![assistant(
        create_base(),
        vec![tool_use("toolu_123", "Bash", vec![("command", "rm -rf /some/path")])],
        Some("tool_use"),
    )];
    let checker = PermissionChecker::default();
    assert_eq!(get_pending_tool_name(&entries, &checker), Some("Bash".to_string()));
}

#[test]
fn test_get_pending_tool_name_auto_approved() {
    let entries = vec![assistant(
        create_base(),
        vec![tool_use("toolu_123", "Read", vec![("file_path", "/test/file.txt")])],
        Some("tool_use"),
    )];
    let checker = PermissionChecker::default();
    assert_eq!(get_pending_tool_name(&entries, &checker), None);
}

#[test]
fn test_get_pending_tool_name_no_tools() {
    let entries = vec![assistant(
        create_base(),
        vec![MessageContent::Text { text: "Just text, no tools".to_string() }],
        Some("end_turn"),
    )];
    let checker = PermissionChecker::default();
    assert_eq!(get_pending_tool_name(&entries, &checker), None);
}

#[test]
fn test_get_pending_tool_name_all_completed() {
    let entries = vec![assistant(
        create_base(),
        vec![
            tool_use("toolu_123", "Bash", vec![("command", "ls")]),
            tool_result("toolu_123", "file1.txt\nfile2.txt"),
        ],
        Some("end_turn"),
    )];
    let checker = PermissionChecker::default();
    assert_eq!(get_pending_tool_name(&entries, &checker), None);
}

#[test]
fn test_get_pending_tool_name_multiple_tools_first_needs_permission() {
    let entries = vec![assistant(
        create_base(),
        vec![
            tool_use("toolu_123", "Bash", vec![("command", "make build")]),
            tool_use("toolu_456", "Read", vec![("file_path", "/test/file.txt")]),
        ],
        Some("tool_use"),
    )];
    let checker = PermissionChecker::default();
    assert_eq!(get_pending_tool_name(&entries, &checker), Some("Bash".to_string()));
}

#[test]
fn test_get_pending_tool_name_no_assistant_message() {
    let entries = vec![SessionEntry::User {
        base: create_base(),
        message: UserMessage {
            role: "user".to_string(),
            content: "Hello".to_string(),
            is_tool_result: false,
        },
    }];
    let checker = PermissionChecker::default();
    assert_eq!(get_pending_tool_name(&entries, &checker), None);
}

#[test]
fn test_get_pending_tool_name_empty_entries() {
    let entries: Vec<SessionEntry> = vec![];
    let checker = PermissionChecker::default();
    assert_eq!(get_pending_tool_name(&entries, &checker), None);
}

#[test]
fn test_get_pending_tool_name_mixed_completed_and_pending() {
    let entries = vec![assistant(
        create_base(),
        vec![
            tool_use("toolu_123", "Read", vec![("file_path", "/test/file.txt")]),
            tool_result("toolu_123", "file content"),
            tool_use("toolu_456", "Bash", vec![("command", "rm -rf /important")]),
        ],
        Some("tool_use"),
    )];
    let checker = PermissionChecker::default();
    assert_eq!(get_pending_tool_name(&entries, &checker), Some("Bash".to_string()));
}

#[test]
fn test_matched_outcome_with_approved_read_pending_is_working() {
    // Two pending tool invocations in one turn: one has its outcome, the
    // other is a generically approved read tool, so the session is working.
    let entries = vec![assistant(
        create_base(),
        vec![
            tool_use("toolu_a", "Bash", vec![("command", "cargo build")]),
            tool_use("toolu_b", "Read", vec![("file_path", "/a")]),
            tool_result("toolu_a", "done"),
        ],
        Some("tool_use"),
    )];
    let checker = PermissionChecker::default();
    assert_eq!(determine_status(&entries, &checker, now_epoch()), SessionStatus::Working);
}

#[test]
fn test_cross_turn_tool_ids_never_match() {
    // An outcome in a later turn does not answer an invocation of an
    // earlier turn: the pending shell tool still demands permission.
    let entries = vec![
        assistant(
            create_base(),
            vec![
                tool_use("toolu_x", "Bash", vec![("command", "make")]),
                tool_result("toolu_y", "unrelated"),
            ],
            Some("tool_use"),
        ),
    ];
    let checker = PermissionChecker::default();
    assert_eq!(determine_status(&entries, &checker, now_epoch()), SessionStatus::NeedsPermission);
}

#[test]
fn test_context_small_window_is_connecting() {
    let checker = PermissionChecker::default();
    let entries = vec![SessionEntry::Unknown, SessionEntry::Unknown];
    assert_eq!(
        determine_status_with_context(&entries, &checker, now_epoch()),
        SessionStatus::Connecting
    );
}

#[test]
fn test_context_finished_pair_of_assistant_turns_is_idle() {
    // Two assistant turns in a row, the last one text-only and finished:
    // idle even though it is fresh.
    let checker = PermissionChecker::default();
    let entries = vec![
        SessionEntry::Unknown,
        assistant(create_base(), vec![MessageContent::Text { text: "step one".to_string() }], None),
        assistant(
            create_base(),
            vec![MessageContent::Text { text: "all done".to_string() }],
            Some("end_turn"),
        ),
    ];
    assert_eq!(
        determine_status_with_context(&entries, &checker, now_epoch()),
        SessionStatus::WaitingForInput
    );
}
