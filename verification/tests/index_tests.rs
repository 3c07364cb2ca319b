use c9watch::index::{parse_index_project_entries, parse_sessions_index};

const SAMPLE: &str = r#"{
    "version": 1,
    "entries": [
        {
            "sessionId": "sess-1",
            "fullPath": "/home/me/.agent/projects/-home-me-proj/sess-1.jsonl",
            "fileMtime": 1736350983,
            "firstPrompt": "hello",
            "summary": "a recap",
            "messageCount": 7,
            "created": "2026-01-08T15:00:00Z",
            "modified": "2026-01-08T15:23:03Z",
            "gitBranch": "main",
            "projectPath": "/home/me/proj",
            "isSidechain": false
        }
    ]
}"#;

#[test]
fn test_parse_sessions_index_sample() {
    let idx = parse_sessions_index(SAMPLE).expect("sample index should parse");
    assert_eq!(idx.version, 1);
    assert_eq!(idx.entries.len(), 1);
    let e = &idx.entries[0];
    assert_eq!(e.session_id, "sess-1");
    assert_eq!(e.first_prompt, "hello");
    assert_eq!(e.summary, Some("a recap".to_string()));
    assert_eq!(e.message_count, 7);
    assert_eq!(e.git_branch, "main");
    assert_eq!(e.project_path, "/home/me/proj");
    assert!(!e.is_sidechain);
}

#[test]
fn test_parse_sessions_index_rejects_malformed() {
    let err = match parse_sessions_index("{\"version\": true}") {
        Ok(_) => panic!("malformed index must not parse"),
        Err(e) => e,
    };
    assert_eq!(err, "Failed to parse sessions-index.json");
    assert!(parse_sessions_index("not json").is_err());
}

#[test]
fn test_parse_index_project_entries_lenient() {
    // The lenient read needs only a session id per entry.
    let text = r#"{"entries":[{"sessionId":"a"},{"sessionId":"b","projectPath":"/home/me/x"}]}"#;
    let es = parse_index_project_entries(text).expect("lenient parse should succeed");
    assert_eq!(es.len(), 2);
    assert_eq!(es[0].session_id, "a");
    assert_eq!(es[0].project_path, None);
    assert_eq!(es[1].project_path, Some("/home/me/x".to_string()));
}

#[test]
fn test_parse_index_project_entries_missing_id_fails() {
    let text = r#"{"entries":[{"projectPath":"/x"}]}"#;
    assert!(parse_index_project_entries(text).is_none());
}
