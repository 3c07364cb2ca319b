use c9watch::parser::{parse_jsonl_entries, parse_last_n_entries, parse_line, MessageContent, SessionEntry};

#[test]
fn test_parse_user_message() {
    let json = r#"{
        "type": "user",
        "uuid": "test-uuid",
        "timestamp": "2026-01-08T15:23:03.096Z",
        "sessionId": "test-session",
        "cwd": "/Users/test",
        "message": {
            "role": "user",
            "content": "Hello there"
        }
    }"#;

    let entry = parse_line(json);
    if let SessionEntry::User { base, message } = entry {
        assert_eq!(base.uuid, "test-uuid");
        assert_eq!(message.content, "Hello there");
    } else {
        panic!("Failed to parse user message");
    }
}

#[test]
fn test_parse_assistant_message() {
    let json = r#"{
        "type": "assistant",
        "uuid": "test-uuid",
        "timestamp": "2026-01-08T15:23:03.096Z",
        "message": {
            "model": "model-a-1",
            "id": "msg_test",
            "role": "assistant",
            "content": [
                {
                    "type": "text",
                    "text": "Hello user"
                }
            ],
            "stop_reason": null,
            "stop_sequence": null
        }
    }"#;

    let entry = parse_line(json);
    if let SessionEntry::Assistant { base, message } = entry {
        assert_eq!(base.uuid, "test-uuid");
        assert_eq!(message.model, "model-a-1");
        assert_eq!(message.content.len(), 1);
    } else {
        panic!("Failed to parse assistant message");
    }
}

#[test]
fn test_parse_tool_use() {
    let json = r#"{
        "type": "assistant",
        "uuid": "test-uuid",
        "timestamp": "2026-01-08T15:23:03.096Z",
        "message": {
            "model": "model-a-1",
            "id": "msg_test",
            "role": "assistant",
            "content": [
                {
                    "type": "tool_use",
                    "id": "toolu_123",
                    "name": "Read",
                    "input": {"file_path": "/path/to/file.txt"}
                }
            ],
            "stop_reason": "tool_use"
        }
    }"#;

    let entry = parse_line(json);
    if let SessionEntry::Assistant { message, .. } = entry {
        assert_eq!(message.content.len(), 1);
        if let MessageContent::ToolUse { id, name, .. } = &message.content[0] {
            assert_eq!(id, "toolu_123");
            assert_eq!(name, "Read");
        } else {
            panic!("Expected ToolUse content");
        }
    } else {
        panic!("Failed to parse tool use");
    }
}

#[test]
fn test_parse_user_message_with_tool_result_content() {
    // A tool result re-injected as a user record has array content.
    let json = r#"{
        "type": "user",
        "uuid": "test-uuid",
        "timestamp": "2026-01-08T15:23:03.096Z",
        "sessionId": "test-session",
        "message": {
            "role": "user",
            "content": [
                {
                    "type": "tool_result",
                    "tool_use_id": "toolu_123",
                    "content": "command output here"
                }
            ]
        }
    }"#;

    let entry = parse_line(json);
    if let SessionEntry::User { message, .. } = entry {
        assert!(message.content.contains("command output here"));
        assert!(message.is_tool_result);
    } else {
        panic!("Expected User entry");
    }
}

#[test]
fn test_parse_user_message_with_nested_tool_result() {
    // tool_result content can itself be an array of content blocks.
    let json = r#"{
        "type": "user",
        "uuid": "test-uuid",
        "timestamp": "2026-01-08T15:23:03.096Z",
        "sessionId": "test-session",
        "message": {
            "role": "user",
            "content": [
                {
                    "type": "tool_result",
                    "tool_use_id": "toolu_456",
                    "content": [
                        {"type": "text", "text": "file contents here"}
                    ]
                }
            ]
        }
    }"#;

    let entry = parse_line(json);
    if let SessionEntry::User { message, .. } = entry {
        assert!(message.content.contains("file contents here"));
    } else {
        panic!("Expected User entry");
    }
}

#[test]
fn test_parse_progress_entry() {
    // Progress entries decode to the opaque informational kind.
    let json = r#"{
        "type": "progress",
        "uuid": "test-uuid",
        "timestamp": "2026-01-08T15:23:03.096Z",
        "data": {"type": "bash_progress"},
        "toolUseID": "toolu_123"
    }"#;

    let entry = parse_line(json);
    assert!(matches!(entry, SessionEntry::Unknown));
}

#[test]
fn test_malformed_lines_become_informational() {
    // No line is lost: each malformed line yields one informational entry.
    let user = r#"{"type":"user","uuid":"u1","timestamp":"2026-01-08T15:23:03Z","message":{"role":"user","content":"hi"}}"#;
    let lines = vec![
        user.to_string(),
        "this is not json".to_string(),
        "{broken".to_string(),
        user.to_string(),
    ];
    let entries = parse_jsonl_entries(lines);
    assert_eq!(entries.len(), 4);
    assert!(matches!(entries[0], SessionEntry::User { .. }));
    assert!(matches!(entries[1], SessionEntry::Unknown));
    assert!(matches!(entries[2], SessionEntry::Unknown));
    assert!(matches!(entries[3], SessionEntry::User { .. }));
}

#[test]
fn test_blank_lines_are_skipped() {
    let user = r#"{"type":"user","uuid":"u1","timestamp":"2026-01-08T15:23:03Z","message":{"role":"user","content":"hi"}}"#;
    let lines = vec!["".to_string(), "   ".to_string(), user.to_string(), "\t".to_string()];
    let entries = parse_jsonl_entries(lines);
    assert_eq!(entries.len(), 1);
    assert!(matches!(entries[0], SessionEntry::User { .. }));
}

#[test]
fn test_tail_parse_matches_full_parse() {
    // The last-N parse equals the tail of the full parse, for any N.
    let mk = |i: u32| {
        format!(
            r#"{{"type":"user","uuid":"u{}","timestamp":"2026-01-08T15:23:03Z","message":{{"role":"user","content":"m{}"}}}}"#,
            i, i
        )
    };
    let mut lines: Vec<String> = Vec::new();
    for i in 0..7 {
        lines.push(mk(i));
        if i == 3 {
            lines.push("not json at all".to_string());
        }
    }
    let full = parse_jsonl_entries(lines.clone());
    for n in 0..10usize {
        let tail = parse_last_n_entries(&lines, n);
        let start = if full.len() > n { full.len() - n } else { 0 };
        assert_eq!(tail.len(), full.len() - start);
        for (k, e) in tail.iter().enumerate() {
            let f = &full[start + k];
            match (e, f) {
                (SessionEntry::User { base: b1, message: m1 }, SessionEntry::User { base: b2, message: m2 }) => {
                    assert_eq!(b1.uuid, b2.uuid);
                    assert_eq!(m1.content, m2.content);
                }
                (SessionEntry::Unknown, SessionEntry::Unknown) => {}
                _ => panic!("tail and full parse disagree at {}", k),
            }
        }
    }
}

#[test]
fn test_parse_assistant_with_usage() {
    let json = r#"{
        "type": "assistant",
        "uuid": "test-uuid",
        "timestamp": "2026-01-08T15:23:03Z",
        "message": {
            "model": "m",
            "id": "msg",
            "role": "assistant",
            "content": [],
            "usage": {"input_tokens": 12, "output_tokens": 34}
        }
    }"#;
    let entry = parse_line(json);
    if let SessionEntry::Assistant { message, .. } = entry {
        let usage = message.usage.expect("usage should be present");
        assert_eq!(usage.input_tokens, Some(12));
        assert_eq!(usage.output_tokens, Some(34));
        assert_eq!(usage.cache_creation_input_tokens, None);
    } else {
        panic!("Expected Assistant entry");
    }
}

#[test]
fn test_parse_summary_entry() {
    let json = r#"{"type":"summary","summary":"a short recap","leafUuid":"leaf-1"}"#;
    let entry = parse_line(json);
    if let SessionEntry::Summary { summary, leaf_uuid } = entry {
        assert_eq!(summary, "a short recap");
        assert_eq!(leaf_uuid, "leaf-1");
    } else {
        panic!("Expected Summary entry");
    }
}

#[test]
fn test_user_entry_missing_uuid_is_informational() {
    let json = r#"{"type":"user","timestamp":"2026-01-08T15:23:03Z","message":{"role":"user","content":"hi"}}"#;
    assert!(matches!(parse_line(json), SessionEntry::Unknown));
}
