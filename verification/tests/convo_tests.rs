use c9watch::convo::{conversation_from_lines, extract_messages, validate_session_id, MessageType};
use c9watch::parser::parse_jsonl_entries;

#[test]
fn test_path_traversal() {
    // A traversal identifier is refused before anything could touch a file.
    let result = validate_session_id("../../../secret");
    match result {
        Ok(()) => panic!("Traversal identifier must be rejected"),
        Err(e) => assert_eq!(e, "Invalid session ID format", "Should reject invalid session ID"),
    }
}

#[test]
fn test_session_id_with_separator_rejected() {
    assert!(validate_session_id("a/b").is_err());
    assert!(validate_session_id("a\\b").is_err());
    assert!(validate_session_id("..").is_err());
    assert!(validate_session_id("x..y").is_err());
    assert!(validate_session_id("").is_err());
}

#[test]
fn test_plain_session_id_accepted() {
    assert!(validate_session_id("b2a7c9d0-1234-5678-9abc-def012345678").is_ok());
    assert!(validate_session_id("simple.id").is_ok());
}

#[test]
fn test_extract_messages_roles_and_text() {
    let lines = vec![
        r#"{"type":"user","uuid":"u1","timestamp":"t1","message":{"role":"user","content":"ask"}}"#.to_string(),
        r#"{"type":"assistant","uuid":"a1","timestamp":"t2","message":{"model":"m","id":"i","role":"assistant","content":[{"type":"text","text":"answer"},{"type":"thinking","thinking":"hmm"},{"type":"tool_use","id":"toolu_1","name":"Read","input":{}},{"type":"tool_result","tool_use_id":"toolu_1","content":"out","is_error":false}]}}"#.to_string(),
        r#"{"type":"user","uuid":"u2","timestamp":"t3","message":{"role":"user","content":[{"type":"tool_result","tool_use_id":"toolu_1","content":"echoed"}]}}"#.to_string(),
    ];
    let entries = parse_jsonl_entries(lines);
    let messages = extract_messages(&entries);
    assert_eq!(messages.len(), 6);
    assert_eq!(messages[0], ("t1".to_string(), MessageType::User, "ask".to_string()));
    assert_eq!(messages[1], ("t2".to_string(), MessageType::Assistant, "answer".to_string()));
    assert_eq!(messages[2], ("t2".to_string(), MessageType::Thinking, "hmm".to_string()));
    assert_eq!(messages[3], ("t2".to_string(), MessageType::ToolUse, "Executing Read".to_string()));
    assert_eq!(
        messages[4],
        ("t2".to_string(), MessageType::ToolResult, "[Result] toolu_1: out".to_string())
    );
    assert_eq!(messages[5], ("t3".to_string(), MessageType::ToolResult, "echoed".to_string()));
}

#[test]
fn test_extract_messages_error_outcome() {
    let lines = vec![
        r#"{"type":"assistant","uuid":"a1","timestamp":"t","message":{"model":"m","id":"i","role":"assistant","content":[{"type":"tool_result","tool_use_id":"toolu_9","content":"boom","is_error":true}]}}"#.to_string(),
    ];
    let entries = parse_jsonl_entries(lines);
    let messages = extract_messages(&entries);
    assert_eq!(messages.len(), 1);
    assert_eq!(messages[0].2, "[Error] toolu_9: boom");
}

#[test]
fn test_conversation_from_lines_keeps_id_and_messages() {
    let lines = vec![
        r#"{"type":"user","uuid":"u1","timestamp":"t1","message":{"role":"user","content":"hello"}}"#.to_string(),
        "garbage line".to_string(),
    ];
    let conv = conversation_from_lines("sess-1".to_string(), &lines);
    assert_eq!(conv.session_id, "sess-1");
    assert_eq!(conv.messages.len(), 1);
    assert_eq!(conv.messages[0].content, "hello");
    assert_eq!(conv.messages[0].message_type, MessageType::User);
}

#[test]
fn test_empty_tool_result_array_placeholder() {
    let lines = vec![
        r#"{"type":"user","uuid":"u1","timestamp":"t1","message":{"role":"user","content":[{"type":"tool_result","tool_use_id":"toolu_1","content":[]}]}}"#.to_string(),
    ];
    let entries = parse_jsonl_entries(lines);
    let messages = extract_messages(&entries);
    assert_eq!(messages.len(), 1);
    assert_eq!(messages[0].2, "[tool result]");
    assert_eq!(messages[0].1, MessageType::ToolResult);
}
