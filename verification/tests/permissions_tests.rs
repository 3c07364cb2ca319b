use c9watch::json::JsonValue;
use c9watch::permissions::{AllowPattern, PermissionChecker};

fn obj(fields: Vec<(&str, JsonValue)>) -> JsonValue {
    JsonValue::Object(fields.into_iter().map(|(k, v)| (k.to_string(), v)).collect())
}

fn bash_input(command: &str) -> JsonValue {
    obj(vec![("command", JsonValue::Text(command.to_string()))])
}

#[test]
fn test_parse_bash_pattern_with_wildcard() {
    let pattern = PermissionChecker::parse_pattern("Bash(git add:*)");
    assert!(
        matches!(pattern, Some(AllowPattern::Bash { prefix, wildcard: true }) if prefix == "git add")
    );
}

#[test]
fn test_parse_bash_pattern_exact() {
    let pattern = PermissionChecker::parse_pattern("Bash(npm ci)");
    assert!(
        matches!(pattern, Some(AllowPattern::Bash { prefix, wildcard: false }) if prefix == "npm ci")
    );
}

#[test]
fn test_parse_mcp_pattern() {
    let pattern = PermissionChecker::parse_pattern("mcp__atlassian__getJiraIssue");
    assert!(
        matches!(pattern, Some(AllowPattern::Mcp { name }) if name == "mcp__atlassian__getJiraIssue")
    );
}

#[test]
fn test_parse_skill_pattern() {
    let pattern = PermissionChecker::parse_pattern("Skill(review)");
    assert!(matches!(pattern, Some(AllowPattern::Skill { name }) if name == "review"));
}

#[test]
fn test_parse_plain_tool_pattern() {
    let pattern = PermissionChecker::parse_pattern("Write");
    assert!(matches!(pattern, Some(AllowPattern::Tool { name }) if name == "Write"));
}

#[test]
fn test_parse_unrecognized_pattern() {
    assert!(PermissionChecker::parse_pattern("Weird(thing").is_none());
}

#[test]
fn test_always_allowed_tools() {
    let checker = PermissionChecker::default();

    assert!(checker.is_auto_approved("Read", &obj(vec![])));
    assert!(checker.is_auto_approved("Glob", &obj(vec![])));
    assert!(checker.is_auto_approved("Grep", &obj(vec![])));
}

#[test]
fn test_bash_command_matching() {
    let checker = PermissionChecker {
        allowed_patterns: vec![
            AllowPattern::Bash { prefix: "git add".to_string(), wildcard: true },
            AllowPattern::Bash { prefix: "npm ci".to_string(), wildcard: false },
        ],
    };

    // A wildcard pattern matches by prefix.
    assert!(checker.is_auto_approved("Bash", &bash_input("git add .")));

    // An exact pattern matches the whole command.
    assert!(checker.is_auto_approved("Bash", &bash_input("npm ci")));

    // An exact pattern does not match a longer command.
    assert!(!checker.is_auto_approved("Bash", &bash_input("npm ci --legacy-peer-deps")));

    // An unknown command needs permission.
    assert!(!checker.is_auto_approved("Bash", &bash_input("rm -rf /")));
}

#[test]
fn test_bash_command_is_trimmed_before_matching() {
    let checker = PermissionChecker {
        allowed_patterns: vec![AllowPattern::Bash { prefix: "npm ci".to_string(), wildcard: false }],
    };
    assert!(checker.is_auto_approved("Bash", &bash_input("  npm ci  ")));
}

#[test]
fn test_mutating_tools_need_explicit_allow() {
    let empty = PermissionChecker::default();
    assert!(!empty.is_auto_approved("Write", &obj(vec![])));
    assert!(!empty.is_auto_approved("Edit", &obj(vec![])));

    let allowed = PermissionChecker {
        allowed_patterns: vec![AllowPattern::Tool { name: "Write".to_string() }],
    };
    assert!(allowed.is_auto_approved("Write", &obj(vec![])));
    assert!(!allowed.is_auto_approved("Edit", &obj(vec![])));
}

#[test]
fn test_mcp_tools_need_their_own_entry() {
    let checker = PermissionChecker {
        allowed_patterns: vec![AllowPattern::Mcp { name: "mcp__a__b".to_string() }],
    };
    assert!(checker.is_auto_approved("mcp__a__b", &obj(vec![])));
    assert!(!checker.is_auto_approved("mcp__a__c", &obj(vec![])));
}

#[test]
fn test_unknown_tool_needs_permission() {
    let checker = PermissionChecker::default();
    assert!(!checker.is_auto_approved("LaunchRocket", &obj(vec![])));
}

#[test]
fn test_from_settings_text() {
    let settings = r#"{"permissions":{"allow":["Bash(git add:*)","Write","mcp__a__b","nonsense(entry"]}}"#;
    let checker = PermissionChecker::from_settings_text(settings);
    assert_eq!(checker.allowed_patterns.len(), 3);
    assert!(checker.is_auto_approved("Bash", &bash_input("git add -A")));
    assert!(checker.is_auto_approved("Write", &obj(vec![])));
    assert!(checker.is_auto_approved("mcp__a__b", &obj(vec![])));
}

#[test]
fn test_malformed_settings_yield_empty_policy() {
    let checker = PermissionChecker::from_settings_text("not json");
    assert!(checker.allowed_patterns.is_empty());
    assert!(checker.is_auto_approved("Read", &obj(vec![])));
    assert!(!checker.is_auto_approved("Bash", &bash_input("ls")));
}
