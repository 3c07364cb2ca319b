//! The poll cycle's pure core: enriching detected sessions with status and
//! metadata, and the cross-cycle notification state machine with its
//! debounce. All inputs arrive as plain values; what gathers them from the
//! machine stays outside.

use vstd::prelude::*;
use vstd::string::StrSliceExecFns;
use vstd::string::StringExecFns;
use crate::correlate::{
    ClaudeProcess, DetectedSession, DetectedV, FileV, LogFileRecord, correlate_spec, dets_view,
    detected_view, file_view, files_view, procs_view,
};
use crate::json::{JsonV, json_tree, lookup_field};
use crate::parser::{
    BlockV, EntryV, MessageContent, SessionEntry, blocks_view, entries_view, lines_entries,
    tail_of,
};
use crate::permissions::{PatternV, PermissionChecker, patterns_view};
use crate::status::{SessionStatus, infer_spec, pending_tool_name_spec};
use crate::text::{strs_view, truncate_spec, truncate_string};

verus! {

broadcast use vstd::std_specs::vec::group_vec_axioms, vstd::seq::group_seq_axioms;

/// How many of a log's most recent entries the inference window holds.
pub const STATUS_WINDOW_ENTRIES: usize = 20;

/// Seconds within which a touched log file overrides an idle inference:
/// high-frequency progress writes the window may have missed.
pub const FILE_TOUCH_OVERRIDE_SECS: i64 = 8;

/// Seconds of spacing enforced between two notifications for one session.
pub const NOTIFY_COOLDOWN_SECS: i64 = 30;

/// Combined session information, one per detected session and cycle.
pub struct Session {
    pub id: String,
    pub pid: u32,
    pub session_name: String,
    pub custom_title: Option<String>,
    pub project_path: String,
    pub git_branch: Option<String>,
    pub first_prompt: String,
    pub summary: Option<String>,
    pub message_count: u32,
    pub modified: String,
    pub status: SessionStatus,
    pub latest_message: String,
    pub pending_tool_name: Option<String>,
}

/// The mathematical shape of a session.
#[verifier::ext_equal]
pub struct SessionV {
    pub id: Seq<char>,
    pub pid: u32,
    pub session_name: Seq<char>,
    pub custom_title: Option<Seq<char>>,
    pub project_path: Seq<char>,
    pub git_branch: Option<Seq<char>>,
    pub first_prompt: Seq<char>,
    pub summary: Option<Seq<char>>,
    pub message_count: u32,
    pub modified: Seq<char>,
    pub status: SessionStatus,
    pub latest_message: Seq<char>,
    pub pending_tool_name: Option<Seq<char>>,
}

/// The shape of an optional string.
pub open spec fn opt_str_view(o: Option<String>) -> Option<Seq<char>> {
    match o {
        Some(s) => Some(s@),
        None => None,
    }
}

/// The mathematical shape of a session.
pub open spec fn session_view(s: Session) -> SessionV {
    SessionV {
        id: s.id@,
        pid: s.pid,
        session_name: s.session_name@,
        custom_title: opt_str_view(s.custom_title),
        project_path: s.project_path@,
        git_branch: opt_str_view(s.git_branch),
        first_prompt: s.first_prompt@,
        summary: opt_str_view(s.summary),
        message_count: s.message_count,
        modified: s.modified@,
        status: s.status,
        latest_message: s.latest_message@,
        pending_tool_name: opt_str_view(s.pending_tool_name),
    }
}

/// The shapes of the sessions, in order.
pub open spec fn sessions_view(ss: Seq<Session>) -> Seq<SessionV> {
    Seq::new(ss.len(), |i: int| session_view(ss[i]))
}

// ── The latest message shown for a session ─────────────────────────────

/// The last displayable block's text: a text or thinking block shortened to
/// 200 characters, or the announcement of a pending tool run.
pub open spec fn latest_from_blocks(blocks: Seq<BlockV>) -> Option<Seq<char>>
    decreases blocks.len(),
{
    if blocks.len() == 0 {
        None
    } else {
        match blocks.last() {
            BlockV::Text { text } => Some(truncate_spec(text, 200)),
            BlockV::Thinking { thinking, .. } => Some(truncate_spec(thinking, 200)),
            BlockV::ToolUse { name, .. } => Some("Executing "@ + name + "..."@),
            _ => latest_from_blocks(blocks.drop_last()),
        }
    }
}

/// The latest message of the entries: scanning backward, the last genuine
/// user prompt's text, or the last displayable block of an assistant turn;
/// empty when nothing qualifies.
pub open spec fn latest_message_of(es: Seq<EntryV>) -> Seq<char>
    decreases es.len(),
{
    if es.len() == 0 {
        Seq::empty()
    } else {
        match es.last() {
            EntryV::User { message, .. } => {
                if message.is_tool_result {
                    latest_message_of(es.drop_last())
                } else {
                    truncate_spec(message.content, 200)
                }
            },
            EntryV::Assistant { message, .. } => {
                match latest_from_blocks(message.content) {
                    Some(s) => s,
                    None => latest_message_of(es.drop_last()),
                }
            },
            _ => latest_message_of(es.drop_last()),
        }
    }
}

/// The latest displayable block of one assistant turn's content.
fn latest_block_text(content: &Vec<MessageContent>) -> (r: Option<String>)
    ensures
        match r {
            Some(s) => latest_from_blocks(blocks_view(content@)) == Some(s@),
            None => latest_from_blocks(blocks_view(content@)) is None,
        },
{
    proof {
        reveal_strlit("Executing ");
        reveal_strlit("...");
    }
    let mut i: usize = content.len();
    proof {
        assert(blocks_view(content@).take(content@.len() as int) =~= blocks_view(content@));
    }
    while i > 0
        invariant
            0 <= i <= content@.len(),
            latest_from_blocks(blocks_view(content@)) == latest_from_blocks(
                blocks_view(content@).take(i as int),
            ),
        decreases i,
    {
        proof {
            reveal_strlit("Executing ");
            reveal_strlit("...");
            assert(blocks_view(content@).take(i as int).last() == blocks_view(content@)[i - 1]);
            assert(blocks_view(content@).take(i as int).drop_last() =~= blocks_view(
                content@,
            ).take(i - 1));
        }
        match &content[i - 1] {
            MessageContent::Text { text } => {
                return Some(truncate_string(text.as_str(), 200));
            },
            MessageContent::Thinking { thinking, .. } => {
                return Some(truncate_string(thinking.as_str(), 200));
            },
            MessageContent::ToolUse { name, .. } => {
                let r = "Executing ".to_owned().concat(name.as_str()).concat("...");
                return Some(r);
            },
            _ => {},
        }
        i -= 1;
    }
    proof {
        assert(blocks_view(content@).take(0) =~= Seq::<BlockV>::empty());
    }
    None
}

/// The latest message of the entries, for display.
pub fn get_latest_message_from_entries(entries: &[SessionEntry]) -> (r: String)
    ensures
        r@ == latest_message_of(entries_view(entries@)),
{
    let mut i: usize = entries.len();
    proof {
        assert(entries_view(entries@).take(entries@.len() as int) =~= entries_view(entries@));
    }
    while i > 0
        invariant
            0 <= i <= entries@.len(),
            latest_message_of(entries_view(entries@)) == latest_message_of(
                entries_view(entries@).take(i as int),
            ),
        decreases i,
    {
        proof {
            assert(entries_view(entries@).take(i as int).last() == entries_view(entries@)[i
                - 1]);
            assert(entries_view(entries@).take(i as int).drop_last() =~= entries_view(
                entries@,
            ).take(i - 1));
        }
        match &entries[i - 1] {
            SessionEntry::User { message, .. } => {
                if !message.is_tool_result {
                    return truncate_string(message.content.as_str(), 200);
                }
            },
            SessionEntry::Assistant { message, .. } => {
                match latest_block_text(&message.content) {
                    Some(s) => {
                        return s;
                    },
                    None => {},
                }
            },
            _ => {},
        }
        i -= 1;
    }
    proof {
        assert(entries_view(entries@).take(0) =~= Seq::<EntryV>::empty());
    }
    String::new()
}

// ── First prompt and message count, derived from raw lines ─────────────

/// The text of the first `text` block among the items, if any.
pub open spec fn first_text_block(items: Seq<JsonV>) -> Option<Seq<char>>
    decreases items.len(),
{
    if items.len() == 0 {
        None
    } else {
        match items[0] {
            JsonV::Object(ifs) => {
                if lookup_field(ifs, "type"@) == Some(JsonV::Text("text"@)) {
                    match lookup_field(ifs, "text"@) {
                        Some(JsonV::Text(s)) => Some(s),
                        _ => first_text_block(items.drop_first()),
                    }
                } else {
                    first_text_block(items.drop_first())
                }
            },
            _ => first_text_block(items.drop_first()),
        }
    }
}

/// The prompt one raw line carries: for a user record, its message content
/// as plain text or the first text block of its array, shortened to 100
/// characters.
pub open spec fn prompt_of_line(s: Seq<char>) -> Option<Seq<char>> {
    match json_tree(s) {
        Some(JsonV::Object(fs)) => {
            if lookup_field(fs, "type"@) == Some(JsonV::Text("user"@)) {
                match lookup_field(fs, "message"@) {
                    Some(JsonV::Object(mfs)) => match lookup_field(mfs, "content"@) {
                        Some(JsonV::Text(t)) => Some(truncate_spec(t, 100)),
                        Some(JsonV::Array(items)) => match first_text_block(items) {
                            Some(t) => Some(truncate_spec(t, 100)),
                            None => None,
                        },
                        _ => None,
                    },
                    _ => None,
                }
            } else {
                None
            }
        },
        _ => None,
    }
}

/// The first prompt among the given lines: the first line that yields one.
pub open spec fn first_prompt_of(lines: Seq<Seq<char>>) -> Option<Seq<char>>
    decreases lines.len(),
{
    if lines.len() == 0 {
        None
    } else {
        match prompt_of_line(lines[0]) {
            Some(p) => Some(p),
            None => first_prompt_of(lines.drop_first()),
        }
    }
}

/// The first user prompt found in the first 50 lines of a log.
pub fn get_first_prompt_from_lines(lines: &Vec<String>) -> (r: Option<String>)
    ensures
        match r {
            Some(p) => first_prompt_of(strs_view(lines@).take(
                if lines@.len() <= 50 {
                    lines@.len() as int
                } else {
                    50
                },
            )) == Some(p@),
            None => first_prompt_of(strs_view(lines@).take(
                if lines@.len() <= 50 {
                    lines@.len() as int
                } else {
                    50
                },
            )) is None,
        },
{
    let limit: usize = if lines.len() <= 50 {
        lines.len()
    } else {
        50
    };
    let mut i: usize = 0;
    proof {
        assert(strs_view(lines@).take(limit as int).skip(0) =~= strs_view(lines@).take(
            limit as int,
        ));
    }
    while i < limit
        invariant
            0 <= i <= limit,
            limit <= lines@.len(),
            limit == (if lines@.len() <= 50 {
                lines@.len() as int
            } else {
                50
            }),
            first_prompt_of(strs_view(lines@).take(limit as int)) == first_prompt_of(
                strs_view(lines@).take(limit as int).skip(i as int),
            ),
        decreases limit - i,
    {
        match line_prompt(lines[i].as_str()) {
            Some(p) => {
                proof {
                    let ls = strs_view(lines@).take(limit as int);
                    assert(ls.skip(i as int)[0] == strs_view(lines@)[i as int]);
                }
                return Some(p);
            },
            None => {},
        }
        i += 1;
        proof {
            let ls = strs_view(lines@).take(limit as int);
            assert(ls.skip(i - 1)[0] == strs_view(lines@)[i - 1]);
            assert(ls.skip(i - 1).drop_first() =~= ls.skip(i as int));
        }
    }
    proof {
        let ls = strs_view(lines@).take(limit as int);
        assert(ls.skip(limit as int) =~= Seq::<Seq<char>>::empty());
    }
    None
}

/// The prompt one raw line carries.
fn line_prompt(line: &str) -> (r: Option<String>)
    ensures
        match r {
            Some(p) => prompt_of_line(line@) == Some(p@),
            None => prompt_of_line(line@) is None,
        },
{
    proof {
        reveal_strlit("type");
        reveal_strlit("user");
        reveal_strlit("message");
        reveal_strlit("content");
        reveal_strlit("text");
    }
    match crate::json::parse_json_text(line) {
        Some(v) => match &v {
            crate::json::JsonValue::Object(fs) => {
                proof {
                    crate::json::lemma_jv_fields_view(fs@);
                }
                let is_user = match crate::json::obj_get(fs, "type") {
                    Some(tv) => match tv {
                        crate::json::JsonValue::Text(t) => crate::text::str_eq(
                            t.as_str(),
                            "user",
                        ),
                        _ => false,
                    },
                    None => false,
                };
                if !is_user {
                    return None;
                }
                match crate::json::obj_get(fs, "message") {
                    Some(mv) => match mv {
                        crate::json::JsonValue::Object(mfs) => {
                            proof {
                                crate::json::lemma_jv_fields_view(mfs@);
                            }
                            match crate::json::obj_get(mfs, "content") {
                                Some(cv) => match cv {
                                    crate::json::JsonValue::Text(t) => Some(
                                        truncate_string(t.as_str(), 100),
                                    ),
                                    crate::json::JsonValue::Array(items) => {
                                        let mut k: usize = 0;
                                        proof {
                                            assert(crate::json::jv_seq_view(items@).skip(0)
                                                =~= crate::json::jv_seq_view(items@));
                                        }
                                        while k < items.len()
                                            invariant
                                                0 <= k <= items@.len(),
                                                json_tree(line@) == Some(
                                                    JsonV::Object(
                                                        crate::json::jv_fields_view(fs@),
                                                    ),
                                                ),
                                                lookup_field(
                                                    crate::json::jv_fields_view(fs@),
                                                    "type"@,
                                                ) == Some(JsonV::Text("user"@)),
                                                lookup_field(
                                                    crate::json::jv_fields_view(fs@),
                                                    "message"@,
                                                ) == Some(
                                                    JsonV::Object(
                                                        crate::json::jv_fields_view(mfs@),
                                                    ),
                                                ),
                                                lookup_field(
                                                    crate::json::jv_fields_view(mfs@),
                                                    "content"@,
                                                ) == Some(
                                                    JsonV::Array(crate::json::jv_seq_view(items@)),
                                                ),
                                                first_text_block(
                                                    crate::json::jv_seq_view(items@),
                                                ) == first_text_block(
                                                    crate::json::jv_seq_view(items@).skip(
                                                        k as int,
                                                    ),
                                                ),
                                            decreases items@.len() - k,
                                        {
                                            proof {
                                                reveal_strlit("type");
                                                reveal_strlit("text");
                                                crate::json::lemma_jv_seq_view(items@);
                                                let js = crate::json::jv_seq_view(items@);
                                                assert(js.skip(k as int)[0] == js[k as int]);
                                                assert(js.skip(k as int).drop_first() =~= js.skip(
                                                    k + 1,
                                                ));
                                            }
                                            match &items[k] {
                                                crate::json::JsonValue::Object(ifs) => {
                                                    proof {
                                                        crate::json::lemma_jv_fields_view(ifs@);
                                                    }
                                                    let is_text = match crate::json::obj_get(
                                                        ifs,
                                                        "type",
                                                    ) {
                                                        Some(tv2) => match tv2 {
                                                            crate::json::JsonValue::Text(t2) => {
                                                                crate::text::str_eq(
                                                                    t2.as_str(),
                                                                    "text",
                                                                )
                                                            },
                                                            _ => false,
                                                        },
                                                        None => false,
                                                    };
                                                    if is_text {
                                                        match crate::json::obj_get(ifs, "text") {
                                                            Some(tv3) => match tv3 {
                                                                crate::json::JsonValue::Text(
                                                                    t3,
                                                                ) => {
                                                                    return Some(
                                                                        truncate_string(
                                                                            t3.as_str(),
                                                                            100,
                                                                        ),
                                                                    );
                                                                },
                                                                _ => {},
                                                            },
                                                            None => {},
                                                        }
                                                    }
                                                },
                                                _ => {},
                                            }
                                            k += 1;
                                        }
                                        proof {
                                            crate::json::lemma_jv_seq_view(items@);
                                            let js = crate::json::jv_seq_view(items@);
                                            assert(js.len() == items@.len());
                                            assert(js.skip(js.len() as int) =~= Seq::<
                                                JsonV,
                                            >::empty());
                                            assert(first_text_block(js) is None);
                                        }
                                        None
                                    },
                                    _ => None,
                                },
                                None => None,
                            }
                        },
                        _ => None,
                    },
                    None => None,
                }
            },
            _ => None,
        },
        None => None,
    }
}

/// Whether one raw line is a user or assistant record.
pub open spec fn is_message_line(s: Seq<char>) -> bool {
    match json_tree(s) {
        Some(JsonV::Object(fs)) => {
            ||| lookup_field(fs, "type"@) == Some(JsonV::Text("user"@))
            ||| lookup_field(fs, "type"@) == Some(JsonV::Text("assistant"@))
        },
        _ => false,
    }
}

/// How many of the lines are user or assistant records.
pub open spec fn message_count_of(lines: Seq<Seq<char>>) -> int
    decreases lines.len(),
{
    if lines.len() == 0 {
        0
    } else {
        (if is_message_line(lines[0]) {
            1int
        } else {
            0int
        }) + message_count_of(lines.drop_first())
    }
}

proof fn lemma_message_count_bounds(lines: Seq<Seq<char>>)
    ensures
        0 <= message_count_of(lines) <= lines.len(),
    decreases lines.len(),
{
    if lines.len() > 0 {
        lemma_message_count_bounds(lines.drop_first());
    }
}

proof fn lemma_message_count_concat(s1: Seq<Seq<char>>, s2: Seq<Seq<char>>)
    ensures
        message_count_of(s1 + s2) == message_count_of(s1) + message_count_of(s2),
    decreases s1.len(),
{
    if s1.len() == 0 {
        assert(s1 + s2 =~= s2);
    } else {
        lemma_message_count_concat(s1.drop_first(), s2);
        assert((s1 + s2).drop_first() =~= s1.drop_first() + s2);
    }
}

/// How many user and assistant records the lines hold, capped at what a
/// 32-bit count can carry.
pub fn count_messages_in_lines(lines: &Vec<String>) -> (r: u32)
    ensures
        r as int == (if message_count_of(strs_view(lines@)) <= u32::MAX as int {
            message_count_of(strs_view(lines@))
        } else {
            u32::MAX as int
        }),
{
    proof {
        reveal_strlit("type");
        reveal_strlit("user");
        reveal_strlit("assistant");
    }
    let mut count: u32 = 0;
    let mut i: usize = 0;
    while i < lines.len()
        invariant
            0 <= i <= lines@.len(),
            count as int == (if message_count_of(strs_view(lines@).take(i as int)) <= u32::MAX
                as int {
                message_count_of(strs_view(lines@).take(i as int))
            } else {
                u32::MAX as int
            }),
        decreases lines@.len() - i,
    {
        proof {
            reveal_strlit("type");
            reveal_strlit("user");
            reveal_strlit("assistant");
        }
        let is_msg: bool = match crate::json::parse_json_text(lines[i].as_str()) {
            Some(v) => match &v {
                crate::json::JsonValue::Object(fs) => {
                    proof {
                        crate::json::lemma_jv_fields_view(fs@);
                    }
                    match crate::json::obj_get(fs, "type") {
                        Some(tv) => match tv {
                            crate::json::JsonValue::Text(t) => {
                                crate::text::str_eq(t.as_str(), "user") || crate::text::str_eq(
                                    t.as_str(),
                                    "assistant",
                                )
                            },
                            _ => false,
                        },
                        None => false,
                    }
                },
                _ => false,
            },
            None => false,
        };
        proof {
            assert(is_msg == is_message_line(strs_view(lines@)[i as int]));
        }
        if is_msg && count < u32::MAX {
            count = count + 1;
        }
        i += 1;
        proof {
            let ls = strs_view(lines@);
            assert(ls.take(i as int) =~= ls.take(i - 1) + seq![ls[i - 1]]);
            lemma_message_count_concat(ls.take(i - 1), seq![ls[i - 1]]);
            assert(seq![ls[i - 1]].drop_first() =~= Seq::<Seq<char>>::empty());
            assert(message_count_of(Seq::<Seq<char>>::empty()) == 0);
            assert(seq![ls[i - 1]][0] == ls[i - 1]);
            lemma_message_count_bounds(ls.take(i - 1));
        }
    }
    proof {
        assert(strs_view(lines@).take(lines@.len() as int) =~= strs_view(lines@));
    }
    count
}

// ── Notification text ──────────────────────────────────────────────────

/// The notification body a status transition shows: the demand for
/// permission names the waiting tool; finishing work is announced; no other
/// status notifies.
pub open spec fn notification_body_spec(
    status: SessionStatus,
    session_name: Seq<char>,
    pending_tool_name: Option<Seq<char>>,
) -> Option<Seq<char>> {
    match status {
        SessionStatus::NeedsPermission => {
            let tool = match pending_tool_name {
                Some(t) => t,
                None => "unknown tool"@,
            };
            Some("🔐 "@ + session_name + ": Needs permission for "@ + tool)
        },
        SessionStatus::WaitingForInput => Some("✅ "@ + session_name + ": Finished working"@),
        _ => None,
    }
}

/// The notification body for a status transition, or nothing where the
/// status never notifies.
pub fn notification_body(
    status: &SessionStatus,
    session_name: &str,
    pending_tool_name: Option<&String>,
) -> (r: Option<String>)
    ensures
        match r {
            Some(b) => notification_body_spec(
                *status,
                session_name@,
                match pending_tool_name {
                    Some(t) => Some(t@),
                    None => None,
                },
            ) == Some(b@),
            None => notification_body_spec(
                *status,
                session_name@,
                match pending_tool_name {
                    Some(t) => Some(t@),
                    None => None,
                },
            ) is None,
        },
{
    proof {
        reveal_strlit("🔐 ");
        reveal_strlit(": Needs permission for ");
        reveal_strlit("✅ ");
        reveal_strlit(": Finished working");
        reveal_strlit("unknown tool");
    }
    match status {
        SessionStatus::NeedsPermission => {
            let tool: String = match pending_tool_name {
                Some(t) => t.clone(),
                None => "unknown tool".to_owned(),
            };
            Some(
                "🔐 ".to_owned().concat(session_name).concat(": Needs permission for ").concat(
                    tool.as_str(),
                ),
            )
        },
        SessionStatus::WaitingForInput => {
            Some("✅ ".to_owned().concat(session_name).concat(": Finished working"))
        },
        _ => None,
    }
}

// ── The poll cycle's inputs, as plain values ───────────────────────────

/// One candidate log file with its content, as read for one cycle.
pub struct LogFileData {
    /// The file's name inside its project directory.
    pub file_name: String,
    /// Seconds since the epoch at which the file was last modified.
    pub modified_secs: u64,
    /// The modification time as an RFC 3339 text, for display.
    pub modified_rfc3339: String,
    /// The file's lines.
    pub lines: Vec<String>,
}

/// One project directory with its cached index and log files.
pub struct ProjectData {
    /// The directory's full path.
    pub dir_path: String,
    /// The directory's own name.
    pub dir_name: String,
    /// The text of the cached index file, when one exists.
    pub index_content: Option<String>,
    /// The candidate log files inside.
    pub log_files: Vec<LogFileData>,
}

/// The mathematical shape of a log file.
#[verifier::ext_equal]
pub struct LogFileDataV {
    pub file_name: Seq<char>,
    pub modified_secs: u64,
    pub modified_rfc3339: Seq<char>,
    pub lines: Seq<Seq<char>>,
}

/// The mathematical shape of a project directory.
#[verifier::ext_equal]
pub struct ProjectV {
    pub dir_path: Seq<char>,
    pub dir_name: Seq<char>,
    pub index_content: Option<Seq<char>>,
    pub log_files: Seq<LogFileDataV>,
}

/// The mathematical shape of a log file.
pub open spec fn log_file_view(f: LogFileData) -> LogFileDataV {
    LogFileDataV {
        file_name: f.file_name@,
        modified_secs: f.modified_secs,
        modified_rfc3339: f.modified_rfc3339@,
        lines: strs_view(f.lines@),
    }
}

/// The shapes of the log files, in order.
pub open spec fn log_files_view(fs: Seq<LogFileData>) -> Seq<LogFileDataV> {
    Seq::new(fs.len(), |i: int| log_file_view(fs[i]))
}

/// The mathematical shape of a project directory.
pub open spec fn project_view(p: ProjectData) -> ProjectV {
    ProjectV {
        dir_path: p.dir_path@,
        dir_name: p.dir_name@,
        index_content: opt_str_view(p.index_content),
        log_files: log_files_view(p.log_files@),
    }
}

/// The shapes of the project directories, in order.
pub open spec fn projects_view(ps: Seq<ProjectData>) -> Seq<ProjectV> {
    Seq::new(ps.len(), |i: int| project_view(ps[i]))
}

/// The text after the last dash of a directory name: the rough display
/// name used when no authoritative path exists.
pub open spec fn dash_suffix(p: Seq<char>) -> Seq<char>
    decreases p.len(),
{
    if p.len() == 0 {
        p
    } else if p.last() == '-' {
        Seq::empty()
    } else {
        dash_suffix(p.drop_last()).push(p.last())
    }
}

/// The text after the last dash of a directory name.
pub fn dash_suffix_of(p: &str) -> (r: String)
    ensures
        r@ == dash_suffix(p@),
{
    let cs = crate::text::chars_of(p);
    let n = cs.len();
    let mut cut: usize = n;
    while cut > 0 && cs[cut - 1] != '-'
        invariant
            0 <= cut <= n,
            n == cs@.len(),
            cs@ == p@,
            forall|j: int| cut <= j < n ==> cs@[j] != '-',
        decreases cut,
    {
        cut -= 1;
    }
    let mut out: Vec<char> = Vec::new();
    let mut i: usize = cut;
    while i < n
        invariant
            cut <= i <= n,
            n == cs@.len(),
            cs@ == p@,
            out@ == p@.subrange(cut as int, i as int),
        decreases n - i,
    {
        out.push(cs[i]);
        i += 1;
        proof {
            assert(out@ =~= p@.subrange(cut as int, i as int));
        }
    }
    proof {
        lemma_dash_suffix_range(p@, cut as int);
        assert(out@ =~= p@.subrange(cut as int, n as int));
    }
    crate::text::string_of_chars(&out)
}

proof fn lemma_dash_suffix_range(p: Seq<char>, cut: int)
    requires
        0 <= cut <= p.len(),
        forall|j: int| cut <= j < p.len() ==> p[j] != '-',
        cut == 0 || p[cut - 1] == '-',
    ensures
        dash_suffix(p) =~= p.subrange(cut, p.len() as int),
    decreases p.len() - cut,
{
    if cut == p.len() {
        if p.len() > 0 {
            assert(p.last() == '-');
        }
    } else {
        lemma_dash_suffix_range(p.drop_last(), cut);
        assert(p.drop_last().subrange(cut, p.len() - 1) =~= p.subrange(cut, p.len() - 1));
        assert(dash_suffix(p) =~= p.subrange(cut, p.len() as int));
    }
}

/// The lenient index entries of a project, when its index text parses.
pub open spec fn project_entries(p: ProjectV) -> Option<Seq<(Seq<char>, Option<Seq<char>>)>> {
    match p.index_content {
        Some(t) => crate::index::lenient_index_of(t),
        None => None,
    }
}

/// What one log file of a project contributes to the correlator's
/// candidates: nothing for a non-log file; else a record carrying the
/// index's authoritative path when one exists, and otherwise the project
/// directory with its name's last segment for display.
pub open spec fn file_record_of(p: ProjectV, f: LogFileDataV) -> Option<FileV> {
    match crate::correlate::session_id_of_file_name(f.file_name) {
        None => None,
        Some(sid) => {
            let info = match project_entries(p) {
                Some(es) => crate::correlate::project_info_of(es, sid),
                None => None,
            };
            Some(
                match info {
                    Some(pi) => FileV {
                        session_id: sid,
                        modified_secs: f.modified_secs,
                        project_dir: p.dir_path,
                        dir_name: p.dir_name,
                        project_path: pi.0,
                        project_name: pi.1,
                        has_reliable_path: true,
                    },
                    None => FileV {
                        session_id: sid,
                        modified_secs: f.modified_secs,
                        project_dir: p.dir_path,
                        dir_name: p.dir_name,
                        project_path: p.dir_path,
                        project_name: dash_suffix(p.dir_name),
                        has_reliable_path: false,
                    },
                },
            )
        },
    }
}

/// The candidate records of one project, in file order.
pub open spec fn project_records(p: ProjectV, files: Seq<LogFileDataV>) -> Seq<FileV>
    decreases files.len(),
{
    if files.len() == 0 {
        Seq::empty()
    } else {
        let rest = project_records(p, files.drop_first());
        match file_record_of(p, files[0]) {
            Some(r) => seq![r] + rest,
            None => rest,
        }
    }
}

/// The candidate records of all projects, in order.
pub open spec fn all_records(projects: Seq<ProjectV>) -> Seq<FileV>
    decreases projects.len(),
{
    if projects.len() == 0 {
        Seq::empty()
    } else {
        project_records(projects[0], projects[0].log_files) + all_records(projects.drop_first())
    }
}

proof fn lemma_project_records_concat(p: ProjectV, s1: Seq<LogFileDataV>, s2: Seq<LogFileDataV>)
    ensures
        project_records(p, s1 + s2) == project_records(p, s1) + project_records(p, s2),
    decreases s1.len(),
{
    if s1.len() == 0 {
        assert(s1 + s2 =~= s2);
        assert(project_records(p, s1) + project_records(p, s2) =~= project_records(p, s2));
    } else {
        lemma_project_records_concat(p, s1.drop_first(), s2);
        assert((s1 + s2).drop_first() =~= s1.drop_first() + s2);
        assert(project_records(p, s1 + s2) =~= project_records(p, s1) + project_records(p, s2));
    }
}

proof fn lemma_all_records_concat(s1: Seq<ProjectV>, s2: Seq<ProjectV>)
    ensures
        all_records(s1 + s2) == all_records(s1) + all_records(s2),
    decreases s1.len(),
{
    if s1.len() == 0 {
        assert(s1 + s2 =~= s2);
        assert(all_records(s1) + all_records(s2) =~= all_records(s2));
    } else {
        lemma_all_records_concat(s1.drop_first(), s2);
        assert((s1 + s2).drop_first() =~= s1.drop_first() + s2);
        assert(all_records(s1 + s2) =~= all_records(s1) + all_records(s2));
    }
}

/// The correlator's candidate records of all given projects.
pub fn build_log_records(projects: &Vec<ProjectData>) -> (r: Vec<LogFileRecord>)
    ensures
        files_view(r@) == all_records(projects_view(projects@)),
{
    let mut out: Vec<LogFileRecord> = Vec::new();
    let mut i: usize = 0;
    while i < projects.len()
        invariant
            0 <= i <= projects@.len(),
            files_view(out@) == all_records(projects_view(projects@).take(i as int)),
        decreases projects@.len() - i,
    {
        let p = &projects[i];
        proof {
            assert(projects_view(projects@)[i as int] == project_view(projects@[i as int]));
        }
        let entries: Option<Vec<crate::correlate::IndexProjectEntry>> = match &p.index_content {
            Some(t) => crate::index::parse_index_project_entries(t.as_str()),
            None => None,
        };
        let ghost pv = project_view(projects@[i as int]);
        proof {
            match &entries {
                Some(es) => {
                    assert(project_entries(pv) == Some(crate::correlate::ipes_view(es@)));
                },
                None => {
                    assert(project_entries(pv) is None);
                },
            }
        }
        let mut k: usize = 0;
        let ghost out_base = files_view(out@);
        while k < p.log_files.len()
            invariant
                0 <= k <= p.log_files@.len(),
                pv == project_view(projects@[i as int]),
                i < projects@.len(),
                pv.log_files == log_files_view(p.log_files@),
                pv.dir_path == p.dir_path@,
                pv.dir_name == p.dir_name@,
                match entries {
                    Some(es) => project_entries(pv) == Some(crate::correlate::ipes_view(es@)),
                    None => project_entries(pv) is None,
                },
                files_view(out@) == out_base + project_records(pv, pv.log_files.take(k as int)),
            decreases p.log_files@.len() - k,
        {
            let f = &p.log_files[k];
            proof {
                assert(pv.log_files[k as int] == log_file_view(p.log_files@[k as int]));
            }
            match crate::correlate::session_log_name(f.file_name.as_str()) {
                Some(sid) => {
                    let info: Option<(String, String)> = match &entries {
                        Some(es) => crate::correlate::get_project_info(es, sid.as_str()),
                        None => None,
                    };
                    let rec = match info {
                        Some(pi) => LogFileRecord {
                            session_id: sid,
                            modified_secs: f.modified_secs,
                            project_dir: p.dir_path.clone(),
                            dir_name: p.dir_name.clone(),
                            project_path: pi.0,
                            project_name: pi.1,
                            has_reliable_path: true,
                        },
                        None => LogFileRecord {
                            session_id: sid,
                            modified_secs: f.modified_secs,
                            project_dir: p.dir_path.clone(),
                            dir_name: p.dir_name.clone(),
                            project_path: p.dir_path.clone(),
                            project_name: dash_suffix_of(p.dir_name.as_str()),
                            has_reliable_path: false,
                        },
                    };
                    let ghost out_pre2 = out@;
                    out.push(rec);
                    proof {
                        assert(out@.drop_last() =~= out_pre2);
                    }
                },
                None => {},
            }
            k += 1;
            proof {
                let lf = pv.log_files;
                assert(lf.take(k as int) =~= lf.take(k - 1) + seq![lf[k - 1]]);
                lemma_project_records_concat(pv, lf.take(k - 1), seq![lf[k - 1]]);
                assert(seq![lf[k - 1]].drop_first() =~= Seq::<LogFileDataV>::empty());
                assert(project_records(pv, Seq::<LogFileDataV>::empty()) =~= Seq::<
                    FileV,
                >::empty());
                assert(seq![lf[k - 1]][0] == lf[k - 1]);
                if file_record_of(pv, lf[k - 1]) is Some {
                    assert(project_records(pv, seq![lf[k - 1]]) =~= seq![
                        file_record_of(pv, lf[k - 1])->0,
                    ]);
                    assert(file_view(out@.last()) == file_record_of(pv, lf[k - 1])->0);
                    assert(files_view(out@) =~= files_view(out@.drop_last()) + seq![
                        file_view(out@.last()),
                    ]);
                } else {
                    assert(project_records(pv, seq![lf[k - 1]]) =~= Seq::<FileV>::empty());
                }
                assert(files_view(out@) =~~= out_base + project_records(
                    pv,
                    lf.take(k as int),
                ));
            }
        }
        i += 1;
        proof {
            assert(pv.log_files.take(pv.log_files.len() as int) =~= pv.log_files);
            let pj = projects_view(projects@);
            assert(pj.take(i as int) =~= pj.take(i - 1) + seq![pj[i - 1]]);
            lemma_all_records_concat(pj.take(i - 1), seq![pj[i - 1]]);
            assert(seq![pj[i - 1]].drop_first() =~= Seq::<ProjectV>::empty());
            assert(all_records(Seq::<ProjectV>::empty()) =~= Seq::<FileV>::empty());
            assert(seq![pj[i - 1]][0] == pj[i - 1]);
            assert(all_records(seq![pj[i - 1]]) =~= project_records(pj[i - 1], pj[i - 1].log_files)
                + Seq::<FileV>::empty());
            assert(files_view(out@) =~~= all_records(pj.take(i as int)));
        }
    }
    proof {
        let pj = projects_view(projects@);
        assert(pj.take(pj.len() as int) =~= pj);
    }
    out
}

// ── Enrichment: one detected session to one session row ────────────────

/// The first index of a project with the given directory path.
pub open spec fn find_project_from(projects: Seq<ProjectV>, dir_path: Seq<char>, j: int) -> Option<
    int,
>
    decreases projects.len() - j,
{
    if j < 0 || j >= projects.len() {
        None
    } else if projects[j].dir_path == dir_path {
        Some(j)
    } else {
        find_project_from(projects, dir_path, j + 1)
    }
}

/// The first log file of the project whose name carries the session id.
pub open spec fn find_file_in(files: Seq<LogFileDataV>, sid: Seq<char>, j: int) -> Option<int>
    decreases files.len() - j,
{
    if j < 0 || j >= files.len() {
        None
    } else if crate::correlate::session_id_of_file_name(files[j].file_name) == Some(sid) {
        Some(j)
    } else {
        find_file_in(files, sid, j + 1)
    }
}

/// The log file data a detected session reads from: the first file with its
/// id in the first project with its directory.
pub open spec fn find_file_data(
    projects: Seq<ProjectV>,
    dir_path: Seq<char>,
    sid: Seq<char>,
) -> Option<LogFileDataV> {
    match find_project_from(projects, dir_path, 0) {
        Some(pi) => match find_file_in(projects[pi].log_files, sid, 0) {
            Some(fi) => Some(projects[pi].log_files[fi]),
            None => None,
        },
        None => None,
    }
}

/// The first strict index entry with the given session id.
pub open spec fn find_index_entry_from(
    es: Seq<crate::index::IndexEntryV>,
    sid: Seq<char>,
    j: int,
) -> Option<crate::index::IndexEntryV>
    decreases es.len() - j,
{
    if j < 0 || j >= es.len() {
        None
    } else if es[j].session_id == sid {
        Some(es[j])
    } else {
        find_index_entry_from(es, sid, j + 1)
    }
}

/// The strict index entry a detected session's metadata comes from, when
/// its project's index parses and holds the session.
pub open spec fn index_meta_of(
    projects: Seq<ProjectV>,
    dir_path: Seq<char>,
    sid: Seq<char>,
) -> Option<crate::index::IndexEntryV> {
    match find_project_from(projects, dir_path, 0) {
        Some(pi) => match projects[pi].index_content {
            Some(t) => match crate::index::index_of(t) {
                Some(ie) => find_index_entry_from(ie.1, sid, 0),
                None => None,
            },
            None => None,
        },
        None => None,
    }
}

/// The first value bound to the key in an association list.
pub open spec fn assoc_from(
    pairs: Seq<(Seq<char>, Seq<char>)>,
    key: Seq<char>,
    j: int,
) -> Option<Seq<char>>
    decreases pairs.len() - j,
{
    if j < 0 || j >= pairs.len() {
        None
    } else if pairs[j].0 == key {
        Some(pairs[j].1)
    } else {
        assoc_from(pairs, key, j + 1)
    }
}

/// The shapes of string pairs, in order.
pub open spec fn pairs_view(ps: Seq<(String, String)>) -> Seq<(Seq<char>, Seq<char>)> {
    Seq::new(ps.len(), |i: int| (ps[i].0@, ps[i].1@))
}

/// The value bound to the key.
fn assoc_get(pairs: &Vec<(String, String)>, key: &str) -> (r: Option<String>)
    ensures
        match r {
            Some(v) => assoc_from(pairs_view(pairs@), key@, 0) == Some(v@),
            None => assoc_from(pairs_view(pairs@), key@, 0) is None,
        },
{
    let mut i: usize = 0;
    while i < pairs.len()
        invariant
            0 <= i <= pairs@.len(),
            assoc_from(pairs_view(pairs@), key@, 0) == assoc_from(
                pairs_view(pairs@),
                key@,
                i as int,
            ),
        decreases pairs@.len() - i,
    {
        proof {
            assert(pairs_view(pairs@)[i as int] == (pairs@[i as int].0@, pairs@[i as int].1@));
        }
        if crate::text::str_eq(pairs[i].0.as_str(), key) {
            return Some(pairs[i].1.clone());
        }
        i += 1;
    }
    None
}

/// The session status after the file-touch override: an idle inference is
/// forced back to working when the log file itself was touched within the
/// last few seconds.
pub open spec fn override_status(s: SessionStatus, mtime: u64, now: int) -> SessionStatus {
    if s == SessionStatus::WaitingForInput && now >= mtime && now - mtime
        < FILE_TOUCH_OVERRIDE_SECS as int {
        SessionStatus::Working
    } else {
        s
    }
}

/// The window of a log's lines the inference engine reads.
pub open spec fn window_of(lines: Seq<Seq<char>>) -> Seq<EntryV> {
    tail_of(lines_entries(lines), STATUS_WINDOW_ENTRIES as int)
}

/// What one detected session enriches to, or nothing when it carries no id
/// or its log holds no messages at all — a session the user abandoned at
/// once.
pub open spec fn enrich_one(
    d: DetectedV,
    projects: Seq<ProjectV>,
    ps: Seq<PatternV>,
    names: Seq<(Seq<char>, Seq<char>)>,
    titles: Seq<(Seq<char>, Seq<char>)>,
    now: int,
) -> Option<SessionV> {
    match d.session_id {
        None => None,
        Some(sid) => {
            let fdata = find_file_data(projects, d.project_path, sid);
            let lines = match fdata {
                Some(f) => f.lines,
                None => Seq::empty(),
            };
            let mtime: u64 = match fdata {
                Some(f) => f.modified_secs,
                None => 0,
            };
            let mstr: Seq<char> = match fdata {
                Some(f) => f.modified_rfc3339,
                None => Seq::empty(),
            };
            let meta = index_meta_of(projects, d.project_path, sid);
            let first_prompt = match meta {
                Some(e) => e.first_prompt,
                None => match first_prompt_of(lines.take(
                    if lines.len() <= 50 {
                        lines.len() as int
                    } else {
                        50
                    },
                )) {
                    Some(p) => p,
                    None => "(Active session)"@,
                },
            };
            let summary = match meta {
                Some(e) => e.summary,
                None => None,
            };
            let message_count: int = match meta {
                Some(e) => e.message_count as int,
                None => if message_count_of(lines) <= u32::MAX as int {
                    message_count_of(lines)
                } else {
                    u32::MAX as int
                },
            };
            let modified = match meta {
                Some(e) => e.modified,
                None => mstr,
            };
            let git_branch = match meta {
                Some(e) => Some(e.git_branch),
                None => None,
            };
            let entries = window_of(lines);
            let status = override_status(infer_spec(ps, entries, now), mtime, now);
            if message_count == 0 {
                None
            } else {
                Some(
                    SessionV {
                        id: sid,
                        pid: d.pid,
                        session_name: match assoc_from(names, sid, 0) {
                            Some(n) => n,
                            None => d.project_name,
                        },
                        custom_title: assoc_from(titles, sid, 0),
                        project_path: d.cwd,
                        git_branch,
                        first_prompt,
                        summary,
                        message_count: message_count as u32,
                        modified,
                        status,
                        latest_message: latest_message_of(entries),
                        pending_tool_name: pending_tool_name_spec(ps, entries),
                    },
                )
            }
        },
    }
}

/// The enriched sessions of the detected list, in order, each id taken
/// once.
pub open spec fn enrich_all(
    dets: Seq<DetectedV>,
    projects: Seq<ProjectV>,
    ps: Seq<PatternV>,
    names: Seq<(Seq<char>, Seq<char>)>,
    titles: Seq<(Seq<char>, Seq<char>)>,
    now: int,
    seen: Seq<Seq<char>>,
) -> Seq<SessionV>
    decreases dets.len(),
{
    if dets.len() == 0 {
        Seq::empty()
    } else {
        let d = dets[0];
        match d.session_id {
            None => enrich_all(dets.drop_first(), projects, ps, names, titles, now, seen),
            Some(sid) => {
                if crate::correlate::id_claimed(seen, sid) {
                    enrich_all(dets.drop_first(), projects, ps, names, titles, now, seen)
                } else {
                    let rest = enrich_all(
                        dets.drop_first(),
                        projects,
                        ps,
                        names,
                        titles,
                        now,
                        seen.push(sid),
                    );
                    match enrich_one(d, projects, ps, names, titles, now) {
                        Some(s) => seq![s] + rest,
                        None => rest,
                    }
                }
            },
        }
    }
}

/// The sessions one poll cycle detects and enriches: the correlator's
/// bindings over the given processes and project directories, each bound
/// session read, classified and described, empty logs dropped.
pub open spec fn detect_enrich_spec(
    procs: Seq<crate::correlate::ProcV>,
    projects: Seq<ProjectV>,
    ps: Seq<PatternV>,
    names: Seq<(Seq<char>, Seq<char>)>,
    titles: Seq<(Seq<char>, Seq<char>)>,
    now: int,
) -> Seq<SessionV> {
    enrich_all(
        correlate_spec(procs, all_records(projects)),
        projects,
        ps,
        names,
        titles,
        now,
        Seq::empty(),
    )
}

/// The project index a detected session's metadata and lines come from.
fn find_project(projects: &Vec<ProjectData>, dir_path: &str) -> (r: Option<usize>)
    ensures
        match r {
            Some(pi) => pi < projects@.len() && find_project_from(
                projects_view(projects@),
                dir_path@,
                0,
            ) == Some(pi as int),
            None => find_project_from(projects_view(projects@), dir_path@, 0) is None,
        },
{
    let mut i: usize = 0;
    while i < projects.len()
        invariant
            0 <= i <= projects@.len(),
            find_project_from(projects_view(projects@), dir_path@, 0) == find_project_from(
                projects_view(projects@),
                dir_path@,
                i as int,
            ),
        decreases projects@.len() - i,
    {
        proof {
            assert(projects_view(projects@)[i as int] == project_view(projects@[i as int]));
        }
        if crate::text::str_eq(projects[i].dir_path.as_str(), dir_path) {
            return Some(i);
        }
        i += 1;
    }
    None
}

/// The first log file of the project whose name carries the session id.
fn find_file(files: &Vec<LogFileData>, sid: &str) -> (r: Option<usize>)
    ensures
        match r {
            Some(fi) => fi < files@.len() && find_file_in(log_files_view(files@), sid@, 0)
                == Some(fi as int),
            None => find_file_in(log_files_view(files@), sid@, 0) is None,
        },
{
    let mut i: usize = 0;
    while i < files.len()
        invariant
            0 <= i <= files@.len(),
            find_file_in(log_files_view(files@), sid@, 0) == find_file_in(
                log_files_view(files@),
                sid@,
                i as int,
            ),
        decreases files@.len() - i,
    {
        proof {
            assert(log_files_view(files@)[i as int] == log_file_view(files@[i as int]));
        }
        let matched: bool = match crate::correlate::session_log_name(
            files[i].file_name.as_str(),
        ) {
            Some(s) => crate::text::str_eq(s.as_str(), sid),
            None => false,
        };
        if matched {
            return Some(i);
        }
        i += 1;
    }
    None
}

/// The strict index entry with the session id, out of the project's index
/// text.
fn find_index_meta(projects: &Vec<ProjectData>, pi: usize, dir_path: &str, sid: &str) -> (r:
    Option<crate::index::SessionIndexEntry>)
    requires
        pi < projects@.len(),
        find_project_from(projects_view(projects@), dir_path@, 0) == Some(pi as int),
    ensures
        match r {
            Some(e) => index_meta_of(projects_view(projects@), dir_path@, sid@) == Some(
                crate::index::index_entry_view(e),
            ),
            None => index_meta_of(projects_view(projects@), dir_path@, sid@) is None,
        },
{
    proof {
        assert(projects_view(projects@)[pi as int] == project_view(projects@[pi as int]));
    }
    match &projects[pi].index_content {
        Some(t) => match crate::index::parse_sessions_index(t.as_str()) {
            Ok(idx) => {
                let es = &idx.entries;
                let mut i: usize = 0;
                while i < es.len()
                    invariant
                        0 <= i <= es@.len(),
                        pi < projects@.len(),
                        find_project_from(projects_view(projects@), dir_path@, 0) == Some(
                            pi as int,
                        ),
                        projects_view(projects@)[pi as int].index_content matches Some(tc) && (
                        crate::index::index_of(tc) matches Some(ie) && ie.1
                            == crate::index::index_entries_view(es@)),
                        find_index_entry_from(
                            crate::index::index_entries_view(es@),
                            sid@,
                            0,
                        ) == find_index_entry_from(
                            crate::index::index_entries_view(es@),
                            sid@,
                            i as int,
                        ),
                    decreases es@.len() - i,
                {
                    proof {
                        assert(crate::index::index_entries_view(es@)[i as int]
                            == crate::index::index_entry_view(es@[i as int]));
                    }
                    if crate::text::str_eq(es[i].session_id.as_str(), sid) {
                        let e = &es[i];
                        let out = crate::index::SessionIndexEntry {
                            session_id: e.session_id.clone(),
                            full_path: e.full_path.clone(),
                            file_mtime: e.file_mtime,
                            first_prompt: e.first_prompt.clone(),
                            summary: match &e.summary {
                                Some(x) => Some(x.clone()),
                                None => None,
                            },
                            message_count: e.message_count,
                            created: e.created.clone(),
                            modified: e.modified.clone(),
                            git_branch: e.git_branch.clone(),
                            project_path: e.project_path.clone(),
                            is_sidechain: e.is_sidechain,
                        };
                        proof {
                            assert(crate::index::index_entry_view(out)
                                == crate::index::index_entry_view(es@[i as int]));
                        }
                        return Some(out);
                    }
                    i += 1;
                }
                None
            },
            Err(_) => None,
        },
        None => None,
    }
}

/// One detected session enriched into a session row, or nothing when it
/// carries no id or its log holds no messages.
fn enrich_session(
    d: &DetectedSession,
    projects: &Vec<ProjectData>,
    checker: &PermissionChecker,
    custom_names: &Vec<(String, String)>,
    custom_titles: &Vec<(String, String)>,
    now_s: i64,
) -> (r: Option<Session>)
    ensures
        match r {
            Some(s) => enrich_one(
                detected_view(*d),
                projects_view(projects@),
                patterns_view(checker.allowed_patterns@),
                pairs_view(custom_names@),
                pairs_view(custom_titles@),
                now_s as int,
            ) == Some(session_view(s)),
            None => enrich_one(
                detected_view(*d),
                projects_view(projects@),
                patterns_view(checker.allowed_patterns@),
                pairs_view(custom_names@),
                pairs_view(custom_titles@),
                now_s as int,
            ) is None,
        },
{
    proof {
        reveal_strlit("(Active session)");
    }
    let sid: String = match &d.session_id {
        Some(s) => s.clone(),
        None => {
            return None;
        },
    };
    let empty_lines: Vec<String> = Vec::new();
    let pi_opt = find_project(projects, d.project_path.as_str());
    let found: Option<(usize, usize)> = match pi_opt {
        Some(pi) => match find_file(&projects[pi].log_files, sid.as_str()) {
            Some(fi) => Some((pi, fi)),
            None => None,
        },
        None => None,
    };
    proof {
        match found {
            Some(pf) => {
                assert(projects_view(projects@)[pf.0 as int] == project_view(
                    projects@[pf.0 as int],
                ));
                assert(log_files_view(projects@[pf.0 as int].log_files@)[pf.1 as int]
                    == log_file_view(projects@[pf.0 as int].log_files@[pf.1 as int]));
            },
            None => {},
        }
    }
    let (lines, mtime, mstr): (&Vec<String>, u64, String) = match found {
        Some((pi, fi)) => {
            let f = &projects[pi].log_files[fi];
            (&f.lines, f.modified_secs, f.modified_rfc3339.clone())
        },
        None => (&empty_lines, 0u64, String::new()),
    };
    proof {
        let fdata = find_file_data(projects_view(projects@), d.project_path@, sid@);
        match fdata {
            Some(fv) => {
                assert(strs_view(lines@) == fv.lines);
                assert(mtime == fv.modified_secs);
                assert(mstr@ == fv.modified_rfc3339);
            },
            None => {
                assert(strs_view(lines@) =~= Seq::<Seq<char>>::empty());
            },
        }
    }
    let meta: Option<crate::index::SessionIndexEntry> = match pi_opt {
        Some(pi) => find_index_meta(projects, pi, d.project_path.as_str(), sid.as_str()),
        None => None,
    };
    let (first_prompt, summary, message_count, modified, git_branch): (
        String,
        Option<String>,
        u32,
        String,
        Option<String>,
    ) = match &meta {
        Some(e) => (
            e.first_prompt.clone(),
            match &e.summary {
                Some(x) => Some(x.clone()),
                None => None,
            },
            e.message_count,
            e.modified.clone(),
            Some(e.git_branch.clone()),
        ),
        None => {
            let fp = match get_first_prompt_from_lines(lines) {
                Some(p) => p,
                None => "(Active session)".to_owned(),
            };
            (fp, None, count_messages_in_lines(lines), mstr.clone(), None)
        },
    };
    let entries = crate::parser::parse_last_n_entries(lines, STATUS_WINDOW_ENTRIES);
    let status0 = crate::status::determine_status(entries.as_slice(), checker, now_s);
    let touched = (mtime as i128) <= (now_s as i128) && (now_s as i128) - (mtime as i128) < (
    FILE_TOUCH_OVERRIDE_SECS as i128);
    let status = if matches!(status0, SessionStatus::WaitingForInput) && touched {
        SessionStatus::Working
    } else {
        status0
    };
    let latest_message = get_latest_message_from_entries(entries.as_slice());
    let pending_tool_name = crate::status::get_pending_tool_name(entries.as_slice(), checker);
    if message_count == 0 {
        return None;
    }
    let session_name: String = match assoc_get(custom_names, sid.as_str()) {
        Some(n) => n,
        None => d.project_name.clone(),
    };
    let custom_title = assoc_get(custom_titles, sid.as_str());
    Some(
        Session {
            id: sid,
            pid: d.pid,
            session_name,
            custom_title,
            project_path: d.cwd.clone(),
            git_branch,
            first_prompt,
            summary,
            message_count,
            modified,
            status,
            latest_message,
            pending_tool_name,
        },
    )
}

/// The sessions one poll cycle detects and enriches, from plain inputs:
/// the process table's agent processes, the project directories with their
/// files, the permission policy, custom names and titles, and the clock.
pub fn detect_and_enrich_sessions(
    processes: Vec<ClaudeProcess>,
    projects: &Vec<ProjectData>,
    checker: &PermissionChecker,
    custom_names: &Vec<(String, String)>,
    custom_titles: &Vec<(String, String)>,
    now_s: i64,
) -> (r: Vec<Session>)
    ensures
        sessions_view(r@) == detect_enrich_spec(
            procs_view(processes@),
            projects_view(projects@),
            patterns_view(checker.allowed_patterns@),
            pairs_view(custom_names@),
            pairs_view(custom_titles@),
            now_s as int,
        ),
{
    let records = build_log_records(projects);
    let dets = crate::correlate::find_active_sessions(processes, records);
    let mut seen: Vec<String> = Vec::new();
    let mut out: Vec<Session> = Vec::new();
    let mut i: usize = 0;
    proof {
        assert(dets_view(dets@).skip(0) =~= dets_view(dets@));
        assert(crate::text::strs_view(seen@) =~= Seq::<Seq<char>>::empty());
        assert(sessions_view(out@) =~= Seq::<SessionV>::empty());
    }
    while i < dets.len()
        invariant
            0 <= i <= dets@.len(),
            sessions_view(out@) + enrich_all(
                dets_view(dets@).skip(i as int),
                projects_view(projects@),
                patterns_view(checker.allowed_patterns@),
                pairs_view(custom_names@),
                pairs_view(custom_titles@),
                now_s as int,
                crate::text::strs_view(seen@),
            ) == enrich_all(
                dets_view(dets@),
                projects_view(projects@),
                patterns_view(checker.allowed_patterns@),
                pairs_view(custom_names@),
                pairs_view(custom_titles@),
                now_s as int,
                Seq::<Seq<char>>::empty(),
            ),
        decreases dets@.len() - i,
    {
        proof {
            assert(dets_view(dets@)[i as int] == detected_view(dets@[i as int]));
            assert(dets_view(dets@).skip(i as int)[0] == dets_view(dets@)[i as int]);
            assert(dets_view(dets@).skip(i as int).drop_first() =~= dets_view(dets@).skip(
                i + 1,
            ));
        }
        let d = &dets[i];
        match &d.session_id {
            None => {},
            Some(sid) => {
                if !crate::correlate::id_used(&seen, sid.as_str()) {
                    let ghost seen_pre = crate::text::strs_view(seen@);
                    seen.push(sid.clone());
                    proof {
                        assert(crate::text::strs_view(seen@) =~= seen_pre.push(sid@));
                    }
                    let ghost out_pre = sessions_view(out@);
                    match enrich_session(
                        d,
                        projects,
                        checker,
                        custom_names,
                        custom_titles,
                        now_s,
                    ) {
                        Some(srow) => {
                            out.push(srow);
                            proof {
                                assert(sessions_view(out@) =~~= out_pre.push(
                                    session_view(out@.last()),
                                ));
                            }
                        },
                        None => {},
                    }
                }
            },
        }
        i += 1;
    }
    proof {
        assert(dets_view(dets@).skip(dets@.len() as int) =~= Seq::<DetectedV>::empty());
        assert(sessions_view(out@) + Seq::<SessionV>::empty() =~= sessions_view(out@));
    }
    out
}

// ── The cross-cycle notification state machine ─────────────────────────

/// Connection details for the live transport, published to clients.
pub struct ServerInfo {
    pub token: String,
    pub port: u16,
    pub local_ip: String,
    pub ws_url: String,
}

/// One notification event: a debounced status transition of one session.
pub struct NotificationEvent {
    pub session_id: String,
    pub status: SessionStatus,
    pub pid: u32,
    pub session_name: String,
    pub first_prompt: String,
    pub project_path: String,
    pub pending_tool_name: Option<String>,
}

/// The mathematical shape of a notification event.
#[verifier::ext_equal]
pub struct NotificationV {
    pub session_id: Seq<char>,
    pub status: SessionStatus,
    pub pid: u32,
    pub session_name: Seq<char>,
    pub first_prompt: Seq<char>,
    pub project_path: Seq<char>,
    pub pending_tool_name: Option<Seq<char>>,
}

/// The mathematical shape of a notification event.
pub open spec fn notification_view(n: NotificationEvent) -> NotificationV {
    NotificationV {
        session_id: n.session_id@,
        status: n.status,
        pid: n.pid,
        session_name: n.session_name@,
        first_prompt: n.first_prompt@,
        project_path: n.project_path@,
        pending_tool_name: opt_str_view(n.pending_tool_name),
    }
}

/// The shapes of the events, in order.
pub open spec fn notifications_view(ns: Seq<NotificationEvent>) -> Seq<NotificationV> {
    Seq::new(ns.len(), |i: int| notification_view(ns[i]))
}

/// The event one session fires.
pub open spec fn event_of(s: SessionV) -> NotificationV {
    NotificationV {
        session_id: s.id,
        status: s.status,
        pid: s.pid,
        session_name: s.session_name,
        first_prompt: s.first_prompt,
        project_path: s.project_path,
        pending_tool_name: s.pending_tool_name,
    }
}

/// The first status bound to the key.
pub open spec fn status_assoc(
    m: Seq<(Seq<char>, SessionStatus)>,
    key: Seq<char>,
) -> Option<SessionStatus>
    decreases m.len(),
{
    if m.len() == 0 {
        None
    } else if m[0].0 == key {
        Some(m[0].1)
    } else {
        status_assoc(m.drop_first(), key)
    }
}

/// The first time bound to the key.
pub open spec fn time_assoc(m: Seq<(Seq<char>, i64)>, key: Seq<char>) -> Option<i64>
    decreases m.len(),
{
    if m.len() == 0 {
        None
    } else if m[0].0 == key {
        Some(m[0].1)
    } else {
        time_assoc(m.drop_first(), key)
    }
}

/// Whether a transition notifies: only a session that was working and now
/// demands permission or waits for input.
pub open spec fn notifying_transition(prev: Option<SessionStatus>, cur: SessionStatus) -> bool {
    prev == Some(SessionStatus::Working) && (cur == SessionStatus::NeedsPermission || cur
        == SessionStatus::WaitingForInput)
}

/// Whether a session's last notification is still too fresh for another.
pub open spec fn on_cooldown(last: Option<i64>, now: int) -> bool {
    match last {
        Some(t) => now - t < NOTIFY_COOLDOWN_SECS as int,
        None => false,
    }
}

/// The events one cycle fires, threading the per-session notification
/// times: a session notifies when its remembered status was working, its
/// current one demands attention, and no notification for it fired within
/// the cooldown.
pub open spec fn cycle_events(
    sessions: Seq<SessionV>,
    prev: Seq<(Seq<char>, SessionStatus)>,
    times: Seq<(Seq<char>, i64)>,
    now: int,
) -> Seq<NotificationV>
    decreases sessions.len(),
{
    if sessions.len() == 0 {
        Seq::empty()
    } else {
        let s = sessions[0];
        let fire = notifying_transition(status_assoc(prev, s.id), s.status) && !on_cooldown(
            time_assoc(times, s.id),
            now,
        );
        if fire {
            seq![event_of(s)] + cycle_events(
                sessions.drop_first(),
                prev,
                times.push((s.id, now as i64)),
                now,
            )
        } else {
            cycle_events(sessions.drop_first(), prev, times, now)
        }
    }
}

/// The notification times after one cycle's firings.
pub open spec fn cycle_times(
    sessions: Seq<SessionV>,
    prev: Seq<(Seq<char>, SessionStatus)>,
    times: Seq<(Seq<char>, i64)>,
    now: int,
) -> Seq<(Seq<char>, i64)>
    decreases sessions.len(),
{
    if sessions.len() == 0 {
        times
    } else {
        let s = sessions[0];
        let fire = notifying_transition(status_assoc(prev, s.id), s.status) && !on_cooldown(
            time_assoc(times, s.id),
            now,
        );
        if fire {
            cycle_times(sessions.drop_first(), prev, times.push((s.id, now as i64)), now)
        } else {
            cycle_times(sessions.drop_first(), prev, times, now)
        }
    }
}

/// Whether the id names one of the sessions.
pub open spec fn among_sessions(sessions: Seq<SessionV>, id: Seq<char>) -> bool {
    exists|k: int| 0 <= k < sessions.len() && (#[trigger] sessions[k]).id == id
}

/// The time entries whose session is still present.
pub open spec fn prune_times(
    times: Seq<(Seq<char>, i64)>,
    sessions: Seq<SessionV>,
) -> Seq<(Seq<char>, i64)>
    decreases times.len(),
{
    if times.len() == 0 {
        Seq::empty()
    } else {
        let rest = prune_times(times.drop_first(), sessions);
        if among_sessions(sessions, times[0].0) {
            seq![times[0]] + rest
        } else {
            rest
        }
    }
}

/// The remembered statuses after a cycle: each present session's id bound
/// to its current status.
pub open spec fn statuses_of(sessions: Seq<SessionV>) -> Seq<(Seq<char>, SessionStatus)> {
    Seq::new(sessions.len(), |i: int| (sessions[i].id, sessions[i].status))
}

/// The shapes of the remembered statuses.
pub open spec fn status_pairs_view(
    m: Seq<(String, SessionStatus)>,
) -> Seq<(Seq<char>, SessionStatus)> {
    Seq::new(m.len(), |i: int| (m[i].0@, m[i].1))
}

/// The shapes of the remembered times.
pub open spec fn time_pairs_view(m: Seq<(String, i64)>) -> Seq<(Seq<char>, i64)> {
    Seq::new(m.len(), |i: int| (m[i].0@, m[i].1))
}

/// The cross-cycle memory of the poll loop: the previous cycle's statuses,
/// the last notification time of each session, and whether any cycle ran.
pub struct PollState {
    pub previous_status: Vec<(String, SessionStatus)>,
    pub last_notified_at: Vec<(String, i64)>,
    pub is_first_cycle: bool,
}

impl PollState {
    /// The memory a fresh loop starts with: nothing remembered.
    pub fn new() -> (r: PollState)
        ensures
            status_pairs_view(r.previous_status@) == Seq::<(Seq<char>, SessionStatus)>::empty(),
            time_pairs_view(r.last_notified_at@) == Seq::<(Seq<char>, i64)>::empty(),
            r.is_first_cycle,
    {
        let r = PollState {
            previous_status: Vec::new(),
            last_notified_at: Vec::new(),
            is_first_cycle: true,
        };
        proof {
            assert(status_pairs_view(r.previous_status@) =~= Seq::<
                (Seq<char>, SessionStatus),
            >::empty());
            assert(time_pairs_view(r.last_notified_at@) =~= Seq::<(Seq<char>, i64)>::empty());
        }
        r
    }

    /// One cycle of the notification state machine: on the very first cycle
    /// the statuses are only seeded and nothing fires; afterwards each
    /// session fires on a working-to-attention transition outside its
    /// cooldown. The memory keeps only sessions present this cycle.
    pub fn poll_cycle(&mut self, sessions: &Vec<Session>, now_s: i64) -> (r: Vec<
        NotificationEvent,
    >)
        ensures
            !final(self).is_first_cycle,
            status_pairs_view(final(self).previous_status@) == statuses_of(
                sessions_view(sessions@),
            ),
            old(self).is_first_cycle ==> r@.len() == 0 && time_pairs_view(
                final(self).last_notified_at@,
            ) == prune_times(
                time_pairs_view(old(self).last_notified_at@),
                sessions_view(sessions@),
            ),
            !old(self).is_first_cycle ==> notifications_view(r@) == cycle_events(
                sessions_view(sessions@),
                status_pairs_view(old(self).previous_status@),
                time_pairs_view(old(self).last_notified_at@),
                now_s as int,
            ) && time_pairs_view(final(self).last_notified_at@) == prune_times(
                cycle_times(
                    sessions_view(sessions@),
                    status_pairs_view(old(self).previous_status@),
                    time_pairs_view(old(self).last_notified_at@),
                    now_s as int,
                ),
                sessions_view(sessions@),
            ),
    {
        let mut events: Vec<NotificationEvent> = Vec::new();
        let first = self.is_first_cycle;
        if !first {
            let ghost prev0 = status_pairs_view(self.previous_status@);
            let ghost times0 = time_pairs_view(self.last_notified_at@);
            let mut i: usize = 0;
            proof {
                assert(sessions_view(sessions@).skip(0) =~= sessions_view(sessions@));
                assert(notifications_view(events@) =~= Seq::<NotificationV>::empty());
            }
            while i < sessions.len()
                invariant
                    0 <= i <= sessions@.len(),
                    prev0 == status_pairs_view(self.previous_status@),
                    notifications_view(events@) + cycle_events(
                        sessions_view(sessions@).skip(i as int),
                        prev0,
                        time_pairs_view(self.last_notified_at@),
                        now_s as int,
                    ) == cycle_events(sessions_view(sessions@), prev0, times0, now_s as int),
                    cycle_times(
                        sessions_view(sessions@).skip(i as int),
                        prev0,
                        time_pairs_view(self.last_notified_at@),
                        now_s as int,
                    ) == cycle_times(sessions_view(sessions@), prev0, times0, now_s as int),
                decreases sessions@.len() - i,
            {
                proof {
                    assert(sessions_view(sessions@)[i as int] == session_view(
                        sessions@[i as int],
                    ));
                    assert(sessions_view(sessions@).skip(i as int)[0] == sessions_view(
                        sessions@,
                    )[i as int]);
                    assert(sessions_view(sessions@).skip(i as int).drop_first()
                        =~= sessions_view(sessions@).skip(i + 1));
                }
                let srow = &sessions[i];
                let prev = lookup_status(&self.previous_status, srow.id.as_str());
                let transition: bool = match prev {
                    Some(p) => matches!(p, SessionStatus::Working) && (matches!(
                        srow.status,
                        SessionStatus::NeedsPermission,
                    ) || matches!(srow.status, SessionStatus::WaitingForInput)),
                    None => false,
                };
                let last = lookup_time(&self.last_notified_at, srow.id.as_str());
                let cooled: bool = match last {
                    Some(t) => (now_s as i128) - (t as i128) < (NOTIFY_COOLDOWN_SECS as i128),
                    None => false,
                };
                if transition && !cooled {
                    let ghost times_pre = time_pairs_view(self.last_notified_at@);
                    events.push(
                        NotificationEvent {
                            session_id: srow.id.clone(),
                            status: srow.status,
                            pid: srow.pid,
                            session_name: srow.session_name.clone(),
                            first_prompt: srow.first_prompt.clone(),
                            project_path: srow.project_path.clone(),
                            pending_tool_name: match &srow.pending_tool_name {
                                Some(t) => Some(t.clone()),
                                None => None,
                            },
                        },
                    );
                    self.last_notified_at.push((srow.id.clone(), now_s));
                    proof {
                        assert(time_pairs_view(self.last_notified_at@) =~= times_pre.push(
                            (sessions_view(sessions@)[i as int].id, now_s),
                        ));
                        assert(notifications_view(events@) =~~= notifications_view(
                            events@.drop_last(),
                        ).push(event_of(sessions_view(sessions@)[i as int])));
                    }
                }
                i += 1;
            }
            proof {
                assert(sessions_view(sessions@).skip(sessions@.len() as int) =~= Seq::<
                    SessionV,
                >::empty());
                assert(notifications_view(events@) + Seq::<NotificationV>::empty()
                    =~= notifications_view(events@));
            }
        }
        // Rebuild the remembered statuses from this cycle's sessions, and
        // keep only the notification times of sessions still present.
        let mut new_prev: Vec<(String, SessionStatus)> = Vec::new();
        let mut k: usize = 0;
        proof {
            assert(status_pairs_view(new_prev@) =~= statuses_of(sessions_view(sessions@)).take(
                0,
            ));
        }
        while k < sessions.len()
            invariant
                0 <= k <= sessions@.len(),
                new_prev@.len() == k,
                status_pairs_view(new_prev@) == statuses_of(sessions_view(sessions@)).take(
                    k as int,
                ),
            decreases sessions@.len() - k,
        {
            proof {
                assert(sessions_view(sessions@)[k as int] == session_view(sessions@[k as int]));
            }
            let srow = &sessions[k];
            let ghost np_pre = new_prev@;
            new_prev.push((srow.id.clone(), srow.status));
            k += 1;
            proof {
                assert(new_prev@.drop_last() =~= np_pre);
                assert(status_pairs_view(new_prev@)[k - 1] == (
                    new_prev@[k - 1].0@,
                    new_prev@[k - 1].1,
                ));
                assert(status_pairs_view(new_prev@) =~~= statuses_of(
                    sessions_view(sessions@),
                ).take(k as int));
            }
        }
        proof {
            assert(statuses_of(sessions_view(sessions@)).take(sessions@.len() as int)
                =~= statuses_of(sessions_view(sessions@)));
        }
        self.previous_status = new_prev;
        let mut kept: Vec<(String, i64)> = Vec::new();
        let mut t: usize = 0;
        proof {
            assert(time_pairs_view(self.last_notified_at@).skip(0) =~= time_pairs_view(
                self.last_notified_at@,
            ));
            assert(time_pairs_view(kept@) =~= Seq::<(Seq<char>, i64)>::empty());
        }
        while t < self.last_notified_at.len()
            invariant
                0 <= t <= self.last_notified_at@.len(),
                kept@.len() <= t,
                time_pairs_view(kept@) + prune_times(
                    time_pairs_view(self.last_notified_at@).skip(t as int),
                    sessions_view(sessions@),
                ) == prune_times(
                    time_pairs_view(self.last_notified_at@),
                    sessions_view(sessions@),
                ),
            decreases self.last_notified_at@.len() - t,
        {
            proof {
                assert(time_pairs_view(self.last_notified_at@)[t as int] == (
                    self.last_notified_at@[t as int].0@,
                    self.last_notified_at@[t as int].1,
                ));
                assert(time_pairs_view(self.last_notified_at@).skip(t as int)[0]
                    == time_pairs_view(self.last_notified_at@)[t as int]);
                assert(time_pairs_view(self.last_notified_at@).skip(t as int).drop_first()
                    =~= time_pairs_view(self.last_notified_at@).skip(t + 1));
            }
            let id_here = self.last_notified_at[t].0.clone();
            let present = session_present(sessions, id_here.as_str());
            if present {
                let ghost kept_pre = time_pairs_view(kept@);
                kept.push((id_here, self.last_notified_at[t].1));
                proof {
                    assert(time_pairs_view(kept@) =~= kept_pre.push(
                        time_pairs_view(self.last_notified_at@)[t as int],
                    ));
                }
            }
            t += 1;
        }
        proof {
            assert(time_pairs_view(self.last_notified_at@).skip(
                self.last_notified_at@.len() as int,
            ) =~= Seq::<(Seq<char>, i64)>::empty());
            assert(time_pairs_view(kept@) + Seq::<(Seq<char>, i64)>::empty() =~= time_pairs_view(
                kept@,
            ));
        }
        self.last_notified_at = kept;
        self.is_first_cycle = false;
        events
    }
}

/// The remembered status of a session.
fn lookup_status(m: &Vec<(String, SessionStatus)>, key: &str) -> (r: Option<SessionStatus>)
    ensures
        r == status_assoc(status_pairs_view(m@), key@),
{
    let mut i: usize = 0;
    proof {
        assert(status_pairs_view(m@).skip(0) =~= status_pairs_view(m@));
    }
    while i < m.len()
        invariant
            0 <= i <= m@.len(),
            status_assoc(status_pairs_view(m@), key@) == status_assoc(
                status_pairs_view(m@).skip(i as int),
                key@,
            ),
        decreases m@.len() - i,
    {
        proof {
            assert(status_pairs_view(m@)[i as int] == (m@[i as int].0@, m@[i as int].1));
            assert(status_pairs_view(m@).skip(i as int)[0] == status_pairs_view(m@)[i as int]);
            assert(status_pairs_view(m@).skip(i as int).drop_first() =~= status_pairs_view(
                m@,
            ).skip(i + 1));
        }
        if crate::text::str_eq(m[i].0.as_str(), key) {
            return Some(m[i].1);
        }
        i += 1;
    }
    proof {
        assert(status_pairs_view(m@).skip(m@.len() as int) =~= Seq::<
            (Seq<char>, SessionStatus),
        >::empty());
    }
    None
}

/// The remembered last notification time of a session.
fn lookup_time(m: &Vec<(String, i64)>, key: &str) -> (r: Option<i64>)
    ensures
        r == time_assoc(time_pairs_view(m@), key@),
{
    let mut i: usize = 0;
    proof {
        assert(time_pairs_view(m@).skip(0) =~= time_pairs_view(m@));
    }
    while i < m.len()
        invariant
            0 <= i <= m@.len(),
            time_assoc(time_pairs_view(m@), key@) == time_assoc(
                time_pairs_view(m@).skip(i as int),
                key@,
            ),
        decreases m@.len() - i,
    {
        proof {
            assert(time_pairs_view(m@)[i as int] == (m@[i as int].0@, m@[i as int].1));
            assert(time_pairs_view(m@).skip(i as int)[0] == time_pairs_view(m@)[i as int]);
            assert(time_pairs_view(m@).skip(i as int).drop_first() =~= time_pairs_view(m@).skip(
                i + 1,
            ));
        }
        if crate::text::str_eq(m[i].0.as_str(), key) {
            return Some(m[i].1);
        }
        i += 1;
    }
    proof {
        assert(time_pairs_view(m@).skip(m@.len() as int) =~= Seq::<(Seq<char>, i64)>::empty());
    }
    None
}

/// Whether a session with the id is present.
fn session_present(sessions: &Vec<Session>, id: &str) -> (r: bool)
    ensures
        r == among_sessions(sessions_view(sessions@), id@),
{
    let mut i: usize = 0;
    while i < sessions.len()
        invariant
            0 <= i <= sessions@.len(),
            forall|k: int| 0 <= k < i ==> (#[trigger] sessions_view(sessions@)[k]).id != id@,
        decreases sessions@.len() - i,
    {
        proof {
            assert(sessions_view(sessions@)[i as int] == session_view(sessions@[i as int]));
        }
        if crate::text::str_eq(sessions[i].id.as_str(), id) {
            return true;
        }
        i += 1;
    }
    false
}

/// A notification for a session whose last one fired within the cooldown
/// is suppressed: no event of this cycle names that session, however many
/// attention-demanding transitions it shows.
pub proof fn lemma_debounce_suppresses(
    sessions: Seq<SessionV>,
    prev: Seq<(Seq<char>, SessionStatus)>,
    times: Seq<(Seq<char>, i64)>,
    now: int,
    id: Seq<char>,
    t: i64,
)
    requires
        time_assoc(times, id) == Some(t),
        now - t < NOTIFY_COOLDOWN_SECS as int,
    ensures
        forall|k: int|
            0 <= k < cycle_events(sessions, prev, times, now).len() ==> (
            #[trigger] cycle_events(sessions, prev, times, now)[k]).session_id != id,
    decreases sessions.len(),
{
    if sessions.len() > 0 {
        let s = sessions[0];
        let fire = notifying_transition(status_assoc(prev, s.id), s.status) && !on_cooldown(
            time_assoc(times, s.id),
            now,
        );
        if fire {
            assert(s.id != id);
            lemma_time_assoc_push(times, id, t, s.id, now as i64);
            lemma_debounce_suppresses(
                sessions.drop_first(),
                prev,
                times.push((s.id, now as i64)),
                now,
                id,
                t,
            );
        } else {
            lemma_debounce_suppresses(sessions.drop_first(), prev, times, now, id, t);
        }
    }
}

proof fn lemma_time_assoc_push(
    times: Seq<(Seq<char>, i64)>,
    id: Seq<char>,
    t: i64,
    other: Seq<char>,
    v: i64,
)
    requires
        time_assoc(times, id) == Some(t),
    ensures
        time_assoc(times.push((other, v)), id) == Some(t),
    decreases times.len(),
{
    if times.len() > 0 {
        if times[0].0 == id {
            assert(times.push((other, v))[0] == times[0]);
        } else {
            assert(times.push((other, v)).drop_first() =~= times.drop_first().push((other, v)));
            lemma_time_assoc_push(times.drop_first(), id, t, other, v);
        }
    } else {
        assert(times.push((other, v))[0] == (other, v));
    }
}

} // verus!
