//! Typed entries of the session log: one line of the log decodes to one
//! `SessionEntry`. The decoding rules are stated as spec functions over the
//! JSON tree; malformed lines decode to `SessionEntry::Unknown` rather than
//! failing the whole parse.

use vstd::prelude::*;
use vstd::string::StringExecFns;
use crate::json::{JsonV, JsonValue, jv_view, jv_seq_view, jv_fields_view, lookup_field, json_tree};

verus! {

broadcast use vstd::std_specs::vec::group_vec_axioms, vstd::seq::group_seq_axioms;

/// Common fields shared across session entries.
pub struct SessionEntryBase {
    pub uuid: String,
    pub timestamp: String,
    pub session_id: Option<String>,
    pub cwd: Option<String>,
    pub version: Option<String>,
    pub git_branch: Option<String>,
    pub parent_uuid: Option<String>,
    pub is_sidechain: Option<bool>,
    pub slug: Option<String>,
}

/// A user record's message: the text of a prompt, or the merged text of the
/// tool-result blocks that were re-injected as a "user" record.
pub struct UserMessage {
    pub role: String,
    pub content: String,
    /// Whether this user entry is a tool result rather than an actual user
    /// prompt.
    pub is_tool_result: bool,
}

/// Token usage information.
pub struct Usage {
    pub input_tokens: Option<u32>,
    pub output_tokens: Option<u32>,
    pub cache_creation_input_tokens: Option<u32>,
    pub cache_read_input_tokens: Option<u32>,
}

/// Content block within an assistant message.
pub enum MessageContent {
    Text { text: String },
    Thinking { thinking: String, signature: Option<String> },
    ToolUse { id: String, name: String, input: JsonValue },
    ToolResult { tool_use_id: String, content: String, is_error: Option<bool> },
    Unknown,
}

/// Assistant message structure.
pub struct AssistantMessage {
    pub model: String,
    pub id: String,
    pub role: String,
    pub content: Vec<MessageContent>,
    pub stop_reason: Option<String>,
    pub stop_sequence: Option<String>,
    pub usage: Option<Usage>,
}

/// A single line entry from a session log file.
#[allow(inconsistent_fields)]
pub enum SessionEntry {
    User { base: SessionEntryBase, message: UserMessage },
    Assistant { base: SessionEntryBase, message: AssistantMessage },
    FileHistorySnapshot { message_id: String, snapshot: JsonValue, is_snapshot_update: bool },
    Summary { summary: String, leaf_uuid: String },
    Unknown,
}

/// The mathematical shape of a base: strings as character sequences.
#[verifier::ext_equal]
pub struct BaseV {
    pub uuid: Seq<char>,
    pub timestamp: Seq<char>,
    pub session_id: Option<Seq<char>>,
    pub cwd: Option<Seq<char>>,
    pub version: Option<Seq<char>>,
    pub git_branch: Option<Seq<char>>,
    pub parent_uuid: Option<Seq<char>>,
    pub is_sidechain: Option<bool>,
    pub slug: Option<Seq<char>>,
}

/// The mathematical shape of a user message.
#[verifier::ext_equal]
pub struct UserV {
    pub role: Seq<char>,
    pub content: Seq<char>,
    pub is_tool_result: bool,
}

/// The mathematical shape of usage information.
#[verifier::ext_equal]
pub struct UsageV {
    pub input_tokens: Option<u32>,
    pub output_tokens: Option<u32>,
    pub cache_creation_input_tokens: Option<u32>,
    pub cache_read_input_tokens: Option<u32>,
}

/// The mathematical shape of a content block.
#[verifier::ext_equal]
pub enum BlockV {
    Text { text: Seq<char> },
    Thinking { thinking: Seq<char>, signature: Option<Seq<char>> },
    ToolUse { id: Seq<char>, name: Seq<char>, input: JsonV },
    ToolResult { tool_use_id: Seq<char>, content: Seq<char>, is_error: Option<bool> },
    Unknown,
}

/// The mathematical shape of an assistant message.
#[verifier::ext_equal]
pub struct AssistantV {
    pub model: Seq<char>,
    pub id: Seq<char>,
    pub role: Seq<char>,
    pub content: Seq<BlockV>,
    pub stop_reason: Option<Seq<char>>,
    pub stop_sequence: Option<Seq<char>>,
    pub usage: Option<UsageV>,
}

/// The mathematical shape of an entry.
#[allow(inconsistent_fields)]
#[verifier::ext_equal]
pub enum EntryV {
    User { base: BaseV, message: UserV },
    Assistant { base: BaseV, message: AssistantV },
    FileHistorySnapshot { message_id: Seq<char>, snapshot: JsonV, is_snapshot_update: bool },
    Summary { summary: Seq<char>, leaf_uuid: Seq<char> },
    Unknown,
}

/// The shape of an optional string field.
pub open spec fn opt_view(o: Option<String>) -> Option<Seq<char>> {
    match o {
        Some(s) => Some(s@),
        None => None,
    }
}

/// The mathematical shape of a base.
pub open spec fn base_view(b: SessionEntryBase) -> BaseV {
    BaseV {
        uuid: b.uuid@,
        timestamp: b.timestamp@,
        session_id: opt_view(b.session_id),
        cwd: opt_view(b.cwd),
        version: opt_view(b.version),
        git_branch: opt_view(b.git_branch),
        parent_uuid: opt_view(b.parent_uuid),
        is_sidechain: b.is_sidechain,
        slug: opt_view(b.slug),
    }
}

/// The mathematical shape of a user message.
pub open spec fn user_view(m: UserMessage) -> UserV {
    UserV { role: m.role@, content: m.content@, is_tool_result: m.is_tool_result }
}

/// The mathematical shape of usage information.
pub open spec fn usage_view(u: Usage) -> UsageV {
    UsageV {
        input_tokens: u.input_tokens,
        output_tokens: u.output_tokens,
        cache_creation_input_tokens: u.cache_creation_input_tokens,
        cache_read_input_tokens: u.cache_read_input_tokens,
    }
}

/// The mathematical shape of a content block.
pub open spec fn block_view(b: MessageContent) -> BlockV {
    match b {
        MessageContent::Text { text } => BlockV::Text { text: text@ },
        MessageContent::Thinking { thinking, signature } => BlockV::Thinking {
            thinking: thinking@,
            signature: opt_view(signature),
        },
        MessageContent::ToolUse { id, name, input } => BlockV::ToolUse {
            id: id@,
            name: name@,
            input: jv_view(input),
        },
        MessageContent::ToolResult { tool_use_id, content, is_error } => BlockV::ToolResult {
            tool_use_id: tool_use_id@,
            content: content@,
            is_error,
        },
        MessageContent::Unknown => BlockV::Unknown,
    }
}

/// The shapes of the blocks, in order.
pub open spec fn blocks_view(bs: Seq<MessageContent>) -> Seq<BlockV> {
    Seq::new(bs.len(), |i: int| block_view(bs[i]))
}

/// The mathematical shape of an assistant message.
pub open spec fn assistant_view(m: AssistantMessage) -> AssistantV {
    AssistantV {
        model: m.model@,
        id: m.id@,
        role: m.role@,
        content: blocks_view(m.content@),
        stop_reason: opt_view(m.stop_reason),
        stop_sequence: opt_view(m.stop_sequence),
        usage: match m.usage {
            Some(u) => Some(usage_view(u)),
            None => None,
        },
    }
}

/// The mathematical shape of an entry.
pub open spec fn entry_view(e: SessionEntry) -> EntryV {
    match e {
        SessionEntry::User { base, message } => EntryV::User {
            base: base_view(base),
            message: user_view(message),
        },
        SessionEntry::Assistant { base, message } => EntryV::Assistant {
            base: base_view(base),
            message: assistant_view(message),
        },
        SessionEntry::FileHistorySnapshot { message_id, snapshot, is_snapshot_update } => {
            EntryV::FileHistorySnapshot {
                message_id: message_id@,
                snapshot: jv_view(snapshot),
                is_snapshot_update,
            }
        },
        SessionEntry::Summary { summary, leaf_uuid } => EntryV::Summary {
            summary: summary@,
            leaf_uuid: leaf_uuid@,
        },
        SessionEntry::Unknown => EntryV::Unknown,
    }
}

/// The shapes of the entries, in order.
pub open spec fn entries_view(es: Seq<SessionEntry>) -> Seq<EntryV> {
    Seq::new(es.len(), |i: int| entry_view(es[i]))
}

// ── The decoding rules, as spec functions over the JSON shape ──────────
//
// A required field that is absent or of the wrong type makes the whole
// entry `Unknown`; a field wrapped in `Option` may be absent or `null`.

/// A required string field.
pub open spec fn str_field(fs: Seq<(Seq<char>, JsonV)>, key: Seq<char>) -> Option<Seq<char>> {
    match lookup_field(fs, key) {
        Some(JsonV::Text(s)) => Some(s),
        _ => None,
    }
}

/// A required boolean field.
pub open spec fn bool_field(fs: Seq<(Seq<char>, JsonV)>, key: Seq<char>) -> Option<bool> {
    match lookup_field(fs, key) {
        Some(JsonV::Bool(b)) => Some(b),
        _ => None,
    }
}

/// An optional string field: the outer `None` marks a value of the wrong
/// type, the inner `None` an absent or null field.
pub open spec fn opt_str_field(fs: Seq<(Seq<char>, JsonV)>, key: Seq<char>) -> Option<
    Option<Seq<char>>,
> {
    match lookup_field(fs, key) {
        None => Some(None),
        Some(JsonV::Null) => Some(None),
        Some(JsonV::Text(s)) => Some(Some(s)),
        Some(_) => None,
    }
}

/// An optional boolean field.
pub open spec fn opt_bool_field(fs: Seq<(Seq<char>, JsonV)>, key: Seq<char>) -> Option<
    Option<bool>,
> {
    match lookup_field(fs, key) {
        None => Some(None),
        Some(JsonV::Null) => Some(None),
        Some(JsonV::Bool(b)) => Some(Some(b)),
        Some(_) => None,
    }
}

/// An optional unsigned 32-bit field.
pub open spec fn opt_u32_field(fs: Seq<(Seq<char>, JsonV)>, key: Seq<char>) -> Option<
    Option<u32>,
> {
    match lookup_field(fs, key) {
        None => Some(None),
        Some(JsonV::Null) => Some(None),
        Some(JsonV::Int(i)) => if 0 <= i <= u32::MAX {
            Some(Some(i as u32))
        } else {
            None
        },
        Some(_) => None,
    }
}

/// The common base fields, or nothing when a required one is missing.
pub open spec fn base_of(fs: Seq<(Seq<char>, JsonV)>) -> Option<BaseV> {
    match (str_field(fs, "uuid"@), str_field(fs, "timestamp"@)) {
        (Some(uuid), Some(timestamp)) => {
            match (
                opt_str_field(fs, "sessionId"@),
                opt_str_field(fs, "cwd"@),
                opt_str_field(fs, "version"@),
                opt_str_field(fs, "gitBranch"@),
                opt_str_field(fs, "parentUuid"@),
                opt_bool_field(fs, "isSidechain"@),
                opt_str_field(fs, "slug"@),
            ) {
                (
                    Some(session_id),
                    Some(cwd),
                    Some(version),
                    Some(git_branch),
                    Some(parent_uuid),
                    Some(is_sidechain),
                    Some(slug),
                ) => Some(
                    BaseV {
                        uuid,
                        timestamp,
                        session_id,
                        cwd,
                        version,
                        git_branch,
                        parent_uuid,
                        is_sidechain,
                        slug,
                    },
                ),
                _ => None,
            }
        },
        _ => None,
    }
}

/// The text parts one element of a user content array contributes: the text
/// of a `text` block, or the text inside a `tool_result` block, whose own
/// `content` may again be text or an array of text blocks.
pub open spec fn item_parts(it: JsonV) -> Seq<Seq<char>> {
    match it {
        JsonV::Object(ifs) => {
            if lookup_field(ifs, "type"@) == Some(JsonV::Text("tool_result"@)) {
                match lookup_field(ifs, "content"@) {
                    Some(JsonV::Text(s)) => seq![s],
                    Some(JsonV::Array(inner)) => texts_of(inner),
                    _ => Seq::empty(),
                }
            } else if lookup_field(ifs, "type"@) == Some(JsonV::Text("text"@)) {
                match lookup_field(ifs, "text"@) {
                    Some(JsonV::Text(s)) => seq![s],
                    _ => Seq::empty(),
                }
            } else {
                Seq::empty()
            }
        },
        _ => Seq::empty(),
    }
}

/// The text a nested content block contributes: its `text` field, when that
/// is a string.
pub open spec fn block_text(b: JsonV) -> Seq<Seq<char>> {
    match b {
        JsonV::Object(bfs) => match lookup_field(bfs, "text"@) {
            Some(JsonV::Text(s)) => seq![s],
            _ => Seq::empty(),
        },
        _ => Seq::empty(),
    }
}

/// The `text` fields of the given blocks, in order.
pub open spec fn texts_of(inner: Seq<JsonV>) -> Seq<Seq<char>>
    decreases inner.len(),
{
    if inner.len() == 0 {
        Seq::empty()
    } else {
        block_text(inner[0]) + texts_of(inner.drop_first())
    }
}

/// All text parts of a user content array, in order.
pub open spec fn user_parts(items: Seq<JsonV>) -> Seq<Seq<char>>
    decreases items.len(),
{
    if items.len() == 0 {
        Seq::empty()
    } else {
        item_parts(items[0]) + user_parts(items.drop_first())
    }
}

/// The parts joined with one newline between each two.
pub open spec fn join_nl(parts: Seq<Seq<char>>) -> Seq<char>
    decreases parts.len(),
{
    if parts.len() == 0 {
        Seq::empty()
    } else if parts.len() == 1 {
        parts[0]
    } else {
        parts[0] + seq!['\n'] + join_nl(parts.drop_first())
    }
}

/// What a user record's content decodes to: a plain string is a prompt; an
/// array is a re-injected tool result whose text parts are merged by newline,
/// with a fixed placeholder when no part holds text.
pub open spec fn user_content_of(m: JsonV) -> (Seq<char>, bool) {
    match m {
        JsonV::Object(mfs) => match lookup_field(mfs, "content"@) {
            Some(JsonV::Text(s)) => (s, false),
            Some(JsonV::Array(items)) => {
                let parts = user_parts(items);
                if parts.len() == 0 {
                    ("[tool result]"@, true)
                } else {
                    (join_nl(parts), true)
                }
            },
            _ => (Seq::empty(), false),
        },
        _ => (Seq::empty(), false),
    }
}

/// What a user record's message decodes to; it never fails, the role
/// defaulting to "user".
pub open spec fn user_msg_of(m: JsonV) -> UserV {
    let role = match m {
        JsonV::Object(mfs) => match lookup_field(mfs, "role"@) {
            Some(JsonV::Text(r)) => r,
            _ => "user"@,
        },
        _ => "user"@,
    };
    let (content, is_tool_result) = user_content_of(m);
    UserV { role, content, is_tool_result }
}

/// What one assistant content block decodes to; `None` marks a malformed
/// block, which makes the whole entry `Unknown`; a block of an unrecognized
/// kind is kept as `BlockV::Unknown`.
pub open spec fn block_of(it: JsonV) -> Option<BlockV> {
    match it {
        JsonV::Object(bfs) => match lookup_field(bfs, "type"@) {
            Some(JsonV::Text(t)) => {
                if t == "text"@ {
                    match str_field(bfs, "text"@) {
                        Some(text) => Some(BlockV::Text { text }),
                        None => None,
                    }
                } else if t == "thinking"@ {
                    match (str_field(bfs, "thinking"@), opt_str_field(bfs, "signature"@)) {
                        (Some(thinking), Some(signature)) => Some(
                            BlockV::Thinking { thinking, signature },
                        ),
                        _ => None,
                    }
                } else if t == "tool_use"@ {
                    match (
                        str_field(bfs, "id"@),
                        str_field(bfs, "name"@),
                        lookup_field(bfs, "input"@),
                    ) {
                        (Some(id), Some(name), Some(input)) => Some(
                            BlockV::ToolUse { id, name, input },
                        ),
                        _ => None,
                    }
                } else if t == "tool_result"@ {
                    match (
                        str_field(bfs, "tool_use_id"@),
                        str_field(bfs, "content"@),
                        opt_bool_field(bfs, "is_error"@),
                    ) {
                        (Some(tool_use_id), Some(content), Some(is_error)) => Some(
                            BlockV::ToolResult { tool_use_id, content, is_error },
                        ),
                        _ => None,
                    }
                } else {
                    Some(BlockV::Unknown)
                }
            },
            _ => None,
        },
        _ => None,
    }
}

/// What a sequence of blocks decodes to; any malformed block fails the whole
/// sequence.
pub open spec fn blocks_of(items: Seq<JsonV>) -> Option<Seq<BlockV>>
    decreases items.len(),
{
    if items.len() == 0 {
        Some(Seq::empty())
    } else {
        match (block_of(items[0]), blocks_of(items.drop_first())) {
            (Some(b), Some(rest)) => Some(seq![b] + rest),
            _ => None,
        }
    }
}

/// The usage field, when present a record of four optional counters.
pub open spec fn usage_of(mfs: Seq<(Seq<char>, JsonV)>) -> Option<Option<UsageV>> {
    match lookup_field(mfs, "usage"@) {
        None => Some(None),
        Some(JsonV::Null) => Some(None),
        Some(JsonV::Object(ufs)) => {
            match (
                opt_u32_field(ufs, "input_tokens"@),
                opt_u32_field(ufs, "output_tokens"@),
                opt_u32_field(ufs, "cache_creation_input_tokens"@),
                opt_u32_field(ufs, "cache_read_input_tokens"@),
            ) {
                (Some(input_tokens), Some(output_tokens), Some(cc), Some(cr)) => Some(
                    Some(
                        UsageV {
                            input_tokens,
                            output_tokens,
                            cache_creation_input_tokens: cc,
                            cache_read_input_tokens: cr,
                        },
                    ),
                ),
                _ => None,
            }
        },
        Some(_) => None,
    }
}

/// What an assistant record's message decodes to, or nothing when malformed.
pub open spec fn assistant_msg_of(m: JsonV) -> Option<AssistantV> {
    match m {
        JsonV::Object(mfs) => {
            match (str_field(mfs, "model"@), str_field(mfs, "id"@), str_field(mfs, "role"@)) {
                (Some(model), Some(id), Some(role)) => {
                    match lookup_field(mfs, "content"@) {
                        Some(JsonV::Array(items)) => match blocks_of(items) {
                            Some(content) => {
                                match (
                                    opt_str_field(mfs, "stop_reason"@),
                                    opt_str_field(mfs, "stop_sequence"@),
                                    usage_of(mfs),
                                ) {
                                    (Some(stop_reason), Some(stop_sequence), Some(usage)) => Some(
                                        AssistantV {
                                            model,
                                            id,
                                            role,
                                            content,
                                            stop_reason,
                                            stop_sequence,
                                            usage,
                                        },
                                    ),
                                    _ => None,
                                }
                            },
                            None => None,
                        },
                        _ => None,
                    }
                },
                _ => None,
            }
        },
        _ => None,
    }
}

/// What one JSON tree decodes to: the record kind is read from the `type`
/// tag; anything unrecognized or malformed is `Unknown`.
pub open spec fn entry_of(v: JsonV) -> EntryV {
    match v {
        JsonV::Object(fs) => match lookup_field(fs, "type"@) {
            Some(JsonV::Text(t)) => {
                if t == "user"@ {
                    match (base_of(fs), lookup_field(fs, "message"@)) {
                        (Some(base), Some(m)) => EntryV::User { base, message: user_msg_of(m) },
                        _ => EntryV::Unknown,
                    }
                } else if t == "assistant"@ {
                    match (base_of(fs), lookup_field(fs, "message"@)) {
                        (Some(base), Some(m)) => match assistant_msg_of(m) {
                            Some(message) => EntryV::Assistant { base, message },
                            None => EntryV::Unknown,
                        },
                        _ => EntryV::Unknown,
                    }
                } else if t == "file-history-snapshot"@ {
                    match (
                        str_field(fs, "messageId"@),
                        lookup_field(fs, "snapshot"@),
                        bool_field(fs, "isSnapshotUpdate"@),
                    ) {
                        (Some(message_id), Some(snapshot), Some(is_snapshot_update)) => {
                            EntryV::FileHistorySnapshot { message_id, snapshot, is_snapshot_update }
                        },
                        _ => EntryV::Unknown,
                    }
                } else if t == "summary"@ {
                    match (str_field(fs, "summary"@), str_field(fs, "leafUuid"@)) {
                        (Some(summary), Some(leaf_uuid)) => EntryV::Summary { summary, leaf_uuid },
                        _ => EntryV::Unknown,
                    }
                } else {
                    EntryV::Unknown
                }
            },
            _ => EntryV::Unknown,
        },
        _ => EntryV::Unknown,
    }
}

/// What one line of the log decodes to: its JSON tree's entry, or `Unknown`
/// where the line is not well-formed JSON.
pub open spec fn line_entry(s: Seq<char>) -> EntryV {
    match json_tree(s) {
        Some(v) => entry_of(v),
        None => EntryV::Unknown,
    }
}

// ── Lemmas: the recursive decoders distribute over concatenation ───────

proof fn lemma_texts_of_concat(s1: Seq<JsonV>, s2: Seq<JsonV>)
    ensures
        texts_of(s1 + s2) == texts_of(s1) + texts_of(s2),
    decreases s1.len(),
{
    if s1.len() == 0 {
        assert(s1 + s2 =~= s2);
        assert(texts_of(s1) + texts_of(s2) =~= texts_of(s2));
    } else {
        lemma_texts_of_concat(s1.drop_first(), s2);
        assert((s1 + s2).drop_first() =~= s1.drop_first() + s2);
        assert(texts_of(s1 + s2) =~= texts_of(s1) + texts_of(s2));
    }
}

proof fn lemma_user_parts_concat(s1: Seq<JsonV>, s2: Seq<JsonV>)
    ensures
        user_parts(s1 + s2) == user_parts(s1) + user_parts(s2),
    decreases s1.len(),
{
    if s1.len() == 0 {
        assert(s1 + s2 =~= s2);
        assert(user_parts(s1) + user_parts(s2) =~= user_parts(s2));
    } else {
        lemma_user_parts_concat(s1.drop_first(), s2);
        assert((s1 + s2).drop_first() =~= s1.drop_first() + s2);
        assert(user_parts(s1 + s2) =~= user_parts(s1) + user_parts(s2));
    }
}

proof fn lemma_blocks_of_concat(s1: Seq<JsonV>, s2: Seq<JsonV>)
    ensures
        blocks_of(s1 + s2) == match (blocks_of(s1), blocks_of(s2)) {
            (Some(a), Some(b)) => Some(a + b),
            _ => None::<Seq<BlockV>>,
        },
    decreases s1.len(),
{
    if s1.len() == 0 {
        assert(s1 + s2 =~= s2);
        if blocks_of(s2) is Some {
            assert(blocks_of(s1)->0 + blocks_of(s2)->0 =~= blocks_of(s2)->0);
        }
    } else {
        lemma_blocks_of_concat(s1.drop_first(), s2);
        assert((s1 + s2).drop_first() =~= s1.drop_first() + s2);
        if blocks_of(s1) is Some && blocks_of(s2) is Some {
            assert(blocks_of(s1 + s2)->0 =~= blocks_of(s1)->0 + blocks_of(s2)->0);
        }
    }
}

proof fn lemma_join_nl_snoc(p: Seq<Seq<char>>, i: int)
    requires
        1 <= i < p.len(),
    ensures
        join_nl(p.take(i + 1)) == join_nl(p.take(i)) + seq!['\n'] + p[i],
    decreases i,
{
    if i == 1 {
        assert(p.take(2).drop_first() =~= seq![p[1]]);
        assert(p.take(1) =~= seq![p[0]]);
        assert(join_nl(seq![p[1]]) == p[1]);
        assert(join_nl(p.take(2)) =~= p[0] + seq!['\n'] + p[1]);
    } else {
        lemma_join_nl_snoc(p.drop_first(), i - 1);
        assert(p.take(i + 1).drop_first() =~= p.drop_first().take(i));
        assert(p.take(i).drop_first() =~= p.drop_first().take(i - 1));
        assert(p.drop_first()[i - 1] == p[i]);
        assert(join_nl(p.take(i + 1)) =~= join_nl(p.take(i)) + seq!['\n'] + p[i]);
    }
}

// ── The verified decoder ───────────────────────────────────────────────

/// A required string field of an object.
pub(crate) fn f_str(fields: &Vec<(String, JsonValue)>, key: &str) -> (r: Option<String>)
    ensures
        opt_view(r) == str_field(jv_fields_view(fields@), key@),
{
    match crate::json::obj_get(fields, key) {
        Some(v) => match v {
            JsonValue::Text(s) => Some(s.clone()),
            _ => None,
        },
        None => None,
    }
}

/// A required boolean field of an object.
pub(crate) fn f_bool(fields: &Vec<(String, JsonValue)>, key: &str) -> (r: Option<bool>)
    ensures
        r == bool_field(jv_fields_view(fields@), key@),
{
    match crate::json::obj_get(fields, key) {
        Some(v) => match v {
            JsonValue::Bool(b) => Some(*b),
            _ => None,
        },
        None => None,
    }
}

/// An optional string field of an object; see `opt_str_field`.
pub(crate) fn f_opt_str(fields: &Vec<(String, JsonValue)>, key: &str) -> (r: Option<Option<String>>)
    ensures
        match r {
            Some(o) => opt_str_field(jv_fields_view(fields@), key@) == Some(opt_view(o)),
            None => opt_str_field(jv_fields_view(fields@), key@) is None,
        },
{
    match crate::json::obj_get(fields, key) {
        Some(v) => match v {
            JsonValue::Text(s) => Some(Some(s.clone())),
            JsonValue::Null => Some(None),
            _ => None,
        },
        None => Some(None),
    }
}

/// An optional boolean field of an object.
pub(crate) fn f_opt_bool(fields: &Vec<(String, JsonValue)>, key: &str) -> (r: Option<Option<bool>>)
    ensures
        match r {
            Some(o) => opt_bool_field(jv_fields_view(fields@), key@) == Some(o),
            None => opt_bool_field(jv_fields_view(fields@), key@) is None,
        },
{
    match crate::json::obj_get(fields, key) {
        Some(v) => match v {
            JsonValue::Bool(b) => Some(Some(*b)),
            JsonValue::Null => Some(None),
            _ => None,
        },
        None => Some(None),
    }
}

/// An optional unsigned 32-bit field of an object.
pub(crate) fn f_opt_u32(fields: &Vec<(String, JsonValue)>, key: &str) -> (r: Option<Option<u32>>)
    ensures
        match r {
            Some(o) => opt_u32_field(jv_fields_view(fields@), key@) == Some(o),
            None => opt_u32_field(jv_fields_view(fields@), key@) is None,
        },
{
    match crate::json::obj_get(fields, key) {
        Some(v) => match v {
            JsonValue::Int(i) => {
                if 0 <= *i && *i <= u32::MAX as i64 {
                    Some(Some(*i as u32))
                } else {
                    None
                }
            },
            JsonValue::Null => Some(None),
            _ => None,
        },
        None => Some(None),
    }
}

/// The common base fields, or nothing when a required one is missing.
fn decode_base(fields: &Vec<(String, JsonValue)>) -> (r: Option<SessionEntryBase>)
    ensures
        match r {
            Some(b) => base_of(jv_fields_view(fields@)) == Some(base_view(b)),
            None => base_of(jv_fields_view(fields@)) is None,
        },
{
    let uuid = match f_str(fields, "uuid") {
        Some(s) => s,
        None => {
            return None;
        },
    };
    let timestamp = match f_str(fields, "timestamp") {
        Some(s) => s,
        None => {
            return None;
        },
    };
    let session_id = match f_opt_str(fields, "sessionId") {
        Some(o) => o,
        None => {
            return None;
        },
    };
    let cwd = match f_opt_str(fields, "cwd") {
        Some(o) => o,
        None => {
            return None;
        },
    };
    let version = match f_opt_str(fields, "version") {
        Some(o) => o,
        None => {
            return None;
        },
    };
    let git_branch = match f_opt_str(fields, "gitBranch") {
        Some(o) => o,
        None => {
            return None;
        },
    };
    let parent_uuid = match f_opt_str(fields, "parentUuid") {
        Some(o) => o,
        None => {
            return None;
        },
    };
    let is_sidechain = match f_opt_bool(fields, "isSidechain") {
        Some(o) => o,
        None => {
            return None;
        },
    };
    let slug = match f_opt_str(fields, "slug") {
        Some(o) => o,
        None => {
            return None;
        },
    };
    Some(
        SessionEntryBase {
            uuid,
            timestamp,
            session_id,
            cwd,
            version,
            git_branch,
            parent_uuid,
            is_sidechain,
            slug,
        },
    )
}

/// Pushes the text a nested content block contributes.
fn push_block_text(parts: &mut Vec<String>, b: &JsonValue)
    ensures
        crate::text::strs_view(final(parts)@) == crate::text::strs_view(old(parts)@) + block_text(
            jv_view(*b),
        ),
{
    let ghost before = parts@;
    match b {
        JsonValue::Object(bfs) => {
            proof {
                crate::json::lemma_jv_fields_view(bfs@);
            }
            match crate::json::obj_get(bfs, "text") {
                Some(tv) => match tv {
                    JsonValue::Text(s) => {
                        parts.push(s.clone());
                    },
                    _ => {},
                },
                None => {},
            }
        },
        _ => {},
    }
    proof {
        assert(crate::text::strs_view(parts@) =~= crate::text::strs_view(before) + block_text(
            jv_view(*b),
        ));
    }
}

/// Pushes the text parts that one element of a user content array
/// contributes.
fn push_item_parts(parts: &mut Vec<String>, it: &JsonValue)
    ensures
        crate::text::strs_view(final(parts)@) == crate::text::strs_view(old(parts)@) + item_parts(
            jv_view(*it),
        ),
{
    let ghost before = parts@;
    match it {
        JsonValue::Object(ifs) => {
            proof {
                crate::json::lemma_jv_fields_view(ifs@);
            }
            let is_tool_result = match crate::json::obj_get(ifs, "type") {
                Some(t) => match t {
                    JsonValue::Text(t2) => crate::text::str_eq(t2.as_str(), "tool_result"),
                    _ => false,
                },
                None => false,
            };
            let is_text = match crate::json::obj_get(ifs, "type") {
                Some(t) => match t {
                    JsonValue::Text(t2) => crate::text::str_eq(t2.as_str(), "text"),
                    _ => false,
                },
                None => false,
            };
            if is_tool_result {
                match crate::json::obj_get(ifs, "content") {
                    Some(c) => match c {
                        JsonValue::Text(s) => {
                            parts.push(s.clone());
                            proof {
                                assert(crate::text::strs_view(parts@) =~= crate::text::strs_view(
                                    before,
                                ) + item_parts(jv_view(*it)));
                            }
                        },
                        JsonValue::Array(inner) => {
                            let mut k: usize = 0;
                            while k < inner.len()
                                invariant
                                    0 <= k <= inner@.len(),
                                    crate::text::strs_view(parts@) == crate::text::strs_view(
                                        before,
                                    ) + texts_of(jv_seq_view(inner@).take(k as int)),
                                decreases inner@.len() - k,
                            {
                                proof {
                                    crate::json::lemma_jv_seq_view(inner@);
                                }
                                push_block_text(parts, &inner[k]);
                                k += 1;
                                proof {
                                    let jinner = jv_seq_view(inner@);
                                    assert(jinner.take(k as int) =~= jinner.take(k - 1) + seq![
                                        jinner[k - 1],
                                    ]);
                                    lemma_texts_of_concat(jinner.take(k - 1), seq![jinner[k - 1]]);
                                    assert(seq![jinner[k - 1]].drop_first() =~= Seq::<
                                        JsonV,
                                    >::empty());
                                    assert(texts_of(Seq::<JsonV>::empty()) =~= Seq::<
                                        Seq<char>,
                                    >::empty());
                                    assert(seq![jinner[k - 1]][0] == jinner[k - 1]);
                                    assert(texts_of(seq![jinner[k - 1]]) =~= block_text(
                                        jinner[k - 1],
                                    ) + texts_of(Seq::<JsonV>::empty()));
                                    assert(block_text(jinner[k - 1]) + Seq::<Seq<char>>::empty()
                                        =~= block_text(jinner[k - 1]));
                                    assert(crate::text::strs_view(parts@)
                                        =~= crate::text::strs_view(before) + texts_of(
                                        jinner.take(k as int),
                                    ));
                                }
                            }
                            proof {
                                crate::json::lemma_jv_seq_view(inner@);
                                assert(jv_seq_view(inner@).take(inner@.len() as int) =~= jv_seq_view(
                                    inner@,
                                ));
                            }
                        },
                        _ => {
                            proof {
                                assert(crate::text::strs_view(parts@) =~= crate::text::strs_view(
                                    before,
                                ) + item_parts(jv_view(*it)));
                            }
                        },
                    },
                    None => {
                        proof {
                            assert(crate::text::strs_view(parts@) =~= crate::text::strs_view(before)
                                + item_parts(jv_view(*it)));
                        }
                    },
                }
            } else if is_text {
                match crate::json::obj_get(ifs, "text") {
                    Some(tv) => match tv {
                        JsonValue::Text(s) => {
                            parts.push(s.clone());
                        },
                        _ => {},
                    },
                    None => {},
                }
                proof {
                    assert(crate::text::strs_view(parts@) =~= crate::text::strs_view(before)
                        + item_parts(jv_view(*it)));
                }
            } else {
                proof {
                    assert(crate::text::strs_view(parts@) =~= crate::text::strs_view(before)
                        + item_parts(jv_view(*it)));
                }
            }
        },
        _ => {
            proof {
                assert(crate::text::strs_view(parts@) =~= crate::text::strs_view(before)
                    + item_parts(jv_view(*it)));
            }
        },
    }
    proof {
        assert(crate::text::strs_view(parts@) =~= crate::text::strs_view(before) + item_parts(
            jv_view(*it),
        ));
    }
}

/// The parts joined with one newline between each two.
fn join_parts(parts: &Vec<String>) -> (r: String)
    requires
        parts@.len() > 0,
    ensures
        r@ == join_nl(crate::text::strs_view(parts@)),
{
    let mut r: String = parts[0].clone();
    let mut i: usize = 1;
    while i < parts.len()
        invariant
            1 <= i <= parts@.len(),
            r@ == join_nl(crate::text::strs_view(parts@).take(i as int)),
        decreases parts@.len() - i,
    {
        r.append("\n");
        r.append(parts[i].as_str());
        i += 1;
        proof {
            reveal_strlit("\n");
            let p = crate::text::strs_view(parts@);
            lemma_join_nl_snoc(p, i - 1);
            assert("\n"@ =~= seq!['\n']);
            assert(r@ =~= join_nl(p.take(i as int)));
        }
    }
    proof {
        let p = crate::text::strs_view(parts@);
        assert(p.take(p.len() as int) =~= p);
    }
    r
}

/// What a user record's message decodes to; it never fails.
fn decode_user_msg(m: &JsonValue) -> (r: UserMessage)
    ensures
        user_view(r) == user_msg_of(jv_view(*m)),
{
    let role: String = match m {
        JsonValue::Object(mfs) => {
            proof {
                crate::json::lemma_jv_fields_view(mfs@);
            }
            match crate::json::obj_get(mfs, "role") {
                Some(v) => match v {
                    JsonValue::Text(r) => r.clone(),
                    _ => "user".to_owned(),
                },
                None => "user".to_owned(),
            }
        },
        _ => "user".to_owned(),
    };
    let (content, is_tool_result): (String, bool) = match m {
        JsonValue::Object(mfs) => {
            match crate::json::obj_get(mfs, "content") {
                Some(c) => match c {
                    JsonValue::Text(s) => (s.clone(), false),
                    JsonValue::Array(items) => {
                        let mut parts: Vec<String> = Vec::new();
                        let mut i: usize = 0;
                        while i < items.len()
                            invariant
                                0 <= i <= items@.len(),
                                crate::text::strs_view(parts@) == user_parts(
                                    jv_seq_view(items@).take(i as int),
                                ),
                            decreases items@.len() - i,
                        {
                            proof {
                                crate::json::lemma_jv_seq_view(items@);
                            }
                            push_item_parts(&mut parts, &items[i]);
                            i += 1;
                            proof {
                                let jitems = jv_seq_view(items@);
                                assert(jitems.take(i as int) =~= jitems.take(i - 1) + seq![
                                    jitems[i - 1],
                                ]);
                                lemma_user_parts_concat(jitems.take(i - 1), seq![jitems[i - 1]]);
                                assert(seq![jitems[i - 1]].drop_first() =~= Seq::<JsonV>::empty());
                                assert(user_parts(Seq::<JsonV>::empty()) =~= Seq::<
                                    Seq<char>,
                                >::empty());
                                assert(user_parts(seq![jitems[i - 1]]) =~= item_parts(
                                    jitems[i - 1],
                                ));
                            }
                        }
                        proof {
                            crate::json::lemma_jv_seq_view(items@);
                            assert(jv_seq_view(items@).take(items@.len() as int) =~= jv_seq_view(
                                items@,
                            ));
                        }
                        if parts.len() == 0 {
                            ("[tool result]".to_owned(), true)
                        } else {
                            (join_parts(&parts), true)
                        }
                    },
                    _ => (String::new(), false),
                },
                None => (String::new(), false),
            }
        },
        _ => (String::new(), false),
    };
    UserMessage { role, content, is_tool_result }
}

/// What one assistant content block decodes to.
fn decode_block(it: &JsonValue) -> (r: Option<MessageContent>)
    ensures
        match r {
            Some(b) => block_of(jv_view(*it)) == Some(block_view(b)),
            None => block_of(jv_view(*it)) is None,
        },
{
    match it {
        JsonValue::Object(bfs) => {
            proof {
                crate::json::lemma_jv_fields_view(bfs@);
            }
            let tag: String = match crate::json::obj_get(bfs, "type") {
                Some(tv) => match tv {
                    JsonValue::Text(t) => t.clone(),
                    _ => {
                        return None;
                    },
                },
                None => {
                    return None;
                },
            };
            if crate::text::str_eq(tag.as_str(), "text") {
                match f_str(bfs, "text") {
                    Some(text) => Some(MessageContent::Text { text }),
                    None => None,
                }
            } else if crate::text::str_eq(tag.as_str(), "thinking") {
                let thinking = match f_str(bfs, "thinking") {
                    Some(t) => t,
                    None => {
                        return None;
                    },
                };
                let signature = match f_opt_str(bfs, "signature") {
                    Some(o) => o,
                    None => {
                        return None;
                    },
                };
                Some(MessageContent::Thinking { thinking, signature })
            } else if crate::text::str_eq(tag.as_str(), "tool_use") {
                let id = match f_str(bfs, "id") {
                    Some(t) => t,
                    None => {
                        return None;
                    },
                };
                let name = match f_str(bfs, "name") {
                    Some(t) => t,
                    None => {
                        return None;
                    },
                };
                let input = match crate::json::obj_get(bfs, "input") {
                    Some(v) => crate::json::json_clone(v),
                    None => {
                        return None;
                    },
                };
                Some(MessageContent::ToolUse { id, name, input })
            } else if crate::text::str_eq(tag.as_str(), "tool_result") {
                let tool_use_id = match f_str(bfs, "tool_use_id") {
                    Some(t) => t,
                    None => {
                        return None;
                    },
                };
                let content = match f_str(bfs, "content") {
                    Some(t) => t,
                    None => {
                        return None;
                    },
                };
                let is_error = match f_opt_bool(bfs, "is_error") {
                    Some(o) => o,
                    None => {
                        return None;
                    },
                };
                Some(MessageContent::ToolResult { tool_use_id, content, is_error })
            } else {
                Some(MessageContent::Unknown)
            }
        },
        _ => None,
    }
}

/// What a sequence of blocks decodes to; any malformed block fails the whole
/// sequence.
fn decode_blocks(items: &Vec<JsonValue>) -> (r: Option<Vec<MessageContent>>)
    ensures
        match r {
            Some(bs) => blocks_of(jv_seq_view(items@)) == Some(blocks_view(bs@)),
            None => blocks_of(jv_seq_view(items@)) is None,
        },
{
    let mut out: Vec<MessageContent> = Vec::new();
    let mut i: usize = 0;
    while i < items.len()
        invariant
            0 <= i <= items@.len(),
            blocks_of(jv_seq_view(items@).take(i as int)) == Some(blocks_view(out@)),
        decreases items@.len() - i,
    {
        proof {
            crate::json::lemma_jv_seq_view(items@);
        }
        match decode_block(&items[i]) {
            Some(b) => {
                out.push(b);
            },
            None => {
                proof {
                    let jitems = jv_seq_view(items@);
                    assert(jitems.take(i + 1) =~= jitems.take(i as int) + seq![jitems[i as int]]);
                    lemma_blocks_of_concat(jitems.take(i as int), seq![jitems[i as int]]);
                    assert(seq![jitems[i as int]][0] == jitems[i as int]);
                    assert(blocks_of(seq![jitems[i as int]]) is None);
                    assert(blocks_of(jitems.take(i + 1)) is None);
                    lemma_blocks_of_concat(jitems.take(i + 1), jitems.skip(i + 1));
                    assert(jitems.take(i + 1) + jitems.skip(i + 1) =~= jitems);
                    assert(blocks_of(jitems) is None);
                }
                return None;
            },
        }
        i += 1;
        proof {
            let jitems = jv_seq_view(items@);
            assert(jitems.take(i as int) =~= jitems.take(i - 1) + seq![jitems[i - 1]]);
            lemma_blocks_of_concat(jitems.take(i - 1), seq![jitems[i - 1]]);
            assert(seq![jitems[i - 1]][0] == jitems[i - 1]);
            assert(seq![jitems[i - 1]].drop_first() =~= Seq::<JsonV>::empty());
            assert(blocks_of(Seq::<JsonV>::empty()) == Some(Seq::<BlockV>::empty()));
            let b = block_of(jitems[i - 1])->0;
            assert(blocks_of(seq![jitems[i - 1]]) == Some(seq![b] + Seq::<BlockV>::empty()));
            assert(seq![b] + Seq::<BlockV>::empty() =~= seq![b]);
            assert(blocks_view(out@) =~= blocks_view(out@.drop_last()) + seq![
                block_view(out@.last()),
            ]);
            assert(blocks_of(jitems.take(i as int)) == Some(blocks_view(out@)));
        }
    }
    proof {
        crate::json::lemma_jv_seq_view(items@);
        assert(jv_seq_view(items@).take(items@.len() as int) =~= jv_seq_view(items@));
    }
    Some(out)
}

/// The usage field of an assistant message.
fn decode_usage(mfs: &Vec<(String, JsonValue)>) -> (r: Option<Option<Usage>>)
    ensures
        match r {
            Some(o) => usage_of(jv_fields_view(mfs@)) == Some(
                match o {
                    Some(u) => Some(usage_view(u)),
                    None => None,
                },
            ),
            None => usage_of(jv_fields_view(mfs@)) is None,
        },
{
    match crate::json::obj_get(mfs, "usage") {
        None => Some(None),
        Some(uv) => match uv {
            JsonValue::Null => Some(None),
            JsonValue::Object(ufs) => {
                proof {
                    crate::json::lemma_jv_fields_view(ufs@);
                }
                let input_tokens = match f_opt_u32(ufs, "input_tokens") {
                    Some(o) => o,
                    None => {
                        return None;
                    },
                };
                let output_tokens = match f_opt_u32(ufs, "output_tokens") {
                    Some(o) => o,
                    None => {
                        return None;
                    },
                };
                let cache_creation_input_tokens = match f_opt_u32(
                    ufs,
                    "cache_creation_input_tokens",
                ) {
                    Some(o) => o,
                    None => {
                        return None;
                    },
                };
                let cache_read_input_tokens = match f_opt_u32(ufs, "cache_read_input_tokens") {
                    Some(o) => o,
                    None => {
                        return None;
                    },
                };
                Some(
                    Some(
                        Usage {
                            input_tokens,
                            output_tokens,
                            cache_creation_input_tokens,
                            cache_read_input_tokens,
                        },
                    ),
                )
            },
            _ => None,
        },
    }
}

/// What an assistant record's message decodes to, or nothing when malformed.
fn decode_assistant_msg(m: &JsonValue) -> (r: Option<AssistantMessage>)
    ensures
        match r {
            Some(am) => assistant_msg_of(jv_view(*m)) == Some(assistant_view(am)),
            None => assistant_msg_of(jv_view(*m)) is None,
        },
{
    match m {
        JsonValue::Object(mfs) => {
            proof {
                crate::json::lemma_jv_fields_view(mfs@);
            }
            let model = match f_str(mfs, "model") {
                Some(t) => t,
                None => {
                    return None;
                },
            };
            let id = match f_str(mfs, "id") {
                Some(t) => t,
                None => {
                    return None;
                },
            };
            let role = match f_str(mfs, "role") {
                Some(t) => t,
                None => {
                    return None;
                },
            };
            let content = match crate::json::obj_get(mfs, "content") {
                Some(cv) => match cv {
                    JsonValue::Array(items) => match decode_blocks(items) {
                        Some(bs) => bs,
                        None => {
                            return None;
                        },
                    },
                    _ => {
                        return None;
                    },
                },
                None => {
                    return None;
                },
            };
            let stop_reason = match f_opt_str(mfs, "stop_reason") {
                Some(o) => o,
                None => {
                    return None;
                },
            };
            let stop_sequence = match f_opt_str(mfs, "stop_sequence") {
                Some(o) => o,
                None => {
                    return None;
                },
            };
            let usage = match decode_usage(mfs) {
                Some(o) => o,
                None => {
                    return None;
                },
            };
            Some(AssistantMessage { model, id, role, content, stop_reason, stop_sequence, usage })
        },
        _ => None,
    }
}

/// What one JSON tree decodes to.
pub fn entry_from_json(v: &JsonValue) -> (e: SessionEntry)
    ensures
        entry_view(e) == entry_of(jv_view(*v)),
{
    match v {
        JsonValue::Object(fs) => {
            proof {
                crate::json::lemma_jv_fields_view(fs@);
            }
            let tag: String = match crate::json::obj_get(fs, "type") {
                Some(tv) => match tv {
                    JsonValue::Text(t) => t.clone(),
                    _ => {
                        return SessionEntry::Unknown;
                    },
                },
                None => {
                    return SessionEntry::Unknown;
                },
            };
            if crate::text::str_eq(tag.as_str(), "user") {
                let base = match decode_base(fs) {
                    Some(b) => b,
                    None => {
                        return SessionEntry::Unknown;
                    },
                };
                match crate::json::obj_get(fs, "message") {
                    Some(m) => SessionEntry::User { base, message: decode_user_msg(m) },
                    None => SessionEntry::Unknown,
                }
            } else if crate::text::str_eq(tag.as_str(), "assistant") {
                let base = match decode_base(fs) {
                    Some(b) => b,
                    None => {
                        return SessionEntry::Unknown;
                    },
                };
                match crate::json::obj_get(fs, "message") {
                    Some(m) => match decode_assistant_msg(m) {
                        Some(message) => SessionEntry::Assistant { base, message },
                        None => SessionEntry::Unknown,
                    },
                    None => SessionEntry::Unknown,
                }
            } else if crate::text::str_eq(tag.as_str(), "file-history-snapshot") {
                let message_id = match f_str(fs, "messageId") {
                    Some(t) => t,
                    None => {
                        return SessionEntry::Unknown;
                    },
                };
                let snapshot = match crate::json::obj_get(fs, "snapshot") {
                    Some(sv) => crate::json::json_clone(sv),
                    None => {
                        return SessionEntry::Unknown;
                    },
                };
                let is_snapshot_update = match f_bool(fs, "isSnapshotUpdate") {
                    Some(b) => b,
                    None => {
                        return SessionEntry::Unknown;
                    },
                };
                SessionEntry::FileHistorySnapshot { message_id, snapshot, is_snapshot_update }
            } else if crate::text::str_eq(tag.as_str(), "summary") {
                let summary = match f_str(fs, "summary") {
                    Some(t) => t,
                    None => {
                        return SessionEntry::Unknown;
                    },
                };
                let leaf_uuid = match f_str(fs, "leafUuid") {
                    Some(t) => t,
                    None => {
                        return SessionEntry::Unknown;
                    },
                };
                SessionEntry::Summary { summary, leaf_uuid }
            } else {
                SessionEntry::Unknown
            }
        },
        _ => SessionEntry::Unknown,
    }
}

/// What one line of the log decodes to: a typed entry, `Unknown` for any
/// line that is not well-formed JSON.
pub fn parse_line(line: &str) -> (e: SessionEntry)
    ensures
        entry_view(e) == line_entry(line@),
{
    match crate::json::parse_json_text(line) {
        Some(v) => entry_from_json(&v),
        None => SessionEntry::Unknown,
    }
}

// ── Parsing a whole list of lines ──────────────────────────────────────

/// The lines that are not blank, in order.
pub open spec fn nonblank(lines: Seq<Seq<char>>) -> Seq<Seq<char>>
    decreases lines.len(),
{
    if lines.len() == 0 {
        Seq::empty()
    } else if crate::text::is_blank(lines[0]) {
        nonblank(lines.drop_first())
    } else {
        seq![lines[0]] + nonblank(lines.drop_first())
    }
}

/// What a list of log lines decodes to: one entry for each line that is not
/// blank, in order.
pub open spec fn lines_entries(lines: Seq<Seq<char>>) -> Seq<EntryV>
    decreases lines.len(),
{
    if lines.len() == 0 {
        Seq::empty()
    } else if crate::text::is_blank(lines[0]) {
        lines_entries(lines.drop_first())
    } else {
        seq![line_entry(lines[0])] + lines_entries(lines.drop_first())
    }
}

proof fn lemma_lines_entries_concat(s1: Seq<Seq<char>>, s2: Seq<Seq<char>>)
    ensures
        lines_entries(s1 + s2) == lines_entries(s1) + lines_entries(s2),
    decreases s1.len(),
{
    if s1.len() == 0 {
        assert(s1 + s2 =~= s2);
        assert(lines_entries(s1) + lines_entries(s2) =~= lines_entries(s2));
    } else {
        lemma_lines_entries_concat(s1.drop_first(), s2);
        assert((s1 + s2).drop_first() =~= s1.drop_first() + s2);
        assert(lines_entries(s1 + s2) =~= lines_entries(s1) + lines_entries(s2));
    }
}

proof fn lemma_nonblank_concat(s1: Seq<Seq<char>>, s2: Seq<Seq<char>>)
    ensures
        nonblank(s1 + s2) == nonblank(s1) + nonblank(s2),
    decreases s1.len(),
{
    if s1.len() == 0 {
        assert(s1 + s2 =~= s2);
        assert(nonblank(s1) + nonblank(s2) =~= nonblank(s2));
    } else {
        lemma_nonblank_concat(s1.drop_first(), s2);
        assert((s1 + s2).drop_first() =~= s1.drop_first() + s2);
        assert(nonblank(s1 + s2) =~= nonblank(s1) + nonblank(s2));
    }
}

/// No line is lost: every line that is not blank yields exactly one entry,
/// in order, and that entry is its line's decoding — for a malformed line an
/// `Unknown`, which stands for an informational record. Blank lines yield
/// nothing.
pub proof fn lemma_parse_keeps_every_line(lines: Seq<Seq<char>>)
    ensures
        lines_entries(lines).len() == nonblank(lines).len(),
        forall|i: int|
            0 <= i < nonblank(lines).len() ==> #[trigger] lines_entries(lines)[i] == line_entry(
                nonblank(lines)[i],
            ),
    decreases lines.len(),
{
    if lines.len() > 0 {
        lemma_parse_keeps_every_line(lines.drop_first());
    }
}

pub(crate) fn parse_lines(lines: &Vec<String>) -> (r: Vec<SessionEntry>)
    ensures
        entries_view(r@) == lines_entries(crate::text::strs_view(lines@)),
{
    let mut out: Vec<SessionEntry> = Vec::new();
    let mut i: usize = 0;
    while i < lines.len()
        invariant
            0 <= i <= lines@.len(),
            entries_view(out@) == lines_entries(crate::text::strs_view(lines@).take(i as int)),
        decreases lines@.len() - i,
    {
        let blank = crate::text::is_blank_str(lines[i].as_str());
        if !blank {
            let e = parse_line(lines[i].as_str());
            out.push(e);
        }
        i += 1;
        proof {
            let ls = crate::text::strs_view(lines@);
            assert(ls.take(i as int) =~= ls.take(i - 1) + seq![ls[i - 1]]);
            lemma_lines_entries_concat(ls.take(i - 1), seq![ls[i - 1]]);
            assert(seq![ls[i - 1]].drop_first() =~= Seq::<Seq<char>>::empty());
            assert(lines_entries(Seq::<Seq<char>>::empty()) =~= Seq::<EntryV>::empty());
            if !crate::text::is_blank(ls[i - 1]) {
                assert(lines_entries(seq![ls[i - 1]]) =~= seq![line_entry(ls[i - 1])]);
                assert(entries_view(out@) =~= entries_view(out@.drop_last()) + seq![
                    entry_view(out@.last()),
                ]);
            } else {
                assert(lines_entries(seq![ls[i - 1]]) =~= Seq::<EntryV>::empty());
            }
            assert(entries_view(out@) =~= lines_entries(ls.take(i as int)));
        }
    }
    proof {
        let ls = crate::text::strs_view(lines@);
        assert(ls.take(ls.len() as int) =~= ls);
    }
    out
}

/// Decodes each line that is not blank into one entry, in order; a corrupt
/// line never aborts the rest.
pub fn parse_jsonl_entries(lines: Vec<String>) -> (r: Vec<SessionEntry>)
    ensures
        entries_view(r@) == lines_entries(crate::text::strs_view(lines@)),
{
    parse_lines(&lines)
}

/// The last `n` elements, or all of them when there are fewer.
pub open spec fn tail_of<T>(s: Seq<T>, n: int) -> Seq<T> {
    if s.len() <= n {
        s
    } else {
        s.skip(s.len() - n)
    }
}

/// Decodes only the last `n` entries of the given lines: exactly the last
/// `n` elements of what the full parse of the same lines yields.
pub fn parse_last_n_entries(lines: &Vec<String>, n: usize) -> (r: Vec<SessionEntry>)
    ensures
        entries_view(r@) == tail_of(lines_entries(crate::text::strs_view(lines@)), n as int),
{
    let mut es = parse_lines(lines);
    if es.len() <= n {
        proof {
            assert(entries_view(es@) =~= tail_of(
                lines_entries(crate::text::strs_view(lines@)),
                n as int,
            ));
        }
        es
    } else {
        let at = es.len() - n;
        let tail = es.split_off(at);
        proof {
            let full = lines_entries(crate::text::strs_view(lines@));
            assert(entries_view(tail@) =~= tail_of(full, n as int));
        }
        tail
    }
}

} // verus!
