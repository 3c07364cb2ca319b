//! The status inference engine: a pure rule over the most recent entries of
//! one session's log, the permission policy, and the clock. Wall-clock
//! recency stands in for an explicit turn-completion signal, which the log
//! format does not carry: a deliberate heuristic, not a protocol guarantee.

use vstd::prelude::*;
use crate::parser::{
    AssistantV, BlockV, EntryV, MessageContent, SessionEntry, assistant_view, blocks_view,
    entries_view, entry_view,
};
use crate::permissions::{PatternV, PermissionChecker, approved_spec, patterns_view};

verus! {

broadcast use vstd::std_specs::vec::group_vec_axioms, vstd::seq::group_seq_axioms;

/// Seconds within which a turn-initiation signal (a user prompt or a tool
/// result handed back) still counts as fresh.
pub const TURN_RECENT_SECS: i64 = 30;

/// Seconds within which in-flight generation or tool activity still counts
/// as fresh.
pub const FLIGHT_RECENT_SECS: i64 = 20;

/// The current status of one session.
#[derive(Clone, Copy, Debug, PartialEq, Eq, Structural)]
pub enum SessionStatus {
    /// The agent is actively executing tools or generating.
    Working,
    /// Waiting for human approval to run a tool.
    NeedsPermission,
    /// Idle, ready for the next prompt.
    WaitingForInput,
    /// Starting up, or no data yet.
    Connecting,
}

/// What a timestamp text reads to as an epoch second, or nothing when it is
/// not a well-formed RFC 3339 timestamp. The result is fixed by the text
/// alone.
pub uninterp spec fn epoch_of(ts: Seq<char>) -> Option<i64>;

/// Relies on chrono::DateTime::parse_from_rfc3339 and its timestamp method:
/// an RFC 3339 timestamp text reads to its epoch second, depending on the
/// text alone.
#[verifier::external_body]
fn rfc3339_epoch_seconds(ts: &str) -> (r: Option<i64>)
    ensures
        r == epoch_of(ts@),
{
    match chrono::DateTime::parse_from_rfc3339(ts) {
        Ok(t) => Some(t.timestamp()),
        Err(_) => None,
    }
}

/// A timestamp is recent when it reads to an epoch second less than `secs`
/// before `now`; one that cannot be read is never recent.
pub open spec fn is_recent(ts: Seq<char>, secs: int, now: int) -> bool {
    match epoch_of(ts) {
        Some(t) => now - t < secs,
        None => false,
    }
}

/// True exactly when the timestamp is recent.
fn entry_recent(ts: &str, secs: i64, now: i64) -> (r: bool)
    ensures
        r == is_recent(ts@, secs as int, now as int),
{
    match rfc3339_epoch_seconds(ts) {
        Some(t) => (now as i128) - (t as i128) < (secs as i128),
        None => false,
    }
}

/// An entry that carries turn-taking information: a user or assistant turn.
pub open spec fn is_meaningful(e: EntryV) -> bool {
    e is User || e is Assistant
}

/// The index of the last meaningful entry, or `-1` when there is none.
pub open spec fn last_meaningful_idx(es: Seq<EntryV>) -> int
    decreases es.len(),
{
    if es.len() == 0 {
        -1
    } else if is_meaningful(es.last()) {
        es.len() - 1
    } else {
        last_meaningful_idx(es.drop_last())
    }
}

proof fn lemma_last_meaningful_at(es: Seq<EntryV>, k: int)
    requires
        0 <= k < es.len(),
        is_meaningful(es[k]),
        forall|j: int| k < j < es.len() ==> !is_meaningful(#[trigger] es[j]),
    ensures
        last_meaningful_idx(es) == k,
    decreases es.len(),
{
    if k == es.len() - 1 {
    } else {
        lemma_last_meaningful_at(es.drop_last(), k);
    }
}

proof fn lemma_last_meaningful_none(es: Seq<EntryV>)
    requires
        forall|j: int| 0 <= j < es.len() ==> !is_meaningful(#[trigger] es[j]),
    ensures
        last_meaningful_idx(es) == -1,
    decreases es.len(),
{
    if es.len() > 0 {
        lemma_last_meaningful_none(es.drop_last());
    }
}

proof fn lemma_last_meaningful_bounds(es: Seq<EntryV>)
    ensures
        -1 <= last_meaningful_idx(es) < es.len(),
        last_meaningful_idx(es) >= 0 ==> is_meaningful(es[last_meaningful_idx(es)]),
        forall|j: int|
            last_meaningful_idx(es) < j < es.len() ==> !is_meaningful(#[trigger] es[j]),
    decreases es.len(),
{
    if es.len() > 0 && !is_meaningful(es.last()) {
        lemma_last_meaningful_bounds(es.drop_last());
        assert forall|j: int|
            last_meaningful_idx(es) < j < es.len() implies !is_meaningful(#[trigger] es[j]) by {
            if j < es.len() - 1 {
                assert(es.drop_last()[j] == es[j]);
            }
        }
    }
}

/// Whether the content holds any tool invocation.
pub open spec fn has_tool_use(content: Seq<BlockV>) -> bool {
    exists|j: int| 0 <= j < content.len() && (#[trigger] content[j]) is ToolUse
}

/// Whether some outcome block in the same content answers the invocation
/// with the given id. Outcomes are matched purely by id equality within one
/// turn's content; ids of other turns never match.
pub open spec fn tool_completed(content: Seq<BlockV>, id: Seq<char>) -> bool {
    exists|j: int|
        0 <= j < content.len() && ((#[trigger] content[j]) matches BlockV::ToolResult {
            tool_use_id,
            ..
        } && tool_use_id == id)
}

/// Whether every tool invocation in the content has a matching outcome.
pub open spec fn all_tools_completed(content: Seq<BlockV>) -> bool {
    forall|j: int|
        0 <= j < content.len() ==> match #[trigger] content[j] {
            BlockV::ToolUse { id, .. } => tool_completed(content, id),
            _ => true,
        }
}

/// Whether every pending invocation — one with no matching outcome — is
/// approved by the policy.
pub open spec fn pending_tools_approved(ps: Seq<PatternV>, content: Seq<BlockV>) -> bool {
    forall|j: int|
        0 <= j < content.len() ==> match #[trigger] content[j] {
            BlockV::ToolUse { id, name, input } => tool_completed(content, id) || approved_spec(
                ps,
                name,
                input,
            ),
            _ => true,
        }
}

/// Whether the message holds a pending invocation: a tool use with no
/// matching outcome in the same turn.
pub open spec fn has_pending_tools(content: Seq<BlockV>) -> bool {
    has_tool_use(content) && !all_tools_completed(content)
}

/// What an assistant message alone says: a pending unapproved tool demands
/// permission at once; pending approved tools are work in progress. With no
/// invocation pending the message alone settles nothing — the log carries no
/// reliable turn-completion marker, so recency alone classifies that case.
pub open spec fn analyze_spec(ps: Seq<PatternV>, m: AssistantV) -> SessionStatus {
    if has_pending_tools(m.content) {
        if pending_tools_approved(ps, m.content) {
            SessionStatus::Working
        } else {
            SessionStatus::NeedsPermission
        }
    } else {
        SessionStatus::Working
    }
}

/// The inferred status of a session from its most recent entries: empty or
/// all-informational windows are still connecting; a fresh user turn means
/// work in progress and a stale one idleness; an assistant turn with a
/// pending invocation is working when every pending tool is approved and
/// demands permission otherwise, with no recency delay. An assistant turn
/// with nothing pending — every invocation answered, or none made — is
/// classified by recency only: the log carries no reliable turn-completion
/// marker. Informational entries after the last turn are skipped, never
/// treated as turn boundaries; writes they cause to the log file are caught
/// by the poll loop's file-touch override instead.
pub open spec fn infer_spec(ps: Seq<PatternV>, es: Seq<EntryV>, now: int) -> SessionStatus {
    if es.len() == 0 {
        SessionStatus::Connecting
    } else {
        let k = last_meaningful_idx(es);
        if k < 0 {
            SessionStatus::Connecting
        } else {
            match es[k] {
                EntryV::User { base, message } => {
                    if is_recent(base.timestamp, TURN_RECENT_SECS as int, now) {
                        SessionStatus::Working
                    } else {
                        SessionStatus::WaitingForInput
                    }
                },
                EntryV::Assistant { base, message } => {
                    if has_pending_tools(message.content) {
                        analyze_spec(ps, message)
                    } else {
                        if is_recent(base.timestamp, FLIGHT_RECENT_SECS as int, now) {
                            SessionStatus::Working
                        } else {
                            SessionStatus::WaitingForInput
                        }
                    }
                },
                _ => SessionStatus::WaitingForInput,
            }
        }
    }
}

/// Whether any block of the content is a tool invocation.
fn content_has_tool_use(content: &Vec<MessageContent>) -> (r: bool)
    ensures
        r == has_tool_use(blocks_view(content@)),
{
    let mut i: usize = 0;
    while i < content.len()
        invariant
            0 <= i <= content@.len(),
            forall|j: int| 0 <= j < i ==> !(#[trigger] blocks_view(content@)[j] is ToolUse),
        decreases content@.len() - i,
    {
        match &content[i] {
            MessageContent::ToolUse { .. } => {
                proof {
                    assert(blocks_view(content@)[i as int] is ToolUse);
                }
                return true;
            },
            _ => {},
        }
        i += 1;
    }
    false
}

/// Whether some outcome block answers the invocation with the given id.
fn content_tool_completed(content: &Vec<MessageContent>, id: &str) -> (r: bool)
    ensures
        r == tool_completed(blocks_view(content@), id@),
{
    let mut i: usize = 0;
    while i < content.len()
        invariant
            0 <= i <= content@.len(),
            forall|j: int|
                0 <= j < i ==> !((#[trigger] blocks_view(content@)[j]) matches BlockV::ToolResult {
                    tool_use_id,
                    ..
                } && tool_use_id == id@),
        decreases content@.len() - i,
    {
        match &content[i] {
            MessageContent::ToolResult { tool_use_id, .. } => {
                if crate::text::str_eq(tool_use_id.as_str(), id) {
                    proof {
                        assert((blocks_view(content@)[i as int]) matches BlockV::ToolResult {
                            tool_use_id,
                            ..
                        } && tool_use_id == id@);
                    }
                    return true;
                }
            },
            _ => {},
        }
        i += 1;
    }
    false
}

/// Whether every tool invocation in the content has a matching outcome.
pub fn check_all_tools_completed(content: &Vec<MessageContent>) -> (r: bool)
    ensures
        r == all_tools_completed(blocks_view(content@)),
{
    let mut i: usize = 0;
    while i < content.len()
        invariant
            0 <= i <= content@.len(),
            forall|j: int|
                0 <= j < i ==> match #[trigger] blocks_view(content@)[j] {
                    BlockV::ToolUse { id, .. } => tool_completed(blocks_view(content@), id),
                    _ => true,
                },
        decreases content@.len() - i,
    {
        match &content[i] {
            MessageContent::ToolUse { id, .. } => {
                let done = content_tool_completed(content, id.as_str());
                if !done {
                    proof {
                        assert(blocks_view(content@)[i as int] matches BlockV::ToolUse { id: i2, .. }
                            && !tool_completed(blocks_view(content@), i2));
                    }
                    return false;
                }
            },
            _ => {},
        }
        i += 1;
    }
    true
}

/// Whether every pending invocation is approved by the policy.
fn pending_approved(checker: &PermissionChecker, content: &Vec<MessageContent>) -> (r: bool)
    ensures
        r == pending_tools_approved(
            patterns_view(checker.allowed_patterns@),
            blocks_view(content@),
        ),
{
    let mut i: usize = 0;
    while i < content.len()
        invariant
            0 <= i <= content@.len(),
            forall|j: int|
                0 <= j < i ==> match #[trigger] blocks_view(content@)[j] {
                    BlockV::ToolUse { id, name, input } => tool_completed(
                        blocks_view(content@),
                        id,
                    ) || approved_spec(patterns_view(checker.allowed_patterns@), name, input),
                    _ => true,
                },
        decreases content@.len() - i,
    {
        match &content[i] {
            MessageContent::ToolUse { id, name, input } => {
                let done = content_tool_completed(content, id.as_str());
                if !done {
                    let ok = checker.is_auto_approved(name.as_str(), input);
                    if !ok {
                        proof {
                            assert(blocks_view(content@)[i as int] matches BlockV::ToolUse {
                                id: i2,
                                name: n2,
                                input: in2,
                            } && !tool_completed(blocks_view(content@), i2) && !approved_spec(
                                patterns_view(checker.allowed_patterns@),
                                n2,
                                in2,
                            ));
                        }
                        return false;
                    }
                }
            },
            _ => {},
        }
        i += 1;
    }
    true
}

/// What the last assistant message alone says of the session.
fn analyze_assistant_message(checker: &PermissionChecker, message: &crate::parser::AssistantMessage)
    -> (r: SessionStatus)
    ensures
        r == analyze_spec(patterns_view(checker.allowed_patterns@), assistant_view(*message)),
{
    if content_has_tool_use(&message.content) && !check_all_tools_completed(&message.content) {
        if pending_approved(checker, &message.content) {
            SessionStatus::Working
        } else {
            SessionStatus::NeedsPermission
        }
    } else {
        SessionStatus::Working
    }
}

/// The inferred status of the session whose most recent entries, permission
/// policy and clock are given. On an empty window, or one holding no user
/// or assistant turn, the session is still connecting.
pub fn determine_status(entries: &[SessionEntry], checker: &PermissionChecker, now_s: i64) -> (r:
    SessionStatus)
    ensures
        r == infer_spec(
            patterns_view(checker.allowed_patterns@),
            entries_view(entries@),
            now_s as int,
        ),
        entries@.len() == 0 ==> r == SessionStatus::Connecting,
        (forall|j: int|
            0 <= j < entries@.len() ==> !is_meaningful(
                #[trigger] entries_view(entries@)[j],
            )) ==> r == SessionStatus::Connecting,
{
    if entries.len() == 0 {
        return SessionStatus::Connecting;
    }
    let mut i: usize = entries.len();
    while i > 0
        invariant
            0 <= i <= entries@.len(),
            forall|j: int|
                i <= j < entries@.len() ==> !is_meaningful(#[trigger] entries_view(entries@)[j]),
        decreases i,
    {
        match &entries[i - 1] {
            SessionEntry::User { base, message } => {
                proof {
                    lemma_last_meaningful_at(entries_view(entries@), i - 1);
                }
                let recent = entry_recent(base.timestamp.as_str(), TURN_RECENT_SECS, now_s);
                if recent {
                    return SessionStatus::Working;
                } else {
                    return SessionStatus::WaitingForInput;
                }
            },
            SessionEntry::Assistant { base, message } => {
                proof {
                    lemma_last_meaningful_at(entries_view(entries@), i - 1);
                }
                let pending = content_has_tool_use(&message.content)
                    && !check_all_tools_completed(&message.content);
                if pending {
                    return analyze_assistant_message(checker, message);
                }
                if entry_recent(base.timestamp.as_str(), FLIGHT_RECENT_SECS, now_s) {
                    return SessionStatus::Working;
                } else {
                    return SessionStatus::WaitingForInput;
                }
            },
            _ => {},
        }
        i -= 1;
    }
    proof {
        lemma_last_meaningful_none(entries_view(entries@));
    }
    SessionStatus::Connecting
}

/// The index of the last assistant entry, or `-1` when there is none.
pub open spec fn last_assistant_idx(es: Seq<EntryV>) -> int
    decreases es.len(),
{
    if es.len() == 0 {
        -1
    } else if es.last() is Assistant {
        es.len() - 1
    } else {
        last_assistant_idx(es.drop_last())
    }
}

proof fn lemma_last_assistant_at(es: Seq<EntryV>, k: int)
    requires
        0 <= k < es.len(),
        es[k] is Assistant,
        forall|j: int| k < j < es.len() ==> !((#[trigger] es[j]) is Assistant),
    ensures
        last_assistant_idx(es) == k,
    decreases es.len(),
{
    if k == es.len() - 1 {
    } else {
        lemma_last_assistant_at(es.drop_last(), k);
    }
}

proof fn lemma_last_assistant_none(es: Seq<EntryV>)
    requires
        forall|j: int| 0 <= j < es.len() ==> !((#[trigger] es[j]) is Assistant),
    ensures
        last_assistant_idx(es) == -1,
    decreases es.len(),
{
    if es.len() > 0 {
        lemma_last_assistant_none(es.drop_last());
    }
}

/// The name of the first invocation from index `j` on that has no matching
/// outcome and is not approved by the policy.
pub open spec fn first_unapproved_pending(ps: Seq<PatternV>, content: Seq<BlockV>, j: int) -> Option<
    Seq<char>,
>
    decreases content.len() - j,
{
    if j < 0 || j >= content.len() {
        None
    } else {
        match content[j] {
            BlockV::ToolUse { id, name, input } => {
                if !tool_completed(content, id) && !approved_spec(ps, name, input) {
                    Some(name)
                } else {
                    first_unapproved_pending(ps, content, j + 1)
                }
            },
            _ => first_unapproved_pending(ps, content, j + 1),
        }
    }
}

/// The name the pending-tool lookup yields: the first invocation of the last
/// assistant message that has no matching outcome and is not approved.
pub open spec fn pending_tool_name_spec(ps: Seq<PatternV>, es: Seq<EntryV>) -> Option<Seq<char>> {
    let k = last_assistant_idx(es);
    if k < 0 {
        None
    } else {
        match es[k] {
            EntryV::Assistant { message, .. } => first_unapproved_pending(ps, message.content, 0),
            _ => None,
        }
    }
}

/// The name of the first pending tool of the last assistant message that
/// needs permission, or nothing when no assistant message exists, no tool is
/// pending, or every pending tool is approved.
pub fn get_pending_tool_name(entries: &[SessionEntry], checker: &PermissionChecker) -> (r: Option<
    String,
>)
    ensures
        match r {
            Some(name) => pending_tool_name_spec(
                patterns_view(checker.allowed_patterns@),
                entries_view(entries@),
            ) == Some(name@),
            None => pending_tool_name_spec(
                patterns_view(checker.allowed_patterns@),
                entries_view(entries@),
            ) is None,
        },
{
    let mut i: usize = entries.len();
    while i > 0
        invariant
            0 <= i <= entries@.len(),
            forall|j: int|
                i <= j < entries@.len() ==> !((#[trigger] entries_view(entries@)[j]) is Assistant),
        decreases i,
    {
        match &entries[i - 1] {
            SessionEntry::Assistant { message, .. } => {
                proof {
                    lemma_last_assistant_at(entries_view(entries@), i - 1);
                }
                let content = &message.content;
                let mut j: usize = 0;
                while j < content.len()
                    invariant
                        0 <= j <= content@.len(),
                        1 <= i <= entries@.len(),
                        last_assistant_idx(entries_view(entries@)) == i - 1,
                        entries_view(entries@)[last_assistant_idx(entries_view(entries@))]
                            matches EntryV::Assistant { message: m2, .. } && m2.content
                            == blocks_view(content@),
                        first_unapproved_pending(
                            patterns_view(checker.allowed_patterns@),
                            blocks_view(content@),
                            0,
                        ) == first_unapproved_pending(
                            patterns_view(checker.allowed_patterns@),
                            blocks_view(content@),
                            j as int,
                        ),
                    decreases content@.len() - j,
                {
                    match &content[j] {
                        MessageContent::ToolUse { id, name, input } => {
                            let done = content_tool_completed(content, id.as_str());
                            if !done {
                                let ok = checker.is_auto_approved(name.as_str(), input);
                                if !ok {
                                    proof {
                                        assert(blocks_view(content@)[j as int]
                                            matches BlockV::ToolUse { id: i2, name: n2, input: in2 }
                                            && !tool_completed(blocks_view(content@), i2)
                                            && !approved_spec(
                                            patterns_view(checker.allowed_patterns@),
                                            n2,
                                            in2,
                                        ));
                                        assert(first_unapproved_pending(
                                            patterns_view(checker.allowed_patterns@),
                                            blocks_view(content@),
                                            j as int,
                                        ) == Some(name@));
                                    }
                                    return Some(name.clone());
                                }
                            }
                        },
                        _ => {},
                    }
                    j += 1;
                }
                return None;
            },
            _ => {},
        }
        i -= 1;
    }
    proof {
        lemma_last_assistant_none(entries_view(entries@));
    }
    None
}

/// What the window says with a little more context: a window of two entries
/// or fewer is still connecting, and a finished text-only assistant turn
/// right after another assistant turn counts as idle even when fresh.
pub open spec fn infer_ctx_spec(ps: Seq<PatternV>, es: Seq<EntryV>, now: int) -> SessionStatus {
    if es.len() <= 2 {
        SessionStatus::Connecting
    } else {
        let basic = infer_spec(ps, es, now);
        if basic == SessionStatus::Working {
            match (es[es.len() - 1], es[es.len() - 2]) {
                (EntryV::Assistant { message: m_last, .. }, EntryV::Assistant { .. }) => {
                    if !has_tool_use(m_last.content) && m_last.stop_reason is Some {
                        SessionStatus::WaitingForInput
                    } else {
                        basic
                    }
                },
                _ => basic,
            }
        } else {
            basic
        }
    }
}

/// The inferred status with additional context from the neighboring entries.
pub fn determine_status_with_context(
    entries: &[SessionEntry],
    checker: &PermissionChecker,
    now_s: i64,
) -> (r: SessionStatus)
    ensures
        r == infer_ctx_spec(
            patterns_view(checker.allowed_patterns@),
            entries_view(entries@),
            now_s as int,
        ),
{
    if entries.len() <= 2 {
        return SessionStatus::Connecting;
    }
    let basic = determine_status(entries, checker, now_s);
    if matches!(basic, SessionStatus::Working) {
        let n = entries.len();
        match (&entries[n - 1], &entries[n - 2]) {
            (
                SessionEntry::Assistant { message: m_last, .. },
                SessionEntry::Assistant { .. },
            ) => {
                let last_has_tools = content_has_tool_use(&m_last.content);
                let has_stop = match &m_last.stop_reason {
                    Some(_) => true,
                    None => false,
                };
                if !last_has_tools && has_stop {
                    SessionStatus::WaitingForInput
                } else {
                    basic
                }
            },
            _ => basic,
        }
    } else {
        basic
    }
}

/// With nothing pending in the last turn — every invocation answered, or
/// none made — the classification goes by recency alone: a fresh turn means
/// work in progress and a stale one idleness, whatever else the message
/// carries.
pub proof fn lemma_settled_turn_goes_by_recency_alone(
    ps: Seq<PatternV>,
    es: Seq<EntryV>,
    now: int,
)
    requires
        0 <= last_meaningful_idx(es),
        es[last_meaningful_idx(es)] matches EntryV::Assistant { message, .. }
            && !has_pending_tools(message.content),
    ensures
        es[last_meaningful_idx(es)] matches EntryV::Assistant { base, .. } ==> infer_spec(
            ps,
            es,
            now,
        ) == (if is_recent(base.timestamp, FLIGHT_RECENT_SECS as int, now) {
            SessionStatus::Working
        } else {
            SessionStatus::WaitingForInput
        }),
{
    if es.len() == 0 {
        assert(last_meaningful_idx(es) == -1);
    }
}

/// A pending tool invocation whose tool the policy does not approve forces
/// `NeedsPermission`, whatever the state of the other pending invocations in
/// the same turn and however fresh the turn is.
pub proof fn lemma_unapproved_pending_forces_permission(
    ps: Seq<PatternV>,
    es: Seq<EntryV>,
    now: int,
    j: int,
)
    requires
        0 <= last_meaningful_idx(es),
        es[last_meaningful_idx(es)] matches EntryV::Assistant { message, .. }
            && 0 <= j < message.content.len() && (message.content[j] matches BlockV::ToolUse {
            id,
            name,
            input,
        } && !tool_completed(message.content, id) && !approved_spec(ps, name, input)),
    ensures
        infer_spec(ps, es, now) == SessionStatus::NeedsPermission,
{
    let k = last_meaningful_idx(es);
    match es[k] {
        EntryV::Assistant { base, message } => {
            assert(has_tool_use(message.content)) by {
                assert(message.content[j] is ToolUse);
            }
            assert(!all_tools_completed(message.content));
            assert(!pending_tools_approved(ps, message.content));
            assert(analyze_spec(ps, message) == SessionStatus::NeedsPermission);
        },
        _ => {
            assert(false);
        },
    }
}

} // verus!
