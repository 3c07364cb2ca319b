//! Reading a whole conversation out of a session log: the message-extraction
//! pass over parsed entries, and the validation of session identifiers, which
//! are opaque tokens and never filesystem paths.

use vstd::prelude::*;
use vstd::string::StringExecFns;
use vstd::string::StrSliceExecFns;
use crate::parser::{
    BlockV, EntryV, MessageContent, SessionEntry, blocks_view, entries_view, entry_view,
    lines_entries,
};
use crate::text::{contains_seq, strs_view};

verus! {

broadcast use vstd::std_specs::vec::group_vec_axioms, vstd::seq::group_seq_axioms;

/// The role a conversation message is shown under.
#[derive(Clone, Copy, Debug, PartialEq, Eq, Structural)]
#[verifier::ext_equal]
pub enum MessageType {
    User,
    Assistant,
    Thinking,
    ToolUse,
    ToolResult,
}

/// What one content block of an assistant turn contributes to the
/// conversation: its text, a thinking note, the announcement of a tool run,
/// or a tool outcome marked as result or error.
pub open spec fn block_msg(ts: Seq<char>, b: BlockV) -> Seq<(Seq<char>, MessageType, Seq<char>)> {
    match b {
        BlockV::Text { text } => seq![(ts, MessageType::Assistant, text)],
        BlockV::Thinking { thinking, .. } => seq![(ts, MessageType::Thinking, thinking)],
        BlockV::ToolUse { name, .. } => seq![
            (ts, MessageType::ToolUse, "Executing "@ + name),
        ],
        BlockV::ToolResult { tool_use_id, content, is_error } => {
            let head: Seq<char> = if is_error == Some(true) {
                "[Error] "@
            } else {
                "[Result] "@
            };
            seq![(ts, MessageType::ToolResult, head + tool_use_id + ": "@ + content)]
        },
        BlockV::Unknown => Seq::empty(),
    }
}

/// The messages of an assistant turn's blocks, in order.
pub open spec fn blocks_msgs(ts: Seq<char>, blocks: Seq<BlockV>) -> Seq<
    (Seq<char>, MessageType, Seq<char>),
>
    decreases blocks.len(),
{
    if blocks.len() == 0 {
        Seq::empty()
    } else {
        block_msg(ts, blocks[0]) + blocks_msgs(ts, blocks.drop_first())
    }
}

/// What one entry contributes: a user turn one message, under `ToolResult`
/// when it re-injects tool output; an assistant turn one message per block;
/// anything else nothing.
pub open spec fn entry_msgs(e: EntryV) -> Seq<(Seq<char>, MessageType, Seq<char>)> {
    match e {
        EntryV::User { base, message } => {
            if message.is_tool_result {
                seq![(base.timestamp, MessageType::ToolResult, message.content)]
            } else {
                seq![(base.timestamp, MessageType::User, message.content)]
            }
        },
        EntryV::Assistant { base, message } => blocks_msgs(base.timestamp, message.content),
        _ => Seq::empty(),
    }
}

/// All messages of the entries, in order.
pub open spec fn messages_of(es: Seq<EntryV>) -> Seq<(Seq<char>, MessageType, Seq<char>)>
    decreases es.len(),
{
    if es.len() == 0 {
        Seq::empty()
    } else {
        entry_msgs(es[0]) + messages_of(es.drop_first())
    }
}

/// The shapes of extracted messages.
pub open spec fn msgs_view(ms: Seq<(String, MessageType, String)>) -> Seq<
    (Seq<char>, MessageType, Seq<char>),
> {
    Seq::new(ms.len(), |i: int| (ms[i].0@, ms[i].1, ms[i].2@))
}

proof fn lemma_messages_of_concat(s1: Seq<EntryV>, s2: Seq<EntryV>)
    ensures
        messages_of(s1 + s2) == messages_of(s1) + messages_of(s2),
    decreases s1.len(),
{
    if s1.len() == 0 {
        assert(s1 + s2 =~= s2);
        assert(messages_of(s1) + messages_of(s2) =~= messages_of(s2));
    } else {
        lemma_messages_of_concat(s1.drop_first(), s2);
        assert((s1 + s2).drop_first() =~= s1.drop_first() + s2);
        assert(messages_of(s1 + s2) =~= messages_of(s1) + messages_of(s2));
    }
}

proof fn lemma_blocks_msgs_concat(ts: Seq<char>, s1: Seq<BlockV>, s2: Seq<BlockV>)
    ensures
        blocks_msgs(ts, s1 + s2) == blocks_msgs(ts, s1) + blocks_msgs(ts, s2),
    decreases s1.len(),
{
    if s1.len() == 0 {
        assert(s1 + s2 =~= s2);
        assert(blocks_msgs(ts, s1) + blocks_msgs(ts, s2) =~= blocks_msgs(ts, s2));
    } else {
        lemma_blocks_msgs_concat(ts, s1.drop_first(), s2);
        assert((s1 + s2).drop_first() =~= s1.drop_first() + s2);
        assert(blocks_msgs(ts, s1 + s2) =~= blocks_msgs(ts, s1) + blocks_msgs(ts, s2));
    }
}

/// Appends the message one content block contributes.
fn push_block_msg(out: &mut Vec<(String, MessageType, String)>, ts: &String, b: &MessageContent)
    ensures
        msgs_view(final(out)@) == msgs_view(old(out)@) + block_msg(
            ts@,
            crate::parser::block_view(*b),
        ),
{
    proof {
        reveal_strlit("Executing ");
        reveal_strlit("[Error] ");
        reveal_strlit("[Result] ");
        reveal_strlit(": ");
    }
    let ghost before = out@;
    match b {
        MessageContent::Text { text } => {
            out.push((ts.clone(), MessageType::Assistant, text.clone()));
        },
        MessageContent::Thinking { thinking, .. } => {
            out.push((ts.clone(), MessageType::Thinking, thinking.clone()));
        },
        MessageContent::ToolUse { name, .. } => {
            let desc = "Executing ".to_owned().concat(name.as_str());
            out.push((ts.clone(), MessageType::ToolUse, desc));
        },
        MessageContent::ToolResult { tool_use_id, content, is_error } => {
            let err = match is_error {
                Some(e) => *e,
                None => false,
            };
            let head: String = if err {
                "[Error] ".to_owned()
            } else {
                "[Result] ".to_owned()
            };
            let desc = head.concat(tool_use_id.as_str()).concat(": ").concat(content.as_str());
            out.push((ts.clone(), MessageType::ToolResult, desc));
        },
        MessageContent::Unknown => {},
    }
    proof {
        assert(msgs_view(out@) =~~= msgs_view(before) + block_msg(
            ts@,
            crate::parser::block_view(*b),
        ));
    }
}

/// Appends the messages of one entry.
fn push_entry_msgs(out: &mut Vec<(String, MessageType, String)>, e: &SessionEntry)
    ensures
        msgs_view(final(out)@) == msgs_view(old(out)@) + entry_msgs(entry_view(*e)),
{
    let ghost before = out@;
    match e {
        SessionEntry::User { base, message } => {
            let ty = if message.is_tool_result {
                MessageType::ToolResult
            } else {
                MessageType::User
            };
            out.push((base.timestamp.clone(), ty, message.content.clone()));
            proof {
                assert(msgs_view(out@) =~~= msgs_view(before) + entry_msgs(entry_view(*e)));
            }
        },
        SessionEntry::Assistant { base, message } => {
            let content = &message.content;
            let mut i: usize = 0;
            while i < content.len()
                invariant
                    0 <= i <= content@.len(),
                    msgs_view(out@) == msgs_view(before) + blocks_msgs(
                        base.timestamp@,
                        blocks_view(content@).take(i as int),
                    ),
                decreases content@.len() - i,
            {
                push_block_msg(out, &base.timestamp, &content[i]);
                i += 1;
                proof {
                    let bs = blocks_view(content@);
                    assert(bs.take(i as int) =~= bs.take(i - 1) + seq![bs[i - 1]]);
                    lemma_blocks_msgs_concat(base.timestamp@, bs.take(i - 1), seq![bs[i - 1]]);
                    assert(seq![bs[i - 1]].drop_first() =~= Seq::<BlockV>::empty());
                    assert(blocks_msgs(base.timestamp@, Seq::<BlockV>::empty()) =~= Seq::<
                        (Seq<char>, MessageType, Seq<char>),
                    >::empty());
                    assert(seq![bs[i - 1]][0] == bs[i - 1]);
                    assert(blocks_msgs(base.timestamp@, seq![bs[i - 1]]) =~= block_msg(
                        base.timestamp@,
                        bs[i - 1],
                    ));
                    assert(msgs_view(out@) =~~= msgs_view(before) + blocks_msgs(
                        base.timestamp@,
                        bs.take(i as int),
                    ));
                }
            }
            proof {
                assert(blocks_view(content@).take(content@.len() as int) =~= blocks_view(
                    content@,
                ));
            }
        },
        _ => {},
    }
    proof {
        assert(msgs_view(out@) =~~= msgs_view(before) + entry_msgs(entry_view(*e)));
    }
}

/// All user and assistant messages of the entries, in order, each with its
/// timestamp and role.
pub fn extract_messages(entries: &[SessionEntry]) -> (r: Vec<(String, MessageType, String)>)
    ensures
        msgs_view(r@) == messages_of(entries_view(entries@)),
{
    let mut out: Vec<(String, MessageType, String)> = Vec::new();
    let mut i: usize = 0;
    while i < entries.len()
        invariant
            0 <= i <= entries@.len(),
            msgs_view(out@) == messages_of(entries_view(entries@).take(i as int)),
        decreases entries@.len() - i,
    {
        push_entry_msgs(&mut out, &entries[i]);
        i += 1;
        proof {
            let es = entries_view(entries@);
            assert(es.take(i as int) =~= es.take(i - 1) + seq![es[i - 1]]);
            lemma_messages_of_concat(es.take(i - 1), seq![es[i - 1]]);
            assert(seq![es[i - 1]].drop_first() =~= Seq::<EntryV>::empty());
            assert(messages_of(Seq::<EntryV>::empty()) =~= Seq::<
                (Seq<char>, MessageType, Seq<char>),
            >::empty());
            assert(seq![es[i - 1]][0] == es[i - 1]);
            assert(messages_of(seq![es[i - 1]]) =~= entry_msgs(es[i - 1]));
            assert(msgs_view(out@) =~= messages_of(es.take(i as int)));
        }
    }
    proof {
        let es = entries_view(entries@);
        assert(es.take(es.len() as int) =~= es);
    }
    out
}

/// A session identifier is acceptable only as an opaque token: not empty,
/// holding no path separator of either kind and no ".." run.
pub open spec fn valid_session_id(id: Seq<char>) -> bool {
    &&& id.len() > 0
    &&& !id.contains('/')
    &&& !id.contains('\\')
    &&& !contains_seq(id, ".."@)
}

/// Checks a session identifier before anything touches the filesystem:
/// exactly the acceptable identifiers pass, and everything else is refused
/// with a fixed validation error.
pub fn validate_session_id(session_id: &str) -> (r: Result<(), String>)
    ensures
        r is Ok <==> valid_session_id(session_id@),
        r matches Err(m) ==> m@ == "Invalid session ID format"@,
{
    proof {
        reveal_strlit("..");
    }
    let n = session_id.unicode_len();
    if n == 0 || crate::text::str_contains_char(session_id, '/') || crate::text::str_contains_char(
        session_id,
        '\\',
    ) || crate::text::str_contains(session_id, "..") {
        Err("Invalid session ID format".to_owned())
    } else {
        Ok(())
    }
}

/// A whole conversation: the session's identifier and its messages.
pub struct Conversation {
    pub session_id: String,
    pub messages: Vec<ConversationMessage>,
}

/// One message of a conversation.
pub struct ConversationMessage {
    pub timestamp: String,
    pub message_type: MessageType,
    pub content: String,
}

/// The shapes of conversation messages.
pub open spec fn conv_msgs_view(ms: Seq<ConversationMessage>) -> Seq<
    (Seq<char>, MessageType, Seq<char>),
> {
    Seq::new(ms.len(), |i: int| (ms[i].timestamp@, ms[i].message_type, ms[i].content@))
}

/// The conversation the given log lines hold, under the given identifier:
/// the full parse of the lines, passed through message extraction.
pub fn conversation_from_lines(session_id: String, lines: &Vec<String>) -> (r: Conversation)
    ensures
        r.session_id@ == session_id@,
        conv_msgs_view(r.messages@) == messages_of(lines_entries(strs_view(lines@))),
{
    let entries = crate::parser::parse_lines(lines);
    let msgs = extract_messages(entries.as_slice());
    let mut out: Vec<ConversationMessage> = Vec::new();
    let mut i: usize = 0;
    while i < msgs.len()
        invariant
            0 <= i <= msgs@.len(),
            out@.len() == i,
            conv_msgs_view(out@) == msgs_view(msgs@).take(i as int),
        decreases msgs@.len() - i,
    {
        let m = &msgs[i];
        proof {
            assert(*m == msgs@[i as int]);
        }
        let (timestamp, message_type, content) = (m.0.clone(), m.1, m.2.clone());
        out.push(ConversationMessage { timestamp, message_type, content });
        i += 1;
        proof {
            assert(conv_msgs_view(out@) =~~= msgs_view(msgs@).take(i as int));
        }
    }
    proof {
        assert(msgs_view(msgs@).take(msgs@.len() as int) =~= msgs_view(msgs@));
    }
    Conversation { session_id, messages: out }
}

} // verus!
