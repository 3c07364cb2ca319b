//! The cached sessions index a project directory may hold: precomputed
//! metadata the correlator and the enrichment treat as an optimization,
//! never a requirement — its absence degrades to scanning the raw log.

use vstd::prelude::*;
use crate::json::{JsonV, JsonValue, jv_view, jv_seq_view, jv_fields_view, lookup_field, json_tree};
use crate::parser::{opt_view, str_field, opt_str_field, bool_field};
use crate::correlate::{IndexProjectEntry, ipes_view};

verus! {

broadcast use vstd::std_specs::vec::group_vec_axioms, vstd::seq::group_seq_axioms;

/// The sessions index file: its version and its entries.
pub struct SessionsIndex {
    pub version: u32,
    pub entries: Vec<SessionIndexEntry>,
}

/// One entry of the sessions index.
pub struct SessionIndexEntry {
    pub session_id: String,
    pub full_path: String,
    pub file_mtime: u64,
    pub first_prompt: String,
    pub summary: Option<String>,
    pub message_count: u32,
    pub created: String,
    pub modified: String,
    pub git_branch: String,
    pub project_path: String,
    pub is_sidechain: bool,
}

/// The mathematical shape of one index entry.
#[verifier::ext_equal]
pub struct IndexEntryV {
    pub session_id: Seq<char>,
    pub full_path: Seq<char>,
    pub file_mtime: u64,
    pub first_prompt: Seq<char>,
    pub summary: Option<Seq<char>>,
    pub message_count: u32,
    pub created: Seq<char>,
    pub modified: Seq<char>,
    pub git_branch: Seq<char>,
    pub project_path: Seq<char>,
    pub is_sidechain: bool,
}

/// The mathematical shape of one index entry.
pub open spec fn index_entry_view(e: SessionIndexEntry) -> IndexEntryV {
    IndexEntryV {
        session_id: e.session_id@,
        full_path: e.full_path@,
        file_mtime: e.file_mtime,
        first_prompt: e.first_prompt@,
        summary: opt_view(e.summary),
        message_count: e.message_count,
        created: e.created@,
        modified: e.modified@,
        git_branch: e.git_branch@,
        project_path: e.project_path@,
        is_sidechain: e.is_sidechain,
    }
}

/// The shapes of the entries, in order.
pub open spec fn index_entries_view(es: Seq<SessionIndexEntry>) -> Seq<IndexEntryV> {
    Seq::new(es.len(), |i: int| index_entry_view(es[i]))
}

/// A required unsigned 64-bit field.
pub open spec fn u64_field(fs: Seq<(Seq<char>, JsonV)>, key: Seq<char>) -> Option<u64> {
    match lookup_field(fs, key) {
        Some(JsonV::Int(i)) => if 0 <= i {
            Some(i as u64)
        } else {
            None
        },
        _ => None,
    }
}

/// A required unsigned 32-bit field.
pub open spec fn u32_field(fs: Seq<(Seq<char>, JsonV)>, key: Seq<char>) -> Option<u32> {
    match lookup_field(fs, key) {
        Some(JsonV::Int(i)) => if 0 <= i <= u32::MAX {
            Some(i as u32)
        } else {
            None
        },
        _ => None,
    }
}

/// What one JSON tree decodes to as an index entry, or nothing when a
/// required field is missing or of the wrong type.
pub open spec fn index_entry_of(v: JsonV) -> Option<IndexEntryV> {
    match v {
        JsonV::Object(fs) => {
            match (
                str_field(fs, "sessionId"@),
                str_field(fs, "fullPath"@),
                u64_field(fs, "fileMtime"@),
                str_field(fs, "firstPrompt"@),
                opt_str_field(fs, "summary"@),
                u32_field(fs, "messageCount"@),
                str_field(fs, "created"@),
                str_field(fs, "modified"@),
                str_field(fs, "gitBranch"@),
                str_field(fs, "projectPath"@),
                bool_field(fs, "isSidechain"@),
            ) {
                (
                    Some(session_id),
                    Some(full_path),
                    Some(file_mtime),
                    Some(first_prompt),
                    Some(summary),
                    Some(message_count),
                    Some(created),
                    Some(modified),
                    Some(git_branch),
                    Some(project_path),
                    Some(is_sidechain),
                ) => Some(
                    IndexEntryV {
                        session_id,
                        full_path,
                        file_mtime,
                        first_prompt,
                        summary,
                        message_count,
                        created,
                        modified,
                        git_branch,
                        project_path,
                        is_sidechain,
                    },
                ),
                _ => None,
            }
        },
        _ => None,
    }
}

/// What a sequence of trees decodes to as index entries; any malformed one
/// fails the whole sequence.
pub open spec fn index_entries_of(items: Seq<JsonV>) -> Option<Seq<IndexEntryV>>
    decreases items.len(),
{
    if items.len() == 0 {
        Some(Seq::empty())
    } else {
        match (index_entry_of(items[0]), index_entries_of(items.drop_first())) {
            (Some(e), Some(rest)) => Some(seq![e] + rest),
            _ => None,
        }
    }
}

/// What the index text decodes to: a version and entries, or nothing when
/// the text is not a well-formed index.
pub open spec fn index_of(s: Seq<char>) -> Option<(u32, Seq<IndexEntryV>)> {
    match json_tree(s) {
        Some(JsonV::Object(fs)) => {
            match (u32_field(fs, "version"@), lookup_field(fs, "entries"@)) {
                (Some(version), Some(JsonV::Array(items))) => match index_entries_of(items) {
                    Some(es) => Some((version, es)),
                    None => None,
                },
                _ => None,
            }
        },
        _ => None,
    }
}

/// A required unsigned 64-bit field of an object.
fn f_u64(fields: &Vec<(String, JsonValue)>, key: &str) -> (r: Option<u64>)
    ensures
        r == u64_field(jv_fields_view(fields@), key@),
{
    match crate::json::obj_get(fields, key) {
        Some(v) => match v {
            JsonValue::Int(i) => {
                if 0 <= *i {
                    Some(*i as u64)
                } else {
                    None
                }
            },
            _ => None,
        },
        None => None,
    }
}

/// A required unsigned 32-bit field of an object.
fn f_u32(fields: &Vec<(String, JsonValue)>, key: &str) -> (r: Option<u32>)
    ensures
        r == u32_field(jv_fields_view(fields@), key@),
{
    match crate::json::obj_get(fields, key) {
        Some(v) => match v {
            JsonValue::Int(i) => {
                if 0 <= *i && *i <= u32::MAX as i64 {
                    Some(*i as u32)
                } else {
                    None
                }
            },
            _ => None,
        },
        None => None,
    }
}

/// What one JSON tree decodes to as an index entry.
fn decode_index_entry(v: &JsonValue) -> (r: Option<SessionIndexEntry>)
    ensures
        match r {
            Some(e) => index_entry_of(jv_view(*v)) == Some(index_entry_view(e)),
            None => index_entry_of(jv_view(*v)) is None,
        },
{
    match v {
        JsonValue::Object(fs) => {
            proof {
                crate::json::lemma_jv_fields_view(fs@);
            }
            let session_id = match crate::parser::f_str(fs, "sessionId") {
                Some(t) => t,
                None => {
                    return None;
                },
            };
            let full_path = match crate::parser::f_str(fs, "fullPath") {
                Some(t) => t,
                None => {
                    return None;
                },
            };
            let file_mtime = match f_u64(fs, "fileMtime") {
                Some(t) => t,
                None => {
                    return None;
                },
            };
            let first_prompt = match crate::parser::f_str(fs, "firstPrompt") {
                Some(t) => t,
                None => {
                    return None;
                },
            };
            let summary = match crate::parser::f_opt_str(fs, "summary") {
                Some(o) => o,
                None => {
                    return None;
                },
            };
            let message_count = match f_u32(fs, "messageCount") {
                Some(t) => t,
                None => {
                    return None;
                },
            };
            let created = match crate::parser::f_str(fs, "created") {
                Some(t) => t,
                None => {
                    return None;
                },
            };
            let modified = match crate::parser::f_str(fs, "modified") {
                Some(t) => t,
                None => {
                    return None;
                },
            };
            let git_branch = match crate::parser::f_str(fs, "gitBranch") {
                Some(t) => t,
                None => {
                    return None;
                },
            };
            let project_path = match crate::parser::f_str(fs, "projectPath") {
                Some(t) => t,
                None => {
                    return None;
                },
            };
            let is_sidechain = match crate::parser::f_bool(fs, "isSidechain") {
                Some(t) => t,
                None => {
                    return None;
                },
            };
            Some(
                SessionIndexEntry {
                    session_id,
                    full_path,
                    file_mtime,
                    first_prompt,
                    summary,
                    message_count,
                    created,
                    modified,
                    git_branch,
                    project_path,
                    is_sidechain,
                },
            )
        },
        _ => None,
    }
}

proof fn lemma_index_entries_of_concat(s1: Seq<JsonV>, s2: Seq<JsonV>)
    ensures
        index_entries_of(s1 + s2) == match (index_entries_of(s1), index_entries_of(s2)) {
            (Some(a), Some(b)) => Some(a + b),
            _ => None::<Seq<IndexEntryV>>,
        },
    decreases s1.len(),
{
    if s1.len() == 0 {
        assert(s1 + s2 =~= s2);
        if index_entries_of(s2) is Some {
            assert(index_entries_of(s1)->0 + index_entries_of(s2)->0 =~= index_entries_of(
                s2,
            )->0);
        }
    } else {
        lemma_index_entries_of_concat(s1.drop_first(), s2);
        assert((s1 + s2).drop_first() =~= s1.drop_first() + s2);
        if index_entries_of(s1) is Some && index_entries_of(s2) is Some {
            assert(index_entries_of(s1 + s2)->0 =~= index_entries_of(s1)->0 + index_entries_of(
                s2,
            )->0);
        }
    }
}

/// The sessions index the given text holds, or an error where the text is
/// not a well-formed index.
pub fn parse_sessions_index(content: &str) -> (r: Result<SessionsIndex, String>)
    ensures
        match r {
            Ok(idx) => index_of(content@) == Some(
                (idx.version, index_entries_view(idx.entries@)),
            ),
            Err(m) => index_of(content@) is None && m@ == "Failed to parse sessions-index.json"@,
        },
{
    proof {
        reveal_strlit("version");
        reveal_strlit("entries");
    }
    let err: String = "Failed to parse sessions-index.json".to_owned();
    match crate::json::parse_json_text(content) {
        Some(v) => match &v {
            JsonValue::Object(fs) => {
                proof {
                    crate::json::lemma_jv_fields_view(fs@);
                }
                let version = match f_u32(fs, "version") {
                    Some(t) => t,
                    None => {
                        return Err(err);
                    },
                };
                match crate::json::obj_get(fs, "entries") {
                    Some(ev) => match ev {
                        JsonValue::Array(items) => {
                            let mut out: Vec<SessionIndexEntry> = Vec::new();
                            let mut i: usize = 0;
                            while i < items.len()
                                invariant
                                    0 <= i <= items@.len(),
                                    json_tree(content@) == Some(
                                        JsonV::Object(jv_fields_view(fs@)),
                                    ),
                                    u32_field(jv_fields_view(fs@), "version"@) == Some(version),
                                    lookup_field(jv_fields_view(fs@), "entries"@) == Some(
                                        JsonV::Array(jv_seq_view(items@)),
                                    ),
                                    err@ == "Failed to parse sessions-index.json"@,
                                    index_entries_of(jv_seq_view(items@).take(i as int)) == Some(
                                        index_entries_view(out@),
                                    ),
                                decreases items@.len() - i,
                            {
                                proof {
                                    crate::json::lemma_jv_seq_view(items@);
                                }
                                match decode_index_entry(&items[i]) {
                                    Some(e) => {
                                        out.push(e);
                                    },
                                    None => {
                                        proof {
                                            let js = jv_seq_view(items@);
                                            assert(js.take(i + 1) =~= js.take(i as int) + seq![
                                                js[i as int],
                                            ]);
                                            lemma_index_entries_of_concat(
                                                js.take(i as int),
                                                seq![js[i as int]],
                                            );
                                            assert(seq![js[i as int]][0] == js[i as int]);
                                            assert(index_entries_of(seq![js[i as int]]) is None);
                                            assert(index_entries_of(js.take(i + 1)) is None);
                                            lemma_index_entries_of_concat(
                                                js.take(i + 1),
                                                js.skip(i + 1),
                                            );
                                            assert(js.take(i + 1) + js.skip(i + 1) =~= js);
                                            assert(index_entries_of(js) is None);
                                        }
                                        return Err(err);
                                    },
                                }
                                i += 1;
                                proof {
                                    let js = jv_seq_view(items@);
                                    assert(js.take(i as int) =~= js.take(i - 1) + seq![js[i - 1]]);
                                    lemma_index_entries_of_concat(js.take(i - 1), seq![js[i - 1]]);
                                    assert(seq![js[i - 1]][0] == js[i - 1]);
                                    assert(seq![js[i - 1]].drop_first() =~= Seq::<JsonV>::empty());
                                    assert(index_entries_of(Seq::<JsonV>::empty()) == Some(
                                        Seq::<IndexEntryV>::empty(),
                                    ));
                                    let e = index_entry_of(js[i - 1])->0;
                                    assert(index_entries_of(seq![js[i - 1]]) == Some(
                                        seq![e] + Seq::<IndexEntryV>::empty(),
                                    ));
                                    assert(seq![e] + Seq::<IndexEntryV>::empty() =~= seq![e]);
                                    assert(index_entries_view(out@) =~= index_entries_view(
                                        out@.drop_last(),
                                    ) + seq![index_entry_view(out@.last())]);
                                    assert(index_entries_of(js.take(i as int)) == Some(
                                        index_entries_view(out@),
                                    ));
                                }
                            }
                            proof {
                                crate::json::lemma_jv_seq_view(items@);
                                assert(jv_seq_view(items@).take(items@.len() as int)
                                    =~= jv_seq_view(items@));
                            }
                            Ok(SessionsIndex { version, entries: out })
                        },
                        _ => Err(err),
                    },
                    None => Err(err),
                }
            },
            _ => Err(err),
        },
        None => Err(err),
    }
}

/// The lenient project entries of the index text: only a session id is
/// required of each entry, the project path staying optional; anything
/// malformed yields nothing rather than an error.
pub open spec fn lenient_entry_of(v: JsonV) -> Option<(Seq<char>, Option<Seq<char>>)> {
    match v {
        JsonV::Object(fs) => {
            match (str_field(fs, "sessionId"@), opt_str_field(fs, "projectPath"@)) {
                (Some(sid), Some(pp)) => Some((sid, pp)),
                _ => None,
            }
        },
        _ => None,
    }
}

/// What a sequence of trees decodes to as lenient entries; any malformed
/// one fails the whole sequence.
pub open spec fn lenient_entries_of(items: Seq<JsonV>) -> Option<
    Seq<(Seq<char>, Option<Seq<char>>)>,
>
    decreases items.len(),
{
    if items.len() == 0 {
        Some(Seq::empty())
    } else {
        match (lenient_entry_of(items[0]), lenient_entries_of(items.drop_first())) {
            (Some(e), Some(rest)) => Some(seq![e] + rest),
            _ => None,
        }
    }
}

/// The lenient view of the index text: its entries' session ids and
/// optional project paths, or nothing when the text is malformed; a missing
/// entries list is an empty list.
pub open spec fn lenient_index_of(s: Seq<char>) -> Option<Seq<(Seq<char>, Option<Seq<char>>)>> {
    match json_tree(s) {
        Some(JsonV::Object(fs)) => match lookup_field(fs, "entries"@) {
            Some(JsonV::Array(items)) => lenient_entries_of(items),
            Some(JsonV::Null) => Some(Seq::empty()),
            None => Some(Seq::empty()),
            Some(_) => None,
        },
        _ => None,
    }
}

proof fn lemma_lenient_entries_of_concat(s1: Seq<JsonV>, s2: Seq<JsonV>)
    ensures
        lenient_entries_of(s1 + s2) == match (lenient_entries_of(s1), lenient_entries_of(s2)) {
            (Some(a), Some(b)) => Some(a + b),
            _ => None::<Seq<(Seq<char>, Option<Seq<char>>)>>,
        },
    decreases s1.len(),
{
    if s1.len() == 0 {
        assert(s1 + s2 =~= s2);
        if lenient_entries_of(s2) is Some {
            assert(lenient_entries_of(s1)->0 + lenient_entries_of(s2)->0 =~= lenient_entries_of(
                s2,
            )->0);
        }
    } else {
        lemma_lenient_entries_of_concat(s1.drop_first(), s2);
        assert((s1 + s2).drop_first() =~= s1.drop_first() + s2);
        if lenient_entries_of(s1) is Some && lenient_entries_of(s2) is Some {
            assert(lenient_entries_of(s1 + s2)->0 =~= lenient_entries_of(s1)->0
                + lenient_entries_of(s2)->0);
        }
    }
}

/// The lenient project entries the index text holds, for the correlator.
pub fn parse_index_project_entries(content: &str) -> (r: Option<Vec<IndexProjectEntry>>)
    ensures
        match r {
            Some(es) => lenient_index_of(content@) == Some(ipes_view(es@)),
            None => lenient_index_of(content@) is None,
        },
{
    proof {
        reveal_strlit("entries");
    }
    match crate::json::parse_json_text(content) {
        Some(v) => match &v {
            JsonValue::Object(fs) => {
                proof {
                    crate::json::lemma_jv_fields_view(fs@);
                }
                match crate::json::obj_get(fs, "entries") {
                    Some(ev) => match ev {
                        JsonValue::Array(items) => {
                            let mut out: Vec<IndexProjectEntry> = Vec::new();
                            let mut i: usize = 0;
                            while i < items.len()
                                invariant
                                    0 <= i <= items@.len(),
                                    json_tree(content@) == Some(
                                        JsonV::Object(jv_fields_view(fs@)),
                                    ),
                                    lookup_field(jv_fields_view(fs@), "entries"@) == Some(
                                        JsonV::Array(jv_seq_view(items@)),
                                    ),
                                    lenient_entries_of(jv_seq_view(items@).take(i as int)) == Some(
                                        ipes_view(out@),
                                    ),
                                decreases items@.len() - i,
                            {
                                proof {
                                    crate::json::lemma_jv_seq_view(items@);
                                }
                                let e: IndexProjectEntry = match &items[i] {
                                    JsonValue::Object(efs) => {
                                        proof {
                                            crate::json::lemma_jv_fields_view(efs@);
                                        }
                                        let sid = match crate::parser::f_str(efs, "sessionId") {
                                            Some(t) => t,
                                            None => {
                                                proof {
                                                    lenient_fail_proof(items@, i as int);
                                                }
                                                return None;
                                            },
                                        };
                                        let pp = match crate::parser::f_opt_str(
                                            efs,
                                            "projectPath",
                                        ) {
                                            Some(o) => o,
                                            None => {
                                                proof {
                                                    lenient_fail_proof(items@, i as int);
                                                }
                                                return None;
                                            },
                                        };
                                        IndexProjectEntry { session_id: sid, project_path: pp }
                                    },
                                    _ => {
                                        proof {
                                            lenient_fail_proof(items@, i as int);
                                        }
                                        return None;
                                    },
                                };
                                out.push(e);
                                i += 1;
                                proof {
                                    let js = jv_seq_view(items@);
                                    assert(js.take(i as int) =~= js.take(i - 1) + seq![js[i - 1]]);
                                    lemma_lenient_entries_of_concat(
                                        js.take(i - 1),
                                        seq![js[i - 1]],
                                    );
                                    assert(seq![js[i - 1]][0] == js[i - 1]);
                                    assert(seq![js[i - 1]].drop_first() =~= Seq::<JsonV>::empty());
                                    assert(lenient_entries_of(Seq::<JsonV>::empty()) == Some(
                                        Seq::<(Seq<char>, Option<Seq<char>>)>::empty(),
                                    ));
                                    let le = lenient_entry_of(js[i - 1])->0;
                                    assert(lenient_entries_of(seq![js[i - 1]]) == Some(
                                        seq![le] + Seq::<(Seq<char>, Option<Seq<char>>)>::empty(),
                                    ));
                                    assert(seq![le] + Seq::<
                                        (Seq<char>, Option<Seq<char>>),
                                    >::empty() =~= seq![le]);
                                    assert(ipes_view(out@) =~= ipes_view(out@.drop_last()) + seq![
                                        crate::correlate::ipe_view(out@.last()),
                                    ]);
                                    assert(lenient_entries_of(js.take(i as int)) == Some(
                                        ipes_view(out@),
                                    ));
                                }
                            }
                            proof {
                                crate::json::lemma_jv_seq_view(items@);
                                assert(jv_seq_view(items@).take(items@.len() as int)
                                    =~= jv_seq_view(items@));
                            }
                            Some(out)
                        },
                        JsonValue::Null => Some(Vec::new()),
                        _ => None,
                    },
                    None => Some(Vec::new()),
                }
            },
            _ => None,
        },
        None => None,
    }
}

proof fn lenient_fail_proof(items: Seq<JsonValue>, i: int)
    requires
        0 <= i < items.len(),
        lenient_entry_of(jv_seq_view(items)[i]) is None,
        lenient_entries_of(jv_seq_view(items).take(i)) is Some,
    ensures
        lenient_entries_of(jv_seq_view(items)) is None,
{
    let js = jv_seq_view(items);
    crate::json::lemma_jv_seq_view(items);
    assert(js.take(i + 1) =~= js.take(i) + seq![js[i]]);
    lemma_lenient_entries_of_concat(js.take(i), seq![js[i]]);
    assert(seq![js[i]][0] == js[i]);
    assert(lenient_entries_of(seq![js[i]]) is None);
    assert(lenient_entries_of(js.take(i + 1)) is None);
    lemma_lenient_entries_of_concat(js.take(i + 1), js.skip(i + 1));
    assert(js.take(i + 1) + js.skip(i + 1) =~= js);
}

} // verus!
