//! The permission policy: a loaded-once lookup table answering whether a tool
//! invocation runs without human approval. A fixed set of read-only tools is
//! always approved; a shell command must match an allow-pattern, exact or
//! prefix-with-wildcard; mutating tools need an explicit allow entry; all else
//! needs permission.

use vstd::prelude::*;
use crate::json::{JsonV, JsonValue, jv_view, lookup_field, json_tree};
use crate::text::{
    contains_seq, ends_with, starts_with, str_contains, str_contains_char, str_eq,
    str_ends_with, str_starts_with, strs_view, trim_spec, trimmed_chars,
};

verus! {

broadcast use vstd::std_specs::vec::group_vec_axioms, vstd::seq::group_seq_axioms;

/// Settings as read from the external settings source; only the permission
/// allow-list is of interest.
pub struct ClaudeSettings {
    pub permissions: Option<Permissions>,
}

/// The permission section of the settings.
pub struct Permissions {
    pub allow: Option<Vec<String>>,
}

/// One parsed allow-pattern.
pub enum AllowPattern {
    /// A shell command pattern: a prefix with wildcard, or an exact command.
    Bash { prefix: String, wildcard: bool },
    /// A full tool allow: every invocation of the named tool is approved.
    Tool { name: String },
    /// An MCP tool pattern.
    Mcp { name: String },
    /// A skill pattern.
    Skill { name: String },
}

/// The mathematical shape of an allow-pattern.
#[verifier::ext_equal]
pub enum PatternV {
    Bash { prefix: Seq<char>, wildcard: bool },
    Tool { name: Seq<char> },
    Mcp { name: Seq<char> },
    Skill { name: Seq<char> },
}

/// The mathematical shape of an allow-pattern.
pub open spec fn pattern_view(p: AllowPattern) -> PatternV {
    match p {
        AllowPattern::Bash { prefix, wildcard } => PatternV::Bash { prefix: prefix@, wildcard },
        AllowPattern::Tool { name } => PatternV::Tool { name: name@ },
        AllowPattern::Mcp { name } => PatternV::Mcp { name: name@ },
        AllowPattern::Skill { name } => PatternV::Skill { name: name@ },
    }
}

/// The shapes of the patterns, in order.
pub open spec fn patterns_view(ps: Seq<AllowPattern>) -> Seq<PatternV> {
    Seq::new(ps.len(), |i: int| pattern_view(ps[i]))
}

/// Cached permissions for quick lookup.
pub struct PermissionChecker {
    pub allowed_patterns: Vec<AllowPattern>,
}

/// What one allow-entry parses to, or nothing when its form is not
/// recognized: `Bash(cmd)` and `Bash(cmd:*)`, `Skill(name)`, an `mcp__` name,
/// or a bare tool name without parentheses or double underscore.
pub open spec fn parse_pattern_spec(p: Seq<char>) -> Option<PatternV> {
    if starts_with(p, "Bash("@) && ends_with(p, ")"@) {
        let inner = p.subrange(5, p.len() - 1);
        if ends_with(inner, ":*"@) {
            Some(PatternV::Bash { prefix: inner.take(inner.len() - 2), wildcard: true })
        } else {
            Some(PatternV::Bash { prefix: inner, wildcard: false })
        }
    } else if starts_with(p, "mcp__"@) {
        Some(PatternV::Mcp { name: p })
    } else if starts_with(p, "Skill("@) && ends_with(p, ")"@) {
        Some(PatternV::Skill { name: p.subrange(6, p.len() - 1) })
    } else if !p.contains('(') && !contains_seq(p, "__"@) {
        Some(PatternV::Tool { name: p })
    } else {
        None
    }
}

impl PermissionChecker {
    /// Parses one allow-entry.
    pub fn parse_pattern(pattern: &str) -> (r: Option<AllowPattern>)
        ensures
            match r {
                Some(p) => parse_pattern_spec(pattern@) == Some(pattern_view(p)),
                None => parse_pattern_spec(pattern@) is None,
            },
    {
        proof {
            reveal_strlit("Bash(");
            reveal_strlit(")");
            reveal_strlit(":*");
            reveal_strlit("mcp__");
            reveal_strlit("Skill(");
            reveal_strlit("__");
        }
        if str_starts_with(pattern, "Bash(") && str_ends_with(pattern, ")") {
            let n = pattern.unicode_len();
            proof {
                assert(pattern@.subrange(0, 5)[4] == '(');
                assert(pattern@.subrange(pattern@.len() - 1, pattern@.len() as int)[0] == ')');
                assert(pattern@[4] == '(');
                assert(pattern@[pattern@.len() - 1] == ')');
            }
            let inner = pattern.substring_char(5, n - 1);
            if str_ends_with(inner, ":*") {
                let ni = inner.unicode_len();
                let prefix = inner.substring_char(0, ni - 2).to_owned();
                proof {
                    let sp = pattern@.subrange(5, pattern@.len() - 1);
                    assert(prefix@ =~= sp.take(sp.len() - 2));
                }
                Some(AllowPattern::Bash { prefix, wildcard: true })
            } else {
                Some(AllowPattern::Bash { prefix: inner.to_owned(), wildcard: false })
            }
        } else if str_starts_with(pattern, "mcp__") {
            Some(AllowPattern::Mcp { name: pattern.to_owned() })
        } else if str_starts_with(pattern, "Skill(") && str_ends_with(pattern, ")") {
            let n = pattern.unicode_len();
            proof {
                assert(pattern@.subrange(0, 6)[5] == '(');
                assert(pattern@.subrange(pattern@.len() - 1, pattern@.len() as int)[0] == ')');
                assert(pattern@[5] == '(');
                assert(pattern@[pattern@.len() - 1] == ')');
            }
            let inner = pattern.substring_char(6, n - 1);
            Some(AllowPattern::Skill { name: inner.to_owned() })
        } else if !str_contains_char(pattern, '(') && !str_contains(pattern, "__") {
            Some(AllowPattern::Tool { name: pattern.to_owned() })
        } else {
            None
        }
    }
}

/// The tools whose invocations are always approved: read-only and inspection
/// operations, approved without any configured pattern so that a fresh
/// install does not appear permission-blocked.
pub open spec fn always_approved(tool: Seq<char>) -> bool {
    ||| tool == "Read"@
    ||| tool == "Glob"@
    ||| tool == "Grep"@
    ||| tool == "WebFetch"@
    ||| tool == "WebSearch"@
    ||| tool == "Task"@
    ||| tool == "TaskList"@
    ||| tool == "TaskGet"@
    ||| tool == "TaskCreate"@
    ||| tool == "TaskUpdate"@
    ||| tool == "AskUserQuestion"@
}

/// Whether one pattern approves the given trimmed shell command.
pub open spec fn bash_pattern_matches(p: PatternV, cmd: Seq<char>) -> bool {
    match p {
        PatternV::Bash { prefix, wildcard } => {
            if wildcard {
                starts_with(cmd, prefix)
            } else {
                cmd == prefix
            }
        },
        _ => false,
    }
}

/// Whether any pattern approves the given trimmed shell command.
pub open spec fn bash_allowed(ps: Seq<PatternV>, cmd: Seq<char>) -> bool
    decreases ps.len(),
{
    if ps.len() == 0 {
        false
    } else {
        bash_pattern_matches(ps[0], cmd) || bash_allowed(ps.drop_first(), cmd)
    }
}

/// Whether any pattern names the tool as fully allowed.
pub open spec fn tool_allowed(ps: Seq<PatternV>, tool: Seq<char>) -> bool
    decreases ps.len(),
{
    if ps.len() == 0 {
        false
    } else {
        (ps[0] matches PatternV::Tool { name } && name == tool) || tool_allowed(
            ps.drop_first(),
            tool,
        )
    }
}

/// Whether any pattern names the MCP tool.
pub open spec fn mcp_allowed(ps: Seq<PatternV>, tool: Seq<char>) -> bool
    decreases ps.len(),
{
    if ps.len() == 0 {
        false
    } else {
        (ps[0] matches PatternV::Mcp { name } && name == tool) || mcp_allowed(
            ps.drop_first(),
            tool,
        )
    }
}

/// The shell command an invocation's input carries, or the empty string.
pub open spec fn command_of(input: JsonV) -> Seq<char> {
    match input {
        JsonV::Object(fs) => match lookup_field(fs, "command"@) {
            Some(JsonV::Text(s)) => s,
            _ => Seq::empty(),
        },
        _ => Seq::empty(),
    }
}

/// Whether the invocation of `tool` with `input` runs without approval:
/// always-safe tools do; a shell command must match an allow-pattern on its
/// trimmed text; the mutating file tools need an explicit allow entry; an
/// `mcp__` tool its own entry; everything else needs permission.
pub open spec fn approved_spec(ps: Seq<PatternV>, tool: Seq<char>, input: JsonV) -> bool {
    if always_approved(tool) {
        true
    } else if tool == "Bash"@ {
        bash_allowed(ps, trim_spec(command_of(input)))
    } else if tool == "Write"@ || tool == "Edit"@ || tool == "NotebookEdit"@ {
        tool_allowed(ps, tool)
    } else if starts_with(tool, "mcp__"@) {
        mcp_allowed(ps, tool)
    } else {
        false
    }
}

proof fn lemma_bash_allowed_concat(s1: Seq<PatternV>, s2: Seq<PatternV>, cmd: Seq<char>)
    ensures
        bash_allowed(s1 + s2, cmd) == (bash_allowed(s1, cmd) || bash_allowed(s2, cmd)),
    decreases s1.len(),
{
    if s1.len() == 0 {
        assert(s1 + s2 =~= s2);
    } else {
        lemma_bash_allowed_concat(s1.drop_first(), s2, cmd);
        assert((s1 + s2).drop_first() =~= s1.drop_first() + s2);
    }
}

proof fn lemma_tool_allowed_concat(s1: Seq<PatternV>, s2: Seq<PatternV>, tool: Seq<char>)
    ensures
        tool_allowed(s1 + s2, tool) == (tool_allowed(s1, tool) || tool_allowed(s2, tool)),
    decreases s1.len(),
{
    if s1.len() == 0 {
        assert(s1 + s2 =~= s2);
    } else {
        lemma_tool_allowed_concat(s1.drop_first(), s2, tool);
        assert((s1 + s2).drop_first() =~= s1.drop_first() + s2);
    }
}

proof fn lemma_mcp_allowed_concat(s1: Seq<PatternV>, s2: Seq<PatternV>, tool: Seq<char>)
    ensures
        mcp_allowed(s1 + s2, tool) == (mcp_allowed(s1, tool) || mcp_allowed(s2, tool)),
    decreases s1.len(),
{
    if s1.len() == 0 {
        assert(s1 + s2 =~= s2);
    } else {
        lemma_mcp_allowed_concat(s1.drop_first(), s2, tool);
        assert((s1 + s2).drop_first() =~= s1.drop_first() + s2);
    }
}

impl PermissionChecker {
    /// A checker that approves nothing beyond the always-safe tools.
    pub fn empty() -> (r: PermissionChecker)
        ensures
            patterns_view(r.allowed_patterns@) == Seq::<PatternV>::empty(),
    {
        let r = PermissionChecker { allowed_patterns: Vec::new() };
        proof {
            assert(patterns_view(r.allowed_patterns@) =~= Seq::<PatternV>::empty());
        }
        r
    }

    /// Whether a shell command, already trimmed, matches any allow-pattern.
    fn bash_match(&self, cmd: &Vec<char>) -> (r: bool)
        ensures
            r == bash_allowed(patterns_view(self.allowed_patterns@), cmd@),
    {
        let n = self.allowed_patterns.len();
        let mut i: usize = 0;
        while i < n
            invariant
                n == self.allowed_patterns@.len(),
                0 <= i <= n,
                !bash_allowed(patterns_view(self.allowed_patterns@).take(i as int), cmd@),
            decreases n - i,
        {
            let hit: bool = match &self.allowed_patterns[i] {
                AllowPattern::Bash { prefix, wildcard } => {
                    let pc = crate::text::chars_of(prefix.as_str());
                    if *wildcard {
                        let mut ok = cmd.len() >= pc.len();
                        let mut j: usize = 0;
                        if ok {
                            while j < pc.len()
                                invariant
                                    0 <= j <= pc@.len(),
                                    pc@.len() <= cmd@.len(),
                                    pc@ == prefix@,
                                    ok <==> (forall|k: int| 0 <= k < j ==> cmd@[k] == pc@[k]),
                                decreases pc@.len() - j,
                            {
                                if cmd[j] != pc[j] {
                                    ok = false;
                                    j = pc.len();
                                } else {
                                    j += 1;
                                }
                            }
                        }
                        proof {
                            if ok {
                                assert(cmd@.subrange(0, prefix@.len() as int) =~= prefix@);
                                assert(starts_with(cmd@, prefix@));
                            } else {
                                if starts_with(cmd@, prefix@) {
                                    assert(forall|k: int|
                                        0 <= k < prefix@.len() ==> #[trigger] cmd@.subrange(
                                            0,
                                            prefix@.len() as int,
                                        )[k] == cmd@[k]);
                                    assert(false);
                                }
                            }
                        }
                        ok
                    } else {
                        let mut ok = cmd.len() == pc.len();
                        let mut j: usize = 0;
                        if ok {
                            while j < pc.len()
                                invariant
                                    0 <= j <= pc@.len(),
                                    pc@.len() == cmd@.len(),
                                    pc@ == prefix@,
                                    ok <==> (forall|k: int| 0 <= k < j ==> cmd@[k] == pc@[k]),
                                decreases pc@.len() - j,
                            {
                                if cmd[j] != pc[j] {
                                    ok = false;
                                    j = pc.len();
                                } else {
                                    j += 1;
                                }
                            }
                        }
                        proof {
                            if ok {
                                assert(cmd@ =~= prefix@);
                            } else {
                                if cmd@ == prefix@ {
                                    assert(forall|k: int|
                                        0 <= k < prefix@.len() ==> cmd@[k] == prefix@[k]);
                                    assert(false);
                                }
                            }
                        }
                        ok
                    }
                },
                _ => false,
            };
            proof {
                let pv = patterns_view(self.allowed_patterns@);
                assert(pv[i as int] == pattern_view(self.allowed_patterns@[i as int]));
                assert(hit == bash_pattern_matches(pv[i as int], cmd@));
            }
            if hit {
                proof {
                    let pv = patterns_view(self.allowed_patterns@);
                    lemma_bash_allowed_concat(pv.take(i as int), pv.skip(i as int), cmd@);
                    assert(pv.take(i as int) + pv.skip(i as int) =~= pv);
                    assert(pv.skip(i as int)[0] == pv[i as int]);
                    assert(bash_allowed(pv.skip(i as int), cmd@));
                }
                return true;
            }
            i += 1;
            proof {
                let pv = patterns_view(self.allowed_patterns@);
                assert(pv.take(i as int) =~= pv.take(i - 1) + seq![pv[i - 1]]);
                lemma_bash_allowed_concat(pv.take(i - 1), seq![pv[i - 1]], cmd@);
                assert(seq![pv[i - 1]].drop_first() =~= Seq::<PatternV>::empty());
                assert(bash_allowed(Seq::<PatternV>::empty(), cmd@) == false);
                assert(seq![pv[i - 1]][0] == pv[i - 1]);
                assert(!bash_allowed(seq![pv[i - 1]], cmd@));
            }
        }
        proof {
            let pv = patterns_view(self.allowed_patterns@);
            assert(pv.take(self.allowed_patterns@.len() as int) =~= pv);
        }
        false
    }

    /// Whether any pattern names the tool as fully allowed.
    fn tool_match(&self, tool: &str) -> (r: bool)
        ensures
            r == tool_allowed(patterns_view(self.allowed_patterns@), tool@),
    {
        let n = self.allowed_patterns.len();
        let mut i: usize = 0;
        while i < n
            invariant
                n == self.allowed_patterns@.len(),
                0 <= i <= n,
                !tool_allowed(patterns_view(self.allowed_patterns@).take(i as int), tool@),
            decreases n - i,
        {
            let hit: bool = match &self.allowed_patterns[i] {
                AllowPattern::Tool { name } => str_eq(name.as_str(), tool),
                _ => false,
            };
            proof {
                let pv = patterns_view(self.allowed_patterns@);
                assert(pv[i as int] == pattern_view(self.allowed_patterns@[i as int]));
                assert(hit == (pv[i as int] matches PatternV::Tool { name } && name == tool@));
            }
            if hit {
                proof {
                    let pv = patterns_view(self.allowed_patterns@);
                    lemma_tool_allowed_concat(pv.take(i as int), pv.skip(i as int), tool@);
                    assert(pv.take(i as int) + pv.skip(i as int) =~= pv);
                    assert(pv.skip(i as int)[0] == pv[i as int]);
                    assert(tool_allowed(pv.skip(i as int), tool@));
                }
                return true;
            }
            i += 1;
            proof {
                let pv = patterns_view(self.allowed_patterns@);
                assert(pv.take(i as int) =~= pv.take(i - 1) + seq![pv[i - 1]]);
                lemma_tool_allowed_concat(pv.take(i - 1), seq![pv[i - 1]], tool@);
                assert(seq![pv[i - 1]].drop_first() =~= Seq::<PatternV>::empty());
                assert(tool_allowed(Seq::<PatternV>::empty(), tool@) == false);
                assert(seq![pv[i - 1]][0] == pv[i - 1]);
                assert(!tool_allowed(seq![pv[i - 1]], tool@));
            }
        }
        proof {
            let pv = patterns_view(self.allowed_patterns@);
            assert(pv.take(self.allowed_patterns@.len() as int) =~= pv);
        }
        false
    }

    /// Whether any pattern names the MCP tool.
    fn mcp_match(&self, tool: &str) -> (r: bool)
        ensures
            r == mcp_allowed(patterns_view(self.allowed_patterns@), tool@),
    {
        let n = self.allowed_patterns.len();
        let mut i: usize = 0;
        while i < n
            invariant
                n == self.allowed_patterns@.len(),
                0 <= i <= n,
                !mcp_allowed(patterns_view(self.allowed_patterns@).take(i as int), tool@),
            decreases n - i,
        {
            let hit: bool = match &self.allowed_patterns[i] {
                AllowPattern::Mcp { name } => str_eq(name.as_str(), tool),
                _ => false,
            };
            proof {
                let pv = patterns_view(self.allowed_patterns@);
                assert(pv[i as int] == pattern_view(self.allowed_patterns@[i as int]));
                assert(hit == (pv[i as int] matches PatternV::Mcp { name } && name == tool@));
            }
            if hit {
                proof {
                    let pv = patterns_view(self.allowed_patterns@);
                    lemma_mcp_allowed_concat(pv.take(i as int), pv.skip(i as int), tool@);
                    assert(pv.take(i as int) + pv.skip(i as int) =~= pv);
                    assert(pv.skip(i as int)[0] == pv[i as int]);
                    assert(mcp_allowed(pv.skip(i as int), tool@));
                }
                return true;
            }
            i += 1;
            proof {
                let pv = patterns_view(self.allowed_patterns@);
                assert(pv.take(i as int) =~= pv.take(i - 1) + seq![pv[i - 1]]);
                lemma_mcp_allowed_concat(pv.take(i - 1), seq![pv[i - 1]], tool@);
                assert(seq![pv[i - 1]].drop_first() =~= Seq::<PatternV>::empty());
                assert(mcp_allowed(Seq::<PatternV>::empty(), tool@) == false);
                assert(seq![pv[i - 1]][0] == pv[i - 1]);
                assert(!mcp_allowed(seq![pv[i - 1]], tool@));
            }
        }
        proof {
            let pv = patterns_view(self.allowed_patterns@);
            assert(pv.take(self.allowed_patterns@.len() as int) =~= pv);
        }
        false
    }

    /// Whether the tool invocation runs without human approval.
    pub fn is_auto_approved(&self, tool_name: &str, tool_input: &JsonValue) -> (r: bool)
        ensures
            r == approved_spec(
                patterns_view(self.allowed_patterns@),
                tool_name@,
                jv_view(*tool_input),
            ),
    {
        proof {
            reveal_strlit("Read");
            reveal_strlit("Glob");
            reveal_strlit("Grep");
            reveal_strlit("WebFetch");
            reveal_strlit("WebSearch");
            reveal_strlit("Task");
            reveal_strlit("TaskList");
            reveal_strlit("TaskGet");
            reveal_strlit("TaskCreate");
            reveal_strlit("TaskUpdate");
            reveal_strlit("AskUserQuestion");
            reveal_strlit("Bash");
            reveal_strlit("Write");
            reveal_strlit("Edit");
            reveal_strlit("NotebookEdit");
            reveal_strlit("mcp__");
            reveal_strlit("command");
        }
        if str_eq(tool_name, "Read") || str_eq(tool_name, "Glob") || str_eq(tool_name, "Grep")
            || str_eq(tool_name, "WebFetch") || str_eq(tool_name, "WebSearch") || str_eq(
            tool_name,
            "Task",
        ) || str_eq(tool_name, "TaskList") || str_eq(tool_name, "TaskGet") || str_eq(
            tool_name,
            "TaskCreate",
        ) || str_eq(tool_name, "TaskUpdate") || str_eq(tool_name, "AskUserQuestion") {
            return true;
        }
        if str_eq(tool_name, "Bash") {
            let command: String = match tool_input {
                JsonValue::Object(fs) => {
                    proof {
                        crate::json::lemma_jv_fields_view(fs@);
                    }
                    match crate::json::obj_get(fs, "command") {
                        Some(v) => match v {
                            JsonValue::Text(s) => s.clone(),
                            _ => String::new(),
                        },
                        None => String::new(),
                    }
                },
                _ => String::new(),
            };
            let trimmed = trimmed_chars(command.as_str());
            return self.bash_match(&trimmed);
        }
        if str_eq(tool_name, "Write") || str_eq(tool_name, "Edit") || str_eq(
            tool_name,
            "NotebookEdit",
        ) {
            return self.tool_match(tool_name);
        }
        if str_starts_with(tool_name, "mcp__") {
            return self.mcp_match(tool_name);
        }
        false
    }
}

/// What a list of allow-entries parses to: the recognized patterns, in
/// order, unrecognized entries skipped.
pub open spec fn patterns_of(entries: Seq<Seq<char>>) -> Seq<PatternV>
    decreases entries.len(),
{
    if entries.len() == 0 {
        Seq::empty()
    } else {
        let rest = patterns_of(entries.drop_first());
        match parse_pattern_spec(entries[0]) {
            Some(p) => seq![p] + rest,
            None => rest,
        }
    }
}

proof fn lemma_patterns_of_concat(s1: Seq<Seq<char>>, s2: Seq<Seq<char>>)
    ensures
        patterns_of(s1 + s2) == patterns_of(s1) + patterns_of(s2),
    decreases s1.len(),
{
    if s1.len() == 0 {
        assert(s1 + s2 =~= s2);
        assert(patterns_of(s1) + patterns_of(s2) =~= patterns_of(s2));
    } else {
        lemma_patterns_of_concat(s1.drop_first(), s2);
        assert((s1 + s2).drop_first() =~= s1.drop_first() + s2);
        assert(patterns_of(s1 + s2) =~= patterns_of(s1) + patterns_of(s2));
    }
}

impl PermissionChecker {
    /// The checker holding the recognized patterns of the given allow-list.
    pub fn from_allow_list(allow: &Vec<String>) -> (r: PermissionChecker)
        ensures
            patterns_view(r.allowed_patterns@) == patterns_of(strs_view(allow@)),
    {
        let mut out: Vec<AllowPattern> = Vec::new();
        let mut i: usize = 0;
        while i < allow.len()
            invariant
                0 <= i <= allow@.len(),
                patterns_view(out@) == patterns_of(strs_view(allow@).take(i as int)),
            decreases allow@.len() - i,
        {
            match Self::parse_pattern(allow[i].as_str()) {
                Some(p) => {
                    out.push(p);
                },
                None => {},
            }
            i += 1;
            proof {
                let es = strs_view(allow@);
                assert(es.take(i as int) =~= es.take(i - 1) + seq![es[i - 1]]);
                lemma_patterns_of_concat(es.take(i - 1), seq![es[i - 1]]);
                assert(seq![es[i - 1]].drop_first() =~= Seq::<Seq<char>>::empty());
                assert(patterns_of(Seq::<Seq<char>>::empty()) =~= Seq::<PatternV>::empty());
                if parse_pattern_spec(es[i - 1]) is Some {
                    assert(patterns_of(seq![es[i - 1]]) =~= seq![
                        parse_pattern_spec(es[i - 1])->0,
                    ]);
                    assert(patterns_view(out@) =~= patterns_view(out@.drop_last()) + seq![
                        pattern_view(out@.last()),
                    ]);
                } else {
                    assert(patterns_of(seq![es[i - 1]]) =~= Seq::<PatternV>::empty());
                }
                assert(patterns_view(out@) =~= patterns_of(es.take(i as int)));
            }
        }
        proof {
            let es = strs_view(allow@);
            assert(es.take(es.len() as int) =~= es);
        }
        PermissionChecker { allowed_patterns: out }
    }
}

/// The allow-list the settings text carries: absent or malformed parts give
/// an empty list, never an error.
pub open spec fn settings_allow_list(s: Seq<char>) -> Seq<Seq<char>> {
    match json_tree(s) {
        Some(JsonV::Object(fs)) => match lookup_field(fs, "permissions"@) {
            Some(JsonV::Object(pfs)) => match lookup_field(pfs, "allow"@) {
                Some(JsonV::Array(items)) => string_items(items),
                _ => Seq::empty(),
            },
            _ => Seq::empty(),
        },
        _ => Seq::empty(),
    }
}

/// The string elements of the array, in order; anything else is skipped.
pub open spec fn string_items(items: Seq<JsonV>) -> Seq<Seq<char>>
    decreases items.len(),
{
    if items.len() == 0 {
        Seq::empty()
    } else {
        let rest = string_items(items.drop_first());
        match items[0] {
            JsonV::Text(s) => seq![s] + rest,
            _ => rest,
        }
    }
}

proof fn lemma_string_items_concat(s1: Seq<JsonV>, s2: Seq<JsonV>)
    ensures
        string_items(s1 + s2) == string_items(s1) + string_items(s2),
    decreases s1.len(),
{
    if s1.len() == 0 {
        assert(s1 + s2 =~= s2);
        assert(string_items(s1) + string_items(s2) =~= string_items(s2));
    } else {
        lemma_string_items_concat(s1.drop_first(), s2);
        assert((s1 + s2).drop_first() =~= s1.drop_first() + s2);
        assert(string_items(s1 + s2) =~= string_items(s1) + string_items(s2));
    }
}

impl PermissionChecker {
    /// The settings structure the given text carries, with absent parts as
    /// `None`.
    pub fn parse_settings(content: &str) -> (r: ClaudeSettings)
        ensures
            match r.permissions {
                Some(p) => match p.allow {
                    Some(a) => strs_view(a@) == settings_allow_list(content@),
                    None => settings_allow_list(content@) == Seq::<Seq<char>>::empty(),
                },
                None => settings_allow_list(content@) == Seq::<Seq<char>>::empty(),
            },
    {
        proof {
            reveal_strlit("permissions");
            reveal_strlit("allow");
        }
        match crate::json::parse_json_text(content) {
            Some(v) => match &v {
                JsonValue::Object(fs) => {
                    proof {
                        crate::json::lemma_jv_fields_view(fs@);
                    }
                    match crate::json::obj_get(fs, "permissions") {
                        Some(pv) => match pv {
                            JsonValue::Object(pfs) => {
                                proof {
                                    crate::json::lemma_jv_fields_view(pfs@);
                                }
                                match crate::json::obj_get(pfs, "allow") {
                                    Some(av) => match av {
                                        JsonValue::Array(items) => {
                                            let mut out: Vec<String> = Vec::new();
                                            let mut i: usize = 0;
                                            while i < items.len()
                                                invariant
                                                    0 <= i <= items@.len(),
                                                    strs_view(out@) == string_items(
                                                        crate::json::jv_seq_view(items@).take(
                                                            i as int,
                                                        ),
                                                    ),
                                                decreases items@.len() - i,
                                            {
                                                proof {
                                                    crate::json::lemma_jv_seq_view(items@);
                                                }
                                                match &items[i] {
                                                    JsonValue::Text(s) => {
                                                        out.push(s.clone());
                                                    },
                                                    _ => {},
                                                }
                                                i += 1;
                                                proof {
                                                    let js = crate::json::jv_seq_view(items@);
                                                    assert(js.take(i as int) =~= js.take(i - 1)
                                                        + seq![js[i - 1]]);
                                                    lemma_string_items_concat(
                                                        js.take(i - 1),
                                                        seq![js[i - 1]],
                                                    );
                                                    assert(seq![js[i - 1]].drop_first() =~= Seq::<
                                                        JsonV,
                                                    >::empty());
                                                    assert(string_items(Seq::<JsonV>::empty())
                                                        =~= Seq::<Seq<char>>::empty());
                                                    if js[i - 1] is Text {
                                                        assert(strs_view(out@) =~= strs_view(
                                                            out@.drop_last(),
                                                        ) + seq![out@.last()@]);
                                                        assert(string_items(seq![js[i - 1]])
                                                            =~= seq![js[i - 1]->Text_0]);
                                                    } else {
                                                        assert(string_items(seq![js[i - 1]])
                                                            =~= Seq::<Seq<char>>::empty());
                                                    }
                                                    assert(strs_view(out@) =~= string_items(
                                                        js.take(i as int),
                                                    ));
                                                }
                                            }
                                            proof {
                                                crate::json::lemma_jv_seq_view(items@);
                                                assert(crate::json::jv_seq_view(items@).take(
                                                    items@.len() as int,
                                                ) =~= crate::json::jv_seq_view(items@));
                                            }
                                            ClaudeSettings {
                                                permissions: Some(
                                                    Permissions { allow: Some(out) },
                                                ),
                                            }
                                        },
                                        _ => ClaudeSettings {
                                            permissions: Some(Permissions { allow: None }),
                                        },
                                    },
                                    None => ClaudeSettings {
                                        permissions: Some(Permissions { allow: None }),
                                    },
                                }
                            },
                            _ => ClaudeSettings { permissions: None },
                        },
                        None => ClaudeSettings { permissions: None },
                    }
                },
                _ => ClaudeSettings { permissions: None },
            },
            None => ClaudeSettings { permissions: None },
        }
    }

    /// The checker the given settings text yields: the recognized patterns
    /// of its allow-list, and an empty checker for missing or malformed
    /// settings.
    pub fn from_settings_text(content: &str) -> (r: PermissionChecker)
        ensures
            patterns_view(r.allowed_patterns@) == patterns_of(settings_allow_list(content@)),
    {
        let settings = Self::parse_settings(content);
        match settings.permissions {
            Some(p) => match p.allow {
                Some(a) => Self::from_allow_list(&a),
                None => Self::empty(),
            },
            None => Self::empty(),
        }
    }
}

impl Default for PermissionChecker {
    /// The empty checker: nothing beyond the always-safe tools is approved.
    fn default() -> (r: PermissionChecker)
        ensures
            patterns_view(r.allowed_patterns@) == Seq::<PatternV>::empty(),
    {
        PermissionChecker::empty()
    }
}

} // verus!
