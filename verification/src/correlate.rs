//! The process/session correlator: binding each running agent process to the
//! log file it is writing. Two evidence sources are combined: an authoritative
//! project path from a cached index, and the lossy separator-substituted
//! encoding in a project directory's name, used only as a comparable
//! fingerprint and never inverted into a path.

use vstd::prelude::*;
use vstd::string::StrSliceExecFns;
use vstd::string::StringExecFns;
use crate::text::{contains_seq, lower_seq, lower_str, starts_with, str_eq, str_starts_with};

verus! {

broadcast use vstd::std_specs::vec::group_vec_axioms, vstd::seq::group_seq_axioms;

/// Grace seconds allowed between a log file's modification time and the
/// start of the process it may belong to: a file touched this little before
/// the process started may still be its log.
pub const MATCH_GRACE_SECS: u64 = 5;

/// What can go wrong while gathering the correlator's inputs.
pub enum SessionDetectorError {
    /// A directory could not be read; the text tells which.
    DirectoryRead(String),
    /// No home directory could be determined.
    HomeDirectoryNotFound,
    /// The process table could not be refreshed.
    ProcessRefreshError,
}

impl SessionDetectorError {
    /// A short text describing the error.
    pub fn message(&self) -> (r: String)
        ensures
            match self {
                SessionDetectorError::DirectoryRead(d) => r@ == "Failed to read directory: "@
                    + d@,
                SessionDetectorError::HomeDirectoryNotFound => r@
                    == "Failed to get home directory"@,
                SessionDetectorError::ProcessRefreshError => r@
                    == "Failed to refresh process information"@,
            },
    {
        match self {
            SessionDetectorError::DirectoryRead(d) => "Failed to read directory: ".to_owned()
                .concat(d.as_str()),
            SessionDetectorError::HomeDirectoryNotFound => {
                "Failed to get home directory".to_owned()
            },
            SessionDetectorError::ProcessRefreshError => {
                "Failed to refresh process information".to_owned()
            },
        }
    }
}

/// One running agent process, as plain values from the process table.
#[derive(Clone)]
pub struct ClaudeProcess {
    pub pid: u32,
    /// Its working directory; a process without one never binds to a log.
    pub cwd: Option<String>,
    /// Seconds since the epoch at which the process started.
    pub start_time: u64,
}

/// One candidate log file of a project directory, as plain values.
pub struct LogFileRecord {
    /// The session id: the file's stem.
    pub session_id: String,
    /// Seconds since the epoch at which the file was last modified.
    pub modified_secs: u64,
    /// The full path of the project directory that holds the file.
    pub project_dir: String,
    /// The project directory's own name: a lossy encoding of a working
    /// directory.
    pub dir_name: String,
    /// The authoritative working directory, when the cached index gave one;
    /// otherwise the project directory path as a placeholder.
    pub project_path: String,
    /// A display name for the project.
    pub project_name: String,
    /// Whether `project_path` came from the cached index.
    pub has_reliable_path: bool,
}

/// A detected session: one process bound to one log file.
pub struct DetectedSession {
    pub pid: u32,
    pub cwd: String,
    pub project_path: String,
    pub session_id: Option<String>,
    pub project_name: String,
}

/// The mathematical shape of a process record.
#[verifier::ext_equal]
pub struct ProcV {
    pub pid: u32,
    pub cwd: Option<Seq<char>>,
    pub start_time: u64,
}

/// The mathematical shape of a log file record.
#[verifier::ext_equal]
pub struct FileV {
    pub session_id: Seq<char>,
    pub modified_secs: u64,
    pub project_dir: Seq<char>,
    pub dir_name: Seq<char>,
    pub project_path: Seq<char>,
    pub project_name: Seq<char>,
    pub has_reliable_path: bool,
}

/// The mathematical shape of a detected session.
#[verifier::ext_equal]
pub struct DetectedV {
    pub pid: u32,
    pub cwd: Seq<char>,
    pub project_path: Seq<char>,
    pub session_id: Option<Seq<char>>,
    pub project_name: Seq<char>,
}

/// The mathematical shape of a process record.
pub open spec fn proc_view(p: ClaudeProcess) -> ProcV {
    ProcV {
        pid: p.pid,
        cwd: match p.cwd {
            Some(c) => Some(c@),
            None => None,
        },
        start_time: p.start_time,
    }
}

/// The shapes of the process records, in order.
pub open spec fn procs_view(ps: Seq<ClaudeProcess>) -> Seq<ProcV> {
    Seq::new(ps.len(), |i: int| proc_view(ps[i]))
}

/// The mathematical shape of a log file record.
pub open spec fn file_view(f: LogFileRecord) -> FileV {
    FileV {
        session_id: f.session_id@,
        modified_secs: f.modified_secs,
        project_dir: f.project_dir@,
        dir_name: f.dir_name@,
        project_path: f.project_path@,
        project_name: f.project_name@,
        has_reliable_path: f.has_reliable_path,
    }
}

/// The shapes of the log file records, in order.
pub open spec fn files_view(fs: Seq<LogFileRecord>) -> Seq<FileV> {
    Seq::new(fs.len(), |i: int| file_view(fs[i]))
}

/// The mathematical shape of a detected session.
pub open spec fn detected_view(d: DetectedSession) -> DetectedV {
    DetectedV {
        pid: d.pid,
        cwd: d.cwd@,
        project_path: d.project_path@,
        session_id: match d.session_id {
            Some(s) => Some(s@),
            None => None,
        },
        project_name: d.project_name@,
    }
}

/// The shapes of the detected sessions, in order.
pub open spec fn dets_view(ds: Seq<DetectedSession>) -> Seq<DetectedV> {
    Seq::new(ds.len(), |i: int| detected_view(ds[i]))
}

/// One character of a working directory as its encoded form: both path
/// separator kinds and the underscore fold into a dash, and a colon vanishes.
pub open spec fn encode_path_char(c: char) -> Seq<char> {
    if c == '\\' || c == '/' || c == '_' {
        seq!['-']
    } else if c == ':' {
        Seq::empty()
    } else {
        seq![c]
    }
}

/// A working directory as the fingerprint that a project directory's name
/// encodes. The encoding is lossy and only ever compared, never inverted.
pub open spec fn encode_path(s: Seq<char>) -> Seq<char>
    decreases s.len(),
{
    if s.len() == 0 {
        Seq::empty()
    } else {
        encode_path_char(s[0]) + encode_path(s.drop_first())
    }
}

proof fn lemma_encode_path_concat(s1: Seq<char>, s2: Seq<char>)
    ensures
        encode_path(s1 + s2) == encode_path(s1) + encode_path(s2),
    decreases s1.len(),
{
    if s1.len() == 0 {
        assert(s1 + s2 =~= s2);
        assert(encode_path(s1) + encode_path(s2) =~= encode_path(s2));
    } else {
        lemma_encode_path_concat(s1.drop_first(), s2);
        assert((s1 + s2).drop_first() =~= s1.drop_first() + s2);
        assert(encode_path(s1 + s2) =~= encode_path(s1) + encode_path(s2));
    }
}

/// The encoded fingerprint of a working directory.
pub fn encode_cwd(s: &str) -> (r: String)
    ensures
        r@ == encode_path(s@),
{
    let cs = crate::text::chars_of(s);
    let mut out: Vec<char> = Vec::new();
    let mut i: usize = 0;
    while i < cs.len()
        invariant
            0 <= i <= cs@.len(),
            cs@ == s@,
            out@ == encode_path(s@.take(i as int)),
        decreases cs@.len() - i,
    {
        let c = cs[i];
        if c == '\\' || c == '/' || c == '_' {
            out.push('-');
        } else if c == ':' {
        } else {
            out.push(c);
        }
        i += 1;
        proof {
            assert(s@.take(i as int) =~= s@.take(i - 1) + seq![s@[i - 1]]);
            lemma_encode_path_concat(s@.take(i - 1), seq![s@[i - 1]]);
            assert(seq![s@[i - 1]].drop_first() =~= Seq::<char>::empty());
            assert(encode_path(Seq::<char>::empty()) =~= Seq::<char>::empty());
            assert(seq![s@[i - 1]][0] == s@[i - 1]);
            assert(encode_path(seq![s@[i - 1]]) =~= encode_path_char(s@[i - 1]));
            assert(out@ =~= encode_path(s@.take(i as int)));
        }
    }
    proof {
        assert(s@.take(s@.len() as int) =~= s@);
    }
    crate::text::string_of_chars(&out)
}

/// Whether a process name, case folded, names the watched agent, whose own
/// executable name is configuration: the bare name, its platform executable
/// form, or anything holding it that is not this monitor's own process.
pub open spec fn is_agent_name(name: Seq<char>, agent: Seq<char>) -> bool {
    let lower = lower_seq(name);
    ||| lower == agent
    ||| lower == agent + ".exe"@
    ||| (contains_seq(lower, agent) && !contains_seq(lower, "c9watch"@))
}

/// True exactly when the process name names the watched agent.
pub fn is_agent_process_name(name: &str, agent: &str) -> (r: bool)
    ensures
        r == is_agent_name(name@, agent@),
{
    proof {
        reveal_strlit(".exe");
        reveal_strlit("c9watch");
    }
    let lower = lower_str(name);
    if str_eq(lower.as_str(), agent) {
        return true;
    }
    let with_exe = agent.to_owned().concat(".exe");
    if str_eq(lower.as_str(), with_exe.as_str()) {
        return true;
    }
    crate::text::str_contains(lower.as_str(), agent) && !crate::text::str_contains(
        lower.as_str(),
        "c9watch",
    )
}

/// The session id a log file name carries: its stem, for a file with the
/// log extension whose stem is not an internal sub-agent transcript.
pub open spec fn session_id_of_file_name(name: Seq<char>) -> Option<Seq<char>> {
    if crate::text::ends_with(name, ".jsonl"@) {
        let stem = name.take(name.len() - 6);
        if starts_with(stem, "agent-"@) {
            None
        } else {
            Some(stem)
        }
    } else {
        None
    }
}

/// The session id of a candidate log file name, or nothing for other files.
pub fn session_log_name(name: &str) -> (r: Option<String>)
    ensures
        match r {
            Some(s) => session_id_of_file_name(name@) == Some(s@),
            None => session_id_of_file_name(name@) is None,
        },
{
    proof {
        reveal_strlit(".jsonl");
        reveal_strlit("agent-");
    }
    if crate::text::str_ends_with(name, ".jsonl") {
        let n = name.unicode_len();
        let stem = name.substring_char(0, n - 6);
        if str_starts_with(stem, "agent-") {
            None
        } else {
            Some(stem.to_owned())
        }
    } else {
        None
    }
}

/// One lenient entry of a cached sessions index, as the correlator needs it.
pub struct IndexProjectEntry {
    pub session_id: String,
    pub project_path: Option<String>,
}

/// The mathematical shape of a lenient index entry.
pub open spec fn ipe_view(e: IndexProjectEntry) -> (Seq<char>, Option<Seq<char>>) {
    (
        e.session_id@,
        match e.project_path {
            Some(p) => Some(p@),
            None => None,
        },
    )
}

/// The shapes of the lenient index entries, in order.
pub open spec fn ipes_view(es: Seq<IndexProjectEntry>) -> Seq<(Seq<char>, Option<Seq<char>>)> {
    Seq::new(es.len(), |i: int| ipe_view(es[i]))
}

/// The base name of a path: what follows the last separator.
pub open spec fn base_name(p: Seq<char>) -> Seq<char>
    decreases p.len(),
{
    if p.len() == 0 {
        p
    } else if p.last() == '/' || p.last() == '\\' {
        Seq::empty()
    } else {
        base_name(p.drop_last()).push(p.last())
    }
}

/// The base name of a path, or "unknown" where it is empty.
pub open spec fn display_name(p: Seq<char>) -> Seq<char> {
    if base_name(p).len() == 0 {
        "unknown"@
    } else {
        base_name(p)
    }
}

/// The base name of a path.
pub fn path_base_name(p: &str) -> (r: String)
    ensures
        r@ == base_name(p@),
{
    let cs = crate::text::chars_of(p);
    let n = cs.len();
    let mut cut: usize = n;
    while cut > 0 && cs[cut - 1] != '/' && cs[cut - 1] != '\\'
        invariant
            0 <= cut <= n,
            n == cs@.len(),
            cs@ == p@,
            forall|j: int| cut <= j < n ==> cs@[j] != '/' && cs@[j] != '\\',
        decreases cut,
    {
        cut -= 1;
    }
    let mut out: Vec<char> = Vec::new();
    let mut i: usize = cut;
    while i < n
        invariant
            cut <= i <= n,
            n == cs@.len(),
            cs@ == p@,
            out@ == p@.subrange(cut as int, i as int),
        decreases n - i,
    {
        out.push(cs[i]);
        i += 1;
        proof {
            assert(out@ =~= p@.subrange(cut as int, i as int));
        }
    }
    proof {
        lemma_base_name_range(p@, cut as int);
        assert(out@ =~= p@.subrange(cut as int, n as int));
    }
    crate::text::string_of_chars(&out)
}

proof fn lemma_base_name_range(p: Seq<char>, cut: int)
    requires
        0 <= cut <= p.len(),
        forall|j: int| cut <= j < p.len() ==> p[j] != '/' && p[j] != '\\',
        cut == 0 || p[cut - 1] == '/' || p[cut - 1] == '\\',
    ensures
        base_name(p) =~= p.subrange(cut, p.len() as int),
    decreases p.len() - cut,
{
    if cut == p.len() {
        lemma_base_name_all_sep(p, cut);
    } else {
        lemma_base_name_range(p.drop_last(), cut);
        assert(p.drop_last().subrange(cut, p.len() - 1) =~= p.subrange(cut, p.len() - 1));
        assert(base_name(p) =~= p.subrange(cut, p.len() as int));
    }
}

proof fn lemma_base_name_all_sep(p: Seq<char>, cut: int)
    requires
        cut == p.len(),
        cut == 0 || p[cut - 1] == '/' || p[cut - 1] == '\\',
    ensures
        base_name(p).len() == 0,
{
    if p.len() > 0 {
        assert(p.last() == '/' || p.last() == '\\');
    }
}

/// The project path and display name the cached index gives for a session:
/// the matching entry's path, else the very first entry's path as a
/// fallback, else nothing.
pub open spec fn project_info_of(
    entries: Seq<(Seq<char>, Option<Seq<char>>)>,
    session_id: Seq<char>,
) -> Option<(Seq<char>, Seq<char>)> {
    match find_entry_path(entries, session_id, 0) {
        Some(p) => Some((p, display_name(p))),
        None => match head_entry_path(entries) {
            Some(p) => Some((p, display_name(p))),
            None => None,
        },
    }
}

/// The path of the first entry from `j` on whose id matches and whose path
/// is present.
pub open spec fn find_entry_path(
    entries: Seq<(Seq<char>, Option<Seq<char>>)>,
    session_id: Seq<char>,
    j: int,
) -> Option<Seq<char>>
    decreases entries.len() - j,
{
    if j < 0 || j >= entries.len() {
        None
    } else if entries[j].0 == session_id && entries[j].1 is Some {
        Some(entries[j].1->0)
    } else {
        find_entry_path(entries, session_id, j + 1)
    }
}

/// The path of the index's first entry, when it carries one.
pub open spec fn head_entry_path(entries: Seq<(Seq<char>, Option<Seq<char>>)>) -> Option<
    Seq<char>,
> {
    if entries.len() > 0 && entries[0].1 is Some {
        Some(entries[0].1->0)
    } else {
        None
    }
}

/// The project path and display name the cached index gives for a session.
pub fn get_project_info(entries: &Vec<IndexProjectEntry>, session_id: &str) -> (r: Option<
    (String, String),
>)
    ensures
        match r {
            Some(p) => project_info_of(ipes_view(entries@), session_id@) == Some((p.0@, p.1@)),
            None => project_info_of(ipes_view(entries@), session_id@) is None,
        },
{
    let mut i: usize = 0;
    while i < entries.len()
        invariant
            0 <= i <= entries@.len(),
            find_entry_path(ipes_view(entries@), session_id@, 0) == find_entry_path(
                ipes_view(entries@),
                session_id@,
                i as int,
            ),
        decreases entries@.len() - i,
    {
        let hit = str_eq(entries[i].session_id.as_str(), session_id);
        if hit {
            match &entries[i].project_path {
                Some(p) => {
                    proof {
                        assert(ipes_view(entries@)[i as int] == ipe_view(entries@[i as int]));
                    }
                    let name = path_base_name(p.as_str());
                    let name2: String = if name.unicode_len() == 0 {
                        proof {
                            reveal_strlit("unknown");
                        }
                        "unknown".to_owned()
                    } else {
                        name
                    };
                    return Some((p.clone(), name2));
                },
                None => {},
            }
        }
        i += 1;
        proof {
            assert(ipes_view(entries@)[i - 1] == ipe_view(entries@[i - 1]));
        }
    }
    if entries.len() > 0 {
        proof {
            assert(ipes_view(entries@)[0] == ipe_view(entries@[0]));
        }
        match &entries[0].project_path {
            Some(p) => {
                let name = path_base_name(p.as_str());
                let name2: String = if name.unicode_len() == 0 {
                    proof {
                        reveal_strlit("unknown");
                    }
                    "unknown".to_owned()
                } else {
                    name
                };
                return Some((p.clone(), name2));
            },
            None => {},
        }
    }
    None
}

/// One path lies at or under another: the same path, or a descendant
/// reached through a separator.
pub open spec fn path_under(cwd: Seq<char>, root: Seq<char>) -> bool {
    ||| cwd == root
    ||| (starts_with(cwd, root) && cwd.len() > root.len() && cwd[root.len() as int] == '/')
}

/// True exactly when `cwd` lies at or under `root`.
pub fn path_is_under(cwd: &str, root: &str) -> (r: bool)
    ensures
        r == path_under(cwd@, root@),
{
    if str_eq(cwd, root) {
        return true;
    }
    if !str_starts_with(cwd, root) {
        return false;
    }
    let nc = cwd.unicode_len();
    let nr = root.unicode_len();
    if nc > nr {
        cwd.get_char(nr) == '/'
    } else {
        false
    }
}

/// Whether a log file is a match for a process with the given working
/// directory: it was modified no earlier than the process start minus the
/// grace, and the directory fits by the authoritative path or by the
/// encoded fingerprint.
pub open spec fn file_matches(p: ProcV, cwd: Seq<char>, f: FileV) -> bool {
    &&& f.modified_secs + MATCH_GRACE_SECS >= p.start_time
    &&& {
        ||| (f.has_reliable_path && path_under(cwd, f.project_path))
        ||| f.dir_name == encode_path(cwd)
    }
}

/// Whether the list of already claimed session ids holds the given one.
pub open spec fn id_claimed(claimed: Seq<Seq<char>>, id: Seq<char>) -> bool {
    exists|i: int| 0 <= i < claimed.len() && claimed[i] == id
}

/// The first index from `j` on of an unclaimed file that matches the
/// process.
pub open spec fn find_file_from(
    p: ProcV,
    cwd: Seq<char>,
    files: Seq<FileV>,
    claimed: Seq<Seq<char>>,
    j: int,
) -> Option<int>
    decreases files.len() - j,
{
    if j < 0 || j >= files.len() {
        None
    } else if !id_claimed(claimed, files[j].session_id) && file_matches(p, cwd, files[j]) {
        Some(j)
    } else {
        find_file_from(p, cwd, files, claimed, j + 1)
    }
}

/// The detected session one binding yields.
pub open spec fn make_detected(p: ProcV, cwd: Seq<char>, f: FileV) -> DetectedV {
    DetectedV {
        pid: p.pid,
        cwd,
        project_path: f.project_dir,
        session_id: Some(f.session_id),
        project_name: f.project_name,
    }
}

/// The bindings the claiming pass yields: each process in order binds to
/// the first unclaimed matching file, which is then claimed; a process
/// without a working directory, or with no match, yields nothing.
pub open spec fn claim_spec(
    procs: Seq<ProcV>,
    files: Seq<FileV>,
    claimed: Seq<Seq<char>>,
) -> Seq<DetectedV>
    decreases procs.len(),
{
    if procs.len() == 0 {
        Seq::empty()
    } else {
        match procs[0].cwd {
            None => claim_spec(procs.drop_first(), files, claimed),
            Some(cwd) => {
                match find_file_from(procs[0], cwd, files, claimed, 0) {
                    Some(j) => seq![make_detected(procs[0], cwd, files[j])] + claim_spec(
                        procs.drop_first(),
                        files,
                        claimed.push(files[j].session_id),
                    ),
                    None => claim_spec(procs.drop_first(), files, claimed),
                }
            },
        }
    }
}

/// Insertion of one file into a list sorted by modification time descending,
/// after every element at least as recent: the stable descending order.
pub open spec fn insert_file_desc(x: FileV, s: Seq<FileV>) -> Seq<FileV>
    decreases s.len(),
{
    if s.len() == 0 {
        seq![x]
    } else if s[0].modified_secs >= x.modified_secs {
        seq![s[0]] + insert_file_desc(x, s.drop_first())
    } else {
        seq![x] + s
    }
}

/// The files sorted by modification time descending, stably.
pub open spec fn sort_files_desc(s: Seq<FileV>) -> Seq<FileV>
    decreases s.len(),
{
    if s.len() == 0 {
        Seq::empty()
    } else {
        insert_file_desc(s.last(), sort_files_desc(s.drop_last()))
    }
}

/// Insertion of one process into a list sorted by start time descending.
pub open spec fn insert_proc_desc(x: ProcV, s: Seq<ProcV>) -> Seq<ProcV>
    decreases s.len(),
{
    if s.len() == 0 {
        seq![x]
    } else if s[0].start_time >= x.start_time {
        seq![s[0]] + insert_proc_desc(x, s.drop_first())
    } else {
        seq![x] + s
    }
}

/// The processes sorted by start time descending, stably: the most recently
/// started first, so that a brand-new process is not bound to a stale log.
pub open spec fn sort_procs_desc(s: Seq<ProcV>) -> Seq<ProcV>
    decreases s.len(),
{
    if s.len() == 0 {
        Seq::empty()
    } else {
        insert_proc_desc(s.last(), sort_procs_desc(s.drop_last()))
    }
}

/// What the correlator yields for the given processes and candidate files:
/// files are taken most recently modified first and processes most recently
/// started first, and each process claims the first file that is unclaimed,
/// fresh enough, and whose directory fits.
pub open spec fn correlate_spec(procs: Seq<ProcV>, files: Seq<FileV>) -> Seq<DetectedV> {
    claim_spec(sort_procs_desc(procs), sort_files_desc(files), Seq::empty())
}

proof fn lemma_insert_file_at(x: FileV, s: Seq<FileV>, j: int)
    requires
        0 <= j <= s.len(),
        forall|k: int| 0 <= k < j ==> (#[trigger] s[k]).modified_secs >= x.modified_secs,
        j == s.len() || s[j].modified_secs < x.modified_secs,
    ensures
        insert_file_desc(x, s) == s.take(j) + seq![x] + s.skip(j),
    decreases j,
{
    if j == 0 {
        if s.len() > 0 {
            assert(s[0].modified_secs < x.modified_secs);
        }
        assert(insert_file_desc(x, s) =~= s.take(0) + seq![x] + s.skip(0));
    } else {
        lemma_insert_file_at(x, s.drop_first(), j - 1);
        assert(s.drop_first().take(j - 1) =~= s.take(j).drop_first());
        assert(s.drop_first().skip(j - 1) =~= s.skip(j));
        assert(insert_file_desc(x, s) =~= s.take(j) + seq![x] + s.skip(j));
    }
}

proof fn lemma_insert_proc_at(x: ProcV, s: Seq<ProcV>, j: int)
    requires
        0 <= j <= s.len(),
        forall|k: int| 0 <= k < j ==> (#[trigger] s[k]).start_time >= x.start_time,
        j == s.len() || s[j].start_time < x.start_time,
    ensures
        insert_proc_desc(x, s) == s.take(j) + seq![x] + s.skip(j),
    decreases j,
{
    if j == 0 {
        if s.len() > 0 {
            assert(s[0].start_time < x.start_time);
        }
        assert(insert_proc_desc(x, s) =~= s.take(0) + seq![x] + s.skip(0));
    } else {
        lemma_insert_proc_at(x, s.drop_first(), j - 1);
        assert(s.drop_first().take(j - 1) =~= s.take(j).drop_first());
        assert(s.drop_first().skip(j - 1) =~= s.skip(j));
        assert(insert_proc_desc(x, s) =~= s.take(j) + seq![x] + s.skip(j));
    }
}

/// The files sorted by modification time descending, stably.
fn sort_files(files: Vec<LogFileRecord>) -> (r: Vec<LogFileRecord>)
    ensures
        files_view(r@) == sort_files_desc(files_view(files@)),
{
    let ghost orig = files_view(files@);
    let mut rest = files;
    let mut out: Vec<LogFileRecord> = Vec::new();
    let n = rest.len();
    let mut i: usize = 0;
    while i < n
        invariant
            0 <= i <= n,
            n == orig.len(),
            files_view(rest@) == orig.skip(i as int),
            files_view(out@) == sort_files_desc(orig.take(i as int)),
        decreases n - i,
    {
        proof {
            assert(files_view(rest@).len() == rest@.len());
            assert(rest@.len() == n - i);
            assert(files_view(rest@)[0] == file_view(rest@[0]));
        }
        let ghost rest_pre = rest@;
        let x = rest.remove(0);
        proof {
            assert(file_view(x) == orig[i as int]);
            assert(rest@ =~= rest_pre.drop_first());
            assert forall|k: int| 0 <= k < rest@.len() implies #[trigger] files_view(rest@)[k]
                == orig.skip(i + 1)[k] by {
                assert(files_view(rest@)[k] == file_view(rest@[k]));
                assert(rest@[k] == rest_pre[k + 1]);
                assert(files_view(rest_pre)[k + 1] == file_view(rest_pre[k + 1]));
            }
            assert(files_view(rest@) =~= orig.skip(i + 1));
        }
        let mut j: usize = 0;
        while j < out.len() && out[j].modified_secs >= x.modified_secs
            invariant
                0 <= j <= out@.len(),
                forall|k: int|
                    0 <= k < j ==> (#[trigger] files_view(out@)[k]).modified_secs
                        >= x.modified_secs,
            decreases out@.len() - j,
        {
            proof {
                assert(files_view(out@)[j as int] == file_view(out@[j as int]));
            }
            j += 1;
        }
        proof {
            if (j as int) < out@.len() {
                assert(files_view(out@)[j as int] == file_view(out@[j as int]));
            }
        }
        let ghost out_pre = files_view(out@);
        out.insert(j, x);
        i += 1;
        proof {
            let xv = file_view(x);
            lemma_insert_file_at(xv, out_pre, j as int);
            assert(files_view(out@) =~~= out_pre.take(j as int) + seq![xv] + out_pre.skip(
                j as int,
            ));
            assert(orig.take(i as int).drop_last() =~= orig.take(i - 1));
            assert(orig.take(i as int).last() == orig[i - 1]);
            assert(sort_files_desc(orig.take(i as int)) == insert_file_desc(
                xv,
                sort_files_desc(orig.take(i - 1)),
            ));
            assert(files_view(out@) =~~= insert_file_desc(xv, out_pre));
        }
    }
    proof {
        assert(orig.take(n as int) =~= orig);
    }
    out
}

/// The processes sorted by start time descending, stably.
fn sort_procs(procs: Vec<ClaudeProcess>) -> (r: Vec<ClaudeProcess>)
    ensures
        procs_view(r@) == sort_procs_desc(procs_view(procs@)),
{
    let ghost orig = procs_view(procs@);
    let mut rest = procs;
    let mut out: Vec<ClaudeProcess> = Vec::new();
    let n = rest.len();
    let mut i: usize = 0;
    while i < n
        invariant
            0 <= i <= n,
            n == orig.len(),
            procs_view(rest@) == orig.skip(i as int),
            procs_view(out@) == sort_procs_desc(orig.take(i as int)),
        decreases n - i,
    {
        proof {
            assert(procs_view(rest@).len() == rest@.len());
            assert(rest@.len() == n - i);
            assert(procs_view(rest@)[0] == proc_view(rest@[0]));
        }
        let ghost rest_pre = rest@;
        let x = rest.remove(0);
        proof {
            assert(proc_view(x) == orig[i as int]);
            assert(rest@ =~= rest_pre.drop_first());
            assert forall|k: int| 0 <= k < rest@.len() implies #[trigger] procs_view(rest@)[k]
                == orig.skip(i + 1)[k] by {
                assert(procs_view(rest@)[k] == proc_view(rest@[k]));
                assert(rest@[k] == rest_pre[k + 1]);
                assert(procs_view(rest_pre)[k + 1] == proc_view(rest_pre[k + 1]));
            }
            assert(procs_view(rest@) =~= orig.skip(i + 1));
        }
        let mut j: usize = 0;
        while j < out.len() && out[j].start_time >= x.start_time
            invariant
                0 <= j <= out@.len(),
                forall|k: int|
                    0 <= k < j ==> (#[trigger] procs_view(out@)[k]).start_time >= x.start_time,
            decreases out@.len() - j,
        {
            proof {
                assert(procs_view(out@)[j as int] == proc_view(out@[j as int]));
            }
            j += 1;
        }
        proof {
            if (j as int) < out@.len() {
                assert(procs_view(out@)[j as int] == proc_view(out@[j as int]));
            }
        }
        let ghost out_pre = procs_view(out@);
        out.insert(j, x);
        i += 1;
        proof {
            let xv = proc_view(x);
            lemma_insert_proc_at(xv, out_pre, j as int);
            assert(procs_view(out@) =~~= out_pre.take(j as int) + seq![xv] + out_pre.skip(
                j as int,
            ));
            assert(orig.take(i as int).drop_last() =~= orig.take(i - 1));
            assert(orig.take(i as int).last() == orig[i - 1]);
            assert(sort_procs_desc(orig.take(i as int)) == insert_proc_desc(
                xv,
                sort_procs_desc(orig.take(i - 1)),
            ));
            assert(procs_view(out@) =~~= insert_proc_desc(xv, out_pre));
        }
    }
    proof {
        assert(orig.take(n as int) =~= orig);
    }
    out
}

/// True exactly when the id is among the claimed ones.
pub(crate) fn id_used(used: &Vec<String>, id: &str) -> (r: bool)
    ensures
        r == id_claimed(crate::text::strs_view(used@), id@),
{
    let mut i: usize = 0;
    while i < used.len()
        invariant
            0 <= i <= used@.len(),
            forall|k: int| 0 <= k < i ==> #[trigger] used@[k]@ != id@,
        decreases used@.len() - i,
    {
        if str_eq(used[i].as_str(), id) {
            proof {
                assert(crate::text::strs_view(used@)[i as int] == id@);
            }
            return true;
        }
        i += 1;
    }
    proof {
        assert forall|k: int|
            0 <= k < crate::text::strs_view(used@).len() implies #[trigger] crate::text::strs_view(
            used@,
        )[k] != id@ by {
            assert(crate::text::strs_view(used@)[k] == used@[k]@);
        }
    }
    false
}

/// True exactly when the file is a match for a process started at the given
/// time in the given working directory, whose encoded fingerprint is given.
fn record_matches(start_time: u64, cwd: &str, encoded: &str, f: &LogFileRecord) -> (r: bool)
    requires
        encoded@ == encode_path(cwd@),
    ensures
        r == (file_view(*f).modified_secs + MATCH_GRACE_SECS >= start_time && ((
        file_view(*f).has_reliable_path && path_under(cwd@, file_view(*f).project_path))
            || file_view(*f).dir_name == encode_path(cwd@))),
{
    let fresh = (f.modified_secs as u128) + (MATCH_GRACE_SECS as u128) >= (start_time as u128);
    if !fresh {
        return false;
    }
    let direct = f.has_reliable_path && path_is_under(cwd, f.project_path.as_str());
    if direct {
        return true;
    }
    str_eq(f.dir_name.as_str(), encoded)
}

/// The detected sessions: each process, most recently started first, bound
/// to the most recently modified unclaimed log file that fits it, every
/// file claimed at most once.
pub fn find_active_sessions(processes: Vec<ClaudeProcess>, session_files: Vec<LogFileRecord>) -> (r:
    Vec<DetectedSession>)
    ensures
        dets_view(r@) == correlate_spec(procs_view(processes@), files_view(session_files@)),
{
    let files = sort_files(session_files);
    let procs = sort_procs(processes);
    let mut used: Vec<String> = Vec::new();
    let mut out: Vec<DetectedSession> = Vec::new();
    let mut i: usize = 0;
    proof {
        assert(procs_view(procs@).skip(0) =~= procs_view(procs@));
        assert(crate::text::strs_view(used@) =~= Seq::<Seq<char>>::empty());
        assert(dets_view(out@) =~= Seq::<DetectedV>::empty());
    }
    while i < procs.len()
        invariant
            0 <= i <= procs@.len(),
            dets_view(out@) + claim_spec(
                procs_view(procs@).skip(i as int),
                files_view(files@),
                crate::text::strs_view(used@),
            ) == claim_spec(procs_view(procs@), files_view(files@), Seq::<Seq<char>>::empty()),
        decreases procs@.len() - i,
    {
        proof {
            assert(procs_view(procs@)[i as int] == proc_view(procs@[i as int]));
            assert(procs_view(procs@).skip(i as int)[0] == procs_view(procs@)[i as int]);
            assert(procs_view(procs@).skip(i as int).drop_first() =~= procs_view(procs@).skip(
                i + 1,
            ));
        }
        match &procs[i].cwd {
            None => {
                i += 1;
            },
            Some(cwd) => {
                let encoded = encode_cwd(cwd.as_str());
                let mut j: usize = 0;
                let mut found_at: usize = files.len();
                let mut found = false;
                while j < files.len() && !found
                    invariant
                        0 <= j <= files@.len(),
                        cwd@ == proc_view(procs@[i as int]).cwd->0,
                        encoded@ == encode_path(cwd@),
                        i < procs@.len(),
                        found ==> (found_at as int) < files@.len() && find_file_from(
                            proc_view(procs@[i as int]),
                            cwd@,
                            files_view(files@),
                            crate::text::strs_view(used@),
                            0,
                        ) == Some(found_at as int),
                        !found ==> find_file_from(
                            proc_view(procs@[i as int]),
                            cwd@,
                            files_view(files@),
                            crate::text::strs_view(used@),
                            0,
                        ) == find_file_from(
                            proc_view(procs@[i as int]),
                            cwd@,
                            files_view(files@),
                            crate::text::strs_view(used@),
                            j as int,
                        ),
                    decreases files@.len() - j, (if found { 0int } else { 1int }),
                {
                    proof {
                        assert(files_view(files@)[j as int] == file_view(files@[j as int]));
                    }
                    let unclaimed = !id_used(&used, files[j].session_id.as_str());
                    if unclaimed && record_matches(procs[i].start_time, cwd.as_str(), encoded.as_str(), &files[j]) {
                        found = true;
                        found_at = j;
                        proof {
                            assert(file_matches(
                                proc_view(procs@[i as int]),
                                cwd@,
                                files_view(files@)[j as int],
                            ));
                        }
                    } else {
                        proof {
                            assert(!(!id_claimed(
                                crate::text::strs_view(used@),
                                files_view(files@)[j as int].session_id,
                            ) && file_matches(
                                proc_view(procs@[i as int]),
                                cwd@,
                                files_view(files@)[j as int],
                            )));
                        }
                        j += 1;
                    }
                }
                if found {
                    let f = &files[found_at];
                    proof {
                        assert(files_view(files@)[found_at as int] == file_view(
                            files@[found_at as int],
                        ));
                    }
                    let ghost used_pre = crate::text::strs_view(used@);
                    let ghost out_pre = dets_view(out@);
                    out.push(
                        DetectedSession {
                            pid: procs[i].pid,
                            cwd: cwd.clone(),
                            project_path: f.project_dir.clone(),
                            session_id: Some(f.session_id.clone()),
                            project_name: f.project_name.clone(),
                        },
                    );
                    used.push(f.session_id.clone());
                    i += 1;
                    proof {
                        let pv = procs_view(procs@);
                        let fv = files_view(files@);
                        assert(crate::text::strs_view(used@) =~= used_pre.push(
                            fv[found_at as int].session_id,
                        ));
                        assert(dets_view(out@) =~~= out_pre.push(
                            make_detected(pv[i - 1], pv[i - 1].cwd->0, fv[found_at as int]),
                        ));
                        assert(claim_spec(pv.skip(i - 1), fv, used_pre) =~= seq![
                            make_detected(pv[i - 1], pv[i - 1].cwd->0, fv[found_at as int]),
                        ] + claim_spec(pv.skip(i as int), fv, used_pre.push(
                            fv[found_at as int].session_id,
                        )));
                        assert(dets_view(out@) + claim_spec(
                            pv.skip(i as int),
                            fv,
                            crate::text::strs_view(used@),
                        ) =~~= out_pre + claim_spec(pv.skip(i - 1), fv, used_pre));
                    }
                } else {
                    proof {
                        assert(find_file_from(
                            proc_view(procs@[i as int]),
                            cwd@,
                            files_view(files@),
                            crate::text::strs_view(used@),
                            j as int,
                        ) is None);
                    }
                    i += 1;
                }
            },
        }
    }
    proof {
        assert(procs_view(procs@).skip(procs@.len() as int) =~= Seq::<ProcV>::empty());
        assert(dets_view(out@) + Seq::<DetectedV>::empty() =~= dets_view(out@));
    }
    out
}

/// The candidate list is ordered most recently modified first.
pub open spec fn files_sorted_desc(s: Seq<FileV>) -> bool {
    forall|i: int, j: int|
        #![trigger s[i], s[j]]
        0 <= i <= j < s.len() ==> s[i].modified_secs >= s[j].modified_secs
}

proof fn lemma_insert_file_desc_bounds(x: FileV, s: Seq<FileV>, b: u64)
    requires
        b >= x.modified_secs,
        forall|k: int| 0 <= k < s.len() ==> b >= (#[trigger] s[k]).modified_secs,
    ensures
        forall|k: int|
            0 <= k < insert_file_desc(x, s).len() ==> b >= (#[trigger] insert_file_desc(
                x,
                s,
            )[k]).modified_secs,
    decreases s.len(),
{
    if s.len() == 0 {
    } else if s[0].modified_secs >= x.modified_secs {
        assert forall|k: int| 0 <= k < s.drop_first().len() implies b >= (
        #[trigger] s.drop_first()[k]).modified_secs by {
            assert(s.drop_first()[k] == s[k + 1]);
        }
        lemma_insert_file_desc_bounds(x, s.drop_first(), b);
        assert forall|k: int|
            0 <= k < insert_file_desc(x, s).len() implies b >= (#[trigger] insert_file_desc(
            x,
            s,
        )[k]).modified_secs by {
            if k == 0 {
                assert(insert_file_desc(x, s)[0] == s[0]);
            } else {
                assert(insert_file_desc(x, s)[k] == insert_file_desc(x, s.drop_first())[k - 1]);
            }
        }
    } else {
        assert forall|k: int|
            0 <= k < insert_file_desc(x, s).len() implies b >= (#[trigger] insert_file_desc(
            x,
            s,
        )[k]).modified_secs by {
            if k == 0 {
                assert(insert_file_desc(x, s)[0] == x);
            } else {
                assert(insert_file_desc(x, s)[k] == s[k - 1]);
            }
        }
    }
}

proof fn lemma_insert_file_desc_sorted(x: FileV, s: Seq<FileV>)
    requires
        files_sorted_desc(s),
    ensures
        files_sorted_desc(insert_file_desc(x, s)),
    decreases s.len(),
{
    if s.len() == 0 {
    } else if s[0].modified_secs >= x.modified_secs {
        assert(files_sorted_desc(s.drop_first())) by {
            assert forall|i: int, j: int|
                #![trigger s.drop_first()[i], s.drop_first()[j]]
                0 <= i <= j < s.drop_first().len() implies s.drop_first()[i].modified_secs
                >= s.drop_first()[j].modified_secs by {
                assert(s.drop_first()[i] == s[i + 1]);
                assert(s.drop_first()[j] == s[j + 1]);
            }
        }
        lemma_insert_file_desc_sorted(x, s.drop_first());
        assert forall|k: int| 0 <= k < s.drop_first().len() implies s[0].modified_secs >= (
        #[trigger] s.drop_first()[k]).modified_secs by {
            assert(s.drop_first()[k] == s[k + 1]);
        }
        lemma_insert_file_desc_bounds(x, s.drop_first(), s[0].modified_secs);
        let r = insert_file_desc(x, s);
        assert forall|i: int, j: int|
            #![trigger r[i], r[j]]
            0 <= i <= j < r.len() implies r[i].modified_secs >= r[j].modified_secs by {
            if i == 0 {
                assert(r[0] == s[0]);
                if j > 0 {
                    assert(r[j] == insert_file_desc(x, s.drop_first())[j - 1]);
                }
            } else {
                assert(r[i] == insert_file_desc(x, s.drop_first())[i - 1]);
                assert(r[j] == insert_file_desc(x, s.drop_first())[j - 1]);
            }
        }
    } else {
        let r = insert_file_desc(x, s);
        assert forall|i: int, j: int|
            #![trigger r[i], r[j]]
            0 <= i <= j < r.len() implies r[i].modified_secs >= r[j].modified_secs by {
            if i == 0 {
                assert(r[0] == x);
                if j > 0 {
                    assert(r[j] == s[j - 1]);
                }
            } else {
                assert(r[i] == s[i - 1]);
                assert(r[j] == s[j - 1]);
            }
        }
    }
}

/// The correlator's candidate order is really most-recent-first.
pub proof fn lemma_sort_files_desc_sorted(s: Seq<FileV>)
    ensures
        files_sorted_desc(sort_files_desc(s)),
    decreases s.len(),
{
    if s.len() > 0 {
        lemma_sort_files_desc_sorted(s.drop_last());
        lemma_insert_file_desc_sorted(s.last(), sort_files_desc(s.drop_last()));
    }
}

/// The whole of the correlator's candidate rule, over the sorted list the
/// claiming pass walks: the bound file is unclaimed, fits the process, was
/// modified no earlier than the start minus the grace — and it is the most
/// recently modified among all unclaimed matching candidates, so an older
/// log in the same directory is never taken when a fresher one fits.
pub proof fn lemma_binding_takes_freshest_match(
    p: ProcV,
    cwd: Seq<char>,
    files: Seq<FileV>,
    claimed: Seq<Seq<char>>,
    j: int,
)
    requires
        files_sorted_desc(files),
        find_file_from(p, cwd, files, claimed, 0) == Some(j),
    ensures
        0 <= j < files.len(),
        !id_claimed(claimed, files[j].session_id),
        file_matches(p, cwd, files[j]),
        files[j].modified_secs + MATCH_GRACE_SECS >= p.start_time,
        forall|k: int|
            0 <= k < files.len() && !id_claimed(claimed, (#[trigger] files[k]).session_id)
                && file_matches(p, cwd, files[k]) ==> files[j].modified_secs
                >= files[k].modified_secs,
{
    lemma_find_file_from_props(p, cwd, files, claimed, 0, j);
    assert forall|k: int|
        0 <= k < files.len() && !id_claimed(claimed, (#[trigger] files[k]).session_id)
            && file_matches(p, cwd, files[k]) implies files[j].modified_secs
        >= files[k].modified_secs by {
        if k < j {
            assert(!(!id_claimed(claimed, files[k].session_id) && file_matches(
                p,
                cwd,
                files[k],
            )));
        }
    }
}

/// Every binding the correlator makes respects the process's start time:
/// the bound file was modified at or after the start, within the grace —
/// and the file bound is the first fitting one in most-recent order, so no
/// older file in the same directory is taken when a fresh one fits.
pub proof fn lemma_binding_respects_start(
    p: ProcV,
    cwd: Seq<char>,
    files: Seq<FileV>,
    claimed: Seq<Seq<char>>,
    j: int,
)
    requires
        find_file_from(p, cwd, files, claimed, 0) == Some(j),
    ensures
        0 <= j < files.len(),
        files[j].modified_secs + MATCH_GRACE_SECS >= p.start_time,
        forall|k: int|
            0 <= k < j ==> !(!id_claimed(claimed, (#[trigger] files[k]).session_id)
                && file_matches(p, cwd, files[k])),
{
    lemma_find_file_from_props(p, cwd, files, claimed, 0, j);
}

proof fn lemma_find_file_from_props(
    p: ProcV,
    cwd: Seq<char>,
    files: Seq<FileV>,
    claimed: Seq<Seq<char>>,
    start: int,
    j: int,
)
    requires
        0 <= start,
        find_file_from(p, cwd, files, claimed, start) == Some(j),
    ensures
        start <= j < files.len(),
        !id_claimed(claimed, files[j].session_id),
        file_matches(p, cwd, files[j]),
        files[j].modified_secs + MATCH_GRACE_SECS >= p.start_time,
        forall|k: int|
            start <= k < j ==> !(!id_claimed(claimed, (#[trigger] files[k]).session_id)
                && file_matches(p, cwd, files[k])),
    decreases files.len() - start,
{
    if start >= files.len() {
    } else if !id_claimed(claimed, files[start].session_id) && file_matches(
        p,
        cwd,
        files[start],
    ) {
    } else {
        lemma_find_file_from_props(p, cwd, files, claimed, start + 1, j);
    }
}

} // verus!