//! Configuration: the process environment, then php.ini, then the nearest
//! `.chronos` file.
//!
//! A setting has one canonical name (`CHRONOS_PHP_APM_ENABLED`), and the other
//! spellings follow from it: `chronos.apm_enabled` in php.ini, `apm_enabled` or
//! the full name in a `.chronos` file. The environment and php.ini belong to
//! whoever runs the platform and are taken as given; what the file says of the
//! identity and of the spool directory is checked first.

use crate::text::{
    begins, chars_of, copy, first_of, lemma_first_of, lowercase, nonempty, opt_text, opt_view,
    parse_unsigned, parsed, same, split, split_on, starts_with, string_of, strip_prefix, texts,
    to_lowercase, trim, trimmed,
};
use vstd::prelude::*;

verus! {

/// Every setting, by its canonical name.
pub open spec fn setting_list() -> Seq<Seq<char>> {
    seq![
        "CHRONOS_PHP_ENABLED"@,
        "CHRONOS_PHP_ORGANISATION"@,
        "CHRONOS_PHP_TEAM_ID"@,
        "CHRONOS_PHP_PROJECT"@,
        "CHRONOS_PHP_APPLICATION"@,
        "CHRONOS_PHP_SPOOL_DIRECTORY"@,
        "CHRONOS_APP_VERSION"@,
        "CHRONOS_APP_COMMIT"@,
        "CHRONOS_APP_BRANCH"@,
        "CHRONOS_PHP_APP_LANGUAGE_VERSION"@,
        "CHRONOS_PHP_APP_FRAMEWORK"@,
        "CHRONOS_PHP_APP_FRAMEWORK_VERSION"@,
        "CHRONOS_PHP_APM_ENABLED"@,
        "CHRONOS_PHP_LOGS_ENABLED"@,
        "CHRONOS_PHP_PROFILER_ENABLED"@,
        "CHRONOS_PHP_CLI_ENABLED"@,
        "CHRONOS_PHP_DST_ENABLED"@,
        "CHRONOS_PHP_ENV"@,
        "CHRONOS_PHP_APM_SAMPLE_RATE"@,
        "CHRONOS_PHP_PROFILE_REQUEST_RATE"@,
        "CHRONOS_PHP_PROFILE_JOB_RATE"@,
        "CHRONOS_PHP_SAMPLE_RATE_DENOMINATOR"@,
        "CHRONOS_PHP_PROFILE_TOKEN"@,
        "CHRONOS_PHP_PROFILE_SAMPLE_RATE"@,
        "CHRONOS_PHP_PROFILE_TYPES"@,
        "CHRONOS_PHP_PROFILE_SERIES_ID"@,
        "CHRONOS_PHP_PROFILE_IO_MIN_US"@,
        "CHRONOS_PHP_PROFILE_DETERMINISTIC"@,
        "CHRONOS_PHP_PROFILE_DETERMINISTIC_MAX_FUNCTIONS"@,
        "CHRONOS_PHP_PROFILE_EDGES"@,
        "CHRONOS_PHP_PROFILE_EDGES_MAX"@,
        "CHRONOS_PHP_PROFILE_ARGS"@,
        "CHRONOS_PHP_PROFILE_ARGS_MAX_ARGS"@,
        "CHRONOS_PHP_PROFILE_ARGS_MAX_ARG_BYTES"@,
        "CHRONOS_PHP_PROFILE_ARGS_MAX_TOTAL_BYTES"@,
        "CHRONOS_PHP_PROFILE_ARGS_MAX_INVOCATIONS"@,
        "CHRONOS_PHP_SPAN_ALL_USERLAND"@,
        "CHRONOS_PHP_SPAN_MIN_DURATION_US"@,
        "CHRONOS_PHP_EXCLUDE_PATHS"@,
        "CHRONOS_PHP_INSTRUMENTATION_MANIFEST"@,
        "CHRONOS_PHP_LOCAL_RICH_TELEMETRY"@,
        "CHRONOS_PHP_HTTP_CAPTURE"@,
        "CHRONOS_PHP_HTTP_CAPTURE_BODIES"@,
        "CHRONOS_PHP_HTTP_CAPTURE_MAX_BODY"@,
        "CHRONOS_PHP_HTTP_CAPTURE_RESPONSE_BUFFER"@,
        "CHRONOS_PHP_HTTP_CAPTURE_REDACT"@,
        "CHRONOS_PHP_REDACT_PATTERNS"@,
        "CHRONOS_PHP_MESSAGING_CAPTURE_BODIES"@,
        "CHRONOS_PHP_MESSAGING_CAPTURE_MAX_BODY"@,
        "CHRONOS_PHP_DST_CALL_PATH_MAX"@,
        "CHRONOS_PHP_DST_CALL_PATH_MAX_DEPTH"@,
        "CHRONOS_PHP_SPOOL_MAX_BYTES"@,
    ]
}

/// Every setting, by its canonical name. php.ini knows the settings in this list
/// and no others.
pub fn setting_names() -> (r: Vec<&'static str>)
    ensures
        r@.len() == setting_list().len(),
        forall|i: int| 0 <= i < r@.len() ==> (#[trigger] r@[i])@ == setting_list()[i],
{
    let mut v: Vec<&'static str> = Vec::new();
    v.push("CHRONOS_PHP_ENABLED");
    v.push("CHRONOS_PHP_ORGANISATION");
    v.push("CHRONOS_PHP_TEAM_ID");
    v.push("CHRONOS_PHP_PROJECT");
    v.push("CHRONOS_PHP_APPLICATION");
    v.push("CHRONOS_PHP_SPOOL_DIRECTORY");
    v.push("CHRONOS_APP_VERSION");
    v.push("CHRONOS_APP_COMMIT");
    v.push("CHRONOS_APP_BRANCH");
    v.push("CHRONOS_PHP_APP_LANGUAGE_VERSION");
    v.push("CHRONOS_PHP_APP_FRAMEWORK");
    v.push("CHRONOS_PHP_APP_FRAMEWORK_VERSION");
    v.push("CHRONOS_PHP_APM_ENABLED");
    v.push("CHRONOS_PHP_LOGS_ENABLED");
    v.push("CHRONOS_PHP_PROFILER_ENABLED");
    v.push("CHRONOS_PHP_CLI_ENABLED");
    v.push("CHRONOS_PHP_DST_ENABLED");
    v.push("CHRONOS_PHP_ENV");
    v.push("CHRONOS_PHP_APM_SAMPLE_RATE");
    v.push("CHRONOS_PHP_PROFILE_REQUEST_RATE");
    v.push("CHRONOS_PHP_PROFILE_JOB_RATE");
    v.push("CHRONOS_PHP_SAMPLE_RATE_DENOMINATOR");
    v.push("CHRONOS_PHP_PROFILE_TOKEN");
    v.push("CHRONOS_PHP_PROFILE_SAMPLE_RATE");
    v.push("CHRONOS_PHP_PROFILE_TYPES");
    v.push("CHRONOS_PHP_PROFILE_SERIES_ID");
    v.push("CHRONOS_PHP_PROFILE_IO_MIN_US");
    v.push("CHRONOS_PHP_PROFILE_DETERMINISTIC");
    v.push("CHRONOS_PHP_PROFILE_DETERMINISTIC_MAX_FUNCTIONS");
    v.push("CHRONOS_PHP_PROFILE_EDGES");
    v.push("CHRONOS_PHP_PROFILE_EDGES_MAX");
    v.push("CHRONOS_PHP_PROFILE_ARGS");
    v.push("CHRONOS_PHP_PROFILE_ARGS_MAX_ARGS");
    v.push("CHRONOS_PHP_PROFILE_ARGS_MAX_ARG_BYTES");
    v.push("CHRONOS_PHP_PROFILE_ARGS_MAX_TOTAL_BYTES");
    v.push("CHRONOS_PHP_PROFILE_ARGS_MAX_INVOCATIONS");
    v.push("CHRONOS_PHP_SPAN_ALL_USERLAND");
    v.push("CHRONOS_PHP_SPAN_MIN_DURATION_US");
    v.push("CHRONOS_PHP_EXCLUDE_PATHS");
    v.push("CHRONOS_PHP_INSTRUMENTATION_MANIFEST");
    v.push("CHRONOS_PHP_LOCAL_RICH_TELEMETRY");
    v.push("CHRONOS_PHP_HTTP_CAPTURE");
    v.push("CHRONOS_PHP_HTTP_CAPTURE_BODIES");
    v.push("CHRONOS_PHP_HTTP_CAPTURE_MAX_BODY");
    v.push("CHRONOS_PHP_HTTP_CAPTURE_RESPONSE_BUFFER");
    v.push("CHRONOS_PHP_HTTP_CAPTURE_REDACT");
    v.push("CHRONOS_PHP_REDACT_PATTERNS");
    v.push("CHRONOS_PHP_MESSAGING_CAPTURE_BODIES");
    v.push("CHRONOS_PHP_MESSAGING_CAPTURE_MAX_BODY");
    v.push("CHRONOS_PHP_DST_CALL_PATH_MAX");
    v.push("CHRONOS_PHP_DST_CALL_PATH_MAX_DEPTH");
    v.push("CHRONOS_PHP_SPOOL_MAX_BYTES");
    v
}

/// A text without a prefix, or as it is.
pub open spec fn unprefixed(s: Seq<char>, prefix: Seq<char>) -> Option<Seq<char>> {
    if begins(s, prefix) {
        Some(s.skip(prefix.len() as int))
    } else {
        None
    }
}

/// The short spelling of a setting: without its prefix, in lower case.
pub open spec fn short(env_name: Seq<char>) -> Seq<char> {
    lowercase(
        match unprefixed(env_name, "CHRONOS_PHP_"@) {
            Some(s) => s,
            None => match unprefixed(env_name, "CHRONOS_"@) {
                Some(s) => s,
                None => env_name,
            },
        },
    )
}

/// The short spelling of a setting.
pub fn short_key(env_name: &str) -> (r: String)
    ensures
        r@ == short(env_name@),
{
    let s = match strip_prefix(env_name, "CHRONOS_PHP_") {
        Some(s) => s,
        None => match strip_prefix(env_name, "CHRONOS_") {
            Some(s) => s,
            None => copy(env_name),
        },
    };
    to_lowercase(s.as_str())
}

/// The php.ini spelling of a setting.
pub fn ini_name(env_name: &str) -> (r: String)
    ensures
        r@ == "chronos."@ + short(env_name@),
{
    let mut out = copy("chronos.");
    out.append(short_key(env_name).as_str());
    out
}

/// Texts by key. A later entry under a key stands in place of an earlier one.
pub struct Table {
    entries: Vec<(String, String)>,
}

/// The map that a list of entries makes.
pub open spec fn map_of(p: Seq<(Seq<char>, Seq<char>)>) -> Map<Seq<char>, Seq<char>>
    decreases p.len(),
{
    if p.len() == 0 {
        Map::empty()
    } else {
        map_of(p.drop_last()).insert(p.last().0, p.last().1)
    }
}

impl View for Table {
    type V = Map<Seq<char>, Seq<char>>;

    closed spec fn view(&self) -> Map<Seq<char>, Seq<char>> {
        map_of(crate::text::pairs(self.entries@))
    }
}

/// The value under a key of a map.
pub open spec fn at(m: Map<Seq<char>, Seq<char>>, key: Seq<char>) -> Option<Seq<char>> {
    if m.contains_key(key) {
        Some(m[key])
    } else {
        None
    }
}

impl Table {
    pub fn new() -> (r: Table)
        ensures
            r@ == Map::<Seq<char>, Seq<char>>::empty(),
    {
        let r = Table { entries: Vec::new() };
        assert(crate::text::pairs(r.entries@) =~= Seq::empty());
        r
    }

    pub fn insert(&mut self, key: &str, value: &str)
        ensures
            final(self)@ == old(self)@.insert(key@, value@),
    {
        let ghost before = crate::text::pairs(self.entries@);
        self.entries.push((copy(key), copy(value)));
        let ghost after = crate::text::pairs(self.entries@);
        assert(after.drop_last() =~= before);
        assert(after.last() == (key@, value@));
    }

    pub fn get(&self, key: &str) -> (r: Option<String>)
        ensures
            opt_text(r) == at(self@, key@),
    {
        let ghost all = crate::text::pairs(self.entries@);
        let mut i: usize = self.entries.len();
        assert(all.take(all.len() as int) =~= all);
        while i > 0
            invariant
                i <= self.entries@.len(),
                all == crate::text::pairs(self.entries@),
                at(map_of(all.take(i as int)), key@) == at(map_of(all), key@),
            decreases i,
        {
            assert(all.take(i as int).drop_last() =~= all.take(i - 1));
            assert(all.take(i as int).last() == all[i - 1]);
            if same(self.entries[i - 1].0.as_str(), key) {
                return Some(self.entries[i - 1].1.clone());
            }
            i = i - 1;
        }
        assert(all.take(0) =~= Seq::empty());
        None
    }
}

/// A text without the quotes around it, when the same kind stands at both ends.
pub open spec fn unquoted(s: Seq<char>) -> Seq<char> {
    if s.len() >= 2 && ((s[0] == '"' && s.last() == '"') || (s[0] == '\'' && s.last() == '\'')) {
        s.subrange(1, s.len() - 1)
    } else {
        s
    }
}

fn unquote(s: &str) -> (r: String)
    ensures
        r@ == unquoted(s@),
{
    let v = chars_of(s);
    let n: usize = v.len();
    if n >= 2 && ((v[0] == '"' && v[n - 1] == '"') || (v[0] == '\'' && v[n - 1] == '\'')) {
        string_of(&v, 1, n - 1)
    } else {
        copy(s)
    }
}

/// The key and value of a line of a `.chronos` file. Blank lines, comments and
/// lines without a key have none; `export` may stand before the key.
pub open spec fn file_entry(line: Seq<char>) -> Option<(Seq<char>, Seq<char>)> {
    let t = trimmed(line);
    if t.len() == 0 || begins(t, "#"@) {
        None
    } else {
        let body = trimmed(
            match unprefixed(t, "export "@) {
                Some(s) => s,
                None => t,
            },
        );
        let k = first_of(body, '=') as int;
        if k >= body.len() {
            None
        } else {
            let key = trimmed(body.take(k));
            if key.len() == 0 {
                None
            } else {
                Some((key, unquoted(trimmed(body.skip(k + 1)))))
            }
        }
    }
}

fn read_entry(line: &str) -> (r: Option<(String, String)>)
    ensures
        match r {
            Some(e) => file_entry(line@) == Some((e.0@, e.1@)),
            None => file_entry(line@) is None,
        },
{
    let t = trim(line);
    if t.as_str().is_empty() || starts_with(t.as_str(), "#") {
        return None;
    }
    let inner = match strip_prefix(t.as_str(), "export ") {
        Some(s) => s,
        None => t,
    };
    let body = trim(inner.as_str());
    let v = chars_of(body.as_str());
    let mut i: usize = 0;
    while i < v.len() && v[i] != '='
        invariant
            i <= v@.len(),
            forall|j: int| 0 <= j < i ==> v@[j] != '=',
        decreases v@.len() - i,
    {
        i = i + 1;
    }
    proof {
        lemma_first_of(v@, '=', i as int);
    }
    if i == v.len() {
        return None;
    }
    let left = string_of(&v, 0, i);
    let right = string_of(&v, i + 1, v.len());
    assert(left@ =~= body@.take(i as int));
    assert(right@ =~= body@.skip(i + 1));
    let key = trim(left.as_str());
    if key.as_str().is_empty() {
        return None;
    }
    let value = unquote(trim(right.as_str()).as_str());
    Some((key, value))
}

/// The map that the lines of a file make: each entry under its key as written
/// and in lower case.
pub open spec fn file_map(lines: Seq<Seq<char>>) -> Map<Seq<char>, Seq<char>>
    decreases lines.len(),
{
    if lines.len() == 0 {
        Map::empty()
    } else {
        let before = file_map(lines.drop_last());
        match file_entry(lines.last()) {
            Some(e) => before.insert(e.0, e.1).insert(lowercase(e.0), e.1),
            None => before,
        }
    }
}

/// Read a `.chronos` file.
pub fn parse_chronos_file(body: &str) -> (r: Table)
    ensures
        r@ == file_map(split(body@, '\n')),
{
    let lines = split_on(body, '\n');
    let ghost all = texts(lines@);
    let mut out = Table::new();
    let mut i: usize = 0;
    assert(file_map(all.take(0)) =~= out@);
    while i < lines.len()
        invariant
            i <= lines@.len(),
            all == texts(lines@),
            out@ == file_map(all.take(i as int)),
        decreases lines@.len() - i,
    {
        assert(all.take(i + 1).drop_last() =~= all.take(i as int));
        assert(all.take(i + 1).last() == all[i as int]);
        if let Some(e) = read_entry(lines[i].as_str()) {
            out.insert(e.0.as_str(), e.1.as_str());
            let low = to_lowercase(e.0.as_str());
            out.insert(low.as_str(), e.1.as_str());
        }
        i = i + 1;
    }
    assert(all.take(all.len() as int) =~= all);
    out
}

/// A place that tells where the application lies.
#[derive(Clone, Copy, Debug, PartialEq, Eq, Structural)]
pub enum Start {
    DocumentRoot,
    ScriptDirectory,
    /// A script path that lies in no directory, taken as it is.
    Script,
    WorkingDirectory,
}

/// Where the search for the file starts, first to last: at the document root, in
/// the script's directory, in the working directory, each as far as it is known.
pub open spec fn starts(
    document_root: Seq<char>,
    script: Seq<char>,
    script_has_directory: bool,
    has_working_directory: bool,
) -> Seq<Start> {
    let root = if document_root.len() > 0 {
        seq![Start::DocumentRoot]
    } else {
        Seq::empty()
    };
    let scripted = if script.len() == 0 {
        root
    } else if script_has_directory {
        root.push(Start::ScriptDirectory)
    } else {
        root.push(Start::Script)
    };
    if has_working_directory {
        scripted.push(Start::WorkingDirectory)
    } else {
        scripted
    }
}

/// Where the search for the file starts, first to last.
pub fn starting_points(
    document_root: &str,
    script: &str,
    script_has_directory: bool,
    has_working_directory: bool,
) -> (r: Vec<Start>)
    ensures
        r@ == starts(document_root@, script@, script_has_directory, has_working_directory),
{
    let mut out: Vec<Start> = Vec::new();
    if !document_root.is_empty() {
        out.push(Start::DocumentRoot);
    }
    if !script.is_empty() {
        if script_has_directory {
            out.push(Start::ScriptDirectory);
        } else {
            out.push(Start::Script);
        }
    }
    if has_working_directory {
        out.push(Start::WorkingDirectory);
    }
    out
}

/// What comes next in the search for the file.
#[derive(Clone, Copy, Debug, PartialEq, Eq, Structural)]
pub enum Step {
    /// Look in the starting point at this place of the list.
    From(usize),
    /// Look in the directory above the one looked in last.
    Above,
    /// What was read last is the file.
    Take,
    /// There is no file.
    Stop,
}

/// How a search over some starting points begins.
pub open spec fn first_step(starts: usize) -> Step {
    if starts > 0 {
        Step::From(0)
    } else {
        Step::Stop
    }
}

/// How a search goes on from the walk that began at starting point `from`: what
/// can be read is taken; else the walk goes up to the root of the filesystem,
/// and the next starting point is tried after that.
pub open spec fn next_step(starts: usize, from: usize, readable: bool, has_parent: bool) -> Step {
    if readable {
        Step::Take
    } else if has_parent {
        Step::Above
    } else if from + 1 < starts {
        Step::From((from + 1) as usize)
    } else {
        Step::Stop
    }
}

/// Begin the search for the file.
pub fn begin_search(starts: &Vec<Start>) -> (r: Step)
    ensures
        r == first_step(starts@.len() as usize),
{
    if starts.len() > 0 {
        Step::From(0)
    } else {
        Step::Stop
    }
}

/// Go on with the search: `read` is what reading the file in the directory looked
/// in last gave, and `has_parent` whether a directory lies above that one.
pub fn go_on_searching(
    starts: &Vec<Start>,
    from: usize,
    read: &Option<String>,
    has_parent: bool,
) -> (r: Step)
    requires
        from < starts@.len(),
    ensures
        r == next_step(starts@.len() as usize, from, *read is Some, has_parent),
{
    let count: usize = starts.len();
    if read.is_some() {
        Step::Take
    } else if has_parent {
        Step::Above
    } else if from + 1 < count {
        Step::From(from + 1)
    } else {
        Step::Stop
    }
}

/// Where a search ends that stands in a walk at some level, by starting point and
/// level. `walks` holds for each starting point what can be read in it and in each
/// directory above it, nearest first.
pub open spec fn ends_at(walks: Seq<Seq<Option<Seq<char>>>>, from: nat, level: nat) -> Option<
    (nat, nat),
>
    decreases walks.len() - from, walks[from as int].len() - level,
{
    if from >= walks.len() || level >= walks[from as int].len() || walks.len() > usize::MAX {
        None
    } else {
        let readable = walks[from as int][level as int] is Some;
        let has_parent = level + 1 < walks[from as int].len();
        match next_step(walks.len() as usize, from as usize, readable, has_parent) {
            Step::Take => Some((from, level)),
            Step::Above => ends_at(walks, from, level + 1),
            Step::From(next) => ends_at(walks, next as nat, 0),
            Step::Stop => None,
        }
    }
}

/// Where a whole search ends.
pub open spec fn found(walks: Seq<Seq<Option<Seq<char>>>>) -> Option<(nat, nat)> {
    match first_step(walks.len() as usize) {
        Step::From(from) => ends_at(walks, from as nat, 0),
        _ => None,
    }
}

/// Whether one place comes before another: in an earlier walk, or nearer in the
/// same one.
pub open spec fn comes_before(from: int, level: int, other: (nat, nat)) -> bool {
    from < other.0 || from == other.0 && level < other.1
}

/// The nearest file that can be read wins: no earlier starting point has a
/// readable file above it, nor does a nearer directory hold one. Nothing is found
/// only where there is nothing to read.
pub proof fn law_the_nearest_file_wins(walks: Seq<Seq<Option<Seq<char>>>>)
    requires
        walks.len() <= usize::MAX,
        forall|i: int| 0 <= i < walks.len() ==> (#[trigger] walks[i]).len() > 0,
    ensures
        match found(walks) {
            Some(p) => {
                &&& p.0 < walks.len() && p.1 < walks[p.0 as int].len()
                &&& walks[p.0 as int][p.1 as int] is Some
                &&& forall|i: int, j: int|
                    0 <= i < walks.len() && 0 <= j < walks[i].len() && comes_before(i, j, p)
                        ==> #[trigger] walks[i][j] is None
            },
            None => forall|i: int, j: int|
                0 <= i < walks.len() && 0 <= j < walks[i].len() ==> #[trigger] walks[i][j] is None,
        },
{
    if walks.len() > 0 {
        lemma_ends_at(walks, 0, 0);
    }
}

proof fn lemma_ends_at(walks: Seq<Seq<Option<Seq<char>>>>, from: nat, level: nat)
    requires
        walks.len() <= usize::MAX,
        forall|i: int| 0 <= i < walks.len() ==> (#[trigger] walks[i]).len() > 0,
        from < walks.len(),
        level < walks[from as int].len(),
        forall|i: int, j: int|
            0 <= i < walks.len() && 0 <= j < walks[i].len() && comes_before(i, j, (from, level))
                ==> #[trigger] walks[i][j] is None,
    ensures
        match ends_at(walks, from, level) {
            Some(p) => {
                &&& p.0 < walks.len() && p.1 < walks[p.0 as int].len()
                &&& walks[p.0 as int][p.1 as int] is Some
                &&& forall|i: int, j: int|
                    0 <= i < walks.len() && 0 <= j < walks[i].len() && comes_before(i, j, p)
                        ==> #[trigger] walks[i][j] is None
            },
            None => forall|i: int, j: int|
                0 <= i < walks.len() && 0 <= j < walks[i].len() ==> #[trigger] walks[i][j] is None,
        },
    decreases walks.len() - from, walks[from as int].len() - level,
{
    if walks[from as int][level as int] is None {
        if level + 1 < walks[from as int].len() {
            lemma_ends_at(walks, from, level + 1);
        } else if from + 1 < walks.len() {
            lemma_ends_at(walks, from + 1, 0);
        }
    }
}

/// The settings whose value in a file must be shaped like an identifier.
pub open spec fn is_identity(env_name: Seq<char>) -> bool {
    ||| env_name == "CHRONOS_PHP_ORGANISATION"@
    ||| env_name == "CHRONOS_PHP_TEAM_ID"@
    ||| env_name == "CHRONOS_PHP_PROJECT"@
    ||| env_name == "CHRONOS_PHP_APPLICATION"@
}

/// A character of an identifier.
pub open spec fn identifier_char(c: char) -> bool {
    ||| 'A' <= c <= 'Z'
    ||| 'a' <= c <= 'z'
    ||| '0' <= c <= '9'
    ||| c == '.'
    ||| c == '_'
    ||| c == '-'
}

/// The longest identifier, in bytes.
pub const MAX_IDENTIFIER_BYTES: usize = 128;

/// Whether a value is shaped like an identifier.
pub open spec fn identifier(value: Seq<char>) -> bool {
    1 <= value.len() <= MAX_IDENTIFIER_BYTES && forall|i: int|
        0 <= i < value.len() ==> identifier_char(#[trigger] value[i])
}

/// Whether a path is absolute and has no `..` segment.
pub open spec fn plain_path(value: Seq<char>) -> bool {
    begins(value, "/"@) && !split(value, '/').contains(".."@)
}

/// Whether a value is acceptable for a setting when it comes from a file.
pub open spec fn acceptable(env_name: Seq<char>, value: Seq<char>) -> bool {
    if is_identity(env_name) {
        identifier(value)
    } else if env_name == "CHRONOS_PHP_SPOOL_DIRECTORY"@ {
        plain_path(value)
    } else {
        true
    }
}

fn is_identifier(value: &str) -> (r: bool)
    ensures
        r == identifier(value@),
{
    let v = chars_of(value);
    if v.len() == 0 || v.len() > MAX_IDENTIFIER_BYTES {
        return false;
    }
    let mut i: usize = 0;
    while i < v.len()
        invariant
            i <= v@.len(),
            v@ == value@,
            forall|j: int| 0 <= j < i ==> identifier_char(#[trigger] v@[j]),
        decreases v@.len() - i,
    {
        let c = v[i];
        let good = ('A' <= c && c <= 'Z') || ('a' <= c && c <= 'z') || ('0' <= c && c <= '9') || c
            == '.' || c == '_' || c == '-';
        if !good {
            assert(!identifier_char(value@[i as int]));
            return false;
        }
        i = i + 1;
    }
    true
}

/// Whether a value is acceptable for a setting when it comes from a file.
pub fn accepts(env_name: &str, value: &str) -> (r: bool)
    ensures
        r == acceptable(env_name@, value@),
{
    if same(env_name, "CHRONOS_PHP_ORGANISATION") || same(env_name, "CHRONOS_PHP_TEAM_ID") || same(
        env_name,
        "CHRONOS_PHP_PROJECT",
    ) || same(env_name, "CHRONOS_PHP_APPLICATION") {
        is_identifier(value)
    } else if same(env_name, "CHRONOS_PHP_SPOOL_DIRECTORY") {
        if !starts_with(value, "/") {
            return false;
        }
        let segments = split_on(value, '/');
        !crate::text::listed(&segments, "..")
    } else {
        true
    }
}

/// An identifier takes one byte per character, so its bound on characters is its
/// bound on bytes.
pub proof fn law_identifiers_are_bounded_in_bytes(value: Seq<char>)
    requires
        identifier(value),
    ensures
        1 <= crate::text::byte_len(value) <= MAX_IDENTIFIER_BYTES,
{
    assert(vstd::utf8::is_ascii_chars(value)) by {
        assert forall|i: int| 0 <= i < value.len() implies value[i] as nat <= 127 by {
            assert(identifier_char(value[i]));
        }
        vstd::utf8::is_ascii_chars_nat_bound(value);
    }
    vstd::utf8::is_ascii_chars_encode_utf8(value);
}

/// What php.ini and the `.chronos` file say.
pub struct Sources {
    pub ini: Table,
    pub file: Table,
}

/// What a file says of a setting, under its full name or its short one.
pub open spec fn written_in(file: Map<Seq<char>, Seq<char>>, env_name: Seq<char>) -> Option<
    Seq<char>,
> {
    match at(file, env_name) {
        Some(v) => Some(v),
        None => at(file, short(env_name)),
    }
}

/// What a file says of a setting that counts: not empty, and acceptable.
pub open spec fn from_file(file: Map<Seq<char>, Seq<char>>, env_name: Seq<char>) -> Option<
    Seq<char>,
> {
    match written_in(file, env_name) {
        Some(v) => if v.len() > 0 && acceptable(env_name, v) {
            Some(v)
        } else {
            None
        },
        None => None,
    }
}

/// A setting: from the environment, else php.ini, else the file.
pub open spec fn setting(
    env: Option<Seq<char>>,
    ini: Map<Seq<char>, Seq<char>>,
    file: Map<Seq<char>, Seq<char>>,
    env_name: Seq<char>,
) -> Option<Seq<char>> {
    match nonempty(env) {
        Some(v) => Some(v),
        None => match nonempty(at(ini, "chronos."@ + short(env_name))) {
            Some(v) => Some(v),
            None => from_file(file, env_name),
        },
    }
}

/// A setting by its canonical name. `env` is what the environment holds under
/// that name.
pub fn get(sources: &Sources, env: Option<&str>, env_name: &str) -> (r: Option<String>)
    ensures
        opt_text(r) == setting(opt_view(env), sources.ini@, sources.file@, env_name@),
{
    if let Some(v) = env {
        if !v.is_empty() {
            return Some(copy(v));
        }
    }
    let name = ini_name(env_name);
    if let Some(v) = sources.ini.get(name.as_str()) {
        if !v.as_str().is_empty() {
            return Some(v);
        }
    }
    let written = match sources.file.get(env_name) {
        Some(v) => Some(v),
        None => {
            let key = short_key(env_name);
            sources.file.get(key.as_str())
        },
    };
    match written {
        Some(v) => if !v.as_str().is_empty() && accepts(env_name, v.as_str()) {
            Some(v)
        } else {
            None
        },
        None => None,
    }
}

/// A setting that may be said to be empty: from the environment, else php.ini,
/// else the file. php.ini holds an empty text for every setting that is not set
/// there, so an empty one says nothing.
pub open spec fn said(
    env: Option<Seq<char>>,
    ini: Map<Seq<char>, Seq<char>>,
    file: Map<Seq<char>, Seq<char>>,
    env_name: Seq<char>,
) -> Option<Seq<char>> {
    match env {
        Some(v) => Some(v),
        None => match nonempty(at(ini, "chronos."@ + short(env_name))) {
            Some(v) => Some(v),
            None => match written_in(file, env_name) {
                Some(v) => if v.len() == 0 || acceptable(env_name, v) {
                    Some(v)
                } else {
                    None
                },
                None => None,
            },
        },
    }
}

/// A setting by its canonical name, where an empty one is not the same as none.
pub fn get_even_empty(sources: &Sources, env: Option<&str>, env_name: &str) -> (r: Option<String>)
    ensures
        opt_text(r) == said(opt_view(env), sources.ini@, sources.file@, env_name@),
{
    if let Some(v) = env {
        return Some(copy(v));
    }
    let name = ini_name(env_name);
    if let Some(v) = sources.ini.get(name.as_str()) {
        if !v.as_str().is_empty() {
            return Some(v);
        }
    }
    let written = match sources.file.get(env_name) {
        Some(v) => Some(v),
        None => {
            let key = short_key(env_name);
            sources.file.get(key.as_str())
        },
    };
    match written {
        Some(v) => if v.as_str().is_empty() || accepts(env_name, v.as_str()) {
            Some(v)
        } else {
            None
        },
        None => None,
    }
}

/// A setting that is said and not empty is what `get` finds, and where nothing is
/// said `get` finds nothing: only an empty setting is told apart.
pub proof fn law_an_empty_setting_is_told_from_none(
    env: Option<Seq<char>>,
    ini: Map<Seq<char>, Seq<char>>,
    file: Map<Seq<char>, Seq<char>>,
    env_name: Seq<char>,
)
    ensures
        said(env, ini, file, env_name) is None ==> setting(env, ini, file, env_name) is None,
        said(env, ini, file, env_name) matches Some(v) ==> v.len() > 0 ==> setting(
            env,
            ini,
            file,
            env_name,
        ) == Some(v),
{
}

/// Whether a file says something of a setting that is not acceptable.
pub fn rejected_in_file(sources: &Sources, env_name: &str) -> (r: bool)
    ensures
        r == match written_in(sources.file@, env_name@) {
            Some(v) => v.len() > 0 && !acceptable(env_name@, v),
            None => false,
        },
{
    let written = match sources.file.get(env_name) {
        Some(v) => Some(v),
        None => {
            let key = short_key(env_name);
            sources.file.get(key.as_str())
        },
    };
    match written {
        Some(v) => !v.as_str().is_empty() && !accepts(env_name, v.as_str()),
        None => false,
    }
}

/// The platform's word is final: what the environment says cannot be changed by
/// php.ini or a file, and what php.ini says cannot be changed by a file.
pub proof fn law_platform_settings_cannot_be_overridden(
    env: Option<Seq<char>>,
    ini: Map<Seq<char>, Seq<char>>,
    other_ini: Map<Seq<char>, Seq<char>>,
    file: Map<Seq<char>, Seq<char>>,
    other_file: Map<Seq<char>, Seq<char>>,
    env_name: Seq<char>,
)
    ensures
        nonempty(env) is Some ==> setting(env, ini, file, env_name) == setting(
            env,
            other_ini,
            other_file,
            env_name,
        ),
        nonempty(at(ini, "chronos."@ + short(env_name))) is Some ==> setting(env, ini, file, env_name)
            == setting(env, ini, other_file, env_name),
{
}

/// An identity or a spool directory that only a file gives is acceptable or not
/// given at all: it is never half applied.
pub proof fn law_file_values_are_acceptable(
    file: Map<Seq<char>, Seq<char>>,
    env_name: Seq<char>,
)
    ensures
        setting(None, Map::empty(), file, env_name) matches Some(v) ==> acceptable(env_name, v)
            && written_in(file, env_name) == Some(v),
{
}

/// The spellings of a switched-on flag.
pub open spec fn on_spelling(value: Seq<char>) -> bool {
    let v = lowercase(value);
    v == "1"@ || v == "true"@ || v == "yes"@ || v == "on"@
}

fn reads_as_on(value: &str) -> (r: bool)
    ensures
        r == on_spelling(value@),
{
    let v = to_lowercase(value);
    same(v.as_str(), "1") || same(v.as_str(), "true") || same(v.as_str(), "yes") || same(
        v.as_str(),
        "on",
    )
}

/// A flag: on in any of its spellings, off in any other, the default when it is
/// not set.
pub fn flag(sources: &Sources, env: Option<&str>, env_name: &str, default: bool) -> (r: bool)
    ensures
        r == match setting(opt_view(env), sources.ini@, sources.file@, env_name@) {
            Some(v) => on_spelling(v),
            None => default,
        },
{
    match get(sources, env, env_name) {
        Some(v) => reads_as_on(v.as_str()),
        None => default,
    }
}

/// A flag as module startup sees it: the environment and php.ini only.
pub fn startup_flag(ini: &Table, env: Option<&str>, env_name: &str, default: bool) -> (r: bool)
    ensures
        r == match setting(opt_view(env), ini@, Map::empty(), env_name@) {
            Some(v) => on_spelling(v),
            None => default,
        },
{
    if let Some(v) = env {
        if !v.is_empty() {
            return reads_as_on(v);
        }
    }
    let name = ini_name(env_name);
    if let Some(v) = ini.get(name.as_str()) {
        if !v.as_str().is_empty() {
            return reads_as_on(v.as_str());
        }
    }
    default
}

/// A number setting, the default where it is not set or no such number.
pub open spec fn number_setting(value: Option<Seq<char>>, max: nat, default: nat) -> nat {
    match value {
        Some(v) => match parsed(v, max) {
            Some(n) => n,
            None => default,
        },
        None => default,
    }
}

/// A number setting of 32 bits.
pub fn u32_value(sources: &Sources, env: Option<&str>, env_name: &str, default: u32) -> (r: u32)
    ensures
        r == number_setting(
            setting(opt_view(env), sources.ini@, sources.file@, env_name@),
            u32::MAX as nat,
            default as nat,
        ),
{
    match get(sources, env, env_name) {
        Some(v) => match parse_unsigned(v.as_str(), u32::MAX as u128) {
            Some(n) => n as u32,
            None => default,
        },
        None => default,
    }
}

/// A number setting of 64 bits.
pub fn u64_value(sources: &Sources, env: Option<&str>, env_name: &str, default: u64) -> (r: u64)
    ensures
        r == number_setting(
            setting(opt_view(env), sources.ini@, sources.file@, env_name@),
            u64::MAX as nat,
            default as nat,
        ),
{
    match get(sources, env, env_name) {
        Some(v) => match parse_unsigned(v.as_str(), u64::MAX as u128) {
            Some(n) => n as u64,
            None => default,
        },
        None => default,
    }
}

/// A text setting.
pub fn string(sources: &Sources, env: Option<&str>, env_name: &str, default: &str) -> (r: String)
    ensures
        r@ == match setting(opt_view(env), sources.ini@, sources.file@, env_name@) {
            Some(v) => v,
            None => default@,
        },
{
    match get(sources, env, env_name) {
        Some(v) => v,
        None => copy(default),
    }
}

/// The php.ini directives to register: one for every setting, in the order of
/// the list.
pub fn register_ini_entries() -> (r: Vec<String>)
    ensures
        r@.len() == setting_list().len(),
        forall|i: int|
            0 <= i < r@.len() ==> (#[trigger] r@[i])@ == "chronos."@ + short(setting_list()[i]),
{
    let names = setting_names();
    let mut out: Vec<String> = Vec::new();
    let mut i: usize = 0;
    while i < names.len()
        invariant
            i <= names@.len(),
            out@.len() == i,
            names@.len() == setting_list().len(),
            forall|j: int| 0 <= j < names@.len() ==> (#[trigger] names@[j])@ == setting_list()[j],
            forall|j: int|
                0 <= j < i ==> (#[trigger] out@[j])@ == "chronos."@ + short(setting_list()[j]),
        decreases names@.len() - i,
    {
        out.push(ini_name(names[i]));
        i = i + 1;
    }
    out
}

/// Whether a text is a word, its letters in upper or lower case. The word is
/// written in lower case.
pub open spec fn spelled(value: Seq<char>, word: Seq<char>) -> bool {
    value.len() == word.len() && forall|i: int|
        0 <= i < word.len() ==> (#[trigger] value[i] == word[i] || ('A' <= value[i] <= 'Z'
            && value[i] as u32 + 32 == word[i] as u32))
}

/// Whether a text is one of the words for on.
pub open spec fn says_on(value: Seq<char>) -> bool {
    ||| value == seq!['1']
    ||| spelled(value, seq!['t', 'r', 'u', 'e'])
    ||| spelled(value, seq!['y', 'e', 's'])
    ||| spelled(value, seq!['o', 'n'])
}

proof fn lemma_lowercase_spelled(value: Seq<char>, word: Seq<char>)
    requires
        forall|i: int| 0 <= i < word.len() ==> !('A' <= #[trigger] word[i] <= 'Z'),
    ensures
        lowercase(value) == word <==> spelled(value, word),
{
    let low = lowercase(value);
    if low == word {
        assert forall|i: int| 0 <= i < word.len() implies (#[trigger] value[i] == word[i] || ('A'
            <= value[i] <= 'Z' && value[i] as u32 + 32 == word[i] as u32)) by {
            assert(low[i] == lowered_at(value, i));
            crate::text::lemma_lowered(value[i]);
        }
    }
    if spelled(value, word) {
        assert forall|i: int| 0 <= i < word.len() implies #[trigger] low[i] == word[i] by {
            crate::text::lemma_lowered(value[i]);
            assert(value[i] == word[i] || ('A' <= value[i] <= 'Z' && value[i] as u32 + 32
                == word[i] as u32));
            assert(!('A' <= word[i] <= 'Z'));
            assert(low[i] == lowered_at(value, i));
            lemma_same_letter(value[i], word[i]);
        }
        assert(low =~= word);
    }
}

proof fn lemma_same_letter(a: char, b: char)
    ensures
        'A' <= a <= 'Z' && a as u32 + 32 == b as u32 ==> crate::text::lowered(a) == b,
{
    crate::text::lemma_lowered(a);
}

spec fn lowered_at(value: Seq<char>, i: int) -> char {
    crate::text::lowered(value[i])
}

proof fn lemma_on_words(value: Seq<char>)
    ensures
        on_spelling(value) <==> says_on(value),
{
    reveal_strlit("1");
    reveal_strlit("true");
    reveal_strlit("yes");
    reveal_strlit("on");
    assert("1"@ =~= seq!['1']);
    assert("true"@ =~= seq!['t', 'r', 'u', 'e']);
    assert("yes"@ =~= seq!['y', 'e', 's']);
    assert("on"@ =~= seq!['o', 'n']);
    lemma_lowercase_spelled(value, seq!['1']);
    lemma_lowercase_spelled(value, seq!['t', 'r', 'u', 'e']);
    lemma_lowercase_spelled(value, seq!['y', 'e', 's']);
    lemma_lowercase_spelled(value, seq!['o', 'n']);
    if spelled(value, seq!['1']) {
        assert(value[0] == '1' || value[0] as u32 + 32 == 49);
        assert(value =~= seq!['1']);
    }
}

/// A flag that is set is on when its value is `1`, or `true`, `yes` or `on` in
/// any letter case, whatever its default, and off for every other value, such as
/// `0`, `false`, `no` and `off`. One that is not set is what its default says.
pub proof fn law_a_flag_is_on_in_four_words(
    sources: &Sources,
    env: Option<&str>,
    env_name: &str,
    default: bool,
    value: Option<String>,
    r: bool,
)
    requires
        call_ensures(get, (sources, env, env_name), value),
        call_ensures(flag, (sources, env, env_name, default), r),
    ensures
        value matches Some(v) ==> (r <==> says_on(v@)),
        value is None ==> r == default,
        value matches Some(v) ==> v@ == "1"@ ==> r,
        value matches Some(v) ==> v@ == "true"@ || v@ == "yes"@ || v@ == "on"@ ==> r,
        value matches Some(v) ==> v@ == "TRUE"@ || v@ == "Yes"@ || v@ == "ON"@ ==> r,
        value matches Some(v) ==> v@ == "0"@ || v@ == "false"@ || v@ == "no"@ || v@ == "off"@ ==> !r,
{
    if let Some(v) = value {
        lemma_on_words(v@);
        reveal_strlit("1");
        assert("1"@ =~= seq!['1']);
        lemma_flag_literals();
    }
}

proof fn lemma_flag_literals()
    ensures
        says_on("1"@) && says_on("true"@) && says_on("yes"@) && says_on("on"@),
        says_on("TRUE"@) && says_on("Yes"@) && says_on("ON"@),
        !says_on("0"@) && !says_on("false"@) && !says_on("no"@) && !says_on("off"@),
{
    reveal_strlit("1");
    reveal_strlit("true");
    reveal_strlit("yes");
    reveal_strlit("on");
    reveal_strlit("TRUE");
    reveal_strlit("Yes");
    reveal_strlit("ON");
    reveal_strlit("0");
    reveal_strlit("false");
    reveal_strlit("no");
    reveal_strlit("off");
    assert("1"@ =~= seq!['1']);
    assert(spelled("true"@, seq!['t', 'r', 'u', 'e']));
    assert(spelled("yes"@, seq!['y', 'e', 's']));
    assert(spelled("on"@, seq!['o', 'n']));
    assert(spelled("TRUE"@, seq!['t', 'r', 'u', 'e']));
    assert(spelled("Yes"@, seq!['y', 'e', 's']));
    assert(spelled("ON"@, seq!['o', 'n']));
    assert("0"@[0] == '0' && "0"@.len() == 1);
    assert("false"@.len() == 5);
    assert("no"@.len() == 2 && "no"@[0] == 'n');
    assert("off"@.len() == 3 && "off"@[0] == 'o');
}

/// At module startup a flag is read from the environment, else from php.ini under
/// the setting's directive, and nothing else; the words are the same.
pub proof fn law_a_startup_flag_is_on_in_four_words(
    ini: &Table,
    env: Option<&str>,
    env_name: &str,
    default: bool,
    directive: String,
    r: bool,
)
    requires
        call_ensures(ini_name, (env_name,), directive),
        call_ensures(startup_flag, (ini, env, env_name, default), r),
    ensures
        env matches Some(v) ==> v@.len() > 0 ==> (r <==> says_on(v@)),
        (env matches Some(v) ==> v@.len() == 0) && ini@.contains_key(directive@)
            && ini@[directive@].len() > 0 ==> (r <==> says_on(ini@[directive@])),
        (env matches Some(v) ==> v@.len() == 0) && (ini@.contains_key(directive@)
            ==> ini@[directive@].len() == 0) ==> r == default,
{
    if let Some(v) = env {
        lemma_on_words(v@);
    }
    if ini@.contains_key(directive@) {
        lemma_on_words(ini@[directive@]);
    }
}

/// Where a setting comes from: the environment, where it says something; else
/// php.ini under the setting's directive; else the file under the full name, or
/// under the short key where the full name is not there, and only what is not
/// empty and acceptable.
pub proof fn law_where_a_setting_comes_from(
    sources: &Sources,
    env: Option<&str>,
    env_name: &str,
    directive: String,
    key: String,
    r: Option<String>,
)
    requires
        call_ensures(ini_name, (env_name,), directive),
        call_ensures(short_key, (env_name,), key),
        call_ensures(get, (sources, env, env_name), r),
    ensures
        ({
            let env_silent = env is None || env->0@.len() == 0;
            let ini_silent = !sources.ini@.contains_key(directive@)
                || sources.ini@[directive@].len() == 0;
            let full = sources.file@.contains_key(env_name@);
            let short = sources.file@.contains_key(key@);
            let written = if full {
                sources.file@[env_name@]
            } else {
                sources.file@[key@]
            };
            &&& !env_silent ==> r is Some && r->0@ == env->0@
            &&& env_silent && !ini_silent ==> r is Some && r->0@ == sources.ini@[directive@]
            &&& env_silent && ini_silent && !full && !short ==> r is None
            &&& env_silent && ini_silent && (full || short) && written.len() == 0 ==> r is None
            &&& env_silent && ini_silent && (full || short) && written.len() > 0 ==> (r is Some
                <==> acceptable(env_name@, written))
            &&& env_silent && ini_silent ==> (r matches Some(v) ==> v@ == written)
        }),
{
}

/// The spellings of a setting: the short key is what follows `CHRONOS_PHP_`, or
/// `CHRONOS_`, in lower case, and the php.ini directive is `chronos.` and that.
pub proof fn law_the_spellings_of_a_setting(
    env_name: &str,
    rest: &str,
    low: String,
    key: String,
    directive: String,
)
    requires
        call_ensures(to_lowercase, (rest,), low),
        call_ensures(short_key, (env_name,), key),
        call_ensures(ini_name, (env_name,), directive),
    ensures
        env_name@ == "CHRONOS_PHP_"@ + rest@ ==> key@ == low@,
        env_name@ == "CHRONOS_"@ + rest@ && !begins(rest@, "PHP_"@) ==> key@ == low@,
        env_name@ == rest@ && !begins(rest@, "CHRONOS_"@) ==> key@ == low@,
        directive@ == "chronos."@ + key@,
{
    reveal_strlit("CHRONOS_PHP_");
    reveal_strlit("CHRONOS_");
    reveal_strlit("PHP_");
    assert("CHRONOS_PHP_"@ =~= "CHRONOS_"@ + "PHP_"@);
    let long = "CHRONOS_PHP_"@;
    let brief = "CHRONOS_"@;
    if env_name@ == long + rest@ {
        assert(env_name@.subrange(0, long.len() as int) =~= long);
        assert(env_name@.skip(long.len() as int) =~= rest@);
    }
    if env_name@ == brief + rest@ && !begins(rest@, "PHP_"@) {
        assert(env_name@.subrange(0, brief.len() as int) =~= brief);
        assert(env_name@.skip(brief.len() as int) =~= rest@);
        if begins(env_name@, long) {
            assert(rest@.subrange(0, 4) =~= "PHP_"@) by {
                assert forall|i: int| 0 <= i < 4 implies rest@[i] == "PHP_"@[i] by {
                    assert(env_name@.subrange(0, long.len() as int)[8 + i] == long[8 + i]);
                }
            }
        }
    }
    if env_name@ == rest@ && !begins(rest@, brief) {
        if begins(rest@, long) {
            assert(rest@.subrange(0, 8) =~= brief) by {
                assert forall|i: int| 0 <= i < 8 implies rest@[i] == brief[i] by {
                    assert(rest@.subrange(0, long.len() as int)[i] == long[i]);
                }
            }
        }
    }
}

/// A number setting is the number that its value stands for; a value that is no
/// number, or none at all, leaves the default. A text setting is its value.
pub proof fn law_number_and_text_settings(
    sources: &Sources,
    env: Option<&str>,
    env_name: &str,
    value: Option<String>,
    written: &str,
    small_number: Option<u128>,
    large_number: Option<u128>,
    small_default: u32,
    small: u32,
    large_default: u64,
    large: u64,
    text_default: &str,
    text: String,
)
    requires
        call_ensures(get, (sources, env, env_name), value),
        value matches Some(v) ==> written@ == v@,
        call_ensures(parse_unsigned, (written, u32::MAX as u128), small_number),
        call_ensures(parse_unsigned, (written, u64::MAX as u128), large_number),
        call_ensures(u32_value, (sources, env, env_name, small_default), small),
        call_ensures(u64_value, (sources, env, env_name, large_default), large),
        call_ensures(string, (sources, env, env_name, text_default), text),
    ensures
        value is None ==> small == small_default && large == large_default && text@ == text_default@,
        value matches Some(v) ==> text@ == v@,
        value is Some && small_number is Some ==> small == small_number->0,
        value is Some && small_number is None ==> small == small_default,
        value is Some && large_number is Some ==> large == large_number->0,
        value is Some && large_number is None ==> large == large_default,
{
}

/// A setting that may be empty is what the environment says, even where that is
/// nothing; else php.ini's word, unless it is empty; else the file's, empty or
/// acceptable.
pub proof fn law_where_a_setting_that_may_be_empty_comes_from(
    sources: &Sources,
    env: Option<&str>,
    env_name: &str,
    directive: String,
    key: String,
    r: Option<String>,
)
    requires
        call_ensures(ini_name, (env_name,), directive),
        call_ensures(short_key, (env_name,), key),
        call_ensures(get_even_empty, (sources, env, env_name), r),
    ensures
        ({
            let ini_silent = !sources.ini@.contains_key(directive@)
                || sources.ini@[directive@].len() == 0;
            let full = sources.file@.contains_key(env_name@);
            let short = sources.file@.contains_key(key@);
            let written = if full {
                sources.file@[env_name@]
            } else {
                sources.file@[key@]
            };
            &&& env matches Some(v) ==> r is Some && r->0@ == v@
            &&& env is None && !ini_silent ==> r is Some && r->0@ == sources.ini@[directive@]
            &&& env is None && ini_silent && !full && !short ==> r is None
            &&& env is None && ini_silent && (full || short) ==> (r is Some <==> written.len() == 0
                || acceptable(env_name@, written))
            &&& env is None && ini_silent ==> (r matches Some(v) ==> v@ == written)
        }),
{
}

/// What a file may say. An identity is 1 to 128 letters, digits, dots, underscores
/// and hyphens; a spool directory is absolute and has no `..` between slashes;
/// nothing else is looked at. What is not empty and not acceptable is reported.
pub proof fn law_what_a_file_may_say(env_name: &str, value: &str, r: bool)
    requires
        call_ensures(accepts, (env_name, value), r),
    ensures
        ({
            let identity = env_name@ == "CHRONOS_PHP_ORGANISATION"@ || env_name@
                == "CHRONOS_PHP_TEAM_ID"@ || env_name@ == "CHRONOS_PHP_PROJECT"@ || env_name@
                == "CHRONOS_PHP_APPLICATION"@;
            let directory = env_name@ == "CHRONOS_PHP_SPOOL_DIRECTORY"@;
            &&& identity ==> (r <==> 1 <= value@.len() <= 128 && forall|i: int|
                0 <= i < value@.len() ==> {
                    let c = #[trigger] value@[i];
                    ||| 'A' <= c <= 'Z'
                    ||| 'a' <= c <= 'z'
                    ||| '0' <= c <= '9'
                    ||| c == '.'
                    ||| c == '_'
                    ||| c == '-'
                })
            &&& directory && r ==> value@.len() > 0 && value@[0] == '/'
            &&& directory && value@.len() > 0 && value@[0] == '/' ==> (r <==> !split(
                value@,
                '/',
            ).contains("."@ + "."@))
            &&& !identity && !directory ==> r
        }),
        acceptable(env_name@, value@) == r,
{
    lemma_identity_names();
    reveal_strlit("/");
    reveal_strlit(".");
    reveal_strlit("..");
    assert("."@ + "."@ =~= ".."@);
    if value@.len() > 0 && value@[0] == '/' {
        assert(value@.subrange(0, 1) =~= "/"@);
    }
    if begins(value@, "/"@) {
        assert(value@.subrange(0, 1)[0] == "/"@[0]);
    }
    if forall|i: int|
        0 <= i < value@.len() ==> {
            let c = #[trigger] value@[i];
            ||| 'A' <= c <= 'Z'
            ||| 'a' <= c <= 'z'
            ||| '0' <= c <= '9'
            ||| c == '.'
            ||| c == '_'
            ||| c == '-'
        } {
        assert(forall|i: int| 0 <= i < value@.len() ==> identifier_char(#[trigger] value@[i]));
    }
    if forall|i: int| 0 <= i < value@.len() ==> identifier_char(#[trigger] value@[i]) {
        assert forall|i: int| 0 <= i < value@.len() implies {
            let c = #[trigger] value@[i];
            ||| 'A' <= c <= 'Z'
            ||| 'a' <= c <= 'z'
            ||| '0' <= c <= '9'
            ||| c == '.'
            ||| c == '_'
            ||| c == '-'
        } by {
            assert(identifier_char(value@[i]));
        }
    }
}

proof fn lemma_identity_names()
    ensures
        "CHRONOS_PHP_SPOOL_DIRECTORY"@ != "CHRONOS_PHP_ORGANISATION"@,
        "CHRONOS_PHP_SPOOL_DIRECTORY"@ != "CHRONOS_PHP_TEAM_ID"@,
        "CHRONOS_PHP_SPOOL_DIRECTORY"@ != "CHRONOS_PHP_PROJECT"@,
        "CHRONOS_PHP_SPOOL_DIRECTORY"@ != "CHRONOS_PHP_APPLICATION"@,
{
    reveal_strlit("CHRONOS_PHP_SPOOL_DIRECTORY");
    reveal_strlit("CHRONOS_PHP_ORGANISATION");
    reveal_strlit("CHRONOS_PHP_TEAM_ID");
    reveal_strlit("CHRONOS_PHP_PROJECT");
    reveal_strlit("CHRONOS_PHP_APPLICATION");
    assert("CHRONOS_PHP_SPOOL_DIRECTORY"@.len() == 27);
    assert("CHRONOS_PHP_ORGANISATION"@.len() == 24);
    assert("CHRONOS_PHP_TEAM_ID"@.len() == 19);
    assert("CHRONOS_PHP_PROJECT"@.len() == 19);
    assert("CHRONOS_PHP_APPLICATION"@.len() == 23);
}

/// What the file says of a setting is reported exactly when it is not empty and
/// not acceptable.
pub proof fn law_what_is_refused_is_reported(
    sources: &Sources,
    env_name: &str,
    key: String,
    written: &str,
    accepted: bool,
    r: bool,
)
    requires
        call_ensures(short_key, (env_name,), key),
        call_ensures(accepts, (env_name, written), accepted),
        call_ensures(rejected_in_file, (sources, env_name), r),
    ensures
        !sources.file@.contains_key(env_name@) && !sources.file@.contains_key(key@) ==> !r,
        sources.file@.contains_key(env_name@) && written@ == sources.file@[env_name@] ==> (r
            <==> written@.len() > 0 && !accepted),
        !sources.file@.contains_key(env_name@) && sources.file@.contains_key(key@) && written@
            == sources.file@[key@] ==> (r <==> written@.len() > 0 && !accepted),
{
}

/// A table gives back what was put under a key last, and nothing under a key that
/// nothing was put under. Other keys keep what they had.
pub proof fn law_a_table_gives_back_what_was_put(
    table: &mut Table,
    key: &str,
    value: &str,
    other: &str,
    fresh: Table,
    empty: Option<String>,
    after: &Table,
    found: Option<String>,
)
    requires
        call_ensures(Table::new, (), fresh),
        call_ensures(Table::get, (&fresh, other), empty),
        call_ensures(Table::insert, (table, key, value), ()),
        *after == *final(table),
        call_ensures(Table::get, (after, other), found),
    ensures
        empty is None,
        other@ == key@ ==> found is Some && found->0@ == value@,
        other@ != key@ ==> (found is Some <==> old(table)@.contains_key(other@)),
        other@ != key@ ==> (found matches Some(v) ==> v@ == old(table)@[other@]),
{
}

/// Whether a text is all on one line and has nothing around it to take off.
pub open spec fn bare(s: Seq<char>) -> bool {
    &&& s.len() > 0
    &&& forall|i: int|
        0 <= i < s.len() ==> {
            let c = #[trigger] s[i];
            !crate::text::is_white(c) && c != '=' && c != '#' && c != '"' && c != '\''
        }
}

proof fn lemma_trimmed_whole(s: Seq<char>)
    requires
        s.len() > 0 ==> !crate::text::is_white(s[0]) && !crate::text::is_white(s.last()),
    ensures
        trimmed(s) == s,
{
}

proof fn lemma_entry_of_line(key: Seq<char>, value: Seq<char>)
    requires
        bare(key),
        bare(value),
    ensures
        file_entry(key.push('=') + value) == Some((key, value)),
        file_entry("export "@ + key.push('=') + value) == Some((key, value)),
        file_entry(key.push('=').push('"') + value.push('"')) == Some((key, value)),
        file_entry(key.push('=').push('\'') + value.push('\'')) == Some((key, value)),
        file_entry("#"@ + key.push('=') + value) is None,
        file_entry(key) is None,
{
    lemma_bare_line(key, value, value);
    lemma_quoted_line(key, value);
    lemma_exported_line(key, value);
    lemma_remark_line(key, value);
    lemma_keyless_line(key);
}

proof fn lemma_quoted_line(key: Seq<char>, value: Seq<char>)
    requires
        bare(key),
        bare(value),
    ensures
        file_entry(key.push('=').push('"') + value.push('"')) == Some((key, value)),
        file_entry(key.push('=').push('\'') + value.push('\'')) == Some((key, value)),
{
    let double = value.push('"');
    let in_double = seq!['"'] + double;
    assert(key.push('=').push('"') + double =~= key.push('=') + in_double);
    assert(in_double.last() == '"' && in_double[0] == '"');
    assert(in_double.subrange(1, in_double.len() - 1) =~= value);
    lemma_bare_line(key, value, in_double);
    let single = value.push('\'');
    let in_single = seq!['\''] + single;
    assert(key.push('=').push('\'') + single =~= key.push('=') + in_single);
    assert(in_single.subrange(1, in_single.len() - 1) =~= value);
    lemma_bare_line(key, value, in_single);
}

proof fn lemma_exported_line(key: Seq<char>, value: Seq<char>)
    requires
        bare(key),
        bare(value),
    ensures
        file_entry("export "@ + key.push('=') + value) == Some((key, value)),
{
    reveal_strlit("export ");
    reveal_strlit("#");
    assert("export "@[6] == ' ' && "export "@[0] == 'e' && "export "@.len() == 7);
    let line = key.push('=') + value;
    let exported = "export "@ + key.push('=') + value;
    assert(exported =~= "export "@ + line);
    assert(exported[0] == 'e' && exported.last() == value.last());
    lemma_trimmed_whole(exported);
    assert(exported.subrange(0, 7) =~= "export "@);
    assert(exported.skip(7) =~= line);
    assert(!begins(exported, "#"@)) by {
        if begins(exported, "#"@) {
            assert(exported.subrange(0, 1)[0] == "#"@[0]);
        }
    }
    lemma_bare_parts(key, value);
}

proof fn lemma_remark_line(key: Seq<char>, value: Seq<char>)
    requires
        bare(key),
        bare(value),
    ensures
        file_entry("#"@ + key.push('=') + value) is None,
{
    reveal_strlit("#");
    let remark = "#"@ + key.push('=') + value;
    assert(remark[0] == '#' && remark.last() == value.last());
    lemma_trimmed_whole(remark);
    assert(remark.subrange(0, 1) =~= "#"@);
}

proof fn lemma_keyless_line(key: Seq<char>)
    requires
        bare(key),
    ensures
        file_entry(key) is None,
{
    reveal_strlit("export ");
    assert("export "@[6] == ' ' && "export "@.len() == 7);
    lemma_trimmed_whole(key);
    assert(unprefixed(key, "export "@) is None) by {
        if begins(key, "export "@) {
            assert(key.subrange(0, 7)[6] == ' ');
            assert(crate::text::is_white(key[6]));
        }
    }
    lemma_first_of(key, '=', key.len() as int);
}

proof fn lemma_bare_parts(key: Seq<char>, value: Seq<char>)
    requires
        bare(key),
        bare(value),
    ensures
        ({
            let line = key.push('=') + value;
            &&& trimmed(line) == line
            &&& first_of(line, '=') == key.len()
            &&& line.take(key.len() as int) == key
            &&& line.skip(key.len() as int + 1) == value
            &&& trimmed(key) == key
            &&& trimmed(value) == value
            &&& unquoted(value) == value
        }),
{
    let line = key.push('=') + value;
    assert(line[0] == key[0] && line.last() == value.last());
    lemma_trimmed_whole(line);
    lemma_trimmed_whole(key);
    lemma_trimmed_whole(value);
    assert forall|j: int| 0 <= j < key.len() implies line[j] != '=' by {
        assert(line[j] == key[j]);
    }
    lemma_first_of(line, '=', key.len() as int);
    assert(line.take(key.len() as int) =~= key);
    assert(line.skip(key.len() as int + 1) =~= value);
    assert(value[0] != '"' && value[0] != '\'');
}

proof fn lemma_bare_line(key: Seq<char>, value: Seq<char>, shown: Seq<char>)
    requires
        bare(key),
        bare(value),
        shown == value || (shown.len() == value.len() + 2 && shown.subrange(1, shown.len() - 1)
            == value && ((shown[0] == '"' && shown.last() == '"') || (shown[0] == '\''
            && shown.last() == '\''))),
    ensures
        file_entry(key.push('=') + shown) == Some((key, value)),
{
    reveal_strlit("export ");
    reveal_strlit("#");
    let line = key.push('=') + shown;
    if shown == value {
        assert(value[0] != '"' && value[0] != '\'');
    }
    assert(!crate::text::is_white(shown.last()) && !crate::text::is_white(shown[0])) by {
        assert(value[0] == value[0]);
        assert(!crate::text::is_white(value[value.len() - 1]));
    }
    assert(line[0] == key[0] && line.last() == shown.last());
    lemma_trimmed_whole(line);
    lemma_trimmed_whole(key);
    lemma_trimmed_whole(shown);
    assert(!begins(line, "#"@)) by {
        if begins(line, "#"@) {
            assert(line.subrange(0, 1)[0] == "#"@[0]);
            assert(key[0] == '#');
        }
    }
    assert(unprefixed(line, "export "@) is None) by {
        if begins(line, "export "@) {
            assert(line.subrange(0, 7)[6] == "export "@[6]);
            assert(crate::text::is_white(line[6]));
            assert forall|i: int| 0 <= i < 6 implies line[i] != '=' by {
                assert(line.subrange(0, 7)[i] == "export "@[i]);
            }
            if key.len() > 6 {
                assert(line[6] == key[6]);
            } else {
                assert(line[key.len() as int] == '=');
            }
        }
    }
    assert forall|j: int| 0 <= j < key.len() implies line[j] != '=' by {
        assert(line[j] == key[j]);
    }
    lemma_first_of(line, '=', key.len() as int);
    assert(line.take(key.len() as int) =~= key);
    assert(line.skip(key.len() as int + 1) =~= shown);
}

/// A line of the file after all others decides its key: `key=value`, also with
/// `export` before it or quotes of one kind around the value, puts the value
/// under the key and under the key in lower case, and leaves every other key as
/// it was. A comment and a line without `=` put nothing.
#[verifier::rlimit(40)]
pub proof fn law_a_line_of_the_file(
    body: &str,
    before: Table,
    key: &str,
    value: &str,
    low: String,
    line: Seq<char>,
    longer: &str,
    after: Table,
    other: Seq<char>,
)
    requires
        call_ensures(parse_chronos_file, (body,), before),
        call_ensures(parse_chronos_file, (longer,), after),
        call_ensures(to_lowercase, (key,), low),
        bare(key@),
        bare(value@),
        longer@ == body@.push('\n') + line,
    ensures
        line == key@.push('=') + value@ || line == "export "@ + key@.push('=') + value@ || line
            == key@.push('=').push('"') + value@.push('"') || line == key@.push('=').push('\'')
            + value@.push('\'') ==> {
            &&& after@.contains_key(key@) && after@[key@] == value@
            &&& after@.contains_key(low@) && after@[low@] == value@
            &&& other != key@ && other != low@ ==> (after@.contains_key(other)
                <==> before@.contains_key(other)) && (before@.contains_key(other) ==> after@[other]
                == before@[other])
        },
        line == "#"@ + key@.push('=') + value@ || line == key@ ==> after@ == before@,
{
    reveal_strlit("export ");
    reveal_strlit("#");
    lemma_entry_of_line(key@, value@);
    let shown = line == key@.push('=') + value@ || line == "export "@ + key@.push('=') + value@
        || line == key@.push('=').push('"') + value@.push('"') || line == key@.push('=').push('\'')
        + value@.push('\'') || line == "#"@ + key@.push('=') + value@ || line == key@;
    if shown {
        assert forall|i: int| 0 <= i < line.len() implies #[trigger] line[i] != '\n' by {
            lemma_no_break(key@, value@, line, i);
        }
        crate::text::lemma_split_append(body@, '\n', line);
        let all = split(body@, '\n').push(line);
        assert(all.drop_last() =~= split(body@, '\n'));
        assert(all.last() == line);
    }
}

proof fn lemma_no_break(key: Seq<char>, value: Seq<char>, line: Seq<char>, i: int)
    requires
        bare(key),
        bare(value),
        0 <= i < line.len(),
        line == key.push('=') + value || line == "export "@ + key.push('=') + value || line
            == key.push('=').push('"') + value.push('"') || line == key.push('=').push('\'')
            + value.push('\'') || line == "#"@ + key.push('=') + value || line == key,
    ensures
        line[i] != '\n',
{
    reveal_strlit("export ");
    reveal_strlit("#");
    assert(forall|j: int| 0 <= j < key.len() ==> #[trigger] key[j] != '\n');
    assert(forall|j: int| 0 <= j < value.len() ==> #[trigger] value[j] != '\n');
    assert("export "@[0] == 'e' && "export "@[1] == 'x' && "export "@[2] == 'p' && "export "@[3]
        == 'o' && "export "@[4] == 'r' && "export "@[5] == 't' && "export "@[6] == ' ');
}

/// A setting that the file alone gives, under its full name or its short key in
/// any letter case, is found.
pub proof fn law_a_setting_in_the_file_is_found(
    body: &str,
    key: &str,
    value: &str,
    low: String,
    longer: &str,
    after: Table,
    sources: &Sources,
    env_name: &str,
    short: String,
    r: Option<String>,
)
    requires
        bare(key@),
        bare(value@),
        longer@ == (body@.push('\n') + key@.push('=') + value@),
        call_ensures(parse_chronos_file, (longer,), after),
        call_ensures(to_lowercase, (key,), low),
        call_ensures(short_key, (env_name,), short),
        call_ensures(get, (sources, None, env_name), r),
        sources.ini@ == Map::<Seq<char>, Seq<char>>::empty(),
        sources.file@ == after@,
        acceptable(env_name@, value@),
    ensures
        key@ == env_name@ ==> r is Some && r->0@ == value@,
        low@ == short@ && !after@.contains_key(env_name@) ==> r is Some && r->0@ == value@,
{
    let line = key@.push('=') + value@;
    assert(longer@ =~= body@.push('\n') + line);
    lemma_entry_of_line(key@, value@);
    assert forall|i: int| 0 <= i < line.len() implies #[trigger] line[i] != '\n' by {
        lemma_no_break(key@, value@, line, i);
    }
    crate::text::lemma_split_append(body@, '\n', line);
    let all = split(body@, '\n').push(line);
    assert(all.drop_last() =~= split(body@, '\n'));
    assert(all.last() == line);
}

/// php.ini knows one directive for each setting: `chronos.` and the short key of
/// its name, in the order of the names.
pub proof fn law_every_setting_has_a_directive(
    names: Vec<&'static str>,
    directives: Vec<String>,
    i: int,
    directive: String,
)
    requires
        call_ensures(setting_names, (), names),
        call_ensures(register_ini_entries, (), directives),
        0 <= i < names@.len(),
        call_ensures(ini_name, (names@[i],), directive),
    ensures
        directives@.len() == names@.len(),
        directives@[i]@ == directive@,
{
}

/// The search starts at the document root, goes on in the script's directory and
/// ends in the working directory, each only where it is known.
pub proof fn law_where_the_search_starts(
    document_root: &str,
    script: &str,
    script_has_directory: bool,
    has_working_directory: bool,
    r: Vec<Start>,
)
    requires
        call_ensures(
            starting_points,
            (document_root, script, script_has_directory, has_working_directory),
            r,
        ),
    ensures
        document_root@.len() > 0 ==> r@.len() > 0 && r@[0] == Start::DocumentRoot,
        r@.contains(Start::DocumentRoot) <==> document_root@.len() > 0,
        r@.contains(Start::ScriptDirectory) <==> script@.len() > 0 && script_has_directory,
        r@.contains(Start::Script) <==> script@.len() > 0 && !script_has_directory,
        r@.contains(Start::WorkingDirectory) <==> has_working_directory,
        has_working_directory ==> r@.len() > 0 && r@.last() == Start::WorkingDirectory,
        r@.no_duplicates(),
{
    let d = document_root@.len() > 0;
    let s = script@.len() > 0;
    if d {
        assert(r@[0] == Start::DocumentRoot);
    }
    if s {
        let i: int = if d {
            1
        } else {
            0
        };
        assert(r@[i] == if script_has_directory {
            Start::ScriptDirectory
        } else {
            Start::Script
        });
    }
    if has_working_directory {
        assert(r@[r@.len() - 1] == Start::WorkingDirectory);
    }
}

/// A search begins at the first starting point. What can be read is taken at once;
/// else the directory above comes next; else the next starting point; else there
/// is no file.
pub proof fn law_how_the_search_goes_on(
    starts: &Vec<Start>,
    first: Step,
    from: usize,
    read: &Option<String>,
    has_parent: bool,
    next: Step,
)
    requires
        call_ensures(begin_search, (starts,), first),
        from < starts@.len() ==> call_ensures(
            go_on_searching,
            (starts, from, read, has_parent),
            next,
        ),
    ensures
        starts@.len() > 0 ==> first == Step::From(0),
        starts@.len() == 0 ==> first == Step::Stop,
        from < starts@.len() && *read is Some ==> next == Step::Take,
        from < starts@.len() && *read is None && has_parent ==> next == Step::Above,
        *read is None && !has_parent && from + 1 < starts@.len() ==> next == Step::From(
            (from + 1) as usize,
        ),
        *read is None && !has_parent && from + 1 == starts@.len() ==> next == Step::Stop,
{
    assert(starts.len() == starts@.len());
}

/// The settings, by name, in the order they are declared.
pub proof fn law_the_settings_there_are(r: Vec<&'static str>)
    requires
        call_ensures(setting_names, (), r),
    ensures
        r@.len() == 52,
        r@[0]@ == "CHRONOS_PHP_ENABLED"@,
        r@[1]@ == "CHRONOS_PHP_ORGANISATION"@,
        r@[2]@ == "CHRONOS_PHP_TEAM_ID"@,
        r@[3]@ == "CHRONOS_PHP_PROJECT"@,
        r@[4]@ == "CHRONOS_PHP_APPLICATION"@,
        r@[5]@ == "CHRONOS_PHP_SPOOL_DIRECTORY"@,
        r@[6]@ == "CHRONOS_APP_VERSION"@,
        r@[7]@ == "CHRONOS_APP_COMMIT"@,
        r@[8]@ == "CHRONOS_APP_BRANCH"@,
        r@[9]@ == "CHRONOS_PHP_APP_LANGUAGE_VERSION"@,
        r@[10]@ == "CHRONOS_PHP_APP_FRAMEWORK"@,
        r@[11]@ == "CHRONOS_PHP_APP_FRAMEWORK_VERSION"@,
        r@[12]@ == "CHRONOS_PHP_APM_ENABLED"@,
        r@[13]@ == "CHRONOS_PHP_LOGS_ENABLED"@,
        r@[14]@ == "CHRONOS_PHP_PROFILER_ENABLED"@,
        r@[15]@ == "CHRONOS_PHP_CLI_ENABLED"@,
        r@[16]@ == "CHRONOS_PHP_DST_ENABLED"@,
        r@[17]@ == "CHRONOS_PHP_ENV"@,
        r@[18]@ == "CHRONOS_PHP_APM_SAMPLE_RATE"@,
        r@[19]@ == "CHRONOS_PHP_PROFILE_REQUEST_RATE"@,
        r@[20]@ == "CHRONOS_PHP_PROFILE_JOB_RATE"@,
        r@[21]@ == "CHRONOS_PHP_SAMPLE_RATE_DENOMINATOR"@,
        r@[22]@ == "CHRONOS_PHP_PROFILE_TOKEN"@,
        r@[23]@ == "CHRONOS_PHP_PROFILE_SAMPLE_RATE"@,
        r@[24]@ == "CHRONOS_PHP_PROFILE_TYPES"@,
        r@[25]@ == "CHRONOS_PHP_PROFILE_SERIES_ID"@,
        r@[26]@ == "CHRONOS_PHP_PROFILE_IO_MIN_US"@,
        r@[27]@ == "CHRONOS_PHP_PROFILE_DETERMINISTIC"@,
        r@[28]@ == "CHRONOS_PHP_PROFILE_DETERMINISTIC_MAX_FUNCTIONS"@,
        r@[29]@ == "CHRONOS_PHP_PROFILE_EDGES"@,
        r@[30]@ == "CHRONOS_PHP_PROFILE_EDGES_MAX"@,
        r@[31]@ == "CHRONOS_PHP_PROFILE_ARGS"@,
        r@[32]@ == "CHRONOS_PHP_PROFILE_ARGS_MAX_ARGS"@,
        r@[33]@ == "CHRONOS_PHP_PROFILE_ARGS_MAX_ARG_BYTES"@,
        r@[34]@ == "CHRONOS_PHP_PROFILE_ARGS_MAX_TOTAL_BYTES"@,
        r@[35]@ == "CHRONOS_PHP_PROFILE_ARGS_MAX_INVOCATIONS"@,
        r@[36]@ == "CHRONOS_PHP_SPAN_ALL_USERLAND"@,
        r@[37]@ == "CHRONOS_PHP_SPAN_MIN_DURATION_US"@,
        r@[38]@ == "CHRONOS_PHP_EXCLUDE_PATHS"@,
        r@[39]@ == "CHRONOS_PHP_INSTRUMENTATION_MANIFEST"@,
        r@[40]@ == "CHRONOS_PHP_LOCAL_RICH_TELEMETRY"@,
        r@[41]@ == "CHRONOS_PHP_HTTP_CAPTURE"@,
        r@[42]@ == "CHRONOS_PHP_HTTP_CAPTURE_BODIES"@,
        r@[43]@ == "CHRONOS_PHP_HTTP_CAPTURE_MAX_BODY"@,
        r@[44]@ == "CHRONOS_PHP_HTTP_CAPTURE_RESPONSE_BUFFER"@,
        r@[45]@ == "CHRONOS_PHP_HTTP_CAPTURE_REDACT"@,
        r@[46]@ == "CHRONOS_PHP_REDACT_PATTERNS"@,
        r@[47]@ == "CHRONOS_PHP_MESSAGING_CAPTURE_BODIES"@,
        r@[48]@ == "CHRONOS_PHP_MESSAGING_CAPTURE_MAX_BODY"@,
        r@[49]@ == "CHRONOS_PHP_DST_CALL_PATH_MAX"@,
        r@[50]@ == "CHRONOS_PHP_DST_CALL_PATH_MAX_DEPTH"@,
        r@[51]@ == "CHRONOS_PHP_SPOOL_MAX_BYTES"@,
{
}

} // verus!
