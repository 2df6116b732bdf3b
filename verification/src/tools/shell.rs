//! The `shell` tools: run a command, in the foreground or as a background job.
//!
//! Starting processes is left to the caller. Here a request is read, the working directory
//! is settled, and background jobs get their names.
use vstd::prelude::*;

use crate::error::ErrorView;
use crate::error::ToolError;
use crate::json::add_maybe;
use crate::json::array_in;
use crate::json::bool_in;
use crate::json::build_object;
use crate::json::entry;
use crate::json::field;
use crate::json::int_json;
use crate::json::int_to_json;
use crate::json::law_object_holds;
use crate::json::lemma_object_view;
use crate::json::maybe;
use crate::json::members_view;
use crate::json::nat_in;
use crate::json::object_of;
use crate::json::str_to_json;
use crate::json::string_in;
use crate::json::Json;
use crate::json::JsonView;
use crate::lists::law_picked;
use crate::text::chars_of;
use crate::text::cut;
use crate::text::decimal;
use crate::text::find_from;
use crate::text::from_utf8_lossy;
use crate::text::is_white;
use crate::text::law_decimal_reads_back;
use crate::text::law_no_number;
use crate::text::law_trim;
use crate::text::lemma_find_from;
use crate::text::lossy_text;
use crate::text::occurs_at;
use crate::text::pairs_view;
use crate::text::push_decimal;
use crate::text::string_of;
use crate::text::trim;
use crate::text::trim_start;
use crate::text::trimmed;
use crate::text::trimmed_start;
use crate::text::views;
use crate::tools::find::read_texts;
use crate::tools::search::texts_in;
use crate::types::optional_text;

verus! {

/// How long a command may run where nothing else is said, in milliseconds.
pub const EXEC_TIMEOUT_MS: u64 = 300_000;

/// How long a spawned process may run where nothing else is said, in milliseconds.
pub const SPAWN_TIMEOUT_MS: u64 = 60_000;

/// So many seconds in milliseconds; more than can be counted count as the greatest number.
pub open spec fn millis(secs: nat) -> nat {
    if secs * 1000 > u64::MAX {
        u64::MAX as nat
    } else {
        secs * 1000
    }
}

fn seconds_to_millis(secs: u64) -> (r: u64)
    ensures
        r as nat == millis(secs as nat),
{
    if secs > u64::MAX / 1000 {
        u64::MAX
    } else {
        secs * 1000
    }
}

/// The default timeout in milliseconds, given what the environment says in seconds.
pub open spec fn exec_timeout(env_secs: Option<Seq<char>>) -> nat {
    match env_secs {
        None => EXEC_TIMEOUT_MS as nat,
        Some(s) => match crate::text::parse_nat(s) {
            Some(n) => if n > u64::MAX {
                EXEC_TIMEOUT_MS as nat
            } else {
                millis(n)
            },
            None => EXEC_TIMEOUT_MS as nat,
        },
    }
}

/// The default timeout for `shell.exec` in milliseconds. `env_secs` is what the operator set,
/// in seconds; what is no number counts as not set.
pub fn default_exec_timeout_ms(env_secs: Option<&str>) -> (r: u64)
    ensures
        r as nat == exec_timeout(
            match env_secs {
                Some(s) => Some(s@),
                None => None,
            },
        ),
{
    match env_secs {
        None => EXEC_TIMEOUT_MS,
        Some(s) => {
            let cs = chars_of(s);
            match crate::text::parse_u64(&cs) {
                None => EXEC_TIMEOUT_MS,
                Some(n) => seconds_to_millis(n),
            }
        },
    }
}

/// The working directory that the context of a call names.
pub open spec fn context_cwd(metadata: Option<JsonView>) -> Option<Seq<char>> {
    match metadata {
        Some(m) => string_in(field(m, "cwd"@)),
        None => None,
    }
}

/// The working directory that the context of a call names.
pub fn cwd_of_context(metadata: &Option<Json>) -> (r: Option<String>)
    ensures
        optional_text(r) == context_cwd(crate::json::optional_view(*metadata)),
{
    match metadata {
        Some(m) => match m.get_str("cwd") {
            Some(s) => Some(s.clone()),
            None => None,
        },
        None => None,
    }
}

// ---------------------------------------------------------------------------
// `cd <path> && <command>`
// ---------------------------------------------------------------------------

/// The character keeps a path from being taken out of a command.
pub open spec fn is_shell_special(c: char) -> bool {
    c == '&' || c == '\\' || c == '\n' || c == '\r' || c == '$' || c == '`' || c == '('
}

/// A text without the quotes around it, if it stands in quotes.
pub open spec fn without_quotes(s: Seq<char>) -> Seq<char> {
    if s.len() >= 2 && s[0] == s.last() && (s[0] == '"' || s[0] == '\'') {
        s.subrange(1, s.len() - 1)
    } else {
        s
    }
}

/// The path and the rest of a command that starts with `cd <path> &&`; none where it does
/// not, or where only a shell could tell what the path is.
pub open spec fn cd_prefix(command: Seq<char>) -> Option<(Seq<char>, Seq<char>)> {
    if !("cd "@.is_prefix_of(command) || "cd\t"@.is_prefix_of(command)) {
        None
    } else {
        let leading = command.skip(3);
        match find_from(leading, "&&"@, 0) {
            None => None,
            Some(i) => {
                let path = trim(leading.take(i));
                if path.len() == 0 || exists|k: int|
                    0 <= k < path.len() && is_shell_special(#[trigger] path[k]) {
                    None
                } else {
                    Some((without_quotes(path), trim_start(leading.skip(i + 2))))
                }
            },
        }
    }
}

fn has_special(s: &Vec<char>) -> (r: bool)
    ensures
        r == exists|k: int| 0 <= k < s@.len() && is_shell_special(#[trigger] s@[k]),
{
    let mut i: usize = 0;
    while i < s.len()
        invariant
            i <= s@.len(),
            forall|k: int| 0 <= k < i ==> !is_shell_special(#[trigger] s@[k]),
        decreases s@.len() - i,
    {
        let c = s[i];
        if c == '&' || c == '\\' || c == '\n' || c == '\r' || c == '$' || c == '`' || c == '(' {
            assert(is_shell_special(s@[i as int]));
            return true;
        }
        i = i + 1;
    }
    false
}

fn unquote(s: &Vec<char>) -> (r: Vec<char>)
    ensures
        r@ == without_quotes(s@),
{
    let n = s.len();
    if n >= 2 && s[0] == s[n - 1] && (s[0] == '"' || s[0] == '\'') {
        cut(s, 1, n - 1)
    } else {
        let r = cut(s, 0, n);
        assert(r@ =~= s@);
        r
    }
}

/// Takes the path out of a command that starts with `cd <path> &&`.
pub fn extract_cd_prefix(command: &str) -> (r: Option<(String, String)>)
    ensures
        match r {
            Some((path, rest)) => cd_prefix(command@) == Some((path@, rest@)),
            None => cd_prefix(command@) is None,
        },
{
    proof {
        reveal_strlit("cd ");
        reveal_strlit("cd\t");
        reveal_strlit("&&");
    }
    let cs = chars_of(command);
    let space = chars_of("cd ");
    let tab = chars_of("cd\t");
    if !crate::text::starts_with(&cs, &space) && !crate::text::starts_with(&cs, &tab) {
        return None;
    }
    let n = cs.len();
    assert(n >= 3);
    let leading = cut(&cs, 3, n);
    assert(leading@ =~= command@.skip(3));
    let and = chars_of("&&");
    let i = match crate::text::find_chars(&leading, &and, 0) {
        None => return None,
        Some(i) => i,
    };
    proof {
        crate::text::lemma_find_from(leading@, "&&"@, 0);
    }
    let m = leading.len();
    let head = cut(&leading, 0, i);
    assert(head@ =~= leading@.take(i as int));
    let path = trimmed(&head);
    if path.len() == 0 || has_special(&path) {
        return None;
    }
    let tail = cut(&leading, i + 2, m);
    assert(tail@ =~= leading@.skip(i + 2));
    let inner = unquote(&path);
    let rest = trimmed_start(&tail);
    Some((string_of(&inner), string_of(&rest)))
}

// ---------------------------------------------------------------------------
// Requests
// ---------------------------------------------------------------------------

/// How a command is run.
#[derive(Debug)]
pub enum ExecMode {
    /// Run it and wait.
    Foreground,
    /// Start it as a background job.
    Background,
    /// Wait for the background job of this name.
    Wait(String),
}

/// What `shell.exec` is asked to do.
#[derive(Debug)]
pub struct ExecRequest {
    /// The command.
    pub command: String,
    /// Where to run it.
    pub cwd: Option<String>,
    /// How long it may run, in milliseconds.
    pub timeout_ms: u64,
    /// Environment variables to be set.
    pub env: Vec<(String, String)>,
    /// What it reads.
    pub stdin: Option<String>,
    /// How it is run.
    pub mode: ExecMode,
}

/// The members whose values are texts.
pub open spec fn text_members(m: Seq<(Seq<char>, JsonView)>) -> Seq<(Seq<char>, Seq<char>)> {
    m.filter_map(
        |e: (Seq<char>, JsonView)|
            match e.1 {
                JsonView::String(s) => Some((e.0, s)),
                _ => None,
            },
    )
}

/// The environment variables that an input asks for.
pub open spec fn env_of(input: JsonView) -> Seq<(Seq<char>, Seq<char>)> {
    match field(input, "env"@) {
        Some(JsonView::Object(m)) => text_members(m),
        _ => Seq::empty(),
    }
}

/// The members of an object whose values are texts.
pub fn read_text_members(m: &Vec<(String, Json)>) -> (r: Vec<(String, String)>)
    ensures
        pairs_view(r@) == text_members(members_view(m@)),
{
    let ghost all = members_view(m@);
    let ghost f = |e: (Seq<char>, JsonView)|
        match e.1 {
            JsonView::String(s) => Some((e.0, s)),
            _ => None,
        };
    let mut r: Vec<(String, String)> = Vec::new();
    let mut i: usize = 0;
    assert(all.take(0).filter_map(f) =~= Seq::<(Seq<char>, Seq<char>)>::empty()) by {
        reveal_with_fuel(Seq::filter_map, 1);
    }
    assert(pairs_view(r@) =~= all.take(0).filter_map(f));
    while i < m.len()
        invariant
            i <= m@.len(),
            all == members_view(m@),
            f == (|e: (Seq<char>, JsonView)|
                match e.1 {
                    JsonView::String(s) => Some((e.0, s)),
                    _ => None,
                }),
            pairs_view(r@) == all.take(i as int).filter_map(f),
        decreases m@.len() - i,
    {
        let ghost done = r@;
        proof {
            all.lemma_filter_map_take_succ(f, i as int);
            assert(all[i as int] == (m@[i as int].0@, m@[i as int].1@));
        }
        if let Json::String(s) = &m[i].1 {
            let k = m[i].0.clone();
            r.push((k, s.clone()));
            assert(pairs_view(r@) =~= pairs_view(done).push((k@, s@)));
        }
        i = i + 1;
    }
    assert(all.take(all.len() as int) =~= all);
    assert(all.filter_map(f) == text_members(all));
    r
}

fn read_env(input: &Json) -> (r: Vec<(String, String)>)
    ensures
        pairs_view(r@) == env_of(input@),
{
    match input.get("env") {
        Some(Json::Object(m)) => {
            proof {
                lemma_object_view(*m);
            }
            read_text_members(m)
        },
        _ => {
            let r: Vec<(String, String)> = Vec::new();
            assert(pairs_view(r@) =~= Seq::<(Seq<char>, Seq<char>)>::empty());
            r
        },
    }
}

fn copy_text(s: Option<&String>) -> (r: Option<String>)
    ensures
        optional_text(r) == (match s {
            Some(s) => Some(s@),
            None => None,
        }),
{
    match s {
        Some(s) => Some(s.clone()),
        None => None,
    }
}

/// Where a command runs and what is left of it: a directory that the input names comes
/// first, then one that the command changes to, then that of the context.
pub open spec fn settled(
    command: Seq<char>,
    param: Option<Seq<char>>,
    context: Option<Seq<char>>,
) -> (Option<Seq<char>>, Seq<char>) {
    if param is Some {
        (param, command)
    } else {
        match cd_prefix(command) {
            Some((path, rest)) => (Some(path), rest),
            None => (context, command),
        }
    }
}

/// What is wrong with a request to `shell.exec`.
pub open spec fn exec_fault(input: JsonView) -> Option<Seq<char>> {
    if string_in(field(input, "command"@)) is None {
        Some("command is required"@)
    } else if bool_in(field(input, "async"@)) != Some(true) && bool_in(field(input, "wait"@))
        == Some(true) && string_in(field(input, "jobId"@)) is None {
        Some("jobId is required when wait=true"@)
    } else {
        None
    }
}

/// The mode is the one that the input asks for.
pub open spec fn mode_fits(input: JsonView, mode: ExecMode) -> bool {
    match mode {
        ExecMode::Background => bool_in(field(input, "async"@)) == Some(true),
        ExecMode::Wait(job) => bool_in(field(input, "async"@)) != Some(true) && bool_in(
            field(input, "wait"@),
        ) == Some(true) && string_in(field(input, "jobId"@)) == Some(job@),
        ExecMode::Foreground => bool_in(field(input, "async"@)) != Some(true) && bool_in(
            field(input, "wait"@),
        ) != Some(true),
    }
}

/// What `shell.exec` is asked to do, or what is wrong with the request.
pub fn parse_exec(input: &Json, metadata: &Option<Json>, default_timeout_ms: u64) -> (r: Result<
    ExecRequest,
    ToolError,
>)
    ensures
        match r {
            Err(e) => exec_fault(input@) is Some && e@ == ErrorView::Other(exec_fault(input@)->0),
            Ok(q) => {
                &&& exec_fault(input@) is None
                &&& (optional_text(q.cwd), q.command@) == settled(
                    string_in(field(input@, "command"@))->0,
                    string_in(field(input@, "cwd"@)),
                    context_cwd(crate::json::optional_view(*metadata)),
                )
                &&& q.timeout_ms as nat == (match nat_in(field(input@, "timeout"@)) {
                    Some(n) => millis(n),
                    None => default_timeout_ms as nat,
                })
                &&& pairs_view(q.env@) == env_of(input@)
                &&& optional_text(q.stdin) == string_in(field(input@, "stdin"@))
                &&& mode_fits(input@, q.mode)
            },
        },
{
    let original = match input.get_str("command") {
        Some(s) => s,
        None => return Err(ToolError::other("command is required")),
    };
    let (cwd, command) = match input.get_str("cwd") {
        Some(p) => (Some(p.clone()), original.clone()),
        None => match extract_cd_prefix(original.as_str()) {
            Some((path, rest)) => (Some(path), rest),
            None => (cwd_of_context(metadata), original.clone()),
        },
    };
    let timeout_ms: u64 = match input.get_u64("timeout") {
        Some(n) => seconds_to_millis(n),
        None => default_timeout_ms,
    };
    let background = match input.get_bool("async") {
        Some(b) => b,
        None => false,
    };
    let wait = match input.get_bool("wait") {
        Some(b) => b,
        None => false,
    };
    let mode = if background {
        ExecMode::Background
    } else if wait {
        match input.get_str("jobId") {
            Some(job) => ExecMode::Wait(job.clone()),
            None => return Err(ToolError::other("jobId is required when wait=true")),
        }
    } else {
        ExecMode::Foreground
    };
    Ok(
        ExecRequest {
            command,
            cwd,
            timeout_ms,
            env: read_env(input),
            stdin: copy_text(input.get_str("stdin")),
            mode,
        },
    )
}

/// What `shell.spawn` is asked to do.
#[derive(Debug)]
pub struct SpawnRequest {
    /// The program.
    pub command: String,
    /// Its arguments.
    pub args: Vec<String>,
    /// Where to run it.
    pub cwd: Option<String>,
    /// How long it may run, in milliseconds.
    pub timeout_ms: u64,
    /// What it reads.
    pub stdin: Option<String>,
}

/// The arguments that an input gives.
pub open spec fn args_of(input: JsonView) -> Seq<Seq<char>> {
    match array_in(field(input, "args"@)) {
        Some(items) => texts_in(items),
        None => Seq::empty(),
    }
}

/// What `shell.spawn` is asked to do, or what is wrong with the request.
pub fn parse_spawn(input: &Json, metadata: &Option<Json>) -> (r: Result<SpawnRequest, ToolError>)
    ensures
        match r {
            Err(e) => string_in(field(input@, "command"@)) is None && e@ == ErrorView::Other(
                "command is required"@,
            ),
            Ok(q) => {
                &&& string_in(field(input@, "command"@)) == Some(q.command@)
                &&& views(q.args@) == args_of(input@)
                &&& optional_text(q.cwd) == (match string_in(field(input@, "cwd"@)) {
                    Some(p) => Some(p),
                    None => context_cwd(crate::json::optional_view(*metadata)),
                })
                &&& q.timeout_ms as nat == (match nat_in(field(input@, "timeout"@)) {
                    Some(n) => n,
                    None => SPAWN_TIMEOUT_MS as nat,
                })
                &&& optional_text(q.stdin) == string_in(field(input@, "stdin"@))
            },
        },
{
    let command = match input.get_str("command") {
        Some(s) => s.clone(),
        None => return Err(ToolError::other("command is required")),
    };
    let args = match input.get_array("args") {
        Some(items) => read_texts(items),
        None => {
            let r: Vec<String> = Vec::new();
            assert(views(r@) =~= Seq::<Seq<char>>::empty());
            r
        },
    };
    let cwd = match input.get_str("cwd") {
        Some(p) => Some(p.clone()),
        None => cwd_of_context(metadata),
    };
    let timeout_ms: u64 = match input.get_u64("timeout") {
        Some(n) => n,
        None => SPAWN_TIMEOUT_MS,
    };
    Ok(SpawnRequest { command, args, cwd, timeout_ms, stdin: copy_text(input.get_str("stdin")) })
}

// ---------------------------------------------------------------------------
// Background jobs
// ---------------------------------------------------------------------------

/// The background jobs that have been started and not yet been waited for.
#[derive(Debug)]
pub struct JobTable {
    next: u64,
    live: Vec<String>,
}

/// The name of the `n`-th job.
pub open spec fn job_name(n: nat) -> Seq<char> {
    "bg-"@ + decimal(n)
}

/// The name is that of a job before the `next`-th.
pub open spec fn issued(name: Seq<char>, next: nat) -> bool {
    exists|n: nat| 1 <= n < next && name == #[trigger] job_name(n)
}

impl JobTable {
    /// The number of the next job.
    pub closed spec fn next(&self) -> nat {
        self.next as nat
    }

    /// The names of the live jobs.
    pub closed spec fn live(&self) -> Seq<Seq<char>> {
        views(self.live@)
    }

    /// Every live job has one of the names that were handed out, and no two have the same.
    pub open spec fn well_formed(&self) -> bool {
        &&& self.next() >= 1
        &&& forall|i: int|
            0 <= i < self.live().len() ==> issued(#[trigger] self.live()[i], self.next())
        &&& self.live().no_duplicates()
    }

    /// No jobs yet.
    pub fn new() -> (r: Self)
        ensures
            r.well_formed(),
            r.next() == 1,
            r.live().len() == 0,
    {
        JobTable { next: 1, live: Vec::new() }
    }

    /// Gives a new job its name.
    pub fn start(&mut self) -> (r: String)
        requires
            old(self).well_formed(),
            old(self).next() < u64::MAX,
        ensures
            final(self).well_formed(),
            r@ == job_name(old(self).next()),
            !old(self).live().contains(r@),
            final(self).next() == old(self).next() + 1,
            final(self).live() == old(self).live().push(r@),
    {
        let mut name = String::from_str("bg-");
        push_decimal(&mut name, self.next);
        let ghost before = self.live();
        let ghost n = self.next();
        proof {
            if before.contains(name@) {
                let i = choose|i: int| 0 <= i < before.len() && before[i] == name@;
                assert(issued(before[i], n));
                let m = choose|m: nat| 1 <= m < n && before[i] == #[trigger] job_name(m);
                lemma_job_names_differ(m, n);
            }
        }
        self.live.push(name.clone());
        self.next = self.next + 1;
        proof {
            let after = self.live();
            assert(after =~= before.push(name@));
            assert forall|i: int| 0 <= i < after.len() implies issued(
                #[trigger] after[i],
                self.next(),
            ) by {
                if i < before.len() {
                    assert(after[i] == before[i]);
                    assert(issued(before[i], n));
                    let m = choose|m: nat| 1 <= m < n && before[i] == #[trigger] job_name(m);
                    assert(after[i] == job_name(m));
                } else {
                    assert(after[i] == job_name(n));
                }
            }
            assert(after.no_duplicates()) by {
                assert forall|a: int, b: int|
                    0 <= a < after.len() && 0 <= b < after.len() && a != b implies after[a]
                    != after[b] by {
                    if a < before.len() && b < before.len() {
                        assert(after[a] == before[a] && after[b] == before[b]);
                    } else if a < before.len() {
                        assert(after[a] == before[a]);
                        assert(before.contains(before[a]));
                    } else {
                        assert(after[b] == before[b]);
                        assert(before.contains(before[b]));
                    }
                }
            }
        }
        name
    }

    /// Takes a job out of the table, so that it can be waited for; each job once.
    pub fn take(&mut self, job: &str) -> (r: Result<(), ToolError>)
        requires
            old(self).well_formed(),
        ensures
            final(self).well_formed(),
            final(self).next() == old(self).next(),
            match r {
                Ok(()) => {
                    &&& old(self).live().contains(job@)
                    &&& !final(self).live().contains(job@)
                    &&& exists|i: int|
                        0 <= i < old(self).live().len() && old(self).live()[i] == job@
                            && final(self).live() == #[trigger] old(self).live().remove(i)
                },
                Err(e) => {
                    &&& !old(self).live().contains(job@)
                    &&& final(self).live() == old(self).live()
                    &&& e@ == ErrorView::Other("Job not found: "@ + job@)
                },
            },
    {
        let ghost before = self.live();
        let mut i: usize = 0;
        while i < self.live.len()
            invariant
                i <= self.live@.len(),
                *self == *old(self),
                before == views(self.live@),
                before == old(self).live(),
                old(self).well_formed(),
                forall|k: int| 0 <= k < i ==> before[k] != job@,
            decreases self.live@.len() - i,
        {
            assert(before[i as int] == self.live@[i as int]@);
            if crate::text::same(self.live[i].as_str(), job) {
                let gone = self.live.remove(i);
                proof {
                    let after = self.live();
                    assert(after =~= before.remove(i as int));
                    assert forall|k: int| 0 <= k < after.len() implies after[k] != job@ by {
                        if k < i {
                            assert(after[k] == before[k]);
                        } else {
                            assert(after[k] == before[k + 1]);
                        }
                    }
                    assert forall|k: int| 0 <= k < after.len() implies issued(
                        #[trigger] after[k],
                        self.next(),
                    ) by {
                        let j = if k < i {
                            k
                        } else {
                            k + 1
                        };
                        assert(after[k] == before[j]);
                        assert(issued(before[j], self.next()));
                    }
                    assert(after.no_duplicates()) by {
                        assert forall|a: int, b: int|
                            0 <= a < after.len() && 0 <= b < after.len() && a != b implies after[a]
                            != after[b] by {
                            let x = if a < i {
                                a
                            } else {
                                a + 1
                            };
                            let y = if b < i {
                                b
                            } else {
                                b + 1
                            };
                            assert(after[a] == before[x] && after[b] == before[y]);
                        }
                    }
                }
                return Ok(());
            }
            i = i + 1;
        }
        let mut m = String::from_str("Job not found: ");
        m.append(job);
        Err(ToolError::Other(m))
    }
}

/// Numbers that differ are written differently.
pub proof fn lemma_decimal_injective(a: nat, b: nat)
    ensures
        decimal(a) == decimal(b) ==> a == b,
    decreases a,
{
    if decimal(a) == decimal(b) {
        let x = decimal(a);
        let y = decimal(b);
        lemma_decimal_len(a);
        lemma_decimal_len(b);
        assert(x.last() == y.last());
        if a < 10 {
            assert(x.len() == 1);
            if b >= 10 {
                assert(y.len() > 1);
            }
        } else {
            if b < 10 {
                assert(y.len() == 1);
            } else {
                assert(x.drop_last() =~= decimal(a / 10));
                assert(y.drop_last() =~= decimal(b / 10));
                lemma_decimal_injective(a / 10, b / 10);
            }
        }
    }
}

proof fn lemma_decimal_len(n: nat)
    ensures
        decimal(n).len() >= 1,
        (decimal(n).len() == 1) == (n < 10),
        decimal(n).last() == crate::text::digit(n % 10),
    decreases n,
{
    if n >= 10 {
        lemma_decimal_len(n / 10);
    }
}

proof fn lemma_job_names_differ(a: nat, b: nat)
    requires
        a != b,
    ensures
        job_name(a) != job_name(b),
{
    lemma_decimal_injective(a, b);
    let p = "bg-"@;
    if job_name(a) == job_name(b) {
        assert(job_name(a).skip(p.len() as int) =~= decimal(a));
        assert(job_name(b).skip(p.len() as int) =~= decimal(b));
    }
}

/// What is said when a background job has started.
pub open spec fn started_text(job: Seq<char>) -> Seq<char> {
    "Background job "@ + job + " started. Use shell.exec with `jobId: \""@ + job
        + "\"` and `wait: true` to get the result."@
}

/// What is said when a background job has started.
pub fn started_message(job: &str) -> (r: String)
    ensures
        r@ == started_text(job@),
{
    let mut r = String::from_str("Background job ");
    r.append(job);
    r.append(" started. Use shell.exec with `jobId: \"");
    r.append(job);
    r.append("\"` and `wait: true` to get the result.");
    r
}

// ---------------------------------------------------------------------------
// The answers
// ---------------------------------------------------------------------------

/// What is answered when a background job has started.
pub open spec fn started_answer(job: Seq<char>) -> JsonView {
    JsonView::Object(
        object_of(
            seq![
                ("jobId"@, JsonView::String(job)),
                ("status"@, JsonView::String("running"@)),
                ("message"@, JsonView::String(started_text(job))),
            ],
        ),
    )
}

/// What is answered when a background job has started.
pub fn finish_start(job: &str) -> (r: Json)
    ensures
        r@ == started_answer(job@),
{
    let mut pairs: Vec<(String, Json)> = Vec::new();
    pairs.push(entry("jobId", str_to_json(job)));
    pairs.push(entry("status", str_to_json("running")));
    pairs.push(entry("message", Json::String(started_message(job))));
    assert(members_view(pairs@) =~= seq![
        ("jobId"@, JsonView::String(job@)),
        ("status"@, JsonView::String("running"@)),
        ("message"@, JsonView::String(started_text(job@))),
    ]);
    build_object(pairs)
}

/// An exit code as JSON, null where a signal ended the command.
pub open spec fn code_json(code: Option<int>) -> JsonView {
    match code {
        Some(n) => int_json(n),
        None => JsonView::Null,
    }
}

/// What is answered when a command has ended: what it wrote, how it ended, and the job that
/// it was, where it was one.
pub open spec fn ended_answer(
    stdout: Seq<char>,
    stderr: Seq<char>,
    code: Option<int>,
    success: bool,
    job: Option<Seq<char>>,
) -> JsonView {
    JsonView::Object(
        object_of(
            seq![
                ("stdout"@, JsonView::String(stdout)),
                ("stderr"@, JsonView::String(stderr)),
                ("exitCode"@, code_json(code)),
                ("success"@, JsonView::Bool(success)),
            ] + maybe(
                "jobId"@,
                match job {
                    Some(job) => Some(JsonView::String(job)),
                    None => None,
                },
            ),
        ),
    )
}

/// What is answered when a command has ended, given the texts that it wrote.
pub fn describe_end(
    stdout: &str,
    stderr: &str,
    code: Option<i32>,
    success: bool,
    job: Option<&str>,
) -> (r: Json)
    ensures
        r@ == ended_answer(
            stdout@,
            stderr@,
            match code {
                Some(n) => Some(n as int),
                None => None,
            },
            success,
            match job {
                Some(job) => Some(job@),
                None => None,
            },
        ),
{
    let ending = match code {
        Some(n) => int_to_json(n as i64),
        None => Json::Null,
    };
    let mut pairs: Vec<(String, Json)> = Vec::new();
    pairs.push(entry("stdout", str_to_json(stdout)));
    pairs.push(entry("stderr", str_to_json(stderr)));
    pairs.push(entry("exitCode", ending));
    pairs.push(entry("success", Json::Bool(success)));
    assert(members_view(pairs@) =~= seq![
        ("stdout"@, JsonView::String(stdout@)),
        ("stderr"@, JsonView::String(stderr@)),
        ("exitCode"@, ending@),
        ("success"@, JsonView::Bool(success)),
    ]);
    let owner = match job {
        Some(job) => Some(str_to_json(job)),
        None => None,
    };
    add_maybe(&mut pairs, "jobId", owner);
    build_object(pairs)
}

/// What is answered when a command has ended, given the bytes that it wrote.
pub fn finish_command(
    stdout: &[u8],
    stderr: &[u8],
    code: Option<i32>,
    success: bool,
    job: Option<&str>,
) -> (r: Json)
    ensures
        r@ == ended_answer(
            lossy_text(stdout@),
            lossy_text(stderr@),
            match code {
                Some(n) => Some(n as int),
                None => None,
            },
            success,
            match job {
                Some(job) => Some(job@),
                None => None,
            },
        ),
{
    let out = from_utf8_lossy(stdout);
    let err = from_utf8_lossy(stderr);
    describe_end(out.as_str(), err.as_str(), code, success, job)
}

// ---------------------------------------------------------------------------
// What a command comes to
// ---------------------------------------------------------------------------

proof fn lemma_first_and(path: Seq<char>, rest: Seq<char>)
    requires
        !path.contains('&'),
    ensures
        find_from(path + " "@ + "&&"@ + rest, "&&"@, 0) == Some(path.len() as int + 1),
{
    reveal_strlit(" ");
    reveal_strlit("&&");
    assert(" "@.len() == 1 && " "@[0] == ' ');
    assert("&&"@.len() == 2 && "&&"@[0] == '&' && "&&"@[1] == '&');
    let s = path + " "@ + "&&"@ + rest;
    let at = path.len() as int + 1;
    assert(s.subrange(at, at + 2) =~= "&&"@);
    assert forall|i: int| 0 <= i < at implies #[trigger] s[i] != '&' by {
        if i < path.len() {
            assert(s[i] == path[i]);
            assert(path.contains(path[i]));
        }
    }
    lemma_first_place(s, "&&"@, at);
}

proof fn lemma_first_place(s: Seq<char>, needle: Seq<char>, at: int)
    requires
        needle.len() > 0,
        occurs_at(s, needle, at),
        forall|i: int| 0 <= i < at ==> #[trigger] s[i] != needle[0],
    ensures
        find_from(s, needle, 0) == Some(at),
{
    lemma_find_from(s, needle, 0);
    if let Some(i) = find_from(s, needle, 0) {
        if i < at {
            assert(s.subrange(i, i + needle.len())[0] == s[i]);
        }
    }
}

/// A command that changes the directory first is taken as the directory and the rest: `cd`, a
/// path without anything special in it, `&&`, and the command.
pub proof fn law_cd_is_split(path: Seq<char>, rest: Seq<char>)
    requires
        path.len() > 0,
        !is_white(path[0]),
        !is_white(path.last()),
        forall|k: int| 0 <= k < path.len() ==> !is_shell_special(#[trigger] path[k]),
        path[0] != '"' && path[0] != '\'',
        rest.len() > 0,
        !is_white(rest[0]),
    ensures
        cd_prefix("cd "@ + path + " "@ + "&&"@ + " "@ + rest) == Some((path, rest)),
        cd_prefix("cd "@ + seq!['"'] + path + seq!['"'] + " "@ + "&&"@ + " "@ + rest) == Some(
            (path, rest),
        ),
{
    lemma_cd_split(path, rest);
    let q = seq!['"'] + path + seq!['"'];
    assert forall|k: int| 0 <= k < q.len() implies !is_shell_special(#[trigger] q[k]) by {
        if 0 < k < q.len() - 1 {
            assert(q[k] == path[k - 1]);
        }
    }
    lemma_cd_split(q, rest);
    assert(without_quotes(q) =~= path);
    assert("cd "@ + seq!['"'] + path + seq!['"'] + " "@ + "&&"@ + " "@ + rest =~= "cd "@ + q + " "@
        + "&&"@ + " "@ + rest);
}

proof fn lemma_cd_split(path: Seq<char>, rest: Seq<char>)
    requires
        path.len() > 0,
        !is_white(path[0]),
        !is_white(path.last()),
        forall|k: int| 0 <= k < path.len() ==> !is_shell_special(#[trigger] path[k]),
        rest.len() > 0,
        !is_white(rest[0]),
    ensures
        cd_prefix("cd "@ + path + " "@ + "&&"@ + " "@ + rest) == Some(
            (without_quotes(path), rest),
        ),
{
    reveal_strlit("cd ");
    reveal_strlit(" ");
    reveal_strlit("&&");
    assert("cd "@.len() == 3);
    assert(" "@.len() == 1 && " "@[0] == ' ');
    assert("&&"@.len() == 2);
    let tail = " "@ + rest;
    let command = "cd "@ + path + " "@ + "&&"@ + " "@ + rest;
    let leading = path + " "@ + "&&"@ + tail;
    assert(command.take(3) =~= "cd "@);
    assert("cd "@.is_prefix_of(command));
    assert(command.skip(3) =~= leading);
    assert(!path.contains('&')) by {
        if path.contains('&') {
            let k = choose|k: int| 0 <= k < path.len() && path[k] == '&';
            assert(is_shell_special(path[k]));
        }
    }
    lemma_first_and(path, tail);
    let i = path.len() as int + 1;
    assert(leading.take(i) =~= Seq::<char>::empty() + path + " "@);
    law_trim(Seq::empty(), path, " "@);
    assert(leading.skip(i + 2) =~= tail);
    assert(tail[0] == ' ');
    assert(tail.drop_first() =~= rest);
    reveal_with_fuel(trim_start, 2);
}

/// A command that does not start with `cd`, or goes on with nothing behind `&&`, changes no
/// directory first.
pub proof fn law_other_commands(command: Seq<char>)
    ensures
        !"cd "@.is_prefix_of(command) && !"cd\t"@.is_prefix_of(command) ==> cd_prefix(command) is None,
        (forall|i: int| !occurs_at(command, "&&"@, i)) ==> cd_prefix(command) is None,
{
    if forall|i: int| !occurs_at(command, "&&"@, i) {
        if "cd "@.is_prefix_of(command) || "cd\t"@.is_prefix_of(command) {
            reveal_strlit("cd ");
            reveal_strlit("cd\t");
            assert("cd "@.len() == 3 && "cd\t"@.len() == 3);
            let leading = command.skip(3);
            lemma_find_from(leading, "&&"@, 0);
            if let Some(i) = find_from(leading, "&&"@, 0) {
                assert(occurs_at(leading, "&&"@, i));
                reveal_strlit("&&");
                assert(leading.subrange(i, i + "&&"@.len()) =~= command.subrange(
                    i + 3,
                    i + 3 + "&&"@.len(),
                ));
                assert(occurs_at(command, "&&"@, i + 3));
            }
        }
    }
}

/// Where a command runs: in the directory that is given, and then as it is; else in the directory
/// that it changes to first; else in that of the context.
pub proof fn law_where_a_command_runs(
    command: Seq<char>,
    param: Option<Seq<char>>,
    context: Option<Seq<char>>,
)
    ensures
        param matches Some(p) ==> settled(command, param, context) == (Some(p), command),
        param is None ==> (cd_prefix(command) matches Some((path, rest)) ==> settled(
            command,
            param,
            context,
        ) == (Some(path), rest)),
        param is None && cd_prefix(command) is None ==> settled(command, param, context) == (
            context,
            command,
        ),
{
}

/// A command may take five minutes, or as many seconds as the environment says.
pub proof fn law_exec_timeout(n: nat)
    ensures
        exec_timeout(None) == 5 * 60 * 1000,
        n * 1000 <= u64::MAX ==> exec_timeout(Some(decimal(n))) == n * 1000,
        exec_timeout(Some(Seq::empty())) == 5 * 60 * 1000,
{
    law_decimal_reads_back(n);
    law_no_number(Seq::empty(), 0);
}

/// The environment of a command holds the texts that the input has under `env`, and nothing else.
pub proof fn law_env(input: JsonView, k: Seq<char>, v: Seq<char>)
    ensures
        field(input, "env"@) matches Some(JsonView::Object(m)) ==> (env_of(input).contains((k, v))
            <==> m.contains((k, JsonView::String(v)))),
        !(field(input, "env"@) matches Some(JsonView::Object(_))) ==> env_of(input).len() == 0,
{
    if let Some(JsonView::Object(m)) = field(input, "env"@) {
        let f = |e: (Seq<char>, JsonView)|
            match e.1 {
                JsonView::String(s) => Some((e.0, s)),
                _ => None,
            };
        law_picked(m, f, (k, v));
        if m.contains((k, JsonView::String(v))) {
            let i = choose|i: int| 0 <= i < m.len() && m[i] == (k, JsonView::String(v));
            assert(f(m[i]) == Some((k, v)));
        }
        if env_of(input).contains((k, v)) {
            let i = choose|i: int| 0 <= i < m.len() && f(#[trigger] m[i]) == Some((k, v));
            assert(m[i] == (k, JsonView::String(v)));
        }
    }
}

/// A command is refused exactly where there is none, or where a job is to be waited for and none
/// is named.
pub proof fn law_refused_commands(input: JsonView)
    ensures
        exec_fault(input) is None <==> (field(
            input,
            "command"@,
        ) matches Some(JsonView::String(_))) && (field(input, "async"@) == Some(
            JsonView::Bool(true),
        ) || field(input, "wait"@) != Some(JsonView::Bool(true)) || (field(
            input,
            "jobId"@,
        ) matches Some(JsonView::String(_)))),
{
}

/// A command runs in the background where `async` says so; else it waits for a job where `wait`
/// says so; else it runs in the foreground.
pub proof fn law_mode(input: JsonView, mode: ExecMode)
    requires
        mode_fits(input, mode),
    ensures
        field(input, "async"@) == Some(JsonView::Bool(true)) <==> mode is Background,
        field(input, "async"@) is None && field(input, "wait"@) == Some(JsonView::Bool(true))
            ==> mode is Wait,
        field(input, "async"@) is None && field(input, "wait"@) is None ==> mode is Foreground,
{
}

/// What is said of a job that was started.
pub proof fn law_started_answer(job: Seq<char>)
    ensures
        field(started_answer(job), "jobId"@) == Some(JsonView::String(job)),
        field(started_answer(job), "status"@) == Some(JsonView::String("running"@)),
        field(started_answer(job), "message"@) == Some(JsonView::String(started_text(job))),
{
    let pairs = seq![
        ("jobId"@, JsonView::String(job)),
        ("status"@, JsonView::String("running"@)),
        ("message"@, JsonView::String(started_text(job))),
    ];
    reveal_strlit("jobId");
    reveal_strlit("status");
    reveal_strlit("message");
    assert("jobId"@.len() == 5);
    assert("status"@.len() == 6);
    assert("message"@.len() == 7);
    law_object_holds(pairs, 0, "jobId"@);
    law_object_holds(pairs, 1, "status"@);
    law_object_holds(pairs, 2, "message"@);
}

/// What is said of a command that ended; the job is named where there was one.
pub proof fn law_ended_answer(
    stdout: Seq<char>,
    stderr: Seq<char>,
    code: Option<int>,
    success: bool,
    job: Option<Seq<char>>,
)
    ensures
        ({
            let a = ended_answer(stdout, stderr, code, success, job);
            &&& field(a, "stdout"@) == Some(JsonView::String(stdout))
            &&& field(a, "stderr"@) == Some(JsonView::String(stderr))
            &&& field(a, "exitCode"@) == match code {
                Some(n) => Some(int_json(n)),
                None => Some(JsonView::Null),
            }
            &&& field(a, "success"@) == Some(JsonView::Bool(success))
            &&& field(a, "jobId"@) == match job {
                Some(j) => Some(JsonView::String(j)),
                None => None,
            }
        }),
{
    let pairs = seq![
        ("stdout"@, JsonView::String(stdout)),
        ("stderr"@, JsonView::String(stderr)),
        ("exitCode"@, code_json(code)),
        ("success"@, JsonView::Bool(success)),
    ] + maybe(
        "jobId"@,
        match job {
            Some(job) => Some(JsonView::String(job)),
            None => None,
        },
    );
    reveal_strlit("stdout");
    reveal_strlit("stderr");
    reveal_strlit("exitCode");
    reveal_strlit("success");
    reveal_strlit("jobId");
    assert("stdout"@.len() == 6);
    assert("stderr"@.len() == 6);
    assert("exitCode"@.len() == 8);
    assert("success"@.len() == 7);
    assert("jobId"@.len() == 5);
    assert("stdout"@[3] != "stderr"@[3]);
    law_object_holds(pairs, 0, "stdout"@);
    law_object_holds(pairs, 1, "stderr"@);
    law_object_holds(pairs, 2, "exitCode"@);
    law_object_holds(pairs, 3, "success"@);
    law_object_holds(pairs, 4, "jobId"@);
}

/// A command without a list of arguments has none, and else those of the list that are texts.
pub proof fn law_arguments(input: JsonView, items: Seq<JsonView>)
    ensures
        array_in(field(input, "args"@)) is None ==> args_of(input).len() == 0,
        field(input, "args"@) == Some(JsonView::Array(items)) ==> args_of(input) == texts_in(items),
{
}

/// A word in quotes of either kind stands for what is inside them, and a word without quotes at its
/// ends for itself.
pub proof fn law_quotes(s: Seq<char>)
    ensures
        without_quotes(seq!['"'] + s + seq!['"']) == s,
        without_quotes(seq!['\''] + s + seq!['\'']) == s,
        s.len() > 0 && s[0] != '"' && s[0] != '\'' ==> without_quotes(s) == s,
        s.len() > 0 && s[0] != s.last() ==> without_quotes(s) == s,
        s.len() < 2 ==> without_quotes(s) == s,
{
    let double = seq!['"'] + s + seq!['"'];
    assert(double.subrange(1, double.len() - 1) =~= s);
    let single = seq!['\''] + s + seq!['\''];
    assert(single.subrange(1, single.len() - 1) =~= s);
}

/// A job is named by its number, behind a fixed mark.
pub proof fn law_names_of_jobs(n: nat)
    ensures
        job_name(n).take(3) == "bg-"@,
        job_name(n).skip(3) == decimal(n),
{
    reveal_strlit("bg-");
    assert(job_name(n).take(3) =~= "bg-"@);
    assert(job_name(n).skip(3) =~= decimal(n));
}

} // verus!
