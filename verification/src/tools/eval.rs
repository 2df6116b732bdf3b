//! The `eval` tool: Python code, run once or in a session that keeps its variables.
//!
//! The interpreter is run by the caller. Here a request is read, it is said what the
//! interpreter is told, and its output is sorted and put together.
use vstd::prelude::*;

use crate::error::debug_str;
use crate::error::debug_text;
use crate::error::ErrorView;
use crate::error::ToolError;
use crate::json::bool_in;
use crate::json::build_object;
use crate::json::entry;
use crate::json::field;
use crate::json::int_json;
use crate::json::int_to_json;
use crate::json::law_object_holds;
use crate::json::members_view;
use crate::json::nat_in;
use crate::json::object_of;
use crate::json::optional_view;
use crate::json::str_to_json;
use crate::json::string_in;
use crate::json::Json;
use crate::json::JsonView;
use crate::text::blank;
use crate::text::chars_of;
use crate::text::contains;
use crate::text::decimal;
use crate::text::from_utf8_lossy;
use crate::text::has;
use crate::text::is_blank;
use crate::text::join;
use crate::text::join_strings;
use crate::text::lossy_text;
use crate::text::push_decimal;
use crate::text::same;
use crate::text::string_of;
use crate::text::trim_end;
use crate::text::trimmed_end;
use crate::text::views;
use crate::tools::ast::number_or;
use crate::tools::file::lesser;
use crate::tools::shell::context_cwd;
use crate::tools::shell::cwd_of_context;
use crate::types::optional_text;

verus! {

/// How long code may run where nothing else is said, in seconds.
pub const DEFAULT_TIMEOUT_SECS: u64 = 30;

/// How long code may run at most, in seconds.
pub const MAX_TIMEOUT_SECS: u64 = 300;

/// What an evaluation asks for.
#[derive(Debug)]
pub struct EvalRequest {
    /// The code.
    pub code: String,
    /// The session to run it in; none where it is run once.
    pub session_id: Option<String>,
    /// Where it runs.
    pub cwd: Option<String>,
    /// How long it may run, in seconds.
    pub timeout_secs: u64,
    /// The session is started anew.
    pub reset: bool,
}

/// What an evaluation asks for, or its answer where there is nothing to run.
#[derive(Debug)]
pub enum EvalPlan {
    /// Code to run.
    Run(EvalRequest),
    /// Nothing to run.
    Answer(Json),
}

/// The answer where there is no code.
pub open spec fn empty_answer() -> JsonView {
    JsonView::Object(
        object_of(
            seq![
                ("stdout"@, JsonView::String(""@)),
                ("stderr"@, JsonView::String("code is empty"@)),
                ("exit_code"@, int_json(1)),
                ("success"@, JsonView::Bool(false)),
            ],
        ),
    )
}

fn answer_empty() -> (r: Json)
    ensures
        r@ == empty_answer(),
{
    let mut pairs: Vec<(String, Json)> = Vec::new();
    pairs.push(entry("stdout", str_to_json("")));
    pairs.push(entry("stderr", str_to_json("code is empty")));
    pairs.push(entry("exit_code", int_to_json(1)));
    pairs.push(entry("success", Json::Bool(false)));
    assert(members_view(pairs@) =~= seq![
        ("stdout"@, JsonView::String(""@)),
        ("stderr"@, JsonView::String("code is empty"@)),
        ("exit_code"@, int_json(1)),
        ("success"@, JsonView::Bool(false)),
    ]);
    build_object(pairs)
}

/// The first of two that is there.
pub open spec fn first_of(a: Option<Seq<char>>, b: Option<Seq<char>>) -> Option<Seq<char>> {
    match a {
        Some(_) => a,
        None => b,
    }
}

/// What is asked for is what is said in the input, and in the context of the call.
pub open spec fn eval_asked(input: JsonView, metadata: Option<JsonView>, q: EvalRequest) -> bool {
    &&& string_in(field(input, "code"@)) == Some(q.code@)
    &&& optional_text(q.session_id) == string_in(field(input, "session_id"@))
    &&& optional_text(q.cwd) == first_of(string_in(field(input, "cwd"@)), context_cwd(metadata))
    &&& q.timeout_secs as int == lesser(
        number_or(field(input, "timeout"@), DEFAULT_TIMEOUT_SECS as nat) as int,
        MAX_TIMEOUT_SECS as int,
    )
    &&& q.reset == (bool_in(field(input, "reset"@)) == Some(true))
}

/// Reads what an evaluation asks for.
pub fn parse_eval(input: &Json, metadata: &Option<Json>) -> (r: Result<EvalPlan, ToolError>)
    ensures
        match string_in(field(input@, "code"@)) {
            None => r matches Err(e) && e@ == ErrorView::Other("code is required"@),
            Some(code) => if is_blank(code) {
                r matches Ok(EvalPlan::Answer(a)) && a@ == empty_answer()
            } else {
                r matches Ok(EvalPlan::Run(q)) && eval_asked(input@, optional_view(*metadata), q)
            },
        },
{
    let code = match input.get_str("code") {
        Some(s) => s.clone(),
        None => {
            return Err(ToolError::other("code is required"));
        },
    };
    if blank(code.as_str()) {
        return Ok(EvalPlan::Answer(answer_empty()));
    }
    let session_id = match input.get_str("session_id") {
        Some(s) => Some(s.clone()),
        None => None,
    };
    let cwd = match input.get_str("cwd") {
        Some(s) => Some(s.clone()),
        None => cwd_of_context(metadata),
    };
    let asked = match input.get_u64("timeout") {
        Some(n) => n,
        None => DEFAULT_TIMEOUT_SECS,
    };
    let timeout_secs = if asked < MAX_TIMEOUT_SECS {
        asked
    } else {
        MAX_TIMEOUT_SECS
    };
    let reset = match input.get_bool("reset") {
        Some(b) => b,
        None => false,
    };
    Ok(EvalPlan::Run(EvalRequest { code, session_id, cwd, timeout_secs, reset }))
}

// ---------------------------------------------------------------------------
// Sessions
// ---------------------------------------------------------------------------

/// What is done before code is run in a session.
#[derive(Clone, Copy, Debug, PartialEq, Eq, Structural)]
pub struct SessionPlan {
    /// The process that is there is ended.
    pub discard: bool,
    /// A new process is started.
    pub create: bool,
}

/// Says what is done before code is run in a session: one that is there and alive is used
/// again, unless it is to be started anew.
pub fn plan_session(reset: bool, exists: bool, alive: bool) -> (r: SessionPlan)
    ensures
        r.discard == (exists && (reset || !alive)),
        r.create == !(exists && alive && !reset),
{
    let keep = exists && alive && !reset;
    SessionPlan { discard: exists && !keep, create: !keep }
}

/// What marks the end of the output, for a process with this number.
pub open spec fn marker_text(pid: nat) -> Seq<char> {
    "__EVAL_RESULT_MARKER_"@ + decimal(pid) + "__"@
}

/// What marks the end of the output.
pub fn session_marker(pid: u32) -> (r: String)
    ensures
        r@ == marker_text(pid as nat),
{
    let mut r = String::from_str("__EVAL_RESULT_MARKER_");
    push_decimal(&mut r, pid as u64);
    r.append("__");
    r
}

/// What the interpreter is told, given the code in quotes.
pub open spec fn told(marker: Seq<char>, quoted: Seq<char>) -> Seq<char> {
    marker + "\nimport sys; sys.stdout.flush(); sys.stderr.flush()\ntry:\n    exec("@ + quoted
        + ")\nexcept Exception as e:\n    print(f'__EVAL_ERROR__{e}', file=sys.stderr)\nfinally:\n    sys.stdout.flush()\n    sys.stderr.flush()\n    print('"@
        + marker + "')\n"@
}

/// What the interpreter is told, given the code in quotes: to run it, and to print the marker
/// when it is done.
pub fn tell(marker: &str, quoted: &str) -> (r: String)
    ensures
        r@ == told(marker@, quoted@),
{
    let mut r = String::from_str(marker);
    r.append("\nimport sys; sys.stdout.flush(); sys.stderr.flush()\ntry:\n    exec(");
    r.append(quoted);
    r.append(
        ")\nexcept Exception as e:\n    print(f'__EVAL_ERROR__{e}', file=sys.stderr)\nfinally:\n    sys.stdout.flush()\n    sys.stderr.flush()\n    print('",
    );
    r.append(marker);
    r.append("')\n");
    r
}

/// What the interpreter is told to run some code.
pub fn session_input(marker: &str, code: &str) -> (r: String)
    ensures
        r@ == told(marker@, debug_text(code@)),
{
    let quoted = debug_str(code);
    tell(marker, quoted.as_str())
}

/// The output of a session.
#[derive(Debug)]
pub struct SessionOutput {
    /// The lines of its output.
    pub out: Vec<String>,
    /// The lines of its errors.
    pub err: Vec<String>,
    /// The end of the output was seen.
    pub found_marker: bool,
}

/// The line is output of the code: no prompt and not empty.
pub open spec fn is_output(line: Seq<char>) -> bool {
    line != ">>>"@ && line != "..."@ && line.len() > 0
}

/// What is said where the end of the output was not seen.
pub open spec fn lost_text() -> Seq<char> {
    "Session output marker not found — process may have terminated."@
}

/// The lines of errors once all has been read.
pub open spec fn final_errors(o: SessionOutput) -> Seq<Seq<char>> {
    if o.found_marker {
        views(o.err@)
    } else {
        views(o.err@).push(lost_text())
    }
}

/// The answer of a session.
pub open spec fn session_answer(o: SessionOutput, session_id: Seq<char>) -> JsonView {
    let errors = join(final_errors(o), "\n"@);
    let failed = o.out@.len() == 0 && errors.len() > 0;
    JsonView::Object(
        object_of(
            seq![
                ("stdout"@, JsonView::String(join(views(o.out@), "\n"@))),
                ("stderr"@, JsonView::String(errors)),
                (
                    "exit_code"@,
                    int_json(
                        if failed {
                            1
                        } else {
                            0
                        },
                    ),
                ),
                ("success"@, JsonView::Bool(!failed)),
                ("session_id"@, JsonView::String(session_id)),
            ],
        ),
    )
}

impl SessionOutput {
    /// Nothing has been read.
    pub fn new() -> (r: Self)
        ensures
            r.out@.len() == 0,
            r.err@.len() == 0,
            !r.found_marker,
    {
        SessionOutput { out: Vec::new(), err: Vec::new(), found_marker: false }
    }

    /// Takes a line of output; true where it is the end of the output.
    pub fn take_line(&mut self, line: &str, marker: &str) -> (done: bool)
        ensures
            done == contains(trim_end(line@), marker@),
            final(self).found_marker == (old(self).found_marker || done),
            final(self).err@ == old(self).err@,
            views(final(self).out@) == (if !done && is_output(trim_end(line@)) {
                views(old(self).out@).push(trim_end(line@))
            } else {
                views(old(self).out@)
            }),
    {
        let ghost before = self.out@;
        let cs = trimmed_end(&chars_of(line));
        let text = string_of(&cs);
        if has(text.as_str(), marker) {
            self.found_marker = true;
            return true;
        }
        if !same(text.as_str(), ">>>") && !same(text.as_str(), "...") && cs.len() > 0 {
            self.out.push(text);
            assert(views(self.out@) =~= views(before).push(trim_end(line@)));
        }
        false
    }

    /// Takes a line of errors.
    pub fn take_error(&mut self, line: &str)
        ensures
            final(self).found_marker == old(self).found_marker,
            final(self).out@ == old(self).out@,
            views(final(self).err@) == (if trim_end(line@).len() > 0 {
                views(old(self).err@).push(trim_end(line@))
            } else {
                views(old(self).err@)
            }),
    {
        let ghost before = self.err@;
        let cs = trimmed_end(&chars_of(line));
        if cs.len() > 0 {
            self.err.push(string_of(&cs));
            assert(views(self.err@) =~= views(before).push(trim_end(line@)));
        }
    }

    /// Notes that nothing came in time.
    pub fn time_out(&mut self, secs: u64)
        ensures
            final(self).found_marker == old(self).found_marker,
            final(self).out@ == old(self).out@,
            views(final(self).err@) == views(old(self).err@).push(
                "Timeout after "@ + decimal(secs as nat) + " seconds"@,
            ),
    {
        let ghost before = self.err@;
        let mut m = String::from_str("Timeout after ");
        push_decimal(&mut m, secs);
        m.append(" seconds");
        self.err.push(m);
        assert(views(self.err@) =~= views(before).push(m@));
    }

    /// The answer of the session.
    pub fn finish(self, session_id: &str) -> (r: Json)
        ensures
            r@ == session_answer(self, session_id@),
    {
        let ghost whole = self;
        let SessionOutput { out, mut err, found_marker } = self;
        let ghost before = err@;
        if !found_marker {
            err.push(
                String::from_str("Session output marker not found — process may have terminated."),
            );
            assert(views(err@) =~= views(before).push(lost_text()));
        }
        let stdout = join_strings(&out, "\n");
        let stderr = join_strings(&err, "\n");
        let failed = out.len() == 0 && chars_of(stderr.as_str()).len() > 0;
        let code: i64 = if failed {
            1
        } else {
            0
        };
        let mut pairs: Vec<(String, Json)> = Vec::new();
        pairs.push(entry("stdout", Json::String(stdout)));
        pairs.push(entry("stderr", Json::String(stderr)));
        pairs.push(entry("exit_code", int_to_json(code)));
        pairs.push(entry("success", Json::Bool(!failed)));
        pairs.push(entry("session_id", str_to_json(session_id)));
        assert(members_view(pairs@) =~= seq![
            ("stdout"@, JsonView::String(join(views(out@), "\n"@))),
            ("stderr"@, JsonView::String(join(final_errors(whole), "\n"@))),
            ("exit_code"@, int_json(code as int)),
            ("success"@, JsonView::Bool(!failed)),
            ("session_id"@, JsonView::String(session_id@)),
        ]);
        build_object(pairs)
    }
}

// ---------------------------------------------------------------------------
// Running once
// ---------------------------------------------------------------------------

/// A code of exit that may be missing.
pub open spec fn exit_json(code: Option<i32>) -> JsonView {
    match code {
        Some(c) => int_json(c as int),
        None => JsonView::Null,
    }
}

/// A code of exit that may be missing.
pub fn exit_to_json(code: Option<i32>) -> (r: Json)
    ensures
        r@ == exit_json(code),
{
    match code {
        Some(c) => int_to_json(c as i64),
        None => Json::Null,
    }
}

/// The answer of code that was run once.
pub open spec fn once_answer(
    stdout: Seq<char>,
    stderr: Seq<char>,
    code: Option<i32>,
    success: bool,
) -> JsonView {
    JsonView::Object(
        object_of(
            seq![
                ("stdout"@, JsonView::String(stdout)),
                ("stderr"@, JsonView::String(stderr)),
                ("exit_code"@, exit_json(code)),
                ("success"@, JsonView::Bool(success)),
                ("session_id"@, JsonView::Null),
            ],
        ),
    )
}

/// Answers for code that was run once, given its output.
pub fn finish_once(stdout: &str, stderr: &str, code: Option<i32>, success: bool) -> (r: Json)
    ensures
        r@ == once_answer(stdout@, stderr@, code, success),
{
    let mut pairs: Vec<(String, Json)> = Vec::new();
    pairs.push(entry("stdout", str_to_json(stdout)));
    pairs.push(entry("stderr", str_to_json(stderr)));
    pairs.push(entry("exit_code", exit_to_json(code)));
    pairs.push(entry("success", Json::Bool(success)));
    pairs.push(entry("session_id", Json::Null));
    assert(members_view(pairs@) =~= seq![
        ("stdout"@, JsonView::String(stdout@)),
        ("stderr"@, JsonView::String(stderr@)),
        ("exit_code"@, exit_json(code)),
        ("success"@, JsonView::Bool(success)),
        ("session_id"@, JsonView::Null),
    ]);
    build_object(pairs)
}

/// Answers for code that was run once, given the bytes of its output.
pub fn finish_once_bytes(stdout: &[u8], stderr: &[u8], code: Option<i32>, success: bool) -> (r:
    Json)
    ensures
        r@ == once_answer(lossy_text(stdout@), lossy_text(stderr@), code, success),
{
    let out = from_utf8_lossy(stdout);
    let err = from_utf8_lossy(stderr);
    finish_once(out.as_str(), err.as_str(), code, success)
}

// ---------------------------------------------------------------------------
// What an evaluation asks for and gives back
// ---------------------------------------------------------------------------

/// An evaluation takes half a minute where nothing is said, and five minutes at most; it runs in
/// the directory that is given, and else in that of the context.
pub proof fn law_eval_limits(input: JsonView, metadata: Option<JsonView>, q: EvalRequest, n: nat)
    requires
        eval_asked(input, metadata, q),
    ensures
        q.timeout_secs <= 300,
        field(input, "timeout"@) is None ==> q.timeout_secs == 30,
        nat_in(field(input, "timeout"@)) == Some(n) && n <= 300 ==> q.timeout_secs == n,
        nat_in(field(input, "timeout"@)) == Some(n) && n > 300 ==> q.timeout_secs == 300,
        field(input, "cwd"@) matches Some(JsonView::String(d)) ==> optional_text(q.cwd) == Some(d),
        field(input, "cwd"@) is None ==> optional_text(q.cwd) == context_cwd(metadata),
        field(input, "reset"@) == Some(JsonView::Bool(true)) ==> q.reset,
        field(input, "reset"@) is None ==> !q.reset,
{
}

/// What a session answers: its output and its errors, line by line. It fails exactly where it has
/// errors and no output; that its end was not seen is one more error.
pub proof fn law_session_answer(o: SessionOutput, session_id: Seq<char>)
    ensures
        ({
            let a = session_answer(o, session_id);
            let lines = if o.found_marker {
                views(o.err@)
            } else {
                views(o.err@) + seq![lost_text()]
            };
            let failed = o.out@.len() == 0 && join(lines, "\n"@).len() > 0;
            &&& field(a, "stdout"@) == Some(JsonView::String(join(views(o.out@), "\n"@)))
            &&& field(a, "stderr"@) == Some(JsonView::String(join(lines, "\n"@)))
            &&& field(a, "success"@) == Some(JsonView::Bool(!failed))
            &&& failed ==> field(a, "exit_code"@) == Some(int_json(1))
            &&& !failed ==> field(a, "exit_code"@) == Some(int_json(0))
            &&& field(a, "session_id"@) == Some(JsonView::String(session_id))
        }),
{
    let errors = join(final_errors(o), "\n"@);
    let failed = o.out@.len() == 0 && errors.len() > 0;
    assert(views(o.err@).push(lost_text()) =~= views(o.err@) + seq![lost_text()]);
    let pairs = seq![
        ("stdout"@, JsonView::String(join(views(o.out@), "\n"@))),
        ("stderr"@, JsonView::String(errors)),
        (
            "exit_code"@,
            int_json(
                if failed {
                    1
                } else {
                    0
                },
            ),
        ),
        ("success"@, JsonView::Bool(!failed)),
        ("session_id"@, JsonView::String(session_id)),
    ];
    reveal_strlit("stdout");
    reveal_strlit("stderr");
    reveal_strlit("exit_code");
    reveal_strlit("success");
    reveal_strlit("session_id");
    assert("stdout"@.len() == 6);
    assert("stderr"@.len() == 6);
    assert("exit_code"@.len() == 9);
    assert("success"@.len() == 7);
    assert("session_id"@.len() == 10);
    assert("stdout"@[3] != "stderr"@[3]);
    law_object_holds(pairs, 0, "stdout"@);
    law_object_holds(pairs, 1, "stderr"@);
    law_object_holds(pairs, 2, "exit_code"@);
    law_object_holds(pairs, 3, "success"@);
    law_object_holds(pairs, 4, "session_id"@);
}

/// What an evaluation without a session answers.
pub proof fn law_once_answer(
    stdout: Seq<char>,
    stderr: Seq<char>,
    code: Option<i32>,
    success: bool,
)
    ensures
        ({
            let a = once_answer(stdout, stderr, code, success);
            &&& field(a, "stdout"@) == Some(JsonView::String(stdout))
            &&& field(a, "stderr"@) == Some(JsonView::String(stderr))
            &&& field(a, "success"@) == Some(JsonView::Bool(success))
            &&& field(a, "session_id"@) == Some(JsonView::Null)
            &&& field(a, "exit_code"@) == match code {
                Some(c) => Some(int_json(c as int)),
                None => Some(JsonView::Null),
            }
        }),
{
    let pairs = seq![
        ("stdout"@, JsonView::String(stdout)),
        ("stderr"@, JsonView::String(stderr)),
        ("exit_code"@, exit_json(code)),
        ("success"@, JsonView::Bool(success)),
        ("session_id"@, JsonView::Null),
    ];
    reveal_strlit("stdout");
    reveal_strlit("stderr");
    reveal_strlit("exit_code");
    reveal_strlit("success");
    reveal_strlit("session_id");
    assert("stdout"@.len() == 6);
    assert("stderr"@.len() == 6);
    assert("exit_code"@.len() == 9);
    assert("success"@.len() == 7);
    assert("session_id"@.len() == 10);
    assert("stdout"@[3] != "stderr"@[3]);
    law_object_holds(pairs, 0, "stdout"@);
    law_object_holds(pairs, 1, "stderr"@);
    law_object_holds(pairs, 2, "exit_code"@);
    law_object_holds(pairs, 3, "success"@);
    law_object_holds(pairs, 4, "session_id"@);
}

/// A line of a session is output unless it is empty or a prompt.
pub proof fn law_output_lines(line: Seq<char>)
    ensures
        is_output(line) <==> line.len() > 0 && line != ">>>"@ && line != "..."@,
        !is_output(Seq::empty()),
{
}

/// Empty code is answered at once, as a failure that says so.
pub proof fn law_empty_code()
    ensures
        field(empty_answer(), "stdout"@) == Some(JsonView::String(""@)),
        field(empty_answer(), "stderr"@) == Some(JsonView::String("code is empty"@)),
        field(empty_answer(), "exit_code"@) == Some(int_json(1)),
        field(empty_answer(), "success"@) == Some(JsonView::Bool(false)),
{
    reveal_strlit("stdout");
    reveal_strlit("stderr");
    reveal_strlit("exit_code");
    reveal_strlit("success");
    assert("stdout"@.len() == 6);
    assert("stderr"@.len() == 6);
    assert("exit_code"@.len() == 9);
    assert("success"@.len() == 7);
    assert("stdout"@[3] != "stderr"@[3]);
    let pairs = seq![
        ("stdout"@, JsonView::String(""@)),
        ("stderr"@, JsonView::String("code is empty"@)),
        ("exit_code"@, int_json(1)),
        ("success"@, JsonView::Bool(false)),
    ];
    law_object_holds(pairs, 0, "stdout"@);
    law_object_holds(pairs, 1, "stderr"@);
    law_object_holds(pairs, 2, "exit_code"@);
    law_object_holds(pairs, 3, "success"@);
}

} // verus!
