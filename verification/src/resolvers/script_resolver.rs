//! Script handler resolver.
//!
//! Starting the process is left to the runtime. Here it is settled what the process gets,
//! and its output is judged.
use vstd::prelude::*;

use crate::error::ErrorView;
use crate::error::ToolError;
use crate::handler_debug::ref_debug;
use crate::handler_refs::clone_pairs;
use crate::handler_refs::optional_pairs;
use crate::handler_refs::HandlerRef;
use crate::handler_refs::ScriptHandlerRef;
use crate::json::Json;
use crate::json::JsonView;
use crate::json_text::json_parsed;
use crate::json_text::json_text;
use crate::json_text::written;
use crate::text::clone_strings;
use crate::text::decimal_int;
use crate::text::decimal_of_int;
use crate::text::from_utf8_lossy;
use crate::text::lossy_text;
use crate::text::pairs_view;
use crate::text::views;
use crate::types::clone_text;
use crate::types::optional_text;
use crate::types::optional_texts;

verus! {

/// Executes tools via shell commands.
#[derive(Debug, Clone, Copy, PartialEq, Eq, Structural)]
pub struct ScriptHandlerResolver {
    /// How long a script may run where the reference does not say, in milliseconds.
    pub default_timeout: u64,
}

/// A process to be started.
#[derive(Debug)]
pub struct ScriptRun {
    /// The command.
    pub command: String,
    /// The arguments.
    pub args: Vec<String>,
    /// Where it runs.
    pub cwd: Option<String>,
    /// Environment variables to be set.
    pub env: Vec<(String, String)>,
    /// What it reads; nothing where there is none.
    pub stdin: Option<String>,
    /// How long it may run, in milliseconds.
    pub timeout_ms: u64,
}

/// How far a process came that could not be run.
#[derive(Debug, Clone, Copy, PartialEq, Eq, Structural)]
pub enum ScriptStage {
    /// It could not be started.
    Spawn,
    /// Its input could not be written.
    WriteStdin,
    /// Its end could not be awaited.
    Wait,
    /// It could not be executed, without input.
    Execute,
}

/// What is said of a stage.
pub open spec fn stage_text(s: ScriptStage) -> Seq<char> {
    match s {
        ScriptStage::Spawn => "Failed to spawn: "@,
        ScriptStage::WriteStdin => "Failed to write stdin: "@,
        ScriptStage::Wait => "Failed to wait: "@,
        ScriptStage::Execute => "Failed to execute: "@,
    }
}

/// The error about a process that could not be run.
pub fn stage_failure(tool_name: &str, stage: ScriptStage, cause: &str) -> (r: ToolError)
    ensures
        r@ == (ErrorView::ToolExecution {
            tool_name: tool_name@,
            attempt: 1,
            source_string: stage_text(stage) + cause@,
        }),
{
    let mut message = String::from_str(
        match stage {
            ScriptStage::Spawn => "Failed to spawn: ",
            ScriptStage::WriteStdin => "Failed to write stdin: ",
            ScriptStage::Wait => "Failed to wait: ",
            ScriptStage::Execute => "Failed to execute: ",
        },
    );
    message.append(cause);
    ToolError::execution_str(tool_name, message.as_str())
}

/// An exit code, where there is one.
pub open spec fn code_text(code: Option<i32>) -> Seq<char> {
    match code {
        Some(c) => "Some("@ + decimal_int(c as int) + ")"@,
        None => "None"@,
    }
}

/// What a script returns for its output, given what parsing the output gives.
pub open spec fn script_value(
    parse_json: bool,
    tool_name: Seq<char>,
    stdout: Seq<char>,
    parsed: Result<JsonView, Seq<char>>,
) -> Result<JsonView, ErrorView> {
    if parse_json {
        match parsed {
            Ok(v) => Ok(v),
            Err(e) => Err(
                ErrorView::ToolExecution {
                    tool_name,
                    attempt: 1,
                    source_string: "Failed to parse JSON output: "@ + e + ": "@ + stdout,
                },
            ),
        }
    } else {
        Ok(JsonView::String(stdout))
    }
}

/// What a script returns for what it wrote, given what parsing it gave.
pub fn judge_output(
    parse_json: bool,
    tool_name: &str,
    stdout: &String,
    parsed: Result<Json, String>,
) -> (r: Result<Json, ToolError>)
    ensures
        (match r {
            Ok(v) => Ok(v@),
            Err(e) => Err(e@),
        }) == script_value(
            parse_json,
            tool_name@,
            stdout@,
            match parsed {
                Ok(v) => Ok(v@),
                Err(e) => Err(e@),
            },
        ),
{
    if !parse_json {
        return Ok(Json::String(stdout.clone()));
    }
    match parsed {
        Ok(v) => Ok(v),
        Err(e) => {
            let mut message = String::from_str("Failed to parse JSON output: ");
            message.append(e.as_str());
            message.append(": ");
            message.append(stdout.as_str());
            Err(ToolError::execution_str(tool_name, message.as_str()))
        },
    }
}

/// What the handler returns for a process that ended: an error with what the process wrote to
/// its error output where it did not succeed; else its output, as text or as JSON.
pub fn finish_script(
    r: &ScriptHandlerRef,
    tool_name: &str,
    success: bool,
    code: Option<i32>,
    stdout: &[u8],
    stderr: &[u8],
) -> (out: Result<Json, ToolError>)
    ensures
        (match out {
            Ok(v) => Ok(v@),
            Err(e) => Err(e@),
        }) == if success {
            script_value(
                r.parse_json,
                tool_name@,
                lossy_text(stdout@),
                json_parsed(lossy_text(stdout@)),
            )
        } else {
            Err(
                ErrorView::ToolExecution {
                    tool_name: tool_name@,
                    attempt: 1,
                    source_string: "Exit code "@ + code_text(code) + ": "@ + lossy_text(stderr@),
                },
            )
        },
{
    if !success {
        let mut message = String::from_str("Exit code ");
        let mut shown = String::new();
        match code {
            Some(c) => {
                shown.append("Some(");
                shown.append(decimal_of_int(c as i64).as_str());
                shown.append(")");
            },
            None => shown.append("None"),
        }
        assert(shown@ =~= code_text(code));
        message.append(shown.as_str());
        message.append(": ");
        message.append(from_utf8_lossy(stderr).as_str());
        return Err(ToolError::execution_str(tool_name, message.as_str()));
    }
    let text = from_utf8_lossy(stdout);
    let parsed = Json::parse(text.as_str());
    judge_output(r.parse_json, tool_name, &text, parsed)
}

impl ScriptHandlerResolver {
    /// Construct a new resolver.
    pub fn new(default_timeout: u64) -> (r: Self)
        ensures
            r.default_timeout == default_timeout,
    {
        ScriptHandlerResolver { default_timeout }
    }

    /// The script reference behind a `HandlerRef`.
    pub fn resolve<'a>(&self, reference: &'a HandlerRef, tool_name: &str) -> (r: Result<
        &'a ScriptHandlerRef,
        ToolError,
    >)
        ensures
            match r {
                Ok(s) => *reference == HandlerRef::Script(*s),
                Err(e) => !(reference is Script) && e@ == (ErrorView::HandlerResolution {
                    tool_name: tool_name@,
                    reason: "Not a script handler reference: "@ + ref_debug(reference@),
                }),
            },
    {
        match reference {
            HandlerRef::Script(s) => Ok(s),
            other => {
                let mut reason = String::from_str("Not a script handler reference: ");
                reason.append(other.to_debug().as_str());
                Err(ToolError::handler(tool_name, reason.as_str()))
            },
        }
    }

    /// The process to be started for an input. It reads the input as JSON where the reference
    /// asks for it, and nothing otherwise.
    pub fn run(&self, r: &ScriptHandlerRef, input: &Json) -> (q: ScriptRun)
        ensures
            q.command@ == r.command@,
            views(q.args@) == match optional_texts(r.args) {
                Some(args) => args,
                None => Seq::empty(),
            },
            optional_text(q.cwd) == optional_text(r.cwd),
            pairs_view(q.env@) == match optional_pairs(r.env) {
                Some(env) => env,
                None => Seq::empty(),
            },
            optional_text(q.stdin) == if r.stdin_json {
                Some(json_text(written(input@)))
            } else {
                None
            },
            q.timeout_ms == match r.timeout {
                Some(t) => t,
                None => self.default_timeout,
            },
    {
        let args = match &r.args {
            Some(args) => clone_strings(args),
            None => Vec::new(),
        };
        let env = match &r.env {
            Some(env) => clone_pairs(env),
            None => Vec::new(),
        };
        assert(r.args is None ==> views(args@) =~= Seq::<Seq<char>>::empty());
        assert(r.env is None ==> pairs_view(env@) =~= Seq::<(Seq<char>, Seq<char>)>::empty());
        let stdin = if r.stdin_json {
            Some(input.to_text())
        } else {
            None
        };
        let timeout_ms = match r.timeout {
            Some(t) => t,
            None => self.default_timeout,
        };
        ScriptRun {
            command: r.command.clone(),
            args,
            cwd: clone_text(&r.cwd),
            env,
            stdin,
            timeout_ms,
        }
    }
}

/// The output of a script is its text, or, where it is to be parsed, the value that it denotes;
/// text that denotes none is an error.
pub proof fn law_script_value(
    tool_name: Seq<char>,
    stdout: Seq<char>,
    parsed: Result<JsonView, Seq<char>>,
)
    ensures
        script_value(false, tool_name, stdout, parsed) == Ok::<JsonView, ErrorView>(
            JsonView::String(stdout),
        ),
        parsed matches Ok(v) ==> script_value(true, tool_name, stdout, parsed) == Ok::<
            JsonView,
            ErrorView,
        >(v),
        parsed is Err ==> script_value(true, tool_name, stdout, parsed) is Err,
{
}

/// An exit code is shown as Rust shows an optional number, and a failure by what could not be done.
pub proof fn law_codes_and_stages(code: i32)
    ensures
        code_text(Some(code)) == "Some("@ + decimal_int(code as int) + ")"@,
        code_text(None) == "None"@,
        stage_text(ScriptStage::Spawn) == "Failed to spawn: "@,
        stage_text(ScriptStage::WriteStdin) == "Failed to write stdin: "@,
        stage_text(ScriptStage::Wait) == "Failed to wait: "@,
        stage_text(ScriptStage::Execute) == "Failed to execute: "@,
{
}

} // verus!
