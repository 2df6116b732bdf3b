//! Loggers: one that writes prefixed lines, and one that writes nothing.
use vstd::prelude::*;

use crate::json::items_view;
use crate::json::Json;
use crate::json::JsonView;
use crate::json_text::json_text;
use crate::json_text::written;
use crate::text::join;
use crate::text::join_strings;
use crate::text::views;

verus! {

/// How urgent a message is.
#[derive(Debug, Clone, Copy, PartialEq, Eq, Structural)]
pub enum LogLevel {
    /// Verbose debugging info.
    Debug,
    /// Informational message.
    Info,
    /// Warning.
    Warn,
    /// Error.
    Error,
}

/// Logger that writes prefixed messages.
#[derive(Debug, Clone)]
pub struct DefaultLogger {
    /// Prefix prepended to every log line (e.g. `"ToolManager"`).
    pub prefix: String,
}

/// No-op logger; discards every message.
#[derive(Debug, Clone, Copy, PartialEq, Eq, Structural, Default)]
pub struct SilentLogger;

/// Options for [`create_logger`].
#[derive(Debug, Clone)]
pub struct LoggerOptions {
    /// Prefix for log lines. Ignored when `silent` is `true`.
    pub prefix: Option<String>,
    /// When `true`, the logger writes nothing.
    pub silent: bool,
}

/// One of the two loggers.
#[derive(Debug)]
pub enum Logger {
    /// Writes prefixed lines.
    Default(DefaultLogger),
    /// Writes nothing.
    Silent(SilentLogger),
}

/// The name of a level.
pub open spec fn level_label(level: LogLevel) -> Seq<char> {
    match level {
        LogLevel::Debug => "debug"@,
        LogLevel::Info => "info"@,
        LogLevel::Warn => "warn"@,
        LogLevel::Error => "error"@,
    }
}

/// A message, followed by the texts of its arguments.
pub open spec fn message_text(message: Seq<char>, args: Seq<JsonView>) -> Seq<char> {
    if args.len() == 0 {
        message
    } else {
        message + " "@ + join(args.map_values(|v: JsonView| json_text(written(v))), " "@)
    }
}

/// The line that a logger writes.
pub open spec fn line_of(
    prefix: Seq<char>,
    level: LogLevel,
    message: Seq<char>,
    args: Seq<JsonView>,
) -> Seq<char> {
    "["@ + prefix + ":"@ + level_label(level) + "] "@ + message_text(message, args)
}

/// A message, followed by the texts of its arguments.
pub fn format_msg(message: &str, args: &Vec<Json>) -> (r: String)
    ensures
        r@ == message_text(message@, items_view(args@)),
{
    if args.len() == 0 {
        return String::from_str(message);
    }
    let ghost all = items_view(args@).map_values(|v: JsonView| json_text(written(v)));
    let mut parts: Vec<String> = Vec::new();
    let mut i: usize = 0;
    while i < args.len()
        invariant
            i <= args@.len(),
            all == items_view(args@).map_values(|v: JsonView| json_text(written(v))),
            views(parts@) == all.take(i as int),
        decreases args@.len() - i,
    {
        let ghost before = parts@;
        let t = args[i].to_text();
        parts.push(t);
        assert(views(parts@) =~= views(before).push(t@));
        i = i + 1;
    }
    assert(all.take(all.len() as int) =~= all);
    let mut r = String::from_str(message);
    r.append(" ");
    r.append(join_strings(&parts, " ").as_str());
    r
}

impl DefaultLogger {
    /// Construct a new default logger with the given prefix.
    pub fn new(prefix: &str) -> (r: Self)
        ensures
            r.prefix@ == prefix@,
    {
        DefaultLogger { prefix: String::from_str(prefix) }
    }

    /// The line for a message.
    pub fn line(&self, level: LogLevel, message: &str, args: &Vec<Json>) -> (r: String)
        ensures
            r@ == line_of(self.prefix@, level, message@, items_view(args@)),
    {
        let label = match level {
            LogLevel::Debug => "debug",
            LogLevel::Info => "info",
            LogLevel::Warn => "warn",
            LogLevel::Error => "error",
        };
        let mut r = String::from_str("[");
        r.append(self.prefix.as_str());
        r.append(":");
        r.append(label);
        r.append("] ");
        r.append(format_msg(message, args).as_str());
        r
    }
}

impl Default for DefaultLogger {
    fn default() -> (r: Self)
        ensures
            r.prefix@ == "ToolManager"@,
    {
        DefaultLogger::new("ToolManager")
    }
}

impl Default for LoggerOptions {
    fn default() -> (r: Self)
        ensures
            r.prefix is None,
            !r.silent,
    {
        LoggerOptions { prefix: None, silent: false }
    }
}

impl Logger {
    /// The line to be written for a message; none where the logger is silent.
    pub fn line(&self, level: LogLevel, message: &str, args: &Vec<Json>) -> (r: Option<String>)
        ensures
            match *self {
                Logger::Default(l) => r is Some && r->0@ == line_of(
                    l.prefix@,
                    level,
                    message@,
                    items_view(args@),
                ),
                Logger::Silent(_) => r is None,
            },
    {
        match self {
            Logger::Default(l) => Some(l.line(level, message, args)),
            Logger::Silent(_) => None,
        }
    }
}

/// Create a logger from the standard options block.
pub fn create_logger(options: Option<LoggerOptions>) -> (r: Logger)
    ensures
        match options {
            None => r is Default && r->Default_0.prefix@ == "ToolManager"@,
            Some(o) => if o.silent {
                r is Silent
            } else {
                r is Default && r->Default_0.prefix@ == (match o.prefix {
                    Some(p) => p@,
                    None => "ToolManager"@,
                })
            },
        },
{
    match options {
        None => Logger::Default(DefaultLogger::new("ToolManager")),
        Some(o) => if o.silent {
            Logger::Silent(SilentLogger)
        } else {
            match o.prefix {
                Some(p) => Logger::Default(DefaultLogger { prefix: p }),
                None => Logger::Default(DefaultLogger::new("ToolManager")),
            }
        },
    }
}

/// A line of the log names who speaks and how urgent it is, and then what is said; what is said is
/// followed by each argument, behind a space.
pub proof fn law_log_lines(prefix: Seq<char>, message: Seq<char>, args: Seq<JsonView>, v: JsonView)
    ensures
        line_of(prefix, LogLevel::Debug, message, args) == "["@ + prefix + ":"@ + "debug"@ + "] "@
            + message_text(message, args),
        line_of(prefix, LogLevel::Info, message, args) == "["@ + prefix + ":"@ + "info"@ + "] "@
            + message_text(message, args),
        line_of(prefix, LogLevel::Warn, message, args) == "["@ + prefix + ":"@ + "warn"@ + "] "@
            + message_text(message, args),
        line_of(prefix, LogLevel::Error, message, args) == "["@ + prefix + ":"@ + "error"@ + "] "@
            + message_text(message, args),
        message_text(message, Seq::empty()) == message,
        message_text(message, args.push(v)) == message_text(message, args) + " "@ + json_text(
            written(v),
        ),
{
    let texts = args.map_values(|v: JsonView| json_text(written(v)));
    let more = args.push(v).map_values(|v: JsonView| json_text(written(v)));
    assert(more =~= texts.push(json_text(written(v))));
    assert(more.drop_last() =~= texts);
    if args.len() == 0 {
        assert(more =~= seq![json_text(written(v))]);
        assert(message_text(message, args.push(v)) =~= message_text(message, args) + " "@
            + json_text(written(v)));
    } else {
        assert(message_text(message, args.push(v)) =~= message_text(message, args) + " "@
            + json_text(written(v)));
    }
}

} // verus!
