//! The `git` tools: what `git` is told, and what is made of its output.
//!
//! The command is run by the caller.
use vstd::prelude::*;

use crate::error::ErrorView;
use crate::error::ToolError;
use crate::json::array_in;
use crate::json::bool_in;
use crate::json::field;
use crate::json::int_in;
use crate::json::string_in;
use crate::json::Json;
use crate::json::JsonView;
use crate::lists::law_picked;
use crate::text::decimal_int;
use crate::text::decimal_of_int;
use crate::text::from_utf8_lossy;
use crate::text::join;
use crate::text::join_strings;
use crate::text::lossy_text;
use crate::text::views;
use crate::tools::find::read_texts;
use crate::tools::search::texts_in;

verus! {

/// How long a command may run, in milliseconds.
pub const DEFAULT_GIT_TIMEOUT_MS: u64 = 30000;

/// A flag that is set.
pub open spec fn is_on(input: JsonView, name: Seq<char>) -> bool {
    bool_in(field(input, name)) == Some(true)
}

fn on(input: &Json, name: &str) -> (r: bool)
    ensures
        r == is_on(input@, name@),
{
    match input.get_bool(name) {
        Some(b) => b,
        None => false,
    }
}

/// A word, where a flag is set.
pub open spec fn word_if(set: bool, word: Seq<char>) -> Seq<Seq<char>> {
    if set {
        seq![word]
    } else {
        Seq::empty()
    }
}

/// A word that may be missing.
pub open spec fn word_of(word: Option<Seq<char>>) -> Seq<Seq<char>> {
    match word {
        Some(w) => seq![w],
        None => Seq::empty(),
    }
}

/// A file, behind the word that no option comes after.
pub open spec fn file_words(file: Option<Seq<char>>) -> Seq<Seq<char>> {
    match file {
        Some(f) => seq!["--"@, f],
        None => Seq::empty(),
    }
}

fn push_word(args: &mut Vec<String>, word: &str)
    ensures
        views(final(args)@) == views(old(args)@).push(word@),
{
    let ghost before = views(args@);
    args.push(String::from_str(word));
    assert(views(args@) =~= before.push(word@));
}

fn push_word_if(args: &mut Vec<String>, set: bool, word: &str)
    ensures
        views(final(args)@) == views(old(args)@) + word_if(set, word@),
{
    let ghost before = views(args@);
    if set {
        push_word(args, word);
    }
    assert(views(args@) =~= before + word_if(set, word@));
}

fn push_text(args: &mut Vec<String>, input: &Json, name: &str)
    ensures
        views(final(args)@) == views(old(args)@) + word_of(string_in(field(input@, name@))),
{
    let ghost before = views(args@);
    match input.get_str(name) {
        Some(s) => {
            push_word(args, s.as_str());
        },
        None => {},
    }
    assert(views(args@) =~= before + word_of(string_in(field(input@, name@))));
}

fn push_file(args: &mut Vec<String>, input: &Json)
    ensures
        views(final(args)@) == views(old(args)@) + file_words(string_in(field(input@, "file"@))),
{
    let ghost before = views(args@);
    match input.get_str("file") {
        Some(s) => {
            push_word(args, "--");
            push_word(args, s.as_str());
        },
        None => {},
    }
    assert(views(args@) =~= before + file_words(string_in(field(input@, "file"@))));
}

fn command(name: &str) -> (r: Vec<String>)
    ensures
        views(r@) == seq![name@],
{
    let mut args: Vec<String> = Vec::new();
    args.push(String::from_str(name));
    assert(views(args@) =~= seq![name@]);
    args
}

/// What `git` is told to show the state of the working tree.
pub open spec fn status_words(input: JsonView) -> Seq<Seq<char>> {
    seq!["status"@] + word_if(is_on(input, "short"@), "--short"@) + word_if(
        is_on(input, "branch"@),
        "--branch"@,
    ) + word_if(is_on(input, "porcelain"@), "--porcelain"@)
}

/// What `git` is told to show the state of the working tree.
pub fn status_args(input: &Json) -> (r: Vec<String>)
    ensures
        views(r@) == status_words(input@),
{
    let mut args = command("status");
    push_word_if(&mut args, on(input, "short"), "--short");
    push_word_if(&mut args, on(input, "branch"), "--branch");
    push_word_if(&mut args, on(input, "porcelain"), "--porcelain");
    args
}

/// What `git` is told to show changes.
pub open spec fn diff_words(input: JsonView) -> Seq<Seq<char>> {
    seq!["diff"@] + word_if(is_on(input, "staged"@), "--staged"@) + word_of(
        string_in(field(input, "branch"@)),
    ) + file_words(string_in(field(input, "file"@)))
}

/// What `git` is told to show changes.
pub fn diff_args(input: &Json) -> (r: Vec<String>)
    ensures
        views(r@) == diff_words(input@),
{
    let mut args = command("diff");
    push_word_if(&mut args, on(input, "staged"), "--staged");
    push_text(&mut args, input, "branch");
    push_file(&mut args, input);
    args
}

/// How many commits are shown.
pub open spec fn limit_words(n: Option<int>) -> Seq<Seq<char>> {
    match n {
        Some(n) => seq!["-n"@, decimal_int(n)],
        None => Seq::empty(),
    }
}

/// What `git` is told to show commits.
pub open spec fn log_words(input: JsonView) -> Seq<Seq<char>> {
    seq!["log"@] + word_if(is_on(input, "oneline"@), "--oneline"@) + limit_words(
        int_in(field(input, "n"@)),
    ) + word_if(is_on(input, "follow"@), "--follow"@) + file_words(
        string_in(field(input, "file"@)),
    )
}

/// What `git` is told to show commits.
pub fn log_args(input: &Json) -> (r: Vec<String>)
    ensures
        views(r@) == log_words(input@),
{
    let mut args = command("log");
    push_word_if(&mut args, on(input, "oneline"), "--oneline");
    let ghost before = views(args@);
    match input.get_i64("n") {
        Some(n) => {
            push_word(&mut args, "-n");
            push_word(&mut args, decimal_of_int(n).as_str());
        },
        None => {},
    }
    assert(views(args@) =~= before + limit_words(int_in(field(input@, "n"@))));
    push_word_if(&mut args, on(input, "follow"), "--follow");
    push_file(&mut args, input);
    args
}

/// What `git` is told about branches: to list them, to create one, to delete one, or to list
/// them where nothing is asked for.
pub open spec fn branch_words(input: JsonView) -> Seq<Seq<char>> {
    if is_on(input, "list"@) {
        seq!["branch"@, "-a"@]
    } else {
        match (string_in(field(input, "create"@)), string_in(field(input, "delete"@))) {
            (Some(name), _) => seq!["branch"@, name],
            (None, Some(name)) => seq!["branch"@, "-d"@] + word_if(
                is_on(input, "force"@),
                "-D"@,
            ) + seq![name],
            (None, None) => seq!["branch"@, "-a"@],
        }
    }
}

/// What `git` is told about branches.
pub fn branch_args(input: &Json) -> (r: Vec<String>)
    ensures
        views(r@) == branch_words(input@),
{
    let mut args = command("branch");
    if on(input, "list") {
        push_word(&mut args, "-a");
        assert(views(args@) =~= seq!["branch"@, "-a"@]);
        return args;
    }
    match input.get_str("create") {
        Some(name) => {
            push_word(&mut args, name.as_str());
            assert(views(args@) =~= seq!["branch"@, name@]);
            return args;
        },
        None => {},
    }
    match input.get_str("delete") {
        Some(name) => {
            push_word(&mut args, "-d");
            push_word_if(&mut args, on(input, "force"), "-D");
            push_word(&mut args, name.as_str());
            assert(views(args@) =~= seq!["branch"@, "-d"@] + word_if(
                is_on(input@, "force"@),
                "-D"@,
            ) + seq![name@]);
        },
        None => {
            push_word(&mut args, "-a");
            assert(views(args@) =~= seq!["branch"@, "-a"@]);
        },
    }
    args
}

/// What `git` is told to commit.
pub fn commit_args(input: &Json) -> (r: Result<Vec<String>, ToolError>)
    ensures
        match string_in(field(input@, "message"@)) {
            Some(message) => r matches Ok(v) && views(v@) == seq!["commit"@, "-m"@, message]
                + word_if(is_on(input@, "amend"@), "--amend"@),
            None => r matches Err(e) && e@ == ErrorView::Other("message is required"@),
        },
{
    match input.get_str("message") {
        Some(message) => {
            let mut args = command("commit");
            push_word(&mut args, "-m");
            push_word(&mut args, message.as_str());
            assert(views(args@) =~= seq!["commit"@, "-m"@, message@]);
            push_word_if(&mut args, on(input, "amend"), "--amend");
            Ok(args)
        },
        None => Err(ToolError::other("message is required")),
    }
}

/// What `git` is told to stage: everything, the files that are named, or what is in the
/// working directory.
pub open spec fn add_words(input: JsonView) -> Seq<Seq<char>> {
    if is_on(input, "all"@) {
        seq!["add"@, "-A"@]
    } else {
        match array_in(field(input, "files"@)) {
            Some(files) => if files.len() > 0 {
                seq!["add"@, "--"@] + texts_in(files)
            } else {
                seq!["add"@, "."@]
            },
            None => seq!["add"@, "."@],
        }
    }
}

/// What `git` is told to stage.
pub fn add_args(input: &Json) -> (r: Vec<String>)
    ensures
        views(r@) == add_words(input@),
{
    let mut args = command("add");
    if on(input, "all") {
        push_word(&mut args, "-A");
        assert(views(args@) =~= seq!["add"@, "-A"@]);
        return args;
    }
    match input.get_array("files") {
        Some(files) => {
            if files.len() > 0 {
                push_word(&mut args, "--");
                assert(views(args@) =~= seq!["add"@, "--"@]);
                let ghost before = views(args@);
                let mut names = read_texts(files);
                let ghost more = views(names@);
                args.append(&mut names);
                assert(views(args@) =~= before + more);
                return args;
            }
        },
        None => {},
    }
    push_word(&mut args, ".");
    assert(views(args@) =~= seq!["add"@, "."@]);
    args
}

/// What is said where `git` failed.
pub open spec fn failure_text(args: Seq<Seq<char>>, stderr: Seq<char>) -> Seq<char> {
    "git "@ + join(args, " "@) + " failed: "@ + stderr
}

/// What comes of a command, given its output.
pub fn judge_git(args: &Vec<String>, success: bool, stdout: &str, stderr: &str) -> (r: Result<
    Json,
    ToolError,
>)
    ensures
        match r {
            Ok(v) => success && v@ == JsonView::String(stdout@),
            Err(e) => !success && e@ == (ErrorView::ToolExecution {
                tool_name: "git"@,
                attempt: 1,
                source_string: failure_text(views(args@), stderr@),
            }),
        },
{
    if success {
        return Ok(Json::String(String::from_str(stdout)));
    }
    let mut m = String::from_str("git ");
    m.append(join_strings(args, " ").as_str());
    m.append(" failed: ");
    m.append(stderr);
    Err(ToolError::execution_str("git", m.as_str()))
}

/// What comes of a command, given the bytes of its output.
pub fn finish_git(args: &Vec<String>, success: bool, stdout: &[u8], stderr: &[u8]) -> (r: Result<
    Json,
    ToolError,
>)
    ensures
        match r {
            Ok(v) => success && v@ == JsonView::String(lossy_text(stdout@)),
            Err(e) => !success && e@ == (ErrorView::ToolExecution {
                tool_name: "git"@,
                attempt: 1,
                source_string: failure_text(views(args@), lossy_text(stderr@)),
            }),
        },
{
    let out = from_utf8_lossy(stdout);
    let err = from_utf8_lossy(stderr);
    judge_git(args, success, out.as_str(), err.as_str())
}

// ---------------------------------------------------------------------------
// What git is asked
// ---------------------------------------------------------------------------

/// A status is asked for with each option that is on, and with no other.
pub proof fn law_status_words(input: JsonView)
    ensures
        status_words(input)[0] == "status"@,
        status_words(input).contains("--short"@) <==> field(input, "short"@) == Some(
            JsonView::Bool(true),
        ),
        status_words(input).contains("--branch"@) <==> field(input, "branch"@) == Some(
            JsonView::Bool(true),
        ),
        status_words(input).contains("--porcelain"@) <==> field(input, "porcelain"@) == Some(
            JsonView::Bool(true),
        ),
        status_words(input).len() <= 4,
{
    let a = word_if(is_on(input, "short"@), "--short"@);
    let b = word_if(is_on(input, "branch"@), "--branch"@);
    let c = word_if(is_on(input, "porcelain"@), "--porcelain"@);
    let all = status_words(input);
    assert(all == seq!["status"@] + a + b + c);
    reveal_strlit("status");
    reveal_strlit("--short");
    reveal_strlit("--branch");
    reveal_strlit("--porcelain");
    assert("status"@.len() == 6);
    assert("--short"@.len() == 7);
    assert("--branch"@.len() == 8);
    assert("--porcelain"@.len() == 11);
    if a.len() > 0 {
        assert(all[1] == "--short"@);
    }
    if b.len() > 0 {
        assert(all[1int + a.len()] == "--branch"@);
    }
    if c.len() > 0 {
        assert(all[1int + a.len() + b.len()] == "--porcelain"@);
    }
}

/// A difference is asked for of what is staged where that is on, against the branch that is
/// named, and of the file that is named, which stands behind `--` at the end.
pub proof fn law_diff_words(input: JsonView)
    ensures
        diff_words(input)[0] == "diff"@,
        field(input, "staged"@) == Some(JsonView::Bool(true)) ==> diff_words(input)[1]
            == "--staged"@,
        field(input, "file"@) matches Some(JsonView::String(f)) ==> diff_words(input).len() >= 3
            && diff_words(input).last() == f && diff_words(input)[diff_words(input).len() - 2]
            == "--"@,
        field(input, "branch"@) matches Some(JsonView::String(b)) ==> diff_words(input).contains(
            b,
        ),
        field(input, "staged"@) is None && field(input, "branch"@) is None && field(
            input,
            "file"@,
        ) is None ==> diff_words(input) == seq!["diff"@],
{
    let a = word_if(is_on(input, "staged"@), "--staged"@);
    let b = word_of(string_in(field(input, "branch"@)));
    let all = diff_words(input);
    if b.len() > 0 {
        assert(all[1int + a.len()] == b[0]);
    }
    if field(input, "staged"@) is None && field(input, "branch"@) is None && field(
        input,
        "file"@,
    ) is None {
        assert(all =~= seq!["diff"@]);
    }
}

/// A log is asked for in one line each where that is on, of as many commits as are asked for,
/// across renames where that is on, and of the file that is named, which stands behind `--` at
/// the end.
pub proof fn law_log_words(input: JsonView, n: int)
    ensures
        log_words(input)[0] == "log"@,
        field(input, "oneline"@) == Some(JsonView::Bool(true)) ==> log_words(input)[1]
            == "--oneline"@,
        int_in(field(input, "n"@)) == Some(n) ==> exists|i: int|
            1 <= i < log_words(input).len() - 1 && #[trigger] log_words(input)[i] == "-n"@
                && log_words(input)[i + 1] == decimal_int(n),
        field(input, "follow"@) == Some(JsonView::Bool(true)) ==> log_words(input).contains(
            "--follow"@,
        ),
        field(input, "file"@) matches Some(JsonView::String(f)) ==> log_words(input).len() >= 3
            && log_words(input).last() == f && log_words(input)[log_words(input).len() - 2]
            == "--"@,
        field(input, "oneline"@) is None && field(input, "n"@) is None && field(
            input,
            "follow"@,
        ) is None && field(input, "file"@) is None ==> log_words(input) == seq!["log"@],
{
    let a = word_if(is_on(input, "oneline"@), "--oneline"@);
    let b = limit_words(int_in(field(input, "n"@)));
    let c = word_if(is_on(input, "follow"@), "--follow"@);
    let all = log_words(input);
    if b.len() > 0 {
        assert(all[1int + a.len()] == "-n"@);
        assert(all[1int + a.len() + 1] == decimal_int(int_in(field(input, "n"@))->0));
    }
    if c.len() > 0 {
        assert(all[1int + a.len() + b.len()] == "--follow"@);
    }
    if field(input, "oneline"@) is None && field(input, "n"@) is None && field(
        input,
        "follow"@,
    ) is None && field(input, "file"@) is None {
        assert(all =~= seq!["log"@]);
    }
}

/// Branches are listed where that is on or nothing else is asked; else one is made, or one is
/// deleted, by force where that is on.
pub proof fn law_branch_words(input: JsonView, name: Seq<char>)
    ensures
        field(input, "list"@) == Some(JsonView::Bool(true)) ==> branch_words(input) == seq![
            "branch"@,
            "-a"@,
        ],
        field(input, "list"@) is None && field(input, "create"@) is None && field(
            input,
            "delete"@,
        ) is None ==> branch_words(input) == seq!["branch"@, "-a"@],
        field(input, "list"@) is None && field(input, "create"@) == Some(JsonView::String(name))
            ==> branch_words(input) == seq!["branch"@, name],
        field(input, "list"@) is None && field(input, "create"@) is None && field(
            input,
            "delete"@,
        ) == Some(JsonView::String(name)) && field(input, "force"@) is None ==> branch_words(input)
            == seq!["branch"@, "-d"@, name],
        field(input, "list"@) is None && field(input, "create"@) is None && field(
            input,
            "delete"@,
        ) == Some(JsonView::String(name)) && field(input, "force"@) == Some(JsonView::Bool(true))
            ==> branch_words(input) == seq!["branch"@, "-d"@, "-D"@, name],
{
    let w = branch_words(input);
    assert(seq!["branch"@, "-d"@] + Seq::<Seq<char>>::empty() + seq![name] =~= seq![
        "branch"@,
        "-d"@,
        name,
    ]);
    assert(seq!["branch"@, "-d"@] + seq!["-D"@] + seq![name] =~= seq![
        "branch"@,
        "-d"@,
        "-D"@,
        name,
    ]);
}

/// All changes are added where that is on; else the files that are named, behind `--`; and those
/// of the working directory where none are.
pub proof fn law_add_words(input: JsonView, f: Seq<char>)
    ensures
        field(input, "all"@) == Some(JsonView::Bool(true)) ==> add_words(input) == seq![
            "add"@,
            "-A"@,
        ],
        field(input, "all"@) is None && field(input, "files"@) is None ==> add_words(input)
            == seq!["add"@, "."@],
        field(input, "all"@) is None ==> (field(
            input,
            "files"@,
        ) matches Some(JsonView::Array(files)) ==> (files.len() > 0 ==> add_words(input).take(2)
            == seq!["add"@, "--"@] && (add_words(input).skip(2).contains(f) <==> files.contains(
            JsonView::String(f),
        )))),
{
    if let Some(JsonView::Array(files)) = field(input, "files"@) {
        let g = |j: JsonView|
            match j {
                JsonView::String(s) => Some(s),
                _ => None,
            };
        law_picked(files, g, f);
        if files.contains(JsonView::String(f)) {
            let i = choose|i: int| 0 <= i < files.len() && files[i] == JsonView::String(f);
            assert(g(files[i]) == Some(f));
        }
        if texts_in(files).contains(f) {
            let i = choose|i: int| 0 <= i < files.len() && g(#[trigger] files[i]) == Some(f);
            assert(files[i] == JsonView::String(f));
        }
        let w = seq!["add"@, "--"@] + texts_in(files);
        assert(w.take(2) =~= seq!["add"@, "--"@]);
        assert(w.skip(2) =~= texts_in(files));
    }
}

} // verus!
