//! The `ast` tools: code searched and rewritten by patterns of its syntax.
//!
//! Reading and writing files is left to the caller. Here a request is read, the text of a file
//! is searched or rewritten, and the answers are put together.
use vstd::prelude::*;

use crate::error::ErrorView;
use crate::error::ToolError;
use crate::json::array_in;
use crate::json::build_object;
use crate::json::count_json;
use crate::json::count_to_json;
use crate::json::entry;
use crate::json::field;
use crate::json::items_view;
use crate::json::law_object_holds;
use crate::json::lemma_array_view;
use crate::json::members_view;
use crate::json::nat_in;
use crate::json::object_of;
use crate::json::str_to_json;
use crate::json::string_in;
use crate::json::Json;
use crate::json::JsonView;
use crate::syntax::edits_view;
use crate::syntax::find_edits;
use crate::syntax::find_matches;
use crate::syntax::grammar_known;
use crate::syntax::knows_language;
use crate::syntax::matches_view;
use crate::syntax::syntax_edits;
use crate::syntax::syntax_matches;
use crate::syntax::EditView;
use crate::syntax::FaultView;
use crate::syntax::MatchView;
use crate::syntax::SyntaxEdit;
use crate::syntax::SyntaxFault;
use crate::syntax::SyntaxMatch;
use crate::text::from_utf8;
use crate::text::same;
use crate::text::utf8_fault;
use crate::text::utf8_text;
use crate::text::views;
use crate::tools::file::extension;
use crate::tools::file::extension_of;
use crate::tools::file::lesser;
use crate::tools::find::read_texts;
use crate::tools::outline::capped;
use crate::tools::search::texts_in;
use crate::types::optional_text;

verus! {

// ---------------------------------------------------------------------------
// Languages
// ---------------------------------------------------------------------------

/// The language of a file, by its extension; empty where it is not known.
pub open spec fn language_of(ext: Seq<char>) -> Seq<char> {
    if ext == "rs"@ {
        "rust"@
    } else if ext == "ts"@ || ext == "tsx"@ {
        "typescript"@
    } else if ext == "js"@ || ext == "jsx"@ || ext == "mjs"@ || ext == "cjs"@ {
        "javascript"@
    } else if ext == "py"@ {
        "python"@
    } else if ext == "go"@ {
        "go"@
    } else if ext == "java"@ {
        "java"@
    } else if ext == "c"@ || ext == "h"@ {
        "c"@
    } else if ext == "cpp"@ || ext == "cc"@ || ext == "cxx"@ || ext == "hpp"@ {
        "cpp"@
    } else if ext == "rb"@ {
        "ruby"@
    } else if ext == "php"@ {
        "php"@
    } else if ext == "swift"@ {
        "swift"@
    } else if ext == "kt"@ || ext == "kts"@ {
        "kotlin"@
    } else if ext == "scala"@ {
        "scala"@
    } else if ext == "css"@ {
        "css"@
    } else if ext == "html"@ || ext == "htm"@ {
        "html"@
    } else if ext == "json"@ {
        "json"@
    } else if ext == "yaml"@ || ext == "yml"@ {
        "yaml"@
    } else if ext == "toml"@ {
        "toml"@
    } else if ext == "sh"@ || ext == "bash"@ || ext == "zsh"@ {
        "bash"@
    } else if ext == "lua"@ {
        "lua"@
    } else if ext == "dart"@ {
        "dart"@
    } else if ext == "hs"@ {
        "haskell"@
    } else if ext == "clj"@ || ext == "cljs"@ || ext == "edn"@ {
        "clojure"@
    } else if ext == "ex"@ || ext == "exs"@ {
        "elixir"@
    } else if ext == "erl"@ {
        "erlang"@
    } else if ext == "sql"@ {
        "sql"@
    } else if ext == "vue"@ {
        "vue"@
    } else if ext == "svelte"@ {
        "svelte"@
    } else if ext == "zig"@ {
        "zig"@
    } else if ext == "nix"@ {
        "nix"@
    } else if ext == "proto"@ {
        "protobuf"@
    } else {
        ""@
    }
}

/// The language of a file, by its extension; empty where it is not known.
pub fn ext_to_lang_str(ext: &str) -> (r: &'static str)
    ensures
        r@ == language_of(ext@),
{
    if same(ext, "rs") {
        "rust"
    } else if same(ext, "ts") || same(ext, "tsx") {
        "typescript"
    } else if same(ext, "js") || same(ext, "jsx") || same(ext, "mjs") || same(ext, "cjs") {
        "javascript"
    } else if same(ext, "py") {
        "python"
    } else if same(ext, "go") {
        "go"
    } else if same(ext, "java") {
        "java"
    } else if same(ext, "c") || same(ext, "h") {
        "c"
    } else if same(ext, "cpp") || same(ext, "cc") || same(ext, "cxx") || same(ext, "hpp") {
        "cpp"
    } else if same(ext, "rb") {
        "ruby"
    } else if same(ext, "php") {
        "php"
    } else if same(ext, "swift") {
        "swift"
    } else if same(ext, "kt") || same(ext, "kts") {
        "kotlin"
    } else if same(ext, "scala") {
        "scala"
    } else if same(ext, "css") {
        "css"
    } else if same(ext, "html") || same(ext, "htm") {
        "html"
    } else if same(ext, "json") {
        "json"
    } else if same(ext, "yaml") || same(ext, "yml") {
        "yaml"
    } else if same(ext, "toml") {
        "toml"
    } else if same(ext, "sh") || same(ext, "bash") || same(ext, "zsh") {
        "bash"
    } else if same(ext, "lua") {
        "lua"
    } else if same(ext, "dart") {
        "dart"
    } else if same(ext, "hs") {
        "haskell"
    } else if same(ext, "clj") || same(ext, "cljs") || same(ext, "edn") {
        "clojure"
    } else if same(ext, "ex") || same(ext, "exs") {
        "elixir"
    } else if same(ext, "erl") {
        "erlang"
    } else if same(ext, "sql") {
        "sql"
    } else if same(ext, "vue") {
        "vue"
    } else if same(ext, "svelte") {
        "svelte"
    } else if same(ext, "zig") {
        "zig"
    } else if same(ext, "nix") {
        "nix"
    } else if same(ext, "proto") {
        "protobuf"
    } else {
        ""
    }
}

/// The extension of a file name; empty where it has none.
pub open spec fn known_extension(name: Seq<char>) -> Seq<char> {
    match extension_of(name) {
        Some(e) => e,
        None => ""@,
    }
}

fn extension_or_empty(name: &str) -> (r: String)
    ensures
        r@ == known_extension(name@),
{
    match extension(name) {
        Some(e) => e,
        None => String::from_str(""),
    }
}

/// Whether a file that is found in a directory is searched: its language is known.
pub fn is_source_name(name: &str) -> (r: bool)
    ensures
        r == (language_of(known_extension(name@)) != ""@),
{
    let ext = extension_or_empty(name);
    !same(ext_to_lang_str(ext.as_str()), "")
}

/// The language of a file: the one that was asked for, else by its name.
pub open spec fn chosen_language(asked: Option<Seq<char>>, name: Seq<char>) -> Seq<char> {
    match asked {
        Some(l) => l,
        None => language_of(known_extension(name)),
    }
}

/// The language of a file: the one that was asked for, else by its name; empty where neither
/// says.
pub fn choose_language(asked: &Option<String>, name: &str) -> (r: String)
    ensures
        r@ == chosen_language(optional_text(*asked), name@),
{
    match asked {
        Some(l) => l.clone(),
        None => {
            let ext = extension_or_empty(name);
            String::from_str(ext_to_lang_str(ext.as_str()))
        },
    }
}

/// The language of a file with a grammar, or what is wrong with its name.
pub fn infer_lang(name: &str) -> (r: Result<&'static str, ToolError>)
    ensures
        ({
            let ext = known_extension(name@);
            let lang = language_of(ext);
            match r {
                Ok(l) => l@ == lang && lang != ""@ && grammar_known(lang),
                Err(e) => if lang == ""@ {
                    e@ == ErrorView::Other("unsupported: ."@ + ext)
                } else {
                    !grammar_known(lang) && e@ == ErrorView::Other("bad lang: "@ + lang)
                },
            }
        }),
{
    let ext = extension_or_empty(name);
    let lang = ext_to_lang_str(ext.as_str());
    if same(lang, "") {
        let mut m = String::from_str("unsupported: .");
        m.append(ext.as_str());
        Err(ToolError::other(m.as_str()))
    } else if knows_language(lang) {
        Ok(lang)
    } else {
        Err(bad_language(lang))
    }
}

fn bad_language(lang: &str) -> (r: ToolError)
    ensures
        r@ == ErrorView::Other("bad lang: "@ + lang@),
{
    let mut m = String::from_str("bad lang: ");
    m.append(lang);
    ToolError::other(m.as_str())
}

/// The error for paths that are no pattern of files.
pub fn bad_glob(raw: &str) -> (r: ToolError)
    ensures
        r@ == ErrorView::Other("bad glob: "@ + raw@),
{
    let mut m = String::from_str("bad glob: ");
    m.append(raw);
    ToolError::other(m.as_str())
}

/// The error of a tool whose language or pattern is not understood.
pub open spec fn fault_error(tool: Seq<char>, lang: Seq<char>, f: FaultView) -> ErrorView {
    match f {
        FaultView::Language => ErrorView::Other("bad lang: "@ + lang),
        FaultView::Pattern(m) => ErrorView::ToolExecution {
            tool_name: tool,
            attempt: 1,
            source_string: "panic: "@ + m,
        },
    }
}

fn fault_to_error(tool: &str, lang: &str, f: &SyntaxFault) -> (r: ToolError)
    ensures
        r@ == fault_error(tool@, lang@, f@),
{
    match f {
        SyntaxFault::Language => bad_language(lang),
        SyntaxFault::Pattern(why) => {
            let mut m = String::from_str("panic: ");
            m.append(why.as_str());
            ToolError::execution_str(tool, m.as_str())
        },
    }
}

// ---------------------------------------------------------------------------
// Requests
// ---------------------------------------------------------------------------

/// How many matches are given where nothing else is said.
pub const DEFAULT_LIMIT: u64 = 100;

/// What a search asks for.
#[derive(Debug)]
pub struct GrepRequest {
    /// The pattern.
    pub pattern: String,
    /// Files, directories or patterns of files.
    pub paths: Vec<String>,
    /// The language of the files, where it is not told by their names.
    pub lang: Option<String>,
    /// How many matches are left out at the start.
    pub skip: u64,
    /// How many matches are given at most.
    pub limit: u64,
}

impl GrepRequest {
    /// How many matches of one file can count: those that are left out at the start, and those
    /// that are given.
    pub fn reach(&self) -> (r: u64)
        ensures
            r as int == capped(self.skip + self.limit),
    {
        if self.limit > u64::MAX - self.skip {
            u64::MAX
        } else {
            self.skip + self.limit
        }
    }
}

/// A number that is asked for, or what it is where it is not.
pub open spec fn number_or(v: Option<JsonView>, otherwise: nat) -> nat {
    match nat_in(v) {
        Some(n) => n,
        None => otherwise,
    }
}

/// What a search asks for is what is said in the input.
pub open spec fn grep_asked(input: JsonView, q: GrepRequest) -> bool {
    &&& string_in(field(input, "pat"@)) == Some(q.pattern@)
    &&& array_in(field(input, "paths"@)) is Some
    &&& views(q.paths@) == texts_in(array_in(field(input, "paths"@))->0)
    &&& optional_text(q.lang) == string_in(field(input, "lang"@))
    &&& q.skip as nat == number_or(field(input, "skip"@), 0)
    &&& q.limit as nat == number_or(field(input, "limit"@), DEFAULT_LIMIT as nat)
}

fn optional_member(input: &Json, name: &str) -> (r: Option<String>)
    ensures
        optional_text(r) == string_in(field(input@, name@)),
{
    match input.get_str(name) {
        Some(s) => Some(s.clone()),
        None => None,
    }
}

fn member_number(input: &Json, name: &str, otherwise: u64) -> (r: u64)
    ensures
        r as nat == number_or(field(input@, name@), otherwise as nat),
{
    match input.get_u64(name) {
        Some(n) => n,
        None => otherwise,
    }
}

/// Reads what a search asks for.
pub fn parse_grep(input: &Json) -> (r: Result<GrepRequest, ToolError>)
    ensures
        match r {
            Ok(q) => grep_asked(input@, q),
            Err(e) => if string_in(field(input@, "pat"@)) is None {
                e@ == ErrorView::Other("pat required"@)
            } else {
                array_in(field(input@, "paths"@)) is None && e@ == ErrorView::Other(
                    "paths required"@,
                )
            },
        },
{
    let pattern = match input.get_str("pat") {
        Some(s) => s.clone(),
        None => {
            return Err(ToolError::other("pat required"));
        },
    };
    let paths = match input.get_array("paths") {
        Some(items) => read_texts(items),
        None => {
            return Err(ToolError::other("paths required"));
        },
    };
    Ok(
        GrepRequest {
            pattern,
            paths,
            lang: optional_member(input, "lang"),
            skip: member_number(input, "skip", 0),
            limit: member_number(input, "limit", DEFAULT_LIMIT),
        },
    )
}

/// What a rewrite asks for.
#[derive(Debug)]
pub struct RewriteRequest {
    /// The pattern.
    pub pattern: String,
    /// What takes the place of what it matches.
    pub replacement: String,
    /// Files, directories or patterns of files.
    pub paths: Vec<String>,
    /// The language of the files, where it is not told by their names.
    pub lang: Option<String>,
}

/// What a rewrite asks for is what is said in the input.
pub open spec fn rewrite_asked(input: JsonView, q: RewriteRequest) -> bool {
    &&& string_in(field(input, "pat"@)) == Some(q.pattern@)
    &&& string_in(field(input, "out"@)) == Some(q.replacement@)
    &&& array_in(field(input, "paths"@)) is Some
    &&& views(q.paths@) == texts_in(array_in(field(input, "paths"@))->0)
    &&& optional_text(q.lang) == string_in(field(input, "lang"@))
}

/// Reads what a rewrite asks for.
pub fn parse_rewrite(input: &Json) -> (r: Result<RewriteRequest, ToolError>)
    ensures
        match r {
            Ok(q) => rewrite_asked(input@, q),
            Err(e) => if string_in(field(input@, "pat"@)) is None {
                e@ == ErrorView::Other("pat required"@)
            } else if string_in(field(input@, "out"@)) is None {
                e@ == ErrorView::Other("out required"@)
            } else {
                array_in(field(input@, "paths"@)) is None && e@ == ErrorView::Other(
                    "paths required"@,
                )
            },
        },
{
    let pattern = match input.get_str("pat") {
        Some(s) => s.clone(),
        None => {
            return Err(ToolError::other("pat required"));
        },
    };
    let replacement = match input.get_str("out") {
        Some(s) => s.clone(),
        None => {
            return Err(ToolError::other("out required"));
        },
    };
    match input.get_array("paths") {
        Some(items) => Ok(
            RewriteRequest {
                pattern,
                replacement,
                paths: read_texts(items),
                lang: optional_member(input, "lang"),
            },
        ),
        None => Err(ToolError::other("paths required")),
    }
}

// ---------------------------------------------------------------------------
// Searching
// ---------------------------------------------------------------------------

/// What is said of a match, with lines and columns counted from 1.
pub open spec fn match_json(file: Seq<char>, m: MatchView) -> JsonView {
    JsonView::Object(
        object_of(
            seq![
                ("file"@, JsonView::String(file)),
                ("text"@, JsonView::String(m.text)),
                ("startLine"@, count_json(capped(m.start_line + 1int) as nat)),
                ("startColumn"@, count_json(capped(m.start_column + 1int) as nat)),
                ("endLine"@, count_json(capped(m.end_line + 1int) as nat)),
                ("endColumn"@, count_json(capped(m.end_column + 1int) as nat)),
            ],
        ),
    )
}

/// What is said of the first matches, at most `limit` of them.
pub open spec fn first_matches(file: Seq<char>, found: Seq<MatchView>, limit: nat) -> Seq<
    JsonView,
> {
    found.take(lesser(found.len() as int, limit as int)).map_values(
        |m: MatchView| match_json(file, m),
    )
}

fn from_one(n: usize) -> (r: Json)
    ensures
        r@ == count_json(capped(n + 1) as nat),
{
    let wide = n as u64;
    count_to_json(
        if wide == u64::MAX {
            u64::MAX
        } else {
            wide + 1
        },
    )
}

fn match_to_json(file: &str, m: &SyntaxMatch) -> (r: Json)
    ensures
        r@ == match_json(file@, m@),
{
    let mut pairs: Vec<(String, Json)> = Vec::new();
    pairs.push(entry("file", str_to_json(file)));
    pairs.push(entry("text", str_to_json(m.text.as_str())));
    pairs.push(entry("startLine", from_one(m.start_line)));
    pairs.push(entry("startColumn", from_one(m.start_column)));
    pairs.push(entry("endLine", from_one(m.end_line)));
    pairs.push(entry("endColumn", from_one(m.end_column)));
    assert(members_view(pairs@) =~= seq![
        ("file"@, JsonView::String(file@)),
        ("text"@, JsonView::String(m@.text)),
        ("startLine"@, count_json(capped(m@.start_line + 1int) as nat)),
        ("startColumn"@, count_json(capped(m@.start_column + 1int) as nat)),
        ("endLine"@, count_json(capped(m@.end_line + 1int) as nat)),
        ("endColumn"@, count_json(capped(m@.end_column + 1int) as nat)),
    ]);
    build_object(pairs)
}

/// Says of the first matches in a file where they are, at most `limit` of them.
pub fn describe_matches(file: &str, found: &Vec<SyntaxMatch>, limit: u64) -> (r: Vec<Json>)
    ensures
        items_view(r@) == first_matches(file@, matches_view(found@), limit as nat),
{
    let ghost all = matches_view(found@);
    let mut r: Vec<Json> = Vec::new();
    let n = found.len();
    let mut i: usize = 0;
    while i < n && (i as u64) < limit
        invariant
            i <= n,
            i <= limit,
            n == found@.len(),
            all == matches_view(found@),
            r@.len() == i,
            forall|k: int| 0 <= k < i ==> (#[trigger] r@[k])@ == match_json(file@, all[k]),
        decreases n - i,
    {
        r.push(match_to_json(file, &found[i]));
        i = i + 1;
    }
    assert(i == lesser(all.len() as int, limit as int));
    assert(items_view(r@) =~= first_matches(file@, all, limit as nat));
    r
}

/// What comes of searching a text.
pub open spec fn text_searched(
    file: Seq<char>,
    content: Seq<char>,
    lang: Seq<char>,
    pattern: Seq<char>,
    limit: nat,
) -> Result<Seq<JsonView>, ErrorView> {
    if lang == ""@ {
        Ok(Seq::empty())
    } else {
        match syntax_matches(lang, content, pattern) {
            Ok(found) => Ok(first_matches(file, found, limit)),
            Err(f) => Err(fault_error("grep"@, lang, f)),
        }
    }
}

/// Searches the text of a file; nothing is found where its language is not known.
pub fn search_file(file: &str, content: &str, lang: &str, pattern: &str, limit: u64) -> (r: Result<
    Vec<Json>,
    ToolError,
>)
    ensures
        (match r {
            Ok(v) => Ok(items_view(v@)),
            Err(e) => Err(e@),
        }) == text_searched(file@, content@, lang@, pattern@, limit as nat),
{
    if same(lang, "") {
        let r: Vec<Json> = Vec::new();
        assert(items_view(r@) =~= Seq::<JsonView>::empty());
        return Ok(r);
    }
    match find_matches(lang, content, pattern) {
        Ok(found) => Ok(describe_matches(file, &found, limit)),
        Err(f) => Err(fault_to_error("grep", lang, &f)),
    }
}

/// All that was found, file by file.
pub open spec fn all_matches(found: Seq<Seq<JsonView>>) -> Seq<JsonView>
    decreases found.len(),
{
    if found.len() == 0 {
        Seq::empty()
    } else {
        all_matches(found.drop_last()) + found.last()
    }
}

/// How many files had matches.
pub open spec fn files_with_matches(found: Seq<Seq<JsonView>>) -> nat
    decreases found.len(),
{
    if found.len() == 0 {
        0
    } else {
        files_with_matches(found.drop_last()) + if found.last().len() > 0 {
            1nat
        } else {
            0nat
        }
    }
}

/// Part of a list: some items at the start are left out, and not more than `limit` given.
pub open spec fn page(all: Seq<JsonView>, skip: nat, limit: nat) -> Seq<JsonView> {
    let from = lesser(skip as int, all.len() as int);
    let rest = all.skip(from);
    rest.take(lesser(limit as int, rest.len() as int))
}

/// The answer to a search.
pub open spec fn grep_answer(found: Seq<Seq<JsonView>>, skip: nat, limit: nat) -> JsonView {
    let shown = page(all_matches(found), skip, limit);
    JsonView::Object(
        object_of(
            seq![
                ("matchCount"@, count_json(shown.len())),
                ("fileCount"@, count_json(files_with_matches(found))),
                ("matches"@, JsonView::Array(shown)),
            ],
        ),
    )
}

/// What was found, as its model.
pub open spec fn found_items(v: Seq<Vec<Json>>) -> Seq<Seq<JsonView>> {
    v.map_values(|f: Vec<Json>| items_view(f@))
}

/// Answers a search, given what was found in each file.
pub fn finish_grep(found: &Vec<Vec<Json>>, skip: u64, limit: u64) -> (r: Json)
    ensures
        r@ == grep_answer(found_items(found@), skip as nat, limit as nat),
{
    let ghost all = found_items(found@);
    let mut matches: Vec<Json> = Vec::new();
    let mut files: u64 = 0;
    let n = found.len();
    let mut i: usize = 0;
    assert(items_view(matches@) =~= all_matches(all.take(0)));
    while i < n
        invariant
            i <= n,
            n == found@.len(),
            all == found_items(found@),
            files <= i,
            items_view(matches@) == all_matches(all.take(i as int)),
            files as nat == files_with_matches(all.take(i as int)),
        decreases n - i,
    {
        let ghost done = items_view(matches@);
        proof {
            assert(all.take(i + 1).drop_last() =~= all.take(i as int));
            assert(all.take(i + 1).last() == items_view(found@[i as int]@));
            assert(items_view(found@[i as int]@).len() == found@[i as int]@.len());
        }
        if found[i].len() > 0 {
            files = files + 1;
        }
        let mut more = crate::json::clone_items(&found[i]);
        let ghost extra = more@;
        matches.append(&mut more);
        assert(items_view(matches@) =~= done + items_view(extra));
        i = i + 1;
    }
    assert(all.take(n as int) =~= all);
    let ghost whole = all_matches(all);
    let mut shown: Vec<Json> = Vec::new();
    let total = matches.len();
    assert(whole.len() == total);
    let from: usize = if skip < total as u64 {
        skip as usize
    } else {
        total
    };
    let mut j: usize = from;
    while j < total && ((j - from) as u64) < limit
        invariant
            from <= j <= total,
            j - from <= limit,
            total == matches@.len(),
            whole == items_view(matches@),
            shown@.len() == j - from,
            forall|k: int| 0 <= k < j - from ==> (#[trigger] shown@[k])@ == whole[from + k],
        decreases total - j,
    {
        shown.push(matches[j].clone());
        j = j + 1;
    }
    assert(items_view(shown@) =~= page(whole, skip as nat, limit as nat));
    let count = shown.len() as u64;
    assert(items_view(shown@).len() == count);
    proof {
        lemma_array_view(shown);
    }
    let ghost list = items_view(shown@);
    let mut pairs: Vec<(String, Json)> = Vec::new();
    pairs.push(entry("matchCount", count_to_json(count)));
    pairs.push(entry("fileCount", count_to_json(files)));
    pairs.push(entry("matches", Json::Array(shown)));
    assert(members_view(pairs@) =~= seq![
        ("matchCount"@, count_json(list.len())),
        ("fileCount"@, count_json(files as nat)),
        ("matches"@, JsonView::Array(list)),
    ]);
    build_object(pairs)
}

/// Pages follow on one another: what one page gives and what the next gives is what one page
/// of their size gives.
pub proof fn law_pages_follow(all: Seq<JsonView>, skip: nat, a: nat, b: nat)
    ensures
        page(all, skip, a) + page(all, skip + a, b) == page(all, skip, a + b),
{
    assert(page(all, skip, a) + page(all, skip + a, b) =~= page(all, skip, a + b));
}

/// The first items of each list, at most `n` of each.
pub open spec fn first_of_each(found: Seq<Seq<JsonView>>, n: nat) -> Seq<Seq<JsonView>> {
    found.map_values(|f: Seq<JsonView>| f.take(lesser(f.len() as int, n as int)))
}

/// A page only needs so many matches of each file as are left out at the start and given
/// together: with more of them the page is the same.
pub proof fn law_reach_suffices(found: Seq<Seq<JsonView>>, skip: nat, limit: nat, reach: nat)
    requires
        reach >= skip + limit,
    ensures
        page(all_matches(first_of_each(found, reach)), skip, limit) == page(
            all_matches(found),
            skip,
            limit,
        ),
{
    lemma_first_of_each(found, reach);
    let a = all_matches(first_of_each(found, reach));
    let b = all_matches(found);
    let p = page(a, skip, limit);
    let q = page(b, skip, limit);
    assert(p.len() == q.len());
    assert forall|i: int| 0 <= i < p.len() implies p[i] == q[i] by {
        assert(p[i] == a[skip + i]);
        assert(q[i] == b[skip + i]);
    }
    assert(p =~= q);
}

proof fn lemma_first_of_each(found: Seq<Seq<JsonView>>, n: nat)
    ensures
        ({
            let a = all_matches(first_of_each(found, n));
            let b = all_matches(found);
            &&& lesser(a.len() as int, n as int) == lesser(b.len() as int, n as int)
            &&& a.len() <= b.len()
            &&& forall|i: int| 0 <= i < lesser(a.len() as int, n as int) ==> a[i] == b[i]
        }),
    decreases found.len(),
{
    if found.len() > 0 {
        let rest = found.drop_last();
        lemma_first_of_each(rest, n);
        assert(first_of_each(found, n).drop_last() =~= first_of_each(rest, n));
        let some = first_of_each(found, n).last();
        let all = found.last();
        assert(some == all.take(lesser(all.len() as int, n as int)));
        let x = all_matches(first_of_each(rest, n));
        let y = all_matches(rest);
        assert(all_matches(first_of_each(found, n)) == x + some);
        assert(all_matches(found) == y + all);
        if x.len() < n {
            assert(x.len() == y.len());
        }
    }
}

// ---------------------------------------------------------------------------
// Rewriting
// ---------------------------------------------------------------------------

/// The bytes with one change made.
pub open spec fn spliced(bytes: Seq<u8>, e: EditView) -> Seq<u8> {
    bytes.take(e.position as int) + e.inserted + bytes.skip((e.position + e.deleted) as int)
}

/// The bytes with all changes made, from the last to the first.
pub open spec fn all_spliced(bytes: Seq<u8>, edits: Seq<EditView>) -> Seq<u8>
    decreases edits.len(),
{
    if edits.len() == 0 {
        bytes
    } else {
        all_spliced(spliced(bytes, edits.last()), edits.drop_last())
    }
}

/// Each change lies within the bytes that it is made to.
pub open spec fn edits_fit(bytes: Seq<u8>, edits: Seq<EditView>) -> bool
    decreases edits.len(),
{
    edits.len() == 0 || {
        &&& edits.last().position + edits.last().deleted <= bytes.len()
        &&& edits_fit(spliced(bytes, edits.last()), edits.drop_last())
    }
}

fn splice(bytes: &Vec<u8>, e: &SyntaxEdit) -> (r: Vec<u8>)
    requires
        e.position + e.deleted <= bytes@.len(),
    ensures
        r@ == spliced(bytes@, e@),
{
    let mut r: Vec<u8> = Vec::new();
    let n = bytes.len();
    let mut i: usize = 0;
    while i < e.position
        invariant
            i <= e.position <= n,
            n == bytes@.len(),
            r@ == bytes@.take(i as int),
        decreases e.position - i,
    {
        r.push(bytes[i]);
        i = i + 1;
        assert(r@ =~= bytes@.take(i as int));
    }
    let ghost head = r@;
    let m = e.inserted.len();
    let mut j: usize = 0;
    while j < m
        invariant
            j <= m,
            m == e.inserted@.len(),
            r@ == head + e.inserted@.take(j as int),
        decreases m - j,
    {
        r.push(e.inserted[j]);
        j = j + 1;
        assert(r@ =~= head + e.inserted@.take(j as int));
    }
    let ghost middle = r@;
    let from = e.position + e.deleted;
    let mut k: usize = from;
    while k < n
        invariant
            from <= k <= n,
            n == bytes@.len(),
            r@ == middle + bytes@.subrange(from as int, k as int),
        decreases n - k,
    {
        r.push(bytes[k]);
        k = k + 1;
        assert(r@ =~= middle + bytes@.subrange(from as int, k as int));
    }
    assert(r@ =~= spliced(bytes@, e@));
    r
}

/// Makes all changes, from the last to the first; none where one does not lie within the
/// bytes that it is made to.
pub fn apply_edits(bytes: Vec<u8>, edits: &Vec<SyntaxEdit>) -> (r: Option<Vec<u8>>)
    ensures
        (r is Some) == edits_fit(bytes@, edits_view(edits@)),
        r matches Some(v) ==> v@ == all_spliced(bytes@, edits_view(edits@)),
{
    let ghost start = bytes@;
    let ghost all = edits_view(edits@);
    let mut current = bytes;
    let mut i: usize = edits.len();
    assert(all.take(i as int) =~= all);
    while i > 0
        invariant
            i <= edits@.len(),
            all == edits_view(edits@),
            start == bytes@,
            edits_fit(start, all) == edits_fit(current@, all.take(i as int)),
            all_spliced(start, all) == all_spliced(current@, all.take(i as int)),
        decreases i,
    {
        let ghost left = all.take(i as int);
        proof {
            assert(left.drop_last() =~= all.take(i - 1));
            assert(left.last() == edits@[i - 1]@);
        }
        let e = &edits[i - 1];
        let n = current.len();
        if e.position > n || e.deleted > n - e.position {
            return None;
        }
        current = splice(&current, e);
        i = i - 1;
    }
    Some(current)
}

/// A text that was rewritten.
#[derive(Debug)]
pub struct Rewritten {
    /// The text.
    pub content: String,
    /// How many changes were made.
    pub replacements: usize,
}

/// A rewritten text, as its model.
pub open spec fn optional_rewrite(r: Option<Rewritten>) -> Option<(Seq<char>, nat)> {
    match r {
        Some(w) => Some((w.content@, w.replacements as nat)),
        None => None,
    }
}

/// What comes of making changes to a text: nothing where there are none.
pub open spec fn edited(content: Seq<char>, edits: Seq<EditView>) -> Result<
    Option<(Seq<char>, nat)>,
    ErrorView,
> {
    let bytes = vstd::utf8::encode_utf8(content);
    if edits.len() == 0 {
        Ok(None)
    } else if !edits_fit(bytes, edits) {
        Err(
            ErrorView::ToolExecution {
                tool_name: "ast_edit"@,
                attempt: 1,
                source_string: "panic: edit out of range"@,
            },
        )
    } else {
        match utf8_text(all_spliced(bytes, edits)) {
            Some(text) => Ok(Some((text, edits.len()))),
            None => Err(ErrorView::Other("utf8: "@ + utf8_fault(all_spliced(bytes, edits)))),
        }
    }
}

/// Makes changes to a text, and says how many they are; nothing where there are none.
pub fn edit_text(content: &str, edits: &Vec<SyntaxEdit>) -> (r: Result<
    Option<Rewritten>,
    ToolError,
>)
    ensures
        (match r {
            Ok(w) => Ok(optional_rewrite(w)),
            Err(e) => Err(e@),
        }) == edited(content@, edits_view(edits@)),
{
    assert(edits_view(edits@).len() == edits@.len());
    let n = edits.len();
    if n == 0 {
        return Ok(None);
    }
    let bytes = bytes_of(content);
    match apply_edits(bytes, edits) {
        Some(v) => match from_utf8(&v) {
            Ok(s) => Ok(Some(Rewritten { content: String::from_str(s), replacements: n })),
            Err(why) => {
                let mut m = String::from_str("utf8: ");
                m.append(why.as_str());
                Err(ToolError::other(m.as_str()))
            },
        },
        None => Err(ToolError::execution_str("ast_edit", "panic: edit out of range")),
    }
}

fn bytes_of(s: &str) -> (r: Vec<u8>)
    ensures
        r@ == vstd::utf8::encode_utf8(s@),
{
    let all = s.as_bytes();
    let mut r: Vec<u8> = Vec::new();
    let n = all.len();
    let mut i: usize = 0;
    while i < n
        invariant
            i <= n,
            n == all@.len(),
            r@ == all@.take(i as int),
        decreases n - i,
    {
        r.push(all[i]);
        i = i + 1;
        assert(r@ =~= all@.take(i as int));
    }
    assert(all@.take(n as int) =~= all@);
    r
}

/// What comes of rewriting a text.
pub open spec fn text_rewritten(
    content: Seq<char>,
    lang: Seq<char>,
    pattern: Seq<char>,
    replacement: Seq<char>,
) -> Result<Option<(Seq<char>, nat)>, ErrorView> {
    if lang == ""@ {
        Ok(None)
    } else {
        match syntax_edits(lang, content, pattern, replacement) {
            Ok(edits) => edited(content, edits),
            Err(f) => Err(fault_error("ast_edit"@, lang, f)),
        }
    }
}

/// Rewrites the text of a file; nothing comes of it where its language is not known or the
/// pattern matches nothing.
pub fn edit_file(content: &str, lang: &str, pattern: &str, replacement: &str) -> (r: Result<
    Option<Rewritten>,
    ToolError,
>)
    ensures
        (match r {
            Ok(w) => Ok(optional_rewrite(w)),
            Err(e) => Err(e@),
        }) == text_rewritten(content@, lang@, pattern@, replacement@),
{
    if same(lang, "") {
        return Ok(None);
    }
    match find_edits(lang, content, pattern, replacement) {
        Ok(edits) => edit_text(content, &edits),
        Err(f) => Err(fault_to_error("ast_edit", lang, &f)),
    }
}

/// How many changes were made in all.
pub open spec fn total_replacements(done: Seq<(Seq<char>, nat)>) -> nat
    decreases done.len(),
{
    if done.len() == 0 {
        0
    } else {
        total_replacements(done.drop_last()) + done.last().1
    }
}

/// What is said of a file that was rewritten.
pub open spec fn rewrite_json(d: (Seq<char>, nat)) -> JsonView {
    JsonView::Object(
        object_of(seq![("file"@, JsonView::String(d.0)), ("replacements"@, count_json(d.1))]),
    )
}

/// The answer to a rewrite.
pub open spec fn rewrite_answer(done: Seq<(Seq<char>, nat)>) -> JsonView {
    JsonView::Object(
        object_of(
            seq![
                ("fileCount"@, count_json(done.len())),
                ("totalReplacements"@, count_json(capped(total_replacements(done) as int) as nat)),
                (
                    "replacements"@,
                    JsonView::Array(done.map_values(|d: (Seq<char>, nat)| rewrite_json(d))),
                ),
            ],
        ),
    )
}

/// The files that were rewritten, as their model.
pub open spec fn done_view(v: Seq<(String, usize)>) -> Seq<(Seq<char>, nat)> {
    v.map_values(|d: (String, usize)| (d.0@, d.1 as nat))
}

/// Answers a rewrite, given the files that were rewritten and how many changes each has.
pub fn finish_rewrite(done: &Vec<(String, usize)>) -> (r: Json)
    ensures
        r@ == rewrite_answer(done_view(done@)),
{
    let ghost all = done_view(done@);
    let ghost want = all.map_values(|d: (Seq<char>, nat)| rewrite_json(d));
    let mut items: Vec<Json> = Vec::new();
    let mut total: u64 = 0;
    let n = done.len();
    let mut i: usize = 0;
    assert(all.take(0) =~= Seq::<(Seq<char>, nat)>::empty());
    while i < n
        invariant
            i <= n,
            n == done@.len(),
            all == done_view(done@),
            want == all.map_values(|d: (Seq<char>, nat)| rewrite_json(d)),
            items@.len() == i,
            total as int == capped(total_replacements(all.take(i as int)) as int),
            forall|k: int| 0 <= k < i ==> (#[trigger] items@[k])@ == want[k],
        decreases n - i,
    {
        proof {
            assert(all.take(i + 1).drop_last() =~= all.take(i as int));
            assert(all.take(i + 1).last() == all[i as int]);
        }
        let count = done[i].1 as u64;
        total = if count > u64::MAX - total {
            u64::MAX
        } else {
            total + count
        };
        let mut pairs: Vec<(String, Json)> = Vec::new();
        pairs.push(entry("file", str_to_json(done[i].0.as_str())));
        pairs.push(entry("replacements", count_to_json(count)));
        assert(members_view(pairs@) =~= seq![
            ("file"@, JsonView::String(all[i as int].0)),
            ("replacements"@, count_json(all[i as int].1)),
        ]);
        items.push(build_object(pairs));
        i = i + 1;
    }
    assert(all.take(n as int) =~= all);
    assert(items_view(items@) =~= want);
    proof {
        lemma_array_view(items);
    }
    let mut pairs: Vec<(String, Json)> = Vec::new();
    pairs.push(entry("fileCount", count_to_json(n as u64)));
    pairs.push(entry("totalReplacements", count_to_json(total)));
    pairs.push(entry("replacements", Json::Array(items)));
    assert(members_view(pairs@) =~= seq![
        ("fileCount"@, count_json(all.len())),
        ("totalReplacements"@, count_json(capped(total_replacements(all) as int) as nat)),
        ("replacements"@, JsonView::Array(want)),
    ]);
    build_object(pairs)
}

/// Changes that lie one behind the other do not disturb one another: what stands before the
/// first of them stays.
pub proof fn law_edits_keep_what_is_before(bytes: Seq<u8>, edits: Seq<EditView>, n: int)
    requires
        edits_fit(bytes, edits),
        0 <= n <= bytes.len(),
        forall|i: int| 0 <= i < edits.len() ==> n <= (#[trigger] edits[i]).position,
    ensures
        all_spliced(bytes, edits).len() >= n,
        all_spliced(bytes, edits).take(n) == bytes.take(n),
    decreases edits.len(),
{
    if edits.len() > 0 {
        let next = spliced(bytes, edits.last());
        assert(n <= edits[edits.len() - 1].position);
        assert(next.take(n) =~= bytes.take(n));
        law_edits_keep_what_is_before(next, edits.drop_last(), n);
    }
}

/// What is said of a match: lines and columns are counted from 1.
pub proof fn law_match_positions(file: Seq<char>, m: MatchView)
    requires
        m.start_line < u64::MAX,
        m.start_column < u64::MAX,
        m.end_line < u64::MAX,
        m.end_column < u64::MAX,
    ensures
        field(match_json(file, m), "file"@) == Some(JsonView::String(file)),
        field(match_json(file, m), "text"@) == Some(JsonView::String(m.text)),
        field(match_json(file, m), "startLine"@) == Some(count_json(m.start_line + 1)),
        field(match_json(file, m), "startColumn"@) == Some(count_json(m.start_column + 1)),
        field(match_json(file, m), "endLine"@) == Some(count_json(m.end_line + 1)),
        field(match_json(file, m), "endColumn"@) == Some(count_json(m.end_column + 1)),
{
    let pairs = seq![
        ("file"@, JsonView::String(file)),
        ("text"@, JsonView::String(m.text)),
        ("startLine"@, count_json(capped(m.start_line + 1int) as nat)),
        ("startColumn"@, count_json(capped(m.start_column + 1int) as nat)),
        ("endLine"@, count_json(capped(m.end_line + 1int) as nat)),
        ("endColumn"@, count_json(capped(m.end_column + 1int) as nat)),
    ];
    reveal_strlit("file");
    reveal_strlit("text");
    reveal_strlit("startLine");
    reveal_strlit("startColumn");
    reveal_strlit("endLine");
    reveal_strlit("endColumn");
    assert("file"@.len() == 4);
    assert("text"@.len() == 4);
    assert("startLine"@.len() == 9);
    assert("startColumn"@.len() == 11);
    assert("endLine"@.len() == 7);
    assert("endColumn"@.len() == 9);
    assert("file"@[0] != "text"@[0]);
    assert("startLine"@[0] != "endColumn"@[0]);
    law_object_holds(pairs, 0, "file"@);
    law_object_holds(pairs, 1, "text"@);
    law_object_holds(pairs, 2, "startLine"@);
    law_object_holds(pairs, 3, "startColumn"@);
    law_object_holds(pairs, 4, "endLine"@);
    law_object_holds(pairs, 5, "endColumn"@);
}

/// Of one file the first matches are given, in order, up to the limit; a file of no known language
/// has none.
pub proof fn law_file_is_searched(
    file: Seq<char>,
    content: Seq<char>,
    lang: Seq<char>,
    pattern: Seq<char>,
    limit: nat,
    i: int,
)
    ensures
        lang == ""@ ==> text_searched(file, content, lang, pattern, limit) == Ok::<
            Seq<JsonView>,
            ErrorView,
        >(Seq::empty()),
        lang != ""@ ==> (syntax_matches(lang, content, pattern) matches Ok(found) ==> {
            let r = text_searched(file, content, lang, pattern, limit);
            &&& r is Ok
            &&& found.len() <= limit ==> r->Ok_0.len() == found.len()
            &&& found.len() > limit ==> r->Ok_0.len() == limit
            &&& 0 <= i < r->Ok_0.len() ==> r->Ok_0[i] == match_json(file, found[i])
        }),
        lang != ""@ && syntax_matches(lang, content, pattern) is Err ==> text_searched(
            file,
            content,
            lang,
            pattern,
            limit,
        ) is Err,
{
}

/// A page gives the matches behind the first `skip`, in order, at most `limit` of them.
pub proof fn law_page_of_matches(all: Seq<JsonView>, skip: nat, limit: nat, i: int)
    ensures
        skip >= all.len() ==> page(all, skip, limit).len() == 0,
        skip < all.len() && all.len() - skip <= limit ==> page(all, skip, limit).len() == all.len()
            - skip,
        skip < all.len() && all.len() - skip > limit ==> page(all, skip, limit).len() == limit,
        0 <= i < page(all, skip, limit).len() ==> page(all, skip, limit)[i] == all[skip + i],
{
}

/// The matches of all files are those of each, one file behind the other, and a file is counted
/// where it has some.
pub proof fn law_matches_of_files(found: Seq<Seq<JsonView>>, more: Seq<JsonView>)
    ensures
        all_matches(Seq::empty()).len() == 0,
        all_matches(found.push(more)) == all_matches(found) + more,
        more.len() > 0 ==> files_with_matches(found.push(more)) == files_with_matches(found) + 1,
        more.len() == 0 ==> files_with_matches(found.push(more)) == files_with_matches(found),
        files_with_matches(Seq::empty()) == 0,
{
    assert(found.push(more).drop_last() =~= found);
}

/// What is said of a search for a pattern.
pub proof fn law_grep_answer(found: Seq<Seq<JsonView>>, skip: nat, limit: nat)
    ensures
        field(grep_answer(found, skip, limit), "matches"@) == Some(
            JsonView::Array(page(all_matches(found), skip, limit)),
        ),
        field(grep_answer(found, skip, limit), "matchCount"@) == Some(
            count_json(page(all_matches(found), skip, limit).len()),
        ),
        field(grep_answer(found, skip, limit), "fileCount"@) == Some(
            count_json(files_with_matches(found)),
        ),
{
    let shown = page(all_matches(found), skip, limit);
    let pairs = seq![
        ("matchCount"@, count_json(shown.len())),
        ("fileCount"@, count_json(files_with_matches(found))),
        ("matches"@, JsonView::Array(shown)),
    ];
    reveal_strlit("matchCount");
    reveal_strlit("fileCount");
    reveal_strlit("matches");
    assert("matchCount"@.len() == 10);
    assert("fileCount"@.len() == 9);
    assert("matches"@.len() == 7);
    law_object_holds(pairs, 0, "matchCount"@);
    law_object_holds(pairs, 1, "fileCount"@);
    law_object_holds(pairs, 2, "matches"@);
}

/// One change takes away just what it is to take away, and puts there just what it is to put
/// there.
pub proof fn law_one_edit(a: Seq<u8>, gone: Seq<u8>, b: Seq<u8>, new: Seq<u8>)
    ensures
        ({
            let e = EditView { position: a.len(), deleted: gone.len(), inserted: new };
            &&& edits_fit(a + gone + b, seq![e])
            &&& all_spliced(a + gone + b, seq![e]) == a + new + b
        }),
{
    let e = EditView { position: a.len(), deleted: gone.len(), inserted: new };
    let s = a + gone + b;
    reveal_with_fuel(all_spliced, 2);
    reveal_with_fuel(edits_fit, 2);
    assert(seq![e].drop_last() =~= Seq::<EditView>::empty());
    assert(s.take(a.len() as int) =~= a);
    assert(s.skip((a.len() + gone.len()) as int) =~= b);
    assert(spliced(s, e) =~= a + new + b);
}

/// Two changes one behind the other both happen, each in its place.
pub proof fn law_two_edits(
    a: Seq<u8>,
    gone: Seq<u8>,
    b: Seq<u8>,
    lost: Seq<u8>,
    c: Seq<u8>,
    new: Seq<u8>,
    newer: Seq<u8>,
)
    ensures
        ({
            let bytes = a + gone + b + lost + c;
            let edits = seq![
                EditView { position: a.len(), deleted: gone.len(), inserted: new },
                EditView {
                    position: a.len() + gone.len() + b.len(),
                    deleted: lost.len(),
                    inserted: newer,
                },
            ];
            &&& edits_fit(bytes, edits)
            &&& all_spliced(bytes, edits) == a + new + b + newer + c
        }),
{
    let first = EditView { position: a.len(), deleted: gone.len(), inserted: new };
    let second = EditView {
        position: a.len() + gone.len() + b.len(),
        deleted: lost.len(),
        inserted: newer,
    };
    let bytes = a + gone + b + lost + c;
    let edits = seq![first, second];
    assert(edits.drop_last() =~= seq![first]);
    assert(edits.last() == second);
    assert(bytes.take(second.position as int) =~= a + gone + b);
    assert(bytes.skip((second.position + second.deleted) as int) =~= c);
    let mid = a + gone + (b + newer + c);
    assert(spliced(bytes, second) =~= mid);
    law_one_edit(a, gone, b + newer + c, new);
    assert(a + new + (b + newer + c) =~= a + new + b + newer + c);
}

/// A text without changes is left alone; the changes that are made are counted.
pub proof fn law_edited(content: Seq<char>, edits: Seq<EditView>)
    ensures
        edits.len() == 0 ==> edited(content, edits) == Ok::<Option<(Seq<char>, nat)>, ErrorView>(
            None,
        ),
        edits.len() > 0 ==> (edited(content, edits) matches Ok(r) ==> (r matches Some((_, n)) && n
            == edits.len())),
{
}

/// Replacements are counted over all files.
pub proof fn law_replacements_add_up(done: Seq<(Seq<char>, nat)>, d: (Seq<char>, nat))
    ensures
        total_replacements(Seq::empty()) == 0,
        total_replacements(done.push(d)) == total_replacements(done) + d.1,
{
    assert(done.push(d).drop_last() =~= done);
}

/// What is said of a rewrite.
pub proof fn law_rewrite_answer(done: Seq<(Seq<char>, nat)>, i: int)
    requires
        total_replacements(done) <= u64::MAX,
        0 <= i < done.len(),
    ensures
        field(rewrite_answer(done), "fileCount"@) == Some(count_json(done.len())),
        field(rewrite_answer(done), "totalReplacements"@) == Some(
            count_json(total_replacements(done)),
        ),
        field(rewrite_answer(done), "replacements"@) matches Some(JsonView::Array(items))
            && items.len() == done.len() && field(items[i], "file"@) == Some(
            JsonView::String(done[i].0),
        ) && field(items[i], "replacements"@) == Some(count_json(done[i].1)),
{
    let pairs = seq![
        ("fileCount"@, count_json(done.len())),
        ("totalReplacements"@, count_json(capped(total_replacements(done) as int) as nat)),
        (
            "replacements"@,
            JsonView::Array(done.map_values(|d: (Seq<char>, nat)| rewrite_json(d))),
        ),
    ];
    let one = seq![
        ("file"@, JsonView::String(done[i].0)),
        ("replacements"@, count_json(done[i].1)),
    ];
    reveal_strlit("fileCount");
    reveal_strlit("totalReplacements");
    reveal_strlit("replacements");
    reveal_strlit("file");
    assert("fileCount"@.len() == 9);
    assert("totalReplacements"@.len() == 17);
    assert("replacements"@.len() == 12);
    assert("file"@.len() == 4);
    law_object_holds(pairs, 0, "fileCount"@);
    law_object_holds(pairs, 1, "totalReplacements"@);
    law_object_holds(pairs, 2, "replacements"@);
    law_object_holds(one, 0, "file"@);
    law_object_holds(one, 1, "replacements"@);
}

/// The language that is asked for is taken; else the one of the extension.
pub proof fn law_chosen_language(name: Seq<char>, l: Seq<char>)
    ensures
        chosen_language(Some(l), name) == l,
        extension_of(name) matches Some(e) ==> chosen_language(None, name) == language_of(e),
{
}

/// A text in no known language is left alone. One without a match stays as it is, and one that
/// cannot be searched is a fault.
pub proof fn law_text_is_rewritten(
    content: Seq<char>,
    lang: Seq<char>,
    pattern: Seq<char>,
    replacement: Seq<char>,
)
    ensures
        text_rewritten(content, ""@, pattern, replacement) == Ok::<
            Option<(Seq<char>, nat)>,
            ErrorView,
        >(None),
        lang != ""@ ==> (syntax_edits(lang, content, pattern, replacement) matches Ok(edits) ==> {
            &&& edits.len() == 0 ==> text_rewritten(content, lang, pattern, replacement) == Ok::<
                Option<(Seq<char>, nat)>,
                ErrorView,
            >(None)
            &&& text_rewritten(content, lang, pattern, replacement) matches Ok(Some(done))
                ==> edits.len() > 0 && done.1 == edits.len()
        }),
        lang != ""@ && syntax_edits(lang, content, pattern, replacement) is Err ==> text_rewritten(
            content,
            lang,
            pattern,
            replacement,
        ) is Err,
{
}

} // verus!
