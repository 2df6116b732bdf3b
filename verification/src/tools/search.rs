//! The `search` tool: finds the lines of files that match a regular expression.
//!
//! Files are scanned one by one; the matches are then sorted by file and line, the first
//! files are passed over where a page was asked for, and no more text than the budget allows
//! is returned.
use vstd::prelude::*;

use crate::error::ErrorView;
use crate::error::ToolError;
use crate::json::bool_in;
use crate::json::build_object;
use crate::json::count_json;
use crate::json::count_to_json;
use crate::json::entry;
use crate::json::field;
use crate::json::items_view;
use crate::json::law_object_holds;
use crate::json::lemma_array_view;
use crate::json::members_view;
use crate::json::nat_in;
use crate::json::object_of;
use crate::json::str_to_json;
use crate::json::string_in;
use crate::json::texts_json;
use crate::json::texts_to_json;
use crate::json::Json;
use crate::json::JsonView;
use crate::lists::law_kept;
use crate::lists::law_picked;
use crate::patterns::compile_glob;
use crate::patterns::compile_regex;
use crate::patterns::escape;
use crate::patterns::escaped;
use crate::patterns::glob_fault;
use crate::patterns::glob_is_match;
use crate::patterns::glob_matches;
use crate::patterns::glob_source;
use crate::patterns::portable_glob;
use crate::patterns::regex_fault;
use crate::patterns::regex_is_match;
use crate::patterns::regex_matches;
use crate::patterns::regex_source;
use crate::text::before;
use crate::text::byte_len;
use crate::text::bytes_in;
use crate::text::chars_of;
use crate::text::cut;
use crate::text::decimal;
use crate::text::join;
use crate::text::join_strings;
use crate::text::law_end_slashes;
use crate::text::lemma_before_total;
use crate::text::lines_chars;
use crate::text::push_decimal;
use crate::text::runs;
use crate::text::same;
use crate::text::split_words;
use crate::text::str_before;
use crate::text::string_of;
use crate::text::strip_end_slashes;
use crate::text::text_lines;
use crate::text::to_slashes;
use crate::text::views;
use crate::text::with_slashes;
use crate::text::without_end_slashes;
use crate::text::words;
use crate::tools::find::HiddenPolicy;

verus! {

/// Most matches that are ever returned of one file.
pub const MAX_PER_FILE_LIMIT: u64 = 500;

/// Most matches that are returned of one file where nothing else is asked for.
pub const DEFAULT_PER_FILE_LIMIT: u64 = 100;

/// How long a scan may take, in milliseconds.
pub const SEARCH_TIMEOUT_MS: u64 = 60_000;

/// Most characters of a matching line that are returned.
pub const MAX_LINE_CONTENT_CHARS: usize = 500;

/// Most bytes of matching lines that are returned in all.
pub const MAX_TOTAL_CONTENT_BYTES: usize = 102_400;

// ---------------------------------------------------------------------------
// The request
// ---------------------------------------------------------------------------

/// What a search is asked to do.
pub struct SearchRequest {
    /// The pattern as it was given.
    pub pattern: String,
    /// The pattern, compiled.
    pub regex: regex::Regex,
    /// Where to search: files, directories or globs.
    pub paths: Vec<String>,
    /// Whether `.gitignore` is heeded.
    pub gitignore: bool,
    /// Whether hidden directories are entered.
    pub hidden: bool,
    /// How many files with matches are passed over.
    pub skip: u64,
    /// Most matches of one file.
    pub per_file_limit: usize,
}

impl SearchRequest {
    /// Which hidden files count: all of them, or those that no hidden directory holds.
    pub fn hidden_policy(&self) -> (r: HiddenPolicy)
        ensures
            r == (if self.hidden {
                HiddenPolicy::Keep
            } else {
                HiddenPolicy::SkipDirectories
            }),
    {
        if self.hidden {
            HiddenPolicy::Keep
        } else {
            HiddenPolicy::SkipDirectories
        }
    }
}

/// A boolean of the input, with what it is where it is absent.
pub open spec fn bool_or(input: JsonView, k: Seq<char>, default: bool) -> bool {
    match bool_in(field(input, k)) {
        Some(b) => b,
        None => default,
    }
}

fn read_bool_or(input: &Json, k: &str, default: bool) -> (r: bool)
    ensures
        r == bool_or(input@, k@, default),
{
    match input.get_bool(k) {
        Some(b) => b,
        None => default,
    }
}

/// The regular expression that a pattern stands for: escaped where it is meant literally,
/// and with a flag in front where upper and lower case are the same.
pub open spec fn regex_text(pattern: Seq<char>, literal: bool, ignore_case: bool) -> Seq<char> {
    let base = if literal {
        escaped(pattern)
    } else {
        pattern
    };
    if ignore_case {
        "(?i)"@ + base
    } else {
        base
    }
}

/// What is said where the pattern is no regular expression.
pub open spec fn invalid_regex_message(
    pattern: Seq<char>,
    literal: bool,
    fault: Seq<char>,
) -> Seq<char> {
    if literal {
        "invalid regex '"@ + pattern + "' (literal mode): "@ + fault
    } else {
        "invalid regex '"@ + pattern + "': "@ + fault
            + ". 若本意是搜字面文本（含 ( ) [ ] . * ? + | \\ 等字符），请重试并加上 \"literal\": true"@
    }
}

/// The texts among the items of a list.
pub open spec fn texts_in(items: Seq<JsonView>) -> Seq<Seq<char>> {
    items.filter_map(
        |j: JsonView|
            match j {
                JsonView::String(s) => Some(s),
                _ => None,
            },
    )
}

/// The paths that a value names: a text is one, an array is those of its items that are
/// texts.
pub open spec fn paths_in(v: JsonView) -> Seq<Seq<char>> {
    match v {
        JsonView::Array(items) => texts_in(items),
        JsonView::String(s) => seq![s],
        _ => Seq::empty(),
    }
}

/// Where a search is asked to look: `paths`, else `path`, else the working directory.
pub open spec fn search_paths(input: JsonView) -> Seq<Seq<char>> {
    match field(input, "paths"@) {
        Some(v) => paths_in(v),
        None => match string_in(field(input, "path"@)) {
            Some(s) => seq![s],
            None => seq!["."@],
        },
    }
}

/// The limit per file: what is asked for, within bounds.
pub open spec fn file_limit(input: JsonView) -> nat {
    let n = match nat_in(field(input, "limit"@)) {
        Some(n) => n,
        None => DEFAULT_PER_FILE_LIMIT as nat,
    };
    if n < 1 {
        1
    } else if n > MAX_PER_FILE_LIMIT {
        MAX_PER_FILE_LIMIT as nat
    } else {
        n
    }
}

/// Upper and lower case are the same.
pub open spec fn ignores_case(input: JsonView) -> bool {
    bool_or(input, "i"@, false) || bool_or(input, "ignoreCase"@, false)
}

/// What is wrong with a request.
pub open spec fn request_fault(input: JsonView) -> Option<Seq<char>> {
    match string_in(field(input, "pattern"@)) {
        None => Some("pattern is required"@),
        Some(pattern) => if pattern.len() == 0 {
            Some("pattern must not be empty"@)
        } else {
            let literal = bool_or(input, "literal"@, false);
            match regex_fault(regex_text(pattern, literal, ignores_case(input))) {
                Some(e) => Some(invalid_regex_message(pattern, literal, e)),
                None => if search_paths(input).len() == 0 {
                    Some("paths must not be empty (use \".\" to search cwd)"@)
                } else {
                    None
                },
            }
        },
    }
}

fn read_paths(v: &Json) -> (r: Vec<String>)
    ensures
        views(r@) == paths_in(v@),
{
    let mut r: Vec<String> = Vec::new();
    match v {
        Json::Array(items) => {
            proof {
                crate::json::lemma_array_view(*items);
            }
            let ghost all = items_view(items@);
            let ghost f = |j: JsonView|
                match j {
                    JsonView::String(s) => Some(s),
                    _ => None,
                };
            let mut i: usize = 0;
            assert(all.take(0).filter_map(f) =~= Seq::<Seq<char>>::empty()) by {
                reveal_with_fuel(Seq::filter_map, 1);
            }
            assert(views(r@) =~= all.take(0).filter_map(f));
            while i < items.len()
                invariant
                    i <= items@.len(),
                    all == items_view(items@),
                    f == (|j: JsonView|
                        match j {
                            JsonView::String(s) => Some(s),
                            _ => None,
                        }),
                    views(r@) == all.take(i as int).filter_map(f),
                decreases items@.len() - i,
            {
                let ghost done = r@;
                proof {
                    all.lemma_filter_map_take_succ(f, i as int);
                    assert(all[i as int] == items@[i as int]@);
                }
                if let Json::String(s) = &items[i] {
                    r.push(s.clone());
                    assert(views(r@) =~= views(done).push(s@));
                }
                i = i + 1;
            }
            assert(all.take(all.len() as int) =~= all);
        },
        Json::String(s) => {
            r.push(s.clone());
            assert(views(r@) =~= seq![s@]);
        },
        _ => {
            assert(views(r@) =~= Seq::<Seq<char>>::empty());
        },
    }
    r
}

fn read_search_paths(input: &Json) -> (r: Vec<String>)
    ensures
        views(r@) == search_paths(input@),
{
    match input.get("paths") {
        Some(v) => read_paths(v),
        None => {
            let mut r: Vec<String> = Vec::new();
            match input.get_str("path") {
                Some(s) => {
                    r.push(s.clone());
                    assert(views(r@) =~= seq![s@]);
                },
                None => {
                    r.push(String::from_str("."));
                    assert(views(r@) =~= seq!["."@]);
                },
            }
            r
        },
    }
}

fn read_limit(input: &Json) -> (r: usize)
    ensures
        r as nat == file_limit(input@),
        1 <= r <= 500,
{
    let n: u64 = match input.get_u64("limit") {
        Some(n) => n,
        None => DEFAULT_PER_FILE_LIMIT,
    };
    if n < 1 {
        1
    } else if n > MAX_PER_FILE_LIMIT {
        500
    } else {
        n as usize
    }
}

/// The error where the pattern is no regular expression; outside literal mode it points to
/// that mode.
pub fn invalid_regex(pattern: &str, literal: bool, fault: &str) -> (r: ToolError)
    ensures
        r@ == ErrorView::Other(invalid_regex_message(pattern@, literal, fault@)),
{
    let mut m = String::from_str("invalid regex '");
    m.append(pattern);
    if literal {
        m.append("' (literal mode): ");
        m.append(fault);
    } else {
        m.append("': ");
        m.append(fault);
        m.append(
            ". 若本意是搜字面文本（含 ( ) [ ] . * ? + | \\ 等字符），请重试并加上 \"literal\": true",
        );
    }
    ToolError::Other(m)
}

/// What a search is asked to do, or what is wrong with the request.
pub fn parse_search(input: &Json) -> (r: Result<SearchRequest, ToolError>)
    ensures
        match r {
            Err(e) => request_fault(input@) is Some && e@ == ErrorView::Other(
                request_fault(input@)->0,
            ),
            Ok(q) => {
                &&& request_fault(input@) is None
                &&& string_in(field(input@, "pattern"@)) == Some(q.pattern@)
                &&& regex_source(q.regex) == regex_text(
                    q.pattern@,
                    bool_or(input@, "literal"@, false),
                    ignores_case(input@),
                )
                &&& views(q.paths@) == search_paths(input@)
                &&& q.gitignore == bool_or(input@, "gitignore"@, true)
                &&& q.hidden == bool_or(input@, "hidden"@, false)
                &&& q.skip as nat == (match nat_in(field(input@, "skip"@)) {
                    Some(n) => n,
                    None => 0,
                })
                &&& q.per_file_limit as nat == file_limit(input@)
            },
        },
{
    let pattern = match input.get_str("pattern") {
        Some(s) => s,
        None => return Err(ToolError::other("pattern is required")),
    };
    if pattern.as_str().unicode_len() == 0 {
        return Err(ToolError::other("pattern must not be empty"));
    }
    let ignore_case = read_bool_or(input, "i", false) || read_bool_or(input, "ignoreCase", false);
    let literal = read_bool_or(input, "literal", false);
    let base = if literal {
        escape(pattern.as_str())
    } else {
        pattern.clone()
    };
    let text = if ignore_case {
        let mut t = String::from_str("(?i)");
        t.append(base.as_str());
        t
    } else {
        base
    };
    let regex = match compile_regex(text.as_str()) {
        Ok(re) => re,
        Err(e) => return Err(invalid_regex(pattern.as_str(), literal, e.as_str())),
    };
    let paths = read_search_paths(input);
    assert(views(paths@).len() == paths@.len());
    if paths.len() == 0 {
        return Err(ToolError::other("paths must not be empty (use \".\" to search cwd)"));
    }
    let skip: u64 = match input.get_u64("skip") {
        Some(n) => n,
        None => 0,
    };
    Ok(
        SearchRequest {
            pattern: pattern.clone(),
            regex,
            paths,
            gitignore: read_bool_or(input, "gitignore", true),
            hidden: read_bool_or(input, "hidden", false),
            skip,
            per_file_limit: read_limit(input),
        },
    )
}

// ---------------------------------------------------------------------------
// Targets
// ---------------------------------------------------------------------------

/// The character starts a glob.
pub open spec fn is_glob_char(c: char) -> bool {
    c == '*' || c == '?' || c == '['
}

/// The position of the first character that starts a glob.
pub open spec fn glob_start(s: Seq<char>) -> Option<int>
    decreases s.len(),
{
    if s.len() == 0 {
        None
    } else {
        match glob_start(s.drop_last()) {
            Some(i) => Some(i),
            None => if is_glob_char(s.last()) {
                Some(s.len() - 1)
            } else {
                None
            },
        }
    }
}

proof fn lemma_glob_start(s: Seq<char>)
    ensures
        match glob_start(s) {
            Some(i) => 0 <= i < s.len() && is_glob_char(s[i]) && forall|k: int|
                0 <= k < i ==> !is_glob_char(#[trigger] s[k]),
            None => forall|k: int| 0 <= k < s.len() ==> !is_glob_char(#[trigger] s[k]),
        },
    decreases s.len(),
{
    if s.len() > 0 {
        let t = s.drop_last();
        lemma_glob_start(t);
        assert(forall|k: int| 0 <= k < t.len() ==> t[k] == s[k]);
    }
}

/// Where a target starts: all of it where it holds no glob, and else what stands before the
/// glob.
pub open spec fn target_root(s: Seq<char>) -> Seq<char> {
    match glob_start(s) {
        None => s,
        Some(i) => {
            let base = s.take(i);
            if base.len() == 0 || base == "."@ {
                "."@
            } else {
                without_end_slashes(base)
            }
        },
    }
}

/// The glob of a target, made to match at any depth.
pub open spec fn target_glob(s: Seq<char>) -> Option<Seq<char>> {
    match glob_start(s) {
        None => None,
        Some(i) => {
            let glob = s.skip(i);
            if "**/"@.is_prefix_of(glob) || "/"@.is_prefix_of(glob) {
                Some(glob)
            } else {
                Some("**/"@ + glob)
            }
        },
    }
}

/// The position of the first character that starts a glob.
pub fn find_glob_start(s: &[char]) -> (r: Option<usize>)
    ensures
        match r {
            Some(i) => glob_start(s@) == Some(i as int) && i < s@.len(),
            None => glob_start(s@) is None,
        },
{
    let mut i: usize = 0;
    while i < s.len()
        invariant
            i <= s@.len(),
            forall|k: int| 0 <= k < i ==> !is_glob_char(#[trigger] s@[k]),
        decreases s@.len() - i,
    {
        if s[i] == '*' || s[i] == '?' || s[i] == '[' {
            proof {
                lemma_glob_start(s@);
            }
            return Some(i);
        }
        i = i + 1;
    }
    proof {
        lemma_glob_start(s@);
    }
    None
}

/// A target taken apart: where it starts, and its glob.
pub fn split_glob(input: &str) -> (r: (String, Option<String>))
    ensures
        r.0@ == target_root(input@),
        crate::types::optional_text(r.1) == target_glob(input@),
{
    let cs = chars_of(input);
    match find_glob_start(&cs) {
        None => (String::from_str(input), None),
        Some(i) => {
            let n = cs.len();
            let base = cut(&cs, 0, i);
            let glob = cut(&cs, i, n);
            assert(base@ =~= cs@.take(i as int));
            assert(glob@ =~= cs@.skip(i as int));
            let deep = chars_of("**/");
            let rooted = chars_of("/");
            let glob_text = string_of(&glob);
            let pattern = if crate::text::starts_with(&glob, &deep) || crate::text::starts_with(
                &glob,
                &rooted,
            ) {
                glob_text
            } else {
                let mut p = String::from_str("**/");
                p.append(glob_text.as_str());
                p
            };
            let base_text = string_of(&base);
            let root = if base.len() == 0 || same(base_text.as_str(), ".") {
                String::from_str(".")
            } else {
                string_of(&strip_end_slashes(&base))
            };
            (root, Some(pattern))
        },
    }
}

/// A text in quotes.
pub open spec fn in_quotes(s: Seq<char>) -> Seq<char> {
    "\""@ + s + "\""@
}

/// What is said where one text names several paths that are all there.
pub open spec fn misuse_message(raw: Seq<char>) -> Seq<char> {
    let segs = words(raw);
    "Path not found: "@ + raw
        + " —— `path` 只接受单个路径，不支持空格分隔。这 "@
        + decimal(segs.len())
        + " 个分段单独看都存在，你要搜的应该是多个目标：请改用 paths 数组重试 → \"paths\": ["@
        + join(segs.map_values(|s: Seq<char>| in_quotes(s)), ", "@) + "]"@
}

/// What is said of a lone path that is not there: where it is several paths in one text and
/// each is there, how to name them.
pub open spec fn missing_path_message(raw: Seq<char>, segments_exist: bool) -> Seq<char> {
    if words(raw).len() >= 2 && segments_exist {
        misuse_message(raw)
    } else {
        "Path not found: "@ + raw
    }
}

fn quoted_words(segs: &Vec<String>) -> (r: String)
    ensures
        r@ == join(views(segs@).map_values(|s: Seq<char>| in_quotes(s)), ", "@),
{
    let ghost all = views(segs@).map_values(|s: Seq<char>| in_quotes(s));
    let mut out: Vec<String> = Vec::new();
    let mut i: usize = 0;
    while i < segs.len()
        invariant
            i <= segs@.len(),
            all == views(segs@).map_values(|s: Seq<char>| in_quotes(s)),
            views(out@) == all.take(i as int),
        decreases segs@.len() - i,
    {
        let ghost done = out@;
        let mut q = String::from_str("\"");
        q.append(segs[i].as_str());
        q.append("\"");
        out.push(q);
        assert(views(out@) =~= views(done).push(q@));
        assert(q@ =~= all[i as int]);
        assert(all.take(i + 1) =~= all.take(i as int).push(all[i as int]));
        i = i + 1;
    }
    assert(all.take(all.len() as int) =~= all);
    join_strings(&out, ", ")
}

/// What is said of a lone path that is not there. `segments_exist` tells whether each of
/// its white-space separated parts is there.
pub fn missing_path_error(raw: &str, segments_exist: bool) -> (r: ToolError)
    ensures
        r@ == ErrorView::Other(missing_path_message(raw@, segments_exist)),
{
    let segs = split_words(raw);
    assert(views(segs@).len() == segs@.len());
    let mut m = String::from_str("Path not found: ");
    m.append(raw);
    if segs.len() >= 2 && segments_exist {
        m.append(" —— `path` 只接受单个路径，不支持空格分隔。这 ");
        push_decimal(&mut m, segs.len() as u64);
        m.append(
            " 个分段单独看都存在，你要搜的应该是多个目标：请改用 paths 数组重试 → \"paths\": [",
        );
        m.append(quoted_words(&segs).as_str());
        m.append("]");
    }
    ToolError::Other(m)
}

/// Those of `paths` of which `exists` says `wanted`, in order.
pub open spec fn paths_where(
    paths: Seq<Seq<char>>,
    exists: Seq<bool>,
    wanted: bool,
) -> Seq<Seq<char>>
    decreases paths.len(),
{
    if paths.len() == 0 {
        Seq::empty()
    } else {
        let rest = paths_where(paths.drop_last(), exists.drop_last(), wanted);
        if exists.last() == wanted {
            rest.push(paths.last())
        } else {
            rest
        }
    }
}

/// The targets that are there and those that are not.
#[derive(Debug)]
pub struct Targets {
    /// The targets that are there.
    pub found: Vec<String>,
    /// The targets that are not.
    pub missing: Vec<String>,
}

/// Which targets are searched. A lone target that is not there is an error, and so is a list
/// of which none is there; else those that are not there are passed over.
pub fn choose_targets(paths: &Vec<String>, exists: &Vec<bool>, segments_exist: bool) -> (r: Result<
    Targets,
    ToolError,
>)
    requires
        paths@.len() == exists@.len(),
        paths@.len() > 0,
    ensures
        match r {
            Ok(t) => {
                &&& views(t.found@) == paths_where(views(paths@), exists@, true)
                &&& views(t.missing@) == paths_where(views(paths@), exists@, false)
                &&& t.found@.len() > 0
            },
            Err(e) => {
                &&& paths_where(views(paths@), exists@, true).len() == 0
                &&& e@ == ErrorView::Other(
                    if paths@.len() == 1 {
                        missing_path_message(paths@[0]@, segments_exist)
                    } else {
                        "All paths are missing: "@ + join(views(paths@), ", "@)
                    },
                )
            },
        },
{
    let ghost all = views(paths@);
    let mut found: Vec<String> = Vec::new();
    let mut missing: Vec<String> = Vec::new();
    let mut i: usize = 0;
    assert(views(found@) =~= Seq::<Seq<char>>::empty());
    while i < paths.len()
        invariant
            i <= paths@.len(),
            paths@.len() == exists@.len(),
            all == views(paths@),
            views(found@) == paths_where(all.take(i as int), exists@.take(i as int), true),
            views(missing@) == paths_where(all.take(i as int), exists@.take(i as int), false),
            found@.len() == 0 ==> missing@.len() == i && forall|k: int|
                0 <= k < i ==> #[trigger] missing@[k] == paths@[k],
        decreases paths@.len() - i,
    {
        assert(all.take(i + 1).drop_last() =~= all.take(i as int));
        assert(exists@.take(i + 1).drop_last() =~= exists@.take(i as int));
        let ghost of = found@;
        let ghost om = missing@;
        let p = paths[i].clone();
        if exists[i] {
            found.push(p);
            assert(views(found@) =~= views(of).push(p@));
        } else {
            missing.push(p);
            assert(views(missing@) =~= views(om).push(p@));
        }
        i = i + 1;
    }
    assert(all.take(all.len() as int) =~= all);
    assert(exists@.take(exists@.len() as int) =~= exists@);
    assert(views(found@).len() == found@.len());
    if found.len() > 0 {
        return Ok(Targets { found, missing });
    }
    if paths.len() == 1 {
        return Err(missing_path_error(paths[0].as_str(), segments_exist));
    }
    let mut m = String::from_str("All paths are missing: ");
    assert(views(missing@) =~= all);
    m.append(join_strings(&missing, ", ").as_str());
    Err(ToolError::Other(m))
}

/// How the place of a search is shown: with slashes, and as `.` where it is empty.
pub open spec fn scope_label(relative: Seq<char>) -> Seq<char> {
    if relative.len() == 0 {
        "."@
    } else {
        with_slashes(relative)
    }
}

/// How the place of a search is shown.
pub fn scope_path(relative: &str) -> (r: String)
    ensures
        r@ == scope_label(relative@),
{
    if relative.unicode_len() == 0 {
        String::from_str(".")
    } else {
        to_slashes(relative)
    }
}

/// Those of the files of which `flags` says yes, in order.
pub fn keep_flagged(files: &Vec<String>, flags: &Vec<bool>) -> (r: Vec<String>)
    requires
        files@.len() == flags@.len(),
    ensures
        views(r@) == paths_where(views(files@), flags@, true),
{
    let ghost all = views(files@);
    let mut r: Vec<String> = Vec::new();
    let mut i: usize = 0;
    assert(views(r@) =~= Seq::<Seq<char>>::empty());
    while i < files.len()
        invariant
            i <= files@.len(),
            files@.len() == flags@.len(),
            all == views(files@),
            views(r@) == paths_where(all.take(i as int), flags@.take(i as int), true),
        decreases files@.len() - i,
    {
        assert(all.take(i + 1).drop_last() =~= all.take(i as int));
        assert(flags@.take(i + 1).drop_last() =~= flags@.take(i as int));
        let ghost done = r@;
        if flags[i] {
            let f = files[i].clone();
            r.push(f);
            assert(views(r@) =~= views(done).push(f@));
        }
        i = i + 1;
    }
    assert(all.take(all.len() as int) =~= all);
    assert(flags@.take(flags@.len() as int) =~= flags@);
    r
}

/// The files that the glob of a target lets through: all of them where it has none, or one
/// that is no valid glob. `escape` tells whether a backslash in the glob escapes the character
/// that follows it, as it does where it does not separate the components of a path.
pub fn files_of_target(files: &Vec<String>, glob: &Option<String>, escape: bool) -> (r: Vec<String>)
    ensures
        glob is None ==> views(r@) == views(files@),
        glob is Some && portable_glob(glob->0@, escape) && glob_fault(glob->0@) is Some ==> views(
            r@,
        ) == views(files@),
        exists|flags: Seq<bool>|
            flags.len() == files@.len() && views(r@) == #[trigger] paths_where(
                views(files@),
                flags,
                true,
            ) && (glob is Some && portable_glob(glob->0@, escape) && glob_fault(glob->0@) is None
                ==> forall|i: int|
                0 <= i < files@.len() && !files@[i]@.contains('\\') ==> #[trigger] flags[i]
                    == glob_matches(glob->0@, files@[i]@)),
{
    let mut flags: Vec<bool> = Vec::new();
    let compiled = match glob {
        Some(g) => match compile_glob(g.as_str(), escape) {
            Ok(g) => Some(g),
            Err(_) => None,
        },
        None => None,
    };
    let mut i: usize = 0;
    while i < files.len()
        invariant
            i <= files@.len(),
            flags@.len() == i,
            compiled is None ==> forall|k: int| 0 <= k < i ==> #[trigger] flags@[k],
            compiled is Some ==> glob is Some && glob_source(compiled->0) == (glob->0@, escape),
            compiled is Some && portable_glob(glob->0@, escape) ==> forall|k: int|
                0 <= k < i && !files@[k]@.contains('\\') ==> #[trigger] flags@[k] == glob_matches(
                    glob->0@,
                    files@[k]@,
                ),
        decreases files@.len() - i,
    {
        let keep = match &compiled {
            Some(g) => glob_is_match(g, files[i].as_str()),
            None => true,
        };
        flags.push(keep);
        i = i + 1;
    }
    let r = keep_flagged(files, &flags);
    proof {
        if compiled is None {
            lemma_all_flagged(views(files@), flags@);
        }
        assert(paths_where(views(files@), flags@, true) == views(r@));
    }
    r
}

proof fn lemma_all_flagged(paths: Seq<Seq<char>>, flags: Seq<bool>)
    requires
        paths.len() == flags.len(),
        forall|k: int| 0 <= k < flags.len() ==> #[trigger] flags[k],
    ensures
        paths_where(paths, flags, true) == paths,
    decreases paths.len(),
{
    if paths.len() > 0 {
        let f = flags.drop_last();
        assert forall|k: int| 0 <= k < f.len() implies #[trigger] f[k] by {
            assert(f[k] == flags[k]);
        }
        lemma_all_flagged(paths.drop_last(), f);
        assert(flags[flags.len() - 1]);
        assert(paths.drop_last().push(paths.last()) =~= paths);
    } else {
        assert(paths_where(paths, flags, true) =~= paths);
    }
}

// ---------------------------------------------------------------------------
// Scanning a file
// ---------------------------------------------------------------------------

/// A matching line.
#[derive(Debug, Clone)]
pub struct MatchHit {
    /// The file, relative to the working directory.
    pub file: String,
    /// Its number, counted from 1.
    pub line: u64,
    /// Its text, cut where it is too long.
    pub content: String,
}

/// The model of a matching line.
pub struct HitView {
    /// The file.
    pub file: Seq<char>,
    /// The number of the line.
    pub line: nat,
    /// The text of the line.
    pub content: Seq<char>,
}

impl View for MatchHit {
    type V = HitView;

    open spec fn view(&self) -> HitView {
        HitView { file: self.file@, line: self.line as nat, content: self.content@ }
    }
}

/// The models of a list of matching lines.
pub open spec fn hits_view(v: Seq<MatchHit>) -> Seq<HitView> {
    v.map_values(|h: MatchHit| h@)
}

/// What a scan has found so far.
#[derive(Debug)]
pub struct ScanOutput {
    /// The matching lines.
    pub hits: Vec<MatchHit>,
    /// How many files were looked at.
    pub files_scanned: u64,
    /// Whether something was left out: matches of a file beyond its limit, or the end of a
    /// long line.
    pub truncated: bool,
}

impl ScanOutput {
    /// A scan that has not started.
    pub fn new() -> (r: Self)
        ensures
            r.hits@.len() == 0,
            r.files_scanned == 0,
            !r.truncated,
    {
        ScanOutput { hits: Vec::new(), files_scanned: 0, truncated: false }
    }
}

/// The text of a matching line that is returned.
pub open spec fn shown_line(s: Seq<char>) -> Seq<char> {
    if s.len() <= MAX_LINE_CONTENT_CHARS {
        s
    } else {
        s.take(MAX_LINE_CONTENT_CHARS as int) + "…[行过长已截断，共 "@ + decimal(s.len())
            + " 字符]"@
    }
}

/// The text of a matching line that is returned, and whether it was cut.
pub fn truncate_line_content(s: &Vec<char>) -> (r: (String, bool))
    ensures
        r.0@ == shown_line(s@),
        r.1 == (s@.len() > MAX_LINE_CONTENT_CHARS),
{
    if s.len() <= MAX_LINE_CONTENT_CHARS {
        return (string_of(s), false);
    }
    let head = cut(s, 0, MAX_LINE_CONTENT_CHARS);
    assert(head@ =~= s@.take(MAX_LINE_CONTENT_CHARS as int));
    let mut r = string_of(&head);
    r.append("…[行过长已截断，共 ");
    push_decimal(&mut r, s.len() as u64);
    r.append(" 字符]");
    (r, true)
}

/// The positions (counted from 0) of those lines of which `flags` says yes.
pub open spec fn flagged(flags: Seq<bool>) -> Seq<int>
    decreases flags.len(),
{
    if flags.len() == 0 {
        Seq::empty()
    } else if flags.last() {
        flagged(flags.drop_last()).push(flags.len() - 1)
    } else {
        flagged(flags.drop_last())
    }
}

/// The first `limit` of the flagged positions.
pub open spec fn first_flagged(flags: Seq<bool>, limit: nat) -> Seq<int> {
    if flagged(flags).len() <= limit {
        flagged(flags)
    } else {
        flagged(flags).take(limit as int)
    }
}

/// Which lines match.
pub open spec fn line_flags(lines: Seq<Seq<char>>, pattern: Seq<char>) -> Seq<bool> {
    lines.map_values(|l: Seq<char>| regex_matches(pattern, l))
}

/// The matching lines of a file, given which of its lines match.
pub open spec fn hits_at(
    file: Seq<char>,
    lines: Seq<Seq<char>>,
    flags: Seq<bool>,
    limit: nat,
) -> Seq<HitView> {
    first_flagged(flags, limit).map_values(
        |i: int| HitView { file, line: (i + 1) as nat, content: shown_line(lines[i]) },
    )
}

/// Something of a file is left out: matches beyond the limit, or the end of a long line.
pub open spec fn cut_short(lines: Seq<Seq<char>>, flags: Seq<bool>, limit: nat) -> bool {
    ||| flagged(flags).len() > limit
    ||| exists|k: int|
        0 <= k < first_flagged(flags, limit).len() && lines[#[trigger] first_flagged(
            flags,
            limit,
        )[k]].len() > MAX_LINE_CONTENT_CHARS
}

/// The positions (counted from 0) of the first `limit` flagged lines, and whether there are
/// more.
pub fn pick_lines(flags: &Vec<bool>, limit: usize) -> (r: (Vec<usize>, bool))
    ensures
        r.0@.map_values(|i: usize| i as int) == first_flagged(flags@, limit as nat),
        r.1 == (flagged(flags@).len() > limit),
        forall|k: int| 0 <= k < r.0@.len() ==> #[trigger] r.0@[k] < flags@.len(),
{
    let mut hits: Vec<usize> = Vec::new();
    let mut i: usize = 0;
    assert(hits@.map_values(|i: usize| i as int) =~= flagged(flags@.take(0)));
    while i < flags.len()
        invariant
            i <= flags@.len(),
            hits@.len() <= limit,
            hits@.map_values(|i: usize| i as int) == flagged(flags@.take(i as int)),
            forall|k: int| 0 <= k < hits@.len() ==> #[trigger] hits@[k] < flags@.len(),
        decreases flags@.len() - i,
    {
        assert(flags@.take(i + 1).drop_last() =~= flags@.take(i as int));
        let ghost done = hits@;
        if flags[i] {
            if hits.len() >= limit {
                proof {
                    lemma_flagged_grows(flags@, i + 1);
                    let m = hits@.map_values(|i: usize| i as int);
                    assert(m.len() == hits@.len());
                    assert(flagged(flags@.take(i + 1)).take(limit as int) =~= m);
                    lemma_flagged_prefix(flags@, i + 1);
                    assert(first_flagged(flags@, limit as nat) =~= m);
                }
                return (hits, true);
            }
            hits.push(i);
            assert(hits@.map_values(|i: usize| i as int) =~= done.map_values(
                |i: usize| i as int,
            ).push(i as int));
        }
        i = i + 1;
    }
    assert(flags@.take(flags@.len() as int) =~= flags@);
    assert(hits@.map_values(|i: usize| i as int).len() == hits@.len());
    (hits, false)
}

proof fn lemma_flagged_grows(flags: Seq<bool>, n: int)
    requires
        0 <= n <= flags.len(),
    ensures
        flagged(flags.take(n)).len() <= flagged(flags).len(),
    decreases flags.len() - n,
{
    if n < flags.len() {
        assert(flags.take(n + 1).drop_last() =~= flags.take(n));
        lemma_flagged_grows(flags, n + 1);
    } else {
        assert(flags.take(n) =~= flags);
    }
}

proof fn lemma_flagged_prefix(flags: Seq<bool>, n: int)
    requires
        0 <= n <= flags.len(),
    ensures
        flagged(flags.take(n)).is_prefix_of(flagged(flags)),
    decreases flags.len() - n,
{
    if n < flags.len() {
        assert(flags.take(n + 1).drop_last() =~= flags.take(n));
        lemma_flagged_prefix(flags, n + 1);
        let a = flagged(flags.take(n));
        let b = flagged(flags.take(n + 1));
        let c = flagged(flags);
        assert(a =~= b.take(a.len() as int));
        assert(a =~= c.take(a.len() as int));
    } else {
        assert(flags.take(n) =~= flags);
        assert(flagged(flags) =~= flagged(flags).take(flagged(flags).len() as int));
    }
}

/// The positions that are flagged are in range and ascend.
pub proof fn lemma_flagged_in_range(flags: Seq<bool>)
    ensures
        forall|k: int|
            0 <= k < flagged(flags).len() ==> 0 <= #[trigger] flagged(flags)[k] < flags.len()
                && flags[flagged(flags)[k]],
        forall|a: int, b: int|
            0 <= a < b < flagged(flags).len() ==> #[trigger] flagged(flags)[a]
                < #[trigger] flagged(flags)[b],
    decreases flags.len(),
{
    if flags.len() > 0 {
        let rest = flags.drop_last();
        lemma_flagged_in_range(rest);
        let t = flagged(rest);
        let f = flagged(flags);
        assert(forall|k: int| 0 <= k < t.len() ==> f[k] == t[k]);
        assert forall|k: int| 0 <= k < f.len() implies 0 <= #[trigger] f[k] < flags.len()
            && flags[f[k]] by {
            if k < t.len() {
                assert(f[k] == t[k]);
                assert(rest[t[k]]);
            }
        }
        assert forall|a: int, b: int| 0 <= a < b < f.len() implies #[trigger] f[a]
            < #[trigger] f[b] by {
            assert(f[a] == t[a]);
            if b < t.len() {
                assert(f[b] == t[b]);
            }
        }
    }
}

/// Of one file no more matches are reported than the limit allows, each of a line that
/// matches, in ascending order.
pub proof fn law_hits_of_file(
    file: Seq<char>,
    content: Seq<char>,
    pattern: Seq<char>,
    limit: nat,
    k: int,
)
    requires
        0 <= k < hits_of_file(file, Some(content), pattern, limit).len(),
    ensures
        ({
            let hits = hits_of_file(file, Some(content), pattern, limit);
            let lines = text_lines(content);
            &&& hits.len() <= limit
            &&& hits[k].file == file
            &&& 1 <= hits[k].line <= lines.len()
            &&& regex_matches(pattern, lines[hits[k].line - 1])
            &&& hits[k].content == shown_line(lines[hits[k].line - 1])
            &&& k > 0 ==> hits[k - 1].line < hits[k].line
        }),
{
    let flags = line_flags(text_lines(content), pattern);
    lemma_flagged_in_range(flags);
    let f = first_flagged(flags, limit);
    assert(f[k] == flagged(flags)[k]);
    assert(flags[f[k]]);
    if k > 0 {
        assert(f[k - 1] == flagged(flags)[k - 1]);
    }
}

/// Adds the matching lines of a file to a scan, given which of its lines match.
pub fn add_hits(
    out: &mut ScanOutput,
    file: &str,
    lines: &Vec<Vec<char>>,
    flags: &Vec<bool>,
    limit: usize,
)
    requires
        lines@.len() == flags@.len(),
        lines@.len() < u64::MAX,
    ensures
        hits_view(final(out).hits@) == hits_view(old(out).hits@) + hits_at(
            file@,
            runs(lines@),
            flags@,
            limit as nat,
        ),
        final(out).truncated == (old(out).truncated || cut_short(
            runs(lines@),
            flags@,
            limit as nat,
        )),
        final(out).files_scanned == old(out).files_scanned,
{
    let ghost lv = runs(lines@);
    let (picked, more) = pick_lines(flags, limit);
    let ghost pv = first_flagged(flags@, limit as nat);
    let ghost want = hits_at(file@, lv, flags@, limit as nat);
    let ghost start = hits_view(out.hits@);
    assert(pv == picked@.map_values(|i: usize| i as int));
    if more {
        out.truncated = true;
    }
    let ghost first_cut = out.truncated;
    let mut i: usize = 0;
    assert(hits_view(out.hits@) =~= start + want.take(0));
    while i < picked.len()
        invariant
            i <= picked@.len(),
            lines@.len() == flags@.len(),
            lines@.len() < u64::MAX,
            lv == runs(lines@),
            pv == picked@.map_values(|i: usize| i as int),
            pv.len() == picked@.len(),
            want == pv.map_values(
                |i: int|
                    HitView { file: file@, line: (i + 1) as nat, content: shown_line(lv[i]) },
            ),
            forall|k: int| 0 <= k < picked@.len() ==> #[trigger] picked@[k] < flags@.len(),
            hits_view(out.hits@) == start + want.take(i as int),
            out.files_scanned == old(out).files_scanned,
            out.truncated == (first_cut || exists|k: int|
                0 <= k < i && lv[#[trigger] pv[k]].len() > MAX_LINE_CONTENT_CHARS),
        decreases picked@.len() - i,
    {
        let at = picked[i];
        assert(pv[i as int] == at as int);
        assert(lv[at as int] == lines@[at as int]@);
        let ghost done = out.hits@;
        let (content, was_cut) = truncate_line_content(&lines[at]);
        if was_cut {
            out.truncated = true;
        }
        let hit = MatchHit { file: String::from_str(file), line: at as u64 + 1, content };
        out.hits.push(hit);
        assert(hits_view(out.hits@) =~= hits_view(done).push(hit@));
        assert(want.take(i + 1) =~= want.take(i as int).push(want[i as int]));
        i = i + 1;
    }
    assert(want.take(want.len() as int) =~= want);
}

/// What a file adds to a scan: the lines that match, of a file that can be read as text.
pub open spec fn hits_of_file(
    file: Seq<char>,
    content: Option<Seq<char>>,
    pattern: Seq<char>,
    limit: nat,
) -> Seq<HitView> {
    match content {
        None => Seq::empty(),
        Some(c) => hits_at(file, text_lines(c), line_flags(text_lines(c), pattern), limit),
    }
}

/// Scans a file, which is known by its text; `None` stands for one that cannot be read as
/// text.
pub fn scan_file(
    out: &mut ScanOutput,
    file: &str,
    content: Option<&str>,
    regex: &regex::Regex,
    limit: usize,
)
    requires
        old(out).files_scanned < u64::MAX,
        content matches Some(c) ==> c@.len() < u64::MAX,
    ensures
        hits_view(final(out).hits@) == hits_view(old(out).hits@) + hits_of_file(
            file@,
            match content {
                Some(c) => Some(c@),
                None => None,
            },
            regex_source(*regex),
            limit as nat,
        ),
        final(out).files_scanned == old(out).files_scanned + 1,
        final(out).truncated == (old(out).truncated || (content matches Some(c) && cut_short(
            text_lines(c@),
            line_flags(text_lines(c@), regex_source(*regex)),
            limit as nat,
        ))),
{
    out.files_scanned = out.files_scanned + 1;
    let text = match content {
        None => {
            assert(hits_view(old(out).hits@) + Seq::<HitView>::empty() =~= hits_view(
                old(out).hits@,
            ));
            return ;
        },
        Some(c) => c,
    };
    let cs = chars_of(text);
    let lines = lines_chars(&cs);
    let ghost lv = text_lines(text@);
    let ghost pattern = regex_source(*regex);
    let ghost want = line_flags(lv, pattern);
    proof {
        lemma_lines_bound(text@);
    }
    let mut flags: Vec<bool> = Vec::new();
    let mut i: usize = 0;
    while i < lines.len()
        invariant
            i <= lines@.len(),
            lv == runs(lines@),
            pattern == regex_source(*regex),
            want == line_flags(lv, pattern),
            flags@ == want.take(i as int),
        decreases lines@.len() - i,
    {
        assert(lv[i as int] == lines@[i as int]@);
        let line = string_of(&lines[i]);
        flags.push(regex_is_match(regex, line.as_str()));
        assert(want.take(i + 1) =~= want.take(i as int).push(want[i as int]));
        i = i + 1;
    }
    assert(want.take(want.len() as int) =~= want);
    add_hits(out, file, &lines, &flags, limit);
}

proof fn lemma_split_bound(s: Seq<char>, c: char)
    ensures
        split_on_len(s, c) <= s.len() + 1,
    decreases s.len(),
{
    if s.len() > 0 {
        lemma_split_bound(s.drop_last(), c);
        crate::text::lemma_split_nonempty(s.drop_last(), c);
    }
}

spec fn split_on_len(s: Seq<char>, c: char) -> nat {
    crate::text::split_on(s, c).len()
}

proof fn lemma_lines_bound(s: Seq<char>)
    ensures
        text_lines(s).len() <= s.len(),
    decreases s.len(),
{
    lemma_split_bound(s, '\n');
    crate::text::lemma_split_nonempty(s, '\n');
    let pieces = crate::text::split_on(s, '\n');
    if pieces.last().len() > 0 {
        let head = s.drop_last();
        if s.len() > 0 {
            lemma_split_bound(head, '\n');
            crate::text::lemma_split_nonempty(head, '\n');
        }
    }
}

// ---------------------------------------------------------------------------
// Sorting, paging, budget
// ---------------------------------------------------------------------------

/// The order of matches: by file, then by line.
pub open spec fn hit_before(a: HitView, b: HitView) -> bool {
    before(a.file, b.file) || (a.file == b.file && a.line < b.line)
}

/// `sorted` with `x` put before the last run of matches that come after it.
pub open spec fn insert_hit(sorted: Seq<HitView>, x: HitView) -> Seq<HitView>
    decreases sorted.len(),
{
    if sorted.len() == 0 || !hit_before(x, sorted.last()) {
        sorted.push(x)
    } else {
        insert_hit(sorted.drop_last(), x).push(sorted.last())
    }
}

/// The matches by file and line; those of the same line keep their order.
pub open spec fn sorted_hits(v: Seq<HitView>) -> Seq<HitView>
    decreases v.len(),
{
    if v.len() == 0 {
        Seq::empty()
    } else {
        insert_hit(sorted_hits(v.drop_last()), v.last())
    }
}

/// No match comes before one that stands ahead of it.
pub open spec fn hits_in_order(v: Seq<HitView>) -> bool {
    forall|i: int, j: int| 0 <= i < j < v.len() ==> !hit_before(#[trigger] v[j], #[trigger] v[i])
}

proof fn lemma_hit_before(a: HitView, b: HitView, c: HitView)
    ensures
        hit_before(a, b) ==> !hit_before(b, a),
        !hit_before(b, a) && !hit_before(c, b) ==> !hit_before(c, a),
{
    crate::text::lemma_before_total(a.file, b.file);
    crate::text::lemma_before_total(b.file, c.file);
    crate::text::lemma_before_total(a.file, c.file);
    if before(a.file, b.file) && before(b.file, c.file) {
        crate::text::lemma_before_transitive(a.file, b.file, c.file);
    }
}

proof fn lemma_insert_hit(sorted: Seq<HitView>, x: HitView)
    requires
        hits_in_order(sorted),
    ensures
        hits_in_order(insert_hit(sorted, x)),
        insert_hit(sorted, x).to_multiset() == sorted.to_multiset().insert(x),
        insert_hit(sorted, x).len() == sorted.len() + 1,
        forall|i: int|
            0 <= i < insert_hit(sorted, x).len() ==> (#[trigger] insert_hit(sorted, x)[i] == x
                || sorted.contains(insert_hit(sorted, x)[i])),
    decreases sorted.len(),
{
    broadcast use vstd::seq_lib::group_to_multiset_ensures;

    let r = insert_hit(sorted, x);
    if sorted.len() == 0 {
    } else if !hit_before(x, sorted.last()) {
        assert forall|i: int, j: int| 0 <= i < j < r.len() implies !hit_before(
            #[trigger] r[j],
            #[trigger] r[i],
        ) by {
            if j == sorted.len() {
                if i < sorted.len() - 1 {
                    assert(!hit_before(sorted[sorted.len() - 1], sorted[i]));
                    lemma_hit_before(sorted[i], sorted.last(), x);
                }
            } else {
                assert(r[i] == sorted[i] && r[j] == sorted[j]);
            }
        }
        assert forall|i: int| 0 <= i < r.len() implies (#[trigger] r[i] == x || sorted.contains(
            r[i],
        )) by {
            if i < sorted.len() {
                assert(r[i] == sorted[i]);
            }
        }
    } else {
        let t = sorted.drop_last();
        let last = sorted.last();
        assert(hits_in_order(t)) by {
            assert forall|i: int, j: int| 0 <= i < j < t.len() implies !hit_before(
                #[trigger] t[j],
                #[trigger] t[i],
            ) by {
                assert(t[i] == sorted[i] && t[j] == sorted[j]);
            }
        }
        lemma_insert_hit(t, x);
        let q = insert_hit(t, x);
        assert(r == q.push(last));
        assert(sorted =~= t.push(last));
        assert forall|i: int, j: int| 0 <= i < j < r.len() implies !hit_before(
            #[trigger] r[j],
            #[trigger] r[i],
        ) by {
            if j == q.len() {
                assert(r[i] == q[i]);
                if q[i] == x {
                    lemma_hit_before(x, last, last);
                } else {
                    let k = choose|k: int| 0 <= k < t.len() && t[k] == q[i];
                    assert(t[k] == sorted[k]);
                    assert(!hit_before(sorted[sorted.len() - 1], sorted[k]));
                }
            } else {
                assert(r[i] == q[i] && r[j] == q[j]);
            }
        }
        assert forall|i: int| 0 <= i < r.len() implies (#[trigger] r[i] == x || sorted.contains(
            r[i],
        )) by {
            if i < q.len() {
                assert(r[i] == q[i]);
                if q[i] != x {
                    let k = choose|k: int| 0 <= k < t.len() && t[k] == q[i];
                    assert(sorted[k] == q[i]);
                }
            } else {
                assert(sorted[sorted.len() - 1] == r[i]);
            }
        }
        assert(r.to_multiset() =~= sorted.to_multiset().insert(x));
    }
}

/// Sorting puts the matches in order by file and line, and neither adds nor loses one.
pub proof fn law_sorted_hits(v: Seq<HitView>)
    ensures
        hits_in_order(sorted_hits(v)),
        sorted_hits(v).to_multiset() == v.to_multiset(),
        sorted_hits(v).len() == v.len(),
    decreases v.len(),
{
    broadcast use vstd::seq_lib::group_to_multiset_ensures;

    if v.len() > 0 {
        law_sorted_hits(v.drop_last());
        lemma_insert_hit(sorted_hits(v.drop_last()), v.last());
        assert(v =~= v.drop_last().push(v.last()));
    } else {
        assert(sorted_hits(v) =~= v);
    }
}

proof fn lemma_insert_hit_at(sorted: Seq<HitView>, x: HitView, p: int)
    requires
        0 <= p <= sorted.len(),
        p > 0 ==> !hit_before(x, sorted[p - 1]),
        forall|i: int| p <= i < sorted.len() ==> hit_before(x, #[trigger] sorted[i]),
    ensures
        insert_hit(sorted, x) == sorted.insert(p, x),
    decreases sorted.len(),
{
    if p == sorted.len() {
        assert(sorted.push(x) =~= sorted.insert(p, x));
    } else {
        assert(hit_before(x, sorted[sorted.len() - 1]));
        let t = sorted.drop_last();
        assert forall|i: int| p <= i < t.len() implies hit_before(x, #[trigger] t[i]) by {
            assert(t[i] == sorted[i]);
        }
        lemma_insert_hit_at(t, x, p);
        assert(t.insert(p, x).push(sorted.last()) =~= sorted.insert(p, x));
    }
}

fn comes_first(a: &MatchHit, b: &MatchHit) -> (r: bool)
    ensures
        r == hit_before(a@, b@),
{
    str_before(a.file.as_str(), b.file.as_str()) || (same(a.file.as_str(), b.file.as_str())
        && a.line < b.line)
}

/// The matches by file and line.
pub fn sort_hits(v: Vec<MatchHit>) -> (r: Vec<MatchHit>)
    ensures
        hits_view(r@) == sorted_hits(hits_view(v@)),
        r@.len() == v@.len(),
{
    let ghost all = hits_view(v@);
    let ghost source = v@;
    let mut r: Vec<MatchHit> = Vec::new();
    assert(hits_view(r@) =~= sorted_hits(all.take(0)));
    for x in it: v
        invariant
            it.seq() == source,
            all == hits_view(source),
            r@.len() == it.index(),
            hits_view(r@) == sorted_hits(all.take(it.index())),
    {
        let ghost i = it.index();
        let ghost rv = hits_view(r@);
        let mut p: usize = r.len();
        while p > 0 && comes_first(&x, &r[p - 1])
            invariant
                p <= r@.len(),
                rv == hits_view(r@),
                forall|k: int| p <= k < r@.len() ==> hit_before(x@, #[trigger] rv[k]),
            decreases p,
        {
            assert(rv[p - 1] == r@[p - 1]@);
            p = p - 1;
        }
        proof {
            if p > 0 {
                assert(rv[p - 1] == r@[p - 1]@);
            }
            lemma_insert_hit_at(rv, x@, p as int);
            assert(all.take(i + 1).drop_last() =~= all.take(i));
            assert(all.take(i + 1).last() == x@);
        }
        let ghost xv = x@;
        r.insert(p, x);
        assert(hits_view(r@) =~= rv.insert(p as int, xv));
    }
    assert(all.take(all.len() as int) =~= all);
    r
}

/// The files of the matches, each once, in the order in which they first come.
pub open spec fn files_of(hits: Seq<HitView>) -> Seq<Seq<char>>
    decreases hits.len(),
{
    if hits.len() == 0 {
        Seq::empty()
    } else {
        let files = files_of(hits.drop_last());
        if files.contains(hits.last().file) {
            files
        } else {
            files.push(hits.last().file)
        }
    }
}

/// The files of the matches, each once.
pub fn list_files(hits: &Vec<MatchHit>) -> (r: Vec<String>)
    ensures
        views(r@) == files_of(hits_view(hits@)),
{
    let ghost all = hits_view(hits@);
    let mut r: Vec<String> = Vec::new();
    let mut i: usize = 0;
    assert(views(r@) =~= files_of(all.take(0)));
    while i < hits.len()
        invariant
            i <= hits@.len(),
            all == hits_view(hits@),
            views(r@) == files_of(all.take(i as int)),
        decreases hits@.len() - i,
    {
        assert(all.take(i + 1).drop_last() =~= all.take(i as int));
        assert(all.take(i + 1).last() == hits@[i as int]@);
        let ghost done = r@;
        if !crate::text::listed(&r, hits[i].file.as_str()) {
            let f = hits[i].file.clone();
            r.push(f);
            assert(views(r@) =~= views(done).push(f@));
        }
        i = i + 1;
    }
    assert(all.take(all.len() as int) =~= all);
    r
}

/// The first `n` of the files, or all where there are fewer.
pub open spec fn first_files(files: Seq<Seq<char>>, n: nat) -> Seq<Seq<char>> {
    if n < files.len() {
        files.take(n as int)
    } else {
        files
    }
}

/// The matches without those of the first `skip` files.
pub open spec fn page(hits: Seq<HitView>, skip: nat) -> Seq<HitView> {
    hits.filter(|h: HitView| !first_files(files_of(hits), skip).contains(h.file))
}

/// The matches without those of the first `skip` files.
pub fn skip_files(hits: Vec<MatchHit>, files: &Vec<String>, skip: u64) -> (r: Vec<MatchHit>)
    requires
        views(files@) == files_of(hits_view(hits@)),
    ensures
        hits_view(r@) == page(hits_view(hits@), skip as nat),
{
    let ghost all = hits_view(hits@);
    let ghost source = hits@;
    let n: usize = if skip < files.len() as u64 {
        skip as usize
    } else {
        files.len()
    };
    let mut passed: Vec<String> = Vec::new();
    let mut i: usize = 0;
    while i < n
        invariant
            i <= n <= files@.len(),
            passed@ == files@.take(i as int),
        decreases n - i,
    {
        passed.push(files[i].clone());
        i = i + 1;
    }
    let ghost gone = first_files(files_of(all), skip as nat);
    assert(views(passed@) =~= gone);
    let ghost pred = |h: HitView| !gone.contains(h.file);
    let mut r: Vec<MatchHit> = Vec::new();
    assert(hits_view(r@) =~= all.take(0).filter(pred)) by {
        reveal(Seq::filter);
    }
    for h in it: hits
        invariant
            it.seq() == source,
            all == hits_view(source),
            views(passed@) == gone,
            pred == (|h: HitView| !gone.contains(h.file)),
            hits_view(r@) == all.take(it.index()).filter(pred),
    {
        let ghost k = it.index();
        let ghost done = r@;
        proof {
            assert(all.take(k + 1) =~= all.take(k).push(all[k]));
            all.take(k).lemma_filter_push(all[k], pred);
            assert(all[k] == h@);
        }
        if !crate::text::listed(&passed, h.file.as_str()) {
            let ghost hv = h@;
            r.push(h);
            assert(hits_view(r@) =~= hits_view(done).push(hv));
        }
    }
    assert(all.take(all.len() as int) =~= all);
    assert(all.filter(pred) == page(all, skip as nat));
    r
}

/// How many bytes the texts of the matches take.
pub open spec fn total_bytes(hits: Seq<HitView>) -> nat
    decreases hits.len(),
{
    if hits.len() == 0 {
        0
    } else {
        total_bytes(hits.drop_last()) + byte_len(hits.last().content)
    }
}

/// The longest run of first matches whose texts fit in the budget.
pub open spec fn within_budget(hits: Seq<HitView>) -> Seq<HitView>
    decreases hits.len(),
{
    if hits.len() == 0 || total_bytes(hits) <= MAX_TOTAL_CONTENT_BYTES {
        hits
    } else {
        within_budget(hits.drop_last())
    }
}

proof fn lemma_within_budget(hits: Seq<HitView>, n: int)
    requires
        0 <= n < hits.len(),
        total_bytes(hits.take(n)) <= MAX_TOTAL_CONTENT_BYTES,
        total_bytes(hits.take(n + 1)) > MAX_TOTAL_CONTENT_BYTES,
    ensures
        within_budget(hits) == hits.take(n),
    decreases hits.len(),
{
    if n + 1 == hits.len() {
        assert(hits.take(n + 1) =~= hits);
        assert(hits.drop_last() =~= hits.take(n));
        assert(within_budget(hits.take(n)) == hits.take(n));
    } else {
        let t = hits.drop_last();
        assert(t.take(n) =~= hits.take(n));
        assert(t.take(n + 1) =~= hits.take(n + 1));
        lemma_within_budget(t, n);
        lemma_total_grows(hits, n + 1);
    }
}

proof fn lemma_total_grows(hits: Seq<HitView>, n: int)
    requires
        0 <= n <= hits.len(),
    ensures
        total_bytes(hits.take(n)) <= total_bytes(hits),
    decreases hits.len(),
{
    if n < hits.len() {
        let t = hits.drop_last();
        assert(t.take(n) =~= hits.take(n));
        lemma_total_grows(t, n);
    } else {
        assert(hits.take(n) =~= hits);
    }
}

/// The longest run of first matches whose texts fit in the budget, and whether any was left
/// out.
pub fn apply_budget(hits: Vec<MatchHit>) -> (r: (Vec<MatchHit>, bool))
    ensures
        hits_view(r.0@) == within_budget(hits_view(hits@)),
        r.1 == (total_bytes(hits_view(hits@)) > MAX_TOTAL_CONTENT_BYTES),
{
    let ghost all = hits_view(hits@);
    let ghost source = hits@;
    let mut r: Vec<MatchHit> = Vec::new();
    let mut left: usize = MAX_TOTAL_CONTENT_BYTES;
    let mut over = false;
    assert(hits_view(r@) =~= all.take(0));
    for h in it: hits
        invariant
            it.seq() == source,
            all == hits_view(source),
            !over ==> {
                &&& hits_view(r@) == all.take(it.index())
                &&& left == MAX_TOTAL_CONTENT_BYTES - total_bytes(all.take(it.index()))
            },
            over ==> {
                &&& hits_view(r@) == within_budget(all)
                &&& total_bytes(all) > MAX_TOTAL_CONTENT_BYTES
            },
    {
        let ghost k = it.index();
        let ghost done = r@;
        assert(all.take(k + 1).drop_last() =~= all.take(k));
        assert(all.take(k + 1).last() == h@);
        if !over {
            let bytes = bytes_in(h.content.as_str());
            if bytes > left {
                proof {
                    lemma_within_budget(all, k);
                    lemma_total_grows(all, k + 1);
                }
                over = true;
            } else {
                left = left - bytes;
                let ghost hv = h@;
                r.push(h);
                assert(hits_view(r@) =~= hits_view(done).push(hv));
                assert(all.take(k).push(all[k]) =~= all.take(k + 1));
            }
        }
    }
    assert(all.take(all.len() as int) =~= all);
    (r, over)
}

/// What a search returns.
#[derive(Debug)]
pub struct SearchOutput {
    /// The first place that was searched, relative to the working directory.
    pub scope_path: String,
    /// The pattern as it was given.
    pub pattern: String,
    /// How many files the returned matches are in.
    pub file_count: usize,
    /// How many files have matches, before paging.
    pub total_file_count: usize,
    /// How many matches are returned.
    pub total_matches: usize,
    /// How many files were looked at.
    pub files_searched: u64,
    /// The matches.
    pub matches: Vec<MatchHit>,
    /// Whether something was left out.
    pub truncated: bool,
    /// The targets that are not there.
    pub missing_paths: Vec<String>,
}

/// The matches that are returned of all that were found: those of the asked page, as far as
/// the budget allows.
pub open spec fn returned_hits(hits: Seq<HitView>, skip: nat) -> Seq<HitView> {
    within_budget(page(sorted_hits(hits), skip))
}

/// What a finished search says of the matches.
pub struct AnswerView {
    /// The matches.
    pub matches: Seq<HitView>,
    /// How many they are.
    pub total_matches: nat,
    /// How many files they are in.
    pub file_count: nat,
    /// How many files have matches, before paging.
    pub total_file_count: nat,
    /// Whether something was left out.
    pub truncated: bool,
}

/// What is said of the matches that a scan found; `cut` tells whether it left something out.
pub open spec fn search_answer(hits: Seq<HitView>, cut: bool, skip: nat) -> AnswerView {
    let matches = returned_hits(hits, skip);
    AnswerView {
        matches,
        total_matches: matches.len(),
        file_count: files_of(matches).len(),
        total_file_count: files_of(sorted_hits(hits)).len(),
        truncated: cut || total_bytes(page(sorted_hits(hits), skip)) > MAX_TOTAL_CONTENT_BYTES,
    }
}

impl SearchOutput {
    /// What is said of the matches.
    pub open spec fn said(&self) -> AnswerView {
        AnswerView {
            matches: hits_view(self.matches@),
            total_matches: self.total_matches as nat,
            file_count: self.file_count as nat,
            total_file_count: self.total_file_count as nat,
            truncated: self.truncated,
        }
    }
}

/// What a search returns of what its scan found.
pub fn finish_search(
    scan: ScanOutput,
    skip: u64,
    scope_path: String,
    pattern: String,
    missing_paths: Vec<String>,
) -> (r: SearchOutput)
    ensures
        r.said() == search_answer(hits_view(scan.hits@), scan.truncated, skip as nat),
        r.files_searched == scan.files_scanned,
        r.scope_path == scope_path,
        r.pattern == pattern,
        r.missing_paths == missing_paths,
{
    let hits = sort_hits(scan.hits);
    let files = list_files(&hits);
    assert(views(files@).len() == files@.len());
    let paged = skip_files(hits, &files, skip);
    let (matches, over) = apply_budget(paged);
    let kept = list_files(&matches);
    assert(views(kept@).len() == kept@.len());
    assert(hits_view(matches@).len() == matches@.len());
    SearchOutput {
        scope_path,
        pattern,
        file_count: kept.len(),
        total_file_count: files.len(),
        total_matches: matches.len(),
        files_searched: scan.files_scanned,
        matches,
        truncated: scan.truncated || over,
        missing_paths,
    }
}

/// Paging passes over whole files: no returned match is of one of the first `skip` files.
pub proof fn law_page_skips_whole_files(hits: Seq<HitView>, skip: nat, k: int)
    requires
        0 <= k < page(hits, skip).len(),
    ensures
        !first_files(files_of(hits), skip).contains(page(hits, skip)[k].file),
        hits.contains(page(hits, skip)[k]),
{
    let pred = |h: HitView| !first_files(files_of(hits), skip).contains(h.file);
    broadcast use vstd::seq_lib::group_filter_ensures;

    assert(hits.filter(pred) == page(hits, skip));
    hits.lemma_filter_contains_rev(pred, page(hits, skip)[k]);
}

/// A match of any file but the first `skip` ones is on the page.
pub proof fn law_page_keeps_other_files(hits: Seq<HitView>, skip: nat, k: int)
    requires
        0 <= k < hits.len(),
        !first_files(files_of(hits), skip).contains(hits[k].file),
    ensures
        page(hits, skip).contains(hits[k]),
{
    let pred = |h: HitView| !first_files(files_of(hits), skip).contains(h.file);
    broadcast use vstd::seq_lib::group_filter_ensures;

    assert(hits.filter(pred) == page(hits, skip));
}

/// Without a `skip` the page holds every match.
pub proof fn law_first_page_is_whole(hits: Seq<HitView>)
    ensures
        page(hits, 0) == hits,
{
    let pred = |h: HitView| !first_files(files_of(hits), 0).contains(h.file);
    assert forall|h: HitView| #[trigger] pred(h) by {
        assert(first_files(files_of(hits), 0).len() == 0);
    }
    lemma_filter_all(hits, pred);
}

proof fn lemma_filter_all(hits: Seq<HitView>, pred: spec_fn(HitView) -> bool)
    requires
        forall|h: HitView| #[trigger] pred(h),
    ensures
        hits.filter(pred) == hits,
    decreases hits.len(),
{
    reveal(Seq::filter);
    if hits.len() > 0 {
        lemma_filter_all(hits.drop_last(), pred);
        assert(hits.drop_last().push(hits.last()) =~= hits);
    } else {
        assert(hits.filter(pred) =~= hits);
    }
}

/// The texts that are returned never take more than the budget.
pub proof fn law_budget_is_kept(hits: Seq<HitView>)
    ensures
        total_bytes(within_budget(hits)) <= MAX_TOTAL_CONTENT_BYTES,
        within_budget(hits).is_prefix_of(hits),
    decreases hits.len(),
{
    if hits.len() > 0 && total_bytes(hits) > MAX_TOTAL_CONTENT_BYTES {
        law_budget_is_kept(hits.drop_last());
        let w = within_budget(hits.drop_last());
        assert(w =~= hits.drop_last().take(w.len() as int));
        assert(w =~= hits.take(w.len() as int));
    } else {
        assert(hits =~= hits.take(hits.len() as int));
    }
}

proof fn lemma_filter_in_order(v: Seq<HitView>, pred: spec_fn(HitView) -> bool)
    requires
        hits_in_order(v),
    ensures
        hits_in_order(v.filter(pred)),
        forall|i: int| 0 <= i < v.filter(pred).len() ==> v.contains(#[trigger] v.filter(pred)[i]),
    decreases v.len(),
{
    reveal(Seq::filter);
    let w = v.filter(pred);
    if v.len() > 0 {
        let rest = v.drop_last();
        let d = rest.filter(pred);
        assert(hits_in_order(rest)) by {
            assert forall|i: int, j: int| 0 <= i < j < rest.len() implies !hit_before(
                #[trigger] rest[j],
                #[trigger] rest[i],
            ) by {
                assert(rest[i] == v[i] && rest[j] == v[j]);
            }
        }
        lemma_filter_in_order(rest, pred);
        assert forall|i: int| 0 <= i < w.len() implies v.contains(#[trigger] w[i]) by {
            if i < d.len() {
                assert(w[i] == d[i]);
                let k = choose|k: int| 0 <= k < rest.len() && rest[k] == d[i];
                assert(v[k] == w[i]);
            } else {
                assert(w[i] == v[v.len() - 1]);
            }
        }
        assert forall|i: int, j: int| 0 <= i < j < w.len() implies !hit_before(
            #[trigger] w[j],
            #[trigger] w[i],
        ) by {
            assert(w[i] == d[i]);
            if j < d.len() {
                assert(w[j] == d[j]);
            } else {
                let k = choose|k: int| 0 <= k < rest.len() && rest[k] == d[i];
                assert(v[k] == w[i]);
                assert(w[j] == v[v.len() - 1]);
            }
        }
    }
}

/// The matches that are returned are in order by file and line.
pub proof fn law_returned_in_order(hits: Seq<HitView>, skip: nat)
    ensures
        hits_in_order(returned_hits(hits, skip)),
{
    let all = sorted_hits(hits);
    law_sorted_hits(hits);
    lemma_filter_in_order(all, |h: HitView| !first_files(files_of(all), skip).contains(h.file));
    let p = page(all, skip);
    law_budget_is_kept(p);
    let w = within_budget(p);
    assert forall|i: int, j: int| 0 <= i < j < w.len() implies !hit_before(
        #[trigger] w[j],
        #[trigger] w[i],
    ) by {
        assert(w[i] == p[i] && w[j] == p[j]);
    }
}

/// The files of matches are those that a match is in, each once.
pub proof fn law_files_of(hits: Seq<HitView>, file: Seq<char>)
    ensures
        files_of(hits).no_duplicates(),
        files_of(hits).contains(file) == exists|k: int|
            0 <= k < hits.len() && (#[trigger] hits[k]).file == file,
    decreases hits.len(),
{
    if hits.len() > 0 {
        let rest = hits.drop_last();
        let x = hits.last().file;
        let less = files_of(rest);
        let more = files_of(hits);
        law_files_of(rest, file);
        assert(hits[hits.len() - 1].file == x);
        if less.contains(file) {
            let k = choose|k: int| 0 <= k < rest.len() && (#[trigger] rest[k]).file == file;
            assert(hits[k].file == file);
            if !less.contains(x) {
                let m = choose|m: int| 0 <= m < less.len() && less[m] == file;
                assert(more[m] == file);
            }
        }
        if file == x && !less.contains(x) {
            assert(more[less.len() as int] == x);
        }
        if more.contains(file) && file != x {
            let m = choose|m: int| 0 <= m < more.len() && more[m] == file;
            assert(less[m] == file);
        }
        if exists|k: int| 0 <= k < hits.len() && (#[trigger] hits[k]).file == file {
            let k = choose|k: int| 0 <= k < hits.len() && (#[trigger] hits[k]).file == file;
            if k < rest.len() {
                assert(rest[k].file == file);
            }
        }
        if !less.contains(x) {
            assert forall|i: int, j: int| 0 <= i < j < more.len() implies more[i] != more[j] by {
                if j == less.len() {
                    assert(less.contains(less[i]));
                }
            }
        }
    }
}

/// What the answer of a search says: the matches are in order by file and line, all counts
/// are right, the texts keep to the budget, what is left out is told, and how many files have
/// matches is the same on every page.
pub proof fn law_search_answer(
    hits: Seq<HitView>,
    cut: bool,
    skip: nat,
    other: nat,
    file: Seq<char>,
)
    ensures
        ({
            let a = search_answer(hits, cut, skip);
            let on_page = page(sorted_hits(hits), skip);
            &&& hits_in_order(a.matches)
            &&& a.total_matches == a.matches.len()
            &&& a.file_count == files_of(a.matches).len()
            &&& files_of(a.matches).no_duplicates()
            &&& files_of(a.matches).contains(file) == exists|k: int|
                0 <= k < a.matches.len() && (#[trigger] a.matches[k]).file == file
            &&& total_bytes(a.matches) <= MAX_TOTAL_CONTENT_BYTES
            &&& a.matches.is_prefix_of(on_page)
            &&& a.truncated == (cut || a.matches != on_page)
            &&& a.total_file_count == search_answer(hits, cut, other).total_file_count
        }),
{
    let on_page = page(sorted_hits(hits), skip);
    law_returned_in_order(hits, skip);
    law_budget_is_kept(on_page);
    law_files_of(returned_hits(hits, skip), file);
}

/// A matching line as JSON.
pub open spec fn hit_json(h: HitView) -> JsonView {
    JsonView::Object(
        object_of(
            seq![
                ("file"@, JsonView::String(h.file)),
                ("line"@, count_json(h.line)),
                ("content"@, JsonView::String(h.content)),
            ],
        ),
    )
}

fn describe_hits(hits: &Vec<MatchHit>) -> (r: Json)
    ensures
        r@ == JsonView::Array(hits_view(hits@).map_values(|h: HitView| hit_json(h))),
{
    let mut items: Vec<Json> = Vec::new();
    let n = hits.len();
    let mut i: usize = 0;
    while i < n
        invariant
            i <= n,
            n == hits@.len(),
            items@.len() == i,
            forall|k: int| 0 <= k < i ==> (#[trigger] items@[k])@ == hit_json(hits@[k]@),
        decreases n - i,
    {
        let h = &hits[i];
        let mut pairs: Vec<(String, Json)> = Vec::new();
        pairs.push(entry("file", str_to_json(h.file.as_str())));
        pairs.push(entry("line", count_to_json(h.line)));
        pairs.push(entry("content", str_to_json(h.content.as_str())));
        assert(members_view(pairs@) =~= seq![
            ("file"@, JsonView::String(h@.file)),
            ("line"@, count_json(h@.line)),
            ("content"@, JsonView::String(h@.content)),
        ]);
        items.push(build_object(pairs));
        i = i + 1;
    }
    proof {
        lemma_array_view(items);
        assert(items_view(items@) =~= hits_view(hits@).map_values(|h: HitView| hit_json(h)));
    }
    Json::Array(items)
}

impl SearchOutput {
    /// The answer as JSON.
    pub open spec fn answer(&self) -> JsonView {
        JsonView::Object(
            object_of(
                seq![
                    ("scopePath"@, JsonView::String(self.scope_path@)),
                    ("pattern"@, JsonView::String(self.pattern@)),
                    ("fileCount"@, count_json(self.file_count as nat)),
                    ("totalFileCount"@, count_json(self.total_file_count as nat)),
                    ("totalMatches"@, count_json(self.total_matches as nat)),
                    ("filesSearched"@, count_json(self.files_searched as nat)),
                    (
                        "matches"@,
                        JsonView::Array(
                            hits_view(self.matches@).map_values(|h: HitView| hit_json(h)),
                        ),
                    ),
                    ("truncated"@, JsonView::Bool(self.truncated)),
                    ("missingPaths"@, texts_json(views(self.missing_paths@))),
                ],
            ),
        )
    }

    /// The answer as JSON.
    pub fn to_json(&self) -> (r: Json)
        ensures
            r@ == self.answer(),
    {
        let mut pairs: Vec<(String, Json)> = Vec::new();
        pairs.push(entry("scopePath", str_to_json(self.scope_path.as_str())));
        pairs.push(entry("pattern", str_to_json(self.pattern.as_str())));
        pairs.push(entry("fileCount", count_to_json(self.file_count as u64)));
        pairs.push(entry("totalFileCount", count_to_json(self.total_file_count as u64)));
        pairs.push(entry("totalMatches", count_to_json(self.total_matches as u64)));
        pairs.push(entry("filesSearched", count_to_json(self.files_searched)));
        pairs.push(entry("matches", describe_hits(&self.matches)));
        pairs.push(entry("truncated", Json::Bool(self.truncated)));
        pairs.push(entry("missingPaths", texts_to_json(&self.missing_paths)));
        assert(members_view(pairs@) =~= seq![
            ("scopePath"@, JsonView::String(self.scope_path@)),
            ("pattern"@, JsonView::String(self.pattern@)),
            ("fileCount"@, count_json(self.file_count as nat)),
            ("totalFileCount"@, count_json(self.total_file_count as nat)),
            ("totalMatches"@, count_json(self.total_matches as nat)),
            ("filesSearched"@, count_json(self.files_searched as nat)),
            (
                "matches"@,
                JsonView::Array(hits_view(self.matches@).map_values(|h: HitView| hit_json(h))),
            ),
            ("truncated"@, JsonView::Bool(self.truncated)),
            ("missingPaths"@, texts_json(views(self.missing_paths@))),
        ]);
        build_object(pairs)
    }
}

// ---------------------------------------------------------------------------
// What a search finds
// ---------------------------------------------------------------------------

proof fn lemma_flagged_all(flags: Seq<bool>, i: int)
    requires
        0 <= i < flags.len(),
        flags[i],
    ensures
        flagged(flags).contains(i),
    decreases flags.len(),
{
    let d = flags.drop_last();
    if i < d.len() {
        lemma_flagged_all(d, i);
        let k = choose|k: int| 0 <= k < flagged(d).len() && flagged(d)[k] == i;
        assert(flagged(flags)[k] == i);
    } else {
        assert(flagged(flags)[flagged(d).len() as int] == i);
    }
}

/// Of one file the first matching lines are reported, up to the limit: a matching line is left
/// out only where as many matching lines as the limit allows stand before it.
pub proof fn law_first_matches_are_found(
    file: Seq<char>,
    content: Seq<char>,
    pattern: Seq<char>,
    limit: nat,
    n: int,
)
    requires
        1 <= n <= text_lines(content).len(),
        regex_matches(pattern, text_lines(content)[n - 1]),
    ensures
        ({
            let hits = hits_of_file(file, Some(content), pattern, limit);
            &&& hits.len() < limit ==> exists|k: int|
                0 <= k < hits.len() && (#[trigger] hits[k]).line == n
            &&& (forall|k: int| 0 <= k < hits.len() ==> (#[trigger] hits[k]).line != n)
                ==> hits.len() == limit && forall|k: int|
                0 <= k < hits.len() ==> (#[trigger] hits[k]).line < n
        }),
{
    let flags = line_flags(text_lines(content), pattern);
    let hits = hits_of_file(file, Some(content), pattern, limit);
    let all = flagged(flags);
    let f = first_flagged(flags, limit);
    lemma_flagged_in_range(flags);
    lemma_flagged_all(flags, n - 1);
    let j = choose|j: int| 0 <= j < all.len() && all[j] == n - 1;
    if j < f.len() {
        assert(f[j] == all[j]);
        assert(hits[j].line == n);
    } else {
        assert forall|k: int| 0 <= k < hits.len() implies (#[trigger] hits[k]).line < n by {
            assert(f[k] == all[k]);
            assert(all[k] < all[j]);
        }
    }
}

/// A file that cannot be read has no matches.
pub proof fn law_unreadable_file_has_no_matches(file: Seq<char>, pattern: Seq<char>, limit: nat)
    ensures
        hits_of_file(file, None, pattern, limit).len() == 0,
{
}

/// A line is shown as it is where it has at most 500 characters; of a longer one the first 500
/// are shown, with a note of how many it has.
pub proof fn law_shown_line(s: Seq<char>)
    ensures
        s.len() <= 500 ==> shown_line(s) == s,
        s.len() > 500 ==> s.take(500).is_prefix_of(shown_line(s)) && shown_line(s).skip(500)
            == "…[行过长已截断，共 "@ + decimal(s.len()) + " 字符]"@,
{
    if s.len() > 500 {
        let head = s.take(500);
        let tail = "…[行过长已截断，共 "@ + decimal(s.len()) + " 字符]"@;
        let t = shown_line(s);
        assert(t =~= head + tail);
        assert(t.take(500) =~= head);
        assert(t.skip(500) =~= tail);
    }
}

/// Something of a file is left out exactly where it has more matching lines than the limit
/// allows, or where a line that is reported is too long to be shown whole.
pub proof fn law_what_is_cut_short(content: Seq<char>, pattern: Seq<char>, limit: nat)
    ensures
        ({
            let lines = text_lines(content);
            let hits = hits_of_file(Seq::empty(), Some(content), pattern, limit);
            cut_short(lines, line_flags(lines, pattern), limit) <==> flagged(
                line_flags(lines, pattern),
            ).len() > limit || exists|k: int|
                0 <= k < hits.len() && lines[(#[trigger] hits[k]).line - 1].len() > 500
        }),
{
    let lines = text_lines(content);
    let flags = line_flags(lines, pattern);
    let hits = hits_of_file(Seq::empty(), Some(content), pattern, limit);
    let f = first_flagged(flags, limit);
    lemma_flagged_in_range(flags);
    assert forall|k: int| 0 <= k < hits.len() implies (#[trigger] hits[k]).line - 1 == f[k] by {
        assert(f[k] == flagged(flags)[k]);
    }
    if exists|k: int| 0 <= k < f.len() && lines[#[trigger] f[k]].len() > MAX_LINE_CONTENT_CHARS {
        let k = choose|k: int|
            0 <= k < f.len() && lines[#[trigger] f[k]].len() > MAX_LINE_CONTENT_CHARS;
        assert(lines[hits[k].line - 1].len() > 500);
    }
    if exists|k: int| 0 <= k < hits.len() && lines[(#[trigger] hits[k]).line - 1].len() > 500 {
        let k = choose|k: int|
            0 <= k < hits.len() && lines[(#[trigger] hits[k]).line - 1].len() > 500;
        assert(lines[f[k]].len() > MAX_LINE_CONTENT_CHARS);
    }
}

/// Matches are returned by file, and those of one file by line.
pub proof fn law_order_of_matches(hits: Seq<HitView>, skip: nat, i: int, j: int)
    requires
        0 <= i < j < returned_hits(hits, skip).len(),
    ensures
        ({
            let a = returned_hits(hits, skip)[i];
            let b = returned_hits(hits, skip)[j];
            &&& a.file == b.file || before(a.file, b.file)
            &&& a.file == b.file ==> a.line <= b.line
        }),
{
    law_returned_in_order(hits, skip);
    let a = returned_hits(hits, skip)[i];
    let b = returned_hits(hits, skip)[j];
    assert(!hit_before(b, a));
    lemma_before_total(a.file, b.file);
}

/// A page leaves out the matches of the first `skip` files with matches, in the order in which
/// the files come, and those alone.
pub proof fn law_page_by_files(hits: Seq<HitView>, skip: nat, k: int, n: int)
    requires
        0 <= k < hits.len(),
        0 <= n < files_of(hits).len(),
        hits[k].file == files_of(hits)[n],
    ensures
        page(hits, skip).contains(hits[k]) <==> n >= skip,
{
    let files = files_of(hits);
    law_files_of(hits, hits[k].file);
    let first = first_files(files, skip);
    let pred = |h: HitView| !first.contains(h.file);
    law_kept(hits, pred, hits[k]);
    assert(hits.contains(hits[k]));
    if n < skip {
        assert(first[n] == hits[k].file);
    } else if first.contains(hits[k].file) {
        let m = choose|m: int| 0 <= m < first.len() && first[m] == hits[k].file;
        assert(files[m] == files[n]);
    }
}

/// The files come in the order of their first matches.
pub proof fn law_files_in_order(hits: Seq<HitView>, h: HitView)
    ensures
        files_of(Seq::<HitView>::empty()) == Seq::<Seq<char>>::empty(),
        (forall|k: int| 0 <= k < hits.len() ==> (#[trigger] hits[k]).file != h.file) ==> files_of(
            hits.push(h),
        ) == files_of(hits).push(h.file),
        (exists|k: int| 0 <= k < hits.len() && (#[trigger] hits[k]).file == h.file) ==> files_of(
            hits.push(h),
        ) == files_of(hits),
{
    assert(hits.push(h).drop_last() =~= hits);
    law_files_of(hits, h.file);
}

/// As many matches are returned as the budget of 100 KiB allows: all of them where they fit, and
/// else no more could be added.
pub proof fn law_budget_is_used(hits: Seq<HitView>)
    ensures
        total_bytes(hits) <= 102400 ==> within_budget(hits) == hits,
        within_budget(hits).len() < hits.len() ==> total_bytes(
            hits.take(within_budget(hits).len() as int + 1),
        ) > 102400,
    decreases hits.len(),
{
    if hits.len() > 0 && total_bytes(hits) > 102400 {
        let d = hits.drop_last();
        law_budget_is_used(d);
        law_budget_is_kept(d);
        let n = within_budget(d).len();
        if n < d.len() {
            assert(hits.take(n as int + 1) =~= d.take(n as int + 1));
        } else {
            assert(hits.take(n as int + 1) =~= hits);
        }
    }
}

/// The bytes of matches are those of their texts.
pub proof fn law_bytes_add_up(hits: Seq<HitView>, h: HitView)
    ensures
        total_bytes(Seq::empty()) == 0,
        total_bytes(hits.push(h)) == total_bytes(hits) + byte_len(h.content),
{
    assert(hits.push(h).drop_last() =~= hits);
}

/// Of each file 1 to 500 matches are reported, as asked for, and 100 where nothing is.
pub proof fn law_file_limit(input: JsonView, n: nat)
    ensures
        1 <= file_limit(input) <= 500,
        field(input, "limit"@) is None ==> file_limit(input) == 100,
        nat_in(field(input, "limit"@)) == Some(n) && 1 <= n <= 500 ==> file_limit(input) == n,
        nat_in(field(input, "limit"@)) == Some(n) && n > 500 ==> file_limit(input) == 500,
{
}

/// Where to search: the texts under `paths`, or the one text there; without `paths`, the text
/// under `path`, and without that the working directory.
pub proof fn law_search_paths(input: JsonView, s: Seq<char>)
    ensures
        field(input, "paths"@) == Some(JsonView::String(s)) ==> search_paths(input) == seq![s],
        field(input, "paths"@) matches Some(JsonView::Array(items)) ==> (search_paths(
            input,
        ).contains(s) <==> items.contains(JsonView::String(s))),
        field(input, "paths"@) is None && field(input, "path"@) == Some(JsonView::String(s))
            ==> search_paths(input) == seq![s],
        field(input, "paths"@) is None && field(input, "path"@) is None ==> search_paths(input)
            == seq!["."@],
{
    if let Some(JsonView::Array(items)) = field(input, "paths"@) {
        let f = |j: JsonView|
            match j {
                JsonView::String(s) => Some(s),
                _ => None,
            };
        law_picked(items, f, s);
        if items.contains(JsonView::String(s)) {
            let i = choose|i: int| 0 <= i < items.len() && items[i] == JsonView::String(s);
            assert(f(items[i]) == Some(s));
        }
        if search_paths(input).contains(s) {
            let i = choose|i: int| 0 <= i < items.len() && f(#[trigger] items[i]) == Some(s);
            assert(items[i] == JsonView::String(s));
        }
    }
}

/// Case is ignored where `i` or `ignoreCase` says so, and else it counts.
pub proof fn law_case_of_a_search(input: JsonView)
    ensures
        field(input, "i"@) == Some(JsonView::Bool(true)) ==> ignores_case(input),
        field(input, "ignoreCase"@) == Some(JsonView::Bool(true)) ==> ignores_case(input),
        field(input, "i"@) is None && field(input, "ignoreCase"@) is None ==> !ignores_case(input),
{
}

/// The pattern is searched for as it is; in literal mode with what is special in it escaped; and
/// with the flag before it that makes case not count, where it is to be ignored.
pub proof fn law_regex_text(pattern: Seq<char>)
    ensures
        regex_text(pattern, false, false) == pattern,
        regex_text(pattern, true, false) == escaped(pattern),
        regex_text(pattern, false, true) == "(?i)"@ + pattern,
        regex_text(pattern, true, true) == "(?i)"@ + escaped(pattern),
{
}

/// A search is refused exactly without a pattern, with an empty one or one that is no regular
/// expression, and without a place to search.
pub proof fn law_refused_searches(input: JsonView)
    ensures
        request_fault(input) is None <==> (field(
            input,
            "pattern"@,
        ) matches Some(JsonView::String(p)) && p.len() > 0 && regex_fault(
            regex_text(p, bool_or(input, "literal"@, false), ignores_case(input)),
        ) is None && search_paths(input).len() > 0),
{
}

/// The first character of a glob is the first of `*`, `?` and `[`.
pub proof fn law_glob_start(s: Seq<char>)
    ensures
        match glob_start(s) {
            Some(i) => 0 <= i < s.len() && (s[i] == '*' || s[i] == '?' || s[i] == '[')
                && forall|k: int|
                0 <= k < i ==> (#[trigger] s[k]) != '*' && s[k] != '?' && s[k] != '[',
            None => forall|k: int|
                0 <= k < s.len() ==> (#[trigger] s[k]) != '*' && s[k] != '?' && s[k] != '[',
        },
    decreases s.len(),
{
    if s.len() > 0 {
        let d = s.drop_last();
        law_glob_start(d);
        assert forall|k: int| 0 <= k < d.len() implies s[k] == d[k] by {}
        if glob_start(d) is None {
            assert forall|k: int| 0 <= k < d.len() implies (#[trigger] s[k]) != '*' && s[k] != '?'
                && s[k] != '[' by {
                assert(d[k] == s[k]);
            }
        }
    }
}

/// A target without a glob is its own root. One with a glob is searched from the directory before
/// the glob, the working directory where there is none, and the glob reaches any depth.
#[verifier::rlimit(50)]
pub proof fn law_targets(root: Seq<char>, glob: Seq<char>)
    requires
        forall|k: int|
            0 <= k < root.len() ==> (#[trigger] root[k]) != '*' && root[k] != '?' && root[k] != '[',
        glob.len() > 0,
        glob[0] == '*' || glob[0] == '?' || glob[0] == '[',
    ensures
        target_root(root) == root,
        target_glob(root) is None,
        root.len() > 0 && root.last() != '/' && root != "."@ ==> target_root(
            root + seq!['/'] + glob,
        ) == root,
        target_root(glob) == "."@,
        !"**/"@.is_prefix_of(glob) ==> target_glob(root + seq!['/'] + glob) == Some(
            "**/"@ + glob,
        ),
        "**/"@.is_prefix_of(glob) ==> target_glob(root + seq!['/'] + glob) == Some(glob),
{
    law_glob_start(root);
    law_glob_start(glob);
    reveal_strlit("/");
    let s = root + seq!['/'] + glob;
    law_glob_start(s);
    let at = root.len() as int + 1;
    assert(s[at] == glob[0]);
    assert(glob_start(s) == Some(at)) by {
        match glob_start(s) {
            Some(i) => {
                if i < root.len() {
                    assert(s[i] == root[i]);
                } else if i < at {
                    assert(s[i] == '/');
                } else if i > at {
                    assert(s[at] != glob[0]);
                }
            },
            None => {
                assert(s[at] != '*');
            },
        }
    }
    assert(glob_start(glob) == Some(0int));
    assert(glob.take(0) =~= Seq::<char>::empty());
    assert(s.skip(at) =~= glob);
    let base = s.take(at);
    assert(base =~= root.push('/'));
    if root.len() > 0 && root.last() != '/' && root != "."@ {
        law_end_slashes(base);
        assert(base.drop_last() =~= root);
        assert(without_end_slashes(base) == without_end_slashes(root));
        assert(without_end_slashes(root) == root);
        reveal_strlit(".");
        assert(base[base.len() - 1] == '/');
        assert(base != "."@) by {
            if base == "."@ {
                assert("."@[0] == '/');
            }
        }
    }
    assert(!"/"@.is_prefix_of(glob)) by {
        assert("/"@.len() == 1 && "/"@[0] == '/');
        if "/"@.is_prefix_of(glob) {
            assert(glob.take(1)[0] == '/');
        }
    }
}

/// The paths that are there, and those that are not, make up all paths, each under one of the
/// two, in order.
pub proof fn law_paths_where(paths: Seq<Seq<char>>, found: Seq<bool>, p: Seq<char>, here: bool)
    requires
        paths.len() == found.len(),
    ensures
        paths_where(Seq::empty(), Seq::empty(), true).len() == 0,
        here ==> paths_where(paths.push(p), found.push(here), true) == paths_where(
            paths,
            found,
            true,
        ).push(p) && paths_where(paths.push(p), found.push(here), false) == paths_where(
            paths,
            found,
            false,
        ),
        !here ==> paths_where(paths.push(p), found.push(here), true) == paths_where(
            paths,
            found,
            true,
        ) && paths_where(paths.push(p), found.push(here), false) == paths_where(
            paths,
            found,
            false,
        ).push(p),
{
    assert(paths.push(p).drop_last() =~= paths);
    assert(found.push(here).drop_last() =~= found);
}

/// A path that is not there is told as not found; one that looks like several paths, each of
/// which is there, is told to be given as a list.
pub proof fn law_missing_path(raw: Seq<char>)
    ensures
        missing_path_message(raw, false) == "Path not found: "@ + raw,
        words(raw).len() < 2 ==> missing_path_message(raw, true) == "Path not found: "@ + raw,
        words(raw).len() >= 2 ==> missing_path_message(raw, true) == misuse_message(raw),
{
}

/// What is said of a match.
pub proof fn law_match_answer(h: HitView)
    ensures
        field(hit_json(h), "file"@) == Some(JsonView::String(h.file)),
        field(hit_json(h), "line"@) == Some(count_json(h.line)),
        field(hit_json(h), "content"@) == Some(JsonView::String(h.content)),
{
    let pairs = seq![
        ("file"@, JsonView::String(h.file)),
        ("line"@, count_json(h.line)),
        ("content"@, JsonView::String(h.content)),
    ];
    reveal_strlit("file");
    reveal_strlit("line");
    reveal_strlit("content");
    assert("file"@.len() == 4);
    assert("line"@.len() == 4);
    assert("content"@.len() == 7);
    assert("file"@[0] != "line"@[0]);
    law_object_holds(pairs, 0, "file"@);
    law_object_holds(pairs, 1, "line"@);
    law_object_holds(pairs, 2, "content"@);
}

/// What is said of a search.
#[verifier::rlimit(50)]
pub proof fn law_search_json(o: SearchOutput, k: int)
    ensures
        field(o.answer(), "scopePath"@) == Some(JsonView::String(o.scope_path@)),
        field(o.answer(), "pattern"@) == Some(JsonView::String(o.pattern@)),
        field(o.answer(), "fileCount"@) == Some(count_json(o.file_count as nat)),
        field(o.answer(), "totalFileCount"@) == Some(count_json(o.total_file_count as nat)),
        field(o.answer(), "totalMatches"@) == Some(count_json(o.total_matches as nat)),
        field(o.answer(), "filesSearched"@) == Some(count_json(o.files_searched as nat)),
        field(o.answer(), "truncated"@) == Some(JsonView::Bool(o.truncated)),
        field(o.answer(), "missingPaths"@) == Some(texts_json(views(o.missing_paths@))),
        field(o.answer(), "matches"@) matches Some(JsonView::Array(items)) && items.len()
            == o.matches@.len() && (0 <= k < items.len() ==> items[k] == hit_json(
            o.matches@[k]@,
        )),
{
    let pairs = seq![
        ("scopePath"@, JsonView::String(o.scope_path@)),
        ("pattern"@, JsonView::String(o.pattern@)),
        ("fileCount"@, count_json(o.file_count as nat)),
        ("totalFileCount"@, count_json(o.total_file_count as nat)),
        ("totalMatches"@, count_json(o.total_matches as nat)),
        ("filesSearched"@, count_json(o.files_searched as nat)),
        (
            "matches"@,
            JsonView::Array(hits_view(o.matches@).map_values(|h: HitView| hit_json(h))),
        ),
        ("truncated"@, JsonView::Bool(o.truncated)),
        ("missingPaths"@, texts_json(views(o.missing_paths@))),
    ];
    reveal_strlit("scopePath");
    reveal_strlit("pattern");
    reveal_strlit("fileCount");
    reveal_strlit("totalFileCount");
    reveal_strlit("totalMatches");
    reveal_strlit("filesSearched");
    reveal_strlit("matches");
    reveal_strlit("truncated");
    reveal_strlit("missingPaths");
    assert("scopePath"@.len() == 9);
    assert("pattern"@.len() == 7);
    assert("fileCount"@.len() == 9);
    assert("totalFileCount"@.len() == 14);
    assert("totalMatches"@.len() == 12);
    assert("filesSearched"@.len() == 13);
    assert("matches"@.len() == 7);
    assert("truncated"@.len() == 9);
    assert("missingPaths"@.len() == 12);
    assert("scopePath"@[0] != "fileCount"@[0]);
    assert("scopePath"@[0] != "truncated"@[0]);
    assert("pattern"@[0] != "matches"@[0]);
    assert("fileCount"@[0] != "truncated"@[0]);
    assert("totalMatches"@[0] != "missingPaths"@[0]);
    law_object_holds(pairs, 0, "scopePath"@);
    law_object_holds(pairs, 1, "pattern"@);
    law_object_holds(pairs, 2, "fileCount"@);
    law_object_holds(pairs, 3, "totalFileCount"@);
    law_object_holds(pairs, 4, "totalMatches"@);
    law_object_holds(pairs, 5, "filesSearched"@);
    law_object_holds(pairs, 6, "matches"@);
    law_object_holds(pairs, 7, "truncated"@);
    law_object_holds(pairs, 8, "missingPaths"@);
}

/// Of the items of an array the texts are taken, in their order; what is no text is passed over.
pub proof fn law_texts_in(items: Seq<JsonView>, item: JsonView)
    ensures
        texts_in(Seq::empty()) == Seq::<Seq<char>>::empty(),
        texts_in(items.push(item)) == match item {
            JsonView::String(s) => texts_in(items).push(s),
            _ => texts_in(items),
        },
{
    reveal(Seq::filter_map);
    assert(items.push(item).drop_last() =~= items);
}

/// A search of the whole working directory is told as a dot, and any other by its path with
/// forward slashes.
pub proof fn law_scope(relative: Seq<char>)
    ensures
        scope_label(""@) == "."@,
        relative.len() > 0 && !relative.contains('\\') ==> scope_label(relative) == relative,
        relative.len() > 0 ==> scope_label(relative).len() == relative.len(),
{
    reveal_strlit("");
    if relative.len() > 0 && !relative.contains('\\') {
        assert(scope_label(relative) =~= relative);
    }
}

} // verus!
