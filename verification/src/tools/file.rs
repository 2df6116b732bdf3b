//! The `file` tools: read, write, list and delete.
//!
//! The file system is left to the caller. Here a request is read and checked, what was found
//! is turned into the answer, and it is said what may be done.
use vstd::prelude::*;

use crate::error::error_message;
use crate::error::law_sort_texts;
use crate::error::sort_strings;
use crate::error::sort_texts;
use crate::error::ErrorView;
use crate::error::ToolError;
use crate::json::bool_in;
use crate::json::build_object;
use crate::json::count_json;
use crate::json::count_to_json;
use crate::json::entry;
use crate::json::field;
use crate::json::int_json;
use crate::json::int_to_json;
use crate::json::items_view;
use crate::json::law_object_holds;
use crate::json::lemma_array_view;
use crate::json::members_view;
use crate::json::nat_in;
use crate::json::object_of;
use crate::json::str_to_json;
use crate::json::string_in;
use crate::json::text_json;
use crate::json::text_to_json;
use crate::json::texts_json;
use crate::json::texts_to_json;
use crate::json::Json;
use crate::json::JsonView;
use crate::json_text::json_text;
use crate::json_text::written;
use crate::text::ascii_lower;
use crate::text::before;
use crate::text::byte_len;
use crate::text::bytes_in;
use crate::text::chars_of;
use crate::text::code;
use crate::text::cut;
use crate::text::decimal;
use crate::text::from_utf8_lossy;
use crate::text::index_of_char;
use crate::text::is_blank;
use crate::text::is_digit;
use crate::text::is_white;
use crate::text::join;
use crate::text::join_strings;
use crate::text::last_index_of;
use crate::text::last_position;
use crate::text::law_decimal_reads_back;
use crate::text::law_last_index;
use crate::text::law_no_number;
use crate::text::law_trim;
use crate::text::lemma_index_of_char;
use crate::text::lines_chars;
use crate::text::lossy_text;
use crate::text::parse_nat;
use crate::text::parse_u64;
use crate::text::position;
use crate::text::push_decimal;
use crate::text::runs;
use crate::text::same;
use crate::text::string_of;
use crate::text::text_lines;
use crate::text::to_lower;
use crate::text::trim;
use crate::text::trimmed;
use crate::text::views;
use crate::tools::edit::content_tag;
use crate::tools::edit::tag_of;
use crate::tools::find::is_hidden;
use crate::tools::outline::capped;
use crate::tools::outline::code_outline;
use crate::tools::outline::count_elided;
use crate::tools::outline::document_outline;
use crate::tools::outline::footer;
use crate::tools::outline::lines_elided;
use crate::tools::outline::optional_outline;
use crate::tools::outline::proper;
use crate::tools::outline::read_summary_lang;
use crate::tools::outline::summarize_code;
use crate::tools::outline::summarize_markdown;
use crate::tools::outline::summary_footer;
use crate::tools::outline::summary_language;
use crate::tools::outline::Outline;
use crate::tools::outline::OutlineView;
use crate::types::optional_text;

verus! {

// ---------------------------------------------------------------------------
// Selectors
// ---------------------------------------------------------------------------

/// The character may stand in a range of lines.
pub open spec fn in_selector(c: char) -> bool {
    is_digit(c) || c == '-' || c == '+' || c == ','
}

/// A text that selects part of a file.
pub open spec fn is_selector(s: Seq<char>) -> bool {
    s == "raw"@ || s == "conflicts"@ || forall|i: int|
        0 <= i < s.len() ==> in_selector(#[trigger] s[i])
}

/// A path without its selector, and the selector if it has one.
pub open spec fn path_and_selector(path: Seq<char>) -> (Seq<char>, Option<Seq<char>>) {
    match last_index_of(path, ':') {
        Some(p) => {
            let after = path.skip(p + 1);
            if p > 0 && is_selector(after) {
                (path.take(p), Some(after))
            } else {
                (path, None)
            }
        },
        None => (path, None),
    }
}

fn selects_part(s: &Vec<char>) -> (r: bool)
    ensures
        r == is_selector(s@),
{
    let text = string_of(s);
    if same(text.as_str(), "raw") || same(text.as_str(), "conflicts") {
        return true;
    }
    let mut i: usize = 0;
    while i < s.len()
        invariant
            i <= s@.len(),
            s@ != "raw"@,
            s@ != "conflicts"@,
            forall|k: int| 0 <= k < i ==> in_selector(#[trigger] s@[k]),
        decreases s@.len() - i,
    {
        let c = s[i];
        let n: u32 = code(c);
        let digit = n >= 0x30 && n <= 0x39;
        if !(digit || c == '-' || c == '+' || c == ',') {
            assert(!in_selector(s@[i as int]));
            return false;
        }
        i = i + 1;
    }
    true
}

/// Takes the selector off a path: what stands behind the last colon, if it is one.
pub fn parse_path_selector(path: &str) -> (r: (String, Option<String>))
    ensures
        (r.0@, optional_text(r.1)) == path_and_selector(path@),
{
    let cs = chars_of(path);
    let n = cs.len();
    match last_position(&cs, ':') {
        Some(p) => {
            let after = cut(&cs, p + 1, n);
            assert(after@ =~= path@.skip(p + 1));
            if p > 0 && selects_part(&after) {
                let before = cut(&cs, 0, p);
                assert(before@ =~= path@.take(p as int));
                (string_of(&before), Some(string_of(&after)))
            } else {
                (String::from_str(path), None)
            }
        },
        None => (String::from_str(path), None),
    }
}

/// A number that the library counts to.
pub open spec fn line_number(s: Seq<char>) -> Option<nat> {
    match parse_nat(s) {
        Some(n) => if n <= u64::MAX {
            Some(n)
        } else {
            None
        },
        None => None,
    }
}

fn parse_line_number(s: &Vec<char>) -> (r: Option<u64>)
    ensures
        (match r {
            Some(n) => Some(n as nat),
            None => None,
        }) == line_number(s@),
{
    parse_u64(s)
}

/// The first and the last line that a selector names, both counted from 1, or what is wrong
/// with it.
pub open spec fn line_range(sel: Seq<char>) -> Result<(nat, nat), Seq<char>> {
    let invalid = "invalid selector: "@ + sel;
    match (index_of_char(sel, '+'), index_of_char(sel, '-')) {
        (Some(p), _) => match (line_number(sel.take(p)), line_number(sel.skip(p + 1))) {
            (Some(start), Some(count)) => if start < 1 {
                Err("start line must be >= 1"@)
            } else if count < 1 {
                Err("count must be >= 1"@)
            } else {
                Ok((start, capped(start + count - 1) as nat))
            },
            _ => Err(invalid),
        },
        (None, Some(p)) => match (line_number(sel.take(p)), line_number(sel.skip(p + 1))) {
            (Some(start), Some(end)) => if start < 1 || end < 1 {
                Err("line numbers must be >= 1"@)
            } else if end < start {
                Err("end line must be >= start line"@)
            } else {
                Ok((start, end))
            },
            _ => Err(invalid),
        },
        (None, None) => match line_number(sel) {
            Some(line) => if line < 1 {
                Err("line number must be >= 1"@)
            } else {
                Ok((line, line))
            },
            None => Err(invalid),
        },
    }
}

fn invalid_selector(sel: &str) -> (r: ToolError)
    ensures
        r@ == ErrorView::Other("invalid selector: "@ + sel@),
{
    let mut m = String::from_str("invalid selector: ");
    m.append(sel);
    ToolError::other(m.as_str())
}

/// The lines that a selector names: `N-M`, `N+count` or `N`.
pub fn parse_line_range(sel: &str) -> (r: Result<(u64, u64), ToolError>)
    ensures
        match r {
            Ok(v) => line_range(sel@) == Ok::<(nat, nat), Seq<char>>((v.0 as nat, v.1 as nat))
                && 1 <= v.0 <= v.1,
            Err(e) => line_range(sel@) is Err && e@ == ErrorView::Other(line_range(sel@)->Err_0),
        },
{
    let cs = chars_of(sel);
    let n = cs.len();
    match position(&cs, '+') {
        Some(p) => {
            let first = cut(&cs, 0, p);
            let second = cut(&cs, p + 1, n);
            assert(first@ =~= sel@.take(p as int));
            assert(second@ =~= sel@.skip(p + 1));
            return match (parse_line_number(&first), parse_line_number(&second)) {
                (Some(start), Some(count)) => if start < 1 {
                    Err(ToolError::other("start line must be >= 1"))
                } else if count < 1 {
                    Err(ToolError::other("count must be >= 1"))
                } else if count - 1 > u64::MAX - start {
                    Ok((start, u64::MAX))
                } else {
                    Ok((start, start + (count - 1)))
                },
                _ => Err(invalid_selector(sel)),
            };
        },
        None => {},
    }
    match position(&cs, '-') {
        Some(p) => {
            let first = cut(&cs, 0, p);
            let second = cut(&cs, p + 1, n);
            assert(first@ =~= sel@.take(p as int));
            assert(second@ =~= sel@.skip(p + 1));
            match (parse_line_number(&first), parse_line_number(&second)) {
                (Some(start), Some(end)) => if start < 1 || end < 1 {
                    Err(ToolError::other("line numbers must be >= 1"))
                } else if end < start {
                    Err(ToolError::other("end line must be >= start line"))
                } else {
                    Ok((start, end))
                },
                _ => Err(invalid_selector(sel)),
            }
        },
        None => match parse_line_number(&cs) {
            Some(line) => if line < 1 {
                Err(ToolError::other("line number must be >= 1"))
            } else {
                Ok((line, line))
            },
            None => Err(invalid_selector(sel)),
        },
    }
}

// ---------------------------------------------------------------------------
// Reading a file
// ---------------------------------------------------------------------------

/// Lines after which a file without a selector is read as an outline.
pub const SUMMARY_MIN_LINES: usize = 80;

/// Lines that an outline has to fold.
pub const SUMMARY_MIN_ELIDED: u64 = 20;

/// What is known of a file before its content.
#[derive(Debug)]
pub struct FileFacts {
    /// Its path.
    pub path: String,
    /// The last component of its path.
    pub name: String,
    /// Its length in bytes.
    pub size: u64,
    /// When it was last changed, in milliseconds since the epoch; 0 where that is not known.
    pub modified: i64,
}

/// What stands behind the last dot of a file name that does not start with that dot.
pub open spec fn extension_of(name: Seq<char>) -> Option<Seq<char>> {
    match last_index_of(name, '.') {
        Some(p) => if p == 0 || name == ".."@ {
            None
        } else {
            Some(name.skip(p + 1))
        },
        None => None,
    }
}

/// The extension of a file name.
pub fn extension(name: &str) -> (r: Option<String>)
    ensures
        optional_text(r) == extension_of(name@),
{
    let cs = chars_of(name);
    let n = cs.len();
    match last_position(&cs, '.') {
        Some(p) => if p == 0 || same(name, "..") {
            None
        } else {
            let after = cut(&cs, p + 1, n);
            assert(after@ =~= name@.skip(p + 1));
            Some(string_of(&after))
        },
        None => None,
    }
}

/// What is wrong with a file that is to be read, if anything is.
pub open spec fn unreadable(path: Seq<char>, is_file: bool, size: nat, max_size: nat) -> Option<
    Seq<char>,
> {
    if !is_file {
        Some("Not a file: "@ + path)
    } else if size > max_size {
        Some("File too large: "@ + decimal(size) + " > "@ + decimal(max_size))
    } else {
        None
    }
}

/// Checks that there is a file at a path and that it is not too large.
pub fn check_file(path: &str, is_file: bool, size: u64, max_size: u64) -> (r: Result<(), ToolError>)
    ensures
        match r {
            Ok(_) => unreadable(path@, is_file, size as nat, max_size as nat) is None,
            Err(e) => unreadable(path@, is_file, size as nat, max_size as nat) is Some && e@
                == ErrorView::Other(unreadable(path@, is_file, size as nat, max_size as nat)->0),
        },
{
    if !is_file {
        let mut m = String::from_str("Not a file: ");
        m.append(path);
        Err(ToolError::other(m.as_str()))
    } else if size > max_size {
        let mut m = String::from_str("File too large: ");
        push_decimal(&mut m, size);
        m.append(" > ");
        push_decimal(&mut m, max_size);
        Err(ToolError::other(m.as_str()))
    } else {
        Ok(())
    }
}

/// What is said of every file that is read.
pub open spec fn common_members(f: FileFacts, content: Seq<char>, shown: Seq<char>) -> Seq<
    (Seq<char>, JsonView),
> {
    seq![
        ("content"@, JsonView::String(shown)),
        ("path"@, JsonView::String(f.path@)),
        ("size"@, count_json(f.size as nat)),
        ("totalLines"@, count_json(text_lines(content).len())),
        ("encoding"@, JsonView::String("utf-8"@)),
        ("modifiedAt"@, int_json(f.modified as int)),
        ("tag"@, JsonView::String(tag_of(content))),
    ]
}

/// What is said of a file that is read as it is.
pub open spec fn whole_file(f: FileFacts, content: Seq<char>) -> JsonView {
    JsonView::Object(object_of(common_members(f, content, content)))
}

/// What is said of a file that is asked for as it is.
pub open spec fn raw_file(f: FileFacts, content: Seq<char>) -> JsonView {
    JsonView::Object(
        object_of(
            common_members(f, content, content).push(("selector"@, JsonView::String("raw"@))),
        ),
    )
}

/// Some lines of a text, from the first to the last, counted from 1.
pub open spec fn lines_between(content: Seq<char>, start: int, end: int) -> Seq<Seq<char>> {
    text_lines(content).subrange(start - 1, end)
}

/// A line with its number in front of it.
pub open spec fn numbered(n: int, line: Seq<char>) -> Seq<char> {
    decimal(n as nat) + ":"@ + line
}

/// Lines with their numbers, where the first has the number `start`.
pub open spec fn numbered_lines(lines: Seq<Seq<char>>, start: int) -> Seq<Seq<char>> {
    Seq::new(lines.len(), |i: int| numbered(start + i, lines[i]))
}

/// The smaller of two numbers.
pub open spec fn lesser(a: int, b: int) -> int {
    if a < b {
        a
    } else {
        b
    }
}

/// What is said of some lines of a file.
pub open spec fn part_of_file(
    f: FileFacts,
    content: Seq<char>,
    sel: Seq<char>,
    start: int,
    last: int,
) -> JsonView {
    let end = lesser(last, text_lines(content).len() as int);
    let lines = lines_between(content, start, end);
    JsonView::Object(
        object_of(
            common_members(f, content, join(lines, "\n"@)) + seq![
                ("numberedContent"@, JsonView::String(join(numbered_lines(lines, start), "\n"@))),
                ("startLine"@, count_json(start as nat)),
                ("endLine"@, count_json(end as nat)),
                ("selectedLines"@, count_json(lines.len())),
                ("selector"@, JsonView::String(sel)),
            ],
        ),
    )
}

/// The answer to a read with a selector, or what is wrong with it.
pub open spec fn selected(f: FileFacts, content: Seq<char>, sel: Seq<char>) -> Result<
    JsonView,
    Seq<char>,
> {
    if sel == "raw"@ {
        Ok(raw_file(f, content))
    } else {
        match line_range(sel) {
            Ok(range) => if range.0 > text_lines(content).len() {
                Err(
                    "start_line "@ + decimal(range.0) + " exceeds file length "@ + decimal(
                        text_lines(content).len(),
                    ),
                )
            } else {
                Ok(part_of_file(f, content, sel, range.0 as int, range.1 as int))
            },
            Err(e) => Err(e),
        }
    }
}

/// What is said of an outline: what sort it is, what its count counts and what it folds.
pub open spec fn outline_answer(
    f: FileFacts,
    content: Seq<char>,
    o: OutlineView,
    document: bool,
) -> JsonView {
    let unit = if document {
        "小节"@
    } else {
        "定义体"@
    };
    let mode = if document {
        "doc_outline"@
    } else {
        "structural_summary"@
    };
    let counted = if document {
        "headings"@
    } else {
        "foldedDefinitions"@
    };
    JsonView::Object(
        object_of(
            common_members(f, content, o.text + footer(f.path@, o.elided, unit)) + seq![
                ("mode"@, JsonView::String(mode)),
                (counted, count_json(o.count)),
                ("elidedLines"@, count_json(capped(lines_elided(o.elided)) as nat)),
            ],
        ),
    )
}

/// The answer to a read without a selector, given the outline of the file if it has one: the
/// outline where it folds enough lines, else the file.
pub open spec fn outlined_or_whole(
    f: FileFacts,
    content: Seq<char>,
    outline: Option<OutlineView>,
    document: bool,
) -> JsonView {
    match outline {
        Some(o) => if capped(lines_elided(o.elided)) >= SUMMARY_MIN_ELIDED {
            outline_answer(f, content, o, document)
        } else {
            whole_file(f, content)
        },
        None => whole_file(f, content),
    }
}

/// The extension by which the sort of a file is told.
pub open spec fn plain_extension(name: Seq<char>) -> Seq<char> {
    match extension_of(name) {
        Some(e) => ascii_lower(e),
        None => ""@,
    }
}

/// A document, by its extension.
pub open spec fn is_document(ext: Seq<char>) -> bool {
    ext == "md"@ || ext == "markdown"@ || ext == "mdx"@ || ext == "txt"@
}

/// The answer to a read without a selector.
pub open spec fn unselected(f: FileFacts, content: Seq<char>, summary: bool) -> JsonView {
    let ext = plain_extension(f.name@);
    if !summary || text_lines(content).len() <= SUMMARY_MIN_LINES {
        whole_file(f, content)
    } else if summary_language(ext) != ""@ {
        outlined_or_whole(f, content, code_outline(content, ext), false)
    } else if is_document(ext) {
        outlined_or_whole(f, content, document_outline(content), true)
    } else {
        whole_file(f, content)
    }
}

fn push_common(
    pairs: &mut Vec<(String, Json)>,
    f: &FileFacts,
    content: &str,
    total: usize,
    shown: &str,
)
    requires
        total == text_lines(content@).len(),
    ensures
        members_view(final(pairs)@) == members_view(old(pairs)@) + common_members(
            *f,
            content@,
            shown@,
        ),
{
    let ghost start = members_view(pairs@);
    let tag = content_tag(content);
    pairs.push(entry("content", str_to_json(shown)));
    pairs.push(entry("path", str_to_json(f.path.as_str())));
    pairs.push(entry("size", count_to_json(f.size)));
    pairs.push(entry("totalLines", count_to_json(total as u64)));
    pairs.push(entry("encoding", str_to_json("utf-8")));
    pairs.push(entry("modifiedAt", int_to_json(f.modified)));
    pairs.push(entry("tag", Json::String(tag)));
    assert(members_view(pairs@) =~= start + common_members(*f, content@, shown@));
}

fn count_lines(content: &str) -> (n: usize)
    ensures
        n == text_lines(content@).len(),
{
    let cs = chars_of(content);
    let lines = lines_chars(&cs);
    assert(runs(lines@).len() == lines@.len());
    lines.len()
}

fn read_whole(f: &FileFacts, content: &str, raw: bool) -> (r: Json)
    ensures
        r@ == (if raw {
            raw_file(*f, content@)
        } else {
            whole_file(*f, content@)
        }),
{
    let mut pairs: Vec<(String, Json)> = Vec::new();
    assert(members_view(pairs@) =~= Seq::<(Seq<char>, JsonView)>::empty());
    let total = count_lines(content);
    push_common(&mut pairs, f, content, total, content);
    let ghost common = common_members(*f, content@, content@);
    assert(members_view(pairs@) =~= common);
    if raw {
        pairs.push(entry("selector", str_to_json("raw")));
        assert(members_view(pairs@) =~= common.push(("selector"@, JsonView::String("raw"@))));
    }
    build_object(pairs)
}

fn read_part(f: &FileFacts, content: &str, sel: &str, start: u64, last: u64) -> (r: Json)
    requires
        1 <= start <= last,
        start <= text_lines(content@).len(),
    ensures
        r@ == part_of_file(*f, content@, sel@, start as int, last as int),
{
    let cs = chars_of(content);
    let lines = lines_chars(&cs);
    let total = lines.len();
    let ghost all = text_lines(content@);
    assert(runs(lines@).len() == total);
    let end: usize = if last < total as u64 {
        last as usize
    } else {
        total
    };
    let ghost wanted = lines_between(content@, start as int, end as int);
    let mut part: Vec<String> = Vec::new();
    let mut with_numbers: Vec<String> = Vec::new();
    let mut i: usize = start as usize - 1;
    while i < end
        invariant
            1 <= start,
            start - 1 <= i <= end,
            end <= total,
            total == lines@.len(),
            all == runs(lines@),
            wanted == all.subrange(start - 1, end as int),
            part@.len() == i - (start - 1),
            with_numbers@.len() == part@.len(),
            forall|k: int| 0 <= k < part@.len() ==> (#[trigger] part@[k])@ == wanted[k],
            forall|k: int|
                0 <= k < part@.len() ==> (#[trigger] with_numbers@[k])@ == numbered(
                    start + k,
                    wanted[k],
                ),
        decreases end - i,
    {
        let line = string_of(&lines[i]);
        assert(line@ == all[i as int]);
        let mut n = String::new();
        push_decimal(&mut n, i as u64 + 1);
        n.append(":");
        n.append(line.as_str());
        assert(n@ =~= numbered(i + 1, line@));
        part.push(line);
        with_numbers.push(n);
        i = i + 1;
    }
    assert(views(part@) =~= wanted);
    assert(views(with_numbers@) =~= numbered_lines(wanted, start as int));
    let shown = join_strings(&part, "\n");
    let mut pairs: Vec<(String, Json)> = Vec::new();
    assert(members_view(pairs@) =~= Seq::<(Seq<char>, JsonView)>::empty());
    push_common(&mut pairs, f, content, total, shown.as_str());
    let ghost common = common_members(*f, content@, shown@);
    assert(members_view(pairs@) =~= common);
    pairs.push(entry("numberedContent", Json::String(join_strings(&with_numbers, "\n"))));
    pairs.push(entry("startLine", count_to_json(start)));
    pairs.push(entry("endLine", count_to_json(end as u64)));
    pairs.push(entry("selectedLines", count_to_json(part.len() as u64)));
    pairs.push(entry("selector", str_to_json(sel)));
    assert(members_view(pairs@) =~= common + seq![
        ("numberedContent"@, JsonView::String(join(numbered_lines(wanted, start as int), "\n"@))),
        ("startLine"@, count_json(start as nat)),
        ("endLine"@, count_json(end as nat)),
        ("selectedLines"@, count_json(wanted.len())),
        ("selector"@, JsonView::String(sel@)),
    ]);
    build_object(pairs)
}

/// Reads what a selector names of a file.
pub fn read_selected(f: &FileFacts, content: &str, sel: &str) -> (r: Result<Json, ToolError>)
    ensures
        match r {
            Ok(v) => selected(*f, content@, sel@) == Ok::<JsonView, Seq<char>>(v@),
            Err(e) => selected(*f, content@, sel@) is Err && e@ == ErrorView::Other(
                selected(*f, content@, sel@)->Err_0,
            ),
        },
{
    if same(sel, "raw") {
        return Ok(read_whole(f, content, true));
    }
    match parse_line_range(sel) {
        Ok((start, last)) => {
            let total = count_lines(content);
            if start > total as u64 {
                let mut m = String::from_str("start_line ");
                push_decimal(&mut m, start);
                m.append(" exceeds file length ");
                push_decimal(&mut m, total as u64);
                Err(ToolError::other(m.as_str()))
            } else {
                Ok(read_part(f, content, sel, start, last))
            }
        },
        Err(e) => Err(e),
    }
}

/// Answers a read without a selector, given the outline of the file if it has one.
pub fn read_outlined(f: &FileFacts, content: &str, outline: &Option<Outline>, document: bool) -> (r:
    Json)
    requires
        *outline matches Some(o) ==> proper(o@.elided),
    ensures
        r@ == outlined_or_whole(*f, content@, optional_outline(*outline), document),
{
    let o = match outline {
        Some(o) => o,
        None => {
            return read_whole(f, content, false);
        },
    };
    let elided = count_elided(&o.elided);
    if elided < SUMMARY_MIN_ELIDED {
        return read_whole(f, content, false);
    }
    let unit = if document {
        "小节"
    } else {
        "定义体"
    };
    let mode = if document {
        "doc_outline"
    } else {
        "structural_summary"
    };
    let counted = if document {
        "headings"
    } else {
        "foldedDefinitions"
    };
    let mut shown = o.text.clone();
    shown.append(summary_footer(f.path.as_str(), &o.elided, unit).as_str());
    let mut pairs: Vec<(String, Json)> = Vec::new();
    assert(members_view(pairs@) =~= Seq::<(Seq<char>, JsonView)>::empty());
    let total = count_lines(content);
    push_common(&mut pairs, f, content, total, shown.as_str());
    let ghost common = common_members(*f, content@, shown@);
    assert(members_view(pairs@) =~= common);
    pairs.push(entry("mode", str_to_json(mode)));
    pairs.push(entry(counted, count_to_json(o.count as u64)));
    pairs.push(entry("elidedLines", count_to_json(elided)));
    assert(members_view(pairs@) =~= common + seq![
        ("mode"@, JsonView::String(mode@)),
        (counted@, count_json(o.count as nat)),
        ("elidedLines"@, count_json(elided as nat)),
    ]);
    build_object(pairs)
}

/// The answer to a read, or what is wrong with it.
pub open spec fn read_answer(
    f: FileFacts,
    content: Seq<char>,
    sel: Option<Seq<char>>,
    summary: bool,
) -> Result<JsonView, Seq<char>> {
    match sel {
        Some(s) => selected(f, content, s),
        None => Ok(unselected(f, content, summary)),
    }
}

/// Answers a read, given the content of the file. `summary` says whether a long file without a
/// selector is read as an outline.
pub fn read_content(f: &FileFacts, content: &str, selector: Option<&str>, summary: bool) -> (r:
    Result<Json, ToolError>)
    ensures
        ({
            let sel = match selector {
                Some(s) => Some(s@),
                None => None,
            };
            match r {
                Ok(v) => read_answer(*f, content@, sel, summary) == Ok::<JsonView, Seq<char>>(v@),
                Err(e) => read_answer(*f, content@, sel, summary) is Err && e@ == ErrorView::Other(
                    read_answer(*f, content@, sel, summary)->Err_0,
                ),
            }
        }),
{
    match selector {
        Some(sel) => {
            return read_selected(f, content, sel);
        },
        None => {},
    }
    if !summary || count_lines(content) <= SUMMARY_MIN_LINES {
        return Ok(read_whole(f, content, false));
    }
    let ext = match extension(f.name.as_str()) {
        Some(e) => string_of(&to_lower(&chars_of(e.as_str()))),
        None => String::from_str(""),
    };
    if !same(read_summary_lang(ext.as_str()), "") {
        let outline = summarize_code(content, ext.as_str());
        Ok(read_outlined(f, content, &outline, false))
    } else if same(ext.as_str(), "md") || same(ext.as_str(), "markdown") || same(
        ext.as_str(),
        "mdx",
    ) || same(ext.as_str(), "txt") {
        let outline = summarize_markdown(content);
        Ok(read_outlined(f, content, &outline, true))
    } else {
        Ok(read_whole(f, content, false))
    }
}

/// Answers a read, given the bytes of the file.
pub fn read_file_sel(f: &FileFacts, bytes: &[u8], selector: Option<&str>, summary: bool) -> (r:
    Result<Json, ToolError>)
    ensures
        ({
            let sel = match selector {
                Some(s) => Some(s@),
                None => None,
            };
            let content = lossy_text(bytes@);
            match r {
                Ok(v) => read_answer(*f, content, sel, summary) == Ok::<JsonView, Seq<char>>(v@),
                Err(e) => read_answer(*f, content, sel, summary) is Err && e@ == ErrorView::Other(
                    read_answer(*f, content, sel, summary)->Err_0,
                ),
            }
        }),
{
    let content = from_utf8_lossy(bytes);
    read_content(f, content.as_str(), selector, summary)
}

/// Two parts of a file that follow on one another make up the part from the start of the first
/// to the end of the second.
pub proof fn law_parts_join(content: Seq<char>, start: int, mid: int, end: int)
    requires
        1 <= start <= mid < end <= text_lines(content).len(),
    ensures
        join(lines_between(content, start, end), "\n"@) == join(
            lines_between(content, start, mid),
            "\n"@,
        ) + "\n"@ + join(lines_between(content, mid + 1, end), "\n"@),
{
    let a = lines_between(content, start, mid);
    let b = lines_between(content, mid + 1, end);
    assert(lines_between(content, start, end) =~= a + b);
    lemma_join_sum(a, b, "\n"@);
}

proof fn lemma_join_sum(a: Seq<Seq<char>>, b: Seq<Seq<char>>, sep: Seq<char>)
    requires
        a.len() > 0,
        b.len() > 0,
    ensures
        join(a + b, sep) == join(a, sep) + sep + join(b, sep),
    decreases b.len(),
{
    if b.len() == 1 {
        assert((a + b).drop_last() =~= a);
        assert(b.drop_last() =~= Seq::<Seq<char>>::empty());
        assert(join(a + b, sep) =~= join(a, sep) + sep + join(b, sep));
    } else {
        lemma_join_sum(a, b.drop_last(), sep);
        assert((a + b).drop_last() =~= a + b.drop_last());
        assert(join(a + b, sep) =~= join(a, sep) + sep + join(b, sep));
    }
}

// ---------------------------------------------------------------------------
// Asking for a read
// ---------------------------------------------------------------------------

/// How many paths one read takes.
pub const READ_BATCH_MAX_PATHS: usize = 10;

/// How many bytes one read of many paths gives back, but for the first of them.
pub const READ_BATCH_BYTE_BUDGET: u64 = 196608;

/// How large a file may be where nothing else is said, in bytes.
pub const DEFAULT_MAX_SIZE: u64 = 10485760;

/// What a read asks for.
#[derive(Debug)]
pub enum ReadRequest {
    /// One path.
    One {
        /// The path, with its selector if it has one.
        spec: String,
        /// How large the file may be, in bytes.
        max_size: u64,
    },
    /// Several paths at once.
    Many {
        /// The paths.
        specs: Vec<String>,
        /// How large each file may be, in bytes.
        max_size: u64,
    },
}

/// The model of a `ReadRequest`.
pub enum ReadView {
    /// One path.
    One(Seq<char>, nat),
    /// Several paths at once.
    Many(Seq<Seq<char>>, nat),
}

impl View for ReadRequest {
    type V = ReadView;

    open spec fn view(&self) -> ReadView {
        match *self {
            ReadRequest::One { spec, max_size } => ReadView::One(spec@, max_size as nat),
            ReadRequest::Many { specs, max_size } => ReadView::Many(
                views(specs@),
                max_size as nat,
            ),
        }
    }
}

/// The texts of a list, or what is wrong with the first item that is wrong.
pub open spec fn paths_of(items: Seq<JsonView>) -> Result<Seq<Seq<char>>, Seq<char>>
    decreases items.len(),
{
    if items.len() == 0 {
        Ok(Seq::empty())
    } else {
        match (paths_of(items.drop_last()), items.last()) {
            (Err(e), _) => Err(e),
            (Ok(v), JsonView::String(s)) => if is_blank(s) {
                Err("paths must not contain empty strings"@)
            } else {
                Ok(v.push(s))
            },
            (Ok(_), _) => Err("paths must contain only strings"@),
        }
    }
}

/// What a read asks for, or what is wrong with it.
pub open spec fn read_asked(input: JsonView) -> Result<ReadView, Seq<char>> {
    let max_size = match nat_in(field(input, "maxSize"@)) {
        Some(n) => n,
        None => DEFAULT_MAX_SIZE as nat,
    };
    match field(input, "paths"@) {
        Some(JsonView::Array(items)) => match paths_of(items) {
            Ok(specs) => if specs.len() == 0 {
                Err("paths must not be empty"@)
            } else if specs.len() > READ_BATCH_MAX_PATHS {
                Err(
                    "too many paths: "@ + decimal(specs.len())
                        + " > 10 — 分批调用（一次最多 10 个）"@,
                )
            } else {
                Ok(ReadView::Many(specs, max_size))
            },
            Err(e) => Err(e),
        },
        Some(_) => Err("paths must be an array of strings"@),
        None => match string_in(field(input, "path"@)) {
            Some(path) => Ok(ReadView::One(path, max_size)),
            None => Err("path is required (或用 paths 数组批量读)"@),
        },
    }
}

fn read_paths(items: &Vec<Json>) -> (r: Result<Vec<String>, ToolError>)
    ensures
        match r {
            Ok(v) => paths_of(items_view(items@)) == Ok::<Seq<Seq<char>>, Seq<char>>(views(v@)),
            Err(e) => paths_of(items_view(items@)) is Err && e@ == ErrorView::Other(
                paths_of(items_view(items@))->Err_0,
            ),
        },
{
    let ghost all = items_view(items@);
    let mut specs: Vec<String> = Vec::new();
    let mut fault: Option<ToolError> = None;
    let n = items.len();
    let mut i: usize = 0;
    assert(all.take(0) =~= Seq::<JsonView>::empty());
    assert(views(specs@) =~= Seq::<Seq<char>>::empty());
    while i < n
        invariant
            i <= n,
            n == items@.len(),
            all == items_view(items@),
            match fault {
                None => paths_of(all.take(i as int)) == Ok::<Seq<Seq<char>>, Seq<char>>(
                    views(specs@),
                ),
                Some(e) => paths_of(all.take(i as int)) is Err && e@ == ErrorView::Other(
                    paths_of(all.take(i as int))->Err_0,
                ),
            },
        decreases n - i,
    {
        let ghost done = specs@;
        assert(all.take(i + 1).drop_last() =~= all.take(i as int));
        assert(all.take(i + 1).last() == items@[i as int]@);
        if fault.is_none() {
            match &items[i] {
                Json::String(s) => {
                    if crate::text::blank(s.as_str()) {
                        fault = Some(ToolError::other("paths must not contain empty strings"));
                    } else {
                        specs.push(s.clone());
                        assert(views(specs@) =~= views(done).push(s@));
                    }
                },
                _ => {
                    fault = Some(ToolError::other("paths must contain only strings"));
                },
            }
        }
        i = i + 1;
    }
    assert(all.take(n as int) =~= all);
    match fault {
        None => Ok(specs),
        Some(e) => Err(e),
    }
}

/// Reads what a read asks for.
pub fn parse_read(input: &Json) -> (r: Result<ReadRequest, ToolError>)
    ensures
        match r {
            Ok(q) => read_asked(input@) == Ok::<ReadView, Seq<char>>(q@),
            Err(e) => read_asked(input@) is Err && e@ == ErrorView::Other(
                read_asked(input@)->Err_0,
            ),
        },
{
    let max_size = match input.get_u64("maxSize") {
        Some(n) => n,
        None => DEFAULT_MAX_SIZE,
    };
    match input.get("paths") {
        Some(Json::Array(items)) => {
            proof {
                lemma_array_view(*items);
            }
            match read_paths(items) {
                Ok(specs) => {
                    assert(views(specs@).len() == specs@.len());
                    if specs.len() == 0 {
                        Err(ToolError::other("paths must not be empty"))
                    } else if specs.len() > READ_BATCH_MAX_PATHS {
                        let mut m = String::from_str("too many paths: ");
                        push_decimal(&mut m, specs.len() as u64);
                        m.append(" > 10 — 分批调用（一次最多 10 个）");
                        Err(ToolError::other(m.as_str()))
                    } else {
                        Ok(ReadRequest::Many { specs, max_size })
                    }
                },
                Err(e) => Err(e),
            }
        },
        Some(_) => Err(ToolError::other("paths must be an array of strings")),
        None => match input.get_str("path") {
            Some(path) => Ok(ReadRequest::One { spec: path.clone(), max_size }),
            None => Err(ToolError::other("path is required (或用 paths 数组批量读)")),
        },
    }
}

// ---------------------------------------------------------------------------
// Reading many files
// ---------------------------------------------------------------------------

/// How many files are read at once, given what the operator set.
pub open spec fn batch_concurrency(parallel: Option<Seq<char>>, max: Option<Seq<char>>) -> nat {
    let off = match parallel {
        Some(v) => {
            let v = ascii_lower(trim(v));
            v == "0"@ || v == "false"@ || v == "no"@ || v == "off"@
        },
        None => false,
    };
    let asked = match max {
        Some(v) => line_number(trim(v)),
        None => None,
    };
    if off {
        1
    } else {
        match asked {
            Some(n) => if n < 1 {
                1
            } else if n > 32 {
                32
            } else {
                n
            },
            None => 8,
        }
    }
}

/// How many files are read at once: `parallel` says whether more than one is, `max` how many.
pub fn read_batch_concurrency(parallel: Option<&str>, max: Option<&str>) -> (r: usize)
    ensures
        r as nat == batch_concurrency(
            match parallel {
                Some(v) => Some(v@),
                None => None,
            },
            match max {
                Some(v) => Some(v@),
                None => None,
            },
        ),
{
    match parallel {
        Some(v) => {
            let plain = string_of(&to_lower(&trimmed(&chars_of(v))));
            let p = plain.as_str();
            if same(p, "0") || same(p, "false") || same(p, "no") || same(p, "off") {
                return 1;
            }
        },
        None => {},
    }
    match max {
        Some(v) => match parse_line_number(&trimmed(&chars_of(v))) {
            Some(n) => if n < 1 {
                1
            } else if n > 32 {
                32
            } else {
                n as usize
            },
            None => 8,
        },
        None => 8,
    }
}

/// What the outlines of long files depend on: the operator can turn them off.
pub open spec fn outlines_on(setting: Option<Seq<char>>) -> bool {
    match setting {
        Some(v) => v != "0"@ && ascii_lower(v) != "false"@,
        None => true,
    }
}

/// Whether long files are read as outlines, given what the operator set.
pub fn summary_enabled(setting: Option<&str>) -> (r: bool)
    ensures
        r == outlines_on(
            match setting {
                Some(v) => Some(v@),
                None => None,
            },
        ),
{
    match setting {
        Some(v) => !same(v, "0") && !same(string_of(&to_lower(&chars_of(v))).as_str(), "false"),
        None => true,
    }
}

/// What has been gathered of a read of many paths.
#[derive(Debug)]
pub struct ReadBatch {
    /// The answers, in the order in which the paths were asked for.
    pub files: Vec<Json>,
    /// The paths without an answer, and why.
    pub failed: Vec<Json>,
    /// The bytes of the answers.
    pub used: u64,
}

/// The model of a `ReadBatch`.
pub struct BatchView {
    /// The answers.
    pub files: Seq<JsonView>,
    /// The paths without an answer, and why.
    pub failed: Seq<JsonView>,
    /// The bytes of the answers.
    pub used: nat,
}

impl View for ReadBatch {
    type V = BatchView;

    open spec fn view(&self) -> BatchView {
        BatchView {
            files: items_view(self.files@),
            failed: items_view(self.failed@),
            used: self.used as nat,
        }
    }
}

/// A path without an answer, and why.
pub open spec fn failure(path: Seq<char>, why: Seq<char>) -> JsonView {
    JsonView::Object(
        object_of(seq![("path"@, JsonView::String(path)), ("error"@, JsonView::String(why))]),
    )
}

/// Why a file was left out.
pub open spec fn over_budget(size: nat) -> Seq<char> {
    "skipped: 批量字节预算 196608 已用尽（本文件 "@ + decimal(size)
        + " 字节）——单独重读它，或用行范围只取需要的部分"@
}

/// What has been gathered once an answer of `size` bytes, or an error, has come.
pub open spec fn with_read(
    b: BatchView,
    path: Seq<char>,
    answer: Result<JsonView, Seq<char>>,
    size: nat,
) -> BatchView {
    match answer {
        Ok(v) => if b.files.len() > 0 && b.used + size > READ_BATCH_BYTE_BUDGET {
            BatchView { failed: b.failed.push(failure(path, over_budget(size))), ..b }
        } else {
            BatchView { files: b.files.push(v), used: b.used + size, ..b }
        },
        Err(e) => BatchView { failed: b.failed.push(failure(path, e)), ..b },
    }
}

/// Nothing has been gathered.
pub open spec fn empty_batch() -> BatchView {
    BatchView { files: Seq::empty(), failed: Seq::empty(), used: 0 }
}

fn make_failure(path: &str, why: String) -> (r: Json)
    ensures
        r@ == failure(path@, why@),
{
    let mut pairs: Vec<(String, Json)> = Vec::new();
    pairs.push(entry("path", str_to_json(path)));
    pairs.push(entry("error", Json::String(why)));
    assert(members_view(pairs@) =~= seq![
        ("path"@, JsonView::String(path@)),
        ("error"@, JsonView::String(why@)),
    ]);
    build_object(pairs)
}

impl ReadBatch {
    /// Nothing has been gathered.
    pub fn new() -> (r: Self)
        ensures
            r@ == empty_batch(),
    {
        let r = ReadBatch { files: Vec::new(), failed: Vec::new(), used: 0 };
        assert(r@.files =~= Seq::<JsonView>::empty());
        assert(r@.failed =~= Seq::<JsonView>::empty());
        r
    }

    /// Takes in the answer for a path, or why there is none. `size` is what the answer counts
    /// against the budget; the first answer is taken whatever its size.
    pub fn take_in(&mut self, path: &str, answer: Result<Json, ToolError>, size: u64)
        requires
            old(self)@.files.len() == 0 ==> old(self)@.used == 0,
        ensures
            final(self)@ == with_read(
                old(self)@,
                path@,
                match answer {
                    Ok(v) => Ok(v@),
                    Err(e) => Err(error_message(e@)),
                },
                size as nat,
            ),
            final(self)@.files.len() == 0 ==> final(self)@.used == 0,
    {
        let ghost b = self@;
        match answer {
            Ok(v) => {
                assert(b.files.len() == self.files@.len());
                if self.files.len() > 0 && (self.used > READ_BATCH_BYTE_BUDGET || size
                    > READ_BATCH_BYTE_BUDGET - self.used) {
                    let mut m = String::from_str("skipped: 批量字节预算 196608 已用尽（本文件 ");
                    push_decimal(&mut m, size);
                    m.append(" 字节）——单独重读它，或用行范围只取需要的部分");
                    self.failed.push(make_failure(path, m));
                    assert(self@.failed =~= b.failed.push(
                        failure(path@, over_budget(size as nat)),
                    ));
                } else {
                    self.used = self.used + size;
                    self.files.push(v);
                    assert(self@.files =~= b.files.push(v@));
                }
            },
            Err(e) => {
                let m = e.to_string();
                self.failed.push(make_failure(path, m));
                assert(self@.failed =~= b.failed.push(failure(path@, error_message(e@))));
            },
        }
    }

    /// The answer to a read of many paths.
    pub fn finish(self) -> (r: Json)
        ensures
            r@ == batch_answer(self@),
    {
        let ghost b = self@;
        let count = self.files.len() as u64;
        let failed_count = self.failed.len() as u64;
        let used = self.used;
        assert(b.files.len() == count);
        assert(b.failed.len() == failed_count);
        proof {
            lemma_array_view(self.files);
            lemma_array_view(self.failed);
        }
        let mut pairs: Vec<(String, Json)> = Vec::new();
        pairs.push(entry("files", Json::Array(self.files)));
        pairs.push(entry("failed", Json::Array(self.failed)));
        pairs.push(entry("count", count_to_json(count)));
        pairs.push(entry("failedCount", count_to_json(failed_count)));
        pairs.push(entry("bytes", count_to_json(used)));
        assert(members_view(pairs@) =~= seq![
            ("files"@, JsonView::Array(b.files)),
            ("failed"@, JsonView::Array(b.failed)),
            ("count"@, count_json(b.files.len())),
            ("failedCount"@, count_json(b.failed.len())),
            ("bytes"@, count_json(b.used)),
        ]);
        build_object(pairs)
    }
}

/// The answer to a read of many paths.
pub open spec fn batch_answer(b: BatchView) -> JsonView {
    JsonView::Object(
        object_of(
            seq![
                ("files"@, JsonView::Array(b.files)),
                ("failed"@, JsonView::Array(b.failed)),
                ("count"@, count_json(b.files.len())),
                ("failedCount"@, count_json(b.failed.len())),
                ("bytes"@, count_json(b.used)),
            ],
        ),
    )
}

/// What an answer counts against the budget: the bytes of its content, or of the whole answer
/// where it has none.
pub open spec fn answer_size(v: JsonView) -> nat {
    match string_in(field(v, "content"@)) {
        Some(s) => byte_len(s),
        None => byte_len(json_text(written(v))),
    }
}

/// What an answer counts against the budget.
pub fn size_of_answer(v: &Json) -> (n: u64)
    ensures
        n as nat == answer_size(v@),
{
    match v.get_str("content") {
        Some(s) => bytes_in(s.as_str()) as u64,
        None => {
            let text = v.to_text();
            bytes_in(text.as_str()) as u64
        },
    }
}

/// What comes of a read, as its model.
pub open spec fn outcome(r: Result<Json, ToolError>) -> Result<JsonView, Seq<char>> {
    match r {
        Ok(v) => Ok(v@),
        Err(e) => Err(error_message(e@)),
    }
}

/// What the answers are, as their models.
pub open spec fn outcomes(v: Seq<Result<Json, ToolError>>) -> Seq<Result<JsonView, Seq<char>>> {
    v.map_values(|r: Result<Json, ToolError>| outcome(r))
}

/// What has been gathered once all answers have come, in the order of the paths.
pub open spec fn gathered_reads(
    paths: Seq<Seq<char>>,
    answers: Seq<Result<JsonView, Seq<char>>>,
) -> BatchView
    decreases answers.len(),
{
    if answers.len() == 0 || paths.len() != answers.len() {
        empty_batch()
    } else {
        let a = answers.last();
        let size = match a {
            Ok(v) => answer_size(v),
            Err(_) => 0,
        };
        with_read(gathered_reads(paths.drop_last(), answers.drop_last()), paths.last(), a, size)
    }
}

/// Answers a read of many paths, given what came of each.
pub fn read_batch(specs: &Vec<String>, results: Vec<Result<Json, ToolError>>) -> (r: Json)
    requires
        specs@.len() == results@.len(),
    ensures
        r@ == batch_answer(gathered_reads(views(specs@), outcomes(results@))),
{
    let ghost paths = views(specs@);
    let ghost answers = outcomes(results@);
    let n = specs.len();
    let mut b = ReadBatch::new();
    let mut i: usize = 0;
    assert(answers.take(0).len() == 0);
    for res in all: results
        invariant
            all.seq() == results@,
            n == specs@.len(),
            n == results@.len(),
            i == all.index(),
            paths == views(specs@),
            answers == outcomes(results@),
            b@ == gathered_reads(paths.take(all.index() as int), answers.take(all.index() as int)),
            b@.files.len() == 0 ==> b@.used == 0,
    {
        let ghost k = all.index() as int;
        proof {
            assert(paths.take(k + 1).drop_last() =~= paths.take(k));
            assert(answers.take(k + 1).drop_last() =~= answers.take(k));
            assert(paths.take(k + 1).last() == specs@[k]@);
            assert(answers.take(k + 1).last() == outcome(results@[k]));
        }
        let size = match &res {
            Ok(v) => size_of_answer(v),
            Err(_) => 0,
        };
        b.take_in(specs[i].as_str(), res, size);
        i = i + 1;
    }
    assert(paths.take(n as int) =~= paths);
    assert(answers.take(n as int) =~= answers);
    b.finish()
}

/// Each path that was asked for is answered or listed as failed, and only one of the two: one
/// bad path does not spoil the others.
pub proof fn law_every_path_is_accounted_for(
    paths: Seq<Seq<char>>,
    answers: Seq<Result<JsonView, Seq<char>>>,
)
    requires
        paths.len() == answers.len(),
    ensures
        gathered_reads(paths, answers).files.len() + gathered_reads(paths, answers).failed.len()
            == paths.len(),
    decreases answers.len(),
{
    if answers.len() > 0 {
        law_every_path_is_accounted_for(paths.drop_last(), answers.drop_last());
    }
}

/// A read of many paths that gives back more than one file keeps to the budget.
pub proof fn law_budget_is_kept(paths: Seq<Seq<char>>, answers: Seq<Result<JsonView, Seq<char>>>)
    requires
        paths.len() == answers.len(),
    ensures
        gathered_reads(paths, answers).files.len() > 1 ==> gathered_reads(paths, answers).used
            <= READ_BATCH_BYTE_BUDGET,
    decreases answers.len(),
{
    if answers.len() > 0 {
        law_budget_is_kept(paths.drop_last(), answers.drop_last());
    }
}

/// The first path that can be read is answered, however large it is.
pub proof fn law_first_file_is_kept(
    paths: Seq<Seq<char>>,
    answers: Seq<Result<JsonView, Seq<char>>>,
    i: int,
)
    requires
        paths.len() == answers.len(),
        0 <= i < answers.len(),
        answers[i] is Ok,
        forall|k: int| 0 <= k < i ==> (#[trigger] answers[k]) is Err,
    ensures
        gathered_reads(paths, answers).files.len() > 0,
        gathered_reads(paths, answers).files[0] == answers[i]->Ok_0,
    decreases answers.len(),
{
    let p = paths.drop_last();
    let a = answers.drop_last();
    if i < a.len() {
        law_first_file_is_kept(p, a, i);
    } else {
        lemma_nothing_read(p, a);
    }
}

proof fn lemma_nothing_read(paths: Seq<Seq<char>>, answers: Seq<Result<JsonView, Seq<char>>>)
    requires
        paths.len() == answers.len(),
        forall|k: int| 0 <= k < answers.len() ==> (#[trigger] answers[k]) is Err,
    ensures
        gathered_reads(paths, answers).files.len() == 0,
    decreases answers.len(),
{
    if answers.len() > 0 {
        assert(answers[answers.len() - 1] is Err);
        lemma_nothing_read(paths.drop_last(), answers.drop_last());
    }
}

// ---------------------------------------------------------------------------
// What was not found, and directories
// ---------------------------------------------------------------------------

/// What is said of a path that cannot be looked at.
pub open spec fn stat_message(error: Seq<char>, path: Seq<char>, cwd: Option<Seq<char>>) -> Seq<
    char,
> {
    let head = "stat: "@ + error + " | path='"@ + path + "'"@;
    match cwd {
        Some(c) => head + " (cwd: '"@ + c + "')"@,
        None => head,
    }
}

/// The error for a path that cannot be looked at. It names the path, and the working directory
/// where there is one, so that a mistaken path can be told.
pub fn stat_error(tool: &str, path: &str, cwd: Option<&str>, error: &str) -> (r: ToolError)
    ensures
        r@ == (ErrorView::ToolExecution {
            tool_name: tool@,
            attempt: 1,
            source_string: stat_message(
                error@,
                path@,
                match cwd {
                    Some(c) => Some(c@),
                    None => None,
                },
            ),
        }),
{
    let mut m = String::from_str("stat: ");
    m.append(error);
    m.append(" | path='");
    m.append(path);
    m.append("'");
    match cwd {
        Some(c) => {
            m.append(" (cwd: '");
            m.append(c);
            m.append("')");
        },
        None => {},
    }
    ToolError::execution_str(tool, m.as_str())
}

/// The names in a directory, those of directories with a slash behind them.
pub open spec fn listed_names(found: Seq<(Seq<char>, bool)>) -> Seq<Seq<char>> {
    found.map_values(
        |e: (Seq<char>, bool)|
            if e.1 {
                e.0 + "/"@
            } else {
                e.0
            },
    )
}

/// What was found in a directory, as its model.
pub open spec fn found_view(v: Seq<(String, bool)>) -> Seq<(Seq<char>, bool)> {
    v.map_values(|e: (String, bool)| (e.0@, e.1))
}

/// What is said of a directory that is read.
pub open spec fn directory_answer(path: Seq<char>, found: Seq<(Seq<char>, bool)>) -> JsonView {
    let names = sort_texts(listed_names(found));
    JsonView::Object(
        object_of(
            seq![
                ("path"@, JsonView::String(path)),
                ("isDirectory"@, JsonView::Bool(true)),
                ("entries"@, texts_json(names)),
                ("entryCount"@, count_json(found.len())),
            ],
        ),
    )
}

/// Answers a read of a directory, given the names in it and which of them are directories.
pub fn list_directory(path: &str, found: &Vec<(String, bool)>) -> (r: Json)
    ensures
        r@ == directory_answer(path@, found_view(found@)),
{
    let ghost all = found_view(found@);
    let mut names: Vec<String> = Vec::new();
    let n = found.len();
    let mut i: usize = 0;
    while i < n
        invariant
            i <= n,
            n == found@.len(),
            all == found_view(found@),
            names@.len() == i,
            forall|k: int| 0 <= k < i ==> (#[trigger] names@[k])@ == listed_names(all)[k],
        decreases n - i,
    {
        let mut name = found[i].0.clone();
        if found[i].1 {
            name.append("/");
        }
        names.push(name);
        i = i + 1;
    }
    assert(views(names@) =~= listed_names(all));
    let sorted = sort_strings(&names);
    let mut pairs: Vec<(String, Json)> = Vec::new();
    pairs.push(entry("path", str_to_json(path)));
    pairs.push(entry("isDirectory", Json::Bool(true)));
    pairs.push(entry("entries", texts_to_json(&sorted)));
    pairs.push(entry("entryCount", count_to_json(sorted.len() as u64)));
    assert(members_view(pairs@) =~= seq![
        ("path"@, JsonView::String(path@)),
        ("isDirectory"@, JsonView::Bool(true)),
        ("entries"@, texts_json(sort_texts(listed_names(all)))),
        ("entryCount"@, count_json(all.len())),
    ]);
    build_object(pairs)
}

// ---------------------------------------------------------------------------
// Listing a tree
// ---------------------------------------------------------------------------

/// A flag, or what it is where it is not given.
pub open spec fn flag(input: JsonView, name: Seq<char>, otherwise: bool) -> bool {
    match bool_in(field(input, name)) {
        Some(b) => b,
        None => otherwise,
    }
}

fn read_flag(input: &Json, name: &str, otherwise: bool) -> (r: bool)
    ensures
        r == flag(input@, name@, otherwise),
{
    match input.get_bool(name) {
        Some(b) => b,
        None => otherwise,
    }
}

/// What a listing asks for.
#[derive(Debug)]
pub struct ListRequest {
    /// The directory.
    pub path: String,
    /// Go into the directories that are found.
    pub recursive: bool,
    /// List names that start with a dot.
    pub include_hidden: bool,
}

/// Reads what a listing asks for.
pub fn parse_list(input: &Json) -> (r: Result<ListRequest, ToolError>)
    ensures
        match string_in(field(input@, "path"@)) {
            Some(path) => r matches Ok(q) && q.path@ == path && q.recursive == flag(
                input@,
                "recursive"@,
                false,
            ) && q.include_hidden == flag(input@, "includeHidden"@, false),
            None => r matches Err(e) && e@ == ErrorView::Other("path is required"@),
        },
{
    match input.get_str("path") {
        Some(path) => Ok(
            ListRequest {
                path: path.clone(),
                recursive: read_flag(input, "recursive", false),
                include_hidden: read_flag(input, "includeHidden", false),
            },
        ),
        None => Err(ToolError::other("path is required")),
    }
}

/// The error for a path that is no directory.
pub fn not_a_directory(path: &str) -> (r: ToolError)
    ensures
        r@ == ErrorView::Other("Not a directory: "@ + path@),
{
    let mut m = String::from_str("Not a directory: ");
    m.append(path);
    ToolError::other(m.as_str())
}

/// What a name in a directory stands for.
#[derive(Clone, Copy, Debug, PartialEq, Eq)]
pub enum EntryKind {
    /// A directory.
    Directory,
    /// A symbolic link.
    Symlink,
    /// Anything else.
    File,
}

/// Something that was found in a directory.
#[derive(Debug)]
pub struct FoundEntry {
    /// Its name.
    pub name: String,
    /// Its path.
    pub path: String,
    /// Its path from the directory that is listed.
    pub relative: String,
    /// What it is.
    pub kind: EntryKind,
    /// Its length in bytes.
    pub size: u64,
    /// When it was last changed, in milliseconds since the epoch; 0 where that is not known.
    pub modified: i64,
}

/// What an entry is called.
pub open spec fn kind_label(k: EntryKind) -> Seq<char> {
    match k {
        EntryKind::Directory => "directory"@,
        EntryKind::Symlink => "symlink"@,
        EntryKind::File => "file"@,
    }
}

/// The extension of an entry, with its dot; only files have one.
pub open spec fn entry_extension(e: FoundEntry) -> Option<Seq<char>> {
    match (e.kind, extension_of(e.name@)) {
        (EntryKind::File, Some(x)) => Some("."@ + x),
        _ => None,
    }
}

/// What is said of an entry.
pub open spec fn entry_answer(e: FoundEntry) -> JsonView {
    JsonView::Object(
        object_of(
            seq![
                ("name"@, JsonView::String(e.name@)),
                ("path"@, JsonView::String(e.path@)),
                ("relativePath"@, JsonView::String(e.relative@)),
                ("type"@, JsonView::String(kind_label(e.kind))),
                ("size"@, count_json(e.size as nat)),
                ("extension"@, text_json(entry_extension(e))),
                ("modifiedAt"@, int_json(e.modified as int)),
            ],
        ),
    )
}

/// What is done with an entry: it is left out, or said and gone into.
#[derive(Debug)]
pub enum ListStep {
    /// It is left out.
    Skip,
    /// It is listed.
    List {
        /// What is said of it.
        answer: Json,
        /// What is in it is listed next.
        descend: bool,
    },
}

/// Whether a name is listed.
pub fn lists_name(name: &str, include_hidden: bool) -> (r: bool)
    ensures
        r == (include_hidden || !is_hidden(name@)),
{
    let cs = chars_of(name);
    include_hidden || !(cs.len() > 0 && cs[0] == '.')
}

/// Says what is done with an entry.
pub fn list_entry(e: &FoundEntry, recursive: bool, include_hidden: bool) -> (r: ListStep)
    ensures
        (r is Skip) == (!include_hidden && is_hidden(e.name@)),
        r matches ListStep::List { answer, descend } ==> answer@ == entry_answer(*e) && descend == (
        recursive && e.kind is Directory),
{
    if !lists_name(e.name.as_str(), include_hidden) {
        return ListStep::Skip;
    }
    let label = match e.kind {
        EntryKind::Directory => "directory",
        EntryKind::Symlink => "symlink",
        EntryKind::File => "file",
    };
    let is_file = match e.kind {
        EntryKind::File => true,
        _ => false,
    };
    let ext = if is_file {
        match extension(e.name.as_str()) {
            Some(x) => {
                let mut dotted = String::from_str(".");
                dotted.append(x.as_str());
                Some(dotted)
            },
            None => None,
        }
    } else {
        None
    };
    assert(optional_text(ext) == entry_extension(*e));
    let mut pairs: Vec<(String, Json)> = Vec::new();
    pairs.push(entry("name", str_to_json(e.name.as_str())));
    pairs.push(entry("path", str_to_json(e.path.as_str())));
    pairs.push(entry("relativePath", str_to_json(e.relative.as_str())));
    pairs.push(entry("type", str_to_json(label)));
    pairs.push(entry("size", count_to_json(e.size)));
    pairs.push(entry("extension", text_to_json(&ext)));
    pairs.push(entry("modifiedAt", int_to_json(e.modified)));
    assert(members_view(pairs@) =~= seq![
        ("name"@, JsonView::String(e.name@)),
        ("path"@, JsonView::String(e.path@)),
        ("relativePath"@, JsonView::String(e.relative@)),
        ("type"@, JsonView::String(kind_label(e.kind))),
        ("size"@, count_json(e.size as nat)),
        ("extension"@, text_json(entry_extension(*e))),
        ("modifiedAt"@, int_json(e.modified as int)),
    ]);
    let descend = recursive && match e.kind {
        EntryKind::Directory => true,
        _ => false,
    };
    ListStep::List { answer: build_object(pairs), descend }
}

/// The answer to a listing.
pub open spec fn listing_answer(path: Seq<char>, entries: Seq<JsonView>) -> JsonView {
    JsonView::Object(
        object_of(
            seq![
                ("rootPath"@, JsonView::String(path)),
                ("entries"@, JsonView::Array(entries)),
                ("total"@, count_json(entries.len())),
            ],
        ),
    )
}

/// Answers a listing, given what is said of each entry.
pub fn finish_list(path: &str, entries: Vec<Json>) -> (r: Json)
    ensures
        r@ == listing_answer(path@, items_view(entries@)),
{
    let total = entries.len() as u64;
    proof {
        lemma_array_view(entries);
    }
    let mut pairs: Vec<(String, Json)> = Vec::new();
    pairs.push(entry("rootPath", str_to_json(path)));
    pairs.push(entry("entries", Json::Array(entries)));
    pairs.push(entry("total", count_to_json(total)));
    assert(members_view(pairs@) =~= seq![
        ("rootPath"@, JsonView::String(path@)),
        ("entries"@, JsonView::Array(items_view(entries@))),
        ("total"@, count_json(items_view(entries@).len())),
    ]);
    build_object(pairs)
}

// ---------------------------------------------------------------------------
// Writing
// ---------------------------------------------------------------------------

/// What a write asks for.
#[derive(Debug)]
pub struct WriteRequest {
    /// Where to write.
    pub path: String,
    /// What to write.
    pub content: String,
    /// Replace a file that is there.
    pub overwrite: bool,
    /// Make the directories that the path goes through.
    pub create_dirs: bool,
}

/// Reads what a write asks for.
pub fn parse_write(input: &Json) -> (r: Result<WriteRequest, ToolError>)
    ensures
        match (string_in(field(input@, "path"@)), string_in(field(input@, "content"@))) {
            (None, _) => r matches Err(e) && e@ == ErrorView::Other("path is required"@),
            (Some(_), None) => r matches Err(e) && e@ == ErrorView::Other(
                "content is required"@,
            ),
            (Some(path), Some(content)) => r matches Ok(q) && q.path@ == path && q.content@
                == content && q.overwrite == flag(input@, "overwrite"@, true) && q.create_dirs
                == flag(input@, "createDirs"@, true),
        },
{
    let path = match input.get_str("path") {
        Some(path) => path,
        None => {
            return Err(ToolError::other("path is required"));
        },
    };
    match input.get_str("content") {
        Some(content) => Ok(
            WriteRequest {
                path: path.clone(),
                content: content.clone(),
                overwrite: read_flag(input, "overwrite", true),
                create_dirs: read_flag(input, "createDirs", true),
            },
        ),
        None => Err(ToolError::other("content is required")),
    }
}

/// Checks that a write does not replace a file that it must not replace.
pub fn check_write(q: &WriteRequest, exists: bool) -> (r: Result<(), ToolError>)
    ensures
        match r {
            Ok(_) => q.overwrite || !exists,
            Err(e) => !q.overwrite && exists && e@ == ErrorView::Other(
                "File exists and overwrite=false: "@ + q.path@,
            ),
        },
{
    if !q.overwrite && exists {
        let mut m = String::from_str("File exists and overwrite=false: ");
        m.append(q.path.as_str());
        Err(ToolError::other(m.as_str()))
    } else {
        Ok(())
    }
}

/// What is said of a file that was written.
pub open spec fn written_answer(path: Seq<char>, content: Seq<char>, created: bool) -> JsonView {
    JsonView::Object(
        object_of(
            seq![
                ("success"@, JsonView::Bool(true)),
                ("path"@, JsonView::String(path)),
                ("bytesWritten"@, count_json(byte_len(content))),
                ("created"@, JsonView::Bool(created)),
            ],
        ),
    )
}

/// Answers a write, given whether the file is new.
pub fn finish_write(q: &WriteRequest, created: bool) -> (r: Json)
    ensures
        r@ == written_answer(q.path@, q.content@, created),
{
    let mut pairs: Vec<(String, Json)> = Vec::new();
    pairs.push(entry("success", Json::Bool(true)));
    pairs.push(entry("path", str_to_json(q.path.as_str())));
    pairs.push(entry("bytesWritten", count_to_json(bytes_in(q.content.as_str()) as u64)));
    pairs.push(entry("created", Json::Bool(created)));
    assert(members_view(pairs@) =~= seq![
        ("success"@, JsonView::Bool(true)),
        ("path"@, JsonView::String(q.path@)),
        ("bytesWritten"@, count_json(byte_len(q.content@))),
        ("created"@, JsonView::Bool(created)),
    ]);
    build_object(pairs)
}

// ---------------------------------------------------------------------------
// Deleting
// ---------------------------------------------------------------------------

/// What a deletion asks for.
#[derive(Debug)]
pub struct DeleteRequest {
    /// What to delete.
    pub path: String,
    /// Delete a directory with all that is in it.
    pub recursive: bool,
    /// Nothing there is no error.
    pub force: bool,
}

/// Reads what a deletion asks for.
pub fn parse_delete(input: &Json) -> (r: Result<DeleteRequest, ToolError>)
    ensures
        match string_in(field(input@, "path"@)) {
            Some(path) => r matches Ok(q) && q.path@ == path && q.recursive == flag(
                input@,
                "recursive"@,
                false,
            ) && q.force == flag(input@, "force"@, false),
            None => r matches Err(e) && e@ == ErrorView::Other("path is required"@),
        },
{
    match input.get_str("path") {
        Some(path) => Ok(
            DeleteRequest {
                path: path.clone(),
                recursive: read_flag(input, "recursive", false),
                force: read_flag(input, "force", false),
            },
        ),
        None => Err(ToolError::other("path is required")),
    }
}

/// What is to be deleted.
#[derive(Clone, Copy, Debug, PartialEq, Eq)]
pub enum DeletePlan {
    /// Nothing: there is nothing there.
    Nothing,
    /// A directory and all that is in it.
    Tree,
    /// One file.
    File,
}

/// Says what is to be deleted, given what is there.
pub fn plan_delete(q: &DeleteRequest, exists: bool, is_dir: bool) -> (r: Result<
    DeletePlan,
    ToolError,
>)
    ensures
        match r {
            Ok(DeletePlan::Nothing) => !exists && q.force,
            Ok(DeletePlan::Tree) => exists && is_dir && q.recursive,
            Ok(DeletePlan::File) => exists && !is_dir,
            Err(e) => if exists {
                is_dir && !q.recursive && e@ == ErrorView::Other(
                    "Path is a directory; pass recursive=true to delete: "@ + q.path@,
                )
            } else {
                !q.force && e@ == ErrorView::Other("Path does not exist: "@ + q.path@)
            },
        },
{
    if !exists {
        if q.force {
            return Ok(DeletePlan::Nothing);
        }
        let mut m = String::from_str("Path does not exist: ");
        m.append(q.path.as_str());
        return Err(ToolError::other(m.as_str()));
    }
    if is_dir && !q.recursive {
        let mut m = String::from_str("Path is a directory; pass recursive=true to delete: ");
        m.append(q.path.as_str());
        return Err(ToolError::other(m.as_str()));
    }
    if is_dir {
        Ok(DeletePlan::Tree)
    } else {
        Ok(DeletePlan::File)
    }
}

/// What is said of what was deleted.
pub open spec fn deleted_answer(path: Seq<char>, was_directory: bool) -> JsonView {
    JsonView::Object(
        object_of(
            seq![
                ("success"@, JsonView::Bool(true)),
                ("path"@, JsonView::String(path)),
                ("wasDirectory"@, JsonView::Bool(was_directory)),
            ],
        ),
    )
}

/// Answers a deletion.
pub fn finish_delete(q: &DeleteRequest, plan: DeletePlan) -> (r: Json)
    ensures
        r@ == deleted_answer(q.path@, plan is Tree),
{
    let was_directory = match plan {
        DeletePlan::Tree => true,
        _ => false,
    };
    let mut pairs: Vec<(String, Json)> = Vec::new();
    pairs.push(entry("success", Json::Bool(true)));
    pairs.push(entry("path", str_to_json(q.path.as_str())));
    pairs.push(entry("wasDirectory", Json::Bool(was_directory)));
    assert(members_view(pairs@) =~= seq![
        ("success"@, JsonView::Bool(true)),
        ("path"@, JsonView::String(q.path@)),
        ("wasDirectory"@, JsonView::Bool(was_directory)),
    ]);
    build_object(pairs)
}

// ---------------------------------------------------------------------------
// What a read gives back
// ---------------------------------------------------------------------------

/// A read of lines `s` to `e` gives the lines of the file from `s` on, up to `e` or to the end
/// of the file, whichever comes first: line `n` is in the answer exactly where it is asked for
/// and the file has it.
pub proof fn law_lines_are_read(
    f: FileFacts,
    content: Seq<char>,
    sel: Seq<char>,
    s: nat,
    e: nat,
    summary: bool,
)
    requires
        sel != "raw"@,
        line_range(sel) == Ok::<(nat, nat), Seq<char>>((s, e)),
        1 <= s <= e,
        s <= text_lines(content).len(),
    ensures
        ({
            let total = text_lines(content).len();
            let n = if e <= total {
                (e - s + 1) as nat
            } else {
                (total - s + 1) as nat
            };
            let lines = Seq::new(n, |i: int| text_lines(content)[s - 1 + i]);
            let tagged = Seq::new(n, |i: int| decimal((s + i) as nat) + ":"@ + lines[i]);
            let r = read_answer(f, content, Some(sel), summary);
            &&& r is Ok
            &&& field(r->Ok_0, "content"@) == Some(JsonView::String(join(lines, "\n"@)))
            &&& field(r->Ok_0, "numberedContent"@) == Some(
                JsonView::String(join(tagged, "\n"@)),
            )
            &&& field(r->Ok_0, "startLine"@) == Some(count_json(s))
            &&& field(r->Ok_0, "endLine"@) == Some(
                count_json(
                    if e <= total {
                        e
                    } else {
                        total
                    },
                ),
            )
            &&& field(r->Ok_0, "selectedLines"@) == Some(count_json(n))
            &&& field(r->Ok_0, "totalLines"@) == Some(count_json(total))
            &&& field(r->Ok_0, "selector"@) == Some(JsonView::String(sel))
            &&& field(r->Ok_0, "path"@) == Some(JsonView::String(f.path@))
        }),
{
    let total = text_lines(content).len();
    let end = lesser(e as int, total as int);
    let n = if e <= total {
        (e - s + 1) as nat
    } else {
        (total - s + 1) as nat
    };
    let lines = Seq::new(n, |i: int| text_lines(content)[s - 1 + i]);
    let tagged = Seq::new(n, |i: int| decimal((s + i) as nat) + ":"@ + lines[i]);
    assert(lines_between(content, s as int, end) =~= lines);
    assert(numbered_lines(lines, s as int) =~= tagged);
    lemma_part_fields(f, content, sel, lines, tagged, s, end as nat);
}

#[verifier::rlimit(50)]
proof fn lemma_part_fields(
    f: FileFacts,
    content: Seq<char>,
    sel: Seq<char>,
    lines: Seq<Seq<char>>,
    tagged: Seq<Seq<char>>,
    s: nat,
    end: nat,
)
    ensures
        ({
            let a = JsonView::Object(
                object_of(
                    common_members(f, content, join(lines, "\n"@)) + seq![
                        ("numberedContent"@, JsonView::String(join(tagged, "\n"@))),
                        ("startLine"@, count_json(s)),
                        ("endLine"@, count_json(end)),
                        ("selectedLines"@, count_json(lines.len())),
                        ("selector"@, JsonView::String(sel)),
                    ],
                ),
            );
            &&& field(a, "content"@) == Some(JsonView::String(join(lines, "\n"@)))
            &&& field(a, "path"@) == Some(JsonView::String(f.path@))
            &&& field(a, "totalLines"@) == Some(count_json(text_lines(content).len()))
            &&& field(a, "numberedContent"@) == Some(JsonView::String(join(tagged, "\n"@)))
            &&& field(a, "startLine"@) == Some(count_json(s))
            &&& field(a, "endLine"@) == Some(count_json(end))
            &&& field(a, "selectedLines"@) == Some(count_json(lines.len()))
            &&& field(a, "selector"@) == Some(JsonView::String(sel))
        }),
{
    let pairs = common_members(f, content, join(lines, "\n"@)) + seq![
        ("numberedContent"@, JsonView::String(join(tagged, "\n"@))),
        ("startLine"@, count_json(s)),
        ("endLine"@, count_json(end)),
        ("selectedLines"@, count_json(lines.len())),
        ("selector"@, JsonView::String(sel)),
    ];
    reveal_strlit("content");
    reveal_strlit("path");
    reveal_strlit("size");
    reveal_strlit("totalLines");
    reveal_strlit("encoding");
    reveal_strlit("modifiedAt");
    reveal_strlit("tag");
    reveal_strlit("numberedContent");
    reveal_strlit("startLine");
    reveal_strlit("endLine");
    reveal_strlit("selectedLines");
    reveal_strlit("selector");
    assert("content"@.len() == 7);
    assert("path"@.len() == 4);
    assert("size"@.len() == 4);
    assert("totalLines"@.len() == 10);
    assert("encoding"@.len() == 8);
    assert("modifiedAt"@.len() == 10);
    assert("tag"@.len() == 3);
    assert("numberedContent"@.len() == 15);
    assert("startLine"@.len() == 9);
    assert("endLine"@.len() == 7);
    assert("selectedLines"@.len() == 13);
    assert("selector"@.len() == 8);
    assert("content"@[0] != "endLine"@[0]);
    assert("path"@[0] != "size"@[0]);
    assert("totalLines"@[0] != "modifiedAt"@[0]);
    assert("encoding"@[0] != "selector"@[0]);
    law_object_holds(pairs, 0, "content"@);
    law_object_holds(pairs, 1, "path"@);
    law_object_holds(pairs, 3, "totalLines"@);
    law_object_holds(pairs, 7, "numberedContent"@);
    law_object_holds(pairs, 8, "startLine"@);
    law_object_holds(pairs, 9, "endLine"@);
    law_object_holds(pairs, 10, "selectedLines"@);
    law_object_holds(pairs, 11, "selector"@);
}

/// A read from a line that the file does not have fails.
pub proof fn law_start_behind_the_end(
    f: FileFacts,
    content: Seq<char>,
    sel: Seq<char>,
    s: nat,
    e: nat,
    summary: bool,
)
    requires
        sel != "raw"@,
        line_range(sel) == Ok::<(nat, nat), Seq<char>>((s, e)),
        s > text_lines(content).len(),
    ensures
        read_answer(f, content, Some(sel), summary) is Err,
{
}

/// A read of a file as it is gives all of its text; so does a read without a selector where
/// outlines are off, where the file is short, or where it is neither code nor a document.
#[verifier::rlimit(50)]
pub proof fn law_whole_text_is_read(
    f: FileFacts,
    content: Seq<char>,
    sel: Option<Seq<char>>,
    summary: bool,
)
    requires
        sel == Some("raw"@) || (sel is None && (!summary || text_lines(content).len()
            <= SUMMARY_MIN_LINES || (summary_language(plain_extension(f.name@)) == ""@
            && !is_document(plain_extension(f.name@))))),
    ensures
        ({
            let r = read_answer(f, content, sel, summary);
            &&& r is Ok
            &&& field(r->Ok_0, "content"@) == Some(JsonView::String(content))
            &&& field(r->Ok_0, "path"@) == Some(JsonView::String(f.path@))
            &&& field(r->Ok_0, "size"@) == Some(count_json(f.size as nat))
            &&& field(r->Ok_0, "totalLines"@) == Some(count_json(text_lines(content).len()))
            &&& field(r->Ok_0, "tag"@) == Some(JsonView::String(tag_of(content)))
            &&& (field(r->Ok_0, "selector"@) is Some) == (sel is Some)
        }),
{
    let pairs = if sel is Some {
        common_members(f, content, content).push(("selector"@, JsonView::String("raw"@)))
    } else {
        common_members(f, content, content)
    };
    reveal_strlit("content");
    reveal_strlit("path");
    reveal_strlit("size");
    reveal_strlit("totalLines");
    reveal_strlit("encoding");
    reveal_strlit("modifiedAt");
    reveal_strlit("tag");
    reveal_strlit("selector");
    assert("content"@.len() == 7);
    assert("path"@.len() == 4);
    assert("size"@.len() == 4);
    assert("totalLines"@.len() == 10);
    assert("encoding"@.len() == 8);
    assert("modifiedAt"@.len() == 10);
    assert("tag"@.len() == 3);
    assert("selector"@.len() == 8);
    assert("path"@[0] != "size"@[0]);
    assert("totalLines"@[0] != "modifiedAt"@[0]);
    assert("encoding"@[0] != "selector"@[0]);
    law_object_holds(pairs, 0, "content"@);
    law_object_holds(pairs, 1, "path"@);
    law_object_holds(pairs, 2, "size"@);
    law_object_holds(pairs, 3, "totalLines"@);
    law_object_holds(pairs, 6, "tag"@);
    law_object_holds(pairs, 7, "selector"@);
}

proof fn lemma_no_sign(n: nat, c: char)
    requires
        c == '+' || c == '-' || c == ':',
    ensures
        !decimal(n).contains(c),
{
    law_decimal_reads_back(n);
    if decimal(n).contains(c) {
        let i = choose|i: int| 0 <= i < decimal(n).len() && decimal(n)[i] == c;
        assert(is_digit(decimal(n)[i]));
    }
}

proof fn lemma_first_sign(a: Seq<char>, c: char, b: Seq<char>)
    requires
        !a.contains(c),
    ensures
        index_of_char(a + seq![c] + b, c) == Some(a.len() as int),
{
    let s = a + seq![c] + b;
    lemma_index_of_char(s, c);
    assert(s[a.len() as int] == c);
    match index_of_char(s, c) {
        Some(i) => {
            if i < a.len() {
                assert(a[i] == c);
            }
        },
        None => {
            assert(s.contains(c));
        },
    }
}

/// `S-E` selects lines S to E, `S+C` the C lines from S on, and `N` line N alone.
pub proof fn law_selectors(s: nat, n: nat)
    requires
        1 <= s <= u64::MAX,
        1 <= n <= u64::MAX,
    ensures
        line_range(decimal(s)) == Ok::<(nat, nat), Seq<char>>((s, s)),
        s <= n ==> line_range(decimal(s) + seq!['-'] + decimal(n)) == Ok::<(nat, nat), Seq<char>>(
            (s, n),
        ),
        s > n ==> line_range(decimal(s) + seq!['-'] + decimal(n)) is Err,
        s + n - 1 <= u64::MAX ==> line_range(decimal(s) + seq!['+'] + decimal(n)) == Ok::<
            (nat, nat),
            Seq<char>,
        >((s, (s + n - 1) as nat)),
{
    let a = decimal(s);
    let b = decimal(n);
    law_decimal_reads_back(s);
    law_decimal_reads_back(n);
    lemma_no_sign(s, '+');
    lemma_no_sign(s, '-');
    lemma_no_sign(n, '+');
    lemma_index_of_char(a, '+');
    lemma_index_of_char(a, '-');
    let dash = a + seq!['-'] + b;
    let plus = a + seq!['+'] + b;
    lemma_first_sign(a, '-', b);
    lemma_first_sign(a, '+', b);
    lemma_index_of_char(dash, '+');
    assert(index_of_char(dash, '+') is None) by {
        if let Some(i) = index_of_char(dash, '+') {
            if i < a.len() {
                assert(a[i] == '+');
            } else if i > a.len() {
                assert(b[i - a.len() - 1] == '+');
            }
        }
    }
    let k = a.len() as int;
    assert(dash.take(k) =~= a);
    assert(dash.skip(k + 1) =~= b);
    assert(plus.take(k) =~= a);
    assert(plus.skip(k + 1) =~= b);
}

/// Line numbers and counts start at 1: a selector with 0 as its start or its count is refused,
/// and so are an empty one and `conflicts`.
pub proof fn law_bad_selectors(n: nat)
    ensures
        line_range(decimal(0)) is Err,
        line_range(decimal(0) + seq!['-'] + decimal(n)) is Err,
        line_range(decimal(0) + seq!['+'] + decimal(n)) is Err,
        line_range(decimal(n) + seq!['+'] + decimal(0)) is Err,
        line_range(Seq::empty()) is Err,
        line_range("conflicts"@) is Err,
{
    let z = decimal(0);
    law_decimal_reads_back(0);
    law_decimal_reads_back(n);
    lemma_no_sign(0, '+');
    lemma_no_sign(0, '-');
    lemma_no_sign(n, '+');
    lemma_index_of_char(z, '+');
    lemma_index_of_char(z, '-');
    let dash = z + seq!['-'] + decimal(n);
    let plus = z + seq!['+'] + decimal(n);
    let none = decimal(n) + seq!['+'] + z;
    lemma_first_sign(z, '-', decimal(n));
    lemma_first_sign(z, '+', decimal(n));
    lemma_first_sign(decimal(n), '+', z);
    lemma_index_of_char(dash, '+');
    if let Some(i) = index_of_char(dash, '+') {
        if i < z.len() {
            assert(z[i] == '+');
        } else if i > z.len() {
            assert(decimal(n)[i - z.len() - 1] == '+');
        }
    }
    let k = z.len() as int;
    assert(dash.take(k) =~= z);
    assert(dash.skip(k + 1) =~= decimal(n));
    assert(plus.take(k) =~= z);
    assert(plus.skip(k + 1) =~= decimal(n));
    let m = decimal(n).len() as int;
    assert(none.take(m) =~= decimal(n));
    assert(none.skip(m + 1) =~= z);
    law_no_number(Seq::empty(), 0);
    reveal_strlit("conflicts");
    let c = "conflicts"@;
    assert(c.len() == 9);
    lemma_index_of_char(c, '+');
    lemma_index_of_char(c, '-');
    law_no_number(c, 0);
}

/// A path with a range of lines, or with `raw`, behind a colon is the path and the selector. A
/// path without a colon, or with something else behind the last one, is the path alone.
#[verifier::rlimit(50)]
pub proof fn law_path_with_selector(path: Seq<char>, s: nat, n: nat)
    requires
        path.len() > 0,
    ensures
        path_and_selector(path + seq![':'] + decimal(s)) == (path, Some(decimal(s))),
        path_and_selector(path + seq![':'] + decimal(s) + seq!['-'] + decimal(n)) == (
            path,
            Some(decimal(s) + seq!['-'] + decimal(n)),
        ),
        path_and_selector(path + seq![':'] + decimal(s) + seq!['+'] + decimal(n)) == (
            path,
            Some(decimal(s) + seq!['+'] + decimal(n)),
        ),
        path_and_selector(path + seq![':'] + "raw"@) == (path, Some("raw"@)),
        !path.contains(':') ==> path_and_selector(path) == (path, None::<Seq<char>>),
        path.last() == '/' ==> path_and_selector(path) == (path, None::<Seq<char>>),
{
    law_decimal_reads_back(s);
    law_decimal_reads_back(n);
    let dash = decimal(s) + seq!['-'] + decimal(n);
    let plus = decimal(s) + seq!['+'] + decimal(n);
    assert forall|i: int| 0 <= i < decimal(s).len() implies in_selector(
        #[trigger] decimal(s)[i],
    ) by {
        assert(is_digit(decimal(s)[i]));
    }
    assert forall|i: int| 0 <= i < dash.len() implies in_selector(#[trigger] dash[i]) by {
        if i < decimal(s).len() {
            assert(is_digit(decimal(s)[i]));
        } else if i > decimal(s).len() {
            assert(is_digit(decimal(n)[i - decimal(s).len() - 1]));
        }
    }
    assert forall|i: int| 0 <= i < plus.len() implies in_selector(#[trigger] plus[i]) by {
        if i < decimal(s).len() {
            assert(is_digit(decimal(s)[i]));
        } else if i > decimal(s).len() {
            assert(is_digit(decimal(n)[i - decimal(s).len() - 1]));
        }
    }
    reveal_strlit("raw");
    reveal_strlit("conflicts");
    assert(!"raw"@.contains(':'));
    lemma_selector_behind(path, decimal(s));
    lemma_selector_behind(path, dash);
    lemma_selector_behind(path, plus);
    lemma_selector_behind(path, "raw"@);
    assert(path + seq![':'] + decimal(s) + seq!['-'] + decimal(n) =~= path + seq![':'] + dash);
    assert(path + seq![':'] + decimal(s) + seq!['+'] + decimal(n) =~= path + seq![':'] + plus);
    law_last_index(path, ':');
    if path.last() == '/' {
        if let Some(p) = last_index_of(path, ':') {
            let after = path.skip(p + 1);
            assert(p < path.len() - 1);
            assert(after.last() == '/');
            assert(after[after.len() - 1] == '/');
            assert("raw"@.len() == 3 && "raw"@[2] == 'w');
            assert("conflicts"@.len() == 9 && "conflicts"@[8] == 's');
            assert(!in_selector(after[after.len() - 1]));
        }
    }
}

proof fn lemma_selector_behind(path: Seq<char>, sel: Seq<char>)
    requires
        path.len() > 0,
        sel == "raw"@ || forall|i: int| 0 <= i < sel.len() ==> in_selector(#[trigger] sel[i]),
        !"raw"@.contains(':'),
    ensures
        path_and_selector(path + seq![':'] + sel) == (path, Some(sel)),
{
    let s = path + seq![':'] + sel;
    law_last_index(s, ':');
    assert(s[path.len() as int] == ':');
    match last_index_of(s, ':') {
        Some(i) => {
            if i > path.len() {
                assert(sel[i - path.len() - 1] == ':');
                assert(sel.contains(':'));
            }
            assert(s.take(path.len() as int) =~= path);
            assert(s.skip(path.len() as int + 1) =~= sel);
        },
        None => {
            assert(s.contains(':'));
        },
    }
}

/// What one more answer adds to a read of many paths: a file that still fits the budget, or the
/// first one, is given back behind the others; one that does not fit and one that could not be
/// read are told as failed, under their path, and change nothing else.
pub proof fn law_one_more_answer(
    paths: Seq<Seq<char>>,
    answers: Seq<Result<JsonView, Seq<char>>>,
    path: Seq<char>,
    answer: Result<JsonView, Seq<char>>,
)
    requires
        paths.len() == answers.len(),
    ensures
        ({
            let b = gathered_reads(paths, answers);
            let n = gathered_reads(paths.push(path), answers.push(answer));
            let fits = b.files.len() == 0 || b.used + answer_size(answer->Ok_0)
                <= READ_BATCH_BYTE_BUDGET;
            &&& answer is Ok && fits ==> n.files == b.files.push(answer->Ok_0) && n.failed
                == b.failed && n.used == b.used + answer_size(answer->Ok_0)
            &&& !(answer is Ok && fits) ==> {
                &&& n.files == b.files
                &&& n.used == b.used
                &&& n.failed.len() == b.failed.len() + 1
                &&& n.failed.drop_last() == b.failed
                &&& field(n.failed.last(), "path"@) == Some(JsonView::String(path))
                &&& answer is Err ==> field(n.failed.last(), "error"@) == Some(
                    JsonView::String(answer->Err_0),
                )
            }
        }),
{
    assert(paths.push(path).drop_last() =~= paths);
    assert(answers.push(answer).drop_last() =~= answers);
    let b = gathered_reads(paths, answers);
    let n = gathered_reads(paths.push(path), answers.push(answer));
    let why = match answer {
        Ok(v) => over_budget(answer_size(v)),
        Err(e) => e,
    };
    let pairs = seq![("path"@, JsonView::String(path)), ("error"@, JsonView::String(why))];
    reveal_strlit("path");
    reveal_strlit("error");
    assert("path"@.len() == 4);
    assert("error"@.len() == 5);
    law_object_holds(pairs, 0, "path"@);
    law_object_holds(pairs, 1, "error"@);
    if n.failed.len() > b.failed.len() {
        assert(n.failed.drop_last() =~= b.failed);
    }
}

/// The answer to a read of many paths holds the files that were read, those that failed, how
/// many there are of both and the bytes of the files.
pub proof fn law_batch_answer(b: BatchView)
    ensures
        field(batch_answer(b), "files"@) == Some(JsonView::Array(b.files)),
        field(batch_answer(b), "failed"@) == Some(JsonView::Array(b.failed)),
        field(batch_answer(b), "count"@) == Some(count_json(b.files.len())),
        field(batch_answer(b), "failedCount"@) == Some(count_json(b.failed.len())),
        field(batch_answer(b), "bytes"@) == Some(count_json(b.used)),
{
    let pairs = seq![
        ("files"@, JsonView::Array(b.files)),
        ("failed"@, JsonView::Array(b.failed)),
        ("count"@, count_json(b.files.len())),
        ("failedCount"@, count_json(b.failed.len())),
        ("bytes"@, count_json(b.used)),
    ];
    reveal_strlit("files");
    reveal_strlit("failed");
    reveal_strlit("count");
    reveal_strlit("failedCount");
    reveal_strlit("bytes");
    assert("files"@.len() == 5);
    assert("failed"@.len() == 6);
    assert("count"@.len() == 5);
    assert("failedCount"@.len() == 11);
    assert("bytes"@.len() == 5);
    assert("files"@[0] != "count"@[0]);
    assert("files"@[0] != "bytes"@[0]);
    assert("count"@[0] != "bytes"@[0]);
    law_object_holds(pairs, 0, "files"@);
    law_object_holds(pairs, 1, "failed"@);
    law_object_holds(pairs, 2, "count"@);
    law_object_holds(pairs, 3, "failedCount"@);
    law_object_holds(pairs, 4, "bytes"@);
}

/// An answer counts by its content where it has one.
pub proof fn law_answer_counts_by_its_content(v: JsonView, s: Seq<char>)
    requires
        field(v, "content"@) == Some(JsonView::String(s)),
    ensures
        answer_size(v) == byte_len(s),
{
}

proof fn lemma_paths_of(items: Seq<JsonView>)
    ensures
        paths_of(items) is Ok <==> forall|i: int|
            0 <= i < items.len() ==> (#[trigger] items[i] matches JsonView::String(s)
                && !is_blank(s)),
        paths_of(items) matches Ok(v) ==> v.len() == items.len() && forall|i: int|
            0 <= i < items.len() ==> #[trigger] items[i] == JsonView::String(v[i]),
    decreases items.len(),
{
    if items.len() > 0 {
        let d = items.drop_last();
        lemma_paths_of(d);
        assert(items[items.len() - 1] == items.last());
        assert forall|i: int| 0 <= i < d.len() implies items[i] == d[i] by {}
        if paths_of(items) is Ok {
            assert forall|i: int| 0 <= i < items.len() implies (
            #[trigger] items[i] matches JsonView::String(s) && !is_blank(s)) by {
                if i < d.len() {
                    assert(d[i] matches JsonView::String(s) && !is_blank(s));
                }
            }
        } else if paths_of(d) is Err {
            let i = choose|i: int|
                0 <= i < d.len() && !(#[trigger] d[i] matches JsonView::String(s) && !is_blank(s));
            assert(!(items[i] matches JsonView::String(s) && !is_blank(s)));
        }
    }
}

/// A read of many paths is one of 1 to 10 texts that are not blank, in their order; anything
/// else under `paths` is refused.
pub proof fn law_many_paths_asked(input: JsonView)
    requires
        field(input, "paths"@) is Some,
    ensures
        read_asked(input) is Ok <==> (field(input, "paths"@)->0 matches JsonView::Array(items)
            && 1 <= items.len() <= 10 && forall|i: int|
            0 <= i < items.len() ==> (#[trigger] items[i] matches JsonView::String(s)
                && !is_blank(s))),
        read_asked(input) matches Ok(q) ==> q is Many && q->Many_0.len()
            == field(input, "paths"@)->0->Array_0.len() && (forall|i: int|
            0 <= i < q->Many_0.len() ==> field(input, "paths"@)->0->Array_0[i]
                == JsonView::String(#[trigger] q->Many_0[i])) && q->Many_1 == match nat_in(
            field(input, "maxSize"@),
        ) {
            Some(n) => n,
            None => 10 * 1024 * 1024,
        },
{
    if let JsonView::Array(items) = field(input, "paths"@)->0 {
        lemma_paths_of(items);
    }
}

/// A read without `paths` is one of the text under `path`, and is refused where there is none.
/// The size limit is ten mebibytes where none is given.
pub proof fn law_one_path_asked(input: JsonView)
    requires
        field(input, "paths"@) is None,
    ensures
        read_asked(input) is Ok <==> field(input, "path"@) matches Some(JsonView::String(_)),
        read_asked(input) matches Ok(q) ==> q is One && field(input, "path"@) == Some(
            JsonView::String(q->One_0),
        ) && q->One_1 == match nat_in(field(input, "maxSize"@)) {
            Some(n) => n,
            None => 10 * 1024 * 1024,
        },
{
}

/// A file can be read exactly where it is one and is not larger than the limit.
pub proof fn law_readable(path: Seq<char>, is_file: bool, size: nat, max_size: nat)
    ensures
        unreadable(path, is_file, size, max_size) is None <==> is_file && size <= max_size,
{
}

/// One to 32 files are read at once: one where that is turned off, else as many as asked for
/// within those bounds, and eight where nothing is.
#[verifier::rlimit(50)]
pub proof fn law_concurrency(parallel: Option<Seq<char>>, max: Option<Seq<char>>, n: nat)
    ensures
        1 <= batch_concurrency(parallel, max) <= 32,
        batch_concurrency(None, None) == 8,
        parallel is None && max == Some(decimal(n)) && 1 <= n <= 32 ==> batch_concurrency(
            parallel,
            max,
        ) == n,
        parallel is None && max == Some(decimal(n)) && 32 < n <= u64::MAX ==> batch_concurrency(
            parallel,
            max,
        ) == 32,
        parallel == Some("0"@) || parallel == Some("false"@) || parallel == Some("no"@) || parallel
            == Some("off"@) ==> batch_concurrency(parallel, max) == 1,
        max is None && parallel == Some("1"@) ==> batch_concurrency(parallel, max) == 8,
{
    law_decimal_reads_back(n);
    let d = decimal(n);
    assert(is_digit(d[0]) && is_digit(d[d.len() - 1]));
    lemma_trim_plain(d);
    reveal_strlit("0");
    reveal_strlit("1");
    reveal_strlit("false");
    reveal_strlit("no");
    reveal_strlit("off");
    lemma_trim_plain("0"@);
    lemma_trim_plain("1"@);
    lemma_trim_plain("false"@);
    lemma_trim_plain("no"@);
    lemma_trim_plain("off"@);
    assert(ascii_lower("0"@) =~= "0"@);
    assert(ascii_lower("1"@) =~= "1"@);
    assert(ascii_lower("1"@)[0] == '1');
    assert(ascii_lower("false"@) =~= "false"@);
    assert(ascii_lower("no"@) =~= "no"@);
    assert(ascii_lower("off"@) =~= "off"@);
    assert("1"@.len() == 1 && "0"@.len() == 1 && "0"@[0] == '0');
    assert("false"@.len() == 5 && "no"@.len() == 2 && "off"@.len() == 3);
}

proof fn lemma_trim_plain(s: Seq<char>)
    requires
        s.len() > 0,
        !is_white(s[0]),
        !is_white(s.last()),
    ensures
        trim(s) == s,
{
    law_trim(Seq::empty(), s, Seq::empty());
    assert(Seq::<char>::empty() + s + Seq::<char>::empty() =~= s);
}

/// Outlines are on unless the operator turned them off.
pub proof fn law_outlines(setting: Option<Seq<char>>)
    ensures
        outlines_on(None),
        !outlines_on(Some("0"@)),
        !outlines_on(Some("false"@)),
        outlines_on(Some("1"@)),
        outlines_on(Some("true"@)),
{
    reveal_strlit("0");
    reveal_strlit("1");
    reveal_strlit("true");
    reveal_strlit("false");
    assert(ascii_lower("false"@) =~= "false"@);
    assert(ascii_lower("1"@).len() == 1 && ascii_lower("true"@).len() == 4);
    assert("1"@[0] == '1' && "0"@[0] == '0' && "1"@.len() == 1 && "0"@.len() == 1);
    assert("true"@.len() == 4 && "false"@.len() == 5);
}

/// A flag is what the input says of it, and what is taken otherwise where it says nothing.
pub proof fn law_flag(input: JsonView, name: Seq<char>, otherwise: bool)
    ensures
        field(input, name) matches Some(JsonView::Bool(b)) ==> flag(input, name, otherwise) == b,
        field(input, name) is None ==> flag(input, name, otherwise) == otherwise,
{
}

/// A directory is answered with the names in it, each once and in order, with a slash behind
/// those of directories.
pub proof fn law_directory_answer(path: Seq<char>, found: Seq<(Seq<char>, bool)>, e: int)
    ensures
        field(directory_answer(path, found), "path"@) == Some(JsonView::String(path)),
        field(directory_answer(path, found), "isDirectory"@) == Some(JsonView::Bool(true)),
        field(directory_answer(path, found), "entryCount"@) == Some(count_json(found.len())),
        exists|names: Seq<Seq<char>>|
            {
                &&& field(directory_answer(path, found), "entries"@) == Some(
                    #[trigger] texts_json(names),
                )
                &&& names.len() == found.len()
                &&& forall|i: int, j: int|
                    0 <= i < j < names.len() ==> !before(#[trigger] names[j], #[trigger] names[i])
                &&& 0 <= e < found.len() && found[e].1 ==> names.contains(found[e].0 + "/"@)
                &&& 0 <= e < found.len() && !found[e].1 ==> names.contains(found[e].0)
            },
{
    let listed = listed_names(found);
    let names = sort_texts(listed);
    law_sort_texts(listed);
    let pairs = seq![
        ("path"@, JsonView::String(path)),
        ("isDirectory"@, JsonView::Bool(true)),
        ("entries"@, texts_json(names)),
        ("entryCount"@, count_json(found.len())),
    ];
    reveal_strlit("path");
    reveal_strlit("isDirectory");
    reveal_strlit("entries");
    reveal_strlit("entryCount");
    assert("path"@.len() == 4);
    assert("isDirectory"@.len() == 11);
    assert("entries"@.len() == 7);
    assert("entryCount"@.len() == 10);
    law_object_holds(pairs, 0, "path"@);
    law_object_holds(pairs, 1, "isDirectory"@);
    law_object_holds(pairs, 2, "entries"@);
    law_object_holds(pairs, 3, "entryCount"@);
    if 0 <= e < found.len() {
        assert(listed[e] == if found[e].1 {
            found[e].0 + "/"@
        } else {
            found[e].0
        });
        lemma_sorted_holds(listed, listed[e]);
    }
    lemma_sorted_length(listed);
    assert(field(directory_answer(path, found), "entries"@) == Some(texts_json(names)));
}

proof fn lemma_sorted_holds(v: Seq<Seq<char>>, x: Seq<char>)
    requires
        v.contains(x),
    ensures
        sort_texts(v).contains(x),
{
    broadcast use vstd::seq_lib::group_to_multiset_ensures;
    law_sort_texts(v);
    assert(v.to_multiset().contains(x));
    assert(sort_texts(v).to_multiset().contains(x));
}

proof fn lemma_sorted_length(v: Seq<Seq<char>>)
    ensures
        sort_texts(v).len() == v.len(),
{
    broadcast use vstd::seq_lib::group_to_multiset_ensures;
    law_sort_texts(v);
    assert(sort_texts(v).to_multiset().len() == v.to_multiset().len());
}

/// What is said of an entry of a listing; only a file has an extension, with its dot.
#[verifier::rlimit(50)]
pub proof fn law_entry_answer(e: FoundEntry)
    ensures
        field(entry_answer(e), "name"@) == Some(JsonView::String(e.name@)),
        field(entry_answer(e), "path"@) == Some(JsonView::String(e.path@)),
        field(entry_answer(e), "relativePath"@) == Some(JsonView::String(e.relative@)),
        field(entry_answer(e), "type"@) == Some(
            JsonView::String(
                match e.kind {
                    EntryKind::Directory => "directory"@,
                    EntryKind::Symlink => "symlink"@,
                    EntryKind::File => "file"@,
                },
            ),
        ),
        field(entry_answer(e), "size"@) == Some(count_json(e.size as nat)),
        field(entry_answer(e), "modifiedAt"@) == Some(int_json(e.modified as int)),
        field(entry_answer(e), "extension"@) == match (e.kind, extension_of(e.name@)) {
            (EntryKind::File, Some(x)) => Some(JsonView::String("."@ + x)),
            _ => Some(JsonView::Null),
        },
{
    let pairs = seq![
        ("name"@, JsonView::String(e.name@)),
        ("path"@, JsonView::String(e.path@)),
        ("relativePath"@, JsonView::String(e.relative@)),
        ("type"@, JsonView::String(kind_label(e.kind))),
        ("size"@, count_json(e.size as nat)),
        ("extension"@, text_json(entry_extension(e))),
        ("modifiedAt"@, int_json(e.modified as int)),
    ];
    reveal_strlit("name");
    reveal_strlit("path");
    reveal_strlit("relativePath");
    reveal_strlit("type");
    reveal_strlit("size");
    reveal_strlit("extension");
    reveal_strlit("modifiedAt");
    assert("name"@.len() == 4);
    assert("path"@.len() == 4);
    assert("relativePath"@.len() == 12);
    assert("type"@.len() == 4);
    assert("size"@.len() == 4);
    assert("extension"@.len() == 9);
    assert("modifiedAt"@.len() == 10);
    assert("name"@[0] != "path"@[0]);
    assert("name"@[0] != "type"@[0]);
    assert("name"@[0] != "size"@[0]);
    assert("path"@[0] != "type"@[0]);
    assert("path"@[0] != "size"@[0]);
    assert("type"@[0] != "size"@[0]);
    law_object_holds(pairs, 0, "name"@);
    law_object_holds(pairs, 1, "path"@);
    law_object_holds(pairs, 2, "relativePath"@);
    law_object_holds(pairs, 3, "type"@);
    law_object_holds(pairs, 4, "size"@);
    law_object_holds(pairs, 5, "extension"@);
    law_object_holds(pairs, 6, "modifiedAt"@);
}

/// The extension of a name is what stands behind its last dot; a name without a dot, and one
/// whose only dot is its first character, has none.
pub proof fn law_extension(stem: Seq<char>, ext: Seq<char>)
    requires
        stem.len() > 0,
        !ext.contains('.'),
        stem + seq!['.'] + ext != ".."@,
    ensures
        extension_of(stem + seq!['.'] + ext) == Some(ext),
        extension_of(ext) is None,
        extension_of(seq!['.'] + ext) is None,
{
    let s = stem + seq!['.'] + ext;
    law_last_index(s, '.');
    assert(s[stem.len() as int] == '.');
    match last_index_of(s, '.') {
        Some(i) => {
            if i > stem.len() {
                assert(ext[i - stem.len() - 1] == '.');
                assert(ext.contains('.'));
            }
            assert(s.skip(stem.len() as int + 1) =~= ext);
        },
        None => {
            assert(s.contains('.'));
        },
    }
    law_last_index(ext, '.');
    let h = seq!['.'] + ext;
    law_last_index(h, '.');
    if let Some(i) = last_index_of(h, '.') {
        if i > 0 {
            assert(ext[i - 1] == '.');
            assert(ext.contains('.'));
        }
    }
}

/// The answers to a listing, a write and a deletion.
#[verifier::rlimit(50)]
pub proof fn law_other_answers(
    path: Seq<char>,
    entries: Seq<JsonView>,
    content: Seq<char>,
    yes: bool,
)
    ensures
        field(listing_answer(path, entries), "rootPath"@) == Some(JsonView::String(path)),
        field(listing_answer(path, entries), "entries"@) == Some(JsonView::Array(entries)),
        field(listing_answer(path, entries), "total"@) == Some(count_json(entries.len())),
        field(written_answer(path, content, yes), "success"@) == Some(JsonView::Bool(true)),
        field(written_answer(path, content, yes), "path"@) == Some(JsonView::String(path)),
        field(written_answer(path, content, yes), "bytesWritten"@) == Some(
            count_json(byte_len(content)),
        ),
        field(written_answer(path, content, yes), "created"@) == Some(JsonView::Bool(yes)),
        field(deleted_answer(path, yes), "success"@) == Some(JsonView::Bool(true)),
        field(deleted_answer(path, yes), "path"@) == Some(JsonView::String(path)),
        field(deleted_answer(path, yes), "wasDirectory"@) == Some(JsonView::Bool(yes)),
{
    let a = seq![
        ("rootPath"@, JsonView::String(path)),
        ("entries"@, JsonView::Array(entries)),
        ("total"@, count_json(entries.len())),
    ];
    let b = seq![
        ("success"@, JsonView::Bool(true)),
        ("path"@, JsonView::String(path)),
        ("bytesWritten"@, count_json(byte_len(content))),
        ("created"@, JsonView::Bool(yes)),
    ];
    let c = seq![
        ("success"@, JsonView::Bool(true)),
        ("path"@, JsonView::String(path)),
        ("wasDirectory"@, JsonView::Bool(yes)),
    ];
    reveal_strlit("rootPath");
    reveal_strlit("entries");
    reveal_strlit("total");
    reveal_strlit("success");
    reveal_strlit("path");
    reveal_strlit("bytesWritten");
    reveal_strlit("created");
    reveal_strlit("wasDirectory");
    assert("rootPath"@.len() == 8);
    assert("entries"@.len() == 7);
    assert("total"@.len() == 5);
    assert("success"@.len() == 7);
    assert("path"@.len() == 4);
    assert("bytesWritten"@.len() == 12);
    assert("created"@.len() == 7);
    assert("wasDirectory"@.len() == 12);
    assert("entries"@[0] != "success"@[0]);
    assert("entries"@[0] != "created"@[0]);
    assert("success"@[0] != "created"@[0]);
    assert("bytesWritten"@[0] != "wasDirectory"@[0]);
    law_object_holds(a, 0, "rootPath"@);
    law_object_holds(a, 1, "entries"@);
    law_object_holds(a, 2, "total"@);
    law_object_holds(b, 0, "success"@);
    law_object_holds(b, 1, "path"@);
    law_object_holds(b, 2, "bytesWritten"@);
    law_object_holds(b, 3, "created"@);
    law_object_holds(c, 0, "success"@);
    law_object_holds(c, 1, "path"@);
    law_object_holds(c, 2, "wasDirectory"@);
}

} // verus!
