//! The `edit` tool: precise edits of a text, by line numbers or by the text to be replaced.
//!
//! Two things keep an edit from landing in the wrong place. A content tag, returned with
//! every read, tells whether the text has changed since. And small slips (line numbers that
//! are off, trailing white space, indentation) are put right where exactly one place fits;
//! where several do, the edit is refused.
use vstd::prelude::*;

use crate::error::debug_str;
use crate::error::ErrorView;
use crate::error::ToolError;
use crate::json::add_maybe;
use crate::json::array_in;
use crate::json::bool_in;
use crate::json::build_object;
use crate::json::count_json;
use crate::json::count_to_json;
use crate::json::entry;
use crate::json::field;
use crate::json::items_view;
use crate::json::law_object_holds;
use crate::json::lemma_array_view;
use crate::json::maybe;
use crate::json::members_view;
use crate::json::nat_in;
use crate::json::object_of;
use crate::json::str_to_json;
use crate::json::string_in;
use crate::json::texts_json;
use crate::json::texts_to_json;
use crate::json::Json;
use crate::json::JsonView;
use crate::text::chars_of;
use crate::text::count;
use crate::text::count_from;
use crate::text::cut;
use crate::text::decimal;
use crate::text::extend;
use crate::text::find_from;
use crate::text::is_white;
use crate::text::join;
use crate::text::law_split_of_join;
use crate::text::law_trim;
use crate::text::lemma_find_from;
use crate::text::lemma_split_nonempty;
use crate::text::lemma_split_pieces;
use crate::text::occurs_at;
use crate::text::push_decimal;
use crate::text::push_wide_decimal;
use crate::text::replaced;
use crate::text::replaced_from;
use crate::text::runs;
use crate::text::same;
use crate::text::same_chars;
use crate::text::split_chars;
use crate::text::split_on;
use crate::text::string_of;
use crate::text::trim;
use crate::text::trim_end;
use crate::text::trimmed;
use crate::text::trimmed_end;
use crate::text::views;
use crate::types::optional_text;

verus! {

// ---------------------------------------------------------------------------
// Content tags
// ---------------------------------------------------------------------------

/// `s` without the byte order mark that it may start with.
pub open spec fn without_bom(s: Seq<char>) -> Seq<char> {
    if s.len() > 0 && s[0] == '\u{feff}' {
        s.drop_first()
    } else {
        s
    }
}

/// `s` with every line ending written as a line feed.
pub open spec fn unix_newlines(s: Seq<char>) -> Seq<char>
    decreases s.len(),
{
    if s.len() == 0 {
        s
    } else if s[0] == '\r' {
        if s.len() > 1 && s[1] == '\n' {
            seq!['\n'] + unix_newlines(s.skip(2))
        } else {
            seq!['\n'] + unix_newlines(s.skip(1))
        }
    } else {
        seq![s[0]] + unix_newlines(s.skip(1))
    }
}

/// The text that a tag is made of: no byte order mark, line feeds only.
pub open spec fn tag_text(content: Seq<char>) -> Seq<char> {
    unix_newlines(without_bom(content))
}

/// The 64-bit FNV-1a hash.
pub open spec fn fnv(bytes: Seq<u8>) -> u64
    decreases bytes.len(),
{
    if bytes.len() == 0 {
        0xcbf2_9ce4_8422_2325u64
    } else {
        (fnv(bytes.drop_last()) ^ (bytes.last() as u64)).wrapping_mul(0x100_0000_01b3u64)
    }
}

/// A hash folded to 16 bits.
pub open spec fn folded(h: u64) -> u16 {
    ((h >> 48u64) ^ (h >> 32u64) ^ (h >> 16u64) ^ h) as u16
}

/// An upper-case hexadecimal digit.
pub open spec fn hex_digit(d: nat) -> char {
    if d < 10 {
        (0x30 + d) as char
    } else {
        (0x37 + d) as char
    }
}

/// Four upper-case hexadecimal digits.
pub open spec fn hex4(v: nat) -> Seq<char> {
    seq![
        hex_digit(v / 4096 % 16),
        hex_digit(v / 256 % 16),
        hex_digit(v / 16 % 16),
        hex_digit(v % 16),
    ]
}

/// The tag of a text.
pub open spec fn tag_of(content: Seq<char>) -> Seq<char> {
    hex4(folded(fnv(vstd::utf8::encode_utf8(tag_text(content)))) as nat)
}

fn hex_char(d: u16) -> (c: char)
    requires
        d < 16,
    ensures
        c == hex_digit(d as nat),
{
    let digits = [
        '0',
        '1',
        '2',
        '3',
        '4',
        '5',
        '6',
        '7',
        '8',
        '9',
        'A',
        'B',
        'C',
        'D',
        'E',
        'F',
    ];
    digits[d as usize]
}

fn normalize_for_tag(content: &str) -> (r: Vec<char>)
    ensures
        r@ == tag_text(content@),
{
    let cs = chars_of(content);
    let ghost all = without_bom(content@);
    let mut i: usize = if cs.len() > 0 && cs[0] == '\u{feff}' {
        1
    } else {
        0
    };
    assert(all =~= cs@.skip(i as int));
    let mut r: Vec<char> = Vec::new();
    assert(r@ + unix_newlines(all) =~= unix_newlines(all));
    while i < cs.len()
        invariant
            i <= cs@.len(),
            r@ + unix_newlines(cs@.skip(i as int)) == unix_newlines(all),
        decreases cs@.len() - i,
    {
        let ghost rest = cs@.skip(i as int);
        let ghost before = r@;
        assert(rest[0] == cs@[i as int]);
        if cs[i] == '\r' {
            r.push('\n');
            if i + 1 < cs.len() && cs[i + 1] == '\n' {
                assert(rest[1] == cs@[i + 1]);
                assert(rest.skip(2) =~= cs@.skip(i + 2));
                i = i + 2;
            } else {
                assert(i + 1 < cs@.len() ==> rest[1] == cs@[i + 1]);
                assert(rest.skip(1) =~= cs@.skip(i + 1));
                i = i + 1;
            }
            assert(r@ + unix_newlines(cs@.skip(i as int)) =~= before + (seq!['\n'] + unix_newlines(
                cs@.skip(i as int),
            )));
        } else {
            r.push(cs[i]);
            assert(rest.skip(1) =~= cs@.skip(i + 1));
            assert(r@ + unix_newlines(cs@.skip(i + 1)) =~= before + (seq![rest[0]] + unix_newlines(
                cs@.skip(i + 1),
            )));
            i = i + 1;
        }
    }
    assert(cs@.skip(i as int) =~= Seq::<char>::empty());
    r
}

/// The tag of a text: four upper-case hexadecimal digits of a hash that depends on the text
/// alone, whatever its line endings and with or without a byte order mark.
pub fn content_tag(content: &str) -> (r: String)
    ensures
        r@ == tag_of(content@),
{
    let norm = string_of(&normalize_for_tag(content));
    let bytes = norm.as_str().as_bytes();
    let ghost all = vstd::utf8::encode_utf8(tag_text(content@));
    let mut hash: u64 = 0xcbf2_9ce4_8422_2325;
    let mut i: usize = 0;
    while i < bytes.len()
        invariant
            i <= bytes@.len(),
            bytes@ == all,
            hash == fnv(all.take(i as int)),
        decreases bytes@.len() - i,
    {
        assert(all.take(i + 1).drop_last() =~= all.take(i as int));
        hash = (hash ^ (bytes[i] as u64)).wrapping_mul(0x100_0000_01b3);
        i = i + 1;
    }
    assert(all.take(all.len() as int) =~= all);
    let v: u16 = ((hash >> 48u64) ^ (hash >> 32u64) ^ (hash >> 16u64) ^ hash) as u16;
    let mut r = String::new();
    r.push(hex_char(v / 4096 % 16));
    r.push(hex_char(v / 256 % 16));
    r.push(hex_char(v / 16 % 16));
    r.push(hex_char(v % 16));
    assert(r@ =~= hex4(v as nat));
    r
}

/// `s` with every line feed written as a carriage return and a line feed.
pub open spec fn crlf(s: Seq<char>) -> Seq<char>
    decreases s.len(),
{
    if s.len() == 0 {
        s
    } else if s[0] == '\n' {
        seq!['\r', '\n'] + crlf(s.skip(1))
    } else {
        seq![s[0]] + crlf(s.skip(1))
    }
}

proof fn lemma_unix_of_crlf(s: Seq<char>)
    requires
        !s.contains('\r'),
    ensures
        unix_newlines(crlf(s)) == s,
        unix_newlines(s) == s,
    decreases s.len(),
{
    if s.len() > 0 {
        let t = s.skip(1);
        assert forall|i: int| 0 <= i < t.len() implies t[i] != '\r' by {
            assert(t[i] == s[i + 1]);
        }
        lemma_unix_of_crlf(t);
        let c = crlf(s);
        assert(s[0] != '\r') by {
            assert(s.contains(s[0]));
        }
        if s[0] == '\n' {
            assert(c[0] == '\r' && c[1] == '\n');
            assert(c.skip(2) =~= crlf(t));
        } else {
            assert(c[0] == s[0]);
            assert(c.skip(1) =~= crlf(t));
        }
        assert(unix_newlines(c) =~= s);
        assert(unix_newlines(s) =~= s);
    }
}

/// `s` with every line feed written as a lone carriage return.
pub open spec fn cr(s: Seq<char>) -> Seq<char> {
    s.map_values(
        |c: char|
            if c == '\n' {
                '\r'
            } else {
                c
            },
    )
}

proof fn lemma_unix_of_cr(s: Seq<char>)
    requires
        !s.contains('\r'),
    ensures
        unix_newlines(cr(s)) == s,
    decreases s.len(),
{
    if s.len() > 0 {
        let t = s.skip(1);
        assert forall|i: int| 0 <= i < t.len() implies t[i] != '\r' by {
            assert(t[i] == s[i + 1]);
        }
        lemma_unix_of_cr(t);
        assert(s[0] != '\r') by {
            assert(s.contains(s[0]));
        }
        let c = cr(s);
        assert(c.skip(1) =~= cr(t));
        assert(unix_newlines(c) =~= s);
    } else {
        assert(cr(s) =~= s);
    }
}

/// The style of the line endings does not change the tag, whether a line ends in a line feed,
/// in a carriage return and a line feed or in a lone carriage return; and neither does a byte
/// order mark in front.
pub proof fn law_tag_ignores_line_endings(s: Seq<char>)
    requires
        !s.contains('\r'),
    ensures
        tag_of(crlf(s)) == tag_of(s),
        tag_of(cr(s)) == tag_of(s),
        (s.len() == 0 || s[0] != '\u{feff}') ==> tag_of(seq!['\u{feff}'] + s) == tag_of(s),
{
    if s.len() > 0 && s[0] == '\u{feff}' {
        let t = s.drop_first();
        assert(t =~= s.skip(1));
        assert forall|i: int| 0 <= i < t.len() implies t[i] != '\r' by {
            assert(t[i] == s[i + 1]);
        }
        lemma_unix_of_crlf(t);
        lemma_unix_of_cr(t);
        assert(crlf(s)[0] == '\u{feff}');
        assert(crlf(s).drop_first() =~= crlf(t));
        assert(cr(s)[0] == '\u{feff}');
        assert(cr(s).drop_first() =~= cr(t));
    } else {
        lemma_unix_of_crlf(s);
        lemma_unix_of_cr(s);
        if s.len() > 0 {
            if s[0] == '\n' {
                assert(crlf(s)[0] == '\r');
            } else {
                assert(crlf(s)[0] == s[0]);
            }
        }
        assert((seq!['\u{feff}'] + s).drop_first() =~= s);
    }
}

/// A tag is four digits, each from `0` to `9` or from `A` to `F`.
pub proof fn law_tag_is_hex(content: Seq<char>, i: int)
    requires
        0 <= i < 4,
    ensures
        tag_of(content).len() == 4,
        0x30 <= tag_of(content)[i] as int <= 0x39 || 0x41 <= tag_of(content)[i] as int <= 0x46,
{
}

// ---------------------------------------------------------------------------
// Lines
// ---------------------------------------------------------------------------

/// Whether a text ends with a line feed.
pub open spec fn ends_with_newline(content: Seq<char>) -> bool {
    content.len() > 0 && content.last() == '\n'
}

/// The lines of a text; a line feed at its end opens no further line.
pub open spec fn lines_of(content: Seq<char>) -> Seq<Seq<char>> {
    let pieces = split_on(content, '\n');
    if ends_with_newline(content) {
        pieces.drop_last()
    } else {
        pieces
    }
}

/// The text made of `lines`, with a line feed at its end where `newline` says so.
pub open spec fn joined(lines: Seq<Seq<char>>, newline: bool) -> Seq<char> {
    if newline {
        join(lines, seq!['\n']).push('\n')
    } else {
        join(lines, seq!['\n'])
    }
}

/// Putting the lines of a text together again gives the text, and no line holds a line feed.
pub proof fn law_joined_lines(content: Seq<char>)
    ensures
        joined(lines_of(content), ends_with_newline(content)) == content,
        forall|i: int|
            0 <= i < lines_of(content).len() ==> !(#[trigger] lines_of(content)[i]).contains('\n'),
{
    lemma_lines_plain(content);
    crate::text::law_join_of_split(content, '\n');
    crate::text::lemma_split_nonempty(content, '\n');
    if ends_with_newline(content) {
        let head = content.drop_last();
        crate::text::law_join_of_split(head, '\n');
        assert(split_on(content, '\n') == split_on(head, '\n').push(Seq::empty()));
        assert(lines_of(content) =~= split_on(head, '\n'));
        assert(head.push('\n') =~= content);
    }
}

pub fn split_content(content: &str) -> (r: (Vec<Vec<char>>, bool))
    ensures
        runs(r.0@) == lines_of(content@),
        r.1 == ends_with_newline(content@),
{
    let cs = chars_of(content);
    let newline = cs.len() > 0 && cs[cs.len() - 1] == '\n';
    let mut lines = split_chars(&cs, '\n');
    if newline {
        let ghost before = lines@;
        let gone = lines.pop();
        assert(runs(lines@) =~= runs(before).drop_last());
    }
    (lines, newline)
}

pub fn join_lines(lines: &Vec<Vec<char>>, newline: bool) -> (r: String)
    ensures
        r@ == joined(runs(lines@), newline),
{
    let ghost all = runs(lines@);
    let mut out: Vec<char> = Vec::new();
    let mut i: usize = 0;
    while i < lines.len()
        invariant
            i <= lines@.len(),
            all == runs(lines@),
            out@ == join(all.take(i as int), seq!['\n']),
        decreases lines@.len() - i,
    {
        let ghost before = out@;
        assert(all.take(i + 1).drop_last() =~= all.take(i as int));
        assert(all.take(i + 1).last() == lines@[i as int]@);
        if i > 0 {
            out.push('\n');
        }
        extend(&mut out, &lines[i]);
        if i == 0 {
            assert(out@ =~= lines@[0]@);
        } else {
            assert(out@ =~= before + seq!['\n'] + lines@[i as int]@);
        }
        i = i + 1;
    }
    assert(all.take(all.len() as int) =~= all);
    if newline {
        out.push('\n');
    }
    string_of(&out)
}

/// How loosely two lines are compared.
#[derive(Debug, Clone, Copy, PartialEq, Eq, Structural)]
pub enum LineNorm {
    /// Character for character.
    Exact,
    /// Without the white space at the end.
    TrailingWs,
    /// Without the white space at both ends.
    Indent,
}

/// What is compared of a line.
pub open spec fn norm_line(line: Seq<char>, mode: LineNorm) -> Seq<char> {
    match mode {
        LineNorm::Exact => line,
        LineNorm::TrailingWs => trim_end(line),
        LineNorm::Indent => trim(line),
    }
}

/// The block `needle` stands in `lines` at line `k` (counted from 0).
pub open spec fn block_at(
    lines: Seq<Seq<char>>,
    needle: Seq<Seq<char>>,
    mode: LineNorm,
    k: int,
) -> bool {
    0 <= k && k + needle.len() <= lines.len() && forall|i: int|
        0 <= i < needle.len() ==> norm_line(lines[k + i], mode) == norm_line(
            #[trigger] needle[i],
            mode,
        )
}

/// The lines below `n` at which the block stands, in order.
pub open spec fn block_hits(
    lines: Seq<Seq<char>>,
    needle: Seq<Seq<char>>,
    mode: LineNorm,
    n: int,
) -> Seq<int>
    decreases n,
{
    if n <= 0 || needle.len() == 0 {
        Seq::empty()
    } else {
        let hits = block_hits(lines, needle, mode, n - 1);
        if block_at(lines, needle, mode, n - 1) {
            hits.push(n - 1)
        } else {
            hits
        }
    }
}

/// All lines at which the block stands.
pub open spec fn all_hits(
    lines: Seq<Seq<char>>,
    needle: Seq<Seq<char>>,
    mode: LineNorm,
) -> Seq<int> {
    block_hits(lines, needle, mode, lines.len() - needle.len() + 1)
}

fn same_line(a: &Vec<char>, b: &Vec<char>, mode: LineNorm) -> (r: bool)
    ensures
        r == (norm_line(a@, mode) == norm_line(b@, mode)),
{
    match mode {
        LineNorm::Exact => same_chars(a, b),
        LineNorm::TrailingWs => same_chars(&trimmed_end(a), &trimmed_end(b)),
        LineNorm::Indent => same_chars(&trimmed(a), &trimmed(b)),
    }
}

fn stands_at_line(lines: &Vec<Vec<char>>, needle: &Vec<Vec<char>>, mode: LineNorm, k: usize) -> (r:
    bool)
    requires
        k + needle@.len() <= lines@.len(),
    ensures
        r == block_at(runs(lines@), runs(needle@), mode, k as int),
{
    let n = lines.len();
    let ghost lv = runs(lines@);
    let ghost nv = runs(needle@);
    let mut i: usize = 0;
    while i < needle.len()
        invariant
            i <= needle@.len(),
            n == lines@.len(),
            k + needle@.len() <= lines@.len(),
            lv == runs(lines@),
            nv == runs(needle@),
            forall|j: int|
                0 <= j < i ==> norm_line(lv[k + j], mode) == norm_line(#[trigger] nv[j], mode),
        decreases needle@.len() - i,
    {
        assert(lv[k + i] == lines@[k + i]@);
        assert(nv[i as int] == needle@[i as int]@);
        if !same_line(&lines[k + i], &needle[i], mode) {
            return false;
        }
        i = i + 1;
    }
    true
}

/// The lines (counted from 0) at which the block `needle` stands.
pub fn find_block(lines: &Vec<Vec<char>>, needle: &Vec<Vec<char>>, mode: LineNorm) -> (r: Vec<usize>)
    ensures
        r@.map_values(|k: usize| k as int) == all_hits(runs(lines@), runs(needle@), mode),
        forall|i: int| 0 <= i < r@.len() ==> #[trigger] r@[i] + needle@.len() <= lines@.len(),
{
    let mut hits: Vec<usize> = Vec::new();
    let ghost lv = runs(lines@);
    let ghost nv = runs(needle@);
    if needle.len() == 0 || needle.len() > lines.len() {
        assert(hits@.map_values(|k: usize| k as int) =~= all_hits(lv, nv, mode));
        return hits;
    }
    let total = lines.len();
    let last = total - needle.len();
    let mut k: usize = 0;
    assert(hits@.map_values(|k: usize| k as int) =~= block_hits(lv, nv, mode, 0));
    while k <= last
        invariant
            k <= last + 1,
            total == lines@.len(),
            last == lines@.len() - needle@.len(),
            needle@.len() > 0,
            lv == runs(lines@),
            nv == runs(needle@),
            hits@.map_values(|k: usize| k as int) == block_hits(lv, nv, mode, k as int),
            forall|i: int|
                0 <= i < hits@.len() ==> #[trigger] hits@[i] + needle@.len() <= lines@.len(),
        decreases last + 1 - k,
    {
        let ghost before = hits@;
        if stands_at_line(lines, needle, mode, k) {
            hits.push(k);
            assert(hits@.map_values(|k: usize| k as int) =~= before.map_values(
                |k: usize| k as int,
            ).push(k as int));
        }
        k = k + 1;
    }
    hits
}

/// What is said where a block is nowhere to be found.
pub open spec fn not_found_message(what: Seq<char>) -> Seq<char> {
    what + " 在文件中找不到匹配"@
}

/// What is said where a block stands in several places.
pub open spec fn ambiguous_message(what: Seq<char>, n: nat) -> Seq<char> {
    what + " 在文件中有 "@ + decimal(n)
        + " 处候选匹配（歧义），拒绝猜测：请扩大 上下文使其唯一，或改用带 expect 的行号操作"@
}

/// Where a block stands: the comparison is loosened step by step until it stands somewhere,
/// and then it must stand in one place only.
pub open spec fn locate(
    lines: Seq<Seq<char>>,
    needle: Seq<Seq<char>>,
    what: Seq<char>,
) -> Result<(int, LineNorm), Seq<char>> {
    let exact = all_hits(lines, needle, LineNorm::Exact);
    let trailing = all_hits(lines, needle, LineNorm::TrailingWs);
    let indent = all_hits(lines, needle, LineNorm::Indent);
    if exact.len() == 1 {
        Ok((exact[0], LineNorm::Exact))
    } else if exact.len() > 1 {
        Err(ambiguous_message(what, exact.len()))
    } else if trailing.len() == 1 {
        Ok((trailing[0], LineNorm::TrailingWs))
    } else if trailing.len() > 1 {
        Err(ambiguous_message(what, trailing.len()))
    } else if indent.len() == 1 {
        Ok((indent[0], LineNorm::Indent))
    } else if indent.len() > 1 {
        Err(ambiguous_message(what, indent.len()))
    } else {
        Err(not_found_message(what))
    }
}

fn ambiguous(what: &str, n: usize) -> (r: String)
    ensures
        r@ == ambiguous_message(what@, n as nat),
{
    let mut r = String::from_str(what);
    r.append(" 在文件中有 ");
    push_decimal(&mut r, n as u64);
    r.append(
        " 处候选匹配（歧义），拒绝猜测：请扩大 上下文使其唯一，或改用带 expect 的行号操作",
    );
    r
}

/// Where a block stands, on the strictest comparison that finds it; an error where it
/// stands nowhere or in several places.
pub fn locate_block_sloppy(lines: &Vec<Vec<char>>, needle: &Vec<Vec<char>>, what: &str) -> (r: Result<
    (usize, LineNorm),
    String,
>)
    ensures
        match r {
            Ok((k, mode)) => locate(runs(lines@), runs(needle@), what@) == Ok::<
                (int, LineNorm),
                Seq<char>,
            >((k as int, mode)) && k + needle@.len() <= lines@.len(),
            Err(e) => locate(runs(lines@), runs(needle@), what@) == Err::<
                (int, LineNorm),
                Seq<char>,
            >(e@),
        },
{
    let exact = find_block(lines, needle, LineNorm::Exact);
    assert(exact@.map_values(|k: usize| k as int).len() == exact@.len());
    if exact.len() == 1 {
        assert(exact@.map_values(|k: usize| k as int)[0] == exact@[0]);
        return Ok((exact[0], LineNorm::Exact));
    }
    if exact.len() > 1 {
        return Err(ambiguous(what, exact.len()));
    }
    let trailing = find_block(lines, needle, LineNorm::TrailingWs);
    assert(trailing@.map_values(|k: usize| k as int).len() == trailing@.len());
    if trailing.len() == 1 {
        assert(trailing@.map_values(|k: usize| k as int)[0] == trailing@[0]);
        return Ok((trailing[0], LineNorm::TrailingWs));
    }
    if trailing.len() > 1 {
        return Err(ambiguous(what, trailing.len()));
    }
    let indent = find_block(lines, needle, LineNorm::Indent);
    assert(indent@.map_values(|k: usize| k as int).len() == indent@.len());
    if indent.len() == 1 {
        assert(indent@.map_values(|k: usize| k as int)[0] == indent@[0]);
        return Ok((indent[0], LineNorm::Indent));
    }
    if indent.len() > 1 {
        return Err(ambiguous(what, indent.len()));
    }
    let mut e = String::from_str(what);
    e.append(" 在文件中找不到匹配");
    Err(e)
}

/// The strictest comparison on which a block stands somewhere.
pub open spec fn first_mode(lines: Seq<Seq<char>>, needle: Seq<Seq<char>>) -> Option<LineNorm> {
    if all_hits(lines, needle, LineNorm::Exact).len() > 0 {
        Some(LineNorm::Exact)
    } else if all_hits(lines, needle, LineNorm::TrailingWs).len() > 0 {
        Some(LineNorm::TrailingWs)
    } else if all_hits(lines, needle, LineNorm::Indent).len() > 0 {
        Some(LineNorm::Indent)
    } else {
        None
    }
}

/// The hits of a block are the lines at which it stands, in ascending order.
pub proof fn law_all_hits(
    lines: Seq<Seq<char>>,
    needle: Seq<Seq<char>>,
    mode: LineNorm,
    k: int,
    i: int,
    j: int,
)
    requires
        needle.len() > 0,
    ensures
        all_hits(lines, needle, mode).contains(k) == block_at(lines, needle, mode, k),
        0 <= i < j < all_hits(lines, needle, mode).len() ==> all_hits(lines, needle, mode)[i]
            < all_hits(lines, needle, mode)[j],
{
    let n = lines.len() - needle.len() + 1;
    lemma_hits(lines, needle, mode, n, k);
    if 0 <= i < j < all_hits(lines, needle, mode).len() {
        lemma_hits_ascend(lines, needle, mode, n, i, j);
    }
}

proof fn lemma_hits_ascend(
    lines: Seq<Seq<char>>,
    needle: Seq<Seq<char>>,
    mode: LineNorm,
    n: int,
    i: int,
    j: int,
)
    requires
        0 <= i < j < block_hits(lines, needle, mode, n).len(),
    ensures
        block_hits(lines, needle, mode, n)[i] < block_hits(lines, needle, mode, n)[j] < n,
    decreases n,
{
    let before = block_hits(lines, needle, mode, n - 1);
    if j < before.len() {
        lemma_hits_ascend(lines, needle, mode, n - 1, i, j);
    } else if i + 1 < before.len() {
        lemma_hits_ascend(lines, needle, mode, n - 1, i, i + 1);
    } else {
        lemma_last_hit(lines, needle, mode, n - 1);
    }
}

proof fn lemma_last_hit(lines: Seq<Seq<char>>, needle: Seq<Seq<char>>, mode: LineNorm, n: int)
    requires
        block_hits(lines, needle, mode, n).len() > 0,
    ensures
        block_hits(lines, needle, mode, n).last() < n,
    decreases n,
{
    if !block_at(lines, needle, mode, n - 1) {
        lemma_last_hit(lines, needle, mode, n - 1);
    }
}

/// The strictest comparison on which a block stands somewhere decides: where it stands in one
/// place, that is the one, and where it stands in several, it is refused, without a looser
/// comparison being tried. A block that stands nowhere on any of them is not found.
pub proof fn law_strictest_comparison_decides(
    lines: Seq<Seq<char>>,
    needle: Seq<Seq<char>>,
    what: Seq<char>,
    mode: LineNorm,
)
    ensures
        match first_mode(lines, needle) {
            Some(m) => {
                let hits = all_hits(lines, needle, m);
                &&& hits.len() > 0
                &&& hits.len() == 1 ==> locate(lines, needle, what) == Ok::<_, Seq<char>>(
                    (hits[0], m),
                )
                &&& hits.len() > 1 ==> locate(lines, needle, what) == Err::<(int, LineNorm), _>(
                    ambiguous_message(what, hits.len()),
                )
            },
            None => all_hits(lines, needle, mode).len() == 0 && locate(lines, needle, what)
                == Err::<(int, LineNorm), _>(not_found_message(what)),
        },
{
}

/// A block is only ever located where it stands, and nowhere else on that comparison.
pub proof fn law_located_block_is_unique(
    lines: Seq<Seq<char>>,
    needle: Seq<Seq<char>>,
    what: Seq<char>,
    other: int,
)
    requires
        locate(lines, needle, what) is Ok,
    ensures
        ({
            let (k, mode) = locate(lines, needle, what)->Ok_0;
            block_at(lines, needle, mode, k) && (block_at(lines, needle, mode, other) ==> other
                == k)
        }),
{
    let (k, mode) = locate(lines, needle, what)->Ok_0;
    let n = lines.len() - needle.len() + 1;
    lemma_hits(lines, needle, mode, n, k);
    assert(all_hits(lines, needle, mode)[0] == k);
    if block_at(lines, needle, mode, other) {
        lemma_hits(lines, needle, mode, n, other);
        let i = choose|i: int|
            0 <= i < all_hits(lines, needle, mode).len() && all_hits(lines, needle, mode)[i]
                == other;
    }
}

proof fn lemma_hits(
    lines: Seq<Seq<char>>,
    needle: Seq<Seq<char>>,
    mode: LineNorm,
    n: int,
    k: int,
)
    ensures
        needle.len() > 0 && 0 <= k < n && block_at(lines, needle, mode, k) ==> block_hits(
            lines,
            needle,
            mode,
            n,
        ).contains(k),
        forall|i: int|
            0 <= i < block_hits(lines, needle, mode, n).len() ==> block_at(
                lines,
                needle,
                mode,
                #[trigger] block_hits(lines, needle, mode, n)[i],
            ),
        block_hits(lines, needle, mode, n).len() > 0 ==> needle.len() > 0,
    decreases n,
{
    if n > 0 && needle.len() > 0 {
        lemma_hits(lines, needle, mode, n - 1, k);
        let before = block_hits(lines, needle, mode, n - 1);
        let hits = block_hits(lines, needle, mode, n);
        assert forall|i: int| 0 <= i < hits.len() implies block_at(
            lines,
            needle,
            mode,
            #[trigger] hits[i],
        ) by {
            if i < before.len() {
                assert(hits[i] == before[i]);
            }
        }
        if 0 <= k < n && block_at(lines, needle, mode, k) {
            if k == n - 1 {
                assert(hits[hits.len() - 1] == k);
            } else {
                let i = choose|i: int| 0 <= i < before.len() && before[i] == k;
                assert(hits[i] == k);
            }
        }
    }
}

// ---------------------------------------------------------------------------
// Line operations
// ---------------------------------------------------------------------------

/// What an operation leads to: the new text and, where a slip was put right, a warning.
pub struct StepView {
    /// The new text.
    pub content: Seq<char>,
    /// What was put right.
    pub warning: Option<Seq<char>>,
}

/// What an operation leads to.
#[derive(Debug)]
pub struct EditStep {
    /// The new text.
    pub content: String,
    /// What was put right.
    pub warning: Option<String>,
}

impl View for EditStep {
    type V = StepView;

    open spec fn view(&self) -> StepView {
        StepView { content: self.content@, warning: optional_text(self.warning) }
    }
}

/// The lines of a block of text; one empty line at its end is left out.
pub open spec fn block_of(text: Seq<char>) -> Seq<Seq<char>> {
    let pieces = split_on(text, '\n');
    if pieces.len() > 1 && pieces.last().len() == 0 {
        pieces.drop_last()
    } else {
        pieces
    }
}

fn read_block(text: &str) -> (r: Vec<Vec<char>>)
    ensures
        runs(r@) == block_of(text@),
        r@.len() >= 1,
{
    let cs = chars_of(text);
    let mut lines = split_chars(&cs, '\n');
    let n = lines.len();
    assert(runs(lines@)[n - 1] == lines@[n - 1]@);
    if n > 1 && lines[n - 1].len() == 0 {
        let ghost before = lines@;
        let gone = lines.pop();
        assert(runs(lines@) =~= runs(before).drop_last());
    }
    lines
}

/// The name of a comparison.
pub open spec fn mode_name(mode: LineNorm) -> Seq<char> {
    match mode {
        LineNorm::Exact => "精确"@,
        LineNorm::TrailingWs => "忽略行尾空白"@,
        LineNorm::Indent => "忽略缩进"@,
    }
}

fn name_of_mode(mode: LineNorm) -> (r: &'static str)
    ensures
        r@ == mode_name(mode),
{
    match mode {
        LineNorm::Exact => "精确",
        LineNorm::TrailingWs => "忽略行尾空白",
        LineNorm::Indent => "忽略缩进",
    }
}

/// The first 200 characters of a text.
pub open spec fn first_200(s: Seq<char>) -> Seq<char> {
    if s.len() <= 200 {
        s
    } else {
        s.take(200)
    }
}

/// The lines `start` to `end` (counted from 1), or those to which an edit moves because
/// `expect` stands there instead, with a warning. An error where `expect` is not there and
/// no other place, or more than one, has it.
pub open spec fn relocated(
    lines: Seq<Seq<char>>,
    start: int,
    end: int,
    expect: Seq<char>,
) -> Result<((int, int), Option<Seq<char>>), Seq<char>> {
    let block = block_of(expect);
    if block.len() == end - start + 1 && block_at(lines, block, LineNorm::TrailingWs, start - 1) {
        Ok(((start, end), None))
    } else {
        match locate(lines, block, "expect 内容"@) {
            Err(e) => Err(
                "expect 与 "@ + decimal(start as nat) + "-"@ + decimal(end as nat)
                    + " 行实际内容不符，且"@ + e + "。实际内容为："@ + crate::error::debug_text(
                    first_200(join(lines.subrange(start - 1, end), seq!['\n'])),
                ),
            ),
            Ok((hit, mode)) => Ok(
                (
                    (hit + 1, hit + block.len()),
                    Some(
                        "行号自愈：expect 内容不在 "@ + decimal(start as nat) + "-"@ + decimal(
                            end as nat,
                        ) + " 行，已按"@ + mode_name(mode) + "匹配重定位到 "@ + decimal(
                            (hit + 1) as nat,
                        ) + "-"@ + decimal((hit + block.len()) as nat) + " 行"@,
                    ),
                ),
            ),
        }
    }
}

fn append_range(out: &mut String, start: usize, end: usize)
    ensures
        final(out)@ == old(out)@ + decimal(start as nat) + "-"@ + decimal(end as nat),
{
    push_decimal(out, start as u64);
    out.append("-");
    push_decimal(out, end as u64);
}

fn push_lines(out: &mut Vec<Vec<char>>, src: &Vec<Vec<char>>, from: usize, to: usize)
    requires
        from <= to <= src@.len(),
    ensures
        runs(final(out)@) == runs(old(out)@) + runs(src@).subrange(from as int, to as int),
{
    let ghost before = runs(out@);
    let ghost sv = runs(src@);
    let mut i: usize = from;
    assert(runs(out@) =~= before + sv.subrange(from as int, from as int));
    while i < to
        invariant
            from <= i <= to <= src@.len(),
            sv == runs(src@),
            before == runs(old(out)@),
            runs(out@) == before + sv.subrange(from as int, i as int),
        decreases to - i,
    {
        let ghost ov = out@;
        let line = cut(&src[i], 0, src[i].len());
        assert(line@ =~= src@[i as int]@);
        out.push(line);
        assert(runs(out@) =~= runs(ov).push(line@));
        assert(sv.subrange(from as int, i + 1) =~= sv.subrange(from as int, i as int).push(
            sv[i as int],
        ));
        assert(runs(out@) =~= before + sv.subrange(from as int, i + 1));
        i = i + 1;
    }
}

/// Checks that `expect` stands at the lines `start` to `end` (counted from 1); where it does
/// not, finds the one place where it does.
fn verify_or_relocate(lines: &Vec<Vec<char>>, start: usize, end: usize, expect: &str) -> (r: Result<
    ((usize, usize), Option<String>),
    String,
>)
    requires
        1 <= start <= end <= lines@.len(),
    ensures
        match r {
            Ok(((s, e), w)) => relocated(runs(lines@), start as int, end as int, expect@) == Ok::<
                ((int, int), Option<Seq<char>>),
                Seq<char>,
            >(((s as int, e as int), optional_text(w))) && 1 <= s <= e <= lines@.len(),
            Err(m) => relocated(runs(lines@), start as int, end as int, expect@) == Err::<
                ((int, int), Option<Seq<char>>),
                Seq<char>,
            >(m@),
        },
{
    let block = read_block(expect);
    if block.len() == end - start + 1 && stands_at_line(
        lines,
        &block,
        LineNorm::TrailingWs,
        start - 1,
    ) {
        return Ok(((start, end), None));
    }
    match locate_block_sloppy(lines, &block, "expect 内容") {
        Err(e) => {
            let mut m = String::from_str("expect 与 ");
            append_range(&mut m, start, end);
            m.append(" 行实际内容不符，且");
            m.append(e.as_str());
            m.append("。实际内容为：");
            let mut actual: Vec<Vec<char>> = Vec::new();
            push_lines(&mut actual, lines, start - 1, end);
            assert(runs(actual@) =~= runs(lines@).subrange(start - 1, end as int));
            let text = join_lines(&actual, false);
            let cs = chars_of(text.as_str());
            let shown = if cs.len() <= 200 {
                cs
            } else {
                let c = cut(&cs, 0, 200);
                assert(c@ =~= cs@.take(200));
                c
            };
            m.append(debug_str(string_of(&shown).as_str()).as_str());
            assert(m@ =~= relocated(runs(lines@), start as int, end as int, expect@)->Err_0);
            Err(m)
        },
        Ok((hit, mode)) => {
            let total = lines.len();
            let new_start = hit + 1;
            let new_end = hit + block.len();
            let mut w = String::from_str("行号自愈：expect 内容不在 ");
            append_range(&mut w, start, end);
            w.append(" 行，已按");
            w.append(name_of_mode(mode));
            w.append("匹配重定位到 ");
            append_range(&mut w, new_start, new_end);
            w.append(" 行");
            assert(w@ =~= relocated(runs(lines@), start as int, end as int, expect@)->Ok_0.1->0);
            Ok(((new_start, new_end), Some(w)))
        },
    }
}

/// The boolean under key `k`, `false` where there is none.
pub open spec fn flag(op: JsonView, k: Seq<char>) -> bool {
    bool_in(field(op, k)) == Some(true)
}

fn read_flag(op: &Json, k: &str) -> (r: bool)
    ensures
        r == flag(op@, k@),
{
    match op.get_bool(k) {
        Some(b) => b,
        None => false,
    }
}

/// `head`, a number, ` exceeds file length `, another number.
pub open spec fn exceeds_message(head: Seq<char>, line: nat, total: nat) -> Seq<char> {
    head + decimal(line) + " exceeds file length "@ + decimal(total)
}

fn exceeds(head: &str, line: u64, total: usize) -> (r: String)
    ensures
        r@ == exceeds_message(head@, line as nat, total as nat),
{
    let mut r = String::from_str(head);
    push_decimal(&mut r, line);
    r.append(" exceeds file length ");
    push_decimal(&mut r, total as u64);
    r
}

/// The last line of the range that starts at `start`, or what is wrong with it.
pub open spec fn range_end(op: JsonView, start: nat, total: nat) -> Result<nat, Seq<char>> {
    let end = match nat_in(field(op, "end_line"@)) {
        Some(n) => n,
        None => start,
    };
    if end < start {
        Err("end_line must be >= start_line"@)
    } else if end > total {
        Err(exceeds_message("end_line "@, end, total))
    } else {
        Ok(end)
    }
}

fn read_range_end(op: &Json, start: usize, total: usize) -> (r: Result<usize, String>)
    ensures
        match r {
            Ok(end) => range_end(op@, start as nat, total as nat) == Ok::<nat, Seq<char>>(
                end as nat,
            ),
            Err(e) => range_end(op@, start as nat, total as nat) == Err::<nat, Seq<char>>(e@),
        },
{
    let end: u64 = match op.get_u64("end_line") {
        Some(n) => n,
        None => start as u64,
    };
    if end < start as u64 {
        return Err(String::from_str("end_line must be >= start_line"));
    }
    if end > total as u64 {
        return Err(exceeds("end_line ", end, total));
    }
    Ok(end as usize)
}

/// Where an operation on the lines `start` to `end` takes place.
pub open spec fn placed(
    lines: Seq<Seq<char>>,
    start: int,
    end: int,
    op: JsonView,
) -> Result<((int, int), Option<Seq<char>>), Seq<char>> {
    match string_in(field(op, "expect"@)) {
        Some(expect) => relocated(lines, start, end, expect),
        None => Ok(((start, end), None)),
    }
}

fn place(lines: &Vec<Vec<char>>, start: usize, end: usize, op: &Json) -> (r: Result<
    ((usize, usize), Option<String>),
    String,
>)
    requires
        1 <= start <= end <= lines@.len(),
    ensures
        match r {
            Ok(((s, e), w)) => placed(runs(lines@), start as int, end as int, op@) == Ok::<
                ((int, int), Option<Seq<char>>),
                Seq<char>,
            >(((s as int, e as int), optional_text(w))) && 1 <= s <= e <= lines@.len(),
            Err(m) => placed(runs(lines@), start as int, end as int, op@) == Err::<
                ((int, int), Option<Seq<char>>),
                Seq<char>,
            >(m@),
        },
{
    match op.get_str("expect") {
        Some(expect) => verify_or_relocate(lines, start, end, expect.as_str()),
        None => Ok(((start, end), None)),
    }
}

/// Deleting the lines from `start` on.
pub open spec fn delete_op(
    lines: Seq<Seq<char>>,
    newline: bool,
    start: nat,
    op: JsonView,
) -> Result<StepView, Seq<char>> {
    let total = lines.len();
    match range_end(op, start, total) {
        Err(e) => Err(e),
        Ok(end) => match placed(lines, start as int, end as int, op) {
            Err(e) => Err(e),
            Ok(((s, e), warning)) => Ok(
                StepView {
                    content: joined(
                        lines.subrange(0, s - 1) + lines.subrange(e, total as int),
                        newline,
                    ),
                    warning,
                },
            ),
        },
    }
}

/// Inserting lines before or after line `start`, or both.
pub open spec fn insert_op(
    lines: Seq<Seq<char>>,
    newline: bool,
    start: nat,
    op: JsonView,
) -> Result<StepView, Seq<char>> {
    let total = lines.len();
    match string_in(field(op, "new_content"@)) {
        None => Err("new_content is required"@),
        Some(new) => match placed(lines, start as int, start as int, op) {
            Err(e) => Err(e),
            Ok(((s, _), warning)) => {
                let block = block_of(new);
                let before = if flag(op, "insert_before"@) {
                    block
                } else {
                    Seq::empty()
                };
                let after = if flag(op, "insert_after"@) {
                    block
                } else {
                    Seq::empty()
                };
                Ok(
                    StepView {
                        content: joined(
                            lines.subrange(0, s - 1) + before + lines.subrange(s - 1, s) + after
                                + lines.subrange(s, total as int),
                            newline,
                        ),
                        warning,
                    },
                )
            },
        },
    }
}

/// Replacing the lines from `start` on.
pub open spec fn replace_op(
    lines: Seq<Seq<char>>,
    newline: bool,
    start: nat,
    op: JsonView,
) -> Result<StepView, Seq<char>> {
    let total = lines.len();
    match range_end(op, start, total) {
        Err(e) => Err(e),
        Ok(end) => match string_in(field(op, "new_content"@)) {
            None => Err("new_content is required"@),
            Some(new) => match placed(lines, start as int, end as int, op) {
                Err(e) => Err(e),
                Ok(((s, e), warning)) => Ok(
                    StepView {
                        content: joined(
                            lines.subrange(0, s - 1) + split_on(new, '\n') + lines.subrange(
                                e,
                                total as int,
                            ),
                            newline,
                        ),
                        warning,
                    },
                ),
            },
        },
    }
}

/// What an operation by line numbers leads to.
pub open spec fn line_op(content: Seq<char>, op: JsonView) -> Result<StepView, Seq<char>> {
    let lines = lines_of(content);
    let newline = ends_with_newline(content);
    let total = lines.len();
    match nat_in(field(op, "start_line"@)) {
        None => Err("start_line is required"@),
        Some(start) => if start < 1 {
            Err("start_line must be >= 1"@)
        } else if start > total {
            if flag(op, "insert_after"@) {
                match string_in(field(op, "new_content"@)) {
                    None => Err("new_content is required"@),
                    Some(new) => Ok(
                        StepView {
                            content: (if newline {
                                content
                            } else {
                                content.push('\n')
                            }) + new + seq!['\n'],
                            warning: None,
                        },
                    ),
                }
            } else {
                Err(exceeds_message("start_line "@, start, total))
            }
        } else if flag(op, "delete"@) {
            delete_op(lines, newline, start, op)
        } else if flag(op, "insert_after"@) || flag(op, "insert_before"@) {
            insert_op(lines, newline, start, op)
        } else {
            replace_op(lines, newline, start, op)
        },
    }
}

fn delete_lines(lines: &Vec<Vec<char>>, newline: bool, start: usize, op: &Json) -> (r: Result<
    EditStep,
    String,
>)
    requires
        1 <= start <= lines@.len(),
    ensures
        match r {
            Ok(step) => delete_op(runs(lines@), newline, start as nat, op@) == Ok::<
                StepView,
                Seq<char>,
            >(step@),
            Err(e) => delete_op(runs(lines@), newline, start as nat, op@) == Err::<
                StepView,
                Seq<char>,
            >(e@),
        },
{
    let ghost lv = runs(lines@);
    let total = lines.len();
    let end = match read_range_end(op, start, total) {
        Ok(end) => end,
        Err(e) => return Err(e),
    };
    match place(lines, start, end, op) {
        Err(e) => Err(e),
        Ok(((s, e), warning)) => {
            let mut out: Vec<Vec<char>> = Vec::new();
            push_lines(&mut out, lines, 0, s - 1);
            push_lines(&mut out, lines, e, total);
            assert(runs(out@) =~= lv.subrange(0, s - 1) + lv.subrange(e as int, total as int));
            Ok(EditStep { content: join_lines(&out, newline), warning })
        },
    }
}

fn insert_lines(lines: &Vec<Vec<char>>, newline: bool, start: usize, op: &Json) -> (r: Result<
    EditStep,
    String,
>)
    requires
        1 <= start <= lines@.len(),
    ensures
        match r {
            Ok(step) => insert_op(runs(lines@), newline, start as nat, op@) == Ok::<
                StepView,
                Seq<char>,
            >(step@),
            Err(e) => insert_op(runs(lines@), newline, start as nat, op@) == Err::<
                StepView,
                Seq<char>,
            >(e@),
        },
{
    let ghost lv = runs(lines@);
    let total = lines.len();
    let insert_after = read_flag(op, "insert_after");
    let insert_before = read_flag(op, "insert_before");
    let new = match op.get_str("new_content") {
        Some(s) => s,
        None => return Err(String::from_str("new_content is required")),
    };
    match place(lines, start, start, op) {
        Err(e) => Err(e),
        Ok(((s, e), warning)) => {
            let block = read_block(new.as_str());
            let ghost bv = runs(block@);
            let ghost none = Seq::<Seq<char>>::empty();
            assert(bv.subrange(0, bv.len() as int) =~= bv);
            let mut out: Vec<Vec<char>> = Vec::new();
            push_lines(&mut out, lines, 0, s - 1);
            if insert_before {
                push_lines(&mut out, &block, 0, block.len());
            }
            push_lines(&mut out, lines, s - 1, s);
            if insert_after {
                push_lines(&mut out, &block, 0, block.len());
            }
            push_lines(&mut out, lines, s, total);
            assert(runs(out@) =~= lv.subrange(0, s - 1) + (if insert_before {
                bv
            } else {
                none
            }) + lv.subrange(s - 1, s as int) + (if insert_after {
                bv
            } else {
                none
            }) + lv.subrange(s as int, total as int));
            Ok(EditStep { content: join_lines(&out, newline), warning })
        },
    }
}

fn replace_lines(lines: &Vec<Vec<char>>, newline: bool, start: usize, op: &Json) -> (r: Result<
    EditStep,
    String,
>)
    requires
        1 <= start <= lines@.len(),
    ensures
        match r {
            Ok(step) => replace_op(runs(lines@), newline, start as nat, op@) == Ok::<
                StepView,
                Seq<char>,
            >(step@),
            Err(e) => replace_op(runs(lines@), newline, start as nat, op@) == Err::<
                StepView,
                Seq<char>,
            >(e@),
        },
{
    let ghost lv = runs(lines@);
    let total = lines.len();
    let end = match read_range_end(op, start, total) {
        Ok(end) => end,
        Err(e) => return Err(e),
    };
    let new = match op.get_str("new_content") {
        Some(s) => s,
        None => return Err(String::from_str("new_content is required")),
    };
    match place(lines, start, end, op) {
        Err(e) => Err(e),
        Ok(((s, e), warning)) => {
            let new_chars = chars_of(new.as_str());
            let new_lines = split_chars(&new_chars, '\n');
            let mut out: Vec<Vec<char>> = Vec::new();
            push_lines(&mut out, lines, 0, s - 1);
            push_lines(&mut out, &new_lines, 0, new_lines.len());
            push_lines(&mut out, lines, e, total);
            assert(runs(out@) =~= lv.subrange(0, s - 1) + split_on(new@, '\n') + lv.subrange(
                e as int,
                total as int,
            ));
            Ok(EditStep { content: join_lines(&out, newline), warning })
        },
    }
}

/// Applies an operation by line numbers.
pub fn apply_line_op(content: &str, op: &Json) -> (r: Result<EditStep, ToolError>)
    ensures
        match r {
            Ok(step) => line_op(content@, op@) == Ok::<StepView, Seq<char>>(step@),
            Err(e) => e@ is Other && line_op(content@, op@) == Err::<StepView, Seq<char>>(
                e@->Other_0,
            ),
        },
{
    let start_line: u64 = match op.get_u64("start_line") {
        Some(n) => n,
        None => return Err(ToolError::other("start_line is required")),
    };
    if start_line < 1 {
        return Err(ToolError::other("start_line must be >= 1"));
    }
    let (lines, newline) = split_content(content);
    let total = lines.len();
    if start_line > total as u64 {
        if read_flag(op, "insert_after") {
            let new = match op.get_str("new_content") {
                Some(s) => s,
                None => return Err(ToolError::other("new_content is required")),
            };
            let mut text = String::from_str(content);
            if !newline {
                text.push('\n');
            }
            text.append(new.as_str());
            text.push('\n');
            assert(text@ =~= (if newline {
                content@
            } else {
                content@.push('\n')
            }) + new@ + seq!['\n']);
            return Ok(EditStep { content: text, warning: None });
        }
        return Err(ToolError::Other(exceeds("start_line ", start_line, total)));
    }
    let start = start_line as usize;
    let r = if read_flag(op, "delete") {
        delete_lines(&lines, newline, start, op)
    } else if read_flag(op, "insert_after") || read_flag(op, "insert_before") {
        insert_lines(&lines, newline, start, op)
    } else {
        replace_lines(&lines, newline, start, op)
    };
    match r {
        Ok(step) => Ok(step),
        Err(e) => Err(ToolError::Other(e)),
    }
}

// ---------------------------------------------------------------------------
// Text operations
// ---------------------------------------------------------------------------

/// What is said where the text to be replaced occurs more than once.
pub open spec fn several_message(hits: nat) -> Seq<char> {
    "old_text 在文件中出现 "@ + decimal(hits)
        + " 次（歧义），拒绝猜测：请扩大上下文使其唯一，或显式传 \"all\": true 表示确实要改全部 "@
        + decimal(hits) + " 处"@
}

/// What an operation by the text to be replaced leads to. Where the text occurs, that is
/// replaced: once, or every time where `all` says so. Where it does not, the one block of
/// lines that matches it loosely is.
pub open spec fn text_op(content: Seq<char>, op: JsonView) -> Result<StepView, Seq<char>> {
    let new_text = string_in(field(op, "new_text"@));
    let delete = flag(op, "delete"@);
    match string_in(field(op, "old_text"@)) {
        None => Err("old_text is required"@),
        Some(old_text) => if crate::text::contains(content, old_text) {
            let hits = crate::text::count(content, old_text);
            let warning = if hits > 1 {
                Some("old_text 命中 "@ + decimal(hits) + " 处，按 all=true 全部替换"@)
            } else {
                None
            };
            if hits > 1 && !flag(op, "all"@) {
                Err(several_message(hits))
            } else if delete {
                Ok(
                    StepView {
                        content: crate::text::replaced(content, old_text, Seq::empty()),
                        warning,
                    },
                )
            } else {
                match new_text {
                    None => Err("new_text is required"@),
                    Some(new) => Ok(
                        StepView {
                            content: crate::text::replaced(content, old_text, new),
                            warning,
                        },
                    ),
                }
            }
        } else {
            let lines = lines_of(content);
            let block = block_of(old_text);
            match locate(lines, block, "old_text"@) {
                Err(e) => Err(
                    "old_text not found: "@ + crate::error::debug_text(old_text) + "（"@ + e
                        + "）"@,
                ),
                Ok((hit, mode)) => {
                    let warning = Some(
                        "old_text 宽松匹配：逐字节未命中，已按"@ + mode_name(mode)
                            + "唯一匹配到第 "@ + decimal((hit + 1) as nat) + "-"@ + decimal(
                            (hit + block.len()) as nat,
                        ) + " 行"@,
                    );
                    let head = lines.subrange(0, hit);
                    let tail = lines.subrange(hit + block.len(), lines.len() as int);
                    if delete {
                        Ok(
                            StepView {
                                content: joined(head + tail, ends_with_newline(content)),
                                warning,
                            },
                        )
                    } else {
                        match new_text {
                            None => Err("new_text is required"@),
                            Some(new) => Ok(
                                StepView {
                                    content: joined(
                                        head + split_on(new, '\n') + tail,
                                        ends_with_newline(content),
                                    ),
                                    warning,
                                },
                            ),
                        }
                    }
                },
            }
        },
    }
}

fn replace_in(content: &Vec<char>, old_text: &Vec<char>, new: &str) -> (r: String)
    ensures
        r@ == crate::text::replaced(content@, old_text@, new@),
{
    let to = chars_of(new);
    string_of(&crate::text::replace_chars(content, old_text, &to))
}

/// Applies an operation by the text to be replaced.
pub fn apply_text_op(content: &str, op: &Json) -> (r: Result<EditStep, ToolError>)
    ensures
        match r {
            Ok(step) => text_op(content@, op@) == Ok::<StepView, Seq<char>>(step@),
            Err(e) => e@ is Other && text_op(content@, op@) == Err::<StepView, Seq<char>>(
                e@->Other_0,
            ),
        },
{
    proof {
        reveal_strlit("");
        assert(""@ =~= Seq::<char>::empty());
    }
    let old_text = match op.get_str("old_text") {
        Some(s) => s,
        None => return Err(ToolError::other("old_text is required")),
    };
    let delete = read_flag(op, "delete");
    let cs = chars_of(content);
    let needle = chars_of(old_text.as_str());
    if crate::text::find_chars(&cs, &needle, 0).is_some() {
        let hits = crate::text::count_chars(&cs, &needle);
        if hits > 1 && !read_flag(op, "all") {
            let mut m = String::from_str("old_text 在文件中出现 ");
            push_wide_decimal(&mut m, hits);
            m.append(
                " 次（歧义），拒绝猜测：请扩大上下文使其唯一，或显式传 \"all\": true 表示确实要改全部 ",
            );
            push_wide_decimal(&mut m, hits);
            m.append(" 处");
            return Err(ToolError::Other(m));
        }
        let warning: Option<String> = if hits > 1 {
            let mut w = String::from_str("old_text 命中 ");
            push_wide_decimal(&mut w, hits);
            w.append(" 处，按 all=true 全部替换");
            Some(w)
        } else {
            None
        };
        if delete {
            return Ok(EditStep { content: replace_in(&cs, &needle, ""), warning });
        }
        return match op.get_str("new_text") {
            None => Err(ToolError::other("new_text is required")),
            Some(new) => Ok(
                EditStep { content: replace_in(&cs, &needle, new.as_str()), warning },
            ),
        };
    }
    let (lines, newline) = split_content(content);
    let ghost lv = runs(lines@);
    let total = lines.len();
    let block = read_block(old_text.as_str());
    match locate_block_sloppy(&lines, &block, "old_text") {
        Err(e) => {
            let mut m = String::from_str("old_text not found: ");
            m.append(debug_str(old_text.as_str()).as_str());
            m.append("（");
            m.append(e.as_str());
            m.append("）");
            Err(ToolError::Other(m))
        },
        Ok((hit, mode)) => {
            let end = hit + block.len();
            let mut w = String::from_str("old_text 宽松匹配：逐字节未命中，已按");
            w.append(name_of_mode(mode));
            w.append("唯一匹配到第 ");
            append_range(&mut w, hit + 1, end);
            w.append(" 行");
            let ghost want_w = "old_text 宽松匹配：逐字节未命中，已按"@ + mode_name(mode)
                + "唯一匹配到第 "@ + decimal((hit + 1) as nat) + "-"@ + decimal(end as nat)
                + " 行"@;
            assert(w@ =~= want_w);
            let mut out: Vec<Vec<char>> = Vec::new();
            push_lines(&mut out, &lines, 0, hit);
            let ghost head = lv.subrange(0, hit as int);
            let ghost tail = lv.subrange(end as int, total as int);
            if delete {
                push_lines(&mut out, &lines, end, total);
                assert(runs(out@) =~= head + tail);
            } else {
                let new = match op.get_str("new_text") {
                    Some(s) => s,
                    None => return Err(ToolError::other("new_text is required")),
                };
                let new_chars = chars_of(new.as_str());
                let new_lines = split_chars(&new_chars, '\n');
                push_lines(&mut out, &new_lines, 0, new_lines.len());
                push_lines(&mut out, &lines, end, total);
                assert(runs(out@) =~= head + split_on(new@, '\n') + tail);
            }
            Ok(EditStep { content: join_lines(&out, newline), warning: Some(w) })
        },
    }
}

// ---------------------------------------------------------------------------
// A batch of edits
// ---------------------------------------------------------------------------

/// What one operation leads to, whichever kind it is.
pub open spec fn edit_op(content: Seq<char>, op: JsonView) -> Result<StepView, Seq<char>> {
    let by_line = field(op, "start_line"@) is Some;
    if field(op, "old_text"@) is Some && !by_line {
        text_op(content, op)
    } else if by_line {
        line_op(content, op)
    } else {
        Err("specify start_line or old_text"@)
    }
}

/// Applies one operation, whichever kind it is.
pub fn apply_edit_op(content: &str, op: &Json) -> (r: Result<EditStep, ToolError>)
    ensures
        match r {
            Ok(step) => edit_op(content@, op@) == Ok::<StepView, Seq<char>>(step@),
            Err(e) => e@ is Other && edit_op(content@, op@) == Err::<StepView, Seq<char>>(
                e@->Other_0,
            ),
        },
{
    let by_line = op.get("start_line").is_some();
    if op.get("old_text").is_some() && !by_line {
        apply_text_op(content, op)
    } else if by_line {
        apply_line_op(content, op)
    } else {
        Err(ToolError::other("specify start_line or old_text"))
    }
}

/// A text in the course of a batch: what it has become, which operations changed it, and
/// what was put right.
pub struct EditView {
    /// The text.
    pub content: Seq<char>,
    /// The positions of the operations that changed it.
    pub changes: Seq<nat>,
    /// What was put right.
    pub warnings: Seq<Seq<char>>,
}

/// What the first operations of a batch lead to, or what is wrong with the first bad one.
pub open spec fn edited(
    content: Seq<char>,
    warnings: Seq<Seq<char>>,
    ops: Seq<JsonView>,
) -> Result<EditView, Seq<char>>
    decreases ops.len(),
{
    if ops.len() == 0 {
        Ok(EditView { content, changes: Seq::empty(), warnings })
    } else {
        match edited(content, warnings, ops.drop_last()) {
            Err(e) => Err(e),
            Ok(v) => match edit_op(v.content, ops.last()) {
                Err(e) => Err("op["@ + decimal((ops.len() - 1) as nat) + "]: "@ + e),
                Ok(step) => Ok(
                    EditView {
                        content: step.content,
                        changes: if step.content == v.content {
                            v.changes
                        } else {
                            v.changes.push((ops.len() - 1) as nat)
                        },
                        warnings: match step.warning {
                            Some(w) => v.warnings.push(w),
                            None => v.warnings,
                        },
                    },
                ),
            },
        }
    }
}

proof fn lemma_edited_stop(
    content: Seq<char>,
    warnings: Seq<Seq<char>>,
    ops: Seq<JsonView>,
    n: int,
)
    requires
        0 <= n <= ops.len(),
        edited(content, warnings, ops.take(n)) is Err,
    ensures
        edited(content, warnings, ops) == edited(content, warnings, ops.take(n)),
    decreases ops.len() - n,
{
    if n < ops.len() {
        assert(ops.take(n + 1).drop_last() =~= ops.take(n));
        lemma_edited_stop(content, warnings, ops, n + 1);
    } else {
        assert(ops.take(n) =~= ops);
    }
}

/// `s` without the number signs that it starts with.
pub open spec fn without_hashes(s: Seq<char>) -> Seq<char>
    decreases s.len(),
{
    if s.len() > 0 && s[0] == '#' {
        without_hashes(s.drop_first())
    } else {
        s
    }
}

fn strip_hashes(s: &Vec<char>) -> (r: Vec<char>)
    ensures
        r@ == without_hashes(s@),
{
    let mut n: usize = 0;
    assert(s@.skip(0) =~= s@);
    while n < s.len() && s[n] == '#'
        invariant
            n <= s@.len(),
            without_hashes(s@) == without_hashes(s@.skip(n as int)),
        decreases s@.len() - n,
    {
        assert(s@.skip(n as int).drop_first() =~= s@.skip(n + 1));
        n = n + 1;
    }
    let r = cut(s, n, s.len());
    assert(r@ =~= s@.skip(n as int));
    r
}

/// The operation says itself what text it expects to find.
pub open spec fn self_checking(op: JsonView) -> bool {
    field(op, "expect"@) is Some || (field(op, "old_text"@) is Some && field(op, "start_line"@)
        is None)
}

/// Every operation says itself what text it expects to find.
pub open spec fn all_self_checking(ops: Seq<JsonView>) -> bool {
    forall|i: int| 0 <= i < ops.len() ==> self_checking(#[trigger] ops[i])
}

/// What comes of comparing the tag that an edit is based on with the live one: nothing where
/// there is none or they agree, a warning where every operation checks itself, and else a
/// refusal.
pub open spec fn tag_verdict(
    wanted: Seq<char>,
    live: Seq<char>,
    checking: bool,
) -> Result<Option<Seq<char>>, Seq<char>> {
    if wanted.len() == 0 || wanted == live {
        Ok(None)
    } else if checking {
        Ok(
            Some(
                "快照已过期（编辑基于 #"@ + wanted + "，当前 #"@ + live
                    + "）：各操作均可按内容自校验，转为内容级校验/重定位继续"@,
            ),
        )
    } else {
        Err(
            "stale tag：编辑基于快照 #"@ + wanted + "，但文件当前快照是 #"@ + live
                + "（文件已被改动），且存在无 `expect` 的行号操作（无法按内容校验）。请重新 read 取得最新 tag 与行号，或给每个行号操作补上 `expect`。"@,
        )
    }
}

/// Compares the tag that an edit is based on with the live one.
pub fn check_tag(wanted: &str, live: &str, checking: bool) -> (r: Result<Option<String>, String>)
    ensures
        match r {
            Ok(w) => tag_verdict(wanted@, live@, checking) == Ok::<Option<Seq<char>>, Seq<char>>(
                optional_text(w),
            ),
            Err(e) => tag_verdict(wanted@, live@, checking) == Err::<
                Option<Seq<char>>,
                Seq<char>,
            >(e@),
        },
{
    if wanted.unicode_len() == 0 || same(wanted, live) {
        return Ok(None);
    }
    if checking {
        let mut w = String::from_str("快照已过期（编辑基于 #");
        w.append(wanted);
        w.append("，当前 #");
        w.append(live);
        w.append("）：各操作均可按内容自校验，转为内容级校验/重定位继续");
        return Ok(Some(w));
    }
    let mut m = String::from_str("stale tag：编辑基于快照 #");
    m.append(wanted);
    m.append("，但文件当前快照是 #");
    m.append(live);
    m.append(
        "（文件已被改动），且存在无 `expect` 的行号操作（无法按内容校验）。请重新 read 取得最新 tag 与行号，或给每个行号操作补上 `expect`。",
    );
    Err(m)
}

/// The tag that an input hands in, as it is compared: trimmed, without number signs, in
/// upper case; empty where there is none.
pub open spec fn wanted_tag(input: JsonView) -> Seq<char> {
    match string_in(field(input, "tag"@)) {
        None => Seq::empty(),
        Some(tag) => crate::text::uppercase(without_hashes(trim(tag))),
    }
}

/// What is wrong with the operations of an input.
pub open spec fn ops_fault(input: JsonView) -> Option<Seq<char>> {
    match array_in(field(input, "ops"@)) {
        None => Some("ops must be an array"@),
        Some(ops) => if ops.len() == 0 {
            Some("ops must not be empty"@)
        } else {
            None
        },
    }
}

/// What the tool makes of a text.
pub open spec fn edit_outcome(content: Seq<char>, input: JsonView) -> Result<EditView, Seq<char>> {
    match ops_fault(input) {
        Some(e) => Err(e),
        None => {
            let ops = array_in(field(input, "ops"@))->0;
            match tag_verdict(wanted_tag(input), tag_of(content), all_self_checking(ops)) {
                Err(e) => Err(e),
                Ok(None) => edited(content, Seq::empty(), ops),
                Ok(Some(w)) => edited(content, seq![w], ops),
            }
        },
    }
}

/// A text after a batch.
#[derive(Debug)]
pub struct EditOutcome {
    /// The text.
    pub content: String,
    /// The positions of the operations that changed it.
    pub changes: Vec<usize>,
    /// Its tag.
    pub tag: String,
    /// What was put right.
    pub warnings: Vec<String>,
}

/// Positions as numbers.
pub open spec fn positions(v: Seq<usize>) -> Seq<nat> {
    v.map_values(|i: usize| i as nat)
}

fn check_all(ops: &Vec<Json>) -> (r: bool)
    ensures
        r == all_self_checking(items_view(ops@)),
{
    let ghost all = items_view(ops@);
    let mut i: usize = 0;
    while i < ops.len()
        invariant
            i <= ops@.len(),
            all == items_view(ops@),
            forall|k: int| 0 <= k < i ==> self_checking(#[trigger] all[k]),
        decreases ops@.len() - i,
    {
        assert(all[i as int] == ops@[i as int]@);
        let checks = ops[i].get("expect").is_some() || (ops[i].get("old_text").is_some()
            && ops[i].get("start_line").is_none());
        if !checks {
            return false;
        }
        i = i + 1;
    }
    true
}

/// The path that an edit is for, once the input is known to name one and to hold operations.
pub fn edit_path(input: &Json) -> (r: Result<String, ToolError>)
    ensures
        match r {
            Ok(path) => string_in(field(input@, "path"@)) == Some(path@) && ops_fault(input@)
                is None,
            Err(e) => e@ == ErrorView::Other(
                match string_in(field(input@, "path"@)) {
                    None => "path is required"@,
                    Some(_) => ops_fault(input@)->0,
                },
            ) && (string_in(field(input@, "path"@)) is None || ops_fault(input@) is Some),
        },
{
    match input.get_str("path") {
        None => Err(ToolError::other("path is required")),
        Some(path) => match input.get_array("ops") {
            None => Err(ToolError::other("ops must be an array")),
            Some(ops) => if ops.len() == 0 {
                Err(ToolError::other("ops must not be empty"))
            } else {
                Ok(path.clone())
            },
        },
    }
}

/// Runs operations on a text one after the other, and stops at the first that fails.
#[verifier::spinoff_prover]
#[verifier::rlimit(30)]
fn run_ops(content: &str, ops: &Vec<Json>, first: Vec<String>) -> (r: Result<
    EditOutcome,
    ToolError,
>)
    ensures
        match r {
            Ok(o) => edited(content@, views(first@), items_view(ops@)) == Ok::<
                EditView,
                Seq<char>,
            >(
                EditView {
                    content: o.content@,
                    changes: positions(o.changes@),
                    warnings: views(o.warnings@),
                },
            ) && o.tag@ == tag_of(o.content@),
            Err(e) => e@ is Other && edited(content@, views(first@), items_view(ops@)) == Err::<
                EditView,
                Seq<char>,
            >(e@->Other_0),
        },
{
    let ghost all = items_view(ops@);
    let ghost start = views(first@);
    let mut warnings = first;
    let mut current = String::from_str(content);
    let mut changes: Vec<usize> = Vec::new();
    let mut i: usize = 0;
    assert(positions(changes@) =~= Seq::<nat>::empty());
    assert(all.take(0) =~= Seq::<JsonView>::empty());
    while i < ops.len()
        invariant
            i <= ops@.len(),
            all == items_view(ops@),
            edited(content@, start, all.take(i as int)) == Ok::<EditView, Seq<char>>(
                EditView {
                    content: current@,
                    changes: positions(changes@),
                    warnings: views(warnings@),
                },
            ),
            start == views(first@),
        decreases ops@.len() - i,
    {
        proof {
            assert(all.take(i + 1).drop_last() =~= all.take(i as int));
            assert(all.take(i + 1).last() == ops@[i as int]@);
        }
        match apply_edit_op(current.as_str(), &ops[i]) {
            Err(e) => {
                proof {
                    lemma_edited_stop(content@, start, all, i + 1);
                }
                let mut m = String::from_str("op[");
                push_decimal(&mut m, i as u64);
                m.append("]: ");
                m.append(e.to_string().as_str());
                return Err(ToolError::Other(m));
            },
            Ok(step) => {
                let ghost oc = changes@;
                let ghost ow = warnings@;
                if !same(step.content.as_str(), current.as_str()) {
                    changes.push(i);
                    assert(positions(changes@) =~= positions(oc).push(i as nat));
                }
                if let Some(w) = step.warning {
                    warnings.push(w);
                    assert(views(warnings@) =~= views(ow).push(w@));
                }
                current = step.content;
            },
        }
        i = i + 1;
    }
    assert(all.take(all.len() as int) =~= all);
    let tag = content_tag(current.as_str());
    Ok(EditOutcome { content: current, changes, tag, warnings })
}

/// Runs the operations of `input` on a text. Nothing comes of a batch in which one fails.
pub fn run_edit(content: &str, input: &Json) -> (r: Result<EditOutcome, ToolError>)
    ensures
        match r {
            Ok(o) => edit_outcome(content@, input@) == Ok::<EditView, Seq<char>>(
                EditView {
                    content: o.content@,
                    changes: positions(o.changes@),
                    warnings: views(o.warnings@),
                },
            ) && o.tag@ == tag_of(o.content@),
            Err(e) => e@ is Other && edit_outcome(content@, input@) == Err::<
                EditView,
                Seq<char>,
            >(e@->Other_0),
        },
{
    let ops = match input.get_array("ops") {
        Some(ops) => ops,
        None => return Err(ToolError::other("ops must be an array")),
    };
    if ops.len() == 0 {
        return Err(ToolError::other("ops must not be empty"));
    }
    let live = content_tag(content);
    let wanted = match input.get_str("tag") {
        None => {
            let w = String::new();
            assert(w@ =~= Seq::<char>::empty());
            w
        },
        Some(tag) => {
            let cs = chars_of(tag.as_str());
            crate::text::to_uppercase(string_of(&strip_hashes(&trimmed(&cs))).as_str())
        },
    };
    let mut warnings: Vec<String> = Vec::new();
    let ghost mut first = Seq::<Seq<char>>::empty();
    assert(views(warnings@) =~= first);
    match check_tag(wanted.as_str(), live.as_str(), check_all(ops)) {
        Err(e) => return Err(ToolError::Other(e)),
        Ok(None) => {},
        Ok(Some(w)) => {
            proof {
                first = seq![w@];
            }
            warnings.push(w);
            assert(views(warnings@) =~= first);
        },
    }
    run_ops(content, ops, warnings)
}

/// An edit that is based on the live tag is never refused for its tag.
pub proof fn law_live_tag_is_accepted(content: Seq<char>, checking: bool)
    ensures
        tag_verdict(tag_of(content), tag_of(content), checking) == Ok::<
            Option<Seq<char>>,
            Seq<char>,
        >(None),
{
}

/// An edit that is based on another tag goes ahead only where every operation says what text
/// it expects to find.
pub proof fn law_stale_tag_is_refused(content: Seq<char>, input: JsonView)
    requires
        ops_fault(input) is None,
        wanted_tag(input).len() > 0,
        wanted_tag(input) != tag_of(content),
        !all_self_checking(array_in(field(input, "ops"@))->0),
    ensures
        edit_outcome(content, input) is Err,
{
}

/// Replacing a text that stands in one place only changes nothing before and behind it.
pub proof fn law_single_replacement(s: Seq<char>, needle: Seq<char>, to: Seq<char>)
    requires
        needle.len() > 0,
        count(s, needle) == 1,
    ensures
        find_from(s, needle, 0) is Some,
        replaced(s, needle, to) == s.take(find_from(s, needle, 0)->0) + to + s.skip(
            find_from(s, needle, 0)->0 + needle.len(),
        ),
{
    lemma_find_from(s, needle, 0);
    let at = find_from(s, needle, 0)->0;
    assert(count_from(s, needle, at + needle.len()) == 0);
    assert(replaced_from(s, needle, to, at + needle.len()) =~= s.skip(at + needle.len()));
    assert(s.subrange(0, at) =~= s.take(at));
}

proof fn lemma_block_nonempty(text: Seq<char>)
    ensures
        block_of(text).len() >= 1,
{
    lemma_split_nonempty(text, '\n');
}

/// An operation that says what text it expects only ever takes place on lines that hold that
/// text, where lines may differ in white space at most.
pub proof fn law_expected_text_is_there(
    lines: Seq<Seq<char>>,
    start: int,
    end: int,
    op: JsonView,
    expect: Seq<char>,
)
    requires
        1 <= start <= end <= lines.len(),
        string_in(field(op, "expect"@)) == Some(expect),
        placed(lines, start, end, op) is Ok,
    ensures
        ({
            let ((s, e), _) = placed(lines, start, end, op)->Ok_0;
            1 <= s <= e <= lines.len() && e - s + 1 == block_of(expect).len() && exists|
                mode: LineNorm,
            | #[trigger]
                block_at(lines, block_of(expect), mode, s - 1)
        }),
{
    let block = block_of(expect);
    lemma_block_nonempty(expect);
    let ((s, _), _) = placed(lines, start, end, op)->Ok_0;
    if block.len() == end - start + 1 && block_at(lines, block, LineNorm::TrailingWs, start - 1) {
        assert(block_at(lines, block, LineNorm::TrailingWs, s - 1));
    } else {
        let (hit, mode) = locate(lines, block, "expect 内容"@)->Ok_0;
        law_located_block_is_unique(lines, block, "expect 内容"@, 0);
        assert(s - 1 == hit);
        assert(block_at(lines, block, mode, s - 1));
    }
}

proof fn lemma_place_in_range(lines: Seq<Seq<char>>, start: int, end: int, op: JsonView)
    requires
        1 <= start <= end <= lines.len(),
        placed(lines, start, end, op) is Ok,
    ensures
        ({
            let ((s, e), _) = placed(lines, start, end, op)->Ok_0;
            1 <= s <= e <= lines.len()
        }),
{
    if let Some(expect) = string_in(field(op, "expect"@)) {
        law_expected_text_is_there(lines, start, end, op, expect);
    }
}

proof fn lemma_lines_plain(content: Seq<char>)
    ensures
        forall|i: int|
            0 <= i < lines_of(content).len() ==> !(#[trigger] lines_of(content)[i]).contains('\n'),
{
    lemma_split_pieces(content, '\n');
    let pieces = split_on(content, '\n');
    assert forall|i: int| 0 <= i < lines_of(content).len() implies !(#[trigger] lines_of(
        content,
    )[i]).contains('\n') by {
        assert(lines_of(content)[i] == pieces[i]);
    }
}

/// A text that ends with a line feed has the lines that it was made of.
pub proof fn law_lines_of_joined(lines: Seq<Seq<char>>)
    requires
        lines.len() > 0,
        forall|i: int| 0 <= i < lines.len() ==> !(#[trigger] lines[i]).contains('\n'),
    ensures
        ends_with_newline(joined(lines, true)),
        lines_of(joined(lines, true)) == lines,
{
    let body = join(lines, seq!['\n']);
    let s = joined(lines, true);
    law_split_of_join(lines, '\n');
    assert(s.drop_last() =~= body);
    assert(split_on(s, '\n') =~= lines.push(Seq::empty()));
    assert(lines.push(Seq::empty()).drop_last() =~= lines);
}

/// The lines that a deletion or a replacement leaves, and those that it puts in.
pub open spec fn range_lines(lines: Seq<Seq<char>>, s: int, e: int, op: JsonView) -> Seq<Seq<char>> {
    lines.subrange(0, s - 1) + (if flag(op, "delete"@) {
        Seq::empty()
    } else {
        match string_in(field(op, "new_content"@)) {
            Some(new) => split_on(new, '\n'),
            None => Seq::empty(),
        }
    }) + lines.subrange(e, lines.len() as int)
}

/// A deletion or a replacement in a text that ends with a line feed keeps every line before
/// and behind the lines on which it takes place, and between them stand the new ones alone.
/// Only where no line is left one empty line stands for them.
pub proof fn law_other_lines_stay(content: Seq<char>, op: JsonView, start: nat, end: nat)
    requires
        ends_with_newline(content),
        nat_in(field(op, "start_line"@)) == Some(start),
        1 <= start <= lines_of(content).len(),
        flag(op, "delete"@) || !(flag(op, "insert_after"@) || flag(op, "insert_before"@)),
        range_end(op, start, lines_of(content).len()) == Ok::<nat, Seq<char>>(end),
        line_op(content, op) is Ok,
    ensures
        placed(lines_of(content), start as int, end as int, op) is Ok,
        ({
            let ((s, e), _) = placed(lines_of(content), start as int, end as int, op)->Ok_0;
            let left = range_lines(lines_of(content), s, e, op);
            let result = line_op(content, op)->Ok_0.content;
            lines_of(result) == if left.len() == 0 {
                seq![Seq::<char>::empty()]
            } else {
                left
            }
        }),
{
    let lines = lines_of(content);
    lemma_lines_plain(content);
    lemma_place_in_range(lines, start as int, end as int, op);
    let ((s, e), _) = placed(lines, start as int, end as int, op)->Ok_0;
    let left = range_lines(lines, s, e, op);
    let result = line_op(content, op)->Ok_0.content;
    let a = lines.subrange(0, s - 1);
    let c = lines.subrange(e, lines.len() as int);
    if flag(op, "delete"@) {
        assert(a + Seq::<Seq<char>>::empty() + c =~= a + c);
    } else {
        lemma_split_pieces(string_in(field(op, "new_content"@))->0, '\n');
    }
    assert(result == joined(left, true));
    if left.len() == 0 {
        assert(left =~= Seq::<Seq<char>>::empty());
        assert(result =~= seq!['\n']);
        law_lines_of_joined(seq![Seq::<char>::empty()]);
        assert(joined(seq![Seq::<char>::empty()], true) =~= seq!['\n']);
    } else {
        assert forall|i: int| 0 <= i < left.len() implies !(#[trigger] left[i]).contains('\n') by {
            if i < s - 1 {
                assert(left[i] == lines[i]);
            } else if i >= left.len() - c.len() {
                let k = i - (left.len() - c.len());
                assert(left[i] == c[k]);
                assert(c[k] == lines[e + k]);
            } else if !flag(op, "delete"@) {
                let new = split_on(string_in(field(op, "new_content"@))->0, '\n');
                assert(left[i] == new[i - (s - 1)]);
            }
        }
        law_lines_of_joined(left);
    }
}

/// Replacing lines by themselves changes nothing.
pub proof fn law_same_lines_change_nothing(content: Seq<char>, op: JsonView, start: nat, end: nat)
    requires
        nat_in(field(op, "start_line"@)) == Some(start),
        1 <= start <= lines_of(content).len(),
        !flag(op, "delete"@) && !flag(op, "insert_after"@) && !flag(op, "insert_before"@),
        range_end(op, start, lines_of(content).len()) == Ok::<nat, Seq<char>>(end),
        string_in(field(op, "expect"@)) is None,
        string_in(field(op, "new_content"@)) == Some(
            join(lines_of(content).subrange(start - 1, end as int), seq!['\n']),
        ),
    ensures
        line_op(content, op) == Ok::<StepView, Seq<char>>(StepView { content, warning: None }),
{
    let lines = lines_of(content);
    let part = lines.subrange(start - 1, end as int);
    lemma_lines_plain(content);
    assert forall|i: int| 0 <= i < part.len() implies !(#[trigger] part[i]).contains('\n') by {
        assert(part[i] == lines[start - 1 + i]);
    }
    law_split_of_join(part, '\n');
    assert(lines.subrange(0, start - 1) + part + lines.subrange(end as int, lines.len() as int)
        =~= lines);
    law_joined_lines(content);
}

/// An operation that changed the text, as JSON.
pub open spec fn change_json(op: nat) -> JsonView {
    JsonView::Object(object_of(seq![("op_index"@, count_json(op))]))
}

impl EditOutcome {
    /// The answer as JSON, for the file at `path`. Warnings are given only where there are
    /// any.
    pub open spec fn answer(&self, path: Seq<char>) -> JsonView {
        JsonView::Object(
            object_of(
                seq![
                    ("path"@, JsonView::String(path)),
                    ("success"@, JsonView::Bool(true)),
                    (
                        "changes"@,
                        JsonView::Array(
                            positions(self.changes@).map_values(|op: nat| change_json(op)),
                        ),
                    ),
                    ("tag"@, JsonView::String(self.tag@)),
                ] + maybe(
                    "warnings"@,
                    if self.warnings@.len() == 0 {
                        None
                    } else {
                        Some(texts_json(views(self.warnings@)))
                    },
                ),
            ),
        )
    }

    /// The answer as JSON, for the file at `path`.
    pub fn to_json(&self, path: &str) -> (r: Json)
        ensures
            r@ == self.answer(path@),
    {
        let mut changes: Vec<Json> = Vec::new();
        let n = self.changes.len();
        let mut i: usize = 0;
        while i < n
            invariant
                i <= n,
                n == self.changes@.len(),
                changes@.len() == i,
                forall|k: int|
                    0 <= k < i ==> (#[trigger] changes@[k])@ == change_json(
                        self.changes@[k] as nat,
                    ),
            decreases n - i,
        {
            let mut pairs: Vec<(String, Json)> = Vec::new();
            pairs.push(entry("op_index", count_to_json(self.changes[i] as u64)));
            assert(members_view(pairs@) =~= seq![
                ("op_index"@, count_json(self.changes@[i as int] as nat)),
            ]);
            changes.push(build_object(pairs));
            i = i + 1;
        }
        proof {
            lemma_array_view(changes);
            assert(items_view(changes@) =~= positions(self.changes@).map_values(
                |op: nat| change_json(op),
            ));
        }
        let mut pairs: Vec<(String, Json)> = Vec::new();
        pairs.push(entry("path", str_to_json(path)));
        pairs.push(entry("success", Json::Bool(true)));
        pairs.push(entry("changes", Json::Array(changes)));
        pairs.push(entry("tag", str_to_json(self.tag.as_str())));
        assert(members_view(pairs@) =~= seq![
            ("path"@, JsonView::String(path@)),
            ("success"@, JsonView::Bool(true)),
            (
                "changes"@,
                JsonView::Array(positions(self.changes@).map_values(|op: nat| change_json(op))),
            ),
            ("tag"@, JsonView::String(self.tag@)),
        ]);
        let warnings = if self.warnings.len() == 0 {
            None
        } else {
            Some(texts_to_json(&self.warnings))
        };
        add_maybe(&mut pairs, "warnings", warnings);
        build_object(pairs)
    }
}

// ---------------------------------------------------------------------------
// What an edit does to the lines of a text
// ---------------------------------------------------------------------------

/// A replacement by line numbers takes out the lines from the first to the last that are asked
/// for, or the first alone where no last one is, and puts the lines of the new text in their
/// place. Every other line stays, and so does the way in which the text ends.
pub proof fn law_lines_are_replaced(content: Seq<char>, op: JsonView, s: nat, e: nat, new: Seq<char>)
    requires
        nat_in(field(op, "start_line"@)) == Some(s),
        nat_in(field(op, "end_line"@)) == Some(e) || (nat_in(field(op, "end_line"@)) is None && e
            == s),
        1 <= s <= e <= lines_of(content).len(),
        bool_in(field(op, "delete"@)) != Some(true),
        bool_in(field(op, "insert_after"@)) != Some(true),
        bool_in(field(op, "insert_before"@)) != Some(true),
        string_in(field(op, "expect"@)) is None,
        string_in(field(op, "new_content"@)) == Some(new),
    ensures
        edit_op(content, op) is Ok,
        edit_op(content, op)->Ok_0.warning is None,
        ({
            let lines = lines_of(content);
            let result = edit_op(content, op)->Ok_0.content;
            let want = lines.take(s - 1) + split_on(new, '\n') + lines.skip(e as int);
            &&& result == join(want, seq!['\n']) + (if content.len() > 0 && content.last() == '\n' {
                seq!['\n']
            } else {
                Seq::empty()
            })
            &&& content.len() > 0 && content.last() == '\n' ==> lines_of(result) == want
        }),
{
    let lines = lines_of(content);
    let want = lines.take(s - 1) + split_on(new, '\n') + lines.skip(e as int);
    assert(lines.subrange(0, s - 1) =~= lines.take(s - 1));
    assert(lines.subrange(e as int, lines.len() as int) =~= lines.skip(e as int));
    let result = edit_op(content, op)->Ok_0.content;
    assert(result == joined(want, ends_with_newline(content)));
    assert(joined(want, false) =~= join(want, seq!['\n']) + Seq::<char>::empty());
    assert(joined(want, true) =~= join(want, seq!['\n']) + seq!['\n']);
    lemma_split_pieces(new, '\n');
    lemma_split_nonempty(new, '\n');
    lemma_lines_plain(content);
    assert forall|i: int| 0 <= i < want.len() implies !(#[trigger] want[i]).contains('\n') by {
        let k = split_on(new, '\n').len();
        if i < s - 1 {
            assert(want[i] == lines[i]);
        } else if i < s - 1 + k {
            assert(want[i] == split_on(new, '\n')[i - (s - 1)]);
        } else {
            assert(want[i] == lines[e + (i - (s - 1) - k)]);
        }
    }
    law_lines_of_joined(want);
}

/// A deletion by line numbers takes out the lines from the first to the last that are asked
/// for, or the first alone where no last one is, and nothing else.
pub proof fn law_lines_are_deleted(content: Seq<char>, op: JsonView, s: nat, e: nat)
    requires
        content.len() > 0,
        content.last() == '\n',
        nat_in(field(op, "start_line"@)) == Some(s),
        nat_in(field(op, "end_line"@)) == Some(e) || (nat_in(field(op, "end_line"@)) is None && e
            == s),
        1 <= s <= e <= lines_of(content).len(),
        bool_in(field(op, "delete"@)) == Some(true),
        string_in(field(op, "expect"@)) is None,
    ensures
        edit_op(content, op) is Ok,
        edit_op(content, op)->Ok_0.warning is None,
        ({
            let lines = lines_of(content);
            let result = edit_op(content, op)->Ok_0.content;
            let left = lines.take(s - 1) + lines.skip(e as int);
            &&& left.len() == lines.len() - (e - s + 1)
            &&& left.len() > 0 ==> lines_of(result) == left
            &&& left.len() == 0 ==> result == seq!['\n']
        }),
{
    let lines = lines_of(content);
    let left = lines.take(s - 1) + lines.skip(e as int);
    assert(lines.subrange(0, s - 1) =~= lines.take(s - 1));
    assert(lines.subrange(e as int, lines.len() as int) =~= lines.skip(e as int));
    let result = edit_op(content, op)->Ok_0.content;
    assert(result == joined(left, true));
    if left.len() == 0 {
        assert(left =~= Seq::<Seq<char>>::empty());
        assert(result =~= seq!['\n']);
    } else {
        lemma_lines_plain(content);
        assert forall|i: int| 0 <= i < left.len() implies !(#[trigger] left[i]).contains('\n') by {
            if i < s - 1 {
                assert(left[i] == lines[i]);
            } else {
                assert(left[i] == lines[e + (i - (s - 1))]);
            }
        }
        law_lines_of_joined(left);
    }
}

/// An insertion puts the new line before or behind the line that is named, and all lines that
/// were there stay.
pub proof fn law_line_is_inserted(content: Seq<char>, op: JsonView, s: nat, new: Seq<char>)
    requires
        content.len() > 0,
        content.last() == '\n',
        nat_in(field(op, "start_line"@)) == Some(s),
        1 <= s <= lines_of(content).len(),
        bool_in(field(op, "delete"@)) != Some(true),
        (bool_in(field(op, "insert_after"@)) == Some(true)) != (bool_in(field(op, "insert_before"@))
            == Some(true)),
        string_in(field(op, "expect"@)) is None,
        string_in(field(op, "new_content"@)) == Some(new),
        !new.contains('\n'),
    ensures
        edit_op(content, op) is Ok,
        edit_op(content, op)->Ok_0.warning is None,
        lines_of(edit_op(content, op)->Ok_0.content) == lines_of(content).insert(
            if bool_in(field(op, "insert_after"@)) == Some(true) {
                s as int
            } else {
                s - 1
            },
            new,
        ),
{
    let lines = lines_of(content);
    let at: int = if bool_in(field(op, "insert_after"@)) == Some(true) {
        s as int
    } else {
        s - 1
    };
    let want = lines.insert(at, new);
    crate::text::law_split_without(new, '\n');
    assert(block_of(new) =~= seq![new]);
    let before = if flag(op, "insert_before"@) {
        block_of(new)
    } else {
        Seq::empty()
    };
    let after = if flag(op, "insert_after"@) {
        block_of(new)
    } else {
        Seq::empty()
    };
    assert(lines.subrange(0, s - 1) + before + lines.subrange(s - 1, s as int) + after
        + lines.subrange(s as int, lines.len() as int) =~= want);
    lemma_lines_plain(content);
    assert forall|i: int| 0 <= i < want.len() implies !(#[trigger] want[i]).contains('\n') by {
        if i < at {
            assert(want[i] == lines[i]);
        } else if i > at {
            assert(want[i] == lines[i - 1]);
        }
    }
    law_lines_of_joined(want);
}

/// An insertion behind the end of a text adds the new text and a line feed to it.
pub proof fn law_text_is_appended(content: Seq<char>, op: JsonView, s: nat, new: Seq<char>)
    requires
        nat_in(field(op, "start_line"@)) == Some(s),
        s > lines_of(content).len(),
        bool_in(field(op, "insert_after"@)) == Some(true),
        string_in(field(op, "new_content"@)) == Some(new),
    ensures
        edit_op(content, op) is Ok,
        content.len() > 0 && content.last() == '\n' ==> edit_op(content, op)->Ok_0.content == content
            + new + seq!['\n'],
        content.len() > 0 && content.last() != '\n' ==> edit_op(content, op)->Ok_0.content == content
            + seq!['\n'] + new + seq!['\n'],
{
    assert(content.push('\n') =~= content + seq!['\n']);
    crate::text::lemma_split_nonempty(content, '\n');
}

/// Line numbers that do not fit the text are refused: nothing is edited at line 0, behind the
/// end or where the range is turned round, and no new text is made up.
pub proof fn law_bad_line_numbers_are_refused(content: Seq<char>, op: JsonView)
    requires
        field(op, "start_line"@) is Some,
        ({
            let start = nat_in(field(op, "start_line"@));
            let end = nat_in(field(op, "end_line"@));
            let inserts = bool_in(field(op, "insert_after"@)) == Some(true) || bool_in(
                field(op, "insert_before"@),
            ) == Some(true);
            let deletes = bool_in(field(op, "delete"@)) == Some(true);
            ||| start is None
            ||| start->0 == 0
            ||| start->0 > lines_of(content).len() && bool_in(field(op, "insert_after"@)) != Some(
                true,
            )
            ||| end is Some && end->0 < start->0 && start->0 <= lines_of(content).len() && (deletes
                || !inserts)
            ||| end is Some && end->0 > lines_of(content).len() && start->0 <= lines_of(
                content,
            ).len() && (deletes || !inserts)
            ||| string_in(field(op, "new_content"@)) is None && !deletes
        }),
    ensures
        edit_op(content, op) is Err,
{
}

/// What is expected where it is said to stand is edited there, without a warning.
pub proof fn law_expected_in_place(content: Seq<char>, op: JsonView, s: nat, expect: Seq<char>)
    requires
        nat_in(field(op, "start_line"@)) == Some(s),
        1 <= s <= lines_of(content).len(),
        string_in(field(op, "expect"@)) == Some(expect),
        !expect.contains('\n'),
        lines_of(content)[s - 1] == expect,
    ensures
        placed(lines_of(content), s as int, s as int, op) == Ok::<_, Seq<char>>(
            ((s as int, s as int), None::<Seq<char>>),
        ),
{
    crate::text::law_split_without(expect, '\n');
    assert(block_of(expect) =~= seq![expect]);
}

/// A line that is expected elsewhere than where it stands is edited where it stands, if it
/// stands there alone, and a warning tells of it.
pub proof fn law_expected_elsewhere(
    content: Seq<char>,
    op: JsonView,
    s: nat,
    expect: Seq<char>,
    k: int,
)
    requires
        nat_in(field(op, "start_line"@)) == Some(s),
        1 <= s <= lines_of(content).len(),
        string_in(field(op, "expect"@)) == Some(expect),
        !expect.contains('\n'),
        trim_end(lines_of(content)[s - 1]) != trim_end(expect),
        0 <= k < lines_of(content).len(),
        lines_of(content)[k] == expect,
        forall|j: int|
            0 <= j < lines_of(content).len() && j != k ==> #[trigger] lines_of(content)[j] != expect,
    ensures
        placed(lines_of(content), s as int, s as int, op) is Ok,
        placed(lines_of(content), s as int, s as int, op)->Ok_0.0 == (k + 1, k + 1),
        placed(lines_of(content), s as int, s as int, op)->Ok_0.1 is Some,
{
    let lines = lines_of(content);
    let block = block_of(expect);
    crate::text::law_split_without(expect, '\n');
    assert(block =~= seq![expect]);
    assert(!block_at(lines, block, LineNorm::TrailingWs, s - 1)) by {
        assert(norm_line(lines[s - 1 + 0], LineNorm::TrailingWs) != norm_line(
            block[0],
            LineNorm::TrailingWs,
        ));
    }
    let hits = all_hits(lines, block, LineNorm::Exact);
    assert(block_at(lines, block, LineNorm::Exact, k));
    law_all_hits(lines, block, LineNorm::Exact, k, 0, 1);
    let i = choose|i: int| 0 <= i < hits.len() && hits[i] == k;
    if hits.len() > 1 {
        let j: int = if i == 0 {
            1
        } else {
            0
        };
        law_all_hits(lines, block, LineNorm::Exact, hits[j], 0, 1);
        law_all_hits(lines, block, LineNorm::Exact, k, 0, i);
        assert(hits.contains(hits[j]));
        assert(block_at(lines, block, LineNorm::Exact, hits[j]));
        assert(norm_line(lines[hits[j] + 0], LineNorm::Exact) == norm_line(
            block[0],
            LineNorm::Exact,
        ));
        assert(lines[hits[j]] == expect);
    }
}

/// A text that stands in one place only is replaced there, or taken out, and the rest of the
/// content stays as it is.
pub proof fn law_text_is_replaced(
    a: Seq<char>,
    old_text: Seq<char>,
    b: Seq<char>,
    op: JsonView,
    new: Seq<char>,
)
    requires
        old_text.len() > 0,
        forall|j: int|
            #[trigger] crate::text::occurs_at(a + old_text + b, old_text, j) ==> j == a.len(),
        field(op, "start_line"@) is None,
        string_in(field(op, "old_text"@)) == Some(old_text),
        if bool_in(field(op, "delete"@)) == Some(true) {
            new.len() == 0
        } else {
            string_in(field(op, "new_text"@)) == Some(new)
        },
    ensures
        edit_op(a + old_text + b, op) == Ok::<_, Seq<char>>(
            StepView { content: a + new + b, warning: None },
        ),
{
    let s = a + old_text + b;
    let k = a.len() as int;
    assert(s.subrange(k, k + old_text.len()) =~= old_text);
    assert(crate::text::occurs_at(s, old_text, k));
    crate::text::law_count_of_one(s, old_text, k);
    law_single_replacement(s, old_text, new);
    assert(s.take(k) =~= a);
    assert(s.skip(k + old_text.len()) =~= b);
    if bool_in(field(op, "delete"@)) == Some(true) {
        assert(new =~= Seq::<char>::empty());
    }
}

/// A text that stands in several places is refused, unless all of them are asked for.
pub proof fn law_ambiguous_text_is_refused(
    content: Seq<char>,
    op: JsonView,
    old_text: Seq<char>,
    j: int,
    k: int,
)
    requires
        field(op, "start_line"@) is None,
        string_in(field(op, "old_text"@)) == Some(old_text),
        old_text.len() > 0,
        crate::text::occurs_at(content, old_text, j),
        crate::text::occurs_at(content, old_text, k),
        j + old_text.len() <= k,
        bool_in(field(op, "all"@)) != Some(true),
    ensures
        edit_op(content, op) is Err,
{
    crate::text::law_count_of_two(content, old_text, j, k);
}

/// Where all places are asked for, all of them are replaced.
pub proof fn law_all_places_are_replaced(
    content: Seq<char>,
    op: JsonView,
    old_text: Seq<char>,
    new: Seq<char>,
)
    requires
        field(op, "start_line"@) is None,
        string_in(field(op, "old_text"@)) == Some(old_text),
        string_in(field(op, "new_text"@)) == Some(new),
        crate::text::contains(content, old_text),
        bool_in(field(op, "delete"@)) != Some(true),
        bool_in(field(op, "all"@)) == Some(true),
    ensures
        edit_op(content, op) is Ok,
        edit_op(content, op)->Ok_0.content == replaced(content, old_text, new),
        (edit_op(content, op)->Ok_0.warning is Some) == (count(content, old_text) > 1),
{
}

/// An operation names a line or a text; one that names neither is refused, and so is one whose
/// text stands nowhere, not even loosely.
pub proof fn law_edit_needs_a_place(content: Seq<char>, op: JsonView)
    requires
        field(op, "start_line"@) is None,
        field(op, "old_text"@) is None || (string_in(field(op, "old_text"@)) is Some
            && !crate::text::contains(content, string_in(field(op, "old_text"@))->0) && forall|
            k: int,
        |
            !block_at(
                lines_of(content),
                block_of(string_in(field(op, "old_text"@))->0),
                LineNorm::Indent,
                k,
            ) && !block_at(
                lines_of(content),
                block_of(string_in(field(op, "old_text"@))->0),
                LineNorm::TrailingWs,
                k,
            ) && !#[trigger] block_at(
                lines_of(content),
                block_of(string_in(field(op, "old_text"@))->0),
                LineNorm::Exact,
                k,
            )),
    ensures
        edit_op(content, op) is Err,
{
    if field(op, "old_text"@) is Some {
        let lines = lines_of(content);
        let block = block_of(string_in(field(op, "old_text"@))->0);
        if locate(lines, block, "old_text"@) is Ok {
            law_located_block_is_unique(lines, block, "old_text"@, 0);
            let (k, mode) = locate(lines, block, "old_text"@)->Ok_0;
            assert(!block_at(lines, block, LineNorm::Exact, k));
        }
    }
}

/// The operations of a batch take place one after the other, each on what those before it
/// left, and the first that fails makes the whole batch fail.
pub proof fn law_batch_goes_step_by_step(
    content: Seq<char>,
    warnings: Seq<Seq<char>>,
    ops: Seq<JsonView>,
    op: JsonView,
)
    ensures
        match edited(content, warnings, ops) {
            Err(e) => edited(content, warnings, ops.push(op)) == Err::<EditView, Seq<char>>(e),
            Ok(v) => match edit_op(v.content, op) {
                Err(_) => edited(content, warnings, ops.push(op)) is Err,
                Ok(step) => {
                    let r = edited(content, warnings, ops.push(op));
                    &&& r is Ok
                    &&& r->Ok_0.content == step.content
                    &&& r->Ok_0.changes.contains(ops.len()) == (step.content != v.content)
                    &&& r->Ok_0.warnings.len() == v.warnings.len() + (if step.warning is Some {
                        1int
                    } else {
                        0int
                    })
                },
            },
        },
        edited(content, warnings, Seq::empty()) == Ok::<_, Seq<char>>(
            EditView { content, changes: Seq::empty(), warnings },
        ),
{
    assert(ops.push(op).drop_last() =~= ops);
    if edited(content, warnings, ops) is Ok {
        lemma_changes_below(content, warnings, ops);
        let v = edited(content, warnings, ops)->Ok_0;
        if edit_op(v.content, op) is Ok && edit_op(v.content, op)->Ok_0.content != v.content {
            let c = v.changes.push(ops.len());
            assert(c[v.changes.len() as int] == ops.len());
        }
    }
}

proof fn lemma_changes_below(content: Seq<char>, warnings: Seq<Seq<char>>, ops: Seq<JsonView>)
    requires
        edited(content, warnings, ops) is Ok,
    ensures
        forall|i: int|
            0 <= i < edited(content, warnings, ops)->Ok_0.changes.len() ==> #[trigger] edited(
                content,
                warnings,
                ops,
            )->Ok_0.changes[i] < ops.len(),
    decreases ops.len(),
{
    if ops.len() > 0 {
        lemma_changes_below(content, warnings, ops.drop_last());
    }
}

/// An edit without a tag, or with the live one, does what its operations do, and one without
/// operations is refused.
pub proof fn law_edit_runs_its_operations(content: Seq<char>, input: JsonView)
    ensures
        (array_in(field(input, "ops"@)) is None || array_in(field(input, "ops"@))->0.len() == 0)
            ==> edit_outcome(content, input) is Err,
        array_in(field(input, "ops"@)) is Some && array_in(field(input, "ops"@))->0.len() > 0 && (
        string_in(field(input, "tag"@)) is None || wanted_tag(input) == tag_of(content))
            ==> edit_outcome(content, input) == edited(
            content,
            Seq::empty(),
            array_in(field(input, "ops"@))->0,
        ),
{
}

/// Without a last line exactly one line is taken out of a text: the one that is named. A
/// replacement puts the lines of the new text in its place, a deletion puts nothing there.
pub proof fn law_one_line_is_taken_out(content: Seq<char>, op: JsonView, n: nat)
    requires
        content.len() > 0,
        content.last() == '\n',
        nat_in(field(op, "start_line"@)) == Some(n),
        field(op, "end_line"@) is None,
        field(op, "expect"@) is None,
        1 <= n <= lines_of(content).len(),
    ensures
        field(op, "delete"@) is None && field(op, "insert_after"@) is None && field(
            op,
            "insert_before"@,
        ) is None ==> (field(op, "new_content"@) matches Some(JsonView::String(new)) ==> edit_op(
            content,
            op,
        ) is Ok && lines_of(edit_op(content, op)->Ok_0.content) == lines_of(content).take(n - 1)
            + split_on(new, '\n') + lines_of(content).skip(n as int)),
        field(op, "delete"@) == Some(JsonView::Bool(true)) ==> edit_op(content, op) is Ok && (
        lines_of(content).len() > 1 ==> lines_of(edit_op(content, op)->Ok_0.content) == lines_of(
            content,
        ).remove(n - 1)) && (lines_of(content).len() == 1 ==> lines_of(
            edit_op(content, op)->Ok_0.content,
        ) == seq![Seq::<char>::empty()]),
{
    let lines = lines_of(content);
    if field(op, "delete"@) is None && field(op, "insert_after"@) is None && field(
        op,
        "insert_before"@,
    ) is None {
        if let Some(JsonView::String(new)) = field(op, "new_content"@) {
            law_lines_are_replaced(content, op, n, n, new);
        }
    }
    if field(op, "delete"@) == Some(JsonView::Bool(true)) {
        law_lines_are_deleted(content, op, n, n);
        assert(lines.take(n - 1) + lines.skip(n as int) =~= lines.remove(n - 1));
        if lines.len() == 1 {
            let left = seq![Seq::<char>::empty()];
            law_lines_of_joined(left);
            assert(joined(left, true) =~= seq!['\n']);
        }
    }
}

/// A tag that is not that of the text stops an edit unless every operation checks what it changes:
/// by what it expects, or by the text that it looks for. Such an edit goes on, with a warning.
pub proof fn law_stale_tags(content: Seq<char>, input: JsonView, ops: Seq<JsonView>)
    requires
        array_in(field(input, "ops"@)) == Some(ops),
        ops.len() > 0,
        wanted_tag(input).len() > 0,
        wanted_tag(input) != tag_of(content),
    ensures
        (exists|i: int|
            0 <= i < ops.len() && field(#[trigger] ops[i], "expect"@) is None && (field(
                ops[i],
                "old_text"@,
            ) is None || field(ops[i], "start_line"@) is Some)) ==> edit_outcome(content, input)
            is Err,
        (forall|i: int|
            0 <= i < ops.len() ==> field(#[trigger] ops[i], "expect"@) is Some || (field(
                ops[i],
                "old_text"@,
            ) is Some && field(ops[i], "start_line"@) is None)) ==> exists|w: Seq<char>|
            edit_outcome(content, input) == #[trigger] edited(content, seq![w], ops),
{
    if forall|i: int|
        0 <= i < ops.len() ==> field(#[trigger] ops[i], "expect"@) is Some || (field(
            ops[i],
            "old_text"@,
        ) is Some && field(ops[i], "start_line"@) is None) {
        assert forall|i: int| 0 <= i < ops.len() implies self_checking(#[trigger] ops[i]) by {
            assert(field(ops[i], "expect"@) is Some || (field(ops[i], "old_text"@) is Some && field(
                ops[i],
                "start_line"@,
            ) is None));
        }
        let w = tag_verdict(wanted_tag(input), tag_of(content), true)->Ok_0->0;
        assert(edit_outcome(content, input) == edited(content, seq![w], ops));
    }
    if exists|i: int|
        0 <= i < ops.len() && field(#[trigger] ops[i], "expect"@) is None && (field(
            ops[i],
            "old_text"@,
        ) is None || field(ops[i], "start_line"@) is Some) {
        let i = choose|i: int|
            0 <= i < ops.len() && field(#[trigger] ops[i], "expect"@) is None && (field(
                ops[i],
                "old_text"@,
            ) is None || field(ops[i], "start_line"@) is Some);
        assert(!self_checking(ops[i]));
    }
}

/// How lines are compared: exactly, or without the white space at their ends, or without that at
/// both ends. What stands inside a line always counts.
pub proof fn law_comparisons(front: Seq<char>, line: Seq<char>, behind: Seq<char>)
    requires
        forall|i: int| 0 <= i < front.len() ==> is_white(#[trigger] front[i]),
        forall|i: int| 0 <= i < behind.len() ==> is_white(#[trigger] behind[i]),
        line.len() > 0,
        !is_white(line[0]),
        !is_white(line.last()),
    ensures
        norm_line(front + line + behind, LineNorm::Exact) == front + line + behind,
        norm_line(front + line + behind, LineNorm::TrailingWs) == front + line,
        norm_line(front + line + behind, LineNorm::Indent) == line,
{
    law_trim(front, line, behind);
    lemma_trailing(front + line, behind);
}

proof fn lemma_trailing(s: Seq<char>, w: Seq<char>)
    requires
        forall|i: int| 0 <= i < w.len() ==> is_white(#[trigger] w[i]),
        s.len() > 0,
        !is_white(s.last()),
    ensures
        trim_end(s + w) == s,
    decreases w.len(),
{
    if w.len() == 0 {
        assert(s + w =~= s);
    } else {
        let d = w.drop_last();
        assert((s + w).last() == w[w.len() - 1]);
        assert((s + w).drop_last() =~= s + d);
        assert forall|i: int| 0 <= i < d.len() implies is_white(#[trigger] d[i]) by {
            assert(d[i] == w[i]);
        }
        lemma_trailing(s, d);
    }
}

/// The lines of a block are those that it was put together from, whether or not a line feed stands
/// behind the last one.
pub proof fn law_block(v: Seq<Seq<char>>)
    requires
        v.len() > 0,
        forall|i: int| 0 <= i < v.len() ==> !(#[trigger] v[i]).contains('\n'),
        v.last().len() > 0,
    ensures
        block_of(join(v, seq!['\n'])) == v,
        block_of(join(v, seq!['\n']) + seq!['\n']) == v,
{
    let s = join(v, seq!['\n']);
    let t = s + seq!['\n'];
    crate::text::law_split_of_join(v, '\n');
    assert(t.drop_last() =~= s);
    assert(split_on(t, '\n') == v.push(Seq::empty()));
    assert(v.push(Seq::<char>::empty()).drop_last() =~= v);
}

/// A text that does not stand in the file as it is, but whose lines do but for white space at their
/// ends, in one place only, is replaced there, with a warning; the lines around it stay.
pub proof fn law_loose_text(content: Seq<char>, op: JsonView, old_text: Seq<char>, new: Seq<char>)
    requires
        content.len() > 0,
        content.last() == '\n',
        field(op, "start_line"@) is None,
        string_in(field(op, "old_text"@)) == Some(old_text),
        string_in(field(op, "new_text"@)) == Some(new),
        field(op, "delete"@) is None,
        forall|i: int| !#[trigger] occurs_at(content, old_text, i),
        locate(lines_of(content), block_of(old_text), "old_text"@) is Ok,
    ensures
        ({
            let lines = lines_of(content);
            let n = block_of(old_text).len();
            let r = edit_op(content, op);
            &&& r is Ok
            &&& r->Ok_0.warning is Some
            &&& exists|k: int, mode: LineNorm|
                0 <= k <= lines.len() - n && #[trigger] block_at(
                    lines,
                    block_of(old_text),
                    mode,
                    k,
                ) && lines_of(r->Ok_0.content) == lines.take(k) + split_on(new, '\n')
                    + lines.skip((k + n) as int)
        }),
{
    let lines = lines_of(content);
    let needle = block_of(old_text);
    lemma_find_from(content, old_text, 0);
    law_located_block_is_unique(lines, needle, "old_text"@, 0);
    let (k, mode) = locate(lines, needle, "old_text"@)->Ok_0;
    let want = lines.take(k) + split_on(new, '\n') + lines.skip((k + needle.len()) as int);
    assert(lines.subrange(0, k) =~= lines.take(k));
    assert(lines.subrange(k + needle.len(), lines.len() as int) =~= lines.skip(
        (k + needle.len()) as int,
    ));
    lemma_split_pieces(new, '\n');
    lemma_split_nonempty(new, '\n');
    lemma_lines_plain(content);
    assert forall|i: int| 0 <= i < want.len() implies !(#[trigger] want[i]).contains('\n') by {
        let m = split_on(new, '\n').len();
        if i < k {
            assert(want[i] == lines[i]);
        } else if i < k + m {
            assert(want[i] == split_on(new, '\n')[i - k]);
        } else {
            assert(want[i] == lines[k + needle.len() + (i - k - m)]);
        }
    }
    law_lines_of_joined(want);
    assert(block_at(lines, needle, mode, k));
}

/// What is said of an edit; warnings are there only where something is to be warned of.
pub proof fn law_edit_answer(o: EditOutcome, path: Seq<char>, i: int)
    ensures
        field(o.answer(path), "path"@) == Some(JsonView::String(path)),
        field(o.answer(path), "success"@) == Some(JsonView::Bool(true)),
        field(o.answer(path), "tag"@) == Some(JsonView::String(o.tag@)),
        field(o.answer(path), "changes"@) matches Some(JsonView::Array(items)) && items.len()
            == o.changes@.len() && (0 <= i < items.len() ==> field(items[i], "op_index"@) == Some(
            count_json(o.changes@[i] as nat),
        )),
        field(o.answer(path), "warnings"@) == if o.warnings@.len() == 0 {
            None
        } else {
            Some(texts_json(views(o.warnings@)))
        },
{
    let pairs = seq![
        ("path"@, JsonView::String(path)),
        ("success"@, JsonView::Bool(true)),
        (
            "changes"@,
            JsonView::Array(positions(o.changes@).map_values(|op: nat| change_json(op))),
        ),
        ("tag"@, JsonView::String(o.tag@)),
    ] + maybe(
        "warnings"@,
        if o.warnings@.len() == 0 {
            None
        } else {
            Some(texts_json(views(o.warnings@)))
        },
    );
    reveal_strlit("path");
    reveal_strlit("success");
    reveal_strlit("changes");
    reveal_strlit("tag");
    reveal_strlit("warnings");
    assert("path"@.len() == 4);
    assert("success"@.len() == 7);
    assert("changes"@.len() == 7);
    assert("tag"@.len() == 3);
    assert("warnings"@.len() == 8);
    assert("success"@[0] != "changes"@[0]);
    law_object_holds(pairs, 0, "path"@);
    law_object_holds(pairs, 1, "success"@);
    law_object_holds(pairs, 2, "changes"@);
    law_object_holds(pairs, 3, "tag"@);
    law_object_holds(pairs, 4, "warnings"@);
    if 0 <= i < o.changes@.len() {
        let one = seq![("op_index"@, count_json(o.changes@[i] as nat))];
        law_object_holds(one, 0, "op_index"@);
    }
}

/// What is shown of a text is its beginning, two hundred characters at most, and all of a shorter
/// one.
pub proof fn law_shown_beginning(s: Seq<char>)
    ensures
        s.len() <= 200 ==> first_200(s) == s,
        s.len() > 200 ==> first_200(s).len() == 200 && forall|i: int|
            0 <= i < 200 ==> #[trigger] first_200(s)[i] == s[i],
{
}

} // verus!
