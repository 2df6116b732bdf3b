//! Outlines: source files folded to their definitions, documents folded to their headings.
use vstd::prelude::*;

use crate::syntax::nodes_view;
use crate::syntax::parse_nodes;
use crate::syntax::syntax_nodes;
use crate::syntax::NodeView;
use crate::syntax::SyntaxNode;
use crate::text::chars_of;
use crate::text::decimal;
use crate::text::join;
use crate::text::join_strings;
use crate::text::lines_chars;
use crate::text::occurs_at;
use crate::text::push_decimal;
use crate::text::push_wide_decimal;
use crate::text::runs;
use crate::text::same;
use crate::text::starts_with;
use crate::text::string_of;
use crate::text::text_lines;
use crate::text::trim_start;
use crate::text::trimmed_start;
use crate::text::views;
use crate::tools::ast::language_of;
use crate::tools::define::strings;

verus! {

// ---------------------------------------------------------------------------
// Folding lines
// ---------------------------------------------------------------------------

/// Lines from the first to the last, both counted from 1.
pub type Span = (usize, usize);

/// The models of spans.
pub open spec fn spans_view(v: Seq<Span>) -> Seq<(nat, nat)> {
    v.map_values(|s: Span| (s.0 as nat, s.1 as nat))
}

/// One of the spans holds the line.
pub open spec fn covered(spans: Seq<(nat, nat)>, line: int) -> bool {
    exists|i: int| 0 <= i < spans.len() && (#[trigger] spans[i]).0 <= line <= spans[i].1
}

/// Where the run of folded lines ends that starts at `i`; both are counted from 0.
pub open spec fn run_end(folded: Seq<bool>, i: int) -> int
    decreases folded.len() - i,
{
    if 0 <= i < folded.len() && folded[i] {
        run_end(folded, i + 1)
    } else {
        i
    }
}

/// The end of a run is not before its start, and not after the end.
pub proof fn lemma_run_end(folded: Seq<bool>, i: int)
    requires
        0 <= i <= folded.len(),
    ensures
        i <= run_end(folded, i) <= folded.len(),
        i < folded.len() && folded[i] ==> run_end(folded, i) > i,
    decreases folded.len() - i,
{
    if i < folded.len() && folded[i] {
        lemma_run_end(folded, i + 1);
    }
}

/// What stands for the folded lines from `i` to before `e`, counted from 0.
pub open spec fn elision(i: int, e: int) -> Seq<char> {
    "    … "@ + decimal((e - i) as nat) + " ln elided ("@ + decimal((i + 1) as nat) + "-"@ + decimal(
        e as nat,
    ) + ")\n"@
}

/// Line `i` with its number.
pub open spec fn numbered_line(i: int, line: Seq<char>) -> Seq<char> {
    decimal((i + 1) as nat) + ": "@ + line + "\n"@
}

/// The lines from `i` on: those that are not folded with their numbers, each run of folded
/// lines as one line that says which they are.
pub open spec fn rendered(lines: Seq<Seq<char>>, folded: Seq<bool>, i: int) -> Seq<char>
    decreases lines.len() - i,
    when folded.len() == lines.len() && 0 <= i
    via rendered_goes_on
{
    if i >= lines.len() {
        Seq::empty()
    } else if folded[i] {
        elision(i, run_end(folded, i)) + rendered(lines, folded, run_end(folded, i))
    } else {
        numbered_line(i, lines[i]) + rendered(lines, folded, i + 1)
    }
}

#[via_fn]
proof fn rendered_goes_on(lines: Seq<Seq<char>>, folded: Seq<bool>, i: int) {
    if i < lines.len() {
        lemma_run_end(folded, i);
    }
}

fn push_elision(out: &mut String, i: usize, e: usize)
    requires
        i < e,
    ensures
        final(out)@ == old(out)@ + elision(i as int, e as int),
{
    let ghost start = out@;
    out.append("    … ");
    push_decimal(out, (e - i) as u64);
    out.append(" ln elided (");
    push_wide_decimal(out, i as u128 + 1);
    out.append("-");
    push_decimal(out, e as u64);
    out.append(")\n");
    assert(out@ =~= start + elision(i as int, e as int));
}

fn push_line(out: &mut String, i: usize, line: &Vec<char>)
    ensures
        final(out)@ == old(out)@ + numbered_line(i as int, line@),
{
    let ghost start = out@;
    push_wide_decimal(out, i as u128 + 1);
    out.append(": ");
    out.append(string_of(line).as_str());
    out.append("\n");
    assert(out@ =~= start + numbered_line(i as int, line@));
}

fn render(lines: &Vec<Vec<char>>, folded: &Vec<bool>) -> (r: String)
    requires
        folded@.len() == lines@.len(),
    ensures
        r@ == rendered(runs(lines@), folded@, 0),
{
    let ghost all = runs(lines@);
    let n = lines.len();
    let mut out = String::new();
    let mut i: usize = 0;
    assert(out@ + rendered(all, folded@, 0) =~= rendered(all, folded@, 0));
    while i < n
        invariant
            i <= n,
            n == lines@.len(),
            n == folded@.len(),
            all == runs(lines@),
            out@ + rendered(all, folded@, i as int) == rendered(all, folded@, 0),
        decreases n - i,
    {
        let ghost before = out@;
        if folded[i] {
            let mut e: usize = i;
            while e < n && folded[e]
                invariant
                    i <= e <= n,
                    n == folded@.len(),
                    run_end(folded@, i as int) == run_end(folded@, e as int),
                decreases n - e,
            {
                e = e + 1;
            }
            assert(run_end(folded@, e as int) == e);
            proof {
                lemma_run_end(folded@, i as int);
            }
            push_elision(&mut out, i, e);
            assert(out@ + rendered(all, folded@, e as int) =~= before + rendered(
                all,
                folded@,
                i as int,
            ));
            i = e;
        } else {
            push_line(&mut out, i, &lines[i]);
            assert(out@ + rendered(all, folded@, i + 1) =~= before + rendered(
                all,
                folded@,
                i as int,
            ));
            i = i + 1;
        }
    }
    assert(out@ =~= out@ + rendered(all, folded@, n as int));
    out
}

/// Which of `n` lines the spans fold.
pub open spec fn folded_lines(spans: Seq<(nat, nat)>, n: nat) -> Seq<bool> {
    Seq::new(n, |i: int| covered(spans, i + 1))
}

fn fold_lines(spans: &Vec<Span>, n: usize) -> (r: Vec<bool>)
    ensures
        r@ == folded_lines(spans_view(spans@), n as nat),
{
    let ghost all = spans_view(spans@);
    let mut r: Vec<bool> = Vec::new();
    let mut i: usize = 0;
    while i < n
        invariant
            i <= n,
            all == spans_view(spans@),
            r@.len() == i,
            forall|k: int| 0 <= k < i ==> #[trigger] r@[k] == covered(all, k + 1),
        decreases n - i,
    {
        let mut held = false;
        let mut j: usize = 0;
        while j < spans.len()
            invariant
                j <= spans@.len(),
                i < n,
                all == spans_view(spans@),
                held == exists|k: int|
                    0 <= k < j && (#[trigger] all[k]).0 <= i + 1 <= all[k].1,
            decreases spans@.len() - j,
        {
            assert(all[j as int] == (spans@[j as int].0 as nat, spans@[j as int].1 as nat));
            if spans[j].0 <= i + 1 && i + 1 <= spans[j].1 {
                held = true;
            }
            j = j + 1;
        }
        r.push(held);
        i = i + 1;
    }
    assert(r@ =~= folded_lines(all, n as nat));
    r
}

/// A folded text.
#[derive(Debug)]
pub struct Outline {
    /// The text.
    pub text: String,
    /// The lines that were folded.
    pub elided: Vec<Span>,
    /// How many definitions or headings there are.
    pub count: usize,
}

/// The model of an `Outline`.
pub struct OutlineView {
    /// The text.
    pub text: Seq<char>,
    /// The lines that were folded.
    pub elided: Seq<(nat, nat)>,
    /// How many definitions or headings there are.
    pub count: nat,
}

impl View for Outline {
    type V = OutlineView;

    open spec fn view(&self) -> OutlineView {
        OutlineView {
            text: self.text@,
            elided: spans_view(self.elided@),
            count: self.count as nat,
        }
    }
}

/// An outline that may be missing.
pub open spec fn optional_outline(o: Option<Outline>) -> Option<OutlineView> {
    match o {
        Some(o) => Some(o@),
        None => None,
    }
}

/// A text with some of its lines folded.
pub open spec fn outlined(content: Seq<char>, elided: Seq<(nat, nat)>, count: nat) -> OutlineView {
    let lines = text_lines(content);
    OutlineView {
        text: rendered(lines, folded_lines(elided, lines.len()), 0),
        elided,
        count,
    }
}

/// How many lines are folded, where those in two spans count twice.
pub open spec fn lines_elided(spans: Seq<(nat, nat)>) -> int
    decreases spans.len(),
{
    if spans.len() == 0 {
        0
    } else {
        lines_elided(spans.drop_last()) + spans.last().1 - spans.last().0 + 1
    }
}

/// The spans end where they start, or after.
pub open spec fn proper(spans: Seq<(nat, nat)>) -> bool {
    forall|i: int| 0 <= i < spans.len() ==> (#[trigger] spans[i]).0 <= spans[i].1
}

/// A number, or the greatest that the library counts to.
pub open spec fn capped(n: int) -> int {
    if n > u64::MAX {
        u64::MAX as int
    } else {
        n
    }
}

/// How many lines are folded; more than can be counted count as the greatest number.
pub fn count_elided(spans: &Vec<Span>) -> (r: u64)
    requires
        proper(spans_view(spans@)),
    ensures
        r as int == capped(lines_elided(spans_view(spans@))),
{
    let ghost all = spans_view(spans@);
    let mut total: u64 = 0;
    let mut i: usize = 0;
    let n = spans.len();
    assert(all.take(0) =~= Seq::<(nat, nat)>::empty());
    while i < n
        invariant
            i <= n,
            n == spans@.len(),
            all == spans_view(spans@),
            proper(all),
            total as int == capped(lines_elided(all.take(i as int))),
            lines_elided(all.take(i as int)) >= 0,
        decreases n - i,
    {
        proof {
            assert(all.take(i + 1).drop_last() =~= all.take(i as int));
            assert(all.take(i + 1).last() == all[i as int]);
            assert(all[i as int].0 <= all[i as int].1);
        }
        let len: u128 = (spans[i].1 - spans[i].0) as u128 + 1;
        let sum: u128 = total as u128 + len;
        total = if sum > u64::MAX as u128 {
            u64::MAX
        } else {
            sum as u64
        };
        i = i + 1;
    }
    assert(all.take(n as int) =~= all);
    total
}

/// The line at the end of an outline that says how to get at what was folded.
pub open spec fn footer(path: Seq<char>, elided: Seq<(nat, nat)>, unit: Seq<char>) -> Seq<char> {
    if elided.len() == 0 {
        Seq::empty()
    } else {
        "\n[结构摘要：已折叠 "@ + decimal(elided.len()) + " 处"@ + unit + "、共 "@ + decimal(
            capped(lines_elided(elided)) as nat,
        ) + " 行。要看某段，用行范围重读，例如 `"@ + path + ":"@ + join(
            sample_ranges(elided),
            ","@,
        ) + "`。整文件原文用 `"@ + path + ":raw`。]"@
    }
}

/// A range of lines as a selector writes it.
pub open spec fn range_text(s: (nat, nat)) -> Seq<char> {
    decimal(s.0) + "-"@ + decimal(s.1)
}

/// The first two ranges.
pub open spec fn sample_ranges(elided: Seq<(nat, nat)>) -> Seq<Seq<char>> {
    let n = if elided.len() < 2 {
        elided.len() as int
    } else {
        2
    };
    elided.take(n).map_values(|s: (nat, nat)| range_text(s))
}

fn range_of(s: Span) -> (r: String)
    ensures
        r@ == range_text((s.0 as nat, s.1 as nat)),
{
    let mut r = String::new();
    push_decimal(&mut r, s.0 as u64);
    r.append("-");
    push_decimal(&mut r, s.1 as u64);
    assert(r@ =~= range_text((s.0 as nat, s.1 as nat)));
    r
}

/// The line at the end of an outline that says how to get at what was folded. `unit` says
/// what was folded.
pub fn summary_footer(read_path: &str, elided: &Vec<Span>, unit: &str) -> (r: String)
    requires
        proper(spans_view(elided@)),
    ensures
        r@ == footer(read_path@, spans_view(elided@), unit@),
{
    let ghost all = spans_view(elided@);
    let n = elided.len();
    if n == 0 {
        let r = String::new();
        assert(r@ =~= Seq::<char>::empty());
        return r;
    }
    let total = count_elided(elided);
    let mut sample: Vec<String> = Vec::new();
    sample.push(range_of(elided[0]));
    if n >= 2 {
        sample.push(range_of(elided[1]));
    }
    assert(all[0] == (elided@[0].0 as nat, elided@[0].1 as nat));
    assert(n >= 2 ==> all[1] == (elided@[1].0 as nat, elided@[1].1 as nat));
    assert(views(sample@) =~= sample_ranges(all));
    let mut r = String::from_str("\n[结构摘要：已折叠 ");
    push_decimal(&mut r, n as u64);
    r.append(" 处");
    r.append(unit);
    r.append("、共 ");
    push_decimal(&mut r, total);
    r.append(" 行。要看某段，用行范围重读，例如 `");
    r.append(read_path);
    r.append(":");
    r.append(join_strings(&sample, ",").as_str());
    r.append("`。整文件原文用 `");
    r.append(read_path);
    r.append(":raw`。]");
    r
}

// ---------------------------------------------------------------------------
// Source files
// ---------------------------------------------------------------------------

/// The language of a source file that is folded, by its extension; empty where it is not.
pub open spec fn summary_language(ext: Seq<char>) -> Seq<char> {
    if ext == "rs"@ {
        "rust"@
    } else if ext == "ts"@ || ext == "tsx"@ {
        "typescript"@
    } else if ext == "js"@ || ext == "jsx"@ || ext == "mjs"@ || ext == "cjs"@ {
        "javascript"@
    } else if ext == "py"@ {
        "python"@
    } else if ext == "go"@ {
        "go"@
    } else if ext == "java"@ {
        "java"@
    } else if ext == "c"@ || ext == "h"@ {
        "c"@
    } else if ext == "cpp"@ || ext == "cc"@ || ext == "cxx"@ || ext == "hpp"@ || ext == "hh"@ {
        "cpp"@
    } else {
        ""@
    }
}

/// The language of a source file that is folded, by its extension; empty where it is not.
pub fn read_summary_lang(ext: &str) -> (r: &'static str)
    ensures
        r@ == summary_language(ext@),
{
    if same(ext, "rs") {
        "rust"
    } else if same(ext, "ts") || same(ext, "tsx") {
        "typescript"
    } else if same(ext, "js") || same(ext, "jsx") || same(ext, "mjs") || same(ext, "cjs") {
        "javascript"
    } else if same(ext, "py") {
        "python"
    } else if same(ext, "go") {
        "go"
    } else if same(ext, "java") {
        "java"
    } else if same(ext, "c") || same(ext, "h") {
        "c"
    } else if same(ext, "cpp") || same(ext, "cc") || same(ext, "cxx") || same(ext, "hpp") || same(
        ext,
        "hh",
    ) {
        "cpp"
    } else {
        ""
    }
}

/// The kinds of nodes that are definitions in a language.
pub open spec fn definition_kinds(lang: Seq<char>) -> Seq<Seq<char>> {
    if lang == "c"@ {
        seq!["function_definition"@, "struct_specifier"@]
    } else if lang == "cpp"@ {
        seq!["function_definition"@, "struct_specifier"@, "class_specifier"@]
    } else if lang == "rust"@ {
        seq!["function_item"@, "struct_item"@, "enum_item"@, "trait_item"@, "impl_item"@]
    } else if lang == "go"@ {
        seq!["function_declaration"@, "method_declaration"@, "type_declaration"@]
    } else if lang == "python"@ {
        seq!["function_definition"@, "class_definition"@]
    } else if lang == "typescript"@ {
        seq![
            "function_declaration"@,
            "method_definition"@,
            "class_declaration"@,
            "interface_declaration"@,
        ]
    } else if lang == "javascript"@ {
        seq!["function_declaration"@, "method_definition"@, "class_declaration"@]
    } else if lang == "java"@ {
        seq!["method_declaration"@, "class_declaration"@, "interface_declaration"@]
    } else {
        Seq::empty()
    }
}

fn kinds_of(lang: &str) -> (r: Vec<String>)
    ensures
        views(r@) == definition_kinds(lang@),
{
    let r = if same(lang, "c") {
        strings(&["function_definition", "struct_specifier"])
    } else if same(lang, "cpp") {
        strings(&["function_definition", "struct_specifier", "class_specifier"])
    } else if same(lang, "rust") {
        strings(&["function_item", "struct_item", "enum_item", "trait_item", "impl_item"])
    } else if same(lang, "go") {
        strings(&["function_declaration", "method_declaration", "type_declaration"])
    } else if same(lang, "python") {
        strings(&["function_definition", "class_definition"])
    } else if same(lang, "typescript") {
        strings(
            &[
                "function_declaration",
                "method_definition",
                "class_declaration",
                "interface_declaration",
            ],
        )
    } else if same(lang, "javascript") {
        strings(&["function_declaration", "method_definition", "class_declaration"])
    } else if same(lang, "java") {
        strings(&["method_declaration", "class_declaration", "interface_declaration"])
    } else {
        Vec::new()
    };
    assert(views(r@) =~= definition_kinds(lang@));
    r
}

/// The lines of the nodes of a kind that do not stand in another node of that kind, and how
/// deep the one stands that the last node stands in. A node comes before those in it. The
/// lines are counted from 0.
pub open spec fn outermost(nodes: Seq<NodeView>, kind: Seq<char>) -> (
    Seq<(nat, nat)>,
    Option<nat>,
)
    decreases nodes.len(),
{
    if nodes.len() == 0 {
        (Seq::empty(), None)
    } else {
        let (spans, inside) = outermost(nodes.drop_last(), kind);
        let n = nodes.last();
        if inside is Some && n.depth > inside->0 {
            (spans, inside)
        } else if n.kind == kind {
            (spans.push((n.start, n.end)), Some(n.depth))
        } else {
            (spans, None)
        }
    }
}

/// The lines of the definitions, kind by kind.
pub open spec fn definition_spans(nodes: Seq<NodeView>, kinds: Seq<Seq<char>>) -> Seq<(nat, nat)>
    decreases kinds.len(),
{
    if kinds.len() == 0 {
        Seq::empty()
    } else {
        definition_spans(nodes, kinds.drop_last()) + outermost(nodes, kinds.last()).0
    }
}

/// The list with a span put after those that start no later.
pub open spec fn with_span(sorted: Seq<(nat, nat)>, s: (nat, nat)) -> Seq<(nat, nat)>
    decreases sorted.len(),
{
    if sorted.len() == 0 || sorted.last().0 <= s.0 {
        sorted.push(s)
    } else {
        with_span(sorted.drop_last(), s).push(sorted.last())
    }
}

/// Spans in the order in which they start; those that start together stay as they were.
pub open spec fn by_start(v: Seq<(nat, nat)>) -> Seq<(nat, nat)>
    decreases v.len(),
{
    if v.len() == 0 {
        v
    } else {
        with_span(by_start(v.drop_last()), v.last())
    }
}

/// A list in which nothing follows on its like.
pub open spec fn no_repeats(v: Seq<(nat, nat)>) -> Seq<(nat, nat)>
    decreases v.len(),
{
    if v.len() == 0 {
        v
    } else {
        let rest = no_repeats(v.drop_last());
        if rest.len() > 0 && rest.last() == v.last() {
            rest
        } else {
            rest.push(v.last())
        }
    }
}

/// What is folded of a definition in a text of `total` lines: all but its first line. The
/// lines of the definition are counted from 0, those of the result from 1.
pub open spec fn body_span(s: (nat, nat), total: nat) -> Option<(nat, nat)> {
    let e = if s.1 + 1 < total {
        s.1 + 1
    } else {
        total
    };
    if e > s.0 + 1 {
        Some((s.0 + 2, e))
    } else {
        None
    }
}

/// What is folded of definitions.
pub open spec fn body_spans(v: Seq<(nat, nat)>, total: nat) -> Seq<(nat, nat)> {
    v.filter_map(|s: (nat, nat)| body_span(s, total))
}

/// The outline of a source text, given the nodes of its syntax tree and the kinds that are
/// definitions; none where it has no definitions.
pub open spec fn definitions_folded(
    content: Seq<char>,
    nodes: Seq<NodeView>,
    kinds: Seq<Seq<char>>,
) -> Option<OutlineView> {
    let spans = no_repeats(by_start(definition_spans(nodes, kinds)));
    if spans.len() == 0 {
        None
    } else {
        Some(outlined(content, body_spans(spans, text_lines(content).len()), spans.len()))
    }
}

/// The outline of a source file with this extension.
pub open spec fn code_outline(content: Seq<char>, ext: Seq<char>) -> Option<OutlineView> {
    let lang = summary_language(ext);
    if lang == ""@ {
        None
    } else {
        match syntax_nodes(lang, content) {
            Some(nodes) => definitions_folded(content, nodes, definition_kinds(lang)),
            None => None,
        }
    }
}

fn collect_kind(nodes: &Vec<SyntaxNode>, kind: &str, out: &mut Vec<Span>)
    ensures
        spans_view(final(out)@) == spans_view(old(out)@) + outermost(
            nodes_view(nodes@),
            kind@,
        ).0,
{
    let ghost first = spans_view(out@);
    let ghost all = nodes_view(nodes@);
    let mut inside: Option<usize> = None;
    let n = nodes.len();
    let mut i: usize = 0;
    assert(all.take(0) =~= Seq::<NodeView>::empty());
    assert(first + outermost(all.take(0), kind@).0 =~= first);
    while i < n
        invariant
            i <= n,
            n == nodes@.len(),
            all == nodes_view(nodes@),
            spans_view(out@) == first + outermost(all.take(i as int), kind@).0,
            (match inside {
                Some(d) => Some(d as nat),
                None => None,
            }) == outermost(all.take(i as int), kind@).1,
        decreases n - i,
    {
        let ghost done = out@;
        let ghost prev = outermost(all.take(i as int), kind@);
        proof {
            assert(all.take(i + 1).drop_last() =~= all.take(i as int));
            assert(all.take(i + 1).last() == nodes@[i as int]@);
        }
        let node = &nodes[i];
        let within = match inside {
            Some(d) => node.depth > d,
            None => false,
        };
        if !within {
            if same(node.kind.as_str(), kind) {
                out.push((node.start, node.end));
                inside = Some(node.depth);
                proof {
                    let s = (node@.start, node@.end);
                    assert(spans_view(out@) =~= spans_view(done).push(s));
                    assert(spans_view(out@) =~= first + prev.0.push(s));
                }
            } else {
                inside = None;
            }
        }
        i = i + 1;
    }
    assert(all.take(n as int) =~= all);
}

proof fn lemma_with_span(sorted: Seq<(nat, nat)>, at: int, s: (nat, nat))
    requires
        0 <= at <= sorted.len(),
        at > 0 ==> sorted[at - 1].0 <= s.0,
        forall|k: int| at <= k < sorted.len() ==> (#[trigger] sorted[k]).0 > s.0,
    ensures
        with_span(sorted, s) == sorted.insert(at, s),
    decreases sorted.len(),
{
    if sorted.len() == at {
        assert(sorted.insert(at, s) =~= sorted.push(s));
    } else {
        assert(sorted[sorted.len() - 1].0 > s.0);
        lemma_with_span(sorted.drop_last(), at, s);
        assert(sorted.insert(at, s) =~= sorted.drop_last().insert(at, s).push(sorted.last()));
    }
}

fn sort_spans(v: &Vec<Span>) -> (r: Vec<Span>)
    ensures
        spans_view(r@) == by_start(spans_view(v@)),
{
    let ghost all = spans_view(v@);
    let mut r: Vec<Span> = Vec::new();
    let n = v.len();
    let mut i: usize = 0;
    assert(all.take(0) =~= Seq::<(nat, nat)>::empty());
    assert(spans_view(r@) =~= Seq::<(nat, nat)>::empty());
    while i < n
        invariant
            i <= n,
            n == v@.len(),
            all == spans_view(v@),
            spans_view(r@) == by_start(all.take(i as int)),
        decreases n - i,
    {
        let s = v[i];
        let ghost sorted = spans_view(r@);
        let m = r.len();
        let mut at: usize = m;
        while at > 0 && r[at - 1].0 > s.0
            invariant
                at <= m,
                m == r@.len(),
                sorted == spans_view(r@),
                forall|k: int| at <= k < m ==> (#[trigger] sorted[k]).0 > s.0,
            decreases at,
        {
            assert(sorted[at - 1].0 > s.0);
            at = at - 1;
        }
        proof {
            assert(at > 0 ==> sorted[at - 1].0 <= s.0);
            lemma_with_span(sorted, at as int, (s.0 as nat, s.1 as nat));
            assert(all.take(i + 1).drop_last() =~= all.take(i as int));
            assert(all.take(i + 1).last() == (s.0 as nat, s.1 as nat));
        }
        r.insert(at, s);
        assert(spans_view(r@) =~= sorted.insert(at as int, (s.0 as nat, s.1 as nat)));
        i = i + 1;
    }
    assert(all.take(n as int) =~= all);
    r
}

fn drop_repeats(v: &Vec<Span>) -> (r: Vec<Span>)
    ensures
        spans_view(r@) == no_repeats(spans_view(v@)),
{
    let ghost all = spans_view(v@);
    let mut r: Vec<Span> = Vec::new();
    let n = v.len();
    let mut i: usize = 0;
    assert(all.take(0) =~= Seq::<(nat, nat)>::empty());
    assert(spans_view(r@) =~= Seq::<(nat, nat)>::empty());
    while i < n
        invariant
            i <= n,
            n == v@.len(),
            all == spans_view(v@),
            spans_view(r@) == no_repeats(all.take(i as int)),
        decreases n - i,
    {
        let s = v[i];
        let ghost done = spans_view(r@);
        proof {
            assert(all.take(i + 1).drop_last() =~= all.take(i as int));
            assert(all.take(i + 1).last() == (s.0 as nat, s.1 as nat));
        }
        let m = r.len();
        let repeated = m > 0 && r[m - 1].0 == s.0 && r[m - 1].1 == s.1;
        assert(m > 0 ==> done.last() == (r@[m - 1].0 as nat, r@[m - 1].1 as nat));
        if !repeated {
            r.push(s);
            assert(spans_view(r@) =~= done.push((s.0 as nat, s.1 as nat)));
        }
        i = i + 1;
    }
    assert(all.take(n as int) =~= all);
    r
}

fn bodies_of(v: &Vec<Span>, total: usize) -> (r: Vec<Span>)
    ensures
        spans_view(r@) == body_spans(spans_view(v@), total as nat),
        proper(spans_view(r@)),
{
    let ghost all = spans_view(v@);
    let ghost f = |s: (nat, nat)| body_span(s, total as nat);
    let mut r: Vec<Span> = Vec::new();
    let n = v.len();
    let mut i: usize = 0;
    assert(all.take(0).filter_map(f) =~= Seq::<(nat, nat)>::empty()) by {
        reveal_with_fuel(Seq::filter_map, 1);
    }
    assert(spans_view(r@) =~= Seq::<(nat, nat)>::empty());
    while i < n
        invariant
            i <= n,
            n == v@.len(),
            all == spans_view(v@),
            f == (|s: (nat, nat)| body_span(s, total as nat)),
            spans_view(r@) == all.take(i as int).filter_map(f),
            proper(spans_view(r@)),
        decreases n - i,
    {
        let ghost done = spans_view(r@);
        let s = v[i];
        proof {
            all.lemma_filter_map_take_succ(f, i as int);
            assert(all[i as int] == (s.0 as nat, s.1 as nat));
        }
        let e = if s.1 < total {
            s.1 + 1
        } else {
            total
        };
        if e > 0 && e - 1 > s.0 {
            r.push((s.0 + 2, e));
            assert(spans_view(r@) =~= done.push(((s.0 + 2) as nat, e as nat)));
        }
        i = i + 1;
    }
    assert(all.take(n as int) =~= all);
    r
}

fn make_outline(content: &str, elided: Vec<Span>, count: usize) -> (r: Outline)
    ensures
        r@ == outlined(content@, spans_view(elided@), count as nat),
{
    let cs = chars_of(content);
    let lines = lines_chars(&cs);
    let n = lines.len();
    let folded = fold_lines(&elided, n);
    assert(runs(lines@).len() == n);
    let text = render(&lines, &folded);
    Outline { text, elided, count }
}

/// Folds the definitions of a source text, given the nodes of its syntax tree.
pub fn fold_definitions(content: &str, nodes: &Vec<SyntaxNode>, kinds: &Vec<String>) -> (r: Option<
    Outline,
>)
    ensures
        optional_outline(r) == definitions_folded(content@, nodes_view(nodes@), views(kinds@)),
        r matches Some(o) ==> proper(o@.elided),
{
    let ghost all = views(kinds@);
    let ghost tree = nodes_view(nodes@);
    let mut spans: Vec<Span> = Vec::new();
    let n = kinds.len();
    let mut i: usize = 0;
    assert(all.take(0) =~= Seq::<Seq<char>>::empty());
    assert(spans_view(spans@) =~= Seq::<(nat, nat)>::empty());
    while i < n
        invariant
            i <= n,
            n == kinds@.len(),
            all == views(kinds@),
            tree == nodes_view(nodes@),
            spans_view(spans@) == definition_spans(tree, all.take(i as int)),
        decreases n - i,
    {
        assert(all.take(i + 1).drop_last() =~= all.take(i as int));
        assert(all.take(i + 1).last() == kinds@[i as int]@);
        collect_kind(nodes, kinds[i].as_str(), &mut spans);
        i = i + 1;
    }
    assert(all.take(n as int) =~= all);
    let sorted = sort_spans(&spans);
    let spans = drop_repeats(&sorted);
    if spans.len() == 0 {
        assert(spans_view(spans@).len() == 0);
        return None;
    }
    let cs = chars_of(content);
    let lines = lines_chars(&cs);
    let total = lines.len();
    assert(runs(lines@).len() == total);
    let elided = bodies_of(&spans, total);
    let count = spans.len();
    assert(spans_view(spans@).len() == count);
    Some(make_outline(content, elided, count))
}

/// Folds the definitions of a source file with this extension; none where its language is
/// not known or it has no definitions.
pub fn summarize_code(content: &str, ext: &str) -> (r: Option<Outline>)
    ensures
        optional_outline(r) == code_outline(content@, ext@),
        r matches Some(o) ==> proper(o@.elided),
{
    let lang = read_summary_lang(ext);
    if same(lang, "") {
        return None;
    }
    match parse_nodes(lang, content) {
        Some(nodes) => {
            let kinds = kinds_of(lang);
            fold_definitions(content, &nodes, &kinds)
        },
        None => None,
    }
}

// ---------------------------------------------------------------------------
// Documents
// ---------------------------------------------------------------------------

/// A line that opens or closes a block of code.
pub open spec fn fence_of(line: Seq<char>) -> Option<Seq<char>> {
    let s = trim_start(line);
    if "```"@.is_prefix_of(s) {
        Some("```"@)
    } else if "~~~"@.is_prefix_of(s) {
        Some("~~~"@)
    } else {
        None
    }
}

/// How many `#` a line starts with, from character `i` on.
pub open spec fn hashes(s: Seq<char>) -> nat
    decreases s.len(),
{
    if s.len() > 0 && s[0] == '#' {
        1 + hashes(s.drop_first())
    } else {
        0
    }
}

/// One to six `#` and a space.
pub open spec fn is_heading(line: Seq<char>) -> bool {
    let s = trim_start(line);
    1 <= hashes(s) <= 6 && hashes(s) < s.len() && s[hashes(s) as int] == ' '
}

/// The fence of the block of code that the lines end in, if they end in one.
pub open spec fn open_fence(lines: Seq<Seq<char>>) -> Option<Seq<char>>
    decreases lines.len(),
{
    if lines.len() == 0 {
        None
    } else {
        let before = open_fence(lines.drop_last());
        match (fence_of(lines.last()), before) {
            (Some(f), None) => Some(f),
            (Some(f), Some(opened)) => if f == opened {
                None
            } else {
                before
            },
            (None, _) => before,
        }
    }
}

/// The numbers of the headings, counted from 1; what is in a block of code is none.
pub open spec fn headings(lines: Seq<Seq<char>>) -> Seq<nat>
    decreases lines.len(),
{
    if lines.len() == 0 {
        Seq::empty()
    } else {
        let found = headings(lines.drop_last());
        let line = lines.last();
        if fence_of(line) is None && open_fence(lines.drop_last()) is None && is_heading(line) {
            found.push(lines.len())
        } else {
            found
        }
    }
}

/// The lines before the next heading that follow on line `after`, and so on to line `total`.
pub open spec fn gaps(after: nat, next: Seq<nat>, total: nat) -> Seq<(nat, nat)>
    decreases next.len(),
{
    let before = if next.len() == 0 {
        total
    } else {
        (next[0] - 1) as nat
    };
    let gap = if after < before {
        seq![(after + 1, before)]
    } else {
        Seq::empty()
    };
    if next.len() == 0 {
        gap
    } else {
        gap + gaps(next[0], next.drop_first(), total)
    }
}

/// The outline of a document; none where it has no headings.
pub open spec fn document_outline(content: Seq<char>) -> Option<OutlineView> {
    let lines = text_lines(content);
    let found = headings(lines);
    if found.len() == 0 {
        None
    } else {
        Some(outlined(content, gaps(0, found, lines.len()), found.len()))
    }
}

fn count_hashes(s: &Vec<char>) -> (n: usize)
    ensures
        n == hashes(s@),
        n <= s@.len(),
{
    let mut n: usize = 0;
    assert(s@.skip(0) =~= s@);
    while n < s.len() && s[n] == '#'
        invariant
            n <= s@.len(),
            hashes(s@) == n + hashes(s@.skip(n as int)),
        decreases s@.len() - n,
    {
        assert(s@.skip(n as int).drop_first() =~= s@.skip(n + 1));
        n = n + 1;
    }
    n
}

fn heading(s: &Vec<char>) -> (r: bool)
    ensures
        r == (1 <= hashes(s@) <= 6 && hashes(s@) < s@.len() && s@[hashes(s@) as int] == ' '),
{
    let n = count_hashes(s);
    1 <= n && n <= 6 && n < s.len() && s[n] == ' '
}

fn fence_kind(s: &Vec<char>) -> (r: Option<bool>)
    ensures
        r == (if "```"@.is_prefix_of(s@) {
            Some(true)
        } else if "~~~"@.is_prefix_of(s@) {
            Some(false)
        } else {
            None
        }),
{
    if starts_with(s, &chars_of("```")) {
        Some(true)
    } else if starts_with(s, &chars_of("~~~")) {
        Some(false)
    } else {
        None
    }
}

/// The fence that a mark stands for.
spec fn fence_text(mark: Option<bool>) -> Option<Seq<char>> {
    match mark {
        Some(true) => Some("```"@),
        Some(false) => Some("~~~"@),
        None => None,
    }
}

/// The models of line numbers.
spec fn numbers(v: Seq<usize>) -> Seq<nat> {
    v.map_values(|n: usize| n as nat)
}

fn find_headings(lines: &Vec<Vec<char>>) -> (r: Vec<usize>)
    ensures
        numbers(r@) == headings(runs(lines@)),
        forall|i: int| 0 <= i < r@.len() ==> 1 <= #[trigger] r@[i] <= lines@.len(),
        forall|i: int, j: int| 0 <= i < j < r@.len() ==> r@[i] < r@[j],
{
    let ghost all = runs(lines@);
    let mut r: Vec<usize> = Vec::new();
    let mut fence: Option<bool> = None;
    let n = lines.len();
    let mut i: usize = 0;
    assert(all.take(0) =~= Seq::<Seq<char>>::empty());
    assert(numbers(r@) =~= Seq::<nat>::empty());
    proof {
        reveal_strlit("```");
        reveal_strlit("~~~");
        assert("```"@[0] != "~~~"@[0]);
    }
    while i < n
        invariant
            i <= n,
            n == lines@.len(),
            all == runs(lines@),
            "```"@ != "~~~"@,
            fence_text(fence) == open_fence(all.take(i as int)),
            numbers(r@) == headings(all.take(i as int)),
            forall|k: int| 0 <= k < r@.len() ==> 1 <= #[trigger] r@[k] <= i,
            forall|k: int, j: int| 0 <= k < j < r@.len() ==> r@[k] < r@[j],
        decreases n - i,
    {
        let ghost done = r@;
        let s = trimmed_start(&lines[i]);
        proof {
            assert(all.take(i + 1).drop_last() =~= all.take(i as int));
            assert(all.take(i + 1).last() == lines@[i as int]@);
        }
        match fence_kind(&s) {
            Some(mark) => {
                assert(fence_of(lines@[i as int]@) == fence_text(Some(mark)));
                match fence {
                    Some(opened) => {
                        if opened == mark {
                            fence = None;
                        }
                    },
                    None => {
                        fence = Some(mark);
                    },
                }
            },
            None => {
                if fence.is_none() && heading(&s) {
                    r.push(i + 1);
                    assert(numbers(r@) =~= numbers(done).push((i + 1) as nat));
                }
            },
        }
        i = i + 1;
    }
    assert(all.take(n as int) =~= all);
    r
}

fn find_gaps(found: &Vec<usize>, total: usize) -> (r: Vec<Span>)
    requires
        forall|i: int| 0 <= i < found@.len() ==> 1 <= #[trigger] found@[i] <= total,
    ensures
        spans_view(r@) == gaps(0, numbers(found@), total as nat),
        proper(spans_view(r@)),
{
    let ghost all = numbers(found@);
    let mut r: Vec<Span> = Vec::new();
    let mut after: usize = 0;
    let n = found.len();
    let mut i: usize = 0;
    assert(all.skip(0) =~= all);
    assert(spans_view(r@) + gaps(0, all, total as nat) =~= gaps(0, all, total as nat));
    while i < n
        invariant
            i <= n,
            n == found@.len(),
            all == numbers(found@),
            forall|k: int| 0 <= k < found@.len() ==> 1 <= #[trigger] found@[k] <= total,
            spans_view(r@) + gaps(after as nat, all.skip(i as int), total as nat) == gaps(
                0,
                all,
                total as nat,
            ),
            proper(spans_view(r@)),
        decreases n - i,
    {
        let ghost done = spans_view(r@);
        let ghost rest = all.skip(i as int);
        let next = found[i];
        proof {
            assert(rest[0] == next as nat);
            assert(rest.drop_first() =~= all.skip(i + 1));
        }
        if after < next - 1 {
            r.push((after + 1, next - 1));
            assert(spans_view(r@) =~= done.push(((after + 1) as nat, (next - 1) as nat)));
        }
        assert(spans_view(r@) + gaps(next as nat, all.skip(i + 1), total as nat) =~= done + gaps(
            after as nat,
            rest,
            total as nat,
        ));
        after = next;
        i = i + 1;
    }
    let ghost done = spans_view(r@);
    if after < total {
        r.push((after + 1, total));
        assert(spans_view(r@) =~= done.push(((after + 1) as nat, total as nat)));
    }
    assert(spans_view(r@) =~= done + gaps(after as nat, all.skip(n as int), total as nat));
    r
}

/// Folds a document to its headings; none where it has none.
pub fn summarize_markdown(content: &str) -> (r: Option<Outline>)
    ensures
        optional_outline(r) == document_outline(content@),
        r matches Some(o) ==> proper(o@.elided),
{
    let cs = chars_of(content);
    let lines = lines_chars(&cs);
    let found = find_headings(&lines);
    let total = lines.len();
    assert(runs(lines@).len() == total);
    let count = found.len();
    assert(numbers(found@).len() == count);
    if count == 0 {
        return None;
    }
    let elided = find_gaps(&found, total);
    Some(make_outline(content, elided, count))
}

/// A line of a document is either a heading or folded, and only one of the two.
pub proof fn law_headings_or_folded(lines: Seq<Seq<char>>, i: int)
    requires
        0 < i <= lines.len(),
    ensures
        covered(gaps(0, headings(lines), lines.len()), i) == !headings(lines).contains(i as nat),
{
    lemma_headings(lines);
    lemma_gaps(0, headings(lines), lines.len(), i);
}

/// The numbers of the headings rise, and none is after the last line.
proof fn lemma_headings(lines: Seq<Seq<char>>)
    ensures
        forall|i: int|
            0 <= i < headings(lines).len() ==> 1 <= #[trigger] headings(lines)[i] <= lines.len(),
        forall|i: int, j: int|
            0 <= i < j < headings(lines).len() ==> headings(lines)[i] < headings(lines)[j],
    decreases lines.len(),
{
    if lines.len() > 0 {
        let found = headings(lines.drop_last());
        lemma_headings(lines.drop_last());
        assert forall|i: int| 0 <= i < headings(lines).len() implies 1 <= #[trigger] headings(
            lines,
        )[i] <= lines.len() by {
            if i < found.len() {
                assert(headings(lines)[i] == found[i]);
            }
        }
        assert forall|i: int, j: int| 0 <= i < j < headings(lines).len() implies headings(lines)[i]
            < headings(lines)[j] by {
            assert(headings(lines)[i] == found[i]);
            if j < found.len() {
                assert(headings(lines)[j] == found[j]);
            }
        }
    }
}

proof fn lemma_covered_sum(a: Seq<(nat, nat)>, b: Seq<(nat, nat)>, line: int)
    ensures
        covered(a + b, line) == (covered(a, line) || covered(b, line)),
{
    let s = a + b;
    if covered(s, line) {
        let i = choose|i: int|
            0 <= i < s.len() && (#[trigger] s[i]).0 <= line <= s[i].1;
        if i < a.len() {
            assert(a[i] == s[i]);
        } else {
            assert(b[i - a.len()] == s[i]);
        }
    }
    if covered(a, line) {
        let i = choose|i: int|
            0 <= i < a.len() && (#[trigger] a[i]).0 <= line <= a[i].1;
        assert(s[i] == a[i]);
    }
    if covered(b, line) {
        let i = choose|i: int|
            0 <= i < b.len() && (#[trigger] b[i]).0 <= line <= b[i].1;
        assert(s[i + a.len()] == b[i]);
    }
}

proof fn lemma_gaps(after: nat, next: Seq<nat>, total: nat, i: int)
    requires
        forall|k: int| 0 <= k < next.len() ==> after < #[trigger] next[k] <= total,
        forall|k: int, j: int| 0 <= k < j < next.len() ==> next[k] < next[j],
        after <= total,
        0 <= i <= total,
    ensures
        covered(gaps(after, next, total), i) == (i > after && !next.contains(i as nat)),
    decreases next.len(),
{
    let before = if next.len() == 0 {
        total
    } else {
        (next[0] - 1) as nat
    };
    let gap = if after < before {
        seq![(after + 1, before)]
    } else {
        Seq::<(nat, nat)>::empty()
    };
    assert(covered(gap, i) == (after < i <= before)) by {
        if after < i <= before {
            assert(gap[0].0 <= i <= gap[0].1);
        }
    }
    if next.len() == 0 {
        assert(gaps(after, next, total) == gap);
        assert(!next.contains(i as nat));
    } else {
        let rest = next.drop_first();
        assert forall|k: int| 0 <= k < rest.len() implies next[0] < #[trigger] rest[k]
            <= total by {
            assert(rest[k] == next[k + 1]);
        }
        lemma_gaps(next[0], rest, total, i);
        lemma_covered_sum(gap, gaps(next[0], rest, total), i);
        if rest.contains(i as nat) {
            let k = choose|k: int| 0 <= k < rest.len() && rest[k] == i as nat;
            assert(next[k + 1] == i as nat);
        }
        if next.contains(i as nat) {
            let k = choose|k: int| 0 <= k < next.len() && next[k] == i as nat;
            if k > 0 {
                assert(rest[k - 1] == i as nat);
            }
        }
        assert(next.contains(next[0]));
        assert(gaps(after, next, total) == gap + gaps(next[0], rest, total));
    }
}

/// A line that is not folded stands in the outline, with its number.
pub proof fn law_unfolded_lines_show(content: Seq<char>, elided: Seq<(nat, nat)>, count: nat, i: int)
    requires
        0 <= i < text_lines(content).len(),
        !covered(elided, i + 1),
    ensures
        exists|at: int|
            #[trigger] occurs_at(
                outlined(content, elided, count).text,
                numbered_line(i, text_lines(content)[i]),
                at,
            ),
{
    let lines = text_lines(content);
    let folded = folded_lines(elided, lines.len());
    assert(!folded[i]);
    lemma_unfolded_lines_show(lines, folded, 0, i);
    let text = rendered(lines, folded, 0);
    let at = choose|at: int| #[trigger] occurs_at(text, numbered_line(i, lines[i]), at);
    assert(occurs_at(outlined(content, elided, count).text, numbered_line(i, lines[i]), at));
}

proof fn lemma_unfolded_lines_show(lines: Seq<Seq<char>>, folded: Seq<bool>, from: int, i: int)
    requires
        folded.len() == lines.len(),
        0 <= from <= i < lines.len(),
        !folded[i],
    ensures
        exists|at: int|
            #[trigger] occurs_at(rendered(lines, folded, from), numbered_line(i, lines[i]), at),
    decreases i - from,
{
    let line = numbered_line(i, lines[i]);
    let all = rendered(lines, folded, from);
    let (head, next) = if folded[from] {
        (elision(from, run_end(folded, from)), run_end(folded, from))
    } else {
        (numbered_line(from, lines[from]), from + 1)
    };
    lemma_run_end(folded, from);
    assert(next > from);
    assert(all == head + rendered(lines, folded, next));
    if from == i {
        assert(all.subrange(0, line.len() as int) =~= line);
        assert(occurs_at(all, line, 0));
    } else {
        lemma_run_stops(folded, from, i);
        lemma_unfolded_lines_show(lines, folded, next, i);
        let rest = rendered(lines, folded, next);
        let at = choose|at: int| #[trigger] occurs_at(rest, line, at);
        let k = head.len() + at;
        assert(all.subrange(k, k + line.len()) =~= rest.subrange(at, at + line.len()));
        assert(occurs_at(all, line, k));
    }
}

/// A run of folded lines ends before a line that is not folded.
proof fn lemma_run_stops(folded: Seq<bool>, from: int, i: int)
    requires
        0 <= from <= i < folded.len(),
        !folded[i],
    ensures
        run_end(folded, from) <= i,
    decreases i - from,
{
    if folded[from] {
        lemma_run_stops(folded, from + 1, i);
    }
}

/// A run of folded lines, from line `from` to line `to`, is noted in the outline: how many lines
/// they are, and which.
pub proof fn law_folded_lines_are_noted(
    content: Seq<char>,
    elided: Seq<(nat, nat)>,
    count: nat,
    from: int,
    to: int,
)
    requires
        1 <= from <= to <= text_lines(content).len(),
        forall|n: int| from <= n <= to ==> #[trigger] covered(elided, n),
        from > 1 ==> !covered(elided, from - 1),
        to < text_lines(content).len() ==> !covered(elided, to + 1),
    ensures
        exists|at: int|
            #[trigger] occurs_at(
                outlined(content, elided, count).text,
                "    … "@ + decimal((to - from + 1) as nat) + " ln elided ("@ + decimal(
                    from as nat,
                ) + "-"@ + decimal(to as nat) + ")\n"@,
                at,
            ),
{
    let lines = text_lines(content);
    let folded = folded_lines(elided, lines.len());
    assert forall|k: int| from - 1 <= k < to implies #[trigger] folded[k] by {
        assert(covered(elided, k + 1));
    }
    lemma_run_is(folded, from - 1, to);
    lemma_run_noted(lines, folded, 0, from - 1, to);
    let text = rendered(lines, folded, 0);
    let note = elision(from - 1, to);
    assert((to - (from - 1)) as nat == (to - from + 1) as nat);
    assert(note == "    … "@ + decimal((to - from + 1) as nat) + " ln elided ("@ + decimal(
        from as nat,
    ) + "-"@ + decimal(to as nat) + ")\n"@);
    let at = choose|at: int| #[trigger] occurs_at(text, note, at);
    assert(occurs_at(outlined(content, elided, count).text, note, at));
}

proof fn lemma_run_is(folded: Seq<bool>, i: int, e: int)
    requires
        0 <= i <= e <= folded.len(),
        forall|k: int| i <= k < e ==> #[trigger] folded[k],
        e < folded.len() ==> !folded[e],
    ensures
        run_end(folded, i) == e,
    decreases e - i,
{
    if i < e {
        assert(folded[i]);
        lemma_run_is(folded, i + 1, e);
    }
}

proof fn lemma_run_noted(lines: Seq<Seq<char>>, folded: Seq<bool>, at: int, i: int, e: int)
    requires
        folded.len() == lines.len(),
        0 <= at <= i < e <= lines.len(),
        folded[i],
        i > 0 ==> !folded[i - 1],
        run_end(folded, i) == e,
    ensures
        exists|k: int| #[trigger] occurs_at(rendered(lines, folded, at), elision(i, e), k),
    decreases i - at,
{
    let note = elision(i, e);
    let all = rendered(lines, folded, at);
    let (head, next) = if folded[at] {
        (elision(at, run_end(folded, at)), run_end(folded, at))
    } else {
        (numbered_line(at, lines[at]), at + 1)
    };
    lemma_run_end(folded, at);
    assert(all == head + rendered(lines, folded, next));
    if at == i {
        assert(all.subrange(0, note.len() as int) =~= note);
        assert(occurs_at(all, note, 0));
    } else {
        lemma_run_stops(folded, at, i - 1);
        lemma_run_noted(lines, folded, next, i, e);
        let rest = rendered(lines, folded, next);
        let k = choose|k: int| #[trigger] occurs_at(rest, note, k);
        let m = head.len() + k;
        assert(all.subrange(m, m + note.len()) =~= rest.subrange(k, k + note.len()));
        assert(occurs_at(all, note, m));
    }
}

/// The lines that are folded are counted over all spans, both ends of each included.
pub proof fn law_folded_lines_add_up(spans: Seq<(nat, nat)>, from: nat, to: nat)
    ensures
        lines_elided(Seq::empty()) == 0,
        lines_elided(spans.push((from, to))) == lines_elided(spans) + to - from + 1,
{
    assert(spans.push((from, to)).drop_last() =~= spans);
}

/// A heading is a line of one to six hashes and a space; with more hashes, or without the space,
/// it is none.
pub proof fn law_headings(n: nat, rest: Seq<char>)
    ensures
        ({
            let marks = Seq::new(n, |i: int| '#');
            &&& 1 <= n <= 6 ==> is_heading(marks + seq![' '] + rest)
            &&& n > 6 ==> !is_heading(marks + seq![' '] + rest)
            &&& rest.len() > 0 && rest[0] != '#' && rest[0] != ' ' && n > 0 ==> !is_heading(
                marks + rest,
            )
        }),
{
    let marks = Seq::new(n, |i: int| '#');
    if n > 0 {
        let s = marks + seq![' '] + rest;
        assert(s =~= marks + (seq![' '] + rest));
        lemma_hashes(n, seq![' '] + rest);
        assert(trim_start(s) == s);
        assert(s[n as int] == ' ');
        if rest.len() > 0 && rest[0] != '#' {
            let t = marks + rest;
            lemma_hashes(n, rest);
            assert(trim_start(t) == t);
            assert(t[n as int] == rest[0]);
        }
    }
}

proof fn lemma_hashes(n: nat, rest: Seq<char>)
    requires
        rest.len() > 0 ==> rest[0] != '#',
    ensures
        hashes(Seq::new(n, |i: int| '#') + rest) == n,
    decreases n,
{
    let marks = Seq::new(n, |i: int| '#');
    let s = marks + rest;
    if n == 0 {
        assert(s =~= rest);
    } else {
        let fewer = Seq::new((n - 1) as nat, |i: int| '#');
        assert(s.drop_first() =~= fewer + rest);
        lemma_hashes((n - 1) as nat, rest);
    }
}

/// A line of a document counts as a heading exactly where it looks like one and stands in no
/// fenced block.
pub proof fn law_which_lines_are_headings(lines: Seq<Seq<char>>, n: nat)
    requires
        1 <= n <= lines.len(),
    ensures
        headings(lines).contains(n) <==> is_heading(lines[n - 1]) && fence_of(lines[n - 1]) is None
            && open_fence(lines.take(n - 1)) is None,
    decreases lines.len(),
{
    let d = lines.drop_last();
    let all = headings(lines);
    let found = headings(d);
    lemma_headings(d);
    if n < lines.len() {
        law_which_lines_are_headings(d, n);
        assert(d[n - 1] == lines[n - 1]);
        assert(d.take(n - 1) =~= lines.take(n - 1));
        if found.contains(n) {
            let k = choose|k: int| 0 <= k < found.len() && found[k] == n;
            assert(all[k] == n);
        }
        if all.contains(n) {
            let k = choose|k: int| 0 <= k < all.len() && all[k] == n;
            if k < found.len() {
                assert(found[k] == n);
            }
        }
    } else {
        assert(lines.take(n - 1) =~= d);
        if all.contains(n) {
            let k = choose|k: int| 0 <= k < all.len() && all[k] == n;
            if k < found.len() {
                assert(found[k] <= d.len());
            }
        }
        if all.len() > found.len() {
            assert(all[found.len() as int] == n);
        }
    }
}

/// A fence opens a block, and a fence of the same sort closes it; lines without a fence, and
/// fences of the other sort, leave it open.
pub proof fn law_fences(lines: Seq<Seq<char>>, line: Seq<char>)
    ensures
        open_fence(Seq::empty()) is None,
        fence_of(line) is None ==> open_fence(lines.push(line)) == open_fence(lines),
        open_fence(lines) is None ==> open_fence(lines.push(line)) == fence_of(line),
        open_fence(lines) is Some && fence_of(line) == open_fence(lines) ==> open_fence(
            lines.push(line),
        ) is None,
        open_fence(lines) is Some && fence_of(line) != open_fence(lines) ==> open_fence(
            lines.push(line),
        ) == open_fence(lines),
{
    assert(lines.push(line).drop_last() =~= lines);
}

/// Of a definition the first line stays, and the rest is folded, up to its last line or the end of
/// the file; one of a single line has nothing to fold. Lines are counted from 0 in the definition
/// and from 1 in what is folded.
pub proof fn law_body_of_a_definition(first: nat, last: nat, total: nat)
    requires
        first <= last < total,
    ensures
        first == last ==> body_span((first, last), total) is None,
        first < last ==> body_span((first, last), total) == Some((first + 2, last + 1)),
{
}

proof fn lemma_span_in_order(v: Seq<(nat, nat)>, s: (nat, nat))
    requires
        forall|i: int, j: int| 0 <= i < j < v.len() ==> (#[trigger] v[i]).0 <= (#[trigger] v[j]).0,
    ensures
        forall|i: int, j: int|
            0 <= i < j < with_span(v, s).len() ==> (#[trigger] with_span(v, s)[i]).0 <= (
            #[trigger] with_span(v, s)[j]).0,
        with_span(v, s).to_multiset() == v.to_multiset().insert(s),
        forall|i: int|
            0 <= i < with_span(v, s).len() ==> (#[trigger] with_span(v, s)[i]).0 <= s.0 || (
            v.len() > 0 && with_span(v, s)[i].0 <= v.last().0),
    decreases v.len(),
{
    broadcast use vstd::seq_lib::group_to_multiset_ensures;

    if v.len() == 0 || v.last().0 <= s.0 {
        assert forall|i: int, j: int| 0 <= i < j < v.push(s).len() implies (
        #[trigger] v.push(s)[i]).0 <= (#[trigger] v.push(s)[j]).0 by {
            if v.len() > 0 {
                assert(v[v.len() - 1] == v.last());
            }
        }
    } else {
        let d = v.drop_last();
        assert forall|i: int, j: int| 0 <= i < j < d.len() implies (#[trigger] d[i]).0 <= (
        #[trigger] d[j]).0 by {
            assert(d[i] == v[i] && d[j] == v[j]);
        }
        lemma_span_in_order(d, s);
        let w = with_span(d, s);
        assert(v =~= d.push(v.last()));
        if d.len() > 0 {
            assert(d.last() == v[d.len() - 1]);
            assert(v[d.len() - 1].0 <= v[v.len() - 1].0);
        }
        assert(with_span(v, s) == w.push(v.last()));
        assert(w.push(v.last()).to_multiset() =~= v.to_multiset().insert(s));
    }
}

/// Definitions are put in the order of their first lines, and none is added or lost.
pub proof fn law_definitions_in_order(v: Seq<(nat, nat)>)
    ensures
        forall|i: int, j: int|
            0 <= i < j < by_start(v).len() ==> (#[trigger] by_start(v)[i]).0 <= (
            #[trigger] by_start(v)[j]).0,
        by_start(v).to_multiset() == v.to_multiset(),
    decreases v.len(),
{
    broadcast use vstd::seq_lib::group_to_multiset_ensures;

    if v.len() > 0 {
        law_definitions_in_order(v.drop_last());
        lemma_span_in_order(by_start(v.drop_last()), v.last());
        assert(v =~= v.drop_last().push(v.last()));
    }
}

/// Of equal definitions in a row one is kept.
pub proof fn law_repeats_go(v: Seq<(nat, nat)>, s: (nat, nat))
    ensures
        v.len() > 0 && v.last() == s ==> no_repeats(v.push(s)) == no_repeats(v),
        v.len() == 0 || v.last() != s ==> no_repeats(v.push(s)) == no_repeats(v).push(s),
{
    assert(v.push(s).drop_last() =~= v);
    lemma_no_repeats_ends(v);
}

proof fn lemma_no_repeats_ends(v: Seq<(nat, nat)>)
    ensures
        (no_repeats(v).len() > 0) == (v.len() > 0),
        v.len() > 0 ==> no_repeats(v).last() == v.last(),
    decreases v.len(),
{
    if v.len() > 0 {
        lemma_no_repeats_ends(v.drop_last());
    }
}

/// A definition inside another of its sort is not taken by itself; the next one at the depth of
/// the outer one, or above it, is.
pub proof fn law_outermost_definitions(nodes: Seq<NodeView>, n: NodeView, kind: Seq<char>)
    ensures
        ({
            let (spans, inside) = outermost(nodes, kind);
            let (now, inside_now) = outermost(nodes.push(n), kind);
            &&& inside matches Some(d) ==> (n.depth > d ==> now == spans && inside_now == inside)
            &&& (inside is None || n.depth <= inside->0) && n.kind == kind ==> now == spans.push(
                (n.start, n.end),
            ) && inside_now == Some(n.depth)
            &&& (inside is None || n.depth <= inside->0) && n.kind != kind ==> now == spans
                && inside_now is None
        }),
{
    assert(nodes.push(n).drop_last() =~= nodes);
}

/// A file is outlined exactly where it has definitions, and the outline tells how many.
pub proof fn law_outline_of_definitions(
    content: Seq<char>,
    nodes: Seq<NodeView>,
    kinds: Seq<Seq<char>>,
)
    ensures
        ({
            let spans = no_repeats(by_start(definition_spans(nodes, kinds)));
            let o = definitions_folded(content, nodes, kinds);
            &&& o is None <==> definition_spans(nodes, kinds).len() == 0
            &&& o matches Some(v) ==> v.count == spans.len() && v.elided == spans.filter_map(
                |s: (nat, nat)| body_span(s, text_lines(content).len()),
            )
        }),
{
    broadcast use vstd::seq_lib::group_to_multiset_ensures;

    let all = definition_spans(nodes, kinds);
    law_definitions_in_order(all);
    lemma_no_repeats_ends(by_start(all));
    assert(by_start(all).to_multiset().len() == all.to_multiset().len());
}

/// A document is outlined exactly where it has headings, and the outline tells how many.
pub proof fn law_outline_of_a_document(content: Seq<char>)
    ensures
        document_outline(content) is Some <==> headings(text_lines(content)).len() > 0,
        document_outline(content) matches Some(o) ==> o.count == headings(
            text_lines(content),
        ).len(),
{
}

/// A source file that can be folded is taken for the same language as in a structural search, and
/// that language has definitions to fold.
pub proof fn law_folded_languages(ext: Seq<char>)
    ensures
        summary_language(ext) != ""@ && ext != "hh"@ ==> summary_language(ext) == language_of(ext),
        summary_language(ext) != ""@ ==> definition_kinds(summary_language(ext)).len() >= 2,
{
}

/// The nodes that count as definitions, language by language.
pub proof fn law_kinds_of_definitions()
    ensures
        definition_kinds("c"@).contains("function_definition"@),
        definition_kinds("c"@).contains("struct_specifier"@),
        definition_kinds("cpp"@).contains("function_definition"@),
        definition_kinds("cpp"@).contains("struct_specifier"@),
        definition_kinds("cpp"@).contains("class_specifier"@),
        definition_kinds("rust"@).contains("function_item"@),
        definition_kinds("rust"@).contains("struct_item"@),
        definition_kinds("rust"@).contains("enum_item"@),
        definition_kinds("rust"@).contains("trait_item"@),
        definition_kinds("rust"@).contains("impl_item"@),
        definition_kinds("go"@).contains("function_declaration"@),
        definition_kinds("go"@).contains("method_declaration"@),
        definition_kinds("go"@).contains("type_declaration"@),
        definition_kinds("python"@).contains("function_definition"@),
        definition_kinds("python"@).contains("class_definition"@),
        definition_kinds("typescript"@).contains("function_declaration"@),
        definition_kinds("typescript"@).contains("method_definition"@),
        definition_kinds("typescript"@).contains("class_declaration"@),
        definition_kinds("typescript"@).contains("interface_declaration"@),
        definition_kinds("javascript"@).contains("function_declaration"@),
        definition_kinds("javascript"@).contains("method_definition"@),
        definition_kinds("javascript"@).contains("class_declaration"@),
        definition_kinds("java"@).contains("method_declaration"@),
        definition_kinds("java"@).contains("class_declaration"@),
        definition_kinds("java"@).contains("interface_declaration"@),
{
    reveal_strlit("c");
    reveal_strlit("cpp");
    reveal_strlit("rust");
    reveal_strlit("go");
    reveal_strlit("python");
    reveal_strlit("typescript");
    reveal_strlit("javascript");
    reveal_strlit("java");
    assert("c"@.len() == 1);
    assert("cpp"@.len() == 3);
    assert("rust"@.len() == 4);
    assert("go"@.len() == 2);
    assert("python"@.len() == 6);
    assert("typescript"@.len() == 10);
    assert("javascript"@.len() == 10);
    assert("java"@.len() == 4);
    assert("rust"@[0] != "java"@[0]);
    assert("typescript"@[0] != "javascript"@[0]);
    assert(definition_kinds("c"@)[0] == "function_definition"@);
    assert(definition_kinds("c"@)[1] == "struct_specifier"@);
    assert(definition_kinds("cpp"@)[0] == "function_definition"@);
    assert(definition_kinds("cpp"@)[1] == "struct_specifier"@);
    assert(definition_kinds("cpp"@)[2] == "class_specifier"@);
    assert(definition_kinds("rust"@)[0] == "function_item"@);
    assert(definition_kinds("rust"@)[1] == "struct_item"@);
    assert(definition_kinds("rust"@)[2] == "enum_item"@);
    assert(definition_kinds("rust"@)[3] == "trait_item"@);
    assert(definition_kinds("rust"@)[4] == "impl_item"@);
    assert(definition_kinds("go"@)[0] == "function_declaration"@);
    assert(definition_kinds("go"@)[1] == "method_declaration"@);
    assert(definition_kinds("go"@)[2] == "type_declaration"@);
    assert(definition_kinds("python"@)[0] == "function_definition"@);
    assert(definition_kinds("python"@)[1] == "class_definition"@);
    assert(definition_kinds("typescript"@)[0] == "function_declaration"@);
    assert(definition_kinds("typescript"@)[1] == "method_definition"@);
    assert(definition_kinds("typescript"@)[2] == "class_declaration"@);
    assert(definition_kinds("typescript"@)[3] == "interface_declaration"@);
    assert(definition_kinds("javascript"@)[0] == "function_declaration"@);
    assert(definition_kinds("javascript"@)[1] == "method_definition"@);
    assert(definition_kinds("javascript"@)[2] == "class_declaration"@);
    assert(definition_kinds("java"@)[0] == "method_declaration"@);
    assert(definition_kinds("java"@)[1] == "class_declaration"@);
    assert(definition_kinds("java"@)[2] == "interface_declaration"@);
}

/// The extensions of the languages that can be folded, for folding and for a structural search
/// alike; a file with any other extension is not folded.
pub proof fn law_extensions(ext: Seq<char>)
    ensures
        summary_language("rs"@) == "rust"@,
        language_of("rs"@) == "rust"@,
        summary_language("ts"@) == "typescript"@,
        language_of("ts"@) == "typescript"@,
        summary_language("tsx"@) == "typescript"@,
        language_of("tsx"@) == "typescript"@,
        summary_language("js"@) == "javascript"@,
        language_of("js"@) == "javascript"@,
        summary_language("jsx"@) == "javascript"@,
        language_of("jsx"@) == "javascript"@,
        summary_language("mjs"@) == "javascript"@,
        language_of("mjs"@) == "javascript"@,
        summary_language("cjs"@) == "javascript"@,
        language_of("cjs"@) == "javascript"@,
        summary_language("py"@) == "python"@,
        language_of("py"@) == "python"@,
        summary_language("go"@) == "go"@,
        language_of("go"@) == "go"@,
        summary_language("java"@) == "java"@,
        language_of("java"@) == "java"@,
        summary_language("c"@) == "c"@,
        language_of("c"@) == "c"@,
        summary_language("h"@) == "c"@,
        language_of("h"@) == "c"@,
        summary_language("cpp"@) == "cpp"@,
        language_of("cpp"@) == "cpp"@,
        summary_language("cc"@) == "cpp"@,
        language_of("cc"@) == "cpp"@,
        summary_language("cxx"@) == "cpp"@,
        language_of("cxx"@) == "cpp"@,
        summary_language("hpp"@) == "cpp"@,
        language_of("hpp"@) == "cpp"@,
        summary_language("hh"@) == "cpp"@,
        ext != "rs"@ && ext != "ts"@ && ext != "tsx"@ && ext != "js"@ && ext != "jsx"@ && ext != "mjs"@ && ext != "cjs"@ && ext != "py"@ && ext != "go"@ && ext != "java"@ && ext != "c"@ && ext != "h"@ && ext != "cpp"@ && ext != "cc"@ && ext != "cxx"@ && ext != "hpp"@ && ext != "hh"@ ==> summary_language(ext)
            == ""@,
{
    reveal_strlit("rs");
    reveal_strlit("ts");
    reveal_strlit("tsx");
    reveal_strlit("js");
    reveal_strlit("jsx");
    reveal_strlit("mjs");
    reveal_strlit("cjs");
    reveal_strlit("py");
    reveal_strlit("go");
    reveal_strlit("java");
    reveal_strlit("c");
    reveal_strlit("h");
    reveal_strlit("cpp");
    reveal_strlit("cc");
    reveal_strlit("cxx");
    reveal_strlit("hpp");
    reveal_strlit("hh");
    assert("rs"@.len() == 2);
    assert("ts"@.len() == 2);
    assert("tsx"@.len() == 3);
    assert("js"@.len() == 2);
    assert("jsx"@.len() == 3);
    assert("mjs"@.len() == 3);
    assert("cjs"@.len() == 3);
    assert("py"@.len() == 2);
    assert("go"@.len() == 2);
    assert("java"@.len() == 4);
    assert("c"@.len() == 1);
    assert("h"@.len() == 1);
    assert("cpp"@.len() == 3);
    assert("cc"@.len() == 2);
    assert("cxx"@.len() == 3);
    assert("hpp"@.len() == 3);
    assert("hh"@.len() == 2);
    assert("rs"@[0] != "ts"@[0]);
    assert("rs"@[0] != "js"@[0]);
    assert("rs"@[0] != "py"@[0]);
    assert("rs"@[0] != "go"@[0]);
    assert("rs"@[0] != "cc"@[0]);
    assert("rs"@[0] != "hh"@[0]);
    assert("ts"@[0] != "js"@[0]);
    assert("ts"@[0] != "py"@[0]);
    assert("ts"@[0] != "go"@[0]);
    assert("ts"@[0] != "cc"@[0]);
    assert("ts"@[0] != "hh"@[0]);
    assert("tsx"@[0] != "jsx"@[0]);
    assert("tsx"@[0] != "mjs"@[0]);
    assert("tsx"@[0] != "cjs"@[0]);
    assert("tsx"@[0] != "cpp"@[0]);
    assert("tsx"@[0] != "cxx"@[0]);
    assert("tsx"@[0] != "hpp"@[0]);
    assert("js"@[0] != "py"@[0]);
    assert("js"@[0] != "go"@[0]);
    assert("js"@[0] != "cc"@[0]);
    assert("js"@[0] != "hh"@[0]);
    assert("jsx"@[0] != "mjs"@[0]);
    assert("jsx"@[0] != "cjs"@[0]);
    assert("jsx"@[0] != "cpp"@[0]);
    assert("jsx"@[0] != "cxx"@[0]);
    assert("jsx"@[0] != "hpp"@[0]);
    assert("mjs"@[0] != "cjs"@[0]);
    assert("mjs"@[0] != "cpp"@[0]);
    assert("mjs"@[0] != "cxx"@[0]);
    assert("mjs"@[0] != "hpp"@[0]);
    assert("cjs"@[1] != "cpp"@[1]);
    assert("cjs"@[1] != "cxx"@[1]);
    assert("cjs"@[0] != "hpp"@[0]);
    assert("py"@[0] != "go"@[0]);
    assert("py"@[0] != "cc"@[0]);
    assert("py"@[0] != "hh"@[0]);
    assert("go"@[0] != "cc"@[0]);
    assert("go"@[0] != "hh"@[0]);
    assert("c"@[0] != "h"@[0]);
    assert("cpp"@[1] != "cxx"@[1]);
    assert("cpp"@[0] != "hpp"@[0]);
    assert("cc"@[0] != "hh"@[0]);
    assert("cxx"@[0] != "hpp"@[0]);
}

/// The note below an outline names its first folded parts, two at most, by their first and last
/// lines; without a folded part there is no note.
pub proof fn law_note_below(path: Seq<char>, elided: Seq<(nat, nat)>, unit: Seq<char>)
    ensures
        elided.len() == 0 ==> footer(path, elided, unit).len() == 0,
        elided.len() == 1 ==> sample_ranges(elided) == seq![
            decimal(elided[0].0) + "-"@ + decimal(elided[0].1),
        ],
        elided.len() >= 2 ==> sample_ranges(elided) == seq![
            decimal(elided[0].0) + "-"@ + decimal(elided[0].1),
            decimal(elided[1].0) + "-"@ + decimal(elided[1].1),
        ],
{
    if elided.len() == 1 {
        assert(sample_ranges(elided) =~= seq![
            decimal(elided[0].0) + "-"@ + decimal(elided[0].1),
        ]);
    }
    if elided.len() >= 2 {
        assert(sample_ranges(elided) =~= seq![
            decimal(elided[0].0) + "-"@ + decimal(elided[0].1),
            decimal(elided[1].0) + "-"@ + decimal(elided[1].1),
        ]);
    }
}

} // verus!
