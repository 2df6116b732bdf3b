//! Syntax trees, by way of `ast-grep`.
use vstd::prelude::*;

use ast_grep_core::Pattern;
use ast_grep_language::LanguageExt;
use ast_grep_language::SupportLang;

verus! {

/// A node of a syntax tree.
#[derive(Debug)]
pub struct SyntaxNode {
    /// How many nodes it stands in.
    pub depth: usize,
    /// Its kind.
    pub kind: String,
    /// The line on which it starts, from 0.
    pub start: usize,
    /// The line on which it ends, from 0.
    pub end: usize,
}

/// The model of a `SyntaxNode`.
pub struct NodeView {
    /// How many nodes it stands in.
    pub depth: nat,
    /// Its kind.
    pub kind: Seq<char>,
    /// The line on which it starts, from 0.
    pub start: nat,
    /// The line on which it ends, from 0.
    pub end: nat,
}

impl View for SyntaxNode {
    type V = NodeView;

    open spec fn view(&self) -> NodeView {
        NodeView {
            depth: self.depth as nat,
            kind: self.kind@,
            start: self.start as nat,
            end: self.end as nat,
        }
    }
}

/// The models of nodes.
pub open spec fn nodes_view(v: Seq<SyntaxNode>) -> Seq<NodeView> {
    v.map_values(|n: SyntaxNode| n@)
}

/// A place where a pattern matches.
#[derive(Debug)]
pub struct SyntaxMatch {
    /// The text.
    pub text: String,
    /// The line on which it starts, from 0.
    pub start_line: usize,
    /// The byte of that line at which it starts, from 0.
    pub start_column: usize,
    /// The line on which it ends, from 0.
    pub end_line: usize,
    /// The byte of that line at which it ends, from 0.
    pub end_column: usize,
}

/// The model of a `SyntaxMatch`.
pub struct MatchView {
    /// The text.
    pub text: Seq<char>,
    /// The line on which it starts, from 0.
    pub start_line: nat,
    /// The byte of that line at which it starts, from 0.
    pub start_column: nat,
    /// The line on which it ends, from 0.
    pub end_line: nat,
    /// The byte of that line at which it ends, from 0.
    pub end_column: nat,
}

impl View for SyntaxMatch {
    type V = MatchView;

    open spec fn view(&self) -> MatchView {
        MatchView {
            text: self.text@,
            start_line: self.start_line as nat,
            start_column: self.start_column as nat,
            end_line: self.end_line as nat,
            end_column: self.end_column as nat,
        }
    }
}

/// The models of matches.
pub open spec fn matches_view(v: Seq<SyntaxMatch>) -> Seq<MatchView> {
    v.map_values(|m: SyntaxMatch| m@)
}

/// A change to a text, in bytes.
#[derive(Debug)]
pub struct SyntaxEdit {
    /// Where it starts.
    pub position: usize,
    /// How many bytes it takes away.
    pub deleted: usize,
    /// What it puts there.
    pub inserted: Vec<u8>,
}

/// The model of a `SyntaxEdit`.
pub struct EditView {
    /// Where it starts.
    pub position: nat,
    /// How many bytes it takes away.
    pub deleted: nat,
    /// What it puts there.
    pub inserted: Seq<u8>,
}

impl View for SyntaxEdit {
    type V = EditView;

    open spec fn view(&self) -> EditView {
        EditView {
            position: self.position as nat,
            deleted: self.deleted as nat,
            inserted: self.inserted@,
        }
    }
}

/// The models of changes.
pub open spec fn edits_view(v: Seq<SyntaxEdit>) -> Seq<EditView> {
    v.map_values(|e: SyntaxEdit| e@)
}

/// Why a text cannot be searched.
#[derive(Debug)]
pub enum SyntaxFault {
    /// The language is not known.
    Language,
    /// The pattern is no pattern of the language; the message says why.
    Pattern(String),
}

/// The model of a `SyntaxFault`.
pub enum FaultView {
    /// The language is not known.
    Language,
    /// The pattern is no pattern of the language.
    Pattern(Seq<char>),
}

impl View for SyntaxFault {
    type V = FaultView;

    open spec fn view(&self) -> FaultView {
        match *self {
            SyntaxFault::Language => FaultView::Language,
            SyntaxFault::Pattern(m) => FaultView::Pattern(m@),
        }
    }
}

/// The nodes of the syntax tree of a text, each before those in it; none where the language
/// is not known.
pub uninterp spec fn syntax_nodes(lang: Seq<char>, content: Seq<char>) -> Option<Seq<NodeView>>;

/// The places of a text where a pattern matches.
pub uninterp spec fn syntax_matches(
    lang: Seq<char>,
    content: Seq<char>,
    pattern: Seq<char>,
) -> Result<Seq<MatchView>, FaultView>;

/// The changes that replace what a pattern matches.
pub uninterp spec fn syntax_edits(
    lang: Seq<char>,
    content: Seq<char>,
    pattern: Seq<char>,
    replacement: Seq<char>,
) -> Result<Seq<EditView>, FaultView>;

/// There is a grammar for the language.
pub uninterp spec fn grammar_known(lang: Seq<char>) -> bool;

/// `SupportLang::from_str`: whether it knows the language.
#[verifier::external_body]
pub(crate) fn knows_language(lang: &str) -> (r: bool)
    ensures
        r == grammar_known(lang@),
{
    lang.parse::<SupportLang>().is_ok()
}

/// `SupportLang::from_str`, `LanguageExt::ast_grep` and `Node::dfs`: the nodes of the tree in
/// the order in which `dfs` gives them, each with its kind, its first and last line and the
/// number of its ancestors.
#[verifier::external_body]
pub(crate) fn parse_nodes(lang: &str, content: &str) -> (r: Option<Vec<SyntaxNode>>)
    ensures
        (match r {
            Some(v) => Some(nodes_view(v@)),
            None => None,
        }) == syntax_nodes(lang@, content@),
{
    let lang: SupportLang = lang.parse().ok()?;
    let grep = lang.ast_grep(content);
    let root = grep.root();
    let nodes = root.dfs().map(|n| SyntaxNode {
        depth: n.ancestors().count(),
        kind: n.kind().to_string(),
        start: n.start_pos().byte_point().0,
        end: n.end_pos().byte_point().0,
    });
    Some(nodes.collect())
}

/// `Node::find_all` with a pattern that `Pattern::try_new` takes: each match with its text and
/// its place.
#[verifier::external_body]
pub(crate) fn find_matches(lang: &str, content: &str, pattern: &str) -> (r: Result<
    Vec<SyntaxMatch>,
    SyntaxFault,
>)
    ensures
        (match r {
            Ok(v) => Ok(matches_view(v@)),
            Err(e) => Err(e@),
        }) == syntax_matches(lang@, content@, pattern@),
{
    let lang: SupportLang = lang.parse().map_err(|_| SyntaxFault::Language)?;
    Pattern::try_new(pattern, lang).map_err(|e| SyntaxFault::Pattern(e.to_string()))?;
    let grep = lang.ast_grep(content);
    let root = grep.root();
    let found = root.find_all(pattern).map(|n| SyntaxMatch {
        text: n.text().to_string(),
        start_line: n.start_pos().byte_point().0,
        start_column: n.start_pos().byte_point().1,
        end_line: n.end_pos().byte_point().0,
        end_column: n.end_pos().byte_point().1,
    });
    Ok(found.collect())
}

/// `Node::replace_all` with a pattern that `Pattern::try_new` takes: each change with its
/// place, its length and the bytes that it puts there.
#[verifier::external_body]
pub(crate) fn find_edits(lang: &str, content: &str, pattern: &str, replacement: &str) -> (r: Result<
    Vec<SyntaxEdit>,
    SyntaxFault,
>)
    ensures
        (match r {
            Ok(v) => Ok(edits_view(v@)),
            Err(e) => Err(e@),
        }) == syntax_edits(lang@, content@, pattern@, replacement@),
{
    let lang: SupportLang = lang.parse().map_err(|_| SyntaxFault::Language)?;
    Pattern::try_new(pattern, lang).map_err(|e| SyntaxFault::Pattern(e.to_string()))?;
    let grep = lang.ast_grep(content);
    let root = grep.root();
    let edits = root.replace_all(pattern, replacement).into_iter().map(|e| SyntaxEdit {
        position: e.position,
        deleted: e.deleted_length,
        inserted: e.inserted_text,
    });
    Ok(edits.collect())
}

} // verus!
