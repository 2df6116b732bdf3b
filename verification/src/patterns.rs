//! Regular expressions and globs, by way of `regex` and `globset`.
use vstd::prelude::*;

verus! {

/// `regex::Regex`, carried as it is.
#[verifier::external_type_specification]
#[verifier::external_body]
pub struct ExRegex(regex::Regex);

/// `globset::GlobSet`, carried as it is.
#[verifier::external_type_specification]
#[verifier::external_body]
pub struct ExGlobSet(globset::GlobSet);

/// What is wrong with a pattern, where `regex::Regex::new` refuses it.
pub uninterp spec fn regex_fault(pattern: Seq<char>) -> Option<Seq<char>>;

/// The pattern that a regular expression was made of.
pub uninterp spec fn regex_source(re: regex::Regex) -> Seq<char>;

/// The regular expression made of this pattern matches somewhere in the text.
pub uninterp spec fn regex_matches(pattern: Seq<char>, text: Seq<char>) -> bool;

/// What is wrong with a glob, where `globset` refuses it. A backslash escapes the character
/// that follows it.
pub uninterp spec fn glob_fault(pattern: Seq<char>) -> Option<Seq<char>>;

/// The pattern that a glob was made of, and whether a backslash escapes in it.
pub uninterp spec fn glob_source(g: globset::GlobSet) -> (Seq<char>, bool);

/// The glob made of this pattern matches the path. A backslash escapes the character that
/// follows it.
pub uninterp spec fn glob_matches(pattern: Seq<char>, path: Seq<char>) -> bool;

/// The characters that mean something in a regular expression.
pub open spec fn is_meta(c: char) -> bool {
    c == '\\' || c == '.' || c == '+' || c == '*' || c == '?' || c == '(' || c == ')' || c == '|'
        || c == '[' || c == ']' || c == '{' || c == '}' || c == '^' || c == '$' || c == '#' || c
        == '&' || c == '-' || c == '~'
}

/// A text with a backslash before each character that means something in a regular
/// expression.
pub open spec fn escaped(s: Seq<char>) -> Seq<char>
    decreases s.len(),
{
    if s.len() == 0 {
        s
    } else if is_meta(s.last()) {
        escaped(s.drop_last()).push('\\').push(s.last())
    } else {
        escaped(s.drop_last()).push(s.last())
    }
}

/// `regex::escape`: a backslash before each meta character.
#[verifier::external_body]
pub(crate) fn escape(s: &str) -> (r: String)
    ensures
        r@ == escaped(s@),
{
    regex::escape(s)
}

/// `regex::Regex::new`: whether a pattern is taken, and what is wrong with it where it is
/// not, depends on the pattern alone.
#[verifier::external_body]
pub(crate) fn compile_regex(pattern: &str) -> (r: Result<regex::Regex, String>)
    ensures
        match r {
            Ok(re) => regex_fault(pattern@) is None && regex_source(re) == pattern@,
            Err(e) => regex_fault(pattern@) == Some(e@),
        },
{
    regex::Regex::new(pattern).map_err(|e| e.to_string())
}

/// `regex::Regex::is_match`: whether there is a match depends on the pattern and the text
/// alone. A pattern that is an escaped text matches where that text occurs.
#[verifier::external_body]
pub(crate) fn regex_is_match(re: &regex::Regex, text: &str) -> (r: bool)
    ensures
        r == regex_matches(regex_source(*re), text@),
        forall|p: Seq<char>|
            regex_source(*re) == #[trigger] escaped(p) ==> r == crate::text::contains(text@, p),
{
    re.is_match(text)
}

/// No backslash follows another one or two stars. There some platforms read it as a separator
/// even where it escapes.
pub open spec fn plain_escapes(s: Seq<char>) -> bool {
    forall|i: int|
        0 < i < s.len() && #[trigger] s[i] == '\\' ==> s[i - 1] != '\\' && !(i > 1 && s[i - 1]
            == '*' && s[i - 2] == '*')
}

/// What the pattern means is the same on every platform. `escape` tells whether a backslash
/// escapes the character that follows it.
pub open spec fn portable_glob(pattern: Seq<char>, escape: bool) -> bool {
    if escape {
        plain_escapes(pattern)
    } else {
        !pattern.contains('\\')
    }
}

/// `globset::GlobBuilder::backslash_escape`, `GlobBuilder::build` and
/// `globset::GlobSetBuilder::build`: the glob that a pattern stands for, or what is wrong with
/// the pattern. Where a backslash escapes the character that follows it, this depends on the
/// pattern alone, unless a backslash follows another one or two stars; so it does for a
/// pattern without backslashes. What any other backslash means depends on the platform, and is
/// left open here.
#[verifier::external_body]
pub(crate) fn compile_glob(pattern: &str, escape: bool) -> (r: Result<globset::GlobSet, String>)
    ensures
        match r {
            Ok(g) => glob_source(g) == (pattern@, escape) && (portable_glob(pattern@, escape)
                ==> glob_fault(pattern@) is None),
            Err(e) => portable_glob(pattern@, escape) ==> glob_fault(pattern@) == Some(e@),
        },
{
    let glob = globset::GlobBuilder::new(pattern).backslash_escape(escape).build();
    let glob = glob.map_err(|e| e.to_string())?;
    globset::GlobSetBuilder::new().add(glob).build().map_err(|e| e.to_string())
}

/// `globset::GlobSet::is_match`: of a glob that means the same on every platform and a path
/// without backslashes the answer depends on the two alone; what a backslash in a path means
/// depends on the platform, and is left open here.
#[verifier::external_body]
pub(crate) fn glob_is_match(g: &globset::GlobSet, path: &str) -> (r: bool)
    ensures
        portable_glob(glob_source(*g).0, glob_source(*g).1) && !path@.contains('\\') ==> r
            == glob_matches(glob_source(*g).0, path@),
{
    g.is_match(path)
}

/// Escaping puts a backslash before what is special, and changes nothing else.
pub proof fn law_escaped(s: Seq<char>, c: char)
    ensures
        escaped(Seq::empty()) == Seq::<char>::empty(),
        is_meta(c) ==> escaped(s.push(c)) == escaped(s) + seq!['\\', c],
        !is_meta(c) ==> escaped(s.push(c)) == escaped(s) + seq![c],
        is_meta('.') && is_meta('*') && is_meta('(') && is_meta(')') && is_meta('[') && is_meta(
            ']',
        ) && is_meta('\\') && is_meta('$') && is_meta('^') && is_meta('+') && is_meta('?')
            && is_meta('|') && is_meta('{') && is_meta('}'),
        !is_meta('a') && !is_meta(' ') && !is_meta('_') && !is_meta('0'),
{
    assert(s.push(c).drop_last() =~= s);
    assert(escaped(s).push('\\').push(c) =~= escaped(s) + seq!['\\', c]);
    assert(escaped(s).push(c) =~= escaped(s) + seq![c]);
}

} // verus!
