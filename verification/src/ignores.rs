//! Ignore rules: which files of a tree the rules of its root exclude.
use vstd::prelude::*;

use ignore::gitignore::Gitignore;
use ignore::gitignore::GitignoreBuilder;

use crate::patterns::plain_escapes;
use crate::text::chars_of;
use crate::text::cut;
use crate::text::join;
use crate::text::join_strings;
use crate::text::lines_chars;
use crate::text::runs;
use crate::text::string_of;
use crate::text::text_lines;
use crate::text::views;
use crate::tools::find::keep_file;
use crate::tools::find::passes_hidden;
use crate::tools::find::HiddenPolicy;

verus! {

/// `ignore::gitignore::GitignoreBuilder`, carried as it is.
#[verifier::external_type_specification]
#[verifier::external_body]
pub struct ExGitignoreBuilder(ignore::gitignore::GitignoreBuilder);

/// `ignore::gitignore::Gitignore`, carried as it is.
#[verifier::external_type_specification]
#[verifier::external_body]
pub struct ExGitignore(ignore::gitignore::Gitignore);

/// The root that a builder was made with, and the lines that it was given.
pub uninterp spec fn builder_source(b: GitignoreBuilder) -> (Seq<char>, Seq<Seq<char>>);

/// The root and the lines that rules were built of.
pub uninterp spec fn rules_source(g: Gitignore) -> (Seq<char>, Seq<Seq<char>>);

/// Rules can be built of these lines.
pub uninterp spec fn rules_taken(root: Seq<char>, lines: Seq<Seq<char>>) -> bool;

/// The rules that these lines stand for exclude the path.
pub uninterp spec fn rules_match(
    root: Seq<char>,
    lines: Seq<Seq<char>>,
    path: Seq<char>,
    is_dir: bool,
) -> bool;

/// What the lines mean is the same on every platform: in each of them a backslash only escapes
/// the character that follows it.
pub open spec fn portable_rules(v: Seq<Seq<char>>) -> bool {
    forall|i: int| 0 <= i < v.len() ==> plain_escapes(#[trigger] v[i])
}

/// The path starts the same way on every platform: it holds no backslash, does not name a
/// share and does not start at the current directory.
pub open spec fn portable_root(root: Seq<char>) -> bool {
    !root.contains('\\') && !(root.len() > 1 && root[1] == '/' && (root[0] == '/' || root[0]
        == '.'))
}

/// The name of a file or directory, and neither a path nor the current directory.
pub open spec fn portable_name(name: Seq<char>) -> bool {
    name.len() > 0 && name != seq!['.'] && !name.contains('/') && !name.contains('\\')
}

/// All of these are names of files or directories.
pub open spec fn portable_names(names: Seq<Seq<char>>) -> bool {
    forall|i: int| 0 <= i < names.len() ==> portable_name(#[trigger] names[i])
}

/// The path of what these names lead to from the root.
pub open spec fn path_below(root: Seq<char>, names: Seq<Seq<char>>) -> Seq<char> {
    if root.len() > 0 && root.last() == '/' {
        root + join(names, "/"@)
    } else {
        root + "/"@ + join(names, "/"@)
    }
}

/// The path is one that names lead to from the root.
pub open spec fn is_below(root: Seq<char>, path: Seq<char>) -> bool {
    exists|names: Seq<Seq<char>>|
        names.len() > 0 && portable_names(names) && path == #[trigger] path_below(root, names)
}

/// `GitignoreBuilder::new`: rules without lines, for what is below the root.
#[verifier::external_body]
fn new_builder(root: &str) -> (r: GitignoreBuilder)
    ensures
        builder_source(r) == (root@, Seq::<Seq<char>>::empty()),
{
    GitignoreBuilder::new(root)
}

/// `GitignoreBuilder::add_line`: takes in one line more. A line that is no rule is passed over.
#[verifier::external_body]
fn add_line(b: &mut GitignoreBuilder, line: &str)
    ensures
        builder_source(*final(b)) == (
            builder_source(*old(b)).0,
            builder_source(*old(b)).1.push(line@),
        ),
{
    let _ = b.add_line(None, line);
}

/// `GitignoreBuilder::build`: the rules, unless they are refused. Whether they are depends on
/// the root and the lines alone, where in each line a backslash only escapes the character
/// that follows it. Of other backslashes, which platforms read differently, nothing is said.
#[verifier::external_body]
fn build(b: &GitignoreBuilder) -> (r: Option<Gitignore>)
    ensures
        r matches Some(g) ==> rules_source(g) == builder_source(*b),
        portable_rules(builder_source(*b).1) ==> r is Some == rules_taken(
            builder_source(*b).0,
            builder_source(*b).1,
        ),
{
    b.build().ok()
}

/// `Gitignore::matched`: whether the rules exclude a path. Of a path that leads down from the
/// root by names this depends on the root, the lines and the path alone, where a backslash in
/// a line only escapes the character that follows it. Of other paths, from which platforms
/// take the root off differently, nothing is said. Rules without lines exclude nothing.
#[verifier::external_body]
fn matched(g: &Gitignore, path: &str, is_dir: bool) -> (r: bool)
    ensures
        portable_root(rules_source(*g).0) && portable_rules(rules_source(*g).1) && is_below(
            rules_source(*g).0,
            path@,
        ) ==> r == rules_match(rules_source(*g).0, rules_source(*g).1, path@, is_dir),
        rules_source(*g).1.len() == 0 ==> !r,
{
    g.matched(path, is_dir).is_ignore()
}

// ---------------------------------------------------------------------------
// Reading the rules
// ---------------------------------------------------------------------------

/// A text without the marks of byte order at its start.
pub open spec fn without_marks(s: Seq<char>) -> Seq<char>
    decreases s.len(),
{
    if s.len() > 0 && s[0] == '\u{feff}' {
        without_marks(s.skip(1))
    } else {
        s
    }
}

/// The lines of a file with rules.
pub open spec fn file_rules(text: Seq<char>) -> Seq<Seq<char>> {
    text_lines(without_marks(text))
}

/// The lines of several files with rules, one after the other.
pub open spec fn all_rules(texts: Seq<Seq<char>>) -> Seq<Seq<char>>
    decreases texts.len(),
{
    if texts.len() == 0 {
        Seq::empty()
    } else {
        all_rules(texts.drop_last()) + file_rules(texts.last())
    }
}

fn skip_marks(s: &Vec<char>) -> (r: Vec<char>)
    ensures
        r@ == without_marks(s@),
{
    let n = s.len();
    let mut i: usize = 0;
    assert(s@.skip(0) =~= s@);
    while i < n && s[i] == '\u{feff}'
        invariant
            i <= n,
            n == s@.len(),
            without_marks(s@.skip(i as int)) == without_marks(s@),
        decreases n - i,
    {
        assert(s@.skip(i as int)[0] == s@[i as int]);
        assert(s@.skip(i as int).skip(1) =~= s@.skip(i + 1));
        i = i + 1;
    }
    proof {
        let rest = s@.skip(i as int);
        if rest.len() > 0 {
            assert(rest[0] == s@[i as int]);
        }
        assert(s@.subrange(i as int, n as int) =~= rest);
    }
    cut(s, i, n)
}

fn add_rules(b: &mut GitignoreBuilder, text: &str)
    ensures
        builder_source(*final(b)) == (
            builder_source(*old(b)).0,
            builder_source(*old(b)).1 + file_rules(text@),
        ),
{
    let cs = chars_of(text);
    let rest = skip_marks(&cs);
    let lines = lines_chars(&rest);
    let ghost all = file_rules(text@);
    let ghost start = builder_source(*b);
    let n = lines.len();
    let mut i: usize = 0;
    assert(start.1 + all.take(0) =~= start.1);
    while i < n
        invariant
            i <= n,
            n == lines@.len(),
            all == runs(lines@),
            builder_source(*b) == (start.0, start.1 + all.take(i as int)),
        decreases n - i,
    {
        let line = string_of(&lines[i]);
        add_line(b, line.as_str());
        proof {
            assert(line@ == all[i as int]);
            assert((start.1 + all.take(i as int)).push(line@) =~= start.1 + all.take(i + 1));
        }
        i = i + 1;
    }
    assert(all.take(n as int) =~= all);
}

/// The rules that files with rules hold, for what is below the root; none where they are
/// refused.
pub fn read_rules(root: &str, texts: &Vec<String>) -> (r: Option<Gitignore>)
    ensures
        r matches Some(g) ==> rules_source(g) == (root@, all_rules(views(texts@))),
        portable_rules(all_rules(views(texts@))) ==> r is Some == rules_taken(
            root@,
            all_rules(views(texts@)),
        ),
{
    let ghost all = views(texts@);
    let mut b = new_builder(root);
    let n = texts.len();
    let mut i: usize = 0;
    assert(all.take(0) =~= Seq::<Seq<char>>::empty());
    while i < n
        invariant
            i <= n,
            n == texts@.len(),
            all == views(texts@),
            builder_source(b) == (root@, all_rules(all.take(i as int))),
        decreases n - i,
    {
        add_rules(&mut b, texts[i].as_str());
        proof {
            assert(all.take(i + 1).drop_last() =~= all.take(i as int));
            assert(all.take(i + 1).last() == texts@[i as int]@);
        }
        i = i + 1;
    }
    assert(all.take(n as int) =~= all);
    build(&b)
}

// ---------------------------------------------------------------------------
// Applying the rules
// ---------------------------------------------------------------------------

/// The rules exclude what the first `i + 1` of the names lead to: a directory, unless it is
/// the last.
pub open spec fn excluded_at(
    root: Seq<char>,
    lines: Seq<Seq<char>>,
    names: Seq<Seq<char>>,
    i: int,
) -> bool {
    rules_match(root, lines, path_below(root, names.take(i + 1)), i + 1 < names.len())
}

/// What the rules say of these names is the same on every platform.
pub open spec fn portable(root: Seq<char>, lines: Seq<Seq<char>>, names: Seq<Seq<char>>) -> bool {
    portable_root(root) && portable_rules(lines) && portable_names(names)
}

fn path_from(root: &str, way: &Vec<String>) -> (r: String)
    ensures
        r@ == path_below(root@, views(way@)),
{
    let cs = chars_of(root);
    let mut path = String::from_str(root);
    if !(cs.len() > 0 && cs[cs.len() - 1] == '/') {
        path.append("/");
    }
    path.append(join_strings(way, "/").as_str());
    path
}

fn exclusions(rules: &Gitignore, root: &str, names: &Vec<String>) -> (r: Vec<bool>)
    ensures
        r@.len() == names@.len(),
        rules_source(*rules).0 == root@ && portable(root@, rules_source(*rules).1, views(names@))
            ==> forall|i: int|
            0 <= i < r@.len() ==> #[trigger] r@[i] == excluded_at(
                root@,
                rules_source(*rules).1,
                views(names@),
                i,
            ),
{
    let ghost lines = rules_source(*rules).1;
    let ghost all = views(names@);
    let ghost told = rules_source(*rules).0 == root@ && portable(root@, lines, all);
    let n = names.len();
    let mut way: Vec<String> = Vec::new();
    let mut r: Vec<bool> = Vec::new();
    let mut i: usize = 0;
    assert(views(way@) =~= all.take(0));
    while i < n
        invariant
            i <= n,
            n == names@.len(),
            all == views(names@),
            lines == rules_source(*rules).1,
            told == (rules_source(*rules).0 == root@ && portable(root@, lines, all)),
            views(way@) == all.take(i as int),
            r@.len() == i,
            told ==> forall|k: int|
                0 <= k < i ==> #[trigger] r@[k] == excluded_at(root@, lines, all, k),
        decreases n - i,
    {
        let ghost before = way@;
        let name = names[i].clone();
        way.push(name);
        assert(views(way@) =~= views(before).push(name@));
        assert(all.take(i + 1) =~= all.take(i as int).push(all[i as int]));
        let path = path_from(root, &way);
        let is_dir = i + 1 < n;
        let out = matched(rules, path.as_str(), is_dir);
        proof {
            if told {
                let part = all.take(i + 1);
                assert forall|k: int| 0 <= k < part.len() implies portable_name(
                    #[trigger] part[k],
                ) by {
                    assert(part[k] == all[k]);
                }
                assert(is_below(root@, path_below(root@, part)));
            }
        }
        r.push(out);
        i = i + 1;
    }
    r
}

/// A file counts. It is known by the names on the way to it from the root, its own last.
/// Hidden names count as the policy says, and the rules, where there are any, exclude neither
/// the file nor a directory on the way.
pub fn keeps_file(
    rules: &Option<Gitignore>,
    root: &str,
    names: &Vec<String>,
    policy: HiddenPolicy,
) -> (r: bool)
    requires
        names@.len() > 0,
    ensures
        r ==> passes_hidden(views(names@), policy),
        *rules is None ==> r == passes_hidden(views(names@), policy),
        *rules matches Some(g) ==> (rules_source(g).0 == root@ && portable(
            root@,
            rules_source(g).1,
            views(names@),
        ) ==> r == (passes_hidden(views(names@), policy) && forall|i: int|
            0 <= i < names@.len() ==> !#[trigger] excluded_at(
                root@,
                rules_source(g).1,
                views(names@),
                i,
            ))),
{
    match rules {
        None => {
            let none: Vec<bool> = Vec::new();
            keep_file(names, &none, policy)
        },
        Some(g) => {
            let flags = exclusions(g, root, names);
            let r = keep_file(names, &flags, policy);
            proof {
                let lines = rules_source(*g).1;
                let all = views(names@);
                if rules_source(*g).0 == root@ && portable(root@, lines, all) {
                    if flags@.contains(true) {
                        let i = choose|i: int| 0 <= i < flags@.len() && flags@[i] == true;
                        assert(excluded_at(root@, lines, all, i));
                    } else {
                        assert forall|i: int| 0 <= i < names@.len() implies !#[trigger] excluded_at(
                            root@,
                            lines,
                            all,
                            i,
                        ) by {
                            assert(flags@[i] == excluded_at(root@, lines, all, i));
                        }
                    }
                }
            }
            r
        },
    }
}

/// Nothing is kept that is below an excluded directory: what the rules exclude on the way to
/// a file, they exclude on the way to every file below it.
pub proof fn law_excluded_directories_stay_excluded(
    root: Seq<char>,
    lines: Seq<Seq<char>>,
    way: Seq<Seq<char>>,
    more: Seq<Seq<char>>,
    i: int,
)
    requires
        0 <= i < way.len() - 1,
        excluded_at(root, lines, way, i),
    ensures
        excluded_at(root, lines, way + more, i),
{
    assert((way + more).take(i + 1) =~= way.take(i + 1));
}

/// The rules of several texts are those of each, in order.
pub proof fn law_rules_in_order(texts: Seq<Seq<char>>, t: Seq<char>)
    ensures
        all_rules(Seq::empty()).len() == 0,
        all_rules(texts.push(t)) == all_rules(texts) + file_rules(t),
        t.len() > 0 && t[0] != '\u{feff}' ==> file_rules(t) == text_lines(t),
        file_rules(seq!['\u{feff}'] + t) == file_rules(t),
{
    assert(texts.push(t).drop_last() =~= texts);
    let m = seq!['\u{feff}'] + t;
    assert(m.skip(1) =~= t);
    assert(m[0] == '\u{feff}');
}

/// The path of a name below a root is the root, a slash and the name, with one slash between them
/// however the root ends.
pub proof fn law_path_below(root: Seq<char>, name: Seq<char>)
    ensures
        root.len() > 0 && root.last() != '/' ==> path_below(root, seq![name]) == root + "/"@ + name,
        root.len() > 0 && root.last() == '/' ==> path_below(root, seq![name]) == root + name,
{
}

} // verus!
