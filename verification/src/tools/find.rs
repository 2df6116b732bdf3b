//! The `find` tool: finds files by glob, newest first.
//!
//! Walking a directory tree is left to the caller, which asks here what to enter and what to
//! keep. What was found is then stripped of duplicates, sorted and cut to the limit.
use vstd::prelude::*;

use crate::error::ErrorView;
use crate::error::ToolError;
use crate::json::add_maybe;
use crate::json::array_in;
use crate::json::build_object;
use crate::json::count_json;
use crate::json::count_to_json;
use crate::json::entry;
use crate::json::field;
use crate::json::items_view;
use crate::json::law_object_holds;
use crate::json::maybe;
use crate::json::members_view;
use crate::json::nat_in;
use crate::json::object_of;
use crate::json::str_to_json;
use crate::json::texts_json;
use crate::json::texts_to_json;
use crate::json::Json;
use crate::json::JsonView;
use crate::lists::law_none_picked;
use crate::patterns::compile_glob;
use crate::patterns::glob_fault;
use crate::patterns::glob_is_match;
use crate::patterns::glob_matches;
use crate::patterns::glob_source;
use crate::patterns::portable_glob;
use crate::text::before;
use crate::text::chars_of;
use crate::text::same;
use crate::text::str_before;
use crate::text::to_slashes;
use crate::text::views;
use crate::text::with_slashes;
use crate::tools::search::bool_or;
use crate::tools::search::split_glob;
use crate::tools::search::target_glob;
use crate::tools::search::target_root;
use crate::tools::search::texts_in;

verus! {

/// How many files are returned where nothing else is asked for.
pub const DEFAULT_LIMIT: u64 = 200;

/// Most files that are ever returned.
pub const MAX_LIMIT: u64 = 200;

// ---------------------------------------------------------------------------
// The request
// ---------------------------------------------------------------------------

/// What a find is asked to do.
#[derive(Debug)]
pub struct FindRequest {
    /// Where and what to look for: files, directories or globs.
    pub patterns: Vec<String>,
    /// Whether hidden files and directories count.
    pub hidden: bool,
    /// Whether `.gitignore` is heeded.
    pub gitignore: bool,
    /// Most files that are returned.
    pub limit: usize,
}

/// What is wrong with a request.
pub open spec fn find_fault(input: JsonView) -> Option<Seq<char>> {
    match array_in(field(input, "paths"@)) {
        None => Some("paths is required (array of globs)"@),
        Some(items) => if items.len() == 0 {
            Some("paths must not be empty"@)
        } else if texts_in(items).len() == 0 {
            Some("paths must contain at least one string"@)
        } else if nat_in(field(input, "limit"@)) == Some(0nat) {
            Some("limit must be > 0"@)
        } else {
            None
        },
    }
}

/// The limit: what is asked for, within bounds.
pub open spec fn find_limit(input: JsonView) -> nat {
    match nat_in(field(input, "limit"@)) {
        Some(n) => if n > MAX_LIMIT {
            MAX_LIMIT as nat
        } else {
            n
        },
        None => DEFAULT_LIMIT as nat,
    }
}

/// The texts among the items of a list.
pub fn read_texts(items: &Vec<Json>) -> (r: Vec<String>)
    ensures
        views(r@) == texts_in(items_view(items@)),
{
    let ghost all = items_view(items@);
    let ghost f = |j: JsonView|
        match j {
            JsonView::String(s) => Some(s),
            _ => None,
        };
    let mut r: Vec<String> = Vec::new();
    let mut i: usize = 0;
    assert(all.take(0).filter_map(f) =~= Seq::<Seq<char>>::empty()) by {
        reveal_with_fuel(Seq::filter_map, 1);
    }
    assert(views(r@) =~= all.take(0).filter_map(f));
    while i < items.len()
        invariant
            i <= items@.len(),
            all == items_view(items@),
            f == (|j: JsonView|
                match j {
                    JsonView::String(s) => Some(s),
                    _ => None,
                }),
            views(r@) == all.take(i as int).filter_map(f),
        decreases items@.len() - i,
    {
        let ghost done = r@;
        proof {
            all.lemma_filter_map_take_succ(f, i as int);
            assert(all[i as int] == items@[i as int]@);
        }
        if let Json::String(s) = &items[i] {
            r.push(s.clone());
            assert(views(r@) =~= views(done).push(s@));
        }
        i = i + 1;
    }
    assert(all.take(all.len() as int) =~= all);
    assert(all.filter_map(f) == texts_in(all));
    r
}

/// What a find is asked to do, or what is wrong with the request.
pub fn parse_find(input: &Json) -> (r: Result<FindRequest, ToolError>)
    ensures
        match r {
            Err(e) => find_fault(input@) is Some && e@ == ErrorView::Other(find_fault(input@)->0),
            Ok(q) => {
                &&& find_fault(input@) is None
                &&& views(q.patterns@) == texts_in(array_in(field(input@, "paths"@))->0)
                &&& q.patterns@.len() > 0
                &&& q.hidden == bool_or(input@, "hidden"@, true)
                &&& q.gitignore == bool_or(input@, "gitignore"@, true)
                &&& q.limit as nat == find_limit(input@)
                &&& 1 <= q.limit <= MAX_LIMIT
            },
        },
{
    let items = match input.get_array("paths") {
        Some(items) => items,
        None => return Err(ToolError::other("paths is required (array of globs)")),
    };
    if items.len() == 0 {
        return Err(ToolError::other("paths must not be empty"));
    }
    let patterns = read_texts(items);
    assert(views(patterns@).len() == patterns@.len());
    if patterns.len() == 0 {
        return Err(ToolError::other("paths must contain at least one string"));
    }
    let n: u64 = match input.get_u64("limit") {
        Some(n) => n,
        None => DEFAULT_LIMIT,
    };
    if n == 0 {
        return Err(ToolError::other("limit must be > 0"));
    }
    let limit: usize = if n > MAX_LIMIT {
        200
    } else {
        n as usize
    };
    Ok(
        FindRequest {
            patterns,
            hidden: match input.get_bool("hidden") {
                Some(b) => b,
                None => true,
            },
            gitignore: match input.get_bool("gitignore") {
                Some(b) => b,
                None => true,
            },
            limit,
        },
    )
}

/// One place to look at.
#[derive(Debug)]
pub struct FindTarget {
    /// Where to start.
    pub search_path: String,
    /// The glob, empty where there is none.
    pub glob_pattern: String,
    /// Whether there is a glob.
    pub has_glob: bool,
}

/// A pattern taken apart: what stands before the first glob character is where to start, the
/// rest is the glob, made to match at any depth.
pub fn parse_find_pattern(input: &str) -> (r: FindTarget)
    ensures
        r.search_path@ == target_root(input@),
        r.has_glob == (target_glob(input@) is Some),
        r.has_glob ==> target_glob(input@) == Some(r.glob_pattern@),
        !r.has_glob ==> r.glob_pattern@.len() == 0,
{
    let (search_path, glob) = split_glob(input);
    match glob {
        Some(glob_pattern) => FindTarget { search_path, glob_pattern, has_glob: true },
        None => FindTarget { search_path, glob_pattern: String::new(), has_glob: false },
    }
}

/// What is done with a target.
#[derive(Debug)]
pub enum FindAction {
    /// It is a file, and found.
    TakeFile,
    /// It is a directory, and what is below it is matched against a glob.
    Walk(String),
    /// It is neither.
    Nothing,
}

/// What is done with a target that is a file, a directory or neither.
pub fn find_action(target: &FindTarget, is_file: bool, is_dir: bool) -> (r: FindAction)
    ensures
        match r {
            FindAction::TakeFile => is_file,
            FindAction::Walk(glob) => !is_file && is_dir && glob@ == (if target.has_glob {
                target.glob_pattern@
            } else {
                "**/*"@
            }),
            FindAction::Nothing => !is_file && !is_dir,
        },
{
    if is_file {
        FindAction::TakeFile
    } else if is_dir {
        if target.has_glob {
            FindAction::Walk(target.glob_pattern.clone())
        } else {
            FindAction::Walk(String::from_str("**/*"))
        }
    } else {
        FindAction::Nothing
    }
}

// ---------------------------------------------------------------------------
// Walking
// ---------------------------------------------------------------------------

/// What is hidden counts, or does not.
#[derive(Debug, Clone, Copy, PartialEq, Eq, Structural)]
pub enum HiddenPolicy {
    /// Everything counts.
    Keep,
    /// What is below a hidden directory does not count.
    SkipDirectories,
    /// Neither does a hidden file.
    SkipAll,
}

impl FindRequest {
    /// Which hidden files count: all of them, or none.
    pub fn hidden_policy(&self) -> (r: HiddenPolicy)
        ensures
            r == (if self.hidden {
                HiddenPolicy::Keep
            } else {
                HiddenPolicy::SkipAll
            }),
    {
        if self.hidden {
            HiddenPolicy::Keep
        } else {
            HiddenPolicy::SkipAll
        }
    }
}

/// The name starts with a dot.
pub open spec fn is_hidden(name: Seq<char>) -> bool {
    name.len() > 0 && name[0] == '.'
}

/// Some of the first `n` names is hidden.
pub open spec fn any_hidden(names: Seq<Seq<char>>, n: int) -> bool {
    exists|i: int| 0 <= i < n && i < names.len() && is_hidden(#[trigger] names[i])
}

/// The path, given by its names below the root, is let through.
pub open spec fn passes_hidden(names: Seq<Seq<char>>, policy: HiddenPolicy) -> bool {
    match policy {
        HiddenPolicy::Keep => true,
        HiddenPolicy::SkipDirectories => !any_hidden(names, names.len() - 1),
        HiddenPolicy::SkipAll => !any_hidden(names, names.len() as int),
    }
}

/// A directory is entered: the root always, any other unless it holds the history of a
/// repository or the state of the agent itself.
pub fn enter_directory(name: &str, is_root: bool) -> (r: bool)
    ensures
        r == (is_root || (name@ != ".git"@ && name@ != ".latte"@)),
{
    is_root || (!same(name, ".git") && !same(name, ".latte"))
}

fn hidden_name(name: &str) -> (r: bool)
    ensures
        r == is_hidden(name@),
{
    let cs = chars_of(name);
    cs.len() > 0 && cs[0] == '.'
}

fn some_hidden(names: &Vec<String>, n: usize) -> (r: bool)
    requires
        n <= names@.len(),
    ensures
        r == any_hidden(views(names@), n as int),
{
    let ghost all = views(names@);
    let mut i: usize = 0;
    while i < n
        invariant
            i <= n <= names@.len(),
            all == views(names@),
            forall|k: int| 0 <= k < i ==> !is_hidden(#[trigger] all[k]),
        decreases n - i,
    {
        assert(all[i as int] == names@[i as int]@);
        if hidden_name(names[i].as_str()) {
            return true;
        }
        i = i + 1;
    }
    false
}

/// A file is kept. It is known by the names on the way to it from the root, its own last;
/// `ignored` tells of each of these whether the ignore rules exclude it.
pub fn keep_file(names: &Vec<String>, ignored: &Vec<bool>, policy: HiddenPolicy) -> (r: bool)
    requires
        names@.len() > 0,
    ensures
        r == (passes_hidden(views(names@), policy) && !ignored@.contains(true)),
{
    let skipped = match policy {
        HiddenPolicy::Keep => false,
        HiddenPolicy::SkipDirectories => some_hidden(names, names.len() - 1),
        HiddenPolicy::SkipAll => some_hidden(names, names.len()),
    };
    if skipped {
        return false;
    }
    let mut i: usize = 0;
    while i < ignored.len()
        invariant
            i <= ignored@.len(),
            forall|k: int| 0 <= k < i ==> !(#[trigger] ignored@[k]),
        decreases ignored@.len() - i,
    {
        if ignored[i] {
            assert(ignored@[i as int] == true);
            return false;
        }
        i = i + 1;
    }
    true
}

/// Which of the files a glob lets through; an error where it is no glob. `escape` tells
/// whether a backslash in the glob escapes the character that follows it, as it does where it
/// does not separate the components of a path.
pub fn match_files(files: &Vec<String>, glob: &str, escape: bool) -> (r: Result<
    Vec<bool>,
    ToolError,
>)
    ensures
        match r {
            Ok(flags) => {
                &&& flags@.len() == files@.len()
                &&& portable_glob(glob@, escape) ==> glob_fault(glob@) is None && forall|i: int|
                    0 <= i < files@.len() && !files@[i]@.contains('\\') ==> #[trigger] flags@[i]
                        == glob_matches(glob@, files@[i]@)
            },
            Err(e) => portable_glob(glob@, escape) ==> glob_fault(glob@) is Some && e@
                == ErrorView::Other(
                "invalid glob pattern '"@ + glob@ + "': "@ + glob_fault(glob@)->0,
            ),
        },
{
    let compiled = match compile_glob(glob, escape) {
        Ok(g) => g,
        Err(e) => return Err(invalid_glob(glob, e.as_str())),
    };
    let mut flags: Vec<bool> = Vec::new();
    let mut i: usize = 0;
    while i < files.len()
        invariant
            i <= files@.len(),
            flags@.len() == i,
            glob_source(compiled) == (glob@, escape),
            portable_glob(glob@, escape) ==> forall|k: int|
                0 <= k < i && !files@[k]@.contains('\\') ==> #[trigger] flags@[k] == glob_matches(
                    glob@,
                    files@[k]@,
                ),
        decreases files@.len() - i,
    {
        flags.push(glob_is_match(&compiled, files[i].as_str()));
        i = i + 1;
    }
    Ok(flags)
}

/// The error where a pattern is no glob.
pub fn invalid_glob(glob: &str, fault: &str) -> (r: ToolError)
    ensures
        r@ == ErrorView::Other("invalid glob pattern '"@ + glob@ + "': "@ + fault@),
{
    let mut m = String::from_str("invalid glob pattern '");
    m.append(glob);
    m.append("': ");
    m.append(fault);
    ToolError::Other(m)
}

// ---------------------------------------------------------------------------
// The result
// ---------------------------------------------------------------------------

/// A file that was found.
#[derive(Debug)]
pub struct FindHit {
    /// Its path relative to the working directory, or as it is where it lies elsewhere.
    pub path: String,
    /// The components of its absolute path.
    pub components: Vec<String>,
    /// When it was last modified, in milliseconds.
    pub mtime_ms: i64,
    /// Whether it is a directory.
    pub is_dir: bool,
}

/// The model of a file that was found.
pub struct FoundView {
    /// Its relative path.
    pub path: Seq<char>,
    /// The components of its absolute path.
    pub components: Seq<Seq<char>>,
    /// When it was last modified.
    pub mtime_ms: int,
    /// Whether it is a directory.
    pub is_dir: bool,
}

impl View for FindHit {
    type V = FoundView;

    open spec fn view(&self) -> FoundView {
        FoundView {
            path: self.path@,
            components: views(self.components@),
            mtime_ms: self.mtime_ms as int,
            is_dir: self.is_dir,
        }
    }
}

/// The models of a list of files.
pub open spec fn found_view(v: Seq<FindHit>) -> Seq<FoundView> {
    v.map_values(|h: FindHit| h@)
}

/// The order of paths: component by component.
pub open spec fn path_before(a: Seq<Seq<char>>, b: Seq<Seq<char>>) -> bool
    decreases a.len(),
{
    if b.len() == 0 {
        false
    } else if a.len() == 0 {
        true
    } else if a[0] != b[0] {
        before(a[0], b[0])
    } else {
        path_before(a.drop_first(), b.drop_first())
    }
}

/// The order of the result: newer first, and of the same age by path.
pub open spec fn found_before(a: FoundView, b: FoundView) -> bool {
    a.mtime_ms > b.mtime_ms || (a.mtime_ms == b.mtime_ms && path_before(
        a.components,
        b.components,
    ))
}

/// Each path once: the first that was found of it.
pub open spec fn distinct_paths(v: Seq<FoundView>) -> Seq<FoundView>
    decreases v.len(),
{
    if v.len() == 0 {
        v
    } else {
        let rest = distinct_paths(v.drop_last());
        if holds_path(rest, v.last().components) {
            rest
        } else {
            rest.push(v.last())
        }
    }
}

/// One of the files has this path.
pub open spec fn holds_path(v: Seq<FoundView>, components: Seq<Seq<char>>) -> bool {
    exists|i: int| 0 <= i < v.len() && (#[trigger] v[i]).components == components
}

/// `sorted` with `x` put in its place.
pub open spec fn insert_found(sorted: Seq<FoundView>, x: FoundView) -> Seq<FoundView>
    decreases sorted.len(),
{
    if sorted.len() == 0 || !found_before(x, sorted.last()) {
        sorted.push(x)
    } else {
        insert_found(sorted.drop_last(), x).push(sorted.last())
    }
}

/// The files, newest first.
pub open spec fn sorted_found(v: Seq<FoundView>) -> Seq<FoundView>
    decreases v.len(),
{
    if v.len() == 0 {
        Seq::empty()
    } else {
        insert_found(sorted_found(v.drop_last()), v.last())
    }
}

/// No file comes before one that stands ahead of it.
pub open spec fn found_in_order(v: Seq<FoundView>) -> bool {
    forall|i: int, j: int|
        0 <= i < j < v.len() ==> !found_before(#[trigger] v[j], #[trigger] v[i])
}

proof fn lemma_path_before(a: Seq<Seq<char>>, b: Seq<Seq<char>>)
    ensures
        path_before(a, b) ==> !path_before(b, a) && a != b,
        a != b ==> path_before(a, b) || path_before(b, a),
    decreases a.len(),
{
    if a.len() > 0 && b.len() > 0 {
        crate::text::lemma_before_total(a[0], b[0]);
        if a[0] == b[0] {
            lemma_path_before(a.drop_first(), b.drop_first());
            if a != b && a.drop_first() == b.drop_first() {
                assert(a =~= seq![a[0]] + a.drop_first());
                assert(b =~= seq![b[0]] + b.drop_first());
            }
        }
    } else if a.len() == 0 && b.len() == 0 {
        assert(a =~= b);
    }
}

proof fn lemma_path_before_transitive(a: Seq<Seq<char>>, b: Seq<Seq<char>>, c: Seq<Seq<char>>)
    requires
        path_before(a, b),
        path_before(b, c),
    ensures
        path_before(a, c),
    decreases a.len(),
{
    if a.len() > 0 && b.len() > 0 && c.len() > 0 {
        if a[0] == b[0] && b[0] == c[0] {
            lemma_path_before_transitive(a.drop_first(), b.drop_first(), c.drop_first());
        } else if a[0] != b[0] && b[0] != c[0] {
            crate::text::lemma_before_transitive(a[0], b[0], c[0]);
            crate::text::lemma_before_total(a[0], c[0]);
        }
    }
}

proof fn lemma_found_before(a: FoundView, b: FoundView, c: FoundView)
    ensures
        found_before(a, b) ==> !found_before(b, a),
        !found_before(b, a) && !found_before(c, b) ==> !found_before(c, a),
{
    lemma_path_before(a.components, b.components);
    lemma_path_before(b.components, c.components);
    lemma_path_before(a.components, c.components);
    if path_before(a.components, b.components) && path_before(b.components, c.components) {
        lemma_path_before_transitive(a.components, b.components, c.components);
    }
}

proof fn lemma_insert_found(sorted: Seq<FoundView>, x: FoundView)
    requires
        found_in_order(sorted),
    ensures
        found_in_order(insert_found(sorted, x)),
        insert_found(sorted, x).to_multiset() == sorted.to_multiset().insert(x),
        insert_found(sorted, x).len() == sorted.len() + 1,
        forall|i: int|
            0 <= i < insert_found(sorted, x).len() ==> (#[trigger] insert_found(sorted, x)[i] == x
                || sorted.contains(insert_found(sorted, x)[i])),
    decreases sorted.len(),
{
    broadcast use vstd::seq_lib::group_to_multiset_ensures;

    let r = insert_found(sorted, x);
    if sorted.len() == 0 {
    } else if !found_before(x, sorted.last()) {
        assert forall|i: int, j: int| 0 <= i < j < r.len() implies !found_before(
            #[trigger] r[j],
            #[trigger] r[i],
        ) by {
            if j == sorted.len() {
                if i < sorted.len() - 1 {
                    assert(!found_before(sorted[sorted.len() - 1], sorted[i]));
                    lemma_found_before(sorted[i], sorted.last(), x);
                }
            } else {
                assert(r[i] == sorted[i] && r[j] == sorted[j]);
            }
        }
        assert forall|i: int| 0 <= i < r.len() implies (#[trigger] r[i] == x || sorted.contains(
            r[i],
        )) by {
            if i < sorted.len() {
                assert(r[i] == sorted[i]);
            }
        }
    } else {
        let t = sorted.drop_last();
        let last = sorted.last();
        assert(found_in_order(t)) by {
            assert forall|i: int, j: int| 0 <= i < j < t.len() implies !found_before(
                #[trigger] t[j],
                #[trigger] t[i],
            ) by {
                assert(t[i] == sorted[i] && t[j] == sorted[j]);
            }
        }
        lemma_insert_found(t, x);
        let q = insert_found(t, x);
        assert(r == q.push(last));
        assert(sorted =~= t.push(last));
        assert forall|i: int, j: int| 0 <= i < j < r.len() implies !found_before(
            #[trigger] r[j],
            #[trigger] r[i],
        ) by {
            if j == q.len() {
                assert(r[i] == q[i]);
                if q[i] == x {
                    lemma_found_before(x, last, last);
                } else {
                    let k = choose|k: int| 0 <= k < t.len() && t[k] == q[i];
                    assert(t[k] == sorted[k]);
                    assert(!found_before(sorted[sorted.len() - 1], sorted[k]));
                }
            } else {
                assert(r[i] == q[i] && r[j] == q[j]);
            }
        }
        assert forall|i: int| 0 <= i < r.len() implies (#[trigger] r[i] == x || sorted.contains(
            r[i],
        )) by {
            if i < q.len() {
                assert(r[i] == q[i]);
                if q[i] != x {
                    let k = choose|k: int| 0 <= k < t.len() && t[k] == q[i];
                    assert(sorted[k] == q[i]);
                }
            } else {
                assert(sorted[sorted.len() - 1] == r[i]);
            }
        }
        assert(r.to_multiset() =~= sorted.to_multiset().insert(x));
    }
}

/// Sorting puts the files in order, newest first and by path, and neither adds nor loses one.
pub proof fn law_sorted_found(v: Seq<FoundView>)
    ensures
        found_in_order(sorted_found(v)),
        sorted_found(v).to_multiset() == v.to_multiset(),
        sorted_found(v).len() == v.len(),
    decreases v.len(),
{
    broadcast use vstd::seq_lib::group_to_multiset_ensures;

    if v.len() > 0 {
        law_sorted_found(v.drop_last());
        lemma_insert_found(sorted_found(v.drop_last()), v.last());
        assert(v =~= v.drop_last().push(v.last()));
    } else {
        assert(sorted_found(v) =~= v);
    }
}

/// Of each path one file is left, and every path that was found is still there.
pub proof fn law_distinct_paths(v: Seq<FoundView>, i: int, j: int)
    ensures
        0 <= i < j < distinct_paths(v).len() ==> distinct_paths(v)[i].components
            != distinct_paths(v)[j].components,
        0 <= i < v.len() ==> holds_path(distinct_paths(v), v[i].components),
    decreases v.len(),
{
    if v.len() > 0 {
        let t = v.drop_last();
        law_distinct_paths(t, i, j);
        let rest = distinct_paths(t);
        let d = distinct_paths(v);
        if 0 <= i < t.len() {
            assert(t[i] == v[i]);
            let k = choose|k: int|
                0 <= k < rest.len() && (#[trigger] rest[k]).components == v[i].components;
            assert(d[k].components == v[i].components);
        }
        if i == t.len() {
            if holds_path(rest, v.last().components) {
                let k = choose|k: int|
                    0 <= k < rest.len() && (#[trigger] rest[k]).components == v.last().components;
                assert(d[k].components == v[i].components);
            } else {
                assert(d[rest.len() as int].components == v[i].components);
            }
        }
        if 0 <= i < j < d.len() && j == rest.len() {
            assert(rest[i] == d[i]);
            if d[i].components == d[j].components {
                assert(holds_path(rest, v.last().components));
            }
        }
    }
}

proof fn lemma_insert_found_at(sorted: Seq<FoundView>, x: FoundView, p: int)
    requires
        0 <= p <= sorted.len(),
        p > 0 ==> !found_before(x, sorted[p - 1]),
        forall|i: int| p <= i < sorted.len() ==> found_before(x, #[trigger] sorted[i]),
    ensures
        insert_found(sorted, x) == sorted.insert(p, x),
    decreases sorted.len(),
{
    if p == sorted.len() {
        assert(sorted.push(x) =~= sorted.insert(p, x));
    } else {
        assert(found_before(x, sorted[sorted.len() - 1]));
        let t = sorted.drop_last();
        assert forall|i: int| p <= i < t.len() implies found_before(x, #[trigger] t[i]) by {
            assert(t[i] == sorted[i]);
        }
        lemma_insert_found_at(t, x, p);
        assert(t.insert(p, x).push(sorted.last()) =~= sorted.insert(p, x));
    }
}

fn same_path(a: &Vec<String>, b: &Vec<String>) -> (r: bool)
    ensures
        r == (views(a@) == views(b@)),
{
    assert(views(a@).len() == a@.len() && views(b@).len() == b@.len());
    if a.len() != b.len() {
        return false;
    }
    let mut i: usize = 0;
    while i < a.len()
        invariant
            i <= a@.len(),
            a@.len() == b@.len(),
            forall|k: int| 0 <= k < i ==> #[trigger] a@[k]@ == b@[k]@,
        decreases a@.len() - i,
    {
        if !same(a[i].as_str(), b[i].as_str()) {
            assert(views(a@)[i as int] != views(b@)[i as int]);
            return false;
        }
        i = i + 1;
    }
    assert(views(a@) =~= views(b@));
    true
}

fn path_comes_before(a: &Vec<String>, b: &Vec<String>) -> (r: bool)
    ensures
        r == path_before(views(a@), views(b@)),
{
    let ghost av = views(a@);
    let ghost bv = views(b@);
    let mut i: usize = 0;
    assert(av.skip(0) =~= av);
    assert(bv.skip(0) =~= bv);
    while i < a.len() && i < b.len()
        invariant
            i <= a@.len(),
            i <= b@.len(),
            av == views(a@),
            bv == views(b@),
            path_before(av, bv) == path_before(av.skip(i as int), bv.skip(i as int)),
        decreases a@.len() - i,
    {
        assert(av.skip(i as int)[0] == a@[i as int]@);
        assert(bv.skip(i as int)[0] == b@[i as int]@);
        if !same(a[i].as_str(), b[i].as_str()) {
            return str_before(a[i].as_str(), b[i].as_str());
        }
        assert(av.skip(i as int).drop_first() =~= av.skip(i + 1));
        assert(bv.skip(i as int).drop_first() =~= bv.skip(i + 1));
        i = i + 1;
    }
    i < b.len()
}

fn found_first(a: &FindHit, b: &FindHit) -> (r: bool)
    ensures
        r == found_before(a@, b@),
{
    a.mtime_ms > b.mtime_ms || (a.mtime_ms == b.mtime_ms && path_comes_before(
        &a.components,
        &b.components,
    ))
}

/// Each path once: the first that was found of it.
pub fn dedup_hits(v: Vec<FindHit>) -> (r: Vec<FindHit>)
    ensures
        found_view(r@) == distinct_paths(found_view(v@)),
{
    let ghost all = found_view(v@);
    let ghost source = v@;
    let mut r: Vec<FindHit> = Vec::new();
    assert(found_view(r@) =~= distinct_paths(all.take(0)));
    for h in it: v
        invariant
            it.seq() == source,
            all == found_view(source),
            found_view(r@) == distinct_paths(all.take(it.index())),
    {
        let ghost k = it.index();
        let ghost rv = found_view(r@);
        assert(all.take(k + 1).drop_last() =~= all.take(k));
        assert(all.take(k + 1).last() == h@);
        let mut seen = false;
        let mut i: usize = 0;
        while i < r.len() && !seen
            invariant
                i <= r@.len(),
                rv == found_view(r@),
                !seen ==> forall|j: int|
                    0 <= j < i ==> (#[trigger] rv[j]).components != h@.components,
                seen ==> holds_path(rv, h@.components),
            decreases r@.len() - i,
        {
            assert(rv[i as int] == r@[i as int]@);
            if same_path(&r[i].components, &h.components) {
                seen = true;
            }
            i = i + 1;
        }
        if !seen {
            let ghost hv = h@;
            r.push(h);
            assert(found_view(r@) =~= rv.push(hv));
        }
    }
    assert(all.take(all.len() as int) =~= all);
    r
}

/// The files, newest first and by path.
pub fn sort_hits(v: Vec<FindHit>) -> (r: Vec<FindHit>)
    ensures
        found_view(r@) == sorted_found(found_view(v@)),
        r@.len() == v@.len(),
{
    let ghost all = found_view(v@);
    let ghost source = v@;
    let mut r: Vec<FindHit> = Vec::new();
    assert(found_view(r@) =~= sorted_found(all.take(0)));
    for x in it: v
        invariant
            it.seq() == source,
            all == found_view(source),
            r@.len() == it.index(),
            found_view(r@) == sorted_found(all.take(it.index())),
    {
        let ghost i = it.index();
        let ghost rv = found_view(r@);
        let mut p: usize = r.len();
        while p > 0 && found_first(&x, &r[p - 1])
            invariant
                p <= r@.len(),
                rv == found_view(r@),
                forall|k: int| p <= k < r@.len() ==> found_before(x@, #[trigger] rv[k]),
            decreases p,
        {
            assert(rv[p - 1] == r@[p - 1]@);
            p = p - 1;
        }
        proof {
            if p > 0 {
                assert(rv[p - 1] == r@[p - 1]@);
            }
            lemma_insert_found_at(rv, x@, p as int);
            assert(all.take(i + 1).drop_last() =~= all.take(i));
            assert(all.take(i + 1).last() == x@);
        }
        let ghost xv = x@;
        r.insert(p, x);
        assert(found_view(r@) =~= rv.insert(p as int, xv));
    }
    assert(all.take(all.len() as int) =~= all);
    r
}

/// How a path is shown: with slashes, and one at the end of a directory.
pub open spec fn shown_path(relative: Seq<char>, is_dir: bool) -> Seq<char> {
    let s = with_slashes(relative);
    if is_dir && !(s.len() > 0 && s.last() == '/') {
        s.push('/')
    } else {
        s
    }
}

/// How a path is shown.
pub fn display_relative(relative: &str, is_dir: bool) -> (r: String)
    ensures
        r@ == shown_path(relative@, is_dir),
{
    let mut s = to_slashes(relative);
    let cs = chars_of(s.as_str());
    if is_dir && !(cs.len() > 0 && cs[cs.len() - 1] == '/') {
        s.push('/');
    }
    s
}

/// What a find returns.
#[derive(Debug)]
pub struct FindOutput {
    /// The first place that was looked at, relative to the working directory.
    pub scope_path: String,
    /// How many files are returned.
    pub file_count: usize,
    /// The files, relative to the working directory.
    pub files: Vec<String>,
    /// Whether the limit left some out.
    pub truncated: bool,
    /// The targets that are not there.
    pub missing_paths: Vec<String>,
    /// Whether a directory was walked.
    pub recursive_from_directory: bool,
}

/// The files that are returned: each path once, newest first, up to the limit.
pub open spec fn returned_files(hits: Seq<FoundView>, limit: nat) -> Seq<Seq<char>> {
    let sorted = sorted_found(distinct_paths(hits));
    let kept = if sorted.len() > limit {
        sorted.take(limit as int)
    } else {
        sorted
    };
    kept.map_values(|h: FoundView| shown_path(h.path, h.is_dir))
}

/// What a find returns of the files that it found.
pub fn finish_find(
    hits: Vec<FindHit>,
    limit: usize,
    scope_path: String,
    missing_paths: Vec<String>,
    recursive_from_directory: bool,
) -> (r: FindOutput)
    ensures
        views(r.files@) == returned_files(found_view(hits@), limit as nat),
        r.file_count == r.files@.len(),
        r.truncated == (distinct_paths(found_view(hits@)).len() > limit),
        r.scope_path == scope_path,
        r.missing_paths == missing_paths,
        r.recursive_from_directory == recursive_from_directory,
{
    let ghost hv = found_view(hits@);
    let unique = dedup_hits(hits);
    let ghost uv = distinct_paths(hv);
    assert(found_view(unique@).len() == unique@.len());
    let sorted = sort_hits(unique);
    let ghost sv = sorted_found(uv);
    let truncated = sorted.len() > limit;
    let n: usize = if truncated {
        limit
    } else {
        sorted.len()
    };
    let ghost want = returned_files(hv, limit as nat);
    let mut files: Vec<String> = Vec::new();
    let mut i: usize = 0;
    assert(found_view(sorted@).len() == sorted@.len());
    assert(want =~= sv.take(n as int).map_values(|h: FoundView| shown_path(h.path, h.is_dir))) by {
        if !truncated {
            assert(sv.take(n as int) =~= sv);
        }
    }
    while i < n
        invariant
            i <= n <= sorted@.len(),
            sv == found_view(sorted@),
            want == sv.take(n as int).map_values(|h: FoundView| shown_path(h.path, h.is_dir)),
            views(files@) == want.take(i as int),
        decreases n - i,
    {
        let ghost done = files@;
        assert(sv[i as int] == sorted@[i as int]@);
        let f = display_relative(sorted[i].path.as_str(), sorted[i].is_dir);
        files.push(f);
        assert(views(files@) =~= views(done).push(f@));
        i = i + 1;
    }
    assert(want.take(want.len() as int) =~= want);
    FindOutput {
        scope_path,
        file_count: files.len(),
        files,
        truncated,
        missing_paths,
        recursive_from_directory,
    }
}

impl FindOutput {
    /// The answer as JSON. That a directory was walked is said only where one was.
    pub open spec fn answer(&self) -> JsonView {
        JsonView::Object(
            object_of(
                seq![
                    ("scopePath"@, JsonView::String(self.scope_path@)),
                    ("fileCount"@, count_json(self.file_count as nat)),
                    ("files"@, texts_json(views(self.files@))),
                    ("truncated"@, JsonView::Bool(self.truncated)),
                    ("missingPaths"@, texts_json(views(self.missing_paths@))),
                ] + maybe(
                    "recursiveFromDirectory"@,
                    if self.recursive_from_directory {
                        Some(JsonView::Bool(true))
                    } else {
                        None
                    },
                ),
            ),
        )
    }

    /// The answer as JSON.
    pub fn to_json(&self) -> (r: Json)
        ensures
            r@ == self.answer(),
    {
        let mut pairs: Vec<(String, Json)> = Vec::new();
        pairs.push(entry("scopePath", str_to_json(self.scope_path.as_str())));
        pairs.push(entry("fileCount", count_to_json(self.file_count as u64)));
        pairs.push(entry("files", texts_to_json(&self.files)));
        pairs.push(entry("truncated", Json::Bool(self.truncated)));
        pairs.push(entry("missingPaths", texts_to_json(&self.missing_paths)));
        assert(members_view(pairs@) =~= seq![
            ("scopePath"@, JsonView::String(self.scope_path@)),
            ("fileCount"@, count_json(self.file_count as nat)),
            ("files"@, texts_json(views(self.files@))),
            ("truncated"@, JsonView::Bool(self.truncated)),
            ("missingPaths"@, texts_json(views(self.missing_paths@))),
        ]);
        let walked = if self.recursive_from_directory {
            Some(Json::Bool(true))
        } else {
            None
        };
        add_maybe(&mut pairs, "recursiveFromDirectory", walked);
        build_object(pairs)
    }
}

// ---------------------------------------------------------------------------
// Lists of paths
// ---------------------------------------------------------------------------

/// The components of each path of a list.
pub open spec fn paths_view(v: Seq<Vec<String>>) -> Seq<Seq<Seq<char>>> {
    v.map_values(|p: Vec<String>| views(p@))
}

/// One of the chosen positions has this path.
pub open spec fn chooses(paths: Seq<Seq<Seq<char>>>, r: Seq<usize>, path: Seq<Seq<char>>) -> bool {
    exists|i: int| 0 <= i < r.len() && paths[#[trigger] r[i] as int] == path
}

/// The chosen positions are positions of the list, and their paths come in order, each once.
pub open spec fn strictly_ordered(paths: Seq<Seq<Seq<char>>>, r: Seq<usize>) -> bool {
    &&& forall|i: int| 0 <= i < r.len() ==> #[trigger] r[i] < paths.len()
    &&& forall|i: int, j: int|
        0 <= i < j < r.len() ==> path_before(
            paths[#[trigger] r[i] as int],
            paths[#[trigger] r[j] as int],
        )
}

/// Positions of a list at which each of its paths stands once, in the order of the paths.
pub fn arrange_paths(paths: &Vec<Vec<String>>) -> (r: Vec<usize>)
    ensures
        strictly_ordered(paths_view(paths@), r@),
        forall|k: int|
            0 <= k < paths@.len() ==> chooses(
                paths_view(paths@),
                r@,
                #[trigger] paths_view(paths@)[k],
            ),
{
    let ghost all = paths_view(paths@);
    let n = paths.len();
    let mut r: Vec<usize> = Vec::new();
    let mut k: usize = 0;
    while k < n
        invariant
            k <= n,
            n == paths@.len(),
            all == paths_view(paths@),
            strictly_ordered(all, r@),
            forall|q: int| 0 <= q < k ==> chooses(all, r@, #[trigger] all[q]),
        decreases n - k,
    {
        let ghost x = all[k as int];
        assert(x == views(paths@[k as int]@));
        let mut p: usize = 0;
        while p < r.len() && path_comes_before(&paths[r[p]], &paths[k])
            invariant
                p <= r@.len(),
                k < n,
                n == paths@.len(),
                all == paths_view(paths@),
                x == views(paths@[k as int]@),
                strictly_ordered(all, r@),
                forall|q: int| 0 <= q < p ==> path_before(all[#[trigger] r@[q] as int], x),
            decreases r@.len() - p,
        {
            assert(all[r@[p as int] as int] == views(paths@[r@[p as int] as int]@));
            p = p + 1;
        }
        let ghost before = r@;
        if p < r.len() && same_path(&paths[r[p]], &paths[k]) {
            assert(all[r@[p as int] as int] == x);
            assert(chooses(all, r@, x));
        } else {
            proof {
                if p < before.len() {
                    let y = all[before[p as int] as int];
                    assert(y == views(paths@[before[p as int] as int]@));
                    lemma_path_before(y, x);
                    assert forall|q: int| p <= q < before.len() implies path_before(
                        x,
                        all[#[trigger] before[q] as int],
                    ) by {
                        if q > p {
                            lemma_path_before_transitive(x, y, all[before[q] as int]);
                        }
                    }
                }
            }
            r.insert(p, k);
            proof {
                assert(r@ =~= before.insert(p as int, k));
                assert forall|i: int, j: int| 0 <= i < j < r@.len() implies path_before(
                    all[#[trigger] r@[i] as int],
                    all[#[trigger] r@[j] as int],
                ) by {
                    let a = if i < p { i } else { i - 1 };
                    let b = if j < p { j } else { j - 1 };
                    if i != p {
                        assert(r@[i] == before[a]);
                    }
                    if j != p {
                        assert(r@[j] == before[b]);
                    }
                }
                assert forall|q: int| 0 <= q < k implies chooses(all, r@, #[trigger] all[q]) by {
                    assert(chooses(all, before, all[q]));
                    let i = choose|i: int|
                        0 <= i < before.len() && all[#[trigger] before[i] as int] == all[q];
                    let j = if i < p { i } else { i + 1 };
                    assert(r@[j] == before[i]);
                }
                assert(r@[p as int] == k);
                assert(chooses(all, r@, x));
            }
        }
        k = k + 1;
    }
    r
}

/// Two arrangements of one list give the same paths in the same order.
pub proof fn law_arrangement_is_unique(paths: Seq<Seq<Seq<char>>>, a: Seq<usize>, b: Seq<usize>)
    requires
        strictly_ordered(paths, a),
        strictly_ordered(paths, b),
        forall|k: int| 0 <= k < paths.len() ==> chooses(paths, a, #[trigger] paths[k]),
        forall|k: int| 0 <= k < paths.len() ==> chooses(paths, b, #[trigger] paths[k]),
    ensures
        a.len() == b.len(),
        forall|i: int| 0 <= i < a.len() ==> paths[#[trigger] a[i] as int] == paths[b[i] as int],
{
    lemma_arranged_prefix(paths, a, b, a.len() as int);
    lemma_arranged_prefix(paths, b, a, b.len() as int);
}

proof fn lemma_arranged_prefix(
    paths: Seq<Seq<Seq<char>>>,
    a: Seq<usize>,
    b: Seq<usize>,
    n: int,
)
    requires
        0 <= n <= a.len(),
        strictly_ordered(paths, a),
        strictly_ordered(paths, b),
        forall|k: int| 0 <= k < paths.len() ==> chooses(paths, a, #[trigger] paths[k]),
        forall|k: int| 0 <= k < paths.len() ==> chooses(paths, b, #[trigger] paths[k]),
    ensures
        n <= b.len(),
        forall|i: int| 0 <= i < n ==> paths[#[trigger] a[i] as int] == paths[b[i] as int],
    decreases n,
{
    if n > 0 {
        lemma_arranged_prefix(paths, a, b, n - 1);
        let m = n - 1;
        let x = paths[a[m] as int];
        assert(chooses(paths, b, x));
        let q = choose|q: int| 0 <= q < b.len() && paths[#[trigger] b[q] as int] == x;
        if q < m {
            assert(paths[a[q] as int] == paths[b[q] as int]);
            assert(path_before(paths[a[q] as int], paths[a[m] as int]));
            lemma_path_before(x, x);
        }
        assert(m < b.len());
        let y = paths[b[m] as int];
        if q > m {
            assert(path_before(paths[b[m] as int], paths[b[q] as int]));
            assert(chooses(paths, a, y));
            let w = choose|w: int| 0 <= w < a.len() && paths[#[trigger] a[w] as int] == y;
            lemma_path_before(y, x);
            if w > m {
                assert(path_before(paths[a[m] as int], paths[a[w] as int]));
            } else if w < m {
                assert(paths[a[w] as int] == paths[b[w] as int]);
                assert(path_before(paths[b[w] as int], paths[b[m] as int]));
                lemma_path_before(y, y);
            }
        }
    }
}

/// No more files are returned than the limit allows, and no fewer than there are below it.
pub proof fn law_limit_is_kept(hits: Seq<FoundView>, limit: nat)
    ensures
        returned_files(hits, limit).len() == if distinct_paths(hits).len() > limit {
            limit
        } else {
            distinct_paths(hits).len()
        },
{
    law_sorted_found(distinct_paths(hits));
}

/// The files that are returned are the first of all that were found, each path once, when they
/// are put in order: the newest first, and those of one time by their paths.
pub proof fn law_newest_are_returned(hits: Seq<FoundView>, limit: nat)
    ensures
        exists|all: Seq<FoundView>|
            {
                &&& #[trigger] all.to_multiset() == distinct_paths(hits).to_multiset()
                &&& returned_files(hits, limit).len() <= limit
                &&& returned_files(hits, limit).len() <= all.len()
                &&& returned_files(hits, limit).len() < limit ==> returned_files(
                    hits,
                    limit,
                ).len() == all.len()
                &&& forall|i: int|
                    0 <= i < returned_files(hits, limit).len() ==> #[trigger] returned_files(
                        hits,
                        limit,
                    )[i] == shown_path(all[i].path, all[i].is_dir)
                &&& forall|i: int, j: int|
                    0 <= i < j < all.len() ==> (#[trigger] all[i]).mtime_ms >= (
                    #[trigger] all[j]).mtime_ms
                &&& forall|i: int, j: int|
                    0 <= i < j < all.len() && (#[trigger] all[i]).mtime_ms == (
                    #[trigger] all[j]).mtime_ms ==> !path_before(
                        all[j].components,
                        all[i].components,
                    )
            },
{
    let d = distinct_paths(hits);
    let all = sorted_found(d);
    law_sorted_found(d);
    assert forall|i: int, j: int| 0 <= i < j < all.len() implies (#[trigger] all[i]).mtime_ms >= (
    #[trigger] all[j]).mtime_ms by {
        assert(!found_before(all[j], all[i]));
    }
    assert forall|i: int, j: int|
        0 <= i < j < all.len() && (#[trigger] all[i]).mtime_ms == (
        #[trigger] all[j]).mtime_ms implies !path_before(all[j].components, all[i].components) by {
        assert(!found_before(all[j], all[i]));
    }
    assert(all.to_multiset() == d.to_multiset());
}

/// Of several hits with one path the first stays; a hit with a new path stays, behind the others.
pub proof fn law_first_of_a_path_stays(hits: Seq<FoundView>, h: FoundView)
    ensures
        (forall|i: int| 0 <= i < hits.len() ==> (#[trigger] hits[i]).components != h.components)
            ==> distinct_paths(hits.push(h)) == distinct_paths(hits).push(h),
        (exists|i: int| 0 <= i < hits.len() && (#[trigger] hits[i]).components == h.components)
            ==> distinct_paths(hits.push(h)) == distinct_paths(hits),
{
    assert(hits.push(h).drop_last() =~= hits);
    if exists|i: int| 0 <= i < hits.len() && (#[trigger] hits[i]).components == h.components {
        let i = choose|i: int| 0 <= i < hits.len() && (#[trigger] hits[i]).components
            == h.components;
        law_distinct_paths(hits, i, i);
    } else {
        lemma_distinct_is_part(hits, h.components);
    }
}

proof fn lemma_distinct_is_part(hits: Seq<FoundView>, components: Seq<Seq<char>>)
    requires
        forall|i: int| 0 <= i < hits.len() ==> (#[trigger] hits[i]).components != components,
    ensures
        !holds_path(distinct_paths(hits), components),
    decreases hits.len(),
{
    if hits.len() > 0 {
        let rest = hits.drop_last();
        assert forall|i: int| 0 <= i < rest.len() implies (#[trigger] rest[i]).components
            != components by {
            assert(rest[i] == hits[i]);
        }
        lemma_distinct_is_part(rest, components);
        assert(hits[hits.len() - 1].components != components);
        let d = distinct_paths(hits);
        if holds_path(d, components) {
            let k = choose|k: int| 0 <= k < d.len() && (#[trigger] d[k]).components == components;
            if k < distinct_paths(rest).len() {
                assert(distinct_paths(rest)[k].components == components);
            }
        }
    }
}

/// The path of a file is shown with slashes, and that of a directory with one more behind it.
pub proof fn law_shown_path(relative: Seq<char>)
    requires
        !relative.contains('\\'),
    ensures
        shown_path(relative, false) == relative,
        relative.len() > 0 && relative.last() != '/' ==> shown_path(relative, true)
            == relative.push('/'),
        relative.len() > 0 && relative.last() == '/' ==> shown_path(relative, true) == relative,
{
    assert(with_slashes(relative) =~= relative) by {
        assert forall|i: int| 0 <= i < relative.len() implies with_slashes(relative)[i]
            == relative[i] by {
            assert(relative.contains(relative[i]));
        }
    }
}

/// At most 200 files are returned, as many as asked for, and 200 where nothing is asked.
pub proof fn law_find_limit(input: JsonView, n: nat)
    ensures
        find_limit(input) <= 200,
        field(input, "limit"@) is None ==> find_limit(input) == 200,
        nat_in(field(input, "limit"@)) == Some(n) && n <= 200 ==> find_limit(input) == n,
        nat_in(field(input, "limit"@)) == Some(n) && n > 200 ==> find_limit(input) == 200,
{
}

/// A find is refused exactly without a list that holds a text, and with a limit of 0.
pub proof fn law_refused_finds(input: JsonView)
    ensures
        find_fault(input) is None <==> (field(input, "paths"@) matches Some(JsonView::Array(items))
            && (exists|i: int| 0 <= i < items.len() && #[trigger] items[i] is String)) && nat_in(
            field(input, "limit"@),
        ) != Some(0nat),
{
    if let Some(JsonView::Array(items)) = field(input, "paths"@) {
        let f = |j: JsonView|
            match j {
                JsonView::String(s) => Some(s),
                _ => None,
            };
        law_none_picked(items, f);
        if exists|i: int| 0 <= i < items.len() && #[trigger] items[i] is String {
            let i = choose|i: int| 0 <= i < items.len() && #[trigger] items[i] is String;
            assert(f(items[i]) is Some);
        }
        if texts_in(items).len() > 0 {
            let i = choose|i: int| 0 <= i < items.len() && f(#[trigger] items[i]) is Some;
            assert(items[i] is String);
        }
    }
}

/// What hidden names do: where all are kept, nothing; where hidden directories are skipped, a
/// file passes unless a name on the way to it starts with a dot; where all are skipped, unless
/// its own name does either.
pub proof fn law_hidden_names(dirs: Seq<Seq<char>>, name: Seq<char>)
    ensures
        ({
            let names = dirs.push(name);
            let hidden_way = exists|i: int|
                0 <= i < dirs.len() && (#[trigger] dirs[i]).len() > 0 && dirs[i][0] == '.';
            let hidden_name = name.len() > 0 && name[0] == '.';
            &&& passes_hidden(names, HiddenPolicy::Keep)
            &&& passes_hidden(names, HiddenPolicy::SkipDirectories) <==> !hidden_way
            &&& passes_hidden(names, HiddenPolicy::SkipAll) <==> !hidden_way && !hidden_name
        }),
{
    let names = dirs.push(name);
    let n = dirs.len() as int;
    let hidden_way = exists|i: int|
        0 <= i < dirs.len() && (#[trigger] dirs[i]).len() > 0 && dirs[i][0] == '.';
    if hidden_way {
        let i = choose|i: int|
            0 <= i < dirs.len() && (#[trigger] dirs[i]).len() > 0 && dirs[i][0] == '.';
        assert(is_hidden(names[i]));
    }
    if any_hidden(names, n) {
        let i = choose|i: int| 0 <= i < n && i < names.len() && is_hidden(#[trigger] names[i]);
        assert(dirs[i] == names[i]);
        assert(hidden_way);
    }
    if is_hidden(name) {
        assert(is_hidden(names[n]));
    }
    if any_hidden(names, n + 1) && !any_hidden(names, n) {
        let i = choose|i: int| 0 <= i < n + 1 && i < names.len() && is_hidden(#[trigger] names[i]);
        assert(i == n);
    }
}

/// Paths are ordered by their first names that differ, and a path comes before what is below it.
pub proof fn law_order_of_paths(
    p: Seq<Seq<char>>,
    a: Seq<char>,
    x: Seq<Seq<char>>,
    b: Seq<char>,
    y: Seq<Seq<char>>,
)
    requires
        a != b,
    ensures
        path_before(p + seq![a] + x, p + seq![b] + y) <==> before(a, b),
        path_before(p, p + seq![a] + x),
        !path_before(p + seq![a] + x, p),
    decreases p.len(),
{
    let s = p + seq![a] + x;
    let t = p + seq![b] + y;
    if p.len() == 0 {
        assert(s[0] == a && t[0] == b);
    } else {
        let q = p.drop_first();
        law_order_of_paths(q, a, x, b, y);
        assert(s.drop_first() =~= q + seq![a] + x);
        assert(t.drop_first() =~= q + seq![b] + y);
        assert(s[0] == p[0] && t[0] == p[0]);
    }
}

/// What is said of a find; that a directory was walked is said only where one was.
pub proof fn law_find_json(o: FindOutput)
    ensures
        field(o.answer(), "scopePath"@) == Some(JsonView::String(o.scope_path@)),
        field(o.answer(), "fileCount"@) == Some(count_json(o.file_count as nat)),
        field(o.answer(), "files"@) == Some(texts_json(views(o.files@))),
        field(o.answer(), "truncated"@) == Some(JsonView::Bool(o.truncated)),
        field(o.answer(), "missingPaths"@) == Some(texts_json(views(o.missing_paths@))),
        field(o.answer(), "recursiveFromDirectory"@) == if o.recursive_from_directory {
            Some(JsonView::Bool(true))
        } else {
            None
        },
{
    let pairs = seq![
        ("scopePath"@, JsonView::String(o.scope_path@)),
        ("fileCount"@, count_json(o.file_count as nat)),
        ("files"@, texts_json(views(o.files@))),
        ("truncated"@, JsonView::Bool(o.truncated)),
        ("missingPaths"@, texts_json(views(o.missing_paths@))),
    ] + maybe(
        "recursiveFromDirectory"@,
        if o.recursive_from_directory {
            Some(JsonView::Bool(true))
        } else {
            None
        },
    );
    reveal_strlit("scopePath");
    reveal_strlit("fileCount");
    reveal_strlit("files");
    reveal_strlit("truncated");
    reveal_strlit("missingPaths");
    reveal_strlit("recursiveFromDirectory");
    assert("scopePath"@.len() == 9);
    assert("fileCount"@.len() == 9);
    assert("files"@.len() == 5);
    assert("truncated"@.len() == 9);
    assert("missingPaths"@.len() == 12);
    assert("recursiveFromDirectory"@.len() == 22);
    assert("scopePath"@[0] != "fileCount"@[0]);
    assert("scopePath"@[0] != "truncated"@[0]);
    assert("fileCount"@[0] != "truncated"@[0]);
    law_object_holds(pairs, 0, "scopePath"@);
    law_object_holds(pairs, 1, "fileCount"@);
    law_object_holds(pairs, 2, "files"@);
    law_object_holds(pairs, 3, "truncated"@);
    law_object_holds(pairs, 4, "missingPaths"@);
    law_object_holds(pairs, 5, "recursiveFromDirectory"@);
}

} // verus!
