//! Error types for the tool runtime.
use vstd::prelude::*;

use crate::text::join_strings;
use crate::text::push_decimal;
use crate::text::str_before;

verus! {

/// Result alias used throughout the crate.
pub type ToolResult<T> = Result<T, ToolError>;

/// How many names an error message lists at most.
pub const MAX_LISTED: usize = 24;

/// A single failing field, carried inside `ToolError::Validation`.
#[derive(Debug, Clone)]
pub struct ValidationIssue {
    /// JSON-style path.
    pub path: String,
    /// Human-readable message.
    pub message: String,
}

/// What can go wrong while tools are registered, resolved and run.
#[derive(Debug)]
pub enum ToolError {
    /// Tool was not found in the registry. `available` lists the names that are there, so
    /// that the caller can correct itself; empty where no snapshot was at hand.
    ToolNotFound {
        /// The name that was asked for.
        name: String,
        /// The names that are registered.
        available: Vec<String>,
    },
    /// A tool with this name is already registered.
    ToolAlreadyExists(String),
    /// A package with this name is already registered.
    PackageAlreadyExists(String),
    /// Package was not found in the registry.
    PackageNotFound(String),
    /// Tool execution failed.
    ToolExecution {
        /// Tool name.
        tool_name: String,
        /// Attempt number (1-based).
        attempt: u32,
        /// Display-friendly message of what went wrong.
        source_string: String,
    },
    /// Tool execution exceeded its timeout.
    ToolTimeout {
        /// Tool name.
        tool_name: String,
        /// Timeout in milliseconds.
        timeout_ms: u64,
    },
    /// Missing package dependency.
    Dependency {
        /// Package that needs them.
        package_name: String,
        /// Missing dependency names.
        missing: Vec<String>,
    },
    /// Validation failed (with structured details).
    Validation {
        /// Top-level message.
        summary: String,
        /// Per-field issues.
        errors: Vec<ValidationIssue>,
    },
    /// A handler reference could not be resolved.
    HandlerResolution {
        /// Tool name.
        tool_name: String,
        /// Why resolution failed.
        reason: String,
    },
    /// Operation attempted on a destroyed manager.
    ManagerDestroyed,
    /// Generic configuration error.
    Configuration(String),
    /// Catch-all I/O error, by its message.
    Io(String),
    /// Catch-all serialization error, by its message.
    Serde(String),
    /// Catch-all unknown / user-supplied error.
    Other(String),
}

/// What went wrong in a tool, as a text.
#[derive(Debug, Clone)]
pub struct ToolErrorSource(pub String);

impl From<String> for ToolErrorSource {
    fn from(message: String) -> (r: Self) {
        ToolErrorSource(message)
    }
}

impl vstd::std_specs::convert::FromSpecImpl<String> for ToolErrorSource {
    open spec fn obeys_from_spec() -> bool {
        true
    }

    open spec fn from_spec(message: String) -> Self {
        ToolErrorSource(message)
    }
}

impl From<String> for ToolError {
    fn from(message: String) -> (r: Self) {
        ToolError::Other(message)
    }
}

impl vstd::std_specs::convert::FromSpecImpl<String> for ToolError {
    open spec fn obeys_from_spec() -> bool {
        true
    }

    open spec fn from_spec(message: String) -> Self {
        ToolError::Other(message)
    }
}

/// The model of a `ToolError`.
pub enum ErrorView {
    /// Tool was not found.
    ToolNotFound {
        /// The name that was asked for.
        name: Seq<char>,
        /// The names that are registered.
        available: Seq<Seq<char>>,
    },
    /// A tool with this name is already registered.
    ToolAlreadyExists(Seq<char>),
    /// A package with this name is already registered.
    PackageAlreadyExists(Seq<char>),
    /// Package was not found.
    PackageNotFound(Seq<char>),
    /// Tool execution failed.
    ToolExecution {
        /// Tool name.
        tool_name: Seq<char>,
        /// Attempt number.
        attempt: nat,
        /// What went wrong.
        source_string: Seq<char>,
    },
    /// Tool execution exceeded its timeout.
    ToolTimeout {
        /// Tool name.
        tool_name: Seq<char>,
        /// Timeout in milliseconds.
        timeout_ms: nat,
    },
    /// Missing package dependency.
    Dependency {
        /// Package that needs them.
        package_name: Seq<char>,
        /// Missing dependency names.
        missing: Seq<Seq<char>>,
    },
    /// Validation failed.
    Validation {
        /// Top-level message.
        summary: Seq<char>,
        /// Path and message of each issue.
        errors: Seq<(Seq<char>, Seq<char>)>,
    },
    /// A handler reference could not be resolved.
    HandlerResolution {
        /// Tool name.
        tool_name: Seq<char>,
        /// Why resolution failed.
        reason: Seq<char>,
    },
    /// Operation attempted on a destroyed manager.
    ManagerDestroyed,
    /// Configuration error.
    Configuration(Seq<char>),
    /// I/O error.
    Io(Seq<char>),
    /// Serialization error.
    Serde(Seq<char>),
    /// Any other error.
    Other(Seq<char>),
}

/// Path and message of each issue.
pub open spec fn issues_view(v: Seq<ValidationIssue>) -> Seq<(Seq<char>, Seq<char>)> {
    v.map_values(|i: ValidationIssue| (i.path@, i.message@))
}

impl View for ToolError {
    type V = ErrorView;

    open spec fn view(&self) -> ErrorView {
        match *self {
            ToolError::ToolNotFound { name, available } => ErrorView::ToolNotFound {
                name: name@,
                available: crate::text::views(available@),
            },
            ToolError::ToolAlreadyExists(n) => ErrorView::ToolAlreadyExists(n@),
            ToolError::PackageAlreadyExists(n) => ErrorView::PackageAlreadyExists(n@),
            ToolError::PackageNotFound(n) => ErrorView::PackageNotFound(n@),
            ToolError::ToolExecution { tool_name, attempt, source_string } => ErrorView::ToolExecution {
                tool_name: tool_name@,
                attempt: attempt as nat,
                source_string: source_string@,
            },
            ToolError::ToolTimeout { tool_name, timeout_ms } => ErrorView::ToolTimeout {
                tool_name: tool_name@,
                timeout_ms: timeout_ms as nat,
            },
            ToolError::Dependency { package_name, missing } => ErrorView::Dependency {
                package_name: package_name@,
                missing: crate::text::views(missing@),
            },
            ToolError::Validation { summary, errors } => ErrorView::Validation {
                summary: summary@,
                errors: issues_view(errors@),
            },
            ToolError::HandlerResolution { tool_name, reason } => ErrorView::HandlerResolution {
                tool_name: tool_name@,
                reason: reason@,
            },
            ToolError::ManagerDestroyed => ErrorView::ManagerDestroyed,
            ToolError::Configuration(m) => ErrorView::Configuration(m@),
            ToolError::Io(m) => ErrorView::Io(m@),
            ToolError::Serde(m) => ErrorView::Serde(m@),
            ToolError::Other(m) => ErrorView::Other(m@),
        }
    }
}

// ---------------------------------------------------------------------------
// Sorted names
// ---------------------------------------------------------------------------

/// `sorted` with `x` put before the first text that comes after it.
pub open spec fn insert_sorted(sorted: Seq<Seq<char>>, x: Seq<char>) -> Seq<Seq<char>>
    decreases sorted.len(),
{
    if sorted.len() == 0 || !crate::text::before(x, sorted.last()) {
        sorted.push(x)
    } else {
        insert_sorted(sorted.drop_last(), x).push(sorted.last())
    }
}

/// The texts in ascending order.
pub open spec fn sort_texts(v: Seq<Seq<char>>) -> Seq<Seq<char>>
    decreases v.len(),
{
    if v.len() == 0 {
        Seq::empty()
    } else {
        insert_sorted(sort_texts(v.drop_last()), v.last())
    }
}

/// No text comes before one that stands ahead of it.
pub open spec fn in_order(v: Seq<Seq<char>>) -> bool {
    forall|i: int, j: int|
        0 <= i < j < v.len() ==> !crate::text::before(#[trigger] v[j], #[trigger] v[i])
}

proof fn lemma_insert_sorted(sorted: Seq<Seq<char>>, x: Seq<char>)
    requires
        in_order(sorted),
    ensures
        in_order(insert_sorted(sorted, x)),
        insert_sorted(sorted, x).to_multiset() == sorted.to_multiset().insert(x),
        insert_sorted(sorted, x).len() == sorted.len() + 1,
        forall|i: int|
            0 <= i < insert_sorted(sorted, x).len() ==> (#[trigger] insert_sorted(sorted, x)[i] == x
                || sorted.contains(insert_sorted(sorted, x)[i])),
    decreases sorted.len(),
{
    broadcast use vstd::seq_lib::group_to_multiset_ensures;

    let r = insert_sorted(sorted, x);
    if sorted.len() == 0 {
        assert(in_order(r));
    } else if !crate::text::before(x, sorted.last()) {
        assert forall|i: int, j: int| 0 <= i < j < r.len() implies !crate::text::before(
            #[trigger] r[j],
            #[trigger] r[i],
        ) by {
            if j == sorted.len() {
                let last = sorted.last();
                if crate::text::before(x, r[i]) && i < sorted.len() - 1 {
                    assert(sorted[i] == r[i]);
                    crate::text::lemma_before_total(r[i], last);
                    if r[i] != last {
                        crate::text::lemma_before_transitive(x, r[i], last);
                    }
                }
            } else {
                assert(r[i] == sorted[i] && r[j] == sorted[j]);
            }
        }
        assert forall|i: int| 0 <= i < r.len() implies (#[trigger] r[i] == x || sorted.contains(
            r[i],
        )) by {
            if i < sorted.len() {
                assert(r[i] == sorted[i]);
            }
        }
    } else {
        let t = sorted.drop_last();
        let last = sorted.last();
        assert(in_order(t)) by {
            assert forall|i: int, j: int| 0 <= i < j < t.len() implies !crate::text::before(
                #[trigger] t[j],
                #[trigger] t[i],
            ) by {
                assert(t[i] == sorted[i] && t[j] == sorted[j]);
            }
        }
        lemma_insert_sorted(t, x);
        let q = insert_sorted(t, x);
        assert(r == q.push(last));
        assert(sorted == t.push(last));
        assert forall|i: int, j: int| 0 <= i < j < r.len() implies !crate::text::before(
            #[trigger] r[j],
            #[trigger] r[i],
        ) by {
            if j == q.len() {
                assert(r[i] == q[i]);
                if q[i] == x {
                    crate::text::lemma_before_total(x, last);
                } else {
                    let k = choose|k: int| 0 <= k < t.len() && t[k] == q[i];
                    assert(t[k] == sorted[k]);
                }
            } else {
                assert(r[i] == q[i] && r[j] == q[j]);
            }
        }
        assert forall|i: int| 0 <= i < r.len() implies (#[trigger] r[i] == x || sorted.contains(
            r[i],
        )) by {
            if i < q.len() {
                assert(r[i] == q[i]);
                if q[i] != x {
                    let k = choose|k: int| 0 <= k < t.len() && t[k] == q[i];
                    assert(sorted[k] == q[i]);
                }
            } else {
                assert(sorted[sorted.len() - 1] == r[i]);
            }
        }
        assert(r.to_multiset() =~= sorted.to_multiset().insert(x));
    }
}

/// Sorting puts the texts in ascending order, and neither adds nor loses one.
pub proof fn law_sort_texts(v: Seq<Seq<char>>)
    ensures
        in_order(sort_texts(v)),
        sort_texts(v).to_multiset() == v.to_multiset(),
        sort_texts(v).len() == v.len(),
    decreases v.len(),
{
    broadcast use vstd::seq_lib::group_to_multiset_ensures;

    if v.len() > 0 {
        law_sort_texts(v.drop_last());
        lemma_insert_sorted(sort_texts(v.drop_last()), v.last());
        assert(v == v.drop_last().push(v.last()));
    } else {
        assert(sort_texts(v) == v);
    }
}

proof fn lemma_insert_sorted_at(sorted: Seq<Seq<char>>, x: Seq<char>, p: int)
    requires
        0 <= p <= sorted.len(),
        p > 0 ==> !crate::text::before(x, sorted[p - 1]),
        forall|i: int| p <= i < sorted.len() ==> crate::text::before(x, #[trigger] sorted[i]),
    ensures
        insert_sorted(sorted, x) == sorted.insert(p, x),
    decreases sorted.len(),
{
    if p == sorted.len() {
        assert(sorted.push(x) == sorted.insert(p, x));
    } else {
        assert(crate::text::before(x, sorted[sorted.len() - 1]));
        let t = sorted.drop_last();
        assert forall|i: int| p <= i < t.len() implies crate::text::before(x, #[trigger] t[i]) by {
            assert(t[i] == sorted[i]);
        }
        lemma_insert_sorted_at(t, x, p);
        assert(t.insert(p, x).push(sorted.last()) == sorted.insert(p, x));
    }
}

/// The texts in ascending order, by code point.
pub fn sort_strings(v: &Vec<String>) -> (r: Vec<String>)
    ensures
        crate::text::views(r@) == sort_texts(crate::text::views(v@)),
        r@.len() == v@.len(),
{
    let ghost all = crate::text::views(v@);
    let mut r: Vec<String> = Vec::new();
    let mut i: usize = 0;
    assert(crate::text::views(r@) == sort_texts(all.take(0)));
    while i < v.len()
        invariant
            i <= v@.len(),
            r@.len() == i,
            all == crate::text::views(v@),
            crate::text::views(r@) == sort_texts(all.take(i as int)),
        decreases v@.len() - i,
    {
        let x = v[i].clone();
        let mut p: usize = r.len();
        let ghost rv = crate::text::views(r@);
        while p > 0 && str_before(x.as_str(), r[p - 1].as_str())
            invariant
                p <= r@.len(),
                rv == crate::text::views(r@),
                forall|k: int| p <= k < r@.len() ==> crate::text::before(x@, #[trigger] rv[k]),
            decreases p,
        {
            assert(rv[p - 1] == r@[p - 1]@);
            p = p - 1;
        }
        proof {
            if p > 0 {
                assert(rv[p - 1] == r@[p - 1]@);
            }
            lemma_insert_sorted_at(rv, x@, p as int);
            assert(all.take(i + 1).drop_last() == all.take(i as int));
            assert(all.take(i + 1).last() == x@);
        }
        let ghost xv = x@;
        r.insert(p, x);
        assert(crate::text::views(r@) == rv.insert(p as int, xv));
        i = i + 1;
    }
    assert(all.take(all.len() as int) == all);
    r
}

// ---------------------------------------------------------------------------
// Messages
// ---------------------------------------------------------------------------

/// What `ToolNotFound` says of the names that are there: nothing where none is known, else
/// the first of them in order, with a note on how many were left out.
pub open spec fn available_suffix(available: Seq<Seq<char>>) -> Seq<char> {
    if available.len() == 0 {
        Seq::empty()
    } else {
        let names = sort_texts(available);
        let shown = if names.len() < MAX_LISTED {
            names.len() as int
        } else {
            MAX_LISTED as int
        };
        let more = if names.len() > shown {
            " …（另有 "@ + crate::text::decimal((names.len() - shown) as nat) + " 个）"@
        } else {
            Seq::empty()
        };
        " — 可用工具："@ + crate::text::join(names.take(shown), ", "@) + more
            + "。请从这个列表里挑一个重试，不要再猜别的名字"@
    }
}

fn fmt_available(available: &Vec<String>) -> (r: String)
    ensures
        r@ == available_suffix(crate::text::views(available@)),
{
    if available.len() == 0 {
        let r = String::new();
        assert(r@ == Seq::<char>::empty());
        return r;
    }
    let names = sort_strings(available);
    let shown: usize = if names.len() < MAX_LISTED {
        names.len()
    } else {
        MAX_LISTED
    };
    let mut head: Vec<String> = Vec::new();
    let mut i: usize = 0;
    while i < shown
        invariant
            i <= shown <= names@.len(),
            head@ == names@.take(i as int),
        decreases shown - i,
    {
        head.push(names[i].clone());
        i = i + 1;
    }
    assert(crate::text::views(head@) == crate::text::views(names@).take(shown as int));
    let mut s = String::from_str(" — 可用工具：");
    s.append(join_strings(&head, ", ").as_str());
    if names.len() > shown {
        s.append(" …（另有 ");
        push_decimal(&mut s, (names.len() - shown) as u64);
        s.append(" 个）");
    }
    s.append("。请从这个列表里挑一个重试，不要再猜别的名字");
    proof {
        law_sort_texts(crate::text::views(available@));
    }
    assert(s@ == available_suffix(crate::text::views(available@)));
    s
}

/// The text that `{:?}` gives for a string: quoted, with escapes.
pub uninterp spec fn debug_text(s: Seq<char>) -> Seq<char>;

/// `format!` with `{:?}` on a `str`: the quoted and escaped text, which depends on `s` alone.
#[verifier::external_body]
pub(crate) fn debug_str(s: &str) -> (r: String)
    ensures
        r@ == debug_text(s@),
{
    format!("{:?}", s)
}

/// A list of texts as `{:?}` shows it.
pub open spec fn debug_list(v: Seq<Seq<char>>) -> Seq<char> {
    "["@ + crate::text::join(v.map_values(|s: Seq<char>| debug_text(s)), ", "@) + "]"@
}

/// A list of texts, each quoted, in square brackets.
pub fn debug_strings(v: &Vec<String>) -> (r: String)
    ensures
        r@ == debug_list(crate::text::views(v@)),
{
    let mut quoted: Vec<String> = Vec::new();
    let mut i: usize = 0;
    let ghost all = crate::text::views(v@).map_values(|s: Seq<char>| debug_text(s));
    while i < v.len()
        invariant
            i <= v@.len(),
            all == crate::text::views(v@).map_values(|s: Seq<char>| debug_text(s)),
            crate::text::views(quoted@) == all.take(i as int),
        decreases v@.len() - i,
    {
        let ghost before = quoted@;
        let q = debug_str(v[i].as_str());
        quoted.push(q);
        assert(crate::text::views(quoted@) == crate::text::views(before).push(q@));
        i = i + 1;
    }
    assert(all.take(all.len() as int) == all);
    let mut r = String::from_str("[");
    r.append(join_strings(&quoted, ", ").as_str());
    r.append("]");
    r
}

/// The text that is shown for an error.
pub open spec fn error_message(e: ErrorView) -> Seq<char> {
    match e {
        ErrorView::ToolNotFound { name, available } => "Tool not found: "@ + name
            + available_suffix(available),
        ErrorView::ToolAlreadyExists(n) => "Tool already exists: "@ + n,
        ErrorView::PackageAlreadyExists(n) => "Package already registered: "@ + n,
        ErrorView::PackageNotFound(n) => "Package not found: "@ + n,
        ErrorView::ToolExecution { tool_name, attempt, source_string } => "Tool execution failed: "@
            + tool_name + " (attempt "@ + crate::text::decimal(attempt) + "): "@ + source_string,
        ErrorView::ToolTimeout { tool_name, timeout_ms } => "Tool execution timeout: "@ + tool_name
            + " ("@ + crate::text::decimal(timeout_ms) + "ms)"@,
        ErrorView::Dependency { package_name, missing } => "Missing dependencies for package "@
            + package_name + ": "@ + debug_list(missing),
        ErrorView::Validation { summary, .. } => "Validation failed: "@ + summary,
        ErrorView::HandlerResolution { tool_name, reason } => "Failed to resolve handler for "@
            + tool_name + ": "@ + reason,
        ErrorView::ManagerDestroyed => "ToolManager has been destroyed"@,
        ErrorView::Configuration(m) => "Configuration error: "@ + m,
        ErrorView::Io(m) => "I/O error: "@ + m,
        ErrorView::Serde(m) => "Serialization error: "@ + m,
        ErrorView::Other(m) => m,
    }
}

impl ValidationIssue {
    /// The issue as one line of text.
    pub fn to_string(&self) -> (r: String)
        ensures
            r@ == self.path@ + ": "@ + self.message@,
    {
        let mut r = self.path.clone();
        r.append(": ");
        r.append(self.message.as_str());
        r
    }
}

impl ToolError {
    /// The text that is shown for this error.
    pub fn to_string(&self) -> (r: String)
        ensures
            r@ == error_message(self@),
    {
        match self {
            ToolError::ToolNotFound { name, available } => {
                let mut r = String::from_str("Tool not found: ");
                r.append(name.as_str());
                r.append(fmt_available(available).as_str());
                r
            },
            ToolError::ToolAlreadyExists(n) => {
                let mut r = String::from_str("Tool already exists: ");
                r.append(n.as_str());
                r
            },
            ToolError::PackageAlreadyExists(n) => {
                let mut r = String::from_str("Package already registered: ");
                r.append(n.as_str());
                r
            },
            ToolError::PackageNotFound(n) => {
                let mut r = String::from_str("Package not found: ");
                r.append(n.as_str());
                r
            },
            ToolError::ToolExecution { tool_name, attempt, source_string } => {
                let mut r = String::from_str("Tool execution failed: ");
                r.append(tool_name.as_str());
                r.append(" (attempt ");
                push_decimal(&mut r, *attempt as u64);
                r.append("): ");
                r.append(source_string.as_str());
                r
            },
            ToolError::ToolTimeout { tool_name, timeout_ms } => {
                let mut r = String::from_str("Tool execution timeout: ");
                r.append(tool_name.as_str());
                r.append(" (");
                push_decimal(&mut r, *timeout_ms);
                r.append("ms)");
                r
            },
            ToolError::Dependency { package_name, missing } => {
                let mut r = String::from_str("Missing dependencies for package ");
                r.append(package_name.as_str());
                r.append(": ");
                r.append(debug_strings(missing).as_str());
                r
            },
            ToolError::Validation { summary, .. } => {
                let mut r = String::from_str("Validation failed: ");
                r.append(summary.as_str());
                r
            },
            ToolError::HandlerResolution { tool_name, reason } => {
                let mut r = String::from_str("Failed to resolve handler for ");
                r.append(tool_name.as_str());
                r.append(": ");
                r.append(reason.as_str());
                r
            },
            ToolError::ManagerDestroyed => String::from_str("ToolManager has been destroyed"),
            ToolError::Configuration(m) => {
                let mut r = String::from_str("Configuration error: ");
                r.append(m.as_str());
                r
            },
            ToolError::Io(m) => {
                let mut r = String::from_str("I/O error: ");
                r.append(m.as_str());
                r
            },
            ToolError::Serde(m) => {
                let mut r = String::from_str("Serialization error: ");
                r.append(m.as_str());
                r
            },
            ToolError::Other(m) => m.clone(),
        }
    }

    /// Construct a `ToolExecution` error for a first attempt, from what went wrong in it.
    pub fn execution(tool_name: &str, source: &ToolErrorSource) -> (r: Self)
        ensures
            r@ == (ErrorView::ToolExecution {
                tool_name: tool_name@,
                attempt: 1,
                source_string: source.0@,
            }),
    {
        ToolError::execution_str(tool_name, source.0.as_str())
    }

    /// Construct a `ToolExecution` error for a first attempt, from a plain message.
    pub fn execution_str(tool_name: &str, message: &str) -> (r: Self)
        ensures
            r@ == (ErrorView::ToolExecution {
                tool_name: tool_name@,
                attempt: 1,
                source_string: message@,
            }),
    {
        ToolError::ToolExecution {
            tool_name: String::from_str(tool_name),
            attempt: 1,
            source_string: String::from_str(message),
        }
    }

    /// Construct a `ToolTimeout` error, with the timeout in milliseconds.
    pub fn timeout(tool_name: &str, timeout_ms: u64) -> (r: Self)
        ensures
            r@ == (ErrorView::ToolTimeout { tool_name: tool_name@, timeout_ms: timeout_ms as nat }),
    {
        ToolError::ToolTimeout { tool_name: String::from_str(tool_name), timeout_ms }
    }

    /// Construct a `HandlerResolution` error.
    pub fn handler(tool_name: &str, reason: &str) -> (r: Self)
        ensures
            r@ == (ErrorView::HandlerResolution { tool_name: tool_name@, reason: reason@ }),
    {
        ToolError::HandlerResolution {
            tool_name: String::from_str(tool_name),
            reason: String::from_str(reason),
        }
    }

    /// Construct a `Validation` error.
    pub fn validation(summary: &str, errors: Vec<ValidationIssue>) -> (r: Self)
        ensures
            r@ == (ErrorView::Validation { summary: summary@, errors: issues_view(errors@) }),
    {
        ToolError::Validation { summary: String::from_str(summary), errors }
    }

    /// Construct a `Dependency` error.
    pub fn dependency(package_name: &str, missing: Vec<String>) -> (r: Self)
        ensures
            r@ == (ErrorView::Dependency {
                package_name: package_name@,
                missing: crate::text::views(missing@),
            }),
    {
        ToolError::Dependency { package_name: String::from_str(package_name), missing }
    }

    /// Construct a generic `Other` error.
    pub fn other(message: &str) -> (r: Self)
        ensures
            r@ == ErrorView::Other(message@),
    {
        ToolError::Other(String::from_str(message))
    }

    /// Tool not found.
    pub fn tool_not_found(name: &str) -> (r: Self)
        ensures
            r@ == (ErrorView::ToolNotFound { name: name@, available: Seq::empty() }),
    {
        let r = ToolError::ToolNotFound { name: String::from_str(name), available: Vec::new() };
        assert(r@->ToolNotFound_available =~= Seq::<Seq<char>>::empty());
        r
    }

    /// Tool not found, with the names that are registered.
    pub fn tool_not_found_with_available(name: &str, available: Vec<String>) -> (r: Self)
        ensures
            r@ == (ErrorView::ToolNotFound {
                name: name@,
                available: crate::text::views(available@),
            }),
    {
        ToolError::ToolNotFound { name: String::from_str(name), available }
    }

    /// Tool already exists.
    pub fn tool_already_exists(name: &str) -> (r: Self)
        ensures
            r@ == ErrorView::ToolAlreadyExists(name@),
    {
        ToolError::ToolAlreadyExists(String::from_str(name))
    }

    /// Package not found.
    pub fn package_not_found(name: &str) -> (r: Self)
        ensures
            r@ == ErrorView::PackageNotFound(name@),
    {
        ToolError::PackageNotFound(String::from_str(name))
    }

    /// Package already exists.
    pub fn package_already_exists(name: &str) -> (r: Self)
        ensures
            r@ == ErrorView::PackageAlreadyExists(name@),
    {
        ToolError::PackageAlreadyExists(String::from_str(name))
    }

    /// Configuration error.
    pub fn config(message: &str) -> (r: Self)
        ensures
            r@ == ErrorView::Configuration(message@),
    {
        ToolError::Configuration(String::from_str(message))
    }
}

/// A name that is not found is told with the names there are: those of at most 24 tools, in order,
/// and how many more there are.
pub proof fn law_available_names(available: Seq<Seq<char>>)
    requires
        available.len() > 0,
    ensures
        ({
            let n = if available.len() < 24 {
                available.len() as int
            } else {
                24int
            };
            exists|names: Seq<Seq<char>>|
                {
                    &&& #[trigger] names.to_multiset() == available.to_multiset()
                    &&& forall|i: int, j: int|
                        0 <= i < j < names.len() ==> !crate::text::before(
                            #[trigger] names[j],
                            #[trigger] names[i],
                        )
                    &&& available.len() <= 24 ==> available_suffix(available)
                        == " — 可用工具："@ + crate::text::join(names, ", "@)
                        + "。请从这个列表里挑一个重试，不要再猜别的名字"@
                    &&& available.len() > 24 ==> available_suffix(available)
                        == " — 可用工具："@ + crate::text::join(names.take(n), ", "@)
                        + (" …（另有 "@ + crate::text::decimal((available.len() - n) as nat)
                        + " 个）"@)
                        + "。请从这个列表里挑一个重试，不要再猜别的名字"@
                }
        }),
{
    let names = sort_texts(available);
    law_sort_texts(available);
    assert(names.take(names.len() as int) =~= names);
    let none = Seq::<char>::empty();
    let head = " — 可用工具："@ + crate::text::join(names, ", "@);
    assert(head + none =~= head);
    assert(names.to_multiset() == available.to_multiset());
}

/// Nothing is added where there are no names.
pub proof fn law_no_names()
    ensures
        available_suffix(Seq::empty()).len() == 0,
{
}

/// A message says what went wrong and names what it went wrong with.
pub proof fn law_messages(
    name: Seq<char>,
    what: Seq<char>,
    n: nat,
    names: Seq<Seq<char>>,
    errors: Seq<(Seq<char>, Seq<char>)>,
)
    ensures
        error_message(ErrorView::ToolNotFound { name, available: names }) == "Tool not found: "@
            + name + available_suffix(names),
        error_message(ErrorView::ToolAlreadyExists(name)) == "Tool already exists: "@ + name,
        error_message(ErrorView::PackageAlreadyExists(name)) == "Package already registered: "@
            + name,
        error_message(ErrorView::PackageNotFound(name)) == "Package not found: "@ + name,
        error_message(
            ErrorView::ToolExecution { tool_name: name, attempt: n, source_string: what },
        ) == "Tool execution failed: "@ + name + " (attempt "@ + crate::text::decimal(n) + "): "@
            + what,
        error_message(ErrorView::ToolTimeout { tool_name: name, timeout_ms: n })
            == "Tool execution timeout: "@ + name + " ("@ + crate::text::decimal(n) + "ms)"@,
        error_message(ErrorView::Validation { summary: what, errors }) == "Validation failed: "@
            + what,
        error_message(ErrorView::HandlerResolution { tool_name: name, reason: what })
            == "Failed to resolve handler for "@ + name + ": "@ + what,
        error_message(ErrorView::ManagerDestroyed) == "ToolManager has been destroyed"@,
        error_message(ErrorView::Configuration(what)) == "Configuration error: "@ + what,
        error_message(ErrorView::Io(what)) == "I/O error: "@ + what,
        error_message(ErrorView::Serde(what)) == "Serialization error: "@ + what,
        error_message(ErrorView::Other(what)) == what,
{
}

} // verus!
