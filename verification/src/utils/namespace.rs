//! Namespace helpers for tool names.
use vstd::prelude::*;

use crate::text::chars_of;
use crate::text::cut;
use crate::text::index_of_char;
use crate::text::lemma_index_of_char;
use crate::text::position;
use crate::text::string_of;
use crate::text::views;
use crate::types::optional_text;
use crate::types::NamespaceConfig;
use crate::types::NamespaceSeparator;
use crate::types::NamespaceView;

verus! {

/// Default separator (`.`).
pub const DEFAULT_SEPARATOR: char = '.';

/// Parsed view of a tool name.
#[derive(Debug, Clone, PartialEq, Eq)]
pub struct ParsedToolName {
    /// First component, if there is one.
    pub namespace: Option<String>,
    /// The remainder of the name (still possibly containing the separator).
    pub original_name: String,
}

/// A name in full: the prefix and the separator come first, unless they already do or the
/// namespace does not ask for it.
pub open spec fn full_name(name: Seq<char>, ns: Option<NamespaceView>) -> Seq<char> {
    match ns {
        None => name,
        Some(ns) => {
            let prefix = ns.prefix.push(ns.separator);
            if !ns.auto_prefix || prefix.is_prefix_of(name) {
                name
            } else {
                prefix + name
            }
        },
    }
}

/// The part of a name before the first separator, where there is one.
pub open spec fn namespace_of(name: Seq<char>, separator: char) -> Option<Seq<char>> {
    match index_of_char(name, separator) {
        None => None,
        Some(i) => Some(name.take(i)),
    }
}

/// The part of a name after the first separator; the whole name where there is none.
pub open spec fn short_name(name: Seq<char>, separator: char) -> Seq<char> {
    match index_of_char(name, separator) {
        None => name,
        Some(i) => name.skip(i + 1),
    }
}

/// The name starts with the namespace and the separator.
pub open spec fn in_namespace(name: Seq<char>, namespace: Seq<char>, separator: char) -> bool {
    namespace.push(separator).is_prefix_of(name)
}

/// Apply namespace configuration to a tool name.
///
/// Without a namespace, or with one whose `auto_prefix` is off, the name stays as it is.
/// Else the prefix and the separator are prepended unless the name already starts with
/// them.
pub fn resolve_full_tool_name(tool_name: &str, namespace: Option<&NamespaceConfig>) -> (r: String)
    ensures
        r@ == full_name(
            tool_name@,
            match namespace {
                Some(ns) => Some(ns@),
                None => None,
            },
        ),
{
    let ns = match namespace {
        None => return String::from_str(tool_name),
        Some(ns) => ns,
    };
    if !ns.auto_prefix || matches_namespace(tool_name, ns.prefix.as_str(), ns.separator) {
        return String::from_str(tool_name);
    }
    let mut r = ns.prefix.clone();
    r.push(ns.separator);
    r.append(tool_name);
    r
}

/// Parse a fully-qualified tool name into its namespace and original name.
pub fn parse_tool_name(full_tool_name: &str, separator: NamespaceSeparator) -> (r: ParsedToolName)
    ensures
        optional_text(r.namespace) == namespace_of(full_tool_name@, separator),
        r.original_name@ == short_name(full_tool_name@, separator),
{
    let cs = chars_of(full_tool_name);
    match position(&cs, separator) {
        None => ParsedToolName {
            namespace: None,
            original_name: String::from_str(full_tool_name),
        },
        Some(i) => {
            let n = cs.len();
            let head = cut(&cs, 0, i);
            let tail = cut(&cs, i + 1, n);
            assert(head@ =~= cs@.take(i as int));
            assert(tail@ =~= cs@.skip(i + 1));
            ParsedToolName {
                namespace: Some(string_of(&head)),
                original_name: string_of(&tail),
            }
        },
    }
}

/// Return `true` if `tool_name` lives in `namespace`.
pub fn matches_namespace(
    tool_name: &str,
    namespace: &str,
    separator: NamespaceSeparator,
) -> (r: bool)
    ensures
        r == in_namespace(tool_name@, namespace@, separator),
{
    let mut prefix = chars_of(namespace);
    prefix.push(separator);
    let name = chars_of(tool_name);
    crate::text::starts_with(&name, &prefix)
}

/// Filter a list of tool names down to those in `namespace`.
pub fn filter_tools_by_namespace(
    tool_names: &[String],
    namespace: &str,
    separator: NamespaceSeparator,
) -> (r: Vec<String>)
    ensures
        views(r@) == views(tool_names@).filter(
            |n: Seq<char>| in_namespace(n, namespace@, separator),
        ),
{
    let ghost all = views(tool_names@);
    let ghost pred = |n: Seq<char>| in_namespace(n, namespace@, separator);
    let mut r: Vec<String> = Vec::new();
    let mut i: usize = 0;
    assert(views(r@) =~= all.take(0).filter(pred)) by {
        reveal(Seq::filter);
    }
    while i < tool_names.len()
        invariant
            i <= tool_names@.len(),
            all == views(tool_names@),
            pred == |n: Seq<char>| in_namespace(n, namespace@, separator),
            views(r@) == all.take(i as int).filter(pred),
        decreases tool_names@.len() - i,
    {
        let ghost before = r@;
        proof {
            assert(all.take(i + 1) =~= all.take(i as int).push(all[i as int]));
            all.take(i as int).lemma_filter_push(all[i as int], pred);
            assert(all[i as int] == tool_names@[i as int]@);
        }
        if matches_namespace(tool_names[i].as_str(), namespace, separator) {
            r.push(tool_names[i].clone());
            assert(views(r@) =~= views(before).push(all[i as int]));
        }
        i = i + 1;
    }
    assert(all.take(all.len() as int) =~= all);
    r
}

/// Strip the namespace prefix from a fully-qualified tool name.
pub fn remove_namespace(tool_name: &str, separator: NamespaceSeparator) -> (r: String)
    ensures
        r@ == short_name(tool_name@, separator),
{
    parse_tool_name(tool_name, separator).original_name
}

/// Resolving a name that is already in full changes nothing.
pub proof fn law_full_name_idempotent(name: Seq<char>, ns: Option<NamespaceView>)
    ensures
        full_name(full_name(name, ns), ns) == full_name(name, ns),
{
    if let Some(ns) = ns {
        let prefix = ns.prefix.push(ns.separator);
        assert(prefix.is_prefix_of(prefix + name)) by {
            assert((prefix + name).subrange(0, prefix.len() as int) =~= prefix);
        }
    }
}

/// A name in full lives in its namespace.
pub proof fn law_full_name_in_namespace(name: Seq<char>, ns: NamespaceView)
    requires
        ns.auto_prefix,
    ensures
        in_namespace(full_name(name, Some(ns)), ns.prefix, ns.separator),
{
    let prefix = ns.prefix.push(ns.separator);
    assert((prefix + name).subrange(0, prefix.len() as int) =~= prefix);
}

/// Parsing a name in full gives back the prefix and the name, as long as the prefix holds
/// no separator and the name does not start with prefix and separator.
pub proof fn law_parse_of_full_name(name: Seq<char>, ns: NamespaceView)
    requires
        ns.auto_prefix,
        !ns.prefix.contains(ns.separator),
        !in_namespace(name, ns.prefix, ns.separator),
    ensures
        namespace_of(full_name(name, Some(ns)), ns.separator) == Some(ns.prefix),
        short_name(full_name(name, Some(ns)), ns.separator) == name,
{
    let p = ns.prefix;
    let full = full_name(name, Some(ns));
    let n = p.len() as int;
    assert(full == p.push(ns.separator) + name);
    lemma_index_of_char(full, ns.separator);
    assert(full[n] == ns.separator);
    assert(full.contains(ns.separator));
    let i = index_of_char(full, ns.separator)->0;
    if i < n {
        assert(full[i] == p[i]);
        assert(p.contains(ns.separator));
    }
    assert(i == n);
    assert(full.take(n) =~= p);
    assert(full.skip(n + 1) =~= name);
}

/// A name splits into its namespace, the separator and the rest.
pub proof fn law_parse_splits(name: Seq<char>, separator: char)
    ensures
        match namespace_of(name, separator) {
            Some(ns) => name == ns.push(separator) + short_name(name, separator) && !ns.contains(
                separator,
            ) && in_namespace(name, ns, separator),
            None => short_name(name, separator) == name && !name.contains(separator),
        },
{
    lemma_index_of_char(name, separator);
    if let Some(i) = index_of_char(name, separator) {
        let ns = name.take(i);
        assert(name =~= ns.push(separator) + name.skip(i + 1));
        assert(name.subrange(0, i + 1) =~= ns.push(separator));
        assert forall|k: int| 0 <= k < ns.len() implies ns[k] != separator by {
            assert(ns[k] == name[k]);
        }
    }
}

/// A name stays as it is without a namespace, and in one that does not prefix by itself.
pub proof fn law_full_name_without_prefix(name: Seq<char>, ns: NamespaceView)
    ensures
        full_name(name, None) == name,
        !ns.auto_prefix ==> full_name(name, Some(ns)) == name,
{
}

/// A namespace holds the names that start with it and the separator, and no others.
pub proof fn law_in_namespace(name: Seq<char>, namespace: Seq<char>, separator: char)
    ensures
        in_namespace(namespace + seq![separator] + name, namespace, separator),
        in_namespace(name, namespace, separator) ==> name.len() > namespace.len() && name.take(
            namespace.len() as int,
        ) == namespace && name[namespace.len() as int] == separator,
{
    let whole = namespace + seq![separator] + name;
    let prefix = namespace.push(separator);
    assert(prefix =~= whole.take(prefix.len() as int));
    if in_namespace(name, namespace, separator) {
        assert(prefix =~= name.take(prefix.len() as int));
        assert(prefix[namespace.len() as int] == separator);
        assert(name.take(namespace.len() as int) =~= namespace) by {
            assert forall|i: int| 0 <= i < namespace.len() implies name[i] == namespace[i] by {
                assert(prefix[i] == name.take(prefix.len() as int)[i]);
            }
        }
    }
}

} // verus!
