//! Built-in handler resolver.
use vstd::prelude::*;

use crate::error::ErrorView;
use crate::error::ToolError;
use crate::handler_debug::ref_debug;
use crate::handler_refs::BuiltinHandlerRef;
use crate::handler_refs::HandlerRef;
use crate::handler_refs::RefView;
use crate::json::add_members;
use crate::json::build_object;
use crate::json::clone_optional;
use crate::json::last_value;
use crate::json::law_object_of;
use crate::json::lemma_last_value;
use crate::json::member;
use crate::json::members_of;
use crate::json::members_view;
use crate::json::object_of;
use crate::json::optional_view;
use crate::json::sorted_keys;
use crate::json::Json;
use crate::json::JsonView;
use crate::text::same;
use crate::text::views;

verus! {

/// The position of the first entry with this name; the length of the list where there is none.
pub open spec fn entry_position(v: Seq<(Seq<char>, u64)>, name: Seq<char>) -> int
    decreases v.len(),
{
    if v.len() == 0 {
        0
    } else if v[0].0 == name {
        0
    } else {
        1 + entry_position(v.skip(1), name)
    }
}

/// The handler of this name.
pub open spec fn handler_named(v: Seq<(Seq<char>, u64)>, name: Seq<char>) -> Option<u64> {
    if entry_position(v, name) < v.len() {
        Some(v[entry_position(v, name)].1)
    } else {
        None
    }
}

/// The list in which a name leads to a handler.
pub open spec fn with_handler(v: Seq<(Seq<char>, u64)>, name: Seq<char>, handler: u64) -> Seq<
    (Seq<char>, u64),
> {
    if entry_position(v, name) < v.len() {
        v.update(entry_position(v, name), (name, handler))
    } else {
        v.push((name, handler))
    }
}

/// The list without a name.
pub open spec fn without_handler(v: Seq<(Seq<char>, u64)>, name: Seq<char>) -> Seq<
    (Seq<char>, u64),
> {
    if entry_position(v, name) < v.len() {
        v.remove(entry_position(v, name))
    } else {
        v
    }
}

/// No name stands in the list twice.
pub open spec fn handler_names_differ(v: Seq<(Seq<char>, u64)>) -> bool {
    forall|i: int, j: int| 0 <= i < j < v.len() ==> (#[trigger] v[i]).0 != (#[trigger] v[j]).0
}

/// What the first position of a name says.
pub proof fn lemma_entry_position(v: Seq<(Seq<char>, u64)>, name: Seq<char>)
    ensures
        0 <= entry_position(v, name) <= v.len(),
        forall|k: int| 0 <= k < entry_position(v, name) ==> (#[trigger] v[k]).0 != name,
        entry_position(v, name) < v.len() ==> v[entry_position(v, name)].0 == name,
    decreases v.len(),
{
    if v.len() > 0 && v[0].0 != name {
        lemma_entry_position(v.skip(1), name);
        assert forall|k: int| 0 <= k < entry_position(v, name) implies (#[trigger] v[k]).0
            != name by {
            if k > 0 {
                assert(v.skip(1)[k - 1].0 != name);
            }
        }
    }
}

proof fn lemma_position_is(v: Seq<(Seq<char>, u64)>, i: int, name: Seq<char>)
    requires
        0 <= i <= v.len(),
        forall|k: int| 0 <= k < i ==> (#[trigger] v[k]).0 != name,
        i < v.len() ==> v[i].0 == name,
    ensures
        entry_position(v, name) == i,
{
    lemma_entry_position(v, name);
    let at = entry_position(v, name);
    if at < i {
        assert(v[at].0 != name);
    }
    if i < at {
        assert(v[i].0 != name);
    }
}

/// Maps string IDs to handlers.
#[derive(Debug)]
pub struct BuiltinHandlerResolver {
    inner: Vec<(String, u64)>,
}

impl View for BuiltinHandlerResolver {
    type V = Seq<(Seq<char>, u64)>;

    closed spec fn view(&self) -> Seq<(Seq<char>, u64)> {
        self.inner@.map_values(|e: (String, u64)| (e.0@, e.1))
    }
}

/// A builtin handler that a reference leads to, with the params that it brings.
#[derive(Debug)]
pub struct BuiltinHandler {
    /// The number of the handler.
    pub handler: u64,
    /// Default params, merged with the caller's input.
    pub params: Option<Json>,
}

/// The message about a name that leads to no handler.
pub open spec fn unknown_handler(tool_name: Seq<char>, name: Seq<char>) -> ErrorView {
    ErrorView::HandlerResolution { tool_name, reason: "Handler not found: "@ + name }
}

/// What a reference to a builtin handler leads to: the number of the handler and its params.
pub open spec fn builtin_target(
    v: Seq<(Seq<char>, u64)>,
    reference: RefView,
    tool_name: Seq<char>,
) -> Result<(u64, Option<JsonView>), ErrorView> {
    match reference {
        RefView::BuiltinName(name) => match handler_named(v, name) {
            Some(h) => Ok((h, None)),
            None => Err(unknown_handler(tool_name, name)),
        },
        RefView::Builtin { name, params } => match handler_named(v, name) {
            Some(h) => Ok((h, params)),
            None => Err(unknown_handler(tool_name, name)),
        },
        _ => Err(
            ErrorView::HandlerResolution {
                tool_name,
                reason: "Not a builtin handler reference: "@ + ref_debug(reference),
            },
        ),
    }
}

/// Params with the input over them, where both are objects; the input otherwise.
pub open spec fn merged_params(params: JsonView, input: JsonView) -> JsonView {
    match (params, input) {
        (JsonView::Object(p), JsonView::Object(i)) => JsonView::Object(object_of(p + i)),
        _ => input,
    }
}

/// The input that a builtin handler gets.
pub open spec fn builtin_input(params: Option<JsonView>, input: JsonView) -> JsonView {
    match params {
        Some(p) => merged_params(p, input),
        None => input,
    }
}

/// Merges the caller's input over default params.
pub fn merge_params(params: &Json, input: &Json) -> (r: Json)
    ensures
        r@ == merged_params(params@, input@),
{
    match (params, input) {
        (Json::Object(_), Json::Object(_)) => {
            let mut pairs: Vec<(String, Json)> = Vec::new();
            add_members(&mut pairs, params);
            add_members(&mut pairs, input);
            assert(members_view(pairs@) =~= members_of(params@) + members_of(input@));
            build_object(pairs)
        },
        _ => input.clone(),
    }
}

impl BuiltinHandler {
    /// The input that the handler gets for the input of a call.
    pub fn input_for(&self, input: &Json) -> (r: Json)
        ensures
            r@ == builtin_input(optional_view(self.params), input@),
    {
        match &self.params {
            Some(p) => merge_params(p, input),
            None => input.clone(),
        }
    }
}

impl BuiltinHandlerResolver {
    /// Construct an empty resolver.
    pub fn new() -> (r: Self)
        ensures
            r@ == Seq::<(Seq<char>, u64)>::empty(),
    {
        let r = BuiltinHandlerResolver { inner: Vec::new() };
        assert(r@ =~= Seq::<(Seq<char>, u64)>::empty());
        r
    }

    fn find(&self, name: &str) -> (r: usize)
        ensures
            r as int == entry_position(self@, name@),
            r <= self.inner@.len(),
    {
        let ghost all = self@;
        let n = self.inner.len();
        let mut i: usize = 0;
        while i < n
            invariant
                i <= n,
                n == self.inner@.len(),
                all == self@,
                forall|k: int| 0 <= k < i ==> (#[trigger] all[k]).0 != name@,
            decreases n - i,
        {
            if same(self.inner[i].0.as_str(), name) {
                assert(all[i as int].0 == name@);
                proof {
                    lemma_position_is(all, i as int, name@);
                }
                return i;
            }
            i = i + 1;
        }
        proof {
            lemma_position_is(all, n as int, name@);
        }
        n
    }

    /// Register a handler by name.
    pub fn register(&mut self, name: &str, handler: u64)
        ensures
            final(self)@ == with_handler(old(self)@, name@, handler),
    {
        let ghost before = self@;
        let i = self.find(name);
        if i < self.inner.len() {
            self.inner.set(i, (String::from_str(name), handler));
            assert(self@ =~= before.update(i as int, (name@, handler)));
        } else {
            self.inner.push((String::from_str(name), handler));
            assert(self@ =~= before.push((name@, handler)));
        }
    }

    /// Get a registered handler.
    pub fn get(&self, name: &str) -> (r: Option<u64>)
        ensures
            r == handler_named(self@, name@),
    {
        let i = self.find(name);
        if i < self.inner.len() {
            assert(self@[i as int].1 == self.inner@[i as int].1);
            Some(self.inner[i].1)
        } else {
            None
        }
    }

    /// Whether the named handler is registered.
    pub fn has(&self, name: &str) -> (r: bool)
        ensures
            r == (handler_named(self@, name@) is Some),
    {
        self.find(name) < self.inner.len()
    }

    /// Remove a registered handler.
    pub fn unregister(&mut self, name: &str)
        ensures
            final(self)@ == without_handler(old(self)@, name@),
    {
        let ghost before = self@;
        let i = self.find(name);
        if i < self.inner.len() {
            self.inner.remove(i);
            assert(self@ =~= before.remove(i as int));
        }
    }

    /// All registered handler names.
    pub fn names(&self) -> (r: Vec<String>)
        ensures
            views(r@) == self@.map_values(|e: (Seq<char>, u64)| e.0),
    {
        let mut out: Vec<String> = Vec::new();
        let n = self.inner.len();
        let mut i: usize = 0;
        while i < n
            invariant
                i <= n,
                n == self.inner@.len(),
                out@.len() == i,
                forall|k: int| 0 <= k < i ==> (#[trigger] out@[k])@ == self.inner@[k].0@,
            decreases n - i,
        {
            out.push(self.inner[i].0.clone());
            i = i + 1;
        }
        assert(views(out@) =~= self@.map_values(|e: (Seq<char>, u64)| e.0));
        out
    }

    fn named(&self, name: &str, tool_name: &str) -> (r: Result<u64, ToolError>)
        ensures
            match r {
                Ok(h) => handler_named(self@, name@) == Some(h),
                Err(e) => handler_named(self@, name@) is None && e@ == unknown_handler(
                    tool_name@,
                    name@,
                ),
            },
    {
        match self.get(name) {
            Some(h) => Ok(h),
            None => {
                let mut reason = String::from_str("Handler not found: ");
                reason.append(name);
                Err(ToolError::handler(tool_name, reason.as_str()))
            },
        }
    }

    /// Resolve a `HandlerRef::BuiltinName` or `HandlerRef::Builtin`.
    pub fn resolve_ref(&self, reference: &HandlerRef, tool_name: &str) -> (r: Result<
        BuiltinHandler,
        ToolError,
    >)
        ensures
            (match r {
                Ok(h) => Ok((h.handler, optional_view(h.params))),
                Err(e) => Err(e@),
            }) == builtin_target(self@, reference@, tool_name@),
    {
        match reference {
            HandlerRef::BuiltinName(name) => match self.named(name.as_str(), tool_name) {
                Ok(handler) => Ok(BuiltinHandler { handler, params: None }),
                Err(e) => Err(e),
            },
            HandlerRef::Builtin(BuiltinHandlerRef { name, params, .. }) => match self.named(
                name.as_str(),
                tool_name,
            ) {
                Ok(handler) => Ok(BuiltinHandler { handler, params: clone_optional(params) }),
                Err(e) => Err(e),
            },
            other => {
                let mut reason = String::from_str("Not a builtin handler reference: ");
                reason.append(other.to_debug().as_str());
                Err(ToolError::handler(tool_name, reason.as_str()))
            },
        }
    }
}

impl Default for BuiltinHandlerResolver {
    fn default() -> (r: Self)
        ensures
            r@ == Seq::<(Seq<char>, u64)>::empty(),
    {
        BuiltinHandlerResolver::new()
    }
}

/// A handler that was registered is found under its name, and every other name leads where it
/// led before.
pub proof fn law_register_then_get(
    v: Seq<(Seq<char>, u64)>,
    name: Seq<char>,
    handler: u64,
    other: Seq<char>,
)
    ensures
        handler_named(with_handler(v, name, handler), other) == if other == name {
            Some(handler)
        } else {
            handler_named(v, other)
        },
{
    let at = entry_position(v, name);
    let w = with_handler(v, name, handler);
    lemma_entry_position(v, name);
    lemma_entry_position(v, other);
    if other == name {
        lemma_position_is(w, at, name);
    } else {
        let i = entry_position(v, other);
        assert forall|k: int| 0 <= k < i implies (#[trigger] w[k]).0 != other by {
            if k != at {
                assert(w[k] == v[k]);
            }
        }
        if i < v.len() {
            lemma_position_is(w, i, other);
        } else {
            lemma_position_is(w, w.len() as int, other);
        }
    }
}

/// A handler that was unregistered is not found, as long as its name stood in the list once;
/// every other name leads where it led before.
pub proof fn law_unregister_then_get(
    v: Seq<(Seq<char>, u64)>,
    name: Seq<char>,
    other: Seq<char>,
)
    requires
        handler_names_differ(v),
    ensures
        handler_names_differ(without_handler(v, name)),
        handler_named(without_handler(v, name), other) == if other == name {
            None
        } else {
            handler_named(v, other)
        },
{
    let at = entry_position(v, name);
    let w = without_handler(v, name);
    lemma_entry_position(v, name);
    lemma_entry_position(v, other);
    if at < v.len() {
        assert forall|i: int, j: int| 0 <= i < j < w.len() implies (#[trigger] w[i]).0 != (
        #[trigger] w[j]).0 by {
            let a = if i < at {
                i
            } else {
                i + 1
            };
            let b = if j < at {
                j
            } else {
                j + 1
            };
            assert(w[i] == v[a] && w[j] == v[b]);
        }
        if other == name {
            assert forall|k: int| 0 <= k < w.len() implies (#[trigger] w[k]).0 != name by {
                let a = if k < at {
                    k
                } else {
                    k + 1
                };
                assert(w[k] == v[a]);
                if a > at {
                    assert(v[at].0 != v[a].0);
                }
            }
            lemma_position_is(w, w.len() as int, name);
        } else {
            let i = entry_position(v, other);
            let j = if i < at {
                i
            } else {
                i - 1
            };
            assert forall|k: int| 0 <= k < j implies (#[trigger] w[k]).0 != other by {
                let a = if k < at {
                    k
                } else {
                    k + 1
                };
                assert(w[k] == v[a]);
            }
            lemma_position_is(w, j, other);
        }
    }
}

/// Registering keeps every name in the list once.
pub proof fn law_register_keeps_names_apart(
    v: Seq<(Seq<char>, u64)>,
    name: Seq<char>,
    handler: u64,
)
    requires
        handler_names_differ(v),
    ensures
        handler_names_differ(with_handler(v, name, handler)),
{
    let at = entry_position(v, name);
    let w = with_handler(v, name, handler);
    lemma_entry_position(v, name);
    assert forall|i: int, j: int| 0 <= i < j < w.len() implies (#[trigger] w[i]).0 != (
    #[trigger] w[j]).0 by {
        if at < v.len() {
            assert(w[i].0 == v[i].0 && w[j].0 == v[j].0);
        } else {
            assert(w[i] == v[i]);
        }
    }
}

/// Under each key the merged input has what the caller's input has, and only where that has
/// nothing, what the params have.
pub proof fn law_input_over_params(
    p: Seq<(Seq<char>, JsonView)>,
    i: Seq<(Seq<char>, JsonView)>,
    k: Seq<char>,
)
    requires
        sorted_keys(p),
        sorted_keys(i),
    ensures
        crate::json::field(merged_params(JsonView::Object(p), JsonView::Object(i)), k) == match member(
            i,
            k,
        ) {
            Some(v) => Some(v),
            None => member(p, k),
        },
{
    law_object_of(p + i, k);
    lemma_last_value(p, k);
    lemma_last_value(i, k);
    lemma_last_of_both(p, i, k);
}

proof fn lemma_last_of_both(
    p: Seq<(Seq<char>, JsonView)>,
    i: Seq<(Seq<char>, JsonView)>,
    k: Seq<char>,
)
    ensures
        last_value(p + i, k) == match last_value(i, k) {
            Some(v) => Some(v),
            None => last_value(p, k),
        },
    decreases i.len(),
{
    if i.len() == 0 {
        assert(p + i =~= p);
    } else {
        assert((p + i).drop_last() =~= p + i.drop_last());
        lemma_last_of_both(p, i.drop_last(), k);
    }
}

/// A reference by name leads to the handler of that name, with the parameters that it carries; a
/// name that no handler has, and any other reference, is refused.
pub proof fn law_named_handler_is_used(
    v: Seq<(Seq<char>, u64)>,
    i: int,
    name: Seq<char>,
    params: Option<JsonView>,
    tool_name: Seq<char>,
)
    requires
        handler_names_differ(v),
    ensures
        0 <= i < v.len() && v[i].0 == name ==> builtin_target(
            v,
            RefView::BuiltinName(name),
            tool_name,
        ) == Ok::<(u64, Option<JsonView>), ErrorView>((v[i].1, None)),
        0 <= i < v.len() && v[i].0 == name ==> builtin_target(
            v,
            (RefView::Builtin { name, params }),
            tool_name,
        ) == Ok::<(u64, Option<JsonView>), ErrorView>((v[i].1, params)),
        (forall|j: int| 0 <= j < v.len() ==> (#[trigger] v[j]).0 != name) ==> {
            let refused = ErrorView::HandlerResolution {
                tool_name,
                reason: "Handler not found: "@ + name,
            };
            &&& builtin_target(v, RefView::BuiltinName(name), tool_name) == Err::<
                (u64, Option<JsonView>),
                ErrorView,
            >(refused)
            &&& builtin_target(v, (RefView::Builtin { name, params }), tool_name) == Err::<
                (u64, Option<JsonView>),
                ErrorView,
            >(refused)
        },
{
    lemma_entry_position(v, name);
    let p = entry_position(v, name);
    if 0 <= i < v.len() && v[i].0 == name {
        assert(p <= i);
        assert(v[p].0 == v[i].0);
    }
}

/// References to HTTP services, scripts and chains are no built-in handlers.
pub proof fn law_other_references_are_refused(
    v: Seq<(Seq<char>, u64)>,
    reference: RefView,
    tool_name: Seq<char>,
)
    requires
        !(reference is BuiltinName),
        !(reference is Builtin),
    ensures
        builtin_target(v, reference, tool_name) matches Err(e) && e matches ErrorView::HandlerResolution {
            tool_name: t,
            reason: _,
        } && t == tool_name,
{
}

/// Without parameters, or where the parameters or the input are no object, a handler gets the input
/// as it came.
pub proof fn law_input_without_params(params: Option<JsonView>, input: JsonView)
    ensures
        builtin_input(None, input) == input,
        !(input is Object) ==> builtin_input(params, input) == input,
        params matches Some(p) ==> (!(p is Object) ==> builtin_input(params, input) == input),
{
}

} // verus!
