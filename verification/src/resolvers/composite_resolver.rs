//! Composite handler resolver.
//!
//! Composes builtin, http, and script resolvers and additionally resolves `composite` chains
//! with `sequence` / `parallel` / `merge` combine modes. Calling the links of a chain is left
//! to the runtime; what becomes of their results is settled here.
use vstd::prelude::*;

use crate::error::ErrorView;
use crate::error::ToolError;
use crate::handler_refs::chain_view;
use crate::handler_refs::lemma_chain_view;
use crate::handler_refs::CombineMode;
use crate::handler_refs::HandlerRef;
use crate::handler_refs::RefView;
use crate::json::add_members;
use crate::json::build_object;
use crate::json::field;
use crate::json::items_view;
use crate::json::last_value;
use crate::json::law_object_of;
use crate::json::lemma_array_view;
use crate::json::lemma_last_value;
use crate::json::member;
use crate::json::members_of;
use crate::json::members_view;
use crate::json::object_of;
use crate::json::optional_view;
use crate::json::sorted_keys;
use crate::json::Json;
use crate::json::JsonView;
use crate::resolvers::builtin_resolver::builtin_target;
use crate::resolvers::builtin_resolver::handler_named;
use crate::resolvers::builtin_resolver::with_handler;
use crate::resolvers::builtin_resolver::without_handler;
use crate::resolvers::builtin_resolver::BuiltinHandler;
use crate::resolvers::builtin_resolver::BuiltinHandlerResolver;
use crate::resolvers::http_resolver::HttpHandlerResolver;
use crate::resolvers::script_resolver::ScriptHandlerResolver;
use crate::text::views;

verus! {

/// What a reference leads to.
#[derive(Debug)]
pub enum ResolvedHandler {
    /// A builtin handler.
    Builtin(BuiltinHandler),
    /// A request; the reference is an HTTP one.
    Http(HandlerRef),
    /// A process; the reference is a script one.
    Script(HandlerRef),
    /// A chain.
    Chain(ResolvedChain),
}

/// A chain of handlers.
#[derive(Debug)]
pub struct ResolvedChain {
    /// The links.
    pub links: Vec<ResolvedHandler>,
    /// How they are combined.
    pub combine: CombineMode,
    /// Whether a sequence ends at the first error.
    pub stop_on_error: bool,
}

/// The model of a `ResolvedHandler`.
pub enum ResolvedView {
    /// A builtin handler with its params.
    Builtin(u64, Option<JsonView>),
    /// A request.
    Http(RefView),
    /// A process.
    Script(RefView),
    /// A chain.
    Chain { links: Seq<ResolvedView>, combine: CombineMode, stop_on_error: bool },
}

/// The model of `h`.
pub open spec fn resolved_view(h: ResolvedHandler) -> ResolvedView
    decreases h,
{
    match h {
        ResolvedHandler::Builtin(b) => ResolvedView::Builtin(b.handler, optional_view(b.params)),
        ResolvedHandler::Http(r) => ResolvedView::Http(r@),
        ResolvedHandler::Script(r) => ResolvedView::Script(r@),
        ResolvedHandler::Chain(c) => ResolvedView::Chain {
            links: Seq::new(
                c.links@.len(),
                |i: int|
                    if 0 <= i < c.links@.len() {
                        resolved_view(c.links@[i])
                    } else {
                        arbitrary()
                    },
            ),
            combine: c.combine,
            stop_on_error: c.stop_on_error,
        },
    }
}

impl View for ResolvedHandler {
    type V = ResolvedView;

    open spec fn view(&self) -> ResolvedView {
        resolved_view(*self)
    }
}

/// The models of links.
pub open spec fn links_view(v: Seq<ResolvedHandler>) -> Seq<ResolvedView> {
    v.map_values(|h: ResolvedHandler| h@)
}

/// What a reference leads to, or why it leads nowhere.
pub open spec fn resolved(
    names: Seq<(Seq<char>, u64)>,
    reference: RefView,
    tool_name: Seq<char>,
) -> Result<ResolvedView, ErrorView>
    decreases reference,
{
    match reference {
        RefView::Http { .. } => Ok(ResolvedView::Http(reference)),
        RefView::Script { .. } => Ok(ResolvedView::Script(reference)),
        RefView::Composite { chain, combine, stop_on_error } => match resolved_links(
            names,
            chain,
            tool_name,
        ) {
            Ok(links) => Ok(ResolvedView::Chain { links, combine, stop_on_error }),
            Err(e) => Err(e),
        },
        _ => match builtin_target(names, reference, tool_name) {
            Ok((handler, params)) => Ok(ResolvedView::Builtin(handler, params)),
            Err(e) => Err(e),
        },
    }
}

/// What the links of a chain lead to, or why the first of them that leads nowhere does so.
pub open spec fn resolved_links(
    names: Seq<(Seq<char>, u64)>,
    chain: Seq<RefView>,
    tool_name: Seq<char>,
) -> Result<Seq<ResolvedView>, ErrorView>
    decreases chain,
{
    if chain.len() == 0 {
        Ok(Seq::empty())
    } else {
        match resolved_links(names, chain.drop_last(), tool_name) {
            Err(e) => Err(e),
            Ok(links) => match resolved(names, chain.last(), tool_name) {
                Err(e) => Err(e),
                Ok(h) => Ok(links.push(h)),
            },
        }
    }
}

proof fn lemma_links_fail(
    names: Seq<(Seq<char>, u64)>,
    chain: Seq<RefView>,
    tool_name: Seq<char>,
    n: int,
)
    requires
        0 <= n <= chain.len(),
        resolved_links(names, chain.take(n), tool_name) is Err,
    ensures
        resolved_links(names, chain, tool_name) == resolved_links(
            names,
            chain.take(n),
            tool_name,
        ),
    decreases chain.len() - n,
{
    if n < chain.len() {
        assert(chain.take(n + 1).drop_last() =~= chain.take(n));
        lemma_links_fail(names, chain, tool_name, n + 1);
    } else {
        assert(chain.take(n) =~= chain);
    }
}

/// Unified resolver: dispatches on the type of a reference and supports chains.
#[derive(Debug)]
pub struct CompositeHandlerResolver {
    builtin: BuiltinHandlerResolver,
    http: HttpHandlerResolver,
    script: ScriptHandlerResolver,
}

impl View for CompositeHandlerResolver {
    type V = Seq<(Seq<char>, u64)>;

    closed spec fn view(&self) -> Seq<(Seq<char>, u64)> {
        self.builtin@
    }
}

impl CompositeHandlerResolver {
    /// How long requests and scripts may take where nothing else is said, in milliseconds.
    pub closed spec fn default_timeout(&self) -> u64 {
        self.http.default_timeout
    }

    /// Both resolvers have the same timeout.
    pub closed spec fn wf(&self) -> bool {
        self.http.default_timeout == self.script.default_timeout
    }

    /// Construct with default timeout, in milliseconds.
    pub fn new(default_timeout: u64) -> (r: Self)
        ensures
            r@ == Seq::<(Seq<char>, u64)>::empty(),
            r.default_timeout() == default_timeout,
            r.wf(),
    {
        CompositeHandlerResolver {
            builtin: BuiltinHandlerResolver::new(),
            http: HttpHandlerResolver::new(default_timeout),
            script: ScriptHandlerResolver::new(default_timeout),
        }
    }

    /// Access the inner builtin resolver.
    pub fn builtin(&self) -> (r: &BuiltinHandlerResolver)
        ensures
            r@ == self@,
    {
        &self.builtin
    }

    /// Access the inner HTTP resolver.
    pub fn http(&self) -> (r: &HttpHandlerResolver)
        ensures
            r.default_timeout == self.default_timeout(),
    {
        &self.http
    }

    /// Access the inner script resolver.
    pub fn script(&self) -> (r: &ScriptHandlerResolver)
        requires
            self.wf(),
        ensures
            r.default_timeout == self.default_timeout(),
    {
        &self.script
    }

    /// Register a builtin handler.
    pub fn register(&mut self, name: &str, handler: u64)
        ensures
            final(self)@ == with_handler(old(self)@, name@, handler),
            final(self).default_timeout() == old(self).default_timeout(),
            old(self).wf() ==> final(self).wf(),
    {
        self.builtin.register(name, handler);
    }

    /// Get a registered builtin handler.
    pub fn get(&self, name: &str) -> (r: Option<u64>)
        ensures
            r == handler_named(self@, name@),
    {
        self.builtin.get(name)
    }

    /// Whether a builtin handler is registered.
    pub fn has(&self, name: &str) -> (r: bool)
        ensures
            r == (handler_named(self@, name@) is Some),
    {
        self.builtin.has(name)
    }

    /// Remove a builtin handler.
    pub fn unregister(&mut self, name: &str)
        ensures
            final(self)@ == without_handler(old(self)@, name@),
            final(self).default_timeout() == old(self).default_timeout(),
            old(self).wf() ==> final(self).wf(),
    {
        self.builtin.unregister(name);
    }

    /// All builtin handler names.
    pub fn names(&self) -> (r: Vec<String>)
        ensures
            views(r@) == self@.map_values(|e: (Seq<char>, u64)| e.0),
    {
        self.builtin.names()
    }

    /// Dispatch on the reference type.
    pub fn resolve_ref(&self, reference: &HandlerRef, tool_name: &str) -> (r: Result<
        ResolvedHandler,
        ToolError,
    >)
        ensures
            (match r {
                Ok(h) => Ok(h@),
                Err(e) => Err(e@),
            }) == resolved(self@, reference@, tool_name@),
        decreases reference,
    {
        match reference {
            HandlerRef::Http(_) => Ok(ResolvedHandler::Http(reference.clone())),
            HandlerRef::Script(_) => Ok(ResolvedHandler::Script(reference.clone())),
            HandlerRef::Composite(c) => {
                let ghost all = chain_view(c.chain@);
                let mut links: Vec<ResolvedHandler> = Vec::new();
                let n = c.chain.len();
                let mut i: usize = 0;
                proof {
                    lemma_chain_view(*c);
                }
                assert(all.take(0) =~= Seq::<RefView>::empty());
                assert(links_view(links@) =~= Seq::<ResolvedView>::empty());
                while i < n
                    invariant
                        i <= n,
                        n == c.chain@.len(),
                        *reference == HandlerRef::Composite(*c),
                        all == chain_view(c.chain@),
                        reference@ == (RefView::Composite {
                            chain: all,
                            combine: c.combine,
                            stop_on_error: c.stop_on_error,
                        }),
                        resolved_links(self@, all.take(i as int), tool_name@) == Ok::<_, ErrorView>(
                            links_view(links@),
                        ),
                    decreases n - i,
                {
                    let ghost done = links@;
                    assert(all.take(i + 1).drop_last() =~= all.take(i as int));
                    assert(all.take(i + 1).last() == c.chain@[i as int]@);
                    assert(decreases_to!(*reference => reference->Composite_0.chain@[i as int]));
                    match self.resolve_ref(&c.chain[i], tool_name) {
                        Err(e) => {
                            proof {
                                lemma_links_fail(self@, all, tool_name@, i + 1);
                            }
                            return Err(e);
                        },
                        Ok(h) => {
                            links.push(h);
                            assert(links_view(links@) =~= links_view(done).push(h@));
                        },
                    }
                    i = i + 1;
                }
                assert(all.take(n as int) =~= all);
                let chain = ResolvedChain {
                    links,
                    combine: c.combine,
                    stop_on_error: c.stop_on_error,
                };
                let r = ResolvedHandler::Chain(chain);
                assert(r@->links =~= links_view(links@));
                Ok(r)
            },
            other => match self.builtin.resolve_ref(other, tool_name) {
                Ok(b) => Ok(ResolvedHandler::Builtin(b)),
                Err(e) => Err(e),
            },
        }
    }
}

// ---------------------------------------------------------------------------
// Chains
// ---------------------------------------------------------------------------

/// What a link of a sequence hands on.
pub open spec fn stepped(
    current: JsonView,
    outcome: Result<JsonView, ErrorView>,
    stop_on_error: bool,
) -> Result<JsonView, ErrorView> {
    match outcome {
        Ok(v) => Ok(v),
        Err(e) => if stop_on_error {
            Err(e)
        } else {
            Ok(current)
        },
    }
}

/// What a sequence does after one of its links: it goes on with the value of the link, or with
/// the value before where the link failed and errors do not stop it.
pub fn sequence_step(current: Json, outcome: Result<Json, ToolError>, stop_on_error: bool) -> (r:
    Result<Json, ToolError>)
    ensures
        match outcome {
            Ok(v) => r == Ok::<Json, ToolError>(v),
            Err(e) => if stop_on_error {
                r == Err::<Json, ToolError>(e)
            } else {
                r == Ok::<Json, ToolError>(current)
            },
        },
        (match r {
            Ok(v) => Ok(v@),
            Err(e) => Err(e@),
        }) == stepped(
            current@,
            match outcome {
                Ok(v) => Ok(v@),
                Err(e) => Err(e@),
            },
            stop_on_error,
        ),
{
    match outcome {
        Ok(v) => Ok(v),
        Err(e) => if stop_on_error {
            Err(e)
        } else {
            Ok(current)
        },
    }
}

/// What links that ran side by side come to: the list of their values.
pub fn combine_parallel(results: Vec<Json>) -> (r: Json)
    ensures
        r@ == JsonView::Array(items_view(results@)),
{
    proof {
        lemma_array_view(results);
    }
    Json::Array(results)
}

/// The members of all the values that are objects.
pub open spec fn all_members(values: Seq<JsonView>) -> Seq<(Seq<char>, JsonView)>
    decreases values.len(),
{
    if values.len() == 0 {
        Seq::empty()
    } else {
        all_members(values.drop_last()) + members_of(values.last())
    }
}

/// What merged links come to: one object with the members of all values that are objects, a
/// later one in place of an earlier one with its key.
pub fn combine_merge(results: &Vec<Json>) -> (r: Json)
    ensures
        r@ == JsonView::Object(object_of(all_members(items_view(results@)))),
{
    let ghost all = items_view(results@);
    let mut pairs: Vec<(String, Json)> = Vec::new();
    let n = results.len();
    let mut i: usize = 0;
    assert(all.take(0) =~= Seq::<JsonView>::empty());
    assert(members_view(pairs@) =~= Seq::<(Seq<char>, JsonView)>::empty());
    while i < n
        invariant
            i <= n,
            n == results@.len(),
            all == items_view(results@),
            members_view(pairs@) == all_members(all.take(i as int)),
        decreases n - i,
    {
        assert(all.take(i + 1).drop_last() =~= all.take(i as int));
        assert(all.take(i + 1).last() == results@[i as int]@);
        add_members(&mut pairs, &results[i]);
        i = i + 1;
    }
    assert(all.take(n as int) =~= all);
    build_object(pairs)
}

/// What a sequence returns whose links, each given what the one before handed on, had these
/// outcomes.
pub open spec fn chained(
    start: JsonView,
    outcomes: Seq<Result<JsonView, ErrorView>>,
    stop_on_error: bool,
) -> Result<JsonView, ErrorView>
    decreases outcomes.len(),
{
    if outcomes.len() == 0 {
        Ok(start)
    } else {
        match stepped(start, outcomes[0], stop_on_error) {
            Ok(v) => chained(v, outcomes.skip(1), stop_on_error),
            Err(e) => Err(e),
        }
    }
}

/// A sequence that stops on errors returns the first error; without one, what its last link
/// returned.
pub proof fn law_sequence_stops(
    start: JsonView,
    outcomes: Seq<Result<JsonView, ErrorView>>,
    i: int,
)
    requires
        0 <= i < outcomes.len(),
        forall|k: int| 0 <= k < i ==> (#[trigger] outcomes[k]) is Ok,
    ensures
        outcomes[i] is Err ==> chained(start, outcomes, true) == outcomes[i],
        outcomes[i] is Ok && i == outcomes.len() - 1 ==> chained(start, outcomes, true)
            == outcomes[i],
    decreases outcomes.len(),
{
    let rest = outcomes.skip(1);
    if i > 0 {
        assert(outcomes[0] is Ok);
        assert forall|k: int| 0 <= k < i - 1 implies (#[trigger] rest[k]) is Ok by {
            assert(rest[k] == outcomes[k + 1]);
        }
        assert(rest[i - 1] == outcomes[i]);
        law_sequence_stops(outcomes[0]->Ok_0, rest, i - 1);
    } else if outcomes[0] is Ok && outcomes.len() == 1 {
        assert(rest =~= Seq::empty());
        reveal_with_fuel(chained, 2);
    }
}

/// A sequence that goes on after errors never fails: it returns what the last link that did
/// not fail returned, and its input where every link failed.
pub proof fn law_sequence_goes_on(
    start: JsonView,
    outcomes: Seq<Result<JsonView, ErrorView>>,
    i: int,
)
    requires
        -1 <= i < outcomes.len(),
        i >= 0 ==> outcomes[i] is Ok,
        forall|k: int| i < k < outcomes.len() ==> (#[trigger] outcomes[k]) is Err,
    ensures
        chained(start, outcomes, false) == if i < 0 {
            Ok::<JsonView, ErrorView>(start)
        } else {
            outcomes[i]
        },
    decreases outcomes.len(),
{
    if outcomes.len() > 0 {
        let rest = outcomes.skip(1);
        assert forall|k: int| i - 1 < k < rest.len() && k >= 0 implies (#[trigger] rest[k])
            is Err by {
            assert(rest[k] == outcomes[k + 1]);
        }
        if i > 0 {
            assert(rest[i - 1] == outcomes[i]);
            match outcomes[0] {
                Ok(v) => law_sequence_goes_on(v, rest, i - 1),
                Err(_) => law_sequence_goes_on(start, rest, i - 1),
            }
        } else if i == 0 {
            law_sequence_goes_on(outcomes[0]->Ok_0, rest, -1);
        } else {
            assert(outcomes[0] is Err);
            law_sequence_goes_on(start, rest, -1);
        }
    }
}

/// A chain can be resolved exactly where each of its links can, and its links are resolved in
/// their order, each by itself.
pub proof fn law_chain_is_resolved(
    names: Seq<(Seq<char>, u64)>,
    chain: Seq<RefView>,
    tool_name: Seq<char>,
)
    ensures
        resolved_links(names, chain, tool_name) is Ok <==> forall|i: int|
            0 <= i < chain.len() ==> resolved(names, #[trigger] chain[i], tool_name) is Ok,
        resolved_links(names, chain, tool_name) matches Ok(links) ==> links.len() == chain.len()
            && forall|i: int|
            0 <= i < chain.len() ==> resolved(names, #[trigger] chain[i], tool_name) == Ok::<
                ResolvedView,
                ErrorView,
            >(links[i]),
    decreases chain.len(),
{
    if chain.len() > 0 {
        let d = chain.drop_last();
        law_chain_is_resolved(names, d, tool_name);
        assert(chain[chain.len() - 1] == chain.last());
        assert forall|i: int| 0 <= i < d.len() implies chain[i] == d[i] by {}
        if resolved_links(names, chain, tool_name) is Ok {
            assert forall|i: int| 0 <= i < chain.len() implies resolved(
                names,
                #[trigger] chain[i],
                tool_name,
            ) is Ok by {
                if i < d.len() {
                    assert(resolved(names, d[i], tool_name) is Ok);
                }
            }
        } else if resolved_links(names, d, tool_name) is Err {
            let i = choose|i: int|
                0 <= i < d.len() && resolved(names, #[trigger] d[i], tool_name) is Err;
            assert(resolved(names, chain[i], tool_name) is Err);
        }
    }
}

/// The first link that cannot be resolved says what is wrong with a chain.
pub proof fn law_first_bad_link_decides(
    names: Seq<(Seq<char>, u64)>,
    chain: Seq<RefView>,
    tool_name: Seq<char>,
    i: int,
)
    requires
        0 <= i < chain.len(),
        forall|k: int| 0 <= k < i ==> resolved(names, #[trigger] chain[k], tool_name) is Ok,
        resolved(names, chain[i], tool_name) is Err,
    ensures
        resolved_links(names, chain, tool_name) is Err,
        resolved_links(names, chain, tool_name)->Err_0 == resolved(
            names,
            chain[i],
            tool_name,
        )->Err_0,
    decreases chain.len(),
{
    let d = chain.drop_last();
    if i < d.len() {
        assert forall|k: int| 0 <= k < i implies resolved(names, #[trigger] d[k], tool_name) is Ok by {
            assert(d[k] == chain[k]);
        }
        law_first_bad_link_decides(names, d, tool_name, i);
    } else {
        law_chain_is_resolved(names, d, tool_name);
        assert forall|k: int| 0 <= k < d.len() implies resolved(
            names,
            #[trigger] d[k],
            tool_name,
        ) is Ok by {
            assert(d[k] == chain[k]);
        }
    }
}

/// A request and a process are resolved to themselves, and a chain to its resolved links with
/// its own way of combining them.
pub proof fn law_what_references_lead_to(
    names: Seq<(Seq<char>, u64)>,
    reference: RefView,
    tool_name: Seq<char>,
)
    ensures
        reference is Http ==> resolved(names, reference, tool_name) == Ok::<
            ResolvedView,
            ErrorView,
        >(ResolvedView::Http(reference)),
        reference is Script ==> resolved(names, reference, tool_name) == Ok::<
            ResolvedView,
            ErrorView,
        >(ResolvedView::Script(reference)),
        resolved(names, reference, tool_name) matches Ok(ResolvedView::Chain {
            links,
            combine,
            stop_on_error,
        }) ==> reference is Composite && combine == reference->combine && stop_on_error
            == reference->stop_on_error && links.len() == reference->chain.len(),
{
    if let RefView::Composite { chain, combine, stop_on_error } = reference {
        law_chain_is_resolved(names, chain, tool_name);
    }
}

/// Merging gives under each key the value of the last result that has it.
pub proof fn law_merge_prefers_later(values: Seq<JsonView>, last: JsonView, k: Seq<char>)
    requires
        last matches JsonView::Object(m) ==> sorted_keys(m),
    ensures
        member(object_of(all_members(values.push(last))), k) == match field(last, k) {
            Some(v) => Some(v),
            None => member(object_of(all_members(values)), k),
        },
{
    let a = all_members(values);
    let b = members_of(last);
    assert(values.push(last).drop_last() =~= values);
    law_object_of(a + b, k);
    law_object_of(a, k);
    lemma_last_value_of_both(a, b, k);
    if last is Object {
        lemma_last_value(b, k);
    }
}

proof fn lemma_last_value_of_both(
    a: Seq<(Seq<char>, JsonView)>,
    b: Seq<(Seq<char>, JsonView)>,
    k: Seq<char>,
)
    ensures
        last_value(a + b, k) == match last_value(b, k) {
            Some(v) => Some(v),
            None => last_value(a, k),
        },
    decreases b.len(),
{
    if b.len() == 0 {
        assert(a + b =~= a);
    } else {
        lemma_last_value_of_both(a, b.drop_last(), k);
        assert((a + b).drop_last() =~= a + b.drop_last());
        assert((a + b).last() == b.last());
    }
}

} // verus!
