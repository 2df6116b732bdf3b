//! `ToolManagerImpl` — the high-level orchestrator that owns the registry and the hooks.
//!
//! Handlers and hooks are called by the runtime. The manager tells it what to call: a
//! `HookCall` is an event to be emitted, an `ExecutionPlan` a handler to be run.
use vstd::prelude::*;

use crate::error::ErrorView;
use crate::error::ToolError;
use crate::error::ValidationIssue;
use crate::json::clone_optional;
use crate::json::field;
use crate::json::items_view;
use crate::json::same_json;
use crate::json::Json;
use crate::json::JsonView;
use crate::lists::law_picked;
use crate::manager::hook_manager::batch_registered;
use crate::manager::hook_manager::plain_hook;
use crate::manager::hook_manager::stays;
use crate::manager::hook_manager::with_hook;
use crate::manager::hook_manager::without_callback;
use crate::manager::hook_manager::HookEntry;
use crate::manager::hook_manager::HookManagerImpl;
use crate::manager::tool_registry::has_name;
use crate::manager::tool_registry::hooks_around;
use crate::manager::tool_registry::law_lookup_after_removal;
use crate::manager::tool_registry::law_register;
use crate::manager::tool_registry::lemma_name_index_bounds;
use crate::manager::tool_registry::lookup;
use crate::manager::tool_registry::name_index;
use crate::manager::tool_registry::package_index;
use crate::manager::tool_registry::package_warnings;
use crate::manager::tool_registry::register_fails;
use crate::manager::tool_registry::registry_wf;
use crate::manager::tool_registry::tool_warnings;
use crate::manager::tool_registry::tools_after;
use crate::manager::tool_registry::with_package;
use crate::manager::tool_registry::without;
use crate::manager::tool_registry::without_package;
use crate::manager::tool_registry::PackageEntry;
use crate::manager::tool_registry::PackageHooks;
use crate::manager::tool_registry::RegisteredPackage;
use crate::manager::tool_registry::RegistryView;
use crate::manager::tool_registry::ToolEntry;
use crate::manager::tool_registry::ToolRegistryImpl;
use crate::resolvers::composite_resolver::CompositeHandlerResolver;
use crate::serialized::configs_view;
use crate::serialized::ChoiceView;
use crate::serialized::ConfigView;
use crate::serialized::NamespaceConfigOrBool;
use crate::serialized::PackageConfigView;
use crate::serialized::SerializedHandler;
use crate::serialized::SerializedManagerConfig;
use crate::serialized::SerializedView;
use crate::serialized::SettingsView;
use crate::serialized::ToolConfig;
use crate::serialized::ToolConfigView;
use crate::serialized::ToolManagerSerializedConfig;
use crate::serialized::ToolPackageConfig;
use crate::text::append_strings;
use crate::text::listed;
use crate::text::same;
use crate::text::views;
use crate::types::callback_for;
use crate::types::clone_optional_items;
use crate::types::clone_text;
use crate::types::clone_texts;
use crate::types::optional_text;
use crate::types::tools_view;
use crate::types::ConflictStrategy;
use crate::types::DEFAULT_NAMESPACE_SEPARATOR;
use crate::types::HookRegistrationOptions;
use crate::types::ManagerConfigView;
use crate::types::PackageView;
use crate::types::ResolvedToolName;
use crate::types::SchemaView;
use crate::types::Tool;
use crate::types::ToolDefinition;
use crate::types::ToolExecutionContext;
use crate::types::ToolHookCallbacks;
use crate::types::ToolHookEvent;
use crate::types::ToolManagerConfig;
use crate::types::ToolPackage;
use crate::types::ToolView;
use crate::utils::llm_arg_normalizer::normal_args;
use crate::utils::llm_arg_normalizer::normalize_llm_args;
use crate::utils::namespace::namespace_of;
use crate::utils::namespace::parse_tool_name;
use crate::utils::namespace::remove_namespace;
use crate::utils::namespace::short_name;
use crate::utils::schema_validator::input_errors;
use crate::utils::schema_validator::validate_input;

verus! {

// ---------------------------------------------------------------------------
// What the runtime is asked to do
// ---------------------------------------------------------------------------

/// An event to be emitted, with its arguments.
#[derive(Debug)]
pub struct HookCall {
    /// The event.
    pub event: ToolHookEvent,
    /// The arguments that the hooks get.
    pub args: Vec<Json>,
}

/// The call is about this event and this name alone.
pub open spec fn names_event(c: HookCall, event: ToolHookEvent, name: Seq<char>) -> bool {
    c.event == event && items_view(c.args@) == seq![JsonView::String(name)]
}

/// Calls as events with their arguments.
pub open spec fn calls_view(v: Seq<HookCall>) -> Seq<(ToolHookEvent, Seq<JsonView>)> {
    v.map_values(|c: HookCall| (c.event, items_view(c.args@)))
}

/// One call for each name.
pub open spec fn calls_for(event: ToolHookEvent, names: Seq<Seq<char>>) -> Seq<
    (ToolHookEvent, Seq<JsonView>),
> {
    names.map_values(|n: Seq<char>| (event, seq![JsonView::String(n)]))
}

fn named_call(event: ToolHookEvent, name: &str) -> (r: HookCall)
    ensures
        names_event(r, event, name@),
{
    let mut args: Vec<Json> = Vec::new();
    args.push(Json::String(String::from_str(name)));
    assert(items_view(args@) =~= seq![JsonView::String(name@)]);
    HookCall { event, args }
}

/// A handler to be run.
#[derive(Debug)]
pub struct ExecutionPlan {
    /// The name under which the tool was called.
    pub name: String,
    /// The number of the handler.
    pub handler: u64,
    /// The input for the handler.
    pub input: Json,
    /// How long it may take, in milliseconds.
    pub timeout_ms: u64,
    /// The context for the handler.
    pub context: ToolExecutionContext,
    /// The hooks of the tool's package, to be run before and after the handler.
    pub hooks: PackageHooks,
}

/// How the run of a handler ended.
#[derive(Debug)]
pub enum Outcome {
    /// It gave a value.
    Value(Json),
    /// It failed.
    Failed(ToolError),
    /// It took too long.
    TimedOut,
}

// ---------------------------------------------------------------------------
// Executing a tool
// ---------------------------------------------------------------------------

/// The names of all tools.
pub open spec fn tool_names(r: RegistryView) -> Seq<Seq<char>> {
    r.tools.map_values(|e: ToolEntry| e.tool.name)
}

/// The input that a handler gets: repaired by the schema where inputs are validated.
pub open spec fn handler_input(input: JsonView, schema: SchemaView, validate: bool) -> JsonView {
    if validate {
        normal_args(input, schema)
    } else {
        input
    }
}

/// The issues that go with messages about an input.
pub open spec fn input_issues(messages: Seq<Seq<char>>) -> Seq<(Seq<char>, Seq<char>)> {
    messages.map_values(|m: Seq<char>| ("<input>"@, m))
}

/// Why a tool cannot be run on an input.
pub open spec fn execute_fault(
    m: ManagerView,
    name: Seq<char>,
    input: JsonView,
) -> Option<ErrorView> {
    if m.destroyed {
        Some(ErrorView::ManagerDestroyed)
    } else {
        match lookup(m.registry.tools, name) {
            None => Some(ErrorView::ToolNotFound { name, available: tool_names(m.registry) }),
            Some(e) => {
                let fixed = handler_input(input, e.tool.input_schema, m.config.validate_schemas);
                let messages = input_errors(fixed, e.tool.input_schema);
                if m.config.validate_schemas && messages.len() > 0 {
                    Some(
                        ErrorView::Validation {
                            summary: "input failed schema validation"@,
                            errors: input_issues(messages),
                        },
                    )
                } else {
                    None
                }
            },
        }
    }
}

/// How often a tool may be tried again.
pub open spec fn retries_of(t: ToolView, config: ManagerConfigView) -> u32 {
    match t.max_retries {
        Some(n) => n,
        None => config.default_max_retries,
    }
}

/// How long a tool may take.
pub open spec fn timeout_of(t: ToolView, config: ManagerConfigView) -> u64 {
    match t.timeout {
        Some(n) => n,
        None => config.default_timeout,
    }
}

/// The context that a call gets that brings none.
pub open spec fn default_context(
    c: ToolExecutionContext,
    m: ManagerView,
    name: Seq<char>,
    t: ToolView,
) -> bool {
    &&& exists|identity: Seq<char>|
        #[trigger] crate::types::is_uuid(identity) && c.tool_id@ == name + "-"@ + identity
    &&& c.attempt == 0
    &&& c.max_retries == retries_of(t, m.config)
    &&& c.metadata is None
    &&& optional_text(c.namespace) == namespace_of(name, m.registry.default_separator)
    &&& optional_text(c.original_name) == Some(short_name(name, m.registry.default_separator))
}

/// The plan runs this tool on this input.
pub open spec fn plan_fits(
    p: ExecutionPlan,
    m: ManagerView,
    name: Seq<char>,
    input: JsonView,
    context: Option<ToolExecutionContext>,
) -> bool {
    let t = lookup(m.registry.tools, name)->0.tool;
    &&& p.name@ == name
    &&& p.handler == t.handler
    &&& p.input@ == handler_input(input, t.input_schema, m.config.validate_schemas)
    &&& p.timeout_ms == timeout_of(t, m.config)
    &&& p.hooks == hooks_around(m.registry, name)
    &&& match context {
        Some(c) => p.context == c,
        None => default_context(p.context, m, name, t),
    }
}

fn issues_of(messages: &Vec<String>) -> (r: Vec<ValidationIssue>)
    ensures
        crate::error::issues_view(r@) == input_issues(views(messages@)),
{
    let mut out: Vec<ValidationIssue> = Vec::new();
    let n = messages.len();
    let mut i: usize = 0;
    while i < n
        invariant
            i <= n,
            n == messages@.len(),
            out@.len() == i,
            forall|k: int|
                0 <= k < i ==> (#[trigger] out@[k]).path@ == "<input>"@ && out@[k].message@
                    == messages@[k]@,
        decreases n - i,
    {
        out.push(
            ValidationIssue {
                path: String::from_str("<input>"),
                message: messages[i].clone(),
            },
        );
        i = i + 1;
    }
    assert(crate::error::issues_view(out@) =~= input_issues(views(messages@)));
    out
}

impl ExecutionPlan {
    fn both(&self, event: ToolHookEvent) -> (r: HookCall)
        ensures
            r.event == event,
            items_view(r.args@) == seq![JsonView::String(self.name@), self.input@],
    {
        let mut args: Vec<Json> = Vec::new();
        args.push(Json::String(self.name.clone()));
        args.push(self.input.clone());
        assert(items_view(args@) =~= seq![JsonView::String(self.name@), self.input@]);
        HookCall { event, args }
    }

    /// The event to be emitted before the handler runs.
    pub fn before(&self) -> (r: HookCall)
        ensures
            r.event == ToolHookEvent::BeforeExecute,
            items_view(r.args@) == seq![JsonView::String(self.name@), self.input@],
    {
        self.both(ToolHookEvent::BeforeExecute)
    }

    /// What is to be emitted and returned after the handler ran.
    pub fn finish(&self, outcome: Outcome) -> (r: (HookCall, Result<Json, ToolError>))
        ensures
            match outcome {
                Outcome::Value(v) => r.1 == Ok::<Json, ToolError>(v) && r.0.event
                    == ToolHookEvent::AfterExecute && items_view(r.0.args@) == seq![
                    JsonView::String(self.name@),
                    self.input@,
                ],
                Outcome::Failed(e) => r.1 == Err::<Json, ToolError>(e) && names_event(
                    r.0,
                    ToolHookEvent::OnError,
                    self.name@,
                ),
                Outcome::TimedOut => r.1 is Err && r.1->Err_0@ == (ErrorView::ToolTimeout {
                    tool_name: self.name@,
                    timeout_ms: self.timeout_ms as nat,
                }) && names_event(r.0, ToolHookEvent::OnTimeout, self.name@),
            },
    {
        match outcome {
            Outcome::Value(v) => (self.both(ToolHookEvent::AfterExecute), Ok(v)),
            Outcome::Failed(e) => (named_call(ToolHookEvent::OnError, self.name.as_str()), Err(e)),
            Outcome::TimedOut => (
                named_call(ToolHookEvent::OnTimeout, self.name.as_str()),
                Err(ToolError::timeout(self.name.as_str(), self.timeout_ms)),
            ),
        }
    }
}

// ---------------------------------------------------------------------------
// The manager
// ---------------------------------------------------------------------------

/// What a manager holds, but for its hooks.
pub struct ManagerView {
    /// The registry.
    pub registry: RegistryView,
    /// The configuration.
    pub config: ManagerConfigView,
    /// It was destroyed.
    pub destroyed: bool,
    /// The handlers that references can name.
    pub resolver: ResolverView,
}

/// What the resolver of a manager holds.
pub struct ResolverView {
    /// The handlers, each with its name.
    pub handlers: Seq<(Seq<char>, u64)>,
    /// How long a handler may take where nothing else is said, in milliseconds.
    pub default_timeout: u64,
}

/// Default tool manager implementation.
#[derive(Debug)]
pub struct ToolManagerImpl {
    registry: ToolRegistryImpl,
    hook_manager: HookManagerImpl,
    config: ToolManagerConfig,
    destroyed: bool,
    handler_resolver: CompositeHandlerResolver,
}

impl View for ToolManagerImpl {
    type V = ManagerView;

    closed spec fn view(&self) -> ManagerView {
        ManagerView {
            registry: self.registry@,
            config: self.config@,
            destroyed: self.destroyed,
            resolver: ResolverView {
                handlers: self.handler_resolver@,
                default_timeout: self.handler_resolver.default_timeout(),
            },
        }
    }
}

/// The resolver of a fresh manager.
pub open spec fn fresh_resolver(config: ManagerConfigView) -> ResolverView {
    ResolverView { handlers: Seq::empty(), default_timeout: config.default_timeout }
}

/// The registry of a fresh manager.
pub open spec fn fresh_registry(config: ManagerConfigView) -> RegistryView {
    RegistryView {
        tools: Seq::empty(),
        packages: Seq::empty(),
        conflict_strategy: config.conflict_strategy,
        default_separator: config.default_separator,
    }
}

/// The registry after a tool was registered, or not.
pub open spec fn registry_after(r: RegistryView, e: ToolEntry) -> RegistryView {
    if register_fails(r, e.tool.name) {
        r
    } else {
        RegistryView { tools: tools_after(r, e), ..r }
    }
}

/// A tool on its own, or with the name of its package.
pub open spec fn tool_entry(tool: ToolView, package: Option<&str>) -> ToolEntry {
    ToolEntry {
        tool,
        package: match package {
            Some(p) => Some(p@),
            None => None,
        },
    }
}

/// The registry after every package was unregistered, from the first on.
pub open spec fn without_packages(r: RegistryView) -> RegistryView
    decreases r.packages.len(),
{
    if r.packages.len() == 0 {
        r
    } else {
        without_packages(
            RegistryView {
                tools: without(r.tools, r.packages[0].tool_names),
                packages: r.packages.skip(1),
                ..r
            },
        )
    }
}

/// What is to be called when a package was registered.
#[derive(Debug)]
pub struct PackageRegistered {
    /// The number of the package's own hook.
    pub on_init: Option<u64>,
    /// The event to be emitted after it.
    pub call: HookCall,
}

impl ToolManagerImpl {
    /// The hooks for an event, in the order in which they run.
    pub closed spec fn hooks_for(&self, e: ToolHookEvent) -> Seq<HookEntry> {
        self.hook_manager.hooks_for(e)
    }

    /// How many hooks have ever been registered.
    pub closed spec fn hooks_registered(&self) -> nat {
        self.hook_manager.registered()
    }

    /// The registry and the hooks are in order.
    pub closed spec fn wf(&self) -> bool {
        registry_wf(self.registry@) && self.hook_manager.wf() && self.handler_resolver.wf()
    }

    /// The same hooks.
    pub open spec fn same_hooks(&self, other: &ToolManagerImpl) -> bool {
        self.hooks_registered() == other.hooks_registered() && forall|e: ToolHookEvent|
            #[trigger] self.hooks_for(e) == other.hooks_for(e)
    }

    /// The hooks are those that a configuration brings, and no others.
    pub open spec fn hooks_of(&self, config: ManagerConfigView) -> bool {
        forall|e: ToolHookEvent|
            batch_registered(
                Seq::empty(),
                #[trigger] self.hooks_for(e),
                match config.hooks {
                    Some(c) => callback_for(c, e),
                    None => None,
                },
                0,
                self.hooks_registered(),
            )
    }

    /// Construct a new manager with the given config.
    pub fn new(config: ToolManagerConfig) -> (r: Self)
        ensures
            r.wf(),
            r@ == (ManagerView {
                registry: fresh_registry(config@),
                config: config@,
                destroyed: false,
                resolver: fresh_resolver(config@),
            }),
            r.hooks_registered() <= 11,
            r.hooks_of(config@),
    {
        let registry = ToolRegistryImpl::with_config(
            config.conflict_strategy,
            config.default_separator,
        );
        let mut hook_manager = HookManagerImpl::new();
        let ghost bare = hook_manager;
        if let Some(hooks) = config.hooks {
            hook_manager.register_callbacks(hooks);
        }
        let handler_resolver = CompositeHandlerResolver::new(config.default_timeout);
        let r = ToolManagerImpl {
            registry,
            hook_manager,
            config,
            destroyed: false,
            handler_resolver,
        };
        proof {
            assert forall|e: ToolHookEvent|
                batch_registered(
                    Seq::empty(),
                    #[trigger] r.hooks_for(e),
                    match config@.hooks {
                        Some(c) => callback_for(c, e),
                        None => None,
                    },
                    0,
                    r.hooks_registered(),
                ) by {
                assert(bare.hooks_for(e) == Seq::<HookEntry>::empty());
                assert(r.hooks_for(e) == r.hook_manager.hooks_for(e));
            }
        }
        r
    }

    /// Gives the manager another configuration: its settings hold from now on, and its hooks
    /// are added.
    pub fn apply_config(&mut self, config: ToolManagerConfig)
        requires
            old(self).wf(),
            old(self).hooks_registered() + 11 <= u64::MAX,
        ensures
            final(self).wf(),
            final(self)@ == (ManagerView {
                registry: RegistryView {
                    conflict_strategy: config@.conflict_strategy,
                    default_separator: config@.default_separator,
                    ..old(self)@.registry
                },
                config: config@,
                destroyed: old(self)@.destroyed,
                resolver: old(self)@.resolver,
            }),
            final(self).hooks_registered() <= old(self).hooks_registered() + 11,
            forall|e: ToolHookEvent|
                batch_registered(
                    old(self).hooks_for(e),
                    #[trigger] final(self).hooks_for(e),
                    match config@.hooks {
                        Some(c) => callback_for(c, e),
                        None => None,
                    },
                    old(self).hooks_registered(),
                    final(self).hooks_registered(),
                ),
    {
        self.registry.configure(config.conflict_strategy, config.default_separator);
        let ghost mid = *self;
        if let Some(hooks) = config.hooks {
            self.register_hooks(hooks);
        }
        let ghost end = *self;
        self.config = config;
        assert forall|e: ToolHookEvent|
            batch_registered(
                old(self).hooks_for(e),
                #[trigger] self.hooks_for(e),
                match config@.hooks {
                    Some(c) => callback_for(c, e),
                    None => None,
                },
                old(self).hooks_registered(),
                self.hooks_registered(),
            ) by {
            assert(self.hooks_for(e) == end.hooks_for(e));
            assert(mid.hooks_for(e) == old(self).hooks_for(e));
        }
    }

    /// The manager's configuration.
    pub fn config(&self) -> (r: &ToolManagerConfig)
        ensures
            r@ == self@.config,
    {
        &self.config
    }

    /// Access the hook manager.
    pub fn hook_manager(&self) -> (r: &HookManagerImpl)
        requires
            self.wf(),
        ensures
            r.wf(),
            r.registered() == self.hooks_registered(),
            forall|e: ToolHookEvent| #[trigger] r.hooks_for(e) == self.hooks_for(e),
    {
        &self.hook_manager
    }

    /// The resolver of this manager: names can be given to handlers through it.
    pub fn resolver(&mut self) -> (r: &mut CompositeHandlerResolver)
        requires
            old(self).wf(),
        ensures
            r.wf(),
            r@ == old(self)@.resolver.handlers,
            r.default_timeout() == old(self)@.resolver.default_timeout,
            final(r).wf() ==> final(self).wf(),
            final(self).same_hooks(&*old(self)),
            final(self)@ == (ManagerView {
                resolver: ResolverView {
                    handlers: final(r)@,
                    default_timeout: final(r).default_timeout(),
                },
                ..old(self)@
            }),
    {
        &mut self.handler_resolver
    }

    /// Register a single tool. Gives the event to be emitted, unless the tool was refused.
    pub fn register(&mut self, tool: Tool, package_name: Option<&str>) -> (r: Option<HookCall>)
        requires
            old(self).wf(),
        ensures
            final(self).wf(),
            final(self).same_hooks(&*old(self)),
            final(self)@ == (ManagerView {
                registry: registry_after(
                    old(self)@.registry,
                    tool_entry(tool@, package_name),
                ),
                ..old(self)@
            }),
            match r {
                Some(c) => !register_fails(old(self)@.registry, tool@.name) && names_event(
                    c,
                    ToolHookEvent::OnRegister,
                    tool@.name,
                ),
                None => register_fails(old(self)@.registry, tool@.name),
            },
    {
        let call = named_call(ToolHookEvent::OnRegister, tool.name.as_str());
        match self.registry.register_tool(tool, package_name) {
            Ok(_) => Some(call),
            Err(_) => None,
        }
    }

    /// Register a single package (with namespace + lifecycle hooks).
    pub fn register_package(&mut self, package: ToolPackage) -> (r: Result<
        PackageRegistered,
        ToolError,
    >)
        requires
            old(self).wf(),
        ensures
            final(self).wf(),
            final(self).same_hooks(&*old(self)),
            final(self)@.config == old(self)@.config,
            final(self)@.destroyed == old(self)@.destroyed,
            final(self)@.resolver == old(self)@.resolver,
            match r {
                Err(e) => with_package(old(self)@.registry, package@) is Err && e@ == with_package(
                    old(self)@.registry,
                    package@,
                )->Err_0 && final(self)@.registry == old(self)@.registry,
                Ok(p) => with_package(old(self)@.registry, package@) == Ok::<_, ErrorView>(
                    final(self)@.registry,
                ) && p.on_init == package@.on_init && names_event(
                    p.call,
                    ToolHookEvent::OnPackageRegister,
                    package@.name,
                ),
            },
    {
        let call = named_call(ToolHookEvent::OnPackageRegister, package.name.as_str());
        let on_init = package.on_init;
        match self.registry.register_package(package) {
            Err(e) => Err(e),
            Ok(_) => Ok(PackageRegistered { on_init, call }),
        }
    }

    /// The hooks that are to be run around each call of a tool.
    pub fn package_hooks(&self, name: &str) -> (r: PackageHooks)
        ensures
            r == hooks_around(self@.registry, name@),
    {
        self.registry.package_hooks(name)
    }

    /// The warnings that go with the registration of a tool.
    pub fn tool_warnings(&self, tool: &Tool) -> (r: Vec<String>)
        ensures
            views(r@) == tool_warnings(self@.registry, tool@),
    {
        self.registry.tool_warnings(tool)
    }

    /// The warnings that go with the registration of a package.
    pub fn package_warnings(&self, package: &ToolPackage) -> (r: Vec<String>)
        ensures
            views(r@) == package_warnings(self@.registry, package@),
    {
        self.registry.package_warnings(package)
    }

    /// Unregister a single tool by name.
    pub fn unregister(&mut self, name: &str) -> (r: HookCall)
        requires
            old(self).wf(),
        ensures
            final(self).wf(),
            final(self).same_hooks(&*old(self)),
            final(self)@ == (ManagerView {
                registry: RegistryView {
                    tools: without(old(self)@.registry.tools, seq![name@]),
                    ..old(self)@.registry
                },
                ..old(self)@
            }),
            names_event(r, ToolHookEvent::OnUnregister, name@),
    {
        self.registry.unregister_tool(name);
        named_call(ToolHookEvent::OnUnregister, name)
    }

    /// Takes a package out of the registry. Its own hook is to be called next, and
    /// `finish_unregister_package` after that.
    pub fn begin_unregister_package(&mut self, name: &str) -> (r: Result<
        RegisteredPackage,
        ToolError,
    >)
        requires
            old(self).wf(),
        ensures
            final(self).wf(),
            final(self).same_hooks(&*old(self)),
            final(self)@.config == old(self)@.config,
            final(self)@.destroyed == old(self)@.destroyed,
            final(self)@.resolver == old(self)@.resolver,
            ({
                let before = old(self)@.registry;
                let i = package_index(before.packages, name@);
                match r {
                    Err(e) => i >= before.packages.len() && e@ == ErrorView::PackageNotFound(name@)
                        && final(self)@.registry == before,
                    Ok(p) => i < before.packages.len() && p@ == before.packages[i]
                        && final(self)@.registry == (RegistryView {
                        packages: before.packages.remove(i),
                        ..before
                    }),
                }
            }),
    {
        self.registry.take_package(name)
    }

    /// Removes the tools of a package that was taken out.
    pub fn finish_unregister_package(&mut self, p: &RegisteredPackage) -> (r: HookCall)
        requires
            old(self).wf(),
        ensures
            final(self).wf(),
            final(self).same_hooks(&*old(self)),
            final(self)@ == (ManagerView {
                registry: RegistryView {
                    tools: without(old(self)@.registry.tools, p@.tool_names),
                    ..old(self)@.registry
                },
                ..old(self)@
            }),
            names_event(r, ToolHookEvent::OnPackageUnregister, p@.pkg.name),
    {
        self.registry.drop_package_tools(p);
        named_call(ToolHookEvent::OnPackageUnregister, p.pkg.name.as_str())
    }

    /// Unregister a package and all of its tools. Returns the number of the package's own
    /// hook, and the event to be emitted after it.
    pub fn unregister_package(&mut self, name: &str) -> (r: Result<
        (Option<u64>, HookCall),
        ToolError,
    >)
        requires
            old(self).wf(),
        ensures
            final(self).wf(),
            final(self).same_hooks(&*old(self)),
            final(self)@.config == old(self)@.config,
            final(self)@.destroyed == old(self)@.destroyed,
            final(self)@.resolver == old(self)@.resolver,
            ({
                let before = old(self)@.registry;
                let i = package_index(before.packages, name@);
                match r {
                    Err(e) => i >= before.packages.len() && e@ == ErrorView::PackageNotFound(name@)
                        && final(self)@.registry == before,
                    Ok((hook, call)) => i < before.packages.len() && hook
                        == before.packages[i].pkg.on_destroy && names_event(
                        call,
                        ToolHookEvent::OnPackageUnregister,
                        name@,
                    ) && final(self)@.registry == without_package(before, name@),
                }
            }),
    {
        match self.registry.unregister_package(name) {
            Err(e) => Err(e),
            Ok(hook) => Ok((hook, named_call(ToolHookEvent::OnPackageUnregister, name))),
        }
    }

    /// Look up a tool by name.
    pub fn get_tool(&self, name: &str) -> (r: Option<Tool>)
        ensures
            match r {
                Some(t) => lookup(self@.registry.tools, name@) is Some && t@ == lookup(
                    self@.registry.tools,
                    name@,
                )->0.tool,
                None => lookup(self@.registry.tools, name@) is None,
            },
    {
        self.registry.get_tool(name)
    }

    /// All registered tool names.
    pub fn get_tool_names(&self) -> (r: Vec<String>)
        ensures
            views(r@) == tool_names(self@.registry),
    {
        self.registry.get_tool_names()
    }

    /// All registered tool definitions.
    pub fn get_tool_definitions(&self) -> (r: Vec<ToolDefinition>)
        ensures
            r@.map_values(|d: ToolDefinition| d@) == self@.registry.tools.map_values(
                |e: ToolEntry| crate::manager::tool_registry::definition_of(e.tool),
            ),
    {
        self.registry.get_tool_definitions()
    }

    /// Whether a tool with the given name is registered.
    pub fn has(&self, name: &str) -> (r: bool)
        ensures
            r == has_name(self@.registry.tools, name@),
    {
        self.registry.has(name)
    }

    /// Look up a package by name.
    pub fn get_package(&self, name: &str) -> (r: Option<ToolPackage>)
        ensures
            ({
                let i = package_index(self@.registry.packages, name@);
                match r {
                    Some(p) => i < self@.registry.packages.len() && p@
                        == self@.registry.packages[i].pkg,
                    None => i >= self@.registry.packages.len(),
                }
            }),
    {
        self.registry.get_package(name)
    }

    /// All registered package names.
    pub fn get_package_names(&self) -> (r: Vec<String>)
        ensures
            views(r@) == self@.registry.packages.map_values(|e: PackageEntry| e.pkg.name),
    {
        self.registry.get_package_names()
    }

    /// Resolve a tool name into its namespace / original name.
    pub fn resolve_tool_name(&self, name: &str) -> (r: Option<ResolvedToolName>)
        ensures
            match r {
                Some(t) => {
                    &&& lookup(self@.registry.tools, name@) is Some
                    &&& t.tool@ == lookup(self@.registry.tools, name@)->0.tool
                    &&& optional_text(t.namespace) == namespace_of(
                        name@,
                        self@.registry.default_separator,
                    )
                    &&& t.original_name@ == short_name(name@, self@.registry.default_separator)
                },
                None => lookup(self@.registry.tools, name@) is None,
            },
    {
        self.registry.resolve_tool_name(name)
    }

    /// Prepares the execution of a tool by name: which handler is to be run on what, or why
    /// none is.
    pub fn begin_execute(&self, name: &str, input: Json, context: Option<ToolExecutionContext>)
        -> (r: Result<ExecutionPlan, ToolError>)
        ensures
            match r {
                Err(e) => execute_fault(self@, name@, input@) is Some && e@ == execute_fault(
                    self@,
                    name@,
                    input@,
                )->0,
                Ok(p) => execute_fault(self@, name@, input@) is None && plan_fits(
                    p,
                    self@,
                    name@,
                    input@,
                    context,
                ),
            },
    {
        if self.destroyed {
            return Err(ToolError::ManagerDestroyed);
        }
        let resolved = match self.registry.resolve_tool_name(name) {
            Some(r) => r,
            None => {
                let names = self.registry.get_tool_names();
                return Err(ToolError::tool_not_found_with_available(name, names));
            },
        };
        let max_retries = match resolved.tool.max_retries {
            Some(n) => n,
            None => self.config.default_max_retries,
        };
        let timeout_ms = match resolved.tool.timeout {
            Some(n) => n,
            None => self.config.default_timeout,
        };
        let mut fixed = input;
        if self.config.validate_schemas {
            normalize_llm_args(&mut fixed, &resolved.tool.input_schema);
            let found = validate_input(&fixed, &resolved.tool.input_schema);
            if !found.valid {
                let issues = issues_of(&found.errors);
                return Err(ToolError::validation("input failed schema validation", issues));
            }
        }
        let context = match context {
            Some(c) => c,
            None => {
                let mut c = ToolExecutionContext::fresh(name, max_retries);
                c.namespace = resolved.namespace;
                c.original_name = Some(resolved.original_name);
                c
            },
        };
        Ok(
            ExecutionPlan {
                name: String::from_str(name),
                handler: resolved.tool.handler,
                input: fixed,
                timeout_ms,
                context,
                hooks: self.registry.package_hooks(name),
            },
        )
    }
}

// ---------------------------------------------------------------------------
// Hooks
// ---------------------------------------------------------------------------

impl ToolManagerImpl {
    /// Register a hook for a single event.
    pub fn on(&mut self, event: ToolHookEvent, callback: u64)
        requires
            old(self).wf(),
            old(self).hooks_registered() < u64::MAX,
        ensures
            final(self).wf(),
            final(self)@ == old(self)@,
            final(self).hooks_registered() == old(self).hooks_registered() + 1,
            final(self).hooks_for(event) == with_hook(
                old(self).hooks_for(event),
                plain_hook(callback, old(self).hooks_registered() as u64),
            ),
            forall|e: ToolHookEvent|
                e != event ==> #[trigger] final(self).hooks_for(e) == old(self).hooks_for(e),
    {
        let ghost before = self.hook_manager;
        self.hook_manager.on(event, callback);
        assert forall|e: ToolHookEvent| e != event implies #[trigger] self.hooks_for(e) == old(
            self,
        ).hooks_for(e) by {
            assert(self.hook_manager.hooks_for(e) == before.hooks_for(e));
        }
    }

    /// Register a hook for a single event with extra options.
    pub fn on_with_options(
        &mut self,
        event: ToolHookEvent,
        callback: u64,
        options: HookRegistrationOptions,
    )
        requires
            old(self).wf(),
            old(self).hooks_registered() < u64::MAX,
        ensures
            final(self).wf(),
            final(self)@ == old(self)@,
            final(self).hooks_registered() == old(self).hooks_registered() + 1,
            final(self).hooks_for(event) == with_hook(
                old(self).hooks_for(event),
                HookEntry { callback, options, serial: old(self).hooks_registered() as u64 },
            ),
            forall|e: ToolHookEvent|
                e != event ==> #[trigger] final(self).hooks_for(e) == old(self).hooks_for(e),
    {
        let ghost before = self.hook_manager;
        self.hook_manager.on_with_options(event, callback, options);
        assert forall|e: ToolHookEvent| e != event implies #[trigger] self.hooks_for(e) == old(
            self,
        ).hooks_for(e) by {
            assert(self.hook_manager.hooks_for(e) == before.hooks_for(e));
        }
    }

    /// Unregister hooks. When `callback` is `None`, all hooks for the event are removed.
    pub fn off(&mut self, event: ToolHookEvent, callback: Option<u64>)
        requires
            old(self).wf(),
        ensures
            final(self).wf(),
            final(self)@ == old(self)@,
            final(self).hooks_registered() == old(self).hooks_registered(),
            final(self).hooks_for(event) == match callback {
                None => Seq::empty(),
                Some(cb) => without_callback(old(self).hooks_for(event), cb),
            },
            forall|e: ToolHookEvent|
                e != event ==> #[trigger] final(self).hooks_for(e) == old(self).hooks_for(e),
    {
        let ghost before = self.hook_manager;
        self.hook_manager.off(event, callback);
        assert forall|e: ToolHookEvent| e != event implies #[trigger] self.hooks_for(e) == old(
            self,
        ).hooks_for(e) by {
            assert(self.hook_manager.hooks_for(e) == before.hooks_for(e));
        }
    }

    /// Register all callbacks from a `ToolHookCallbacks` object.
    pub fn register_hooks(&mut self, callbacks: ToolHookCallbacks)
        requires
            old(self).wf(),
            old(self).hooks_registered() + 11 <= u64::MAX,
        ensures
            final(self).wf(),
            final(self)@ == old(self)@,
            final(self).hooks_registered() <= old(self).hooks_registered() + 11,
            forall|e: ToolHookEvent|
                batch_registered(
                    old(self).hooks_for(e),
                    #[trigger] final(self).hooks_for(e),
                    callback_for(callbacks, e),
                    old(self).hooks_registered(),
                    final(self).hooks_registered(),
                ),
    {
        self.hook_manager.register_callbacks(callbacks);
        assert forall|e: ToolHookEvent|
            batch_registered(
                old(self).hooks_for(e),
                #[trigger] self.hooks_for(e),
                callback_for(callbacks, e),
                old(self).hooks_registered(),
                self.hooks_registered(),
            ) by {
            assert(self.hooks_for(e) == self.hook_manager.hooks_for(e));
        }
    }

    /// Remove every registered hook.
    pub fn clear_hooks(&mut self)
        requires
            old(self).wf(),
        ensures
            final(self).wf(),
            final(self)@ == old(self)@,
            final(self).hooks_registered() == old(self).hooks_registered(),
            forall|e: ToolHookEvent|
                #[trigger] final(self).hooks_for(e) == Seq::<HookEntry>::empty(),
    {
        self.hook_manager.clear_hooks();
        assert forall|e: ToolHookEvent|
            #[trigger] self.hooks_for(e) == Seq::<HookEntry>::empty() by {
            assert(self.hooks_for(e) == self.hook_manager.hooks_for(e));
        }
    }

    /// The hooks that an event concerns, in the order in which they run.
    pub fn begin_emit(&self, event: ToolHookEvent) -> (r: Vec<HookEntry>)
        requires
            self.wf(),
        ensures
            r@ == self.hooks_for(event),
    {
        self.hook_manager.begin_emit(event)
    }

    /// Ends an event on which the hooks of these registrations ran.
    pub fn complete_emit(&mut self, event: ToolHookEvent, ran: &Vec<u64>)
        requires
            old(self).wf(),
        ensures
            final(self).wf(),
            final(self)@ == old(self)@,
            final(self).hooks_registered() == old(self).hooks_registered(),
            final(self).hooks_for(event) == old(self).hooks_for(event).filter(
                |e: HookEntry| stays(e, ran@),
            ),
            forall|e: ToolHookEvent|
                e != event ==> #[trigger] final(self).hooks_for(e) == old(self).hooks_for(e),
    {
        let ghost before = self.hook_manager;
        self.hook_manager.complete_emit(event, ran);
        assert forall|e: ToolHookEvent| e != event implies #[trigger] self.hooks_for(e) == old(
            self,
        ).hooks_for(e) by {
            assert(self.hook_manager.hooks_for(e) == before.hooks_for(e));
        }
    }
}

// ---------------------------------------------------------------------------
// Discovery
// ---------------------------------------------------------------------------

enum Query<'a> {
    Namespace(&'a str),
    Metadata(&'a str, &'a Json),
    Tag(&'a str),
}

/// The tool is in this namespace.
pub open spec fn of_namespace(t: ToolView, namespace: Seq<char>) -> bool {
    namespace_of(t.name, DEFAULT_NAMESPACE_SEPARATOR) == Some(namespace)
}

/// The tool has this value under this key of its metadata.
pub open spec fn of_metadata(t: ToolView, key: Seq<char>, value: JsonView) -> bool {
    match t.metadata {
        Some(m) => match field(m, key) {
            Some(v) => same_json(v, value),
            None => false,
        },
        None => false,
    }
}

/// The tool has this tag.
pub open spec fn of_tag(t: ToolView, tag: Seq<char>) -> bool {
    match t.tags {
        Some(tags) => tags.contains(tag),
        None => false,
    }
}

impl<'a> Query<'a> {
    spec fn wants(self, t: ToolView) -> bool {
        match self {
            Query::Namespace(ns) => of_namespace(t, ns@),
            Query::Metadata(key, value) => of_metadata(t, key@, value@),
            Query::Tag(tag) => of_tag(t, tag@),
        }
    }

    fn matches(&self, t: &Tool) -> (r: bool)
        ensures
            r == self.wants(t@),
    {
        match self {
            Query::Namespace(ns) => {
                let parsed = parse_tool_name(t.name.as_str(), DEFAULT_NAMESPACE_SEPARATOR);
                match &parsed.namespace {
                    Some(n) => same(n.as_str(), ns),
                    None => false,
                }
            },
            Query::Metadata(key, value) => match &t.metadata {
                Some(m) => match m.get(key) {
                    Some(v) => v.same_as(value),
                    None => false,
                },
                None => false,
            },
            Query::Tag(tag) => match &t.tags {
                Some(tags) => listed(tags, tag),
                None => false,
            },
        }
    }
}

/// All tools, in the order of their registration.
pub open spec fn tools_of(r: RegistryView) -> Seq<ToolView> {
    r.tools.map_values(|e: ToolEntry| e.tool)
}

impl ToolManagerImpl {
    fn find_tools(&self, q: &Query<'_>) -> (r: Vec<Tool>)
        ensures
            tools_view(r@) == tools_of(self@.registry).filter(|t: ToolView| q.wants(t)),
    {
        let all = self.registry.all_tools();
        let ghost source = all@;
        let ghost models = tools_view(source);
        let ghost f = |t: ToolView| q.wants(t);
        let mut out: Vec<Tool> = Vec::new();
        assert(models.take(0).filter(f) =~= Seq::<ToolView>::empty()) by {
            reveal(Seq::filter);
        }
        assert(tools_view(out@) =~= Seq::<ToolView>::empty());
        for t in it: all
            invariant
                it.seq() == source,
                models == tools_view(source),
                f == (|t: ToolView| q.wants(t)),
                tools_view(out@) == models.take(it.index() as int).filter(f),
        {
            let ghost done = out@;
            let ghost k = it.index() as int;
            proof {
                assert(models.take(k + 1) =~= models.take(k).push(models[k]));
                models.take(k).lemma_filter_push(models[k], f);
                assert(models[k] == t@);
            }
            if q.matches(&t) {
                out.push(t);
                assert(tools_view(out@) =~= tools_view(done).push(t@));
            }
        }
        assert(models.take(models.len() as int) =~= models);
        out
    }

    /// Find every tool in the given namespace.
    pub fn find_tools_by_namespace(&self, namespace: &str) -> (r: Vec<Tool>)
        ensures
            tools_view(r@) == tools_of(self@.registry).filter(
                |t: ToolView| of_namespace(t, namespace@),
            ),
    {
        let q = Query::Namespace(namespace);
        proof {
            assert((|t: ToolView| q.wants(t)) =~= (|t: ToolView| of_namespace(t, namespace@)));
        }
        self.find_tools(&q)
    }

    /// Find every tool whose `metadata[key]` equals `value`.
    pub fn find_tools_by_metadata(&self, key: &str, value: &Json) -> (r: Vec<Tool>)
        ensures
            tools_view(r@) == tools_of(self@.registry).filter(
                |t: ToolView| of_metadata(t, key@, value@),
            ),
    {
        let q = Query::Metadata(key, value);
        proof {
            assert((|t: ToolView| q.wants(t)) =~= (|t: ToolView| of_metadata(t, key@, value@)));
        }
        self.find_tools(&q)
    }

    /// Find every tool with the given tag.
    pub fn find_tools_by_tag(&self, tag: &str) -> (r: Vec<Tool>)
        ensures
            tools_view(r@) == tools_of(self@.registry).filter(|t: ToolView| of_tag(t, tag@)),
    {
        let q = Query::Tag(tag);
        proof {
            assert((|t: ToolView| q.wants(t)) =~= (|t: ToolView| of_tag(t, tag@)));
        }
        self.find_tools(&q)
    }
}

// ---------------------------------------------------------------------------
// Scopes
// ---------------------------------------------------------------------------

/// The registry after tools were registered one after the other, each on its own.
pub open spec fn registered_all(r: RegistryView, tools: Seq<ToolView>) -> RegistryView
    decreases tools.len(),
{
    if tools.len() == 0 {
        r
    } else {
        registry_after(
            registered_all(r, tools.drop_last()),
            ToolEntry { tool: tools.last(), package: None },
        )
    }
}

/// The names of the tools that were taken, of tools registered one after the other.
pub open spec fn announced(r: RegistryView, tools: Seq<ToolView>) -> Seq<Seq<char>>
    decreases tools.len(),
{
    if tools.len() == 0 {
        Seq::empty()
    } else {
        let told = announced(r, tools.drop_last());
        if register_fails(registered_all(r, tools.drop_last()), tools.last().name) {
            told
        } else {
            told.push(tools.last().name)
        }
    }
}

/// What is to be warned of when tools get registered one after the other.
pub open spec fn warned_all(r: RegistryView, tools: Seq<ToolView>) -> Seq<Seq<char>>
    decreases tools.len(),
{
    if tools.len() == 0 {
        Seq::empty()
    } else {
        warned_all(r, tools.drop_last()) + tool_warnings(
            registered_all(r, tools.drop_last()),
            tools.last(),
        )
    }
}

/// The tools that names lead to.
pub open spec fn tools_named(r: RegistryView, names: Seq<Seq<char>>) -> Seq<ToolView> {
    names.filter_map(
        |n: Seq<char>|
            match lookup(r.tools, n) {
                Some(e) => Some(e.tool),
                None => None,
            },
    )
}

impl ToolManagerImpl {
    fn register_all(&mut self, tools: Vec<Tool>) -> (r: (Vec<HookCall>, Vec<String>))
        requires
            old(self).wf(),
        ensures
            final(self).wf(),
            final(self).same_hooks(&*old(self)),
            views(r.1@) == warned_all(old(self)@.registry, tools_view(tools@)),
            calls_view(r.0@) == calls_for(
                ToolHookEvent::OnRegister,
                announced(old(self)@.registry, tools_view(tools@)),
            ),
            final(self)@ == (ManagerView {
                registry: registered_all(old(self)@.registry, tools_view(tools@)),
                ..old(self)@
            }),
    {
        let ghost source = tools@;
        let ghost models = tools_view(source);
        let ghost start = *self;
        let mut calls: Vec<HookCall> = Vec::new();
        let mut warnings: Vec<String> = Vec::new();
        assert(models.take(0) =~= Seq::<ToolView>::empty());
        assert(views(warnings@) =~= Seq::<Seq<char>>::empty());
        assert(calls_view(calls@) =~= calls_for(ToolHookEvent::OnRegister, Seq::empty()));
        for t in it: tools
            invariant
                it.seq() == source,
                models == tools_view(source),
                self.wf(),
                self.same_hooks(&start),
                views(warnings@) == warned_all(start@.registry, models.take(it.index() as int)),
                calls_view(calls@) == calls_for(
                    ToolHookEvent::OnRegister,
                    announced(start@.registry, models.take(it.index() as int)),
                ),
                self@ == (ManagerView {
                    registry: registered_all(start@.registry, models.take(it.index() as int)),
                    ..start@
                }),
        {
            let ghost k = it.index() as int;
            proof {
                assert(models.take(k + 1).drop_last() =~= models.take(k));
                assert(models.take(k + 1).last() == t@);
            }
            let ghost told = announced(start@.registry, models.take(k));
            let ghost done = calls@;
            let ghost name = t@.name;
            let more = self.tool_warnings(&t);
            append_strings(&mut warnings, more);
            if let Some(c) = self.register(t, None) {
                calls.push(c);
                proof {
                    assert(calls_view(calls@) =~= calls_view(done).push(
                        (ToolHookEvent::OnRegister, seq![JsonView::String(name)]),
                    ));
                    assert(calls_view(calls@) =~= calls_for(
                        ToolHookEvent::OnRegister,
                        told.push(name),
                    ));
                }
            }
        }
        assert(models.take(models.len() as int) =~= models);
        (calls, warnings)
    }

    /// Create a new manager containing only the named tools. Gives the events to be emitted
    /// by it and the warnings of the registrations, too.
    pub fn create_scope(&self, tool_names: &Vec<String>) -> (r: (
        ToolManagerImpl,
        Vec<HookCall>,
        Vec<String>,
    ))
        ensures
            r.0.wf(),
            r.0.hooks_of(self@.config),
            views(r.2@) == warned_all(
                fresh_registry(self@.config),
                tools_named(self@.registry, views(tool_names@)),
            ),
            calls_view(r.1@) == calls_for(
                ToolHookEvent::OnRegister,
                announced(
                    fresh_registry(self@.config),
                    tools_named(self@.registry, views(tool_names@)),
                ),
            ),
            r.0@ == (ManagerView {
                registry: registered_all(
                    fresh_registry(self@.config),
                    tools_named(self@.registry, views(tool_names@)),
                ),
                config: self@.config,
                destroyed: false,
                resolver: fresh_resolver(self@.config),
            }),
    {
        let ghost reg = self@.registry;
        let ghost names = views(tool_names@);
        let ghost f = |n: Seq<char>|
            match lookup(reg.tools, n) {
                Some(e) => Some(e.tool),
                None => None,
            };
        let mut found: Vec<Tool> = Vec::new();
        let n = tool_names.len();
        let mut i: usize = 0;
        assert(names.take(0).filter_map(f) =~= Seq::<ToolView>::empty()) by {
            reveal_with_fuel(Seq::filter_map, 1);
        }
        assert(tools_view(found@) =~= Seq::<ToolView>::empty());
        while i < n
            invariant
                i <= n,
                n == tool_names@.len(),
                reg == self@.registry,
                names == views(tool_names@),
                f == (|n: Seq<char>|
                    match lookup(reg.tools, n) {
                        Some(e) => Some(e.tool),
                        None => None,
                    }),
                tools_view(found@) == names.take(i as int).filter_map(f),
            decreases n - i,
        {
            let ghost done = found@;
            proof {
                names.lemma_filter_map_take_succ(f, i as int);
                assert(names[i as int] == tool_names@[i as int]@);
            }
            if let Some(t) = self.registry.get_tool(tool_names[i].as_str()) {
                found.push(t);
                assert(tools_view(found@) =~= tools_view(done).push(t@));
            }
            i = i + 1;
        }
        assert(names.take(n as int) =~= names);
        assert(names.filter_map(f) == tools_named(reg, names));
        let mut scoped = ToolManagerImpl::new(self.config.clone());
        let (calls, warnings) = scoped.register_all(found);
        (scoped, calls, warnings)
    }

    /// Create a new manager containing only the tools in a namespace. Gives the events
    /// to be emitted by it and the warnings of the registrations, too.
    pub fn create_namespace_scope(&self, namespace: &str) -> (r: (
        ToolManagerImpl,
        Vec<HookCall>,
        Vec<String>,
    ))
        ensures
            r.0.wf(),
            r.0.hooks_of(self@.config),
            views(r.2@) == warned_all(
                fresh_registry(self@.config),
                tools_of(self@.registry).filter(|t: ToolView| of_namespace(t, namespace@)),
            ),
            calls_view(r.1@) == calls_for(
                ToolHookEvent::OnRegister,
                announced(
                    fresh_registry(self@.config),
                    tools_of(self@.registry).filter(|t: ToolView| of_namespace(t, namespace@)),
                ),
            ),
            r.0@ == (ManagerView {
                registry: registered_all(
                    fresh_registry(self@.config),
                    tools_of(self@.registry).filter(|t: ToolView| of_namespace(t, namespace@)),
                ),
                config: self@.config,
                destroyed: false,
                resolver: fresh_resolver(self@.config),
            }),
    {
        let tools = self.find_tools_by_namespace(namespace);
        let mut scoped = ToolManagerImpl::new(self.config.clone());
        let (calls, warnings) = scoped.register_all(tools);
        (scoped, calls, warnings)
    }

    /// The event to be emitted before the manager is destroyed.
    pub fn destroy_call(&self) -> (r: HookCall)
        ensures
            r.event == ToolHookEvent::OnDestroy,
            r.args@.len() == 0,
    {
        HookCall { event: ToolHookEvent::OnDestroy, args: Vec::new() }
    }

    /// Destroy the manager and release its resources: every package is unregistered, and all
    /// hooks are removed. Returns the hooks that the packages want to be called.
    pub fn destroy(&mut self) -> (r: Vec<u64>)
        requires
            old(self).wf(),
        ensures
            final(self).wf(),
            final(self)@ == (ManagerView {
                registry: without_packages(old(self)@.registry),
                config: old(self)@.config,
                destroyed: true,
                resolver: old(self)@.resolver,
            }),
            forall|e: ToolHookEvent|
                #[trigger] final(self).hooks_for(e) == Seq::<HookEntry>::empty(),
            r@ == old(self)@.registry.packages.filter_map(|e: PackageEntry| e.pkg.on_destroy),
    {
        let ghost start = self@.registry;
        let ghost f = |e: PackageEntry| e.pkg.on_destroy;
        let mut hooks: Vec<u64> = Vec::new();
        let names = self.registry.get_package_names();
        let n = names.len();
        let mut i: usize = 0;
        assert(start.packages.take(0).filter_map(f) =~= Seq::<u64>::empty()) by {
            reveal_with_fuel(Seq::filter_map, 1);
        }
        assert(start.packages.skip(0) =~= start.packages);
        assert(views(names@).len() == names@.len());
        while i < n
            invariant
                i <= n,
                n == names@.len(),
                n == start.packages.len(),
                self.wf(),
                f == (|e: PackageEntry| e.pkg.on_destroy),
                views(names@) == start.packages.map_values(|e: PackageEntry| e.pkg.name),
                self@.config == old(self)@.config,
                self@.resolver == old(self)@.resolver,
                self@.registry.packages == start.packages.skip(i as int),
                without_packages(self@.registry) == without_packages(start),
                hooks@ == start.packages.take(i as int).filter_map(f),
            decreases n - i,
        {
            let ghost before = self@.registry;
            proof {
                assert(views(names@)[i as int] == names@[i as int]@);
                assert(before.packages[0] == start.packages[i as int]);
                assert(package_index(before.packages, names@[i as int]@) == 0);
                start.packages.lemma_filter_map_take_succ(f, i as int);
            }
            match self.unregister_package(names[i].as_str()) {
                Ok((hook, _)) => {
                    if let Some(h) = hook {
                        hooks.push(h);
                    }
                },
                Err(_) => {},
            }
            proof {
                assert(before.packages.remove(0) =~= before.packages.skip(1));
                assert(before.packages.skip(1) =~= start.packages.skip(i + 1));
            }
            i = i + 1;
        }
        assert(start.packages.take(n as int) =~= start.packages);
        assert(start.packages.skip(n as int).len() == 0);
        self.hook_manager.clear_hooks();
        self.destroyed = true;
        assert forall|e: ToolHookEvent|
            #[trigger] self.hooks_for(e) == Seq::<HookEntry>::empty() by {
            assert(self.hook_manager.hooks_for(e) == Seq::<HookEntry>::empty());
        }
        hooks
    }
}

/// Construct a fresh `ToolManagerImpl`.
pub fn create_tool_manager() -> (r: ToolManagerImpl)
    ensures
        r.wf(),
        r@.registry.tools.len() == 0,
        r@.registry.packages.len() == 0,
        r@.registry.conflict_strategy == crate::types::ConflictStrategy::Error,
        r@.registry.default_separator == DEFAULT_NAMESPACE_SEPARATOR,
        r@.config.default_timeout == crate::types::DEFAULT_TOOL_TIMEOUT_MS,
        r@.resolver == fresh_resolver(r@.config),
        r@.config.default_max_retries == 3,
        r@.config.validate_schemas,
        !r@.config.allow_override,
        r@.config.hooks is None,
        r@.config.metadata is None,
        r@.config.priority is None,
        !r@.destroyed,
        forall|e: ToolHookEvent| #[trigger] r.hooks_for(e) == Seq::<HookEntry>::empty(),
{
    let r = ToolManagerImpl::new(ToolManagerConfig::default());
    assert forall|e: ToolHookEvent| #[trigger] r.hooks_for(e) == Seq::<HookEntry>::empty() by {
        assert(batch_registered(Seq::empty(), r.hooks_for(e), None, 0, r.hooks_registered()));
    }
    r
}

/// Construct a fresh `ToolManagerImpl` from explicit config.
pub fn create_tool_manager_with_config(config: ToolManagerConfig) -> (r: ToolManagerImpl)
    ensures
        r.wf(),
        r@ == (ManagerView {
            registry: fresh_registry(config@),
            config: config@,
            destroyed: false,
            resolver: fresh_resolver(config@),
        }),
        r.hooks_of(config@),
{
    ToolManagerImpl::new(config)
}

// ---------------------------------------------------------------------------
// Serialization
// ---------------------------------------------------------------------------

/// A tool as a config writes it down: under its short name, with its name for a handler.
pub open spec fn exported_tool(t: ToolView) -> ToolConfigView {
    ToolConfigView {
        name: short_name(t.name, DEFAULT_NAMESPACE_SEPARATOR),
        description: t.description,
        input_schema: t.input_schema,
        handler: SerializedView::Name(t.name),
        concurrency_safe: t.concurrency_safe,
        timeout: t.timeout,
        max_retries: t.max_retries,
        metadata: t.metadata,
        version: t.version,
        tags: t.tags,
        deprecated: t.deprecated,
        examples: t.examples,
    }
}

/// A package as a config writes it down.
pub open spec fn exported_package(p: PackageView) -> PackageConfigView {
    PackageConfigView {
        name: p.name,
        version: p.version,
        namespace: match p.namespace {
            Some(ns) => Some(ChoiceView::Object(ns)),
            None => None,
        },
        description: p.description,
        dependencies: p.dependencies,
        tools: p.tools.map_values(|t: ToolView| exported_tool(t)),
    }
}

/// The settings of a manager as a config writes them down.
pub open spec fn exported_settings(c: ManagerConfigView) -> SettingsView {
    SettingsView {
        default_timeout: Some(c.default_timeout),
        default_max_retries: Some(c.default_max_retries),
        default_separator: Some(c.default_separator),
        conflict_strategy: Some(c.conflict_strategy),
        allow_override: Some(c.allow_override),
        validate_schemas: Some(c.validate_schemas),
        metadata: c.metadata,
    }
}

/// A manager as a config writes it down.
pub open spec fn exported(m: ManagerView) -> ConfigView {
    ConfigView {
        version: "1.0"@,
        config: Some(exported_settings(m.config)),
        packages: m.registry.packages.map_values(|e: PackageEntry| exported_package(e.pkg)),
        standalone_tools: None,
    }
}

fn export_tool(t: &Tool) -> (r: ToolConfig)
    ensures
        r@ == exported_tool(t@),
{
    ToolConfig {
        name: remove_namespace(t.name.as_str(), DEFAULT_NAMESPACE_SEPARATOR),
        description: t.description.clone(),
        input_schema: t.input_schema.clone(),
        handler: SerializedHandler::Name(t.name.clone()),
        concurrency_safe: t.concurrency_safe,
        timeout: t.timeout,
        max_retries: t.max_retries,
        metadata: clone_optional(&t.metadata),
        version: clone_text(&t.version),
        tags: clone_texts(&t.tags),
        deprecated: t.deprecated,
        examples: clone_optional_items(&t.examples),
    }
}

fn export_package(p: &ToolPackage) -> (r: ToolPackageConfig)
    ensures
        r@ == exported_package(p@),
{
    let mut tools: Vec<ToolConfig> = Vec::new();
    let n = p.tools.len();
    let mut i: usize = 0;
    while i < n
        invariant
            i <= n,
            n == p.tools@.len(),
            tools@.len() == i,
            forall|k: int| 0 <= k < i ==> (#[trigger] tools@[k])@ == exported_tool(p.tools@[k]@),
        decreases n - i,
    {
        tools.push(export_tool(&p.tools[i]));
        i = i + 1;
    }
    assert(configs_view(tools@) =~= p@.tools.map_values(|t: ToolView| exported_tool(t)));
    let namespace = match &p.namespace {
        Some(ns) => Some(NamespaceConfigOrBool::Object(ns.clone())),
        None => None,
    };
    ToolPackageConfig {
        name: p.name.clone(),
        version: clone_text(&p.version),
        namespace,
        description: clone_text(&p.description),
        dependencies: clone_texts(&p.dependencies),
        tools,
    }
}

impl ToolManagerImpl {
    /// Export the current configuration.
    pub fn export_config(&self) -> (r: ToolManagerSerializedConfig)
        ensures
            r@ == exported(self@),
    {
        let snapshot = self.registry.packages_snapshot();
        let ghost models = snapshot@.map_values(|p: ToolPackage| p@);
        let mut packages: Vec<ToolPackageConfig> = Vec::new();
        let n = snapshot.len();
        let mut i: usize = 0;
        while i < n
            invariant
                i <= n,
                n == snapshot@.len(),
                models == snapshot@.map_values(|p: ToolPackage| p@),
                packages@.len() == i,
                forall|k: int|
                    0 <= k < i ==> (#[trigger] packages@[k])@ == exported_package(models[k]),
            decreases n - i,
        {
            assert(models[i as int] == snapshot@[i as int]@);
            packages.push(export_package(&snapshot[i]));
            i = i + 1;
        }
        let r = ToolManagerSerializedConfig {
            version: String::from_str("1.0"),
            config: Some(
                SerializedManagerConfig {
                    default_timeout: Some(self.config.default_timeout),
                    default_max_retries: Some(self.config.default_max_retries),
                    default_separator: Some(self.config.default_separator),
                    conflict_strategy: Some(self.config.conflict_strategy),
                    allow_override: Some(self.config.allow_override),
                    validate_schemas: Some(self.config.validate_schemas),
                    metadata: clone_optional(&self.config.metadata),
                },
            ),
            packages,
            standalone_tools: None,
        };
        proof {
            let entries = self@.registry.packages;
            assert(models.len() == entries.len());
            assert forall|k: int| 0 <= k < entries.len() implies (#[trigger] packages@[k])@
                == exported_package(entries[k].pkg) by {
                assert(models[k] == entries.map_values(|e: PackageEntry| e.pkg)[k]);
            }
            assert(r@.packages =~= exported(self@).packages);
        }
        r
    }
}

// ---------------------------------------------------------------------------
// Laws
// ---------------------------------------------------------------------------

/// A manager that was destroyed runs no tool, whatever its name and input.
pub proof fn law_destroyed_runs_nothing(m: ManagerView, name: Seq<char>, input: JsonView)
    requires
        m.destroyed,
    ensures
        execute_fault(m, name, input) == Some(ErrorView::ManagerDestroyed),
{
}

/// A name that leads to no tool is answered with the names of all the tools there are.
pub proof fn law_unknown_tool_is_answered(m: ManagerView, name: Seq<char>, input: JsonView)
    requires
        !m.destroyed,
        !has_name(m.registry.tools, name),
    ensures
        execute_fault(m, name, input) == Some(
            ErrorView::ToolNotFound { name, available: tool_names(m.registry) },
        ),
{
    lemma_name_index_bounds(m.registry.tools, name);
}

/// When all packages were unregistered, no package is left.
pub proof fn law_destroy_leaves_no_package(r: RegistryView)
    ensures
        without_packages(r).packages.len() == 0,
    decreases r.packages.len(),
{
    if r.packages.len() > 0 {
        law_destroy_leaves_no_package(
            RegistryView {
                tools: without(r.tools, r.packages[0].tool_names),
                packages: r.packages.skip(1),
                ..r
            },
        );
    }
}

proof fn lemma_registered_all_names(r: RegistryView, tools: Seq<ToolView>, name: Seq<char>)
    ensures
        has_name(registered_all(r, tools).tools, name) == (has_name(r.tools, name) || exists|i: int|
            0 <= i < tools.len() && (#[trigger] tools[i]).name == name),
    decreases tools.len(),
{
    if tools.len() > 0 {
        let rest = tools.drop_last();
        let t = tools.last();
        let prev = registered_all(r, rest);
        let e = ToolEntry { tool: t, package: None };
        lemma_registered_all_names(r, rest, name);
        lemma_registry_after_names(prev, e, name);
        if exists|i: int| 0 <= i < tools.len() && (#[trigger] tools[i]).name == name {
            let i = choose|i: int| 0 <= i < tools.len() && (#[trigger] tools[i]).name == name;
            if i < rest.len() {
                assert(rest[i].name == name);
            }
        }
        if exists|i: int| 0 <= i < rest.len() && (#[trigger] rest[i]).name == name {
            let i = choose|i: int| 0 <= i < rest.len() && (#[trigger] rest[i]).name == name;
            assert(tools[i].name == name);
        }
        if t.name == name {
            assert(tools[tools.len() - 1].name == name);
        }
    }
}

proof fn lemma_registry_after_names(r: RegistryView, e: ToolEntry, name: Seq<char>)
    ensures
        has_name(registry_after(r, e).tools, name) == (has_name(r.tools, name) || name
            == e.tool.name),
{
    let w = registry_after(r, e).tools;
    let at = name_index(r.tools, e.tool.name);
    lemma_name_index_bounds(r.tools, e.tool.name);
    if w == r.tools {
    } else {
        if has_name(r.tools, name) && name != e.tool.name {
            let k = choose|k: int| 0 <= k < r.tools.len() && (#[trigger] r.tools[k]).tool.name
                == name;
            assert(w[k].tool.name == name);
        }
        if name == e.tool.name {
            if at < r.tools.len() {
                assert(w[at].tool.name == name);
            } else {
                assert(w[r.tools.len() as int].tool.name == name);
            }
        }
        if has_name(w, name) {
            let k = choose|k: int| 0 <= k < w.len() && (#[trigger] w[k]).tool.name == name;
            if k < r.tools.len() && k != at {
                assert(r.tools[k].tool.name == name);
            }
        }
    }
}

/// A scope holds just the tools that were asked for, as far as the manager has them.
pub proof fn law_scope_holds_what_was_asked(
    m: ManagerView,
    names: Seq<Seq<char>>,
    name: Seq<char>,
)
    ensures
        has_name(
            registered_all(fresh_registry(m.config), tools_named(m.registry, names)).tools,
            name,
        ) == (names.contains(name) && has_name(m.registry.tools, name)),
{
    let fresh = fresh_registry(m.config);
    let found = tools_named(m.registry, names);
    lemma_registered_all_names(fresh, found, name);
    assert(!has_name(fresh.tools, name));
    lemma_tools_named(m.registry, names, name);
}

proof fn lemma_tools_named(r: RegistryView, names: Seq<Seq<char>>, name: Seq<char>)
    ensures
        (exists|i: int|
            0 <= i < tools_named(r, names).len() && (#[trigger] tools_named(r, names)[i]).name
                == name) == (names.contains(name) && has_name(r.tools, name)),
    decreases names.len(),
{
    let f = |n: Seq<char>|
        match lookup(r.tools, n) {
            Some(e) => Some(e.tool),
            None => None,
        };
    let found = names.filter_map(f);
    assert(found == tools_named(r, names));
    reveal_with_fuel(Seq::filter_map, 1);
    if names.len() > 0 {
        let rest = names.drop_last();
        let last = names.last();
        let prev = rest.filter_map(f);
        assert(prev == tools_named(r, rest));
        lemma_tools_named(r, rest, name);
        lemma_name_index_bounds(r.tools, last);
        assert(found == if f(last) is Some {
            prev.push(f(last)->0)
        } else {
            prev
        });
        if names.contains(name) && has_name(r.tools, name) {
            let k = choose|k: int| 0 <= k < names.len() && names[k] == name;
            if k < rest.len() {
                assert(rest[k] == name);
                let i = choose|i: int| 0 <= i < prev.len() && (#[trigger] prev[i]).name == name;
                assert(found[i].name == name);
            } else {
                let j = choose|j: int| 0 <= j < r.tools.len() && (#[trigger] r.tools[j]).tool.name
                    == name;
                assert(name_index(r.tools, last) < r.tools.len());
                assert(found[found.len() - 1].name == name);
            }
        }
        if exists|i: int| 0 <= i < found.len() && (#[trigger] found[i]).name == name {
            let i = choose|i: int| 0 <= i < found.len() && (#[trigger] found[i]).name == name;
            if i < prev.len() {
                assert(prev[i].name == name);
                let k = choose|k: int| 0 <= k < rest.len() && rest[k] == name;
                assert(names[k] == name);
            } else {
                assert(names[names.len() - 1] == name);
                assert(r.tools[name_index(r.tools, last)].tool.name == name);
            }
        }
    }
}

/// A tool is run exactly where the manager was not destroyed, has the tool, and takes the input:
/// where inputs are validated, one in which nothing is wrong once it was normalized.
pub proof fn law_what_is_run(m: ManagerView, name: Seq<char>, input: JsonView)
    ensures
        execute_fault(m, name, input) is None <==> !m.destroyed && (lookup(
            m.registry.tools,
            name,
        ) matches Some(e) && (m.config.validate_schemas ==> input_errors(
            normal_args(input, e.tool.input_schema),
            e.tool.input_schema,
        ).len() == 0)),
        !m.config.validate_schemas && !m.destroyed && has_name(m.registry.tools, name)
            ==> execute_fault(m, name, input) is None,
        execute_fault(m, name, input) matches Some(ErrorView::Validation { errors, .. }) ==> (
        lookup(m.registry.tools, name) matches Some(e) && errors.len() == input_errors(
            normal_args(input, e.tool.input_schema),
            e.tool.input_schema,
        ).len() && forall|i: int|
            0 <= i < errors.len() ==> (#[trigger] errors[i]).1 == input_errors(
                normal_args(input, e.tool.input_schema),
                e.tool.input_schema,
            )[i]),
{
    lemma_name_index_bounds(m.registry.tools, name);
    if has_name(m.registry.tools, name) {
        let k = choose|k: int| 0 <= k < m.registry.tools.len() && (
        #[trigger] m.registry.tools[k]).tool.name == name;
        assert(lookup(m.registry.tools, name) is Some);
    }
}

/// What is run: the handler of the tool with that name, on the input, which is normalized only
/// where inputs are validated. The tool's own timeout and retries come before the manager's, and
/// a context that was handed in is kept.
pub proof fn law_plan(
    p: ExecutionPlan,
    m: ManagerView,
    e: ToolEntry,
    name: Seq<char>,
    input: JsonView,
    context: Option<ToolExecutionContext>,
)
    requires
        lookup(m.registry.tools, name) == Some(e),
        plan_fits(p, m, name, input, context),
    ensures
        p.name@ == name,
        p.handler == e.tool.handler,
        e.tool.timeout matches Some(t) ==> p.timeout_ms == t,
        e.tool.timeout is None ==> p.timeout_ms == m.config.default_timeout,
        !m.config.validate_schemas ==> p.input@ == input,
        m.config.validate_schemas ==> p.input@ == normal_args(input, e.tool.input_schema),
        context matches Some(c) ==> p.context == c,
        context is None ==> p.context.attempt == 0,
        context is None && e.tool.max_retries is Some ==> p.context.max_retries
            == e.tool.max_retries->0,
        context is None && e.tool.max_retries is None ==> p.context.max_retries
            == m.config.default_max_retries,
        e.package is None ==> p.hooks.before is None && p.hooks.after is None,
{
}

/// Registering with the manager: under a free name the tool is there; under a taken name the
/// first one stays unless taken names are overridden; other names lead where they led before.
pub proof fn law_manager_registers(r: RegistryView, e: ToolEntry, name: Seq<char>)
    ensures
        ({
            let after = registry_after(r, e);
            &&& lookup(after.tools, e.tool.name) == if lookup(r.tools, e.tool.name) is None
                || r.conflict_strategy == ConflictStrategy::Override {
                Some(e)
            } else {
                lookup(r.tools, e.tool.name)
            }
            &&& name != e.tool.name ==> lookup(after.tools, name) == lookup(r.tools, name)
            &&& after.packages == r.packages
            &&& after.conflict_strategy == r.conflict_strategy
        }),
{
    law_register(r, e, name);
}

proof fn lemma_registered_is(r: RegistryView, tools: Seq<ToolView>, t: ToolView)
    requires
        lookup(r.tools, t.name) is None || lookup(r.tools, t.name)->0.tool == t,
        forall|i: int| 0 <= i < tools.len() && (#[trigger] tools[i]).name == t.name ==> tools[i]
            == t,
    ensures
        lookup(registered_all(r, tools).tools, t.name) is None || lookup(
            registered_all(r, tools).tools,
            t.name,
        )->0.tool == t,
    decreases tools.len(),
{
    if tools.len() > 0 {
        let rest = tools.drop_last();
        assert forall|i: int|
            0 <= i < rest.len() && (#[trigger] rest[i]).name == t.name implies rest[i] == t by {
            assert(rest[i] == tools[i]);
        }
        lemma_registered_is(r, rest, t);
        assert(tools[tools.len() - 1] == tools.last());
        law_manager_registers(
            registered_all(r, rest),
            ToolEntry { tool: tools.last(), package: None },
            t.name,
        );
    }
}

/// A tool in a scope is the tool that the manager has under that name.
pub proof fn law_scope_holds_the_same_tools(
    m: ManagerView,
    names: Seq<Seq<char>>,
    name: Seq<char>,
)
    requires
        names.contains(name),
        has_name(m.registry.tools, name),
    ensures
        ({
            let scope = registered_all(
                fresh_registry(m.config),
                tools_named(m.registry, names),
            ).tools;
            &&& lookup(scope, name) is Some
            &&& lookup(scope, name)->0.tool == lookup(m.registry.tools, name)->0.tool
        }),
{
    let fresh = fresh_registry(m.config);
    let found = tools_named(m.registry, names);
    let f = |n: Seq<char>|
        match lookup(m.registry.tools, n) {
            Some(e) => Some(e.tool),
            None => None,
        };
    lemma_name_index_bounds(m.registry.tools, name);
    let t = lookup(m.registry.tools, name)->0.tool;
    assert(t.name == name);
    assert forall|i: int| 0 <= i < found.len() && (#[trigger] found[i]).name == name implies found[i]
        == t by {
        law_picked(names, f, found[i]);
        assert(found.contains(found[i]));
        let k = choose|k: int| 0 <= k < names.len() && f(#[trigger] names[k]) == Some(found[i]);
        lemma_name_index_bounds(m.registry.tools, names[k]);
        assert(names[k] == name);
    }
    lemma_name_index_bounds(fresh.tools, name);
    lemma_registered_is(fresh, found, t);
    law_scope_holds_what_was_asked(m, names, name);
    let scope = registered_all(fresh, found).tools;
    lemma_name_index_bounds(scope, name);
    let k = choose|k: int| 0 <= k < scope.len() && (#[trigger] scope[k]).tool.name == name;
}

/// The export of a manager holds each package under its name, version and namespace with its
/// tools in order, each under its short name and with its full name as its handler, and the
/// manager's settings.
pub proof fn law_export(m: ManagerView, k: int, i: int)
    requires
        0 <= k < m.registry.packages.len(),
        0 <= i < m.registry.packages[k].pkg.tools.len(),
    ensures
        ({
            let p = m.registry.packages[k].pkg;
            let t = p.tools[i];
            let c = exported(m);
            &&& c.packages.len() == m.registry.packages.len()
            &&& c.packages[k].name == p.name
            &&& c.packages[k].version == p.version
            &&& c.packages[k].description == p.description
            &&& c.packages[k].dependencies == p.dependencies
            &&& (c.packages[k].namespace is Some) == (p.namespace is Some)
            &&& c.packages[k].tools.len() == p.tools.len()
            &&& c.packages[k].tools[i].name == short_name(t.name, DEFAULT_NAMESPACE_SEPARATOR)
            &&& c.packages[k].tools[i].handler == SerializedView::Name(t.name)
            &&& c.packages[k].tools[i].description == t.description
            &&& c.packages[k].tools[i].input_schema == t.input_schema
            &&& c.packages[k].tools[i].timeout == t.timeout
            &&& c.packages[k].tools[i].max_retries == t.max_retries
            &&& c.packages[k].tools[i].concurrency_safe == t.concurrency_safe
            &&& c.packages[k].tools[i].deprecated == t.deprecated
            &&& c.packages[k].tools[i].tags == t.tags
            &&& c.config matches Some(s) && s.default_timeout == Some(m.config.default_timeout)
                && s.default_max_retries == Some(m.config.default_max_retries)
                && s.default_separator == Some(m.config.default_separator)
                && s.conflict_strategy == Some(m.config.conflict_strategy) && s.allow_override
                == Some(m.config.allow_override) && s.validate_schemas == Some(
                m.config.validate_schemas,
            )
        }),
{
}

/// Destroying takes away the tools of every package; a tool of none stays.
pub proof fn law_destroy_keeps_lone_tools(r: RegistryView, name: Seq<char>)
    ensures
        lookup(without_packages(r).tools, name) == if exists|k: int|
            0 <= k < r.packages.len() && (#[trigger] r.packages[k]).tool_names.contains(name) {
            None
        } else {
            lookup(r.tools, name)
        },
    decreases r.packages.len(),
{
    if r.packages.len() > 0 {
        let next = RegistryView {
            tools: without(r.tools, r.packages[0].tool_names),
            packages: r.packages.skip(1),
            ..r
        };
        law_destroy_keeps_lone_tools(next, name);
        law_lookup_after_removal(r.tools, r.packages[0].tool_names, name);
        if exists|k: int|
            0 <= k < r.packages.len() && (#[trigger] r.packages[k]).tool_names.contains(name) {
            let k = choose|k: int|
                0 <= k < r.packages.len() && (#[trigger] r.packages[k]).tool_names.contains(name);
            if k > 0 {
                assert(next.packages[k - 1].tool_names.contains(name));
            }
        }
        if exists|k: int|
            0 <= k < next.packages.len() && (#[trigger] next.packages[k]).tool_names.contains(
                name,
            ) {
            let k = choose|k: int|
                0 <= k < next.packages.len() && (
                #[trigger] next.packages[k]).tool_names.contains(name);
            assert(r.packages[k + 1].tool_names.contains(name));
        }
    }
}

/// A tool is found by any of its tags, by the namespace before the first dot of its name, and by
/// what its metadata has under a key.
pub proof fn law_tools_are_found_by(t: ToolView, tag: Seq<char>, i: int, ns: Seq<char>)
    ensures
        t.tags matches Some(tags) ==> (0 <= i < tags.len() ==> of_tag(t, tags[i])),
        t.tags matches Some(tags) ==> (of_tag(t, tag) ==> exists|k: int|
            0 <= k < tags.len() && #[trigger] tags[k] == tag),
        t.tags is None ==> !of_tag(t, tag),
        of_namespace(t, ns) ==> exists|rest: Seq<char>| t.name == #[trigger] (ns + seq!['.']) + rest,
        !t.name.contains('.') ==> !of_namespace(t, ns),
{
    if let Some(tags) = t.tags {
        if 0 <= i < tags.len() {
            assert(tags.contains(tags[i]));
        }
    }
    crate::utils::namespace::law_parse_splits(t.name, DEFAULT_NAMESPACE_SEPARATOR);
    if of_namespace(t, ns) {
        let rest = short_name(t.name, DEFAULT_NAMESPACE_SEPARATOR);
        assert(t.name =~= (ns + seq!['.']) + rest);
        assert(t.name[ns.len() as int] == '.');
        assert(t.name.contains('.'));
    }
}

/// A tool is found by a key of its metadata exactly where the value under it is the same.
pub proof fn law_tools_are_found_by_metadata(t: ToolView, key: Seq<char>, value: JsonView)
    ensures
        of_metadata(t, key, value) <==> (t.metadata matches Some(m) && (field(
            m,
            key,
        ) matches Some(v) && same_json(v, value))),
        t.metadata matches Some(m) ==> (field(m, key) == Some(value) ==> of_metadata(
            t,
            key,
            value,
        )),
{
    crate::json::law_same_json_reflexive(value);
}

/// One more tool is announced unless its registration fails, and always behind the earlier ones.
pub proof fn law_tools_are_announced(r: RegistryView, tools: Seq<ToolView>, t: ToolView)
    ensures
        announced(r, Seq::empty()) == Seq::<Seq<char>>::empty(),
        announced(r, tools.push(t)) == if has_name(registered_all(r, tools).tools, t.name) && r.conflict_strategy
            == ConflictStrategy::Error {
            announced(r, tools)
        } else {
            announced(r, tools).push(t.name)
        },
        r.conflict_strategy != ConflictStrategy::Error ==> announced(r, tools).len() == tools.len(),
    decreases tools.len(),
{
    assert(tools.push(t).drop_last() =~= tools);
    lemma_strategy_stays(r, tools);
    if tools.len() > 0 {
        law_tools_are_announced(r, tools.drop_last(), tools.last());
        lemma_strategy_stays(r, tools.drop_last());
        assert(tools.drop_last().push(tools.last()) =~= tools);
    }
}

proof fn lemma_strategy_stays(r: RegistryView, tools: Seq<ToolView>)
    ensures
        registered_all(r, tools).conflict_strategy == r.conflict_strategy,
    decreases tools.len(),
{
    if tools.len() > 0 {
        lemma_strategy_stays(r, tools.drop_last());
    }
}

/// Why nothing is run: a manager that was destroyed says that before anything else, a tool that is
/// not there is answered with the names of those that are, and each fault of an input is told
/// under one and the same path.
pub proof fn law_why_nothing_is_run(m: ManagerView, name: Seq<char>, input: JsonView)
    ensures
        m.destroyed ==> execute_fault(m, name, input) == Some(ErrorView::ManagerDestroyed),
        !m.destroyed && lookup(m.registry.tools, name) is None ==> execute_fault(m, name, input)
            == Some((ErrorView::ToolNotFound { name, available: tool_names(m.registry) })),
        execute_fault(m, name, input) matches Some(ErrorView::Validation { summary, errors }) ==> {
            &&& summary == "input failed schema validation"@
            &&& forall|i: int| 0 <= i < errors.len() ==> (#[trigger] errors[i]).0 == "<input>"@
        },
{
}

} // verus!
