//! `ToolManagerFactory` — create, validate, merge, scope and diff serialized configs.
//!
//! Resolving references to handlers is left to the runtime: the factory says which reference
//! goes with which tool, and takes the numbers of the handlers that they resolved to.
use vstd::prelude::*;

use crate::error::issues_view;
use crate::error::ErrorView;
use crate::error::ToolError;
use crate::error::ValidationIssue;
use crate::handler_refs::HandlerRef;
use crate::handler_refs::RefView;
use crate::json::JsonView;
use crate::manager::config_validator::config_findings;
use crate::manager::config_validator::findings_view;
use crate::manager::config_validator::no_errors;
use crate::manager::config_validator::standalone;
use crate::manager::config_validator::tool_total;
use crate::manager::config_validator::ConfigValidatorImpl;
use crate::manager::config_validator::FindingView;
use crate::manager::hook_manager::batch_registered;
use crate::manager::hook_manager::HookEntry;
use crate::manager::tool_manager::calls_for;
use crate::manager::tool_manager::calls_view;
use crate::manager::tool_manager::exported;
use crate::manager::tool_manager::exported_package;
use crate::manager::tool_manager::exported_tool;
use crate::manager::tool_manager::fresh_registry;
use crate::manager::tool_manager::fresh_resolver;
use crate::manager::tool_manager::law_manager_registers;
use crate::manager::tool_manager::names_event;
use crate::manager::tool_manager::registry_after;
use crate::manager::tool_manager::HookCall;
use crate::manager::tool_manager::ManagerView;
use crate::manager::tool_manager::PackageRegistered;
use crate::manager::tool_manager::ToolManagerImpl;
use crate::manager::tool_registry::law_package_is_added;
use crate::manager::tool_registry::lookup;
use crate::manager::tool_registry::package_tool_names;
use crate::manager::tool_registry::package_warnings;
use crate::manager::tool_registry::register_fails;
use crate::manager::tool_registry::tool_warnings;
use crate::manager::tool_registry::with_package;
use crate::manager::tool_registry::RegistryView;
use crate::manager::tool_registry::ToolEntry;
use crate::serialized::configs_view;
use crate::serialized::packages_view;
use crate::serialized::ChoiceView;
use crate::serialized::ConfigView;
use crate::serialized::NamespaceConfigOrBool;
use crate::serialized::PackageConfigView;
use crate::serialized::SerializedHandler;
use crate::serialized::SerializedView;
use crate::serialized::ToolConfig;
use crate::serialized::ToolConfigView;
use crate::serialized::ToolManagerSerializedConfig;
use crate::serialized::ToolPackageConfig;
use crate::text::append_strings;
use crate::text::views;
use crate::types::callback_for;
use crate::types::clone_optional_items;
use crate::types::clone_text;
use crate::types::clone_texts;
use crate::types::tools_view;
use crate::types::DEFAULT_NAMESPACE_SEPARATOR;
use crate::types::ManagerConfigView;
use crate::types::NamespaceConfig;
use crate::types::NamespaceView;
use crate::types::PackageView;
use crate::types::Tool;
use crate::types::ToolHookEvent;
use crate::types::ToolManagerConfig;
use crate::types::ToolPackage;
use crate::types::ToolView;
use crate::types::ValidationError;
use crate::types::ValidationResult;
use crate::types::ValidationSeverity;
use crate::utils::namespace::law_parse_splits;
use crate::utils::namespace::namespace_of;

verus! {

/// The static factory object.
#[derive(Debug, Clone, Copy, PartialEq, Eq, Structural)]
pub struct ToolManagerFactory;

/// Bridges string handler names to `HandlerRef`.
#[derive(Debug)]
pub enum HandlerRefEnum {
    /// A bare name.
    Name(String),
    /// A reference.
    Object(HandlerRef),
}

impl HandlerRefEnum {
    /// Construct from a bare string identifier (assumed to be a builtin name).
    pub fn from_str(s: &str) -> (r: HandlerRef)
        ensures
            r@ == RefView::BuiltinName(s@),
    {
        HandlerRef::BuiltinName(String::from_str(s))
    }
}

impl From<HandlerRef> for HandlerRefEnum {
    fn from(value: HandlerRef) -> (r: Self) {
        HandlerRefEnum::Object(value)
    }
}

impl vstd::std_specs::convert::FromSpecImpl<HandlerRef> for HandlerRefEnum {
    open spec fn obeys_from_spec() -> bool {
        true
    }

    open spec fn from_spec(value: HandlerRef) -> Self {
        HandlerRefEnum::Object(value)
    }
}

/// Options passed to `create_from_config`.
#[derive(Debug)]
pub struct CreateFromConfigOptions {
    /// Validate the config first. Default: `true`.
    pub validate: bool,
    /// When set, the new packages/tools are merged into this existing manager.
    pub merge_into: Option<ToolManagerImpl>,
    /// Optional config overrides applied to `merge_into` (or a fresh manager).
    pub config_overrides: Option<ToolManagerConfig>,
    /// Skip invoking `on_init` on each package.
    pub skip_init_hooks: bool,
}

impl Default for CreateFromConfigOptions {
    fn default() -> (r: Self)
        ensures
            r.validate,
            r.merge_into is None,
            r.config_overrides is None,
            !r.skip_init_hooks,
    {
        CreateFromConfigOptions {
            validate: true,
            merge_into: None,
            config_overrides: None,
            skip_init_hooks: false,
        }
    }
}

// ---------------------------------------------------------------------------
// Creating
// ---------------------------------------------------------------------------

/// The reference that the handler of a tool is resolved by.
pub open spec fn reference_of(h: SerializedView) -> RefView {
    match h {
        SerializedView::Name(n) => RefView::BuiltinName(n),
        SerializedView::Ref(r) => r,
    }
}

/// The tool that a config describes, with this handler.
pub open spec fn tool_of(t: ToolConfigView, handler: u64) -> ToolView {
    ToolView {
        name: t.name,
        description: t.description,
        input_schema: t.input_schema,
        handler,
        concurrency_safe: t.concurrency_safe,
        timeout: t.timeout,
        max_retries: t.max_retries,
        metadata: t.metadata,
        version: t.version,
        tags: t.tags,
        deprecated: t.deprecated,
        examples: t.examples,
        strict: None,
    }
}

/// The tool that a config describes outside of any package, with this handler: it has
/// neither metadata nor version, tags and examples.
pub open spec fn standalone_tool_of(t: ToolConfigView, handler: u64) -> ToolView {
    ToolView {
        metadata: None,
        version: None,
        tags: None,
        examples: None,
        ..tool_of(t, handler)
    }
}

/// The namespace that a package asks for: its own, or its name for a prefix.
pub open spec fn namespace_wanted(p: PackageConfigView) -> Option<NamespaceView> {
    match p.namespace {
        Some(ChoiceView::Object(ns)) => Some(ns),
        Some(ChoiceView::Bool(true)) => Some(
            NamespaceView {
                prefix: p.name,
                separator: DEFAULT_NAMESPACE_SEPARATOR,
                auto_prefix: true,
            },
        ),
        _ => None,
    }
}

/// The package that a config describes, with these handlers.
pub open spec fn package_of(p: PackageConfigView, handlers: Seq<u64>) -> PackageView {
    PackageView {
        name: p.name,
        version: p.version,
        namespace: namespace_wanted(p),
        description: p.description,
        dependencies: p.dependencies,
        tools: Seq::new(p.tools.len(), |i: int| tool_of(p.tools[i], handlers[i])),
        on_init: None,
        on_destroy: None,
        before_execute: None,
        after_execute: None,
        metadata: None,
    }
}

/// The errors among what was found, as issues.
pub open spec fn error_issues(f: Seq<FindingView>) -> Seq<(Seq<char>, Seq<char>)>
    decreases f.len(),
{
    if f.len() == 0 {
        Seq::empty()
    } else if f.last().severity == ValidationSeverity::Error {
        error_issues(f.drop_last()).push((f.last().path, f.last().message))
    } else {
        error_issues(f.drop_last())
    }
}

fn collect_issues(errors: &Vec<ValidationError>) -> (r: Vec<ValidationIssue>)
    ensures
        issues_view(r@) == error_issues(findings_view(errors@)),
{
    let ghost all = findings_view(errors@);
    let mut out: Vec<ValidationIssue> = Vec::new();
    let n = errors.len();
    let mut i: usize = 0;
    assert(all.take(0) =~= Seq::<FindingView>::empty());
    assert(issues_view(out@) =~= Seq::<(Seq<char>, Seq<char>)>::empty());
    while i < n
        invariant
            i <= n,
            n == errors@.len(),
            all == findings_view(errors@),
            issues_view(out@) == error_issues(all.take(i as int)),
        decreases n - i,
    {
        let ghost done = out@;
        assert(all.take(i + 1).drop_last() =~= all.take(i as int));
        assert(all.take(i + 1).last() == errors@[i as int]@);
        match errors[i].severity {
            ValidationSeverity::Error => {
                let issue = ValidationIssue {
                    path: errors[i].path.clone(),
                    message: errors[i].message.clone(),
                };
                out.push(issue);
                assert(issues_view(out@) =~= issues_view(done).push(
                    (issue.path@, issue.message@),
                ));
            },
            ValidationSeverity::Warning => {},
        }
        i = i + 1;
    }
    assert(all.take(n as int) =~= all);
    out
}

/// What is wrong with a config that is to be validated.
pub open spec fn config_fault(c: ConfigView, validate: bool) -> Option<ErrorView> {
    if validate && !no_errors(config_findings(c)) {
        Some(
            ErrorView::Validation {
                summary: "Invalid config"@,
                errors: error_issues(config_findings(c)),
            },
        )
    } else {
        None
    }
}

/// The registry that a config is loaded into.
pub open spec fn target_view(
    merge_into: Option<ToolManagerImpl>,
    overrides: Option<ToolManagerConfig>,
) -> ManagerView {
    match (merge_into, overrides) {
        (Some(m), None) => m@,
        (Some(m), Some(c)) => ManagerView {
            registry: RegistryView {
                conflict_strategy: c@.conflict_strategy,
                default_separator: c@.default_separator,
                ..m@.registry
            },
            config: c@,
            destroyed: m@.destroyed,
            resolver: m@.resolver,
        },
        (None, Some(c)) => ManagerView {
            registry: fresh_registry(c@),
            config: c@,
            destroyed: false,
            resolver: fresh_resolver(c@),
        },
        (None, None) => ManagerView {
            registry: fresh_registry(default_settings()),
            config: default_settings(),
            destroyed: false,
            resolver: fresh_resolver(default_settings()),
        },
    }
}

/// The hooks of an event in the manager that a config is loaded into: those of the existing
/// manager, and those of the overrides.
pub open spec fn target_hooks(
    merge_into: Option<ToolManagerImpl>,
    overrides: Option<ToolManagerConfig>,
    e: ToolHookEvent,
    hooks: Seq<HookEntry>,
    r: ToolManagerImpl,
) -> bool {
    batch_registered(
        match merge_into {
            Some(m) => m.hooks_for(e),
            None => Seq::empty(),
        },
        hooks,
        match overrides {
            Some(c) => match c@.hooks {
                Some(callbacks) => callback_for(callbacks, e),
                None => None,
            },
            None => None,
        },
        match merge_into {
            Some(m) => m.hooks_registered(),
            None => 0,
        },
        r.hooks_registered(),
    )
}

/// The settings of a manager of which nothing is said.
pub open spec fn default_settings() -> ManagerConfigView {
    ManagerConfigView {
        default_timeout: crate::types::DEFAULT_TOOL_TIMEOUT_MS,
        default_max_retries: 3,
        default_separator: DEFAULT_NAMESPACE_SEPARATOR,
        conflict_strategy: crate::types::ConflictStrategy::Error,
        allow_override: false,
        validate_schemas: true,
        hooks: None,
        metadata: None,
        priority: None,
    }
}

/// What loading packages leads to: the registry after the last one that could be loaded, how
/// many were, and why the next one could not.
pub open spec fn load_packages(
    r: RegistryView,
    packages: Seq<PackageConfigView>,
    handlers: Seq<Seq<u64>>,
) -> (RegistryView, nat, Option<ErrorView>)
    decreases packages.len(),
{
    if packages.len() == 0 {
        (r, 0, None)
    } else {
        let (mid, n, fault) = load_packages(r, packages.drop_last(), handlers);
        if fault is Some {
            (mid, n, fault)
        } else {
            match with_package(mid, package_of(packages.last(), handlers[packages.len() - 1])) {
                Ok(next) => (next, packages.len(), None),
                Err(e) => (mid, n, Some(e)),
            }
        }
    }
}

/// What is to be warned of when packages are loaded.
pub open spec fn packages_warned(
    r: RegistryView,
    packages: Seq<PackageConfigView>,
    handlers: Seq<Seq<u64>>,
) -> Seq<Seq<char>>
    decreases packages.len(),
{
    if packages.len() == 0 {
        Seq::empty()
    } else {
        let (mid, _, fault) = load_packages(r, packages.drop_last(), handlers);
        let told = packages_warned(r, packages.drop_last(), handlers);
        if fault is Some {
            told
        } else {
            told + package_warnings(
                mid,
                package_of(packages.last(), handlers[packages.len() - 1]),
            )
        }
    }
}

/// What is to be warned of when tools are loaded outside of any package.
pub open spec fn standalone_warned(
    r: RegistryView,
    tools: Seq<ToolConfigView>,
    handlers: Seq<u64>,
) -> Seq<Seq<char>>
    decreases tools.len(),
{
    if tools.len() == 0 {
        Seq::empty()
    } else {
        standalone_warned(r, tools.drop_last(), handlers) + tool_warnings(
            load_standalone(r, tools.drop_last(), handlers).0,
            standalone_tool_of(tools.last(), handlers[tools.len() - 1]),
        )
    }
}

/// The registry after tools were loaded outside of any package, and the names of those that
/// were not refused.
pub open spec fn load_standalone(
    r: RegistryView,
    tools: Seq<ToolConfigView>,
    handlers: Seq<u64>,
) -> (RegistryView, Seq<Seq<char>>)
    decreases tools.len(),
{
    if tools.len() == 0 {
        (r, Seq::empty())
    } else {
        let (mid, names) = load_standalone(r, tools.drop_last(), handlers);
        let t = standalone_tool_of(tools.last(), handlers[tools.len() - 1]);
        (
            registry_after(mid, ToolEntry { tool: t, package: None }),
            if register_fails(mid, t.name) {
                names
            } else {
                names.push(t.name)
            },
        )
    }
}

/// One list of handlers for each package, and in it one handler for each tool.
pub open spec fn handlers_fit(packages: Seq<PackageConfigView>, handlers: Seq<Vec<u64>>) -> bool {
    handlers.len() == packages.len() && forall|i: int|
        0 <= i < packages.len() ==> (#[trigger] handlers[i])@.len() == packages[i].tools.len()
}

/// The handlers of each package.
pub open spec fn handler_numbers(v: Seq<Vec<u64>>) -> Seq<Seq<u64>> {
    v.map_values(|h: Vec<u64>| h@)
}

impl ToolManagerFactory {
    /// The reference that the handler of a tool is to be resolved by.
    pub fn handler_reference(tool: &ToolConfig) -> (r: HandlerRef)
        ensures
            r@ == reference_of(tool@.handler),
    {
        match &tool.handler {
            SerializedHandler::Name(name) => HandlerRefEnum::from_str(name.as_str()),
            SerializedHandler::Ref(r) => r.clone(),
        }
    }

    /// The tool of a package that a config describes.
    pub fn build_tool(tc: &ToolConfig, handler: u64) -> (r: Tool)
        ensures
            r@ == tool_of(tc@, handler),
    {
        let mut builder = Tool::builder(
            tc.name.as_str(),
            tc.description.as_str(),
            tc.input_schema.clone(),
            handler,
        ).concurrency_safe(tc.concurrency_safe).deprecated(tc.deprecated);
        if let Some(ms) = tc.timeout {
            builder = builder.timeout(ms);
        }
        if let Some(n) = tc.max_retries {
            builder = builder.max_retries(n);
        }
        if let Some(m) = &tc.metadata {
            builder = builder.metadata(m.clone());
        }
        if let Some(v) = &tc.version {
            builder = builder.version(v.as_str());
        }
        if let Some(tags) = clone_texts(&tc.tags) {
            builder = builder.tags(tags);
        }
        if let Some(examples) = clone_optional_items(&tc.examples) {
            builder = builder.examples(examples);
        }
        builder.build()
    }

    /// The tool that a config describes outside of any package.
    pub fn build_standalone_tool(tc: &ToolConfig, handler: u64) -> (r: Tool)
        ensures
            r@ == standalone_tool_of(tc@, handler),
    {
        let mut builder = Tool::builder(
            tc.name.as_str(),
            tc.description.as_str(),
            tc.input_schema.clone(),
            handler,
        ).concurrency_safe(tc.concurrency_safe).deprecated(tc.deprecated);
        if let Some(ms) = tc.timeout {
            builder = builder.timeout(ms);
        }
        if let Some(n) = tc.max_retries {
            builder = builder.max_retries(n);
        }
        builder.build()
    }

    /// The package that a config describes, with the handlers of its tools.
    pub fn build_package(pkg: &ToolPackageConfig, handlers: &Vec<u64>) -> (r: ToolPackage)
        requires
            handlers@.len() == pkg@.tools.len(),
        ensures
            r@ == package_of(pkg@, handlers@),
    {
        let mut tools: Vec<Tool> = Vec::new();
        let n = pkg.tools.len();
        let mut i: usize = 0;
        while i < n
            invariant
                i <= n,
                n == pkg.tools@.len(),
                handlers@.len() == n,
                tools@.len() == i,
                forall|k: int|
                    0 <= k < i ==> (#[trigger] tools@[k])@ == tool_of(pkg.tools@[k]@, handlers@[k]),
            decreases n - i,
        {
            tools.push(ToolManagerFactory::build_tool(&pkg.tools[i], handlers[i]));
            i = i + 1;
        }
        assert(tools_view(tools@) =~= package_of(pkg@, handlers@).tools);
        let namespace = match &pkg.namespace {
            Some(NamespaceConfigOrBool::Object(o)) => Some(o.clone()),
            Some(NamespaceConfigOrBool::Bool(b)) => if *b {
                Some(
                    NamespaceConfig {
                        prefix: pkg.name.clone(),
                        separator: DEFAULT_NAMESPACE_SEPARATOR,
                        auto_prefix: true,
                    },
                )
            } else {
                None
            },
            None => None,
        };
        ToolPackage {
            name: pkg.name.clone(),
            version: clone_text(&pkg.version),
            namespace,
            description: clone_text(&pkg.description),
            dependencies: clone_texts(&pkg.dependencies),
            tools,
            on_init: None,
            on_destroy: None,
            before_execute: None,
            after_execute: None,
            metadata: None,
        }
    }

    /// Validates a config, unless it is not to be validated.
    pub fn check_config(config: &ToolManagerSerializedConfig, validate: bool) -> (r: Result<
        (),
        ToolError,
    >)
        requires
            tool_total(config@) <= usize::MAX,
        ensures
            match r {
                Ok(_) => config_fault(config@, validate) is None,
                Err(e) => config_fault(config@, validate) is Some && e@ == config_fault(
                    config@,
                    validate,
                )->0,
            },
    {
        if !validate {
            return Ok(());
        }
        let result = ConfigValidatorImpl::new().validate(config);
        if result.valid {
            Ok(())
        } else {
            let issues = collect_issues(&result.errors);
            Err(ToolError::validation("Invalid config", issues))
        }
    }

    /// The manager that a config is loaded into: an existing one or a fresh one, with the
    /// overrides that are asked for.
    pub fn target_manager(
        merge_into: Option<ToolManagerImpl>,
        config_overrides: Option<ToolManagerConfig>,
    ) -> (r: ToolManagerImpl)
        requires
            merge_into matches Some(m) ==> m.wf() && (config_overrides is Some
                ==> m.hooks_registered() + 11 <= u64::MAX),
        ensures
            r.wf(),
            r@ == target_view(merge_into, config_overrides),
            forall|e: ToolHookEvent|
                target_hooks(merge_into, config_overrides, e, #[trigger] r.hooks_for(e), r),
    {
        match merge_into {
            Some(m) => {
                let mut m = m;
                if let Some(c) = config_overrides {
                    m.apply_config(c);
                }
                m
            },
            None => match config_overrides {
                Some(c) => ToolManagerImpl::new(c),
                None => ToolManagerImpl::new(ToolManagerConfig::default()),
            },
        }
    }

    /// Loads one package into a manager, with the handlers of its tools. Adds what there is to
    /// be warned of.
    pub fn load_package(
        manager: &mut ToolManagerImpl,
        pkg: &ToolPackageConfig,
        handlers: &Vec<u64>,
        warnings: &mut Vec<String>,
    ) -> (r: Result<PackageRegistered, ToolError>)
        requires
            old(manager).wf(),
            handlers@.len() == pkg@.tools.len(),
        ensures
            final(manager).wf(),
            final(manager).same_hooks(&*old(manager)),
            final(manager)@.config == old(manager)@.config,
            final(manager)@.destroyed == old(manager)@.destroyed,
            final(manager)@.resolver == old(manager)@.resolver,
            views(final(warnings)@) == views(old(warnings)@) + package_warnings(
                old(manager)@.registry,
                package_of(pkg@, handlers@),
            ),
            ({
                let want = with_package(old(manager)@.registry, package_of(pkg@, handlers@));
                match r {
                    Err(e) => want is Err && e@ == want->Err_0 && final(manager)@.registry == old(
                        manager,
                    )@.registry,
                    Ok(p) => want == Ok::<_, ErrorView>(final(manager)@.registry) && p.on_init
                        is None && names_event(
                        p.call,
                        ToolHookEvent::OnPackageRegister,
                        pkg@.name,
                    ),
                }
            }),
    {
        let package = ToolManagerFactory::build_package(pkg, handlers);
        let more = manager.package_warnings(&package);
        append_strings(warnings, more);
        manager.register_package(package)
    }

    /// Loads one tool into a manager outside of any package, with its handler. Adds what there
    /// is to be warned of.
    pub fn load_standalone_tool(
        manager: &mut ToolManagerImpl,
        tc: &ToolConfig,
        handler: u64,
        warnings: &mut Vec<String>,
    ) -> (r: Option<HookCall>)
        requires
            old(manager).wf(),
        ensures
            final(manager).wf(),
            views(final(warnings)@) == views(old(warnings)@) + tool_warnings(
                old(manager)@.registry,
                standalone_tool_of(tc@, handler),
            ),
            final(manager).same_hooks(&*old(manager)),
            final(manager)@ == (ManagerView {
                registry: registry_after(
                    old(manager)@.registry,
                    ToolEntry { tool: standalone_tool_of(tc@, handler), package: None },
                ),
                ..old(manager)@
            }),
            match r {
                Some(c) => !register_fails(old(manager)@.registry, tc@.name) && names_event(
                    c,
                    ToolHookEvent::OnRegister,
                    tc@.name,
                ),
                None => register_fails(old(manager)@.registry, tc@.name),
            },
    {
        let tool = ToolManagerFactory::build_standalone_tool(tc, handler);
        let more = manager.tool_warnings(&tool);
        append_strings(warnings, more);
        manager.register(tool, None)
    }
}

/// The names of packages.
pub open spec fn package_names(packages: Seq<PackageConfigView>) -> Seq<Seq<char>> {
    packages.map_values(|p: PackageConfigView| p.name)
}

fn load_all_packages(
    manager: &mut ToolManagerImpl,
    packages: &Vec<ToolPackageConfig>,
    handlers: &Vec<Vec<u64>>,
    calls: &mut Vec<HookCall>,
    warnings: &mut Vec<String>,
) -> (r: Result<(), ToolError>)
    requires
        old(manager).wf(),
        handlers_fit(packages_view(packages@), handlers@),
    ensures
        final(manager).wf(),
        final(manager).same_hooks(&*old(manager)),
        final(manager)@.config == old(manager)@.config,
        final(manager)@.destroyed == old(manager)@.destroyed,
        final(manager)@.resolver == old(manager)@.resolver,
        views(final(warnings)@) == views(old(warnings)@) + packages_warned(
            old(manager)@.registry,
            packages_view(packages@),
            handler_numbers(handlers@),
        ),
        ({
            let (after, n, fault) = load_packages(
                old(manager)@.registry,
                packages_view(packages@),
                handler_numbers(handlers@),
            );
            &&& final(manager)@.registry == after
            &&& match r {
                Ok(_) => fault is None,
                Err(e) => fault is Some && e@ == fault->0,
            }
            &&& calls_view(final(calls)@) == calls_view(old(calls)@) + calls_for(
                ToolHookEvent::OnPackageRegister,
                package_names(packages_view(packages@).take(n as int)),
            )
        }),
{
    let ghost start = *manager;
    let ghost all = packages_view(packages@);
    let ghost numbers = handler_numbers(handlers@);
    let ghost first = calls_view(calls@);
    let ghost told = views(warnings@);
    let n = packages.len();
    let mut i: usize = 0;
    assert(all.take(0) =~= Seq::<PackageConfigView>::empty());
    assert(told + packages_warned(start@.registry, all.take(0), numbers) =~= told);
    assert(first + calls_for(ToolHookEvent::OnPackageRegister, package_names(all.take(0)))
        =~= first);
    while i < n
        invariant
            i <= n,
            n == packages@.len(),
            all == packages_view(packages@),
            numbers == handler_numbers(handlers@),
            handlers_fit(all, handlers@),
            manager.wf(),
            manager.same_hooks(&start),
            manager@.config == start@.config,
            manager@.destroyed == start@.destroyed,
            manager@.resolver == start@.resolver,
            load_packages(start@.registry, all.take(i as int), numbers) == (
                manager@.registry,
                i as nat,
                None::<ErrorView>,
            ),
            calls_view(calls@) == first + calls_for(
                ToolHookEvent::OnPackageRegister,
                package_names(all.take(i as int)),
            ),
            views(warnings@) == told + packages_warned(
                start@.registry,
                all.take(i as int),
                numbers,
            ),
            first == calls_view(old(calls)@),
            told == views(old(warnings)@),
            start == *old(manager),
        decreases n - i,
    {
        let ghost done = calls@;
        proof {
            assert(all.take(i + 1).drop_last() =~= all.take(i as int));
            assert(all.take(i + 1).last() == packages@[i as int]@);
            assert(numbers[i as int] == handlers@[i as int]@);
            let before = packages_warned(start@.registry, all.take(i as int), numbers);
            let more = package_warnings(
                manager@.registry,
                package_of(all[i as int], numbers[i as int]),
            );
            assert((told + before) + more =~= told + (before + more));
        }
        match ToolManagerFactory::load_package(manager, &packages[i], &handlers[i], warnings) {
            Err(e) => {
                proof {
                    lemma_load_stops(start@.registry, all, numbers, i + 1);
                }
                return Err(e);
            },
            Ok(p) => {
                calls.push(p.call);
                proof {
                    let name = all[i as int].name;
                    assert(calls_view(calls@) =~= calls_view(done).push(
                        (ToolHookEvent::OnPackageRegister, seq![JsonView::String(name)]),
                    ));
                    assert(package_names(all.take(i + 1)) =~= package_names(
                        all.take(i as int),
                    ).push(name));
                    assert(calls_view(calls@) =~= first + calls_for(
                        ToolHookEvent::OnPackageRegister,
                        package_names(all.take(i + 1)),
                    ));
                }
            },
        }
        i = i + 1;
    }
    assert(all.take(n as int) =~= all);
    Ok(())
}

proof fn lemma_load_stops(
    r: RegistryView,
    packages: Seq<PackageConfigView>,
    handlers: Seq<Seq<u64>>,
    n: int,
)
    requires
        0 <= n <= packages.len(),
        load_packages(r, packages.take(n), handlers).2 is Some,
    ensures
        load_packages(r, packages, handlers) == load_packages(r, packages.take(n), handlers),
        packages_warned(r, packages, handlers) == packages_warned(r, packages.take(n), handlers),
    decreases packages.len() - n,
{
    if n < packages.len() {
        assert(packages.take(n + 1).drop_last() =~= packages.take(n));
        lemma_load_stops(r, packages, handlers, n + 1);
    } else {
        assert(packages.take(n) =~= packages);
    }
}

fn load_all_standalone(
    manager: &mut ToolManagerImpl,
    tools: &Vec<ToolConfig>,
    handlers: &Vec<u64>,
    calls: &mut Vec<HookCall>,
    warnings: &mut Vec<String>,
)
    requires
        old(manager).wf(),
        handlers@.len() == tools@.len(),
    ensures
        final(manager).wf(),
        final(manager).same_hooks(&*old(manager)),
        views(final(warnings)@) == views(old(warnings)@) + standalone_warned(
            old(manager)@.registry,
            configs_view(tools@),
            handlers@,
        ),
        ({
            let (after, names) = load_standalone(
                old(manager)@.registry,
                configs_view(tools@),
                handlers@,
            );
            &&& final(manager)@ == (ManagerView { registry: after, ..old(manager)@ })
            &&& calls_view(final(calls)@) == calls_view(old(calls)@) + calls_for(
                ToolHookEvent::OnRegister,
                names,
            )
        }),
{
    let ghost start = *manager;
    let ghost all = configs_view(tools@);
    let ghost first = calls_view(calls@);
    let ghost told = views(warnings@);
    let n = tools.len();
    let mut i: usize = 0;
    assert(all.take(0) =~= Seq::<ToolConfigView>::empty());
    assert(told + standalone_warned(start@.registry, all.take(0), handlers@) =~= told);
    assert(first + calls_for(ToolHookEvent::OnRegister, Seq::empty()) =~= first);
    while i < n
        invariant
            i <= n,
            n == tools@.len(),
            n == handlers@.len(),
            all == configs_view(tools@),
            manager.wf(),
            manager.same_hooks(&start),
            manager@ == (ManagerView {
                registry: load_standalone(start@.registry, all.take(i as int), handlers@).0,
                ..start@
            }),
            calls_view(calls@) == first + calls_for(
                ToolHookEvent::OnRegister,
                load_standalone(start@.registry, all.take(i as int), handlers@).1,
            ),
            views(warnings@) == told + standalone_warned(
                start@.registry,
                all.take(i as int),
                handlers@,
            ),
        decreases n - i,
    {
        let ghost done = calls@;
        let ghost names = load_standalone(start@.registry, all.take(i as int), handlers@).1;
        proof {
            assert(all.take(i + 1).drop_last() =~= all.take(i as int));
            assert(all.take(i + 1).last() == tools@[i as int]@);
            let before = standalone_warned(start@.registry, all.take(i as int), handlers@);
            let more = tool_warnings(
                manager@.registry,
                standalone_tool_of(all[i as int], handlers@[i as int]),
            );
            assert((told + before) + more =~= told + (before + more));
        }
        let taken = ToolManagerFactory::load_standalone_tool(
            manager,
            &tools[i],
            handlers[i],
            warnings,
        );
        if let Some(c) = taken {
            calls.push(c);
            proof {
                let name = all[i as int].name;
                assert(calls_view(calls@) =~= calls_view(done).push(
                    (ToolHookEvent::OnRegister, seq![JsonView::String(name)]),
                ));
                assert(calls_view(calls@) =~= first + calls_for(
                    ToolHookEvent::OnRegister,
                    names.push(name),
                ));
            }
        }
        i = i + 1;
    }
    assert(all.take(n as int) =~= all);
}

/// What loading a config leads to: the registry, the events to be emitted, and why it was
/// given up.
pub open spec fn load_all(
    r: RegistryView,
    c: ConfigView,
    handlers: Seq<Seq<u64>>,
    standalone_handlers: Seq<u64>,
) -> (RegistryView, Seq<(ToolHookEvent, Seq<JsonView>)>, Option<ErrorView>) {
    let (mid, n, fault) = load_packages(r, c.packages, handlers);
    let calls = calls_for(
        ToolHookEvent::OnPackageRegister,
        package_names(c.packages.take(n as int)),
    );
    if fault is Some {
        (mid, calls, fault)
    } else {
        let (after, names) = load_standalone(mid, standalone(c), standalone_handlers);
        (after, calls + calls_for(ToolHookEvent::OnRegister, names), None)
    }
}

/// What is to be warned of when a config is loaded.
pub open spec fn load_warnings(
    r: RegistryView,
    c: ConfigView,
    handlers: Seq<Seq<u64>>,
    standalone_handlers: Seq<u64>,
) -> Seq<Seq<char>> {
    let (mid, _, fault) = load_packages(r, c.packages, handlers);
    let told = packages_warned(r, c.packages, handlers);
    if fault is Some {
        told
    } else {
        told + standalone_warned(mid, standalone(c), standalone_handlers)
    }
}

impl ToolManagerFactory {
    /// Loads a config into a manager, with the handlers of all tools. Adds the events to be
    /// emitted and what there is to be warned of. Where a package cannot be loaded, those before it stay, and nothing after it
    /// is loaded.
    pub fn load_config(
        manager: &mut ToolManagerImpl,
        config: &ToolManagerSerializedConfig,
        handlers: &Vec<Vec<u64>>,
        standalone_handlers: &Vec<u64>,
        calls: &mut Vec<HookCall>,
        warnings: &mut Vec<String>,
    ) -> (r: Result<(), ToolError>)
        requires
            old(manager).wf(),
            handlers_fit(config@.packages, handlers@),
            standalone_handlers@.len() == standalone(config@).len(),
        ensures
            final(manager).wf(),
            final(manager).same_hooks(&*old(manager)),
            final(manager)@.config == old(manager)@.config,
            final(manager)@.destroyed == old(manager)@.destroyed,
            final(manager)@.resolver == old(manager)@.resolver,
            views(final(warnings)@) == views(old(warnings)@) + load_warnings(
                old(manager)@.registry,
                config@,
                handler_numbers(handlers@),
                standalone_handlers@,
            ),
            ({
                let (after, emitted, fault) = load_all(
                    old(manager)@.registry,
                    config@,
                    handler_numbers(handlers@),
                    standalone_handlers@,
                );
                &&& final(manager)@.registry == after
                &&& calls_view(final(calls)@) == calls_view(old(calls)@) + emitted
                &&& match r {
                    Ok(_) => fault is None,
                    Err(e) => fault is Some && e@ == fault->0,
                }
            }),
    {
        let ghost first = calls_view(calls@);
        let ghost told = views(warnings@);
        match load_all_packages(manager, &config.packages, handlers, calls, warnings) {
            Err(e) => return Err(e),
            Ok(_) => {},
        }
        let ghost mid = calls_view(calls@);
        let ghost reg = manager@.registry;
        proof {
            let more = packages_warned(
                old(manager)@.registry,
                config@.packages,
                handler_numbers(handlers@),
            );
            let rest = standalone_warned(reg, standalone(config@), standalone_handlers@);
            assert((told + more) + rest =~= told + (more + rest));
        }
        match &config.standalone_tools {
            Some(tools) => {
                load_all_standalone(manager, tools, standalone_handlers, calls, warnings);
            },
            None => {
                assert(calls_for(ToolHookEvent::OnRegister, Seq::empty()) =~= Seq::empty());
            },
        }
        proof {
            let names = load_standalone(reg, standalone(config@), standalone_handlers@).1;
            let n = load_packages(
                old(manager)@.registry,
                config@.packages,
                handler_numbers(handlers@),
            ).1;
            assert(calls_view(calls@) =~= first + (calls_for(
                ToolHookEvent::OnPackageRegister,
                package_names(config@.packages.take(n as int)),
            ) + calls_for(ToolHookEvent::OnRegister, names)));
        }
        Ok(())
    }

    /// Build a manager from a serialized config, with the handlers of all tools. Gives the
    /// manager, the events to be emitted and what there is to be warned of.
    pub fn create_from_config(
        config: &ToolManagerSerializedConfig,
        options: CreateFromConfigOptions,
        handlers: &Vec<Vec<u64>>,
        standalone_handlers: &Vec<u64>,
    ) -> (r: Result<(ToolManagerImpl, Vec<HookCall>, Vec<String>), ToolError>)
        requires
            tool_total(config@) <= usize::MAX,
            handlers_fit(config@.packages, handlers@),
            standalone_handlers@.len() == standalone(config@).len(),
            options.merge_into matches Some(m) ==> m.wf() && (options.config_overrides is Some
                ==> m.hooks_registered() + 11 <= u64::MAX),
        ensures
            ({
                let target = target_view(options.merge_into, options.config_overrides);
                let (after, emitted, fault) = load_all(
                    target.registry,
                    config@,
                    handler_numbers(handlers@),
                    standalone_handlers@,
                );
                match r {
                    Err(e) => if config_fault(config@, options.validate) is Some {
                        e@ == config_fault(config@, options.validate)->0
                    } else {
                        fault is Some && e@ == fault->0
                    },
                    Ok((m, calls, warnings)) => {
                        &&& config_fault(config@, options.validate) is None
                        &&& fault is None
                        &&& m.wf()
                        &&& m@ == (ManagerView { registry: after, ..target })
                        &&& forall|e: ToolHookEvent|
                            target_hooks(
                                options.merge_into,
                                options.config_overrides,
                                e,
                                #[trigger] m.hooks_for(e),
                                m,
                            )
                        &&& calls_view(calls@) == emitted
                        &&& views(warnings@) == load_warnings(
                            target.registry,
                            config@,
                            handler_numbers(handlers@),
                            standalone_handlers@,
                        )
                    },
                }
            }),
    {
        match ToolManagerFactory::check_config(config, options.validate) {
            Err(e) => return Err(e),
            Ok(_) => {},
        }
        let mut manager = ToolManagerFactory::target_manager(
            options.merge_into,
            options.config_overrides,
        );
        let ghost bare = manager;
        let mut calls: Vec<HookCall> = Vec::new();
        let mut warnings: Vec<String> = Vec::new();
        assert(calls_view(calls@) =~= Seq::empty());
        assert(views(warnings@) =~= Seq::<Seq<char>>::empty());
        match ToolManagerFactory::load_config(
            &mut manager,
            config,
            handlers,
            standalone_handlers,
            &mut calls,
            &mut warnings,
        ) {
            Err(e) => Err(e),
            Ok(_) => {
                proof {
                    let emitted = load_all(
                        target_view(options.merge_into, options.config_overrides).registry,
                        config@,
                        handler_numbers(handlers@),
                        standalone_handlers@,
                    ).1;
                    assert(Seq::<(ToolHookEvent, Seq<JsonView>)>::empty() + emitted =~= emitted);
                    let told = load_warnings(
                        target_view(options.merge_into, options.config_overrides).registry,
                        config@,
                        handler_numbers(handlers@),
                        standalone_handlers@,
                    );
                    assert(Seq::<Seq<char>>::empty() + told =~= told);
                    assert forall|e: ToolHookEvent|
                        target_hooks(
                            options.merge_into,
                            options.config_overrides,
                            e,
                            #[trigger] manager.hooks_for(e),
                            manager,
                        ) by {
                        assert(target_hooks(
                            options.merge_into,
                            options.config_overrides,
                            e,
                            bare.hooks_for(e),
                            bare,
                        ));
                    }
                }
                Ok((manager, calls, warnings))
            },
        }
    }

    /// Wrap an existing manager's `export_config` for the factory surface.
    pub fn to_config(manager: &ToolManagerImpl) -> (r: ToolManagerSerializedConfig)
        ensures
            r@ == exported(manager@),
    {
        manager.export_config()
    }

    /// Validate a config without instantiating a manager.
    pub fn validate_config(config: &ToolManagerSerializedConfig) -> (r: ValidationResult)
        requires
            tool_total(config@) <= usize::MAX,
        ensures
            findings_view(r.errors@) == config_findings(config@),
            r.valid == no_errors(config_findings(config@)),
            findings_view(r.warnings@) == config_findings(config@).filter(
                |f: FindingView| f.severity == ValidationSeverity::Warning,
            ),
            r.tool_count as nat == tool_total(config@),
            r.package_count as nat == config@.packages.len(),
    {
        ConfigValidatorImpl::new().validate(config)
    }
}

/// A package that was written down and is created again is the same package, but that its
/// tools have new handlers and its hooks and metadata are gone, as long as no tool has a
/// separator in its name.
pub proof fn law_export_import(p: PackageView, handlers: Seq<u64>)
    requires
        handlers.len() == p.tools.len(),
        forall|i: int|
            0 <= i < p.tools.len() ==> !(#[trigger] p.tools[i]).name.contains(
                DEFAULT_NAMESPACE_SEPARATOR,
            ),
    ensures
        package_of(exported_package(p), handlers) == (PackageView {
            tools: Seq::new(
                p.tools.len(),
                |i: int| ToolView { handler: handlers[i], strict: None, ..p.tools[i] },
            ),
            on_init: None,
            on_destroy: None,
            before_execute: None,
            after_execute: None,
            metadata: None,
            ..p
        }),
        package_tool_names(package_of(exported_package(p), handlers)) == package_tool_names(p),
{
    let q = package_of(exported_package(p), handlers);
    assert forall|i: int| 0 <= i < p.tools.len() implies #[trigger] q.tools[i] == (ToolView {
        handler: handlers[i],
        strict: None,
        ..p.tools[i]
    }) by {
        law_parse_splits(p.tools[i].name, DEFAULT_NAMESPACE_SEPARATOR);
        if let Some(ns) = namespace_of(p.tools[i].name, DEFAULT_NAMESPACE_SEPARATOR) {
            let name = p.tools[i].name;
            assert(name[ns.len() as int] == DEFAULT_NAMESPACE_SEPARATOR);
        }
        assert(exported_package(p).tools[i] == exported_tool(p.tools[i]));
    }
    assert(q.tools =~= Seq::new(
        p.tools.len(),
        |i: int| ToolView { handler: handlers[i], strict: None, ..p.tools[i] },
    ));
    assert(package_tool_names(q) =~= package_tool_names(p));
}

/// The namespace of a package: the one that is given; where only `true` is, one with the name of
/// the package as its prefix, which is put before the names by itself; else none.
pub proof fn law_namespace_wanted(p: PackageConfigView)
    ensures
        p.namespace is None ==> namespace_wanted(p) is None,
        p.namespace == Some(ChoiceView::Bool(false)) ==> namespace_wanted(p) is None,
        p.namespace == Some(ChoiceView::Bool(true)) ==> (namespace_wanted(p) matches Some(ns)
            && ns.prefix == p.name && ns.auto_prefix && ns.separator
            == DEFAULT_NAMESPACE_SEPARATOR),
        p.namespace matches Some(ChoiceView::Object(ns)) ==> namespace_wanted(p) == Some(ns),
{
}

/// A package is made with its tools in order, each with the handler that was found for it and
/// with all that was said of it.
pub proof fn law_package_is_made(p: PackageConfigView, handlers: Seq<u64>, i: int)
    requires
        0 <= i < p.tools.len(),
    ensures
        ({
            let made = package_of(p, handlers);
            let t = made.tools[i];
            let c = p.tools[i];
            &&& made.name == p.name
            &&& made.version == p.version
            &&& made.description == p.description
            &&& made.dependencies == p.dependencies
            &&& made.tools.len() == p.tools.len()
            &&& t.name == c.name
            &&& t.description == c.description
            &&& t.input_schema == c.input_schema
            &&& t.handler == handlers[i]
            &&& t.concurrency_safe == c.concurrency_safe
            &&& t.timeout == c.timeout
            &&& t.max_retries == c.max_retries
            &&& t.metadata == c.metadata
            &&& t.version == c.version
            &&& t.tags == c.tags
            &&& t.deprecated == c.deprecated
            &&& t.examples == c.examples
        }),
{
}

/// A standalone tool is made with its own handler, schema, timeout and retries, and without
/// metadata, version, tags and examples.
pub proof fn law_standalone_tool_is_made(c: ToolConfigView, handler: u64)
    ensures
        standalone_tool_of(c, handler).name == c.name,
        standalone_tool_of(c, handler).description == c.description,
        standalone_tool_of(c, handler).input_schema == c.input_schema,
        standalone_tool_of(c, handler).handler == handler,
        standalone_tool_of(c, handler).concurrency_safe == c.concurrency_safe,
        standalone_tool_of(c, handler).timeout == c.timeout,
        standalone_tool_of(c, handler).max_retries == c.max_retries,
        standalone_tool_of(c, handler).deprecated == c.deprecated,
        standalone_tool_of(c, handler).metadata is None,
        standalone_tool_of(c, handler).version is None,
        standalone_tool_of(c, handler).tags is None,
        standalone_tool_of(c, handler).examples is None,
{
}

/// A configuration is refused exactly where it is to be validated and one of the findings is an
/// error; what is told are the errors alone, with their paths.
pub proof fn law_what_is_refused(c: ConfigView, validate: bool, path: Seq<char>, message: Seq<char>)
    ensures
        config_fault(c, validate) is Some <==> validate && exists|i: int|
            0 <= i < config_findings(c).len() && (#[trigger] config_findings(c)[i]).severity
                == ValidationSeverity::Error,
        config_fault(c, validate) matches Some(e) ==> (e matches ErrorView::Validation {
            errors,
            ..
        } && (errors.contains((path, message)) <==> exists|i: int|
            0 <= i < config_findings(c).len() && (#[trigger] config_findings(c)[i]).severity
                == ValidationSeverity::Error && config_findings(c)[i].path == path
                && config_findings(c)[i].message == message)),
{
    lemma_error_issues(config_findings(c), path, message);
}

proof fn lemma_error_issues(f: Seq<FindingView>, path: Seq<char>, message: Seq<char>)
    ensures
        error_issues(f).contains((path, message)) <==> exists|i: int|
            0 <= i < f.len() && (#[trigger] f[i]).severity == ValidationSeverity::Error
                && f[i].path == path && f[i].message == message,
    decreases f.len(),
{
    let want = (path, message);
    if f.len() > 0 {
        let d = f.drop_last();
        lemma_error_issues(d, path, message);
        let all = error_issues(f);
        let rest = error_issues(d);
        if rest.contains(want) {
            let k = choose|k: int| 0 <= k < rest.len() && rest[k] == want;
            assert(all[k] == want);
            let i = choose|i: int|
                0 <= i < d.len() && (#[trigger] d[i]).severity == ValidationSeverity::Error
                    && d[i].path == path && d[i].message == message;
            assert(f[i] == d[i]);
        }
        if f.last().severity == ValidationSeverity::Error && f.last().path == path
            && f.last().message == message {
            assert(all[rest.len() as int] == want);
            assert(f[f.len() - 1] == f.last());
        }
        if all.contains(want) && !rest.contains(want) {
            let k = choose|k: int| 0 <= k < all.len() && all[k] == want;
            if k < rest.len() {
                assert(rest[k] == want);
            }
            assert(f[f.len() - 1] == f.last());
        }
        if exists|i: int|
            0 <= i < f.len() && (#[trigger] f[i]).severity == ValidationSeverity::Error
                && f[i].path == path && f[i].message == message {
            let i = choose|i: int|
                0 <= i < f.len() && (#[trigger] f[i]).severity == ValidationSeverity::Error
                    && f[i].path == path && f[i].message == message;
            if i < d.len() {
                assert(d[i] == f[i]);
            }
        }
    }
}

/// Loading packages without a fault registers each of them, in order, behind those that were
/// there. With a fault, those before the one at fault are registered, and none behind it.
pub proof fn law_packages_are_loaded(
    r: RegistryView,
    packages: Seq<PackageConfigView>,
    handlers: Seq<Seq<u64>>,
)
    ensures
        ({
            let (after, n, fault) = load_packages(r, packages, handlers);
            &&& n <= packages.len()
            &&& fault is None <==> n == packages.len()
            &&& after.packages.len() == r.packages.len() + n
            &&& after.packages.take(r.packages.len() as int) == r.packages
            &&& forall|i: int|
                0 <= i < n ==> after.packages[r.packages.len() + i].pkg.name == (
                #[trigger] packages[i]).name
            &&& fault matches Some(e) ==> {
                let mid = load_packages(r, packages.take(n as int), handlers).0;
                &&& after == mid
                &&& with_package(mid, package_of(packages[n as int], handlers[n as int])) == Err::<
                    RegistryView,
                    ErrorView,
                >(e)
            }
        }),
    decreases packages.len(),
{
    if packages.len() == 0 {
        assert(r.packages.take(r.packages.len() as int) =~= r.packages);
    } else {
        let d = packages.drop_last();
        law_packages_are_loaded(r, d, handlers);
        let (mid, n, fault) = load_packages(r, d, handlers);
        let (after, m, now) = load_packages(r, packages, handlers);
        assert forall|i: int| 0 <= i < d.len() implies packages[i] == d[i] by {}
        if fault is Some {
            assert(packages.take(n as int) =~= d.take(n as int));
        } else {
            let p = package_of(packages.last(), handlers[packages.len() - 1]);
            assert(packages.take(n as int) =~= d);
            if with_package(mid, p) is Ok {
                law_package_is_added(mid, p, p.name);
                assert(after.packages =~= mid.packages.push(after.packages.last()));
                assert(after.packages.take(r.packages.len() as int) =~= r.packages) by {
                    assert forall|i: int| 0 <= i < r.packages.len() implies after.packages[i]
                        == r.packages[i] by {
                        assert(mid.packages.take(r.packages.len() as int)[i] == r.packages[i]);
                    }
                }
                assert forall|i: int| 0 <= i < m implies after.packages[r.packages.len() + i].pkg.name
                    == (#[trigger] packages[i]).name by {
                    if i < d.len() {
                        assert(mid.packages[r.packages.len() + i].pkg.name == d[i].name);
                    }
                }
            }
        }
    }
}

/// A standalone tool of a configuration that was loaded is there under its name, and a name that
/// none of them has leads where it led before.
pub proof fn law_standalone_tools_are_loaded(
    r: RegistryView,
    tools: Seq<ToolConfigView>,
    handlers: Seq<u64>,
    name: Seq<char>,
)
    ensures
        ({
            let after = load_standalone(r, tools, handlers).0;
            &&& (exists|i: int| 0 <= i < tools.len() && (#[trigger] tools[i]).name == name)
                ==> lookup(after.tools, name) is Some
            &&& (forall|i: int| 0 <= i < tools.len() ==> (#[trigger] tools[i]).name != name)
                ==> lookup(after.tools, name) == lookup(r.tools, name)
            &&& lookup(r.tools, name) is Some ==> lookup(after.tools, name) is Some
            &&& after.packages == r.packages
        }),
    decreases tools.len(),
{
    if tools.len() > 0 {
        let d = tools.drop_last();
        law_standalone_tools_are_loaded(r, d, handlers, name);
        let mid = load_standalone(r, d, handlers).0;
        let t = standalone_tool_of(tools.last(), handlers[tools.len() - 1]);
        law_manager_registers(mid, ToolEntry { tool: t, package: None }, name);
        if exists|i: int| 0 <= i < tools.len() && (#[trigger] tools[i]).name == name {
            let i = choose|i: int| 0 <= i < tools.len() && (#[trigger] tools[i]).name == name;
            if i < d.len() {
                assert(d[i].name == name);
            }
        }
        if forall|i: int| 0 <= i < tools.len() ==> (#[trigger] tools[i]).name != name {
            assert forall|i: int| 0 <= i < d.len() implies (#[trigger] d[i]).name != name by {
                assert(d[i] == tools[i]);
            }
            assert(tools[tools.len() - 1].name != name);
        }
    }
}

/// A manager that is made without settings times out after 25 minutes, retries three times,
/// validates inputs, and takes a taken name for an error.
pub proof fn law_default_settings()
    ensures
        default_settings().default_timeout == 25 * 60 * 1000,
        default_settings().default_max_retries == 3,
        default_settings().validate_schemas,
        !default_settings().allow_override,
        default_settings().conflict_strategy == crate::types::ConflictStrategy::Error,
        default_settings().hooks is None,
{
}

/// Loading a configuration announces the packages first, one by one in their order, and the
/// standalone tools behind them. A package at fault ends it: no standalone tool is taken, and
/// nothing behind that package is announced.
pub proof fn law_loading(
    r: RegistryView,
    c: ConfigView,
    handlers: Seq<Seq<u64>>,
    standalone_handlers: Seq<u64>,
)
    ensures
        ({
            let (after, calls, fault) = load_all(r, c, handlers, standalone_handlers);
            let (mid, n, refused) = load_packages(r, c.packages, handlers);
            let names = load_standalone(mid, standalone(c), standalone_handlers).1;
            &&& fault == refused
            &&& calls.len() >= n
            &&& forall|i: int|
                0 <= i < n ==> #[trigger] calls[i] == (
                    ToolHookEvent::OnPackageRegister,
                    seq![JsonView::String(c.packages[i].name)],
                )
            &&& fault is Some ==> after == mid && calls.len() == n
            &&& fault is None ==> {
                &&& n == c.packages.len()
                &&& calls.len() == n + names.len()
                &&& forall|i: int|
                    n <= i < calls.len() ==> #[trigger] calls[i] == (
                        ToolHookEvent::OnRegister,
                        seq![JsonView::String(names[i - n])],
                    )
            }
        }),
{
    law_packages_are_loaded(r, c.packages, handlers);
}

/// A configuration names a handler by its bare name or by a full reference.
pub proof fn law_reference(name: Seq<char>, r: RefView)
    ensures
        reference_of(SerializedView::Name(name)) == RefView::BuiltinName(name),
        reference_of(SerializedView::Ref(r)) == r,
{
}

} // verus!
