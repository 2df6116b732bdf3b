//! The manager: registry, hooks, configurations, handlers.
use latte_rs_agent_tools::error::ToolError;
use latte_rs_agent_tools::handler_refs::BuiltinHandlerRef;
use latte_rs_agent_tools::handler_refs::BuiltinHandlerType;
use latte_rs_agent_tools::handler_refs::CombineMode;
use latte_rs_agent_tools::handler_refs::CompositeHandlerRef;
use latte_rs_agent_tools::handler_refs::CompositeHandlerType;
use latte_rs_agent_tools::handler_refs::HandlerRef;
use latte_rs_agent_tools::handler_refs::HttpHandlerRef;
use latte_rs_agent_tools::handler_refs::HttpHandlerType;
use latte_rs_agent_tools::handler_refs::HttpMethod;
use latte_rs_agent_tools::handler_refs::ScriptHandlerRef;
use latte_rs_agent_tools::handler_refs::ScriptHandlerType;
use latte_rs_agent_tools::json::Json;
use latte_rs_agent_tools::manager::config_validator::ConfigValidatorImpl;
use latte_rs_agent_tools::manager::factory::CreateFromConfigOptions;
use latte_rs_agent_tools::manager::factory::HandlerRefEnum;
use latte_rs_agent_tools::manager::factory::ToolManagerFactory;
use latte_rs_agent_tools::manager::hook_manager::hook_runs;
use latte_rs_agent_tools::manager::hook_manager::HookManagerImpl;
use latte_rs_agent_tools::manager::tool_manager::create_tool_manager;
use latte_rs_agent_tools::manager::tool_manager::create_tool_manager_with_config;
use latte_rs_agent_tools::manager::tool_manager::Outcome;
use latte_rs_agent_tools::resolvers::builtin_resolver::merge_params;
use latte_rs_agent_tools::resolvers::composite_resolver::combine_merge;
use latte_rs_agent_tools::resolvers::composite_resolver::combine_parallel;
use latte_rs_agent_tools::resolvers::composite_resolver::sequence_step;
use latte_rs_agent_tools::resolvers::composite_resolver::CompositeHandlerResolver;
use latte_rs_agent_tools::resolvers::composite_resolver::ResolvedHandler;
use latte_rs_agent_tools::resolvers::http_resolver::extract_path;
use latte_rs_agent_tools::resolvers::http_resolver::read_response;
use latte_rs_agent_tools::resolvers::http_resolver::HttpHandlerResolver;
use latte_rs_agent_tools::resolvers::script_resolver::finish_script;
use latte_rs_agent_tools::resolvers::script_resolver::stage_failure;
use latte_rs_agent_tools::resolvers::script_resolver::ScriptHandlerResolver;
use latte_rs_agent_tools::resolvers::script_resolver::ScriptStage;
use latte_rs_agent_tools::serialized::NamespaceConfigOrBool;
use latte_rs_agent_tools::serialized::SerializedHandler;
use latte_rs_agent_tools::serialized::ToolConfig;
use latte_rs_agent_tools::serialized::ToolManagerSerializedConfig;
use latte_rs_agent_tools::serialized::ToolPackageConfig;
use latte_rs_agent_tools::tools::packages::add_file_find;
use latte_rs_agent_tools::tools::packages::add_file_search;
use latte_rs_agent_tools::tools::packages::builtin_tool_packages;
use latte_rs_agent_tools::tools::packages::AstToolsPackage;
use latte_rs_agent_tools::tools::packages::BrowserToolsPackage;
use latte_rs_agent_tools::tools::packages::EditToolsPackage;
use latte_rs_agent_tools::tools::packages::EvalToolsPackage;
use latte_rs_agent_tools::tools::packages::FileToolsPackage;
use latte_rs_agent_tools::tools::packages::GitToolsPackage;
use latte_rs_agent_tools::tools::packages::McpToolsPackage;
use latte_rs_agent_tools::tools::packages::PlaywrightToolsPackage;
use latte_rs_agent_tools::tools::packages::ScreenshotToolsPackage;
use latte_rs_agent_tools::tools::packages::FILE_READ;
use latte_rs_agent_tools::types::ConflictStrategy;
use latte_rs_agent_tools::types::HookRegistrationOptions;
use latte_rs_agent_tools::types::MergeOptions;
use latte_rs_agent_tools::types::NamespaceConfig;
use latte_rs_agent_tools::types::PackagePriority;
use latte_rs_agent_tools::types::Tool;
use latte_rs_agent_tools::types::ToolExecutionContext;
use latte_rs_agent_tools::types::ToolHookEvent;
use latte_rs_agent_tools::types::ToolInputSchema;
use latte_rs_agent_tools::types::ToolManagerConfig;
use latte_rs_agent_tools::types::ToolPackage;
use latte_rs_agent_tools::types::ValidationSeverity;
use latte_rs_agent_tools::utils::logger::create_logger;
use latte_rs_agent_tools::utils::logger::DefaultLogger;
use latte_rs_agent_tools::utils::logger::LogLevel;
use latte_rs_agent_tools::utils::logger::LoggerOptions;

fn json(text: &str) -> Json {
    Json::parse(text).unwrap()
}

fn tool(name: &str, handler: u64) -> Tool {
    Tool::builder(name, "a tool", ToolInputSchema::default(), handler).build()
}

fn package(name: &str, tools: Vec<Tool>) -> ToolPackage {
    ToolPackage {
        name: name.into(),
        version: None,
        namespace: None,
        description: None,
        dependencies: None,
        tools,
        on_init: None,
        on_destroy: None,
        before_execute: None,
        after_execute: None,
        metadata: None,
    }
}

fn tool_config(name: &str) -> ToolConfig {
    ToolConfig {
        name: name.into(),
        description: "say hi".into(),
        input_schema: Default::default(),
        handler: SerializedHandler::Name(name.into()),
        concurrency_safe: true,
        timeout: None,
        max_retries: None,
        metadata: None,
        version: None,
        tags: None,
        deprecated: false,
        examples: None,
    }
}

fn package_config(name: &str, tools: Vec<ToolConfig>) -> ToolPackageConfig {
    ToolPackageConfig {
        name: name.into(),
        version: None,
        namespace: None,
        description: None,
        dependencies: None,
        tools,
    }
}

fn config(packages: Vec<ToolPackageConfig>) -> ToolManagerSerializedConfig {
    ToolManagerSerializedConfig {
        version: "1.0".into(),
        config: None,
        packages,
        standalone_tools: None,
    }
}

#[test]
fn missing_version() {
    let cfg = ToolManagerSerializedConfig {
        version: "".into(),
        config: None,
        packages: vec![],
        standalone_tools: None,
    };
    let r = ConfigValidatorImpl::new().validate(&cfg);
    assert!(!r.valid);
}

#[test]
fn valid_minimal_config() {
    let mut demo = package_config("demo", vec![tool_config("hello")]);
    demo.namespace = Some(NamespaceConfigOrBool::Object(NamespaceConfig {
        prefix: "demo".into(),
        separator: '.',
        auto_prefix: true,
    }));
    let r = ConfigValidatorImpl::new().validate(&config(vec![demo]));
    assert!(r.valid, "{:?}", r.errors);
    assert_eq!(r.tool_count, 1);
    assert_eq!(r.package_count, 1);
}

#[test]
fn detects_duplicate_packages() {
    let cfg = config(vec![package_config("demo", vec![]), package_config("demo", vec![])]);
    let r = ConfigValidatorImpl::new().validate(&cfg);
    assert!(!r.valid);
    assert!(r.errors.iter().any(|e| e.severity == ValidationSeverity::Error));
}

#[test]
fn smoke_create_manager() {
    let manager = create_tool_manager();
    assert!(manager.get_tool_names().is_empty());
}

#[test]
fn git_tools_are_registered() {
    let mut manager = create_tool_manager();
    let done = manager.register_package(GitToolsPackage::new()).unwrap();
    assert!(done.on_init.is_some());
    assert_eq!(done.call.event, ToolHookEvent::OnPackageRegister);
    for name in ["status", "diff", "log", "branch", "commit", "add"] {
        assert!(manager.has(&format!("git.{name}")));
    }
    assert_eq!(manager.get_tool_names().len(), 6);
    let twice = manager.register_package(GitToolsPackage::new()).unwrap_err().to_string();
    assert_eq!(twice, "Package already registered: git");
}

#[test]
fn executions_are_planned() {
    let mut manager = create_tool_manager();
    manager.register_package(FileToolsPackage::new()).unwrap();
    let plan = manager.begin_execute("read", json(r#"{"path":" Cargo.toml "}"#), None).unwrap();
    assert_eq!(plan.handler, FILE_READ);
    assert_eq!(plan.timeout_ms, 30000);
    assert_eq!(plan.input.get_str("path").unwrap(), "Cargo.toml");
    assert_eq!(plan.context.tool_id.len(), "read-".len() + 36);
    assert_eq!(plan.before().event, ToolHookEvent::BeforeExecute);
    let (call, result) = plan.finish(Outcome::Value(json("1")));
    assert_eq!(call.event, ToolHookEvent::AfterExecute);
    assert!(result.unwrap().same_as(&json("1")));
    let (call, result) = plan.finish(Outcome::TimedOut);
    assert_eq!(call.event, ToolHookEvent::OnTimeout);
    assert!(result.is_err());
    match manager.begin_execute("write", json("{}"), None).unwrap_err() {
        ToolError::Validation { errors, .. } => {
            assert_eq!(errors[0].to_string(), "<input>: Missing required property: path");
        }
        other => panic!("expected a validation error, got {other:?}"),
    }
    let unknown = manager.begin_execute("reed", json("{}"), None).unwrap_err().to_string();
    assert!(unknown.contains("Tool not found: reed") && unknown.contains("read"), "{unknown}");
}

#[test]
fn hooks_are_listed() {
    let mut manager = create_tool_manager();
    manager.on(ToolHookEvent::BeforeExecute, 7);
    let hooks = manager.begin_emit(ToolHookEvent::BeforeExecute);
    assert_eq!(hooks.len(), 1);
    assert_eq!(hooks[0].callback, 7);
    assert!(manager.begin_emit(ToolHookEvent::AfterExecute).is_empty());
}

#[test]
fn configurations_survive_an_export() {
    let mut manager = create_tool_manager();
    manager.register_package(GitToolsPackage::new()).unwrap();
    let exported = ToolManagerFactory::to_config(&manager);
    assert_eq!(exported.version, manager.export_config().version);
    assert_eq!(exported.version, "1.0");
    assert_eq!(exported.packages.len(), 1);
    let options = CreateFromConfigOptions {
        validate: false,
        skip_init_hooks: true,
        ..Default::default()
    };
    let handlers = vec![vec![1, 2, 3, 4, 5, 6]];
    let (again, calls, warnings) =
        ToolManagerFactory::create_from_config(&exported, options, &handlers, &vec![]).unwrap();
    assert_eq!(calls.len(), 1);
    assert!(warnings.is_empty());
    assert!(again.has("git.status"));
}

#[test]
fn hooks_run_by_priority_and_once() {
    let mut hooks = HookManagerImpl::new();
    hooks.on(ToolHookEvent::OnError, 1);
    hooks.on_with_options(
        ToolHookEvent::OnError,
        2,
        HookRegistrationOptions { priority: 10, once: true, condition: Some(9) },
    );
    let entries = hooks.begin_emit(ToolHookEvent::OnError);
    assert_eq!(entries.iter().map(|e| e.callback).collect::<Vec<u64>>(), vec![2, 1]);
    assert!(!hook_runs(&entries[0], Some(false)));
    assert!(hook_runs(&entries[0], Some(true)));
    assert!(hook_runs(&entries[1], None));
    hooks.complete_emit(ToolHookEvent::OnError, &vec![entries[0].serial, entries[1].serial]);
    assert_eq!(hooks.get_hooks(ToolHookEvent::OnError), vec![1]);
    hooks.off(ToolHookEvent::OnError, Some(1));
    assert!(!hooks.has_hooks(ToolHookEvent::OnError));
}

#[test]
fn conflicts_are_settled_by_strategy() {
    let with = |strategy: ConflictStrategy| {
        let mut m = create_tool_manager_with_config(ToolManagerConfig {
            conflict_strategy: strategy,
            ..Default::default()
        });
        m.register(tool("t", 1), None);
        let second = m.register(tool("t", 2), None).is_some();
        (second, m.get_tool("t").unwrap().handler)
    };
    assert_eq!(with(ConflictStrategy::Error), (false, 1));
    assert_eq!(with(ConflictStrategy::Skip).1, 1);
    assert_eq!(with(ConflictStrategy::Warn).1, 1);
    assert_eq!(with(ConflictStrategy::Override), (true, 2));
}

#[test]
fn a_refused_package_leaves_nothing() {
    let mut m = create_tool_manager();
    m.register(tool("b", 1), None);
    assert!(m.register_package(package("p", vec![tool("a", 2), tool("b", 3)])).is_err());
    assert!(!m.has("a"));
    assert!(m.get_package("p").is_none());
}

#[test]
fn unregistering_undoes_registering() {
    let mut m = create_tool_manager();
    m.register(tool("x", 1), None);
    let mut p = package("p", vec![tool("a", 2)]);
    p.on_destroy = Some(77);
    m.register_package(p).unwrap();
    let (hook, call) = m.unregister_package("p").unwrap();
    assert_eq!(hook, Some(77));
    assert_eq!(call.event, ToolHookEvent::OnPackageUnregister);
    assert_eq!(m.get_tool_names(), vec!["x"]);
    assert_eq!(m.unregister_package("p").unwrap_err().to_string(), "Package not found: p");
}

#[test]
fn a_destroyed_manager_runs_nothing() {
    let mut m = create_tool_manager();
    let mut p = package("p", vec![tool("a", 2)]);
    p.on_destroy = Some(77);
    m.register_package(p).unwrap();
    m.on(ToolHookEvent::OnDestroy, 5);
    assert_eq!(m.destroy(), vec![77]);
    assert!(m.begin_emit(ToolHookEvent::OnDestroy).is_empty());
    assert!(m.get_package_names().is_empty());
    assert!(m.begin_execute("a", json("{}"), None).is_err());
}

#[test]
fn scopes_hold_what_was_asked_for() {
    let mut m = create_tool_manager();
    m.register_package(GitToolsPackage::new()).unwrap();
    m.register(tool("x", 1), None);
    let names = vec!["x".to_string(), "nope".to_string(), "git.log".to_string()];
    let (scope, calls, warnings) = m.create_scope(&names);
    assert!(warnings.is_empty());
    assert_eq!(scope.get_tool_names().len(), 2);
    assert_eq!(calls.len(), 2);
    assert_eq!(calls[0].event, ToolHookEvent::OnRegister);
    assert!(calls[1].args[0].same_as(&json("\"git.log\"")));
    let (scope, calls, _) = m.create_namespace_scope("git");
    assert_eq!(scope.get_tool_names().len(), 6);
    assert_eq!(calls.len(), 6);
    let resolved = m.resolve_tool_name("git.log").unwrap();
    assert_eq!(resolved.namespace.as_deref(), Some("git"));
    assert_eq!(resolved.original_name, "log");
}

#[test]
fn tools_are_found_by_what_is_said_of_them() {
    let mut m = create_tool_manager();
    let marked = Tool::builder("t", "d", ToolInputSchema::default(), 1)
        .tags(vec!["io".to_string()])
        .metadata(json(r#"{"category":"x"}"#))
        .build();
    m.register(marked, None);
    m.register(tool("u", 2), None);
    assert_eq!(m.find_tools_by_tag("io").len(), 1);
    assert_eq!(m.find_tools_by_metadata("category", &json("\"x\"")).len(), 1);
    assert!(m.find_tools_by_metadata("category", &json("\"y\"")).is_empty());
}

#[test]
fn configs_are_merged() {
    let a = config(vec![package_config("p", vec![tool_config("t")])]);
    let mut changed = tool_config("t");
    changed.description = "other".into();
    let b = config(vec![
        package_config("p", vec![changed, tool_config("u")]),
        package_config("q", vec![]),
    ]);
    let merged = ToolManagerFactory::merge_configs(
        vec![a, b],
        MergeOptions {
            conflict_strategy: Some(ConflictStrategy::Override),
            priority_order: Some(PackagePriority::First),
            ..Default::default()
        },
    );
    assert_eq!(merged.packages.len(), 2);
    assert_eq!(merged.packages[0].tools.len(), 2);
    assert_eq!(merged.packages[0].tools[0].description, "other");
}

#[test]
fn configs_are_told_apart() {
    let a = config(vec![package_config("p", vec![tool_config("t"), tool_config("gone")])]);
    let mut changed = tool_config("t");
    changed.timeout = Some(5);
    let b = config(vec![package_config("p", vec![changed, tool_config("new")])]);
    let diff = ToolManagerFactory::diff_configs(&a, &b);
    assert_eq!(diff.added.iter().map(|t| t.name.as_str()).collect::<Vec<&str>>(), vec!["new"]);
    assert_eq!(diff.removed.iter().map(|t| t.name.as_str()).collect::<Vec<&str>>(), vec!["gone"]);
    assert_eq!(diff.modified.len(), 1);
    assert_eq!(diff.modified[0].changes[0].field, "timeout");
    let same = ToolManagerFactory::diff_configs(&a, &a);
    assert!(same.added.is_empty() && same.removed.is_empty() && same.modified.is_empty());
}

#[test]
fn configs_are_scoped() {
    let mut a = config(vec![
        package_config("p", vec![tool_config("t"), tool_config("u")]),
        package_config("q", vec![tool_config("v")]),
    ]);
    a.standalone_tools = Some(vec![tool_config("w"), tool_config("x")]);
    let names = vec!["u".to_string(), "x".to_string()];
    let scoped = ToolManagerFactory::create_scope_config(a, &names);
    assert_eq!(scoped.packages.len(), 1);
    assert_eq!(scoped.packages[0].tools.len(), 1);
    let alone = scoped.standalone_tools.unwrap();
    assert_eq!(alone.len(), 1);
    assert_eq!(alone[0].name, "x");
}

#[test]
fn invalid_configs_are_refused() {
    let bad = config(vec![package_config("p", vec![]), package_config("p", vec![])]);
    let refused = ToolManagerFactory::create_from_config(
        &bad,
        CreateFromConfigOptions::default(),
        &vec![vec![], vec![]],
        &vec![],
    );
    assert!(refused.is_err());
}

fn http_ref() -> HttpHandlerRef {
    HttpHandlerRef {
        handler_type: HttpHandlerType,
        url: "http://h/".into(),
        method: HttpMethod::Post,
        headers: vec![],
        body_template: Some(json(r#"{"a":1}"#)),
        include_input: true,
        response_path: Some("data.x".into()),
        timeout: Some(9),
    }
}

fn script_ref(parse_json: bool) -> ScriptHandlerRef {
    ScriptHandlerRef {
        handler_type: ScriptHandlerType,
        command: "cat".into(),
        args: Some(vec!["-".into()]),
        cwd: None,
        env: None,
        stdin_json: true,
        parse_json,
        timeout: None,
    }
}

#[test]
fn builtin_handlers_are_resolved() {
    let mut r = CompositeHandlerResolver::new(100);
    r.register("h", 5);
    let plain = HandlerRefEnum::from_str("h");
    match r.resolve_ref(&plain, "t").unwrap() {
        ResolvedHandler::Builtin(b) => assert_eq!(b.handler, 5),
        _ => panic!("expected a builtin handler"),
    }
    let preset = HandlerRef::Builtin(BuiltinHandlerRef {
        handler_type: BuiltinHandlerType,
        name: "h".into(),
        params: Some(json(r#"{"a":1,"b":1}"#)),
    });
    match r.resolve_ref(&preset, "t").unwrap() {
        ResolvedHandler::Builtin(b) => {
            assert!(b.input_for(&json(r#"{"b":2}"#)).same_as(&json(r#"{"a":1,"b":2}"#)));
        }
        _ => panic!("expected a builtin handler"),
    }
    assert!(merge_params(&json("1"), &json("{}")).same_as(&json("{}")));
    r.unregister("h");
    let gone = r.resolve_ref(&plain, "t").unwrap_err().to_string();
    assert!(gone.contains("Handler not found: h"), "{gone}");
}

#[test]
fn http_handlers_make_requests() {
    let r = HttpHandlerResolver::new(100);
    let h = http_ref();
    let q = r.request(&h, &json(r#"{"b":2}"#));
    assert_eq!(q.timeout_ms, 9);
    assert!(q.body.unwrap().get("a").is_some());
    let ok = read_response(&h, "t", 200, Ok(json(r#"{"data":{"x":3}}"#))).unwrap();
    assert!(ok.same_as(&json("3")));
    assert!(read_response(&h, "t", 500, Ok(json("{}"))).is_err());
    assert!(extract_path(&json(r#"{"a":1}"#), "b").same_as(&Json::Null));
}

#[test]
fn scripts_are_run() {
    let r = ScriptHandlerResolver::new(100);
    let run = r.run(&script_ref(true), &json(r#"{"a":1}"#));
    assert_eq!(run.stdin.as_deref(), Some("{\"a\":1}"));
    assert_eq!(run.timeout_ms, 100);
    let ok = finish_script(&script_ref(true), "t", true, Some(0), b"{\"b\":2}", b"").unwrap();
    assert!(ok.same_as(&json(r#"{"b":2}"#)));
    let plain = finish_script(&script_ref(false), "t", true, Some(0), b"text", b"").unwrap();
    assert!(matches!(plain, Json::String(_)));
    assert!(finish_script(&script_ref(true), "t", false, Some(2), b"", b"boom").is_err());
    let failed = stage_failure("t", ScriptStage::Spawn, "no such file").to_string();
    assert!(failed.contains("Failed to spawn: no such file"), "{failed}");
}

#[test]
fn chains_are_combined() {
    let mut r = CompositeHandlerResolver::new(100);
    r.register("h", 5);
    let chain = HandlerRef::Composite(CompositeHandlerRef {
        handler_type: CompositeHandlerType,
        chain: vec![
            HandlerRef::BuiltinName("h".into()),
            HandlerRef::Http(http_ref()),
            HandlerRef::Script(script_ref(true)),
        ],
        combine: CombineMode::Sequence,
        stop_on_error: true,
    });
    match r.resolve_ref(&chain, "t").unwrap() {
        ResolvedHandler::Chain(c) => assert_eq!(c.links.len(), 3),
        _ => panic!("expected a chain"),
    }
    assert!(sequence_step(json("1"), Ok(json("2")), true).unwrap().same_as(&json("2")));
    let parts = vec![json(r#"{"a":1}"#), json(r#"{"a":2,"b":3}"#)];
    assert!(combine_merge(&parts).same_as(&json(r#"{"a":2,"b":3}"#)));
    assert!(combine_parallel(parts).same_as(&json(r#"[{"a":1},{"a":2,"b":3}]"#)));
}

#[test]
fn every_builtin_package_can_be_registered() {
    let mut m = create_tool_manager();
    for p in builtin_tool_packages() {
        m.register_package(p).unwrap();
    }
    assert_eq!(m.get_package_names(), vec!["git", "file", "http", "shell", "todo"]);
    for p in [
        EditToolsPackage::new(),
        EvalToolsPackage::new(),
        AstToolsPackage::new(),
        BrowserToolsPackage::new(),
        McpToolsPackage::new(),
        PlaywrightToolsPackage::new(),
    ] {
        m.register_package(p).unwrap();
    }
    assert!(m.has("eval.exec") && m.has("shell.exec") && m.has("mcp_call"));
    let read = m.get_tool("read").unwrap();
    let names: Vec<&str> = read.input_schema.properties.iter().map(|p| p.0.as_str()).collect();
    assert_eq!(names, vec!["path", "paths"]);
    let exec = m.get_tool("shell.exec").unwrap();
    assert_eq!(exec.input_schema.required, Some(vec!["command".to_string()]));
    assert_eq!(exec.input_schema.properties.len(), 8);
    let shots = ScreenshotToolsPackage::new();
    assert_eq!(shots.name(), "screenshot");
    assert_eq!(shots.tools()[0].input_schema.properties.len(), 4);
    let mut own = package("own", vec![]);
    add_file_search(&mut own);
    add_file_find(&mut own);
    assert_eq!(own.tools[0].strict, Some(true));
    assert_eq!(own.tools[1].name, "find");
}

#[test]
fn contexts_are_fresh() {
    let a = ToolExecutionContext::fresh("t", 3);
    let b = ToolExecutionContext::fresh("t", 3);
    assert_ne!(a.tool_id, b.tool_id);
    assert_eq!(a.max_retries, 3);
    assert!(a.timestamp > 1_600_000_000_000);
}

#[test]
fn loggers_write_prefixed_lines() {
    let l = DefaultLogger::new("ToolManager");
    let line = l.line(LogLevel::Warn, "hello", &vec![json(r#"{"a":1}"#)]);
    assert!(line.contains("ToolManager") && line.contains("hello {\"a\":1}"), "{line}");
    let silent = create_logger(Some(LoggerOptions { prefix: None, silent: true }));
    assert!(silent.line(LogLevel::Error, "x", &vec![]).is_none());
}

#[test]
fn references_are_written_as_json_and_shown() {
    let r = HandlerRef::BuiltinName("h".into());
    assert!(r.to_json().same_as(&json("\"h\"")));
    assert_eq!(r.to_debug(), "BuiltinName(\"h\")");
}

#[test]
fn numbers_of_json_are_kept() {
    let v = json("[1,-2,1.5,1e3,18446744073709551615]");
    assert_eq!(v.to_text(), "[1,-2,1.5,1000.0,18446744073709551615]");
    assert!(Json::parse("{").is_err());
}

#[test]
fn a_manager_has_a_resolver_of_its_own() {
    let mut m = create_tool_manager();
    m.resolver().register("x", 3);
    assert_eq!(m.resolver().get("x"), Some(3));
    assert_eq!(m.resolver().http().default_timeout, 1_500_000);
    let (mut scope, _, _) = m.create_scope(&vec![]);
    assert!(!scope.resolver().has("x"));
    m.resolver().unregister("x");
    assert!(m.resolver().names().is_empty());
}

#[test]
fn the_hooks_of_a_package_go_with_its_tools() {
    let mut m = create_tool_manager();
    let mut p = package("p", vec![tool("a", 2)]);
    p.before_execute = Some(71);
    p.after_execute = Some(72);
    m.register_package(p).unwrap();
    m.register(tool("b", 3), None);
    m.register(tool("c", 4), Some("nowhere"));
    let plan = m.begin_execute("a", json("{}"), None).unwrap();
    assert_eq!(plan.hooks.before, Some(71));
    assert_eq!(plan.hooks.after, Some(72));
    for name in ["b", "c", "gone"] {
        let hooks = m.package_hooks(name);
        assert!(hooks.before.is_none() && hooks.after.is_none(), "{name}");
    }
}

fn deprecated_tool(name: &str) -> Tool {
    Tool::builder(name, "a tool", ToolInputSchema::default(), 9).deprecated(true).build()
}

#[test]
fn registrations_are_warned_of() {
    let strategy = |conflict_strategy| ToolManagerConfig { conflict_strategy, ..Default::default() };
    let taken = "Tool already exists: a, skipping";
    let old = "Tool is deprecated: a";
    let cases = [
        (ConflictStrategy::Error, vec![], vec![]),
        (ConflictStrategy::Skip, vec![], vec![]),
        (ConflictStrategy::Warn, vec![taken], vec![taken]),
        (ConflictStrategy::Override, vec![], vec![old]),
    ];
    for (s, plain, deprecated) in cases {
        let mut m = create_tool_manager_with_config(strategy(s));
        assert_eq!(m.tool_warnings(&deprecated_tool("a")), vec![old]);
        m.register(tool("a", 1), None);
        assert_eq!(m.tool_warnings(&tool("a", 2)), plain);
        assert_eq!(m.tool_warnings(&deprecated_tool("a")), deprecated);
    }
    let mut m = create_tool_manager_with_config(strategy(ConflictStrategy::Warn));
    let p = package("p", vec![deprecated_tool("a"), tool("a", 2), tool("b", 3)]);
    assert_eq!(m.package_warnings(&p), vec![old, taken]);
    m.register_package(p).unwrap();
    assert!(m.package_warnings(&package("p", vec![tool("a", 2)])).is_empty());
    let twice = vec!["b".to_string(), "b".to_string()];
    assert_eq!(m.create_scope(&twice).2, vec!["Tool already exists: b, skipping"]);
    let m = create_tool_manager_with_config(strategy(ConflictStrategy::Error));
    let p = package("p", vec![deprecated_tool("a"), tool("a", 2)]);
    assert!(m.package_warnings(&p).is_empty());
}

#[test]
fn loading_a_config_is_warned_of() {
    let mut old = tool_config("a");
    old.deprecated = true;
    let mut c = config(vec![package_config("p", vec![old])]);
    c.standalone_tools = Some(vec![tool_config("a"), tool_config("b")]);
    let options = CreateFromConfigOptions {
        validate: false,
        config_overrides: Some(ToolManagerConfig {
            conflict_strategy: ConflictStrategy::Warn,
            ..Default::default()
        }),
        ..Default::default()
    };
    let (_, _, warnings) =
        ToolManagerFactory::create_from_config(&c, options, &vec![vec![1]], &vec![2, 3]).unwrap();
    assert_eq!(warnings, vec!["Tool is deprecated: a", "Tool already exists: a, skipping"]);
}
