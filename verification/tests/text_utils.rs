//! Namespaces, arguments and their checks.
use latte_rs_agent_tools::error::ToolError;
use latte_rs_agent_tools::json::Json;
use latte_rs_agent_tools::json::JsonNumber;
use latte_rs_agent_tools::types::NamespaceConfig;
use latte_rs_agent_tools::types::NumericBound;
use latte_rs_agent_tools::types::PropertyType;
use latte_rs_agent_tools::types::SchemaType;
use latte_rs_agent_tools::types::ToolAdditionalProperties;
use latte_rs_agent_tools::types::ToolInputProperty;
use latte_rs_agent_tools::types::ToolInputSchema;
use latte_rs_agent_tools::utils::llm_arg_normalizer::array_of_text;
use latte_rs_agent_tools::utils::llm_arg_normalizer::normalize_llm_args;
use latte_rs_agent_tools::utils::namespace::filter_tools_by_namespace;
use latte_rs_agent_tools::utils::namespace::matches_namespace;
use latte_rs_agent_tools::utils::namespace::parse_tool_name;
use latte_rs_agent_tools::utils::namespace::remove_namespace;
use latte_rs_agent_tools::utils::namespace::resolve_full_tool_name;
use latte_rs_agent_tools::utils::schema_validator::validate_input;
use latte_rs_agent_tools::utils::schema_validator::ValidationErrors;
use latte_rs_agent_tools::utils::schema_validator::validate_schema;
use latte_rs_agent_tools::utils::truncate_args::truncate_args_for_error;

fn json(text: &str) -> Json {
    Json::parse(text).unwrap()
}

#[test]
fn resolve_with_namespace() {
    let ns = NamespaceConfig {
        prefix: "git".into(),
        separator: '.',
        auto_prefix: true,
    };
    assert_eq!(resolve_full_tool_name("status", Some(&ns)), "git.status");
    assert_eq!(resolve_full_tool_name("git.status", Some(&ns)), "git.status");
}

#[test]
fn resolve_without_namespace() {
    assert_eq!(resolve_full_tool_name("status", None), "status");
}

#[test]
fn resolve_with_disabled_prefix() {
    let ns = NamespaceConfig {
        prefix: "git".into(),
        separator: '.',
        auto_prefix: false,
    };
    assert_eq!(resolve_full_tool_name("status", Some(&ns)), "status");
}

#[test]
fn parse_simple() {
    let p = parse_tool_name("git.status", '.');
    assert_eq!(p.namespace.as_deref(), Some("git"));
    assert_eq!(p.original_name, "status");
}

#[test]
fn parse_no_namespace() {
    let p = parse_tool_name("status", '.');
    assert_eq!(p.namespace, None);
    assert_eq!(p.original_name, "status");
}

#[test]
fn parse_multi_segment_namespace() {
    let p = parse_tool_name("git.git.status", '.');
    assert_eq!(p.namespace.as_deref(), Some("git"));
    assert_eq!(p.original_name, "git.status");
}

#[test]
fn matches_and_remove() {
    assert!(matches_namespace("git.status", "git", '.'));
    assert!(!matches_namespace("file.read", "git", '.'));
    assert_eq!(remove_namespace("git.status", '.'), "status");
}

#[test]
fn names_are_filtered_by_namespace() {
    let names = vec!["git.status".to_string(), "file.read".to_string(), "git.log".to_string()];
    assert_eq!(filter_tools_by_namespace(&names, "git", '.'), vec!["git.status", "git.log"]);
}

#[test]
fn no_available_keeps_legacy_message() {
    let err = ToolError::tool_not_found("edit");
    assert_eq!(err.to_string(), "Tool not found: edit");
}

#[test]
fn available_tools_are_listed_and_sorted() {
    let err = ToolError::tool_not_found_with_available(
        "edit",
        vec!["write".into(), "bash".into(), "read".into()],
    );
    let msg = err.to_string();
    assert!(msg.starts_with("Tool not found: edit"), "{msg}");
    assert!(msg.contains("bash, read, write"), "应排序后列出: {msg}");
    assert!(msg.contains("不要再猜别的名字"), "{msg}");
}

#[test]
fn long_available_list_is_capped() {
    let many: Vec<String> = (0..80).map(|i| format!("tool_{i:02}")).collect();
    let msg = ToolError::tool_not_found_with_available("edit", many).to_string();
    assert!(msg.contains("另有 56 个"), "应标注省略数量: {msg}");
    assert!(!msg.contains("tool_79"), "尾部应被截断: {msg}");
}

#[test]
fn display_round_trip() {
    let err = ToolError::tool_not_found("git_status");
    assert_eq!(err.to_string(), "Tool not found: git_status");
}

#[test]
fn timeout_helper() {
    let err = ToolError::timeout("foo", 250);
    match err {
        ToolError::ToolTimeout {
            tool_name,
            timeout_ms,
        } => {
            assert_eq!(tool_name, "foo");
            assert_eq!(timeout_ms, 250);
        }
        _ => panic!("expected ToolTimeout"),
    }
}

fn make_schema(props: Vec<(&str, PropertyType)>, required: &[&str]) -> ToolInputSchema {
    ToolInputSchema {
        schema_type: Default::default(),
        properties: props
            .into_iter()
            .map(|(name, ty)| (name.to_string(), ToolInputProperty::of_type(ty)))
            .collect(),
        required: Some(required.iter().map(|s| s.to_string()).collect()),
        additional_properties: None,
    }
}

#[test]
fn test_optional_null_is_removed() {
    let schema = make_schema(
        vec![("pattern", PropertyType::String), ("paths", PropertyType::Array)],
        &["pattern"],
    );
    let mut args = json(r#"{"pattern": "foo", "paths": null}"#);
    normalize_llm_args(&mut args, &schema);
    assert!(args.same_as(&json(r#"{"pattern": "foo"}"#)), "null optional should be removed");
}

#[test]
fn test_optional_empty_string_is_removed() {
    let schema = make_schema(
        vec![("pattern", PropertyType::String), ("paths", PropertyType::Array)],
        &["pattern"],
    );
    let mut args = json(r#"{"pattern": "foo", "paths": ""}"#);
    normalize_llm_args(&mut args, &schema);
    assert!(args.same_as(&json(r#"{"pattern": "foo"}"#)), "empty string optional should be removed");
}

#[test]
fn test_required_null_is_kept() {
    let schema = make_schema(vec![("pattern", PropertyType::String)], &["pattern"]);
    let mut args = json(r#"{"pattern": null}"#);
    normalize_llm_args(&mut args, &schema);
    assert!(args.same_as(&json(r#"{"pattern": null}"#)), "null required should be kept");
}

#[test]
fn test_string_whitespace_trimmed() {
    let schema = make_schema(vec![("path", PropertyType::String)], &["path"]);
    let mut args = json(r#"{"path": " src/main.rs \n"}"#);
    normalize_llm_args(&mut args, &schema);
    assert_eq!(args.get_str("path").unwrap(), "src/main.rs", "whitespace stripped");
}

#[test]
fn test_json_string_encoded_array() {
    let schema = make_schema(vec![("paths", PropertyType::Array)], &[]);
    let mut args = json(r#"{"paths": "[\"src\", \"tests\"]"}"#);
    normalize_llm_args(&mut args, &schema);
    assert!(
        args.get("paths").unwrap().same_as(&json(r#"["src", "tests"]"#)),
        "JSON string array decoded"
    );
}

#[test]
fn test_single_string_to_array() {
    let schema = make_schema(vec![("paths", PropertyType::Array)], &[]);
    let mut args = json(r#"{"paths": "src"}"#);
    normalize_llm_args(&mut args, &schema);
    assert!(args.get("paths").unwrap().same_as(&json(r#"["src"]"#)), "plain string wrapped to array");
}

#[test]
fn test_recursive_array_item_normalization() {
    let string_list = || {
        ToolInputProperty::of_type(PropertyType::Array)
            .with_items(ToolInputProperty::of_type(PropertyType::String))
    };
    let option = ToolInputProperty::of_type(PropertyType::Object).with_object(
        vec![("cons".into(), string_list()), ("pros".into(), string_list())],
        None,
        Some(ToolAdditionalProperties::from(true)),
    );
    let schema = ToolInputSchema {
        schema_type: Default::default(),
        properties: vec![(
            "options".into(),
            ToolInputProperty::of_type(PropertyType::Array).with_items(option),
        )],
        required: Some(vec!["options".into()]),
        additional_properties: None,
    };
    let mut args = json(r#"{"options": [{"pros": "fast\nsimple", "cons": [{"text": "stateful"}]}]}"#);

    normalize_llm_args(&mut args, &schema);

    let first = &args.get_array("options").unwrap()[0];
    assert!(first.get("pros").unwrap().same_as(&json(r#"["fast\nsimple"]"#)));
    assert!(first.get("cons").unwrap().same_as(&json(r#"["stateful"]"#)));
    assert!(validate_input(&args, &schema).valid);
}

#[test]
fn test_noop_on_normal_format() {
    let schema = make_schema(
        vec![("pattern", PropertyType::String), ("paths", PropertyType::Array)],
        &["pattern"],
    );
    let mut args = json(r#"{"pattern": "foo", "paths": ["src", "tests"]}"#);
    let original = args.clone();
    normalize_llm_args(&mut args, &schema);
    assert!(args.same_as(&original), "normal args unchanged");
}

fn schema_with(props: Vec<(String, ToolInputProperty)>, required: Vec<String>) -> ToolInputSchema {
    ToolInputSchema {
        schema_type: SchemaType,
        properties: props,
        required: Some(required),
        additional_properties: Some(false),
    }
}

#[test]
fn rejects_non_object_input() {
    let s = ToolInputSchema::default();
    let result = validate_input(&json(r#""not an object""#), &s);
    assert!(!result.valid);
    assert_eq!(result.errors, vec!["Input must be a JSON object, got string"]);
}

#[test]
fn enforces_required() {
    let props = vec![("name".to_string(), ToolInputProperty::of_type(PropertyType::String))];
    let schema = schema_with(props, vec!["name".into()]);
    let result = validate_input(&json("{}"), &schema);
    assert!(!result.valid);
    assert!(result.errors.iter().any(|e| e.contains("name")));
}

#[test]
fn enforces_type() {
    let props = vec![("n".to_string(), ToolInputProperty::of_type(PropertyType::Integer))];
    let schema = schema_with(props, vec![]);
    let result = validate_input(&json(r#"{ "n": "not a number" }"#), &schema);
    assert!(!result.valid);
}

#[test]
fn accepts_correct_input() {
    let props = vec![("n".to_string(), ToolInputProperty::of_type(PropertyType::Integer))];
    let schema = schema_with(props, vec!["n".into()]);
    let result = validate_input(&json(r#"{ "n": 42 }"#), &schema);
    assert!(result.valid, "{:?}", result.errors);
}

#[test]
fn unknown_properties_are_refused_where_none_are_allowed() {
    let schema = schema_with(vec![], vec![]);
    let result = validate_input(&json(r#"{ "x": 1 }"#), &schema);
    assert_eq!(result.errors, vec!["Unknown property: x"]);
}

#[test]
fn validates_schema_shape() {
    let result = validate_schema(&json(r#"{ "type": "not_object" }"#));
    assert!(!result.valid);
}

#[test]
fn short_string_unchanged() {
    let v = json(r#"{"path": "src/main.rs"}"#);
    assert!(truncate_args_for_error(&v).same_as(&v));
}

#[test]
fn long_string_truncated_with_marker() {
    let big = "x".repeat(2000);
    let v = json(&format!("{{\"content\": \"{big}\"}}"));
    let out = truncate_args_for_error(&v);
    let s = out.get_str("content").unwrap();
    assert!(s.starts_with(&"x".repeat(256)), "前 256 字符保留");
    assert!(s.contains("[truncated 1744 chars]"), "标记截断长度");
}

#[test]
fn nested_object_recursed() {
    let big = "x".repeat(1000);
    let v = json(&format!(
        "{{\"outer\": {{\"inner\": \"{big}\", \"list\": [\"{big}\", \"short\"]}}}}"
    ));
    let out = truncate_args_for_error(&v);
    let outer = out.get("outer").unwrap();
    assert!(outer.get_str("inner").unwrap().contains("[truncated"));
    let list = outer.get_array("list").unwrap();
    match (&list[0], &list[1]) {
        (Json::String(a), Json::String(b)) => {
            assert!(a.contains("[truncated"));
            assert_eq!(b, "short");
        }
        _ => panic!("expected strings"),
    }
}

#[test]
fn non_string_fields_passed_through() {
    let v = json(r#"{"n": 42, "b": true, "missing": null, "arr": [1, 2, 3]}"#);
    assert!(truncate_args_for_error(&v).same_as(&v));
}

#[test]
fn each_error_has_its_message() {
    let cases = vec![
        (ToolError::other("x"), "x"),
        (ToolError::tool_already_exists("t"), "Tool already exists: t"),
        (ToolError::package_not_found("p"), "Package not found: p"),
        (ToolError::package_already_exists("p"), "Package already registered: p"),
        (ToolError::Io("disk".into()), "I/O error: disk"),
        (ToolError::Serde("bad".into()), "Serialization error: bad"),
    ];
    for (error, text) in cases {
        assert_eq!(error.to_string(), text);
    }
    let failed = ToolError::dependency("p", vec!["a".into(), "b\"c".into()]).to_string();
    assert!(failed.contains(r#"["a", "b\"c"]"#), "{failed}");
}

#[test]
fn texts_stand_for_arrays() {
    let array = |text: &str| array_of_text(text.to_string(), Json::parse(text)).to_text();
    assert_eq!(array("[1, 2]"), "[1,2]");
    assert_eq!(array("{}"), r#"["{}"]"#);
    assert_eq!(array("a b"), r#"["a b"]"#);
    let given = array_of_text("x".to_string(), Ok(Json::Array(vec![Json::Null])));
    assert_eq!(given.to_text(), "[null]");
}

#[test]
fn findings_can_be_copied() {
    let empty = ValidationErrors::default();
    assert!(!empty.valid && empty.errors.is_empty());
    let some = ValidationErrors { valid: false, errors: vec!["e".to_string()] };
    assert_eq!(some.clone().errors, some.errors);
}

#[test]
fn bounds_stand_where_their_numbers_do() {
    let bound = |text: &str| match Json::parse(text).unwrap() {
        Json::Number(n) => NumericBound::new(n, text.to_string()).unwrap(),
        _ => panic!("no number"),
    };
    let ranks: Vec<i64> = ["-2.5", "-1", "0", "0.5", "1", "1.5"].iter().map(|t| bound(t).rank).collect();
    assert!(ranks.windows(2).all(|w| w[0] < w[1]));
    assert_eq!(bound("1").rank, bound("1.0").rank);
    assert_eq!(bound("1.5").label, "1.5");
    let nothing = JsonNumber::Float("no number".to_string());
    assert!(NumericBound::new(nothing, String::new()).is_none());
}
