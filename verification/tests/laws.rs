//! What holds of several functions together, on concrete values.
use latte_rs_agent_tools::error::sort_strings;
use latte_rs_agent_tools::error::ToolError;
use latte_rs_agent_tools::json::build_object;
use latte_rs_agent_tools::json::entry;
use latte_rs_agent_tools::json::Json;
use latte_rs_agent_tools::resolvers::builtin_resolver::merge_params;
use latte_rs_agent_tools::resolvers::composite_resolver::combine_merge;
use latte_rs_agent_tools::resolvers::composite_resolver::combine_parallel;
use latte_rs_agent_tools::resolvers::composite_resolver::sequence_step;
use latte_rs_agent_tools::text::join_strings;
use latte_rs_agent_tools::text::split_chars;
use latte_rs_agent_tools::text::string_of;
use latte_rs_agent_tools::tools::edit::content_tag;
use latte_rs_agent_tools::tools::edit::run_edit;
use latte_rs_agent_tools::tools::fetch::add_chunk;
use latte_rs_agent_tools::tools::packages::builtin_tool_packages;
use latte_rs_agent_tools::tools::shell::JobTable;
use latte_rs_agent_tools::types::NamespaceConfig;
use latte_rs_agent_tools::utils::namespace::parse_tool_name;
use latte_rs_agent_tools::utils::namespace::resolve_full_tool_name;
use latte_rs_agent_tools::utils::truncate_args::truncate_args_for_error;

fn json(text: &str) -> Json {
    Json::parse(text).unwrap()
}

#[test]
fn splitting_and_joining_undo_each_other() {
    for text in ["", "a", "a.b", ".a..b."] {
        let chars: Vec<char> = text.chars().collect();
        let pieces: Vec<String> =
            split_chars(&chars, '.').iter().map(|p| string_of(p)).collect();
        assert_eq!(join_strings(&pieces, "."), text);
    }
}

#[test]
fn objects_hold_the_last_value_of_a_key_in_order() {
    let v = build_object(vec![
        entry("b", json("1")),
        entry("a", json("2")),
        entry("b", json("3")),
    ]);
    assert_eq!(v.to_text(), r#"{"a":2,"b":3}"#);
}

#[test]
fn sorting_keeps_every_text() {
    let v: Vec<String> = ["b", "a", "b", "B"].iter().map(|s| s.to_string()).collect();
    assert_eq!(sort_strings(&v), vec!["B", "a", "b", "b"]);
}

#[test]
fn full_names_are_made_once_and_taken_apart_again() {
    let ns = NamespaceConfig { prefix: "git".to_string(), separator: '.', auto_prefix: true };
    let full = resolve_full_tool_name("status", Some(&ns));
    assert_eq!(full, "git.status");
    assert_eq!(resolve_full_tool_name(&full, Some(&ns)), full);
    let parsed = parse_tool_name(&full, '.');
    assert_eq!(parsed.namespace.as_deref(), Some("git"));
    assert_eq!(parsed.original_name, "status");
}

#[test]
fn input_goes_before_parameters() {
    let merged = merge_params(&json(r#"{"a":1,"b":1}"#), &json(r#"{"b":2}"#));
    assert_eq!(merged.to_text(), r#"{"a":1,"b":2}"#);
}

fn run_sequence(outcomes: Vec<Result<Json, ToolError>>, stop: bool) -> Result<Json, ToolError> {
    let mut current = json("0");
    for outcome in outcomes {
        current = sequence_step(current, outcome, stop)?;
    }
    Ok(current)
}

#[test]
fn sequences_stop_or_go_on() {
    let outcomes = || vec![Ok(json("1")), Err(ToolError::other("x")), Ok(json("2"))];
    assert_eq!(run_sequence(outcomes(), true).unwrap_err().to_string(), "x");
    assert_eq!(run_sequence(outcomes(), false).unwrap().to_text(), "2");
    let failing = || vec![Ok(json("1")), Err(ToolError::other("x"))];
    assert_eq!(run_sequence(failing(), false).unwrap().to_text(), "1");
    assert_eq!(run_sequence(vec![Err(ToolError::other("x"))], false).unwrap().to_text(), "0");
}

#[test]
fn links_side_by_side_are_combined() {
    assert_eq!(combine_parallel(vec![json("1"), json("{}")]).to_text(), "[1,{}]");
    let all = vec![json(r#"{"a":1,"b":1}"#), json("7"), json(r#"{"b":2}"#)];
    assert_eq!(combine_merge(&all).to_text(), r#"{"a":1,"b":2}"#);
}

#[test]
fn tags_are_four_digits_and_ignore_line_endings() {
    let tag = content_tag("a\nb\n");
    assert_eq!(tag.len(), 4);
    assert!(tag.chars().all(|c| c.is_ascii_digit() || ('A'..='F').contains(&c)), "{tag}");
    assert_eq!(content_tag("a\r\nb\r\n"), tag);
    assert_eq!(content_tag("\u{feff}a\nb\n"), tag);
    assert_ne!(content_tag("a\nc\n"), tag);
}

#[test]
fn the_tag_of_an_edit_opens_the_next_one() {
    let first = run_edit(
        "a\nb\n",
        &json(r#"{"path":"p","ops":[{"start_line":1,"end_line":1,"new_content":"x"}]}"#),
    )
    .unwrap();
    let next = format!(
        r#"{{"path":"p","tag":"{}","ops":[{{"start_line":2,"end_line":2,"new_content":"y"}}]}}"#,
        first.tag
    );
    assert_eq!(run_edit(&first.content, &json(&next)).unwrap().content, "x\ny\n");
    assert!(run_edit("changed\n", &json(&next)).is_err());
}

#[test]
fn bodies_are_beginnings() {
    let mut body = Vec::new();
    assert!(!add_chunk(&mut body, b"abc", 5));
    assert!(add_chunk(&mut body, b"def", 5));
    assert_eq!(body, b"abcde");
}

#[test]
fn short_arguments_are_shown_whole() {
    let v = json(r#"{"a":["x",1,null],"b":{"c":"y"}}"#);
    assert!(truncate_args_for_error(&v).same_as(&v));
}

#[test]
fn jobs_never_share_a_name() {
    let mut jobs = JobTable::new();
    let first = jobs.start();
    jobs.take(&first).unwrap();
    let second = jobs.start();
    assert_ne!(first, second);
    assert!(jobs.take(&first).is_err());
}

#[test]
fn tools_declare_what_they_require_in_order() {
    for package in builtin_tool_packages() {
        for tool in &package.tools {
            let names: Vec<&String> =
                tool.input_schema.properties.iter().map(|p| &p.0).collect();
            assert!(names.windows(2).all(|w| w[0] < w[1]), "{}: {names:?}", tool.name);
            for required in tool.input_schema.required.iter().flatten() {
                assert!(names.contains(&required), "{}: {required}", tool.name);
            }
        }
    }
}

fn line_edit(content: &str, op: &str) -> Result<String, String> {
    let input = json(&format!("{{\"path\":\"p\",\"ops\":[{op}]}}"));
    match run_edit(content, &input) {
        Ok(outcome) => Ok(outcome.content),
        Err(e) => Err(e.to_string()),
    }
}

#[test]
fn lines_outside_an_edit_stay() {
    let text = "a\nb\nc\nd\n";
    let replace = r#"{"start_line":2,"end_line":3,"new_content":"x\ny\nz"}"#;
    assert_eq!(line_edit(text, replace).unwrap(), "a\nx\ny\nz\nd\n");
    let delete = r#"{"start_line":2,"end_line":3,"delete":true}"#;
    assert_eq!(line_edit(text, delete).unwrap(), "a\nd\n");
    let all = r#"{"start_line":1,"end_line":4,"delete":true}"#;
    assert_eq!(line_edit(text, all).unwrap(), "\n");
}

#[test]
fn lines_replaced_by_themselves_change_nothing() {
    for text in ["a\n\nc", "a\n\nc\n", "a\n\nc\n\n"] {
        let op = r#"{"start_line":1,"end_line":3,"new_content":"a\n\nc"}"#;
        assert_eq!(line_edit(text, op).unwrap(), text);
    }
}

#[test]
fn edits_land_on_the_text_they_expect() {
    let text = "a\n  b  \nc\n";
    let moved = r#"{"start_line":1,"end_line":1,"expect":"b","new_content":"B"}"#;
    assert_eq!(line_edit(text, moved).unwrap(), "a\nB\nc\n");
    let absent = r#"{"start_line":1,"end_line":1,"expect":"z","new_content":"B"}"#;
    assert!(line_edit(text, absent).is_err());
}
