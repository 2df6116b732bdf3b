//! The `ast` tools.
use latte_rs_agent_tools::json::Json;
use latte_rs_agent_tools::syntax::SyntaxEdit;
use latte_rs_agent_tools::tools::ast::apply_edits;
use latte_rs_agent_tools::tools::ast::bad_glob;
use latte_rs_agent_tools::tools::ast::choose_language;
use latte_rs_agent_tools::tools::ast::edit_file;
use latte_rs_agent_tools::tools::ast::edit_text;
use latte_rs_agent_tools::tools::ast::finish_grep;
use latte_rs_agent_tools::tools::ast::finish_rewrite;
use latte_rs_agent_tools::tools::ast::infer_lang;
use latte_rs_agent_tools::tools::ast::is_source_name;
use latte_rs_agent_tools::tools::ast::parse_grep;
use latte_rs_agent_tools::tools::ast::parse_rewrite;
use latte_rs_agent_tools::tools::ast::search_file;

fn json(text: &str) -> Json {
    Json::parse(text).unwrap()
}

fn grep(name: &str, content: &str, pattern: &str) -> Json {
    let lang = choose_language(&None, name);
    let found = search_file(name, content, &lang, pattern, 100).unwrap();
    finish_grep(&vec![found], 0, 100)
}

#[test]
fn test_ast_grep_rust_fn() {
    let r = grep(
        "test.rs",
        "fn hello() { return 42; }\nfn world() { return 0; }\n",
        "fn $NAME() { $$$ }",
    );
    assert_eq!(r.get_u64("matchCount"), Some(2));
    let second = &r.get_array("matches").unwrap()[1];
    assert!(second.same_as(&json(
        r#"{"file":"test.rs","text":"fn world() { return 0; }","startLine":2,"startColumn":1,"endLine":2,"endColumn":25}"#
    )));
}

#[test]
fn test_ast_grep_no_match() {
    let r = grep("test.rs", "fn hello() {}\n", "class $NAME { $$$ }");
    assert_eq!(r.get_u64("matchCount"), Some(0));
    assert_eq!(r.get_u64("fileCount"), Some(0));
}

#[test]
fn test_ast_edit_rust() {
    let r = edit_file(
        "fn old_name() { return 1; }\n",
        "rust",
        "fn $NAME() { $$$ }",
        "fn new_name() { $$$ }",
    )
    .unwrap()
    .unwrap();
    assert_eq!(r.replacements, 1);
    assert!(r.content.contains("new_name"), "{}", r.content);
    let done = finish_rewrite(&vec![("a.rs".to_string(), 2), ("b.rs".to_string(), 1)]);
    assert!(done.same_as(&json(
        r#"{"fileCount":2,"totalReplacements":3,"replacements":[{"file":"a.rs","replacements":2},{"file":"b.rs","replacements":1}]}"#
    )));
}

#[test]
fn test_ast_grep_js() {
    let r = grep(
        "test.js",
        "console.log('hello');\nconsole.log('world');\n",
        "console.log($MSG)",
    );
    assert_eq!(r.get_u64("matchCount"), Some(2));
}

#[test]
fn languages_are_told_by_names() {
    assert_eq!(infer_lang("a.rs").unwrap(), "rust");
    assert_eq!(infer_lang("a.xyz").unwrap_err().to_string(), "unsupported: .xyz");
    assert_eq!(infer_lang("a.erl").unwrap_err().to_string(), "bad lang: erlang");
    assert_eq!(choose_language(&Some("go".to_string()), "a.rs"), "go");
    assert!(is_source_name("a.py"));
    assert!(!is_source_name("a.txt"));
}

#[test]
fn languages_and_patterns_are_checked() {
    assert!(search_file("a", "x", "", "y", 9).unwrap().is_empty());
    assert_eq!(
        search_file("a", "x", "klingon", "y", 9).unwrap_err().to_string(),
        "bad lang: klingon"
    );
    assert!(edit_file("x", "rust", "", "y").is_err());
    assert!(edit_file("x", "", "y", "z").unwrap().is_none());
    assert!(edit_file("fn a() {}", "rust", "struct $A;", "z").unwrap().is_none());
    assert_eq!(bad_glob("[").to_string(), "bad glob: [");
}

#[test]
fn matches_come_in_pages() {
    let source = "a(1);\na(2);\na(3);\n";
    let found = search_file("x.js", source, "javascript", "a($N)", 100).unwrap();
    let page = |skip: u64, limit: u64| {
        let r = finish_grep(&vec![found.iter().map(|m| m.clone()).collect()], skip, limit);
        r.get_array("matches")
            .unwrap()
            .iter()
            .map(|m| m.get_str("text").unwrap().clone())
            .collect::<Vec<String>>()
    };
    assert_eq!(page(0, 2), vec!["a(1)", "a(2)"]);
    assert_eq!(page(2, 2), vec!["a(3)"]);
    assert!(page(9, 2).is_empty());
    assert_eq!(search_file("x.js", source, "javascript", "a($N)", 1).unwrap().len(), 1);
}

#[test]
fn requests_to_search_code_are_checked() {
    let q = parse_grep(&json(r#"{"pat":"p","paths":["a",1]}"#)).unwrap();
    assert_eq!(q.paths, vec!["a"]);
    assert_eq!((q.skip, q.limit), (0, 100));
    assert_eq!(parse_grep(&json("{}")).unwrap_err().to_string(), "pat required");
    assert_eq!(parse_grep(&json(r#"{"pat":"p"}"#)).unwrap_err().to_string(), "paths required");
    assert_eq!(parse_rewrite(&json("{}")).unwrap_err().to_string(), "pat required");
    assert_eq!(parse_rewrite(&json(r#"{"pat":"p"}"#)).unwrap_err().to_string(), "out required");
    assert_eq!(
        parse_rewrite(&json(r#"{"pat":"p","out":"o"}"#)).unwrap_err().to_string(),
        "paths required"
    );
}

fn change(position: usize, deleted: usize, inserted: &str) -> SyntaxEdit {
    SyntaxEdit { position, deleted, inserted: inserted.as_bytes().to_vec() }
}

#[test]
fn changes_are_made_from_the_last_to_the_first() {
    let edits = vec![change(0, 1, "AA"), change(2, 1, "")];
    assert_eq!(apply_edits(b"abc".to_vec(), &edits).unwrap(), b"AAb".to_vec());
    assert!(apply_edits(b"abc".to_vec(), &vec![change(2, 9, "")]).is_none());
    let broken = SyntaxEdit { position: 0, deleted: 1, inserted: vec![0xff] };
    let msg = edit_text("abc", &vec![broken]).unwrap_err().to_string();
    assert!(msg.starts_with("utf8: invalid utf-8 sequence"), "{msg}");
    assert!(edit_text("abc", &vec![change(2, 9, "")]).unwrap_err().to_string().contains("out of range"));
}

#[test]
fn pages_reach_behind_what_is_left_out() {
    let q = parse_grep(&json(r#"{"pat":"a($N)","paths":["x.js"],"skip":2,"limit":2}"#)).unwrap();
    assert_eq!(q.reach(), 4);
    let source = "a(1); a(2); a(3); a(4); a(5);";
    let found = search_file("x.js", source, "javascript", &q.pattern, q.reach()).unwrap();
    let answer = finish_grep(&vec![found], q.skip, q.limit);
    let texts: Vec<&str> = answer
        .get_array("matches")
        .unwrap()
        .iter()
        .map(|m| m.get_str("text").unwrap().as_str())
        .collect();
    assert_eq!(texts, vec!["a(3)", "a(4)"]);
    let far = format!(r#"{{"pat":"p","paths":["x"],"skip":{},"limit":2}}"#, u64::MAX);
    assert_eq!(parse_grep(&json(&far)).unwrap().reach(), u64::MAX);
}
