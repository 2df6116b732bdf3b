//! The `search` and `find` tools.
use latte_rs_agent_tools::ignores::keeps_file;
use latte_rs_agent_tools::ignores::read_rules;
use latte_rs_agent_tools::json::Json;
use latte_rs_agent_tools::tools::find::arrange_paths;
use latte_rs_agent_tools::tools::find::enter_directory;
use latte_rs_agent_tools::tools::find::find_action;
use latte_rs_agent_tools::tools::find::finish_find;
use latte_rs_agent_tools::tools::find::keep_file;
use latte_rs_agent_tools::tools::find::match_files;
use latte_rs_agent_tools::tools::find::parse_find;
use latte_rs_agent_tools::tools::find::parse_find_pattern;
use latte_rs_agent_tools::tools::find::FindAction;
use latte_rs_agent_tools::tools::find::FindHit;
use latte_rs_agent_tools::tools::find::HiddenPolicy;
use latte_rs_agent_tools::tools::search::choose_targets;
use latte_rs_agent_tools::tools::search::files_of_target;
use latte_rs_agent_tools::tools::search::finish_search;
use latte_rs_agent_tools::tools::search::parse_search;
use latte_rs_agent_tools::tools::search::scan_file;
use latte_rs_agent_tools::tools::search::split_glob;
use latte_rs_agent_tools::tools::search::ScanOutput;
use latte_rs_agent_tools::tools::search::SearchOutput;

fn json(text: &str) -> Json {
    Json::parse(text).unwrap()
}

const TREE: [(&str, &str); 4] = [
    ("src/main.rs", "// TODO main\nfn main() {}\n"),
    ("src/lib.rs", "// todo lib\nfn lib() {}\n"),
    ("tests/test_main.rs", "// TODO test\nfn test() {}\n"),
    ("README.md", "# README\n\nTODO: write docs\n"),
];

fn search(files: &[(&str, &str)], input: &str) -> SearchOutput {
    let q = parse_search(&json(input)).unwrap();
    let mut out = ScanOutput::new();
    for (name, content) in files {
        scan_file(&mut out, name, Some(content), &q.regex, q.per_file_limit);
    }
    finish_search(out, q.skip, ".".to_string(), q.pattern.clone(), vec![])
}

fn names(out: &SearchOutput) -> Vec<String> {
    out.matches.iter().map(|m| m.file.clone()).collect()
}

fn search_fault(input: &str) -> String {
    parse_search(&json(input)).err().unwrap().to_string()
}

#[test]
fn search_basic_finds_todo_across_files() {
    let out = search(&TREE, r#"{"pattern":"TODO"}"#);
    assert_eq!(names(&out), vec!["README.md", "src/main.rs", "tests/test_main.rs"]);
    assert_eq!(out.files_searched, 4);
    assert_eq!(out.total_file_count, 3);
    assert!(!out.truncated);
}

#[test]
fn search_case_insensitive() {
    let out = search(&TREE, r#"{"pattern":"todo","i":true}"#);
    let files = names(&out);
    assert!(files.contains(&"README.md".to_string()));
    assert!(files.contains(&"src/main.rs".to_string()));
    assert!(files.contains(&"src/lib.rs".to_string()));
}

#[test]
fn search_backward_compat_old_field_names() {
    let q = parse_search(&json(r#"{"pattern":"todo","path":"src","ignoreCase":true}"#)).unwrap();
    assert_eq!(q.paths, vec!["src"]);
    let out = search(&TREE, r#"{"pattern":"todo","path":"src","ignoreCase":true}"#);
    assert!(!out.matches.is_empty());
}

#[test]
fn search_multi_path_skips_missing() {
    let paths = vec!["nope/".to_string(), "src/main.rs".to_string()];
    let t = choose_targets(&paths, &vec![false, true], false).unwrap();
    assert_eq!(t.missing, vec!["nope/"]);
    assert_eq!(t.found, vec!["src/main.rs"]);
    let none = choose_targets(&paths, &vec![false, false], false).unwrap_err().to_string();
    assert_eq!(none, "All paths are missing: nope/, src/main.rs");
}

#[test]
fn search_single_missing_path_errors() {
    let err = choose_targets(&vec!["nope/".to_string()], &vec![false], false).unwrap_err();
    assert!(err.to_string().contains("Path not found"));
}

#[test]
fn search_space_separated_path_suggests_paths_array() {
    let err = choose_targets(&vec!["src tests".to_string()], &vec![false], true).unwrap_err();
    let msg = err.to_string();
    assert!(msg.contains("不支持空格分隔"), "msg = {msg}");
    assert!(msg.contains("\"paths\": [\"src\", \"tests\"]"), "未给出可照抄的数组: {msg}");
}

#[test]
fn search_space_in_path_is_not_misreported_as_misuse() {
    let err = choose_targets(&vec!["src nope".to_string()], &vec![false], false).unwrap_err();
    let msg = err.to_string();
    assert!(msg.contains("Path not found"), "msg = {msg}");
    assert!(!msg.contains("不支持空格分隔"), "误判为用法错误: {msg}");
}

#[test]
fn search_glob_path_filters_scope() {
    assert_eq!(split_glob("src/*.rs"), ("src".to_string(), Some("**/*.rs".to_string())));
    let files = vec!["main.rs".to_string(), "notes.md".to_string()];
    assert_eq!(files_of_target(&files, &Some("*.rs".to_string()), true), vec!["main.rs"]);
    assert_eq!(files_of_target(&files, &None, true).len(), 2);
}

#[test]
fn search_skip_pagination() {
    let full = search(&TREE, r#"{"pattern":"TODO"}"#);
    let paged = search(&TREE, r#"{"pattern":"TODO","skip":2}"#);
    assert_eq!(names(&paged), vec!["tests/test_main.rs"]);
    assert_eq!(paged.total_file_count, full.total_file_count);
}

#[test]
fn search_empty_pattern_errors() {
    assert!(search_fault(r#"{"pattern":""}"#).contains("must not be empty"));
    assert_eq!(search_fault("{}"), "pattern is required");
}

#[test]
fn search_invalid_regex_errors() {
    assert!(search_fault(r#"{"pattern":"(unclosed"}"#).contains("invalid regex"));
}

#[test]
fn search_invalid_regex_error_suggests_literal() {
    let msg = search_fault(r#"{"pattern":"LOG(\""}"#);
    assert!(msg.contains("invalid regex"), "msg = {msg}");
    assert!(msg.contains("literal"), "报错未提示 literal 出路: {msg}");
}

#[test]
fn search_literal_mode_matches_metacharacters() {
    let files = [("a.c", "LOG(\"hit\");\nLOGX(\"miss\");\nfoo[0] = 1;\n")];
    let out = search(&files, r#"{"pattern":"LOG(\"","literal":true}"#);
    let lines: Vec<u64> = out.matches.iter().map(|m| m.line).collect();
    assert_eq!(lines, vec![1]);
    assert_eq!(search(&files, r#"{"pattern":"foo[0]","literal":true}"#).total_matches, 1);
    assert_eq!(search(&files, r#"{"pattern":"log(\"","literal":true}"#).total_matches, 0);
    assert_eq!(search(&files, r#"{"pattern":"log(\"","literal":true,"i":true}"#).total_matches, 1);
}

#[test]
fn search_results_sorted_by_file_then_line() {
    let files = [("b", "TODO\nx\nTODO\n"), ("a", "x\nTODO\n")];
    let out = search(&files, r#"{"pattern":"TODO"}"#);
    let all: Vec<(String, u64)> = out.matches.iter().map(|m| (m.file.clone(), m.line)).collect();
    assert_eq!(
        all,
        vec![("a".to_string(), 2), ("b".to_string(), 1), ("b".to_string(), 3)]
    );
}

#[test]
fn search_per_file_limit_truncates() {
    let mut content = String::new();
    for i in 0..200 {
        content.push_str(&format!("// TODO line {}\n", i));
    }
    let out = search(&[("dense.rs", content.as_str())], r#"{"pattern":"TODO"}"#);
    assert!(out.truncated);
    assert_eq!(out.matches.len(), 100);
}

#[test]
fn search_long_line_content_is_truncated() {
    let long_line = format!("TODO {}\n", "x".repeat(5000));
    let out = search(&[("long.rs", long_line.as_str())], r#"{"pattern":"TODO"}"#);
    assert!(out.truncated);
    assert_eq!(out.matches.len(), 1);
    assert!(out.matches[0].content.contains("行过长已截断"), "{}", out.matches[0].content);
    assert!(out.matches[0].content.chars().count() <= 530);
}

#[test]
fn search_total_content_budget_truncates() {
    let line = format!("// TODO {}\n", "y".repeat(400));
    let content = line.repeat(500);
    let out = search(&[("big.rs", content.as_str())], r#"{"pattern":"TODO","limit":500}"#);
    assert!(out.truncated);
    let total: usize = out.matches.iter().map(|m| m.content.len()).sum();
    assert!(total <= 100 * 1024, "total: {total}");
    assert!(out.matches.len() < 500);
    assert_eq!(out.total_matches, out.matches.len());
}

#[test]
fn a_file_that_cannot_be_read_has_no_hits() {
    let q = parse_search(&json(r#"{"pattern":"x"}"#)).unwrap();
    let mut out = ScanOutput::new();
    scan_file(&mut out, "gone", None, &q.regex, q.per_file_limit);
    assert!(out.hits.is_empty());
}

#[test]
fn search_never_enters_git_dir() {
    assert!(!enter_directory(".git", false));
    assert!(!enter_directory(".latte", false));
    assert!(enter_directory("src", false));
}

#[test]
fn search_hidden_dir_as_explicit_root_still_works() {
    assert!(enter_directory(".latte", true));
}

#[test]
fn search_excludes_hidden_dirs_by_default() {
    let path = vec![".hidden".to_string(), "logs".to_string(), "run.log".to_string()];
    let not_ignored = vec![false, false, false];
    assert!(!keep_file(&path, &not_ignored, HiddenPolicy::SkipDirectories));
    assert!(keep_file(&path, &not_ignored, HiddenPolicy::Keep));
    assert!(!parse_search(&json(r#"{"pattern":"x"}"#)).unwrap().hidden);
    assert!(parse_search(&json(r#"{"pattern":"x","hidden":true}"#)).unwrap().hidden);
}

#[test]
fn find_respects_gitignore() {
    let path = vec!["target".to_string(), "build.o".to_string()];
    assert!(!keep_file(&path, &vec![true, false], HiddenPolicy::Keep));
    assert!(keep_file(&path, &vec![false, false], HiddenPolicy::Keep));
}

#[test]
fn find_honors_hidden_flag() {
    let hidden = vec![".hidden".to_string(), "secret.md".to_string()];
    let dotfile = vec![".secret.md".to_string()];
    assert!(!keep_file(&hidden, &vec![], HiddenPolicy::SkipAll));
    assert!(!keep_file(&dotfile, &vec![], HiddenPolicy::SkipAll));
    assert!(keep_file(&dotfile, &vec![], HiddenPolicy::SkipDirectories));
}

#[test]
fn find_matches_nested_files_with_auto_prefix() {
    let target = parse_find_pattern("*.md");
    assert!(target.has_glob);
    assert_eq!(target.search_path, ".");
    let files = vec!["README.md".to_string(), ".hidden/secret.md".to_string(), "a.rs".to_string()];
    match find_action(&target, false, true) {
        FindAction::Walk(glob) => {
            assert_eq!(match_files(&files, &glob, true).unwrap(), vec![true, true, false]);
        }
        _ => panic!("expected a walk"),
    }
}

#[test]
fn find_respects_subdirectory_scope() {
    let target = parse_find_pattern("src/**/*.rs");
    assert_eq!(target.search_path, "src");
    assert_eq!(target.glob_pattern, "**/*.rs");
}

#[test]
fn find_literal_file_path() {
    let target = parse_find_pattern("src/main.rs");
    assert!(!target.has_glob);
    assert!(matches!(find_action(&target, true, false), FindAction::TakeFile));
    assert!(matches!(find_action(&target, false, false), FindAction::Nothing));
}

#[test]
fn find_literal_directory_recurses() {
    match find_action(&parse_find_pattern("src"), false, true) {
        FindAction::Walk(glob) => assert_eq!(glob, "**/*"),
        _ => panic!("expected a walk"),
    }
}

fn hit(path: &str, mtime_ms: i64) -> FindHit {
    FindHit {
        path: path.to_string(),
        components: path.split('/').map(String::from).collect(),
        mtime_ms,
        is_dir: false,
    }
}

#[test]
fn find_sorts_by_mtime_descending() {
    let hits = vec![hit("older.txt", 1), hit("newer.txt", 2), hit("older.txt", 1)];
    let out = finish_find(hits, 10, ".".to_string(), vec!["nope/**".to_string()], true);
    assert_eq!(out.files, vec!["newer.txt", "older.txt"]);
    assert_eq!(out.missing_paths, vec!["nope/**"]);
    assert!(out.recursive_from_directory);
    assert!(!out.truncated);
}

#[test]
fn find_truncates_by_limit() {
    let out = finish_find(vec![hit("a", 1), hit("b", 2)], 1, ".".to_string(), vec![], false);
    assert!(out.truncated);
    assert_eq!(out.file_count, 1);
}

#[test]
fn requests_to_find_are_checked() {
    let fault = |s: &str| parse_find(&json(s)).unwrap_err().to_string();
    assert_eq!(fault("{}"), "paths is required (array of globs)");
    assert_eq!(fault(r#"{"paths":[]}"#), "paths must not be empty");
    assert_eq!(fault(r#"{"paths":[1]}"#), "paths must contain at least one string");
    assert_eq!(fault(r#"{"paths":["a"],"limit":0}"#), "limit must be > 0");
    let q = parse_find(&json(r#"{"paths":["a"]}"#)).unwrap();
    assert!(q.hidden && q.gitignore);
    assert!(match_files(&vec!["a".to_string()], "[", true).is_err());
}

#[test]
fn findings_are_written_as_json() {
    let mut scan = ScanOutput::new();
    let q = parse_search(&Json::parse(r#"{"pattern":"b"}"#).unwrap()).ok().unwrap();
    scan_file(&mut scan, "x.txt", Some("a\nb\n"), &q.regex, 10);
    let out = finish_search(scan, 0, ".".to_string(), "b".to_string(), vec!["gone".to_string()]);
    assert_eq!(
        out.to_json().to_text(),
        r#"{"fileCount":1,"filesSearched":1,"matches":[{"content":"b","file":"x.txt","line":2}],"missingPaths":["gone"],"pattern":"b","scopePath":".","totalFileCount":1,"totalMatches":1,"truncated":false}"#
    );
    let hit = FindHit {
        path: "x.txt".to_string(),
        components: vec!["x.txt".to_string()],
        mtime_ms: 1,
        is_dir: false,
    };
    let found = finish_find(vec![hit], 5, "".to_string(), Vec::new(), true);
    assert_eq!(
        found.to_json().to_text(),
        r#"{"fileCount":1,"files":["x.txt"],"missingPaths":[],"recursiveFromDirectory":true,"scopePath":"","truncated":false}"#
    );
    let none = finish_find(Vec::new(), 5, "".to_string(), Vec::new(), false);
    assert!(none.to_json().get("recursiveFromDirectory").is_none());
}

fn parts(path: &str) -> Vec<String> {
    path.split('/').map(|s| s.to_string()).collect()
}

#[test]
fn rules_exclude_files_and_what_is_below_directories() {
    let texts = vec!["\u{feff}target/\r\n# note\n*.log\n!keep.log\n".to_string(), "docs/private\n".to_string()];
    let rules = read_rules("/w", &texts);
    assert!(rules.is_some());
    let kept = |path: &str| keeps_file(&rules, "/w", &parts(path), HiddenPolicy::Keep);
    assert!(kept("src/main.rs"));
    assert!(!kept("target/debug/x.rs"));
    assert!(kept("target"));
    assert!(!kept("a/b.log"));
    assert!(kept("a/keep.log"));
    assert!(!kept("docs/private/x.md"));
    assert!(kept("docs/public/x.md"));
    assert!(keeps_file(&None, "/w", &parts("target/x"), HiddenPolicy::Keep));
    assert!(!keeps_file(&None, "/w", &parts(".x/y"), HiddenPolicy::SkipDirectories));
    assert!(keeps_file(&None, "/w", &parts(".y"), HiddenPolicy::SkipDirectories));
    let none = read_rules("/w", &Vec::new());
    assert!(keeps_file(&none, "/w", &parts("target/x"), HiddenPolicy::Keep));
}

#[test]
fn paths_are_arranged_each_once() {
    let paths = vec![parts("b/a"), parts("a/z"), parts("a"), parts("b/a"), parts("a-b")];
    assert_eq!(arrange_paths(&paths), vec![2, 1, 4, 0]);
    assert!(arrange_paths(&Vec::new()).is_empty());
}

#[test]
fn every_page_is_in_order_and_counts_all_files() {
    let files = [("c", "TODO\nTODO\n"), ("a", "TODO\n"), ("b", "x\nTODO\n")];
    for (skip, want) in [(0, vec!["a", "b", "c", "c"]), (1, vec!["b", "c", "c"]), (3, vec![])] {
        let out = search(&files, &format!(r#"{{"pattern":"TODO","skip":{skip}}}"#));
        assert_eq!(names(&out), want);
        assert_eq!(out.total_matches, want.len());
        assert_eq!(out.total_file_count, 3);
        assert_eq!(out.file_count, 3 - skip);
    }
}

#[test]
fn backslashes_escape_in_globs() {
    let files: Vec<String> = ["/w/a*", "/w/ab", "/w/[c]"].iter().map(|s| s.to_string()).collect();
    assert_eq!(match_files(&files, r"**/a\*", true).unwrap(), vec![true, false, false]);
    assert_eq!(match_files(&files, r"**/\[c\]", true).unwrap(), vec![false, false, true]);
    assert_eq!(
        match_files(&files, "a\\", true).unwrap_err().to_string(),
        "invalid glob pattern 'a\\': error parsing glob 'a\\': dangling '\\'"
    );
    assert_eq!(files_of_target(&files, &Some(r"**/a\*".to_string()), true), vec!["/w/a*"]);
    assert_eq!(files_of_target(&files, &Some("a\\".to_string()), true).len(), 3);
}

#[test]
fn rules_may_escape_and_the_root_may_be_the_top() {
    let texts = vec![r"\#notes
\!keep
a\*b
/top".to_string()];
    for root in ["/", "/w", "/w/", "w", "."] {
        let rules = read_rules(root, &texts);
        let kept = |path: &str| keeps_file(&rules, root, &parts(path), HiddenPolicy::Keep);
        assert!(!kept("#notes") && !kept("x/!keep") && !kept("a*b/y") && !kept("top/z"), "{root}");
        assert!(kept("notes") && kept("keep") && kept("axb") && kept("x/top"), "{root}");
    }
}

#[test]
fn hidden_files_count_as_each_tool_says() {
    let find = |text: &str| parse_find(&json(text)).unwrap().hidden_policy();
    assert_eq!(find(r#"{"paths":["a"]}"#), HiddenPolicy::Keep);
    assert_eq!(find(r#"{"paths":["a"],"hidden":false}"#), HiddenPolicy::SkipAll);
    let search = |text: &str| parse_search(&json(text)).unwrap().hidden_policy();
    assert_eq!(search(r#"{"pattern":"a","hidden":true}"#), HiddenPolicy::Keep);
    assert_eq!(search(r#"{"pattern":"a","hidden":false}"#), HiddenPolicy::SkipDirectories);
}
