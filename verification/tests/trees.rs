//! The `search` and `find` tools on trees of files that are held in memory.
use latte_rs_agent_tools::error::ToolError;
use latte_rs_agent_tools::ignores::keeps_file;
use latte_rs_agent_tools::ignores::read_rules;
use latte_rs_agent_tools::json::Json;
use latte_rs_agent_tools::tools::find::enter_directory;
use latte_rs_agent_tools::tools::find::find_action;
use latte_rs_agent_tools::tools::find::finish_find;
use latte_rs_agent_tools::tools::find::match_files;
use latte_rs_agent_tools::tools::find::parse_find;
use latte_rs_agent_tools::tools::find::parse_find_pattern;
use latte_rs_agent_tools::tools::find::FindAction;
use latte_rs_agent_tools::tools::find::FindHit;
use latte_rs_agent_tools::tools::find::HiddenPolicy;
use latte_rs_agent_tools::tools::search::choose_targets;
use latte_rs_agent_tools::tools::search::files_of_target;
use latte_rs_agent_tools::tools::search::finish_search;
use latte_rs_agent_tools::tools::search::parse_search;
use latte_rs_agent_tools::tools::search::scan_file;
use latte_rs_agent_tools::tools::search::split_glob;
use latte_rs_agent_tools::tools::search::ScanOutput;

const ROOT: &str = "/w";

const FOUND: [(&str, &str); 8] = [
    ("README.md", "readme"),
    ("src/main.rs", "fn main(){}"),
    ("src/lib.rs", "// lib"),
    ("src/nested/deep.rs", "// deep"),
    ("tests/test_main.rs", "// test"),
    (".hidden/secret.md", "shh"),
    ("target/build.o", "binary"),
    (".gitignore", "target/\n"),
];

const SEARCHED: [(&str, &str); 8] = [
    ("src/main.rs", "// TODO main\nfn main() {}\n"),
    ("src/lib.rs", "// todo lib\nfn lib() {}\n"),
    ("tests/test_main.rs", "// TODO test\nfn test() {}\n"),
    ("README.md", "# README\n\nTODO: write docs\n"),
    ("target/ignored.rs", "// TODO\nfn ignored() {}\n"),
    (".gitignore", "target/\n"),
    (".git/logs/HEAD", "TODO in the history\n"),
    (".latte/ui-sessions/ui-1-0.jsonl", "{\"type\":\"ToolUse\",\"args\":\"TODO\"\n"),
];

fn below(path: &str, dir: &str) -> Option<String> {
    if dir == "." {
        return Some(path.to_string());
    }
    path.strip_prefix(dir)?.strip_prefix('/').map(|s| s.to_string())
}

fn is_file(tree: &[(&str, &str)], path: &str) -> bool {
    tree.iter().any(|f| f.0 == path)
}

fn is_dir(tree: &[(&str, &str)], path: &str) -> bool {
    tree.iter().any(|f| below(f.0, path).is_some())
}

fn walk(tree: &[(&str, &str)], dir: &str, policy: HiddenPolicy, gitignore: bool) -> Vec<String> {
    let root = if dir == "." { ROOT.to_string() } else { format!("{ROOT}/{dir}") };
    let texts: Vec<String> = tree
        .iter()
        .filter(|f| below(f.0, dir).as_deref() == Some(".gitignore"))
        .map(|f| f.1.to_string())
        .collect();
    let rules = if gitignore { read_rules(&root, &texts) } else { None };
    let mut files = Vec::new();
    for (path, _) in tree {
        let Some(rest) = below(path, dir) else { continue };
        let names: Vec<String> = rest.split('/').map(|s| s.to_string()).collect();
        let entered = names[..names.len() - 1].iter().all(|n| enter_directory(n, false));
        if entered && keeps_file(&rules, &root, &names, policy) {
            files.push(path.to_string());
        }
    }
    files
}

fn find(tree: &[(&str, &str)], input: &str) -> Result<Json, ToolError> {
    let q = parse_find(&Json::parse(input).unwrap())?;
    let there = |p: &String| {
        let root = parse_find_pattern(p).search_path;
        is_file(tree, &root) || is_dir(tree, &root)
    };
    let exists: Vec<bool> = q.patterns.iter().map(there).collect();
    let targets = choose_targets(&q.patterns, &exists, false)?;
    let mut hits = Vec::new();
    let mut walked = false;
    for raw in &targets.found {
        let target = parse_find_pattern(raw);
        let root = target.search_path.clone();
        let files = match find_action(&target, is_file(tree, &root), is_dir(tree, &root)) {
            FindAction::TakeFile => vec![root],
            FindAction::Nothing => Vec::new(),
            FindAction::Walk(glob) => {
                walked = true;
                let all = walk(tree, &root, q.hidden_policy(), q.gitignore);
                let kept = match_files(&all, &glob, true)?;
                all.into_iter().zip(kept).filter(|f| f.1).map(|f| f.0).collect()
            }
        };
        for path in files {
            let components = path.split('/').map(|s| s.to_string()).collect();
            hits.push(FindHit { path, components, mtime_ms: 0, is_dir: false });
        }
    }
    Ok(finish_find(hits, q.limit, ".".to_string(), targets.missing, walked).to_json())
}

fn search(tree: &[(&str, &str)], input: &str) -> Result<Json, ToolError> {
    let q = parse_search(&Json::parse(input).unwrap())?;
    let there = |p: &String| {
        let root = split_glob(p).0;
        is_file(tree, &root) || is_dir(tree, &root)
    };
    let exists: Vec<bool> = q.paths.iter().map(there).collect();
    let targets = choose_targets(&q.paths, &exists, false)?;
    let mut out = ScanOutput::new();
    for raw in &targets.found {
        let (root, glob) = split_glob(raw);
        let all = if is_file(tree, &root) {
            vec![root]
        } else {
            walk(tree, &root, q.hidden_policy(), q.gitignore)
        };
        for file in files_of_target(&all, &glob, true) {
            let content = tree.iter().find(|f| f.0 == file).map(|f| f.1);
            scan_file(&mut out, &file, content, &q.regex, q.per_file_limit);
        }
    }
    Ok(finish_search(out, q.skip, ".".to_string(), q.pattern.clone(), targets.missing).to_json())
}

fn files(v: &Json) -> Vec<String> {
    v.get_array("files").unwrap().iter().map(|f| text(f)).collect()
}

fn matched(v: &Json) -> Vec<String> {
    v.get_array("matches").unwrap().iter().map(|m| m.get_str("file").unwrap().clone()).collect()
}

fn text(v: &Json) -> String {
    match v {
        Json::String(s) => s.clone(),
        other => panic!("expected a text, got {other:?}"),
    }
}

#[test]
fn find_ignores_gitignore_when_disabled() {
    let out = find(&FOUND, r#"{"paths":["**/*"],"gitignore":false}"#).unwrap();
    assert!(files(&out).contains(&"target/build.o".to_string()), "files: {:?}", files(&out));
    let out = find(&FOUND, r#"{"paths":["**/*"]}"#).unwrap();
    assert!(!files(&out).contains(&"target/build.o".to_string()), "files: {:?}", files(&out));
    assert!(out.get_bool("recursiveFromDirectory").unwrap());
}

#[test]
fn hidden_files_are_found_unless_they_are_not_wanted() {
    let out = find(&FOUND, r#"{"paths":["*.md"]}"#).unwrap();
    assert_eq!(files(&out), vec![".hidden/secret.md", "README.md"]);
    let out = find(&FOUND, r#"{"paths":["**/*.md"],"hidden":false}"#).unwrap();
    assert_eq!(files(&out), vec!["README.md"]);
}

#[test]
fn find_single_missing_path_errors() {
    let err = find(&FOUND, r#"{"paths":["nope/does_not_exist/**"]}"#).unwrap_err();
    assert!(err.to_string().contains("Path not found"));
}

#[test]
fn find_multi_path_skips_missing_individually() {
    let out = find(&FOUND, r#"{"paths":["nope/**","src/**/*.rs"]}"#).unwrap();
    let missing: Vec<String> =
        out.get_array("missingPaths").unwrap().iter().map(|p| text(p)).collect();
    assert_eq!(missing, vec!["nope/**".to_string()]);
    assert_eq!(files(&out).len(), 3);
}

#[test]
fn search_multi_paths() {
    let out =
        search(&SEARCHED, r#"{"pattern":"TODO","paths":["src/main.rs","tests/test_main.rs"]}"#)
            .unwrap();
    assert_eq!(matched(&out), vec!["src/main.rs", "tests/test_main.rs"]);
}

#[test]
fn search_disabling_gitignore_finds_ignored_files() {
    let out = search(&SEARCHED, r#"{"pattern":"TODO","gitignore":false}"#).unwrap();
    assert!(matched(&out).contains(&"target/ignored.rs".to_string()), "{:?}", matched(&out));
    let out = search(&SEARCHED, r#"{"pattern":"TODO"}"#).unwrap();
    assert_eq!(matched(&out), vec!["README.md", "src/main.rs", "tests/test_main.rs"]);
}

#[test]
fn search_never_enters_latte_dir() {
    let out = search(&SEARCHED, r#"{"pattern":"TODO","hidden":true}"#).unwrap();
    let files = matched(&out);
    assert!(!files.iter().any(|f| f.contains(".latte")), "files: {files:?}");
    assert!(!files.iter().any(|f| f.contains(".git/")), "files: {files:?}");
    assert!(files.contains(&"README.md".to_string()), "files: {files:?}");
}
