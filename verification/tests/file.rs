//! The `file` tools.
use latte_rs_agent_tools::error::ToolError;
use latte_rs_agent_tools::json::Json;
use latte_rs_agent_tools::tools::file::check_file;
use latte_rs_agent_tools::tools::file::check_write;
use latte_rs_agent_tools::tools::file::extension;
use latte_rs_agent_tools::tools::file::finish_delete;
use latte_rs_agent_tools::tools::file::finish_list;
use latte_rs_agent_tools::tools::file::finish_write;
use latte_rs_agent_tools::tools::file::list_directory;
use latte_rs_agent_tools::tools::file::list_entry;
use latte_rs_agent_tools::tools::file::not_a_directory;
use latte_rs_agent_tools::tools::file::parse_delete;
use latte_rs_agent_tools::tools::file::parse_line_range;
use latte_rs_agent_tools::tools::file::parse_list;
use latte_rs_agent_tools::tools::file::parse_path_selector;
use latte_rs_agent_tools::tools::file::parse_read;
use latte_rs_agent_tools::tools::file::parse_write;
use latte_rs_agent_tools::tools::file::plan_delete;
use latte_rs_agent_tools::tools::file::read_batch;
use latte_rs_agent_tools::tools::file::read_batch_concurrency;
use latte_rs_agent_tools::tools::file::read_file_sel;
use latte_rs_agent_tools::tools::file::stat_error;
use latte_rs_agent_tools::tools::file::summary_enabled;
use latte_rs_agent_tools::tools::file::DeletePlan;
use latte_rs_agent_tools::tools::file::EntryKind;
use latte_rs_agent_tools::tools::file::FileFacts;
use latte_rs_agent_tools::tools::file::FoundEntry;
use latte_rs_agent_tools::tools::file::ListStep;
use latte_rs_agent_tools::tools::file::ReadRequest;

fn json(text: &str) -> Json {
    Json::parse(text).unwrap()
}

fn facts(path: &str, size: usize) -> FileFacts {
    FileFacts {
        path: path.to_string(),
        name: path.rsplit('/').next().unwrap().to_string(),
        size: size as u64,
        modified: 7,
    }
}

fn read(path: &str, content: &str) -> Result<Json, ToolError> {
    let (file, selector) = parse_path_selector(path);
    read_file_sel(&facts(&file, content.len()), content.as_bytes(), selector.as_deref(), true)
}

fn text<'a>(v: &'a Json, name: &str) -> &'a str {
    v.get_str(name).unwrap().as_str()
}

#[test]
fn test_read_selector_range() {
    let r = read("/t/test.txt:2-4", "line1\nline2\nline3\nline4\nline5\n").unwrap();
    assert_eq!(r.get_u64("startLine"), Some(2));
    assert_eq!(r.get_u64("selectedLines"), Some(3));
    assert_eq!(text(&r, "content"), "line2\nline3\nline4");
    assert_eq!(text(&r, "numberedContent"), "2:line2\n3:line3\n4:line4");
    assert_eq!(r.get_u64("endLine"), Some(4));
    assert_eq!(r.get_u64("totalLines"), Some(5));
    assert_eq!(text(&r, "selector"), "2-4");
}

#[test]
fn test_read_selector_single_line() {
    let r = read("/t/test.txt:2", "a\nb\nc\n").unwrap();
    assert_eq!(text(&r, "content"), "b");
}

#[test]
fn test_read_selector_raw() {
    let r = read("/t/test.txt:raw", "hello\nworld\n").unwrap();
    assert_eq!(text(&r, "selector"), "raw");
    assert_eq!(text(&r, "content"), "hello\nworld\n");
}

#[test]
fn single_path_read_shape_is_unchanged() {
    let r = read("/t/test.txt", "hello\n").unwrap();
    assert!(r.get("files").is_none());
    assert_eq!(text(&r, "content"), "hello\n");
    assert_eq!(text(&r, "path"), "/t/test.txt");
    assert_eq!(text(&r, "encoding"), "utf-8");
    assert_eq!(r.get_u64("size"), Some(6));
    assert_eq!(r.get_u64("modifiedAt"), Some(7));
    assert_eq!(text(&r, "tag").len(), 4);
}

fn big_c_file() -> String {
    let mut src = String::from("#include <stdio.h>\n\n");
    for f in ["alpha", "beta"] {
        src.push_str(&format!("int {f}(int a, int b) {{\n"));
        for _ in 0..50 {
            src.push_str("    a += b; /* body line */\n");
        }
        src.push_str("    return a;\n}\n\n");
    }
    src
}

#[test]
fn test_read_code_file_returns_structural_summary() {
    let r = read("/t/big.c", &big_c_file()).unwrap();
    assert_eq!(text(&r, "mode"), "structural_summary");
    let content = text(&r, "content");
    assert!(content.contains("int alpha(int a, int b)"), "{content}");
    assert!(content.contains("int beta(int a, int b)"), "{content}");
    assert!(content.contains("    … 52 ln elided (4-55)\n"), "{content}");
    assert!(content.contains("例如 `/t/big.c:4-55,58-109`"), "{content}");
    assert!(content.contains("/t/big.c:raw"), "{content}");
    assert_eq!(r.get_u64("foldedDefinitions"), Some(2));
    assert_eq!(r.get_u64("elidedLines"), Some(104));
}

#[test]
fn test_read_code_file_raw_bypasses_summary() {
    let mut src = String::from("int f(void) {\n");
    for _ in 0..100 {
        src.push_str("    ;\n");
    }
    src.push_str("}\n");
    let r = read("/t/big.c:raw", &src).unwrap();
    assert_eq!(text(&r, "selector"), "raw");
    assert!(text(&r, "content").contains("int f(void)"));
    assert!(!text(&r, "content").contains("ln elided"));
}

#[test]
fn test_read_small_code_file_not_summarized() {
    let r = read("/t/small.c", "int f(void){return 1;}\n").unwrap();
    assert!(r.get("mode").is_none());
}

#[test]
fn outlines_can_be_turned_off() {
    let src = big_c_file();
    let r = read_file_sel(&facts("/t/big.c", src.len()), src.as_bytes(), None, false).unwrap();
    assert!(r.get("mode").is_none());
    assert_eq!(text(&r, "content"), src);
    assert!(!summary_enabled(Some("0")));
    assert!(!summary_enabled(Some("False")));
    assert!(summary_enabled(Some("1")));
    assert!(summary_enabled(None));
}

#[test]
fn test_read_text_file_not_summarized() {
    let mut big = String::new();
    for i in 0..200 {
        big.push_str(&format!("line {i}\n"));
    }
    let r = read("/t/test.txt", &big).unwrap();
    assert!(r.get("mode").is_none());
}

#[test]
fn test_read_markdown_returns_doc_outline() {
    let mut md = String::from("# 项目指南\n\n导语一段。\n\n");
    for sec in ["安装", "配置", "使用"] {
        md.push_str(&format!("## {sec}\n\n"));
        for _ in 0..40 {
            md.push_str("这是正文说明行。\n");
        }
        md.push('\n');
    }
    let r = read("/t/guide.md", &md).unwrap();
    assert_eq!(text(&r, "mode"), "doc_outline");
    let content = text(&r, "content");
    assert!(content.contains("1: # 项目指南\n"), "{content}");
    assert!(content.contains("## 安装"));
    assert!(content.contains("## 配置"));
    assert!(content.contains("## 使用"));
    assert!(content.contains("ln elided"));
    assert!(content.contains("小节"), "{content}");
    assert!(content.contains(":raw"));
    assert_eq!(r.get_u64("headings"), Some(4));
}

#[test]
fn test_read_markdown_raw_bypasses_outline() {
    let mut md = String::from("# T\n");
    for _ in 0..100 {
        md.push_str("body\n");
    }
    let r = read("/t/doc.md:raw", &md).unwrap();
    assert_eq!(text(&r, "selector"), "raw");
    assert!(!text(&r, "content").contains("ln elided"));
}

#[test]
fn test_read_markdown_without_headings_not_outlined() {
    let mut md = String::new();
    for i in 0..120 {
        md.push_str(&format!("散文第 {i} 行，没有任何标题。\n"));
    }
    let r = read("/t/prose.md", &md).unwrap();
    assert!(r.get("mode").is_none());
}

#[test]
fn headings_in_code_blocks_do_not_count() {
    let mut md = String::from("# T\n```\n# not a heading\n~~~\n```\n");
    for _ in 0..100 {
        md.push_str("body\n");
    }
    let r = read("/t/doc.md", &md).unwrap();
    assert_eq!(r.get_u64("headings"), Some(1));
    assert_eq!(r.get_u64("elidedLines"), Some(104));
}

#[test]
fn bytes_that_are_no_text_are_replaced() {
    let r = read_file_sel(&facts("/t/x", 2), &[b'a', 0xff], Some("raw"), true).unwrap();
    assert_eq!(text(&r, "content"), "a\u{fffd}");
}

#[test]
fn test_read_directory() {
    let found = vec![("subdir".to_string(), true), ("f.txt".to_string(), false)];
    let r = list_directory("/t", &found);
    assert!(r.same_as(&json(
        r#"{"path":"/t","isDirectory":true,"entries":["f.txt","subdir/"],"entryCount":2}"#
    )));
}

#[test]
fn test_read_missing_path_error_echoes_path_and_cwd() {
    let msg = stat_error("read", "/Users/zhouguong/nope.md", Some("/Users/j"), "No such file").to_string();
    assert!(msg.contains("/Users/zhouguong/nope.md"), "{msg}");
    assert!(msg.contains("cwd: '/Users/j'"), "{msg}");
}

#[test]
fn test_read_missing_path_error_without_cwd() {
    let msg = stat_error("read", "/definitely/not/here.md", None, "No such file").to_string();
    assert!(msg.contains("/definitely/not/here.md"), "{msg}");
    assert!(!msg.contains("cwd:"), "{msg}");
}

#[test]
fn files_are_checked_before_they_are_read() {
    assert!(check_file("/t/a", true, 5, 5).is_ok());
    assert_eq!(check_file("/t", false, 0, 5).unwrap_err().to_string(), "Not a file: /t");
    assert_eq!(check_file("/t/a", true, 6, 5).unwrap_err().to_string(), "File too large: 6 > 5");
}

#[test]
fn selectors_are_taken_off_paths() {
    assert_eq!(parse_path_selector("a.rs:3-9"), ("a.rs".to_string(), Some("3-9".to_string())));
    assert_eq!(parse_path_selector("a.rs"), ("a.rs".to_string(), None));
    assert_eq!(parse_path_selector(":3"), (":3".to_string(), None));
    assert_eq!(parse_path_selector("C:\\x"), ("C:\\x".to_string(), None));
    assert_eq!(parse_path_selector("a:b"), ("a:b".to_string(), None));
}

#[test]
fn ranges_of_lines_are_read() {
    assert_eq!(parse_line_range("3-9").unwrap(), (3, 9));
    assert_eq!(parse_line_range("3+2").unwrap(), (3, 4));
    assert_eq!(parse_line_range("7").unwrap(), (7, 7));
    let fault = |s: &str| parse_line_range(s).unwrap_err().to_string();
    assert_eq!(fault("conflicts"), "invalid selector: conflicts");
    assert_eq!(fault("0+2"), "start line must be >= 1");
    assert_eq!(fault("2+0"), "count must be >= 1");
    assert_eq!(fault("0-2"), "line numbers must be >= 1");
    assert_eq!(fault("5-2"), "end line must be >= start line");
    assert_eq!(fault("0"), "line number must be >= 1");
    assert_eq!(
        read("/t/a:9", "one\n").unwrap_err().to_string(),
        "start_line 9 exceeds file length 1"
    );
}

#[test]
fn parts_that_follow_make_up_the_whole() {
    let content = "a\nb\nc\nd\n";
    let whole = read("/t/a:1-4", content).unwrap();
    let first = read("/t/a:1-2", content).unwrap();
    let second = read("/t/a:3-4", content).unwrap();
    assert_eq!(
        text(&whole, "content"),
        format!("{}\n{}", text(&first, "content"), text(&second, "content"))
    );
}

#[test]
fn batch_read_returns_all_files_in_input_order() {
    let mut specs = Vec::new();
    let mut results = Vec::new();
    for i in 0..5 {
        let path = format!("/t/f{i}.txt");
        results.push(read(&path, &format!("content-{i}\n")));
        specs.push(path);
    }
    let r = read_batch(&specs, results);
    assert_eq!(r.get_u64("count"), Some(5));
    assert_eq!(r.get_u64("failedCount"), Some(0));
    let files = r.get_array("files").unwrap();
    for (i, f) in files.iter().enumerate() {
        assert_eq!(text(f, "content"), format!("content-{i}\n"));
        assert_eq!(text(f, "path"), specs[i]);
        assert!(f.get_str("tag").is_some());
    }
}

#[test]
fn batch_read_honors_per_path_selectors() {
    let specs = vec!["/t/a.txt:2-3".to_string(), "/t/a.txt:raw".to_string()];
    let results = specs.iter().map(|s| read(s, "l1\nl2\nl3\nl4\n")).collect();
    let r = read_batch(&specs, results);
    let files = r.get_array("files").unwrap();
    assert_eq!(files[0].get_u64("startLine"), Some(2));
    assert!(text(&files[0], "content").contains("l2"));
    assert_eq!(text(&files[1], "selector"), "raw");
    assert_eq!(text(&files[1], "content"), "l1\nl2\nl3\nl4\n");
}

#[test]
fn batch_read_partial_failure_keeps_successes() {
    let specs: Vec<String> = ["a", "b", "nope.txt", "c", "d"].iter().map(|s| s.to_string()).collect();
    let results = specs
        .iter()
        .map(|s| {
            if s == "nope.txt" {
                Err(stat_error("read", s, None, "missing"))
            } else {
                read(s, "x\n")
            }
        })
        .collect();
    let r = read_batch(&specs, results);
    assert_eq!(r.get_u64("count"), Some(4));
    assert_eq!(r.get_u64("failedCount"), Some(1));
    let failed = r.get_array("failed").unwrap();
    assert_eq!(text(&failed[0], "path"), "nope.txt");
    assert!(!text(&failed[0], "error").is_empty());
}

#[test]
fn batch_read_rejects_too_many_paths() {
    let many: Vec<String> = (0..11).map(|i| format!("\"f{i}\"")).collect();
    let err = parse_read(&json(&format!("{{\"paths\":[{}]}}", many.join(",")))).unwrap_err();
    let msg = err.to_string();
    assert_eq!(msg, "too many paths: 11 > 10 — 分批调用（一次最多 10 个）");
}

#[test]
fn batch_read_byte_budget_trims_deterministically() {
    let big = "x".repeat(192 * 1024);
    let specs: Vec<String> = (0..3).map(|i| format!("/t/big{i}.txt:raw")).collect();
    let results = specs.iter().map(|s| read(s, &big)).collect();
    let r = read_batch(&specs, results);
    assert_eq!(r.get_u64("count"), Some(1));
    assert_eq!(r.get_u64("failedCount"), Some(2));
    assert_eq!(r.get_u64("bytes"), Some(196608));
    for f in r.get_array("failed").unwrap() {
        assert!(text(f, "error").contains("预算"));
    }
}

#[test]
fn a_directory_counts_by_its_whole_answer() {
    let listing = list_directory("d", &vec![]);
    let size = listing.to_text().len() as u64;
    let r = read_batch(&vec!["d".to_string()], vec![Ok(listing)]);
    assert_eq!(r.get_u64("bytes"), Some(size));
}

#[test]
fn read_batch_concurrency_reads_env() {
    assert_eq!(read_batch_concurrency(None, None), 8);
    assert_eq!(read_batch_concurrency(None, Some("100")), 32, "钳到上界");
    assert_eq!(read_batch_concurrency(None, Some("0")), 1, "钳到下界");
    assert_eq!(read_batch_concurrency(None, Some("4")), 4);
    assert_eq!(read_batch_concurrency(Some("off"), Some("4")), 1, "总开关关掉即串行");
    assert_eq!(read_batch_concurrency(Some(" FALSE "), None), 1);
    assert_eq!(read_batch_concurrency(Some("1"), Some("many")), 8);
}

#[test]
fn requests_to_read_are_checked() {
    let fault = |s: &str| parse_read(&json(s)).unwrap_err().to_string();
    assert_eq!(fault("{}"), "path is required (或用 paths 数组批量读)");
    assert_eq!(fault(r#"{"paths":"a"}"#), "paths must be an array of strings");
    assert_eq!(fault(r#"{"paths":[1]}"#), "paths must contain only strings");
    assert_eq!(fault(r#"{"paths":[" "]}"#), "paths must not contain empty strings");
    assert_eq!(fault(r#"{"paths":[]}"#), "paths must not be empty");
    match parse_read(&json(r#"{"path":"a:1","maxSize":9}"#)).unwrap() {
        ReadRequest::One { spec, max_size } => {
            assert_eq!(spec, "a:1");
            assert_eq!(max_size, 9);
        }
        _ => panic!("expected one path"),
    }
    match parse_read(&json(r#"{"paths":["a","b"]}"#)).unwrap() {
        ReadRequest::Many { specs, max_size } => {
            assert_eq!(specs, vec!["a", "b"]);
            assert_eq!(max_size, 10 * 1024 * 1024);
        }
        _ => panic!("expected several paths"),
    }
}

#[test]
fn extensions_of_names() {
    assert_eq!(extension("a.tar.gz").as_deref(), Some("gz"));
    assert_eq!(extension(".bashrc"), None);
    assert_eq!(extension(".."), None);
    assert_eq!(extension("Makefile"), None);
    assert_eq!(extension("a.").as_deref(), Some(""));
}

fn found(name: &str, kind: EntryKind) -> FoundEntry {
    FoundEntry {
        name: name.to_string(),
        path: format!("/r/{name}"),
        relative: name.to_string(),
        kind,
        size: 3,
        modified: -1,
    }
}

#[test]
fn a_listing_says_what_is_there() {
    match list_entry(&found("a.rs", EntryKind::File), true, false) {
        ListStep::List { answer, descend } => {
            assert!(!descend);
            assert!(answer.same_as(&json(
                r#"{"name":"a.rs","path":"/r/a.rs","relativePath":"a.rs","type":"file","size":3,"extension":".rs","modifiedAt":-1}"#
            )));
            let r = finish_list("/r", vec![answer]);
            assert_eq!(r.get_u64("total"), Some(1));
            assert_eq!(text(&r, "rootPath"), "/r");
        }
        ListStep::Skip => panic!("expected an entry"),
    }
    match list_entry(&found("d.d", EntryKind::Directory), true, false) {
        ListStep::List { answer, descend } => {
            assert!(descend);
            assert!(matches!(answer.get("extension"), Some(Json::Null)));
        }
        ListStep::Skip => panic!("expected an entry"),
    }
    assert!(matches!(list_entry(&found(".x", EntryKind::File), true, false), ListStep::Skip));
    assert!(matches!(list_entry(&found(".x", EntryKind::File), true, true), ListStep::List { .. }));
    let q = parse_list(&json(r#"{"path":"/r","recursive":true}"#)).unwrap();
    assert!(q.recursive && !q.include_hidden);
    assert_eq!(parse_list(&json("{}")).unwrap_err().to_string(), "path is required");
    assert_eq!(not_a_directory("/x").to_string(), "Not a directory: /x");
}

#[test]
fn writes_are_checked_and_answered() {
    let q = parse_write(&json(r#"{"path":"/r/a","content":"é","overwrite":false}"#)).unwrap();
    assert!(q.create_dirs);
    assert!(check_write(&q, false).is_ok());
    assert_eq!(
        check_write(&q, true).unwrap_err().to_string(),
        "File exists and overwrite=false: /r/a"
    );
    let r = finish_write(&q, true);
    assert!(r.same_as(&json(
        r#"{"success":true,"path":"/r/a","bytesWritten":2,"created":true}"#
    )));
    assert_eq!(parse_write(&json("{}")).unwrap_err().to_string(), "path is required");
    assert_eq!(
        parse_write(&json(r#"{"path":"a"}"#)).unwrap_err().to_string(),
        "content is required"
    );
}

#[test]
fn deletions_are_planned() {
    let q = parse_delete(&json(r#"{"path":"/r"}"#)).unwrap();
    assert_eq!(plan_delete(&q, true, false).unwrap(), DeletePlan::File);
    assert_eq!(
        plan_delete(&q, true, true).unwrap_err().to_string(),
        "Path is a directory; pass recursive=true to delete: /r"
    );
    assert_eq!(plan_delete(&q, false, false).unwrap_err().to_string(), "Path does not exist: /r");
    let all = parse_delete(&json(r#"{"path":"/r","recursive":true,"force":true}"#)).unwrap();
    assert_eq!(plan_delete(&all, true, true).unwrap(), DeletePlan::Tree);
    assert_eq!(plan_delete(&all, false, false).unwrap(), DeletePlan::Nothing);
    assert!(finish_delete(&all, DeletePlan::Tree).same_as(&json(
        r#"{"success":true,"path":"/r","wasDirectory":true}"#
    )));
    assert_eq!(parse_delete(&json("{}")).unwrap_err().to_string(), "path is required");
}
