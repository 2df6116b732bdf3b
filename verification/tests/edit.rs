//! The `edit` tool.
use latte_rs_agent_tools::json::Json;
use latte_rs_agent_tools::tools::edit::content_tag;
use latte_rs_agent_tools::tools::edit::edit_path;
use latte_rs_agent_tools::tools::edit::find_block;
use latte_rs_agent_tools::tools::edit::join_lines;
use latte_rs_agent_tools::tools::edit::locate_block_sloppy;
use latte_rs_agent_tools::tools::edit::run_edit;
use latte_rs_agent_tools::tools::edit::split_content;
use latte_rs_agent_tools::tools::edit::EditOutcome;
use latte_rs_agent_tools::tools::edit::LineNorm;

fn json(text: &str) -> Json {
    Json::parse(text).unwrap()
}

fn edit(content: &str, ops: &str) -> EditOutcome {
    let input = json(&format!("{{\"path\":\"test.txt\",\"ops\":{ops}}}"));
    run_edit(content, &input).unwrap()
}

fn refused(content: &str, input: &str) -> String {
    run_edit(content, &json(input)).unwrap_err().to_string()
}

#[test]
fn test_edit_replace_single_line() {
    let r = edit("line1\nline2\nline3\n", r#"[{"start_line":2,"end_line":2,"new_content":"replaced"}]"#);
    assert_eq!(r.content, "line1\nreplaced\nline3\n");
    assert_eq!(r.changes.len(), 1);
}

#[test]
fn test_edit_delete_lines() {
    let r = edit("keep1\nremove\nremove\nkeep2\n", r#"[{"start_line":2,"end_line":3,"delete":true}]"#);
    assert_eq!(r.content, "keep1\nkeep2\n");
}

#[test]
fn test_edit_insert_after() {
    let r = edit("hello\nworld\n", r#"[{"start_line":1,"new_content":"inserted","insert_after":true}]"#);
    assert_eq!(r.content, "hello\ninserted\nworld\n");
}

#[test]
fn test_edit_text_replace() {
    let r = edit("fn old_name() {}\n", r#"[{"old_text":"old_name","new_text":"new_name"}]"#);
    assert_eq!(r.content, "fn new_name() {}\n");
}

#[test]
fn text_delete_preserves_unrelated_blank_lines() {
    let r = edit("a\n\nb\nDROP_ME\n\nc\n", r#"[{"old_text":"DROP_ME\n","delete":true}]"#);
    assert_eq!(r.content, "a\n\nb\n\nc\n");
}

#[test]
fn matching_tag_is_accepted_and_new_tag_returned() {
    let tag = content_tag("line1\nline2\n");
    let input = json(&format!(
        "{{\"path\":\"p\",\"tag\":\"{tag}\",\"ops\":[{{\"start_line\":1,\"end_line\":1,\"new_content\":\"L1\"}}]}}"
    ));
    let r = run_edit("line1\nline2\n", &input).unwrap();
    assert_eq!(r.tag, content_tag("L1\nline2\n"));
    assert_eq!(r.content, "L1\nline2\n");
}

#[test]
fn stale_tag_is_rejected_without_writing() {
    let msg = refused("current\n", r#"{"path":"p","tag":"0000","ops":[{"start_line":1,"new_content":"X"}]}"#);
    assert!(msg.contains("stale tag"), "{msg}");
}

#[test]
fn expect_relocates_when_line_number_is_slightly_off() {
    let r = edit(
        "h1\nh2\nh3\ntarget_line\ntail\n",
        r#"[{"start_line":2,"end_line":2,"expect":"target_line","new_content":"FIXED"}]"#,
    );
    assert_eq!(r.content, "h1\nh2\nh3\nFIXED\ntail\n");
    assert!(r.warnings[0].contains("行号自愈"), "{:?}", r.warnings);
}

#[test]
fn expect_mismatch_without_candidate_is_rejected() {
    let msg = refused("a\nb\nc\n", r#"{"path":"p","ops":[{"start_line":1,"expect":"not_in_file","new_content":"X"}]}"#);
    assert!(msg.contains("expect"), "{msg}");
}

#[test]
fn expect_ambiguous_match_is_rejected() {
    let msg = refused("dup\nx\ndup\n", r#"{"path":"p","ops":[{"start_line":2,"expect":"dup","new_content":"X"}]}"#);
    assert!(msg.contains("歧义"), "{msg}");
}

#[test]
fn old_text_recovers_from_indentation_slip() {
    let r = edit(
        "fn main() {\n    let x = 1;\n    let y = 2;\n}\n",
        r#"[{"old_text":"let x = 1;\nlet y = 2;","new_text":"    let z = 3;"}]"#,
    );
    assert_eq!(r.content, "fn main() {\n    let z = 3;\n}\n");
    assert!(r.warnings[0].contains("宽松匹配"), "{:?}", r.warnings);
    assert!(r.warnings[0].contains("忽略缩进"), "{:?}", r.warnings);
}

#[test]
fn old_text_recovers_from_trailing_whitespace_slip() {
    let r = edit("head\nalpha   \nbeta\ntail\n", r#"[{"old_text":"alpha\nbeta","new_text":"merged"}]"#);
    assert_eq!(r.content, "head\nmerged\ntail\n");
    assert!(r.warnings[0].contains("忽略行尾空白"), "{:?}", r.warnings);
}

#[test]
fn sloppy_ambiguous_old_text_is_rejected() {
    let msg = refused(
        "  alpha\n  beta\nmid\n    alpha\n    beta\n",
        r#"{"path":"p","ops":[{"old_text":"alpha\nbeta","new_text":"x"}]}"#,
    );
    assert!(msg.contains("歧义"), "{msg}");
}

#[test]
fn old_text_absent_still_errors() {
    let msg = refused("alpha\n", r#"{"path":"p","ops":[{"old_text":"omega","new_text":"x"}]}"#);
    assert!(msg.contains("old_text not found"), "{msg}");
}

#[test]
fn exact_match_emits_no_warnings() {
    let r = edit("keep\nexact\n", r#"[{"old_text":"exact","new_text":"done"}]"#);
    assert!(r.warnings.is_empty());
}

#[test]
fn exact_multi_occurrence_requires_explicit_all() {
    let original = "let x = f(1);\nlet y = f(1);\n";
    let msg = refused(original, r#"{"path":"p","ops":[{"old_text":"f(1)","new_text":"f(2)"}]}"#);
    assert!(msg.contains("出现 2 次"), "{msg}");
    let r = edit(original, r#"[{"old_text":"f(1)","new_text":"f(2)","all":true}]"#);
    assert_eq!(r.content, "let x = f(2);\nlet y = f(2);\n");
    assert!(r.warnings.iter().any(|w| w.contains("2 处")), "{:?}", r.warnings);
}

#[test]
fn exact_single_occurrence_still_works_without_all() {
    let r = edit("only_one_here\n", r#"[{"old_text":"only_one_here","new_text":"done"}]"#);
    assert_eq!(r.content, "done\n");
    assert!(r.warnings.is_empty());
}

#[test]
fn insert_preserves_blank_lines_in_new_content() {
    let r = edit(
        "head\ntail\n",
        r#"[{"start_line":1,"insert_after":true,"new_content":"fn a() {}\n\nfn b() {}"}]"#,
    );
    assert_eq!(r.content, "head\nfn a() {}\n\nfn b() {}\ntail\n");
}

#[test]
fn insert_trailing_newline_does_not_add_blank_line() {
    let r = edit("a\nb\n", r#"[{"start_line":1,"insert_after":true,"new_content":"mid\n"}]"#);
    assert_eq!(r.content, "a\nmid\nb\n");
}

#[test]
fn insert_before_puts_lines_in_front() {
    let r = edit("a\nb\n", r#"[{"start_line":2,"insert_before":true,"new_content":"mid"}]"#);
    assert_eq!(r.content, "a\nmid\nb\n");
}

#[test]
fn tags_fold_the_hash_of_the_text() {
    assert_eq!(content_tag(""), "F011");
    assert_eq!(content_tag("a"), "19A2");
    assert_eq!(content_tag("foobar"), "5434");
    assert_eq!(content_tag("a\rb\r"), content_tag("a\nb\n"));
}

fn lines(texts: &[&str]) -> Vec<Vec<char>> {
    texts.iter().map(|t| t.chars().collect()).collect()
}

#[test]
fn the_strictest_comparison_decides() {
    let text = lines(&["x ", "x", " y", "y", " z", "  z"]);
    assert_eq!(find_block(&text, &lines(&["x"]), LineNorm::TrailingWs), vec![0, 1]);
    assert_eq!(locate_block_sloppy(&text, &lines(&["x"]), "b").unwrap().0, 1);
    assert_eq!(locate_block_sloppy(&text, &lines(&["y "]), "b").unwrap().0, 3);
    assert_eq!(locate_block_sloppy(&text, &lines(&["x", "y"]), "b").unwrap().0, 1);
    assert!(locate_block_sloppy(&text, &lines(&["z"]), "b").unwrap_err().contains("2"));
    assert!(locate_block_sloppy(&text, &lines(&["w"]), "b").is_err());
}

#[test]
fn texts_come_back_from_their_lines() {
    for text in ["", "\n", "a", "a\n", "a\n\nb", "a\nb\n\n"] {
        let (parts, newline) = split_content(text);
        assert_eq!(newline, text.ends_with('\n'));
        assert!(parts.iter().all(|l| !l.contains(&'\n')));
        assert_eq!(join_lines(&parts, newline), text);
    }
}

#[test]
fn tag_is_stable_and_newline_normalized() {
    assert_eq!(content_tag("a\nb\n"), content_tag("a\r\nb\r\n"), "CRLF 不应改变 tag");
    assert_eq!(content_tag("x"), content_tag("x"), "同内容 tag 必须稳定");
    assert_ne!(content_tag("x"), content_tag("y"));
    assert_eq!(content_tag("x").len(), 4, "tag 是 4 位十六进制");
    assert!(content_tag("x").chars().all(|c| c.is_ascii_hexdigit() && !c.is_lowercase()));
}

#[test]
fn edit_needs_a_path() {
    assert_eq!(edit_path(&json("{}")).unwrap_err().to_string(), "path is required");
    assert_eq!(edit_path(&json(r#"{"path":"a.txt"}"#)).unwrap_err().to_string(), "ops must be an array");
    assert_eq!(edit_path(&json(r#"{"path":"a.txt","ops":[{}]}"#)).unwrap(), "a.txt");
}

#[test]
fn an_edit_is_answered() {
    let input = Json::parse(r#"{"path":"f","ops":[{"old_text":"b","new_text":"c"}]}"#).unwrap();
    let out = run_edit("a\nb\n", &input).unwrap();
    let answer = out.to_json("/tmp/f");
    assert_eq!(
        answer.to_text(),
        format!(
            r#"{{"changes":[{{"op_index":0}}],"path":"/tmp/f","success":true,"tag":"{}"}}"#,
            content_tag("a\nc\n")
        )
    );
}
