//! Tools that run programs: shell, git, eval, browser, mcp, screenshot, playwright; and fetch.
use latte_rs_agent_tools::json::Json;
use latte_rs_agent_tools::tools::browser::not_ready;
use latte_rs_agent_tools::tools::browser::parse_browser;
use latte_rs_agent_tools::tools::browser::read_reply;
use latte_rs_agent_tools::tools::browser::request_line;
use latte_rs_agent_tools::tools::browser::says_ready;
use latte_rs_agent_tools::tools::eval::finish_once_bytes;
use latte_rs_agent_tools::tools::eval::parse_eval;
use latte_rs_agent_tools::tools::eval::plan_session;
use latte_rs_agent_tools::tools::eval::session_input;
use latte_rs_agent_tools::tools::eval::session_marker;
use latte_rs_agent_tools::tools::eval::EvalPlan;
use latte_rs_agent_tools::tools::eval::SessionOutput;
use latte_rs_agent_tools::tools::fetch::add_chunk;
use latte_rs_agent_tools::tools::fetch::finish_fetch;
use latte_rs_agent_tools::tools::fetch::parse_fetch;
use latte_rs_agent_tools::tools::fetch::validate_url;
use latte_rs_agent_tools::tools::fetch::FetchResponse;
use latte_rs_agent_tools::tools::git::add_args;
use latte_rs_agent_tools::tools::git::branch_args;
use latte_rs_agent_tools::tools::git::commit_args;
use latte_rs_agent_tools::tools::git::diff_args;
use latte_rs_agent_tools::tools::git::finish_git;
use latte_rs_agent_tools::tools::git::log_args;
use latte_rs_agent_tools::tools::git::status_args;
use latte_rs_agent_tools::tools::mcp::call_line;
use latte_rs_agent_tools::tools::mcp::find_server;
use latte_rs_agent_tools::tools::mcp::finish_call;
use latte_rs_agent_tools::tools::mcp::finish_connect;
use latte_rs_agent_tools::tools::mcp::initialize_line;
use latte_rs_agent_tools::tools::mcp::list_servers;
use latte_rs_agent_tools::tools::mcp::list_tools_line;
use latte_rs_agent_tools::tools::mcp::parse_call;
use latte_rs_agent_tools::tools::mcp::parse_connect;
use latte_rs_agent_tools::tools::playwright::encode_hex;
use latte_rs_agent_tools::tools::playwright::finish_picture;
use latte_rs_agent_tools::tools::playwright::finish_script;
use latte_rs_agent_tools::tools::playwright::parse_picture;
use latte_rs_agent_tools::tools::playwright::parse_script;
use latte_rs_agent_tools::tools::playwright::pick_chromium;
use latte_rs_agent_tools::tools::playwright::picture_args;
use latte_rs_agent_tools::tools::screenshot::bundled_pattern;
use latte_rs_agent_tools::tools::screenshot::finish_shot;
use latte_rs_agent_tools::tools::screenshot::judge_browser;
use latte_rs_agent_tools::tools::screenshot::parse_shot;
use latte_rs_agent_tools::tools::screenshot::resolve_chrome;
use latte_rs_agent_tools::tools::screenshot::shot_args;
use latte_rs_agent_tools::tools::shell::default_exec_timeout_ms;
use latte_rs_agent_tools::tools::shell::extract_cd_prefix;
use latte_rs_agent_tools::tools::shell::finish_command;
use latte_rs_agent_tools::tools::shell::finish_start;
use latte_rs_agent_tools::tools::shell::parse_exec;
use latte_rs_agent_tools::tools::shell::parse_spawn;
use latte_rs_agent_tools::tools::shell::ExecMode;
use latte_rs_agent_tools::tools::shell::JobTable;

fn json(text: &str) -> Json {
    Json::parse(text).unwrap()
}

fn same(a: &Json, text: &str) -> bool {
    a.same_as(&json(text))
}

// ---------------------------------------------------------------------------
// shell
// ---------------------------------------------------------------------------

#[test]
fn shell_requests_are_read() {
    let metadata = Some(json(r#"{"cwd":"/work"}"#));
    let q = parse_exec(
        &json(r#"{"command":"ls","timeout":5,"env":{"A":"1","B":2},"stdin":"x"}"#),
        &metadata,
        9,
    )
    .unwrap();
    assert_eq!(q.command, "ls");
    assert_eq!(q.cwd.as_deref(), Some("/work"));
    assert_eq!(q.timeout_ms, 5000);
    assert_eq!(q.env, vec![("A".to_string(), "1".to_string())]);
    assert_eq!(q.stdin.as_deref(), Some("x"));
    assert!(matches!(q.mode, ExecMode::Foreground));
    let cd = parse_exec(&json(r#"{"command":"cd /tmp && ls -l"}"#), &metadata, 9).unwrap();
    assert_eq!(cd.cwd.as_deref(), Some("/tmp"));
    assert_eq!(cd.command, "ls -l");
    assert_eq!(cd.timeout_ms, 9);
    let fault = |s: &str| parse_exec(&json(s), &None, 9).unwrap_err().to_string();
    assert_eq!(fault("{}"), "command is required");
    assert_eq!(fault(r#"{"command":"x","wait":true}"#), "jobId is required when wait=true");
    let spawn = parse_spawn(&json(r#"{"command":"cat","args":["a",1,"b"]}"#), &None).unwrap();
    assert_eq!(spawn.args, vec!["a", "b"]);
    assert_eq!(spawn.timeout_ms, 60000);
}

#[test]
fn shell_timeouts_are_in_seconds_for_the_operator() {
    assert_eq!(default_exec_timeout_ms(None), 300000);
    assert_eq!(default_exec_timeout_ms(Some("7")), 7000);
    assert_eq!(default_exec_timeout_ms(Some("soon")), 300000);
}

#[test]
fn a_leading_change_of_directory_is_taken_out() {
    assert_eq!(
        extract_cd_prefix("cd 'a b' && make"),
        Some(("a b".to_string(), "make".to_string()))
    );
    assert_eq!(extract_cd_prefix("cd $HOME && make"), None);
    assert_eq!(extract_cd_prefix("make"), None);
}

#[test]
fn jobs_are_taken_once() {
    let mut jobs = JobTable::new();
    let a = jobs.start();
    let b = jobs.start();
    assert_eq!((a.as_str(), b.as_str()), ("bg-1", "bg-2"));
    assert!(jobs.take(&a).is_ok());
    assert_eq!(jobs.take(&a).unwrap_err().to_string(), "Job not found: bg-1");
    assert!(jobs.take(&b).is_ok());
}

// ---------------------------------------------------------------------------
// git
// ---------------------------------------------------------------------------

#[test]
fn git_is_told_what_was_asked_for() {
    assert_eq!(
        status_args(&json(r#"{"short":true,"porcelain":true}"#)),
        vec!["status", "--short", "--porcelain"]
    );
    assert_eq!(
        diff_args(&json(r#"{"staged":true,"branch":"main","file":"a"}"#)),
        vec!["diff", "--staged", "main", "--", "a"]
    );
    assert_eq!(
        log_args(&json(r#"{"oneline":true,"n":5,"follow":true,"file":"a"}"#)),
        vec!["log", "--oneline", "-n", "5", "--follow", "--", "a"]
    );
    assert_eq!(branch_args(&json("{}")), vec!["branch", "-a"]);
    assert_eq!(branch_args(&json(r#"{"create":"x","delete":"y"}"#)), vec!["branch", "x"]);
    assert_eq!(
        branch_args(&json(r#"{"delete":"y","force":true}"#)),
        vec!["branch", "-d", "-D", "y"]
    );
    assert_eq!(
        commit_args(&json(r#"{"message":"m","amend":true}"#)).unwrap(),
        vec!["commit", "-m", "m", "--amend"]
    );
    assert_eq!(commit_args(&json("{}")).unwrap_err().to_string(), "message is required");
    assert_eq!(add_args(&json(r#"{"all":true}"#)), vec!["add", "-A"]);
    assert_eq!(add_args(&json(r#"{"files":["a","b"]}"#)), vec!["add", "--", "a", "b"]);
    assert_eq!(add_args(&json(r#"{"files":[]}"#)), vec!["add", "."]);
}

#[test]
fn git_failures_say_what_was_run() {
    let args = vec!["log".to_string(), "x".to_string()];
    let ok = finish_git(&args, true, b"out", b"").unwrap();
    assert!(same(&ok, "\"out\""));
    let err = finish_git(&args, false, b"", b"bad revision").unwrap_err().to_string();
    assert!(err.contains("git log x failed: bad revision"), "{err}");
}

// ---------------------------------------------------------------------------
// eval
// ---------------------------------------------------------------------------

#[test]
fn test_eval_empty_code() {
    match parse_eval(&json(r#"{"code":" "}"#), &None).unwrap() {
        EvalPlan::Answer(a) => {
            assert_eq!(a.get_bool("success"), Some(false));
            assert!(a.get_str("stderr").unwrap().contains("empty"));
        }
        EvalPlan::Run(_) => panic!("expected an answer"),
    }
    assert_eq!(parse_eval(&json("{}"), &None).unwrap_err().to_string(), "code is required");
}

#[test]
fn evaluations_are_read() {
    let metadata = Some(json(r#"{"cwd":"/w"}"#));
    match parse_eval(&json(r#"{"code":"x=1","session_id":"s","timeout":9999,"reset":true}"#), &metadata).unwrap() {
        EvalPlan::Run(q) => {
            assert_eq!(q.session_id.as_deref(), Some("s"));
            assert_eq!(q.cwd.as_deref(), Some("/w"));
            assert_eq!(q.timeout_secs, 300);
            assert!(q.reset);
        }
        EvalPlan::Answer(_) => panic!("expected a run"),
    }
}

#[test]
fn test_eval_stdout_only() {
    let r = finish_once_bytes(b"hello world\n", b"", Some(0), true);
    assert!(same(
        &r,
        r#"{"stdout":"hello world\n","stderr":"","exit_code":0,"success":true,"session_id":null}"#
    ));
}

#[test]
fn test_eval_with_error() {
    let r = finish_once_bytes(b"", b"ZeroDivisionError", Some(1), false);
    assert_eq!(r.get_bool("success"), Some(false));
    let killed = finish_once_bytes(b"", b"", None, false);
    assert!(matches!(killed.get("exit_code"), Some(Json::Null)));
}

#[test]
fn sessions_are_used_again_while_they_live() {
    let plan = plan_session(false, true, true);
    assert!(!plan.discard && !plan.create);
    let dead = plan_session(false, true, false);
    assert!(dead.discard && dead.create);
    let fresh = plan_session(false, false, false);
    assert!(!fresh.discard && fresh.create);
    let reset = plan_session(true, true, true);
    assert!(reset.discard && reset.create);
}

#[test]
fn the_output_of_a_session_is_sorted() {
    let marker = session_marker(42);
    assert_eq!(marker, "__EVAL_RESULT_MARKER_42__");
    let told = session_input(&marker, "print(\"hi\")\n");
    assert!(told.contains(r#"exec("print(\"hi\")\n")"#), "{told}");
    let mut o = SessionOutput::new();
    assert!(!o.take_line(">>>\n", &marker));
    assert!(!o.take_line("3\n", &marker));
    assert!(!o.take_line("\n", &marker));
    assert!(o.take_line(">>> __EVAL_RESULT_MARKER_42__\n", &marker));
    o.take_error("warning  \n");
    o.take_error("\n");
    let r = o.finish("s");
    assert!(same(
        &r,
        r#"{"stdout":"3","stderr":"warning","exit_code":0,"success":true,"session_id":"s"}"#
    ));
}

#[test]
fn a_session_that_says_nothing_failed() {
    let mut o = SessionOutput::new();
    o.time_out(30);
    let r = o.finish("s");
    assert_eq!(r.get_u64("exit_code"), Some(1));
    assert_eq!(
        r.get_str("stderr").unwrap(),
        "Timeout after 30 seconds\nSession output marker not found — process may have terminated."
    );
}

// ---------------------------------------------------------------------------
// browser
// ---------------------------------------------------------------------------

#[test]
fn the_browser_is_told_what_to_do() {
    let call = parse_browser(&json(r#"{"action":"open","url":"about:blank","width":800}"#)).unwrap();
    assert_eq!(call.action, "open");
    assert!(same(&call.params, r#"{"url":"about:blank","width":800}"#));
    assert_eq!(
        request_line(7, &call),
        "{\"id\":7,\"method\":\"open\",\"params\":{\"url\":\"about:blank\",\"width\":800}}\n"
    );
    assert_eq!(parse_browser(&json("{}")).unwrap_err().to_string(), "action required");
    assert_eq!(
        parse_browser(&json(r#"{"action":"fly"}"#)).unwrap_err().to_string(),
        "unknown: fly"
    );
}

#[test]
fn the_browser_is_heard() {
    assert!(same(&read_reply(r#"{"id":1,"result":{"value":3}}"#).unwrap(), r#"{"value":3}"#));
    assert!(same(&read_reply(r#"{"id":1}"#).unwrap(), "{}"));
    assert_eq!(
        read_reply(r#"{"id":1,"error":"No page"}"#).unwrap_err().to_string(),
        "browser: No page"
    );
    assert!(read_reply("nonsense").unwrap_err().to_string().starts_with("parse: "));
    assert!(says_ready("{\"ready\":true}\n"));
    assert_eq!(not_ready(" oops \n").to_string(), "worker not ready: oops");
}

// ---------------------------------------------------------------------------
// mcp
// ---------------------------------------------------------------------------

#[test]
fn servers_are_spoken_to() {
    assert_eq!(
        initialize_line(),
        "{\"id\":1,\"jsonrpc\":\"2.0\",\"method\":\"initialize\",\"params\":{\"capabilities\":{},\"clientInfo\":{\"name\":\"latte-agent\",\"version\":\"0.1.0\"},\"protocolVersion\":\"0.1.0\"}}\n"
    );
    assert_eq!(
        list_tools_line(),
        "{\"id\":2,\"jsonrpc\":\"2.0\",\"method\":\"tools/list\",\"params\":{}}\n"
    );
    let call = parse_call(&json(r#"{"tool":"t","arguments":{"a":1}}"#)).unwrap();
    assert_eq!(
        call_line(&call),
        "{\"id\":3,\"jsonrpc\":\"2.0\",\"method\":\"tools/call\",\"params\":{\"arguments\":{\"a\":1},\"name\":\"t\"}}\n"
    );
    assert_eq!(find_server(&call, 1).unwrap(), 0);
    assert_eq!(find_server(&call, 0).unwrap_err().to_string(), "no server; use mcp_connect first");
    assert_eq!(parse_call(&json("{}")).unwrap_err().to_string(), "tool name required");
}

#[test]
fn servers_are_connected() {
    let l = parse_connect(&json(r#"{"command":"npx  -y server"}"#)).unwrap();
    assert_eq!(l.program, "npx");
    assert_eq!(l.args, vec!["-y", "server"]);
    assert_eq!(parse_connect(&json(r#"{"command":" "}"#)).unwrap().program, "npx");
    assert_eq!(parse_connect(&json("{}")).unwrap_err().to_string(), "command required");
    let r = finish_connect("c", r#"{"result":{"tools":[{"name":"t","description":"d","x":1},{}]}}"#);
    assert!(same(
        &r,
        r#"{"server":"c","tools_found":2,"tools":[{"name":"t","description":"d"},{"name":null,"description":null}],"status":"connected"}"#
    ));
    assert_eq!(finish_connect("c", "?").get_u64("tools_found"), Some(0));
    assert!(same(
        &list_servers(&vec!["c".to_string()]),
        r#"{"servers":[{"server":"c"}],"count":1}"#
    ));
}

#[test]
fn answers_of_servers_are_read() {
    assert!(same(&finish_call(r#"{"result":[1]}"#), "[1]"));
    assert!(same(&finish_call(r#"{"error":1}"#), r#"{"error":1}"#));
    assert!(same(&finish_call("??"), r#"{"raw":"??"}"#));
}

// ---------------------------------------------------------------------------
// pictures
// ---------------------------------------------------------------------------

#[test]
fn pictures_are_taken_as_asked() {
    let q = parse_shot(&json(r#"{"url":"http://x/","output":"/tmp/p.png","width":640}"#));
    assert_eq!(
        shot_args(&q),
        vec![
            "--headless",
            "--disable-gpu",
            "--no-sandbox",
            "--disable-dev-shm-usage",
            "--disable-software-rasterizer",
            "--screenshot=/tmp/p.png",
            "--window-size=640,1080",
            "http://x/"
        ]
    );
    let r = finish_shot(&q, &vec![0x89, 0x50, 0x4e, 0x47]);
    assert!(same(
        &r,
        r#"{"path":"/tmp/p.png","size_bytes":4,"data_uri":"data:image/png;base64,iVBORw==","width":640,"height":1080,"format":"png"}"#
    ));
    assert_eq!(parse_shot(&json("{}")).url, "http://localhost:4567/");
}

#[test]
fn browsers_are_picked_in_order() {
    let one = vec!["/usr/bin/chromium".to_string()];
    let none: Vec<String> = vec![];
    assert_eq!(resolve_chrome(Some("/opt/c"), &one, &none).unwrap(), "/opt/c");
    assert_eq!(resolve_chrome(Some(""), &one, &none).unwrap(), "/usr/bin/chromium");
    assert_eq!(resolve_chrome(None, &none, &one).unwrap(), "/usr/bin/chromium");
    assert!(resolve_chrome(None, &none, &none).is_err());
    assert_eq!(
        bundled_pattern("/home/u"),
        "/home/u/.cache/ms-playwright/chromium-*/chrome-linux/chrome"
    );
    assert!(judge_browser(true, Some(0), "chromium exited with code ").is_ok());
    assert_eq!(
        judge_browser(false, Some(-1), "chromium exited with code ").unwrap_err().to_string(),
        "chromium exited with code Some(-1)"
    );
    assert_eq!(
        judge_browser(false, None, "chromium exited ").unwrap_err().to_string(),
        "chromium exited None"
    );
}

#[test]
fn playwright_pictures_are_written_to_the_base_sixteen() {
    assert_eq!(encode_hex(&[0x00, 0x0f, 0xa5, 0xff]), "000fa5ff");
    let q = parse_picture(&json("{}"));
    assert_eq!(picture_args(&q)[5], "--window-size=1920,1080");
    let r = finish_picture(&q, &vec![0x89]);
    assert_eq!(r.get_str("hex_data").unwrap(), "89");
    assert!(pick_chromium(&vec![]).is_err());
    assert_eq!(parse_script(&json("{}")).unwrap_err().to_string(), "script required");
    assert!(same(
        &finish_script(b"o", b"e", None),
        r#"{"stdout":"o","stderr":"e","exit_code":-1}"#
    ));
}

// ---------------------------------------------------------------------------
// fetch
// ---------------------------------------------------------------------------

fn response(status: u16, content_type: &str, body: &[u8]) -> FetchResponse {
    FetchResponse {
        final_url: "http://h/ping".to_string(),
        status,
        content_type: content_type.to_string(),
        headers: vec![],
        body: body.to_vec(),
        truncated: false,
        elapsed_ms: 1,
    }
}

#[test]
fn http_fetch_get_text() {
    let q = parse_fetch(&json(r#"{"url":"http://h/ping"}"#)).unwrap();
    assert_eq!(q.method, "GET");
    assert_eq!(q.timeout_ms, 30000);
    assert!(q.follow_redirects);
    let out = finish_fetch(&q, &response(200, "text/plain; charset=utf-8", b"hello world"));
    assert_eq!(out.get_u64("status"), Some(200));
    assert_eq!(out.get_str("statusText").unwrap(), "200 OK");
    assert_eq!(out.get_str("body").unwrap(), "hello world");
    assert_eq!(out.get_str("encoding").unwrap(), "utf-8");
    assert_eq!(out.get_u64("size"), Some(11));
    assert_eq!(out.get_bool("truncated"), Some(false));
    assert!(out.get_str("contentType").unwrap().contains("text/plain"));
}

#[test]
fn http_fetch_post_with_headers_and_body() {
    let q = parse_fetch(&json(
        r#"{"url":"http://h/echo","method":"post","headers":{"x-token":"secret","X-Other":"v=1","bad name":"x"},"body":"ping"}"#,
    ))
    .unwrap();
    assert_eq!(q.method, "POST");
    assert_eq!(q.body.as_deref(), Some("ping"));
    assert!(q.headers.contains(&("x-token".to_string(), "secret".to_string())));
    assert!(q.headers.contains(&("x-other".to_string(), "v=1".to_string())));
    assert_eq!(q.headers.len(), 2);
    assert_eq!(q.warnings.len(), 1);
}

#[test]
fn http_fetch_binary_response_is_base64() {
    let q = parse_fetch(&json(r#"{"url":"http://h/image.png"}"#)).unwrap();
    let raw = [0x89, 0x50, 0x4E, 0x47, 0x0D, 0x0A, 0x1A, 0x0A];
    let out = finish_fetch(&q, &response(200, "image/png", &raw));
    assert_eq!(out.get_str("encoding").unwrap(), "base64");
    assert_eq!(out.get_str("body").unwrap(), "iVBORw0KGgo=");
}

#[test]
fn http_fetch_truncates_when_exceeding_max_size() {
    let q = parse_fetch(&json(r#"{"url":"http://h/big","maxSize":50}"#)).unwrap();
    let mut body = Vec::new();
    assert!(!add_chunk(&mut body, &[b'A'; 30], q.max_size));
    assert!(add_chunk(&mut body, &[b'B'; 30], q.max_size));
    assert_eq!(body.len(), 50);
    assert_eq!(body[29], b'A');
    assert_eq!(body[30], b'B');
}

#[test]
fn http_fetch_rejects_non_http_scheme() {
    assert!(parse_fetch(&json(r#"{"url":"ftp://example.com/x"}"#)).is_err());
    assert!(parse_fetch(&json(r#"{"url":"nowhere"}"#)).is_err());
    assert_eq!(parse_fetch(&json("{}")).unwrap_err().to_string(), "url is required");
}

#[test]
fn http_fetch_returns_404_without_error() {
    let q = parse_fetch(&json(r#"{"url":"http://h/missing"}"#)).unwrap();
    let out = finish_fetch(&q, &response(404, "text/plain", b"not found"));
    assert_eq!(out.get_u64("status"), Some(404));
    assert_eq!(out.get_str("statusText").unwrap(), "404 Not Found");
    assert_eq!(out.get_str("body").unwrap(), "not found");
}

#[test]
fn text_that_is_no_text_falls_back_to_base64() {
    let q = parse_fetch(&json(r#"{"url":"http://h/x"}"#)).unwrap();
    let out = finish_fetch(&q, &response(200, "text/plain", &[0xff]));
    assert_eq!(out.get_str("encoding").unwrap(), "base64");
    assert_eq!(out.get_str("body").unwrap(), "/w==");
    assert_eq!(out.get_array("warnings").unwrap().len(), 1);
}

#[test]
fn commands_are_answered() {
    let ended = finish_command(b"out\n", b"\xff", Some(-1), false, Some("bg-1"));
    assert!(same(
        &ended,
        r#"{"stdout":"out\n","stderr":"�","exitCode":-1,"success":false,"jobId":"bg-1"}"#
    ));
    let killed = finish_command(b"", b"", None, false, None);
    assert!(same(&killed, r#"{"stdout":"","stderr":"","exitCode":null,"success":false}"#));
    let started = finish_start("bg-7");
    assert_eq!(started.get_str("jobId").unwrap(), "bg-7");
    assert_eq!(started.get_str("status").unwrap(), "running");
    assert_eq!(
        started.get_str("message").unwrap(),
        "Background job bg-7 started. Use shell.exec with `jobId: \"bg-7\"` and `wait: true` to get the result."
    );
}

#[test]
fn pictures_are_encoded_with_padding() {
    let q = parse_shot(&json("{}"));
    let data = |image: &[u8]| {
        finish_shot(&q, &image.to_vec()).get_str("data_uri").unwrap().clone()
    };
    assert_eq!(data(&[]), "data:image/png;base64,");
    assert_eq!(data(&[0xff]), "data:image/png;base64,/w==");
    assert_eq!(data(&[0xff, 0xfe]), "data:image/png;base64,//4=");
    assert_eq!(data(&[0xff, 0xfe, 0xfd, 0x00]), "data:image/png;base64,//79AA==");
}

#[test]
fn only_web_urls_are_fetched() {
    assert_eq!(validate_url("HTTP://Example.com").unwrap(), "http://example.com/");
    assert_eq!(
        validate_url("file:///etc/hosts").unwrap_err().to_string(),
        "unsupported url scheme: file (only http/https allowed)"
    );
    assert!(validate_url("no url").unwrap_err().to_string().starts_with("invalid url: "));
}
