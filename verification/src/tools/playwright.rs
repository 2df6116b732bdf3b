//! The `playwright` tools: pictures of pages, and scripts.
//!
//! The programs are run by the caller.
use vstd::prelude::*;

use crate::error::ErrorView;
use crate::error::ToolError;
use crate::json::build_object;
use crate::json::count_json;
use crate::json::count_to_json;
use crate::json::entry;
use crate::json::field;
use crate::json::int_json;
use crate::json::int_to_json;
use crate::json::law_object_holds;
use crate::json::members_view;
use crate::json::object_of;
use crate::json::str_to_json;
use crate::json::string_in;
use crate::json::Json;
use crate::json::JsonView;
use crate::text::from_utf8_lossy;
use crate::text::lossy_text;
use crate::text::views;
use crate::tools::ast::number_or;
use crate::tools::screenshot::default_url;
use crate::tools::screenshot::member_count;
use crate::tools::screenshot::member_text;
use crate::tools::screenshot::output_word;
use crate::tools::screenshot::text_or;
use crate::tools::screenshot::window_size;
use crate::tools::screenshot::window_word;
use crate::tools::screenshot::DEFAULT_HEIGHT;
use crate::tools::screenshot::DEFAULT_WIDTH;
use crate::tools::screenshot::ShotRequest;

verus! {

/// Where the picture is written.
pub open spec fn picture_path() -> Seq<char> {
    "/tmp/latte-screenshot.png"@
}

/// Reads which picture is asked for.
pub fn parse_picture(input: &Json) -> (r: ShotRequest)
    ensures
        r.url@ == text_or(field(input@, "url"@), default_url()),
        r.output@ == picture_path(),
        r.width as nat == number_or(field(input@, "width"@), DEFAULT_WIDTH as nat),
        r.height as nat == number_or(field(input@, "height"@), DEFAULT_HEIGHT as nat),
{
    ShotRequest {
        url: member_text(input, "url", "http://localhost:4567/"),
        output: String::from_str("/tmp/latte-screenshot.png"),
        width: member_count(input, "width", DEFAULT_WIDTH),
        height: member_count(input, "height", DEFAULT_HEIGHT),
    }
}

/// Where a browser may be installed.
pub fn chromium_paths() -> (r: Vec<String>)
    ensures
        views(r@) == seq![
            "/usr/bin/google-chrome"@,
            "/usr/bin/chromium-browser"@,
            "/usr/bin/chromium"@,
        ],
{
    let mut r: Vec<String> = Vec::new();
    r.push(String::from_str("/usr/bin/google-chrome"));
    r.push(String::from_str("/usr/bin/chromium-browser"));
    r.push(String::from_str("/usr/bin/chromium"));
    assert(views(r@) =~= seq![
        "/usr/bin/google-chrome"@,
        "/usr/bin/chromium-browser"@,
        "/usr/bin/chromium"@,
    ]);
    r
}

/// Picks the first browser that is installed.
pub fn pick_chromium(installed: &Vec<String>) -> (r: Result<String, ToolError>)
    ensures
        match r {
            Ok(path) => installed@.len() > 0 && path@ == installed@[0]@,
            Err(e) => installed@.len() == 0 && e@ == ErrorView::Other(
                "no chromium found; install chromium-browser"@,
            ),
        },
{
    if installed.len() > 0 {
        Ok(installed[0].clone())
    } else {
        Err(ToolError::other("no chromium found; install chromium-browser"))
    }
}

/// What the browser is told.
pub open spec fn picture_words(q: ShotRequest) -> Seq<Seq<char>> {
    seq![
        "--headless"@,
        "--disable-gpu"@,
        "--no-sandbox"@,
        "--disable-dev-shm-usage"@,
        "--screenshot="@ + q.output@,
        window_word(q.width as nat, q.height as nat),
        "--hide-scrollbars"@,
        q.url@,
    ]
}

/// What the browser is told.
pub fn picture_args(q: &ShotRequest) -> (r: Vec<String>)
    ensures
        views(r@) == picture_words(*q),
{
    let mut r: Vec<String> = Vec::new();
    r.push(String::from_str("--headless"));
    r.push(String::from_str("--disable-gpu"));
    r.push(String::from_str("--no-sandbox"));
    r.push(String::from_str("--disable-dev-shm-usage"));
    r.push(output_word(q.output.as_str()));
    r.push(window_size(q.width, q.height));
    r.push(String::from_str("--hide-scrollbars"));
    r.push(q.url.clone());
    assert(views(r@) =~= picture_words(*q));
    r
}

/// A digit of a number to the base 16.
pub open spec fn hex_digit(n: int) -> char {
    "0123456789abcdef"@[n]
}

/// Bytes to the base 16, two digits each.
pub open spec fn hex_text(bytes: Seq<u8>) -> Seq<char> {
    Seq::new(
        2 * bytes.len(),
        |i: int|
            if i % 2 == 0 {
                hex_digit(bytes[i / 2] as int / 16)
            } else {
                hex_digit(bytes[i / 2] as int % 16)
            },
    )
}

/// Bytes to the base 16, two digits each.
pub fn encode_hex(bytes: &[u8]) -> (r: String)
    ensures
        r@ == hex_text(bytes@),
{
    let digits = ['0', '1', '2', '3', '4', '5', '6', '7', '8', '9', 'a', 'b', 'c', 'd', 'e', 'f'];
    proof {
        reveal_strlit("0123456789abcdef");
    }
    assert(digits@ =~= "0123456789abcdef"@);
    let mut r = String::new();
    let n = bytes.len();
    let mut i: usize = 0;
    while i < n
        invariant
            i <= n,
            n == bytes@.len(),
            digits@ == "0123456789abcdef"@,
            r@.len() == 2 * i,
            forall|k: int| 0 <= k < 2 * i ==> #[trigger] r@[k] == hex_text(bytes@)[k],
        decreases n - i,
    {
        let b = bytes[i];
        let high = digits[(b / 16) as usize];
        let low = digits[(b % 16) as usize];
        let ghost before = r@;
        r.push(high);
        r.push(low);
        proof {
            assert((2 * i) / 2 == i && (2 * i) % 2 == 0);
            assert((2 * i + 1) / 2 == i && (2 * i + 1) % 2 == 1);
            assert(r@ =~= before.push(high).push(low));
        }
        i = i + 1;
    }
    assert(r@ =~= hex_text(bytes@));
    r
}

/// What is said of a picture.
pub open spec fn picture_answer(q: ShotRequest, image: Seq<u8>) -> JsonView {
    JsonView::Object(
        object_of(
            seq![
                ("path"@, JsonView::String(q.output@)),
                ("size_bytes"@, count_json(image.len())),
                ("width"@, count_json(q.width as nat)),
                ("height"@, count_json(q.height as nat)),
                ("hex_data"@, JsonView::String(hex_text(image))),
            ],
        ),
    )
}

/// Answers with a picture, given its bytes.
pub fn finish_picture(q: &ShotRequest, image: &Vec<u8>) -> (r: Json)
    ensures
        r@ == picture_answer(*q, image@),
{
    let encoded = encode_hex(image);
    let mut pairs: Vec<(String, Json)> = Vec::new();
    pairs.push(entry("path", str_to_json(q.output.as_str())));
    pairs.push(entry("size_bytes", count_to_json(image.len() as u64)));
    pairs.push(entry("width", count_to_json(q.width)));
    pairs.push(entry("height", count_to_json(q.height)));
    pairs.push(entry("hex_data", Json::String(encoded)));
    assert(members_view(pairs@) =~= seq![
        ("path"@, JsonView::String(q.output@)),
        ("size_bytes"@, count_json(image@.len())),
        ("width"@, count_json(q.width as nat)),
        ("height"@, count_json(q.height as nat)),
        ("hex_data"@, JsonView::String(hex_text(image@))),
    ]);
    build_object(pairs)
}

/// Reads the script that is to be run.
pub fn parse_script(input: &Json) -> (r: Result<String, ToolError>)
    ensures
        match string_in(field(input@, "script"@)) {
            Some(s) => r matches Ok(v) && v@ == s,
            None => r matches Err(e) && e@ == ErrorView::Other("script required"@),
        },
{
    match input.get_str("script") {
        Some(s) => Ok(s.clone()),
        None => Err(ToolError::other("script required")),
    }
}

/// The code of exit of a script; -1 where it has none.
pub open spec fn script_code(code: Option<i32>) -> int {
    match code {
        Some(c) => c as int,
        None => -1,
    }
}

/// What is said of a script that was run.
pub open spec fn script_answer(stdout: Seq<char>, stderr: Seq<char>, code: Option<i32>) -> JsonView {
    JsonView::Object(
        object_of(
            seq![
                ("stdout"@, JsonView::String(stdout)),
                ("stderr"@, JsonView::String(stderr)),
                ("exit_code"@, int_json(script_code(code))),
            ],
        ),
    )
}

/// Answers for a script, given its output.
pub fn describe_script(stdout: &str, stderr: &str, code: Option<i32>) -> (r: Json)
    ensures
        r@ == script_answer(stdout@, stderr@, code),
{
    let c: i64 = match code {
        Some(c) => c as i64,
        None => -1,
    };
    let mut pairs: Vec<(String, Json)> = Vec::new();
    pairs.push(entry("stdout", str_to_json(stdout)));
    pairs.push(entry("stderr", str_to_json(stderr)));
    pairs.push(entry("exit_code", int_to_json(c)));
    assert(members_view(pairs@) =~= seq![
        ("stdout"@, JsonView::String(stdout@)),
        ("stderr"@, JsonView::String(stderr@)),
        ("exit_code"@, int_json(script_code(code))),
    ]);
    build_object(pairs)
}

/// Answers for a script, given the bytes of its output.
pub fn finish_script(stdout: &[u8], stderr: &[u8], code: Option<i32>) -> (r: Json)
    ensures
        r@ == script_answer(lossy_text(stdout@), lossy_text(stderr@), code),
{
    let out = from_utf8_lossy(stdout);
    let err = from_utf8_lossy(stderr);
    describe_script(out.as_str(), err.as_str(), code)
}

/// Bytes are written with two digits each, the high one first.
pub proof fn law_hex(bytes: Seq<u8>, b: u8)
    ensures
        hex_text(Seq::empty()).len() == 0,
        hex_text(bytes.push(b)) == hex_text(bytes) + seq![
            "0123456789abcdef"@[b as int / 16],
            "0123456789abcdef"@[b as int % 16],
        ],
{
    let n = bytes.len() as int;
    let t = hex_text(bytes.push(b));
    let u = hex_text(bytes) + seq![
        "0123456789abcdef"@[b as int / 16],
        "0123456789abcdef"@[b as int % 16],
    ];
    assert forall|i: int| 0 <= i < t.len() implies t[i] == u[i] by {
        if i < 2 * n {
            assert(i / 2 < n);
            assert(bytes.push(b)[i / 2] == bytes[i / 2]);
        } else {
            assert(i / 2 == n);
            assert(bytes.push(b)[i / 2] == b);
        }
    }
    assert(t =~= u);
}

/// What is said of a picture.
pub proof fn law_picture_answer(q: ShotRequest, image: Seq<u8>)
    ensures
        field(picture_answer(q, image), "path"@) == Some(JsonView::String(q.output@)),
        field(picture_answer(q, image), "size_bytes"@) == Some(count_json(image.len())),
        field(picture_answer(q, image), "width"@) == Some(count_json(q.width as nat)),
        field(picture_answer(q, image), "height"@) == Some(count_json(q.height as nat)),
        field(picture_answer(q, image), "hex_data"@) == Some(JsonView::String(hex_text(image))),
{
    let pairs = seq![
        ("path"@, JsonView::String(q.output@)),
        ("size_bytes"@, count_json(image.len())),
        ("width"@, count_json(q.width as nat)),
        ("height"@, count_json(q.height as nat)),
        ("hex_data"@, JsonView::String(hex_text(image))),
    ];
    reveal_strlit("path");
    reveal_strlit("size_bytes");
    reveal_strlit("width");
    reveal_strlit("height");
    reveal_strlit("hex_data");
    assert("path"@.len() == 4);
    assert("size_bytes"@.len() == 10);
    assert("width"@.len() == 5);
    assert("height"@.len() == 6);
    assert("hex_data"@.len() == 8);
    law_object_holds(pairs, 0, "path"@);
    law_object_holds(pairs, 1, "size_bytes"@);
    law_object_holds(pairs, 2, "width"@);
    law_object_holds(pairs, 3, "height"@);
    law_object_holds(pairs, 4, "hex_data"@);
}

/// What is said of a script; where it has no exit code, -1 is told.
pub proof fn law_script_answer(stdout: Seq<char>, stderr: Seq<char>, code: Option<i32>)
    ensures
        field(script_answer(stdout, stderr, code), "stdout"@) == Some(JsonView::String(stdout)),
        field(script_answer(stdout, stderr, code), "stderr"@) == Some(JsonView::String(stderr)),
        field(script_answer(stdout, stderr, code), "exit_code"@) == match code {
            Some(c) => Some(int_json(c as int)),
            None => Some(int_json(-1)),
        },
{
    let pairs = seq![
        ("stdout"@, JsonView::String(stdout)),
        ("stderr"@, JsonView::String(stderr)),
        ("exit_code"@, int_json(script_code(code))),
    ];
    reveal_strlit("stdout");
    reveal_strlit("stderr");
    reveal_strlit("exit_code");
    assert("stdout"@.len() == 6);
    assert("stderr"@.len() == 6);
    assert("exit_code"@.len() == 9);
    assert("stdout"@[3] != "stderr"@[3]);
    law_object_holds(pairs, 0, "stdout"@);
    law_object_holds(pairs, 1, "stderr"@);
    law_object_holds(pairs, 2, "exit_code"@);
}

} // verus!
