//! The `screenshot` tool: a page as a picture, taken by a browser without a window.
//!
//! The browser is run by the caller. Here a request is read, it is said which browser is used
//! and what it is told, and the answer is put together.
use vstd::prelude::*;

use crate::error::ErrorView;
use crate::error::ToolError;
use crate::json::build_object;
use crate::json::count_json;
use crate::json::count_to_json;
use crate::json::entry;
use crate::json::field;
use crate::json::law_object_holds;
use crate::json::members_view;
use crate::json::object_of;
use crate::json::str_to_json;
use crate::json::string_in;
use crate::json::Json;
use crate::json::JsonView;
use crate::text::decimal;
use crate::text::decimal_int;
use crate::text::decimal_of_int;
use crate::text::push_decimal;
use crate::text::same;
use crate::text::views;
use crate::tools::ast::number_or;
use crate::web::base64_text;
use crate::web::encode_base64;

verus! {

/// What is shown where no address is given.
pub open spec fn default_url() -> Seq<char> {
    "http://localhost:4567/"@
}

/// The width of a picture where none is given.
pub const DEFAULT_WIDTH: u64 = 1920;

/// The height of a picture where none is given.
pub const DEFAULT_HEIGHT: u64 = 1080;

/// The picture that is asked for.
#[derive(Debug)]
pub struct ShotRequest {
    /// The address of the page.
    pub url: String,
    /// Where the picture is written.
    pub output: String,
    /// Its width.
    pub width: u64,
    /// Its height.
    pub height: u64,
}

/// A text that is asked for, or what it is where it is not.
pub open spec fn text_or(v: Option<JsonView>, otherwise: Seq<char>) -> Seq<char> {
    match string_in(v) {
        Some(s) => s,
        None => otherwise,
    }
}

pub(crate) fn member_text(input: &Json, name: &str, otherwise: &str) -> (r: String)
    ensures
        r@ == text_or(field(input@, name@), otherwise@),
{
    match input.get_str(name) {
        Some(s) => s.clone(),
        None => String::from_str(otherwise),
    }
}

pub(crate) fn member_count(input: &Json, name: &str, otherwise: u64) -> (r: u64)
    ensures
        r as nat == number_or(field(input@, name@), otherwise as nat),
{
    match input.get_u64(name) {
        Some(n) => n,
        None => otherwise,
    }
}

/// Reads which picture is asked for.
pub fn parse_shot(input: &Json) -> (r: ShotRequest)
    ensures
        r.url@ == text_or(field(input@, "url"@), default_url()),
        r.output@ == text_or(field(input@, "output"@), "/tmp/latte-screenshot.png"@),
        r.width as nat == number_or(field(input@, "width"@), DEFAULT_WIDTH as nat),
        r.height as nat == number_or(field(input@, "height"@), DEFAULT_HEIGHT as nat),
{
    ShotRequest {
        url: member_text(input, "url", "http://localhost:4567/"),
        output: member_text(input, "output", "/tmp/latte-screenshot.png"),
        width: member_count(input, "width", DEFAULT_WIDTH),
        height: member_count(input, "height", DEFAULT_HEIGHT),
    }
}

/// Where a browser may be installed.
pub open spec fn chrome_places() -> Seq<Seq<char>> {
    seq![
        "/usr/bin/google-chrome"@,
        "/usr/bin/google-chrome-stable"@,
        "/usr/bin/chromium-browser"@,
        "/usr/bin/chromium"@,
        "/snap/bin/chromium"@,
    ]
}

/// Where a browser may be installed.
pub fn chrome_paths() -> (r: Vec<String>)
    ensures
        views(r@) == chrome_places(),
{
    let mut r: Vec<String> = Vec::new();
    r.push(String::from_str("/usr/bin/google-chrome"));
    r.push(String::from_str("/usr/bin/google-chrome-stable"));
    r.push(String::from_str("/usr/bin/chromium-browser"));
    r.push(String::from_str("/usr/bin/chromium"));
    r.push(String::from_str("/snap/bin/chromium"));
    assert(views(r@) =~= chrome_places());
    r
}

/// The files among which a browser of Playwright is, in this home directory.
pub fn bundled_pattern(home: &str) -> (r: String)
    ensures
        r@ == home@ + "/.cache/ms-playwright/chromium-*/chrome-linux/chrome"@,
{
    let mut r = String::from_str(home);
    r.append("/.cache/ms-playwright/chromium-*/chrome-linux/chrome");
    r
}

/// Picks the browser: what the operator set, else the first that is installed, else one of
/// Playwright.
pub fn resolve_chrome(set: Option<&str>, installed: &Vec<String>, bundled: &Vec<String>) -> (r:
    Result<String, ToolError>)
    ensures
        ({
            let given = match set {
                Some(s) => s@ != ""@,
                None => false,
            };
            match r {
                Ok(path) => if given {
                    path@ == set->0@
                } else if installed@.len() > 0 {
                    path@ == installed@[0]@
                } else {
                    bundled@.len() > 0 && path@ == bundled@[0]@
                },
                Err(e) => !given && installed@.len() == 0 && bundled@.len() == 0 && e@
                    == ErrorView::Other(
                    "no chromium/chrome found; install chromium or set LATTE_AGENT_CHROME"@,
                ),
            }
        }),
{
    match set {
        Some(s) => {
            if !same(s, "") {
                return Ok(String::from_str(s));
            }
        },
        None => {},
    }
    if installed.len() > 0 {
        Ok(installed[0].clone())
    } else if bundled.len() > 0 {
        Ok(bundled[0].clone())
    } else {
        Err(
            ToolError::other(
                "no chromium/chrome found; install chromium or set LATTE_AGENT_CHROME",
            ),
        )
    }
}

/// The size of the picture, as the browser is told it.
pub open spec fn window_word(width: nat, height: nat) -> Seq<char> {
    "--window-size="@ + decimal(width) + ","@ + decimal(height)
}

pub(crate) fn window_size(width: u64, height: u64) -> (r: String)
    ensures
        r@ == window_word(width as nat, height as nat),
{
    let mut r = String::from_str("--window-size=");
    push_decimal(&mut r, width);
    r.append(",");
    push_decimal(&mut r, height);
    r
}

pub(crate) fn output_word(path: &str) -> (r: String)
    ensures
        r@ == "--screenshot="@ + path@,
{
    let mut r = String::from_str("--screenshot=");
    r.append(path);
    r
}

/// What the browser is told.
pub open spec fn shot_words(url: Seq<char>, output: Seq<char>, width: nat, height: nat) -> Seq<
    Seq<char>,
> {
    seq![
        "--headless"@,
        "--disable-gpu"@,
        "--no-sandbox"@,
        "--disable-dev-shm-usage"@,
        "--disable-software-rasterizer"@,
        "--screenshot="@ + output,
        window_word(width, height),
        url,
    ]
}

/// What the browser is told.
pub fn shot_args(q: &ShotRequest) -> (r: Vec<String>)
    ensures
        views(r@) == shot_words(q.url@, q.output@, q.width as nat, q.height as nat),
{
    let mut r: Vec<String> = Vec::new();
    r.push(String::from_str("--headless"));
    r.push(String::from_str("--disable-gpu"));
    r.push(String::from_str("--no-sandbox"));
    r.push(String::from_str("--disable-dev-shm-usage"));
    r.push(String::from_str("--disable-software-rasterizer"));
    r.push(output_word(q.output.as_str()));
    r.push(window_size(q.width, q.height));
    r.push(q.url.clone());
    assert(views(r@) =~= shot_words(q.url@, q.output@, q.width as nat, q.height as nat));
    r
}

/// A code of exit, as it is shown.
pub open spec fn code_text(code: Option<i32>) -> Seq<char> {
    match code {
        Some(c) => "Some("@ + decimal_int(c as int) + ")"@,
        None => "None"@,
    }
}

/// Checks how the browser ended. `said` is what stands before its code of exit.
pub fn judge_browser(success: bool, code: Option<i32>, said: &str) -> (r: Result<(), ToolError>)
    ensures
        match r {
            Ok(_) => success,
            Err(e) => !success && e@ == ErrorView::Other(said@ + code_text(code)),
        },
{
    if success {
        return Ok(());
    }
    let mut m = String::from_str(said);
    match code {
        Some(c) => {
            m.append("Some(");
            m.append(decimal_of_int(c as i64).as_str());
            m.append(")");
        },
        None => {
            m.append("None");
        },
    }
    assert(m@ =~= said@ + code_text(code));
    Err(ToolError::other(m.as_str()))
}

/// What is said of a picture, given its bytes in base64.
pub open spec fn shot_answer(q: ShotRequest, size: nat, encoded: Seq<char>) -> JsonView {
    JsonView::Object(
        object_of(
            seq![
                ("path"@, JsonView::String(q.output@)),
                ("size_bytes"@, count_json(size)),
                ("data_uri"@, JsonView::String("data:image/png;base64,"@ + encoded)),
                ("width"@, count_json(q.width as nat)),
                ("height"@, count_json(q.height as nat)),
                ("format"@, JsonView::String("png"@)),
            ],
        ),
    )
}

/// Says of a picture what there is to say, given its length and its bytes in base64.
pub fn describe_shot(q: &ShotRequest, size: u64, encoded: &str) -> (r: Json)
    ensures
        r@ == shot_answer(*q, size as nat, encoded@),
{
    let mut uri = String::from_str("data:image/png;base64,");
    uri.append(encoded);
    let mut pairs: Vec<(String, Json)> = Vec::new();
    pairs.push(entry("path", str_to_json(q.output.as_str())));
    pairs.push(entry("size_bytes", count_to_json(size)));
    pairs.push(entry("data_uri", Json::String(uri)));
    pairs.push(entry("width", count_to_json(q.width)));
    pairs.push(entry("height", count_to_json(q.height)));
    pairs.push(entry("format", str_to_json("png")));
    assert(members_view(pairs@) =~= seq![
        ("path"@, JsonView::String(q.output@)),
        ("size_bytes"@, count_json(size as nat)),
        ("data_uri"@, JsonView::String("data:image/png;base64,"@ + encoded@)),
        ("width"@, count_json(q.width as nat)),
        ("height"@, count_json(q.height as nat)),
        ("format"@, JsonView::String("png"@)),
    ]);
    build_object(pairs)
}

/// Answers with a picture, given its bytes.
pub fn finish_shot(q: &ShotRequest, image: &Vec<u8>) -> (r: Json)
    ensures
        r@ == shot_answer(*q, image@.len(), base64_text(image@)),
{
    let encoded = encode_base64(image);
    describe_shot(q, image.len() as u64, encoded.as_str())
}

/// What is said of a picture of a page.
pub proof fn law_shot_answer(q: ShotRequest, size: nat, encoded: Seq<char>)
    ensures
        field(shot_answer(q, size, encoded), "path"@) == Some(JsonView::String(q.output@)),
        field(shot_answer(q, size, encoded), "size_bytes"@) == Some(count_json(size)),
        field(shot_answer(q, size, encoded), "data_uri"@) == Some(
            JsonView::String("data:image/png;base64,"@ + encoded),
        ),
        field(shot_answer(q, size, encoded), "width"@) == Some(count_json(q.width as nat)),
        field(shot_answer(q, size, encoded), "height"@) == Some(count_json(q.height as nat)),
        field(shot_answer(q, size, encoded), "format"@) == Some(JsonView::String("png"@)),
{
    let pairs = seq![
        ("path"@, JsonView::String(q.output@)),
        ("size_bytes"@, count_json(size)),
        ("data_uri"@, JsonView::String("data:image/png;base64,"@ + encoded)),
        ("width"@, count_json(q.width as nat)),
        ("height"@, count_json(q.height as nat)),
        ("format"@, JsonView::String("png"@)),
    ];
    reveal_strlit("path");
    reveal_strlit("size_bytes");
    reveal_strlit("data_uri");
    reveal_strlit("width");
    reveal_strlit("height");
    reveal_strlit("format");
    assert("path"@.len() == 4);
    assert("size_bytes"@.len() == 10);
    assert("data_uri"@.len() == 8);
    assert("width"@.len() == 5);
    assert("height"@.len() == 6);
    assert("format"@.len() == 6);
    assert("height"@[0] != "format"@[0]);
    law_object_holds(pairs, 0, "path"@);
    law_object_holds(pairs, 1, "size_bytes"@);
    law_object_holds(pairs, 2, "data_uri"@);
    law_object_holds(pairs, 3, "width"@);
    law_object_holds(pairs, 4, "height"@);
    law_object_holds(pairs, 5, "format"@);
}

/// The window is as wide and as high as asked for, the picture goes where it is asked for, and the
/// page comes last.
pub proof fn law_shot_words(url: Seq<char>, output: Seq<char>, width: nat, height: nat)
    ensures
        shot_words(url, output, width, height).last() == url,
        shot_words(url, output, width, height).contains("--screenshot="@ + output),
        shot_words(url, output, width, height).contains(
            "--window-size="@ + decimal(width) + ","@ + decimal(height),
        ),
        shot_words(url, output, width, height).contains("--headless"@),
{
    let w = shot_words(url, output, width, height);
    assert(w[0] == "--headless"@);
    assert(w[5] == "--screenshot="@ + output);
    assert(w[6] == "--window-size="@ + decimal(width) + ","@ + decimal(height));
}

/// A member is what the input says, and what is taken otherwise where it says no text.
pub proof fn law_text_or(v: Option<JsonView>, s: Seq<char>, otherwise: Seq<char>)
    ensures
        text_or(Some(JsonView::String(s)), otherwise) == s,
        text_or(None, otherwise) == otherwise,
{
}

} // verus!
