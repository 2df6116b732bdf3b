//! The `fetch` tool: one HTTP request and its response.
//!
//! Sending the request is left to the caller. Here the request is read and checked, the body
//! is gathered piece by piece up to its limit, and the answer is put together.
use vstd::prelude::*;

use crate::error::ErrorView;
use crate::error::ToolError;
use crate::json::bool_in;
use crate::json::build_object;
use crate::json::count_json;
use crate::json::entry;
use crate::json::field;
use crate::json::law_object_holds;
use crate::json::lemma_object_view;
use crate::json::members_view;
use crate::json::nat_in;
use crate::json::object_of;
use crate::json::pairs_json;
use crate::json::pairs_to_json;
use crate::json::string_in;
use crate::json::texts_json;
use crate::json::texts_to_json;
use crate::json::Json;
use crate::json::JsonNumber;
use crate::json::JsonView;
use crate::text::ascii_lower;
use crate::text::ascii_upper;
use crate::text::chars_of;
use crate::text::decimal;
use crate::text::is_blank;
use crate::text::law_split_without;
use crate::text::pairs_view;
use crate::text::push_decimal;
use crate::text::same;
use crate::text::split_chars;
use crate::text::split_on;
use crate::text::string_of;
use crate::text::to_lower;
use crate::text::to_upper;
use crate::text::trim;
use crate::text::trimmed;
use crate::text::utf8_text;
use crate::text::views;
use crate::types::optional_text;
use crate::web::base64_text;
use crate::web::check_header_name;
use crate::web::check_header_value;
use crate::web::check_method;
use crate::web::encode_base64;
use crate::web::is_header_value;
use crate::web::is_token;
use crate::web::parse_url;
use crate::web::reason_of;
use crate::web::status_reason;
use crate::web::url_parsed;

verus! {

/// How long a request may take where nothing else is said, in milliseconds.
pub const DEFAULT_TIMEOUT_MS: u64 = 30_000;

/// How long a request may take at most, in milliseconds.
pub const HARD_TIMEOUT_CAP_MS: u64 = 60_000;

/// How many bytes of a body are kept where nothing else is said.
pub const DEFAULT_MAX_SIZE: u64 = 10_485_760;

/// How many bytes of a body are kept at most.
pub const HARD_MAX_SIZE_CAP: u64 = 67_108_864;

// ---------------------------------------------------------------------------
// The request
// ---------------------------------------------------------------------------

/// What is wrong with a URL, given what parsing it gave.
pub open spec fn url_fault(parsed: Result<(Seq<char>, Seq<char>), Seq<char>>) -> Option<Seq<char>> {
    match parsed {
        Err(e) => Some("invalid url: "@ + e),
        Ok((_, scheme)) => if scheme == "http"@ || scheme == "https"@ {
            None
        } else {
            Some("unsupported url scheme: "@ + scheme + " (only http/https allowed)"@)
        },
    }
}

/// The URL that may be fetched, given what parsing a text gave: any of the schemes `http` and
/// `https`, and no other.
pub fn judge_url(parsed: Result<(String, String), String>) -> (r: Result<String, ToolError>)
    ensures
        ({
            let p = match parsed {
                Ok((u, s)) => Ok((u@, s@)),
                Err(e) => Err(e@),
            };
            match r {
                Ok(u) => url_fault(p) is None && p == Ok::<_, Seq<char>>((u@, p->Ok_0.1)),
                Err(e) => url_fault(p) is Some && e@ == ErrorView::Other(url_fault(p)->0),
            }
        }),
{
    match parsed {
        Err(e) => {
            let mut m = String::from_str("invalid url: ");
            m.append(e.as_str());
            Err(ToolError::Other(m))
        },
        Ok((u, scheme)) => if same(scheme.as_str(), "http") || same(scheme.as_str(), "https") {
            Ok(u)
        } else {
            let mut m = String::from_str("unsupported url scheme: ");
            m.append(scheme.as_str());
            m.append(" (only http/https allowed)");
            Err(ToolError::Other(m))
        },
    }
}

/// Checks a URL: it has to be one, of the scheme `http` or `https`.
pub fn validate_url(url: &str) -> (r: Result<String, ToolError>)
    ensures
        match r {
            Ok(u) => url_fault(url_parsed(url@)) is None && url_parsed(url@)->Ok_0.0 == u@,
            Err(e) => url_fault(url_parsed(url@)) is Some && e@ == ErrorView::Other(
                url_fault(url_parsed(url@))->0,
            ),
        },
{
    judge_url(parse_url(url))
}

/// What is wrong with a method.
pub open spec fn method_fault(s: Seq<char>) -> Option<Seq<char>> {
    if is_token(ascii_upper(s)) {
        None
    } else {
        Some("invalid http method '"@ + s + "': "@ + "invalid HTTP method"@)
    }
}

/// A method in capitals, however it was written.
pub fn parse_method(s: &str) -> (r: Result<String, ToolError>)
    ensures
        match r {
            Ok(m) => method_fault(s@) is None && m@ == ascii_upper(s@),
            Err(e) => method_fault(s@) is Some && e@ == ErrorView::Other(method_fault(s@)->0),
        },
{
    let cs = chars_of(s);
    let up = to_upper(&cs);
    let text = string_of(&up);
    match check_method(text.as_str()) {
        Ok(m) => Ok(m),
        Err(e) => {
            let mut m = String::from_str("invalid http method '");
            m.append(s);
            m.append("': ");
            m.append(e.as_str());
            Err(ToolError::Other(m))
        },
    }
}

/// What one member of `headers` comes to: a header, or a warning.
pub open spec fn header_of(k: Seq<char>, v: JsonView) -> Result<(Seq<char>, Seq<char>), Seq<char>> {
    match v {
        JsonView::String(s) => if !(is_token(k) && k.len() <= 65535) {
            Err("invalid header name '"@ + k + "': "@ + "invalid HTTP header name"@)
        } else if !is_header_value(s) {
            Err("invalid header value for '"@ + k + "': "@ + "failed to parse header value"@)
        } else {
            Ok((ascii_lower(k), s))
        },
        _ => Err("header '"@ + k + "' must be a string, skipped"@),
    }
}

/// A header set in a list: in the place of the one with its name, or at the end.
pub open spec fn with_header(
    h: Seq<(Seq<char>, Seq<char>)>,
    name: Seq<char>,
    value: Seq<char>,
) -> Seq<(Seq<char>, Seq<char>)>
    decreases h.len(),
{
    if h.len() == 0 {
        seq![(name, value)]
    } else if h[0].0 == name {
        seq![(name, value)] + h.skip(1)
    } else {
        seq![h[0]] + with_header(h.skip(1), name, value)
    }
}

/// The headers that the members of an object come to. Of two with one name the later counts.
pub open spec fn headers_of(m: Seq<(Seq<char>, JsonView)>) -> Seq<(Seq<char>, Seq<char>)>
    decreases m.len(),
{
    if m.len() == 0 {
        Seq::empty()
    } else {
        match header_of(m.last().0, m.last().1) {
            Ok((name, value)) => with_header(headers_of(m.drop_last()), name, value),
            Err(_) => headers_of(m.drop_last()),
        }
    }
}

/// What is to be said of the members that come to no header.
pub open spec fn header_warnings(m: Seq<(Seq<char>, JsonView)>) -> Seq<Seq<char>>
    decreases m.len(),
{
    if m.len() == 0 {
        Seq::empty()
    } else {
        match header_of(m.last().0, m.last().1) {
            Ok(_) => header_warnings(m.drop_last()),
            Err(w) => header_warnings(m.drop_last()).push(w),
        }
    }
}

/// The members of `headers` in an input.
pub open spec fn header_members(input: JsonView) -> Seq<(Seq<char>, JsonView)> {
    match field(input, "headers"@) {
        Some(JsonView::Object(m)) => m,
        _ => Seq::empty(),
    }
}

fn read_header(k: &str, v: &Json) -> (r: Result<(String, String), String>)
    ensures
        (match r {
            Ok((n, s)) => Ok((n@, s@)),
            Err(w) => Err(w@),
        }) == header_of(k@, v@),
{
    match v {
        Json::String(s) => match check_header_name(k) {
            Err(e) => {
                let mut w = String::from_str("invalid header name '");
                w.append(k);
                w.append("': ");
                w.append(e.as_str());
                Err(w)
            },
            Ok(name) => match check_header_value(s.as_str()) {
                Err(e) => {
                    let mut w = String::from_str("invalid header value for '");
                    w.append(k);
                    w.append("': ");
                    w.append(e.as_str());
                    Err(w)
                },
                Ok(_) => Ok((name, s.clone())),
            },
        },
        _ => {
            let mut w = String::from_str("header '");
            w.append(k);
            w.append("' must be a string, skipped");
            Err(w)
        },
    }
}

/// No two headers of the list have one name.
pub open spec fn distinct_names(h: Seq<(Seq<char>, Seq<char>)>) -> bool {
    forall|i: int, j: int| 0 <= i < j < h.len() ==> (#[trigger] h[i]).0 != (#[trigger] h[j]).0
}

proof fn lemma_with_header(h: Seq<(Seq<char>, Seq<char>)>, i: int, name: Seq<char>, value: Seq<char>)
    requires
        0 <= i <= h.len(),
        forall|k: int| 0 <= k < i ==> (#[trigger] h[k]).0 != name,
        i < h.len() ==> h[i].0 == name,
    ensures
        with_header(h, name, value) == if i < h.len() {
            h.update(i, (name, value))
        } else {
            h.push((name, value))
        },
    decreases h.len(),
{
    if h.len() == 0 {
        assert(h.push((name, value)) =~= seq![(name, value)]);
    } else if h[0].0 == name {
        assert(i == 0);
        assert(h.update(0, (name, value)) =~= seq![(name, value)] + h.skip(1));
    } else {
        assert forall|k: int| 0 <= k < i - 1 implies (#[trigger] h.skip(1)[k]).0 != name by {
            assert(h[k + 1].0 != name);
        }
        lemma_with_header(h.skip(1), i - 1, name, value);
        if i < h.len() {
            assert(h.update(i, (name, value)) =~= seq![h[0]] + h.skip(1).update(
                i - 1,
                (name, value),
            ));
        } else {
            assert(h.push((name, value)) =~= seq![h[0]] + h.skip(1).push((name, value)));
        }
    }
}

fn set_header(h: &mut Vec<(String, String)>, name: String, value: String)
    ensures
        pairs_view(final(h)@) == with_header(pairs_view(old(h)@), name@, value@),
{
    let ghost before = pairs_view(h@);
    let n = h.len();
    let mut i: usize = 0;
    while i < n
        invariant_except_break
            i <= n,
        invariant
            n == h@.len(),
            before == pairs_view(h@),
            *h == *old(h),
            forall|k: int| 0 <= k < i ==> (#[trigger] before[k]).0 != name@,
        ensures
            i <= n,
            i < n ==> before[i as int].0 == name@,
        decreases n - i,
    {
        if same(h[i].0.as_str(), name.as_str()) {
            break;
        }
        i = i + 1;
    }
    proof {
        lemma_with_header(before, i as int, name@, value@);
    }
    if i < n {
        h.set(i, (name, value));
        assert(pairs_view(h@) =~= before.update(i as int, (name@, value@)));
    } else {
        h.push((name, value));
        assert(pairs_view(h@) =~= before.push((name@, value@)));
    }
}

/// The headers that an object asks for, and what is to be said of the members that are none.
/// A member that is no header is skipped; it does not spoil the request.
pub fn parse_headers(headers: Option<&Json>) -> (r: (Vec<(String, String)>, Vec<String>))
    ensures
        ({
            let m = match headers {
                Some(h) => match h@ {
                    JsonView::Object(m) => m,
                    _ => Seq::empty(),
                },
                None => Seq::empty(),
            };
            pairs_view(r.0@) == headers_of(m) && views(r.1@) == header_warnings(m)
        }),
{
    let mut out: Vec<(String, String)> = Vec::new();
    let mut warnings: Vec<String> = Vec::new();
    assert(pairs_view(out@) =~= Seq::<(Seq<char>, Seq<char>)>::empty());
    assert(views(warnings@) =~= Seq::<Seq<char>>::empty());
    if let Some(Json::Object(m)) = headers {
        proof {
            lemma_object_view(*m);
        }
        let ghost all = members_view(m@);
        let mut i: usize = 0;
        let n = m.len();
        assert(all.take(0) =~= Seq::<(Seq<char>, JsonView)>::empty());
        while i < n
            invariant
                i <= n,
                n == m@.len(),
                all == members_view(m@),
                pairs_view(out@) == headers_of(all.take(i as int)),
                views(warnings@) == header_warnings(all.take(i as int)),
            decreases n - i,
        {
            let ghost said = warnings@;
            assert(all.take(i + 1).drop_last() =~= all.take(i as int));
            assert(all.take(i + 1).last() == (m@[i as int].0@, m@[i as int].1@));
            match read_header(m[i].0.as_str(), &m[i].1) {
                Ok((name, value)) => set_header(&mut out, name, value),
                Err(w) => {
                    warnings.push(w);
                    assert(views(warnings@) =~= views(said).push(w@));
                },
            }
            i = i + 1;
        }
        assert(all.take(all.len() as int) =~= all);
    }
    (out, warnings)
}

/// A number kept between two bounds; the default where there is none.
pub open spec fn bounded(n: Option<nat>, default: nat, cap: nat) -> nat {
    let v = match n {
        Some(v) => v,
        None => default,
    };
    if v < 1 {
        1
    } else if v > cap {
        cap
    } else {
        v
    }
}

fn bound(n: Option<u64>, default: u64, cap: u64) -> (r: u64)
    ensures
        r as nat == bounded(
            match n {
                Some(v) => Some(v as nat),
                None => None,
            },
            default as nat,
            cap as nat,
        ),
{
    let v: u64 = match n {
        Some(v) => v,
        None => default,
    };
    if v < 1 {
        1
    } else if v > cap {
        cap
    } else {
        v
    }
}

/// What `fetch` is asked to do.
#[derive(Debug)]
pub struct FetchRequest {
    /// The URL as it was written.
    pub url: String,
    /// The URL as it is sent.
    pub target: String,
    /// The method, in capitals.
    pub method: String,
    /// The headers to be sent.
    pub headers: Vec<(String, String)>,
    /// The body to be sent.
    pub body: Option<String>,
    /// How long the request may take, in milliseconds.
    pub timeout_ms: u64,
    /// How many bytes of the answer are kept.
    pub max_size: u64,
    /// Redirections are followed.
    pub follow_redirects: bool,
    /// What is to be said of the request.
    pub warnings: Vec<String>,
}

/// The method that an input asks for.
pub open spec fn method_in(input: JsonView) -> Seq<char> {
    match string_in(field(input, "method"@)) {
        Some(m) => m,
        None => "GET"@,
    }
}

/// What is wrong with a request, given what parsing its URL gave.
pub open spec fn request_fault(
    input: JsonView,
    parsed: Result<(Seq<char>, Seq<char>), Seq<char>>,
) -> Option<Seq<char>> {
    if url_fault(parsed) is Some {
        url_fault(parsed)
    } else {
        method_fault(method_in(input))
    }
}

/// The request is the one that the input asks for.
pub open spec fn request_fits(q: FetchRequest, input: JsonView) -> bool {
    &&& string_in(field(input, "url"@)) == Some(q.url@)
    &&& q.method@ == ascii_upper(method_in(input))
    &&& pairs_view(q.headers@) == headers_of(header_members(input))
    &&& views(q.warnings@) == header_warnings(header_members(input))
    &&& optional_text(q.body) == string_in(field(input, "body"@))
    &&& q.timeout_ms as nat == bounded(
        nat_in(field(input, "timeoutMs"@)),
        DEFAULT_TIMEOUT_MS as nat,
        HARD_TIMEOUT_CAP_MS as nat,
    )
    &&& q.max_size as nat == bounded(
        nat_in(field(input, "maxSize"@)),
        DEFAULT_MAX_SIZE as nat,
        HARD_MAX_SIZE_CAP as nat,
    )
    &&& q.follow_redirects == (bool_in(field(input, "followRedirects"@)) != Some(false))
}

/// What `fetch` is asked to do, given the URL of the input and what parsing it gave.
pub fn read_request(input: &Json, url: &String, parsed: Result<(String, String), String>) -> (r:
    Result<FetchRequest, ToolError>)
    requires
        string_in(field(input@, "url"@)) == Some(url@),
    ensures
        ({
            let p = match parsed {
                Ok((u, s)) => Ok((u@, s@)),
                Err(e) => Err(e@),
            };
            match r {
                Ok(q) => request_fault(input@, p) is None && request_fits(q, input@)
                    && p->Ok_0.0 == q.target@,
                Err(e) => request_fault(input@, p) is Some && e@ == ErrorView::Other(
                    request_fault(input@, p)->0,
                ),
            }
        }),
{
    let target = match judge_url(parsed) {
        Ok(u) => u,
        Err(e) => return Err(e),
    };
    let method = match input.get_str("method") {
        Some(m) => match parse_method(m.as_str()) {
            Ok(m) => m,
            Err(e) => return Err(e),
        },
        None => match parse_method("GET") {
            Ok(m) => m,
            Err(e) => return Err(e),
        },
    };
    let (headers, warnings) = parse_headers(input.get("headers"));
    let body = match input.get_str("body") {
        Some(b) => Some(b.clone()),
        None => None,
    };
    let timeout_ms = bound(input.get_u64("timeoutMs"), DEFAULT_TIMEOUT_MS, HARD_TIMEOUT_CAP_MS);
    let max_size = bound(input.get_u64("maxSize"), DEFAULT_MAX_SIZE, HARD_MAX_SIZE_CAP);
    let follow_redirects = match input.get_bool("followRedirects") {
        Some(b) => b,
        None => true,
    };
    Ok(
        FetchRequest {
            url: url.clone(),
            target,
            method,
            headers,
            body,
            timeout_ms,
            max_size,
            follow_redirects,
            warnings,
        },
    )
}

/// What `fetch` is asked to do, or what is wrong with the request.
pub fn parse_fetch(input: &Json) -> (r: Result<FetchRequest, ToolError>)
    ensures
        match string_in(field(input@, "url"@)) {
            None => r is Err && r->Err_0@ == ErrorView::Other("url is required"@),
            Some(url) => match r {
                Ok(q) => request_fault(input@, url_parsed(url)) is None && request_fits(q, input@)
                    && url_parsed(url)->Ok_0.0 == q.target@,
                Err(e) => request_fault(input@, url_parsed(url)) is Some && e@ == ErrorView::Other(
                    request_fault(input@, url_parsed(url))->0,
                ),
            },
        },
{
    match input.get_str("url") {
        None => Err(ToolError::other("url is required")),
        Some(url) => {
            let parsed = parse_url(url.as_str());
            read_request(input, url, parsed)
        },
    }
}

/// The headers of a request bear different names.
pub proof fn law_header_names_differ(m: Seq<(Seq<char>, JsonView)>)
    ensures
        distinct_names(headers_of(m)),
    decreases m.len(),
{
    if m.len() > 0 {
        law_header_names_differ(m.drop_last());
        if let Ok((name, value)) = header_of(m.last().0, m.last().1) {
            lemma_with_header_distinct(headers_of(m.drop_last()), name, value);
        }
    }
}

proof fn lemma_with_header_names(h: Seq<(Seq<char>, Seq<char>)>, name: Seq<char>, value: Seq<char>)
    ensures
        forall|i: int|
            0 <= i < with_header(h, name, value).len() ==> (#[trigger] with_header(
                h,
                name,
                value,
            )[i]).0 == name || exists|j: int|
                0 <= j < h.len() && (#[trigger] h[j]).0 == with_header(h, name, value)[i].0,
    decreases h.len(),
{
    let w = with_header(h, name, value);
    if h.len() > 0 {
        lemma_with_header_names(h.skip(1), name, value);
        assert forall|i: int| 0 <= i < w.len() implies (#[trigger] w[i]).0 == name || exists|j: int|
            0 <= j < h.len() && (#[trigger] h[j]).0 == w[i].0 by {
            if i == 0 {
                assert(h[0].0 == w[0].0);
            } else if h[0].0 == name {
                assert(h[i].0 == w[i].0);
            } else {
                let rest = with_header(h.skip(1), name, value);
                assert(w[i] == rest[i - 1]);
                if w[i].0 != name {
                    let j = choose|j: int| 0 <= j < h.skip(1).len() && (#[trigger] h.skip(1)[j]).0
                        == rest[i - 1].0;
                    assert(h[j + 1].0 == w[i].0);
                }
            }
        }
    }
}

proof fn lemma_with_header_distinct(
    h: Seq<(Seq<char>, Seq<char>)>,
    name: Seq<char>,
    value: Seq<char>,
)
    requires
        distinct_names(h),
    ensures
        distinct_names(with_header(h, name, value)),
    decreases h.len(),
{
    let w = with_header(h, name, value);
    if h.len() > 0 {
        let rest = h.skip(1);
        assert forall|i: int, j: int| 0 <= i < j < rest.len() implies (#[trigger] rest[i]).0 != (
        #[trigger] rest[j]).0 by {
            assert(h[i + 1].0 != h[j + 1].0);
        }
        if h[0].0 == name {
            assert forall|i: int, j: int| 0 <= i < j < w.len() implies (#[trigger] w[i]).0 != (
            #[trigger] w[j]).0 by {
                assert(w[i].0 == h[i].0 && w[j].0 == h[j].0);
            }
        } else {
            lemma_with_header_distinct(rest, name, value);
            lemma_with_header_names(rest, name, value);
            let v = with_header(rest, name, value);
            assert forall|i: int, j: int| 0 <= i < j < w.len() implies (#[trigger] w[i]).0 != (
            #[trigger] w[j]).0 by {
                assert(w[j] == v[j - 1]);
                if i == 0 {
                    if v[j - 1].0 != name {
                        let k = choose|k: int| 0 <= k < rest.len() && (#[trigger] rest[k]).0 == v[j
                            - 1].0;
                        assert(h[0].0 != h[k + 1].0);
                    }
                } else {
                    assert(w[i] == v[i - 1]);
                }
            }
        }
    }
}

// ---------------------------------------------------------------------------
// The body
// ---------------------------------------------------------------------------

/// The body after one more piece of it, and whether it was cut off there.
pub open spec fn with_chunk(body: Seq<u8>, chunk: Seq<u8>, max: nat) -> (Seq<u8>, bool) {
    if body.len() + chunk.len() > max {
        ((body + chunk).take(max as int), true)
    } else {
        (body + chunk, false)
    }
}

/// Adds a piece to a body, as far as it fits; gives back whether the body was cut off, in
/// which case no more of it is wanted.
pub fn add_chunk(body: &mut Vec<u8>, chunk: &[u8], max_size: u64) -> (full: bool)
    requires
        old(body)@.len() <= max_size,
    ensures
        (final(body)@, full) == with_chunk(old(body)@, chunk@, max_size as nat),
        final(body)@.len() <= max_size,
{
    let ghost start = body@;
    let room: u64 = max_size - body.len() as u64;
    let cut = chunk.len() as u64 > room;
    let n: usize = if cut {
        room as usize
    } else {
        chunk.len()
    };
    let mut i: usize = 0;
    while i < n
        invariant
            i <= n <= chunk@.len(),
            body@ == start + chunk@.take(i as int),
        decreases n - i,
    {
        body.push(chunk[i]);
        assert(chunk@.take(i + 1) =~= chunk@.take(i as int).push(chunk@[i as int]));
        i = i + 1;
    }
    if cut {
        assert(start + chunk@.take(n as int) =~= (start + chunk@).take(max_size as int));
    } else {
        assert(chunk@.take(n as int) =~= chunk@);
    }
    cut
}

/// The whole of what a server sends.
pub open spec fn whole(chunks: Seq<Seq<u8>>) -> Seq<u8>
    decreases chunks.len(),
{
    if chunks.len() == 0 {
        Seq::empty()
    } else {
        whole(chunks.drop_last()) + chunks.last()
    }
}

/// The body that comes of adding pieces until it is cut off.
pub open spec fn gathered(chunks: Seq<Seq<u8>>, max: nat) -> (Seq<u8>, bool)
    decreases chunks.len(),
{
    if chunks.len() == 0 {
        (Seq::empty(), false)
    } else {
        let (body, full) = gathered(chunks.drop_last(), max);
        if full {
            (body, full)
        } else {
            with_chunk(body, chunks.last(), max)
        }
    }
}

/// However the answer is cut into pieces, what is kept of it is its beginning, up to the
/// limit, and it counts as truncated just where it is longer than the limit.
pub proof fn law_body_is_beginning(chunks: Seq<Seq<u8>>, max: nat)
    ensures
        gathered(chunks, max).1 == (whole(chunks).len() > max),
        gathered(chunks, max).0 == if whole(chunks).len() > max {
            whole(chunks).take(max as int)
        } else {
            whole(chunks)
        },
    decreases chunks.len(),
{
    if chunks.len() > 0 {
        law_body_is_beginning(chunks.drop_last(), max);
        let w = whole(chunks.drop_last());
        if w.len() > max {
            assert((w + chunks.last()).take(max as int) =~= w.take(max as int));
        }
    }
}

// ---------------------------------------------------------------------------
// The answer
// ---------------------------------------------------------------------------

/// The type in a `Content-Type`, without its parameters.
pub open spec fn mime_essence(content_type: Seq<char>) -> Seq<char> {
    ascii_lower(trim(split_on(content_type, ';')[0]))
}

/// A body of this type is text.
pub open spec fn is_text_type(content_type: Seq<char>) -> bool {
    let m = mime_essence(content_type);
    m.len() == 0 || "text/"@.is_prefix_of(m) || m == "application/json"@ || m
        == "application/xml"@ || m == "application/xhtml+xml"@ || m == "application/javascript"@
        || m == "application/ld+json"@ || m == "application/x-www-form-urlencoded"@ || m
        == "image/svg+xml"@
}

/// A body of this type is text. Where no type is given it is taken for text.
pub fn is_text_mime(mime: &str) -> (r: bool)
    ensures
        r == is_text_type(mime@),
{
    let cs = chars_of(mime);
    let pieces = split_chars(&cs, ';');
    proof {
        crate::text::lemma_split_nonempty(cs@, ';');
        assert(crate::text::runs(pieces@)[0] == pieces@[0]@);
    }
    let bare = trimmed(&pieces[0]);
    let m = to_lower(&bare);
    if m.len() == 0 {
        return true;
    }
    let text = chars_of("text/");
    if crate::text::starts_with(&m, &text) {
        return true;
    }
    let s = string_of(&m);
    let s = s.as_str();
    same(s, "application/json") || same(s, "application/xml") || same(s, "application/xhtml+xml")
        || same(s, "application/javascript") || same(s, "application/ld+json") || same(
        s,
        "application/x-www-form-urlencoded",
    ) || same(s, "image/svg+xml")
}

/// The text of a status: its code, and its reason phrase where it has one.
pub open spec fn status_text(code: u16, reason: Option<Seq<char>>) -> Seq<char> {
    match reason {
        Some(r) => decimal(code as nat) + " "@ + r,
        None => decimal(code as nat),
    }
}

/// A body as text: its text, the name of the encoding, and what is to be said of it.
#[derive(Debug)]
pub struct EncodedBody {
    /// The text.
    pub text: String,
    /// `utf-8` or `base64`.
    pub encoding: String,
    /// What is to be said of the body.
    pub warning: Option<String>,
}

/// The body can be given as it stands: its type is a text type, and it is UTF-8.
pub open spec fn reads_as_text(content_type: Seq<char>, body: Seq<u8>) -> bool {
    is_text_type(content_type) && utf8_text(body) is Some
}

/// A body as text.
pub open spec fn body_text(content_type: Seq<char>, body: Seq<u8>) -> Seq<char> {
    if reads_as_text(content_type, body) {
        utf8_text(body)->0
    } else {
        base64_text(body)
    }
}

/// The name of the encoding in which a body is given.
pub open spec fn body_encoding(content_type: Seq<char>, body: Seq<u8>) -> Seq<char> {
    if reads_as_text(content_type, body) {
        "utf-8"@
    } else {
        "base64"@
    }
}

/// What is to be said of a body that is said to be text, and is not.
pub open spec fn body_warning(content_type: Seq<char>, body: Seq<u8>) -> Option<Seq<char>> {
    if is_text_type(content_type) && utf8_text(body) is None {
        Some(
            "content-type '"@ + content_type
                + "' claimed utf-8 but body is not valid utf-8; fell back to base64"@,
        )
    } else {
        None
    }
}

/// Turns a body into text: as it stands where its type is a text type and it is UTF-8, in
/// Base64 otherwise.
pub fn encode_body(content_type: &str, body: &[u8]) -> (r: EncodedBody)
    ensures
        r.text@ == body_text(content_type@, body@),
        r.encoding@ == body_encoding(content_type@, body@),
        optional_text(r.warning) == body_warning(content_type@, body@),
{
    if is_text_mime(content_type) {
        match crate::text::from_utf8(body) {
            Ok(s) => EncodedBody {
                text: String::from_str(s),
                encoding: String::from_str("utf-8"),
                warning: None,
            },
            Err(_) => {
                let mut w = String::from_str("content-type '");
                w.append(content_type);
                w.append("' claimed utf-8 but body is not valid utf-8; fell back to base64");
                EncodedBody {
                    text: encode_base64(body),
                    encoding: String::from_str("base64"),
                    warning: Some(w),
                }
            },
        }
    } else {
        EncodedBody {
            text: encode_base64(body),
            encoding: String::from_str("base64"),
            warning: None,
        }
    }
}

/// What came back.
#[derive(Debug)]
pub struct FetchResponse {
    /// The URL after redirections.
    pub final_url: String,
    /// The status code.
    pub status: u16,
    /// The `Content-Type`, empty where there is none.
    pub content_type: String,
    /// The headers that are text, in the order in which they came.
    pub headers: Vec<(String, String)>,
    /// What is kept of the body.
    pub body: Vec<u8>,
    /// The body was cut off.
    pub truncated: bool,
    /// How long it took, in milliseconds.
    pub elapsed_ms: u64,
}

/// The members of the answer to a request, given the text of its status and of its body, and
/// what is to be said of it.
pub open spec fn reply_members(
    url: Seq<char>,
    p: FetchResponse,
    status: Seq<char>,
    body: Seq<char>,
    encoding: Seq<char>,
    warnings: Seq<Seq<char>>,
) -> Seq<(Seq<char>, JsonView)> {
    let fixed = seq![
        ("url"@, JsonView::String(url)),
        ("finalUrl"@, JsonView::String(p.final_url@)),
        ("status"@, count_json(p.status as nat)),
        ("statusText"@, JsonView::String(status)),
        ("contentType"@, JsonView::String(p.content_type@)),
        ("headers"@, pairs_json(pairs_view(p.headers@))),
        ("body"@, JsonView::String(body)),
        ("encoding"@, JsonView::String(encoding)),
        ("size"@, count_json(p.body@.len())),
        ("truncated"@, JsonView::Bool(p.truncated)),
        ("elapsedMs"@, count_json(p.elapsed_ms as nat)),
    ];
    if warnings.len() == 0 {
        fixed
    } else {
        fixed.push(("warnings"@, texts_json(warnings)))
    }
}

/// Puts the answer together, given the text of its status and of its body, and what is to be
/// said of it.
pub fn build_reply(
    url: &str,
    p: &FetchResponse,
    status: &str,
    body: &EncodedBody,
    warnings: &Vec<String>,
) -> (r: Json)
    ensures
        r@ == JsonView::Object(
            object_of(reply_members(
                    url@,
                    *p,
                    status@,
                    body.text@,
                    body.encoding@,
                    views(warnings@),
                )),
        ),
{
    let mut pairs: Vec<(String, Json)> = Vec::new();
    pairs.push(entry("url", Json::String(String::from_str(url))));
    pairs.push(entry("finalUrl", Json::String(p.final_url.clone())));
    pairs.push(entry("status", Json::Number(JsonNumber::PosInt(p.status as u64))));
    pairs.push(entry("statusText", Json::String(String::from_str(status))));
    pairs.push(entry("contentType", Json::String(p.content_type.clone())));
    pairs.push(entry("headers", pairs_to_json(&p.headers)));
    pairs.push(entry("body", Json::String(body.text.clone())));
    pairs.push(entry("encoding", Json::String(body.encoding.clone())));
    pairs.push(entry("size", Json::Number(JsonNumber::PosInt(p.body.len() as u64))));
    pairs.push(entry("truncated", Json::Bool(p.truncated)));
    pairs.push(entry("elapsedMs", Json::Number(JsonNumber::PosInt(p.elapsed_ms))));
    if warnings.len() > 0 {
        pairs.push(entry("warnings", texts_to_json(warnings)));
    }
    assert(members_view(pairs@) =~= reply_members(
                    url@,
                    *p,
                    status@,
                    body.text@,
                    body.encoding@,
                    views(warnings@),
                ));
    build_object(pairs)
}

/// The text of a status, given its reason phrase.
pub fn describe_status(code: u16, reason: &Option<String>) -> (r: String)
    ensures
        r@ == status_text(code, optional_text(*reason)),
{
    let mut r = String::new();
    push_decimal(&mut r, code as u64);
    if let Some(phrase) = reason {
        r.append(" ");
        r.append(phrase.as_str());
    }
    assert(r@ =~= status_text(code, optional_text(*reason)));
    r
}

/// What is to be said of a request and of the body that came back.
pub open spec fn all_warnings(request: Seq<Seq<char>>, body: Option<Seq<char>>) -> Seq<Seq<char>> {
    match body {
        Some(w) => request.push(w),
        None => request,
    }
}

/// The answer to a request, given what came back. A status of failure is an answer like any
/// other.
pub fn finish_fetch(q: &FetchRequest, p: &FetchResponse) -> (r: Json)
    requires
        100 <= p.status < 1000,
    ensures
        r@ == JsonView::Object(
            object_of(
                reply_members(
                    q.url@,
                    *p,
                    status_text(p.status, status_reason(p.status)),
                    body_text(p.content_type@, p.body@),
                    body_encoding(p.content_type@, p.body@),
                    all_warnings(views(q.warnings@), body_warning(p.content_type@, p.body@)),
                ),
            ),
        ),
{
    let body = encode_body(p.content_type.as_str(), &p.body);
    let reason = reason_of(p.status);
    let status = describe_status(p.status, &reason);
    let mut warnings = crate::text::clone_strings(&q.warnings);
    let ghost before = warnings@;
    if let Some(w) = &body.warning {
        warnings.push(w.clone());
        assert(views(warnings@) =~= views(before).push(w@));
    }
    build_reply(q.url.as_str(), p, status.as_str(), &body, &warnings)
}

// ---------------------------------------------------------------------------
// What a fetch asks for and gives back
// ---------------------------------------------------------------------------

/// An address can be fetched exactly where it is one, over `http` or `https`.
pub proof fn law_fetchable(parsed: Result<(Seq<char>, Seq<char>), Seq<char>>)
    ensures
        url_fault(parsed) is None <==> (parsed matches Ok((_, scheme)) && (scheme == "http"@
            || scheme == "https"@)),
{
}

/// A fetch gets unless it says otherwise.
pub proof fn law_method(input: JsonView, m: Seq<char>)
    ensures
        field(input, "method"@) is None ==> method_in(input) == "GET"@,
        field(input, "method"@) == Some(JsonView::String(m)) ==> method_in(input) == m,
{
}

/// What a request takes from the input: it follows redirects unless told not to, waits half a
/// minute where nothing is said and a minute at most, and takes ten mebibytes where nothing is
/// said and 64 at most.
pub proof fn law_request_limits(q: FetchRequest, input: JsonView, n: nat)
    requires
        request_fits(q, input),
    ensures
        field(input, "followRedirects"@) is None ==> q.follow_redirects,
        field(input, "followRedirects"@) == Some(JsonView::Bool(false)) ==> !q.follow_redirects,
        field(input, "followRedirects"@) == Some(JsonView::Bool(true)) ==> q.follow_redirects,
        1 <= q.timeout_ms <= 60000,
        field(input, "timeoutMs"@) is None ==> q.timeout_ms == 30000,
        nat_in(field(input, "timeoutMs"@)) == Some(n) && 1 <= n <= 60000 ==> q.timeout_ms == n,
        1 <= q.max_size <= 64 * 1024 * 1024,
        field(input, "maxSize"@) is None ==> q.max_size == 10 * 1024 * 1024,
        nat_in(field(input, "maxSize"@)) == Some(n) && 1 <= n <= 64 * 1024 * 1024 ==> q.max_size
            == n,
        optional_text(q.body) == string_in(field(input, "body"@)),
        field(input, "url"@) == Some(JsonView::String(q.url@)),
{
}

proof fn lemma_header_holds(
    h: Seq<(Seq<char>, Seq<char>)>,
    name: Seq<char>,
    value: Seq<char>,
    n: Seq<char>,
    v: Seq<char>,
)
    requires
        distinct_names(h),
    ensures
        with_header(h, name, value).contains((n, v)) <==> if n == name {
            v == value
        } else {
            h.contains((n, v))
        },
    decreases h.len(),
{
    let w = with_header(h, name, value);
    if h.len() == 0 {
        assert(w[0] == (name, value));
    } else {
        let rest = h.skip(1);
        assert forall|i: int, j: int| 0 <= i < j < rest.len() implies (#[trigger] rest[i]).0 != (
        #[trigger] rest[j]).0 by {
            assert(rest[i] == h[i + 1] && rest[j] == h[j + 1]);
        }
        lemma_part_of(h, (n, v));
        if h[0].0 == name {
            assert(w[0] == (name, value));
            lemma_part_of(w, (n, v));
            assert(w.skip(1) =~= rest);
            if rest.contains((n, v)) {
                let k = choose|k: int| 0 <= k < rest.len() && rest[k] == (n, v);
                assert(h[0].0 != h[k + 1].0);
            }
        } else {
            lemma_header_holds(rest, name, value, n, v);
            let t = with_header(rest, name, value);
            lemma_part_of(w, (n, v));
            assert(w.skip(1) =~= t);
            assert(w[0] == h[0]);
        }
    }
}

proof fn lemma_part_of(h: Seq<(Seq<char>, Seq<char>)>, x: (Seq<char>, Seq<char>))
    requires
        h.len() > 0,
    ensures
        h.contains(x) <==> h[0] == x || h.skip(1).contains(x),
{
    if h.contains(x) {
        let k = choose|k: int| 0 <= k < h.len() && h[k] == x;
        if k > 0 {
            assert(h.skip(1)[k - 1] == x);
        }
    }
    if h.skip(1).contains(x) {
        let k = choose|k: int| 0 <= k < h.skip(1).len() && h.skip(1)[k] == x;
        assert(h[k + 1] == x);
    }
}

/// One more header that can be sent is sent, under its name in lower case, in place of an earlier
/// one of that name; the others stay. One that cannot be sent is left out, and warned of.
pub proof fn law_one_more_header(
    m: Seq<(Seq<char>, JsonView)>,
    k: Seq<char>,
    x: JsonView,
    n: Seq<char>,
    v: Seq<char>,
)
    ensures
        ({
            let now = headers_of(m.push((k, x)));
            let sent = x matches JsonView::String(s) && is_token(k) && k.len() <= 65535
                && is_header_value(s);
            &&& sent && n == ascii_lower(k) ==> (now.contains((n, v)) <==> x == JsonView::String(v))
            &&& sent && n != ascii_lower(k) ==> (now.contains((n, v)) <==> headers_of(m).contains(
                (n, v),
            ))
            &&& sent ==> header_warnings(m.push((k, x))) == header_warnings(m)
            &&& !sent ==> now == headers_of(m) && header_warnings(m.push((k, x))).len()
                == header_warnings(m).len() + 1
        }),
{
    assert(m.push((k, x)).drop_last() =~= m);
    law_header_names_differ(m);
    if let Ok((name, value)) = header_of(k, x) {
        lemma_header_holds(headers_of(m), name, value, n, v);
    }
}

/// Without headers none are sent and none are warned of.
pub proof fn law_no_headers(input: JsonView)
    requires
        field(input, "headers"@) is None,
    ensures
        headers_of(header_members(input)).len() == 0,
        header_warnings(header_members(input)).len() == 0,
{
}

/// What stands behind a semicolon does not change the type. A `text/` type is one of texts, and so
/// is none at all; pictures and plain bytes are not.
#[verifier::rlimit(50)]
pub proof fn law_text_types(m: Seq<char>, rest: Seq<char>)
    requires
        !m.contains(';'),
    ensures
        is_text_type(m + seq![';'] + rest) == is_text_type(m),
        "text/"@.is_prefix_of(ascii_lower(trim(m))) ==> is_text_type(m),
        is_blank(m) ==> is_text_type(m),
        ascii_lower(trim(m)) == "application/json"@ ==> is_text_type(m),
        ascii_lower(trim(m)) == "image/png"@ ==> !is_text_type(m),
        ascii_lower(trim(m)) == "application/octet-stream"@ ==> !is_text_type(m),
{
    law_split_without(m, ';');
    lemma_first_piece(m, ';', rest);
    let e = ascii_lower(trim(m));
    reveal_strlit("text/");
    reveal_strlit("image/png");
    reveal_strlit("application/octet-stream");
    reveal_strlit("application/json");
    reveal_strlit("application/xml");
    reveal_strlit("application/xhtml+xml");
    reveal_strlit("application/javascript");
    reveal_strlit("application/ld+json");
    reveal_strlit("application/x-www-form-urlencoded");
    reveal_strlit("image/svg+xml");
    assert("image/png"@.len() == 9 && "application/octet-stream"@.len() == 24);
    assert("application/json"@.len() == 16 && "application/xml"@.len() == 15);
    assert("application/xhtml+xml"@.len() == 21 && "application/javascript"@.len() == 22);
    assert("application/ld+json"@.len() == 19 && "image/svg+xml"@.len() == 13);
    assert("application/x-www-form-urlencoded"@.len() == 33);
    assert("text/"@.len() == 5 && "text/"@[0] == 't');
    assert("image/png"@[0] == 'i' && "application/octet-stream"@[0] == 'a');
    if "text/"@.is_prefix_of(e) {
        assert(e.take(5)[0] == e[0]);
    }
}

proof fn lemma_first_piece(a: Seq<char>, c: char, b: Seq<char>)
    requires
        !a.contains(c),
    ensures
        split_on(a + seq![c] + b, c)[0] == a,
        split_on(a + seq![c] + b, c).len() >= 2,
    decreases b.len(),
{
    let s = a + seq![c] + b;
    if b.len() == 0 {
        assert(s.drop_last() =~= a);
        law_split_without(a, c);
    } else {
        lemma_first_piece(a, c, b.drop_last());
        assert(s.drop_last() =~= a + seq![c] + b.drop_last());
        assert(s.last() == b.last());
    }
}

/// A body is given as its text where its type is one of texts and its bytes are UTF-8, and else in
/// Base64. A text type with other bytes is warned of, and nothing else is.
pub proof fn law_body(content_type: Seq<char>, body: Seq<u8>)
    ensures
        is_text_type(content_type) && utf8_text(body) is Some ==> body_text(content_type, body)
            == utf8_text(body)->0 && body_encoding(content_type, body) == "utf-8"@,
        !is_text_type(content_type) || utf8_text(body) is None ==> body_text(content_type, body)
            == base64_text(body) && body_encoding(content_type, body) == "base64"@,
        body_warning(content_type, body) is Some <==> is_text_type(content_type) && utf8_text(
            body,
        ) is None,
{
}

/// What is said of a reply; warnings are there only where something is to be warned of.
#[verifier::rlimit(50)]
pub proof fn law_reply(
    url: Seq<char>,
    p: FetchResponse,
    status: Seq<char>,
    body: Seq<char>,
    encoding: Seq<char>,
    warnings: Seq<Seq<char>>,
)
    ensures
        ({
            let a = JsonView::Object(
                object_of(reply_members(url, p, status, body, encoding, warnings)),
            );
            &&& field(a, "url"@) == Some(JsonView::String(url))
            &&& field(a, "finalUrl"@) == Some(JsonView::String(p.final_url@))
            &&& field(a, "status"@) == Some(count_json(p.status as nat))
            &&& field(a, "statusText"@) == Some(JsonView::String(status))
            &&& field(a, "contentType"@) == Some(JsonView::String(p.content_type@))
            &&& field(a, "headers"@) == Some(pairs_json(pairs_view(p.headers@)))
            &&& field(a, "body"@) == Some(JsonView::String(body))
            &&& field(a, "encoding"@) == Some(JsonView::String(encoding))
            &&& field(a, "size"@) == Some(count_json(p.body@.len()))
            &&& field(a, "truncated"@) == Some(JsonView::Bool(p.truncated))
            &&& field(a, "elapsedMs"@) == Some(count_json(p.elapsed_ms as nat))
            &&& field(a, "warnings"@) == if warnings.len() == 0 {
                None
            } else {
                Some(texts_json(warnings))
            }
        }),
{
    let pairs = reply_members(url, p, status, body, encoding, warnings);
    reveal_strlit("url");
    reveal_strlit("finalUrl");
    reveal_strlit("status");
    reveal_strlit("statusText");
    reveal_strlit("contentType");
    reveal_strlit("headers");
    reveal_strlit("body");
    reveal_strlit("encoding");
    reveal_strlit("size");
    reveal_strlit("truncated");
    reveal_strlit("elapsedMs");
    reveal_strlit("warnings");
    assert("url"@.len() == 3);
    assert("finalUrl"@.len() == 8);
    assert("status"@.len() == 6);
    assert("statusText"@.len() == 10);
    assert("contentType"@.len() == 11);
    assert("headers"@.len() == 7);
    assert("body"@.len() == 4);
    assert("encoding"@.len() == 8);
    assert("size"@.len() == 4);
    assert("truncated"@.len() == 9);
    assert("elapsedMs"@.len() == 9);
    assert("warnings"@.len() == 8);
    assert("finalUrl"@[0] != "encoding"@[0]);
    assert("finalUrl"@[0] != "warnings"@[0]);
    assert("body"@[0] != "size"@[0]);
    assert("encoding"@[0] != "warnings"@[0]);
    assert("truncated"@[0] != "elapsedMs"@[0]);
    law_object_holds(pairs, 0, "url"@);
    law_object_holds(pairs, 1, "finalUrl"@);
    law_object_holds(pairs, 2, "status"@);
    law_object_holds(pairs, 3, "statusText"@);
    law_object_holds(pairs, 4, "contentType"@);
    law_object_holds(pairs, 5, "headers"@);
    law_object_holds(pairs, 6, "body"@);
    law_object_holds(pairs, 7, "encoding"@);
    law_object_holds(pairs, 8, "size"@);
    law_object_holds(pairs, 9, "truncated"@);
    law_object_holds(pairs, 10, "elapsedMs"@);
    law_object_holds(pairs, 11, "warnings"@);
}

} // verus!
