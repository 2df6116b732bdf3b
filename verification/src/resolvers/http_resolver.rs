//! HTTP handler resolver.
//!
//! Sending the request is left to the runtime. Here the request is made up from the
//! reference and the input, and the response is judged.
use vstd::prelude::*;

use crate::error::ErrorView;
use crate::error::ToolError;
use crate::handler_debug::ref_debug;
use crate::handler_refs::clone_pairs;
use crate::handler_refs::HandlerRef;
use crate::handler_refs::HttpHandlerRef;
use crate::handler_refs::HttpMethod;
use crate::json::add_members;
use crate::json::build_object;
use crate::json::field;
use crate::json::last_value;
use crate::json::law_object_of;
use crate::json::lemma_last_value;
use crate::json::lemma_member_index;
use crate::json::lemma_object_view;
use crate::json::members_of;
use crate::json::members_view;
use crate::json::object_of;
use crate::json::optional_view;
use crate::json::sorted_keys;
use crate::json::Json;
use crate::json::JsonView;
use crate::text::chars_of;
use crate::text::decimal;
use crate::text::pairs_view;
use crate::text::push_decimal;
use crate::text::runs;
use crate::text::split_chars;
use crate::text::split_on;
use crate::text::string_of;
use crate::types::optional_text;
use crate::web::reason_of;
use crate::web::status_reason;

verus! {

/// Executes tools via HTTP requests.
#[derive(Debug)]
pub struct HttpHandlerResolver {
    /// How long a request may take where the reference does not say, in milliseconds.
    pub default_timeout: u64,
}

/// A request to be sent.
#[derive(Debug)]
pub struct HttpRequest {
    /// The method.
    pub method: HttpMethod,
    /// The URL.
    pub url: String,
    /// The headers.
    pub headers: Vec<(String, String)>,
    /// The body, as JSON; none for a GET.
    pub body: Option<Json>,
    /// How long it may take, in milliseconds.
    pub timeout_ms: u64,
}

/// Two objects made into one, the second over the first.
pub open spec fn overlaid(template: JsonView, input: JsonView) -> JsonView {
    JsonView::Object(
        if input is Object {
            object_of(members_of(template) + members_of(input))
        } else {
            members_of(template)
        },
    )
}

/// The body of a request: the template, the input, both or neither.
pub open spec fn request_body(
    template: Option<JsonView>,
    include_input: bool,
    input: JsonView,
) -> JsonView {
    match template {
        Some(t) => if include_input {
            overlaid(t, input)
        } else {
            t
        },
        None => if include_input {
            input
        } else {
            JsonView::Object(Seq::empty())
        },
    }
}

/// The value at a path of keys; `null` where there is none.
pub open spec fn value_at_path(v: JsonView, path: Seq<Seq<char>>) -> JsonView
    decreases path.len(),
{
    if path.len() == 0 {
        v
    } else {
        match field(v, path[0]) {
            Some(next) => value_at_path(next, path.skip(1)),
            None => JsonView::Null,
        }
    }
}

/// The text of a status.
pub open spec fn shown_status(code: u16, reason: Option<Seq<char>>) -> Seq<char> {
    decimal(code as nat) + " "@ + match reason {
        Some(r) => r,
        None => "<unknown status code>"@,
    }
}

/// A status of success.
pub open spec fn is_success(code: u16) -> bool {
    200 <= code < 300
}

fn overlay(template: &Json, input: &Json) -> (r: Json)
    ensures
        r@ == overlaid(template@, input@),
{
    let mut pairs: Vec<(String, Json)> = Vec::new();
    assert(members_view(pairs@) =~= Seq::<(Seq<char>, JsonView)>::empty());
    add_members(&mut pairs, template);
    assert(members_view(pairs@) =~= members_of(template@));
    match input {
        Json::Object(_) => {
            add_members(&mut pairs, input);
            build_object(pairs)
        },
        _ => {
            proof {
                lemma_object_view(pairs);
            }
            Json::Object(pairs)
        },
    }
}

/// Builds the body of a request.
pub fn build_body(r: &HttpHandlerRef, input: &Json) -> (body: Json)
    ensures
        body@ == request_body(optional_view(r.body_template), r.include_input, input@),
{
    match &r.body_template {
        Some(t) => if r.include_input {
            overlay(t, input)
        } else {
            t.clone()
        },
        None => if r.include_input {
            input.clone()
        } else {
            let members: Vec<(String, Json)> = Vec::new();
            proof {
                lemma_object_view(members);
                assert(members_view(members@) =~= Seq::<(Seq<char>, JsonView)>::empty());
            }
            Json::Object(members)
        },
    }
}

/// Extracts the value at a dotted path; `null` where there is none.
pub fn extract_path(value: &Json, path: &str) -> (r: Json)
    ensures
        r@ == value_at_path(value@, split_on(path@, '.')),
{
    let cs = chars_of(path);
    let parts = split_chars(&cs, '.');
    let ghost all = runs(parts@);
    let mut current: &Json = value;
    let n = parts.len();
    let mut i: usize = 0;
    assert(all.skip(0) =~= all);
    while i < n
        invariant
            i <= n,
            n == parts@.len(),
            all == runs(parts@),
            all == split_on(path@, '.'),
            value_at_path(value@, all) == value_at_path(current@, all.skip(i as int)),
        decreases n - i,
    {
        let key = string_of(&parts[i]);
        assert(all.skip(i as int)[0] == key@);
        assert(all.skip(i as int).skip(1) =~= all.skip(i + 1));
        match current.get(key.as_str()) {
            Some(next) => {
                current = next;
            },
            None => return Json::Null,
        }
        i = i + 1;
    }
    assert(all.skip(n as int).len() == 0);
    current.clone()
}

/// The message about a status that is no success, given its reason phrase.
pub fn status_message(code: u16, reason: &Option<String>) -> (r: String)
    ensures
        r@ == "HTTP "@ + decimal(code as nat) + " "@ + shown_status(code, optional_text(*reason)),
{
    let mut r = String::from_str("HTTP ");
    push_decimal(&mut r, code as u64);
    r.append(" ");
    let mut status = String::new();
    push_decimal(&mut status, code as u64);
    status.append(" ");
    match reason {
        Some(phrase) => status.append(phrase.as_str()),
        None => status.append("<unknown status code>"),
    }
    assert(status@ =~= shown_status(code, optional_text(*reason)));
    r.append(status.as_str());
    r
}

/// What the handler returns for a response: an error for a status that is no success and for
/// a body that is no JSON; else the body, or the part of it that the reference asks for.
pub fn read_response(
    r: &HttpHandlerRef,
    tool_name: &str,
    status: u16,
    body: Result<Json, String>,
) -> (out: Result<Json, ToolError>)
    requires
        100 <= status < 1000,
    ensures
        if !is_success(status) {
            out is Err && out->Err_0@ == (ErrorView::ToolExecution {
                tool_name: tool_name@,
                attempt: 1,
                source_string: "HTTP "@ + decimal(status as nat) + " "@ + shown_status(
                    status,
                    status_reason(status),
                ),
            })
        } else {
            match body {
                Err(e) => out is Err && out->Err_0@ == (ErrorView::ToolExecution {
                    tool_name: tool_name@,
                    attempt: 1,
                    source_string: "Failed to parse JSON response: "@ + e@,
                }),
                Ok(v) => out is Ok && out->Ok_0@ == match r.response_path {
                    Some(path) => value_at_path(v@, split_on(path@, '.')),
                    None => v@,
                },
            }
        },
{
    if status < 200 || status >= 300 {
        let reason = reason_of(status);
        let message = status_message(status, &reason);
        return Err(ToolError::execution_str(tool_name, message.as_str()));
    }
    match body {
        Err(e) => {
            let mut message = String::from_str("Failed to parse JSON response: ");
            message.append(e.as_str());
            Err(ToolError::execution_str(tool_name, message.as_str()))
        },
        Ok(v) => match &r.response_path {
            Some(path) => Ok(extract_path(&v, path.as_str())),
            None => Ok(v),
        },
    }
}

impl HttpHandlerResolver {
    /// Construct a new resolver.
    pub fn new(default_timeout: u64) -> (r: Self)
        ensures
            r.default_timeout == default_timeout,
    {
        HttpHandlerResolver { default_timeout }
    }

    /// The request reference behind a `HandlerRef`.
    pub fn resolve<'a>(&self, reference: &'a HandlerRef, tool_name: &str) -> (r: Result<
        &'a HttpHandlerRef,
        ToolError,
    >)
        ensures
            match r {
                Ok(h) => *reference == HandlerRef::Http(*h),
                Err(e) => !(reference is Http) && e@ == (ErrorView::HandlerResolution {
                    tool_name: tool_name@,
                    reason: "Not an HTTP handler reference: "@ + ref_debug(reference@),
                }),
            },
    {
        match reference {
            HandlerRef::Http(h) => Ok(h),
            other => {
                let mut reason = String::from_str("Not an HTTP handler reference: ");
                reason.append(other.to_debug().as_str());
                Err(ToolError::handler(tool_name, reason.as_str()))
            },
        }
    }

    /// The request to be sent for an input.
    pub fn request(&self, r: &HttpHandlerRef, input: &Json) -> (q: HttpRequest)
        ensures
            q.method == r.method,
            q.url@ == r.url@,
            pairs_view(q.headers@) == pairs_view(r.headers@),
            optional_view(q.body) == if r.method == HttpMethod::Get {
                None
            } else {
                Some(request_body(optional_view(r.body_template), r.include_input, input@))
            },
            q.timeout_ms == match r.timeout {
                Some(t) => t,
                None => self.default_timeout,
            },
    {
        let body = match r.method {
            HttpMethod::Get => None,
            _ => Some(build_body(r, input)),
        };
        let timeout_ms = match r.timeout {
            Some(t) => t,
            None => self.default_timeout,
        };
        HttpRequest {
            method: r.method,
            url: r.url.clone(),
            headers: clone_pairs(&r.headers),
            body,
            timeout_ms,
        }
    }
}

/// What a request sends: the input alone where there is no template; the template alone where the
/// input is not wanted; else the template with the members of the input over its own.
pub proof fn law_request_body(template: JsonView, input: JsonView, k: Seq<char>)
    requires
        template matches JsonView::Object(m) ==> sorted_keys(m),
        input matches JsonView::Object(m) ==> sorted_keys(m),
    ensures
        request_body(None, true, input) == input,
        request_body(None, false, input) == JsonView::Object(Seq::empty()),
        request_body(Some(template), false, input) == template,
        field(request_body(Some(template), true, input), k) == match field(input, k) {
            Some(v) => Some(v),
            None => field(template, k),
        },
{
    let t = members_of(template);
    let i = members_of(input);
    if input is Object {
        law_object_of(t + i, k);
        lemma_last_of_sum(t, i, k);
        lemma_last_value(i, k);
        if template is Object {
            lemma_last_value(t, k);
        }
    }
    lemma_member_index(t, k);
}

proof fn lemma_last_of_sum(
    a: Seq<(Seq<char>, JsonView)>,
    b: Seq<(Seq<char>, JsonView)>,
    k: Seq<char>,
)
    ensures
        last_value(a + b, k) == match last_value(b, k) {
            Some(v) => Some(v),
            None => last_value(a, k),
        },
    decreases b.len(),
{
    if b.len() == 0 {
        assert(a + b =~= a);
    } else {
        lemma_last_of_sum(a, b.drop_last(), k);
        assert((a + b).drop_last() =~= a + b.drop_last());
        assert((a + b).last() == b.last());
    }
}

/// A path is followed one name at a time: the value at a path in two parts is the value at the
/// second part of what is at the first. One name leads to the member of that name, or to null.
pub proof fn law_path_in_parts(v: JsonView, p: Seq<Seq<char>>, q: Seq<Seq<char>>, k: Seq<char>)
    ensures
        value_at_path(v, p + q) == value_at_path(value_at_path(v, p), q),
        value_at_path(v, seq![k]) == match field(v, k) {
            Some(x) => x,
            None => JsonView::Null,
        },
    decreases p.len(),
{
    if p.len() == 0 {
        assert(p + q =~= q);
    } else {
        assert((p + q)[0] == p[0]);
        assert((p + q).skip(1) =~= p.skip(1) + q);
        match field(v, p[0]) {
            Some(next) => {
                law_path_in_parts(next, p.skip(1), q, k);
            },
            None => {
                lemma_path_from_null(q);
            },
        }
    }
    reveal_with_fuel(value_at_path, 2);
    assert(seq![k].skip(1) =~= Seq::<Seq<char>>::empty());
}

proof fn lemma_path_from_null(q: Seq<Seq<char>>)
    ensures
        value_at_path(JsonView::Null, q) == JsonView::Null,
{
}

/// A response succeeds exactly with a status from 200 to 299.
pub proof fn law_success(code: u16)
    ensures
        is_success(code) <==> code / 100 == 2,
{
}

/// A status is shown by its number and its reason, where it has one.
pub proof fn law_status_is_shown(code: u16, reason: Seq<char>)
    ensures
        shown_status(code, Some(reason)) == decimal(code as nat) + " "@ + reason,
        shown_status(code, None) == decimal(code as nat) + " "@ + "<unknown status code>"@,
{
}

} // verus!
