//! References to handlers, as a serialized configuration holds them, and their JSON form.
use vstd::prelude::*;

use crate::json::build_object;
use crate::json::clone_optional;
use crate::json::entry;
use crate::json::items_view;
use crate::json::json_or_null;
use crate::json::law_object_holds;
use crate::json::lemma_array_view;
use crate::json::list_json;
use crate::json::list_to_json;
use crate::json::member;
use crate::json::members_view;
use crate::json::number_json;
use crate::json::number_to_json;
use crate::json::object_of;
use crate::json::optional_view;
use crate::json::or_null;
use crate::json::pairs_json;
use crate::json::pairs_to_json;
use crate::json::text_json;
use crate::json::text_to_json;
use crate::json::Json;
use crate::json::JsonView;
use crate::text::pairs_view;
use crate::types::clone_text;
use crate::types::clone_texts;
use crate::types::optional_text;
use crate::types::optional_texts;

verus! {

/// Marker type for the JSON literal `"http"`.
#[derive(Debug, Clone, Copy, PartialEq, Eq, Structural, Default)]
pub struct HttpHandlerType;

/// Marker type for the JSON literal `"script"`.
#[derive(Debug, Clone, Copy, PartialEq, Eq, Structural, Default)]
pub struct ScriptHandlerType;

/// Marker type for the JSON literal `"builtin"`.
#[derive(Debug, Clone, Copy, PartialEq, Eq, Structural, Default)]
pub struct BuiltinHandlerType;

/// Marker type for the JSON literal `"composite"`.
#[derive(Debug, Clone, Copy, PartialEq, Eq, Structural, Default)]
pub struct CompositeHandlerType;

/// HTTP method variants for handler requests.
#[derive(Debug, Clone, Copy, PartialEq, Eq, Structural)]
pub enum HttpMethod {
    /// HTTP POST.
    Post,
    /// HTTP GET.
    Get,
    /// HTTP PUT.
    Put,
    /// HTTP DELETE.
    Delete,
    /// HTTP PATCH.
    Patch,
}

impl Default for HttpMethod {
    fn default() -> (r: Self)
        ensures
            r == HttpMethod::Post,
    {
        HttpMethod::Post
    }
}

/// The name of a method on the wire.
pub open spec fn method_name(m: HttpMethod) -> Seq<char> {
    match m {
        HttpMethod::Post => "POST"@,
        HttpMethod::Get => "GET"@,
        HttpMethod::Put => "PUT"@,
        HttpMethod::Delete => "DELETE"@,
        HttpMethod::Patch => "PATCH"@,
    }
}

impl HttpMethod {
    /// The name of the method on the wire.
    pub fn as_str(&self) -> (r: &'static str)
        ensures
            r@ == method_name(*self),
    {
        match self {
            HttpMethod::Post => "POST",
            HttpMethod::Get => "GET",
            HttpMethod::Put => "PUT",
            HttpMethod::Delete => "DELETE",
            HttpMethod::Patch => "PATCH",
        }
    }
}

/// How a composite chain combines the outputs of its sub-handlers.
#[derive(Debug, Clone, Copy, PartialEq, Eq, Structural)]
pub enum CombineMode {
    /// Pipe output of handler N into handler N+1.
    Sequence,
    /// Run all handlers in parallel; return all results.
    Parallel,
    /// Run all handlers in parallel; merge outputs into a single object.
    Merge,
}

impl Default for CombineMode {
    fn default() -> (r: Self)
        ensures
            r == CombineMode::Sequence,
    {
        CombineMode::Sequence
    }
}

/// The name of a mode in JSON.
pub open spec fn mode_name(m: CombineMode) -> Seq<char> {
    match m {
        CombineMode::Sequence => "sequence"@,
        CombineMode::Parallel => "parallel"@,
        CombineMode::Merge => "merge"@,
    }
}

impl CombineMode {
    /// The name of the mode in JSON.
    pub fn as_str(&self) -> (r: &'static str)
        ensures
            r@ == mode_name(*self),
    {
        match self {
            CombineMode::Sequence => "sequence",
            CombineMode::Parallel => "parallel",
            CombineMode::Merge => "merge",
        }
    }
}

/// Builtin handler reference (object form).
#[derive(Debug, Clone)]
pub struct BuiltinHandlerRef {
    /// Discriminant: `"builtin"`.
    pub handler_type: BuiltinHandlerType,
    /// Handler name (registered on the builtin resolver).
    pub name: String,
    /// Optional default params merged with the caller's input.
    pub params: Option<Json>,
}

/// HTTP handler reference configuration.
#[derive(Debug, Clone)]
pub struct HttpHandlerRef {
    /// Discriminant: `"http"`.
    pub handler_type: HttpHandlerType,
    /// Target URL.
    pub url: String,
    /// HTTP method. Default: `POST`.
    pub method: HttpMethod,
    /// Headers, by name.
    pub headers: Vec<(String, String)>,
    /// Optional body template; merged with `include_input`.
    pub body_template: Option<Json>,
    /// Whether to merge the caller's `input` into the body. Default: `true`.
    pub include_input: bool,
    /// Dotted path to extract from the response body.
    pub response_path: Option<String>,
    /// Request timeout in milliseconds.
    pub timeout: Option<u64>,
}

/// Shell script handler reference configuration.
#[derive(Debug, Clone)]
pub struct ScriptHandlerRef {
    /// Discriminant: `"script"`.
    pub handler_type: ScriptHandlerType,
    /// Executable / shell command.
    pub command: String,
    /// Optional arguments.
    pub args: Option<Vec<String>>,
    /// Working directory.
    pub cwd: Option<String>,
    /// Additional environment variables, by name.
    pub env: Option<Vec<(String, String)>>,
    /// When `true`, send input as JSON over stdin.
    pub stdin_json: bool,
    /// When `true`, parse stdout as JSON.
    pub parse_json: bool,
    /// Timeout in milliseconds.
    pub timeout: Option<u64>,
}

/// Composite (chain) handler reference configuration.
#[derive(Debug, Clone)]
pub struct CompositeHandlerRef {
    /// Discriminant: `"composite"`.
    pub handler_type: CompositeHandlerType,
    /// Handler chain.
    pub chain: Vec<HandlerRef>,
    /// Combination mode. Default: `sequence`.
    pub combine: CombineMode,
    /// Whether to stop on the first error in `sequence` mode. Default: `true`.
    pub stop_on_error: bool,
}

/// Reference to a handler used inside serialized config.
#[derive(Debug)]
pub enum HandlerRef {
    /// Bare string: looked up as a builtin handler by name.
    BuiltinName(String),
    /// Builtin handler reference (object form).
    Builtin(BuiltinHandlerRef),
    /// HTTP handler reference.
    Http(HttpHandlerRef),
    /// Shell script handler reference.
    Script(ScriptHandlerRef),
    /// Composite (chain) handler reference.
    Composite(CompositeHandlerRef),
}

// ---------------------------------------------------------------------------
// Models
// ---------------------------------------------------------------------------

/// The model of a `HandlerRef`.
pub enum RefView {
    /// A builtin handler by its name.
    BuiltinName(Seq<char>),
    /// A builtin handler with default params.
    Builtin { name: Seq<char>, params: Option<JsonView> },
    /// A request.
    Http {
        url: Seq<char>,
        method: HttpMethod,
        headers: Seq<(Seq<char>, Seq<char>)>,
        body_template: Option<JsonView>,
        include_input: bool,
        response_path: Option<Seq<char>>,
        timeout: Option<u64>,
    },
    /// A process.
    Script {
        command: Seq<char>,
        args: Option<Seq<Seq<char>>>,
        cwd: Option<Seq<char>>,
        env: Option<Seq<(Seq<char>, Seq<char>)>>,
        stdin_json: bool,
        parse_json: bool,
        timeout: Option<u64>,
    },
    /// A chain.
    Composite { chain: Seq<RefView>, combine: CombineMode, stop_on_error: bool },
}

/// The pairs of a list that may be absent.
pub open spec fn optional_pairs(v: Option<Vec<(String, String)>>) -> Option<
    Seq<(Seq<char>, Seq<char>)>,
> {
    match v {
        Some(v) => Some(pairs_view(v@)),
        None => None,
    }
}

/// The model of `h`.
pub open spec fn ref_view(h: HandlerRef) -> RefView
    decreases h,
{
    match h {
        HandlerRef::BuiltinName(n) => RefView::BuiltinName(n@),
        HandlerRef::Builtin(b) => RefView::Builtin {
            name: b.name@,
            params: optional_view(b.params),
        },
        HandlerRef::Http(r) => RefView::Http {
            url: r.url@,
            method: r.method,
            headers: pairs_view(r.headers@),
            body_template: optional_view(r.body_template),
            include_input: r.include_input,
            response_path: optional_text(r.response_path),
            timeout: r.timeout,
        },
        HandlerRef::Script(s) => RefView::Script {
            command: s.command@,
            args: optional_texts(s.args),
            cwd: optional_text(s.cwd),
            env: optional_pairs(s.env),
            stdin_json: s.stdin_json,
            parse_json: s.parse_json,
            timeout: s.timeout,
        },
        HandlerRef::Composite(c) => RefView::Composite {
            chain: Seq::new(
                c.chain@.len(),
                |i: int|
                    if 0 <= i < c.chain@.len() {
                        ref_view(c.chain@[i])
                    } else {
                        arbitrary()
                    },
            ),
            combine: c.combine,
            stop_on_error: c.stop_on_error,
        },
    }
}

impl View for HandlerRef {
    type V = RefView;

    open spec fn view(&self) -> RefView {
        ref_view(*self)
    }
}

/// The models of the links of a chain.
pub open spec fn chain_view(v: Seq<HandlerRef>) -> Seq<RefView> {
    v.map_values(|h: HandlerRef| h@)
}

/// The chain of a composite's model is the models of its links.
pub proof fn lemma_chain_view(c: CompositeHandlerRef)
    ensures
        HandlerRef::Composite(c)@ == (RefView::Composite {
            chain: chain_view(c.chain@),
            combine: c.combine,
            stop_on_error: c.stop_on_error,
        }),
{
    assert(HandlerRef::Composite(c)@->chain =~= chain_view(c.chain@));
}

// ---------------------------------------------------------------------------
// Copies
// ---------------------------------------------------------------------------

/// Pairs of texts, copied.
pub fn clone_pairs(v: &Vec<(String, String)>) -> (r: Vec<(String, String)>)
    ensures
        pairs_view(r@) == pairs_view(v@),
{
    let mut out: Vec<(String, String)> = Vec::new();
    let mut i: usize = 0;
    let n = v.len();
    while i < n
        invariant
            i <= n,
            n == v@.len(),
            out@.len() == i,
            forall|k: int| 0 <= k < i ==> (#[trigger] out@[k]).0@ == v@[k].0@ && out@[k].1@ == v@[k].1@,
        decreases n - i,
    {
        out.push((v[i].0.clone(), v[i].1.clone()));
        i = i + 1;
    }
    assert(pairs_view(out@) =~= pairs_view(v@));
    out
}

fn clone_optional_pairs(v: &Option<Vec<(String, String)>>) -> (r: Option<Vec<(String, String)>>)
    ensures
        optional_pairs(r) == optional_pairs(*v),
{
    match v {
        Some(v) => Some(clone_pairs(v)),
        None => None,
    }
}

impl Clone for HandlerRef {
    fn clone(&self) -> (r: Self)
        ensures
            r@ == self@,
        decreases self,
    {
        match self {
            HandlerRef::BuiltinName(n) => HandlerRef::BuiltinName(n.clone()),
            HandlerRef::Builtin(b) => HandlerRef::Builtin(
                BuiltinHandlerRef {
                    handler_type: BuiltinHandlerType,
                    name: b.name.clone(),
                    params: clone_optional(&b.params),
                },
            ),
            HandlerRef::Http(h) => HandlerRef::Http(
                HttpHandlerRef {
                    handler_type: HttpHandlerType,
                    url: h.url.clone(),
                    method: h.method,
                    headers: clone_pairs(&h.headers),
                    body_template: clone_optional(&h.body_template),
                    include_input: h.include_input,
                    response_path: clone_text(&h.response_path),
                    timeout: h.timeout,
                },
            ),
            HandlerRef::Script(s) => HandlerRef::Script(
                ScriptHandlerRef {
                    handler_type: ScriptHandlerType,
                    command: s.command.clone(),
                    args: clone_texts(&s.args),
                    cwd: clone_text(&s.cwd),
                    env: clone_optional_pairs(&s.env),
                    stdin_json: s.stdin_json,
                    parse_json: s.parse_json,
                    timeout: s.timeout,
                },
            ),
            HandlerRef::Composite(c) => {
                let mut chain: Vec<HandlerRef> = Vec::new();
                let mut i: usize = 0;
                let n = c.chain.len();
                while i < n
                    invariant
                        i <= n,
                        n == c.chain@.len(),
                        *self == HandlerRef::Composite(*c),
                        chain_view(chain@) == chain_view(c.chain@).take(i as int),
                    decreases n - i,
                {
                    let ghost before = chain@;
                    assert(decreases_to!(*self => self->Composite_0.chain@[i as int]));
                    let h = c.chain[i].clone();
                    chain.push(h);
                    assert(chain_view(chain@) =~= chain_view(before).push(h@));
                    i = i + 1;
                }
                assert(chain_view(c.chain@).take(n as int) =~= chain_view(c.chain@));
                let copy = CompositeHandlerRef {
                    handler_type: CompositeHandlerType,
                    chain,
                    combine: c.combine,
                    stop_on_error: c.stop_on_error,
                };
                proof {
                    lemma_chain_view(copy);
                    lemma_chain_view(*c);
                }
                HandlerRef::Composite(copy)
            },
        }
    }
}

// ---------------------------------------------------------------------------
// JSON form
// ---------------------------------------------------------------------------

/// Pairs that may be absent, in JSON.
pub open spec fn optional_pairs_json(v: Option<Seq<(Seq<char>, Seq<char>)>>) -> JsonView {
    match v {
        Some(v) => pairs_json(v),
        None => JsonView::Null,
    }
}

/// A reference in JSON: a bare name as a string, anything else as an object with its type.
pub open spec fn ref_json(h: RefView) -> JsonView
    decreases h,
{
    match h {
        RefView::BuiltinName(n) => JsonView::String(n),
        RefView::Builtin { name, params } => JsonView::Object(
            object_of(
                seq![
                    ("type"@, JsonView::String("builtin"@)),
                    ("name"@, JsonView::String(name)),
                    ("params"@, or_null(params)),
                ],
            ),
        ),
        RefView::Http {
            url,
            method,
            headers,
            body_template,
            include_input,
            response_path,
            timeout,
        } => JsonView::Object(
            object_of(
                seq![
                    ("type"@, JsonView::String("http"@)),
                    ("url"@, JsonView::String(url)),
                    ("method"@, JsonView::String(method_name(method))),
                    ("headers"@, pairs_json(headers)),
                    ("bodyTemplate"@, or_null(body_template)),
                    ("includeInput"@, JsonView::Bool(include_input)),
                    ("responsePath"@, text_json(response_path)),
                    ("timeout"@, number_json(timeout)),
                ],
            ),
        ),
        RefView::Script { command, args, cwd, env, stdin_json, parse_json, timeout } =>
            JsonView::Object(
            object_of(
                seq![
                    ("type"@, JsonView::String("script"@)),
                    ("command"@, JsonView::String(command)),
                    ("args"@, list_json(args)),
                    ("cwd"@, text_json(cwd)),
                    ("env"@, optional_pairs_json(env)),
                    ("stdinJson"@, JsonView::Bool(stdin_json)),
                    ("parseJson"@, JsonView::Bool(parse_json)),
                    ("timeout"@, number_json(timeout)),
                ],
            ),
        ),
        RefView::Composite { chain, combine, stop_on_error } => JsonView::Object(
            object_of(
                seq![
                    ("type"@, JsonView::String("composite"@)),
                    ("chain"@, JsonView::Array(refs_json(chain))),
                    ("combine"@, JsonView::String(mode_name(combine))),
                    ("stopOnError"@, JsonView::Bool(stop_on_error)),
                ],
            ),
        ),
    }
}

/// The links of a chain in JSON.
pub open spec fn refs_json(chain: Seq<RefView>) -> Seq<JsonView>
    decreases chain,
{
    if chain.len() == 0 {
        Seq::empty()
    } else {
        refs_json(chain.drop_last()).push(ref_json(chain.last()))
    }
}

fn optional_pairs_to_json(v: &Option<Vec<(String, String)>>) -> (r: Json)
    ensures
        r@ == optional_pairs_json(optional_pairs(*v)),
{
    match v {
        Some(v) => pairs_to_json(v),
        None => Json::Null,
    }
}

fn literal(s: &str) -> (r: Json)
    ensures
        r@ == JsonView::String(s@),
{
    Json::String(String::from_str(s))
}

impl BuiltinHandlerRef {
    fn to_json(&self) -> (r: Json)
        ensures
            r@ == ref_json(HandlerRef::Builtin(*self)@),
    {
        let mut pairs: Vec<(String, Json)> = Vec::new();
        pairs.push(entry("type", literal("builtin")));
        pairs.push(entry("name", Json::String(self.name.clone())));
        pairs.push(entry("params", json_or_null(&self.params)));
        assert(members_view(pairs@) =~= seq![
            ("type"@, JsonView::String("builtin"@)),
            ("name"@, JsonView::String(self.name@)),
            ("params"@, or_null(optional_view(self.params))),
        ]);
        build_object(pairs)
    }
}

impl HttpHandlerRef {
    fn to_json(&self) -> (r: Json)
        ensures
            r@ == ref_json(HandlerRef::Http(*self)@),
    {
        let mut pairs: Vec<(String, Json)> = Vec::new();
        pairs.push(entry("type", literal("http")));
        pairs.push(entry("url", Json::String(self.url.clone())));
        pairs.push(entry("method", literal(self.method.as_str())));
        pairs.push(entry("headers", pairs_to_json(&self.headers)));
        pairs.push(entry("bodyTemplate", json_or_null(&self.body_template)));
        pairs.push(entry("includeInput", Json::Bool(self.include_input)));
        pairs.push(entry("responsePath", text_to_json(&self.response_path)));
        pairs.push(entry("timeout", number_to_json(self.timeout)));
        assert(members_view(pairs@) =~= seq![
            ("type"@, JsonView::String("http"@)),
            ("url"@, JsonView::String(self.url@)),
            ("method"@, JsonView::String(method_name(self.method))),
            ("headers"@, pairs_json(pairs_view(self.headers@))),
            ("bodyTemplate"@, or_null(optional_view(self.body_template))),
            ("includeInput"@, JsonView::Bool(self.include_input)),
            ("responsePath"@, text_json(optional_text(self.response_path))),
            ("timeout"@, number_json(self.timeout)),
        ]);
        build_object(pairs)
    }
}

impl ScriptHandlerRef {
    fn to_json(&self) -> (r: Json)
        ensures
            r@ == ref_json(HandlerRef::Script(*self)@),
    {
        let mut pairs: Vec<(String, Json)> = Vec::new();
        pairs.push(entry("type", literal("script")));
        pairs.push(entry("command", Json::String(self.command.clone())));
        pairs.push(entry("args", list_to_json(&self.args)));
        pairs.push(entry("cwd", text_to_json(&self.cwd)));
        pairs.push(entry("env", optional_pairs_to_json(&self.env)));
        pairs.push(entry("stdinJson", Json::Bool(self.stdin_json)));
        pairs.push(entry("parseJson", Json::Bool(self.parse_json)));
        pairs.push(entry("timeout", number_to_json(self.timeout)));
        assert(members_view(pairs@) =~= seq![
            ("type"@, JsonView::String("script"@)),
            ("command"@, JsonView::String(self.command@)),
            ("args"@, list_json(optional_texts(self.args))),
            ("cwd"@, text_json(optional_text(self.cwd))),
            ("env"@, optional_pairs_json(optional_pairs(self.env))),
            ("stdinJson"@, JsonView::Bool(self.stdin_json)),
            ("parseJson"@, JsonView::Bool(self.parse_json)),
            ("timeout"@, number_json(self.timeout)),
        ]);
        build_object(pairs)
    }
}

impl HandlerRef {
    /// The reference in JSON.
    pub fn to_json(&self) -> (r: Json)
        ensures
            r@ == ref_json(self@),
        decreases self,
    {
        match self {
            HandlerRef::BuiltinName(n) => Json::String(n.clone()),
            HandlerRef::Builtin(b) => b.to_json(),
            HandlerRef::Http(h) => h.to_json(),
            HandlerRef::Script(s) => s.to_json(),
            HandlerRef::Composite(c) => {
                let ghost all = chain_view(c.chain@);
                let mut items: Vec<Json> = Vec::new();
                let mut i: usize = 0;
                let n = c.chain.len();
                assert(all.take(0) =~= Seq::<RefView>::empty());
                assert(items_view(items@) =~= Seq::<JsonView>::empty());
                while i < n
                    invariant
                        i <= n,
                        n == c.chain@.len(),
                        *self == HandlerRef::Composite(*c),
                        all == chain_view(c.chain@),
                        items_view(items@) == refs_json(all.take(i as int)),
                    decreases n - i,
                {
                    let ghost before = items@;
                    assert(decreases_to!(*self => self->Composite_0.chain@[i as int]));
                    let j = c.chain[i].to_json();
                    items.push(j);
                    assert(items_view(items@) =~= items_view(before).push(j@));
                    assert(all.take(i + 1).drop_last() =~= all.take(i as int));
                    i = i + 1;
                }
                assert(all.take(n as int) =~= all);
                proof {
                    lemma_array_view(items);
                    lemma_chain_view(*c);
                }
                let mut pairs: Vec<(String, Json)> = Vec::new();
                pairs.push(entry("type", literal("composite")));
                pairs.push(entry("chain", Json::Array(items)));
                pairs.push(entry("combine", literal(c.combine.as_str())));
                pairs.push(entry("stopOnError", Json::Bool(c.stop_on_error)));
                assert(members_view(pairs@) =~= seq![
                    ("type"@, JsonView::String("composite"@)),
                    ("chain"@, JsonView::Array(refs_json(all))),
                    ("combine"@, JsonView::String(mode_name(c.combine))),
                    ("stopOnError"@, JsonView::Bool(c.stop_on_error)),
                ]);
                build_object(pairs)
            },
        }
    }
}

/// A reference that is a bare name is written as that name, and the references of a chain one by one.
pub proof fn law_bare_reference(name: Seq<char>, chain: Seq<RefView>)
    ensures
        ref_json(RefView::BuiltinName(name)) == JsonView::String(name),
        refs_json(chain).len() == chain.len(),
        forall|i: int| 0 <= i < chain.len() ==> #[trigger] refs_json(chain)[i] == ref_json(chain[i]),
    decreases chain.len(),
{
    if chain.len() > 0 {
        let front = chain.drop_last();
        law_bare_reference(name, front);
        assert forall|i: int| 0 <= i < chain.len() implies #[trigger] refs_json(chain)[i]
            == ref_json(chain[i]) by {
            if i < chain.len() - 1 {
                assert(refs_json(front)[i] == ref_json(front[i]));
            }
        }
    }
}

/// Methods and modes are written in the words of HTTP and of the configuration.
pub proof fn law_words_of_references()
    ensures
        method_name(HttpMethod::Post) == "POST"@,
        method_name(HttpMethod::Get) == "GET"@,
        method_name(HttpMethod::Put) == "PUT"@,
        method_name(HttpMethod::Delete) == "DELETE"@,
        method_name(HttpMethod::Patch) == "PATCH"@,
        mode_name(CombineMode::Sequence) == "sequence"@,
        mode_name(CombineMode::Parallel) == "parallel"@,
        mode_name(CombineMode::Merge) == "merge"@,
{
}

/// A reference to a built-in handler with parameters tells its type, its name and the parameters.
pub proof fn law_builtin_reference(h: RefView)
    ensures
        h matches RefView::Builtin { name, params } ==> {
            ref_json(h) matches JsonView::Object(m) && {
                &&& member(m, "type"@) == Some(JsonView::String("builtin"@))
                &&& member(m, "name"@) == Some(JsonView::String(name))
                &&& member(m, "params"@) == Some(or_null(params))
            }
        },
{
    if let RefView::Builtin { name, params } = h {
        reveal_strlit("type");
        reveal_strlit("name");
        reveal_strlit("params");
        assert("type"@.len() == 4);
        assert("name"@.len() == 4);
        assert("params"@.len() == 6);
        assert("type"@[0] != "name"@[0]);
        let pairs = seq![
            ("type"@, JsonView::String("builtin"@)),
            ("name"@, JsonView::String(name)),
            ("params"@, or_null(params)),
        ];
        law_object_holds(pairs, 0, "type"@);
        law_object_holds(pairs, 1, "name"@);
        law_object_holds(pairs, 2, "params"@);
    }
}

/// A reference to an HTTP handler tells its type and every setting of the request.
pub proof fn law_http_reference(h: RefView)
    ensures
        h matches RefView::Http { url, method, headers, body_template, include_input, response_path, timeout } ==> {
            ref_json(h) matches JsonView::Object(m) && {
                &&& member(m, "type"@) == Some(JsonView::String("http"@))
                &&& member(m, "url"@) == Some(JsonView::String(url))
                &&& member(m, "method"@) == Some(JsonView::String(method_name(method)))
                &&& member(m, "headers"@) == Some(pairs_json(headers))
                &&& member(m, "bodyTemplate"@) == Some(or_null(body_template))
                &&& member(m, "includeInput"@) == Some(JsonView::Bool(include_input))
                &&& member(m, "responsePath"@) == Some(text_json(response_path))
                &&& member(m, "timeout"@) == Some(number_json(timeout))
            }
        },
{
    if let RefView::Http { url, method, headers, body_template, include_input, response_path, timeout } = h {
        reveal_strlit("type");
        reveal_strlit("url");
        reveal_strlit("method");
        reveal_strlit("headers");
        reveal_strlit("bodyTemplate");
        reveal_strlit("includeInput");
        reveal_strlit("responsePath");
        reveal_strlit("timeout");
        assert("type"@.len() == 4);
        assert("url"@.len() == 3);
        assert("method"@.len() == 6);
        assert("headers"@.len() == 7);
        assert("bodyTemplate"@.len() == 12);
        assert("includeInput"@.len() == 12);
        assert("responsePath"@.len() == 12);
        assert("timeout"@.len() == 7);
        assert("headers"@[0] != "timeout"@[0]);
        assert("bodyTemplate"@[0] != "includeInput"@[0]);
        assert("bodyTemplate"@[0] != "responsePath"@[0]);
        assert("includeInput"@[0] != "responsePath"@[0]);
        let pairs = seq![
            ("type"@, JsonView::String("http"@)),
            ("url"@, JsonView::String(url)),
            ("method"@, JsonView::String(method_name(method))),
            ("headers"@, pairs_json(headers)),
            ("bodyTemplate"@, or_null(body_template)),
            ("includeInput"@, JsonView::Bool(include_input)),
            ("responsePath"@, text_json(response_path)),
            ("timeout"@, number_json(timeout)),
        ];
        law_object_holds(pairs, 0, "type"@);
        law_object_holds(pairs, 1, "url"@);
        law_object_holds(pairs, 2, "method"@);
        law_object_holds(pairs, 3, "headers"@);
        law_object_holds(pairs, 4, "bodyTemplate"@);
        law_object_holds(pairs, 5, "includeInput"@);
        law_object_holds(pairs, 6, "responsePath"@);
        law_object_holds(pairs, 7, "timeout"@);
    }
}

/// A reference to a script tells its type and every setting of the run.
pub proof fn law_script_reference(h: RefView)
    ensures
        h matches RefView::Script { command, args, cwd, env, stdin_json, parse_json, timeout } ==> {
            ref_json(h) matches JsonView::Object(m) && {
                &&& member(m, "type"@) == Some(JsonView::String("script"@))
                &&& member(m, "command"@) == Some(JsonView::String(command))
                &&& member(m, "args"@) == Some(list_json(args))
                &&& member(m, "cwd"@) == Some(text_json(cwd))
                &&& member(m, "env"@) == Some(optional_pairs_json(env))
                &&& member(m, "stdinJson"@) == Some(JsonView::Bool(stdin_json))
                &&& member(m, "parseJson"@) == Some(JsonView::Bool(parse_json))
                &&& member(m, "timeout"@) == Some(number_json(timeout))
            }
        },
{
    if let RefView::Script { command, args, cwd, env, stdin_json, parse_json, timeout } = h {
        reveal_strlit("type");
        reveal_strlit("command");
        reveal_strlit("args");
        reveal_strlit("cwd");
        reveal_strlit("env");
        reveal_strlit("stdinJson");
        reveal_strlit("parseJson");
        reveal_strlit("timeout");
        assert("type"@.len() == 4);
        assert("command"@.len() == 7);
        assert("args"@.len() == 4);
        assert("cwd"@.len() == 3);
        assert("env"@.len() == 3);
        assert("stdinJson"@.len() == 9);
        assert("parseJson"@.len() == 9);
        assert("timeout"@.len() == 7);
        assert("type"@[0] != "args"@[0]);
        assert("command"@[0] != "timeout"@[0]);
        assert("cwd"@[0] != "env"@[0]);
        assert("stdinJson"@[0] != "parseJson"@[0]);
        let pairs = seq![
            ("type"@, JsonView::String("script"@)),
            ("command"@, JsonView::String(command)),
            ("args"@, list_json(args)),
            ("cwd"@, text_json(cwd)),
            ("env"@, optional_pairs_json(env)),
            ("stdinJson"@, JsonView::Bool(stdin_json)),
            ("parseJson"@, JsonView::Bool(parse_json)),
            ("timeout"@, number_json(timeout)),
        ];
        law_object_holds(pairs, 0, "type"@);
        law_object_holds(pairs, 1, "command"@);
        law_object_holds(pairs, 2, "args"@);
        law_object_holds(pairs, 3, "cwd"@);
        law_object_holds(pairs, 4, "env"@);
        law_object_holds(pairs, 5, "stdinJson"@);
        law_object_holds(pairs, 6, "parseJson"@);
        law_object_holds(pairs, 7, "timeout"@);
    }
}

/// A reference to a composite handler tells its type, the chain, the mode and whether an error
/// stops it.
pub proof fn law_composite_reference(h: RefView)
    ensures
        h matches RefView::Composite { chain, combine, stop_on_error } ==> {
            ref_json(h) matches JsonView::Object(m) && {
                &&& member(m, "type"@) == Some(JsonView::String("composite"@))
                &&& member(m, "chain"@) == Some(JsonView::Array(refs_json(chain)))
                &&& member(m, "combine"@) == Some(JsonView::String(mode_name(combine)))
                &&& member(m, "stopOnError"@) == Some(JsonView::Bool(stop_on_error))
            }
        },
{
    if let RefView::Composite { chain, combine, stop_on_error } = h {
        reveal_strlit("type");
        reveal_strlit("chain");
        reveal_strlit("combine");
        reveal_strlit("stopOnError");
        assert("type"@.len() == 4);
        assert("chain"@.len() == 5);
        assert("combine"@.len() == 7);
        assert("stopOnError"@.len() == 11);
        let pairs = seq![
            ("type"@, JsonView::String("composite"@)),
            ("chain"@, JsonView::Array(refs_json(chain))),
            ("combine"@, JsonView::String(mode_name(combine))),
            ("stopOnError"@, JsonView::Bool(stop_on_error)),
        ];
        law_object_holds(pairs, 0, "type"@);
        law_object_holds(pairs, 1, "chain"@);
        law_object_holds(pairs, 2, "combine"@);
        law_object_holds(pairs, 3, "stopOnError"@);
    }
}

} // verus!
