//! References to handlers as messages show them.
use vstd::prelude::*;

use crate::error::debug_list;
use crate::error::debug_str;
use crate::error::debug_strings;
use crate::error::debug_text;
use crate::handler_refs::chain_view;
use crate::handler_refs::lemma_chain_view;
use crate::handler_refs::optional_pairs;
use crate::handler_refs::CombineMode;
use crate::handler_refs::HandlerRef;
use crate::handler_refs::HttpMethod;
use crate::handler_refs::RefView;
use crate::json::items_view;
use crate::json::lemma_array_view;
use crate::json::lemma_object_view;
use crate::json::members_view;
use crate::json::optional_view;
use crate::json::Json;
use crate::json::JsonNumber;
use crate::json::JsonView;
use crate::json::NumberView;
use crate::text::decimal;
use crate::text::decimal_int;
use crate::text::decimal_of;
use crate::text::decimal_of_int;
use crate::text::join;
use crate::text::join_strings;
use crate::text::pairs_view;
use crate::text::views;
use crate::types::optional_text;
use crate::types::optional_texts;

verus! {

/// A number in decimal.
pub open spec fn number_text(n: NumberView) -> Seq<char> {
    match n {
        NumberView::PosInt(n) => decimal(n),
        NumberView::NegInt(n) => decimal_int(n),
        NumberView::Float(t) => t,
    }
}

/// A value with the names of its kinds.
pub open spec fn json_debug(v: JsonView) -> Seq<char>
    decreases v,
{
    match v {
        JsonView::Null => "Null"@,
        JsonView::Bool(b) => if b {
            "Bool(true)"@
        } else {
            "Bool(false)"@
        },
        JsonView::Number(n) => "Number("@ + number_text(n) + ")"@,
        JsonView::String(s) => "String("@ + debug_text(s) + ")"@,
        JsonView::Array(items) => "Array ["@ + join(items_debug(items), ", "@) + "]"@,
        JsonView::Object(m) => "Object {"@ + join(members_debug(m), ", "@) + "}"@,
    }
}

/// Values, each with the names of its kinds.
pub open spec fn items_debug(items: Seq<JsonView>) -> Seq<Seq<char>>
    decreases items,
{
    if items.len() == 0 {
        Seq::empty()
    } else {
        items_debug(items.drop_last()).push(json_debug(items.last()))
    }
}

/// Members, each with its key and its value.
pub open spec fn members_debug(m: Seq<(Seq<char>, JsonView)>) -> Seq<Seq<char>>
    decreases m,
{
    if m.len() == 0 {
        Seq::empty()
    } else {
        members_debug(m.drop_last()).push(
            debug_text(m.last().0) + ": "@ + json_debug(m.last().1),
        )
    }
}

/// A value that may be absent.
pub open spec fn some_debug(s: Option<Seq<char>>) -> Seq<char> {
    match s {
        Some(s) => "Some("@ + s + ")"@,
        None => "None"@,
    }
}

/// Pairs of texts, in braces.
pub open spec fn pairs_debug(v: Seq<(Seq<char>, Seq<char>)>) -> Seq<char> {
    "{"@ + join(
        v.map_values(|p: (Seq<char>, Seq<char>)| debug_text(p.0) + ": "@ + debug_text(p.1)),
        ", "@,
    ) + "}"@
}

/// The name of a method in the library.
pub open spec fn method_debug(m: HttpMethod) -> Seq<char> {
    match m {
        HttpMethod::Post => "Post"@,
        HttpMethod::Get => "Get"@,
        HttpMethod::Put => "Put"@,
        HttpMethod::Delete => "Delete"@,
        HttpMethod::Patch => "Patch"@,
    }
}

/// The name of a mode in the library.
pub open spec fn mode_debug(m: CombineMode) -> Seq<char> {
    match m {
        CombineMode::Sequence => "Sequence"@,
        CombineMode::Parallel => "Parallel"@,
        CombineMode::Merge => "Merge"@,
    }
}

/// `true` or `false`.
pub open spec fn flag_text(b: bool) -> Seq<char> {
    if b {
        "true"@
    } else {
        "false"@
    }
}

/// What a quoted text that may be absent shows.
pub open spec fn maybe_quoted(s: Option<Seq<char>>) -> Seq<char> {
    some_debug(
        match s {
            Some(s) => Some(debug_text(s)),
            None => None,
        },
    )
}

/// What a count that may be absent shows.
pub open spec fn maybe_count(n: Option<u64>) -> Seq<char> {
    some_debug(
        match n {
            Some(n) => Some(decimal(n as nat)),
            None => None,
        },
    )
}

/// What a value that may be absent shows.
pub open spec fn maybe_value(v: Option<JsonView>) -> Seq<char> {
    some_debug(
        match v {
            Some(v) => Some(json_debug(v)),
            None => None,
        },
    )
}

/// What a list of texts that may be absent shows.
pub open spec fn maybe_list(v: Option<Seq<Seq<char>>>) -> Seq<char> {
    some_debug(
        match v {
            Some(v) => Some(debug_list(v)),
            None => None,
        },
    )
}

/// What pairs of texts that may be absent show.
pub open spec fn maybe_pairs(v: Option<Seq<(Seq<char>, Seq<char>)>>) -> Seq<char> {
    some_debug(
        match v {
            Some(v) => Some(pairs_debug(v)),
            None => None,
        },
    )
}

/// A reference with the names of its type and its fields.
pub open spec fn ref_debug(h: RefView) -> Seq<char>
    decreases h,
{
    match h {
        RefView::BuiltinName(n) => "BuiltinName("@ + debug_text(n) + ")"@,
        RefView::Builtin { name, params } =>
            "Builtin(BuiltinHandlerRef { handler_type: BuiltinHandlerType, name: "@ + debug_text(
            name,
        ) + ", params: "@ + maybe_value(params) + " })"@,
        RefView::Http {
            url,
            method,
            headers,
            body_template,
            include_input,
            response_path,
            timeout,
        } => "Http(HttpHandlerRef { handler_type: HttpHandlerType, url: "@ + debug_text(url)
            + ", method: "@ + method_debug(method) + ", headers: "@ + pairs_debug(headers)
            + ", body_template: "@ + maybe_value(body_template) + ", include_input: "@ + flag_text(
            include_input,
        ) + ", response_path: "@ + maybe_quoted(response_path) + ", timeout: "@ + maybe_count(
            timeout,
        ) + " })"@,
        RefView::Script { command, args, cwd, env, stdin_json, parse_json, timeout } =>
            "Script(ScriptHandlerRef { handler_type: ScriptHandlerType, command: "@ + debug_text(
            command,
        ) + ", args: "@ + maybe_list(args) + ", cwd: "@ + maybe_quoted(cwd) + ", env: "@
            + maybe_pairs(env) + ", stdin_json: "@ + flag_text(stdin_json) + ", parse_json: "@
            + flag_text(parse_json) + ", timeout: "@ + maybe_count(timeout) + " })"@,
        RefView::Composite { chain, combine, stop_on_error } =>
            "Composite(CompositeHandlerRef { handler_type: CompositeHandlerType, chain: ["@ + join(
            refs_debug(chain),
            ", "@,
        ) + "], combine: "@ + mode_debug(combine) + ", stop_on_error: "@ + flag_text(stop_on_error)
            + " })"@,
    }
}

/// References, each with the names of its type and its fields.
pub open spec fn refs_debug(chain: Seq<RefView>) -> Seq<Seq<char>>
    decreases chain,
{
    if chain.len() == 0 {
        Seq::empty()
    } else {
        refs_debug(chain.drop_last()).push(ref_debug(chain.last()))
    }
}

impl JsonNumber {
    /// The number in decimal.
    pub fn to_decimal(&self) -> (r: String)
        ensures
            r@ == number_text(self@),
    {
        match self {
            JsonNumber::PosInt(n) => decimal_of(*n),
            JsonNumber::NegInt(n) => decimal_of_int(*n),
            JsonNumber::Float(t) => t.clone(),
        }
    }
}

fn framed(open: &str, middle: &str, close: &str) -> (r: String)
    ensures
        r@ == open@ + middle@ + close@,
{
    let mut r = String::from_str(open);
    r.append(middle);
    r.append(close);
    r
}

impl Json {
    /// The value with the names of its kinds.
    pub fn to_debug(&self) -> (r: String)
        ensures
            r@ == json_debug(self@),
        decreases self,
    {
        match self {
            Json::Null => String::from_str("Null"),
            Json::Bool(b) => if *b {
                String::from_str("Bool(true)")
            } else {
                String::from_str("Bool(false)")
            },
            Json::Number(n) => framed("Number(", n.to_decimal().as_str(), ")"),
            Json::String(s) => framed("String(", debug_str(s.as_str()).as_str(), ")"),
            Json::Array(items) => {
                proof {
                    lemma_array_view(*items);
                }
                let ghost all = items_view(items@);
                let mut parts: Vec<String> = Vec::new();
                let n = items.len();
                let mut i: usize = 0;
                assert(all.take(0) =~= Seq::<JsonView>::empty());
                assert(views(parts@) =~= Seq::<Seq<char>>::empty());
                while i < n
                    invariant
                        i <= n,
                        n == items@.len(),
                        *self == Json::Array(*items),
                        all == items_view(items@),
                        views(parts@) == items_debug(all.take(i as int)),
                    decreases n - i,
                {
                    let ghost done = parts@;
                    assert(decreases_to!(*self => self->Array_0@[i as int]));
                    let p = items[i].to_debug();
                    parts.push(p);
                    assert(views(parts@) =~= views(done).push(p@));
                    assert(all.take(i + 1).drop_last() =~= all.take(i as int));
                    i = i + 1;
                }
                assert(all.take(n as int) =~= all);
                framed("Array [", join_strings(&parts, ", ").as_str(), "]")
            },
            Json::Object(m) => {
                proof {
                    lemma_object_view(*m);
                }
                let ghost all = members_view(m@);
                let mut parts: Vec<String> = Vec::new();
                let n = m.len();
                let mut i: usize = 0;
                assert(all.take(0) =~= Seq::<(Seq<char>, JsonView)>::empty());
                assert(views(parts@) =~= Seq::<Seq<char>>::empty());
                while i < n
                    invariant
                        i <= n,
                        n == m@.len(),
                        *self == Json::Object(*m),
                        all == members_view(m@),
                        views(parts@) == members_debug(all.take(i as int)),
                    decreases n - i,
                {
                    let ghost done = parts@;
                    assert(decreases_to!(*self => self->Object_0@[i as int].1));
                    let v = m[i].1.to_debug();
                    let p = framed(debug_str(m[i].0.as_str()).as_str(), ": ", v.as_str());
                    parts.push(p);
                    assert(views(parts@) =~= views(done).push(p@));
                    assert(all.take(i + 1).drop_last() =~= all.take(i as int));
                    assert(all.take(i + 1).last() == (m@[i as int].0@, m@[i as int].1@));
                    i = i + 1;
                }
                assert(all.take(n as int) =~= all);
                framed("Object {", join_strings(&parts, ", ").as_str(), "}")
            },
        }
    }
}

fn push_some(out: &mut String, s: Option<String>)
    ensures
        final(out)@ == old(out)@ + some_debug(optional_text(s)),
{
    match s {
        Some(s) => {
            out.append("Some(");
            out.append(s.as_str());
            out.append(")");
            assert(out@ =~= old(out)@ + some_debug(Some(s@)));
        },
        None => out.append("None"),
    }
}

fn push_quoted(out: &mut String, s: &Option<String>)
    ensures
        final(out)@ == old(out)@ + maybe_quoted(optional_text(*s)),
{
    let shown = match s {
        Some(s) => Some(debug_str(s.as_str())),
        None => None,
    };
    push_some(out, shown);
}

fn push_count(out: &mut String, n: Option<u64>)
    ensures
        final(out)@ == old(out)@ + maybe_count(n),
{
    let shown = match n {
        Some(n) => Some(decimal_of(n)),
        None => None,
    };
    push_some(out, shown);
}

fn push_value(out: &mut String, v: &Option<Json>)
    ensures
        final(out)@ == old(out)@ + maybe_value(optional_view(*v)),
{
    let shown = match v {
        Some(v) => Some(v.to_debug()),
        None => None,
    };
    push_some(out, shown);
}

fn push_list(out: &mut String, v: &Option<Vec<String>>)
    ensures
        final(out)@ == old(out)@ + maybe_list(optional_texts(*v)),
{
    let shown = match v {
        Some(v) => Some(debug_strings(v)),
        None => None,
    };
    push_some(out, shown);
}

fn show_pairs(v: &Vec<(String, String)>) -> (r: String)
    ensures
        r@ == pairs_debug(pairs_view(v@)),
{
    let ghost all = pairs_view(v@).map_values(
        |p: (Seq<char>, Seq<char>)| debug_text(p.0) + ": "@ + debug_text(p.1),
    );
    let mut parts: Vec<String> = Vec::new();
    let n = v.len();
    let mut i: usize = 0;
    while i < n
        invariant
            i <= n,
            n == v@.len(),
            all == pairs_view(v@).map_values(
                |p: (Seq<char>, Seq<char>)| debug_text(p.0) + ": "@ + debug_text(p.1),
            ),
            views(parts@) == all.take(i as int),
        decreases n - i,
    {
        let ghost done = parts@;
        let p = framed(
            debug_str(v[i].0.as_str()).as_str(),
            ": ",
            debug_str(v[i].1.as_str()).as_str(),
        );
        parts.push(p);
        assert(views(parts@) =~= views(done).push(p@));
        assert(all.take(i + 1) =~= all.take(i as int).push(all[i as int]));
        i = i + 1;
    }
    assert(all.take(n as int) =~= all);
    framed("{", join_strings(&parts, ", ").as_str(), "}")
}

fn push_pairs(out: &mut String, v: &Option<Vec<(String, String)>>)
    ensures
        final(out)@ == old(out)@ + maybe_pairs(optional_pairs(*v)),
{
    let shown = match v {
        Some(v) => Some(show_pairs(v)),
        None => None,
    };
    push_some(out, shown);
}

fn flag(b: bool) -> (r: &'static str)
    ensures
        r@ == flag_text(b),
{
    if b {
        "true"
    } else {
        "false"
    }
}

fn method_shown(m: HttpMethod) -> (r: &'static str)
    ensures
        r@ == method_debug(m),
{
    match m {
        HttpMethod::Post => "Post",
        HttpMethod::Get => "Get",
        HttpMethod::Put => "Put",
        HttpMethod::Delete => "Delete",
        HttpMethod::Patch => "Patch",
    }
}

fn mode_shown(m: CombineMode) -> (r: &'static str)
    ensures
        r@ == mode_debug(m),
{
    match m {
        CombineMode::Sequence => "Sequence",
        CombineMode::Parallel => "Parallel",
        CombineMode::Merge => "Merge",
    }
}

impl HandlerRef {
    /// The reference with the names of its type and its fields.
    pub fn to_debug(&self) -> (r: String)
        ensures
            r@ == ref_debug(self@),
        decreases self,
    {
        match self {
            HandlerRef::BuiltinName(n) => framed(
                "BuiltinName(",
                debug_str(n.as_str()).as_str(),
                ")",
            ),
            HandlerRef::Builtin(b) => {
                let mut r = String::from_str(
                    "Builtin(BuiltinHandlerRef { handler_type: BuiltinHandlerType, name: ",
                );
                r.append(debug_str(b.name.as_str()).as_str());
                r.append(", params: ");
                push_value(&mut r, &b.params);
                r.append(" })");
                r
            },
            HandlerRef::Http(h) => {
                let mut r = String::from_str(
                    "Http(HttpHandlerRef { handler_type: HttpHandlerType, url: ",
                );
                r.append(debug_str(h.url.as_str()).as_str());
                r.append(", method: ");
                r.append(method_shown(h.method));
                r.append(", headers: ");
                r.append(show_pairs(&h.headers).as_str());
                r.append(", body_template: ");
                push_value(&mut r, &h.body_template);
                r.append(", include_input: ");
                r.append(flag(h.include_input));
                r.append(", response_path: ");
                push_quoted(&mut r, &h.response_path);
                r.append(", timeout: ");
                push_count(&mut r, h.timeout);
                r.append(" })");
                r
            },
            HandlerRef::Script(s) => {
                let mut r = String::from_str(
                    "Script(ScriptHandlerRef { handler_type: ScriptHandlerType, command: ",
                );
                r.append(debug_str(s.command.as_str()).as_str());
                r.append(", args: ");
                push_list(&mut r, &s.args);
                r.append(", cwd: ");
                push_quoted(&mut r, &s.cwd);
                r.append(", env: ");
                push_pairs(&mut r, &s.env);
                r.append(", stdin_json: ");
                r.append(flag(s.stdin_json));
                r.append(", parse_json: ");
                r.append(flag(s.parse_json));
                r.append(", timeout: ");
                push_count(&mut r, s.timeout);
                r.append(" })");
                r
            },
            HandlerRef::Composite(c) => {
                let ghost all = chain_view(c.chain@);
                let mut parts: Vec<String> = Vec::new();
                let n = c.chain.len();
                let mut i: usize = 0;
                assert(all.take(0) =~= Seq::<RefView>::empty());
                assert(views(parts@) =~= Seq::<Seq<char>>::empty());
                while i < n
                    invariant
                        i <= n,
                        n == c.chain@.len(),
                        *self == HandlerRef::Composite(*c),
                        all == chain_view(c.chain@),
                        views(parts@) == refs_debug(all.take(i as int)),
                    decreases n - i,
                {
                    let ghost done = parts@;
                    assert(decreases_to!(*self => self->Composite_0.chain@[i as int]));
                    let p = c.chain[i].to_debug();
                    parts.push(p);
                    assert(views(parts@) =~= views(done).push(p@));
                    assert(all.take(i + 1).drop_last() =~= all.take(i as int));
                    i = i + 1;
                }
                assert(all.take(n as int) =~= all);
                proof {
                    lemma_chain_view(*c);
                }
                let mut r = String::from_str(
                    "Composite(CompositeHandlerRef { handler_type: CompositeHandlerType, chain: [",
                );
                r.append(join_strings(&parts, ", ").as_str());
                r.append("], combine: ");
                r.append(mode_shown(c.combine));
                r.append(", stop_on_error: ");
                r.append(flag(c.stop_on_error));
                r.append(" })");
                r
            },
        }
    }
}

} // verus!
