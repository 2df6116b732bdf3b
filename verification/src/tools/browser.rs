//! The `browser` tool: a browser that is led step by step.
//!
//! The browser is run by a worker, which reads one request on a line and answers on a line.
//! The worker is started and spoken to by the caller. Here an action is read and checked, the
//! lines are written and read.
use vstd::prelude::*;

use crate::error::ErrorView;
use crate::error::ToolError;
use crate::json::build_object;
use crate::json::count_json;
use crate::json::count_to_json;
use crate::json::entry;
use crate::json::field;
use crate::json::law_object_holds;
use crate::json::lemma_object_view;
use crate::json::members_of;
use crate::json::members_view;
use crate::json::object_of;
use crate::json::str_to_json;
use crate::json::string_in;
use crate::json::Json;
use crate::json::JsonView;
use crate::json_text::json_parsed;
use crate::json_text::json_text;
use crate::json_text::written;
use crate::text::contains;
use crate::text::has;
use crate::text::same;
use crate::text::trim;
use crate::text::trim_str;

verus! {

/// How many lines a worker may print before it is ready.
pub const READY_LINES: usize = 10;

/// An action that the worker knows.
pub open spec fn is_action(a: Seq<char>) -> bool {
    a == "open"@ || a == "goto"@ || a == "click"@ || a == "type"@ || a == "fill"@ || a
        == "screenshot"@ || a == "extract"@ || a == "evaluate"@ || a == "close"@
}

fn known_action(a: &str) -> (r: bool)
    ensures
        r == is_action(a@),
{
    same(a, "open") || same(a, "goto") || same(a, "click") || same(a, "type") || same(a, "fill")
        || same(a, "screenshot") || same(a, "extract") || same(a, "evaluate") || same(a, "close")
}

/// What the browser is to do.
#[derive(Debug)]
pub struct BrowserCall {
    /// The action.
    pub action: String,
    /// What it is done with.
    pub params: Json,
}

/// The members other than the one with this key.
pub open spec fn without_member(m: Seq<(Seq<char>, JsonView)>, k: Seq<char>) -> Seq<
    (Seq<char>, JsonView),
> {
    m.filter(|p: (Seq<char>, JsonView)| p.0 != k)
}

fn drop_member(v: &Json, k: &str) -> (r: Json)
    requires
        v is Object,
    ensures
        r@ == JsonView::Object(without_member(members_of(v@), k@)),
{
    match v {
        Json::Object(m) => {
            proof {
                lemma_object_view(*m);
            }
            let ghost all = members_view(m@);
            let ghost p = |e: (Seq<char>, JsonView)| e.0 != k@;
            let mut kept: Vec<(String, Json)> = Vec::new();
            let n = m.len();
            let mut i: usize = 0;
            proof {
                reveal(Seq::filter);
                assert(all.take(0) =~= Seq::<(Seq<char>, JsonView)>::empty());
                assert(members_view(kept@) =~= Seq::<(Seq<char>, JsonView)>::empty());
            }
            while i < n
                invariant
                    i <= n,
                    n == m@.len(),
                    all == members_view(m@),
                    p == (|e: (Seq<char>, JsonView)| e.0 != k@),
                    members_view(kept@) == all.take(i as int).filter(p),
                decreases n - i,
            {
                let ghost done = members_view(kept@);
                proof {
                    assert(all.take(i + 1) =~= all.take(i as int).push(all[i as int]));
                    all.take(i as int).lemma_filter_push(all[i as int], p);
                    assert(all[i as int] == (m@[i as int].0@, m@[i as int].1@));
                }
                if !same(m[i].0.as_str(), k) {
                    kept.push((m[i].0.clone(), m[i].1.clone()));
                    assert(members_view(kept@) =~= done.push(all[i as int]));
                }
                i = i + 1;
            }
            assert(all.take(n as int) =~= all);
            proof {
                lemma_object_view(kept);
            }
            Json::Object(kept)
        },
        _ => Json::Null,
    }
}

/// Reads what the browser is to do: the action, and everything else of the input.
pub fn parse_browser(input: &Json) -> (r: Result<BrowserCall, ToolError>)
    ensures
        match string_in(field(input@, "action"@)) {
            None => r matches Err(e) && e@ == ErrorView::Other("action required"@),
            Some(a) => if is_action(a) {
                r matches Ok(c) && c.action@ == a && c.params@ == JsonView::Object(
                    without_member(members_of(input@), "action"@),
                )
            } else {
                r matches Err(e) && e@ == ErrorView::Other("unknown: "@ + a)
            },
        },
{
    match input.get_str("action") {
        None => Err(ToolError::other("action required")),
        Some(a) => {
            if known_action(a.as_str()) {
                Ok(BrowserCall { action: a.clone(), params: drop_member(input, "action") })
            } else {
                let mut m = String::from_str("unknown: ");
                m.append(a.as_str());
                Err(ToolError::other(m.as_str()))
            }
        },
    }
}

/// A request to the worker.
pub open spec fn request_json(id: nat, method: Seq<char>, params: JsonView) -> JsonView {
    JsonView::Object(
        object_of(
            seq![
                ("id"@, count_json(id)),
                ("method"@, JsonView::String(method)),
                ("params"@, params),
            ],
        ),
    )
}

/// A request to the worker, on a line.
pub fn request_line(id: u64, call: &BrowserCall) -> (r: String)
    ensures
        r@ == json_text(written(request_json(id as nat, call.action@, call.params@))) + "\n"@,
{
    let mut pairs: Vec<(String, Json)> = Vec::new();
    pairs.push(entry("id", count_to_json(id)));
    pairs.push(entry("method", str_to_json(call.action.as_str())));
    pairs.push(entry("params", call.params.clone()));
    assert(members_view(pairs@) =~= seq![
        ("id"@, count_json(id as nat)),
        ("method"@, JsonView::String(call.action@)),
        ("params"@, call.params@),
    ]);
    let mut r = build_object(pairs).to_text();
    r.append("\n");
    r
}

/// What comes of an answer of the worker.
pub open spec fn reply_outcome(reply: JsonView) -> Result<JsonView, Seq<char>> {
    match string_in(field(reply, "error"@)) {
        Some(e) => Err("browser: "@ + e),
        None => match field(reply, "result"@) {
            Some(v) => Ok(v),
            None => Ok(JsonView::Object(Seq::empty())),
        },
    }
}

/// What comes of an answer of the worker.
pub fn judge_reply(reply: &Json) -> (r: Result<Json, ToolError>)
    ensures
        match r {
            Ok(v) => reply_outcome(reply@) == Ok::<JsonView, Seq<char>>(v@),
            Err(e) => reply_outcome(reply@) is Err && e@ == ErrorView::Other(
                reply_outcome(reply@)->Err_0,
            ),
        },
{
    match reply.get_str("error") {
        Some(e) => {
            let mut m = String::from_str("browser: ");
            m.append(e.as_str());
            return Err(ToolError::other(m.as_str()));
        },
        None => {},
    }
    match reply.get("result") {
        Some(v) => Ok(v.clone()),
        None => {
            let none: Vec<(String, Json)> = Vec::new();
            proof {
                lemma_object_view(none);
                assert(members_view(none@) =~= Seq::<(Seq<char>, JsonView)>::empty());
            }
            Ok(Json::Object(none))
        },
    }
}

/// What comes of a line that the worker answers.
pub open spec fn line_outcome(line: Seq<char>) -> Result<JsonView, Seq<char>> {
    match json_parsed(line) {
        Ok(v) => reply_outcome(v),
        Err(e) => Err("parse: "@ + e),
    }
}

/// What comes of a line that the worker answers.
pub fn read_reply(line: &str) -> (r: Result<Json, ToolError>)
    ensures
        match r {
            Ok(v) => line_outcome(line@) == Ok::<JsonView, Seq<char>>(v@),
            Err(e) => line_outcome(line@) is Err && e@ == ErrorView::Other(
                line_outcome(line@)->Err_0,
            ),
        },
{
    match Json::parse(line) {
        Ok(v) => judge_reply(&v),
        Err(why) => {
            let mut m = String::from_str("parse: ");
            m.append(why.as_str());
            Err(ToolError::other(m.as_str()))
        },
    }
}

/// Whether a line of the worker says that it is ready.
pub fn says_ready(line: &str) -> (r: bool)
    ensures
        r == contains(line@, "ready"@),
{
    has(line, "ready")
}

/// The error for a worker that did not get ready, with the last line that it printed.
pub fn not_ready(last: &str) -> (r: ToolError)
    ensures
        r@ == ErrorView::Other("worker not ready: "@ + trim(last@)),
{
    let mut m = String::from_str("worker not ready: ");
    m.append(trim_str(last).as_str());
    ToolError::other(m.as_str())
}

/// The browser knows nine actions.
pub proof fn law_actions(a: Seq<char>)
    ensures
        is_action(a) <==> seq![
            "open"@,
            "goto"@,
            "click"@,
            "type"@,
            "fill"@,
            "screenshot"@,
            "extract"@,
            "evaluate"@,
            "close"@,
        ].contains(a),
{
    let all = seq![
        "open"@,
        "goto"@,
        "click"@,
        "type"@,
        "fill"@,
        "screenshot"@,
        "extract"@,
        "evaluate"@,
        "close"@,
    ];
    assert(all[0] == "open"@);
    assert(all[1] == "goto"@);
    assert(all[2] == "click"@);
    assert(all[3] == "type"@);
    assert(all[4] == "fill"@);
    assert(all[5] == "screenshot"@);
    assert(all[6] == "extract"@);
    assert(all[7] == "evaluate"@);
    assert(all[8] == "close"@);
}

/// A request names its number, the action and what it is called with.
pub proof fn law_request(id: nat, method: Seq<char>, params: JsonView)
    ensures
        field(request_json(id, method, params), "id"@) == Some(count_json(id)),
        field(request_json(id, method, params), "method"@) == Some(JsonView::String(method)),
        field(request_json(id, method, params), "params"@) == Some(params),
{
    let pairs = seq![
        ("id"@, count_json(id)),
        ("method"@, JsonView::String(method)),
        ("params"@, params),
    ];
    reveal_strlit("id");
    reveal_strlit("method");
    reveal_strlit("params");
    assert("id"@.len() == 2);
    assert("method"@.len() == 6);
    assert("params"@.len() == 6);
    assert("method"@[0] != "params"@[0]);
    law_object_holds(pairs, 0, "id"@);
    law_object_holds(pairs, 1, "method"@);
    law_object_holds(pairs, 2, "params"@);
}

/// An action is called with all members of the input but the one that names it.
pub proof fn law_members_left(m: Seq<(Seq<char>, JsonView)>, k: Seq<char>, e: (Seq<char>, JsonView))
    ensures
        without_member(m, k).contains(e) <==> m.contains(e) && e.0 != k,
    decreases m.len(),
{
    reveal(Seq::filter);
    let w = without_member(m, k);
    if m.len() > 0 {
        let rest = m.drop_last();
        let d = without_member(rest, k);
        law_members_left(rest, k, e);
        assert(w == if m.last().0 != k {
            d.push(m.last())
        } else {
            d
        });
        if w.contains(e) {
            let i = choose|i: int| 0 <= i < w.len() && w[i] == e;
            if i < d.len() {
                assert(d[i] == e);
                let j = choose|j: int| 0 <= j < rest.len() && rest[j] == e;
                assert(m[j] == e);
            } else {
                assert(m[m.len() - 1] == e);
            }
        }
        if m.contains(e) && e.0 != k {
            let j = choose|j: int| 0 <= j < m.len() && m[j] == e;
            if j < rest.len() {
                assert(rest[j] == e);
                let i = choose|i: int| 0 <= i < d.len() && d[i] == e;
                assert(w[i] == e);
            } else {
                assert(w[d.len() as int] == e);
            }
        }
    }
}

/// A reply with an error fails with it; any other gives its result, and an empty one where it has
/// none.
pub proof fn law_reply(reply: JsonView)
    ensures
        field(reply, "error"@) matches Some(JsonView::String(e)) ==> reply_outcome(reply) == Err::<
            JsonView,
            Seq<char>,
        >("browser: "@ + e),
        field(reply, "error"@) is None ==> (field(reply, "result"@) matches Some(v)
            ==> reply_outcome(reply) == Ok::<JsonView, Seq<char>>(v)),
        field(reply, "error"@) is None && field(reply, "result"@) is None ==> reply_outcome(reply)
            == Ok::<JsonView, Seq<char>>(JsonView::Object(Seq::empty())),
{
}

/// A line that is JSON counts as the reply that it holds, and any other line as a fault.
pub proof fn law_line(line: Seq<char>)
    ensures
        json_parsed(line) matches Ok(v) ==> line_outcome(line) == reply_outcome(v),
        json_parsed(line) matches Err(e) ==> line_outcome(line) == Err::<JsonView, Seq<char>>(
            "parse: "@ + e,
        ),
{
}

} // verus!
