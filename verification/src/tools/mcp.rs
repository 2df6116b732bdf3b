//! The `mcp` tools: servers of tools that speak JSON-RPC over their input and output.
//!
//! The servers are started and spoken to by the caller. Here requests are read, the lines are
//! written and read, and the answers are put together.
use vstd::prelude::*;

use crate::error::ErrorView;
use crate::error::ToolError;
use crate::json::array_in;
use crate::json::build_object;
use crate::json::count_json;
use crate::json::count_to_json;
use crate::json::entry;
use crate::json::field;
use crate::json::items_view;
use crate::json::law_object_holds;
use crate::json::lemma_array_view;
use crate::json::lemma_object_view;
use crate::json::members_view;
use crate::json::object_of;
use crate::json::or_null;
use crate::json::str_to_json;
use crate::json::string_in;
use crate::json::Json;
use crate::json::JsonView;
use crate::json_text::json_parsed;
use crate::json_text::json_text;
use crate::json_text::written;
use crate::text::split_words;
use crate::text::views;
use crate::text::words;
use crate::tools::ast::number_or;
use crate::tools::screenshot::member_count;

verus! {

/// An object without members.
pub open spec fn no_members() -> JsonView {
    JsonView::Object(Seq::empty())
}

fn empty_object() -> (r: Json)
    ensures
        r@ == no_members(),
{
    let none: Vec<(String, Json)> = Vec::new();
    proof {
        lemma_object_view(none);
        assert(members_view(none@) =~= Seq::<(Seq<char>, JsonView)>::empty());
    }
    Json::Object(none)
}

/// A request of JSON-RPC.
pub open spec fn rpc_json(id: nat, method: Seq<char>, params: JsonView) -> JsonView {
    JsonView::Object(
        object_of(
            seq![
                ("jsonrpc"@, JsonView::String("2.0"@)),
                ("id"@, count_json(id)),
                ("method"@, JsonView::String(method)),
                ("params"@, params),
            ],
        ),
    )
}

/// A request of JSON-RPC, on a line.
pub open spec fn rpc_text(id: nat, method: Seq<char>, params: JsonView) -> Seq<char> {
    json_text(written(rpc_json(id, method, params))) + "\n"@
}

fn rpc_line(id: u64, method: &str, params: Json) -> (r: String)
    ensures
        r@ == rpc_text(id as nat, method@, params@),
{
    let mut pairs: Vec<(String, Json)> = Vec::new();
    pairs.push(entry("jsonrpc", str_to_json("2.0")));
    pairs.push(entry("id", count_to_json(id)));
    pairs.push(entry("method", str_to_json(method)));
    pairs.push(entry("params", params));
    assert(members_view(pairs@) =~= seq![
        ("jsonrpc"@, JsonView::String("2.0"@)),
        ("id"@, count_json(id as nat)),
        ("method"@, JsonView::String(method@)),
        ("params"@, params@),
    ]);
    let mut r = build_object(pairs).to_text();
    r.append("\n");
    r
}

/// Who is asking.
pub open spec fn client_json() -> JsonView {
    JsonView::Object(
        object_of(
            seq![
                ("name"@, JsonView::String("latte-agent"@)),
                ("version"@, JsonView::String("0.1.0"@)),
            ],
        ),
    )
}

/// What a server is told at first.
pub open spec fn hello_json() -> JsonView {
    JsonView::Object(
        object_of(
            seq![
                ("protocolVersion"@, JsonView::String("0.1.0"@)),
                ("capabilities"@, no_members()),
                ("clientInfo"@, client_json()),
            ],
        ),
    )
}

/// The first line that a server is told.
pub fn initialize_line() -> (r: String)
    ensures
        r@ == rpc_text(1, "initialize"@, hello_json()),
{
    let mut client: Vec<(String, Json)> = Vec::new();
    client.push(entry("name", str_to_json("latte-agent")));
    client.push(entry("version", str_to_json("0.1.0")));
    assert(members_view(client@) =~= seq![
        ("name"@, JsonView::String("latte-agent"@)),
        ("version"@, JsonView::String("0.1.0"@)),
    ]);
    let mut hello: Vec<(String, Json)> = Vec::new();
    hello.push(entry("protocolVersion", str_to_json("0.1.0")));
    hello.push(entry("capabilities", empty_object()));
    hello.push(entry("clientInfo", build_object(client)));
    assert(members_view(hello@) =~= seq![
        ("protocolVersion"@, JsonView::String("0.1.0"@)),
        ("capabilities"@, no_members()),
        ("clientInfo"@, client_json()),
    ]);
    rpc_line(1, "initialize", build_object(hello))
}

/// The line that asks a server for its tools.
pub fn list_tools_line() -> (r: String)
    ensures
        r@ == rpc_text(2, "tools/list"@, no_members()),
{
    rpc_line(2, "tools/list", empty_object())
}

/// A call of a tool.
pub open spec fn call_json(tool: Seq<char>, arguments: JsonView) -> JsonView {
    JsonView::Object(
        object_of(seq![("name"@, JsonView::String(tool)), ("arguments"@, arguments)]),
    )
}

// ---------------------------------------------------------------------------
// Servers
// ---------------------------------------------------------------------------

/// What is said of the servers that are connected.
pub open spec fn servers_answer(servers: Seq<Seq<char>>) -> JsonView {
    JsonView::Object(
        object_of(
            seq![
                (
                    "servers"@,
                    JsonView::Array(servers.map_values(|s: Seq<char>| server_json(s))),
                ),
                ("count"@, count_json(servers.len())),
            ],
        ),
    )
}

/// What is said of a server.
pub open spec fn server_json(s: Seq<char>) -> JsonView {
    JsonView::Object(object_of(seq![("server"@, JsonView::String(s))]))
}

/// Lists the servers that are connected, by the commands that started them.
pub fn list_servers(servers: &Vec<String>) -> (r: Json)
    ensures
        r@ == servers_answer(views(servers@)),
{
    let ghost all = views(servers@);
    let ghost want = all.map_values(|s: Seq<char>| server_json(s));
    let mut items: Vec<Json> = Vec::new();
    let n = servers.len();
    let mut i: usize = 0;
    while i < n
        invariant
            i <= n,
            n == servers@.len(),
            all == views(servers@),
            want == all.map_values(|s: Seq<char>| server_json(s)),
            items@.len() == i,
            forall|k: int| 0 <= k < i ==> (#[trigger] items@[k])@ == want[k],
        decreases n - i,
    {
        let mut pairs: Vec<(String, Json)> = Vec::new();
        pairs.push(entry("server", str_to_json(servers[i].as_str())));
        assert(members_view(pairs@) =~= seq![("server"@, JsonView::String(all[i as int]))]);
        items.push(build_object(pairs));
        i = i + 1;
    }
    assert(items_view(items@) =~= want);
    proof {
        lemma_array_view(items);
    }
    let mut pairs: Vec<(String, Json)> = Vec::new();
    pairs.push(entry("servers", Json::Array(items)));
    pairs.push(entry("count", count_to_json(n as u64)));
    assert(members_view(pairs@) =~= seq![
        ("servers"@, JsonView::Array(want)),
        ("count"@, count_json(all.len())),
    ]);
    build_object(pairs)
}

/// A server that is to be started.
#[derive(Debug)]
pub struct ServerLaunch {
    /// The whole command.
    pub command: String,
    /// The program.
    pub program: String,
    /// Its arguments.
    pub args: Vec<String>,
}

/// Reads which server is to be started: the words of the command are the program and its
/// arguments.
pub fn parse_connect(input: &Json) -> (r: Result<ServerLaunch, ToolError>)
    ensures
        match string_in(field(input@, "command"@)) {
            None => r matches Err(e) && e@ == ErrorView::Other("command required"@),
            Some(c) => r matches Ok(l) && l.command@ == c && if words(c).len() == 0 {
                l.program@ == "npx"@ && l.args@.len() == 0
            } else {
                l.program@ == words(c)[0] && views(l.args@) == words(c).drop_first()
            },
        },
{
    match input.get_str("command") {
        None => Err(ToolError::other("command required")),
        Some(c) => {
            let mut parts = split_words(c.as_str());
            let ghost all = views(parts@);
            if parts.len() == 0 {
                assert(all.len() == 0);
                Ok(
                    ServerLaunch {
                        command: c.clone(),
                        program: String::from_str("npx"),
                        args: Vec::new(),
                    },
                )
            } else {
                let ghost held = parts@;
                let program = parts.remove(0);
                assert(program@ == all[0]);
                assert(views(parts@) =~= all.drop_first());
                Ok(ServerLaunch { command: c.clone(), program, args: parts })
            }
        },
    }
}

/// The tools that an answer lists.
pub open spec fn tools_listed(reply: JsonView) -> Seq<JsonView> {
    match field(reply, "result"@) {
        Some(result) => match array_in(field(result, "tools"@)) {
            Some(tools) => tools,
            None => Seq::empty(),
        },
        None => Seq::empty(),
    }
}

/// What is said of a tool of a server.
pub open spec fn tool_json(t: JsonView) -> JsonView {
    JsonView::Object(
        object_of(
            seq![
                ("name"@, or_null(field(t, "name"@))),
                ("description"@, or_null(field(t, "description"@))),
            ],
        ),
    )
}

/// What is said of a server that was connected.
pub open spec fn connected_answer(command: Seq<char>, tools: Seq<JsonView>) -> JsonView {
    JsonView::Object(
        object_of(
            seq![
                ("server"@, JsonView::String(command)),
                ("tools_found"@, count_json(tools.len())),
                ("tools"@, JsonView::Array(tools.map_values(|t: JsonView| tool_json(t)))),
                ("status"@, JsonView::String("connected"@)),
            ],
        ),
    )
}

fn member_or_null(v: &Json, name: &str) -> (r: Json)
    ensures
        r@ == or_null(field(v@, name@)),
{
    match v.get(name) {
        Some(x) => x.clone(),
        None => Json::Null,
    }
}

/// Answers for a server that was connected, given what it answered when it was asked for its
/// tools.
pub fn describe_server(command: &str, reply: &Json) -> (r: Json)
    ensures
        r@ == connected_answer(command@, tools_listed(reply@)),
{
    let ghost all = tools_listed(reply@);
    let ghost want = all.map_values(|t: JsonView| tool_json(t));
    let mut items: Vec<Json> = Vec::new();
    match reply.get("result") {
        Some(result) => match result.get_array("tools") {
            Some(tools) => {
                assert(all == items_view(tools@));
                let n = tools.len();
                let mut i: usize = 0;
                while i < n
                    invariant
                        i <= n,
                        n == tools@.len(),
                        all == items_view(tools@),
                        want == all.map_values(|t: JsonView| tool_json(t)),
                        items@.len() == i,
                        forall|k: int| 0 <= k < i ==> (#[trigger] items@[k])@ == want[k],
                    decreases n - i,
                {
                    let t = &tools[i];
                    let mut pairs: Vec<(String, Json)> = Vec::new();
                    pairs.push(entry("name", member_or_null(t, "name")));
                    pairs.push(entry("description", member_or_null(t, "description")));
                    assert(all[i as int] == t@);
                    assert(members_view(pairs@) =~= seq![
                        ("name"@, or_null(field(t@, "name"@))),
                        ("description"@, or_null(field(t@, "description"@))),
                    ]);
                    items.push(build_object(pairs));
                    i = i + 1;
                }
            },
            None => {},
        },
        None => {},
    }
    assert(items_view(items@) =~= want);
    let count = items.len() as u64;
    proof {
        lemma_array_view(items);
    }
    let mut pairs: Vec<(String, Json)> = Vec::new();
    pairs.push(entry("server", str_to_json(command)));
    pairs.push(entry("tools_found", count_to_json(count)));
    pairs.push(entry("tools", Json::Array(items)));
    pairs.push(entry("status", str_to_json("connected")));
    assert(members_view(pairs@) =~= seq![
        ("server"@, JsonView::String(command@)),
        ("tools_found"@, count_json(all.len())),
        ("tools"@, JsonView::Array(want)),
        ("status"@, JsonView::String("connected"@)),
    ]);
    build_object(pairs)
}

/// What a line says; nothing where it is no JSON.
pub open spec fn line_value(line: Seq<char>) -> JsonView {
    match json_parsed(line) {
        Ok(v) => v,
        Err(_) => JsonView::Null,
    }
}

/// Answers for a server that was connected, given the line that it answered when it was asked
/// for its tools.
pub fn finish_connect(command: &str, line: &str) -> (r: Json)
    ensures
        r@ == connected_answer(command@, tools_listed(line_value(line@))),
{
    let reply = match Json::parse(line) {
        Ok(v) => v,
        Err(_) => Json::Null,
    };
    describe_server(command, &reply)
}

// ---------------------------------------------------------------------------
// Calls
// ---------------------------------------------------------------------------

/// A call of a tool of a server.
#[derive(Debug)]
pub struct ServerCall {
    /// The tool.
    pub tool: String,
    /// What it is called with.
    pub arguments: Json,
    /// Which server has it, in the order in which they were connected.
    pub server: u64,
}

/// Reads which tool is to be called.
pub fn parse_call(input: &Json) -> (r: Result<ServerCall, ToolError>)
    ensures
        match string_in(field(input@, "tool"@)) {
            None => r matches Err(e) && e@ == ErrorView::Other("tool name required"@),
            Some(t) => r matches Ok(c) && c.tool@ == t && c.arguments@ == (match field(
                input@,
                "arguments"@,
            ) {
                Some(a) => a,
                None => no_members(),
            }) && c.server as nat == number_or(field(input@, "server_index"@), 0),
        },
{
    match input.get_str("tool") {
        None => Err(ToolError::other("tool name required")),
        Some(t) => {
            let arguments = match input.get("arguments") {
                Some(a) => a.clone(),
                None => empty_object(),
            };
            let server = member_count(input, "server_index", 0);
            Ok(ServerCall { tool: t.clone(), arguments, server })
        },
    }
}

/// The place of the server that is called, where so many are connected.
pub fn find_server(call: &ServerCall, connected: usize) -> (r: Result<usize, ToolError>)
    ensures
        match r {
            Ok(i) => i == call.server && i < connected,
            Err(e) => call.server >= connected && e@ == ErrorView::Other(
                "no server; use mcp_connect first"@,
            ),
        },
{
    if call.server < connected as u64 {
        Ok(call.server as usize)
    } else {
        Err(ToolError::other("no server; use mcp_connect first"))
    }
}

/// The line that calls a tool.
pub fn call_line(call: &ServerCall) -> (r: String)
    ensures
        r@ == rpc_text(3, "tools/call"@, call_json(call.tool@, call.arguments@)),
{
    let mut pairs: Vec<(String, Json)> = Vec::new();
    pairs.push(entry("name", str_to_json(call.tool.as_str())));
    pairs.push(entry("arguments", call.arguments.clone()));
    assert(members_view(pairs@) =~= seq![
        ("name"@, JsonView::String(call.tool@)),
        ("arguments"@, call.arguments@),
    ]);
    rpc_line(3, "tools/call", build_object(pairs))
}

/// What comes of the line that a server answers: its result, the whole of it where it has
/// none, or the line where it is no JSON.
pub open spec fn call_outcome(line: Seq<char>, parsed: Option<JsonView>) -> JsonView {
    match parsed {
        Some(v) => match field(v, "result"@) {
            Some(result) => result,
            None => v,
        },
        None => JsonView::Object(object_of(seq![("raw"@, JsonView::String(line))])),
    }
}

/// What comes of the line that a server answers, given what it says.
pub fn judge_call(line: &str, parsed: Option<Json>) -> (r: Json)
    ensures
        r@ == call_outcome(
            line@,
            match parsed {
                Some(v) => Some(v@),
                None => None,
            },
        ),
{
    match parsed {
        Some(v) => match v.get("result") {
            Some(result) => result.clone(),
            None => v.clone(),
        },
        None => {
            let mut pairs: Vec<(String, Json)> = Vec::new();
            pairs.push(entry("raw", str_to_json(line)));
            assert(members_view(pairs@) =~= seq![("raw"@, JsonView::String(line@))]);
            build_object(pairs)
        },
    }
}

/// What comes of the line that a server answers.
pub fn finish_call(line: &str) -> (r: Json)
    ensures
        r@ == call_outcome(
            line@,
            match json_parsed(line@) {
                Ok(v) => Some(v),
                Err(_) => None,
            },
        ),
{
    match Json::parse(line) {
        Ok(v) => judge_call(line, Some(v)),
        Err(_) => judge_call(line, None),
    }
}

// ---------------------------------------------------------------------------
// What is said to a server, and what it says
// ---------------------------------------------------------------------------

/// A request names the protocol, its number, the method and what it is called with.
pub proof fn law_request(id: nat, method: Seq<char>, params: JsonView)
    ensures
        field(rpc_json(id, method, params), "jsonrpc"@) == Some(JsonView::String("2.0"@)),
        field(rpc_json(id, method, params), "id"@) == Some(count_json(id)),
        field(rpc_json(id, method, params), "method"@) == Some(JsonView::String(method)),
        field(rpc_json(id, method, params), "params"@) == Some(params),
        rpc_text(id, method, params) == json_text(written(rpc_json(id, method, params))) + "\n"@,
{
    let pairs = seq![
        ("jsonrpc"@, JsonView::String("2.0"@)),
        ("id"@, count_json(id)),
        ("method"@, JsonView::String(method)),
        ("params"@, params),
    ];
    reveal_strlit("jsonrpc");
    reveal_strlit("id");
    reveal_strlit("method");
    reveal_strlit("params");
    assert("jsonrpc"@.len() == 7);
    assert("id"@.len() == 2);
    assert("method"@.len() == 6);
    assert("params"@.len() == 6);
    assert("method"@[0] != "params"@[0]);
    law_object_holds(pairs, 0, "jsonrpc"@);
    law_object_holds(pairs, 1, "id"@);
    law_object_holds(pairs, 2, "method"@);
    law_object_holds(pairs, 3, "params"@);
}

/// A call names the tool and its arguments.
pub proof fn law_call(tool: Seq<char>, arguments: JsonView)
    ensures
        field(call_json(tool, arguments), "name"@) == Some(JsonView::String(tool)),
        field(call_json(tool, arguments), "arguments"@) == Some(arguments),
{
    let pairs = seq![("name"@, JsonView::String(tool)), ("arguments"@, arguments)];
    reveal_strlit("name");
    reveal_strlit("arguments");
    assert("name"@.len() == 4);
    assert("arguments"@.len() == 9);
    law_object_holds(pairs, 0, "name"@);
    law_object_holds(pairs, 1, "arguments"@);
}

/// The tools of a server are those that its reply lists under `result`; without such a list it has
/// none.
pub proof fn law_tools_listed(reply: JsonView, result: JsonView, tools: Seq<JsonView>)
    ensures
        field(reply, "result"@) == Some(result) && field(result, "tools"@) == Some(
            JsonView::Array(tools),
        ) ==> tools_listed(reply) == tools,
        field(reply, "result"@) is None ==> tools_listed(reply).len() == 0,
        field(reply, "result"@) == Some(result) && field(result, "tools"@) is None ==> tools_listed(
            reply,
        ).len() == 0,
{
}

/// What is said of a server: its command, how many tools it has, and the name and description of
/// each, in order.
pub proof fn law_connected(command: Seq<char>, tools: Seq<JsonView>, i: int)
    requires
        0 <= i < tools.len(),
    ensures
        ({
            let a = connected_answer(command, tools);
            &&& field(a, "server"@) == Some(JsonView::String(command))
            &&& field(a, "tools_found"@) == Some(count_json(tools.len()))
            &&& field(a, "status"@) == Some(JsonView::String("connected"@))
            &&& field(a, "tools"@) matches Some(JsonView::Array(items)) && items.len()
                == tools.len() && field(items[i], "name"@) == Some(or_null(field(tools[i], "name"@)))
                && field(items[i], "description"@) == Some(
                or_null(field(tools[i], "description"@)),
            )
        }),
{
    let pairs = seq![
        ("server"@, JsonView::String(command)),
        ("tools_found"@, count_json(tools.len())),
        ("tools"@, JsonView::Array(tools.map_values(|t: JsonView| tool_json(t)))),
        ("status"@, JsonView::String("connected"@)),
    ];
    let one = seq![
        ("name"@, or_null(field(tools[i], "name"@))),
        ("description"@, or_null(field(tools[i], "description"@))),
    ];
    reveal_strlit("server");
    reveal_strlit("tools_found");
    reveal_strlit("tools");
    reveal_strlit("status");
    reveal_strlit("name");
    reveal_strlit("description");
    assert("server"@.len() == 6);
    assert("tools_found"@.len() == 11);
    assert("tools"@.len() == 5);
    assert("status"@.len() == 6);
    assert("name"@.len() == 4);
    assert("description"@.len() == 11);
    assert("server"@[1] != "status"@[1]);
    assert("tools_found"@[0] != "description"@[0]);
    law_object_holds(pairs, 0, "server"@);
    law_object_holds(pairs, 1, "tools_found"@);
    law_object_holds(pairs, 2, "tools"@);
    law_object_holds(pairs, 3, "status"@);
    law_object_holds(one, 0, "name"@);
    law_object_holds(one, 1, "description"@);
}

/// What comes of a call: the result in the reply; the whole reply where it has none; and the line
/// itself where it is no JSON.
pub proof fn law_call_outcome(line: Seq<char>, v: JsonView)
    ensures
        field(v, "result"@) matches Some(r) ==> call_outcome(line, Some(v)) == r,
        field(v, "result"@) is None ==> call_outcome(line, Some(v)) == v,
        field(call_outcome(line, None), "raw"@) == Some(JsonView::String(line)),
{
    let pairs = seq![("raw"@, JsonView::String(line))];
    law_object_holds(pairs, 0, "raw"@);
}

/// The servers are listed in order, and counted.
pub proof fn law_servers(servers: Seq<Seq<char>>, i: int)
    requires
        0 <= i < servers.len(),
    ensures
        field(servers_answer(servers), "count"@) == Some(count_json(servers.len())),
        field(servers_answer(servers), "servers"@) matches Some(JsonView::Array(items))
            && items.len() == servers.len() && field(items[i], "server"@) == Some(
            JsonView::String(servers[i]),
        ),
{
    let pairs = seq![
        ("servers"@, JsonView::Array(servers.map_values(|s: Seq<char>| server_json(s)))),
        ("count"@, count_json(servers.len())),
    ];
    let one = seq![("server"@, JsonView::String(servers[i]))];
    reveal_strlit("servers");
    reveal_strlit("count");
    assert("servers"@.len() == 7);
    assert("count"@.len() == 5);
    law_object_holds(pairs, 0, "servers"@);
    law_object_holds(pairs, 1, "count"@);
    law_object_holds(one, 0, "server"@);
}

/// The first request says which protocol is spoken, and by whom.
pub proof fn law_hello()
    ensures
        field(hello_json(), "protocolVersion"@) == Some(JsonView::String("0.1.0"@)),
        field(hello_json(), "capabilities"@) == Some(JsonView::Object(Seq::empty())),
        field(hello_json(), "clientInfo"@) matches Some(c) && field(c, "name"@) == Some(
            JsonView::String("latte-agent"@),
        ) && field(c, "version"@) == Some(JsonView::String("0.1.0"@)),
{
    let pairs = seq![
        ("protocolVersion"@, JsonView::String("0.1.0"@)),
        ("capabilities"@, no_members()),
        ("clientInfo"@, client_json()),
    ];
    let who = seq![
        ("name"@, JsonView::String("latte-agent"@)),
        ("version"@, JsonView::String("0.1.0"@)),
    ];
    reveal_strlit("protocolVersion");
    reveal_strlit("capabilities");
    reveal_strlit("clientInfo");
    reveal_strlit("name");
    reveal_strlit("version");
    assert("protocolVersion"@.len() == 15);
    assert("capabilities"@.len() == 12);
    assert("clientInfo"@.len() == 10);
    assert("name"@.len() == 4);
    assert("version"@.len() == 7);
    law_object_holds(pairs, 0, "protocolVersion"@);
    law_object_holds(pairs, 1, "capabilities"@);
    law_object_holds(pairs, 2, "clientInfo"@);
    law_object_holds(who, 0, "name"@);
    law_object_holds(who, 1, "version"@);
}

} // verus!
