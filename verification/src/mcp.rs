//! The memory tools as a local MCP server over stdio: newline-delimited JSON-RPC 2.0,
//! one handshake and six tools. This module decides what each request is answered with;
//! reading, writing and the HTTP calls stay with the caller.
use vstd::prelude::*;
use crate::json::{Json, JsonV, insert_key, member, lookup, view_items, lemma_view_items};
use crate::text::{concat, str_eq, usize_to_string, decimal, views};
use crate::title::{trim, trim_spec};

verus! {

/// The protocol versions this server speaks.
pub open spec fn supported_protocol(v: Seq<char>) -> bool {
    v == "2025-06-18"@ || v == "2025-03-26"@ || v == "2024-11-05"@
}

/// The version named when the client's is unknown.
pub const FALLBACK_PROTOCOL: &'static str = "2025-06-18";

/// `{}` as a value.
pub open spec fn empty_obj() -> JsonV {
    JsonV::Object(Seq::empty())
}

/// An object value with the members set in turn.
pub open spec fn with_member(o: JsonV, k: Seq<char>, v: JsonV) -> JsonV {
    match o {
        JsonV::Object(m) => JsonV::Object(insert_key(m, k, v)),
        _ => o,
    }
}

/// The text of a signed number.
pub open spec fn int_text(n: int) -> Seq<char> {
    if n < 0 {
        seq!['-'] + decimal((-n) as nat)
    } else {
        decimal(n as nat)
    }
}

fn i32_text(n: i32) -> (r: String)
    ensures
        r@ == int_text(n as int),
{
    if n < 0 {
        let m: u32 = if n == i32::MIN {
            2147483648u32
        } else {
            (-n) as u32
        };
        proof {
            reveal_strlit("-");
            assert(m as int == -(n as int));
        }
        concat("-", usize_to_string(m as usize).as_str())
    } else {
        usize_to_string(n as usize)
    }
}

/// A JSON-RPC error answer.
pub open spec fn error_response_spec(id: JsonV, code: int, message: Seq<char>) -> JsonV {
    with_member(
        with_member(with_member(empty_obj(), "jsonrpc"@, JsonV::Str("2.0"@)), "id"@, id),
        "error"@,
        with_member(with_member(empty_obj(), "code"@, JsonV::Number(int_text(code))), "message"@, JsonV::Str(message)),
    )
}

pub fn error_response(id: Json, code: i32, message: &str) -> (r: Json)
    ensures
        r@ == error_response_spec(id@, code as int, message@),
{
    let mut err = Json::object();
    err.insert("code", Json::number(i32_text(code).as_str()));
    err.insert("message", Json::string(message));
    let mut r = Json::object();
    r.insert("jsonrpc", Json::string("2.0"));
    r.insert("id", id);
    r.insert("error", err);
    r
}

/// A JSON-RPC answer carrying a result.
pub open spec fn result_response_spec(id: JsonV, result: JsonV) -> JsonV {
    with_member(with_member(with_member(empty_obj(), "jsonrpc"@, JsonV::Str("2.0"@)), "id"@, id), "result"@, result)
}

pub fn result_response(id: Json, result: Json) -> (r: Json)
    ensures
        r@ == result_response_spec(id@, result@),
{
    let mut r = Json::object();
    r.insert("jsonrpc", Json::string("2.0"));
    r.insert("id", id);
    r.insert("result", result);
    r
}

/// `[{ "type": "text", "text": <text> }]`, the content of a tool result.
pub open spec fn text_content(text: Seq<char>) -> JsonV {
    JsonV::Array(seq![with_member(with_member(empty_obj(), "type"@, JsonV::Str("text"@)), "text"@, JsonV::Str(text))])
}

fn text_content_exec(text: &str) -> (r: Json)
    ensures
        r@ == text_content(text@),
{
    let mut item = Json::object();
    item.insert("type", Json::string("text"));
    item.insert("text", Json::string(text));
    let mut v: Vec<Json> = Vec::new();
    v.push(item);
    let r = Json::array(v);
    proof {
        lemma_view_items(v@);
        assert(view_items(v@) =~= seq![v@[0]@]);
    }
    r
}

/// What a tool call returns: its payload as text (pretty-printed JSON).
pub open spec fn tool_result_spec(payload_text: Seq<char>) -> JsonV {
    with_member(empty_obj(), "content"@, text_content(payload_text))
}

pub fn tool_result(payload_text: &str) -> (r: Json)
    ensures
        r@ == tool_result_spec(payload_text@),
{
    let mut r = Json::object();
    r.insert("content", text_content_exec(payload_text));
    r
}

/// A failed tool is a result with `isError`, not a JSON-RPC error, so that the agent sees
/// the message and can correct itself.
pub open spec fn tool_failure_spec(id: JsonV, message: Seq<char>) -> JsonV {
    result_response_spec(
        id,
        with_member(with_member(empty_obj(), "isError"@, JsonV::Bool(true)), "content"@, text_content(message)),
    )
}

pub fn tool_failure(id: Json, message: &str) -> (r: Json)
    ensures
        r@ == tool_failure_spec(id@, message@),
{
    let mut res = Json::object();
    res.insert("isError", Json::Bool(true));
    res.insert("content", text_content_exec(message));
    result_response(id, res)
}

/// The string at `k` of an object, when it is one.
pub open spec fn str_member(v: JsonV, k: Seq<char>) -> Option<Seq<char>> {
    match member(v, k) {
        Some(JsonV::Str(s)) => Some(s),
        _ => None,
    }
}

fn str_member_exec(v: &Json, k: &str) -> (r: Option<String>)
    ensures
        match str_member(v@, k@) {
            Some(s) => r matches Some(x) && x@ == s,
            None => r is None,
        },
{
    match v.get(k) {
        Some(Json::Str(s)) => Some(s.clone()),
        _ => None,
    }
}

/// The protocol version the handshake answers with: the client's when it is one this
/// server speaks, else the fallback.
pub open spec fn protocol_spec(request: JsonV) -> Seq<char> {
    let requested = match member(request, "params"@) {
        Some(p) => match str_member(p, "protocolVersion"@) {
            Some(v) => v,
            None => FALLBACK_PROTOCOL@,
        },
        None => FALLBACK_PROTOCOL@,
    };
    if supported_protocol(requested) {
        requested
    } else {
        FALLBACK_PROTOCOL@
    }
}

/// The handshake's result: protocol version, the tools capability, the server's name and
/// version, and the note methodology (trimmed) as instructions.
pub open spec fn initialize_spec(request: JsonV, instructions: Seq<char>, version: Seq<char>) -> JsonV {
    with_member(
        with_member(
            with_member(
                with_member(empty_obj(), "protocolVersion"@, JsonV::Str(protocol_spec(request))),
                "capabilities"@,
                with_member(empty_obj(), "tools"@, empty_obj()),
            ),
            "serverInfo"@,
            with_member(with_member(empty_obj(), "name"@, JsonV::Str("sandseal-memory"@)), "version"@, JsonV::Str(version)),
        ),
        "instructions"@,
        JsonV::Str(trim_spec(instructions)),
    )
}

pub fn initialize_result(request: &Json, instructions: &str, version: &str) -> (r: Json)
    ensures
        r@ == initialize_spec(request@, instructions@, version@),
{
    let requested = match request.get("params") {
        Some(p) => match str_member_exec(p, "protocolVersion") {
            Some(v) => v,
            None => FALLBACK_PROTOCOL.to_owned(),
        },
        None => FALLBACK_PROTOCOL.to_owned(),
    };
    let supported = str_eq(requested.as_str(), "2025-06-18") || str_eq(requested.as_str(), "2025-03-26")
        || str_eq(requested.as_str(), "2024-11-05");
    let protocol = if supported {
        requested
    } else {
        FALLBACK_PROTOCOL.to_owned()
    };
    let mut caps = Json::object();
    caps.insert("tools", Json::object());
    let mut info = Json::object();
    info.insert("name", Json::string("sandseal-memory"));
    info.insert("version", Json::string(version));
    let mut r = Json::object();
    r.insert("protocolVersion", Json::string(protocol.as_str()));
    r.insert("capabilities", caps);
    r.insert("serverInfo", info);
    r.insert("instructions", Json::string(trim(instructions).as_str()));
    r
}


/// A memory tool call, with its arguments read.
pub enum ToolCall {
    Search { query: String, limit: u32, include_linked: bool, tags: Option<Vec<String>> },
    AddNote { content: String, tags: Option<Vec<String>> },
    GetNote { id: String },
    UpdateNote { id: String, content: Option<String>, tags: Option<Vec<String>> },
    DeleteNote { id: String },
    LinkNotes { id: String, target_id: String, relation: Option<String> },
}

pub enum ToolCallView {
    Search { query: Seq<char>, limit: u32, include_linked: bool, tags: Option<Seq<Seq<char>>> },
    AddNote { content: Seq<char>, tags: Option<Seq<Seq<char>>> },
    GetNote { id: Seq<char> },
    UpdateNote { id: Seq<char>, content: Option<Seq<char>>, tags: Option<Seq<Seq<char>>> },
    DeleteNote { id: Seq<char> },
    LinkNotes { id: Seq<char>, target_id: Seq<char>, relation: Option<Seq<char>> },
}

pub open spec fn opt_str(o: Option<String>) -> Option<Seq<char>> {
    match o {
        Some(s) => Some(s@),
        None => None,
    }
}

pub open spec fn opt_strs(o: Option<Vec<String>>) -> Option<Seq<Seq<char>>> {
    match o {
        Some(v) => Some(views(v@)),
        None => None,
    }
}

pub open spec fn call_view(c: ToolCall) -> ToolCallView {
    match c {
        ToolCall::Search { query, limit, include_linked, tags } => ToolCallView::Search {
            query: query@,
            limit,
            include_linked,
            tags: opt_strs(tags),
        },
        ToolCall::AddNote { content, tags } => ToolCallView::AddNote { content: content@, tags: opt_strs(tags) },
        ToolCall::GetNote { id } => ToolCallView::GetNote { id: id@ },
        ToolCall::UpdateNote { id, content, tags } => ToolCallView::UpdateNote {
            id: id@,
            content: opt_str(content),
            tags: opt_strs(tags),
        },
        ToolCall::DeleteNote { id } => ToolCallView::DeleteNote { id: id@ },
        ToolCall::LinkNotes { id, target_id, relation } => ToolCallView::LinkNotes {
            id: id@,
            target_id: target_id@,
            relation: opt_str(relation),
        },
    }
}

/// The `tags` argument: the strings of its array, when it is one.
pub open spec fn tags_arg(args: JsonV) -> Option<Seq<Seq<char>>> {
    match member(args, "tags"@) {
        Some(JsonV::Array(items)) => Some(crate::merge::string_items(items)),
        _ => None,
    }
}

/// A non-negative integer argument, as `Value::as_u64` reads it.
pub open spec fn u64_arg(args: JsonV, k: Seq<char>) -> Option<u64> {
    match member(args, k) {
        Some(JsonV::Number(t)) => if t.len() > 0 && crate::text::all_digits(t) && crate::text::digits_value(t)
            <= u64::MAX {
            Some(crate::text::digits_value(t) as u64)
        } else {
            None
        },
        _ => None,
    }
}

/// A boolean argument.
pub open spec fn bool_arg(args: JsonV, k: Seq<char>) -> Option<bool> {
    match member(args, k) {
        Some(JsonV::Bool(b)) => Some(b),
        _ => None,
    }
}

/// A required string argument, or the error naming it.
pub open spec fn required(args: JsonV, k: Seq<char>) -> Result<Seq<char>, Seq<char>> {
    match str_member(args, k) {
        Some(s) => Ok(s),
        None => Err(k + " is required"@),
    }
}

/// The tool call a `tools/call` request asks for: the tool by `params.name`, its arguments
/// from `params.arguments`. A search takes at most fifty results (ten by default); an
/// update needs content or tags; an unknown tool is an error naming it.
pub open spec fn plan_spec(request: JsonV) -> Result<ToolCallView, Seq<char>> {
    let params = match member(request, "params"@) {
        Some(p) => p,
        None => empty_obj(),
    };
    let name = match str_member(params, "name"@) {
        Some(n) => n,
        None => Seq::empty(),
    };
    let args = match member(params, "arguments"@) {
        Some(a) => a,
        None => empty_obj(),
    };
    if name == "search_memory"@ {
        match required(args, "query"@) {
            Err(e) => Err(e),
            Ok(q) => {
                let asked = match u64_arg(args, "limit"@) {
                    Some(n) => n,
                    None => 10,
                };
                Ok(ToolCallView::Search {
                    query: q,
                    limit: (if asked < 50 {
                        asked
                    } else {
                        50
                    }) as u32,
                    include_linked: match bool_arg(args, "include_linked"@) {
                        Some(b) => b,
                        None => false,
                    },
                    tags: tags_arg(args),
                })
            },
        }
    } else if name == "add_note"@ {
        match required(args, "content"@) {
            Err(e) => Err(e),
            Ok(c) => Ok(ToolCallView::AddNote { content: c, tags: tags_arg(args) }),
        }
    } else if name == "get_note"@ {
        match required(args, "id"@) {
            Err(e) => Err(e),
            Ok(i) => Ok(ToolCallView::GetNote { id: i }),
        }
    } else if name == "update_note"@ {
        match required(args, "id"@) {
            Err(e) => Err(e),
            Ok(i) => if member(args, "content"@) is None && member(args, "tags"@) is None {
                Err("provide at least one of content or tags"@)
            } else {
                Ok(ToolCallView::UpdateNote { id: i, content: str_member(args, "content"@), tags: tags_arg(args) })
            },
        }
    } else if name == "delete_note"@ {
        match required(args, "id"@) {
            Err(e) => Err(e),
            Ok(i) => Ok(ToolCallView::DeleteNote { id: i }),
        }
    } else if name == "link_notes"@ {
        match required(args, "id"@) {
            Err(e) => Err(e),
            Ok(i) => match required(args, "targetId"@) {
                Err(e) => Err(e),
                Ok(t) => Ok(ToolCallView::LinkNotes { id: i, target_id: t, relation: str_member(args, "relation"@) }),
            },
        }
    } else {
        Err("unknown tool: "@ + name)
    }
}

fn required_exec(args: &Json, k: &str) -> (r: Result<String, String>)
    ensures
        match required(args@, k@) {
            Ok(s) => r matches Ok(x) && x@ == s,
            Err(e) => r matches Err(m) && m@ == e,
        },
{
    match str_member_exec(args, k) {
        Some(s) => Ok(s),
        None => Err(concat(k, " is required")),
    }
}

fn tags_exec(args: &Json) -> (r: Option<Vec<String>>)
    ensures
        opt_strs(r) == tags_arg(args@),
{
    match args.get("tags") {
        Some(Json::Array(items)) => Some(crate::merge::strings_of(items)),
        _ => None,
    }
}

fn u64_exec(args: &Json, k: &str) -> (r: Option<u64>)
    ensures
        r == u64_arg(args@, k@),
{
    match args.get(k) {
        Some(Json::Number(t)) => {
            let cs = crate::text::chars_of(t.as_str());
            if cs.len() == 0 {
                return None;
            }
            let mut i: usize = 0;
            while i < cs.len()
                invariant
                    i <= cs.len(),
                    cs@ == t@,
                    member(args@, k@) == Some(JsonV::Number(t@)),
                    forall|j: int| 0 <= j < i ==> crate::text::is_digit(#[trigger] t@[j]),
                decreases cs.len() - i,
            {
                if !('0' <= cs[i] && cs[i] <= '9') {
                    proof {
                        assert(!crate::text::is_digit(t@[i as int]));
                        assert(!crate::text::all_digits(t@));
                    }
                    return None;
                }
                i = i + 1;
            }
            proof {
                assert(crate::text::all_digits(t@));
            }
            crate::text::digits_u64(t.as_str())
        },
        _ => None,
    }
}

/// Reads a `tools/call` request into the call it asks for, or the error to answer with.
pub fn plan_tool_call(request: &Json) -> (r: Result<ToolCall, String>)
    ensures
        match plan_spec(request@) {
            Ok(c) => r matches Ok(x) && call_view(x) == c,
            Err(e) => r matches Err(m) && m@ == e,
        },
{
    let empty = Json::object();
    let params = match request.get("params") {
        Some(p) => p,
        None => &empty,
    };
    let name = match str_member_exec(params, "name") {
        Some(n) => n,
        None => String::new(),
    };
    let empty2 = Json::object();
    let args = match params.get("arguments") {
        Some(a) => a,
        None => &empty2,
    };
    if str_eq(name.as_str(), "search_memory") {
        let query = match required_exec(args, "query") {
            Ok(q) => q,
            Err(e) => {
                return Err(e);
            },
        };
        let asked = match u64_exec(args, "limit") {
            Some(n) => n,
            None => 10,
        };
        let limit: u32 = if asked < 50 {
            asked as u32
        } else {
            50
        };
        let include_linked = match args.get("include_linked") {
            Some(Json::Bool(b)) => *b,
            _ => false,
        };
        Ok(ToolCall::Search { query, limit, include_linked, tags: tags_exec(args) })
    } else if str_eq(name.as_str(), "add_note") {
        match required_exec(args, "content") {
            Ok(c) => Ok(ToolCall::AddNote { content: c, tags: tags_exec(args) }),
            Err(e) => Err(e),
        }
    } else if str_eq(name.as_str(), "get_note") {
        match required_exec(args, "id") {
            Ok(i) => Ok(ToolCall::GetNote { id: i }),
            Err(e) => Err(e),
        }
    } else if str_eq(name.as_str(), "update_note") {
        let id = match required_exec(args, "id") {
            Ok(i) => i,
            Err(e) => {
                return Err(e);
            },
        };
        let no_content = match args.get("content") {
            Some(_) => false,
            None => true,
        };
        let no_tags = match args.get("tags") {
            Some(_) => false,
            None => true,
        };
        if no_content && no_tags {
            return Err("provide at least one of content or tags".to_owned());
        }
        Ok(ToolCall::UpdateNote { id, content: str_member_exec(args, "content"), tags: tags_exec(args) })
    } else if str_eq(name.as_str(), "delete_note") {
        match required_exec(args, "id") {
            Ok(i) => Ok(ToolCall::DeleteNote { id: i }),
            Err(e) => Err(e),
        }
    } else if str_eq(name.as_str(), "link_notes") {
        let id = match required_exec(args, "id") {
            Ok(i) => i,
            Err(e) => {
                return Err(e);
            },
        };
        let target = match required_exec(args, "targetId") {
            Ok(t) => t,
            Err(e) => {
                return Err(e);
            },
        };
        Ok(ToolCall::LinkNotes { id, target_id: target, relation: str_member_exec(args, "relation") })
    } else {
        Err(concat("unknown tool: ", name.as_str()))
    }
}


/// What the server does with one request.
pub enum RpcStep {
    /// A notification: it is never answered.
    Ignore,
    /// Answer with this.
    Reply(Json),
    /// Make the tool call for the request with this id, then answer with the tool's
    /// result (`tool_result` in `result_response`) or its failure (`tool_failure`).
    Call(Json, ToolCall),
}

/// What a request is answered with. A request without an id is a notification; a known
/// method gets its result; a tool call whose arguments do not read is a failed tool; an
/// unknown method is a JSON-RPC error naming it.
pub open spec fn step_spec(request: JsonV, tools: JsonV, instructions: Seq<char>, version: Seq<char>) -> Option<Result<JsonV, (JsonV, ToolCallView)>> {
    match member(request, "id"@) {
        None => None,
        Some(id) => {
            let method = match str_member(request, "method"@) {
                Some(m) => m,
                None => Seq::empty(),
            };
            if method == "initialize"@ {
                Some(Ok(result_response_spec(id, initialize_spec(request, instructions, version))))
            } else if method == "ping"@ {
                Some(Ok(result_response_spec(id, empty_obj())))
            } else if method == "tools/list"@ {
                Some(Ok(result_response_spec(id, with_member(empty_obj(), "tools"@, tools))))
            } else if method == "tools/call"@ {
                match plan_spec(request) {
                    Ok(c) => Some(Err((id, c))),
                    Err(e) => Some(Ok(tool_failure_spec(id, e))),
                }
            } else {
                Some(Ok(error_response_spec(id, -32601, "method not found: "@ + method)))
            }
        },
    }
}

pub open spec fn step_view(s: RpcStep) -> Option<Result<JsonV, (JsonV, ToolCallView)>> {
    match s {
        RpcStep::Ignore => None,
        RpcStep::Reply(j) => Some(Ok(j@)),
        RpcStep::Call(id, c) => Some(Err((id@, call_view(c)))),
    }
}

/// Decides what one request is answered with (the handshake's instructions and the
/// server's version are given).
pub fn handle_request(request: &Json, instructions: &str, version: &str) -> (r: RpcStep)
    ensures
        step_view(r) == step_spec(request@, JsonV::Array(tool_definitions_spec()), instructions@, version@),
{
    let id = match request.get("id") {
        Some(i) => i.copy(),
        None => {
            return RpcStep::Ignore;
        },
    };
    let method = match str_member_exec(request, "method") {
        Some(m) => m,
        None => String::new(),
    };
    if str_eq(method.as_str(), "initialize") {
        RpcStep::Reply(result_response(id, initialize_result(request, instructions, version)))
    } else if str_eq(method.as_str(), "ping") {
        RpcStep::Reply(result_response(id, Json::object()))
    } else if str_eq(method.as_str(), "tools/list") {
        let mut r = Json::object();
        r.insert("tools", Json::array(tool_definitions()));
        RpcStep::Reply(result_response(id, r))
    } else if str_eq(method.as_str(), "tools/call") {
        match plan_tool_call(request) {
            Ok(c) => RpcStep::Call(id, c),
            Err(e) => RpcStep::Reply(tool_failure(id, e.as_str())),
        }
    } else {
        RpcStep::Reply(error_response(id, -32601, concat("method not found: ", method.as_str()).as_str()))
    }
}


pub const SEARCH_DESC: &'static str = "Search your persistent memory by meaning. Returns notes with relevance scores and their explicit links. Use it before assuming something is undocumented.";

pub const ADD_DESC: &'static str = "Save a note. Worth saving: something that will save >10 minutes next time, or that surprised you. First sentence must be a self-contained summary of at most 150 characters \u{2014} it drives retrieval, and only the first ~200 characters are shown on recall. Write in English, name files and errors literally.";

pub const GET_DESC: &'static str = "Fetch one note by id, with its links.";

pub const UPDATE_DESC: &'static str = "Update a note's content and/or tags. Only the author can update their own note.";

pub const DELETE_DESC: &'static str = "Delete a note. Only the author can delete their own note.";

pub const LINK_DESC: &'static str = "Link two notes with a causal or logical relation (cause -> effect, problem -> solution, contradiction, sequence). Do not link merely similar notes \u{2014} search already finds those, and similarity links turn the graph into noise.";

/// `{ "type": t }`
pub open spec fn typ(t: Seq<char>) -> JsonV {
    with_member(empty_obj(), "type"@, JsonV::Str(t))
}

/// `{ "type": t, "description": d }`
pub open spec fn typ_desc(t: Seq<char>, d: Seq<char>) -> JsonV {
    with_member(typ(t), "description"@, JsonV::Str(d))
}

/// `{ "type": "array", "items": { "type": "string" } }`, with a description when given.
pub open spec fn string_list(d: Option<Seq<char>>) -> JsonV {
    let base = with_member(typ("array"@), "items"@, typ("string"@));
    match d {
        Some(x) => with_member(base, "description"@, JsonV::Str(x)),
        None => base,
    }
}

/// Strings as a JSON array.
pub open spec fn str_array(names: Seq<Seq<char>>) -> JsonV {
    JsonV::Array(names.map_values(|n: Seq<char>| JsonV::Str(n)))
}

/// A tool: its name, description, and an object schema with its properties and required
/// fields.
pub open spec fn tool(name: Seq<char>, desc: Seq<char>, props: JsonV, req: Seq<Seq<char>>) -> JsonV {
    with_member(
        with_member(with_member(empty_obj(), "name"@, JsonV::Str(name)), "description"@, JsonV::Str(desc)),
        "inputSchema"@,
        with_member(with_member(typ("object"@), "properties"@, props), "required"@, str_array(req)),
    )
}

/// The six memory tools.
pub open spec fn tool_definitions_spec() -> Seq<JsonV> {
    seq![
        tool(
            "search_memory"@,
            SEARCH_DESC@,
            with_member(
                with_member(
                    with_member(
                        with_member(empty_obj(), "query"@, typ_desc("string"@, "What you are looking for, in natural language"@)),
                        "limit"@,
                        typ_desc("number"@, "Max results (default 10, max 50)"@),
                    ),
                    "tags"@,
                    string_list(Some("Only notes carrying all of these tags"@)),
                ),
                "include_linked"@,
                typ_desc("boolean"@, "Also return notes explicitly linked to the matches"@),
            ),
            seq!["query"@],
        ),
        tool(
            "add_note"@,
            ADD_DESC@,
            with_member(
                with_member(empty_obj(), "content"@, typ_desc("string"@, "Markdown. First sentence = TL;DR under 150 chars"@)),
                "tags"@,
                string_list(Some("e.g. type:work, category:decision, tech:rust"@)),
            ),
            seq!["content"@],
        ),
        tool("get_note"@, GET_DESC@, with_member(empty_obj(), "id"@, typ("string"@)), seq!["id"@]),
        tool(
            "update_note"@,
            UPDATE_DESC@,
            with_member(with_member(with_member(empty_obj(), "id"@, typ("string"@)), "content"@, typ("string"@)), "tags"@, string_list(None)),
            seq!["id"@],
        ),
        tool("delete_note"@, DELETE_DESC@, with_member(empty_obj(), "id"@, typ("string"@)), seq!["id"@]),
        tool(
            "link_notes"@,
            LINK_DESC@,
            with_member(
                with_member(with_member(empty_obj(), "id"@, typ("string"@)), "targetId"@, typ("string"@)),
                "relation"@,
                typ_desc("string"@, "Short relation text, max 100 chars, e.g. \"caused by\", \"resolves\""@),
            ),
            seq!["id"@, "targetId"@],
        ),
    ]
}

fn typ_exec(t: &str) -> (r: Json)
    ensures
        r@ == typ(t@),
{
    let mut o = Json::object();
    o.insert("type", Json::string(t));
    o
}

fn typ_desc_exec(t: &str, d: &str) -> (r: Json)
    ensures
        r@ == typ_desc(t@, d@),
{
    let mut o = typ_exec(t);
    o.insert("description", Json::string(d));
    o
}

fn string_list_exec(d: Option<&str>) -> (r: Json)
    ensures
        r@ == string_list(match d {
            Some(x) => Some(x@),
            None => None,
        }),
{
    let mut o = typ_exec("array");
    o.insert("items", typ_exec("string"));
    match d {
        Some(x) => o.insert("description", Json::string(x)),
        None => {},
    }
    o
}

fn str_array_exec(names: &Vec<&str>) -> (r: Json)
    ensures
        r@ == str_array(names@.map_values(|n: &str| n@)),
{
    let mut items: Vec<Json> = Vec::new();
    let mut i: usize = 0;
    let ghost want = names@.map_values(|n: &str| n@).map_values(|n: Seq<char>| JsonV::Str(n));
    while i < names.len()
        invariant
            i <= names.len(),
            want == names@.map_values(|n: &str| n@).map_values(|n: Seq<char>| JsonV::Str(n)),
            view_items(items@) == want.take(i as int),
        decreases names.len() - i,
    {
        let j = Json::string(names[i]);
        proof {
            crate::json::lemma_view_items_push(items@, j);
            assert(want.take(i + 1) =~= want.take(i as int).push(want[i as int]));
        }
        items.push(j);
        i = i + 1;
    }
    proof {
        assert(want.take(i as int) =~= want);
    }
    Json::array(items)
}

fn one_name(a: &'static str) -> (r: Vec<&'static str>)
    ensures
        r@.map_values(|n: &str| n@) == seq![a@],
{
    let mut v: Vec<&'static str> = Vec::new();
    v.push(a);
    proof {
        assert(v@.map_values(|n: &str| n@) =~= seq![a@]);
    }
    v
}

fn two_names(a: &'static str, b: &'static str) -> (r: Vec<&'static str>)
    ensures
        r@.map_values(|n: &str| n@) == seq![a@, b@],
{
    let mut v: Vec<&'static str> = Vec::new();
    v.push(a);
    v.push(b);
    proof {
        assert(v@.map_values(|n: &str| n@) =~= seq![a@, b@]);
    }
    v
}

fn tool_exec(name: &str, desc: &str, props: Json, req: Vec<&str>) -> (r: Json)
    ensures
        r@ == tool(name@, desc@, props@, req@.map_values(|n: &str| n@)),
{
    let mut schema = typ_exec("object");
    schema.insert("properties", props);
    schema.insert("required", str_array_exec(&req));
    let mut t = Json::object();
    t.insert("name", Json::string(name));
    t.insert("description", Json::string(desc));
    t.insert("inputSchema", schema);
    t
}

/// The six memory tools, with their input schemas.
pub fn tool_definitions() -> (r: Vec<Json>)
    ensures
        view_items(r@) == tool_definitions_spec(),
{
    let mut search_props = Json::object();
    search_props.insert("query", typ_desc_exec("string", "What you are looking for, in natural language"));
    search_props.insert("limit", typ_desc_exec("number", "Max results (default 10, max 50)"));
    search_props.insert("tags", string_list_exec(Some("Only notes carrying all of these tags")));
    search_props.insert("include_linked", typ_desc_exec("boolean", "Also return notes explicitly linked to the matches"));
    let search = tool_exec("search_memory", SEARCH_DESC, search_props, one_name("query"));

    let mut add_props = Json::object();
    add_props.insert("content", typ_desc_exec("string", "Markdown. First sentence = TL;DR under 150 chars"));
    add_props.insert("tags", string_list_exec(Some("e.g. type:work, category:decision, tech:rust")));
    let add = tool_exec("add_note", ADD_DESC, add_props, one_name("content"));

    let mut get_props = Json::object();
    get_props.insert("id", typ_exec("string"));
    let get = tool_exec("get_note", GET_DESC, get_props, one_name("id"));

    let mut update_props = Json::object();
    update_props.insert("id", typ_exec("string"));
    update_props.insert("content", typ_exec("string"));
    update_props.insert("tags", string_list_exec(None));
    let update = tool_exec("update_note", UPDATE_DESC, update_props, one_name("id"));

    let mut delete_props = Json::object();
    delete_props.insert("id", typ_exec("string"));
    let delete = tool_exec("delete_note", DELETE_DESC, delete_props, one_name("id"));

    let mut link_props = Json::object();
    link_props.insert("id", typ_exec("string"));
    link_props.insert("targetId", typ_exec("string"));
    link_props.insert("relation", typ_desc_exec("string", "Short relation text, max 100 chars, e.g. \"caused by\", \"resolves\""));
    let link = tool_exec("link_notes", LINK_DESC, link_props, two_names("id", "targetId"));

    let mut tools: Vec<Json> = Vec::new();
    tools.push(search);
    tools.push(add);
    tools.push(get);
    tools.push(update);
    tools.push(delete);
    tools.push(link);
    proof {
        lemma_view_items(tools@);
        let want = tool_definitions_spec();
        assert(tools@[0]@ == want[0]);
        assert(tools@[1]@ == want[1]);
        assert(tools@[2]@ == want[2]);
        assert(tools@[3]@ == want[3]);
        assert(tools@[4]@ == want[4]);
        assert(tools@[5]@ == want[5]);
        assert(view_items(tools@) =~= want);
    }
    tools
}


/// Strings as a JSON array value.
pub fn string_array(v: &Vec<String>) -> (r: Json)
    ensures
        r@ == str_array(views(v@)),
{
    let mut items: Vec<Json> = Vec::new();
    let mut i: usize = 0;
    let ghost want = views(v@).map_values(|n: Seq<char>| JsonV::Str(n));
    while i < v.len()
        invariant
            i <= v.len(),
            want == views(v@).map_values(|n: Seq<char>| JsonV::Str(n)),
            view_items(items@) == want.take(i as int),
        decreases v.len() - i,
    {
        let j = Json::string(v[i].as_str());
        proof {
            crate::json::lemma_view_items_push(items@, j);
            assert(want.take(i + 1) =~= want.take(i as int).push(want[i as int]));
        }
        items.push(j);
        i = i + 1;
    }
    proof {
        assert(want.take(i as int) =~= want);
    }
    Json::array(items)
}

/// The body of a search: query, limit, whether linked notes come along, whether it may
/// leave the session's project, and the tags when given.
pub open spec fn search_body_spec(query: Seq<char>, limit: u32, include_linked: bool, cross_project: bool, tags: Option<Seq<Seq<char>>>) -> JsonV {
    let base = with_member(
        with_member(
            with_member(with_member(empty_obj(), "query"@, JsonV::Str(query)), "limit"@, JsonV::Number(decimal(limit as nat))),
            "includeLinked"@,
            JsonV::Bool(include_linked),
        ),
        "crossProject"@,
        JsonV::Bool(cross_project),
    );
    match tags {
        Some(t) => with_member(base, "tags"@, str_array(t)),
        None => base,
    }
}

pub fn search_body(query: &str, limit: u32, include_linked: bool, cross_project: bool, tags: &Option<Vec<String>>) -> (r: Json)
    ensures
        r@ == search_body_spec(query@, limit, include_linked, cross_project, opt_strs(*tags)),
{
    let mut b = Json::object();
    b.insert("query", Json::string(query));
    b.insert("limit", Json::number(usize_to_string(limit as usize).as_str()));
    b.insert("includeLinked", Json::Bool(include_linked));
    b.insert("crossProject", Json::Bool(cross_project));
    match tags {
        Some(t) => b.insert("tags", string_array(t)),
        None => {},
    }
    b
}

/// The body that adds a note: its content and its tags (none given is an empty list).
pub open spec fn note_body_spec(content: Seq<char>, tags: Option<Seq<Seq<char>>>) -> JsonV {
    with_member(
        with_member(empty_obj(), "content"@, JsonV::Str(content)),
        "tags"@,
        str_array(match tags {
            Some(t) => t,
            None => Seq::empty(),
        }),
    )
}

pub fn note_body(content: &str, tags: &Option<Vec<String>>) -> (r: Json)
    ensures
        r@ == note_body_spec(content@, opt_strs(*tags)),
{
    let mut b = Json::object();
    b.insert("content", Json::string(content));
    match tags {
        Some(t) => b.insert("tags", string_array(t)),
        None => {
            let none: Vec<String> = Vec::new();
            proof {
                assert(views(none@) =~= Seq::<Seq<char>>::empty());
            }
            b.insert("tags", string_array(&none));
        },
    }
    b
}

/// The body of an update: only what is given.
pub open spec fn update_body_spec(content: Option<Seq<char>>, tags: Option<Seq<Seq<char>>>) -> JsonV {
    let with_content = match content {
        Some(c) => with_member(empty_obj(), "content"@, JsonV::Str(c)),
        None => empty_obj(),
    };
    match tags {
        Some(t) => with_member(with_content, "tags"@, str_array(t)),
        None => with_content,
    }
}

pub fn update_body(content: &Option<String>, tags: &Option<Vec<String>>) -> (r: Json)
    ensures
        r@ == update_body_spec(opt_str(*content), opt_strs(*tags)),
{
    let mut b = Json::object();
    match content {
        Some(c) => b.insert("content", Json::string(c.as_str())),
        None => {},
    }
    match tags {
        Some(t) => b.insert("tags", string_array(t)),
        None => {},
    }
    b
}

/// The body of a link: the target, and the relation when given.
pub open spec fn link_body_spec(target_id: Seq<char>, relation: Option<Seq<char>>) -> JsonV {
    let base = with_member(empty_obj(), "targetId"@, JsonV::Str(target_id));
    match relation {
        Some(r) => with_member(base, "relation"@, JsonV::Str(r)),
        None => base,
    }
}

pub fn link_body(target_id: &str, relation: &Option<String>) -> (r: Json)
    ensures
        r@ == link_body_spec(target_id@, opt_str(*relation)),
{
    let mut b = Json::object();
    b.insert("targetId", Json::string(target_id));
    match relation {
        Some(rel) => b.insert("relation", Json::string(rel.as_str())),
        None => {},
    }
    b
}

/// `<base>/api/memory<path>`.
pub fn memory_url(base: &str, path: &str) -> (r: String)
    ensures
        r@ == base@ + "/api/memory"@ + path@,
{
    let u = concat(base, "/api/memory");
    concat(u.as_str(), path)
}

/// `/notes/<id>`.
pub fn note_path(id: &str) -> (r: String)
    ensures
        r@ == "/notes/"@ + id@,
{
    concat("/notes/", id)
}

/// `/notes/<id>/links`.
pub fn links_path(id: &str) -> (r: String)
    ensures
        r@ == "/notes/"@ + id@ + "/links"@,
{
    let p = concat("/notes/", id);
    concat(p.as_str(), "/links")
}

/// The backend's base URL: the one given (else the default), without trailing slashes.
pub fn api_base(flag: Option<&str>) -> (r: String)
    ensures
        r@ == crate::path::strip_slash_spec(match flag {
            Some(f) => f@,
            None => crate::cli::DEFAULT_API_URL@,
        }),
{
    crate::path::strip_trailing_slash(crate::cli::resolve_api_url(flag))
}

proof fn lemma_get_path_one(v: JsonV, k: Seq<char>)
    ensures
        crate::merge::get_path(v, seq![k]) == member(v, k),
{
    assert(seq![k].drop_first() =~= Seq::<Seq<char>>::empty());
    if let JsonV::Object(m) = v {
        if let Some(x) = lookup(m, k) {
            assert(crate::merge::get_path(x, Seq::<Seq<char>>::empty()) == Some(x));
        }
    }
}

/// Law: a memory search keeps what the agent asked for. A `tools/call` of `search_memory`
/// with a string query at `params.arguments.query` plans a search for that query, and it
/// includes linked notes exactly when `params.arguments.include_linked` is `true`: a
/// missing member, or one that is no boolean, means no.
pub proof fn law_search_reads_its_arguments(request: JsonV)
    requires
        crate::merge::get_path(request, seq!["params"@, "name"@]) == Some(JsonV::Str("search_memory"@)),
        crate::merge::get_path(request, seq!["params"@, "arguments"@, "query"@]) matches Some(JsonV::Str(_)),
    ensures
        plan_spec(request) matches Ok(ToolCallView::Search { query, include_linked, .. }) && Some(
            JsonV::Str(query),
        ) == crate::merge::get_path(request, seq!["params"@, "arguments"@, "query"@]) && include_linked == (
        crate::merge::get_path(request, seq!["params"@, "arguments"@, "include_linked"@]) == Some(
            JsonV::Bool(true),
        )),
{
    let pn = seq!["params"@, "name"@];
    let pq = seq!["params"@, "arguments"@, "query"@];
    let pl = seq!["params"@, "arguments"@, "include_linked"@];
    assert(pn[0] == "params"@ && pn.drop_first() =~= seq!["name"@]);
    assert(pq[0] == "params"@ && pq.drop_first() =~= seq!["arguments"@, "query"@]);
    assert(pl[0] == "params"@ && pl.drop_first() =~= seq!["arguments"@, "include_linked"@]);
    assert(seq!["name"@].drop_first() =~= Seq::<Seq<char>>::empty());
    assert(seq!["arguments"@, "query"@].drop_first() =~= seq!["query"@]);
    assert(seq!["query"@].drop_first() =~= Seq::<Seq<char>>::empty());
    assert(seq!["arguments"@, "include_linked"@].drop_first() =~= seq!["include_linked"@]);
    assert(seq!["include_linked"@].drop_first() =~= Seq::<Seq<char>>::empty());
    let gp = |v: JsonV, q: Seq<Seq<char>>| crate::merge::get_path(v, q);
    assert(request is Object);
    let params = member(request, "params"@)->Some_0;
    assert(member(request, "params"@) is Some);
    assert(gp(request, pn) == gp(params, seq!["name"@]));
    assert(params is Object);
    lemma_get_path_one(params, "name"@);
    assert(str_member(params, "name"@) == Some("search_memory"@));
    assert(gp(request, pq) == gp(params, seq!["arguments"@, "query"@]));
    let args = member(params, "arguments"@)->Some_0;
    assert(member(params, "arguments"@) is Some);
    assert(gp(params, seq!["arguments"@, "query"@]) == gp(args, seq!["query"@]));
    assert(args is Object);
    lemma_get_path_one(args, "query"@);
    assert(gp(request, pl) == gp(params, seq!["arguments"@, "include_linked"@]));
    assert(gp(params, seq!["arguments"@, "include_linked"@]) == gp(args, seq!["include_linked"@]));
    lemma_get_path_one(args, "include_linked"@);
}

} // verus!
