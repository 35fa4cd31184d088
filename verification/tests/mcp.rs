use sandseal::json::Json;
use sandseal::mcp::{
    api_base, error_response, handle_request, initialize_result, link_body, links_path,
    memory_url, note_body, note_path, plan_tool_call, search_body, tool_definitions,
    tool_failure, tool_result, update_body, RpcStep, ToolCall, FALLBACK_PROTOCOL,
};

fn conv(v: &serde_json::Value) -> Json {
    match v {
        serde_json::Value::Null => Json::Null,
        serde_json::Value::Bool(b) => Json::Bool(*b),
        serde_json::Value::Number(n) => Json::Number(n.to_string()),
        serde_json::Value::String(s) => Json::Str(s.clone()),
        serde_json::Value::Array(items) => Json::Array(items.iter().map(conv).collect()),
        serde_json::Value::Object(m) => {
            Json::Object(m.iter().map(|(k, x)| (k.clone(), conv(x))).collect())
        }
    }
}

fn j(text: &str) -> Json {
    conv(&serde_json::from_str::<serde_json::Value>(text).unwrap())
}

fn at<'a>(v: &'a Json, path: &[&str]) -> Option<&'a Json> {
    let mut cur = v;
    for key in path {
        cur = match (cur, key.parse::<usize>()) {
            (Json::Array(items), Ok(i)) => items.get(i)?,
            _ => cur.get(key)?,
        };
    }
    Some(cur)
}

fn s(text: &str) -> Json {
    Json::Str(text.to_string())
}

const INSTRUCTIONS: &str = "\n# Memory\nSave what saves ten minutes.\n";

#[test]
fn echoes_a_protocol_version_it_supports() {
    let req = j(r#"{ "params": { "protocolVersion": "2024-11-05" } }"#);
    assert_eq!(initialize_result(&req, INSTRUCTIONS, "1.0").get("protocolVersion"), Some(&s("2024-11-05")));
}

#[test]
fn falls_back_for_an_unknown_protocol_version() {
    let req = j(r#"{ "params": { "protocolVersion": "1999-01-01" } }"#);
    assert_eq!(initialize_result(&req, INSTRUCTIONS, "1.0").get("protocolVersion"), Some(&s(FALLBACK_PROTOCOL)));
    assert_eq!(initialize_result(&j("{}"), INSTRUCTIONS, "1.0").get("protocolVersion"), Some(&s(FALLBACK_PROTOCOL)));
}

#[test]
fn advertises_tools_capability_and_server_name() {
    let result = initialize_result(&j("{}"), INSTRUCTIONS, "1.0");
    assert!(matches!(at(&result, &["capabilities", "tools"]), Some(Json::Object(_))));
    assert_eq!(at(&result, &["serverInfo", "name"]), Some(&s("sandseal-memory")));
    assert_eq!(at(&result, &["serverInfo", "version"]), Some(&s("1.0")));
}

#[test]
fn the_handshake_ships_the_instructions_trimmed() {
    let result = initialize_result(&j("{}"), INSTRUCTIONS, "1.0");
    assert_eq!(result.get("instructions"), Some(&s("# Memory\nSave what saves ten minutes.")));
}

#[test]
fn exposes_exactly_the_six_memory_tools() {
    let names: Vec<Json> = tool_definitions().iter().map(|t| t.get("name").unwrap().copy()).collect();
    assert_eq!(
        names,
        vec![s("search_memory"), s("add_note"), s("get_note"), s("update_note"), s("delete_note"), s("link_notes")]
    );
}

#[test]
fn every_tool_declares_an_object_schema_with_required_fields() {
    for tool in tool_definitions() {
        let schema = tool.get("inputSchema").unwrap();
        assert_eq!(schema.get("type"), Some(&s("object")));
        match schema.get("required") {
            Some(Json::Array(r)) => assert!(!r.is_empty()),
            other => panic!("no required list: {other:?}"),
        }
    }
}

#[test]
fn add_note_teaches_the_note_format_in_its_description() {
    let add = tool_definitions().into_iter().find(|t| t.get("name") == Some(&s("add_note"))).unwrap();
    match add.get("description") {
        Some(Json::Str(d)) => {
            assert!(d.contains("150"));
            assert!(d.contains("English"));
        }
        other => panic!("no description: {other:?}"),
    }
}

#[test]
fn notifications_are_never_answered() {
    assert!(matches!(handle_request(&j(r#"{"method":"ping"}"#), INSTRUCTIONS, "1"), RpcStep::Ignore));
}

#[test]
fn known_methods_get_results_and_unknown_ones_an_error() {
    match handle_request(&j(r#"{"id":7,"method":"ping"}"#), INSTRUCTIONS, "1") {
        RpcStep::Reply(r) => assert_eq!(r, j(r#"{"jsonrpc":"2.0","id":7,"result":{}}"#)),
        _ => panic!("ping must be answered"),
    }
    match handle_request(&j(r#"{"id":"a","method":"nope"}"#), INSTRUCTIONS, "1") {
        RpcStep::Reply(r) => assert_eq!(
            r,
            j(r#"{"jsonrpc":"2.0","id":"a","error":{"code":-32601,"message":"method not found: nope"}}"#)
        ),
        _ => panic!("an unknown method is an error"),
    }
    match handle_request(&j(r#"{"id":1,"method":"tools/list"}"#), INSTRUCTIONS, "1") {
        RpcStep::Reply(r) => match at(&r, &["result", "tools"]) {
            Some(Json::Array(t)) => assert_eq!(t.len(), 6),
            other => panic!("no tools: {other:?}"),
        },
        _ => panic!("tools/list is answered"),
    }
}

#[test]
fn a_tool_call_with_bad_arguments_is_a_failed_tool() {
    let req = j(r#"{"id":3,"method":"tools/call","params":{"name":"get_note","arguments":{}}}"#);
    match handle_request(&req, INSTRUCTIONS, "1") {
        RpcStep::Reply(r) => {
            assert_eq!(at(&r, &["result", "isError"]), Some(&Json::Bool(true)));
            assert_eq!(at(&r, &["result", "content", "0", "text"]), Some(&s("id is required")));
        }
        _ => panic!("a bad call is answered at once"),
    }
    let req = j(r#"{"id":3,"method":"tools/call","params":{"name":"frobnicate"}}"#);
    assert_eq!(plan_tool_call(&req).err(), Some("unknown tool: frobnicate".to_string()));
    let req = j(r#"{"params":{"name":"update_note","arguments":{"id":"n1"}}}"#);
    assert_eq!(plan_tool_call(&req).err(), Some("provide at least one of content or tags".to_string()));
}

#[test]
fn tool_calls_read_their_arguments() {
    let req = j(r#"{"params":{"name":"search_memory","arguments":{"query":"db","limit":99,"tags":["a",1,"b"]}}}"#);
    match plan_tool_call(&req).unwrap() {
        ToolCall::Search { query, limit, include_linked, tags } => {
            assert_eq!(query, "db");
            assert_eq!(limit, 50);
            assert!(!include_linked);
            assert_eq!(tags, Some(vec!["a".to_string(), "b".to_string()]));
        }
        _ => panic!("expected a search"),
    }
    let req = j(r#"{"params":{"name":"search_memory","arguments":{"query":"db"}}}"#);
    match plan_tool_call(&req).unwrap() {
        ToolCall::Search { limit, tags, .. } => {
            assert_eq!(limit, 10);
            assert_eq!(tags, None);
        }
        _ => panic!("expected a search"),
    }
    let req = j(r#"{"params":{"name":"link_notes","arguments":{"id":"a","targetId":"b","relation":"cause"}}}"#);
    match plan_tool_call(&req).unwrap() {
        ToolCall::LinkNotes { id, target_id, relation } => {
            assert_eq!((id.as_str(), target_id.as_str(), relation.as_deref()), ("a", "b", Some("cause")));
        }
        _ => panic!("expected a link"),
    }
}

#[test]
fn request_bodies_and_paths() {
    assert_eq!(
        search_body("q", 5, true, false, &None),
        j(r#"{"query":"q","limit":5,"includeLinked":true,"crossProject":false}"#)
    );
    assert_eq!(note_body("c", &None), j(r#"{"content":"c","tags":[]}"#));
    assert_eq!(update_body(&None, &Some(vec!["t".into()])), j(r#"{"tags":["t"]}"#));
    assert_eq!(link_body("b", &None), j(r#"{"targetId":"b"}"#));
    assert_eq!(memory_url("https://x", &note_path("n1")), "https://x/api/memory/notes/n1");
    assert_eq!(links_path("n1"), "/notes/n1/links");
    assert_eq!(api_base(Some("https://x//")), "https://x");
}

#[test]
fn answers_wrap_their_payload() {
    assert_eq!(tool_result("{}"), j(r#"{"content":[{"type":"text","text":"{}"}]}"#));
    assert_eq!(
        tool_failure(Json::Number("2".into()), "boom"),
        j(r#"{"jsonrpc":"2.0","id":2,"result":{"isError":true,"content":[{"type":"text","text":"boom"}]}}"#)
    );
    assert_eq!(
        error_response(Json::Null, -32700, "parse error: x"),
        j(r#"{"jsonrpc":"2.0","id":null,"error":{"code":-32700,"message":"parse error: x"}}"#)
    );
}
