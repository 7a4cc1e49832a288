//! Errors, JSON-RPC responses, MCP tools, session messages and the command handler
//! pieces that sit between the command line and a request.

use mcp2cli::error::AppError;
use mcp2cli::handler::{build_arguments, find_command, require_command, search_commands, ArgText};
use mcp2cli::json::JsonValue;
use mcp2cli::mcp::{
    check_rpc_error, extract_mcp_commands, merge_auth_headers, rpc_result, transport_kind,
    JsonRpcError, JsonRpcRequest, JsonRpcResponse, McpTool, Transport,
};
use mcp2cli::session::{daemon_reply, daemon_step, dispatch_method, session_result, DaemonCall, DaemonStep};
use mcp2cli::types::{CommandDef, ParamLocation, ParamType};

/// A serde_json value as the library's.
fn lib_value(v: serde_json::Value) -> JsonValue {
    match v {
        serde_json::Value::Null => JsonValue::Null,
        serde_json::Value::Bool(b) => JsonValue::Bool(b),
        serde_json::Value::Number(n) => JsonValue::Number(n.to_string()),
        serde_json::Value::String(s) => JsonValue::Str(s),
        serde_json::Value::Array(a) => JsonValue::Array(a.into_iter().map(lib_value).collect()),
        serde_json::Value::Object(m) => JsonValue::Object(m.into_iter().map(|(k, x)| (k, lib_value(x))).collect()),
    }
}

fn j(text: &str) -> JsonValue {
    lib_value(serde_json::from_str(text).unwrap())
}

fn strings(items: &[&str]) -> Vec<String> {
    items.iter().map(|s| s.to_string()).collect()
}

// ── Errors ───────────────────────────────────────────────────────────────────

#[test]
fn every_error_kind_displays_its_prefix() {
    let cases = vec![
        (AppError::Cli("m".to_string()), "CLI error: m"),
        (AppError::Network("m".to_string()), "Network error: m"),
        (AppError::Protocol("m".to_string()), "Protocol error: m"),
        (AppError::Execution("m".to_string()), "Execution error: m"),
        (AppError::Io("m".to_string()), "IO error: m"),
        (AppError::Json("m".to_string()), "JSON error: m"),
        (AppError::Other("m".to_string()), "m"),
    ];
    for (e, shown) in cases {
        assert_eq!(e.to_display(), shown);
        assert_eq!(e.message(), "m");
        assert_eq!(e.exit_code(), 1);
    }
}

// ── JSON-RPC ─────────────────────────────────────────────────────────────────

fn response(result: Option<JsonValue>, error: Option<JsonRpcError>) -> JsonRpcResponse {
    JsonRpcResponse { jsonrpc: "2.0".to_string(), id: Some(j("1")), result, error }
}

#[test]
fn rpc_errors_and_results() {
    let err = response(None, Some(JsonRpcError { code: -32601, message: "no such method".to_string(), data: None }));
    match check_rpc_error(&err) {
        Err(AppError::Protocol(m)) => assert_eq!(m, "JSON-RPC error -32601: no such method"),
        other => panic!("unexpected {:?}", other),
    }
    assert!(check_rpc_error(&response(Some(j("{}")), None)).is_ok());
    assert_eq!(rpc_result(response(Some(j(r#"{"tools": []}"#)), None)).unwrap(), j(r#"{"tools": []}"#));
    assert!(matches!(rpc_result(response(None, None)), Err(AppError::Protocol(_))));
}

#[test]
fn requests_get_fresh_string_ids() {
    let a = JsonRpcRequest::new("tools/list", None);
    let b = JsonRpcRequest::new("tools/list", None);
    assert_eq!(a.jsonrpc, "2.0");
    assert_eq!(a.method, "tools/list");
    assert!(matches!(a.id, JsonValue::Str(_)));
    assert_ne!(a.id, b.id);
}

#[test]
fn auth_header_fallbacks() {
    let explicit = vec![("authorization".to_string(), "Bearer x".to_string())];
    assert_eq!(merge_auth_headers(explicit.clone(), Some("k".to_string()), None), explicit);
    assert_eq!(
        merge_auth_headers(vec![], Some("k".to_string()), Some("t".to_string())),
        vec![("Authorization".to_string(), "Bearer k".to_string())]
    );
    assert_eq!(
        merge_auth_headers(vec![], None, Some("t".to_string())),
        vec![("Authorization".to_string(), "Bearer t".to_string())]
    );
    assert!(merge_auth_headers(vec![], None, None).is_empty());
}

#[test]
fn transports_by_name() {
    assert_eq!(transport_kind("sse").unwrap(), Transport::Sse);
    assert_eq!(transport_kind("auto").unwrap(), Transport::Auto);
    assert_eq!(transport_kind("stdio").unwrap(), Transport::Stdio);
    assert_eq!(transport_kind("streamable").unwrap(), Transport::Streamable);
    assert!(matches!(transport_kind("carrier-pigeon"), Err(AppError::Cli(_))));
}

#[test]
fn mcp_tools_become_commands() {
    let tools = vec![
        McpTool {
            name: "get_weather".to_string(),
            description: Some("Weather".to_string()),
            input_schema: Some(j(r#"{"type": "object", "required": ["city"], "properties": {
                "city": {"type": "string", "description": "City"},
                "days": {"type": "integer"}
            }}"#)),
        },
        McpTool { name: "ping".to_string(), description: None, input_schema: None },
    ];
    let cmds = extract_mcp_commands(&tools);
    assert_eq!(cmds.len(), 2);
    assert_eq!(cmds[0].name, "get-weather");
    assert_eq!(cmds[0].tool_name.as_deref(), Some("get_weather"));
    let city = cmds[0].params.iter().find(|p| p.original_name == "city").unwrap();
    assert!(city.required);
    assert_eq!(city.location, ParamLocation::ToolInput);
    let days = cmds[0].params.iter().find(|p| p.original_name == "days").unwrap();
    assert_eq!(days.rust_type, ParamType::Int);
    assert!(!days.required);
    assert!(cmds[1].params.is_empty());
}

// ── Sessions ─────────────────────────────────────────────────────────────────

#[test]
fn session_replies() {
    assert_eq!(session_result(Some(r#"{"result": {"ok": 1}}"#)).unwrap(), j(r#"{"ok": 1}"#));
    match session_result(Some(r#"{"error": {"message": "bad"}}"#)) {
        Err(AppError::Protocol(m)) => assert_eq!(m, "Session daemon error: bad"),
        other => panic!("unexpected {:?}", other),
    }
    assert!(matches!(session_result(None), Err(AppError::Protocol(_))));
    assert!(matches!(session_result(Some("not json")), Err(AppError::Json(_))));
    assert!(matches!(session_result(Some("{}")), Err(AppError::Protocol(_))));
}

#[test]
fn daemon_dispatch() {
    assert!(matches!(dispatch_method("tools/list", None), Ok(DaemonCall::ListTools)));
    let params = j(r#"{"name": "echo", "arguments": {"x": 1}}"#);
    match dispatch_method("tools/call", Some(&params)) {
        Ok(DaemonCall::CallTool { name, arguments }) => {
            assert_eq!(name, "echo");
            assert_eq!(arguments, j(r#"{"x": 1}"#));
        },
        other => panic!("unexpected {:?}", other),
    }
    assert!(dispatch_method("tools/call", None).is_err());
    assert!(dispatch_method("resources/read", Some(&j("{}"))).is_err());
    match dispatch_method("nope", None) {
        Err(AppError::Protocol(m)) => assert_eq!(m, "Unknown method: nope"),
        other => panic!("unexpected {:?}", other),
    }
}

#[test]
fn daemon_lines() {
    assert!(matches!(daemon_step("   "), DaemonStep::Skip));
    match daemon_step(r#"{"id": 3, "method": "tools/list"}"#) {
        DaemonStep::Call { id, call } => {
            assert_eq!(id, j("3"));
            assert!(matches!(call, DaemonCall::ListTools));
        },
        other => panic!("unexpected {:?}", other),
    }
    match daemon_step("garbage") {
        DaemonStep::Reply(v) => {
            assert_eq!(v.get("id"), Some(&JsonValue::Null));
            assert_eq!(v.get("error").unwrap().get("code"), Some(&j("-32700")));
        },
        other => panic!("unexpected {:?}", other),
    }
    assert_eq!(
        daemon_reply(j("7"), Ok(j("true"))),
        j(r#"{"id": 7, "jsonrpc": "2.0", "result": true}"#)
    );
    assert_eq!(
        daemon_reply(j("7"), Err("boom".to_string())),
        j(r#"{"error": {"code": -32603, "message": "boom"}, "id": 7, "jsonrpc": "2.0"}"#)
    );
}

// ── Handler pieces ───────────────────────────────────────────────────────────

fn tool_cmd(name: &str, description: &str) -> CommandDef {
    CommandDef {
        name: name.to_string(),
        description: description.to_string(),
        params: vec![],
        has_body: false,
        method: None,
        path: None,
        content_type: None,
        tool_name: Some(name.to_string()),
        graphql_operation_type: None,
        graphql_field_name: None,
        graphql_return_type: None,
    }
}

#[test]
fn search_and_find() {
    let cmds = vec![tool_cmd("get-user", "Fetch a USER"), tool_cmd("list-posts", "All posts"), tool_cmd("get-user", "dup")];
    let found = search_commands(&cmds, "user");
    assert_eq!(found.len(), 2);
    let found = search_commands(&cmds, "POSTS");
    assert_eq!(found.len(), 1);
    assert_eq!(find_command(&cmds, "get-user"), Some(0));
    assert_eq!(find_command(&cmds, "missing"), None);
}

#[test]
fn command_required() {
    assert!(require_command(&strings(&["x"]), "tool").is_ok());
    assert!(matches!(require_command(&vec![], "tool"), Err(AppError::Cli(_))));
}

#[test]
fn arguments_are_coerced_and_merged_with_stdin() {
    let tools = vec![McpTool {
        name: "t".to_string(),
        description: None,
        input_schema: Some(j(r#"{"type": "object", "properties": {"count": {"type": "integer"}, "flag": {"type": "boolean"}}}"#)),
    }];
    let cmd = &extract_mcp_commands(&tools)[0];
    let args = vec![
        ArgText { key: "count".to_string(), value: "3".to_string(), as_float: None },
        ArgText { key: "extra".to_string(), value: "free".to_string(), as_float: None },
    ];
    let stdin = j(r#"{"flag": true, "count": 1}"#);
    let built = build_arguments(cmd, Some(&stdin), &args).unwrap();
    let get = |k: &str| built.iter().find(|(n, _)| n == k).map(|(_, v)| v.clone());
    assert_eq!(get("count"), Some(j("3")));
    assert_eq!(get("flag"), Some(j("true")));
    assert_eq!(get("extra"), Some(j(r#""free""#)));

    assert!(build_arguments(cmd, Some(&j("[1]")), &vec![]).is_err());
    let bad = vec![ArgText { key: "count".to_string(), value: "many".to_string(), as_float: None }];
    assert!(matches!(build_arguments(cmd, None, &bad), Err(AppError::Cli(_))));
}

#[test]
fn tool_listing_shape() {
    let tools = vec![McpTool {
        name: "echo_text".to_string(),
        description: Some("Echo".to_string()),
        input_schema: Some(j(r#"{"type": "object", "required": ["text"], "properties": {"text": {"type": "string", "description": "What"}}}"#)),
    }];
    let cmds = extract_mcp_commands(&tools);
    assert_eq!(
        mcp2cli::handler::tool_list_value(&cmds),
        j(r#"[{"description": "Echo", "name": "echo-text", "params": [{"description": "What", "name": "text", "required": true}]}]"#)
    );
}

#[test]
fn oauth_header_replaces_the_given_authorization() {
    let headers = vec![
        ("Authorization".to_string(), "Bearer old".to_string()),
        ("X-Api".to_string(), "1".to_string()),
        ("authorization".to_string(), "lower".to_string()),
    ];
    let out = mcp2cli::mcp::with_authorization(headers, "Bearer new".to_string());
    assert_eq!(
        out,
        vec![
            ("X-Api".to_string(), "1".to_string()),
            ("authorization".to_string(), "lower".to_string()),
            ("Authorization".to_string(), "Bearer new".to_string()),
        ]
    );
}

#[test]
fn search_ignores_the_case_of_the_keyword() {
    let cmds = vec![tool_cmd("get-user", "Fetch a USER"), tool_cmd("list-posts", "All posts")];
    let names = |found: Vec<mcp2cli::types::CommandDef>| found.into_iter().map(|c| c.name).collect::<Vec<String>>();
    assert_eq!(names(search_commands(&cmds, "User")), names(search_commands(&cmds, "uSER")));
    assert_eq!(names(search_commands(&cmds, "POSTS")), vec!["list-posts".to_string()]);
}

#[test]
fn the_tool_a_command_calls() {
    let mut cmd = tool_cmd("get-user", "Fetch");
    cmd.tool_name = Some("getUser".to_string());
    assert_eq!(mcp2cli::mcp::tool_name_of(&cmd), "getUser");
    cmd.tool_name = None;
    assert_eq!(mcp2cli::mcp::tool_name_of(&cmd), "get-user");
    assert_eq!(mcp2cli::graphql::field_name_of(&cmd), "get-user");
    cmd.graphql_field_name = Some("user".to_string());
    assert_eq!(mcp2cli::graphql::field_name_of(&cmd), "user");
}
