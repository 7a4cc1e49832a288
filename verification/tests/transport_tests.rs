//! Secret references, YAML specifications, server commands, reply matching, the
//! SSE message endpoint and the OAuth callback page.

use mcp2cli::error::AppError;
use mcp2cli::json::JsonValue;
use mcp2cli::mcp::{JsonRpcError, JsonRpcResponse};
use mcp2cli::oauth::callback_outcome;
use mcp2cli::secrets::{next_env_ref, secret_source, SecretSource};
use mcp2cli::wire::{
    call_params, endpoint_event, event_reply_step, initialize_params, json_eq, resolve_message_url,
    split_command, stdio_reply_step, uri_params, ReplyStep,
};
use mcp2cli::yaml::{spec_from_local_text, spec_from_remote_text, yaml_to_json, YamlKey, YamlNode};

/// A serde_json value as the library's.
fn lib_value(v: serde_json::Value) -> JsonValue {
    match v {
        serde_json::Value::Null => JsonValue::Null,
        serde_json::Value::Bool(b) => JsonValue::Bool(b),
        serde_json::Value::Number(n) => JsonValue::Number(n.to_string()),
        serde_json::Value::String(s) => JsonValue::Str(s),
        serde_json::Value::Array(a) => JsonValue::Array(a.into_iter().map(lib_value).collect()),
        serde_json::Value::Object(m) => JsonValue::Object(m.into_iter().map(|(k, x)| (k, lib_value(x))).collect()),
    }
}

fn j(text: &str) -> JsonValue {
    lib_value(serde_json::from_str(text).unwrap())
}

// ── Secrets ──────────────────────────────────────────────────────────────────

#[test]
fn secret_sources_by_form() {
    assert!(matches!(secret_source("env:TOKEN"), SecretSource::Env(v) if v == "TOKEN"));
    assert!(matches!(secret_source("file:/run/secret"), SecretSource::File(p) if p == "/run/secret"));
    assert!(matches!(secret_source("Bearer env:TOKEN"), SecretSource::Inline));
    assert!(matches!(secret_source("my-secret"), SecretSource::Literal));
}

#[test]
fn inline_env_references() {
    assert_eq!(
        next_env_ref("Bearer env:MY_TOKEN rest"),
        Some(("Bearer ".to_string(), "MY_TOKEN".to_string(), " rest".to_string()))
    );
    assert_eq!(next_env_ref("a env:X-y"), Some(("a ".to_string(), "X".to_string(), "-y".to_string())));
    assert_eq!(next_env_ref("trailing env:"), Some(("trailing ".to_string(), String::new(), String::new())));
    assert_eq!(next_env_ref("nothing here"), None);
}

// ── YAML ─────────────────────────────────────────────────────────────────────

fn s(text: &str) -> YamlNode {
    YamlNode::Str(text.to_string())
}

fn k(text: &str) -> YamlKey {
    YamlKey::Str(text.to_string())
}

#[test]
fn yaml_mapping_becomes_sorted_object() {
    let node = YamlNode::Hash(vec![
        (k("paths"), YamlNode::Hash(vec![])),
        (k("openapi"), s("3.0.0")),
        (YamlKey::Integer(200), YamlNode::Integer(-3)),
        (YamlKey::Boolean(true), YamlNode::Null),
        (k("openapi"), s("3.1.0")),
        (k("list"), YamlNode::Array(vec![YamlNode::Boolean(false), YamlNode::Real { text: "1.5".to_string(), number: Some(j("1.5")) }])),
    ]);
    assert_eq!(
        yaml_to_json(&node).unwrap(),
        j(r#"{"200": -3, "list": [false, 1.5], "openapi": "3.1.0", "paths": {}, "true": null}"#)
    );
}

#[test]
fn yaml_errors() {
    assert_eq!(yaml_to_json(&YamlNode::Alias), Err("YAML aliases are not supported".to_string()));
    assert_eq!(yaml_to_json(&YamlNode::BadValue), Err("invalid YAML value".to_string()));
    let bad_real = YamlNode::Array(vec![YamlNode::Real { text: "1e999".to_string(), number: None }]);
    assert_eq!(yaml_to_json(&bad_real), Err("invalid YAML real: 1e999".to_string()));
    let bad_key = YamlNode::Hash(vec![(YamlKey::Other("Array([])".to_string()), YamlNode::Null)]);
    assert_eq!(yaml_to_json(&bad_key), Err("unsupported YAML key: Array([])".to_string()));
}

#[test]
fn local_spec_by_extension() {
    let doc = Ok(Some(YamlNode::Hash(vec![(k("openapi"), s("3.0.0"))])));
    assert_eq!(spec_from_local_text("api.yaml", "ignored", &doc).unwrap(), j(r#"{"openapi": "3.0.0"}"#));
    assert_eq!(spec_from_local_text("api.yml", "ignored", &Ok(None)).unwrap(), JsonValue::Null);
    assert!(matches!(spec_from_local_text("api.yaml", "x", &Err("bad".to_string())), Err(AppError::Protocol(m)) if m == "invalid YAML: bad"));
    assert_eq!(spec_from_local_text("api.json", r#"{"a": 1}"#, &Ok(None)).unwrap(), j(r#"{"a": 1}"#));
    assert!(matches!(spec_from_local_text("api.json", "a: 1", &doc), Err(AppError::Json(_))));
}

#[test]
fn remote_spec_tries_json_first() {
    let doc = Ok(Some(YamlNode::Hash(vec![(k("a"), YamlNode::Integer(1))])));
    assert_eq!(spec_from_remote_text(r#"{"b": 2}"#, &doc).unwrap(), j(r#"{"b": 2}"#));
    assert_eq!(spec_from_remote_text("a: 1", &doc).unwrap(), j(r#"{"a": 1}"#));
    assert!(matches!(spec_from_remote_text("::", &Err("oops".to_string())), Err(AppError::Protocol(m)) if m == "invalid spec format: oops"));
}

// ── Server commands and requests ─────────────────────────────────────────────

#[test]
fn server_command_words() {
    assert_eq!(split_command("  npx  -y\tserver "), ("npx".to_string(), vec!["-y".to_string(), "server".to_string()]));
    assert_eq!(split_command("solo"), ("solo".to_string(), vec![]));
    assert_eq!(split_command("   "), ("   ".to_string(), vec![]));
}

#[test]
fn request_parameters() {
    assert_eq!(
        initialize_params("1.2.3"),
        j(r#"{"protocolVersion": "2025-03-26", "capabilities": {}, "clientInfo": {"name": "mcp2cli", "version": "1.2.3"}}"#)
    );
    assert_eq!(call_params("echo", j(r#"{"x": 1}"#)), j(r#"{"name": "echo", "arguments": {"x": 1}}"#));
    assert_eq!(uri_params("file:///a"), j(r#"{"uri": "file:///a"}"#));
}

#[test]
fn json_equality() {
    assert!(json_eq(&j(r#"{"a": [1, "x", null]}"#), &j(r#"{"a": [1, "x", null]}"#)));
    assert!(!json_eq(&j(r#"{"a": [1]}"#), &j(r#"{"a": [2]}"#)));
    assert!(!json_eq(&j("1"), &j(r#""1""#)));
}

// ── Replies ──────────────────────────────────────────────────────────────────

fn response(id: Option<JsonValue>, error: Option<JsonRpcError>) -> JsonRpcResponse {
    JsonRpcResponse { jsonrpc: "2.0".to_string(), id, result: Some(j("{}")), error }
}

#[test]
fn stdio_replies_matched_by_id() {
    let id = j(r#""req-1""#);
    assert!(matches!(stdio_reply_step("   ", None, &id), ReplyStep::Skip));
    assert!(matches!(stdio_reply_step("log line", None, &id), ReplyStep::Skip));
    assert!(matches!(stdio_reply_step("{}", Some(response(Some(j(r#""other""#)), None)), &id), ReplyStep::Skip));
    assert!(matches!(stdio_reply_step("{}", Some(response(None, None)), &id), ReplyStep::Skip));
    assert!(matches!(stdio_reply_step("{}", Some(response(Some(id.clone()), None)), &id), ReplyStep::Done(Ok(_))));
    let failing = response(Some(id.clone()), Some(JsonRpcError { code: -1, message: "no".to_string(), data: None }));
    assert!(matches!(stdio_reply_step("{}", Some(failing), &id), ReplyStep::Done(Err(AppError::Protocol(m))) if m == "JSON-RPC error -1: no"));
}

#[test]
fn event_replies() {
    assert!(event_reply_step(None).is_none());
    assert!(matches!(event_reply_step(Some(response(Some(j("1")), None))), Some(Ok(_))));
}

#[test]
fn message_endpoint_resolution() {
    assert_eq!(resolve_message_url("https://h.example/sse", "/messages?s=1").unwrap(), "https://h.example/messages?s=1");
    assert_eq!(resolve_message_url("https://h.example/a/sse", "msg").unwrap(), "https://h.example/a/msg");
    assert_eq!(resolve_message_url("not a url", "https://abs.example/m").unwrap(), "https://abs.example/m");
    assert!(matches!(resolve_message_url("not a url", "/m"), Err(AppError::Protocol(m)) if m.starts_with("Invalid SSE URL: ")));
    assert!(endpoint_event("message", "/m", "https://h.example/sse").is_none());
    assert_eq!(endpoint_event("endpoint", "  /m \n", "https://h.example/sse").unwrap().unwrap(), "https://h.example/m");
}

// ── OAuth callback ───────────────────────────────────────────────────────────

fn pairs(items: &[(&str, &str)]) -> Vec<(String, String)> {
    items.iter().map(|(a, b)| (a.to_string(), b.to_string())).collect()
}

#[test]
fn callback_pages() {
    let (code, page) = callback_outcome(&pairs(&[("state", "x"), ("code", "abc")]));
    assert_eq!(code.as_deref(), Some("abc"));
    assert!(page.contains("Authorization successful!"));
    let (code, page) = callback_outcome(&pairs(&[("error", "denied"), ("error_description", "User said no")]));
    assert!(code.is_none());
    assert_eq!(page, "<html><body><h1>Authorization failed</h1><p>User said no</p></body></html>");
    let (_, page) = callback_outcome(&pairs(&[]));
    assert!(page.contains("Unknown error"));
}
