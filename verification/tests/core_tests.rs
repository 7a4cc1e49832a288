//! Value coercion, command filters, name helpers and key-value lists.

use mcp2cli::cli::{env_pairs, parse_kv_pairs};
use mcp2cli::coerce::{coerce_value, schema_type_to_rust};
use mcp2cli::error::AppError;
use mcp2cli::filter::{eq_ignore_ascii_case_str, filter_commands};
use mcp2cli::helpers::to_kebab;
use mcp2cli::json::JsonValue;
use mcp2cli::types::{CommandDef, ParamType};

/// A serde_json value as the library's.
fn lib_value(v: serde_json::Value) -> JsonValue {
    match v {
        serde_json::Value::Null => JsonValue::Null,
        serde_json::Value::Bool(b) => JsonValue::Bool(b),
        serde_json::Value::Number(n) => JsonValue::Number(n.to_string()),
        serde_json::Value::String(s) => JsonValue::Str(s),
        serde_json::Value::Array(a) => JsonValue::Array(a.into_iter().map(lib_value).collect()),
        serde_json::Value::Object(m) => JsonValue::Object(m.into_iter().map(|(k, x)| (k, lib_value(x))).collect()),
    }
}

fn j(text: &str) -> JsonValue {
    lib_value(serde_json::from_str(text).unwrap())
}

/// The text read as a floating-point number and turned into a JSON value, as
/// `serde_json::Value::from(f64)` does.
fn as_float(text: &str) -> Option<JsonValue> {
    text.parse::<f64>().ok().map(|f| match serde_json::Number::from_f64(f) {
        Some(n) => JsonValue::Number(n.to_string()),
        None => JsonValue::Null,
    })
}

fn coerce(text: &str, schema: &JsonValue) -> Result<JsonValue, AppError> {
    coerce_value(text, schema, as_float(text))
}

// ── Coercion ─────────────────────────────────────────────────────────────────

#[test]
fn test_coerce_int() {
    let schema = j(r#"{"type": "integer"}"#);
    assert_eq!(coerce("42", &schema).unwrap(), j("42"));
}

#[test]
fn test_coerce_bool() {
    let schema = j(r#"{"type": "boolean"}"#);
    assert_eq!(coerce("true", &schema).unwrap(), j("true"));
    assert_eq!(coerce("false", &schema).unwrap(), j("false"));
}

#[test]
fn test_coerce_array_csv() {
    let schema = j(r#"{"type": "array"}"#);
    assert_eq!(coerce("a,b,c", &schema).unwrap(), j(r#"["a", "b", "c"]"#));
}

#[test]
fn test_coerce_array_json() {
    let schema = j(r#"{"type": "array"}"#);
    assert_eq!(coerce("[1,2,3]", &schema).unwrap(), j("[1, 2, 3]"));
}

#[test]
fn test_coerce_float() {
    let schema = j(r#"{"type": "number"}"#);
    assert_eq!(coerce("2.72", &schema).unwrap(), j("2.72"));
    assert!(coerce("not-a-number", &schema).is_err());
}

#[test]
fn test_coerce_string() {
    let schema = j(r#"{"type": "string"}"#);
    assert_eq!(coerce("hello world", &schema).unwrap(), j(r#""hello world""#));
}

#[test]
fn test_coerce_object() {
    let schema = j(r#"{"type": "object"}"#);
    assert_eq!(coerce(r#"{"key":"val"}"#, &schema).unwrap(), j(r#"{"key": "val"}"#));
    assert!(coerce("not-json", &schema).is_err());
}

#[test]
fn test_schema_type_to_rust() {
    assert_eq!(schema_type_to_rust(&j(r#"{"type": "integer"}"#)), ParamType::Int);
    assert_eq!(schema_type_to_rust(&j(r#"{"type": "number"}"#)), ParamType::Float);
    assert_eq!(schema_type_to_rust(&j(r#"{"type": "boolean"}"#)), ParamType::Bool);
    assert_eq!(schema_type_to_rust(&j(r#"{"type": "array"}"#)), ParamType::Array);
    assert_eq!(schema_type_to_rust(&j(r#"{"type": "object"}"#)), ParamType::Object);
    assert_eq!(schema_type_to_rust(&j("{}")), ParamType::String);
}

#[test]
fn test_coerce_int_error() {
    let schema = j(r#"{"type": "integer"}"#);
    assert!(coerce("abc", &schema).is_err());
}

#[test]
fn test_coerce_bool_variants() {
    let schema = j(r#"{"type": "boolean"}"#);
    assert_eq!(coerce("1", &schema).unwrap(), j("true"));
    assert_eq!(coerce("yes", &schema).unwrap(), j("true"));
    assert_eq!(coerce("0", &schema).unwrap(), j("false"));
    assert_eq!(coerce("no", &schema).unwrap(), j("false"));
    assert_eq!(coerce("TRUE", &schema).unwrap(), j("true"));
    assert!(coerce("maybe", &schema).is_err());
}

#[test]
fn coerce_errors_are_cli_errors_with_messages() {
    let int_schema = j(r#"{"type": "integer"}"#);
    match coerce("abc", &int_schema) {
        Err(AppError::Cli(m)) => assert_eq!(m, "expected integer, got 'abc'"),
        other => panic!("unexpected {:?}", other),
    }
    let bool_schema = j(r#"{"type": "boolean"}"#);
    match coerce("maybe", &bool_schema) {
        Err(AppError::Cli(m)) => assert_eq!(m, "expected boolean, got 'maybe'"),
        other => panic!("unexpected {:?}", other),
    }
    let num_schema = j(r#"{"type": "number"}"#);
    match coerce("x", &num_schema) {
        Err(AppError::Cli(m)) => assert_eq!(m, "expected number, got 'x'"),
        other => panic!("unexpected {:?}", other),
    }
}

#[test]
fn coerce_negative_int_and_trimmed_csv() {
    let schema = j(r#"{"type": "integer"}"#);
    assert_eq!(coerce("-7", &schema).unwrap(), j("-7"));
    let arr = j(r#"{"type": "array"}"#);
    assert_eq!(coerce(" a , b ", &arr).unwrap(), j(r#"["a", "b"]"#));
    // A JSON value that is not an array falls back to splitting.
    assert_eq!(coerce("5", &arr).unwrap(), j(r#"["5"]"#));
}

// ── Filters ──────────────────────────────────────────────────────────────────

fn make_cmd(name: &str, method: Option<&str>) -> CommandDef {
    CommandDef {
        name: name.to_string(),
        description: String::new(),
        params: vec![],
        has_body: false,
        method: method.map(String::from),
        path: None,
        content_type: None,
        tool_name: None,
        graphql_operation_type: None,
        graphql_field_name: None,
        graphql_return_type: None,
    }
}

fn strings(items: &[&str]) -> Vec<String> {
    items.iter().map(|s| s.to_string()).collect()
}

#[test]
fn test_include_filter() {
    let cmds = vec![make_cmd("get-users", None), make_cmd("get-posts", None), make_cmd("delete-user", None)];
    let result = filter_commands(cmds, &strings(&["get-*"]), &vec![], &vec![]);
    assert_eq!(result.len(), 2);
}

#[test]
fn test_exclude_filter() {
    let cmds = vec![make_cmd("get-users", None), make_cmd("delete-user", None)];
    let result = filter_commands(cmds, &vec![], &strings(&["delete-*"]), &vec![]);
    assert_eq!(result.len(), 1);
    assert_eq!(result[0].name, "get-users");
}

#[test]
fn test_methods_filter() {
    let cmds = vec![
        make_cmd("get-users", Some("GET")),
        make_cmd("create-user", Some("POST")),
        make_cmd("delete-user", Some("DELETE")),
    ];
    let result = filter_commands(cmds, &vec![], &vec![], &strings(&["GET", "POST"]));
    assert_eq!(result.len(), 2);
    assert_eq!(result[0].name, "get-users");
    assert_eq!(result[1].name, "create-user");
}

#[test]
fn test_combined_include_exclude() {
    let cmds = vec![make_cmd("get-users", None), make_cmd("get-posts", None), make_cmd("get-users-admin", None)];
    let result = filter_commands(cmds, &strings(&["get-users*"]), &strings(&["*admin*"]), &vec![]);
    assert_eq!(result.len(), 1);
    assert_eq!(result[0].name, "get-users");
}

#[test]
fn test_empty_filters_pass_all() {
    let cmds = vec![make_cmd("a", None), make_cmd("b", None), make_cmd("c", None)];
    let result = filter_commands(cmds, &vec![], &vec![], &vec![]);
    assert_eq!(result.len(), 3);
}

#[test]
fn test_methods_filter_case_insensitive() {
    let cmds = vec![make_cmd("get-users", Some("GET")), make_cmd("create-user", Some("POST"))];
    let result = filter_commands(cmds, &vec![], &vec![], &strings(&["get"]));
    assert_eq!(result.len(), 1);
    assert_eq!(result[0].name, "get-users");
}

#[test]
fn methods_filter_keeps_commands_without_method() {
    let cmds = vec![make_cmd("tool", None), make_cmd("get-users", Some("GET"))];
    let result = filter_commands(cmds, &vec![], &vec![], &strings(&["POST"]));
    assert_eq!(result.len(), 1);
    assert_eq!(result[0].name, "tool");
}

#[test]
fn ascii_case_insensitive_comparison() {
    assert!(eq_ignore_ascii_case_str("GeT", "get"));
    assert!(!eq_ignore_ascii_case_str("get", "gets"));
}

// ── Names ────────────────────────────────────────────────────────────────────

#[test]
fn test_to_kebab_camel() {
    assert_eq!(to_kebab("getUserById"), "get-user-by-id");
}

#[test]
fn test_to_kebab_snake() {
    assert_eq!(to_kebab("get_user_by_id"), "get-user-by-id");
}

#[test]
fn test_to_kebab_already_kebab() {
    assert_eq!(to_kebab("get-user"), "get-user");
}

// ── Key-value lists ──────────────────────────────────────────────────────────

fn lookup<'a>(pairs: &'a [(String, String)], key: &str) -> Option<&'a String> {
    pairs.iter().find(|(k, _)| k == key).map(|(_, v)| v)
}

#[test]
fn test_parse_kv_list() {
    let items = strings(&["Authorization: Bearer abc", "X-Api-Key:123"]);
    let pairs = parse_kv_pairs(&items, ':');
    assert_eq!(lookup(&pairs, "Authorization").unwrap(), "Bearer abc");
    assert_eq!(lookup(&pairs, "X-Api-Key").unwrap(), "123");
}

#[test]
fn test_parse_kv_list_equals_delimiter() {
    let items = strings(&["key1=value1", "key2=value2"]);
    let pairs = parse_kv_pairs(&items, '=');
    assert_eq!(lookup(&pairs, "key1").unwrap(), "value1");
    assert_eq!(lookup(&pairs, "key2").unwrap(), "value2");
}

#[test]
fn kv_items_without_delimiter_are_skipped() {
    let items = strings(&["novalue", "a=b=c"]);
    let pairs = parse_kv_pairs(&items, '=');
    assert_eq!(pairs, vec![("a".to_string(), "b=c".to_string())]);
}

#[test]
fn env_pairs_keep_text_as_given() {
    let items = strings(&["A= x ", "bad", "B=2"]);
    assert_eq!(env_pairs(&items), vec![("A".to_string(), " x ".to_string()), ("B".to_string(), "2".to_string())]);
}

#[test]
fn kebab_case_twice_is_kebab_case_once() {
    for name in ["getUserById", "get_user_by_id", "HTTPServer_Config2Value", "already-kebab"] {
        let once = to_kebab(name);
        assert_eq!(to_kebab(&once), once);
        assert!(!once.chars().any(|c| c.is_ascii_uppercase() || c == '_'));
    }
}

#[test]
fn kebab_case_only_adds_hyphens() {
    for name in ["getUserById", "get_user_by_id", "HTTPServer_Config2Value", "a-b_cD"] {
        let without_hyphens: String = to_kebab(name).chars().filter(|c| *c != '-').collect();
        let expected: String = name.chars().filter(|c| *c != '_' && *c != '-').collect::<String>().to_ascii_lowercase();
        assert_eq!(without_hyphens, expected);
    }
}

#[test]
fn integer_texts_at_the_edges() {
    let schema = j(r#"{"type": "integer"}"#);
    assert_eq!(coerce("-9223372036854775808", &schema).unwrap(), j("-9223372036854775808"));
    assert_eq!(coerce("9223372036854775807", &schema).unwrap(), j("9223372036854775807"));
    assert_eq!(coerce("+7", &schema).unwrap(), j("7"));
    assert_eq!(coerce("0", &schema).unwrap(), j("0"));
}
