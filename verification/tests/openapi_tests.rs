//! OpenAPI: `$ref` resolution, command extraction, request planning and output
//! helpers.

use mcp2cli::cli::{apply_head, raw_text};
use mcp2cli::dynamic::parse_dynamic_args;
use mcp2cli::handler::{choose_base_url, extract_base_url};
use mcp2cli::json::JsonValue;
use mcp2cli::names::deduplicate_name;
use mcp2cli::openapi::{extract_enum_choices, extract_openapi_commands, WHOLE_BODY_KEY};
use mcp2cli::refs::{resolve_pointer, resolve_refs};
use mcp2cli::request::{openapi_response, plan_openapi_request, value_to_string, FormField, RequestBody};
use mcp2cli::types::{ParamLocation, ParamType};

/// A serde_json value as the library's.
fn lib_value(v: serde_json::Value) -> JsonValue {
    match v {
        serde_json::Value::Null => JsonValue::Null,
        serde_json::Value::Bool(b) => JsonValue::Bool(b),
        serde_json::Value::Number(n) => JsonValue::Number(n.to_string()),
        serde_json::Value::String(s) => JsonValue::Str(s),
        serde_json::Value::Array(a) => JsonValue::Array(a.into_iter().map(lib_value).collect()),
        serde_json::Value::Object(m) => JsonValue::Object(m.into_iter().map(|(k, x)| (k, lib_value(x))).collect()),
    }
}

fn j(text: &str) -> JsonValue {
    lib_value(serde_json::from_str(text).unwrap())
}

fn resolve_target(root: &JsonValue) -> JsonValue {
    let target = root.get("target").unwrap();
    let mut seen: Vec<String> = Vec::new();
    let resolved = resolve_refs(target, root, &mut seen);
    assert!(seen.is_empty());
    resolved
}

// ── $ref resolution ──────────────────────────────────────────────────────────

#[test]
fn refs_test_simple_ref_resolution() {
    let root = j(r##"{
        "components": {"schemas": {"Pet": {"type": "object", "properties": {"name": {"type": "string"}}}}},
        "target": {"$ref": "#/components/schemas/Pet"}
    }"##);
    let resolved = resolve_target(&root);
    assert_eq!(
        resolved.get("properties").unwrap().get("name").unwrap().get("type").unwrap(),
        &j(r#""string""#)
    );
}

#[test]
fn refs_test_nested_ref_resolution() {
    let root = j(r##"{
        "components": {"schemas": {
            "Pet": {"type": "object", "properties": {"owner": {"$ref": "#/components/schemas/Owner"}}},
            "Owner": {"type": "object", "properties": {"name": {"type": "string"}}}
        }},
        "target": {"$ref": "#/components/schemas/Pet"}
    }"##);
    let resolved = resolve_target(&root);
    let owner = resolved.get("properties").unwrap().get("owner").unwrap();
    assert_eq!(
        owner.get("properties").unwrap().get("name").unwrap().get("type").unwrap(),
        &j(r#""string""#)
    );
}

#[test]
fn refs_test_circular_ref_detection() {
    let root = j(r##"{
        "components": {"schemas": {"Node": {"type": "object", "properties": {"child": {"$ref": "#/components/schemas/Node"}}}}},
        "target": {"$ref": "#/components/schemas/Node"}
    }"##);
    let resolved = resolve_target(&root);
    let child = resolved.get("properties").unwrap().get("child").unwrap();
    assert_eq!(child, &j("{}"));
}

#[test]
fn test_same_ref_reused_in_multiple_places() {
    let root = j(r##"{
        "components": {"schemas": {"Tag": {"type": "string"}}},
        "target": {"type": "object", "properties": {
            "tag1": {"$ref": "#/components/schemas/Tag"},
            "tag2": {"$ref": "#/components/schemas/Tag"}
        }}
    }"##);
    let resolved = resolve_target(&root);
    let props = resolved.get("properties").unwrap();
    assert_eq!(props.get("tag1").unwrap(), &j(r#"{"type": "string"}"#));
    assert_eq!(props.get("tag2").unwrap(), &j(r#"{"type": "string"}"#));
}

#[test]
fn test_unresolvable_ref_preserved() {
    let root = j(r##"{"target": {"$ref": "#/components/schemas/Missing"}}"##);
    let resolved = resolve_target(&root);
    assert_eq!(resolved.get("$ref").unwrap(), &j(r##""#/components/schemas/Missing""##));
}

#[test]
fn pointer_lookup() {
    let root = j(r#"{"a": {"b~1c": {"d": 1}}}"#);
    assert_eq!(resolve_pointer("#/a/b~1c/d", &root), Some(j("1")));
    assert_eq!(resolve_pointer("#/a/x", &root), None);
    assert_eq!(resolve_pointer("other.json#/a", &root), None);
}

// ── Command extraction ───────────────────────────────────────────────────────

fn petstore_spec() -> JsonValue {
    j(r#"{
        "openapi": "3.0.0",
        "paths": {
            "/pets": {
                "get": {
                    "operationId": "listPets",
                    "summary": "List all pets",
                    "parameters": [
                        {"name": "limit", "in": "query", "required": false, "description": "Max items to return", "schema": {"type": "integer"}},
                        {"name": "status", "in": "query", "schema": {"type": "string", "enum": ["available", "pending", "sold"]}}
                    ]
                },
                "post": {
                    "operationId": "createPet",
                    "summary": "Create a pet",
                    "requestBody": {
                        "required": true,
                        "content": {"application/json": {"schema": {
                            "type": "object",
                            "required": ["name"],
                            "properties": {"name": {"type": "string", "description": "Pet name"}, "tag": {"type": "string"}}
                        }}}
                    }
                }
            },
            "/pets/{petId}": {
                "parameters": [{"name": "petId", "in": "path", "required": true, "schema": {"type": "integer"}}],
                "get": {"operationId": "getPetById", "summary": "Get a pet by ID"},
                "delete": {"summary": "Delete a pet"}
            }
        }
    }"#)
}

#[test]
fn commands_test_extract_commands_count() {
    let cmds = extract_openapi_commands(&petstore_spec());
    assert_eq!(cmds.len(), 4);
}

#[test]
fn test_operation_id_naming() {
    let cmds = extract_openapi_commands(&petstore_spec());
    let names: Vec<&str> = cmds.iter().map(|c| c.name.as_str()).collect();
    assert!(names.contains(&"list-pets"));
    assert!(names.contains(&"create-pet"));
    assert!(names.contains(&"get-pet-by-id"));
}

#[test]
fn test_fallback_naming() {
    let cmds = extract_openapi_commands(&petstore_spec());
    let delete_cmd = cmds.iter().find(|c| c.method.as_deref() == Some("DELETE")).unwrap();
    assert_eq!(delete_cmd.name, "delete-pets-petId");
}

#[test]
fn test_query_params_extracted() {
    let cmds = extract_openapi_commands(&petstore_spec());
    let list = cmds.iter().find(|c| c.name == "list-pets").unwrap();
    assert_eq!(list.params.len(), 2);
    let limit = list.params.iter().find(|p| p.original_name == "limit").unwrap();
    assert_eq!(limit.location, ParamLocation::Query);
    assert_eq!(limit.rust_type, ParamType::Int);
    assert!(!limit.required);
}

#[test]
fn test_enum_choices_extracted() {
    let cmds = extract_openapi_commands(&petstore_spec());
    let list = cmds.iter().find(|c| c.name == "list-pets").unwrap();
    let status = list.params.iter().find(|p| p.original_name == "status").unwrap();
    assert_eq!(status.choices.as_ref().unwrap(), &["available", "pending", "sold"]);
}

#[test]
fn test_path_params_from_path_level() {
    let cmds = extract_openapi_commands(&petstore_spec());
    let get = cmds.iter().find(|c| c.name == "get-pet-by-id").unwrap();
    assert_eq!(get.params.len(), 1);
    let pet_id = &get.params[0];
    assert_eq!(pet_id.original_name, "petId");
    assert_eq!(pet_id.location, ParamLocation::Path);
    assert!(pet_id.required);
}

#[test]
fn test_body_params_extracted() {
    let cmds = extract_openapi_commands(&petstore_spec());
    let create = cmds.iter().find(|c| c.name == "create-pet").unwrap();
    assert!(create.has_body);
    assert_eq!(create.content_type.as_deref(), Some("application/json"));
    assert_eq!(create.params.len(), 2);
    let name_param = create.params.iter().find(|p| p.original_name == "name").unwrap();
    assert_eq!(name_param.location, ParamLocation::Body);
    assert!(name_param.required);
    let tag_param = create.params.iter().find(|p| p.original_name == "tag").unwrap();
    assert!(!tag_param.required);
}

#[test]
fn test_multipart_file_detection() {
    let spec = j(r#"{"paths": {"/upload": {"post": {
        "operationId": "uploadFile",
        "requestBody": {"content": {"multipart/form-data": {"schema": {
            "type": "object",
            "properties": {"file": {"type": "string", "format": "binary"}, "description": {"type": "string"}}
        }}}}
    }}}}"#);
    let cmds = extract_openapi_commands(&spec);
    assert_eq!(cmds.len(), 1);
    let cmd = &cmds[0];
    assert_eq!(cmd.content_type.as_deref(), Some("multipart/form-data"));
    let file_param = cmd.params.iter().find(|p| p.original_name == "file").unwrap();
    assert_eq!(file_param.location, ParamLocation::File);
}

#[test]
fn test_name_deduplication() {
    let spec = j(r#"{"paths": {"/a": {"get": {"operationId": "doThing"}}, "/b": {"get": {"operationId": "doThing"}}}}"#);
    let cmds = extract_openapi_commands(&spec);
    let names: Vec<&str> = cmds.iter().map(|c| c.name.as_str()).collect();
    assert!(names.contains(&"do-thing"));
    assert!(names.contains(&"do-thing-2"));
}

#[test]
fn whole_body_for_array_schema() {
    let spec = j(r#"{"paths": {"/bulk": {"post": {
        "operationId": "bulk",
        "requestBody": {"required": true, "content": {"application/json": {"schema": {"type": "array", "items": {"type": "string"}}}}}
    }}}}"#);
    let cmds = extract_openapi_commands(&spec);
    let p = &cmds[0].params[0];
    assert_eq!(p.name, "body");
    assert_eq!(p.original_name, WHOLE_BODY_KEY);
    assert_eq!(p.location, ParamLocation::WholeBody);
    assert_eq!(p.rust_type, ParamType::Array);
    assert!(p.required);
}

#[test]
fn dedup_names_are_fresh() {
    let mut seen: Vec<String> = Vec::new();
    assert_eq!(deduplicate_name("x".to_string(), &mut seen), "x");
    assert_eq!(deduplicate_name("x".to_string(), &mut seen), "x-2");
    assert_eq!(deduplicate_name("x".to_string(), &mut seen), "x-3");
    assert_eq!(deduplicate_name("x-2".to_string(), &mut seen), "x-2-2");
    assert_eq!(seen.len(), 4);
}

#[test]
fn enum_choices_from_scalars() {
    assert_eq!(
        extract_enum_choices(&j(r#"{"enum": ["a", 1, true, null, "b"]}"#)),
        Some(vec!["a".to_string(), "1".to_string(), "true".to_string(), "b".to_string()])
    );
    assert_eq!(extract_enum_choices(&j(r#"{"enum": [null]}"#)), None);
    assert_eq!(extract_enum_choices(&j(r#"{"type": "string"}"#)), None);
}

// ── Requests ─────────────────────────────────────────────────────────────────

#[test]
fn test_value_to_string_types() {
    assert_eq!(value_to_string(&j(r#""hello""#)), "hello");
    assert_eq!(value_to_string(&j("42")), "42");
    assert_eq!(value_to_string(&j("true")), "true");
    assert_eq!(value_to_string(&JsonValue::Null), "");
    assert_eq!(value_to_string(&j("[1, 2]")), "[1,2]");
}

#[test]
fn path_values_are_url_encoded() {
    let cmds = extract_openapi_commands(&petstore_spec());
    let get = cmds.iter().find(|c| c.name == "get-pet-by-id").unwrap();
    let args = vec![("petId".to_string(), j(r#""a b/c?d-_.~""#))];
    let req = plan_openapi_request(get, &args, "https://api.example.com", &vec![]).unwrap();
    assert_eq!(req.url, "https://api.example.com/pets/a%20b%2Fc%3Fd-_.~");
}

#[test]
fn plan_get_with_path_and_query() {
    let cmds = extract_openapi_commands(&petstore_spec());
    let get = cmds.iter().find(|c| c.name == "get-pet-by-id").unwrap();
    let args = vec![("petId".to_string(), j("7"))];
    let req = plan_openapi_request(get, &args, "https://api.example.com/", &vec![]).unwrap();
    assert_eq!(req.method, "GET");
    assert_eq!(req.url, "https://api.example.com/pets/7");
    assert!(matches!(req.body, RequestBody::Empty));

    let list = cmds.iter().find(|c| c.name == "list-pets").unwrap();
    let args = vec![("limit".to_string(), j("5")), ("status".to_string(), j(r#""sold out""#))];
    let headers = vec![("Authorization".to_string(), "Bearer t".to_string())];
    let req = plan_openapi_request(list, &args, "https://api.example.com", &headers).unwrap();
    assert_eq!(req.url, "https://api.example.com/pets?limit=5&status=sold%20out");
    assert_eq!(req.headers, headers);
}

#[test]
fn plan_post_with_json_body() {
    let cmds = extract_openapi_commands(&petstore_spec());
    let create = cmds.iter().find(|c| c.name == "create-pet").unwrap();
    let args = vec![("name".to_string(), j(r#""Rex""#))];
    let req = plan_openapi_request(create, &args, "https://api.example.com", &vec![]).unwrap();
    assert_eq!(req.method, "POST");
    match req.body {
        RequestBody::Json(v) => assert_eq!(v, j(r#"{"name": "Rex"}"#)),
        other => panic!("unexpected body {:?}", other),
    }
}

#[test]
fn plan_multipart_upload() {
    let spec = j(r#"{"paths": {"/upload": {"post": {
        "operationId": "uploadFile",
        "requestBody": {"content": {"multipart/form-data": {"schema": {
            "type": "object",
            "properties": {"file": {"type": "string", "format": "binary"}, "note": {"type": "string"}}
        }}}}
    }}}}"#);
    let cmds = extract_openapi_commands(&spec);
    let args = vec![("file".to_string(), j(r#""/tmp/a.txt""#)), ("note".to_string(), j(r#""hi""#))];
    let req = plan_openapi_request(&cmds[0], &args, "http://h", &vec![]).unwrap();
    match req.body {
        RequestBody::Multipart(fields) => {
            assert_eq!(fields.len(), 2);
            assert!(fields.iter().any(|f| matches!(f, FormField::File { name, path } if name == "file" && path == "/tmp/a.txt")));
            assert!(fields.iter().any(|f| matches!(f, FormField::Text { name, value } if name == "note" && value == "hi")));
        },
        other => panic!("unexpected body {:?}", other),
    }
}

#[test]
fn responses_by_status() {
    assert_eq!(openapi_response(200, r#"{"ok": true}"#).unwrap(), j(r#"{"ok": true}"#));
    assert_eq!(openapi_response(200, "plain text").unwrap(), j(r#""plain text""#));
    assert!(openapi_response(404, "not found").is_err());
}

#[test]
fn base_url_from_servers_or_flag() {
    let spec = j(r#"{"servers": [{"url": "https://srv.example.com"}]}"#);
    assert_eq!(extract_base_url(&spec), Some("https://srv.example.com".to_string()));
    assert_eq!(choose_base_url(&Some("https://given".to_string()), &spec).unwrap(), "https://given");
    assert_eq!(choose_base_url(&None, &spec).unwrap(), "https://srv.example.com");
    assert!(choose_base_url(&None, &j("{}")).is_err());
}

// ── Output helpers ───────────────────────────────────────────────────────────

#[test]
fn test_apply_head_truncates_array() {
    let result = apply_head(&j("[1, 2, 3, 4, 5]"), Some(3));
    assert_eq!(result, j("[1, 2, 3]"));
}

#[test]
fn test_apply_head_no_op_for_non_array() {
    let val = j(r#"{"key": "value"}"#);
    assert_eq!(apply_head(&val, Some(2)), val);
}

#[test]
fn test_apply_head_none_returns_clone() {
    let val = j("[1, 2, 3]");
    assert_eq!(apply_head(&val, None), val);
}

#[test]
fn test_apply_head_larger_than_array() {
    assert_eq!(apply_head(&j("[1, 2]"), Some(10)), j("[1, 2]"));
}

#[test]
fn test_format_json_compact() {
    assert_eq!(raw_text(&j(r#"{"a": 1}"#)), r#"{"a":1}"#);
}

#[test]
fn raw_text_of_strings_and_values() {
    assert_eq!(raw_text(&j(r#""hi""#)), "hi");
    assert_eq!(raw_text(&j("[1, 2]")), "[1,2]");
}

#[test]
fn listing_grouped_by_first_path_segment() {
    let spec = j(r#"{"paths": {
        "/users/{id}": {"get": {"operationId": "getUser", "summary": "Get", "parameters": [
            {"name": "id", "in": "path", "required": true, "schema": {"type": "string"}}
        ]}},
        "/health": {"get": {"operationId": "ping"}}
    }}"#);
    let cmds = extract_openapi_commands(&spec);
    assert_eq!(
        mcp2cli::listing::openapi_listing(&cmds),
        j(r#"[
            {"commands": [{"description": "", "method": "GET", "name": "ping", "params": [], "path": "/health"}], "group": "health"},
            {"commands": [{"description": "Get", "method": "GET", "name": "get-user", "params": [
                {"description": "", "location": "Path", "name": "id", "required": true}
            ], "path": "/users/{id}"}], "group": "users"}
        ]"#)
    );
}

#[test]
fn http_error_shows_status_and_body() {
    match openapi_response(404, "not found") {
        Err(mcp2cli::error::AppError::Execution(m)) => assert_eq!(m, r#"HTTP 404: "not found""#),
        other => panic!("unexpected {:?}", other),
    }
}

#[test]
fn command_arguments_read_by_clap() {
    let cmds = extract_openapi_commands(&petstore_spec());
    let argv = |items: &[&str]| items.iter().map(|s| s.to_string()).collect::<Vec<String>>();

    assert!(matches!(parse_dynamic_args(&cmds, &vec![]), Err(mcp2cli::error::AppError::Cli(m)) if m == "no subcommand provided"));
    assert!(matches!(parse_dynamic_args(&cmds, &argv(&["nope"])), Err(mcp2cli::error::AppError::Cli(m)) if m == "unknown command: nope"));

    let parsed = parse_dynamic_args(&cmds, &argv(&["list-pets", "--status", "sold", "--limit", "5"])).unwrap();
    assert_eq!(parsed.command, "list-pets");
    assert_eq!(cmds[parsed.index].name, "list-pets");
    assert_eq!(parsed.args, vec![("limit".to_string(), "5".to_string()), ("status".to_string(), "sold".to_string())]);
    assert!(!parsed.stdin);

    assert!(parse_dynamic_args(&cmds, &argv(&["list-pets", "--status", "lost"])).is_err());
    assert!(parse_dynamic_args(&cmds, &argv(&["get-pet-by-id"])).is_err());
    assert!(parse_dynamic_args(&cmds, &argv(&["create-pet", "--stdin"])).is_err());
    let parsed = parse_dynamic_args(&cmds, &argv(&["create-pet", "--name", "Rex", "--stdin"])).unwrap();
    assert_eq!(parsed.args, vec![("name".to_string(), "Rex".to_string())]);
    assert!(parsed.stdin);
}

#[test]
fn command_with_clashing_parameter_names_is_refused() {
    let argv = |items: &[&str]| items.iter().map(|s| s.to_string()).collect::<Vec<String>>();
    let mut cmds = extract_openapi_commands(&petstore_spec());
    let i = cmds.iter().position(|c| c.name == "list-pets").unwrap();
    cmds[i].params[0].name = "help".to_string();
    assert!(matches!(parse_dynamic_args(&cmds, &argv(&["list-pets"])),
        Err(mcp2cli::error::AppError::Cli(m)) if m == "conflicting parameter names in command list-pets"));
    let name1 = cmds[i].params[1].name.clone();
    cmds[i].params[0].name = name1;
    assert!(parse_dynamic_args(&cmds, &argv(&["list-pets"])).is_err());
    let j = cmds.iter().position(|c| c.name == "create-pet").unwrap();
    cmds[j].params[0].name = "stdin".to_string();
    assert!(matches!(parse_dynamic_args(&cmds, &argv(&["create-pet"])),
        Err(mcp2cli::error::AppError::Cli(m)) if m == "conflicting parameter names in command create-pet"));
}

#[test]
fn one_command_per_operation_with_its_method_and_path() {
    let cmds = extract_openapi_commands(&petstore_spec());
    for c in &cmds {
        let method = c.method.clone().unwrap();
        assert!(["GET", "POST", "PUT", "PATCH", "DELETE", "HEAD", "OPTIONS"].contains(&method.as_str()));
        assert!(c.path.is_some());
        for p in &c.params {
            if p.location == ParamLocation::Path {
                assert!(p.required);
            }
        }
    }
    let empty = j(r#"{"openapi": "3.0.0", "paths": []}"#);
    assert!(extract_openapi_commands(&empty).is_empty());
}
