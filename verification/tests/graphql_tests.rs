//! GraphQL: type mapping, command extraction, selection sets and documents.

use mcp2cli::graphql::{
    build_graphql_document, build_selection_set, extract_graphql_commands, graphql_response,
    graphql_type_string, graphql_type_to_rust, introspection_response, truncate_for_error,
    unwrap_type, IntrospectionEnumValue, IntrospectionField, IntrospectionInputValue,
    IntrospectionSchema, IntrospectionType, TypeName,
};
use mcp2cli::json::JsonValue;
use mcp2cli::types::{CommandDef, ParamDef, ParamLocation, ParamType};

/// A serde_json value as the library's.
fn lib_value(v: serde_json::Value) -> JsonValue {
    match v {
        serde_json::Value::Null => JsonValue::Null,
        serde_json::Value::Bool(b) => JsonValue::Bool(b),
        serde_json::Value::Number(n) => JsonValue::Number(n.to_string()),
        serde_json::Value::String(s) => JsonValue::Str(s),
        serde_json::Value::Array(a) => JsonValue::Array(a.into_iter().map(lib_value).collect()),
        serde_json::Value::Object(m) => JsonValue::Object(m.into_iter().map(|(k, x)| (k, lib_value(x))).collect()),
    }
}

fn j(text: &str) -> JsonValue {
    lib_value(serde_json::from_str(text).unwrap())
}

fn scalar_type(name: &str) -> IntrospectionType {
    IntrospectionType {
        kind: "SCALAR".to_string(),
        name: Some(name.to_string()),
        description: None,
        fields: None,
        input_fields: None,
        enum_values: None,
    }
}

fn object_type(name: &str, description: Option<&str>, fields: Vec<IntrospectionField>) -> IntrospectionType {
    IntrospectionType {
        kind: "OBJECT".to_string(),
        name: Some(name.to_string()),
        description: description.map(String::from),
        fields: Some(fields),
        input_fields: None,
        enum_values: None,
    }
}

fn field(name: &str, description: Option<&str>, args: Vec<IntrospectionInputValue>, ty: &str, deprecated: Option<bool>) -> IntrospectionField {
    IntrospectionField {
        name: name.to_string(),
        description: description.map(String::from),
        args,
        field_type: j(ty),
        is_deprecated: deprecated,
    }
}

fn arg(name: &str, description: Option<&str>, ty: &str) -> IntrospectionInputValue {
    IntrospectionInputValue {
        name: name.to_string(),
        description: description.map(String::from),
        input_type: j(ty),
        default_value: None,
    }
}

const NN_ID: &str = r#"{"kind": "NON_NULL", "ofType": {"kind": "SCALAR", "name": "ID", "ofType": null}}"#;
const NN_STRING: &str = r#"{"kind": "NON_NULL", "ofType": {"kind": "SCALAR", "name": "String", "ofType": null}}"#;
const STRING: &str = r#"{"kind": "SCALAR", "name": "String", "ofType": null}"#;
const USER_OBJ: &str = r#"{"kind": "OBJECT", "name": "User", "ofType": null}"#;

fn gql_param(name: &str, required: bool, description: &str, schema: &str) -> ParamDef {
    ParamDef {
        name: name.to_string(),
        original_name: name.to_string(),
        rust_type: ParamType::String,
        required,
        description: description.to_string(),
        choices: None,
        location: ParamLocation::GraphqlArg,
        schema: j(schema),
    }
}

fn gql_cmd(name: &str, description: &str, params: Vec<ParamDef>, op: &str, field_name: &str, ret: &str) -> CommandDef {
    CommandDef {
        name: name.to_string(),
        description: description.to_string(),
        params,
        has_body: false,
        method: None,
        path: None,
        content_type: None,
        tool_name: None,
        graphql_operation_type: Some(op.to_string()),
        graphql_field_name: Some(field_name.to_string()),
        graphql_return_type: Some(j(ret)),
    }
}

fn args_of(pairs: &[(&str, &str)]) -> Vec<(String, JsonValue)> {
    pairs.iter().map(|(k, v)| (k.to_string(), j(v))).collect()
}

// ─── Type mapping ────────────────────────────────────────────────────

#[test]
fn test_unwrap_scalar_string() {
    let t = j(r#"{"kind": "SCALAR", "name": "String", "ofType": null}"#);
    let (name, non_null, is_list) = unwrap_type(&t);
    assert_eq!(name, "String");
    assert!(!non_null);
    assert!(!is_list);
}

#[test]
fn test_unwrap_non_null_string() {
    let t = j(NN_STRING);
    let (name, non_null, is_list) = unwrap_type(&t);
    assert_eq!(name, "String");
    assert!(non_null);
    assert!(!is_list);
}

#[test]
fn test_unwrap_list_of_strings() {
    let t = j(r#"{"kind": "LIST", "ofType": {"kind": "SCALAR", "name": "String", "ofType": null}}"#);
    let (name, _non_null, is_list) = unwrap_type(&t);
    assert_eq!(name, "String");
    assert!(is_list);
}

#[test]
fn test_unwrap_non_null_list_of_non_null_int() {
    let t = j(r#"{
        "kind": "NON_NULL",
        "ofType": {
            "kind": "LIST",
            "ofType": {
                "kind": "NON_NULL",
                "ofType": {"kind": "SCALAR", "name": "Int", "ofType": null}
            }
        }
    }"#);
    let (name, non_null, is_list) = unwrap_type(&t);
    assert_eq!(name, "Int");
    assert!(non_null);
    assert!(is_list);
}

#[test]
fn test_unwrap_enum_type() {
    let t = j(r#"{"kind": "ENUM", "name": "Status", "ofType": null}"#);
    let (name, non_null, is_list) = unwrap_type(&t);
    assert_eq!(name, "Status");
    assert!(!non_null);
    assert!(!is_list);
}

#[test]
fn test_unwrap_input_object() {
    let t = j(r#"{"kind": "INPUT_OBJECT", "name": "CreateUserInput", "ofType": null}"#);
    let (name, _, _) = unwrap_type(&t);
    assert_eq!(name, "CreateUserInput");
}

#[test]
fn test_graphql_type_string_scalar() {
    let t = j(STRING);
    assert_eq!(graphql_type_string(&t), "String");
}

#[test]
fn test_graphql_type_string_non_null() {
    let t = j(NN_ID);
    assert_eq!(graphql_type_string(&t), "ID!");
}

#[test]
fn test_graphql_type_string_list_non_null() {
    let t = j(r#"{
        "kind": "NON_NULL",
        "ofType": {
            "kind": "LIST",
            "ofType": {
                "kind": "NON_NULL",
                "ofType": {"kind": "SCALAR", "name": "String", "ofType": null}
            }
        }
    }"#);
    assert_eq!(graphql_type_string(&t), "[String!]!");
}

#[test]
fn test_graphql_type_to_rust_scalars() {
    assert_eq!(graphql_type_to_rust(&j(r#"{"kind": "SCALAR", "name": "Int", "ofType": null}"#)), ParamType::Int);
    assert_eq!(graphql_type_to_rust(&j(r#"{"kind": "SCALAR", "name": "Float", "ofType": null}"#)), ParamType::Float);
    assert_eq!(graphql_type_to_rust(&j(r#"{"kind": "SCALAR", "name": "Boolean", "ofType": null}"#)), ParamType::Bool);
    assert_eq!(graphql_type_to_rust(&j(r#"{"kind": "SCALAR", "name": "String", "ofType": null}"#)), ParamType::String);
    assert_eq!(graphql_type_to_rust(&j(r#"{"kind": "SCALAR", "name": "ID", "ofType": null}"#)), ParamType::String);
}

#[test]
fn test_graphql_type_to_rust_list() {
    let t = j(r#"{"kind": "LIST", "ofType": {"kind": "SCALAR", "name": "String", "ofType": null}}"#);
    assert_eq!(graphql_type_to_rust(&t), ParamType::Array);
}

#[test]
fn test_graphql_type_to_rust_enum_maps_to_object() {
    let t = j(r#"{"kind": "ENUM", "name": "Status", "ofType": null}"#);
    assert_eq!(graphql_type_to_rust(&t), ParamType::Object);
}

#[test]
fn test_graphql_type_to_rust_input_object_maps_to_object() {
    let t = j(r#"{"kind": "INPUT_OBJECT", "name": "CreateUserInput", "ofType": null}"#);
    assert_eq!(graphql_type_to_rust(&t), ParamType::Object);
}

// ─── Mock schema ─────────────────────────────────────────────────────

fn make_mock_schema() -> IntrospectionSchema {
    IntrospectionSchema {
        query_type: Some(TypeName { name: "Query".to_string() }),
        mutation_type: Some(TypeName { name: "Mutation".to_string() }),
        types: vec![
            scalar_type("String"),
            scalar_type("Int"),
            scalar_type("ID"),
            scalar_type("Boolean"),
            IntrospectionType {
                kind: "ENUM".to_string(),
                name: Some("Role".to_string()),
                description: Some("User role".to_string()),
                fields: None,
                input_fields: None,
                enum_values: Some(vec![
                    IntrospectionEnumValue { name: "ADMIN".to_string(), description: None },
                    IntrospectionEnumValue { name: "USER".to_string(), description: None },
                ]),
            },
            object_type("User", Some("A user"), vec![
                field("id", None, vec![], NN_ID, Some(false)),
                field("name", None, vec![], NN_STRING, Some(false)),
                field("email", None, vec![], STRING, Some(false)),
                field("role", None, vec![], r#"{"kind": "ENUM", "name": "Role", "ofType": null}"#, Some(false)),
            ]),
            object_type("Post", Some("A blog post"), vec![
                field("id", None, vec![], NN_ID, Some(false)),
                field("title", None, vec![], NN_STRING, Some(false)),
                field("author", None, vec![], USER_OBJ, Some(false)),
            ]),
            object_type("Query", None, vec![
                field("user", Some("Get a user by ID"), vec![arg("id", Some("User ID"), NN_ID)], USER_OBJ, Some(false)),
                field(
                    "users",
                    Some("List all users"),
                    vec![],
                    r#"{"kind": "NON_NULL", "ofType": {"kind": "LIST", "ofType": {"kind": "OBJECT", "name": "User", "ofType": null}}}"#,
                    Some(false),
                ),
                field("post", Some("Get a post"), vec![arg("id", None, NN_ID)], r#"{"kind": "OBJECT", "name": "Post", "ofType": null}"#, Some(false)),
                field("serverVersion", Some("Get server version"), vec![], STRING, Some(false)),
            ]),
            object_type("Mutation", None, vec![
                field(
                    "createUser",
                    Some("Create a new user"),
                    vec![arg("name", Some("User name"), NN_STRING), arg("email", Some("Email address"), STRING)],
                    USER_OBJ,
                    Some(false),
                ),
                field(
                    "deleteUser",
                    Some("Delete a user"),
                    vec![arg("id", None, NN_ID)],
                    r#"{"kind": "SCALAR", "name": "Boolean", "ofType": null}"#,
                    Some(false),
                ),
            ]),
        ],
    }
}

// ─── Command extraction ──────────────────────────────────────────────

#[test]
fn graphql_tests_test_extract_commands_count() {
    let schema = make_mock_schema();
    let commands = extract_graphql_commands(&schema);
    // 4 queries + 2 mutations = 6
    assert_eq!(commands.len(), 6);
}

#[test]
fn test_extract_commands_query_names() {
    let schema = make_mock_schema();
    let commands = extract_graphql_commands(&schema);
    let query_names: Vec<&str> = commands
        .iter()
        .filter(|c| c.graphql_operation_type.as_deref() == Some("query"))
        .map(|c| c.name.as_str())
        .collect();
    assert!(query_names.contains(&"user"));
    assert!(query_names.contains(&"users"));
    assert!(query_names.contains(&"post"));
    assert!(query_names.contains(&"server-version"));
}

#[test]
fn test_extract_commands_mutation_names() {
    let schema = make_mock_schema();
    let commands = extract_graphql_commands(&schema);
    let mutation_names: Vec<&str> = commands
        .iter()
        .filter(|c| c.graphql_operation_type.as_deref() == Some("mutation"))
        .map(|c| c.name.as_str())
        .collect();
    assert!(mutation_names.contains(&"create-user"));
    assert!(mutation_names.contains(&"delete-user"));
}

#[test]
fn test_extract_commands_params() {
    let schema = make_mock_schema();
    let commands = extract_graphql_commands(&schema);
    let create_user = commands
        .iter()
        .find(|c| c.graphql_field_name.as_deref() == Some("createUser"))
        .expect("createUser command");
    assert_eq!(create_user.params.len(), 2);

    let name_param = &create_user.params[0];
    assert_eq!(name_param.original_name, "name");
    assert_eq!(name_param.rust_type, ParamType::String);
    assert!(name_param.required);

    let email_param = &create_user.params[1];
    assert_eq!(email_param.original_name, "email");
    assert_eq!(email_param.rust_type, ParamType::String);
    assert!(!email_param.required);
}

#[test]
fn test_extract_commands_preserves_field_name() {
    let schema = make_mock_schema();
    let commands = extract_graphql_commands(&schema);
    let sv = commands.iter().find(|c| c.name == "server-version").unwrap();
    assert_eq!(sv.graphql_field_name.as_deref(), Some("serverVersion"));
}

#[test]
fn test_extract_commands_operation_type() {
    let schema = make_mock_schema();
    let commands = extract_graphql_commands(&schema);
    let user = commands.iter().find(|c| c.name == "user").unwrap();
    assert_eq!(user.graphql_operation_type.as_deref(), Some("query"));

    let create = commands
        .iter()
        .find(|c| c.graphql_field_name.as_deref() == Some("createUser"))
        .unwrap();
    assert_eq!(create.graphql_operation_type.as_deref(), Some("mutation"));
}

#[test]
fn test_extract_commands_name_collision() {
    let schema = IntrospectionSchema {
        query_type: Some(TypeName { name: "Query".to_string() }),
        mutation_type: Some(TypeName { name: "Mutation".to_string() }),
        types: vec![
            object_type("Query", None, vec![field("user", None, vec![], STRING, None)]),
            object_type(
                "Mutation",
                None,
                vec![field("user", None, vec![], r#"{"kind": "SCALAR", "name": "Boolean", "ofType": null}"#, None)],
            ),
        ],
    };
    let commands = extract_graphql_commands(&schema);
    let names: Vec<&str> = commands.iter().map(|c| c.name.as_str()).collect();
    assert!(names.contains(&"user"));
    assert!(
        names.contains(&"query-user") || names.contains(&"mutation-user"),
        "Expected a prefixed name for the collision, got: {:?}",
        names
    );
}

#[test]
fn extract_commands_without_root_types_is_empty() {
    let schema = IntrospectionSchema { query_type: None, mutation_type: None, types: vec![scalar_type("String")] };
    assert!(extract_graphql_commands(&schema).is_empty());
}

// ─── Selection sets ──────────────────────────────────────────────────

#[test]
fn test_selection_set_scalar_fields() {
    let schema = make_mock_schema();
    let mut seen: Vec<String> = Vec::new();
    let sel = build_selection_set("User", &schema.types, 0, 3, &mut seen);
    assert!(sel.contains("id"));
    assert!(sel.contains("name"));
    assert!(sel.contains("email"));
}

#[test]
fn test_selection_set_nested_object() {
    let schema = make_mock_schema();
    let mut seen: Vec<String> = Vec::new();
    let sel = build_selection_set("Post", &schema.types, 0, 3, &mut seen);
    assert!(sel.contains("id"));
    assert!(sel.contains("title"));
    assert!(sel.contains("author"));
    assert!(sel.contains("author { id name email"));
}

#[test]
fn test_selection_set_depth_limit() {
    let schema = make_mock_schema();
    let mut seen: Vec<String> = Vec::new();
    let sel = build_selection_set("Post", &schema.types, 0, 1, &mut seen);
    assert!(sel.contains("id"));
    assert!(sel.contains("title"));
    assert!(!sel.contains("author {"));
}

#[test]
fn test_selection_set_circular_reference() {
    let schema = IntrospectionSchema {
        query_type: None,
        mutation_type: None,
        types: vec![object_type("Node", None, vec![
            field("id", None, vec![], r#"{"kind": "SCALAR", "name": "ID", "ofType": null}"#, None),
            field(
                "children",
                None,
                vec![],
                r#"{"kind": "LIST", "ofType": {"kind": "OBJECT", "name": "Node", "ofType": null}}"#,
                None,
            ),
        ])],
    };
    let mut seen: Vec<String> = Vec::new();
    let sel = build_selection_set("Node", &schema.types, 0, 5, &mut seen);
    assert!(sel.contains("id"));
    assert!(
        !sel.contains("children { children"),
        "Circular reference should not produce infinite nesting, got: {sel}"
    );
    assert!(seen.is_empty());
}

#[test]
fn test_selection_set_reuse_in_siblings() {
    let person = r#"{"kind": "OBJECT", "name": "Person", "ofType": null}"#;
    let schema = IntrospectionSchema {
        query_type: None,
        mutation_type: None,
        types: vec![
            object_type("Team", None, vec![
                field("lead", None, vec![], person, None),
                field("manager", None, vec![], person, None),
            ]),
            object_type("Person", None, vec![field("name", None, vec![], STRING, None)]),
        ],
    };
    let mut seen: Vec<String> = Vec::new();
    let sel = build_selection_set("Team", &schema.types, 0, 3, &mut seen);
    assert!(sel.contains("lead { name }"));
    assert!(sel.contains("manager { name }"));
}

#[test]
fn selection_set_exact_text_for_flat_type() {
    let schema = make_mock_schema();
    let mut seen: Vec<String> = Vec::new();
    let sel = build_selection_set("User", &schema.types, 0, 3, &mut seen);
    // role is an enum with no fields of its own, so it is left out
    assert_eq!(sel, "id name email");
    assert!(seen.is_empty());
}

// ─── Documents ───────────────────────────────────────────────────────

#[test]
fn test_document_query_with_variables() {
    let schema = make_mock_schema();
    let cmd = gql_cmd("user", "Get user", vec![gql_param("id", true, "User ID", NN_ID)], "query", "user", USER_OBJ);
    let args = args_of(&[("id", r#""42""#)]);
    let (doc, vars) = build_graphql_document(&cmd, &args, &schema, None);
    assert!(doc.starts_with("query"));
    assert!(doc.contains("$id: ID!"));
    assert!(doc.contains("user(id: $id)"));
    assert!(doc.contains("{ id name email"));
    assert_eq!(vars.get("id"), Some(&j(r#""42""#)));
}

fn create_user_cmd() -> CommandDef {
    gql_cmd(
        "create-user",
        "",
        vec![gql_param("name", true, "", NN_STRING), gql_param("email", false, "", STRING)],
        "mutation",
        "createUser",
        USER_OBJ,
    )
}

#[test]
fn test_document_mutation_with_multiple_variables() {
    let schema = make_mock_schema();
    let cmd = create_user_cmd();
    let args = args_of(&[("name", r#""Alice""#), ("email", r#""alice@example.com""#)]);
    let (doc, vars) = build_graphql_document(&cmd, &args, &schema, None);
    assert!(doc.starts_with("mutation"));
    assert!(doc.contains("$name: String!"));
    assert!(doc.contains("$email: String"));
    assert!(doc.contains("createUser("));
    assert!(doc.contains("name: $name"));
    assert!(doc.contains("email: $email"));
    assert_eq!(vars.get("name"), Some(&j(r#""Alice""#)));
    assert_eq!(vars.get("email"), Some(&j(r#""alice@example.com""#)));
}

#[test]
fn test_document_fields_override() {
    let schema = make_mock_schema();
    let cmd = gql_cmd("user", "", vec![], "query", "user", USER_OBJ);
    let (doc, _) = build_graphql_document(&cmd, &Vec::new(), &schema, Some("id name"));
    assert!(doc.contains("{ id name }"));
    assert!(!doc.contains("email"));
}

#[test]
fn test_document_scalar_return_no_selection() {
    let schema = make_mock_schema();
    let cmd = gql_cmd("server-version", "", vec![], "query", "serverVersion", STRING);
    let (doc, _) = build_graphql_document(&cmd, &Vec::new(), &schema, None);
    assert!(doc.contains("serverVersion"));
    let count = doc.matches('{').count();
    assert_eq!(count, 1, "Expected only 1 opening brace for scalar return, doc: {doc}");
}

#[test]
fn test_document_no_args_no_parens() {
    let schema = make_mock_schema();
    let cmd = gql_cmd("users", "", vec![], "query", "users", USER_OBJ);
    let (doc, vars) = build_graphql_document(&cmd, &Vec::new(), &schema, None);
    assert!(doc.starts_with("query {"));
    assert!(!doc.contains("users("));
    assert_eq!(vars, j("{}"));
}

#[test]
fn document_query_exact_text() {
    let schema = make_mock_schema();
    let cmd = gql_cmd("user", "Get user", vec![gql_param("id", true, "User ID", NN_ID)], "query", "user", USER_OBJ);
    let args = args_of(&[("id", r#""42""#)]);
    let (doc, _) = build_graphql_document(&cmd, &args, &schema, None);
    assert_eq!(doc, "query($id: ID!) {\n  user(id: $id) { id name email }\n}");
}

// Same inputs as the document module's own unit tests.

fn make_schema_with_user_type() -> IntrospectionSchema {
    IntrospectionSchema {
        query_type: Some(TypeName { name: "Query".to_string() }),
        mutation_type: None,
        types: vec![
            object_type("User", None, vec![
                field("id", None, vec![], r#"{"kind": "SCALAR", "name": "ID", "ofType": null}"#, Some(false)),
                field("name", None, vec![], STRING, Some(false)),
                field("email", None, vec![], STRING, Some(false)),
            ]),
            object_type("Query", None, vec![field("user", None, vec![], USER_OBJ, Some(false))]),
        ],
    }
}

#[test]
fn test_build_document_simple_query() {
    let schema = make_schema_with_user_type();
    let cmd = gql_cmd("user", "Get user", vec![gql_param("id", true, "User ID", NN_ID)], "query", "user", USER_OBJ);
    let args = args_of(&[("id", r#""123""#)]);
    let (doc, vars) = build_graphql_document(&cmd, &args, &schema, None);
    assert!(doc.contains("query($id: ID!)"));
    assert!(doc.contains("user(id: $id)"));
    assert!(doc.contains("id"));
    assert!(doc.contains("name"));
    assert!(doc.contains("email"));
    assert_eq!(vars.get("id"), Some(&j(r#""123""#)));
}

#[test]
fn test_build_document_with_fields_override() {
    let schema = make_schema_with_user_type();
    let cmd = gql_cmd("user", "", vec![], "query", "user", USER_OBJ);
    let (doc, _) = build_graphql_document(&cmd, &Vec::new(), &schema, Some("id name"));
    assert!(doc.contains("{ id name }"));
    assert!(!doc.contains("email"));
}

#[test]
fn test_build_document_mutation() {
    let schema = make_schema_with_user_type();
    let cmd = create_user_cmd();
    let args = args_of(&[("name", r#""Alice""#), ("email", r#""alice@example.com""#)]);
    let (doc, vars) = build_graphql_document(&cmd, &args, &schema, None);
    assert!(doc.starts_with("mutation"));
    assert!(doc.contains("createUser"));
    assert!(doc.contains("$name: String!"));
    assert!(doc.contains("$email: String"));
    assert_eq!(vars.get("name"), Some(&j(r#""Alice""#)));
    assert_eq!(vars.get("email"), Some(&j(r#""alice@example.com""#)));
}

#[test]
fn test_build_document_scalar_return_no_selection() {
    let schema = IntrospectionSchema {
        query_type: Some(TypeName { name: "Query".to_string() }),
        mutation_type: None,
        types: vec![],
    };
    let cmd = gql_cmd("version", "", vec![], "query", "version", STRING);
    let (doc, _) = build_graphql_document(&cmd, &Vec::new(), &schema, None);
    assert!(doc.contains("version"));
    assert!(!doc.contains("{ }"));
}

// ─── Responses ───────────────────────────────────────────────────────

#[test]
fn graphql_response_success_picks_field() {
    let out = graphql_response("user", 200, "OK", r#"{"data": {"user": {"id": "1"}}}"#).unwrap();
    assert_eq!(out.result, j(r#"{"id": "1"}"#));
    assert!(out.warnings.is_empty());
}

#[test]
fn graphql_response_errors_without_data_fail() {
    let r = graphql_response("user", 200, "OK", r#"{"errors": [{"message": "boom"}]}"#);
    assert!(r.is_err());
}

#[test]
fn graphql_response_non_2xx_fails() {
    assert!(graphql_response("user", 500, "Internal Server Error", "oops").is_err());
}

#[test]
fn introspection_response_rejects_bad_status() {
    assert!(introspection_response(404, "{}").is_err());
    assert!(introspection_response(200, r#"{"data": {}}"#).is_err());
    assert_eq!(
        introspection_response(200, r#"{"data": {"__schema": {"types": []}}}"#).unwrap(),
        j(r#"{"types": []}"#)
    );
}

#[test]
fn truncate_for_error_keeps_short_text() {
    assert_eq!(truncate_for_error("short"), "short");
    assert_eq!(truncate_for_error("  padded  "), "padded");
    let long = "x".repeat(600);
    let cut = truncate_for_error(&long);
    assert_eq!(cut.chars().count(), 301);
    assert!(cut.ends_with('…'));
}
