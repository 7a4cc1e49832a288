use vstd::prelude::*;
use crate::coerce::{schema_type, schema_type_to_rust};
use crate::error::{AppError, ErrorView};
use crate::filter::{eq_ignore_ascii_case, eq_ignore_ascii_case_str};
use crate::helpers::{kebab, to_kebab};
use crate::json::{JsonValue, JsonView, lemma_member_models, lemma_models, array_or_empty, json_parse, parse_json};
use crate::openapi::{str_or, str_items, array_items, strings_of, str_or_empty};
use crate::request::header_views;
use crate::text::{views, opt_view, str_eq, concat, concat3, i64_text, int_text};
use crate::types::{ParamDef, ParamView, ParamLocation, CommandDef, CommandView, param_views, command_views};

verus! {

// ---------------------------------------------------------------------------
// Protocol types
// ---------------------------------------------------------------------------

/// A JSON-RPC 2.0 request.
#[derive(Debug)]
pub struct JsonRpcRequest {
    pub jsonrpc: String,
    pub id: JsonValue,
    pub method: String,
    pub params: Option<JsonValue>,
}

/// A JSON-RPC 2.0 response.
#[derive(Debug)]
pub struct JsonRpcResponse {
    pub jsonrpc: String,
    pub id: Option<JsonValue>,
    pub result: Option<JsonValue>,
    pub error: Option<JsonRpcError>,
}

#[derive(Debug)]
pub struct JsonRpcError {
    pub code: i64,
    pub message: String,
    pub data: Option<JsonValue>,
}

/// A tool that an MCP server offers.
#[derive(Debug)]
pub struct McpTool {
    pub name: String,
    pub description: Option<String>,
    pub input_schema: Option<JsonValue>,
}

#[derive(Debug)]
pub struct ListToolsResult {
    pub tools: Vec<McpTool>,
}

/// One piece of a tool's answer.
#[derive(Debug)]
pub enum McpContent {
    Text { text: String },
    Image { data: String, mime_type: String },
    Resource { resource: JsonValue },
}

#[derive(Debug)]
pub struct CallToolResult {
    pub content: Vec<McpContent>,
    pub is_error: Option<bool>,
}

#[derive(Debug)]
pub struct McpResource {
    pub uri: String,
    pub name: String,
    pub description: Option<String>,
    pub mime_type: Option<String>,
}

#[derive(Debug)]
pub struct ListResourcesResult {
    pub resources: Vec<McpResource>,
}

#[derive(Debug)]
pub struct ResourceTemplate {
    pub uri_template: String,
    pub name: String,
    pub description: Option<String>,
}

#[derive(Debug)]
pub struct ListResourceTemplatesResult {
    pub resource_templates: Vec<ResourceTemplate>,
}

#[derive(Debug)]
pub struct ReadResourceResult {
    pub contents: Vec<JsonValue>,
}

#[derive(Debug)]
pub struct McpPrompt {
    pub name: String,
    pub description: Option<String>,
    pub arguments: Option<Vec<McpPromptArgument>>,
}

#[derive(Debug)]
pub struct McpPromptArgument {
    pub name: String,
    pub description: Option<String>,
    pub required: Option<bool>,
}

#[derive(Debug)]
pub struct ListPromptsResult {
    pub prompts: Vec<McpPrompt>,
}

#[derive(Debug)]
pub struct PromptMessage {
    pub role: String,
    pub content: JsonValue,
}

#[derive(Debug)]
pub struct GetPromptResult {
    pub messages: Vec<PromptMessage>,
}

/// The text of a fresh random (version 4) UUID.
#[verifier::external_body]
fn new_uuid_text() -> (r: String) {
    uuid::Uuid::new_v4().to_string()
}

impl JsonRpcRequest {
    /// A request for `method`, with a fresh random id.
    pub fn new(method: &str, params: Option<JsonValue>) -> (r: Self)
        ensures
            r.jsonrpc@ == "2.0"@,
            r.id is Str,
            r.method@ == method@,
            r.params == params,
    {
        JsonRpcRequest {
            jsonrpc: "2.0".to_string(),
            id: JsonValue::Str(new_uuid_text()),
            method: method.to_string(),
            params,
        }
    }
}

// ---------------------------------------------------------------------------
// Responses
// ---------------------------------------------------------------------------

/// The error a JSON-RPC error response reports.
pub open spec fn rpc_error_of(resp: JsonRpcResponse) -> Option<ErrorView> {
    match resp.error {
        Some(e) => Some(ErrorView::Protocol("JSON-RPC error "@ + int_text(e.code as int) + ": "@ + e.message@)),
        None => None,
    }
}

/// Fail with the error a JSON-RPC response carries, if any.
pub fn check_rpc_error(rpc_response: &JsonRpcResponse) -> (r: Result<(), AppError>)
    ensures
        match r {
            Ok(_) => rpc_error_of(*rpc_response) is None,
            Err(e) => rpc_error_of(*rpc_response) == Some(e@),
        },
{
    match &rpc_response.error {
        Some(err) => {
            let code = i64_text(err.code);
            let head = concat3("JSON-RPC error ", code.as_str(), ": ");
            Err(AppError::Protocol(concat(head.as_str(), err.message.as_str())))
        },
        None => Ok(()),
    }
}

/// The `result` of a JSON-RPC response, which the caller then reads as the type it
/// expects.
pub fn rpc_result(response: JsonRpcResponse) -> (r: Result<JsonValue, AppError>)
    ensures
        match response.result {
            Some(v) => r == Ok::<JsonValue, AppError>(v),
            None => r is Err && r->Err_0@ == ErrorView::Protocol("Missing result in JSON-RPC response"@),
        },
{
    match response.result {
        Some(v) => Ok(v),
        None => Err(AppError::Protocol("Missing result in JSON-RPC response".to_string())),
    }
}

/// The header map with a fallback `Authorization: Bearer ...` added where no header is
/// named `authorization` (in any case): from `api_key` (`MCP_API_KEY`) where given, else
/// from `bearer_token` (`MCP_BEARER_TOKEN`).
pub open spec fn merged_auth_headers(
    headers: Seq<(Seq<char>, Seq<char>)>,
    api_key: Option<Seq<char>>,
    bearer_token: Option<Seq<char>>,
) -> Seq<(Seq<char>, Seq<char>)> {
    let has_auth = exists|i: int| 0 <= i < headers.len() && eq_ignore_ascii_case(#[trigger] headers[i].0, "authorization"@);
    if has_auth {
        headers
    } else {
        match api_key {
            Some(k) => headers.push(("Authorization"@, "Bearer "@ + k)),
            None => match bearer_token {
                Some(t) => headers.push(("Authorization"@, "Bearer "@ + t)),
                None => headers,
            },
        }
    }
}

/// The tool a command calls: its tool name, else its own name.
pub fn tool_name_of(cmd: &CommandDef) -> (r: String)
    ensures
        r@ == str_or(cmd@.tool_name, cmd@.name),
{
    match &cmd.tool_name {
        Some(t) => t.clone(),
        None => cmd.name.clone(),
    }
}

/// The headers without those named exactly `name`, in order.
pub open spec fn without_header(hs: Seq<(Seq<char>, Seq<char>)>, name: Seq<char>) -> Seq<(Seq<char>, Seq<char>)>
    decreases hs.len(),
{
    if hs.len() == 0 {
        hs
    } else if hs.last().0 == name {
        without_header(hs.drop_last(), name)
    } else {
        without_header(hs.drop_last(), name).push(hs.last())
    }
}

/// The headers with the OAuth `Authorization` header in place of any header named
/// exactly `Authorization`, put last.
pub open spec fn authorized_headers(hs: Seq<(Seq<char>, Seq<char>)>, value: Seq<char>) -> Seq<(Seq<char>, Seq<char>)> {
    without_header(hs, "Authorization"@).push(("Authorization"@, value))
}

/// Put the `Authorization` header an OAuth provider gives in place of any given one.
pub fn with_authorization(headers: Vec<(String, String)>, value: String) -> (r: Vec<(String, String)>)
    ensures
        header_views(r@) == authorized_headers(header_views(headers@), value@),
{
    let ghost hv = header_views(headers@);
    let mut out: Vec<(String, String)> = Vec::new();
    let mut i: usize = 0;
    while i < headers.len()
        invariant
            i <= headers@.len(),
            hv == header_views(headers@),
            header_views(out@) == without_header(hv.take(i as int), "Authorization"@),
        decreases headers@.len() - i,
    {
        assert(hv.take(i + 1).drop_last() =~= hv.take(i as int));
        assert(hv.take(i + 1).last() == hv[i as int]);
        let (k, v) = (&headers[i].0, &headers[i].1);
        if !str_eq(k.as_str(), "Authorization") {
            out.push((k.clone(), v.clone()));
            assert(header_views(out@) =~= without_header(hv.take(i as int), "Authorization"@).push(hv[i as int]));
        }
        i = i + 1;
    }
    assert(hv.take(headers@.len() as int) =~= hv);
    out.push(("Authorization".to_string(), value));
    proof {
        reveal_strlit("Authorization");
    }
    assert(header_views(out@) =~= authorized_headers(hv, value@));
    out
}

/// Merge explicit headers with env-var fallback auth.
/// Priority: explicit auth header > MCP_API_KEY > MCP_BEARER_TOKEN
pub fn merge_auth_headers(
    headers: Vec<(String, String)>,
    api_key: Option<String>,
    bearer_token: Option<String>,
) -> (r: Vec<(String, String)>)
    ensures
        header_views(r@) == merged_auth_headers(header_views(headers@), opt_view(api_key), opt_view(bearer_token)),
{
    let mut headers = headers;
    let ghost hv = header_views(headers@);
    let mut has_auth = false;
    let mut i: usize = 0;
    while i < headers.len()
        invariant
            i <= headers@.len(),
            hv == header_views(headers@),
            has_auth == exists|j: int| 0 <= j < i && eq_ignore_ascii_case(#[trigger] hv[j].0, "authorization"@),
        decreases headers@.len() - i,
    {
        let ghost found = has_auth;
        let this = eq_ignore_ascii_case_str(headers[i].0.as_str(), "authorization");
        assert(hv[i as int].0 == headers@[i as int].0@);
        if this {
            has_auth = true;
        }
        proof {
            if found {
                let j = choose|j: int| 0 <= j < i && eq_ignore_ascii_case(#[trigger] hv[j].0, "authorization"@);
                assert(0 <= j < i + 1);
            }
        }
        i = i + 1;
    }
    if !has_auth {
        let value = match api_key {
            Some(k) => Some(concat("Bearer ", k.as_str())),
            None => match bearer_token {
                Some(t) => Some(concat("Bearer ", t.as_str())),
                None => None,
            },
        };
        match value {
            Some(v) => {
                headers.push(("Authorization".to_string(), v));
                assert(header_views(headers@) =~= hv.push(("Authorization"@, header_views(headers@).last().1)));
            },
            None => {},
        }
    }
    headers
}

// ---------------------------------------------------------------------------
// Commands
// ---------------------------------------------------------------------------

/// The parameter for one property of a tool's input schema.
pub open spec fn tool_param(name: Seq<char>, schema: JsonView, required: Seq<Seq<char>>) -> ParamView {
    ParamView {
        name: kebab(name),
        original_name: name,
        rust_type: schema_type(schema),
        required: required.contains(name),
        description: str_or(schema.get_str("description"@), Seq::empty()),
        choices: match schema.get("enum"@) {
            Some(JsonView::Array(items)) => Some(str_items(items)),
            _ => None,
        },
        location: ParamLocation::ToolInput,
        schema,
    }
}

/// The parameters of a tool: one per property of its input schema.
pub open spec fn tool_params(tool: McpTool) -> Seq<ParamView> {
    match tool.input_schema {
        None => Seq::empty(),
        Some(schema) => match schema@.get("properties"@) {
            Some(JsonView::Object(props)) => {
                let required = str_items(array_items(schema@.get("required"@)));
                props.map_values(|m: (Seq<char>, JsonView)| tool_param(m.0, m.1, required))
            },
            _ => Seq::empty(),
        },
    }
}

/// The command for a tool.
pub open spec fn tool_command(tool: McpTool) -> CommandView {
    CommandView {
        name: kebab(tool.name@),
        description: str_or(opt_view(tool.description), Seq::empty()),
        params: tool_params(tool),
        has_body: false,
        method: None,
        path: None,
        content_type: None,
        tool_name: Some(tool.name@),
        graphql_operation_type: None,
        graphql_field_name: None,
        graphql_return_type: None,
    }
}

/// The parameters of a tool, from the properties of its input schema.
pub fn extract_params(tool: &McpTool) -> (r: Vec<ParamDef>)
    ensures
        param_views(r@) == tool_params(*tool),
{
    let schema = match &tool.input_schema {
        Some(s) => s,
        None => {
            let r: Vec<ParamDef> = Vec::new();
            assert(param_views(r@) =~= Seq::<ParamView>::empty());
            return r;
        },
    };
    let properties = match schema.get("properties") {
        Some(JsonValue::Object(p)) => p,
        _ => {
            let r: Vec<ParamDef> = Vec::new();
            assert(param_views(r@) =~= Seq::<ParamView>::empty());
            return r;
        },
    };
    let required_items = array_or_empty(schema.get("required"));
    let required = strings_of(&required_items);
    let ghost req = str_items(array_items(schema@.get("required"@)));
    let ghost pm = JsonValue::member_models(properties@);
    proof {
        lemma_member_models(properties@);
    }
    let mut out: Vec<ParamDef> = Vec::new();
    let mut i: usize = 0;
    while i < properties.len()
        invariant
            i <= properties@.len(),
            pm == JsonValue::member_models(properties@),
            pm.len() == properties@.len(),
            forall|j: int| 0 <= j < properties@.len() ==> #[trigger] pm[j] == (properties@[j].0@, properties@[j].1@),
            views(required@) == req,
            out@.len() == i,
            forall|j: int| 0 <= j < i ==> #[trigger] out@[j]@ == tool_param(pm[j].0, pm[j].1, req),
        decreases properties@.len() - i,
    {
        let name = &properties[i].0;
        let prop_schema = &properties[i].1;
        let choices = match prop_schema.get("enum") {
            Some(JsonValue::Array(items)) => Some(strings_of(items)),
            _ => None,
        };
        out.push(ParamDef {
            name: to_kebab(name.as_str()),
            original_name: name.clone(),
            rust_type: schema_type_to_rust(prop_schema),
            required: crate::names::contains_string(&required, name.as_str()),
            description: str_or_empty(prop_schema.get_str("description")),
            choices,
            location: ParamLocation::ToolInput,
            schema: prop_schema.clone(),
        });
        i = i + 1;
    }
    assert(param_views(out@) =~= pm.map_values(|m: (Seq<char>, JsonView)| tool_param(m.0, m.1, req)));
    out
}

/// Extract CommandDefs from MCP tools.
pub fn extract_mcp_commands(tools: &Vec<McpTool>) -> (r: Vec<CommandDef>)
    ensures
        command_views(r@) == tools@.map_values(|t: McpTool| tool_command(t)),
{
    let mut out: Vec<CommandDef> = Vec::new();
    let mut i: usize = 0;
    while i < tools.len()
        invariant
            i <= tools@.len(),
            out@.len() == i,
            forall|j: int| 0 <= j < i ==> #[trigger] out@[j]@ == tool_command(tools@[j]),
        decreases tools@.len() - i,
    {
        let tool = &tools[i];
        let params = extract_params(tool);
        out.push(CommandDef {
            name: to_kebab(tool.name.as_str()),
            description: match &tool.description {
                Some(d) => d.clone(),
                None => String::new(),
            },
            params,
            has_body: false,
            method: None,
            path: None,
            content_type: None,
            tool_name: Some(tool.name.clone()),
            graphql_operation_type: None,
            graphql_field_name: None,
            graphql_return_type: None,
        });
        i = i + 1;
    }
    assert(command_views(out@) =~= tools@.map_values(|t: McpTool| tool_command(t)));
    out
}

// ---------------------------------------------------------------------------
// Transports and requests
// ---------------------------------------------------------------------------

/// How the client talks to an MCP server.
#[derive(Debug, Clone, Copy, PartialEq, Eq, Structural)]
pub enum Transport {
    Stdio,
    Streamable,
    Sse,
    /// Streamable HTTP, falling back to SSE when it does not initialize.
    Auto,
}

/// The transport a `--transport` value names.
pub open spec fn transport_spec(t: Seq<char>) -> Result<Transport, ErrorView> {
    if t == "stdio"@ {
        Ok(Transport::Stdio)
    } else if t == "streamable"@ {
        Ok(Transport::Streamable)
    } else if t == "sse"@ {
        Ok(Transport::Sse)
    } else if t == "auto"@ {
        Ok(Transport::Auto)
    } else {
        Err(ErrorView::Cli("unknown transport: "@ + t + ". Use auto, sse, streamable, or stdio"@))
    }
}

pub fn transport_kind(transport: &str) -> (r: Result<Transport, AppError>)
    ensures
        crate::error::result_view_copy(r) == transport_spec(transport@),
{
    if str_eq(transport, "stdio") {
        Ok(Transport::Stdio)
    } else if str_eq(transport, "streamable") {
        Ok(Transport::Streamable)
    } else if str_eq(transport, "sse") {
        Ok(Transport::Sse)
    } else if str_eq(transport, "auto") {
        Ok(Transport::Auto)
    } else {
        Err(AppError::Cli(concat3("unknown transport: ", transport, ". Use auto, sse, streamable, or stdio")))
    }
}

/// What an MCP invocation asks the server for.
#[derive(Debug)]
pub enum McpRequest {
    ListResources,
    ListResourceTemplates,
    ReadResource(String),
    ListPrompts,
    GetPrompt(String),
    /// The tools: list, search or call one.
    Tools,
}

/// The request the resource and prompt flags ask for, in the order they are looked at;
/// the tools where none is given.
pub fn mcp_request_kind(
    list_resources: bool,
    list_resource_templates: bool,
    read_resource: &Option<String>,
    list_prompts: bool,
    get_prompt: &Option<String>,
) -> (r: McpRequest)
    ensures
        list_resources ==> r is ListResources,
        !list_resources && list_resource_templates ==> r is ListResourceTemplates,
        !list_resources && !list_resource_templates && read_resource is Some ==> r is ReadResource
            && r->ReadResource_0@ == read_resource->Some_0@,
        !list_resources && !list_resource_templates && read_resource is None && list_prompts ==> r is ListPrompts,
        !list_resources && !list_resource_templates && read_resource is None && !list_prompts && get_prompt is Some
            ==> r is GetPrompt && r->GetPrompt_0@ == get_prompt->Some_0@,
        !list_resources && !list_resource_templates && read_resource is None && !list_prompts && get_prompt is None
            ==> r is Tools,
{
    if list_resources {
        McpRequest::ListResources
    } else if list_resource_templates {
        McpRequest::ListResourceTemplates
    } else if let Some(uri) = read_resource {
        McpRequest::ReadResource(uri.clone())
    } else if list_prompts {
        McpRequest::ListPrompts
    } else if let Some(name) = get_prompt {
        McpRequest::GetPrompt(name.clone())
    } else {
        McpRequest::Tools
    }
}

// ---------------------------------------------------------------------------
// Output
// ---------------------------------------------------------------------------

/// A tool's content as output: text that reads as JSON becomes that JSON, other text
/// a string; an image an object with its data and type; a resource as it is.
pub open spec fn content_json(c: McpContent) -> JsonView {
    match c {
        McpContent::Text { text } => match json_parse(text@) {
            Ok(v) => v,
            Err(_) => JsonView::Str(text@),
        },
        McpContent::Image { data, mime_type } => JsonView::Object(
            seq![("data"@, JsonView::Str(data@)), ("mimeType"@, JsonView::Str(mime_type@)), ("type"@, JsonView::Str("image"@))],
        ),
        McpContent::Resource { resource } => resource@,
    }
}

/// The output for a tool call: its single content, or the list of them.
pub open spec fn call_result_json(r: CallToolResult) -> JsonView {
    if r.content@.len() == 1 {
        content_json(r.content@[0])
    } else {
        JsonView::Array(r.content@.map_values(|c: McpContent| content_json(c)))
    }
}

/// Law: a tool result with other than exactly one content is output as a list with
/// one item per content (an empty list for none).
pub proof fn lemma_call_result_list(r: CallToolResult)
    ensures
        r.content@.len() != 1 ==> (call_result_json(r) is Array && call_result_json(r)->Array_0.len() == r.content@.len()),
{
}

/// Law: in the list for a result with other than exactly one content, item `i` is the
/// output of a result whose only content is content `i`.
pub proof fn lemma_call_result_item(r: CallToolResult, single: CallToolResult, i: int)
    requires
        r.content@.len() != 1,
        0 <= i < r.content@.len(),
        single.content@ == seq![r.content@[i]],
    ensures
        call_result_json(r)->Array_0[i] == call_result_json(single),
{
}

fn str_json(s: &str) -> (r: JsonValue)
    ensures
        r@ == JsonView::Str(s@),
{
    JsonValue::Str(s.to_string())
}

fn member(key: &str, value: JsonValue) -> (r: (String, JsonValue))
    ensures
        r.0@ == key@,
        r.1@ == value@,
{
    (key.to_string(), value)
}

pub fn content_to_value(content: &McpContent) -> (r: JsonValue)
    ensures
        r@ == content_json(*content),
{
    match content {
        McpContent::Text { text } => {
            // Try to parse as JSON for structured output
            match parse_json(text.as_str()) {
                Ok(v) => v,
                Err(_) => JsonValue::Str(text.clone()),
            }
        },
        McpContent::Image { data, mime_type } => {
            let mut members: Vec<(String, JsonValue)> = Vec::new();
            members.push(member("data", str_json(data.as_str())));
            members.push(member("mimeType", str_json(mime_type.as_str())));
            members.push(member("type", str_json("image")));
            proof {
                lemma_member_models(members@);
            }
            assert(JsonValue::member_models(members@) =~= seq![("data"@, JsonView::Str(data@)), ("mimeType"@, JsonView::Str(mime_type@)), ("type"@, JsonView::Str("image"@))]);
            JsonValue::Object(members)
        },
        McpContent::Resource { resource } => resource.clone(),
    }
}

/// Convert a CallToolResult into a JSON value for output.
pub fn call_result_to_value(result: &CallToolResult) -> (r: JsonValue)
    ensures
        r@ == call_result_json(*result),
{
    if result.content.len() == 1 {
        content_to_value(&result.content[0])
    } else {
        let mut items: Vec<JsonValue> = Vec::new();
        let mut i: usize = 0;
        while i < result.content.len()
            invariant
                i <= result.content@.len(),
                items@.len() == i,
                forall|j: int| 0 <= j < i ==> #[trigger] items@[j]@ == content_json(result.content@[j]),
            decreases result.content@.len() - i,
        {
            items.push(content_to_value(&result.content[i]));
            i = i + 1;
        }
        proof {
            crate::json::lemma_models_eq(items@, result.content@.map_values(|c: McpContent| content_json(c)));
        }
        JsonValue::Array(items)
    }
}

pub open spec fn opt_str_json(o: Option<String>) -> JsonView {
    match o {
        Some(s) => JsonView::Str(s@),
        None => JsonView::Null,
    }
}

fn opt_str_value(o: &Option<String>) -> (r: JsonValue)
    ensures
        r@ == opt_str_json(*o),
{
    match o {
        Some(s) => JsonValue::Str(s.clone()),
        None => JsonValue::Null,
    }
}

/// A resource as output, its members in key order.
pub open spec fn resource_json(r: McpResource) -> JsonView {
    JsonView::Object(
        seq![
            ("description"@, opt_str_json(r.description)),
            ("mimeType"@, opt_str_json(r.mime_type)),
            ("name"@, JsonView::Str(r.name@)),
            ("uri"@, JsonView::Str(r.uri@)),
        ],
    )
}

/// A resource template as output, its members in key order.
pub open spec fn template_json(t: ResourceTemplate) -> JsonView {
    JsonView::Object(
        seq![
            ("description"@, opt_str_json(t.description)),
            ("name"@, JsonView::Str(t.name@)),
            ("uriTemplate"@, JsonView::Str(t.uri_template@)),
        ],
    )
}

pub fn resource_to_value(r: &McpResource) -> (v: JsonValue)
    ensures
        v@ == resource_json(*r),
{
    let mut members: Vec<(String, JsonValue)> = Vec::new();
    members.push(member("description", opt_str_value(&r.description)));
    members.push(member("mimeType", opt_str_value(&r.mime_type)));
    members.push(member("name", str_json(r.name.as_str())));
    members.push(member("uri", str_json(r.uri.as_str())));
    proof {
        lemma_member_models(members@);
    }
    assert(JsonValue::member_models(members@) =~= resource_json(*r)->Object_0);
    JsonValue::Object(members)
}

pub fn template_to_value(t: &ResourceTemplate) -> (v: JsonValue)
    ensures
        v@ == template_json(*t),
{
    let mut members: Vec<(String, JsonValue)> = Vec::new();
    members.push(member("description", opt_str_value(&t.description)));
    members.push(member("name", str_json(t.name.as_str())));
    members.push(member("uriTemplate", str_json(t.uri_template.as_str())));
    proof {
        lemma_member_models(members@);
    }
    assert(JsonValue::member_models(members@) =~= template_json(*t)->Object_0);
    JsonValue::Object(members)
}

/// The resources of a listing as output.
pub fn resources_to_value(result: &ListResourcesResult) -> (v: JsonValue)
    ensures
        v@ == JsonView::Array(result.resources@.map_values(|r: McpResource| resource_json(r))),
{
    let mut items: Vec<JsonValue> = Vec::new();
    let mut i: usize = 0;
    while i < result.resources.len()
        invariant
            i <= result.resources@.len(),
            items@.len() == i,
            forall|j: int| 0 <= j < i ==> #[trigger] items@[j]@ == resource_json(result.resources@[j]),
        decreases result.resources@.len() - i,
    {
        items.push(resource_to_value(&result.resources[i]));
        i = i + 1;
    }
    proof {
        crate::json::lemma_models_eq(items@, result.resources@.map_values(|r: McpResource| resource_json(r)));
    }
    JsonValue::Array(items)
}

/// The resource templates of a listing as output.
pub fn templates_to_value(result: &ListResourceTemplatesResult) -> (v: JsonValue)
    ensures
        v@ == JsonView::Array(result.resource_templates@.map_values(|t: ResourceTemplate| template_json(t))),
{
    let mut items: Vec<JsonValue> = Vec::new();
    let mut i: usize = 0;
    while i < result.resource_templates.len()
        invariant
            i <= result.resource_templates@.len(),
            items@.len() == i,
            forall|j: int| 0 <= j < i ==> #[trigger] items@[j]@ == template_json(result.resource_templates@[j]),
        decreases result.resource_templates@.len() - i,
    {
        items.push(template_to_value(&result.resource_templates[i]));
        i = i + 1;
    }
    proof {
        crate::json::lemma_models_eq(items@, result.resource_templates@.map_values(|t: ResourceTemplate| template_json(t)));
    }
    JsonValue::Array(items)
}

/// A prompt argument as output, its members in key order.
pub open spec fn prompt_arg_json(a: McpPromptArgument) -> JsonView {
    JsonView::Object(
        seq![
            ("description"@, opt_str_json(a.description)),
            ("name"@, JsonView::Str(a.name@)),
            ("required"@, match a.required {
                Some(b) => JsonView::Bool(b),
                None => JsonView::Null,
            }),
        ],
    )
}

/// A prompt as output, its members in key order.
pub open spec fn prompt_json(p: McpPrompt) -> JsonView {
    JsonView::Object(
        seq![
            ("arguments"@, match p.arguments {
                Some(args) => JsonView::Array(args@.map_values(|a: McpPromptArgument| prompt_arg_json(a))),
                None => JsonView::Null,
            }),
            ("description"@, opt_str_json(p.description)),
            ("name"@, JsonView::Str(p.name@)),
        ],
    )
}

fn prompt_arg_to_value(a: &McpPromptArgument) -> (v: JsonValue)
    ensures
        v@ == prompt_arg_json(*a),
{
    let mut members: Vec<(String, JsonValue)> = Vec::new();
    members.push(member("description", opt_str_value(&a.description)));
    members.push(member("name", str_json(a.name.as_str())));
    let req = match a.required {
        Some(b) => JsonValue::Bool(b),
        None => JsonValue::Null,
    };
    members.push(member("required", req));
    proof {
        lemma_member_models(members@);
    }
    assert(JsonValue::member_models(members@) =~= prompt_arg_json(*a)->Object_0);
    JsonValue::Object(members)
}

pub fn prompt_to_value(p: &McpPrompt) -> (v: JsonValue)
    ensures
        v@ == prompt_json(*p),
{
    let args = match &p.arguments {
        Some(list) => {
            let mut items: Vec<JsonValue> = Vec::new();
            let mut i: usize = 0;
            while i < list.len()
                invariant
                    i <= list@.len(),
                    items@.len() == i,
                    forall|j: int| 0 <= j < i ==> #[trigger] items@[j]@ == prompt_arg_json(list@[j]),
                decreases list@.len() - i,
            {
                items.push(prompt_arg_to_value(&list[i]));
                i = i + 1;
            }
            proof {
                crate::json::lemma_models_eq(items@, list@.map_values(|a: McpPromptArgument| prompt_arg_json(a)));
            }
            JsonValue::Array(items)
        },
        None => JsonValue::Null,
    };
    let mut members: Vec<(String, JsonValue)> = Vec::new();
    members.push(member("arguments", args));
    members.push(member("description", opt_str_value(&p.description)));
    members.push(member("name", str_json(p.name.as_str())));
    proof {
        lemma_member_models(members@);
    }
    assert(JsonValue::member_models(members@) =~= prompt_json(*p)->Object_0);
    JsonValue::Object(members)
}

/// The prompts of a listing as output.
pub fn prompts_to_value(result: &ListPromptsResult) -> (v: JsonValue)
    ensures
        v@ == JsonView::Array(result.prompts@.map_values(|p: McpPrompt| prompt_json(p))),
{
    let mut items: Vec<JsonValue> = Vec::new();
    let mut i: usize = 0;
    while i < result.prompts.len()
        invariant
            i <= result.prompts@.len(),
            items@.len() == i,
            forall|j: int| 0 <= j < i ==> #[trigger] items@[j]@ == prompt_json(result.prompts@[j]),
        decreases result.prompts@.len() - i,
    {
        items.push(prompt_to_value(&result.prompts[i]));
        i = i + 1;
    }
    proof {
        crate::json::lemma_models_eq(items@, result.prompts@.map_values(|p: McpPrompt| prompt_json(p)));
    }
    JsonValue::Array(items)
}

/// A prompt message as output, its members in key order.
pub open spec fn message_json(m: PromptMessage) -> JsonView {
    JsonView::Object(seq![("content"@, m.content@), ("role"@, JsonView::Str(m.role@))])
}

/// The messages of a prompt as output.
pub fn messages_to_value(result: &GetPromptResult) -> (v: JsonValue)
    ensures
        v@ == JsonView::Array(result.messages@.map_values(|m: PromptMessage| message_json(m))),
{
    let mut items: Vec<JsonValue> = Vec::new();
    let mut i: usize = 0;
    while i < result.messages.len()
        invariant
            i <= result.messages@.len(),
            items@.len() == i,
            forall|j: int| 0 <= j < i ==> #[trigger] items@[j]@ == message_json(result.messages@[j]),
        decreases result.messages@.len() - i,
    {
        let m = &result.messages[i];
        let mut members: Vec<(String, JsonValue)> = Vec::new();
        members.push(member("content", m.content.clone()));
        members.push(member("role", str_json(m.role.as_str())));
        proof {
            lemma_member_models(members@);
        }
        assert(JsonValue::member_models(members@) =~= message_json(*m)->Object_0);
        items.push(JsonValue::Object(members));
        i = i + 1;
    }
    proof {
        crate::json::lemma_models_eq(items@, result.messages@.map_values(|m: PromptMessage| message_json(m)));
    }
    JsonValue::Array(items)
}

/// The contents of a read resource as output.
pub fn contents_to_value(result: &ReadResourceResult) -> (v: JsonValue)
    ensures
        v@ == JsonView::Array(JsonValue::models(result.contents@)),
{
    JsonValue::Array(crate::json::copy_values(&result.contents))
}

} // verus!
