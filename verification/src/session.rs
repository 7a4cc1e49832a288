use vstd::prelude::*;
use crate::error::{AppError, ErrorView};
use crate::json::{JsonValue, JsonView, json_parse, parse_json, lemma_member_models};
use crate::oauth::{path_join, join_path, cache_root, cache_dir};
use crate::openapi::str_or;
use crate::text::{opt_view, concat, trim, trim_str, str_eq};

verus! {

/// Metadata about a running session, written as JSON next to the socket.
#[derive(Debug)]
pub struct SessionMetadata {
    pub name: String,
    pub pid: u32,
    pub source: String,
    pub transport: String,
    pub created_at: u64,
}

/// Information about a session for display.
#[derive(Debug)]
pub struct SessionListEntry {
    pub name: String,
    pub pid: u32,
    pub source: String,
    pub transport: String,
    pub alive: bool,
}

impl SessionListEntry {
    /// The entry for a session's metadata and whether its process is alive.
    pub fn from_metadata(metadata: SessionMetadata, alive: bool) -> (r: Self)
        ensures
            r.name == metadata.name,
            r.pid == metadata.pid,
            r.source == metadata.source,
            r.transport == metadata.transport,
            r.alive == alive,
    {
        SessionListEntry {
            name: metadata.name,
            pid: metadata.pid,
            source: metadata.source,
            transport: metadata.transport,
            alive,
        }
    }
}

// ---------------------------------------------------------------------------
// Locations
// ---------------------------------------------------------------------------

/// The directory of session sockets and metadata: `sessions` in the cache directory.
pub open spec fn sessions_dir_spec(env_cache_dir: Option<Seq<char>>, user_cache_dir: Option<Seq<char>>) -> Seq<char> {
    path_join(cache_root(env_cache_dir, user_cache_dir), "sessions"@)
}

/// Return the directory where session sockets and metadata are stored.
pub fn sessions_dir(env_cache_dir: Option<String>, user_cache: Option<String>) -> (r: String)
    ensures
        r@ == sessions_dir_spec(opt_view(env_cache_dir), opt_view(user_cache)),
{
    let base = cache_dir(env_cache_dir, user_cache);
    join_path(base.as_str(), "sessions")
}

/// Return the Unix socket path for a named session in `dir`.
pub fn session_socket_path(dir: &str, name: &str) -> (r: String)
    ensures
        r@ == path_join(dir@, name@ + ".sock"@),
{
    let file = concat(name, ".sock");
    join_path(dir, file.as_str())
}

/// Return the metadata file path for a named session in `dir`.
pub fn session_metadata_path(dir: &str, name: &str) -> (r: String)
    ensures
        r@ == path_join(dir@, name@ + ".json"@),
{
    let file = concat(name, ".json");
    join_path(dir, file.as_str())
}

/// MCP client that communicates with a session daemon over a Unix socket.
#[derive(Debug)]
pub struct SessionMcpClient {
    pub socket_path: String,
}

impl SessionMcpClient {
    pub fn new(socket_path: String) -> (r: Self)
        ensures
            r.socket_path == socket_path,
    {
        SessionMcpClient { socket_path }
    }
}

// ---------------------------------------------------------------------------
// The session client's side of the protocol
// ---------------------------------------------------------------------------

/// What the session client makes of the daemon's reply line (`None` when the daemon
/// closed the connection without one).
pub open spec fn session_reply(line: Option<Seq<char>>) -> Result<JsonView, ErrorView> {
    match line {
        None => Err(ErrorView::Protocol("Session daemon closed connection without response"@)),
        Some(l) => match json_parse(l) {
            Err(e) => Err(ErrorView::Json(e)),
            Ok(resp) => match resp.get("error"@) {
                Some(err) => Err(ErrorView::Protocol(
                    "Session daemon error: "@ + str_or(err.get_str("message"@), "Unknown error"@),
                )),
                None => match resp.get("result"@) {
                    Some(r) => Ok(r),
                    None => Err(ErrorView::Protocol("Session daemon returned response with no result or error"@)),
                },
            },
        },
    }
}

/// Read the daemon's reply to a request.
pub fn session_result(line: Option<&str>) -> (r: Result<JsonValue, AppError>)
    ensures
        crate::error::result_view(r) == session_reply(match line {
            Some(l) => Some(l@),
            None => None,
        }),
{
    let l = match line {
        Some(l) => l,
        None => return Err(AppError::Protocol("Session daemon closed connection without response".to_string())),
    };
    let response = match parse_json(l) {
        Ok(v) => v,
        Err(e) => return Err(AppError::Json(e)),
    };
    match response.get("error") {
        Some(error) => {
            let message = match error.get_str("message") {
                Some(m) => m,
                None => "Unknown error",
            };
            return Err(AppError::Protocol(concat("Session daemon error: ", message)));
        },
        None => {},
    }
    match response.get("result") {
        Some(result) => Ok(result.clone()),
        None => Err(AppError::Protocol("Session daemon returned response with no result or error".to_string())),
    }
}

// ---------------------------------------------------------------------------
// The daemon's side of the protocol
// ---------------------------------------------------------------------------

/// A call the daemon makes on its MCP client.
#[derive(Debug)]
pub enum DaemonCall {
    ListTools,
    CallTool { name: String, arguments: JsonValue },
    ListResources,
    ReadResource { uri: String },
    ListPrompts,
    GetPrompt { name: String, arguments: JsonValue },
}

pub enum DaemonCallView {
    ListTools,
    CallTool { name: Seq<char>, arguments: JsonView },
    ListResources,
    ReadResource { uri: Seq<char> },
    ListPrompts,
    GetPrompt { name: Seq<char>, arguments: JsonView },
}

impl View for DaemonCall {
    type V = DaemonCallView;

    open spec fn view(&self) -> DaemonCallView {
        match self {
            DaemonCall::ListTools => DaemonCallView::ListTools,
            DaemonCall::CallTool { name, arguments } => DaemonCallView::CallTool { name: name@, arguments: arguments@ },
            DaemonCall::ListResources => DaemonCallView::ListResources,
            DaemonCall::ReadResource { uri } => DaemonCallView::ReadResource { uri: uri@ },
            DaemonCall::ListPrompts => DaemonCallView::ListPrompts,
            DaemonCall::GetPrompt { name, arguments } => DaemonCallView::GetPrompt { name: name@, arguments: arguments@ },
        }
    }
}

pub open spec fn args_or_empty(params: JsonView) -> JsonView {
    match params.get("arguments"@) {
        Some(a) => a,
        None => JsonView::Object(Seq::empty()),
    }
}

/// The call a JSON-RPC method and its parameters ask the daemon for.
pub open spec fn daemon_call_spec(method: Seq<char>, params: Option<JsonView>) -> Result<DaemonCallView, ErrorView> {
    if method == "tools/list"@ {
        Ok(DaemonCallView::ListTools)
    } else if method == "tools/call"@ {
        match params {
            None => Err(ErrorView::Protocol("tools/call requires params"@)),
            Some(p) => match p.get_str("name"@) {
                None => Err(ErrorView::Protocol("tools/call requires params.name"@)),
                Some(n) => Ok(DaemonCallView::CallTool { name: n, arguments: args_or_empty(p) }),
            },
        }
    } else if method == "resources/list"@ {
        Ok(DaemonCallView::ListResources)
    } else if method == "resources/read"@ {
        match params {
            None => Err(ErrorView::Protocol("resources/read requires params"@)),
            Some(p) => match p.get_str("uri"@) {
                None => Err(ErrorView::Protocol("resources/read requires params.uri"@)),
                Some(u) => Ok(DaemonCallView::ReadResource { uri: u }),
            },
        }
    } else if method == "prompts/list"@ {
        Ok(DaemonCallView::ListPrompts)
    } else if method == "prompts/get"@ {
        match params {
            None => Err(ErrorView::Protocol("prompts/get requires params"@)),
            Some(p) => match p.get_str("name"@) {
                None => Err(ErrorView::Protocol("prompts/get requires params.name"@)),
                Some(n) => Ok(DaemonCallView::GetPrompt { name: n, arguments: args_or_empty(p) }),
            },
        }
    } else {
        Err(ErrorView::Protocol("Unknown method: "@ + method))
    }
}

fn arguments_of(params: &JsonValue) -> (r: JsonValue)
    ensures
        r@ == args_or_empty(params@),
{
    match params.get("arguments") {
        Some(a) => a.clone(),
        None => {
            let e: Vec<(String, JsonValue)> = Vec::new();
            assert(JsonValue::member_models(e@) =~= Seq::<(Seq<char>, JsonView)>::empty());
            JsonValue::Object(e)
        },
    }
}

/// Dispatch a JSON-RPC method to the call the daemon makes on its MCP client.
pub fn dispatch_method(method: &str, params: Option<&JsonValue>) -> (r: Result<DaemonCall, AppError>)
    ensures
        crate::error::result_view(r) == daemon_call_spec(method@, crate::json::opt_model(params)),
{
    if str_eq(method, "tools/list") {
        Ok(DaemonCall::ListTools)
    } else if str_eq(method, "tools/call") {
        let p = match params {
            Some(p) => p,
            None => return Err(AppError::Protocol("tools/call requires params".to_string())),
        };
        let name = match p.get_str("name") {
            Some(n) => n.to_string(),
            None => return Err(AppError::Protocol("tools/call requires params.name".to_string())),
        };
        Ok(DaemonCall::CallTool { name, arguments: arguments_of(p) })
    } else if str_eq(method, "resources/list") {
        Ok(DaemonCall::ListResources)
    } else if str_eq(method, "resources/read") {
        let p = match params {
            Some(p) => p,
            None => return Err(AppError::Protocol("resources/read requires params".to_string())),
        };
        match p.get_str("uri") {
            Some(u) => Ok(DaemonCall::ReadResource { uri: u.to_string() }),
            None => Err(AppError::Protocol("resources/read requires params.uri".to_string())),
        }
    } else if str_eq(method, "prompts/list") {
        Ok(DaemonCall::ListPrompts)
    } else if str_eq(method, "prompts/get") {
        let p = match params {
            Some(p) => p,
            None => return Err(AppError::Protocol("prompts/get requires params".to_string())),
        };
        let name = match p.get_str("name") {
            Some(n) => n.to_string(),
            None => return Err(AppError::Protocol("prompts/get requires params.name".to_string())),
        };
        Ok(DaemonCall::GetPrompt { name, arguments: arguments_of(p) })
    } else {
        Err(AppError::Protocol(concat("Unknown method: ", method)))
    }
}

/// What the daemon does with one line a client sent.
#[derive(Debug)]
pub enum DaemonStep {
    /// A blank line: nothing.
    Skip,
    /// Answer with this response at once.
    Reply(JsonValue),
    /// Make the call, then answer the request with this id.
    Call { id: JsonValue, call: DaemonCall },
}

/// The response for the request `id`: its result, or the error it failed with.
pub open spec fn daemon_response(id: JsonView, result: Result<JsonView, Seq<char>>) -> JsonView {
    match result {
        Ok(v) => JsonView::Object(seq![("id"@, id), ("jsonrpc"@, JsonView::Str("2.0"@)), ("result"@, v)]),
        Err(msg) => JsonView::Object(
            seq![
                ("error"@, JsonView::Object(seq![("code"@, JsonView::Number("-32603"@)), ("message"@, JsonView::Str(msg))])),
                ("id"@, id),
                ("jsonrpc"@, JsonView::Str("2.0"@)),
            ],
        ),
    }
}

/// The response for a line that is not JSON.
pub open spec fn parse_error_response(e: Seq<char>) -> JsonView {
    JsonView::Object(
        seq![
            ("error"@, JsonView::Object(seq![("code"@, JsonView::Number("-32700"@)), ("message"@, JsonView::Str("Parse error: "@ + e))])),
            ("id"@, JsonView::Null),
            ("jsonrpc"@, JsonView::Str("2.0"@)),
        ],
    )
}

fn error_object(code: &str, message: String) -> (r: JsonValue)
    ensures
        r@ == JsonView::Object(seq![("code"@, JsonView::Number(code@)), ("message"@, JsonView::Str(message@))]),
{
    let ghost mv = message@;
    let mut m: Vec<(String, JsonValue)> = Vec::new();
    m.push(("code".to_string(), JsonValue::Number(code.to_string())));
    m.push(("message".to_string(), JsonValue::Str(message)));
    proof {
        lemma_member_models(m@);
    }
    assert(JsonValue::member_models(m@) =~= seq![("code"@, JsonView::Number(code@)), ("message"@, JsonView::Str(mv))]);
    JsonValue::Object(m)
}

/// The response the daemon writes for the request `id`; `result` is the call's value,
/// or the text of the error it failed with.
pub fn daemon_reply(id: JsonValue, result: Result<JsonValue, String>) -> (r: JsonValue)
    ensures
        r@ == daemon_response(id@, match result {
            Ok(v) => Ok::<JsonView, Seq<char>>(v@),
            Err(m) => Err::<JsonView, Seq<char>>(m@),
        }),
{
    let ghost idv = id@;
    let mut members: Vec<(String, JsonValue)> = Vec::new();
    match result {
        Ok(v) => {
            let ghost vv = v@;
            members.push(("id".to_string(), id));
            members.push(("jsonrpc".to_string(), JsonValue::Str("2.0".to_string())));
            members.push(("result".to_string(), v));
            proof {
                lemma_member_models(members@);
            }
            assert(JsonValue::member_models(members@) =~= daemon_response(idv, Ok::<JsonView, Seq<char>>(vv))->Object_0);
        },
        Err(msg) => {
            let ghost mv = msg@;
            members.push(("error".to_string(), error_object("-32603", msg)));
            members.push(("id".to_string(), id));
            members.push(("jsonrpc".to_string(), JsonValue::Str("2.0".to_string())));
            proof {
                lemma_member_models(members@);
            }
            assert(JsonValue::member_models(members@) =~= daemon_response(idv, Err::<JsonView, Seq<char>>(mv))->Object_0);
        },
    }
    JsonValue::Object(members)
}

/// What the daemon does with a line: nothing for a blank one, a parse error for one
/// that is not JSON, else the call that the request's method asks for (or the error
/// that says why it cannot be made) under the request's id (`null` where it has none).
pub fn daemon_step(line: &str) -> (r: DaemonStep)
    ensures
        trim(line@).len() == 0 ==> r is Skip,
        trim(line@).len() > 0 ==> match json_parse(trim(line@)) {
            Err(e) => r is Reply && r->Reply_0@ == parse_error_response(e),
            Ok(req) => {
                let id = match req.get("id"@) {
                    Some(i) => i,
                    None => JsonView::Null,
                };
                let method = str_or(req.get_str("method"@), Seq::empty());
                match daemon_call_spec(method, req.get("params"@)) {
                    Ok(call) => r is Call && r->Call_id@ == id && r->Call_call@ == call,
                    Err(e) => r is Reply && r->Reply_0@ == daemon_response(id, Err::<JsonView, Seq<char>>(e.display())),
                }
            },
        },
{
    let trimmed = trim_str(line);
    if trimmed.as_str().is_empty() {
        return DaemonStep::Skip;
    }
    let request = match parse_json(trimmed.as_str()) {
        Ok(v) => v,
        Err(e) => {
            let msg = concat("Parse error: ", e.as_str());
            let mut members: Vec<(String, JsonValue)> = Vec::new();
            members.push(("error".to_string(), error_object("-32700", msg)));
            members.push(("id".to_string(), JsonValue::Null));
            members.push(("jsonrpc".to_string(), JsonValue::Str("2.0".to_string())));
            proof {
                lemma_member_models(members@);
            }
            assert(JsonValue::member_models(members@) =~= parse_error_response(e@)->Object_0);
            return DaemonStep::Reply(JsonValue::Object(members));
        },
    };
    let id = match request.get("id") {
        Some(i) => i.clone(),
        None => JsonValue::Null,
    };
    let method = match request.get_str("method") {
        Some(m) => m,
        None => {
            proof {
                reveal_strlit("");
            }
            ""
        },
    };
    let ghost req = request@;
    let ghost idv = id@;
    assert(idv == match req.get("id"@) {
        Some(i) => i,
        None => JsonView::Null,
    });
    assert(method@ == str_or(req.get_str("method"@), Seq::empty()));
    let params = request.get("params");
    assert(crate::json::opt_model(params) == req.get("params"@));
    match dispatch_method(method, params) {
        Ok(call) => DaemonStep::Call { id, call },
        Err(e) => {
            let text = e.to_display();
            let reply = daemon_reply(id, Err(text));
            assert(reply@ == daemon_response(idv, Err::<JsonView, Seq<char>>(e@.display())));
            DaemonStep::Reply(reply)
        },
    }
}

} // verus!
