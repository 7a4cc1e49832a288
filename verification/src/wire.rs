use vstd::prelude::*;
use crate::error::{AppError, ErrorView};
use crate::json::{JsonValue, JsonView, lemma_models, lemma_member_models};
use crate::mcp::{JsonRpcResponse, check_rpc_error, rpc_error_of};
use crate::text::{is_white, is_whitespace, chars_of, string_of, starts_with, starts_with_str, trim, trim_str, str_eq, concat};

verus! {

// ---------------------------------------------------------------------------
// Starting a server's command
// ---------------------------------------------------------------------------

/// The words read so far from a command line, and the word being read.
pub open spec fn scan_words(s: Seq<char>) -> (Seq<Seq<char>>, Seq<char>)
    decreases s.len(),
{
    if s.len() == 0 {
        (Seq::empty(), Seq::empty())
    } else {
        let (ws, cur) = scan_words(s.drop_last());
        let c = s.last();
        if is_white(c) {
            if cur.len() > 0 {
                (ws.push(cur), Seq::empty())
            } else {
                (ws, Seq::empty())
            }
        } else {
            (ws, cur.push(c))
        }
    }
}

/// The whitespace-separated words of `s` (`str::split_whitespace`).
pub open spec fn words(s: Seq<char>) -> Seq<Seq<char>> {
    let (ws, cur) = scan_words(s);
    if cur.len() > 0 {
        ws.push(cur)
    } else {
        ws
    }
}

/// The program and arguments of a server command: its first word and the rest; the
/// whole text and no arguments where it has no words.
pub open spec fn command_parts(command: Seq<char>) -> (Seq<char>, Seq<Seq<char>>) {
    let ws = words(command);
    if ws.len() == 0 {
        (command, Seq::empty())
    } else {
        (ws[0], ws.drop_first())
    }
}

/// Split a server command into its program and arguments.
pub fn split_command(command: &str) -> (r: (String, Vec<String>))
    ensures
        (r.0@, crate::text::views(r.1@)) == command_parts(command@),
{
    let cs = chars_of(command);
    let mut ws: Vec<String> = Vec::new();
    let mut cur: Vec<char> = Vec::new();
    let mut i: usize = 0;
    while i < cs.len()
        invariant
            i <= cs@.len(),
            cs@ == command@,
            (crate::text::views(ws@), cur@) == scan_words(cs@.take(i as int)),
        decreases cs@.len() - i,
    {
        let c = cs[i];
        assert(cs@.take(i + 1).drop_last() =~= cs@.take(i as int));
        assert(cs@.take(i + 1).last() == c);
        let ghost before = crate::text::views(ws@);
        if is_whitespace(c) {
            if cur.len() > 0 {
                let w = string_of(&cur);
                ws.push(w);
                assert(crate::text::views(ws@) =~= before.push(cur@));
            }
            cur = Vec::new();
            assert(cur@ =~= Seq::<char>::empty());
        } else {
            cur.push(c);
        }
        i = i + 1;
    }
    assert(cs@.take(cs@.len() as int) =~= cs@);
    if cur.len() > 0 {
        let ghost before = crate::text::views(ws@);
        let w = string_of(&cur);
        ws.push(w);
        assert(crate::text::views(ws@) =~= before.push(cur@));
    }
    if ws.len() == 0 {
        (command.to_string(), Vec::new())
    } else {
        let program = ws.remove(0);
        assert(crate::text::views(ws@) =~= words(command@).drop_first());
        (program, ws)
    }
}

// ---------------------------------------------------------------------------
// Request parameters
// ---------------------------------------------------------------------------

/// The protocol version this client speaks.
pub open spec fn protocol_version() -> Seq<char> {
    "2025-03-26"@
}

/// The parameters of an `initialize` request from a client at `version`.
pub open spec fn initialize_params_spec(version: Seq<char>) -> JsonView {
    JsonView::Object(seq![
        ("capabilities"@, JsonView::Object(Seq::empty())),
        ("clientInfo"@, JsonView::Object(seq![("name"@, JsonView::Str("mcp2cli"@)), ("version"@, JsonView::Str(version))])),
        ("protocolVersion"@, JsonView::Str(protocol_version())),
    ])
}

/// The parameters of an `initialize` request from a client at `version`.
pub fn initialize_params(version: &str) -> (r: JsonValue)
    ensures
        r@ == initialize_params_spec(version@),
{
    let mut info: Vec<(String, JsonValue)> = Vec::new();
    info.push(("name".to_string(), JsonValue::Str("mcp2cli".to_string())));
    info.push(("version".to_string(), JsonValue::Str(version.to_string())));
    let mut members: Vec<(String, JsonValue)> = Vec::new();
    members.push(("capabilities".to_string(), JsonValue::Object(Vec::new())));
    members.push(("clientInfo".to_string(), JsonValue::Object(info)));
    members.push(("protocolVersion".to_string(), JsonValue::Str("2025-03-26".to_string())));
    proof {
        lemma_member_models(members@);
        lemma_member_models(members@[0].1->Object_0@);
        lemma_member_models(members@[1].1->Object_0@);
        assert(JsonValue::member_models(members@[0].1->Object_0@) =~= Seq::<(Seq<char>, JsonView)>::empty());
        assert(JsonValue::member_models(members@[1].1->Object_0@) =~= seq![("name"@, JsonView::Str("mcp2cli"@)), ("version"@, JsonView::Str(version@))]);
        assert(JsonValue::member_models(members@) =~= initialize_params_spec(version@)->Object_0);
    }
    JsonValue::Object(members)
}

/// The parameters of a `tools/call` or `prompts/get` request.
pub fn call_params(name: &str, arguments: JsonValue) -> (r: JsonValue)
    ensures
        r@ == JsonView::Object(seq![("arguments"@, arguments@), ("name"@, JsonView::Str(name@))]),
{
    let ghost a = arguments@;
    let mut members: Vec<(String, JsonValue)> = Vec::new();
    members.push(("arguments".to_string(), arguments));
    members.push(("name".to_string(), JsonValue::Str(name.to_string())));
    proof {
        lemma_member_models(members@);
        assert(JsonValue::member_models(members@) =~= seq![("arguments"@, a), ("name"@, JsonView::Str(name@))]);
    }
    JsonValue::Object(members)
}

/// The parameters of a `resources/read` request.
pub fn uri_params(uri: &str) -> (r: JsonValue)
    ensures
        r@ == JsonView::Object(seq![("uri"@, JsonView::Str(uri@))]),
{
    let mut members: Vec<(String, JsonValue)> = Vec::new();
    members.push(("uri".to_string(), JsonValue::Str(uri.to_string())));
    proof {
        lemma_member_models(members@);
        assert(JsonValue::member_models(members@) =~= seq![("uri"@, JsonView::Str(uri@))]);
    }
    JsonValue::Object(members)
}

// ---------------------------------------------------------------------------
// Replies
// ---------------------------------------------------------------------------

/// Whether two JSON values are equal.
pub fn json_eq(a: &JsonValue, b: &JsonValue) -> (r: bool)
    ensures
        r == (a@ == b@),
    decreases a,
{
    match (a, b) {
        (JsonValue::Null, JsonValue::Null) => true,
        (JsonValue::Bool(x), JsonValue::Bool(y)) => *x == *y,
        (JsonValue::Number(x), JsonValue::Number(y)) => str_eq(x.as_str(), y.as_str()),
        (JsonValue::Str(x), JsonValue::Str(y)) => str_eq(x.as_str(), y.as_str()),
        (JsonValue::Array(xs), JsonValue::Array(ys)) => {
            proof {
                lemma_models(xs@);
                lemma_models(ys@);
            }
            if xs.len() != ys.len() {
                return false;
            }
            let mut i: usize = 0;
            while i < xs.len()
                invariant
                    i <= xs@.len(),
                    xs@.len() == ys@.len(),
                    *a == JsonValue::Array(*xs),
                    *b == JsonValue::Array(*ys),
                    JsonValue::models(xs@).len() == xs@.len(),
                    JsonValue::models(ys@).len() == ys@.len(),
                    forall|j: int| 0 <= j < xs@.len() ==> #[trigger] JsonValue::models(xs@)[j] == xs@[j]@,
                    forall|j: int| 0 <= j < ys@.len() ==> #[trigger] JsonValue::models(ys@)[j] == ys@[j]@,
                    forall|j: int| 0 <= j < i ==> xs@[j]@ == ys@[j]@,
                decreases xs@.len() - i,
            {
                proof {
                    assert(decreases_to!(xs@ => xs@[i as int]));
                    assert(decreases_to!(*xs => xs@));
                    assert(decreases_to!(*a => (*a)->Array_0));
                }
                if !json_eq(&xs[i], &ys[i]) {
                    assert(JsonValue::models(xs@)[i as int] != JsonValue::models(ys@)[i as int]);
                    assert(JsonValue::models(xs@) != JsonValue::models(ys@));
                    return false;
                }
                i = i + 1;
            }
            assert(JsonValue::models(xs@) =~= JsonValue::models(ys@));
            true
        },
        (JsonValue::Object(xs), JsonValue::Object(ys)) => {
            proof {
                lemma_member_models(xs@);
                lemma_member_models(ys@);
            }
            if xs.len() != ys.len() {
                return false;
            }
            let mut i: usize = 0;
            while i < xs.len()
                invariant
                    i <= xs@.len(),
                    xs@.len() == ys@.len(),
                    *a == JsonValue::Object(*xs),
                    *b == JsonValue::Object(*ys),
                    JsonValue::member_models(xs@).len() == xs@.len(),
                    JsonValue::member_models(ys@).len() == ys@.len(),
                    forall|j: int| 0 <= j < xs@.len() ==> #[trigger] JsonValue::member_models(xs@)[j] == (xs@[j].0@, xs@[j].1@),
                    forall|j: int| 0 <= j < ys@.len() ==> #[trigger] JsonValue::member_models(ys@)[j] == (ys@[j].0@, ys@[j].1@),
                    forall|j: int| 0 <= j < i ==> xs@[j].0@ == ys@[j].0@ && xs@[j].1@ == ys@[j].1@,
                decreases xs@.len() - i,
            {
                proof {
                    assert(decreases_to!(xs@[i as int] => xs@[i as int].1));
                    assert(decreases_to!(xs@ => xs@[i as int]));
                    assert(decreases_to!(*xs => xs@));
                    assert(decreases_to!(*a => (*a)->Object_0));
                }
                if !str_eq(xs[i].0.as_str(), ys[i].0.as_str()) || !json_eq(&xs[i].1, &ys[i].1) {
                    assert(JsonValue::member_models(xs@)[i as int] != JsonValue::member_models(ys@)[i as int]);
                    assert(JsonValue::member_models(xs@) != JsonValue::member_models(ys@));
                    return false;
                }
                i = i + 1;
            }
            assert(JsonValue::member_models(xs@) =~= JsonValue::member_models(ys@));
            true
        },
        _ => false,
    }
}

/// What a client does with a line a server wrote while it waits for the reply to a
/// request.
#[derive(Debug)]
pub enum ReplyStep {
    /// Not the reply: read on.
    Skip,
    /// The reply: the response, or the error it reports.
    Done(Result<JsonRpcResponse, AppError>),
}

/// Whether a response answers the request with `request_id`.
pub open spec fn answers(resp: JsonRpcResponse, request_id: JsonView) -> bool {
    resp.id matches Some(i) && i@ == request_id
}

/// Decide on a line of a server's standard output: blank lines, lines that are not a
/// JSON-RPC response (`parsed` is the line read as one) and responses to other requests
/// are passed over; the reply ends the wait, failing where it reports an error.
pub fn stdio_reply_step(line: &str, parsed: Option<JsonRpcResponse>, request_id: &JsonValue) -> (r: ReplyStep)
    ensures
        match r {
            ReplyStep::Skip => trim(line@).len() == 0 || !(parsed matches Some(p) && answers(p, request_id@)),
            ReplyStep::Done(res) => trim(line@).len() > 0 && (parsed matches Some(p) && answers(p, request_id@) && match res {
                Ok(resp) => resp == p && rpc_error_of(p) is None,
                Err(e) => rpc_error_of(p) == Some(e@),
            }),
        },
{
    let trimmed = trim_str(line);
    if chars_of(trimmed.as_str()).len() == 0 {
        return ReplyStep::Skip;
    }
    match parsed {
        Some(resp) => {
            let matches = match &resp.id {
                Some(i) => json_eq(i, request_id),
                None => false,
            };
            if matches {
                match check_rpc_error(&resp) {
                    Ok(_) => ReplyStep::Done(Ok(resp)),
                    Err(e) => ReplyStep::Done(Err(e)),
                }
            } else {
                ReplyStep::Skip
            }
        },
        None => ReplyStep::Skip,
    }
}

/// Decide on an event of a server-sent event stream that carries the reply to a
/// request: `parsed` is its data read as a JSON-RPC response; data that is not one is
/// passed over (`None`).
pub fn event_reply_step(parsed: Option<JsonRpcResponse>) -> (r: Option<Result<JsonRpcResponse, AppError>>)
    ensures
        match parsed {
            None => r is None,
            Some(p) => r matches Some(res) && match res {
                Ok(resp) => resp == p && rpc_error_of(p) is None,
                Err(e) => rpc_error_of(p) == Some(e@),
            },
        },
{
    match parsed {
        None => None,
        Some(resp) => match check_rpc_error(&resp) {
            Ok(_) => Some(Ok(resp)),
            Err(e) => Some(Err(e)),
        },
    }
}

// ---------------------------------------------------------------------------
// The message endpoint of a server-sent event transport
// ---------------------------------------------------------------------------

/// What resolving a reference against a base URL gives.
#[derive(Debug)]
pub enum UrlJoin {
    /// The base is not an absolute URL; the parser's error text.
    BadBase(String),
    /// The reference does not resolve; the parser's error text.
    BadReference(String),
    /// The resolved URL's text.
    Joined(String),
}

pub enum UrlJoinView {
    BadBase(Seq<char>),
    BadReference(Seq<char>),
    Joined(Seq<char>),
}

impl View for UrlJoin {
    type V = UrlJoinView;

    open spec fn view(&self) -> UrlJoinView {
        match self {
            UrlJoin::BadBase(e) => UrlJoinView::BadBase(e@),
            UrlJoin::BadReference(e) => UrlJoinView::BadReference(e@),
            UrlJoin::Joined(u) => UrlJoinView::Joined(u@),
        }
    }
}

/// What `url::Url::parse(base)` followed by `join(reference)` gives, by text.
pub uninterp spec fn url_join(base: Seq<char>, reference: Seq<char>) -> UrlJoinView;

/// Calls `url::Url::parse` on `base` and then `Url::join` with `reference`, and prints
/// the result; the outcome is named by `url_join`.
#[verifier::external_body]
fn join_url(base: &str, reference: &str) -> (r: UrlJoin)
    ensures
        r@ == url_join(base@, reference@),
{
    match url::Url::parse(base) {
        Err(e) => UrlJoin::BadBase(e.to_string()),
        Ok(u) => match u.join(reference) {
            Err(e) => UrlJoin::BadReference(e.to_string()),
            Ok(j) => UrlJoin::Joined(j.to_string()),
        },
    }
}

/// The message URL an `endpoint` event names: as it is when absolute, else resolved
/// against the stream's URL.
pub open spec fn message_url(base: Seq<char>, endpoint: Seq<char>) -> Result<Seq<char>, ErrorView> {
    if starts_with(endpoint, "http://"@) || starts_with(endpoint, "https://"@) {
        Ok(endpoint)
    } else {
        match url_join(base, endpoint) {
            UrlJoinView::BadBase(e) => Err(ErrorView::Protocol("Invalid SSE URL: "@ + e)),
            UrlJoinView::BadReference(e) => Err(ErrorView::Protocol("Failed to resolve message URL: "@ + e)),
            UrlJoinView::Joined(u) => Ok(u),
        }
    }
}

/// Resolve the message URL an `endpoint` event names.
pub fn resolve_message_url(base: &str, endpoint: &str) -> (r: Result<String, AppError>)
    ensures
        crate::error::result_view(r) == message_url(base@, endpoint@),
{
    if starts_with_str(endpoint, "http://") || starts_with_str(endpoint, "https://") {
        return Ok(endpoint.to_string());
    }
    match join_url(base, endpoint) {
        UrlJoin::BadBase(e) => Err(AppError::Protocol(concat("Invalid SSE URL: ", e.as_str()))),
        UrlJoin::BadReference(e) => Err(AppError::Protocol(concat("Failed to resolve message URL: ", e.as_str()))),
        UrlJoin::Joined(u) => Ok(u),
    }
}

/// Decide on an event of the stream a server-sent event transport opens: an
/// `endpoint` event names the message URL (its data, trimmed, resolved against the
/// stream's URL); other events are passed over.
pub fn endpoint_event(event: &str, data: &str, base_url: &str) -> (r: Option<Result<String, AppError>>)
    ensures
        event@ != "endpoint"@ ==> r is None,
        event@ == "endpoint"@ ==> (r matches Some(res) && crate::error::result_view(res) == message_url(base_url@, trim(data@))),
{
    if str_eq(event, "endpoint") {
        let endpoint = trim_str(data);
        Some(resolve_message_url(base_url, endpoint.as_str()))
    } else {
        None
    }
}

} // verus!
