use vstd::prelude::*;
use crate::bake::{BakeConfig, baked_argv, baked_to_argv};
use crate::error::{AppError, ErrorView};
use crate::json::{JsonValue, JsonView, lemma_models_eq};
use crate::mcp::McpContent;
use crate::oauth::{OAuthProvider, build_oauth_provider, path_join, cache_key};
use crate::session::SessionMcpClient;
use crate::text::{views, opt_view, split_once, split_once_char, trim, trim_str, starts_with, starts_with_str, trim_end_char, trim_end_matches_char, concat, chars_of, string_of_range};

verus! {

// ---------------------------------------------------------------------------
// The command line
// ---------------------------------------------------------------------------

/// The command line of the program.
#[derive(Debug)]
pub struct Cli {
    // Source modes (mutually exclusive in practice)
    pub spec: Option<String>,
    pub mcp: Option<String>,
    pub mcp_stdio: Option<String>,
    pub graphql: Option<String>,
    // Auth
    pub auth_header: Vec<String>,
    pub oauth: bool,
    pub oauth_client_id: Option<String>,
    pub oauth_client_secret: Option<String>,
    pub oauth_scope: Option<String>,
    // Output
    pub pretty: bool,
    pub raw: bool,
    pub toon: bool,
    pub jq: Option<String>,
    pub head: Option<usize>,
    // Cache
    pub cache_key: Option<String>,
    pub cache_ttl: Option<u64>,
    pub refresh: bool,
    // Discovery
    pub list: bool,
    pub search: Option<String>,
    // Transport
    pub transport: String,
    // Filtering
    pub includes: Vec<String>,
    pub exclude: Vec<String>,
    pub methods: Vec<String>,
    // Env/base
    pub env: Vec<String>,
    pub base_url: Option<String>,
    // MCP resources
    pub list_resources: bool,
    pub list_resource_templates: bool,
    pub read_resource: Option<String>,
    // MCP prompts
    pub list_prompts: bool,
    pub get_prompt: Option<String>,
    pub prompt_arg: Vec<String>,
    // Sessions
    pub session_start: Option<String>,
    pub session_stop: Option<String>,
    pub session: Option<String>,
    pub session_list: bool,
    // GraphQL
    pub fields: Option<String>,
    // Bake subcommand
    pub command: Option<Commands>,
    pub rest: Vec<String>,
}

#[derive(Debug)]
pub enum Commands {
    /// Manage saved configurations.
    Bake { action: BakeAction },
}

#[derive(Debug)]
pub enum BakeAction {
    Create { name: String, force: bool, args: Vec<String> },
    List,
    Show { name: String },
    Remove { name: String },
    Update { name: String, args: Vec<String> },
    Install { name: String, dir: Option<String> },
}

/// The cache lifetime, in seconds, where none is given.
pub const DEFAULT_CACHE_TTL: u64 = 3600;

/// What an invocation does.
#[derive(Debug)]
pub enum Route {
    /// A `bake` subcommand.
    Bake,
    SessionStart { name: String, source: String, transport: String },
    SessionStop { name: String },
    SessionList,
    /// An OpenAPI specification's commands.
    OpenApi { spec: String },
    /// An MCP server's tools, through a named session, a command's standard streams or
    /// a URL.
    Mcp { url: String, transport: String, session: Option<String> },
    /// A GraphQL endpoint's fields.
    Graphql { url: String },
}

pub open spec fn no_source_short() -> ErrorView {
    ErrorView::Cli("No source specified. Use --spec, --mcp, --mcp-stdio, or --graphql"@)
}

pub open spec fn no_source_long() -> ErrorView {
    ErrorView::Cli(
        "No source specified. Use --spec, --mcp, --mcp-stdio, or --graphql, or use 'bake' subcommand.\nRun with --help for usage information."@,
    )
}

/// `--jq` and `--toon` cannot be used together.
pub fn check_output_flags(cli: &Cli) -> (r: Result<(), AppError>)
    ensures
        r is Err <==> (cli.jq is Some && cli.toon),
        r matches Err(e) ==> e@ == ErrorView::Cli("Cannot use --jq and --toon together"@),
{
    if cli.jq.is_some() && cli.toon {
        return Err(AppError::Cli("Cannot use --jq and --toon together".to_string()));
    }
    Ok(())
}

/// Decide what an invocation does, in the order the flags are looked at.
pub fn route(cli: &Cli) -> (r: Result<Route, AppError>)
    ensures
        cli.jq is Some && cli.toon ==> r is Err && r->Err_0@ == ErrorView::Cli("Cannot use --jq and --toon together"@),
        !(cli.jq is Some && cli.toon) ==> match cli.command {
            Some(Commands::Bake { .. }) => r is Ok && r->Ok_0 is Bake,
            None => match cli.session_start {
                Some(name) => match (if cli.mcp is Some { cli.mcp } else { cli.mcp_stdio }) {
                    Some(source) => r is Ok && r->Ok_0 is SessionStart && r->Ok_0->SessionStart_name@ == name@
                        && r->Ok_0->SessionStart_source@ == source@
                        && r->Ok_0->SessionStart_transport@ == if cli.mcp_stdio is Some { "stdio"@ } else { cli.transport@ },
                    None => r is Err && r->Err_0@ == ErrorView::Cli(
                        "--session-start requires --mcp or --mcp-stdio to specify the source"@,
                    ),
                },
                None => match cli.session_stop {
                    Some(name) => r is Ok && r->Ok_0 is SessionStop && r->Ok_0->SessionStop_name@ == name@,
                    None => if cli.session_list {
                        r is Ok && r->Ok_0 is SessionList
                    } else if cli.spec is Some {
                        r is Ok && r->Ok_0 is OpenApi && r->Ok_0->OpenApi_spec@ == cli.spec->Some_0@
                    } else if cli.session is Some {
                        r is Ok && r->Ok_0 is Mcp && r->Ok_0->Mcp_url@ == cli.session->Some_0@
                            && r->Ok_0->Mcp_transport@ == "session"@ && opt_view(r->Ok_0->Mcp_session) == opt_view(cli.session)
                    } else if cli.mcp_stdio is Some {
                        r is Ok && r->Ok_0 is Mcp && r->Ok_0->Mcp_url@ == cli.mcp_stdio->Some_0@
                            && r->Ok_0->Mcp_transport@ == "stdio"@ && r->Ok_0->Mcp_session is None
                    } else if cli.mcp is Some {
                        r is Ok && r->Ok_0 is Mcp && r->Ok_0->Mcp_url@ == cli.mcp->Some_0@
                            && r->Ok_0->Mcp_transport@ == cli.transport@ && r->Ok_0->Mcp_session is None
                    } else if cli.graphql is Some {
                        r is Ok && r->Ok_0 is Graphql && r->Ok_0->Graphql_url@ == cli.graphql->Some_0@
                    } else if cli.list || cli.search is Some {
                        r is Err && r->Err_0@ == no_source_short()
                    } else {
                        r is Err && r->Err_0@ == no_source_long()
                    },
                },
            },
        },
{
    // Validate --jq and --toon mutual exclusivity
    check_output_flags(cli)?;
    // Handle bake subcommand
    if let Some(Commands::Bake { .. }) = &cli.command {
        return Ok(Route::Bake);
    }
    // Handle session management flags
    if let Some(name) = &cli.session_start {
        let source = match &cli.mcp {
            Some(m) => m.clone(),
            None => match &cli.mcp_stdio {
                Some(m) => m.clone(),
                None => {
                    return Err(AppError::Cli(
                        "--session-start requires --mcp or --mcp-stdio to specify the source".to_string(),
                    ));
                },
            },
        };
        let transport = if cli.mcp_stdio.is_some() { "stdio".to_string() } else { cli.transport.clone() };
        return Ok(Route::SessionStart { name: name.clone(), source, transport });
    }
    if let Some(name) = &cli.session_stop {
        return Ok(Route::SessionStop { name: name.clone() });
    }
    if cli.session_list {
        return Ok(Route::SessionList);
    }
    // Detect source mode and route
    if let Some(spec) = &cli.spec {
        Ok(Route::OpenApi { spec: spec.clone() })
    } else if let Some(session_name) = &cli.session {
        Ok(Route::Mcp { url: session_name.clone(), transport: "session".to_string(), session: Some(session_name.clone()) })
    } else if let Some(cmd) = &cli.mcp_stdio {
        Ok(Route::Mcp { url: cmd.clone(), transport: "stdio".to_string(), session: None })
    } else if let Some(url) = &cli.mcp {
        Ok(Route::Mcp { url: url.clone(), transport: cli.transport.clone(), session: None })
    } else if let Some(url) = &cli.graphql {
        Ok(Route::Graphql { url: url.clone() })
    } else if cli.list || cli.search.is_some() {
        Err(AppError::Cli("No source specified. Use --spec, --mcp, --mcp-stdio, or --graphql".to_string()))
    } else {
        Err(AppError::Cli(
            "No source specified. Use --spec, --mcp, --mcp-stdio, or --graphql, or use 'bake' subcommand.\nRun with --help for usage information.".to_string(),
        ))
    }
}

/// The OAuth server of an invocation: the MCP URL, else the GraphQL URL, else the base
/// URL of an OpenAPI specification.
pub open spec fn oauth_server_of(cli: Cli) -> Option<Seq<char>> {
    match cli.mcp {
        Some(m) => Some(m@),
        None => match cli.graphql {
            Some(g) => Some(g@),
            None => if cli.spec is Some {
                opt_view(cli.base_url)
            } else {
                None
            },
        },
    }
}

/// Build an OAuth provider from CLI flags, if OAuth is configured; its tokens are kept
/// under `oauth_base`. Supports --mcp, --graphql, and --spec (with --base-url) as OAuth
/// server sources.
pub fn build_oauth_provider_from_cli(cli: &Cli, oauth_base: &str) -> (r: Option<OAuthProvider>)
    ensures
        r is Some <==> cli.oauth && oauth_server_of(*cli) is Some && cli.oauth_client_id is Some,
        r matches Some(p) ==> ({
            let server = oauth_server_of(*cli)->Some_0;
            let root = trim_end_char(server, '/');
            match p {
                OAuthProvider::ClientCredentials(f) => cli.oauth_client_secret is Some
                    && f.storage.dir@ == path_join(oauth_base@, cache_key(server))
                    && f.client_id@ == cli.oauth_client_id->Some_0@
                    && f.client_secret@ == cli.oauth_client_secret->Some_0@
                    && f.token_endpoint@ == root + "/token"@
                    && f.scope == cli.oauth_scope,
                OAuthProvider::Pkce(f) => cli.oauth_client_secret is None
                    && f.storage.dir@ == path_join(oauth_base@, cache_key(server))
                    && f.client_id@ == cli.oauth_client_id->Some_0@
                    && f.authorization_endpoint@ == root + "/authorize"@
                    && f.token_endpoint@ == root + "/token"@
                    && f.scope == cli.oauth_scope,
            }
        }),
{
    if !cli.oauth {
        return None;
    }
    // Derive OAuth server URL: try --mcp, then --graphql, then --base-url (for --spec)
    let oauth_server = match &cli.mcp {
        Some(m) => m.as_str(),
        None => match &cli.graphql {
            Some(g) => g.as_str(),
            None => if cli.spec.is_some() {
                match &cli.base_url {
                    Some(b) => b.as_str(),
                    None => return None,
                }
            } else {
                return None;
            },
        },
    };
    let client_id = match &cli.oauth_client_id {
        Some(c) => c.as_str(),
        None => return None,
    };
    let root = trim_end_matches_char(oauth_server, '/');
    let token_endpoint = concat(root.as_str(), "/token");
    let auth_endpoint = concat(root.as_str(), "/authorize");
    let secret = match &cli.oauth_client_secret {
        Some(s) => Some(s.as_str()),
        None => None,
    };
    let scope = match &cli.oauth_scope {
        Some(s) => Some(s.clone()),
        None => None,
    };
    Some(build_oauth_provider(
        oauth_server,
        oauth_base,
        client_id,
        secret,
        token_endpoint.as_str(),
        Some(auth_endpoint.as_str()),
        scope,
    ))
}

// ---------------------------------------------------------------------------
// Saved configurations on the command line
// ---------------------------------------------------------------------------

/// The saved configuration an invocation names: `@NAME` as its first argument.
pub open spec fn baked_name_spec(args: Seq<Seq<char>>) -> Option<Seq<char>> {
    if args.len() > 1 && starts_with(args[1], "@"@) {
        Some(args[1].drop_first())
    } else {
        None
    }
}

/// The name after `@` in the first argument, if it starts with `@`.
pub fn baked_name(args: &Vec<String>) -> (r: Option<String>)
    ensures
        opt_view(r) == baked_name_spec(views(args@)),
{
    if args.len() > 1 && starts_with_str(args[1].as_str(), "@") {
        proof {
            reveal_strlit("@");
        }
        let cs = chars_of(args[1].as_str());
        let name = string_of_range(&cs, 1, cs.len());
        assert(name@ =~= args@[1]@.drop_first());
        Some(name)
    } else {
        None
    }
}

/// The command line with `@NAME` replaced by the command line of the saved
/// configuration.
pub open spec fn expanded_argv(args: Seq<Seq<char>>, config: crate::bake::BakeConfigView) -> Seq<Seq<char>> {
    seq![args[0]] + baked_argv(config) + args.skip(2)
}

/// Detect @NAME pattern in argv and expand to baked config args.
pub fn expand_baked_argv(args: &Vec<String>, config: &BakeConfig) -> (r: Vec<String>)
    requires
        args@.len() >= 2,
    ensures
        views(r@) == expanded_argv(views(args@), config@),
{
    let mut out: Vec<String> = Vec::new();
    out.push(args[0].clone());
    let mut extra = baked_to_argv(config);
    let ghost o = out@;
    let ghost e = extra@;
    out.append(&mut extra);
    assert(out@ == o + e);
    assert(views(out@) =~= seq![args@[0]@] + baked_argv(config@));
    let mut k: usize = 2;
    let ghost prefix = views(out@);
    assert(views(args@).skip(2).take(0) =~= Seq::<Seq<char>>::empty());
    while k < args.len()
        invariant
            2 <= k <= args@.len(),
            views(out@) == prefix + views(args@).skip(2).take(k - 2),
        decreases args@.len() - k,
    {
        let ghost before = out@;
        out.push(args[k].clone());
        assert(views(out@) =~= views(before).push(args@[k as int]@));
        assert(views(args@).skip(2).take(k - 1) =~= views(args@).skip(2).take(k - 2).push(args@[k as int]@));
        assert(views(out@) =~= prefix + views(args@).skip(2).take(k - 1));
        k = k + 1;
    }
    assert(views(args@).skip(2).take(args@.len() - 2) =~= views(args@).skip(2));
    out
}

/// `KEY<delimiter>VALUE` items as trimmed pairs, skipping items without the delimiter.
pub open spec fn kv_pairs(items: Seq<Seq<char>>, delimiter: char) -> Seq<(Seq<char>, Seq<char>)>
    decreases items.len(),
{
    if items.len() == 0 {
        Seq::empty()
    } else {
        kv_pairs(items.drop_last(), delimiter) + match split_once(items.last(), delimiter) {
            Some((k, v)) => seq![(trim(k), trim(v))],
            None => Seq::empty(),
        }
    }
}

/// Split key-value items on `delimiter`, trimming both sides.
pub fn parse_kv_pairs(items: &Vec<String>, delimiter: char) -> (r: Vec<(String, String)>)
    ensures
        crate::request::header_views(r@) == kv_pairs(views(items@), delimiter),
{
    let ghost iv = views(items@);
    let mut out: Vec<(String, String)> = Vec::new();
    let mut i: usize = 0;
    assert(iv.take(0) =~= Seq::<Seq<char>>::empty());
    assert(crate::request::header_views(out@) =~= Seq::<(Seq<char>, Seq<char>)>::empty());
    while i < items.len()
        invariant
            i <= items@.len(),
            iv == views(items@),
            crate::request::header_views(out@) == kv_pairs(iv.take(i as int), delimiter),
        decreases items@.len() - i,
    {
        assert(iv.take(i + 1).drop_last() =~= iv.take(i as int));
        assert(iv.take(i + 1).last() == items@[i as int]@);
        let ghost before = crate::request::header_views(out@);
        match split_once_char(items[i].as_str(), delimiter) {
            Some((k, v)) => {
                let kt = trim_str(k.as_str());
                let vt = trim_str(v.as_str());
                out.push((kt, vt));
                assert(crate::request::header_views(out@) =~= before + seq![(trim(k@), trim(v@))]);
            },
            None => {
                assert(crate::request::header_views(out@) =~= before + Seq::<(Seq<char>, Seq<char>)>::empty());
            },
        }
        i = i + 1;
    }
    assert(iv.take(items@.len() as int) =~= iv);
    out
}

/// `KEY=VALUE` items as pairs, as given, skipping items without `=`.
pub open spec fn env_pairs_spec(items: Seq<Seq<char>>) -> Seq<(Seq<char>, Seq<char>)>
    decreases items.len(),
{
    if items.len() == 0 {
        Seq::empty()
    } else {
        env_pairs_spec(items.drop_last()) + match split_once(items.last(), '=') {
            Some((k, v)) => seq![(k, v)],
            None => Seq::empty(),
        }
    }
}

/// Parse --env vars into key-value pairs for subprocess injection.
pub fn env_pairs(items: &Vec<String>) -> (r: Vec<(String, String)>)
    ensures
        crate::request::header_views(r@) == env_pairs_spec(views(items@)),
{
    let ghost iv = views(items@);
    let mut out: Vec<(String, String)> = Vec::new();
    let mut i: usize = 0;
    assert(iv.take(0) =~= Seq::<Seq<char>>::empty());
    assert(crate::request::header_views(out@) =~= Seq::<(Seq<char>, Seq<char>)>::empty());
    while i < items.len()
        invariant
            i <= items@.len(),
            iv == views(items@),
            crate::request::header_views(out@) == env_pairs_spec(iv.take(i as int)),
        decreases items@.len() - i,
    {
        assert(iv.take(i + 1).drop_last() =~= iv.take(i as int));
        assert(iv.take(i + 1).last() == items@[i as int]@);
        let ghost before = crate::request::header_views(out@);
        match split_once_char(items[i].as_str(), '=') {
            Some((k, v)) => {
                let ghost kv = (k@, v@);
                out.push((k, v));
                assert(crate::request::header_views(out@) =~= before + seq![kv]);
            },
            None => {
                assert(crate::request::header_views(out@) =~= before + Seq::<(Seq<char>, Seq<char>)>::empty());
            },
        }
        i = i + 1;
    }
    assert(iv.take(items@.len() as int) =~= iv);
    out
}

// ---------------------------------------------------------------------------
// Output
// ---------------------------------------------------------------------------

/// Options controlling output formatting.
#[derive(Debug)]
pub struct OutputOptions {
    /// Force pretty-print even when not a TTY.
    pub pretty: bool,
    /// Raw output (no JSON formatting, print text as-is).
    pub raw: bool,
    /// Pipe through toon formatter.
    pub toon: bool,
    /// Pipe through jq with this expression.
    pub jq: Option<String>,
    /// Truncate arrays to this many items.
    pub head: Option<usize>,
}

impl OutputOptions {
    /// The output options an invocation asks for.
    pub fn from_cli(cli: &Cli) -> (r: Self)
        ensures
            r.pretty == cli.pretty,
            r.raw == cli.raw,
            r.toon == cli.toon,
            opt_view(r.jq) == opt_view(cli.jq),
            r.head == cli.head,
    {
        OutputOptions {
            pretty: cli.pretty,
            raw: cli.raw,
            toon: cli.toon,
            jq: match &cli.jq {
                Some(j) => Some(j.clone()),
                None => None,
            },
            head: cli.head,
        }
    }
}

/// An array cut to its first `n` items; any other value as it is.
pub open spec fn head_of(value: JsonView, head: Option<usize>) -> JsonView {
    match head {
        Some(n) => match value {
            JsonView::Array(items) => JsonView::Array(if n < items.len() { items.take(n as int) } else { items }),
            _ => value,
        },
        None => value,
    }
}

/// Apply head truncation to a value if it's an array.
pub fn apply_head(value: &JsonValue, head: Option<usize>) -> (r: JsonValue)
    ensures
        r@ == head_of(value@, head),
{
    if let Some(n) = head {
        if let JsonValue::Array(arr) = value {
            proof {
                crate::json::lemma_models(arr@);
            }
            let mut out: Vec<JsonValue> = Vec::new();
            let mut i: usize = 0;
            while i < arr.len() && i < n
                invariant
                    i <= arr@.len(),
                    i <= n,
                    out@.len() == i,
                    forall|j: int| 0 <= j < i ==> #[trigger] out@[j]@ == arr@[j]@,
                decreases arr@.len() - i,
            {
                out.push(arr[i].clone());
                i = i + 1;
            }
            let ghost items = JsonValue::models(arr@);
            let ghost kept = if n < items.len() { items.take(n as int) } else { items };
            proof {
                assert forall|j: int| 0 <= j < out@.len() implies #[trigger] out@[j]@ == kept[j] by {
                    assert(out@[j]@ == arr@[j]@);
                }
                lemma_models_eq(out@, kept);
            }
            return JsonValue::Array(out);
        }
    }
    value.clone()
}

/// The output text under `--raw`: a string as it is, any other value as JSON.
pub fn raw_text(value: &JsonValue) -> (r: String)
    ensures
        r@ == match value@ {
            JsonView::Str(s) => s,
            v => crate::json::json_text(v),
        },
{
    match value {
        JsonValue::Str(s) => s.clone(),
        _ => crate::json::to_json_text(value),
    }
}

/// Represents a single piece of content in a tool response.
#[derive(Debug)]
#[allow(inconsistent_fields)]
pub enum Content {
    Text { text: String },
    Json { data: JsonValue },
    Image { data: String, mime_type: String },
    Error { detail: ErrorDetail },
}

/// Details about an error in a tool response.
#[derive(Debug)]
pub struct ErrorDetail {
    pub message: String,
    pub code: Option<String>,
}

/// Metadata about a tool response.
#[derive(Debug)]
pub struct ResponseMetadata {
    pub status_code: Option<u16>,
    pub duration_ms: Option<u64>,
}

/// Complete tool response with content and optional metadata.
#[derive(Debug)]
pub struct ToolResponse {
    pub content: Vec<Content>,
    pub is_error: bool,
    pub metadata: Option<ResponseMetadata>,
}

/// Manifest entry for a single tool.
#[derive(Debug)]
pub struct ToolManifestEntry {
    pub name: String,
    pub description: Option<String>,
}

/// A list of available tools.
#[derive(Debug)]
pub struct ToolManifest {
    pub tools: Vec<ToolManifestEntry>,
}

// ---------------------------------------------------------------------------
// Handler options
// ---------------------------------------------------------------------------

/// Options for the OpenAPI handler, bundling all CLI-derived configuration.
#[derive(Debug)]
pub struct OpenApiHandlerOptions {
    pub spec_source: String,
    pub headers: Vec<(String, String)>,
    pub output_opts: OutputOptions,
    pub list: bool,
    pub search: Option<String>,
    pub rest: Vec<String>,
    pub includes: Vec<String>,
    pub exclude: Vec<String>,
    pub methods: Vec<String>,
    pub base_url: Option<String>,
    pub cache_key: Option<String>,
    pub cache_ttl: u64,
    pub refresh: bool,
    pub oauth_provider: Option<OAuthProvider>,
}

/// Options for the GraphQL handler, bundling all CLI-derived configuration.
#[derive(Debug)]
pub struct GraphqlHandlerOptions {
    pub url: String,
    pub headers: Vec<(String, String)>,
    pub output_opts: OutputOptions,
    pub list: bool,
    pub search: Option<String>,
    pub rest: Vec<String>,
    pub includes: Vec<String>,
    pub exclude: Vec<String>,
    pub fields: Option<String>,
    pub cache_key: Option<String>,
    pub cache_ttl: u64,
    pub refresh: bool,
    pub oauth_provider: Option<OAuthProvider>,
}

/// Options for the MCP handler, bundling all CLI-derived configuration.
#[derive(Debug)]
pub struct McpHandlerOptions {
    pub url: String,
    pub transport: String,
    pub headers: Vec<(String, String)>,
    pub output_opts: OutputOptions,
    pub list: bool,
    pub search: Option<String>,
    pub rest: Vec<String>,
    pub includes: Vec<String>,
    pub exclude: Vec<String>,
    pub cache_key: Option<String>,
    pub cache_ttl: u64,
    pub refresh: bool,
    pub list_resources: bool,
    pub list_resource_templates: bool,
    pub read_resource: Option<String>,
    pub list_prompts: bool,
    pub get_prompt: Option<String>,
    pub prompt_args: Vec<(String, String)>,
    pub oauth_provider: Option<OAuthProvider>,
    /// Session: pre-built client that bypasses transport selection.
    pub session_client: Option<SessionMcpClient>,
    /// Environment variables to inject into a stdio subprocess.
    pub env_vars: Vec<(String, String)>,
}

} // verus!
