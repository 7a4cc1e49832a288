use vstd::prelude::*;
use crate::error::{AppError, ErrorView};
use crate::strmap::{StringMap, map_insert, keys_unique};
use crate::text::{
    views, opt_view, copy_string, copy_strings, copy_opt_string, is_ascii_lower, is_ascii_digit,
    trim, split, split_once, starts_with, nat_text, parse_u64_spec, str_eq, concat, concat3,
    split_once_char, split_char, trim_str, parse_u64, u64_text, starts_with_str, chars_of,
    string_of, string_of_range, find_char, lemma_find_char_from_bounds,
};

verus! {

/// A saved command-line configuration.
#[derive(Debug)]
pub struct BakeConfig {
    pub source_type: String,
    pub source: String,
    /// `Key:Value` header lines, as given to `--auth-header`.
    pub auth_headers: Vec<String>,
    pub env_vars: StringMap,
    pub cache_ttl: Option<u64>,
    pub transport: Option<String>,
    pub oauth: Option<bool>,
    pub oauth_client_id: Option<String>,
    pub oauth_client_secret: Option<String>,
    pub oauth_scope: Option<String>,
    /// Glob patterns of the commands to keep.
    pub includes: Vec<String>,
    /// Glob patterns of the commands to drop.
    pub exclude: Vec<String>,
    pub methods: Vec<String>,
    pub description: Option<String>,
    pub base_url: Option<String>,
}

/// The model of a `BakeConfig`.
#[verifier::ext_equal]
pub struct BakeConfigView {
    pub source_type: Seq<char>,
    pub source: Seq<char>,
    pub auth_headers: Seq<Seq<char>>,
    pub env_vars: Seq<(Seq<char>, Seq<char>)>,
    pub cache_ttl: Option<u64>,
    pub transport: Option<Seq<char>>,
    pub oauth: Option<bool>,
    pub oauth_client_id: Option<Seq<char>>,
    pub oauth_client_secret: Option<Seq<char>>,
    pub oauth_scope: Option<Seq<char>>,
    pub includes: Seq<Seq<char>>,
    pub exclude: Seq<Seq<char>>,
    pub methods: Seq<Seq<char>>,
    pub description: Option<Seq<char>>,
    pub base_url: Option<Seq<char>>,
}

impl View for BakeConfig {
    type V = BakeConfigView;

    open spec fn view(&self) -> BakeConfigView {
        BakeConfigView {
            source_type: self.source_type@,
            source: self.source@,
            auth_headers: views(self.auth_headers@),
            env_vars: self.env_vars@,
            cache_ttl: self.cache_ttl,
            transport: opt_view(self.transport),
            oauth: self.oauth,
            oauth_client_id: opt_view(self.oauth_client_id),
            oauth_client_secret: opt_view(self.oauth_client_secret),
            oauth_scope: opt_view(self.oauth_scope),
            includes: views(self.includes@),
            exclude: views(self.exclude@),
            methods: views(self.methods@),
            description: opt_view(self.description),
            base_url: opt_view(self.base_url),
        }
    }
}

/// The configuration with every field empty.
pub open spec fn empty_config() -> BakeConfigView {
    BakeConfigView {
        source_type: Seq::empty(),
        source: Seq::empty(),
        auth_headers: Seq::empty(),
        env_vars: Seq::empty(),
        cache_ttl: None,
        transport: None,
        oauth: None,
        oauth_client_id: None,
        oauth_client_secret: None,
        oauth_scope: None,
        includes: Seq::empty(),
        exclude: Seq::empty(),
        methods: Seq::empty(),
        description: None,
        base_url: None,
    }
}

impl Default for BakeConfig {
    fn default() -> (r: Self)
        ensures
            r@ == empty_config(),
    {
        let r = BakeConfig {
            source_type: String::new(),
            source: String::new(),
            auth_headers: Vec::new(),
            env_vars: StringMap::new(),
            cache_ttl: None,
            transport: None,
            oauth: None,
            oauth_client_id: None,
            oauth_client_secret: None,
            oauth_scope: None,
            includes: Vec::new(),
            exclude: Vec::new(),
            methods: Vec::new(),
            description: None,
            base_url: None,
        };
        assert(r@ =~= empty_config());
        r
    }
}

impl Clone for BakeConfig {
    fn clone(&self) -> (r: Self)
        ensures
            r@ == self@,
    {
        BakeConfig {
            source_type: copy_string(&self.source_type),
            source: copy_string(&self.source),
            auth_headers: copy_strings(&self.auth_headers),
            env_vars: self.env_vars.clone(),
            cache_ttl: self.cache_ttl,
            transport: copy_opt_string(&self.transport),
            oauth: self.oauth,
            oauth_client_id: copy_opt_string(&self.oauth_client_id),
            oauth_client_secret: copy_opt_string(&self.oauth_client_secret),
            oauth_scope: copy_opt_string(&self.oauth_scope),
            includes: copy_strings(&self.includes),
            exclude: copy_strings(&self.exclude),
            methods: copy_strings(&self.methods),
            description: copy_opt_string(&self.description),
            base_url: copy_opt_string(&self.base_url),
        }
    }
}

// ---------------------------------------------------------------------------
// Names
// ---------------------------------------------------------------------------

pub open spec fn name_char_ok(c: char) -> bool {
    is_ascii_lower(c) || is_ascii_digit(c) || c == '-'
}

/// The index of the first character after the first one that a name may not hold.
pub open spec fn first_bad_from(name: Seq<char>, k: int) -> Option<int>
    decreases name.len() - k,
{
    if k < 1 || k >= name.len() {
        None
    } else if !name_char_ok(name[k]) {
        Some(k)
    } else {
        first_bad_from(name, k + 1)
    }
}

/// A bake name matches `[a-z][a-z0-9-]*`.
pub open spec fn valid_name(name: Seq<char>) -> bool {
    name.len() > 0 && is_ascii_lower(name[0]) && forall|i: int| 1 <= i < name.len() ==> name_char_ok(#[trigger] name[i])
}

/// What `validate_name` reports for `name`.
pub open spec fn validate_name_spec(name: Seq<char>) -> Result<(), ErrorView> {
    if name.len() == 0 {
        Err(ErrorView::Cli("Bake name cannot be empty"@))
    } else if !is_ascii_lower(name[0]) {
        Err(ErrorView::Cli("Bake name must start with a lowercase letter, got '"@ + name + "'"@))
    } else {
        match first_bad_from(name, 1) {
            Some(k) => Err(ErrorView::Cli(
                "Bake name can only contain lowercase letters, digits, and hyphens, got '"@
                    + seq![name[k]] + "' in '"@ + name + "'"@,
            )),
            None => Ok(()),
        }
    }
}

pub proof fn lemma_first_bad(name: Seq<char>, k: int)
    requires
        1 <= k,
    ensures
        first_bad_from(name, k) matches Some(m) ==> k <= m < name.len() && !name_char_ok(name[m]),
        first_bad_from(name, k) is None ==> forall|i: int| k <= i < name.len() ==> name_char_ok(#[trigger] name[i]),
    decreases name.len() - k,
{
    if k < name.len() && name_char_ok(name[k]) {
        lemma_first_bad(name, k + 1);
    }
}

/// Validate a bake config name: must match [a-z][a-z0-9-]*.
pub fn validate_name(name: &str) -> (r: Result<(), AppError>)
    ensures
        crate::error::result_view(r) == validate_name_spec(name@),
        r is Ok <==> valid_name(name@),
{
    proof {
        lemma_first_bad(name@, 1);
    }
    let v = chars_of(name);
    if v.len() == 0 {
        return Err(AppError::Cli("Bake name cannot be empty".to_string()));
    }
    let first = v[0];
    if !('a' <= first && first <= 'z') {
        return Err(AppError::Cli(concat3("Bake name must start with a lowercase letter, got '", name, "'")));
    }
    let mut i: usize = 1;
    while i < v.len()
        invariant
            1 <= i <= v@.len(),
            v@ == name@,
            is_ascii_lower(name@[0]),
            first_bad_from(name@, 1) == first_bad_from(name@, i as int),
        decreases v@.len() - i,
    {
        let ch = v[i];
        if !(('a' <= ch && ch <= 'z') || ('0' <= ch && ch <= '9') || ch == '-') {
            let mut one: Vec<char> = Vec::new();
            one.push(ch);
            let chs = string_of(&one);
            let head = concat3(
                "Bake name can only contain lowercase letters, digits, and hyphens, got '",
                chs.as_str(),
                "' in '",
            );
            assert(one@ =~= seq![name@[i as int]]);
            assert(first_bad_from(name@, i as int) == Some(i as int));
            return Err(AppError::Cli(concat3(head.as_str(), name, "'")));
        }
        i = i + 1;
    }
    Ok(())
}

// ---------------------------------------------------------------------------
// Masking
// ---------------------------------------------------------------------------

/// The number of bytes in the UTF-8 encoding of `s`, as `str::len` returns it.
pub open spec fn utf8_len(s: Seq<char>) -> nat {
    (vstd::utf8::encode_utf8(s).len() as usize) as nat
}

/// Whether a header value looks like a secret that should be masked.
pub open spec fn is_secret(value: Seq<char>) -> bool {
    starts_with(value, "env:"@) || starts_with(value, "file:"@) || utf8_len(value) > 20
}

/// A header line with a secret value shown as `***`.
pub open spec fn mask_header(h: Seq<char>) -> Seq<char> {
    match split_once(h, ':') {
        Some((key, rest)) => if is_secret(trim(rest)) {
            key + ": ***"@
        } else {
            h
        },
        None => h,
    }
}

/// `config` with secret header values and the client secret masked.
pub open spec fn masked_config(c: BakeConfigView) -> BakeConfigView {
    BakeConfigView {
        auth_headers: c.auth_headers.map_values(|h: Seq<char>| mask_header(h)),
        oauth_client_secret: match c.oauth_client_secret {
            Some(_) => Some("***"@),
            None => None,
        },
        ..c
    }
}

/// Check if a value looks like a secret that should be masked.
pub fn is_secret_value(value: &str) -> (r: bool)
    ensures
        r == is_secret(value@),
{
    starts_with_str(value, "env:") || starts_with_str(value, "file:") || value.len() > 20
}

fn mask_header_line(h: &String) -> (r: String)
    ensures
        r@ == mask_header(h@),
{
    match split_once_char(h.as_str(), ':') {
        Some((key, rest)) => {
            let value = trim_str(rest.as_str());
            if is_secret_value(value.as_str()) {
                concat(key.as_str(), ": ***")
            } else {
                h.clone()
            }
        },
        None => h.clone(),
    }
}

/// Mask secrets in a BakeConfig for display purposes.
pub fn mask_secrets(config: &BakeConfig) -> (r: BakeConfig)
    ensures
        r@ == masked_config(config@),
{
    let mut masked = config.clone();
    let mut headers: Vec<String> = Vec::new();
    let mut i: usize = 0;
    while i < config.auth_headers.len()
        invariant
            i <= config.auth_headers@.len(),
            headers@.len() == i,
            forall|j: int| 0 <= j < i ==> (#[trigger] headers@[j])@ == mask_header(config.auth_headers@[j]@),
        decreases config.auth_headers@.len() - i,
    {
        headers.push(mask_header_line(&config.auth_headers[i]));
        i = i + 1;
    }
    masked.auth_headers = headers;
    masked.oauth_client_secret = match &config.oauth_client_secret {
        Some(_) => Some("***".to_string()),
        None => None,
    };
    assert(views(masked.auth_headers@) =~= views(config.auth_headers@).map_values(|h: Seq<char>| mask_header(h)));
    assert(masked@ =~= masked_config(config@));
    masked
}

// ---------------------------------------------------------------------------
// Parsing `bake create` / `bake update` arguments
// ---------------------------------------------------------------------------

pub open spec fn value_at(args: Seq<Seq<char>>, i: int) -> Option<Seq<char>> {
    if 0 <= i < args.len() {
        Some(args[i])
    } else {
        None
    }
}

pub open spec fn missing_value(flag: Seq<char>) -> ErrorView {
    ErrorView::Cli("Missing value for "@ + flag)
}

/// The pieces of a comma-separated value, trimmed, without the empty ones.
pub open spec fn clean_parts(value: Seq<char>) -> Seq<Seq<char>> {
    split(value, ',').map_values(|p: Seq<char>| trim(p)).filter(|p: Seq<char>| p.len() > 0)
}

/// The flags that `bake update` may change.
pub open spec fn update_allowed(arg: Seq<char>) -> bool {
    ||| arg == "--cache-ttl"@
    ||| arg == "--include"@
    ||| arg == "--exclude"@
    ||| arg == "--methods"@
    ||| arg == "--description"@
    ||| arg == "--base-url"@
    ||| arg == "--transport"@
}

/// What the flag at `args[i]` does to `c`: the new configuration and the index of the
/// next flag, or the error.
pub open spec fn flag_step(args: Seq<Seq<char>>, i: int, c: BakeConfigView) -> Result<(BakeConfigView, int), ErrorView> {
    let arg = args[i];
    let next = value_at(args, i + 1);
    if arg == "--oauth"@ {
        Ok((BakeConfigView { oauth: Some(true), ..c }, i + 1))
    } else if arg == "--mcp"@ || arg == "--mcp-stdio"@ || arg == "--spec"@ || arg == "--graphql"@
        || arg == "--auth-header"@ || arg == "--env"@ || arg == "--transport"@ || arg
        == "--cache-ttl"@ || arg == "--oauth-client-id"@ || arg == "--oauth-client-secret"@ || arg
        == "--oauth-scope"@ || arg == "--include"@ || arg == "--exclude"@ || arg == "--methods"@
        || arg == "--description"@ || arg == "--base-url"@ {
        match next {
            None => Err(missing_value(arg)),
            Some(v) => {
                if arg == "--mcp"@ {
                    Ok((BakeConfigView { source_type: "mcp"@, source: v, ..c }, i + 2))
                } else if arg == "--mcp-stdio"@ {
                    Ok((BakeConfigView { source_type: "mcp_stdio"@, source: v, ..c }, i + 2))
                } else if arg == "--spec"@ {
                    Ok((BakeConfigView { source_type: "spec"@, source: v, ..c }, i + 2))
                } else if arg == "--graphql"@ {
                    Ok((BakeConfigView { source_type: "graphql"@, source: v, ..c }, i + 2))
                } else if arg == "--auth-header"@ {
                    match split_once(v, ':') {
                        Some(_) => Ok((BakeConfigView { auth_headers: c.auth_headers.push(v), ..c }, i + 2)),
                        None => Err(ErrorView::Cli(
                            "Invalid --auth-header format: expected 'Key:Value', got '"@ + v + "'"@,
                        )),
                    }
                } else if arg == "--env"@ {
                    match split_once(v, '=') {
                        Some((key, value)) => Ok((BakeConfigView { env_vars: map_insert(c.env_vars, key, value), ..c }, i + 2)),
                        None => Err(ErrorView::Cli(
                            "Invalid --env format: expected 'KEY=VALUE', got '"@ + v + "'"@,
                        )),
                    }
                } else if arg == "--transport"@ {
                    Ok((BakeConfigView { transport: Some(v), ..c }, i + 2))
                } else if arg == "--cache-ttl"@ {
                    match parse_u64_spec(v) {
                        Some(n) => Ok((BakeConfigView { cache_ttl: Some(n), ..c }, i + 2)),
                        None => Err(ErrorView::Cli("Invalid --cache-ttl value: "@ + v)),
                    }
                } else if arg == "--oauth-client-id"@ {
                    Ok((BakeConfigView { oauth_client_id: Some(v), ..c }, i + 2))
                } else if arg == "--oauth-client-secret"@ {
                    Ok((BakeConfigView { oauth_client_secret: Some(v), ..c }, i + 2))
                } else if arg == "--oauth-scope"@ {
                    Ok((BakeConfigView { oauth_scope: Some(v), ..c }, i + 2))
                } else if arg == "--include"@ {
                    Ok((BakeConfigView { includes: c.includes + clean_parts(v), ..c }, i + 2))
                } else if arg == "--exclude"@ {
                    Ok((BakeConfigView { exclude: c.exclude + clean_parts(v), ..c }, i + 2))
                } else if arg == "--methods"@ {
                    Ok((BakeConfigView { methods: c.methods.push(v), ..c }, i + 2))
                } else if arg == "--description"@ {
                    Ok((BakeConfigView { description: Some(v), ..c }, i + 2))
                } else {
                    Ok((BakeConfigView { base_url: Some(v), ..c }, i + 2))
                }
            },
        }
    } else {
        Err(ErrorView::Cli("Unknown bake argument: "@ + arg))
    }
}

/// The update error for a flag that `bake update` does not take.
pub open spec fn not_updatable(arg: Seq<char>) -> ErrorView {
    ErrorView::Cli(
        "Cannot update field '"@ + arg
            + "'. Only --cache-ttl, --include, --exclude, --methods, --description, --base-url, and --transport can be updated."@,
    )
}

/// Reading the flags from `args[i]` on into `c`.
pub open spec fn parse_from(args: Seq<Seq<char>>, i: int, c: BakeConfigView, update_only: bool) -> Result<BakeConfigView, ErrorView>
    decreases args.len() - i,
{
    if i < 0 || i >= args.len() {
        Ok(c)
    } else if update_only && !update_allowed(args[i]) {
        Err(not_updatable(args[i]))
    } else {
        match flag_step(args, i, c) {
            Ok((c2, j)) => if j > i {
                parse_from(args, j, c2, update_only)
            } else {
                Ok(c2)
            },
            Err(e) => Err(e),
        }
    }
}

/// What `parse_bake_args_inner` makes of `args`.
pub open spec fn parse_bake_spec(args: Seq<Seq<char>>, require_source: bool, update_only: bool) -> Result<BakeConfigView, ErrorView> {
    match parse_from(args, 0, empty_config(), update_only) {
        Ok(c) => if require_source && c.source.len() == 0 {
            Err(ErrorView::Cli("Must specify a source: --mcp, --mcp-stdio, --spec, or --graphql"@))
        } else {
            Ok(c)
        },
        Err(e) => Err(e),
    }
}

/// Get the next value for a flag, advancing the index.
pub fn next_val(args: &Vec<String>, i: &mut usize, flag: &str) -> (r: Result<String, AppError>)
    requires
        *old(i) < usize::MAX,
    ensures
        *final(i) == *old(i) + 1,
        match r {
            Ok(v) => value_at(views(args@), *old(i) + 1) == Some(v@),
            Err(e) => value_at(views(args@), *old(i) + 1) is None && e@ == missing_value(flag@),
        },
{
    let n = args.len();
    *i = *i + 1;
    if *i < n {
        Ok(args[*i].clone())
    } else {
        Err(AppError::Cli(concat("Missing value for ", flag)))
    }
}

/// The trimmed, non-empty pieces of a comma-separated value.
fn clean_parts_exec(value: &str) -> (r: Vec<String>)
    ensures
        views(r@) == clean_parts(value@),
{
    let pieces = split_char(value, ',');
    let ghost trimmed = split(value@, ',').map_values(|p: Seq<char>| trim(p));
    let ghost pred = |p: Seq<char>| p.len() > 0;
    let mut out: Vec<String> = Vec::new();
    let mut i: usize = 0;
    assert(views(out@) =~= trimmed.take(0).filter(pred)) by {
        reveal(Seq::filter);
    }
    while i < pieces.len()
        invariant
            i <= pieces@.len(),
            views(pieces@) == split(value@, ','),
            trimmed == split(value@, ',').map_values(|p: Seq<char>| trim(p)),
            pred == (|p: Seq<char>| p.len() > 0),
            views(out@) == trimmed.take(i as int).filter(pred),
        decreases pieces@.len() - i,
    {
        let t = trim_str(pieces[i].as_str());
        let ghost old_out = out@;
        assert(t@ == trimmed[i as int]);
        let keep = !t.as_str().is_empty();
        if keep {
            out.push(t);
        }
        proof {
            reveal(Seq::filter);
            assert(trimmed.take(i + 1).drop_last() =~= trimmed.take(i as int));
            if keep {
                assert(views(out@) =~= views(old_out).push(trimmed[i as int]));
            } else {
                assert(views(out@) =~= views(old_out));
            }
        }
        i = i + 1;
    }
    assert(trimmed.take(pieces@.len() as int) =~= trimmed);
    out
}

fn push_all(dst: &mut Vec<String>, src: Vec<String>)
    ensures
        views(final(dst)@) == views(old(dst)@) + views(src@),
{
    let mut k: usize = 0;
    while k < src.len()
        invariant
            k <= src@.len(),
            views(dst@) == views(old(dst)@) + views(src@.take(k as int)),
        decreases src@.len() - k,
    {
        let ghost before = dst@;
        let c = src[k].clone();
        dst.push(c);
        assert(views(dst@) =~= views(before).push(src@[k as int]@));
        assert(src@.take(k + 1) =~= src@.take(k as int).push(src@[k as int]));
        assert(views(src@.take(k + 1)) =~= views(src@.take(k as int)).push(src@[k as int]@));
        assert(views(dst@) =~= views(old(dst)@) + views(src@.take(k + 1)));
        k = k + 1;
    }
    assert(src@.take(k as int) =~= src@);
}

/// Apply the flag at `args[i]` to `config`; the index of the next flag on success.
fn apply_flag(args: &Vec<String>, i: usize, config: &mut BakeConfig) -> (r: Result<usize, AppError>)
    requires
        i < args@.len(),
    ensures
        match r {
            Ok(j) => flag_step(views(args@), i as int, old(config)@) == Ok::<(BakeConfigView, int), ErrorView>((final(config)@, j as int))
                && i < j <= args@.len(),
            Err(e) => flag_step(views(args@), i as int, old(config)@) == Err::<(BakeConfigView, int), ErrorView>(e@),
        },
{
    let n = args.len();
    let arg = args[i].as_str();
    let mut j = i;
    assert(views(args@)[i as int] == arg@);
    if str_eq(arg, "--oauth") {
        config.oauth = Some(true);
        return Ok(i + 1);
    }
    if str_eq(arg, "--mcp") || str_eq(arg, "--mcp-stdio") || str_eq(arg, "--spec") || str_eq(arg, "--graphql")
        || str_eq(arg, "--auth-header") || str_eq(arg, "--env") || str_eq(arg, "--transport")
        || str_eq(arg, "--cache-ttl") || str_eq(arg, "--oauth-client-id")
        || str_eq(arg, "--oauth-client-secret") || str_eq(arg, "--oauth-scope") || str_eq(arg, "--include")
        || str_eq(arg, "--exclude") || str_eq(arg, "--methods") || str_eq(arg, "--description")
        || str_eq(arg, "--base-url") {
        let v = match next_val(args, &mut j, arg) {
            Ok(v) => v,
            Err(e) => return Err(e),
        };
        assert(j < n);
        if str_eq(arg, "--mcp") {
            config.source_type = "mcp".to_string();
            config.source = v;
        } else if str_eq(arg, "--mcp-stdio") {
            config.source_type = "mcp_stdio".to_string();
            config.source = v;
        } else if str_eq(arg, "--spec") {
            config.source_type = "spec".to_string();
            config.source = v;
        } else if str_eq(arg, "--graphql") {
            config.source_type = "graphql".to_string();
            config.source = v;
        } else if str_eq(arg, "--auth-header") {
            match split_once_char(v.as_str(), ':') {
                Some(_) => {
                    config.auth_headers.push(v);
                },
                None => {
                    return Err(AppError::Cli(concat3(
                        "Invalid --auth-header format: expected 'Key:Value', got '",
                        v.as_str(),
                        "'",
                    )));
                },
            }
        } else if str_eq(arg, "--env") {
            match split_once_char(v.as_str(), '=') {
                Some((key, value)) => {
                    config.env_vars.insert(key, value);
                },
                None => {
                    return Err(AppError::Cli(concat3(
                        "Invalid --env format: expected 'KEY=VALUE', got '",
                        v.as_str(),
                        "'",
                    )));
                },
            }
        } else if str_eq(arg, "--transport") {
            config.transport = Some(v);
        } else if str_eq(arg, "--cache-ttl") {
            match parse_u64(v.as_str()) {
                Some(n) => {
                    config.cache_ttl = Some(n);
                },
                None => {
                    return Err(AppError::Cli(concat("Invalid --cache-ttl value: ", v.as_str())));
                },
            }
        } else if str_eq(arg, "--oauth-client-id") {
            config.oauth_client_id = Some(v);
        } else if str_eq(arg, "--oauth-client-secret") {
            config.oauth_client_secret = Some(v);
        } else if str_eq(arg, "--oauth-scope") {
            config.oauth_scope = Some(v);
        } else if str_eq(arg, "--include") {
            // Support comma-separated values
            let parts = clean_parts_exec(v.as_str());
            push_all(&mut config.includes, parts);
        } else if str_eq(arg, "--exclude") {
            let parts = clean_parts_exec(v.as_str());
            push_all(&mut config.exclude, parts);
        } else if str_eq(arg, "--methods") {
            config.methods.push(v);
        } else if str_eq(arg, "--description") {
            config.description = Some(v);
        } else {
            config.base_url = Some(v);
        }
        proof {
            assert(views(config.auth_headers@) =~= views(old(config).auth_headers@).push(v@) || views(config.auth_headers@) == views(old(config).auth_headers@));
            assert(views(config.methods@) =~= views(old(config).methods@).push(v@) || views(config.methods@) == views(old(config).methods@));
        }
        assert(config@ =~= flag_step(views(args@), i as int, old(config)@)->Ok_0.0);
        return Ok(i + 2);
    }
    Err(AppError::Cli(concat("Unknown bake argument: ", arg)))
}

fn is_update_allowed(arg: &str) -> (r: bool)
    ensures
        r == update_allowed(arg@),
{
    str_eq(arg, "--cache-ttl") || str_eq(arg, "--include") || str_eq(arg, "--exclude")
        || str_eq(arg, "--methods") || str_eq(arg, "--description") || str_eq(arg, "--base-url")
        || str_eq(arg, "--transport")
}

/// Parse the arguments after `bake create NAME` or `bake update NAME` into a BakeConfig.
pub fn parse_bake_args_inner(args: &Vec<String>, require_source: bool, update_only: bool) -> (r: Result<BakeConfig, AppError>)
    ensures
        crate::error::result_view(r) == parse_bake_spec(views(args@), require_source, update_only),
{
    let ghost a = views(args@);
    let mut config = BakeConfig::default();
    let mut i: usize = 0;
    while i < args.len()
        invariant
            i <= args@.len(),
            a == views(args@),
            parse_from(a, 0, empty_config(), update_only) == parse_from(a, i as int, config@, update_only),
        decreases args@.len() - i,
    {
        assert(a[i as int] == args@[i as int]@);
        if update_only && !is_update_allowed(args[i].as_str()) {
            return Err(AppError::Cli(concat3(
                "Cannot update field '",
                args[i].as_str(),
                "'. Only --cache-ttl, --include, --exclude, --methods, --description, --base-url, and --transport can be updated.",
            )));
        }
        match apply_flag(args, i, &mut config) {
            Ok(j) => {
                i = j;
            },
            Err(e) => {
                return Err(e);
            },
        }
    }
    if require_source && config.source.as_str().is_empty() {
        return Err(AppError::Cli("Must specify a source: --mcp, --mcp-stdio, --spec, or --graphql".to_string()));
    }
    Ok(config)
}

/// Parse trailing args from `bake create NAME <args>` into a BakeConfig.
pub fn parse_bake_args(args: &Vec<String>) -> (r: Result<BakeConfig, AppError>)
    ensures
        crate::error::result_view(r) == parse_bake_spec(views(args@), true, false),
{
    parse_bake_args_inner(args, true, false)
}

/// Parse trailing args for `bake update`, which only allows a subset of fields.
pub fn parse_bake_args_update(args: &Vec<String>) -> (r: Result<BakeConfig, AppError>)
    ensures
        crate::error::result_view(r) == parse_bake_spec(views(args@), false, true),
{
    parse_bake_args_inner(args, false, true)
}

// ---------------------------------------------------------------------------
// Merging and the command line of a saved configuration
// ---------------------------------------------------------------------------

pub open spec fn or_else<T>(a: Option<T>, b: Option<T>) -> Option<T> {
    match a {
        Some(x) => Some(x),
        None => b,
    }
}

/// The first sequence where it is not empty, else the second.
pub open spec fn or_nonempty<T>(a: Seq<T>, b: Seq<T>) -> Seq<T> {
    if a.len() == 0 { b } else { a }
}

/// `base` with every field that `updates` sets taken from `updates`: an option that is
/// `Some`, a text or a list that is not empty. (`bake update` only sets the cache
/// lifetime, transport, filters, description and base URL: `parse_bake_args_update`
/// refuses the other flags.)
pub open spec fn merged(base: BakeConfigView, updates: BakeConfigView) -> BakeConfigView {
    BakeConfigView {
        source_type: or_nonempty(updates.source_type, base.source_type),
        source: or_nonempty(updates.source, base.source),
        auth_headers: or_nonempty(updates.auth_headers, base.auth_headers),
        env_vars: or_nonempty(updates.env_vars, base.env_vars),
        cache_ttl: or_else(updates.cache_ttl, base.cache_ttl),
        transport: or_else(updates.transport, base.transport),
        oauth: or_else(updates.oauth, base.oauth),
        oauth_client_id: or_else(updates.oauth_client_id, base.oauth_client_id),
        oauth_client_secret: or_else(updates.oauth_client_secret, base.oauth_client_secret),
        oauth_scope: or_else(updates.oauth_scope, base.oauth_scope),
        includes: or_nonempty(updates.includes, base.includes),
        exclude: or_nonempty(updates.exclude, base.exclude),
        methods: or_nonempty(updates.methods, base.methods),
        description: or_else(updates.description, base.description),
        base_url: or_else(updates.base_url, base.base_url),
    }
}

/// Law: merging a configuration that sets nothing changes nothing.
pub proof fn lemma_merge_nothing(base: BakeConfigView)
    ensures
        merged(base, empty_config()) == base,
{
    assert(merged(base, empty_config()) =~= base);
}

/// Law: merging the same updates a second time changes nothing more.
pub proof fn lemma_merge_idempotent(base: BakeConfigView, updates: BakeConfigView)
    ensures
        merged(merged(base, updates), updates) == merged(base, updates),
{
    assert(merged(merged(base, updates), updates) =~= merged(base, updates));
}

fn or_string(a: Option<String>, b: Option<String>) -> (r: Option<String>)
    ensures
        opt_view(r) == or_else(opt_view(a), opt_view(b)),
{
    match a {
        Some(x) => Some(x),
        None => b,
    }
}

/// Merge updates into an existing config. Non-default fields in `updates` override `base`.
pub fn merge_config(base: BakeConfig, updates: BakeConfig) -> (r: BakeConfig)
    ensures
        r@ == merged(base@, updates@),
{
    let r = BakeConfig {
        source_type: if updates.source_type.as_str().is_empty() { base.source_type } else { updates.source_type },
        source: if updates.source.as_str().is_empty() { base.source } else { updates.source },
        auth_headers: if updates.auth_headers.len() == 0 { base.auth_headers } else { updates.auth_headers },
        env_vars: if updates.env_vars.len() == 0 { base.env_vars } else { updates.env_vars },
        cache_ttl: match updates.cache_ttl {
            Some(t) => Some(t),
            None => base.cache_ttl,
        },
        transport: or_string(updates.transport, base.transport),
        oauth: match updates.oauth {
            Some(o) => Some(o),
            None => base.oauth,
        },
        oauth_client_id: or_string(updates.oauth_client_id, base.oauth_client_id),
        oauth_client_secret: or_string(updates.oauth_client_secret, base.oauth_client_secret),
        oauth_scope: or_string(updates.oauth_scope, base.oauth_scope),
        includes: if updates.includes.len() == 0 { base.includes } else { updates.includes },
        exclude: if updates.exclude.len() == 0 { base.exclude } else { updates.exclude },
        methods: if updates.methods.len() == 0 { base.methods } else { updates.methods },
        description: or_string(updates.description, base.description),
        base_url: or_string(updates.base_url, base.base_url),
    };
    assert(r@ =~= merged(base@, updates@));
    r
}

/// The command-line flag of a source type; unknown types fall back to `--mcp`.
pub open spec fn source_flag(t: Seq<char>) -> Seq<char> {
    if t == "mcp"@ {
        "--mcp"@
    } else if t == "mcp_stdio"@ {
        "--mcp-stdio"@
    } else if t == "spec"@ {
        "--spec"@
    } else if t == "graphql"@ {
        "--graphql"@
    } else {
        "--mcp"@
    }
}

/// `flag item` for each item, in order.
pub open spec fn flag_each(flag: Seq<char>, items: Seq<Seq<char>>) -> Seq<Seq<char>>
    decreases items.len(),
{
    if items.len() == 0 {
        Seq::empty()
    } else {
        flag_each(flag, items.drop_last()) + seq![flag, items.last()]
    }
}

pub open spec fn opt_flag(flag: Seq<char>, v: Option<Seq<char>>) -> Seq<Seq<char>> {
    match v {
        Some(x) => seq![flag, x],
        None => Seq::empty(),
    }
}

/// `--env KEY=VALUE` for each variable, in order.
pub open spec fn env_args(env: Seq<(Seq<char>, Seq<char>)>) -> Seq<Seq<char>>
    decreases env.len(),
{
    if env.len() == 0 {
        Seq::empty()
    } else {
        env_args(env.drop_last()) + seq!["--env"@, env.last().0 + "="@ + env.last().1]
    }
}

/// `--cache-ttl N` where a lifetime is set.
pub open spec fn cache_args(t: Option<u64>) -> Seq<Seq<char>> {
    match t {
        Some(n) => seq!["--cache-ttl"@, nat_text(n as nat)],
        None => Seq::empty(),
    }
}

/// `--oauth` where OAuth is switched on.
pub open spec fn oauth_args(o: Option<bool>) -> Seq<Seq<char>> {
    if o == Some(true) {
        seq!["--oauth"@]
    } else {
        Seq::empty()
    }
}

/// The command line that recreates a saved configuration.
pub open spec fn baked_argv(c: BakeConfigView) -> Seq<Seq<char>> {
    seq![source_flag(c.source_type), c.source]
        + flag_each("--auth-header"@, c.auth_headers)
        + opt_flag("--transport"@, c.transport)
        + cache_args(c.cache_ttl)
        + oauth_args(c.oauth)
        + opt_flag("--oauth-client-id"@, c.oauth_client_id)
        + opt_flag("--oauth-client-secret"@, c.oauth_client_secret)
        + opt_flag("--oauth-scope"@, c.oauth_scope)
        + flag_each("--include"@, c.includes)
        + flag_each("--exclude"@, c.exclude)
        + flag_each("--methods"@, c.methods)
        + opt_flag("--base-url"@, c.base_url)
        + env_args(c.env_vars)
}

fn push_str(argv: &mut Vec<String>, s: &str)
    ensures
        views(final(argv)@) == views(old(argv)@).push(s@),
{
    argv.push(s.to_string());
    assert(views(argv@) =~= views(old(argv)@).push(s@));
}

fn push_flag_each(argv: &mut Vec<String>, flag: &str, items: &Vec<String>)
    ensures
        views(final(argv)@) == views(old(argv)@) + flag_each(flag@, views(items@)),
{
    let mut k: usize = 0;
    assert(views(items@).take(0) =~= Seq::<Seq<char>>::empty());
    assert(views(argv@) =~= views(old(argv)@) + flag_each(flag@, views(items@).take(0)));
    while k < items.len()
        invariant
            k <= items@.len(),
            views(argv@) == views(old(argv)@) + flag_each(flag@, views(items@).take(k as int)),
        decreases items@.len() - k,
    {
        push_str(argv, flag);
        push_str(argv, items[k].as_str());
        assert(views(items@).take(k + 1).drop_last() =~= views(items@).take(k as int));
        assert(views(argv@) =~= views(old(argv)@) + flag_each(flag@, views(items@).take(k + 1)));
        k = k + 1;
    }
    assert(views(items@).take(items@.len() as int) =~= views(items@));
}

fn push_opt(argv: &mut Vec<String>, flag: &str, v: &Option<String>)
    ensures
        views(final(argv)@) == views(old(argv)@) + opt_flag(flag@, opt_view(*v)),
{
    match v {
        Some(x) => {
            push_str(argv, flag);
            push_str(argv, x.as_str());
            assert(views(argv@) =~= views(old(argv)@) + opt_flag(flag@, opt_view(*v)));
        },
        None => {
            assert(views(argv@) =~= views(old(argv)@) + opt_flag(flag@, opt_view(*v)));
        },
    }
}

/// Convert a BakeConfig back to CLI argv fragments.
/// Used by @NAME detection to reconstruct the full CLI invocation.
pub fn baked_to_argv(config: &BakeConfig) -> (r: Vec<String>)
    ensures
        views(r@) == baked_argv(config@),
{
    let mut argv: Vec<String> = Vec::new();
    let t = config.source_type.as_str();
    // Source flag
    let flag = if str_eq(t, "mcp") {
        "--mcp"
    } else if str_eq(t, "mcp_stdio") {
        "--mcp-stdio"
    } else if str_eq(t, "spec") {
        "--spec"
    } else if str_eq(t, "graphql") {
        "--graphql"
    } else {
        // Unknown source type: try --mcp as fallback
        "--mcp"
    };
    push_str(&mut argv, flag);
    push_str(&mut argv, config.source.as_str());
    let ghost p0 = views(argv@);
    assert(p0 =~= seq![source_flag(config@.source_type), config@.source]);
    // Auth headers
    push_flag_each(&mut argv, "--auth-header", &config.auth_headers);
    // Transport
    push_opt(&mut argv, "--transport", &config.transport);
    let ghost p1 = views(argv@);
    // Cache TTL
    match config.cache_ttl {
        Some(ttl) => {
            push_str(&mut argv, "--cache-ttl");
            let s = u64_text(ttl);
            push_str(&mut argv, s.as_str());
        },
        None => {},
    }
    let ghost p2 = views(argv@);
    assert(p2 =~= p1 + cache_args(config@.cache_ttl));
    // OAuth
    if config.oauth == Some(true) {
        push_str(&mut argv, "--oauth");
    }
    let ghost p3 = views(argv@);
    assert(p3 =~= p2 + oauth_args(config@.oauth));
    push_opt(&mut argv, "--oauth-client-id", &config.oauth_client_id);
    push_opt(&mut argv, "--oauth-client-secret", &config.oauth_client_secret);
    push_opt(&mut argv, "--oauth-scope", &config.oauth_scope);
    // Filters
    push_flag_each(&mut argv, "--include", &config.includes);
    push_flag_each(&mut argv, "--exclude", &config.exclude);
    push_flag_each(&mut argv, "--methods", &config.methods);
    // Base URL
    push_opt(&mut argv, "--base-url", &config.base_url);
    let ghost p4 = views(argv@);
    // Env vars
    let mut k: usize = 0;
    let ghost env = config.env_vars@;
    assert(env.take(0) =~= Seq::<(Seq<char>, Seq<char>)>::empty());
    assert(views(argv@) =~= p4 + env_args(env.take(0)));
    while k < config.env_vars.len()
        invariant
            k <= config.env_vars@.len(),
            env == config.env_vars@,
            views(argv@) == p4 + env_args(env.take(k as int)),
        decreases config.env_vars@.len() - k,
    {
        push_str(&mut argv, "--env");
        let entry = config.env_vars.entry(k);
        let kv = concat3(entry.0.as_str(), "=", entry.1.as_str());
        push_str(&mut argv, kv.as_str());
        assert(env.take(k + 1).drop_last() =~= env.take(k as int));
        assert(env[k as int] == (entry.0@, entry.1@));
        assert(views(argv@) =~= p4 + env_args(env.take(k + 1)));
        k = k + 1;
    }
    assert(env.take(env.len() as int) =~= env);
    assert(views(argv@) =~= baked_argv(config@));
    argv
}

} // verus!
