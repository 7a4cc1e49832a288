use vstd::prelude::*;
use crate::request::{url_encode, url_encoded};
use crate::text::{views, opt_view, concat, concat3, starts_with, ends_with, starts_with_str, ends_with_str, trim_end_char, trim_end_matches_char};

verus! {

// ---------------------------------------------------------------------------
// Tokens
// ---------------------------------------------------------------------------

/// OAuth token data stored on disk.
#[derive(Debug)]
pub struct OAuthTokens {
    pub access_token: String,
    pub token_type: String,
    pub refresh_token: Option<String>,
    /// Expiry as Unix timestamp (seconds since epoch).
    pub expires_at: Option<u64>,
    pub scope: Option<String>,
}

/// OAuth client registration info stored on disk.
#[derive(Debug)]
pub struct OAuthClientInfo {
    pub client_id: String,
    pub client_secret: Option<String>,
    pub token_endpoint: Option<String>,
    pub authorization_endpoint: Option<String>,
}

/// The seconds since the Unix epoch, as `SystemTime::now()` gives them (zero before
/// the epoch). Nothing is promised of the value: it is the clock's.
#[verifier::external_body]
fn unix_now() -> (r: u64) {
    std::time::SystemTime::now().duration_since(std::time::UNIX_EPOCH).unwrap_or_default().as_secs()
}

/// Whether tokens that expire at `expires_at` count as expired at `now`: within 30
/// seconds of the expiry or later; tokens without an expiry never do.
pub open spec fn expired_at(expires_at: Option<u64>, now: u64) -> bool {
    match expires_at {
        Some(exp) => now + 30 >= exp,
        None => false,
    }
}

/// Tokens that count as expired at some time count as expired at every later time.
pub proof fn lemma_expiry_monotone(expires_at: Option<u64>, earlier: u64, later: u64)
    requires
        earlier <= later,
        expired_at(expires_at, earlier),
    ensures
        expired_at(expires_at, later),
{
}

impl OAuthTokens {
    /// Whether the token has expired at `now` (with a 30-second buffer).
    pub fn is_expired_at(&self, now: u64) -> (r: bool)
        ensures
            r == expired_at(self.expires_at, now),
    {
        match self.expires_at {
            Some(exp) => exp <= now || exp - now <= 30,
            None => false,
        }
    }

    /// Check if the token has expired (with a 30-second buffer), by the clock: the
    /// answer is `is_expired_at` for the time read, whatever time that was.
    pub fn is_expired(&self) -> (r: bool)
        ensures
            exists|now: u64| r == #[trigger] expired_at(self.expires_at, now),
    {
        let now = unix_now();
        let r = self.is_expired_at(now);
        assert(r == expired_at(self.expires_at, now));
        r
    }
}

/// Standard OAuth2 token response.
#[derive(Debug)]
pub struct TokenResponse {
    pub access_token: String,
    pub token_type: String,
    pub refresh_token: Option<String>,
    pub expires_in: Option<u64>,
    pub scope: Option<String>,
}

/// The stored tokens for a response received at `now`: the expiry is `now` plus the
/// lifetime.
pub open spec fn tokens_from(resp: TokenResponse, now: u64) -> (Seq<char>, Seq<char>, Option<Seq<char>>, Option<int>, Option<Seq<char>>) {
    (
        resp.access_token@,
        resp.token_type@,
        opt_view(resp.refresh_token),
        match resp.expires_in {
            Some(secs) => Some(now + secs),
            None => None,
        },
        opt_view(resp.scope),
    )
}

pub open spec fn tokens_view(t: OAuthTokens) -> (Seq<char>, Seq<char>, Option<Seq<char>>, Option<int>, Option<Seq<char>>) {
    (
        t.access_token@,
        t.token_type@,
        opt_view(t.refresh_token),
        match t.expires_at {
            Some(e) => Some(e as int),
            None => None,
        },
        opt_view(t.scope),
    )
}

/// Convert a token response received at `now` into our storage format.
pub fn token_response_to_tokens_at(resp: TokenResponse, now: u64) -> (r: OAuthTokens)
    requires
        resp.expires_in matches Some(secs) ==> now + secs <= u64::MAX,
    ensures
        tokens_view(r) == tokens_from(resp, now),
{
    let expires_at = match resp.expires_in {
        Some(secs) => Some(now + secs),
        None => None,
    };
    OAuthTokens {
        access_token: resp.access_token,
        token_type: resp.token_type,
        refresh_token: resp.refresh_token,
        expires_at,
        scope: resp.scope,
    }
}

/// The expiry stored for a lifetime received at `now`: `now` plus the lifetime, held
/// at the largest timestamp where it would pass it.
pub open spec fn capped_expiry(expires_in: Option<u64>, now: u64) -> Option<u64> {
    match expires_in {
        Some(secs) => Some(if secs <= u64::MAX - now { (now + secs) as u64 } else { u64::MAX }),
        None => None,
    }
}

/// Convert a token response into our storage format, computing expires_at from
/// expires_in and the clock (an expiry past the largest timestamp is held at it).
pub fn token_response_to_tokens(resp: TokenResponse) -> (r: OAuthTokens)
    ensures
        exists|now: u64| r.expires_at == #[trigger] capped_expiry(resp.expires_in, now),
        r.access_token@ == resp.access_token@,
        r.token_type@ == resp.token_type@,
        opt_view(r.refresh_token) == opt_view(resp.refresh_token),
        r.expires_at is Some <==> resp.expires_in is Some,
        opt_view(r.scope) == opt_view(resp.scope),
{
    let now = unix_now();
    let expires_in = match resp.expires_in {
        Some(secs) => Some(if secs <= u64::MAX - now { secs } else { u64::MAX - now }),
        None => None,
    };
    let ghost given = resp.expires_in;
    let r = token_response_to_tokens_at(TokenResponse { expires_in, ..resp }, now);
    assert(r.expires_at == capped_expiry(given, now));
    r
}

/// What to do for an access token, given the stored tokens at `now`.
#[derive(Debug)]
pub enum TokenAction {
    /// The stored access token is still good.
    UseCached(String),
    /// Try this refresh token first; fetch new tokens if that fails.
    Refresh(String),
    /// Fetch new tokens.
    Fetch,
}

/// Decide how to get an access token: the stored one while it has not expired, else a
/// refresh where a refresh token is stored, else a new grant.
pub fn token_action(cached: &Option<OAuthTokens>, now: u64) -> (r: TokenAction)
    ensures
        match cached {
            Some(t) => if !expired_at(t.expires_at, now) {
                r is UseCached && r->UseCached_0@ == t.access_token@
            } else {
                match t.refresh_token {
                    Some(rt) => r is Refresh && r->Refresh_0@ == rt@,
                    None => r is Fetch,
                }
            },
            None => r is Fetch,
        },
{
    match cached {
        Some(tokens) => {
            if !tokens.is_expired_at(now) {
                return TokenAction::UseCached(tokens.access_token.clone());
            }
            match &tokens.refresh_token {
                Some(rt) => TokenAction::Refresh(rt.clone()),
                None => TokenAction::Fetch,
            }
        },
        None => TokenAction::Fetch,
    }
}

// ---------------------------------------------------------------------------
// Hashing and encoding
// ---------------------------------------------------------------------------

/// The SHA-256 digest of a byte string.
pub uninterp spec fn sha256_digest(bytes: Seq<u8>) -> Seq<u8>;

/// Calls `sha2::Sha256::digest` on the UTF-8 bytes of `s`; the digest is named by
/// `sha256_digest`, and is 32 bytes long.
#[verifier::external_body]
fn sha256_of_str(s: &str) -> (r: Vec<u8>)
    ensures
        r@ == sha256_digest(vstd::utf8::encode_utf8(s@)),
        r@.len() == 32,
{
    <sha2::Sha256 as sha2::Digest>::digest(s.as_bytes()).to_vec()
}

pub open spec fn hex_char(d: u8) -> char {
    if d < 10 {
        (d + 48) as char
    } else {
        (d + 87) as char
    }
}

/// Lower-case hexadecimal, two digits per byte.
pub open spec fn hex_text(bytes: Seq<u8>) -> Seq<char>
    decreases bytes.len(),
{
    if bytes.len() == 0 {
        Seq::empty()
    } else {
        hex_text(bytes.drop_last()) + seq![hex_char(bytes.last() / 16), hex_char(bytes.last() % 16)]
    }
}

proof fn lemma_hex_len(bytes: Seq<u8>)
    ensures
        hex_text(bytes).len() == 2 * bytes.len(),
    decreases bytes.len(),
{
    if bytes.len() > 0 {
        lemma_hex_len(bytes.drop_last());
    }
}

/// A lower-case hexadecimal digit.
pub open spec fn is_hex_digit(c: char) -> bool {
    ('0' <= c && c <= '9') || ('a' <= c && c <= 'f')
}

proof fn lemma_hex_digits(bytes: Seq<u8>)
    ensures
        forall|i: int| 0 <= i < hex_text(bytes).len() ==> is_hex_digit(#[trigger] hex_text(bytes)[i]),
    decreases bytes.len(),
{
    if bytes.len() > 0 {
        lemma_hex_digits(bytes.drop_last());
        let front = hex_text(bytes.drop_last());
        let t = hex_text(bytes);
        let b = bytes.last();
        assert(b / 16 < 16 && b % 16 < 16);
        assert forall|i: int| 0 <= i < t.len() implies is_hex_digit(#[trigger] t[i]) by {
            if i < front.len() {
                assert(t[i] == front[i]);
            } else {
                let d: u8 = if i == front.len() { b / 16 } else { b % 16 };
                assert(t[i] == hex_char(d));
            }
        }
    }
}

/// Calls `hex::encode`, which writes each byte as two lower-case hexadecimal digits.
#[verifier::external_body]
fn hex_encoded(bytes: &Vec<u8>) -> (r: String)
    ensures
        r@ == hex_text(bytes@),
{
    hex::encode(bytes)
}

/// A cache key for a source: the first 16 hexadecimal digits of its SHA-256.
pub open spec fn cache_key(source: Seq<char>) -> Seq<char> {
    hex_text(sha256_digest(vstd::utf8::encode_utf8(source))).take(16)
}

/// Compute a cache key from a source string: first 16 hex chars of SHA-256.
pub fn cache_key_for(source: &str) -> (r: String)
    ensures
        r@ == cache_key(source@),
        r@.len() == 16,
        forall|i: int| 0 <= i < 16 ==> is_hex_digit(#[trigger] r@[i]),
{
    let hash = sha256_of_str(source);
    let hex = hex_encoded(&hash);
    proof {
        lemma_hex_len(hash@);
        lemma_hex_digits(hash@);
    }
    let cs = crate::text::chars_of(hex.as_str());
    crate::text::string_of_range(&cs, 0, 16)
}

/// The cache directory: `MCP2CLI_CACHE_DIR` where set, else `mcp2cli` in the user's
/// cache directory, else `/tmp/mcp2cli`.
pub open spec fn cache_root(env_cache_dir: Option<Seq<char>>, user_cache_dir: Option<Seq<char>>) -> Seq<char> {
    match env_cache_dir {
        Some(d) => d,
        None => path_join(
            match user_cache_dir {
                Some(u) => u,
                None => "/tmp"@,
            },
            "mcp2cli"@,
        ),
    }
}

/// Return the cache directory from the value of `MCP2CLI_CACHE_DIR` (where set) and
/// the user's cache directory.
pub fn cache_dir(env_cache_dir: Option<String>, user_cache: Option<String>) -> (r: String)
    ensures
        r@ == cache_root(opt_view(env_cache_dir), opt_view(user_cache)),
{
    match env_cache_dir {
        Some(d) => d,
        None => {
            let root = match user_cache {
                Some(u) => u,
                None => "/tmp".to_string(),
            };
            join_path(root.as_str(), "mcp2cli")
        },
    }
}

/// Whether a cached file of age `age_secs` seconds and `age_nanos` nanoseconds beyond
/// them is still used under a lifetime of `ttl_secs` seconds: it is no older than that.
pub fn cache_fresh(age_secs: u64, age_nanos: u32, ttl_secs: u64) -> (r: bool)
    ensures
        r == (age_secs < ttl_secs || (age_secs == ttl_secs && age_nanos == 0)),
{
    age_secs < ttl_secs || (age_secs == ttl_secs && age_nanos == 0)
}

/// Unpadded URL-safe Base64 of a byte string.
/// The URL-safe Base64 digit for a six-bit value: `A`–`Z`, `a`–`z`, `0`–`9`, `-`, `_`.
pub open spec fn b64_digit(v: int) -> char {
    if v < 26 {
        (65 + v) as char
    } else if v < 52 {
        (97 + v - 26) as char
    } else if v < 62 {
        (48 + v - 52) as char
    } else if v == 62 {
        '-'
    } else {
        '_'
    }
}

/// Unpadded URL-safe Base64 (RFC 4648, section 5): each three bytes as four digits of
/// six bits, high bits first; a last one or two bytes as two or three digits.
pub open spec fn base64url(bytes: Seq<u8>) -> Seq<char>
    decreases bytes.len(),
{
    if bytes.len() == 0 {
        Seq::empty()
    } else if bytes.len() == 1 {
        let a = bytes[0] as int;
        seq![b64_digit(a / 4), b64_digit((a % 4) * 16)]
    } else if bytes.len() == 2 {
        let a = bytes[0] as int;
        let b = bytes[1] as int;
        seq![b64_digit(a / 4), b64_digit((a % 4) * 16 + b / 16), b64_digit((b % 16) * 4)]
    } else {
        let a = bytes[0] as int;
        let b = bytes[1] as int;
        let c = bytes[2] as int;
        seq![b64_digit(a / 4), b64_digit((a % 4) * 16 + b / 16), b64_digit((b % 16) * 4 + c / 64), b64_digit(c % 64)]
            + base64url(bytes.skip(3))
    }
}

/// Calls `encode` of base64's `URL_SAFE_NO_PAD` engine, which writes `base64url` of
/// the bytes, `(4n + 2) / 3` characters for `n` bytes.
#[verifier::external_body]
fn base64url_encode(data: &Vec<u8>) -> (r: String)
    ensures
        r@ == base64url(data@),
        r@.len() == (4 * data@.len() + 2) / 3,
{
    base64::Engine::encode(&base64::engine::general_purpose::URL_SAFE_NO_PAD, data)
}

/// Thirty-two bytes from `rand`'s thread-local generator; nothing is promised of them
/// but their number.
#[verifier::external_body]
fn random_bytes32() -> (r: Vec<u8>)
    ensures
        r@.len() == 32,
{
    let mut bytes = [0u8; 32];
    rand::RngCore::fill_bytes(&mut rand::thread_rng(), &mut bytes);
    bytes.to_vec()
}

/// Generate a PKCE code_verifier and code_challenge pair.
///
/// code_verifier: 32 random bytes, base64url-encoded (no padding)
/// code_challenge: SHA-256 of code_verifier, base64url-encoded (no padding)
pub fn generate_pkce_pair() -> (r: (String, String))
    ensures
        exists|b: Seq<u8>| b.len() == 32 && r.0@ == base64url(b),
        r.1@ == base64url(sha256_digest(vstd::utf8::encode_utf8(r.0@))),
        r.0@.len() == 43,
        r.1@.len() == 43,
{
    let verifier_bytes = random_bytes32();
    let code_verifier = base64url_encode(&verifier_bytes);
    let challenge_bytes = sha256_of_str(code_verifier.as_str());
    let code_challenge = base64url_encode(&challenge_bytes);
    (code_verifier, code_challenge)
}

/// The authorization URL with PKCE parameters.
pub open spec fn authorization_url(
    endpoint: Seq<char>,
    client_id: Seq<char>,
    redirect_uri: Seq<char>,
    code_challenge: Seq<char>,
    scope: Option<Seq<char>>,
) -> Seq<char> {
    endpoint + "?response_type=code&client_id="@ + url_encode(client_id) + "&redirect_uri="@ + url_encode(redirect_uri)
        + "&code_challenge="@ + code_challenge + "&code_challenge_method=S256"@ + match scope {
        Some(s) => "&scope="@ + url_encode(s),
        None => Seq::empty(),
    }
}

/// Build the authorization URL with PKCE parameters.
pub fn build_authorization_url(
    authorization_endpoint: &str,
    client_id: &str,
    redirect_uri: &str,
    code_challenge: &str,
    scope: Option<&str>,
) -> (r: String)
    ensures
        r@ == authorization_url(authorization_endpoint@, client_id@, redirect_uri@, code_challenge@, match scope {
            Some(s) => Some(s@),
            None => None,
        }),
{
    let a = concat(authorization_endpoint, "?response_type=code&client_id=");
    let cid = url_encoded(client_id);
    let b = concat3(a.as_str(), cid.as_str(), "&redirect_uri=");
    let ru = url_encoded(redirect_uri);
    let c = concat3(b.as_str(), ru.as_str(), "&code_challenge=");
    let mut url = concat3(c.as_str(), code_challenge, "&code_challenge_method=S256");
    match scope {
        Some(s) => {
            let enc = url_encoded(s);
            url = concat3(url.as_str(), "&scope=", enc.as_str());
        },
        None => {
            assert(url@ =~= url@ + Seq::<char>::empty());
        },
    }
    url
}

// ---------------------------------------------------------------------------
// Storage locations
// ---------------------------------------------------------------------------

/// `PathBuf::push` for a Unix path: an absolute component replaces the path; else it
/// is appended, with a `/` between where the path does not already end in one.
pub open spec fn path_join(base: Seq<char>, part: Seq<char>) -> Seq<char> {
    if starts_with(part, "/"@) {
        part
    } else if base.len() == 0 || ends_with(base, "/"@) {
        base + part
    } else {
        base + "/"@ + part
    }
}

pub fn join_path(base: &str, part: &str) -> (r: String)
    ensures
        r@ == path_join(base@, part@),
{
    if starts_with_str(part, "/") {
        part.to_string()
    } else if base.is_empty() || ends_with_str(base, "/") {
        concat(base, part)
    } else {
        concat3(base, "/", part)
    }
}

/// The directory OAuth data is kept under: `oauth` in the cache directory.
pub open spec fn oauth_dir(env_cache_dir: Option<Seq<char>>, user_cache_dir: Option<Seq<char>>) -> Seq<char> {
    path_join(cache_root(env_cache_dir, user_cache_dir), "oauth"@)
}

/// Return the OAuth cache directory from the value of `MCP2CLI_CACHE_DIR` (where set)
/// and the user's cache directory.
pub fn oauth_cache_dir(env_cache_dir: Option<String>, user_cache: Option<String>) -> (r: String)
    ensures
        r@ == oauth_dir(opt_view(env_cache_dir), opt_view(user_cache)),
{
    let base = cache_dir(env_cache_dir, user_cache);
    join_path(base.as_str(), "oauth")
}

/// Law: storages made on one base directory for two different keys of the same
/// non-zero length without a `/` (such as two different cache keys) keep their tokens
/// and their client information in four different files.
pub proof fn lemma_storage_files_disjoint(base: Seq<char>, k1: Seq<char>, k2: Seq<char>)
    requires
        k1 != k2,
        k1.len() == k2.len(),
        k1.len() > 0,
        forall|i: int| 0 <= i < k1.len() ==> #[trigger] k1[i] != '/',
        forall|i: int| 0 <= i < k2.len() ==> #[trigger] k2[i] != '/',
    ensures
        path_join(path_join(base, k1), "tokens.json"@) != path_join(path_join(base, k2), "tokens.json"@),
        path_join(path_join(base, k1), "client_info.json"@) != path_join(path_join(base, k2), "client_info.json"@),
        path_join(path_join(base, k1), "tokens.json"@) != path_join(path_join(base, k2), "client_info.json"@),
        path_join(path_join(base, k1), "client_info.json"@) != path_join(path_join(base, k2), "tokens.json"@),
        path_join(path_join(base, k1), "tokens.json"@) != path_join(path_join(base, k1), "client_info.json"@),
{
    reveal_strlit("/");
    reveal_strlit("tokens.json");
    reveal_strlit("client_info.json");
    let p = if base.len() == 0 || ends_with(base, "/"@) { base } else { base + "/"@ };
    assert(!starts_with(k1, "/"@)) by { assert(k1.take(1)[0] == k1[0]); }
    assert(!starts_with(k2, "/"@)) by { assert(k2.take(1)[0] == k2[0]); }
    let d1 = path_join(base, k1);
    let d2 = path_join(base, k2);
    assert(d1 == p + k1);
    assert(d2 == p + k2);
    assert(d1 != d2) by {
        if d1 == p + k2 {
            assert(k1 =~= d1.skip(p.len() as int));
            assert(k2 =~= (p + k2).skip(p.len() as int));
        }
    }
    assert(!ends_with(d1, "/"@)) by {
        assert(d1.skip(d1.len() - 1)[0] == k1[k1.len() - 1]);
    }
    assert(!ends_with(d2, "/"@)) by {
        assert(d2.skip(d2.len() - 1)[0] == k2[k2.len() - 1]);
    }
    assert(!starts_with("tokens.json"@, "/"@)) by { assert("tokens.json"@.take(1)[0] == 't'); }
    assert(!starts_with("client_info.json"@, "/"@)) by { assert("client_info.json"@.take(1)[0] == 'c'); }
    let t1 = path_join(d1, "tokens.json"@);
    let t2 = path_join(d2, "tokens.json"@);
    let c1 = path_join(d1, "client_info.json"@);
    let c2 = path_join(d2, "client_info.json"@);
    assert(t1 == d1 + "/"@ + "tokens.json"@);
    assert(t2 == d2 + "/"@ + "tokens.json"@);
    assert(c1 == d1 + "/"@ + "client_info.json"@);
    assert(c2 == d2 + "/"@ + "client_info.json"@);
    assert(t1 != t2) by {
        if t1 == t2 {
            assert(t1.take(d1.len() as int) =~= d1);
            assert(t2.take(d2.len() as int) =~= d2);
        }
    }
    assert(c1 != c2) by {
        if c1 == c2 {
            assert(c1.take(d1.len() as int) =~= d1);
            assert(c2.take(d2.len() as int) =~= d2);
        }
    }
    assert(t1.len() != c2.len());
    assert(c1.len() != t2.len());
    assert(t1.len() != c1.len());
}

/// File-based token storage for OAuth credentials.
///
/// Tokens are stored under `<base_dir>/oauth/<hash>/` where hash is
/// derived from the OAuth server URL.
#[derive(Debug)]
pub struct FileTokenStorage {
    pub dir: String,
}

impl FileTokenStorage {
    /// Create storage for a given OAuth server URL under the OAuth cache directory
    /// (see `oauth_cache_dir`).
    pub fn new(server_url: &str, oauth_base: &str) -> (r: Self)
        ensures
            r.dir@ == path_join(oauth_base@, cache_key(server_url@)),
    {
        Self::with_dir(oauth_base.to_string(), server_url)
    }

    /// Create storage with an explicit base directory.
    pub fn with_dir(base_dir: String, server_url: &str) -> (r: Self)
        ensures
            r.dir@ == path_join(base_dir@, cache_key(server_url@)),
    {
        let hash = cache_key_for(server_url);
        FileTokenStorage { dir: join_path(base_dir.as_str(), hash.as_str()) }
    }

    pub fn tokens_path(&self) -> (r: String)
        ensures
            r@ == path_join(self.dir@, "tokens.json"@),
    {
        join_path(self.dir.as_str(), "tokens.json")
    }

    pub fn client_info_path(&self) -> (r: String)
        ensures
            r@ == path_join(self.dir@, "client_info.json"@),
    {
        join_path(self.dir.as_str(), "client_info.json")
    }
}

// ---------------------------------------------------------------------------
// Flows and providers
// ---------------------------------------------------------------------------

/// Client credentials OAuth flow.
///
/// Exchanges client_id + client_secret for an access token at the token endpoint.
#[derive(Debug)]
pub struct ClientCredentialsFlow {
    pub storage: FileTokenStorage,
    pub client_id: String,
    pub client_secret: String,
    pub token_endpoint: String,
    pub scope: Option<String>,
}

impl ClientCredentialsFlow {
    pub fn new(
        storage: FileTokenStorage,
        client_id: String,
        client_secret: String,
        token_endpoint: String,
        scope: Option<String>,
    ) -> (r: Self)
        ensures
            r.storage == storage,
            r.client_id == client_id,
            r.client_secret == client_secret,
            r.token_endpoint == token_endpoint,
            r.scope == scope,
    {
        ClientCredentialsFlow { storage, client_id, client_secret, token_endpoint, scope }
    }

    /// The form fields of a client credentials grant.
    pub fn request_form(&self) -> (r: Vec<(String, String)>)
        ensures
            crate::request::header_views(r@) == seq![
                ("grant_type"@, "client_credentials"@),
                ("client_id"@, self.client_id@),
                ("client_secret"@, self.client_secret@),
            ] + match self.scope {
                Some(s) => seq![("scope"@, s@)],
                None => Seq::empty(),
            },
    {
        let mut form: Vec<(String, String)> = Vec::new();
        form.push(("grant_type".to_string(), "client_credentials".to_string()));
        form.push(("client_id".to_string(), self.client_id.clone()));
        form.push(("client_secret".to_string(), self.client_secret.clone()));
        match &self.scope {
            Some(s) => form.push(("scope".to_string(), s.clone())),
            None => {},
        }
        assert(crate::request::header_views(form@) =~= seq![
            ("grant_type"@, "client_credentials"@),
            ("client_id"@, self.client_id@),
            ("client_secret"@, self.client_secret@),
        ] + match self.scope {
            Some(s) => seq![("scope"@, s@)],
            None => Seq::<(Seq<char>, Seq<char>)>::empty(),
        });
        form
    }

    /// The form fields of a refresh with this client's credentials.
    pub fn refresh_form(&self, refresh_token: &str) -> (r: Vec<(String, String)>)
        ensures
            crate::request::header_views(r@) == seq![
                ("grant_type"@, "refresh_token"@),
                ("refresh_token"@, refresh_token@),
                ("client_id"@, self.client_id@),
                ("client_secret"@, self.client_secret@),
            ],
    {
        let mut form: Vec<(String, String)> = Vec::new();
        form.push(("grant_type".to_string(), "refresh_token".to_string()));
        form.push(("refresh_token".to_string(), refresh_token.to_string()));
        form.push(("client_id".to_string(), self.client_id.clone()));
        form.push(("client_secret".to_string(), self.client_secret.clone()));
        assert(crate::request::header_views(form@) =~= seq![
            ("grant_type"@, "refresh_token"@),
            ("refresh_token"@, refresh_token@),
            ("client_id"@, self.client_id@),
            ("client_secret"@, self.client_secret@),
        ]);
        form
    }

    /// The client info cached after a successful grant.
    pub fn client_info(&self) -> (r: OAuthClientInfo)
        ensures
            r.client_id@ == self.client_id@,
            opt_view(r.client_secret) == Some(self.client_secret@),
            opt_view(r.token_endpoint) == Some(self.token_endpoint@),
            r.authorization_endpoint is None,
    {
        OAuthClientInfo {
            client_id: self.client_id.clone(),
            client_secret: Some(self.client_secret.clone()),
            token_endpoint: Some(self.token_endpoint.clone()),
            authorization_endpoint: None,
        }
    }
}

/// PKCE OAuth flow (Authorization Code + PKCE), used when only a client id is given.
#[derive(Debug)]
pub struct PkceFlow {
    pub storage: FileTokenStorage,
    pub client_id: String,
    pub authorization_endpoint: String,
    pub token_endpoint: String,
    pub scope: Option<String>,
}

impl PkceFlow {
    pub fn new(
        storage: FileTokenStorage,
        client_id: String,
        authorization_endpoint: String,
        token_endpoint: String,
        scope: Option<String>,
    ) -> (r: Self)
        ensures
            r.storage == storage,
            r.client_id == client_id,
            r.authorization_endpoint == authorization_endpoint,
            r.token_endpoint == token_endpoint,
            r.scope == scope,
    {
        PkceFlow { storage, client_id, authorization_endpoint, token_endpoint, scope }
    }

    /// The form fields that exchange an authorization code.
    pub fn exchange_form(&self, code: &str, code_verifier: &str, redirect_uri: &str) -> (r: Vec<(String, String)>)
        ensures
            crate::request::header_views(r@) == seq![
                ("grant_type"@, "authorization_code"@),
                ("code"@, code@),
                ("redirect_uri"@, redirect_uri@),
                ("client_id"@, self.client_id@),
                ("code_verifier"@, code_verifier@),
            ],
    {
        let mut form: Vec<(String, String)> = Vec::new();
        form.push(("grant_type".to_string(), "authorization_code".to_string()));
        form.push(("code".to_string(), code.to_string()));
        form.push(("redirect_uri".to_string(), redirect_uri.to_string()));
        form.push(("client_id".to_string(), self.client_id.clone()));
        form.push(("code_verifier".to_string(), code_verifier.to_string()));
        assert(crate::request::header_views(form@) =~= seq![
            ("grant_type"@, "authorization_code"@),
            ("code"@, code@),
            ("redirect_uri"@, redirect_uri@),
            ("client_id"@, self.client_id@),
            ("code_verifier"@, code_verifier@),
        ]);
        form
    }

    /// The form fields of a refresh for this public client.
    pub fn refresh_form(&self, refresh_token: &str) -> (r: Vec<(String, String)>)
        ensures
            crate::request::header_views(r@) == seq![
                ("grant_type"@, "refresh_token"@),
                ("refresh_token"@, refresh_token@),
                ("client_id"@, self.client_id@),
            ],
    {
        let mut form: Vec<(String, String)> = Vec::new();
        form.push(("grant_type".to_string(), "refresh_token".to_string()));
        form.push(("refresh_token".to_string(), refresh_token.to_string()));
        form.push(("client_id".to_string(), self.client_id.clone()));
        assert(crate::request::header_views(form@) =~= seq![
            ("grant_type"@, "refresh_token"@),
            ("refresh_token"@, refresh_token@),
            ("client_id"@, self.client_id@),
        ]);
        form
    }

    /// The redirect URI of the local callback server on `port`.
    pub fn redirect_uri(port: u16) -> (r: String)
        ensures
            r@ == "http://127.0.0.1:"@ + crate::text::nat_text(port as nat) + "/callback"@,
    {
        let p = crate::text::u128_text(port as u128);
        concat3("http://127.0.0.1:", p.as_str(), "/callback")
    }

    /// The URL the user opens to authorize this client.
    pub fn authorization_url(&self, redirect_uri: &str, code_challenge: &str) -> (r: String)
        ensures
            r@ == authorization_url(self.authorization_endpoint@, self.client_id@, redirect_uri@, code_challenge@, opt_view(self.scope)),
    {
        let scope = match &self.scope {
            Some(s) => Some(s.as_str()),
            None => None,
        };
        build_authorization_url(self.authorization_endpoint.as_str(), self.client_id.as_str(), redirect_uri, code_challenge, scope)
    }

    /// The client info cached after a successful authorization.
    pub fn client_info(&self) -> (r: OAuthClientInfo)
        ensures
            r.client_id@ == self.client_id@,
            r.client_secret is None,
            opt_view(r.token_endpoint) == Some(self.token_endpoint@),
            opt_view(r.authorization_endpoint) == Some(self.authorization_endpoint@),
    {
        OAuthClientInfo {
            client_id: self.client_id.clone(),
            client_secret: None,
            token_endpoint: Some(self.token_endpoint.clone()),
            authorization_endpoint: Some(self.authorization_endpoint.clone()),
        }
    }
}

/// A source of OAuth access tokens.
#[derive(Debug)]
pub enum OAuthProvider {
    /// Authorization code with PKCE, for a public client.
    Pkce(PkceFlow),
    /// Client credentials, for a confidential client.
    ClientCredentials(ClientCredentialsFlow),
}

/// Build an OAuth provider based on the available credentials.
///
/// - If both `client_id` and `client_secret` are provided → client credentials flow
/// - If only `client_id` is provided (no `client_secret`) → PKCE flow
///
/// `oauth_server` is the OAuth server URL used for token storage hashing, under
/// `oauth_base`. `token_endpoint` and `authorization_endpoint` are the OAuth endpoints.
pub fn build_oauth_provider(
    oauth_server: &str,
    oauth_base: &str,
    client_id: &str,
    client_secret: Option<&str>,
    token_endpoint: &str,
    authorization_endpoint: Option<&str>,
    scope: Option<String>,
) -> (r: OAuthProvider)
    ensures
        match client_secret {
            Some(secret) => r is ClientCredentials && ({
                let f = r->ClientCredentials_0;
                &&& f.storage.dir@ == path_join(oauth_base@, cache_key(oauth_server@))
                &&& f.client_id@ == client_id@
                &&& f.client_secret@ == secret@
                &&& f.token_endpoint@ == token_endpoint@
                &&& f.scope == scope
            }),
            None => r is Pkce && ({
                let f = r->Pkce_0;
                &&& f.storage.dir@ == path_join(oauth_base@, cache_key(oauth_server@))
                &&& f.client_id@ == client_id@
                &&& f.authorization_endpoint@ == match authorization_endpoint {
                    Some(a) => a@,
                    None => token_endpoint@,
                }
                &&& f.token_endpoint@ == token_endpoint@
                &&& f.scope == scope
            }),
        },
{
    let storage = FileTokenStorage::new(oauth_server, oauth_base);
    match client_secret {
        Some(secret) => {
            // Client credentials flow
            let flow = ClientCredentialsFlow::new(
                storage,
                client_id.to_string(),
                secret.to_string(),
                token_endpoint.to_string(),
                scope,
            );
            OAuthProvider::ClientCredentials(flow)
        },
        None => {
            // PKCE flow (no client_secret)
            let auth_endpoint = match authorization_endpoint {
                Some(a) => a.to_string(),
                None => token_endpoint.to_string(),
            };
            let flow = PkceFlow::new(storage, client_id.to_string(), auth_endpoint, token_endpoint.to_string(), scope);
            OAuthProvider::Pkce(flow)
        },
    }
}

impl OAuthProvider {
    /// The storage the provider keeps its tokens in.
    pub fn storage(&self) -> (r: &FileTokenStorage)
        ensures
            match self {
                OAuthProvider::Pkce(f) => *r == f.storage,
                OAuthProvider::ClientCredentials(f) => *r == f.storage,
            },
    {
        match self {
            OAuthProvider::Pkce(f) => &f.storage,
            OAuthProvider::ClientCredentials(f) => &f.storage,
        }
    }
}

/// The `Authorization` header value for an access token.
pub fn bearer_header(token: &str) -> (r: String)
    ensures
        r@ == "Bearer "@ + token@,
{
    concat("Bearer ", token)
}

// ---------------------------------------------------------------------------
// The authorization callback
// ---------------------------------------------------------------------------

/// The value of the last query parameter named `k` (a later one replaces an earlier
/// one, as when the query is read into a map).
pub open spec fn query_value(ps: Seq<(Seq<char>, Seq<char>)>, k: Seq<char>) -> Option<Seq<char>>
    decreases ps.len(),
{
    if ps.len() == 0 {
        None
    } else if ps.last().0 == k {
        Some(ps.last().1)
    } else {
        query_value(ps.drop_last(), k)
    }
}

/// What the authorization callback answers for its query: the authorization code to
/// hand to the waiting flow (where there is one) and the page to show.
pub open spec fn callback_spec(ps: Seq<(Seq<char>, Seq<char>)>) -> (Option<Seq<char>>, Seq<char>) {
    match query_value(ps, "code"@) {
        Some(code) => (
            Some(code),
            "<html><body><h1>Authorization successful!</h1><p>You can close this window.</p></body></html>"@,
        ),
        None => {
            let error = match query_value(ps, "error_description"@) {
                Some(e) => e,
                None => match query_value(ps, "error"@) {
                    Some(e) => e,
                    None => "Unknown error"@,
                },
            };
            (None, "<html><body><h1>Authorization failed</h1><p>"@ + error + "</p></body></html>"@)
        },
    }
}

fn query_lookup(ps: &Vec<(String, String)>, k: &str) -> (r: Option<String>)
    ensures
        opt_view(r) == query_value(crate::request::header_views(ps@), k@),
{
    let ghost hv = crate::request::header_views(ps@);
    let mut found: Option<String> = None;
    let mut i: usize = 0;
    while i < ps.len()
        invariant
            i <= ps@.len(),
            hv == crate::request::header_views(ps@),
            hv.len() == ps@.len(),
            forall|j: int| 0 <= j < ps@.len() ==> #[trigger] hv[j] == (ps@[j].0@, ps@[j].1@),
            opt_view(found) == query_value(hv.take(i as int), k@),
        decreases ps@.len() - i,
    {
        assert(hv.take(i + 1).drop_last() =~= hv.take(i as int));
        assert(hv.take(i + 1).last() == hv[i as int]);
        if crate::text::str_eq(ps[i].0.as_str(), k) {
            found = Some(ps[i].1.clone());
        }
        i = i + 1;
    }
    assert(hv.take(ps@.len() as int) =~= hv);
    found
}

/// Answer the authorization callback: the code it carries, if any, and the page shown
/// in the browser.
pub fn callback_outcome(params: &Vec<(String, String)>) -> (r: (Option<String>, String))
    ensures
        (opt_view(r.0), r.1@) == callback_spec(crate::request::header_views(params@)),
{
    match query_lookup(params, "code") {
        Some(code) => (
            Some(code),
            "<html><body><h1>Authorization successful!</h1><p>You can close this window.</p></body></html>".to_string(),
        ),
        None => {
            let error = match query_lookup(params, "error_description") {
                Some(e) => e,
                None => match query_lookup(params, "error") {
                    Some(e) => e,
                    None => "Unknown error".to_string(),
                },
            };
            (None, concat3("<html><body><h1>Authorization failed</h1><p>", error.as_str(), "</p></body></html>"))
        },
    }
}

} // verus!
