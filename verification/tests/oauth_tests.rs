//! OAuth: token expiry, token responses, PKCE, authorization URLs, cache keys,
//! storage paths and token requests.

use std::time::{SystemTime, UNIX_EPOCH};

use base64::Engine;
use sha2::{Digest, Sha256};

use mcp2cli::oauth::{
    bearer_header, build_authorization_url, build_oauth_provider, cache_key_for,
    cache_dir, generate_pkce_pair, join_path, oauth_cache_dir, token_action, token_response_to_tokens,
    token_response_to_tokens_at, ClientCredentialsFlow, FileTokenStorage, OAuthProvider,
    OAuthTokens, PkceFlow, TokenAction, TokenResponse,
};

fn now_secs() -> u64 {
    SystemTime::now().duration_since(UNIX_EPOCH).unwrap().as_secs()
}

fn tokens_expiring(expires_at: Option<u64>) -> OAuthTokens {
    OAuthTokens {
        access_token: "tok".to_string(),
        token_type: "Bearer".to_string(),
        refresh_token: None,
        expires_at,
        scope: None,
    }
}

// ── Token responses ──────────────────────────────────────────────────────────

#[test]
fn test_token_response_to_tokens_with_expiry() {
    let resp = TokenResponse {
        access_token: "test-token".to_string(),
        token_type: "Bearer".to_string(),
        refresh_token: Some("refresh-tok".to_string()),
        expires_in: Some(3600),
        scope: Some("read".to_string()),
    };

    let tokens = token_response_to_tokens(resp);
    assert_eq!(tokens.access_token, "test-token");
    assert_eq!(tokens.token_type, "Bearer");
    assert_eq!(tokens.refresh_token.as_deref(), Some("refresh-tok"));
    assert!(tokens.expires_at.is_some());
    assert_eq!(tokens.scope.as_deref(), Some("read"));

    let now = now_secs();
    let exp = tokens.expires_at.unwrap();
    assert!(exp >= now + 3599 && exp <= now + 3601);
}

#[test]
fn test_token_response_to_tokens_no_expiry() {
    let resp = TokenResponse {
        access_token: "tok".to_string(),
        token_type: "Bearer".to_string(),
        refresh_token: None,
        expires_in: None,
        scope: None,
    };

    let tokens = token_response_to_tokens(resp);
    assert!(tokens.expires_at.is_none());
    assert!(tokens.refresh_token.is_none());
}

#[test]
fn token_response_at_fixed_time_adds_lifetime() {
    let resp = TokenResponse {
        access_token: "a".to_string(),
        token_type: "Bearer".to_string(),
        refresh_token: None,
        expires_in: Some(60),
        scope: None,
    };
    let tokens = token_response_to_tokens_at(resp, 1_000);
    assert_eq!(tokens.expires_at, Some(1_060));
}

// ── Expiry ───────────────────────────────────────────────────────────────────

#[test]
fn storage_test_token_not_expired() {
    let tokens = tokens_expiring(Some(now_secs() + 3600));
    assert!(!tokens.is_expired());
}

#[test]
fn storage_test_token_expired() {
    let tokens = tokens_expiring(Some(1000));
    assert!(tokens.is_expired());
}

#[test]
fn storage_test_token_no_expiry_not_expired() {
    let tokens = tokens_expiring(None);
    assert!(!tokens.is_expired());
}

#[test]
fn oauth_tests_test_token_not_expired() {
    let tokens = tokens_expiring(Some(now_secs() + 3600));
    assert!(!tokens.is_expired());
}

#[test]
fn oauth_tests_test_token_expired() {
    let tokens = tokens_expiring(Some(1000));
    assert!(tokens.is_expired());
}

#[test]
fn oauth_tests_test_token_no_expiry_not_expired() {
    let tokens = tokens_expiring(None);
    assert!(!tokens.is_expired());
}

#[test]
fn test_token_expired_within_buffer() {
    // Expires in 20 seconds: within the 30-second buffer, so expired.
    let tokens = tokens_expiring(Some(now_secs() + 20));
    assert!(tokens.is_expired());
}

#[test]
fn expiry_buffer_edges_at_fixed_time() {
    assert!(tokens_expiring(Some(130)).is_expired_at(100));
    assert!(!tokens_expiring(Some(131)).is_expired_at(100));
    assert!(tokens_expiring(Some(50)).is_expired_at(100));
    assert!(!tokens_expiring(None).is_expired_at(u64::MAX));
}

#[test]
fn token_action_choices() {
    let fresh = Some(OAuthTokens { access_token: "live".to_string(), ..tokens_expiring(Some(10_000)) });
    assert!(matches!(token_action(&fresh, 100), TokenAction::UseCached(ref t) if t == "live"));

    let stale_with_refresh = Some(OAuthTokens {
        refresh_token: Some("rt".to_string()),
        ..tokens_expiring(Some(10))
    });
    assert!(matches!(token_action(&stale_with_refresh, 100), TokenAction::Refresh(ref t) if t == "rt"));

    let stale = Some(tokens_expiring(Some(10)));
    assert!(matches!(token_action(&stale, 100), TokenAction::Fetch));
    assert!(matches!(token_action(&None, 100), TokenAction::Fetch));
}

// ── PKCE ─────────────────────────────────────────────────────────────────────

#[test]
fn test_generate_pkce_pair() {
    let (verifier, challenge) = generate_pkce_pair();
    assert_eq!(verifier.len(), 43);
    assert_eq!(challenge.len(), 43);
    assert_ne!(verifier, challenge);
}

#[test]
fn test_generate_pkce_pair_unique() {
    let (v1, _) = generate_pkce_pair();
    let (v2, _) = generate_pkce_pair();
    assert_ne!(v1, v2, "Each PKCE pair should be unique");
}

#[test]
fn test_pkce_challenge_is_sha256_of_verifier() {
    let (verifier, challenge) = generate_pkce_pair();
    let mut hasher = Sha256::new();
    hasher.update(verifier.as_bytes());
    let expected = base64::engine::general_purpose::URL_SAFE_NO_PAD.encode(hasher.finalize());
    assert_eq!(challenge, expected);
}

#[test]
fn test_build_authorization_url_basic() {
    let url = build_authorization_url(
        "https://auth.example.com/authorize",
        "my-client",
        "http://localhost:8080/callback",
        "test-challenge",
        None,
    );
    assert!(url.starts_with("https://auth.example.com/authorize?"));
    assert!(url.contains("response_type=code"));
    assert!(url.contains("client_id=my-client"));
    assert!(url.contains("code_challenge=test-challenge"));
    assert!(url.contains("code_challenge_method=S256"));
    assert!(!url.contains("scope="));
}

#[test]
fn test_build_authorization_url_with_scope() {
    let url = build_authorization_url(
        "https://auth.example.com/authorize",
        "my-client",
        "http://localhost:8080/callback",
        "test-challenge",
        Some("read write"),
    );
    assert!(url.contains("scope=read%20write"));
}

#[test]
fn authorization_url_exact_text() {
    let url = build_authorization_url("https://a/auth", "c id", "http://x/cb", "ch", None);
    assert_eq!(
        url,
        "https://a/auth?response_type=code&client_id=c%20id&redirect_uri=http%3A%2F%2Fx%2Fcb&code_challenge=ch&code_challenge_method=S256"
    );
}

// ── Cache keys ───────────────────────────────────────────────────────────────

#[test]
fn test_cache_key_deterministic() {
    let key1 = cache_key_for("https://example.com/api");
    let key2 = cache_key_for("https://example.com/api");
    assert_eq!(key1, key2);
    assert_eq!(key1.len(), 16);
}

#[test]
fn test_cache_key_different_inputs() {
    let key1 = cache_key_for("input-a");
    let key2 = cache_key_for("input-b");
    assert_ne!(key1, key2);
}

#[test]
fn test_cache_key_is_hex() {
    let key = cache_key_for("test");
    assert!(key.chars().all(|c| c.is_ascii_hexdigit()));
}

#[test]
fn cache_key_known_value() {
    // SHA-256 of "test" begins 9f86d081884c7d65...
    assert_eq!(cache_key_for("test"), "9f86d081884c7d65");
}

// ── Storage locations ────────────────────────────────────────────────────────

#[test]
fn storage_paths_under_hashed_dir() {
    let storage = FileTokenStorage::with_dir("/base".to_string(), "test");
    assert_eq!(storage.dir, "/base/9f86d081884c7d65");
    assert_eq!(storage.tokens_path(), "/base/9f86d081884c7d65/tokens.json");
    assert_eq!(storage.client_info_path(), "/base/9f86d081884c7d65/client_info.json");
    let other = FileTokenStorage::new("https://other.example.com", "/base");
    assert_ne!(other.dir, storage.dir);
}

#[test]
fn storages_for_different_servers_use_different_files() {
    let a = FileTokenStorage::with_dir("/base/".to_string(), "https://a.example.com");
    let b = FileTokenStorage::with_dir("/base/".to_string(), "https://b.example.com");
    let files = [a.tokens_path(), a.client_info_path(), b.tokens_path(), b.client_info_path()];
    for i in 0..files.len() {
        for j in (i + 1)..files.len() {
            assert_ne!(files[i], files[j]);
        }
    }
    assert!(cache_key_for("https://a.example.com").chars().all(|c| c.is_ascii_digit() || ('a'..='f').contains(&c)));
}

#[test]
fn join_path_cases() {
    assert_eq!(join_path("/a", "b"), "/a/b");
    assert_eq!(join_path("/a/", "b"), "/a/b");
    assert_eq!(join_path("/a", "/abs"), "/abs");
    assert_eq!(join_path("", "b"), "b");
}

#[test]
fn oauth_cache_dir_choices() {
    assert_eq!(oauth_cache_dir(Some("/env".to_string()), Some("/home/c".to_string())), "/env/oauth");
    assert_eq!(oauth_cache_dir(None, Some("/home/c".to_string())), "/home/c/mcp2cli/oauth");
    assert_eq!(oauth_cache_dir(None, None), "/tmp/mcp2cli/oauth");
}

#[test]
fn cache_dir_choices() {
    assert_eq!(cache_dir(Some("/env".to_string()), Some("/home/c".to_string())), "/env");
    assert_eq!(cache_dir(None, Some("/home/c/".to_string())), "/home/c/mcp2cli");
    assert_eq!(cache_dir(None, None), "/tmp/mcp2cli");
}

// ── Flows ────────────────────────────────────────────────────────────────────

#[test]
fn client_credentials_forms() {
    let flow = ClientCredentialsFlow::new(
        FileTokenStorage::with_dir("/b".to_string(), "s"),
        "cid".to_string(),
        "secret".to_string(),
        "https://auth/token".to_string(),
        Some("read".to_string()),
    );
    let form = flow.request_form();
    assert!(form.contains(&("grant_type".to_string(), "client_credentials".to_string())));
    assert!(form.contains(&("client_id".to_string(), "cid".to_string())));
    assert!(form.contains(&("client_secret".to_string(), "secret".to_string())));
    assert!(form.contains(&("scope".to_string(), "read".to_string())));
    let refresh = flow.refresh_form("rt");
    assert!(refresh.contains(&("grant_type".to_string(), "refresh_token".to_string())));
    assert!(refresh.contains(&("refresh_token".to_string(), "rt".to_string())));
    let info = flow.client_info();
    assert_eq!(info.client_id, "cid");
    assert_eq!(info.client_secret.as_deref(), Some("secret"));
}

#[test]
fn pkce_flow_forms_and_urls() {
    let flow = PkceFlow::new(
        FileTokenStorage::with_dir("/b".to_string(), "s"),
        "cid".to_string(),
        "https://auth/authorize".to_string(),
        "https://auth/token".to_string(),
        None,
    );
    assert_eq!(PkceFlow::redirect_uri(8080), "http://127.0.0.1:8080/callback");
    let form = flow.exchange_form("code1", "ver1", "http://127.0.0.1:8080/callback");
    assert!(form.contains(&("grant_type".to_string(), "authorization_code".to_string())));
    assert!(form.contains(&("code".to_string(), "code1".to_string())));
    assert!(form.contains(&("code_verifier".to_string(), "ver1".to_string())));
    let url = flow.authorization_url("http://127.0.0.1:8080/callback", "ch");
    assert!(url.starts_with("https://auth/authorize?response_type=code"));
    assert!(flow.client_info().client_secret.is_none());
}

#[test]
fn provider_choice_follows_secret() {
    let with_secret = build_oauth_provider(
        "https://server",
        "/base",
        "cid",
        Some("sec"),
        "https://auth/token",
        None,
        None,
    );
    assert!(matches!(with_secret, OAuthProvider::ClientCredentials(_)));
    let without_secret = build_oauth_provider(
        "https://server",
        "/base",
        "cid",
        None,
        "https://auth/token",
        Some("https://auth/authorize"),
        None,
    );
    assert!(matches!(without_secret, OAuthProvider::Pkce(_)));
    assert_eq!(with_secret.storage().dir, without_secret.storage().dir);
}

#[test]
fn bearer_header_text() {
    assert_eq!(bearer_header("abc"), "Bearer abc");
}

#[test]
fn cache_files_are_used_up_to_their_lifetime() {
    assert!(mcp2cli::oauth::cache_fresh(10, 0, 3600));
    assert!(mcp2cli::oauth::cache_fresh(3600, 0, 3600));
    assert!(!mcp2cli::oauth::cache_fresh(3600, 1, 3600));
    assert!(!mcp2cli::oauth::cache_fresh(3601, 0, 3600));
}
