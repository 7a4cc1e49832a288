//! Baked configurations: names, argument parsing, merging, argv round trips,
//! secret masking and the in-memory store.

use mcp2cli::bake::{
    baked_to_argv, is_secret_value, mask_secrets, merge_config, next_val, parse_bake_args,
    parse_bake_args_update, validate_name, BakeConfig,
};
use mcp2cli::error::AppError;
use mcp2cli::store::{
    bake_create, bake_install_check, bake_remove, bake_show, bake_update, baked_json_path,
    install_script, BakeStore,
};
use mcp2cli::strmap::StringMap;

fn args(items: &[&str]) -> Vec<String> {
    items.iter().map(|s| s.to_string()).collect()
}

fn config(source_type: &str, source: &str) -> BakeConfig {
    BakeConfig { source_type: source_type.to_string(), source: source.to_string(), ..Default::default() }
}

// ── Name validation ──────────────────────────────────────────────────────────

#[test]
fn test_validate_name_valid() {
    assert!(validate_name("my-config").is_ok());
    assert!(validate_name("a").is_ok());
    assert!(validate_name("test123").is_ok());
    assert!(validate_name("my-api-v2").is_ok());
}

#[test]
fn test_validate_name_invalid() {
    assert!(validate_name("").is_err());
    assert!(validate_name("123").is_err());
    assert!(validate_name("-start").is_err());
    assert!(validate_name("UPPER").is_err());
    assert!(validate_name("has_underscore").is_err());
    assert!(validate_name("has space").is_err());
}

#[test]
fn test_name_valid_simple() {
    assert!(validate_name("my-api").is_ok());
}

#[test]
fn test_name_valid_single_char() {
    assert!(validate_name("a").is_ok());
}

#[test]
fn test_name_valid_alphanumeric() {
    assert!(validate_name("api2-v3").is_ok());
}

#[test]
fn test_name_rejects_empty() {
    assert!(validate_name("").is_err());
}

#[test]
fn test_name_rejects_leading_digit() {
    assert!(validate_name("123abc").is_err());
}

#[test]
fn test_name_rejects_leading_hyphen() {
    assert!(validate_name("-start").is_err());
}

#[test]
fn test_name_rejects_uppercase() {
    assert!(validate_name("MyApi").is_err());
}

#[test]
fn test_name_rejects_underscore() {
    assert!(validate_name("my_api").is_err());
}

#[test]
fn test_name_rejects_spaces() {
    assert!(validate_name("my api").is_err());
}

#[test]
fn invalid_name_is_a_cli_error() {
    assert!(matches!(validate_name("Bad"), Err(AppError::Cli(_))));
}

// ── Secret masking ───────────────────────────────────────────────────────────

#[test]
fn test_mask_secrets() {
    let config = BakeConfig {
        auth_headers: args(&[
            "Authorization: env:MY_TOKEN",
            "X-Custom: short",
            "X-Key: this-is-a-very-long-secret-token-value",
        ]),
        oauth_client_secret: Some("super-secret".to_string()),
        ..config("mcp", "https://example.com")
    };
    let masked = mask_secrets(&config);
    assert_eq!(masked.auth_headers[0], "Authorization: ***");
    assert_eq!(masked.auth_headers[1], "X-Custom: short");
    assert_eq!(masked.auth_headers[2], "X-Key: ***");
    assert_eq!(masked.oauth_client_secret, Some("***".to_string()));
}

#[test]
fn test_mask_secrets_env_prefix() {
    let config = BakeConfig { auth_headers: args(&["Authorization: env:MY_TOKEN"]), ..config("mcp", "https://example.com") };
    let masked = mask_secrets(&config);
    assert_eq!(masked.auth_headers[0], "Authorization: ***");
}

#[test]
fn test_mask_secrets_long_value() {
    let config = BakeConfig { auth_headers: args(&["X-Key: abcdefghij1234567890x"]), ..config("mcp", "https://example.com") };
    let masked = mask_secrets(&config);
    assert_eq!(masked.auth_headers[0], "X-Key: ***");
}

#[test]
fn test_mask_secrets_short_value_not_masked() {
    let config = BakeConfig { auth_headers: args(&["X-Custom: short"]), ..config("mcp", "https://example.com") };
    let masked = mask_secrets(&config);
    assert_eq!(masked.auth_headers[0], "X-Custom: short");
}

#[test]
fn test_mask_secrets_oauth_client_secret() {
    let config = BakeConfig {
        oauth_client_secret: Some("super-secret-value".to_string()),
        ..config("mcp", "https://example.com")
    };
    let masked = mask_secrets(&config);
    assert_eq!(masked.oauth_client_secret, Some("***".to_string()));
}

#[test]
fn test_mask_secrets_no_oauth_secret() {
    let config = BakeConfig { oauth_client_secret: None, ..config("mcp", "https://example.com") };
    let masked = mask_secrets(&config);
    assert_eq!(masked.oauth_client_secret, None);
}

#[test]
fn secret_value_rules() {
    assert!(is_secret_value("env:X"));
    assert!(is_secret_value("file:/p"));
    assert!(is_secret_value("123456789012345678901"));
    assert!(!is_secret_value("12345678901234567890"));
}

#[test]
fn masking_keeps_headers_without_colon_and_other_fields() {
    let config = BakeConfig {
        auth_headers: args(&["no-colon-here-but-quite-long-indeed"]),
        description: Some("d".to_string()),
        ..config("spec", "s")
    };
    let masked = mask_secrets(&config);
    assert_eq!(masked.auth_headers[0], "no-colon-here-but-quite-long-indeed");
    assert_eq!(masked.description.as_deref(), Some("d"));
    assert_eq!(masked.source, "s");
}

// ── Argument parsing ─────────────────────────────────────────────────────────

#[test]
fn test_parse_bake_args_mcp() {
    let a = args(&["--mcp", "https://example.com/mcp", "--auth-header", "Authorization: Bearer token123", "--transport", "sse"]);
    let config = parse_bake_args(&a).unwrap();
    assert_eq!(config.source_type, "mcp");
    assert_eq!(config.source, "https://example.com/mcp");
    assert_eq!(config.auth_headers.len(), 1);
    assert_eq!(config.auth_headers[0], "Authorization: Bearer token123");
    assert_eq!(config.transport, Some("sse".to_string()));
}

#[test]
fn test_parse_bake_args_mcp_stdio() {
    let config = parse_bake_args(&args(&["--mcp-stdio", "my-server --port 8080"])).unwrap();
    assert_eq!(config.source_type, "mcp_stdio");
}

#[test]
fn test_parse_bake_args_spec() {
    let config = parse_bake_args(&args(&["--spec", "https://petstore.io/spec.json"])).unwrap();
    assert_eq!(config.source_type, "spec");
}

#[test]
fn test_parse_bake_args_missing_source() {
    assert!(parse_bake_args(&args(&["--auth-header", "X: Y"])).is_err());
}

#[test]
fn test_parse_bake_args_oauth_boolean() {
    let config = parse_bake_args(&args(&["--mcp", "https://example.com", "--oauth"])).unwrap();
    assert_eq!(config.oauth, Some(true));
}

#[test]
fn test_parse_bake_args_comma_separated_include() {
    let config = parse_bake_args(&args(&["--mcp", "https://example.com", "--include", "a,b,c"])).unwrap();
    assert_eq!(config.includes, vec!["a", "b", "c"]);
}

#[test]
fn test_parse_bake_args_env_as_dict() {
    let config = parse_bake_args(&args(&["--mcp", "https://example.com", "--env", "KEY=VALUE"])).unwrap();
    assert_eq!(config.env_vars.get("KEY").unwrap(), "VALUE");
}

#[test]
fn test_update_rejects_source_changes() {
    assert!(parse_bake_args_update(&args(&["--mcp", "https://new.example.com"])).is_err());
}

#[test]
fn test_update_allows_cache_ttl() {
    let config = parse_bake_args_update(&args(&["--cache-ttl", "600"])).unwrap();
    assert_eq!(config.cache_ttl, Some(600));
}

#[test]
fn parse_rejects_bad_values() {
    assert!(parse_bake_args(&args(&["--mcp", "u", "--cache-ttl", "soon"])).is_err());
    assert!(parse_bake_args(&args(&["--mcp", "u", "--auth-header", "nocolon"])).is_err());
    assert!(parse_bake_args(&args(&["--mcp"])).is_err());
}

// ── Merge ────────────────────────────────────────────────────────────────────

#[test]
fn test_merge_config_preserves_source() {
    let base = BakeConfig {
        auth_headers: args(&["Old: header"]),
        description: Some("old desc".to_string()),
        ..config("mcp", "https://old.example.com")
    };
    let updates = BakeConfig { description: Some("new desc".to_string()), cache_ttl: Some(600), ..Default::default() };
    let merged = merge_config(base, updates);
    assert_eq!(merged.source, "https://old.example.com");
    assert_eq!(merged.source_type, "mcp");
    assert_eq!(merged.auth_headers.len(), 1);
    assert_eq!(merged.description, Some("new desc".to_string()));
    assert_eq!(merged.cache_ttl, Some(600));
}

#[test]
fn merge_config_takes_every_field_the_updates_set() {
    let base = BakeConfig { oauth_scope: Some("read".to_string()), ..config("mcp", "https://old.example.com") };
    let updates = BakeConfig {
        auth_headers: args(&["New: header"]),
        oauth: Some(true),
        ..config("spec", "https://new.example.com/openapi.json")
    };
    let merged = merge_config(base, updates);
    assert_eq!(merged.source_type, "spec");
    assert_eq!(merged.source, "https://new.example.com/openapi.json");
    assert_eq!(merged.auth_headers, args(&["New: header"]));
    assert_eq!(merged.oauth, Some(true));
    assert_eq!(merged.oauth_scope, Some("read".to_string()));

    let base = config("mcp", "https://old.example.com");
    let again = merge_config(base.clone(), BakeConfig::default());
    assert_eq!(again.source, base.source);
    assert_eq!(again.source_type, base.source_type);
}

// ── argv ─────────────────────────────────────────────────────────────────────

#[test]
fn test_baked_to_argv_mcp_stdio() {
    let argv = baked_to_argv(&config("mcp_stdio", "my-server --port 8080"));
    assert_eq!(argv[0], "--mcp-stdio");
}

#[test]
fn test_baked_to_argv_graphql() {
    let argv = baked_to_argv(&config("graphql", "https://api.example.com/graphql"));
    assert_eq!(argv[0], "--graphql");
    assert_eq!(argv[1], "https://api.example.com/graphql");
}

#[test]
fn test_baked_to_argv_base_url() {
    let config = BakeConfig {
        base_url: Some("https://api.example.com".to_string()),
        ..config("spec", "https://example.com/spec.json")
    };
    let argv = baked_to_argv(&config);
    assert!(argv.contains(&"--base-url".to_string()));
    assert!(argv.contains(&"https://api.example.com".to_string()));
}

#[test]
fn test_round_trip_mcp() {
    let config = BakeConfig {
        auth_headers: args(&["Authorization: Bearer token123"]),
        transport: Some("sse".to_string()),
        cache_ttl: Some(300),
        includes: args(&["tool-*"]),
        exclude: args(&["internal-*"]),
        methods: args(&["GET", "POST"]),
        oauth: Some(true),
        oauth_client_id: Some("my-client".to_string()),
        oauth_client_secret: Some("my-secret".to_string()),
        oauth_scope: Some("read write".to_string()),
        ..config("mcp", "https://example.com/mcp")
    };
    let argv = baked_to_argv(&config);
    for expected in [
        "--mcp",
        "https://example.com/mcp",
        "--auth-header",
        "Authorization: Bearer token123",
        "--transport",
        "sse",
        "--cache-ttl",
        "300",
        "--include",
        "tool-*",
        "--exclude",
        "internal-*",
        "--methods",
        "GET",
        "POST",
        "--oauth",
        "--oauth-client-id",
        "my-client",
        "--oauth-client-secret",
        "my-secret",
        "--oauth-scope",
        "read write",
    ] {
        assert!(argv.contains(&expected.to_string()), "missing {expected}");
    }
}

#[test]
fn test_round_trip_spec_with_base_url() {
    let config = BakeConfig {
        base_url: Some("https://api.petstore.io".to_string()),
        ..config("spec", "https://petstore.io/spec.json")
    };
    let argv = baked_to_argv(&config);
    assert_eq!(argv[0], "--spec");
    assert_eq!(argv[1], "https://petstore.io/spec.json");
    assert!(argv.contains(&"--base-url".to_string()));
    assert!(argv.contains(&"https://api.petstore.io".to_string()));
}

#[test]
fn test_round_trip_graphql() {
    let argv = baked_to_argv(&config("graphql", "https://api.example.com/graphql"));
    assert_eq!(argv[0], "--graphql");
    assert_eq!(argv[1], "https://api.example.com/graphql");
    assert_eq!(argv.len(), 2);
}

#[test]
fn test_round_trip_mcp_stdio() {
    let argv = baked_to_argv(&config("mcp_stdio", "npx some-server"));
    assert_eq!(argv[0], "--mcp-stdio");
    assert_eq!(argv[1], "npx some-server");
}

#[test]
fn test_round_trip_env_vars() {
    let mut env_vars = StringMap::new();
    env_vars.insert("MY_CUSTOM_VAR".to_string(), "value".to_string());
    let config = BakeConfig { env_vars, ..config("mcp", "https://example.com") };
    let argv = baked_to_argv(&config);
    assert!(argv.contains(&"--env".to_string()));
    assert!(argv.contains(&"MY_CUSTOM_VAR=value".to_string()));
}

#[test]
fn test_baked_config_filters_in_argv() {
    let config = BakeConfig {
        includes: args(&["pets-*", "users-*"]),
        exclude: args(&["admin-*"]),
        methods: args(&["GET"]),
        ..config("spec", "https://api.example.com/spec.json")
    };
    let argv = baked_to_argv(&config);
    assert_eq!(argv.iter().filter(|a| a.as_str() == "--include").count(), 2);
    assert!(argv.contains(&"pets-*".to_string()));
    assert!(argv.contains(&"users-*".to_string()));
    assert_eq!(argv.iter().filter(|a| a.as_str() == "--exclude").count(), 1);
    assert!(argv.contains(&"admin-*".to_string()));
    assert_eq!(argv.iter().filter(|a| a.as_str() == "--methods").count(), 1);
    assert!(argv.contains(&"GET".to_string()));
}

#[test]
fn argv_parses_back_to_the_same_config() {
    let mut env_vars = StringMap::new();
    env_vars.insert("K".to_string(), "v".to_string());
    let original = BakeConfig {
        auth_headers: args(&["Authorization: Bearer t"]),
        transport: Some("sse".to_string()),
        cache_ttl: Some(42),
        oauth: Some(true),
        oauth_client_id: Some("cid".to_string()),
        includes: args(&["a-*", "b-*"]),
        exclude: args(&["c"]),
        methods: args(&["GET", "POST"]),
        base_url: Some("https://base".to_string()),
        env_vars,
        ..config("spec", "https://example.com/spec.json")
    };
    let parsed = parse_bake_args(&baked_to_argv(&original)).unwrap();
    assert_eq!(parsed.source_type, original.source_type);
    assert_eq!(parsed.source, original.source);
    assert_eq!(parsed.auth_headers, original.auth_headers);
    assert_eq!(parsed.transport, original.transport);
    assert_eq!(parsed.cache_ttl, original.cache_ttl);
    assert_eq!(parsed.oauth, original.oauth);
    assert_eq!(parsed.oauth_client_id, original.oauth_client_id);
    assert_eq!(parsed.includes, original.includes);
    assert_eq!(parsed.exclude, original.exclude);
    assert_eq!(parsed.methods, original.methods);
    assert_eq!(parsed.base_url, original.base_url);
    assert_eq!(parsed.env_vars.get("K").unwrap(), "v");
}

// ── Store ────────────────────────────────────────────────────────────────────

#[test]
fn store_create_show_update_remove() {
    let mut store = BakeStore::new();
    bake_create(&mut store, "my-api", false, &args(&["--mcp", "https://example.com/mcp"])).unwrap();
    assert!(store.contains_key("my-api"));
    // Creating again without force fails; with force it replaces.
    assert!(bake_create(&mut store, "my-api", false, &args(&["--spec", "s"])).is_err());
    bake_create(&mut store, "my-api", true, &args(&["--spec", "s"])).unwrap();
    assert_eq!(bake_show(&store, "my-api").unwrap().source_type, "spec");

    bake_update(&mut store, "my-api", &args(&["--cache-ttl", "10"])).unwrap();
    let shown = bake_show(&store, "my-api").unwrap();
    assert_eq!(shown.cache_ttl, Some(10));
    assert_eq!(shown.source, "s");

    bake_remove(&mut store, "my-api").unwrap();
    assert!(!store.contains_key("my-api"));
    assert!(bake_remove(&mut store, "my-api").is_err());
    assert!(bake_show(&store, "my-api").is_err());
}

#[test]
fn store_rejects_invalid_names() {
    let mut store = BakeStore::new();
    assert!(bake_create(&mut store, "Bad_Name", false, &args(&["--mcp", "u"])).is_err());
    assert_eq!(store.len(), 0);
    assert!(bake_install_check(&store, "missing").is_err());
    assert!(bake_install_check(&store, "Bad").is_err());
}

#[test]
fn store_keeps_names_sorted_and_reads_back_writes() {
    let mut store = BakeStore::new();
    store.insert("zeta".to_string(), config("mcp", "z"));
    store.insert("alpha".to_string(), config("mcp", "a"));
    store.insert("mid".to_string(), config("mcp", "m"));
    store.insert("alpha".to_string(), config("spec", "a2"));
    assert_eq!(store.len(), 3);
    assert_eq!(store.entry(0).0, "alpha");
    assert_eq!(store.entry(1).0, "mid");
    assert_eq!(store.entry(2).0, "zeta");
    assert_eq!(store.get("alpha").unwrap().source, "a2");
    assert!(store.remove("mid"));
    assert!(!store.remove("mid"));
    assert!(store.get("mid").is_none());
    assert_eq!(store.get("zeta").unwrap().source, "z");
}

#[test]
fn install_script_text() {
    let script = install_script("/usr/bin/mcp2cli", "my-api");
    assert!(script.starts_with("#!/bin/sh\n"));
    assert!(script.contains("@my-api"));
    assert!(script.contains("/usr/bin/mcp2cli"));
}

#[test]
fn flag_values_and_config_file() {
    let a = args(&["--mcp", "u"]);
    let mut i = 0;
    assert_eq!(next_val(&a, &mut i, "--mcp").unwrap(), "u");
    assert_eq!(i, 1);
    match next_val(&a, &mut i, "--mcp") {
        Err(AppError::Cli(m)) => assert_eq!(m, "Missing value for --mcp"),
        other => panic!("unexpected {:?}", other),
    }
    assert_eq!(i, 2);
    assert_eq!(baked_json_path("/home/u/.config/mcp2cli"), "/home/u/.config/mcp2cli/baked.json");
}

#[test]
fn cache_ttl_texts_at_the_edges() {
    let ttl = |t: &str| parse_bake_args(&args(&["--mcp", "u", "--cache-ttl", t])).map(|c| c.cache_ttl);
    assert_eq!(ttl("18446744073709551615").unwrap(), Some(u64::MAX));
    assert_eq!(ttl("+5").unwrap(), Some(5));
    assert!(ttl("18446744073709551616").is_err());
    assert!(ttl("").is_err());
    assert!(ttl("-1").is_err());
    let argv = baked_to_argv(&BakeConfig { cache_ttl: Some(1200), ..config("mcp", "u") });
    assert!(argv.windows(2).any(|w| w[0] == "--cache-ttl" && w[1] == "1200"));
}

#[test]
fn bake_arguments_fail_exactly_on_bad_flags_values_or_no_source() {
    assert!(parse_bake_args(&args(&["--mcp", "u", "--oauth", "--env", "A=1"])).is_ok());
    assert!(parse_bake_args(&args(&["--mcp", ""])).is_err());
    assert!(parse_bake_args(&args(&["--spec", "s", "--mcp", ""])).is_err());
    assert!(parse_bake_args(&args(&["--mcp", "", "--spec", "s"])).is_ok());
    assert!(parse_bake_args(&args(&["--mcp", "u", "--bogus"])).is_err());
    assert!(parse_bake_args(&args(&["--mcp", "u", "--env", "A"])).is_err());
    assert!(parse_bake_args(&args(&["--mcp", "u", "--auth-header"])).is_err());
    assert!(parse_bake_args_update(&args(&["--description", "d"])).is_ok());
    assert!(parse_bake_args_update(&args(&["--mcp", "u"])).is_err());
}
