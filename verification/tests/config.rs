use vtz::pm::config::{config_from_entries, extract_scope, parse_npmrc_with_env, RegistryConfig};
use vtz::smap::StrMap;

fn map_of(pairs: &[(&str, &str)]) -> StrMap<String> {
    let mut m = StrMap::new();
    for (k, v) in pairs {
        m.insert(k.to_string(), v.to_string());
    }
    m
}

#[test]
fn test_config_from_entries_default_registry() {
    let entries = map_of(&[("registry", "https://custom.reg.com")]);
    let config = config_from_entries(&entries);
    assert_eq!(config.default_url, "https://custom.reg.com");
}

#[test]
fn test_config_from_entries_scoped() {
    let entries = map_of(&[("@myorg:registry", "https://private.reg.com")]);
    let config = config_from_entries(&entries);
    assert_eq!(config.scoped.get("@myorg").unwrap(), "https://private.reg.com");
}

#[test]
fn test_config_from_entries_auth_token() {
    let entries = map_of(&[("//private.reg.com/:_authToken", "my-token")]);
    let config = config_from_entries(&entries);
    assert_eq!(config.tokens.get("//private.reg.com/").unwrap(), "my-token");
}

#[test]
fn test_config_from_entries_always_auth() {
    let entries = map_of(&[("always-auth", "true")]);
    let config = config_from_entries(&entries);
    assert!(config.always_auth);
}

#[test]
fn config_from_entries_ignores_unrelated_keys() {
    let entries = map_of(&[("always-auth", "false"), ("save-exact", "true")]);
    let config = config_from_entries(&entries);
    assert!(!config.always_auth);
    assert_eq!(config.default_url, "");
    assert!(config.scoped.is_empty());
    assert!(config.tokens.is_empty());
}

#[test]
fn test_registry_url_for_package_default() {
    let config = RegistryConfig::default();
    assert_eq!(config.registry_url_for_package("zod"), "https://registry.npmjs.org");
}

#[test]
fn test_registry_url_for_package_custom_default() {
    let config = RegistryConfig {
        default_url: "https://custom.reg.com".to_string(),
        ..Default::default()
    };
    assert_eq!(config.registry_url_for_package("zod"), "https://custom.reg.com");
}

#[test]
fn test_registry_url_for_package_scoped() {
    let scoped = map_of(&[("@myorg", "https://private.reg.com")]);
    let config = RegistryConfig {
        scoped,
        ..Default::default()
    };
    assert_eq!(config.registry_url_for_package("@myorg/pkg"), "https://private.reg.com");
    assert_eq!(config.registry_url_for_package("zod"), "https://registry.npmjs.org");
}

#[test]
fn test_auth_header_for_url_match() {
    let tokens = map_of(&[("//private.reg.com/", "my-token")]);
    let config = RegistryConfig {
        tokens,
        ..Default::default()
    };
    let header = config.auth_header_for_url("https://private.reg.com/package/zod");
    assert_eq!(header, Some("Bearer my-token".to_string()));
}

#[test]
fn test_auth_header_for_url_no_match() {
    let config = RegistryConfig::default();
    assert!(config.auth_header_for_url("https://registry.npmjs.org/zod").is_none());
}

#[test]
fn test_auth_header_for_url_prefix_matching() {
    let tokens = map_of(&[("//npm.pkg.github.com/", "ghp_token")]);
    let config = RegistryConfig {
        tokens,
        ..Default::default()
    };
    let header = config.auth_header_for_url("https://npm.pkg.github.com/@myorg/pkg");
    assert_eq!(header, Some("Bearer ghp_token".to_string()));
}

#[test]
fn test_extract_scope() {
    assert_eq!(extract_scope("@myorg/pkg"), Some("@myorg"));
    assert_eq!(extract_scope("zod"), None);
    assert_eq!(extract_scope("@vertz/ui"), Some("@vertz"));
}

#[test]
fn str_map_keeps_keys_sorted_and_last_write_wins() {
    let mut m = StrMap::new();
    m.insert("b".to_string(), 1);
    m.insert("a".to_string(), 2);
    m.insert("b".to_string(), 3);
    assert_eq!(m.len(), 2);
    assert_eq!(m.key_at(0), "a");
    assert_eq!(m.key_at(1), "b");
    assert_eq!(m.get("b"), Some(&3));
    assert_eq!(m.get("c"), None);
}

fn no_env() -> StrMap<String> {
    StrMap::new()
}

fn env_of(pairs: &[(&str, &str)]) -> StrMap<String> {
    let mut m = StrMap::new();
    for (k, v) in pairs {
        m.insert(k.to_string(), v.to_string());
    }
    m
}

fn get<'a>(m: &'a StrMap<String>, k: &str) -> &'a str {
    m.get(k).unwrap().as_str()
}

#[test]
fn test_parse_npmrc_empty() {
    let entries = parse_npmrc_with_env("", &no_env()).unwrap();
    assert!(entries.is_empty());
}

#[test]
fn test_parse_npmrc_comments() {
    let content = "# This is a comment\n; Another comment\nregistry=https://custom.reg.com\n";
    let entries = parse_npmrc_with_env(content, &no_env()).unwrap();
    assert_eq!(entries.len(), 1);
    assert_eq!(get(&entries, "registry"), "https://custom.reg.com");
}

#[test]
fn test_parse_npmrc_basic() {
    let content = "registry=https://npm.internal.company.com\nalways-auth=true\n";
    let entries = parse_npmrc_with_env(content, &no_env()).unwrap();
    assert_eq!(get(&entries, "registry"), "https://npm.internal.company.com");
    assert_eq!(get(&entries, "always-auth"), "true");
}

#[test]
fn test_parse_npmrc_scoped_registry() {
    let content = "@myorg:registry=https://npm.internal.company.com\n";
    let entries = parse_npmrc_with_env(content, &no_env()).unwrap();
    assert_eq!(get(&entries, "@myorg:registry"), "https://npm.internal.company.com");
}

#[test]
fn test_parse_npmrc_auth_token() {
    let content = "//npm.internal.company.com/:_authToken=my-secret-token\n";
    let entries = parse_npmrc_with_env(content, &no_env()).unwrap();
    assert_eq!(get(&entries, "//npm.internal.company.com/:_authToken"), "my-secret-token");
}

#[test]
fn test_parse_npmrc_env_var_interpolation() {
    let env = env_of(&[("TEST_NPM_TOKEN_3G", "secret-from-env")]);
    let content = "//npm.internal.company.com/:_authToken=${TEST_NPM_TOKEN_3G}\n";
    let entries = parse_npmrc_with_env(content, &env).unwrap();
    assert_eq!(get(&entries, "//npm.internal.company.com/:_authToken"), "secret-from-env");
}

#[test]
fn test_parse_npmrc_undefined_env_var() {
    let content = "//host/:_authToken=${UNDEFINED_TOKEN_3G_TEST}\n";
    let result = parse_npmrc_with_env(content, &no_env());
    assert!(result.is_err());
    let err = result.unwrap_err();
    assert!(err.contains("UNDEFINED_TOKEN_3G_TEST"));
    assert!(err.contains("undefined environment variable"));
    assert_eq!(err, "error: .npmrc references undefined environment variable ${UNDEFINED_TOKEN_3G_TEST}");
}

#[test]
fn test_parse_npmrc_whitespace_handling() {
    let content = "  registry = https://custom.reg.com  \n";
    let entries = parse_npmrc_with_env(content, &no_env()).unwrap();
    assert_eq!(get(&entries, "registry"), "https://custom.reg.com");
}

#[test]
fn test_parse_npmrc_multiple_env_vars() {
    let env = env_of(&[("TEST_HOST_3G", "custom.reg.com"), ("TEST_TOKEN_3G", "secret")]);
    let content = "//${TEST_HOST_3G}/:_authToken=${TEST_TOKEN_3G}\n";
    let entries = parse_npmrc_with_env(content, &env).unwrap();
    assert_eq!(get(&entries, "//custom.reg.com/:_authToken"), "secret");
}

#[test]
fn npmrc_unclosed_reference_and_last_line_wins() {
    let err = parse_npmrc_with_env("a=${OPEN\n", &no_env()).unwrap_err();
    assert_eq!(err, "error: malformed .npmrc — unclosed ${} in: ${OPEN");
    let entries = parse_npmrc_with_env("a=1\nnot a pair\na=2\nb = x=y\n", &no_env()).unwrap();
    assert_eq!(get(&entries, "a"), "2");
    assert_eq!(get(&entries, "b"), "x=y");
    assert_eq!(entries.len(), 2);
}
