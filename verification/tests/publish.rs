use vtz::json_value::JsonValue;
use vtz::pm::commands::{auth_match_url, auth_required_message, dry_run_access, publish_target};
use vtz::pm::overrides::extract_overrides_from_raw;
use vtz::pm::pack::normalize_package_json;
use vtz::pm::registry::{
    build_publish_document, publish_outcome, publish_url, registry_host_of, sanitize_cache_name,
    PublishDocument, PublishError, PublishParams,
};
use vtz::pm::types::PackageJson;
use vtz::smap::StrMap;

fn to_jv(v: &serde_json::Value) -> JsonValue {
    match v {
        serde_json::Value::Null => JsonValue::Null,
        serde_json::Value::Bool(b) => JsonValue::Bool(*b),
        serde_json::Value::Number(n) => JsonValue::Number(n.to_string()),
        serde_json::Value::String(s) => JsonValue::Str(s.clone()),
        serde_json::Value::Array(a) => JsonValue::Array(a.iter().map(to_jv).collect()),
        serde_json::Value::Object(m) => JsonValue::Object(m.iter().map(|(k, v)| (k.clone(), to_jv(v))).collect()),
    }
}

fn parse(text: &str) -> JsonValue {
    to_jv(&serde_json::from_str::<serde_json::Value>(text).unwrap())
}

fn get<'a>(v: &'a JsonValue, k: &str) -> Option<&'a JsonValue> {
    match v {
        JsonValue::Object(ms) => ms.iter().find(|(key, _)| key == k).map(|(_, v)| v),
        _ => None,
    }
}

fn str_of(v: Option<&JsonValue>) -> Option<&str> {
    match v {
        Some(JsonValue::Str(s)) => Some(s.as_str()),
        _ => None,
    }
}

fn keys(v: &JsonValue) -> Vec<String> {
    match v {
        JsonValue::Object(ms) => ms.iter().map(|(k, _)| k.clone()).collect(),
        _ => vec![],
    }
}

fn test_params<'a>(
    name: &'a str,
    version: &'a str,
    tag: &'a str,
    access: Option<&'a str>,
    pkg_json: &'a JsonValue,
) -> PublishParams<'a> {
    PublishParams {
        name,
        version,
        tag,
        access,
        tarball_base64: "dGVzdA==",
        tarball_length: 4,
        integrity: "sha512-abc123",
        shasum: "deadbeef",
        normalized_pkg: pkg_json,
        registry_url: "https://registry.npmjs.org",
    }
}

#[test]
fn test_build_publish_document_structure() {
    let pkg_json = parse(r#"{"name": "test-pkg", "version": "1.0.0"}"#);
    let doc = build_publish_document(&test_params("test-pkg", "1.0.0", "latest", None, &pkg_json));
    assert_eq!(doc._id, "test-pkg");
    assert_eq!(doc.name, "test-pkg");
    assert!(doc.access.is_none());
}

#[test]
fn test_build_publish_document_dist_tags() {
    let pkg_json = parse(r#"{"name": "test-pkg", "version": "1.0.0"}"#);
    let doc = build_publish_document(&test_params("test-pkg", "1.0.0", "beta", None, &pkg_json));
    assert_eq!(doc.dist_tags.get("beta").unwrap(), "1.0.0");
}

#[test]
fn test_build_publish_document_includes_base64_tarball_in_attachments() {
    let pkg_json = parse(r#"{"name": "test-pkg", "version": "1.0.0"}"#);
    let doc = build_publish_document(&test_params("test-pkg", "1.0.0", "latest", None, &pkg_json));
    let attachment = doc._attachments.get("test-pkg-1.0.0.tgz").unwrap();
    assert_eq!(attachment.data, "dGVzdA==");
    assert_eq!(attachment.length, 4);
    assert_eq!(attachment.content_type, "application/octet-stream");
}

#[test]
fn test_build_publish_document_includes_authorization_header() {
    let pkg_json = parse(r#"{"name": "test-pkg", "version": "1.0.0"}"#);
    let doc = build_publish_document(&test_params("test-pkg", "1.0.0", "latest", Some("public"), &pkg_json));
    assert_eq!(doc.access, Some("public".to_string()));
}

#[test]
fn test_build_publish_document_version_metadata_has_dist() {
    let pkg_json = parse(r#"{"name": "test-pkg", "version": "1.0.0"}"#);
    let doc = build_publish_document(&test_params("test-pkg", "1.0.0", "latest", None, &pkg_json));
    let version_meta = doc.versions.get("1.0.0").unwrap();
    let dist = get(version_meta, "dist").unwrap();
    assert_eq!(str_of(get(dist, "integrity")), Some("sha512-abc123"));
    assert_eq!(str_of(get(dist, "shasum")), Some("deadbeef"));
    assert_eq!(
        str_of(get(dist, "tarball")),
        Some("https://registry.npmjs.org/test-pkg/-/test-pkg-1.0.0.tgz")
    );
}

#[test]
fn test_build_publish_document_scoped_package() {
    let pkg_json = parse(r#"{"name": "@myorg/test-pkg", "version": "2.0.0"}"#);
    let doc = build_publish_document(&test_params("@myorg/test-pkg", "2.0.0", "latest", Some("public"), &pkg_json));
    assert_eq!(doc.name, "@myorg/test-pkg");
    assert_eq!(doc._id, "@myorg/test-pkg");
    assert!(doc._attachments.contains_key("@myorg/test-pkg-2.0.0.tgz"));
    let meta = doc.versions.get("2.0.0").unwrap();
    assert_eq!(
        str_of(get(get(meta, "dist").unwrap(), "tarball")),
        Some("https://registry.npmjs.org/@myorg%2ftest-pkg/-/test-pkg-2.0.0.tgz")
    );
}

#[test]
fn version_metadata_members_stay_sorted() {
    let pkg_json = parse(r#"{"name": "p", "version": "1.0.0", "zeta": 1}"#);
    let mut params = test_params("p", "1.0.0", "latest", None, &pkg_json);
    params.registry_url = "https://r.example.com//";
    let doc = build_publish_document(&params);
    let meta = doc.versions.get("1.0.0").unwrap();
    assert_eq!(keys(meta), vec!["_id", "_nodeVersion", "dist", "name", "version", "zeta"]);
    assert_eq!(str_of(get(meta, "_id")), Some("p@1.0.0"));
    assert_eq!(str_of(get(meta, "_nodeVersion")), Some("22.0.0"));
    assert_eq!(
        str_of(get(get(meta, "dist").unwrap(), "tarball")),
        Some("https://r.example.com/p/-/p-1.0.0.tgz")
    );
}

#[test]
fn version_metadata_of_a_non_object_is_left_alone() {
    let pkg_json = JsonValue::Str("x".to_string());
    let doc = build_publish_document(&test_params("p", "1.0.0", "latest", None, &pkg_json));
    assert!(matches!(doc.versions.get("1.0.0"), Some(JsonValue::Str(s)) if s == "x"));
}

#[test]
fn test_normalize_removes_dev_dependencies() {
    let raw = parse(
        r#"{"name": "test-pkg", "version": "1.0.0", "dependencies": { "zod": "^3.0.0" }, "devDependencies": { "typescript": "^5.0.0" }}"#,
    );
    let normalized = normalize_package_json(&raw);
    assert!(get(&normalized, "dependencies").is_some());
    assert!(get(&normalized, "devDependencies").is_none());
}

#[test]
fn test_normalize_removes_non_install_scripts() {
    let raw = parse(
        r#"{"name": "test-pkg", "version": "1.0.0", "scripts": {"build": "tsc", "test": "vitest", "postinstall": "node setup.js"}}"#,
    );
    let normalized = normalize_package_json(&raw);
    let scripts = get(&normalized, "scripts").unwrap();
    assert!(get(scripts, "postinstall").is_some());
    assert!(get(scripts, "build").is_none());
    assert!(get(scripts, "test").is_none());
}

#[test]
fn test_normalize_removes_scripts_if_none_install_related() {
    let raw = parse(r#"{"name": "test-pkg", "version": "1.0.0", "scripts": {"build": "tsc", "test": "vitest"}}"#);
    let normalized = normalize_package_json(&raw);
    assert!(get(&normalized, "scripts").is_none());
}

#[test]
fn test_normalize_removes_files_field() {
    let raw = parse(r#"{"name": "test-pkg", "version": "1.0.0", "files": ["dist/", "README.md"]}"#);
    let normalized = normalize_package_json(&raw);
    assert!(get(&normalized, "files").is_none());
}

#[test]
fn normalize_keeps_other_members_in_order() {
    let raw = parse(r#"{"b": 1, "scripts": "not an object", "a": [true, null]}"#);
    let normalized = normalize_package_json(&raw);
    assert_eq!(keys(&normalized), vec!["a", "b", "scripts"]);
    assert_eq!(str_of(get(&normalized, "scripts")), Some("not an object"));
}

#[test]
fn test_extract_overrides_only() {
    let raw = parse(r#"{"overrides": {"qs": "6.11.0"}}"#);
    let (overrides, warnings) = extract_overrides_from_raw(&raw);
    assert_eq!(overrides.len(), 1);
    assert_eq!(overrides.get("qs").unwrap(), "6.11.0");
    assert!(warnings.is_empty());
}

#[test]
fn test_extract_resolutions_only() {
    let raw = parse(r#"{"resolutions": {"qs": "6.11.0"}}"#);
    let (overrides, warnings) = extract_overrides_from_raw(&raw);
    assert_eq!(overrides.len(), 1);
    assert_eq!(overrides.get("qs").unwrap(), "6.11.0");
    assert_eq!(warnings.len(), 1);
    assert!(warnings[0].contains("did you mean \"overrides\""));
}

#[test]
fn test_extract_both_prefers_overrides() {
    let raw = parse(r#"{"overrides": {"qs": "6.11.0"}, "resolutions": {"qs": "6.5.0"}}"#);
    let (overrides, warnings) = extract_overrides_from_raw(&raw);
    assert_eq!(overrides.get("qs").unwrap(), "6.11.0");
    assert_eq!(warnings.len(), 1);
    assert!(warnings[0].contains("using \"overrides\""));
}

#[test]
fn test_extract_neither() {
    let raw = parse(r#"{"dependencies": { "zod": "^3.0.0" }}"#);
    let (overrides, warnings) = extract_overrides_from_raw(&raw);
    assert!(overrides.is_empty());
    assert!(warnings.is_empty());
}

#[test]
fn extract_resolutions_skips_yarn_style_keys() {
    let raw = parse(r#"{"resolutions": {"a/b": "1.0.0", "@s/c": "2.0.0", "n": 3}}"#);
    let (overrides, warnings) = extract_overrides_from_raw(&raw);
    assert_eq!(overrides.len(), 1);
    assert_eq!(overrides.get("@s/c").unwrap(), "2.0.0");
    assert_eq!(warnings.len(), 2);
    assert_eq!(
        warnings[1],
        "skipping invalid resolution pattern \"a/b\" \u{2014} use \">\" as the path separator. Did you mean \"a>b\"?"
    );
}

#[test]
fn test_sanitize_cache_name() {
    assert_eq!(sanitize_cache_name("react"), "react");
    assert_eq!(sanitize_cache_name("@vertz/ui"), "@vertz__ui");
    assert_eq!(sanitize_cache_name("../../../etc/passwd"), "______etc__passwd");
    assert_eq!(sanitize_cache_name("..foo..bar"), "foobar");
}

fn doc_for(name: &str, version: &str) -> PublishDocument {
    let pkg = parse(r#"{}"#);
    build_publish_document(&test_params(name, version, "latest", None, &pkg))
}

#[test]
fn publish_url_encodes_scoped_names() {
    assert_eq!(publish_url("https://registry.npmjs.org/", "@a/b"), "https://registry.npmjs.org/@a%2fb");
    assert_eq!(publish_url("http://localhost:4873", "pkg"), "http://localhost:4873/pkg");
}

#[test]
fn publish_outcome_maps_statuses() {
    let doc = doc_for("pkg", "1.2.3");
    assert!(publish_outcome(201, "201 Created", "https://registry.npmjs.org", &doc, "").is_ok());
    match publish_outcome(401, "401 Unauthorized", "https://registry.npmjs.org/", &doc, "") {
        Err(PublishError::Auth(m)) => assert_eq!(
            m,
            "Authentication failed. Check your .npmrc for a valid auth token for registry.npmjs.org"
        ),
        _ => panic!("expected an authentication error"),
    }
    match publish_outcome(403, "403 Forbidden", "https://r", &doc, r#"{"error":"no access"}"#) {
        Err(PublishError::Forbidden(m)) => assert_eq!(m, "Permission denied: no access"),
        _ => panic!("expected a permission error"),
    }
    match publish_outcome(409, "409 Conflict", "https://r", &doc, "") {
        Err(PublishError::VersionExists(m)) => {
            assert_eq!(m, "Cannot publish pkg@1.2.3: version already exists on registry")
        },
        _ => panic!("expected a version conflict"),
    }
    match publish_outcome(500, "500 Internal Server Error", "https://r", &doc, "") {
        Err(PublishError::Other(m)) => assert_eq!(m, "Registry returned HTTP 500 Internal Server Error: unknown error"),
        _ => panic!("expected another error"),
    }
}

#[test]
fn registry_host_falls_back_to_the_url() {
    assert_eq!(registry_host_of("https://npm.example.com:8080/path"), "npm.example.com");
    assert_eq!(registry_host_of("not a url"), "not a url");
}

fn pkg_with(name: Option<&str>, version: Option<&str>) -> PackageJson {
    PackageJson {
        name: name.map(|s| s.to_string()),
        version: version.map(|s| s.to_string()),
        dependencies: StrMap::new(),
        dev_dependencies: StrMap::new(),
        peer_dependencies: StrMap::new(),
        optional_dependencies: StrMap::new(),
        bundled_dependencies: vec![],
        scripts: StrMap::new(),
        overrides: StrMap::new(),
    }
}

#[test]
fn publish_target_checks_in_order() {
    assert_eq!(
        publish_target(&pkg_with(None, None), Some("bad")),
        Err("Cannot publish: package.json is missing required field 'name'".to_string())
    );
    assert_eq!(
        publish_target(&pkg_with(Some("a"), None), None),
        Err("Cannot publish: package.json is missing required field 'version'".to_string())
    );
    assert_eq!(
        publish_target(&pkg_with(Some("a"), Some("1.0.0")), Some("secret")),
        Err("Invalid access value: \"secret\". Must be \"public\" or \"restricted\"".to_string())
    );
    assert_eq!(
        publish_target(&pkg_with(Some("a"), Some("1.0.0")), Some("restricted")),
        Ok(("a".to_string(), "1.0.0".to_string()))
    );
}

#[test]
fn dry_run_access_defaults_by_scope() {
    assert_eq!(dry_run_access("@s/p", None), "restricted");
    assert_eq!(dry_run_access("p", None), "public");
    assert_eq!(dry_run_access("@s/p", Some("public")), "public");
}

#[test]
fn auth_lookup_url_and_message() {
    assert_eq!(auth_match_url("http://host:4873//"), "http://host:4873/");
    assert_eq!(
        auth_required_message("https://r"),
        "Authentication required. Add an auth token to .npmrc for https://r"
    );
}
