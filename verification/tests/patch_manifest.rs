use vtz::json_value::JsonValue;
use vtz::pm::create::{check_destination, set_package_name, CreateError};
use vtz::pm::patch::{
    installed_version, is_direct_dependency, patch_entry, patched_package_names, record_patch, saved_patches,
    version_mismatch_message,
};

fn to_jv(v: &serde_json::Value) -> JsonValue {
    match v {
        serde_json::Value::Null => JsonValue::Null,
        serde_json::Value::Bool(b) => JsonValue::Bool(*b),
        serde_json::Value::Number(n) => JsonValue::Number(n.to_string()),
        serde_json::Value::String(s) => JsonValue::Str(s.clone()),
        serde_json::Value::Array(a) => JsonValue::Array(a.iter().map(to_jv).collect()),
        serde_json::Value::Object(m) => JsonValue::Object(m.iter().map(|(k, v)| (k.clone(), to_jv(v))).collect()),
    }
}

fn parse(text: &str) -> JsonValue {
    to_jv(&serde_json::from_str::<serde_json::Value>(text).unwrap())
}

fn get<'a>(v: &'a JsonValue, k: &str) -> Option<&'a JsonValue> {
    match v {
        JsonValue::Object(ms) => ms.iter().find(|(key, _)| key == k).map(|(_, v)| v),
        _ => None,
    }
}

fn str_at<'a>(v: &'a JsonValue, path: &[&str]) -> Option<&'a str> {
    let mut cur = v;
    for k in path {
        cur = get(cur, k)?;
    }
    match cur {
        JsonValue::Str(s) => Some(s.as_str()),
        _ => None,
    }
}

#[test]
fn test_read_patched_package_names() {
    let pkg = parse(
        r#"{"vertz":{"patchedDependencies":{"express@4.21.2":"patches/express@4.21.2.patch","@types/node@22.0.0":"patches/@types+node@22.0.0.patch"}}}"#,
    );
    let names = patched_package_names(&pkg);
    assert!(names.contains("express"));
    assert!(names.contains("@types/node"));
    assert_eq!(names.len(), 2);
}

#[test]
fn test_read_patched_package_names_no_patches() {
    let pkg = parse(r#"{"dependencies":{}}"#);
    assert_eq!(patched_package_names(&pkg).len(), 0);
}

#[test]
fn saved_patches_are_sorted_and_string_valued() {
    let pkg = parse(r#"{"vertz":{"patchedDependencies":{"zod@3.0.0":"patches/zod@3.0.0.patch","a@1.0.0":"patches/a@1.0.0.patch","bad@1.0.0":7}}}"#);
    let saved = saved_patches(&pkg);
    assert_eq!(
        saved,
        vec![
            ("a@1.0.0".to_string(), "patches/a@1.0.0.patch".to_string()),
            ("zod@3.0.0".to_string(), "patches/zod@3.0.0.patch".to_string()),
        ]
    );
    assert!(saved_patches(&parse(r#"{"vertz": 1}"#)).is_empty());
}

#[test]
fn patch_entries_read_key_and_path() {
    assert_eq!(
        patch_entry("@types/node@22.0.0", &JsonValue::Str("patches/x.patch".to_string())),
        Ok(("@types/node".to_string(), "22.0.0".to_string(), "patches/x.patch".to_string()))
    );
    assert_eq!(
        patch_entry("express", &JsonValue::Str("p".to_string())),
        Err("error: invalid patch key \"express\"".to_string())
    );
    assert_eq!(
        patch_entry("express@1.0.0", &JsonValue::Null),
        Err("error: invalid patch path for \"express@1.0.0\"".to_string())
    );
}

#[test]
fn version_mismatch_names_both_versions() {
    assert_eq!(
        version_mismatch_message("patches/express@4.21.2.patch", "express", "4.21.2", "4.22.0"),
        "error: failed to apply patch patches/express@4.21.2.patch\n  The patch was created for express@4.21.2 but express@4.22.0 is installed.\n\n  To recreate the patch for the new version:\n    1. vertz patch express\n    2. Review and re-apply your changes to node_modules/express/\n    3. vertz patch save express\n\n  Old patch preserved at: patches/express@4.21.2.patch"
    );
}

#[test]
fn installed_version_reports_each_failure() {
    assert_eq!(
        installed_version("zod", None),
        Err("error: \"zod\" is not installed. Run \"vertz install\" first.".to_string())
    );
    assert_eq!(installed_version("zod", Some(None)), Err("error: invalid package.json for \"zod\"".to_string()));
    let no_version = parse(r#"{"name":"zod"}"#);
    assert_eq!(
        installed_version("zod", Some(Some(&no_version))),
        Err("error: no version field in package.json for \"zod\"".to_string())
    );
    let ok = parse(r#"{"name":"zod","version":"3.24.4"}"#);
    assert_eq!(installed_version("zod", Some(Some(&ok))), Ok("3.24.4".to_string()));
}

#[test]
fn direct_dependency_sections() {
    let pkg = parse(r#"{"devDependencies":{"vitest":"^1"},"peerDependencies":{"react":"^18"},"dependencies":"x"}"#);
    assert!(is_direct_dependency(Some(&pkg), "vitest"));
    assert!(is_direct_dependency(Some(&pkg), "react"));
    assert!(!is_direct_dependency(Some(&pkg), "x"));
    assert!(!is_direct_dependency(None, "vitest"));
}

#[test]
fn test_package_json_preserves_existing_fields() {
    let pkg = parse(
        r#"{"name": "my-project", "version": "1.0.0", "dependencies": {"express": "^4.21.0"}, "scripts": {"start": "node index.js"}}"#,
    );
    let updated = record_patch(&pkg, "express@4.21.2", "patches/express@4.21.2.patch");
    assert_eq!(str_at(&updated, &["name"]), Some("my-project"));
    assert_eq!(str_at(&updated, &["version"]), Some("1.0.0"));
    assert_eq!(str_at(&updated, &["dependencies", "express"]), Some("^4.21.0"));
    assert_eq!(str_at(&updated, &["scripts", "start"]), Some("node index.js"));
    assert_eq!(
        str_at(&updated, &["vertz", "patchedDependencies", "express@4.21.2"]),
        Some("patches/express@4.21.2.patch")
    );
}

#[test]
fn record_patch_keeps_other_patches_and_fills_null() {
    let pkg = parse(r#"{"vertz":{"patchedDependencies":{"a@1.0.0":"pa"},"other":true}}"#);
    let updated = record_patch(&pkg, "b@2.0.0", "pb");
    assert_eq!(str_at(&updated, &["vertz", "patchedDependencies", "a@1.0.0"]), Some("pa"));
    assert_eq!(str_at(&updated, &["vertz", "patchedDependencies", "b@2.0.0"]), Some("pb"));
    assert!(get(get(&updated, "vertz").unwrap(), "other").is_some());
    let from_null = record_patch(&JsonValue::Null, "b@2.0.0", "pb");
    assert_eq!(str_at(&from_null, &["vertz", "patchedDependencies", "b@2.0.0"]), Some("pb"));
}

#[test]
fn test_update_package_name_basic() {
    let pkg = parse(r#"{"name": "template-name", "version": "0.1.0"}"#);
    let updated = set_package_name(&pkg, "my-app");
    assert_eq!(str_at(&updated, &["name"]), Some("my-app"));
    assert_eq!(str_at(&updated, &["version"]), Some("0.1.0"));
}

#[test]
fn test_update_package_name_preserves_fields() {
    let pkg = parse(r#"{"name": "old", "version": "1.0.0", "dependencies": {"foo": "^1.0.0"}}"#);
    let updated = set_package_name(&pkg, "new-name");
    assert_eq!(str_at(&updated, &["name"]), Some("new-name"));
    assert_eq!(str_at(&updated, &["version"]), Some("1.0.0"));
    assert_eq!(str_at(&updated, &["dependencies", "foo"]), Some("^1.0.0"));
}

#[test]
fn destination_checks() {
    assert!(check_destination("new-project", false, false, false).is_ok());
    assert!(check_destination("empty", true, true, true).is_ok());
    assert!(matches!(check_destination("nonempty", true, true, false), Err(CreateError::DestinationExists(p)) if p == "nonempty"));
    assert!(check_destination("a-file", true, false, true).is_err());
}
