use vtz::pm::outdated::{
    extract_range_prefix, format_outdated_json, format_outdated_text, format_update_dry_run_json,
    format_update_dry_run_text, resolve_wanted_version, OutdatedEntry, UpdateResult,
};
use vtz::smap::StrMap;

fn versions(vs: &[&str]) -> StrMap<serde_json::Value> {
    let mut m = StrMap::new();
    for v in vs {
        m.insert(v.to_string(), serde_json::Value::Object(serde_json::Map::new()));
    }
    m
}

fn tags(pairs: &[(&str, &str)]) -> StrMap<String> {
    let mut m = StrMap::new();
    for (k, v) in pairs {
        m.insert(k.to_string(), v.to_string());
    }
    m
}

#[test]
fn test_resolve_wanted_version_basic() {
    let wanted = resolve_wanted_version("^1.0.0", &versions(&["1.0.0", "1.1.0", "1.2.0", "2.0.0"]), &tags(&[]));
    assert_eq!(wanted, Some("1.2.0".to_string()));
}

#[test]
fn test_resolve_wanted_version_exact() {
    let wanted = resolve_wanted_version("1.0.0", &versions(&["1.0.0", "1.1.0"]), &tags(&[]));
    assert_eq!(wanted, Some("1.0.0".to_string()));
}

#[test]
fn test_resolve_wanted_version_no_match() {
    let wanted = resolve_wanted_version("^2.0.0", &versions(&["1.0.0"]), &tags(&[]));
    assert!(wanted.is_none());
}

#[test]
fn test_resolve_wanted_version_dist_tag() {
    let wanted = resolve_wanted_version(
        "next",
        &versions(&["1.0.0", "2.0.0-beta.1"]),
        &tags(&[("next", "2.0.0-beta.1")]),
    );
    assert_eq!(wanted, Some("2.0.0-beta.1".to_string()));
}

#[test]
fn resolve_wanted_version_compares_semver_not_text() {
    // "1.10.0" sorts before "1.9.0" as text, but is the higher version.
    let wanted = resolve_wanted_version("^1.0.0", &versions(&["1.10.0", "1.9.0"]), &tags(&[]));
    assert_eq!(wanted, Some("1.10.0".to_string()));
}

#[test]
fn resolve_wanted_version_dist_tag_to_unpublished_falls_back_to_range() {
    let wanted = resolve_wanted_version("latest", &versions(&["1.0.0"]), &tags(&[("latest", "9.9.9")]));
    assert!(wanted.is_none());
}

fn outdated(name: &str, current: &str, wanted: &str, latest: &str, range: &str, dev: bool) -> OutdatedEntry {
    OutdatedEntry {
        name: name.to_string(),
        current: current.to_string(),
        wanted: wanted.to_string(),
        latest: latest.to_string(),
        range: range.to_string(),
        dev,
    }
}

#[test]
fn test_format_outdated_text_basic() {
    let entries = vec![
        outdated("react", "18.3.1", "18.3.1", "19.1.0", "^18.3.0", false),
        outdated("typescript", "5.7.3", "5.8.2", "5.8.2", "^5.0.0", true),
    ];
    let text = format_outdated_text(&entries);
    assert!(text.contains("Package"));
    assert!(text.contains("Current"));
    assert!(text.contains("Wanted"));
    assert!(text.contains("Latest"));
    assert!(text.contains("react"));
    assert!(text.contains("18.3.1"));
    assert!(text.contains("19.1.0"));
    assert!(text.contains("typescript"));
    assert!(text.contains("5.7.3"));
    assert!(text.contains("5.8.2"));
}

#[test]
fn format_outdated_text_exact_layout() {
    let entries = vec![outdated("react", "18.3.1", "18.3.1", "19.1.0", "^18.3.0", false)];
    assert_eq!(
        format_outdated_text(&entries),
        "Package  Current  Wanted  Latest\nreact    18.3.1   18.3.1  19.1.0\n"
    );
}

#[test]
fn test_format_outdated_text_empty() {
    let entries: Vec<OutdatedEntry> = Vec::new();
    assert!(format_outdated_text(&entries).is_empty());
}

#[test]
fn test_format_outdated_json_basic() {
    let entries = vec![outdated("react", "18.3.1", "18.3.1", "19.1.0", "^18.3.0", false)];
    let json = format_outdated_json(&entries);
    let parsed: serde_json::Value = serde_json::from_str(json.trim()).unwrap();
    assert_eq!(parsed["name"], "react");
    assert_eq!(parsed["current"], "18.3.1");
    assert_eq!(parsed["wanted"], "18.3.1");
    assert_eq!(parsed["latest"], "19.1.0");
    assert_eq!(parsed["range"], "^18.3.0");
    assert_eq!(parsed["dev"], false);
}

#[test]
fn test_format_outdated_json_empty() {
    let entries: Vec<OutdatedEntry> = Vec::new();
    assert!(format_outdated_json(&entries).is_empty());
}

#[test]
fn test_format_outdated_json_multiple() {
    let entries = vec![
        outdated("react", "18.3.1", "18.3.1", "19.1.0", "^18.3.0", false),
        outdated("typescript", "5.7.3", "5.8.2", "5.8.2", "^5.0.0", true),
    ];
    let json = format_outdated_json(&entries);
    let lines: Vec<&str> = json.trim().lines().collect();
    assert_eq!(lines.len(), 2);
    let first: serde_json::Value = serde_json::from_str(lines[0]).unwrap();
    let second: serde_json::Value = serde_json::from_str(lines[1]).unwrap();
    assert_eq!(first["name"], "react");
    assert_eq!(second["name"], "typescript");
    assert_eq!(second["dev"], true);
}

#[test]
fn test_extract_range_prefix_caret() {
    assert_eq!(extract_range_prefix("^3.24.0"), "^");
}

#[test]
fn test_extract_range_prefix_tilde() {
    assert_eq!(extract_range_prefix("~1.0.0"), "~");
}

#[test]
fn test_extract_range_prefix_gte() {
    assert_eq!(extract_range_prefix(">=1.0.0"), ">=");
}

#[test]
fn test_extract_range_prefix_lte() {
    assert_eq!(extract_range_prefix("<=2.0.0"), "<=");
}

#[test]
fn test_extract_range_prefix_gt() {
    assert_eq!(extract_range_prefix(">1.0.0"), ">");
}

#[test]
fn test_extract_range_prefix_lt() {
    assert_eq!(extract_range_prefix("<2.0.0"), "<");
}

#[test]
fn test_extract_range_prefix_exact() {
    assert_eq!(extract_range_prefix("3.24.0"), "");
}

fn update(name: &str, from: &str, to: &str, range: &str, dev: bool) -> UpdateResult {
    UpdateResult {
        name: name.to_string(),
        from: from.to_string(),
        to: to.to_string(),
        range: range.to_string(),
        dev,
    }
}

#[test]
fn test_format_update_dry_run_text_empty() {
    let results: Vec<UpdateResult> = Vec::new();
    assert_eq!(format_update_dry_run_text(&results), "");
}

#[test]
fn test_format_update_dry_run_text_single() {
    let results = vec![update("zod", "3.24.0", "3.24.4", "^3.24.0", false)];
    let output = format_update_dry_run_text(&results);
    assert!(output.contains("Package"));
    assert!(output.contains("Current"));
    assert!(output.contains("To"));
    assert!(output.contains("zod"));
    assert!(output.contains("3.24.0"));
    assert!(output.contains("3.24.4"));
    assert_eq!(output, "Package  Current  To\nzod      3.24.0   3.24.4\n");
}

#[test]
fn test_format_update_dry_run_json_single() {
    let results = vec![update("zod", "3.24.0", "3.24.4", "^3.24.4", false)];
    let json = format_update_dry_run_json(&results);
    let line: serde_json::Value = serde_json::from_str(json.trim()).unwrap();
    assert_eq!(line["name"], "zod");
    assert_eq!(line["from"], "3.24.0");
    assert_eq!(line["to"], "3.24.4");
    assert_eq!(line["range"], "^3.24.4");
    assert_eq!(line["dev"], false);
}

#[test]
fn test_format_update_dry_run_json_multiple() {
    let results = vec![
        update("react", "18.3.0", "18.3.1", "^18.3.0", false),
        update("typescript", "5.7.0", "5.8.0", "^5.0.0", true),
    ];
    let json = format_update_dry_run_json(&results);
    let lines: Vec<&str> = json.trim().lines().collect();
    assert_eq!(lines.len(), 2);
    let first: serde_json::Value = serde_json::from_str(lines[0]).unwrap();
    let second: serde_json::Value = serde_json::from_str(lines[1]).unwrap();
    assert_eq!(first["name"], "react");
    assert_eq!(second["name"], "typescript");
    assert_eq!(second["dev"], true);
}
