use vtz::pm::audit::{
    format_audit_json, format_audit_summary, format_audit_text, format_fix_json, format_fix_text,
    merge_patched_ranges, resolve_fix_version, FixApplied, FixManual,
};
use vtz::pm::types::{AuditEntry, Severity};
use vtz::smap::StrMap;

fn make_audit_entry(
    name: &str,
    version: &str,
    severity: Severity,
    title: &str,
    patched: &str,
    parent: Option<&str>,
) -> AuditEntry {
    AuditEntry {
        name: name.to_string(),
        version: version.to_string(),
        severity,
        title: title.to_string(),
        url: format!("https://github.com/advisories/GHSA-{}", name),
        patched: patched.to_string(),
        id: 1234,
        parent: parent.map(|s| s.to_string()),
    }
}

#[test]
fn test_format_audit_text_with_entries() {
    let entries = vec![
        make_audit_entry("lodash", "4.17.15", Severity::Critical, "Prototype Pollution", ">=4.17.21", None),
        make_audit_entry("tar", "6.1.0", Severity::Moderate, "Arbitrary File Overwrite", ">=6.1.9", Some("npm")),
    ];
    let text = format_audit_text(&entries);
    assert!(text.contains("Severity"));
    assert!(text.contains("Package"));
    assert!(text.contains("Version"));
    assert!(text.contains("Patched"));
    assert!(text.contains("Title"));
    assert!(text.contains("lodash"));
    assert!(text.contains("4.17.15"));
    assert!(text.contains("critical"));
    assert!(text.contains("Prototype Pollution"));
    assert!(text.contains(">=4.17.21"));
    assert!(text.contains("(direct)"));
    assert!(text.contains("tar"));
    assert!(text.contains("via npm"));
    assert!(text.contains("┌"));
    assert!(text.contains("┘"));
    assert!(text.contains("│"));
}

#[test]
fn format_audit_text_exact_table() {
    let entries = vec![AuditEntry {
        name: "qs".to_string(),
        version: "1.0.0".to_string(),
        severity: Severity::Low,
        title: "T".to_string(),
        url: "u".to_string(),
        patched: ">=2".to_string(),
        id: 1,
        parent: None,
    }];
    let expected = "┌──────────┬─────────┬─────────┬─────────┬───────┐\n\
                    │ Severity │ Package │ Version │ Patched │ Title │\n\
                    ├──────────┼─────────┼─────────┼─────────┼───────┤\n\
                    │ low      │ qs      │ 1.0.0   │ >=2     │ T     │\n\
                    │          │ (direct) │         │         │ u     │\n\
                    └──────────┴─────────┴─────────┴─────────┴───────┘\n";
    assert_eq!(format_audit_text(&entries), expected);
}

#[test]
fn test_format_audit_text_empty() {
    let entries: Vec<AuditEntry> = Vec::new();
    assert!(format_audit_text(&entries).is_empty());
}

#[test]
fn test_format_audit_summary_with_vulns() {
    let entries = vec![
        make_audit_entry("lodash", "4.17.15", Severity::Critical, "PP", ">=4.17.21", None),
        make_audit_entry("axios", "0.21.1", Severity::High, "SSRF", ">=0.21.2", None),
        make_audit_entry("tar", "6.1.0", Severity::Moderate, "AFO", ">=6.1.9", Some("npm")),
    ];
    let summary = format_audit_summary(&entries, 0);
    assert!(summary.contains("3 vulnerabilities found"));
    assert!(summary.contains("1 critical"));
    assert!(summary.contains("1 high"));
    assert!(summary.contains("1 moderate"));
    assert_eq!(summary, "3 vulnerabilities found (1 critical, 1 high, 1 moderate)");
}

#[test]
fn test_format_audit_summary_single_vuln() {
    let entries = vec![make_audit_entry("lodash", "4.17.15", Severity::Critical, "PP", ">=4.17.21", None)];
    let summary = format_audit_summary(&entries, 0);
    assert!(summary.contains("1 vulnerability found"));
    assert!(!summary.contains("vulnerabilities"));
}

#[test]
fn test_format_audit_summary_no_vulns() {
    let entries: Vec<AuditEntry> = Vec::new();
    assert_eq!(format_audit_summary(&entries, 0), "No vulnerabilities found.");
}

#[test]
fn test_format_audit_summary_below_threshold() {
    let entries = vec![make_audit_entry("lodash", "4.17.15", Severity::Critical, "PP", ">=4.17.21", None)];
    let summary = format_audit_summary(&entries, 3);
    assert!(summary.contains("1 vulnerability found"));
    assert!(summary.contains("3 below threshold not shown."));
}

#[test]
fn test_format_audit_summary_all_below_threshold() {
    let entries: Vec<AuditEntry> = Vec::new();
    let summary = format_audit_summary(&entries, 5);
    assert!(summary.contains("No vulnerabilities found at or above threshold"));
    assert!(summary.contains("5 below threshold not shown."));
}

#[test]
fn test_format_audit_json_basic() {
    let entries = vec![make_audit_entry(
        "lodash",
        "4.17.15",
        Severity::Critical,
        "Prototype Pollution",
        ">=4.17.21",
        None,
    )];
    let json = format_audit_json(&entries, 142, 0);
    let lines: Vec<&str> = json.trim().lines().collect();
    assert_eq!(lines.len(), 3);
    let start: serde_json::Value = serde_json::from_str(lines[0]).unwrap();
    assert_eq!(start["event"], "audit_start");
    assert_eq!(start["packages"], 142);
    let advisory: serde_json::Value = serde_json::from_str(lines[1]).unwrap();
    assert_eq!(advisory["event"], "advisory");
    assert_eq!(advisory["name"], "lodash");
    assert_eq!(advisory["version"], "4.17.15");
    assert_eq!(advisory["severity"], "critical");
    assert_eq!(advisory["title"], "Prototype Pollution");
    assert_eq!(advisory["patched"], ">=4.17.21");
    assert_eq!(advisory["id"], 1234);
    assert!(advisory["parent"].is_null());
    let complete: serde_json::Value = serde_json::from_str(lines[2]).unwrap();
    assert_eq!(complete["event"], "audit_complete");
    assert_eq!(complete["vulnerabilities"], 1);
    assert_eq!(complete["critical"], 1);
    assert_eq!(complete["high"], 0);
}

#[test]
fn test_format_audit_json_with_parent() {
    let entries = vec![make_audit_entry("tar", "6.1.0", Severity::High, "AFO", ">=6.1.9", Some("npm"))];
    let json = format_audit_json(&entries, 50, 0);
    let lines: Vec<&str> = json.trim().lines().collect();
    let advisory: serde_json::Value = serde_json::from_str(lines[1]).unwrap();
    assert_eq!(advisory["parent"], "npm");
}

#[test]
fn test_format_audit_json_empty() {
    let entries: Vec<AuditEntry> = Vec::new();
    let json = format_audit_json(&entries, 50, 0);
    let lines: Vec<&str> = json.trim().lines().collect();
    assert_eq!(lines.len(), 2);
    let complete: serde_json::Value = serde_json::from_str(lines[1]).unwrap();
    assert_eq!(complete["vulnerabilities"], 0);
}

#[test]
fn test_format_audit_json_below_threshold() {
    let entries: Vec<AuditEntry> = Vec::new();
    let json = format_audit_json(&entries, 50, 3);
    let lines: Vec<&str> = json.trim().lines().collect();
    let complete: serde_json::Value = serde_json::from_str(lines[1]).unwrap();
    assert_eq!(complete["below_threshold"], 3);
}

fn versions(vs: &[&str]) -> StrMap<serde_json::Value> {
    let mut m = StrMap::new();
    for v in vs {
        m.insert(v.to_string(), serde_json::Value::Object(serde_json::Map::new()));
    }
    m
}

#[test]
fn test_resolve_fix_version_compatible() {
    let v = versions(&["4.17.15", "4.17.19", "4.17.20", "4.17.21", "4.17.25"]);
    assert_eq!(resolve_fix_version("^4.17.0", ">=4.17.21", &v), Some("4.17.25".to_string()));
}

#[test]
fn test_resolve_fix_version_incompatible() {
    let v = versions(&["3.21.2", "4.18.2"]);
    assert_eq!(resolve_fix_version("^3.0.0", ">=4.18.2", &v), None);
}

#[test]
fn test_resolve_fix_version_picks_highest() {
    let v = versions(&["0.21.1", "0.21.2", "0.21.3", "1.0.0"]);
    assert_eq!(resolve_fix_version("^0.21.0", ">=0.21.2", &v), Some("0.21.3".to_string()));
}

#[test]
fn test_resolve_fix_version_no_versions_available() {
    let v = versions(&[]);
    assert_eq!(resolve_fix_version("^1.0.0", ">=1.0.1", &v), None);
}

#[test]
fn test_resolve_fix_version_invalid_declared_range() {
    let v = versions(&["1.0.0"]);
    assert_eq!(resolve_fix_version("not-a-range", ">=1.0.0", &v), None);
}

#[test]
fn test_resolve_fix_version_invalid_patched_range() {
    let v = versions(&["1.0.0"]);
    assert_eq!(resolve_fix_version("^1.0.0", "not-a-range", &v), None);
}

#[test]
fn test_merge_patched_ranges_single() {
    assert_eq!(merge_patched_ranges(&[">=4.17.21"]), Some(">=4.17.21".to_string()));
}

#[test]
fn test_merge_patched_ranges_multiple() {
    let result = merge_patched_ranges(&[">=4.17.19", ">=4.17.20", ">=4.17.21"]);
    assert!(result.is_some());
    let combined = result.unwrap();
    assert_eq!(combined, ">=4.17.19 >=4.17.20 >=4.17.21");
    let range = node_semver::Range::parse(&combined).unwrap();
    let v21 = node_semver::Version::parse("4.17.21").unwrap();
    let v20 = node_semver::Version::parse("4.17.20").unwrap();
    assert!(range.satisfies(&v21));
    assert!(!range.satisfies(&v20));
}

#[test]
fn test_merge_patched_ranges_empty() {
    assert_eq!(merge_patched_ranges(&[]), None);
}

fn fixed_lodash() -> FixApplied {
    FixApplied {
        name: "lodash".to_string(),
        from: "4.17.15".to_string(),
        to: "4.17.21".to_string(),
    }
}

#[test]
fn test_format_fix_text_applied() {
    let manual: Vec<FixManual> = Vec::new();
    let text = format_fix_text(&[fixed_lodash()], &manual, false);
    assert!(text.contains("Fixed 1 vulnerability"));
    assert!(text.contains("lodash 4.17.15 → 4.17.21"));
    assert_eq!(text, "\nFixed 1 vulnerability:\n  lodash 4.17.15 → 4.17.21\n");
}

#[test]
fn test_format_fix_text_manual() {
    let manual = vec![FixManual {
        name: "express".to_string(),
        from: "3.21.2".to_string(),
        patched: ">=4.18.2".to_string(),
        range: "^3.0.0".to_string(),
        reason: "patched version outside declared range ^3.0.0".to_string(),
    }];
    let text = format_fix_text(&[], &manual, false);
    assert!(text.contains("1 vulnerability requires manual update"));
    assert!(text.contains("express 3.21.2"));
    assert!(text.contains("Patched versions: >=4.18.2"));
    assert!(text.contains("vertz add express@\"<patched-version>\""));
}

#[test]
fn test_format_fix_text_dry_run() {
    let text = format_fix_text(&[fixed_lodash()], &[], true);
    assert!(text.contains("Would fix 1 vulnerability"));
}

#[test]
fn test_format_fix_json_applied() {
    let json = format_fix_json(&[fixed_lodash()], &[]);
    let lines: Vec<&str> = json.trim().lines().collect();
    assert_eq!(lines.len(), 2);
    let applied: serde_json::Value = serde_json::from_str(lines[0]).unwrap();
    assert_eq!(applied["event"], "fix_applied");
    assert_eq!(applied["name"], "lodash");
    assert_eq!(applied["from"], "4.17.15");
    assert_eq!(applied["to"], "4.17.21");
    let complete: serde_json::Value = serde_json::from_str(lines[1]).unwrap();
    assert_eq!(complete["event"], "audit_fix_complete");
    assert_eq!(complete["fixed"], 1);
    assert_eq!(complete["manual"], 0);
}

#[test]
fn test_format_fix_json_manual() {
    let manual = vec![FixManual {
        name: "express".to_string(),
        from: "3.21.2".to_string(),
        patched: ">=4.18.2".to_string(),
        range: "^3.0.0".to_string(),
        reason: "patched version outside declared range".to_string(),
    }];
    let json = format_fix_json(&[], &manual);
    let lines: Vec<&str> = json.trim().lines().collect();
    assert_eq!(lines.len(), 2);
    let manual_ev: serde_json::Value = serde_json::from_str(lines[0]).unwrap();
    assert_eq!(manual_ev["event"], "fix_manual");
    assert_eq!(manual_ev["name"], "express");
    assert_eq!(manual_ev["reason"], "patched version outside declared range");
    assert!(manual_ev["suggestion"].as_str().unwrap().contains("vertz add express@\"<patched-version>\""));
}

#[test]
fn audit_table_has_two_lines_per_advisory() {
    let entries = vec![
        make_audit_entry("lodash", "4.17.20", Severity::High, "Prototype Pollution", ">=4.17.21", None),
        make_audit_entry("minimist", "1.2.0", Severity::Low, "Prototype Pollution", ">=1.2.6", Some("mkdirp")),
    ];
    let text = format_audit_text(&entries);
    let lines: Vec<&str> = text.lines().collect();
    assert_eq!(lines.len(), 2 * entries.len() + 4);
    assert!(lines[0].starts_with('┌'));
    assert!(lines[2].starts_with('├'));
    assert!(text.ends_with("┘\n"));
    assert!(lines[3].contains("lodash") && lines[3].contains("4.17.20") && lines[3].contains(">=4.17.21"));
    assert!(lines[4].contains("(direct)") && lines[4].contains("GHSA-lodash"));
    assert!(lines[5].contains("minimist") && lines[6].contains("via mkdirp"));
}
