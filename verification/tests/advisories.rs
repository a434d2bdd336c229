use vtz::json_value::JsonValue;
use vtz::pm::advisories::extract_version_dist;
use vtz::pm::advisories::{
    advisory_batches, audit_entries, audit_versions, direct_dependency_names, merge_advisory_batches,
    order_and_filter, fix_outcome, fix_targets, version_dist, Advisory, FixOutcome,
};
use vtz::pm::types::{AuditEntry, Lockfile, LockfileEntry, PackageJson, Severity};
use vtz::smap::{StrMap, StrSet};

fn entry(name: &str, version: &str, resolved: &str) -> LockfileEntry {
    LockfileEntry {
        name: name.to_string(),
        range: "*".to_string(),
        version: version.to_string(),
        resolved: resolved.to_string(),
        integrity: String::new(),
        dependencies: StrMap::new(),
        bin: StrMap::new(),
        scripts: StrMap::new(),
        optional: false,
        overridden: false,
    }
}

fn adv(id: u64, severity: &str) -> Advisory {
    Advisory {
        id,
        title: format!("advisory {}", id),
        severity: severity.to_string(),
        url: format!("https://example.com/{}", id),
        patched_versions: ">=2.0.0".to_string(),
    }
}

fn set_of(items: &[&str]) -> StrSet {
    let mut s = StrSet::new();
    for i in items {
        s.insert(i.to_string());
    }
    s
}

fn row(name: &str, severity: Severity) -> AuditEntry {
    AuditEntry {
        name: name.to_string(),
        version: "1.0.0".to_string(),
        severity,
        title: String::new(),
        url: String::new(),
        patched: String::new(),
        id: 0,
        parent: None,
    }
}

#[test]
fn severity_parse_and_rank() {
    assert_eq!(Severity::parse("high"), Some(Severity::High));
    assert_eq!(Severity::parse("HIGH"), None);
    assert!(Severity::Critical.at_or_above(Severity::Low));
    assert!(!Severity::Low.at_or_above(Severity::Moderate));
    assert!(Severity::Moderate.at_or_above(Severity::Moderate));
    assert_eq!(Severity::Critical.rank(), 0);
}

#[test]
fn audited_versions_skip_workspace_links() {
    let mut lock = Lockfile::default();
    lock.entries.insert("lodash@^4".to_string(), entry("lodash", "4.17.20", "https://r/l.tgz"));
    lock.entries.insert("lodash@4.17.21".to_string(), entry("lodash", "4.17.21", "https://r/l2.tgz"));
    lock.entries.insert("ws-pkg@*".to_string(), entry("ws-pkg", "0.0.1", "link:packages/ws"));
    let v = audit_versions(&lock);
    assert_eq!(v.len(), 1);
    let lodash = v.get("lodash").unwrap();
    assert_eq!(lodash.len(), 2);
    assert_eq!(lodash.at(0), "4.17.20");
    assert_eq!(lodash.at(1), "4.17.21");
}

#[test]
fn batches_of_one_hundred() {
    let mut versions: StrMap<StrSet> = StrMap::new();
    for i in 0..250 {
        versions.insert(format!("pkg{:03}", i), set_of(&["1.0.0"]));
    }
    let batches = advisory_batches(&versions);
    assert_eq!(batches.len(), 3);
    assert_eq!(batches[0].len(), 100);
    assert_eq!(batches[2].len(), 50);
    assert_eq!(batches[1][0].0, "pkg100");
    assert_eq!(batches[2][49].1, vec!["1.0.0".to_string()]);
    assert!(advisory_batches(&StrMap::new()).is_empty());
}

#[test]
fn merging_batches_concatenates_and_reports_failures() {
    let mut first: StrMap<Vec<Advisory>> = StrMap::new();
    first.insert("a".to_string(), vec![adv(1, "high")]);
    let mut second: StrMap<Vec<Advisory>> = StrMap::new();
    second.insert("a".to_string(), vec![adv(2, "low")]);
    second.insert("b".to_string(), vec![adv(3, "critical")]);
    let results = vec![Ok(first), Err("timeout".to_string()), Ok(second)];
    let (all, warnings, errors) = merge_advisory_batches(&results);
    assert_eq!(all.get("a").unwrap().iter().map(|a| a.id).collect::<Vec<_>>(), vec![1, 2]);
    assert_eq!(all.get("b").unwrap().len(), 1);
    assert_eq!(warnings, vec!["warning: advisory batch 2 failed: timeout".to_string()]);
    assert_eq!(errors.len(), 1);
    assert_eq!(errors[0].batch, 2);
    assert_eq!(errors[0].error, "timeout");
}

#[test]
fn rows_with_parents_and_unknown_severity() {
    let mut advisories: StrMap<Vec<Advisory>> = StrMap::new();
    advisories.insert("express".to_string(), vec![adv(10, "moderate")]);
    advisories.insert("qs".to_string(), vec![adv(11, "weird")]);
    advisories.insert("absent".to_string(), vec![adv(12, "high")]);
    let mut versions: StrMap<StrSet> = StrMap::new();
    versions.insert("express".to_string(), set_of(&["4.0.0"]));
    versions.insert("qs".to_string(), set_of(&["6.0.0", "6.1.0"]));
    let direct = set_of(&["express"]);
    let mut reverse: StrMap<String> = StrMap::new();
    reverse.insert("qs".to_string(), "express".to_string());
    let (rows, warnings) = audit_entries(&advisories, &versions, &direct, &reverse);
    assert_eq!(rows.len(), 3);
    assert_eq!(rows[0].name, "express");
    assert_eq!(rows[0].parent, None);
    assert_eq!(rows[0].severity, Severity::Moderate);
    assert_eq!(rows[1].name, "qs");
    assert_eq!(rows[1].version, "6.0.0");
    assert_eq!(rows[1].severity, Severity::Low);
    assert_eq!(rows[1].parent, Some("express".to_string()));
    assert_eq!(rows[2].version, "6.1.0");
    assert_eq!(warnings.len(), 2);
    assert_eq!(
        warnings[0],
        "warning: unknown severity 'weird' for advisory 11 on qs — treating as low"
    );
}

#[test]
fn order_by_severity_then_name_and_filter() {
    let rows = vec![
        row("b", Severity::Low),
        row("a", Severity::High),
        row("c", Severity::Critical),
        row("a", Severity::Low),
        row("a", Severity::Critical),
    ];
    let (kept, below) = order_and_filter(&rows, Severity::Low);
    let got: Vec<(&str, Severity)> = kept.iter().map(|e| (e.name.as_str(), e.severity)).collect();
    assert_eq!(
        got,
        vec![
            ("a", Severity::Critical),
            ("c", Severity::Critical),
            ("a", Severity::High),
            ("a", Severity::Low),
            ("b", Severity::Low)
        ]
    );
    assert_eq!(below, 0);
    let (kept, below) = order_and_filter(&rows, Severity::High);
    assert_eq!(kept.len(), 3);
    assert_eq!(below, 2);
}

#[test]
fn direct_names_cover_three_sections() {
    let mut p = PackageJson {
        name: None,
        version: None,
        dependencies: StrMap::new(),
        dev_dependencies: StrMap::new(),
        peer_dependencies: StrMap::new(),
        optional_dependencies: StrMap::new(),
        bundled_dependencies: vec![],
        scripts: StrMap::new(),
        overrides: StrMap::new(),
    };
    p.dependencies.insert("a".to_string(), "1".to_string());
    p.dev_dependencies.insert("b".to_string(), "1".to_string());
    p.peer_dependencies.insert("c".to_string(), "1".to_string());
    p.optional_dependencies.insert("d".to_string(), "1".to_string());
    let s = direct_dependency_names(&p);
    assert!(s.contains("a") && s.contains("b") && s.contains("d"));
    assert!(!s.contains("c"));
}

fn row_p(name: &str, version: &str, patched: &str) -> AuditEntry {
    AuditEntry {
        name: name.to_string(),
        version: version.to_string(),
        severity: Severity::High,
        title: String::new(),
        url: String::new(),
        patched: patched.to_string(),
        id: 0,
        parent: None,
    }
}

#[test]
fn fix_targets_merge_ranges_once_per_package() {
    let rows = vec![
        row_p("lodash", "4.17.19", ">=4.17.20"),
        row_p("qs", "6.0.0", ">=6.2.0"),
        row_p("lodash", "4.17.19", ">=4.17.21"),
    ];
    let t = fix_targets(&rows);
    assert_eq!(
        t,
        vec![
            ("lodash".to_string(), "4.17.19".to_string(), ">=4.17.20 >=4.17.21".to_string()),
            ("qs".to_string(), "6.0.0".to_string(), ">=6.2.0".to_string())
        ]
    );
}

#[test]
fn fix_outcomes() {
    match fix_outcome("qs", "6.0.0", ">=6.2.0", None, Ok(None)) {
        FixOutcome::Manual(m) => {
            assert_eq!(m.reason, "transitive dependency — update the parent package");
            assert_eq!(m.range, "");
        }
        _ => panic!("expected manual"),
    }
    match fix_outcome("qs", "6.0.0", ">=6.2.0", Some("^6.0.0"), Err("offline")) {
        FixOutcome::Manual(m) => assert_eq!(m.reason, "failed to fetch metadata: offline"),
        _ => panic!("expected manual"),
    }
    match fix_outcome("qs", "6.0.0", ">=6.2.0", Some("^6.0.0"), Ok(Some("6.3.0"))) {
        FixOutcome::Fixed(f) => assert_eq!((f.from.as_str(), f.to.as_str()), ("6.0.0", "6.3.0")),
        _ => panic!("expected a fix"),
    }
    assert!(matches!(fix_outcome("qs", "6.3.0", ">=6.2.0", Some("^6.0.0"), Ok(Some("6.3.0"))), FixOutcome::UpToDate));
    match fix_outcome("qs", "6.0.0", "<0.0.0", Some("^6.0.0"), Ok(None)) {
        FixOutcome::Manual(m) => assert_eq!(m.reason, "no patched version available"),
        _ => panic!("expected manual"),
    }
    match fix_outcome("qs", "6.0.0", ">=7.0.0", Some("^6.0.0"), Ok(None)) {
        FixOutcome::Manual(m) => assert_eq!(m.reason, "patched version outside declared range ^6.0.0"),
        _ => panic!("expected manual"),
    }
}

#[test]
fn version_dist_falls_back_to_registry_url() {
    assert_eq!(
        version_dist("@scope/pkg", "1.2.3", None),
        ("https://registry.npmjs.org/@scope/pkg/-/pkg-1.2.3.tgz".to_string(), String::new())
    );
    assert_eq!(
        version_dist("lodash", "4.17.21", Some(("", "sha512-x"))),
        ("https://registry.npmjs.org/lodash/-/lodash-4.17.21.tgz".to_string(), String::new())
    );
    assert_eq!(
        version_dist("lodash", "4.17.21", Some(("https://cdn/l.tgz", "sha512-x"))),
        ("https://cdn/l.tgz".to_string(), "sha512-x".to_string())
    );
}

#[test]
fn extract_version_dist_reads_metadata() {
    let dist = JsonValue::Object(vec![
        ("integrity".to_string(), JsonValue::Str("sha512-abc".to_string())),
        ("tarball".to_string(), JsonValue::Str("https://r/qs/-/qs-6.3.0.tgz".to_string())),
    ]);
    let meta = JsonValue::Object(vec![("dist".to_string(), dist)]);
    let mut versions: StrMap<JsonValue> = StrMap::new();
    versions.insert("6.3.0".to_string(), meta);
    versions.insert("6.4.0".to_string(), JsonValue::Object(vec![]));
    assert_eq!(
        extract_version_dist("qs", "6.3.0", Some(&versions)),
        ("https://r/qs/-/qs-6.3.0.tgz".to_string(), "sha512-abc".to_string())
    );
    assert_eq!(
        extract_version_dist("qs", "6.4.0", Some(&versions)),
        ("https://registry.npmjs.org/qs/-/qs-6.4.0.tgz".to_string(), String::new())
    );
    assert_eq!(
        extract_version_dist("@s/qs", "1.0.0", None),
        ("https://registry.npmjs.org/@s/qs/-/qs-1.0.0.tgz".to_string(), String::new())
    );
}
