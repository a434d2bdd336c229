use vtz::pm::install::verify_frozen_deps;
use vtz::pm::listing::{build_list, format_list_json, format_list_text, ListEntry, ListOptions};
use vtz::pm::types::{Lockfile, LockfileEntry, PackageJson};
use vtz::pm::why::{build_why, format_why_json, format_why_text, WhyPathEntry, WhyResult, WhyVersion};
use vtz::smap::StrMap;

fn map_of(pairs: &[(&str, &str)]) -> StrMap<String> {
    let mut m = StrMap::new();
    for (k, v) in pairs {
        m.insert(k.to_string(), v.to_string());
    }
    m
}

fn make_pkg(deps: &[(&str, &str)], dev_deps: &[(&str, &str)]) -> PackageJson {
    PackageJson {
        name: Some("test-app".to_string()),
        version: Some("1.0.0".to_string()),
        dependencies: map_of(deps),
        dev_dependencies: map_of(dev_deps),
        peer_dependencies: StrMap::new(),
        optional_dependencies: StrMap::new(),
        bundled_dependencies: vec![],
        scripts: StrMap::new(),
        overrides: StrMap::new(),
    }
}

fn make_lockfile_entry(name: &str, range: &str, version: &str, deps: &[(&str, &str)]) -> LockfileEntry {
    LockfileEntry {
        name: name.to_string(),
        range: range.to_string(),
        version: version.to_string(),
        resolved: format!("https://registry.npmjs.org/{}/-/{}-{}.tgz", name, name, version),
        integrity: format!("sha512-fake-{}", name),
        dependencies: map_of(deps),
        bin: StrMap::new(),
        scripts: StrMap::new(),
        optional: false,
        overridden: false,
    }
}

fn lock(entries: Vec<(&str, LockfileEntry)>) -> Lockfile {
    let mut lockfile = Lockfile::default();
    for (k, e) in entries {
        lockfile.entries.insert(k.to_string(), e);
    }
    lockfile
}

fn opts(all: bool, depth: Option<usize>, filter: Option<&str>) -> ListOptions {
    ListOptions {
        all,
        depth,
        filter: filter.map(|s| s.to_string()),
    }
}

fn entry(name: &str, version: Option<&str>, range: &str, dev: bool, depth: usize, parent: Option<&str>) -> ListEntry {
    ListEntry {
        name: name.to_string(),
        version: version.map(|s| s.to_string()),
        range: range.to_string(),
        dev,
        depth,
        parent: parent.map(|s| s.to_string()),
    }
}

fn react_chain() -> Lockfile {
    lock(vec![
        ("react@^18.3.0", make_lockfile_entry("react", "^18.3.0", "18.3.1", &[("loose-envify", "^1.1.0")])),
        (
            "loose-envify@^1.1.0",
            make_lockfile_entry("loose-envify", "^1.1.0", "1.4.0", &[("js-tokens", "^3.0.0 || ^4.0.0")]),
        ),
        ("js-tokens@^3.0.0 || ^4.0.0", make_lockfile_entry("js-tokens", "^3.0.0 || ^4.0.0", "4.0.0", &[])),
    ])
}

// --- verify_frozen tests ---

#[test]
fn test_verify_frozen_passes() {
    let deps = map_of(&[("zod", "^3.24.0")]);
    let lockfile = lock(vec![("zod@^3.24.0", make_lockfile_entry("zod", "^3.24.0", "3.24.4", &[]))]);
    assert!(verify_frozen_deps(&deps, &lockfile).is_ok());
}

#[test]
fn test_verify_frozen_fails_missing_dep() {
    let deps = map_of(&[("zod", "^3.24.0")]);
    let lockfile = Lockfile::default();
    let result = verify_frozen_deps(&deps, &lockfile);
    assert!(result.is_err());
    assert!(result.unwrap_err().contains("lockfile is out of date"));
}

#[test]
fn test_verify_frozen_fails_changed_range() {
    let deps = map_of(&[("zod", "^4.0.0")]);
    let lockfile = lock(vec![("zod@^3.24.0", make_lockfile_entry("zod", "^3.24.0", "3.24.4", &[]))]);
    let result = verify_frozen_deps(&deps, &lockfile);
    assert!(result.is_err());
}

#[test]
fn verify_frozen_error_names_the_first_missing_dependency() {
    let deps = map_of(&[("b", "^2.0.0"), ("a", "^1.0.0")]);
    let lockfile = Lockfile::default();
    assert_eq!(
        verify_frozen_deps(&deps, &lockfile).unwrap_err(),
        "error: lockfile is out of date\n  a \"^1.0.0\" not found in vertz.lock\n  Run `vertz install` to update"
    );
}

#[test]
fn test_verify_frozen_passes_with_github_dep() {
    let deps = map_of(&[("zod", "^3.24.0"), ("my-lib", "github:user/my-lib#v2.1.0")]);
    let mut lockfile = lock(vec![("zod@^3.24.0", make_lockfile_entry("zod", "^3.24.0", "3.24.4", &[]))]);
    lockfile.entries.insert(
        "my-lib@github:user/my-lib#v2.1.0".to_string(),
        LockfileEntry {
            name: "my-lib".to_string(),
            range: "github:user/my-lib#v2.1.0".to_string(),
            version: "a1b2c3d4e5f6a1b2c3d4e5f6a1b2c3d4e5f6a1b2".to_string(),
            resolved: "https://codeload.github.com/user/my-lib/tar.gz/a1b2c3d4e5f6a1b2c3d4e5f6a1b2c3d4e5f6a1b2"
                .to_string(),
            integrity: "sha512-fakehash".to_string(),
            dependencies: StrMap::new(),
            bin: StrMap::new(),
            scripts: StrMap::new(),
            optional: false,
            overridden: false,
        },
    );
    assert!(verify_frozen_deps(&deps, &lockfile).is_ok());
}

#[test]
fn test_verify_frozen_fails_missing_github_dep() {
    let deps = map_of(&[("my-lib", "github:user/my-lib")]);
    let lockfile = Lockfile::default();
    let result = verify_frozen_deps(&deps, &lockfile);
    assert!(result.is_err());
    assert!(result.unwrap_err().contains("lockfile is out of date"));
}

// --- build_list tests ---

#[test]
fn test_list_direct_deps_only() {
    let pkg = make_pkg(&[("react", "^18.3.0"), ("zod", "^3.24.0")], &[("typescript", "^5.0.0")]);
    let lockfile = lock(vec![
        ("react@^18.3.0", make_lockfile_entry("react", "^18.3.0", "18.3.1", &[("loose-envify", "^1.1.0")])),
        ("zod@^3.24.0", make_lockfile_entry("zod", "^3.24.0", "3.24.4", &[])),
        ("typescript@^5.0.0", make_lockfile_entry("typescript", "^5.0.0", "5.7.3", &[])),
    ]);
    let entries = build_list(&pkg, &lockfile, &opts(false, None, None));
    assert_eq!(entries.len(), 3);
    assert!(entries.iter().all(|e| e.depth == 0));
    let react = entries.iter().find(|e| e.name == "react").unwrap();
    assert_eq!(react.version, Some("18.3.1".to_string()));
    assert!(!react.dev);
    assert!(react.parent.is_none());
    let ts = entries.iter().find(|e| e.name == "typescript").unwrap();
    assert!(ts.dev);
}

#[test]
fn test_list_all_shows_transitive() {
    let pkg = make_pkg(&[("react", "^18.3.0")], &[]);
    let entries = build_list(&pkg, &react_chain(), &opts(true, None, None));
    assert_eq!(entries.len(), 3);
    assert_eq!(entries[0].name, "react");
    assert_eq!(entries[0].depth, 0);
    assert_eq!(entries[1].name, "loose-envify");
    assert_eq!(entries[1].depth, 1);
    assert_eq!(entries[1].parent, Some("react".to_string()));
    assert_eq!(entries[2].name, "js-tokens");
    assert_eq!(entries[2].depth, 2);
    assert_eq!(entries[2].parent, Some("loose-envify".to_string()));
}

#[test]
fn test_list_depth_limits_traversal() {
    let pkg = make_pkg(&[("react", "^18.3.0")], &[]);
    let entries = build_list(&pkg, &react_chain(), &opts(false, Some(1), None));
    assert_eq!(entries.len(), 2);
    assert_eq!(entries[0].name, "react");
    assert_eq!(entries[1].name, "loose-envify");
    assert_eq!(entries[1].depth, 1);
}

fn react_zod_lock() -> Lockfile {
    lock(vec![
        ("react@^18.3.0", make_lockfile_entry("react", "^18.3.0", "18.3.1", &[("loose-envify", "^1.1.0")])),
        ("loose-envify@^1.1.0", make_lockfile_entry("loose-envify", "^1.1.0", "1.4.0", &[])),
        ("zod@^3.24.0", make_lockfile_entry("zod", "^3.24.0", "3.24.4", &[])),
    ])
}

#[test]
fn test_list_filter_by_package() {
    let pkg = make_pkg(&[("react", "^18.3.0"), ("zod", "^3.24.0")], &[]);
    let entries = build_list(&pkg, &react_zod_lock(), &opts(false, None, Some("react")));
    assert_eq!(entries.len(), 1);
    assert_eq!(entries[0].name, "react");
}

#[test]
fn test_list_filter_with_all_shows_subtree() {
    let pkg = make_pkg(&[("react", "^18.3.0"), ("zod", "^3.24.0")], &[]);
    let entries = build_list(&pkg, &react_zod_lock(), &opts(true, None, Some("react")));
    assert_eq!(entries.len(), 2);
    assert_eq!(entries[0].name, "react");
    assert_eq!(entries[1].name, "loose-envify");
}

#[test]
fn test_list_no_lockfile() {
    let pkg = make_pkg(&[("react", "^18.3.0")], &[]);
    let entries = build_list(&pkg, &Lockfile::default(), &opts(false, None, None));
    assert_eq!(entries.len(), 1);
    assert_eq!(entries[0].name, "react");
    assert!(entries[0].version.is_none());
}

fn circular_lock() -> Lockfile {
    lock(vec![
        ("a@^1.0.0", make_lockfile_entry("a", "^1.0.0", "1.0.0", &[("b", "^1.0.0")])),
        ("b@^1.0.0", make_lockfile_entry("b", "^1.0.0", "1.0.0", &[("a", "^1.0.0")])),
    ])
}

#[test]
fn test_list_circular_deps_no_infinite_loop() {
    let pkg = make_pkg(&[("a", "^1.0.0")], &[]);
    let entries = build_list(&pkg, &circular_lock(), &opts(true, None, None));
    assert!(entries.len() >= 2);
    assert_eq!(entries[0].name, "a");
    assert_eq!(entries[1].name, "b");
}

#[test]
fn test_list_depth_zero_shows_only_direct() {
    let pkg = make_pkg(&[("react", "^18.3.0")], &[]);
    let lockfile = lock(vec![
        ("react@^18.3.0", make_lockfile_entry("react", "^18.3.0", "18.3.1", &[("loose-envify", "^1.1.0")])),
        ("loose-envify@^1.1.0", make_lockfile_entry("loose-envify", "^1.1.0", "1.4.0", &[])),
    ]);
    let entries = build_list(&pkg, &lockfile, &opts(false, Some(0), None));
    assert_eq!(entries.len(), 1);
    assert_eq!(entries[0].name, "react");
}

#[test]
fn test_list_github_dep() {
    let pkg = make_pkg(&[("zod", "^3.24.0"), ("my-lib", "github:user/my-lib#v2.1.0")], &[]);
    let mut lockfile = lock(vec![("zod@^3.24.0", make_lockfile_entry("zod", "^3.24.0", "3.24.4", &[]))]);
    lockfile.entries.insert(
        "my-lib@github:user/my-lib#v2.1.0".to_string(),
        LockfileEntry {
            name: "my-lib".to_string(),
            range: "github:user/my-lib#v2.1.0".to_string(),
            version: "a1b2c3d".to_string(),
            resolved: "https://codeload.github.com/user/my-lib/tar.gz/a1b2c3d".to_string(),
            integrity: "sha512-fakehash".to_string(),
            dependencies: StrMap::new(),
            bin: StrMap::new(),
            scripts: StrMap::new(),
            optional: false,
            overridden: false,
        },
    );
    let entries = build_list(&pkg, &lockfile, &opts(false, None, None));
    assert_eq!(entries.len(), 2);
    let my_lib = entries.iter().find(|e| e.name == "my-lib").unwrap();
    assert_eq!(my_lib.version, Some("a1b2c3d".to_string()));
    assert_eq!(my_lib.range, "github:user/my-lib#v2.1.0");
}

// --- format tests ---

#[test]
fn test_format_list_text_grouped() {
    let entries = vec![
        entry("react", Some("18.3.1"), "^18.3.0", false, 0, None),
        entry("typescript", Some("5.7.3"), "^5.0.0", true, 0, None),
    ];
    let text = format_list_text(&entries);
    assert!(text.contains("dependencies:"));
    assert!(text.contains("  react@18.3.1"));
    assert!(text.contains("devDependencies:"));
    assert!(text.contains("  typescript@5.7.3"));
}

#[test]
fn test_format_list_text_tree_indentation() {
    let entries = vec![
        entry("react", Some("18.3.1"), "^18.3.0", false, 0, None),
        entry("loose-envify", Some("1.4.0"), "^1.1.0", false, 1, Some("react")),
    ];
    let text = format_list_text(&entries);
    assert!(text.contains("  react@18.3.1"));
    assert!(text.contains("    loose-envify@1.4.0"));
}

#[test]
fn test_format_list_text_not_installed() {
    let entries = vec![entry("react", None, "^18.3.0", false, 0, None)];
    let text = format_list_text(&entries);
    assert!(text.contains("react@(not installed)"));
}

#[test]
fn test_format_list_json_direct() {
    let entries = vec![entry("zod", Some("3.24.4"), "^3.24.0", false, 0, None)];
    let json = format_list_json(&entries);
    let parsed: serde_json::Value = serde_json::from_str(json.trim()).unwrap();
    assert_eq!(parsed["type"], "dependency");
    assert_eq!(parsed["name"], "zod");
    assert_eq!(parsed["version"], "3.24.4");
    assert_eq!(parsed["range"], "^3.24.0");
    assert_eq!(parsed["dev"], false);
    assert_eq!(parsed["depth"], 0);
    assert!(parsed.get("parent").is_none());
    assert!(parsed.get("installed").is_none());
}

#[test]
fn test_format_list_json_transitive() {
    let entries = vec![entry("loose-envify", Some("1.4.0"), "^1.1.0", false, 1, Some("react"))];
    let json = format_list_json(&entries);
    let parsed: serde_json::Value = serde_json::from_str(json.trim()).unwrap();
    assert_eq!(parsed["depth"], 1);
    assert_eq!(parsed["parent"], "react");
}

#[test]
fn test_format_list_json_not_installed() {
    let entries = vec![entry("react", None, "^18.3.0", false, 0, None)];
    let json = format_list_json(&entries);
    let parsed: serde_json::Value = serde_json::from_str(json.trim()).unwrap();
    assert!(parsed["version"].is_null());
    assert_eq!(parsed["installed"], false);
}

#[test]
fn test_format_list_json_ndjson_multiple_lines() {
    let entries = vec![
        entry("react", Some("18.3.1"), "^18.3.0", false, 0, None),
        entry("zod", Some("3.24.4"), "^3.24.0", false, 0, None),
    ];
    let json = format_list_json(&entries);
    let lines: Vec<&str> = json.trim().split('\n').collect();
    assert_eq!(lines.len(), 2);
    for line in &lines {
        let parsed: serde_json::Value = serde_json::from_str(line).unwrap();
        assert_eq!(parsed["type"], "dependency");
    }
}

#[test]
fn format_list_json_exact_line() {
    let entries = vec![entry("zod", Some("3.24.4"), "^3.24.0", false, 0, None)];
    assert_eq!(
        format_list_json(&entries),
        "{\"depth\":0,\"dev\":false,\"name\":\"zod\",\"range\":\"^3.24.0\",\"type\":\"dependency\",\"version\":\"3.24.4\"}\n"
    );
}

#[test]
fn test_format_list_text_empty() {
    let entries = Vec::new();
    let text = format_list_text(&entries);
    assert!(text.is_empty());
}

#[test]
fn test_format_list_json_empty() {
    let entries = Vec::new();
    let json = format_list_json(&entries);
    assert!(json.is_empty());
}

// --- build_why tests ---

#[test]
fn test_why_direct_dependency() {
    let pkg = make_pkg(&[("react", "^18.3.0")], &[]);
    let lockfile = lock(vec![("react@^18.3.0", make_lockfile_entry("react", "^18.3.0", "18.3.1", &[]))]);
    let result = build_why(&pkg, &lockfile, "react").unwrap();
    assert_eq!(result.name, "react");
    assert_eq!(result.versions.len(), 1);
    assert_eq!(result.versions[0].version, "18.3.1");
    assert_eq!(result.versions[0].paths.len(), 1);
    assert!(result.versions[0].paths[0].is_empty());
}

#[test]
fn test_why_transitive_dependency() {
    let pkg = make_pkg(&[("react", "^18.3.0")], &[]);
    let result = build_why(&pkg, &react_chain(), "js-tokens").unwrap();
    assert_eq!(result.name, "js-tokens");
    assert_eq!(result.versions.len(), 1);
    assert_eq!(result.versions[0].version, "4.0.0");
    assert_eq!(result.versions[0].paths.len(), 1);
    let path = &result.versions[0].paths[0];
    assert_eq!(path.len(), 3);
    assert_eq!(path[0].name, "react");
    assert_eq!(path[1].name, "loose-envify");
    assert_eq!(path[2].name, "js-tokens");
}

#[test]
fn test_why_multiple_paths() {
    let pkg = make_pkg(&[("react", "^18.3.0"), ("react-dom", "^18.3.0")], &[]);
    let lockfile = lock(vec![
        ("react@^18.3.0", make_lockfile_entry("react", "^18.3.0", "18.3.1", &[("loose-envify", "^1.1.0")])),
        (
            "react-dom@^18.3.0",
            make_lockfile_entry("react-dom", "^18.3.0", "18.3.1", &[("loose-envify", "^1.1.0")]),
        ),
        ("loose-envify@^1.1.0", make_lockfile_entry("loose-envify", "^1.1.0", "1.4.0", &[])),
    ]);
    let result = build_why(&pkg, &lockfile, "loose-envify").unwrap();
    assert_eq!(result.versions.len(), 1);
    assert_eq!(result.versions[0].paths.len(), 2);
    assert_eq!(result.versions[0].paths[0][0].name, "react");
    assert_eq!(result.versions[0].paths[1][0].name, "react-dom");
}

#[test]
fn test_why_not_installed() {
    let pkg = make_pkg(&[("react", "^18.3.0")], &[]);
    let result = build_why(&pkg, &Lockfile::default(), "nonexistent");
    assert!(result.is_err());
    assert!(result.unwrap_err().to_string().contains("is not installed"));
}

#[test]
fn why_not_installed_message_is_exact() {
    let pkg = make_pkg(&[], &[]);
    assert_eq!(
        build_why(&pkg, &Lockfile::default(), "zod").unwrap_err(),
        "error: package \"zod\" is not installed"
    );
}

#[test]
fn why_direct_dependency_missing_from_lockfile_is_unknown() {
    let pkg = make_pkg(&[("zod", "^3.0.0")], &[]);
    let result = build_why(&pkg, &Lockfile::default(), "zod").unwrap();
    assert_eq!(result.versions.len(), 1);
    assert_eq!(result.versions[0].version, "unknown");
    assert!(result.versions[0].paths[0].is_empty());
}

#[test]
fn test_why_circular_deps() {
    let pkg = make_pkg(&[("a", "^1.0.0")], &[]);
    let result = build_why(&pkg, &circular_lock(), "b").unwrap();
    assert_eq!(result.versions.len(), 1);
    assert_eq!(result.versions[0].version, "1.0.0");
    assert!(!result.versions[0].paths.is_empty());
}

#[test]
fn test_why_multi_version() {
    let pkg = make_pkg(&[("lodash", "^4.0.0"), ("legacy-lib", "^1.0.0")], &[]);
    let lockfile = lock(vec![
        ("lodash@^4.0.0", make_lockfile_entry("lodash", "^4.0.0", "4.17.21", &[])),
        ("legacy-lib@^1.0.0", make_lockfile_entry("legacy-lib", "^1.0.0", "1.0.0", &[("lodash", "^3.0.0")])),
        ("lodash@^3.0.0", make_lockfile_entry("lodash", "^3.0.0", "3.10.1", &[])),
    ]);
    let result = build_why(&pkg, &lockfile, "lodash").unwrap();
    assert_eq!(result.versions.len(), 2);
    let v3 = result.versions.iter().find(|v| v.version == "3.10.1").unwrap();
    let v4 = result.versions.iter().find(|v| v.version == "4.17.21").unwrap();
    assert!(v4.paths.iter().any(|p| p.is_empty()));
    assert!(v3.paths.iter().any(|p| p.len() == 2 && p[0].name == "legacy-lib" && p[1].name == "lodash"));
    // versions come in increasing (string) order
    assert_eq!(result.versions[0].version, "3.10.1");
}

#[test]
fn why_paths_are_sorted_shortest_first() {
    // a -> b -> target, c -> target: the BFS finds the longer path first
    let pkg = make_pkg(&[("a", "1"), ("c", "1")], &[]);
    let lockfile = lock(vec![
        ("a@1", make_lockfile_entry("a", "1", "1.0.0", &[("b", "1")])),
        ("b@1", make_lockfile_entry("b", "1", "1.0.0", &[("t", "1")])),
        ("c@1", make_lockfile_entry("c", "1", "1.0.0", &[("t", "1")])),
        ("t@1", make_lockfile_entry("t", "1", "2.0.0", &[])),
    ]);
    let result = build_why(&pkg, &lockfile, "t").unwrap();
    let paths = &result.versions[0].paths;
    assert_eq!(paths.len(), 2);
    assert_eq!(paths[0].len(), 2);
    assert_eq!(paths[0][0].name, "c");
    assert_eq!(paths[1].len(), 3);
}

fn step(name: &str, range: &str, version: &str) -> WhyPathEntry {
    WhyPathEntry {
        name: name.to_string(),
        range: range.to_string(),
        version: version.to_string(),
    }
}

#[test]
fn test_format_why_text_direct() {
    let result = WhyResult {
        name: "react".to_string(),
        versions: vec![WhyVersion {
            version: "18.3.1".to_string(),
            paths: vec![vec![]],
        }],
    };
    let text = format_why_text(&result);
    assert!(text.contains("react@18.3.1"));
    assert!(text.contains("dependencies (direct)"));
    assert_eq!(text, "react@18.3.1\n  dependencies (direct)\n");
}

#[test]
fn test_format_why_text_transitive() {
    let result = WhyResult {
        name: "js-tokens".to_string(),
        versions: vec![WhyVersion {
            version: "4.0.0".to_string(),
            paths: vec![vec![
                step("react", "^18.3.0", "18.3.1"),
                step("loose-envify", "^1.1.0", "1.4.0"),
                step("js-tokens", "^3.0.0 || ^4.0.0", "4.0.0"),
            ]],
        }],
    };
    let text = format_why_text(&result);
    assert!(text.contains("js-tokens@4.0.0"));
    assert!(text.contains("react@^18.3.0"));
    assert!(text.contains("→"));
}

#[test]
fn format_why_text_caps_paths_at_ten() {
    let result = WhyResult {
        name: "t".to_string(),
        versions: vec![WhyVersion {
            version: "1.0.0".to_string(),
            paths: (0..12).map(|_| vec![step("a", "1", "1.0.0")]).collect(),
        }],
    };
    let text = format_why_text(&result);
    assert_eq!(text.matches("  a@1\n").count(), 10);
    assert!(text.ends_with("  and 2 more paths — use --json for all\n"));
}

#[test]
fn test_format_why_json() {
    let result = WhyResult {
        name: "js-tokens".to_string(),
        versions: vec![WhyVersion {
            version: "4.0.0".to_string(),
            paths: vec![vec![step("react", "^18.3.0", "18.3.1"), step("js-tokens", "^3.0.0 || ^4.0.0", "4.0.0")]],
        }],
    };
    let json = format_why_json(&result);
    let parsed: serde_json::Value = serde_json::from_str(json.trim()).unwrap();
    assert_eq!(parsed["name"], "js-tokens");
    assert_eq!(parsed["version"], "4.0.0");
    assert!(parsed["paths"].is_array());
    assert_eq!(parsed["paths"][0].as_array().unwrap().len(), 2);
}

#[test]
fn test_format_why_json_direct() {
    let result = WhyResult {
        name: "react".to_string(),
        versions: vec![WhyVersion {
            version: "18.3.1".to_string(),
            paths: vec![vec![]],
        }],
    };
    let json = format_why_json(&result);
    let parsed: serde_json::Value = serde_json::from_str(json.trim()).unwrap();
    assert_eq!(parsed["paths"][0].as_array().unwrap().len(), 0);
    assert_eq!(json, "{\"name\":\"react\",\"paths\":[[]],\"version\":\"18.3.1\"}\n");
}

#[test]
fn format_why_json_lists_versions_when_several() {
    let result = WhyResult {
        name: "lodash".to_string(),
        versions: vec![
            WhyVersion { version: "3.10.1".to_string(), paths: vec![] },
            WhyVersion { version: "4.17.21".to_string(), paths: vec![vec![]] },
        ],
    };
    assert_eq!(
        format_why_json(&result),
        "{\"name\":\"lodash\",\"paths\":[[]],\"version\":[\"3.10.1\",\"4.17.21\"]}\n"
    );
}

#[test]
fn why_follows_chain_through_cycle() {
    let pkg = make_pkg(&[("a", "1")], &[]);
    let lockfile = lock(vec![
        ("a@1", make_lockfile_entry("a", "1", "1.0.0", &[("b", "1")])),
        ("b@1", make_lockfile_entry("b", "1", "1.0.0", &[("a", "1"), ("t", "2")])),
        ("t@2", make_lockfile_entry("t", "2", "2.0.0", &[])),
    ]);
    let result = build_why(&pkg, &lockfile, "t").unwrap();
    assert_eq!(result.versions.len(), 1);
    assert_eq!(result.versions[0].version, "2.0.0");
    assert_eq!(result.versions[0].paths.len(), 1);
    let names: Vec<&str> = result.versions[0].paths[0].iter().map(|s| s.name.as_str()).collect();
    assert_eq!(names, vec!["a", "b", "t"]);
}

#[test]
fn why_text_blocks_separated_by_blank_line() {
    let result = WhyResult {
        name: "t".to_string(),
        versions: vec![
            WhyVersion {
                version: "1.0.0".to_string(),
                paths: vec![vec![]],
            },
            WhyVersion {
                version: "2.0.0".to_string(),
                paths: vec![vec![step("a", "1", "1.0.0"), step("t", "2", "2.0.0")]],
            },
        ],
    };
    let text = format_why_text(&result);
    assert_eq!(text, "t@1.0.0\n  dependencies (direct)\n\nt@2.0.0\n  a@1 → t@2\n");
}

#[test]
fn list_tops_in_group_order() {
    let mut pkg = make_pkg(&[("b", "1"), ("a", "1")], &[("c", "1")]);
    pkg.optional_dependencies = map_of(&[("d", "1")]);
    let lockfile = lock(vec![("a@1", make_lockfile_entry("a", "1", "1.0.0", &[("x", "1")]))]);
    let r = build_list(&pkg, &lockfile, &opts(true, None, None));
    let tops: Vec<(&str, bool)> =
        r.iter().filter(|e| e.depth == 0).map(|e| (e.name.as_str(), e.dev)).collect();
    assert_eq!(tops, vec![("a", false), ("b", false), ("c", true), ("d", false)]);
    assert!(r.iter().all(|e| (e.depth > 0) == e.parent.is_some()));
}

#[test]
fn why_does_not_follow_a_lockfile_key_twice() {
    // `x` under range `y@z` and `x@y` under range `z` share the key `x@y@z`;
    // the search visits that key once, so the chain to `x@y` is not followed.
    let pkg = make_pkg(&[("r", "1")], &[]);
    let lockfile = lock(vec![
        ("r@1", make_lockfile_entry("r", "1", "1.0.0", &[("x", "y@z")])),
        ("x@y@z", make_lockfile_entry("x", "y@z", "1.0.0", &[("m", "1")])),
        ("m@1", make_lockfile_entry("m", "1", "1.0.0", &[("x@y", "z")])),
    ]);
    assert!(build_why(&pkg, &lockfile, "x@y").is_err());
    assert!(build_why(&pkg, &lockfile, "m").is_ok());
}
