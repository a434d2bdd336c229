use vtz::pm::commands::{script_command, script_command_for, script_path};
use vtz::pm::commands::{
    added_range, dep_kind, download_failure_message, github_specifier, merge_install_deps, metadata_warning,
    outdated_entry, outdated_tasks, patches_heading, plan_update, remove_dependencies, untrusted_warnings,
    update_targets, add_dependency, DepKind,
};
use vtz::pm::types::{Lockfile, LockfileEntry, PackageJson};
use vtz::smap::StrMap;

fn map_of(pairs: &[(&str, &str)]) -> StrMap<String> {
    let mut m = StrMap::new();
    for (k, v) in pairs {
        m.insert(k.to_string(), v.to_string());
    }
    m
}

fn pkg(deps: &[(&str, &str)], dev: &[(&str, &str)], peer: &[(&str, &str)], opt: &[(&str, &str)]) -> PackageJson {
    PackageJson {
        name: Some("app".to_string()),
        version: Some("1.0.0".to_string()),
        dependencies: map_of(deps),
        dev_dependencies: map_of(dev),
        peer_dependencies: map_of(peer),
        optional_dependencies: map_of(opt),
        bundled_dependencies: vec![],
        scripts: StrMap::new(),
        overrides: StrMap::new(),
    }
}

fn entry(name: &str, range: &str, version: &str) -> LockfileEntry {
    LockfileEntry {
        name: name.to_string(),
        range: range.to_string(),
        version: version.to_string(),
        resolved: String::new(),
        integrity: String::new(),
        dependencies: StrMap::new(),
        bin: StrMap::new(),
        scripts: StrMap::new(),
        optional: false,
        overridden: false,
    }
}

fn names(v: &[String]) -> Vec<&str> {
    v.iter().map(|s| s.as_str()).collect()
}

#[test]
fn dep_kind_flags_are_exclusive() {
    assert_eq!(dep_kind(false, false, false).unwrap(), DepKind::Regular);
    assert_eq!(dep_kind(true, false, false).unwrap(), DepKind::Dev);
    assert_eq!(dep_kind(false, true, false).unwrap(), DepKind::Peer);
    assert_eq!(dep_kind(false, false, true).unwrap(), DepKind::Optional);
    assert_eq!(
        dep_kind(true, true, false).unwrap_err(),
        "error: --dev, --peer, and --optional are mutually exclusive"
    );
}

#[test]
fn add_dependency_goes_to_its_section() {
    let mut p = pkg(&[("a", "^1")], &[], &[], &[]);
    add_dependency(&mut p, DepKind::Dev, "b".to_string(), "^2".to_string());
    assert_eq!(p.dev_dependencies.get("b"), Some(&"^2".to_string()));
    assert_eq!(p.dependencies.get("b"), None);
    add_dependency(&mut p, DepKind::Regular, "a".to_string(), "^3".to_string());
    assert_eq!(p.dependencies.get("a"), Some(&"^3".to_string()));
}

#[test]
fn remove_takes_from_the_first_section_and_reports_missing() {
    let mut p = pkg(&[("a", "1"), ("b", "1")], &[("b", "2"), ("c", "2")], &[("d", "3")], &[("e", "4")]);
    let removed = remove_dependencies(&mut p, &vec!["b".to_string(), "e".to_string()]).unwrap();
    assert_eq!(names(&removed), vec!["b", "e"]);
    assert!(!p.dependencies.contains_key("b"));
    assert!(p.dev_dependencies.contains_key("b"));
    assert!(!p.optional_dependencies.contains_key("e"));

    let mut p = pkg(&[("a", "1")], &[], &[], &[]);
    let err = remove_dependencies(&mut p, &vec!["x".to_string()]).unwrap_err();
    assert_eq!(err, "error: package is not a direct dependency: \"x\"");
    let mut p = pkg(&[("a", "1")], &[], &[], &[]);
    let err = remove_dependencies(&mut p, &vec!["x".to_string(), "a".to_string(), "y".to_string()]).unwrap_err();
    assert_eq!(err, "error: packages are not a direct dependency: \"x\", \"y\"");
}

#[test]
fn update_targets_all_or_named() {
    let p = pkg(&[("b", "^1"), ("a", "~2")], &[("c", "3")], &[], &[]);
    let all = update_targets(&p, &vec![]).unwrap();
    assert_eq!(
        all,
        vec![
            ("a".to_string(), "~2".to_string(), false),
            ("b".to_string(), "^1".to_string(), false),
            ("c".to_string(), "3".to_string(), true)
        ]
    );
    let named = update_targets(&p, &vec!["c".to_string(), "a".to_string()]).unwrap();
    assert_eq!(named, vec![("c".to_string(), "3".to_string(), true), ("a".to_string(), "~2".to_string(), false)]);
    assert_eq!(
        update_targets(&p, &vec!["zzz".to_string()]).unwrap_err(),
        "error: package is not a direct dependency: \"zzz\""
    );
}

#[test]
fn plan_update_keeps_or_rewrites_the_range() {
    let u = plan_update("zod", "^3.0.0", false, "3.1.0", Some("3.2.0"), false).unwrap();
    assert_eq!((u.from.as_str(), u.to.as_str(), u.range.as_str()), ("3.1.0", "3.2.0", "^3.0.0"));
    let u = plan_update("zod", "~3.0.0", true, "3.1.0", Some("4.0.0"), true).unwrap();
    assert_eq!(u.range, "~4.0.0");
    assert!(u.dev);
    assert!(plan_update("zod", "^3.0.0", false, "3.1.0", Some("3.1.0"), false).is_none());
    assert!(plan_update("zod", "^3.0.0", false, "3.1.0", None, true).is_none());
}

#[test]
fn outdated_tasks_follow_the_lockfile() {
    let p = pkg(&[("a", "^1")], &[("b", "^2")], &[], &[("c", "^3")]);
    let mut lock = Lockfile::default();
    lock.entries.insert("a@^1".to_string(), entry("a", "^1", "1.0.0"));
    lock.entries.insert("c@^3".to_string(), entry("c", "^3", "3.1.0"));
    let tasks = outdated_tasks(&p, &lock);
    assert_eq!(
        tasks,
        vec![
            ("a".to_string(), "^1".to_string(), "1.0.0".to_string(), false),
            ("c".to_string(), "^3".to_string(), "3.1.0".to_string(), false)
        ]
    );
}

#[test]
fn outdated_entry_defaults_to_current() {
    let e = outdated_entry("a", "^1", "1.0.0", false, Some("1.2.0"), None).unwrap();
    assert_eq!((e.wanted.as_str(), e.latest.as_str()), ("1.2.0", "1.0.0"));
    assert!(outdated_entry("a", "^1", "1.0.0", false, None, Some("1.0.0")).is_none());
    assert_eq!(metadata_warning("a", "boom"), "warning: could not fetch metadata for a: boom");
}

#[test]
fn added_range_cases() {
    assert_eq!(added_range("zod", None, None, Some("3.2.0"), false).unwrap(), ("^3.2.0".to_string(), "3.2.0".to_string()));
    assert_eq!(added_range("zod", None, None, Some("3.2.0"), true).unwrap(), ("3.2.0".to_string(), "3.2.0".to_string()));
    assert_eq!(added_range("zod", Some("^3.0.0"), Some("3.2.0"), None, false).unwrap(), ("^3.0.0".to_string(), "^3.0.0".to_string()));
    assert_eq!(added_range("zod", Some("^3.0.0"), Some("3.2.0"), None, true).unwrap(), ("3.2.0".to_string(), "3.2.0".to_string()));
    assert_eq!(added_range("zod", Some("3.1.0"), Some("3.1.0"), None, false).unwrap(), ("^3.1.0".to_string(), "3.1.0".to_string()));
    assert_eq!(
        added_range("zod", Some("^9"), None, None, false).unwrap_err(),
        "error: no version of \"zod\" matches \"^9\""
    );
    assert_eq!(
        added_range("zod", Some("9.9.9"), None, Some("3.2.0"), false).unwrap_err(),
        "error: no version of \"zod\" matches \"9.9.9\" (latest: 3.2.0)"
    );
    assert_eq!(
        added_range("zod", Some("9.9.9"), None, None, false).unwrap_err(),
        "error: no version of \"zod\" matches \"9.9.9\" (latest: unknown)"
    );
    assert_eq!(
        added_range("nope", None, None, None, false).unwrap_err(),
        "error: package \"nope\" not found in npm registry"
    );
}

#[test]
fn github_specifier_text() {
    assert_eq!(github_specifier("user", "repo", None), "github:user/repo");
    assert_eq!(github_specifier("user", "repo", Some("v1")), "github:user/repo#v1");
}

#[test]
fn merge_install_deps_later_sections_win() {
    let merged = merge_install_deps(&map_of(&[("a", "1"), ("b", "1")]), &map_of(&[("b", "2")]), &map_of(&[("c", "3"), ("a", "3")]));
    assert_eq!(merged.get("a"), Some(&"3".to_string()));
    assert_eq!(merged.get("b"), Some(&"2".to_string()));
    assert_eq!(merged.get("c"), Some(&"3".to_string()));
    assert_eq!(merged.len(), 3);
}

#[test]
fn install_messages() {
    assert_eq!(
        download_failure_message(&vec!["a failed".to_string(), "b failed".to_string()]),
        "Failed to download 2 package(s):\n  a failed\n  b failed"
    );
    assert_eq!(patches_heading(1), "Applying 1 patch:");
    assert_eq!(patches_heading(3), "Applying 3 patches:");
    assert_eq!(
        untrusted_warnings(&vec![("esbuild".to_string(), "node install.js".to_string()), ("sharp".to_string(), "x".to_string())]),
        vec![
            "skipping untrusted postinstall for \"esbuild\" (node install.js)".to_string(),
            "skipping untrusted postinstall for \"sharp\" (x)".to_string(),
            "fix: vertz config add trust-scripts esbuild sharp".to_string()
        ]
    );
}

#[test]
fn script_commands_quote_extra_args() {
    let scripts = map_of(&[("test", "vitest run")]);
    assert_eq!(script_command_for(&scripts, "test", &vec![], false), Ok("vitest run".to_string()));
    assert_eq!(
        script_command_for(&scripts, "test", &vec!["--watch".to_string(), "a b".to_string()], false),
        Ok("vitest run --watch 'a b'".to_string())
    );
    assert_eq!(
        script_command_for(&scripts, "test", &vec!["a b".to_string()], true),
        Ok("vitest run \"a b\"".to_string())
    );
    assert_eq!(
        script_command(&scripts, "build", &vec![]),
        Err("error: script not found: \"build\"".to_string())
    );
}

#[test]
fn script_path_puts_bins_first() {
    assert_eq!(script_path("/p/node_modules/.bin", None, Some("/usr/bin"), ":"), "/p/node_modules/.bin:/usr/bin");
    assert_eq!(
        script_path("/p/node_modules/.bin", Some("/p/ws/node_modules/.bin"), None, ";"),
        "/p/ws/node_modules/.bin;/p/node_modules/.bin"
    );
}
