use vtz::pm::install::{github_plan, optional_failure_warning, override_applied_message, GithubStep};
use vtz::pm::linker::store_name;
use vtz::pm::tarball::{screen_entry, screen_tar_entry, EntryStep, MAX_FILE_SIZE};
use vtz::pm::types::{Lockfile, LockfileEntry};
use vtz::smap::StrMap;

fn map_of(pairs: &[(&str, &str)]) -> StrMap<String> {
    let mut m = StrMap::new();
    for (k, v) in pairs {
        m.insert(k.to_string(), v.to_string());
    }
    m
}

fn entry(name: &str, range: &str, version: &str) -> LockfileEntry {
    LockfileEntry {
        name: name.to_string(),
        range: range.to_string(),
        version: version.to_string(),
        resolved: String::new(),
        integrity: String::new(),
        dependencies: StrMap::new(),
        bin: StrMap::new(),
        scripts: StrMap::new(),
        optional: false,
        overridden: false,
    }
}

#[test]
fn github_plan_uses_the_lockfile_first() {
    let deps = map_of(&[("a", "github:o/a"), ("b", "github:o/b#v1"), ("zod", "^3.0.0")]);
    let mut lock = Lockfile::default();
    lock.entries.insert("a@github:o/a".to_string(), entry("a", "github:o/a", "abc"));
    let steps = github_plan(&deps, &lock, false);
    assert_eq!(steps.len(), 2);
    assert!(matches!(&steps[0], GithubStep::Locked(k) if k == "a@github:o/a"));
    assert!(matches!(&steps[1], GithubStep::Resolve(n, r) if n == "b" && r == "github:o/b#v1"));
}

#[test]
fn github_plan_frozen_resolves_nothing() {
    let deps = map_of(&[("b", "github:o/b")]);
    let lock = Lockfile::default();
    assert!(github_plan(&deps, &lock, true).is_empty());
}

#[test]
fn install_step_messages() {
    assert_eq!(
        override_applied_message("qs", "^6.0.0", "6.11.0", "express>qs"),
        "Override: qs@^6.0.0 \u{2192} 6.11.0 (forced by overrides[\"express>qs\"])"
    );
    assert_eq!(
        optional_failure_warning("fsevents", "not found"),
        "optional dependency fsevents failed to resolve: not found"
    );
}

#[test]
fn test_store_path() {
    assert!(store_name("zod", "3.24.4").contains("zod@3.24.4"));
}

#[test]
fn test_store_path_scoped() {
    assert!(store_name("@vertz/ui", "0.1.42").contains("@vertz+ui@0.1.42"));
}

#[test]
fn screen_entry_refuses_in_order() {
    assert_eq!(
        screen_entry("a\u{1}b", true, true, true, 0, 0),
        Err("Tarball contains entry with invalid characters: a\u{1}b".to_string())
    );
    assert_eq!(
        screen_entry("/etc/passwd", true, false, false, 0, 0),
        Err("Tarball contains absolute path: /etc/passwd".to_string())
    );
    assert_eq!(
        screen_entry("package/../x", false, true, false, 0, 0),
        Err("Tarball contains path traversal: package/../x".to_string())
    );
    assert_eq!(screen_entry("package/link", false, false, true, 5, 7), Ok(EntryStep::Skip));
    assert_eq!(
        screen_entry("package/big", false, false, false, MAX_FILE_SIZE + 1, 0),
        Err("File package/big exceeds max size (104857601 > 104857600 bytes)".to_string())
    );
    assert_eq!(
        screen_entry("package/f", false, false, false, 10, 1073741820),
        Err("Archive exceeds maximum total size (1 GB)".to_string())
    );
    assert_eq!(screen_entry("package/f\ttab", false, false, false, 10, 5), Ok(EntryStep::Extract(15)));
}

#[test]
fn screen_tar_entry_judges_paths_here() {
    assert_eq!(
        screen_tar_entry("package/../../evil", false, 1, 0),
        Err("Tarball contains path traversal: package/../../evil".to_string())
    );
    assert_eq!(screen_tar_entry("package/index.js", false, 3, 4), Ok(EntryStep::Extract(7)));
}
