use vtz::pm::reverse_deps::build_reverse_dep_map;
use vtz::pm::types::{Lockfile, LockfileEntry};
use vtz::smap::{StrMap, StrSet};

fn make_lockfile_entry(name: &str, range: &str, version: &str, deps: &[(&str, &str)]) -> LockfileEntry {
    let mut dependencies = StrMap::new();
    for (k, v) in deps {
        dependencies.insert(k.to_string(), v.to_string());
    }
    LockfileEntry {
        name: name.to_string(),
        range: range.to_string(),
        version: version.to_string(),
        resolved: String::new(),
        integrity: String::new(),
        dependencies,
        bin: StrMap::new(),
        scripts: StrMap::new(),
        optional: false,
        overridden: false,
    }
}

fn set_of(names: &[&str]) -> StrSet {
    let mut s = StrSet::new();
    for n in names {
        s.insert(n.to_string());
    }
    s
}

#[test]
fn test_build_reverse_dep_map_direct() {
    let mut lockfile = Lockfile::default();
    lockfile.entries.insert(
        "express@^4.0.0".to_string(),
        make_lockfile_entry("express", "^4.0.0", "4.18.2", &[("body-parser", "^1.20.0")]),
    );
    lockfile.entries.insert(
        "body-parser@^1.20.0".to_string(),
        make_lockfile_entry("body-parser", "^1.20.0", "1.20.2", &[]),
    );
    let direct = set_of(&["express"]);
    let reverse = build_reverse_dep_map(&lockfile, &direct);
    assert_eq!(reverse.get("body-parser"), Some(&"express".to_string()));
}

#[test]
fn test_build_reverse_dep_map_no_transitive() {
    let mut lockfile = Lockfile::default();
    lockfile.entries.insert("zod@^3.0.0".to_string(), make_lockfile_entry("zod", "^3.0.0", "3.24.4", &[]));
    let direct = set_of(&["zod"]);
    let reverse = build_reverse_dep_map(&lockfile, &direct);
    assert!(reverse.is_empty());
}

#[test]
fn test_build_reverse_dep_map_deep_transitive() {
    let mut lockfile = Lockfile::default();
    lockfile.entries.insert(
        "express@^4.0.0".to_string(),
        make_lockfile_entry("express", "^4.0.0", "4.18.2", &[("body-parser", "^1.20.0")]),
    );
    lockfile.entries.insert(
        "body-parser@^1.20.0".to_string(),
        make_lockfile_entry("body-parser", "^1.20.0", "1.20.2", &[("raw-body", "^2.5.0")]),
    );
    lockfile.entries.insert(
        "raw-body@^2.5.0".to_string(),
        make_lockfile_entry("raw-body", "^2.5.0", "2.5.2", &[]),
    );
    let direct = set_of(&["express"]);
    let reverse = build_reverse_dep_map(&lockfile, &direct);
    assert_eq!(reverse.get("body-parser"), Some(&"express".to_string()));
    assert_eq!(reverse.get("raw-body"), Some(&"express".to_string()));
}

#[test]
fn reverse_dep_map_first_direct_dep_wins_and_direct_deps_stop_the_walk() {
    let mut lockfile = Lockfile::default();
    lockfile.entries.insert("a@1".to_string(), make_lockfile_entry("a", "1", "1.0.0", &[("shared", "1"), ("b", "1")]));
    lockfile.entries.insert("b@1".to_string(), make_lockfile_entry("b", "1", "1.0.0", &[("shared", "1"), ("only-b", "1")]));
    lockfile.entries.insert("shared@1".to_string(), make_lockfile_entry("shared", "1", "1.0.0", &[("leaf", "1")]));
    lockfile.entries.insert("only-b@1".to_string(), make_lockfile_entry("only-b", "1", "1.0.0", &[]));
    lockfile.entries.insert("leaf@1".to_string(), make_lockfile_entry("leaf", "1", "1.0.0", &[("shared", "1")]));
    let direct = set_of(&["b", "a"]);
    let reverse = build_reverse_dep_map(&lockfile, &direct);
    // "a" comes first in the set's order, so what both reach goes to "a".
    assert_eq!(reverse.get("shared"), Some(&"a".to_string()));
    assert_eq!(reverse.get("leaf"), Some(&"a".to_string()));
    // "a" reaches "only-b" only through "b", a direct dependency.
    assert_eq!(reverse.get("only-b"), Some(&"b".to_string()));
    assert_eq!(reverse.get("a"), None);
    assert_eq!(reverse.get("b"), None);
    assert_eq!(reverse.len(), 3);
}
