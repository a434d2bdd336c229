use vtz::pm::overrides::{
    detect_stale_overrides, is_suffix_match, parse_overrides, split_override_segments, OverrideMap,
    OverrideRule,
};
use vtz::smap::StrMap;

fn map_of(pairs: &[(&str, &str)]) -> StrMap<String> {
    let mut m = StrMap::new();
    for (k, v) in pairs {
        m.insert(k.to_string(), v.to_string());
    }
    m
}

fn empty() -> StrMap<String> {
    StrMap::new()
}

fn rule(path: &[&str], target: &str, version: &str) -> OverrideRule {
    OverrideRule {
        parent_path: path.iter().map(|s| s.to_string()).collect(),
        target: target.to_string(),
        version: version.to_string(),
    }
}

fn strings(v: &[&str]) -> Vec<String> {
    v.iter().map(|s| s.to_string()).collect()
}

#[test]
fn test_parse_global_override() {
    let map = parse_overrides(&map_of(&[("qs", "6.11.0")]), &empty(), &empty()).unwrap();
    assert_eq!(map.rules.len(), 1);
    assert_eq!(map.rules[0].target, "qs");
    assert_eq!(map.rules[0].version, "6.11.0");
    assert!(map.rules[0].parent_path.is_empty());
}

#[test]
fn test_parse_scoped_override_depth_1() {
    let map = parse_overrides(&map_of(&[("express>qs", "6.11.0")]), &empty(), &empty()).unwrap();
    assert_eq!(map.rules.len(), 1);
    assert_eq!(map.rules[0].target, "qs");
    assert_eq!(map.rules[0].parent_path, vec!["express"]);
}

#[test]
fn test_parse_deep_nested_override() {
    let map = parse_overrides(&map_of(&[("express>body-parser>qs", "6.11.0")]), &empty(), &empty()).unwrap();
    assert_eq!(map.rules.len(), 1);
    assert_eq!(map.rules[0].target, "qs");
    assert_eq!(map.rules[0].parent_path, vec!["express", "body-parser"]);
}

#[test]
fn test_parse_scoped_package_override() {
    let map = parse_overrides(&map_of(&[("@org/parser", "2.0.0")]), &empty(), &empty()).unwrap();
    assert_eq!(map.rules.len(), 1);
    assert_eq!(map.rules[0].target, "@org/parser");
    assert!(map.rules[0].parent_path.is_empty());
}

#[test]
fn test_parse_scoped_package_in_path() {
    let map = parse_overrides(&map_of(&[("express>@org/parser", "2.0.0")]), &empty(), &empty()).unwrap();
    assert_eq!(map.rules.len(), 1);
    assert_eq!(map.rules[0].target, "@org/parser");
    assert_eq!(map.rules[0].parent_path, vec!["express"]);
}

#[test]
fn test_parse_dollar_reference() {
    let map = parse_overrides(&map_of(&[("cookie", "$cookie")]), &map_of(&[("cookie", "^0.6.0")]), &empty()).unwrap();
    assert_eq!(map.rules[0].version, "^0.6.0");
}

#[test]
fn test_parse_dollar_reference_dev_deps() {
    let map = parse_overrides(&map_of(&[("cookie", "$cookie")]), &empty(), &map_of(&[("cookie", "^0.7.0")])).unwrap();
    assert_eq!(map.rules[0].version, "^0.7.0");
}

#[test]
fn test_parse_dollar_reference_missing() {
    let result = parse_overrides(&map_of(&[("cookie", "$cookie")]), &empty(), &empty());
    assert!(result.is_err());
    assert!(result.unwrap_err().contains("not in dependencies or devDependencies"));
}

#[test]
fn test_parse_dollar_reference_scoped() {
    let map = parse_overrides(&map_of(&[("@org/foo", "$@org/foo")]), &map_of(&[("@org/foo", "^1.0.0")]), &empty()).unwrap();
    assert_eq!(map.rules[0].version, "^1.0.0");
}

#[test]
fn test_parse_invalid_double_separator() {
    let result = parse_overrides(&map_of(&[("express>>qs", "6.11.0")]), &empty(), &empty());
    assert!(result.is_err());
    assert!(result.unwrap_err().contains("use \"parent>child\" format"));
}

#[test]
fn test_parse_yarn_glob_pattern() {
    let result = parse_overrides(&map_of(&[("**/qs", "6.11.0")]), &empty(), &empty());
    assert!(result.is_err());
    assert!(result.unwrap_err().contains("yarn-style resolution patterns not supported"));
}

#[test]
fn test_parse_yarn_slash_separator() {
    let result = parse_overrides(&map_of(&[("express/qs", "6.11.0")]), &empty(), &empty());
    assert!(result.is_err());
    let err = result.unwrap_err();
    assert!(err.contains("Did you mean \"express>qs\"?"));
}

#[test]
fn test_find_override_global() {
    let map = OverrideMap { rules: vec![rule(&[], "qs", "6.11.0")] };
    assert_eq!(map.find_override("qs", &[]), Some("6.11.0"));
    assert_eq!(map.find_override("qs", &strings(&["express"])), Some("6.11.0"));
    assert_eq!(map.find_override("other", &[]), None);
}

#[test]
fn test_find_override_scoped() {
    let map = OverrideMap { rules: vec![rule(&["express"], "qs", "6.11.0")] };
    assert_eq!(map.find_override("qs", &strings(&["express"])), Some("6.11.0"));
    assert_eq!(map.find_override("qs", &[]), None);
    assert_eq!(map.find_override("qs", &strings(&["body-parser"])), None);
}

#[test]
fn test_find_override_deep_nested() {
    let map = OverrideMap { rules: vec![rule(&["express", "body-parser"], "qs", "6.11.0")] };
    assert_eq!(map.find_override("qs", &strings(&["express", "body-parser"])), Some("6.11.0"));
    assert_eq!(map.find_override("qs", &strings(&["express"])), None);
    assert_eq!(map.find_override("qs", &strings(&["other", "body-parser"])), None);
}

#[test]
fn test_find_override_specificity_wins() {
    let map = OverrideMap {
        rules: vec![rule(&["express"], "qs", "6.12.0"), rule(&[], "qs", "6.11.0")],
    };
    assert_eq!(map.find_override("qs", &strings(&["express"])), Some("6.12.0"));
    assert_eq!(map.find_override("qs", &strings(&["body-parser"])), Some("6.11.0"));
    assert_eq!(map.find_override("qs", &[]), Some("6.11.0"));
}

#[test]
fn test_rules_sorted_by_specificity() {
    let overrides = map_of(&[
        ("qs", "6.11.0"),
        ("express>qs", "6.12.0"),
        ("express>body-parser>qs", "6.13.0"),
    ]);
    let map = parse_overrides(&overrides, &empty(), &empty()).unwrap();
    assert_eq!(map.rules[0].parent_path.len(), 2);
    assert_eq!(map.rules[1].parent_path.len(), 1);
    assert_eq!(map.rules[2].parent_path.len(), 0);
}

#[test]
fn override_map_is_empty() {
    assert!(OverrideMap::default().is_empty());
    assert!(!OverrideMap { rules: vec![rule(&[], "qs", "1.0.0")] }.is_empty());
}

#[test]
fn test_segment_splitting_simple() {
    assert_eq!(split_override_segments("express>qs"), vec!["express", "qs"]);
}

#[test]
fn test_segment_splitting_scoped() {
    assert_eq!(split_override_segments("express>@org/parser"), vec!["express", "@org/parser"]);
}

#[test]
fn test_segment_splitting_scoped_at_start() {
    assert_eq!(split_override_segments("@org/parser"), vec!["@org/parser"]);
}

#[test]
fn test_segment_splitting_deep() {
    assert_eq!(split_override_segments("a>b>c>d"), vec!["a", "b", "c", "d"]);
}

#[test]
fn test_is_suffix_match_basic() {
    assert!(is_suffix_match(&strings(&["express"]), &strings(&["express"])));
    assert!(is_suffix_match(&strings(&["express"]), &strings(&["root", "express"])));
    assert!(!is_suffix_match(&strings(&["express", "body-parser"]), &strings(&["express"])));
}

#[test]
fn test_is_suffix_match_empty_path() {
    assert!(is_suffix_match(&[], &[]));
    assert!(is_suffix_match(&[], &strings(&["express"])));
}

#[test]
fn test_stale_override_detected() {
    let map = OverrideMap { rules: vec![rule(&[], "qs", "6.11.0")] };
    let ranges = vec![
        ("qs".to_string(), ">=6.0.0".to_string(), "qs".to_string()),
        ("qs".to_string(), "^6.0.0".to_string(), "qs".to_string()),
    ];
    let warnings = detect_stale_overrides(&map, &ranges);
    assert_eq!(warnings.len(), 1);
    assert!(warnings[0].contains("consider removing"));
}

#[test]
fn test_stale_override_not_detected_when_needed() {
    let map = OverrideMap { rules: vec![rule(&[], "qs", "6.11.0")] };
    let ranges = vec![("qs".to_string(), "~6.5.0".to_string(), "qs".to_string())];
    let warnings = detect_stale_overrides(&map, &ranges);
    assert!(warnings.is_empty());
}

#[test]
fn test_stale_override_scoped_pattern() {
    let map = OverrideMap { rules: vec![rule(&["express"], "qs", "6.11.0")] };
    let ranges = vec![("qs".to_string(), "^6.0.0".to_string(), "express>qs".to_string())];
    let warnings = detect_stale_overrides(&map, &ranges);
    assert_eq!(warnings.len(), 1);
    assert!(warnings[0].contains("express>qs"));
}

#[test]
fn test_stale_override_no_applications() {
    let map = OverrideMap { rules: vec![rule(&[], "qs", "6.11.0")] };
    let ranges: Vec<(String, String, String)> = vec![];
    let warnings = detect_stale_overrides(&map, &ranges);
    assert!(warnings.is_empty());
}

#[test]
fn test_stale_override_per_rule_filtering() {
    let map = OverrideMap {
        rules: vec![rule(&["express"], "qs", "6.11.0"), rule(&[], "qs", "6.5.0")],
    };
    let ranges = vec![
        ("qs".to_string(), "~6.5.0".to_string(), "qs".to_string()),
        ("qs".to_string(), "^6.0.0".to_string(), "express>qs".to_string()),
    ];
    let warnings = detect_stale_overrides(&map, &ranges);
    assert_eq!(warnings.len(), 2);
}

#[test]
fn stale_warning_text_is_exact() {
    let map = OverrideMap { rules: vec![rule(&["express"], "qs", "6.11.0")] };
    let ranges = vec![("qs".to_string(), "^6.0.0".to_string(), "express>qs".to_string())];
    assert_eq!(
        detect_stale_overrides(&map, &ranges),
        vec!["override \"express>qs\": \"6.11.0\" is satisfied without override — consider removing".to_string()]
    );
}

#[test]
fn stale_override_with_unparsable_range_is_kept() {
    let map = OverrideMap { rules: vec![rule(&[], "qs", "6.11.0")] };
    let ranges = vec![("qs".to_string(), "not a range!".to_string(), "qs".to_string())];
    assert!(detect_stale_overrides(&map, &ranges).is_empty());
}
