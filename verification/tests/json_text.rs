use vtz::json_value::{parse_json, pretty_json, JsonValue};
use vtz::pm::create::renamed_package_json;
use vtz::pm::patch::patched_names_from_text;
use vtz::pm::pack::matches_any_pattern;
use vtz::plugin::{default_module_id, path_to_url};

#[test]
fn parse_json_reads_values_and_rejects_bad_text() {
    match parse_json("{\"a\": [1, true, null, \"x\"]}") {
        Some(JsonValue::Object(ms)) => {
            assert_eq!(ms.len(), 1);
            assert_eq!(ms[0].0, "a");
            match &ms[0].1 {
                JsonValue::Array(items) => {
                    assert_eq!(items.len(), 4);
                    assert!(matches!(&items[0], JsonValue::Number(n) if n == "1"));
                    assert!(matches!(&items[1], JsonValue::Bool(true)));
                    assert!(matches!(&items[2], JsonValue::Null));
                    assert!(matches!(&items[3], JsonValue::Str(s) if s == "x"));
                },
                _ => panic!("expected an array"),
            }
        },
        _ => panic!("expected an object"),
    }
    assert!(parse_json("{not json").is_none());
}

#[test]
fn pretty_json_writes_serde_layout() {
    let v = parse_json("{\"name\":\"x\",\"version\":\"1.0.0\"}").unwrap();
    assert_eq!(pretty_json(&v).unwrap(), "{\n  \"name\": \"x\",\n  \"version\": \"1.0.0\"\n}");
}

#[test]
fn patched_names_from_package_json_text() {
    let text = "{\"vertz\":{\"patchedDependencies\":{\"express@4.21.2\":\"patches/a.patch\",\"@scope/pkg@1.0.0\":\"patches/b.patch\"}}}";
    let names = patched_names_from_text(text);
    assert_eq!(names.len(), 2);
    assert!(names.contains("express"));
    assert!(names.contains("@scope/pkg"));
    assert_eq!(patched_names_from_text("not json").len(), 0);
    assert_eq!(patched_names_from_text("{\"name\":\"x\"}").len(), 0);
}

#[test]
fn renamed_package_json_sets_name() {
    let out = renamed_package_json("{\"name\":\"template\",\"version\":\"0.1.0\"}", "my-app").unwrap();
    assert_eq!(out, "{\n  \"name\": \"my-app\",\n  \"version\": \"0.1.0\"\n}\n");
    let added = renamed_package_json("{\"version\":\"0.1.0\"}", "my-app").unwrap();
    assert!(added.contains("\"name\": \"my-app\""));
    assert!(renamed_package_json("{oops", "my-app").is_none());
}

#[test]
fn plain_paths_under_root() {
    assert_eq!(path_to_url("/project/src/Button.tsx", "/project"), "/src/Button.tsx");
    assert_eq!(default_module_id("/project/src/Button.tsx", "/project"), "/src/Button.tsx");
    assert_eq!(path_to_url("project/a/b.ts", "project"), "/a/b.ts");
}

#[test]
fn glob_patterns_without_backslashes() {
    let pats = vec!["dist".to_string(), "*.md".to_string(), "src/**/*.test.ts".to_string()];
    assert!(matches_any_pattern("dist/index.js", &pats));
    assert!(matches_any_pattern("README.md", &pats));
    assert!(matches_any_pattern("src/a/b.test.ts", &pats));
    assert!(!matches_any_pattern("src/a/b.ts", &pats));
}
