use vtz::pm::scripts::{lifecycle_outcome, missing_dir_result, postinstall_result, start_failure_message, timeout_message, ScriptRun, SCRIPT_TIMEOUT_SECS};
use vtz::pm::linker::{build_manifest, manifest_key, plan_link, store_name, target_components, LinkManifest, LinkResult};
use vtz::pm::scripts::{has_postinstall, packages_with_postinstall};
use vtz::pm::shell::{path_separator, platform_shell, shell_escape, shell_escape_unix, shell_escape_windows};
use vtz::pm::types::{ResolvedGraph, ResolvedPackage};
use vtz::smap::{StrMap, StrSet};

fn map_of(pairs: &[(&str, &str)]) -> StrMap<String> {
    let mut m = StrMap::new();
    for (k, v) in pairs {
        m.insert(k.to_string(), v.to_string());
    }
    m
}

fn pkg(name: &str, version: &str, nest: &[&str]) -> ResolvedPackage {
    ResolvedPackage {
        name: name.to_string(),
        version: version.to_string(),
        tarball_url: String::new(),
        integrity: String::new(),
        dependencies: StrMap::new(),
        bin: StrMap::new(),
        nest_path: nest.iter().map(|s| s.to_string()).collect(),
    }
}

#[test]
fn test_has_postinstall_none() {
    assert!(!has_postinstall(&None));
}

#[test]
fn test_has_postinstall_empty() {
    assert!(!has_postinstall(&Some(StrMap::new())));
}

#[test]
fn test_has_postinstall_with_script() {
    assert!(has_postinstall(&Some(map_of(&[("postinstall", "echo done")]))));
}

#[test]
fn test_has_postinstall_without_postinstall() {
    assert!(!has_postinstall(&Some(map_of(&[("prepare", "npm run build")]))));
}

#[test]
fn test_packages_with_postinstall_empty_graph() {
    let graph = ResolvedGraph::default();
    let scripts: StrMap<StrMap<String>> = StrMap::new();
    assert!(packages_with_postinstall(&graph, &scripts).is_empty());
}

#[test]
fn test_packages_with_postinstall_no_scripts() {
    let mut graph = ResolvedGraph::default();
    graph.packages.insert("zod@3.24.4".to_string(), pkg("zod", "3.24.4", &[]));
    let scripts: StrMap<StrMap<String>> = StrMap::new();
    assert!(packages_with_postinstall(&graph, &scripts).is_empty());
}

#[test]
fn test_packages_with_postinstall_has_script() {
    let mut graph = ResolvedGraph::default();
    graph.packages.insert("esbuild@0.20.0".to_string(), pkg("esbuild", "0.20.0", &[]));
    let mut scripts = StrMap::new();
    scripts.insert("esbuild@0.20.0".to_string(), map_of(&[("postinstall", "node install.js")]));
    let result = packages_with_postinstall(&graph, &scripts);
    assert_eq!(result.len(), 1);
    assert_eq!(result[0].0, "esbuild");
    assert_eq!(result[0].1, "0.20.0");
    assert_eq!(result[0].2, "node install.js");
}

#[test]
fn test_packages_with_postinstall_sorted() {
    let mut graph = ResolvedGraph::default();
    graph.packages.insert("prisma@5.0.0".to_string(), pkg("prisma", "5.0.0", &[]));
    graph.packages.insert("esbuild@0.20.0".to_string(), pkg("esbuild", "0.20.0", &[]));
    let mut scripts = StrMap::new();
    scripts.insert("prisma@5.0.0".to_string(), map_of(&[("postinstall", "prisma generate")]));
    scripts.insert("esbuild@0.20.0".to_string(), map_of(&[("postinstall", "node install.js")]));
    let result = packages_with_postinstall(&graph, &scripts);
    assert_eq!(result.len(), 2);
    assert_eq!(result[0].0, "esbuild");
    assert_eq!(result[1].0, "prisma");
}

#[test]
fn packages_with_postinstall_sorts_by_name_not_by_key() {
    // "a-b@1" sorts before "a@1" as a key, but the name "a" sorts before "a-b".
    let mut graph = ResolvedGraph::default();
    graph.packages.insert("a-b@1".to_string(), pkg("a-b", "1", &[]));
    graph.packages.insert("a@1".to_string(), pkg("a", "1", &[]));
    let mut scripts = StrMap::new();
    scripts.insert("a-b@1".to_string(), map_of(&[("postinstall", "x")]));
    scripts.insert("a@1".to_string(), map_of(&[("postinstall", "y")]));
    let result = packages_with_postinstall(&graph, &scripts);
    assert_eq!(result.iter().map(|r| r.0.as_str()).collect::<Vec<_>>(), vec!["a", "a-b"]);
}

#[test]
fn test_platform_shell_returns_valid_pair() {
    let (shell, flag) = platform_shell();
    assert!(!shell.is_empty());
    assert!(!flag.is_empty());
    assert_eq!(shell, "sh");
    assert_eq!(flag, "-c");
}

#[test]
fn test_path_separator() {
    assert_eq!(path_separator(), ":");
}

#[test]
fn test_shell_escape_simple() {
    assert_eq!(shell_escape("hello"), "hello");
}

#[test]
fn test_shell_escape_with_spaces() {
    assert_eq!(shell_escape("hello world"), "'hello world'");
}

#[test]
fn test_shell_escape_with_quotes() {
    assert_eq!(shell_escape("it's"), "'it'\\''s'");
}

#[test]
fn test_shell_escape_metacharacters() {
    assert_eq!(shell_escape("$HOME"), "'$HOME'");
    assert_eq!(shell_escape("foo;bar"), "'foo;bar'");
    assert_eq!(shell_escape("a|b"), "'a|b'");
    assert_eq!(shell_escape("a&b"), "'a&b'");
    assert_eq!(shell_escape("`cmd`"), "'`cmd`'");
}

#[test]
fn test_shell_escape_empty() {
    assert_eq!(shell_escape(""), "''");
}

#[test]
fn test_shell_escape_safe_chars() {
    assert_eq!(shell_escape("foo-bar_baz.ts"), "foo-bar_baz.ts");
    assert_eq!(shell_escape("/usr/bin/node"), "/usr/bin/node");
    assert_eq!(shell_escape("@myorg/pkg"), "@myorg/pkg");
}

#[test]
fn test_shell_escape_unix_directly() {
    assert_eq!(shell_escape_unix("hello world"), "'hello world'");
    assert_eq!(shell_escape_unix("it's"), "'it'\\''s'");
    assert_eq!(shell_escape_unix(""), "''");
    assert_eq!(shell_escape_unix("simple"), "simple");
}

#[test]
fn test_shell_escape_windows_directly() {
    assert_eq!(shell_escape_windows("hello world"), "\"hello world\"");
    assert_eq!(shell_escape_windows("say \"hi\""), "\"say \"\"hi\"\"\"");
    assert_eq!(shell_escape_windows(""), "\"\"");
    assert_eq!(shell_escape_windows("simple"), "simple");
    assert_eq!(shell_escape_windows("foo;bar"), "\"foo;bar\"");
    assert_eq!(shell_escape_windows("a&b"), "\"a&b\"");
    assert_eq!(shell_escape_windows("C:\\Users\\test"), "C:\\Users\\test");
}

#[test]
fn shell_escape_unix_quotes_non_ascii() {
    assert_eq!(shell_escape_unix("café"), "'café'");
}

#[test]
fn test_manifest_key_flat() {
    assert_eq!(manifest_key("zod", "3.24.4", &[]), "zod@3.24.4");
}

#[test]
fn test_manifest_key_nested() {
    assert_eq!(manifest_key("dep-b", "2.0.0", &["dep-a".to_string()]), "dep-b@2.0.0@dep-a");
}

#[test]
fn manifest_key_deeply_nested_joins_with_slash() {
    assert_eq!(manifest_key("c", "1.0.0", &["a".to_string(), "b".to_string()]), "c@1.0.0@a/b");
}

#[test]
fn test_build_manifest_from_graph() {
    let mut graph = ResolvedGraph::default();
    graph.packages.insert("zod@3.24.4".to_string(), pkg("zod", "3.24.4", &[]));
    let manifest = build_manifest(&graph, &StrSet::new());
    assert_eq!(manifest.packages.len(), 1);
    let entry = manifest.packages.get("zod@3.24.4").unwrap();
    assert_eq!(entry.version, "3.24.4");
    assert!(!entry.has_scripts);
}

#[test]
fn test_build_manifest_with_scripts() {
    let mut graph = ResolvedGraph::default();
    graph.packages.insert("esbuild@0.20.0".to_string(), pkg("esbuild", "0.20.0", &[]));
    graph.scripts.insert("esbuild@0.20.0".to_string(), map_of(&[("postinstall", "node install.js")]));
    let manifest = build_manifest(&graph, &StrSet::new());
    assert!(manifest.packages.get("esbuild@0.20.0").unwrap().has_scripts);
}

#[test]
fn build_manifest_marks_patched_and_nested_packages() {
    let mut graph = ResolvedGraph::default();
    graph.packages.insert("b@2.0.0".to_string(), pkg("b", "2.0.0", &["a"]));
    let mut patched = StrSet::new();
    patched.insert("b".to_string());
    let manifest = build_manifest(&graph, &patched);
    let entry = manifest.packages.get("b@2.0.0@a").unwrap();
    assert!(entry.has_patch);
    assert_eq!(entry.nest_path, vec!["a".to_string()]);
}

#[test]
fn link_defaults_are_empty() {
    let m = LinkManifest::default();
    assert!(m.packages.is_empty());
    let r = LinkResult::default();
    assert_eq!((r.packages_linked, r.files_linked, r.packages_cached), (0, 0, 0));
}

fn graph_of(pkgs: Vec<ResolvedPackage>) -> ResolvedGraph {
    let mut g = ResolvedGraph::default();
    for p in pkgs {
        let key = manifest_key(&p.name, &p.version, &p.nest_path);
        g.packages.insert(key, p);
    }
    g
}

#[test]
fn store_name_escapes_scopes() {
    assert_eq!(store_name("@types/node", "20.0.0"), "@types+node@20.0.0");
    assert_eq!(store_name("zod", "3.22.0"), "zod@3.22.0");
}

#[test]
fn target_components_for_nested_packages() {
    assert_eq!(target_components("zod", &vec![]), vec!["zod".to_string()]);
    assert_eq!(
        target_components("ms", &vec!["debug".to_string(), "express".to_string()]),
        vec!["debug", "node_modules", "express", "node_modules", "ms"].iter().map(|s| s.to_string()).collect::<Vec<_>>()
    );
}

#[test]
fn incremental_plan_keeps_unchanged_and_removes_stale() {
    let old_graph = graph_of(vec![pkg("a", "1.0.0", &[]), pkg("b", "1.0.0", &[]), pkg("gone", "1.0.0", &["a"])]);
    let old = build_manifest(&old_graph, &StrSet::new());
    let new_graph = graph_of(vec![pkg("a", "1.0.0", &[]), pkg("b", "2.0.0", &[]), pkg("c", "1.0.0", &[])]);
    let mut patched = StrSet::new();
    patched.insert("c".to_string());
    let new = build_manifest(&new_graph, &patched);
    let plan = plan_link(&new_graph, &old, &new);
    assert_eq!(plan.cached, 1);
    let relinked: Vec<&str> = plan.relink.iter().map(|&i| new_graph.packages.value_at(i).name.as_str()).collect();
    assert_eq!(relinked, vec!["b", "c"]);
    let removed: Vec<(String, Vec<String>)> = plan.remove;
    assert_eq!(
        removed,
        vec![("b".to_string(), vec![]), ("gone".to_string(), vec!["a".to_string()])]
    );
}

#[test]
fn plan_against_an_empty_manifest_links_everything() {
    let g = graph_of(vec![pkg("a", "1.0.0", &[]), pkg("b", "1.0.0", &[])]);
    let new = build_manifest(&g, &StrSet::new());
    let plan = plan_link(&g, &LinkManifest::default(), &new);
    assert_eq!(plan.cached, 0);
    assert_eq!(plan.relink, vec![0, 1]);
    assert!(plan.remove.is_empty());
}

#[test]
fn postinstall_results_from_runs() {
    let ok = postinstall_result(
        "esbuild",
        "0.24.0",
        ScriptRun::Finished { stdout: "out".to_string(), stderr: String::new(), exit_code: 0 },
        12,
    );
    assert!(ok.success);
    assert_eq!(ok.error, None);
    assert_eq!(ok.stdout, "out");
    let failed = postinstall_result(
        "esbuild",
        "0.24.0",
        ScriptRun::Finished { stdout: String::new(), stderr: "e".to_string(), exit_code: -2 },
        5,
    );
    assert!(!failed.success);
    assert_eq!(failed.error.as_deref(), Some("script exited with code -2 (esbuild@0.24.0)"));
    let timed = postinstall_result("x", "1.0.0", ScriptRun::Failed("timed out after 60s".to_string()), 60000);
    assert_eq!(timed.error.as_deref(), Some("timed out after 60s"));
    assert_eq!(timed.duration_ms, 60000);
    let missing = missing_dir_result("x", "/p/node_modules/x");
    assert_eq!(missing.error.as_deref(), Some("package directory not found: /p/node_modules/x"));
}

#[test]
fn lifecycle_outcomes() {
    let run = ScriptRun::Finished { stdout: String::new(), stderr: String::new(), exit_code: 3 };
    assert_eq!(lifecycle_outcome("prepare", &run), Err("prepare script exited with code 3".to_string()));
    let ok = ScriptRun::Finished { stdout: String::new(), stderr: String::new(), exit_code: 0 };
    assert_eq!(lifecycle_outcome("prepare", &ok), Ok(()));
    assert_eq!(timeout_message(SCRIPT_TIMEOUT_SECS), "timed out after 60s");
    assert_eq!(start_failure_message("no shell"), "failed to execute: no shell");
}
