use vtz::pm::bin::{bin_stubs, stub_text, strip_leading_dot_slash};
use vtz::pm::types::{ResolvedGraph, ResolvedPackage};
use vtz::smap::StrMap;

fn pkg_with_bins(name: &str, version: &str, bins: &[(&str, &str)], nest: &[&str]) -> ResolvedPackage {
    let mut bin = StrMap::new();
    for (k, v) in bins {
        bin.insert(k.to_string(), v.to_string());
    }
    ResolvedPackage {
        name: name.to_string(),
        version: version.to_string(),
        tarball_url: String::new(),
        integrity: String::new(),
        dependencies: StrMap::new(),
        bin,
        nest_path: nest.iter().map(|s| s.to_string()).collect(),
    }
}

#[test]
fn test_generate_bin_stubs() {
    let mut graph = ResolvedGraph::default();
    graph.packages.insert(
        "esbuild@0.24.0".to_string(),
        pkg_with_bins("esbuild", "0.24.0", &[("esbuild", "./bin/esbuild")], &[]),
    );
    let stubs = bin_stubs(&graph);
    assert_eq!(stubs.len(), 1);
    assert_eq!(stubs[0].name, "esbuild");
    assert!(stubs[0].content.starts_with("#!/bin/sh"));
    assert!(stubs[0].content.contains("esbuild/bin/esbuild"));
}

#[test]
fn test_generate_multiple_bins() {
    let mut graph = ResolvedGraph::default();
    graph.packages.insert(
        "typescript@5.7.0".to_string(),
        pkg_with_bins("typescript", "5.7.0", &[("tsc", "./bin/tsc"), ("tsserver", "./bin/tsserver")], &[]),
    );
    let stubs = bin_stubs(&graph);
    assert_eq!(stubs.len(), 2);
    assert_eq!(stubs[0].name, "tsc");
    assert_eq!(stubs[1].name, "tsserver");
}

#[test]
fn test_skip_nested_packages() {
    let mut graph = ResolvedGraph::default();
    graph.packages.insert(
        "nested-pkg@1.0.0".to_string(),
        pkg_with_bins("nested-pkg", "1.0.0", &[("cmd", "./bin/cmd")], &["parent-pkg"]),
    );
    assert_eq!(bin_stubs(&graph).len(), 0);
}

#[test]
fn test_no_bins() {
    let mut graph = ResolvedGraph::default();
    graph.packages.insert("zod@3.24.4".to_string(), pkg_with_bins("zod", "3.24.4", &[], &[]));
    assert_eq!(bin_stubs(&graph).len(), 0);
}

#[test]
fn stub_text_is_exact() {
    assert_eq!(
        stub_text("pkg", "./bin/cmd"),
        "#!/bin/sh\nexec node \"$(dirname \"$0\")/../pkg/bin/cmd\" \"$@\"\n"
    );
}

#[test]
fn strip_takes_every_leading_dot_slash() {
    assert_eq!(strip_leading_dot_slash("././a/./b"), "a/./b");
    assert_eq!(strip_leading_dot_slash("bin/x"), "bin/x");
    assert_eq!(strip_leading_dot_slash("./"), "");
    assert_eq!(strip_leading_dot_slash("."), ".");
}

#[test]
fn stubs_follow_package_key_order() {
    let mut graph = ResolvedGraph::default();
    graph.packages.insert("b@1.0.0".to_string(), pkg_with_bins("b", "1.0.0", &[("bb", "b.js")], &[]));
    graph.packages.insert("a@1.0.0".to_string(), pkg_with_bins("a", "1.0.0", &[("aa", "a.js")], &[]));
    let stubs = bin_stubs(&graph);
    assert_eq!(stubs.len(), 2);
    assert_eq!(stubs[0].name, "aa");
    assert!(stubs[0].content.contains("/../a/a.js\""));
    assert_eq!(stubs[1].name, "bb");
}
