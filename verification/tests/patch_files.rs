use vtz::pm::patch::{generate_diff, split_multi_file_patch, PatchChange};
use vtz::smap::StrMap;

fn files(pairs: &[(&str, &str)]) -> StrMap<String> {
    let mut m = StrMap::new();
    for (k, v) in pairs {
        m.insert(k.to_string(), v.to_string());
    }
    m
}

#[test]
fn split_patch_into_modified_added_deleted() {
    let patch = "diff --git a/index.js b/index.js\n--- a/index.js\n+++ b/index.js\n@@ -1,1 +1,1 @@\n-a\n+b\ndiff --git a/new.js b/new.js\n--- /dev/null\n+++ b/new.js\n@@ -0,0 +1,2 @@\n+x\n+y\ndiff --git a/old.js b/old.js\n--- a/old.js\n+++ /dev/null\n@@ -1,1 +0,0 @@\n-gone\n";
    let parts = split_multi_file_patch(patch);
    assert_eq!(parts.len(), 3);
    assert_eq!(parts[0].0, "index.js");
    match &parts[0].1 {
        PatchChange::Modified(d) => {
            assert_eq!(d, "--- a/index.js\n+++ b/index.js\n@@ -1,1 +1,1 @@\n-a\n+b")
        }
        _ => panic!("expected a modification"),
    }
    assert_eq!(parts[1].0, "new.js");
    match &parts[1].1 {
        PatchChange::Added(c) => assert_eq!(c, "x\ny\n"),
        _ => panic!("expected an addition"),
    }
    assert_eq!(parts[2].0, "old.js");
    assert!(matches!(parts[2].1, PatchChange::Deleted));
}

#[test]
fn split_patch_ignores_preamble_and_sections_without_path() {
    let patch = "some preamble\ndiff --git x y\nno file lines here\n";
    assert!(split_multi_file_patch(patch).is_empty());
    assert!(split_multi_file_patch("").is_empty());
    assert!(split_multi_file_patch("no header at all").is_empty());
}

#[test]
fn generate_diff_of_added_deleted_and_binary_files() {
    let old = files(&[("gone.txt", "a\nb\n"), ("same.txt", "s\n"), ("bin.dat", "x\0y")]);
    let new = files(&[("added.txt", "n\n"), ("same.txt", "s\n"), ("bin.dat", "x\0z")]);
    let diff = generate_diff(&old, &new);
    assert_eq!(
        diff,
        "diff --git a/added.txt b/added.txt\n--- /dev/null\n+++ b/added.txt\n@@ -0,0 +1,1 @@\n+n\n\
         diff --git a/bin.dat b/bin.dat\n# Binary file modified\n\
         diff --git a/gone.txt b/gone.txt\n--- a/gone.txt\n+++ /dev/null\n@@ -1,2 +0,0 @@\n-a\n-b\n"
    );
}

#[test]
fn generate_diff_of_modified_file_uses_unified_diff() {
    let old = files(&[("index.js", "line1\nline2\n")]);
    let new = files(&[("index.js", "line1\nchanged\n")]);
    let diff = generate_diff(&old, &new);
    assert!(diff.starts_with("diff --git a/index.js b/index.js\n--- a/index.js\n+++ b/index.js\n"));
    assert!(diff.contains("-line2\n"));
    assert!(diff.contains("+changed\n"));
}

#[test]
fn generate_then_split_roundtrip_paths() {
    let old = files(&[("a.js", "1\n"), ("b.js", "2\n")]);
    let new = files(&[("a.js", "1\nx\n"), ("c.js", "3\n")]);
    let diff = generate_diff(&old, &new);
    let parts = split_multi_file_patch(&diff);
    let paths: Vec<&str> = parts.iter().map(|p| p.0.as_str()).collect();
    assert_eq!(paths, vec!["a.js", "b.js", "c.js"]);
    assert!(matches!(parts[1].1, PatchChange::Deleted));
    match &parts[2].1 {
        PatchChange::Added(c) => assert_eq!(c, "3\n"),
        _ => panic!("expected an addition"),
    }
}

#[test]
fn identical_trees_have_an_empty_diff() {
    let t = files(&[("a", "1"), ("b", "2")]);
    assert_eq!(generate_diff(&t, &t), "");
}
