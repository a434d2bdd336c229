use vtz::pm::patch::{
    apply_unified_patch, escape_package_name, is_binary, parse_hunk_header_old_start, parse_hunks,
    parse_patch_key_name, parse_patch_key_name_pub, parse_usize, HunkLine,
};

#[test]
fn test_parse_patch_key_name_regular() {
    assert_eq!(parse_patch_key_name("express@4.21.2"), Some("express".to_string()));
}

#[test]
fn test_parse_patch_key_name_scoped() {
    assert_eq!(parse_patch_key_name("@types/node@22.0.0"), Some("@types/node".to_string()));
}

#[test]
fn parse_patch_key_name_without_version() {
    assert_eq!(parse_patch_key_name("express"), None);
    assert_eq!(parse_patch_key_name("@types/node"), None);
    assert_eq!(parse_patch_key_name_pub("zod@3.0.0"), Some("zod".to_string()));
}

#[test]
fn escape_package_name_replaces_slash() {
    assert_eq!(escape_package_name("@scope/name"), "@scope+name");
    assert_eq!(escape_package_name("plain"), "plain");
}

#[test]
fn is_binary_detects_nul() {
    assert!(is_binary("a\0b"));
    assert!(!is_binary("text"));
}

#[test]
fn parse_usize_matches_std() {
    for s in ["0", "12", "+7", "", "+", "-1", "1a", "007", "18446744073709551615", "18446744073709551616"] {
        assert_eq!(parse_usize(s), s.parse::<usize>().ok(), "input {:?}", s);
    }
}

#[test]
fn hunk_header_old_start() {
    assert_eq!(parse_hunk_header_old_start("@@ -12,4 +12,5 @@"), 12);
    assert_eq!(parse_hunk_header_old_start("@@ -7 +7 @@"), 7);
    assert_eq!(parse_hunk_header_old_start("@@ -x,1 +1 @@"), 1);
    assert_eq!(parse_hunk_header_old_start("garbage"), 1);
}

#[test]
fn parse_hunks_reads_lines() {
    let hunks = parse_hunks("--- a/f\n+++ b/f\n@@ -3,2 +3,2 @@\n ctx\n-old\n+new\n\nbare\n");
    assert_eq!(hunks.len(), 1);
    assert_eq!(hunks[0].old_start, 3);
    let kinds: Vec<String> = hunks[0]
        .lines
        .iter()
        .map(|l| match l {
            HunkLine::Context(t) => format!("={}", t),
            HunkLine::Add(t) => format!("+{}", t),
            HunkLine::Remove(t) => format!("-{}", t),
        })
        .collect();
    assert_eq!(kinds, vec!["=ctx", "-old", "+new", "=bare"]);
}

#[test]
fn test_apply_unified_patch_multi_hunk() {
    let content = "line1\nline2\nline3\nline4\nline5\nline6\nline7\nline8\n";
    let patch = "--- a/file\n+++ b/file\n@@ -1,3 +1,3 @@\n line1\n-line2\n+line2_modified\n line3\n@@ -6,3 +6,3 @@\n line6\n-line7\n+line7_modified\n line8\n";
    let result = apply_unified_patch(content, patch).unwrap();
    assert!(result.contains("line2_modified"));
    assert!(result.contains("line7_modified"));
    assert!(!result.contains("\nline2\n"));
    assert!(!result.contains("\nline7\n"));
    assert_eq!(result, "line1\nline2_modified\nline3\nline4\nline5\nline6\nline7_modified\nline8\n");
}

#[test]
fn test_apply_unified_patch_context_mismatch() {
    let content = "line1\nline2\nline3\n";
    let patch = "--- a/file\n+++ b/file\n@@ -1,3 +1,3 @@\n line1\n-wrong_line\n+replacement\n line3\n";
    let result = apply_unified_patch(content, patch);
    assert!(result.is_err());
    let err = result.unwrap_err();
    assert!(err.contains("mismatch"), "Error was: {}", err);
    assert_eq!(err, "remove mismatch at line 2: expected \"wrong_line\", got \"line2\"");
}

#[test]
fn test_apply_unified_patch_empty_file() {
    let content = "";
    let patch = "--- a/file\n+++ b/file\n@@ -0,0 +1,1 @@\n+new line\n";
    let result = apply_unified_patch(content, patch).unwrap();
    assert!(result.contains("new line"));
    assert_eq!(result, "new line");
}

#[test]
fn apply_unified_patch_without_hunks_keeps_content() {
    assert_eq!(apply_unified_patch("a\nb\n", "").unwrap(), "a\nb\n");
}
