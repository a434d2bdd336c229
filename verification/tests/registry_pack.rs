use vtz::pm::pack::{hex_lower, ignore_patterns, is_always_excluded, is_always_included, is_install_script, matches_any_pattern, needs_always_included, normalize_path_separators, pack_result, PackedFile};
use vtz::pm::registry::{default_cache_dir, extract_npm_error, PublishAttachment, PublishError};

#[test]
fn test_default_cache_dir() {
    let dir = default_cache_dir(Some("/home/dev"));
    assert!(dir.contains(".vertz"));
    assert!(dir.contains("cache"));
    assert_eq!(dir, "/home/dev/.vertz/cache/npm");
}

#[test]
fn default_cache_dir_without_home_is_relative() {
    assert_eq!(default_cache_dir(None), ".vertz/cache/npm");
    assert_eq!(default_cache_dir(Some("/root/")), "/root/.vertz/cache/npm");
}

#[test]
fn test_extract_npm_error_json() {
    let body = r#"{"error": "version already exists"}"#;
    assert_eq!(extract_npm_error(body), "version already exists");
}

#[test]
fn test_extract_npm_error_plain_text() {
    assert_eq!(extract_npm_error("forbidden"), "forbidden");
}

#[test]
fn test_extract_npm_error_empty() {
    assert_eq!(extract_npm_error(""), "unknown error");
}

#[test]
fn extract_npm_error_truncates_long_bodies() {
    let body = "x".repeat(250);
    assert_eq!(extract_npm_error(&body), "x".repeat(200));
    assert_eq!(extract_npm_error(r#"{"error": 5}"#), r#"{"error": 5}"#);
}

#[test]
fn test_publish_error_auth_display() {
    let err = PublishError::Auth("token expired".to_string());
    assert_eq!(err.to_string(), "token expired");
}

#[test]
fn test_publish_error_version_exists_display() {
    let err = PublishError::VersionExists("already published".to_string());
    assert_eq!(err.to_string(), "already published");
}

#[test]
fn test_publish_error_forbidden_display() {
    let err = PublishError::Forbidden("no access".to_string());
    assert_eq!(err.to_string(), "no access");
}

#[test]
fn publish_attachment_holds_fields() {
    let a = PublishAttachment {
        content_type: "application/octet-stream".to_string(),
        data: "AAAA".to_string(),
        length: 3,
    };
    assert_eq!(a.length, 3);
}

#[test]
fn test_normalize_path_separators() {
    assert_eq!(normalize_path_separators("dist\\index.js"), "dist/index.js");
    assert_eq!(normalize_path_separators("src\\lib\\utils.ts"), "src/lib/utils.ts");
    assert_eq!(normalize_path_separators("already/forward/slash"), "already/forward/slash");
}

#[test]
fn always_excluded_names() {
    for n in [".git", "node_modules", ".npmrc", ".gitignore", ".npmignore", ".DS_Store"] {
        assert!(is_always_excluded(n));
    }
    assert!(!is_always_excluded("src"));
    assert!(is_install_script("postinstall"));
    assert!(!is_install_script("build"));
    let f = PackedFile { path: "a".to_string(), size: 1 };
    assert_eq!(f.size, 1);
}

#[test]
fn pattern_matching_exact_directory_and_glob() {
    let pats = vec!["dist/".to_string()];
    assert!(matches_any_pattern("dist/index.js", &pats));
    assert!(matches_any_pattern("dist", &pats));
    assert!(!matches_any_pattern("distance.js", &pats));
    let globs = vec!["*.md".to_string(), "lib/**/*.js".to_string()];
    assert!(matches_any_pattern("README.md", &globs));
    assert!(matches_any_pattern("lib/a/b.js", &globs));
    assert!(!matches_any_pattern("src/a.ts", &globs));
    assert!(!matches_any_pattern("x", &[]));
    assert!(matches_any_pattern("src/deep/file.ts", &vec!["src".to_string()]));
}

#[test]
fn ignore_file_patterns_skip_comments_and_blanks() {
    let pats = ignore_patterns("# comment\n\n  *.log  \ncoverage/\n   # indented comment\n");
    assert_eq!(pats, vec!["*.log".to_string(), "coverage/".to_string()]);
}

#[test]
fn always_included_files_by_lowercase_prefix() {
    assert!(is_always_included("README.md"));
    assert!(is_always_included("License"));
    assert!(is_always_included("LICENCE.txt"));
    assert!(is_always_included("CHANGELOG"));
    assert!(!is_always_included("index.js"));
    let files = vec![PackedFile { path: "README.md".to_string(), size: 1 }];
    assert!(!needs_always_included(&files, "README.md"));
    assert!(needs_always_included(&files, "LICENSE"));
    assert!(!needs_always_included(&files, "main.js"));
}

#[test]
fn pack_result_sizes_and_digests() {
    let files = vec![
        PackedFile { path: "package.json".to_string(), size: 10 },
        PackedFile { path: "index.js".to_string(), size: 32 },
    ];
    let r = pack_result(b"hello".to_vec(), files);
    assert_eq!(r.packed_size, 5);
    assert_eq!(r.unpacked_size, 42);
    assert_eq!(r.shasum, "aaf4c61ddcc5e8a2dabede0f3b482cd9aea9434d");
    assert_eq!(
        r.integrity,
        "sha512-m3HSJL1i83hdltRq0+o9czGb+8KJDKra4t/3JRlnPKcjI8PZm6XBHXx6zG4UuMXaDEZjR1wuXDre9G9zvN7AQw=="
    );
    assert_eq!(r.files.len(), 2);
}

#[test]
fn hex_of_bytes() {
    assert_eq!(hex_lower(&[0x00, 0x0f, 0xa0, 0xff]), "000fa0ff");
    assert_eq!(hex_lower(&[]), "");
}
