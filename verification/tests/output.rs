use std::sync::Arc;
use vtz::pm::output::{error_code_from_message, DevPmOutput, JsonOutput, PmOutput};

#[test]
fn test_json_output_creation() {
    let _output = JsonOutput::new();
}

#[test]
fn test_json_output_as_trait_object() {
    let output: Arc<dyn PmOutput> = Arc::new(JsonOutput::new());
    assert_eq!(output.resolve_complete(10).unwrap(), r#"{"event":"resolve","packages":10}"#);
    assert_eq!(
        output.link_complete(5, 100, 0).unwrap(),
        r#"{"cached":0,"event":"link","files":100,"packages":5}"#
    );
    assert_eq!(output.done(1200).unwrap(), r#"{"elapsed_ms":1200,"event":"done"}"#);
}

#[test]
fn test_error_code_package_not_found() {
    assert_eq!(error_code_from_message("package 'foo' not found on registry"), "PACKAGE_NOT_FOUND");
    assert_eq!(
        error_code_from_message("package \"foo\" not found in npm registry"),
        "PACKAGE_NOT_FOUND"
    );
}

#[test]
fn test_error_code_version_not_found() {
    assert_eq!(
        error_code_from_message("no version of \"zod\" matches \"^99.0.0\""),
        "VERSION_NOT_FOUND"
    );
}

#[test]
fn test_error_code_lockfile_stale() {
    assert_eq!(error_code_from_message("error: lockfile is out of date"), "LOCKFILE_STALE");
}

#[test]
fn test_error_code_not_direct_dependency() {
    assert_eq!(
        error_code_from_message("package is not a direct dependency: \"lodash\""),
        "NOT_DIRECT_DEPENDENCY"
    );
}

#[test]
fn test_error_code_integrity_failed() {
    assert_eq!(error_code_from_message("Integrity check failed for zod"), "INTEGRITY_FAILED");
}

#[test]
fn test_error_code_fallback() {
    assert_eq!(error_code_from_message("connection refused"), "NETWORK_ERROR");
}

#[test]
fn test_error_code_github_rate_limited() {
    assert_eq!(error_code_from_message("GitHub API rate limit exceeded"), "GITHUB_RATE_LIMITED");
}

#[test]
fn test_error_code_github_repo_not_found() {
    assert_eq!(
        error_code_from_message("repository \"github:user/lib\" not found"),
        "GITHUB_REPO_NOT_FOUND"
    );
}

#[test]
fn test_error_code_github_ref_not_found() {
    assert_eq!(
        error_code_from_message("ref \"nonexistent\" not found in github:user/lib"),
        "GITHUB_REF_NOT_FOUND"
    );
}

#[test]
fn test_error_code_github_access_denied() {
    assert_eq!(error_code_from_message("access denied to github:user/private"), "GITHUB_ACCESS_DENIED");
}

#[test]
fn test_error_code_invalid_github_specifier() {
    assert_eq!(
        error_code_from_message("invalid GitHub specifier \"github:bad\""),
        "INVALID_GITHUB_SPECIFIER"
    );
}

#[test]
fn test_json_output_package_updated() {
    let output: Arc<dyn PmOutput> = Arc::new(JsonOutput::new());
    assert_eq!(
        output.package_updated("zod", "3.24.0", "3.24.4", "^3.24.0").unwrap(),
        r#"{"event":"updated","from":"3.24.0","name":"zod","range":"^3.24.0","to":"3.24.4"}"#
    );
}

#[test]
fn test_json_output_script_lifecycle() {
    let output: Arc<dyn PmOutput> = Arc::new(JsonOutput::new());
    assert_eq!(
        output.script_started("esbuild", "node install.js").unwrap(),
        r#"{"event":"script_started","package":"esbuild","script":"node install.js"}"#
    );
    assert_eq!(
        output.script_complete("esbuild", 1200).unwrap(),
        r#"{"duration_ms":1200,"event":"script_complete","package":"esbuild"}"#
    );
    assert_eq!(
        output.script_error("prisma", "script exited with code 1").unwrap(),
        r#"{"error":"script exited with code 1","event":"script_error","package":"prisma"}"#
    );
}

#[test]
fn json_output_escapes_strings() {
    let output = JsonOutput::new();
    assert_eq!(
        output.error("E", "line\n\"quoted\"\\").unwrap(),
        r#"{"code":"E","event":"error","message":"line\n\"quoted\"\\"}"#
    );
}

#[test]
fn test_dev_output_package_added() {
    let output = DevPmOutput;
    assert_eq!(
        output.package_added("zod", "3.24.0", "^3.24.0").unwrap(),
        "[PM] + zod@3.24.0 (^3.24.0 added to package.json)"
    );
}
