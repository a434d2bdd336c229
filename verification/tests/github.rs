use vtz::pm::github::{github_tarball_url, GitHubError};

#[test]
fn test_tarball_url() {
    let url = github_tarball_url("user", "my-lib", "a1b2c3d4e5f6a1b2c3d4e5f6a1b2c3d4e5f6a1b2");
    assert_eq!(
        url,
        "https://codeload.github.com/user/my-lib/tar.gz/a1b2c3d4e5f6a1b2c3d4e5f6a1b2c3d4e5f6a1b2"
    );
}

#[test]
fn test_github_error_display_repo_not_found() {
    let err = GitHubError::RepoNotFound {
        owner: "user".to_string(),
        repo: "does-not-exist".to_string(),
    };
    assert_eq!(err.to_string(), "repository \"github:user/does-not-exist\" not found");
}

#[test]
fn test_github_error_display_ref_not_found() {
    let err = GitHubError::RefNotFound {
        owner: "user".to_string(),
        repo: "my-lib".to_string(),
        ref_: "nonexistent".to_string(),
    };
    assert_eq!(err.to_string(), "ref \"nonexistent\" not found in github:user/my-lib");
}

#[test]
fn test_github_error_display_rate_limited() {
    let err = GitHubError::RateLimited;
    let msg = err.to_string();
    assert!(msg.contains("rate limit"));
    assert!(msg.contains("GITHUB_TOKEN"));
    assert!(msg.contains("5000"));
}

#[test]
fn test_github_error_display_access_denied() {
    let err = GitHubError::AccessDenied {
        owner: "user".to_string(),
        repo: "private-lib".to_string(),
    };
    let msg = err.to_string();
    assert!(msg.contains("access denied"));
    assert!(msg.contains("private"));
}

#[test]
fn github_error_other_passes_message_through() {
    assert_eq!(GitHubError::Other("network down".to_string()).to_string(), "network down");
}
