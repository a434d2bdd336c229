use vtz::pm::create::{default_dir_name, parse_template, resolve_destination, CreateError, TemplateSource};
use vtz::pm::github::GitHubError;

fn npm(name: &str) -> TemplateSource {
    TemplateSource::Npm {
        package_name: name.to_string(),
    }
}

fn github(owner: &str, repo: &str) -> TemplateSource {
    TemplateSource::GitHub {
        owner: owner.to_string(),
        repo: repo.to_string(),
    }
}

#[test]
fn test_parse_short_name_resolves_to_npm() {
    assert_eq!(parse_template("vertz").unwrap(), npm("create-vertz"));
}

#[test]
fn test_parse_short_name_react() {
    assert_eq!(parse_template("react").unwrap(), npm("create-react"));
}

#[test]
fn test_parse_owner_repo_resolves_to_github() {
    assert_eq!(
        parse_template("vertz-dev/template-react").unwrap(),
        github("vertz-dev", "template-react")
    );
}

#[test]
fn test_parse_full_url_https() {
    assert_eq!(
        parse_template("https://github.com/owner/my-template").unwrap(),
        github("owner", "my-template")
    );
}

#[test]
fn test_parse_full_url_with_git_suffix() {
    assert_eq!(parse_template("https://github.com/owner/repo.git").unwrap(), github("owner", "repo"));
}

#[test]
fn test_parse_full_url_with_trailing_slash() {
    assert_eq!(parse_template("https://github.com/owner/repo/").unwrap(), github("owner", "repo"));
}

#[test]
fn test_parse_empty_string_errors() {
    assert!(parse_template("").is_err());
}

#[test]
fn test_parse_whitespace_only_errors() {
    assert!(parse_template("   ").is_err());
}

#[test]
fn test_parse_trims_whitespace() {
    assert_eq!(parse_template("  react  ").unwrap(), npm("create-react"));
}

#[test]
fn test_parse_url_missing_repo_errors() {
    assert!(parse_template("https://github.com/owner").is_err());
}

#[test]
fn test_parse_url_missing_owner_errors() {
    assert!(parse_template("https://github.com/").is_err());
}

#[test]
fn invalid_template_error_message_names_the_input() {
    match parse_template("") {
        Err(e) => assert_eq!(e.to_string(), "invalid template: \"\""),
        Ok(_) => panic!("empty template accepted"),
    }
}

#[test]
fn test_resolve_dest_explicit() {
    assert_eq!(resolve_destination(Some("my-app"), &npm("create-react")), "my-app");
}

#[test]
fn test_resolve_dest_from_npm_strips_create_prefix() {
    assert_eq!(resolve_destination(None, &npm("create-vertz")), "vertz");
}

#[test]
fn test_resolve_dest_from_github() {
    assert_eq!(resolve_destination(None, &github("someone", "my-template")), "my-template");
}

#[test]
fn test_resolve_dest_from_github_strips_create_prefix() {
    assert_eq!(resolve_destination(None, &github("someone", "create-foo")), "foo");
}

#[test]
fn test_default_dir_name_npm_strips_prefix() {
    assert_eq!(default_dir_name(&npm("create-vertz")), "vertz");
}

#[test]
fn test_default_dir_name_npm_no_prefix() {
    assert_eq!(default_dir_name(&npm("my-scaffold")), "my-scaffold");
}

#[test]
fn test_default_dir_name_github() {
    assert_eq!(default_dir_name(&github("x", "create-foo")), "foo");
}

#[test]
fn create_error_messages() {
    assert_eq!(
        CreateError::DestinationExists("app".to_string()).to_string(),
        "destination \"app\" already exists and is not empty"
    );
    assert_eq!(
        CreateError::PackageNotFound("create-x".to_string()).to_string(),
        "package \"create-x\" not found on npm registry"
    );
    assert_eq!(CreateError::Other("boom".to_string()).to_string(), "boom");
    let gh = CreateError::from(GitHubError::RateLimited);
    assert_eq!(gh.to_string(), GitHubError::RateLimited.to_string());
}
