//! Errors of the GitHub API operations used by the package manager.

use vstd::prelude::*;
use crate::text::{owned, push_str};

verus! {

/// Errors specific to GitHub API operations
#[derive(Debug)]
pub enum GitHubError {
    /// Repository not found (HTTP 404, no ref specified)
    RepoNotFound { owner: String, repo: String },
    /// Ref not found (HTTP 404, ref specified)
    RefNotFound { owner: String, repo: String, ref_: String },
    /// Rate limit exceeded (HTTP 403 with X-RateLimit-Remaining: 0)
    RateLimited,
    /// Access denied (HTTP 403, not rate-limited)
    AccessDenied { owner: String, repo: String },
    /// Other HTTP or network error
    Other(String),
}

/// The message of a GitHub error.
pub open spec fn github_error_message(e: GitHubError) -> Seq<char> {
    match e {
        GitHubError::RepoNotFound { owner, repo } => "repository \"github:"@ + owner@ + "/"@
            + repo@ + "\" not found"@,
        GitHubError::RefNotFound { owner, repo, ref_ } => "ref \""@ + ref_@ + "\" not found in github:"@
            + owner@ + "/"@ + repo@,
        GitHubError::RateLimited => "GitHub API rate limit exceeded. Set GITHUB_TOKEN env var to increase from 60 to 5000 requests/hour."@,
        GitHubError::AccessDenied { owner, repo } => "access denied to github:"@ + owner@ + "/"@
            + repo@ + " — repository may be private (private repos not yet supported)"@,
        GitHubError::Other(msg) => msg@,
    }
}

impl GitHubError {
    /// The error's message (what its `Display` writes).
    pub fn to_string(&self) -> (r: String)
        ensures
            r@ == github_error_message(*self),
    {
        match self {
            GitHubError::RepoNotFound { owner, repo } => {
                let mut s = owned("repository \"github:");
                push_str(&mut s, owner.as_str());
                push_str(&mut s, "/");
                push_str(&mut s, repo.as_str());
                push_str(&mut s, "\" not found");
                s
            },
            GitHubError::RefNotFound { owner, repo, ref_ } => {
                let mut s = owned("ref \"");
                push_str(&mut s, ref_.as_str());
                push_str(&mut s, "\" not found in github:");
                push_str(&mut s, owner.as_str());
                push_str(&mut s, "/");
                push_str(&mut s, repo.as_str());
                s
            },
            GitHubError::RateLimited => owned(
                "GitHub API rate limit exceeded. Set GITHUB_TOKEN env var to increase from 60 to 5000 requests/hour.",
            ),
            GitHubError::AccessDenied { owner, repo } => {
                let mut s = owned("access denied to github:");
                push_str(&mut s, owner.as_str());
                push_str(&mut s, "/");
                push_str(&mut s, repo.as_str());
                push_str(&mut s, " — repository may be private (private repos not yet supported)");
                s
            },
            GitHubError::Other(msg) => owned(msg.as_str()),
        }
    }
}

/// The codeload URL of a repository tarball at a commit.
pub open spec fn tarball_url_spec(owner: Seq<char>, repo: Seq<char>, sha: Seq<char>) -> Seq<char> {
    "https://codeload.github.com/"@ + owner + "/"@ + repo + "/tar.gz/"@ + sha
}

/// The codeload URL of a repository tarball at a commit.
pub fn github_tarball_url(owner: &str, repo: &str, sha: &str) -> (r: String)
    ensures
        r@ == tarball_url_spec(owner@, repo@, sha@),
{
    let mut s = owned("https://codeload.github.com/");
    push_str(&mut s, owner);
    push_str(&mut s, "/");
    push_str(&mut s, repo);
    push_str(&mut s, "/tar.gz/");
    push_str(&mut s, sha);
    s
}

} // verus!
