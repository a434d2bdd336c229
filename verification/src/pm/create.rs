//! `vtz create`: template resolution, destination naming and checking, and
//! the project name written into package.json.

use vstd::prelude::*;
use crate::json_value::{
    copy_json, jinsert, json_parse, json_pretty, jv, jv_members, object_insert, parse_json, pretty_json, JsonValue, JV,
};
use crate::pm::github::{github_error_message, GitHubError};
use crate::smap::StrMap;
use crate::text::{
    chars_ends_with, chars_starts_with, chars_string, chars_sub, chars_trim, find_char, first_char,
    first_char_index, lemma_first_char_index, lemma_first_char_index_bounds, owned, push_char, push_str,
    str_chars, trim,
};

verus! {

/// Errors specific to `vtz create` operations
#[derive(Debug)]
pub enum CreateError {
    /// Template string could not be parsed
    InvalidTemplate(String),
    /// Package not found on NPM registry
    PackageNotFound(String),
    /// Destination directory already exists and is not empty
    DestinationExists(String),
    /// GitHub API error
    GitHub(GitHubError),
    /// I/O or other error
    Other(String),
}

/// The message of a create error.
pub open spec fn create_error_message(e: CreateError) -> Seq<char> {
    match e {
        CreateError::InvalidTemplate(t) => "invalid template: \""@ + t@ + "\""@,
        CreateError::PackageNotFound(name) => "package \""@ + name@ + "\" not found on npm registry"@,
        CreateError::DestinationExists(p) => "destination \""@ + p@
            + "\" already exists and is not empty"@,
        CreateError::GitHub(e) => github_error_message(e),
        CreateError::Other(msg) => msg@,
    }
}

impl CreateError {
    /// The error's message (what its `Display` writes).
    pub fn to_string(&self) -> (r: String)
        ensures
            r@ == create_error_message(*self),
    {
        match self {
            CreateError::InvalidTemplate(t) => {
                let mut s = owned("invalid template: \"");
                push_str(&mut s, t.as_str());
                push_str(&mut s, "\"");
                s
            },
            CreateError::PackageNotFound(name) => {
                let mut s = owned("package \"");
                push_str(&mut s, name.as_str());
                push_str(&mut s, "\" not found on npm registry");
                s
            },
            CreateError::DestinationExists(p) => {
                let mut s = owned("destination \"");
                push_str(&mut s, p.as_str());
                push_str(&mut s, "\" already exists and is not empty");
                s
            },
            CreateError::GitHub(e) => e.to_string(),
            CreateError::Other(msg) => owned(msg.as_str()),
        }
    }

    /// The error of a GitHub failure.
    pub fn from(e: GitHubError) -> (r: Self)
        ensures
            r == CreateError::GitHub(e),
    {
        CreateError::GitHub(e)
    }
}

/// Where to fetch the template from.
#[derive(Debug, Clone, PartialEq, Eq)]
pub enum TemplateSource {
    /// NPM package (e.g. `create-vertz`). Default for short names.
    Npm { package_name: String },
    /// GitHub repository (e.g. `owner/repo`). Used for owner/repo and full URLs.
    GitHub { owner: String, repo: String },
}

/// The outcome of parsing a template, as char sequences.
pub enum TemplateOutcome {
    Npm(Seq<char>),
    GitHub(Seq<char>, Seq<char>),
    Invalid(Seq<char>),
}

/// `owner/repo` split at the first `/`, valid when both parts are
/// non-empty and the repo has no further `/`.
pub open spec fn owner_repo(path: Seq<char>) -> Option<(Seq<char>, Seq<char>)> {
    if path.contains('/') {
        let k = first_char_index(path, '/');
        let owner = path.take(k);
        let repo = path.skip(k + 1);
        if owner.len() > 0 && repo.len() > 0 && !repo.contains('/') {
            Some((owner, repo))
        } else {
            None
        }
    } else {
        None
    }
}

/// `s` without the suffix `p`, when `s` ends with it.
pub open spec fn strip_suffix(s: Seq<char>, p: Seq<char>) -> Seq<char> {
    if p.is_suffix_of(s) {
        s.take(s.len() - p.len())
    } else {
        s
    }
}

/// The result of parsing a full GitHub URL.
pub open spec fn github_url_outcome(url: Seq<char>) -> TemplateOutcome {
    let path = if "https://github.com/"@.is_prefix_of(url) {
        url.skip("https://github.com/"@.len() as int)
    } else if "http://github.com/"@.is_prefix_of(url) {
        url.skip("http://github.com/"@.len() as int)
    } else {
        Seq::<char>::empty()
    };
    let path = strip_suffix(strip_suffix(path, ".git"@), "/"@);
    match owner_repo(path) {
        Some((o, r)) => TemplateOutcome::GitHub(o, r),
        None => TemplateOutcome::Invalid(url),
    }
}

/// The result of parsing a template string (trimmed first):
/// a full GitHub URL, else `owner/repo`, else a short name `x` meaning the
/// npm package `create-x`.
pub open spec fn template_outcome(template: Seq<char>) -> TemplateOutcome {
    let t = trim(template);
    if t.len() == 0 {
        TemplateOutcome::Invalid(t)
    } else if "https://github.com/"@.is_prefix_of(t) || "http://github.com/"@.is_prefix_of(t) {
        github_url_outcome(t)
    } else if t.contains('/') {
        match owner_repo(t) {
            Some((o, r)) => TemplateOutcome::GitHub(o, r),
            None => TemplateOutcome::Invalid(t),
        }
    } else {
        TemplateOutcome::Npm("create-"@ + t)
    }
}

/// Whether a parse result is the outcome.
pub open spec fn parse_result_is(r: Result<TemplateSource, CreateError>, o: TemplateOutcome) -> bool {
    match o {
        TemplateOutcome::Npm(n) => r matches Ok(TemplateSource::Npm { package_name }) && package_name@
            == n,
        TemplateOutcome::GitHub(ow, re) => r matches Ok(TemplateSource::GitHub { owner, repo })
            && owner@ == ow && repo@ == re,
        TemplateOutcome::Invalid(t) => r matches Err(CreateError::InvalidTemplate(s)) && s@ == t,
    }
}

fn split_owner_repo(path: &Vec<char>) -> (r: Option<(String, String)>)
    ensures
        r matches Some((o, re)) ==> owner_repo(path@) == Some((o@, re@)),
        r is None ==> owner_repo(path@) is None,
{
    match find_char(path, '/') {
        None => None,
        Some(k) => {
            proof {
                lemma_first_char_index(path@, '/', k as int);
            }
            let owner = chars_sub(path, 0, k);
            let repo_chars_len = path.len() - (k + 1);
            let mut repo_v: Vec<char> = Vec::new();
            let mut i: usize = k + 1;
            while i < path.len()
                invariant
                    k + 1 <= i <= path.len(),
                    repo_v@ == path@.subrange(k + 1, i as int),
                decreases path.len() - i,
            {
                repo_v.push(path[i]);
                assert(path@.subrange(k + 1, i as int).push(path@[i as int]) =~= path@.subrange(
                    k + 1,
                    i + 1,
                ));
                i += 1;
            }
            assert(repo_v@ =~= path@.skip(k + 1));
            assert(owner@ =~= path@.take(k as int));
            if k > 0 && repo_v.len() > 0 && find_char(&repo_v, '/').is_none() {
                Some((owner, chars_string(&repo_v)))
            } else {
                None
            }
        },
    }
}

fn strip_suffix_exec(s: &Vec<char>, p: &Vec<char>) -> (r: Vec<char>)
    ensures
        r@ == strip_suffix(s@, p@),
{
    if chars_ends_with(s, p) {
        let n = s.len() - p.len();
        let mut r: Vec<char> = Vec::new();
        let mut i: usize = 0;
        while i < n
            invariant
                i <= n <= s.len(),
                r@ == s@.take(i as int),
            decreases n - i,
        {
            r.push(s[i]);
            assert(s@.take(i as int).push(s@[i as int]) =~= s@.take(i + 1));
            i += 1;
        }
        r
    } else {
        let mut r: Vec<char> = Vec::new();
        let mut i: usize = 0;
        while i < s.len()
            invariant
                i <= s.len(),
                r@ == s@.take(i as int),
            decreases s.len() - i,
        {
            r.push(s[i]);
            assert(s@.take(i as int).push(s@[i as int]) =~= s@.take(i + 1));
            i += 1;
        }
        assert(s@.take(s.len() as int) =~= s@);
        r
    }
}

fn skip_chars(s: &Vec<char>, n: usize) -> (r: Vec<char>)
    requires
        n <= s.len(),
    ensures
        r@ == s@.skip(n as int),
{
    let mut r: Vec<char> = Vec::new();
    let mut i: usize = n;
    while i < s.len()
        invariant
            n <= i <= s.len(),
            r@ == s@.subrange(n as int, i as int),
        decreases s.len() - i,
    {
        r.push(s[i]);
        assert(s@.subrange(n as int, i as int).push(s@[i as int]) =~= s@.subrange(n as int, i + 1));
        i += 1;
    }
    assert(s@.subrange(n as int, s.len() as int) =~= s@.skip(n as int));
    r
}

fn parse_github_url(url: &Vec<char>) -> (r: Result<TemplateSource, CreateError>)
    ensures
        parse_result_is(r, github_url_outcome(url@)),
{
    let https = str_chars("https://github.com/");
    let http = str_chars("http://github.com/");
    let path = if chars_starts_with(url, &https) {
        skip_chars(url, https.len())
    } else if chars_starts_with(url, &http) {
        skip_chars(url, http.len())
    } else {
        Vec::new()
    };
    let path = strip_suffix_exec(&path, &str_chars(".git"));
    let path = strip_suffix_exec(&path, &str_chars("/"));
    match split_owner_repo(&path) {
        Some((owner, repo)) => Ok(TemplateSource::GitHub { owner, repo }),
        None => Err(CreateError::InvalidTemplate(chars_string(url))),
    }
}

/// Parse a template string into a source.
///
/// Resolution order (matches `bun create` / `npm create`):
/// - Full GitHub URL (`https://github.com/owner/repo`) → GitHub
/// - `owner/repo` → GitHub
/// - Short name (`vertz`) → NPM package `create-vertz`
pub fn parse_template(template: &str) -> (r: Result<TemplateSource, CreateError>)
    ensures
        parse_result_is(r, template_outcome(template@)),
{
    let t = chars_trim(&str_chars(template));
    if t.len() == 0 {
        return Err(CreateError::InvalidTemplate(chars_string(&t)));
    }
    let https = str_chars("https://github.com/");
    let http = str_chars("http://github.com/");
    if chars_starts_with(&t, &https) || chars_starts_with(&t, &http) {
        return parse_github_url(&t);
    }
    if find_char(&t, '/').is_some() {
        return match split_owner_repo(&t) {
            Some((owner, repo)) => Ok(TemplateSource::GitHub { owner, repo }),
            None => Err(CreateError::InvalidTemplate(chars_string(&t))),
        };
    }
    let mut name = owned("create-");
    push_str(&mut name, chars_string(&t).as_str());
    Ok(TemplateSource::Npm { package_name: name })
}

/// `s` without the prefix `p`, when `s` starts with it.
pub open spec fn strip_prefix(s: Seq<char>, p: Seq<char>) -> Seq<char> {
    if p.is_prefix_of(s) {
        s.skip(p.len() as int)
    } else {
        s
    }
}

/// The directory name derived from a template source: the package or repo
/// name without a `create-` prefix.
pub open spec fn default_dir_name_spec(source: TemplateSource) -> Seq<char> {
    match source {
        TemplateSource::Npm { package_name } => strip_prefix(package_name@, "create-"@),
        TemplateSource::GitHub { repo, .. } => strip_prefix(repo@, "create-"@),
    }
}

fn strip_create_prefix(s: &String) -> (r: String)
    ensures
        r@ == strip_prefix(s@, "create-"@),
{
    let v = str_chars(s.as_str());
    let p = str_chars("create-");
    if chars_starts_with(&v, &p) {
        chars_string(&skip_chars(&v, p.len()))
    } else {
        chars_string(&v)
    }
}

/// Derive a default directory name from the template source.
pub fn default_dir_name(source: &TemplateSource) -> (r: String)
    ensures
        r@ == default_dir_name_spec(*source),
{
    match source {
        TemplateSource::Npm { package_name } => strip_create_prefix(package_name),
        TemplateSource::GitHub { repo, .. } => strip_create_prefix(repo),
    }
}

/// Determine the destination directory: `dest` if given, else the name
/// derived from the template source.
pub fn resolve_destination(dest: Option<&str>, source: &TemplateSource) -> (r: String)
    ensures
        r@ == (match dest {
            Some(d) => d@,
            None => default_dir_name_spec(*source),
        }),
{
    if let Some(d) = dest {
        return owned(d);
    }
    default_dir_name(source)
}

} // verus!

verus! {

/// Whether a destination may be created into: it does not exist, or it is
/// an empty directory (an unreadable directory counts as not empty).
pub fn check_destination(dest: &str, present: bool, is_dir: bool, is_empty: bool) -> (r: Result<(), CreateError>)
    ensures
        r.is_ok() == (!present || (is_dir && is_empty)),
        r matches Err(e) ==> (e matches CreateError::DestinationExists(p) && p@ == dest@),
{
    if present && !(is_dir && is_empty) {
        Err(CreateError::DestinationExists(owned(dest)))
    } else {
        Ok(())
    }
}

/// package.json with its `name` set, when it is an object; anything else
/// stays as it is.
pub open spec fn with_name(pkg: JV, name: Seq<char>) -> JV {
    match pkg {
        JV::Object(ms) => JV::Object(jinsert(ms, "name"@, JV::Str(name))),
        _ => pkg,
    }
}

/// Update the "name" field in package.json to match the project name.
pub fn set_package_name(pkg: &JsonValue, name: &str) -> (r: JsonValue)
    ensures
        jv(r) == with_name(jv(*pkg), name@),
{
    let c = copy_json(pkg);
    match c {
        JsonValue::Object(ms) => {
            let mut ms = ms;
            object_insert(&mut ms, owned("name"), JsonValue::Str(owned(name)));
            JsonValue::Object(ms)
        },
        other => other,
    }
}

/// The new text of a package.json text with its `name` set: the value
/// written pretty with a final newline; none when the text is not JSON or
/// cannot be written.
pub open spec fn renamed_text(content: Seq<char>, name: Seq<char>) -> Option<Seq<char>> {
    match json_parse(content) {
        Some(v) => match json_pretty(with_name(v, name)) {
            Some(t) => Some(t + seq!['\n']),
            None => None,
        },
        None => None,
    }
}

/// package.json's text with its `name` set to the project name.
pub fn renamed_package_json(content: &str, name: &str) -> (r: Option<String>)
    ensures
        match r {
            Some(t) => renamed_text(content@, name@) == Some(t@),
            None => renamed_text(content@, name@) is None,
        },
{
    match parse_json(content) {
        Some(v) => {
            let renamed = set_package_name(&v, name);
            match pretty_json(&renamed) {
                Some(t) => {
                    let mut t = t;
                    push_char(&mut t, '\n');
                    Some(t)
                },
                None => None,
            }
        },
        None => None,
    }
}

} // verus!

verus! {

/// The version a template package is created from, and that version's
/// tarball and integrity: the `latest` dist-tag, which the registry must
/// list among the versions (`versions` maps each version to its dist
/// tarball URL and integrity).
pub open spec fn latest_dist(
    dist_tags: StrMap<String>,
    versions: StrMap<(String, String)>,
) -> Option<(Seq<char>, Seq<char>, Seq<char>)> {
    match dist_tags.lookup("latest"@) {
        Some(v) => match versions.lookup(v@) {
            Some(d) => Some((v@, d.0@, d.1@)),
            None => None,
        },
        None => None,
    }
}

/// The latest version of a template package and its tarball URL and
/// integrity; the package counts as not found when the `latest` tag or its
/// version is missing.
pub fn latest_tarball(
    package_name: &str,
    dist_tags: &StrMap<String>,
    versions: &StrMap<(String, String)>,
) -> (r: Result<(String, String, String), CreateError>)
    ensures
        match latest_dist(*dist_tags, *versions) {
            Some(t) => r matches Ok(x) && x.0@ == t.0 && x.1@ == t.1 && x.2@ == t.2,
            None => r matches Err(e) && (e matches CreateError::PackageNotFound(n) && n@ == package_name@),
        },
{
    let v = match dist_tags.get("latest") {
        Some(v) => v,
        None => {
            return Err(CreateError::PackageNotFound(owned(package_name)));
        },
    };
    match versions.get(v.as_str()) {
        Some(d) => Ok((owned(v.as_str()), owned(d.0.as_str()), owned(d.1.as_str()))),
        None => Err(CreateError::PackageNotFound(owned(package_name))),
    }
}

} // verus!
