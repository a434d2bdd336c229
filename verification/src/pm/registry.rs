//! The npm registry: publish errors and attachments, registry error bodies,
//! and where the package cache lives.

use vstd::prelude::*;
use crate::json_value::{
    copy_json, jinsert, jmember, json_parse, jv, jv_members, lemma_members_index, member, object_insert, parse_json, JsonValue,
    JV,
};
use crate::pm::advisories::unscoped;
use crate::pm::commands::sview;
use crate::pm::listing::opt_view;
use crate::pm::pack::{trim_end_slashes, trim_end_slashes_exec};
use crate::smap::StrMap;
use crate::text::{chars_sub, owned, push_char, push_str, replace_char, replace_char_str, str_chars};

verus! {

/// Errors that can occur during publish
#[derive(Debug)]
pub enum PublishError {
    /// 401 Unauthorized — missing or invalid auth token
    Auth(String),
    /// 403 Forbidden — no permission to publish
    Forbidden(String),
    /// 409 Conflict — version already published
    VersionExists(String),
    /// Any other error
    Other(String),
}

/// The message of a publish error: its text, whatever its kind.
pub open spec fn publish_error_message(e: PublishError) -> Seq<char> {
    match e {
        PublishError::Auth(m) => m@,
        PublishError::Forbidden(m) => m@,
        PublishError::VersionExists(m) => m@,
        PublishError::Other(m) => m@,
    }
}

impl PublishError {
    /// The error's message (what its `Display` writes).
    pub fn to_string(&self) -> (r: String)
        ensures
            r@ == publish_error_message(*self),
    {
        match self {
            PublishError::Auth(m) => m.clone(),
            PublishError::Forbidden(m) => m.clone(),
            PublishError::VersionExists(m) => m.clone(),
            PublishError::Other(m) => m.clone(),
        }
    }
}

/// A tarball attachment in the publish document
pub struct PublishAttachment {
    pub content_type: String,
    pub data: String,
    pub length: u64,
}

/// The string under the top-level `"error"` key of a parsed body, when
/// there is one.
pub open spec fn error_field(parsed: Option<JV>) -> Option<Seq<char>> {
    match parsed {
        Some(v) => match jmember(v, "error"@) {
            Some(JV::Str(s)) => Some(s),
            _ => None,
        },
        None => None,
    }
}

/// The `"error"` string of a JSON body, when it parses and has one.
fn error_field_of(body: &str) -> (r: Option<String>)
    ensures
        opt_view(r) == error_field(json_parse(body@)),
{
    match parse_json(body) {
        Some(v) => match member(&v, "error") {
            Some(JsonValue::Str(s)) => Some(owned(s.as_str())),
            _ => None,
        },
        None => None,
    }
}

/// The message of a registry error body: its JSON `"error"` string; else
/// `unknown error` for an empty body; else the body's first 200 chars.
pub open spec fn npm_error_message(body: Seq<char>) -> Seq<char> {
    match error_field(json_parse(body)) {
        Some(e) => e,
        None => if body.len() == 0 {
            "unknown error"@
        } else if body.len() <= 200 {
            body
        } else {
            body.take(200)
        },
    }
}

/// Extract a human-readable message from a registry error response body.
pub fn extract_npm_error(body: &str) -> (r: String)
    ensures
        r@ == npm_error_message(body@),
{
    match error_field_of(body) {
        Some(e) => e,
        None => {
            let v = str_chars(body);
            if v.len() == 0 {
                let r = owned("unknown error");
                proof {
                    reveal_strlit("unknown error");
                }
                r
            } else {
                let n = if v.len() <= 200 { v.len() } else { 200 };
                let mut r = String::new();
                let mut i: usize = 0;
                while i < n
                    invariant
                        i <= n,
                        n <= v.len(),
                        r@ == v@.take(i as int),
                    decreases n - i,
                {
                    push_char(&mut r, v[i]);
                    proof {
                        assert(v@.take(i as int).push(v@[i as int]) =~= v@.take(i + 1));
                    }
                    i += 1;
                }
                proof {
                    if v.len() <= 200 {
                        assert(v@.take(n as int) =~= v@);
                    }
                }
                r
            }
        },
    }
}

/// `PathBuf::push` of a relative component on Unix: the component after a
/// `/` (none needed after an empty path or one ending in `/`).
pub open spec fn path_join(base: Seq<char>, comp: Seq<char>) -> Seq<char> {
    if base.len() == 0 {
        comp
    } else if base.last() == '/' {
        base + comp
    } else {
        base + "/"@ + comp
    }
}

fn push_component(path: &mut String, comp: &str)
    ensures
        final(path)@ == path_join(old(path)@, comp@),
{
    let v = str_chars(path.as_str());
    if v.len() > 0 && v[v.len() - 1] != '/' {
        push_char(path, '/');
    }
    push_str(path, comp);
    proof {
        reveal_strlit("/");
        assert(final(path)@ =~= path_join(old(path)@, comp@));
    }
}

/// The global cache directory: `.vertz/cache/npm` under the home directory,
/// or under the working directory when no home is known.
pub open spec fn cache_dir_for(home: Option<Seq<char>>) -> Seq<char> {
    let base = match home {
        Some(h) => path_join(h, ".vertz"@),
        None => ".vertz"@,
    };
    path_join(path_join(base, "cache"@), "npm"@)
}

/// Get the default global cache directory, given the home directory (the
/// `HOME` variable, when set).
pub fn default_cache_dir(home: Option<&str>) -> (r: String)
    ensures
        r@ == cache_dir_for(match home {
            Some(h) => Some(h@),
            None => None,
        }),
{
    let mut p = match home {
        Some(h) => {
            let mut p = owned(h);
            push_component(&mut p, ".vertz");
            p
        },
        None => {
            let p = owned(".vertz");
            p
        },
    };
    push_component(&mut p, "cache");
    push_component(&mut p, "npm");
    p
}

} // verus!

verus! {

/// `s` with its first `/` written as `%2f`.
pub open spec fn replace_first_slash(s: Seq<char>) -> Seq<char>
    decreases s.len(),
{
    if s.len() == 0 {
        s
    } else if s[0] == '/' {
        "%2f"@ + s.skip(1)
    } else {
        seq![s[0]] + replace_first_slash(s.skip(1))
    }
}

/// A package name as it stands in a registry path: a scoped name has its
/// `/` encoded.
pub open spec fn encoded_name(name: Seq<char>) -> Seq<char> {
    if name.len() > 0 && name[0] == '@' {
        replace_first_slash(name)
    } else {
        name
    }
}

/// The URL a published tarball will have on the registry.
pub open spec fn publish_tarball_url(registry: Seq<char>, name: Seq<char>, version: Seq<char>) -> Seq<char> {
    trim_end_slashes(registry) + "/"@ + encoded_name(name) + "/-/"@ + unscoped(name) + "-"@
        + version + ".tgz"@
}

/// The `dist` member of a version's metadata.
pub open spec fn dist_info(integrity: Seq<char>, shasum: Seq<char>, tarball: Seq<char>) -> JV {
    JV::Object(
        seq![
            ("integrity"@, JV::Str(integrity)),
            ("shasum"@, JV::Str(shasum)),
            ("tarball"@, JV::Str(tarball)),
        ],
    )
}

/// The metadata of the published version: the normalized manifest with
/// `_id`, `_nodeVersion` and `dist` set (when it is an object).
pub open spec fn version_meta(
    pkg: JV,
    name: Seq<char>,
    version: Seq<char>,
    integrity: Seq<char>,
    shasum: Seq<char>,
    registry: Seq<char>,
) -> JV {
    match pkg {
        JV::Object(ms) => JV::Object(
            jinsert(
                jinsert(
                    jinsert(ms, "_id"@, JV::Str(name + "@"@ + version)),
                    "_nodeVersion"@,
                    JV::Str("22.0.0"@),
                ),
                "dist"@,
                dist_info(integrity, shasum, publish_tarball_url(registry, name, version)),
            ),
        ),
        _ => pkg,
    }
}

#[verifier::spinoff_prover]
#[verifier::rlimit(80)]
fn replace_first_slash_exec(s: &str) -> (r: String)
    ensures
        r@ == replace_first_slash(s@),
{
    let v = str_chars(s);
    let n = v.len();
    let mut i: usize = 0;
    assert(v@.take(0) + v@.skip(0) =~= v@);
    while i < n && v[i] != '/'
        invariant
            n == v@.len(),
            v@ == s@,
            i <= n,
            replace_first_slash(s@) == v@.take(i as int) + replace_first_slash(v@.skip(i as int)),
        decreases n - i,
    {
        proof {
            let t = v@.skip(i as int);
            assert(t[0] == v@[i as int]);
            assert(t.skip(1) =~= v@.skip(i + 1));
            assert(v@.take(i as int) + seq![v@[i as int]] =~= v@.take(i + 1));
        }
        i += 1;
    }
    let mut r = chars_sub(&v, 0, i);
    if i < n {
        push_str(&mut r, "%2f");
        let rest = chars_sub(&v, i + 1, n);
        push_str(&mut r, rest.as_str());
        proof {
            let t = v@.skip(i as int);
            assert(t[0] == '/');
            assert(t.skip(1) =~= v@.subrange(i + 1, n as int));
            assert(v@.subrange(0, i as int) =~= v@.take(i as int));
        }
    } else {
        proof {
            assert(v@.skip(i as int).len() == 0);
            assert(v@.subrange(0, i as int) =~= v@.take(i as int));
        }
    }
    r
}

/// What follows the last `/` of a package name (all of it when it has none).
pub fn unscoped_name(s: &str) -> (r: String)
    ensures
        r@ == unscoped(s@),
{
    let v = str_chars(s);
    let len = v.len();
    let mut n: usize = len;
    assert(v@.take(len as int) =~= v@);
    assert(v@.subrange(len as int, len as int) =~= Seq::<char>::empty());
    while n > 0 && v[n - 1] != '/'
        invariant
            len == v@.len(),
            v@ == s@,
            n <= len,
            unscoped(s@) == unscoped(v@.take(n as int)) + v@.subrange(n as int, len as int),
        decreases n,
    {
        proof {
            let t = v@.take(n as int);
            assert(t.last() == v@[n - 1]);
            assert(t.drop_last() =~= v@.take(n - 1));
            assert(seq![v@[n - 1]] + v@.subrange(n as int, len as int) =~= v@.subrange(n - 1, len as int));
            assert(unscoped(t) == unscoped(v@.take(n - 1)).push(v@[n - 1]));
            assert(unscoped(v@.take(n - 1)).push(v@[n - 1]) + v@.subrange(n as int, len as int)
                =~= unscoped(v@.take(n - 1)) + v@.subrange(n - 1, len as int));
        }
        n -= 1;
    }
    proof {
        let t = v@.take(n as int);
        if n > 0 {
            assert(t.last() == v@[n - 1]);
        }
        assert(unscoped(t) =~= Seq::<char>::empty());
    }
    chars_sub(&v, n, len)
}

/// Parameters for building a publish document
pub struct PublishParams<'a> {
    pub name: &'a str,
    pub version: &'a str,
    pub tag: &'a str,
    pub access: Option<&'a str>,
    pub tarball_base64: &'a str,
    pub tarball_length: u64,
    pub integrity: &'a str,
    pub shasum: &'a str,
    pub normalized_pkg: &'a JsonValue,
    pub registry_url: &'a str,
}

/// The full publish document sent as a PUT body to the npm registry
pub struct PublishDocument {
    pub _id: String,
    pub name: String,
    pub versions: StrMap<JsonValue>,
    pub dist_tags: StrMap<String>,
    pub access: Option<String>,
    pub _attachments: StrMap<PublishAttachment>,
}

/// The value under `x` is a JSON value whose value is `expected`.
pub open spec fn holds_json(m: StrMap<JsonValue>, x: Seq<char>, expected: JV) -> bool {
    match m.lookup(x) {
        Some(j) => jv(j) == expected,
        None => false,
    }
}

/// The attachment under `x` carries `data` of `length` bytes as an octet stream.
pub open spec fn holds_attachment(m: StrMap<PublishAttachment>, x: Seq<char>, data: Seq<char>, length: u64) -> bool {
    match m.lookup(x) {
        Some(a) => a.content_type@ == "application/octet-stream"@ && a.data@ == data && a.length == length,
        None => false,
    }
}

/// Build a PublishDocument from pack result and package metadata: one
/// version (the normalized manifest with its `_id`, `_nodeVersion` and
/// `dist`), the tag pointing at it, the access level, and the tarball as
/// the one attachment `<name>-<version>.tgz`.
pub fn build_publish_document(params: &PublishParams<'_>) -> (d: PublishDocument)
    ensures
        d._id@ == params.name@,
        d.name@ == params.name@,
        forall|x: Seq<char>| #[trigger] d.versions.has(x) <==> x == params.version@,
        holds_json(
            d.versions,
            params.version@,
            version_meta(
                jv(*params.normalized_pkg),
                params.name@,
                params.version@,
                params.integrity@,
                params.shasum@,
                params.registry_url@,
            ),
        ),
        forall|x: Seq<char>| #[trigger] d.dist_tags.has(x) <==> x == params.tag@,
        sview(d.dist_tags, params.tag@) == Some(params.version@),
        opt_view(d.access) == crate::pm::commands::opt_view(params.access),
        forall|x: Seq<char>| #[trigger] d._attachments.has(x) <==> x == params.name@ + "-"@ + params.version@ + ".tgz"@,
        holds_attachment(
            d._attachments,
            params.name@ + "-"@ + params.version@ + ".tgz"@,
            params.tarball_base64@,
            params.tarball_length,
        ),
{
    let name = params.name;
    let version = params.version;
    let mut tarball_name = owned(name);
    push_str(&mut tarball_name, "-");
    push_str(&mut tarball_name, version);
    push_str(&mut tarball_name, ".tgz");

    let copy = copy_json(params.normalized_pkg);
    let meta = match copy {
        JsonValue::Object(ms) => {
            let mut ms = ms;
            let mut id = owned(name);
            push_str(&mut id, "@");
            push_str(&mut id, version);
            object_insert(&mut ms, owned("_id"), JsonValue::Str(id));
            object_insert(&mut ms, owned("_nodeVersion"), JsonValue::Str(owned("22.0.0")));
            let encoded = if str_starts_with_at(name) {
                replace_first_slash_exec(name)
            } else {
                owned(name)
            };
            let mut url = trim_end_slashes_exec(params.registry_url);
            push_str(&mut url, "/");
            push_str(&mut url, encoded.as_str());
            push_str(&mut url, "/-/");
            let base = unscoped_name(name);
            push_str(&mut url, base.as_str());
            push_str(&mut url, "-");
            push_str(&mut url, version);
            push_str(&mut url, ".tgz");
            let mut dist: Vec<(String, JsonValue)> = Vec::new();
            dist.push((owned("integrity"), JsonValue::Str(owned(params.integrity))));
            dist.push((owned("shasum"), JsonValue::Str(owned(params.shasum))));
            dist.push((owned("tarball"), JsonValue::Str(url)));
            proof {
                lemma_members_index(dist@, 3);
                assert(jv_members(dist@, 3) =~= seq![
                    ("integrity"@, JV::Str(params.integrity@)),
                    ("shasum"@, JV::Str(params.shasum@)),
                    ("tarball"@, JV::Str(publish_tarball_url(params.registry_url@, name@, version@))),
                ]);
            }
            object_insert(&mut ms, owned("dist"), JsonValue::Object(dist));
            JsonValue::Object(ms)
        },
        other => other,
    };

    let mut versions: StrMap<JsonValue> = StrMap::new();
    versions.insert(owned(version), meta);
    let mut dist_tags: StrMap<String> = StrMap::new();
    dist_tags.insert(owned(params.tag), owned(version));
    let mut attachments: StrMap<PublishAttachment> = StrMap::new();
    attachments.insert(
        tarball_name,
        PublishAttachment {
            content_type: owned("application/octet-stream"),
            data: owned(params.tarball_base64),
            length: params.tarball_length,
        },
    );
    let access = match params.access {
        Some(a) => Some(owned(a)),
        None => None,
    };
    PublishDocument {
        _id: owned(name),
        name: owned(name),
        versions,
        dist_tags,
        access,
        _attachments: attachments,
    }
}

fn str_starts_with_at(s: &str) -> (b: bool)
    ensures
        b == (s@.len() > 0 && s@[0] == '@'),
{
    let v = str_chars(s);
    v.len() > 0 && v[0] == '@'
}

} // verus!

verus! {

/// What `url::Url::parse` makes of `s` and then `host_str()`: `None` when
/// `s` does not parse as an absolute URL, else the URL's host, if it has one
/// (a function of the text alone).
pub uninterp spec fn url_host_of(s: Seq<char>) -> Option<Option<Seq<char>>>;

/// A nested optional string as chars.
pub open spec fn opt_opt_view(o: Option<Option<String>>) -> Option<Option<Seq<char>>> {
    match o {
        Some(Some(h)) => Some(Some(h@)),
        Some(None) => Some(None),
        None => None,
    }
}

/// `url::Url::parse(s)`, then `host_str()`. The result is named as a
/// function of the text; nothing more is stated of how URLs parse.
#[verifier::external_body]
fn url_host(s: &str) -> (r: Option<Option<String>>)
    ensures
        opt_opt_view(r) == url_host_of(s@),
{
    match url::Url::parse(s) {
        Ok(u) => match u.host_str() {
            Some(h) => Some(Some(h.to_string())),
            None => Some(None),
        },
        Err(_) => None,
    }
}

/// The registry as named in an authentication failure: its host, or the
/// URL as given when it has none or does not parse.
pub open spec fn registry_host(registry: Seq<char>) -> Seq<char> {
    match url_host_of(registry) {
        Some(Some(h)) => h,
        _ => registry,
    }
}

/// The host of a registry URL, as an authentication failure names it.
pub fn registry_host_of(registry_url: &str) -> (r: String)
    ensures
        r@ == registry_host(registry_url@),
{
    match url_host(registry_url) {
        Some(Some(h)) => h,
        _ => owned(registry_url),
    }
}

/// Where a package document is PUT: the registry without trailing slashes,
/// then the encoded name.
pub open spec fn publish_url_spec(registry: Seq<char>, name: Seq<char>) -> Seq<char> {
    trim_end_slashes(registry) + "/"@ + encoded_name(name)
}

/// The URL a package is published to.
pub fn publish_url(registry_url: &str, name: &str) -> (r: String)
    ensures
        r@ == publish_url_spec(registry_url@, name@),
{
    let mut url = trim_end_slashes_exec(registry_url);
    push_str(&mut url, "/");
    let encoded = if str_starts_with_at(name) {
        replace_first_slash_exec(name)
    } else {
        owned(name)
    };
    push_str(&mut url, encoded.as_str());
    url
}

/// The version a document's first dist-tag points at (empty when it has none).
pub open spec fn first_tag_version(d: PublishDocument) -> Seq<char> {
    if d.dist_tags.size() > 0 {
        d.dist_tags.vseq()[0]@
    } else {
        Seq::empty()
    }
}

/// The message a failed publish reports for a status other than success.
pub open spec fn publish_failure_message(
    status: u16,
    status_text: Seq<char>,
    registry: Seq<char>,
    d: PublishDocument,
    body: Seq<char>,
) -> Seq<char> {
    if status == 401 {
        "Authentication failed. Check your .npmrc for a valid auth token for "@ + registry_host(registry)
    } else if status == 403 {
        "Permission denied: "@ + npm_error_message(body)
    } else if status == 409 {
        "Cannot publish "@ + d.name@ + "@"@ + first_tag_version(d) + ": version already exists on registry"@
    } else {
        "Registry returned HTTP "@ + status_text + ": "@ + npm_error_message(body)
    }
}

/// What the registry's answer to a publish means: success for a 2xx status;
/// else 401 is an authentication error naming the registry's host, 403 a
/// permission error with the registry's message, 409 a version that exists,
/// and anything else an error with the status line (`status_text`, as the
/// HTTP client shows it) and the registry's message.
pub fn publish_outcome(
    status: u16,
    status_text: &str,
    registry_url: &str,
    document: &PublishDocument,
    body: &str,
) -> (r: Result<(), PublishError>)
    ensures
        r is Ok <==> 200 <= status <= 299,
        r matches Err(e) ==> publish_error_message(e) == publish_failure_message(
            status,
            status_text@,
            registry_url@,
            *document,
            body@,
        ),
        r matches Err(e) ==> ((e is Auth) <==> status == 401),
        r matches Err(e) ==> ((e is Forbidden) <==> status == 403),
        r matches Err(e) ==> ((e is VersionExists) <==> status == 409),
{
    if 200 <= status && status <= 299 {
        Ok(())
    } else if status == 401 {
        let mut m = owned("Authentication failed. Check your .npmrc for a valid auth token for ");
        let host = registry_host_of(registry_url);
        push_str(&mut m, host.as_str());
        Err(PublishError::Auth(m))
    } else if status == 403 {
        let mut m = owned("Permission denied: ");
        let e = extract_npm_error(body);
        push_str(&mut m, e.as_str());
        Err(PublishError::Forbidden(m))
    } else if status == 409 {
        let mut m = owned("Cannot publish ");
        push_str(&mut m, document.name.as_str());
        push_str(&mut m, "@");
        if document.dist_tags.len() > 0 {
            push_str(&mut m, document.dist_tags.value_at(0).as_str());
        }
        push_str(&mut m, ": version already exists on registry");
        proof {
            if document.dist_tags.size() == 0 {
                assert(m@ =~= "Cannot publish "@ + document.name@ + "@"@ + first_tag_version(*document)
                    + ": version already exists on registry"@);
            }
        }
        Err(PublishError::VersionExists(m))
    } else {
        let mut m = owned("Registry returned HTTP ");
        push_str(&mut m, status_text);
        push_str(&mut m, ": ");
        let e = extract_npm_error(body);
        push_str(&mut m, e.as_str());
        Err(PublishError::Other(m))
    }
}

} // verus!

verus! {

/// `s` with every `..` taken out, scanning from the left.
pub open spec fn drop_dotdot(s: Seq<char>) -> Seq<char>
    decreases s.len(),
{
    if s.len() >= 2 && s[0] == '.' && s[1] == '.' {
        drop_dotdot(s.skip(2))
    } else if s.len() == 0 {
        s
    } else {
        seq![s[0]] + drop_dotdot(s.skip(1))
    }
}

/// The file stem a package's metadata is cached under: `/` becomes `__`
/// and `..` is removed, so the name cannot leave the cache directory.
pub open spec fn sanitized_cache_name(name: Seq<char>) -> Seq<char> {
    drop_dotdot(replace_char(name, '/', "__"@))
}

/// The file stem a package's registry metadata is cached under.
pub fn sanitize_cache_name(name: &str) -> (r: String)
    ensures
        r@ == sanitized_cache_name(name@),
{
    let w = replace_char_str(name, '/', "__");
    let v = str_chars(w.as_str());
    let n = v.len();
    let mut out = String::new();
    let mut i: usize = 0;
    assert(v@.skip(0) =~= v@);
    while i < n
        invariant
            n == v@.len(),
            v@ == w@,
            i <= n,
            drop_dotdot(w@) == out@ + drop_dotdot(v@.skip(i as int)),
        decreases n - i,
    {
        let ghost t = v@.skip(i as int);
        if n - i >= 2 && v[i] == '.' && v[i + 1] == '.' {
            proof {
                assert(t[0] == '.' && t[1] == '.');
                assert(t.skip(2) =~= v@.skip(i + 2));
            }
            i += 2;
        } else {
            push_char(&mut out, v[i]);
            proof {
                assert(t[0] == v@[i as int]);
                assert(t.skip(1) =~= v@.skip(i + 1));
                assert(out@ + drop_dotdot(v@.skip(i + 1)) =~= (out@.drop_last() + seq![v@[i as int]])
                    + drop_dotdot(v@.skip(i + 1)));
            }
            i += 1;
        }
    }
    proof {
        assert(v@.skip(i as int).len() == 0);
        assert(out@ + drop_dotdot(v@.skip(i as int)) =~= out@);
    }
    out
}

} // verus!

verus! {

/// How many times a registry request is tried.
pub const MAX_RETRIES: u32 = 3;

/// What a registry fetch does next after some failed attempts.
#[derive(Debug, Clone, Copy, PartialEq, Eq, Structural)]
pub enum FetchStep {
    /// Try again after waiting this long.
    Attempt { delay_ms: u64 },
    /// Stop and report the last error.
    GiveUp,
}

/// The next step after `failures` failed attempts: the first attempt at
/// once, each retry after `100 * 2^failures` ms, and no more than
/// `MAX_RETRIES` attempts in all.
pub fn next_fetch_step(failures: u32) -> (s: FetchStep)
    ensures
        failures == 0 ==> s == (FetchStep::Attempt { delay_ms: 0 }),
        1 <= failures < MAX_RETRIES ==> s == (FetchStep::Attempt {
            delay_ms: (100 * vstd::arithmetic::power2::pow2(failures as nat)) as u64,
        }),
        failures >= MAX_RETRIES ==> s == FetchStep::GiveUp,
{
    proof {
        vstd::arithmetic::power2::lemma2_to64();
    }
    if failures == 0 {
        FetchStep::Attempt { delay_ms: 0 }
    } else if failures == 1 {
        FetchStep::Attempt { delay_ms: 200 }
    } else if failures == 2 {
        FetchStep::Attempt { delay_ms: 400 }
    } else {
        FetchStep::GiveUp
    }
}

/// What a metadata response means for the ETag cache.
#[derive(Debug)]
pub enum MetadataReply {
    /// 304: the cached copy is current; read it.
    UseCached,
    /// A success: store the body, and the ETag when the response has one.
    Store { etag: Option<String> },
    /// Any other status: the error to report.
    Fail(String),
}

/// The message a failed metadata request reports: a 404 names the package
/// (the last `/` part of the URL), anything else gives the status.
pub open spec fn metadata_failure(status: u16, url: Seq<char>, status_text: Seq<char>) -> Seq<char> {
    if status == 404 {
        "package '"@ + unscoped(url) + "' not found on registry"@
    } else {
        "registry returned HTTP "@ + status_text
    }
}

/// What a response to a metadata request (sent with `If-None-Match` when an
/// ETag is cached) means: 304 reads the cache; a 2xx stores the body and
/// the response's ETag (`etag`, when it has a readable one); a 404 says the
/// package is not on the registry; anything else reports the status line
/// (`status_text`, as the HTTP client shows it).
pub fn metadata_reply(status: u16, etag: Option<&str>, url: &str, status_text: &str) -> (r: MetadataReply)
    ensures
        status == 304 ==> r is UseCached,
        200 <= status <= 299 ==> (r matches MetadataReply::Store { etag: e } && opt_view(e)
            == crate::pm::commands::opt_view(etag)),
        status != 304 && !(200 <= status <= 299) ==> (r matches MetadataReply::Fail(m) && m@ == metadata_failure(
            status,
            url@,
            status_text@,
        )),
{
    if status == 304 {
        MetadataReply::UseCached
    } else if 200 <= status && status <= 299 {
        MetadataReply::Store {
            etag: match etag {
                Some(e) => Some(owned(e)),
                None => None,
            },
        }
    } else if status == 404 {
        let mut m = owned("package '");
        let name = unscoped_name(url);
        push_str(&mut m, name.as_str());
        push_str(&mut m, "' not found on registry");
        MetadataReply::Fail(m)
    } else {
        let mut m = owned("registry returned HTTP ");
        push_str(&mut m, status_text);
        MetadataReply::Fail(m)
    }
}

/// The error of a bulk advisory request answered with a status other than
/// success.
pub fn advisory_http_error(status_text: &str) -> (r: String)
    ensures
        r@ == "advisory API returned HTTP "@ + status_text@,
{
    let mut m = owned("advisory API returned HTTP ");
    push_str(&mut m, status_text);
    m
}

} // verus!
