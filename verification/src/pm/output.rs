//! Output of package manager events: NDJSON lines for machine consumers
//! and a terse adapter for the dev server.

use vstd::prelude::*;
use crate::json::{jfield, jobj, json_quote, JsonObj};
use crate::text::{contains_sub, dec, owned, push_str, str_contains};

verus! {

/// Output handler for PM operations. Each event yields the line to print,
/// if the handler prints one.
pub trait PmOutput {
    fn resolve_started(&self) -> Option<String>;

    fn resolve_progress(&self, _resolved: usize) -> Option<String>;

    fn resolve_complete(&self, count: usize) -> Option<String>;

    fn download_started(&self, _total: usize) -> Option<String>;

    fn download_tick(&self) -> Option<String>;

    fn download_complete(&self, count: usize) -> Option<String>;

    fn link_started(&self) -> Option<String>;

    fn link_complete(&self, packages: usize, files: usize, cached: usize) -> Option<String>;

    fn bin_stubs_created(&self, _count: usize) -> Option<String>;

    fn package_added(&self, name: &str, version: &str, range: &str) -> Option<String>;

    fn package_removed(&self, name: &str) -> Option<String>;

    fn package_updated(&self, name: &str, from: &str, to: &str, range: &str) -> Option<String>;

    fn workspace_linked(&self, count: usize) -> Option<String>;

    fn script_started(&self, name: &str, script: &str) -> Option<String>;

    fn script_complete(&self, name: &str, duration_ms: u64) -> Option<String>;

    fn script_error(&self, name: &str, error: &str) -> Option<String>;

    fn github_resolve_started(&self, specifier: &str) -> Option<String>;

    fn github_resolve_complete(&self, name: &str, sha_abbrev: &str) -> Option<String>;

    fn info(&self, message: &str) -> Option<String>;

    fn warning(&self, message: &str) -> Option<String>;

    fn done(&self, elapsed_ms: u64) -> Option<String>;

    fn error(&self, code: &str, message: &str) -> Option<String>;

    fn publish_packing(&self, name: &str, version: &str) -> Option<String>;

    fn publish_packed(&self, name: &str, version: &str, files: usize, packed: u64, unpacked: u64) -> Option<String>;

    fn publish_uploading(&self, name: &str, version: &str, tag: &str) -> Option<String>;

    fn publish_complete(&self, name: &str, version: &str, tag: &str) -> Option<String>;

    fn publish_dry_run(&self, name: &str, version: &str, tag: &str, access: &str) -> Option<String>;

    fn publish_file_list(&self, path: &str, size: u64) -> Option<String>;

}

/// NDJSON output for machine consumption (--json flag): each event that is
/// reported becomes one compact JSON object, printed on stdout.
pub struct JsonOutput;

impl JsonOutput {
    pub fn new() -> Self {
        JsonOutput
    }
}

impl PmOutput for JsonOutput {
    fn resolve_started(&self) -> (r: Option<String>)
        ensures
            r is None,
    {
        None
    }

    fn resolve_progress(&self, _resolved: usize) -> (r: Option<String>)
        ensures
            r is None,
    {
        None
    }

    fn resolve_complete(&self, count: usize) -> (r: Option<String>)
        ensures
            r matches Some(line) && line@ == jobj(seq![jfield("event"@, json_quote("resolve"@)), jfield("packages"@, dec(count as nat))]),
    {
        let mut o = JsonObj::new();
        o.str_field("event", "resolve");
        o.num_field("packages", count as u64);
        let ghost fs = o.fields@;
        let line = o.finish();
        assert(fs =~= seq![jfield("event"@, json_quote("resolve"@)), jfield("packages"@, dec(count as nat))]);
        Some(line)
    }

    fn download_started(&self, _total: usize) -> (r: Option<String>)
        ensures
            r is None,
    {
        None
    }

    fn download_tick(&self) -> (r: Option<String>)
        ensures
            r is None,
    {
        None
    }

    fn download_complete(&self, count: usize) -> (r: Option<String>)
        ensures
            r matches Some(line) && line@ == jobj(seq![jfield("completed"@, dec(count as nat)), jfield("event"@, json_quote("download_progress"@)), jfield("total"@, dec(count as nat))]),
    {
        let mut o = JsonObj::new();
        o.num_field("completed", count as u64);
        o.str_field("event", "download_progress");
        o.num_field("total", count as u64);
        let ghost fs = o.fields@;
        let line = o.finish();
        assert(fs =~= seq![jfield("completed"@, dec(count as nat)), jfield("event"@, json_quote("download_progress"@)), jfield("total"@, dec(count as nat))]);
        Some(line)
    }

    fn link_started(&self) -> (r: Option<String>)
        ensures
            r is None,
    {
        None
    }

    fn link_complete(&self, packages: usize, files: usize, cached: usize) -> (r: Option<String>)
        ensures
            r matches Some(line) && line@ == jobj(seq![jfield("cached"@, dec(cached as nat)), jfield("event"@, json_quote("link"@)), jfield("files"@, dec(files as nat)), jfield("packages"@, dec(packages as nat))]),
    {
        let mut o = JsonObj::new();
        o.num_field("cached", cached as u64);
        o.str_field("event", "link");
        o.num_field("files", files as u64);
        o.num_field("packages", packages as u64);
        let ghost fs = o.fields@;
        let line = o.finish();
        assert(fs =~= seq![jfield("cached"@, dec(cached as nat)), jfield("event"@, json_quote("link"@)), jfield("files"@, dec(files as nat)), jfield("packages"@, dec(packages as nat))]);
        Some(line)
    }

    fn bin_stubs_created(&self, _count: usize) -> (r: Option<String>)
        ensures
            r is None,
    {
        None
    }

    fn package_added(&self, name: &str, version: &str, range: &str) -> (r: Option<String>)
        ensures
            r matches Some(line) && line@ == jobj(seq![jfield("event"@, json_quote("added"@)), jfield("name"@, json_quote(name@)), jfield("range"@, json_quote(range@)), jfield("version"@, json_quote(version@))]),
    {
        let mut o = JsonObj::new();
        o.str_field("event", "added");
        o.str_field("name", name);
        o.str_field("range", range);
        o.str_field("version", version);
        let ghost fs = o.fields@;
        let line = o.finish();
        assert(fs =~= seq![jfield("event"@, json_quote("added"@)), jfield("name"@, json_quote(name@)), jfield("range"@, json_quote(range@)), jfield("version"@, json_quote(version@))]);
        Some(line)
    }

    fn package_removed(&self, name: &str) -> (r: Option<String>)
        ensures
            r matches Some(line) && line@ == jobj(seq![jfield("event"@, json_quote("removed"@)), jfield("name"@, json_quote(name@))]),
    {
        let mut o = JsonObj::new();
        o.str_field("event", "removed");
        o.str_field("name", name);
        let ghost fs = o.fields@;
        let line = o.finish();
        assert(fs =~= seq![jfield("event"@, json_quote("removed"@)), jfield("name"@, json_quote(name@))]);
        Some(line)
    }

    fn package_updated(&self, name: &str, from: &str, to: &str, range: &str) -> (r: Option<String>)
        ensures
            r matches Some(line) && line@ == jobj(seq![jfield("event"@, json_quote("updated"@)), jfield("from"@, json_quote(from@)), jfield("name"@, json_quote(name@)), jfield("range"@, json_quote(range@)), jfield("to"@, json_quote(to@))]),
    {
        let mut o = JsonObj::new();
        o.str_field("event", "updated");
        o.str_field("from", from);
        o.str_field("name", name);
        o.str_field("range", range);
        o.str_field("to", to);
        let ghost fs = o.fields@;
        let line = o.finish();
        assert(fs =~= seq![jfield("event"@, json_quote("updated"@)), jfield("from"@, json_quote(from@)), jfield("name"@, json_quote(name@)), jfield("range"@, json_quote(range@)), jfield("to"@, json_quote(to@))]);
        Some(line)
    }

    fn workspace_linked(&self, count: usize) -> (r: Option<String>)
        ensures
            r matches Some(line) && line@ == jobj(seq![jfield("count"@, dec(count as nat)), jfield("event"@, json_quote("workspace_linked"@))]),
    {
        let mut o = JsonObj::new();
        o.num_field("count", count as u64);
        o.str_field("event", "workspace_linked");
        let ghost fs = o.fields@;
        let line = o.finish();
        assert(fs =~= seq![jfield("count"@, dec(count as nat)), jfield("event"@, json_quote("workspace_linked"@))]);
        Some(line)
    }

    fn script_started(&self, name: &str, script: &str) -> (r: Option<String>)
        ensures
            r matches Some(line) && line@ == jobj(seq![jfield("event"@, json_quote("script_started"@)), jfield("package"@, json_quote(name@)), jfield("script"@, json_quote(script@))]),
    {
        let mut o = JsonObj::new();
        o.str_field("event", "script_started");
        o.str_field("package", name);
        o.str_field("script", script);
        let ghost fs = o.fields@;
        let line = o.finish();
        assert(fs =~= seq![jfield("event"@, json_quote("script_started"@)), jfield("package"@, json_quote(name@)), jfield("script"@, json_quote(script@))]);
        Some(line)
    }

    fn script_complete(&self, name: &str, duration_ms: u64) -> (r: Option<String>)
        ensures
            r matches Some(line) && line@ == jobj(seq![jfield("duration_ms"@, dec(duration_ms as nat)), jfield("event"@, json_quote("script_complete"@)), jfield("package"@, json_quote(name@))]),
    {
        let mut o = JsonObj::new();
        o.num_field("duration_ms", duration_ms);
        o.str_field("event", "script_complete");
        o.str_field("package", name);
        let ghost fs = o.fields@;
        let line = o.finish();
        assert(fs =~= seq![jfield("duration_ms"@, dec(duration_ms as nat)), jfield("event"@, json_quote("script_complete"@)), jfield("package"@, json_quote(name@))]);
        Some(line)
    }

    fn script_error(&self, name: &str, error: &str) -> (r: Option<String>)
        ensures
            r matches Some(line) && line@ == jobj(seq![jfield("error"@, json_quote(error@)), jfield("event"@, json_quote("script_error"@)), jfield("package"@, json_quote(name@))]),
    {
        let mut o = JsonObj::new();
        o.str_field("error", error);
        o.str_field("event", "script_error");
        o.str_field("package", name);
        let ghost fs = o.fields@;
        let line = o.finish();
        assert(fs =~= seq![jfield("error"@, json_quote(error@)), jfield("event"@, json_quote("script_error"@)), jfield("package"@, json_quote(name@))]);
        Some(line)
    }

    fn github_resolve_started(&self, specifier: &str) -> (r: Option<String>)
        ensures
            r matches Some(line) && line@ == jobj(seq![jfield("event"@, json_quote("github_resolve_started"@)), jfield("specifier"@, json_quote(specifier@))]),
    {
        let mut o = JsonObj::new();
        o.str_field("event", "github_resolve_started");
        o.str_field("specifier", specifier);
        let ghost fs = o.fields@;
        let line = o.finish();
        assert(fs =~= seq![jfield("event"@, json_quote("github_resolve_started"@)), jfield("specifier"@, json_quote(specifier@))]);
        Some(line)
    }

    fn github_resolve_complete(&self, name: &str, sha_abbrev: &str) -> (r: Option<String>)
        ensures
            r matches Some(line) && line@ == jobj(seq![jfield("event"@, json_quote("github_resolve_complete"@)), jfield("name"@, json_quote(name@)), jfield("sha"@, json_quote(sha_abbrev@))]),
    {
        let mut o = JsonObj::new();
        o.str_field("event", "github_resolve_complete");
        o.str_field("name", name);
        o.str_field("sha", sha_abbrev);
        let ghost fs = o.fields@;
        let line = o.finish();
        assert(fs =~= seq![jfield("event"@, json_quote("github_resolve_complete"@)), jfield("name"@, json_quote(name@)), jfield("sha"@, json_quote(sha_abbrev@))]);
        Some(line)
    }

    fn info(&self, message: &str) -> (r: Option<String>)
        ensures
            r matches Some(line) && line@ == jobj(seq![jfield("event"@, json_quote("info"@)), jfield("message"@, json_quote(message@))]),
    {
        let mut o = JsonObj::new();
        o.str_field("event", "info");
        o.str_field("message", message);
        let ghost fs = o.fields@;
        let line = o.finish();
        assert(fs =~= seq![jfield("event"@, json_quote("info"@)), jfield("message"@, json_quote(message@))]);
        Some(line)
    }

    fn warning(&self, message: &str) -> (r: Option<String>)
        ensures
            r matches Some(line) && line@ == jobj(seq![jfield("event"@, json_quote("warning"@)), jfield("message"@, json_quote(message@))]),
    {
        let mut o = JsonObj::new();
        o.str_field("event", "warning");
        o.str_field("message", message);
        let ghost fs = o.fields@;
        let line = o.finish();
        assert(fs =~= seq![jfield("event"@, json_quote("warning"@)), jfield("message"@, json_quote(message@))]);
        Some(line)
    }

    fn done(&self, elapsed_ms: u64) -> (r: Option<String>)
        ensures
            r matches Some(line) && line@ == jobj(seq![jfield("elapsed_ms"@, dec(elapsed_ms as nat)), jfield("event"@, json_quote("done"@))]),
    {
        let mut o = JsonObj::new();
        o.num_field("elapsed_ms", elapsed_ms);
        o.str_field("event", "done");
        let ghost fs = o.fields@;
        let line = o.finish();
        assert(fs =~= seq![jfield("elapsed_ms"@, dec(elapsed_ms as nat)), jfield("event"@, json_quote("done"@))]);
        Some(line)
    }

    fn error(&self, code: &str, message: &str) -> (r: Option<String>)
        ensures
            r matches Some(line) && line@ == jobj(seq![jfield("code"@, json_quote(code@)), jfield("event"@, json_quote("error"@)), jfield("message"@, json_quote(message@))]),
    {
        let mut o = JsonObj::new();
        o.str_field("code", code);
        o.str_field("event", "error");
        o.str_field("message", message);
        let ghost fs = o.fields@;
        let line = o.finish();
        assert(fs =~= seq![jfield("code"@, json_quote(code@)), jfield("event"@, json_quote("error"@)), jfield("message"@, json_quote(message@))]);
        Some(line)
    }

    fn publish_packing(&self, name: &str, version: &str) -> (r: Option<String>)
        ensures
            r matches Some(line) && line@ == jobj(seq![jfield("event"@, json_quote("publish_packing"@)), jfield("name"@, json_quote(name@)), jfield("version"@, json_quote(version@))]),
    {
        let mut o = JsonObj::new();
        o.str_field("event", "publish_packing");
        o.str_field("name", name);
        o.str_field("version", version);
        let ghost fs = o.fields@;
        let line = o.finish();
        assert(fs =~= seq![jfield("event"@, json_quote("publish_packing"@)), jfield("name"@, json_quote(name@)), jfield("version"@, json_quote(version@))]);
        Some(line)
    }

    fn publish_packed(&self, name: &str, version: &str, files: usize, packed: u64, unpacked: u64) -> (r: Option<String>)
        ensures
            r matches Some(line) && line@ == jobj(seq![jfield("event"@, json_quote("publish_packed"@)), jfield("files"@, dec(files as nat)), jfield("name"@, json_quote(name@)), jfield("packed_size"@, dec(packed as nat)), jfield("unpacked_size"@, dec(unpacked as nat)), jfield("version"@, json_quote(version@))]),
    {
        let mut o = JsonObj::new();
        o.str_field("event", "publish_packed");
        o.num_field("files", files as u64);
        o.str_field("name", name);
        o.num_field("packed_size", packed);
        o.num_field("unpacked_size", unpacked);
        o.str_field("version", version);
        let ghost fs = o.fields@;
        let line = o.finish();
        assert(fs =~= seq![jfield("event"@, json_quote("publish_packed"@)), jfield("files"@, dec(files as nat)), jfield("name"@, json_quote(name@)), jfield("packed_size"@, dec(packed as nat)), jfield("unpacked_size"@, dec(unpacked as nat)), jfield("version"@, json_quote(version@))]);
        Some(line)
    }

    fn publish_uploading(&self, name: &str, version: &str, tag: &str) -> (r: Option<String>)
        ensures
            r matches Some(line) && line@ == jobj(seq![jfield("event"@, json_quote("publish_uploading"@)), jfield("name"@, json_quote(name@)), jfield("tag"@, json_quote(tag@)), jfield("version"@, json_quote(version@))]),
    {
        let mut o = JsonObj::new();
        o.str_field("event", "publish_uploading");
        o.str_field("name", name);
        o.str_field("tag", tag);
        o.str_field("version", version);
        let ghost fs = o.fields@;
        let line = o.finish();
        assert(fs =~= seq![jfield("event"@, json_quote("publish_uploading"@)), jfield("name"@, json_quote(name@)), jfield("tag"@, json_quote(tag@)), jfield("version"@, json_quote(version@))]);
        Some(line)
    }

    fn publish_complete(&self, name: &str, version: &str, tag: &str) -> (r: Option<String>)
        ensures
            r matches Some(line) && line@ == jobj(seq![jfield("event"@, json_quote("publish_complete"@)), jfield("name"@, json_quote(name@)), jfield("tag"@, json_quote(tag@)), jfield("version"@, json_quote(version@))]),
    {
        let mut o = JsonObj::new();
        o.str_field("event", "publish_complete");
        o.str_field("name", name);
        o.str_field("tag", tag);
        o.str_field("version", version);
        let ghost fs = o.fields@;
        let line = o.finish();
        assert(fs =~= seq![jfield("event"@, json_quote("publish_complete"@)), jfield("name"@, json_quote(name@)), jfield("tag"@, json_quote(tag@)), jfield("version"@, json_quote(version@))]);
        Some(line)
    }

    fn publish_dry_run(&self, name: &str, version: &str, tag: &str, access: &str) -> (r: Option<String>)
        ensures
            r matches Some(line) && line@ == jobj(seq![jfield("access"@, json_quote(access@)), jfield("event"@, json_quote("publish_dry_run"@)), jfield("name"@, json_quote(name@)), jfield("tag"@, json_quote(tag@)), jfield("version"@, json_quote(version@))]),
    {
        let mut o = JsonObj::new();
        o.str_field("access", access);
        o.str_field("event", "publish_dry_run");
        o.str_field("name", name);
        o.str_field("tag", tag);
        o.str_field("version", version);
        let ghost fs = o.fields@;
        let line = o.finish();
        assert(fs =~= seq![jfield("access"@, json_quote(access@)), jfield("event"@, json_quote("publish_dry_run"@)), jfield("name"@, json_quote(name@)), jfield("tag"@, json_quote(tag@)), jfield("version"@, json_quote(version@))]);
        Some(line)
    }

    fn publish_file_list(&self, path: &str, size: u64) -> (r: Option<String>)
        ensures
            r matches Some(line) && line@ == jobj(seq![jfield("event"@, json_quote("publish_file"@)), jfield("path"@, json_quote(path@)), jfield("size"@, dec(size as nat))]),
    {
        let mut o = JsonObj::new();
        o.str_field("event", "publish_file");
        o.str_field("path", path);
        o.num_field("size", size);
        let ghost fs = o.fields@;
        let line = o.finish();
        assert(fs =~= seq![jfield("event"@, json_quote("publish_file"@)), jfield("path"@, json_quote(path@)), jfield("size"@, dec(size as nat))]);
        Some(line)
    }

}

/// Lightweight output adapter for auto-install during dev: only
/// `package_added` and `error` produce a line (for stderr, `[PM]` prefix).
pub struct DevPmOutput;

impl PmOutput for DevPmOutput {
    fn resolve_started(&self) -> (r: Option<String>)
        ensures
            r is None,
    {
        None
    }

    fn resolve_progress(&self, _resolved: usize) -> (r: Option<String>)
        ensures
            r is None,
    {
        None
    }

    fn resolve_complete(&self, _count: usize) -> (r: Option<String>)
        ensures
            r is None,
    {
        None
    }

    fn download_started(&self, _total: usize) -> (r: Option<String>)
        ensures
            r is None,
    {
        None
    }

    fn download_tick(&self) -> (r: Option<String>)
        ensures
            r is None,
    {
        None
    }

    fn download_complete(&self, _count: usize) -> (r: Option<String>)
        ensures
            r is None,
    {
        None
    }

    fn link_started(&self) -> (r: Option<String>)
        ensures
            r is None,
    {
        None
    }

    fn link_complete(&self, _packages: usize, _files: usize, _cached: usize) -> (r: Option<String>)
        ensures
            r is None,
    {
        None
    }

    fn bin_stubs_created(&self, _count: usize) -> (r: Option<String>)
        ensures
            r is None,
    {
        None
    }

    fn package_added(&self, name: &str, version: &str, range: &str) -> (r: Option<String>)
        ensures
            r matches Some(line) && line@ == "[PM] + "@ + name@ + "@"@ + version@ + " ("@ + range@
                + " added to package.json)"@,
    {
        let mut s = owned("[PM] + ");
        push_str(&mut s, name);
        push_str(&mut s, "@");
        push_str(&mut s, version);
        push_str(&mut s, " (");
        push_str(&mut s, range);
        push_str(&mut s, " added to package.json)");
        Some(s)
    }

    fn package_removed(&self, _name: &str) -> (r: Option<String>)
        ensures
            r is None,
    {
        None
    }

    fn package_updated(&self, _name: &str, _from: &str, _to: &str, _range: &str) -> (r: Option<String>)
        ensures
            r is None,
    {
        None
    }

    fn workspace_linked(&self, _count: usize) -> (r: Option<String>)
        ensures
            r is None,
    {
        None
    }

    fn script_started(&self, _name: &str, _script: &str) -> (r: Option<String>)
        ensures
            r is None,
    {
        None
    }

    fn script_complete(&self, _name: &str, _duration_ms: u64) -> (r: Option<String>)
        ensures
            r is None,
    {
        None
    }

    fn script_error(&self, _name: &str, _error: &str) -> (r: Option<String>)
        ensures
            r is None,
    {
        None
    }

    fn github_resolve_started(&self, _specifier: &str) -> (r: Option<String>)
        ensures
            r is None,
    {
        None
    }

    fn github_resolve_complete(&self, _name: &str, _sha_abbrev: &str) -> (r: Option<String>)
        ensures
            r is None,
    {
        None
    }

    fn info(&self, _message: &str) -> (r: Option<String>)
        ensures
            r is None,
    {
        None
    }

    fn warning(&self, _message: &str) -> (r: Option<String>)
        ensures
            r is None,
    {
        None
    }

    fn done(&self, _elapsed_ms: u64) -> (r: Option<String>)
        ensures
            r is None,
    {
        None
    }

    fn error(&self, _code: &str, message: &str) -> (r: Option<String>)
        ensures
            r matches Some(line) && line@ == "[PM] Error: "@ + message@,
    {
        let mut s = owned("[PM] Error: ");
        push_str(&mut s, message);
        Some(s)
    }

    fn publish_packing(&self, _name: &str, _version: &str) -> (r: Option<String>)
        ensures
            r is None,
    {
        None
    }

    fn publish_packed(&self, _name: &str, _version: &str, _files: usize, _packed: u64, _unpacked: u64) -> (r: Option<String>)
        ensures
            r is None,
    {
        None
    }

    fn publish_uploading(&self, _name: &str, _version: &str, _tag: &str) -> (r: Option<String>)
        ensures
            r is None,
    {
        None
    }

    fn publish_complete(&self, _name: &str, _version: &str, _tag: &str) -> (r: Option<String>)
        ensures
            r is None,
    {
        None
    }

    fn publish_dry_run(&self, _name: &str, _version: &str, _tag: &str, _access: &str) -> (r: Option<String>)
        ensures
            r is None,
    {
        None
    }

    fn publish_file_list(&self, _path: &str, _size: u64) -> (r: Option<String>)
        ensures
            r is None,
    {
        None
    }

}

/// The error code inferred from an error message: the first of these
/// checks that matches, else `NETWORK_ERROR`.
pub open spec fn error_code_spec(msg: Seq<char>) -> Seq<char> {
    if (contains_sub(msg, "not found on registry"@) || contains_sub(msg, "not found in npm registry"@)) {
        "PACKAGE_NOT_FOUND"@
    } else if (contains_sub(msg, "no version of"@) || contains_sub(msg, "No version of"@)) {
        "VERSION_NOT_FOUND"@
    } else if (contains_sub(msg, "lockfile is out of date"@)) {
        "LOCKFILE_STALE"@
    } else if (contains_sub(msg, "not a direct dependency"@)) {
        "NOT_DIRECT_DEPENDENCY"@
    } else if (contains_sub(msg, "integrity"@) || contains_sub(msg, "Integrity"@)) {
        "INTEGRITY_FAILED"@
    } else if (contains_sub(msg, "rate limit"@)) {
        "GITHUB_RATE_LIMITED"@
    } else if (contains_sub(msg, "repository"@) && contains_sub(msg, "not found"@)) {
        "GITHUB_REPO_NOT_FOUND"@
    } else if (contains_sub(msg, "ref"@) && contains_sub(msg, "not found"@)) {
        "GITHUB_REF_NOT_FOUND"@
    } else if (contains_sub(msg, "access denied"@)) {
        "GITHUB_ACCESS_DENIED"@
    } else if (contains_sub(msg, "invalid GitHub specifier"@)) {
        "INVALID_GITHUB_SPECIFIER"@
    } else {
        "NETWORK_ERROR"@
    }
}

/// Infer an error code from an error message string
pub fn error_code_from_message(msg: &str) -> (r: &'static str)
    ensures
        r@ == error_code_spec(msg@),
{
    if str_contains(msg, "not found on registry") || str_contains(msg, "not found in npm registry") {
        "PACKAGE_NOT_FOUND"
    } else if str_contains(msg, "no version of") || str_contains(msg, "No version of") {
        "VERSION_NOT_FOUND"
    } else if str_contains(msg, "lockfile is out of date") {
        "LOCKFILE_STALE"
    } else if str_contains(msg, "not a direct dependency") {
        "NOT_DIRECT_DEPENDENCY"
    } else if str_contains(msg, "integrity") || str_contains(msg, "Integrity") {
        "INTEGRITY_FAILED"
    } else if str_contains(msg, "rate limit") {
        "GITHUB_RATE_LIMITED"
    } else if str_contains(msg, "repository") && str_contains(msg, "not found") {
        "GITHUB_REPO_NOT_FOUND"
    } else if str_contains(msg, "ref") && str_contains(msg, "not found") {
        "GITHUB_REF_NOT_FOUND"
    } else if str_contains(msg, "access denied") {
        "GITHUB_ACCESS_DENIED"
    } else if str_contains(msg, "invalid GitHub specifier") {
        "INVALID_GITHUB_SPECIFIER"
    } else {
        "NETWORK_ERROR"
    }
}

} // verus!
