//! `vertz pack`: what a packed tarball holds, and which files and scripts
//! are never or always part of it.

use vstd::prelude::*;
use base64::Engine;
use crate::json_value::{copy_json, jv, jv_members, lemma_members_pushed, lemma_members_step, JsonValue, JV};
use crate::pm::tarball::{base64, sha512_digest, sha512_of};
use crate::text::{chars_sub, lines, owned, push_char, push_str, replace_char, replace_char_str, str_chars, str_eq, str_lines, str_starts_with, str_trim, trim};

verus! {

/// One file in the tarball.
pub struct PackedFile {
    pub path: String,
    pub size: u64,
}

/// The result of packing a package.
pub struct PackResult {
    /// The gzipped tarball bytes
    pub tarball: Vec<u8>,
    /// Files included in the tarball
    pub files: Vec<PackedFile>,
    /// Compressed tarball size in bytes
    pub packed_size: u64,
    /// Total uncompressed file sizes
    pub unpacked_size: u64,
    /// Subresource integrity hash (sha512-<base64>)
    pub integrity: String,
    /// SHA-1 hex digest (for npm shasum field)
    pub shasum: String,
}

/// Names that are never packed.
pub open spec fn always_excluded(name: Seq<char>) -> bool {
    name == ".git"@ || name == "node_modules"@ || name == ".npmrc"@ || name == ".gitignore"@ || name
        == ".npmignore"@ || name == ".DS_Store"@
}

/// Scripts that stay in the published package.json: the install lifecycle.
pub open spec fn install_script(name: Seq<char>) -> bool {
    name == "preinstall"@ || name == "install"@ || name == "postinstall"@ || name == "preuninstall"@
        || name == "uninstall"@
}

/// A path with `\` separators written as `/`.
pub fn normalize_path_separators(path: &str) -> (r: String)
    ensures
        r@ == replace_char(path@, '\\', "/"@),
{
    replace_char_str(path, '\\', "/")
}

/// Whether a directory or file name is never packed.
pub fn is_always_excluded(name: &str) -> (b: bool)
    ensures
        b == always_excluded(name@),
{
    str_eq(name, ".git") || str_eq(name, "node_modules") || str_eq(name, ".npmrc") || str_eq(name, ".gitignore")
        || str_eq(name, ".npmignore") || str_eq(name, ".DS_Store")
}

/// Whether a script is kept in the published package.json.
pub fn is_install_script(name: &str) -> (b: bool)
    ensures
        b == install_script(name@),
{
    str_eq(name, "preinstall") || str_eq(name, "install") || str_eq(name, "postinstall") || str_eq(
        name,
        "preuninstall",
    ) || str_eq(name, "uninstall")
}


// ---------------------------------------------------------------------------
// File patterns
// ---------------------------------------------------------------------------

/// The text holds no backslash. Only on such texts does `glob` answer the
/// same on every platform: on Windows a backslash is a path separator, both
/// in a pattern (before `**`) and in the path matched.
pub open spec fn no_backslash(s: Seq<char>) -> bool {
    forall|i: int| 0 <= i < s.len() ==> s[i] != '\\'
}

/// Whether a `glob` pattern matches a path (default match options), or
/// `None` where the pattern does not parse, for a pattern and a path without
/// backslashes, where the platform does not change the answer.
pub uninterp spec fn glob_match(pattern: Seq<char>, path: Seq<char>) -> Option<bool>;

/// `glob::Pattern::new(pattern)` and then `Pattern::matches(path)`: whether
/// the pattern matches, `None` where the pattern is invalid. Where neither
/// text holds a backslash the answer is named, as a function of the two
/// texts; with a backslash, `glob` answers by the platform's separators and
/// nothing is stated.
#[verifier::external_body]
fn glob_matches(pattern: &str, path: &str) -> (r: Option<bool>)
    ensures
        no_backslash(pattern@) && no_backslash(path@) ==> r == glob_match(pattern@, path@),
{
    match glob::Pattern::new(pattern) {
        Ok(p) => Some(p.matches(path)),
        Err(_) => None,
    }
}

proof fn lemma_trim_no_backslash(s: Seq<char>)
    requires
        no_backslash(s),
    ensures
        no_backslash(trim_end_slashes(s)),
        no_backslash(trim_end_slashes(s) + "/**"@),
    decreases s.len(),
{
    if s.len() > 0 && s.last() == '/' {
        lemma_trim_no_backslash(s.drop_last());
    }
    reveal_strlit("/**");
    let t = trim_end_slashes(s);
    assert forall|i: int| 0 <= i < (t + "/**"@).len() implies (t + "/**"@)[i] != '\\' by {
        if i < t.len() {
            assert((t + "/**"@)[i] == t[i]);
        }
    }
}

/// The text without its trailing `/`s.
pub open spec fn trim_end_slashes(s: Seq<char>) -> Seq<char>
    decreases s.len(),
{
    if s.len() > 0 && s.last() == '/' {
        trim_end_slashes(s.drop_last())
    } else {
        s
    }
}

/// A pattern hits a relative path when, without its trailing slashes, it is
/// the path, a directory above it, a glob matching it, or a directory glob
/// (`<pattern>/**`) matching it.
pub open spec fn pattern_hit(rel: Seq<char>, pattern: Seq<char>) -> bool {
    let pat = trim_end_slashes(pattern);
    ||| rel == pat
    ||| (pat + "/"@).is_prefix_of(rel)
    ||| glob_match(pat, rel) == Some(true)
    ||| glob_match(pat + "/**"@, rel) == Some(true)
}

pub(crate) fn trim_end_slashes_exec(s: &str) -> (r: String)
    ensures
        r@ == trim_end_slashes(s@),
{
    let v = str_chars(s);
    let mut n: usize = v.len();
    proof {
        assert(v@.take(n as int) =~= v@);
    }
    while n > 0 && v[n - 1] == '/'
        invariant
            n <= v.len(),
            trim_end_slashes(v@.take(n as int)) == trim_end_slashes(s@),
            v@ == s@,
        decreases n,
    {
        assert(v@.take(n - 1) =~= v@.take(n as int).drop_last());
        n -= 1;
    }
    let r = chars_sub(&v, 0, n);
    assert(r@ =~= v@.take(n as int));
    r
}

/// Whether a pattern hits the relative path (on backslash-free texts, the
/// answer `pattern_hit` gives).
fn hits(rel: &str, pattern: &str) -> (b: bool)
    ensures
        no_backslash(rel@) && no_backslash(pattern@) ==> b == pattern_hit(rel@, pattern@),
        rel@ == trim_end_slashes(pattern@) || (trim_end_slashes(pattern@) + "/"@).is_prefix_of(rel@) ==> b,
{
    proof {
        if no_backslash(pattern@) {
            lemma_trim_no_backslash(pattern@);
        }
    }
    let pat = trim_end_slashes_exec(pattern);
    if str_eq(rel, pat.as_str()) {
        return true;
    }
    let mut dir = pat.clone();
    push_str(&mut dir, "/");
    if str_starts_with(rel, dir.as_str()) {
        return true;
    }
    if glob_matches(pat.as_str(), rel) == Some(true) {
        return true;
    }
    let mut deep = pat.clone();
    push_str(&mut deep, "/**");
    glob_matches(deep.as_str(), rel) == Some(true)
}

/// Whether some pattern hits the relative path: exactly `pattern_hit` for
/// some pattern where no text holds a backslash; a pattern that is the path
/// or a directory above it hits on every platform.
pub fn matches_any_pattern(rel_path: &str, patterns: &[String]) -> (b: bool)
    ensures
        no_backslash(rel_path@) && (forall|i: int| 0 <= i < patterns@.len() ==> no_backslash(#[trigger] patterns@[i]@))
            ==> (b == exists|i: int| 0 <= i < patterns@.len() && #[trigger] pattern_hit(rel_path@, patterns@[i]@)),
        (exists|i: int|
            0 <= i < patterns@.len() && (rel_path@ == trim_end_slashes(#[trigger] patterns@[i]@) || (trim_end_slashes(
                patterns@[i]@,
            ) + "/"@).is_prefix_of(rel_path@))) ==> b,
{
    let ghost all_plain = no_backslash(rel_path@) && (forall|i: int|
        0 <= i < patterns@.len() ==> no_backslash(#[trigger] patterns@[i]@));
    let mut i: usize = 0;
    while i < patterns.len()
        invariant
            i <= patterns@.len(),
            all_plain == (no_backslash(rel_path@) && (forall|i: int|
                0 <= i < patterns@.len() ==> no_backslash(#[trigger] patterns@[i]@))),
            all_plain ==> forall|j: int| 0 <= j < i ==> !#[trigger] pattern_hit(rel_path@, patterns@[j]@),
            forall|j: int|
                0 <= j < i ==> !(rel_path@ == trim_end_slashes(#[trigger] patterns@[j]@) || (trim_end_slashes(
                    patterns@[j]@,
                ) + "/"@).is_prefix_of(rel_path@)),
        decreases patterns@.len() - i,
    {
        if hits(rel_path, patterns[i].as_str()) {
            return true;
        }
        i += 1;
    }
    false
}

/// The patterns of an ignore file: its lines trimmed, without blank lines
/// and `#` comments.
pub open spec fn ignore_patterns_spec(ls: Seq<Seq<char>>) -> Seq<Seq<char>>
    decreases ls.len(),
{
    if ls.len() == 0 {
        seq![]
    } else {
        let t = trim(ls.last());
        if t.len() == 0 || t[0] == '#' {
            ignore_patterns_spec(ls.drop_last())
        } else {
            ignore_patterns_spec(ls.drop_last()).push(t)
        }
    }
}

/// The patterns of an ignore file's text (`.npmignore` or `.gitignore`).
pub fn ignore_patterns(content: &str) -> (r: Vec<String>)
    ensures
        r@.map_values(|s: String| s@) == ignore_patterns_spec(lines(content@)),
{
    let ls = str_lines(content);
    let ghost lv = ls@.map_values(|s: String| s@);
    let mut r: Vec<String> = Vec::new();
    let mut i: usize = 0;
    proof {
        assert(lv.take(0) =~= Seq::<Seq<char>>::empty());
        assert(r@.map_values(|s: String| s@) =~= Seq::<Seq<char>>::empty());
    }
    while i < ls.len()
        invariant
            i <= ls.len(),
            lv == ls@.map_values(|s: String| s@),
            lv == lines(content@),
            r@.map_values(|s: String| s@) == ignore_patterns_spec(lv.take(i as int)),
        decreases ls.len() - i,
    {
        proof {
            assert(lv.take(i + 1).drop_last() =~= lv.take(i as int));
            assert(lv.take(i + 1).last() == ls@[i as int]@);
        }
        let t = str_trim(ls[i].as_str());
        let tv = str_chars(t.as_str());
        if tv.len() > 0 && tv[0] != '#' {
            let ghost rb = r@.map_values(|s: String| s@);
            r.push(t);
            assert(r@.map_values(|s: String| s@) =~= rb.push(tv@));
        }
        i += 1;
    }
    proof {
        assert(lv.take(ls.len() as int) =~= lv);
    }
    r
}

/// What `str::to_lowercase` gives for a text (Unicode lowercase mapping);
/// a function of the text alone.
pub uninterp spec fn lowercase_of(s: Seq<char>) -> Seq<char>;

/// `str::to_lowercase`: the text in lowercase. Its result is named, as a
/// function of the text; nothing more is stated.
#[verifier::external_body]
fn to_lowercase(s: &str) -> (r: String)
    ensures
        r@ == lowercase_of(s@),
{
    s.to_lowercase()
}

/// Files always packed: whose lowercase name starts with `readme`,
/// `license`, `licence` or `changelog`.
pub open spec fn always_included(name: Seq<char>) -> bool {
    let l = lowercase_of(name);
    "readme"@.is_prefix_of(l) || "license"@.is_prefix_of(l) || "licence"@.is_prefix_of(l) || "changelog"@.is_prefix_of(l)
}

/// Whether a top-level file of this name is always packed.
pub fn is_always_included(name: &str) -> (b: bool)
    ensures
        b == always_included(name@),
{
    let l = to_lowercase(name);
    str_starts_with(l.as_str(), "readme") || str_starts_with(l.as_str(), "license") || str_starts_with(
        l.as_str(),
        "licence",
    ) || str_starts_with(l.as_str(), "changelog")
}

/// Whether an always-packed top-level file must still be added: it is
/// always packed and no packed file has its name as path.
pub fn needs_always_included(files: &Vec<PackedFile>, name: &str) -> (b: bool)
    ensures
        b == (always_included(name@) && forall|i: int| 0 <= i < files@.len() ==> files@[i].path@ != name@),
{
    if !is_always_included(name) {
        return false;
    }
    let mut i: usize = 0;
    while i < files.len()
        invariant
            i <= files.len(),
            forall|j: int| 0 <= j < i ==> files@[j].path@ != name@,
        decreases files.len() - i,
    {
        if str_eq(files[i].path.as_str(), name) {
            return false;
        }
        i += 1;
    }
    true
}

// ---------------------------------------------------------------------------
// The pack result
// ---------------------------------------------------------------------------

/// The 20-byte SHA-1 digest of the bytes (FIPS 180-4); a function of the
/// bytes alone.
pub uninterp spec fn sha1_of(bytes: Seq<u8>) -> Seq<u8>;

/// `ring::digest::digest(&SHA1_FOR_LEGACY_USE_ONLY, bytes)`: the SHA-1
/// digest. Its bytes are named, as a function of the input; nothing more is
/// stated.
#[verifier::external_body]
fn sha1_digest(bytes: &[u8]) -> (d: Vec<u8>)
    ensures
        d@ == sha1_of(bytes@),
{
    ring::digest::digest(&ring::digest::SHA1_FOR_LEGACY_USE_ONLY, bytes).as_ref().to_vec()
}

/// `base64::engine::general_purpose::STANDARD.encode`: standard base64 with
/// `=` padding (RFC 4648, section 4).
#[verifier::external_body]
fn base64_standard(bytes: &[u8]) -> (r: String)
    ensures
        r@ == base64(bytes@),
{
    base64::engine::general_purpose::STANDARD.encode(bytes)
}

/// A lowercase hex digit.
pub open spec fn hex_digit(v: nat) -> char {
    if v < 10 {
        ((v + 48) as u32) as char
    } else {
        ((v + 87) as u32) as char
    }
}

/// The bytes in lowercase hex, two digits each.
pub open spec fn hex(b: Seq<u8>) -> Seq<char>
    decreases b.len(),
{
    if b.len() == 0 {
        seq![]
    } else {
        hex(b.drop_last()) + seq![hex_digit(b.last() as nat / 16), hex_digit(b.last() as nat % 16)]
    }
}

fn hex_digit_exec(v: u8) -> (c: char)
    requires
        v < 16,
    ensures
        c == hex_digit(v as nat),
{
    if v < 10 {
        (v + 48) as char
    } else {
        (v + 87) as char
    }
}

/// The bytes in lowercase hex.
pub fn hex_lower(bytes: &[u8]) -> (r: String)
    ensures
        r@ == hex(bytes@),
{
    let mut r = String::new();
    let mut i: usize = 0;
    while i < bytes.len()
        invariant
            i <= bytes.len(),
            r@ == hex(bytes@.take(i as int)),
        decreases bytes.len() - i,
    {
        assert(bytes@.take(i + 1).drop_last() =~= bytes@.take(i as int));
        push_char(&mut r, hex_digit_exec(bytes[i] / 16));
        push_char(&mut r, hex_digit_exec(bytes[i] % 16));
        i += 1;
    }
    assert(bytes@.take(bytes.len() as int) =~= bytes@);
    r
}

/// The sum of the file sizes.
pub open spec fn total_size(files: Seq<PackedFile>) -> nat
    decreases files.len(),
{
    if files.len() == 0 {
        0
    } else {
        total_size(files.drop_last()) + files.last().size as nat
    }
}

/// The result of packing: the tarball with its files, its size, the files'
/// total size, its `sha512-<base64>` integrity and its SHA-1 hex shasum.
pub fn pack_result(tarball: Vec<u8>, files: Vec<PackedFile>) -> (r: PackResult)
    requires
        total_size(files@) <= u64::MAX,
    ensures
        r.tarball@ == tarball@,
        r.files@ == files@,
        r.packed_size == tarball@.len(),
        r.unpacked_size == total_size(files@),
        r.integrity@ == "sha512-"@ + base64(sha512_of(tarball@)),
        r.shasum@ == hex(sha1_of(tarball@)),
{
    let mut unpacked: u64 = 0;
    let mut i: usize = 0;
    while i < files.len()
        invariant
            i <= files.len(),
            total_size(files@) <= u64::MAX,
            unpacked == total_size(files@.take(i as int)),
        decreases files.len() - i,
    {
        assert(files@.take(i + 1).drop_last() =~= files@.take(i as int));
        proof {
            lemma_total_size_prefix(files@, i + 1);
        }
        unpacked = unpacked + files[i].size;
        i += 1;
    }
    assert(files@.take(files.len() as int) =~= files@);
    let digest = sha512_digest(tarball.as_slice());
    let mut integrity = owned("sha512-");
    let b64 = base64_standard(digest.as_slice());
    push_str(&mut integrity, b64.as_str());
    let sha1 = sha1_digest(tarball.as_slice());
    let shasum = hex_lower(sha1.as_slice());
    let packed_size = tarball.len() as u64;
    PackResult { tarball, files, packed_size, unpacked_size: unpacked, integrity, shasum }
}

proof fn lemma_total_size_prefix(files: Seq<PackedFile>, n: int)
    requires
        0 <= n <= files.len(),
    ensures
        total_size(files.take(n)) <= total_size(files),
    decreases files.len() - n,
{
    if n < files.len() {
        lemma_total_size_prefix(files, n + 1);
        assert(files.take(n + 1).drop_last() =~= files.take(n));
    } else {
        assert(files.take(n) =~= files);
    }
}

} // verus!

verus! {

/// The members that are install scripts, in their order.
pub open spec fn install_only(ms: Seq<(Seq<char>, JV)>) -> Seq<(Seq<char>, JV)>
    decreases ms.len(),
{
    if ms.len() == 0 {
        Seq::empty()
    } else {
        let rest = install_only(ms.drop_last());
        if install_script(ms.last().0) {
            rest.push(ms.last())
        } else {
            rest
        }
    }
}

/// The top-level members of a manifest as published: no `devDependencies`,
/// no `files`, and an object under `scripts` cut down to its install scripts
/// (dropped when none is left).
pub open spec fn norm_members(ms: Seq<(Seq<char>, JV)>) -> Seq<(Seq<char>, JV)>
    decreases ms.len(),
{
    if ms.len() == 0 {
        Seq::empty()
    } else {
        let rest = norm_members(ms.drop_last());
        let k = ms.last().0;
        let v = ms.last().1;
        if k == "devDependencies"@ || k == "files"@ {
            rest
        } else if k == "scripts"@ && v is Object {
            let kept = install_only(v->Object_0);
            if kept.len() == 0 {
                rest
            } else {
                rest.push((k, JV::Object(kept)))
            }
        } else {
            rest.push((k, v))
        }
    }
}

/// A manifest as published; anything but an object stays as it is.
pub open spec fn normalized(j: JV) -> JV {
    match j {
        JV::Object(ms) => JV::Object(norm_members(ms)),
        _ => j,
    }
}

/// Keeps the members that are install scripts.
fn keep_install_scripts(ms: Vec<(String, JsonValue)>) -> (r: Vec<(String, JsonValue)>)
    ensures
        jv_members(r@, r@.len()) == install_only(jv_members(ms@, ms@.len())),
{
    let ghost orig = ms@;
    let mut rest = ms;
    let mut out: Vec<(String, JsonValue)> = Vec::new();
    let ghost mut i: int = 0;
    assert(orig.skip(0) =~= orig);
    while rest.len() > 0
        invariant
            0 <= i <= orig.len(),
            rest@ == orig.skip(i as int),
            jv_members(out@, out@.len()) == install_only(jv_members(orig, i as nat)),
        decreases rest.len(),
    {
        let m = rest.remove(0);
        proof {
            assert(m == orig[i as int]);
            assert(rest@ =~= orig.skip(i + 1));
            lemma_members_step(orig, i as nat);
        }
        if is_install_script(m.0.as_str()) {
            let ghost before = out@;
            out.push(m);
            proof {
                lemma_members_pushed(before, m);
            }
        }
        proof {
            i = i + 1;
        }
    }
    proof {
        assert(orig.skip(i as int).len() == 0);
    }
    out
}

/// Normalize package.json for inclusion in publish document.
/// Removes devDependencies and non-install scripts (matching npm behavior):
/// of an object, `devDependencies` and `files` go, and an object under
/// `scripts` keeps only `preinstall`, `install`, `postinstall`,
/// `preuninstall` and `uninstall` (and goes when none of them is there).
pub fn normalize_package_json(raw: &JsonValue) -> (r: JsonValue)
    ensures
        jv(r) == normalized(jv(*raw)),
{
    let copy = copy_json(raw);
    match copy {
        JsonValue::Object(ms) => {
            let ghost orig = ms@;
            let mut rest = ms;
            let mut out: Vec<(String, JsonValue)> = Vec::new();
            let ghost mut i: int = 0;
            assert(orig.skip(0) =~= orig);
            while rest.len() > 0
                invariant
                    0 <= i <= orig.len(),
                    rest@ == orig.skip(i as int),
                    jv_members(out@, out@.len()) == norm_members(jv_members(orig, i as nat)),
                decreases rest.len(),
            {
                let m = rest.remove(0);
                proof {
                    assert(m == orig[i as int]);
                    assert(rest@ =~= orig.skip(i + 1));
                    lemma_members_step(orig, i as nat);
                }
                let (k, v) = m;
                let ghost before = out@;
                if str_eq(k.as_str(), "devDependencies") || str_eq(k.as_str(), "files") {
                } else if str_eq(k.as_str(), "scripts") {
                    match v {
                        JsonValue::Object(sm) => {
                            let kept = keep_install_scripts(sm);
                            if kept.len() > 0 {
                                let nm = (k, JsonValue::Object(kept));
                                out.push(nm);
                                proof {
                                    lemma_members_pushed(before, nm);
                                }
                            }
                        },
                        other => {
                            let nm = (k, other);
                            out.push(nm);
                            proof {
                                lemma_members_pushed(before, nm);
                            }
                        },
                    }
                } else {
                    let nm = (k, v);
                    out.push(nm);
                    proof {
                        lemma_members_pushed(before, nm);
                    }
                }
                proof {
            i = i + 1;
        }
            }
            proof {
                assert(orig.skip(i as int).len() == 0);
            }
            JsonValue::Object(out)
        },
        other => other,
    }
}

} // verus!

verus! {

/// A member that normalizing keeps as it is: neither `devDependencies`
/// nor `files`, nor an object under `scripts`.
pub open spec fn kept_as_is(m: (Seq<char>, JV)) -> bool {
    m.0 != "devDependencies"@ && m.0 != "files"@ && !(m.0 == "scripts"@ && m.1 is Object)
}

/// The scripts a published manifest keeps are exactly its install
/// scripts: each kept one is an install script from the original object,
/// and each install script of the original is kept.
pub proof fn law_install_scripts_kept(ms: Seq<(Seq<char>, JV)>)
    ensures
        forall|j: int| 0 <= j < install_only(ms).len() ==> install_script((#[trigger] install_only(ms)[j]).0),
        forall|j: int| 0 <= j < install_only(ms).len() ==> ms.contains(#[trigger] install_only(ms)[j]),
        forall|i: int| 0 <= i < ms.len() && install_script((#[trigger] ms[i]).0) ==> install_only(ms).contains(ms[i]),
    decreases ms.len(),
{
    if ms.len() > 0 {
        let p = ms.drop_last();
        law_install_scripts_kept(p);
        assert forall|j: int| 0 <= j < install_only(ms).len() implies ms.contains(#[trigger] install_only(ms)[j]) by {
            if j < install_only(p).len() {
                let x = install_only(p)[j];
                assert(p.contains(x));
                let k = choose|k: int| 0 <= k < p.len() && p[k] == x;
                assert(ms[k] == x);
            } else {
                assert(ms[ms.len() - 1] == ms.last());
            }
        }
        assert forall|i: int| 0 <= i < ms.len() && install_script((#[trigger] ms[i]).0) implies install_only(ms).contains(ms[i]) by {
            if i < p.len() {
                assert(p[i] == ms[i]);
                let k = choose|k: int| 0 <= k < install_only(p).len() && install_only(p)[k] == ms[i];
                assert(install_only(ms)[k] == ms[i]);
            } else {
                assert(install_only(ms).last() == ms[i]);
                assert(install_only(ms)[install_only(ms).len() - 1] == ms[i]);
            }
        }
    }
}

/// What normalizing a manifest object keeps: no `devDependencies` or
/// `files` member is left; a `scripts` object is cut down to its install
/// scripts (`preinstall`, `install`, `postinstall`, `preuninstall`,
/// `uninstall`) and left only when one remains; every other member is kept
/// unchanged, and nothing else is added.
pub proof fn law_normalize_members(ms: Seq<(Seq<char>, JV)>)
    ensures
        forall|j: int|
            0 <= j < norm_members(ms).len() ==> (#[trigger] norm_members(ms)[j]).0 != "devDependencies"@
                && norm_members(ms)[j].0 != "files"@,
        forall|j: int|
            0 <= j < norm_members(ms).len() && kept_as_is(#[trigger] norm_members(ms)[j]) ==> ms.contains(
                norm_members(ms)[j],
            ),
        forall|j: int|
            0 <= j < norm_members(ms).len() && !kept_as_is(#[trigger] norm_members(ms)[j]) ==> exists|i: int|
                0 <= i < ms.len() && (#[trigger] ms[i]).0 == "scripts"@ && ms[i].1 is Object && norm_members(ms)[j]
                    == ("scripts"@, JV::Object(install_only(ms[i].1->Object_0))) && install_only(
                    ms[i].1->Object_0,
                ).len() > 0,
        forall|i: int| 0 <= i < ms.len() && kept_as_is(#[trigger] ms[i]) ==> norm_members(ms).contains(ms[i]),
    decreases ms.len(),
{
    if ms.len() > 0 {
        let p = ms.drop_last();
        law_normalize_members(p);
        let out = norm_members(ms);
        let po = norm_members(p);
        let m = ms.last();
        assert forall|j: int| 0 <= j < out.len() && kept_as_is(#[trigger] out[j]) implies ms.contains(out[j]) by {
            if j < po.len() {
                assert(out[j] == po[j]);
                let k = choose|k: int| 0 <= k < p.len() && p[k] == po[j];
                assert(ms[k] == po[j]);
            } else {
                assert(ms[ms.len() - 1] == m);
            }
        }
        assert forall|j: int| 0 <= j < out.len() && !kept_as_is(#[trigger] out[j]) implies exists|i: int|
            0 <= i < ms.len() && (#[trigger] ms[i]).0 == "scripts"@ && ms[i].1 is Object && out[j] == (
                "scripts"@,
                JV::Object(install_only(ms[i].1->Object_0)),
            ) && install_only(ms[i].1->Object_0).len() > 0 by {
            if j < po.len() {
                assert(out[j] == po[j]);
                let i = choose|i: int|
                    0 <= i < p.len() && (#[trigger] p[i]).0 == "scripts"@ && p[i].1 is Object && po[j] == (
                        "scripts"@,
                        JV::Object(install_only(p[i].1->Object_0)),
                    ) && install_only(p[i].1->Object_0).len() > 0;
                assert(ms[i] == p[i]);
            } else {
                assert(ms[ms.len() - 1] == m);
            }
        }
        assert forall|i: int| 0 <= i < ms.len() && kept_as_is(#[trigger] ms[i]) implies out.contains(ms[i]) by {
            if i < p.len() {
                assert(p[i] == ms[i]);
                let k = choose|k: int| 0 <= k < po.len() && po[k] == ms[i];
                assert(out[k] == ms[i]);
            } else {
                assert(out[out.len() - 1] == m);
            }
        }
    }
}

} // verus!
