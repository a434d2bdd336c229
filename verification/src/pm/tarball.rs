//! Package tarballs: integrity strings (`sha512-<base64>`), and the paths of
//! tarball entries.

use vstd::prelude::*;
use sha2::Digest;
use crate::pm::shell::on_windows;
use crate::text::{
    chars_sub, dec, find_char, first_char_index, join, join_strings, lemma_first_char_index, owned,
    push_char, push_dec, push_str, split_on, str_chars, str_eq,
};

verus! {

/// The base64 digit of a sextet (`v < 64`).
pub open spec fn b64_digit(v: nat) -> char {
    if v < 26 {
        ((v + 65) as u32) as char
    } else if v < 52 {
        ((v + 71) as u32) as char
    } else if v < 62 {
        ((v - 4) as u32) as char
    } else if v == 62 {
        '+'
    } else {
        '/'
    }
}

/// The four chars encoding up to three bytes: one byte gives two digits and
/// `==`, two bytes three digits and `=`.
pub open spec fn b64_group(b: Seq<u8>) -> Seq<char> {
    let b0 = b[0] as nat;
    let b1 = if b.len() > 1 { b[1] as nat } else { 0 };
    let b2 = if b.len() > 2 { b[2] as nat } else { 0 };
    seq![
        b64_digit(b0 / 4),
        b64_digit((b0 % 4) * 16 + b1 / 16),
        if b.len() > 1 { b64_digit((b1 % 16) * 4 + b2 / 64) } else { '=' },
        if b.len() > 2 { b64_digit(b2 % 64) } else { '=' },
    ]
}

/// Standard base64 (RFC 4648 alphabet, `=` padding) of the bytes.
pub open spec fn base64(b: Seq<u8>) -> Seq<char>
    decreases b.len(),
{
    if b.len() == 0 {
        seq![]
    } else if b.len() <= 3 {
        b64_group(b)
    } else {
        b64_group(b.take(3)) + base64(b.skip(3))
    }
}

fn b64_digit_exec(v: u8) -> (c: char)
    requires
        v < 64,
    ensures
        c == b64_digit(v as nat),
{
    if v < 26 {
        (v + 65) as char
    } else if v < 52 {
        (v + 71) as char
    } else if v < 62 {
        (v - 4) as char
    } else if v == 62 {
        '+'
    } else {
        '/'
    }
}

/// Base64-encode the bytes (standard alphabet, padded).
pub fn base64_encode(bytes: &[u8]) -> (r: String)
    ensures
        r@ == base64(bytes@),
{
    let mut result = String::new();
    let mut i: usize = 0;
    proof {
        assert(bytes@.skip(0) =~= bytes@);
        assert(result@ + base64(bytes@) =~= base64(bytes@));
    }
    while i < bytes.len()
        invariant
            i <= bytes.len(),
            result@ + base64(bytes@.skip(i as int)) == base64(bytes@),
        decreases bytes.len() - i,
    {
        let rest = bytes.len() - i;
        let b0 = bytes[i];
        let b1: u8 = if rest > 1 { bytes[i + 1] } else { 0 };
        let b2: u8 = if rest > 2 { bytes[i + 2] } else { 0 };
        let ghost tail = bytes@.skip(i as int);
        let ghost grp = if tail.len() <= 3 { tail } else { tail.take(3) };
        proof {
            assert(grp[0] == b0);
            assert(grp.len() > 1 ==> grp[1] == b1);
            assert(grp.len() > 2 ==> grp[2] == b2);
            assert(grp.len() == if rest < 3 { rest } else { 3 });
        }
        let ghost before = result@;
        push_char(&mut result, b64_digit_exec(b0 / 4));
        push_char(&mut result, b64_digit_exec((b0 % 4) * 16 + b1 / 16));
        if rest > 1 {
            push_char(&mut result, b64_digit_exec((b1 % 16) * 4 + b2 / 64));
        } else {
            push_char(&mut result, '=');
        }
        if rest > 2 {
            push_char(&mut result, b64_digit_exec(b2 % 64));
        } else {
            push_char(&mut result, '=');
        }
        proof {
            assert(result@ =~= before + b64_group(grp));
            if tail.len() <= 3 {
                assert(bytes@.skip(bytes.len() as int) =~= Seq::<u8>::empty());
            } else {
                assert(tail.skip(3) =~= bytes@.skip(i + 3));
            }
        }
        if rest > 3 {
            i = i + 3;
        } else {
            i = bytes.len();
        }
    }
    proof {
        assert(bytes@.skip(bytes.len() as int) =~= Seq::<u8>::empty());
        assert(result@ + Seq::<char>::empty() =~= result@);
    }
    result
}

/// The SHA-512 digest of the bytes (a function of the bytes alone).
pub uninterp spec fn sha512_of(bytes: Seq<u8>) -> Seq<u8>;

/// The SHA-256 digest of the bytes (a function of the bytes alone).
pub uninterp spec fn sha256_of(bytes: Seq<u8>) -> Seq<u8>;

/// `sha2::Sha512::digest`: the SHA-512 digest of the bytes. Its bytes are
/// named, as a function of the input, and its length (64) is stated.
#[verifier::external_body]
pub(crate) fn sha512_digest(bytes: &[u8]) -> (d: Vec<u8>)
    ensures
        d@ == sha512_of(bytes@),
        d@.len() == 64,
{
    sha2::Sha512::digest(bytes).to_vec()
}

/// `sha2::Sha256::digest`: the SHA-256 digest of the bytes. Its bytes are
/// named, as a function of the input, and its length (32) is stated.
#[verifier::external_body]
fn sha256_digest(bytes: &[u8]) -> (d: Vec<u8>)
    ensures
        d@ == sha256_of(bytes@),
        d@.len() == 32,
{
    sha2::Sha256::digest(bytes).to_vec()
}

/// How an integrity string checks against the bytes.
pub enum IntegrityCheck {
    /// No `-` separates the algorithm from the hash.
    Malformed,
    /// The algorithm is neither `sha512` nor `sha256`.
    Unsupported,
    /// The base64 digest under the algorithm, and whether it is the expected one.
    Checked(Seq<char>, bool),
}

/// The algorithm of an integrity string: what precedes the first `-`.
pub open spec fn integrity_algo(expected: Seq<char>) -> Seq<char> {
    expected.take(first_char_index(expected, '-'))
}

/// The expected base64 hash: what follows the first `-`.
pub open spec fn integrity_hash(expected: Seq<char>) -> Seq<char> {
    expected.skip(first_char_index(expected, '-') + 1)
}

/// The outcome of checking `expected` against the bytes.
pub open spec fn integrity_check(bytes: Seq<u8>, expected: Seq<char>) -> IntegrityCheck {
    if !expected.contains('-') {
        IntegrityCheck::Malformed
    } else {
        let algo = integrity_algo(expected);
        let hash = integrity_hash(expected);
        if algo == "sha512"@ {
            IntegrityCheck::Checked(base64(sha512_of(bytes)), base64(sha512_of(bytes)) == hash)
        } else if algo == "sha256"@ {
            IntegrityCheck::Checked(base64(sha256_of(bytes)), base64(sha256_of(bytes)) == hash)
        } else {
            IntegrityCheck::Unsupported
        }
    }
}

/// The error message of a failed check.
pub open spec fn integrity_error(bytes: Seq<u8>, expected: Seq<char>) -> Seq<char> {
    match integrity_check(bytes, expected) {
        IntegrityCheck::Malformed => "Invalid integrity format: "@ + expected,
        IntegrityCheck::Unsupported => "Unsupported integrity algorithm: "@ + integrity_algo(expected),
        IntegrityCheck::Checked(computed, _) => "Integrity check failed: expected "@ + integrity_algo(expected)
            + "-"@ + integrity_hash(expected) + ", got "@ + integrity_algo(expected) + "-"@ + computed,
    }
}

/// Verify bytes against an SRI integrity string (`sha512-<base64>` or
/// `sha256-<base64>`).
pub fn verify_integrity(bytes: &[u8], expected: &str) -> (r: Result<(), String>)
    ensures
        r is Ok <==> integrity_check(bytes@, expected@) matches IntegrityCheck::Checked(_, true),
        r matches Err(e) ==> e@ == integrity_error(bytes@, expected@),
{
    let v = str_chars(expected);
    let dash = match find_char(&v, '-') {
        Some(d) => d,
        None => {
            let mut e = owned("Invalid integrity format: ");
            push_str(&mut e, expected);
            proof {
                reveal_strlit("Invalid integrity format: ");
            }
            return Err(e);
        },
    };
    proof {
        lemma_first_char_index(v@, '-', dash as int);
        assert(v@.contains('-'));
    }
    let algo = chars_sub(&v, 0, dash);
    let hash = chars_sub(&v, dash + 1, v.len());
    proof {
        assert(algo@ =~= integrity_algo(expected@));
        assert(hash@ =~= integrity_hash(expected@));
    }
    let computed = if str_eq(algo.as_str(), "sha512") {
        let d = sha512_digest(bytes);
        base64_encode(d.as_slice())
    } else if str_eq(algo.as_str(), "sha256") {
        let d = sha256_digest(bytes);
        base64_encode(d.as_slice())
    } else {
        let mut e = owned("Unsupported integrity algorithm: ");
        push_str(&mut e, algo.as_str());
        proof {
            reveal_strlit("Unsupported integrity algorithm: ");
        }
        return Err(e);
    };
    if !str_eq(computed.as_str(), hash.as_str()) {
        let mut e = owned("Integrity check failed: expected ");
        push_str(&mut e, algo.as_str());
        push_char(&mut e, '-');
        push_str(&mut e, hash.as_str());
        push_str(&mut e, ", got ");
        push_str(&mut e, algo.as_str());
        push_char(&mut e, '-');
        push_str(&mut e, computed.as_str());
        proof {
            reveal_strlit("Integrity check failed: expected ");
            reveal_strlit(", got ");
            reveal_strlit("-");
            assert(e@ =~= integrity_error(bytes@, expected@));
        }
        return Err(e);
    }
    Ok(())
}

/// One component of a path, as `std::path::Component` gives it.
#[derive(Debug)]
pub enum ComponentKind {
    /// A Windows prefix such as `C:` or `\\server\share`, as text.
    Prefix(String),
    RootDir,
    CurDir,
    ParentDir,
    Normal(String),
}

/// A text whose `/`-separated parts are read the same way on every
/// platform: it starts with neither `\` nor `//` (no UNC, device or
/// verbatim prefix can hold its first part).
pub open spec fn plain_start(path: Seq<char>) -> bool {
    !(path.len() > 0 && path[0] == '\\') && !(path.len() > 1 && path[0] == '/' && path[1] == '/')
}

/// What holds of `Path::components` on every platform: a `..` part between
/// `/`s (or at either end) of a text with a plain start is a parent-dir
/// component. How the rest is split (whether `\` separates, which prefixes
/// there are) depends on the platform and is not stated.
pub open spec fn components_ok(path: Seq<char>, ks: Seq<ComponentKind>) -> bool {
    plain_start(path) && split_on(path, '/').contains(".."@) ==> exists|i: int|
        0 <= i < ks.len() && #[trigger] ks[i] is ParentDir
}

/// `Path::new(path).components()`, each component converted to the
/// library's kind (its text for a prefix or a normal component).
#[verifier::external_body]
fn path_component_kinds(path: &str) -> (r: Vec<ComponentKind>)
    ensures
        components_ok(path@, r@),
{
    let mut out = Vec::new();
    for c in std::path::Path::new(path).components() {
        out.push(match c {
            std::path::Component::Prefix(p) => ComponentKind::Prefix(p.as_os_str().to_string_lossy().into_owned()),
            std::path::Component::RootDir => ComponentKind::RootDir,
            std::path::Component::CurDir => ComponentKind::CurDir,
            std::path::Component::ParentDir => ComponentKind::ParentDir,
            std::path::Component::Normal(n) => ComponentKind::Normal(n.to_string_lossy().into_owned()),
        });
    }
    out
}

/// Whether one of the components is `..`.
pub fn has_parent_dir(kinds: &Vec<ComponentKind>) -> (b: bool)
    ensures
        b == exists|i: int| 0 <= i < kinds@.len() && #[trigger] kinds@[i] is ParentDir,
{
    let mut i: usize = 0;
    while i < kinds.len()
        invariant
            i <= kinds@.len(),
            forall|j: int| 0 <= j < i ==> !(#[trigger] kinds@[j] is ParentDir),
        decreases kinds.len() - i,
    {
        if let ComponentKind::ParentDir = &kinds[i] {
            return true;
        }
        i += 1;
    }
    false
}

/// The platform's path separator: `\` on Windows, `/` elsewhere.
pub open spec fn sep_char(windows: bool) -> char {
    if windows {
        '\\'
    } else {
        '/'
    }
}

/// A char that separates path components: `/`, and `\` on Windows.
pub open spec fn is_sep(c: char, windows: bool) -> bool {
    c == '/' || (windows && c == '\\')
}

/// The text of a component.
pub open spec fn kind_text(k: ComponentKind, windows: bool) -> Seq<char> {
    match k {
        ComponentKind::Prefix(s) => s@,
        ComponentKind::RootDir => seq![sep_char(windows)],
        ComponentKind::CurDir => "."@,
        ComponentKind::ParentDir => ".."@,
        ComponentKind::Normal(s) => s@,
    }
}

/// `PathBuf::push` of a component after the first of a path: a separator
/// goes in unless the text so far is empty or ends with one. (Such a
/// component is never absolute, so nothing is replaced.)
pub open spec fn pushed(buf: Seq<char>, t: Seq<char>, windows: bool) -> Seq<char> {
    if buf.len() > 0 && !is_sep(buf.last(), windows) {
        buf.push(sep_char(windows)) + t
    } else {
        buf + t
    }
}

/// The path that the components collect into.
pub open spec fn collected(ks: Seq<ComponentKind>, windows: bool) -> Seq<char>
    decreases ks.len(),
{
    if ks.len() == 0 {
        Seq::empty()
    } else {
        pushed(collected(ks.drop_last(), windows), kind_text(ks.last(), windows), windows)
    }
}

/// The path without its first component, when it has more than one.
pub open spec fn without_first(path: Seq<char>, ks: Seq<ComponentKind>, windows: bool) -> Seq<char> {
    if ks.len() > 1 {
        collected(ks.drop_first(), windows)
    } else {
        path
    }
}

/// The path without a leading `package` component, when it has more than
/// one component.
pub open spec fn without_package(path: Seq<char>, ks: Seq<ComponentKind>, windows: bool) -> Seq<char> {
    if ks.len() > 1 && is_package_dir(ks[0]) {
        collected(ks.drop_first(), windows)
    } else {
        path
    }
}

/// A normal component named `package`.
pub open spec fn is_package_dir(k: ComponentKind) -> bool {
    match k {
        ComponentKind::Normal(n) => n@ == "package"@,
        _ => false,
    }
}

/// The components `ks[1..]` collected into a path.
fn collect_tail(ks: &Vec<ComponentKind>, windows: bool) -> (r: String)
    requires
        ks@.len() > 0,
    ensures
        r@ == collected(ks@.drop_first(), windows),
{
    let mut r = String::new();
    let mut i: usize = 1;
    let sep: char = if windows { '\\' } else { '/' };
    while i < ks.len()
        invariant
            1 <= i <= ks@.len(),
            sep == sep_char(windows),
            r@ == collected(ks@.subrange(1, i as int), windows),
        decreases ks.len() - i,
    {
        let ghost before = r@;
        let v = str_chars(r.as_str());
        if v.len() > 0 && !(v[v.len() - 1] == '/' || (windows && v[v.len() - 1] == '\\')) {
            push_char(&mut r, sep);
        }
        match &ks[i] {
            ComponentKind::Prefix(s) => push_str(&mut r, s.as_str()),
            ComponentKind::RootDir => push_char(&mut r, sep),
            ComponentKind::CurDir => push_str(&mut r, "."),
            ComponentKind::ParentDir => push_str(&mut r, ".."),
            ComponentKind::Normal(s) => push_str(&mut r, s.as_str()),
        }
        proof {
            let sub = ks@.subrange(1, i + 1);
            assert(sub.drop_last() =~= ks@.subrange(1, i as int));
            assert(sub.last() == ks@[i as int]);
            assert(r@ =~= pushed(before, kind_text(ks@[i as int], windows), windows));
        }
        i += 1;
    }
    assert(ks@.subrange(1, ks@.len() as int) =~= ks@.drop_first());
    r
}

/// The first component off, given the path's components and the platform.
pub fn strip_first_with(path: &str, ks: &Vec<ComponentKind>, windows: bool) -> (r: String)
    ensures
        r@ == without_first(path@, ks@, windows),
{
    if ks.len() > 1 {
        collect_tail(ks, windows)
    } else {
        owned(path)
    }
}

/// The `package` component off, given the path's components and the platform.
pub fn strip_package_with(path: &str, ks: &Vec<ComponentKind>, windows: bool) -> (r: String)
    ensures
        r@ == without_package(path@, ks@, windows),
{
    if ks.len() > 1 {
        if let ComponentKind::Normal(n) = &ks[0] {
            if str_eq(n.as_str(), "package") {
                return collect_tail(ks, windows);
            }
        }
    }
    owned(path)
}

/// Strip the first component (the GitHub archive's top directory) from a
/// tarball entry path, split and joined as this platform does.
pub fn strip_first_component(path: &str) -> (r: String)
    ensures
        exists|ks: Seq<ComponentKind>, w: bool|
            components_ok(path@, ks) && r@ == #[trigger] without_first(path@, ks, w),
{
    let ks = path_component_kinds(path);
    let w = on_windows();
    let r = strip_first_with(path, &ks, w);
    assert(components_ok(path@, ks@) && r@ == without_first(path@, ks@, w));
    r
}

/// Strip the "package/" prefix from npm tarball entry paths, split and
/// joined as this platform does.
pub fn strip_package_prefix(path: &str) -> (r: String)
    ensures
        exists|ks: Seq<ComponentKind>, w: bool|
            components_ok(path@, ks) && r@ == #[trigger] without_package(path@, ks, w),
{
    let ks = path_component_kinds(path);
    let w = on_windows();
    let r = strip_package_with(path, &ks, w);
    assert(components_ok(path@, ks@) && r@ == without_package(path@, ks@, w));
    r
}

/// The base64 text of `n` bytes has four chars per started group of three.
pub proof fn law_base64_length(b: Seq<u8>)
    ensures
        base64(b).len() == 4 * ((b.len() + 2) / 3),
    decreases b.len(),
{
    if b.len() > 3 {
        law_base64_length(b.skip(3));
    }
}

/// Base64 is padded to whole groups: of the text of `n` bytes, exactly the
/// last `(3 - n % 3) % 3` chars are `=`.
pub proof fn law_base64_padding(b: Seq<u8>)
    ensures
        forall|i: int|
            0 <= i < base64(b).len() ==> ((#[trigger] base64(b)[i] == '=') <==> i >= base64(b).len() - (3 - b.len()
                % 3) % 3),
    decreases b.len(),
{
    law_base64_length(b);
    assert forall|v: nat| v < 64 implies #[trigger] b64_digit(v) != '=' by {}
    if b.len() > 3 {
        law_base64_padding(b.skip(3));
        law_base64_length(b.skip(3));
        let g = b64_group(b.take(3));
        let rest = base64(b.skip(3));
        assert(b.skip(3).len() % 3 == b.len() % 3);
        assert forall|i: int|
            0 <= i < base64(b).len() implies ((#[trigger] base64(b)[i] == '=') <==> i >= base64(b).len() - (3
                - b.len() % 3) % 3) by {
            if i < 4 {
                assert(base64(b)[i] == g[i]);
            } else {
                assert(base64(b)[i] == rest[i - 4]);
            }
        }
    }
}

/// The integrity string made of the bytes' own SHA-512 digest
/// (`sha512-<base64 digest>`) checks out against those bytes.
pub proof fn law_own_integrity_checks(bytes: Seq<u8>)
    ensures
        integrity_check(bytes, "sha512-"@ + base64(sha512_of(bytes))) == IntegrityCheck::Checked(
            base64(sha512_of(bytes)),
            true,
        ),
{
    let d = base64(sha512_of(bytes));
    let s = "sha512-"@ + d;
    reveal_strlit("sha512-");
    reveal_strlit("sha512");
    assert(s[6] == '-');
    assert forall|j: int| 0 <= j < 6 implies s[j] != '-' by {}
    lemma_first_char_index(s, '-', 6);
    assert(s.contains('-'));
    assert(integrity_algo(s) =~= "sha512"@);
    assert(integrity_hash(s) =~= d);
}

} // verus!

verus! {

/// The largest file a tarball may hold: 100 MB.
pub const MAX_FILE_SIZE: u64 = 104857600;

/// The most a tarball may unpack to in all: 1 GB.
pub const MAX_ARCHIVE_SIZE: u64 = 1073741824;

/// A char no entry path may hold: NUL, or a control char other than
/// `\n`, `\r` and `\t`.
pub open spec fn bad_path_char(c: char) -> bool {
    c == '\0' || ((c as u32) < 32 && c != '\n' && c != '\r' && c != '\t')
}

/// What to do with one tarball entry.
#[derive(Debug, Clone, Copy, PartialEq, Eq, Structural)]
pub enum EntryStep {
    /// A link: not extracted, the total unchanged.
    Skip,
    /// Extracted; the total so far, this entry included.
    Extract(u64),
}

/// Why an entry stops the extraction, or what is done with it: a path with
/// a bad char, an absolute path, or one with a `..` component is refused;
/// links are skipped; a file over the per-file limit is refused; and the
/// archive is refused once the total passes the overall limit.
pub open spec fn entry_screen(
    path: Seq<char>,
    absolute: bool,
    parent_dir: bool,
    is_link: bool,
    size: u64,
    total: u64,
) -> Result<EntryStep, Seq<char>> {
    if exists|i: int| 0 <= i < path.len() && bad_path_char(#[trigger] path[i]) {
        Err("Tarball contains entry with invalid characters: "@ + path)
    } else if absolute {
        Err("Tarball contains absolute path: "@ + path)
    } else if parent_dir {
        Err("Tarball contains path traversal: "@ + path)
    } else if is_link {
        Ok(EntryStep::Skip)
    } else if size > MAX_FILE_SIZE {
        Err("File "@ + path + " exceeds max size ("@ + dec(size as nat) + " > "@ + dec(
            MAX_FILE_SIZE as nat,
        ) + " bytes)"@)
    } else if total + size > MAX_ARCHIVE_SIZE {
        Err("Archive exceeds maximum total size (1 GB)"@)
    } else {
        Ok(EntryStep::Extract((total + size) as u64))
    }
}

/// A screening result with its message as chars.
pub open spec fn step_view(r: Result<EntryStep, String>) -> Result<EntryStep, Seq<char>> {
    match r {
        Ok(s) => Ok(s),
        Err(e) => Err(e@),
    }
}

fn has_bad_char(path: &str) -> (b: bool)
    ensures
        b == exists|i: int| 0 <= i < path@.len() && bad_path_char(#[trigger] path@[i]),
{
    let v = str_chars(path);
    let mut i: usize = 0;
    while i < v.len()
        invariant
            v@ == path@,
            i <= v.len(),
            forall|j: int| 0 <= j < i ==> !bad_path_char(#[trigger] v@[j]),
        decreases v.len() - i,
    {
        let c = v[i];
        if c == '\0' || ((c as u32) < 32 && c != '\n' && c != '\r' && c != '\t') {
            assert(bad_path_char(path@[i as int]));
            return true;
        }
        i += 1;
    }
    false
}

/// The checks on one tarball entry, from what the archive says of it:
/// its path, whether the platform counts the path absolute, whether it has
/// a `..` component, whether it is a symlink or hard link, its size, and
/// the total of the entries extracted before it.
pub fn screen_entry(
    path: &str,
    absolute: bool,
    parent_dir: bool,
    is_link: bool,
    size: u64,
    total: u64,
) -> (r: Result<EntryStep, String>)
    ensures
        step_view(r) == entry_screen(path@, absolute, parent_dir, is_link, size, total),
{
    if has_bad_char(path) {
        let mut m = owned("Tarball contains entry with invalid characters: ");
        push_str(&mut m, path);
        return Err(m);
    }
    if absolute {
        let mut m = owned("Tarball contains absolute path: ");
        push_str(&mut m, path);
        return Err(m);
    }
    if parent_dir {
        let mut m = owned("Tarball contains path traversal: ");
        push_str(&mut m, path);
        return Err(m);
    }
    if is_link {
        return Ok(EntryStep::Skip);
    }
    if size > MAX_FILE_SIZE {
        let mut m = owned("File ");
        push_str(&mut m, path);
        push_str(&mut m, " exceeds max size (");
        push_dec(&mut m, size);
        push_str(&mut m, " > ");
        push_dec(&mut m, MAX_FILE_SIZE);
        push_str(&mut m, " bytes)");
        return Err(m);
    }
    if size > MAX_ARCHIVE_SIZE || total > MAX_ARCHIVE_SIZE - size {
        return Err(owned("Archive exceeds maximum total size (1 GB)"));
    }
    Ok(EntryStep::Extract(total + size))
}

/// `std::path::Path::is_absolute`: what counts as absolute depends on the
/// platform (a leading `/` on Unix; a prefix and a root on Windows), so
/// nothing is stated of the result.
#[verifier::external_body]
fn path_is_absolute(path: &str) -> (r: bool) {
    std::path::Path::new(path).is_absolute()
}

/// The checks on one tarball entry, with the path judged by this platform.
pub fn screen_tar_entry(path: &str, is_link: bool, size: u64, total: u64) -> (r: Result<EntryStep, String>)
    ensures
        exists|absolute: bool, parent_dir: bool|
            (plain_start(path@) && split_on(path@, '/').contains(".."@) ==> parent_dir) && step_view(r) == entry_screen(
                path@,
                absolute,
                parent_dir,
                is_link,
                size,
                total,
            ),
{
    let absolute = path_is_absolute(path);
    let kinds = path_component_kinds(path);
    let parent_dir = has_parent_dir(&kinds);
    screen_entry(path, absolute, parent_dir, is_link, size, total)
}

} // verus!

verus! {

/// The sextet a base64 digit stands for.
pub open spec fn b64_value(c: char) -> nat {
    let x = c as u32;
    if 65 <= x <= 90 {
        (x - 65) as nat
    } else if 97 <= x <= 122 {
        (x - 71) as nat
    } else if 48 <= x <= 57 {
        (x + 4) as nat
    } else if c == '+' {
        62
    } else {
        63
    }
}

/// The bytes of one four-char group; `=` in the third or fourth place ends
/// the group early.
pub open spec fn b64_ungroup(g: Seq<char>) -> Seq<u8> {
    let d0 = b64_value(g[0]);
    let d1 = b64_value(g[1]);
    let d2 = b64_value(g[2]);
    let d3 = b64_value(g[3]);
    let x0 = (d0 * 4 + d1 / 16) as u8;
    let x1 = ((d1 % 16) * 16 + d2 / 4) as u8;
    let x2 = ((d2 % 4) * 64 + d3) as u8;
    if g[2] == '=' {
        seq![x0]
    } else if g[3] == '=' {
        seq![x0, x1]
    } else {
        seq![x0, x1, x2]
    }
}

/// Standard base64 decoding, group by group.
pub open spec fn base64_decoded(s: Seq<char>) -> Seq<u8>
    decreases s.len(),
{
    if s.len() < 4 {
        seq![]
    } else {
        b64_ungroup(s.take(4)) + base64_decoded(s.skip(4))
    }
}

proof fn lemma_b64_value_digit(v: nat)
    requires
        v < 64,
    ensures
        b64_value(b64_digit(v)) == v,
        b64_digit(v) != '=',
{
}

proof fn lemma_b64_ungroup(b: Seq<u8>)
    requires
        1 <= b.len() <= 3,
    ensures
        b64_ungroup(b64_group(b)) == b,
{
    let b0 = b[0] as nat;
    let b1 = if b.len() > 1 { b[1] as nat } else { 0 };
    let b2 = if b.len() > 2 { b[2] as nat } else { 0 };
    let d0 = b0 / 4;
    let d1 = (b0 % 4) * 16 + b1 / 16;
    let d2 = (b1 % 16) * 4 + b2 / 64;
    let d3 = b2 % 64;
    lemma_b64_value_digit(d0);
    lemma_b64_value_digit(d1);
    lemma_b64_value_digit(d2);
    lemma_b64_value_digit(d3);
    let g = b64_group(b);
    assert(d0 * 4 + d1 / 16 == b0) by (nonlinear_arith)
        requires
            b0 < 256,
            b1 < 256,
            d0 == b0 / 4,
            d1 == (b0 % 4) * 16 + b1 / 16,
    ;
    assert((d1 % 16) * 16 + d2 / 4 == b1) by (nonlinear_arith)
        requires
            b0 < 256,
            b1 < 256,
            b2 < 256,
            d1 == (b0 % 4) * 16 + b1 / 16,
            d2 == (b1 % 16) * 4 + b2 / 64,
    ;
    assert((d2 % 4) * 64 + d3 == b2) by (nonlinear_arith)
        requires
            b1 < 256,
            b2 < 256,
            d2 == (b1 % 16) * 4 + b2 / 64,
            d3 == b2 % 64,
    ;
    assert(b64_value(g[0]) == d0 && b64_value(g[1]) == d1);
    if b.len() > 1 {
        assert(b64_value(g[2]) == d2 && g[2] != '=');
    }
    if b.len() > 2 {
        assert(b64_value(g[3]) == d3 && g[3] != '=');
    }
    assert(b64_ungroup(g) =~= b);
}

/// Decoding gives back the bytes: standard base64 decoding of `base64(b)`
/// is `b`.
pub proof fn law_base64_roundtrip(b: Seq<u8>)
    ensures
        base64_decoded(base64(b)) == b,
    decreases b.len(),
{
    if b.len() == 0 {
    } else if b.len() <= 3 {
        lemma_b64_ungroup(b);
        let g = b64_group(b);
        assert(g.take(4) =~= g);
        assert(g.skip(4).len() == 0);
        assert(base64_decoded(g.skip(4)) == Seq::<u8>::empty());
        assert(b64_ungroup(g) + Seq::<u8>::empty() =~= b);
    } else {
        law_base64_roundtrip(b.skip(3));
        lemma_b64_ungroup(b.take(3));
        let g = b64_group(b.take(3));
        let rest = base64(b.skip(3));
        assert((g + rest).take(4) =~= g);
        assert((g + rest).skip(4) =~= rest);
        assert(b.take(3) + b.skip(3) =~= b);
    }
}

} // verus!
