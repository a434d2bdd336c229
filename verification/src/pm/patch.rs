//! `vertz patch`: patch keys, the patches package.json records, and
//! applying unified diffs to file contents.

use vstd::prelude::*;
use crate::json_value::{
    as_object, as_str, copy_json, jget, jinsert, jmember, json_parse, jv, jv_members, lemma_members_index, member,
    object_get, object_insert, parse_json, JsonValue, JV,
};
use crate::pm::commands::sview;
use crate::pm::config::last_value;
use crate::smap::{sorted_keys, StrMap, StrSet};
use crate::text::{chars_eq, chars_lt, lex_lt, find_sub_from, first_occ_from, occurs_at, 
    chars_sub, find_char, first_char_index, has_char, join, join_strings, lemma_first_char_index,
    lemma_first_char_index_bounds, lines, owned, push_char, push_dec, push_str, replace_char,
    replace_char_str, str_chars, str_ends_with, str_eq, str_lines, str_starts_with, dec, debug_quoted, str_debug,
};

verus! {

/// Result of preparing a package for patching
pub struct PatchPrepareResult {
    pub name: String,
    pub version: String,
}

/// Result of saving a patch
pub struct PatchSaveResult {
    pub name: String,
    pub version: String,
    pub patch_path: String,
    pub files_changed: usize,
    /// True if no changes were detected (warning, not error)
    pub no_changes: bool,
}

/// Result of applying a patch
pub struct PatchApplyResult {
    pub name: String,
    pub version: String,
    pub patch_path: String,
}

/// Result of discarding a patch
pub struct PatchDiscardResult {
    pub name: String,
    pub version: String,
    pub reapplied_patch: bool,
    /// Path of the re-applied patch (if any)
    pub patch_path: Option<String>,
}

/// Result of listing patches
pub struct PatchListResult {
    /// Active patches (in-progress): (package_name, version)
    pub active: Vec<(String, String)>,
    /// Saved patches from package.json: (key like "express@4.21.2", path)
    pub saved: Vec<(String, String)>,
}

/// The package name of a patch key `name@version` (`@scope/name@version`
/// for a scoped package): what precedes the `@` of the version.
pub open spec fn patch_key_name(key: Seq<char>) -> Option<Seq<char>> {
    if key.len() > 0 && key[0] == '@' {
        let rest = key.skip(1);
        if rest.contains('@') {
            Some(key.take(first_char_index(rest, '@') + 1))
        } else {
            None
        }
    } else if key.contains('@') {
        Some(key.take(first_char_index(key, '@')))
    } else {
        None
    }
}

/// Parse the package name from a patchedDependencies key like "express@4.21.2"
/// or "@types/node@22.0.0"
pub fn parse_patch_key_name(key: &str) -> (r: Option<String>)
    ensures
        match r {
            Some(n) => patch_key_name(key@) == Some(n@),
            None => patch_key_name(key@) is None,
        },
{
    let v = str_chars(key);
    if v.len() > 0 && v[0] == '@' {
        let rest = chars_sub(&v, 1, v.len());
        let rv = str_chars(rest.as_str());
        match find_char(&rv, '@') {
            Some(pos) => {
                proof {
                    lemma_first_char_index(rv@, '@', pos as int);
                    assert(rv@ =~= key@.skip(1));
                }
                Some(chars_sub(&v, 0, pos + 1))
            },
            None => {
                proof {
                    assert(rv@ =~= key@.skip(1));
                }
                None
            },
        }
    } else {
        match find_char(&v, '@') {
            Some(pos) => {
                proof {
                    lemma_first_char_index(v@, '@', pos as int);
                }
                Some(chars_sub(&v, 0, pos))
            },
            None => None,
        }
    }
}

/// Parse the package name from a patchedDependencies key (public variant for CLI use)
pub fn parse_patch_key_name_pub(key: &str) -> (r: Option<String>)
    ensures
        match r {
            Some(n) => patch_key_name(key@) == Some(n@),
            None => patch_key_name(key@) is None,
        },
{
    parse_patch_key_name(key)
}

/// Escape a scoped package name for use in filenames: @scope/name → @scope+name
pub fn escape_package_name(name: &str) -> (r: String)
    ensures
        r@ == replace_char(name@, '/', "+"@),
{
    replace_char_str(name, '/', "+")
}

/// Check if content appears to be binary (contains null bytes)
pub fn is_binary(content: &str) -> (b: bool)
    ensures
        b == content@.contains('\0'),
{
    let v = str_chars(content);
    has_char(&v, '\0')
}

/// An ASCII decimal digit.
pub open spec fn is_digit(c: char) -> bool {
    '0' <= c && c <= '9'
}

/// The value of a string of decimal digits.
pub open spec fn digits_value(s: Seq<char>) -> nat
    decreases s.len(),
{
    if s.len() == 0 {
        0
    } else {
        digits_value(s.drop_last()) * 10 + ((s.last() as u32) - ('0' as u32)) as nat
    }
}

/// Every char is a decimal digit.
pub open spec fn all_digits(d: Seq<char>) -> bool {
    forall|i: int| 0 <= i < d.len() ==> is_digit(#[trigger] d[i])
}

/// The text without one leading `+`.
pub open spec fn unsigned_part(s: Seq<char>) -> Seq<char> {
    if s.len() > 0 && s[0] == '+' {
        s.skip(1)
    } else {
        s
    }
}

/// What `str::parse::<usize>` accepts: an optional `+`, then one or more
/// decimal digits whose value fits in a `usize`.
pub open spec fn usize_text(s: Seq<char>) -> Option<nat> {
    let d = unsigned_part(s);
    if d.len() > 0 && all_digits(d) && digits_value(d) <= usize::MAX {
        Some(digits_value(d))
    } else {
        None
    }
}

proof fn lemma_digits_value_grows(d: Seq<char>, i: int)
    requires
        0 <= i <= d.len(),
        forall|k: int| 0 <= k < d.len() ==> is_digit(#[trigger] d[k]),
    ensures
        digits_value(d.take(i)) <= digits_value(d),
    decreases d.len() - i,
{
    if i < d.len() {
        lemma_digits_value_grows(d, i + 1);
        assert(d.take(i + 1).drop_last() =~= d.take(i));
    } else {
        assert(d.take(i) =~= d);
    }
}

/// Parse a decimal `usize` as `str::parse::<usize>` does.
pub fn parse_usize(s: &str) -> (r: Option<usize>)
    ensures
        match r {
            Some(n) => usize_text(s@) == Some(n as nat),
            None => usize_text(s@) is None,
        },
{
    let v = str_chars(s);
    let start: usize = if v.len() > 0 && v[0] == '+' { 1 } else { 0 };
    let ghost d = unsigned_part(s@);
    proof {
        assert(v@.skip(start as int) =~= d);
    }
    if start >= v.len() {
        return None;
    }
    let mut value: usize = 0;
    let mut i: usize = start;
    while i < v.len()
        invariant
            start <= i <= v.len(),
            v@ == s@,
            d == v@.skip(start as int),
            d == unsigned_part(s@),
            forall|k: int| start <= k < i ==> is_digit(#[trigger] v@[k]),
            value == digits_value(d.take(i - start)),
        decreases v.len() - i,
    {
        let c = v[i];
        if !('0' <= c && c <= '9') {
            proof {
                assert(d[i - start] == c);
                assert(!is_digit(d[i - start]));
            }
            return None;
        }
        let digit = (c as u32 - '0' as u32) as usize;
        proof {
            assert(d.take(i - start + 1).drop_last() =~= d.take(i - start));
            assert(d.take(i - start + 1).last() == c);
        }
        proof {
            assert(digits_value(d.take(i - start + 1)) == digits_value(d.take(i - start)) * 10 + digit);
        }
        match value.checked_mul(10) {
            Some(t) => match t.checked_add(digit) {
                Some(n) => {
                    value = n;
                },
                None => {
                    proof {
                        if all_digits(d) {
                            lemma_digits_value_grows(d, i - start + 1);
                        }
                    }
                    return None;
                },
            },
            None => {
                proof {
                    assert(value * 10 + digit > usize::MAX);
                    if all_digits(d) {
                        lemma_digits_value_grows(d, i - start + 1);
                    }
                }
                return None;
            },
        }
        i += 1;
    }
    proof {
        assert(d.take(i - start) =~= d);
        assert forall|k: int| 0 <= k < d.len() implies is_digit(#[trigger] d[k]) by {
            assert(d[k] == v@[k + start]);
        }
    }
    Some(value)
}

/// The old start line of a hunk header `@@ -start,count +start,count @@`
/// (or `@@ -start +start @@`); 1 when it cannot be read.
pub open spec fn hunk_old_start(header: Seq<char>) -> nat {
    if "@@ -"@.is_prefix_of(header) {
        let rest = header.skip(4);
        let by_comma = if rest.contains(',') { usize_text(rest.take(first_char_index(rest, ','))) } else { None };
        let by_space = if rest.contains(' ') { usize_text(rest.take(first_char_index(rest, ' '))) } else { None };
        match by_comma {
            Some(n) => n,
            None => match by_space {
                Some(n) => n,
                None => 1,
            },
        }
    } else {
        1
    }
}

/// The number before the first `sep` in `rest`, if it parses.
fn number_before(rest: &Vec<char>, sep: char) -> (r: Option<usize>)
    ensures
        match r {
            Some(n) => rest@.contains(sep) && usize_text(rest@.take(first_char_index(rest@, sep))) == Some(
                n as nat,
            ),
            None => !rest@.contains(sep) || usize_text(rest@.take(first_char_index(rest@, sep))) is None,
        },
{
    match find_char(rest, sep) {
        Some(pos) => {
            proof {
                lemma_first_char_index(rest@, sep, pos as int);
            }
            let prefix = chars_sub(rest, 0, pos);
            parse_usize(prefix.as_str())
        },
        None => None,
    }
}

/// Parse the old start line from a hunk header like "@@ -1,4 +1,4 @@"
pub fn parse_hunk_header_old_start(header: &str) -> (r: usize)
    ensures
        r as nat == hunk_old_start(header@),
{
    if !str_starts_with(header, "@@ -") {
        return 1;
    }
    proof {
        reveal_strlit("@@ -");
    }
    let v = str_chars(header);
    let rest_s = chars_sub(&v, 4, v.len());
    let rest = str_chars(rest_s.as_str());
    proof {
        assert(rest@ =~= header@.skip(4));
    }
    match number_before(&rest, ',') {
        Some(n) => {
            return n;
        },
        None => {},
    }
    match number_before(&rest, ' ') {
        Some(n) => n,
        None => 1,
    }
}

/// One line of a hunk.
pub enum HunkLine {
    Context(String),
    Add(String),
    Remove(String),
}

/// A hunk: where it starts in the old file, and its lines.
pub struct Hunk {
    pub old_start: usize,
    pub lines: Vec<HunkLine>,
}

/// A hunk line as plain values: (kind, text) with kind 0 for context, 1 for
/// an added line, 2 for a removed one.
pub type HunkLineV = (nat, Seq<char>);

/// A hunk as plain values: (old start, lines).
pub type HunkV = (nat, Seq<HunkLineV>);

pub open spec fn hunk_line_v(l: HunkLine) -> HunkLineV {
    match l {
        HunkLine::Context(t) => (0, t@),
        HunkLine::Add(t) => (1, t@),
        HunkLine::Remove(t) => (2, t@),
    }
}

pub open spec fn hunk_v(h: Hunk) -> HunkV {
    (h.old_start as nat, h.lines@.map_values(|l: HunkLine| hunk_line_v(l)))
}

pub open spec fn hunks_v(hs: Seq<Hunk>) -> Seq<HunkV> {
    hs.map_values(|h: Hunk| hunk_v(h))
}

/// How a line inside a hunk reads: `+text` added, `-text` removed, ` text`
/// context; any other non-empty line (not starting `---`/`+++`) context as a
/// whole; an empty line nothing.
pub open spec fn classify(line: Seq<char>) -> Option<HunkLineV> {
    if line.len() > 0 && line[0] == '+' {
        Some((1, line.skip(1)))
    } else if line.len() > 0 && line[0] == '-' {
        Some((2, line.skip(1)))
    } else if line.len() > 0 && line[0] == ' ' {
        Some((0, line.skip(1)))
    } else if !"---"@.is_prefix_of(line) && !"+++"@.is_prefix_of(line) && line.len() > 0 {
        Some((0, line))
    } else {
        None
    }
}

/// The hunks of the lines `ls`: each `@@` line opens a hunk; lines before
/// the first are ignored. The result is the closed hunks and the open one.
pub open spec fn hunks_of(ls: Seq<Seq<char>>) -> (Seq<HunkV>, Option<HunkV>)
    decreases ls.len(),
{
    if ls.len() == 0 {
        (seq![], None)
    } else {
        let (done, cur) = hunks_of(ls.drop_last());
        let line = ls.last();
        if "@@"@.is_prefix_of(line) {
            let closed = match cur {
                Some(h) => done.push(h),
                None => done,
            };
            (closed, Some((hunk_old_start(line), seq![])))
        } else {
            match cur {
                Some(h) => match classify(line) {
                    Some(l) => (done, Some((h.0, h.1.push(l)))),
                    None => (done, cur),
                },
                None => (done, cur),
            }
        }
    }
}

/// The hunks of a unified diff section.
pub open spec fn parse_hunks_spec(patch: Seq<char>) -> Seq<HunkV> {
    let (done, cur) = hunks_of(lines(patch));
    match cur {
        Some(h) => done.push(h),
        None => done,
    }
}

fn classify_exec(line: &str) -> (r: Option<HunkLine>)
    ensures
        match r {
            Some(l) => classify(line@) == Some(hunk_line_v(l)),
            None => classify(line@) is None,
        },
{
    let v = str_chars(line);
    if v.len() > 0 && v[0] == '+' {
        Some(HunkLine::Add(chars_sub(&v, 1, v.len())))
    } else if v.len() > 0 && v[0] == '-' {
        Some(HunkLine::Remove(chars_sub(&v, 1, v.len())))
    } else if v.len() > 0 && v[0] == ' ' {
        Some(HunkLine::Context(chars_sub(&v, 1, v.len())))
    } else if !str_starts_with(line, "---") && !str_starts_with(line, "+++") && v.len() > 0 {
        proof {
            reveal_strlit("---");
            reveal_strlit("+++");
        }
        Some(HunkLine::Context(owned(line)))
    } else {
        proof {
            reveal_strlit("---");
            reveal_strlit("+++");
        }
        None
    }
}

/// Parse hunks from a unified diff section (without the "diff --git" header)
pub fn parse_hunks(patch: &str) -> (r: Vec<Hunk>)
    ensures
        hunks_v(r@) == parse_hunks_spec(patch@),
{
    let ls = str_lines(patch);
    let ghost lv = ls@.map_values(|l: String| l@);
    let mut hunks: Vec<Hunk> = Vec::new();
    let mut current: Option<Hunk> = None;
    let mut i: usize = 0;
    while i < ls.len()
        invariant
            i <= ls.len(),
            lv == ls@.map_values(|l: String| l@),
            lv == lines(patch@),
            (hunks_v(hunks@), match current {
                Some(h) => Some(hunk_v(h)),
                None => None,
            }) == hunks_of(lv.take(i as int)),
        decreases ls.len() - i,
    {
        let line = &ls[i];
        proof {
            assert(lv.take(i + 1).drop_last() =~= lv.take(i as int));
            assert(lv.take(i + 1).last() == line@);
        }
        if str_starts_with(line.as_str(), "@@") {
            let ghost hb = hunks_v(hunks@);
            let mut taken: Option<Hunk> = None;
            std::mem::swap(&mut taken, &mut current);
            match taken {
                Some(h) => {
                    let ghost hv = hunk_v(h);
                    hunks.push(h);
                    proof {
                        assert(hunks_v(hunks@) =~= hb.push(hv));
                    }
                },
                None => {},
            }
            let start = parse_hunk_header_old_start(line.as_str());
            current = Some(Hunk { old_start: start, lines: Vec::new() });
            proof {
                reveal_strlit("@@");
                assert(hunk_v(current.unwrap()).1 =~= Seq::<HunkLineV>::empty());
            }
        } else {
            proof {
                reveal_strlit("@@");
            }
            let mut taken: Option<Hunk> = None;
            std::mem::swap(&mut taken, &mut current);
            match taken {
                Some(mut h) => {
                    let ghost hv = hunk_v(h);
                    match classify_exec(line.as_str()) {
                        Some(l) => {
                            let ghost lvv = hunk_line_v(l);
                            h.lines.push(l);
                            proof {
                                assert(hunk_v(h).1 =~= hv.1.push(lvv));
                            }
                        },
                        None => {},
                    }
                    current = Some(h);
                },
                None => {},
            }
        }
        i += 1;
    }
    proof {
        assert(lv.take(ls.len() as int) =~= lv);
    }
    match current {
        Some(h) => {
            let ghost hb = hunks_v(hunks@);
            let ghost hv = hunk_v(h);
            hunks.push(h);
            proof {
                assert(hunks_v(hunks@) =~= hb.push(hv));
            }
        },
        None => {},
    }
    hunks
}

/// The error when the old content disagrees with the patch at `pos`
/// (0-based): `<kind> mismatch at line <pos+1>: expected <patch>, got <content>`.
pub open spec fn mismatch_msg(kind: Seq<char>, pos: nat, expected: Seq<char>, got: Seq<char>) -> Seq<char> {
    kind + " mismatch at line "@ + dec(pos + 1) + ": expected "@ + str_debug(expected) + ", got "@ + str_debug(
        got,
    )
}

/// Copying the old lines from `pos` up to (0-based) line `target` (at most
/// to the end of the content).
pub open spec fn skip_to(cl: Seq<Seq<char>>, pos: nat, out: Seq<Seq<char>>, target: nat) -> (nat, Seq<Seq<char>>) {
    let t = if target < cl.len() { target } else { cl.len() };
    if pos < t {
        (t, out + cl.subrange(pos as int, t as int))
    } else {
        (pos, out)
    }
}

/// Applying the hunk lines `ls[j..]` at `pos` of the old content `cl`,
/// having written `out`: a context line must match (and is copied), a
/// removed line must match (and is dropped), an added line is written;
/// past the end of the old content nothing is compared.
pub open spec fn apply_lines(
    cl: Seq<Seq<char>>,
    ls: Seq<HunkLineV>,
    j: int,
    pos: nat,
    out: Seq<Seq<char>>,
) -> Result<(nat, Seq<Seq<char>>), Seq<char>>
    decreases ls.len() - j,
{
    if j < 0 || j >= ls.len() {
        Ok((pos, out))
    } else {
        let (kind, text) = ls[j];
        if kind == 0 {
            if pos < cl.len() {
                if cl[pos as int] != text {
                    Err(mismatch_msg("context"@, pos, text, cl[pos as int]))
                } else {
                    apply_lines(cl, ls, j + 1, pos + 1, out.push(cl[pos as int]))
                }
            } else {
                apply_lines(cl, ls, j + 1, pos, out)
            }
        } else if kind == 2 {
            if pos < cl.len() {
                if cl[pos as int] != text {
                    Err(mismatch_msg("remove"@, pos, text, cl[pos as int]))
                } else {
                    apply_lines(cl, ls, j + 1, pos + 1, out)
                }
            } else {
                apply_lines(cl, ls, j + 1, pos, out)
            }
        } else {
            apply_lines(cl, ls, j + 1, pos, out.push(text))
        }
    }
}

/// The 0-based line a hunk starting at (1-based) `old_start` begins at.
pub open spec fn hunk_target(old_start: nat) -> nat {
    if old_start > 0 {
        (old_start - 1) as nat
    } else {
        0
    }
}

/// Applying the hunks `hs[h..]` in order.
pub open spec fn apply_hunks(
    cl: Seq<Seq<char>>,
    hs: Seq<HunkV>,
    h: int,
    pos: nat,
    out: Seq<Seq<char>>,
) -> Result<(nat, Seq<Seq<char>>), Seq<char>>
    decreases hs.len() - h,
{
    if h < 0 || h >= hs.len() {
        Ok((pos, out))
    } else {
        let (p2, o2) = skip_to(cl, pos, out, hunk_target(hs[h].0));
        match apply_lines(cl, hs[h].1, 0, p2, o2) {
            Err(e) => Err(e),
            Ok((p3, o3)) => apply_hunks(cl, hs, h + 1, p3, o3),
        }
    }
}

/// The patched content: the hunks applied to the lines of `content`, the
/// remaining lines copied, joined by newlines, with a final newline when
/// `content` had one.
pub open spec fn patched(content: Seq<char>, patch: Seq<char>) -> Result<Seq<char>, Seq<char>> {
    let cl = lines(content);
    match apply_hunks(cl, parse_hunks_spec(patch), 0, 0, seq![]) {
        Err(e) => Err(e),
        Ok((pos, out)) => Ok(join(out + cl.skip(pos as int), "\n"@) + if "\n"@.is_suffix_of(content) {
            "\n"@
        } else {
            seq![]
        }),
    }
}

spec fn strs_view(v: Seq<String>) -> Seq<Seq<char>> {
    v.map_values(|s: String| s@)
}

fn mismatch_exec(kind: &str, pos: usize, expected: &str, got: &str) -> (r: String)
    requires
        pos < usize::MAX,
    ensures
        r@ == mismatch_msg(kind@, pos as nat, expected@, got@),
{
    let mut m = owned(kind);
    push_str(&mut m, " mismatch at line ");
    push_dec(&mut m, (pos + 1) as u64);
    push_str(&mut m, ": expected ");
    push_str(&mut m, debug_quoted(expected).as_str());
    push_str(&mut m, ", got ");
    push_str(&mut m, debug_quoted(got).as_str());
    proof {
        reveal_strlit(" mismatch at line ");
        reveal_strlit(": expected ");
        reveal_strlit(", got ");
    }
    m
}

/// Applies one hunk's lines.
fn apply_hunk_lines(
    cl: &Vec<String>,
    hunk: &Hunk,
    pos: usize,
    out: &mut Vec<String>,
) -> (r: Result<usize, String>)
    requires
        pos <= cl.len(),
    ensures
        match r {
            Ok(p) => p <= cl.len() && apply_lines(strs_view(cl@), hunk_v(*hunk).1, 0, pos as nat, strs_view(old(out)@))
                == Ok::<(nat, Seq<Seq<char>>), Seq<char>>((p as nat, strs_view(final(out)@))),
            Err(e) => apply_lines(strs_view(cl@), hunk_v(*hunk).1, 0, pos as nat, strs_view(old(out)@))
                == Err::<(nat, Seq<Seq<char>>), Seq<char>>(e@),
        },
{
    let ghost cv = strs_view(cl@);
    let ghost ls = hunk_v(*hunk).1;
    let ghost goal = apply_lines(cv, ls, 0, pos as nat, strs_view(out@));
    let mut p = pos;
    let mut j: usize = 0;
    while j < hunk.lines.len()
        invariant
            j <= hunk.lines.len(),
            p <= cl.len(),
            cv == strs_view(cl@),
            ls == hunk_v(*hunk).1,
            ls.len() == hunk.lines.len(),
            goal == apply_lines(cv, ls, 0, pos as nat, strs_view(old(out)@)),
            goal == apply_lines(cv, ls, j as int, p as nat, strs_view(out@)),
        decreases hunk.lines.len() - j,
    {
        let ghost ob = strs_view(out@);
        proof {
            assert(ls[j as int] == hunk_line_v(hunk.lines@[j as int]));
        }
        match &hunk.lines[j] {
            HunkLine::Context(t) => {
                if p < cl.len() {
                    if !str_eq(cl[p].as_str(), t.as_str()) {
                        return Err(mismatch_exec("context", p, t.as_str(), cl[p].as_str()));
                    }
                    let c = cl[p].clone();
                    out.push(c);
                    proof {
                        assert(strs_view(out@) =~= ob.push(cv[p as int]));
                    }
                    p = p + 1;
                }
            },
            HunkLine::Remove(t) => {
                if p < cl.len() {
                    if !str_eq(cl[p].as_str(), t.as_str()) {
                        return Err(mismatch_exec("remove", p, t.as_str(), cl[p].as_str()));
                    }
                    p = p + 1;
                }
            },
            HunkLine::Add(t) => {
                let c = t.clone();
                out.push(c);
                proof {
                    assert(strs_view(out@) =~= ob.push(t@));
                }
            },
        }
        j += 1;
    }
    Ok(p)
}

/// Apply a unified diff patch to content (exact context match, no fuzz)
pub fn apply_unified_patch(content: &str, patch: &str) -> (r: Result<String, String>)
    ensures
        match r {
            Ok(s) => patched(content@, patch@) == Ok::<Seq<char>, Seq<char>>(s@),
            Err(e) => patched(content@, patch@) == Err::<Seq<char>, Seq<char>>(e@),
        },
{
    let cl = str_lines(content);
    let ghost cv = strs_view(cl@);
    let hunks = parse_hunks(patch);
    let ghost hs = hunks_v(hunks@);
    let mut out: Vec<String> = Vec::new();
    let mut p: usize = 0;
    let mut h: usize = 0;
    proof {
        assert(cv == lines(content@));
        assert(strs_view(out@) =~= Seq::<Seq<char>>::empty());
    }
    let ghost goal = apply_hunks(cv, hs, 0, 0, seq![]);
    while h < hunks.len()
        invariant
            h <= hunks.len(),
            p <= cl.len(),
            goal == apply_hunks(cv, hs, 0, 0, seq![]),
            cv == lines(content@),
            hs == parse_hunks_spec(patch@),
            cv == strs_view(cl@),
            hs == hunks_v(hunks@),
            goal == apply_hunks(cv, hs, h as int, p as nat, strs_view(out@)),
        decreases hunks.len() - h,
    {
        let hunk = &hunks[h];
        proof {
            assert(hs[h as int] == hunk_v(*hunk));
        }
        let target: usize = if hunk.old_start > 0 { hunk.old_start - 1 } else { 0 };
        let t = if target < cl.len() { target } else { cl.len() };
        let ghost ob = strs_view(out@);
        let ghost p0 = p;
        if p < t {
            while p < t
                invariant
                    p0 <= p <= t,
                    t <= cl.len(),
                    cv == strs_view(cl@),
                    strs_view(out@) == ob + cv.subrange(p0 as int, p as int),
                decreases t - p,
            {
                let ghost before = strs_view(out@);
                let c = cl[p].clone();
                out.push(c);
                proof {
                    assert(strs_view(out@) =~= before.push(cv[p as int]));
                    assert(strs_view(out@) =~= ob + cv.subrange(p0 as int, p + 1));
                }
                p = p + 1;
            }
        }
        proof {
            assert(t as nat == (if hunk_target(hs[h as int].0) < cv.len() { hunk_target(hs[h as int].0) } else { cv.len() }));
            assert((p as nat, strs_view(out@)) == skip_to(cv, p0 as nat, ob, hunk_target(hs[h as int].0)));
        }
        match apply_hunk_lines(&cl, hunk, p, &mut out) {
            Ok(np) => {
                p = np;
            },
            Err(e) => {
                return Err(e);
            },
        }
        h += 1;
    }
    proof {
        assert(goal == Ok::<(nat, Seq<Seq<char>>), Seq<char>>((p as nat, strs_view(out@))));
    }
    let ghost o = strs_view(out@);
    let ghost pa = p;
    while p < cl.len()
        invariant
            pa <= p <= cl.len(),
            cv == strs_view(cl@),
            goal == Ok::<(nat, Seq<Seq<char>>), Seq<char>>((pa as nat, o)),
            goal == apply_hunks(cv, hs, 0, 0, seq![]),
            cv == lines(content@),
            hs == parse_hunks_spec(patch@),
            strs_view(out@) == o + cv.subrange(pa as int, p as int),
        decreases cl.len() - p,
    {
        let ghost before = strs_view(out@);
        let c = cl[p].clone();
        out.push(c);
        proof {
            assert(strs_view(out@) =~= before.push(cv[p as int]));
            assert(strs_view(out@) =~= o + cv.subrange(pa as int, p + 1));
        }
        p = p + 1;
    }
    proof {
        assert(cv.subrange(pa as int, cl.len() as int) =~= cv.skip(pa as int));
    }
    let mut result = join_strings(&out, "\n");
    proof {
        assert(out@.map_values(|p: String| p@) =~= strs_view(out@));
        assert(strs_view(out@) =~= o + cv.skip(pa as int));
    }
    if str_ends_with(content, "\n") {
        push_char(&mut result, '\n');
    }
    proof {
        reveal_strlit("\n");
        assert("\n"@ =~= seq!['\n']);
        let joined = join(o + cv.skip(pa as int), "\n"@);
        let tail: Seq<char> = if "\n"@.is_suffix_of(content@) { "\n"@ } else { seq![] };
        assert(result@ == joined + tail);
        assert(patched(content@, patch@) == Ok::<Seq<char>, Seq<char>>(joined + tail));
    }
    Ok(result)
}


// ---------------------------------------------------------------------------
// Multi-file patches
// ---------------------------------------------------------------------------

/// What a patch does to one file.
#[derive(Debug)]
pub enum PatchChange {
    /// A unified diff of the file (the section without its `diff --git` line).
    Modified(String),
    /// A new file with this content.
    Added(String),
    Deleted,
}

pub enum PatchChangeV {
    Modified(Seq<char>),
    Added(Seq<char>),
    Deleted,
}

impl View for PatchChange {
    type V = PatchChangeV;

    open spec fn view(&self) -> PatchChangeV {
        match self {
            PatchChange::Modified(d) => PatchChangeV::Modified(d@),
            PatchChange::Added(c) => PatchChangeV::Added(c@),
            PatchChange::Deleted => PatchChangeV::Deleted,
        }
    }
}

/// The header that starts each file's section: `diff --git `.
pub open spec fn diff_header() -> Seq<char> {
    "diff --git "@
}

/// The sections from the header at `start` on: each runs up to the next
/// header (searched after the current one) or to the end.
pub open spec fn sections_from(s: Seq<char>, start: int) -> Seq<Seq<char>>
    decreases s.len() - start,
{
    if 0 <= start <= s.len() && exists|j: int| #[trigger] first_occ_from(s, diff_header(), start + 11, j) {
        let j = choose|j: int| #[trigger] first_occ_from(s, diff_header(), start + 11, j);
        seq![s.subrange(start, j)] + sections_from(s, j)
    } else {
        seq![s.subrange(start, s.len() as int)]
    }
}

/// The file sections of a patch: from each `diff --git ` header to the next.
/// What precedes the first header belongs to no section.
pub open spec fn patch_sections(s: Seq<char>) -> Seq<Seq<char>> {
    if exists|i: int| #[trigger] first_occ_from(s, diff_header(), 0, i) {
        sections_from(s, choose|i: int| #[trigger] first_occ_from(s, diff_header(), 0, i))
    } else {
        seq![]
    }
}

/// What a line of a section says about its file: the path (`+++ b/<path>`,
/// or `--- a/<path>` while none is known), deletion (`+++ /dev/null`) and
/// addition (`--- /dev/null`).
pub open spec fn scan_line(st: (Seq<char>, bool, bool), line: Seq<char>) -> (Seq<char>, bool, bool) {
    if "+++ b/"@.is_prefix_of(line) {
        (line.skip(6), st.1, st.2)
    } else if "+++ /dev/null"@.is_prefix_of(line) {
        (st.0, true, st.2)
    } else if "--- /dev/null"@.is_prefix_of(line) {
        (st.0, st.1, true)
    } else if "--- a/"@.is_prefix_of(line) && st.0.len() == 0 {
        (line.skip(6), st.1, st.2)
    } else {
        st
    }
}

pub open spec fn scan_lines(ls: Seq<Seq<char>>) -> (Seq<char>, bool, bool)
    decreases ls.len(),
{
    if ls.len() == 0 {
        (seq![], false, false)
    } else {
        scan_line(scan_lines(ls.drop_last()), ls.last())
    }
}

/// The content of an added file: the `+` lines after the first `@@` line,
/// each without its `+` and ended by a newline.
pub open spec fn added_state(ls: Seq<Seq<char>>) -> (bool, Seq<char>)
    decreases ls.len(),
{
    if ls.len() == 0 {
        (false, seq![])
    } else {
        let prev = added_state(ls.drop_last());
        let line = ls.last();
        if "@@"@.is_prefix_of(line) {
            (true, prev.1)
        } else if prev.0 && line.len() > 0 && line[0] == '+' {
            (true, prev.1 + line.skip(1) + seq!['\n'])
        } else {
            prev
        }
    }
}

/// The lines of a section other than its `diff --git` lines.
pub open spec fn kept_lines(ls: Seq<Seq<char>>) -> Seq<Seq<char>>
    decreases ls.len(),
{
    if ls.len() == 0 {
        seq![]
    } else if diff_header().is_prefix_of(ls.last()) {
        kept_lines(ls.drop_last())
    } else {
        kept_lines(ls.drop_last()).push(ls.last())
    }
}

/// The change a section makes, or none where it names no file.
pub open spec fn section_change(sec: Seq<char>) -> Option<(Seq<char>, PatchChangeV)> {
    let ls = lines(sec);
    let st = scan_lines(ls);
    if st.0.len() == 0 {
        None
    } else if st.1 {
        Some((st.0, PatchChangeV::Deleted))
    } else if st.2 {
        Some((st.0, PatchChangeV::Added(added_state(ls).1)))
    } else {
        Some((st.0, PatchChangeV::Modified(join(kept_lines(ls), seq!['\n']))))
    }
}

pub open spec fn changes_of(secs: Seq<Seq<char>>) -> Seq<(Seq<char>, PatchChangeV)>
    decreases secs.len(),
{
    if secs.len() == 0 {
        seq![]
    } else {
        match section_change(secs.last()) {
            Some(c) => changes_of(secs.drop_last()).push(c),
            None => changes_of(secs.drop_last()),
        }
    }
}

pub open spec fn changes_view(v: Seq<(String, PatchChange)>) -> Seq<(Seq<char>, PatchChangeV)> {
    v.map_values(|c: (String, PatchChange)| (c.0@, c.1@))
}

fn strip_prefix_chars(line: &str, n: usize) -> (r: String)
    requires
        n <= line@.len(),
    ensures
        r@ == line@.skip(n as int),
{
    let v = str_chars(line);
    let r = chars_sub(&v, n, v.len());
    assert(r@ =~= line@.skip(n as int));
    r
}

/// The change of one section.
fn section_change_exec(sec: &str) -> (r: Option<(String, PatchChange)>)
    ensures
        match r {
            Some(c) => section_change(sec@) == Some((c.0@, c.1@)),
            None => section_change(sec@) is None,
        },
{
    let ls = str_lines(sec);
    let ghost lv = strs_view(ls@);
    let mut path = String::new();
    let mut is_delete = false;
    let mut is_add = false;
    let mut in_hunk = false;
    let mut content = String::new();
    let mut kept: Vec<String> = Vec::new();
    let mut i: usize = 0;
    proof {
        reveal_strlit("+++ b/");
        reveal_strlit("+++ /dev/null");
        reveal_strlit("--- /dev/null");
        reveal_strlit("--- a/");
        reveal_strlit("@@");
        reveal_strlit("diff --git ");
        assert(lv.take(0) =~= Seq::<Seq<char>>::empty());
        assert(strs_view(kept@) =~= Seq::<Seq<char>>::empty());
    }
    while i < ls.len()
        invariant
            i <= ls.len(),
            lv == strs_view(ls@),
            lv == lines(sec@),
            (path@, is_delete, is_add) == scan_lines(lv.take(i as int)),
            (in_hunk, content@) == added_state(lv.take(i as int)),
            strs_view(kept@) == kept_lines(lv.take(i as int)),
        decreases ls.len() - i,
    {
        let line = ls[i].as_str();
        proof {
            reveal_strlit("+++ b/");
            reveal_strlit("+++ /dev/null");
            reveal_strlit("--- /dev/null");
            reveal_strlit("--- a/");
            reveal_strlit("@@");
            reveal_strlit("diff --git ");
            reveal_strlit("+");
            assert(lv.take(i + 1).drop_last() =~= lv.take(i as int));
            assert(lv.take(i + 1).last() == line@);
        }
        if str_starts_with(line, "+++ b/") {
            path = strip_prefix_chars(line, 6);
        } else if str_starts_with(line, "+++ /dev/null") {
            is_delete = true;
        } else if str_starts_with(line, "--- /dev/null") {
            is_add = true;
        } else if str_starts_with(line, "--- a/") && path.as_str().is_empty() {
            path = strip_prefix_chars(line, 6);
        }
        if str_starts_with(line, "@@") {
            in_hunk = true;
        } else if in_hunk && str_starts_with(line, "+") {
            proof {
                assert("+"@ =~= seq!['+']);
                assert(line@.subrange(0, 1)[0] == line@[0]);
            }
            let ghost c0 = content@;
            let rest = strip_prefix_chars(line, 1);
            push_str(&mut content, rest.as_str());
            push_char(&mut content, '\n');
            assert(content@ =~= c0 + line@.skip(1) + seq!['\n']);
        } else {
            proof {
                assert("+"@ =~= seq!['+']);
                if in_hunk && line@.len() > 0 && line@[0] == '+' {
                    assert(line@.subrange(0, 1) =~= seq!['+']);
                    assert("+"@.is_prefix_of(line@));
                }
            }
        }
        if !str_starts_with(line, "diff --git ") {
            let ghost kb = strs_view(kept@);
            kept.push(owned(line));
            proof {
                assert(strs_view(kept@) =~= kb.push(line@));
            }
        }
        i += 1;
    }
    proof {
        assert(lv.take(ls.len() as int) =~= lv);
    }
    if path.as_str().is_empty() {
        None
    } else if is_delete {
        Some((path, PatchChange::Deleted))
    } else if is_add {
        Some((path, PatchChange::Added(content)))
    } else {
        let diff = join_strings(&kept, "\n");
        proof {
            reveal_strlit("\n");
            assert("\n"@ =~= seq!['\n']);
        }
        Some((path, PatchChange::Modified(diff)))
    }
}

/// Splits a multi-file unified diff into the change it makes to each file,
/// in the order of the sections.
pub fn split_multi_file_patch(patch_content: &str) -> (r: Vec<(String, PatchChange)>)
    ensures
        changes_view(r@) == changes_of(patch_sections(patch_content@)),
{
    let v = str_chars(patch_content);
    let header: Vec<char> = str_chars("diff --git ");
    proof {
        reveal_strlit("diff --git ");
        assert(header@ =~= diff_header());
    }
    let mut results: Vec<(String, PatchChange)> = Vec::new();
    let first = find_sub_from(&v, &header, 0);
    let mut cur: usize = match first {
        Some(i) => i,
        None => {
            proof {
                assert(!exists|i: int| #[trigger] first_occ_from(v@, diff_header(), 0, i));
                assert(changes_view(results@) =~= Seq::<(Seq<char>, PatchChangeV)>::empty());
            }
            return results;
        },
    };
    let ghost secs = patch_sections(v@);
    let ghost done: Seq<Seq<char>> = seq![];
    proof {
        assert(first_occ_from(v@, diff_header(), 0, cur as int));
        lemma_first_occ_choose(v@, 0, cur as int);
        assert(changes_view(results@) =~= Seq::<(Seq<char>, PatchChangeV)>::empty());
        assert(done + sections_from(v@, cur as int) =~= secs);
    }
    loop
        invariant
            v@ == patch_content@,
            header@ == diff_header(),
            diff_header().len() == 11,
            secs == patch_sections(v@),
            occurs_at(v@, diff_header(), cur as int),
            done + sections_from(v@, cur as int) == secs,
            changes_view(results@) == changes_of(done),
        decreases v@.len() - cur,
    {
        let vlen = v.len();
        assert(cur + diff_header().len() <= vlen);
        let next = find_sub_from(&v, &header, cur + 11);
        let end: usize = match next {
            Some(j) => j,
            None => v.len(),
        };
        let sec = chars_sub(&v, cur, end);
        let ghost this = sec@;
        proof {
            if let Some(j) = next {
                lemma_first_occ_choose(v@, cur as int + 11, j as int);
                assert(sections_from(v@, cur as int) == seq![this] + sections_from(v@, j as int));
            } else {
                assert(!exists|j: int| #[trigger] first_occ_from(v@, diff_header(), cur + 11, j));
                assert(sections_from(v@, cur as int) == seq![this]);
            }
        }
        let c = section_change_exec(sec.as_str());
        let ghost rb = changes_view(results@);
        match c {
            Some(ch) => {
                results.push(ch);
                proof {
                    assert(changes_view(results@) =~= rb.push((results@.last().0@, results@.last().1@)));
                }
            },
            None => {},
        }
        proof {
            assert(done.push(this).drop_last() =~= done);
            assert(changes_view(results@) == changes_of(done.push(this)));
        }
        match next {
            Some(j) => {
                proof {
                    assert(done.push(this) + sections_from(v@, j as int) =~= done + (seq![this]
                        + sections_from(v@, j as int)));
                    done = done.push(this);
                }
                cur = j;
            },
            None => {
                proof {
                    assert(done + seq![this] =~= done.push(this));
                }
                return results;
            },
        }
    }
}

/// The chosen first occurrence is the one found.
proof fn lemma_first_occ_choose(s: Seq<char>, start: int, i: int)
    requires
        first_occ_from(s, diff_header(), start, i),
    ensures
        (choose|j: int| #[trigger] first_occ_from(s, diff_header(), start, j)) == i,
{
    let j = choose|j: int| #[trigger] first_occ_from(s, diff_header(), start, j);
    crate::text::lemma_first_occ_unique(s, diff_header(), start, i, j);
}


// ---------------------------------------------------------------------------
// Diffs of two file trees
// ---------------------------------------------------------------------------

/// The unified diff (three lines of context) that `similar` writes for two
/// texts under the two header names; it depends on its arguments alone.
pub uninterp spec fn unified_diff_text(old: Seq<char>, new: Seq<char>, old_header: Seq<char>, new_header: Seq<char>) -> Seq<char>;

/// `similar::TextDiff::from_lines(old, new).unified_diff().context_radius(3)
/// .header(a, b).to_string()`: the line diff of the texts (Myers, no
/// deadline) in unified form. Its text is named, as a function of the four
/// arguments; nothing more is stated.
#[verifier::external_body]
fn unified_diff(old: &str, new: &str, old_header: &str, new_header: &str) -> (r: String)
    ensures
        r@ == unified_diff_text(old@, new@, old_header@, new_header@),
{
    similar::TextDiff::from_lines(old, new).unified_diff().context_radius(3).header(old_header, new_header).to_string()
}

/// The keys of two key-ordered maps merged in order, each once.
pub open spec fn merge_keys(a: Seq<Seq<char>>, b: Seq<Seq<char>>) -> Seq<Seq<char>>
    decreases a.len() + b.len(),
{
    if a.len() == 0 {
        b
    } else if b.len() == 0 {
        a
    } else if a[0] == b[0] {
        seq![a[0]] + merge_keys(a.skip(1), b.skip(1))
    } else if lex_lt(a[0], b[0]) {
        seq![a[0]] + merge_keys(a.skip(1), b)
    } else {
        seq![b[0]] + merge_keys(a, b.skip(1))
    }
}

/// `diff --git a/<p> b/<p>` and a newline.
pub open spec fn git_line(p: Seq<char>) -> Seq<char> {
    "diff --git a/"@ + p + " b/"@ + p + "\n"@
}

/// Each line behind the mark and ended by a newline.
pub open spec fn marked_lines(ls: Seq<Seq<char>>, mark: char) -> Seq<char>
    decreases ls.len(),
{
    if ls.len() == 0 {
        seq![]
    } else {
        seq![mark] + ls[0] + seq!['\n'] + marked_lines(ls.skip(1), mark)
    }
}

/// The diff of one path: a modified text file is diffed by lines; a
/// binary file (one with a NUL) is only named; a deleted or added text file
/// has all its lines removed or added in one hunk.
pub open spec fn file_diff(p: Seq<char>, old: Option<Seq<char>>, new: Option<Seq<char>>) -> Seq<char> {
    match (old, new) {
        (Some(o), Some(n)) => if o == n {
            seq![]
        } else if o.contains('\0') || n.contains('\0') {
            git_line(p) + "# Binary file modified\n"@
        } else {
            let u = unified_diff_text(o, n, "a/"@ + p, "b/"@ + p);
            if u.len() == 0 {
                seq![]
            } else {
                git_line(p) + u
            }
        },
        (Some(o), None) => if o.contains('\0') {
            git_line(p) + "# Binary file deleted\n"@
        } else {
            git_line(p) + "--- a/"@ + p + "\n+++ /dev/null\n"@ + (if lines(o).len() == 0 {
                seq![]
            } else {
                "@@ -1,"@ + dec(lines(o).len()) + " +0,0 @@\n"@ + marked_lines(lines(o), '-')
            })
        },
        (None, Some(n)) => if n.contains('\0') {
            git_line(p) + "# Binary file added\n"@
        } else {
            git_line(p) + "--- /dev/null\n+++ b/"@ + p + "\n"@ + (if lines(n).len() == 0 {
                seq![]
            } else {
                "@@ -0,0 +1,"@ + dec(lines(n).len()) + " @@\n"@ + marked_lines(lines(n), '+')
            })
        },
        (None, None) => seq![],
    }
}

pub open spec fn opt_str_view(o: Option<String>) -> Option<Seq<char>> {
    match o {
        Some(s) => Some(s@),
        None => None,
    }
}

/// The diffs of the paths, one after the other.
pub open spec fn diff_all(paths: Seq<Seq<char>>, old: StrMap<String>, new: StrMap<String>) -> Seq<char>
    decreases paths.len(),
{
    if paths.len() == 0 {
        seq![]
    } else {
        file_diff(paths[0], opt_str_view(old.lookup(paths[0])), opt_str_view(new.lookup(paths[0])))
            + diff_all(paths.skip(1), old, new)
    }
}

/// The diff of two trees given as path-to-content maps, path by path in
/// path order.
pub open spec fn tree_diff(old: StrMap<String>, new: StrMap<String>) -> Seq<char> {
    diff_all(merge_keys(old.kseq(), new.kseq()), old, new)
}

fn merged_paths(old_files: &StrMap<String>, new_files: &StrMap<String>) -> (r: Vec<String>)
    ensures
        strs_view(r@) == merge_keys(old_files.kseq(), new_files.kseq()),
{
    let ghost a = old_files.kseq();
    let ghost b = new_files.kseq();
    let mut out: Vec<String> = Vec::new();
    let mut i: usize = 0;
    let mut j: usize = 0;
    proof {
        assert(a.skip(0) =~= a);
        assert(b.skip(0) =~= b);
        assert(strs_view(out@) + merge_keys(a, b) =~= merge_keys(a, b));
    }
    while i < old_files.len() || j < new_files.len()
        invariant
            a == old_files.kseq(),
            b == new_files.kseq(),
            i <= a.len(),
            j <= b.len(),
            strs_view(out@) + merge_keys(a.skip(i as int), b.skip(j as int)) == merge_keys(a, b),
        decreases a.len() + b.len() - i - j,
    {
        let ghost sa = a.skip(i as int);
        let ghost sb = b.skip(j as int);
        let ghost ob = strs_view(out@);
        if i < old_files.len() && j < new_files.len() {
            let ka = old_files.key_at(i);
            let kb = new_files.key_at(j);
            let va = str_chars(ka.as_str());
            let vb = str_chars(kb.as_str());
            proof {
                assert(sa[0] == a[i as int] && sb[0] == b[j as int]);
                assert(sa.skip(1) =~= a.skip(i + 1));
                assert(sb.skip(1) =~= b.skip(j + 1));
            }
            if chars_eq(&va, &vb) {
                out.push(ka.clone());
                i += 1;
                j += 1;
            } else if chars_lt(&va, &vb) {
                out.push(ka.clone());
                i += 1;
            } else {
                out.push(kb.clone());
                j += 1;
            }
            proof {
                assert(strs_view(out@) =~= ob.push(strs_view(out@).last()));
                assert(ob.push(strs_view(out@).last()) + merge_keys(a.skip(i as int), b.skip(j as int))
                    =~= ob + (seq![strs_view(out@).last()] + merge_keys(a.skip(i as int), b.skip(j as int))));
            }
        } else if i < old_files.len() {
            let ka = old_files.key_at(i);
            proof {
                assert(sb.len() == 0);
                assert(sa[0] == a[i as int]);
                assert(sa =~= seq![a[i as int]] + a.skip(i + 1));
            }
            out.push(ka.clone());
            i += 1;
            proof {
                assert(b.skip(j as int).len() == 0);
                assert(strs_view(out@) =~= ob.push(a[i - 1]));
                if a.skip(i as int).len() == 0 {
                    assert(merge_keys(a.skip(i as int), b.skip(j as int)) =~= b.skip(j as int));
                }
                assert(ob.push(a[i - 1]) + merge_keys(a.skip(i as int), b.skip(j as int)) =~= ob + sa);
            }
        } else {
            let kb = new_files.key_at(j);
            proof {
                assert(sa.len() == 0);
                assert(sb[0] == b[j as int]);
                assert(sb =~= seq![b[j as int]] + b.skip(j + 1));
            }
            out.push(kb.clone());
            j += 1;
            proof {
                assert(strs_view(out@) =~= ob.push(b[j - 1]));
                assert(ob.push(b[j - 1]) + merge_keys(a.skip(i as int), b.skip(j as int)) =~= ob + sb);
            }
        }
    }
    proof {
        assert(a.skip(i as int).len() == 0 && b.skip(j as int).len() == 0);
        assert(strs_view(out@) + Seq::<Seq<char>>::empty() =~= strs_view(out@));
    }
    out
}

fn push_marked_lines(out: &mut String, text: &str, mark: char)
    ensures
        final(out)@ == old(out)@ + marked_lines(lines(text@), mark),
{
    let ls = str_lines(text);
    let ghost lv = strs_view(ls@);
    let ghost o0 = out@;
    let mut i: usize = 0;
    proof {
        assert(lv.skip(0) =~= lv);
    }
    while i < ls.len()
        invariant
            i <= ls.len(),
            lv == strs_view(ls@),
            lv == lines(text@),
            out@ + marked_lines(lv.skip(i as int), mark) == o0 + marked_lines(lv, mark),
        decreases ls.len() - i,
    {
        let ghost ob = out@;
        proof {
            assert(lv.skip(i as int)[0] == ls@[i as int]@);
            assert(lv.skip(i as int).skip(1) =~= lv.skip(i + 1));
        }
        push_char(out, mark);
        push_str(out, ls[i].as_str());
        push_char(out, '\n');
        proof {
            assert(out@ + marked_lines(lv.skip(i + 1), mark) =~= ob + marked_lines(lv.skip(i as int), mark));
        }
        i += 1;
    }
    proof {
        assert(lv.skip(ls.len() as int) =~= Seq::<Seq<char>>::empty());
        assert(out@ + Seq::<char>::empty() =~= out@);
    }
}

fn push_git_line(out: &mut String, p: &str)
    ensures
        final(out)@ == old(out)@ + git_line(p@),
{
    push_str(out, "diff --git a/");
    push_str(out, p);
    push_str(out, " b/");
    push_str(out, p);
    push_str(out, "\n");
}

/// The diff of one path.
fn file_diff_exec(p: &str, old: Option<&String>, new: Option<&String>) -> (r: String)
    ensures
        r@ == file_diff(
            p@,
            match old {
                Some(s) => Some(s@),
                None => None,
            },
            match new {
                Some(s) => Some(s@),
                None => None,
            },
        ),
{
    let mut out = String::new();
    match (old, new) {
        (Some(o), Some(n)) => {
            if str_eq(o.as_str(), n.as_str()) {
            } else if is_binary(o.as_str()) || is_binary(n.as_str()) {
                push_git_line(&mut out, p);
                push_str(&mut out, "# Binary file modified\n");
            } else {
                let mut a = owned("a/");
                push_str(&mut a, p);
                let mut b = owned("b/");
                push_str(&mut b, p);
                let u = unified_diff(o.as_str(), n.as_str(), a.as_str(), b.as_str());
                if !u.as_str().is_empty() {
                    push_git_line(&mut out, p);
                    push_str(&mut out, u.as_str());
                }
            }
        },
        (Some(o), None) => {
            if is_binary(o.as_str()) {
                push_git_line(&mut out, p);
                push_str(&mut out, "# Binary file deleted\n");
            } else {
                push_git_line(&mut out, p);
                push_str(&mut out, "--- a/");
                push_str(&mut out, p);
                push_str(&mut out, "\n+++ /dev/null\n");
                let ls = str_lines(o.as_str());
                if ls.len() > 0 {
                    push_str(&mut out, "@@ -1,");
                    push_dec(&mut out, ls.len() as u64);
                    push_str(&mut out, " +0,0 @@\n");
                    push_marked_lines(&mut out, o.as_str(), '-');
                }
            }
        },
        (None, Some(n)) => {
            if is_binary(n.as_str()) {
                push_git_line(&mut out, p);
                push_str(&mut out, "# Binary file added\n");
            } else {
                push_git_line(&mut out, p);
                push_str(&mut out, "--- /dev/null\n+++ b/");
                push_str(&mut out, p);
                push_str(&mut out, "\n");
                let ls = str_lines(n.as_str());
                if ls.len() > 0 {
                    push_str(&mut out, "@@ -0,0 +1,");
                    push_dec(&mut out, ls.len() as u64);
                    push_str(&mut out, " @@\n");
                    push_marked_lines(&mut out, n.as_str(), '+');
                }
            }
        },
        (None, None) => {},
    }
    out
}

/// The diff that turns the old tree into the new one (each a map from
/// relative path to file content), path by path in path order.
pub fn generate_diff(old_files: &StrMap<String>, new_files: &StrMap<String>) -> (r: String)
    ensures
        r@ == tree_diff(*old_files, *new_files),
{
    let paths = merged_paths(old_files, new_files);
    let ghost pv = strs_view(paths@);
    let mut out = String::new();
    let mut k: usize = 0;
    proof {
        assert(pv.skip(0) =~= pv);
        assert(out@ + diff_all(pv, *old_files, *new_files) =~= diff_all(pv, *old_files, *new_files));
    }
    while k < paths.len()
        invariant
            k <= paths.len(),
            pv == strs_view(paths@),
            pv == merge_keys(old_files.kseq(), new_files.kseq()),
            out@ + diff_all(pv.skip(k as int), *old_files, *new_files) == diff_all(pv, *old_files, *new_files),
        decreases paths.len() - k,
    {
        let p = paths[k].as_str();
        let o = old_files.get(p);
        let n = new_files.get(p);
        let d = file_diff_exec(p, o, n);
        let ghost ob = out@;
        push_str(&mut out, d.as_str());
        proof {
            assert(pv.skip(k as int)[0] == p@);
            assert(pv.skip(k as int).skip(1) =~= pv.skip(k + 1));
            assert((match o {
                Some(s) => Some(s@),
                None => None,
            }) == opt_str_view(old_files.lookup(p@)));
            assert((match n {
                Some(s) => Some(s@),
                None => None,
            }) == opt_str_view(new_files.lookup(p@)));
            assert(out@ + diff_all(pv.skip(k + 1), *old_files, *new_files) =~= ob + diff_all(
                pv.skip(k as int),
                *old_files,
                *new_files,
            ));
        }
        k += 1;
    }
    proof {
        assert(pv.skip(paths.len() as int) =~= Seq::<Seq<char>>::empty());
        assert(out@ + Seq::<char>::empty() =~= out@);
    }
    out
}


/// Merging the keys of two key-ordered maps gives, in increasing order,
/// each key of either once.
pub proof fn law_merge_keys_sorted_union(a: Seq<Seq<char>>, b: Seq<Seq<char>>)
    requires
        crate::smap::sorted_keys(a),
        crate::smap::sorted_keys(b),
    ensures
        crate::smap::sorted_keys(merge_keys(a, b)),
        forall|x: Seq<char>| merge_keys(a, b).contains(x) <==> (a.contains(x) || b.contains(x)),
    decreases a.len() + b.len(),
{
    if a.len() == 0 || b.len() == 0 {
        return;
    }
    let (a1, b1, head) = if a[0] == b[0] {
        (a.skip(1), b.skip(1), a[0])
    } else if lex_lt(a[0], b[0]) {
        (a.skip(1), b, a[0])
    } else {
        (a, b.skip(1), b[0])
    };
    assert(crate::smap::sorted_keys(a.skip(1))) by {
        assert forall|i: int, j: int| 0 <= i < j < a.skip(1).len() implies lex_lt(
            #[trigger] a.skip(1)[i],
            #[trigger] a.skip(1)[j],
        ) by {
            assert(a.skip(1)[i] == a[i + 1] && a.skip(1)[j] == a[j + 1]);
        }
    }
    assert(crate::smap::sorted_keys(b.skip(1))) by {
        assert forall|i: int, j: int| 0 <= i < j < b.skip(1).len() implies lex_lt(
            #[trigger] b.skip(1)[i],
            #[trigger] b.skip(1)[j],
        ) by {
            assert(b.skip(1)[i] == b[i + 1] && b.skip(1)[j] == b[j + 1]);
        }
    }
    law_merge_keys_sorted_union(a1, b1);
    let rest = merge_keys(a1, b1);
    assert(merge_keys(a, b) == seq![head] + rest);
    if !(a[0] == b[0]) && !lex_lt(a[0], b[0]) {
        crate::text::lemma_lex_total(a[0], b[0]);
    }
    // Everything after the head is above it.
    assert forall|x: Seq<char>| rest.contains(x) implies lex_lt(head, x) by {
        if a1.contains(x) {
            let k = choose|k: int| 0 <= k < a1.len() && a1[k] == x;
            if a1 == a.skip(1) {
                assert(a[k + 1] == x);
                if head != a[0] {
                    crate::text::lemma_lex_transitive(head, a[0], x);
                }
            } else {
                assert(a[k] == x);
                if k > 0 {
                    crate::text::lemma_lex_transitive(head, a[0], x);
                }
            }
        } else {
            assert(b1.contains(x));
            let k = choose|k: int| 0 <= k < b1.len() && b1[k] == x;
            if b1 == b.skip(1) {
                assert(b[k + 1] == x);
                if head != b[0] {
                    crate::text::lemma_lex_transitive(head, b[0], x);
                }
            } else {
                assert(b[k] == x);
                if k > 0 {
                    crate::text::lemma_lex_transitive(head, b[0], x);
                }
            }
        }
    }
    let m = seq![head] + rest;
    assert forall|i: int, j: int| 0 <= i < j < m.len() implies lex_lt(#[trigger] m[i], #[trigger] m[j]) by {
        if i == 0 {
            assert(m[j] == rest[j - 1]);
            assert(rest.contains(rest[j - 1]));
        } else {
            assert(m[i] == rest[i - 1] && m[j] == rest[j - 1]);
        }
    }
    assert forall|x: Seq<char>| m.contains(x) <==> (a.contains(x) || b.contains(x)) by {
        if m.contains(x) && x != head {
            let k = choose|k: int| 0 <= k < m.len() && m[k] == x;
            assert(rest[k - 1] == x);
            if a1.contains(x) {
                let w = choose|w: int| 0 <= w < a1.len() && a1[w] == x;
                if a1 == a.skip(1) {
                    assert(a[w + 1] == x);
                } else {
                    assert(a[w] == x);
                }
            } else {
                let w = choose|w: int| 0 <= w < b1.len() && b1[w] == x;
                if b1 == b.skip(1) {
                    assert(b[w + 1] == x);
                } else {
                    assert(b[w] == x);
                }
            }
        }
        if x == head {
            assert(m[0] == x);
        }
        if a.contains(x) && x != head {
            let w = choose|w: int| 0 <= w < a.len() && a[w] == x;
            if a1 == a.skip(1) {
                assert(w != 0);
                assert(a1[w - 1] == x);
            } else {
                assert(a1[w] == x);
            }
            assert(a1.contains(x));
            assert(rest.contains(x));
            let k = choose|k: int| 0 <= k < rest.len() && rest[k] == x;
            assert(m[k + 1] == x);
        }
        if b.contains(x) && x != head {
            let w = choose|w: int| 0 <= w < b.len() && b[w] == x;
            if b1 == b.skip(1) {
                assert(w != 0);
                assert(b1[w - 1] == x);
            } else {
                assert(b1[w] == x);
            }
            assert(b1.contains(x));
            assert(rest.contains(x));
            let k = choose|k: int| 0 <= k < rest.len() && rest[k] == x;
            assert(m[k + 1] == x);
        }
    }
}

} // verus!

verus! {

/// `vertz.patchedDependencies` of a package.json, when it is an object.
pub open spec fn patched_deps(pkg: JV) -> Option<Seq<(Seq<char>, JV)>> {
    match jmember(pkg, "vertz"@) {
        Some(v) => match jmember(v, "patchedDependencies"@) {
            Some(JV::Object(ms)) => Some(ms),
            _ => None,
        },
        None => None,
    }
}

fn patched_deps_of(pkg: &JsonValue) -> (r: Option<&Vec<(String, JsonValue)>>)
    ensures
        match r {
            Some(ms) => patched_deps(jv(*pkg)) == Some(jv_members(ms@, ms@.len())),
            None => patched_deps(jv(*pkg)) is None,
        },
{
    match member(pkg, "vertz") {
        Some(v) => match member(v, "patchedDependencies") {
            Some(p) => as_object(p),
            None => None,
        },
        None => None,
    }
}

/// `x` is the package name of one of the recorded patch keys.
pub open spec fn names_a_patched_package(pkg: JV, x: Seq<char>) -> bool {
    match patched_deps(pkg) {
        Some(ms) => exists|i: int| 0 <= i < ms.len() && patch_key_name((#[trigger] ms[i]).0) == Some(x),
        None => false,
    }
}

/// The names of the packages package.json records patches for (from the
/// keys of `vertz.patchedDependencies`, `name@version`).
pub fn patched_package_names(pkg: &JsonValue) -> (r: StrSet)
    ensures
        forall|x: Seq<char>| #[trigger] r.has(x) <==> names_a_patched_package(jv(*pkg), x),
{
    let mut names = StrSet::new();
    let ms = match patched_deps_of(pkg) {
        Some(ms) => ms,
        None => {
            return names;
        },
    };
    let ghost jm = jv_members(ms@, ms@.len());
    proof {
        lemma_members_index(ms@, ms@.len());
    }
    let mut i: usize = 0;
    while i < ms.len()
        invariant
            i <= ms@.len(),
            patched_deps(jv(*pkg)) == Some(jm),
            jm.len() == ms@.len(),
            forall|j: int| 0 <= j < ms@.len() ==> #[trigger] jm[j] == (ms@[j].0@, jv(ms@[j].1)),
            forall|x: Seq<char>|
                #[trigger] names.has(x) <==> exists|j: int| 0 <= j < i && patch_key_name((#[trigger] jm[j]).0) == Some(x),
        decreases ms.len() - i,
    {
        match parse_patch_key_name(ms[i].0.as_str()) {
            Some(n) => {
                let ghost nv = n@;
                names.insert(n);
                proof {
                    assert(jm[i as int].0 == ms@[i as int].0@);
                    assert forall|x: Seq<char>|
                        #[trigger] names.has(x) <==> exists|j: int|
                            0 <= j < i + 1 && patch_key_name((#[trigger] jm[j]).0) == Some(x) by {
                        if x == nv {
                            assert(patch_key_name(jm[i as int].0) == Some(x));
                        }
                    }
                }
            },
            None => {
                proof {
                    assert(jm[i as int].0 == ms@[i as int].0@);
                    assert forall|x: Seq<char>|
                        #[trigger] names.has(x) <==> exists|j: int|
                            0 <= j < i + 1 && patch_key_name((#[trigger] jm[j]).0) == Some(x) by {
                        if exists|j: int| 0 <= j < i + 1 && patch_key_name((#[trigger] jm[j]).0) == Some(x) {
                            let j = choose|j: int| 0 <= j < i + 1 && patch_key_name((#[trigger] jm[j]).0) == Some(x);
                            assert(j != i);
                        }
                    }
                }
            },
        }
        i += 1;
    }
    names
}

/// The names of the packages a package.json text records patches for; none
/// when the text is not JSON.
pub fn patched_names_from_text(content: &str) -> (r: StrSet)
    ensures
        forall|x: Seq<char>| #[trigger] r.has(x) <==> (json_parse(content@) matches Some(v) && names_a_patched_package(v, x)),
{
    match parse_json(content) {
        Some(v) => patched_package_names(&v),
        None => StrSet::new(),
    }
}

/// The recorded patches whose path is a string, as (key, path) in order.
pub open spec fn string_members(ms: Seq<(Seq<char>, JV)>) -> Seq<(Seq<char>, Seq<char>)>
    decreases ms.len(),
{
    if ms.len() == 0 {
        Seq::empty()
    } else {
        let rest = string_members(ms.drop_last());
        match ms.last().1 {
            JV::Str(p) => rest.push((ms.last().0, p)),
            _ => rest,
        }
    }
}

/// The saved patches package.json records, as (key, path).
pub open spec fn saved_pairs(pkg: JV) -> Seq<(Seq<char>, Seq<char>)> {
    match patched_deps(pkg) {
        Some(ms) => string_members(ms),
        None => Seq::empty(),
    }
}

/// The saved patches that `vertz patch list` shows: each recorded key with
/// a string path, sorted by key.
pub fn saved_patches(pkg: &JsonValue) -> (r: Vec<(String, String)>)
    ensures
        sorted_keys(r@.map_values(|p: (String, String)| p.0@)),
        forall|x: Seq<char>|
            #[trigger] last_value(saved_pairs(jv(*pkg)), x) is Some <==> r@.map_values(
                |p: (String, String)| p.0@,
            ).contains(x),
        forall|i: int|
            0 <= i < r@.len() ==> last_value(saved_pairs(jv(*pkg)), #[trigger] r@[i].0@) == Some(r@[i].1@),
{
    let mut m: StrMap<String> = StrMap::new();
    match patched_deps_of(pkg) {
        Some(ms) => {
            let ghost jm = jv_members(ms@, ms@.len());
            proof {
                lemma_members_index(ms@, ms@.len());
            }
            let mut i: usize = 0;
            while i < ms.len()
                invariant
                    i <= ms@.len(),
                    patched_deps(jv(*pkg)) == Some(jm),
                    jm.len() == ms@.len(),
                    forall|j: int| 0 <= j < ms@.len() ==> #[trigger] jm[j] == (ms@[j].0@, jv(ms@[j].1)),
                    forall|x: Seq<char>| #[trigger] sview(m, x) == last_value(string_members(jm.take(i as int)), x),
                decreases ms.len() - i,
            {
                let ghost pre = jm.take(i as int);
                proof {
                    assert(jm.take(i + 1).drop_last() =~= pre);
                    assert(jm.take(i + 1).last() == jm[i as int]);
                }
                match as_str(&ms[i].1) {
                    Some(p) => {
                        let ghost before = m;
                        m.insert(owned(ms[i].0.as_str()), owned(p.as_str()));
                        proof {
                            let acc = string_members(jm.take(i + 1));
                            assert(acc == string_members(pre).push((ms@[i as int].0@, p@)));
                            assert forall|x: Seq<char>| #[trigger] sview(m, x) == last_value(acc, x) by {
                                assert(acc.drop_last() =~= string_members(pre));
                                if x != ms@[i as int].0@ {
                                    assert(sview(before, x) == last_value(string_members(pre), x));
                                }
                            }
                        }
                    },
                    None => {
                    },
                }
                i += 1;
            }
            proof {
                assert(jm.take(ms@.len() as int) =~= jm);
            }
        },
        None => {
        },
    }
    let mut out: Vec<(String, String)> = Vec::new();
    proof {
        m.lemma_sizes();
    }
    m.keys_sorted();
    let n = m.len();
    let mut i: usize = 0;
    while i < n
        invariant
            i <= n,
            n == m.size(),
            m.kseq().len() == m.vseq().len(),
            sorted_keys(m.kseq()),
            out@.len() == i,
            forall|j: int| 0 <= j < i ==> (#[trigger] out@[j]).0@ == m.kseq()[j] && out@[j].1@ == m.vseq()[j]@,
        decreases n - i,
    {
        out.push((owned(m.key_at(i).as_str()), owned(m.value_at(i).as_str())));
        i += 1;
    }
    proof {
        let ks = out@.map_values(|p: (String, String)| p.0@);
        assert(ks =~= m.kseq());
        assert forall|x: Seq<char>| #[trigger] last_value(saved_pairs(jv(*pkg)), x) is Some <==> ks.contains(x) by {
            assert(sview(m, x) == last_value(saved_pairs(jv(*pkg)), x));
            if ks.contains(x) {
                let j = choose|j: int| 0 <= j < ks.len() && ks[j] == x;
                m.lemma_lookup_at(j);
            }
        }
        assert forall|j: int| 0 <= j < out@.len() implies last_value(saved_pairs(jv(*pkg)), #[trigger] out@[j].0@)
            == Some(out@[j].1@) by {
            m.lemma_lookup_at(j);
            assert(sview(m, out@[j].0@) == last_value(saved_pairs(jv(*pkg)), out@[j].0@));
        }
    }
    out
}

} // verus!

verus! {

/// What one recorded patch names: the package, the version the patch was
/// made for, and the patch file; or why the record is unusable (a path that
/// is not a string, or a key with no `@version`).
pub open spec fn patch_entry_spec(key: Seq<char>, path: JV) -> Result<(Seq<char>, Seq<char>, Seq<char>), Seq<char>> {
    match path {
        JV::Str(p) => match patch_key_name(key) {
            Some(n) => Ok((n, key.skip(n.len() as int + 1), p)),
            None => Err("error: invalid patch key \""@ + key + "\""@),
        },
        _ => Err("error: invalid patch path for \""@ + key + "\""@),
    }
}

/// A triple of strings as chars.
pub open spec fn triple_view(r: Result<(String, String, String), String>) -> Result<(Seq<char>, Seq<char>, Seq<char>), Seq<char>> {
    match r {
        Ok((a, b, c)) => Ok((a@, b@, c@)),
        Err(e) => Err(e@),
    }
}

/// Reads one recorded patch (`"name@version": "patches/file.patch"`).
pub fn patch_entry(key: &str, path: &JsonValue) -> (r: Result<(String, String, String), String>)
    ensures
        triple_view(r) == patch_entry_spec(key@, jv(*path)),
{
    let p = match as_str(path) {
        Some(p) => p,
        None => {
            let mut m = owned("error: invalid patch path for \"");
            push_str(&mut m, key);
            push_str(&mut m, "\"");
            return Err(m);
        },
    };
    match parse_patch_key_name(key) {
        Some(n) => {
            let v = str_chars(key);
            let nv = str_chars(n.as_str());
            proof {
                let k = key@;
                if k.len() > 0 && k[0] == '@' {
                    lemma_first_char_index_bounds(k.skip(1), '@');
                } else {
                    lemma_first_char_index_bounds(k, '@');
                }
            }
            let version = chars_sub(&v, nv.len() + 1, v.len());
            assert(version@ =~= key@.skip(n@.len() as int + 1));
            Ok((n, version, owned(p.as_str())))
        },
        None => {
            let mut m = owned("error: invalid patch key \"");
            push_str(&mut m, key);
            push_str(&mut m, "\"");
            Err(m)
        },
    }
}

/// The error when the installed version is not the one a patch was made for.
pub open spec fn version_mismatch_spec(
    patch_path: Seq<char>,
    name: Seq<char>,
    expected: Seq<char>,
    installed: Seq<char>,
) -> Seq<char> {
    "error: failed to apply patch "@ + patch_path + "\n  The patch was created for "@ + name + "@"@ + expected
        + " but "@ + name + "@"@ + installed + " is installed.\n\n  To recreate the patch for the new version:\n    1. vertz patch "@
        + name + "\n    2. Review and re-apply your changes to node_modules/"@ + name
        + "/\n    3. vertz patch save "@ + name + "\n\n  Old patch preserved at: "@ + patch_path
}

/// The error `vertz install` stops with when a patch's version is not the
/// installed one.
pub fn version_mismatch_message(patch_path: &str, name: &str, expected: &str, installed: &str) -> (r: String)
    ensures
        r@ == version_mismatch_spec(patch_path@, name@, expected@, installed@),
{
    let mut m = owned("error: failed to apply patch ");
    push_str(&mut m, patch_path);
    push_str(&mut m, "\n  The patch was created for ");
    push_str(&mut m, name);
    push_str(&mut m, "@");
    push_str(&mut m, expected);
    push_str(&mut m, " but ");
    push_str(&mut m, name);
    push_str(&mut m, "@");
    push_str(&mut m, installed);
    push_str(&mut m, " is installed.\n\n  To recreate the patch for the new version:\n    1. vertz patch ");
    push_str(&mut m, name);
    push_str(&mut m, "\n    2. Review and re-apply your changes to node_modules/");
    push_str(&mut m, name);
    push_str(&mut m, "/\n    3. vertz patch save ");
    push_str(&mut m, name);
    push_str(&mut m, "\n\n  Old patch preserved at: ");
    push_str(&mut m, patch_path);
    m
}

/// The installed version of a package, from its package.json as read:
/// `None` when the file could not be read, `Some(None)` when it is not
/// JSON, else the parsed value, whose `version` must be a string.
pub open spec fn installed_version_spec(name: Seq<char>, manifest: Option<Option<JV>>) -> Result<Seq<char>, Seq<char>> {
    match manifest {
        None => Err("error: \""@ + name + "\" is not installed. Run \"vertz install\" first."@),
        Some(None) => Err("error: invalid package.json for \""@ + name + "\""@),
        Some(Some(v)) => match jmember(v, "version"@) {
            Some(JV::Str(s)) => Ok(s),
            _ => Err("error: no version field in package.json for \""@ + name + "\""@),
        },
    }
}

/// A read manifest's value.
pub open spec fn manifest_view(m: Option<Option<&JsonValue>>) -> Option<Option<JV>> {
    match m {
        None => None,
        Some(None) => Some(None),
        Some(Some(v)) => Some(Some(jv(*v))),
    }
}

/// A string result as chars.
pub open spec fn res_view(r: Result<String, String>) -> Result<Seq<char>, Seq<char>> {
    match r {
        Ok(s) => Ok(s@),
        Err(e) => Err(e@),
    }
}

/// The version of an installed package, or why it cannot be told.
pub fn installed_version(name: &str, manifest: Option<Option<&JsonValue>>) -> (r: Result<String, String>)
    ensures
        res_view(r) == installed_version_spec(name@, manifest_view(manifest)),
{
    match manifest {
        None => {
            let mut m = owned("error: \"");
            push_str(&mut m, name);
            push_str(&mut m, "\" is not installed. Run \"vertz install\" first.");
            Err(m)
        },
        Some(None) => {
            let mut m = owned("error: invalid package.json for \"");
            push_str(&mut m, name);
            push_str(&mut m, "\"");
            Err(m)
        },
        Some(Some(v)) => {
            match member(v, "version") {
                Some(x) => match as_str(x) {
                    Some(s) => {
                        return Ok(owned(s.as_str()));
                    },
                    None => {},
                },
                None => {},
            }
            let mut m = owned("error: no version field in package.json for \"");
            push_str(&mut m, name);
            push_str(&mut m, "\"");
            Err(m)
        },
    }
}

/// The dependency sections a direct dependency is looked up in.
pub open spec fn in_section(pkg: JV, section: Seq<char>, p: Seq<char>) -> bool {
    match jmember(pkg, section) {
        Some(JV::Object(ms)) => jget(ms, p) is Some,
        _ => false,
    }
}

/// Whether package.json lists `p` in dependencies, devDependencies,
/// peerDependencies or optionalDependencies.
pub open spec fn direct_dep(pkg: JV, p: Seq<char>) -> bool {
    ||| in_section(pkg, "dependencies"@, p)
    ||| in_section(pkg, "devDependencies"@, p)
    ||| in_section(pkg, "peerDependencies"@, p)
    ||| in_section(pkg, "optionalDependencies"@, p)
}

fn in_section_exec(pkg: &JsonValue, section: &str, p: &str) -> (b: bool)
    ensures
        b == in_section(jv(*pkg), section@, p@),
{
    match member(pkg, section) {
        Some(s) => match as_object(s) {
            Some(ms) => object_get(ms, p).is_some(),
            None => false,
        },
        None => false,
    }
}

/// Whether a package is a direct dependency of the project, given its
/// package.json (`None` when it cannot be read or parsed).
pub fn is_direct_dependency(pkg: Option<&JsonValue>, package: &str) -> (b: bool)
    ensures
        b == match pkg {
            Some(v) => direct_dep(jv(*v), package@),
            None => false,
        },
{
    match pkg {
        Some(v) => in_section_exec(v, "dependencies", package) || in_section_exec(v, "devDependencies", package)
            || in_section_exec(v, "peerDependencies", package) || in_section_exec(
            v,
            "optionalDependencies",
            package,
        ),
        None => false,
    }
}

} // verus!

verus! {

/// The members of an object, or none for anything else (where the value
/// is written into, `null` becomes an empty object).
pub open spec fn obj_members(v: Option<JV>) -> Seq<(Seq<char>, JV)> {
    match v {
        Some(JV::Object(ms)) => ms,
        _ => Seq::empty(),
    }
}

/// A value that `serde_json` can index into for writing: an object or `null`.
pub open spec fn writable(v: JV) -> bool {
    v is Object || v is Null
}

/// Whether package.json can take a patch record: it is writable, and so are
/// `vertz` and `vertz.patchedDependencies` where they are present.
pub open spec fn can_record_patch(pkg: JV) -> bool {
    &&& writable(pkg)
    &&& (jmember(pkg, "vertz"@) matches Some(v) ==> writable(v))
    &&& (jmember(pkg, "vertz"@) matches Some(v) ==> (jmember(v, "patchedDependencies"@) matches Some(
        p,
    ) ==> writable(p)))
}

/// package.json with `vertz.patchedDependencies[key] = path`, the objects
/// on the way made where they are missing.
pub open spec fn with_patch_record(pkg: JV, key: Seq<char>, path: Seq<char>) -> JV {
    let ms = obj_members(Some(pkg));
    let vz = obj_members(jget(ms, "vertz"@));
    let pd = obj_members(jget(vz, "patchedDependencies"@));
    JV::Object(
        jinsert(
            ms,
            "vertz"@,
            JV::Object(jinsert(vz, "patchedDependencies"@, JV::Object(jinsert(pd, key, JV::Str(path))))),
        ),
    )
}

fn members_or_empty(v: Option<&JsonValue>) -> (r: Vec<(String, JsonValue)>)
    ensures
        jv_members(r@, r@.len()) == obj_members(
            match v {
                Some(x) => Some(jv(*x)),
                None => None,
            },
        ),
{
    match v {
        Some(JsonValue::Object(ms)) => {
            let c = copy_json(v.unwrap());
            match c {
                JsonValue::Object(cm) => cm,
                _ => {
                    proof {
                        assert(false);
                    }
                    Vec::new()
                },
            }
        },
        _ => Vec::new(),
    }
}

/// Records a saved patch in package.json: `vertz.patchedDependencies[key]`
/// becomes the patch path.
pub fn record_patch(pkg: &JsonValue, key: &str, path: &str) -> (r: JsonValue)
    requires
        can_record_patch(jv(*pkg)),
    ensures
        jv(r) == with_patch_record(jv(*pkg), key@, path@),
{
    let mut ms = members_or_empty(Some(pkg));
    let vz_ref = match pkg {
        JsonValue::Object(pm) => object_get(pm, "vertz"),
        _ => None,
    };
    let mut vz = members_or_empty(vz_ref);
    let mut pd = members_or_empty(match vz_ref {
        Some(v) => member(v, "patchedDependencies"),
        None => None,
    });
    proof {
        lemma_members_index(vz@, vz@.len());
    }
    object_insert(&mut pd, owned(key), JsonValue::Str(owned(path)));
    object_insert(&mut vz, owned("patchedDependencies"), JsonValue::Object(pd));
    object_insert(&mut ms, owned("vertz"), JsonValue::Object(vz));
    JsonValue::Object(ms)
}

} // verus!
