//! Quoting arguments for the platform shell (`sh -c` or `cmd.exe /C`), and
//! the platform's shell and PATH separator.

use vstd::prelude::*;
use crate::text::{owned, push_char, push_str, replace_char, replace_char_str, str_chars};

verus! {

/// An ASCII letter or digit.
pub open spec fn ascii_alnum(c: char) -> bool {
    ('0' <= c && c <= '9') || ('a' <= c && c <= 'z') || ('A' <= c && c <= 'Z')
}

/// Chars that need no quoting for `sh`.
pub open spec fn unix_safe(c: char) -> bool {
    ascii_alnum(c) || c == '-' || c == '_' || c == '.' || c == '/' || c == ':' || c == '@'
}

/// Chars that need no quoting for `cmd.exe` (the `sh` ones and `\`).
pub open spec fn windows_safe(c: char) -> bool {
    unix_safe(c) || c == '\\'
}

/// `sh` quoting: `''` for the empty text; the text in single quotes, each
/// `'` written `'\''`, when some char is not safe; the text itself otherwise.
pub open spec fn unix_escaped(s: Seq<char>) -> Seq<char> {
    if s.len() == 0 {
        "''"@
    } else if exists|i: int| 0 <= i < s.len() && !unix_safe(#[trigger] s[i]) {
        "'"@ + replace_char(s, '\'', "'\\''"@) + "'"@
    } else {
        s
    }
}

/// `cmd.exe` quoting: `""` for the empty text; the text in double quotes,
/// each `"` doubled, when some char is not safe; the text itself otherwise.
pub open spec fn windows_escaped(s: Seq<char>) -> Seq<char> {
    if s.len() == 0 {
        "\"\""@
    } else if exists|i: int| 0 <= i < s.len() && !windows_safe(#[trigger] s[i]) {
        "\""@ + replace_char(s, '"', "\"\""@) + "\""@
    } else {
        s
    }
}

/// Whether the process runs on Windows: the platform's path separator is
/// `\` (`std::path::MAIN_SEPARATOR`). Nothing is stated of the result, which
/// depends on the machine the code was built for.
#[verifier::external_body]
pub fn on_windows() -> (b: bool) {
    std::path::MAIN_SEPARATOR == '\\'
}

fn ascii_alnum_exec(c: char) -> (b: bool)
    ensures
        b == ascii_alnum(c),
{
    ('0' <= c && c <= '9') || ('a' <= c && c <= 'z') || ('A' <= c && c <= 'Z')
}

/// Whether some char of `s` is unsafe (for `cmd.exe` when `windows`).
fn has_unsafe(s: &str, windows: bool) -> (b: bool)
    ensures
        b == exists|i: int| 0 <= i < s@.len() && !(if windows { windows_safe(s@[i]) } else { unix_safe(s@[i]) }),
{
    let v = str_chars(s);
    let mut i: usize = 0;
    while i < v.len()
        invariant
            i <= v.len(),
            v@ == s@,
            forall|j: int| 0 <= j < i ==> (if windows { windows_safe(#[trigger] s@[j]) } else { unix_safe(s@[j]) }),
        decreases v.len() - i,
    {
        let c = v[i];
        let safe = ascii_alnum_exec(c) || c == '-' || c == '_' || c == '.' || c == '/' || c == ':' || c == '@'
            || (windows && c == '\\');
        if !safe {
            assert(!(if windows { windows_safe(s@[i as int]) } else { unix_safe(s@[i as int]) }));
            return true;
        }
        i += 1;
    }
    false
}

/// Unix shell escaping: wrap in single quotes, escape embedded single quotes.
pub fn shell_escape_unix(s: &str) -> (r: String)
    ensures
        r@ == unix_escaped(s@),
{
    if s.unicode_len() == 0 {
        let r = owned("''");
        proof {
            reveal_strlit("''");
        }
        return r;
    }
    if has_unsafe(s, false) {
        let mut r = owned("'");
        let inner = replace_char_str(s, '\'', "'\\''");
        push_str(&mut r, inner.as_str());
        push_char(&mut r, '\'');
        proof {
            reveal_strlit("'");
            assert(r@ =~= unix_escaped(s@));
        }
        r
    } else {
        owned(s)
    }
}

/// Windows cmd.exe escaping: wrap in double quotes, escape embedded double quotes.
pub fn shell_escape_windows(s: &str) -> (r: String)
    ensures
        r@ == windows_escaped(s@),
{
    if s.unicode_len() == 0 {
        let r = owned("\"\"");
        proof {
            reveal_strlit("\"\"");
        }
        return r;
    }
    if has_unsafe(s, true) {
        let mut r = owned("\"");
        let inner = replace_char_str(s, '"', "\"\"");
        push_str(&mut r, inner.as_str());
        push_char(&mut r, '"');
        proof {
            reveal_strlit("\"");
            assert(r@ =~= windows_escaped(s@));
        }
        r
    } else {
        owned(s)
    }
}

/// Escape a shell argument for the current platform.
///
/// On Unix (sh -c): single-quote if it contains metacharacters.
/// On Windows (cmd.exe /C): double-quote if it contains metacharacters.
pub fn shell_escape(s: &str) -> (r: String)
    ensures
        r@ == unix_escaped(s@) || r@ == windows_escaped(s@),
{
    if on_windows() {
        shell_escape_windows(s)
    } else {
        shell_escape_unix(s)
    }
}

/// Returns the platform PATH separator: `";"` on Windows, `":"` on Unix.
pub fn path_separator() -> (c: &'static str)
    ensures
        c@ == ";"@ || c@ == ":"@,
{
    if on_windows() {
        ";"
    } else {
        ":"
    }
}

/// The shell and its command flag: `("cmd.exe", "/C")` on Windows,
/// `("sh", "-c")` elsewhere.
pub fn platform_shell() -> (r: (&'static str, &'static str))
    ensures
        (r.0@ == "cmd.exe"@ && r.1@ == "/C"@) || (r.0@ == "sh"@ && r.1@ == "-c"@),
{
    if on_windows() {
        ("cmd.exe", "/C")
    } else {
        ("sh", "-c")
    }
}

} // verus!
