//! Registry configuration resolved from `.npmrc` entries.

use vstd::prelude::*;
use crate::smap::{sorted_keys, StrMap};
use crate::text::{
    chars_ends_with, chars_eq, chars_starts_with, chars_string, chars_sub, find_char,
    first_char, first_char_index, lemma_first_char_index, lemma_first_char_index_bounds, owned,
    push_str, str_chars, find_sub_from, first_occ_from, lines, str_lines, str_trim, trim, chars_trim,
};
use crate::pm::commands::sview;

verus! {

/// Registry configuration resolved from .npmrc files
pub struct RegistryConfig {
    /// Default registry URL (falls back to https://registry.npmjs.org)
    pub default_url: String,
    /// Scoped registries: @scope → URL
    pub scoped: StrMap<String>,
    /// Auth tokens: URL prefix → token
    pub tokens: StrMap<String>,
    /// Whether to always send auth
    pub always_auth: bool,
}

impl Default for RegistryConfig {
    fn default() -> (c: Self)
        ensures
            c.default_url@ == Seq::<char>::empty(),
            c.scoped.size() == 0,
            c.tokens.size() == 0,
            !c.always_auth,
    {
        RegistryConfig {
            default_url: String::new(),
            scoped: StrMap::new(),
            tokens: StrMap::new(),
            always_auth: false,
        }
    }
}

/// The public npm registry.
pub const DEFAULT_REGISTRY: &'static str = "https://registry.npmjs.org";

/// The view of a map of strings: keys and the values' char sequences.
pub open spec fn str_vals(m: &StrMap<String>) -> Seq<Seq<char>> {
    m.vseq().map_values(|v: String| v@)
}

/// The scope of a package name: `"@org/pkg"` → `"@org"`.
pub open spec fn scope_of(name: Seq<char>) -> Option<Seq<char>> {
    if name.len() > 0 && name[0] == '@' && name.contains('/') {
        Some(name.take(first_char_index(name, '/')))
    } else {
        None
    }
}

/// A URL without its `https://` or `http://` prefix.
pub open spec fn strip_protocol_spec(url: Seq<char>) -> Seq<char> {
    if "https://"@.is_prefix_of(url) {
        url.skip("https://"@.len() as int)
    } else if "http://"@.is_prefix_of(url) {
        url.skip("http://"@.len() as int)
    } else {
        url
    }
}

/// `str::trim_start_matches(p)`: every leading repetition of `p` removed.
pub open spec fn trim_leading(s: Seq<char>, p: Seq<char>) -> Seq<char>
    decreases s.len(),
{
    if p.len() > 0 && p.is_prefix_of(s) {
        trim_leading(s.skip(p.len() as int), p)
    } else {
        s
    }
}

/// The registry URL used for a package name.
pub open spec fn registry_url_spec(c: &RegistryConfig, name: Seq<char>) -> Seq<char> {
    match scope_of(name) {
        Some(scope) if c.scoped.has(scope) => c.scoped.lookup(scope).unwrap()@,
        _ => if c.default_url@.len() == 0 {
            DEFAULT_REGISTRY@
        } else {
            c.default_url@
        },
    }
}

/// Whether the token stored under `prefix` applies to `url`.
pub open spec fn token_applies(prefix: Seq<char>, url: Seq<char>) -> bool {
    trim_leading(prefix, "//"@).is_prefix_of(strip_protocol_spec(url))
}

/// The auth header of the first token, in key order from index `i`, that
/// applies to `url`.
pub open spec fn auth_from(ks: Seq<Seq<char>>, vs: Seq<Seq<char>>, url: Seq<char>, i: int) -> Option<
    Seq<char>,
>
    decreases ks.len() - i,
{
    if i < 0 || i >= ks.len() {
        None
    } else if token_applies(ks[i], url) {
        Some("Bearer "@ + vs[i])
    } else {
        auth_from(ks, vs, url, i + 1)
    }
}

impl RegistryConfig {
    /// Get the registry URL for a given package name: the scope's registry
    /// when the name is scoped and the scope is configured, else the default
    /// registry (or `https://registry.npmjs.org` when none is set).
    pub fn registry_url_for_package(&self, name: &str) -> (r: &str)
        ensures
            r@ == registry_url_spec(self, name@),
    {
        if let Some(scope) = extract_scope(name) {
            if let Some(url) = self.scoped.get(scope) {
                return url.as_str();
            }
        }
        if self.default_url.as_str().unicode_len() == 0 {
            DEFAULT_REGISTRY
        } else {
            self.default_url.as_str()
        }
    }

    /// Get the auth header value (`Bearer <token>`) for a registry URL: the
    /// first token, in key order, whose prefix (without leading `//`)
    /// starts the URL without its protocol.
    pub fn auth_header_for_url(&self, url: &str) -> (r: Option<String>)
        ensures
            r matches Some(h) ==> auth_from(self.tokens.kseq(), str_vals(&self.tokens), url@, 0)
                == Some(h@),
            r is None ==> auth_from(self.tokens.kseq(), str_vals(&self.tokens), url@, 0) is None,
    {
        let ghost ks = self.tokens.kseq();
        let ghost vs = str_vals(&self.tokens);
        let url_without_proto = str_chars(strip_protocol(url));
        let slashes = str_chars("//");
        let mut i: usize = 0;
        while i < self.tokens.len()
            invariant
                i <= ks.len(),
                ks == self.tokens.kseq(),
                vs == str_vals(&self.tokens),
                url_without_proto@ == strip_protocol_spec(url@),
                slashes@ == "//"@,
                auth_from(ks, vs, url@, 0) == auth_from(ks, vs, url@, i as int),
            decreases ks.len() - i,
        {
            let prefix = str_chars(self.tokens.key_at(i).as_str());
            let trimmed = trim_leading_exec(&prefix, &slashes);
            if chars_starts_with(&url_without_proto, &trimmed) {
                let token = self.tokens.value_at(i);
                let mut h = owned("Bearer ");
                push_str(&mut h, token.as_str());
                proof {
                    self.tokens.lemma_sizes();
                    assert(vs[i as int] == token@);
                    assert(token_applies(ks[i as int], url@));
                }
                return Some(h);
            }
            i += 1;
        }
        None
    }
}

/// Extract scope from a package name (e.g., "@myorg/pkg" → "@myorg")
pub fn extract_scope(name: &str) -> (r: Option<&str>)
    ensures
        r matches Some(s) ==> scope_of(name@) == Some(s@),
        r is None ==> scope_of(name@) is None,
{
    let v = str_chars(name);
    if v.len() > 0 && v[0] == '@' {
        match find_char(&v, '/') {
            Some(pos) => {
                proof {
                    lemma_first_char_index(v@, '/', pos as int);
                }
                Some(name.substring_char(0, pos))
            },
            None => None,
        }
    } else {
        None
    }
}

/// Strip protocol prefix from URL
pub fn strip_protocol(url: &str) -> (r: &str)
    ensures
        r@ == strip_protocol_spec(url@),
{
    let v = str_chars(url);
    let https = str_chars("https://");
    let http = str_chars("http://");
    if chars_starts_with(&v, &https) {
        url.substring_char(https.len(), v.len())
    } else if chars_starts_with(&v, &http) {
        url.substring_char(http.len(), v.len())
    } else {
        url
    }
}

/// `str::trim_start_matches(p)` on char vectors.
pub fn trim_leading_exec(s: &Vec<char>, p: &Vec<char>) -> (r: Vec<char>)
    ensures
        r@ == trim_leading(s@, p@),
{
    let mut start: usize = 0;
    assert(s@.skip(0) =~= s@);
    while p.len() > 0 && start <= s.len() && starts_at(s, p, start)
        invariant
            start <= s.len(),
            trim_leading(s@, p@) == trim_leading(s@.skip(start as int), p@),
        decreases s.len() - start,
    {
        assert(s@.skip(start as int).skip(p@.len() as int) =~= s@.skip(start + p@.len()));
        start = start + p.len();
    }
    let mut r: Vec<char> = Vec::new();
    let mut i: usize = start;
    while i < s.len()
        invariant
            start <= i <= s.len(),
            r@ == s@.subrange(start as int, i as int),
        decreases s.len() - i,
    {
        r.push(s[i]);
        assert(s@.subrange(start as int, i as int).push(s@[i as int]) =~= s@.subrange(start as int, i + 1));
        i += 1;
    }
    assert(s@.subrange(start as int, s@.len() as int) =~= s@.skip(start as int));
    r
}

fn starts_at(s: &Vec<char>, p: &Vec<char>, start: usize) -> (b: bool)
    requires
        start <= s.len(),
    ensures
        b == p@.is_prefix_of(s@.skip(start as int)),
        b ==> start + p.len() <= s.len(),
{
    if p.len() > s.len() - start {
        return false;
    }
    let mut k: usize = 0;
    while k < p.len()
        invariant
            k <= p.len(),
            start + p.len() <= s.len(),
            forall|j: int| 0 <= j < k ==> s@[start + j] == p@[j],
        decreases p.len() - k,
    {
        if s[start + k] != p[k] {
            assert(s@.skip(start as int)[k as int] == s@[start + k]);
            return false;
        }
        k += 1;
    }
    assert(p@ =~= s@.skip(start as int).subrange(0, p@.len() as int));
    true
}

/// Build a RegistryConfig from parsed .npmrc key-value pairs:
/// - `registry` sets the default registry;
/// - `always-auth` is on when its value is `true`;
/// - `@scope:registry` sets the registry of `@scope`;
/// - `<prefix>:_authToken` sets the token for `<prefix>`.
pub fn config_from_entries(entries: &StrMap<String>) -> (c: RegistryConfig)
    ensures
        c.default_url@ == (match entries.lookup("registry"@) {
            Some(v) => v@,
            None => Seq::<char>::empty(),
        }),
        c.always_auth == (entries.lookup("always-auth"@) matches Some(v) && v@ == "true"@),
        forall|s: Seq<char>|
            #[trigger] c.scoped.lookup(s) == (if s.len() > 0 && s[0] == '@' {
                entries.lookup(s + ":registry"@)
            } else {
                None
            }),
        forall|p: Seq<char>| #[trigger] c.tokens.lookup(p) == entries.lookup(p + ":_authToken"@),
{
    let mut config = RegistryConfig::default();
    let registry = str_chars("registry");
    let always = str_chars("always-auth");
    let truev = str_chars("true");
    let reg_suffix = str_chars(":registry");
    let tok_suffix = str_chars(":_authToken");
    proof {
        reveal_strlit(":registry");
        reveal_strlit("registry");
        reveal_strlit(":_authToken");
        reveal_strlit("always-auth");
        entries.lemma_sizes();
    }
    entries.keys_sorted();
    let ghost ks = entries.kseq();
    let mut i: usize = 0;
    while i < entries.len()
        invariant
            i <= ks.len(),
            ks == entries.kseq(),
            sorted_keys(ks),
            registry@ == "registry"@,
            always@ == "always-auth"@,
            truev@ == "true"@,
            reg_suffix@ == ":registry"@,
            tok_suffix@ == ":_authToken"@,
            ":registry"@ == seq![':', 'r', 'e', 'g', 'i', 's', 't', 'r', 'y'],
            "registry"@ == seq!['r', 'e', 'g', 'i', 's', 't', 'r', 'y'],
            ":_authToken"@ == seq![':', '_', 'a', 'u', 't', 'h', 'T', 'o', 'k', 'e', 'n'],
            "always-auth"@ == seq!['a', 'l', 'w', 'a', 'y', 's', '-', 'a', 'u', 't', 'h'],
            config.default_url@ == (match entries.lookup_within("registry"@, i as int) {
                Some(v) => v@,
                None => Seq::<char>::empty(),
            }),
            config.always_auth == (entries.lookup_within("always-auth"@, i as int) matches Some(v)
                && v@ == "true"@),
            forall|s: Seq<char>|
                #[trigger] config.scoped.lookup(s) == (if s.len() > 0 && s[0] == '@' {
                    entries.lookup_within(s + ":registry"@, i as int)
                } else {
                    None
                }),
            forall|p: Seq<char>|
                #[trigger] config.tokens.lookup(p) == entries.lookup_within(
                    p + ":_authToken"@,
                    i as int,
                ),
        decreases ks.len() - i,
    {
        let key = str_chars(entries.key_at(i).as_str());
        let value: &String = entries.value_at(i);
        let ghost k = ks[i as int];
        let ghost v = entries.vseq()[i as int];
        proof {
            entries.lemma_lookup_within_step("registry"@, i as int);
            entries.lemma_lookup_within_step("always-auth"@, i as int);
        }
        if chars_eq(&key, &registry) {
            config.default_url = value.clone();
            proof {
                assert forall|s: Seq<char>|
                    #[trigger] config.scoped.lookup(s) == (if s.len() > 0 && s[0] == '@' {
                        entries.lookup_within(s + ":registry"@, i + 1)
                    } else {
                        None
                    }) by {
                    entries.lemma_lookup_within_step(s + ":registry"@, i as int);
                    if s + ":registry"@ == k {
                        assert((s + ":registry"@).len() > 8);
                    }
                }
                assert forall|p: Seq<char>|
                    #[trigger] config.tokens.lookup(p) == entries.lookup_within(
                        p + ":_authToken"@,
                        i + 1,
                    ) by {
                    entries.lemma_lookup_within_step(p + ":_authToken"@, i as int);
                    if p + ":_authToken"@ == k {
                        assert((p + ":_authToken"@).len() > 8);
                    }
                }
            }
        } else if chars_eq(&key, &always) {
            let vv = str_chars(value.as_str());
            config.always_auth = chars_eq(&vv, &truev);
            proof {
                assert forall|s: Seq<char>|
                    #[trigger] config.scoped.lookup(s) == (if s.len() > 0 && s[0] == '@' {
                        entries.lookup_within(s + ":registry"@, i + 1)
                    } else {
                        None
                    }) by {
                    entries.lemma_lookup_within_step(s + ":registry"@, i as int);
                    if s + ":registry"@ == k {
                        assert((s + ":registry"@)[(s + ":registry"@).len() - 1] == 'y');
                    }
                }
                assert forall|p: Seq<char>|
                    #[trigger] config.tokens.lookup(p) == entries.lookup_within(
                        p + ":_authToken"@,
                        i + 1,
                    ) by {
                    entries.lemma_lookup_within_step(p + ":_authToken"@, i as int);
                    if p + ":_authToken"@ == k {
                        assert((p + ":_authToken"@)[(p + ":_authToken"@).len() - 1] == 'n');
                        assert(k[k.len() - 1] == 'h');
                    }
                }
            }
        } else if chars_ends_with(&key, &reg_suffix) && key.len() > 0 && key[0] == '@' {
            let n = key.len() - reg_suffix.len();
            let scope = chars_sub(&key, 0, n);
            let ghost sc = scope@;
            proof {
                assert(sc + ":registry"@ =~= k);
            }
            config.scoped.insert(scope, value.clone());
            proof {
                assert forall|s: Seq<char>|
                    #[trigger] config.scoped.lookup(s) == (if s.len() > 0 && s[0] == '@' {
                        entries.lookup_within(s + ":registry"@, i + 1)
                    } else {
                        None
                    }) by {
                    entries.lemma_lookup_within_step(s + ":registry"@, i as int);
                    if s != sc {
                        if s + ":registry"@ == k {
                            assert(s =~= (s + ":registry"@).take(s.len() as int));
                            assert(sc =~= k.take(sc.len() as int));
                        }
                    } else {
                        assert(sc[0] == k[0]);
                    }
                }
                assert forall|p: Seq<char>|
                    #[trigger] config.tokens.lookup(p) == entries.lookup_within(
                        p + ":_authToken"@,
                        i + 1,
                    ) by {
                    entries.lemma_lookup_within_step(p + ":_authToken"@, i as int);
                    if p + ":_authToken"@ == k {
                        assert((p + ":_authToken"@)[(p + ":_authToken"@).len() - 1] == 'n');
                        assert(k[k.len() - 1] == 'y');
                    }
                }
            }
        } else if chars_ends_with(&key, &tok_suffix) {
            let n = key.len() - tok_suffix.len();
            let prefix = chars_sub(&key, 0, n);
            let ghost pf = prefix@;
            proof {
                assert(pf + ":_authToken"@ =~= k);
            }
            config.tokens.insert(prefix, value.clone());
            proof {
                assert forall|s: Seq<char>|
                    #[trigger] config.scoped.lookup(s) == (if s.len() > 0 && s[0] == '@' {
                        entries.lookup_within(s + ":registry"@, i + 1)
                    } else {
                        None
                    }) by {
                    entries.lemma_lookup_within_step(s + ":registry"@, i as int);
                    if s + ":registry"@ == k {
                        assert((s + ":registry"@)[(s + ":registry"@).len() - 1] == 'y');
                        assert(k[k.len() - 1] == 'n');
                    }
                }
                assert forall|p: Seq<char>|
                    #[trigger] config.tokens.lookup(p) == entries.lookup_within(
                        p + ":_authToken"@,
                        i + 1,
                    ) by {
                    entries.lemma_lookup_within_step(p + ":_authToken"@, i as int);
                    if p != pf && p + ":_authToken"@ == k {
                        assert(p =~= (p + ":_authToken"@).take(p.len() as int));
                        assert(pf =~= k.take(pf.len() as int));
                    }
                }
            }
        } else {
            proof {
                assert forall|s: Seq<char>|
                    #[trigger] config.scoped.lookup(s) == (if s.len() > 0 && s[0] == '@' {
                        entries.lookup_within(s + ":registry"@, i + 1)
                    } else {
                        None
                    }) by {
                    entries.lemma_lookup_within_step(s + ":registry"@, i as int);
                    if s.len() > 0 && s[0] == '@' && s + ":registry"@ == k {
                        assert(":registry"@.is_suffix_of(k)) by {
                            assert(k.subrange(k.len() - 9, k.len() as int) =~= ":registry"@);
                        }
                        assert(k[0] == '@');
                    }
                }
                assert forall|p: Seq<char>|
                    #[trigger] config.tokens.lookup(p) == entries.lookup_within(
                        p + ":_authToken"@,
                        i + 1,
                    ) by {
                    entries.lemma_lookup_within_step(p + ":_authToken"@, i as int);
                    if p + ":_authToken"@ == k {
                        assert(":_authToken"@.is_suffix_of(k)) by {
                            assert(k.subrange(k.len() - 11, k.len() as int) =~= ":_authToken"@);
                        }
                    }
                }
            }
        }
        i += 1;
    }
    proof {
        entries.lemma_lookup_within_all("registry"@);
        entries.lemma_lookup_within_all("always-auth"@);
        assert forall|s: Seq<char>|
            #[trigger] config.scoped.lookup(s) == (if s.len() > 0 && s[0] == '@' {
                entries.lookup(s + ":registry"@)
            } else {
                None
            }) by {
            entries.lemma_lookup_within_all(s + ":registry"@);
        }
        assert forall|p: Seq<char>| #[trigger] config.tokens.lookup(p) == entries.lookup(
            p + ":_authToken"@,
        ) by {
            entries.lemma_lookup_within_all(p + ":_authToken"@);
        }
    }
    config
}


// ---------------------------------------------------------------------------
// Parsing .npmrc
// ---------------------------------------------------------------------------

/// `${NAME}` references replaced by the environment's values, from `rest` on
/// (`whole` is the text being interpolated, for the error message).
pub open spec fn interp(rest: Seq<char>, whole: Seq<char>, env: StrMap<String>) -> Result<Seq<char>, Seq<char>>
    decreases rest.len(),
{
    if exists|i: int| #[trigger] first_occ_from(rest, "${"@, 0, i) {
        let start = choose|i: int| #[trigger] first_occ_from(rest, "${"@, 0, i);
        proof {
            reveal_strlit("${");
        }
        let after = rest.skip(start + 2);
        if !after.contains('}') {
            Err("error: malformed .npmrc — unclosed ${} in: "@ + whole)
        } else {
            let end = first_char_index(after, '}');
            let name = after.take(end);
            proof {
                lemma_first_char_index_bounds(after, '}');
            }
            match sview(env, name) {
                None => Err("error: .npmrc references undefined environment variable ${"@ + name + "}"@),
                Some(v) => match interp(after.skip(end + 1), whole, env) {
                    Ok(t) => Ok(rest.take(start) + v + t),
                    Err(e) => Err(e),
                },
            }
        }
    } else {
        Ok(rest)
    }
}

/// A line of .npmrc: nothing for a blank line, a comment (`#` or `;`) or a
/// line without `=`; else the key and value around the first `=`, trimmed
/// and interpolated.
pub open spec fn npmrc_line(line: Seq<char>, env: StrMap<String>) -> Option<Result<(Seq<char>, Seq<char>), Seq<char>>> {
    let l = trim(line);
    if l.len() == 0 || l[0] == '#' || l[0] == ';' || !l.contains('=') {
        None
    } else {
        let i = first_char_index(l, '=');
        let k = trim(l.take(i));
        let v = trim(l.skip(i + 1));
        match interp(k, k, env) {
            Err(e) => Some(Err(e)),
            Ok(k2) => match interp(v, v, env) {
                Err(e) => Some(Err(e)),
                Ok(v2) => Some(Ok((k2, v2))),
            },
        }
    }
}

/// The entries of the lines in order, or the first error.
pub open spec fn npmrc_pairs(ls: Seq<Seq<char>>, env: StrMap<String>) -> Result<Seq<(Seq<char>, Seq<char>)>, Seq<char>>
    decreases ls.len(),
{
    if ls.len() == 0 {
        Ok(seq![])
    } else {
        match npmrc_pairs(ls.drop_last(), env) {
            Err(e) => Err(e),
            Ok(ps) => match npmrc_line(ls.last(), env) {
                None => Ok(ps),
                Some(Err(e)) => Err(e),
                Some(Ok(p)) => Ok(ps.push(p)),
            },
        }
    }
}

/// The value of the last entry with the key.
pub open spec fn last_value(ps: Seq<(Seq<char>, Seq<char>)>, k: Seq<char>) -> Option<Seq<char>>
    decreases ps.len(),
{
    if ps.len() == 0 {
        None
    } else if ps.last().0 == k {
        Some(ps.last().1)
    } else {
        last_value(ps.drop_last(), k)
    }
}

/// The first `c` at or after `start`.
fn find_char_from(v: &Vec<char>, c: char, start: usize) -> (r: Option<usize>)
    requires
        start <= v.len(),
    ensures
        r matches Some(i) ==> start <= i < v.len() && v@[i as int] == c && forall|j: int| start <= j < i ==> v@[j] != c,
        r is None ==> forall|j: int| start <= j < v.len() ==> v@[j] != c,
{
    let mut q: usize = start;
    while q < v.len()
        invariant
            start <= q <= v.len(),
            forall|j: int| start <= j < q ==> v@[j] != c,
        decreases v.len() - q,
    {
        if v[q] == c {
            return Some(q);
        }
        q += 1;
    }
    None
}

fn interpolate_env_vars(value: &str, env: &StrMap<String>) -> (r: Result<String, String>)
    ensures
        match r {
            Ok(s) => interp(value@, value@, *env) == Ok::<Seq<char>, Seq<char>>(s@),
            Err(e) => interp(value@, value@, *env) == Err::<Seq<char>, Seq<char>>(e@),
        },
{
    let v = str_chars(value);
    let open = str_chars("${");
    proof {
        reveal_strlit("${");
    }
    let mut result = String::new();
    let mut pos: usize = 0;
    proof {
        assert(v@.skip(0) =~= v@);
        assert(result@ + v@ =~= v@);
    }
    loop
        invariant
            pos <= v.len(),
            v@ == value@,
            open@ == "${"@,
            "${"@ == seq!['$', '{'],
            forall|t: Seq<char>| interp(v@.skip(pos as int), value@, *env) == Ok::<Seq<char>, Seq<char>>(t)
                ==> interp(value@, value@, *env) == Ok::<Seq<char>, Seq<char>>(result@ + t),
            forall|e: Seq<char>| interp(v@.skip(pos as int), value@, *env) == Err::<Seq<char>, Seq<char>>(e)
                ==> interp(value@, value@, *env) == Err::<Seq<char>, Seq<char>>(e),
        decreases v.len() - pos,
    {
        let ghost rest = v@.skip(pos as int);
        let found = find_sub_from(&v, &open, pos);
        match found {
            None => {
                proof {
                    assert forall|i: int| !#[trigger] first_occ_from(rest, "${"@, 0, i) by {
                        if first_occ_from(rest, "${"@, 0, i) {
                            assert(rest.subrange(i, i + 2) =~= v@.subrange(pos + i, pos + i + 2));
                            assert(crate::text::occurs_at(v@, open@, pos + i));
                        }
                    }
                }
                let tail = crate::text::chars_sub(&v, pos, v.len());
                assert(tail@ =~= rest);
                push_str(&mut result, tail.as_str());
                return Ok(result);
            },
            Some(start) => {
                let ghost s0 = (start - pos) as int;
                proof {
                    assert(first_occ_from(rest, "${"@, 0, s0)) by {
                        assert(rest.subrange(s0, s0 + 2) =~= v@.subrange(start as int, start + 2));
                        assert forall|j: int| 0 <= j < s0 implies !crate::text::occurs_at(rest, "${"@, j) by {
                            if crate::text::occurs_at(rest, "${"@, j) {
                                assert(rest.subrange(j, j + 2) =~= v@.subrange(pos + j, pos + j + 2));
                                assert(crate::text::occurs_at(v@, open@, pos + j));
                            }
                        }
                    }
                    let c = choose|i: int| #[trigger] first_occ_from(rest, "${"@, 0, i);
                    crate::text::lemma_first_occ_unique(rest, "${"@, 0, s0, c);
                }
                let after_start = start + 2;
                let ghost after = rest.skip(s0 + 2);
                proof {
                    assert(after =~= v@.skip(after_start as int));
                }
                let end_opt = find_char_from(&v, '}', after_start);
                match end_opt {
                    None => {
                        proof {
                            assert forall|j: int| 0 <= j < after.len() implies after[j] != '}' by {
                                assert(after[j] == v@[after_start + j]);
                            }
                        }
                        let mut e = String::from_str("error: malformed .npmrc — unclosed ${} in: ");
                        push_str(&mut e, value);
                        return Err(e);
                    },
                    Some(end) => {
                        let ghost e0 = (end - after_start) as int;
                        proof {
                            assert(after[e0] == '}');
                            assert forall|j: int| 0 <= j < e0 implies after[j] != '}' by {
                                assert(after[j] == v@[after_start + j]);
                            }
                            lemma_first_char_index(after, '}', e0);
                        }
                        let name = crate::text::chars_sub(&v, after_start, end);
                        assert(name@ =~= after.take(e0));
                        match env.get(name.as_str()) {
                            None => {
                                let mut e = String::from_str("error: .npmrc references undefined environment variable ${");
                                push_str(&mut e, name.as_str());
                                push_str(&mut e, "}");
                                return Err(e);
                            },
                            Some(val) => {
                                let pre = crate::text::chars_sub(&v, pos, start);
                                assert(pre@ =~= rest.take(s0));
                                let ghost r0 = result@;
                                push_str(&mut result, pre.as_str());
                                push_str(&mut result, val.as_str());
                                proof {
                                    assert(after.skip(e0 + 1) =~= v@.skip(end + 1));
                                    assert forall|t: Seq<char>| interp(v@.skip(end + 1), value@, *env) == Ok::<Seq<char>, Seq<char>>(t)
                                        implies interp(value@, value@, *env) == Ok::<Seq<char>, Seq<char>>(result@ + t) by {
                                        assert(interp(rest, value@, *env) == Ok::<Seq<char>, Seq<char>>(rest.take(s0) + val@ + t));
                                        assert(r0 + (rest.take(s0) + val@ + t) =~= result@ + t);
                                    }
                                }
                                pos = end + 1;
                            },
                        }
                    },
                }
            },
        }
    }
}

fn parse_line(line: &str, env: &StrMap<String>) -> (r: Option<Result<(String, String), String>>)
    ensures
        match r {
            None => npmrc_line(line@, *env) is None,
            Some(Ok(p)) => npmrc_line(line@, *env) == Some(Ok::<(Seq<char>, Seq<char>), Seq<char>>((p.0@, p.1@))),
            Some(Err(e)) => npmrc_line(line@, *env) == Some(Err::<(Seq<char>, Seq<char>), Seq<char>>(e@)),
        },
{
    let t = str_trim(line);
    let v = str_chars(t.as_str());
    if v.len() == 0 || v[0] == '#' || v[0] == ';' {
        return None;
    }
    match find_char(&v, '=') {
        None => None,
        Some(i) => {
            proof {
                lemma_first_char_index(v@, '=', i as int);
            }
            let k_raw = crate::text::chars_sub(&v, 0, i);
            let v_raw = crate::text::chars_sub(&v, i + 1, v.len());
            assert(k_raw@ =~= v@.take(i as int));
            assert(v_raw@ =~= v@.skip(i + 1));
            let k = str_trim(k_raw.as_str());
            let val = str_trim(v_raw.as_str());
            match interpolate_env_vars(k.as_str(), env) {
                Err(e) => Some(Err(e)),
                Ok(k2) => match interpolate_env_vars(val.as_str(), env) {
                    Err(e) => Some(Err(e)),
                    Ok(v2) => Some(Ok((k2, v2))),
                },
            }
        },
    }
}

/// Parses the text of an .npmrc into its entries, `${NAME}` references taken
/// from `env`; where a key occurs on several lines the last one counts.
pub fn parse_npmrc_with_env(content: &str, env: &StrMap<String>) -> (r: Result<StrMap<String>, String>)
    ensures
        match npmrc_pairs(lines(content@), *env) {
            Err(e) => r matches Err(m) && m@ == e,
            Ok(ps) => r matches Ok(m) && forall|k: Seq<char>| #[trigger] sview(m, k) == last_value(ps, k),
        },
{
    let ls = str_lines(content);
    let ghost lv = ls@.map_values(|l: String| l@);
    let mut entries: StrMap<String> = StrMap::new();
    let ghost mut ps: Seq<(Seq<char>, Seq<char>)> = seq![];
    let mut i: usize = 0;
    proof {
        assert(lv.take(0) =~= Seq::<Seq<char>>::empty());
    }
    while i < ls.len()
        invariant
            i <= ls.len(),
            lv == ls@.map_values(|l: String| l@),
            lv == lines(content@),
            npmrc_pairs(lv.take(i as int), *env) == Ok::<Seq<(Seq<char>, Seq<char>)>, Seq<char>>(ps),
            forall|k: Seq<char>| #[trigger] sview(entries, k) == last_value(ps, k),
        decreases ls.len() - i,
    {
        proof {
            assert(lv.take(i + 1).drop_last() =~= lv.take(i as int));
            assert(lv.take(i + 1).last() == ls@[i as int]@);
        }
        match parse_line(ls[i].as_str(), env) {
            None => {},
            Some(Err(e)) => {
                proof {
                    lemma_pairs_err(lv, *env, i as int + 1);
                }
                return Err(e);
            },
            Some(Ok((k, v))) => {
                let ghost kv = (k@, v@);
                let ghost before = entries;
                entries.insert(k, v);
                proof {
                    let old_ps = ps;
                    ps = ps.push(kv);
                    assert forall|x: Seq<char>| #[trigger] sview(entries, x) == last_value(ps, x) by {
                        assert(ps.drop_last() =~= old_ps);
                        if x != kv.0 {
                            assert(sview(entries, x) == sview(before, x));
                        }
                    }
                }
            },
        }
        i += 1;
    }
    proof {
        assert(lv.take(ls.len() as int) =~= lv);
    }
    Ok(entries)
}

proof fn lemma_pairs_err(ls: Seq<Seq<char>>, env: StrMap<String>, n: int)
    requires
        0 <= n <= ls.len(),
        npmrc_pairs(ls.take(n), env) is Err,
    ensures
        npmrc_pairs(ls, env) == npmrc_pairs(ls.take(n), env),
    decreases ls.len() - n,
{
    if n < ls.len() {
        assert(ls.take(n + 1).drop_last() =~= ls.take(n));
        lemma_pairs_err(ls, env, n + 1);
    } else {
        assert(ls.take(n) =~= ls);
    }
}


/// A package's registry: a scoped name `@scope/rest` whose scope has its own
/// registry uses that registry, whatever the default registry is; a name
/// that is not scoped, or whose scope has no registry of its own, uses the
/// default registry, or `https://registry.npmjs.org` when none is set.
pub proof fn law_registry_for_package(c: &RegistryConfig, scope: Seq<char>, rest: Seq<char>, name: Seq<char>)
    ensures
        scope.len() > 0 && scope[0] == '@' && !scope.contains('/') && c.scoped.has(scope) ==> registry_url_spec(
            c,
            scope + seq!['/'] + rest,
        ) == c.scoped.lookup(scope).unwrap()@,
        scope.len() > 0 && scope[0] == '@' && !scope.contains('/') && !c.scoped.has(scope) ==> registry_url_spec(
            c,
            scope + seq!['/'] + rest,
        ) == (if c.default_url@.len() == 0 {
            "https://registry.npmjs.org"@
        } else {
            c.default_url@
        }),
        (name.len() == 0 || name[0] != '@') ==> registry_url_spec(c, name) == (if c.default_url@.len() == 0 {
            "https://registry.npmjs.org"@
        } else {
            c.default_url@
        }),
{
    let n = scope + seq!['/'] + rest;
    if scope.len() > 0 && scope[0] == '@' && !scope.contains('/') {
        assert(n[scope.len() as int] == '/');
        assert forall|j: int| 0 <= j < scope.len() implies n[j] != '/' by {
            assert(n[j] == scope[j]);
            if scope[j] == '/' {
                assert(scope.contains('/'));
            }
        }
        assert(first_char(n, '/', scope.len() as int));
        lemma_first_char_index(n, '/', scope.len() as int);
        assert(n.contains('/'));
        assert(n[0] == '@');
        assert(n.take(scope.len() as int) =~= scope);
        assert(scope_of(n) == Some(scope));
    }
}


proof fn lemma_auth_from(ks: Seq<Seq<char>>, vs: Seq<Seq<char>>, url: Seq<char>, i: int)
    requires
        0 <= i <= ks.len(),
    ensures
        auth_from(ks, vs, url, i) is None <==> forall|j: int| i <= j < ks.len() ==> !token_applies(#[trigger] ks[j], url),
        forall|j: int|
            i <= j < ks.len() && token_applies(#[trigger] ks[j], url) && (forall|m: int|
                i <= m < j ==> !token_applies(#[trigger] ks[m], url)) ==> auth_from(ks, vs, url, i) == Some(
                "Bearer "@ + vs[j],
            ),
    decreases ks.len() - i,
{
    if i < ks.len() {
        lemma_auth_from(ks, vs, url, i + 1);
        if !token_applies(ks[i], url) {
            assert forall|j: int|
                i <= j < ks.len() && token_applies(#[trigger] ks[j], url) && (forall|m: int|
                    i <= m < j ==> !token_applies(#[trigger] ks[m], url)) implies auth_from(ks, vs, url, i) == Some(
                "Bearer "@ + vs[j],
            ) by {
                assert(j != i);
                assert forall|m: int| i + 1 <= m < j implies !token_applies(#[trigger] ks[m], url) by {}
            }
        } else {
            assert forall|j: int|
                i <= j < ks.len() && token_applies(#[trigger] ks[j], url) && (forall|m: int|
                    i <= m < j ==> !token_applies(#[trigger] ks[m], url)) implies auth_from(ks, vs, url, i) == Some(
                "Bearer "@ + vs[j],
            ) by {
                if j > i {
                    assert(!token_applies(ks[i], url));
                }
            }
        }
    }
}

/// The auth header for a URL: the token of the first `.npmrc` entry, in key
/// order, whose prefix (without its leading `//`) starts the URL without its
/// protocol, as `Bearer <token>`; none exactly when no entry applies. An
/// entry `//host/path` applies to `https://host/path...` and
/// `http://host/path...`.
pub proof fn law_auth_header(ks: Seq<Seq<char>>, vs: Seq<Seq<char>>, url: Seq<char>, h: Seq<char>, rest: Seq<char>)
    ensures
        auth_from(ks, vs, url, 0) is None <==> forall|j: int| 0 <= j < ks.len() ==> !token_applies(#[trigger] ks[j], url),
        forall|j: int|
            0 <= j < ks.len() && token_applies(#[trigger] ks[j], url) && (forall|m: int|
                0 <= m < j ==> !token_applies(#[trigger] ks[m], url)) ==> auth_from(ks, vs, url, 0) == Some(
                "Bearer "@ + vs[j],
            ),
        (h.len() == 0 || h[0] != '/') ==> token_applies("//"@ + h, "https://"@ + h + rest) && token_applies(
            "//"@ + h,
            "http://"@ + h + rest,
        ),
{
    lemma_auth_from(ks, vs, url, 0);
    if h.len() == 0 || h[0] != '/' {
        reveal_strlit("//");
        reveal_strlit("https://");
        reveal_strlit("http://");
        let p = "//"@ + h;
        assert(p.skip(2) =~= h);
        assert("//"@.is_prefix_of(p));
        assert(!"//"@.is_prefix_of(h)) by {
            if h.len() > 0 {
                assert(h[0] != "//"@[0]);
            }
        }
        assert(trim_leading(h, "//"@) == h);
        assert(trim_leading(p, "//"@) == trim_leading(p.skip(2), "//"@));
        let u1 = "https://"@ + h + rest;
        assert("https://"@.is_prefix_of(u1));
        assert(u1.skip(8) =~= h + rest);
        assert(h.is_prefix_of(h + rest));
        let u2 = "http://"@ + h + rest;
        assert("http://"@.is_prefix_of(u2));
        assert(!"https://"@.is_prefix_of(u2)) by {
            assert(u2[4] == ':');
        }
        assert(u2.skip(7) =~= h + rest);
    }
}


proof fn lemma_interp_plain(t: Seq<char>, whole: Seq<char>, env: StrMap<String>)
    requires
        !t.contains('$'),
    ensures
        interp(t, whole, env) == Ok::<Seq<char>, Seq<char>>(t),
{
    reveal_strlit("${");
    assert forall|i: int| !#[trigger] first_occ_from(t, "${"@, 0, i) by {
        if first_occ_from(t, "${"@, 0, i) {
            assert(t.subrange(i, i + 2)[0] == '$');
            assert(t[i] == '$');
        }
    }
}

/// A line of `.npmrc`: a blank line, a comment (`#` or `;` first) or a line
/// without `=` gives no entry; a line `key=value` gives the entry `key` →
/// `value`, split at the first `=`, for a key and value without `${`
/// references and without surrounding blanks.
pub proof fn law_npmrc_line(line: Seq<char>, env: StrMap<String>, k: Seq<char>, v: Seq<char>)
    ensures
        trim(line).len() == 0 || trim(line)[0] == '#' || trim(line)[0] == ';' || !trim(line).contains('=')
            ==> npmrc_line(line, env) is None,
        line == k + seq!['='] + v && trim(line) == line && trim(k) == k && trim(v) == v && k.len() > 0 && k[0] != '#'
            && k[0] != ';' && !k.contains('=') && !k.contains('$') && !v.contains('$') ==> npmrc_line(line, env)
            == Some(Ok::<(Seq<char>, Seq<char>), Seq<char>>((k, v))),
{
    if line == k + seq!['='] + v && trim(line) == line && trim(k) == k && trim(v) == v && k.len() > 0 && k[0]
        != '#' && k[0] != ';' && !k.contains('=') && !k.contains('$') && !v.contains('$') {
        assert(line[k.len() as int] == '=');
        assert forall|j: int| 0 <= j < k.len() implies line[j] != '=' by {
            assert(line[j] == k[j]);
            if k[j] == '=' {
                assert(k.contains('='));
            }
        }
        assert(first_char(line, '=', k.len() as int));
        lemma_first_char_index(line, '=', k.len() as int);
        assert(line.contains('='));
        assert(line[0] == k[0]);
        assert(line.take(k.len() as int) =~= k);
        assert(line.skip(k.len() as int + 1) =~= v);
        lemma_interp_plain(k, k, env);
        lemma_interp_plain(v, v, env);
    }
}


/// Stripping the protocol removes a leading `https://` or `http://` and
/// leaves any other URL as it is.
pub proof fn law_strip_protocol(rest: Seq<char>, url: Seq<char>)
    ensures
        strip_protocol_spec("https://"@ + rest) == rest,
        strip_protocol_spec("http://"@ + rest) == rest,
        !"https://"@.is_prefix_of(url) && !"http://"@.is_prefix_of(url) ==> strip_protocol_spec(url) == url,
{
    reveal_strlit("https://");
    reveal_strlit("http://");
    let a = "https://"@ + rest;
    assert(a.subrange(0, 8) =~= "https://"@);
    assert(a.skip(8) =~= rest);
    let b = "http://"@ + rest;
    assert(b.subrange(0, 7) =~= "http://"@);
    assert(b.skip(7) =~= rest);
    assert(!"https://"@.is_prefix_of(b)) by {
        if "https://"@.is_prefix_of(b) {
            assert(b[4] == "https://"@[4]);
        }
    }
}

} // verus!
