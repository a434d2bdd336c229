//! Dependency overrides (`"overrides"` in package.json): parsing and matching.

use vstd::prelude::*;
use crate::pm::semver::{
    range_parses, range_satisfies, semver_range_parses, semver_satisfies, semver_version_parses,
    version_parses,
};
use crate::json_value::{jget, jv, jv_members, lemma_members_index, object_get, JsonValue, JV};
use crate::pm::commands::sview;
use crate::pm::config::last_value;
use crate::smap::StrMap;
use crate::text::{
    chars_eq, contains_sub, has_char, join, join_strings, owned, push_char, push_str, replace_char,
    replace_char_str, str_chars, str_contains, str_eq,
};

verus! {

/// A single override rule parsed from package.json "overrides" field
#[derive(Debug, Clone, PartialEq, Eq)]
pub struct OverrideRule {
    /// Path from root: ["express", "body-parser"] for "express>body-parser>qs"
    pub parent_path: Vec<String>,
    /// Target package name: "qs"
    pub target: String,
    /// Forced version: "6.11.0" (already resolved from $name if applicable)
    pub version: String,
}

/// A rule as plain values: (parent path, target, version).
pub type RuleV = (Seq<Seq<char>>, Seq<char>, Seq<char>);

/// The views of a sequence of strings.
pub open spec fn strs(v: Seq<String>) -> Seq<Seq<char>> {
    v.map_values(|s: String| s@)
}

/// The plain value of a rule.
pub open spec fn rule_view(r: OverrideRule) -> RuleV {
    (strs(r.parent_path@), r.target@, r.version@)
}

/// The plain values of rules.
pub open spec fn rules_view(rs: Seq<OverrideRule>) -> Seq<RuleV> {
    rs.map_values(|r: OverrideRule| rule_view(r))
}

/// Collection of parsed override rules, ordered by specificity
#[derive(Debug, Clone)]
pub struct OverrideMap {
    /// All parsed override rules, ordered by specificity (longer path = more specific)
    pub rules: Vec<OverrideRule>,
}

impl Default for OverrideMap {
    fn default() -> (m: Self)
        ensures
            m.rules@.len() == 0,
    {
        OverrideMap { rules: Vec::new() }
    }
}

/// Whether `rule` applies to `dep` under the parent chain `chain`:
/// same target, and a parent path that is empty or a suffix of the chain.
pub open spec fn rule_applies(rule: RuleV, dep: Seq<char>, chain: Seq<Seq<char>>) -> bool {
    rule.1 == dep && (rule.0.len() == 0 || rule.0.is_suffix_of(chain))
}

/// The index of the chosen rule among the first `n` rules: scanning in
/// order, a global rule is taken while the best so far is global (or none),
/// a scoped rule is taken when none is chosen or its path is strictly
/// longer than the chosen one's.
pub open spec fn best_rule(rules: Seq<RuleV>, dep: Seq<char>, chain: Seq<Seq<char>>, n: int) -> Option<
    int,
>
    decreases n,
{
    if n <= 0 || n > rules.len() {
        None
    } else {
        let b = best_rule(rules, dep, chain, n - 1);
        let r = rules[n - 1];
        if r.1 != dep {
            b
        } else if r.0.len() == 0 {
            match b {
                None => Some(n - 1),
                Some(j) => if rules[j].0.len() == 0 {
                    Some(n - 1)
                } else {
                    b
                },
            }
        } else if r.0.is_suffix_of(chain) {
            match b {
                None => Some(n - 1),
                Some(j) => if r.0.len() > rules[j].0.len() {
                    Some(n - 1)
                } else {
                    b
                },
            }
        } else {
            b
        }
    }
}

/// A chosen rule applies, and no applying rule among the first `n` has a
/// longer parent path; when none is chosen, none applies.
pub proof fn lemma_best_rule(rules: Seq<RuleV>, dep: Seq<char>, chain: Seq<Seq<char>>, n: int)
    requires
        0 <= n <= rules.len(),
    ensures
        best_rule(rules, dep, chain, n) matches Some(j) ==> 0 <= j < n && rule_applies(
            rules[j],
            dep,
            chain,
        ) && forall|i: int|
            0 <= i < n && rule_applies(rules[i], dep, chain) ==> rules[i].0.len() <= rules[j].0.len(),
        best_rule(rules, dep, chain, n) is None ==> forall|i: int|
            0 <= i < n ==> !rule_applies(rules[i], dep, chain),
    decreases n,
{
    if n > 0 {
        lemma_best_rule(rules, dep, chain, n - 1);
    }
}

/// Overrides pick the most specific applicable rule: the rule that
/// `find_override` uses applies to the dependency, and no applicable rule
/// has a longer parent path; when it finds none, no rule applies.
pub proof fn law_most_specific_override(m: OverrideMap, dep: Seq<char>, chain: Seq<Seq<char>>)
    ensures
        best_rule(rules_view(m.rules@), dep, chain, m.rules@.len() as int) matches Some(j) ==> (
        rule_applies(rules_view(m.rules@)[j], dep, chain) && forall|i: int|
            0 <= i < m.rules@.len() && rule_applies(rules_view(m.rules@)[i], dep, chain)
                ==> rules_view(m.rules@)[i].0.len() <= rules_view(m.rules@)[j].0.len()),
        best_rule(rules_view(m.rules@), dep, chain, m.rules@.len() as int) is None ==> forall|i: int|
            0 <= i < m.rules@.len() ==> !rule_applies(rules_view(m.rules@)[i], dep, chain),
{
    lemma_best_rule(rules_view(m.rules@), dep, chain, m.rules@.len() as int);
}

impl OverrideMap {
    pub fn is_empty(&self) -> (b: bool)
        ensures
            b == (self.rules@.len() == 0),
    {
        self.rules.len() == 0
    }

    /// Find the most specific override for a package given the current parent chain.
    /// Returns the forced version string if an override matches.
    pub fn find_override(&self, dep_name: &str, parent_chain: &[String]) -> (r: Option<&str>)
        ensures
            r matches Some(v) ==> best_rule(
                rules_view(self.rules@),
                dep_name@,
                strs(parent_chain@),
                self.rules@.len() as int,
            ) matches Some(j) && v@ == self.rules@[j].version@,
            r is None ==> best_rule(
                rules_view(self.rules@),
                dep_name@,
                strs(parent_chain@),
                self.rules@.len() as int,
            ) is None,
    {
        let ghost rv = rules_view(self.rules@);
        let ghost chain = strs(parent_chain@);
        let mut best: Option<usize> = None;
        let mut i: usize = 0;
        while i < self.rules.len()
            invariant
                i <= self.rules@.len(),
                rv == rules_view(self.rules@),
                chain == strs(parent_chain@),
                best matches Some(b) ==> b < i,
                best_rule(rv, dep_name@, chain, i as int) == (match best {
                    Some(b) => Some(b as int),
                    None => None,
                }),
            decreases self.rules.len() - i,
        {
            let rule = &self.rules[i];
            assert(rv[i as int] == rule_view(*rule));
            if !str_eq(rule.target.as_str(), dep_name) {
            } else if rule.parent_path.len() == 0 {
                match best {
                    None => {
                        best = Some(i);
                    },
                    Some(b) => {
                        assert(rv[b as int] == rule_view(self.rules@[b as int]));
                        if self.rules[b].parent_path.len() == 0 {
                            best = Some(i);
                        }
                    },
                }
            } else if is_suffix_match(rule.parent_path.as_slice(), parent_chain) {
                match best {
                    None => {
                        best = Some(i);
                    },
                    Some(b) => {
                        assert(rv[b as int] == rule_view(self.rules@[b as int]));
                        if rule.parent_path.len() > self.rules[b].parent_path.len() {
                            best = Some(i);
                        }
                    },
                }
            }
            i += 1;
        }
        match best {
            Some(b) => Some(self.rules[b].version.as_str()),
            None => None,
        }
    }
}

/// Check if `path` is a suffix of `chain`.
/// e.g., ["body-parser"] is a suffix of ["express", "body-parser"]
/// e.g., ["express", "body-parser"] is a suffix of ["express", "body-parser"]
pub fn is_suffix_match(path: &[String], chain: &[String]) -> (b: bool)
    ensures
        b == strs(path@).is_suffix_of(strs(chain@)),
{
    if path.len() > chain.len() {
        return false;
    }
    let offset = chain.len() - path.len();
    let mut j: usize = offset;
    while j < chain.len()
        invariant
            offset <= j <= chain@.len(),
            offset + path@.len() == chain@.len(),
            forall|q: int| 0 <= q < j - offset ==> path@[q]@ == chain@[offset + q]@,
        decreases chain.len() - j,
    {
        if !str_eq(path[j - offset].as_str(), chain[j].as_str()) {
            assert(strs(chain@).subrange(offset as int, chain@.len() as int)[j - offset]
                == chain@[j as int]@);
            return false;
        }
        j += 1;
    }
    assert(strs(path@) =~= strs(chain@).subrange(offset as int, chain@.len() as int));
    true
}

// ---------------------------------------------------------------------------
// Parsing
// ---------------------------------------------------------------------------

/// Splitting a pattern on `>` as far as the last char: the finished
/// segments and the current one.
pub open spec fn split_state(s: Seq<char>) -> (Seq<Seq<char>>, Seq<char>)
    decreases s.len(),
{
    if s.len() == 0 {
        (seq![], seq![])
    } else {
        let (segs, cur) = split_state(s.drop_last());
        let c = s.last();
        if c == '>' {
            if cur.len() > 0 {
                (segs.push(cur), seq![])
            } else {
                (segs, cur)
            }
        } else {
            (segs, cur.push(c))
        }
    }
}

/// The non-empty segments of a pattern split on `>`:
/// `"express>@org/parser>qs"` → `["express", "@org/parser", "qs"]`.
pub open spec fn split_segments(s: Seq<char>) -> Seq<Seq<char>> {
    let (segs, cur) = split_state(s);
    if cur.len() > 0 {
        segs.push(cur)
    } else {
        segs
    }
}

/// `error: invalid override pattern "<p>" — use "parent>child" format`
pub open spec fn err_format(p: Seq<char>) -> Seq<char> {
    "error: invalid override pattern \""@ + p + "\" — use \"parent>child\" format"@
}

/// The error for a segment holding `/` outside a scope.
pub open spec fn err_segment(p: Seq<char>, seg: Seq<char>) -> Seq<char> {
    "error: invalid override pattern \""@ + p + "\" — segment \""@ + seg
        + "\" contains \"/\". Use \">\" as the path separator"@
}

/// The error for a yarn-style glob.
pub open spec fn err_yarn() -> Seq<char> {
    "error: yarn-style resolution patterns not supported — use \"parent>child\" npm override syntax"@
}

/// The error for a yarn-style `/` separator.
pub open spec fn err_slash(p: Seq<char>) -> Seq<char> {
    "error: invalid override pattern \""@ + p
        + "\" — use \">\" as the path separator. Did you mean \""@ + replace_char(p, '/', ">"@)
        + "\"?"@
}

/// The error for a `$name` reference to a missing root dependency.
pub open spec fn err_ref(version: Seq<char>, name: Seq<char>) -> Seq<char> {
    "error: override \""@ + version + "\" references root dependency \""@ + name + "\", but \""@
        + name + "\" is not in dependencies or devDependencies"@
}

/// The first invalid segment from index `i` on, as its error.
pub open spec fn segment_error(p: Seq<char>, segs: Seq<Seq<char>>, i: int) -> Option<Seq<char>>
    decreases segs.len() - i,
{
    if i < 0 || i >= segs.len() {
        None
    } else if segs[i].len() == 0 {
        Some(err_format(p))
    } else if segs[i].contains('/') && segs[i][0] != '@' {
        Some(err_segment(p, segs[i]))
    } else {
        segment_error(p, segs, i + 1)
    }
}

/// A pattern as (parent path, target).
pub open spec fn pattern_result(p: Seq<char>) -> Result<(Seq<Seq<char>>, Seq<char>), Seq<char>> {
    let segs = split_segments(p);
    if segs.len() == 0 {
        Err(err_format(p))
    } else {
        match segment_error(p, segs, 0) {
            Some(e) => Err(e),
            None => Ok((segs.drop_last(), segs.last())),
        }
    }
}

/// The forced version of an override value: `$name` refers to the root
/// dependency `name` (dependencies first, then devDependencies).
pub open spec fn resolve_version(version: Seq<char>, deps: &StrMap<String>, dev: &StrMap<String>) -> Result<
    Seq<char>,
    Seq<char>,
> {
    if version.len() > 0 && version[0] == '$' {
        let name = version.drop_first();
        match deps.lookup(name) {
            Some(v) => Ok(v@),
            None => match dev.lookup(name) {
                Some(v) => Ok(v@),
                None => Err(err_ref(version, name)),
            },
        }
    } else {
        Ok(version)
    }
}

/// One override entry as a rule, or its error.
pub open spec fn entry_result(
    pattern: Seq<char>,
    version: Seq<char>,
    deps: &StrMap<String>,
    dev: &StrMap<String>,
) -> Result<RuleV, Seq<char>> {
    if contains_sub(pattern, "**"@) {
        Err(err_yarn())
    } else if !(pattern.len() > 0 && pattern[0] == '@') && !pattern.contains('>') && pattern.contains(
        '/',
    ) {
        Err(err_slash(pattern))
    } else if contains_sub(pattern, ">>"@) {
        Err(err_format(pattern))
    } else {
        match resolve_version(version, deps, dev) {
            Err(e) => Err(e),
            Ok(v) => match pattern_result(pattern) {
                Err(e) => Err(e),
                Ok((pp, t)) => Ok((pp, t, v)),
            },
        }
    }
}

/// The rules of the first `n` entries in key order, or the first error.
pub open spec fn collect_rules(
    ov: &StrMap<String>,
    deps: &StrMap<String>,
    dev: &StrMap<String>,
    n: int,
) -> Result<Seq<RuleV>, Seq<char>>
    decreases n,
{
    if n <= 0 {
        Ok(seq![])
    } else {
        match collect_rules(ov, deps, dev, n - 1) {
            Err(e) => Err(e),
            Ok(rs) => match entry_result(ov.kseq()[n - 1], ov.vseq()[n - 1]@, deps, dev) {
                Err(e) => Err(e),
                Ok(r) => Ok(rs.push(r)),
            },
        }
    }
}

/// Index of the first rule whose parent path is shorter than `n`.
pub open spec fn first_shorter(t: Seq<RuleV>, n: nat) -> int
    decreases t.len(),
{
    if t.len() == 0 {
        0
    } else if t[0].0.len() < n {
        0
    } else {
        1 + first_shorter(t.drop_first(), n)
    }
}

/// Stable sort by parent path length, longest first (`sort_by` of
/// `b.len().cmp(&a.len())`): each rule goes after all rules at least as long.
pub open spec fn sort_by_specificity(s: Seq<RuleV>) -> Seq<RuleV>
    decreases s.len(),
{
    if s.len() == 0 {
        s
    } else {
        let t = sort_by_specificity(s.drop_last());
        t.insert(first_shorter(t, s.last().0.len()), s.last())
    }
}

/// Parent path lengths never increase along the sequence.
pub open spec fn specificity_sorted(t: Seq<RuleV>) -> bool {
    forall|i: int, j: int| 0 <= i < j < t.len() ==> t[j].0.len() <= t[i].0.len()
}

proof fn lemma_first_shorter(t: Seq<RuleV>, n: nat, pos: int)
    requires
        0 <= pos <= t.len(),
        forall|j: int| 0 <= j < pos ==> t[j].0.len() >= n,
        pos == t.len() || t[pos].0.len() < n,
    ensures
        first_shorter(t, n) == pos,
    decreases pos,
{
    if pos > 0 {
        assert forall|j: int| 0 <= j < pos - 1 implies t.drop_first()[j].0.len() >= n by {
            assert(t.drop_first()[j] == t[j + 1]);
        }
        if pos < t.len() {
            assert(t.drop_first()[pos - 1] == t[pos]);
        }
        lemma_first_shorter(t.drop_first(), n, pos - 1);
    }
}

proof fn lemma_first_shorter_bounds(t: Seq<RuleV>, n: nat)
    ensures
        0 <= first_shorter(t, n) <= t.len(),
        forall|j: int| 0 <= j < first_shorter(t, n) ==> t[j].0.len() >= n,
        first_shorter(t, n) < t.len() ==> t[first_shorter(t, n)].0.len() < n,
    decreases t.len(),
{
    if t.len() > 0 && t[0].0.len() >= n {
        lemma_first_shorter_bounds(t.drop_first(), n);
        assert forall|j: int| 0 <= j < first_shorter(t, n) implies t[j].0.len() >= n by {
            if j > 0 {
                assert(t[j] == t.drop_first()[j - 1]);
            }
        }
    }
}

/// Rules sorted by specificity are in order of non-increasing parent path
/// length, and no rule is lost or added.
pub proof fn law_sort_by_specificity(s: Seq<RuleV>)
    ensures
        specificity_sorted(sort_by_specificity(s)),
        sort_by_specificity(s).len() == s.len(),
        sort_by_specificity(s).to_multiset() == s.to_multiset(),
    decreases s.len(),
{
    if s.len() > 0 {
        let t = sort_by_specificity(s.drop_last());
        law_sort_by_specificity(s.drop_last());
        let x = s.last();
        let p = first_shorter(t, x.0.len());
        lemma_first_shorter_bounds(t, x.0.len());
        let u = t.insert(p, x);
        assert forall|i: int, j: int| 0 <= i < j < u.len() implies u[j].0.len() <= u[i].0.len() by {
            if j < p {
            } else if j == p {
                assert(u[i] == t[i]);
            } else if i == p {
                assert(u[j] == t[j - 1]);
            } else if i < p {
                assert(u[i] == t[i]);
                assert(u[j] == t[j - 1]);
            } else {
                assert(u[i] == t[i - 1]);
                assert(u[j] == t[j - 1]);
            }
        }
        vstd::seq_lib::to_multiset_insert(t, p, x);
        vstd::seq_lib::to_multiset_build(s.drop_last(), x);
        assert(s.drop_last().push(x) =~= s);

    }
}

/// The result of parsing overrides: the first error in key order, or all
/// rules sorted by specificity.
pub open spec fn overrides_outcome(ov: &StrMap<String>, deps: &StrMap<String>, dev: &StrMap<String>) -> Result<
    Seq<RuleV>,
    Seq<char>,
> {
    match collect_rules(ov, deps, dev, ov.size() as int) {
        Err(e) => Err(e),
        Ok(rs) => Ok(sort_by_specificity(rs)),
    }
}

/// Split a pattern on '>' while respecting scoped packages.
/// "express>@org/parser>qs" → ["express", "@org/parser", "qs"]
pub fn split_override_segments(pattern: &str) -> (r: Vec<String>)
    ensures
        strs(r@) == split_segments(pattern@),
{
    let v = str_chars(pattern);
    let mut segments: Vec<String> = Vec::new();
    let mut current = String::new();
    let mut i: usize = 0;
    while i < v.len()
        invariant
            i <= v.len(),
            v@ == pattern@,
            (strs(segments@), current@) == split_state(v@.take(i as int)),
        decreases v.len() - i,
    {
        let ch = v[i];
        assert(v@.take(i + 1).drop_last() =~= v@.take(i as int));
        if ch == '>' {
            if current.as_str().unicode_len() > 0 {
                let ghost before = strs(segments@);
                let ghost cur = current@;
                segments.push(current);
                current = String::new();
                assert(strs(segments@) =~= before.push(cur));
            }
        } else {
            push_char(&mut current, ch);
        }
        i += 1;
    }
    assert(v@.take(v.len() as int) =~= v@);
    if current.as_str().unicode_len() > 0 {
        let ghost before = strs(segments@);
        let ghost cur = current@;
        segments.push(current);
        assert(strs(segments@) =~= before.push(cur));
    }
    segments
}

fn format_error(p: &str) -> (r: String)
    ensures
        r@ == err_format(p@),
{
    let mut s = owned("error: invalid override pattern \"");
    push_str(&mut s, p);
    push_str(&mut s, "\" — use \"parent>child\" format");
    s
}

/// Parse an override pattern like "express>body-parser>qs" into
/// (parent_path: ["express", "body-parser"], target: "qs")
pub fn parse_override_pattern(pattern: &str) -> (r: Result<(Vec<String>, String), String>)
    ensures
        r matches Ok((pp, t)) ==> pattern_result(pattern@) == Ok::<
            (Seq<Seq<char>>, Seq<char>),
            Seq<char>,
        >((strs(pp@), t@)),
        r matches Err(e) ==> pattern_result(pattern@) == Err::<(Seq<Seq<char>>, Seq<char>), Seq<char>>(
            e@,
        ),
{
    let mut segments = split_override_segments(pattern);
    let ghost segs = strs(segments@);
    if segments.len() == 0 {
        return Err(format_error(pattern));
    }
    let mut i: usize = 0;
    while i < segments.len()
        invariant
            i <= segments@.len(),
            segs == strs(segments@),
            segs == split_segments(pattern@),
            segment_error(pattern@, segs, 0) == segment_error(pattern@, segs, i as int),
        decreases segments.len() - i,
    {
        let seg = str_chars(segments[i].as_str());
        assert(seg@ == segs[i as int]);
        if seg.len() == 0 {
            return Err(format_error(pattern));
        }
        if has_char(&seg, '/') && seg[0] != '@' {
            let mut s = owned("error: invalid override pattern \"");
            push_str(&mut s, pattern);
            push_str(&mut s, "\" — segment \"");
            push_str(&mut s, segments[i].as_str());
            push_str(&mut s, "\" contains \"/\". Use \">\" as the path separator");
            return Err(s);
        }
        i += 1;
    }
    let target = segments.pop().unwrap();
    assert(strs(segments@) =~= segs.drop_last());
    Ok((segments, target))
}

fn resolve_version_exec(version: &String, deps: &StrMap<String>, dev: &StrMap<String>) -> (r: Result<
    String,
    String,
>)
    ensures
        r matches Ok(v) ==> resolve_version(version@, deps, dev) == Ok::<Seq<char>, Seq<char>>(v@),
        r matches Err(e) ==> resolve_version(version@, deps, dev) == Err::<Seq<char>, Seq<char>>(e@),
{
    let vv = str_chars(version.as_str());
    if vv.len() > 0 && vv[0] == '$' {
        let name = version.as_str().substring_char(1, vv.len());
        assert(name@ =~= version@.drop_first());
        match deps.get(name) {
            Some(v) => Ok(v.clone()),
            None => match dev.get(name) {
                Some(v) => Ok(v.clone()),
                None => {
                    let mut s = owned("error: override \"");
                    push_str(&mut s, version.as_str());
                    push_str(&mut s, "\" references root dependency \"");
                    push_str(&mut s, name);
                    push_str(&mut s, "\", but \"");
                    push_str(&mut s, name);
                    push_str(&mut s, "\" is not in dependencies or devDependencies");
                    Err(s)
                },
            },
        }
    } else {
        Ok(version.clone())
    }
}

fn entry_rule(pattern: &String, version: &String, deps: &StrMap<String>, dev: &StrMap<String>) -> (r: Result<
    OverrideRule,
    String,
>)
    ensures
        r matches Ok(rule) ==> entry_result(pattern@, version@, deps, dev) == Ok::<RuleV, Seq<char>>(
            rule_view(rule),
        ),
        r matches Err(e) ==> entry_result(pattern@, version@, deps, dev) == Err::<RuleV, Seq<char>>(
            e@,
        ),
{
    let p = pattern.as_str();
    let pv = str_chars(p);
    // Validate: no yarn-style glob patterns
    if str_contains(p, "**") {
        return Err(owned(
            "error: yarn-style resolution patterns not supported — use \"parent>child\" npm override syntax",
        ));
    }
    // Validate: no yarn-style `/` separator
    if !(pv.len() > 0 && pv[0] == '@') && !has_char(&pv, '>') && has_char(&pv, '/') {
        let mut s = owned("error: invalid override pattern \"");
        push_str(&mut s, p);
        push_str(&mut s, "\" — use \">\" as the path separator. Did you mean \"");
        push_str(&mut s, replace_char_str(p, '/', ">").as_str());
        push_str(&mut s, "\"?");
        return Err(s);
    }
    // Validate: no empty segments (e.g., "express>>qs")
    if str_contains(p, ">>") {
        return Err(format_error(p));
    }
    let resolved = match resolve_version_exec(version, deps, dev) {
        Ok(v) => v,
        Err(e) => {
            return Err(e);
        },
    };
    match parse_override_pattern(p) {
        Ok((parent_path, target)) => Ok(OverrideRule { parent_path, target, version: resolved }),
        Err(e) => Err(e),
    }
}

/// Parse the "overrides" field from package.json into an OverrideMap.
///
/// Resolves `$name` references against root dependencies.
/// Validates pattern syntax and emits errors for invalid patterns.
/// The rules come out sorted by specificity (longest parent path first,
/// stable among equal lengths).
pub fn parse_overrides(
    overrides: &StrMap<String>,
    root_deps: &StrMap<String>,
    root_dev_deps: &StrMap<String>,
) -> (r: Result<OverrideMap, String>)
    ensures
        r matches Ok(m) ==> overrides_outcome(overrides, root_deps, root_dev_deps) == Ok::<
            Seq<RuleV>,
            Seq<char>,
        >(rules_view(m.rules@)),
        r matches Err(e) ==> overrides_outcome(overrides, root_deps, root_dev_deps) == Err::<
            Seq<RuleV>,
            Seq<char>,
        >(e@),
{
    let mut rules: Vec<OverrideRule> = Vec::new();
    let mut i: usize = 0;
    proof {
        overrides.lemma_sizes();
        assert(sort_input_view(rules@) =~= Seq::<RuleV>::empty());
    }
    while i < overrides.len()
        invariant
            i <= overrides.size(),
            overrides.kseq().len() == overrides.vseq().len(),
            collect_rules(overrides, root_deps, root_dev_deps, i as int) == Ok::<
                Seq<RuleV>,
                Seq<char>,
            >(sort_input_view(rules@)),
        decreases overrides.size() - i,
    {
        let pattern = overrides.key_at(i);
        let version = overrides.value_at(i);
        match entry_rule(pattern, version, root_deps, root_dev_deps) {
            Ok(rule) => {
                let ghost before = rules@;
                rules.push(rule);
                assert(sort_input_view(rules@) =~= sort_input_view(before).push(rule_view(rule)));
            },
            Err(e) => {
                proof {
                    lemma_collect_err(overrides, root_deps, root_dev_deps, i as int + 1);
                }
                return Err(e);
            },
        }
        i += 1;
    }
    let sorted = sort_rules(rules);
    Ok(OverrideMap { rules: sorted })
}

/// The views of rules in input order.
pub open spec fn sort_input_view(rs: Seq<OverrideRule>) -> Seq<RuleV> {
    rules_view(rs)
}

proof fn lemma_collect_err(ov: &StrMap<String>, deps: &StrMap<String>, dev: &StrMap<String>, n: int)
    requires
        0 < n <= ov.size(),
        collect_rules(ov, deps, dev, n) is Err,
    ensures
        collect_rules(ov, deps, dev, ov.size() as int) == collect_rules(ov, deps, dev, n),
    decreases ov.size() - n,
{
    if n < ov.size() {
        lemma_collect_err(ov, deps, dev, n + 1);
    }
}

fn sort_rules(rules: Vec<OverrideRule>) -> (r: Vec<OverrideRule>)
    ensures
        rules_view(r@) == sort_by_specificity(rules_view(rules@)),
{
    let ghost input = rules_view(rules@);
    let mut rest = rules;
    let mut out: Vec<OverrideRule> = Vec::new();
    let ghost mut done: int = 0;
    assert(input.take(0) =~= Seq::<RuleV>::empty());
    assert(rules_view(out@) =~= Seq::<RuleV>::empty());
    assert(input.skip(0) =~= input);
    while rest.len() > 0
        invariant
            0 <= done <= input.len(),
            rules_view(rest@) == input.skip(done),
            rules_view(out@) == sort_by_specificity(input.take(done)),
        decreases rest.len(),
    {
        let ghost r0 = rest@;
        let x = rest.remove(0);
        proof {
            assert(rules_view(r0)[0] == rule_view(x));
            assert(input.skip(done).len() > 0);
            assert(input.skip(done)[0] == input[done]);
            assert(input[done] == rule_view(x));
            assert(rest@ == r0.remove(0));
            assert forall|k: int| 0 <= k < rest@.len() implies rules_view(rest@)[k] == input.skip(
                done + 1,
            )[k] by {
                assert(rules_view(rest@)[k] == rule_view(rest@[k]));
                assert(rest@[k] == r0[k + 1]);
                assert(rules_view(r0)[k + 1] == input.skip(done)[k + 1]);
            }
            assert(rules_view(rest@) =~= input.skip(done + 1));
            assert(input.take(done + 1).drop_last() =~= input.take(done));
            assert(input.take(done + 1).last() == rule_view(x));
        }
        let len_x = x.parent_path.len();
        let mut pos: usize = 0;
        while pos < out.len() && out[pos].parent_path.len() >= len_x
            invariant
                pos <= out@.len(),
                forall|j: int| 0 <= j < pos ==> rules_view(out@)[j].0.len() >= len_x,
            decreases out.len() - pos,
        {
            assert(rules_view(out@)[pos as int] == rule_view(out@[pos as int]));
            pos += 1;
        }
        proof {
            if pos < out.len() {
                assert(rules_view(out@)[pos as int] == rule_view(out@[pos as int]));
            }
            assert(rule_view(x).0.len() == len_x);
            lemma_first_shorter(rules_view(out@), len_x as nat, pos as int);
        }
        let ghost o0 = out@;
        out.insert(pos, x);
        proof {
            assert(rules_view(out@) =~= rules_view(o0).insert(pos as int, rule_view(x)));
            done = done + 1;
        }
    }
    assert(input.skip(done).len() == 0);
    assert(input.take(done) =~= input);
    out
}

/// The pattern a rule was written as: `a>b>target`, or `target` alone.
pub open spec fn rule_pattern(r: RuleV) -> Seq<char> {
    if r.0.len() == 0 {
        r.1
    } else {
        join(r.0, ">"@) + ">"@ + r.1
    }
}

/// A triple (target name, original range, matched pattern) as plain values.
pub type MatchV = (Seq<char>, Seq<char>, Seq<char>);

pub open spec fn match_v(t: (String, String, String)) -> MatchV {
    (t.0@, t.1@, t.2@)
}

/// The triple records a range that `r` overrode.
pub open spec fn matched_by(t: MatchV, r: RuleV) -> bool {
    t.0 == r.1 && t.2 == rule_pattern(r)
}

/// The rule overrode some range, and its version satisfies every range it
/// overrode: the override changes nothing.
pub open spec fn rule_is_stale(r: RuleV, ms: Seq<MatchV>) -> bool {
    &&& exists|i: int| 0 <= i < ms.len() && matched_by(#[trigger] ms[i], r)
    &&& semver_version_parses(r.2)
    &&& forall|i: int|
        0 <= i < ms.len() && matched_by(#[trigger] ms[i], r) ==> semver_range_parses(ms[i].1)
            && semver_satisfies(ms[i].1, r.2)
}

/// The warning for a stale rule.
pub open spec fn stale_warning(r: RuleV) -> Seq<char> {
    "override \""@ + rule_pattern(r) + "\": \""@ + r.2 + "\" is satisfied without override — consider removing"@
}

/// The warnings for the stale rules, in rule order.
pub open spec fn stale_warnings(rs: Seq<RuleV>, ms: Seq<MatchV>) -> Seq<Seq<char>>
    decreases rs.len(),
{
    if rs.len() == 0 {
        seq![]
    } else {
        stale_warnings(rs.drop_last(), ms) + if rule_is_stale(rs.last(), ms) {
            seq![stale_warning(rs.last())]
        } else {
            seq![]
        }
    }
}

fn rule_pattern_exec(rule: &OverrideRule) -> (p: String)
    ensures
        p@ == rule_pattern(rule_view(*rule)),
{
    if rule.parent_path.len() == 0 {
        rule.target.clone()
    } else {
        let mut p = join_strings(&rule.parent_path, ">");
        push_str(&mut p, ">");
        push_str(&mut p, rule.target.as_str());
        p
    }
}

/// Whether `rule` is stale given the ranges it overrode.
fn rule_stale_exec(rule: &OverrideRule, pattern: &String, original_ranges: &[(String, String, String)]) -> (b: bool)
    requires
        pattern@ == rule_pattern(rule_view(*rule)),
    ensures
        b == rule_is_stale(rule_view(*rule), original_ranges@.map_values(|t: (String, String, String)| match_v(t))),
{
    let ghost ms = original_ranges@.map_values(|t: (String, String, String)| match_v(t));
    let ghost rv = rule_view(*rule);
    let mut any = false;
    let mut all = true;
    let parses = version_parses(rule.version.as_str());
    let mut i: usize = 0;
    while i < original_ranges.len()
        invariant
            i <= original_ranges.len(),
            ms == original_ranges@.map_values(|t: (String, String, String)| match_v(t)),
            rv == rule_view(*rule),
            pattern@ == rule_pattern(rv),
            parses == semver_version_parses(rv.2),
            any == exists|j: int| 0 <= j < i && matched_by(#[trigger] ms[j], rv),
            parses ==> (all == forall|j: int|
                0 <= j < i && matched_by(#[trigger] ms[j], rv) ==> semver_range_parses(ms[j].1)
                    && semver_satisfies(ms[j].1, rv.2)),
        decreases original_ranges.len() - i,
    {
        let t = &original_ranges[i];
        proof {
            assert(ms[i as int] == match_v(*t));
        }
        if str_eq(t.0.as_str(), rule.target.as_str()) && str_eq(t.2.as_str(), pattern.as_str()) {
            any = true;
            if parses {
                let ok = range_parses(t.1.as_str()) && range_satisfies(t.1.as_str(), rule.version.as_str());
                if !ok {
                    all = false;
                }
            }
        }
        proof {
            assert forall|j: int| 0 <= j < i + 1 && matched_by(#[trigger] ms[j], rv) implies (j < i || j == i) by {}
        }
        i += 1;
    }
    any && parses && all
}

/// Check if any overrides are stale: the override version already satisfies
/// every original range that the rule overrode.
pub fn detect_stale_overrides(
    override_map: &OverrideMap,
    original_ranges: &[(String, String, String)],
) -> (r: Vec<String>)
    ensures
        r@.map_values(|s: String| s@) == stale_warnings(
            rules_view(override_map.rules@),
            original_ranges@.map_values(|t: (String, String, String)| match_v(t)),
        ),
{
    let ghost ms = original_ranges@.map_values(|t: (String, String, String)| match_v(t));
    let ghost rs = rules_view(override_map.rules@);
    let mut warnings: Vec<String> = Vec::new();
    let mut k: usize = 0;
    while k < override_map.rules.len()
        invariant
            k <= override_map.rules.len(),
            ms == original_ranges@.map_values(|t: (String, String, String)| match_v(t)),
            rs == rules_view(override_map.rules@),
            warnings@.map_values(|s: String| s@) == stale_warnings(rs.take(k as int), ms),
        decreases override_map.rules.len() - k,
    {
        let rule = &override_map.rules[k];
        proof {
            assert(rs.take(k + 1).drop_last() =~= rs.take(k as int));
            assert(rs.take(k + 1).last() == rule_view(*rule));
        }
        let pattern = rule_pattern_exec(rule);
        let ghost wb = warnings@;
        if rule_stale_exec(rule, &pattern, original_ranges) {
            let mut w = owned("override \"");
            push_str(&mut w, pattern.as_str());
            push_str(&mut w, "\": \"");
            push_str(&mut w, rule.version.as_str());
            push_str(&mut w, "\" is satisfied without override — consider removing");
            proof {
                reveal_strlit("override \"");
                reveal_strlit("\": \"");
                reveal_strlit("\" is satisfied without override — consider removing");
                assert(w@ =~= stale_warning(rule_view(*rule)));
            }
            warnings.push(w);
            proof {
                assert(warnings@.map_values(|s: String| s@) =~= wb.map_values(|s: String| s@).push(
                    stale_warning(rule_view(*rule)),
                ));
            }
        } else {
            proof {
                assert(stale_warnings(rs.take(k + 1), ms) =~= stale_warnings(rs.take(k as int), ms));
            }
        }
        k += 1;
    }
    proof {
        assert(rs.take(override_map.rules.len() as int) =~= rs);
    }
    warnings
}

} // verus!

verus! {

/// The warning when package.json has both `overrides` and `resolutions`.
pub open spec fn warn_both() -> Seq<char> {
    "warning: both \"overrides\" and \"resolutions\" found \u{2014} using \"overrides\" (Vertz uses npm-style overrides)"@
}

/// The warning when package.json has only `resolutions`.
pub open spec fn warn_resolutions() -> Seq<char> {
    "warning: \"resolutions\" field found \u{2014} did you mean \"overrides\"? Vertz uses npm-style overrides. Reading as overrides."@
}

/// A yarn-style resolution key (`a/b`, not a scope) that is skipped.
pub open spec fn yarn_style(k: Seq<char>) -> bool {
    k.contains('/') && !(k.len() > 0 && k[0] == '@')
}

/// The warning for a skipped yarn-style resolution key.
pub open spec fn yarn_warning(k: Seq<char>) -> Seq<char> {
    "skipping invalid resolution pattern \""@ + k + "\" \u{2014} use \">\" as the path separator. Did you mean \""@
        + replace_char(k, '/', ">"@) + "\"?"@
}

/// The (key, version) pairs taken from the members of the overrides
/// object: string values only, and, when reading `resolutions`, no
/// yarn-style keys.
pub open spec fn accepted_overrides(ms: Seq<(Seq<char>, JV)>, yarn_check: bool) -> Seq<(Seq<char>, Seq<char>)>
    decreases ms.len(),
{
    if ms.len() == 0 {
        Seq::empty()
    } else {
        let rest = accepted_overrides(ms.drop_last(), yarn_check);
        let k = ms.last().0;
        let v = ms.last().1;
        if v is Str && !(yarn_check && yarn_style(k)) {
            rest.push((k, v->Str_0))
        } else {
            rest
        }
    }
}

/// The warnings for the skipped yarn-style keys, in order.
pub open spec fn yarn_warnings(ms: Seq<(Seq<char>, JV)>, yarn_check: bool) -> Seq<Seq<char>>
    decreases ms.len(),
{
    if ms.len() == 0 {
        Seq::empty()
    } else {
        let rest = yarn_warnings(ms.drop_last(), yarn_check);
        let k = ms.last().0;
        let v = ms.last().1;
        if v is Str && yarn_check && yarn_style(k) {
            rest.push(yarn_warning(k))
        } else {
            rest
        }
    }
}

/// The override pairs and warnings read from a whole package.json: from
/// `overrides` when it is there (with a warning when `resolutions` is there
/// too), else from `resolutions` (with a migration warning); nothing when
/// the manifest is not an object, has neither, or the chosen field is not
/// an object.
pub open spec fn overrides_from_raw(raw: JV) -> (Seq<(Seq<char>, Seq<char>)>, Seq<Seq<char>>) {
    match raw {
        JV::Object(ms) => {
            let has_o = jget(ms, "overrides"@) is Some;
            let has_r = jget(ms, "resolutions"@) is Some;
            let w0 = if has_o && has_r {
                seq![warn_both()]
            } else if has_r {
                seq![warn_resolutions()]
            } else {
                Seq::empty()
            };
            if !has_o && !has_r {
                (Seq::empty(), w0)
            } else {
                let val = if has_o {
                    jget(ms, "overrides"@)->0
                } else {
                    jget(ms, "resolutions"@)->0
                };
                let yarn_check = has_r && !has_o;
                match val {
                    JV::Object(m2) => (accepted_overrides(m2, yarn_check), w0 + yarn_warnings(m2, yarn_check)),
                    _ => (Seq::empty(), w0),
                }
            }
        },
        _ => (Seq::empty(), Seq::empty()),
    }
}

fn is_yarn_style(k: &str) -> (b: bool)
    ensures
        b == yarn_style(k@),
{
    let v = str_chars(k);
    has_char(&v, '/') && !(v.len() > 0 && v[0] == '@')
}

/// Check for "resolutions" in raw package.json and return overrides + warnings.
/// If both "overrides" and "resolutions" exist, use "overrides" with warning.
/// If only "resolutions" exists, use it as overrides with migration warning.
pub fn extract_overrides_from_raw(raw: &JsonValue) -> (r: (StrMap<String>, Vec<String>))
    ensures
        forall|x: Seq<char>| #[trigger] sview(r.0, x) == last_value(overrides_from_raw(jv(*raw)).0, x),
        r.1@.map_values(|w: String| w@) == overrides_from_raw(jv(*raw)).1,
{
    let mut warnings: Vec<String> = Vec::new();
    let mut result: StrMap<String> = StrMap::new();
    let ms = match raw {
        JsonValue::Object(ms) => ms,
        _ => {
            assert(warnings@.map_values(|w: String| w@) =~= Seq::<Seq<char>>::empty());
            return (result, warnings);
        },
    };
    let has_o = object_get(ms, "overrides").is_some();
    let has_r = object_get(ms, "resolutions").is_some();
    if has_o && has_r {
        warnings.push(
            owned(
                "warning: both \"overrides\" and \"resolutions\" found \u{2014} using \"overrides\" (Vertz uses npm-style overrides)",
            ),
        );
    } else if has_r && !has_o {
        warnings.push(
            owned(
                "warning: \"resolutions\" field found \u{2014} did you mean \"overrides\"? Vertz uses npm-style overrides. Reading as overrides.",
            ),
        );
    }
    let ghost w0 = warnings@.map_values(|w: String| w@);
    assert(w0 =~= overrides_from_raw(jv(*raw)).1.take(w0.len() as int)) by {
        assert(w0.len() <= 1);
    }
    let field = if has_o {
        object_get(ms, "overrides")
    } else if has_r {
        object_get(ms, "resolutions")
    } else {
        assert(warnings@.map_values(|w: String| w@) =~= Seq::<Seq<char>>::empty());
        return (result, warnings);
    };
    let yarn_check = has_r && !has_o;
    let map = match field {
        Some(JsonValue::Object(map)) => map,
        _ => {
            return (result, warnings);
        },
    };
    let ghost jm = jv_members(map@, map@.len());
    proof {
        lemma_members_index(map@, map@.len());
    }
    let mut i: usize = 0;
    while i < map.len()
        invariant
            i <= map@.len(),
            jm == jv_members(map@, map@.len()),
            jm.len() == map@.len(),
            forall|j: int| 0 <= j < map@.len() ==> #[trigger] jm[j] == (map@[j].0@, jv(map@[j].1)),
            forall|x: Seq<char>| #[trigger] sview(result, x) == last_value(
                accepted_overrides(jm.take(i as int), yarn_check),
                x,
            ),
            warnings@.map_values(|w: String| w@) == w0 + yarn_warnings(jm.take(i as int), yarn_check),
        decreases map.len() - i,
    {
        let ghost before_w = warnings@;
        let ghost pre = jm.take(i as int);
        proof {
            assert(jm.take(i + 1).drop_last() =~= pre);
            assert(jm.take(i + 1).last() == jm[i as int]);
        }
        let k = &map[i].0;
        match &map[i].1 {
            JsonValue::Str(vs) => {
                proof {
                    assert(jm[i as int] == (k@, JV::Str(vs@)));
                }
                if yarn_check && is_yarn_style(k.as_str()) {
                    let mut m = owned("skipping invalid resolution pattern \"");
                    push_str(&mut m, k.as_str());
                    push_str(&mut m, "\" \u{2014} use \">\" as the path separator. Did you mean \"");
                    let fixed = replace_char_str(k.as_str(), '/', ">");
                    push_str(&mut m, fixed.as_str());
                    push_str(&mut m, "\"?");
                    warnings.push(m);
                    proof {
                        assert(warnings@.map_values(|w: String| w@) =~= before_w.map_values(|w: String| w@).push(m@));
                    }
                } else {
                    let ghost before_r = result;
                    result.insert(owned(k.as_str()), owned(vs.as_str()));
                    proof {
                        assert(jm[i as int] == (k@, JV::Str(vs@)));
                        let acc = accepted_overrides(jm.take(i + 1), yarn_check);
                        assert(acc == accepted_overrides(pre, yarn_check).push((k@, vs@)));
                        assert forall|x: Seq<char>| #[trigger] sview(result, x) == last_value(acc, x) by {
                            assert(acc.drop_last() =~= accepted_overrides(pre, yarn_check));
                            if x != k@ {
                                assert(sview(before_r, x) == last_value(accepted_overrides(pre, yarn_check), x));
                            }
                        }
                    }
                }
            },
            _ => {
            },
        }
        i += 1;
    }
    proof {
        assert(jm.take(map@.len() as int) =~= jm);
    }
    (result, warnings)
}

} // verus!

verus! {

proof fn lemma_collect_rules(ov: &StrMap<String>, deps: &StrMap<String>, dev: &StrMap<String>, n: int)
    requires
        0 <= n <= ov.size(),
    ensures
        collect_rules(ov, deps, dev, n) matches Ok(rs) ==> rs.len() == n && forall|i: int|
            0 <= i < n ==> entry_result(ov.kseq()[i], ov.vseq()[i]@, deps, dev) == Ok::<RuleV, Seq<char>>(
                #[trigger] rs[i],
            ),
    decreases n,
{
    if n > 0 {
        lemma_collect_rules(ov, deps, dev, n - 1);
    }
}

/// Parsed overrides hold one rule per pattern, sorted by specificity
/// (parent paths never get longer along the list): each pattern's rule is
/// its `>`-separated path and target with the version, a `$name`
/// reference resolved from dependencies, then devDependencies.
pub proof fn law_parse_overrides(ov: &StrMap<String>, deps: &StrMap<String>, dev: &StrMap<String>)
    ensures
        overrides_outcome(ov, deps, dev) matches Ok(rules) ==> {
            &&& rules.len() == ov.size()
            &&& specificity_sorted(rules)
            &&& forall|i: int|
                0 <= i < ov.size() ==> (#[trigger] entry_result(ov.kseq()[i], ov.vseq()[i]@, deps, dev) matches Ok(r)
                    && rules.contains(r))
        },
{
    broadcast use vstd::seq_lib::group_to_multiset_ensures;
    ov.lemma_sizes();
    lemma_collect_rules(ov, deps, dev, ov.size() as int);
    if let Ok(rs) = collect_rules(ov, deps, dev, ov.size() as int) {
        law_sort_by_specificity(rs);
        let sorted = sort_by_specificity(rs);
        assert forall|i: int| 0 <= i < ov.size() implies (#[trigger] entry_result(
            ov.kseq()[i],
            ov.vseq()[i]@,
            deps,
            dev,
        ) matches Ok(r) && sorted.contains(r)) by {
            assert(entry_result(ov.kseq()[i], ov.vseq()[i]@, deps, dev) == Ok::<RuleV, Seq<char>>(rs[i]));
            assert(rs.contains(rs[i]));
            assert(rs.to_multiset().count(rs[i]) > 0);
            assert(sorted.to_multiset().count(rs[i]) > 0);
        }
    }
}

} // verus!
