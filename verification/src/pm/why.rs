//! `vertz why`: every dependency path from the project's root dependencies to
//! a package, found by a breadth-first search of the lockfile graph.

use vstd::prelude::*;
use crate::pm::config::str_vals;
use crate::pm::listing::opt_view;
use crate::pm::types::{spec_key_of, Lockfile, PackageJson};
use crate::smap::{lemma_sorted_of, sorted_keys, StrMap, StrSet};
use crate::json::{jarr, jfield, jobj, json_array, json_quote, json_quoted, JsonObj};
use crate::text::{
    dec, join, join_strings, lemma_lex_asymmetric, lemma_lex_irreflexive, lemma_unlines_add, lemma_unlines_one, lex_lt,
    owned, push_char, push_dec, push_str, str_eq, unlines,
};

verus! {

/// The most paths searched for before the search of a root stops.
pub const MAX_PATHS: usize = 100;

/// Result of a `vertz why` query — one entry per version of the target package found
#[derive(Debug, Clone, PartialEq, Eq)]
pub struct WhyResult {
    pub name: String,
    pub versions: Vec<WhyVersion>,
}

/// A single version of the target package with all dependency paths leading to it
#[derive(Debug, Clone, PartialEq, Eq)]
pub struct WhyVersion {
    pub version: String,
    pub paths: Vec<Vec<WhyPathEntry>>,
}

/// A single step in a dependency path
#[derive(Debug, Clone, PartialEq, Eq)]
pub struct WhyPathEntry {
    pub name: String,
    pub range: String,
    pub version: String,
}

/// A path step as plain values: (name, range, version).
pub type StepV = (Seq<char>, Seq<char>, Seq<char>);

/// A dependency path as plain values.
pub type PathV = Seq<StepV>;

/// A path found to the target: (version of the target, path).
pub type FoundV = (Seq<char>, PathV);

/// A state of the search: the lockfile key of the package reached, the path
/// that reached it and the lockfile keys visited on that path.
pub type ItemV = (Seq<char>, PathV, Seq<Seq<char>>);

pub open spec fn step_v(e: WhyPathEntry) -> StepV {
    (e.name@, e.range@, e.version@)
}

pub open spec fn path_v(p: Seq<WhyPathEntry>) -> PathV {
    p.map_values(|e: WhyPathEntry| step_v(e))
}

pub open spec fn paths_v(ps: Seq<Vec<WhyPathEntry>>) -> Seq<PathV> {
    ps.map_values(|p: Vec<WhyPathEntry>| path_v(p@))
}

/// The range under which `name` is a root dependency: optional
/// dependencies take precedence over dev dependencies, which take
/// precedence over regular ones.
pub open spec fn root_range(pkg: &PackageJson, name: Seq<char>) -> Option<Seq<char>> {
    match opt_view(pkg.optional_dependencies.lookup(name)) {
        Some(r) => Some(r),
        None => match opt_view(pkg.dev_dependencies.lookup(name)) {
            Some(r) => Some(r),
            None => opt_view(pkg.dependencies.lookup(name)),
        },
    }
}

/// `ks` lists the root dependencies in increasing order.
pub open spec fn is_root_order(pkg: &PackageJson, ks: Seq<Seq<char>>) -> bool {
    &&& sorted_keys(ks)
    &&& forall|k: Seq<char>| ks.contains(k) <==> (root_range(pkg, k) is Some)
}

/// The root dependencies in increasing order.
pub open spec fn root_order(pkg: &PackageJson) -> Seq<Seq<char>> {
    choose|ks: Seq<Seq<char>>| is_root_order(pkg, ks)
}

/// The root dependencies of every manifest can be listed in order.
pub proof fn lemma_root_order(pkg: &PackageJson)
    ensures
        is_root_order(pkg, root_order(pkg)),
{
    let a = pkg.dependencies.kseq();
    let b = pkg.dev_dependencies.kseq();
    let c = pkg.optional_dependencies.kseq();
    let ks = lemma_sorted_of(a + b + c);
    assert forall|k: Seq<char>| ks.contains(k) <==> (root_range(pkg, k) is Some) by {
        if (a + b + c).contains(k) {
            let i = choose|i: int| 0 <= i < (a + b + c).len() && (a + b + c)[i] == k;
            if i < a.len() {
                assert(a[i] == k);
            } else if i < a.len() + b.len() {
                assert(b[i - a.len()] == k);
            } else {
                assert(c[i - a.len() - b.len()] == k);
            }
        }
        if a.contains(k) {
            let i = choose|i: int| 0 <= i < a.len() && a[i] == k;
            assert((a + b + c)[i] == k);
        }
        if b.contains(k) {
            let i = choose|i: int| 0 <= i < b.len() && b[i] == k;
            assert((a + b + c)[a.len() + i] == k);
        }
        if c.contains(k) {
            let i = choose|i: int| 0 <= i < c.len() && c[i] == k;
            assert((a + b + c)[a.len() + b.len() + i] == k);
        }
    }
    assert(is_root_order(pkg, ks));
}

/// The ranges of the root dependencies, in the order of `root_order`.
pub open spec fn root_ranges(pkg: &PackageJson) -> Seq<Seq<char>> {
    root_order(pkg).map_values(|k: Seq<char>| root_range(pkg, k).unwrap())
}

/// The dependency names of the lockfile entry under `key`.
pub open spec fn dep_names(lock: &Lockfile, key: Seq<char>) -> Seq<Seq<char>> {
    lock.entries.lookup(key).unwrap().dependencies.kseq()
}

/// The dependency ranges of the lockfile entry under `key`.
pub open spec fn dep_ranges(lock: &Lockfile, key: Seq<char>) -> Seq<Seq<char>> {
    str_vals(&lock.entries.lookup(key).unwrap().dependencies)
}

/// The installed version under a lockfile key.
pub open spec fn version_at(lock: &Lockfile, key: Seq<char>) -> Seq<char> {
    lock.entries.lookup(key).unwrap().version@
}

/// Expanding the dependencies `ks[i..]`/`vs[i..]` of a package reached by
/// `path` with `visited`: the states to search further and the paths found
/// to `target`. A dependency already visited, or absent from the lockfile,
/// is skipped.
pub open spec fn expand(
    lock: &Lockfile,
    target: Seq<char>,
    ks: Seq<Seq<char>>,
    vs: Seq<Seq<char>>,
    i: int,
    path: PathV,
    visited: Seq<Seq<char>>,
) -> (Seq<ItemV>, Seq<FoundV>)
    decreases ks.len() - i,
{
    if i < 0 || i >= ks.len() {
        (seq![], seq![])
    } else {
        let (items, found) = expand(lock, target, ks, vs, i + 1, path, visited);
        let key = spec_key_of(ks[i], vs[i]);
        if visited.contains(key) || !lock.entries.has(key) {
            (items, found)
        } else {
            let p = path.push((ks[i], vs[i], version_at(lock, key)));
            if ks[i] == target {
                (items, seq![(version_at(lock, key), p)] + found)
            } else {
                (seq![(key, p, visited.push(key))] + items, found)
            }
        }
    }
}

/// Expanding one search state.
pub open spec fn expand_item(lock: &Lockfile, target: Seq<char>, it: ItemV) -> (Seq<ItemV>, Seq<FoundV>) {
    expand(lock, target, dep_names(lock, it.0), dep_ranges(lock, it.0), 0, it.1, it.2)
}

/// The states one step further than `level`, in order.
pub open spec fn next_level(lock: &Lockfile, target: Seq<char>, level: Seq<ItemV>) -> Seq<ItemV>
    decreases level.len(),
{
    if level.len() == 0 {
        seq![]
    } else {
        next_level(lock, target, level.drop_last()) + expand_item(lock, target, level.last()).0
    }
}

/// The states in breadth-first order: `level`, then the next level, and so
/// on, for at most `fuel` levels.
pub open spec fn bfs_order(lock: &Lockfile, target: Seq<char>, level: Seq<ItemV>, fuel: nat) -> Seq<ItemV>
    decreases fuel,
{
    if fuel == 0 || level.len() == 0 {
        seq![]
    } else {
        level + bfs_order(lock, target, next_level(lock, target, level), (fuel - 1) as nat)
    }
}

/// The paths found while expanding `items` in order, as long as fewer than
/// `MAX_PATHS` paths (counting the `total` found before) were found when a
/// state is taken up.
pub open spec fn run_items(lock: &Lockfile, target: Seq<char>, items: Seq<ItemV>, total: nat) -> Seq<FoundV>
    decreases items.len(),
{
    if items.len() == 0 || total >= MAX_PATHS {
        seq![]
    } else {
        let found = expand_item(lock, target, items[0]).1;
        found + run_items(lock, target, items.drop_first(), total + found.len())
    }
}

/// The search state at a root dependency.
pub open spec fn root_item(lock: &Lockfile, name: Seq<char>, range: Seq<char>) -> ItemV {
    let key = spec_key_of(name, range);
    (key, seq![(name, range, version_at(lock, key))], seq![key])
}

/// The paths found from one root dependency, `total` paths having been
/// found before.
pub open spec fn root_found(lock: &Lockfile, target: Seq<char>, name: Seq<char>, range: Seq<char>, total: nat) -> Seq<FoundV> {
    run_items(
        lock,
        target,
        bfs_order(lock, target, seq![root_item(lock, name, range)], lock.entries.size()),
        total,
    )
}

/// The paths found from the roots `rks[i..]`/`rvs[i..]`. The target itself
/// and roots absent from the lockfile are not searched from.
pub open spec fn roots_found(
    lock: &Lockfile,
    target: Seq<char>,
    rks: Seq<Seq<char>>,
    rvs: Seq<Seq<char>>,
    i: int,
    total: nat,
) -> Seq<FoundV>
    decreases rks.len() - i,
{
    if i < 0 || i >= rks.len() {
        seq![]
    } else if rks[i] == target || !lock.entries.has(spec_key_of(rks[i], rvs[i])) {
        roots_found(lock, target, rks, rvs, i + 1, total)
    } else {
        let f = root_found(lock, target, rks[i], rvs[i], total);
        f + roots_found(lock, target, rks, rvs, i + 1, total + f.len())
    }
}

/// The direct dependency on the target, if it is one: its locked version
/// (`"unknown"` when unlocked) with the empty path.
pub open spec fn direct_found(pkg: &PackageJson, lock: &Lockfile, target: Seq<char>) -> Seq<FoundV> {
    match root_range(pkg, target) {
        None => seq![],
        Some(r) => {
            let key = spec_key_of(target, r);
            let v = if lock.entries.has(key) { version_at(lock, key) } else { "unknown"@ };
            seq![(v, Seq::<StepV>::empty())]
        },
    }
}

/// Every path found to `target`, in the order found.
pub open spec fn why_found(pkg: &PackageJson, lock: &Lockfile, target: Seq<char>) -> Seq<FoundV> {
    let d = direct_found(pkg, lock, target);
    d + roots_found(lock, target, root_order(pkg), root_ranges(pkg), 0, d.len())
}

/// The paths found for version `v`, in the order found.
pub open spec fn paths_of(found: Seq<FoundV>, v: Seq<char>) -> Seq<PathV>
    decreases found.len(),
{
    if found.len() == 0 {
        seq![]
    } else {
        let rest = paths_of(found.drop_last(), v);
        if found.last().0 == v {
            rest.push(found.last().1)
        } else {
            rest
        }
    }
}

/// The paths of length `n`, in order.
pub open spec fn with_len(ps: Seq<PathV>, n: nat) -> Seq<PathV>
    decreases ps.len(),
{
    if ps.len() == 0 {
        seq![]
    } else {
        let rest = with_len(ps.drop_last(), n);
        if ps.last().len() == n {
            rest.push(ps.last())
        } else {
            rest
        }
    }
}

/// The longest length among `ps`.
pub open spec fn max_len(ps: Seq<PathV>) -> nat
    decreases ps.len(),
{
    if ps.len() == 0 {
        0
    } else {
        let m = max_len(ps.drop_last());
        if ps.last().len() > m {
            ps.last().len()
        } else {
            m
        }
    }
}

/// The paths of lengths `n`, `n + 1`, … (`count` lengths), each length in order.
pub open spec fn by_len_from(ps: Seq<PathV>, n: nat, count: nat) -> Seq<PathV>
    decreases count,
{
    if count == 0 {
        seq![]
    } else {
        with_len(ps, n) + by_len_from(ps, n + 1, (count - 1) as nat)
    }
}

/// The paths sorted by length, shortest first, keeping the order of paths of
/// equal length.
pub open spec fn sorted_by_len(ps: Seq<PathV>) -> Seq<PathV> {
    by_len_from(ps, 0, max_len(ps) + 1)
}

/// The versions of a why result.
pub open spec fn versions_of(vs: Seq<WhyVersion>) -> Seq<Seq<char>> {
    vs.map_values(|v: WhyVersion| v.version@)
}

/// The versions found, without repetition, in increasing order, each with its
/// paths sorted by length.
pub open spec fn grouped(vs: Seq<WhyVersion>, found: Seq<FoundV>) -> bool {
    &&& sorted_keys(versions_of(vs))
    &&& versions_of(vs).to_set() == found.map_values(|f: FoundV| f.0).to_set()
    &&& forall|i: int|
        0 <= i < vs.len() ==> paths_v(#[trigger] vs[i].paths@) == sorted_by_len(
            paths_of(found, vs[i].version@),
        )
}

/// The error for a package that is not installed.
pub open spec fn not_installed_msg(target: Seq<char>) -> Seq<char> {
    "error: package \""@ + target + "\" is not installed"@
}

/// Two increasing sequences with the same members are equal.
pub proof fn lemma_sorted_unique(a: Seq<Seq<char>>, b: Seq<Seq<char>>)
    requires
        sorted_keys(a),
        sorted_keys(b),
        forall|x: Seq<char>| a.contains(x) <==> b.contains(x),
    ensures
        a == b,
    decreases a.len(),
{
    if a.len() == 0 {
        if b.len() > 0 {
            assert(b.contains(b[0]));
        }
    } else if b.len() == 0 {
        assert(a.contains(a[0]));
    } else {
        assert(a.contains(a[0]));
        assert(b.contains(b[0]));
        if a[0] != b[0] {
            let j = choose|j: int| 0 <= j < b.len() && b[j] == a[0];
            let k = choose|k: int| 0 <= k < a.len() && a[k] == b[0];
            assert(j > 0 && k > 0);
            assert(crate::text::lex_lt(b[0], b[j]));
            assert(crate::text::lex_lt(a[0], a[k]));
            lemma_lex_asymmetric(a[0], b[0]);
        }
        let a1 = a.drop_first();
        let b1 = b.drop_first();
        assert forall|x: Seq<char>| a1.contains(x) <==> b1.contains(x) by {
            if a1.contains(x) {
                let j = choose|j: int| 0 <= j < a1.len() && a1[j] == x;
                assert(a[j + 1] == x);
                assert(crate::text::lex_lt(a[0], x));
                lemma_lex_irreflexive(x);
                assert(b.contains(x));
                let m = choose|m: int| 0 <= m < b.len() && b[m] == x;
                assert(m != 0);
                assert(b1[m - 1] == x);
            }
            if b1.contains(x) {
                let j = choose|j: int| 0 <= j < b1.len() && b1[j] == x;
                assert(b[j + 1] == x);
                assert(crate::text::lex_lt(b[0], x));
                lemma_lex_irreflexive(x);
                assert(a.contains(x));
                let m = choose|m: int| 0 <= m < a.len() && a[m] == x;
                assert(m != 0);
                assert(a1[m - 1] == x);
            }
        }
        lemma_sorted_unique(a1, b1);
        assert(a =~= seq![a[0]] + a1);
        assert(b =~= seq![b[0]] + b1);
    }
}

/// Stores into `m` every entry of `src`, replacing what `m` held under the
/// same keys.
fn overlay(m: &mut StrMap<String>, src: &StrMap<String>)
    ensures
        forall|k: Seq<char>|
            #![trigger final(m).lookup(k)]
            opt_view(final(m).lookup(k)) == (match opt_view(src.lookup(k)) {
                Some(v) => Some(v),
                None => opt_view(old(m).lookup(k)),
            }),
{
    let n = src.len();
    let mut i: usize = 0;
    src.keys_sorted();
    while i < n
        invariant
            i <= n,
            n == src.size(),
            sorted_keys(src.kseq()),
            forall|k: Seq<char>|
                #![trigger m.lookup(k)]
                opt_view(m.lookup(k)) == (match opt_view(src.lookup_within(k, i as int)) {
                    Some(v) => Some(v),
                    None => opt_view(old(m).lookup(k)),
                }),
        decreases n - i,
    {
        let k = src.key_at(i);
        let v = src.value_at(i);
        let ghost kv = k@;
        m.insert(k.clone(), v.clone());
        proof {
            assert forall|x: Seq<char>| #![trigger m.lookup(x)]
                opt_view(m.lookup(x)) == (match opt_view(src.lookup_within(x, i + 1)) {
                    Some(v) => Some(v),
                    None => opt_view(old(m).lookup(x)),
                }) by {
                src.lemma_lookup_within_step(x, i as int);
            }
        }
        i += 1;
    }
    proof {
        assert forall|k: Seq<char>| #![trigger m.lookup(k)]
            opt_view(m.lookup(k)) == (match opt_view(src.lookup(k)) {
                Some(v) => Some(v),
                None => opt_view(old(m).lookup(k)),
            }) by {
            src.lemma_lookup_within_all(k);
        }
    }
}

/// The root dependencies with their ranges, in increasing order.
fn merged_roots(pkg: &PackageJson) -> (m: StrMap<String>)
    ensures
        m.kseq() == root_order(pkg),
        str_vals(&m) == root_ranges(pkg),
        forall|k: Seq<char>| #![trigger m.lookup(k)] opt_view(m.lookup(k)) == root_range(pkg, k),
{
    let mut m: StrMap<String> = StrMap::new();
    overlay(&mut m, &pkg.dependencies);
    overlay(&mut m, &pkg.dev_dependencies);
    overlay(&mut m, &pkg.optional_dependencies);
    m.keys_sorted();
    proof {
        assert forall|k: Seq<char>| #![trigger m.lookup(k)] opt_view(m.lookup(k)) == root_range(pkg, k) by {}
        assert forall|k: Seq<char>| m.kseq().contains(k) <==> (root_range(pkg, k) is Some) by {
            assert(opt_view(m.lookup(k)) == root_range(pkg, k));
        }
        assert(is_root_order(pkg, m.kseq()));
        let r = root_order(pkg);
        lemma_sorted_unique(m.kseq(), r);
        m.lemma_sizes();
        assert forall|i: int| 0 <= i < m.kseq().len() implies #[trigger] str_vals(&m)[i] == root_ranges(pkg)[i] by {
            m.lemma_lookup_at(i);
            assert(opt_view(m.lookup(m.kseq()[i])) == root_range(pkg, m.kseq()[i]));
        }
        assert(str_vals(&m) =~= root_ranges(pkg));
    }
    m
}

/// A state of the search, as held while searching.
struct SearchItem {
    key: String,
    path: Vec<WhyPathEntry>,
    visited: Vec<String>,
}

/// A path found to the target, as held while searching: (version, path).
type FoundE = (String, Vec<WhyPathEntry>);

pub open spec fn strs_v(v: Seq<String>) -> Seq<Seq<char>> {
    v.map_values(|s: String| s@)
}

spec fn item_v(it: SearchItem) -> ItemV {
    (it.key@, path_v(it.path@), strs_v(it.visited@))
}

spec fn items_v(s: Seq<SearchItem>) -> Seq<ItemV> {
    s.map_values(|it: SearchItem| item_v(it))
}

spec fn found_v(s: Seq<FoundE>) -> Seq<FoundV> {
    s.map_values(|f: FoundE| (f.0@, path_v(f.1@)))
}

/// Every state of `level` has visited `d + 1` distinct lockfile keys, the
/// last of which is its own key.
spec fn wf_level(lock: &Lockfile, level: Seq<ItemV>, d: nat) -> bool {
    forall|i: int|
        0 <= i < level.len() ==> {
            let it = #[trigger] level[i];
            &&& it.2.len() == d + 1
            &&& it.2.no_duplicates()
            &&& forall|j: int| 0 <= j < it.2.len() ==> lock.entries.has(#[trigger] it.2[j])
            &&& lock.entries.has(it.0)
        }
}

/// A path of distinct lockfile keys is no longer than the lockfile.
proof fn lemma_visited_bound(lock: &Lockfile, vis: Seq<Seq<char>>)
    requires
        vis.no_duplicates(),
        forall|j: int| 0 <= j < vis.len() ==> lock.entries.has(#[trigger] vis[j]),
    ensures
        vis.len() <= lock.entries.size(),
{
    vis.unique_seq_to_set();
    let ks = lock.entries.kseq();
    ks.lemma_cardinality_of_set();
    assert forall|x: Seq<char>| vis.to_set().contains(x) implies ks.to_set().contains(x) by {
        let j = choose|j: int| 0 <= j < vis.len() && vis[j] == x;
        assert(lock.entries.has(vis[j]));
    }
    vstd::set_lib::lemma_len_subset(vis.to_set(), ks.to_set());
}

/// The states expanded from a state extend its visited keys by a new key,
/// in the lockfile, which is their own.
proof fn lemma_expand_children(
    lock: &Lockfile,
    target: Seq<char>,
    ks: Seq<Seq<char>>,
    vs: Seq<Seq<char>>,
    i: int,
    path: PathV,
    visited: Seq<Seq<char>>,
)
    ensures
        forall|c: int|
            0 <= c < expand(lock, target, ks, vs, i, path, visited).0.len() ==> {
                let it = #[trigger] expand(lock, target, ks, vs, i, path, visited).0[c];
                &&& it.2 == visited.push(it.0)
                &&& !visited.contains(it.0)
                &&& lock.entries.has(it.0)
            },
    decreases ks.len() - i,
{
    if 0 <= i < ks.len() {
        lemma_expand_children(lock, target, ks, vs, i + 1, path, visited);
        let rest = expand(lock, target, ks, vs, i + 1, path, visited).0;
        let cur = expand(lock, target, ks, vs, i, path, visited).0;
        assert forall|c: int| 0 <= c < cur.len() implies {
            let it = #[trigger] cur[c];
            &&& it.2 == visited.push(it.0)
            &&& !visited.contains(it.0)
            &&& lock.entries.has(it.0)
        } by {
            if cur.len() > rest.len() && c > 0 {
                assert(cur[c] == rest[c - 1]);
            } else if cur.len() == rest.len() {
                assert(cur[c] == rest[c]);
            }
        }
    }
}

/// Expanding a well-formed state at depth `d` gives well-formed states at
/// depth `d + 1`.
proof fn lemma_expand_wf(lock: &Lockfile, target: Seq<char>, it: ItemV, d: nat)
    requires
        wf_level(lock, seq![it], d),
    ensures
        wf_level(lock, expand_item(lock, target, it).0, d + 1),
{
    assert(seq![it][0] == it);
    let ks = dep_names(lock, it.0);
    let vs = dep_ranges(lock, it.0);
    lemma_expand_children(lock, target, ks, vs, 0, it.1, it.2);
    let cs = expand_item(lock, target, it).0;
    assert forall|c: int| 0 <= c < cs.len() implies {
        let x = #[trigger] cs[c];
        &&& x.2.len() == d + 2
        &&& x.2.no_duplicates()
        &&& forall|j: int| 0 <= j < x.2.len() ==> lock.entries.has(#[trigger] x.2[j])
        &&& lock.entries.has(x.0)
    } by {
        let x = cs[c];
        assert(x.2 == it.2.push(x.0));
        assert forall|j: int| 0 <= j < x.2.len() implies lock.entries.has(#[trigger] x.2[j]) by {
            if j < it.2.len() {
                assert(x.2[j] == it.2[j]);
            }
        }
        assert forall|a: int, b: int| 0 <= a < x.2.len() && 0 <= b < x.2.len() && a != b implies x.2[a]
            != x.2[b] by {
            if a < it.2.len() && b < it.2.len() {
                assert(x.2[a] == it.2[a]);
                assert(x.2[b] == it.2[b]);
            } else if a < it.2.len() {
                assert(x.2[a] == it.2[a]);
                assert(it.2.contains(it.2[a]));
            } else if b < it.2.len() {
                assert(x.2[b] == it.2[b]);
                assert(it.2.contains(it.2[b]));
            }
        }
    }
}

/// Breadth-first order unfolds one level at a time.
proof fn lemma_bfs_unfold(lock: &Lockfile, target: Seq<char>, level: Seq<ItemV>, fuel: nat)
    requires
        fuel > 0,
        level.len() > 0,
    ensures
        bfs_order(lock, target, level, fuel) == level + bfs_order(
            lock,
            target,
            next_level(lock, target, level),
            (fuel - 1) as nat,
        ),
{
}

fn copy_strs(v: &Vec<String>) -> (r: Vec<String>)
    ensures
        r@ == v@,
{
    let mut r: Vec<String> = Vec::new();
    let mut i: usize = 0;
    while i < v.len()
        invariant
            i <= v.len(),
            r@ == v@.take(i as int),
        decreases v.len() - i,
    {
        r.push(v[i].clone());
        proof {
            assert(v@.take(i as int).push(v@[i as int]) =~= v@.take(i + 1));
        }
        i += 1;
    }
    proof {
        assert(v@.take(v.len() as int) =~= v@);
    }
    r
}

fn copy_entry(e: &WhyPathEntry) -> (r: WhyPathEntry)
    ensures
        step_v(r) == step_v(*e),
{
    WhyPathEntry { name: e.name.clone(), range: e.range.clone(), version: e.version.clone() }
}

fn copy_path(p: &Vec<WhyPathEntry>) -> (r: Vec<WhyPathEntry>)
    ensures
        path_v(r@) == path_v(p@),
{
    let mut r: Vec<WhyPathEntry> = Vec::new();
    let mut i: usize = 0;
    while i < p.len()
        invariant
            i <= p.len(),
            path_v(r@) == path_v(p@.take(i as int)),
        decreases p.len() - i,
    {
        r.push(copy_entry(&p[i]));
        proof {
            assert(path_v(p@.take(i as int)).push(step_v(p@[i as int])) =~= path_v(p@.take(i + 1)));
        }
        i += 1;
    }
    proof {
        assert(p@.take(p.len() as int) =~= p@);
    }
    r
}

/// Whether `k` is among `v`.
fn strs_contain(v: &Vec<String>, k: &str) -> (b: bool)
    ensures
        b == strs_v(v@).contains(k@),
{
    let mut i: usize = 0;
    while i < v.len()
        invariant
            i <= v.len(),
            forall|j: int| 0 <= j < i ==> strs_v(v@)[j] != k@,
        decreases v.len() - i,
    {
        if str_eq(v[i].as_str(), k) {
            assert(strs_v(v@)[i as int] == k@);
            return true;
        }
        i += 1;
    }
    false
}

/// Expands one search state: appends the states to search further to
/// `next` and the paths found to `found`.
fn expand_exec(
    lock: &Lockfile,
    target: &str,
    item: &SearchItem,
    next: &mut Vec<SearchItem>,
    found: &mut Vec<FoundE>,
)
    requires
        lock.entries.has(item.key@),
    ensures
        items_v(final(next)@) == items_v(old(next)@) + expand_item(lock, target@, item_v(*item)).0,
        found_v(final(found)@) == found_v(old(found)@) + expand_item(lock, target@, item_v(*item)).1,
{
    let ghost it = item_v(*item);
    let ghost n0 = items_v(next@);
    let ghost f0 = found_v(found@);
    let entry = match lock.entries.get(item.key.as_str()) {
        Some(e) => e,
        None => {
            return;
        },
    };
    let deps = &entry.dependencies;
    let ghost ks = deps.kseq();
    let ghost vs = str_vals(deps);
    proof {
        deps.lemma_sizes();
        assert(ks == dep_names(lock, it.0));
        assert(vs == dep_ranges(lock, it.0));
    }
    let n = deps.len();
    let mut i: usize = 0;
    while i < n
        invariant
            i <= n,
            n == ks.len(),
            ks.len() == vs.len(),
            ks == deps.kseq(),
            vs == str_vals(deps),
            it == item_v(*item),
            items_v(next@) + expand(lock, target@, ks, vs, i as int, it.1, it.2).0 == n0 + expand(
                lock,
                target@,
                ks,
                vs,
                0,
                it.1,
                it.2,
            ).0,
            found_v(found@) + expand(lock, target@, ks, vs, i as int, it.1, it.2).1 == f0 + expand(
                lock,
                target@,
                ks,
                vs,
                0,
                it.1,
                it.2,
            ).1,
        decreases n - i,
    {
        let name = deps.key_at(i);
        let range = deps.value_at(i);
        let key = Lockfile::spec_key(name.as_str(), range.as_str());
        let ghost nb = items_v(next@);
        let ghost fb = found_v(found@);
        let ghost kv = key@;
        proof {
            assert(name@ == ks[i as int]);
            assert(range@ == vs[i as int]);
            assert(kv == spec_key_of(ks[i as int], vs[i as int]));
        }
        if !strs_contain(&item.visited, key.as_str()) {
            match lock.entries.get(key.as_str()) {
                Some(dep_entry) => {
                    let mut path = copy_path(&item.path);
                    path.push(
                        WhyPathEntry {
                            name: name.clone(),
                            range: range.clone(),
                            version: dep_entry.version.clone(),
                        },
                    );
                    let ghost pv = it.1.push((ks[i as int], vs[i as int], version_at(lock, kv)));
                    proof {
                        assert(path_v(path@) =~= pv);
                    }
                    if str_eq(name.as_str(), target) {
                        found.push((dep_entry.version.clone(), path));
                        proof {
                            assert(found_v(found@) =~= fb.push((version_at(lock, kv), pv)));
                            assert(fb.push((version_at(lock, kv), pv)) + expand(lock, target@, ks, vs, i + 1, it.1, it.2).1
                                =~= fb + expand(lock, target@, ks, vs, i as int, it.1, it.2).1);
                        }
                    } else {
                        let mut vis = copy_strs(&item.visited);
                        let key2 = key.clone();
                        vis.push(key2);
                        next.push(SearchItem { key, path, visited: vis });
                        proof {
                            assert(strs_v(vis@) =~= it.2.push(kv));
                            assert(items_v(next@) =~= nb.push((kv, pv, it.2.push(kv))));
                            assert(nb.push((kv, pv, it.2.push(kv))) + expand(lock, target@, ks, vs, i + 1, it.1, it.2).0
                                =~= nb + expand(lock, target@, ks, vs, i as int, it.1, it.2).0);
                        }
                    }
                },
                None => {},
            }
        }
        i += 1;
    }
}


/// Searches breadth-first from one root dependency, appending the paths found
/// to `found`; stops taking up states once `MAX_PATHS` paths are found.
fn search_root(lock: &Lockfile, target: &str, name: &str, range: &str, found: &mut Vec<FoundE>)
    requires
        lock.entries.has(spec_key_of(name@, range@)),
    ensures
        found_v(final(found)@) == found_v(old(found)@) + root_found(
            lock,
            target@,
            name@,
            range@,
            old(found)@.len() as nat,
        ),
{
    let key = Lockfile::spec_key(name, range);
    let entry = match lock.entries.get(key.as_str()) {
        Some(e) => e,
        None => {
            return;
        },
    };
    let mut path: Vec<WhyPathEntry> = Vec::new();
    path.push(WhyPathEntry { name: owned(name), range: owned(range), version: entry.version.clone() });
    let mut visited: Vec<String> = Vec::new();
    visited.push(key.clone());
    let mut cur: Vec<SearchItem> = Vec::new();
    cur.push(SearchItem { key, path, visited });
    let ghost n = lock.entries.size();
    let ghost mut fuel: nat = n;
    let ghost f0 = found_v(found@);
    let ghost goal = root_found(lock, target@, name@, range@, found@.len() as nat);
    proof {
        let r = root_item(lock, name@, range@);
        assert(path_v(cur@[0].path@) =~= r.1);
        assert(strs_v(cur@[0].visited@) =~= r.2);
        assert(items_v(cur@) =~= seq![r]);
        assert(r.2 =~= seq![r.0]);
        assert(wf_level(lock, items_v(cur@), 0));
        assert(f0 + goal =~= found_v(found@) + run_items(
            lock,
            target@,
            bfs_order(lock, target@, items_v(cur@), fuel),
            found@.len() as nat,
        ));
    }
    while cur.len() > 0
        invariant
            f0 == found_v(old(found)@),
            goal == root_found(lock, target@, name@, range@, old(found)@.len() as nat),
            fuel <= n,
            n == lock.entries.size(),
            wf_level(lock, items_v(cur@), (n - fuel) as nat),
            found_v(found@) + run_items(
                lock,
                target@,
                bfs_order(lock, target@, items_v(cur@), fuel),
                found@.len() as nat,
            ) == f0 + goal,
        decreases fuel,
    {
        let ghost level = items_v(cur@);
        let ghost d: nat = (n - fuel) as nat;
        proof {
            assert(level[0] == item_v(cur@[0]));
            lemma_visited_bound(lock, level[0].2);
            assert(fuel > 0);
            lemma_bfs_unfold(lock, target@, level, fuel);
            assert(level.skip(0) =~= level);
            assert(next_level(lock, target@, level.take(0)) =~= Seq::<ItemV>::empty());
        }
        let ghost later = bfs_order(lock, target@, next_level(lock, target@, level), (fuel - 1) as nat);
        let mut next: Vec<SearchItem> = Vec::new();
        let mut j: usize = 0;
        while j < cur.len() && found.len() < MAX_PATHS
            invariant
                f0 == found_v(old(found)@),
                goal == root_found(lock, target@, name@, range@, old(found)@.len() as nat),
                j <= cur.len(),
                level == items_v(cur@),
                fuel > 0,
                fuel <= n,
                n == lock.entries.size(),
                d == n - fuel,
                wf_level(lock, level, d),
                wf_level(lock, items_v(next@), d + 1),
                later == bfs_order(lock, target@, next_level(lock, target@, level), (fuel - 1) as nat),
                items_v(next@) == next_level(lock, target@, level.take(j as int)),
                found_v(found@) + run_items(lock, target@, level.skip(j as int) + later, found@.len() as nat)
                    == f0 + goal,
            decreases cur.len() - j,
        {
            let ghost nb = items_v(next@);
            let ghost fb = found_v(found@);
            let ghost tb: nat = found@.len() as nat;
            let ghost it = level[j as int];
            proof {
                assert(it == item_v(cur@[j as int]));
                assert(lock.entries.has(it.0));
            }
            expand_exec(lock, target, &cur[j], &mut next, found);
            proof {
                let ex = expand_item(lock, target@, it);
                let s = level.skip(j as int) + later;
                assert(s[0] == it);
                assert(s.drop_first() =~= level.skip(j + 1) + later);
                assert(run_items(lock, target@, s, tb) == ex.1 + run_items(
                    lock,
                    target@,
                    s.drop_first(),
                    tb + ex.1.len(),
                ));
                assert(found_v(found@).len() == found@.len());
                assert(found@.len() == tb + ex.1.len());
                assert(fb + ex.1 + run_items(lock, target@, s.drop_first(), tb + ex.1.len()) =~= fb
                    + run_items(lock, target@, s, tb));
                assert(level.take(j + 1).drop_last() =~= level.take(j as int));
                assert(next_level(lock, target@, level.take(j + 1)) == nb + ex.0);
                assert(wf_level(lock, seq![it], d)) by {
                    assert(seq![it][0] == it);
                }
                lemma_expand_wf(lock, target@, it, d);
                assert(wf_level(lock, items_v(next@), d + 1)) by {
                    assert forall|k: int| 0 <= k < items_v(next@).len() implies #[trigger] items_v(next@)[k]
                        == (if k < nb.len() { nb[k] } else { ex.0[k - nb.len()] }) by {
                        assert(items_v(next@) == nb + ex.0);
                    }
                }
            }
            j += 1;
        }
        if found.len() >= MAX_PATHS {
            proof {
                let s = level.skip(j as int) + later;
                assert(run_items(lock, target@, s, found@.len() as nat) =~= Seq::<FoundV>::empty());
                assert(found_v(found@) + Seq::<FoundV>::empty() =~= found_v(found@));
                assert(found_v(found@) == f0 + goal);
                assert(f0 == found_v(old(found)@));
            }
            return;
        }
        proof {
            assert(level.skip(j as int) =~= Seq::<ItemV>::empty());
            assert(level.skip(j as int) + later =~= later);
            assert(level.take(j as int) =~= level);
        }
        cur = next;
        proof {
            fuel = (fuel - 1) as nat;
        }
    }
}

/// The paths found for version `v`, in the order found.
fn paths_with(found: &Vec<FoundE>, v: &str) -> (r: Vec<Vec<WhyPathEntry>>)
    ensures
        paths_v(r@) == paths_of(found_v(found@), v@),
{
    let ghost fv = found_v(found@);
    let mut r: Vec<Vec<WhyPathEntry>> = Vec::new();
    let mut j: usize = 0;
    while j < found.len()
        invariant
            j <= found.len(),
            fv == found_v(found@),
            paths_v(r@) == paths_of(fv.take(j as int), v@),
        decreases found.len() - j,
    {
        let ghost rb = paths_v(r@);
        proof {
            assert(fv.take(j + 1).drop_last() =~= fv.take(j as int));
            assert(fv.take(j + 1).last() == fv[j as int]);
        }
        if str_eq(found[j].0.as_str(), v) {
            r.push(copy_path(&found[j].1));
            proof {
                assert(paths_v(r@) =~= rb.push(fv[j as int].1));
            }
        }
        j += 1;
    }
    proof {
        assert(fv.take(found.len() as int) =~= fv);
    }
    r
}

/// Appends the paths of length `l` to `out`, in order.
fn push_with_len(ps: &Vec<Vec<WhyPathEntry>>, l: usize, out: &mut Vec<Vec<WhyPathEntry>>)
    ensures
        paths_v(final(out)@) == paths_v(old(out)@) + with_len(paths_v(ps@), l as nat),
{
    let ghost pv = paths_v(ps@);
    let ghost o0 = paths_v(out@);
    let mut j: usize = 0;
    while j < ps.len()
        invariant
            j <= ps.len(),
            pv == paths_v(ps@),
            o0 == paths_v(old(out)@),
            paths_v(out@) == o0 + with_len(pv.take(j as int), l as nat),
        decreases ps.len() - j,
    {
        let ghost ob = paths_v(out@);
        proof {
            assert(pv.take(j + 1).drop_last() =~= pv.take(j as int));
            assert(pv.take(j + 1).last() == pv[j as int]);
            assert(pv[j as int].len() == ps@[j as int]@.len());
        }
        if ps[j].len() == l {
            out.push(copy_path(&ps[j]));
            proof {
                assert(paths_v(out@) =~= ob.push(pv[j as int]));
            }
        }
        j += 1;
    }
    proof {
        assert(pv.take(ps.len() as int) =~= pv);
    }
}

/// The paths sorted by length, shortest first, paths of equal length in
/// their order.
fn sort_by_len(ps: &Vec<Vec<WhyPathEntry>>) -> (r: Vec<Vec<WhyPathEntry>>)
    ensures
        paths_v(r@) == sorted_by_len(paths_v(ps@)),
{
    let ghost pv = paths_v(ps@);
    let mut m: usize = 0;
    let mut j: usize = 0;
    while j < ps.len()
        invariant
            j <= ps.len(),
            pv == paths_v(ps@),
            m == max_len(pv.take(j as int)),
        decreases ps.len() - j,
    {
        proof {
            assert(pv.take(j + 1).drop_last() =~= pv.take(j as int));
            assert(pv.take(j + 1).last() == pv[j as int]);
            assert(pv[j as int].len() == ps@[j as int]@.len());
        }
        if ps[j].len() > m {
            m = ps[j].len();
        }
        j += 1;
    }
    proof {
        assert(pv.take(ps.len() as int) =~= pv);
    }
    let ghost total = by_len_from(pv, 0, m as nat + 1);
    let mut r: Vec<Vec<WhyPathEntry>> = Vec::new();
    let mut l: usize = 0;
    let mut more = true;
    while more
        invariant
            l <= m,
            pv == paths_v(ps@),
            total == by_len_from(pv, 0, m as nat + 1),
            total == paths_v(r@) + (if more {
                by_len_from(pv, l as nat, (m - l + 1) as nat)
            } else {
                Seq::<PathV>::empty()
            }),
        decreases m - l + (if more { 1int } else { 0int }),
    {
        let ghost rb = paths_v(r@);
        push_with_len(ps, l, &mut r);
        proof {
            assert(rb + by_len_from(pv, l as nat, (m - l + 1) as nat) =~= paths_v(r@) + by_len_from(
                pv,
                (l + 1) as nat,
                (m - l) as nat,
            ));
        }
        if l < m {
            l += 1;
        } else {
            more = false;
            proof {
                assert(by_len_from(pv, (l + 1) as nat, 0) =~= Seq::<PathV>::empty());
                assert(paths_v(r@) + Seq::<PathV>::empty() =~= paths_v(r@));
            }
        }
    }
    proof {
        assert(paths_v(r@) + Seq::<PathV>::empty() =~= paths_v(r@));
    }
    r
}

/// Groups the paths found by version: versions in increasing order, each
/// with its paths sorted by length.
fn group_found(found: &Vec<FoundE>) -> (r: Vec<WhyVersion>)
    ensures
        grouped(r@, found_v(found@)),
{
    let ghost fv = found_v(found@);
    let mut vers = StrSet::new();
    let mut i: usize = 0;
    while i < found.len()
        invariant
            i <= found.len(),
            fv == found_v(found@),
            vers.set_view() == fv.take(i as int).map_values(|f: FoundV| f.0).to_set(),
        decreases found.len() - i,
    {
        vers.insert(found[i].0.clone());
        proof {
            assert(fv.take(i + 1).map_values(|f: FoundV| f.0) =~= fv.take(i as int).map_values(
                |f: FoundV| f.0,
            ).push(fv[i as int].0));
            fv.take(i as int).map_values(|f: FoundV| f.0).lemma_push_to_set_commute(fv[i as int].0);
        }
        i += 1;
    }
    proof {
        assert(fv.take(found.len() as int) =~= fv);
    }
    vers.elems_sorted();
    let mut r: Vec<WhyVersion> = Vec::new();
    let mut k: usize = 0;
    while k < vers.len()
        invariant
            k <= vers.elems().len(),
            fv == found_v(found@),
            versions_of(r@) == vers.elems().take(k as int),
            forall|i: int|
                0 <= i < r@.len() ==> paths_v(#[trigger] r@[i].paths@) == sorted_by_len(
                    paths_of(fv, r@[i].version@),
                ),
        decreases vers.elems().len() - k,
    {
        let v = vers.at(k);
        let ps = paths_with(found, v.as_str());
        let sorted = sort_by_len(&ps);
        let ghost rb = r@;
        proof {
            assert(versions_of(rb).len() == rb.len());
            assert(rb.len() == k);
        }
        r.push(WhyVersion { version: v.clone(), paths: sorted });
        proof {
            assert(r@[k as int].version@ == vers.elems()[k as int]);
            assert(versions_of(r@) =~= versions_of(rb).push(vers.elems()[k as int]));
            assert(vers.elems().take(k as int).push(vers.elems()[k as int]) =~= vers.elems().take(k + 1));
            assert(versions_of(r@) =~= vers.elems().take(k + 1));
            assert forall|i: int| 0 <= i < r@.len() implies paths_v(#[trigger] r@[i].paths@)
                == sorted_by_len(paths_of(fv, r@[i].version@)) by {
                if i < rb.len() {
                    assert(r@[i] == rb[i]);
                }
            }
        }
        k += 1;
    }
    proof {
        assert(vers.elems().take(vers.elems().len() as int) =~= vers.elems());
    }
    r
}

/// Build why result from package.json and lockfile (pure logic, no I/O)
///
/// Every path from a root dependency (regular, dev or optional) to `target`
/// is searched breadth-first; a direct dependency on `target` counts as the
/// empty path. The paths are grouped by the version of `target` they reach.
pub fn build_why(pkg: &PackageJson, lockfile: &Lockfile, target: &str) -> (r: Result<WhyResult, String>)
    ensures
        match r {
            Ok(w) => {
                &&& why_found(pkg, lockfile, target@).len() > 0
                &&& w.name@ == target@
                &&& grouped(w.versions@, why_found(pkg, lockfile, target@))
            },
            Err(e) => why_found(pkg, lockfile, target@).len() == 0 && e@ == not_installed_msg(target@),
        },
{
    let roots = merged_roots(pkg);
    let ghost rks = roots.kseq();
    let ghost rvs = str_vals(&roots);
    let mut found: Vec<FoundE> = Vec::new();
    match roots.get(target) {
        Some(range) => {
            let key = Lockfile::spec_key(target, range.as_str());
            match lockfile.entries.get(key.as_str()) {
                Some(e) => found.push((e.version.clone(), Vec::new())),
                None => found.push((owned("unknown"), Vec::new())),
            }
            proof {
                assert(opt_view(roots.lookup(target@)) == root_range(pkg, target@));
                assert(path_v(found@[0].1@) =~= Seq::<StepV>::empty());
                assert(found_v(found@) =~= direct_found(pkg, lockfile, target@));
            }
        },
        None => {
            proof {
                assert(opt_view(roots.lookup(target@)) == root_range(pkg, target@));
                assert(found_v(found@) =~= direct_found(pkg, lockfile, target@));
            }
        },
    }
    let ghost d = found_v(found@);
    let ghost goal = roots_found(lockfile, target@, rks, rvs, 0, d.len());
    proof {
        roots.lemma_sizes();
    }
    let n = roots.len();
    let mut i: usize = 0;
    while i < n
        invariant
            i <= n,
            n == rks.len(),
            rks.len() == rvs.len(),
            rks == roots.kseq(),
            rvs == str_vals(&roots),
            found_v(found@) + roots_found(lockfile, target@, rks, rvs, i as int, found@.len() as nat) == d
                + goal,
        decreases n - i,
    {
        let name = roots.key_at(i);
        let range = roots.value_at(i);
        proof {
            assert(name@ == rks[i as int]);
            assert(range@ == rvs[i as int]);
            assert(found_v(found@).len() == found@.len());
        }
        if !str_eq(name.as_str(), target) {
            let key = Lockfile::spec_key(name.as_str(), range.as_str());
            if lockfile.entries.contains_key(key.as_str()) {
                let ghost fb = found_v(found@);
                let ghost tb = found@.len() as nat;
                search_root(lockfile, target, name.as_str(), range.as_str(), &mut found);
                proof {
                    let f = root_found(lockfile, target@, rks[i as int], rvs[i as int], tb);
                    assert(found_v(found@).len() == found@.len());
                    assert(fb + f + roots_found(lockfile, target@, rks, rvs, i + 1, tb + f.len()) =~= fb
                        + roots_found(lockfile, target@, rks, rvs, i as int, tb));
                }
            }
        }
        i += 1;
    }
    proof {
        assert(found_v(found@) + Seq::<FoundV>::empty() =~= found_v(found@));
        assert(found_v(found@) == why_found(pkg, lockfile, target@));
        assert(found_v(found@).len() == found@.len());
    }
    if found.len() == 0 {
        let mut msg = owned("error: package \"");
        push_str(&mut msg, target);
        push_str(&mut msg, "\" is not installed");
        proof {
            reveal_strlit("error: package \"");
            reveal_strlit("\" is not installed");
        }
        return Err(msg);
    }
    let versions = group_found(&found);
    Ok(WhyResult { name: owned(target), versions })
}

/// A why version as plain values: (version, paths).
pub open spec fn version_v(v: WhyVersion) -> (Seq<char>, Seq<PathV>) {
    (v.version@, paths_v(v.paths@))
}

/// At most this many paths are listed per version in text output.
pub const MAX_SHOWN_PATHS: usize = 10;

/// `name@range`.
pub open spec fn step_text(s: StepV) -> Seq<char> {
    s.0 + "@"@ + s.1
}

/// One path line: the chain `a@^1 → b@^2`, or `dependencies (direct)` for
/// the empty path.
pub open spec fn path_line(p: PathV) -> Seq<char> {
    if p.len() == 0 {
        "  dependencies (direct)\n"@
    } else {
        "  "@ + join(p.map_values(|s: StepV| step_text(s)), " → "@) + "\n"@
    }
}

/// The path lines of `ps`, in order.
pub open spec fn path_lines(ps: Seq<PathV>) -> Seq<char>
    decreases ps.len(),
{
    if ps.len() == 0 {
        seq![]
    } else {
        path_lines(ps.drop_last()) + path_line(ps.last())
    }
}

/// The text block of one version: a header, the first `MAX_SHOWN_PATHS`
/// paths and a note on how many more there are.
pub open spec fn version_block(name: Seq<char>, v: (Seq<char>, Seq<PathV>)) -> Seq<char> {
    let n = v.1.len();
    name + "@"@ + v.0 + "\n"@ + path_lines(v.1.take(if n < MAX_SHOWN_PATHS { n as int } else { MAX_SHOWN_PATHS as int }))
        + if n > MAX_SHOWN_PATHS {
        "  and "@ + dec((n - MAX_SHOWN_PATHS) as nat) + " more paths — use --json for all\n"@
    } else {
        seq![]
    }
}

/// The text of a why result: the version blocks separated by blank lines.
pub open spec fn why_text(name: Seq<char>, vs: Seq<(Seq<char>, Seq<PathV>)>) -> Seq<char>
    decreases vs.len(),
{
    if vs.len() == 0 {
        seq![]
    } else {
        why_text(name, vs.drop_last()) + (if vs.len() > 1 { "\n"@ } else { seq![] }) + version_block(
            name,
            vs.last(),
        )
    }
}

fn push_path_line(out: &mut String, path: &Vec<WhyPathEntry>)
    ensures
        final(out)@ == old(out)@ + path_line(path_v(path@)),
{
    if path.len() == 0 {
        push_str(out, "  dependencies (direct)\n");
        proof {
            reveal_strlit("  dependencies (direct)\n");
        }
    } else {
        let mut parts: Vec<String> = Vec::new();
        let mut i: usize = 0;
        while i < path.len()
            invariant
                i <= path.len(),
                parts@.map_values(|p: String| p@) == path_v(path@).take(i as int).map_values(
                    |s: StepV| step_text(s),
                ),
            decreases path.len() - i,
        {
            let mut t = path[i].name.clone();
            push_str(&mut t, "@");
            push_str(&mut t, path[i].range.as_str());
            let ghost pb = parts@;
            proof {
                reveal_strlit("@");
                assert(path_v(path@)[i as int] == step_v(path@[i as int]));
                assert(t@ == step_text(path_v(path@)[i as int]));
            }
            parts.push(t);
            proof {
                assert(parts@.map_values(|p: String| p@) =~= pb.map_values(|p: String| p@).push(
                    step_text(path_v(path@)[i as int]),
                ));
                assert(parts@.map_values(|p: String| p@) =~= path_v(path@).take(i + 1).map_values(
                    |s: StepV| step_text(s),
                ));
            }
            i += 1;
        }
        proof {
            assert(path_v(path@).take(path.len() as int) =~= path_v(path@));
        }
        let chain = join_strings(&parts, " → ");
        push_str(out, "  ");
        push_str(out, chain.as_str());
        push_str(out, "\n");
        proof {
            reveal_strlit("  ");
            reveal_strlit("\n");
        }
    }
}

/// Format why result as human-readable text
pub fn format_why_text(result: &WhyResult) -> (r: String)
    ensures
        r@ == why_text(result.name@, result.versions@.map_values(|v: WhyVersion| version_v(v))),
{
    let ghost vs = result.versions@.map_values(|v: WhyVersion| version_v(v));
    let mut output = String::new();
    let mut i: usize = 0;
    while i < result.versions.len()
        invariant
            i <= result.versions.len(),
            vs == result.versions@.map_values(|v: WhyVersion| version_v(v)),
            output@ == why_text(result.name@, vs.take(i as int)),
        decreases result.versions.len() - i,
    {
        let ver = &result.versions[i];
        let ghost ob = output@;
        proof {
            assert(vs.take(i + 1).drop_last() =~= vs.take(i as int));
            assert(vs.take(i + 1).last() == version_v(*ver));
        }
        if i > 0 {
            push_char(&mut output, '\n');
        }
        let ghost sep = output@;
        push_str(&mut output, result.name.as_str());
        push_char(&mut output, '@');
        push_str(&mut output, ver.version.as_str());
        push_char(&mut output, '\n');
        let ghost head = output@;
        let n = ver.paths.len();
        let shown = if n < MAX_SHOWN_PATHS { n } else { MAX_SHOWN_PATHS };
        let ghost pv = paths_v(ver.paths@);
        let mut j: usize = 0;
        while j < shown
            invariant
                j <= shown,
                shown <= n,
                n == ver.paths.len(),
                pv == paths_v(ver.paths@),
                output@ == head + path_lines(pv.take(j as int)),
            decreases shown - j,
        {
            proof {
                assert(pv.take(j + 1).drop_last() =~= pv.take(j as int));
                assert(pv.take(j + 1).last() == path_v(ver.paths@[j as int]@));
            }
            push_path_line(&mut output, &ver.paths[j]);
            j += 1;
        }
        if n > MAX_SHOWN_PATHS {
            push_str(&mut output, "  and ");
            push_dec(&mut output, (n - MAX_SHOWN_PATHS) as u64);
            push_str(&mut output, " more paths — use --json for all\n");
            proof {
                reveal_strlit("  and ");
                reveal_strlit(" more paths — use --json for all\n");
            }
        }
        proof {
            reveal_strlit("@");
            reveal_strlit("\n");
            if i > 0 {
                assert(sep == ob + "\n"@);
            } else {
                assert(sep == ob);
            }
            assert(output@ =~= why_text(result.name@, vs.take(i as int)) + (if vs.take(i + 1).len() > 1 {
                "\n"@
            } else {
                seq![]
            }) + version_block(result.name@, version_v(*ver)));
        }
        i += 1;
    }
    proof {
        assert(vs.take(result.versions.len() as int) =~= vs);
    }
    output
}

/// One path step in JSON: `{"name":…,"range":…,"version":…}`.
pub open spec fn step_json(s: StepV) -> Seq<char> {
    jobj(seq![jfield("name"@, json_quote(s.0)), jfield("range"@, json_quote(s.1)), jfield("version"@, json_quote(s.2))])
}

/// One path in JSON: the array of its steps.
pub open spec fn path_json(p: PathV) -> Seq<char> {
    jarr(p.map_values(|s: StepV| step_json(s)))
}

/// Every path of every version, versions in order.
pub open spec fn all_paths(vs: Seq<(Seq<char>, Seq<PathV>)>) -> Seq<PathV>
    decreases vs.len(),
{
    if vs.len() == 0 {
        seq![]
    } else {
        all_paths(vs.drop_last()) + vs.last().1
    }
}

/// The `version` field: the version when there is exactly one, else the
/// array of versions.
pub open spec fn versions_json(vs: Seq<(Seq<char>, Seq<PathV>)>) -> Seq<char> {
    if vs.len() == 1 {
        json_quote(vs[0].0)
    } else {
        jarr(vs.map_values(|v: (Seq<char>, Seq<PathV>)| json_quote(v.0)))
    }
}

/// The NDJSON line of a why result.
pub open spec fn why_json(name: Seq<char>, vs: Seq<(Seq<char>, Seq<PathV>)>) -> Seq<char> {
    jobj(
        seq![
            jfield("name"@, json_quote(name)),
            jfield("paths"@, jarr(all_paths(vs).map_values(|p: PathV| path_json(p)))),
            jfield("version"@, versions_json(vs)),
        ],
    ) + "\n"@
}

fn path_json_exec(path: &Vec<WhyPathEntry>) -> (r: String)
    ensures
        r@ == path_json(path_v(path@)),
{
    let mut items: Vec<String> = Vec::new();
    let mut i: usize = 0;
    while i < path.len()
        invariant
            i <= path.len(),
            items@.map_values(|s: String| s@) == path_v(path@).take(i as int).map_values(
                |s: StepV| step_json(s),
            ),
        decreases path.len() - i,
    {
        let mut o = JsonObj::new();
        o.str_field("name", path[i].name.as_str());
        o.str_field("range", path[i].range.as_str());
        o.str_field("version", path[i].version.as_str());
        let ghost fs = o.fields@;
        let t = o.finish();
        proof {
            assert(path_v(path@)[i as int] == step_v(path@[i as int]));
            assert(fs =~= seq![
                jfield("name"@, json_quote(path@[i as int].name@)),
                jfield("range"@, json_quote(path@[i as int].range@)),
                jfield("version"@, json_quote(path@[i as int].version@)),
            ]);
        }
        let ghost ib = items@;
        proof {
            assert(t@ == step_json(path_v(path@)[i as int]));
        }
        items.push(t);
        proof {
            assert(items@.map_values(|s: String| s@) =~= ib.map_values(|s: String| s@).push(
                step_json(path_v(path@)[i as int]),
            ));
            assert(items@.map_values(|s: String| s@) =~= path_v(path@).take(i + 1).map_values(
                |s: StepV| step_json(s),
            ));
        }
        i += 1;
    }
    proof {
        assert(path_v(path@).take(path.len() as int) =~= path_v(path@));
    }
    json_array(&items)
}

/// Format why result as NDJSON
#[verifier::spinoff_prover]
#[verifier::rlimit(50)]
pub fn format_why_json(result: &WhyResult) -> (r: String)
    ensures
        r@ == why_json(result.name@, result.versions@.map_values(|v: WhyVersion| version_v(v))),
{
    let ghost vs = result.versions@.map_values(|v: WhyVersion| version_v(v));
    let mut paths: Vec<String> = Vec::new();
    let mut i: usize = 0;
    while i < result.versions.len()
        invariant
            i <= result.versions.len(),
            vs == result.versions@.map_values(|v: WhyVersion| version_v(v)),
            paths@.map_values(|s: String| s@) == all_paths(vs.take(i as int)).map_values(
                |p: PathV| path_json(p),
            ),
        decreases result.versions.len() - i,
    {
        let ver = &result.versions[i];
        let ghost pb = paths@.map_values(|s: String| s@);
        let ghost pv = paths_v(ver.paths@);
        proof {
            assert(vs.take(i + 1).drop_last() =~= vs.take(i as int));
            assert(vs.take(i + 1).last() == version_v(*ver));
        }
        let mut j: usize = 0;
        while j < ver.paths.len()
            invariant
                j <= ver.paths.len(),
                pv == paths_v(ver.paths@),
                paths@.map_values(|s: String| s@) == pb + pv.take(j as int).map_values(
                    |p: PathV| path_json(p),
                ),
            decreases ver.paths.len() - j,
        {
            let t = path_json_exec(&ver.paths[j]);
            let ghost qb = paths@;
            proof {
                assert(pv[j as int] == path_v(ver.paths@[j as int]@));
            }
            paths.push(t);
            proof {
                assert(paths@.map_values(|s: String| s@) =~= qb.map_values(|s: String| s@).push(
                    path_json(pv[j as int]),
                ));
                assert(paths@.map_values(|s: String| s@) =~= pb + pv.take(j + 1).map_values(
                    |p: PathV| path_json(p),
                ));
            }
            j += 1;
        }
        proof {
            assert(pv.take(ver.paths.len() as int) =~= pv);
            assert(all_paths(vs.take(i + 1)) == all_paths(vs.take(i as int)) + pv);
            assert(paths@.map_values(|s: String| s@) =~= all_paths(vs.take(i + 1)).map_values(
                |p: PathV| path_json(p),
            ));
        }
        i += 1;
    }
    proof {
        assert(vs.take(result.versions.len() as int) =~= vs);
    }
    let rendered_paths = json_array(&paths);
    let version = if result.versions.len() == 1 {
        json_quoted(result.versions[0].version.as_str())
    } else {
        let mut vers: Vec<String> = Vec::new();
        let mut k: usize = 0;
        while k < result.versions.len()
            invariant
                k <= result.versions.len(),
                vs == result.versions@.map_values(|v: WhyVersion| version_v(v)),
                vers@.map_values(|s: String| s@) == vs.take(k as int).map_values(
                    |v: (Seq<char>, Seq<PathV>)| json_quote(v.0),
                ),
            decreases result.versions.len() - k,
        {
            let q = json_quoted(result.versions[k].version.as_str());
            let ghost wb = vers@;
            proof {
                assert(q@ == json_quote(vs[k as int].0));
            }
            vers.push(q);
            proof {
                assert(vers@.map_values(|s: String| s@) =~= wb.map_values(|s: String| s@).push(
                    json_quote(vs[k as int].0),
                ));
                assert(vers@.map_values(|s: String| s@) =~= vs.take(k + 1).map_values(
                    |v: (Seq<char>, Seq<PathV>)| json_quote(v.0),
                ));
            }
            k += 1;
        }
        proof {
            assert(vs.take(result.versions.len() as int) =~= vs);
        }
        json_array(&vers)
    };
    let mut o = JsonObj::new();
    o.str_field("name", result.name.as_str());
    o.raw_field("paths", rendered_paths.as_str());
    o.raw_field("version", version.as_str());
    let ghost fs = o.fields@;
    let mut line = o.finish();
    push_char(&mut line, '\n');
    proof {
        assert(fs =~= seq![
            jfield("name"@, json_quote(result.name@)),
            jfield("paths"@, jarr(all_paths(vs).map_values(|p: PathV| path_json(p)))),
            jfield("version"@, versions_json(vs)),
        ]);
        reveal_strlit("\n");
        assert(line@ =~= why_json(result.name@, vs));
    }
    line
}

} // verus!

verus! {

proof fn lemma_with_len(ps: Seq<PathV>, n: nat)
    ensures
        forall|i: int| 0 <= i < with_len(ps, n).len() ==> (#[trigger] with_len(ps, n)[i]).len() == n,
    decreases ps.len(),
{
    if ps.len() > 0 {
        lemma_with_len(ps.drop_last(), n);
        let rest = with_len(ps.drop_last(), n);
        if ps.last().len() == n {
            assert forall|i: int| 0 <= i < with_len(ps, n).len() implies (#[trigger] with_len(ps, n)[i]).len() == n by {
                if i < rest.len() {
                    assert(with_len(ps, n)[i] == rest[i]);
                }
            }
        }
    }
}

proof fn lemma_by_len_from(ps: Seq<PathV>, n: nat, count: nat)
    ensures
        forall|i: int|
            0 <= i < by_len_from(ps, n, count).len() ==> n <= (#[trigger] by_len_from(ps, n, count)[i]).len() < n
                + count,
        forall|i: int, j: int|
            0 <= i < j < by_len_from(ps, n, count).len() ==> (#[trigger] by_len_from(ps, n, count)[i]).len()
                <= (#[trigger] by_len_from(ps, n, count)[j]).len(),
    decreases count,
{
    if count > 0 {
        lemma_with_len(ps, n);
        lemma_by_len_from(ps, n + 1, (count - 1) as nat);
        let a = with_len(ps, n);
        let b = by_len_from(ps, n + 1, (count - 1) as nat);
        let r = by_len_from(ps, n, count);
        assert(r == a + b);
        assert forall|i: int| 0 <= i < r.len() implies n <= (#[trigger] r[i]).len() < n + count by {
            if i < a.len() {
                assert(r[i] == a[i]);
            } else {
                assert(r[i] == b[i - a.len()]);
            }
        }
        assert forall|i: int, j: int| 0 <= i < j < r.len() implies (#[trigger] r[i]).len() <= (#[trigger] r[j]).len() by {
            if j < a.len() {
                assert(r[i] == a[i] && r[j] == a[j]);
            } else if i >= a.len() {
                assert(r[i] == b[i - a.len()] && r[j] == b[j - a.len()]);
            } else {
                assert(r[i] == a[i] && r[j] == b[j - a.len()]);
            }
        }
    }
}

/// A why result lists its versions in strictly increasing order, and each
/// version's paths from the shortest to the longest.
pub proof fn law_why_order(vs: Seq<WhyVersion>, found: Seq<FoundV>)
    requires
        grouped(vs, found),
    ensures
        forall|i: int, j: int| 0 <= i < j < vs.len() ==> lex_lt((#[trigger] vs[i]).version@, (#[trigger] vs[j]).version@),
        forall|k: int, i: int, j: int|
            0 <= k < vs.len() && 0 <= i < j < vs[k].paths@.len() ==> (#[trigger] vs[k].paths@[i])@.len() <= (
            #[trigger] vs[k].paths@[j])@.len(),
{
    assert forall|i: int, j: int| 0 <= i < j < vs.len() implies lex_lt((#[trigger] vs[i]).version@, (#[trigger] vs[j]).version@) by {
        assert(versions_of(vs)[i] == vs[i].version@ && versions_of(vs)[j] == vs[j].version@);
    }
    assert forall|k: int, i: int, j: int|
        0 <= k < vs.len() && 0 <= i < j < vs[k].paths@.len() implies (#[trigger] vs[k].paths@[i])@.len() <= (
        #[trigger] vs[k].paths@[j])@.len() by {
        let ps = paths_of(found, vs[k].version@);
        lemma_by_len_from(ps, 0, max_len(ps) + 1);
        assert(paths_v(vs[k].paths@) == sorted_by_len(ps));
        assert(paths_v(vs[k].paths@)[i] == path_v(vs[k].paths@[i]@));
        assert(paths_v(vs[k].paths@)[j] == path_v(vs[k].paths@[j]@));
    }
}

} // verus!

verus! {

/// The lockfile key of a step.
pub open spec fn step_key(s: StepV) -> Seq<char> {
    spec_key_of(s.0, s.1)
}

/// `b` is a dependency (name and range) of `a`'s lockfile entry.
pub open spec fn links(lock: &Lockfile, a: StepV, b: StepV) -> bool {
    exists|m: int|
        0 <= m < dep_names(lock, step_key(a)).len() && #[trigger] dep_names(lock, step_key(a))[m] == b.0
            && dep_ranges(lock, step_key(a))[m] == b.1
}

/// A chain through the lockfile: each step is locked at the version it
/// names, and each step after the first is a dependency of the one before.
pub open spec fn chain_ok(lock: &Lockfile, p: PathV) -> bool {
    &&& p.len() > 0
    &&& forall|k: int|
        0 <= k < p.len() ==> lock.entries.has(step_key(#[trigger] p[k])) && p[k].2 == version_at(lock, step_key(p[k]))
    &&& forall|k: int| 0 <= k < p.len() - 1 ==> links(lock, #[trigger] p[k], p[k + 1])
}

/// A search state whose path is a chain from `first` to the state's key.
pub open spec fn item_ok(lock: &Lockfile, it: ItemV, first: StepV) -> bool {
    &&& chain_ok(lock, it.1)
    &&& it.0 == step_key(it.1.last())
    &&& it.1[0] == first
    &&& it.2 == path_keys(it.1)
    &&& path_keys(it.1).no_duplicates()
}

/// A found path: a chain from `first` to the target, found at the target's
/// locked version.
pub open spec fn found_ok(lock: &Lockfile, target: Seq<char>, f: FoundV, first: StepV) -> bool {
    &&& chain_ok(lock, f.1)
    &&& f.1.last().0 == target
    &&& f.0 == f.1.last().2
    &&& f.1[0] == first
    &&& path_keys(f.1).no_duplicates()
}

proof fn lemma_expand_ok(
    lock: &Lockfile,
    target: Seq<char>,
    ks: Seq<Seq<char>>,
    vs: Seq<Seq<char>>,
    i: int,
    path: PathV,
    visited: Seq<Seq<char>>,
    first: StepV,
)
    requires
        chain_ok(lock, path),
        path[0] == first,
        visited == path_keys(path),
        path_keys(path).no_duplicates(),
        ks == dep_names(lock, step_key(path.last())),
        vs == dep_ranges(lock, step_key(path.last())),
        ks.len() == vs.len(),
    ensures
        forall|c: int|
            0 <= c < expand(lock, target, ks, vs, i, path, visited).0.len() ==> item_ok(
                lock,
                #[trigger] expand(lock, target, ks, vs, i, path, visited).0[c],
                first,
            ),
        forall|c: int|
            0 <= c < expand(lock, target, ks, vs, i, path, visited).1.len() ==> found_ok(
                lock,
                target,
                #[trigger] expand(lock, target, ks, vs, i, path, visited).1[c],
                first,
            ),
    decreases ks.len() - i,
{
    if 0 <= i < ks.len() {
        lemma_expand_ok(lock, target, ks, vs, i + 1, path, visited, first);
        let (items, found) = expand(lock, target, ks, vs, i + 1, path, visited);
        let key = spec_key_of(ks[i], vs[i]);
        if !(visited.contains(key) || !lock.entries.has(key)) {
            let p = path.push((ks[i], vs[i], version_at(lock, key)));
            assert(chain_ok(lock, p)) by {
                assert forall|k: int| 0 <= k < p.len() implies lock.entries.has(step_key(#[trigger] p[k])) && p[k].2
                    == version_at(lock, step_key(p[k])) by {
                    if k < path.len() {
                        assert(p[k] == path[k]);
                    }
                }
                assert forall|k: int| 0 <= k < p.len() - 1 implies links(lock, #[trigger] p[k], p[k + 1]) by {
                    if k < path.len() - 1 {
                        assert(p[k] == path[k] && p[k + 1] == path[k + 1]);
                    } else {
                        assert(p[k] == path.last());
                        assert(dep_names(lock, step_key(p[k]))[i] == p[k + 1].0);
                    }
                }
            }
            assert(p[0] == first);
            assert(path_keys(p) =~= visited.push(key));
            assert(path_keys(p).no_duplicates()) by {
                assert forall|a: int, b: int| 0 <= a < b < path_keys(p).len() implies path_keys(p)[a] != path_keys(
                    p,
                )[b] by {
                    if b == path.len() {
                        assert(path_keys(p)[a] == visited[a]);
                    } else {
                        assert(path_keys(p)[a] == path_keys(path)[a] && path_keys(p)[b] == path_keys(path)[b]);
                    }
                }
            }
            let (items2, found2) = expand(lock, target, ks, vs, i, path, visited);
            if ks[i] == target {
                assert forall|c: int| 0 <= c < found2.len() implies found_ok(lock, target, #[trigger] found2[c], first) by {
                    if c > 0 {
                        assert(found2[c] == found[c - 1]);
                    }
                }
            } else {
                assert forall|c: int| 0 <= c < items2.len() implies item_ok(lock, #[trigger] items2[c], first) by {
                    if c > 0 {
                        assert(items2[c] == items[c - 1]);
                    }
                }
            }
        }
    }
}

proof fn lemma_expand_item_ok(lock: &Lockfile, target: Seq<char>, it: ItemV, first: StepV)
    requires
        item_ok(lock, it, first),
    ensures
        forall|c: int|
            0 <= c < expand_item(lock, target, it).0.len() ==> item_ok(lock, #[trigger] expand_item(lock, target, it).0[c], first),
        forall|c: int|
            0 <= c < expand_item(lock, target, it).1.len() ==> found_ok(
                lock,
                target,
                #[trigger] expand_item(lock, target, it).1[c],
                first,
            ),
{
    lock.entries.lookup(it.0).unwrap().dependencies.lemma_sizes();
    lemma_expand_ok(lock, target, dep_names(lock, it.0), dep_ranges(lock, it.0), 0, it.1, it.2, first);
}

proof fn lemma_next_level_ok(lock: &Lockfile, target: Seq<char>, level: Seq<ItemV>, first: StepV)
    requires
        forall|c: int| 0 <= c < level.len() ==> item_ok(lock, #[trigger] level[c], first),
    ensures
        forall|c: int|
            0 <= c < next_level(lock, target, level).len() ==> item_ok(lock, #[trigger] next_level(lock, target, level)[c], first),
    decreases level.len(),
{
    if level.len() > 0 {
        lemma_next_level_ok(lock, target, level.drop_last(), first);
        assert(level[level.len() - 1] == level.last());
        lemma_expand_item_ok(lock, target, level.last(), first);
        let a = next_level(lock, target, level.drop_last());
        let b = expand_item(lock, target, level.last()).0;
        assert forall|c: int| 0 <= c < (a + b).len() implies item_ok(lock, #[trigger] (a + b)[c], first) by {
            if c < a.len() {
                assert((a + b)[c] == a[c]);
            } else {
                assert((a + b)[c] == b[c - a.len()]);
            }
        }
    }
}

proof fn lemma_bfs_ok(lock: &Lockfile, target: Seq<char>, level: Seq<ItemV>, fuel: nat, first: StepV)
    requires
        forall|c: int| 0 <= c < level.len() ==> item_ok(lock, #[trigger] level[c], first),
    ensures
        forall|c: int|
            0 <= c < bfs_order(lock, target, level, fuel).len() ==> item_ok(
                lock,
                #[trigger] bfs_order(lock, target, level, fuel)[c],
                first,
            ),
    decreases fuel,
{
    if !(fuel == 0 || level.len() == 0) {
        lemma_next_level_ok(lock, target, level, first);
        let nl = next_level(lock, target, level);
        lemma_bfs_ok(lock, target, nl, (fuel - 1) as nat, first);
        let b = bfs_order(lock, target, nl, (fuel - 1) as nat);
        assert forall|c: int| 0 <= c < (level + b).len() implies item_ok(lock, #[trigger] (level + b)[c], first) by {
            if c < level.len() {
                assert((level + b)[c] == level[c]);
            } else {
                assert((level + b)[c] == b[c - level.len()]);
            }
        }
    }
}

proof fn lemma_run_ok(lock: &Lockfile, target: Seq<char>, items: Seq<ItemV>, total: nat, first: StepV)
    requires
        forall|c: int| 0 <= c < items.len() ==> item_ok(lock, #[trigger] items[c], first),
    ensures
        forall|c: int|
            0 <= c < run_items(lock, target, items, total).len() ==> found_ok(
                lock,
                target,
                #[trigger] run_items(lock, target, items, total)[c],
                first,
            ),
    decreases items.len(),
{
    if !(items.len() == 0 || total >= MAX_PATHS) {
        lemma_expand_item_ok(lock, target, items[0], first);
        let f = expand_item(lock, target, items[0]).1;
        assert forall|c: int| 0 <= c < items.drop_first().len() implies item_ok(
            lock,
            #[trigger] items.drop_first()[c],
            first,
        ) by {
            assert(items.drop_first()[c] == items[c + 1]);
        }
        lemma_run_ok(lock, target, items.drop_first(), total + f.len(), first);
        let r = run_items(lock, target, items.drop_first(), total + f.len());
        assert forall|c: int| 0 <= c < (f + r).len() implies found_ok(lock, target, #[trigger] (f + r)[c], first) by {
            if c < f.len() {
                assert((f + r)[c] == f[c]);
            } else {
                assert((f + r)[c] == r[c - f.len()]);
            }
        }
    }
}

proof fn lemma_roots_ok(
    lock: &Lockfile,
    target: Seq<char>,
    rks: Seq<Seq<char>>,
    rvs: Seq<Seq<char>>,
    i: int,
    total: nat,
)
    requires
        rks.len() == rvs.len(),
    ensures
        forall|c: int|
            0 <= c < roots_found(lock, target, rks, rvs, i, total).len() ==> exists|j: int|
                0 <= j < rks.len() && found_ok(
                    lock,
                    target,
                    #[trigger] roots_found(lock, target, rks, rvs, i, total)[c],
                    (rks[j], rvs[j], version_at(lock, spec_key_of(rks[j], rvs[j]))),
                ),
    decreases rks.len() - i,
{
    if 0 <= i < rks.len() {
        lemma_roots_ok(lock, target, rks, rvs, i + 1, total);
        if !(rks[i] == target || !lock.entries.has(spec_key_of(rks[i], rvs[i]))) {
            let first = (rks[i], rvs[i], version_at(lock, spec_key_of(rks[i], rvs[i])));
            let root = root_item(lock, rks[i], rvs[i]);
            assert(item_ok(lock, root, first)) by {
                assert(root.1[0] == first);
                assert(path_keys(root.1) =~= root.2);
                assert forall|k: int| 0 <= k < root.1.len() implies lock.entries.has(step_key(#[trigger] root.1[k]))
                    && root.1[k].2 == version_at(lock, step_key(root.1[k])) by {
                    assert(k == 0);
                }
            }
            let level = seq![root];
            assert forall|c: int| 0 <= c < level.len() implies item_ok(lock, #[trigger] level[c], first) by {
                assert(level[c] == root);
            }
            lemma_bfs_ok(lock, target, level, lock.entries.size(), first);
            lemma_run_ok(lock, target, bfs_order(lock, target, level, lock.entries.size()), total, first);
            let f = root_found(lock, target, rks[i], rvs[i], total);
            let r = roots_found(lock, target, rks, rvs, i + 1, total + f.len());
            lemma_roots_ok(lock, target, rks, rvs, i + 1, total + f.len());
            assert forall|c: int| 0 <= c < (f + r).len() implies exists|j: int|
                0 <= j < rks.len() && found_ok(
                    lock,
                    target,
                    #[trigger] (f + r)[c],
                    (rks[j], rvs[j], version_at(lock, spec_key_of(rks[j], rvs[j]))),
                ) by {
                if c < f.len() {
                    assert((f + r)[c] == f[c]);
                    assert(found_ok(lock, target, f[c], first));
                    assert(0 <= i < rks.len() && found_ok(
                        lock,
                        target,
                        (f + r)[c],
                        (rks[i], rvs[i], version_at(lock, spec_key_of(rks[i], rvs[i]))),
                    ));
                } else {
                    assert((f + r)[c] == r[c - f.len()]);
                }
            }
            assert(roots_found(lock, target, rks, rvs, i, total) == f + r);
        } else {
            assert(roots_found(lock, target, rks, rvs, i, total) == roots_found(lock, target, rks, rvs, i + 1, total));
        }
    }
}

/// Every path `vertz why` reports is real: the empty path comes first, once,
/// exactly when the package is a direct dependency, and any other path is a chain through
/// the lockfile that starts at a root dependency (under its declared range),
/// steps each time to a dependency of the entry before, and ends at the
/// package, reported at the version it is locked at, passing no lockfile
/// key twice.
pub proof fn law_why_paths_are_chains(pkg: &PackageJson, lock: &Lockfile, target: Seq<char>)
    ensures
        forall|c: int|
            0 <= c < why_found(pkg, lock, target).len() ==> {
                let f = #[trigger] why_found(pkg, lock, target)[c];
                if f.1.len() == 0 {
                    root_range(pkg, target) is Some
                } else {
                    &&& chain_ok(lock, f.1)
                    &&& f.1.last().0 == target
                    &&& f.0 == f.1.last().2
                    &&& root_range(pkg, f.1[0].0) == Some(f.1[0].1)
                    &&& path_keys(f.1).no_duplicates()
                }
            },
        forall|c: int|
            0 <= c < why_found(pkg, lock, target).len() ==> ((#[trigger] why_found(pkg, lock, target)[c]).1.len() == 0
                <==> (c == 0 && root_range(pkg, target) is Some)),
{
    lemma_root_order(pkg);
    let d = direct_found(pkg, lock, target);
    let rks = root_order(pkg);
    let rvs = root_ranges(pkg);
    lemma_roots_ok(lock, target, rks, rvs, 0, d.len());
    let r = roots_found(lock, target, rks, rvs, 0, d.len());
    assert forall|c: int| 0 <= c < (d + r).len() implies {
        let f = #[trigger] (d + r)[c];
        if f.1.len() == 0 {
            root_range(pkg, target) is Some
        } else {
            &&& chain_ok(lock, f.1)
            &&& f.1.last().0 == target
            &&& f.0 == f.1.last().2
            &&& root_range(pkg, f.1[0].0) == Some(f.1[0].1)
            &&& path_keys(f.1).no_duplicates()
        }
    } by {
        if c < d.len() {
            assert((d + r)[c] == d[c]);
        } else {
            assert((d + r)[c] == r[c - d.len()]);
            let j = choose|j: int|
                0 <= j < rks.len() && found_ok(
                    lock,
                    target,
                    #[trigger] r[c - d.len()],
                    (rks[j], rvs[j], version_at(lock, spec_key_of(rks[j], rvs[j]))),
                );
            assert(rks.contains(rks[j]));
            assert(rvs[j] == root_range(pkg, rks[j]).unwrap());
        }
    }
    assert(why_found(pkg, lock, target) == d + r);
    assert forall|c: int| 0 <= c < (d + r).len() implies ((#[trigger] (d + r)[c]).1.len() == 0 <==> (c == 0
        && root_range(pkg, target) is Some)) by {
        if c < d.len() {
            assert((d + r)[c] == d[c]);
        } else {
            assert((d + r)[c] == r[c - d.len()]);
            let j = choose|j: int|
                0 <= j < rks.len() && found_ok(
                    lock,
                    target,
                    #[trigger] r[c - d.len()],
                    (rks[j], rvs[j], version_at(lock, spec_key_of(rks[j], rvs[j]))),
                );
        }
    }
}

} // verus!

verus! {

/// A path line without its newline.
pub open spec fn path_text(p: PathV) -> Seq<char> {
    if p.len() == 0 {
        "  dependencies (direct)"@
    } else {
        "  "@ + join(p.map_values(|s: StepV| step_text(s)), " → "@)
    }
}

/// How many of `n` paths are listed.
pub open spec fn shown_count(n: nat) -> nat {
    if n < MAX_SHOWN_PATHS {
        n
    } else {
        MAX_SHOWN_PATHS as nat
    }
}

/// The note on the paths not listed, without its newline.
pub open spec fn more_text(n: nat) -> Seq<char> {
    "  and "@ + dec((n - MAX_SHOWN_PATHS) as nat) + " more paths — use --json for all"@
}

/// The lines of one version's block.
pub open spec fn block_lines(name: Seq<char>, v: (Seq<char>, Seq<PathV>)) -> Seq<Seq<char>> {
    let n = v.1.len();
    seq![name + "@"@ + v.0] + v.1.take(shown_count(n) as int).map_values(|p: PathV| path_text(p)) + if n
        > MAX_SHOWN_PATHS {
        seq![more_text(n)]
    } else {
        seq![]
    }
}

proof fn lemma_path_lines(ps: Seq<PathV>)
    ensures
        path_lines(ps) == unlines(ps.map_values(|p: PathV| path_text(p))),
    decreases ps.len(),
{
    if ps.len() > 0 {
        lemma_path_lines(ps.drop_last());
        reveal_strlit("  dependencies (direct)\n");
        reveal_strlit("  dependencies (direct)");
        reveal_strlit("\n");
        let m = ps.map_values(|p: PathV| path_text(p));
        assert(m.drop_last() =~= ps.drop_last().map_values(|p: PathV| path_text(p)));
        assert(m.last() == path_text(ps.last()));
        assert(path_line(ps.last()) =~= path_text(ps.last()) + seq!['\n']);
    }
}

proof fn lemma_block_lines(name: Seq<char>, v: (Seq<char>, Seq<PathV>))
    ensures
        version_block(name, v) == unlines(block_lines(name, v)),
{
    let n = v.1.len();
    let head = name + "@"@ + v.0;
    let ps = v.1.take(shown_count(n) as int);
    let mid = ps.map_values(|p: PathV| path_text(p));
    let tail: Seq<Seq<char>> = if n > MAX_SHOWN_PATHS {
        seq![more_text(n)]
    } else {
        seq![]
    };
    reveal_strlit("\n");
    lemma_unlines_one(head);
    lemma_path_lines(ps);
    lemma_unlines_add(seq![head], mid);
    lemma_unlines_add(seq![head] + mid, tail);
    if n > MAX_SHOWN_PATHS {
        lemma_unlines_one(more_text(n));
        reveal_strlit("  and ");
        reveal_strlit(" more paths — use --json for all\n");
        reveal_strlit(" more paths — use --json for all");
        assert("  and "@ + dec((n - MAX_SHOWN_PATHS) as nat) + " more paths — use --json for all\n"@ =~= more_text(n)
            + seq!['\n']);
    } else {
        assert(unlines(tail) =~= Seq::<char>::empty());
    }
    assert(version_block(name, v) =~= unlines(block_lines(name, v)));
}

proof fn lemma_why_text_join(name: Seq<char>, vs: Seq<(Seq<char>, Seq<PathV>)>)
    ensures
        why_text(name, vs) == join(vs.map_values(|v: (Seq<char>, Seq<PathV>)| version_block(name, v)), seq!['\n']),
    decreases vs.len(),
{
    reveal_strlit("\n");
    if vs.len() > 0 {
        lemma_why_text_join(name, vs.drop_last());
        let m = vs.map_values(|v: (Seq<char>, Seq<PathV>)| version_block(name, v));
        assert(m.drop_last() =~= vs.drop_last().map_values(|v: (Seq<char>, Seq<PathV>)| version_block(name, v)));
        assert(m.last() == version_block(name, vs.last()));
        if vs.len() == 1 {
            assert(m[0] == m.last());
            assert(why_text(name, vs.drop_last()) == Seq::<char>::empty());
            assert(why_text(name, vs) =~= m[0]);
        } else {
            assert(why_text(name, vs) =~= join(m.drop_last(), seq!['\n']) + seq!['\n'] + m.last());
        }
    }
}

/// The text of `vertz why`: empty without versions; otherwise the versions'
/// blocks, in order, with a blank line between two blocks. A version's block
/// is the line `name@version`, then one line for each of its first
/// `MAX_SHOWN_PATHS` paths (`  dependencies (direct)` for the direct one,
/// `  a@r → b@s → …` for a chain) and, if it has more paths, the line
/// `  and N more paths — use --json for all`; every line ends with a
/// newline.
pub proof fn law_why_text_layout(name: Seq<char>, vs: Seq<(Seq<char>, Seq<PathV>)>)
    ensures
        vs.len() == 0 ==> why_text(name, vs) == Seq::<char>::empty(),
        why_text(name, vs) == join(
            vs.map_values(|v: (Seq<char>, Seq<PathV>)| unlines(block_lines(name, v))),
            seq!['\n'],
        ),
        forall|k: int|
            0 <= k < vs.len() ==> {
                let v = #[trigger] vs[k];
                let n = v.1.len();
                let ls = block_lines(name, v);
                &&& ls.len() == 1 + shown_count(n) + (if n > MAX_SHOWN_PATHS { 1int } else { 0int })
                &&& ls[0] == name + "@"@ + v.0
                &&& forall|i: int| 0 <= i < shown_count(n) ==> ls[1 + i] == path_text(#[trigger] v.1[i])
                &&& n > MAX_SHOWN_PATHS ==> ls[ls.len() - 1] == more_text(n)
            },
{
    lemma_why_text_join(name, vs);
    let a = vs.map_values(|v: (Seq<char>, Seq<PathV>)| version_block(name, v));
    let b = vs.map_values(|v: (Seq<char>, Seq<PathV>)| unlines(block_lines(name, v)));
    assert forall|k: int| 0 <= k < vs.len() implies a[k] == b[k] by {
        lemma_block_lines(name, vs[k]);
    }
    assert(a =~= b);
    assert forall|k: int| 0 <= k < vs.len() implies {
        let v = #[trigger] vs[k];
        let n = v.1.len();
        let ls = block_lines(name, v);
        &&& ls.len() == 1 + shown_count(n) + (if n > MAX_SHOWN_PATHS { 1int } else { 0int })
        &&& ls[0] == name + "@"@ + v.0
        &&& forall|i: int| 0 <= i < shown_count(n) ==> ls[1 + i] == path_text(#[trigger] v.1[i])
        &&& n > MAX_SHOWN_PATHS ==> ls[ls.len() - 1] == more_text(n)
    } by {
        let v = vs[k];
        let n = v.1.len();
        let ps = v.1.take(shown_count(n) as int);
        let mid = ps.map_values(|p: PathV| path_text(p));
        assert forall|i: int| 0 <= i < shown_count(n) implies block_lines(name, v)[1 + i] == path_text(
            #[trigger] v.1[i],
        ) by {
            assert(mid[i] == path_text(ps[i]));
            assert(ps[i] == v.1[i]);
        }
    }
}

} // verus!

verus! {

/// The lockfile keys along a path.
pub open spec fn path_keys(p: PathV) -> Seq<Seq<char>> {
    p.map_values(|s: StepV| step_key(s))
}

/// Two steps of the path under one lockfile key are the same step.
pub open spec fn keys_faithful(p: PathV) -> bool {
    forall|a: int, b: int|
        0 <= a < p.len() && 0 <= b < p.len() && step_key(#[trigger] p[a]) == step_key(#[trigger] p[b]) ==> p[a]
            == p[b]
}

/// A chain through the lockfile from a root dependency (under its declared
/// range) to a package named `target`.
pub open spec fn reaches(pkg: &PackageJson, lock: &Lockfile, target: Seq<char>, p: PathV) -> bool {
    &&& chain_ok(lock, p)
    &&& p.last().0 == target
    &&& root_range(pkg, p[0].0) == Some(p[0].1)
}

/// The search state at the `k`-th step of `q`.
pub open spec fn prefix_item(q: PathV, k: int) -> ItemV {
    (step_key(q[k]), q.take(k + 1), path_keys(q.take(k + 1)))
}

/// The `k`-th level of the search from `level`.
pub open spec fn level_at(lock: &Lockfile, target: Seq<char>, level: Seq<ItemV>, k: nat) -> Seq<ItemV>
    decreases k,
{
    if k == 0 {
        level
    } else {
        next_level(lock, target, level_at(lock, target, level, (k - 1) as nat))
    }
}

#[verifier::spinoff_prover]
#[verifier::rlimit(60)]
proof fn lemma_shorten(lock: &Lockfile, target: Seq<char>, p: PathV) -> (q: PathV)
    requires
        chain_ok(lock, p),
        p.last().0 == target,
        p[0].0 != target,
        keys_faithful(p),
    ensures
        chain_ok(lock, q),
        q[0] == p[0],
        q.last().0 == target,
        q.len() >= 2,
        path_keys(q).no_duplicates(),
        forall|k: int| 0 <= k < q.len() - 1 ==> (#[trigger] q[k]).0 != target,
    decreases p.len(),
{
    if exists|k: int| 0 <= k < p.len() - 1 && (#[trigger] p[k]).0 == target {
        let k = choose|k: int| 0 <= k < p.len() - 1 && (#[trigger] p[k]).0 == target;
        let p2 = p.take(k + 1);
        assert forall|x: int| 0 <= x < p2.len() implies #[trigger] p2[x] == p[x] by {}
        assert(chain_ok(lock, p2)) by {
            assert forall|x: int| 0 <= x < p2.len() - 1 implies links(lock, #[trigger] p2[x], p2[x + 1]) by {
                assert(p2[x] == p[x] && p2[x + 1] == p[x + 1]);
            }
        }
        assert(keys_faithful(p2));
        lemma_shorten(lock, target, p2)
    } else if exists|a: int, b: int| 0 <= a < b < p.len() && step_key(#[trigger] p[a]) == step_key(#[trigger] p[b]) {
        let (a, b) = choose|a: int, b: int|
            0 <= a < b < p.len() && step_key(#[trigger] p[a]) == step_key(#[trigger] p[b]);
        assert(p[a] == p[b]);
        let p2 = p.take(a + 1) + p.skip(b + 1);
        assert forall|x: int| 0 <= x <= a implies #[trigger] p2[x] == p[x] by {}
        assert forall|x: int| a < x < p2.len() implies #[trigger] p2[x] == p[x + b - a] by {}
        assert(p2.len() == p.len() - (b - a));
        assert(chain_ok(lock, p2)) by {
            assert forall|x: int| 0 <= x < p2.len() implies lock.entries.has(step_key(#[trigger] p2[x])) && p2[x].2
                == version_at(lock, step_key(p2[x])) by {
                if x <= a {
                    assert(p2[x] == p[x]);
                } else {
                    assert(p2[x] == p[x + b - a]);
                }
            }
            assert forall|x: int| 0 <= x < p2.len() - 1 implies links(lock, #[trigger] p2[x], p2[x + 1]) by {
                if x < a {
                    assert(p2[x] == p[x] && p2[x + 1] == p[x + 1]);
                } else if x == a {
                    assert(p2[x] == p[b] && p2[x + 1] == p[b + 1]);
                } else {
                    assert(p2[x] == p[x + b - a] && p2[x + 1] == p[x + 1 + b - a]);
                }
            }
        }
        assert(keys_faithful(p2)) by {
            assert forall|x: int, y: int|
                0 <= x < p2.len() && 0 <= y < p2.len() && step_key(#[trigger] p2[x]) == step_key(#[trigger] p2[y])
                    implies p2[x] == p2[y] by {
                let xx = if x <= a { x } else { x + b - a };
                let yy = if y <= a { y } else { y + b - a };
                assert(p2[x] == p[xx] && p2[y] == p[yy]);
            }
        }
        if b == p.len() - 1 {
            assert(p2.last() == p[a]);
        } else {
            assert(p2.last() == p[p.len() - 1]);
        }
        assert(p2[0] == p[0]);
        lemma_shorten(lock, target, p2)
    } else {
        assert(path_keys(p).no_duplicates()) by {
            assert forall|a: int, b: int| 0 <= a < path_keys(p).len() && 0 <= b < path_keys(p).len() && a != b
                implies path_keys(p)[a] != path_keys(p)[b] by {
                if a < b {
                    assert(step_key(p[a]) != step_key(p[b]));
                } else {
                    assert(step_key(p[b]) != step_key(p[a]));
                }
            }
        }
        p
    }
}

proof fn lemma_expand_contains(
    lock: &Lockfile,
    target: Seq<char>,
    ks: Seq<Seq<char>>,
    vs: Seq<Seq<char>>,
    i: int,
    path: PathV,
    visited: Seq<Seq<char>>,
    m: int,
)
    requires
        0 <= i <= m < ks.len(),
        ks.len() == vs.len(),
        !visited.contains(spec_key_of(ks[m], vs[m])),
        lock.entries.has(spec_key_of(ks[m], vs[m])),
    ensures
        ks[m] != target ==> expand(lock, target, ks, vs, i, path, visited).0.contains(
            (
                spec_key_of(ks[m], vs[m]),
                path.push((ks[m], vs[m], version_at(lock, spec_key_of(ks[m], vs[m])))),
                visited.push(spec_key_of(ks[m], vs[m])),
            ),
        ),
        ks[m] == target ==> expand(lock, target, ks, vs, i, path, visited).1.len() > 0,
    decreases m - i,
{
    let (items, found) = expand(lock, target, ks, vs, i + 1, path, visited);
    let key = spec_key_of(ks[i], vs[i]);
    if i < m {
        lemma_expand_contains(lock, target, ks, vs, i + 1, path, visited, m);
        if !(visited.contains(key) || !lock.entries.has(key)) {
            let p = path.push((ks[i], vs[i], version_at(lock, key)));
            if ks[i] != target {
                let x = (key, p, visited.push(key));
                assert(expand(lock, target, ks, vs, i, path, visited).0 == seq![x] + items);
                if ks[m] != target {
                    let it = (
                        spec_key_of(ks[m], vs[m]),
                        path.push((ks[m], vs[m], version_at(lock, spec_key_of(ks[m], vs[m])))),
                        visited.push(spec_key_of(ks[m], vs[m])),
                    );
                    let c = choose|c: int| 0 <= c < items.len() && items[c] == it;
                    assert((seq![x] + items)[c + 1] == it);
                }
            }
        }
    } else {
        if ks[m] != target {
            let x = (key, path.push((ks[i], vs[i], version_at(lock, key))), visited.push(key));
            assert((seq![x] + items)[0] == x);
        }
    }
}

proof fn lemma_next_level_contains(lock: &Lockfile, target: Seq<char>, level: Seq<ItemV>, it: ItemV, x: ItemV)
    requires
        level.contains(it),
        expand_item(lock, target, it).0.contains(x),
    ensures
        next_level(lock, target, level).contains(x),
    decreases level.len(),
{
    let a = next_level(lock, target, level.drop_last());
    let b = expand_item(lock, target, level.last()).0;
    if level.last() == it {
        let c = choose|c: int| 0 <= c < b.len() && b[c] == x;
        assert((a + b)[a.len() + c] == x);
    } else {
        let c = choose|c: int| 0 <= c < level.len() && level[c] == it;
        assert(level.drop_last()[c] == it);
        lemma_next_level_contains(lock, target, level.drop_last(), it, x);
        let d = choose|d: int| 0 <= d < a.len() && a[d] == x;
        assert((a + b)[d] == x);
    }
}

proof fn lemma_level_shift(lock: &Lockfile, target: Seq<char>, level: Seq<ItemV>, k: nat)
    ensures
        level_at(lock, target, next_level(lock, target, level), k) == level_at(lock, target, level, k + 1),
    decreases k,
{
    let nl = next_level(lock, target, level);
    assert(level_at(lock, target, level, 0) == level);
    assert(level_at(lock, target, level, k + 1) == next_level(lock, target, level_at(lock, target, level, k)));
    if k > 0 {
        lemma_level_shift(lock, target, level, (k - 1) as nat);
        assert(level_at(lock, target, nl, k) == next_level(lock, target, level_at(lock, target, nl, (k - 1) as nat)));
    }
}

proof fn lemma_bfs_contains(lock: &Lockfile, target: Seq<char>, level: Seq<ItemV>, k: nat, fuel: nat, it: ItemV)
    requires
        k < fuel,
        level_at(lock, target, level, k).contains(it),
    ensures
        bfs_order(lock, target, level, fuel).contains(it),
    decreases k,
{
    if level.len() == 0 {
        lemma_level_empty(lock, target, level, k);
    } else if k == 0 {
        let c = choose|c: int| 0 <= c < level.len() && level[c] == it;
        assert(bfs_order(lock, target, level, fuel)[c] == it);
    } else {
        let nl = next_level(lock, target, level);
        lemma_level_shift(lock, target, level, (k - 1) as nat);
        lemma_bfs_contains(lock, target, nl, (k - 1) as nat, (fuel - 1) as nat, it);
        let b = bfs_order(lock, target, nl, (fuel - 1) as nat);
        let c = choose|c: int| 0 <= c < b.len() && b[c] == it;
        assert((level + b)[level.len() + c] == it);
    }
}

proof fn lemma_level_empty(lock: &Lockfile, target: Seq<char>, level: Seq<ItemV>, k: nat)
    requires
        level.len() == 0,
    ensures
        level_at(lock, target, level, k).len() == 0,
    decreases k,
{
    if k > 0 {
        lemma_level_empty(lock, target, level, (k - 1) as nat);
        assert(next_level(lock, target, Seq::<ItemV>::empty()).len() == 0);
    }
}

proof fn lemma_run_contains(lock: &Lockfile, target: Seq<char>, items: Seq<ItemV>, total: nat, it: ItemV)
    requires
        items.contains(it),
        expand_item(lock, target, it).1.len() > 0,
    ensures
        run_items(lock, target, items, total).len() > 0 || total >= MAX_PATHS,
    decreases items.len(),
{
    if total < MAX_PATHS {
        let f = expand_item(lock, target, items[0]).1;
        if items[0] != it {
            let c = choose|c: int| 0 <= c < items.len() && items[c] == it;
            assert(items.drop_first()[c - 1] == it);
            lemma_run_contains(lock, target, items.drop_first(), total + f.len(), it);
        }
    }
}

proof fn lemma_levels_reach(lock: &Lockfile, target: Seq<char>, q: PathV, k: nat)
    requires
        chain_ok(lock, q),
        q.last().0 == target,
        path_keys(q).no_duplicates(),
        forall|x: int| 0 <= x < q.len() - 1 ==> (#[trigger] q[x]).0 != target,
        k <= q.len() - 2,
    ensures
        level_at(lock, target, seq![prefix_item(q, 0)], k).contains(prefix_item(q, k as int)),
    decreases k,
{
    let level = seq![prefix_item(q, 0)];
    if k == 0 {
        assert(level[0] == prefix_item(q, 0));
    } else {
        let j = (k - 1) as int;
        lemma_levels_reach(lock, target, q, (k - 1) as nat);
        lemma_step_expands(lock, target, q, j);
        lemma_next_level_contains(
            lock,
            target,
            level_at(lock, target, level, (k - 1) as nat),
            prefix_item(q, j),
            prefix_item(q, k as int),
        );
    }
}

proof fn lemma_step_expands(lock: &Lockfile, target: Seq<char>, q: PathV, j: int)
    requires
        chain_ok(lock, q),
        q.last().0 == target,
        path_keys(q).no_duplicates(),
        0 <= j < q.len() - 1,
    ensures
        q[j + 1].0 != target ==> expand_item(lock, target, prefix_item(q, j)).0.contains(prefix_item(q, j + 1)),
        q[j + 1].0 == target ==> expand_item(lock, target, prefix_item(q, j)).1.len() > 0,
{
    let it = prefix_item(q, j);
    let ks = dep_names(lock, it.0);
    let vs = dep_ranges(lock, it.0);
    lock.entries.lookup(it.0).unwrap().dependencies.lemma_sizes();
    assert(links(lock, q[j], q[j + 1]));
    let m = choose|m: int|
        0 <= m < dep_names(lock, step_key(q[j])).len() && #[trigger] dep_names(lock, step_key(q[j]))[m] == q[j + 1].0
            && dep_ranges(lock, step_key(q[j]))[m] == q[j + 1].1;
    let key = spec_key_of(ks[m], vs[m]);
    assert(key == step_key(q[j + 1]));
    assert(lock.entries.has(step_key(q[j + 1])));
    let pk = path_keys(q);
    assert(it.2 =~= pk.take(j + 1));
    assert(!it.2.contains(key)) by {
        if it.2.contains(key) {
            let c = choose|c: int| 0 <= c < it.2.len() && it.2[c] == key;
            assert(pk[c] == pk[j + 1]);
        }
    }
    lemma_expand_contains(lock, target, ks, vs, 0, it.1, it.2, m);
    if q[j + 1].0 != target {
        assert(it.1.push((ks[m], vs[m], version_at(lock, key))) =~= q.take(j + 2));
        assert(it.2.push(key) =~= path_keys(q.take(j + 2)));
    }
}

proof fn lemma_roots_reach(
    lock: &Lockfile,
    target: Seq<char>,
    rks: Seq<Seq<char>>,
    rvs: Seq<Seq<char>>,
    i: int,
    total: nat,
    j: int,
)
    requires
        0 <= i <= j < rks.len(),
        rks.len() == rvs.len(),
        rks[j] != target,
        lock.entries.has(spec_key_of(rks[j], rvs[j])),
        forall|t: nat| #[trigger] root_found(lock, target, rks[j], rvs[j], t).len() > 0 || t >= MAX_PATHS,
    ensures
        roots_found(lock, target, rks, rvs, i, total).len() > 0 || total >= MAX_PATHS,
    decreases j - i,
{
    if i < j {
        if rks[i] == target || !lock.entries.has(spec_key_of(rks[i], rvs[i])) {
            lemma_roots_reach(lock, target, rks, rvs, i + 1, total, j);
        } else {
            let f = root_found(lock, target, rks[i], rvs[i], total);
            lemma_roots_reach(lock, target, rks, rvs, i + 1, total + f.len(), j);
        }
    } else {
        assert(root_found(lock, target, rks[j], rvs[j], total).len() > 0 || total >= MAX_PATHS);
    }
}

/// `vertz why` finds what the lockfile holds: where the package is a root
/// dependency, or a chain through the lockfile leads from a root dependency
/// (under its declared range) to a package of that name, the search finds
/// at least one path, so the command answers with paths and not with "not
/// installed". The chain's steps under one lockfile key must be the same
/// step; a key such as `x@y@z` can stand for two different name and range
/// pairs, and a chain that needs both is not followed.
pub proof fn law_why_finds_chains(pkg: &PackageJson, lock: &Lockfile, target: Seq<char>, p: PathV)
    requires
        root_range(pkg, target) is Some || (reaches(pkg, lock, target, p) && keys_faithful(p)),
    ensures
        why_found(pkg, lock, target).len() > 0,
{
    lemma_root_order(pkg);
    let d = direct_found(pkg, lock, target);
    let rks = root_order(pkg);
    let rvs = root_ranges(pkg);
    assert(why_found(pkg, lock, target) == d + roots_found(lock, target, rks, rvs, 0, d.len()));
    if root_range(pkg, target) is None {
        assert(d.len() == 0);
        let q = lemma_shorten(lock, target, p);
        assert(rks.contains(p[0].0));
        let j = choose|j: int| 0 <= j < rks.len() && rks[j] == p[0].0;
        assert(rvs[j] == p[0].1);
        let root = root_item(lock, rks[j], rvs[j]);
        assert(root == prefix_item(q, 0)) by {
            assert(q.take(1) =~= seq![q[0]]);
            assert(path_keys(q.take(1)) =~= seq![step_key(q[0])]);
        }
        let n = (q.len() - 2) as nat;
        lemma_levels_reach(lock, target, q, n);
        lemma_step_expands(lock, target, q, n as int);
        assert(path_keys(q).to_set().subset_of(lock.entries.kseq().to_set()));
        path_keys(q).unique_seq_to_set();
        lock.entries.kseq().lemma_cardinality_of_set();
        vstd::set_lib::lemma_len_subset(path_keys(q).to_set(), lock.entries.kseq().to_set());
        lemma_bfs_contains(lock, target, seq![root], n, lock.entries.size(), prefix_item(q, n as int));
        assert forall|t: nat| #[trigger] root_found(lock, target, rks[j], rvs[j], t).len() > 0 || t >= MAX_PATHS by {
            lemma_run_contains(
                lock,
                target,
                bfs_order(lock, target, seq![root], lock.entries.size()),
                t,
                prefix_item(q, n as int),
            );
        }
        lemma_roots_reach(lock, target, rks, rvs, 0, 0, j);
    }
}

/// `vertz why` answers with paths exactly when the package is a root
/// dependency or a chain through the lockfile leads from a root dependency
/// to it (one whose steps under a lockfile key are the same step), and
/// with "not installed" otherwise.
pub proof fn law_why_found_iff(pkg: &PackageJson, lock: &Lockfile, target: Seq<char>)
    ensures
        why_found(pkg, lock, target).len() > 0 <==> (root_range(pkg, target) is Some || exists|p: PathV|
            reaches(pkg, lock, target, p) && keys_faithful(p)),
{
    lemma_root_order(pkg);
    if root_range(pkg, target) is Some {
        law_why_finds_chains(pkg, lock, target, Seq::<StepV>::empty());
    } else if exists|p: PathV| reaches(pkg, lock, target, p) && keys_faithful(p) {
        let p = choose|p: PathV| reaches(pkg, lock, target, p) && keys_faithful(p);
        law_why_finds_chains(pkg, lock, target, p);
    }
    if why_found(pkg, lock, target).len() > 0 && root_range(pkg, target) is None {
        law_why_paths_are_chains(pkg, lock, target);
        let f = why_found(pkg, lock, target)[0];
        let q = f.1;
        assert(q.len() > 0);
        assert(reaches(pkg, lock, target, q));
        assert(keys_faithful(q)) by {
            assert forall|a: int, b: int|
                0 <= a < q.len() && 0 <= b < q.len() && step_key(#[trigger] q[a]) == step_key(#[trigger] q[b])
                    implies q[a] == q[b] by {
                assert(path_keys(q)[a] == step_key(q[a]) && path_keys(q)[b] == step_key(q[b]));
            }
        }
    }
}

} // verus!
