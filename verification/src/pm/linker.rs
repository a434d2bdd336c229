//! Linking node_modules: the manifest of what is linked where.

use vstd::prelude::*;
use crate::pm::config::str_vals;
use crate::pm::overrides::strs;
use crate::pm::scripts::has_postinstall;
use crate::pm::types::{ResolvedGraph, ResolvedPackage};
use crate::smap::{StrMap, StrSet};
use crate::text::{join, join_strings, push_str};

verus! {

/// A single entry in the link manifest
#[derive(Debug, Clone, PartialEq, Eq)]
pub struct ManifestEntry {
    pub name: String,
    pub version: String,
    pub nest_path: Vec<String>,
    pub has_scripts: bool,
    pub has_patch: bool,
}

/// What node_modules holds: one entry per linked package, by manifest key.
pub struct LinkManifest {
    pub packages: StrMap<ManifestEntry>,
}

impl Default for LinkManifest {
    fn default() -> (m: Self)
        ensures
            m.packages.size() == 0,
    {
        LinkManifest { packages: StrMap::new() }
    }
}

/// Counts of what a link pass did.
pub struct LinkResult {
    pub packages_linked: usize,
    pub files_linked: usize,
    pub packages_cached: usize,
}

impl Default for LinkResult {
    fn default() -> (r: Self)
        ensures
            r.packages_linked == 0,
            r.files_linked == 0,
            r.packages_cached == 0,
    {
        LinkResult { packages_linked: 0, files_linked: 0, packages_cached: 0 }
    }
}

/// The manifest key of a package: `name@version`, followed by
/// `@parent/parent` when it is nested.
pub open spec fn manifest_key_spec(name: Seq<char>, version: Seq<char>, nest: Seq<Seq<char>>) -> Seq<char> {
    if nest.len() == 0 {
        name + "@"@ + version
    } else {
        name + "@"@ + version + "@"@ + join(nest, "/"@)
    }
}

/// Compute a manifest key for a package
pub fn manifest_key(name: &str, version: &str, nest_path: &[String]) -> (k: String)
    ensures
        k@ == manifest_key_spec(name@, version@, strs(nest_path@)),
{
    let mut k = String::new();
    push_str(&mut k, name);
    push_str(&mut k, "@");
    push_str(&mut k, version);
    if nest_path.len() > 0 {
        let mut parts: Vec<String> = Vec::new();
        let mut i: usize = 0;
        while i < nest_path.len()
            invariant
                i <= nest_path.len(),
                parts@ == nest_path@.take(i as int),
            decreases nest_path.len() - i,
        {
            parts.push(nest_path[i].clone());
            proof {
                assert(nest_path@.take(i as int).push(nest_path@[i as int]) =~= nest_path@.take(i + 1));
            }
            i += 1;
        }
        proof {
            assert(nest_path@.take(nest_path.len() as int) =~= nest_path@);
        }
        let joined = join_strings(&parts, "/");
        push_str(&mut k, "@");
        push_str(&mut k, joined.as_str());
    }
    proof {
        reveal_strlit("@");
    }
    k
}

/// A manifest entry as plain values: (name, version, nest path, has
/// scripts, has patch).
pub type EntryV = (Seq<char>, Seq<char>, Seq<Seq<char>>, bool, bool);

pub open spec fn entry_v(e: ManifestEntry) -> EntryV {
    (e.name@, e.version@, strs(e.nest_path@), e.has_scripts, e.has_patch)
}

/// The manifest entry of a package: whether it has a postinstall script
/// (its scripts are recorded under `name@version`) and whether it is patched.
pub open spec fn package_entry(p: ResolvedPackage, graph: &ResolvedGraph, patched: &StrSet) -> EntryV {
    (
        p.name@,
        p.version@,
        strs(p.nest_path@),
        match graph.scripts.lookup(p.name@ + "@"@ + p.version@) {
            Some(s) => s.has("postinstall"@),
            None => false,
        },
        patched.has(p.name@),
    )
}

/// The last package of `pkgs` with manifest key `k`.
pub open spec fn last_with_key(pkgs: Seq<ResolvedPackage>, k: Seq<char>) -> Option<ResolvedPackage>
    decreases pkgs.len(),
{
    if pkgs.len() == 0 {
        None
    } else {
        let p = pkgs.last();
        if manifest_key_spec(p.name@, p.version@, strs(p.nest_path@)) == k {
            Some(p)
        } else {
            last_with_key(pkgs.drop_last(), k)
        }
    }
}

/// Build the desired manifest from the resolved graph: each package of the
/// graph under its manifest key (a later package replacing an earlier one
/// with the same key).
pub fn build_manifest(graph: &ResolvedGraph, patched_packages: &StrSet) -> (m: LinkManifest)
    ensures
        forall|k: Seq<char>|
            #![trigger m.packages.lookup(k)]
            match last_with_key(graph.packages.vseq(), k) {
                Some(p) => m.packages.lookup(k) matches Some(e) && entry_v(e) == package_entry(
                    p,
                    graph,
                    patched_packages,
                ),
                None => m.packages.lookup(k) is None,
            },
        forall|i: int| 0 <= i < graph.packages.size() ==> m.packages.has(#[trigger] pkg_key(graph.packages.vseq()[i])),
{
    let ghost pkgs = graph.packages.vseq();
    let mut packages: StrMap<ManifestEntry> = StrMap::new();
    proof {
        graph.packages.lemma_sizes();
    }
    let mut i: usize = 0;
    while i < graph.packages.len()
        invariant
            i <= pkgs.len(),
            pkgs == graph.packages.vseq(),
            pkgs.len() == graph.packages.size(),
            forall|k: Seq<char>|
                #![trigger packages.lookup(k)]
                match last_with_key(pkgs.take(i as int), k) {
                    Some(p) => packages.lookup(k) matches Some(e) && entry_v(e) == package_entry(
                        p,
                        graph,
                        patched_packages,
                    ),
                    None => packages.lookup(k) is None,
                },
        decreases pkgs.len() - i,
    {
        let pkg = graph.packages.value_at(i);
        proof {
            assert(pkgs.take(i + 1).drop_last() =~= pkgs.take(i as int));
            assert(pkgs.take(i + 1).last() == *pkg);
        }
        let key = manifest_key(pkg.name.as_str(), pkg.version.as_str(), pkg.nest_path.as_slice());
        let mut skey = pkg.name.clone();
        push_str(&mut skey, "@");
        push_str(&mut skey, pkg.version.as_str());
        let scripts = match graph.scripts.get(skey.as_str()) {
            Some(s) => has_postinstall_ref(s),
            None => false,
        };
        let has_patch = patched_packages.contains(pkg.name.as_str());
        let mut nest: Vec<String> = Vec::new();
        let mut j: usize = 0;
        while j < pkg.nest_path.len()
            invariant
                j <= pkg.nest_path.len(),
                nest@ == pkg.nest_path@.take(j as int),
            decreases pkg.nest_path.len() - j,
        {
            nest.push(pkg.nest_path[j].clone());
            proof {
                assert(pkg.nest_path@.take(j as int).push(pkg.nest_path@[j as int]) =~= pkg.nest_path@.take(j + 1));
            }
            j += 1;
        }
        proof {
            assert(pkg.nest_path@.take(pkg.nest_path.len() as int) =~= pkg.nest_path@);
            reveal_strlit("@");
        }
        let entry = ManifestEntry {
            name: pkg.name.clone(),
            version: pkg.version.clone(),
            nest_path: nest,
            has_scripts: scripts,
            has_patch,
        };
        let ghost kv = key@;
        let ghost ev = entry_v(entry);
        proof {
            assert(ev == package_entry(*pkg, graph, patched_packages));
        }
        packages.insert(key, entry);
        i += 1;
    }
    proof {
        assert(pkgs.take(pkgs.len() as int) =~= pkgs);
    }
    proof {
        assert forall|i: int| 0 <= i < graph.packages.size() implies packages.has(
            #[trigger] pkg_key(graph.packages.vseq()[i]),
        ) by {
            lemma_last_with_key_some(graph.packages.vseq(), i);
            assert(packages.lookup(pkg_key(graph.packages.vseq()[i])) is Some);
        }
    }
    LinkManifest { packages }
}

/// Whether the scripts include `postinstall`.
fn has_postinstall_ref(s: &StrMap<String>) -> (b: bool)
    ensures
        b == s.has("postinstall"@),
{
    s.contains_key("postinstall")
}


/// The manifest key of a package.
pub open spec fn pkg_key(p: ResolvedPackage) -> Seq<char> {
    manifest_key_spec(p.name@, p.version@, strs(p.nest_path@))
}

proof fn lemma_last_with_key_some(pkgs: Seq<ResolvedPackage>, i: int)
    requires
        0 <= i < pkgs.len(),
    ensures
        last_with_key(pkgs, pkg_key(pkgs[i])) is Some,
    decreases pkgs.len(),
{
    if i < pkgs.len() - 1 && pkg_key(pkgs.last()) != pkg_key(pkgs[i]) {
        assert(pkgs.drop_last()[i] == pkgs[i]);
        lemma_last_with_key_some(pkgs.drop_last(), i);
    }
}

/// The directory name of a package in the store: `name@version` with the
/// `/` of a scope as `+`.
pub open spec fn store_name_spec(name: Seq<char>, version: Seq<char>) -> Seq<char> {
    crate::text::replace_char(name, '/', "+"@) + "@"@ + version
}

/// The directory name of a package in the store.
pub fn store_name(name: &str, version: &str) -> (r: String)
    ensures
        r@ == store_name_spec(name@, version@),
{
    let mut r = crate::text::replace_char_str(name, '/', "+");
    push_str(&mut r, "@");
    push_str(&mut r, version);
    r
}

/// Where a package goes under node_modules, as path components: its name,
/// or, when nested, `parent/node_modules/` for each parent and then its name.
pub open spec fn target_components_spec(name: Seq<char>, nest: Seq<Seq<char>>) -> Seq<Seq<char>>
    decreases nest.len(),
{
    if nest.len() == 0 {
        seq![name]
    } else {
        seq![nest[0], "node_modules"@] + target_components_spec(name, nest.skip(1))
    }
}

/// Where a package goes under node_modules, as path components.
pub fn target_components(name: &str, nest_path: &Vec<String>) -> (r: Vec<String>)
    ensures
        strs(r@) == target_components_spec(name@, strs(nest_path@)),
{
    let ghost nv = strs(nest_path@);
    let mut r: Vec<String> = Vec::new();
    let mut i: usize = 0;
    proof {
        assert(nv.skip(0) =~= nv);
        assert(strs(r@) + target_components_spec(name@, nv) =~= target_components_spec(name@, nv));
    }
    while i < nest_path.len()
        invariant
            i <= nest_path.len(),
            nv == strs(nest_path@),
            strs(r@) + target_components_spec(name@, nv.skip(i as int)) == target_components_spec(name@, nv),
        decreases nest_path.len() - i,
    {
        let ghost rb = strs(r@);
        proof {
            assert(nv.skip(i as int)[0] == nest_path@[i as int]@);
            assert(nv.skip(i as int).skip(1) =~= nv.skip(i + 1));
        }
        r.push(nest_path[i].clone());
        r.push(String::from_str("node_modules"));
        proof {
            assert(strs(r@) =~= rb + seq![nest_path@[i as int]@, "node_modules"@]);
            assert(strs(r@) + target_components_spec(name@, nv.skip(i + 1)) =~= rb + target_components_spec(
                name@,
                nv.skip(i as int),
            ));
        }
        i += 1;
    }
    let ghost rb = strs(r@);
    r.push(String::from_str(name));
    proof {
        assert(nv.skip(nest_path.len() as int) =~= Seq::<Seq<char>>::empty());
        assert(strs(r@) =~= rb + seq![name@]);
    }
    r
}

/// What an incremental link does: the packages to remove (name and nest
/// path), the graph's packages (by position) to link anew, and how many are
/// already linked as wanted.
pub struct LinkPlan {
    pub remove: Vec<(String, Vec<String>)>,
    pub relink: Vec<usize>,
    pub cached: usize,
}

/// A key of the old manifest whose package is no longer wanted.
pub open spec fn stale_entries(old: StrMap<ManifestEntry>, new: StrMap<ManifestEntry>, n: int) -> Seq<(Seq<char>, Seq<Seq<char>>)>
    decreases n,
{
    if n <= 0 {
        seq![]
    } else {
        let prev = stale_entries(old, new, n - 1);
        if new.has(old.kseq()[n - 1]) {
            prev
        } else {
            prev.push((old.vseq()[n - 1].name@, strs(old.vseq()[n - 1].nest_path@)))
        }
    }
}

/// The package under the key is linked already as the new manifest wants it.
pub open spec fn unchanged(old: StrMap<ManifestEntry>, new: StrMap<ManifestEntry>, k: Seq<char>) -> bool {
    match (old.lookup(k), new.lookup(k)) {
        (Some(oe), Some(ne)) => entry_v(oe) == entry_v(ne),
        _ => false,
    }
}

/// The positions of the first `n` packages of the graph that must be linked.
pub open spec fn relinked(pkgs: Seq<ResolvedPackage>, old: StrMap<ManifestEntry>, new: StrMap<ManifestEntry>, n: int) -> Seq<int>
    decreases n,
{
    if n <= 0 {
        seq![]
    } else if unchanged(old, new, pkg_key(pkgs[n - 1])) {
        relinked(pkgs, old, new, n - 1)
    } else {
        relinked(pkgs, old, new, n - 1).push(n - 1)
    }
}

/// How many of the first `n` packages are already linked as wanted.
pub open spec fn cached_count(pkgs: Seq<ResolvedPackage>, old: StrMap<ManifestEntry>, new: StrMap<ManifestEntry>, n: int) -> nat
    decreases n,
{
    if n <= 0 {
        0
    } else {
        cached_count(pkgs, old, new, n - 1) + if unchanged(old, new, pkg_key(pkgs[n - 1])) {
            1nat
        } else {
            0
        }
    }
}

fn clone_strs(v: &Vec<String>) -> (r: Vec<String>)
    ensures
        strs(r@) == strs(v@),
{
    let mut r: Vec<String> = Vec::new();
    let mut i: usize = 0;
    while i < v.len()
        invariant
            i <= v.len(),
            strs(r@) == strs(v@).take(i as int),
        decreases v.len() - i,
    {
        let ghost rb = strs(r@);
        r.push(v[i].clone());
        assert(strs(r@) =~= rb.push(v@[i as int]@));
        assert(strs(v@).take(i + 1) =~= strs(v@).take(i as int).push(v@[i as int]@));
        i += 1;
    }
    assert(strs(v@).take(v.len() as int) =~= strs(v@));
    r
}

fn same_entry(a: &ManifestEntry, b: &ManifestEntry) -> (r: bool)
    ensures
        r == (entry_v(*a) == entry_v(*b)),
{
    if !crate::text::str_eq(a.name.as_str(), b.name.as_str()) || !crate::text::str_eq(a.version.as_str(), b.version.as_str())
        || a.has_scripts != b.has_scripts || a.has_patch != b.has_patch || a.nest_path.len() != b.nest_path.len() {
        proof {
            if a.nest_path.len() != b.nest_path.len() {
                assert(strs(a.nest_path@).len() != strs(b.nest_path@).len());
            }
        }
        return false;
    }
    let mut i: usize = 0;
    while i < a.nest_path.len()
        invariant
            i <= a.nest_path.len(),
            a.nest_path.len() == b.nest_path.len(),
            forall|j: int| 0 <= j < i ==> a.nest_path@[j]@ == b.nest_path@[j]@,
        decreases a.nest_path.len() - i,
    {
        if !crate::text::str_eq(a.nest_path[i].as_str(), b.nest_path[i].as_str()) {
            proof {
                assert(strs(a.nest_path@)[i as int] != strs(b.nest_path@)[i as int]);
            }
            return false;
        }
        i += 1;
    }
    assert(strs(a.nest_path@) =~= strs(b.nest_path@));
    true
}

/// The plan of an incremental link from the old manifest to the new one.
pub fn plan_link(graph: &ResolvedGraph, old_manifest: &LinkManifest, new_manifest: &LinkManifest) -> (p: LinkPlan)
    requires
        forall|i: int|
            0 <= i < graph.packages.size() ==> new_manifest.packages.has(#[trigger] pkg_key(graph.packages.vseq()[i])),
    ensures
        p.remove@.map_values(|r: (String, Vec<String>)| (r.0@, strs(r.1@))) == stale_entries(
            old_manifest.packages,
            new_manifest.packages,
            old_manifest.packages.size() as int,
        ),
        p.relink@.map_values(|i: usize| i as int) == relinked(
            graph.packages.vseq(),
            old_manifest.packages,
            new_manifest.packages,
            graph.packages.size() as int,
        ),
        p.cached == cached_count(graph.packages.vseq(), old_manifest.packages, new_manifest.packages, graph.packages.size() as int),
{
    let old = &old_manifest.packages;
    let new = &new_manifest.packages;
    let mut remove: Vec<(String, Vec<String>)> = Vec::new();
    let mut i: usize = 0;
    proof {
        old.lemma_sizes();
        graph.packages.lemma_sizes();
    }
    while i < old.len()
        invariant
            i <= old.size(),
            old == &old_manifest.packages,
            new == &new_manifest.packages,
            old.kseq().len() == old.vseq().len(),
            remove@.map_values(|r: (String, Vec<String>)| (r.0@, strs(r.1@))) == stale_entries(*old, *new, i as int),
        decreases old.size() - i,
    {
        let k = old.key_at(i);
        if !new.contains_key(k.as_str()) {
            let e = old.value_at(i);
            let ghost rb = remove@.map_values(|r: (String, Vec<String>)| (r.0@, strs(r.1@)));
            remove.push((e.name.clone(), clone_strs(&e.nest_path)));
            assert(remove@.map_values(|r: (String, Vec<String>)| (r.0@, strs(r.1@))) =~= rb.push((e.name@, strs(e.nest_path@))));
        }
        i += 1;
    }
    let pkgs = &graph.packages;
    let mut relink: Vec<usize> = Vec::new();
    let mut cached: usize = 0;
    let mut j: usize = 0;
    while j < pkgs.len()
        invariant
            j <= pkgs.size(),
            pkgs == &graph.packages,
            old == &old_manifest.packages,
            new == &new_manifest.packages,
            pkgs.kseq().len() == pkgs.vseq().len(),
            forall|i: int| 0 <= i < pkgs.size() ==> new.has(#[trigger] pkg_key(pkgs.vseq()[i])),
            relink@.map_values(|i: usize| i as int) == relinked(pkgs.vseq(), *old, *new, j as int),
            cached == cached_count(pkgs.vseq(), *old, *new, j as int),
            cached <= j,
        decreases pkgs.size() - j,
    {
        let p = pkgs.value_at(j);
        let key = manifest_key(p.name.as_str(), p.version.as_str(), p.nest_path.as_slice());
        proof {
            assert(key@ == pkg_key(pkgs.vseq()[j as int]));
            assert(new.has(key@));
        }
        let ne = match new.get(key.as_str()) {
            Some(e) => e,
            None => {
                proof {
                    assert(false);
                }
                return LinkPlan { remove, relink, cached };
            },
        };
        let same = match old.get(key.as_str()) {
            Some(oe) => same_entry(oe, ne),
            None => false,
        };
        proof {
            assert(same == unchanged(*old, *new, key@));
        }
        if same {
            cached = cached + 1;
        } else {
            let ghost rb = relink@.map_values(|i: usize| i as int);
            relink.push(j);
            assert(relink@.map_values(|i: usize| i as int) =~= rb.push(j as int));
        }
        j += 1;
    }
    LinkPlan { remove, relink, cached }
}

} // verus!

verus! {

/// The manifest holds exactly the graph's keys: a key has a package (the
/// last with that key, whose entry `build_manifest` records) exactly when
/// some package of the graph has that key.
pub proof fn law_manifest_keys(pkgs: Seq<ResolvedPackage>, k: Seq<char>)
    ensures
        last_with_key(pkgs, k) is Some <==> exists|i: int|
            0 <= i < pkgs.len() && manifest_key_spec(
                (#[trigger] pkgs[i]).name@,
                pkgs[i].version@,
                strs(pkgs[i].nest_path@),
            ) == k,
        last_with_key(pkgs, k) matches Some(p) ==> pkgs.contains(p) && manifest_key_spec(
            p.name@,
            p.version@,
            strs(p.nest_path@),
        ) == k,
    decreases pkgs.len(),
{
    if pkgs.len() > 0 {
        let q = pkgs.drop_last();
        law_manifest_keys(q, k);
        let p = pkgs.last();
        assert(pkgs[pkgs.len() - 1] == p);
        if manifest_key_spec(p.name@, p.version@, strs(p.nest_path@)) != k {
            if exists|i: int|
                0 <= i < pkgs.len() && manifest_key_spec(
                    (#[trigger] pkgs[i]).name@,
                    pkgs[i].version@,
                    strs(pkgs[i].nest_path@),
                ) == k {
                let i = choose|i: int|
                    0 <= i < pkgs.len() && manifest_key_spec(
                        (#[trigger] pkgs[i]).name@,
                        pkgs[i].version@,
                        strs(pkgs[i].nest_path@),
                    ) == k;
                assert(q[i] == pkgs[i]);
            }
            if exists|i: int|
                0 <= i < q.len() && manifest_key_spec(
                    (#[trigger] q[i]).name@,
                    q[i].version@,
                    strs(q[i].nest_path@),
                ) == k {
                let i = choose|i: int|
                    0 <= i < q.len() && manifest_key_spec(
                        (#[trigger] q[i]).name@,
                        q[i].version@,
                        strs(q[i].nest_path@),
                    ) == k;
                assert(pkgs[i] == q[i]);
            }
            if let Some(x) = last_with_key(q, k) {
                let j = choose|j: int| 0 <= j < q.len() && q[j] == x;
                assert(pkgs[j] == x);
            }
        }
    }
}

} // verus!
