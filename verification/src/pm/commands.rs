//! The decisions of the dependency commands (`add`, `remove`, `update`,
//! `outdated`, `install`), apart from the registry, the resolver and the
//! disk: which section a dependency goes to, what is removed, what is
//! updated and to which range, which dependencies are outdated, what may be
//! published, and the messages the commands print.

use vstd::prelude::*;
use crate::pm::outdated::{extract_range_prefix, range_prefix, OutdatedEntry, UpdateResult};
use crate::pm::types::{spec_key_of, Lockfile, PackageJson};
use crate::smap::StrMap;
use crate::pm::pack::{trim_end_slashes, trim_end_slashes_exec};
use crate::pm::shell::{on_windows, shell_escape_unix, shell_escape_windows, unix_escaped, windows_escaped};
use crate::text::{dec, join, join_strings, owned, push_dec, push_str, str_chars, str_contains, str_eq};

verus! {

/// The section of package.json a dependency is recorded in.
#[derive(Debug, Clone, Copy, PartialEq, Eq, Structural)]
pub enum DepKind {
    Regular,
    Dev,
    Peer,
    Optional,
}

/// The section chosen by the `--dev`, `--peer` and `--optional` flags; at
/// most one may be given.
pub open spec fn kind_spec(dev: bool, peer: bool, optional: bool) -> Result<DepKind, Seq<char>> {
    let n = (if dev { 1int } else { 0 }) + (if peer { 1int } else { 0 }) + (if optional { 1int } else { 0 });
    if n > 1 {
        Err("error: --dev, --peer, and --optional are mutually exclusive"@)
    } else if peer {
        Ok(DepKind::Peer)
    } else if dev {
        Ok(DepKind::Dev)
    } else if optional {
        Ok(DepKind::Optional)
    } else {
        Ok(DepKind::Regular)
    }
}

/// The section chosen by the flags of `add`.
pub fn dep_kind(dev: bool, peer: bool, optional: bool) -> (r: Result<DepKind, String>)
    ensures
        match r {
            Ok(k) => kind_spec(dev, peer, optional) == Ok::<DepKind, Seq<char>>(k),
            Err(e) => kind_spec(dev, peer, optional) == Err::<DepKind, Seq<char>>(e@),
        },
{
    let n: u8 = (if dev { 1u8 } else { 0 }) + (if peer { 1u8 } else { 0 }) + (if optional { 1u8 } else { 0 });
    if n > 1 {
        Err(String::from_str("error: --dev, --peer, and --optional are mutually exclusive"))
    } else if peer {
        Ok(DepKind::Peer)
    } else if dev {
        Ok(DepKind::Dev)
    } else if optional {
        Ok(DepKind::Optional)
    } else {
        Ok(DepKind::Regular)
    }
}

/// The section of the kind.
pub open spec fn section(p: PackageJson, k: DepKind) -> StrMap<String> {
    match k {
        DepKind::Regular => p.dependencies,
        DepKind::Dev => p.dev_dependencies,
        DepKind::Peer => p.peer_dependencies,
        DepKind::Optional => p.optional_dependencies,
    }
}

/// Everything of package.json but the dependency sections is the same.
pub open spec fn same_rest(a: PackageJson, b: PackageJson) -> bool {
    &&& a.name == b.name
    &&& a.version == b.version
    &&& a.bundled_dependencies == b.bundled_dependencies
    &&& a.scripts == b.scripts
    &&& a.overrides == b.overrides
}

/// Records `name` with `range` in the section of the kind; the other
/// sections stay as they were.
pub fn add_dependency(pkg: &mut PackageJson, kind: DepKind, name: String, range: String)
    ensures
        section(*final(pkg), kind).lookup(name@) == Some(range),
        forall|x: Seq<char>|
            x != name@ ==> #[trigger] section(*final(pkg), kind).lookup(x) == section(*old(pkg), kind).lookup(x),
        forall|k: DepKind| k != kind ==> #[trigger] section(*final(pkg), k) == section(*old(pkg), k),
        same_rest(*final(pkg), *old(pkg)),
{
    match kind {
        DepKind::Peer => pkg.peer_dependencies.insert(name, range),
        DepKind::Dev => pkg.dev_dependencies.insert(name, range),
        DepKind::Optional => pkg.optional_dependencies.insert(name, range),
        DepKind::Regular => pkg.dependencies.insert(name, range),
    }
}

// ---------------------------------------------------------------------------
// remove
// ---------------------------------------------------------------------------

/// The keys of a map.
pub open spec fn keys_of(m: StrMap<String>) -> Set<Seq<char>> {
    Set::new(|x: Seq<char>| m.has(x))
}

/// The key sets of the four sections: dependencies, devDependencies,
/// peerDependencies, optionalDependencies.
pub type Sections = (Set<Seq<char>>, Set<Seq<char>>, Set<Seq<char>>, Set<Seq<char>>);

pub open spec fn sections_of(p: PackageJson) -> Sections {
    (keys_of(p.dependencies), keys_of(p.dev_dependencies), keys_of(p.peer_dependencies), keys_of(p.optional_dependencies))
}

/// Removing `p` from the first section that has it, if any does.
pub open spec fn take_out(s: Sections, p: Seq<char>) -> Option<Sections> {
    if s.0.contains(p) {
        Some((s.0.remove(p), s.1, s.2, s.3))
    } else if s.1.contains(p) {
        Some((s.0, s.1.remove(p), s.2, s.3))
    } else if s.2.contains(p) {
        Some((s.0, s.1, s.2.remove(p), s.3))
    } else if s.3.contains(p) {
        Some((s.0, s.1, s.2, s.3.remove(p)))
    } else {
        None
    }
}

/// The sections after removing the packages one by one, the packages
/// removed, and those no section had (at their turn).
pub open spec fn removal(s: Sections, pkgs: Seq<Seq<char>>) -> (Sections, Seq<Seq<char>>, Seq<Seq<char>>)
    decreases pkgs.len(),
{
    if pkgs.len() == 0 {
        (s, seq![], seq![])
    } else {
        let prev = removal(s, pkgs.drop_last());
        match take_out(prev.0, pkgs.last()) {
            Some(s2) => (s2, prev.1.push(pkgs.last()), prev.2),
            None => (prev.0, prev.1, prev.2.push(pkgs.last())),
        }
    }
}

/// `error: package is not a direct dependency: "a"` (or `packages are` and a
/// comma-separated list).
pub open spec fn not_found_msg(nf: Seq<Seq<char>>) -> Seq<char> {
    "error: "@ + (if nf.len() == 1 {
        "package is"@
    } else {
        "packages are"@
    }) + " not a direct dependency: "@ + join(nf.map_values(|p: Seq<char>| "\""@ + p + "\""@), ", "@)
}

pub open spec fn strs(v: Seq<String>) -> Seq<Seq<char>> {
    v.map_values(|s: String| s@)
}

/// The entries that remain keep their values.
pub open spec fn kept_values(a: StrMap<String>, b: StrMap<String>) -> bool {
    forall|x: Seq<char>| #[trigger] a.has(x) ==> a.lookup(x) == b.lookup(x)
}

fn remove_one(pkg: &mut PackageJson, p: &str) -> (removed: bool)
    ensures
        removed == take_out(sections_of(*old(pkg)), p@).is_some(),
        removed ==> sections_of(*final(pkg)) == take_out(sections_of(*old(pkg)), p@).unwrap(),
        !removed ==> sections_of(*final(pkg)) == sections_of(*old(pkg)),
        kept_values(final(pkg).dependencies, old(pkg).dependencies),
        kept_values(final(pkg).dev_dependencies, old(pkg).dev_dependencies),
        kept_values(final(pkg).peer_dependencies, old(pkg).peer_dependencies),
        kept_values(final(pkg).optional_dependencies, old(pkg).optional_dependencies),
        same_rest(*final(pkg), *old(pkg)),
{
    let ghost o = *pkg;
    if pkg.dependencies.remove(p).is_some() {
        assert(keys_of(pkg.dependencies) =~= keys_of(o.dependencies).remove(p@));
        return true;
    }
    assert(keys_of(pkg.dependencies) =~= keys_of(o.dependencies));
    if pkg.dev_dependencies.remove(p).is_some() {
        assert(keys_of(pkg.dev_dependencies) =~= keys_of(o.dev_dependencies).remove(p@));
        return true;
    }
    assert(keys_of(pkg.dev_dependencies) =~= keys_of(o.dev_dependencies));
    if pkg.peer_dependencies.remove(p).is_some() {
        assert(keys_of(pkg.peer_dependencies) =~= keys_of(o.peer_dependencies).remove(p@));
        return true;
    }
    assert(keys_of(pkg.peer_dependencies) =~= keys_of(o.peer_dependencies));
    if pkg.optional_dependencies.remove(p).is_some() {
        assert(keys_of(pkg.optional_dependencies) =~= keys_of(o.optional_dependencies).remove(p@));
        return true;
    }
    assert(keys_of(pkg.optional_dependencies) =~= keys_of(o.optional_dependencies));
    false
}

fn not_found_text(nf: &Vec<String>) -> (r: String)
    requires
        nf@.len() > 0,
    ensures
        r@ == not_found_msg(strs(nf@)),
{
    let mut r = String::from_str("error: ");
    if nf.len() == 1 {
        push_str(&mut r, "package is");
    } else {
        push_str(&mut r, "packages are");
    }
    push_str(&mut r, " not a direct dependency: ");
    let ghost parts = strs(nf@).map_values(|p: Seq<char>| "\""@ + p + "\""@);
    let ghost head = r@;
    let mut i: usize = 0;
    while i < nf.len()
        invariant
            i <= nf.len(),
            parts == strs(nf@).map_values(|p: Seq<char>| "\""@ + p + "\""@),
            r@ == head + join(parts.take(i as int), ", "@),
        decreases nf.len() - i,
    {
        assert(parts.take(i + 1).drop_last() =~= parts.take(i as int));
        if i > 0 {
            push_str(&mut r, ", ");
        }
        push_str(&mut r, "\"");
        push_str(&mut r, nf[i].as_str());
        push_str(&mut r, "\"");
        i += 1;
    }
    assert(parts.take(nf.len() as int) =~= parts);
    r
}

/// Removes the packages, each from the first of dependencies,
/// devDependencies, peerDependencies and optionalDependencies that has it.
/// Gives the removed packages in order, or, where some package was in no
/// section, the error that names those.
pub fn remove_dependencies(pkg: &mut PackageJson, packages: &Vec<String>) -> (r: Result<Vec<String>, String>)
    ensures
        sections_of(*final(pkg)) == removal(sections_of(*old(pkg)), strs(packages@)).0,
        kept_values(final(pkg).dependencies, old(pkg).dependencies),
        kept_values(final(pkg).dev_dependencies, old(pkg).dev_dependencies),
        kept_values(final(pkg).peer_dependencies, old(pkg).peer_dependencies),
        kept_values(final(pkg).optional_dependencies, old(pkg).optional_dependencies),
        same_rest(*final(pkg), *old(pkg)),
        (r is Ok) == (removal(sections_of(*old(pkg)), strs(packages@)).2.len() == 0),
        r matches Ok(v) ==> strs(v@) == removal(sections_of(*old(pkg)), strs(packages@)).1,
        r matches Err(e) ==> e@ == not_found_msg(removal(sections_of(*old(pkg)), strs(packages@)).2),
{
    let ghost s0 = sections_of(*pkg);
    let ghost o = *pkg;
    let ghost pv = strs(packages@);
    let mut removed: Vec<String> = Vec::new();
    let mut not_found: Vec<String> = Vec::new();
    let mut i: usize = 0;
    assert(pv.take(0) =~= Seq::<Seq<char>>::empty());
    assert(strs(removed@) =~= Seq::<Seq<char>>::empty());
    assert(strs(not_found@) =~= Seq::<Seq<char>>::empty());
    while i < packages.len()
        invariant
            i <= packages.len(),
            pv == strs(packages@),
            removal(s0, pv.take(i as int)) == (sections_of(*pkg), strs(removed@), strs(not_found@)),
            kept_values(pkg.dependencies, o.dependencies),
            kept_values(pkg.dev_dependencies, o.dev_dependencies),
            kept_values(pkg.peer_dependencies, o.peer_dependencies),
            kept_values(pkg.optional_dependencies, o.optional_dependencies),
            same_rest(*pkg, o),
        decreases packages.len() - i,
    {
        let p = packages[i].as_str();
        proof {
            assert(pv.take(i + 1).drop_last() =~= pv.take(i as int));
            assert(pv.take(i + 1).last() == p@);
        }
        let ghost before = *pkg;
        let ghost rb = strs(removed@);
        let ghost nb = strs(not_found@);
        if remove_one(pkg, p) {
            removed.push(packages[i].clone());
            assert(strs(removed@) =~= rb.push(p@));
        } else {
            not_found.push(packages[i].clone());
            assert(strs(not_found@) =~= nb.push(p@));
        }
        i += 1;
    }
    assert(pv.take(packages.len() as int) =~= pv);
    if not_found.len() > 0 {
        Err(not_found_text(&not_found))
    } else {
        Ok(removed)
    }
}

// ---------------------------------------------------------------------------
// update
// ---------------------------------------------------------------------------

/// A direct dependency to update: name, declared range, and whether it is a
/// dev dependency.
pub type Target = (Seq<char>, Seq<char>, bool);

pub open spec fn section_targets(m: StrMap<String>, dev: bool) -> Seq<Target> {
    Seq::new(m.size(), |i: int| (m.kseq()[i], m.vseq()[i]@, dev))
}

/// The targets named on the command line, each looked up in dependencies
/// and then devDependencies; the first that is in neither is an error.
pub open spec fn named_targets(p: PackageJson, names: Seq<Seq<char>>) -> Result<Seq<Target>, Seq<char>>
    decreases names.len(),
{
    if names.len() == 0 {
        Ok(seq![])
    } else {
        match named_targets(p, names.drop_last()) {
            Err(e) => Err(e),
            Ok(ts) => {
                let n = names.last();
                if p.dependencies.has(n) {
                    Ok(ts.push((n, p.dependencies.lookup(n).unwrap()@, false)))
                } else if p.dev_dependencies.has(n) {
                    Ok(ts.push((n, p.dev_dependencies.lookup(n).unwrap()@, true)))
                } else {
                    Err("error: package is not a direct dependency: \""@ + n + "\""@)
                }
            },
        }
    }
}

/// The target for one named package: from dependencies when it is there,
/// else from devDependencies.
pub open spec fn named_target(p: PackageJson, n: Seq<char>) -> Target {
    if p.dependencies.has(n) {
        (n, p.dependencies.lookup(n).unwrap()@, false)
    } else {
        (n, p.dev_dependencies.lookup(n).unwrap()@, true)
    }
}

/// `vtz update <names>` updates exactly the named packages, in the order
/// named, each under its declared range (dependencies before
/// devDependencies, marked dev when it comes from devDependencies); it
/// refuses when some named package is in neither section, naming the first
/// such package.
pub proof fn law_update_named(p: PackageJson, names: Seq<Seq<char>>)
    ensures
        named_targets(p, names) is Ok <==> forall|k: int|
            0 <= k < names.len() ==> p.dependencies.has(#[trigger] names[k]) || p.dev_dependencies.has(names[k]),
        named_targets(p, names) matches Ok(ts) ==> ts.len() == names.len() && forall|k: int|
            0 <= k < names.len() ==> #[trigger] ts[k] == named_target(p, names[k]),
        forall|k: int|
            0 <= k < names.len() && !p.dependencies.has(#[trigger] names[k]) && !p.dev_dependencies.has(names[k])
                && (forall|m: int|
                0 <= m < k ==> p.dependencies.has(#[trigger] names[m]) || p.dev_dependencies.has(names[m]))
                ==> named_targets(p, names) == Err::<Seq<Target>, Seq<char>>(
                "error: package is not a direct dependency: \""@ + names[k] + "\""@,
            ),
    decreases names.len(),
{
    if names.len() > 0 {
        let d = names.drop_last();
        let last = names.len() - 1;
        law_update_named(p, d);
        assert forall|k: int| 0 <= k < d.len() implies d[k] == names[k] by {}
        assert(names.last() == names[last]);
        if named_targets(p, d) is Ok {
            assert forall|k: int| 0 <= k < d.len() implies p.dependencies.has(#[trigger] names[k])
                || p.dev_dependencies.has(names[k]) by {
                assert(p.dependencies.has(d[k]) || p.dev_dependencies.has(d[k]));
            }
        }
        if forall|k: int| 0 <= k < names.len() ==> p.dependencies.has(#[trigger] names[k]) || p.dev_dependencies.has(names[k]) {
            assert forall|k: int| 0 <= k < d.len() implies p.dependencies.has(#[trigger] d[k]) || p.dev_dependencies.has(d[k]) by {
                assert(p.dependencies.has(names[k]) || p.dev_dependencies.has(names[k]));
            }
            assert(p.dependencies.has(names[last]) || p.dev_dependencies.has(names[last]));
        }
        assert forall|k: int|
            0 <= k < names.len() && !p.dependencies.has(#[trigger] names[k]) && !p.dev_dependencies.has(names[k])
                && (forall|m: int|
                0 <= m < k ==> p.dependencies.has(#[trigger] names[m]) || p.dev_dependencies.has(names[m]))
                implies named_targets(p, names) == Err::<Seq<Target>, Seq<char>>(
                "error: package is not a direct dependency: \""@ + names[k] + "\""@,
            ) by {
            if k < last {
                assert(!p.dependencies.has(d[k]) && !p.dev_dependencies.has(d[k]));
                assert forall|m: int| 0 <= m < k implies p.dependencies.has(#[trigger] d[m]) || p.dev_dependencies.has(d[m]) by {
                    assert(p.dependencies.has(names[m]) || p.dev_dependencies.has(names[m]));
                }
            } else {
                assert forall|m: int| 0 <= m < d.len() implies p.dependencies.has(#[trigger] d[m]) || p.dev_dependencies.has(d[m]) by {
                    assert(p.dependencies.has(names[m]) || p.dev_dependencies.has(names[m]));
                }
            }
        }
        if named_targets(p, names) is Ok {
            let ts = named_targets(p, names)->Ok_0;
            let tp = named_targets(p, d)->Ok_0;
            assert forall|k: int| 0 <= k < names.len() implies #[trigger] ts[k] == named_target(p, names[k]) by {
                if k < last {
                    assert(ts[k] == tp[k]);
                }
            }
        }
    }
}

/// What `update` goes through: every dependency and then every dev
/// dependency where no package is named, else the named ones.
pub open spec fn targets_spec(p: PackageJson, names: Seq<Seq<char>>) -> Result<Seq<Target>, Seq<char>> {
    if names.len() == 0 {
        Ok(section_targets(p.dependencies, false) + section_targets(p.dev_dependencies, true))
    } else {
        named_targets(p, names)
    }
}

pub open spec fn targets_view(v: Seq<(String, String, bool)>) -> Seq<Target> {
    v.map_values(|t: (String, String, bool)| (t.0@, t.1@, t.2))
}

fn push_section_targets(out: &mut Vec<(String, String, bool)>, m: &StrMap<String>, dev: bool)
    ensures
        targets_view(final(out)@) == targets_view(old(out)@) + section_targets(*m, dev),
{
    let ghost o = targets_view(out@);
    let mut i: usize = 0;
    proof {
        m.lemma_sizes();
        assert(section_targets(*m, dev).take(0) =~= Seq::<Target>::empty());
        assert(o + Seq::<Target>::empty() =~= o);
    }
    while i < m.len()
        invariant
            i <= m.size(),
            m.kseq().len() == m.vseq().len(),
            targets_view(out@) == o + section_targets(*m, dev).take(i as int),
        decreases m.size() - i,
    {
        let ghost b = targets_view(out@);
        out.push((m.key_at(i).clone(), m.value_at(i).clone(), dev));
        proof {
            assert(targets_view(out@) =~= b.push((m.kseq()[i as int], m.vseq()[i as int]@, dev)));
            assert(section_targets(*m, dev).take(i + 1) =~= section_targets(*m, dev).take(i as int).push(
                (m.kseq()[i as int], m.vseq()[i as int]@, dev),
            ));
        }
        i += 1;
    }
    assert(section_targets(*m, dev).take(m.size() as int) =~= section_targets(*m, dev));
}

/// The dependencies that `update` goes through.
pub fn update_targets(pkg: &PackageJson, packages: &Vec<String>) -> (r: Result<Vec<(String, String, bool)>, String>)
    ensures
        match r {
            Ok(v) => targets_spec(*pkg, strs(packages@)) == Ok::<Seq<Target>, Seq<char>>(targets_view(v@)),
            Err(e) => targets_spec(*pkg, strs(packages@)) == Err::<Seq<Target>, Seq<char>>(e@),
        },
{
    let mut out: Vec<(String, String, bool)> = Vec::new();
    if packages.len() == 0 {
        push_section_targets(&mut out, &pkg.dependencies, false);
        push_section_targets(&mut out, &pkg.dev_dependencies, true);
        assert(targets_view(out@) =~= Seq::<Target>::empty() + section_targets(pkg.dependencies, false)
            + section_targets(pkg.dev_dependencies, true));
        return Ok(out);
    }
    let ghost pv = strs(packages@);
    let mut i: usize = 0;
    assert(pv.take(0) =~= Seq::<Seq<char>>::empty());
    assert(targets_view(out@) =~= Seq::<Target>::empty());
    while i < packages.len()
        invariant
            i <= packages.len(),
            pv == strs(packages@),
            named_targets(*pkg, pv.take(i as int)) == Ok::<Seq<Target>, Seq<char>>(targets_view(out@)),
        decreases packages.len() - i,
    {
        let name = packages[i].as_str();
        proof {
            assert(pv.take(i + 1).drop_last() =~= pv.take(i as int));
            assert(pv.take(i + 1).last() == name@);
        }
        let ghost b = targets_view(out@);
        match pkg.dependencies.get(name) {
            Some(range) => {
                out.push((packages[i].clone(), range.clone(), false));
                assert(targets_view(out@) =~= b.push((name@, range@, false)));
            },
            None => match pkg.dev_dependencies.get(name) {
                Some(range) => {
                    out.push((packages[i].clone(), range.clone(), true));
                    assert(targets_view(out@) =~= b.push((name@, range@, true)));
                },
                None => {
                    let mut e = String::from_str("error: package is not a direct dependency: \"");
                    push_str(&mut e, name);
                    push_str(&mut e, "\"");
                    proof {
                        lemma_named_targets_err(*pkg, pv, i as int + 1);
                    }
                    return Err(e);
                },
            },
        }
        i += 1;
    }
    assert(pv.take(packages.len() as int) =~= pv);
    Ok(out)
}

proof fn lemma_named_targets_err(p: PackageJson, names: Seq<Seq<char>>, n: int)
    requires
        0 <= n <= names.len(),
        named_targets(p, names.take(n)) is Err,
    ensures
        named_targets(p, names) == named_targets(p, names.take(n)),
    decreases names.len() - n,
{
    if n < names.len() {
        assert(names.take(n + 1).drop_last() =~= names.take(n));
        lemma_named_targets_err(p, names, n + 1);
    } else {
        assert(names.take(n) =~= names);
    }
}

/// The update of one dependency, given the version the registry offers (the
/// `latest` tag with `--latest`, else the highest in the range): none where
/// there is none or it is the current one; with `--latest` the range keeps
/// its operator in front of the new version.
pub open spec fn update_spec(
    name: Seq<char>,
    range: Seq<char>,
    dev: bool,
    current: Seq<char>,
    new_version: Option<Seq<char>>,
    latest: bool,
) -> Option<(Seq<char>, Seq<char>, Seq<char>, Seq<char>, bool)> {
    match new_version {
        Some(v) => if v != current {
            Some((name, current, v, if latest { range_prefix(range) + v } else { range }, dev))
        } else {
            None
        },
        None => None,
    }
}

/// What `vtz update` does with a dependency: nothing when the registry
/// offers no version or the one installed; otherwise it goes from the
/// current version to the offered one, keeping its name and dev flag, and
/// its range stays as it is unless `--latest` is given, when the range is
/// the old range's operator followed by the new version (`^1.0.0` updated to
/// `2.1.0` becomes `^2.1.0`; an exact `1.0.0` becomes `2.1.0`).
pub proof fn law_update_plan(
    name: Seq<char>,
    range: Seq<char>,
    dev: bool,
    current: Seq<char>,
    new_version: Option<Seq<char>>,
    latest: bool,
)
    ensures
        (new_version is None || new_version == Some(current)) ==> update_spec(
            name,
            range,
            dev,
            current,
            new_version,
            latest,
        ) is None,
        new_version is Some && new_version.unwrap() != current ==> (update_spec(
            name,
            range,
            dev,
            current,
            new_version,
            latest,
        ) matches Some(u) && u.0 == name && u.1 == current && u.2 == new_version.unwrap() && u.4 == dev && (!latest
            ==> u.3 == range) && (latest ==> u.3 == range_prefix(range) + new_version.unwrap())),
        latest ==> range_prefix(range).is_prefix_of(range),
        (range.len() > 0 && '0' <= range[0] <= '9') ==> range_prefix(range) == Seq::<char>::empty(),
        (range.len() > 1 && range[0] == '^' && '0' <= range[1] <= '9') ==> range_prefix(range) == seq!['^'],
        (range.len() > 1 && range[0] == '~' && '0' <= range[1] <= '9') ==> range_prefix(range) == seq!['~'],
        (range.len() > 2 && range[0] == '>' && range[1] == '=' && '0' <= range[2] <= '9') ==> range_prefix(range)
            == seq!['>', '='],
        (range.len() > 2 && range[0] == '<' && range[1] == '=' && '0' <= range[2] <= '9') ==> range_prefix(range)
            == seq!['<', '='],
        (range.len() > 1 && range[0] == '>' && '0' <= range[1] <= '9') ==> range_prefix(range) == seq!['>'],
        (range.len() > 1 && range[0] == '<' && '0' <= range[1] <= '9') ==> range_prefix(range) == seq!['<'],
{
    reveal_strlit(">=");
    reveal_strlit("<=");
    reveal_strlit("^");
    reveal_strlit("~");
    reveal_strlit(">");
    reveal_strlit("<");
    reveal_strlit("");
    let p = range_prefix(range);
    assert(range.subrange(0, p.len() as int) =~= p) by {
        if ">="@.is_prefix_of(range) {
        } else if "<="@.is_prefix_of(range) {
        } else if "^"@.is_prefix_of(range) {
        } else if "~"@.is_prefix_of(range) {
        } else if ">"@.is_prefix_of(range) {
        } else if "<"@.is_prefix_of(range) {
        }
    }
    if range.len() > 0 && '0' <= range[0] <= '9' {
        assert(!">="@.is_prefix_of(range) && !"<="@.is_prefix_of(range) && !">"@.is_prefix_of(range)
            && !"<"@.is_prefix_of(range) && !"^"@.is_prefix_of(range) && !"~"@.is_prefix_of(range)) by {
            assert(">="@[0] == '>' && "<="@[0] == '<' && ">"@[0] == '>' && "<"@[0] == '<' && "^"@[0] == '^'
                && "~"@[0] == '~');
        }
    }
    if range.len() > 1 && range[0] == '^' && '0' <= range[1] <= '9' {
        assert(range.subrange(0, 1) =~= "^"@);
    }
    if range.len() > 1 && range[0] == '~' && '0' <= range[1] <= '9' {
        assert(range.subrange(0, 1) =~= "~"@);
    }
    if range.len() > 2 && range[0] == '>' && range[1] == '=' && '0' <= range[2] <= '9' {
        assert(range.subrange(0, 2) =~= ">="@);
    }
    if range.len() > 2 && range[0] == '<' && range[1] == '=' && '0' <= range[2] <= '9' {
        assert(!">="@.is_prefix_of(range)) by {
            assert(">="@[0] == '>');
        }
        assert(range.subrange(0, 2) =~= "<="@);
    }
    if range.len() > 1 && range[0] == '>' && '0' <= range[1] <= '9' {
        assert(!">="@.is_prefix_of(range)) by {
            assert(">="@[1] == '=');
        }
        assert(!"<="@.is_prefix_of(range) && !"^"@.is_prefix_of(range) && !"~"@.is_prefix_of(range)) by {
            assert("<="@[0] == '<' && "^"@[0] == '^' && "~"@[0] == '~');
        }
        assert(range.subrange(0, 1) =~= ">"@);
    }
    if range.len() > 1 && range[0] == '<' && '0' <= range[1] <= '9' {
        assert(!">="@.is_prefix_of(range) && !"^"@.is_prefix_of(range) && !"~"@.is_prefix_of(range)
            && !">"@.is_prefix_of(range)) by {
            assert(">="@[0] == '>' && "^"@[0] == '^' && "~"@[0] == '~' && ">"@[0] == '>');
        }
        assert(!"<="@.is_prefix_of(range)) by {
            assert("<="@[1] == '=');
        }
        assert(range.subrange(0, 1) =~= "<"@);
    }
}

/// What `vtz outdated` checks, in each section: the dependencies the
/// lockfile has an entry for (under `name@range`), each with that entry's
/// version; a dependency without an entry is skipped.
pub proof fn law_installed_deps(m: StrMap<String>, lock: Lockfile, dev: bool, n: int, t: Installed)
    requires
        0 <= n <= m.kseq().len(),
        m.kseq().len() == m.vseq().len(),
    ensures
        installed_in(m, lock, dev, n).contains(t) <==> exists|i: int|
            0 <= i < n && t.0 == #[trigger] m.kseq()[i] && t.1 == m.vseq()[i]@ && t.3 == dev && (lock.entries.lookup(
                spec_key_of(t.0, t.1),
            ) matches Some(e) && e.version@ == t.2),
    decreases n,
{
    if n > 0 {
        law_installed_deps(m, lock, dev, n - 1, t);
        let prev = installed_in(m, lock, dev, n - 1);
        let name = m.kseq()[n - 1];
        let range = m.vseq()[n - 1]@;
        match lock.entries.lookup(spec_key_of(name, range)) {
            Some(e) => {
                let cur = prev.push((name, range, e.version@, dev));
                if cur.contains(t) {
                    let c = choose|c: int| 0 <= c < cur.len() && cur[c] == t;
                    if c < prev.len() {
                        assert(prev[c] == t);
                    } else {
                        assert(t == (name, range, e.version@, dev));
                    }
                }
                if prev.contains(t) {
                    let c = choose|c: int| 0 <= c < prev.len() && prev[c] == t;
                    assert(cur[c] == t);
                }
                if t == (name, range, e.version@, dev) {
                    assert(cur[prev.len() as int] == t);
                }
            },
            None => {},
        }
    }
}

/// `t` is a dependency of the section `m` with a lockfile entry under
/// `name@range` at version `t.2`.
pub open spec fn locked_in(m: StrMap<String>, lock: Lockfile, t: Installed) -> bool {
    exists|i: int|
        0 <= i < m.kseq().len() && t.0 == #[trigger] m.kseq()[i] && t.1 == m.vseq()[i]@ && (lock.entries.lookup(
            spec_key_of(t.0, t.1),
        ) matches Some(e) && e.version@ == t.2)
}

/// `vtz outdated` checks exactly the locked dependencies of the three
/// sections: those of devDependencies marked dev, those of dependencies
/// and optionalDependencies not.
pub proof fn law_outdated_tasks(p: PackageJson, lock: Lockfile, t: Installed)
    ensures
        outdated_tasks_spec(p, lock).contains(t) <==> ((!t.3 && locked_in(p.dependencies, lock, t)) || (t.3
            && locked_in(p.dev_dependencies, lock, t)) || (!t.3 && locked_in(p.optional_dependencies, lock, t))),
{
    p.dependencies.lemma_sizes();
    p.dev_dependencies.lemma_sizes();
    p.optional_dependencies.lemma_sizes();
    let a = installed_in(p.dependencies, lock, false, p.dependencies.size() as int);
    let b = installed_in(p.dev_dependencies, lock, true, p.dev_dependencies.size() as int);
    let c = installed_in(p.optional_dependencies, lock, false, p.optional_dependencies.size() as int);
    law_installed_deps(p.dependencies, lock, false, p.dependencies.size() as int, t);
    law_installed_deps(p.dev_dependencies, lock, true, p.dev_dependencies.size() as int, t);
    law_installed_deps(p.optional_dependencies, lock, false, p.optional_dependencies.size() as int, t);
    assert(outdated_tasks_spec(p, lock) == a + b + c);
    if (a + b + c).contains(t) {
        let k = choose|k: int| 0 <= k < (a + b + c).len() && (a + b + c)[k] == t;
        if k < a.len() {
            assert(a[k] == t);
        } else if k < a.len() + b.len() {
            assert(b[k - a.len()] == t);
        } else {
            assert(c[k - a.len() - b.len()] == t);
        }
    }
    if a.contains(t) {
        let k = choose|k: int| 0 <= k < a.len() && a[k] == t;
        assert((a + b + c)[k] == t);
    }
    if b.contains(t) {
        let k = choose|k: int| 0 <= k < b.len() && b[k] == t;
        assert((a + b + c)[a.len() + k] == t);
    }
    if c.contains(t) {
        let k = choose|k: int| 0 <= k < c.len() && c[k] == t;
        assert((a + b + c)[a.len() + b.len() + k] == t);
    }
}

pub open spec fn update_view(r: UpdateResult) -> (Seq<char>, Seq<char>, Seq<char>, Seq<char>, bool) {
    (r.name@, r.from@, r.to@, r.range@, r.dev)
}

/// The update of one dependency.
pub fn plan_update(name: &str, range: &str, dev: bool, current: &str, new_version: Option<&str>, latest: bool) -> (r: Option<UpdateResult>)
    ensures
        match r {
            Some(u) => update_spec(name@, range@, dev, current@, opt_view(new_version), latest) == Some(update_view(u)),
            None => update_spec(name@, range@, dev, current@, opt_view(new_version), latest) is None,
        },
{
    match new_version {
        Some(v) => {
            if str_eq(v, current) {
                None
            } else {
                let new_range = if latest {
                    let mut s = String::from_str(extract_range_prefix(range));
                    push_str(&mut s, v);
                    s
                } else {
                    String::from_str(range)
                };
                Some(UpdateResult {
                    name: String::from_str(name),
                    from: String::from_str(current),
                    to: String::from_str(v),
                    range: new_range,
                    dev,
                })
            }
        },
        None => None,
    }
}

pub open spec fn opt_view(o: Option<&str>) -> Option<Seq<char>> {
    match o {
        Some(s) => Some(s@),
        None => None,
    }
}

// ---------------------------------------------------------------------------
// outdated
// ---------------------------------------------------------------------------

/// A direct dependency with its installed version: name, range, current
/// version, dev.
pub type Installed = (Seq<char>, Seq<char>, Seq<char>, bool);

/// The dependencies of a section that the lockfile has an entry for, with the
/// entry's version.
pub open spec fn installed_in(m: StrMap<String>, lock: Lockfile, dev: bool, n: int) -> Seq<Installed>
    decreases n,
{
    if n <= 0 {
        seq![]
    } else {
        let prev = installed_in(m, lock, dev, n - 1);
        let name = m.kseq()[n - 1];
        let range = m.vseq()[n - 1]@;
        match lock.entries.lookup(spec_key_of(name, range)) {
            Some(e) => prev.push((name, range, e.version@, dev)),
            None => prev,
        }
    }
}

/// What `outdated` checks: the installed dependencies, devDependencies and
/// optionalDependencies, in that order.
pub open spec fn outdated_tasks_spec(p: PackageJson, lock: Lockfile) -> Seq<Installed> {
    installed_in(p.dependencies, lock, false, p.dependencies.size() as int)
        + installed_in(p.dev_dependencies, lock, true, p.dev_dependencies.size() as int)
        + installed_in(p.optional_dependencies, lock, false, p.optional_dependencies.size() as int)
}

pub open spec fn installed_view(v: Seq<(String, String, String, bool)>) -> Seq<Installed> {
    v.map_values(|t: (String, String, String, bool)| (t.0@, t.1@, t.2@, t.3))
}

fn push_installed(out: &mut Vec<(String, String, String, bool)>, m: &StrMap<String>, lock: &Lockfile, dev: bool)
    ensures
        installed_view(final(out)@) == installed_view(old(out)@) + installed_in(*m, *lock, dev, m.size() as int),
{
    let ghost o = installed_view(out@);
    let mut i: usize = 0;
    proof {
        m.lemma_sizes();
        assert(o + Seq::<Installed>::empty() =~= o);
    }
    while i < m.len()
        invariant
            i <= m.size(),
            m.kseq().len() == m.vseq().len(),
            installed_view(out@) == o + installed_in(*m, *lock, dev, i as int),
        decreases m.size() - i,
    {
        let name = m.key_at(i);
        let range = m.value_at(i);
        let key = Lockfile::spec_key(name.as_str(), range.as_str());
        let ghost b = installed_view(out@);
        match lock.entries.get(key.as_str()) {
            Some(e) => {
                out.push((name.clone(), range.clone(), e.version.clone(), dev));
                assert(installed_view(out@) =~= b.push((name@, range@, e.version@, dev)));
            },
            None => {},
        }
        proof {
            assert(o + installed_in(*m, *lock, dev, i + 1) =~= installed_view(out@));
        }
        i += 1;
    }
}

/// The installed direct dependencies that `outdated` checks.
pub fn outdated_tasks(pkg: &PackageJson, lockfile: &Lockfile) -> (r: Vec<(String, String, String, bool)>)
    ensures
        installed_view(r@) == outdated_tasks_spec(*pkg, *lockfile),
{
    let mut out: Vec<(String, String, String, bool)> = Vec::new();
    push_installed(&mut out, &pkg.dependencies, lockfile, false);
    push_installed(&mut out, &pkg.dev_dependencies, lockfile, true);
    push_installed(&mut out, &pkg.optional_dependencies, lockfile, false);
    assert(installed_view(out@) =~= Seq::<Installed>::empty() + installed_in(pkg.dependencies, *lockfile, false, pkg.dependencies.size() as int)
        + installed_in(pkg.dev_dependencies, *lockfile, true, pkg.dev_dependencies.size() as int)
        + installed_in(pkg.optional_dependencies, *lockfile, false, pkg.optional_dependencies.size() as int));
    out
}

/// The row of an installed dependency, given what the registry says: the
/// wanted version (the current one where no version matches the range) and
/// the latest (the current one where there is no `latest` tag); none where
/// both equal the current version.
pub open spec fn outdated_entry_spec(
    t: Installed,
    wanted: Option<Seq<char>>,
    latest: Option<Seq<char>>,
) -> Option<(Seq<char>, Seq<char>, Seq<char>, Seq<char>, Seq<char>, bool)> {
    let w = match wanted {
        Some(v) => v,
        None => t.2,
    };
    let l = match latest {
        Some(v) => v,
        None => t.2,
    };
    if t.2 != w || t.2 != l {
        Some((t.0, t.2, w, l, t.1, t.3))
    } else {
        None
    }
}

/// Which dependencies `vtz outdated` lists: a dependency whose wanted or
/// latest version (each the current one where unknown) differs from the
/// current one is listed, with its name, current version, wanted version,
/// latest version, range and dev flag; one at both is not. In particular a
/// dependency at its wanted version with a newer latest tag is listed with
/// that latest version.
pub proof fn law_outdated_rows(t: Installed, wanted: Option<Seq<char>>, latest: Option<Seq<char>>)
    ensures
        latest is Some && latest.unwrap() != t.2 ==> (outdated_entry_spec(t, wanted, latest) matches Some(row) && row
            == (t.0, t.2, if wanted is Some { wanted.unwrap() } else { t.2 }, latest.unwrap(), t.1, t.3)),
        wanted is Some && wanted.unwrap() != t.2 ==> (outdated_entry_spec(t, wanted, latest) matches Some(row) && row
            == (t.0, t.2, wanted.unwrap(), if latest is Some { latest.unwrap() } else { t.2 }, t.1, t.3)),
        (wanted is None || wanted.unwrap() == t.2) && (latest is None || latest.unwrap() == t.2)
            ==> outdated_entry_spec(t, wanted, latest) is None,
{
}

pub open spec fn outdated_view(e: OutdatedEntry) -> (Seq<char>, Seq<char>, Seq<char>, Seq<char>, Seq<char>, bool) {
    (e.name@, e.current@, e.wanted@, e.latest@, e.range@, e.dev)
}

/// The row of an installed dependency.
pub fn outdated_entry(name: &str, range: &str, current: &str, dev: bool, wanted: Option<&str>, latest: Option<&str>) -> (r: Option<OutdatedEntry>)
    ensures
        match r {
            Some(e) => outdated_entry_spec((name@, range@, current@, dev), opt_view(wanted), opt_view(latest))
                == Some(outdated_view(e)),
            None => outdated_entry_spec((name@, range@, current@, dev), opt_view(wanted), opt_view(latest)) is None,
        },
{
    let w = match wanted {
        Some(v) => v,
        None => current,
    };
    let l = match latest {
        Some(v) => v,
        None => current,
    };
    if !str_eq(current, w) || !str_eq(current, l) {
        Some(OutdatedEntry {
            name: String::from_str(name),
            current: String::from_str(current),
            wanted: String::from_str(w),
            latest: String::from_str(l),
            range: String::from_str(range),
            dev,
        })
    } else {
        None
    }
}

/// `warning: could not fetch metadata for <name>: <error>`.
pub fn metadata_warning(name: &str, error: &str) -> (r: String)
    ensures
        r@ == "warning: could not fetch metadata for "@ + name@ + ": "@ + error@,
{
    let mut r = String::from_str("warning: could not fetch metadata for ");
    push_str(&mut r, name);
    push_str(&mut r, ": ");
    push_str(&mut r, error);
    r
}

// ---------------------------------------------------------------------------
// add
// ---------------------------------------------------------------------------

/// A specifier that carries a range operator (`^`, `~`, `>` or `|`).
pub open spec fn has_range_operator(s: Seq<char>) -> bool {
    s.contains('^') || s.contains('~') || s.contains('>') || s.contains('|')
}

/// The range recorded by `add` and the version it reports, given the
/// version specifier typed, the version the resolver found for it, and the
/// `latest` tag: an explicit range is kept as typed (pinned to the resolved
/// version with `--exact`), a bare version or `latest` becomes `^<version>`
/// (or the version itself with `--exact`).
pub open spec fn added_range_spec(
    name: Seq<char>,
    spec: Option<Seq<char>>,
    resolved: Option<Seq<char>>,
    latest_tag: Option<Seq<char>>,
    exact: bool,
) -> Result<(Seq<char>, Seq<char>), Seq<char>> {
    let chosen: Result<Option<Seq<char>>, Seq<char>> = match spec {
        Some(s) => if has_range_operator(s) {
            match resolved {
                Some(v) => Ok(if exact { Some(v) } else { None }),
                None => Err("error: no version of \""@ + name + "\" matches \""@ + s + "\""@),
            }
        } else {
            match resolved {
                Some(v) => Ok(Some(v)),
                None => Err(
                    "error: no version of \""@ + name + "\" matches \""@ + s + "\" (latest: "@ + (match latest_tag {
                        Some(l) => l,
                        None => "unknown"@,
                    }) + ")"@,
                ),
            }
        },
        None => match latest_tag {
            Some(l) => Ok(Some(l)),
            None => Err("error: package \""@ + name + "\" not found in npm registry"@),
        },
    };
    match chosen {
        Err(e) => Err(e),
        Ok(Some(v)) => Ok((if exact { v } else { "^"@ + v }, v)),
        Ok(None) => Ok((spec.unwrap(), spec.unwrap())),
    }
}

fn has_char_str(s: &str, c: char) -> (b: bool)
    ensures
        b == s@.contains(c),
{
    let v = crate::text::str_chars(s);
    crate::text::has_char(&v, c)
}

/// The range recorded by `add` and the version it reports.
pub fn added_range(
    name: &str,
    spec: Option<&str>,
    resolved: Option<&str>,
    latest_tag: Option<&str>,
    exact: bool,
) -> (r: Result<(String, String), String>)
    ensures
        match r {
            Ok(p) => added_range_spec(name@, opt_view(spec), opt_view(resolved), opt_view(latest_tag), exact)
                == Ok::<(Seq<char>, Seq<char>), Seq<char>>((p.0@, p.1@)),
            Err(e) => added_range_spec(name@, opt_view(spec), opt_view(resolved), opt_view(latest_tag), exact)
                == Err::<(Seq<char>, Seq<char>), Seq<char>>(e@),
        },
{
    let chosen: Option<&str> = match spec {
        Some(s) => {
            let op = has_char_str(s, '^') || has_char_str(s, '~') || has_char_str(s, '>') || has_char_str(s, '|');
            if op {
                match resolved {
                    Some(v) => if exact { Some(v) } else { None },
                    None => {
                        let mut e = String::from_str("error: no version of \"");
                        push_str(&mut e, name);
                        push_str(&mut e, "\" matches \"");
                        push_str(&mut e, s);
                        push_str(&mut e, "\"");
                        return Err(e);
                    },
                }
            } else {
                match resolved {
                    Some(v) => Some(v),
                    None => {
                        let mut e = String::from_str("error: no version of \"");
                        push_str(&mut e, name);
                        push_str(&mut e, "\" matches \"");
                        push_str(&mut e, s);
                        push_str(&mut e, "\" (latest: ");
                        match latest_tag {
                            Some(l) => push_str(&mut e, l),
                            None => push_str(&mut e, "unknown"),
                        }
                        push_str(&mut e, ")");
                        return Err(e);
                    },
                }
            }
        },
        None => match latest_tag {
            Some(l) => Some(l),
            None => {
                let mut e = String::from_str("error: package \"");
                push_str(&mut e, name);
                push_str(&mut e, "\" not found in npm registry");
                return Err(e);
            },
        },
    };
    match chosen {
        Some(v) => {
            let range = if exact {
                String::from_str(v)
            } else {
                let mut s = String::from_str("^");
                push_str(&mut s, v);
                s
            };
            Ok((range, String::from_str(v)))
        },
        None => {
            let s = spec.unwrap();
            Ok((String::from_str(s), String::from_str(s)))
        },
    }
}

/// `github:<owner>/<repo>`, with `#<ref>` where a ref is given.
pub open spec fn github_specifier_spec(owner: Seq<char>, repo: Seq<char>, git_ref: Option<Seq<char>>) -> Seq<char> {
    "github:"@ + owner + "/"@ + repo + match git_ref {
        Some(r) => "#"@ + r,
        None => seq![],
    }
}

/// The specifier recorded for a GitHub dependency.
pub fn github_specifier(owner: &str, repo: &str, git_ref: Option<&str>) -> (r: String)
    ensures
        r@ == github_specifier_spec(owner@, repo@, opt_view(git_ref)),
{
    let mut r = String::from_str("github:");
    push_str(&mut r, owner);
    push_str(&mut r, "/");
    push_str(&mut r, repo);
    match git_ref {
        Some(g) => {
            push_str(&mut r, "#");
            push_str(&mut r, g);
        },
        None => {},
    }
    r
}

// ---------------------------------------------------------------------------
// install
// ---------------------------------------------------------------------------

/// The value under `x`, as chars.
pub open spec fn sview(m: StrMap<String>, x: Seq<char>) -> Option<Seq<char>> {
    match m.lookup(x) {
        Some(s) => Some(s@),
        None => None,
    }
}

/// All the dependencies to resolve: dependencies, then devDependencies, then
/// optionalDependencies, a later section winning for a name in several.
pub open spec fn merged_dep(a: StrMap<String>, b: StrMap<String>, c: StrMap<String>, x: Seq<char>) -> Option<Seq<char>> {
    if c.has(x) {
        sview(c, x)
    } else if b.has(x) {
        sview(b, x)
    } else {
        sview(a, x)
    }
}

fn insert_all(into: &mut StrMap<String>, from: &StrMap<String>)
    ensures
        forall|x: Seq<char>|
            #[trigger] sview(*final(into), x) == if from.has(x) {
                sview(*from, x)
            } else {
                sview(*old(into), x)
            },
        forall|x: Seq<char>| #[trigger] final(into).has(x) == (from.has(x) || old(into).has(x)),
{
    let ghost o = *into;
    let mut i: usize = 0;
    proof {
        from.lemma_sizes();
    }
    from.keys_sorted();
    while i < from.len()
        invariant
            i <= from.size(),
            from.kseq().len() == from.vseq().len(),
            crate::smap::sorted_keys(from.kseq()),
            forall|x: Seq<char>|
                #[trigger] sview(*into, x) == if from.kseq().take(i as int).contains(x) {
                    sview(*from, x)
                } else {
                    sview(o, x)
                },
            forall|x: Seq<char>| #[trigger] into.has(x) == (from.kseq().take(i as int).contains(x) || o.has(x)),
        decreases from.size() - i,
    {
        let k = from.key_at(i);
        let v = from.value_at(i);
        proof {
            from.lemma_lookup_at(i as int);
        }
        let ghost before = *into;
        let vc = v.clone();
        into.insert(k.clone(), vc);
        proof {
            assert(from.kseq().take(i + 1) =~= from.kseq().take(i as int).push(k@));
            assert forall|x: Seq<char>| #[trigger] sview(*into, x) == if from.kseq().take(i + 1).contains(x) {
                sview(*from, x)
            } else {
                sview(o, x)
            } by {
                if x == k@ {
                    assert(from.kseq().take(i + 1)[i as int] == x);
                    assert(sview(*into, x) == Some(vc@));
                } else {
                    assert(sview(*into, x) == sview(before, x));
                    if from.kseq().take(i + 1).contains(x) {
                        let w = choose|w: int| 0 <= w < i + 1 && #[trigger] from.kseq().take(i + 1)[w] == x;
                        assert(from.kseq().take(i as int)[w] == x);
                    }
                }
            }
            assert forall|x: Seq<char>| #[trigger] into.has(x) == (from.kseq().take(i + 1).contains(x) || o.has(x)) by {
                if x == k@ {
                    assert(from.kseq().take(i + 1)[i as int] == x);
                } else {
                    if from.kseq().take(i + 1).contains(x) {
                        let w = choose|w: int| 0 <= w < i + 1 && #[trigger] from.kseq().take(i + 1)[w] == x;
                        assert(from.kseq().take(i as int)[w] == x);
                    }
                }
            }
        }
        i += 1;
    }
    proof {
        assert(from.kseq().take(from.size() as int) =~= from.kseq());
    }
}

/// The dependencies `install` resolves.
pub fn merge_install_deps(deps: &StrMap<String>, dev: &StrMap<String>, optional: &StrMap<String>) -> (r: StrMap<String>)
    ensures
        forall|x: Seq<char>| #[trigger] r.has(x) == (deps.has(x) || dev.has(x) || optional.has(x)),
        forall|x: Seq<char>| #[trigger] sview(r, x) == merged_dep(*deps, *dev, *optional, x),
{
    let mut all: StrMap<String> = StrMap::new();
    insert_all(&mut all, deps);
    insert_all(&mut all, dev);
    insert_all(&mut all, optional);
    all
}

/// `Failed to download <n> package(s):` and one indented line per error.
pub open spec fn download_failure_spec(msgs: Seq<Seq<char>>) -> Seq<char> {
    "Failed to download "@ + dec(msgs.len()) + " package(s):\n  "@ + join(msgs, "\n  "@)
}

/// The error of an install whose downloads failed.
pub fn download_failure_message(msgs: &Vec<String>) -> (r: String)
    ensures
        r@ == download_failure_spec(strs(msgs@)),
{
    let mut r = String::from_str("Failed to download ");
    push_dec(&mut r, msgs.len() as u64);
    push_str(&mut r, " package(s):\n  ");
    let j = crate::text::join_strings(msgs, "\n  ");
    push_str(&mut r, j.as_str());
    r
}

/// `Applying <n> patch:` (or `patches:`), the line before the applied patches.
pub open spec fn patches_heading_spec(n: nat) -> Seq<char> {
    "Applying "@ + dec(n) + " patch"@ + (if n == 1 {
        seq![]
    } else {
        "es"@
    }) + ":"@
}

/// The line before the applied patches.
pub fn patches_heading(n: usize) -> (r: String)
    ensures
        r@ == patches_heading_spec(n as nat),
{
    let mut r = String::from_str("Applying ");
    push_dec(&mut r, n as u64);
    push_str(&mut r, " patch");
    if n != 1 {
        push_str(&mut r, "es");
    }
    push_str(&mut r, ":");
    r
}

/// The warnings for postinstall scripts that were not run: one per package,
/// then the command that trusts them all.
pub open spec fn untrusted_warnings_spec(untrusted: Seq<(Seq<char>, Seq<char>)>) -> Seq<Seq<char>> {
    Seq::new(
        untrusted.len(),
        |i: int| "skipping untrusted postinstall for \""@ + untrusted[i].0 + "\" ("@ + untrusted[i].1 + ")"@,
    ).push("fix: vertz config add trust-scripts "@ + join(untrusted.map_values(|u: (Seq<char>, Seq<char>)| u.0), " "@))
}

/// The warnings for postinstall scripts that were not run (name, script).
pub fn untrusted_warnings(untrusted: &Vec<(String, String)>) -> (r: Vec<String>)
    ensures
        strs(r@) == untrusted_warnings_spec(untrusted@.map_values(|u: (String, String)| (u.0@, u.1@))),
{
    let ghost uv = untrusted@.map_values(|u: (String, String)| (u.0@, u.1@));
    let mut out: Vec<String> = Vec::new();
    let mut names: Vec<String> = Vec::new();
    let mut i: usize = 0;
    while i < untrusted.len()
        invariant
            i <= untrusted.len(),
            uv == untrusted@.map_values(|u: (String, String)| (u.0@, u.1@)),
            strs(out@) =~= Seq::new(
                i as nat,
                |k: int| "skipping untrusted postinstall for \""@ + uv[k].0 + "\" ("@ + uv[k].1 + ")"@,
            ),
            strs(names@) =~= uv.take(i as int).map_values(|u: (Seq<char>, Seq<char>)| u.0),
        decreases untrusted.len() - i,
    {
        let mut w = String::from_str("skipping untrusted postinstall for \"");
        push_str(&mut w, untrusted[i].0.as_str());
        push_str(&mut w, "\" (");
        push_str(&mut w, untrusted[i].1.as_str());
        push_str(&mut w, ")");
        let ghost ob = strs(out@);
        let ghost nb = strs(names@);
        out.push(w);
        names.push(untrusted[i].0.clone());
        proof {
            assert(strs(out@) =~= ob.push(strs(out@).last()));
            assert(strs(names@) =~= nb.push(uv[i as int].0));
            assert(uv.take(i + 1) =~= uv.take(i as int).push(uv[i as int]));
        }
        i += 1;
    }
    assert(uv.take(untrusted.len() as int) =~= uv);
    let mut fix = String::from_str("fix: vertz config add trust-scripts ");
    let j = crate::text::join_strings(&names, " ");
    push_str(&mut fix, j.as_str());
    let ghost ob = strs(out@);
    out.push(fix);
    assert(strs(out@) =~= ob.push(strs(out@).last()));
    out
}

} // verus!

verus! {

// ---------------------------------------------------------------------------
// publish
// ---------------------------------------------------------------------------

/// What may be published: the manifest's name and version, and an access
/// level that is `public` or `restricted` when one is given; else the first
/// thing that is wrong, in that order.
pub open spec fn publish_target_spec(
    name: Option<Seq<char>>,
    version: Option<Seq<char>>,
    access: Option<Seq<char>>,
) -> Result<(Seq<char>, Seq<char>), Seq<char>> {
    match name {
        None => Err("Cannot publish: package.json is missing required field 'name'"@),
        Some(n) => match version {
            None => Err("Cannot publish: package.json is missing required field 'version'"@),
            Some(v) => match access {
                Some(a) => if a == "public"@ || a == "restricted"@ {
                    Ok((n, v))
                } else {
                    Err("Invalid access value: \""@ + a + "\". Must be \"public\" or \"restricted\""@)
                },
                None => Ok((n, v)),
            },
        },
    }
}

/// The optional name or version of a manifest, as chars.
pub open spec fn ostr(o: Option<String>) -> Option<Seq<char>> {
    match o {
        Some(s) => Some(s@),
        None => None,
    }
}

/// A pair of strings as chars.
pub open spec fn pair_view(r: Result<(String, String), String>) -> Result<(Seq<char>, Seq<char>), Seq<char>> {
    match r {
        Ok((a, b)) => Ok((a@, b@)),
        Err(e) => Err(e@),
    }
}

/// The name and version `vertz publish` publishes, or why it refuses.
pub fn publish_target(pkg: &PackageJson, access: Option<&str>) -> (r: Result<(String, String), String>)
    ensures
        pair_view(r) == publish_target_spec(ostr(pkg.name), ostr(pkg.version), opt_view(access)),
{
    let name = match &pkg.name {
        Some(n) => owned(n.as_str()),
        None => {
            return Err(owned("Cannot publish: package.json is missing required field 'name'"));
        },
    };
    let version = match &pkg.version {
        Some(v) => owned(v.as_str()),
        None => {
            return Err(owned("Cannot publish: package.json is missing required field 'version'"));
        },
    };
    if let Some(a) = access {
        if !str_eq(a, "public") && !str_eq(a, "restricted") {
            let mut m = owned("Invalid access value: \"");
            push_str(&mut m, a);
            push_str(&mut m, "\". Must be \"public\" or \"restricted\"");
            return Err(m);
        }
    }
    Ok((name, version))
}

/// The access level a dry run reports: the one given, else `restricted`
/// for a scoped name and `public` for any other.
pub open spec fn dry_run_access_spec(name: Seq<char>, access: Option<Seq<char>>) -> Seq<char> {
    match access {
        Some(a) => a,
        None => if name.len() > 0 && name[0] == '@' {
            "restricted"@
        } else {
            "public"@
        },
    }
}

/// The access level a dry run of `vertz publish` reports.
pub fn dry_run_access(name: &str, access: Option<&str>) -> (r: String)
    ensures
        r@ == dry_run_access_spec(name@, opt_view(access)),
{
    match access {
        Some(a) => owned(a),
        None => {
            let v = str_chars(name);
            if v.len() > 0 && v[0] == '@' {
                owned("restricted")
            } else {
                owned("public")
            }
        },
    }
}

/// The URL an auth token is looked up for: the registry without trailing
/// slashes, then one `/` (so `host:port` matches `host:port/`).
pub fn auth_match_url(registry_url: &str) -> (r: String)
    ensures
        r@ == trim_end_slashes(registry_url@) + "/"@,
{
    let mut r = trim_end_slashes_exec(registry_url);
    push_str(&mut r, "/");
    r
}

/// The error when no auth token is configured for the registry.
pub fn auth_required_message(registry_url: &str) -> (r: String)
    ensures
        r@ == "Authentication required. Add an auth token to .npmrc for "@ + registry_url@,
{
    let mut r = owned("Authentication required. Add an auth token to .npmrc for ");
    push_str(&mut r, registry_url);
    r
}

} // verus!

verus! {

// ---------------------------------------------------------------------------
// run
// ---------------------------------------------------------------------------

/// An argument quoted for the shell that runs scripts: `cmd.exe` on
/// Windows, `sh` elsewhere.
pub open spec fn escaped_arg(a: Seq<char>, windows: bool) -> Seq<char> {
    if windows {
        windows_escaped(a)
    } else {
        unix_escaped(a)
    }
}

/// The command `vertz run` hands to the shell: the script, then the extra
/// arguments, each quoted, separated by spaces.
pub open spec fn full_command(script: Seq<char>, args: Seq<Seq<char>>, windows: bool) -> Seq<char> {
    if args.len() == 0 {
        script
    } else {
        script + " "@ + join(args.map_values(|a: Seq<char>| escaped_arg(a, windows)), " "@)
    }
}

/// The error when package.json has no script of the name.
pub open spec fn script_not_found(name: Seq<char>) -> Seq<char> {
    "error: script not found: \""@ + name + "\""@
}

/// The command for script `name` with extra arguments, quoted for the shell
/// of the given platform; or the error when there is no such script.
pub fn script_command_for(scripts: &StrMap<String>, name: &str, extra_args: &Vec<String>, windows: bool) -> (r: Result<String, String>)
    ensures
        match sview(*scripts, name@) {
            None => r matches Err(e) && e@ == script_not_found(name@),
            Some(s) => r matches Ok(c) && c@ == full_command(s, extra_args@.map_values(|a: String| a@), windows),
        },
{
    let script = match scripts.get(name) {
        Some(s) => s,
        None => {
            let mut m = owned("error: script not found: \"");
            push_str(&mut m, name);
            push_str(&mut m, "\"");
            return Err(m);
        },
    };
    if extra_args.len() == 0 {
        return Ok(owned(script.as_str()));
    }
    let ghost args = extra_args@.map_values(|a: String| a@);
    let mut escaped: Vec<String> = Vec::new();
    let mut i: usize = 0;
    while i < extra_args.len()
        invariant
            i <= extra_args@.len(),
            args == extra_args@.map_values(|a: String| a@),
            escaped@.map_values(|e: String| e@) == args.take(i as int).map_values(
                |a: Seq<char>| escaped_arg(a, windows),
            ),
        decreases extra_args.len() - i,
    {
        let e = if windows {
            shell_escape_windows(extra_args[i].as_str())
        } else {
            shell_escape_unix(extra_args[i].as_str())
        };
        let ghost before = escaped@;
        escaped.push(e);
        proof {
            assert(args.take(i + 1) =~= args.take(i as int).push(args[i as int]));
            assert(escaped@.map_values(|e: String| e@) =~= before.map_values(|e: String| e@).push(e@));
            assert(args.take(i + 1).map_values(|a: Seq<char>| escaped_arg(a, windows)) =~= args.take(
                i as int,
            ).map_values(|a: Seq<char>| escaped_arg(a, windows)).push(escaped_arg(args[i as int], windows)));
        }
        i += 1;
    }
    proof {
        assert(args.take(extra_args@.len() as int) =~= args);
    }
    let joined = join_strings(&escaped, " ");
    let mut c = owned(script.as_str());
    push_str(&mut c, " ");
    push_str(&mut c, joined.as_str());
    Ok(c)
}

/// The command for script `name` with extra arguments, quoted for the shell
/// of the platform the code runs on.
pub fn script_command(scripts: &StrMap<String>, name: &str, extra_args: &Vec<String>) -> (r: Result<String, String>)
    ensures
        match sview(*scripts, name@) {
            None => r matches Err(e) && e@ == script_not_found(name@),
            Some(s) => r matches Ok(c) && (c@ == full_command(s, extra_args@.map_values(|a: String| a@), true) || c@
                == full_command(s, extra_args@.map_values(|a: String| a@), false)),
        },
{
    let w = on_windows();
    script_command_for(scripts, name, extra_args, w)
}

/// The PATH a script runs with: the workspace's `node_modules/.bin` (when
/// running in a workspace package other than the root), the root's
/// `node_modules/.bin`, then the PATH inherited, if any.
pub open spec fn script_path_spec(root_bin: Seq<char>, ws_bin: Option<Seq<char>>, inherited: Option<Seq<char>>, sep: Seq<char>) -> Seq<char> {
    let front = match ws_bin {
        Some(w) => seq![w, root_bin],
        None => seq![root_bin],
    };
    let all = match inherited {
        Some(p) => front.push(p),
        None => front,
    };
    join(all, sep)
}

/// The PATH a script runs with.
pub fn script_path(root_bin: &str, ws_bin: Option<&str>, inherited: Option<&str>, sep: &str) -> (r: String)
    ensures
        r@ == script_path_spec(root_bin@, opt_view(ws_bin), opt_view(inherited), sep@),
{
    let mut parts: Vec<String> = Vec::new();
    match ws_bin {
        Some(w) => parts.push(owned(w)),
        None => {},
    }
    parts.push(owned(root_bin));
    match inherited {
        Some(p) => parts.push(owned(p)),
        None => {},
    }
    let r = join_strings(&parts, sep);
    proof {
        let front = match opt_view(ws_bin) {
            Some(w) => seq![w, root_bin@],
            None => seq![root_bin@],
        };
        let all = match opt_view(inherited) {
            Some(p) => front.push(p),
            None => front,
        };
        assert(parts@.map_values(|s: String| s@) =~= all);
    }
    r
}

} // verus!
