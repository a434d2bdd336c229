//! `vertz list`: the dependency tree from package.json and the lockfile.

use vstd::prelude::*;
use crate::json::{jbool, jfield, jnull, jobj, json_quote, JsonObj};
use crate::pm::config::str_vals;
use crate::pm::types::{spec_key_of, Lockfile, LockfileEntry, PackageJson};
use crate::smap::{StrMap, StrSet};
use crate::text::{dec, owned, push_char, push_repeat, push_str, repeat_char, str_eq};

verus! {

/// Options for the `list` command
pub struct ListOptions {
    pub all: bool,
    pub depth: Option<usize>,
    pub filter: Option<String>,
}

/// A single entry in the list output
#[derive(Debug, Clone, PartialEq, Eq)]
pub struct ListEntry {
    pub name: String,
    pub version: Option<String>,
    pub range: String,
    pub dev: bool,
    pub depth: usize,
    pub parent: Option<String>,
}

/// A list entry as plain values: (name, version, range, dev, depth, parent).
pub type ListEntryV = (Seq<char>, Option<Seq<char>>, Seq<char>, bool, nat, Option<Seq<char>>);

/// The view of an optional string.
pub open spec fn opt_view(o: Option<String>) -> Option<Seq<char>> {
    match o {
        Some(s) => Some(s@),
        None => None,
    }
}

/// The plain value of a list entry.
pub open spec fn list_entry_v(e: ListEntry) -> ListEntryV {
    (e.name@, opt_view(e.version), e.range@, e.dev, e.depth as nat, opt_view(e.parent))
}

/// The plain values of list entries.
pub open spec fn entries_v(es: Seq<ListEntry>) -> Seq<ListEntryV> {
    es.map_values(|e: ListEntry| list_entry_v(e))
}

/// The installed version of the lockfile entry under `key`, if any.
pub open spec fn version_of(lock: &Lockfile, key: Seq<char>) -> Option<Seq<char>> {
    match lock.entries.lookup(key) {
        Some(e) => Some(e.version@),
        None => None,
    }
}

/// Lockfile keys not yet visited.
pub open spec fn unvisited(lock: &Lockfile, visited: Set<Seq<char>>) -> nat {
    lock.entries.kseq().to_set().difference(visited).len()
}

/// The transitive entries below a package whose dependencies are
/// `ks`/`vs`, from the `i`-th dependency on, at `depth`, and the visited
/// set afterwards. Each dependency is listed; a dependency found in the
/// lockfile is expanded (depth first) when `depth < max` and its key was
/// not visited before. `fuel` bounds the nesting and is never exhausted
/// when it is at least the number of unvisited lockfile keys.
pub open spec fn tdeps(
    lock: &Lockfile,
    ks: Seq<Seq<char>>,
    vs: Seq<Seq<char>>,
    i: int,
    depth: nat,
    max: nat,
    dev: bool,
    parent: Seq<char>,
    visited: Set<Seq<char>>,
    fuel: nat,
) -> (Seq<ListEntryV>, Set<Seq<char>>)
    decreases fuel, ks.len() - i,
{
    if i < 0 || i >= ks.len() || depth > max {
        (seq![], visited)
    } else {
        let name = ks[i];
        let range = vs[i];
        let key = spec_key_of(name, range);
        let e: ListEntryV = (name, version_of(lock, key), range, dev, depth, Some(parent));
        let (sub, v2) = if depth < max && lock.entries.has(key) && !visited.contains(key) && fuel > 0 {
            let child = lock.entries.lookup(key).unwrap();
            tdeps(
                lock,
                child.dependencies.kseq(),
                str_vals(&child.dependencies),
                0,
                depth + 1,
                max,
                dev,
                name,
                visited.insert(key),
                (fuel - 1) as nat,
            )
        } else {
            (seq![], visited)
        };
        let (rest, v3) = tdeps(lock, ks, vs, i + 1, depth, max, dev, parent, v2, fuel);
        (seq![e] + sub + rest, v3)
    }
}

/// The entries of one dependency group (`ks`/`vs`) from the `i`-th root
/// on: each root passing the filter, then its transitive dependencies when
/// `max > 0`.
pub open spec fn group_entries(
    lock: &Lockfile,
    ks: Seq<Seq<char>>,
    vs: Seq<Seq<char>>,
    i: int,
    dev: bool,
    max: nat,
    filter: Option<Seq<char>>,
) -> Seq<ListEntryV>
    decreases ks.len() - i,
{
    if i < 0 || i >= ks.len() {
        seq![]
    } else {
        let rest = group_entries(lock, ks, vs, i + 1, dev, max, filter);
        if filter matches Some(f) && f != ks[i] {
            rest
        } else {
            let key = spec_key_of(ks[i], vs[i]);
            let direct: ListEntryV = (ks[i], version_of(lock, key), vs[i], dev, 0, None);
            let sub = if max > 0 && lock.entries.has(key) {
                let child = lock.entries.lookup(key).unwrap();
                tdeps(
                    lock,
                    child.dependencies.kseq(),
                    str_vals(&child.dependencies),
                    0,
                    1,
                    max,
                    dev,
                    ks[i],
                    set![key],
                    lock.entries.size(),
                ).0
            } else {
                seq![]
            };
            seq![direct] + sub + rest
        }
    }
}

/// The deepest level listed: 0 unless `all` or a depth is given; then the
/// given depth, or unlimited.
pub open spec fn max_depth_of(options: &ListOptions) -> nat {
    if options.all || options.depth.is_some() {
        match options.depth {
            Some(d) => d as nat,
            None => usize::MAX as nat,
        }
    } else {
        0
    }
}

/// The list: dependencies, then devDependencies, then optionalDependencies,
/// each in name order.
pub open spec fn list_spec(pkg: &PackageJson, lock: &Lockfile, options: &ListOptions) -> Seq<
    ListEntryV,
> {
    let max = max_depth_of(options);
    let f = opt_view(options.filter);
    group_entries(lock, pkg.dependencies.kseq(), str_vals(&pkg.dependencies), 0, false, max, f)
        + group_entries(
        lock,
        pkg.dev_dependencies.kseq(),
        str_vals(&pkg.dev_dependencies),
        0,
        true,
        max,
        f,
    ) + group_entries(
        lock,
        pkg.optional_dependencies.kseq(),
        str_vals(&pkg.optional_dependencies),
        0,
        false,
        max,
        f,
    )
}

proof fn lemma_unvisited_insert(lock: &Lockfile, visited: Set<Seq<char>>, key: Seq<char>)
    requires
        lock.entries.has(key),
        !visited.contains(key),
    ensures
        unvisited(lock, visited.insert(key)) + 1 == unvisited(lock, visited),
{
    let all = lock.entries.kseq().to_set();
    assert(all.contains(key));
    assert(all.difference(visited.insert(key)) =~= all.difference(visited).remove(key));
    assert(all.difference(visited).contains(key));
}

proof fn lemma_unvisited_mono(lock: &Lockfile, v1: Set<Seq<char>>, v2: Set<Seq<char>>)
    requires
        v1.subset_of(v2),
    ensures
        unvisited(lock, v2) <= unvisited(lock, v1),
{
    let all = lock.entries.kseq().to_set();
    vstd::set_lib::lemma_len_subset(all.difference(v2), all.difference(v1));
}

proof fn lemma_unvisited_bound(lock: &Lockfile, v: Set<Seq<char>>)
    ensures
        unvisited(lock, v) <= lock.entries.size(),
{
    let all = lock.entries.kseq().to_set();
    vstd::set_lib::lemma_len_subset(all.difference(v), all);
    lock.entries.kseq().lemma_cardinality_of_set();
}

fn clone_opt(o: &Option<String>) -> (r: Option<String>)
    ensures
        opt_view(r) == opt_view(*o),
{
    match o {
        Some(s) => Some(s.clone()),
        None => None,
    }
}

fn version_in(lock: &Lockfile, key: &str) -> (r: Option<String>)
    ensures
        opt_view(r) == version_of(lock, key@),
{
    match lock.entries.get(key) {
        Some(e) => Some(e.version.clone()),
        None => None,
    }
}

/// Recursively add transitive dependencies to the list
#[allow(clippy::too_many_arguments)]
fn add_transitive_deps(
    lockfile: &Lockfile,
    parent_entry: &LockfileEntry,
    entries: &mut Vec<ListEntry>,
    current_depth: usize,
    max_depth: usize,
    dev: bool,
    parent_name: &str,
    visited: &mut StrSet,
    Ghost(fuel): Ghost<nat>,
)
    requires
        fuel >= unvisited(lockfile, old(visited).set_view()),
    ensures
        entries_v(final(entries)@) == entries_v(old(entries)@) + tdeps(
            lockfile,
            parent_entry.dependencies.kseq(),
            str_vals(&parent_entry.dependencies),
            0,
            current_depth as nat,
            max_depth as nat,
            dev,
            parent_name@,
            old(visited).set_view(),
            fuel,
        ).0,
        final(visited).set_view() == tdeps(
            lockfile,
            parent_entry.dependencies.kseq(),
            str_vals(&parent_entry.dependencies),
            0,
            current_depth as nat,
            max_depth as nat,
            dev,
            parent_name@,
            old(visited).set_view(),
            fuel,
        ).1,
        old(visited).set_view().subset_of(final(visited).set_view()),
    decreases fuel,
{
    let ghost ks = parent_entry.dependencies.kseq();
    let ghost vs = str_vals(&parent_entry.dependencies);
    let ghost e0 = entries_v(entries@);
    let ghost v0 = visited.set_view();
    let ghost spec_all = tdeps(
        lockfile,
        ks,
        vs,
        0,
        current_depth as nat,
        max_depth as nat,
        dev,
        parent_name@,
        v0,
        fuel,
    );
    if current_depth > max_depth {
        return;
    }
    proof {
        parent_entry.dependencies.lemma_sizes();
    }
    let n = parent_entry.dependencies.len();
    let mut i: usize = 0;
    while i < n
        invariant
            i <= n,
            n == ks.len(),
            ks.len() == vs.len(),
            ks == parent_entry.dependencies.kseq(),
            vs == str_vals(&parent_entry.dependencies),
            current_depth <= max_depth,
            fuel >= unvisited(lockfile, visited.set_view()),
            v0.subset_of(visited.set_view()),
            spec_all == (
                entries_v(entries@).subrange(e0.len() as int, entries_v(entries@).len() as int)
                    + tdeps(
                    lockfile,
                    ks,
                    vs,
                    i as int,
                    current_depth as nat,
                    max_depth as nat,
                    dev,
                    parent_name@,
                    visited.set_view(),
                    fuel,
                ).0,
                tdeps(
                    lockfile,
                    ks,
                    vs,
                    i as int,
                    current_depth as nat,
                    max_depth as nat,
                    dev,
                    parent_name@,
                    visited.set_view(),
                    fuel,
                ).1,
            ),
            entries_v(entries@).subrange(0, e0.len() as int) == e0,
            e0.len() <= entries_v(entries@).len(),
        decreases n - i,
    {
        let dep_name = parent_entry.dependencies.key_at(i);
        let dep_range = parent_entry.dependencies.value_at(i);
        let key = Lockfile::spec_key(dep_name.as_str(), dep_range.as_str());
        let version = version_in(lockfile, key.as_str());
        let ghost vis_before = visited.set_view();
        let ghost ents_before = entries_v(entries@);
        let ghost e: ListEntryV = (
            ks[i as int],
            version_of(lockfile, key@),
            vs[i as int],
            dev,
            current_depth as nat,
            Some(parent_name@),
        );
        entries.push(
            ListEntry {
                name: dep_name.clone(),
                version,
                range: dep_range.clone(),
                dev,
                depth: current_depth,
                parent: Some(owned(parent_name)),
            },
        );
        proof {
            assert(entries_v(entries@) =~= ents_before.push(e));
        }
        let ghost ents_mid = entries_v(entries@);
        // Recurse if not at max depth and not already visited (cycle protection)
        if current_depth < max_depth {
            if let Some(entry) = lockfile.entries.get(key.as_str()) {
                let newly = visited.insert(key.clone());
                if newly {
                    proof {
                        lemma_unvisited_insert(lockfile, vis_before, key@);
                    }
                    add_transitive_deps(
                        lockfile,
                        entry,
                        entries,
                        current_depth + 1,
                        max_depth,
                        dev,
                        dep_name.as_str(),
                        visited,
                        Ghost((fuel - 1) as nat),
                    );
                }
            }
        }
        proof {
            let sub_pair = if current_depth < max_depth && lockfile.entries.has(key@)
                && !vis_before.contains(key@) && fuel > 0 {
                let child = lockfile.entries.lookup(key@).unwrap();
                tdeps(
                    lockfile,
                    child.dependencies.kseq(),
                    str_vals(&child.dependencies),
                    0,
                    (current_depth + 1) as nat,
                    max_depth as nat,
                    dev,
                    ks[i as int],
                    vis_before.insert(key@),
                    (fuel - 1) as nat,
                )
            } else {
                (seq![], vis_before)
            };
            if current_depth < max_depth && lockfile.entries.has(key@) && !vis_before.contains(key@) {
                lemma_unvisited_insert(lockfile, vis_before, key@);
            }
            assert(visited.set_view() == sub_pair.1);
            assert(entries_v(entries@) =~= ents_mid + sub_pair.0);
            lemma_unvisited_mono(lockfile, vis_before, visited.set_view());
            let whole = entries_v(entries@);
            assert(whole.subrange(0, e0.len() as int) =~= e0) by {
                assert(whole.subrange(0, e0.len() as int) =~= ents_before.subrange(0, e0.len() as int));
            }
            assert(whole.subrange(e0.len() as int, whole.len() as int) =~= ents_before.subrange(
                e0.len() as int,
                ents_before.len() as int,
            ) + seq![e] + sub_pair.0);
        }
        i += 1;
    }
    proof {
        let whole = entries_v(entries@);
        assert(whole =~= e0 + whole.subrange(e0.len() as int, whole.len() as int));
    }
}

fn group_into(
    lockfile: &Lockfile,
    group: &StrMap<String>,
    dev: bool,
    max_depth: usize,
    filter: &Option<String>,
    entries: &mut Vec<ListEntry>,
)
    ensures
        entries_v(final(entries)@) == entries_v(old(entries)@) + group_entries(
            lockfile,
            group.kseq(),
            str_vals(group),
            0,
            dev,
            max_depth as nat,
            opt_view(*filter),
        ),
{
    let ghost ks = group.kseq();
    let ghost vs = str_vals(group);
    let ghost e0 = entries_v(entries@);
    proof {
        group.lemma_sizes();
    }
    let n = group.len();
    let mut i: usize = 0;
    while i < n
        invariant
            i <= n,
            n == ks.len(),
            ks.len() == vs.len(),
            ks == group.kseq(),
            vs == str_vals(group),
            group_entries(lockfile, ks, vs, 0, dev, max_depth as nat, opt_view(*filter)) == entries_v(
                entries@,
            ).subrange(e0.len() as int, entries_v(entries@).len() as int) + group_entries(
                lockfile,
                ks,
                vs,
                i as int,
                dev,
                max_depth as nat,
                opt_view(*filter),
            ),
            entries_v(entries@).subrange(0, e0.len() as int) == e0,
            e0.len() <= entries_v(entries@).len(),
        decreases n - i,
    {
        let name = group.key_at(i);
        let range = group.value_at(i);
        let ghost ents_before = entries_v(entries@);
        let skip = match filter {
            Some(f) => !str_eq(name.as_str(), f.as_str()),
            None => false,
        };
        if !skip {
            let key = Lockfile::spec_key(name.as_str(), range.as_str());
            let version = version_in(lockfile, key.as_str());
            let ghost direct: ListEntryV = (ks[i as int], version_of(lockfile, key@), vs[i as int], dev, 0, None);
            entries.push(
                ListEntry {
                    name: name.clone(),
                    version,
                    range: range.clone(),
                    dev,
                    depth: 0,
                    parent: None,
                },
            );
            proof {
                assert(entries_v(entries@) =~= ents_before.push(direct));
            }
            let ghost ents_mid = entries_v(entries@);
            if max_depth > 0 {
                if let Some(entry) = lockfile.entries.get(key.as_str()) {
                    let mut visited = StrSet::new();
                    let ghost empty = visited.set_view();
                    visited.insert(key.clone());
                    proof {
                        assert(empty =~= Set::<Seq<char>>::empty());
                        assert(visited.set_view() =~= set![key@]);
                        lemma_unvisited_bound(lockfile, visited.set_view());
                    }
                    add_transitive_deps(
                        lockfile,
                        entry,
                        entries,
                        1,
                        max_depth,
                        dev,
                        name.as_str(),
                        &mut visited,
                        Ghost(lockfile.entries.size()),
                    );
                }
            }
            proof {
                let whole = entries_v(entries@);
                assert(whole.subrange(0, e0.len() as int) =~= e0) by {
                    assert(whole.subrange(0, e0.len() as int) =~= ents_before.subrange(0, e0.len() as int));
                }
                let sub = if max_depth > 0 && lockfile.entries.has(key@) {
                    let child = lockfile.entries.lookup(key@).unwrap();
                    tdeps(
                        lockfile,
                        child.dependencies.kseq(),
                        str_vals(&child.dependencies),
                        0,
                        1,
                        max_depth as nat,
                        dev,
                        ks[i as int],
                        set![key@],
                        lockfile.entries.size(),
                    ).0
                } else {
                    seq![]
                };
                assert(whole =~= ents_mid + sub);
                assert(whole.subrange(e0.len() as int, whole.len() as int) =~= ents_before.subrange(
                    e0.len() as int,
                    ents_before.len() as int,
                ) + seq![direct] + sub);
            }
        }
        i += 1;
    }
    proof {
        let whole = entries_v(entries@);
        assert(whole =~= e0 + whole.subrange(e0.len() as int, whole.len() as int));
    }
}

/// Build list entries from package.json and lockfile (pure logic, no I/O):
/// each direct dependency (filtered by name when a filter is given) with
/// its installed version, followed, when `all` or a depth is asked for, by
/// its transitive dependencies up to that depth, each expanded once per root.
pub fn build_list(pkg: &PackageJson, lockfile: &Lockfile, options: &ListOptions) -> (r: Vec<
    ListEntry,
>)
    ensures
        entries_v(r@) == list_spec(pkg, lockfile, options),
{
    let show_all = options.all || options.depth.is_some();
    let max_depth = if show_all {
        match options.depth {
            Some(d) => d,
            None => usize::MAX,
        }
    } else {
        0
    };
    let mut entries: Vec<ListEntry> = Vec::new();
    assert(entries_v(entries@) =~= Seq::<ListEntryV>::empty());
    group_into(lockfile, &pkg.dependencies, false, max_depth, &options.filter, &mut entries);
    group_into(lockfile, &pkg.dev_dependencies, true, max_depth, &options.filter, &mut entries);
    group_into(lockfile, &pkg.optional_dependencies, false, max_depth, &options.filter, &mut entries);
    proof {
        let g1 = group_entries(lockfile, pkg.dependencies.kseq(), str_vals(&pkg.dependencies), 0, false, max_depth as nat, opt_view(options.filter));
        assert(Seq::<ListEntryV>::empty() + g1 =~= g1);
    }
    entries
}

/// `"(not installed)"` for a missing version.
pub open spec fn version_text(v: Option<Seq<char>>) -> Seq<char> {
    match v {
        Some(s) => s,
        None => "(not installed)"@,
    }
}

/// One line of the text listing: indented two spaces per level.
pub open spec fn list_line(e: ListEntryV) -> Seq<char> {
    repeat_char(' ', 2 * (e.4 + 1)) + e.0 + "@"@ + version_text(e.1) + "\n"@
}

/// The lines of the entries whose `dev` flag is `dev`, in order.
pub open spec fn lines_where(es: Seq<ListEntryV>, dev: bool) -> Seq<char>
    decreases es.len(),
{
    if es.len() == 0 {
        seq![]
    } else {
        lines_where(es.drop_last(), dev) + (if es.last().3 == dev {
            list_line(es.last())
        } else {
            seq![]
        })
    }
}

/// Some entry is a top-level entry with this `dev` flag.
pub open spec fn has_top(es: Seq<ListEntryV>, dev: bool) -> bool {
    exists|i: int| 0 <= i < es.len() && es[i].3 == dev && es[i].4 == 0
}

/// The text listing: a `dependencies:` section (all non-dev entries) when
/// some top-level non-dev entry exists, then a `devDependencies:` section
/// likewise, separated by a blank line.
pub open spec fn list_text_spec(es: Seq<ListEntryV>) -> Seq<char> {
    if es.len() == 0 {
        seq![]
    } else {
        (if has_top(es, false) {
            "dependencies:\n"@ + lines_where(es, false)
        } else {
            seq![]
        }) + (if has_top(es, false) && has_top(es, true) {
            "\n"@
        } else {
            seq![]
        }) + (if has_top(es, true) {
            "devDependencies:\n"@ + lines_where(es, true)
        } else {
            seq![]
        })
    }
}

fn has_top_exec(entries: &[ListEntry], dev: bool) -> (b: bool)
    ensures
        b == has_top(entries_v(entries@), dev),
{
    let mut i: usize = 0;
    while i < entries.len()
        invariant
            i <= entries@.len(),
            forall|j: int| 0 <= j < i ==> !(entries_v(entries@)[j].3 == dev && entries_v(entries@)[j].4 == 0),
        decreases entries.len() - i,
    {
        assert(entries_v(entries@)[i as int] == list_entry_v(entries@[i as int]));
        if entries[i].dev == dev && entries[i].depth == 0 {
            return true;
        }
        i += 1;
    }
    false
}

fn push_lines_where(out: &mut String, entries: &[ListEntry], dev: bool)
    requires
        forall|j: int| 0 <= j < entries@.len() ==> entries@[j].depth < usize::MAX / 2,
    ensures
        final(out)@ == old(out)@ + lines_where(entries_v(entries@), dev),
{
    let ghost o0 = out@;
    let mut i: usize = 0;
    while i < entries.len()
        invariant
            i <= entries@.len(),
            forall|j: int| 0 <= j < entries@.len() ==> entries@[j].depth < usize::MAX / 2,
            out@ == o0 + lines_where(entries_v(entries@).take(i as int), dev),
        decreases entries.len() - i,
    {
        let e = &entries[i];
        let ghost ev = list_entry_v(*e);
        assert(entries_v(entries@)[i as int] == ev);
        assert(entries_v(entries@).take(i + 1).drop_last() =~= entries_v(entries@).take(i as int));
        if e.dev == dev {
            let ghost before = out@;
            push_repeat(out, ' ', 2 * (e.depth + 1));
            push_str(out, e.name.as_str());
            push_str(out, "@");
            match &e.version {
                Some(v) => push_str(out, v.as_str()),
                None => push_str(out, "(not installed)"),
            }
            push_str(out, "\n");
            assert(out@ =~= before + list_line(ev));
        }
        i += 1;
    }
    assert(entries_v(entries@).take(entries@.len() as int) =~= entries_v(entries@));
}

/// Format list entries as human-readable text
pub fn format_list_text(entries: &[ListEntry]) -> (r: String)
    requires
        forall|j: int| 0 <= j < entries@.len() ==> entries@[j].depth < usize::MAX / 2,
    ensures
        r@ == list_text_spec(entries_v(entries@)),
{
    if entries.len() == 0 {
        return String::new();
    }
    let mut output = String::new();
    let has_deps = has_top_exec(entries, false);
    let has_dev_deps = has_top_exec(entries, true);
    let ghost e = output@;
    if has_deps {
        push_str(&mut output, "dependencies:\n");
        push_lines_where(&mut output, entries, false);
    }
    let ghost a = output@;
    if has_deps && has_dev_deps {
        push_str(&mut output, "\n");
    }
    let ghost b = output@;
    if has_dev_deps {
        push_str(&mut output, "devDependencies:\n");
        push_lines_where(&mut output, entries, true);
    }
    assert(output@ =~= list_text_spec(entries_v(entries@)));
    output
}

/// The JSON fields of one list entry, in key order.
pub open spec fn list_json_fields(e: ListEntryV) -> Seq<Seq<char>> {
    seq![jfield("depth"@, dec(e.4)), jfield("dev"@, jbool(e.3))] + (if e.1 is None {
        seq![jfield("installed"@, jbool(false))]
    } else {
        seq![]
    }) + seq![jfield("name"@, json_quote(e.0))] + (match e.5 {
        Some(p) => seq![jfield("parent"@, json_quote(p))],
        None => seq![],
    }) + seq![
        jfield("range"@, json_quote(e.2)),
        jfield("type"@, json_quote("dependency"@)),
        jfield(
            "version"@,
            match e.1 {
                Some(v) => json_quote(v),
                None => jnull(),
            },
        ),
    ]
}

/// NDJSON: one object per entry.
pub open spec fn list_json_spec(es: Seq<ListEntryV>) -> Seq<char>
    decreases es.len(),
{
    if es.len() == 0 {
        seq![]
    } else {
        list_json_spec(es.drop_last()) + jobj(list_json_fields(es.last())) + "\n"@
    }
}

/// Format list entries as NDJSON lines
pub fn format_list_json(entries: &[ListEntry]) -> (r: String)
    ensures
        r@ == list_json_spec(entries_v(entries@)),
{
    let mut output = String::new();
    let mut i: usize = 0;
    while i < entries.len()
        invariant
            i <= entries@.len(),
            output@ == list_json_spec(entries_v(entries@).take(i as int)),
        decreases entries.len() - i,
    {
        let entry = &entries[i];
        let ghost ev = list_entry_v(*entry);
        assert(entries_v(entries@)[i as int] == ev);
        assert(entries_v(entries@).take(i + 1).drop_last() =~= entries_v(entries@).take(i as int));
        let mut o = JsonObj::new();
        o.num_field("depth", entry.depth as u64);
        o.bool_field("dev", entry.dev);
        if entry.version.is_none() {
            o.bool_field("installed", false);
        }
        o.str_field("name", entry.name.as_str());
        if let Some(p) = &entry.parent {
            o.str_field("parent", p.as_str());
        }
        o.str_field("range", entry.range.as_str());
        o.str_field("type", "dependency");
        match &entry.version {
            Some(v) => o.str_field("version", v.as_str()),
            None => o.null_field("version"),
        }
        let ghost fs = o.fields@;
        let line = o.finish();
        assert(fs =~= list_json_fields(ev));
        push_str(&mut output, line.as_str());
        push_str(&mut output, "\n");
        i += 1;
    }
    assert(entries_v(entries@).take(entries@.len() as int) =~= entries_v(entries@));
    output
}

} // verus!

verus! {

/// An entry sits at a depth the listing allows, and has a parent exactly
/// when it is below the top level.
pub open spec fn well_placed(e: ListEntryV, max: nat) -> bool {
    e.4 <= max && (e.4 > 0 <==> e.5 is Some)
}

proof fn lemma_tdeps_placed(
    lock: &Lockfile,
    ks: Seq<Seq<char>>,
    vs: Seq<Seq<char>>,
    i: int,
    depth: nat,
    max: nat,
    dev: bool,
    parent: Seq<char>,
    visited: Set<Seq<char>>,
    fuel: nat,
)
    requires
        depth >= 1,
    ensures
        forall|j: int|
            0 <= j < tdeps(lock, ks, vs, i, depth, max, dev, parent, visited, fuel).0.len() ==> well_placed(
                #[trigger] tdeps(lock, ks, vs, i, depth, max, dev, parent, visited, fuel).0[j],
                max,
            ) && tdeps(lock, ks, vs, i, depth, max, dev, parent, visited, fuel).0[j].4 >= 1,
    decreases fuel, ks.len() - i,
{
    if !(i < 0 || i >= ks.len() || depth > max) {
        let name = ks[i];
        let range = vs[i];
        let key = spec_key_of(name, range);
        let e: ListEntryV = (name, version_of(lock, key), range, dev, depth, Some(parent));
        let (sub, v2) = if depth < max && lock.entries.has(key) && !visited.contains(key) && fuel > 0 {
            let child = lock.entries.lookup(key).unwrap();
            lemma_tdeps_placed(
                lock,
                child.dependencies.kseq(),
                str_vals(&child.dependencies),
                0,
                depth + 1,
                max,
                dev,
                name,
                visited.insert(key),
                (fuel - 1) as nat,
            );
            tdeps(
                lock,
                child.dependencies.kseq(),
                str_vals(&child.dependencies),
                0,
                depth + 1,
                max,
                dev,
                name,
                visited.insert(key),
                (fuel - 1) as nat,
            )
        } else {
            (seq![], visited)
        };
        lemma_tdeps_placed(lock, ks, vs, i + 1, depth, max, dev, parent, v2, fuel);
        let (rest, v3) = tdeps(lock, ks, vs, i + 1, depth, max, dev, parent, v2, fuel);
        let all = seq![e] + sub + rest;
        assert(tdeps(lock, ks, vs, i, depth, max, dev, parent, visited, fuel).0 == all);
        assert forall|j: int| 0 <= j < all.len() implies well_placed(#[trigger] all[j], max) && all[j].4 >= 1 by {
            if j == 0 {
            } else if j < 1 + sub.len() {
                assert(all[j] == sub[j - 1]);
            } else {
                assert(all[j] == rest[j - 1 - sub.len()]);
            }
        }
    }
}

proof fn lemma_group_placed(
    lock: &Lockfile,
    ks: Seq<Seq<char>>,
    vs: Seq<Seq<char>>,
    i: int,
    dev: bool,
    max: nat,
    filter: Option<Seq<char>>,
)
    ensures
        forall|j: int|
            0 <= j < group_entries(lock, ks, vs, i, dev, max, filter).len() ==> well_placed(
                #[trigger] group_entries(lock, ks, vs, i, dev, max, filter)[j],
                max,
            ),
    decreases ks.len() - i,
{
    if !(i < 0 || i >= ks.len()) {
        lemma_group_placed(lock, ks, vs, i + 1, dev, max, filter);
        let rest = group_entries(lock, ks, vs, i + 1, dev, max, filter);
        if !(filter matches Some(f) && f != ks[i]) {
            let key = spec_key_of(ks[i], vs[i]);
            let direct: ListEntryV = (ks[i], version_of(lock, key), vs[i], dev, 0, None);
            let sub = if max > 0 && lock.entries.has(key) {
                let child = lock.entries.lookup(key).unwrap();
                lemma_tdeps_placed(
                    lock,
                    child.dependencies.kseq(),
                    str_vals(&child.dependencies),
                    0,
                    1,
                    max,
                    dev,
                    ks[i],
                    set![key],
                    lock.entries.size(),
                );
                tdeps(
                    lock,
                    child.dependencies.kseq(),
                    str_vals(&child.dependencies),
                    0,
                    1,
                    max,
                    dev,
                    ks[i],
                    set![key],
                    lock.entries.size(),
                ).0
            } else {
                seq![]
            };
            let all = seq![direct] + sub + rest;
            assert(group_entries(lock, ks, vs, i, dev, max, filter) == all);
            assert forall|j: int| 0 <= j < all.len() implies well_placed(#[trigger] all[j], max) by {
                if j == 0 {
                } else if j < 1 + sub.len() {
                    assert(all[j] == sub[j - 1]);
                } else {
                    assert(all[j] == rest[j - 1 - sub.len()]);
                }
            }
        }
    }
}

/// Every listed entry lies within the depth the options allow (0 unless
/// `--all` or a depth is given), and has a parent exactly when it is not a
/// direct dependency.
pub proof fn law_list_depths(pkg: &PackageJson, lock: &Lockfile, options: &ListOptions)
    ensures
        forall|j: int|
            0 <= j < list_spec(pkg, lock, options).len() ==> well_placed(
                #[trigger] list_spec(pkg, lock, options)[j],
                max_depth_of(options),
            ),
{
    let max = max_depth_of(options);
    let f = opt_view(options.filter);
    let a = group_entries(lock, pkg.dependencies.kseq(), str_vals(&pkg.dependencies), 0, false, max, f);
    let b = group_entries(lock, pkg.dev_dependencies.kseq(), str_vals(&pkg.dev_dependencies), 0, true, max, f);
    let c = group_entries(
        lock,
        pkg.optional_dependencies.kseq(),
        str_vals(&pkg.optional_dependencies),
        0,
        false,
        max,
        f,
    );
    lemma_group_placed(lock, pkg.dependencies.kseq(), str_vals(&pkg.dependencies), 0, false, max, f);
    lemma_group_placed(lock, pkg.dev_dependencies.kseq(), str_vals(&pkg.dev_dependencies), 0, true, max, f);
    lemma_group_placed(
        lock,
        pkg.optional_dependencies.kseq(),
        str_vals(&pkg.optional_dependencies),
        0,
        false,
        max,
        f,
    );
    let all = a + b + c;
    assert(list_spec(pkg, lock, options) == all);
    assert forall|j: int| 0 <= j < all.len() implies well_placed(#[trigger] all[j], max) by {
        if j < a.len() {
            assert(all[j] == a[j]);
        } else if j < a.len() + b.len() {
            assert(all[j] == b[j - a.len()]);
        } else {
            assert(all[j] == c[j - a.len() - b.len()]);
        }
    }
}

} // verus!

verus! {

/// The entry is a direct dependency (depth 0).
pub open spec fn is_top(e: ListEntryV) -> bool {
    e.4 == 0
}

/// The direct entries of one dependency group from the `i`-th root on: each
/// root passing the filter, with its locked version, in order.
pub open spec fn top_entries(
    lock: &Lockfile,
    ks: Seq<Seq<char>>,
    vs: Seq<Seq<char>>,
    i: int,
    dev: bool,
    filter: Option<Seq<char>>,
) -> Seq<ListEntryV>
    decreases ks.len() - i,
{
    if i < 0 || i >= ks.len() {
        seq![]
    } else {
        let rest = top_entries(lock, ks, vs, i + 1, dev, filter);
        if filter matches Some(f) && f != ks[i] {
            rest
        } else {
            seq![(ks[i], version_of(lock, spec_key_of(ks[i], vs[i])), vs[i], dev, 0nat, None)] + rest
        }
    }
}

proof fn lemma_filter_none(s: Seq<ListEntryV>, pred: spec_fn(ListEntryV) -> bool)
    requires
        forall|j: int| 0 <= j < s.len() ==> !pred(#[trigger] s[j]),
    ensures
        s.filter(pred) == Seq::<ListEntryV>::empty(),
    decreases s.len(),
{
    reveal(Seq::filter);
    if s.len() > 0 {
        lemma_filter_none(s.drop_last(), pred);
        assert(!pred(s[s.len() - 1]));
    }
}

proof fn lemma_group_tops(
    lock: &Lockfile,
    ks: Seq<Seq<char>>,
    vs: Seq<Seq<char>>,
    i: int,
    dev: bool,
    max: nat,
    filter: Option<Seq<char>>,
)
    ensures
        group_entries(lock, ks, vs, i, dev, max, filter).filter(|e: ListEntryV| is_top(e)) == top_entries(
            lock,
            ks,
            vs,
            i,
            dev,
            filter,
        ),
    decreases ks.len() - i,
{
    let pred = |e: ListEntryV| is_top(e);
    if i < 0 || i >= ks.len() {
        reveal(Seq::filter);
    } else {
        lemma_group_tops(lock, ks, vs, i + 1, dev, max, filter);
        let rest = group_entries(lock, ks, vs, i + 1, dev, max, filter);
        if !(filter matches Some(f) && f != ks[i]) {
            let key = spec_key_of(ks[i], vs[i]);
            let direct: ListEntryV = (ks[i], version_of(lock, key), vs[i], dev, 0, None);
            let sub = if max > 0 && lock.entries.has(key) {
                let child = lock.entries.lookup(key).unwrap();
                lemma_tdeps_placed(
                    lock,
                    child.dependencies.kseq(),
                    str_vals(&child.dependencies),
                    0,
                    1,
                    max,
                    dev,
                    ks[i],
                    set![key],
                    lock.entries.size(),
                );
                tdeps(
                    lock,
                    child.dependencies.kseq(),
                    str_vals(&child.dependencies),
                    0,
                    1,
                    max,
                    dev,
                    ks[i],
                    set![key],
                    lock.entries.size(),
                ).0
            } else {
                seq![]
            };
            assert forall|j: int| 0 <= j < sub.len() implies !pred(#[trigger] sub[j]) by {
                assert(well_placed(sub[j], max));
            }
            lemma_filter_none(sub, pred);
            Seq::filter_distributes_over_add(seq![direct], sub, pred);
            Seq::filter_distributes_over_add(seq![direct] + sub, rest, pred);
            Seq::<ListEntryV>::empty().lemma_filter_push(direct, pred);
            assert(seq![direct] =~= Seq::<ListEntryV>::empty().push(direct));
            reveal(Seq::filter);
            assert(Seq::<ListEntryV>::empty().filter(pred) =~= Seq::<ListEntryV>::empty());
            assert(seq![direct].filter(pred) =~= seq![direct]);
            assert(group_entries(lock, ks, vs, i, dev, max, filter) == seq![direct] + sub + rest);
            assert(seq![direct] + Seq::<ListEntryV>::empty() =~= seq![direct]);
        }
    }
}

/// The direct dependencies are listed in order: dependencies, then
/// devDependencies, then optionalDependencies, each in name order, each
/// entry passing the filter, with its locked version (none when not
/// locked), marked dev exactly when it comes from devDependencies, and
/// without a parent.
pub proof fn law_list_tops(pkg: &PackageJson, lock: &Lockfile, options: &ListOptions)
    ensures
        list_spec(pkg, lock, options).filter(|e: ListEntryV| is_top(e)) == top_entries(
            lock,
            pkg.dependencies.kseq(),
            str_vals(&pkg.dependencies),
            0,
            false,
            opt_view(options.filter),
        ) + top_entries(lock, pkg.dev_dependencies.kseq(), str_vals(&pkg.dev_dependencies), 0, true, opt_view(options.filter))
            + top_entries(
            lock,
            pkg.optional_dependencies.kseq(),
            str_vals(&pkg.optional_dependencies),
            0,
            false,
            opt_view(options.filter),
        ),
{
    let pred = |e: ListEntryV| is_top(e);
    let max = max_depth_of(options);
    let f = opt_view(options.filter);
    let a = group_entries(lock, pkg.dependencies.kseq(), str_vals(&pkg.dependencies), 0, false, max, f);
    let b = group_entries(lock, pkg.dev_dependencies.kseq(), str_vals(&pkg.dev_dependencies), 0, true, max, f);
    let c = group_entries(
        lock,
        pkg.optional_dependencies.kseq(),
        str_vals(&pkg.optional_dependencies),
        0,
        false,
        max,
        f,
    );
    lemma_group_tops(lock, pkg.dependencies.kseq(), str_vals(&pkg.dependencies), 0, false, max, f);
    lemma_group_tops(lock, pkg.dev_dependencies.kseq(), str_vals(&pkg.dev_dependencies), 0, true, max, f);
    lemma_group_tops(
        lock,
        pkg.optional_dependencies.kseq(),
        str_vals(&pkg.optional_dependencies),
        0,
        false,
        max,
        f,
    );
    Seq::filter_distributes_over_add(a, b, pred);
    Seq::filter_distributes_over_add(a + b, c, pred);
}

} // verus!
