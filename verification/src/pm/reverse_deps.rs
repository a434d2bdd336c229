//! Which direct dependency pulls in each transitive package.
//!
//! The dependency graph is read from the lockfile: a package name depends on
//! every name in the `dependencies` of an entry of that name. A transitive
//! package is attributed to the first direct dependency (in the set's order)
//! from which it is reached through packages that are not direct
//! dependencies themselves.

use vstd::prelude::*;
use vstd::set_lib::lemma_len_subset;
use crate::pm::types::Lockfile;
use crate::smap::{sorted_keys, StrMap, StrSet};
use crate::text::{lemma_lex_irreflexive, str_eq};

verus! {

/// `a` depends on `b`: some entry named `a` lists `b` among its dependencies.
pub open spec fn dep_edge(lock: Lockfile, a: Seq<char>, b: Seq<char>) -> bool {
    exists|i: int|
        0 <= i < lock.entries.size() && (#[trigger] lock.entries.vseq()[i]).name@ == a
            && lock.entries.vseq()[i].dependencies.has(b)
}

/// A chain of dependencies `p[0] -> p[1] -> ...` whose steps after the first
/// name avoid the direct dependencies.
pub open spec fn dep_path(lock: Lockfile, direct: Set<Seq<char>>, p: Seq<Seq<char>>) -> bool {
    &&& p.len() >= 2
    &&& forall|i: int| 0 <= i < p.len() - 1 ==> #[trigger] dep_edge(lock, p[i], p[i + 1])
    &&& forall|i: int| 1 <= i < p.len() ==> !direct.contains(#[trigger] p[i])
}

/// `x` is reached from `d` through packages that are not direct dependencies.
pub open spec fn reaches(lock: Lockfile, direct: Set<Seq<char>>, d: Seq<char>, x: Seq<char>) -> bool {
    exists|p: Seq<Seq<char>>| #[trigger] dep_path(lock, direct, p) && p[0] == d && p.last() == x
}

/// `ds[j]` is the first of `ds` from which `x` is reached.
pub open spec fn first_reacher(lock: Lockfile, direct: Set<Seq<char>>, ds: Seq<Seq<char>>, x: Seq<char>, j: int) -> bool {
    &&& 0 <= j < ds.len()
    &&& reaches(lock, direct, ds[j], x)
    &&& forall|i: int| 0 <= i < j ==> !#[trigger] reaches(lock, direct, ds[i], x)
}

/// The value under `x`, as chars.
pub open spec fn value_view(m: StrMap<String>, x: Seq<char>) -> Option<Seq<char>> {
    match m.lookup(x) {
        Some(v) => Some(v@),
        None => None,
    }
}

/// The names that the first `n` entries depend on.
pub open spec fn deps_upto(lock: Lockfile, n: int) -> Set<Seq<char>>
    decreases n,
{
    if n <= 0 {
        Set::empty()
    } else {
        deps_upto(lock, n - 1).union(lock.entries.vseq()[n - 1].dependencies.kseq().to_set())
    }
}

proof fn lemma_deps_upto(lock: Lockfile, n: int)
    requires
        0 <= n <= lock.entries.size(),
    ensures
        deps_upto(lock, n).finite(),
        forall|z: Seq<char>|
            deps_upto(lock, n).contains(z) <==> exists|i: int|
                0 <= i < n && (#[trigger] lock.entries.vseq()[i]).dependencies.has(z),
    decreases n,
{
    lock.entries.lemma_sizes();
    if n > 0 {
        lemma_deps_upto(lock, n - 1);
        let e = lock.entries.vseq()[n - 1];
        vstd::seq_lib::seq_to_set_is_finite(e.dependencies.kseq());
        assert forall|z: Seq<char>|
            deps_upto(lock, n).contains(z) <==> exists|i: int|
                0 <= i < n && (#[trigger] lock.entries.vseq()[i]).dependencies.has(z) by {
            if deps_upto(lock, n).contains(z) {
                if !deps_upto(lock, n - 1).contains(z) {
                    assert(e.dependencies.kseq().to_set().contains(z));
                    assert(lock.entries.vseq()[n - 1].dependencies.has(z));
                }
            }
            if exists|i: int| 0 <= i < n && (#[trigger] lock.entries.vseq()[i]).dependencies.has(z) {
                let i = choose|i: int| 0 <= i < n && (#[trigger] lock.entries.vseq()[i]).dependencies.has(z);
                if i == n - 1 {
                    assert(e.dependencies.kseq().to_set().contains(z));
                }
            }
        }
    }
}

/// Every name something depends on.
pub open spec fn dep_universe(lock: Lockfile) -> Set<Seq<char>> {
    deps_upto(lock, lock.entries.size() as int)
}

proof fn lemma_edge_in_universe(lock: Lockfile, a: Seq<char>, b: Seq<char>)
    requires
        dep_edge(lock, a, b),
    ensures
        dep_universe(lock).contains(b),
        dep_universe(lock).finite(),
{
    lemma_deps_upto(lock, lock.entries.size() as int);
    let i = choose|i: int|
        0 <= i < lock.entries.size() && (#[trigger] lock.entries.vseq()[i]).name@ == a
            && lock.entries.vseq()[i].dependencies.has(b);
    assert(lock.entries.vseq()[i].dependencies.has(b));
}

proof fn lemma_reaches_in_universe(lock: Lockfile, direct: Set<Seq<char>>, d: Seq<char>, x: Seq<char>)
    requires
        reaches(lock, direct, d, x),
    ensures
        dep_universe(lock).contains(x),
{
    let p = choose|p: Seq<Seq<char>>| #[trigger] dep_path(lock, direct, p) && p[0] == d && p.last() == x;
    assert(dep_edge(lock, p[p.len() - 2], p[p.len() - 2 + 1]));
    lemma_edge_in_universe(lock, p[p.len() - 2], p.last());
}

/// A dependency of `d` that is no direct dependency is reached from `d`.
proof fn lemma_reaches_edge(lock: Lockfile, direct: Set<Seq<char>>, d: Seq<char>, z: Seq<char>)
    requires
        dep_edge(lock, d, z),
        !direct.contains(z),
    ensures
        reaches(lock, direct, d, z),
{
    let p = seq![d, z];
    assert forall|i: int| 0 <= i < p.len() - 1 implies #[trigger] dep_edge(lock, p[i], p[i + 1]) by {
        assert(i == 0);
    }
    assert(dep_path(lock, direct, p));
}

/// What is reached from `d` extends by a dependency that is no direct one.
proof fn lemma_reaches_step(lock: Lockfile, direct: Set<Seq<char>>, d: Seq<char>, y: Seq<char>, z: Seq<char>)
    requires
        reaches(lock, direct, d, y),
        dep_edge(lock, y, z),
        !direct.contains(z),
    ensures
        reaches(lock, direct, d, z),
{
    let p = choose|p: Seq<Seq<char>>| #[trigger] dep_path(lock, direct, p) && p[0] == d && p.last() == y;
    let q = p.push(z);
    assert forall|i: int| 0 <= i < q.len() - 1 implies #[trigger] dep_edge(lock, q[i], q[i + 1]) by {
        if i < p.len() - 1 {
            assert(q[i] == p[i] && q[i + 1] == p[i + 1]);
            assert(dep_edge(lock, p[i], p[i + 1]));
        } else {
            assert(q[i] == y && q[i + 1] == z);
        }
    }
    assert forall|i: int| 1 <= i < q.len() implies !direct.contains(#[trigger] q[i]) by {
        if i < p.len() {
            assert(q[i] == p[i]);
        }
    }
    assert(dep_path(lock, direct, q));
}

/// A set of names that holds the dependencies of `d` and is closed under
/// dependencies (direct ones aside) holds all that `d` reaches.
proof fn lemma_closed_holds_reach(
    lock: Lockfile,
    direct: Set<Seq<char>>,
    m: StrMap<String>,
    d: Seq<char>,
    x: Seq<char>,
)
    requires
        reaches(lock, direct, d, x),
        forall|z: Seq<char>| dep_edge(lock, d, z) && !direct.contains(z) ==> m.has(z),
        forall|y: Seq<char>, z: Seq<char>|
            m.has(y) && #[trigger] dep_edge(lock, y, z) && !direct.contains(z) ==> m.has(z),
    ensures
        m.has(x),
{
    let p = choose|p: Seq<Seq<char>>| #[trigger] dep_path(lock, direct, p) && p[0] == d && p.last() == x;
    lemma_path_held(lock, direct, m, p, p.len() - 1);
}

proof fn lemma_path_held(lock: Lockfile, direct: Set<Seq<char>>, m: StrMap<String>, p: Seq<Seq<char>>, i: int)
    requires
        dep_path(lock, direct, p),
        1 <= i < p.len(),
        forall|z: Seq<char>| dep_edge(lock, p[0], z) && !direct.contains(z) ==> m.has(z),
        forall|y: Seq<char>, z: Seq<char>|
            m.has(y) && #[trigger] dep_edge(lock, y, z) && !direct.contains(z) ==> m.has(z),
    ensures
        m.has(p[i]),
    decreases i,
{
    assert(dep_edge(lock, p[i - 1], p[i - 1 + 1]));
    assert(!direct.contains(p[i]));
    if i > 1 {
        lemma_path_held(lock, direct, m, p, i - 1);
    }
}

/// A map with its keys in a finite set has at most as many keys as the set.
proof fn lemma_size_bound(m: StrMap<String>, u: Set<Seq<char>>)
    requires
        sorted_keys(m.kseq()),
        u.finite(),
        forall|x: Seq<char>| m.has(x) ==> u.contains(x),
    ensures
        m.size() <= u.len(),
{
    lemma_sorted_no_dups(m.kseq());
    m.kseq().unique_seq_to_set();
    assert(m.kseq().to_set().subset_of(u));
    lemma_len_subset(m.kseq().to_set(), u);
}

proof fn lemma_sorted_no_dups(ks: Seq<Seq<char>>)
    requires
        sorted_keys(ks),
    ensures
        ks.no_duplicates(),
{
    assert forall|i: int, j: int| 0 <= i < ks.len() && 0 <= j < ks.len() && i != j implies ks[i]
        != ks[j] by {
        if i < j {
            assert(crate::text::lex_lt(ks[i], ks[j]));
            lemma_lex_irreflexive(ks[i]);
        } else {
            assert(crate::text::lex_lt(ks[j], ks[i]));
            lemma_lex_irreflexive(ks[j]);
        }
    }
}

/// Inserting a new key adds one to the size.
proof fn lemma_insert_size(old_m: StrMap<String>, new_m: StrMap<String>, k: Seq<char>)
    requires
        sorted_keys(old_m.kseq()),
        sorted_keys(new_m.kseq()),
        !old_m.has(k),
        new_m.has(k),
        forall|x: Seq<char>| x != k ==> new_m.has(x) == old_m.has(x),
    ensures
        new_m.size() == old_m.size() + 1,
{
    lemma_sorted_no_dups(old_m.kseq());
    lemma_sorted_no_dups(new_m.kseq());
    old_m.kseq().unique_seq_to_set();
    new_m.kseq().unique_seq_to_set();
    assert forall|x: Seq<char>| new_m.kseq().to_set().contains(x) == old_m.kseq().to_set().insert(k).contains(x) by {
        assert(new_m.kseq().to_set().contains(x) == new_m.has(x));
        assert(old_m.kseq().to_set().contains(x) == old_m.has(x));
    }
    assert(new_m.kseq().to_set() =~= old_m.kseq().to_set().insert(k));
    vstd::seq_lib::seq_to_set_is_finite(old_m.kseq());
}

pub open spec fn qview(q: Seq<String>) -> Seq<Seq<char>> {
    q.map_values(|s: String| s@)
}

/// Appends to the queue each dependency of `name` that is neither a direct
/// dependency nor attributed yet.
fn enqueue_dependencies(
    lockfile: &Lockfile,
    direct_deps: &StrSet,
    reverse: &StrMap<String>,
    name: &str,
    queue: &mut Vec<String>,
)
    ensures
        qview(final(queue)@).len() >= qview(old(queue)@).len(),
        qview(final(queue)@).subrange(0, old(queue)@.len() as int) == qview(old(queue)@),
        forall|i: int|
            old(queue)@.len() <= i < final(queue)@.len() ==> dep_edge(*lockfile, name@, #[trigger] qview(final(queue)@)[i])
                && !direct_deps.set_view().contains(qview(final(queue)@)[i]) && !reverse.has(
                qview(final(queue)@)[i],
            ),
        forall|z: Seq<char>|
            dep_edge(*lockfile, name@, z) && !direct_deps.set_view().contains(z) && !reverse.has(z)
                ==> qview(final(queue)@).subrange(old(queue)@.len() as int, final(queue)@.len() as int).contains(z),
{
    let ghost q0 = qview(queue@);
    let ghost n0 = queue@.len() as int;
    let ghost lock = *lockfile;
    let entries = &lockfile.entries;
    let mut i: usize = 0;
    proof {
        entries.lemma_sizes();
    }
    while i < entries.len()
        invariant
            i <= entries.size(),
            entries == &lockfile.entries,
            lock == *lockfile,
            n0 == old(queue)@.len(),
            q0 == qview(old(queue)@),
            qview(queue@).len() >= n0,
            qview(queue@).subrange(0, n0) == q0,
            forall|k: int|
                n0 <= k < queue@.len() ==> dep_edge(lock, name@, #[trigger] qview(queue@)[k])
                    && !direct_deps.set_view().contains(qview(queue@)[k]) && !reverse.has(qview(queue@)[k]),
            forall|z: Seq<char>|
                (exists|e: int|
                    0 <= e < i && (#[trigger] lock.entries.vseq()[e]).name@ == name@
                        && lock.entries.vseq()[e].dependencies.has(z)) && !direct_deps.set_view().contains(z)
                    && !reverse.has(z) ==> qview(queue@).subrange(n0, queue@.len() as int).contains(z),
        decreases entries.size() - i,
    {
        let entry = entries.value_at(i);
        proof {
            entries.lemma_sizes();
        }
        if str_eq(entry.name.as_str(), name) {
            let deps = &entry.dependencies;
            let mut j: usize = 0;
            while j < deps.len()
                invariant
                    i < entries.size(),
                    j <= deps.size(),
                    entries == &lockfile.entries,
                    lock == *lockfile,
                    *entry == lock.entries.vseq()[i as int],
                    entry.name@ == name@,
                    deps == &entry.dependencies,
                    n0 == old(queue)@.len(),
                    q0 == qview(old(queue)@),
                    qview(queue@).len() >= n0,
                    qview(queue@).subrange(0, n0) == q0,
                    forall|k: int|
                        n0 <= k < queue@.len() ==> dep_edge(lock, name@, #[trigger] qview(queue@)[k])
                            && !direct_deps.set_view().contains(qview(queue@)[k]) && !reverse.has(
                            qview(queue@)[k],
                        ),
                    forall|z: Seq<char>|
                        (exists|e: int|
                            0 <= e < i && (#[trigger] lock.entries.vseq()[e]).name@ == name@
                                && lock.entries.vseq()[e].dependencies.has(z))
                            && !direct_deps.set_view().contains(z) && !reverse.has(z)
                            ==> qview(queue@).subrange(n0, queue@.len() as int).contains(z),
                    forall|z: Seq<char>|
                        deps.kseq().take(j as int).contains(z) && !direct_deps.set_view().contains(z)
                            && !reverse.has(z) ==> qview(queue@).subrange(n0, queue@.len() as int).contains(z),
                decreases deps.size() - j,
            {
                let dep = deps.key_at(j);
                proof {
                    deps.lemma_sizes();
                    assert(deps.kseq()[j as int] == dep@);
                    assert(deps.has(dep@));
                    assert(dep_edge(lock, name@, dep@)) by {
                        assert(lock.entries.vseq()[i as int].name@ == name@);
                    }
                    assert(deps.kseq().take(j + 1) =~= deps.kseq().take(j as int).push(dep@));
                }
                if !direct_deps.contains(dep.as_str()) && !reverse.contains_key(dep.as_str()) {
                    let ghost before = qview(queue@);
                    queue.push(dep.clone());
                    proof {
                        assert(qview(queue@) =~= before.push(dep@));
                        assert(qview(queue@).subrange(0, n0) =~= before.subrange(0, n0));
                        assert(qview(queue@).subrange(n0, queue@.len() as int) =~= before.subrange(
                            n0,
                            before.len() as int,
                        ).push(dep@));
                        assert forall|z: Seq<char>|
                            before.subrange(n0, before.len() as int).contains(z) implies qview(
                            queue@,
                        ).subrange(n0, queue@.len() as int).contains(z) by {
                            let w = choose|w: int|
                                0 <= w < before.subrange(n0, before.len() as int).len()
                                    && before.subrange(n0, before.len() as int)[w] == z;
                            assert(qview(queue@).subrange(n0, queue@.len() as int)[w] == z);
                        }
                        assert(qview(queue@).subrange(n0, queue@.len() as int)[queue@.len() - 1 - n0]
                            == dep@);
                    }
                }
                j += 1;
            }
            proof {
                assert(deps.kseq().take(deps.size() as int) =~= deps.kseq());
            }
        }
        i += 1;
    }
}

/// For each package reached from a direct dependency through packages that
/// are not direct dependencies, the direct dependency it is attributed to:
/// the first, in the set's order, that reaches it.
pub fn build_reverse_dep_map(lockfile: &Lockfile, direct_deps: &StrSet) -> (r: StrMap<String>)
    ensures
        forall|x: Seq<char>|
            r.has(x) <==> exists|k: int|
                0 <= k < direct_deps.elems().len() && #[trigger] reaches(
                    *lockfile,
                    direct_deps.set_view(),
                    direct_deps.elems()[k],
                    x,
                ),
        forall|x: Seq<char>, k: int|
            #[trigger] first_reacher(*lockfile, direct_deps.set_view(), direct_deps.elems(), x, k)
                ==> value_view(r, x) == Some(direct_deps.elems()[k]),
{
    let ghost lock = *lockfile;
    let ghost dset = direct_deps.set_view();
    let ghost ds = direct_deps.elems();
    let ghost u = dep_universe(lock);
    proof {
        lemma_deps_upto(lock, lock.entries.size() as int);
    }
    let mut reverse: StrMap<String> = StrMap::new();
    let mut k: usize = 0;
    while k < direct_deps.len()
        invariant
            k <= ds.len(),
            lock == *lockfile,
            dset == direct_deps.set_view(),
            ds == direct_deps.elems(),
            u == dep_universe(lock),
            u.finite(),
            forall|j: int, x: Seq<char>| 0 <= j < k && #[trigger] reaches(lock, dset, ds[j], x) ==> reverse.has(x),
            forall|y: Seq<char>, z: Seq<char>|
                reverse.has(y) && #[trigger] dep_edge(lock, y, z) && !dset.contains(z) ==> reverse.has(z),
            forall|x: Seq<char>|
                #[trigger] reverse.has(x) ==> exists|j: int|
                    0 <= j < k && #[trigger] first_reacher(lock, dset, ds, x, j) && value_view(reverse, x)
                        == Some(ds[j]),
            forall|x: Seq<char>| reverse.has(x) ==> u.contains(x),
        decreases ds.len() - k,
    {
        let d = direct_deps.at(k);
        let mut queue: Vec<String> = Vec::new();
        enqueue_dependencies(lockfile, direct_deps, &reverse, d.as_str(), &mut queue);
        let mut head: usize = 0;
        proof {
            assert forall|q: Seq<char>| qview(queue@).subrange(head as int, queue@.len() as int).contains(q)
                implies reaches(lock, dset, d@, q) by {
                let w = choose|w: int|
                    0 <= w < qview(queue@).subrange(head as int, queue@.len() as int).len()
                        && qview(queue@).subrange(head as int, queue@.len() as int)[w] == q;
                assert(qview(queue@)[w] == q);
                lemma_reaches_edge(lock, dset, d@, q);
            }
        }
        while head < queue.len()
            invariant
                k < ds.len(),
                d@ == ds[k as int],
                head <= queue@.len(),
                lock == *lockfile,
                dset == direct_deps.set_view(),
                ds == direct_deps.elems(),
                u == dep_universe(lock),
                u.finite(),
                forall|j: int, x: Seq<char>| 0 <= j < k && #[trigger] reaches(lock, dset, ds[j], x) ==> reverse.has(x),
                forall|y: Seq<char>, z: Seq<char>|
                    reverse.has(y) && #[trigger] dep_edge(lock, y, z) && !dset.contains(z) ==> reverse.has(z)
                        || qview(queue@).subrange(head as int, queue@.len() as int).contains(z),
                forall|z: Seq<char>|
                    #[trigger] dep_edge(lock, d@, z) && !dset.contains(z) ==> reverse.has(z) || qview(
                        queue@,
                    ).subrange(head as int, queue@.len() as int).contains(z),
                forall|q: Seq<char>|
                    #[trigger] qview(queue@).subrange(head as int, queue@.len() as int).contains(q) ==> reaches(
                        lock,
                        dset,
                        d@,
                        q,
                    ),
                forall|x: Seq<char>|
                    #[trigger] reverse.has(x) ==> exists|j: int|
                        0 <= j <= k && #[trigger] first_reacher(lock, dset, ds, x, j) && value_view(
                            reverse,
                            x,
                        ) == Some(ds[j]),
                forall|x: Seq<char>| reverse.has(x) ==> u.contains(x),
            decreases u.len() - reverse.size(), queue@.len() - head,
        {
            reverse.keys_sorted();
            proof {
                lemma_size_bound(reverse, u);
            }
            let name = queue[head].clone();
            let ghost qold = qview(queue@).subrange(head as int, queue@.len() as int);
            head += 1;
            proof {
                assert(qold[0] == name@);
                assert(qold.contains(name@));
                assert forall|z: Seq<char>| qold.contains(z) && z != name@ implies qview(queue@).subrange(
                    head as int,
                    queue@.len() as int,
                ).contains(z) by {
                    let w = choose|w: int| 0 <= w < qold.len() && qold[w] == z;
                    assert(w != 0);
                    assert(qview(queue@).subrange(head as int, queue@.len() as int)[w - 1] == z);
                }
                assert forall|q: Seq<char>| #[trigger] qview(queue@).subrange(head as int, queue@.len() as int).contains(q)
                    implies reaches(lock, dset, d@, q) by {
                    let nq = qview(queue@).subrange(head as int, queue@.len() as int);
                    let w = choose|w: int| 0 <= w < nq.len() && nq[w] == q;
                    assert(qold[w + 1] == q);
                    assert(qold.contains(q));
                }
            }
            if reverse.contains_key(name.as_str()) {
                // already attributed
            } else {
                let ghost before = reverse;
                proof {
                    lemma_reaches_in_universe(lock, dset, d@, name@);
                    assert forall|i: int| 0 <= i < k implies !#[trigger] reaches(lock, dset, ds[i], name@) by {
                        if reaches(lock, dset, ds[i], name@) {
                            assert(reverse.has(name@));
                        }
                    }
                    assert(first_reacher(lock, dset, ds, name@, k as int));
                }
                reverse.insert(name.clone(), d.clone());
                reverse.keys_sorted();
                proof {
                    lemma_insert_size(before, reverse, name@);
                    lemma_size_bound(reverse, u);
                    assert forall|x: Seq<char>| #[trigger] reverse.has(x) implies exists|j: int|
                        0 <= j <= k && #[trigger] first_reacher(lock, dset, ds, x, j) && value_view(reverse, x)
                            == Some(ds[j]) by {
                        if x == name@ {
                            assert(first_reacher(lock, dset, ds, x, k as int));
                        } else {
                            assert(before.has(x));
                            assert(value_view(reverse, x) == value_view(before, x));
                        }
                    }
                }
                let ghost q_before = queue@;
                enqueue_dependencies(lockfile, direct_deps, &reverse, name.as_str(), &mut queue);
                proof {
                    let qs = qview(queue@).subrange(head as int, queue@.len() as int);
                    let qb = qview(q_before).subrange(head as int, q_before.len() as int);
                    let added = qview(queue@).subrange(q_before.len() as int, queue@.len() as int);
                    assert forall|z: Seq<char>| qb.contains(z) implies qs.contains(z) by {
                        let w = choose|w: int| 0 <= w < qb.len() && qb[w] == z;
                        assert(qview(queue@).subrange(0, q_before.len() as int)[head + w] == qview(q_before)[head + w]);
                        assert(qs[w] == z);
                    }
                    assert forall|z: Seq<char>| added.contains(z) implies qs.contains(z) by {
                        let w = choose|w: int| 0 <= w < added.len() && added[w] == z;
                        assert(qs[q_before.len() - head + w] == z);
                    }
                    assert forall|q: Seq<char>| #[trigger] qs.contains(q) implies reaches(lock, dset, d@, q) by {
                        let w = choose|w: int| 0 <= w < qs.len() && qs[w] == q;
                        if head + w < q_before.len() {
                            assert(qview(queue@).subrange(0, q_before.len() as int)[head + w] == qview(q_before)[head + w]);
                            assert(qb[w] == q);
                            assert(qb.contains(q));
                            assert(qold[w + 1] == q);
                            assert(qold.contains(q));
                        } else {
                            assert(qview(queue@)[head + w] == q);
                            assert(dep_edge(lock, name@, q));
                            lemma_reaches_step(lock, dset, d@, name@, q);
                        }
                    }
                }
            }
        }
        proof {
            assert forall|x: Seq<char>| #[trigger] reaches(lock, dset, ds[k as int], x) implies reverse.has(x) by {
                assert forall|z: Seq<char>| dep_edge(lock, ds[k as int], z) && !dset.contains(z) implies reverse.has(z) by {
                    assert(!qview(queue@).subrange(head as int, queue@.len() as int).contains(z));
                }
                assert forall|y: Seq<char>, z: Seq<char>|
                    reverse.has(y) && #[trigger] dep_edge(lock, y, z) && !dset.contains(z) implies reverse.has(z) by {
                    assert(!qview(queue@).subrange(head as int, queue@.len() as int).contains(z));
                }
                lemma_closed_holds_reach(lock, dset, reverse, ds[k as int], x);
            }
        }
        k += 1;
    }
    proof {
        assert forall|x: Seq<char>, j: int|
            #[trigger] first_reacher(lock, dset, ds, x, j) implies value_view(reverse, x) == Some(ds[j]) by {
            assert(reaches(lock, dset, ds[j], x));
            assert(reverse.has(x));
            let j2 = choose|j2: int|
                0 <= j2 < ds.len() && #[trigger] first_reacher(lock, dset, ds, x, j2) && value_view(reverse, x)
                    == Some(ds[j2]);
            if j2 < j {
                assert(!reaches(lock, dset, ds[j2], x));
            } else if j2 > j {
                assert(!reaches(lock, dset, ds[j], x));
            }
        }
        assert forall|x: Seq<char>| reverse.has(x) implies exists|j: int|
            0 <= j < ds.len() && #[trigger] reaches(lock, dset, ds[j], x) by {
            let j2 = choose|j2: int|
                0 <= j2 < ds.len() && #[trigger] first_reacher(lock, dset, ds, x, j2) && value_view(reverse, x)
                    == Some(ds[j2]);
            assert(reaches(lock, dset, ds[j2], x));
        }
    }
    reverse
}

} // verus!
