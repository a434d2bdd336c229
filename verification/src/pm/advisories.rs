//! The steps of `vertz audit` between the lockfile and the report: which
//! package versions are audited, how the advisory requests are batched, how
//! the batches' answers are merged, which vulnerability rows they give, and
//! their order and severity filter.

use vstd::prelude::*;
use crate::pm::audit::{merge_patched_ranges, merged_patched, BatchError, FixApplied, FixManual};
use crate::json_value::{as_str, jmember, jv, member, JsonValue, JV};
use crate::pm::commands::sview;
use crate::pm::types::{severity_of, severity_rank, AuditEntry, Lockfile, LockfileEntry, PackageJson, Severity};
use crate::pm::why::lemma_sorted_unique;
use crate::smap::{lemma_sorted_of, sorted_keys, StrMap, StrSet};
use crate::text::{dec, push_dec, push_str, str_eq, str_starts_with};

verus! {

/// A security advisory for a package, as the registry reports it.
#[derive(Debug)]
pub struct Advisory {
    pub id: u64,
    pub title: String,
    pub severity: String,
    pub url: String,
    pub patched_versions: String,
}

pub type AdvisoryV = (u64, Seq<char>, Seq<char>, Seq<char>, Seq<char>);

pub open spec fn adv_v(a: Advisory) -> AdvisoryV {
    (a.id, a.title@, a.severity@, a.url@, a.patched_versions@)
}

pub open spec fn advs_v(s: Seq<Advisory>) -> Seq<AdvisoryV> {
    s.map_values(|a: Advisory| adv_v(a))
}

impl Advisory {
    /// A copy of the advisory.
    pub fn copy(&self) -> (r: Advisory)
        ensures
            adv_v(r) == adv_v(*self),
    {
        Advisory {
            id: self.id,
            title: self.title.clone(),
            severity: self.severity.clone(),
            url: self.url.clone(),
            patched_versions: self.patched_versions.clone(),
        }
    }
}

// ---------------------------------------------------------------------------
// The audited versions
// ---------------------------------------------------------------------------

/// Workspace packages (`link:` entries) are not audited.
pub open spec fn audited(e: LockfileEntry) -> bool {
    !"link:"@.is_prefix_of(e.resolved@)
}

/// A package of that name is audited.
pub open spec fn audited_name(lock: Lockfile, n: Seq<char>) -> bool {
    exists|i: int|
        0 <= i < lock.entries.size() && (#[trigger] lock.entries.vseq()[i]).name@ == n && audited(
            lock.entries.vseq()[i],
        )
}

/// The audited versions of a package.
pub open spec fn versions_of(lock: Lockfile, n: Seq<char>) -> Set<Seq<char>> {
    Set::new(
        |v: Seq<char>|
            exists|i: int|
                0 <= i < lock.entries.size() && (#[trigger] lock.entries.vseq()[i]).name@ == n
                    && lock.entries.vseq()[i].version@ == v && audited(lock.entries.vseq()[i]),
    )
}

fn is_audited(e: &LockfileEntry) -> (b: bool)
    ensures
        b == audited(*e),
{
    !str_starts_with(e.resolved.as_str(), "link:")
}

fn versions_named(lock: &Lockfile, n: &str) -> (s: StrSet)
    ensures
        s.set_view() == versions_of(*lock, n@),
{
    let mut s = StrSet::new();
    let mut i: usize = 0;
    proof {
        lock.entries.lemma_sizes();
    }
    while i < lock.entries.len()
        invariant
            i <= lock.entries.size(),
            lock.entries.kseq().len() == lock.entries.vseq().len(),
            forall|v: Seq<char>|
                s.set_view().contains(v) <==> exists|k: int|
                    0 <= k < i && (#[trigger] lock.entries.vseq()[k]).name@ == n@
                        && lock.entries.vseq()[k].version@ == v && audited(lock.entries.vseq()[k]),
        decreases lock.entries.size() - i,
    {
        let e = lock.entries.value_at(i);
        if str_eq(e.name.as_str(), n) && is_audited(e) {
            s.insert(e.version.clone());
        }
        i += 1;
    }
    proof {
        assert(s.set_view() =~= versions_of(*lock, n@));
    }
    s
}

/// The audited packages, each with its set of audited versions.
pub fn audit_versions(lock: &Lockfile) -> (r: StrMap<StrSet>)
    ensures
        forall|n: Seq<char>| #[trigger] r.has(n) <==> audited_name(*lock, n),
        forall|n: Seq<char>| r.has(n) ==> (#[trigger] r.lookup(n)).unwrap().set_view() == versions_of(*lock, n),
{
    let mut names = StrSet::new();
    let mut i: usize = 0;
    proof {
        lock.entries.lemma_sizes();
    }
    while i < lock.entries.len()
        invariant
            i <= lock.entries.size(),
            lock.entries.kseq().len() == lock.entries.vseq().len(),
            forall|n: Seq<char>|
                names.has(n) <==> exists|k: int|
                    0 <= k < i && (#[trigger] lock.entries.vseq()[k]).name@ == n && audited(lock.entries.vseq()[k]),
        decreases lock.entries.size() - i,
    {
        let e = lock.entries.value_at(i);
        if is_audited(e) {
            names.insert(e.name.clone());
        }
        i += 1;
    }
    let mut r: StrMap<StrSet> = StrMap::new();
    let mut j: usize = 0;
    while j < names.len()
        invariant
            j <= names.elems().len(),
            forall|n: Seq<char>| names.has(n) <==> audited_name(*lock, n),
            forall|n: Seq<char>| #[trigger] r.has(n) <==> names.elems().take(j as int).contains(n),
            forall|n: Seq<char>| r.has(n) ==> (#[trigger] r.lookup(n)).unwrap().set_view() == versions_of(*lock, n),
        decreases names.elems().len() - j,
    {
        let n = names.at(j);
        let vs = versions_named(lock, n.as_str());
        r.insert(n.clone(), vs);
        proof {
            assert forall|x: Seq<char>| #[trigger] r.has(x) <==> names.elems().take(j + 1).contains(x) by {
                lemma_take_contains(names.elems(), j as int, x);
            }
        }
        j += 1;
    }
    proof {
        assert(names.elems().take(names.elems().len() as int) =~= names.elems());
    }
    r
}

/// The direct dependencies: those of dependencies, devDependencies and
/// optionalDependencies.
pub fn direct_dependency_names(pkg: &PackageJson) -> (s: StrSet)
    ensures
        forall|n: Seq<char>|
            #[trigger] s.has(n) <==> (pkg.dependencies.has(n) || pkg.dev_dependencies.has(n)
                || pkg.optional_dependencies.has(n)),
{
    let mut s = StrSet::new();
    add_keys(&mut s, &pkg.dependencies);
    add_keys(&mut s, &pkg.dev_dependencies);
    add_keys(&mut s, &pkg.optional_dependencies);
    s
}

fn add_keys(s: &mut StrSet, m: &StrMap<String>)
    ensures
        forall|n: Seq<char>| #[trigger] final(s).has(n) <==> (old(s).has(n) || m.has(n)),
{
    let ghost o = *s;
    let mut i: usize = 0;
    while i < m.len()
        invariant
            i <= m.size(),
            forall|n: Seq<char>| #[trigger] s.has(n) <==> (o.has(n) || m.kseq().take(i as int).contains(n)),
        decreases m.size() - i,
    {
        let k = m.key_at(i);
        s.insert(k.clone());
        proof {
            assert forall|x: Seq<char>| #[trigger] s.has(x) <==> (o.has(x) || m.kseq().take(i + 1).contains(x)) by {
                lemma_take_contains(m.kseq(), i as int, x);
            }
        }
        i += 1;
    }
    proof {
        assert(m.kseq().take(m.size() as int) =~= m.kseq());
    }
}

proof fn lemma_take_contains(s: Seq<Seq<char>>, j: int, x: Seq<char>)
    requires
        0 <= j < s.len(),
    ensures
        s.take(j + 1).contains(x) <==> (s.take(j).contains(x) || x == s[j]),
{
    if s.take(j + 1).contains(x) && x != s[j] {
        let w = choose|w: int| 0 <= w < j + 1 && #[trigger] s.take(j + 1)[w] == x;
        assert(s.take(j)[w] == x);
    }
    if s.take(j).contains(x) {
        let w = choose|w: int| 0 <= w < j && #[trigger] s.take(j)[w] == x;
        assert(s.take(j + 1)[w] == x);
    }
    if x == s[j] {
        assert(s.take(j + 1)[j] == x);
    }
}

// ---------------------------------------------------------------------------
// Batching and merging
// ---------------------------------------------------------------------------

/// The packages of a request per batch.
pub open spec fn batch_size() -> nat {
    100
}

/// The request items: each audited package with its versions in order.
pub open spec fn request_items(versions: StrMap<StrSet>) -> Seq<(Seq<char>, Seq<Seq<char>>)> {
    Seq::new(versions.size(), |i: int| (versions.kseq()[i], versions.vseq()[i].elems()))
}

pub open spec fn items_v(v: Seq<(String, Vec<String>)>) -> Seq<(Seq<char>, Seq<Seq<char>>)> {
    v.map_values(|it: (String, Vec<String>)| (it.0@, it.1@.map_values(|s: String| s@)))
}

/// The request items split into batches of at most 100, in order.
pub fn advisory_batches(versions: &StrMap<StrSet>) -> (r: Vec<Vec<(String, Vec<String>)>>)
    ensures
        r@.len() == (request_items(*versions).len() + 99) / 100,
        forall|b: int|
            0 <= b < r@.len() ==> items_v(#[trigger] r@[b]@) == request_items(*versions).subrange(
                100 * b,
                if 100 * b + 100 < request_items(*versions).len() {
                    100 * b + 100
                } else {
                    request_items(*versions).len() as int
                },
            ),
{
    let ghost items = request_items(*versions);
    let n = versions.len();
    let mut r: Vec<Vec<(String, Vec<String>)>> = Vec::new();
    let mut start: usize = 0;
    proof {
        versions.lemma_sizes();
    }
    while start < n
        invariant
            n == items.len(),
            items == request_items(*versions),
            versions.kseq().len() == versions.vseq().len(),
            start <= n,
            start == 100 * r@.len() || start == n,
            start < n ==> start == 100 * r@.len(),
            r@.len() == (start + 99) / 100,
            forall|b: int|
                0 <= b < r@.len() ==> items_v(#[trigger] r@[b]@) == items.subrange(
                    100 * b,
                    if 100 * b + 100 < items.len() {
                        100 * b + 100
                    } else {
                        items.len() as int
                    },
                ),
        decreases n - start,
    {
        let end = if n - start > 100 { start + 100 } else { n };
        let mut batch: Vec<(String, Vec<String>)> = Vec::new();
        let mut i: usize = start;
        while i < end
            invariant
                start <= i <= end <= n,
                n == items.len(),
                items == request_items(*versions),
                versions.kseq().len() == versions.vseq().len(),
                items_v(batch@) == items.subrange(start as int, i as int),
            decreases end - i,
        {
            let set = versions.value_at(i);
            let mut vs: Vec<String> = Vec::new();
            let mut k: usize = 0;
            while k < set.len()
                invariant
                    k <= set.elems().len(),
                    vs@.map_values(|s: String| s@) == set.elems().take(k as int),
                decreases set.elems().len() - k,
            {
                let ghost before = vs@.map_values(|s: String| s@);
                vs.push(set.at(k).clone());
                assert(vs@.map_values(|s: String| s@) =~= before.push(set.elems()[k as int]));
                assert(set.elems().take(k + 1) =~= set.elems().take(k as int).push(set.elems()[k as int]));
                k += 1;
            }
            assert(set.elems().take(set.elems().len() as int) =~= set.elems());
            let ghost bb = items_v(batch@);
            batch.push((versions.key_at(i).clone(), vs));
            assert(items_v(batch@) =~= bb.push(items[i as int]));
            assert(items.subrange(start as int, i + 1) =~= items.subrange(start as int, i as int).push(items[i as int]));
            i += 1;
        }
        let ghost rb = r@;
        r.push(batch);
        proof {
            assert forall|b: int| 0 <= b < r@.len() implies items_v(#[trigger] r@[b]@) == items.subrange(
                100 * b,
                if 100 * b + 100 < items.len() {
                    100 * b + 100
                } else {
                    items.len() as int
                },
            ) by {
                if b < rb.len() {
                    assert(r@[b] == rb[b]);
                }
            }
        }
        start = end;
    }
    r
}

/// The advisories of a package over the batches' answers, in batch order;
/// failed batches give none.
pub open spec fn merged_for(results: Seq<Result<StrMap<Vec<Advisory>>, String>>, n: Seq<char>) -> Seq<AdvisoryV>
    decreases results.len(),
{
    if results.len() == 0 {
        seq![]
    } else {
        merged_for(results.drop_last(), n) + match results.last() {
            Ok(m) => if m.has(n) {
                advs_v(m.lookup(n).unwrap()@)
            } else {
                seq![]
            },
            Err(_) => seq![],
        }
    }
}

/// The answer of a batch names the package.
pub open spec fn ok_has(r: Result<StrMap<Vec<Advisory>>, String>, n: Seq<char>) -> bool {
    match r {
        Ok(m) => m.has(n),
        Err(_) => false,
    }
}

/// A package that some batch answered for.
pub open spec fn answered(results: Seq<Result<StrMap<Vec<Advisory>>, String>>, n: Seq<char>) -> bool {
    exists|b: int| 0 <= b < results.len() && #[trigger] ok_has(results[b], n)
}

/// The failed batches, numbered from 1, with their errors.
pub open spec fn failed_batches(results: Seq<Result<StrMap<Vec<Advisory>>, String>>) -> Seq<(nat, Seq<char>)>
    decreases results.len(),
{
    if results.len() == 0 {
        seq![]
    } else {
        match results.last() {
            Ok(_) => failed_batches(results.drop_last()),
            Err(e) => failed_batches(results.drop_last()).push((results.len(), e@)),
        }
    }
}

/// `warning: advisory batch <b> failed: <error>`.
pub open spec fn batch_warning(b: nat, e: Seq<char>) -> Seq<char> {
    "warning: advisory batch "@ + dec(b) + " failed: "@ + e
}

pub open spec fn advmap_v(m: StrMap<Vec<Advisory>>, n: Seq<char>) -> Seq<AdvisoryV> {
    if m.has(n) {
        advs_v(m.lookup(n).unwrap()@)
    } else {
        seq![]
    }
}

/// Merges the batches' answers: the advisories of each package over all
/// batches, a warning per failed batch, and the failed batches.
pub fn merge_advisory_batches(results: &Vec<Result<StrMap<Vec<Advisory>>, String>>) -> (r: (
    StrMap<Vec<Advisory>>,
    Vec<String>,
    Vec<BatchError>,
))
    ensures
        forall|n: Seq<char>| #[trigger] r.0.has(n) <==> answered(results@, n),
        forall|n: Seq<char>| #[trigger] advmap_v(r.0, n) == merged_for(results@, n),
        r.1@.map_values(|s: String| s@) == failed_batches(results@).map_values(|f: (nat, Seq<char>)| batch_warning(f.0, f.1)),
        r.2@.map_values(|e: BatchError| (e.batch as nat, e.error@)) == failed_batches(results@),
{
    let mut all: StrMap<Vec<Advisory>> = StrMap::new();
    let mut warnings: Vec<String> = Vec::new();
    let mut errors: Vec<BatchError> = Vec::new();
    let mut b: usize = 0;
    while b < results.len()
        invariant
            b <= results.len(),
            forall|n: Seq<char>| #[trigger] all.has(n) <==> answered(results@.take(b as int), n),
            forall|n: Seq<char>| #[trigger] advmap_v(all, n) == merged_for(results@.take(b as int), n),
            warnings@.map_values(|s: String| s@) == failed_batches(results@.take(b as int)).map_values(
                |f: (nat, Seq<char>)| batch_warning(f.0, f.1),
            ),
            errors@.map_values(|e: BatchError| (e.batch as nat, e.error@)) == failed_batches(results@.take(b as int)),
        decreases results.len() - b,
    {
        let ghost rs = results@.take(b + 1);
        proof {
            assert(rs.drop_last() =~= results@.take(b as int));
            assert(rs.last() == results@[b as int]);
        }
        match &results[b] {
            Ok(m) => {
                let ghost a0 = all;
                merge_one(&mut all, m);
                proof {
                    assert forall|n: Seq<char>| #[trigger] all.has(n) <==> answered(rs, n) by {
                        if answered(rs, n) && !m.has(n) {
                            let w = choose|w: int| 0 <= w < rs.len() && #[trigger] ok_has(rs[w], n);
                            assert(results@.take(b as int)[w] == rs[w]);
                        }
                        if answered(results@.take(b as int), n) {
                            let w = choose|w: int| 0 <= w < b && #[trigger] ok_has(results@.take(b as int)[w], n);
                            assert(rs[w] == results@.take(b as int)[w]);
                        }
                        if m.has(n) {
                            assert(ok_has(rs[b as int], n));
                        }
                    }
                    assert forall|n: Seq<char>| #[trigger] advmap_v(all, n) == merged_for(rs, n) by {
                        assert(merged_for(rs, n) == merged_for(results@.take(b as int), n) + advmap_v(*m, n));
                    }
                    assert(failed_batches(rs) == failed_batches(results@.take(b as int)));
                }
            },
            Err(e) => {
                let mut w = String::from_str("warning: advisory batch ");
                push_dec(&mut w, (b + 1) as u64);
                push_str(&mut w, " failed: ");
                push_str(&mut w, e.as_str());
                let ghost wb = warnings@.map_values(|s: String| s@);
                let ghost eb = errors@.map_values(|e: BatchError| (e.batch as nat, e.error@));
                warnings.push(w);
                errors.push(BatchError { batch: b + 1, error: e.clone() });
                proof {
                    assert(failed_batches(rs) == failed_batches(results@.take(b as int)).push(((b + 1) as nat, e@)));
                    assert(warnings@.map_values(|s: String| s@) =~= wb.push(batch_warning((b + 1) as nat, e@)));
                    assert(errors@.map_values(|e: BatchError| (e.batch as nat, e.error@)) =~= eb.push(((b + 1) as nat, e@)));
                    assert(failed_batches(rs).map_values(|f: (nat, Seq<char>)| batch_warning(f.0, f.1)) =~= failed_batches(
                        results@.take(b as int),
                    ).map_values(|f: (nat, Seq<char>)| batch_warning(f.0, f.1)).push(batch_warning((b + 1) as nat, e@)));
                    assert forall|n: Seq<char>| #[trigger] all.has(n) <==> answered(rs, n) by {
                        if answered(rs, n) {
                            let w = choose|w: int| 0 <= w < rs.len() && #[trigger] ok_has(rs[w], n);
                            assert(w != b);
                            assert(results@.take(b as int)[w] == rs[w]);
                        }
                        if answered(results@.take(b as int), n) {
                            let w = choose|w: int| 0 <= w < b && #[trigger] ok_has(results@.take(b as int)[w], n);
                            assert(rs[w] == results@.take(b as int)[w]);
                        }
                    }
                    assert forall|n: Seq<char>| #[trigger] advmap_v(all, n) == merged_for(rs, n) by {
                        assert(merged_for(rs, n) =~= merged_for(results@.take(b as int), n));
                    }
                }
            },
        }
        b += 1;
    }
    proof {
        assert(results@.take(results.len() as int) =~= results@);
    }
    (all, warnings, errors)
}

/// Adds a batch's answer to the merged advisories.
fn merge_one(all: &mut StrMap<Vec<Advisory>>, m: &StrMap<Vec<Advisory>>)
    ensures
        forall|n: Seq<char>| #[trigger] final(all).has(n) <==> (old(all).has(n) || m.has(n)),
        forall|n: Seq<char>| #[trigger] advmap_v(*final(all), n) == advmap_v(*old(all), n) + advmap_v(*m, n),
{
    let ghost o = *all;
    let mut i: usize = 0;
    m.keys_sorted();
    while i < m.len()
        invariant
            i <= m.size(),
            sorted_keys(m.kseq()),
            forall|n: Seq<char>| #[trigger] all.has(n) <==> (o.has(n) || m.kseq().take(i as int).contains(n)),
            forall|n: Seq<char>|
                #[trigger] advmap_v(*all, n) == advmap_v(o, n) + if m.kseq().take(i as int).contains(n) {
                    advmap_v(*m, n)
                } else {
                    seq![]
                },
        decreases m.size() - i,
    {
        let k = m.key_at(i);
        let advs = m.value_at(i);
        proof {
            m.lemma_lookup_at(i as int);
        }
        let ghost before = *all;
        let mut list = match all.remove(k.as_str()) {
            Some(l) => l,
            None => Vec::new(),
        };
        let ghost l0 = advs_v(list@);
        proof {
            assert(l0 == advmap_v(before, k@));
        }
        let mut j: usize = 0;
        while j < advs.len()
            invariant
                j <= advs.len(),
                advs_v(list@) == l0 + advs_v(advs@.take(j as int)),
            decreases advs.len() - j,
        {
            let ghost lb = advs_v(list@);
            list.push(advs[j].copy());
            assert(advs_v(list@) =~= lb.push(adv_v(advs@[j as int])));
            assert(advs@.take(j + 1) =~= advs@.take(j as int).push(advs@[j as int]));
            assert(advs_v(advs@.take(j + 1)) =~= advs_v(advs@.take(j as int)).push(adv_v(advs@[j as int])));
            j += 1;
        }
        assert(advs@.take(advs.len() as int) =~= advs@);
        let ghost mid = *all;
        all.insert(k.clone(), list);
        proof {
            assert(m.kseq().take(i + 1) =~= m.kseq().take(i as int).push(k@));
            assert(!m.kseq().take(i as int).contains(k@)) by {
                if m.kseq().take(i as int).contains(k@) {
                    let w = choose|w: int| 0 <= w < i && #[trigger] m.kseq().take(i as int)[w] == k@;
                    assert(crate::text::lex_lt(m.kseq()[w], m.kseq()[i as int]));
                    crate::text::lemma_lex_irreflexive(k@);
                }
            }
            assert forall|n: Seq<char>| #[trigger] all.has(n) <==> (o.has(n) || m.kseq().take(i + 1).contains(n)) by {
                if n != k@ {
                    if m.kseq().take(i + 1).contains(n) {
                        let w = choose|w: int| 0 <= w < i + 1 && #[trigger] m.kseq().take(i + 1)[w] == n;
                        assert(m.kseq().take(i as int)[w] == n);
                    }
                } else {
                    assert(m.kseq().take(i + 1)[i as int] == n);
                }
            }
            assert forall|n: Seq<char>|
                #[trigger] advmap_v(*all, n) == advmap_v(o, n) + if m.kseq().take(i + 1).contains(n) {
                    advmap_v(*m, n)
                } else {
                    seq![]
                } by {
                if n != k@ {
                    assert(advmap_v(*all, n) == advmap_v(before, n));
                    if m.kseq().take(i + 1).contains(n) {
                        let w = choose|w: int| 0 <= w < i + 1 && #[trigger] m.kseq().take(i + 1)[w] == n;
                        assert(m.kseq().take(i as int)[w] == n);
                    }
                } else {
                    assert(m.kseq().take(i + 1)[i as int] == n);
                    assert(advmap_v(*m, n) == advs_v(advs@));
                    assert(advmap_v(o, n) + seq![] =~= advmap_v(o, n));
                }
            }
        }
        i += 1;
    }
    proof {
        assert(m.kseq().take(m.size() as int) =~= m.kseq());
        assert forall|n: Seq<char>| #[trigger] advmap_v(*all, n) == advmap_v(o, n) + advmap_v(*m, n) by {
            if !m.has(n) {
                assert(advmap_v(o, n) + seq![] =~= advmap_v(o, n));
            }
        }
    }
}


// ---------------------------------------------------------------------------
// The vulnerability rows
// ---------------------------------------------------------------------------

pub type EntryV = (Seq<char>, Seq<char>, Severity, Seq<char>, Seq<char>, Seq<char>, u64, Option<Seq<char>>);

pub open spec fn opt_s(o: Option<String>) -> Option<Seq<char>> {
    match o {
        Some(s) => Some(s@),
        None => None,
    }
}

pub open spec fn entry_v(e: AuditEntry) -> EntryV {
    (e.name@, e.version@, e.severity, e.title@, e.url@, e.patched@, e.id, opt_s(e.parent))
}

pub open spec fn entries_v(s: Seq<AuditEntry>) -> Seq<EntryV> {
    s.map_values(|e: AuditEntry| entry_v(e))
}

/// The severity of an advisory; an unknown one counts as low.
pub open spec fn adv_severity(a: AdvisoryV) -> Severity {
    match severity_of(a.2) {
        Some(s) => s,
        None => Severity::Low,
    }
}

/// The direct dependency reported as the package's parent: none for a
/// direct dependency, else the one it is attributed to.
pub open spec fn parent_of(name: Seq<char>, direct: StrSet, reverse: StrMap<String>) -> Option<Seq<char>> {
    if direct.has(name) {
        None
    } else {
        sview(reverse, name)
    }
}

/// One row per advisory for a version of a package.
pub open spec fn version_rows(name: Seq<char>, version: Seq<char>, advs: Seq<AdvisoryV>, parent: Option<Seq<char>>) -> Seq<EntryV> {
    advs.map_values(|a: AdvisoryV| (name, version, adv_severity(a), a.1, a.3, a.4, a.0, parent))
}

/// `warning: unknown severity '<s>' for advisory <id> on <name> — treating as low`.
pub open spec fn severity_warning(name: Seq<char>, a: AdvisoryV) -> Seq<char> {
    "warning: unknown severity '"@ + a.2 + "' for advisory "@ + dec(a.0 as nat) + " on "@ + name
        + " — treating as low"@
}

/// The warnings for the advisories of unknown severity.
pub open spec fn version_warnings(name: Seq<char>, advs: Seq<AdvisoryV>) -> Seq<Seq<char>>
    decreases advs.len(),
{
    if advs.len() == 0 {
        seq![]
    } else {
        version_warnings(name, advs.drop_last()) + if severity_of(advs.last().2) is None {
            seq![severity_warning(name, advs.last())]
        } else {
            seq![]
        }
    }
}

/// The rows of a package: for each version, for each advisory.
pub open spec fn name_rows(name: Seq<char>, versions: Seq<Seq<char>>, advs: Seq<AdvisoryV>, parent: Option<Seq<char>>) -> Seq<EntryV>
    decreases versions.len(),
{
    if versions.len() == 0 {
        seq![]
    } else {
        name_rows(name, versions.drop_last(), advs, parent) + version_rows(name, versions.last(), advs, parent)
    }
}

/// The severity warnings of a package, repeated for each version.
pub open spec fn name_warnings(name: Seq<char>, versions: Seq<Seq<char>>, advs: Seq<AdvisoryV>) -> Seq<Seq<char>>
    decreases versions.len(),
{
    if versions.len() == 0 {
        seq![]
    } else {
        name_warnings(name, versions.drop_last(), advs) + version_warnings(name, advs)
    }
}

/// The rows and warnings for the first `n` packages with advisories (in
/// name order), of those that are audited.
pub open spec fn audit_rows(
    adv: StrMap<Vec<Advisory>>,
    versions: StrMap<StrSet>,
    direct: StrSet,
    reverse: StrMap<String>,
    n: int,
) -> (Seq<EntryV>, Seq<Seq<char>>)
    decreases n,
{
    if n <= 0 {
        (seq![], seq![])
    } else {
        let prev = audit_rows(adv, versions, direct, reverse, n - 1);
        let name = adv.kseq()[n - 1];
        let advs = advs_v(adv.vseq()[n - 1]@);
        if versions.has(name) {
            let vs = versions.lookup(name).unwrap().elems();
            (
                prev.0 + name_rows(name, vs, advs, parent_of(name, direct, reverse)),
                prev.1 + name_warnings(name, vs, advs),
            )
        } else {
            prev
        }
    }
}

fn severity_warning_text(name: &str, a: &Advisory) -> (r: String)
    ensures
        r@ == severity_warning(name@, adv_v(*a)),
{
    let mut r = String::from_str("warning: unknown severity '");
    push_str(&mut r, a.severity.as_str());
    push_str(&mut r, "' for advisory ");
    push_dec(&mut r, a.id);
    push_str(&mut r, " on ");
    push_str(&mut r, name);
    push_str(&mut r, " — treating as low");
    r
}

fn copy_opt(o: &Option<String>) -> (r: Option<String>)
    ensures
        opt_s(r) == opt_s(*o),
{
    match o {
        Some(s) => Some(s.clone()),
        None => None,
    }
}

/// The rows of one version of a package.
fn push_version_rows(
    rows: &mut Vec<AuditEntry>,
    warnings: &mut Vec<String>,
    name: &str,
    version: &str,
    advs: &Vec<Advisory>,
    parent: &Option<String>,
)
    ensures
        entries_v(final(rows)@) == entries_v(old(rows)@) + version_rows(name@, version@, advs_v(advs@), opt_s(*parent)),
        final(warnings)@.map_values(|s: String| s@) == old(warnings)@.map_values(|s: String| s@) + version_warnings(
            name@,
            advs_v(advs@),
        ),
{
    let ghost r0 = entries_v(rows@);
    let ghost w0 = warnings@.map_values(|s: String| s@);
    let mut k: usize = 0;
    proof {
        assert(advs_v(advs@).take(0) =~= Seq::<AdvisoryV>::empty());
        assert(r0 + version_rows(name@, version@, Seq::<AdvisoryV>::empty(), opt_s(*parent)) =~= r0);
        assert(w0 + Seq::<Seq<char>>::empty() =~= w0);
    }
    while k < advs.len()
        invariant
            k <= advs.len(),
            entries_v(rows@) == r0 + version_rows(name@, version@, advs_v(advs@).take(k as int), opt_s(*parent)),
            warnings@.map_values(|s: String| s@) == w0 + version_warnings(name@, advs_v(advs@).take(k as int)),
        decreases advs.len() - k,
    {
        let a = &advs[k];
        let ghost av = adv_v(*a);
        proof {
            assert(advs_v(advs@)[k as int] == av);
            assert(advs_v(advs@).take(k + 1) =~= advs_v(advs@).take(k as int).push(av));
            assert(advs_v(advs@).take(k + 1).drop_last() =~= advs_v(advs@).take(k as int));
        }
        let severity = match Severity::parse(a.severity.as_str()) {
            Some(s) => s,
            None => {
                let ghost wb = warnings@.map_values(|s: String| s@);
                warnings.push(severity_warning_text(name, a));
                assert(warnings@.map_values(|s: String| s@) =~= wb.push(severity_warning(name@, av)));
                Severity::Low
            },
        };
        let ghost rb = entries_v(rows@);
        rows.push(AuditEntry {
            name: String::from_str(name),
            version: String::from_str(version),
            severity,
            title: a.title.clone(),
            url: a.url.clone(),
            patched: a.patched_versions.clone(),
            id: a.id,
            parent: copy_opt(parent),
        });
        proof {
            assert(entries_v(rows@) =~= rb.push((name@, version@, adv_severity(av), av.1, av.3, av.4, av.0, opt_s(*parent))));
            assert(version_rows(name@, version@, advs_v(advs@).take(k + 1), opt_s(*parent)) =~= version_rows(
                name@,
                version@,
                advs_v(advs@).take(k as int),
                opt_s(*parent),
            ).push((name@, version@, adv_severity(av), av.1, av.3, av.4, av.0, opt_s(*parent))));
            if severity_of(av.2) is Some {
                assert(version_warnings(name@, advs_v(advs@).take(k + 1)) =~= version_warnings(name@, advs_v(advs@).take(k as int)));
            }
        }
        k += 1;
    }
    proof {
        assert(advs_v(advs@).take(advs.len() as int) =~= advs_v(advs@));
    }
}

/// The vulnerability rows: for each package with advisories that is
/// audited (in name order), each of its audited versions (in order) and each
/// advisory; and a warning for each advisory of unknown severity, per
/// version.
pub fn audit_entries(
    advisories: &StrMap<Vec<Advisory>>,
    versions: &StrMap<StrSet>,
    direct: &StrSet,
    reverse: &StrMap<String>,
) -> (r: (Vec<AuditEntry>, Vec<String>))
    ensures
        (entries_v(r.0@), r.1@.map_values(|s: String| s@)) == audit_rows(
            *advisories,
            *versions,
            *direct,
            *reverse,
            advisories.size() as int,
        ),
{
    let mut rows: Vec<AuditEntry> = Vec::new();
    let mut warnings: Vec<String> = Vec::new();
    let mut i: usize = 0;
    proof {
        advisories.lemma_sizes();
        assert(entries_v(rows@) =~= Seq::<EntryV>::empty());
        assert(warnings@.map_values(|s: String| s@) =~= Seq::<Seq<char>>::empty());
    }
    while i < advisories.len()
        invariant
            i <= advisories.size(),
            advisories.kseq().len() == advisories.vseq().len(),
            (entries_v(rows@), warnings@.map_values(|s: String| s@)) == audit_rows(*advisories, *versions, *direct, *reverse, i as int),
        decreases advisories.size() - i,
    {
        let name = advisories.key_at(i);
        let advs = advisories.value_at(i);
        match versions.get(name.as_str()) {
            Some(vset) => {
                let parent: Option<String> = if direct.contains(name.as_str()) {
                    None
                } else {
                    match reverse.get(name.as_str()) {
                        Some(p) => Some(p.clone()),
                        None => None,
                    }
                };
                let ghost par = opt_s(parent);
                assert(par == parent_of(name@, *direct, *reverse));
                let ghost r0 = entries_v(rows@);
                let ghost w0 = warnings@.map_values(|s: String| s@);
                let ghost vs = vset.elems();
                let mut j: usize = 0;
                proof {
                    assert(vs.take(0) =~= Seq::<Seq<char>>::empty());
                    assert(r0 + Seq::<EntryV>::empty() =~= r0);
                    assert(w0 + Seq::<Seq<char>>::empty() =~= w0);
                }
                while j < vset.len()
                    invariant
                        j <= vs.len(),
                        vs == vset.elems(),
                        entries_v(rows@) == r0 + name_rows(name@, vs.take(j as int), advs_v(advs@), par),
                        warnings@.map_values(|s: String| s@) == w0 + name_warnings(name@, vs.take(j as int), advs_v(advs@)),
                        par == opt_s(parent),
                    decreases vs.len() - j,
                {
                    let version = vset.at(j);
                    proof {
                        assert(vs.take(j + 1).drop_last() =~= vs.take(j as int));
                        assert(vs.take(j + 1).last() == version@);
                    }
                    let ghost rb = entries_v(rows@);
                    let ghost wb = warnings@.map_values(|s: String| s@);
                    push_version_rows(&mut rows, &mut warnings, name.as_str(), version.as_str(), advs, &parent);
                    proof {
                        assert(entries_v(rows@) =~= r0 + name_rows(name@, vs.take(j + 1), advs_v(advs@), par));
                        assert(warnings@.map_values(|s: String| s@) =~= w0 + name_warnings(name@, vs.take(j + 1), advs_v(advs@)));
                    }
                    j += 1;
                }
                proof {
                    assert(vs.take(vs.len() as int) =~= vs);
                }
            },
            None => {},
        }
        i += 1;
    }
    (rows, warnings)
}

// ---------------------------------------------------------------------------
// Order and severity filter
// ---------------------------------------------------------------------------

/// The rows of a rank and a name, in their order.
pub open spec fn rank_named(es: Seq<EntryV>, r: nat, n: Seq<char>) -> Seq<EntryV>
    decreases es.len(),
{
    if es.len() == 0 {
        seq![]
    } else if severity_rank(es.last().2) == r && es.last().0 == n {
        rank_named(es.drop_last(), r, n).push(es.last())
    } else {
        rank_named(es.drop_last(), r, n)
    }
}

/// The rows of a rank grouped by the names `ns`, in that order.
pub open spec fn rank_group(es: Seq<EntryV>, r: nat, ns: Seq<Seq<char>>) -> Seq<EntryV>
    decreases ns.len(),
{
    if ns.len() == 0 {
        seq![]
    } else {
        rank_group(es, r, ns.drop_last()) + rank_named(es, r, ns.last())
    }
}

/// The names of the rows, each once, in increasing order.
pub open spec fn row_names(es: Seq<EntryV>) -> Seq<Seq<char>> {
    choose|ns: Seq<Seq<char>>|
        sorted_keys(ns) && forall|n: Seq<char>| ns.contains(n) <==> es.map_values(|e: EntryV| e.0).contains(n)
}

/// The rows of ranks `0..=t` (critical first), each rank by name, stably.
pub open spec fn ordered_upto(es: Seq<EntryV>, t: nat) -> Seq<EntryV>
    decreases t,
{
    if t == 0 {
        rank_group(es, 0, row_names(es))
    } else {
        ordered_upto(es, (t - 1) as nat) + rank_group(es, t, row_names(es))
    }
}

fn copy_entry(e: &AuditEntry) -> (r: AuditEntry)
    ensures
        entry_v(r) == entry_v(*e),
{
    AuditEntry {
        name: e.name.clone(),
        version: e.version.clone(),
        severity: e.severity,
        title: e.title.clone(),
        url: e.url.clone(),
        patched: e.patched.clone(),
        id: e.id,
        parent: copy_opt(&e.parent),
    }
}

/// Orders the rows by severity (critical first) and then by name, keeping
/// the order of rows that tie, and keeps those at or above the threshold;
/// also gives how many rows are below it.
pub fn order_and_filter(entries: &Vec<AuditEntry>, threshold: Severity) -> (r: (Vec<AuditEntry>, usize))
    ensures
        entries_v(r.0@) == ordered_upto(entries_v(entries@), severity_rank(threshold)),
        r.1 == count_below(entries_v(entries@), severity_rank(threshold)),
{
    let ghost es = entries_v(entries@);
    let mut names = StrSet::new();
    let mut j: usize = 0;
    while j < entries.len()
        invariant
            j <= entries.len(),
            es == entries_v(entries@),
            forall|n: Seq<char>| names.has(n) <==> es.take(j as int).map_values(|e: EntryV| e.0).contains(n),
        decreases entries.len() - j,
    {
        names.insert(entries[j].name.clone());
        proof {
            assert forall|n: Seq<char>| names.has(n) <==> es.take(j + 1).map_values(|e: EntryV| e.0).contains(n) by {
                assert(es.take(j + 1).map_values(|e: EntryV| e.0) =~= es.take(j as int).map_values(|e: EntryV| e.0).push(es[j as int].0));
                lemma_take_contains(es.map_values(|e: EntryV| e.0), j as int, n);
                assert(es.map_values(|e: EntryV| e.0).take(j + 1) =~= es.take(j + 1).map_values(|e: EntryV| e.0));
                assert(es.map_values(|e: EntryV| e.0).take(j as int) =~= es.take(j as int).map_values(|e: EntryV| e.0));
            }
        }
        j += 1;
    }
    names.elems_sorted();
    proof {
        assert(es.take(entries.len() as int) =~= es);
        let ns = names.elems();
        assert forall|n: Seq<char>| ns.contains(n) <==> es.map_values(|e: EntryV| e.0).contains(n) by {
            assert(names.has(n) <==> es.take(entries.len() as int).map_values(|e: EntryV| e.0).contains(n));
        }
        lemma_sorted_unique(ns, row_names(es));
    }
    let t = threshold.rank();
    let mut out: Vec<AuditEntry> = Vec::new();
    let mut r: u8 = 0;
    proof {
        assert(entries_v(out@) =~= Seq::<EntryV>::empty());
    }
    while r <= t
        invariant
            t <= 3,
            t == severity_rank(threshold),
            r <= t + 1,
            es == entries_v(entries@),
            names.elems() == row_names(es),
            r == 0 ==> entries_v(out@) == Seq::<EntryV>::empty(),
            r > 0 ==> entries_v(out@) == ordered_upto(es, (r - 1) as nat),
        decreases t + 1 - r,
    {
        let ghost before = entries_v(out@);
        let mut k: usize = 0;
        proof {
            assert(names.elems().take(0) =~= Seq::<Seq<char>>::empty());
            assert(before + Seq::<EntryV>::empty() =~= before);
        }
        while k < names.len()
            invariant
                k <= names.elems().len(),
                es == entries_v(entries@),
                entries_v(out@) == before + rank_group(es, r as nat, names.elems().take(k as int)),
            decreases names.elems().len() - k,
        {
            let n = names.at(k);
            let ghost gb = entries_v(out@);
            proof {
                assert(names.elems().take(k + 1).drop_last() =~= names.elems().take(k as int));
                assert(names.elems().take(k + 1).last() == n@);
                assert(es.take(0) =~= Seq::<EntryV>::empty());
                assert(gb + Seq::<EntryV>::empty() =~= gb);
            }
            let mut m: usize = 0;
            while m < entries.len()
                invariant
                    m <= entries.len(),
                    es == entries_v(entries@),
                    entries_v(out@) == gb + rank_named(es.take(m as int), r as nat, n@),
                decreases entries.len() - m,
            {
                proof {
                    assert(es.take(m + 1).drop_last() =~= es.take(m as int));
                    assert(es.take(m + 1).last() == es[m as int]);
                }
                let ghost ob = entries_v(out@);
                if entries[m].severity.rank() == r && str_eq(entries[m].name.as_str(), n.as_str()) {
                    out.push(copy_entry(&entries[m]));
                    assert(entries_v(out@) =~= ob.push(es[m as int]));
                }
                m += 1;
            }
            proof {
                assert(es.take(entries.len() as int) =~= es);
            }
            k += 1;
        }
        proof {
            assert(names.elems().take(names.elems().len() as int) =~= names.elems());
            if r == 0 {
                assert(entries_v(out@) =~= ordered_upto(es, 0));
            }
        }
        r += 1;
    }
    let mut below: usize = 0;
    let mut q: usize = 0;
    while q < entries.len()
        invariant
            q <= entries.len(),
            below <= q,
            es == entries_v(entries@),
            t == severity_rank(threshold),
            below == count_below(es.take(q as int), t as nat),
        decreases entries.len() - q,
    {
        proof {
            assert(es.take(q + 1).drop_last() =~= es.take(q as int));
            assert(es.take(q + 1).last() == es[q as int]);
        }
        if entries[q].severity.rank() > t {
            below += 1;
        }
        q += 1;
    }
    proof {
        assert(es.take(entries.len() as int) =~= es);
    }
    (out, below)
}

/// The rows below the threshold rank `t` (ranks greater than `t`).
pub open spec fn count_below(es: Seq<EntryV>, t: nat) -> nat
    decreases es.len(),
{
    if es.len() == 0 {
        0
    } else {
        count_below(es.drop_last(), t) + if severity_rank(es.last().2) > t {
            1nat
        } else {
            0
        }
    }
}


proof fn lemma_rank_named_rank(es: Seq<EntryV>, r: nat, n: Seq<char>)
    ensures
        forall|k: int| 0 <= k < rank_named(es, r, n).len() ==> severity_rank(#[trigger] rank_named(es, r, n)[k].2) == r,
    decreases es.len(),
{
    if es.len() > 0 {
        lemma_rank_named_rank(es.drop_last(), r, n);
        let prev = rank_named(es.drop_last(), r, n);
        if severity_rank(es.last().2) == r && es.last().0 == n {
            assert forall|k: int| 0 <= k < prev.push(es.last()).len() implies severity_rank(
                #[trigger] prev.push(es.last())[k].2,
            ) == r by {
                if k < prev.len() {
                    assert(prev.push(es.last())[k] == prev[k]);
                }
            }
        }
    }
}

proof fn lemma_rank_group_rank(es: Seq<EntryV>, r: nat, ns: Seq<Seq<char>>)
    ensures
        forall|k: int| 0 <= k < rank_group(es, r, ns).len() ==> severity_rank(#[trigger] rank_group(es, r, ns)[k].2) == r,
    decreases ns.len(),
{
    if ns.len() > 0 {
        lemma_rank_group_rank(es, r, ns.drop_last());
        lemma_rank_named_rank(es, r, ns.last());
        let a = rank_group(es, r, ns.drop_last());
        let b = rank_named(es, r, ns.last());
        assert forall|k: int| 0 <= k < (a + b).len() implies severity_rank(#[trigger] (a + b)[k].2) == r by {
            if k >= a.len() {
                assert((a + b)[k] == b[k - a.len()]);
            }
        }
    }
}

/// The audit report lists rows by severity, critical first: along the
/// ordered rows of ranks `0..=t` the rank never decreases, and none is below
/// the threshold.
pub proof fn law_audit_rows_by_severity(es: Seq<EntryV>, t: nat)
    ensures
        forall|i: int, j: int|
            0 <= i < j < ordered_upto(es, t).len() ==> severity_rank(#[trigger] ordered_upto(es, t)[i].2)
                <= severity_rank(#[trigger] ordered_upto(es, t)[j].2),
        forall|i: int| 0 <= i < ordered_upto(es, t).len() ==> severity_rank(#[trigger] ordered_upto(es, t)[i].2) <= t,
    decreases t,
{
    lemma_rank_group_rank(es, t, row_names(es));
    if t > 0 {
        law_audit_rows_by_severity(es, (t - 1) as nat);
        let a = ordered_upto(es, (t - 1) as nat);
        let b = rank_group(es, t, row_names(es));
        assert(ordered_upto(es, t) == a + b);
        assert forall|i: int| 0 <= i < (a + b).len() implies severity_rank(#[trigger] (a + b)[i].2) <= t by {
            if i >= a.len() {
                assert((a + b)[i] == b[i - a.len()]);
            } else {
                assert((a + b)[i] == a[i]);
            }
        }
        assert forall|i: int, j: int| 0 <= i < j < (a + b).len() implies severity_rank(#[trigger] (a + b)[i].2)
            <= severity_rank(#[trigger] (a + b)[j].2) by {
            if j < a.len() {
                assert((a + b)[i] == a[i] && (a + b)[j] == a[j]);
            } else if i < a.len() {
                assert((a + b)[i] == a[i]);
                assert((a + b)[j] == b[j - a.len()]);
            } else {
                assert((a + b)[i] == b[i - a.len()]);
                assert((a + b)[j] == b[j - a.len()]);
            }
        }
    }
}


// ---------------------------------------------------------------------------
// audit --fix
// ---------------------------------------------------------------------------

/// The patched ranges of the rows of a package, in order.
pub open spec fn patched_of(es: Seq<EntryV>, name: Seq<char>) -> Seq<Seq<char>>
    decreases es.len(),
{
    if es.len() == 0 {
        seq![]
    } else if es.last().0 == name {
        patched_of(es.drop_last(), name).push(es.last().5)
    } else {
        patched_of(es.drop_last(), name)
    }
}

/// A package's patched range: all its advisories' ranges merged, or the
/// row's own range where they do not merge.
pub open spec fn merged_or(ps: Seq<Seq<char>>, fallback: Seq<char>) -> Seq<char> {
    match merged_patched(ps) {
        Some(m) => m,
        None => fallback,
    }
}

/// The packages to fix, once each at its first row: name, version and
/// merged patched range.
pub open spec fn fix_targets_upto(es: Seq<EntryV>, n: int) -> Seq<(Seq<char>, Seq<char>, Seq<char>)>
    decreases n,
{
    if n <= 0 {
        seq![]
    } else {
        let prev = fix_targets_upto(es, n - 1);
        let e = es[n - 1];
        if exists|k: int| 0 <= k < n - 1 && #[trigger] es[k].0 == e.0 {
            prev
        } else {
            prev.push((e.0, e.1, merged_or(patched_of(es, e.0), e.5)))
        }
    }
}

/// Row `i` is the first row of its package.
pub open spec fn first_row(es: Seq<EntryV>, i: int) -> bool {
    forall|k: int| 0 <= k < i ==> (#[trigger] es[k]).0 != es[i].0
}

/// `t` is package and version of a first row among the first `n` rows.
pub open spec fn from_first_row(es: Seq<EntryV>, n: int, t: (Seq<char>, Seq<char>, Seq<char>)) -> bool {
    exists|i: int| 0 <= i < n && (#[trigger] es[i]).0 == t.0 && es[i].1 == t.1 && first_row(es, i)
}

/// Some target is for the package `x`.
pub open spec fn has_target(ts: Seq<(Seq<char>, Seq<char>, Seq<char>)>, x: Seq<char>) -> bool {
    exists|a: int| 0 <= a < ts.len() && (#[trigger] ts[a]).0 == x
}

proof fn lemma_fix_targets(es: Seq<EntryV>, n: int)
    requires
        0 <= n <= es.len(),
    ensures
        forall|a: int| 0 <= a < fix_targets_upto(es, n).len() ==> from_first_row(es, n, #[trigger] fix_targets_upto(es, n)[a]),
        forall|i: int| 0 <= i < n ==> has_target(fix_targets_upto(es, n), (#[trigger] es[i]).0),
        forall|a: int, b: int|
            0 <= a < b < fix_targets_upto(es, n).len() ==> (#[trigger] fix_targets_upto(es, n)[a]).0 != (
            #[trigger] fix_targets_upto(es, n)[b]).0,
    decreases n,
{
    if n > 0 {
        lemma_fix_targets(es, n - 1);
        let prev = fix_targets_upto(es, n - 1);
        let cur = fix_targets_upto(es, n);
        let e = es[n - 1];
        if exists|k: int| 0 <= k < n - 1 && #[trigger] es[k].0 == e.0 {
            let k = choose|k: int| 0 <= k < n - 1 && #[trigger] es[k].0 == e.0;
            assert(cur == prev);
            assert(has_target(prev, es[k].0));
            assert forall|a: int| 0 <= a < cur.len() implies from_first_row(es, n, #[trigger] cur[a]) by {
                assert(from_first_row(es, n - 1, prev[a]));
            }
        } else {
            let t = (e.0, e.1, merged_or(patched_of(es, e.0), e.5));
            assert(cur == prev.push(t));
            assert(first_row(es, n - 1));
            assert forall|a: int| 0 <= a < cur.len() implies from_first_row(es, n, #[trigger] cur[a]) by {
                if a < prev.len() {
                    assert(cur[a] == prev[a]);
                    assert(from_first_row(es, n - 1, prev[a]));
                } else {
                    assert(es[n - 1].0 == cur[a].0);
                }
            }
            assert forall|i: int| 0 <= i < n implies has_target(cur, (#[trigger] es[i]).0) by {
                if i == n - 1 {
                    assert(cur[prev.len() as int].0 == es[i].0);
                } else {
                    assert(has_target(prev, es[i].0));
                    let a = choose|a: int| 0 <= a < prev.len() && (#[trigger] prev[a]).0 == es[i].0;
                    assert(cur[a] == prev[a]);
                }
            }
            assert forall|a: int, b: int| 0 <= a < b < cur.len() implies (#[trigger] cur[a]).0 != (#[trigger] cur[b]).0 by {
                if b == prev.len() {
                    assert(cur[a] == prev[a]);
                    assert(from_first_row(es, n - 1, prev[a]));
                    let i = choose|i: int| 0 <= i < n - 1 && (#[trigger] es[i]).0 == prev[a].0 && es[i].1 == prev[a].1
                        && first_row(es, i);
                    if es[i].0 == e.0 {
                        assert(es[i].0 == e.0);
                    }
                } else {
                    assert(cur[a] == prev[a] && cur[b] == prev[b]);
                }
            }
        }
    }
}

/// `audit --fix` takes each vulnerable package up once: the packages it
/// tries are distinct, every package of the rows is among them, and each
/// comes with the version of its package's first row.
pub proof fn law_fix_targets(es: Seq<EntryV>)
    ensures
        forall|a: int, b: int|
            0 <= a < b < fix_targets_upto(es, es.len() as int).len() ==> (#[trigger] fix_targets_upto(
                es,
                es.len() as int,
            )[a]).0 != (#[trigger] fix_targets_upto(es, es.len() as int)[b]).0,
        forall|i: int| 0 <= i < es.len() ==> has_target(fix_targets_upto(es, es.len() as int), (#[trigger] es[i]).0),
        forall|a: int|
            0 <= a < fix_targets_upto(es, es.len() as int).len() ==> from_first_row(
                es,
                es.len() as int,
                #[trigger] fix_targets_upto(es, es.len() as int)[a],
            ),
{
    lemma_fix_targets(es, es.len() as int);
}

/// The packages that `audit --fix` tries to fix.
pub fn fix_targets(entries: &Vec<AuditEntry>) -> (r: Vec<(String, String, String)>)
    ensures
        r@.map_values(|t: (String, String, String)| (t.0@, t.1@, t.2@)) == fix_targets_upto(
            entries_v(entries@),
            entries@.len() as int,
        ),
{
    let ghost es = entries_v(entries@);
    let mut seen = StrSet::new();
    let mut out: Vec<(String, String, String)> = Vec::new();
    let mut i: usize = 0;
    while i < entries.len()
        invariant
            i <= entries.len(),
            es == entries_v(entries@),
            forall|n: Seq<char>| seen.has(n) <==> exists|k: int| 0 <= k < i && #[trigger] es[k].0 == n,
            out@.map_values(|t: (String, String, String)| (t.0@, t.1@, t.2@)) == fix_targets_upto(es, i as int),
        decreases entries.len() - i,
    {
        let e = &entries[i];
        let ghost ob = out@.map_values(|t: (String, String, String)| (t.0@, t.1@, t.2@));
        if !seen.contains(e.name.as_str()) {
            let mut patched: Vec<&str> = Vec::new();
            let mut j: usize = 0;
            proof {
                assert(es.take(0) =~= Seq::<EntryV>::empty());
            }
            while j < entries.len()
                invariant
                    j <= entries.len(),
                    es == entries_v(entries@),
                    patched@.map_values(|p: &str| p@) == patched_of(es.take(j as int), e.name@),
                decreases entries.len() - j,
            {
                proof {
                    assert(es.take(j + 1).drop_last() =~= es.take(j as int));
                    assert(es.take(j + 1).last() == es[j as int]);
                }
                if str_eq(entries[j].name.as_str(), e.name.as_str()) {
                    let ghost pb = patched@.map_values(|p: &str| p@);
                    patched.push(entries[j].patched.as_str());
                    assert(patched@.map_values(|p: &str| p@) =~= pb.push(es[j as int].5));
                }
                j += 1;
            }
            proof {
                assert(es.take(entries.len() as int) =~= es);
            }
            let merged = match merge_patched_ranges(patched.as_slice()) {
                Some(m) => m,
                None => e.patched.clone(),
            };
            out.push((e.name.clone(), e.version.clone(), merged));
            proof {
                assert(!exists|k: int| 0 <= k < i && #[trigger] es[k].0 == es[i as int].0);
                assert(out@.map_values(|t: (String, String, String)| (t.0@, t.1@, t.2@)) =~= ob.push(
                    (es[i as int].0, es[i as int].1, merged_or(patched_of(es, es[i as int].0), es[i as int].5)),
                ));
            }
            seen.insert(e.name.clone());
        } else {
            proof {
                assert(exists|k: int| 0 <= k < i && #[trigger] es[k].0 == es[i as int].0);
            }
        }
        proof {
            assert forall|n: Seq<char>| seen.has(n) <==> exists|k: int| 0 <= k < i + 1 && #[trigger] es[k].0 == n by {
                if n == es[i as int].0 {
                    assert(es[i as int].0 == n);
                }
            }
        }
        i += 1;
    }
    out
}

/// What `audit --fix` does with a package.
pub enum FixOutcome {
    Fixed(FixApplied),
    Manual(FixManual),
    /// Already at the version the fix would pick.
    UpToDate,
}

pub enum FixOutcomeV {
    /// name, from, to
    Fixed(Seq<char>, Seq<char>, Seq<char>),
    /// name, from, patched, range, reason
    Manual(Seq<char>, Seq<char>, Seq<char>, Seq<char>, Seq<char>),
    UpToDate,
}

pub open spec fn outcome_v(o: FixOutcome) -> FixOutcomeV {
    match o {
        FixOutcome::Fixed(f) => FixOutcomeV::Fixed(f.name@, f.from@, f.to@),
        FixOutcome::Manual(m) => FixOutcomeV::Manual(m.name@, m.from@, m.patched@, m.range@, m.reason@),
        FixOutcome::UpToDate => FixOutcomeV::UpToDate,
    }
}

/// The outcome for a package, given its declared range (none for a
/// transitive dependency) and the fix version the registry's versions give
/// (or the error fetching them): a transitive dependency or a failed fetch
/// is left to the user; no fix version means no patched version or none in
/// the declared range; a fix version other than the current one is applied.
pub open spec fn fix_outcome_spec(
    name: Seq<char>,
    current: Seq<char>,
    merged: Seq<char>,
    declared: Option<Seq<char>>,
    lookup: Result<Option<Seq<char>>, Seq<char>>,
) -> FixOutcomeV {
    match declared {
        None => FixOutcomeV::Manual(name, current, merged, seq![], "transitive dependency — update the parent package"@),
        Some(range) => match lookup {
            Err(e) => FixOutcomeV::Manual(name, current, merged, range, "failed to fetch metadata: "@ + e),
            Ok(Some(v)) => if v == current {
                FixOutcomeV::UpToDate
            } else {
                FixOutcomeV::Fixed(name, current, v)
            },
            Ok(None) => FixOutcomeV::Manual(
                name,
                current,
                merged,
                range,
                if merged == "<0.0.0"@ {
                    "no patched version available"@
                } else {
                    "patched version outside declared range "@ + range
                },
            ),
        },
    }
}

/// What `audit --fix` does with a vulnerable package: it applies a fix only
/// for a direct dependency whose versions could be fetched and whose fix
/// version differs from the installed one, going from the installed version
/// to that fix version; a direct dependency already at the fix version is up
/// to date; everything else is left for a manual update, which keeps the
/// package, its version and its patched range, and for a direct dependency
/// its declared range.
pub proof fn law_fix_outcome(
    name: Seq<char>,
    current: Seq<char>,
    merged: Seq<char>,
    declared: Option<Seq<char>>,
    lookup: Result<Option<Seq<char>>, Seq<char>>,
)
    ensures
        (fix_outcome_spec(name, current, merged, declared, lookup) is Fixed) <==> (declared is Some && lookup is Ok
            && lookup->Ok_0 is Some && lookup->Ok_0->Some_0 != current),
        fix_outcome_spec(name, current, merged, declared, lookup) matches FixOutcomeV::Fixed(n, f, t) ==> n == name
            && f == current && t == lookup->Ok_0->Some_0,
        (fix_outcome_spec(name, current, merged, declared, lookup) is UpToDate) <==> (declared is Some && lookup
            == Ok::<Option<Seq<char>>, Seq<char>>(Some(current))),
        fix_outcome_spec(name, current, merged, declared, lookup) matches FixOutcomeV::Manual(n, f, pt, r, _)
            ==> n == name && f == current && pt == merged && r == (if declared is Some {
            declared.unwrap()
        } else {
            Seq::<char>::empty()
        }),
        declared is None ==> fix_outcome_spec(name, current, merged, declared, lookup) is Manual,
{
}

pub open spec fn lookup_v(l: Result<Option<&str>, &str>) -> Result<Option<Seq<char>>, Seq<char>> {
    match l {
        Ok(Some(v)) => Ok(Some(v@)),
        Ok(None) => Ok(None),
        Err(e) => Err(e@),
    }
}

pub open spec fn opt_str(o: Option<&str>) -> Option<Seq<char>> {
    match o {
        Some(s) => Some(s@),
        None => None,
    }
}

/// The outcome of `audit --fix` for a package.
pub fn fix_outcome(
    name: &str,
    current: &str,
    merged: &str,
    declared: Option<&str>,
    lookup: Result<Option<&str>, &str>,
) -> (r: FixOutcome)
    ensures
        outcome_v(r) == fix_outcome_spec(name@, current@, merged@, opt_str(declared), lookup_v(lookup)),
{
    let manual = |range: &str, reason: String| -> (m: FixOutcome)
        ensures
            outcome_v(m) == FixOutcomeV::Manual(name@, current@, merged@, range@, reason@),
        {
            FixOutcome::Manual(FixManual {
                name: String::from_str(name),
                from: String::from_str(current),
                patched: String::from_str(merged),
                range: String::from_str(range),
                reason,
            })
        };
    match declared {
        None => {
            let r = manual("", String::from_str("transitive dependency — update the parent package"));
            proof {
                reveal_strlit("");
                assert(""@ =~= Seq::<char>::empty());
            }
            r
        },
        Some(range) => match lookup {
            Err(e) => {
                let mut reason = String::from_str("failed to fetch metadata: ");
                push_str(&mut reason, e);
                manual(range, reason)
            },
            Ok(Some(v)) => {
                if str_eq(v, current) {
                    FixOutcome::UpToDate
                } else {
                    FixOutcome::Fixed(FixApplied {
                        name: String::from_str(name),
                        from: String::from_str(current),
                        to: String::from_str(v),
                    })
                }
            },
            Ok(None) => {
                let reason = if str_eq(merged, "<0.0.0") {
                    String::from_str("no patched version available")
                } else {
                    let mut r = String::from_str("patched version outside declared range ");
                    push_str(&mut r, range);
                    r
                };
                manual(range, reason)
            },
        },
    }
}

/// The registry URL of a version's tarball when its metadata gives none:
/// `https://registry.npmjs.org/<name>/-/<unscoped name>-<version>.tgz`.
pub open spec fn fallback_tarball_url(name: Seq<char>, version: Seq<char>) -> Seq<char> {
    "https://registry.npmjs.org/"@ + name + "/-/"@ + unscoped(name) + "-"@ + version + ".tgz"@
}

/// What follows the last `/` of a name (the whole name where it has none).
pub open spec fn unscoped(name: Seq<char>) -> Seq<char>
    decreases name.len(),
{
    if name.len() == 0 {
        seq![]
    } else if name.last() == '/' {
        seq![]
    } else {
        unscoped(name.drop_last()).push(name.last())
    }
}

/// The tarball URL and integrity a fixed version is recorded with: those of
/// its metadata when it names a tarball, else the registry's usual URL and
/// no integrity.
pub fn version_dist(name: &str, version: &str, dist: Option<(&str, &str)>) -> (r: (String, String))
    ensures
        match dist {
            Some(d) => if d.0@.len() > 0 {
                r.0@ == d.0@ && r.1@ == d.1@
            } else {
                r.0@ == fallback_tarball_url(name@, version@) && r.1@.len() == 0
            },
            None => r.0@ == fallback_tarball_url(name@, version@) && r.1@.len() == 0,
        },
{
    match dist {
        Some((t, i)) => {
            if !t.is_empty() {
                return (String::from_str(t), String::from_str(i));
            }
        },
        None => {},
    }
    let tail = crate::pm::registry::unscoped_name(name);
    let mut url = String::from_str("https://registry.npmjs.org/");
    push_str(&mut url, name);
    push_str(&mut url, "/-/");
    push_str(&mut url, tail.as_str());
    push_str(&mut url, "-");
    push_str(&mut url, version);
    push_str(&mut url, ".tgz");
    (url, String::new())
}

} // verus!

verus! {

/// The string at `dist.<field>` of a version's metadata (empty when there
/// is none).
pub open spec fn dist_field(meta: JV, field: Seq<char>) -> Seq<char> {
    match jmember(meta, "dist"@) {
        Some(d) => match jmember(d, field) {
            Some(JV::Str(s)) => s,
            _ => Seq::empty(),
        },
        None => Seq::empty(),
    }
}

fn dist_field_of(meta: &JsonValue, field: &str) -> (r: String)
    ensures
        r@ == dist_field(jv(*meta), field@),
{
    match member(meta, "dist") {
        Some(d) => match member(d, field) {
            Some(x) => match as_str(x) {
                Some(s) => crate::text::owned(s.as_str()),
                None => String::new(),
            },
            None => String::new(),
        },
        None => String::new(),
    }
}

/// The dist a version's metadata gives, if the registry listed the version.
pub open spec fn listed_dist(version: Seq<char>, versions: Option<&StrMap<JsonValue>>) -> Option<(Seq<char>, Seq<char>)> {
    match versions {
        Some(vs) => match vs.lookup(version) {
            Some(meta) => Some((dist_field(jv(meta), "tarball"@), dist_field(jv(meta), "integrity"@))),
            None => None,
        },
        None => None,
    }
}

/// The tarball URL and integrity a fixed version is recorded with, from the
/// registry's metadata of the package's versions (`dist.tarball`,
/// `dist.integrity`), or the registry's usual URL and no integrity when the
/// metadata names no tarball.
pub fn extract_version_dist(name: &str, version: &str, versions_meta: Option<&StrMap<JsonValue>>) -> (r: (String, String))
    ensures
        match listed_dist(version@, versions_meta) {
            Some(d) => if d.0.len() > 0 {
                r.0@ == d.0 && r.1@ == d.1
            } else {
                r.0@ == fallback_tarball_url(name@, version@) && r.1@.len() == 0
            },
            None => r.0@ == fallback_tarball_url(name@, version@) && r.1@.len() == 0,
        },
{
    match versions_meta {
        Some(vs) => match vs.get(version) {
            Some(meta) => {
                let t = dist_field_of(meta, "tarball");
                let i = dist_field_of(meta, "integrity");
                version_dist(name, version, Some((t.as_str(), i.as_str())))
            },
            None => version_dist(name, version, None),
        },
        None => version_dist(name, version, None),
    }
}


proof fn lemma_rank_named_has(es: Seq<EntryV>, r: nat, n: Seq<char>, x: EntryV)
    ensures
        rank_named(es, r, n).contains(x) <==> (es.contains(x) && severity_rank(x.2) == r && x.0 == n),
    decreases es.len(),
{
    if es.len() > 0 {
        let d = es.drop_last();
        lemma_rank_named_has(d, r, n, x);
        let p = rank_named(d, r, n);
        if es.contains(x) {
            let i = choose|i: int| 0 <= i < es.len() && es[i] == x;
            if i < d.len() {
                assert(d[i] == x);
            }
        }
        if d.contains(x) {
            let i = choose|i: int| 0 <= i < d.len() && d[i] == x;
            assert(es[i] == x);
        }
        if severity_rank(es.last().2) == r && es.last().0 == n {
            let q = p.push(es.last());
            if q.contains(x) {
                let i = choose|i: int| 0 <= i < q.len() && q[i] == x;
                if i < p.len() {
                    assert(p[i] == x);
                } else {
                    assert(es[es.len() - 1] == x);
                }
            }
            if p.contains(x) {
                let i = choose|i: int| 0 <= i < p.len() && p[i] == x;
                assert(q[i] == x);
            }
            if x == es.last() {
                assert(q[p.len() as int] == x);
            }
        }
    }
}

proof fn lemma_rank_group_has(es: Seq<EntryV>, r: nat, ns: Seq<Seq<char>>, x: EntryV)
    ensures
        rank_group(es, r, ns).contains(x) <==> (es.contains(x) && severity_rank(x.2) == r && ns.contains(x.0)),
    decreases ns.len(),
{
    if ns.len() > 0 {
        let d = ns.drop_last();
        lemma_rank_group_has(es, r, d, x);
        lemma_rank_named_has(es, r, ns.last(), x);
        let a = rank_group(es, r, d);
        let b = rank_named(es, r, ns.last());
        if (a + b).contains(x) {
            let i = choose|i: int| 0 <= i < (a + b).len() && (a + b)[i] == x;
            if i < a.len() {
                assert(a[i] == x);
                let j = choose|j: int| 0 <= j < d.len() && d[j] == x.0;
                assert(ns[j] == x.0);
            } else {
                assert(b[i - a.len()] == x);
                assert(ns[ns.len() - 1] == x.0);
            }
        }
        if ns.contains(x.0) && es.contains(x) && severity_rank(x.2) == r {
            let j = choose|j: int| 0 <= j < ns.len() && ns[j] == x.0;
            if j < d.len() {
                assert(d[j] == x.0);
                let i = choose|i: int| 0 <= i < a.len() && a[i] == x;
                assert((a + b)[i] == x);
            } else {
                let i = choose|i: int| 0 <= i < b.len() && b[i] == x;
                assert((a + b)[a.len() + i] == x);
            }
        }
    }
}

proof fn lemma_row_names_has(es: Seq<EntryV>, x: EntryV)
    requires
        es.contains(x),
    ensures
        row_names(es).contains(x.0),
{
    let names = es.map_values(|e: EntryV| e.0);
    let ks = lemma_sorted_of(names);
    assert(sorted_keys(ks) && forall|n: Seq<char>| ks.contains(n) <==> names.contains(n));
    let i = choose|i: int| 0 <= i < es.len() && es[i] == x;
    assert(names[i] == x.0);
    assert(names.contains(x.0));
}

/// The report keeps exactly the rows at or above the threshold: a row is
/// listed exactly when it is one of the advisory rows and its severity's
/// rank (critical 0, high 1, moderate 2, low 3) is at most the threshold's.
pub proof fn law_audit_rows_kept(es: Seq<EntryV>, t: nat, x: EntryV)
    ensures
        ordered_upto(es, t).contains(x) <==> (es.contains(x) && severity_rank(x.2) <= t),
    decreases t,
{
    let ns = row_names(es);
    if es.contains(x) {
        lemma_row_names_has(es, x);
    }
    lemma_rank_group_has(es, t, ns, x);
    if t > 0 {
        law_audit_rows_kept(es, (t - 1) as nat, x);
        let a = ordered_upto(es, (t - 1) as nat);
        let b = rank_group(es, t, ns);
        if (a + b).contains(x) {
            let i = choose|i: int| 0 <= i < (a + b).len() && (a + b)[i] == x;
            if i < a.len() {
                assert(a[i] == x);
            } else {
                assert(b[i - a.len()] == x);
            }
        }
        if es.contains(x) && severity_rank(x.2) <= t {
            if severity_rank(x.2) < t {
                let i = choose|i: int| 0 <= i < a.len() && a[i] == x;
                assert((a + b)[i] == x);
            } else {
                let i = choose|i: int| 0 <= i < b.len() && b[i] == x;
                assert((a + b)[a.len() + i] == x);
            }
        }
    }
}

/// The number of rows not shown: the rows whose severity ranks below the
/// threshold; with the rows shown they are all the rows.
pub proof fn law_audit_below_count(es: Seq<EntryV>, t: nat)
    ensures
        count_below(es, t) == es.filter(|e: EntryV| severity_rank(e.2) > t).len(),
        count_below(es, t) + es.filter(|e: EntryV| severity_rank(e.2) <= t).len() == es.len(),
    decreases es.len(),
{
    reveal(Seq::filter);
    if es.len() > 0 {
        law_audit_below_count(es.drop_last(), t);
    }
}


proof fn lemma_filter_split(
    s: Seq<EntryV>,
    p: spec_fn(EntryV) -> bool,
    q: spec_fn(EntryV) -> bool,
    u: spec_fn(EntryV) -> bool,
)
    requires
        forall|x: EntryV| #[trigger] u(x) == (p(x) || q(x)),
        forall|x: EntryV| !(#[trigger] p(x) && q(x)),
    ensures
        s.filter(u).len() == s.filter(p).len() + s.filter(q).len(),
    decreases s.len(),
{
    reveal(Seq::filter);
    if s.len() > 0 {
        lemma_filter_split(s.drop_last(), p, q, u);
        let x = s.last();
        assert(u(x) == (p(x) || q(x)));
        assert(!(p(x) && q(x)));
    }
}

proof fn lemma_filter_same(s: Seq<EntryV>, p: spec_fn(EntryV) -> bool, q: spec_fn(EntryV) -> bool)
    requires
        forall|i: int| 0 <= i < s.len() ==> p(#[trigger] s[i]) == q(s[i]),
    ensures
        s.filter(p) == s.filter(q),
    decreases s.len(),
{
    reveal(Seq::filter);
    if s.len() > 0 {
        let d = s.drop_last();
        assert forall|i: int| 0 <= i < d.len() implies p(#[trigger] d[i]) == q(d[i]) by {
            assert(d[i] == s[i]);
        }
        lemma_filter_same(d, p, q);
        assert(p(s[s.len() - 1]) == q(s[s.len() - 1]));
    }
}

proof fn lemma_rank_named_len(es: Seq<EntryV>, r: nat, n: Seq<char>)
    ensures
        rank_named(es, r, n).len() == es.filter(|e: EntryV| severity_rank(e.2) == r && e.0 == n).len(),
    decreases es.len(),
{
    reveal(Seq::filter);
    if es.len() > 0 {
        lemma_rank_named_len(es.drop_last(), r, n);
    }
}

proof fn lemma_rank_group_len(es: Seq<EntryV>, r: nat, ns: Seq<Seq<char>>)
    requires
        ns.no_duplicates(),
    ensures
        rank_group(es, r, ns).len() == es.filter(|e: EntryV| severity_rank(e.2) == r && ns.contains(e.0)).len(),
    decreases ns.len(),
{
    let u = |e: EntryV| severity_rank(e.2) == r && ns.contains(e.0);
    if ns.len() == 0 {
        reveal(Seq::filter);
        lemma_filter_none_e(es, u);
    } else {
        let d = ns.drop_last();
        let n = ns.last();
        assert(d.no_duplicates()) by {
            assert forall|i: int, j: int| 0 <= i < d.len() && 0 <= j < d.len() && i != j implies d[i] != d[j] by {
                assert(d[i] == ns[i] && d[j] == ns[j]);
            }
        }
        lemma_rank_group_len(es, r, d);
        lemma_rank_named_len(es, r, n);
        let p = |e: EntryV| severity_rank(e.2) == r && d.contains(e.0);
        let q = |e: EntryV| severity_rank(e.2) == r && e.0 == n;
        assert forall|x: EntryV| #[trigger] u(x) == (p(x) || q(x)) by {
            if ns.contains(x.0) {
                let j = choose|j: int| 0 <= j < ns.len() && ns[j] == x.0;
                if j < d.len() {
                    assert(d[j] == x.0);
                }
            }
            if d.contains(x.0) {
                let j = choose|j: int| 0 <= j < d.len() && d[j] == x.0;
                assert(ns[j] == x.0);
            }
            if x.0 == n {
                assert(ns[ns.len() - 1] == x.0);
            }
        }
        assert forall|x: EntryV| !(#[trigger] p(x) && q(x)) by {
            if d.contains(x.0) && x.0 == n {
                let j = choose|j: int| 0 <= j < d.len() && d[j] == x.0;
                assert(ns[j] == ns[ns.len() - 1]);
            }
        }
        lemma_filter_split(es, p, q, u);
    }
}

proof fn lemma_filter_none_e(es: Seq<EntryV>, u: spec_fn(EntryV) -> bool)
    requires
        forall|x: EntryV| !#[trigger] u(x),
    ensures
        es.filter(u).len() == 0,
    decreases es.len(),
{
    reveal(Seq::filter);
    if es.len() > 0 {
        lemma_filter_none_e(es.drop_last(), u);
        assert(!u(es.last()));
    }
}

proof fn lemma_row_names_unique(es: Seq<EntryV>)
    ensures
        row_names(es).no_duplicates(),
        forall|i: int| 0 <= i < es.len() ==> row_names(es).contains((#[trigger] es[i]).0),
{
    let names = es.map_values(|e: EntryV| e.0);
    let ks = lemma_sorted_of(names);
    assert(sorted_keys(ks) && forall|n: Seq<char>| ks.contains(n) <==> names.contains(n));
    let rn = row_names(es);
    assert forall|i: int, j: int| 0 <= i < rn.len() && 0 <= j < rn.len() && i != j implies rn[i] != rn[j] by {
        crate::text::lemma_lex_irreflexive(rn[i]);
        if i < j {
            assert(crate::text::lex_lt(rn[i], rn[j]));
        } else {
            assert(crate::text::lex_lt(rn[j], rn[i]));
        }
    }
    assert forall|i: int| 0 <= i < es.len() implies rn.contains((#[trigger] es[i]).0) by {
        assert(names[i] == es[i].0);
    }
}

/// The report lists as many rows as there are rows at or above the
/// threshold: none is dropped or repeated.
pub proof fn law_audit_rows_count(es: Seq<EntryV>, t: nat)
    ensures
        ordered_upto(es, t).len() == es.filter(|e: EntryV| severity_rank(e.2) <= t).len(),
    decreases t,
{
    let rn = row_names(es);
    lemma_row_names_unique(es);
    lemma_rank_group_len(es, t, rn);
    let g = |e: EntryV| severity_rank(e.2) == t && rn.contains(e.0);
    let h = |e: EntryV| severity_rank(e.2) == t;
    assert forall|i: int| 0 <= i < es.len() implies g(#[trigger] es[i]) == h(es[i]) by {
        assert(rn.contains(es[i].0));
    }
    lemma_filter_same(es, g, h);
    if t == 0 {
        lemma_filter_same(es, h, |e: EntryV| severity_rank(e.2) <= t);
    } else {
        law_audit_rows_count(es, (t - 1) as nat);
        let p = |e: EntryV| severity_rank(e.2) <= (t - 1) as nat;
        let u = |e: EntryV| severity_rank(e.2) <= t;
        assert forall|x: EntryV| #[trigger] u(x) == (p(x) || h(x)) by {}
        assert forall|x: EntryV| !(#[trigger] p(x) && h(x)) by {}
        lemma_filter_split(es, p, h, u);
    }
}

} // verus!
