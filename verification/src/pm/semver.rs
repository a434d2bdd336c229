//! Semantic-version ranges and versions, as `node_semver` parses and
//! compares them. What `node_semver` computes is named here; the package
//! manager's logic is stated over these names.

use vstd::prelude::*;
use crate::pm::listing::opt_view;
use crate::smap::StrMap;

verus! {

/// Whether `node_semver::Range::parse` accepts the text.
pub uninterp spec fn semver_range_parses(range: Seq<char>) -> bool;

/// Whether `node_semver::Version::parse` accepts the text.
pub uninterp spec fn semver_version_parses(version: Seq<char>) -> bool;

/// Whether the parsed version satisfies the parsed range.
pub uninterp spec fn semver_satisfies(range: Seq<char>, version: Seq<char>) -> bool;

/// Whether the first parsed version is greater than the second in
/// `node_semver`'s version order.
pub uninterp spec fn semver_gt(a: Seq<char>, b: Seq<char>) -> bool;

/// `node_semver::Range::parse(range).is_ok()`. Its result is named, as a
/// function of the text alone.
#[verifier::external_body]
pub fn range_parses(range: &str) -> (b: bool)
    ensures
        b == semver_range_parses(range@),
{
    node_semver::Range::parse(range).is_ok()
}

/// `node_semver::Version::parse(version).is_ok()`. Its result is named, as
/// a function of the text alone.
#[verifier::external_body]
pub fn version_parses(version: &str) -> (b: bool)
    ensures
        b == semver_version_parses(version@),
{
    node_semver::Version::parse(version).is_ok()
}

/// `Range::satisfies` on the parsed range and version; both parse, by the
/// `requires`. Its result is named, as a function of the two texts alone.
#[verifier::external_body]
pub fn range_satisfies(range: &str, version: &str) -> (b: bool)
    requires
        semver_range_parses(range@),
        semver_version_parses(version@),
    ensures
        b == semver_satisfies(range@, version@),
{
    match (node_semver::Range::parse(range), node_semver::Version::parse(version)) {
        (Ok(r), Ok(v)) => r.satisfies(&v),
        _ => false,
    }
}

/// `>` on two parsed versions (`node_semver::Version`'s `Ord`); both parse,
/// by the `requires`. Its result is named, as a function of the two texts
/// alone. `Ord` orders the versions totally, so when `a > b` holds, `b > a`
/// does not, and every version above `a` is above `b`.
#[verifier::external_body]
pub fn version_gt(a: &str, b: &str) -> (r: bool)
    requires
        semver_version_parses(a@),
        semver_version_parses(b@),
    ensures
        r == semver_gt(a@, b@),
        r ==> !semver_gt(b@, a@),
        r ==> forall|c: Seq<char>| semver_version_parses(c) && #[trigger] semver_gt(c, a@) ==> semver_gt(c, b@),
{
    match (node_semver::Version::parse(a), node_semver::Version::parse(b)) {
        (Ok(x), Ok(y)) => x > y,
        _ => false,
    }
}

/// The text parses as a version satisfying every range of `ranges`.
pub open spec fn satisfies_all(ranges: Seq<Seq<char>>, v: Seq<char>) -> bool {
    &&& semver_version_parses(v)
    &&& forall|i: int| 0 <= i < ranges.len() ==> semver_satisfies(#[trigger] ranges[i], v)
}

/// The highest of `ks` that satisfies every range, the first of equal ones.
pub open spec fn highest_satisfying(ranges: Seq<Seq<char>>, ks: Seq<Seq<char>>) -> Option<Seq<char>>
    decreases ks.len(),
{
    if ks.len() == 0 {
        None
    } else {
        let b = highest_satisfying(ranges, ks.drop_last());
        let k = ks.last();
        if !satisfies_all(ranges, k) {
            b
        } else {
            match b {
                None => Some(k),
                Some(x) => if semver_gt(k, x) {
                    Some(k)
                } else {
                    b
                },
            }
        }
    }
}

/// Whether `v` parses and satisfies every range (each of which parses).
fn satisfies_all_exec(ranges: &[&str], v: &str) -> (b: bool)
    requires
        forall|i: int| 0 <= i < ranges@.len() ==> semver_range_parses(#[trigger] ranges@[i]@),
    ensures
        b == satisfies_all(ranges@.map_values(|r: &str| r@), v@),
{
    let ghost rs = ranges@.map_values(|r: &str| r@);
    if !version_parses(v) {
        return false;
    }
    let mut i: usize = 0;
    while i < ranges.len()
        invariant
            i <= ranges.len(),
            rs == ranges@.map_values(|r: &str| r@),
            semver_version_parses(v@),
            forall|i: int| 0 <= i < ranges@.len() ==> semver_range_parses(#[trigger] ranges@[i]@),
            forall|j: int| 0 <= j < i ==> semver_satisfies(#[trigger] rs[j], v@),
        decreases ranges.len() - i,
    {
        assert(rs[i as int] == ranges@[i as int]@);
        if !range_satisfies(ranges[i], v) {
            return false;
        }
        i += 1;
    }
    true
}

/// The highest key of `versions` satisfying every range (each of which
/// parses), the first of equal ones.
pub fn highest_satisfying_key<V>(ranges: &[&str], versions: &StrMap<V>) -> (r: Option<String>)
    requires
        forall|i: int| 0 <= i < ranges@.len() ==> semver_range_parses(#[trigger] ranges@[i]@),
    ensures
        opt_view(r) == highest_satisfying(ranges@.map_values(|r: &str| r@), versions.kseq()),
        r matches Some(x) ==> forall|j: int|
            0 <= j < versions.kseq().len() && satisfies_all(
                ranges@.map_values(|r: &str| r@),
                #[trigger] versions.kseq()[j],
            ) && versions.kseq()[j] != x@ ==> !semver_gt(versions.kseq()[j], x@),
{
    let ghost rs = ranges@.map_values(|r: &str| r@);
    let ghost ks = versions.kseq();
    let mut best: Option<String> = None;
    let mut i: usize = 0;
    while i < versions.len()
        invariant
            i <= ks.len(),
            ks == versions.kseq(),
            rs == ranges@.map_values(|r: &str| r@),
            forall|i: int| 0 <= i < ranges@.len() ==> semver_range_parses(#[trigger] ranges@[i]@),
            opt_view(best) == highest_satisfying(rs, ks.take(i as int)),
            best matches Some(b) ==> semver_version_parses(b@),
            best matches Some(b) ==> forall|j: int|
                0 <= j < i && satisfies_all(rs, #[trigger] ks[j]) && ks[j] != b@ ==> !semver_gt(ks[j], b@),
        decreases ks.len() - i,
    {
        let key = versions.key_at(i);
        proof {
            assert(ks.take(i + 1).drop_last() =~= ks.take(i as int));
            assert(ks.take(i + 1).last() == key@);
            law_highest_satisfying(rs, ks.take(i as int));
            if best is None {
                assert forall|j: int| 0 <= j < i implies !satisfies_all(rs, #[trigger] ks[j]) by {
                    assert(ks.take(i as int)[j] == ks[j]);
                }
            }
        }
        let ghost old_best = best;
        if satisfies_all_exec(ranges, key.as_str()) {
            let better = match &best {
                None => true,
                Some(b) => version_gt(key.as_str(), b.as_str()),
            };
            if better {
                best = Some(key.clone());
                proof {
                    assert forall|j: int|
                        0 <= j < i + 1 && satisfies_all(rs, #[trigger] ks[j]) && ks[j] != key@ implies !semver_gt(
                        ks[j],
                        key@,
                    ) by {
                        if old_best is Some {
                            let x = old_best.unwrap()@;
                            if ks[j] == x {
                                assert(!semver_gt(x, key@));
                            } else if semver_gt(ks[j], key@) {
                                assert(semver_gt(ks[j], x));
                            }
                        }
                    }
                }
            }
        }
        i += 1;
    }
    proof {
        assert(ks.take(ks.len() as int) =~= ks);
    }
    best
}


/// What the highest satisfying key is: none exactly when no key satisfies
/// every range; otherwise a key that does, and, where `semver_gt` orders the
/// satisfying keys (never `a > a`, and `a > b > c` gives `a > c`), no
/// satisfying key is greater than it.
pub proof fn law_highest_satisfying(ranges: Seq<Seq<char>>, ks: Seq<Seq<char>>)
    ensures
        highest_satisfying(ranges, ks) is None <==> (forall|i: int|
            0 <= i < ks.len() ==> !satisfies_all(ranges, #[trigger] ks[i])),
        highest_satisfying(ranges, ks) matches Some(x) ==> ks.contains(x) && satisfies_all(ranges, x),
        (forall|a: Seq<char>| satisfies_all(ranges, a) ==> !semver_gt(a, a)) && (forall|
            a: Seq<char>,
            b: Seq<char>,
            c: Seq<char>,
        |
            #![trigger semver_gt(a, b), semver_gt(b, c)]
            satisfies_all(ranges, a) && satisfies_all(ranges, b) && satisfies_all(ranges, c) && semver_gt(a, b)
                && semver_gt(b, c) ==> semver_gt(a, c)) ==> (highest_satisfying(ranges, ks) matches Some(x)
            ==> forall|i: int|
            0 <= i < ks.len() && satisfies_all(ranges, #[trigger] ks[i]) ==> !semver_gt(ks[i], x)),
    decreases ks.len(),
{
    if ks.len() > 0 {
        let p = ks.drop_last();
        let k = ks.last();
        law_highest_satisfying(ranges, p);
        assert forall|i: int| 0 <= i < p.len() implies #[trigger] p[i] == ks[i] by {}
        assert(ks[ks.len() - 1] == k);
        let b = highest_satisfying(ranges, p);
        let h = highest_satisfying(ranges, ks);
        if b is Some {
            let x = b.unwrap();
            assert(p.contains(x));
            let j = choose|j: int| 0 <= j < p.len() && p[j] == x;
            assert(ks[j] == x);
        }
        if h is None {
            assert forall|i: int| 0 <= i < ks.len() implies !satisfies_all(ranges, #[trigger] ks[i]) by {
                if i < p.len() {
                    assert(p[i] == ks[i]);
                }
            }
        }
        if h is Some && h == Some(k) {
            assert(ks.contains(k));
        }
        if (forall|a: Seq<char>| satisfies_all(ranges, a) ==> !semver_gt(a, a)) && (forall|
            a: Seq<char>,
            b: Seq<char>,
            c: Seq<char>,
        |
            #![trigger semver_gt(a, b), semver_gt(b, c)]
            satisfies_all(ranges, a) && satisfies_all(ranges, b) && satisfies_all(ranges, c) && semver_gt(a, b)
                && semver_gt(b, c) ==> semver_gt(a, c)) && h is Some {
            let x = h.unwrap();
            assert forall|i: int| 0 <= i < ks.len() && satisfies_all(ranges, #[trigger] ks[i]) implies !semver_gt(
                ks[i],
                x,
            ) by {
                if i < p.len() {
                    assert(p[i] == ks[i]);
                    if b is Some && h != b {
                        let y = b.unwrap();
                        assert(x == k && semver_gt(k, y));
                        assert(!semver_gt(p[i], y));
                        if semver_gt(ks[i], k) {
                            assert(semver_gt(ks[i], y));
                        }
                    }
                } else {
                    assert(ks[i] == k);
                }
            }
        }
    }
}

} // verus!
