//! Decisions of `vertz install` and `vertz update`.

use vstd::prelude::*;
use crate::pm::config::str_vals;
use crate::pm::types::{spec_key_of, Lockfile};
use crate::smap::StrMap;
use crate::text::{owned, push_str, str_starts_with};

verus! {

/// The error of `--frozen` when a dependency is not in the lockfile.
pub open spec fn frozen_msg(name: Seq<char>, range: Seq<char>) -> Seq<char> {
    "error: lockfile is out of date\n  "@ + name + " \""@ + range
        + "\" not found in vertz.lock\n  Run `vertz install` to update"@
}

/// Verify lockfile matches the given merged deps map (used after workspace
/// dep merging): every dependency, with its range, is locked; otherwise the
/// first one (in name order) that is not is reported.
pub fn verify_frozen_deps(all_deps: &StrMap<String>, lockfile: &Lockfile) -> (r: Result<(), String>)
    ensures
        match r {
            Ok(()) => forall|i: int|
                0 <= i < all_deps.size() ==> lockfile.entries.has(
                    spec_key_of(#[trigger] all_deps.kseq()[i], str_vals(all_deps)[i]),
                ),
            Err(e) => exists|i: int|
                0 <= i < all_deps.size() && !lockfile.entries.has(
                    spec_key_of(#[trigger] all_deps.kseq()[i], str_vals(all_deps)[i]),
                ) && (forall|j: int|
                    0 <= j < i ==> lockfile.entries.has(
                        spec_key_of(#[trigger] all_deps.kseq()[j], str_vals(all_deps)[j]),
                    )) && e@ == frozen_msg(all_deps.kseq()[i], str_vals(all_deps)[i]),
        },
{
    proof {
        all_deps.lemma_sizes();
    }
    let n = all_deps.len();
    let mut i: usize = 0;
    while i < n
        invariant
            i <= n,
            n == all_deps.size(),
            all_deps.kseq().len() == str_vals(all_deps).len(),
            forall|j: int|
                0 <= j < i ==> lockfile.entries.has(
                    spec_key_of(#[trigger] all_deps.kseq()[j], str_vals(all_deps)[j]),
                ),
        decreases n - i,
    {
        let name = all_deps.key_at(i);
        let range = all_deps.value_at(i);
        let key = Lockfile::spec_key(name.as_str(), range.as_str());
        if !lockfile.entries.contains_key(key.as_str()) {
            let mut msg = owned("error: lockfile is out of date\n  ");
            push_str(&mut msg, name.as_str());
            push_str(&mut msg, " \"");
            push_str(&mut msg, range.as_str());
            push_str(&mut msg, "\" not found in vertz.lock\n  Run `vertz install` to update");
            proof {
                reveal_strlit("error: lockfile is out of date\n  ");
                reveal_strlit(" \"");
                reveal_strlit("\" not found in vertz.lock\n  Run `vertz install` to update");
                assert(str_vals(all_deps)[i as int] == range@);
                assert(msg@ =~= frozen_msg(all_deps.kseq()[i as int], str_vals(all_deps)[i as int]));
            }
            return Err(msg);
        }
        proof {
            assert(str_vals(all_deps)[i as int] == range@);
        }
        i += 1;
    }
    Ok(())
}

} // verus!

verus! {

/// What install does first for a GitHub dependency.
#[derive(Debug)]
pub enum GithubStep {
    /// Rebuild the package from the lockfile entry under this key.
    Locked(String),
    /// Resolve the reference through the GitHub API (name, range).
    Resolve(String, String),
}

/// A step as chars.
pub enum GithubStepV {
    Locked(Seq<char>),
    Resolve(Seq<char>, Seq<char>),
}

pub open spec fn step_v(s: GithubStep) -> GithubStepV {
    match s {
        GithubStep::Locked(k) => GithubStepV::Locked(k@),
        GithubStep::Resolve(n, r) => GithubStepV::Resolve(n@, r@),
    }
}

/// The steps for the first `n` dependencies (in name order): a `github:`
/// range that the lockfile holds is rebuilt from it; one it does not hold
/// is resolved, unless the install is frozen (the lockfile check has
/// already refused it then); other ranges take no step.
pub open spec fn github_plan_upto(deps: &StrMap<String>, lock: Lockfile, frozen: bool, n: nat) -> Seq<GithubStepV>
    decreases n,
{
    if n == 0 {
        Seq::empty()
    } else {
        let rest = github_plan_upto(deps, lock, frozen, (n - 1) as nat);
        let name = deps.kseq()[n - 1];
        let range = str_vals(deps)[n - 1];
        if "github:"@.is_prefix_of(range) {
            if lock.entries.has(spec_key_of(name, range)) {
                rest.push(GithubStepV::Locked(spec_key_of(name, range)))
            } else if !frozen {
                rest.push(GithubStepV::Resolve(name, range))
            } else {
                rest
            }
        } else {
            rest
        }
    }
}

/// The GitHub dependencies install takes care of before resolving the rest.
pub fn github_plan(all_deps: &StrMap<String>, lockfile: &Lockfile, frozen: bool) -> (r: Vec<GithubStep>)
    ensures
        r@.map_values(|s: GithubStep| step_v(s)) == github_plan_upto(all_deps, *lockfile, frozen, all_deps.size()),
{
    proof {
        all_deps.lemma_sizes();
    }
    let n = all_deps.len();
    let mut out: Vec<GithubStep> = Vec::new();
    let mut i: usize = 0;
    while i < n
        invariant
            i <= n,
            n == all_deps.size(),
            all_deps.kseq().len() == str_vals(all_deps).len(),
            out@.map_values(|s: GithubStep| step_v(s)) == github_plan_upto(all_deps, *lockfile, frozen, i as nat),
        decreases n - i,
    {
        let name = all_deps.key_at(i);
        let range = all_deps.value_at(i);
        proof {
            assert(str_vals(all_deps)[i as int] == range@);
        }
        let ghost before = out@;
        if str_starts_with(range.as_str(), "github:") {
            let key = Lockfile::spec_key(name.as_str(), range.as_str());
            if lockfile.entries.contains_key(key.as_str()) {
                out.push(GithubStep::Locked(key));
                proof {
                    assert(out@.map_values(|s: GithubStep| step_v(s)) =~= before.map_values(
                        |s: GithubStep| step_v(s),
                    ).push(step_v(out@.last())));
                }
            } else if !frozen {
                out.push(GithubStep::Resolve(owned(name.as_str()), owned(range.as_str())));
                proof {
                    assert(out@.map_values(|s: GithubStep| step_v(s)) =~= before.map_values(
                        |s: GithubStep| step_v(s),
                    ).push(step_v(out@.last())));
                }
            }
        }
        i += 1;
    }
    out
}

/// `Override: <target>@<range> → <forced> (forced by overrides["<pattern>"])`,
/// the line install prints for an override it applied.
pub fn override_applied_message(target: &str, original_range: &str, forced_version: &str, pattern: &str) -> (r: String)
    ensures
        r@ == "Override: "@ + target@ + "@"@ + original_range@ + " \u{2192} "@ + forced_version@
            + " (forced by overrides[\""@ + pattern@ + "\"])"@,
{
    let mut r = owned("Override: ");
    push_str(&mut r, target);
    push_str(&mut r, "@");
    push_str(&mut r, original_range);
    push_str(&mut r, " \u{2192} ");
    push_str(&mut r, forced_version);
    push_str(&mut r, " (forced by overrides[\"");
    push_str(&mut r, pattern);
    push_str(&mut r, "\"])");
    r
}

/// The warning when an optional dependency cannot be resolved.
pub fn optional_failure_warning(name: &str, error: &str) -> (r: String)
    ensures
        r@ == "optional dependency "@ + name@ + " failed to resolve: "@ + error@,
{
    let mut r = owned("optional dependency ");
    push_str(&mut r, name);
    push_str(&mut r, " failed to resolve: ");
    push_str(&mut r, error);
    r
}

} // verus!
