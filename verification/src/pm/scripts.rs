//! Lifecycle scripts: which installed packages have a postinstall script,
//! and what a script's run comes to.

use vstd::prelude::*;
use crate::pm::types::{ResolvedGraph, ResolvedPackage};
use crate::pm::why::lemma_sorted_unique;
use crate::smap::{sorted_keys, StrMap, StrSet};
use crate::text::{dec, lemma_lex_asymmetric, lemma_lex_irreflexive, lemma_lex_total, lemma_lex_transitive, lex_lt, owned, push_dec, push_str, str_eq};

verus! {

/// The outcome of running one lifecycle script.
pub struct ScriptResult {
    pub name: String,
    pub success: bool,
    pub duration_ms: u64,
    pub stdout: String,
    pub stderr: String,
    pub error: Option<String>,
}

/// The scripts, if any, hold a `postinstall` script.
pub open spec fn has_postinstall_spec(scripts: Option<&StrMap<String>>) -> bool {
    match scripts {
        Some(s) => s.has("postinstall"@),
        None => false,
    }
}

/// Whether a package's scripts include `postinstall`.
pub fn has_postinstall(scripts: &Option<StrMap<String>>) -> (b: bool)
    ensures
        b == (match scripts {
            Some(s) => s.has("postinstall"@),
            None => false,
        }),
{
    match scripts {
        Some(s) => s.contains_key("postinstall"),
        None => false,
    }
}

/// A package with a postinstall script: (name, version, script).
pub type PostV = (Seq<char>, Seq<char>, Seq<char>);

/// The packages of `pkgs` (in order) whose scripts, under `name@version`,
/// include `postinstall`.
pub open spec fn postinstall_candidates(pkgs: Seq<ResolvedPackage>, scripts: &StrMap<StrMap<String>>) -> Seq<PostV>
    decreases pkgs.len(),
{
    if pkgs.len() == 0 {
        seq![]
    } else {
        let rest = postinstall_candidates(pkgs.drop_last(), scripts);
        let p = pkgs.last();
        match scripts.lookup(p.name@ + "@"@ + p.version@) {
            Some(s) => match s.lookup("postinstall"@) {
                Some(script) => rest.push((p.name@, p.version@, script@)),
                None => rest,
            },
            None => rest,
        }
    }
}

/// The entries named `n`, in order.
pub open spec fn named(es: Seq<PostV>, n: Seq<char>) -> Seq<PostV>
    decreases es.len(),
{
    if es.len() == 0 {
        seq![]
    } else if es.last().0 == n {
        named(es.drop_last(), n).push(es.last())
    } else {
        named(es.drop_last(), n)
    }
}

/// The entries grouped by the names `ns`, in that order, each group in the
/// entries' order.
pub open spec fn grouped_by(es: Seq<PostV>, ns: Seq<Seq<char>>) -> Seq<PostV>
    decreases ns.len(),
{
    if ns.len() == 0 {
        seq![]
    } else {
        grouped_by(es, ns.drop_last()) + named(es, ns.last())
    }
}

/// The names of the entries, each once, in increasing order.
pub open spec fn name_order(es: Seq<PostV>) -> Seq<Seq<char>> {
    choose|ns: Seq<Seq<char>>|
        sorted_keys(ns) && forall|n: Seq<char>| ns.contains(n) <==> es.map_values(|e: PostV| e.0).contains(n)
}

/// The entries stably sorted by name.
pub open spec fn sorted_by_name(es: Seq<PostV>) -> Seq<PostV> {
    grouped_by(es, name_order(es))
}

pub open spec fn post_v(t: (String, String, String)) -> PostV {
    (t.0@, t.1@, t.2@)
}

/// Collect packages that have postinstall scripts from a resolved graph,
/// sorted by name (packages of one name in graph order).
pub fn packages_with_postinstall(
    graph: &ResolvedGraph,
    scripts: &StrMap<StrMap<String>>,
) -> (r: Vec<(String, String, String)>)
    ensures
        r@.map_values(|t: (String, String, String)| post_v(t)) == sorted_by_name(
            postinstall_candidates(graph.packages.vseq(), scripts),
        ),
{
    let ghost pkgs = graph.packages.vseq();
    let mut found: Vec<(String, String, String)> = Vec::new();
    let mut i: usize = 0;
    proof {
        graph.packages.lemma_sizes();
    }
    while i < graph.packages.len()
        invariant
            i <= pkgs.len(),
            pkgs == graph.packages.vseq(),
            pkgs.len() == graph.packages.size(),
            found@.map_values(|t: (String, String, String)| post_v(t)) == postinstall_candidates(
                pkgs.take(i as int),
                scripts,
            ),
        decreases pkgs.len() - i,
    {
        let pkg = graph.packages.value_at(i);
        proof {
            assert(pkgs.take(i + 1).drop_last() =~= pkgs.take(i as int));
            assert(pkgs.take(i + 1).last() == *pkg);
        }
        let mut key = pkg.name.clone();
        push_str(&mut key, "@");
        push_str(&mut key, pkg.version.as_str());
        let ghost fb = found@;
        if let Some(pkg_scripts) = scripts.get(key.as_str()) {
            if let Some(post) = pkg_scripts.get("postinstall") {
                found.push((pkg.name.clone(), pkg.version.clone(), post.clone()));
                proof {
                    assert(found@.map_values(|t: (String, String, String)| post_v(t)) =~= fb.map_values(
                        |t: (String, String, String)| post_v(t),
                    ).push((pkg.name@, pkg.version@, post@)));
                }
            }
        }
        proof {
            reveal_strlit("@");
        }
        i += 1;
    }
    proof {
        assert(pkgs.take(pkgs.len() as int) =~= pkgs);
    }
    let ghost es = found@.map_values(|t: (String, String, String)| post_v(t));
    let mut names = StrSet::new();
    let mut j: usize = 0;
    while j < found.len()
        invariant
            j <= found.len(),
            es == found@.map_values(|t: (String, String, String)| post_v(t)),
            forall|n: Seq<char>| names.has(n) <==> es.take(j as int).map_values(|e: PostV| e.0).contains(n),
        decreases found.len() - j,
    {
        names.insert(found[j].0.clone());
        proof {
            assert forall|n: Seq<char>| names.has(n) <==> es.take(j + 1).map_values(|e: PostV| e.0).contains(n) by {
                let a = es.take(j as int).map_values(|e: PostV| e.0);
                let b = es.take(j + 1).map_values(|e: PostV| e.0);
                assert(b =~= a.push(es[j as int].0));
                if a.contains(n) {
                    let k = choose|k: int| 0 <= k < a.len() && a[k] == n;
                    assert(b[k] == n);
                }
                if b.contains(n) && n != es[j as int].0 {
                    let k = choose|k: int| 0 <= k < b.len() && b[k] == n;
                    assert(a[k] == n);
                }
                if n == es[j as int].0 {
                    assert(b[j as int] == n);
                }
            }
        }
        j += 1;
    }
    proof {
        assert(es.take(found.len() as int) =~= es);
    }
    names.elems_sorted();
    proof {
        let ns = names.elems();
        let order = name_order(es);
        assert(sorted_keys(ns));
        assert forall|n: Seq<char>| ns.contains(n) <==> es.map_values(|e: PostV| e.0).contains(n) by {
            assert(names.has(n) <==> es.take(found.len() as int).map_values(|e: PostV| e.0).contains(n));
        }
        lemma_sorted_unique(ns, order);
    }
    let mut out: Vec<(String, String, String)> = Vec::new();
    let mut k: usize = 0;
    while k < names.len()
        invariant
            k <= names.elems().len(),
            es == found@.map_values(|t: (String, String, String)| post_v(t)),
            out@.map_values(|t: (String, String, String)| post_v(t)) == grouped_by(es, names.elems().take(k as int)),
        decreases names.elems().len() - k,
    {
        let n = names.at(k);
        let ghost ob = out@.map_values(|t: (String, String, String)| post_v(t));
        proof {
            assert(names.elems().take(k + 1).drop_last() =~= names.elems().take(k as int));
            assert(names.elems().take(k + 1).last() == n@);
        }
        let mut m: usize = 0;
        while m < found.len()
            invariant
                m <= found.len(),
                es == found@.map_values(|t: (String, String, String)| post_v(t)),
                out@.map_values(|t: (String, String, String)| post_v(t)) == ob + named(es.take(m as int), n@),
            decreases found.len() - m,
        {
            proof {
                assert(es.take(m + 1).drop_last() =~= es.take(m as int));
                assert(es.take(m + 1).last() == es[m as int]);
            }
            let ghost o2 = out@;
            if str_eq(found[m].0.as_str(), n.as_str()) {
                let t = &found[m];
                out.push((t.0.clone(), t.1.clone(), t.2.clone()));
                proof {
                    assert(out@.map_values(|t: (String, String, String)| post_v(t)) =~= o2.map_values(
                        |t: (String, String, String)| post_v(t),
                    ).push(es[m as int]));
                }
            }
            m += 1;
        }
        proof {
            assert(es.take(found.len() as int) =~= es);
        }
        k += 1;
    }
    proof {
        assert(names.elems().take(names.elems().len() as int) =~= names.elems());
    }
    out
}

} // verus!

verus! {

/// How long a script may run, in seconds.
pub const SCRIPT_TIMEOUT_SECS: u64 = 60;

/// What running a script gave: its output and exit code, or the reason it
/// did not run to the end.
pub enum ScriptRun {
    Finished { stdout: String, stderr: String, exit_code: i32 },
    Failed(String),
}

/// A signed number in decimal.
pub open spec fn sdec(n: int) -> Seq<char> {
    if n < 0 {
        "-"@ + dec((-n) as nat)
    } else {
        dec(n as nat)
    }
}

/// Appends `n` in decimal.
pub fn push_signed(s: &mut String, n: i32)
    ensures
        final(s)@ == old(s)@ + sdec(n as int),
{
    if n < 0 {
        push_str(s, "-");
        let m: u64 = (-(n as i64)) as u64;
        push_dec(s, m);
        assert(old(s)@ + "-"@ + dec(m as nat) =~= old(s)@ + sdec(n as int));
    } else {
        push_dec(s, n as u64);
    }
}

/// The error text of a script that could not be started.
pub fn start_failure_message(error: &str) -> (r: String)
    ensures
        r@ == "failed to execute: "@ + error@,
{
    let mut r = owned("failed to execute: ");
    push_str(&mut r, error);
    r
}

/// The error text of a script stopped at the timeout.
pub fn timeout_message(secs: u64) -> (r: String)
    ensures
        r@ == "timed out after "@ + dec(secs as nat) + "s"@,
{
    let mut r = owned("timed out after ");
    push_dec(&mut r, secs);
    push_str(&mut r, "s");
    r
}

/// The result of a postinstall script that ran: success on exit code 0;
/// else an error naming the code and `name@version`; a run that did not
/// finish keeps its reason and no output.
pub fn postinstall_result(name: &str, version: &str, run: ScriptRun, duration_ms: u64) -> (r: ScriptResult)
    ensures
        r.name@ == name@,
        r.duration_ms == duration_ms,
        match run {
            ScriptRun::Finished { stdout, stderr, exit_code } => {
                &&& r.success == (exit_code == 0)
                &&& r.stdout@ == stdout@
                &&& r.stderr@ == stderr@
                &&& if exit_code == 0 {
                    r.error is None
                } else {
                    r.error matches Some(e) && e@ == "script exited with code "@ + sdec(exit_code as int) + " ("@
                        + name@ + "@"@ + version@ + ")"@
                }
            },
            ScriptRun::Failed(reason) => {
                &&& !r.success
                &&& r.stdout@.len() == 0
                &&& r.stderr@.len() == 0
                &&& r.error matches Some(e) && e@ == reason@
            },
        },
{
    match run {
        ScriptRun::Finished { stdout, stderr, exit_code } => {
            if exit_code == 0 {
                ScriptResult { name: owned(name), success: true, duration_ms, stdout, stderr, error: None }
            } else {
                let mut m = owned("script exited with code ");
                push_signed(&mut m, exit_code);
                push_str(&mut m, " (");
                push_str(&mut m, name);
                push_str(&mut m, "@");
                push_str(&mut m, version);
                push_str(&mut m, ")");
                ScriptResult { name: owned(name), success: false, duration_ms, stdout, stderr, error: Some(m) }
            }
        },
        ScriptRun::Failed(reason) => ScriptResult {
            name: owned(name),
            success: false,
            duration_ms,
            stdout: String::new(),
            stderr: String::new(),
            error: Some(reason),
        },
    }
}

/// The result for a package whose directory is not in node_modules.
pub fn missing_dir_result(name: &str, dir: &str) -> (r: ScriptResult)
    ensures
        r.name@ == name@,
        !r.success,
        r.duration_ms == 0,
        r.stdout@.len() == 0,
        r.stderr@.len() == 0,
        r.error matches Some(e) && e@ == "package directory not found: "@ + dir@,
{
    let mut m = owned("package directory not found: ");
    push_str(&mut m, dir);
    ScriptResult {
        name: owned(name),
        success: false,
        duration_ms: 0,
        stdout: String::new(),
        stderr: String::new(),
        error: Some(m),
    }
}

/// What a lifecycle script's run means for the command: nothing on exit
/// code 0; else the error `<script> script exited with code <n>`, or the
/// reason it did not finish.
pub fn lifecycle_outcome(script_name: &str, run: &ScriptRun) -> (r: Result<(), String>)
    ensures
        match *run {
            ScriptRun::Finished { exit_code, .. } => if exit_code == 0 {
                r is Ok
            } else {
                r matches Err(e) && e@ == script_name@ + " script exited with code "@ + sdec(exit_code as int)
            },
            ScriptRun::Failed(reason) => r matches Err(e) && e@ == reason@,
        },
{
    match run {
        ScriptRun::Finished { exit_code, .. } => {
            if *exit_code == 0 {
                Ok(())
            } else {
                let mut m = owned(script_name);
                push_str(&mut m, " script exited with code ");
                push_signed(&mut m, *exit_code);
                Err(m)
            }
        },
        ScriptRun::Failed(reason) => Err(owned(reason.as_str())),
    }
}

} // verus!

verus! {

proof fn lemma_named(es: Seq<PostV>, n: Seq<char>)
    ensures
        forall|i: int| 0 <= i < named(es, n).len() ==> (#[trigger] named(es, n)[i]).0 == n,
        forall|x: PostV| #[trigger] named(es, n).to_multiset().count(x) == if x.0 == n {
            es.to_multiset().count(x)
        } else {
            0
        },
    decreases es.len(),
{
    broadcast use vstd::seq_lib::group_to_multiset_ensures;
    if es.len() == 0 {
        assert(named(es, n).to_multiset() =~= vstd::multiset::Multiset::<PostV>::empty());
        assert(es.to_multiset() =~= vstd::multiset::Multiset::<PostV>::empty());
    } else {
        let p = es.drop_last();
        lemma_named(p, n);
        assert(p.push(es.last()) =~= es);
        if es.last().0 == n {
            assert(named(p, n).push(es.last()) == named(es, n));
        }
    }
}

proof fn lemma_grouped(es: Seq<PostV>, ns: Seq<Seq<char>>)
    requires
        sorted_keys(ns),
    ensures
        forall|i: int| 0 <= i < grouped_by(es, ns).len() ==> ns.contains((#[trigger] grouped_by(es, ns)[i]).0),
        forall|i: int, j: int|
            0 <= i < j < grouped_by(es, ns).len() ==> !lex_lt(
                (#[trigger] grouped_by(es, ns)[j]).0,
                (#[trigger] grouped_by(es, ns)[i]).0,
            ),
        forall|x: PostV| #[trigger] grouped_by(es, ns).to_multiset().count(x) == if ns.contains(x.0) {
            es.to_multiset().count(x)
        } else {
            0
        },
    decreases ns.len(),
{
    broadcast use vstd::seq_lib::group_to_multiset_ensures;
    if ns.len() == 0 {
        assert(grouped_by(es, ns).to_multiset() =~= vstd::multiset::Multiset::<PostV>::empty());
    } else {
        let q = ns.drop_last();
        let last = ns.last();
        assert(sorted_keys(q)) by {
            assert forall|i: int, j: int| 0 <= i < j < q.len() implies lex_lt(#[trigger] q[i], #[trigger] q[j]) by {
                assert(q[i] == ns[i] && q[j] == ns[j]);
            }
        }
        lemma_grouped(es, q);
        lemma_named(es, last);
        let a = grouped_by(es, q);
        let b = named(es, last);
        let r = grouped_by(es, ns);
        assert(r == a + b);
        vstd::seq_lib::lemma_multiset_commutative(a, b);
        assert forall|k: int| 0 <= k < q.len() implies lex_lt(#[trigger] q[k], last) by {
            assert(q[k] == ns[k]);
            assert(last == ns[ns.len() - 1]);
        }
        assert forall|i: int| 0 <= i < r.len() implies ns.contains((#[trigger] r[i]).0) by {
            if i < a.len() {
                assert(r[i] == a[i]);
                let k = choose|k: int| 0 <= k < q.len() && q[k] == a[i].0;
                assert(ns[k] == q[k]);
            } else {
                assert(r[i] == b[i - a.len()]);
                assert(ns[ns.len() - 1] == last);
            }
        }
        assert forall|i: int, j: int| 0 <= i < j < r.len() implies !lex_lt((#[trigger] r[j]).0, (#[trigger] r[i]).0) by {
            if j < a.len() {
                assert(r[i] == a[i] && r[j] == a[j]);
            } else if i >= a.len() {
                assert(r[i] == b[i - a.len()] && r[j] == b[j - a.len()]);
                lemma_lex_irreflexive(last);
            } else {
                assert(r[i] == a[i] && r[j] == b[j - a.len()]);
                let k = choose|k: int| 0 <= k < q.len() && q[k] == a[i].0;
                assert(lex_lt(q[k], last));
                lemma_lex_asymmetric(last, a[i].0);
            }
        }
        assert forall|x: PostV| #[trigger] r.to_multiset().count(x) == if ns.contains(x.0) {
            es.to_multiset().count(x)
        } else {
            0
        } by {
            assert(r.to_multiset().count(x) == a.to_multiset().count(x) + b.to_multiset().count(x));
            if q.contains(x.0) {
                let k = choose|k: int| 0 <= k < q.len() && q[k] == x.0;
                assert(lex_lt(q[k], last));
                lemma_lex_irreflexive(last);
                assert(ns.contains(x.0)) by {
                    assert(ns[k] == q[k]);
                }
            } else if x.0 == last {
                assert(ns[ns.len() - 1] == last);
            } else {
                if ns.contains(x.0) {
                    let k = choose|k: int| 0 <= k < ns.len() && ns[k] == x.0;
                    if k < q.len() {
                        assert(q[k] == ns[k]);
                    }
                }
            }
        }
    }
}

/// `p` splits `ns` into the strings below `x` and those above it.
pub open spec fn is_split(ns: Seq<Seq<char>>, x: Seq<char>, p: int) -> bool {
    &&& 0 <= p <= ns.len()
    &&& forall|k: int| 0 <= k < p ==> lex_lt(#[trigger] ns[k], x)
    &&& forall|k: int| p <= k < ns.len() ==> lex_lt(x, #[trigger] ns[k])
}

proof fn lemma_split_point(ns: Seq<Seq<char>>, x: Seq<char>)
    requires
        sorted_keys(ns),
        !ns.contains(x),
    ensures
        exists|p: int| #[trigger] is_split(ns, x, p),
    decreases ns.len(),
{
    if ns.len() == 0 {
        assert(is_split(ns, x, 0));
    } else {
        let q = ns.drop_last();
        let last = ns.last();
        assert(sorted_keys(q)) by {
            assert forall|i: int, j: int| 0 <= i < j < q.len() implies lex_lt(#[trigger] q[i], #[trigger] q[j]) by {
                assert(q[i] == ns[i] && q[j] == ns[j]);
            }
        }
        assert(!q.contains(x)) by {
            if q.contains(x) {
                let k = choose|k: int| 0 <= k < q.len() && q[k] == x;
                assert(ns[k] == x);
            }
        }
        lemma_split_point(q, x);
        let p0 = choose|p: int| #[trigger] is_split(q, x, p);
        assert(ns[ns.len() - 1] == last);
        lemma_lex_total(last, x);
        if lex_lt(last, x) {
            assert forall|k: int| 0 <= k < ns.len() implies lex_lt(#[trigger] ns[k], x) by {
                if k < ns.len() - 1 {
                    assert(lex_lt(ns[k], ns[ns.len() - 1]));
                    lemma_lex_transitive(ns[k], last, x);
                }
            }
            assert(is_split(ns, x, ns.len() as int));
        } else {
            assert forall|k: int| 0 <= k < p0 implies lex_lt(#[trigger] ns[k], x) by {
                assert(ns[k] == q[k]);
            }
            assert forall|k: int| p0 <= k < ns.len() implies lex_lt(x, #[trigger] ns[k]) by {
                if k < q.len() {
                    assert(ns[k] == q[k]);
                }
            }
            assert(is_split(ns, x, p0));
        }
    }
}

/// A sorted list of strings, each once, with the given members.
proof fn lemma_sorted_names_exist(names: Seq<Seq<char>>)
    ensures
        exists|ns: Seq<Seq<char>>| sorted_keys(ns) && forall|n: Seq<char>| ns.contains(n) <==> names.contains(n),
    decreases names.len(),
{
    if names.len() == 0 {
        assert(sorted_keys(Seq::<Seq<char>>::empty()));
        assert forall|n: Seq<char>| Seq::<Seq<char>>::empty().contains(n) <==> names.contains(n) by {}
    } else {
        let q = names.drop_last();
        let x = names.last();
        lemma_sorted_names_exist(q);
        let ns = choose|ns: Seq<Seq<char>>| sorted_keys(ns) && forall|n: Seq<char>| ns.contains(n) <==> q.contains(n);
        if ns.contains(x) {
            assert forall|n: Seq<char>| ns.contains(n) <==> names.contains(n) by {
                if q.contains(n) {
                    let k = choose|k: int| 0 <= k < q.len() && q[k] == n;
                    assert(names[k] == n);
                }
                if names.contains(n) {
                    let k = choose|k: int| 0 <= k < names.len() && names[k] == n;
                    if k < q.len() {
                        assert(q[k] == n);
                    }
                }
            }
        } else {
            lemma_split_point(ns, x);
            let p = choose|p: int| #[trigger] is_split(ns, x, p);
            let ns2 = ns.take(p) + seq![x] + ns.skip(p);
            assert forall|i: int| 0 <= i < ns2.len() implies #[trigger] ns2[i] == (if i < p {
                ns[i]
            } else if i == p {
                x
            } else {
                ns[i - 1]
            }) by {}
            assert forall|i: int, j: int| 0 <= i < j < ns2.len() implies lex_lt(#[trigger] ns2[i], #[trigger] ns2[j]) by {
                if i < p && j > p {
                    assert(lex_lt(ns[i], ns[j - 1]));
                }
            }
            assert forall|n: Seq<char>| ns2.contains(n) <==> names.contains(n) by {
                if ns2.contains(n) {
                    let k = choose|k: int| 0 <= k < ns2.len() && ns2[k] == n;
                    if k == p {
                        assert(names[names.len() - 1] == x);
                    } else {
                        let kk = if k < p { k } else { k - 1 };
                        assert(ns[kk] == n);
                        assert(q.contains(n));
                        let m = choose|m: int| 0 <= m < q.len() && q[m] == n;
                        assert(names[m] == n);
                    }
                }
                if names.contains(n) {
                    let k = choose|k: int| 0 <= k < names.len() && names[k] == n;
                    if k < q.len() {
                        assert(q[k] == n);
                        assert(ns.contains(n));
                        let m = choose|m: int| 0 <= m < ns.len() && ns[m] == n;
                        if m < p {
                            assert(ns2[m] == n);
                        } else {
                            assert(ns2[m + 1] == n);
                        }
                    } else {
                        assert(ns2[p] == x);
                    }
                }
            }
            assert(sorted_keys(ns2));
        }
    }
}

/// `packages_with_postinstall` gives a permutation of the packages with a
/// postinstall script, sorted by name: the entries sorted by name hold each
/// entry as often as the input does, and their names never decrease.
pub proof fn law_sorted_by_name(es: Seq<PostV>)
    ensures
        sorted_by_name(es).to_multiset() == es.to_multiset(),
        forall|i: int, j: int|
            0 <= i < j < sorted_by_name(es).len() ==> !lex_lt(
                (#[trigger] sorted_by_name(es)[j]).0,
                (#[trigger] sorted_by_name(es)[i]).0,
            ),
{
    broadcast use vstd::seq_lib::group_to_multiset_ensures;
    let names = es.map_values(|e: PostV| e.0);
    lemma_sorted_names_exist(names);
    let ns = name_order(es);
    assert(sorted_keys(ns) && forall|n: Seq<char>| ns.contains(n) <==> names.contains(n));
    lemma_grouped(es, ns);
    assert forall|x: PostV| #[trigger] sorted_by_name(es).to_multiset().count(x) == es.to_multiset().count(x) by {
        if es.to_multiset().count(x) > 0 {
            assert(es.contains(x));
            let k = choose|k: int| 0 <= k < es.len() && es[k] == x;
            assert(names[k] == x.0);
            assert(ns.contains(x.0));
        }
    }
    assert(sorted_by_name(es).to_multiset() =~= es.to_multiset());
}

} // verus!
