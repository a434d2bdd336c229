//! Launcher scripts under `node_modules/.bin` for the executables that
//! hoisted packages declare.

use vstd::prelude::*;
use crate::pm::types::{ResolvedGraph, ResolvedPackage};
use crate::text::{chars_sub, owned, push_str, str_chars};

verus! {

/// One launcher: the file name under `node_modules/.bin` and its text.
pub struct BinStub {
    pub name: String,
    pub content: String,
}

/// `s` with every leading `./` taken off, one after another.
pub open spec fn strip_dot_slash(s: Seq<char>) -> Seq<char>
    decreases s.len(),
{
    if s.len() >= 2 && s[0] == '.' && s[1] == '/' {
        strip_dot_slash(s.skip(2))
    } else {
        s
    }
}

/// Where a launcher points, relative to `node_modules/.bin`.
pub open spec fn stub_target(pkg: Seq<char>, path: Seq<char>) -> Seq<char> {
    "../"@ + pkg + "/"@ + strip_dot_slash(path)
}

/// The text of a launcher that runs `target` with node, passing its arguments on.
pub open spec fn stub_content(target: Seq<char>) -> Seq<char> {
    "#!/bin/sh\nexec node \"$(dirname \"$0\")/"@ + target + "\" \"$@\"\n"@
}

/// The launchers of one package, in the order of its bin names; none for a
/// package nested under another.
pub open spec fn pkg_stubs(p: ResolvedPackage) -> Seq<(Seq<char>, Seq<char>)> {
    if p.nest_path@.len() > 0 {
        Seq::empty()
    } else {
        Seq::new(
            p.bin.size(),
            |i: int| (p.bin.kseq()[i], stub_content(stub_target(p.name@, p.bin.vseq()[i]@))),
        )
    }
}

/// The launchers of the first `n` packages.
pub open spec fn stubs_upto(ps: Seq<ResolvedPackage>, n: nat) -> Seq<(Seq<char>, Seq<char>)>
    decreases n,
{
    if n == 0 {
        Seq::empty()
    } else {
        stubs_upto(ps, (n - 1) as nat) + pkg_stubs(ps[n - 1])
    }
}

/// The launchers of a whole graph, package by package in key order.
pub open spec fn graph_stubs(g: ResolvedGraph) -> Seq<(Seq<char>, Seq<char>)> {
    stubs_upto(g.packages.vseq(), g.packages.size())
}

/// The view of a launcher as (name, text).
pub open spec fn stub_view(b: BinStub) -> (Seq<char>, Seq<char>) {
    (b.name@, b.content@)
}

/// Takes every leading `./` off a bin path.
pub fn strip_leading_dot_slash(s: &str) -> (r: String)
    ensures
        r@ == strip_dot_slash(s@),
{
    let v = str_chars(s);
    let mut i: usize = 0;
    assert(v@.skip(0) =~= v@);
    while v.len() - i >= 2 && v[i] == '.' && v[i + 1] == '/'
        invariant
            i <= v.len(),
            v@ == s@,
            strip_dot_slash(v@.skip(i as int)) == strip_dot_slash(s@),
        decreases v.len() - i,
    {
        assert(v@.skip(i as int).skip(2) =~= v@.skip(i + 2));
        i += 2;
    }
    assert(v@.skip(i as int) =~= v@.subrange(i as int, v@.len() as int));
    chars_sub(&v, i, v.len())
}

/// The launcher text for bin path `path` of package `pkg`.
pub fn stub_text(pkg: &str, path: &str) -> (r: String)
    ensures
        r@ == stub_content(stub_target(pkg@, path@)),
{
    let rel = strip_leading_dot_slash(path);
    let mut r = owned("#!/bin/sh\nexec node \"$(dirname \"$0\")/");
    push_str(&mut r, "../");
    push_str(&mut r, pkg);
    push_str(&mut r, "/");
    push_str(&mut r, rel.as_str());
    push_str(&mut r, "\" \"$@\"\n");
    r
}

/// The launchers to write for a resolved graph: for each hoisted package (one
/// with an empty nest path), in key order, one per bin entry, named by the
/// entry and pointing at `../<package name>/<bin path without leading ./>`.
/// Their number is what installing reports as the count of bin links.
pub fn bin_stubs(graph: &ResolvedGraph) -> (r: Vec<BinStub>)
    ensures
        r@.map_values(|b: BinStub| stub_view(b)) == graph_stubs(*graph),
{
    let mut out: Vec<BinStub> = Vec::new();
    let n = graph.packages.len();
    let mut i: usize = 0;
    proof {
        graph.packages.lemma_sizes();
    }
    while i < n
        invariant
            i <= n,
            n == graph.packages.size(),
            graph.packages.kseq().len() == graph.packages.vseq().len(),
            out@.map_values(|b: BinStub| stub_view(b)) == stubs_upto(graph.packages.vseq(), i as nat),
        decreases n - i,
    {
        let p = graph.packages.value_at(i);
        let ghost before = out@.map_values(|b: BinStub| stub_view(b));
        if p.nest_path.len() == 0 {
            let m = p.bin.len();
            proof {
                p.bin.lemma_sizes();
            }
            let mut j: usize = 0;
            while j < m
                invariant
                    j <= m,
                    m == p.bin.size(),
                    p.bin.kseq().len() == p.bin.vseq().len(),
                    p.nest_path@.len() == 0,
                    out@.map_values(|b: BinStub| stub_view(b)) == before + pkg_stubs(*p).take(j as int),
                decreases m - j,
            {
                let name = owned(p.bin.key_at(j).as_str());
                let content = stub_text(p.name.as_str(), p.bin.value_at(j).as_str());
                let ghost prev = out@;
                out.push(BinStub { name, content });
                proof {
                    assert(out@ =~= prev.push(BinStub { name, content }));
                    assert(pkg_stubs(*p).take(j + 1) =~= pkg_stubs(*p).take(j as int).push(
                        pkg_stubs(*p)[j as int],
                    ));
                    assert(out@.map_values(|b: BinStub| stub_view(b)) =~= prev.map_values(
                        |b: BinStub| stub_view(b),
                    ).push(stub_view(BinStub { name, content })));
                }
                j += 1;
            }
            assert(pkg_stubs(*p).take(m as int) =~= pkg_stubs(*p));
        } else {
            assert(pkg_stubs(*p) =~= Seq::<(Seq<char>, Seq<char>)>::empty());
            assert(before + pkg_stubs(*p) =~= before);
        }
        i += 1;
    }
    out
}

} // verus!
