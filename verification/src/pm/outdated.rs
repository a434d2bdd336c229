//! `vertz outdated` and `vertz update`: choosing versions and reporting them.

use vstd::prelude::*;
use crate::json::{jbool, jfield, jobj, json_quote, JsonObj};
use crate::pm::audit::max_of;
use crate::pm::listing::opt_view;
use crate::pm::semver::{
    highest_satisfying, highest_satisfying_key, law_highest_satisfying, range_parses, satisfies_all, semver_range_parses,
};
use crate::smap::StrMap;
use crate::text::{
    lemma_occurs_after, lemma_occurs_pad, lemma_occurs_then, lemma_unlines_add, lemma_unlines_one, occurs_in, pad_right,
    push_char, push_padded, push_str, str_byte_len, str_starts_with, unlines, utf8_len,
};

verus! {

/// A single entry in the outdated output
#[derive(Debug, Clone, PartialEq, Eq)]
pub struct OutdatedEntry {
    pub name: String,
    pub current: String,
    pub wanted: String,
    pub latest: String,
    pub range: String,
    pub dev: bool,
}

/// Result of a single package update
#[derive(Debug, Clone, PartialEq, Eq)]
pub struct UpdateResult {
    pub name: String,
    pub from: String,
    pub to: String,
    pub range: String,
    pub dev: bool,
}

/// The "wanted" version of a dependency declared with `range`: the version a
/// dist-tag of that name points to, when it is published; otherwise the
/// highest published version satisfying the range.
pub open spec fn wanted_version<V>(
    range: Seq<char>,
    versions: &StrMap<V>,
    dist_tags: &StrMap<String>,
) -> Option<Seq<char>> {
    match dist_tags.lookup(range) {
        Some(t) if versions.has(t@) => Some(t@),
        _ => if semver_range_parses(range) {
            highest_satisfying(seq![range], versions.kseq())
        } else {
            None
        },
    }
}

/// The wanted version of a dependency: a dist-tag named like its range
/// (such as `latest`) that points to a published version wins; otherwise,
/// for a range that parses, a published version satisfying the range, and
/// none exactly when no published version satisfies it; where semver orders
/// the satisfying versions, no other satisfying version is greater; a range
/// that neither names a published tag nor parses has no wanted version.
pub proof fn law_wanted_version<V>(range: Seq<char>, versions: &StrMap<V>, dist_tags: &StrMap<String>)
    ensures
        dist_tags.lookup(range) is Some && versions.has(dist_tags.lookup(range).unwrap()@) ==> wanted_version(
            range,
            versions,
            dist_tags,
        ) == Some(dist_tags.lookup(range).unwrap()@),
        !(dist_tags.lookup(range) is Some && versions.has(dist_tags.lookup(range).unwrap()@)) ==> {
            &&& !semver_range_parses(range) ==> wanted_version(range, versions, dist_tags) is None
            &&& semver_range_parses(range) ==> (wanted_version(range, versions, dist_tags) is None <==> forall|i: int|
                0 <= i < versions.kseq().len() ==> !satisfies_all(seq![range], #[trigger] versions.kseq()[i]))
            &&& semver_range_parses(range) && wanted_version(range, versions, dist_tags) is Some ==> versions.has(
                wanted_version(range, versions, dist_tags).unwrap(),
            ) && satisfies_all(seq![range], wanted_version(range, versions, dist_tags).unwrap())
        },
{
    law_highest_satisfying(seq![range], versions.kseq());
}

/// Resolve the "wanted" version from abbreviated metadata (version keys + range).
/// Returns the highest version string satisfying the range.
pub fn resolve_wanted_version<V>(
    range_str: &str,
    version_keys: &StrMap<V>,
    dist_tags: &StrMap<String>,
) -> (r: Option<String>)
    ensures
        opt_view(r) == wanted_version(range_str@, version_keys, dist_tags),
{
    if let Some(tag_version) = dist_tags.get(range_str) {
        if version_keys.contains_key(tag_version.as_str()) {
            return Some(tag_version.clone());
        }
    }
    if !range_parses(range_str) {
        return None;
    }
    let ranges = [range_str];
    let r = highest_satisfying_key(&ranges, version_keys);
    proof {
        assert(ranges@.map_values(|r: &str| r@) =~= seq![range_str@]);
    }
    r
}

/// The operator a range starts with: `>=`, `<=`, `^`, `~`, `>`, `<`, or
/// nothing for an exact version.
pub open spec fn range_prefix(range: Seq<char>) -> Seq<char> {
    if ">="@.is_prefix_of(range) {
        ">="@
    } else if "<="@.is_prefix_of(range) {
        "<="@
    } else if "^"@.is_prefix_of(range) {
        "^"@
    } else if "~"@.is_prefix_of(range) {
        "~"@
    } else if ">"@.is_prefix_of(range) {
        ">"@
    } else if "<"@.is_prefix_of(range) {
        "<"@
    } else {
        ""@
    }
}

/// Extract the range prefix operator from a semver range string.
/// e.g., "^3.24.0" → "^", "~1.0.0" → "~", ">=1.0.0" → ">=", "3.24.0" → ""
pub fn extract_range_prefix(range: &str) -> (r: &'static str)
    ensures
        r@ == range_prefix(range@),
{
    if str_starts_with(range, ">=") {
        ">="
    } else if str_starts_with(range, "<=") {
        "<="
    } else if str_starts_with(range, "^") {
        "^"
    } else if str_starts_with(range, "~") {
        "~"
    } else if str_starts_with(range, ">") {
        ">"
    } else if str_starts_with(range, "<") {
        "<"
    } else {
        ""
    }
}

/// The column widths of the outdated table: package, current, wanted.
pub open spec fn outdated_widths(es: Seq<OutdatedEntry>) -> (nat, nat, nat) {
    (
        max_of(es.map_values(|e: OutdatedEntry| utf8_len(e.name@)), 7),
        max_of(es.map_values(|e: OutdatedEntry| utf8_len(e.current@)), 7),
        max_of(es.map_values(|e: OutdatedEntry| utf8_len(e.wanted@)), 6),
    )
}

/// One line of the outdated table.
pub open spec fn outdated_line(
    name: Seq<char>,
    current: Seq<char>,
    wanted: Seq<char>,
    latest: Seq<char>,
    w: (nat, nat, nat),
) -> Seq<char> {
    pad_right(name, w.0) + "  "@ + pad_right(current, w.1) + "  "@ + pad_right(wanted, w.2) + "  "@ + latest
        + "\n"@
}

pub open spec fn outdated_rows(es: Seq<OutdatedEntry>, w: (nat, nat, nat)) -> Seq<char>
    decreases es.len(),
{
    if es.len() == 0 {
        seq![]
    } else {
        outdated_rows(es.drop_last(), w) + outdated_line(
            es.last().name@,
            es.last().current@,
            es.last().wanted@,
            es.last().latest@,
            w,
        )
    }
}

/// The outdated table: a header and one line per entry; empty without entries.
pub open spec fn outdated_text(es: Seq<OutdatedEntry>) -> Seq<char> {
    if es.len() == 0 {
        seq![]
    } else {
        let w = outdated_widths(es);
        outdated_line("Package"@, "Current"@, "Wanted"@, "Latest"@, w) + outdated_rows(es, w)
    }
}

fn push_outdated_line(
    out: &mut String,
    name: &str,
    current: &str,
    wanted: &str,
    latest: &str,
    nw: usize,
    cw: usize,
    ww: usize,
)
    ensures
        final(out)@ == old(out)@ + outdated_line(
            name@,
            current@,
            wanted@,
            latest@,
            (nw as nat, cw as nat, ww as nat),
        ),
{
    push_padded(out, name, nw);
    push_str(out, "  ");
    push_padded(out, current, cw);
    push_str(out, "  ");
    push_padded(out, wanted, ww);
    push_str(out, "  ");
    push_str(out, latest);
    push_str(out, "\n");
    proof {
        reveal_strlit("  ");
        reveal_strlit("\n");
        assert(final(out)@ =~= old(out)@ + outdated_line(
            name@,
            current@,
            wanted@,
            latest@,
            (nw as nat, cw as nat, ww as nat),
        ));
    }
}

fn outdated_widths_exec(entries: &[OutdatedEntry]) -> (r: (usize, usize, usize))
    ensures
        (r.0 as nat, r.1 as nat, r.2 as nat) == outdated_widths(entries@),
{
    let ghost es = entries@;
    let mut nw: usize = 7;
    let mut cw: usize = 7;
    let mut ww: usize = 6;
    let mut i: usize = 0;
    while i < entries.len()
        invariant
            i <= entries.len(),
            es == entries@,
            nw == max_of(es.take(i as int).map_values(|e: OutdatedEntry| utf8_len(e.name@)), 7),
            cw == max_of(es.take(i as int).map_values(|e: OutdatedEntry| utf8_len(e.current@)), 7),
            ww == max_of(es.take(i as int).map_values(|e: OutdatedEntry| utf8_len(e.wanted@)), 6),
        decreases entries.len() - i,
    {
        let e = &entries[i];
        proof {
            let t0 = es.take(i as int);
            let t1 = es.take(i + 1);
            assert(t1.drop_last() =~= t0);
            assert(t1.map_values(|e: OutdatedEntry| utf8_len(e.name@)).drop_last() =~= t0.map_values(
                |e: OutdatedEntry| utf8_len(e.name@),
            ));
            assert(t1.map_values(|e: OutdatedEntry| utf8_len(e.current@)).drop_last() =~= t0.map_values(
                |e: OutdatedEntry| utf8_len(e.current@),
            ));
            assert(t1.map_values(|e: OutdatedEntry| utf8_len(e.wanted@)).drop_last() =~= t0.map_values(
                |e: OutdatedEntry| utf8_len(e.wanted@),
            ));
        }
        let a = str_byte_len(e.name.as_str());
        if a > nw {
            nw = a;
        }
        let b = str_byte_len(e.current.as_str());
        if b > cw {
            cw = b;
        }
        let c = str_byte_len(e.wanted.as_str());
        if c > ww {
            ww = c;
        }
        i += 1;
    }
    proof {
        assert(es.take(entries.len() as int) =~= es);
    }
    (nw, cw, ww)
}

/// Format outdated entries as a human-readable table
pub fn format_outdated_text(entries: &[OutdatedEntry]) -> (r: String)
    ensures
        r@ == outdated_text(entries@),
{
    let mut output = String::new();
    if entries.len() == 0 {
        return output;
    }
    let (nw, cw, ww) = outdated_widths_exec(entries);
    let ghost w = (nw as nat, cw as nat, ww as nat);
    push_outdated_line(&mut output, "Package", "Current", "Wanted", "Latest", nw, cw, ww);
    let ghost head = output@;
    let mut i: usize = 0;
    while i < entries.len()
        invariant
            i <= entries.len(),
            w == (nw as nat, cw as nat, ww as nat),
            output@ == head + outdated_rows(entries@.take(i as int), w),
        decreases entries.len() - i,
    {
        proof {
            assert(entries@.take(i + 1).drop_last() =~= entries@.take(i as int));
            assert(entries@.take(i + 1).last() == entries@[i as int]);
        }
        let e = &entries[i];
        push_outdated_line(
            &mut output,
            e.name.as_str(),
            e.current.as_str(),
            e.wanted.as_str(),
            e.latest.as_str(),
            nw,
            cw,
            ww,
        );
        i += 1;
    }
    proof {
        assert(entries@.take(entries.len() as int) =~= entries@);
        reveal_strlit("Package");
        reveal_strlit("Current");
        reveal_strlit("Wanted");
        reveal_strlit("Latest");
    }
    output
}

/// The NDJSON line of an outdated entry.
pub open spec fn outdated_json_line(e: OutdatedEntry) -> Seq<char> {
    jobj(
        seq![
            jfield("current"@, json_quote(e.current@)),
            jfield("dev"@, jbool(e.dev)),
            jfield("latest"@, json_quote(e.latest@)),
            jfield("name"@, json_quote(e.name@)),
            jfield("range"@, json_quote(e.range@)),
            jfield("wanted"@, json_quote(e.wanted@)),
        ],
    ) + "\n"@
}

pub open spec fn outdated_json(es: Seq<OutdatedEntry>) -> Seq<char>
    decreases es.len(),
{
    if es.len() == 0 {
        seq![]
    } else {
        outdated_json(es.drop_last()) + outdated_json_line(es.last())
    }
}

fn outdated_json_exec(e: &OutdatedEntry) -> (r: String)
    ensures
        r@ == outdated_json_line(*e),
{
    let mut o = JsonObj::new();
    o.str_field("current", e.current.as_str());
    o.bool_field("dev", e.dev);
    o.str_field("latest", e.latest.as_str());
    o.str_field("name", e.name.as_str());
    o.str_field("range", e.range.as_str());
    o.str_field("wanted", e.wanted.as_str());
    let ghost fs = o.fields@;
    let mut line = o.finish();
    push_char(&mut line, '\n');
    proof {
        reveal_strlit("\n");
        assert(fs =~= seq![
            jfield("current"@, json_quote(e.current@)),
            jfield("dev"@, jbool(e.dev)),
            jfield("latest"@, json_quote(e.latest@)),
            jfield("name"@, json_quote(e.name@)),
            jfield("range"@, json_quote(e.range@)),
            jfield("wanted"@, json_quote(e.wanted@)),
        ]);
        assert(line@ =~= outdated_json_line(*e));
    }
    line
}

/// Format outdated entries as NDJSON
pub fn format_outdated_json(entries: &[OutdatedEntry]) -> (r: String)
    ensures
        r@ == outdated_json(entries@),
{
    let mut output = String::new();
    let mut i: usize = 0;
    while i < entries.len()
        invariant
            i <= entries.len(),
            output@ == outdated_json(entries@.take(i as int)),
        decreases entries.len() - i,
    {
        proof {
            assert(entries@.take(i + 1).drop_last() =~= entries@.take(i as int));
            assert(entries@.take(i + 1).last() == entries@[i as int]);
        }
        let line = outdated_json_exec(&entries[i]);
        push_str(&mut output, line.as_str());
        i += 1;
    }
    proof {
        assert(entries@.take(entries.len() as int) =~= entries@);
    }
    output
}

/// One line of the update table.
pub open spec fn update_line(name: Seq<char>, from: Seq<char>, to: Seq<char>, w: (nat, nat)) -> Seq<char> {
    pad_right(name, w.0) + "  "@ + pad_right(from, w.1) + "  "@ + to + "\n"@
}

pub open spec fn update_widths(rs: Seq<UpdateResult>) -> (nat, nat) {
    (
        max_of(rs.map_values(|r: UpdateResult| utf8_len(r.name@)), 7),
        max_of(rs.map_values(|r: UpdateResult| utf8_len(r.from@)), 7),
    )
}

pub open spec fn update_rows(rs: Seq<UpdateResult>, w: (nat, nat)) -> Seq<char>
    decreases rs.len(),
{
    if rs.len() == 0 {
        seq![]
    } else {
        update_rows(rs.drop_last(), w) + update_line(rs.last().name@, rs.last().from@, rs.last().to@, w)
    }
}

/// The dry-run table of `update`: a header and one line per update; empty
/// without updates.
pub open spec fn update_text(rs: Seq<UpdateResult>) -> Seq<char> {
    if rs.len() == 0 {
        seq![]
    } else {
        let w = update_widths(rs);
        update_line("Package"@, "Current"@, "To"@, w) + update_rows(rs, w)
    }
}

fn push_update_line(out: &mut String, name: &str, from: &str, to: &str, nw: usize, fw: usize)
    ensures
        final(out)@ == old(out)@ + update_line(name@, from@, to@, (nw as nat, fw as nat)),
{
    push_padded(out, name, nw);
    push_str(out, "  ");
    push_padded(out, from, fw);
    push_str(out, "  ");
    push_str(out, to);
    push_str(out, "\n");
    proof {
        reveal_strlit("  ");
        reveal_strlit("\n");
        assert(final(out)@ =~= old(out)@ + update_line(name@, from@, to@, (nw as nat, fw as nat)));
    }
}

/// Format update dry-run results as human-readable text
pub fn format_update_dry_run_text(results: &[UpdateResult]) -> (r: String)
    ensures
        r@ == update_text(results@),
{
    let mut output = String::new();
    if results.len() == 0 {
        return output;
    }
    let ghost rs = results@;
    let mut nw: usize = 7;
    let mut fw: usize = 7;
    let mut i: usize = 0;
    while i < results.len()
        invariant
            i <= results.len(),
            rs == results@,
            nw == max_of(rs.take(i as int).map_values(|r: UpdateResult| utf8_len(r.name@)), 7),
            fw == max_of(rs.take(i as int).map_values(|r: UpdateResult| utf8_len(r.from@)), 7),
        decreases results.len() - i,
    {
        proof {
            let t0 = rs.take(i as int);
            let t1 = rs.take(i + 1);
            assert(t1.drop_last() =~= t0);
            assert(t1.map_values(|r: UpdateResult| utf8_len(r.name@)).drop_last() =~= t0.map_values(
                |r: UpdateResult| utf8_len(r.name@),
            ));
            assert(t1.map_values(|r: UpdateResult| utf8_len(r.from@)).drop_last() =~= t0.map_values(
                |r: UpdateResult| utf8_len(r.from@),
            ));
        }
        let a = str_byte_len(results[i].name.as_str());
        if a > nw {
            nw = a;
        }
        let b = str_byte_len(results[i].from.as_str());
        if b > fw {
            fw = b;
        }
        i += 1;
    }
    proof {
        assert(rs.take(results.len() as int) =~= rs);
    }
    let ghost w = (nw as nat, fw as nat);
    push_update_line(&mut output, "Package", "Current", "To", nw, fw);
    let ghost head = output@;
    let mut j: usize = 0;
    while j < results.len()
        invariant
            j <= results.len(),
            w == (nw as nat, fw as nat),
            output@ == head + update_rows(results@.take(j as int), w),
        decreases results.len() - j,
    {
        proof {
            assert(results@.take(j + 1).drop_last() =~= results@.take(j as int));
            assert(results@.take(j + 1).last() == results@[j as int]);
        }
        let r = &results[j];
        push_update_line(&mut output, r.name.as_str(), r.from.as_str(), r.to.as_str(), nw, fw);
        j += 1;
    }
    proof {
        assert(results@.take(results.len() as int) =~= results@);
        reveal_strlit("Package");
        reveal_strlit("Current");
        reveal_strlit("To");
    }
    output
}

/// The NDJSON line of an update.
pub open spec fn update_json_line(r: UpdateResult) -> Seq<char> {
    jobj(
        seq![
            jfield("dev"@, jbool(r.dev)),
            jfield("from"@, json_quote(r.from@)),
            jfield("name"@, json_quote(r.name@)),
            jfield("range"@, json_quote(r.range@)),
            jfield("to"@, json_quote(r.to@)),
        ],
    ) + "\n"@
}

pub open spec fn update_json(rs: Seq<UpdateResult>) -> Seq<char>
    decreases rs.len(),
{
    if rs.len() == 0 {
        seq![]
    } else {
        update_json(rs.drop_last()) + update_json_line(rs.last())
    }
}

fn update_json_exec(r: &UpdateResult) -> (s: String)
    ensures
        s@ == update_json_line(*r),
{
    let mut o = JsonObj::new();
    o.bool_field("dev", r.dev);
    o.str_field("from", r.from.as_str());
    o.str_field("name", r.name.as_str());
    o.str_field("range", r.range.as_str());
    o.str_field("to", r.to.as_str());
    let ghost fs = o.fields@;
    let mut line = o.finish();
    push_char(&mut line, '\n');
    proof {
        reveal_strlit("\n");
        assert(fs =~= seq![
            jfield("dev"@, jbool(r.dev)),
            jfield("from"@, json_quote(r.from@)),
            jfield("name"@, json_quote(r.name@)),
            jfield("range"@, json_quote(r.range@)),
            jfield("to"@, json_quote(r.to@)),
        ]);
        assert(line@ =~= update_json_line(*r));
    }
    line
}

/// Format update dry-run results as NDJSON
pub fn format_update_dry_run_json(results: &[UpdateResult]) -> (r: String)
    ensures
        r@ == update_json(results@),
{
    let mut output = String::new();
    let mut i: usize = 0;
    while i < results.len()
        invariant
            i <= results.len(),
            output@ == update_json(results@.take(i as int)),
        decreases results.len() - i,
    {
        proof {
            assert(results@.take(i + 1).drop_last() =~= results@.take(i as int));
            assert(results@.take(i + 1).last() == results@[i as int]);
        }
        let line = update_json_exec(&results[i]);
        push_str(&mut output, line.as_str());
        i += 1;
    }
    proof {
        assert(results@.take(results.len() as int) =~= results@);
    }
    output
}


/// One line of the outdated table without its newline.
pub open spec fn outdated_line_text(e: OutdatedEntry, w: (nat, nat, nat)) -> Seq<char> {
    pad_right(e.name@, w.0) + "  "@ + pad_right(e.current@, w.1) + "  "@ + pad_right(e.wanted@, w.2) + "  "@
        + e.latest@
}

proof fn lemma_outdated_rows(es: Seq<OutdatedEntry>, w: (nat, nat, nat))
    ensures
        outdated_rows(es, w) == unlines(Seq::new(es.len(), |k: int| outdated_line_text(es[k], w))),
    decreases es.len(),
{
    let ls = Seq::new(es.len(), |k: int| outdated_line_text(es[k], w));
    if es.len() > 0 {
        let d = es.drop_last();
        lemma_outdated_rows(d, w);
        let ld = Seq::new(d.len(), |k: int| outdated_line_text(d[k], w));
        let e = es.last();
        assert(ls =~= ld + seq![outdated_line_text(e, w)]);
        lemma_unlines_add(ld, seq![outdated_line_text(e, w)]);
        lemma_unlines_one(outdated_line_text(e, w));
        reveal_strlit("\n");
        assert(outdated_line(e.name@, e.current@, e.wanted@, e.latest@, w) =~= outdated_line_text(e, w) + seq!['\n']);
    } else {
        assert(ls =~= Seq::<Seq<char>>::empty());
    }
}

/// The outdated table: empty without entries; otherwise a header line and
/// then one line per entry, in order, each line ending with a newline. The
/// line of an entry starts with its package name, shows its current and
/// wanted versions, and ends with its latest version.
pub proof fn law_outdated_table(es: Seq<OutdatedEntry>)
    ensures
        es.len() == 0 ==> outdated_text(es) == Seq::<char>::empty(),
        es.len() > 0 ==> outdated_text(es) == unlines(
            seq![
                pad_right("Package"@, outdated_widths(es).0) + "  "@ + pad_right("Current"@, outdated_widths(es).1)
                    + "  "@ + pad_right("Wanted"@, outdated_widths(es).2) + "  "@ + "Latest"@,
            ] + Seq::new(es.len(), |k: int| outdated_line_text(es[k], outdated_widths(es))),
        ),
        forall|k: int|
            0 <= k < es.len() ==> {
                let l = #[trigger] outdated_line_text(es[k], outdated_widths(es));
                &&& es[k].name@.is_prefix_of(l)
                &&& occurs_in(es[k].current@, l)
                &&& occurs_in(es[k].wanted@, l)
                &&& es[k].latest@.is_suffix_of(l)
            },
{
    let w = outdated_widths(es);
    if es.len() > 0 {
        let hdr = pad_right("Package"@, w.0) + "  "@ + pad_right("Current"@, w.1) + "  "@ + pad_right("Wanted"@, w.2)
            + "  "@ + "Latest"@;
        let body = Seq::new(es.len(), |k: int| outdated_line_text(es[k], w));
        lemma_outdated_rows(es, w);
        lemma_unlines_one(hdr);
        lemma_unlines_add(seq![hdr], body);
        reveal_strlit("\n");
        assert(outdated_line("Package"@, "Current"@, "Wanted"@, "Latest"@, w) =~= hdr + seq!['\n']);
    }
    assert forall|k: int| 0 <= k < es.len() implies {
        let l = #[trigger] outdated_line_text(es[k], w);
        &&& es[k].name@.is_prefix_of(l)
        &&& occurs_in(es[k].current@, l)
        &&& occurs_in(es[k].wanted@, l)
        &&& es[k].latest@.is_suffix_of(l)
    } by {
        let e = es[k];
        let l = outdated_line_text(e, w);
        let sp = "  "@;
        let pn = pad_right(e.name@, w.0);
        let pc = pad_right(e.current@, w.1);
        let pw = pad_right(e.wanted@, w.2);
        assert(l.subrange(0, e.name@.len() as int) =~= e.name@);
        assert(l.subrange(l.len() - e.latest@.len(), l.len() as int) =~= e.latest@);
        lemma_occurs_pad(e.current@, w.1);
        lemma_occurs_after(e.current@, pn + sp, pc);
        lemma_occurs_then(e.current@, pn + sp + pc, sp + pw + sp + e.latest@);
        assert(pn + sp + pc + (sp + pw + sp + e.latest@) =~= l);
        lemma_occurs_pad(e.wanted@, w.2);
        lemma_occurs_after(e.wanted@, pn + sp + pc + sp, pw);
        lemma_occurs_then(e.wanted@, pn + sp + pc + sp + pw, sp + e.latest@);
        assert(pn + sp + pc + sp + pw + (sp + e.latest@) =~= l);
    }
}


/// One line of the update dry-run table without its newline.
pub open spec fn update_line_text(r: UpdateResult, w: (nat, nat)) -> Seq<char> {
    pad_right(r.name@, w.0) + "  "@ + pad_right(r.from@, w.1) + "  "@ + r.to@
}

proof fn lemma_update_rows(rs: Seq<UpdateResult>, w: (nat, nat))
    ensures
        update_rows(rs, w) == unlines(Seq::new(rs.len(), |k: int| update_line_text(rs[k], w))),
    decreases rs.len(),
{
    let ls = Seq::new(rs.len(), |k: int| update_line_text(rs[k], w));
    if rs.len() > 0 {
        let d = rs.drop_last();
        lemma_update_rows(d, w);
        let ld = Seq::new(d.len(), |k: int| update_line_text(d[k], w));
        let r = rs.last();
        assert(ls =~= ld + seq![update_line_text(r, w)]);
        lemma_unlines_add(ld, seq![update_line_text(r, w)]);
        lemma_unlines_one(update_line_text(r, w));
        reveal_strlit("\n");
        assert(update_line(r.name@, r.from@, r.to@, w) =~= update_line_text(r, w) + seq!['\n']);
    } else {
        assert(ls =~= Seq::<Seq<char>>::empty());
    }
}

/// The dry-run table of `vtz update`: empty without updates; otherwise a
/// header line and then one line per update, in order; the line of an
/// update starts with its package name, shows the version it goes from and
/// ends with the version it goes to.
pub proof fn law_update_table(rs: Seq<UpdateResult>)
    ensures
        rs.len() == 0 ==> update_text(rs) == Seq::<char>::empty(),
        rs.len() > 0 ==> update_text(rs) == unlines(
            seq![pad_right("Package"@, update_widths(rs).0) + "  "@ + pad_right("Current"@, update_widths(rs).1) + "  "@ + "To"@]
                + Seq::new(rs.len(), |k: int| update_line_text(rs[k], update_widths(rs))),
        ),
        forall|k: int|
            0 <= k < rs.len() ==> {
                let l = #[trigger] update_line_text(rs[k], update_widths(rs));
                &&& rs[k].name@.is_prefix_of(l)
                &&& occurs_in(rs[k].from@, l)
                &&& rs[k].to@.is_suffix_of(l)
            },
{
    let w = update_widths(rs);
    if rs.len() > 0 {
        let hdr = pad_right("Package"@, w.0) + "  "@ + pad_right("Current"@, w.1) + "  "@ + "To"@;
        let body = Seq::new(rs.len(), |k: int| update_line_text(rs[k], w));
        lemma_update_rows(rs, w);
        lemma_unlines_one(hdr);
        lemma_unlines_add(seq![hdr], body);
        reveal_strlit("\n");
        assert(update_line("Package"@, "Current"@, "To"@, w) =~= hdr + seq!['\n']);
    }
    assert forall|k: int| 0 <= k < rs.len() implies {
        let l = #[trigger] update_line_text(rs[k], w);
        &&& rs[k].name@.is_prefix_of(l)
        &&& occurs_in(rs[k].from@, l)
        &&& rs[k].to@.is_suffix_of(l)
    } by {
        let r = rs[k];
        let l = update_line_text(r, w);
        let sp = "  "@;
        let pn = pad_right(r.name@, w.0);
        let pf = pad_right(r.from@, w.1);
        assert(l.subrange(0, r.name@.len() as int) =~= r.name@);
        assert(l.subrange(l.len() - r.to@.len(), l.len() as int) =~= r.to@);
        lemma_occurs_pad(r.from@, w.1);
        lemma_occurs_after(r.from@, pn + sp, pf);
        lemma_occurs_then(r.from@, pn + sp + pf, sp + r.to@);
        assert(pn + sp + pf + (sp + r.to@) =~= l);
    }
}

} // verus!
