//! `vertz audit`: the vulnerability table, its summary line and its NDJSON
//! events, and the report of `vertz audit --fix`.

use vstd::prelude::*;
use crate::json::{jfield, jnull, jobj, json_quote, JsonObj};
use crate::pm::listing::opt_view;
use crate::pm::semver::{
    highest_satisfying, highest_satisfying_key, law_highest_satisfying, range_parses, satisfies_all, semver_gt,
    semver_range_parses,
};
use crate::pm::types::{severity_name, AuditEntry, Severity};
use crate::smap::StrMap;
use crate::text::{
    dec, join, join_strings, lemma_no_newline_add, lemma_occurs_after, lemma_occurs_pad, lemma_occurs_then,
    lemma_unlines_add, lemma_unlines_one, no_newline, occurs_in, owned, pad_right, push_char, push_dec, push_padded,
    push_repeat, push_str, repeat_char, spaces, str_byte_len, unlines, utf8_len,
};

verus! {

/// A batch error from the advisory API
pub struct BatchError {
    pub batch: usize,
    pub error: String,
}

/// Result of running `vertz audit`
pub struct AuditResult {
    pub entries: Vec<AuditEntry>,
    pub warnings: Vec<String>,
    pub batch_errors: Vec<BatchError>,
    pub total_packages: usize,
    /// Number of entries excluded by severity filter
    pub below_threshold: usize,
}

/// Result of a single fix attempt
#[derive(Debug, Clone, PartialEq, Eq)]
pub struct FixApplied {
    pub name: String,
    pub from: String,
    pub to: String,
}

/// A vulnerability that requires manual intervention
#[derive(Debug, Clone, PartialEq, Eq)]
pub struct FixManual {
    pub name: String,
    pub from: String,
    pub patched: String,
    pub range: String,
    pub reason: String,
}

/// Result of `vertz audit --fix`
pub struct AuditFixResult {
    pub audit: AuditResult,
    pub fixed: Vec<FixApplied>,
    pub manual: Vec<FixManual>,
}

/// The largest of `lens`, and at least `floor`.
pub open spec fn max_of(lens: Seq<nat>, floor: nat) -> nat
    decreases lens.len(),
{
    if lens.len() == 0 {
        floor
    } else {
        let m = max_of(lens.drop_last(), floor);
        if lens.last() > m {
            lens.last()
        } else {
            m
        }
    }
}

/// The larger of two numbers.
pub open spec fn nat_max(a: nat, b: nat) -> nat {
    if a > b {
        a
    } else {
        b
    }
}

/// The column widths of the table, in bytes: severity, package, version,
/// patched, and title (which also holds the URL).
pub open spec fn audit_widths(es: Seq<AuditEntry>) -> Seq<nat> {
    seq![
        max_of(es.map_values(|e: AuditEntry| utf8_len(severity_name(e.severity))), 8),
        max_of(es.map_values(|e: AuditEntry| utf8_len(e.name@)), 7),
        max_of(es.map_values(|e: AuditEntry| utf8_len(e.version@)), 7),
        max_of(es.map_values(|e: AuditEntry| utf8_len(e.patched@)), 7),
        max_of(es.map_values(|e: AuditEntry| nat_max(utf8_len(e.title@), utf8_len(e.url@))), 5),
    ]
}

/// A table row: five cells, each left-aligned in its column.
pub open spec fn table_row(cells: Seq<Seq<char>>, w: Seq<nat>) -> Seq<char> {
    "│ "@ + pad_right(cells[0], w[0]) + " │ "@ + pad_right(cells[1], w[1]) + " │ "@ + pad_right(
        cells[2],
        w[2],
    ) + " │ "@ + pad_right(cells[3], w[3]) + " │ "@ + pad_right(cells[4], w[4]) + " │\n"@
}

/// A horizontal rule with corner/junction chars `l`, `m`, `r`.
pub open spec fn table_rule(l: char, m: char, r: char, w: Seq<nat>) -> Seq<char> {
    seq![l] + repeat_char('─', w[0] + 2) + seq![m] + repeat_char('─', w[1] + 2) + seq![m] + repeat_char(
        '─',
        w[2] + 2,
    ) + seq![m] + repeat_char('─', w[3] + 2) + seq![m] + repeat_char('─', w[4] + 2) + seq![r] + "\n"@
}

/// `via <parent>` for a transitive package, `(direct)` otherwise.
pub open spec fn parent_label(e: AuditEntry) -> Seq<char> {
    match e.parent {
        Some(p) => "via "@ + p@,
        None => "(direct)"@,
    }
}

/// The two rows of one advisory.
pub open spec fn entry_rows(e: AuditEntry, w: Seq<nat>) -> Seq<char> {
    table_row(seq![severity_name(e.severity), e.name@, e.version@, e.patched@, e.title@], w)
        + table_row(seq![seq![], parent_label(e), seq![], seq![], e.url@], w)
}

/// The rows of all advisories, in order.
pub open spec fn all_rows(es: Seq<AuditEntry>, w: Seq<nat>) -> Seq<char>
    decreases es.len(),
{
    if es.len() == 0 {
        seq![]
    } else {
        all_rows(es.drop_last(), w) + entry_rows(es.last(), w)
    }
}

/// The table: empty without advisories.
pub open spec fn audit_text(es: Seq<AuditEntry>) -> Seq<char> {
    let w = audit_widths(es);
    if es.len() == 0 {
        seq![]
    } else {
        table_rule('┌', '┬', '┐', w) + table_row(
            seq!["Severity"@, "Package"@, "Version"@, "Patched"@, "Title"@],
            w,
        ) + table_rule('├', '┼', '┤', w) + all_rows(es, w) + table_rule('└', '┴', '┘', w)
    }
}

fn push_rule(out: &mut String, l: char, m: char, r: char, w: &Vec<usize>)
    requires
        w.len() == 5,
    ensures
        final(out)@ == old(out)@ + table_rule(l, m, r, w@.map_values(|x: usize| x as nat)),
{
    let ghost wv = w@.map_values(|x: usize| x as nat);
    push_char(out, l);
    let mut i: usize = 0;
    let ghost o0 = old(out)@;
    while i < 5
        invariant
            i <= 5,
            w.len() == 5,
            wv == w@.map_values(|x: usize| x as nat),
            out@ == o0 + seq![l] + (if i >= 1 { repeat_char('─', wv[0] + 2) } else { seq![] }) + (if i
                >= 2 {
                seq![m] + repeat_char('─', wv[1] + 2)
            } else {
                seq![]
            }) + (if i >= 3 {
                seq![m] + repeat_char('─', wv[2] + 2)
            } else {
                seq![]
            }) + (if i >= 4 {
                seq![m] + repeat_char('─', wv[3] + 2)
            } else {
                seq![]
            }) + (if i >= 5 {
                seq![m] + repeat_char('─', wv[4] + 2)
            } else {
                seq![]
            }),
        decreases 5 - i,
    {
        let ghost ob = out@;
        if i > 0 {
            push_char(out, m);
        }
        push_repeat(out, '─', w[i]);
        push_repeat(out, '─', 2);
        proof {
            assert(repeat_char('─', wv[i as int]) + repeat_char('─', 2) =~= repeat_char(
                '─',
                wv[i as int] + 2,
            ));
        }
        i += 1;
    }
    push_char(out, r);
    push_char(out, '\n');
    proof {
        reveal_strlit("\n");
        assert("\n"@ =~= seq!['\n']);
        assert(out@ =~= o0 + table_rule(l, m, r, wv));
    }
}

#[verifier::spinoff_prover]
#[verifier::rlimit(80)]
fn push_row(out: &mut String, cells: &Vec<&str>, w: &Vec<usize>)
    requires
        w.len() == 5,
        cells.len() == 5,
    ensures
        final(out)@ == old(out)@ + table_row(
            cells@.map_values(|c: &str| c@),
            w@.map_values(|x: usize| x as nat),
        ),
{
    let ghost wv = w@.map_values(|x: usize| x as nat);
    let ghost cv = cells@.map_values(|c: &str| c@);
    let ghost o0 = old(out)@;
    push_str(out, "│ ");
    push_padded(out, cells[0], w[0]);
    push_str(out, " │ ");
    push_padded(out, cells[1], w[1]);
    push_str(out, " │ ");
    push_padded(out, cells[2], w[2]);
    push_str(out, " │ ");
    push_padded(out, cells[3], w[3]);
    push_str(out, " │ ");
    push_padded(out, cells[4], w[4]);
    push_str(out, " │\n");
    proof {
        assert(out@ =~= o0 + table_row(cv, wv));
    }
}

/// The larger of two sizes.
fn max_usize(a: usize, b: usize) -> (r: usize)
    ensures
        r == nat_max(a as nat, b as nat),
{
    if a > b {
        a
    } else {
        b
    }
}

/// The column widths of the table.
fn widths_exec(entries: &[AuditEntry]) -> (w: Vec<usize>)
    ensures
        w.len() == 5,
        w@.map_values(|x: usize| x as nat) == audit_widths(entries@),
{
    let ghost es = entries@;
    let mut sw: usize = 8;
    let mut pw: usize = 7;
    let mut vw: usize = 7;
    let mut ptw: usize = 7;
    let mut tw: usize = 5;
    let mut i: usize = 0;
    while i < entries.len()
        invariant
            i <= entries.len(),
            es == entries@,
            sw == max_of(es.take(i as int).map_values(|e: AuditEntry| utf8_len(severity_name(e.severity))), 8),
            pw == max_of(es.take(i as int).map_values(|e: AuditEntry| utf8_len(e.name@)), 7),
            vw == max_of(es.take(i as int).map_values(|e: AuditEntry| utf8_len(e.version@)), 7),
            ptw == max_of(es.take(i as int).map_values(|e: AuditEntry| utf8_len(e.patched@)), 7),
            tw == max_of(
                es.take(i as int).map_values(
                    |e: AuditEntry| nat_max(utf8_len(e.title@), utf8_len(e.url@)),
                ),
                5,
            ),
        decreases entries.len() - i,
    {
        let e = &entries[i];
        proof {
            let t0 = es.take(i as int);
            let t1 = es.take(i + 1);
            assert(t1.drop_last() =~= t0);
            assert(t1.last() == *e);
            assert(t1.map_values(|e: AuditEntry| utf8_len(severity_name(e.severity))).drop_last()
                =~= t0.map_values(|e: AuditEntry| utf8_len(severity_name(e.severity))));
            assert(t1.map_values(|e: AuditEntry| utf8_len(e.name@)).drop_last() =~= t0.map_values(
                |e: AuditEntry| utf8_len(e.name@),
            ));
            assert(t1.map_values(|e: AuditEntry| utf8_len(e.version@)).drop_last() =~= t0.map_values(
                |e: AuditEntry| utf8_len(e.version@),
            ));
            assert(t1.map_values(|e: AuditEntry| utf8_len(e.patched@)).drop_last() =~= t0.map_values(
                |e: AuditEntry| utf8_len(e.patched@),
            ));
            assert(t1.map_values(|e: AuditEntry| nat_max(utf8_len(e.title@), utf8_len(e.url@))).drop_last()
                =~= t0.map_values(|e: AuditEntry| nat_max(utf8_len(e.title@), utf8_len(e.url@))));
        }
        let sl = str_byte_len(e.severity.as_str());
        if sl > sw {
            sw = sl;
        }
        let nl = str_byte_len(e.name.as_str());
        if nl > pw {
            pw = nl;
        }
        let vl = str_byte_len(e.version.as_str());
        if vl > vw {
            vw = vl;
        }
        let pl = str_byte_len(e.patched.as_str());
        if pl > ptw {
            ptw = pl;
        }
        let tl = max_usize(str_byte_len(e.title.as_str()), str_byte_len(e.url.as_str()));
        if tl > tw {
            tw = tl;
        }
        i += 1;
    }
    proof {
        assert(es.take(entries.len() as int) =~= es);
    }
    let mut w: Vec<usize> = Vec::new();
    w.push(sw);
    w.push(pw);
    w.push(vw);
    w.push(ptw);
    w.push(tw);
    proof {
        assert(w@.map_values(|x: usize| x as nat) =~= audit_widths(entries@));
    }
    w
}

fn push_entry_rows(out: &mut String, e: &AuditEntry, w: &Vec<usize>)
    requires
        w.len() == 5,
    ensures
        final(out)@ == old(out)@ + entry_rows(*e, w@.map_values(|x: usize| x as nat)),
{
    let label = match &e.parent {
        Some(p) => {
            let mut l = String::new();
            push_str(&mut l, "via ");
            push_str(&mut l, p.as_str());
            l
        },
        None => {
            let mut l = String::new();
            push_str(&mut l, "(direct)");
            l
        },
    };
    proof {
        reveal_strlit("via ");
        reveal_strlit("(direct)");
        assert(label@ =~= parent_label(*e));
    }
    let mut first: Vec<&str> = Vec::new();
    first.push(e.severity.as_str());
    first.push(e.name.as_str());
    first.push(e.version.as_str());
    first.push(e.patched.as_str());
    first.push(e.title.as_str());
    push_row(out, &first, w);
    let mut second: Vec<&str> = Vec::new();
    second.push("");
    second.push(label.as_str());
    second.push("");
    second.push("");
    second.push(e.url.as_str());
    push_row(out, &second, w);
    proof {
        reveal_strlit("");
        assert(""@ =~= Seq::<char>::empty());
        assert(first@.map_values(|c: &str| c@) =~= seq![
            severity_name(e.severity),
            e.name@,
            e.version@,
            e.patched@,
            e.title@,
        ]);
        assert(second@.map_values(|c: &str| c@) =~= seq![
            Seq::<char>::empty(),
            parent_label(*e),
            Seq::<char>::empty(),
            Seq::<char>::empty(),
            e.url@,
        ]);
    }
}

/// Format audit entries as a human-readable table for stdout.
pub fn format_audit_text(entries: &[AuditEntry]) -> (r: String)
    ensures
        r@ == audit_text(entries@),
{
    let mut output = String::new();
    if entries.len() == 0 {
        return output;
    }
    let w = widths_exec(entries);
    let ghost wv = w@.map_values(|x: usize| x as nat);
    push_rule(&mut output, '┌', '┬', '┐', &w);
    let mut head: Vec<&str> = Vec::new();
    head.push("Severity");
    head.push("Package");
    head.push("Version");
    head.push("Patched");
    head.push("Title");
    push_row(&mut output, &head, &w);
    proof {
        assert(head@.map_values(|c: &str| c@) =~= seq!["Severity"@, "Package"@, "Version"@, "Patched"@, "Title"@]);
    }
    push_rule(&mut output, '├', '┼', '┤', &w);
    let ghost top = output@;
    let mut i: usize = 0;
    while i < entries.len()
        invariant
            i <= entries.len(),
            w.len() == 5,
            wv == w@.map_values(|x: usize| x as nat),
            output@ == top + all_rows(entries@.take(i as int), wv),
        decreases entries.len() - i,
    {
        let e = &entries[i];
        proof {
            assert(entries@.take(i + 1).drop_last() =~= entries@.take(i as int));
            assert(entries@.take(i + 1).last() == *e);
        }
        push_entry_rows(&mut output, e, &w);
        i += 1;
    }
    proof {
        assert(entries@.take(entries.len() as int) =~= entries@);
    }
    push_rule(&mut output, '└', '┴', '┘', &w);
    proof {
        reveal_strlit("Severity");
        reveal_strlit("Package");
        reveal_strlit("Version");
        reveal_strlit("Patched");
        reveal_strlit("Title");
    }
    output
}

/// How many advisories have severity `s`.
pub open spec fn count_sev(es: Seq<AuditEntry>, s: Severity) -> nat
    decreases es.len(),
{
    if es.len() == 0 {
        0
    } else {
        count_sev(es.drop_last(), s) + if es.last().severity == s {
            1nat
        } else {
            0nat
        }
    }
}

/// `"<n> <word>"` when `n > 0`, nothing otherwise.
pub open spec fn count_part(n: nat, word: Seq<char>) -> Seq<Seq<char>> {
    if n > 0 {
        seq![dec(n) + " "@ + word]
    } else {
        seq![]
    }
}

/// The audit summary line for stderr.
pub open spec fn audit_summary(es: Seq<AuditEntry>, below: nat) -> Seq<char> {
    if es.len() == 0 && below == 0 {
        "No vulnerabilities found."@
    } else if es.len() == 0 {
        "No vulnerabilities found at or above threshold. "@ + dec(below) + " below threshold not shown."@
    } else {
        let parts = count_part(count_sev(es, Severity::Critical), "critical"@) + count_part(
            count_sev(es, Severity::High),
            "high"@,
        ) + count_part(count_sev(es, Severity::Moderate), "moderate"@) + count_part(
            count_sev(es, Severity::Low),
            "low"@,
        );
        dec(es.len()) + " "@ + (if es.len() == 1 {
            "vulnerability"@
        } else {
            "vulnerabilities"@
        }) + " found ("@ + join(parts, ", "@) + ")"@ + (if below > 0 {
            ". "@ + dec(below) + " below threshold not shown."@
        } else {
            seq![]
        })
    }
}

/// The number of advisories of each severity: critical, high, moderate, low.
fn severity_counts(entries: &[AuditEntry]) -> (r: (usize, usize, usize, usize))
    ensures
        r.0 == count_sev(entries@, Severity::Critical),
        r.1 == count_sev(entries@, Severity::High),
        r.2 == count_sev(entries@, Severity::Moderate),
        r.3 == count_sev(entries@, Severity::Low),
{
    let mut c: usize = 0;
    let mut h: usize = 0;
    let mut m: usize = 0;
    let mut l: usize = 0;
    let mut i: usize = 0;
    while i < entries.len()
        invariant
            i <= entries.len(),
            c + h + m + l == i,
            c == count_sev(entries@.take(i as int), Severity::Critical),
            h == count_sev(entries@.take(i as int), Severity::High),
            m == count_sev(entries@.take(i as int), Severity::Moderate),
            l == count_sev(entries@.take(i as int), Severity::Low),
        decreases entries.len() - i,
    {
        proof {
            assert(entries@.take(i + 1).drop_last() =~= entries@.take(i as int));
            assert(entries@.take(i + 1).last() == entries@[i as int]);
        }
        match entries[i].severity {
            Severity::Critical => c += 1,
            Severity::High => h += 1,
            Severity::Moderate => m += 1,
            Severity::Low => l += 1,
        }
        i += 1;
    }
    proof {
        assert(entries@.take(entries.len() as int) =~= entries@);
    }
    (c, h, m, l)
}

fn push_count_part(parts: &mut Vec<String>, n: usize, word: &str)
    ensures
        final(parts)@.map_values(|p: String| p@) == old(parts)@.map_values(|p: String| p@) + count_part(
            n as nat,
            word@,
        ),
{
    if n > 0 {
        let mut t = String::new();
        push_dec(&mut t, n as u64);
        push_char(&mut t, ' ');
        push_str(&mut t, word);
        let ghost pb = parts@;
        proof {
            reveal_strlit(" ");
            assert(" "@ =~= seq![' ']);
            assert(t@ =~= dec(n as nat) + " "@ + word@);
        }
        parts.push(t);
        proof {
            assert(parts@.map_values(|p: String| p@) =~= pb.map_values(|p: String| p@) + count_part(
                n as nat,
                word@,
            ));
        }
    } else {
        proof {
            assert(parts@.map_values(|p: String| p@) =~= parts@.map_values(|p: String| p@) + count_part(
                n as nat,
                word@,
            ));
        }
    }
}

/// Format the audit summary line for stderr.
pub fn format_audit_summary(entries: &[AuditEntry], below_threshold: usize) -> (r: String)
    ensures
        r@ == audit_summary(entries@, below_threshold as nat),
{
    if entries.len() == 0 && below_threshold == 0 {
        let mut s = String::new();
        push_str(&mut s, "No vulnerabilities found.");
        proof {
            reveal_strlit("No vulnerabilities found.");
        }
        return s;
    }
    if entries.len() == 0 {
        let mut s = String::new();
        push_str(&mut s, "No vulnerabilities found at or above threshold. ");
        push_dec(&mut s, below_threshold as u64);
        push_str(&mut s, " below threshold not shown.");
        proof {
            reveal_strlit("No vulnerabilities found at or above threshold. ");
            reveal_strlit(" below threshold not shown.");
        }
        return s;
    }
    let (c, h, m, l) = severity_counts(entries);
    let mut parts: Vec<String> = Vec::new();
    push_count_part(&mut parts, c, "critical");
    push_count_part(&mut parts, h, "high");
    push_count_part(&mut parts, m, "moderate");
    push_count_part(&mut parts, l, "low");
    let joined = join_strings(&parts, ", ");
    let mut s = String::new();
    push_dec(&mut s, entries.len() as u64);
    push_char(&mut s, ' ');
    if entries.len() == 1 {
        push_str(&mut s, "vulnerability");
    } else {
        push_str(&mut s, "vulnerabilities");
    }
    push_str(&mut s, " found (");
    push_str(&mut s, joined.as_str());
    push_char(&mut s, ')');
    if below_threshold > 0 {
        push_str(&mut s, ". ");
        push_dec(&mut s, below_threshold as u64);
        push_str(&mut s, " below threshold not shown.");
    }
    proof {
        reveal_strlit(" ");
        reveal_strlit("vulnerability");
        reveal_strlit("vulnerabilities");
        reveal_strlit(" found (");
        reveal_strlit(")");
        reveal_strlit(". ");
        reveal_strlit(" below threshold not shown.");
        assert(parts@.map_values(|p: String| p@) =~= count_part(
            count_sev(entries@, Severity::Critical),
            "critical"@,
        ) + count_part(count_sev(entries@, Severity::High), "high"@) + count_part(
            count_sev(entries@, Severity::Moderate),
            "moderate"@,
        ) + count_part(count_sev(entries@, Severity::Low), "low"@));
        assert(s@ =~= audit_summary(entries@, below_threshold as nat));
    }
    s
}

/// The `advisory` event of one entry.
pub open spec fn advisory_json(e: AuditEntry) -> Seq<char> {
    jobj(
        seq![
            jfield("event"@, json_quote("advisory"@)),
            jfield("id"@, dec(e.id as nat)),
            jfield("name"@, json_quote(e.name@)),
            jfield(
                "parent"@,
                match e.parent {
                    Some(p) => json_quote(p@),
                    None => jnull(),
                },
            ),
            jfield("patched"@, json_quote(e.patched@)),
            jfield("severity"@, json_quote(severity_name(e.severity))),
            jfield("title"@, json_quote(e.title@)),
            jfield("url"@, json_quote(e.url@)),
            jfield("version"@, json_quote(e.version@)),
        ],
    ) + "\n"@
}

/// The `advisory` events, in order.
pub open spec fn advisories_json(es: Seq<AuditEntry>) -> Seq<char>
    decreases es.len(),
{
    if es.len() == 0 {
        seq![]
    } else {
        advisories_json(es.drop_last()) + advisory_json(es.last())
    }
}

/// The audit NDJSON: `audit_start`, one `advisory` per entry, `audit_complete`.
pub open spec fn audit_json(es: Seq<AuditEntry>, total: nat, below: nat) -> Seq<char> {
    jobj(seq![jfield("event"@, json_quote("audit_start"@)), jfield("packages"@, dec(total))]) + "\n"@
        + advisories_json(es) + jobj(
        seq![
            jfield("below_threshold"@, dec(below)),
            jfield("critical"@, dec(count_sev(es, Severity::Critical))),
            jfield("event"@, json_quote("audit_complete"@)),
            jfield("high"@, dec(count_sev(es, Severity::High))),
            jfield("low"@, dec(count_sev(es, Severity::Low))),
            jfield("moderate"@, dec(count_sev(es, Severity::Moderate))),
            jfield("vulnerabilities"@, dec(es.len())),
        ],
    ) + "\n"@
}

#[verifier::spinoff_prover]
#[verifier::rlimit(40)]
fn advisory_line(e: &AuditEntry) -> (r: String)
    ensures
        r@ == advisory_json(*e),
{
    let mut o = JsonObj::new();
    o.str_field("event", "advisory");
    o.num_field("id", e.id);
    o.str_field("name", e.name.as_str());
    match &e.parent {
        Some(p) => o.str_field("parent", p.as_str()),
        None => o.null_field("parent"),
    }
    o.str_field("patched", e.patched.as_str());
    o.str_field("severity", e.severity.as_str());
    o.str_field("title", e.title.as_str());
    o.str_field("url", e.url.as_str());
    o.str_field("version", e.version.as_str());
    let ghost fs = o.fields@;
    let mut line = o.finish();
    push_char(&mut line, '\n');
    proof {
        reveal_strlit("\n");
        assert(fs =~= seq![
            jfield("event"@, json_quote("advisory"@)),
            jfield("id"@, dec(e.id as nat)),
            jfield("name"@, json_quote(e.name@)),
            jfield(
                "parent"@,
                match e.parent {
                    Some(p) => json_quote(p@),
                    None => jnull(),
                },
            ),
            jfield("patched"@, json_quote(e.patched@)),
            jfield("severity"@, json_quote(severity_name(e.severity))),
            jfield("title"@, json_quote(e.title@)),
            jfield("url"@, json_quote(e.url@)),
            jfield("version"@, json_quote(e.version@)),
        ]);
        assert(line@ =~= advisory_json(*e));
    }
    line
}

/// Format audit entries as NDJSON for stdout.
#[verifier::spinoff_prover]
#[verifier::rlimit(40)]
pub fn format_audit_json(entries: &[AuditEntry], total_packages: usize, below_threshold: usize) -> (r: String)
    ensures
        r@ == audit_json(entries@, total_packages as nat, below_threshold as nat),
{
    let mut start = JsonObj::new();
    start.str_field("event", "audit_start");
    start.num_field("packages", total_packages as u64);
    let ghost sf = start.fields@;
    let mut output = start.finish();
    push_char(&mut output, '\n');
    let ghost head = output@;
    let mut i: usize = 0;
    while i < entries.len()
        invariant
            i <= entries.len(),
            output@ == head + advisories_json(entries@.take(i as int)),
        decreases entries.len() - i,
    {
        proof {
            assert(entries@.take(i + 1).drop_last() =~= entries@.take(i as int));
            assert(entries@.take(i + 1).last() == entries@[i as int]);
        }
        let line = advisory_line(&entries[i]);
        push_str(&mut output, line.as_str());
        i += 1;
    }
    proof {
        assert(entries@.take(entries.len() as int) =~= entries@);
    }
    let (c, h, m, l) = severity_counts(entries);
    let mut done = JsonObj::new();
    done.num_field("below_threshold", below_threshold as u64);
    done.num_field("critical", c as u64);
    done.str_field("event", "audit_complete");
    done.num_field("high", h as u64);
    done.num_field("low", l as u64);
    done.num_field("moderate", m as u64);
    done.num_field("vulnerabilities", entries.len() as u64);
    let ghost df = done.fields@;
    let tail = done.finish();
    push_str(&mut output, tail.as_str());
    push_char(&mut output, '\n');
    proof {
        reveal_strlit("\n");
        assert(sf =~= seq![jfield("event"@, json_quote("audit_start"@)), jfield("packages"@, dec(total_packages as nat))]);
        assert(df =~= seq![
            jfield("below_threshold"@, dec(below_threshold as nat)),
            jfield("critical"@, dec(count_sev(entries@, Severity::Critical))),
            jfield("event"@, json_quote("audit_complete"@)),
            jfield("high"@, dec(count_sev(entries@, Severity::High))),
            jfield("low"@, dec(count_sev(entries@, Severity::Low))),
            jfield("moderate"@, dec(count_sev(entries@, Severity::Moderate))),
            jfield("vulnerabilities"@, dec(entries@.len())),
        ]);
        assert(output@ =~= audit_json(entries@, total_packages as nat, below_threshold as nat));
    }
    output
}

/// `vulnerability` or `vulnerabilities`.
pub open spec fn vuln_word(n: nat) -> Seq<char> {
    if n == 1 {
        "vulnerability"@
    } else {
        "vulnerabilities"@
    }
}

/// `  name from → to` for one applied fix.
pub open spec fn fixed_line(f: FixApplied) -> Seq<char> {
    "  "@ + f.name@ + " "@ + f.from@ + " → "@ + f.to@ + "\n"@
}

/// The lines of a manual fix.
pub open spec fn manual_lines(m: FixManual) -> Seq<char> {
    "  "@ + m.name@ + " "@ + m.from@ + " ("@ + m.reason@ + ")\n    Patched versions: "@ + m.patched@
        + "\n    Run: vertz add "@ + m.name@ + "@\"<patched-version>\"\n"@
}

pub open spec fn fixed_lines(fs: Seq<FixApplied>) -> Seq<char>
    decreases fs.len(),
{
    if fs.len() == 0 {
        seq![]
    } else {
        fixed_lines(fs.drop_last()) + fixed_line(fs.last())
    }
}

pub open spec fn all_manual_lines(ms: Seq<FixManual>) -> Seq<char>
    decreases ms.len(),
{
    if ms.len() == 0 {
        seq![]
    } else {
        all_manual_lines(ms.drop_last()) + manual_lines(ms.last())
    }
}

/// The text report of `audit --fix`.
pub open spec fn fix_text(fs: Seq<FixApplied>, ms: Seq<FixManual>, dry_run: bool) -> Seq<char> {
    (if fs.len() > 0 {
        (if dry_run { "\nWould fix "@ } else { "\nFixed "@ }) + dec(fs.len()) + " "@ + vuln_word(fs.len())
            + ":\n"@ + fixed_lines(fs)
    } else {
        seq![]
    }) + (if ms.len() > 0 {
        "\n"@ + dec(ms.len()) + " "@ + (if ms.len() == 1 {
            "vulnerability requires"@
        } else {
            "vulnerabilities require"@
        }) + " manual update:\n"@ + all_manual_lines(ms)
    } else {
        seq![]
    })
}

/// The manual-update part of the fix report.
pub open spec fn manual_part(ms: Seq<FixManual>) -> Seq<char> {
    if ms.len() > 0 {
        "\n"@ + dec(ms.len()) + " "@ + (if ms.len() == 1 {
            "vulnerability requires"@
        } else {
            "vulnerabilities require"@
        }) + " manual update:\n"@ + all_manual_lines(ms)
    } else {
        seq![]
    }
}

/// The report after its first word, when something was fixed: the count,
/// `vulnerability` or `vulnerabilities`, the fixed lines and the manual part.
pub open spec fn fix_tail(fs: Seq<FixApplied>, ms: Seq<FixManual>) -> Seq<char> {
    dec(fs.len()) + " "@ + vuln_word(fs.len()) + ":\n"@ + fixed_lines(fs) + manual_part(ms)
}

/// A dry run reports the same as a real fix but for its first word: with
/// fixes, the real report is `\nFixed ` and the tail, the dry run's
/// `\nWould fix ` and the same tail, which starts with the count and
/// `vulnerability`/`vulnerabilities`; without fixes the two are equal.
pub proof fn law_fix_text_dry_run(fs: Seq<FixApplied>, ms: Seq<FixManual>)
    ensures
        fs.len() > 0 ==> fix_text(fs, ms, false) == "\nFixed "@ + fix_tail(fs, ms) && fix_text(fs, ms, true)
            == "\nWould fix "@ + fix_tail(fs, ms),
        (dec(fs.len()) + " "@ + vuln_word(fs.len()) + ":\n"@).is_prefix_of(fix_tail(fs, ms)),
        fs.len() == 0 ==> fix_text(fs, ms, true) == fix_text(fs, ms, false),
{
    let head = dec(fs.len()) + " "@ + vuln_word(fs.len()) + ":\n"@;
    assert(fix_tail(fs, ms) =~= head + (fixed_lines(fs) + manual_part(ms)));
    assert(head.is_prefix_of(fix_tail(fs, ms))) by {
        assert(fix_tail(fs, ms).subrange(0, head.len() as int) =~= head);
    }
    if fs.len() > 0 {
        assert(fix_text(fs, ms, false) =~= "\nFixed "@ + fix_tail(fs, ms));
        assert(fix_text(fs, ms, true) =~= "\nWould fix "@ + fix_tail(fs, ms));
    }
}

/// Format the fix results as text for stderr
pub fn format_fix_text(fixed: &[FixApplied], manual: &[FixManual], dry_run: bool) -> (r: String)
    ensures
        r@ == fix_text(fixed@, manual@, dry_run),
{
    let mut output = String::new();
    proof {
        reveal_strlit("\nWould fix ");
        reveal_strlit("\nFixed ");
        reveal_strlit(" ");
        reveal_strlit("vulnerability");
        reveal_strlit("vulnerabilities");
        reveal_strlit(":\n");
        reveal_strlit("  ");
        reveal_strlit(" → ");
        reveal_strlit("\n");
        reveal_strlit(" (");
        reveal_strlit(")\n    Patched versions: ");
        reveal_strlit("\n    Run: vertz add ");
        reveal_strlit("@\"<patched-version>\"\n");
        reveal_strlit("vulnerability requires");
        reveal_strlit("vulnerabilities require");
        reveal_strlit(" manual update:\n");
    }
    if fixed.len() > 0 {
        if dry_run {
            push_str(&mut output, "\nWould fix ");
        } else {
            push_str(&mut output, "\nFixed ");
        }
        push_dec(&mut output, fixed.len() as u64);
        push_str(&mut output, " ");
        if fixed.len() == 1 {
            push_str(&mut output, "vulnerability");
        } else {
            push_str(&mut output, "vulnerabilities");
        }
        push_str(&mut output, ":\n");
        let ghost head = output@;
        let mut i: usize = 0;
        while i < fixed.len()
            invariant
                i <= fixed.len(),
                output@ == head + fixed_lines(fixed@.take(i as int)),
            decreases fixed.len() - i,
        {
            proof {
                assert(fixed@.take(i + 1).drop_last() =~= fixed@.take(i as int));
                assert(fixed@.take(i + 1).last() == fixed@[i as int]);
            }
            let f = &fixed[i];
            push_str(&mut output, "  ");
            push_str(&mut output, f.name.as_str());
            push_str(&mut output, " ");
            push_str(&mut output, f.from.as_str());
            push_str(&mut output, " → ");
            push_str(&mut output, f.to.as_str());
            push_str(&mut output, "\n");
            proof {
                assert(output@ =~= head + fixed_lines(fixed@.take(i + 1)));
            }
            i += 1;
        }
        proof {
            assert(fixed@.take(fixed.len() as int) =~= fixed@);
        }
    }
    let ghost mid = output@;
    if manual.len() > 0 {
        push_str(&mut output, "\n");
        push_dec(&mut output, manual.len() as u64);
        push_str(&mut output, " ");
        if manual.len() == 1 {
            push_str(&mut output, "vulnerability requires");
        } else {
            push_str(&mut output, "vulnerabilities require");
        }
        push_str(&mut output, " manual update:\n");
        let ghost head = output@;
        let mut i: usize = 0;
        while i < manual.len()
            invariant
                i <= manual.len(),
                output@ == head + all_manual_lines(manual@.take(i as int)),
            decreases manual.len() - i,
        {
            proof {
                assert(manual@.take(i + 1).drop_last() =~= manual@.take(i as int));
                assert(manual@.take(i + 1).last() == manual@[i as int]);
            }
            let m = &manual[i];
            push_str(&mut output, "  ");
            push_str(&mut output, m.name.as_str());
            push_str(&mut output, " ");
            push_str(&mut output, m.from.as_str());
            push_str(&mut output, " (");
            push_str(&mut output, m.reason.as_str());
            push_str(&mut output, ")\n    Patched versions: ");
            push_str(&mut output, m.patched.as_str());
            push_str(&mut output, "\n    Run: vertz add ");
            push_str(&mut output, m.name.as_str());
            push_str(&mut output, "@\"<patched-version>\"\n");
            proof {
                assert(output@ =~= head + all_manual_lines(manual@.take(i + 1)));
            }
            i += 1;
        }
        proof {
            assert(manual@.take(manual.len() as int) =~= manual@);
        }
    }
    proof {
        assert(output@ =~= fix_text(fixed@, manual@, dry_run));
    }
    output
}

/// The `fix_applied` event.
pub open spec fn fix_applied_json(f: FixApplied) -> Seq<char> {
    jobj(
        seq![
            jfield("event"@, json_quote("fix_applied"@)),
            jfield("from"@, json_quote(f.from@)),
            jfield("name"@, json_quote(f.name@)),
            jfield("to"@, json_quote(f.to@)),
        ],
    ) + "\n"@
}

/// The `fix_manual` event, with the command that would fix it.
pub open spec fn fix_manual_json(m: FixManual) -> Seq<char> {
    jobj(
        seq![
            jfield("event"@, json_quote("fix_manual"@)),
            jfield("from"@, json_quote(m.from@)),
            jfield("name"@, json_quote(m.name@)),
            jfield("patched"@, json_quote(m.patched@)),
            jfield("range"@, json_quote(m.range@)),
            jfield("reason"@, json_quote(m.reason@)),
            jfield("suggestion"@, json_quote("vertz add "@ + m.name@ + "@\"<patched-version>\""@)),
        ],
    ) + "\n"@
}

pub open spec fn fix_applied_lines(fs: Seq<FixApplied>) -> Seq<char>
    decreases fs.len(),
{
    if fs.len() == 0 {
        seq![]
    } else {
        fix_applied_lines(fs.drop_last()) + fix_applied_json(fs.last())
    }
}

pub open spec fn fix_manual_lines(ms: Seq<FixManual>) -> Seq<char>
    decreases ms.len(),
{
    if ms.len() == 0 {
        seq![]
    } else {
        fix_manual_lines(ms.drop_last()) + fix_manual_json(ms.last())
    }
}

/// The `audit_fix_complete` event.
pub open spec fn fix_complete_json(fixed: nat, manual: nat) -> Seq<char> {
    jobj(
        seq![
            jfield("event"@, json_quote("audit_fix_complete"@)),
            jfield("fixed"@, dec(fixed)),
            jfield("manual"@, dec(manual)),
        ],
    ) + "\n"@
}

/// The NDJSON report of `audit --fix`.
pub open spec fn fix_json(fs: Seq<FixApplied>, ms: Seq<FixManual>) -> Seq<char> {
    fix_applied_lines(fs) + fix_manual_lines(ms) + fix_complete_json(fs.len(), ms.len())
}

fn fix_applied_line(f: &FixApplied) -> (r: String)
    ensures
        r@ == fix_applied_json(*f),
{
    let mut o = JsonObj::new();
    o.str_field("event", "fix_applied");
    o.str_field("from", f.from.as_str());
    o.str_field("name", f.name.as_str());
    o.str_field("to", f.to.as_str());
    let ghost fs = o.fields@;
    let mut line = o.finish();
    push_char(&mut line, '\n');
    proof {
        reveal_strlit("\n");
        assert(fs =~= seq![
            jfield("event"@, json_quote("fix_applied"@)),
            jfield("from"@, json_quote(f.from@)),
            jfield("name"@, json_quote(f.name@)),
            jfield("to"@, json_quote(f.to@)),
        ]);
        assert(line@ =~= fix_applied_json(*f));
    }
    line
}

fn fix_complete_line(fixed: usize, manual: usize) -> (r: String)
    ensures
        r@ == fix_complete_json(fixed as nat, manual as nat),
{
    let mut o = JsonObj::new();
    o.str_field("event", "audit_fix_complete");
    o.num_field("fixed", fixed as u64);
    o.num_field("manual", manual as u64);
    let ghost fs = o.fields@;
    let mut line = o.finish();
    push_char(&mut line, '\n');
    proof {
        reveal_strlit("\n");
        assert(fs =~= seq![
            jfield("event"@, json_quote("audit_fix_complete"@)),
            jfield("fixed"@, dec(fixed as nat)),
            jfield("manual"@, dec(manual as nat)),
        ]);
    }
    line
}

fn fix_manual_line(m: &FixManual) -> (r: String)
    ensures
        r@ == fix_manual_json(*m),
{
    let mut suggestion = String::new();
    push_str(&mut suggestion, "vertz add ");
    push_str(&mut suggestion, m.name.as_str());
    push_str(&mut suggestion, "@\"<patched-version>\"");
    let mut o = JsonObj::new();
    o.str_field("event", "fix_manual");
    o.str_field("from", m.from.as_str());
    o.str_field("name", m.name.as_str());
    o.str_field("patched", m.patched.as_str());
    o.str_field("range", m.range.as_str());
    o.str_field("reason", m.reason.as_str());
    o.str_field("suggestion", suggestion.as_str());
    let ghost fs = o.fields@;
    let mut line = o.finish();
    push_char(&mut line, '\n');
    proof {
        reveal_strlit("\n");
        reveal_strlit("vertz add ");
        reveal_strlit("@\"<patched-version>\"");
        assert(fs =~= seq![
            jfield("event"@, json_quote("fix_manual"@)),
            jfield("from"@, json_quote(m.from@)),
            jfield("name"@, json_quote(m.name@)),
            jfield("patched"@, json_quote(m.patched@)),
            jfield("range"@, json_quote(m.range@)),
            jfield("reason"@, json_quote(m.reason@)),
            jfield("suggestion"@, json_quote("vertz add "@ + m.name@ + "@\"<patched-version>\""@)),
        ]);
        assert(line@ =~= fix_manual_json(*m));
    }
    line
}

/// Format the fix results as NDJSON
pub fn format_fix_json(fixed: &[FixApplied], manual: &[FixManual]) -> (r: String)
    ensures
        r@ == fix_json(fixed@, manual@),
{
    let mut output = String::new();
    let mut i: usize = 0;
    while i < fixed.len()
        invariant
            i <= fixed.len(),
            output@ == fix_applied_lines(fixed@.take(i as int)),
        decreases fixed.len() - i,
    {
        proof {
            assert(fixed@.take(i + 1).drop_last() =~= fixed@.take(i as int));
            assert(fixed@.take(i + 1).last() == fixed@[i as int]);
        }
        let line = fix_applied_line(&fixed[i]);
        push_str(&mut output, line.as_str());
        i += 1;
    }
    proof {
        assert(fixed@.take(fixed.len() as int) =~= fixed@);
    }
    let ghost mid = output@;
    let mut j: usize = 0;
    while j < manual.len()
        invariant
            j <= manual.len(),
            mid == fix_applied_lines(fixed@),
            output@ == mid + fix_manual_lines(manual@.take(j as int)),
        decreases manual.len() - j,
    {
        proof {
            assert(manual@.take(j + 1).drop_last() =~= manual@.take(j as int));
            assert(manual@.take(j + 1).last() == manual@[j as int]);
        }
        let line = fix_manual_line(&manual[j]);
        push_str(&mut output, line.as_str());
        j += 1;
    }
    proof {
        assert(manual@.take(manual.len() as int) =~= manual@);
    }
    let line = fix_complete_line(fixed.len(), manual.len());
    push_str(&mut output, line.as_str());
    proof {
        assert(output@ =~= fix_json(fixed@, manual@));
    }
    output
}

/// The version to update to: the highest available version satisfying both
/// ranges; none when either range does not parse.
pub open spec fn fix_version(declared: Seq<char>, patched: Seq<char>, ks: Seq<Seq<char>>) -> Option<Seq<char>> {
    if semver_range_parses(declared) && semver_range_parses(patched) {
        highest_satisfying(seq![declared, patched], ks)
    } else {
        None
    }
}

/// The fix version is the highest that satisfies both ranges: none exactly
/// when a range does not parse or no available version satisfies both;
/// otherwise an available version that does, and, where `semver_gt` orders
/// the satisfying versions (never `a > a`, and `a > b > c` gives `a > c`),
/// no satisfying version is greater.
pub proof fn law_fix_version_highest(declared: Seq<char>, patched: Seq<char>, ks: Seq<Seq<char>>)
    ensures
        fix_version(declared, patched, ks) is None <==> (!semver_range_parses(declared) || !semver_range_parses(
            patched,
        ) || forall|i: int| 0 <= i < ks.len() ==> !satisfies_all(seq![declared, patched], #[trigger] ks[i])),
        fix_version(declared, patched, ks) matches Some(x) ==> ks.contains(x) && satisfies_all(
            seq![declared, patched],
            x,
        ),
        (forall|a: Seq<char>| satisfies_all(seq![declared, patched], a) ==> !semver_gt(a, a)) && (forall|
            a: Seq<char>,
            b: Seq<char>,
            c: Seq<char>,
        |
            #![trigger semver_gt(a, b), semver_gt(b, c)]
            satisfies_all(seq![declared, patched], a) && satisfies_all(seq![declared, patched], b)
                && satisfies_all(seq![declared, patched], c) && semver_gt(a, b) && semver_gt(b, c) ==> semver_gt(
                a,
                c,
            )) ==> (fix_version(declared, patched, ks) matches Some(x) ==> forall|i: int|
            0 <= i < ks.len() && satisfies_all(seq![declared, patched], #[trigger] ks[i]) ==> !semver_gt(ks[i], x)),
{
    law_highest_satisfying(seq![declared, patched], ks);
}

/// Given a declared range, a patched_versions range, and available versions from the registry,
/// find the highest version satisfying both ranges. Returns None if no such version exists.
pub fn resolve_fix_version<V>(
    declared_range_str: &str,
    patched_range_str: &str,
    available_versions: &StrMap<V>,
) -> (r: Option<String>)
    ensures
        opt_view(r) == fix_version(declared_range_str@, patched_range_str@, available_versions.kseq()),
        r matches Some(x) ==> forall|j: int|
            0 <= j < available_versions.kseq().len() && satisfies_all(
                seq![declared_range_str@, patched_range_str@],
                #[trigger] available_versions.kseq()[j],
            ) && available_versions.kseq()[j] != x@ ==> !semver_gt(available_versions.kseq()[j], x@),
{
    if !range_parses(declared_range_str) || !range_parses(patched_range_str) {
        return None;
    }
    let ranges = [declared_range_str, patched_range_str];
    let r = highest_satisfying_key(&ranges, available_versions);
    proof {
        assert(ranges@.map_values(|r: &str| r@) =~= seq![declared_range_str@, patched_range_str@]);
    }
    r
}

/// The ranges joined into one that asks for all of them: the single range
/// itself, or (for several) the space-joined ranges when that parses.
pub open spec fn merged_patched(ps: Seq<Seq<char>>) -> Option<Seq<char>> {
    if ps.len() == 0 {
        None
    } else if ps.len() == 1 {
        Some(ps[0])
    } else if semver_range_parses(join(ps, " "@)) {
        Some(join(ps, " "@))
    } else {
        None
    }
}

/// Compute the strictest patched range when a package has multiple advisories.
/// Returns the range where all patched_versions ranges intersect (i.e., the version
/// must satisfy ALL patched ranges simultaneously).
pub fn merge_patched_ranges(patched_ranges: &[&str]) -> (r: Option<String>)
    ensures
        opt_view(r) == merged_patched(patched_ranges@.map_values(|p: &str| p@)),
{
    if patched_ranges.len() == 0 {
        return None;
    }
    if patched_ranges.len() == 1 {
        return Some(owned(patched_ranges[0]));
    }
    let mut parts: Vec<String> = Vec::new();
    let mut i: usize = 0;
    while i < patched_ranges.len()
        invariant
            i <= patched_ranges.len(),
            parts@.map_values(|p: String| p@) == patched_ranges@.take(i as int).map_values(|p: &str| p@),
        decreases patched_ranges.len() - i,
    {
        let ghost pb = parts@;
        let o = owned(patched_ranges[i]);
        parts.push(o);
        proof {
            assert(parts@.map_values(|p: String| p@) =~= pb.map_values(|p: String| p@).push(
                patched_ranges@[i as int]@,
            ));
            assert(parts@.map_values(|p: String| p@) =~= patched_ranges@.take(i + 1).map_values(
                |p: &str| p@,
            ));
        }
        i += 1;
    }
    proof {
        assert(patched_ranges@.take(patched_ranges.len() as int) =~= patched_ranges@);
    }
    let combined = join_strings(&parts, " ");
    if range_parses(combined.as_str()) {
        Some(combined)
    } else {
        None
    }
}

} // verus!

verus! {

/// A table row without its newline.
#[verifier::opaque]
pub open spec fn row_line(cells: Seq<Seq<char>>, w: Seq<nat>) -> Seq<char> {
    "│ "@ + pad_right(cells[0], w[0]) + " │ "@ + pad_right(cells[1], w[1]) + " │ "@ + pad_right(
        cells[2],
        w[2],
    ) + " │ "@ + pad_right(cells[3], w[3]) + " │ "@ + pad_right(cells[4], w[4]) + " │"@
}

/// A horizontal rule without its newline.
#[verifier::opaque]
pub open spec fn rule_line(l: char, m: char, r: char, w: Seq<nat>) -> Seq<char> {
    seq![l] + repeat_char('─', w[0] + 2) + seq![m] + repeat_char('─', w[1] + 2) + seq![m] + repeat_char(
        '─',
        w[2] + 2,
    ) + seq![m] + repeat_char('─', w[3] + 2) + seq![m] + repeat_char('─', w[4] + 2) + seq![r]
}

/// The first row of an advisory: severity, package, version, patched, title.
pub open spec fn main_cells(e: AuditEntry) -> Seq<Seq<char>> {
    seq![severity_name(e.severity), e.name@, e.version@, e.patched@, e.title@]
}

/// The second row of an advisory: how it is pulled in, and its URL.
pub open spec fn link_cells(e: AuditEntry) -> Seq<Seq<char>> {
    seq![seq![], parent_label(e), seq![], seq![], e.url@]
}

/// The two lines of each advisory, in order.
pub open spec fn rows_lines(es: Seq<AuditEntry>, w: Seq<nat>) -> Seq<Seq<char>>
    decreases es.len(),
{
    if es.len() == 0 {
        seq![]
    } else {
        rows_lines(es.drop_last(), w) + seq![row_line(main_cells(es.last()), w), row_line(link_cells(es.last()), w)]
    }
}

/// The lines of the table.
pub open spec fn audit_lines(es: Seq<AuditEntry>) -> Seq<Seq<char>> {
    let w = audit_widths(es);
    if es.len() == 0 {
        seq![]
    } else {
        seq![
            rule_line('┌', '┬', '┐', w),
            row_line(header_cells(), w),
            rule_line('├', '┼', '┤', w),
        ] + rows_lines(es, w) + seq![rule_line('└', '┴', '┘', w)]
    }
}

proof fn lemma_row_newline(cells: Seq<Seq<char>>, w: Seq<nat>)
    requires
        cells.len() == 5,
        w.len() == 5,
    ensures
        table_row(cells, w) == row_line(cells, w) + seq!['\n'],
{
    reveal(row_line);
    reveal_strlit(" │\n");
    reveal_strlit(" │");
    assert(table_row(cells, w) =~= row_line(cells, w) + seq!['\n']);
}

proof fn lemma_pad_no_newline(s: Seq<char>, w: nat)
    requires
        no_newline(s),
    ensures
        no_newline(pad_right(s, w)),
{
    if s.len() < w {
        assert(no_newline(spaces((w - s.len()) as nat)));
        lemma_no_newline_add(s, spaces((w - s.len()) as nat));
    }
}

#[verifier::spinoff_prover]
#[verifier::rlimit(60)]
proof fn lemma_row_no_newline(cells: Seq<Seq<char>>, w: Seq<nat>)
    requires
        cells.len() == 5,
        w.len() == 5,
        no_newline(cells[0]),
        no_newline(cells[1]),
        no_newline(cells[2]),
        no_newline(cells[3]),
        no_newline(cells[4]),
    ensures
        no_newline(row_line(cells, w)),
{
    reveal(row_line);
    reveal_strlit(" │");
    reveal_strlit(" │ ");
    reveal_strlit("│ ");
    let sep = " │ "@;
    assert(no_newline(sep));
    assert(no_newline("│ "@));
    assert(no_newline(" │"@));
    lemma_pad_no_newline(cells[0], w[0]);
    lemma_pad_no_newline(cells[1], w[1]);
    lemma_pad_no_newline(cells[2], w[2]);
    lemma_pad_no_newline(cells[3], w[3]);
    lemma_pad_no_newline(cells[4], w[4]);
    let a0 = "│ "@ + pad_right(cells[0], w[0]);
    lemma_no_newline_add("│ "@, pad_right(cells[0], w[0]));
    lemma_no_newline_add(a0, sep);
    let a1 = a0 + sep + pad_right(cells[1], w[1]);
    lemma_no_newline_add(a0 + sep, pad_right(cells[1], w[1]));
    lemma_no_newline_add(a1, sep);
    let a2 = a1 + sep + pad_right(cells[2], w[2]);
    lemma_no_newline_add(a1 + sep, pad_right(cells[2], w[2]));
    lemma_no_newline_add(a2, sep);
    let a3 = a2 + sep + pad_right(cells[3], w[3]);
    lemma_no_newline_add(a2 + sep, pad_right(cells[3], w[3]));
    lemma_no_newline_add(a3, sep);
    let a4 = a3 + sep + pad_right(cells[4], w[4]);
    lemma_no_newline_add(a3 + sep, pad_right(cells[4], w[4]));
    lemma_no_newline_add(a4, " │"@);
}

proof fn lemma_row_occurs(cells: Seq<Seq<char>>, w: Seq<nat>, j: int)
    requires
        cells.len() == 5,
        w.len() == 5,
        0 <= j < 5,
    ensures
        occurs_in(cells[j], row_line(cells, w)),
{
    reveal(row_line);
    let x = cells[j];
    let p0 = pad_right(cells[0], w[0]);
    let p1 = pad_right(cells[1], w[1]);
    let p2 = pad_right(cells[2], w[2]);
    let p3 = pad_right(cells[3], w[3]);
    let p4 = pad_right(cells[4], w[4]);
    let l = "│ "@;
    let m = " │ "@;
    let r = " │"@;
    let s0 = l + p0;
    let s1 = s0 + m + p1;
    let s2 = s1 + m + p2;
    let s3 = s2 + m + p3;
    let s4 = s3 + m + p4;
    lemma_occurs_pad(x, w[j]);
    if j == 0 {
        lemma_occurs_after(x, l, p0);
    } else if j == 1 {
        lemma_occurs_after(x, s0 + m, p1);
    } else if j == 2 {
        lemma_occurs_after(x, s1 + m, p2);
    } else if j == 3 {
        lemma_occurs_after(x, s2 + m, p3);
    } else {
        lemma_occurs_after(x, s3 + m, p4);
    }
    if j < 1 {
        lemma_occurs_then(x, s0, m + p1);
        assert(s0 + (m + p1) =~= s1);
    }
    if j < 2 {
        lemma_occurs_then(x, s1, m + p2);
        assert(s1 + (m + p2) =~= s2);
    }
    if j < 3 {
        lemma_occurs_then(x, s2, m + p3);
        assert(s2 + (m + p3) =~= s3);
    }
    if j < 4 {
        lemma_occurs_then(x, s3, m + p4);
        assert(s3 + (m + p4) =~= s4);
    }
    lemma_occurs_then(x, s4, r);
    assert(s4 + r == row_line(cells, w));
}

proof fn lemma_rule_line(l: char, m: char, r: char, w: Seq<nat>)
    requires
        w.len() == 5,
        l != '\n' && m != '\n' && r != '\n',
    ensures
        table_rule(l, m, r, w) == rule_line(l, m, r, w) + seq!['\n'],
        no_newline(rule_line(l, m, r, w)),
        rule_line(l, m, r, w).len() > 0,
        rule_line(l, m, r, w)[0] == l,
        rule_line(l, m, r, w).last() == r,
{
    reveal(rule_line);
    reveal_strlit("\n");
    assert(table_rule(l, m, r, w) =~= rule_line(l, m, r, w) + seq!['\n']);
}

#[verifier::spinoff_prover]
#[verifier::rlimit(60)]
proof fn lemma_rows_lines(es: Seq<AuditEntry>, w: Seq<nat>)
    requires
        w.len() == 5,
    ensures
        all_rows(es, w) == unlines(rows_lines(es, w)),
        rows_lines(es, w).len() == 2 * es.len(),
        forall|k: int|
            0 <= k < es.len() ==> rows_lines(es, w)[2 * k] == row_line(main_cells(#[trigger] es[k]), w)
                && rows_lines(es, w)[2 * k + 1] == row_line(link_cells(es[k]), w),
    decreases es.len(),
{
    if es.len() > 0 {
        let d = es.drop_last();
        let e = es.last();
        lemma_rows_lines(d, w);
        lemma_row_newline(main_cells(e), w);
        lemma_row_newline(link_cells(e), w);
        let x = row_line(main_cells(e), w);
        let y = row_line(link_cells(e), w);
        let two = seq![x, y];
        lemma_unlines_add(rows_lines(d, w), two);
        lemma_unlines_one(x);
        lemma_unlines_one(y);
        lemma_unlines_add(seq![x], seq![y]);
        assert(seq![x] + seq![y] =~= two);
        assert(entry_rows(e, w) == table_row(main_cells(e), w) + table_row(link_cells(e), w));
        assert(all_rows(es, w) =~= unlines(rows_lines(es, w)));
        assert forall|k: int| 0 <= k < es.len() implies rows_lines(es, w)[2 * k] == row_line(
            main_cells(#[trigger] es[k]),
            w,
        ) && rows_lines(es, w)[2 * k + 1] == row_line(link_cells(es[k]), w) by {
            if k < d.len() {
                assert(d[k] == es[k]);
            }
        }
    }
}

/// The fields of the advisories hold no newline.
pub open spec fn fields_one_line(es: Seq<AuditEntry>) -> bool {
    forall|k: int|
        0 <= k < es.len() ==> {
            &&& no_newline((#[trigger] es[k]).name@)
            &&& no_newline(es[k].version@)
            &&& no_newline(es[k].patched@)
            &&& no_newline(es[k].title@)
            &&& no_newline(es[k].url@)
            &&& (es[k].parent matches Some(p) ==> no_newline(p@))
        }
}

/// The header row's cells.
pub open spec fn header_cells() -> Seq<Seq<char>> {
    seq!["Severity"@, "Package"@, "Version"@, "Patched"@, "Title"@]
}

#[verifier::spinoff_prover]
#[verifier::rlimit(60)]
proof fn lemma_audit_unlines(es: Seq<AuditEntry>)
    requires
        es.len() > 0,
    ensures
        audit_text(es) == unlines(audit_lines(es)),
        audit_lines(es).len() == 2 * es.len() + 4,
        forall|k: int|
            0 <= k < es.len() ==> audit_lines(es)[3 + 2 * k] == row_line(
                main_cells(#[trigger] es[k]),
                audit_widths(es),
            ) && audit_lines(es)[4 + 2 * k] == row_line(link_cells(es[k]), audit_widths(es)),
        audit_lines(es)[0] == rule_line('┌', '┬', '┐', audit_widths(es)),
        audit_lines(es)[1] == row_line(header_cells(), audit_widths(es)),
        audit_lines(es)[2] == rule_line('├', '┼', '┤', audit_widths(es)),
        audit_lines(es)[2 * es.len() + 3int] == rule_line('└', '┴', '┘', audit_widths(es)),
{
    let w = audit_widths(es);
    let ls = audit_lines(es);
    let hdr = header_cells();
    let t0 = rule_line('┌', '┬', '┐', w);
    let t1 = row_line(hdr, w);
    let t2 = rule_line('├', '┼', '┤', w);
    let b0 = rule_line('└', '┴', '┘', w);
    let top = seq![t0, t1, t2];
    let rows = rows_lines(es, w);
    let bot = seq![b0];
    lemma_rule_line('┌', '┬', '┐', w);
    lemma_rule_line('├', '┼', '┤', w);
    lemma_rule_line('└', '┴', '┘', w);
    lemma_row_newline(hdr, w);
    lemma_rows_lines(es, w);
    lemma_unlines_add(top, rows);
    lemma_unlines_add(top + rows, bot);
    lemma_unlines_one(t0);
    lemma_unlines_one(t1);
    lemma_unlines_one(t2);
    lemma_unlines_one(b0);
    lemma_unlines_add(seq![t0], seq![t1]);
    lemma_unlines_add(seq![t0, t1], seq![t2]);
    assert(seq![t0] + seq![t1] =~= seq![t0, t1]);
    assert(seq![t0, t1] + seq![t2] =~= top);
    assert(ls == top + rows + bot);
    assert(audit_text(es) =~= unlines(ls));
    assert forall|k: int| 0 <= k < es.len() implies ls[3 + 2 * k] == row_line(main_cells(#[trigger] es[k]), w)
        && ls[4 + 2 * k] == row_line(link_cells(es[k]), w) by {
        assert(ls[3 + 2 * k] == rows[2 * k]);
        assert(ls[4 + 2 * k] == rows[2 * k + 1]);
    }
}

#[verifier::spinoff_prover]
#[verifier::rlimit(60)]
proof fn lemma_audit_no_newline(es: Seq<AuditEntry>)
    requires
        es.len() > 0,
        fields_one_line(es),
    ensures
        forall|j: int| 0 <= j < audit_lines(es).len() ==> no_newline(#[trigger] audit_lines(es)[j]),
{
    let w = audit_widths(es);
    let ls = audit_lines(es);
    lemma_audit_unlines(es);
    lemma_rule_line('┌', '┬', '┐', w);
    lemma_rule_line('├', '┼', '┤', w);
    lemma_rule_line('└', '┴', '┘', w);
    reveal_strlit("Severity");
    reveal_strlit("Package");
    reveal_strlit("Version");
    reveal_strlit("Patched");
    reveal_strlit("Title");
    lemma_row_no_newline(header_cells(), w);
    assert forall|j: int| 0 <= j < ls.len() implies no_newline(#[trigger] ls[j]) by {
        if 3 <= j < ls.len() - 1 {
            let k = (j - 3) / 2;
            assert(0 <= k < es.len());
            let e = es[k];
            reveal_strlit("via ");
            reveal_strlit("(direct)");
            reveal_strlit("low");
            reveal_strlit("moderate");
            reveal_strlit("high");
            reveal_strlit("critical");
            assert(no_newline(severity_name(e.severity)));
            assert(no_newline(Seq::<char>::empty()));
            if e.parent is Some {
                lemma_no_newline_add("via "@, e.parent.unwrap()@);
            }
            assert(no_newline(parent_label(e)));
            lemma_row_no_newline(main_cells(e), w);
            lemma_row_no_newline(link_cells(e), w);
        }
    }
}

/// The table's lines: none without advisories; otherwise `2n + 4` lines, the
/// top rule first (`┌`), the header, the rule under it (`├`), two lines per
/// advisory and the bottom rule last (ending in `┘`). The first line of the
/// `k`-th advisory holds its package, version, patched range and title; the
/// second its URL and `via <parent>` or `(direct)`. Where no field holds a
/// newline, no line does.
#[verifier::spinoff_prover]
#[verifier::rlimit(60)]
pub proof fn law_audit_table_lines(es: Seq<AuditEntry>)
    ensures
        es.len() == 0 ==> audit_text(es) == Seq::<char>::empty(),
        es.len() > 0 ==> {
            let ls = audit_lines(es);
            &&& audit_text(es) == unlines(ls)
            &&& ls.len() == 2 * es.len() + 4
            &&& ls[0][0] == '┌' && ls[2][0] == '├' && ls[ls.len() - 1][0] == '└'
            &&& ls[ls.len() - 1].last() == '┘'
            &&& forall|k: int|
                0 <= k < es.len() ==> {
                    &&& occurs_in((#[trigger] es[k]).name@, ls[3 + 2 * k])
                    &&& occurs_in(es[k].version@, ls[3 + 2 * k])
                    &&& occurs_in(es[k].patched@, ls[3 + 2 * k])
                    &&& occurs_in(es[k].title@, ls[3 + 2 * k])
                    &&& occurs_in(es[k].url@, ls[4 + 2 * k])
                    &&& occurs_in(parent_label(es[k]), ls[4 + 2 * k])
                }
        },
        es.len() > 0 && fields_one_line(es) ==> forall|j: int|
            0 <= j < audit_lines(es).len() ==> no_newline(#[trigger] audit_lines(es)[j]),
{
    if es.len() > 0 {
        let w = audit_widths(es);
        let ls = audit_lines(es);
        lemma_audit_unlines(es);
        lemma_rule_line('┌', '┬', '┐', w);
        lemma_rule_line('├', '┼', '┤', w);
        lemma_rule_line('└', '┴', '┘', w);
        assert forall|k: int| 0 <= k < es.len() implies {
            &&& occurs_in((#[trigger] es[k]).name@, ls[3 + 2 * k])
            &&& occurs_in(es[k].version@, ls[3 + 2 * k])
            &&& occurs_in(es[k].patched@, ls[3 + 2 * k])
            &&& occurs_in(es[k].title@, ls[3 + 2 * k])
            &&& occurs_in(es[k].url@, ls[4 + 2 * k])
            &&& occurs_in(parent_label(es[k]), ls[4 + 2 * k])
        } by {
            let mc = main_cells(es[k]);
            let lc = link_cells(es[k]);
            lemma_row_occurs(mc, w, 1);
            lemma_row_occurs(mc, w, 2);
            lemma_row_occurs(mc, w, 3);
            lemma_row_occurs(mc, w, 4);
            lemma_row_occurs(lc, w, 1);
            lemma_row_occurs(lc, w, 4);
        }
        if fields_one_line(es) {
            lemma_audit_no_newline(es);
        }
    }
}


proof fn lemma_occurs_in_join(parts: Seq<Seq<char>>, sep: Seq<char>, k: int)
    requires
        0 <= k < parts.len(),
    ensures
        occurs_in(parts[k], join(parts, sep)),
    decreases parts.len(),
{
    let x = parts[k];
    if parts.len() == 1 {
        assert(x.subrange(0, 0int + x.len()) =~= x);
    } else {
        let d = parts.drop_last();
        if k == parts.len() - 1 {
            let a = join(d, sep) + sep;
            assert((a + x).subrange(a.len() as int, a.len() as int + x.len()) =~= x);
        } else {
            lemma_occurs_in_join(d, sep, k);
            assert(d[k] == x);
            lemma_occurs_then(x, join(d, sep), sep + parts.last());
            assert(join(d, sep) + (sep + parts.last()) =~= join(d, sep) + sep + parts.last());
        }
    }
}

/// How many advisories have each severity: together they are all.
pub proof fn lemma_severity_counts(es: Seq<AuditEntry>)
    ensures
        count_sev(es, Severity::Critical) + count_sev(es, Severity::High) + count_sev(es, Severity::Moderate)
            + count_sev(es, Severity::Low) == es.len(),
    decreases es.len(),
{
    if es.len() > 0 {
        lemma_severity_counts(es.drop_last());
    }
}

/// The summary line of a non-empty audit breaks the advisories down by
/// severity: for each severity that some advisory has, `<n> <severity>`
/// (with `n` the number of advisories of that severity) appears in the
/// line, and these counts add up to the total the line starts with.
pub proof fn law_audit_summary_counts(es: Seq<AuditEntry>, below: nat, s: Severity)
    ensures
        count_sev(es, Severity::Critical) + count_sev(es, Severity::High) + count_sev(es, Severity::Moderate)
            + count_sev(es, Severity::Low) == es.len(),
        count_sev(es, s) > 0 ==> occurs_in(
            dec(count_sev(es, s)) + " "@ + severity_name(s),
            audit_summary(es, below),
        ),
        es.len() > 0 ==> (dec(es.len()) + " "@).is_prefix_of(audit_summary(es, below)),
{
    lemma_severity_counts(es);
    if es.len() > 0 {
        let pc = count_part(count_sev(es, Severity::Critical), "critical"@);
        let ph = count_part(count_sev(es, Severity::High), "high"@);
        let pm = count_part(count_sev(es, Severity::Moderate), "moderate"@);
        let pl = count_part(count_sev(es, Severity::Low), "low"@);
        let parts = pc + ph + pm + pl;
        let word: Seq<char> = if es.len() == 1 { "vulnerability"@ } else { "vulnerabilities"@ };
        let head = dec(es.len()) + " "@ + word + " found ("@;
        let tail: Seq<char> = ")"@ + (if below > 0 {
            ". "@ + dec(below) + " below threshold not shown."@
        } else {
            seq![]
        });
        let text = audit_summary(es, below);
        assert(text =~= head + join(parts, ", "@) + tail);
        let pre = dec(es.len()) + " "@;
        assert(text.subrange(0, pre.len() as int) =~= pre);
        if count_sev(es, s) > 0 {
            let x = dec(count_sev(es, s)) + " "@ + severity_name(s);
            let k: int = match s {
                Severity::Critical => 0,
                Severity::High => pc.len() as int,
                Severity::Moderate => (pc.len() + ph.len()) as int,
                Severity::Low => (pc.len() + ph.len() + pm.len()) as int,
            };
            assert(0 <= k < parts.len() && parts[k] == x);
            lemma_occurs_in_join(parts, ", "@, k);
            lemma_occurs_after(x, head, join(parts, ", "@));
            lemma_occurs_then(x, head + join(parts, ", "@), tail);
        }
    }
}


/// The summary line's frame: without advisories it says none were found,
/// adding how many below the threshold are not shown when there are some;
/// with advisories it starts with their number and `vulnerability` (for
/// one) or `vulnerabilities`, and ends with the note on those below the
/// threshold when there are some, else with the closing `)`.
pub proof fn law_audit_summary_frame(es: Seq<AuditEntry>, below: nat)
    ensures
        es.len() == 0 && below == 0 ==> audit_summary(es, below) == "No vulnerabilities found."@,
        es.len() == 0 && below > 0 ==> audit_summary(es, below) == "No vulnerabilities found at or above threshold. "@
            + dec(below) + " below threshold not shown."@,
        es.len() == 1 ==> (dec(1) + " vulnerability found ("@).is_prefix_of(audit_summary(es, below)),
        es.len() > 1 ==> (dec(es.len()) + " vulnerabilities found ("@).is_prefix_of(audit_summary(es, below)),
        es.len() > 0 && below > 0 ==> (". "@ + dec(below) + " below threshold not shown."@).is_suffix_of(
            audit_summary(es, below),
        ),
        es.len() > 0 && below == 0 ==> audit_summary(es, below).last() == ')',
{
    if es.len() > 0 {
        reveal_strlit(" ");
        reveal_strlit("vulnerability");
        reveal_strlit("vulnerabilities");
        reveal_strlit(" found (");
        reveal_strlit(" vulnerability found (");
        reveal_strlit(" vulnerabilities found (");
        reveal_strlit(")");
        let pc = count_part(count_sev(es, Severity::Critical), "critical"@);
        let ph = count_part(count_sev(es, Severity::High), "high"@);
        let pm = count_part(count_sev(es, Severity::Moderate), "moderate"@);
        let pl = count_part(count_sev(es, Severity::Low), "low"@);
        let parts = pc + ph + pm + pl;
        let word: Seq<char> = if es.len() == 1 { "vulnerability"@ } else { "vulnerabilities"@ };
        let head = dec(es.len()) + " "@ + word + " found ("@;
        let note: Seq<char> = if below > 0 {
            ". "@ + dec(below) + " below threshold not shown."@
        } else {
            seq![]
        };
        let text = audit_summary(es, below);
        assert(text =~= head + (join(parts, ", "@) + ")"@ + note));
        let h2: Seq<char> = if es.len() == 1 {
            dec(1) + " vulnerability found ("@
        } else {
            dec(es.len()) + " vulnerabilities found ("@
        };
        assert(head =~= h2);
        assert(text.subrange(0, head.len() as int) =~= head);
        assert(text =~= (head + join(parts, ", "@) + ")"@) + note);
        if below > 0 {
            let pre = head + join(parts, ", "@) + ")"@;
            assert(text.subrange(pre.len() as int, text.len() as int) =~= note);
        } else {
            assert(text.last() == ')');
        }
    }
}


/// The closing event of the JSON audit output counts the advisories: it
/// holds the number of each severity (`"critical":n`, `"high":n`,
/// `"moderate":n`, `"low":n`), their total under `"vulnerabilities"`, the
/// number below the threshold; and the output gives the number of packages
/// audited.
pub proof fn law_audit_json_counts(es: Seq<AuditEntry>, total: nat, below: nat, s: Severity)
    ensures
        occurs_in(jfield(severity_name(s), dec(count_sev(es, s))), audit_json(es, total, below)),
        occurs_in(jfield("vulnerabilities"@, dec(es.len())), audit_json(es, total, below)),
        occurs_in(jfield("below_threshold"@, dec(below)), audit_json(es, total, below)),
        occurs_in(jfield("packages"@, dec(total)), audit_json(es, total, below)),
{
    let fields = seq![
        jfield("below_threshold"@, dec(below)),
        jfield("critical"@, dec(count_sev(es, Severity::Critical))),
        jfield("event"@, json_quote("audit_complete"@)),
        jfield("high"@, dec(count_sev(es, Severity::High))),
        jfield("low"@, dec(count_sev(es, Severity::Low))),
        jfield("moderate"@, dec(count_sev(es, Severity::Moderate))),
        jfield("vulnerabilities"@, dec(es.len())),
    ];
    let first = seq![jfield("event"@, json_quote("audit_start"@)), jfield("packages"@, dec(total))];
    let head = jobj(first) + "\n"@ + advisories_json(es);
    let text = audit_json(es, total, below);
    assert(text =~= head + jobj(fields) + "\n"@);
    let k: int = match s {
        Severity::Critical => 1,
        Severity::High => 3,
        Severity::Moderate => 5,
        Severity::Low => 4,
    };
    reveal_strlit("critical");
    reveal_strlit("high");
    reveal_strlit("moderate");
    reveal_strlit("low");
    assert(fields[k] == jfield(severity_name(s), dec(count_sev(es, s))));
    let inner = join(fields, seq![',']);
    let close = seq!['}'] + "\n"@;
    assert(text =~= (head + seq!['{']) + inner + close);
    lemma_occurs_in_join(fields, seq![','], k);
    lemma_occurs_after(fields[k], head + seq!['{'], inner);
    lemma_occurs_then(fields[k], head + seq!['{'] + inner, close);
    lemma_occurs_in_join(fields, seq![','], 6);
    lemma_occurs_after(fields[6], head + seq!['{'], inner);
    lemma_occurs_then(fields[6], head + seq!['{'] + inner, close);
    lemma_occurs_in_join(fields, seq![','], 0);
    lemma_occurs_after(fields[0], head + seq!['{'], inner);
    lemma_occurs_then(fields[0], head + seq!['{'] + inner, close);
    let inner1 = join(first, seq![',']);
    let rest1 = seq!['}'] + "\n"@ + advisories_json(es) + jobj(fields) + "\n"@;
    assert(text =~= seq!['{'] + inner1 + rest1);
    lemma_occurs_in_join(first, seq![','], 1);
    lemma_occurs_after(first[1], seq!['{'], inner1);
    lemma_occurs_then(first[1], seq!['{'] + inner1, rest1);
}

} // verus!
