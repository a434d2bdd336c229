//! Cache statistics reports.

use vstd::prelude::*;
use crate::json::{jfield, jobj, json_quote, JsonObj};
use crate::text::{dec, digit_char, owned, push_char, push_dec, push_str};

verus! {

/// Stats about cache contents
#[derive(Debug, Clone, PartialEq, Eq)]
pub struct CacheStats {
    pub location: String,
    pub metadata_bytes: u64,
    pub metadata_entries: usize,
    pub store_bytes: u64,
    pub store_packages: usize,
}

/// Result of cache clean operation
#[derive(Debug, Clone, PartialEq, Eq)]
pub struct CacheCleanResult {
    pub bytes_removed: u64,
    pub packages_removed: usize,
    pub metadata_entries_removed: usize,
}

/// `a / d` rounded to the nearest integer, ties to the even neighbour.
pub open spec fn rhe_div(a: nat, d: nat) -> nat {
    let q = a / d;
    let r = a % d;
    if 2 * r > d || (2 * r == d && q % 2 == 1) {
        (q + 1) as nat
    } else {
        q
    }
}

/// `b as f64` for a `u64`: the nearest value with a 53-bit significand,
/// ties to even.
pub open spec fn f64_round(b: nat) -> nat {
    if b < 0x20_0000_0000_0000 {
        b
    } else if b < 0x40_0000_0000_0000 {
        rhe_div(b, 2) * 2
    } else if b < 0x80_0000_0000_0000 {
        rhe_div(b, 4) * 4
    } else if b < 0x100_0000_0000_0000 {
        rhe_div(b, 8) * 8
    } else if b < 0x200_0000_0000_0000 {
        rhe_div(b, 16) * 16
    } else if b < 0x400_0000_0000_0000 {
        rhe_div(b, 32) * 32
    } else if b < 0x800_0000_0000_0000 {
        rhe_div(b, 64) * 64
    } else if b < 0x1000_0000_0000_0000 {
        rhe_div(b, 128) * 128
    } else if b < 0x2000_0000_0000_0000 {
        rhe_div(b, 256) * 256
    } else if b < 0x4000_0000_0000_0000 {
        rhe_div(b, 512) * 512
    } else if b < 0x8000_0000_0000_0000 {
        rhe_div(b, 1024) * 1024
    } else {
        rhe_div(b, 2048) * 2048
    }
}

/// A count of tenths written with one decimal: `123` → `12.3`.
pub open spec fn one_decimal(tenths: nat) -> Seq<char> {
    dec(tenths / 10) + seq!['.', digit_char(tenths % 10)]
}

/// `format!("{:.1}", b as f64 / unit as f64)` for a power-of-two unit: the
/// quotient is exact, then rounded to tenths half-to-even.
pub open spec fn scaled(b: nat, unit: nat) -> Seq<char> {
    one_decimal(rhe_div(f64_round(b) * 10, unit))
}

/// Human-readable size: `B` below 1 KiB, else KB, MB or GB with one decimal.
pub open spec fn format_bytes_spec(b: nat) -> Seq<char> {
    if b >= 1_073_741_824 {
        scaled(b, 1_073_741_824) + seq![' ', 'G', 'B']
    } else if b >= 1_048_576 {
        scaled(b, 1_048_576) + seq![' ', 'M', 'B']
    } else if b >= 1024 {
        scaled(b, 1024) + seq![' ', 'K', 'B']
    } else {
        dec(b) + seq![' ', 'B']
    }
}

fn rhe_div_exec(a: u128, d: u128) -> (r: u128)
    requires
        d > 0,
        d < 0x1_0000_0000_0000_0000,
        a < 0x1_0000_0000_0000_0000_0000,
    ensures
        r == rhe_div(a as nat, d as nat),
        r <= a / d + 1,
{
    let q = a / d;
    let r = a % d;
    if 2 * r > d || (2 * r == d && q % 2 == 1) {
        q + 1
    } else {
        q
    }
}

fn round_to(b: u64, d: u128) -> (r: u128)
    requires
        d > 0,
        d <= 2048,
    ensures
        r == rhe_div(b as nat, d as nat) * d,
{
    let q = rhe_div_exec(b as u128, d);
    assert(q * d <= (b as u128 / d + 1) * d) by (nonlinear_arith)
        requires
            q <= b as u128 / d + 1,
            d > 0,
    ;
    assert((b as u128 / d + 1) * d <= b as u128 + d) by (nonlinear_arith)
        requires
            d > 0,
    ;
    q * d
}

fn f64_round_exec(b: u64) -> (r: u128)
    ensures
        r == f64_round(b as nat),
        r <= 0x1_0000_0000_0000_0800,
{
    let r = if b < 0x20_0000_0000_0000 {
        b as u128
    } else if b < 0x40_0000_0000_0000 {
        round_to(b, 2)
    } else if b < 0x80_0000_0000_0000 {
        round_to(b, 4)
    } else if b < 0x100_0000_0000_0000 {
        round_to(b, 8)
    } else if b < 0x200_0000_0000_0000 {
        round_to(b, 16)
    } else if b < 0x400_0000_0000_0000 {
        round_to(b, 32)
    } else if b < 0x800_0000_0000_0000 {
        round_to(b, 64)
    } else if b < 0x1000_0000_0000_0000 {
        round_to(b, 128)
    } else if b < 0x2000_0000_0000_0000 {
        round_to(b, 256)
    } else if b < 0x4000_0000_0000_0000 {
        round_to(b, 512)
    } else if b < 0x8000_0000_0000_0000 {
        round_to(b, 1024)
    } else {
        round_to(b, 2048)
    };
    r
}

fn push_scaled(s: &mut String, b: u64, unit: u128)
    requires
        unit == 1024 || unit == 1_048_576 || unit == 1_073_741_824,
    ensures
        final(s)@ == old(s)@ + scaled(b as nat, unit as nat),
{
    let f = f64_round_exec(b);
    let f10 = f * 10;
    let t = rhe_div_exec(f10, unit);
    assert(t <= f10 / unit + 1);
    assert(t / 10 <= u64::MAX) by (nonlinear_arith)
        requires
            t <= f10 / unit + 1,
            f10 == f * 10,
            f <= 0x1_0000_0000_0000_0800,
            unit >= 1024,
    ;
    push_dec(s, (t / 10) as u64);
    push_char(s, '.');
    let d = (t % 10) as u64;
    push_dec(s, d);
    proof {
        assert(dec(d as nat) == seq![digit_char(d as nat)]);
        assert(old(s)@ + dec((t / 10) as nat) + seq!['.'] + seq![digit_char((t % 10) as nat)]
            =~= old(s)@ + scaled(b as nat, unit as nat));
    }
}

/// Format bytes in human-readable form
pub fn format_bytes(bytes: u64) -> (r: String)
    ensures
        r@ == format_bytes_spec(bytes as nat),
{
    let mut s = String::new();
    let ghost e = s@;
    if bytes >= 1_073_741_824 {
        push_scaled(&mut s, bytes, 1_073_741_824);
        push_char(&mut s, ' ');
        push_char(&mut s, 'G');
        push_char(&mut s, 'B');
    } else if bytes >= 1_048_576 {
        push_scaled(&mut s, bytes, 1_048_576);
        push_char(&mut s, ' ');
        push_char(&mut s, 'M');
        push_char(&mut s, 'B');
    } else if bytes >= 1024 {
        push_scaled(&mut s, bytes, 1024);
        push_char(&mut s, ' ');
        push_char(&mut s, 'K');
        push_char(&mut s, 'B');
    } else {
        push_dec(&mut s, bytes);
        push_char(&mut s, ' ');
        push_char(&mut s, 'B');
    }
    assert(s@ =~= e + format_bytes_spec(bytes as nat));
    s
}

/// The cache report text.
pub open spec fn cache_list_text(st: CacheStats) -> Seq<char> {
    "Cache location: "@ + st.location@ + "\n"@
        + "  Registry metadata: "@ + format_bytes_spec(st.metadata_bytes as nat) + " ("@
        + dec(st.metadata_entries as nat) + " entries)\n"@
        + "  Package store: "@ + format_bytes_spec(st.store_bytes as nat) + " ("@
        + dec(st.store_packages as nat) + " packages)\n"@
        + "  Total: "@ + format_bytes_spec((st.metadata_bytes + st.store_bytes) as nat) + "\n"@
}

/// Format cache stats as human-readable text
pub fn format_cache_list_text(stats: &CacheStats) -> (r: String)
    requires
        stats.metadata_bytes + stats.store_bytes <= u64::MAX,
    ensures
        r@ == cache_list_text(*stats),
{
    let mut output = owned("Cache location: ");
    push_str(&mut output, stats.location.as_str());
    push_str(&mut output, "\n");
    push_str(&mut output, "  Registry metadata: ");
    push_str(&mut output, format_bytes(stats.metadata_bytes).as_str());
    push_str(&mut output, " (");
    push_dec(&mut output, stats.metadata_entries as u64);
    push_str(&mut output, " entries)\n");
    push_str(&mut output, "  Package store: ");
    push_str(&mut output, format_bytes(stats.store_bytes).as_str());
    push_str(&mut output, " (");
    push_dec(&mut output, stats.store_packages as u64);
    push_str(&mut output, " packages)\n");
    push_str(&mut output, "  Total: ");
    push_str(&mut output, format_bytes(stats.metadata_bytes + stats.store_bytes).as_str());
    push_str(&mut output, "\n");
    output
}

/// The cache report as one JSON line.
pub open spec fn cache_list_json(st: CacheStats) -> Seq<char> {
    jobj(
        seq![
            jfield("location"@, json_quote(st.location@)),
            jfield("metadata_bytes"@, dec(st.metadata_bytes as nat)),
            jfield("metadata_entries"@, dec(st.metadata_entries as nat)),
            jfield("store_bytes"@, dec(st.store_bytes as nat)),
            jfield("store_packages"@, dec(st.store_packages as nat)),
        ],
    ) + "\n"@
}

/// Format cache stats as JSON (single line)
pub fn format_cache_list_json(stats: &CacheStats) -> (r: String)
    ensures
        r@ == cache_list_json(*stats),
{
    let mut o = JsonObj::new();
    o.str_field("location", stats.location.as_str());
    o.num_field("metadata_bytes", stats.metadata_bytes);
    o.num_field("metadata_entries", stats.metadata_entries as u64);
    o.num_field("store_bytes", stats.store_bytes);
    o.num_field("store_packages", stats.store_packages as u64);
    let ghost fs = o.fields@;
    let mut r = o.finish();
    push_str(&mut r, "\n");
    assert(fs =~= seq![
        jfield("location"@, json_quote(stats.location@)),
        jfield("metadata_bytes"@, dec(stats.metadata_bytes as nat)),
        jfield("metadata_entries"@, dec(stats.metadata_entries as nat)),
        jfield("store_bytes"@, dec(stats.store_bytes as nat)),
        jfield("store_packages"@, dec(stats.store_packages as nat)),
    ]);
    r
}

/// The cache clean report text.
pub open spec fn cache_clean_text(res: CacheCleanResult) -> Seq<char> {
    "Removed "@ + format_bytes_spec(res.bytes_removed as nat) + " from cache ("@
        + dec(res.packages_removed as nat) + " packages, "@
        + dec(res.metadata_entries_removed as nat) + " metadata entries)\n"@
}

/// Format cache clean result as human-readable text
pub fn format_cache_clean_text(result: &CacheCleanResult) -> (r: String)
    ensures
        r@ == cache_clean_text(*result),
{
    let mut output = owned("Removed ");
    push_str(&mut output, format_bytes(result.bytes_removed).as_str());
    push_str(&mut output, " from cache (");
    push_dec(&mut output, result.packages_removed as u64);
    push_str(&mut output, " packages, ");
    push_dec(&mut output, result.metadata_entries_removed as u64);
    push_str(&mut output, " metadata entries)\n");
    output
}

/// The cache clean report as one JSON line.
pub open spec fn cache_clean_json(res: CacheCleanResult) -> Seq<char> {
    jobj(
        seq![
            jfield("bytes_removed"@, dec(res.bytes_removed as nat)),
            jfield("event"@, json_quote("cache_cleaned"@)),
            jfield("metadata_entries_removed"@, dec(res.metadata_entries_removed as nat)),
            jfield("packages_removed"@, dec(res.packages_removed as nat)),
        ],
    ) + "\n"@
}

/// Format cache clean result as JSON
pub fn format_cache_clean_json(result: &CacheCleanResult) -> (r: String)
    ensures
        r@ == cache_clean_json(*result),
{
    let mut o = JsonObj::new();
    o.num_field("bytes_removed", result.bytes_removed);
    o.str_field("event", "cache_cleaned");
    o.num_field("metadata_entries_removed", result.metadata_entries_removed as u64);
    o.num_field("packages_removed", result.packages_removed as u64);
    let ghost fs = o.fields@;
    let mut r = o.finish();
    push_str(&mut r, "\n");
    assert(fs =~= seq![
        jfield("bytes_removed"@, dec(result.bytes_removed as nat)),
        jfield("event"@, json_quote("cache_cleaned"@)),
        jfield("metadata_entries_removed"@, dec(result.metadata_entries_removed as nat)),
        jfield("packages_removed"@, dec(result.packages_removed as nat)),
    ]);
    r
}

} // verus!

verus! {

/// What cleaning removes, counted from the stats taken before: with
/// `metadata_only` the metadata alone, else the metadata and the store.
pub fn clean_summary(stats: &CacheStats, metadata_only: bool) -> (r: CacheCleanResult)
    requires
        metadata_only || stats.metadata_bytes + stats.store_bytes <= u64::MAX,
    ensures
        r.metadata_entries_removed == stats.metadata_entries,
        metadata_only ==> r.bytes_removed == stats.metadata_bytes && r.packages_removed == 0,
        !metadata_only ==> r.bytes_removed == stats.metadata_bytes + stats.store_bytes && r.packages_removed
            == stats.store_packages,
{
    if metadata_only {
        CacheCleanResult {
            bytes_removed: stats.metadata_bytes,
            packages_removed: 0,
            metadata_entries_removed: stats.metadata_entries,
        }
    } else {
        CacheCleanResult {
            bytes_removed: stats.metadata_bytes + stats.store_bytes,
            packages_removed: stats.store_packages,
            metadata_entries_removed: stats.metadata_entries,
        }
    }
}

} // verus!
