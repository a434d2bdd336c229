use vtz::pm::cache::{
    clean_summary, format_bytes, format_cache_clean_json, format_cache_clean_text, format_cache_list_json,
    format_cache_list_text, CacheCleanResult, CacheStats,
};

#[test]
fn test_format_bytes_bytes() {
    assert_eq!(format_bytes(0), "0 B");
    assert_eq!(format_bytes(512), "512 B");
    assert_eq!(format_bytes(1023), "1023 B");
}

#[test]
fn test_format_bytes_kb() {
    assert_eq!(format_bytes(1024), "1.0 KB");
    assert_eq!(format_bytes(1536), "1.5 KB");
}

#[test]
fn test_format_bytes_mb() {
    assert_eq!(format_bytes(1_048_576), "1.0 MB");
    assert_eq!(format_bytes(12_400_000), "11.8 MB");
}

#[test]
fn test_format_bytes_gb() {
    assert_eq!(format_bytes(1_073_741_824), "1.0 GB");
    assert_eq!(format_bytes(1_200_000_000), "1.1 GB");
}

#[test]
fn format_bytes_rounds_half_to_even_like_float_formatting() {
    // 1.25 KB is exactly representable: `{:.1}` rounds the tie to even.
    assert_eq!(format_bytes(1280), "1.2 KB");
    // 1.75 KB rounds up to the even digit 8.
    assert_eq!(format_bytes(1792), "1.8 KB");
    assert_eq!(format_bytes(u64::MAX), "17179869184.0 GB");
}

fn sample_stats() -> CacheStats {
    CacheStats {
        location: "/home/dev/.vertz/cache/npm".to_string(),
        metadata_bytes: 12_400_000,
        metadata_entries: 342,
        store_bytes: 1_200_000_000,
        store_packages: 1847,
    }
}

#[test]
fn test_format_cache_list_text() {
    let stats = sample_stats();
    let output = format_cache_list_text(&stats);
    assert!(output.contains("/home/dev/.vertz/cache/npm"));
    assert!(output.contains("342 entries"));
    assert!(output.contains("1847 packages"));
}

#[test]
fn test_format_cache_list_json() {
    let stats = sample_stats();
    let json = format_cache_list_json(&stats);
    let parsed: serde_json::Value = serde_json::from_str(json.trim()).unwrap();
    assert_eq!(parsed["location"], "/home/dev/.vertz/cache/npm");
    assert_eq!(parsed["metadata_bytes"], 12_400_000);
    assert_eq!(parsed["metadata_entries"], 342);
    assert_eq!(parsed["store_bytes"], 1_200_000_000_u64);
    assert_eq!(parsed["store_packages"], 1847);
}

#[test]
fn test_format_cache_clean_text() {
    let result = CacheCleanResult {
        bytes_removed: 1_200_000_000,
        packages_removed: 1847,
        metadata_entries_removed: 342,
    };
    let text = format_cache_clean_text(&result);
    assert!(text.contains("1847 packages"));
    assert!(text.contains("342 metadata entries"));
}

#[test]
fn test_format_cache_clean_json() {
    let result = CacheCleanResult {
        bytes_removed: 1_200_000_000,
        packages_removed: 1847,
        metadata_entries_removed: 342,
    };
    let json = format_cache_clean_json(&result);
    let parsed: serde_json::Value = serde_json::from_str(json.trim()).unwrap();
    assert_eq!(parsed["event"], "cache_cleaned");
    assert_eq!(parsed["bytes_removed"], 1_200_000_000_u64);
    assert_eq!(parsed["packages_removed"], 1847);
}

#[test]
fn clean_summary_counts_what_goes() {
    let stats = CacheStats {
        location: "/c".to_string(),
        metadata_bytes: 10,
        metadata_entries: 2,
        store_bytes: 30,
        store_packages: 3,
    };
    let all = clean_summary(&stats, false);
    assert_eq!((all.bytes_removed, all.packages_removed, all.metadata_entries_removed), (40, 3, 2));
    let meta = clean_summary(&stats, true);
    assert_eq!((meta.bytes_removed, meta.packages_removed, meta.metadata_entries_removed), (10, 0, 2));
}
