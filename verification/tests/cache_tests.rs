use pulito::cache::{CacheManager, ScanCacheEntry};

#[test]
fn test_dir_size_cache() {
    let cache = CacheManager::with_ttls(1000, 1000);
    let mut cache = cache;

    let path = "/test/path";

    // Cache miss
    assert_eq!(cache.get_dir_size(path, 0), None);

    // Cache set
    cache.set_dir_size(path, 1024, 0);

    // Cache hit
    assert_eq!(cache.get_dir_size(path, 0), Some(1024));

    // Miss again once the window has elapsed
    assert_eq!(cache.get_dir_size(path, 1100), None);
}

#[test]
fn test_cache_cleanup() {
    let mut cache = CacheManager::with_ttls(100, 100);

    let path = "/test/path";
    cache.set_dir_size(path, 1024, 0);

    // Should have 1 entry
    let stats = cache.stats(0);
    assert_eq!(stats.dir_size_entries, 1);

    // Past the window, cleanup drops the expired entry
    cache.cleanup_dir_sizes(150);

    // Should have 0 entries
    let stats = cache.stats(150);
    assert_eq!(stats.dir_size_entries, 0);
}

#[test]
fn ttl_boundary_is_exclusive() {
    let mut cache = CacheManager::with_ttls(500, 500);
    cache.set_dir_size("/p", 7, 100);
    // Visible strictly before the expiry instant, gone from it on.
    assert_eq!(cache.get_dir_size("/p", 599), Some(7));
    assert_eq!(cache.get_dir_size("/p", 600), None);
    assert_eq!(cache.get_dir_size("/p", 601), None);
}

#[test]
fn set_overwrites_and_other_keys_unaffected() {
    let mut cache = CacheManager::with_ttls(1000, 1000);
    cache.set_dir_size("/a", 1, 0);
    cache.set_dir_size("/b", 2, 0);
    cache.set_dir_size("/a", 10, 50);
    assert_eq!(cache.get_dir_size("/a", 100), Some(10));
    assert_eq!(cache.get_dir_size("/b", 100), Some(2));
    let stats = cache.stats(100);
    assert_eq!(stats.dir_size_entries, 2);
}

#[test]
fn scan_result_bucket_works_independently() {
    let mut cache = CacheManager::with_ttls(100, 2000);
    let entry = ScanCacheEntry {
        total_size: 1234,
        total_items: 5,
        timestamp: "then".to_string(),
    };
    cache.set_scan_results("full", entry, 0);
    let got = cache.get_scan_results("full", 1999).unwrap();
    assert_eq!(got.total_size, 1234);
    assert_eq!(got.total_items, 5);
    assert_eq!(got.timestamp, "then");
    assert!(cache.get_scan_results("full", 2000).is_none());
    // Directory bucket is untouched.
    assert_eq!(cache.get_dir_size("full", 0), None);
}

#[test]
fn stats_counts_expired_entries() {
    let mut cache = CacheManager::with_ttls(100, 100);
    cache.set_dir_size("/a", 1, 0);
    cache.set_dir_size("/b", 2, 500);
    let stats = cache.stats(300);
    assert_eq!(stats.dir_size_entries, 2);
    assert_eq!(stats.dir_size_expired, 1);
    assert_eq!(stats.scan_result_entries, 0);
    assert_eq!(stats.scan_result_expired, 0);
}

#[test]
fn clear_all_empties_both_buckets() {
    let mut cache = CacheManager::new();
    cache.set_dir_size("/a", 1, 0);
    cache.set_scan_results(
        "k",
        ScanCacheEntry { total_size: 0, total_items: 0, timestamp: String::new() },
        0,
    );
    cache.clear_all();
    let stats = cache.stats(0);
    assert_eq!(stats.dir_size_entries, 0);
    assert_eq!(stats.scan_result_entries, 0);
}

#[test]
fn default_windows_are_five_and_ten_minutes() {
    let mut cache = CacheManager::new();
    cache.set_dir_size("/a", 1, 0);
    assert_eq!(cache.get_dir_size("/a", 299_999), Some(1));
    assert_eq!(cache.get_dir_size("/a", 300_000), None);
    cache.set_scan_results(
        "k",
        ScanCacheEntry { total_size: 9, total_items: 1, timestamp: String::new() },
        0,
    );
    assert!(cache.get_scan_results("k", 599_999).is_some());
    assert!(cache.get_scan_results("k", 600_000).is_none());
}
