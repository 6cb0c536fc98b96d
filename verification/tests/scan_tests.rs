use pulito::cleanup::{
    cache_item_action, clean_items, get_cache_items, get_recommended_cache_limit,
    is_safe_cache_dir_name, old_files_summary, run_clean_batch, user_log_dirs, CacheItemAction,
    CleanCandidate,
};
use pulito::health::{scan_filesystem_health, FsEntry, FsEntryKind};
use pulito::phases::{
    browser_cache_targets, build_cache_items, build_package_items, package_cache_targets,
    scan_large_files, scan_logs, sort_items_by_path_asc, sort_items_by_size_desc,
    user_cache_targets, CacheDirScan, DirCandidate, FileCandidate, PkgCacheScan,
};
use pulito::scanner::{
    assemble_scan_results, enabled_phase_count, format_bytes, memory_exceeded, overall_progress,
    resolve_limits, PhaseOutcome, ScanItem, ScanLimits, ScanOptions,
};
use pulito::security::{PathFacts, PermissionFacts, SecurityContext};
use pulito::packages::{get_package_stats, PackageInfo};
use pulito::tree::{build_tree_structure, make_tree_node, parent_path, tree_entry_accepted};

fn file(path: &str, name: &str, size: u64) -> FileCandidate {
    FileCandidate { path: path.to_string(), name: name.to_string(), size }
}

fn item(path: &str, size: u64) -> ScanItem {
    ScanItem {
        id: String::new(),
        name: path.to_string(),
        path: path.to_string(),
        size,
        item_type: "file".to_string(),
        category: "x".to_string(),
        risk_level: 0,
        description: String::new(),
        children: None,
        dependencies: None,
        dependents: None,
    }
}

fn limits(max_files: usize) -> ScanLimits {
    ScanLimits { max_files, max_depth: 10, max_memory_mb: 500, timeout_seconds: 300 }
}

#[test]
fn default_options_and_limits() {
    let opts = ScanOptions::default();
    assert!(opts.include_caches && opts.include_packages && opts.include_logs);
    assert!(opts.include_large_files);
    let l = resolve_limits(&opts);
    assert_eq!(l.max_files, 50000);
    assert_eq!(l.max_depth, 10);
    assert_eq!(l.max_memory_mb, 500);
    assert_eq!(l.timeout_seconds, 300);
    assert_eq!(enabled_phase_count(&opts), 4);
}

#[test]
fn progress_rolls_up_and_caps() {
    assert_eq!(overall_progress(0, 0, 0), 0);
    assert_eq!(overall_progress(0, 50, 4), 12);
    assert_eq!(overall_progress(2, 50, 4), 62);
    assert_eq!(overall_progress(4, 100, 4), 100);
    assert_eq!(overall_progress(1, 0, 1), 100);
}

#[test]
fn memory_ceiling_decision() {
    let l = limits(10);
    assert!(!memory_exceeded(500, &l));
    assert!(memory_exceeded(501, &l));
}

#[test]
fn scan_with_zero_max_files_is_empty_with_no_failures() {
    let mut opts = ScanOptions::default();
    opts.max_files = Some(0);
    let l = resolve_limits(&opts);
    assert_eq!(l.max_files, 0);
    // Even with candidates on disk, a zero cap keeps every phase empty.
    let logs = scan_logs(&vec![file("/h/.local/share/a.log", "a.log", 99_999_999)], &l);
    assert!(logs.is_empty());
    let large = scan_large_files(
        &vec![file("/h/Downloads/big.iso", "big.iso", 9_999_999_999)],
        &vec![],
        &l,
    );
    assert!(large.is_empty());
    let caches = build_cache_items(
        &vec![CacheDirScan {
            path: "/h/.cache".to_string(),
            name: "User Cache".to_string(),
            exists: true,
            size: 123,
            subdirs: vec![],
        }],
        &vec![],
        &l,
    );
    assert!(caches.is_empty());
    let packages = build_package_items(
        &vec![PkgCacheScan {
            path: "/var/cache/apt/archives".to_string(),
            name: "APT Package Cache".to_string(),
            category: "Package Manager".to_string(),
            description: "Downloaded .deb packages - safe to remove".to_string(),
            exists: true,
            size: 456,
        }],
        &l,
    );
    assert!(packages.is_empty());
    let outcomes = vec![
        PhaseOutcome { category: "caches".to_string(), outcome: Ok(caches) },
        PhaseOutcome { category: "packages".to_string(), outcome: Ok(packages) },
        PhaseOutcome { category: "logs".to_string(), outcome: Ok(logs) },
        PhaseOutcome { category: "large_files".to_string(), outcome: Ok(large) },
    ];
    let r = assemble_scan_results(outcomes, 5, 0);
    assert!(r.items.is_empty());
    assert_eq!(r.total_size, 0);
    assert_eq!(r.total_items, 0);
    assert!(r.failed_categories.is_empty());
}

#[test]
fn assemble_keeps_partial_results_and_failures() {
    let outcomes = vec![
        PhaseOutcome {
            category: "caches".to_string(),
            outcome: Ok(vec![item("/a", 100), item("/b", 50)]),
        },
        PhaseOutcome {
            category: "packages".to_string(),
            outcome: Err("cannot determine home directory".to_string()),
        },
        PhaseOutcome { category: "logs".to_string(), outcome: Ok(vec![item("/c", 25)]) },
    ];
    let r = assemble_scan_results(outcomes, 17, 42);
    assert_eq!(r.items.len(), 3);
    assert_eq!(r.total_size, 175);
    assert_eq!(r.total_items, 3);
    assert_eq!(r.scan_time_ms, 17);
    assert_eq!(r.timestamp, 42);
    assert_eq!(r.failed_categories.len(), 1);
    assert_eq!(r.failed_categories[0].category, "packages");
    assert_eq!(r.failed_categories[0].error, "cannot determine home directory");
}

#[test]
fn children_count_toward_totals() {
    let mut parent = item("/cache", 1000);
    parent.children = Some(vec![item("/cache/a", 600), item("/cache/b", 300)]);
    let outcomes = vec![PhaseOutcome { category: "caches".to_string(), outcome: Ok(vec![parent]) }];
    let r = assemble_scan_results(outcomes, 0, 0);
    // One top item plus its two children; only the top size counts.
    assert_eq!(r.total_items, 3);
    assert_eq!(r.total_size, 1000);
}

#[test]
fn log_phase_keeps_large_log_names_only() {
    let entries = vec![
        file("/h/.local/share/app/big.log", "big.log", 20_000_000),
        file("/h/.local/share/app/small.log", "small.log", 1_000),
        file("/h/.local/share/app/big.txt", "big.txt", 20_000_000),
        file("/h/.local/share/app/rot.log.3", "rot.log.3", 20_000_000),
    ];
    let r = scan_logs(&entries, &limits(100));
    assert_eq!(r.len(), 2);
    assert_eq!(r[0].name, "big.log");
    assert_eq!(r[1].name, "rot.log.3");
    assert_eq!(r[0].category, "Logs");
    assert_eq!(r[0].risk_level, 1);
    assert_eq!(r[0].id.len(), 36);
}

#[test]
fn cache_phase_filters_and_nests_subdirs() {
    let user = vec![
        CacheDirScan {
            path: "/h/.cache".to_string(),
            name: "User Cache".to_string(),
            exists: true,
            size: 100_000_000,
            subdirs: vec![
                DirCandidate { path: "/h/.cache/a".to_string(), name: "a".to_string(), size: 9_000_000 },
                DirCandidate { path: "/h/.cache/b".to_string(), name: "b".to_string(), size: 1_000_000 },
                DirCandidate { path: "/h/.cache/c".to_string(), name: "c".to_string(), size: 80_000_000 },
            ],
        },
        CacheDirScan {
            path: "/h/.thumbnails".to_string(),
            name: "Thumbnails".to_string(),
            exists: false,
            size: 5,
            subdirs: vec![],
        },
    ];
    let browser = vec![
        CacheDirScan {
            path: "/h/.cache/google-chrome".to_string(),
            name: "Chrome Cache".to_string(),
            exists: true,
            size: 50_000_000,
            subdirs: vec![],
        },
        CacheDirScan {
            path: "/h/.cache/chromium".to_string(),
            name: "Chromium Cache".to_string(),
            exists: true,
            size: 1_000_000,
            subdirs: vec![],
        },
    ];
    let r = build_cache_items(&user, &browser, &limits(100));
    assert_eq!(r.len(), 2);
    assert_eq!(r[0].name, "User Cache");
    assert_eq!(r[0].category, "Cache");
    let children = r[0].children.as_ref().unwrap();
    // Only subdirectories over 5 MiB, largest first.
    assert_eq!(children.len(), 2);
    assert_eq!(children[0].name, "c");
    assert_eq!(children[1].name, "a");
    assert_eq!(r[1].name, "Chrome Cache");
    assert_eq!(r[1].category, "Browser");
    assert!(r[1].children.is_none());
}

#[test]
fn package_phase_keeps_existing_nonempty_caches() {
    let scans = vec![
        PkgCacheScan {
            path: "/var/cache/apt/archives".to_string(),
            name: "APT Package Cache".to_string(),
            category: "Package Manager".to_string(),
            description: "Downloaded .deb packages - safe to remove".to_string(),
            exists: true,
            size: 123,
        },
        PkgCacheScan {
            path: "/h/.cache/pip".to_string(),
            name: "pip Cache".to_string(),
            category: "Python".to_string(),
            description: "Python package cache - safe to remove".to_string(),
            exists: true,
            size: 0,
        },
    ];
    let r = build_package_items(&scans, &limits(100));
    assert_eq!(r.len(), 1);
    assert_eq!(r[0].name, "APT Package Cache");
    assert_eq!(r[0].category, "Package Manager");
    assert_eq!(r[0].size, 123);
}

#[test]
fn phase_targets_name_the_well_known_directories() {
    let u = user_cache_targets("/home/u");
    assert_eq!(u[0].path, "/home/u/.cache");
    assert_eq!(u[1].path, "/home/u/.local/share/Trash");
    assert_eq!(u[2].name, "Thumbnails");
    let b = browser_cache_targets("/home/u");
    assert_eq!(b[1].path, "/home/u/.cache/mozilla/firefox");
    let p = package_cache_targets("/home/u");
    assert_eq!(p[0].path, "/var/cache/apt/archives");
    assert_eq!(p[2].path, "/home/u/.npm/_cacache");
    assert_eq!(p[2].category, "Node.js");
}

#[test]
fn large_files_sorted_and_capped() {
    let downloads = vec![
        file("/h/Downloads/a", "a", 200_000_000),
        file("/h/Downloads/b", "b", 50_000_000),
    ];
    let documents = vec![file("/h/Documents/c", "c", 900_000_000)];
    let r = scan_large_files(&downloads, &documents, &limits(100));
    assert_eq!(r.len(), 2);
    assert_eq!(r[0].name, "c");
    assert_eq!(r[1].name, "a");
    assert_eq!(r[0].risk_level, 2);
}

#[test]
fn sorts_are_stable_by_key() {
    let v = vec![item("/b", 5), item("/a", 9), item("/c", 5)];
    let by_size = sort_items_by_size_desc(v);
    assert_eq!(by_size[0].path, "/a");
    assert_eq!(by_size[1].path, "/b");
    assert_eq!(by_size[2].path, "/c");
    let v2 = vec![item("/b", 1), item("/a", 2), item("/c", 3)];
    let by_path = sort_items_by_path_asc(v2);
    assert_eq!(by_path[0].path, "/a");
    assert_eq!(by_path[1].path, "/b");
    assert_eq!(by_path[2].path, "/c");
}

#[test]
fn format_bytes_values() {
    assert_eq!(format_bytes(0), "0.00 B");
    assert_eq!(format_bytes(1023), "1023.00 B");
    assert_eq!(format_bytes(1024), "1.00 KB");
    assert_eq!(format_bytes(1536), "1.50 KB");
    // Two decimals round to nearest: 1535 B is 1.4990... KiB.
    assert_eq!(format_bytes(1535), "1.50 KB");
    assert_eq!(format_bytes(1485), "1.45 KB");
    assert_eq!(format_bytes(1048576), "1.00 MB");
    assert_eq!(format_bytes(1073741824), "1.00 GB");
    assert_eq!(format_bytes(1099511627776), "1.00 TB");
    // Rounding carries just under a unit boundary.
    assert_eq!(format_bytes(1048575), "1024.00 KB");
}

#[test]
fn health_scan_classifies_entries() {
    fn entry(path: &str, name: &str, kind: FsEntryKind) -> FsEntry {
        FsEntry {
            path: path.to_string(),
            name: name.to_string(),
            kind,
            size: 0,
            depth: 1,
            child_count: 1,
            child_count_recheck: 1,
            symlink_target: String::new(),
            symlink_target_exists: true,
            age_secs: None,
        }
    }
    let mut empty = entry("/h/emptydir", "emptydir", FsEntryKind::Directory);
    empty.child_count = 0;
    empty.child_count_recheck = 0;
    let mut raced = entry("/h/raced", "raced", FsEntryKind::Directory);
    raced.child_count = 0;
    raced.child_count_recheck = 1;
    let mut dead = entry("/h/dead", "dead", FsEntryKind::Symlink);
    dead.symlink_target_exists = false;
    dead.symlink_target = "/gone".to_string();
    let alive = entry("/h/alive", "alive", FsEntryKind::Symlink);
    let mut stale = entry("/h/notes.bak", "notes.bak", FsEntryKind::File);
    stale.size = 77;
    stale.age_secs = Some(40 * 86400);
    let mut fresh = entry("/h/today.bak", "today.bak", FsEntryKind::File);
    fresh.age_secs = Some(86400);
    let entries = vec![empty, raced, dead, alive, stale, fresh];
    let r = scan_filesystem_health(&entries, "/h");
    assert_eq!(r.empty_directories.len(), 1);
    assert_eq!(r.empty_directories[0].id, "empty_dir_0");
    assert_eq!(r.empty_directories[0].category, "empty_directory");
    assert_eq!(r.broken_symlinks.len(), 1);
    assert_eq!(
        r.broken_symlinks[0].description,
        "Broken symlink pointing to non-existent target: /gone"
    );
    assert_eq!(r.orphaned_temp_files.len(), 1);
    assert_eq!(r.orphaned_temp_files[0].size, 77);
    assert_eq!(
        r.orphaned_temp_files[0].description,
        "Orphaned temporary file, 40 days old"
    );
    assert_eq!(r.total_items, 3);
    assert_eq!(r.total_size, 77);
}

#[test]
fn clean_request_with_system_and_home_item() {
    let ok = PathFacts {
        canonical: Some("/home/user/junk".to_string()),
        metadata: Some(PermissionFacts { readonly: false, owner_uid: 1000 }),
        exists: true,
        caller_uid: 1000,
    };
    let sys = PathFacts {
        canonical: Some("/etc/passwd".to_string()),
        metadata: Some(PermissionFacts { readonly: false, owner_uid: 0 }),
        exists: true,
        caller_uid: 1000,
    };
    let candidates = vec![
        CleanCandidate {
            id: "1".to_string(),
            path: "/etc/passwd".to_string(),
            facts: sys,
            size: 4096,
            action_ok: true,
        },
        CleanCandidate {
            id: "2".to_string(),
            path: "/home/user/junk".to_string(),
            facts: ok,
            size: 1000,
            action_ok: true,
        },
    ];
    let r = clean_items(&candidates, "/home/user");
    assert_eq!(r.cleaned, 1);
    assert_eq!(r.failed, 1);
    assert_eq!(r.total_size, 1000);
}

#[test]
fn clean_batch_counts_action_failures() {
    let facts = PathFacts {
        canonical: Some("/home/user/a".to_string()),
        metadata: Some(PermissionFacts { readonly: false, owner_uid: 1000 }),
        exists: true,
        caller_uid: 1000,
    };
    let candidates = vec![CleanCandidate {
        id: "1".to_string(),
        path: "/home/user/a".to_string(),
        facts,
        size: 10,
        action_ok: false,
    }];
    let r = run_clean_batch(&candidates, SecurityContext::Deletion, "/home/user");
    assert_eq!(r.cleaned, 0);
    assert_eq!(r.failed, 1);
    assert_eq!(r.total_size, 0);
}

#[test]
fn cache_cleanup_selection_and_recommendations() {
    assert!(is_safe_cache_dir_name("google-chrome"));
    assert!(is_safe_cache_dir_name("pip"));
    assert!(!is_safe_cache_dir_name("ssh"));
    assert_eq!(get_recommended_cache_limit("browser"), Some(1024 * 1024 * 1024));
    assert_eq!(get_recommended_cache_limit("development"), Some(2 * 1024 * 1024 * 1024));
    assert_eq!(get_recommended_cache_limit("system"), Some(512 * 1024 * 1024));
    assert_eq!(get_recommended_cache_limit("other"), None);
    let dirs = user_log_dirs("/home/u");
    assert_eq!(dirs[0], "/home/u/.local/share/logs");
    assert_eq!(dirs[1], "/home/u/.cache/logs");
}

#[test]
fn cache_items_listing_and_dispatch() {
    let items = get_cache_items(100, 0, 30);
    assert_eq!(items.len(), 2);
    assert_eq!(items[0].name, "Chrome temporary files");
    assert_eq!(items[1].name, "Python packages cache");
    assert!(items[1].can_clear);
    assert_eq!(
        cache_item_action("Firefox cache"),
        Some(CacheItemAction::ClearUserCaches)
    );
    assert_eq!(
        cache_item_action("Python packages cache"),
        Some(CacheItemAction::CleanPackageCaches)
    );
    assert_eq!(cache_item_action("nothing"), None);
}

#[test]
fn old_files_summary_counts_and_sums() {
    let r = old_files_summary(&vec![10, 20, 30], 90);
    assert_eq!(r.total_files, 3);
    assert_eq!(r.total_size, 60);
    assert_eq!(r.cutoff_days, 90);
}

#[test]
fn package_stats_from_inventories() {
    fn pkg(name: &str, size: u64) -> PackageInfo {
        PackageInfo {
            name: name.to_string(),
            version: "1".to_string(),
            size,
            description: String::new(),
            dependencies: vec![],
            dependents: vec![],
            is_orphan: false,
            package_manager: "apt".to_string(),
        }
    }
    let packages = vec![pkg("a", 10), pkg("b", 20), pkg("c", 5)];
    let orphans = vec![pkg("c", 5)];
    let stats = get_package_stats(&packages, &orphans);
    assert_eq!(stats.total_packages, 3);
    assert_eq!(stats.orphan_packages, 1);
    assert_eq!(stats.orphan_size, 5);
}

#[test]
fn tree_filters_and_nests() {
    assert!(tree_entry_accepted("visible.txt", false, 100, false, 10, &vec![]));
    assert!(!tree_entry_accepted(".hidden", false, 100, false, 10, &vec![]));
    assert!(tree_entry_accepted(".hidden", false, 100, true, 10, &vec![]));
    assert!(!tree_entry_accepted("small", false, 5, false, 10, &vec![]));
    assert!(tree_entry_accepted("smalldir", true, 5, false, 10, &vec![]));
    assert!(tree_entry_accepted("match.log", false, 100, false, 10, &vec!["log".to_string()]));
    assert!(!tree_entry_accepted("other.txt", false, 100, false, 10, &vec!["log".to_string()]));

    assert_eq!(parent_path("/r/a/b"), Some("/r/a".to_string()));
    assert_eq!(parent_path("/r"), Some("/".to_string()));
    assert_eq!(parent_path("/"), None);

    let items = vec![
        make_tree_node("/r/a", "a", 10, true, 0, 0),
        make_tree_node("/r/a/b", "b", 5, false, 0, 0),
        make_tree_node("/r/c", "c", 1, false, 0, 0),
    ];
    let tree = build_tree_structure(&items, "/r");
    assert_eq!(tree.len(), 2);
    assert_eq!(tree[0].path, "/r/a");
    let kids = tree[0].children.as_ref().unwrap();
    assert_eq!(kids.len(), 1);
    assert_eq!(kids[0].path, "/r/a/b");
    assert!(kids[0].children.is_none());
    assert_eq!(tree[1].path, "/r/c");
    assert!(tree[1].children.is_none());
    assert_eq!(tree[0].risk_level, "safe");
}
