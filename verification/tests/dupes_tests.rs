use pulito::dupes::{
    chunk_plan, duplicate_candidates, fingerprint_from_samples, group_duplicates,
    scan_large_files_storage_recovery, scan_old_downloads, scan_storage_recovery, HashedFile,
};
use pulito::phases::{AgedFileCandidate, FileCandidate};

const MIB: u64 = 1024 * 1024;

fn hashed(path: &str, size: u64, fp: Option<u64>) -> HashedFile {
    HashedFile { path: path.to_string(), name: path.to_string(), size, fingerprint: fp }
}

fn windows_of(data: &[u8]) -> (Vec<u8>, Vec<u8>, Vec<u8>) {
    let plan = chunk_plan(data.len() as u64);
    let first = data[..plan.first_len as usize].to_vec();
    let middle = match plan.middle {
        Some((off, len)) => data[off as usize..(off + len) as usize].to_vec(),
        None => Vec::new(),
    };
    let last = match plan.last {
        Some((off, len)) => data[off as usize..(off + len) as usize].to_vec(),
        None => Vec::new(),
    };
    (first, middle, last)
}

fn fingerprint_of(data: &[u8]) -> u64 {
    let (first, middle, last) = windows_of(data);
    fingerprint_from_samples(data.len() as u64, &first, &middle, &last)
}

#[test]
fn chunk_plan_windows() {
    let p = chunk_plan(0);
    assert_eq!(p.first_len, 0);
    assert!(p.middle.is_none() && p.last.is_none());

    let p = chunk_plan(1000);
    assert_eq!(p.first_len, 1000);
    assert!(p.middle.is_none() && p.last.is_none());

    let p = chunk_plan(100_000);
    assert_eq!(p.first_len, 65536);
    assert!(p.middle.is_none());
    assert_eq!(p.last, Some((100_000 - 65536, 65536)));

    let p = chunk_plan(2 * MIB);
    assert_eq!(p.first_len, 65536);
    assert_eq!(p.middle, Some((MIB, 65536)));
    assert_eq!(p.last, Some((2 * MIB - 65536, 65536)));
}

#[test]
fn equal_sampled_windows_land_in_one_group() {
    // Two files of equal size and equal bytes in every sampled window
    // get the same fingerprint and one shared group.
    let data = vec![7u8; 3 * MIB as usize];
    let fp_a = fingerprint_of(&data);
    let fp_b = fingerprint_of(&data);
    assert_eq!(fp_a, fp_b);
    let files = vec![
        hashed("/h/a", 3 * MIB, Some(fp_a)),
        hashed("/h/other", 999_999, Some(1)),
        hashed("/h/b", 3 * MIB, Some(fp_b)),
    ];
    let groups = group_duplicates(&files);
    assert_eq!(groups.len(), 1);
    assert_eq!(groups[0].group_size, 2);
    assert_eq!(groups[0].files.len(), 2);
    assert_eq!(groups[0].files[0].path, "/h/a");
    assert_eq!(groups[0].files[1].path, "/h/b");
    assert_eq!(groups[0].total_size, 2 * 3 * MIB);
    assert_eq!(groups[0].id, "dup_group_0");
    assert_eq!(groups[0].files[0].category, "duplicate");
}

#[test]
fn differing_first_byte_separates_groups() {
    let data_a = vec![0u8; 4096];
    let mut data_b = data_a.clone();
    data_b[0] = 1;
    let fa = fingerprint_of(&data_a);
    let fb = fingerprint_of(&data_b);
    assert_ne!(fa, fb);
    let files = vec![hashed("/h/a", 4096, Some(fa)), hashed("/h/b", 4096, Some(fb))];
    let groups = group_duplicates(&files);
    assert!(groups.is_empty());
}

#[test]
fn two_mib_files_differing_in_last_bytes_do_not_match() {
    // Two files of identical size, 2 MiB, differing only in their last
    // ten bytes: the sampled last window differs, so the fingerprints
    // differ and the files land in separate (here: no) groups.
    let data_a = vec![42u8; 2 * MIB as usize];
    let mut data_b = data_a.clone();
    let n = data_b.len();
    for k in 0..10 {
        data_b[n - 1 - k] = 0;
    }
    let fa = fingerprint_of(&data_a);
    let fb = fingerprint_of(&data_b);
    assert_ne!(fa, fb);
    let files = vec![hashed("/h/a", 2 * MIB, Some(fa)), hashed("/h/b", 2 * MIB, Some(fb))];
    let groups = group_duplicates(&files);
    assert!(groups.is_empty());
}

#[test]
fn pass_one_selects_shared_size_buckets() {
    let files = vec![
        FileCandidate { path: "/h/a".to_string(), name: "a".to_string(), size: 5000 },
        FileCandidate { path: "/h/b".to_string(), name: "b".to_string(), size: 6000 },
        FileCandidate { path: "/h/c".to_string(), name: "c".to_string(), size: 5000 },
        FileCandidate { path: "/h/tiny1".to_string(), name: "tiny1".to_string(), size: 100 },
        FileCandidate { path: "/h/tiny2".to_string(), name: "tiny2".to_string(), size: 100 },
    ];
    let wanted = duplicate_candidates(&files);
    assert_eq!(wanted, vec![true, false, true, false, false]);
}

#[test]
fn small_and_unhashed_files_never_group() {
    let files = vec![
        hashed("/h/a", 1024, Some(5)),
        hashed("/h/b", 1024, Some(5)),
        hashed("/h/c", 4096, None),
        hashed("/h/d", 4096, None),
    ];
    let groups = group_duplicates(&files);
    assert!(groups.is_empty());
}

#[test]
fn groups_follow_first_occurrence_order() {
    let files = vec![
        hashed("/h/x1", 5000, Some(1)),
        hashed("/h/y1", 6000, Some(2)),
        hashed("/h/x2", 5000, Some(1)),
        hashed("/h/y2", 6000, Some(2)),
        hashed("/h/x3", 5000, Some(1)),
    ];
    let groups = group_duplicates(&files);
    assert_eq!(groups.len(), 2);
    assert_eq!(groups[0].files.len(), 3);
    assert_eq!(groups[0].files[2].path, "/h/x3");
    assert_eq!(groups[1].files.len(), 2);
    assert_eq!(groups[1].id, "dup_group_1");
}

#[test]
fn recovery_large_files_sorted_with_formatted_description() {
    let entries = vec![
        FileCandidate { path: "/h/a".to_string(), name: "a".to_string(), size: 2_147_483_648 },
        FileCandidate { path: "/h/b".to_string(), name: "b".to_string(), size: 500 },
        FileCandidate { path: "/h/c".to_string(), name: "c".to_string(), size: 3_221_225_472 },
    ];
    let r = scan_large_files_storage_recovery(&entries, 1_073_741_824);
    assert_eq!(r.len(), 2);
    assert_eq!(r[0].name, "c");
    assert_eq!(r[0].description, "Large file: 3.00 GB");
    assert_eq!(r[1].name, "a");
    assert_eq!(r[0].risk_level, 3);
    assert_eq!(r[0].category, "large_file");
}

#[test]
fn old_downloads_by_age_sorted_by_path() {
    let entries = vec![
        AgedFileCandidate {
            path: "/h/Downloads/z.iso".to_string(),
            name: "z.iso".to_string(),
            size: 10,
            age_secs: Some(100 * 86400),
        },
        AgedFileCandidate {
            path: "/h/Downloads/a.zip".to_string(),
            name: "a.zip".to_string(),
            size: 20,
            age_secs: Some(91 * 86400),
        },
        AgedFileCandidate {
            path: "/h/Downloads/new.txt".to_string(),
            name: "new.txt".to_string(),
            size: 30,
            age_secs: Some(5 * 86400),
        },
        AgedFileCandidate {
            path: "/h/Downloads/odd.txt".to_string(),
            name: "odd.txt".to_string(),
            size: 40,
            age_secs: None,
        },
    ];
    let r = scan_old_downloads(&entries, 90);
    assert_eq!(r.len(), 2);
    assert_eq!(r[0].path, "/h/Downloads/a.zip");
    assert_eq!(r[1].path, "/h/Downloads/z.iso");
    assert_eq!(r[0].description, "Old download: 91 days old");
    assert_eq!(r[0].category, "old_download");
}

#[test]
fn storage_recovery_totals() {
    let dup_files = vec![
        hashed("/h/a", 5000, Some(9)),
        hashed("/h/b", 5000, Some(9)),
    ];
    let all_files = vec![FileCandidate {
        path: "/h/big".to_string(),
        name: "big".to_string(),
        size: 2_147_483_648,
    }];
    let downloads = vec![AgedFileCandidate {
        path: "/h/Downloads/old".to_string(),
        name: "old".to_string(),
        size: 700,
        age_secs: Some(200 * 86400),
    }];
    let r = scan_storage_recovery(&dup_files, &all_files, &downloads);
    assert_eq!(r.duplicates.len(), 1);
    assert_eq!(r.total_duplicate_size, 10000);
    assert_eq!(r.large_files.len(), 1);
    assert_eq!(r.total_large_files_size, 2_147_483_648);
    assert_eq!(r.old_downloads.len(), 1);
    assert_eq!(r.total_old_downloads_size, 700);
    assert_eq!(r.total_recoverable_size, 10000 + 2_147_483_648 + 700);
}
