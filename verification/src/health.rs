//! Filesystem health checks: empty directories, broken symbolic links
//! and orphaned temporary files, classified from a walk's observations.
//! Every check is a pure selection over the entries; an empty directory
//! counts only if a second read also saw it empty, and a temp file only
//! past the age threshold.
use vstd::prelude::*;
use vstd::string::StringExecFns;

use crate::scanner::ScanItem;
use crate::seqext::{lemma_filter_empty, lemma_filter_take_step, sum_int};
use crate::strutil::{dec_digits, has_prefix, has_suffix, is_path_prefix, u64_to_string,
    str_has_prefix, str_has_suffix, str_eq, str_is_path_prefix, join_path};
use crate::seqext::min_int;

verus! {

/// What kind of object a walk entry is.
#[derive(Clone, Copy, Debug, PartialEq, Eq, Structural)]
pub enum FsEntryKind {
    File,
    Directory,
    Symlink,
}

/// One observation from a tree walk: the object, its size and depth,
/// and the kind-specific facts the checks need. A directory carries
/// its entry count from two consecutive reads; a symlink carries its
/// literal target and whether the target resolves; a file carries its
/// age, absent when the modification time was unreadable or lies in
/// the future.
#[derive(Debug)]
pub struct FsEntry {
    pub path: String,
    pub name: String,
    pub kind: FsEntryKind,
    pub size: u64,
    pub depth: usize,
    pub child_count: u64,
    pub child_count_recheck: u64,
    pub symlink_target: String,
    pub symlink_target_exists: bool,
    pub age_secs: Option<u64>,
}

/// What the health scan found, with totals.
#[derive(Debug)]
pub struct FilesystemHealthResults {
    pub empty_directories: Vec<ScanItem>,
    pub broken_symlinks: Vec<ScanItem>,
    pub orphaned_temp_files: Vec<ScanItem>,
    pub total_size: u64,
    pub total_items: usize,
}

/// A directory seen empty twice in a row.
pub open spec fn empty_dir_pred(e: FsEntry) -> bool {
    e.kind is Directory && e.child_count == 0 && e.child_count_recheck == 0
}

/// A symlink whose target does not resolve.
pub open spec fn broken_symlink_pred(e: FsEntry) -> bool {
    e.kind is Symlink && !e.symlink_target_exists
}

/// A name matching the temp-file patterns: known suffixes, a leading
/// tilde, or the literal `*~`.
pub open spec fn is_temp_name(n: Seq<char>) -> bool {
    ||| has_suffix(n, "tmp"@)
    ||| has_suffix(n, "temp"@)
    ||| has_suffix(n, "swp"@)
    ||| has_suffix(n, "bak"@)
    ||| has_suffix(n, "orig"@)
    ||| has_suffix(n, "old"@)
    ||| has_prefix(n, "~"@)
    ||| n == "*~"@
    ||| has_suffix(n, "lock"@)
    ||| has_suffix(n, "pid"@)
}

/// The path lies under one of the well-known temp directories of the
/// home directory.
pub open spec fn in_temp_dir(p: Seq<char>, home: Seq<char>) -> bool {
    ||| is_path_prefix(p, home + "/"@ + "tmp"@)
    ||| is_path_prefix(p, home + "/"@ + ".tmp"@)
    ||| is_path_prefix(p, home + "/"@ + "temp"@)
    ||| is_path_prefix(p, home + "/"@ + "Temp"@)
    ||| is_path_prefix(p, home + "/"@ + "TEMP"@)
}

/// An orphaned temp file: a shallow file in a temp location or with a
/// temp name, untouched for over thirty days.
pub open spec fn orphaned_temp_pred(e: FsEntry, home: Seq<char>) -> bool {
    &&& e.kind is File
    &&& e.depth <= 3
    &&& (in_temp_dir(e.path@, home) || is_temp_name(e.name@))
    &&& match e.age_secs {
        Some(a) => a / 86400 > 30,
        None => false,
    }
}

/// What an empty-directory item holds.
pub open spec fn empty_dir_item_matches(it: ScanItem, e: FsEntry, idx: int) -> bool {
    &&& it.id@ == "empty_dir_"@ + dec_digits(idx as u64)
    &&& it.name@ == e.name@
    &&& it.path@ == e.path@
    &&& it.size == 0
    &&& it.item_type@ == "directory"@
    &&& it.category@ == "empty_directory"@
    &&& it.risk_level == 0
    &&& it.description@ == "Empty directory with no contents"@
    &&& it.children is None
    &&& it.dependencies is None
    &&& it.dependents is None
}

/// What a broken-symlink item holds; the description names the dead
/// target.
pub open spec fn broken_symlink_item_matches(it: ScanItem, e: FsEntry, idx: int) -> bool {
    &&& it.id@ == "broken_link_"@ + dec_digits(idx as u64)
    &&& it.name@ == e.name@
    &&& it.path@ == e.path@
    &&& it.size == 0
    &&& it.item_type@ == "symlink"@
    &&& it.category@ == "broken_symlink"@
    &&& it.risk_level == 0
    &&& it.description@ == "Broken symlink pointing to non-existent target: "@
        + e.symlink_target@
    &&& it.children is None
    &&& it.dependencies is None
    &&& it.dependents is None
}

/// What an orphaned-temp item holds; the description names the age in
/// days.
pub open spec fn orphaned_temp_item_matches(it: ScanItem, e: FsEntry, idx: int) -> bool {
    &&& it.id@ == "orphaned_temp_"@ + dec_digits(idx as u64)
    &&& it.name@ == e.name@
    &&& it.path@ == e.path@
    &&& it.size == e.size
    &&& it.item_type@ == "file"@
    &&& it.category@ == "orphaned_temp"@
    &&& it.risk_level == 1
    &&& it.description@ == "Orphaned temporary file, "@ + dec_digits(e.age_secs->Some_0 / 86400)
        + " days old"@
    &&& it.children is None
    &&& it.dependencies is None
    &&& it.dependents is None
}

/// Does the entry's name match the temp patterns?
fn is_temp_name_exec(name: &str) -> (r: bool)
    ensures
        r == is_temp_name(name@),
{
    str_has_suffix(name, "tmp") || str_has_suffix(name, "temp") || str_has_suffix(name, "swp")
        || str_has_suffix(name, "bak") || str_has_suffix(name, "orig") || str_has_suffix(
        name,
        "old",
    ) || str_has_prefix(name, "~") || str_eq(name, "*~") || str_has_suffix(name, "lock")
        || str_has_suffix(name, "pid")
}

/// Does the entry's path lie under a well-known temp directory?
fn in_temp_dir_exec(path: &str, home: &str) -> (r: bool)
    ensures
        r == in_temp_dir(path@, home@),
{
    let t1 = join_path(home, "tmp");
    let t2 = join_path(home, ".tmp");
    let t3 = join_path(home, "temp");
    let t4 = join_path(home, "Temp");
    let t5 = join_path(home, "TEMP");
    str_is_path_prefix(path, t1.as_str()) || str_is_path_prefix(path, t2.as_str())
        || str_is_path_prefix(path, t3.as_str()) || str_is_path_prefix(path, t4.as_str())
        || str_is_path_prefix(path, t5.as_str())
}

/// The health scan: empty directories, broken symlinks and orphaned
/// temp files among the walked entries, with exact totals.
pub fn scan_filesystem_health(entries: &Vec<FsEntry>, home: &str) -> (r: FilesystemHealthResults)
    ensures
        ({
            let fe = entries@.filter(|e: FsEntry| empty_dir_pred(e));
            r.empty_directories@.len() == fe.len() && (forall|j: int|
                0 <= j < fe.len() ==> empty_dir_item_matches(r.empty_directories@[j], fe[j], j))
        }),
        ({
            let fb = entries@.filter(|e: FsEntry| broken_symlink_pred(e));
            r.broken_symlinks@.len() == fb.len() && (forall|j: int|
                0 <= j < fb.len() ==> broken_symlink_item_matches(r.broken_symlinks@[j], fb[j], j))
        }),
        ({
            let ft = entries@.filter(|e: FsEntry| orphaned_temp_pred(e, home@));
            r.orphaned_temp_files@.len() == ft.len() && (forall|j: int|
                0 <= j < ft.len() ==> orphaned_temp_item_matches(
                    r.orphaned_temp_files@[j],
                    ft[j],
                    j,
                ))
        }),
        r.total_items == r.empty_directories@.len() + r.broken_symlinks@.len()
            + r.orphaned_temp_files@.len(),
        r.total_size as int == min_int(
            sum_int(crate::scanner::item_sizes(r.empty_directories@)) + sum_int(
                crate::scanner::item_sizes(r.broken_symlinks@),
            ) + sum_int(crate::scanner::item_sizes(r.orphaned_temp_files@)),
            u64::MAX as int,
        ),
{
    let n = entries.len();
    let mut empty_dirs: Vec<ScanItem> = Vec::new();
    let mut broken: Vec<ScanItem> = Vec::new();
    let mut orphaned: Vec<ScanItem> = Vec::new();
    let mut i: usize = 0;
    proof {
        lemma_filter_empty(|e: FsEntry| empty_dir_pred(e));
        lemma_filter_empty(|e: FsEntry| broken_symlink_pred(e));
        lemma_filter_empty(|e: FsEntry| orphaned_temp_pred(e, home@));
        assert(entries@.take(0) =~= Seq::<FsEntry>::empty());
    }
    while i < n
        invariant
            n == entries@.len(),
            i <= n,
            ({
                let fe = entries@.take(i as int).filter(|e: FsEntry| empty_dir_pred(e));
                empty_dirs@.len() == fe.len() && (forall|j: int|
                    0 <= j < fe.len() ==> empty_dir_item_matches(empty_dirs@[j], fe[j], j))
            }),
            ({
                let fb = entries@.take(i as int).filter(|e: FsEntry| broken_symlink_pred(e));
                broken@.len() == fb.len() && (forall|j: int|
                    0 <= j < fb.len() ==> broken_symlink_item_matches(broken@[j], fb[j], j))
            }),
            ({
                let ft = entries@.take(i as int).filter(
                    |e: FsEntry| orphaned_temp_pred(e, home@),
                );
                orphaned@.len() == ft.len() && (forall|j: int|
                    0 <= j < ft.len() ==> orphaned_temp_item_matches(orphaned@[j], ft[j], j))
            }),
            empty_dirs@.len() + broken@.len() + orphaned@.len() <= i,
        decreases n - i,
    {
        proof {
            lemma_filter_take_step(entries@, |e: FsEntry| empty_dir_pred(e), i as int);
            lemma_filter_take_step(entries@, |e: FsEntry| broken_symlink_pred(e), i as int);
            lemma_filter_take_step(
                entries@,
                |e: FsEntry| orphaned_temp_pred(e, home@),
                i as int,
            );
        }
        let e = &entries[i];
        let is_dir = match e.kind {
            FsEntryKind::Directory => true,
            _ => false,
        };
        let is_link = match e.kind {
            FsEntryKind::Symlink => true,
            _ => false,
        };
        let is_file = match e.kind {
            FsEntryKind::File => true,
            _ => false,
        };
        if is_dir && e.child_count == 0 && e.child_count_recheck == 0 {
            let idx = empty_dirs.len();
            let item = ScanItem {
                id: String::from_str("empty_dir_").concat(u64_to_string(idx as u64).as_str()),
                name: e.name.clone(),
                path: e.path.clone(),
                size: 0,
                item_type: String::from_str("directory"),
                category: String::from_str("empty_directory"),
                risk_level: 0,
                description: String::from_str("Empty directory with no contents"),
                children: None,
                dependencies: None,
                dependents: None,
            };
            empty_dirs.push(item);
        } else if is_link && !e.symlink_target_exists {
            let idx = broken.len();
            let item = ScanItem {
                id: String::from_str("broken_link_").concat(u64_to_string(idx as u64).as_str()),
                name: e.name.clone(),
                path: e.path.clone(),
                size: 0,
                item_type: String::from_str("symlink"),
                category: String::from_str("broken_symlink"),
                risk_level: 0,
                description: String::from_str(
                    "Broken symlink pointing to non-existent target: ",
                ).concat(e.symlink_target.as_str()),
                children: None,
                dependencies: None,
                dependents: None,
            };
            broken.push(item);
        } else if is_file && e.depth <= 3 {
            let in_temp = in_temp_dir_exec(e.path.as_str(), home) || is_temp_name_exec(
                e.name.as_str(),
            );
            let old_enough = match &e.age_secs {
                Some(a) => *a / 86400 > 30,
                None => false,
            };
            if in_temp && old_enough {
                let age = match &e.age_secs {
                    Some(a) => *a,
                    None => 0,
                };
                let idx = orphaned.len();
                let item = ScanItem {
                    id: String::from_str("orphaned_temp_").concat(
                        u64_to_string(idx as u64).as_str(),
                    ),
                    name: e.name.clone(),
                    path: e.path.clone(),
                    size: e.size,
                    item_type: String::from_str("file"),
                    category: String::from_str("orphaned_temp"),
                    risk_level: 1,
                    description: String::from_str("Orphaned temporary file, ").concat(
                        u64_to_string(age / 86400).as_str(),
                    ).concat(" days old"),
                    children: None,
                    dependencies: None,
                    dependents: None,
                };
                orphaned.push(item);
            }
        }
        i += 1;
    }
    proof {
        assert(entries@.take(n as int) =~= entries@);
    }
    let se = clamped_item_size_sum(&empty_dirs);
    let sb = clamped_item_size_sum(&broken);
    let st = clamped_item_size_sum(&orphaned);
    let total_items = empty_dirs.len() + broken.len() + orphaned.len();
    let total128: u128 = (se.0 as u128) + (sb.0 as u128) + (st.0 as u128);
    proof {
        crate::seqext::lemma_sum_int_nonneg(crate::scanner::item_sizes(empty_dirs@));
        crate::seqext::lemma_sum_int_nonneg(crate::scanner::item_sizes(broken@));
        crate::seqext::lemma_sum_int_nonneg(crate::scanner::item_sizes(orphaned@));
    }
    let total_size: u64 = if total128 > 0xffffffffffffffffu128 {
        u64::MAX
    } else {
        (total128 as u64)
    };
    FilesystemHealthResults {
        empty_directories: empty_dirs,
        broken_symlinks: broken,
        orphaned_temp_files: orphaned,
        total_size,
        total_items,
    }
}

/// The sum of the items' sizes, with a flag clamped at the bound:
/// `(clamped value, whether it overflowed)`.
fn clamped_item_size_sum(items: &Vec<ScanItem>) -> (r: (u64, bool))
    ensures
        !r.1 ==> r.0 == sum_int(crate::scanner::item_sizes(items@)),
        r.1 ==> r.0 == u64::MAX && sum_int(crate::scanner::item_sizes(items@)) > u64::MAX,
{
    let n = items.len();
    let mut acc: u128 = 0;
    let mut i: usize = 0;
    proof {
        assert(crate::scanner::item_sizes(items@).take(0) =~= Seq::<int>::empty());
    }
    while i < n
        invariant
            n == items@.len(),
            i <= n,
            acc == sum_int(crate::scanner::item_sizes(items@).take(i as int)),
        decreases n - i,
    {
        proof {
            assert(forall|k: int|
                0 <= k < crate::scanner::item_sizes(items@).len() ==> 0
                    <= #[trigger] crate::scanner::item_sizes(items@)[k] <= 0xffffffffffffffff);
            crate::seqext::lemma_sum_u64_fits_u128(
                crate::scanner::item_sizes(items@),
                i as int,
            );
            crate::seqext::lemma_sum_int_take_step(
                crate::scanner::item_sizes(items@),
                i as int,
            );
        }
        acc = acc + (items[i].size as u128);
        i += 1;
    }
    proof {
        assert(crate::scanner::item_sizes(items@).take(n as int) =~= crate::scanner::item_sizes(
            items@,
        ));
    }
    if acc > 0xffffffffffffffffu128 {
        (u64::MAX, true)
    } else {
        ((acc as u64), false)
    }
}

} // verus!
