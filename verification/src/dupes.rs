//! Two-pass duplicate detection and the storage-recovery scan.
//!
//! Pass one buckets files by exact byte size; pass two fingerprints
//! the files of shared-size buckets by hashing the size and up to
//! three fixed windows of content (start, middle, end), never the
//! whole file. Files with equal size and equal fingerprint form a
//! `DuplicateGroup`. The caller reads the windows from disk; which
//! windows to read is computed here (`chunk_plan`), as is the
//! fingerprint itself (`fingerprint_from_samples`), so equal samples
//! provably yield equal fingerprints.
use vstd::prelude::*;
use vstd::string::StringExecFns;

use crate::phases::{AgedFileCandidate, FileCandidate, sort_size_desc, sort_path_asc,
    sort_items_by_size_desc, sort_items_by_path_asc};
use crate::seqext::min_int;
use crate::scanner::{ScanItem, format_bytes, format_bytes_spec};
use crate::seqext::{lemma_filter_empty, lemma_filter_take_step, sum_int};
use crate::strutil::{dec_digits, u64_to_string};

verus! {

/// Files believed byte-identical: equal size, equal fingerprint, at
/// least two of them.
#[derive(Debug)]
pub struct DuplicateGroup {
    pub id: String,
    pub files: Vec<ScanItem>,
    pub total_size: u64,
    pub group_size: usize,
}

/// What the storage-recovery scan found, with per-category and overall
/// recoverable totals.
#[derive(Debug)]
pub struct StorageRecoveryResults {
    pub duplicates: Vec<DuplicateGroup>,
    pub large_files: Vec<ScanItem>,
    pub old_downloads: Vec<ScanItem>,
    pub total_duplicate_size: u64,
    pub total_large_files_size: u64,
    pub total_old_downloads_size: u64,
    pub total_recoverable_size: u64,
}

/// A file from pass one with its fingerprint from pass two; absent
/// when the file was skipped or could not be read.
#[derive(Debug)]
pub struct HashedFile {
    pub path: String,
    pub name: String,
    pub size: u64,
    pub fingerprint: Option<u64>,
}

// ---------------------------------------------------------------------
// The sampled content fingerprint.
// ---------------------------------------------------------------------
/// Which byte windows of a file of the given size are sampled: the
/// first window always (shorter for small files), a middle window only
/// past two window lengths, a last window only past one.
#[derive(Clone, Copy, Debug)]
pub struct ChunkPlan {
    pub first_len: u64,
    pub middle: Option<(u64, u64)>,
    pub last: Option<(u64, u64)>,
}

/// The windows to sample for a file of `file_size` bytes, with a
/// window length of 64 KiB. Offsets pair with lengths.
pub fn chunk_plan(file_size: u64) -> (r: ChunkPlan)
    ensures
        r.first_len == min_int(65536, file_size as int),
        file_size > 131072 ==> r.middle == Some(
            (
                file_size / 2,
                (min_int(65536, file_size as int - file_size as int / 2)) as u64,
            ),
        ),
        file_size <= 131072 ==> r.middle is None,
        file_size > 65536 ==> r.last == Some(((file_size - 65536) as u64, 65536u64)),
        file_size <= 65536 ==> r.last is None,
{
    let first_len = if file_size < 65536 {
        file_size
    } else {
        65536
    };
    let middle = if file_size > 131072 {
        let mid_start = file_size / 2;
        let rest = file_size - mid_start;
        Some((mid_start, if rest < 65536 {
            rest
        } else {
            65536
        }))
    } else {
        None
    };
    let last = if file_size > 65536 {
        Some((file_size - 65536, 65536u64))
    } else {
        None
    };
    ChunkPlan { first_len, middle, last }
}

/// One mixing step of the fingerprint: add the byte, multiply by a
/// large odd constant, keep the low 64 bits.
pub open spec fn fp_step(h: u64, b: u8) -> u64 {
    (((h + b) as int * 1099511628211) % 0x10000000000000000) as u64
}

/// Mix a whole byte sequence into the running fingerprint.
pub open spec fn fp_mix(h: u64, bytes: Seq<u8>) -> u64
    decreases bytes.len(),
{
    if bytes.len() == 0 {
        h
    } else {
        fp_mix(fp_step(h, bytes[0]), bytes.drop_first())
    }
}

/// The eight little-endian bytes of a size.
pub open spec fn size_bytes(n: u64) -> Seq<u8> {
    seq![
        (n as int % 256) as u8,
        (n as int / 256 % 256) as u8,
        (n as int / 65536 % 256) as u8,
        (n as int / 16777216 % 256) as u8,
        (n as int / 4294967296 % 256) as u8,
        (n as int / 1099511627776 % 256) as u8,
        (n as int / 281474976710656 % 256) as u8,
        (n as int / 72057594037927936 % 256) as u8,
    ]
}

/// The sampled content fingerprint: a function of the file size and
/// the sampled windows alone.
pub open spec fn fingerprint_spec(
    file_size: u64,
    first: Seq<u8>,
    middle: Seq<u8>,
    last: Seq<u8>,
) -> u64 {
    fp_mix(fp_mix(fp_mix(fp_mix(14695981039346656037, size_bytes(file_size)), first), middle), last)
}

/// One exec mixing step.
fn fp_step_exec(h: u64, b: u8) -> (r: u64)
    ensures
        r == fp_step(h, b),
{
    let sum: u128 = (h as u128) + (b as u128);
    let prod: u128 = sum * 1099511628211u128;
    let low: u128 = prod % 0x10000000000000000u128;
    let r: u64 = low as u64;
    r
}

/// Mix a byte slice into the running fingerprint.
fn fp_mix_exec(h0: u64, bytes: &Vec<u8>) -> (r: u64)
    ensures
        r == fp_mix(h0, bytes@),
{
    let n = bytes.len();
    let mut h = h0;
    let mut i: usize = 0;
    proof {
        assert(bytes@.skip(0) =~= bytes@);
    }
    while i < n
        invariant
            n == bytes@.len(),
            i <= n,
            fp_mix(h0, bytes@) == fp_mix(h, bytes@.skip(i as int)),
        decreases n - i,
    {
        proof {
            assert(bytes@.skip(i as int)[0] == bytes@[i as int]);
            assert(bytes@.skip(i as int).drop_first() =~= bytes@.skip(i + 1));
        }
        h = fp_step_exec(h, bytes[i]);
        i += 1;
    }
    proof {
        assert(bytes@.skip(n as int).len() == 0);
    }
    h
}

/// Compute the fingerprint of a file from its size and its sampled
/// windows. Windows that the plan does not sample are empty.
pub fn fingerprint_from_samples(
    file_size: u64,
    first: &Vec<u8>,
    middle: &Vec<u8>,
    last: &Vec<u8>,
) -> (r: u64)
    ensures
        r == fingerprint_spec(file_size, first@, middle@, last@),
{
    let mut sz: Vec<u8> = Vec::new();
    sz.push((file_size % 256) as u8);
    sz.push((file_size / 256 % 256) as u8);
    sz.push((file_size / 65536 % 256) as u8);
    sz.push((file_size / 16777216 % 256) as u8);
    sz.push((file_size / 4294967296 % 256) as u8);
    sz.push((file_size / 1099511627776 % 256) as u8);
    sz.push((file_size / 281474976710656 % 256) as u8);
    sz.push((file_size / 72057594037927936 % 256) as u8);
    proof {
        assert(sz@ =~= size_bytes(file_size));
    }
    let h = fp_mix_exec(14695981039346656037, &sz);
    let h = fp_mix_exec(h, first);
    let h = fp_mix_exec(h, middle);
    fp_mix_exec(h, last)
}

/// Law (fingerprint agreement): two files of equal size whose sampled
/// windows hold equal bytes get the same fingerprint; the fingerprint
/// depends on nothing else.
pub proof fn lemma_equal_samples_equal_fingerprint(
    size_a: u64,
    fa: Seq<u8>,
    ma: Seq<u8>,
    la: Seq<u8>,
    size_b: u64,
    fb: Seq<u8>,
    mb: Seq<u8>,
    lb: Seq<u8>,
)
    requires
        size_a == size_b,
        fa == fb,
        ma == mb,
        la == lb,
    ensures
        fingerprint_spec(size_a, fa, ma, la) == fingerprint_spec(size_b, fb, mb, lb),
{
}

// ---------------------------------------------------------------------
// Pass one: which files are worth fingerprinting at all.
// ---------------------------------------------------------------------
/// A file needs a fingerprint: it is over the size floor and shares
/// its exact byte size with another file, so pass two must tell them
/// apart.
pub open spec fn needs_fingerprint(s: Seq<FileCandidate>, i: int) -> bool {
    &&& 0 <= i < s.len()
    &&& s[i].size > 1024
    &&& exists|j: int| 0 <= j < s.len() && j != i && s[j].size == s[i].size
}

/// Decide per file whether pass two must fingerprint it: exactly the
/// files over 1 KiB whose size bucket has more than one member.
pub fn duplicate_candidates(files: &Vec<FileCandidate>) -> (r: Vec<bool>)
    ensures
        r@.len() == files@.len(),
        forall|i: int| 0 <= i < files@.len() ==> r@[i] == needs_fingerprint(files@, i),
{
    let n = files.len();
    let mut r: Vec<bool> = Vec::new();
    let mut i: usize = 0;
    while i < n
        invariant
            n == files@.len(),
            i <= n,
            r@.len() == i,
            forall|k: int| 0 <= k < i ==> r@[k] == needs_fingerprint(files@, k),
        decreases n - i,
    {
        let mut shared = false;
        if files[i].size > 1024 {
            let mut j: usize = 0;
            while j < n
                invariant
                    n == files@.len(),
                    i < n,
                    j <= n,
                    shared ==> exists|k: int|
                        0 <= k < files@.len() && k != i && files@[k].size == files@[i as int].size,
                    !shared ==> forall|k: int|
                        0 <= k < j && k != i ==> files@[k].size != files@[i as int].size,
                decreases n - j,
            {
                if j != i && files[j].size == files[i].size {
                    shared = true;
                }
                j += 1;
            }
        }
        let qualifies = files[i].size > 1024 && shared;
        r.push(qualifies);
        i += 1;
    }
    r
}

// ---------------------------------------------------------------------
// Grouping by (size, fingerprint).
// ---------------------------------------------------------------------
/// A file takes part in duplicate grouping: over 1 KiB and hashed.
pub open spec fn dup_qual(f: HashedFile) -> bool {
    f.size > 1024 && f.fingerprint is Some
}

/// Two files carry the same grouping key.
pub open spec fn same_key(a: HashedFile, b: HashedFile) -> bool {
    a.size == b.size && a.fingerprint == b.fingerprint
}

/// The class of a representative: every qualifying file with its key,
/// in file order.
pub open spec fn class_of(s: Seq<HashedFile>, rep: HashedFile) -> Seq<HashedFile> {
    s.filter(|f: HashedFile| dup_qual(f) && same_key(f, rep))
}

/// Position `i` holds the first occurrence of its key.
pub open spec fn first_occ_pred(s: Seq<HashedFile>, i: int) -> bool {
    &&& 0 <= i < s.len()
    &&& dup_qual(s[i])
    &&& forall|j: int| 0 <= j < i ==> !(dup_qual(s[j]) && same_key(s[j], s[i]))
}

/// Position `i` represents a duplicate class: first occurrence of a
/// key shared by at least two files.
pub open spec fn rep_pred(s: Seq<HashedFile>, i: int) -> bool {
    first_occ_pred(s, i) && class_of(s, s[i]).len() >= 2
}

/// The representative positions among the first `n`, in order.
pub open spec fn reps_upto(s: Seq<HashedFile>, n: int) -> Seq<int>
    decreases n,
{
    if n <= 0 {
        Seq::empty()
    } else {
        let r = reps_upto(s, n - 1);
        if rep_pred(s, n - 1) {
            r.push(n - 1)
        } else {
            r
        }
    }
}

/// The representative positions of the whole list, in order.
pub open spec fn reps_of(s: Seq<HashedFile>) -> Seq<int> {
    reps_upto(s, s.len() as int)
}

/// What a duplicate item holds, given its file and its position in the
/// group.
pub open spec fn dup_item_matches(it: ScanItem, f: HashedFile, idx: int) -> bool {
    &&& it.id@ == "dup_"@ + dec_digits(f.fingerprint->Some_0) + "_"@ + dec_digits(idx as u64)
    &&& it.name@ == f.name@
    &&& it.path@ == f.path@
    &&& it.size == f.size
    &&& it.item_type@ == "file"@
    &&& it.category@ == "duplicate"@
    &&& it.risk_level == 2
    &&& it.description@ == "Duplicate file - one copy can be safely removed"@
    &&& it.children is None
    &&& it.dependencies is None
    &&& it.dependents is None
}

/// What a group holds, given its class and its position in the group
/// list: one item per class member in order, the aggregate size
/// (clamped at the type bound) and the member count.
pub open spec fn group_matches(g: DuplicateGroup, cls: Seq<HashedFile>, gidx: int) -> bool {
    &&& g.files@.len() == cls.len()
    &&& cls.len() >= 2
    &&& (forall|j: int| 0 <= j < cls.len() ==> dup_item_matches(g.files@[j], cls[j], j))
    &&& g.total_size as int == min_int(cls[0].size as int * cls.len() as int, u64::MAX as int)
    &&& g.group_size == cls.len()
    &&& g.id@ == "dup_group_"@ + dec_digits(gidx as u64)
}

/// Group the qualifying files by equal (size, fingerprint): one group
/// per duplicated key, in order of first occurrence, each holding all
/// files of that key in file order.
pub fn group_duplicates(files: &Vec<HashedFile>) -> (groups: Vec<DuplicateGroup>)
    ensures
        groups@.len() == reps_of(files@).len(),
        forall|k: int|
            0 <= k < groups@.len() ==> group_matches(
                groups@[k],
                class_of(files@, files@[reps_of(files@)[k]]),
                k,
            ),
{
    let n = files.len();
    let mut groups: Vec<DuplicateGroup> = Vec::new();
    let mut i: usize = 0;
    while i < n
        invariant
            n == files@.len(),
            i <= n,
            groups@.len() == reps_upto(files@, i as int).len(),
            forall|k: int|
                0 <= k < groups@.len() ==> group_matches(
                    groups@[k],
                    class_of(files@, files@[reps_upto(files@, i as int)[k]]),
                    k,
                ),
        decreases n - i,
    {
        proof {
            lemma_reps_upto_grow(files@, i as int);
        }
        let qual = files[i].size > 1024 && files[i].fingerprint.is_some();
        if qual {
            // first-occurrence check
            let mut seen_before = false;
            let mut j: usize = 0;
            while j < i
                invariant
                    n == files@.len(),
                    i < n,
                    j <= i,
                    seen_before ==> !first_occ_pred(files@, i as int),
                    !seen_before ==> forall|k: int|
                        0 <= k < j ==> !(dup_qual(files@[k]) && same_key(
                            files@[k],
                            files@[i as int],
                        )),
                decreases i - j,
            {
                if !seen_before {
                    let k_qual = files[j].size > 1024 && files[j].fingerprint.is_some();
                    if k_qual && files_same_key(&files[j], &files[i]) {
                        seen_before = true;
                    }
                }
                j += 1;
            }
            if !seen_before {
                let items = collect_class_items(files, i);
                if items.len() >= 2 {
                    proof {
                        assert(rep_pred(files@, i as int));
                    }
                    let size = files[i].size;
                    let count = items.len();
                    proof {
                        assert((size as int) * (count as int) < 0x100000000000000000000000000000000)
                            by (nonlinear_arith)
                            requires
                                0 <= size as int <= 0xffffffffffffffff,
                                0 <= count as int <= 0xffffffffffffffff,
                        {}
                    }
                    let prod: u128 = (size as u128) * (count as u128);
                    let total_size: u64 = if prod > 0xffffffffffffffffu128 {
                        u64::MAX
                    } else {
                        (prod as u64)
                    };
                    let gid = String::from_str("dup_group_").concat(
                        u64_to_string(groups.len() as u64).as_str(),
                    );
                    let group = DuplicateGroup { id: gid, files: items, total_size, group_size: count };
                    proof {
                        let cls = class_of(files@, files@[i as int]);
                        assert(cls[0] == files@[i as int]) by {
                            lemma_class_first(files@, i as int);
                        }
                    }
                    groups.push(group);
                } else {
                    proof {
                        assert(!rep_pred(files@, i as int));
                    }
                }
            } else {
                proof {
                    assert(!rep_pred(files@, i as int));
                }
            }
        } else {
            proof {
                assert(!dup_qual(files@[i as int]));
                assert(!rep_pred(files@, i as int));
            }
        }
        i += 1;
    }
    groups
}

/// Compare the grouping keys of two files.
fn files_same_key(a: &HashedFile, b: &HashedFile) -> (r: bool)
    ensures
        r == same_key(*a, *b),
{
    if a.size != b.size {
        return false;
    }
    match (&a.fingerprint, &b.fingerprint) {
        (Some(x), Some(y)) => *x == *y,
        (None, None) => true,
        _ => false,
    }
}

/// Build the items of the class represented by position `rep`: one per
/// qualifying file with the same key, in file order.
fn collect_class_items(files: &Vec<HashedFile>, rep: usize) -> (items: Vec<ScanItem>)
    requires
        rep < files@.len(),
        dup_qual(files@[rep as int]),
    ensures
        ({
            let cls = class_of(files@, files@[rep as int]);
            items@.len() == cls.len() && (forall|j: int|
                0 <= j < cls.len() ==> dup_item_matches(items@[j], cls[j], j))
        }),
{
    let n = files.len();
    let mut items: Vec<ScanItem> = Vec::new();
    let fp: u64 = match &files[rep].fingerprint {
        Some(v) => *v,
        None => 0,
    };
    let mut j: usize = 0;
    proof {
        lemma_filter_empty(|f: HashedFile| dup_qual(f) && same_key(f, files@[rep as int]));
        assert(files@.take(0) =~= Seq::<HashedFile>::empty());
    }
    while j < n
        invariant
            n == files@.len(),
            rep < n,
            j <= n,
            dup_qual(files@[rep as int]),
            Some(fp) == files@[rep as int].fingerprint,
            ({
                let cls = files@.take(j as int).filter(
                    |f: HashedFile| dup_qual(f) && same_key(f, files@[rep as int]),
                );
                items@.len() == cls.len() && (forall|k: int|
                    0 <= k < cls.len() ==> dup_item_matches(items@[k], cls[k], k))
            }),
        decreases n - j,
    {
        proof {
            lemma_filter_take_step(
                files@,
                |f: HashedFile| dup_qual(f) && same_key(f, files@[rep as int]),
                j as int,
            );
        }
        let j_qual = files[j].size > 1024 && files[j].fingerprint.is_some();
        if j_qual && files_same_key(&files[j], &files[rep]) {
            let idx = items.len();
            let id = String::from_str("dup_").concat(u64_to_string(fp).as_str()).concat(
                "_",
            ).concat(u64_to_string(idx as u64).as_str());
            let item = ScanItem {
                id,
                name: files[j].name.clone(),
                path: files[j].path.clone(),
                size: files[j].size,
                item_type: String::from_str("file"),
                category: String::from_str("duplicate"),
                risk_level: 2,
                description: String::from_str("Duplicate file - one copy can be safely removed"),
                children: None,
                dependencies: None,
                dependents: None,
            };
            items.push(item);
        }
        j += 1;
    }
    proof {
        assert(files@.take(n as int) =~= files@);
    }
    items
}

/// How the representative list grows by one position.
proof fn lemma_reps_upto_grow(s: Seq<HashedFile>, i: int)
    requires
        0 <= i < s.len(),
    ensures
        rep_pred(s, i) ==> reps_upto(s, i + 1) =~= reps_upto(s, i).push(i),
        !rep_pred(s, i) ==> reps_upto(s, i + 1) =~= reps_upto(s, i),
{
}

/// The representative is the first element of its own class.
proof fn lemma_class_first(s: Seq<HashedFile>, i: int)
    requires
        first_occ_pred(s, i),
    ensures
        class_of(s, s[i]).len() >= 1 ==> class_of(s, s[i])[0] == s[i],
{
    let pred = |f: HashedFile| dup_qual(f) && same_key(f, s[i]);
    lemma_class_members(s, i, pred);
}

/// The first member of the class is the representative itself: nothing
/// before it matches, and it matches.
proof fn lemma_class_members(s: Seq<HashedFile>, i: int, pred: spec_fn(HashedFile) -> bool)
    requires
        0 <= i < s.len(),
        pred == (|f: HashedFile| dup_qual(f) && same_key(f, s[i])),
        dup_qual(s[i]),
        forall|j: int| 0 <= j < i ==> !(dup_qual(s[j]) && same_key(s[j], s[i])),
    ensures
        s.filter(pred).len() >= 1 ==> s.filter(pred)[0] == s[i],
{
    assert(s.take(i + 1).filter(pred).len() >= 1 && s.take(i + 1).filter(pred)[0] == s[i]) by {
        lemma_prefix_filter_first(s, i, pred);
    }
    lemma_filter_extends(s, i + 1, pred);
}

/// Filtering the prefix that ends at the first match yields exactly
/// that match first.
proof fn lemma_prefix_filter_first(s: Seq<HashedFile>, i: int, pred: spec_fn(HashedFile) -> bool)
    requires
        0 <= i < s.len(),
        pred(s[i]),
        forall|j: int| 0 <= j < i ==> !pred(s[j]),
    ensures
        s.take(i + 1).filter(pred) =~= seq![s[i]],
    decreases i,
{
    reveal(Seq::filter);
    assert(s.take(i + 1).drop_last() =~= s.take(i));
    assert(s.take(i + 1).last() == s[i]);
    lemma_prefix_filter_none(s, i, pred);
}

/// Filtering a prefix with no match yields nothing.
proof fn lemma_prefix_filter_none(s: Seq<HashedFile>, i: int, pred: spec_fn(HashedFile) -> bool)
    requires
        0 <= i <= s.len(),
        forall|j: int| 0 <= j < i ==> !pred(s[j]),
    ensures
        s.take(i).filter(pred) =~= Seq::<HashedFile>::empty(),
    decreases i,
{
    reveal(Seq::filter);
    if i > 0 {
        assert(s.take(i).drop_last() =~= s.take(i - 1));
        assert(s.take(i).last() == s[i - 1]);
        lemma_prefix_filter_none(s, i - 1, pred);
    }
}

/// A filtered prefix is a prefix of the filtered whole.
proof fn lemma_filter_extends(s: Seq<HashedFile>, n: int, pred: spec_fn(HashedFile) -> bool)
    requires
        0 <= n <= s.len(),
    ensures
        s.take(n).filter(pred).len() <= s.filter(pred).len(),
        forall|k: int|
            0 <= k < s.take(n).filter(pred).len() ==> s.filter(pred)[k] == s.take(n).filter(
                pred,
            )[k],
    decreases s.len() - n,
{
    reveal(Seq::filter);
    if n == s.len() {
        assert(s.take(n) =~= s);
    } else {
        lemma_filter_extends(s, n + 1, pred);
        assert(s.take(n + 1).drop_last() =~= s.take(n));
        assert(s.take(n + 1).last() == s[n]);
    }
}

/// Law (equal keys, one group): two qualifying files with equal size
/// and equal fingerprint belong to the class of one shared
/// representative, which the group list carries.
pub proof fn lemma_equal_key_same_class(s: Seq<HashedFile>, a: int, b: int)
    requires
        0 <= a < b < s.len(),
        dup_qual(s[a]),
        dup_qual(s[b]),
        same_key(s[a], s[b]),
    ensures
        exists|r: int|
            rep_pred(s, r) && reps_of(s).contains(r) && class_of(s, s[r]).contains(s[a])
                && class_of(s, s[r]).contains(s[b]),
{
    let r = first_key_holder(s, a, 0);
    lemma_first_key_holder(s, a, 0);
    assert(first_occ_pred(s, r)) by {
        assert(forall|j: int| 0 <= j < r ==> !(dup_qual(s[j]) && same_key(s[j], s[a])));
        assert(same_key(s[r], s[a]));
        assert forall|j: int| 0 <= j < r implies !(dup_qual(s[j]) && same_key(s[j], s[r])) by {
            if dup_qual(s[j]) && same_key(s[j], s[r]) {
                assert(same_key(s[j], s[a]));
            }
        }
    }
    let pred = |f: HashedFile| dup_qual(f) && same_key(f, s[r]);
    assert(pred(s[a]) && pred(s[b]));
    s.lemma_filter_contains(pred, a);
    s.lemma_filter_contains(pred, b);
    lemma_filter_two_distinct(s, a, b, pred);
    assert(rep_pred(s, r));
    lemma_reps_contain(s, r, s.len() as int);
    assert(reps_upto(s, s.len() as int).contains(r));
}

/// The first position holding the key of `s[a]`, scanning from `j`.
spec fn first_key_holder(s: Seq<HashedFile>, a: int, j: int) -> int
    decreases
        (if a - j >= 0 {
            a - j
        } else {
            0
        }),
{
    if j < 0 || j >= a {
        a
    } else if dup_qual(s[j]) && same_key(s[j], s[a]) {
        j
    } else {
        first_key_holder(s, a, j + 1)
    }
}

/// The first key holder is a first occurrence of the key of `s[a]`.
proof fn lemma_first_key_holder(s: Seq<HashedFile>, a: int, j: int)
    requires
        0 <= j <= a < s.len(),
        dup_qual(s[a]),
        forall|k: int| 0 <= k < j ==> !(dup_qual(s[k]) && same_key(s[k], s[a])),
    ensures
        ({
            let r = first_key_holder(s, a, j);
            &&& j <= r <= a
            &&& dup_qual(s[r])
            &&& same_key(s[r], s[a])
            &&& forall|k: int| 0 <= k < r ==> !(dup_qual(s[k]) && same_key(s[k], s[a]))
        }),
    decreases a - j,
{
    if j < a && !(dup_qual(s[j]) && same_key(s[j], s[a])) {
        lemma_first_key_holder(s, a, j + 1);
    }
}

/// Two distinct matching positions put at least two members in the
/// filtered class.
proof fn lemma_filter_two_distinct(
    s: Seq<HashedFile>,
    a: int,
    b: int,
    pred: spec_fn(HashedFile) -> bool,
)
    requires
        0 <= a < b < s.len(),
        pred(s[a]),
        pred(s[b]),
    ensures
        s.filter(pred).len() >= 2,
    decreases s.len(),
{
    reveal(Seq::filter);
    if b == s.len() - 1 {
        assert(s.drop_last()[a] == s[a]);
        s.drop_last().lemma_filter_contains(pred, a);
        assert(s.drop_last().filter(pred).len() >= 1);
    } else {
        assert(s.drop_last()[a] == s[a] && s.drop_last()[b] == s[b]);
        lemma_filter_two_distinct(s.drop_last(), a, b, pred);
    }
}

/// Every representative position appears in the representative list.
proof fn lemma_reps_contain(s: Seq<HashedFile>, r: int, n: int)
    requires
        0 <= r < n <= s.len(),
        rep_pred(s, r),
    ensures
        reps_upto(s, n).contains(r),
    decreases n,
{
    if n - 1 == r {
        assert(reps_upto(s, n)[reps_upto(s, n).len() - 1] == r);
    } else {
        lemma_reps_contain(s, r, n - 1);
        let prev = reps_upto(s, n - 1);
        let k = choose|k: int| 0 <= k < prev.len() && prev[k] == r;
        assert(reps_upto(s, n)[k] == r);
    }
}

// ---------------------------------------------------------------------
// The other storage-recovery passes.
// ---------------------------------------------------------------------
/// The large-file pass of storage recovery keeps files at or over the
/// threshold.
pub open spec fn recovery_large_pred(c: FileCandidate, min_size: u64) -> bool {
    c.size >= min_size
}

/// What a storage-recovery large-file item holds.
pub open spec fn recovery_large_item_matches(it: ScanItem, c: FileCandidate, idx: int) -> bool {
    &&& it.id@ == "large_file_"@ + dec_digits(idx as u64)
    &&& it.name@ == c.name@
    &&& it.path@ == c.path@
    &&& it.size == c.size
    &&& it.item_type@ == "file"@
    &&& it.category@ == "large_file"@
    &&& it.risk_level == 3
    &&& it.description@ == "Large file: "@ + format_bytes_spec(c.size)
    &&& it.children is None
    &&& it.dependencies is None
    &&& it.dependents is None
}

/// Find files at or above `min_size` among the first 5000 walked
/// entries, largest first.
pub fn scan_large_files_storage_recovery(entries: &Vec<FileCandidate>, min_size: u64) -> (r: Vec<
    ScanItem,
>)
    ensures
        ({
            let f = entries@.take(min_int(5000, entries@.len() as int)).filter(
                |c: FileCandidate| recovery_large_pred(c, min_size),
            );
            exists|b: Seq<ScanItem>|
                b.len() == f.len() && (forall|j: int|
                    0 <= j < f.len() ==> recovery_large_item_matches(b[j], f[j], j)) && r@
                    =~= sort_size_desc(b)
        }),
{
    let cap = if entries.len() > 5000 {
        5000
    } else {
        entries.len()
    };
    let ghost capped = entries@.take(cap as int);
    let mut b: Vec<ScanItem> = Vec::new();
    let mut i: usize = 0;
    proof {
        lemma_filter_empty(|c: FileCandidate| recovery_large_pred(c, min_size));
        assert(capped.take(0) =~= Seq::<FileCandidate>::empty());
    }
    while i < cap
        invariant
            cap <= entries@.len(),
            capped == entries@.take(cap as int),
            i <= cap,
            ({
                let f = capped.take(i as int).filter(
                    |c: FileCandidate| recovery_large_pred(c, min_size),
                );
                b@.len() == f.len() && (forall|j: int|
                    0 <= j < f.len() ==> recovery_large_item_matches(b@[j], f[j], j))
            }),
        decreases cap - i,
    {
        proof {
            lemma_filter_take_step(
                capped,
                |c: FileCandidate| recovery_large_pred(c, min_size),
                i as int,
            );
            assert(capped[i as int] == entries@[i as int]);
        }
        if entries[i].size >= min_size {
            let idx = b.len();
            let id = String::from_str("large_file_").concat(u64_to_string(idx as u64).as_str());
            let desc = String::from_str("Large file: ").concat(
                format_bytes(entries[i].size).as_str(),
            );
            let item = ScanItem {
                id,
                name: entries[i].name.clone(),
                path: entries[i].path.clone(),
                size: entries[i].size,
                item_type: String::from_str("file"),
                category: String::from_str("large_file"),
                risk_level: 3,
                description: desc,
                children: None,
                dependencies: None,
                dependents: None,
            };
            b.push(item);
        }
        i += 1;
    }
    proof {
        assert(capped.take(cap as int) =~= capped);
    }
    sort_items_by_size_desc(b)
}

/// The old-download pass keeps files whose age exceeds the threshold;
/// files with no trustworthy age are skipped.
pub open spec fn old_download_pred(c: AgedFileCandidate, threshold_secs: u64) -> bool {
    match c.age_secs {
        Some(a) => a > threshold_secs,
        None => false,
    }
}

/// What an old-download item holds.
pub open spec fn old_download_item_matches(
    it: ScanItem,
    c: AgedFileCandidate,
    idx: int,
) -> bool {
    &&& it.id@ == "old_download_"@ + dec_digits(idx as u64)
    &&& it.name@ == c.name@
    &&& it.path@ == c.path@
    &&& it.size == c.size
    &&& it.item_type@ == "file"@
    &&& it.category@ == "old_download"@
    &&& it.risk_level == 1
    &&& it.description@ == "Old download: "@ + dec_digits(c.age_secs->Some_0 / 86400)
        + " days old"@
    &&& it.children is None
    &&& it.dependencies is None
    &&& it.dependents is None
}

/// Find files in the downloads walk older than `days_threshold` days,
/// ordered by path.
pub fn scan_old_downloads(entries: &Vec<AgedFileCandidate>, days_threshold: u64) -> (r: Vec<
    ScanItem,
>)
    requires
        days_threshold * 86400 <= u64::MAX,
    ensures
        ({
            let f = entries@.filter(
                |c: AgedFileCandidate| old_download_pred(c, (days_threshold * 86400) as u64),
            );

            exists|b: Seq<ScanItem>|
                b.len() == f.len() && (forall|j: int|
                    0 <= j < f.len() ==> old_download_item_matches(b[j], f[j], j)) && r@
                    =~= sort_path_asc(b)
        }),
{
    let threshold_secs: u64 = days_threshold * 86400;
    let n = entries.len();
    let mut b: Vec<ScanItem> = Vec::new();
    let mut i: usize = 0;
    proof {
        lemma_filter_empty(|c: AgedFileCandidate| old_download_pred(c, threshold_secs));
        assert(entries@.take(0) =~= Seq::<AgedFileCandidate>::empty());
    }
    while i < n
        invariant
            n == entries@.len(),
            threshold_secs == days_threshold * 86400,
            i <= n,
            ({
                let f = entries@.take(i as int).filter(
                    |c: AgedFileCandidate| old_download_pred(c, threshold_secs),
                );
                b@.len() == f.len() && (forall|j: int|
                    0 <= j < f.len() ==> old_download_item_matches(b@[j], f[j], j))
            }),
        decreases n - i,
    {
        proof {
            lemma_filter_take_step(
                entries@,
                |c: AgedFileCandidate| old_download_pred(c, threshold_secs),
                i as int,
            );
        }
        let keep = match &entries[i].age_secs {
            Some(a) => *a > threshold_secs,
            None => false,
        };
        if keep {
            let age = match &entries[i].age_secs {
                Some(a) => *a,
                None => 0,
            };
            let idx = b.len();
            let id = String::from_str("old_download_").concat(u64_to_string(idx as u64).as_str());
            let desc = String::from_str("Old download: ").concat(
                u64_to_string(age / 86400).as_str(),
            ).concat(" days old");
            let item = ScanItem {
                id,
                name: entries[i].name.clone(),
                path: entries[i].path.clone(),
                size: entries[i].size,
                item_type: String::from_str("file"),
                category: String::from_str("old_download"),
                risk_level: 1,
                description: desc,
                children: None,
                dependencies: None,
                dependents: None,
            };
            b.push(item);
        }
        i += 1;
    }
    proof {
        assert(entries@.take(n as int) =~= entries@);
    }
    sort_items_by_path_asc(b)
}

/// The aggregate sizes of a group list, as integers.
pub open spec fn group_sizes(s: Seq<DuplicateGroup>) -> Seq<int> {
    s.map_values(|g: DuplicateGroup| g.total_size as int)
}

/// The storage-recovery scan: group duplicates among the first 10000
/// fingerprinted files, find files of a gibibyte or more, find
/// downloads older than 90 days, and report per-category and overall
/// recoverable totals, each clamped at the type bound.
pub fn scan_storage_recovery(
    dup_files: &Vec<HashedFile>,
    all_files: &Vec<FileCandidate>,
    downloads: &Vec<AgedFileCandidate>,
) -> (r: StorageRecoveryResults)
    ensures
        ({
            let capped = dup_files@.take(min_int(10000, dup_files@.len() as int));
            &&& r.duplicates@.len() == reps_of(capped).len()
            &&& (forall|k: int|
                0 <= k < r.duplicates@.len() ==> group_matches(
                    r.duplicates@[k],
                    class_of(capped, capped[reps_of(capped)[k]]),
                    k,
                ))
        }),
        ({
            let f = all_files@.take(min_int(5000, all_files@.len() as int)).filter(
                |c: FileCandidate| recovery_large_pred(c, 1073741824),
            );
            exists|b: Seq<ScanItem>|
                b.len() == f.len() && (forall|j: int|
                    0 <= j < f.len() ==> recovery_large_item_matches(b[j], f[j], j))
                    && r.large_files@ =~= sort_size_desc(b)
        }),
        ({
            let f = downloads@.filter(
                |c: AgedFileCandidate| old_download_pred(c, 7776000),
            );
            exists|b: Seq<ScanItem>|
                b.len() == f.len() && (forall|j: int|
                    0 <= j < f.len() ==> old_download_item_matches(b[j], f[j], j))
                    && r.old_downloads@ =~= sort_path_asc(b)
        }),
        r.total_duplicate_size as int == min_int(
            sum_int(group_sizes(r.duplicates@)),
            u64::MAX as int,
        ),
        r.total_large_files_size as int == min_int(
            sum_int(crate::scanner::item_sizes(r.large_files@)),
            u64::MAX as int,
        ),
        r.total_old_downloads_size as int == min_int(
            sum_int(crate::scanner::item_sizes(r.old_downloads@)),
            u64::MAX as int,
        ),
        r.total_recoverable_size as int == min_int(
            r.total_duplicate_size as int + r.total_large_files_size as int
                + r.total_old_downloads_size as int,
            u64::MAX as int,
        ),
{
    let mut capped_dups: Vec<HashedFile> = Vec::new();
    let cap = if dup_files.len() > 10000 {
        10000
    } else {
        dup_files.len()
    };
    let mut ci: usize = 0;
    while ci < cap
        invariant
            cap <= dup_files@.len(),
            ci <= cap,
            capped_dups@ =~= dup_files@.take(cap as int).take(ci as int),
        decreases cap - ci,
    {
        let f = HashedFile {
            path: dup_files[ci].path.clone(),
            name: dup_files[ci].name.clone(),
            size: dup_files[ci].size,
            fingerprint: match &dup_files[ci].fingerprint {
                Some(v) => Some(*v),
                None => None,
            },
        };
        capped_dups.push(f);
        proof {
            assert(capped_dups@ =~= dup_files@.take(cap as int).take(ci + 1));
        }
        ci += 1;
    }
    proof {
        assert(dup_files@.take(cap as int).take(cap as int) =~= dup_files@.take(cap as int));
    }
    let duplicates = group_duplicates(&capped_dups);
    let large_files = scan_large_files_storage_recovery(all_files, 1073741824);
    let old_downloads = scan_old_downloads(downloads, 90);
    let total_duplicate_size = total_group_size(&duplicates);
    let total_large_files_size = total_item_size(&large_files);
    let total_old_downloads_size = total_item_size(&old_downloads);
    let total: u128 = (total_duplicate_size as u128) + (total_large_files_size as u128) + (
    total_old_downloads_size as u128);
    let total_recoverable_size: u64 = if total > 0xffffffffffffffffu128 {
        u64::MAX
    } else {
        (total as u64)
    };
    StorageRecoveryResults {
        duplicates,
        large_files,
        old_downloads,
        total_duplicate_size,
        total_large_files_size,
        total_old_downloads_size,
        total_recoverable_size,
    }
}

/// The clamped sum of the groups' aggregate sizes.
fn total_group_size(groups: &Vec<DuplicateGroup>) -> (r: u64)
    ensures
        r as int == min_int(sum_int(group_sizes(groups@)), u64::MAX as int),
{
    let n = groups.len();
    let mut acc: u128 = 0;
    let mut i: usize = 0;
    proof {
        assert(group_sizes(groups@).take(0) =~= Seq::<int>::empty());
    }
    while i < n
        invariant
            n == groups@.len(),
            i <= n,
            acc == sum_int(group_sizes(groups@).take(i as int)),
        decreases n - i,
    {
        proof {
            assert(forall|k: int|
                0 <= k < group_sizes(groups@).len() ==> 0 <= #[trigger] group_sizes(groups@)[k]
                    <= 0xffffffffffffffff);
            crate::seqext::lemma_sum_u64_fits_u128(group_sizes(groups@), i as int);
            crate::seqext::lemma_sum_int_take_step(group_sizes(groups@), i as int);
        }
        acc = acc + (groups[i].total_size as u128);
        i += 1;
    }
    proof {
        assert(group_sizes(groups@).take(n as int) =~= group_sizes(groups@));
    }
    if acc > 0xffffffffffffffffu128 {
        u64::MAX
    } else {
        (acc as u64)
    }
}

/// The clamped sum of the items' sizes.
fn total_item_size(items: &Vec<ScanItem>) -> (r: u64)
    ensures
        r as int == min_int(sum_int(crate::scanner::item_sizes(items@)), u64::MAX as int),
{
    let n = items.len();
    let mut acc: u128 = 0;
    let mut i: usize = 0;
    proof {
        assert(crate::scanner::item_sizes(items@).take(0) =~= Seq::<int>::empty());
    }
    while i < n
        invariant
            n == items@.len(),
            i <= n,
            acc == sum_int(crate::scanner::item_sizes(items@).take(i as int)),
        decreases n - i,
    {
        proof {
            assert(forall|k: int|
                0 <= k < crate::scanner::item_sizes(items@).len() ==> 0 <= #[trigger] crate::scanner::item_sizes(
                    items@,
                )[k] <= 0xffffffffffffffff);
            crate::seqext::lemma_sum_u64_fits_u128(
                crate::scanner::item_sizes(items@),
                i as int,
            );
            crate::seqext::lemma_sum_int_take_step(
                crate::scanner::item_sizes(items@),
                i as int,
            );
        }
        acc = acc + (items[i].size as u128);
        i += 1;
    }
    proof {
        assert(crate::scanner::item_sizes(items@).take(n as int) =~= crate::scanner::item_sizes(
            items@,
        ));
    }
    if acc > 0xffffffffffffffffu128 {
        u64::MAX
    } else {
        (acc as u64)
    }
}

} // verus!
