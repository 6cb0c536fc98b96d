//! The individual scan phases, as pure selections over candidates that
//! the caller gathered from disk: cache directories with their
//! subdirectories, package caches, oversized log files and large user
//! files. Each phase states exactly which candidates it keeps and what
//! every produced item holds; sorting is pinned to a stable insertion
//! order, the same a stable sort by the key produces.
use vstd::prelude::*;
use vstd::string::StringExecFns;

use crate::scanner::{ScanItem, ScanLimits};
use crate::seqext::{lemma_filter_empty, lemma_filter_take_step, min_int};
use crate::strutil::{contains_seq, has_suffix, str_contains, str_has_suffix, join_path};
use crate::trash::fresh_id;

verus! {

/// A regular file seen during a walk.
#[derive(Debug)]
pub struct FileCandidate {
    pub path: String,
    pub name: String,
    pub size: u64,
}

/// A regular file seen during a walk, with its age in seconds; absent
/// when the modification time was unreadable or lies in the future.
#[derive(Debug)]
pub struct AgedFileCandidate {
    pub path: String,
    pub name: String,
    pub size: u64,
    pub age_secs: Option<u64>,
}

/// A directory seen during a walk, with its computed recursive size.
#[derive(Debug)]
pub struct DirCandidate {
    pub path: String,
    pub name: String,
    pub size: u64,
}

/// A well-known cache directory: whether it exists, its recursive
/// size, and its immediate subdirectories with their sizes.
#[derive(Debug)]
pub struct CacheDirScan {
    pub path: String,
    pub name: String,
    pub exists: bool,
    pub size: u64,
    pub subdirs: Vec<DirCandidate>,
}

/// A package-manager cache directory with its display name, category
/// and description, plus what the walk found.
#[derive(Debug)]
pub struct PkgCacheScan {
    pub path: String,
    pub name: String,
    pub category: String,
    pub description: String,
    pub exists: bool,
    pub size: u64,
}

// ---------------------------------------------------------------------
// Sorting, pinned to stable insertion order.
// ---------------------------------------------------------------------
/// Insert `x` into a list sorted by size descending, after all items
/// at least as large (so equal sizes keep their arrival order).
pub open spec fn insert_size_desc(s: Seq<ScanItem>, x: ScanItem) -> Seq<ScanItem>
    decreases s.len(),
{
    if s.len() == 0 {
        seq![x]
    } else if s[0].size >= x.size {
        seq![s[0]] + insert_size_desc(s.drop_first(), x)
    } else {
        seq![x] + s
    }
}

/// Stable sort by size descending: items inserted left to right.
pub open spec fn sort_size_desc(s: Seq<ScanItem>) -> Seq<ScanItem>
    decreases s.len(),
{
    if s.len() == 0 {
        s
    } else {
        insert_size_desc(sort_size_desc(s.drop_last()), s.last())
    }
}

/// Insert `x` into a list sorted by path ascending, after all items
/// with a path no greater.
pub open spec fn insert_path_asc(s: Seq<ScanItem>, x: ScanItem) -> Seq<ScanItem>
    decreases s.len(),
{
    if s.len() == 0 {
        seq![x]
    } else if crate::strutil::lex_le(s[0].path@, x.path@) {
        seq![s[0]] + insert_path_asc(s.drop_first(), x)
    } else {
        seq![x] + s
    }
}

/// Stable sort by path ascending: items inserted left to right.
pub open spec fn sort_path_asc(s: Seq<ScanItem>) -> Seq<ScanItem>
    decreases s.len(),
{
    if s.len() == 0 {
        s
    } else {
        insert_path_asc(sort_path_asc(s.drop_last()), s.last())
    }
}

/// Inserting makes the list one longer.
proof fn lemma_insert_size_desc_len(s: Seq<ScanItem>, x: ScanItem)
    ensures
        insert_size_desc(s, x).len() == s.len() + 1,
    decreases s.len(),
{
    if s.len() > 0 && s[0].size >= x.size {
        lemma_insert_size_desc_len(s.drop_first(), x);
    }
}

/// Sorting keeps the length.
pub proof fn lemma_sort_size_desc_len(s: Seq<ScanItem>)
    ensures
        sort_size_desc(s).len() == s.len(),
    decreases s.len(),
{
    if s.len() > 0 {
        lemma_sort_size_desc_len(s.drop_last());
        lemma_insert_size_desc_len(sort_size_desc(s.drop_last()), s.last());
    }
}

/// Inserting makes the list one longer.
proof fn lemma_insert_path_asc_len(s: Seq<ScanItem>, x: ScanItem)
    ensures
        insert_path_asc(s, x).len() == s.len() + 1,
    decreases s.len(),
{
    if s.len() > 0 && crate::strutil::lex_le(s[0].path@, x.path@) {
        lemma_insert_path_asc_len(s.drop_first(), x);
    }
}

/// Sorting keeps the length.
pub proof fn lemma_sort_path_asc_len(s: Seq<ScanItem>)
    ensures
        sort_path_asc(s).len() == s.len(),
    decreases s.len(),
{
    if s.len() > 0 {
        lemma_sort_path_asc_len(s.drop_last());
        lemma_insert_path_asc_len(sort_path_asc(s.drop_last()), s.last());
    }
}

/// Where the insertion lands: before the first strictly smaller item.
proof fn lemma_insert_size_desc_at(s: Seq<ScanItem>, x: ScanItem, j: int)
    requires
        0 <= j <= s.len(),
        forall|k: int| 0 <= k < j ==> s[k].size >= x.size,
        j < s.len() ==> s[j].size < x.size,
    ensures
        insert_size_desc(s, x) =~= s.take(j) + seq![x] + s.skip(j),
    decreases j,
{
    if j == 0 {
        if s.len() == 0 {
            assert(insert_size_desc(s, x) =~= seq![x]);
        }
    } else {
        let rest = s.drop_first();
        assert(forall|k: int| 0 <= k < j - 1 ==> rest[k] == s[k + 1]);
        assert(j - 1 < rest.len() ==> rest[j - 1] == s[j]);
        lemma_insert_size_desc_at(rest, x, j - 1);
        assert(insert_size_desc(s, x) =~= seq![s[0]] + (rest.take(j - 1) + seq![x] + rest.skip(
            j - 1,
        )));
    }
}

/// Where the insertion lands: before the first strictly greater path.
proof fn lemma_insert_path_asc_at(s: Seq<ScanItem>, x: ScanItem, j: int)
    requires
        0 <= j <= s.len(),
        forall|k: int| 0 <= k < j ==> crate::strutil::lex_le(s[k].path@, x.path@),
        j < s.len() ==> !crate::strutil::lex_le(s[j].path@, x.path@),
    ensures
        insert_path_asc(s, x) =~= s.take(j) + seq![x] + s.skip(j),
    decreases j,
{
    if j == 0 {
        if s.len() == 0 {
            assert(insert_path_asc(s, x) =~= seq![x]);
        }
    } else {
        let rest = s.drop_first();
        assert(forall|k: int| 0 <= k < j - 1 ==> rest[k] == s[k + 1]);
        assert(j - 1 < rest.len() ==> rest[j - 1] == s[j]);
        lemma_insert_path_asc_at(rest, x, j - 1);
        assert(insert_path_asc(s, x) =~= seq![s[0]] + (rest.take(j - 1) + seq![x] + rest.skip(
            j - 1,
        )));
    }
}

/// Inserting into a size-descending list keeps it size-descending.
proof fn lemma_insert_size_desc_ordered(s: Seq<ScanItem>, x: ScanItem)
    requires
        forall|a: int, b: int| 0 <= a < b < s.len() ==> s[a].size >= s[b].size,
    ensures
        forall|a: int, b: int|
            0 <= a < b < insert_size_desc(s, x).len() ==> insert_size_desc(s, x)[a].size
                >= insert_size_desc(s, x)[b].size,
    decreases s.len(),
{
    let out = insert_size_desc(s, x);
    if s.len() == 0 {
    } else if s[0].size >= x.size {
        let rest = s.drop_first();
        assert(forall|a: int, b: int| 0 <= a < b < rest.len() ==> rest[a].size >= rest[b].size);
        lemma_insert_size_desc_ordered(rest, x);
        lemma_insert_size_desc_len(rest, x);
        let sub = insert_size_desc(rest, x);
        assert(forall|k: int| 0 <= k < sub.len() ==> out[k + 1] == sub[k]);
        assert forall|k: int| 0 <= k < sub.len() implies s[0].size >= sub[k].size by {
            lemma_insert_members(rest, x, k);
        }
    }
}

/// Every element of an insertion is the new item or an original one.
proof fn lemma_insert_members(s: Seq<ScanItem>, x: ScanItem, k: int)
    requires
        0 <= k < insert_size_desc(s, x).len(),
    ensures
        insert_size_desc(s, x)[k] == x || exists|i: int|
            0 <= i < s.len() && insert_size_desc(s, x)[k] == s[i],
    decreases s.len(),
{
    if s.len() > 0 && s[0].size >= x.size {
        if k > 0 {
            lemma_insert_members(s.drop_first(), x, k - 1);
            let rest = s.drop_first();
            if insert_size_desc(rest, x)[k - 1] != x {
                let i = choose|i: int|
                    0 <= i < rest.len() && insert_size_desc(rest, x)[k - 1] == rest[i];
                assert(insert_size_desc(s, x)[k] == s[i + 1]);
            }
        }
    }
}

/// Law (sorting): the size-descending sort really is ordered by size,
/// largest first.
pub proof fn lemma_sort_size_desc_ordered(s: Seq<ScanItem>)
    ensures
        forall|a: int, b: int|
            0 <= a < b < sort_size_desc(s).len() ==> sort_size_desc(s)[a].size >= sort_size_desc(
                s,
            )[b].size,
    decreases s.len(),
{
    if s.len() > 0 {
        lemma_sort_size_desc_ordered(s.drop_last());
        lemma_insert_size_desc_ordered(sort_size_desc(s.drop_last()), s.last());
    }
}

/// Inserting adds exactly the new item to the collection.
proof fn lemma_insert_size_desc_multiset(s: Seq<ScanItem>, x: ScanItem)
    ensures
        insert_size_desc(s, x).to_multiset() =~= s.to_multiset().insert(x),
    decreases s.len(),
{
    broadcast use vstd::seq_lib::group_to_multiset_ensures;

    if s.len() == 0 {
        assert(insert_size_desc(s, x) =~= Seq::<ScanItem>::empty().push(x));
        assert(Seq::<ScanItem>::empty().push(x).to_multiset() =~= Seq::<
            ScanItem,
        >::empty().to_multiset().insert(x));
    } else if s[0].size >= x.size {
        let rest = s.drop_first();
        lemma_insert_size_desc_multiset(rest, x);
        lemma_cons_multiset(insert_size_desc(rest, x), s[0]);
        lemma_cons_multiset(rest, s[0]);
        assert(insert_size_desc(s, x) =~= seq![s[0]] + insert_size_desc(rest, x));
        assert(seq![s[0]] + rest =~= s);
    } else {
        lemma_cons_multiset(s, x);
    }
}

/// Prepending one element adds it to the collection.
proof fn lemma_cons_multiset(s: Seq<ScanItem>, x: ScanItem)
    ensures
        (seq![x] + s).to_multiset() =~= s.to_multiset().insert(x),
    decreases s.len(),
{
    broadcast use vstd::seq_lib::group_to_multiset_ensures;

    if s.len() == 0 {
        assert(seq![x] + s =~= Seq::<ScanItem>::empty().push(x));
    } else {
        lemma_cons_multiset(s.drop_last(), x);
        assert((seq![x] + s).drop_last() =~= seq![x] + s.drop_last());
        assert(seq![x] + s =~= (seq![x] + s.drop_last()).push(s.last()));
        assert(s =~= s.drop_last().push(s.last()));
    }
}

/// Law (sorting): the size-descending sort keeps exactly the items it
/// was given.
pub proof fn lemma_sort_size_desc_permutes(s: Seq<ScanItem>)
    ensures
        sort_size_desc(s).to_multiset() =~= s.to_multiset(),
    decreases s.len(),
{
    broadcast use vstd::seq_lib::group_to_multiset_ensures;

    if s.len() > 0 {
        lemma_sort_size_desc_permutes(s.drop_last());
        lemma_insert_size_desc_multiset(sort_size_desc(s.drop_last()), s.last());
        assert(s =~= s.drop_last().push(s.last()));
    }
}

/// Inserting into a path-ascending list keeps it path-ascending.
proof fn lemma_insert_path_asc_ordered(s: Seq<ScanItem>, x: ScanItem)
    requires
        forall|a: int, b: int|
            0 <= a < b < s.len() ==> crate::strutil::lex_le(s[a].path@, s[b].path@),
    ensures
        forall|a: int, b: int|
            0 <= a < b < insert_path_asc(s, x).len() ==> crate::strutil::lex_le(
                insert_path_asc(s, x)[a].path@,
                insert_path_asc(s, x)[b].path@,
            ),
    decreases s.len(),
{
    let out = insert_path_asc(s, x);
    if s.len() == 0 {
    } else if crate::strutil::lex_le(s[0].path@, x.path@) {
        let rest = s.drop_first();
        assert(forall|a: int, b: int|
            0 <= a < b < rest.len() ==> crate::strutil::lex_le(rest[a].path@, rest[b].path@));
        lemma_insert_path_asc_ordered(rest, x);
        lemma_insert_path_asc_len(rest, x);
        let sub = insert_path_asc(rest, x);
        assert(forall|k: int| 0 <= k < sub.len() ==> out[k + 1] == sub[k]);
        assert forall|k: int| 0 <= k < sub.len() implies crate::strutil::lex_le(
            s[0].path@,
            sub[k].path@,
        ) by {
            lemma_insert_path_members(rest, x, k);
            if sub[k] != x {
                let i = choose|i: int| 0 <= i < rest.len() && sub[k] == rest[i];
                assert(crate::strutil::lex_le(s[0].path@, s[i + 1].path@));
            }
        }
    } else {
        crate::strutil::lemma_lex_le_total(s[0].path@, x.path@);
        assert forall|b: int| 1 <= b < out.len() implies crate::strutil::lex_le(
            x.path@,
            out[b].path@,
        ) by {
            assert(out[b] == s[b - 1]);
            if b > 1 {
                assert(crate::strutil::lex_le(s[0].path@, s[b - 1].path@));
                crate::strutil::lemma_lex_le_trans(x.path@, s[0].path@, s[b - 1].path@);
            }
        }
    }
}

/// Every element of an insertion is the new item or an original one.
proof fn lemma_insert_path_members(s: Seq<ScanItem>, x: ScanItem, k: int)
    requires
        0 <= k < insert_path_asc(s, x).len(),
    ensures
        insert_path_asc(s, x)[k] == x || exists|i: int|
            0 <= i < s.len() && insert_path_asc(s, x)[k] == s[i],
    decreases s.len(),
{
    if s.len() > 0 && crate::strutil::lex_le(s[0].path@, x.path@) {
        if k > 0 {
            lemma_insert_path_members(s.drop_first(), x, k - 1);
            let rest = s.drop_first();
            if insert_path_asc(rest, x)[k - 1] != x {
                let i = choose|i: int|
                    0 <= i < rest.len() && insert_path_asc(rest, x)[k - 1] == rest[i];
                assert(insert_path_asc(s, x)[k] == s[i + 1]);
            }
        }
    }
}

/// Law (sorting): the path-ascending sort really is ordered by path.
pub proof fn lemma_sort_path_asc_ordered(s: Seq<ScanItem>)
    ensures
        forall|a: int, b: int|
            0 <= a < b < sort_path_asc(s).len() ==> crate::strutil::lex_le(
                sort_path_asc(s)[a].path@,
                sort_path_asc(s)[b].path@,
            ),
    decreases s.len(),
{
    if s.len() > 0 {
        lemma_sort_path_asc_ordered(s.drop_last());
        lemma_insert_path_asc_ordered(sort_path_asc(s.drop_last()), s.last());
    }
}

/// Inserting adds exactly the new item to the collection.
proof fn lemma_insert_path_asc_multiset(s: Seq<ScanItem>, x: ScanItem)
    ensures
        insert_path_asc(s, x).to_multiset() =~= s.to_multiset().insert(x),
    decreases s.len(),
{
    broadcast use vstd::seq_lib::group_to_multiset_ensures;

    if s.len() == 0 {
        assert(insert_path_asc(s, x) =~= Seq::<ScanItem>::empty().push(x));
        assert(Seq::<ScanItem>::empty().push(x).to_multiset() =~= Seq::<
            ScanItem,
        >::empty().to_multiset().insert(x));
    } else if crate::strutil::lex_le(s[0].path@, x.path@) {
        let rest = s.drop_first();
        lemma_insert_path_asc_multiset(rest, x);
        lemma_cons_multiset(insert_path_asc(rest, x), s[0]);
        lemma_cons_multiset(rest, s[0]);
        assert(insert_path_asc(s, x) =~= seq![s[0]] + insert_path_asc(rest, x));
        assert(seq![s[0]] + rest =~= s);
    } else {
        lemma_cons_multiset(s, x);
    }
}

/// Law (sorting): the path-ascending sort keeps exactly the items it
/// was given.
pub proof fn lemma_sort_path_asc_permutes(s: Seq<ScanItem>)
    ensures
        sort_path_asc(s).to_multiset() =~= s.to_multiset(),
    decreases s.len(),
{
    broadcast use vstd::seq_lib::group_to_multiset_ensures;

    if s.len() > 0 {
        lemma_sort_path_asc_permutes(s.drop_last());
        lemma_insert_path_asc_multiset(sort_path_asc(s.drop_last()), s.last());
        assert(s =~= s.drop_last().push(s.last()));
    }
}

/// Insert one item into a vector sorted by size descending.
fn insert_item_size_desc(out: &mut Vec<ScanItem>, x: ScanItem)
    ensures
        final(out)@ =~= insert_size_desc(old(out)@, x),
{
    let n = out.len();
    let mut j: usize = 0;
    while j < n && out[j].size >= x.size
        invariant
            out@ == old(out)@,
            n == out@.len(),
            j <= n,
            forall|k: int| 0 <= k < j ==> out@[k].size >= x.size,
        decreases n - j,
    {
        j += 1;
    }
    proof {
        lemma_insert_size_desc_at(out@, x, j as int);
    }
    out.insert(j, x);
    proof {
        assert(out@ =~= old(out)@.take(j as int) + seq![x] + old(out)@.skip(j as int));
    }
}

/// Insert one item into a vector sorted by path ascending.
fn insert_item_path_asc(out: &mut Vec<ScanItem>, x: ScanItem)
    ensures
        final(out)@ =~= insert_path_asc(old(out)@, x),
{
    let n = out.len();
    let mut j: usize = 0;
    while j < n && crate::strutil::str_lex_le(out[j].path.as_str(), x.path.as_str())
        invariant
            out@ == old(out)@,
            n == out@.len(),
            j <= n,
            forall|k: int| 0 <= k < j ==> crate::strutil::lex_le(out@[k].path@, x.path@),
        decreases n - j,
    {
        j += 1;
    }
    proof {
        lemma_insert_path_asc_at(out@, x, j as int);
    }
    out.insert(j, x);
    proof {
        assert(out@ =~= old(out)@.take(j as int) + seq![x] + old(out)@.skip(j as int));
    }
}

/// Sort items by size, largest first; equal sizes keep their order.
pub fn sort_items_by_size_desc(items: Vec<ScanItem>) -> (r: Vec<ScanItem>)
    ensures
        r@ =~= sort_size_desc(items@),
{
    let ghost orig = items@;
    let mut v = items;
    let mut out: Vec<ScanItem> = Vec::new();
    let ghost mut i: int = 0;
    proof {
        assert(v@ =~= orig.skip(0));
        assert(out@ =~= sort_size_desc(orig.take(0)));
    }
    while v.len() > 0
        invariant
            0 <= i <= orig.len(),
            v@ =~= orig.skip(i),
            out@ =~= sort_size_desc(orig.take(i)),
        decreases v@.len(),
    {
        let x = v.remove(0);
        proof {
            assert(x == orig[i]);
            assert(v@ =~= orig.skip(i + 1));
        }
        insert_item_size_desc(&mut out, x);
        proof {
            assert(orig.take(i + 1).drop_last() =~= orig.take(i));
            assert(orig.take(i + 1).last() == orig[i]);
            i = i + 1;
        }
    }
    proof {
        assert(orig.take(i) =~= orig);
    }
    out
}

/// Sort items by path, lexicographically ascending; equal paths keep
/// their order.
pub fn sort_items_by_path_asc(items: Vec<ScanItem>) -> (r: Vec<ScanItem>)
    ensures
        r@ =~= sort_path_asc(items@),
{
    let ghost orig = items@;
    let mut v = items;
    let mut out: Vec<ScanItem> = Vec::new();
    let ghost mut i: int = 0;
    proof {
        assert(v@ =~= orig.skip(0));
        assert(out@ =~= sort_path_asc(orig.take(0)));
    }
    while v.len() > 0
        invariant
            0 <= i <= orig.len(),
            v@ =~= orig.skip(i),
            out@ =~= sort_path_asc(orig.take(i)),
        decreases v@.len(),
    {
        let x = v.remove(0);
        proof {
            assert(x == orig[i]);
            assert(v@ =~= orig.skip(i + 1));
        }
        insert_item_path_asc(&mut out, x);
        proof {
            assert(orig.take(i + 1).drop_last() =~= orig.take(i));
            assert(orig.take(i + 1).last() == orig[i]);
            i = i + 1;
        }
    }
    proof {
        assert(orig.take(i) =~= orig);
    }
    out
}

// ---------------------------------------------------------------------
// Log phase.
// ---------------------------------------------------------------------
/// A name that looks like a log file.
pub open spec fn is_log_name(n: Seq<char>) -> bool {
    has_suffix(n, ".log"@) || has_suffix(n, ".log.1"@) || contains_seq(n, ".log."@)
}

/// The log phase keeps log-named files over 10 MiB.
pub open spec fn log_pred(c: FileCandidate) -> bool {
    is_log_name(c.name@) && c.size > 10485760
}

/// What a log item holds, given its candidate.
pub open spec fn log_item_matches(it: ScanItem, c: FileCandidate) -> bool {
    &&& it.id@.len() == 36
    &&& it.name@ == c.name@
    &&& it.path@ == c.path@
    &&& it.size == c.size
    &&& it.item_type@ == "file"@
    &&& it.category@ == "Logs"@
    &&& it.risk_level == 1
    &&& it.description@ == "Log file - review before removing"@
    &&& it.children is None
    &&& it.dependencies is None
    &&& it.dependents is None
}

/// Items and candidates correspond position by position.
pub open spec fn items_match_logs(items: Seq<ScanItem>, cands: Seq<FileCandidate>) -> bool {
    items.len() == cands.len() && (forall|j: int|
        0 <= j < items.len() ==> log_item_matches(items[j], cands[j]))
}

/// The log phase: among the first `max_files` walked entries, report
/// every log-named file over 10 MiB.
pub fn scan_logs(entries: &Vec<FileCandidate>, limits: &ScanLimits) -> (r: Vec<ScanItem>)
    ensures
        items_match_logs(
            r@,
            entries@.take(min_int(limits.max_files as int, entries@.len() as int)).filter(
                |c: FileCandidate| log_pred(c),
            ),
        ),
{
    let cap = if limits.max_files < entries.len() {
        limits.max_files
    } else {
        entries.len()
    };
    let ghost capped = entries@.take(cap as int);
    let mut r: Vec<ScanItem> = Vec::new();
    let mut i: usize = 0;
    proof {
        lemma_filter_empty(|c: FileCandidate| log_pred(c));
        assert(capped.take(0) =~= Seq::<FileCandidate>::empty());
    }
    while i < cap
        invariant
            cap <= entries@.len(),
            capped == entries@.take(cap as int),
            i <= cap,
            items_match_logs(r@, capped.take(i as int).filter(|c: FileCandidate| log_pred(c))),
        decreases cap - i,
    {
        proof {
            lemma_filter_take_step(capped, |c: FileCandidate| log_pred(c), i as int);
            assert(capped[i as int] == entries@[i as int]);
        }
        let is_log = str_has_suffix(entries[i].name.as_str(), ".log") || str_has_suffix(
            entries[i].name.as_str(),
            ".log.1",
        ) || str_contains(entries[i].name.as_str(), ".log.");
        if is_log && entries[i].size > 10485760 {
            let item = ScanItem {
                id: fresh_id(),
                name: entries[i].name.clone(),
                path: entries[i].path.clone(),
                size: entries[i].size,
                item_type: String::from_str("file"),
                category: String::from_str("Logs"),
                risk_level: 1,
                description: String::from_str("Log file - review before removing"),
                children: None,
                dependencies: None,
                dependents: None,
            };
            r.push(item);
        }
        i += 1;
    }
    proof {
        assert(capped.take(cap as int) =~= capped);
    }
    r
}

// ---------------------------------------------------------------------
// Cache phase.
// ---------------------------------------------------------------------
/// A subdirectory worth listing under a cache directory: over 5 MiB.
pub open spec fn subdir_pred(d: DirCandidate) -> bool {
    d.size > 5242880
}

/// What a subdirectory child item holds, given its candidate.
pub open spec fn subdir_item_matches(it: ScanItem, d: DirCandidate) -> bool {
    &&& it.id@.len() == 36
    &&& it.name@ == d.name@
    &&& it.path@ == d.path@
    &&& it.size == d.size
    &&& it.item_type@ == "directory"@
    &&& it.category@ == "Cache"@
    &&& it.risk_level == 0
    &&& it.description@ == "Application cache"@
    &&& it.children is None
    &&& it.dependencies is None
    &&& it.dependents is None
}

/// Child items and qualifying subdirectories correspond position by
/// position.
pub open spec fn items_match_subdirs(items: Seq<ScanItem>, ds: Seq<DirCandidate>) -> bool {
    items.len() == ds.len() && (forall|j: int|
        0 <= j < items.len() ==> subdir_item_matches(items[j], ds[j]))
}

/// What the children of a cache item are, given the subdirectories of
/// its directory: nothing when no subdirectory qualifies, otherwise
/// the ten largest qualifying ones, largest first.
pub open spec fn cache_children_rel(c: Option<Vec<ScanItem>>, ds: Seq<DirCandidate>) -> bool {
    let f = ds.filter(|d: DirCandidate| subdir_pred(d));
    match c {
        None => f.len() == 0,
        Some(v) => f.len() > 0 && (exists|b: Seq<ScanItem>|
            items_match_subdirs(b, f) && v@ =~= sort_size_desc(b).take(min_int(10, b.len() as int))),
    }
}

/// List the noteworthy subdirectories of a cache directory: those over
/// 5 MiB, largest first, at most ten; nothing when none qualifies.
pub fn scan_cache_subdirs(subdirs: &Vec<DirCandidate>) -> (r: Option<Vec<ScanItem>>)
    ensures
        cache_children_rel(r, subdirs@),
{
    let n = subdirs.len();
    let mut b: Vec<ScanItem> = Vec::new();
    let mut i: usize = 0;
    proof {
        lemma_filter_empty(|d: DirCandidate| subdir_pred(d));
        assert(subdirs@.take(0) =~= Seq::<DirCandidate>::empty());
    }
    while i < n
        invariant
            n == subdirs@.len(),
            i <= n,
            items_match_subdirs(
                b@,
                subdirs@.take(i as int).filter(|d: DirCandidate| subdir_pred(d)),
            ),
        decreases n - i,
    {
        proof {
            lemma_filter_take_step(subdirs@, |d: DirCandidate| subdir_pred(d), i as int);
        }
        if subdirs[i].size > 5242880 {
            let item = ScanItem {
                id: fresh_id(),
                name: subdirs[i].name.clone(),
                path: subdirs[i].path.clone(),
                size: subdirs[i].size,
                item_type: String::from_str("directory"),
                category: String::from_str("Cache"),
                risk_level: 0,
                description: String::from_str("Application cache"),
                children: None,
                dependencies: None,
                dependents: None,
            };
            b.push(item);
        }
        i += 1;
    }
    proof {
        assert(subdirs@.take(n as int) =~= subdirs@);
    }
    if b.len() == 0 {
        return None;
    }
    let ghost gb = b@;
    proof {
        lemma_sort_size_desc_len(gb);
    }
    let mut sorted = sort_items_by_size_desc(b);
    if sorted.len() > 10 {
        sorted.truncate(10);
    }
    proof {
        assert(sorted@ =~= sort_size_desc(gb).take(min_int(10, gb.len() as int)));
    }
    Some(sorted)
}

/// The user cache phase keeps existing directories with content.
pub open spec fn user_cache_pred(d: CacheDirScan) -> bool {
    d.exists && d.size > 0
}

/// The browser cache phase keeps existing directories over 10 MiB.
pub open spec fn browser_cache_pred(d: CacheDirScan) -> bool {
    d.exists && d.size > 10485760
}

/// What a user cache item holds, given its directory.
pub open spec fn user_cache_item_matches(it: ScanItem, d: CacheDirScan) -> bool {
    &&& it.id@.len() == 36
    &&& it.name@ == d.name@
    &&& it.path@ == d.path@
    &&& it.size == d.size
    &&& it.item_type@ == "cache"@
    &&& it.category@ == "Cache"@
    &&& it.risk_level == 0
    &&& it.description@ == "Cache directory - safe to remove"@
    &&& cache_children_rel(it.children, d.subdirs@)
    &&& it.dependencies is None
    &&& it.dependents is None
}

/// What a browser cache item holds, given its directory.
pub open spec fn browser_cache_item_matches(it: ScanItem, d: CacheDirScan) -> bool {
    &&& it.id@.len() == 36
    &&& it.name@ == d.name@
    &&& it.path@ == d.path@
    &&& it.size == d.size
    &&& it.item_type@ == "cache"@
    &&& it.category@ == "Browser"@
    &&& it.risk_level == 0
    &&& it.description@ == "Browser cache - safe to remove"@
    &&& it.children is None
    &&& it.dependencies is None
    &&& it.dependents is None
}

/// The cache phase: among the first `max_files` candidates of each
/// list, one item per existing non-empty user cache directory, with
/// its noteworthy subdirectories as children, followed by one item per
/// browser cache directory over 10 MiB.
pub fn build_cache_items(
    user: &Vec<CacheDirScan>,
    browser: &Vec<CacheDirScan>,
    limits: &ScanLimits,
) -> (r: Vec<ScanItem>)
    ensures
        ({
            let cu = user@.take(min_int(limits.max_files as int, user@.len() as int));
            let cb = browser@.take(min_int(limits.max_files as int, browser@.len() as int));
            let fu = cu.filter(|d: CacheDirScan| user_cache_pred(d));
            let fb = cb.filter(|d: CacheDirScan| browser_cache_pred(d));
            &&& r@.len() == fu.len() + fb.len()
            &&& (forall|j: int| 0 <= j < fu.len() ==> user_cache_item_matches(r@[j], fu[j]))
            &&& (forall|j: int|
                0 <= j < fb.len() ==> browser_cache_item_matches(r@[fu.len() + j], fb[j]))
        }),
{
    let mut r: Vec<ScanItem> = Vec::new();
    let n = if limits.max_files < user.len() {
        limits.max_files
    } else {
        user.len()
    };
    let ghost cu = user@.take(n as int);
    let mut i: usize = 0;
    proof {
        lemma_filter_empty(|d: CacheDirScan| user_cache_pred(d));
        assert(cu.take(0) =~= Seq::<CacheDirScan>::empty());
    }
    while i < n
        invariant
            n <= user@.len(),
            cu == user@.take(n as int),
            i <= n,
            ({
                let fu = cu.take(i as int).filter(|d: CacheDirScan| user_cache_pred(d));
                r@.len() == fu.len() && (forall|j: int|
                    0 <= j < fu.len() ==> user_cache_item_matches(r@[j], fu[j]))
            }),
        decreases n - i,
    {
        proof {
            lemma_filter_take_step(cu, |d: CacheDirScan| user_cache_pred(d), i as int);
            assert(cu[i as int] == user@[i as int]);
        }
        if user[i].exists && user[i].size > 0 {
            let children = scan_cache_subdirs(&user[i].subdirs);
            let item = ScanItem {
                id: fresh_id(),
                name: user[i].name.clone(),
                path: user[i].path.clone(),
                size: user[i].size,
                item_type: String::from_str("cache"),
                category: String::from_str("Cache"),
                risk_level: 0,
                description: String::from_str("Cache directory - safe to remove"),
                children,
                dependencies: None,
                dependents: None,
            };
            r.push(item);
        }
        i += 1;
    }
    proof {
        assert(cu.take(n as int) =~= cu);
    }
    let ghost fu = cu.filter(|d: CacheDirScan| user_cache_pred(d));
    let m = if limits.max_files < browser.len() {
        limits.max_files
    } else {
        browser.len()
    };
    let ghost cb = browser@.take(m as int);
    let mut k: usize = 0;
    proof {
        lemma_filter_empty(|d: CacheDirScan| browser_cache_pred(d));
        assert(cb.take(0) =~= Seq::<CacheDirScan>::empty());
    }
    while k < m
        invariant
            m <= browser@.len(),
            cb == browser@.take(m as int),
            k <= m,
            fu == cu.filter(|d: CacheDirScan| user_cache_pred(d)),
            (forall|j: int| 0 <= j < fu.len() ==> user_cache_item_matches(r@[j], fu[j])),
            ({
                let fb = cb.take(k as int).filter(|d: CacheDirScan| browser_cache_pred(d));
                r@.len() == fu.len() + fb.len() && (forall|j: int|
                    0 <= j < fb.len() ==> browser_cache_item_matches(r@[fu.len() + j], fb[j]))
            }),
        decreases m - k,
    {
        proof {
            lemma_filter_take_step(cb, |d: CacheDirScan| browser_cache_pred(d), k as int);
            assert(cb[k as int] == browser@[k as int]);
        }
        if browser[k].exists && browser[k].size > 10485760 {
            let item = ScanItem {
                id: fresh_id(),
                name: browser[k].name.clone(),
                path: browser[k].path.clone(),
                size: browser[k].size,
                item_type: String::from_str("cache"),
                category: String::from_str("Browser"),
                risk_level: 0,
                description: String::from_str("Browser cache - safe to remove"),
                children: None,
                dependencies: None,
                dependents: None,
            };
            r.push(item);
        }
        k += 1;
    }
    proof {
        assert(cb.take(m as int) =~= cb);
    }
    r
}

// ---------------------------------------------------------------------
// Package cache phase.
// ---------------------------------------------------------------------
/// The package phase keeps existing caches with content.
pub open spec fn pkg_cache_pred(d: PkgCacheScan) -> bool {
    d.exists && d.size > 0
}

/// What a package cache item holds, given its candidate.
pub open spec fn pkg_item_matches(it: ScanItem, d: PkgCacheScan) -> bool {
    &&& it.id@.len() == 36
    &&& it.name@ == d.name@
    &&& it.path@ == d.path@
    &&& it.size == d.size
    &&& it.item_type@ == "cache"@
    &&& it.category@ == d.category@
    &&& it.risk_level == 0
    &&& it.description@ == d.description@
    &&& it.children is None
    &&& it.dependencies is None
    &&& it.dependents is None
}

/// The package cache phase: among the first `max_files` candidates,
/// one item per existing non-empty package cache, in the given order.
pub fn build_package_items(scans: &Vec<PkgCacheScan>, limits: &ScanLimits) -> (r: Vec<ScanItem>)
    ensures
        ({
            let c = scans@.take(min_int(limits.max_files as int, scans@.len() as int));
            let f = c.filter(|d: PkgCacheScan| pkg_cache_pred(d));
            r@.len() == f.len() && (forall|j: int|
                0 <= j < f.len() ==> pkg_item_matches(r@[j], f[j]))
        }),
{
    let mut r: Vec<ScanItem> = Vec::new();
    let n = if limits.max_files < scans.len() {
        limits.max_files
    } else {
        scans.len()
    };
    let ghost c = scans@.take(n as int);
    let mut i: usize = 0;
    proof {
        lemma_filter_empty(|d: PkgCacheScan| pkg_cache_pred(d));
        assert(c.take(0) =~= Seq::<PkgCacheScan>::empty());
    }
    while i < n
        invariant
            n <= scans@.len(),
            c == scans@.take(n as int),
            i <= n,
            ({
                let f = c.take(i as int).filter(|d: PkgCacheScan| pkg_cache_pred(d));
                r@.len() == f.len() && (forall|j: int|
                    0 <= j < f.len() ==> pkg_item_matches(r@[j], f[j]))
            }),
        decreases n - i,
    {
        proof {
            lemma_filter_take_step(c, |d: PkgCacheScan| pkg_cache_pred(d), i as int);
            assert(c[i as int] == scans@[i as int]);
        }
        if scans[i].exists && scans[i].size > 0 {
            let item = ScanItem {
                id: fresh_id(),
                name: scans[i].name.clone(),
                path: scans[i].path.clone(),
                size: scans[i].size,
                item_type: String::from_str("cache"),
                category: scans[i].category.clone(),
                risk_level: 0,
                description: scans[i].description.clone(),
                children: None,
                dependencies: None,
                dependents: None,
            };
            r.push(item);
        }
        i += 1;
    }
    proof {
        assert(c.take(n as int) =~= c);
    }
    r
}

// ---------------------------------------------------------------------
// Large file phase.
// ---------------------------------------------------------------------
/// The large-file phase keeps files over 100 MiB.
pub open spec fn large_pred(c: FileCandidate) -> bool {
    c.size > 104857600
}

/// What a large-file item holds, given its candidate.
pub open spec fn large_item_matches(it: ScanItem, c: FileCandidate) -> bool {
    &&& it.id@.len() == 36
    &&& it.name@ == c.name@
    &&& it.path@ == c.path@
    &&& it.size == c.size
    &&& it.item_type@ == "file"@
    &&& it.category@ == "Large Files"@
    &&& it.risk_level == 2
    &&& it.description@ == "Large file - review before removing"@
    &&& it.children is None
    &&& it.dependencies is None
    &&& it.dependents is None
}

/// Items and candidates correspond position by position.
pub open spec fn items_match_large(items: Seq<ScanItem>, cands: Seq<FileCandidate>) -> bool {
    items.len() == cands.len() && (forall|j: int|
        0 <= j < items.len() ==> large_item_matches(items[j], cands[j]))
}

/// The large-file phase: among the first `max_files` walked entries of
/// each directory, report every file over 100 MiB, largest first, at
/// most twenty.
pub fn scan_large_files(
    downloads: &Vec<FileCandidate>,
    documents: &Vec<FileCandidate>,
    limits: &ScanLimits,
) -> (r: Vec<ScanItem>)
    ensures
        ({
            let fd = downloads@.take(
                min_int(limits.max_files as int, downloads@.len() as int),
            ).filter(|c: FileCandidate| large_pred(c));
            let fo = documents@.take(
                min_int(limits.max_files as int, documents@.len() as int),
            ).filter(|c: FileCandidate| large_pred(c));
            exists|b: Seq<ScanItem>|
                items_match_large(b, fd + fo) && r@ =~= sort_size_desc(b).take(
                    min_int(20, b.len() as int),
                )
        }),
{
    let mut b: Vec<ScanItem> = Vec::new();
    collect_large_into(&mut b, downloads, limits);
    let ghost fd = downloads@.take(min_int(limits.max_files as int, downloads@.len() as int))
        .filter(|c: FileCandidate| large_pred(c));
    collect_large_into(&mut b, documents, limits);
    let ghost fo = documents@.take(min_int(limits.max_files as int, documents@.len() as int))
        .filter(|c: FileCandidate| large_pred(c));
    let ghost gb = b@;
    proof {
        lemma_sort_size_desc_len(gb);
        assert(items_match_large(gb, fd + fo));
    }
    let mut sorted = sort_items_by_size_desc(b);
    if sorted.len() > 20 {
        sorted.truncate(20);
    }
    proof {
        assert(sorted@ =~= sort_size_desc(gb).take(min_int(20, gb.len() as int)));
    }
    sorted
}

/// Append an item for every qualifying candidate among the first
/// `max_files` entries.
fn collect_large_into(b: &mut Vec<ScanItem>, entries: &Vec<FileCandidate>, limits: &ScanLimits)
    ensures
        ({
            let f = entries@.take(min_int(limits.max_files as int, entries@.len() as int)).filter(
                |c: FileCandidate| large_pred(c),
            );
            final(b)@.len() == old(b)@.len() + f.len() && (forall|j: int|
                0 <= j < old(b)@.len() ==> final(b)@[j] == old(b)@[j]) && (forall|j: int|
                0 <= j < f.len() ==> large_item_matches(final(b)@[old(b)@.len() + j], f[j]))
        }),
{
    let cap = if limits.max_files < entries.len() {
        limits.max_files
    } else {
        entries.len()
    };
    let ghost capped = entries@.take(cap as int);
    let ghost base = b@.len() as int;
    let mut i: usize = 0;
    proof {
        lemma_filter_empty(|c: FileCandidate| large_pred(c));
        assert(capped.take(0) =~= Seq::<FileCandidate>::empty());
    }
    while i < cap
        invariant
            cap <= entries@.len(),
            capped == entries@.take(cap as int),
            base == old(b)@.len(),
            i <= cap,
            ({
                let f = capped.take(i as int).filter(|c: FileCandidate| large_pred(c));
                b@.len() == base + f.len() && (forall|j: int|
                    0 <= j < base ==> b@[j] == old(b)@[j]) && (forall|j: int|
                    0 <= j < f.len() ==> large_item_matches(b@[base + j], f[j]))
            }),
        decreases cap - i,
    {
        proof {
            lemma_filter_take_step(capped, |c: FileCandidate| large_pred(c), i as int);
            assert(capped[i as int] == entries@[i as int]);
        }
        if entries[i].size > 104857600 {
            let item = ScanItem {
                id: fresh_id(),
                name: entries[i].name.clone(),
                path: entries[i].path.clone(),
                size: entries[i].size,
                item_type: String::from_str("file"),
                category: String::from_str("Large Files"),
                risk_level: 2,
                description: String::from_str("Large file - review before removing"),
                children: None,
                dependencies: None,
                dependents: None,
            };
            b.push(item);
        }
        i += 1;
    }
    proof {
        assert(capped.take(cap as int) =~= capped);
    }
}

// ---------------------------------------------------------------------
// The well-known directories each phase examines.
// ---------------------------------------------------------------------
/// A well-known directory and its display name.
#[derive(Debug)]
pub struct CacheTarget {
    pub path: String,
    pub name: String,
}

/// A well-known package cache with its display name, category and
/// description.
#[derive(Debug)]
pub struct PkgCacheTarget {
    pub path: String,
    pub name: String,
    pub category: String,
    pub description: String,
}

/// The user cache directories the cache phase examines, under `home`.
pub fn user_cache_targets(home: &str) -> (v: Vec<CacheTarget>)
    ensures
        v@.len() == 3,
        v@[0].path@ == home@ + "/"@ + ".cache"@ && v@[0].name@ == "User Cache"@,
        v@[1].path@ == home@ + "/"@ + ".local/share/Trash"@ && v@[1].name@ == "User Trash"@,
        v@[2].path@ == home@ + "/"@ + ".thumbnails"@ && v@[2].name@ == "Thumbnails"@,
{
    let mut v: Vec<CacheTarget> = Vec::new();
    v.push(CacheTarget { path: join_path(home, ".cache"), name: String::from_str("User Cache") });
    v.push(
        CacheTarget {
            path: join_path(home, ".local/share/Trash"),
            name: String::from_str("User Trash"),
        },
    );
    v.push(
        CacheTarget { path: join_path(home, ".thumbnails"), name: String::from_str("Thumbnails") },
    );
    v
}

/// The browser cache directories the cache phase examines.
pub fn browser_cache_targets(home: &str) -> (v: Vec<CacheTarget>)
    ensures
        v@.len() == 3,
        v@[0].path@ == home@ + "/"@ + ".cache/google-chrome"@ && v@[0].name@ == "Chrome Cache"@,
        v@[1].path@ == home@ + "/"@ + ".cache/mozilla/firefox"@ && v@[1].name@
            == "Firefox Cache"@,
        v@[2].path@ == home@ + "/"@ + ".cache/chromium"@ && v@[2].name@ == "Chromium Cache"@,
{
    let mut v: Vec<CacheTarget> = Vec::new();
    v.push(
        CacheTarget {
            path: join_path(home, ".cache/google-chrome"),
            name: String::from_str("Chrome Cache"),
        },
    );
    v.push(
        CacheTarget {
            path: join_path(home, ".cache/mozilla/firefox"),
            name: String::from_str("Firefox Cache"),
        },
    );
    v.push(
        CacheTarget {
            path: join_path(home, ".cache/chromium"),
            name: String::from_str("Chromium Cache"),
        },
    );
    v
}

/// The package caches the package phase examines: the system package
/// archive and the per-user language-package caches under `home`.
pub fn package_cache_targets(home: &str) -> (v: Vec<PkgCacheTarget>)
    ensures
        v@.len() == 3,
        v@[0].path@ == "/var/cache/apt/archives"@ && v@[0].name@ == "APT Package Cache"@
            && v@[0].category@ == "Package Manager"@ && v@[0].description@
            == "Downloaded .deb packages - safe to remove"@,
        v@[1].path@ == home@ + "/"@ + ".cache/pip"@ && v@[1].name@ == "pip Cache"@
            && v@[1].category@ == "Python"@ && v@[1].description@
            == "Python package cache - safe to remove"@,
        v@[2].path@ == home@ + "/"@ + ".npm/_cacache"@ && v@[2].name@ == "npm Cache"@
            && v@[2].category@ == "Node.js"@ && v@[2].description@
            == "Node.js package cache - safe to remove"@,
{
    let mut v: Vec<PkgCacheTarget> = Vec::new();
    v.push(
        PkgCacheTarget {
            path: String::from_str("/var/cache/apt/archives"),
            name: String::from_str("APT Package Cache"),
            category: String::from_str("Package Manager"),
            description: String::from_str("Downloaded .deb packages - safe to remove"),
        },
    );
    v.push(
        PkgCacheTarget {
            path: join_path(home, ".cache/pip"),
            name: String::from_str("pip Cache"),
            category: String::from_str("Python"),
            description: String::from_str("Python package cache - safe to remove"),
        },
    );
    v.push(
        PkgCacheTarget {
            path: join_path(home, ".npm/_cacache"),
            name: String::from_str("npm Cache"),
            category: String::from_str("Node.js"),
            description: String::from_str("Node.js package cache - safe to remove"),
        },
    );
    v
}

} // verus!
