//! Expiring key-value cache used to memoize expensive directory-size
//! lookups and whole scan results. A read returns a value only while
//! its time-to-live has not elapsed; expired entries linger until an
//! explicit cleanup sweep. The caller supplies the current instant in
//! milliseconds on every call.
use vstd::prelude::*;
use vstd::string::StringExecFns;

use crate::strutil::str_eq;

verus! {

/// A cached value together with its absolute expiry instant.
#[derive(Debug)]
pub struct CacheEntry<T> {
    pub key: String,
    pub value: T,
    pub expires_at: u64,
}

/// A memoized scan summary.
#[derive(Debug)]
pub struct ScanCacheEntry {
    pub total_size: u64,
    pub total_items: usize,
    pub timestamp: String,
}

/// Counts of live and expired entries per bucket.
#[derive(Clone, Copy, Debug)]
pub struct CacheStats {
    pub dir_size_entries: usize,
    pub dir_size_expired: usize,
    pub scan_result_entries: usize,
    pub scan_result_expired: usize,
}

/// The two-bucket cache: directory sizes and scan results, each with
/// its own time-to-live.
#[derive(Debug)]
pub struct CacheManager {
    pub dir_sizes: Vec<CacheEntry<u64>>,
    pub scan_results: Vec<CacheEntry<ScanCacheEntry>>,
    pub dir_size_ttl_ms: u64,
    pub scan_result_ttl_ms: u64,
}

/// The first index whose entry carries the key, or -1.
pub open spec fn ce_find<T>(s: Seq<CacheEntry<T>>, key: Seq<char>) -> int
    decreases s.len(),
{
    if s.len() == 0 {
        -1
    } else if s[0].key@ == key {
        0
    } else {
        let r = ce_find(s.drop_first(), key);
        if r < 0 {
            -1
        } else {
            r + 1
        }
    }
}

/// Some entry carries the key.
pub open spec fn ce_has_key<T>(s: Seq<CacheEntry<T>>, key: Seq<char>) -> bool {
    exists|i: int| 0 <= i < s.len() && s[i].key@ == key
}

/// `ce_find` returns the first matching index, or -1 when none
/// matches.
pub proof fn lemma_ce_find<T>(s: Seq<CacheEntry<T>>, key: Seq<char>)
    ensures
        ce_find(s, key) == -1 ==> !ce_has_key(s, key),
        ce_find(s, key) != -1 ==> 0 <= ce_find(s, key) < s.len() && s[ce_find(s, key)].key@ == key
            && (forall|k: int| 0 <= k < ce_find(s, key) ==> s[k].key@ != key),
    decreases s.len(),
{
    if s.len() > 0 && s[0].key@ != key {
        lemma_ce_find(s.drop_first(), key);
        let rest = s.drop_first();
        if ce_find(rest, key) == -1 {
            assert forall|i: int| 0 <= i < s.len() implies s[i].key@ != key by {
                if i > 0 {
                    assert(s[i] == rest[i - 1]);
                }
            }
        } else {
            assert(s[ce_find(s, key)] == rest[ce_find(rest, key)]);
            assert forall|k: int| 0 <= k < ce_find(s, key) implies s[k].key@ != key by {
                if k > 0 {
                    assert(s[k] == rest[k - 1]);
                }
            }
        }
    }
}

/// How a store of `(key, value, expires_at)` changes a bucket from
/// `s` to `s2`: the first entry with the key is replaced, or a new
/// entry is appended; everything else is untouched.
pub open spec fn ce_set_post<T>(
    s: Seq<CacheEntry<T>>,
    s2: Seq<CacheEntry<T>>,
    key: Seq<char>,
    value: T,
    expires_at: u64,
) -> bool {
    let i = ce_find(s, key);
    let j = if i == -1 {
        s.len() as int
    } else {
        i
    };
    &&& s2.len() == (if i == -1 {
        s.len() + 1
    } else {
        s.len()
    })
    &&& (forall|k: int| 0 <= k < s2.len() && k != j ==> k < s.len() && s2[k] == s[k])
    &&& s2[j].key@ == key
    &&& s2[j].value == value
    &&& s2[j].expires_at == expires_at
}

/// What a read of `key` at instant `now` returns over a bucket.
pub open spec fn ce_get<T>(s: Seq<CacheEntry<T>>, key: Seq<char>, now: u64) -> Option<T> {
    let i = ce_find(s, key);
    if i == -1 {
        None
    } else if s[i].expires_at > now {
        Some(s[i].value)
    } else {
        None
    }
}

/// The entries of a bucket whose expiry is past at `now`.
pub open spec fn ce_expired_count<T>(s: Seq<CacheEntry<T>>, now: u64) -> int
    decreases s.len(),
{
    if s.len() == 0 {
        0int
    } else {
        ce_expired_count(s.drop_last(), now) + if s.last().expires_at <= now {
            1int
        } else {
            0int
        }
    }
}

/// No two entries of a bucket carry the same key.
pub open spec fn ce_unique_keys<T>(s: Seq<CacheEntry<T>>) -> bool {
    forall|i: int, j: int| 0 <= i < j < s.len() ==> s[i].key@ != s[j].key@
}

/// The cache is well formed: keys are unique within each bucket.
pub open spec fn cache_wf(c: CacheManager) -> bool {
    ce_unique_keys(c.dir_sizes@) && ce_unique_keys(c.scan_results@)
}

/// Find the first index of `key` in a bucket.
fn ce_find_exec<T>(entries: &Vec<CacheEntry<T>>, key: &str) -> (r: Option<usize>)
    ensures
        match r {
            Some(i) => ce_find(entries@, key@) == i as int,
            None => ce_find(entries@, key@) == -1,
        },
{
    proof {
        lemma_ce_find(entries@, key@);
    }
    let n = entries.len();
    let mut i: usize = 0;
    while i < n
        invariant
            n == entries@.len(),
            i <= n,
            forall|k: int| 0 <= k < i ==> entries@[k].key@ != key@,
            ce_find(entries@, key@) == -1 ==> !ce_has_key(entries@, key@),
            ce_find(entries@, key@) != -1 ==> 0 <= ce_find(entries@, key@) < entries@.len()
                && entries@[ce_find(entries@, key@)].key@ == key@ && (forall|k: int|
                0 <= k < ce_find(entries@, key@) ==> entries@[k].key@ != key@),
        decreases n - i,
    {
        if str_eq(entries[i].key.as_str(), key) {
            return Some(i);
        }
        i += 1;
    }
    assert(!ce_has_key(entries@, key@));
    None
}

impl CacheManager {
    /// The two buckets of the cache, as the contracts see them.
    pub open spec fn dir_sizes_view(self) -> Seq<CacheEntry<u64>> {
        self.dir_sizes@
    }

    /// The scan-result bucket, as the contracts see it.
    pub open spec fn scan_results_view(self) -> Seq<CacheEntry<ScanCacheEntry>> {
        self.scan_results@
    }

    /// The time-to-live of directory-size entries, in milliseconds.
    pub open spec fn spec_dir_size_ttl_ms(self) -> u64 {
        self.dir_size_ttl_ms
    }

    /// The time-to-live of scan-result entries, in milliseconds.
    pub open spec fn spec_scan_result_ttl_ms(self) -> u64 {
        self.scan_result_ttl_ms
    }

    /// A fresh cache with the default windows: five minutes for
    /// directory sizes, ten for scan results.
    pub fn new() -> (c: CacheManager)
        ensures
            c.dir_sizes_view() =~= Seq::<CacheEntry<u64>>::empty(),
            c.scan_results_view() =~= Seq::<CacheEntry<ScanCacheEntry>>::empty(),
            c.spec_dir_size_ttl_ms() == 300000,
            c.spec_scan_result_ttl_ms() == 600000,
            cache_wf(c),
    {
        CacheManager {
            dir_sizes: Vec::new(),
            scan_results: Vec::new(),
            dir_size_ttl_ms: 300000,
            scan_result_ttl_ms: 600000,
        }
    }

    /// A fresh cache with the given windows, in milliseconds.
    pub fn with_ttls(dir_size_ttl_ms: u64, scan_result_ttl_ms: u64) -> (c: CacheManager)
        ensures
            c.dir_sizes_view() =~= Seq::<CacheEntry<u64>>::empty(),
            c.scan_results_view() =~= Seq::<CacheEntry<ScanCacheEntry>>::empty(),
            c.spec_dir_size_ttl_ms() == dir_size_ttl_ms,
            c.spec_scan_result_ttl_ms() == scan_result_ttl_ms,
            cache_wf(c),
    {
        CacheManager {
            dir_sizes: Vec::new(),
            scan_results: Vec::new(),
            dir_size_ttl_ms,
            scan_result_ttl_ms,
        }
    }

    /// The cached size of `path`, unless it is absent or expired.
    pub fn get_dir_size(&self, path: &str, now_ms: u64) -> (r: Option<u64>)
        ensures
            r == ce_get(self.dir_sizes_view(), path@, now_ms),
    {
        proof {
            lemma_ce_find(self.dir_sizes@, path@);
        }
        match ce_find_exec(&self.dir_sizes, path) {
            Some(i) => {
                if self.dir_sizes[i].expires_at > now_ms {
                    Some(self.dir_sizes[i].value)
                } else {
                    None
                }
            },
            None => None,
        }
    }

    /// Store the size of `path`; it stays visible for the
    /// directory-size window starting at `now_ms`.
    pub fn set_dir_size(&mut self, path: &str, size: u64, now_ms: u64)
        requires
            now_ms + old(self).spec_dir_size_ttl_ms() <= u64::MAX,
            cache_wf(*old(self)),
        ensures
            ce_set_post(
                old(self).dir_sizes_view(),
                final(self).dir_sizes_view(),
                path@,
                size,
                (now_ms + old(self).spec_dir_size_ttl_ms()) as u64,
            ),
            final(self).scan_results_view() == old(self).scan_results_view(),
            final(self).spec_dir_size_ttl_ms() == old(self).spec_dir_size_ttl_ms(),
            final(self).spec_scan_result_ttl_ms() == old(self).spec_scan_result_ttl_ms(),
            cache_wf(*final(self)),
    {
        let entry = CacheEntry {
            key: string_with_view(path),
            value: size,
            expires_at: now_ms + self.dir_size_ttl_ms,
        };
        proof {
            lemma_ce_find(self.dir_sizes@, path@);
        }
        match ce_find_exec(&self.dir_sizes, path) {
            Some(i) => {
                let _stale = self.dir_sizes.remove(i);
                self.dir_sizes.insert(i, entry);
            },
            None => {
                self.dir_sizes.push(entry);
            },
        }
        proof {
            lemma_ce_set_unique(
                old(self).dir_sizes@,
                self.dir_sizes@,
                path@,
                size,
                (now_ms + old(self).dir_size_ttl_ms) as u64,
            );
        }
    }

    /// The cached scan summary under `key`, unless absent or expired.
    pub fn get_scan_results(&self, key: &str, now_ms: u64) -> (r: Option<ScanCacheEntry>)
        ensures
            r == ce_get(self.scan_results_view(), key@, now_ms),
    {
        proof {
            lemma_ce_find(self.scan_results@, key@);
        }
        match ce_find_exec(&self.scan_results, key) {
            Some(i) => {
                if self.scan_results[i].expires_at > now_ms {
                    let v = &self.scan_results[i].value;
                    Some(
                        ScanCacheEntry {
                            total_size: v.total_size,
                            total_items: v.total_items,
                            timestamp: v.timestamp.clone(),
                        },
                    )
                } else {
                    None
                }
            },
            None => None,
        }
    }

    /// Store a scan summary under `key`; it stays visible for the
    /// scan-result window starting at `now_ms`.
    pub fn set_scan_results(&mut self, key: &str, results: ScanCacheEntry, now_ms: u64)
        requires
            now_ms + old(self).spec_scan_result_ttl_ms() <= u64::MAX,
            cache_wf(*old(self)),
        ensures
            ce_set_post(
                old(self).scan_results_view(),
                final(self).scan_results_view(),
                key@,
                results,
                (now_ms + old(self).spec_scan_result_ttl_ms()) as u64,
            ),
            final(self).dir_sizes_view() == old(self).dir_sizes_view(),
            final(self).spec_dir_size_ttl_ms() == old(self).spec_dir_size_ttl_ms(),
            final(self).spec_scan_result_ttl_ms() == old(self).spec_scan_result_ttl_ms(),
            cache_wf(*final(self)),
    {
        let ghost gresults = results;
        let entry = CacheEntry {
            key: string_with_view(key),
            value: results,
            expires_at: now_ms + self.scan_result_ttl_ms,
        };
        proof {
            lemma_ce_find(self.scan_results@, key@);
        }
        match ce_find_exec(&self.scan_results, key) {
            Some(i) => {
                let _stale = self.scan_results.remove(i);
                self.scan_results.insert(i, entry);
            },
            None => {
                self.scan_results.push(entry);
            },
        }
        proof {
            lemma_ce_set_unique(
                old(self).scan_results@,
                self.scan_results@,
                key@,
                gresults,
                (now_ms + old(self).scan_result_ttl_ms) as u64,
            );
        }
    }

    /// Drop every expired directory-size entry, keeping the live ones
    /// in order.
    pub fn cleanup_dir_sizes(&mut self, now_ms: u64)
        ensures
            final(self).dir_sizes_view() =~= old(self).dir_sizes_view().filter(
                |e: CacheEntry<u64>| e.expires_at > now_ms,
            ),
            final(self).scan_results_view() == old(self).scan_results_view(),
            final(self).spec_dir_size_ttl_ms() == old(self).spec_dir_size_ttl_ms(),
            final(self).spec_scan_result_ttl_ms() == old(self).spec_scan_result_ttl_ms(),
            cache_wf(*old(self)) ==> cache_wf(*final(self)),
    {
        let mut drained: Vec<CacheEntry<u64>> = Vec::new();
        core::mem::swap(&mut drained, &mut self.dir_sizes);
        let kept = retain_live_u64(drained, now_ms);
        self.dir_sizes = kept;
        proof {
            if ce_unique_keys(old(self).dir_sizes@) {
                lemma_filter_unique_keys(
                    old(self).dir_sizes@,
                    |e: CacheEntry<u64>| e.expires_at > now_ms,
                );
            }
        }
    }

    /// Drop every expired scan-result entry, keeping the live ones in
    /// order.
    pub fn cleanup_scan_results(&mut self, now_ms: u64)
        ensures
            final(self).scan_results_view() =~= old(self).scan_results_view().filter(
                |e: CacheEntry<ScanCacheEntry>| e.expires_at > now_ms,
            ),
            final(self).dir_sizes_view() == old(self).dir_sizes_view(),
            final(self).spec_dir_size_ttl_ms() == old(self).spec_dir_size_ttl_ms(),
            final(self).spec_scan_result_ttl_ms() == old(self).spec_scan_result_ttl_ms(),
            cache_wf(*old(self)) ==> cache_wf(*final(self)),
    {
        let mut drained: Vec<CacheEntry<ScanCacheEntry>> = Vec::new();
        core::mem::swap(&mut drained, &mut self.scan_results);
        let kept = retain_live_scan(drained, now_ms);
        self.scan_results = kept;
        proof {
            if ce_unique_keys(old(self).scan_results@) {
                lemma_filter_unique_keys(
                    old(self).scan_results@,
                    |e: CacheEntry<ScanCacheEntry>| e.expires_at > now_ms,
                );
            }
        }
    }

    /// Empty both buckets unconditionally.
    pub fn clear_all(&mut self)
        ensures
            final(self).dir_sizes_view() =~= Seq::<CacheEntry<u64>>::empty(),
            final(self).scan_results_view() =~= Seq::<CacheEntry<ScanCacheEntry>>::empty(),
            final(self).spec_dir_size_ttl_ms() == old(self).spec_dir_size_ttl_ms(),
            final(self).spec_scan_result_ttl_ms() == old(self).spec_scan_result_ttl_ms(),
            cache_wf(*final(self)),
    {
        self.dir_sizes.clear();
        self.scan_results.clear();
    }

    /// Counts of entries and of already-expired entries per bucket.
    pub fn stats(&self, now_ms: u64) -> (r: CacheStats)
        ensures
            r.dir_size_entries == self.dir_sizes_view().len(),
            r.dir_size_expired == ce_expired_count(self.dir_sizes_view(), now_ms),
            r.scan_result_entries == self.scan_results_view().len(),
            r.scan_result_expired == ce_expired_count(self.scan_results_view(), now_ms),
    {
        let dir_size_expired = count_expired_u64(&self.dir_sizes, now_ms);
        let scan_result_expired = count_expired_scan(&self.scan_results, now_ms);
        CacheStats {
            dir_size_entries: self.dir_sizes.len(),
            dir_size_expired,
            scan_result_entries: self.scan_results.len(),
            scan_result_expired,
        }
    }
}

/// Make an owned `String` with the view of `s`.
fn string_with_view(s: &str) -> (r: String)
    ensures
        r@ == s@,
{
    String::from_str(s)
}

/// Keep the live entries of a drained bucket, in order.
fn retain_live_u64(mut v: Vec<CacheEntry<u64>>, now_ms: u64) -> (r: Vec<CacheEntry<u64>>)
    ensures
        r@ =~= v@.filter(|e: CacheEntry<u64>| e.expires_at > now_ms),
{
    let ghost orig = v@;
    let mut kept: Vec<CacheEntry<u64>> = Vec::new();
    let n = v.len();
    let mut i: usize = 0;
    proof {
        lemma_ce_filter_base::<u64>(now_ms);
        assert(orig.take(0) =~= Seq::<CacheEntry<u64>>::empty());
    }
    while i < n
        invariant
            n == orig.len(),
            v@ == orig,
            i <= n,
            kept@ =~= orig.take(i as int).filter(|e: CacheEntry<u64>| e.expires_at > now_ms),
        decreases n - i,
    {
        proof {
            lemma_ce_filter_step(orig, i as int, now_ms);
        }
        let live = v[i].expires_at > now_ms;
        if live {
            let e = CacheEntry {
                key: v[i].key.clone(),
                value: v[i].value,
                expires_at: v[i].expires_at,
            };
            kept.push(e);
        }
        i += 1;
    }
    proof {
        assert(orig.take(n as int) =~= orig);
    }
    kept
}

/// Keep the live entries of a drained scan-result bucket, in order.
fn retain_live_scan(mut v: Vec<CacheEntry<ScanCacheEntry>>, now_ms: u64) -> (r: Vec<
    CacheEntry<ScanCacheEntry>,
>)
    ensures
        r@ =~= v@.filter(|e: CacheEntry<ScanCacheEntry>| e.expires_at > now_ms),
{
    let mut kept: Vec<CacheEntry<ScanCacheEntry>> = Vec::new();
    let ghost orig = v@;
    let n = v.len();
    let mut i: usize = 0;
    proof {
        lemma_ce_filter_base::<ScanCacheEntry>(now_ms);
        assert(orig.take(0) =~= Seq::<CacheEntry<ScanCacheEntry>>::empty());
    }
    while i < n
        invariant
            n == orig.len(),
            v@ == orig,
            i <= n,
            kept@ =~= orig.take(i as int).filter(
                |e: CacheEntry<ScanCacheEntry>| e.expires_at > now_ms,
            ),
        decreases n - i,
    {
        proof {
            lemma_ce_filter_step(orig, i as int, now_ms);
        }
        let live = v[i].expires_at > now_ms;
        if live {
            let val = &v[i].value;
            let e = CacheEntry {
                key: v[i].key.clone(),
                value: ScanCacheEntry {
                    total_size: val.total_size,
                    total_items: val.total_items,
                    timestamp: val.timestamp.clone(),
                },
                expires_at: v[i].expires_at,
            };
            kept.push(e);
        }
        i += 1;
    }
    proof {
        assert(orig.take(n as int) =~= orig);
    }
    kept
}

/// Count the expired entries of a bucket.
fn count_expired_u64(v: &Vec<CacheEntry<u64>>, now_ms: u64) -> (r: usize)
    ensures
        r == ce_expired_count(v@, now_ms),
{
    let n = v.len();
    let mut count: usize = 0;
    let mut i: usize = 0;
    while i < n
        invariant
            n == v@.len(),
            i <= n,
            count == ce_expired_count(v@.take(i as int), now_ms),
            count <= i,
        decreases n - i,
    {
        proof {
            assert(v@.take(i + 1).drop_last() =~= v@.take(i as int));
            assert(v@.take(i + 1).last() == v@[i as int]);
        }
        if v[i].expires_at <= now_ms {
            count += 1;
        }
        i += 1;
    }
    proof {
        assert(v@.take(n as int) =~= v@);
    }
    count
}

/// Count the expired entries of a scan-result bucket.
fn count_expired_scan(v: &Vec<CacheEntry<ScanCacheEntry>>, now_ms: u64) -> (r: usize)
    ensures
        r == ce_expired_count(v@, now_ms),
{
    let n = v.len();
    let mut count: usize = 0;
    let mut i: usize = 0;
    while i < n
        invariant
            n == v@.len(),
            i <= n,
            count == ce_expired_count(v@.take(i as int), now_ms),
            count <= i,
        decreases n - i,
    {
        proof {
            assert(v@.take(i + 1).drop_last() =~= v@.take(i as int));
            assert(v@.take(i + 1).last() == v@[i as int]);
        }
        if v[i].expires_at <= now_ms {
            count += 1;
        }
        i += 1;
    }
    proof {
        assert(v@.take(n as int) =~= v@);
    }
    count
}

/// A sweep of an empty bucket keeps nothing.
proof fn lemma_ce_filter_base<T>(now_ms: u64)
    ensures
        Seq::<CacheEntry<T>>::empty().filter(|e: CacheEntry<T>| e.expires_at > now_ms)
            =~= Seq::<CacheEntry<T>>::empty(),
{
    reveal(Seq::filter);
}

/// How one more entry extends a sweep.
proof fn lemma_ce_filter_step<T>(s: Seq<CacheEntry<T>>, i: int, now_ms: u64)
    requires
        0 <= i < s.len(),
    ensures
        s[i].expires_at > now_ms ==> s.take(i + 1).filter(|e: CacheEntry<T>| e.expires_at > now_ms)
            =~= s.take(i).filter(|e: CacheEntry<T>| e.expires_at > now_ms).push(s[i]),
        s[i].expires_at <= now_ms ==> s.take(i + 1).filter(
            |e: CacheEntry<T>| e.expires_at > now_ms,
        ) =~= s.take(i).filter(|e: CacheEntry<T>| e.expires_at > now_ms),
{
    reveal(Seq::filter);
    assert(s.take(i + 1).drop_last() =~= s.take(i));
    assert(s.take(i + 1).last() == s[i]);
}

/// A filtered bucket keeps its keys unique.
proof fn lemma_filter_unique_keys<T>(s: Seq<CacheEntry<T>>, pred: spec_fn(CacheEntry<T>) -> bool)
    requires
        ce_unique_keys(s),
    ensures
        ce_unique_keys(s.filter(pred)),
{
    let f = s.filter(pred);
    assert forall|i: int, j: int| 0 <= i < j < f.len() implies f[i].key@ != f[j].key@ by {
        lemma_filter_index_map(s, pred, i, j);
    }
}

/// Two positions of a filtered sequence come from two distinct
/// positions of the original, in order.
proof fn lemma_filter_index_map<T>(
    s: Seq<CacheEntry<T>>,
    pred: spec_fn(CacheEntry<T>) -> bool,
    i: int,
    j: int,
)
    requires
        0 <= i < j < s.filter(pred).len(),
    ensures
        exists|a: int, b: int|
            0 <= a < b < s.len() && s.filter(pred)[i] == s[a] && s.filter(pred)[j] == s[b],
    decreases s.len(),
{
    reveal(Seq::filter);
    let f = s.filter(pred);
    let sub = s.drop_last().filter(pred);
    if j == f.len() - 1 && pred(s.last()) {
        // f[j] is the last element of s
        if i < sub.len() {
            lemma_filter_element_from(s.drop_last(), pred, i);
            let a = choose|a: int|
                0 <= a < s.drop_last().len() && s.drop_last().filter(pred)[i] == s.drop_last()[a];
            assert(f[i] == sub[i]);
            assert(s[a] == s.drop_last()[a]);
            assert(0 <= a < s.len() - 1 && f[i] == s[a] && f[j] == s[s.len() - 1]);
        }
    } else {
        lemma_filter_index_map(s.drop_last(), pred, i, j);
        let (a, b) = choose|a: int, b: int|
            0 <= a < b < s.drop_last().len() && sub[i] == s.drop_last()[a] && sub[j] == s.drop_last()[b];
        assert(f[i] == sub[i] && f[j] == sub[j]);
        assert(s[a] == s.drop_last()[a] && s[b] == s.drop_last()[b]);
    }
}

/// Every element of a filtered sequence comes from the original.
proof fn lemma_filter_element_from<T>(
    s: Seq<CacheEntry<T>>,
    pred: spec_fn(CacheEntry<T>) -> bool,
    i: int,
)
    requires
        0 <= i < s.filter(pred).len(),
    ensures
        exists|a: int| 0 <= a < s.len() && s.filter(pred)[i] == s[a],
    decreases s.len(),
{
    reveal(Seq::filter);
    let f = s.filter(pred);
    let sub = s.drop_last().filter(pred);
    if i == f.len() - 1 && pred(s.last()) && f.len() != sub.len() {
        assert(f[i] == s[s.len() - 1]);
    } else {
        lemma_filter_element_from(s.drop_last(), pred, i);
        let a = choose|a: int|
            0 <= a < s.drop_last().len() && sub[i] == s.drop_last()[a];
        assert(f[i] == sub[i]);
        assert(s[a] == s.drop_last()[a]);
    }
}

/// Storing an entry keeps keys unique: the stored key either
/// replaced its only occurrence or was absent.
proof fn lemma_ce_set_unique<T>(
    s: Seq<CacheEntry<T>>,
    s2: Seq<CacheEntry<T>>,
    key: Seq<char>,
    value: T,
    expires_at: u64,
)
    requires
        ce_unique_keys(s),
        ce_set_post(s, s2, key, value, expires_at),
    ensures
        ce_unique_keys(s2),
{
    lemma_ce_find(s, key);
    let i = ce_find(s, key);
    let j = if i == -1 {
        s.len() as int
    } else {
        i
    };
    assert forall|a: int, b: int| 0 <= a < b < s2.len() implies s2[a].key@ != s2[b].key@ by {
        if a != j && b != j {
            assert(s2[a] == s[a] && s2[b] == s[b]);
        } else if a == j {
            assert(s2[b] == s[b]);
            if i == -1 {
                assert(!has_key_at(s, key, b));
            }
        } else {
            assert(s2[a] == s[a]);
            if i == -1 {
                assert(!has_key_at(s, key, a));
            }
        }
    }
}

/// Law (time-to-live visibility): after a value is stored with expiry
/// `expires_at`, a read of the same key returns that value at any
/// instant before the expiry and nothing at any instant from the
/// expiry on, as long as the bucket is not written in between.
pub proof fn lemma_ttl_visibility<T>(
    s: Seq<CacheEntry<T>>,
    s2: Seq<CacheEntry<T>>,
    key: Seq<char>,
    value: T,
    expires_at: u64,
    q: u64,
)
    requires
        ce_set_post(s, s2, key, value, expires_at),
    ensures
        q < expires_at ==> ce_get(s2, key, q) == Some(value),
        q >= expires_at ==> ce_get(s2, key, q) is None,
{
    lemma_ce_find(s, key);
    lemma_ce_find(s2, key);
    let i = ce_find(s, key);
    let j = if i == -1 {
        s.len() as int
    } else {
        i
    };
    assert(s2[j].key@ == key);
    assert(ce_find(s2, key) != -1);
    let idx = ce_find(s2, key);
    if idx != j {
        assert(idx < j);
        assert(s2[idx] == s[idx]);
        if i == -1 {
            assert(has_key_at(s, key, idx));
            assert(ce_has_key(s, key));
        }
    }
    assert(s2[idx].value == value && s2[idx].expires_at == expires_at);
}

/// There is an entry with `key` at position `i` of `s`.
spec fn has_key_at<T>(s: Seq<CacheEntry<T>>, key: Seq<char>, i: int) -> bool {
    0 <= i < s.len() && s[i].key@ == key
}

} // verus!
