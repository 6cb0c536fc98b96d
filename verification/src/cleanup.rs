//! The cleanup command layer: validate every selected target through
//! the path validator, count what was cleaned and what failed, and sum
//! the reclaimed bytes. A validation failure affects only its own item;
//! the batch always completes with a per-item tally. The caller
//! performs the actual move per item and reports its outcome.
use vstd::prelude::*;
use vstd::string::StringExecFns;

use crate::security::{PathFacts, SecurityContext, validate_ok, validate_path_comprehensive};
use crate::seqext::{lemma_filter_empty, lemma_filter_take_step, sum_int, lemma_sum_int_take_step,
    lemma_sum_u64_fits_u128};
use crate::strutil::{contains_seq, str_contains, str_eq, join_path};
use crate::seqext::min_int;

verus! {

/// The tally of a cleanup batch.
#[derive(Clone, Copy, Debug)]
pub struct CleanResult {
    pub cleaned: usize,
    pub failed: usize,
    pub total_size: u64,
}

/// One selected target: its path with the gathered filesystem facts,
/// the size measured before the action, and whether the move or
/// delete that the caller attempted on it succeeded.
#[derive(Debug)]
pub struct CleanCandidate {
    pub id: String,
    pub path: String,
    pub facts: PathFacts,
    pub size: u64,
    pub action_ok: bool,
}

/// A candidate counts as cleaned: it passed every validation layer and
/// its move or delete went through.
pub open spec fn cand_cleaned(c: CleanCandidate, ctx: SecurityContext, home: Seq<char>) -> bool {
    validate_ok(c.path@, ctx, home, c.facts) && c.action_ok
}

/// The sizes of a list of candidates, as integers.
pub open spec fn cand_sizes(s: Seq<CleanCandidate>) -> Seq<int> {
    s.map_values(|c: CleanCandidate| c.size as int)
}

/// Run the tally of a cleanup batch in the given context: cleaned is
/// the number of candidates that validated and whose action went
/// through; every other candidate failed; the total is the byte sum of
/// the cleaned ones, clamped at the type bound.
pub fn run_clean_batch(
    candidates: &Vec<CleanCandidate>,
    context: SecurityContext,
    home: &str,
) -> (r: CleanResult)
    ensures
        ({
            let ok = candidates@.filter(|c: CleanCandidate| cand_cleaned(c, context, home@));
            &&& r.cleaned == ok.len()
            &&& r.failed == candidates@.len() - ok.len()
            &&& r.total_size as int == min_int(sum_int(cand_sizes(ok)), u64::MAX as int)
        }),
{
    let n = candidates.len();
    let mut cleaned: usize = 0;
    let mut acc: u128 = 0;
    let mut i: usize = 0;
    proof {
        lemma_filter_empty(|c: CleanCandidate| cand_cleaned(c, context, home@));
        assert(candidates@.take(0) =~= Seq::<CleanCandidate>::empty());
        assert(cand_sizes(Seq::<CleanCandidate>::empty()) =~= Seq::<int>::empty());
    }
    while i < n
        invariant
            n == candidates@.len(),
            i <= n,
            ({
                let ok = candidates@.take(i as int).filter(
                    |c: CleanCandidate| cand_cleaned(c, context, home@),
                );
                cleaned == ok.len() && acc == sum_int(cand_sizes(ok))
            }),
            cleaned <= i,
        decreases n - i,
    {
        proof {
            lemma_filter_take_step(
                candidates@,
                |c: CleanCandidate| cand_cleaned(c, context, home@),
                i as int,
            );
        }
        let valid = validate_path_comprehensive(
            candidates[i].path.as_str(),
            context,
            home,
            &candidates[i].facts,
        ).is_ok();
        if valid && candidates[i].action_ok {
            proof {
                let ghost ok_next = candidates@.take(i + 1).filter(
                    |c: CleanCandidate| cand_cleaned(c, context, home@),
                );
                let ghost ok_now = candidates@.take(i as int).filter(
                    |c: CleanCandidate| cand_cleaned(c, context, home@),
                );
                assert(cand_sizes(ok_next) =~= cand_sizes(ok_now).push(
                    candidates@[i as int].size as int,
                ));
                assert(forall|k: int|
                    0 <= k < cand_sizes(ok_next).len() ==> 0 <= #[trigger] cand_sizes(ok_next)[k]
                        <= 0xffffffffffffffff);
                lemma_sum_u64_fits_u128(cand_sizes(ok_next), cand_sizes(ok_next).len() - 1);
                assert(cand_sizes(ok_next).take(cand_sizes(ok_next).len() - 1) =~= cand_sizes(
                    ok_now,
                ));
                lemma_sum_int_take_step(cand_sizes(ok_next), cand_sizes(ok_next).len() - 1);
                assert(cand_sizes(ok_next).take(cand_sizes(ok_next).len() as int) =~= cand_sizes(
                    ok_next,
                ));
            }
            cleaned += 1;
            acc = acc + (candidates[i].size as u128);
        }
        i += 1;
    }
    proof {
        assert(candidates@.take(n as int) =~= candidates@);
        crate::seqext::lemma_sum_int_nonneg(
            cand_sizes(
                candidates@.filter(|c: CleanCandidate| cand_cleaned(c, context, home@)),
            ),
        );
    }
    let total_size: u64 = if acc > 0xffffffffffffffffu128 {
        u64::MAX
    } else {
        (acc as u64)
    };
    CleanResult { cleaned, failed: n - cleaned, total_size }
}

/// Clean the caller's selection of scan results: each target is
/// validated in the general-deletion context before its reported
/// outcome counts, and every rejected or failed item is tallied as
/// failed without stopping the batch.
pub fn clean_items(candidates: &Vec<CleanCandidate>, home: &str) -> (r: CleanResult)
    ensures
        ({
            let ok = candidates@.filter(
                |c: CleanCandidate| cand_cleaned(c, SecurityContext::Deletion, home@),
            );
            &&& r.cleaned == ok.len()
            &&& r.failed == candidates@.len() - ok.len()
            &&& r.total_size as int == min_int(sum_int(cand_sizes(ok)), u64::MAX as int)
        }),
{
    run_clean_batch(candidates, SecurityContext::Deletion, home)
}

/// The cache subdirectory names that a cache cleanup may touch.
pub open spec fn is_safe_cache_dir(n: Seq<char>) -> bool {
    ||| contains_seq(n, "thumbnails"@)
    ||| contains_seq(n, "mozilla"@)
    ||| contains_seq(n, "google-chrome"@)
    ||| contains_seq(n, "chromium"@)
    ||| contains_seq(n, "code"@)
    ||| contains_seq(n, "npm"@)
    ||| contains_seq(n, "pip"@)
    ||| contains_seq(n, "yarn"@)
    ||| contains_seq(n, "cargo"@)
    ||| contains_seq(n, "rustup"@)
}

/// Whether a directory under the user cache is on the list that a
/// cache cleanup may touch.
pub fn is_safe_cache_dir_name(name: &str) -> (r: bool)
    ensures
        r == is_safe_cache_dir(name@),
{
    str_contains(name, "thumbnails") || str_contains(name, "mozilla") || str_contains(
        name,
        "google-chrome",
    ) || str_contains(name, "chromium") || str_contains(name, "code") || str_contains(name, "npm")
        || str_contains(name, "pip") || str_contains(name, "yarn") || str_contains(name, "cargo")
        || str_contains(name, "rustup")
}

/// The user-owned log directories a log cleanup may touch, under
/// `home`.
pub fn user_log_dirs(home: &str) -> (v: Vec<String>)
    ensures
        v@.len() == 2,
        v@[0]@ == home@ + "/"@ + ".local/share/logs"@,
        v@[1]@ == home@ + "/"@ + ".cache/logs"@,
{
    let mut v: Vec<String> = Vec::new();
    v.push(join_path(home, ".local/share/logs"));
    v.push(join_path(home, ".cache/logs"));
    v
}

/// A clearable cache as shown to the caller.
#[derive(Debug)]
pub struct CacheItem {
    pub name: String,
    pub size: u64,
    pub category: String,
    pub can_clear: bool,
}

/// The clearable caches, given the measured sizes of the three
/// well-known ones; caches without content are left out.
pub fn get_cache_items(chrome_size: u64, firefox_size: u64, pip_size: u64) -> (r: Vec<CacheItem>)
    ensures
        r@.len() == (if chrome_size > 0 {
            1int
        } else {
            0int
        }) + (if firefox_size > 0 {
            1int
        } else {
            0int
        }) + (if pip_size > 0 {
            1int
        } else {
            0int
        }),
        chrome_size > 0 ==> r@[0].name@ == "Chrome temporary files"@ && r@[0].size == chrome_size
            && r@[0].category@ == "browser"@ && r@[0].can_clear,
        firefox_size > 0 ==> ({
            let j = if chrome_size > 0 {
                1int
            } else {
                0int
            };
            r@[j].name@ == "Firefox cache"@ && r@[j].size == firefox_size && r@[j].category@
                == "browser"@ && r@[j].can_clear
        }),
        pip_size > 0 ==> ({
            let j = (if chrome_size > 0 {
                1int
            } else {
                0int
            }) + (if firefox_size > 0 {
                1int
            } else {
                0int
            });
            r@[j].name@ == "Python packages cache"@ && r@[j].size == pip_size && r@[j].category@
                == "development"@ && r@[j].can_clear
        }),
{
    let mut r: Vec<CacheItem> = Vec::new();
    if chrome_size > 0 {
        r.push(
            CacheItem {
                name: String::from_str("Chrome temporary files"),
                size: chrome_size,
                category: String::from_str("browser"),
                can_clear: true,
            },
        );
    }
    if firefox_size > 0 {
        r.push(
            CacheItem {
                name: String::from_str("Firefox cache"),
                size: firefox_size,
                category: String::from_str("browser"),
                can_clear: true,
            },
        );
    }
    if pip_size > 0 {
        r.push(
            CacheItem {
                name: String::from_str("Python packages cache"),
                size: pip_size,
                category: String::from_str("development"),
                can_clear: true,
            },
        );
    }
    r
}

/// Which cleanup a named cache item maps to.
#[derive(Clone, Copy, Debug, PartialEq, Eq, Structural)]
pub enum CacheItemAction {
    ClearUserCaches,
    CleanPackageCaches,
}

/// Map a cache item name to its cleanup; unknown names map to nothing.
pub fn cache_item_action(item_name: &str) -> (r: Option<CacheItemAction>)
    ensures
        item_name@ == "Chrome temporary files"@ ==> r == Some(CacheItemAction::ClearUserCaches),
        item_name@ == "Firefox cache"@ ==> r == Some(CacheItemAction::ClearUserCaches),
        item_name@ == "Python packages cache"@ ==> r == Some(
            CacheItemAction::CleanPackageCaches,
        ),
        (item_name@ != "Chrome temporary files"@ && item_name@ != "Firefox cache"@ && item_name@
            != "Python packages cache"@) ==> r is None,
{
    proof {
        reveal_strlit("Chrome temporary files");
        reveal_strlit("Firefox cache");
        reveal_strlit("Python packages cache");
    }
    if str_eq(item_name, "Chrome temporary files") || str_eq(item_name, "Firefox cache") {
        Some(CacheItemAction::ClearUserCaches)
    } else if str_eq(item_name, "Python packages cache") {
        Some(CacheItemAction::CleanPackageCaches)
    } else {
        None
    }
}

/// The recommended ceiling for a cache of the given kind, in bytes;
/// none for kinds without a recommendation.
pub fn get_recommended_cache_limit(cache_type: &str) -> (r: Option<u64>)
    ensures
        cache_type@ == "browser"@ ==> r == Some(1073741824u64),
        cache_type@ == "development"@ ==> r == Some(2147483648u64),
        cache_type@ == "system"@ ==> r == Some(536870912u64),
        (cache_type@ != "browser"@ && cache_type@ != "development"@ && cache_type@ != "system"@)
            ==> r is None,
{
    proof {
        reveal_strlit("browser");
        reveal_strlit("development");
        reveal_strlit("system");
    }
    if str_eq(cache_type, "browser") {
        Some(1073741824)
    } else if str_eq(cache_type, "development") {
        Some(2147483648)
    } else if str_eq(cache_type, "system") {
        Some(536870912)
    } else {
        None
    }
}

/// A summary of files unused since a cutoff.
#[derive(Clone, Copy, Debug)]
pub struct OldFilesSummary {
    pub total_files: usize,
    pub total_size: u64,
    pub cutoff_days: u32,
}

/// Summarize the recorded sizes of files last used before the cutoff:
/// their count and byte sum, clamped at the type bound.
pub fn old_files_summary(file_sizes: &Vec<u64>, days_cutoff: u32) -> (r: OldFilesSummary)
    ensures
        r.total_files == file_sizes@.len(),
        r.total_size as int == min_int(
            sum_int(file_sizes@.map_values(|v: u64| v as int)),
            u64::MAX as int,
        ),
        r.cutoff_days == days_cutoff,
{
    let n = file_sizes.len();
    let mut acc: u128 = 0;
    let mut i: usize = 0;
    proof {
        assert(file_sizes@.map_values(|v: u64| v as int).take(0) =~= Seq::<int>::empty());
    }
    while i < n
        invariant
            n == file_sizes@.len(),
            i <= n,
            acc == sum_int(file_sizes@.map_values(|v: u64| v as int).take(i as int)),
        decreases n - i,
    {
        proof {
            let ghost m = file_sizes@.map_values(|v: u64| v as int);
            assert(forall|k: int| 0 <= k < m.len() ==> 0 <= #[trigger] m[k] <= 0xffffffffffffffff);
            lemma_sum_u64_fits_u128(m, i as int);
            lemma_sum_int_take_step(m, i as int);
        }
        acc = acc + (file_sizes[i] as u128);
        i += 1;
    }
    proof {
        let ghost m = file_sizes@.map_values(|v: u64| v as int);
        assert(m.take(n as int) =~= m);
        crate::seqext::lemma_sum_int_nonneg(m);
    }
    let total_size: u64 = if acc > 0xffffffffffffffffu128 {
        u64::MAX
    } else {
        (acc as u64)
    };
    OldFilesSummary { total_files: n, total_size, cutoff_days: days_cutoff }
}

/// The timestamp before which a file counts as unused, `days_cutoff`
/// days before `now`.
pub fn cutoff_timestamp(now: i64, days_cutoff: u32) -> (r: i64)
    requires
        i64::MIN + 86400 * (days_cutoff as int) <= now,
    ensures
        r == now - (days_cutoff as int) * 86400,
{
    now - (days_cutoff as i64) * 86400
}

} // verus!
