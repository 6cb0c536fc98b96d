//! Scan orchestration. A scan runs a configurable subset of phases;
//! each phase either yields candidate items or fails on its own,
//! without aborting the rest. The orchestrator assembles the phase
//! outcomes into one result set with exact totals and the list of
//! failed categories, and reports progress as a rolled-up percentage.
use vstd::prelude::*;
use vstd::string::StringExecFns;

use crate::seqext::{sum_int, lemma_sum_int_take_step, lemma_sum_int_concat,
    lemma_sum_int_prefix_bound, lemma_sum_int_nonneg};
use crate::strutil::{dec_digits, digit_char, u64_to_string, digit_str};

verus! {

/// A scan failure, by kind. I/O and validation failures carry the
/// underlying message; resource and timeout failures are their own
/// kinds so a caller can retry or abort accordingly.
#[derive(Debug)]
pub enum ScannerError {
    IoError { message: String },
    PathValidationError { message: String },
    MemoryLimitExceeded { message: String },
    Timeout,
    Cancelled,
}

/// Memory and traversal bounds for one scan run.
#[derive(Clone, Copy, Debug)]
pub struct ScanLimits {
    pub max_files: usize,
    pub max_depth: usize,
    pub max_memory_mb: usize,
    pub timeout_seconds: u64,
}

/// One discovered candidate, immutable once produced.
#[derive(Debug)]
pub struct ScanItem {
    pub id: String,
    pub name: String,
    pub path: String,
    pub size: u64,
    pub item_type: String,
    pub category: String,
    pub risk_level: u8,
    pub description: String,
    pub children: Option<Vec<ScanItem>>,
    pub dependencies: Option<Vec<String>>,
    pub dependents: Option<Vec<String>>,
}

/// A phase that failed, with its error text.
#[derive(Debug)]
pub struct FailedCategory {
    pub category: String,
    pub error: String,
}

/// The assembled outcome of a scan run.
#[derive(Debug)]
pub struct ScanResults {
    pub items: Vec<ScanItem>,
    pub total_size: u64,
    pub total_items: usize,
    pub scan_time_ms: u64,
    pub timestamp: i64,
    pub failed_categories: Vec<FailedCategory>,
}

/// Which phases to run and optional overrides of the limits.
#[derive(Clone, Copy, Debug)]
pub struct ScanOptions {
    pub include_caches: bool,
    pub include_packages: bool,
    pub include_large_files: bool,
    pub include_logs: bool,
    pub max_files: Option<usize>,
    pub max_depth: Option<usize>,
    pub max_memory_mb: Option<usize>,
}

impl Default for ScanOptions {
    /// All phases on, limits at their defaults.
    fn default() -> (r: ScanOptions)
        ensures
            r.include_caches && r.include_packages && r.include_large_files && r.include_logs,
            r.max_files is None && r.max_depth is None && r.max_memory_mb is None,
    {
        ScanOptions {
            include_caches: true,
            include_packages: true,
            include_large_files: true,
            include_logs: true,
            max_files: None,
            max_depth: None,
            max_memory_mb: None,
        }
    }
}

/// A progress event: phase name, rolled-up percentage, message, and
/// counters seen so far.
#[derive(Debug)]
pub struct ScanProgress {
    pub category: String,
    pub progress: u8,
    pub message: String,
    pub items_found: usize,
    pub current_size: u64,
}

/// What one phase produced: its items, or the error that felled it.
#[derive(Debug)]
pub struct PhaseOutcome {
    pub category: String,
    pub outcome: Result<Vec<ScanItem>, String>,
}

/// The limits of a run: each override taken where given, the default
/// where not.
pub fn resolve_limits(options: &ScanOptions) -> (r: ScanLimits)
    ensures
        r.max_files == options.max_files.unwrap_or(50000),
        r.max_depth == options.max_depth.unwrap_or(10),
        r.max_memory_mb == options.max_memory_mb.unwrap_or(500),
        r.timeout_seconds == 300,
{
    ScanLimits {
        max_files: match options.max_files {
            Some(n) => n,
            None => 50000,
        },
        max_depth: match options.max_depth {
            Some(n) => n,
            None => 10,
        },
        max_memory_mb: match options.max_memory_mb {
            Some(n) => n,
            None => 500,
        },
        timeout_seconds: 300,
    }
}

/// How many phases the options enable.
pub open spec fn spec_enabled_phases(options: ScanOptions) -> int {
    (if options.include_caches {
        1int
    } else {
        0int
    }) + (if options.include_packages {
        1int
    } else {
        0int
    }) + (if options.include_logs {
        1int
    } else {
        0int
    }) + (if options.include_large_files {
        1int
    } else {
        0int
    })
}

/// Count the phases the options enable.
pub fn enabled_phase_count(options: &ScanOptions) -> (r: usize)
    ensures
        r == spec_enabled_phases(*options),
{
    let mut count: usize = 0;
    if options.include_caches {
        count += 1;
    }
    if options.include_packages {
        count += 1;
    }
    if options.include_logs {
        count += 1;
    }
    if options.include_large_files {
        count += 1;
    }
    count
}

/// The rolled-up percentage a scan reports: completed phases count in
/// full, the running phase by its own percentage, capped at 100.
pub open spec fn spec_overall_progress(completed: int, phase_pct: int, total: int) -> int {
    let raw = (completed * 100 + phase_pct) / total;
    if raw < 100 {
        raw
    } else {
        100
    }
}

/// The rolled-up percentage: completed phases count in full, the
/// running phase by its own percentage, capped at 100. Zero when no
/// phase is enabled.
pub fn overall_progress(phases_completed: usize, phase_progress: u8, total_phases: usize) -> (r:
    u8)
    requires
        phases_completed <= total_phases,
        total_phases <= 1000,
    ensures
        total_phases == 0 ==> r == 0,
        total_phases > 0 ==> r as int == spec_overall_progress(
            phases_completed as int,
            phase_progress as int,
            total_phases as int,
        ),
{
    if total_phases == 0 {
        return 0;
    }
    let raw = (phases_completed * 100 + phase_progress as usize) / total_phases;
    if raw < 100 {
        raw as u8
    } else {
        100
    }
}

/// The run must abort when sampled process memory exceeds the ceiling.
pub fn memory_exceeded(current_memory_mb: u64, limits: &ScanLimits) -> (r: bool)
    ensures
        r == (current_memory_mb > limits.max_memory_mb as u64),
{
    current_memory_mb > limits.max_memory_mb as u64
}

/// The sizes of a list of items, as integers.
pub open spec fn item_sizes(s: Seq<ScanItem>) -> Seq<int> {
    s.map_values(|it: ScanItem| it.size as int)
}

/// The total byte size of a list of items.
pub open spec fn sum_item_sizes(s: Seq<ScanItem>) -> int {
    sum_int(item_sizes(s))
}

/// Each item counts itself plus its immediate children.
pub open spec fn item_counts(s: Seq<ScanItem>) -> Seq<int> {
    s.map_values(
        |it: ScanItem|
            1int + (match it.children {
                Some(c) => c@.len() as int,
                None => 0int,
            }),
    )
}

/// The total item count of a list, children included.
pub open spec fn count_with_children(s: Seq<ScanItem>) -> int {
    sum_int(item_counts(s))
}

/// All items collected by the successful phases, in phase order.
pub open spec fn collected_items(s: Seq<PhaseOutcome>) -> Seq<ScanItem>
    decreases s.len(),
{
    if s.len() == 0 {
        Seq::empty()
    } else {
        (match s[0].outcome {
            Ok(v) => v@,
            Err(_) => Seq::empty(),
        }) + collected_items(s.drop_first())
    }
}

/// The failed phases, in phase order, with their errors.
pub open spec fn failed_of(s: Seq<PhaseOutcome>) -> Seq<FailedCategory>
    decreases s.len(),
{
    if s.len() == 0 {
        Seq::empty()
    } else {
        (match s[0].outcome {
            Ok(_) => Seq::<FailedCategory>::empty(),
            Err(e) => seq![FailedCategory { category: s[0].category, error: e }],
        }) + failed_of(s.drop_first())
    }
}

/// The total byte size of the items a phase list collects.
fn items_total_size(items: &Vec<ScanItem>) -> (r: u64)
    requires
        sum_item_sizes(items@) <= u64::MAX,
    ensures
        r == sum_item_sizes(items@),
{
    let n = items.len();
    let mut total: u64 = 0;
    let mut i: usize = 0;
    proof {
        assert(item_sizes(items@.take(0)) =~= item_sizes(items@).take(0));
    }
    while i < n
        invariant
            n == items@.len(),
            i <= n,
            sum_item_sizes(items@) <= u64::MAX,
            total == sum_int(item_sizes(items@).take(i as int)),
        decreases n - i,
    {
        proof {
            assert(forall|k: int|
                0 <= k < item_sizes(items@).len() ==> item_sizes(items@)[k] >= 0);
            lemma_sum_int_prefix_bound(item_sizes(items@), i + 1);
            lemma_sum_int_take_step(item_sizes(items@), i as int);
        }
        total = total + items[i].size;
        i += 1;
    }
    proof {
        assert(item_sizes(items@).take(n as int) =~= item_sizes(items@));
    }
    total
}

/// The item count, children included, of the items a phase collects.
fn items_total_count(items: &Vec<ScanItem>) -> (r: usize)
    requires
        count_with_children(items@) <= usize::MAX,
    ensures
        r == count_with_children(items@),
{
    let n = items.len();
    let mut total: usize = 0;
    let mut i: usize = 0;
    proof {
        assert(item_counts(items@).take(0) =~= Seq::<int>::empty());
    }
    while i < n
        invariant
            n == items@.len(),
            i <= n,
            count_with_children(items@) <= usize::MAX,
            total == sum_int(item_counts(items@).take(i as int)),
        decreases n - i,
    {
        proof {
            assert(forall|k: int|
                0 <= k < item_counts(items@).len() ==> item_counts(items@)[k] >= 1);
            lemma_sum_int_prefix_bound(item_counts(items@), i + 1);
            lemma_sum_int_take_step(item_counts(items@), i as int);
        }
        let child_count = match &items[i].children {
            Some(c) => c.len(),
            None => 0,
        };
        total = total + 1 + child_count;
        i += 1;
    }
    proof {
        assert(item_counts(items@).take(n as int) =~= item_counts(items@));
    }
    total
}

/// Assemble the outcomes of all phases into one result set: the items
/// of the successful phases in order, exact size and count totals over
/// them, and one `FailedCategory` per failed phase, in order.
pub fn assemble_scan_results(
    outcomes: Vec<PhaseOutcome>,
    scan_time_ms: u64,
    timestamp: i64,
) -> (r: ScanResults)
    requires
        sum_item_sizes(collected_items(outcomes@)) <= u64::MAX,
        count_with_children(collected_items(outcomes@)) <= usize::MAX,
    ensures
        r.items@ =~= collected_items(outcomes@),
        r.failed_categories@ =~= failed_of(outcomes@),
        r.total_size == sum_item_sizes(collected_items(outcomes@)),
        r.total_items == count_with_children(collected_items(outcomes@)),
        r.scan_time_ms == scan_time_ms,
        r.timestamp == timestamp,
{
    let ghost orig = outcomes@;
    let mut outcomes = outcomes;
    let mut items: Vec<ScanItem> = Vec::new();
    let mut failed: Vec<FailedCategory> = Vec::new();
    let mut total_size: u64 = 0;
    let mut total_items: usize = 0;
    proof {
        assert(items@ + collected_items(orig) =~= collected_items(orig));
        assert(failed@ + failed_of(orig) =~= failed_of(orig));
        assert(item_sizes(items@) =~= Seq::<int>::empty());
        assert(item_counts(items@) =~= Seq::<int>::empty());
    }
    while outcomes.len() > 0
        invariant
            items@ + collected_items(outcomes@) =~= collected_items(orig),
            failed@ + failed_of(outcomes@) =~= failed_of(orig),
            total_size == sum_item_sizes(items@),
            total_items == count_with_children(items@),
            sum_item_sizes(collected_items(orig)) <= u64::MAX,
            count_with_children(collected_items(orig)) <= usize::MAX,
        decreases outcomes@.len(),
    {
        let ghost prev = outcomes@;
        let o = outcomes.remove(0);
        proof {
            assert(outcomes@ =~= prev.drop_first());
        }
        match o.outcome {
            Ok(mut phase_items) => {
                proof {
                    assert(collected_items(prev) =~= phase_items@ + collected_items(outcomes@));
                    assert(items@ + (phase_items@ + collected_items(outcomes@)) =~= collected_items(
                        orig,
                    ));
                    lemma_collect_split(items@, phase_items@, outcomes@, orig);
                }
                let phase_size = items_total_size(&phase_items);
                let phase_count = items_total_count(&phase_items);
                proof {
                    lemma_sum_int_concat(item_sizes(items@), item_sizes(phase_items@));
                    assert(item_sizes(items@ + phase_items@) =~= item_sizes(items@) + item_sizes(
                        phase_items@,
                    ));
                    lemma_sum_int_concat(item_counts(items@), item_counts(phase_items@));
                    assert(item_counts(items@ + phase_items@) =~= item_counts(items@)
                        + item_counts(phase_items@));
                }
                total_size = total_size + phase_size;
                total_items = total_items + phase_count;
                items.append(&mut phase_items);
                proof {
                    assert(failed_of(prev) =~= failed_of(outcomes@));
                    assert(items@ + collected_items(outcomes@) =~= collected_items(orig));
                }
            },
            Err(e) => {
                proof {
                    assert(collected_items(prev) =~= collected_items(outcomes@));
                }
                failed.push(FailedCategory { category: o.category, error: e });
                proof {
                    assert(failed@ + failed_of(outcomes@) =~= failed_of(orig));
                }
            },
        }
    }
    proof {
        assert(collected_items(outcomes@) =~= Seq::<ScanItem>::empty());
        assert(failed_of(outcomes@) =~= Seq::<FailedCategory>::empty());
        assert(items@ + Seq::<ScanItem>::empty() =~= items@);
        assert(failed@ + Seq::<FailedCategory>::empty() =~= failed@);
    }
    ScanResults {
        items,
        total_size,
        total_items,
        scan_time_ms,
        timestamp,
        failed_categories: failed,
    }
}

/// The items already moved, the current phase's items and the items of
/// the remaining phases partition the whole collection, so the running
/// totals never overflow their bounds.
proof fn lemma_collect_split(
    done: Seq<ScanItem>,
    phase: Seq<ScanItem>,
    rest: Seq<PhaseOutcome>,
    orig: Seq<PhaseOutcome>,
)
    requires
        done + (phase + collected_items(rest)) =~= collected_items(orig),
    ensures
        sum_item_sizes(done) + sum_item_sizes(phase) + sum_item_sizes(collected_items(rest))
            == sum_item_sizes(collected_items(orig)),
        sum_item_sizes(done) >= 0,
        sum_item_sizes(phase) >= 0,
        sum_item_sizes(collected_items(rest)) >= 0,
        count_with_children(done) + count_with_children(phase) + count_with_children(
            collected_items(rest),
        ) == count_with_children(collected_items(orig)),
        count_with_children(done) >= 0,
        count_with_children(phase) >= 0,
        count_with_children(collected_items(rest)) >= 0,
{
    let tail = collected_items(rest);
    assert(item_sizes(done + (phase + tail)) =~= item_sizes(done) + (item_sizes(phase)
        + item_sizes(tail)));
    lemma_sum_int_concat(item_sizes(done), item_sizes(phase) + item_sizes(tail));
    lemma_sum_int_concat(item_sizes(phase), item_sizes(tail));
    assert(forall|k: int| 0 <= k < item_sizes(done).len() ==> item_sizes(done)[k] >= 0);
    lemma_sum_int_nonneg(item_sizes(done));
    assert(forall|k: int| 0 <= k < item_sizes(phase).len() ==> item_sizes(phase)[k] >= 0);
    lemma_sum_int_nonneg(item_sizes(phase));
    assert(forall|k: int| 0 <= k < item_sizes(tail).len() ==> item_sizes(tail)[k] >= 0);
    lemma_sum_int_nonneg(item_sizes(tail));
    assert(item_counts(done + (phase + tail)) =~= item_counts(done) + (item_counts(phase)
        + item_counts(tail)));
    lemma_sum_int_concat(item_counts(done), item_counts(phase) + item_counts(tail));
    lemma_sum_int_concat(item_counts(phase), item_counts(tail));
    assert(forall|k: int| 0 <= k < item_counts(done).len() ==> item_counts(done)[k] >= 0);
    lemma_sum_int_nonneg(item_counts(done));
    assert(forall|k: int| 0 <= k < item_counts(phase).len() ==> item_counts(phase)[k] >= 0);
    lemma_sum_int_nonneg(item_counts(phase));
    assert(forall|k: int| 0 <= k < item_counts(tail).len() ==> item_counts(tail)[k] >= 0);
    lemma_sum_int_nonneg(item_counts(tail));
    assert(collected_items(orig) =~= done + (phase + tail));
}

/// The unit applied to a byte count: how many times 1024 divides it
/// before the value falls under 1024, capped at terabytes.
pub open spec fn byte_unit_index(b: u64) -> int {
    if b < 1024 {
        0
    } else if b < 1048576 {
        1
    } else if b < 1073741824 {
        2
    } else if b < 1099511627776 {
        3
    } else {
        4
    }
}

/// The divisor belonging to a unit index.
pub open spec fn byte_unit_divisor(u: int) -> int {
    if u == 0 {
        1
    } else if u == 1 {
        1024
    } else if u == 2 {
        1048576
    } else if u == 3 {
        1073741824
    } else {
        1099511627776
    }
}

/// The unit suffix belonging to a unit index.
pub open spec fn byte_unit_name(u: int) -> Seq<char> {
    if u == 0 {
        "B"@
    } else if u == 1 {
        "KB"@
    } else if u == 2 {
        "MB"@
    } else if u == 3 {
        "GB"@
    } else {
        "TB"@
    }
}

/// The rendering of `b` bytes: the scaled value with two decimal
/// places rounded to nearest (an exact half rounds up), a space, and
/// the unit. Rounding can carry into the whole part, so a value just
/// under a unit boundary reads as 1024.00 of the smaller unit.
pub open spec fn format_bytes_spec(b: u64) -> Seq<char> {
    let u = byte_unit_index(b);
    let d = byte_unit_divisor(u);
    let fr = ((b as int % d) * 100 + d / 2) / d;
    let whole = if fr == 100 {
        b as int / d + 1
    } else {
        b as int / d
    };
    let frac = if fr == 100 {
        0int
    } else {
        fr
    };
    dec_digits(whole as u64) + "."@ + seq![
        digit_char((frac / 10) as u64),
        digit_char((frac % 10) as u64),
    ] + " "@ + byte_unit_name(u)
}

/// Render a byte count with a binary unit, two decimal places rounded
/// to nearest.
pub fn format_bytes(bytes: u64) -> (r: String)
    ensures
        r@ == format_bytes_spec(bytes),
{
    let (divisor, unit): (u64, &'static str) = if bytes < 1024 {
        (1, "B")
    } else if bytes < 1048576 {
        (1024, "KB")
    } else if bytes < 1073741824 {
        (1048576, "MB")
    } else if bytes < 1099511627776 {
        (1073741824, "GB")
    } else {
        (1099511627776, "TB")
    };
    let whole0 = bytes / divisor;
    let rem = bytes % divisor;
    proof {
        let m = rem as int;
        let d = divisor as int;
        assert((m * 100 + d / 2) / d <= 100) by (nonlinear_arith)
            requires
                0 < d,
                0 <= m < d,
        {}
        assert(bytes as int / d < 0xffffffffffffffff) by (nonlinear_arith)
            requires
                d == 1 && bytes < 1024 || d >= 1024,
                0 <= bytes as int <= 0xffffffffffffffff,
        {}
    }
    let fr = (rem * 100 + divisor / 2) / divisor;
    let (whole, frac): (u64, u64) = if fr == 100 {
        (whole0 + 1, 0)
    } else {
        (whole0, fr)
    };
    let s = u64_to_string(whole);
    let s = s.concat(".");
    let s = s.concat(digit_str(frac / 10));
    let s = s.concat(digit_str(frac % 10));
    let s = s.concat(" ");
    s.concat(unit)
}

} // verus!
