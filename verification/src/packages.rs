//! Package inventory summaries. Querying the package manager is the
//! caller's side of the split; the statistics over what it returned
//! are computed and stated here.
use vstd::prelude::*;

use crate::seqext::min_int;
use crate::seqext::{sum_int, lemma_sum_int_take_step, lemma_sum_u64_fits_u128};

verus! {

/// One installed package as the package manager reports it.
#[derive(Debug)]
pub struct PackageInfo {
    pub name: String,
    pub version: String,
    pub size: u64,
    pub description: String,
    pub dependencies: Vec<String>,
    pub dependents: Vec<String>,
    pub is_orphan: bool,
    pub package_manager: String,
}

/// Counts of installed and orphaned packages and the orphans' size.
#[derive(Clone, Copy, Debug)]
pub struct PackageStats {
    pub total_packages: usize,
    pub orphan_packages: usize,
    pub orphan_size: u64,
}

/// The sizes of a list of packages, as integers.
pub open spec fn package_sizes(s: Seq<PackageInfo>) -> Seq<int> {
    s.map_values(|p: PackageInfo| p.size as int)
}

/// Summarize the installed packages and the orphans among them: the
/// counts, and the orphans' byte total clamped at the type bound.
pub fn get_package_stats(packages: &Vec<PackageInfo>, orphans: &Vec<PackageInfo>) -> (r:
    PackageStats)
    ensures
        r.total_packages == packages@.len(),
        r.orphan_packages == orphans@.len(),
        r.orphan_size as int == min_int(sum_int(package_sizes(orphans@)), u64::MAX as int),
{
    let n = orphans.len();
    let mut acc: u128 = 0;
    let mut i: usize = 0;
    proof {
        assert(package_sizes(orphans@).take(0) =~= Seq::<int>::empty());
    }
    while i < n
        invariant
            n == orphans@.len(),
            i <= n,
            acc == sum_int(package_sizes(orphans@).take(i as int)),
        decreases n - i,
    {
        proof {
            assert(forall|k: int|
                0 <= k < package_sizes(orphans@).len() ==> 0 <= #[trigger] package_sizes(
                    orphans@,
                )[k] <= 0xffffffffffffffff);
            lemma_sum_u64_fits_u128(package_sizes(orphans@), i as int);
            lemma_sum_int_take_step(package_sizes(orphans@), i as int);
        }
        acc = acc + (orphans[i].size as u128);
        i += 1;
    }
    proof {
        assert(package_sizes(orphans@).take(n as int) =~= package_sizes(orphans@));
        crate::seqext::lemma_sum_int_nonneg(package_sizes(orphans@));
    }
    let orphan_size: u64 = if acc > 0xffffffffffffffffu128 {
        u64::MAX
    } else {
        (acc as u64)
    };
    PackageStats {
        total_packages: packages.len(),
        orphan_packages: n,
        orphan_size,
    }
}

} // verus!
