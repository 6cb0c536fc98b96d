//! Small general lemmas about sequences: how `filter` grows along a
//! prefix, and sums of integer sequences. The scan modules state their
//! totals and selections over these.
use vstd::prelude::*;

verus! {

/// The smaller of two integers.
pub open spec fn min_int(a: int, b: int) -> int {
    if a < b {
        a
    } else {
        b
    }
}

/// Filtering the empty sequence keeps nothing.
pub proof fn lemma_filter_empty<T>(pred: spec_fn(T) -> bool)
    ensures
        Seq::<T>::empty().filter(pred) =~= Seq::<T>::empty(),
{
    reveal(Seq::filter);
}

/// How the filtered prefix grows by one element.
pub proof fn lemma_filter_take_step<T>(s: Seq<T>, pred: spec_fn(T) -> bool, i: int)
    requires
        0 <= i < s.len(),
    ensures
        pred(s[i]) ==> s.take(i + 1).filter(pred) =~= s.take(i).filter(pred).push(s[i]),
        !pred(s[i]) ==> s.take(i + 1).filter(pred) =~= s.take(i).filter(pred),
{
    reveal(Seq::filter);
    assert(s.take(i + 1).drop_last() =~= s.take(i));
    assert(s.take(i + 1).last() == s[i]);
}

/// The sum of a sequence of integers.
pub open spec fn sum_int(s: Seq<int>) -> int
    decreases s.len(),
{
    if s.len() == 0 {
        0
    } else {
        sum_int(s.drop_last()) + s.last()
    }
}

/// How the sum of a prefix grows by one element.
pub proof fn lemma_sum_int_take_step(s: Seq<int>, i: int)
    requires
        0 <= i < s.len(),
    ensures
        sum_int(s.take(i + 1)) == sum_int(s.take(i)) + s[i],
{
    assert(s.take(i + 1).drop_last() =~= s.take(i));
    assert(s.take(i + 1).last() == s[i]);
}

/// Sums distribute over concatenation.
pub proof fn lemma_sum_int_concat(a: Seq<int>, b: Seq<int>)
    ensures
        sum_int(a + b) == sum_int(a) + sum_int(b),
    decreases b.len(),
{
    if b.len() == 0 {
        assert(a + b =~= a);
    } else {
        lemma_sum_int_concat(a, b.drop_last());
        assert((a + b).drop_last() =~= a + b.drop_last());
        assert((a + b).last() == b.last());
    }
}

/// A sum of non-negative integers is at least any of its prefixes.
pub proof fn lemma_sum_int_prefix_bound(s: Seq<int>, i: int)
    requires
        0 <= i <= s.len(),
        forall|k: int| 0 <= k < s.len() ==> s[k] >= 0,
    ensures
        0 <= sum_int(s.take(i)) <= sum_int(s),
    decreases s.len() - i,
{
    lemma_sum_int_nonneg(s.take(i));
    if i == s.len() {
        assert(s.take(i) =~= s);
    } else {
        lemma_sum_int_take_step(s, i);
        lemma_sum_int_prefix_bound(s, i + 1);
    }
}

/// A sum of values below a bound stays below the count times the
/// bound.
pub proof fn lemma_sum_int_bounded(s: Seq<int>, bound: int)
    requires
        forall|k: int| 0 <= k < s.len() ==> 0 <= #[trigger] s[k] <= bound,
        bound >= 0,
    ensures
        0 <= sum_int(s),
        sum_int(s) <= s.len() * bound,
    decreases s.len(),
{
    if s.len() == 0 {
    } else {
        assert(forall|k: int| 0 <= k < s.drop_last().len() ==> s.drop_last()[k] == s[k]);
        lemma_sum_int_bounded(s.drop_last(), bound);
        assert((s.len() - 1) * bound + bound == s.len() * bound) by (nonlinear_arith);
    }
}

/// One more `u64`-bounded value always fits a running 128-bit sum.
pub proof fn lemma_sum_u64_fits_u128(s: Seq<int>, i: int)
    requires
        0 <= i < s.len(),
        s.len() <= 0x10000000000000000,
        forall|k: int| 0 <= k < s.len() ==> 0 <= #[trigger] s[k] <= 0xffffffffffffffff,
    ensures
        0 <= sum_int(s.take(i)),
        sum_int(s.take(i)) + s[i] <= 0xffffffffffffffffffffffffffffffff,
{
    assert(forall|k: int| 0 <= k < s.take(i + 1).len() ==> 0 <= #[trigger] s.take(i + 1)[k]
        <= 0xffffffffffffffff);
    lemma_sum_int_bounded(s.take(i + 1), 0xffffffffffffffff);
    lemma_sum_int_take_step(s, i);
    assert(forall|k: int| 0 <= k < s.take(i).len() ==> 0 <= #[trigger] s.take(i)[k]
        <= 0xffffffffffffffff);
    lemma_sum_int_bounded(s.take(i), 0xffffffffffffffff);
    assert(s.take(i + 1).len() * 0xffffffffffffffff <= 0x10000000000000000 * 0xffffffffffffffff)
        by (nonlinear_arith)
        requires
            s.take(i + 1).len() <= 0x10000000000000000,
    {}
}

/// A sum of non-negative integers is non-negative.
pub proof fn lemma_sum_int_nonneg(s: Seq<int>)
    requires
        forall|k: int| 0 <= k < s.len() ==> s[k] >= 0,
    ensures
        sum_int(s) >= 0,
    decreases s.len(),
{
    if s.len() > 0 {
        assert(forall|k: int| 0 <= k < s.drop_last().len() ==> s.drop_last()[k] == s[k]);
        lemma_sum_int_nonneg(s.drop_last());
    }
}

} // verus!
