//! Sums over sequences of amounts.

use vstd::prelude::*;

verus! {

/// The sum of the first `k` amounts.
pub open spec fn sum_upto(values: Seq<u64>, k: int) -> nat
    decreases k,
{
    if k <= 0 {
        0
    } else {
        sum_upto(values, k - 1) + values[k - 1] as nat
    }
}

/// The sum of all the amounts.
pub open spec fn sum(values: Seq<u64>) -> nat {
    sum_upto(values, values.len() as int)
}

/// A longer prefix sums to at least as much.
pub proof fn lemma_sum_upto_monotonic(values: Seq<u64>, i: int, j: int)
    requires
        i <= j,
    ensures
        sum_upto(values, i) <= sum_upto(values, j),
    decreases j - i,
{
    if i < j {
        lemma_sum_upto_monotonic(values, i, j - 1);
    }
}

/// A prefix sum looks only at the prefix.
pub proof fn lemma_sum_upto_agrees(a: Seq<u64>, b: Seq<u64>, k: int)
    requires
        k <= a.len(),
        k <= b.len(),
        forall|i: int| 0 <= i < k ==> a[i] == b[i],
    ensures
        sum_upto(a, k) == sum_upto(b, k),
    decreases k,
{
    if k > 0 {
        lemma_sum_upto_agrees(a, b, k - 1);
    }
}

/// Appending one amount adds it to the sum.
pub proof fn lemma_sum_push(values: Seq<u64>, x: u64)
    ensures
        sum(values.push(x)) == sum(values) + x,
{
    lemma_sum_upto_agrees(values, values.push(x), values.len() as int);
}

/// The sum of a concatenation is the sum of the sums.
pub proof fn lemma_sum_concat(a: Seq<u64>, b: Seq<u64>)
    ensures
        sum(a + b) == sum(a) + sum(b),
    decreases b.len(),
{
    if b.len() == 0 {
        assert(a + b =~= a);
    } else {
        let b0 = b.drop_last();
        lemma_sum_concat(a, b0);
        assert(a + b =~= (a + b0).push(b.last()));
        assert(b =~= b0.push(b.last()));
        lemma_sum_push(a + b0, b.last());
        lemma_sum_push(b0, b.last());
    }
}

/// The sum of what is left after the first `k` amounts.
pub proof fn lemma_sum_skip(values: Seq<u64>, k: int)
    requires
        0 <= k <= values.len(),
    ensures
        sum(values.skip(k)) == sum(values) - sum_upto(values, k),
{
    let a = values.take(k);
    let b = values.skip(k);
    assert(a + b =~= values);
    lemma_sum_concat(a, b);
    lemma_sum_upto_agrees(a, values, k);
}

} // verus!
