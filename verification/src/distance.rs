use vstd::prelude::*;

verus! {

/// Sum of squared component differences over the first `n` components.
pub open spec fn dist2_prefix(a: Seq<i32>, b: Seq<i32>, n: int) -> int
    decreases n,
{
    if n <= 0 {
        0
    } else {
        let d = a[n - 1] - b[n - 1];
        dist2_prefix(a, b, n - 1) + d * d
    }
}

/// Squared Euclidean distance between two vectors of equal length.
pub open spec fn dist2(a: Seq<i32>, b: Seq<i32>) -> int {
    dist2_prefix(a, b, a.len() as int)
}

/// Each squared component difference of two `i32`s is below 2^64.
pub proof fn lemma_sq_diff_bounds(x: i32, y: i32)
    ensures
        0 <= (x - y) * (x - y) < 0x10000000000000000,
{
    let d = x - y;
    assert(-0xffffffff <= d <= 0xffffffff);
    assert(0 <= d * d < 0x10000000000000000) by (nonlinear_arith)
        requires
            -0xffffffff <= d <= 0xffffffff,
    ;
}

/// A distance is never negative.
pub proof fn lemma_dist2_prefix_nonneg(a: Seq<i32>, b: Seq<i32>, n: int)
    ensures
        dist2_prefix(a, b, n) >= 0,
    decreases n,
{
    if n > 0 {
        lemma_dist2_prefix_nonneg(a, b, n - 1);
        lemma_sq_diff_bounds(a[n - 1], b[n - 1]);
    }
}

/// A distance is never negative.
pub proof fn lemma_dist2_nonneg(a: Seq<i32>, b: Seq<i32>)
    ensures
        dist2(a, b) >= 0,
{
    lemma_dist2_prefix_nonneg(a, b, a.len() as int);
}

pub proof fn lemma_dist2_prefix_self_zero(a: Seq<i32>, n: int)
    ensures
        dist2_prefix(a, a, n) == 0,
    decreases n,
{
    if n > 0 {
        lemma_dist2_prefix_self_zero(a, n - 1);
    }
}

/// The distance of a vector to itself is zero: the metric's identity value.
pub proof fn lemma_dist2_self_zero(a: Seq<i32>)
    ensures
        dist2(a, a) == 0,
{
    lemma_dist2_prefix_self_zero(a, a.len() as int);
}

/// A distance over `n` components is at most `n * 2^64`.
pub proof fn lemma_dist2_prefix_bound(a: Seq<i32>, b: Seq<i32>, n: int)
    requires
        n >= 0,
    ensures
        dist2_prefix(a, b, n) <= n * 0x10000000000000000,
    decreases n,
{
    if n > 0 {
        lemma_dist2_prefix_bound(a, b, n - 1);
        lemma_sq_diff_bounds(a[n - 1], b[n - 1]);
        assert((n - 1) * 0x10000000000000000 + 0x10000000000000000 == n * 0x10000000000000000)
            by (nonlinear_arith);
    }
}

/// Computes the squared Euclidean distance of two equal-length vectors
/// exactly; the `u128` accumulator cannot overflow for any two `Vec<i32>`.
pub fn squared_distance(a: &Vec<i32>, b: &Vec<i32>) -> (r: u128)
    requires
        a@.len() == b@.len(),
    ensures
        r == dist2(a@, b@),
{
    let mut acc: u128 = 0;
    let mut i: usize = 0;
    while i < a.len()
        invariant
            a@.len() == b@.len(),
            i <= a@.len(),
            acc == dist2_prefix(a@, b@, i as int),
        decreases a@.len() - i,
    {
        let d: i64 = (a[i] as i64) - (b[i] as i64);
        proof {
            lemma_sq_diff_bounds(a@[i as int], b@[i as int]);
            lemma_dist2_prefix_bound(a@, b@, i as int);
            assert(i as int * 0x10000000000000000 <= 0xffffffffffffffff * 0x10000000000000000)
                by (nonlinear_arith)
                requires
                    0 <= i as int <= 0xffffffffffffffff,
            ;
        }
        let sq: i128 = (d as i128) * (d as i128);
        acc = acc + (sq as u128);
        i = i + 1;
    }
    acc
}

} // verus!
