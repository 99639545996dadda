use vstd::arithmetic::power2::{lemma_pow2_unfold, pow2};
use vstd::prelude::*;

verus! {

/// How many binary digits `n` has.
pub open spec fn bit_length(n: nat) -> nat
    decreases n,
{
    if n == 0 {
        0
    } else {
        1 + bit_length(n / 2)
    }
}

proof fn lemma_bit_length_bound(n: nat, k: nat)
    requires
        n < pow2(k),
    ensures
        bit_length(n) <= k,
    decreases k,
{
    if n > 0 {
        if k == 0 {
            assert(pow2(0) == 1) by {
                vstd::arithmetic::power2::lemma2_to64();
            }
        } else {
            lemma_pow2_unfold(k);
            lemma_bit_length_bound(n / 2, (k - 1) as nat);
        }
    }
}

/// The bucket of a count: how many binary digits it has, so that counts in
/// `2^(b-1) .. 2^b` share the bucket `b`.
pub fn bucket(val: u64) -> (r: u8)
    ensures
        r == bit_length(val as nat),
{
    proof {
        vstd::arithmetic::power2::lemma2_to64();
        lemma_bit_length_bound(val as nat, 64);
    }
    let mut val = val;
    let ghost total = bit_length(val as nat);
    let mut bucket_val: u8 = 0;
    while val > 0
        invariant
            bucket_val + bit_length(val as nat) == total,
            total <= 64,
        decreases val,
    {
        assert(val >> 1 == val / 2) by (bit_vector);
        val = val >> 1;
        bucket_val = bucket_val + 1;
    }
    bucket_val
}

/// The bit length of a number is the number of binary digits it has: zero
/// for zero, and otherwise the `b` with `2^(b-1) <= n < 2^b`.
pub proof fn lemma_bit_length_bounds(n: nat)
    ensures
        n == 0 ==> bit_length(n) == 0,
        n > 0 ==> bit_length(n) >= 1 && pow2((bit_length(n) - 1) as nat) <= n < pow2(bit_length(n)),
    decreases n,
{
    if n > 0 {
        lemma_bit_length_bounds(n / 2);
        lemma_pow2_unfold(bit_length(n));
        if n / 2 == 0 {
            assert(bit_length(n) == 1);
            assert(pow2(0) == 1) by {
                vstd::arithmetic::power2::lemma2_to64();
            }
            assert(pow2(1) == 2) by {
                vstd::arithmetic::power2::lemma2_to64();
            }
        } else {
            lemma_pow2_unfold((bit_length(n) - 1) as nat);
        }
    }
}

/// Every ordered pair of the features, by the first feature and then the
/// second: with `n` features, the `k`th pair is the `k / n`th feature and the
/// `k % n`th.
pub fn feature_pairs(features: &Vec<String>) -> (r: Vec<(String, String)>)
    requires
        features@.len() * features@.len() <= usize::MAX,
    ensures
        r@.len() == features@.len() * features@.len(),
        forall|k: int|
            0 <= k < r@.len() ==> {
                &&& (#[trigger] r@[k]).0@ == features@[k / features@.len() as int]@
                &&& r@[k].1@ == features@[k % features@.len() as int]@
            },
{
    let n = features.len();
    let mut r: Vec<(String, String)> = Vec::new();
    let mut i: usize = 0;
    while i < n
        invariant
            n == features@.len(),
            n * n <= usize::MAX,
            i <= n,
            r@.len() == i * n,
            forall|k: int|
                0 <= k < r@.len() ==> {
                    &&& (#[trigger] r@[k]).0@ == features@[k / n as int]@
                    &&& r@[k].1@ == features@[k % n as int]@
                },
        decreases n - i,
    {
        let mut j: usize = 0;
        while j < n
            invariant
                n == features@.len(),
                n * n <= usize::MAX,
                i < n,
                j <= n,
                r@.len() == i * n + j,
                forall|k: int|
                    0 <= k < r@.len() ==> {
                        &&& (#[trigger] r@[k]).0@ == features@[k / n as int]@
                        &&& r@[k].1@ == features@[k % n as int]@
                    },
            decreases n - j,
        {
            let k: Ghost<int> = Ghost((i * n + j) as int);
            assert((i * n + j) / (n as int) == i && (i * n + j) % (n as int) == j) by (nonlinear_arith)
                requires
                    0 <= j < n,
                    0 <= i,
            ;
            r.push((features[i].clone(), features[j].clone()));
            assert(r@[k@].0@ == features@[k@ / n as int]@);
            j = j + 1;
        }
        assert((i + 1) * n == i * n + n) by (nonlinear_arith);
        i = i + 1;
    }
    r
}

} // verus!
