//! Code parameter derivation: the minimal number of parity bits for a given
//! message length, and the bookkeeping of power-of-two versus data positions
//! inside a codeword.
//!
//! The engine targets classroom-sized codes (message lengths up to a few
//! hundred bits), so message lengths are capped at [`MAX_MESSAGE_LEN`].

use vstd::prelude::*;
use vstd::arithmetic::power2::{pow2, lemma2_to64, lemma_pow2_strictly_increases};

verus! {

/// Largest supported message length.
pub const MAX_MESSAGE_LEN: usize = 1000;

/// The Hamming single-error-correcting bound: `p` parity bits suffice for a
/// `k`-bit message when `2^p >= k + p + 1`.
pub open spec fn satisfies_hamming_bound(k: nat, p: nat) -> bool {
    pow2(p) >= k + p + 1
}

/// `v` is an exact power of two.
pub open spec fn is_power_of_two(v: int) -> bool {
    exists|e: nat| v == pow2(e)
}

/// The values in `[1, v]` that are not powers of two, in ascending order.
pub open spec fn nonpow_upto(v: nat) -> Seq<int>
    decreases v,
{
    if v == 0 {
        Seq::empty()
    } else if is_power_of_two(v as int) {
        nonpow_upto((v - 1) as nat)
    } else {
        nonpow_upto((v - 1) as nat).push(v as int)
    }
}

pub proof fn lemma_pow2_le(e1: nat, e2: nat)
    requires
        e1 <= e2,
    ensures
        pow2(e1) <= pow2(e2),
{
    if e1 < e2 {
        lemma_pow2_strictly_increases(e1, e2);
    }
}

/// The Hamming bound, once satisfied, stays satisfied as the number of
/// parity bits grows: the minimal satisfying `p` is therefore unique.
pub proof fn lemma_bound_monotone(k: nat, p1: nat, p2: nat)
    requires
        p1 <= p2,
        satisfies_hamming_bound(k, p1),
    ensures
        satisfies_hamming_bound(k, p2),
    decreases p2 - p1,
{
    if p1 < p2 {
        assert(pow2(p1 + 1) == 2 * pow2(p1)) by {
            vstd::arithmetic::power2::lemma_pow2_adds(1, p1);
            lemma2_to64();
        }
        assert(satisfies_hamming_bound(k, p1 + 1));
        lemma_bound_monotone(k, p1 + 1, p2);
    }
}

/// There is no power of two strictly between two adjacent powers.
pub proof fn lemma_no_power_between(e: nat, v: int)
    requires
        pow2(e) < v < pow2(e + 1),
    ensures
        !is_power_of_two(v),
{
    assert forall|e2: nat| v != pow2(e2) by {
        if e2 <= e {
            lemma_pow2_le(e2, e);
        } else {
            lemma_pow2_le(e + 1, e2);
        }
    }
}

/// Every entry of `nonpow_upto(v)` lies in `[1, v]`, is not a power of two,
/// and the sequence is strictly ascending.
pub proof fn lemma_nonpow_upto_entries(v: nat)
    ensures
        forall|j: int|
            0 <= j < nonpow_upto(v).len() ==> {
                &&& 1 <= #[trigger] nonpow_upto(v)[j] <= v
                &&& !is_power_of_two(nonpow_upto(v)[j])
            },
        forall|j1: int, j2: int|
            0 <= j1 < j2 < nonpow_upto(v).len() ==> nonpow_upto(v)[j1] < nonpow_upto(v)[j2],
    decreases v,
{
    if v > 0 {
        lemma_nonpow_upto_entries((v - 1) as nat);
        let prev = nonpow_upto((v - 1) as nat);
        if !is_power_of_two(v as int) {
            assert(nonpow_upto(v) == prev.push(v as int));
            assert forall|j: int|
                0 <= j < nonpow_upto(v).len() implies {
                    &&& 1 <= #[trigger] nonpow_upto(v)[j] <= v
                    &&& !is_power_of_two(nonpow_upto(v)[j])
                } by {
                if j < prev.len() {
                    assert(nonpow_upto(v)[j] == prev[j]);
                } else {
                    assert(nonpow_upto(v)[j] == v as int);
                }
            }
        }
    }
}

/// In an interval `[2^e, 2^(e+1))` the count of non-powers in `[1, v]` is
/// `v - (e + 1)`: exactly the `e + 1` powers `1, 2, ..., 2^e` are missing.
pub proof fn lemma_nonpow_count(v: nat, e: nat)
    requires
        pow2(e) <= v < pow2(e + 1),
    ensures
        nonpow_upto(v).len() == v - (e + 1),
    decreases v,
{
    if v == pow2(e) {
        assert(is_power_of_two(v as int));
        if e == 0 {
            assert(pow2(0) == 1) by {
                lemma2_to64();
            }
            assert(nonpow_upto(1) == nonpow_upto(0));
            assert(nonpow_upto(0) == Seq::<int>::empty());
        } else {
            assert(pow2((e - 1) as nat) < pow2(e)) by {
                lemma_pow2_strictly_increases((e - 1) as nat, e);
            }
            assert(pow2((e - 1) as nat) <= v - 1) by {
                lemma_pow2_strictly_increases((e - 1) as nat, e);
            }
            lemma_nonpow_count((v - 1) as nat, (e - 1) as nat);
        }
    } else {
        lemma_no_power_between(e, v as int);
        lemma_nonpow_count((v - 1) as nat, e);
    }
}

/// Derives `(n, p)` from the message length `k`: `p` is the least number of
/// parity bits satisfying the Hamming bound `2^p >= k + p + 1`, and
/// `n = k + p`. A one-bit message still gets `p = 2`; the derivation never
/// degenerates to `p = 0`.
pub fn compute_n_from_k(k: usize) -> (res: (usize, usize))
    requires
        1 <= k <= MAX_MESSAGE_LEN,
    ensures
        res.0 == k + res.1,
        satisfies_hamming_bound(k as nat, res.1 as nat),
        !satisfies_hamming_bound(k as nat, (res.1 - 1) as nat),
        2 <= res.1 <= 11,
{
    let mut p: usize = 1;
    let mut pw: usize = 2;
    proof {
        lemma2_to64();
    }
    while pw < k + p + 1
        invariant
            1 <= k <= MAX_MESSAGE_LEN,
            1 <= p <= 11,
            pw == pow2(p as nat),
            !satisfies_hamming_bound(k as nat, (p - 1) as nat),
        decreases 12 - p,
    {
        proof {
            lemma2_to64();
            if p == 11 {
                assert(pow2(11) == 2048);
                assert(false);
            }
        }
        p = p + 1;
        pw = pw * 2;
    }
    proof {
        lemma2_to64();
        if p == 1 {
            assert(pow2(1) == 2);
            assert(!satisfies_hamming_bound(k as nat, 1));
            assert(false);
        }
    }
    (k + p, p)
}

/// Parameter derivation for the extended Hamming family. The base `(n, p)`
/// pair follows the same rule as the systematic/cyclic families; the extra
/// overall-parity bit is appended at encode time and is not counted in `n`.
pub fn compute_hamming_n_from_k(k: usize) -> (res: (usize, usize))
    requires
        1 <= k <= MAX_MESSAGE_LEN,
    ensures
        res.0 == k + res.1,
        satisfies_hamming_bound(k as nat, res.1 as nat),
        !satisfies_hamming_bound(k as nat, (res.1 - 1) as nat),
        2 <= res.1 <= 11,
{
    compute_n_from_k(k)
}

/// Lists the positions in `[1, n]` that are not powers of two, ascending:
/// the data positions of a Hamming codeword, and the parity-check column
/// labels of the systematic construction.
pub fn nonpow_positions(n: usize) -> (res: Vec<usize>)
    requires
        n <= MAX_MESSAGE_LEN + 11,
    ensures
        res@.len() == nonpow_upto(n as nat).len(),
        forall|j: int| 0 <= j < res@.len() ==> res@[j] as int == nonpow_upto(n as nat)[j],
{
    let mut res: Vec<usize> = Vec::new();
    let mut next_pow: usize = 1;
    let ghost mut e: nat = 0;
    let mut pos: usize = 1;
    proof {
        lemma2_to64();
    }
    while pos <= n
        invariant
            n <= MAX_MESSAGE_LEN + 11,
            1 <= pos <= n + 1,
            next_pow == pow2(e),
            pos <= next_pow,
            e == 0 || pow2((e - 1) as nat) < pos,
            next_pow <= 2 * (n + 1),
            res@.len() == nonpow_upto((pos - 1) as nat).len(),
            forall|j: int|
                0 <= j < res@.len() ==> res@[j] as int == nonpow_upto((pos - 1) as nat)[j],
        decreases n + 1 - pos,
    {
        if pos == next_pow {
            proof {
                assert(is_power_of_two(pos as int));
                assert(nonpow_upto(pos as nat) == nonpow_upto((pos - 1) as nat));
                assert(pow2(e + 1) == 2 * pow2(e)) by {
                    vstd::arithmetic::power2::lemma_pow2_adds(1, e);
                    lemma2_to64();
                }
                e = e + 1;
            }
            next_pow = next_pow * 2;
        } else {
            proof {
                if e == 0 {
                    assert(pow2(0) == 1) by {
                        lemma2_to64();
                    }
                    assert(false);
                }
                lemma_no_power_between((e - 1) as nat, pos as int);
                assert(nonpow_upto(pos as nat) == nonpow_upto((pos - 1) as nat).push(pos as int));
            }
            res.push(pos);
        }
        pos = pos + 1;
    }
    res
}

} // verus!
