//! Binary decomposition of position indices: the bit `b` of an index, the
//! injectivity of bit patterns, and the bits of exact powers of two. These
//! facts drive both the Hamming syndrome rule and the uniqueness of the
//! systematic parity-check columns.

use vstd::prelude::*;
use vstd::arithmetic::power2::{
    pow2, lemma2_to64, lemma_pow2_adds, lemma_pow2_pos, lemma_pow2_subtracts,
};
use vstd::arithmetic::div_mod::{
    lemma_basic_div, lemma_div_denominator, lemma_fundamental_div_mod,
    lemma_mod_multiples_vanish,
};
use crate::linalg::zero_vector;
use crate::params::lemma_pow2_le;

verus! {

/// Bit `b` of the binary representation of `v`.
pub open spec fn bit_of(v: int, b: nat) -> bool {
    ((v / pow2(b) as int) % 2) == 1
}

/// Zero has no bits set.
pub proof fn lemma_bit_of_zero(b: nat)
    ensures
        !bit_of(0, b),
{
    lemma_pow2_pos(b);
}

/// A value below `2^b` has bit `b` (and all higher bits) clear.
pub proof fn lemma_bit_of_low(v: nat, b: nat)
    requires
        v < pow2(b),
    ensures
        !bit_of(v as int, b),
{
    lemma_pow2_pos(b);
    lemma_basic_div(v as int, pow2(b) as int);
}

/// Halving a value shifts its bits down by one.
pub proof fn lemma_bit_shift(v: nat, b: nat)
    ensures
        bit_of(v as int / 2, b) == bit_of(v as int, b + 1),
{
    lemma_pow2_pos(b);
    lemma_div_denominator(v as int, 2, pow2(b) as int);
    lemma_pow2_adds(1, b);
    lemma2_to64();
}

/// Two values below `2^p` that agree on bits `0..p` are equal.
pub proof fn lemma_bits_inj(a: nat, b: nat, p: nat)
    requires
        a < pow2(p),
        b < pow2(p),
        forall|t: nat| t < p ==> bit_of(a as int, t) == bit_of(b as int, t),
    ensures
        a == b,
    decreases p,
{
    if p == 0 {
        assert(pow2(0) == 1) by {
            lemma2_to64();
        }
    } else {
        assert(pow2(0) == 1 && pow2(1) == 2) by {
            lemma2_to64();
        }
        assert(bit_of(a as int, 0) == (a as int % 2 == 1));
        assert(bit_of(b as int, 0) == (b as int % 2 == 1));
        assert(bit_of(a as int, 0) == bit_of(b as int, 0));
        lemma_fundamental_div_mod(a as int, 2);
        lemma_fundamental_div_mod(b as int, 2);
        assert(pow2(p) == 2 * pow2((p - 1) as nat)) by {
            lemma_pow2_adds(1, (p - 1) as nat);
        }
        let a2 = (a / 2) as nat;
        let b2 = (b / 2) as nat;
        assert(a2 < pow2((p - 1) as nat));
        assert(b2 < pow2((p - 1) as nat));
        assert forall|t: nat| t < (p - 1) as nat implies bit_of(a2 as int, t) == bit_of(
            b2 as int,
            t,
        ) by {
            lemma_bit_shift(a, t);
            lemma_bit_shift(b, t);
            assert(bit_of(a as int, t + 1) == bit_of(b as int, t + 1));
        }
        lemma_bits_inj(a2, b2, (p - 1) as nat);
        assert(a % 2 == b % 2);
    }
}

/// The bits of an exact power of two: only bit `i` of `2^i` is set.
pub proof fn lemma_pow2_bit(i: nat, t: nat)
    ensures
        bit_of(pow2(i) as int, t) == (i == t),
{
    lemma_pow2_pos(i);
    lemma_pow2_pos(t);
    if t == i {
        assert(pow2(i) as int / pow2(i) as int == 1) by {
            vstd::arithmetic::div_mod::lemma_div_by_self(pow2(i) as int);
        }
    } else if t < i {
        assert(pow2(i) / pow2(t) == pow2((i - t) as nat)) by {
            lemma_pow2_subtracts(t, i);
        }
        assert(pow2((i - t) as nat) == 2 * pow2((i - t - 1) as nat)) by {
            lemma_pow2_adds(1, (i - t - 1) as nat);
            lemma2_to64();
        }
        assert((2 * pow2((i - t - 1) as nat)) as int % 2 == 0) by {
            lemma_mod_multiples_vanish(pow2((i - t - 1) as nat) as int, 0, 2);
        }
    } else {
        assert(pow2(i) < pow2(t)) by {
            lemma_pow2_le(i + 1, t);
            lemma_pow2_adds(1, i);
            lemma2_to64();
        }
        lemma_bit_of_low(pow2(i), t);
    }
}

/// The low `p` bits of `v` as a bit vector, least significant first.
pub open spec fn bits_vec(v: int, p: nat) -> Seq<bool> {
    Seq::new(p, |r: int| bit_of(v, r as nat))
}

/// Two equal-length bit patterns that agree bitwise come from the same
/// value.
pub proof fn lemma_bits_vec_inj(a: nat, b: nat, p: nat)
    requires
        a < pow2(p),
        b < pow2(p),
        bits_vec(a as int, p) == bits_vec(b as int, p),
    ensures
        a == b,
{
    assert forall|t: nat| t < p implies bit_of(a as int, t) == bit_of(b as int, t) by {
        assert(bits_vec(a as int, p)[t as int] == bit_of(a as int, (t as int) as nat));
        assert(bits_vec(b as int, p)[t as int] == bit_of(b as int, (t as int) as nat));
    }
    lemma_bits_inj(a, b, p);
}

/// The bit pattern of a non-zero value below `2^p` is not the zero vector.
pub proof fn lemma_bits_vec_nonzero(a: nat, p: nat)
    requires
        1 <= a < pow2(p),
    ensures
        bits_vec(a as int, p) != zero_vector(p),
{
    if bits_vec(a as int, p) == zero_vector(p) {
        assert(bits_vec(0, p) =~= zero_vector(p)) by {
            assert forall|t: int| 0 <= t < p implies bits_vec(0, p)[t] == false by {
                lemma_bit_of_zero(t as nat);
            }
        }
        vstd::arithmetic::power2::lemma_pow2_pos(p);
        lemma_bits_vec_inj(a, 0, p);
    }
}

/// The value encoded by a bit vector, least significant bit first.
pub open spec fn bits_value(s: Seq<bool>) -> nat
    decreases s.len(),
{
    if s.len() == 0 {
        0
    } else {
        bits_value(s.drop_last()) + if s.last() {
            pow2((s.len() - 1) as nat)
        } else {
            0
        }
    }
}

pub proof fn lemma_bits_value_step(s: Seq<bool>, i: int)
    requires
        0 <= i < s.len(),
    ensures
        bits_value(s.take(i + 1)) == bits_value(s.take(i)) + if s[i] {
            pow2(i as nat)
        } else {
            0
        },
{
    assert(s.take(i + 1).drop_last() =~= s.take(i));
    assert(s.take(i + 1).last() == s[i]);
}

/// The value of the low `q` bits of `v` is `v` modulo `2^q`.
pub proof fn lemma_bits_value_of_bits_vec(v: nat, q: nat)
    ensures
        bits_value(bits_vec(v as int, q)) == v % pow2(q),
    decreases q,
{
    if q == 0 {
        assert(pow2(0) == 1) by {
            lemma2_to64();
        }
        assert(v as int % 1 == 0) by {
            vstd::arithmetic::div_mod::lemma_mod_multiples_basic(v as int, 1);
        }
    } else {
        lemma_bits_value_of_bits_vec(v, (q - 1) as nat);
        assert(bits_vec(v as int, q).drop_last() =~= bits_vec(v as int, (q - 1) as nat));
        assert(bits_vec(v as int, q).last() == bit_of(v as int, (q - 1) as nat));
        lemma_pow2_pos((q - 1) as nat);
        assert(pow2(q) == pow2((q - 1) as nat) * 2) by {
            lemma_pow2_adds((q - 1) as nat, 1);
            lemma2_to64();
        }
        vstd::arithmetic::div_mod::lemma_breakdown(v as int, pow2((q - 1) as nat) as int, 2);
        let y = pow2((q - 1) as nat) as int;
        assert(v as int % (y * 2) == y * ((v as int / y) % 2) + v as int % y);
        assert(pow2(q) as int == y * 2);
        assert(v as int % pow2(q) as int == y * ((v as int / y) % 2) + v as int % y);
        assert(bits_value(bits_vec(v as int, q)) == bits_value(bits_vec(v as int, (q - 1) as nat))
            + if bit_of(v as int, (q - 1) as nat) {
            pow2((q - 1) as nat)
        } else {
            0
        });
        let w = (v as int / y) % 2;
        if bit_of(v as int, (q - 1) as nat) {
            assert(w == 1);
            assert(y * w == y) by (nonlinear_arith)
                requires
                    w == 1,
            ;
        } else {
            assert(0 <= w < 2) by {
                vstd::arithmetic::div_mod::lemma_mod_division_less_than_divisor(v as int / y, 2);
            }
            assert(w == 0);
            assert(y * w == 0) by (nonlinear_arith)
                requires
                    w == 0,
            ;
        }
    }
}

/// Computes `2^e` for the small exponents the engine uses.
pub fn pow2_usize(e: usize) -> (r: usize)
    requires
        e <= 16,
    ensures
        r == pow2(e as nat),
{
    let mut r: usize = 1;
    let mut i: usize = 0;
    proof {
        lemma2_to64();
    }
    while i < e
        invariant
            i <= e <= 16,
            r == pow2(i as nat),
            r <= 65536,
        decreases e - i,
    {
        proof {
            lemma_pow2_adds(1, i as nat);
            lemma2_to64();
            lemma_pow2_le(i as nat + 1, 16);
        }
        r = r * 2;
        i = i + 1;
    }
    r
}

} // verus!
