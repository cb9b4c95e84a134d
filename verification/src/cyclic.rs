//! The cyclic code: systematic encoding by polynomial division modulo a
//! generator polynomial over GF(2), and table-driven syndrome decoding.
//! Words are bit vectors with the highest-degree coefficient first, so a
//! codeword's first `k` bits are the message and its last `p` bits the
//! remainder; the syndrome of a received word is its remainder modulo the
//! generator polynomial, and a precomputed table maps each single-bit
//! error pattern's syndrome to its position.

use vstd::prelude::*;
use crate::linalg::{bits_equal, copy_bits, flip, flip_bit, lemma_flip_involution, zero_vector};
use crate::params::{
    lemma_bound_monotone, satisfies_hamming_bound, MAX_MESSAGE_LEN,
};

verus! {

/// Outcome of syndrome decoding a received word of a cyclic code.
#[derive(Clone, Copy, PartialEq, Eq, Structural, Debug)]
pub enum CyclicErrorInfo {
    /// The remainder modulo the generator polynomial is zero: the word is
    /// a valid codeword.
    NoError,
    /// The syndrome matches the table entry of exactly one single-bit
    /// error pattern: a single error at that (0-indexed) position, which
    /// decoding flips back.
    SingleError(usize),
    /// The syndrome is non-zero but appears nowhere in the table: more
    /// corruption than a single bit; the word is returned unchanged.
    Uncorrectable,
}

/// One row of the syndrome lookup table: the syndrome produced by a
/// single-bit error at the given word position.
pub struct SyndromeEntry {
    /// The remainder of that error pattern modulo the generator
    /// polynomial.
    pub syndrome: Vec<bool>,
    /// The 0-indexed error position the syndrome identifies.
    pub position: usize,
}

/// A single-error-correcting cyclic code.
pub struct CyclicCode {
    /// Message length.
    pub k: usize,
    /// Codeword length.
    pub n: usize,
    /// Degree of the generator polynomial (number of parity bits).
    pub p: usize,
    /// The monic generator polynomial, highest coefficient first
    /// (`p + 1` bits).
    pub generator_polynomial: Vec<bool>,
    /// One entry per single-bit error pattern, in position order.
    pub syndrome_table: Vec<SyndromeEntry>,
}

/// Coefficient `idx` of the generator polynomial, zero past its end.
pub open spec fn gcoef(g: Seq<bool>, idx: int) -> bool {
    if 0 <= idx < g.len() {
        g[idx]
    } else {
        false
    }
}

/// One division step: cancels the leading coefficient of `a` by adding
/// (XOR-ing) the generator, aligned at the front, and drops that leading
/// position.
pub open spec fn reduce_step(a: Seq<bool>, g: Seq<bool>) -> Seq<bool>
    recommends
        a.len() >= 1,
{
    Seq::new((a.len() - 1) as nat, |i: int| a[i + 1] ^ (a[0] && gcoef(g, i + 1)))
}

/// The remainder of the polynomial `a` modulo the monic polynomial `g`
/// (highest coefficient first), always `g.len() - 1` bits long.
pub open spec fn pmod(a: Seq<bool>, g: Seq<bool>) -> Seq<bool>
    recommends
        g.len() >= 1,
        g[0],
    decreases a.len(),
{
    if g.len() == 0 {
        a
    } else if a.len() < g.len() {
        zero_vector((g.len() - 1 - a.len()) as nat) + a
    } else {
        pmod(reduce_step(a, g), g)
    }
}

/// Pointwise XOR of two equally long bit vectors.
pub open spec fn xor_seq(a: Seq<bool>, b: Seq<bool>) -> Seq<bool>
    recommends
        a.len() == b.len(),
{
    Seq::new(a.len(), |i: int| a[i] ^ b[i])
}

/// The unit word of length `n` with a single one at index `idx`.
pub open spec fn unit_word(n: nat, idx: int) -> Seq<bool> {
    Seq::new(n, |l: int| l == idx)
}

pub proof fn lemma_pmod_len(a: Seq<bool>, g: Seq<bool>)
    requires
        g.len() >= 1,
    ensures
        pmod(a, g).len() == g.len() - 1,
    decreases a.len(),
{
    if a.len() >= g.len() {
        lemma_pmod_len(reduce_step(a, g), g);
    }
}

/// Remainder is linear: the remainder of an XOR is the XOR of the
/// remainders.
pub proof fn lemma_pmod_linear(a: Seq<bool>, b: Seq<bool>, g: Seq<bool>)
    requires
        g.len() >= 1,
        a.len() == b.len(),
    ensures
        pmod(xor_seq(a, b), g) == xor_seq(pmod(a, g), pmod(b, g)),
    decreases a.len(),
{
    let x = xor_seq(a, b);
    assert(x.len() == a.len());
    if a.len() < g.len() {
        assert(pmod(x, g) =~= xor_seq(pmod(a, g), pmod(b, g)));
    } else {
        assert(reduce_step(x, g) =~= xor_seq(reduce_step(a, g), reduce_step(b, g)));
        lemma_pmod_linear(reduce_step(a, g), reduce_step(b, g), g);
    }
}

/// A leading zero coefficient can be dropped without changing the
/// remainder.
pub proof fn lemma_pmod_drop_first_zero(a: Seq<bool>, g: Seq<bool>)
    requires
        g.len() >= 1,
        a.len() >= 1,
        !a[0],
    ensures
        pmod(a, g) == pmod(a.skip(1), g),
{
    if a.len() < g.len() {
        assert(pmod(a, g) =~= pmod(a.skip(1), g));
    } else {
        assert(reduce_step(a, g) =~= a.skip(1));
    }
}

/// A prefix of zeros does not change the remainder.
pub proof fn lemma_pmod_zeros_prefix(m: nat, a: Seq<bool>, g: Seq<bool>)
    requires
        g.len() >= 1,
    ensures
        pmod(zero_vector(m) + a, g) == pmod(a, g),
    decreases m,
{
    if m > 0 {
        let z = zero_vector(m) + a;
        assert(!z[0]);
        lemma_pmod_drop_first_zero(z, g);
        assert(z.skip(1) =~= zero_vector((m - 1) as nat) + a);
        lemma_pmod_zeros_prefix((m - 1) as nat, a, g);
    } else {
        assert(zero_vector(0) + a =~= a);
    }
}

/// A polynomial already shorter than the generator is its own remainder.
pub proof fn lemma_pmod_identity(a: Seq<bool>, g: Seq<bool>)
    requires
        g.len() >= 1,
        a.len() == g.len() - 1,
    ensures
        pmod(a, g) == a,
{
    assert(pmod(a, g) =~= a);
}

/// The generator polynomial used for `p` parity bits, highest coefficient
/// first: a primitive polynomial of degree `p`, so the syndromes of the
/// `n <= 2^p - 1` single-bit error patterns are pairwise distinct and
/// non-zero (which construction re-checks rather than assumes).
pub open spec fn generator_poly_spec(p: nat) -> Seq<bool> {
    if p == 2 {
        seq![true, true, true]
    } else if p == 3 {
        seq![true, false, true, true]
    } else if p == 4 {
        seq![true, false, false, true, true]
    } else if p == 5 {
        seq![true, false, false, true, false, true]
    } else if p == 6 {
        seq![true, false, false, false, false, true, true]
    } else if p == 7 {
        seq![true, false, false, false, true, false, false, true]
    } else if p == 8 {
        seq![true, false, false, false, true, true, true, false, true]
    } else {
        Seq::empty()
    }
}

/// The syndromes of all `n` single-bit error patterns are pairwise
/// distinct and non-zero under the degree-`p` generator polynomial: the
/// invariant that makes the code single-error-correcting.
pub open spec fn cyclic_table_ok(n: nat, p: nat) -> bool {
    &&& forall|i: int|
        0 <= i < n ==> #[trigger] pmod(unit_word(n, i), generator_poly_spec(p)) != zero_vector(p)
    &&& forall|i1: int, i2: int|
        0 <= i1 < i2 < n ==> pmod(unit_word(n, i1), generator_poly_spec(p)) != pmod(
            unit_word(n, i2),
            generator_poly_spec(p),
        )
}

impl CyclicCode {
    /// `(n, p)` agree with the minimal-parity derivation for `k`, the
    /// generator polynomial is the monic degree-`p` one the engine uses,
    /// and the syndrome table lists the distinct non-zero syndrome of each
    /// single-bit error pattern, in position order.
    pub open spec fn wf(&self) -> bool {
        &&& 1 <= self.k <= MAX_MESSAGE_LEN
        &&& self.n == self.k + self.p
        &&& 2 <= self.p <= 8
        &&& satisfies_hamming_bound(self.k as nat, self.p as nat)
        &&& !satisfies_hamming_bound(self.k as nat, (self.p - 1) as nat)
        &&& self.generator_polynomial@ == generator_poly_spec(self.p as nat)
        &&& self.generator_polynomial@.len() == self.p + 1
        &&& self.generator_polynomial@[0]
        &&& self.syndrome_table@.len() == self.n
        &&& forall|i: int|
            0 <= i < self.n ==> (#[trigger] self.syndrome_table@[i]).position == i
        &&& forall|i: int|
            0 <= i < self.n ==> (#[trigger] self.syndrome_table@[i]).syndrome@ == pmod(
                unit_word(self.n as nat, i),
                self.generator_polynomial@,
            )
        &&& cyclic_table_ok(self.n as nat, self.p as nat)
    }
}

proof fn lemma_generator_poly_shape(p: nat)
    requires
        2 <= p <= 8,
    ensures
        generator_poly_spec(p).len() == p + 1,
        generator_poly_spec(p)[0],
{
}

/// Computes the remainder of `a` modulo the monic polynomial `g` by long
/// division, highest coefficient first.
fn poly_mod_exec(a: &Vec<bool>, g: &Vec<bool>) -> (r: Vec<bool>)
    requires
        g@.len() >= 1,
        g@[0],
        a@.len() >= g@.len() - 1,
        a@.len() < usize::MAX,
    ensures
        r@ == pmod(a@, g@),
{
    let la = a.len();
    let lg = g.len();
    let mut w = copy_bits(a);
    let mut idx: usize = 0;
    proof {
        assert(w@.skip(0) =~= a@);
    }
    while idx + lg <= la
        invariant
            lg >= 1,
            g@[0],
            g@.len() == lg,
            la == a@.len(),
            la < usize::MAX,
            la >= lg - 1,
            w@.len() == la,
            0 <= idx,
            idx + lg <= la + 1,
            pmod(w@.skip(idx as int), g@) == pmod(a@, g@),
        decreases la - idx,
    {
        let ghost wpre = w@;
        if w[idx] {
            let mut j: usize = 1;
            while j < lg
                invariant
                    lg >= 1,
                    la == w@.len(),
                    idx + lg <= la,
                    1 <= j <= lg,
                    g@.len() == lg,
                    wpre.len() == la,
                    forall|l: int| 0 <= l <= idx ==> #[trigger] w@[l] == wpre[l],
                    forall|l: int|
                        idx < l < idx + j ==> #[trigger] w@[l] == (wpre[l] ^ (wpre[idx as int]
                            && g@[l - idx])),
                    forall|l: int| idx + j <= l < la ==> #[trigger] w@[l] == wpre[l],
                    wpre[idx as int],
                decreases lg - j,
            {
                let bit = w[idx + j] ^ g[j];
                w.set(idx + j, bit);
                proof {
                    assert(wpre[idx + j] == wpre[(idx + j) as int]);
                }
                j = j + 1;
            }
        }
        proof {
            let x = wpre.skip(idx as int);
            assert(x.len() == la - idx >= lg);
            assert(x[0] == wpre[idx as int]);
            assert(reduce_step(x, g@) =~= w@.skip(idx as int + 1)) by {
                assert forall|i: int| 0 <= i < la - idx - 1 implies #[trigger] w@.skip(
                    idx as int + 1,
                )[i] == (x[i + 1] ^ (x[0] && gcoef(g@, i + 1))) by {
                    assert(w@.skip(idx as int + 1)[i] == w@[idx + 1 + i]);
                    assert(x[i + 1] == wpre[idx + 1 + i]);
                    if wpre[idx as int] {
                        if i + 1 < lg {
                            assert(w@[idx + 1 + i] == (wpre[idx + 1 + i] ^ (wpre[idx as int]
                                && g@[i + 1])));
                        } else {
                            assert(w@[idx + 1 + i] == wpre[idx + 1 + i]);
                        }
                    } else {
                        assert(w@[idx + 1 + i] == wpre[idx + 1 + i]);
                    }
                }
            }
            assert(pmod(x, g@) == pmod(reduce_step(x, g@), g@));
        }
        idx = idx + 1;
    }
    let mut r: Vec<bool> = Vec::new();
    let mut t: usize = 0;
    while t < lg - 1
        invariant
            lg >= 1,
            w@.len() == la,
            idx + lg == la + 1,
            0 <= t <= lg - 1,
            r@.len() == t,
            forall|l: int| 0 <= l < t ==> r@[l] == w@[idx + l],
        decreases lg - 1 - t,
    {
        r.push(w[idx + t]);
        t = t + 1;
    }
    proof {
        assert(r@ =~= w@.skip(idx as int));
        assert(w@.skip(idx as int).len() == lg - 1);
        lemma_pmod_identity(w@.skip(idx as int), g@);
    }
    r
}

/// Builds the generator polynomial for `p` parity bits as a bit vector.
fn generator_polynomial_of(p: usize) -> (r: Vec<bool>)
    requires
        2 <= p <= 8,
    ensures
        r@ == generator_poly_spec(p as nat),
{
    let mut v: Vec<bool> = Vec::new();
    if p == 2 {
        v.push(true);
        v.push(true);
        v.push(true);
    } else if p == 3 {
        v.push(true);
        v.push(false);
        v.push(true);
        v.push(true);
    } else if p == 4 {
        v.push(true);
        v.push(false);
        v.push(false);
        v.push(true);
        v.push(true);
    } else if p == 5 {
        v.push(true);
        v.push(false);
        v.push(false);
        v.push(true);
        v.push(false);
        v.push(true);
    } else if p == 6 {
        v.push(true);
        v.push(false);
        v.push(false);
        v.push(false);
        v.push(false);
        v.push(true);
        v.push(true);
    } else if p == 7 {
        v.push(true);
        v.push(false);
        v.push(false);
        v.push(false);
        v.push(true);
        v.push(false);
        v.push(false);
        v.push(true);
    } else {
        v.push(true);
        v.push(false);
        v.push(false);
        v.push(false);
        v.push(true);
        v.push(true);
        v.push(true);
        v.push(false);
        v.push(true);
    }
    proof {
        assert(v@ =~= generator_poly_spec(p as nat));
    }
    v
}

/// Builds the length-`n` word with a single one at `idx`.
fn unit_word_exec(n: usize, idx: usize) -> (e: Vec<bool>)
    requires
        idx < n,
    ensures
        e@ == unit_word(n as nat, idx as int),
{
    let mut e: Vec<bool> = Vec::new();
    let mut l: usize = 0;
    while l < n
        invariant
            0 <= l <= n,
            e@.len() == l,
            forall|t: int| 0 <= t < l ==> e@[t] == (t == idx as int),
        decreases n - l,
    {
        e.push(l == idx);
        l = l + 1;
    }
    proof {
        assert(e@ =~= unit_word(n as nat, idx as int));
    }
    e
}

/// Creates the cyclic code for message length `k`: derives `(n, p)`,
/// chooses the degree-`p` generator polynomial, and builds the syndrome
/// table by reducing every single-bit error pattern modulo the generator.
/// Construction verifies rather than assumes that the table's syndromes
/// are pairwise distinct and non-zero, and fails if the derived degree is
/// outside the supported range or the check finds a collision.
pub fn create_cyclic_code(k: usize) -> (res: Option<CyclicCode>)
    requires
        1 <= k <= MAX_MESSAGE_LEN,
    ensures
        match res {
            Some(code) => code.wf() && code.k == k,
            None => forall|q: nat|
                #[trigger] satisfies_hamming_bound(k as nat, q) && !satisfies_hamming_bound(
                    k as nat,
                    (q - 1) as nat,
                ) && 2 <= q <= 8 ==> !cyclic_table_ok((k + q) as nat, q),
        },
{
    let (n, p) = crate::params::compute_n_from_k(k);
    if p > 8 {
        proof {
            assert forall|q: nat|
                #[trigger] satisfies_hamming_bound(k as nat, q) && !satisfies_hamming_bound(
                    k as nat,
                    (q - 1) as nat,
                ) && 2 <= q <= 8 implies !cyclic_table_ok((k + q) as nat, q) by {
                if q < p {
                    lemma_bound_monotone(k as nat, q, (p - 1) as nat);
                    assert(false);
                }
            }
        }
        return None;
    }
    let gp = generator_polynomial_of(p);
    proof {
        lemma_generator_poly_shape(p as nat);
    }
    let mut table: Vec<SyndromeEntry> = Vec::new();
    let mut idx: usize = 0;
    while idx < n
        invariant
            2 <= p <= 8,
            k < n,
            n == k + p,
            n <= MAX_MESSAGE_LEN + 11,
            gp@ == generator_poly_spec(p as nat),
            gp@.len() == p + 1,
            gp@[0],
            0 <= idx <= n,
            table@.len() == idx,
            forall|i: int| 0 <= i < idx ==> (#[trigger] table@[i]).position == i,
            forall|i: int|
                0 <= i < idx ==> (#[trigger] table@[i]).syndrome@ == pmod(
                    unit_word(n as nat, i),
                    gp@,
                ),
        decreases n - idx,
    {
        let e = unit_word_exec(n, idx);
        let s = poly_mod_exec(&e, &gp);
        table.push(SyndromeEntry { syndrome: s, position: idx });
        idx = idx + 1;
    }
    // Verify the single-error-correcting invariant instead of assuming it:
    // every syndrome non-zero, and no two alike.
    let mut i: usize = 0;
    while i < n
        invariant
            2 <= p <= 8,
            1 <= k <= MAX_MESSAGE_LEN,
            k < n,
            n == k + p,
            gp@ == generator_poly_spec(p as nat),
            gp@.len() == p + 1,
            gp@[0],
            table@.len() == n,
            forall|l: int| 0 <= l < n ==> (#[trigger] table@[l]).position == l,
            forall|l: int|
                0 <= l < n ==> (#[trigger] table@[l]).syndrome@ == pmod(
                    unit_word(n as nat, l),
                    gp@,
                ),
            satisfies_hamming_bound(k as nat, p as nat),
            !satisfies_hamming_bound(k as nat, (p - 1) as nat),
            0 <= i <= n,
            forall|l: int|
                0 <= l < i ==> #[trigger] pmod(unit_word(n as nat, l), gp@) != zero_vector(
                    p as nat,
                ),
        decreases n - i,
    {
        if crate::systematic::all_false(&table[i].syndrome) {
            proof {
                assert(pmod(unit_word(n as nat, i as int), gp@) == zero_vector(p as nat)) by {
                    lemma_pmod_len(unit_word(n as nat, i as int), gp@);
                    assert(table@[i as int].syndrome@.len() == p);
                }
                assert(!cyclic_table_ok(n as nat, p as nat));
                assert forall|q: nat|
                    #[trigger] satisfies_hamming_bound(k as nat, q)
                        && !satisfies_hamming_bound(k as nat, (q - 1) as nat) && 2 <= q <= 8
                    implies !cyclic_table_ok((k + q) as nat, q) by {
                    if q < p {
                        lemma_bound_monotone(k as nat, q, (p - 1) as nat);
                        assert(false);
                    }
                    if q > p {
                        lemma_bound_monotone(k as nat, p as nat, (q - 1) as nat);
                        assert(false);
                    }
                }
            }
            return None;
        }
        i = i + 1;
    }
    let mut i2: usize = 1;
    while i2 < n
        invariant
            2 <= p <= 8,
            1 <= k <= MAX_MESSAGE_LEN,
            k < n,
            n == k + p,
            gp@ == generator_poly_spec(p as nat),
            gp@.len() == p + 1,
            gp@[0],
            table@.len() == n,
            forall|l: int| 0 <= l < n ==> (#[trigger] table@[l]).position == l,
            forall|l: int|
                0 <= l < n ==> (#[trigger] table@[l]).syndrome@ == pmod(
                    unit_word(n as nat, l),
                    gp@,
                ),
            satisfies_hamming_bound(k as nat, p as nat),
            !satisfies_hamming_bound(k as nat, (p - 1) as nat),
            forall|l: int|
                0 <= l < n ==> #[trigger] pmod(unit_word(n as nat, l), gp@) != zero_vector(
                    p as nat,
                ),
            1 <= i2 <= n,
            forall|l1: int, l2: int|
                0 <= l1 < l2 < i2 ==> pmod(unit_word(n as nat, l1), gp@) != pmod(
                    unit_word(n as nat, l2),
                    gp@,
                ),
        decreases n - i2,
    {
        let mut i1: usize = 0;
        while i1 < i2
            invariant
                2 <= p <= 8,
                k < n,
                n == k + p,
                gp@ == generator_poly_spec(p as nat),
                table@.len() == n,
                forall|l: int|
                    0 <= l < n ==> (#[trigger] table@[l]).syndrome@ == pmod(
                        unit_word(n as nat, l),
                        gp@,
                    ),
                satisfies_hamming_bound(k as nat, p as nat),
                !satisfies_hamming_bound(k as nat, (p - 1) as nat),
                1 <= i2 < n,
                0 <= i1 <= i2,
                forall|l1: int, l2: int|
                    0 <= l1 < l2 < i2 ==> pmod(unit_word(n as nat, l1), gp@) != pmod(
                        unit_word(n as nat, l2),
                        gp@,
                    ),
                forall|l1: int|
                    0 <= l1 < i1 ==> pmod(unit_word(n as nat, l1), gp@) != pmod(
                        unit_word(n as nat, i2 as int),
                        gp@,
                    ),
            decreases i2 - i1,
        {
            if bits_equal(&table[i1].syndrome, &table[i2].syndrome) {
                proof {
                    assert(pmod(unit_word(n as nat, i1 as int), gp@) == pmod(
                        unit_word(n as nat, i2 as int),
                        gp@,
                    ));
                    assert(!cyclic_table_ok(n as nat, p as nat));
                    assert forall|q: nat|
                        #[trigger] satisfies_hamming_bound(k as nat, q)
                            && !satisfies_hamming_bound(k as nat, (q - 1) as nat) && 2 <= q
                            <= 8 implies !cyclic_table_ok((k + q) as nat, q) by {
                        if q < p {
                            lemma_bound_monotone(k as nat, q, (p - 1) as nat);
                            assert(false);
                        }
                        if q > p {
                            lemma_bound_monotone(k as nat, p as nat, (q - 1) as nat);
                            assert(false);
                        }
                    }
                }
                return None;
            }
            i1 = i1 + 1;
        }
        i2 = i2 + 1;
    }
    Some(CyclicCode { k, n, p, generator_polynomial: gp, syndrome_table: table })
}

/// Systematic cyclic encoding at the specification level: the message
/// followed by the remainder of the message shifted left by `p` (the
/// generator's degree), so the whole codeword is divisible by the
/// generator.
pub open spec fn encode_cyclic_spec(m: Seq<bool>, g: Seq<bool>) -> Seq<bool> {
    m + pmod(m + zero_vector((g.len() - 1) as nat), g)
}

/// A codeword of the cyclic code carries the message in its first `k`
/// bits and leaves remainder zero modulo the generator polynomial.
pub proof fn lemma_encode_cyclic_codeword(m: Seq<bool>, g: Seq<bool>)
    requires
        g.len() >= 1,
        g[0],
    ensures
        encode_cyclic_spec(m, g).len() == m.len() + g.len() - 1,
        encode_cyclic_spec(m, g).take(m.len() as int) == m,
        pmod(encode_cyclic_spec(m, g), g) == zero_vector((g.len() - 1) as nat),
{
    let p = (g.len() - 1) as nat;
    let shifted = m + zero_vector(p);
    let rem = pmod(shifted, g);
    lemma_pmod_len(shifted, g);
    let c = encode_cyclic_spec(m, g);
    assert(c.take(m.len() as int) =~= m);
    let z = zero_vector(m.len() as nat) + rem;
    assert(c =~= xor_seq(shifted, z));
    lemma_pmod_linear(shifted, z, g);
    lemma_pmod_zeros_prefix(m.len() as nat, rem, g);
    lemma_pmod_identity(rem, g);
    assert(xor_seq(rem, rem) =~= zero_vector(p));
    assert(pmod(c, g) == zero_vector(p));
}

/// Encodes a message systematically: shifts it left by `p`, computes the
/// remainder modulo the generator polynomial, and appends that remainder,
/// making the codeword exactly divisible by the generator.
pub fn encode_cyclic(message: &Vec<bool>, code: &CyclicCode) -> (cw: Vec<bool>)
    requires
        code.wf(),
        message@.len() == code.k,
    ensures
        cw@ == encode_cyclic_spec(message@, code.generator_polynomial@),
        cw@.len() == code.n,
        cw@.take(code.k as int) == message@,
        pmod(cw@, code.generator_polynomial@) == zero_vector(code.p as nat),
{
    let p = code.p;
    let mut shifted = copy_bits(message);
    let mut t: usize = 0;
    while t < p
        invariant
            0 <= t <= p,
            shifted@.len() == message@.len() + t,
            shifted@.take(message@.len() as int) == message@,
            forall|l: int| message@.len() <= l < shifted@.len() ==> !#[trigger] shifted@[l],
        decreases p - t,
    {
        proof {
            assert(shifted@.push(false).take(message@.len() as int) =~= shifted@.take(
                message@.len() as int,
            ));
        }
        shifted.push(false);
        t = t + 1;
    }
    proof {
        assert(shifted@ =~= message@ + zero_vector(p as nat));
    }
    let rem = poly_mod_exec(&shifted, &code.generator_polynomial);
    proof {
        lemma_pmod_len(shifted@, code.generator_polynomial@);
    }
    let mut cw = copy_bits(message);
    let mut t2: usize = 0;
    while t2 < rem.len()
        invariant
            rem@.len() == p,
            0 <= t2 <= rem@.len(),
            cw@.len() == message@.len() + t2,
            cw@.take(message@.len() as int) == message@,
            forall|l: int|
                message@.len() <= l < cw@.len() ==> #[trigger] cw@[l] == rem@[l
                    - message@.len()],
        decreases rem@.len() - t2,
    {
        proof {
            assert(cw@.push(rem@[t2 as int]).take(message@.len() as int) =~= cw@.take(
                message@.len() as int,
            ));
        }
        let bit = rem[t2];
        cw.push(bit);
        t2 = t2 + 1;
    }
    proof {
        assert(cw@ =~= message@ + rem@);
        lemma_encode_cyclic_codeword(message@, code.generator_polynomial@);
    }
    cw
}

/// Computes the syndrome of a received word: its remainder modulo the
/// generator polynomial.
pub fn compute_syndrome_cyclic(received: &Vec<bool>, code: &CyclicCode) -> (s: Vec<bool>)
    requires
        code.wf(),
        received@.len() == code.n,
    ensures
        s@ == pmod(received@, code.generator_polynomial@),
        s@.len() == code.p,
{
    let s = poly_mod_exec(received, &code.generator_polynomial);
    proof {
        lemma_pmod_len(received@, code.generator_polynomial@);
    }
    s
}

/// Pads a syndrome polynomial to a fixed bit width for display, zeros in
/// front.
pub fn polynomial_to_bits(poly: &Vec<bool>, width: usize) -> (r: Vec<bool>)
    requires
        poly@.len() <= width,
    ensures
        r@ == zero_vector((width - poly@.len()) as nat) + poly@,
{
    let pad = width - poly.len();
    let mut r: Vec<bool> = Vec::new();
    let mut t: usize = 0;
    while t < pad
        invariant
            0 <= t <= pad,
            r@.len() == t,
            forall|l: int| 0 <= l < t ==> !#[trigger] r@[l],
        decreases pad - t,
    {
        r.push(false);
        t = t + 1;
    }
    let mut t2: usize = 0;
    while t2 < poly.len()
        invariant
            pad + poly@.len() <= width,
            0 <= t2 <= poly@.len(),
            r@.len() == pad + t2,
            forall|l: int| 0 <= l < pad ==> !#[trigger] r@[l],
            forall|l: int| pad <= l < r@.len() ==> #[trigger] r@[l] == poly@[l - pad],
        decreases poly@.len() - t2,
    {
        let bit = poly[t2];
        r.push(bit);
        t2 = t2 + 1;
    }
    proof {
        assert(r@ =~= zero_vector((width - poly@.len()) as nat) + poly@);
    }
    r
}

/// Syndrome decoding at the specification level: a zero remainder means
/// no error; a remainder equal to the syndrome of some single-bit error
/// pattern means a single error at that position, which is flipped; any
/// other non-zero remainder is uncorrectable and leaves the word
/// unchanged.
pub open spec fn decode_cyclic_spec(r: Seq<bool>, g: Seq<bool>, n: nat, p: nat) -> (
    Seq<bool>,
    CyclicErrorInfo,
) {
    let s = pmod(r, g);
    if s == zero_vector(p) {
        (r, CyclicErrorInfo::NoError)
    } else if exists|i: int| 0 <= i < n && pmod(unit_word(n, i), g) == s {
        let i = choose|i: int| 0 <= i < n && pmod(unit_word(n, i), g) == s;
        (flip(r, i), CyclicErrorInfo::SingleError(i as usize))
    } else {
        (r, CyclicErrorInfo::Uncorrectable)
    }
}

/// Decodes a received word by syndrome table lookup, per
/// [`decode_cyclic_spec`].
pub fn decode_cyclic(received: &Vec<bool>, code: &CyclicCode) -> (res: (
    Vec<bool>,
    CyclicErrorInfo,
))
    requires
        code.wf(),
        received@.len() == code.n,
    ensures
        res.0@ == decode_cyclic_spec(
            received@,
            code.generator_polynomial@,
            code.n as nat,
            code.p as nat,
        ).0,
        res.1 == decode_cyclic_spec(
            received@,
            code.generator_polynomial@,
            code.n as nat,
            code.p as nat,
        ).1,
{
    let ghost g = code.generator_polynomial@;
    let ghost nn = code.n as nat;
    let ghost pp = code.p as nat;
    let n = code.n;
    let s = compute_syndrome_cyclic(received, code);
    if crate::systematic::all_false(&s) {
        return (copy_bits(received), CyclicErrorInfo::NoError);
    }
    let mut i: usize = 0;
    while i < n
        invariant
            code.wf(),
            g == code.generator_polynomial@,
            nn == code.n as nat,
            pp == code.p as nat,
            n == code.n,
            received@.len() == n,
            s@ == pmod(received@, g),
            s@.len() == code.p,
            s@ != zero_vector(pp),
            0 <= i <= n,
            forall|l: int| 0 <= l < i ==> pmod(unit_word(nn, l), g) != s@,
        decreases n - i,
    {
        if bits_equal(&code.syndrome_table[i].syndrome, &s) {
            let pos = code.syndrome_table[i].position;
            proof {
                assert(pos == i);
                assert(pmod(unit_word(nn, i as int), g) == s@);
                assert(0 <= (i as int) && (i as int) < received@.len() && pmod(
                    unit_word(nn, i as int),
                    g,
                ) == pmod(received@, g));
                assert forall|l: int|
                    0 <= l < nn && pmod(unit_word(nn, l), g) == pmod(received@, g)
                    implies l == i as int by {
                    if l < i {
                        assert(pmod(unit_word(nn, l), g) != pmod(unit_word(nn, i as int), g));
                    } else if l > i {
                        assert(pmod(unit_word(nn, i as int), g) != pmod(unit_word(nn, l), g));
                    }
                }
            }
            let mut corrected = copy_bits(received);
            flip_bit(&mut corrected, pos);
            return (corrected, CyclicErrorInfo::SingleError(pos));
        }
        i = i + 1;
    }
    proof {
        assert(!(exists|l: int| 0 <= l < nn && pmod(unit_word(nn, l), g) == pmod(received@, g)));
    }
    (copy_bits(received), CyclicErrorInfo::Uncorrectable)
}

/// With the given probability, flips exactly one uniformly random bit of
/// the codeword and reports its 0-indexed position; otherwise returns the
/// codeword unchanged and no position. Same channel model as the
/// systematic family's.
pub fn inject_single_error_cyclic(
    codeword: &Vec<bool>,
    probability: &crate::rng::ErrorProb,
    rng: &mut crate::rng::ChannelRng,
) -> (res: (Vec<bool>, Option<usize>))
    requires
        probability.wf(),
        codeword@.len() >= 1,
    ensures
        match res.1 {
            Some(i) => (i as int) < codeword@.len() && res.0@ == flip(codeword@, i as int),
            None => res.0@ == codeword@,
        },
        probability.is_never() ==> res.1 is None,
        probability.is_always() ==> res.1 is Some,
{
    crate::systematic::inject_single_error(codeword, probability, rng)
}

/// Round trip without channel errors: decoding an untouched cyclic
/// codeword reports `NoError` and returns it unchanged, with the message
/// in its first bits.
pub proof fn lemma_cyclic_round_trip(m: Seq<bool>, g: Seq<bool>, n: nat, p: nat)
    requires
        g.len() == p + 1,
        g[0],
        p >= 1,
        m.len() + p == n,
    ensures
        encode_cyclic_spec(m, g).take(m.len() as int) == m,
        decode_cyclic_spec(encode_cyclic_spec(m, g), g, n, p) == (
            encode_cyclic_spec(m, g),
            CyclicErrorInfo::NoError,
        ),
{
    lemma_encode_cyclic_codeword(m, g);
}

/// Single-error correction: flipping exactly bit `i` of a cyclic codeword
/// and decoding restores the codeword and reports a single error at
/// position `i`. The syndrome of the corrupted word is precisely the
/// table entry of the single-bit error pattern at `i`.
pub proof fn lemma_cyclic_single_error(w: Seq<bool>, g: Seq<bool>, n: nat, p: nat, i: int)
    requires
        g.len() == p + 1,
        g == generator_poly_spec(p),
        g[0],
        p >= 1,
        w.len() == n,
        pmod(w, g) == zero_vector(p),
        cyclic_table_ok(n, p),
        0 <= i < n,
    ensures
        pmod(flip(w, i), g) == pmod(unit_word(n, i), g),
        decode_cyclic_spec(flip(w, i), g, n, p) == (w, CyclicErrorInfo::SingleError(i as usize)),
{
    let f = flip(w, i);
    let u = unit_word(n, i);
    assert(f =~= xor_seq(w, u));
    lemma_pmod_linear(w, u, g);
    lemma_pmod_len(u, g);
    assert(xor_seq(zero_vector(p), pmod(u, g)) =~= pmod(u, g));
    assert(pmod(f, g) == pmod(u, g));
    assert(pmod(u, g) != zero_vector(p));
    assert(0 <= i < n && pmod(unit_word(n, i), g) == pmod(f, g));
    assert forall|l: int| 0 <= l < n && pmod(unit_word(n, l), g) == pmod(f, g) implies l
        == i by {
        if l < i {
            assert(pmod(unit_word(n, l), g) != pmod(unit_word(n, i), g));
        } else if l > i {
            assert(pmod(unit_word(n, i), g) != pmod(unit_word(n, l), g));
        }
    }
    lemma_flip_involution(w, i);
}

} // verus!
