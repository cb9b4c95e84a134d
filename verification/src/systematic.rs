//! The systematic linear block code: a generator matrix with an identity
//! block beside a parity block, a parity-check matrix with pairwise distinct
//! non-zero columns, and syndrome decoding that locates single-bit errors by
//! matching the syndrome against a parity-check column.

use vstd::prelude::*;
use vstd::arithmetic::power2::pow2;
use crate::bits::{bit_of, bits_vec, lemma_bits_vec_inj, lemma_bits_vec_nonzero, lemma_pow2_bit, pow2_usize};
use crate::linalg::{
    column, copy_bits, dot, dot_product, flip, flip_bit, is_matrix, lemma_dot_comm,
    lemma_dot_flip, lemma_dot_split, lemma_dot_unit_left, lemma_dot_unit_right,
    lemma_flip_involution, mat_view, matrix_column, multiply, vec_mat_mul, zero_vector,
};
use crate::params::{
    is_power_of_two, lemma_nonpow_count, lemma_nonpow_upto_entries, lemma_pow2_le,
    nonpow_positions, nonpow_upto, satisfies_hamming_bound, MAX_MESSAGE_LEN,
};
use crate::rng::{ChannelRng, ErrorProb};

verus! {

/// Outcome of syndrome decoding a received word of a systematic code.
#[derive(Clone, Copy, PartialEq, Eq, Structural, Debug)]
pub enum ErrorInfo {
    /// The syndrome is all-zero: the word is a valid codeword.
    NoError,
    /// The syndrome matches exactly one parity-check column: a single error
    /// at that (0-indexed) position, which decoding flips back.
    SingleError(usize),
    /// The syndrome is non-zero but matches no column: more corruption than
    /// a single bit; the word is returned unchanged.
    Uncorrectable,
}

/// A systematic single-error-correcting block code.
pub struct SystematicCode {
    /// Message length.
    pub k: usize,
    /// Codeword length.
    pub n: usize,
    /// Number of parity bits.
    pub p: usize,
    /// `k x n` generator matrix: identity block beside the parity block.
    pub generator: Vec<Vec<bool>>,
    /// `p x n` parity-check matrix: transposed parity block beside an
    /// identity block.
    pub parity_check: Vec<Vec<bool>>,
}

/// Structural well-formedness of a systematic generator/parity-check pair:
/// the dimension relations, the two identity blocks, the shared parity
/// block, and pairwise distinct non-zero parity-check columns (which make
/// single-error syndromes unique).
pub open spec fn systematic_wf(
    g: Seq<Seq<bool>>,
    h: Seq<Seq<bool>>,
    k: nat,
    n: nat,
    p: nat,
) -> bool {
    &&& 1 <= k
    &&& 2 <= p
    &&& n == k + p
    &&& is_matrix(g, k, n)
    &&& is_matrix(h, p, n)
    &&& forall|i: int, j: int| 0 <= i < k && 0 <= j < k ==> #[trigger] g[i][j] == (i == j)
    &&& forall|r: int, j: int| 0 <= r < p && k <= j < n ==> #[trigger] h[r][j] == (j - k == r)
    &&& forall|r: int, j: int| 0 <= r < p && 0 <= j < k ==> #[trigger] h[r][j] == g[j][k + r]
    &&& forall|j1: int, j2: int| 0 <= j1 < j2 < n ==> column(h, j1) != column(h, j2)
    &&& forall|j: int| 0 <= j < n ==> column(h, j) != zero_vector(p)
}

impl SystematicCode {
    /// The code's matrices have the systematic shape and the column
    /// uniqueness invariant, and its dimensions agree with them.
    pub open spec fn wf(&self) -> bool {
        &&& self.k <= MAX_MESSAGE_LEN
        &&& systematic_wf(
            mat_view(&self.generator),
            mat_view(&self.parity_check),
            self.k as nat,
            self.n as nat,
            self.p as nat,
        )
    }
}

/// The syndrome of a received word: the parity-check matrix times the word,
/// one dot product per matrix row.
pub open spec fn syndrome_spec(h: Seq<Seq<bool>>, r: Seq<bool>) -> Seq<bool> {
    Seq::new(h.len(), |i: int| dot(h[i], r))
}

/// Syndrome decoding at the specification level: an all-zero syndrome means
/// no error; a syndrome equal to some parity-check column means a single
/// error at that column's position, which is flipped; any other non-zero
/// syndrome is uncorrectable and leaves the word unchanged.
pub open spec fn correct_spec(h: Seq<Seq<bool>>, r: Seq<bool>) -> (Seq<bool>, ErrorInfo) {
    let s = syndrome_spec(h, r);
    if s == zero_vector(h.len()) {
        (r, ErrorInfo::NoError)
    } else if exists|j: int| 0 <= j < r.len() && column(h, j) == s {
        let j = choose|j: int| 0 <= j < r.len() && column(h, j) == s;
        (flip(r, j), ErrorInfo::SingleError(j as usize))
    } else {
        (r, ErrorInfo::Uncorrectable)
    }
}

/// The parity-check column label of position `j`: data columns carry the
/// `j`-th non-power-of-two value in `[1, n]`, identity columns carry the
/// powers of two. All labels are distinct and non-zero, which makes the
/// columns so.
pub open spec fn column_label(vals: Seq<int>, k: int, j: int) -> int {
    if j < k {
        vals[j]
    } else {
        pow2((j - k) as nat) as int
    }
}

/// Builds the systematic code for the given `(k, n)` pair (with `p = n - k`
/// parity bits derived by [`crate::params::compute_n_from_k`]): the
/// generator is `[I | P]` and the parity check is `[P^T | I]`, where row `i`
/// of `P` holds the bits of the `i`-th non-power-of-two value in `[1, n]`.
/// Those labels, together with the powers of two labelling the identity
/// columns, enumerate `n` distinct non-zero `p`-bit patterns, so the
/// parity-check columns are pairwise distinct and non-zero.
pub fn build_generator_matrix(k: usize, n: usize) -> (code: SystematicCode)
    requires
        1 <= k <= MAX_MESSAGE_LEN,
        k < n,
        2 <= n - k <= 11,
        satisfies_hamming_bound(k as nat, (n - k) as nat),
        !satisfies_hamming_bound(k as nat, (n - k - 1) as nat),
    ensures
        code.wf(),
        code.k == k,
        code.n == n,
        code.p == n - k,
{
    let p = n - k;
    proof {
        assert(pow2((p - 1) as nat) < n);
        assert(n < pow2(p as nat));
        lemma_nonpow_count(n as nat, (p - 1) as nat);
        lemma_nonpow_upto_entries(n as nat);
    }
    let vals = nonpow_positions(n);
    proof {
        assert(vals@.len() == k);
    }
    let mut generator: Vec<Vec<bool>> = Vec::new();
    let mut i: usize = 0;
    while i < k
        invariant
            1 <= k < n,
            2 <= p <= 11,
            p == n - k,
            vals@.len() == k,
            forall|l: int| 0 <= l < k ==> 1 <= #[trigger] vals@[l] <= n,
            0 <= i <= k,
            generator@.len() == i,
            forall|l: int| 0 <= l < i ==> (#[trigger] generator@[l])@.len() == n,
            forall|l: int, j: int|
                0 <= l < i && 0 <= j < k ==> #[trigger] generator@[l]@[j] == (l == j),
            forall|l: int, j: int|
                0 <= l < i && k <= j < n ==> #[trigger] generator@[l]@[j] == bit_of(
                    vals@[l] as int,
                    (j - k) as nat,
                ),
        decreases k - i,
    {
        let mut row: Vec<bool> = Vec::new();
        let mut j: usize = 0;
        while j < n
            invariant
                1 <= k < n,
                p == n - k,
                p <= 11,
                vals@.len() == k,
                forall|l: int| 0 <= l < k ==> 1 <= #[trigger] vals@[l] <= n,
                0 <= i < k,
                0 <= j <= n,
                row@.len() == j,
                forall|l: int| 0 <= l < j && l < k ==> row@[l] == (i == l),
                forall|l: int|
                    k <= l < j ==> #[trigger] row@[l] == bit_of(vals@[i as int] as int, (l
                        - k) as nat),
            decreases n - j,
        {
            if j < k {
                row.push(i == j);
            } else {
                let pw = pow2_usize(j - k);
                proof {
                    vstd::arithmetic::power2::lemma_pow2_pos((j - k) as nat);
                }
                row.push((vals[i] / pw) % 2 == 1);
            }
            j = j + 1;
        }
        generator.push(row);
        i = i + 1;
    }
    let mut parity_check: Vec<Vec<bool>> = Vec::new();
    let mut r: usize = 0;
    while r < p
        invariant
            1 <= k < n,
            2 <= p <= 11,
            p == n - k,
            vals@.len() == k,
            forall|l: int| 0 <= l < k ==> 1 <= #[trigger] vals@[l] <= n,
            0 <= r <= p,
            parity_check@.len() == r,
            forall|l: int| 0 <= l < r ==> (#[trigger] parity_check@[l])@.len() == n,
            forall|l: int, j: int|
                0 <= l < r && 0 <= j < k ==> #[trigger] parity_check@[l]@[j] == bit_of(
                    vals@[j] as int,
                    l as nat,
                ),
            forall|l: int, j: int|
                0 <= l < r && k <= j < n ==> #[trigger] parity_check@[l]@[j] == (j - k == l),
        decreases p - r,
    {
        let mut row: Vec<bool> = Vec::new();
        let mut j: usize = 0;
        while j < n
            invariant
                1 <= k < n,
                p == n - k,
                p <= 11,
                vals@.len() == k,
                forall|l: int| 0 <= l < k ==> 1 <= #[trigger] vals@[l] <= n,
                0 <= r < p,
                0 <= j <= n,
                row@.len() == j,
                forall|l: int|
                    0 <= l < j && l < k ==> #[trigger] row@[l] == bit_of(
                        vals@[l] as int,
                        r as nat,
                    ),
                forall|l: int| k <= l < j ==> #[trigger] row@[l] == (l - k == r),
            decreases n - j,
        {
            if j < k {
                let pw = pow2_usize(r);
                proof {
                    vstd::arithmetic::power2::lemma_pow2_pos(r as nat);
                }
                row.push((vals[j] / pw) % 2 == 1);
            } else {
                row.push(j - k == r);
            }
            j = j + 1;
        }
        parity_check.push(row);
        r = r + 1;
    }
    let code = SystematicCode { k, n, p, generator, parity_check };
    proof {
        let g = mat_view(&code.generator);
        let h = mat_view(&code.parity_check);
        let kk = k as int;
        let nn = n as int;
        let pp = p as nat;
        assert forall|i2: int| 0 <= i2 < k implies (#[trigger] g[i2]).len() == n by {
            assert(g[i2] == code.generator@[i2]@);
        }
        assert forall|r2: int| 0 <= r2 < p implies (#[trigger] h[r2]).len() == n by {
            assert(h[r2] == code.parity_check@[r2]@);
        }
        assert(is_matrix(g, k as nat, n as nat));
        assert(is_matrix(h, pp, n as nat));
        // Each parity-check column is the bit pattern of its label.
        let ghost mvals0 = vals@.map_values(|x: usize| x as int);
        assert forall|j: int| 0 <= j < nn implies column(h, j) == bits_vec(
            #[trigger] column_label(mvals0, kk, j),
            pp,
        ) by {
            let lbl = column_label(mvals0, kk, j);
            assert forall|r2: int| 0 <= r2 < pp implies column(h, j)[r2] == bit_of(
                lbl,
                r2 as nat,
            ) by {
                assert(h[r2] == code.parity_check@[r2]@);
                if j < kk {
                    assert(h[r2][j] == bit_of(vals@[j] as int, r2 as nat));
                } else {
                    assert(h[r2][j] == (j - kk == r2));
                    lemma_pow2_bit((j - kk) as nat, r2 as nat);
                }
            }
            assert(column(h, j) =~= bits_vec(lbl, pp));
        }
        // Labels are distinct values in [1, 2^p).
        let ghost mvals = mvals0;
        assert forall|j: int| 0 <= j < nn implies 1 <= #[trigger] column_label(mvals, kk, j)
            < pow2(pp) by {
            if j < kk {
                assert(vals@[j] <= n < pow2(pp));
            } else {
                lemma_pow2_le(((j - kk) + 1) as nat, pp);
                vstd::arithmetic::power2::lemma_pow2_strictly_increases(
                    (j - kk) as nat,
                    ((j - kk) + 1) as nat,
                );
                vstd::arithmetic::power2::lemma_pow2_pos((j - kk) as nat);
            }
        }
        assert forall|j1: int, j2: int| 0 <= j1 < j2 < nn implies #[trigger] column_label(
            mvals,
            kk,
            j1,
        ) != #[trigger] column_label(mvals, kk, j2) by {
            if j2 < kk {
                assert(nonpow_upto(n as nat)[j1] < nonpow_upto(n as nat)[j2]);
            } else if j1 < kk && kk <= j2 {
                assert(!is_power_of_two(vals@[j1] as int));
                assert(is_power_of_two(pow2((j2 - kk) as nat) as int));
            } else {
                vstd::arithmetic::power2::lemma_pow2_strictly_increases(
                    (j1 - kk) as nat,
                    (j2 - kk) as nat,
                );
            }
        }
        // Distinct labels give distinct columns; non-zero labels give
        // non-zero columns.
        assert forall|j1: int, j2: int| 0 <= j1 < j2 < nn implies column(h, j1) != column(
            h,
            j2,
        ) by {
            if column(h, j1) == column(h, j2) {
                lemma_bits_vec_inj(
                    column_label(mvals, kk, j1) as nat,
                    column_label(mvals, kk, j2) as nat,
                    pp,
                );
            }
        }
        assert forall|j: int| 0 <= j < nn implies column(h, j) != zero_vector(pp) by {
            lemma_bits_vec_nonzero(column_label(mvals, kk, j) as nat, pp);
        }
        assert(systematic_wf(g, h, k as nat, n as nat, pp));
    }
    code
}

/// Encodes a message: the codeword is the message row-vector times the
/// generator matrix, so its first `k` bits are the message itself.
pub fn encode_message(message: &Vec<bool>, code: &SystematicCode) -> (cw: Vec<bool>)
    requires
        code.wf(),
        message@.len() == code.k,
    ensures
        cw@ == vec_mat_mul(message@, mat_view(&code.generator)),
        cw@.len() == code.n,
{
    multiply(message, &code.generator, code.n)
}

/// Tests whether a bit vector is all-zero.
pub fn all_false(v: &Vec<bool>) -> (b: bool)
    ensures
        b == (v@ == zero_vector(v@.len())),
{
    let mut i: usize = 0;
    while i < v.len()
        invariant
            0 <= i <= v@.len(),
            forall|l: int| 0 <= l < i ==> !v@[l],
        decreases v@.len() - i,
    {
        if v[i] {
            proof {
                assert(v@[i as int] != zero_vector(v@.len())[i as int]);
            }
            return false;
        }
        i = i + 1;
    }
    proof {
        assert(v@ =~= zero_vector(v@.len()));
    }
    true
}

/// Computes the syndrome of a received word under a parity-check matrix.
pub fn compute_syndrome(parity_check: &Vec<Vec<bool>>, received: &Vec<bool>) -> (s: Vec<bool>)
    requires
        forall|i: int|
            0 <= i < parity_check@.len() ==> (#[trigger] parity_check@[i])@.len()
                == received@.len(),
    ensures
        s@ == syndrome_spec(mat_view(parity_check), received@),
{
    let mut s: Vec<bool> = Vec::new();
    let mut i: usize = 0;
    while i < parity_check.len()
        invariant
            forall|l: int|
                0 <= l < parity_check@.len() ==> (#[trigger] parity_check@[l])@.len()
                    == received@.len(),
            0 <= i <= parity_check@.len(),
            s@.len() == i,
            forall|l: int|
                0 <= l < i ==> s@[l] == syndrome_spec(mat_view(parity_check), received@)[l],
        decreases parity_check@.len() - i,
    {
        let bit = dot_product(&parity_check[i], received);
        s.push(bit);
        i = i + 1;
    }
    proof {
        assert(s@ =~= syndrome_spec(mat_view(parity_check), received@));
    }
    s
}

/// Corrects a received word by syndrome lookup: returns the corrected word
/// together with the decoding outcome, per [`correct_spec`].
pub fn correct_error(parity_check: &Vec<Vec<bool>>, received: &Vec<bool>) -> (res: (
    Vec<bool>,
    ErrorInfo,
))
    requires
        is_matrix(mat_view(parity_check), parity_check@.len() as nat, received@.len() as nat),
        forall|j1: int, j2: int|
            0 <= j1 < j2 < received@.len() ==> column(mat_view(parity_check), j1) != column(
                mat_view(parity_check),
                j2,
            ),
    ensures
        res.0@ == correct_spec(mat_view(parity_check), received@).0,
        res.1 == correct_spec(mat_view(parity_check), received@).1,
{
    let ghost h = mat_view(parity_check);
    let p = parity_check.len();
    let n = received.len();
    proof {
        assert forall|i: int| 0 <= i < parity_check@.len() implies (#[trigger] parity_check@[i])@.len()
            == received@.len() by {
            assert(mat_view(parity_check)[i] == parity_check@[i]@);
        }
    }
    let s = compute_syndrome(parity_check, received);
    if all_false(&s) {
        return (copy_bits(received), ErrorInfo::NoError);
    }
    let mut j: usize = 0;
    while j < n
        invariant
            h == mat_view(parity_check),
            p == parity_check@.len(),
            n == received@.len(),
            is_matrix(h, p as nat, n as nat),
            s@ == syndrome_spec(h, received@),
            s@.len() == p,
            s@ != zero_vector(p as nat),
            forall|j1: int, j2: int|
                0 <= j1 < j2 < n ==> column(h, j1) != column(h, j2),
            forall|l: int| 0 <= l < j ==> column(h, l) != s@,
        decreases n - j,
    {
        let mut matches_col = true;
        let mut r: usize = 0;
        while r < p
            invariant
                h == mat_view(parity_check),
                p == parity_check@.len(),
                n == received@.len(),
                is_matrix(h, p as nat, n as nat),
                s@.len() == p,
                0 <= j < n,
                0 <= r <= p,
                matches_col == (forall|l: int| 0 <= l < r ==> column(h, j as int)[l] == s@[l]),
            decreases p - r,
        {
            proof {
                assert(mat_view(parity_check)[r as int] == parity_check@[r as int]@);
                assert(h[r as int].len() == n);
            }
            let hv = parity_check[r][j];
            proof {
                assert(column(h, j as int)[r as int] == h[r as int][j as int]);
            }
            if hv != s[r] {
                matches_col = false;
                proof {
                    assert(column(h, j as int)[r as int] != s@[r as int]);
                }
                r = p;
            } else {
                proof {
                    assert(column(h, j as int)[r as int] == s@[r as int]);
                }
                r = r + 1;
            }
        }
        if matches_col {
            proof {
                let s_spec = syndrome_spec(h, received@);
                assert(column(h, j as int).len() == p);
                assert(column(h, j as int) =~= s@);
                assert(0 <= (j as int) && (j as int) < received@.len() && column(h, j as int)
                    == s_spec);
                assert forall|l: int|
                    0 <= l < received@.len() && column(h, l) == s_spec implies l == j as int by {
                    if l < j {
                        assert(column(h, l) != column(h, j as int));
                    } else if l > j {
                        assert(column(h, j as int) != column(h, l));
                    }
                }
            }
            let mut corrected = copy_bits(received);
            flip_bit(&mut corrected, j);
            return (corrected, ErrorInfo::SingleError(j));
        }
        proof {
            assert(column(h, j as int).len() == p);
            if column(h, j as int) == s@ {
                assert(forall|l: int| 0 <= l < p ==> column(h, j as int)[l] == s@[l]);
                assert(false);
            }
        }
        j = j + 1;
    }
    proof {
        assert(!(exists|l: int|
            0 <= l < received@.len() && column(h, l) == syndrome_spec(h, received@)));
    }
    (copy_bits(received), ErrorInfo::Uncorrectable)
}

/// With the given probability, flips exactly one uniformly random bit of
/// the codeword and reports its 0-indexed position; otherwise returns the
/// codeword unchanged and no position. Probability zero never alters the
/// word; probability one always does.
pub fn inject_single_error(
    codeword: &Vec<bool>,
    probability: &ErrorProb,
    rng: &mut ChannelRng,
) -> (res: (Vec<bool>, Option<usize>))
    requires
        probability.wf(),
        codeword@.len() >= 1,
    ensures
        match res.1 {
            Some(i) => (i as int) < codeword@.len() && res.0@ == flip(codeword@, i as int),
            None => res.0@ == codeword@,
        },
        probability.is_never() ==> res.1 is None,
        probability.is_always() ==> res.1 is Some,
{
    if probability.decide(rng) {
        let i = rng.next_index(codeword.len());
        let mut received = copy_bits(codeword);
        flip_bit(&mut received, i);
        (received, Some(i))
    } else {
        (copy_bits(codeword), None)
    }
}

/// Every codeword of a well-formed systematic code has an all-zero
/// syndrome, and carries the message unchanged in its first `k` bits.
pub proof fn lemma_codeword_syndrome_zero(
    g: Seq<Seq<bool>>,
    h: Seq<Seq<bool>>,
    m: Seq<bool>,
    k: nat,
    n: nat,
    p: nat,
)
    requires
        systematic_wf(g, h, k, n, p),
        m.len() == k,
    ensures
        vec_mat_mul(m, g).len() == n,
        vec_mat_mul(m, g).take(k as int) == m,
        syndrome_spec(h, vec_mat_mul(m, g)) == zero_vector(p),
{
    let c = vec_mat_mul(m, g);
    assert(g[0].len() == n);
    assert(c.len() == n);
    assert forall|j: int| 0 <= j < k implies c[j] == m[j] by {
        assert(column(g, j).len() == k);
        assert forall|l: int| 0 <= l < k implies column(g, j)[l] == (l == j) by {
            assert(g[l][j] == (l == j));
        }
        lemma_dot_unit_right(m, column(g, j), j);
    }
    assert(c.take(k as int) =~= m);
    assert forall|i: int| 0 <= i < p implies syndrome_spec(h, c)[i] == false by {
        let hi = h[i];
        assert(hi.len() == n);
        lemma_dot_split(hi, c, k as int);
        assert(hi.skip(k as int).len() == p);
        assert(c.skip(k as int).len() == p);
        assert forall|l: int| 0 <= l < p implies hi.skip(k as int)[l] == (l == i) by {
            assert(hi[k + l] == ((k + l) - k == i));
        }
        lemma_dot_unit_left(hi.skip(k as int), c.skip(k as int), i);
        assert(c.skip(k as int)[i] == c[k + i]);
        assert(c[k + i] == dot(m, column(g, k + i)));
        assert(hi.take(k as int) =~= column(g, k + i)) by {
            assert(column(g, k + i).len() == k);
            assert forall|j: int| 0 <= j < k implies hi.take(k as int)[j] == column(g, k + i)[j] by {
                assert(hi[j] == g[j][k + i]);
            }
        }
        assert(c.take(k as int) == m);
        lemma_dot_comm(column(g, k + i), m);
        assert(dot(hi.take(k as int), c.take(k as int)) == dot(m, column(g, k + i)));
    }
    assert(syndrome_spec(h, c) =~= zero_vector(p));
}

/// Flipping bit `i` of a codeword moves the syndrome from zero to exactly
/// column `i` of the parity-check matrix.
pub proof fn lemma_single_error_syndrome(
    g: Seq<Seq<bool>>,
    h: Seq<Seq<bool>>,
    m: Seq<bool>,
    k: nat,
    n: nat,
    p: nat,
    i: int,
)
    requires
        systematic_wf(g, h, k, n, p),
        m.len() == k,
        0 <= i < n,
    ensures
        syndrome_spec(h, flip(vec_mat_mul(m, g), i)) == column(h, i),
{
    let c = vec_mat_mul(m, g);
    lemma_codeword_syndrome_zero(g, h, m, k, n, p);
    assert forall|r: int| 0 <= r < p implies syndrome_spec(h, flip(c, i))[r] == column(h, i)[r] by {
        assert(h[r].len() == n);
        lemma_dot_flip(h[r], c, i);
        assert(dot(h[r], c) == syndrome_spec(h, c)[r]);
        assert(syndrome_spec(h, c)[r] == zero_vector(p)[r]);
    }
    assert(syndrome_spec(h, flip(c, i)) =~= column(h, i));
}

/// Round trip without channel errors: decoding an untouched codeword
/// reports `NoError`, returns the codeword unchanged, and the message is
/// its first `k` bits.
pub proof fn lemma_systematic_round_trip(
    g: Seq<Seq<bool>>,
    h: Seq<Seq<bool>>,
    m: Seq<bool>,
    k: nat,
    n: nat,
    p: nat,
)
    requires
        systematic_wf(g, h, k, n, p),
        m.len() == k,
    ensures
        vec_mat_mul(m, g).take(k as int) == m,
        correct_spec(h, vec_mat_mul(m, g)) == (vec_mat_mul(m, g), ErrorInfo::NoError),
{
    lemma_codeword_syndrome_zero(g, h, m, k, n, p);
    assert(syndrome_spec(h, vec_mat_mul(m, g)) == zero_vector(h.len()));
}

/// Single-error correction: flipping exactly bit `i` of a codeword and
/// decoding restores the codeword and reports a single error at position
/// `i`.
pub proof fn lemma_systematic_single_error(
    g: Seq<Seq<bool>>,
    h: Seq<Seq<bool>>,
    m: Seq<bool>,
    k: nat,
    n: nat,
    p: nat,
    i: int,
)
    requires
        systematic_wf(g, h, k, n, p),
        m.len() == k,
        0 <= i < n,
    ensures
        correct_spec(h, flip(vec_mat_mul(m, g), i)) == (
            vec_mat_mul(m, g),
            ErrorInfo::SingleError(i as usize),
        ),
{
    let c = vec_mat_mul(m, g);
    let r = flip(c, i);
    lemma_codeword_syndrome_zero(g, h, m, k, n, p);
    lemma_single_error_syndrome(g, h, m, k, n, p, i);
    let s = syndrome_spec(h, r);
    assert(s == column(h, i));
    assert(s != zero_vector(h.len()));
    assert(r.len() == n);
    assert(0 <= i < r.len() && column(h, i) == s);
    assert forall|l: int| 0 <= l < r.len() && column(h, l) == s implies l == i by {
        if l < i {
            assert(column(h, l) != column(h, i));
        } else if l > i {
            assert(column(h, i) != column(h, l));
        }
    }
    lemma_flip_involution(c, i);
}

} // verus!
