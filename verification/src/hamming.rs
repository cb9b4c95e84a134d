//! The extended Hamming code (SEC-DED): message bits sit at the
//! non-power-of-two positions of the codeword, each power-of-two position
//! holds the XOR of the data positions whose 1-indexed position has that
//! bit set, and one overall parity bit is appended. Decoding distinguishes
//! no error, a flipped parity bit, a correctable single error located by
//! the syndrome value, and a detected-but-uncorrectable double error.

use vstd::prelude::*;
use vstd::arithmetic::power2::{lemma_pow2_pos, pow2};
use crate::bits::{
    bit_of, bits_value, bits_vec, lemma_bits_inj, lemma_bits_value_of_bits_vec,
    lemma_bits_value_step, lemma_pow2_bit, pow2_usize,
};
use crate::linalg::{copy_bits, flip, flip_bit, lemma_flip_involution, zero_vector};
use crate::params::{
    is_power_of_two, lemma_nonpow_count, lemma_nonpow_upto_entries, lemma_pow2_le,
    nonpow_positions, nonpow_upto, satisfies_hamming_bound, MAX_MESSAGE_LEN,
};
use crate::rng::ChannelRng;

verus! {

/// Outcome of decoding an extended Hamming word.
#[derive(Clone, Copy, PartialEq, Eq, Structural, Debug)]
pub enum HammingErrorInfo {
    /// Zero syndrome and matching overall parity: the word is intact.
    NoError,
    /// Zero syndrome but mismatched overall parity: only the appended
    /// parity bit flipped; the data portion is intact.
    ParityBitError,
    /// Non-zero syndrome and mismatched parity: a single error at the
    /// carried 1-indexed position, which decoding flips back.
    SingleError(usize),
    /// Non-zero syndrome but matching parity: two errors; uncorrectable,
    /// the word is returned unchanged.
    DoubleError,
}

/// An extended Hamming code; the matrices are implicit in the positions.
pub struct HammingCode {
    /// Message length.
    pub k: usize,
    /// Codeword length before the overall parity bit is appended.
    pub n: usize,
    /// Number of parity bits (the power-of-two positions).
    pub p: usize,
}

impl HammingCode {
    /// `(n, p)` agree with the minimal-parity derivation for `k`, so all
    /// `p` parity positions `1, 2, ..., 2^(p-1)` fall inside the codeword
    /// and the non-power positions number exactly `k`.
    pub open spec fn wf(&self) -> bool {
        &&& 1 <= self.k <= MAX_MESSAGE_LEN
        &&& self.n == self.k + self.p
        &&& 2 <= self.p <= 11
        &&& satisfies_hamming_bound(self.k as nat, self.p as nat)
        &&& !satisfies_hamming_bound(self.k as nat, (self.p - 1) as nat)
    }
}

/// Bit `b` of the Hamming syndrome of `w`: the XOR of the word's bits at
/// the 1-indexed positions whose binary representation has bit `b` set.
pub open spec fn hsynd_bit(w: Seq<bool>, b: nat) -> bool
    decreases w.len(),
{
    if w.len() == 0 {
        false
    } else {
        hsynd_bit(w.drop_last(), b) ^ (w.last() && bit_of(w.len() as int, b))
    }
}

/// The `p`-bit Hamming syndrome of `w`, least significant bit first.
pub open spec fn hamming_syndrome_spec(w: Seq<bool>, p: nat) -> Seq<bool> {
    Seq::new(p, |b: int| hsynd_bit(w, b as nat))
}

/// The overall parity of a word: the XOR of all its bits.
pub open spec fn parity_spec(w: Seq<bool>) -> bool
    decreases w.len(),
{
    if w.len() == 0 {
        false
    } else {
        parity_spec(w.drop_last()) ^ w.last()
    }
}

/// A valid (non-extended) Hamming codeword: every syndrome bit is zero.
pub open spec fn is_hamming_codeword(w: Seq<bool>, n: nat, p: nat) -> bool {
    &&& w.len() == n
    &&& forall|b: nat| b < p ==> !#[trigger] hsynd_bit(w, b)
}

proof fn lemma_hsynd_step(w: Seq<bool>, i: int, b: nat)
    requires
        0 <= i < w.len(),
    ensures
        hsynd_bit(w.take(i + 1), b) == hsynd_bit(w.take(i), b) ^ (w[i] && bit_of(i + 1, b)),
{
    assert(w.take(i + 1).drop_last() =~= w.take(i));
    assert(w.take(i + 1).last() == w[i]);
}

/// Flipping bit `i` of `w` flips syndrome bit `b` exactly when position
/// `i + 1` has bit `b` set.
pub proof fn lemma_hsynd_flip(w: Seq<bool>, i: int, b: nat)
    requires
        0 <= i < w.len(),
    ensures
        hsynd_bit(flip(w, i), b) == hsynd_bit(w, b) ^ bit_of(i + 1, b),
    decreases w.len(),
{
    let f = flip(w, i);
    assert(f.len() == w.len());
    if i == w.len() - 1 {
        assert(f.drop_last() =~= w.drop_last());
        assert(f.last() == !w.last());
    } else {
        assert(f.drop_last() =~= flip(w.drop_last(), i));
        lemma_hsynd_flip(w.drop_last(), i, b);
        assert(f.last() == w.last());
    }
}

/// Flipping any bit inverts the overall parity.
pub proof fn lemma_parity_flip(w: Seq<bool>, i: int)
    requires
        0 <= i < w.len(),
    ensures
        parity_spec(flip(w, i)) == !parity_spec(w),
    decreases w.len(),
{
    let f = flip(w, i);
    if i == w.len() - 1 {
        assert(f.drop_last() =~= w.drop_last());
        assert(f.last() == !w.last());
    } else {
        assert(f.drop_last() =~= flip(w.drop_last(), i));
        lemma_parity_flip(w.drop_last(), i);
        assert(f.last() == w.last());
    }
}

proof fn lemma_parity_step(w: Seq<bool>, i: int)
    requires
        0 <= i < w.len(),
    ensures
        parity_spec(w.take(i + 1)) == parity_spec(w.take(i)) ^ w[i],
{
    assert(w.take(i + 1).drop_last() =~= w.take(i));
    assert(w.take(i + 1).last() == w[i]);
}

/// Computes syndrome bit `b` of `w` by XOR-ing the bits at the 1-indexed
/// positions whose binary representation has bit `b` set.
fn synd_bit_exec(w: &Vec<bool>, b: usize) -> (r: bool)
    requires
        b <= 11,
        w@.len() <= MAX_MESSAGE_LEN + 12,
    ensures
        r == hsynd_bit(w@, b as nat),
{
    let pw = pow2_usize(b);
    proof {
        lemma_pow2_pos(b as nat);
    }
    let mut acc = false;
    let mut i: usize = 0;
    while i < w.len()
        invariant
            pw == pow2(b as nat),
            pw >= 1,
            w@.len() <= MAX_MESSAGE_LEN + 12,
            0 <= i <= w@.len(),
            acc == hsynd_bit(w@.take(i as int), b as nat),
        decreases w@.len() - i,
    {
        proof {
            lemma_hsynd_step(w@, i as int, b as nat);
        }
        acc = acc ^ (w[i] && ((i + 1) / pw) % 2 == 1);
        i = i + 1;
    }
    proof {
        assert(w@.take(w@.len() as int) =~= w@);
    }
    acc
}

/// Computes the overall parity of a word: the XOR of all its bits.
fn parity_exec(w: &Vec<bool>) -> (r: bool)
    ensures
        r == parity_spec(w@),
{
    let mut acc = false;
    let mut i: usize = 0;
    while i < w.len()
        invariant
            0 <= i <= w@.len(),
            acc == parity_spec(w@.take(i as int)),
        decreases w@.len() - i,
    {
        proof {
            lemma_parity_step(w@, i as int);
        }
        acc = acc ^ w[i];
        i = i + 1;
    }
    proof {
        assert(w@.take(w@.len() as int) =~= w@);
    }
    acc
}

/// Encodes a message: places the message bits at the non-power-of-two
/// positions in order, then sets each power-of-two position so that every
/// syndrome bit of the result is zero.
pub fn encode_hamming(message: &Vec<bool>, code: &HammingCode) -> (cw: Vec<bool>)
    requires
        code.wf(),
        message@.len() == code.k,
    ensures
        cw@.len() == code.n,
        is_hamming_codeword(cw@, code.n as nat, code.p as nat),
        forall|j: int|
            0 <= j < code.k ==> cw@[#[trigger] nonpow_upto(code.n as nat)[j] - 1]
                == message@[j],
{
    let k = code.k;
    let n = code.n;
    let p = code.p;
    proof {
        assert(pow2((p - 1) as nat) < n);
        assert(n < pow2(p as nat));
        lemma_nonpow_count(n as nat, (p - 1) as nat);
        lemma_nonpow_upto_entries(n as nat);
    }
    let positions = nonpow_positions(n);
    proof {
        assert(positions@.len() == k);
    }
    let mut w: Vec<bool> = Vec::new();
    let mut i: usize = 0;
    while i < n
        invariant
            0 <= i <= n,
            w@.len() == i,
            forall|l: int| 0 <= l < i ==> !w@[l],
        decreases n - i,
    {
        w.push(false);
        i = i + 1;
    }
    let mut j: usize = 0;
    while j < k
        invariant
            code.wf(),
            k == code.k,
            n == code.n,
            p == code.p,
            message@.len() == k,
            positions@.len() == k,
            forall|l: int| 0 <= l < k ==> positions@[l] as int == nonpow_upto(n as nat)[l],
            forall|l: int|
                0 <= l < k ==> {
                    &&& 1 <= #[trigger] nonpow_upto(n as nat)[l] <= n
                    &&& !is_power_of_two(nonpow_upto(n as nat)[l])
                },
            forall|l1: int, l2: int|
                0 <= l1 < l2 < k ==> nonpow_upto(n as nat)[l1] < nonpow_upto(n as nat)[l2],
            0 <= j <= k,
            w@.len() == n,
            forall|l: int| 0 <= l < j ==> w@[#[trigger] nonpow_upto(n as nat)[l] - 1]
                == message@[l],
            forall|idx: int|
                0 <= idx < n && is_power_of_two(idx + 1) ==> !#[trigger] w@[idx],
        decreases k - j,
    {
        let pos = positions[j];
        w.set(pos - 1, message[j]);
        proof {
            assert forall|l: int| 0 <= l < j + 1 implies w@[#[trigger] nonpow_upto(
                n as nat,
            )[l] - 1] == message@[l] by {
                if l < j {
                    assert(nonpow_upto(n as nat)[l] < nonpow_upto(n as nat)[j as int]);
                }
            }
        }
        j = j + 1;
    }
    let mut b: usize = 0;
    while b < p
        invariant
            code.wf(),
            k == code.k,
            n == code.n,
            p == code.p,
            message@.len() == k,
            pow2((p - 1) as nat) < n,
            forall|l: int|
                0 <= l < k ==> {
                    &&& 1 <= #[trigger] nonpow_upto(n as nat)[l] <= n
                    &&& !is_power_of_two(nonpow_upto(n as nat)[l])
                },
            0 <= b <= p,
            w@.len() == n,
            forall|l: int| 0 <= l < k ==> w@[#[trigger] nonpow_upto(n as nat)[l] - 1]
                == message@[l],
            forall|b2: nat| b2 < b ==> !#[trigger] hsynd_bit(w@, b2),
        decreases p - b,
    {
        let t = synd_bit_exec(&w, b);
        if t {
            let pw = pow2_usize(b);
            proof {
                lemma_pow2_pos(b as nat);
                if b < p - 1 {
                    lemma_pow2_le(b as nat, (p - 1) as nat);
                }
                assert(pw <= pow2((p - 1) as nat));
            }
            let ghost wpre = w@;
            flip_bit(&mut w, pw - 1);
            proof {
                assert forall|b2: nat| b2 < b + 1 implies !#[trigger] hsynd_bit(w@, b2) by {
                    lemma_hsynd_flip(wpre, pw - 1, b2);
                    lemma_pow2_bit(b as nat, b2);
                    assert(bit_of(pow2(b as nat) as int, b2) == (b as nat == b2));
                }
                assert forall|l: int| 0 <= l < k implies w@[#[trigger] nonpow_upto(
                    n as nat,
                )[l] - 1] == message@[l] by {
                    assert(is_power_of_two(pw as int));
                    assert(nonpow_upto(n as nat)[l] - 1 != pw - 1);
                }
            }
        }
        b = b + 1;
    }
    w
}

/// Reads the message back out of a codeword: the bits at the
/// non-power-of-two positions, in order.
pub fn extract_message(codeword: &Vec<bool>, code: &HammingCode) -> (msg: Vec<bool>)
    requires
        code.wf(),
        codeword@.len() == code.n,
    ensures
        msg@.len() == code.k,
        forall|j: int|
            0 <= j < code.k ==> msg@[j] == codeword@[#[trigger] nonpow_upto(
                code.n as nat,
            )[j] - 1],
{
    let k = code.k;
    let n = code.n;
    let p = code.p;
    proof {
        assert(pow2((p - 1) as nat) < n);
        assert(n < pow2(p as nat));
        lemma_nonpow_count(n as nat, (p - 1) as nat);
        lemma_nonpow_upto_entries(n as nat);
    }
    let positions = nonpow_positions(n);
    let mut msg: Vec<bool> = Vec::new();
    let mut j: usize = 0;
    while j < k
        invariant
            codeword@.len() == n,
            positions@.len() == k,
            forall|l: int| 0 <= l < k ==> positions@[l] as int == nonpow_upto(n as nat)[l],
            forall|l: int| 0 <= l < k ==> 1 <= #[trigger] nonpow_upto(n as nat)[l] <= n,
            0 <= j <= k,
            msg@.len() == j,
            forall|l: int|
                0 <= l < j ==> msg@[l] == codeword@[#[trigger] nonpow_upto(n as nat)[l] - 1],
        decreases k - j,
    {
        let pos = positions[j];
        msg.push(codeword[pos - 1]);
        j = j + 1;
    }
    msg
}

/// Appends the overall parity bit: the XOR of all `n` codeword bits.
pub fn add_parity_bit(codeword: &Vec<bool>) -> (ext: Vec<bool>)
    requires
        codeword@.len() < usize::MAX,
    ensures
        ext@ == codeword@.push(parity_spec(codeword@)),
{
    let par = parity_exec(codeword);
    let mut ext = copy_bits(codeword);
    ext.push(par);
    ext
}

/// Computes the Hamming syndrome of the first-`n` portion of a received
/// word, together with that portion's overall parity (for comparison
/// against the transmitted parity bit).
pub fn compute_syndrome_hamming(codeword_part: &Vec<bool>, code: &HammingCode) -> (res: (
    Vec<bool>,
    bool,
))
    requires
        code.wf(),
        codeword_part@.len() == code.n,
    ensures
        res.0@ == hamming_syndrome_spec(codeword_part@, code.p as nat),
        res.1 == parity_spec(codeword_part@),
{
    let p = code.p;
    let mut s: Vec<bool> = Vec::new();
    let mut b: usize = 0;
    while b < p
        invariant
            code.wf(),
            p == code.p,
            codeword_part@.len() == code.n,
            0 <= b <= p,
            s@.len() == b,
            forall|l: int| 0 <= l < b ==> s@[l] == hsynd_bit(codeword_part@, l as nat),
        decreases p - b,
    {
        let bit = synd_bit_exec(codeword_part, b);
        s.push(bit);
        b = b + 1;
    }
    proof {
        assert(s@ =~= hamming_syndrome_spec(codeword_part@, code.p as nat));
    }
    let par = parity_exec(codeword_part);
    (s, par)
}

/// SEC-DED decoding at the specification level, following the truth table
/// over (syndrome, parity comparison): zero syndrome with matching parity
/// is no error; zero syndrome with mismatched parity is a flipped parity
/// bit (the data portion is intact); non-zero syndrome with mismatched
/// parity is a single error whose 1-indexed position is the syndrome
/// value, flipped back (a value pointing past the word, impossible for at
/// most two channel errors, is treated as uncorrectable and reported as
/// `DoubleError`); non-zero syndrome with matching parity is a double
/// error, left uncorrected.
pub open spec fn decode_hamming_spec(w: Seq<bool>, n: nat, p: nat) -> (
    Seq<bool>,
    HammingErrorInfo,
) {
    let data = w.take(n as int);
    let s = hamming_syndrome_spec(data, p);
    let pr = w[n as int];
    let cp = parity_spec(data);
    if s == zero_vector(p) {
        if pr == cp {
            (data, HammingErrorInfo::NoError)
        } else {
            (data, HammingErrorInfo::ParityBitError)
        }
    } else if pr != cp {
        let pos = bits_value(s);
        if 1 <= pos <= n {
            (flip(data, pos - 1), HammingErrorInfo::SingleError(pos as usize))
        } else {
            (data, HammingErrorInfo::DoubleError)
        }
    } else {
        (data, HammingErrorInfo::DoubleError)
    }
}

/// Decodes an extended (`n + 1`-bit) received word per the SEC-DED truth
/// table of [`decode_hamming_spec`], returning the (possibly corrected)
/// `n`-bit data portion and the outcome.
pub fn decode_hamming(received: &Vec<bool>, code: &HammingCode) -> (res: (
    Vec<bool>,
    HammingErrorInfo,
))
    requires
        code.wf(),
        received@.len() == code.n + 1,
    ensures
        res.0@ == decode_hamming_spec(received@, code.n as nat, code.p as nat).0,
        res.1 == decode_hamming_spec(received@, code.n as nat, code.p as nat).1,
{
    let n = code.n;
    let p = code.p;
    let mut data: Vec<bool> = Vec::new();
    let mut i: usize = 0;
    while i < n
        invariant
            received@.len() == n + 1,
            0 <= i <= n,
            data@.len() == i,
            forall|l: int| 0 <= l < i ==> data@[l] == received@[l],
        decreases n - i,
    {
        data.push(received[i]);
        i = i + 1;
    }
    proof {
        assert(data@ =~= received@.take(n as int));
    }
    let (s, cp) = compute_syndrome_hamming(&data, code);
    let pr = received[n];
    proof {
        assert(s@.len() == p);
    }
    if crate::systematic::all_false(&s) {
        if pr == cp {
            (data, HammingErrorInfo::NoError)
        } else {
            (data, HammingErrorInfo::ParityBitError)
        }
    } else if pr != cp {
        let mut pos: usize = 0;
        let mut b: usize = 0;
        proof {
            vstd::arithmetic::power2::lemma2_to64();
        }
        while b < p
            invariant
                code.wf(),
                p == code.p,
                s@.len() == p,
                0 <= b <= p,
                pos == bits_value(s@.take(b as int)),
                pos < pow2(b as nat),
            decreases p - b,
        {
            proof {
                lemma_bits_value_step(s@, b as int);
                vstd::arithmetic::power2::lemma_pow2_adds(1, b as nat);
                vstd::arithmetic::power2::lemma2_to64();
            }
            if s[b] {
                let pw = pow2_usize(b);
                pos = pos + pw;
            }
            b = b + 1;
        }
        proof {
            assert(s@.take(p as int) =~= s@);
            lemma_pow2_le(p as nat, 11);
            vstd::arithmetic::power2::lemma2_to64();
        }
        if 1 <= pos && pos <= n {
            flip_bit(&mut data, pos - 1);
            (data, HammingErrorInfo::SingleError(pos))
        } else {
            (data, HammingErrorInfo::DoubleError)
        }
    } else {
        (data, HammingErrorInfo::DoubleError)
    }
}

/// Draws how many bit errors to simulate for one trial: uniformly 0, 1
/// or 2.
pub fn generate_error_multiplicity(rng: &mut ChannelRng) -> (m: usize)
    ensures
        m <= 2,
{
    let d = rng.next_below(3);
    d as usize
}

/// Flips `multiplicity` distinct uniformly random positions of the word
/// (0-indexed); for multiplicity 0 the word is returned unchanged and the
/// position list is empty.
pub fn inject_errors(word: &Vec<bool>, multiplicity: usize, rng: &mut ChannelRng) -> (res: (
    Vec<bool>,
    Vec<usize>,
))
    requires
        multiplicity <= 2,
        multiplicity <= word@.len(),
    ensures
        res.1@.len() == multiplicity,
        forall|l: int| 0 <= l < res.1@.len() ==> (#[trigger] res.1@[l] as int) < word@.len(),
        multiplicity == 0 ==> res.0@ == word@,
        multiplicity == 1 ==> res.0@ == flip(word@, res.1@[0] as int),
        multiplicity == 2 ==> res.1@[0] != res.1@[1] && res.0@ == flip(
            flip(word@, res.1@[0] as int),
            res.1@[1] as int,
        ),
{
    let mut out = copy_bits(word);
    let mut positions: Vec<usize> = Vec::new();
    if multiplicity >= 1 {
        let a = rng.next_index(word.len());
        flip_bit(&mut out, a);
        positions.push(a);
        if multiplicity == 2 {
            let b0 = rng.next_index(word.len() - 1);
            let b = if b0 >= a {
                b0 + 1
            } else {
                b0
            };
            flip_bit(&mut out, b);
            positions.push(b);
        }
    }
    (out, positions)
}

/// Round trip without channel errors: decoding an untouched extended
/// codeword reports `NoError` and returns the data portion unchanged.
pub proof fn lemma_hamming_round_trip(w: Seq<bool>, n: nat, p: nat)
    requires
        is_hamming_codeword(w, n, p),
    ensures
        decode_hamming_spec(w.push(parity_spec(w)), n, p) == (w, HammingErrorInfo::NoError),
{
    let ext = w.push(parity_spec(w));
    assert(ext.take(n as int) =~= w);
    assert(ext[n as int] == parity_spec(w));
    assert(hamming_syndrome_spec(w, p) =~= zero_vector(p)) by {
        assert forall|b: int| 0 <= b < p implies hamming_syndrome_spec(w, p)[b] == false by {
            assert(!hsynd_bit(w, b as nat));
        }
    }
}

/// A flipped overall-parity bit alone is recognized as such: the data
/// portion is intact and is returned unchanged.
pub proof fn lemma_hamming_parity_bit_error(w: Seq<bool>, n: nat, p: nat)
    requires
        is_hamming_codeword(w, n, p),
    ensures
        decode_hamming_spec(flip(w.push(parity_spec(w)), n as int), n, p) == (
            w,
            HammingErrorInfo::ParityBitError,
        ),
{
    let ext = w.push(parity_spec(w));
    let f = flip(ext, n as int);
    assert(f.take(n as int) =~= w);
    assert(f[n as int] == !parity_spec(w));
    assert(hamming_syndrome_spec(w, p) =~= zero_vector(p)) by {
        assert forall|b: int| 0 <= b < p implies hamming_syndrome_spec(w, p)[b] == false by {
            assert(!hsynd_bit(w, b as nat));
        }
    }
}

/// Single-error correction: flipping exactly one data-position bit of an
/// extended codeword and decoding restores the codeword and reports a
/// single error at that 1-indexed position.
pub proof fn lemma_hamming_single_error(w: Seq<bool>, n: nat, p: nat, i: int)
    requires
        is_hamming_codeword(w, n, p),
        0 <= i < n,
        n < pow2(p),
    ensures
        decode_hamming_spec(flip(w.push(parity_spec(w)), i), n, p) == (
            w,
            HammingErrorInfo::SingleError((i + 1) as usize),
        ),
{
    let ext = w.push(parity_spec(w));
    let f = flip(ext, i);
    let data = flip(w, i);
    assert(f.take(n as int) =~= data);
    assert(f[n as int] == parity_spec(w));
    let s = hamming_syndrome_spec(data, p);
    assert(s =~= bits_vec(i + 1, p)) by {
        assert forall|b: int| 0 <= b < p implies s[b] == bit_of(i + 1, b as nat) by {
            lemma_hsynd_flip(w, i, b as nat);
            assert(!hsynd_bit(w, b as nat));
        }
    }
    crate::bits::lemma_bits_vec_nonzero((i + 1) as nat, p);
    assert(s != zero_vector(p));
    lemma_parity_flip(w, i);
    assert(parity_spec(data) == !parity_spec(w));
    lemma_bits_value_of_bits_vec((i + 1) as nat, p);
    vstd::arithmetic::div_mod::lemma_small_mod((i + 1) as nat, pow2(p));
    assert(bits_value(s) == i + 1);
    lemma_flip_involution(w, i);
    assert(flip(data, i) == w);
}

/// Double-error detection: flipping two distinct positions of an extended
/// codeword (the parity bit may be one of them) and decoding reports
/// `DoubleError` and leaves the data portion uncorrected.
pub proof fn lemma_hamming_double_error(w: Seq<bool>, n: nat, p: nat, i1: int, i2: int)
    requires
        is_hamming_codeword(w, n, p),
        0 <= i1 < i2 < n + 1,
        n < pow2(p),
    ensures
        decode_hamming_spec(flip(flip(w.push(parity_spec(w)), i1), i2), n, p) == (
            flip(flip(w.push(parity_spec(w)), i1), i2).take(n as int),
            HammingErrorInfo::DoubleError,
        ),
{
    let ext = w.push(parity_spec(w));
    let r = flip(flip(ext, i1), i2);
    if i2 == n {
        let data = flip(w, i1);
        assert(r.take(n as int) =~= data);
        assert(r[n as int] == !parity_spec(w));
        let s = hamming_syndrome_spec(data, p);
        assert(s =~= bits_vec(i1 + 1, p)) by {
            assert forall|b: int| 0 <= b < p implies s[b] == bit_of(i1 + 1, b as nat) by {
                lemma_hsynd_flip(w, i1, b as nat);
                assert(!hsynd_bit(w, b as nat));
            }
        }
        crate::bits::lemma_bits_vec_nonzero((i1 + 1) as nat, p);
        assert(s != zero_vector(p));
        lemma_parity_flip(w, i1);
        assert(parity_spec(data) == !parity_spec(w));
    } else {
        let data = flip(flip(w, i1), i2);
        assert(r.take(n as int) =~= data);
        assert(r[n as int] == parity_spec(w));
        let s = hamming_syndrome_spec(data, p);
        assert forall|b: int| 0 <= b < p implies s[b] == (bit_of(i1 + 1, b as nat) ^ bit_of(
            i2 + 1,
            b as nat,
        )) by {
            lemma_hsynd_flip(w, i1, b as nat);
            lemma_hsynd_flip(flip(w, i1), i2, b as nat);
            assert(!hsynd_bit(w, b as nat));
        }
        assert(s != zero_vector(p)) by {
            if s == zero_vector(p) {
                let a1 = i1 + 1;
                let a2 = i2 + 1;
                assert forall|t: nat| t < p implies #[trigger] bit_of(a1, t) == bit_of(a2, t) by {
                    assert(s[t as int] == false);
                }
                lemma_bits_inj(a1 as nat, a2 as nat, p);
                assert(false);
            }
        }
        lemma_parity_flip(w, i1);
        lemma_parity_flip(flip(w, i1), i2);
        assert(parity_spec(data) == parity_spec(w));
    }
}

} // verus!
