//! The experiment harness: for each trial it draws a random message,
//! encodes it under the selected code family, injects channel errors per
//! that family's error model, decodes, and packages everything that the
//! front end displays into one immutable record.

use vstd::prelude::*;
use crate::config::{CodeConfig, SelectedCodeType};
use crate::cyclic::{
    compute_syndrome_cyclic, decode_cyclic, decode_cyclic_spec, encode_cyclic,
    encode_cyclic_spec, inject_single_error_cyclic, pmod, polynomial_to_bits, CyclicCode,
    CyclicErrorInfo,
};
use crate::hamming::{
    add_parity_bit, compute_syndrome_hamming, decode_hamming, decode_hamming_spec,
    encode_hamming, generate_error_multiplicity, hamming_syndrome_spec, inject_errors,
    is_hamming_codeword, parity_spec, HammingCode, HammingErrorInfo,
};
use crate::linalg::{flip, mat_view, vec_mat_mul, zero_vector};
use crate::params::nonpow_upto;
use crate::rng::ChannelRng;
use crate::systematic::{
    compute_syndrome, correct_error, correct_spec, encode_message, inject_single_error,
    syndrome_spec, ErrorInfo, SystematicCode,
};

verus! {

/// The code family a result record belongs to.
#[derive(PartialEq, Eq, Structural, Clone, Copy, Debug)]
pub enum CodeType {
    Systematic,
    Hamming,
    Cyclic,
}

/// The decoding outcome of a trial, tagged by family.
#[derive(PartialEq, Eq, Structural, Clone, Copy, Debug)]
pub enum ErrorInfoType {
    Systematic(ErrorInfo),
    Hamming(HammingErrorInfo),
    Cyclic(CyclicErrorInfo),
}

/// Everything one trial produced: the message, the codeword (extended
/// with the overall parity bit for the Hamming family), the injected
/// error positions, the received word, its syndrome, the corrected word
/// and the decoding outcome. Created once per trial, never mutated.
#[derive(Clone)]
pub struct Labs4To6ExperimentResult {
    pub code_type: CodeType,
    pub message: Vec<bool>,
    pub codeword: Vec<bool>,
    pub codeword_with_parity: Option<Vec<bool>>,
    pub error_multiplicity: usize,
    /// Injected positions: 1-indexed for the single-error families,
    /// 0-indexed raw draw positions for the Hamming family.
    pub error_positions: Vec<usize>,
    pub received: Vec<bool>,
    pub syndrome: Vec<bool>,
    pub overall_parity: Option<bool>,
    pub corrected: Vec<bool>,
    pub error_info: ErrorInfoType,
}

/// Consistency of one systematic-family trial record: the codeword
/// encodes the message, the received word differs from it exactly at the
/// reported positions, and syndrome, corrected word and outcome are the
/// decoding of the received word.
pub open spec fn systematic_trial_ok(r: Labs4To6ExperimentResult, code: SystematicCode) -> bool {
    let h = mat_view(&code.parity_check);
    &&& r.code_type == CodeType::Systematic
    &&& r.message@.len() == code.k
    &&& r.codeword@ == vec_mat_mul(r.message@, mat_view(&code.generator))
    &&& r.error_multiplicity <= 1
    &&& r.error_positions@.len() == r.error_multiplicity
    &&& (r.error_multiplicity == 0 ==> r.received@ == r.codeword@)
    &&& (r.error_multiplicity == 1 ==> 1 <= r.error_positions@[0] <= code.n && r.received@
        == flip(r.codeword@, r.error_positions@[0] - 1))
    &&& r.syndrome@ == syndrome_spec(h, r.received@)
    &&& r.corrected@ == correct_spec(h, r.received@).0
    &&& r.error_info == ErrorInfoType::Systematic(correct_spec(h, r.received@).1)
    &&& r.codeword_with_parity is None
    &&& r.overall_parity is None
}

/// Consistency of one Hamming-family trial record.
pub open spec fn hamming_trial_ok(r: Labs4To6ExperimentResult, code: HammingCode) -> bool {
    let nn = code.n as nat;
    let pp = code.p as nat;
    &&& r.code_type == CodeType::Hamming
    &&& r.message@.len() == code.k
    &&& is_hamming_codeword(r.codeword@, nn, pp)
    &&& forall|j: int|
        0 <= j < code.k ==> r.codeword@[#[trigger] nonpow_upto(nn)[j] - 1] == r.message@[j]
    &&& match r.codeword_with_parity {
        Some(cwp) => cwp@ == r.codeword@.push(parity_spec(r.codeword@)),
        None => false,
    }
    &&& r.error_multiplicity <= 2
    &&& r.error_positions@.len() == r.error_multiplicity
    &&& forall|l: int|
        0 <= l < r.error_positions@.len() ==> (#[trigger] r.error_positions@[l] as int) < code.n
            + 1
    &&& r.received@.len() == code.n + 1
    &&& (r.error_multiplicity == 0 ==> r.received@ == r.codeword_with_parity.unwrap()@)
    &&& (r.error_multiplicity == 1 ==> r.received@ == flip(
        r.codeword_with_parity.unwrap()@,
        r.error_positions@[0] as int,
    ))
    &&& (r.error_multiplicity == 2 ==> r.error_positions@[0] != r.error_positions@[1]
        && r.received@ == flip(
        flip(r.codeword_with_parity.unwrap()@, r.error_positions@[0] as int),
        r.error_positions@[1] as int,
    ))
    &&& r.syndrome@ == hamming_syndrome_spec(r.received@.take(code.n as int), pp)
    &&& r.overall_parity == Some(
        r.received@[code.n as int] == parity_spec(r.received@.take(code.n as int)),
    )
    &&& r.corrected@ == decode_hamming_spec(r.received@, nn, pp).0
    &&& r.error_info == ErrorInfoType::Hamming(decode_hamming_spec(r.received@, nn, pp).1)
}

/// Consistency of one cyclic-family trial record.
pub open spec fn cyclic_trial_ok(r: Labs4To6ExperimentResult, code: CyclicCode) -> bool {
    let g = code.generator_polynomial@;
    &&& r.code_type == CodeType::Cyclic
    &&& r.message@.len() == code.k
    &&& r.codeword@ == encode_cyclic_spec(r.message@, g)
    &&& r.error_multiplicity <= 1
    &&& r.error_positions@.len() == r.error_multiplicity
    &&& (r.error_multiplicity == 0 ==> r.received@ == r.codeword@)
    &&& (r.error_multiplicity == 1 ==> 1 <= r.error_positions@[0] <= code.n && r.received@
        == flip(r.codeword@, r.error_positions@[0] - 1))
    &&& r.syndrome@ == pmod(r.received@, g)
    &&& r.corrected@ == decode_cyclic_spec(r.received@, g, code.n as nat, code.p as nat).0
    &&& r.error_info == ErrorInfoType::Cyclic(
        decode_cyclic_spec(r.received@, g, code.n as nat, code.p as nat).1,
    )
    &&& r.codeword_with_parity is None
    &&& r.overall_parity is None
}

/// Consistency of one trial record with the configuration it was run
/// under.
pub open spec fn trial_ok(r: Labs4To6ExperimentResult, cfg: CodeConfig) -> bool {
    match cfg.code_type {
        SelectedCodeType::Systematic => match cfg.systematic_code {
            Some(code) => systematic_trial_ok(r, code),
            None => false,
        },
        SelectedCodeType::Hamming => match cfg.hamming_code {
            Some(code) => hamming_trial_ok(r, code),
            None => false,
        },
        SelectedCodeType::Cyclic => match cfg.cyclic_code {
            Some(code) => cyclic_trial_ok(r, code),
            None => false,
        },
    }
}

/// Draws a uniformly random message of the given length.
fn random_message(k: usize, rng: &mut ChannelRng) -> (msg: Vec<bool>)
    ensures
        msg@.len() == k,
{
    let mut msg: Vec<bool> = Vec::new();
    let mut j: usize = 0;
    while j < k
        invariant
            0 <= j <= k,
            msg@.len() == j,
        decreases k - j,
    {
        let b = rng.next_bit();
        msg.push(b);
        j = j + 1;
    }
    msg
}

/// Runs one batch of experiments under the given configuration: each
/// trial draws a random message, encodes it, injects errors per the
/// family's channel model, decodes, and records the whole pipeline. The
/// batch never aborts on an uncorrectable outcome — that is data.
pub fn run_experiments(config: &CodeConfig, rng: &mut ChannelRng) -> (results: Vec<
    Labs4To6ExperimentResult,
>)
    requires
        config.wf(),
        config.can_run_spec(),
    ensures
        results@.len() == config.experiments,
        forall|t: int| 0 <= t < results@.len() ==> #[trigger] trial_ok(results@[t], *config),
{
    let count = config.experiments;
    let mut results: Vec<Labs4To6ExperimentResult> = Vec::new();
    let mut t: usize = 0;
    while t < count
        invariant
            config.wf(),
            config.can_run_spec(),
            count == config.experiments,
            0 <= t <= count,
            results@.len() == t,
            forall|l: int| 0 <= l < t ==> #[trigger] trial_ok(results@[l], *config),
        decreases count - t,
    {
        match config.code_type {
            SelectedCodeType::Systematic => {
                match &config.systematic_code {
                    Some(code) => {
                        let message = random_message(code.k, rng);
                        let codeword = encode_message(&message, code);
                        let (received, error_position) = inject_single_error(
                            &codeword,
                            &config.error_probability,
                            rng,
                        );
                        proof {
                            assert forall|i: int|
                                0 <= i < code.parity_check@.len() implies (#[trigger] code
                                .parity_check@[i])@.len() == received@.len() by {
                                assert(mat_view(&code.parity_check)[i]
                                    == code.parity_check@[i]@);
                            }
                        }
                        let syndrome = compute_syndrome(&code.parity_check, &received);
                        let (corrected, error_info) = correct_error(
                            &code.parity_check,
                            &received,
                        );
                        let mut error_positions: Vec<usize> = Vec::new();
                        let error_multiplicity: usize;
                        match error_position {
                            Some(pos) => {
                                error_positions.push(pos + 1);
                                error_multiplicity = 1;
                            },
                            None => {
                                error_multiplicity = 0;
                            },
                        }
                        let record = Labs4To6ExperimentResult {
                            code_type: CodeType::Systematic,
                            message,
                            codeword,
                            codeword_with_parity: None,
                            error_multiplicity,
                            error_positions,
                            received,
                            syndrome,
                            overall_parity: None,
                            corrected,
                            error_info: ErrorInfoType::Systematic(error_info),
                        };
                        proof {
                            assert(systematic_trial_ok(record, *code));
                        }
                        results.push(record);
                    },
                    None => {
                        proof {
                            assert(false);
                        }
                    },
                }
            },
            SelectedCodeType::Hamming => {
                match &config.hamming_code {
                    Some(code) => {
                        let message = random_message(code.k, rng);
                        let codeword = encode_hamming(&message, code);
                        let codeword_with_parity = add_parity_bit(&codeword);
                        let error_multiplicity = generate_error_multiplicity(rng);
                        let (received, error_positions) = inject_errors(
                            &codeword_with_parity,
                            error_multiplicity,
                            rng,
                        );
                        let n = code.n;
                        let mut codeword_part: Vec<bool> = Vec::new();
                        let mut i: usize = 0;
                        while i < n
                            invariant
                                received@.len() == n + 1,
                                code.wf(),
                                n == code.n,
                                0 <= i <= n,
                                codeword_part@.len() == i,
                                forall|l: int|
                                    0 <= l < i ==> codeword_part@[l] == received@[l],
                            decreases n - i,
                        {
                            codeword_part.push(received[i]);
                            i = i + 1;
                        }
                        proof {
                            assert(codeword_part@ =~= received@.take(n as int));
                        }
                        let (syndrome, computed_parity) = compute_syndrome_hamming(
                            &codeword_part,
                            code,
                        );
                        let received_parity = received[n];
                        let overall_parity = received_parity == computed_parity;
                        let (corrected, error_info) = decode_hamming(&received, code);
                        let record = Labs4To6ExperimentResult {
                            code_type: CodeType::Hamming,
                            message,
                            codeword,
                            codeword_with_parity: Some(codeword_with_parity),
                            error_multiplicity,
                            error_positions,
                            received,
                            syndrome,
                            overall_parity: Some(overall_parity),
                            corrected,
                            error_info: ErrorInfoType::Hamming(error_info),
                        };
                        proof {
                            assert(hamming_trial_ok(record, *code));
                        }
                        results.push(record);
                    },
                    None => {
                        proof {
                            assert(false);
                        }
                    },
                }
            },
            SelectedCodeType::Cyclic => {
                match &config.cyclic_code {
                    Some(code) => {
                        let message = random_message(code.k, rng);
                        let codeword = encode_cyclic(&message, code);
                        let (received, error_position) = inject_single_error_cyclic(
                            &codeword,
                            &config.error_probability,
                            rng,
                        );
                        let syndrome_poly = compute_syndrome_cyclic(&received, code);
                        let syndrome = polynomial_to_bits(&syndrome_poly, code.p);
                        proof {
                            assert(syndrome@ =~= syndrome_poly@);
                        }
                        let (corrected, error_info) = decode_cyclic(&received, code);
                        let mut error_positions: Vec<usize> = Vec::new();
                        let error_multiplicity: usize;
                        match error_position {
                            Some(pos) => {
                                error_positions.push(pos + 1);
                                error_multiplicity = 1;
                            },
                            None => {
                                error_multiplicity = 0;
                            },
                        }
                        let record = Labs4To6ExperimentResult {
                            code_type: CodeType::Cyclic,
                            message,
                            codeword,
                            codeword_with_parity: None,
                            error_multiplicity,
                            error_positions,
                            received,
                            syndrome,
                            overall_parity: None,
                            corrected,
                            error_info: ErrorInfoType::Cyclic(error_info),
                        };
                        proof {
                            assert(cyclic_trial_ok(record, *code));
                        }
                        results.push(record);
                    },
                    None => {
                        proof {
                            assert(false);
                        }
                    },
                }
            },
        }
        t = t + 1;
    }
    results
}

} // verus!
