//! Configuration of an experiment batch: the selected code family, the
//! message length with its derived parameters, the trial count and error
//! probability, and the lazily built code values, invalidated whenever a
//! parameter changes.

use vstd::prelude::*;
use crate::cyclic::{create_cyclic_code, cyclic_table_ok, CyclicCode};
use crate::hamming::HammingCode;
use crate::params::{
    compute_hamming_n_from_k, compute_n_from_k, lemma_bound_monotone, satisfies_hamming_bound,
    MAX_MESSAGE_LEN,
};
use crate::rng::ErrorProb;
use crate::systematic::{build_generator_matrix, SystematicCode};

verus! {

/// Which code family the experiments exercise.
#[derive(PartialEq, Eq, Structural, Clone, Copy, Debug)]
pub enum SelectedCodeType {
    Systematic,
    Hamming,
    Cyclic,
}

/// Configuration of the coding experiments.
pub struct CodeConfig {
    /// The selected code family.
    pub code_type: SelectedCodeType,
    /// Message length.
    pub k: usize,
    /// Codeword length derived from `k`.
    pub n: usize,
    /// Number of parity bits derived from `k`.
    pub p: usize,
    /// How many trials one batch runs.
    pub experiments: usize,
    /// Per-trial error probability (systematic and cyclic families).
    pub error_probability: ErrorProb,
    /// Whether the front end shows matrices in compact form.
    pub compact_view: bool,
    /// The built systematic code, if the family is selected and built.
    pub systematic_code: Option<SystematicCode>,
    /// The built Hamming code, if the family is selected and built.
    pub hamming_code: Option<HammingCode>,
    /// The built cyclic code, if the family is selected and built.
    pub cyclic_code: Option<CyclicCode>,
}

impl CodeConfig {
    /// Only the selected family's code value may be present.
    pub open spec fn only_current_code(&self) -> bool {
        match self.code_type {
            SelectedCodeType::Systematic => self.hamming_code is None && self.cyclic_code
                is None,
            SelectedCodeType::Hamming => self.systematic_code is None && self.cyclic_code
                is None,
            SelectedCodeType::Cyclic => self.systematic_code is None && self.hamming_code
                is None,
        }
    }

    /// The parameters agree with the minimal-parity derivation for `k`,
    /// the probability is a valid rational, only the selected family's
    /// code is present, and a present code is well-formed with matching
    /// dimensions.
    pub open spec fn wf(&self) -> bool {
        &&& 1 <= self.k <= MAX_MESSAGE_LEN
        &&& self.n == self.k + self.p
        &&& 2 <= self.p <= 11
        &&& satisfies_hamming_bound(self.k as nat, self.p as nat)
        &&& !satisfies_hamming_bound(self.k as nat, (self.p - 1) as nat)
        &&& self.error_probability.wf()
        &&& self.only_current_code()
        &&& match self.systematic_code {
            Some(c) => c.wf() && c.k == self.k && c.n == self.n && c.p == self.p,
            None => true,
        }
        &&& match self.hamming_code {
            Some(c) => c.wf() && c.k == self.k && c.n == self.n && c.p == self.p,
            None => true,
        }
        &&& match self.cyclic_code {
            Some(c) => c.wf() && c.k == self.k && c.n == self.n && c.p == self.p,
            None => true,
        }
    }

    /// The selected family's code has been built.
    pub open spec fn can_run_spec(&self) -> bool {
        match self.code_type {
            SelectedCodeType::Systematic => self.systematic_code is Some,
            SelectedCodeType::Hamming => self.hamming_code is Some,
            SelectedCodeType::Cyclic => self.cyclic_code is Some,
        }
    }

    /// A fresh configuration for message length `k`: systematic family,
    /// six trials, error probability one half, no code built yet.
    pub fn new(k: usize) -> (r: CodeConfig)
        requires
            1 <= k <= MAX_MESSAGE_LEN,
        ensures
            r.wf(),
            r.code_type == SelectedCodeType::Systematic,
            r.k == k,
            r.experiments == 6,
            r.error_probability == (ErrorProb { num: 1, den: 2 }),
            !r.compact_view,
            r.systematic_code is None,
            r.hamming_code is None,
            r.cyclic_code is None,
    {
        let (n, p) = compute_n_from_k(k);
        CodeConfig {
            code_type: SelectedCodeType::Systematic,
            k,
            n,
            p,
            experiments: 6,
            error_probability: ErrorProb { num: 1, den: 2 },
            compact_view: false,
            systematic_code: None,
            hamming_code: None,
            cyclic_code: None,
        }
    }

    /// Switches the code family and discards the other families' built
    /// codes.
    pub fn set_code_type(&mut self, code_type: SelectedCodeType)
        requires
            old(self).wf(),
        ensures
            final(self).wf(),
            final(self).code_type == code_type,
            final(self).k == old(self).k,
            final(self).n == old(self).n,
            final(self).p == old(self).p,
            final(self).experiments == old(self).experiments,
            final(self).error_probability == old(self).error_probability,
            final(self).compact_view == old(self).compact_view,
            match code_type {
                SelectedCodeType::Systematic => final(self).systematic_code == old(
                    self,
                ).systematic_code && final(self).hamming_code is None && final(self).cyclic_code
                    is None,
                SelectedCodeType::Hamming => final(self).hamming_code == old(self).hamming_code
                    && final(self).systematic_code is None && final(self).cyclic_code is None,
                SelectedCodeType::Cyclic => final(self).cyclic_code == old(self).cyclic_code
                    && final(self).systematic_code is None && final(self).hamming_code is None,
            },
    {
        self.code_type = code_type;
        match code_type {
            SelectedCodeType::Systematic => {
                self.hamming_code = None;
                self.cyclic_code = None;
            },
            SelectedCodeType::Hamming => {
                self.systematic_code = None;
                self.cyclic_code = None;
            },
            SelectedCodeType::Cyclic => {
                self.systematic_code = None;
                self.hamming_code = None;
            },
        }
    }

    /// Whether experiments can run: the selected family's code is built.
    pub fn can_run_experiments(&self) -> (r: bool)
        ensures
            r == self.can_run_spec(),
    {
        match self.code_type {
            SelectedCodeType::Systematic => self.systematic_code.is_some(),
            SelectedCodeType::Hamming => self.hamming_code.is_some(),
            SelectedCodeType::Cyclic => self.cyclic_code.is_some(),
        }
    }

    /// Re-derives `n` and `p` after a change of `k` (the derivation is
    /// the same for every family) and discards the selected family's
    /// stale code.
    pub fn update_n_and_p(&mut self)
        requires
            1 <= old(self).k <= MAX_MESSAGE_LEN,
            old(self).error_probability.wf(),
            old(self).only_current_code(),
        ensures
            final(self).wf(),
            final(self).code_type == old(self).code_type,
            final(self).k == old(self).k,
            final(self).n == final(self).k + final(self).p,
            satisfies_hamming_bound(final(self).k as nat, final(self).p as nat),
            !satisfies_hamming_bound(final(self).k as nat, (final(self).p - 1) as nat),
            final(self).experiments == old(self).experiments,
            final(self).error_probability == old(self).error_probability,
            final(self).compact_view == old(self).compact_view,
            final(self).systematic_code is None,
            final(self).hamming_code is None,
            final(self).cyclic_code is None,
    {
        let kk = self.k;
        let np = match self.code_type {
            SelectedCodeType::Hamming => compute_hamming_n_from_k(kk),
            SelectedCodeType::Systematic | SelectedCodeType::Cyclic => compute_n_from_k(kk),
        };
        self.n = np.0;
        self.p = np.1;
        match self.code_type {
            SelectedCodeType::Systematic => {
                self.systematic_code = None;
            },
            SelectedCodeType::Hamming => {
                self.hamming_code = None;
            },
            SelectedCodeType::Cyclic => {
                self.cyclic_code = None;
            },
        }
    }

    /// Builds the selected family's code if it is not built yet. The
    /// systematic and Hamming constructions always succeed; the cyclic
    /// one succeeds exactly when the derived degree is supported and the
    /// syndrome table check finds no collision.
    pub fn ensure_code_initialized(&mut self)
        requires
            old(self).wf(),
        ensures
            final(self).wf(),
            final(self).code_type == old(self).code_type,
            final(self).k == old(self).k,
            final(self).n == old(self).n,
            final(self).p == old(self).p,
            final(self).experiments == old(self).experiments,
            final(self).error_probability == old(self).error_probability,
            final(self).compact_view == old(self).compact_view,
            old(self).code_type == SelectedCodeType::Systematic ==> final(self).systematic_code
                is Some,
            old(self).code_type == SelectedCodeType::Hamming ==> final(self).hamming_code
                is Some,
            old(self).code_type == SelectedCodeType::Cyclic ==> (final(self).cyclic_code
                is Some <==> (old(self).cyclic_code is Some || (2 <= old(self).p <= 8
                && cyclic_table_ok(old(self).n as nat, old(self).p as nat)))),
    {
        match self.code_type {
            SelectedCodeType::Systematic => {
                if self.systematic_code.is_none() {
                    let code = build_generator_matrix(self.k, self.n);
                    self.systematic_code = Some(code);
                }
            },
            SelectedCodeType::Hamming => {
                if self.hamming_code.is_none() {
                    self.hamming_code = Some(
                        HammingCode { k: self.k, n: self.n, p: self.p },
                    );
                }
            },
            SelectedCodeType::Cyclic => {
                if self.cyclic_code.is_none() {
                    let created = create_cyclic_code(self.k);
                    match created {
                        Some(code) => {
                            proof {
                                if code.p < self.p {
                                    lemma_bound_monotone(
                                        self.k as nat,
                                        code.p as nat,
                                        (self.p - 1) as nat,
                                    );
                                }
                                if code.p > self.p {
                                    lemma_bound_monotone(
                                        self.k as nat,
                                        self.p as nat,
                                        (code.p - 1) as nat,
                                    );
                                }
                                assert(code.p == self.p);
                            }
                            self.cyclic_code = Some(code);
                        },
                        None => {
                            proof {
                                if 2 <= self.p <= 8 {
                                    assert(satisfies_hamming_bound(
                                        self.k as nat,
                                        self.p as nat,
                                    ) && !satisfies_hamming_bound(
                                        self.k as nat,
                                        (self.p - 1) as nat,
                                    ) && 2 <= self.p as nat <= 8);
                                    assert(!cyclic_table_ok(
                                        (self.k + self.p as nat) as nat,
                                        self.p as nat,
                                    ));
                                }
                            }
                        },
                    }
                }
            },
        }
    }
}

} // verus!
