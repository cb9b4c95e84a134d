use channel_codes::config::{CodeConfig, SelectedCodeType};
use channel_codes::experiments::{run_experiments, CodeType, ErrorInfoType};
use channel_codes::hamming::{generate_error_multiplicity, inject_errors};
use channel_codes::rng::{ChannelRng, ErrorProb};
use channel_codes::systematic::{encode_message, inject_single_error, ErrorInfo};

fn bits(s: &str) -> Vec<bool> {
    s.chars().map(|c| c == '1').collect()
}

#[test]
fn error_prob_validation() {
    assert!(ErrorProb::new(0, 1).is_some());
    assert!(ErrorProb::new(1, 1).is_some());
    assert!(ErrorProb::new(1, 2).is_some());
    assert!(ErrorProb::new(2, 1).is_none());
    assert!(ErrorProb::new(0, 0).is_none());
}

#[test]
fn probability_zero_never_alters_probability_one_always_does() {
    // Probability 0 must never alter the codeword across 10,000 trials;
    // probability 1 must alter it in every trial.
    let mut rng = ChannelRng::from_seed(7);
    let codeword = bits("1011010");
    let never = ErrorProb::new(0, 1).unwrap();
    let always = ErrorProb::new(1, 1).unwrap();
    for _ in 0..10_000 {
        let (received, pos) = inject_single_error(&codeword, &never, &mut rng);
        assert!(pos.is_none());
        assert_eq!(received, codeword);
    }
    for _ in 0..10_000 {
        let (received, pos) = inject_single_error(&codeword, &always, &mut rng);
        let i = pos.expect("probability one must flip a bit");
        assert!(i < codeword.len());
        assert_ne!(received, codeword);
        let mut back = received.clone();
        back[i] = !back[i];
        assert_eq!(back, codeword);
    }
}

#[test]
fn seeded_rng_is_reproducible() {
    let codeword = bits("1011010");
    let always = ErrorProb::new(1, 1).unwrap();
    let mut rng1 = ChannelRng::from_seed(42);
    let mut rng2 = ChannelRng::from_seed(42);
    for _ in 0..100 {
        let (r1, p1) = inject_single_error(&codeword, &always, &mut rng1);
        let (r2, p2) = inject_single_error(&codeword, &always, &mut rng2);
        assert_eq!(p1, p2);
        assert_eq!(r1, r2);
    }
}

#[test]
fn error_multiplicity_is_at_most_two() {
    let mut rng = ChannelRng::from_seed(3);
    for _ in 0..1000 {
        assert!(generate_error_multiplicity(&mut rng) <= 2);
    }
}

#[test]
fn inject_errors_flips_distinct_positions() {
    let mut rng = ChannelRng::from_seed(5);
    let word = bits("01100110");
    for mult in 0..=2usize {
        for _ in 0..200 {
            let (received, positions) = inject_errors(&word, mult, &mut rng);
            assert_eq!(positions.len(), mult);
            if mult == 2 {
                assert_ne!(positions[0], positions[1]);
            }
            let differing = received
                .iter()
                .zip(word.iter())
                .filter(|(a, b)| a != b)
                .count();
            assert_eq!(differing, mult);
            for &p in &positions {
                assert!(p < word.len());
                assert_ne!(received[p], word[p]);
            }
        }
    }
}

#[test]
fn cyclic_unsupported_degree_is_rejected() {
    // k = 250 derives p = 9, past the supported generator polynomials:
    // construction fails and the configuration reports it cannot run.
    assert!(channel_codes::cyclic::create_cyclic_code(250).is_none());
    let mut config = CodeConfig::new(250);
    config.set_code_type(SelectedCodeType::Cyclic);
    config.ensure_code_initialized();
    assert!(!config.can_run_experiments());
    // The largest supported cyclic message length still succeeds.
    assert!(channel_codes::cyclic::create_cyclic_code(247).is_some());
}

#[test]
fn config_new_derives_parameters() {
    let config = CodeConfig::new(60);
    assert_eq!(config.code_type, SelectedCodeType::Systematic);
    assert_eq!(config.k, 60);
    assert_eq!((config.n, config.p), (67, 7));
    assert_eq!(config.experiments, 6);
    assert!(config.systematic_code.is_none());
    assert!(!config.can_run_experiments());
}

#[test]
fn config_set_code_type_clears_other_families() {
    let mut config = CodeConfig::new(4);
    config.ensure_code_initialized();
    assert!(config.systematic_code.is_some());
    config.set_code_type(SelectedCodeType::Hamming);
    assert!(config.systematic_code.is_none());
    assert!(!config.can_run_experiments());
    config.ensure_code_initialized();
    assert!(config.hamming_code.is_some());
    assert!(config.can_run_experiments());
}

#[test]
fn config_update_n_and_p_invalidates_code() {
    let mut config = CodeConfig::new(4);
    config.ensure_code_initialized();
    config.k = 5;
    config.update_n_and_p();
    assert_eq!((config.n, config.p), (9, 4));
    assert!(config.systematic_code.is_none());
}

#[test]
fn run_systematic_experiments_without_noise() {
    let mut config = CodeConfig::new(4);
    config.error_probability = ErrorProb::new(0, 1).unwrap();
    config.experiments = 20;
    config.ensure_code_initialized();
    let mut rng = ChannelRng::from_seed(11);
    let results = run_experiments(&config, &mut rng);
    assert_eq!(results.len(), 20);
    let code = config.systematic_code.as_ref().unwrap();
    for r in &results {
        assert_eq!(r.code_type, CodeType::Systematic);
        assert_eq!(r.message.len(), 4);
        assert_eq!(r.codeword, encode_message(&r.message, code));
        assert_eq!(r.received, r.codeword);
        assert_eq!(r.corrected, r.codeword);
        assert_eq!(r.error_multiplicity, 0);
        assert!(r.error_positions.is_empty());
        assert!(r.syndrome.iter().all(|b| !b));
        assert!(matches!(r.error_info, ErrorInfoType::Systematic(ErrorInfo::NoError)));
    }
}

#[test]
fn run_systematic_experiments_with_certain_noise() {
    let mut config = CodeConfig::new(4);
    config.error_probability = ErrorProb::new(1, 1).unwrap();
    config.experiments = 20;
    config.ensure_code_initialized();
    let mut rng = ChannelRng::from_seed(13);
    let results = run_experiments(&config, &mut rng);
    for r in &results {
        assert_eq!(r.error_multiplicity, 1);
        assert_eq!(r.error_positions.len(), 1);
        let pos = r.error_positions[0];
        assert!(1 <= pos && pos <= 7);
        assert_ne!(r.received, r.codeword);
        // The single error is corrected.
        assert_eq!(r.corrected, r.codeword);
        assert!(matches!(
            r.error_info,
            ErrorInfoType::Systematic(ErrorInfo::SingleError(p)) if p == pos - 1
        ));
    }
}

#[test]
fn run_hamming_experiments() {
    let mut config = CodeConfig::new(4);
    config.set_code_type(SelectedCodeType::Hamming);
    config.experiments = 50;
    config.ensure_code_initialized();
    let mut rng = ChannelRng::from_seed(17);
    let results = run_experiments(&config, &mut rng);
    assert_eq!(results.len(), 50);
    for r in &results {
        assert_eq!(r.code_type, CodeType::Hamming);
        assert_eq!(r.codeword.len(), 7);
        let ext = r.codeword_with_parity.as_ref().unwrap();
        assert_eq!(ext.len(), 8);
        assert_eq!(&ext[..7], &r.codeword[..]);
        assert_eq!(r.received.len(), 8);
        assert_eq!(r.error_positions.len(), r.error_multiplicity);
        assert!(r.error_multiplicity <= 2);
        assert!(r.overall_parity.is_some());
        match r.error_info {
            ErrorInfoType::Hamming(info) => match r.error_multiplicity {
                0 => assert!(matches!(
                    info,
                    channel_codes::hamming::HammingErrorInfo::NoError
                )),
                1 => {
                    // One error is always corrected back to the codeword,
                    // whether it hit a data position or the parity bit.
                    assert_eq!(r.corrected, r.codeword);
                }
                _ => assert!(matches!(
                    info,
                    channel_codes::hamming::HammingErrorInfo::DoubleError
                )),
            },
            _ => panic!("hamming trial must carry a hamming outcome"),
        }
    }
}

#[test]
fn run_cyclic_experiments() {
    let mut config = CodeConfig::new(4);
    config.set_code_type(SelectedCodeType::Cyclic);
    config.error_probability = ErrorProb::new(1, 2).unwrap();
    config.experiments = 50;
    config.ensure_code_initialized();
    assert!(config.can_run_experiments());
    let mut rng = ChannelRng::from_seed(19);
    let results = run_experiments(&config, &mut rng);
    assert_eq!(results.len(), 50);
    for r in &results {
        assert_eq!(r.code_type, CodeType::Cyclic);
        assert_eq!(r.codeword.len(), 7);
        assert_eq!(&r.codeword[..4], &r.message[..]);
        // A single injected error is always corrected.
        assert_eq!(r.corrected, r.codeword);
        match (r.error_multiplicity, &r.error_info) {
            (0, ErrorInfoType::Cyclic(channel_codes::cyclic::CyclicErrorInfo::NoError)) => {}
            (1, ErrorInfoType::Cyclic(channel_codes::cyclic::CyclicErrorInfo::SingleError(p))) => {
                assert_eq!(*p, r.error_positions[0] - 1);
            }
            other => panic!("unexpected cyclic outcome {:?}", other.0),
        }
    }
}
