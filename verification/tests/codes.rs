use channel_codes::cyclic::{
    compute_syndrome_cyclic, create_cyclic_code, decode_cyclic, encode_cyclic,
    polynomial_to_bits, CyclicErrorInfo,
};
use channel_codes::hamming::{
    add_parity_bit, compute_syndrome_hamming, decode_hamming, encode_hamming, extract_message,
    HammingCode, HammingErrorInfo,
};
use channel_codes::linalg::{dot_product, matrix_column, multiply, transpose};
use channel_codes::systematic::{
    build_generator_matrix, compute_syndrome, correct_error, encode_message, ErrorInfo,
};
use channel_codes::{compute_hamming_n_from_k, compute_n_from_k, format_bits};

fn bits(s: &str) -> Vec<bool> {
    s.chars().map(|c| c == '1').collect()
}

#[test]
fn derivation_satisfies_bound_and_is_minimal() {
    for k in 1..=200usize {
        let (n, p) = compute_n_from_k(k);
        assert_eq!(n, k + p);
        assert!(1usize << p >= k + p + 1);
        assert!(1usize << (p - 1) < k + (p - 1) + 1);
    }
}

#[test]
fn derivation_examples() {
    assert_eq!(compute_n_from_k(4), (7, 3));
    assert_eq!(compute_n_from_k(5), (9, 4));
    assert_eq!(compute_n_from_k(60), (67, 7));
}

#[test]
fn derivation_k1_still_has_two_parity_bits() {
    let (n, p) = compute_n_from_k(1);
    assert_eq!(p, 2);
    assert_eq!(n, 3);
}

#[test]
fn hamming_derivation_matches_common_derivation() {
    for k in 1..=64usize {
        assert_eq!(compute_hamming_n_from_k(k), compute_n_from_k(k));
    }
}

#[test]
fn systematic_round_trip_no_error() {
    let code = build_generator_matrix(4, 7);
    let msg = bits("1011");
    let cw = encode_message(&msg, &code);
    assert_eq!(&cw[..4], &msg[..]);
    let (corrected, info) = correct_error(&code.parity_check, &cw);
    assert_eq!(info, ErrorInfo::NoError);
    assert_eq!(corrected, cw);
}

#[test]
fn systematic_single_error_all_positions() {
    let code = build_generator_matrix(4, 7);
    let msg = bits("1011");
    let cw = encode_message(&msg, &code);
    for i in 0..7 {
        let mut received = cw.clone();
        received[i] = !received[i];
        let (corrected, info) = correct_error(&code.parity_check, &received);
        assert_eq!(info, ErrorInfo::SingleError(i));
        assert_eq!(corrected, cw);
    }
}

#[test]
fn systematic_example_scenario() {
    // k = 4 gives p = 3, n = 7; encode [1,0,1,1], flip position 2, and the
    // syndrome must equal parity-check column 2.
    let (n, p) = compute_n_from_k(4);
    assert_eq!((n, p), (7, 3));
    let code = build_generator_matrix(4, 7);
    let msg = bits("1011");
    let cw = encode_message(&msg, &code);
    let mut received = cw.clone();
    received[2] = !received[2];
    let syndrome = compute_syndrome(&code.parity_check, &received);
    let col2 = matrix_column(&code.parity_check, 2);
    assert_eq!(syndrome, col2);
    let (corrected, info) = correct_error(&code.parity_check, &received);
    assert_eq!(info, ErrorInfo::SingleError(2));
    assert_eq!(corrected, cw);
}

#[test]
fn systematic_exact_codeword() {
    // Data columns are labelled by the non-powers of two in [1, 7]:
    // 3, 5, 6, 7. For the message 1011 the parity bits come out 010.
    let code = build_generator_matrix(4, 7);
    let cw = encode_message(&bits("1011"), &code);
    assert_eq!(cw, bits("1011010"));
}

#[test]
fn systematic_double_error_can_be_uncorrectable() {
    // k = 5 gives p = 4, n = 9, so the parity-check columns do not cover
    // every non-zero syndrome: flipping the bits labelled 3 and 9 yields
    // the syndrome of 10, which matches no column.
    let code = build_generator_matrix(5, 9);
    let cw = encode_message(&bits("00000"), &code);
    let mut received = cw.clone();
    received[0] = !received[0];
    received[4] = !received[4];
    let (corrected, info) = correct_error(&code.parity_check, &received);
    assert_eq!(info, ErrorInfo::Uncorrectable);
    assert_eq!(corrected, received);
}

#[test]
fn systematic_generator_identity_block() {
    let code = build_generator_matrix(4, 7);
    for i in 0..4 {
        for j in 0..4 {
            assert_eq!(code.generator[i][j], i == j);
        }
    }
    for r in 0..3 {
        for j in 4..7 {
            assert_eq!(code.parity_check[r][j], j - 4 == r);
        }
    }
}

#[test]
fn hamming_exact_codeword_and_parity() {
    let code = HammingCode { k: 4, n: 7, p: 3 };
    let cw = encode_hamming(&bits("1011"), &code);
    assert_eq!(cw, bits("0110011"));
    let ext = add_parity_bit(&cw);
    assert_eq!(ext, bits("01100110"));
    assert_eq!(extract_message(&cw, &code), bits("1011"));
}

#[test]
fn hamming_round_trip_no_error() {
    let code = HammingCode { k: 4, n: 7, p: 3 };
    let msg = bits("1011");
    let cw = encode_hamming(&msg, &code);
    let ext = add_parity_bit(&cw);
    let (corrected, info) = decode_hamming(&ext, &code);
    assert_eq!(info, HammingErrorInfo::NoError);
    assert_eq!(corrected, cw);
    assert_eq!(extract_message(&corrected, &code), msg);
}

#[test]
fn hamming_single_error_all_data_positions() {
    let code = HammingCode { k: 4, n: 7, p: 3 };
    let msg = bits("1011");
    let cw = encode_hamming(&msg, &code);
    let ext = add_parity_bit(&cw);
    for i in 0..7 {
        let mut received = ext.clone();
        received[i] = !received[i];
        let (corrected, info) = decode_hamming(&received, &code);
        assert_eq!(info, HammingErrorInfo::SingleError(i + 1));
        assert_eq!(corrected, cw);
    }
}

#[test]
fn hamming_sec_ded_table_all_four_branches() {
    let code = HammingCode { k: 4, n: 7, p: 3 };
    let cw = encode_hamming(&bits("1011"), &code);
    let ext = add_parity_bit(&cw);

    // Zero syndrome, parity matches: no error.
    let (corrected, info) = decode_hamming(&ext, &code);
    assert_eq!(info, HammingErrorInfo::NoError);
    assert_eq!(corrected, cw);

    // Zero syndrome, parity mismatch: the appended parity bit itself
    // flipped; the data portion is intact.
    let mut parity_hit = ext.clone();
    parity_hit[7] = !parity_hit[7];
    let (corrected, info) = decode_hamming(&parity_hit, &code);
    assert_eq!(info, HammingErrorInfo::ParityBitError);
    assert_eq!(corrected, cw);

    // Non-zero syndrome, parity mismatch: single correctable error at the
    // 1-indexed syndrome value.
    let mut single = ext.clone();
    single[4] = !single[4];
    let (syndrome, computed_parity) = compute_syndrome_hamming(&single[..7].to_vec(), &code);
    assert_eq!(syndrome, bits("101"));
    assert_ne!(single[7], computed_parity);
    let (corrected, info) = decode_hamming(&single, &code);
    assert_eq!(info, HammingErrorInfo::SingleError(5));
    assert_eq!(corrected, cw);

    // Non-zero syndrome, parity matches: double error, uncorrectable; the
    // n-bit portion is returned unchanged.
    let mut double = ext.clone();
    double[1] = !double[1];
    double[3] = !double[3];
    let (corrected, info) = decode_hamming(&double, &code);
    assert_eq!(info, HammingErrorInfo::DoubleError);
    assert_eq!(corrected, double[..7].to_vec());
}

#[test]
fn hamming_double_error_example_scenario() {
    // Multiplicity 2 at two known positions: decode reports a double
    // error and leaves the n-bit portion uncorrected.
    let code = HammingCode { k: 4, n: 7, p: 3 };
    let cw = encode_hamming(&bits("1011"), &code);
    let ext = add_parity_bit(&cw);
    let mut received = ext.clone();
    received[2] = !received[2];
    received[5] = !received[5];
    let (corrected, info) = decode_hamming(&received, &code);
    assert_eq!(info, HammingErrorInfo::DoubleError);
    assert_eq!(corrected, received[..7].to_vec());
}

#[test]
fn hamming_double_error_involving_parity_bit() {
    let code = HammingCode { k: 4, n: 7, p: 3 };
    let cw = encode_hamming(&bits("1011"), &code);
    let ext = add_parity_bit(&cw);
    let mut received = ext.clone();
    received[6] = !received[6];
    received[7] = !received[7];
    let (_, info) = decode_hamming(&received, &code);
    assert_eq!(info, HammingErrorInfo::DoubleError);
}

#[test]
fn cyclic_exact_encoding() {
    let code = create_cyclic_code(4).expect("table construction succeeds for k = 4");
    assert_eq!((code.k, code.n, code.p), (4, 7, 3));
    // Generator x^3 + x + 1.
    assert_eq!(code.generator_polynomial, bits("1011"));
    // x^6 mod (x^3 + x + 1) = x^2 + 1.
    assert_eq!(encode_cyclic(&bits("1000"), &code), bits("1000101"));
    // x^6 + x^4 + x^3 is exactly divisible.
    assert_eq!(encode_cyclic(&bits("1011"), &code), bits("1011000"));
}

#[test]
fn cyclic_round_trip_no_error() {
    let code = create_cyclic_code(4).expect("table construction succeeds for k = 4");
    let msg = bits("1101");
    let cw = encode_cyclic(&msg, &code);
    assert_eq!(&cw[..4], &msg[..]);
    let syndrome = compute_syndrome_cyclic(&cw, &code);
    assert!(syndrome.iter().all(|b| !b));
    let (corrected, info) = decode_cyclic(&cw, &code);
    assert_eq!(info, CyclicErrorInfo::NoError);
    assert_eq!(corrected, cw);
}

#[test]
fn cyclic_syndrome_table_decodes_every_single_error() {
    // Every entry of the precomputed table decodes its own single-bit
    // error pattern back to the zero-error codeword.
    let code = create_cyclic_code(4).expect("table construction succeeds for k = 4");
    let msg = bits("1101");
    let cw = encode_cyclic(&msg, &code);
    for i in 0..7 {
        let mut received = cw.clone();
        received[i] = !received[i];
        let syndrome = compute_syndrome_cyclic(&received, &code);
        assert_eq!(syndrome, code.syndrome_table[i].syndrome);
        assert_eq!(code.syndrome_table[i].position, i);
        let (corrected, info) = decode_cyclic(&received, &code);
        assert_eq!(info, CyclicErrorInfo::SingleError(i));
        assert_eq!(corrected, cw);
    }
}

#[test]
fn cyclic_table_has_distinct_nonzero_syndromes() {
    let code = create_cyclic_code(60).expect("table construction succeeds for k = 60");
    assert_eq!(code.syndrome_table.len(), code.n);
    for i in 0..code.n {
        assert!(code.syndrome_table[i].syndrome.iter().any(|&b| b));
        for j in 0..i {
            assert_ne!(code.syndrome_table[j].syndrome, code.syndrome_table[i].syndrome);
        }
    }
}

#[test]
fn cyclic_double_error_can_be_uncorrectable() {
    // k = 5 gives p = 4 and n = 9; two adjacent flips of the zero
    // codeword give the syndrome of x^11, which no single-bit pattern
    // produces.
    let code = create_cyclic_code(5).expect("table construction succeeds for k = 5");
    assert_eq!((code.n, code.p), (9, 4));
    let cw = encode_cyclic(&bits("00000"), &code);
    let mut received = cw.clone();
    received[0] = !received[0];
    received[1] = !received[1];
    let (corrected, info) = decode_cyclic(&received, &code);
    assert_eq!(info, CyclicErrorInfo::Uncorrectable);
    assert_eq!(corrected, received);
}

#[test]
fn polynomial_to_bits_pads_in_front() {
    assert_eq!(polynomial_to_bits(&bits("1"), 3), bits("001"));
    assert_eq!(polynomial_to_bits(&bits("101"), 3), bits("101"));
    assert_eq!(polynomial_to_bits(&bits(""), 2), bits("00"));
}

#[test]
fn format_bits_renders_ones_and_zeros() {
    assert_eq!(format_bits(&[true, false, true]), "101");
    assert_eq!(format_bits(&[]), "");
    assert_eq!(format_bits(&[false, false]), "00");
}

#[test]
fn dot_product_is_xor_of_pairwise_ands() {
    assert!(dot_product(&bits("110"), &bits("011")));
    assert!(!dot_product(&bits("111"), &bits("011")));
    assert!(!dot_product(&bits(""), &bits("")));
}

#[test]
fn multiply_and_transpose_small_matrix() {
    let m = vec![bits("10"), bits("11")];
    let t = transpose(&m, 2, 2);
    assert_eq!(t, vec![bits("11"), bits("01")]);
    // [1,1] * [[1,0],[1,1]] = [0,1]
    assert_eq!(multiply(&bits("11"), &m, 2), bits("01"));
}
