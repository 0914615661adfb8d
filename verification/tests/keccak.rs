use keccak256::base_conversion::base_conversion;
use keccak256::bits::{keccak_f_bits, permute, rotl64_exec, round_bits};
use keccak256::block_count::{
    block_count_final_check, lane_block_count, state_block_counts, BlockCount,
};
use keccak256::common::{rotation_offset, round_constant};
use keccak256::permutation::{
    constrain_out_state, decode_state9, decode_state13, permute_and_absorb, permute_and_absorb_words,
    state_b2_to_b13,
};
use keccak256::rho::rho;
use keccak256::tables::{
    base9_table_contains, binary_table_contains, build_base9_table, build_binary_table,
    chunk_b2_to_b13, chunk_b2_to_b9, chunk_b9_to_b13,
};
use keccak256::theta::theta;

/// A state of 25 words with one word set.
fn single_lane_state(idx: usize, value: u64) -> Vec<u64> {
    let mut s = vec![0u64; 25];
    s[idx] = value;
    s
}

/// The 17-lane next-input block with one word set.
fn single_lane_next(idx: usize, value: u64) -> Vec<u64> {
    let mut s = vec![0u64; 17];
    s[idx] = value;
    s
}

#[test]
fn test_pi_index_table() {
    // The Keccak pi map (x, y) -> (y, (2x + 3y) mod 5), enumerated for
    // all 25 lane positions as a literal table of flat indices.
    let expected: [(usize, usize); 25] = [
        (0, 0),
        (1, 8),
        (2, 11),
        (3, 19),
        (4, 22),
        (5, 2),
        (6, 5),
        (7, 13),
        (8, 16),
        (9, 24),
        (10, 4),
        (11, 7),
        (12, 10),
        (13, 18),
        (14, 21),
        (15, 1),
        (16, 9),
        (17, 12),
        (18, 15),
        (19, 23),
        (20, 3),
        (21, 6),
        (22, 14),
        (23, 17),
        (24, 20),
    ];
    for &(src, dst) in expected.iter() {
        let x = src / 5;
        let y = src % 5;
        assert_eq!(dst, 5 * y + (2 * x + 3 * y) % 5);
        // A state with only lane `src` set moves it to position `dst`.
        let state = single_lane_state(src, 1);
        let encoded = state_b2_to_b13(&state);
        let rotated = keccak256::pi::pi(&encoded);
        let decoded = decode_state13(&rotated);
        for k in 0..25 {
            assert_eq!(decoded[k], if k == dst { 1 } else { 0 }, "lane {}", k);
        }
    }
}

#[test]
fn test_rotation_round_trip() {
    // Rotating a word left by each standard offset and back restores it,
    // for every one of the 25 offsets.
    let sample: u64 = 0x0123_4567_89ab_cdef;
    for idx in 0..25 {
        let r = rotation_offset(idx);
        let left = rotl64_exec(sample, r);
        let back = rotl64_exec(left, (64 - r) % 64);
        assert_eq!(back, sample, "offset {}", r);
    }
}

#[test]
fn test_theta_twice_zero() {
    // Theta applied twice over the all-zero state returns the all-zero
    // state.
    let zero = vec![0u64; 25];
    let encoded = state_b2_to_b13(&zero);
    let once = theta(&encoded);
    let twice = theta(&once);
    let decoded = decode_state13(&twice);
    assert_eq!(decoded, zero);
    for lane in twice.iter() {
        for &d in lane.iter() {
            assert_eq!(d, 0);
        }
    }
}

#[test]
fn test_rho_gate() {
    // The rho re-encoding of each theta output lane equals a plain
    // left rotation of the corresponding word by the lane's offset.
    let in_words = single_lane_state(0, 1);
    let encoded = state_b2_to_b13(&in_words);
    let after_theta = theta(&encoded);
    let after_rho = rho(&after_theta);
    // Independent route: one bitwise theta round then rotation.  The
    // rho output is a clean base-9 lane whose digits are the bits of
    // the rotated word.
    let mut c = vec![0u64; 5];
    for x in 0..5 {
        c[x] = in_words[5 * x]
            ^ in_words[5 * x + 1]
            ^ in_words[5 * x + 2]
            ^ in_words[5 * x + 3]
            ^ in_words[5 * x + 4];
    }
    for k in 0..25 {
        let x = k / 5;
        let theta_word = in_words[k] ^ c[(x + 4) % 5] ^ rotl64_exec(c[(x + 1) % 5], 1);
        let expected = rotl64_exec(theta_word, rotation_offset(k));
        assert_eq!(after_rho[k].len(), 64);
        for i in 0..64 {
            assert_eq!(after_rho[k][i], (expected >> i) & 1, "lane {}", k);
        }
    }
}

#[test]
fn test_single_bit_permutation() {
    // A single-bit input (lane (0,0) = 1, all other 1599 bits zero) run
    // through the full 24-round numeral-base pipeline must match the
    // independent bitwise evaluator of Keccak-f[1600].
    let in_words = single_lane_state(0, 1);
    let next = vec![0u64; 17];
    let via_bases = permute_and_absorb_words(&in_words, false, &next);
    let via_bits = keccak_f_bits(&in_words);
    assert_eq!(via_bases, via_bits);
    // The output must differ from the input: the permutation mixes.
    assert_ne!(via_bases, in_words);
}

#[test]
fn test_keccak_round() {
    // One permutation instance with and without absorption, held
    // against the oracle, plus the output-consistency gate on a wrong
    // witness.
    let in_state: [[u64; 5]; 5] = [
        [1, 0, 0, 0, 0],
        [0, 0, 0, 0, 0],
        [0, 0, 0, 0, 0],
        [0, 0, 0, 0, 0],
        [0, 0, 0, 0, 0],
    ];
    let next_input: [[u64; 5]; 5] = [
        [2, 0, 0, 0, 0],
        [0, 0, 0, 0, 0],
        [0, 0, 0, 0, 0],
        [0, 0, 0, 0, 0],
        [0, 0, 0, 0, 0],
    ];
    let mut in_words = vec![0u64; 25];
    let mut next_words = vec![0u64; 17];
    for x in 0..5 {
        for y in 0..5 {
            in_words[5 * x + y] = in_state[x][y];
            if 5 * x + y < 17 {
                next_words[5 * x + y] = next_input[x][y];
            }
        }
    }
    // Without mixing the output equals the oracle's plain permutation.
    let out_non_mix = permute_and_absorb_words(&in_words, false, &next_words);
    let oracle_non_mix = permute(&in_words, None);
    assert_eq!(out_non_mix, oracle_non_mix);
    assert!(constrain_out_state(&out_non_mix, &oracle_non_mix));
    // With mixing the output equals the oracle's permute-and-absorb.
    let out_mix = permute_and_absorb_words(&in_words, true, &next_words);
    let oracle_mix = permute(&in_words, Some(&next_words));
    assert_eq!(out_mix, oracle_mix);
    assert!(constrain_out_state(&out_mix, &oracle_mix));
    // Swapping in_state and out_state makes the binding check fail.
    assert!(!constrain_out_state(&in_words, &out_mix));
    assert!(!constrain_out_state(&out_non_mix, &out_mix));
}

#[test]
fn test_mixing_differs_from_plain() {
    // The two mixing branches disagree exactly on the absorbed lanes.
    let in_words = single_lane_state(3, 0xdead_beef);
    let next = single_lane_next(0, 2);
    let plain = permute_and_absorb_words(&in_words, false, &next);
    let mixed = permute_and_absorb_words(&in_words, true, &next);
    assert_eq!(mixed[0], plain[0] ^ 2);
    for k in 1..25 {
        assert_eq!(mixed[k], plain[k]);
    }
}

#[test]
fn test_round_constants_table() {
    assert_eq!(round_constant(0), 0x0000000000000001);
    assert_eq!(round_constant(1), 0x0000000000008082);
    assert_eq!(round_constant(23), 0x8000000080008008);
}

#[test]
fn test_rotation_offsets_table() {
    let expected: [u64; 25] = [
        0, 36, 3, 41, 18, 1, 44, 10, 45, 2, 62, 6, 43, 15, 61, 28, 55, 25, 21, 56, 27, 20, 39, 8,
        14,
    ];
    for k in 0..25 {
        assert_eq!(rotation_offset(k), expected[k]);
    }
}

#[test]
fn test_block_count_aggregate() {
    // The counters of the 25 standard offsets sum to the expected
    // totals, and the final gate accepts them.
    let bcs = state_block_counts();
    let mut sum2: u64 = 0;
    let mut sum3: u64 = 0;
    for bc in bcs.iter() {
        sum2 += bc.step2;
        sum3 += bc.step3;
    }
    assert_eq!(sum2, 12);
    assert_eq!(sum3, 13);
    assert!(block_count_final_check(&bcs));
}

#[test]
fn test_block_count_tamper() {
    // Bumping a single lane's counter pair is caught by the aggregate
    // gate.
    let mut bcs = state_block_counts();
    let tampered = BlockCount {
        step2: bcs[7].step2 + 1,
        step3: bcs[7].step3,
    };
    bcs[7] = tampered;
    assert!(!block_count_final_check(&bcs));
}

#[test]
fn test_lane_block_count_values() {
    // Offset 0: a single run of 63 digits, one width-3 remainder chunk.
    let bc0 = lane_block_count(0);
    assert_eq!((bc0.step2, bc0.step3), (0, 1));
    // Offset 1: runs of 62 and 1 digits; 62 % 4 == 2.
    let bc1 = lane_block_count(1);
    assert_eq!((bc1.step2, bc1.step3), (1, 0));
    // Offset 36: runs of 27 and 36 digits; 27 % 4 == 3.
    let bc36 = lane_block_count(36);
    assert_eq!((bc36.step2, bc36.step3), (0, 1));
}

#[test]
fn test_binary_table() {
    let table = build_binary_table();
    assert_eq!(table.len(), 16);
    // Chunk 11 = binary 1011, digits (lsb first) 1, 1, 0, 1:
    // base 9: 1 + 9 + 729 = 739; base 13: 1 + 13 + 2197 = 2211.
    assert_eq!(table[11], (11, 739, 2211));
    assert!(binary_table_contains((11, 739, 2211)));
    assert!(!binary_table_contains((11, 739, 2212)));
    assert!(!binary_table_contains((16, 0, 0)));
}

#[test]
fn test_base9_table() {
    let table = build_base9_table();
    assert_eq!(table.len(), 6561);
    // Chunk 39 = 3 + 4 * 9: digits (lsb first) 3, 4, 0, 0.
    // b9_coef(3) = 1, b9_coef(4) = 0: base 13 -> 1, base 2 -> 1.
    assert_eq!(table[39], (39, 1, 1));
    assert!(base9_table_contains((39, 1, 1)));
    assert!(!base9_table_contains((39, 1, 0)));
    assert!(!base9_table_contains((6561, 0, 0)));
}

#[test]
fn test_chunk_encodings() {
    assert_eq!(chunk_b2_to_b9(0, 4), 0);
    assert_eq!(chunk_b2_to_b13(15, 4), 1 + 13 + 169 + 2197);
    // Base-9 digits 2 and 3 stand for bit 1; 0, 1 and 4 for bit 0.
    assert_eq!(chunk_b9_to_b13(2, 1), 1);
    assert_eq!(chunk_b9_to_b13(3, 1), 1);
    assert_eq!(chunk_b9_to_b13(4, 1), 0);
}

#[test]
fn test_base_conversion_pass_through() {
    // With the activation flag unset the state passes through
    // unchanged; with it set the digits are normalized bits.
    let words = single_lane_state(0, 5);
    let encoded = state_b2_to_b13(&words);
    let after_theta = theta(&encoded);
    let after_rho = rho(&after_theta);
    let kept = base_conversion(&after_rho, false);
    for k in 0..25 {
        assert_eq!(kept[k], after_rho[k], "lane {}", k);
    }
    // After chi the dirty digits normalize through the coefficient map:
    // a digit stands for bit 1 exactly when it is 2 or 3 modulo 4.
    let after_pi = keccak256::pi::pi(&after_rho);
    let after_xi = keccak256::xi::xi(&after_pi);
    let converted = base_conversion(&after_xi, true);
    for k in 0..25 {
        assert_eq!(converted[k].len(), 65);
        for i in 0..64 {
            let d = after_xi[k][i] % 4;
            let bit = if d == 2 || d == 3 { 1 } else { 0 };
            assert_eq!(converted[k][i], bit);
        }
        assert_eq!(converted[k][64], 0);
    }
}

#[test]
fn test_word_codec_round_trip() {
    // Encoding a word as clean digits and packing the digits back
    // restores the word, over the full digit pipeline entry point.
    for &w in [0u64, 1, 2, 0x8000_0000_0000_0000, u64::MAX, 0x0123_4567_89ab_cdef].iter() {
        let state = single_lane_state(13, w);
        let encoded = state_b2_to_b13(&state);
        let decoded = decode_state13(&encoded);
        assert_eq!(decoded, state);
    }
}

#[test]
fn test_all_ones_permutation() {
    // The pipeline and the bitwise evaluator also agree on a dense
    // state, with and without absorption.
    let in_words = vec![u64::MAX; 25];
    let next = single_lane_next(16, 0xffff_ffff_ffff_ffff);
    let via_bases = permute_and_absorb_words(&in_words, true, &next);
    let via_bits = permute(&in_words, Some(&next));
    assert_eq!(via_bases, via_bits);
}

#[test]
fn test_round_bits_iota_only_lane0() {
    // One bitwise round of the all-zero state leaves only lane 0 set,
    // holding the first round constant.
    let zero = vec![0u64; 25];
    let out = round_bits(&zero, round_constant(0));
    assert_eq!(out[0], 1);
    for k in 1..25 {
        assert_eq!(out[k], 0);
    }
}

#[test]
fn test_permute_and_absorb_digit_state() {
    // The digit-level sequencer output decodes to the oracle's words.
    let in_words = single_lane_state(0, 1);
    let next = single_lane_next(0, 2);
    let encoded = state_b2_to_b13(&in_words);
    let out_digits = permute_and_absorb(&encoded, true, &next);
    let decoded = decode_state13(&out_digits);
    let oracle = permute(&in_words, Some(&next));
    assert_eq!(decoded, oracle);
    // Without mixing the final state stays in base 9 and decodes
    // through the chi coefficient map.
    let out_plain = permute_and_absorb(&encoded, false, &next);
    let decoded_plain = decode_state9(&out_plain);
    let oracle_plain = permute(&in_words, None);
    assert_eq!(decoded_plain, oracle_plain);
}
