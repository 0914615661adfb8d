//! Word-level correctness of the arithmetized steps.
//!
//! Each lemma here relates one digit-level step to the plain bitwise
//! evaluator: a state that encodes a word state, pushed through the
//! step, decodes to the bitwise step's output.  The lemmas compose into
//! the round correspondence and, over all 24 rounds and the mixing
//! finalization, into the law that the numeral-base pipeline computes
//! exactly the Keccak-f[1600] permutation with optional absorption.

use vstd::prelude::*;
use crate::arith::{b13_coef, b9_coef, bit_of, lane13_bits, lemma_b13_coef_add, lemma_mod64,
    word_bits};
use crate::base_conversion::spec_base_conversion;
use crate::bits::{col_xor, lemma_rotl64_bit, rotl64, spec_chi_bits, spec_iota_bits, spec_pi_bits,
    spec_rho_bits, spec_round_bits, spec_theta_bits};
use crate::common::{rotation_offsets, round_constants};
use crate::iota::spec_iota_b9;
use crate::permutation::{spec_round, spec_state_b2_to_b13};
use crate::pi::spec_pi;
use crate::rho::{lemma_rho_lane_decodes_to_rotation, spec_rho};
use crate::theta::{spec_theta, theta_col, theta_digit};
use crate::xi::{spec_xi, xi_digit};

verus! {

/// Bit `j` of an XOR is the XOR of the two bits.
pub proof fn lemma_bit_xor(x: u64, y: u64, j: u64)
    requires
        j < 64,
    ensures
        bit_of(x ^ y, j as int) == if bit_of(x, j as int) == bit_of(y, j as int) {
            0u64
        } else {
            1u64
        },
{
    assert((((x ^ y) >> j) & 1 == 1) <==> (((x >> j) & 1 == 1) != ((y >> j) & 1 == 1)))
        by (bit_vector);
}

/// Bit `j` of the chi combination `x XOR (NOT y AND z)` in terms of
/// the three argument bits.
pub proof fn lemma_bit_chi(x: u64, y: u64, z: u64, j: u64)
    requires
        j < 64,
    ensures
        bit_of(x ^ (!y & z), j as int) == if (bit_of(x, j as int) == 1) != (bit_of(y, j as int)
            == 0 && bit_of(z, j as int) == 1) {
            1u64
        } else {
            0u64
        },
{
    assert((((x ^ (!y & z)) >> j) & 1 == 1) <==> (((x >> j) & 1 == 1) != (((y >> j) & 1 == 0)
        && ((z >> j) & 1 == 1)))) by (bit_vector);
    assert((y >> j) & 1 == 0 || (y >> j) & 1 == 1) by (bit_vector);
}

/// The parity of a column's digit sum over the encoded state is the
/// column's XOR bit.
pub proof fn lemma_col_parity(w: Seq<u64>, x: int, j: u64)
    requires
        w.len() == 25,
        0 <= x < 5,
        j < 64,
    ensures
        b13_coef(theta_col(spec_state_b2_to_b13(w), x, j as int)) == bit_of(
            col_xor(w, x),
            j as int,
        ),
{
    let a = spec_state_b2_to_b13(w);
    let b0 = bit_of(w[5 * x], j as int);
    let b1 = bit_of(w[5 * x + 1], j as int);
    let b2 = bit_of(w[5 * x + 2], j as int);
    let b3 = bit_of(w[5 * x + 3], j as int);
    let b4 = bit_of(w[5 * x + 4], j as int);
    assert(a[5 * x][j as int] == b0);
    assert(a[5 * x + 1][j as int] == b1);
    assert(a[5 * x + 2][j as int] == b2);
    assert(a[5 * x + 3][j as int] == b3);
    assert(a[5 * x + 4][j as int] == b4);
    lemma_bit_xor(w[5 * x], w[5 * x + 1], j);
    lemma_bit_xor(w[5 * x] ^ w[5 * x + 1], w[5 * x + 2], j);
    lemma_bit_xor(w[5 * x] ^ w[5 * x + 1] ^ w[5 * x + 2], w[5 * x + 3], j);
    lemma_bit_xor(w[5 * x] ^ w[5 * x + 1] ^ w[5 * x + 2] ^ w[5 * x + 3], w[5 * x + 4], j);
    assert(b0 <= 1 && b1 <= 1 && b2 <= 1 && b3 <= 1 && b4 <= 1);
    assert(b13_coef(b0 + b1 + b2 + b3 + b4) == bit_of(col_xor(w, x), j as int));
}

/// The theta correspondence on one lane: theta over the encoded state
/// leaves digits whose parities are exactly the bits of the bitwise
/// theta output.
pub proof fn lemma_theta_lane_bits(w: Seq<u64>, k: int)
    requires
        w.len() == 25,
        0 <= k < 25,
    ensures
        lane13_bits(spec_theta(spec_state_b2_to_b13(w))[k]) == word_bits(spec_theta_bits(w)[k]),
{
    let a = spec_state_b2_to_b13(w);
    let x = k / 5;
    assert(0 <= x < 5);
    let x4 = (x + 4) % 5;
    let x1 = (x + 1) % 5;
    assert(0 <= x4 < 5 && 0 <= x1 < 5);
    let c4 = col_xor(w, x4);
    let c1 = col_xor(w, x1);
    let tw = spec_theta_bits(w)[k];
    assert(tw == w[k] ^ c4 ^ rotl64(c1, 1));
    assert forall|j: int| 0 <= j < 64 implies lane13_bits(spec_theta(a)[k])[j] == bit_of(
        tw,
        j,
    ) by {
        lemma_bit_xor(w[k], c4, j as u64);
        lemma_bit_xor(w[k] ^ c4, rotl64(c1, 1), j as u64);
        lemma_rotl64_bit(c1, 1, j as u64);
        lemma_mod64(j + 63);
        lemma_col_parity(w, x4, j as u64);
        if j == 0 {
            // Digit 0 and the overflow digit 64 fold together; the
            // overflow digit carries the shifted column's bit 63.
            lemma_col_parity(w, x1, 63);
            let d0 = theta_digit(a, k, 0);
            let d64 = theta_digit(a, k, 64);
            assert(a[k][0] == bit_of(w[k], 0));
            assert(a[k][64] == 0);
            assert(d0 == bit_of(w[k], 0) + theta_col(a, x4, 0));
            assert(d64 == theta_col(a, x4, 64) + theta_col(a, x1, 63));
            assert(theta_col(a, x4, 64) == 0);
            assert(theta_col(a, x4, 0) >= 0 && theta_col(a, x1, 63) >= 0);
            lemma_b13_coef_add(bit_of(w[k], 0) as int, theta_col(a, x4, 0));
            lemma_b13_coef_add(bit_of(w[k], 0) + theta_col(a, x4, 0), theta_col(a, x1, 63));
            assert(lane13_bits(spec_theta(a)[k])[0] == b13_coef(d0 + d64));
        } else {
            lemma_col_parity(w, x1, (j - 1) as u64);
            let dj = theta_digit(a, k, j);
            assert(a[k][j] == bit_of(w[k], j));
            assert(dj == bit_of(w[k], j) + theta_col(a, x4, j) + theta_col(a, x1, j - 1));
            assert(theta_col(a, x4, j) >= 0 && theta_col(a, x1, j - 1) >= 0);
            lemma_b13_coef_add(bit_of(w[k], j) as int, theta_col(a, x4, j));
            lemma_b13_coef_add(bit_of(w[k], j) + theta_col(a, x4, j), theta_col(a, x1, j - 1));
            assert(lane13_bits(spec_theta(a)[k])[j] == b13_coef(dj));
        }
    }
    assert(lane13_bits(spec_theta(a)[k]) =~= word_bits(tw));
}

/// The chi correspondence: after theta, rho, pi and chi over the
/// encoded state, each digit is at most 6 and its coefficient is the
/// matching bit of the bitwise chi output.
pub proof fn lemma_chi_correspondence(w: Seq<u64>)
    requires
        w.len() == 25,
    ensures
        forall|k: int, i: int|
            0 <= k < 25 && 0 <= i < 64 ==> b9_coef(
                #[trigger] spec_xi(spec_pi(spec_rho(spec_theta(spec_state_b2_to_b13(w)))))[k][i]
                    as int,
            ) == bit_of(spec_chi_bits(spec_pi_bits(spec_rho_bits(spec_theta_bits(w))))[k], i)
                && spec_xi(spec_pi(spec_rho(spec_theta(spec_state_b2_to_b13(w)))))[k][i] <= 6,
{
    let a = spec_state_b2_to_b13(w);
    let s1 = spec_theta(a);
    let tb = spec_theta_bits(w);
    let s2 = spec_rho(s1);
    let rb = spec_rho_bits(tb);
    crate::common::lemma_rotation_offsets_in_range();
    assert forall|k: int| 0 <= k < 25 implies s2[k] == word_bits(#[trigger] rb[k]) by {
        lemma_theta_lane_bits(w, k);
        let t = rotation_offsets()[k] as int;
        assert(s1[k].len() == 65);
        lemma_rho_lane_decodes_to_rotation(s1[k], tb[k], t);
        assert(word_bits(rotl64(tb[k], t)) =~= Seq::new(64, |p: int| bit_of(rotl64(tb[k], t), p)));
    }
    let s3 = spec_pi(s2);
    let pb = spec_pi_bits(rb);
    assert forall|k: int| 0 <= k < 25 implies s3[k] == word_bits(#[trigger] pb[k]) by {
        crate::pi::lemma_pi_source_range(k);
    }
    let s4 = spec_xi(s3);
    let cb = spec_chi_bits(pb);
    assert forall|k: int, i: int| 0 <= k < 25 && 0 <= i < 64 implies b9_coef(
        #[trigger] s4[k][i] as int,
    ) == bit_of(cb[k], i) && s4[k][i] <= 6 by {
        let x = k / 5;
        let y = k % 5;
        vstd::arithmetic::div_mod::lemma_fundamental_div_mod(k, 5);
        assert(0 <= x < 5 && 0 <= y < 5);
        let kb = 5 * ((x + 1) % 5) + y;
        let kc = 5 * ((x + 2) % 5) + y;
        assert(0 <= kb < 25 && 0 <= kc < 25);
        let ba = bit_of(pb[k], i);
        let bb = bit_of(pb[kb], i);
        let bc = bit_of(pb[kc], i);
        assert(s3[k][i] == ba && s3[kb][i] == bb && s3[kc][i] == bc);
        let d = xi_digit(s3, k, i);
        assert(d == 2 * ba + bb + 3 * bc);
        assert(s4[k][i] == d as u64);
        crate::xi::lemma_chi_digit_encodes_combination(ba, bb, bc);
        lemma_bit_chi(pb[k], pb[kb], pb[kc], i as u64);
        assert(cb[k] == pb[k] ^ (!pb[kb] & pb[kc]));
    }
}

/// The iota correspondence after the chi correspondence: adding the
/// round constant in base 9 keeps every digit's coefficient equal to
/// the matching bit of the bitwise chi-then-iota output.
pub proof fn lemma_iota_correspondence(w: Seq<u64>, rc: u64)
    requires
        w.len() == 25,
    ensures
        forall|k: int, i: int|
            0 <= k < 25 && 0 <= i < 64 ==> b9_coef(
                #[trigger] spec_iota_b9(
                    spec_xi(spec_pi(spec_rho(spec_theta(spec_state_b2_to_b13(w))))),
                    rc,
                )[k][i] as int,
            ) == bit_of(
                spec_iota_bits(
                    spec_chi_bits(spec_pi_bits(spec_rho_bits(spec_theta_bits(w)))),
                    rc,
                )[k],
                i,
            ),
{
    let s4 = spec_xi(spec_pi(spec_rho(spec_theta(spec_state_b2_to_b13(w)))));
    let cb = spec_chi_bits(spec_pi_bits(spec_rho_bits(spec_theta_bits(w))));
    lemma_chi_correspondence(w);
    let s5 = spec_iota_b9(s4, rc);
    let ib = spec_iota_bits(cb, rc);
    assert forall|k: int, i: int| 0 <= k < 25 && 0 <= i < 64 implies b9_coef(
        #[trigger] s5[k][i] as int,
    ) == bit_of(ib[k], i) by {
        if k == 0 {
            let r = bit_of(rc, i);
            let d = s4[0][i];
            assert(s5[0][i] == (d + 2 * r) as u64);
            crate::iota::lemma_iota_b9_flips_bit(d, r);
            lemma_bit_xor(cb[0], rc, i as u64);
            assert(ib[0] == cb[0] ^ rc);
        } else {
            assert(s5[k] == s4[k]);
            assert(ib[k] == cb[k]);
        }
    }
}

/// One full round over the encoded state is the encoding of one full
/// bitwise round: theta, rho, pi, chi and iota all commute with the
/// digit encoding, and the closing base conversion leaves exactly the
/// clean encoding of the bitwise round's output.
pub proof fn lemma_round_correspondence(w: Seq<u64>, rc: u64)
    requires
        w.len() == 25,
    ensures
        spec_round(spec_state_b2_to_b13(w), rc) == spec_state_b2_to_b13(spec_round_bits(w, rc)),
{
    let a = spec_state_b2_to_b13(w);
    let s4 = spec_xi(spec_pi(spec_rho(spec_theta(a))));
    let cb = spec_chi_bits(spec_pi_bits(spec_rho_bits(spec_theta_bits(w))));
    let s5 = spec_iota_b9(s4, rc);
    let ib = spec_iota_bits(cb, rc);
    lemma_iota_correspondence(w, rc);
    let s6 = spec_base_conversion(s5, true);
    let out = spec_round_bits(w, rc);
    assert(out == ib);
    assert forall|k: int| 0 <= k < 25 implies s6[k] == spec_state_b2_to_b13(ib)[k] by {
        assert forall|i: int| 0 <= i < 65 implies s6[k][i] == #[trigger] spec_state_b2_to_b13(
            ib,
        )[k][i] by {
            if i < 64 {
                assert(s6[k][i] == b9_coef(s5[k][i] as int));
            }
        }
        assert(s6[k] =~= spec_state_b2_to_b13(ib)[k]);
    }
    assert(spec_round(a, rc) == s6);
    assert(s6 =~= spec_state_b2_to_b13(ib));
}

/// The bitwise round state always holds 25 lanes.
pub proof fn lemma_keccak_rounds_len(w: Seq<u64>, n: nat)
    requires
        w.len() == 25,
    ensures
        crate::bits::spec_keccak_f_rounds(w, n).len() == 25,
    decreases n,
{
    if n > 0 {
        lemma_keccak_rounds_len(w, (n - 1) as nat);
    }
}

/// The non-mixing finalization, over any base-9 state whose digit
/// coefficients are the bits of a word state: the state decodes to
/// those words.
proof fn lemma_plain_branch_bits(s5: Seq<Seq<u64>>, ib: Seq<u64>)
    requires
        s5.len() == 25,
        ib.len() == 25,
        forall|k: int| 0 <= k < 25 ==> (#[trigger] s5[k]).len() == 64,
        forall|k: int, i: int|
            0 <= k < 25 && 0 <= i < 64 ==> b9_coef(#[trigger] s5[k][i] as int) == bit_of(
                ib[k],
                i,
            ),
    ensures
        forall|k: int|
            0 <= k < 25 ==> crate::arith::lane9_bits(#[trigger] s5[k]) == word_bits(ib[k]),
{
    assert forall|k: int| 0 <= k < 25 implies crate::arith::lane9_bits(#[trigger] s5[k])
        == word_bits(ib[k]) by {
        assert forall|i: int| 0 <= i < 64 implies crate::arith::lane9_bits(s5[k])[i] == bit_of(
            ib[k],
            i,
        ) by {
            assert(crate::arith::lane9_bits(s5[k])[i] == b9_coef(s5[k][i] as int));
        }
        assert(crate::arith::lane9_bits(s5[k]) =~= word_bits(ib[k]));
    }
}

/// The mixing finalization, over any base-9 state whose digit
/// coefficients are the bits of a word state: re-basing, absorbing the
/// next block and adding the constant in base 13 decodes to the words
/// with the block and constant XORed in.
proof fn lemma_mixing_branch_bits(s4: Seq<Seq<u64>>, cb: Seq<u64>, next: Seq<u64>, rc: u64)
    requires
        s4.len() == 25,
        cb.len() == 25,
        next.len() == 17,
        forall|k: int| 0 <= k < 25 ==> (#[trigger] s4[k]).len() == 64,
        forall|k: int, i: int|
            0 <= k < 25 && 0 <= i < 64 ==> b9_coef(#[trigger] s4[k][i] as int) == bit_of(
                cb[k],
                i,
            ),
    ensures
        forall|k: int|
            0 <= k < 25 ==> lane13_bits(
                #[trigger] crate::iota::spec_iota_b13(
                    crate::permutation::spec_absorb(spec_base_conversion(s4, true), next),
                    rc,
                )[k],
            ) == word_bits(
                crate::bits::spec_absorb_bits(spec_iota_bits(cb, rc), next)[k],
            ),
{
    let conv = spec_base_conversion(s4, true);
    let ab = crate::permutation::spec_absorb(conv, next);
    let fin = crate::iota::spec_iota_b13(ab, rc);
    let kf = spec_iota_bits(cb, rc);
    let outw = crate::bits::spec_absorb_bits(kf, next);
    assert forall|k: int| 0 <= k < 25 implies lane13_bits(#[trigger] fin[k]) == word_bits(
        outw[k],
    ) by {
        assert forall|i: int| 0 <= i < 64 implies lane13_bits(fin[k])[i] == bit_of(
            outw[k],
            i,
        ) by {
            let cbit = bit_of(cb[k], i);
            assert(conv[k][i] == b9_coef(s4[k][i] as int));
            assert(conv[k][i] == cbit);
            assert(conv[k][64] == 0);
            let nbit: u64 = if k < 17 {
                bit_of(next[k], i)
            } else {
                0u64
            };
            assert(ab[k][i] == cbit + nbit);
            assert(ab[k][64] == 0);
            let rbit: u64 = if k == 0 {
                bit_of(rc, i)
            } else {
                0u64
            };
            assert(fin[k][i] == cbit + nbit + rbit);
            assert(fin[k][64] == 0);
            if i == 0 {
                assert(lane13_bits(fin[k])[0] == b13_coef(fin[k][0] + fin[k][64]));
            } else {
                assert(lane13_bits(fin[k])[i] == b13_coef(fin[k][i] as int));
            }
            lemma_b13_coef_add(cbit as int, nbit as int);
            lemma_b13_coef_add(cbit + nbit, rbit as int);
            if k == 0 {
                lemma_bit_xor(cb[0], rc, i as u64);
                assert(kf[0] == cb[0] ^ rc);
                lemma_bit_xor(kf[0], next[0], i as u64);
                assert(outw[0] == kf[0] ^ next[0]);
            } else if k < 17 {
                assert(kf[k] == cb[k]);
                lemma_bit_xor(kf[k], next[k], i as u64);
                assert(outw[k] == kf[k] ^ next[k]);
            } else {
                assert(outw[k] == kf[k] && kf[k] == cb[k]);
            }
        }
        assert(lane13_bits(fin[k]) =~= word_bits(outw[k]));
    }
}

/// The permutation-matches-oracle law.  Over the encoded input state
/// the whole sequencer decodes, lane by lane, to the oracle's result:
/// with the mixing flag unset, to the plain bitwise Keccak-f[1600]
/// permutation; with it set, to the permutation followed by absorption
/// of the next input block.
#[verifier::rlimit(80)]
pub proof fn lemma_permutation_matches_oracle(w: Seq<u64>, flag: bool, next: Seq<u64>)
    requires
        w.len() == 25,
        next.len() == 17,
    ensures
        forall|k: int|
            0 <= k < 25 && !flag ==> crate::arith::lane9_bits(
                #[trigger] crate::permutation::spec_permute_and_absorb(
                    spec_state_b2_to_b13(w),
                    flag,
                    next,
                )[k],
            ) == word_bits(crate::bits::spec_keccak_f(w)[k]),
        forall|k: int|
            0 <= k < 25 && flag ==> lane13_bits(
                #[trigger] crate::permutation::spec_permute_and_absorb(
                    spec_state_b2_to_b13(w),
                    flag,
                    next,
                )[k],
            ) == word_bits(
                crate::bits::spec_absorb_bits(crate::bits::spec_keccak_f(w), next)[k],
            ),
{
    let a = spec_state_b2_to_b13(w);
    lemma_rounds_correspondence(w, 23);
    let w23 = crate::bits::spec_keccak_f_rounds(w, 23);
    lemma_keccak_rounds_len(w, 23);
    assert(crate::permutation::spec_rounds(a, 23) == spec_state_b2_to_b13(w23));
    let s4 = spec_xi(spec_pi(spec_rho(spec_theta(spec_state_b2_to_b13(w23)))));
    let cb = spec_chi_bits(spec_pi_bits(spec_rho_bits(spec_theta_bits(w23))));
    let rc = round_constants()[23];
    let kf = crate::bits::spec_keccak_f(w);
    assert(kf == spec_iota_bits(cb, rc));
    let res = crate::permutation::spec_permute_and_absorb(a, flag, next);
    if !flag {
        lemma_iota_correspondence(w23, rc);
        let s5 = spec_iota_b9(s4, rc);
        assert(res == s5);
        assert(forall|k: int| 0 <= k < 25 ==> (#[trigger] s5[k]).len() == 64);
        lemma_plain_branch_bits(s5, kf);
    } else {
        lemma_chi_correspondence(w23);
        assert(res == crate::iota::spec_iota_b13(
            crate::permutation::spec_absorb(spec_base_conversion(s4, true), next),
            rc,
        ));
        assert(forall|k: int| 0 <= k < 25 ==> (#[trigger] s4[k]).len() == 64);
        lemma_mixing_branch_bits(s4, cb, next, rc);
    }
}

/// The oracle law at the word level: packing the decoded bits of each
/// output lane of the pipeline yields exactly the oracle's word.
pub proof fn lemma_pipeline_words_match_oracle(w: Seq<u64>, flag: bool, next: Seq<u64>, k: int)
    requires
        w.len() == 25,
        next.len() == 17,
        0 <= k < 25,
    ensures
        !flag ==> crate::arith::word_of_bits(
            crate::arith::lane9_bits(
                crate::permutation::spec_permute_and_absorb(
                    spec_state_b2_to_b13(w),
                    false,
                    next,
                )[k],
            ),
        ) == crate::bits::spec_keccak_f(w)[k],
        flag ==> crate::arith::word_of_bits(
            lane13_bits(
                crate::permutation::spec_permute_and_absorb(spec_state_b2_to_b13(w), true, next)[k],
            ),
        ) == crate::bits::spec_absorb_bits(crate::bits::spec_keccak_f(w), next)[k],
{
    lemma_permutation_matches_oracle(w, flag, next);
    lemma_keccak_rounds_len(w, 24);
    if flag {
        crate::arith::lemma_word_of_bits_of_word(
            crate::bits::spec_absorb_bits(crate::bits::spec_keccak_f(w), next)[k],
        );
    } else {
        crate::arith::lemma_word_of_bits_of_word(crate::bits::spec_keccak_f(w)[k]);
    }
}

/// The first `n` full rounds over the encoded state encode the first
/// `n` bitwise rounds.
pub proof fn lemma_rounds_correspondence(w: Seq<u64>, n: nat)
    requires
        w.len() == 25,
    ensures
        crate::permutation::spec_rounds(spec_state_b2_to_b13(w), n) == spec_state_b2_to_b13(
            crate::bits::spec_keccak_f_rounds(w, n),
        ),
    decreases n,
{
    if n > 0 {
        lemma_rounds_correspondence(w, (n - 1) as nat);
        let prev = crate::bits::spec_keccak_f_rounds(w, (n - 1) as nat);
        lemma_keccak_rounds_len(w, (n - 1) as nat);
        lemma_round_correspondence(prev, round_constants()[n - 1]);
    }
}

} // verus!
