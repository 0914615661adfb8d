//! The permutation sequencer and the mixing finalization.
//!
//! One permutation instance runs 23 full rounds — theta, rho, pi, chi,
//! then iota and the gated base conversion — followed by a 24th round
//! that stops after chi and hands the state to mixing.  Mixing either
//! finalizes the output with the last round constant (base 9) or first
//! absorbs the next input block into the re-based state and then adds
//! the constant (base 13), selected by a boolean witness flag.  A final
//! output-consistency check binds the computed output, lane by lane, to
//! an externally supplied expected output.

use vstd::prelude::*;
use crate::arith::{
    bit_of, clean_state13, lane13_bits, lane9_bits, spec_b2_to_b13, state_view, wf_state13,
    wf_state9, word_of_bits,
};
use crate::base_conversion::{base_conversion, spec_base_conversion};
use crate::common::round_constants;
use crate::iota::{iota_b9, spec_iota_b13, spec_iota_b9};
use crate::pi::{pi, spec_pi};
use crate::rho::{rho, spec_rho};
use crate::theta::{spec_theta, theta};
use crate::xi::{spec_xi, xi};

verus! {

/// Digit-level absorption: the bits of the next input block are added
/// into the low digits of the 17 rate lanes of a clean base-13 state.
pub open spec fn spec_absorb(a: Seq<Seq<u64>>, next: Seq<u64>) -> Seq<Seq<u64>> {
    Seq::new(
        25,
        |k: int|
            if k < 17 {
                Seq::new(
                    65,
                    |i: int|
                        if i < 64 {
                            (a[k][i] + bit_of(next[k], i)) as u64
                        } else {
                            a[k][i]
                        },
                )
            } else {
                a[k]
            },
    )
}

/// The mixing step after the 24th round's chi: without absorption the
/// last round constant is added in base 9; with absorption the state is
/// re-based to clean base 13, the next input block is XOR-absorbed, and
/// the constant is added in base 13.
pub open spec fn spec_mixing(a9: Seq<Seq<u64>>, flag: bool, next: Seq<u64>) -> Seq<Seq<u64>> {
    if flag {
        spec_iota_b13(
            spec_absorb(spec_base_conversion(a9, true), next),
            round_constants()[23],
        )
    } else {
        spec_iota_b9(a9, round_constants()[23])
    }
}

/// One full round: theta, rho, pi, chi, iota, and the base conversion
/// back to clean base 13 with the activation flag set.
pub open spec fn spec_round(a: Seq<Seq<u64>>, rc: u64) -> Seq<Seq<u64>> {
    spec_base_conversion(spec_iota_b9(spec_xi(spec_pi(spec_rho(spec_theta(a)))), rc), true)
}

/// The first `n` full rounds.
pub open spec fn spec_rounds(a: Seq<Seq<u64>>, n: nat) -> Seq<Seq<u64>>
    decreases n,
{
    if n == 0 {
        a
    } else {
        spec_round(spec_rounds(a, (n - 1) as nat), round_constants()[n - 1])
    }
}

/// The whole permutation with the mixing finalization: 23 full rounds,
/// the 24th round up to chi, then mixing.
pub open spec fn spec_permute_and_absorb(a: Seq<Seq<u64>>, flag: bool, next: Seq<u64>) -> Seq<
    Seq<u64>,
> {
    spec_mixing(spec_xi(spec_pi(spec_rho(spec_theta(spec_rounds(a, 23))))), flag, next)
}

/// Absorbs the 17 next-input words into the rate lanes of a clean
/// base-13 state.  The grown digits stay at most 2.
#[verifier::loop_isolation(false)]
pub fn absorb(a: &Vec<Vec<u64>>, next: &Vec<u64>) -> (r: Vec<Vec<u64>>)
    requires
        clean_state13(state_view(*a)),
        next@.len() == 17,
    ensures
        state_view(r) == spec_absorb(state_view(*a), next@),
        wf_state13(state_view(r)),
        forall|i: int| 0 <= i < 64 ==> #[trigger] state_view(r)[0][i] <= 2,
        r@.len() == 25,
{
    proof {
        crate::arith::lemma_clean_state13_unpack(*a);
    }
    let mut r: Vec<Vec<u64>> = Vec::new();
    let mut k: usize = 0;
    while k < 25
        invariant
            k <= 25,
            r@.len() == k,
            forall|u: int|
                0 <= u < k ==> (#[trigger] r@[u])@ == spec_absorb(state_view(*a), next@)[u],
            forall|u: int| 0 <= u < k ==> crate::arith::wf_lane13((#[trigger] r@[u])@),
            forall|u: int, i: int|
                0 <= u < k && 0 <= i < 64 ==> (#[trigger] r@[u]@[i]) <= 2,
        decreases 25 - k,
    {
        if k < 17 {
            let w: u64 = next[k];
            let mut lane: Vec<u64> = Vec::new();
            let mut i: usize = 0;
            while i < 64
                invariant
                    i <= 64,
                    k < 17,
                    w == next@[k as int],
                    lane@.len() == i,
                    forall|j: int|
                        0 <= j < i ==> (#[trigger] lane@[j]) == (state_view(*a)[k as int][j]
                            + bit_of(w, j)) as u64 && lane@[j] <= 2,
                decreases 64 - i,
            {
                let b: u64 = (w >> (i as u64)) & 1;
                proof {
                    let iu = i as u64;
                    assert((w >> iu) & 1 == 0 || (w >> iu) & 1 == 1) by (bit_vector);
                    assert(state_view(*a)[k as int] == a@[k as int]@);
                }
                lane.push(a[k][i] + b);
                i += 1;
            }
            lane.push(a[k][64]);
            proof {
                assert(state_view(*a)[k as int] == a@[k as int]@);
                assert(lane@ =~= spec_absorb(state_view(*a), next@)[k as int]);
            }
            r.push(lane);
        } else {
            proof {
                assert(state_view(*a)[k as int] == a@[k as int]@);
            }
            r.push(crate::arith::copy_lane(&a[k]));
        }
        k += 1;
    }
    proof {
        assert(state_view(r) =~= spec_absorb(state_view(*a), next@));
    }
    r
}

/// Runs the mixing step on the base-9 state left by the 24th round's
/// chi.  Both branches exist in the constraint system; the boolean
/// witness flag selects which one the returned state follows.
pub fn mixing(a9: &Vec<Vec<u64>>, flag: bool, next: &Vec<u64>) -> (r: Vec<Vec<u64>>)
    requires
        wf_state9(state_view(*a9)),
        forall|i: int| 0 <= i < 64 ==> #[trigger] state_view(*a9)[0][i] <= 6,
        next@.len() == 17,
    ensures
        state_view(r) == spec_mixing(state_view(*a9), flag, next@),
        flag ==> wf_state13(state_view(r)),
        !flag ==> wf_state9(state_view(r)),
        r@.len() == 25,
{
    let rc = crate::common::round_constant(23);
    if flag {
        let converted = base_conversion(a9, true);
        let absorbed = absorb(&converted, next);
        crate::iota::iota_b13(&absorbed, rc)
    } else {
        iota_b9(a9, rc)
    }
}

/// Drives one full permutation instance over a clean base-13 state:
/// 23 full rounds, the 24th round up to chi, then mixing with the
/// supplied flag and next-input block.
#[verifier::loop_isolation(false)]
pub fn permute_and_absorb(in_state: &Vec<Vec<u64>>, flag: bool, next: &Vec<u64>) -> (r: Vec<
    Vec<u64>,
>)
    requires
        clean_state13(state_view(*in_state)),
        next@.len() == 17,
    ensures
        state_view(r) == spec_permute_and_absorb(state_view(*in_state), flag, next@),
        flag ==> wf_state13(state_view(r)),
        !flag ==> wf_state9(state_view(r)),
        r@.len() == 25,
{
    let mut state = crate::arith::copy_state(in_state);
    let mut round: usize = 0;
    while round < 23
        invariant
            round <= 23,
            state@.len() == 25,
            clean_state13(state_view(state)),
            state_view(state) == spec_rounds(state_view(*in_state), round as nat),
        decreases 23 - round,
    {
        let rc = crate::common::round_constant(round);
        let s1 = theta(&state);
        let s2 = rho(&s1);
        let s3 = pi(&s2);
        proof {
            crate::pi::lemma_pi_preserves_clean9(state_view(s2));
        }
        let s4 = xi(&s3);
        let s5 = iota_b9(&s4, rc);
        state = base_conversion(&s5, true);
        round += 1;
    }
    let s1 = theta(&state);
    let s2 = rho(&s1);
    let s3 = pi(&s2);
    proof {
        crate::pi::lemma_pi_preserves_clean9(state_view(s2));
    }
    let s4 = xi(&s3);
    mixing(&s4, flag, next)
}

/// Clean base-13 encoding of a whole state of words.
pub open spec fn spec_state_b2_to_b13(w: Seq<u64>) -> Seq<Seq<u64>> {
    Seq::new(25, |k: int| spec_b2_to_b13(w[k]))
}

/// Encodes 25 words as a clean base-13 state.
#[verifier::loop_isolation(false)]
pub fn state_b2_to_b13(words: &Vec<u64>) -> (r: Vec<Vec<u64>>)
    requires
        words@.len() == 25,
    ensures
        state_view(r) == spec_state_b2_to_b13(words@),
        clean_state13(state_view(r)),
        r@.len() == 25,
{
    let mut r: Vec<Vec<u64>> = Vec::new();
    let mut k: usize = 0;
    while k < 25
        invariant
            k <= 25,
            r@.len() == k,
            forall|u: int| 0 <= u < k ==> (#[trigger] r@[u])@ == spec_b2_to_b13(words@[u]),
            forall|u: int| 0 <= u < k ==> crate::arith::clean_lane13((#[trigger] r@[u])@),
        decreases 25 - k,
    {
        r.push(crate::arith::convert_b2_to_b13(words[k]));
        k += 1;
    }
    proof {
        assert(state_view(r) =~= spec_state_b2_to_b13(words@));
    }
    r
}

/// Decodes a base-9 state into the 25 words its digits stand for.
#[verifier::loop_isolation(false)]
pub fn decode_state9(a: &Vec<Vec<u64>>) -> (r: Vec<u64>)
    requires
        wf_state9(state_view(*a)),
    ensures
        r@.len() == 25,
        forall|k: int|
            0 <= k < 25 ==> (#[trigger] r@[k]) as int == word_of_bits(
                lane9_bits(state_view(*a)[k]),
            ),
{
    let mut r: Vec<u64> = Vec::new();
    let mut k: usize = 0;
    while k < 25
        invariant
            k <= 25,
            r@.len() == k,
            forall|u: int|
                0 <= u < k ==> (#[trigger] r@[u]) as int == word_of_bits(
                    lane9_bits(state_view(*a)[u]),
                ),
        decreases 25 - k,
    {
        proof {
            assert(crate::arith::wf_lane9(state_view(*a)[k as int]));
            assert(state_view(*a)[k as int] == a@[k as int]@);
        }
        let mut bits: Vec<u64> = Vec::new();
        let mut i: usize = 0;
        while i < 64
            invariant
                i <= 64,
                k < 25,
                bits@.len() == i,
                forall|j: int|
                    0 <= j < i ==> (#[trigger] bits@[j]) == crate::arith::b9_coef(
                        state_view(*a)[k as int][j] as int,
                    ) && bits@[j] <= 1,
            decreases 64 - i,
        {
            bits.push(crate::arith::convert_b9_coef(a[k][i]));
            i += 1;
        }
        proof {
            assert(bits@ =~= lane9_bits(state_view(*a)[k as int]));
        }
        r.push(crate::arith::word_from_bits(&bits));
        k += 1;
    }
    r
}

/// Decodes a base-13 state into the 25 words its digits stand for,
/// folding each overflow digit into position 0.
#[verifier::loop_isolation(false)]
pub fn decode_state13(a: &Vec<Vec<u64>>) -> (r: Vec<u64>)
    requires
        wf_state13(state_view(*a)),
    ensures
        r@.len() == 25,
        forall|k: int|
            0 <= k < 25 ==> (#[trigger] r@[k]) as int == word_of_bits(
                lane13_bits(state_view(*a)[k]),
            ),
{
    proof {
        crate::arith::lemma_wf_state13_unpack(*a);
    }
    let mut r: Vec<u64> = Vec::new();
    let mut k: usize = 0;
    while k < 25
        invariant
            k <= 25,
            r@.len() == k,
            forall|u: int|
                0 <= u < k ==> (#[trigger] r@[u]) as int == word_of_bits(
                    lane13_bits(state_view(*a)[u]),
                ),
        decreases 25 - k,
    {
        proof {
            assert(state_view(*a)[k as int] == a@[k as int]@);
        }
        let mut bits: Vec<u64> = Vec::new();
        let mut i: usize = 0;
        while i < 64
            invariant
                i <= 64,
                k < 25,
                bits@.len() == i,
                forall|j: int|
                    0 <= j < i ==> (#[trigger] bits@[j]) == lane13_bits(state_view(*a)[k as int])[j]
                        && bits@[j] <= 1,
            decreases 64 - i,
        {
            if i == 0 {
                bits.push(crate::arith::convert_b13_coef(a[k][0] + a[k][64]));
            } else {
                bits.push(crate::arith::convert_b13_coef(a[k][i]));
            }
            i += 1;
        }
        proof {
            assert(bits@ =~= lane13_bits(state_view(*a)[k as int]));
        }
        r.push(crate::arith::word_from_bits(&bits));
        k += 1;
    }
    r
}

/// One whole permutation instance from words to words: encode to clean
/// base 13, run the sequencer, decode the mixing output in the base its
/// branch left it in.  By the round-by-round correspondence the result
/// is exactly the bitwise Keccak-f[1600] permutation of the input,
/// with the next block absorbed when the flag is set.
pub fn permute_and_absorb_words(in_words: &Vec<u64>, flag: bool, next: &Vec<u64>) -> (r: Vec<u64>)
    requires
        in_words@.len() == 25,
        next@.len() == 17,
    ensures
        r@.len() == 25,
        !flag ==> r@ == crate::bits::spec_keccak_f(in_words@),
        flag ==> r@ == crate::bits::spec_absorb_bits(crate::bits::spec_keccak_f(in_words@), next@),
{
    let encoded = state_b2_to_b13(in_words);
    let out = permute_and_absorb(&encoded, flag, next);
    let r = if flag {
        decode_state13(&out)
    } else {
        decode_state9(&out)
    };
    proof {
        assert forall|k: int| 0 <= k < 25 implies #[trigger] r@[k] == (if flag {
            crate::bits::spec_absorb_bits(crate::bits::spec_keccak_f(in_words@), next@)[k]
        } else {
            crate::bits::spec_keccak_f(in_words@)[k]
        }) by {
            crate::correspondence::lemma_pipeline_words_match_oracle(in_words@, flag, next@, k);
        }
        if flag {
            assert(r@ =~= crate::bits::spec_absorb_bits(
                crate::bits::spec_keccak_f(in_words@),
                next@,
            ));
        } else {
            crate::correspondence::lemma_keccak_rounds_len(in_words@, 24);
            assert(r@ =~= crate::bits::spec_keccak_f(in_words@));
        }
    }
    r
}

/// The output-consistency gate: accepts exactly when the computed
/// output equals, lane by lane, the externally supplied expected
/// output.
#[verifier::loop_isolation(false)]
pub fn constrain_out_state(out_mixing: &Vec<u64>, out_state: &Vec<u64>) -> (r: bool)
    requires
        out_mixing@.len() == 25,
        out_state@.len() == 25,
    ensures
        r <==> out_mixing@ == out_state@,
{
    let mut ok: bool = true;
    let mut k: usize = 0;
    while k < 25
        invariant
            k <= 25,
            ok <==> (forall|j: int| 0 <= j < k ==> out_mixing@[j] == out_state@[j]),
        decreases 25 - k,
    {
        if out_mixing[k] != out_state[k] {
            ok = false;
        }
        k += 1;
    }
    proof {
        if ok {
            assert(out_mixing@ =~= out_state@);
        }
    }
    ok
}

/// Mutating any single lane of a valid witnessed output yields an
/// output that the consistency gate rejects.
pub proof fn lemma_out_state_tamper(computed: Seq<u64>, tampered: Seq<u64>, j: int)
    requires
        computed.len() == 25,
        tampered.len() == 25,
        0 <= j < 25,
        tampered[j] != computed[j],
    ensures
        tampered != computed,
{
}

} // verus!
