//! Plain bitwise evaluator of Keccak-f[1600]: the oracle.
//!
//! This is the reference permutation on 64-bit words, used to compute
//! expected witness values and to cross-check the numeral-base
//! pipeline.  Soundness of the constraint system never rests on it; it
//! is an independent implementation against which the arithmetized
//! steps are tested.

use vstd::prelude::*;
use crate::common::{round_constants, rotation_offsets};
use crate::pi::pi_source;

verus! {

/// Left rotation of a 64-bit word.
pub open spec fn rotl64(w: u64, r: int) -> u64 {
    if r == 0 {
        w
    } else {
        (w << (r as u64)) | (w >> ((64 - r) as u64))
    }
}

/// Executable left rotation.
pub fn rotl64_exec(w: u64, r: u64) -> (res: u64)
    requires
        r < 64,
    ensures
        res == rotl64(w, r as int),
{
    if r == 0 {
        w
    } else {
        (w << r) | (w >> (64 - r))
    }
}

/// Bit `p` of a rotated word is bit `(p + 64 - t) % 64` of the word.
pub proof fn lemma_rotl64_bit(w: u64, t: u64, p: u64)
    requires
        t < 64,
        p < 64,
    ensures
        crate::arith::bit_of(rotl64(w, t as int), p as int) == crate::arith::bit_of(
            w,
            (p + 64 - t) as int % 64,
        ),
{
    if t == 0 {
        crate::arith::lemma_mod64(p + 64);
    } else {
        let i = (p + 64 - t) as int % 64;
        crate::arith::lemma_mod64(p + 64 - t);
        let tc = (64 - t) as u64;
        assert(rotl64(w, t as int) == (w << t) | (w >> tc));
        if p >= t {
            assert(i == p - t);
            let dd = (p - t) as u64;
            assert((((w << t) | (w >> tc)) >> p) & 1 == (w >> dd) & 1) by (bit_vector)
                requires
                    0 < t < 64,
                    p < 64,
                    dd < 64,
                    p == dd + t,
                    t + tc == 64,
            ;
        } else {
            assert(i == p + 64 - t);
            let dd = (p + 64 - t) as u64;
            assert((((w << t) | (w >> tc)) >> p) & 1 == (w >> dd) & 1) by (bit_vector)
                requires
                    0 < t < 64,
                    p < t,
                    dd < 64,
                    dd + t == p + 64,
                    t + tc == 64,
            ;
        }
    }
}

/// XOR of the five lanes of column `x`.
pub open spec fn col_xor(a: Seq<u64>, x: int) -> u64 {
    a[5 * x] ^ a[5 * x + 1] ^ a[5 * x + 2] ^ a[5 * x + 3] ^ a[5 * x + 4]
}

/// Bitwise theta: each lane XORs the parity of the column to its left
/// and the rotated parity of the column to its right.
pub open spec fn spec_theta_bits(a: Seq<u64>) -> Seq<u64> {
    Seq::new(
        25,
        |k: int|
            {
                let x = k / 5;
                a[k] ^ col_xor(a, (x + 4) % 5) ^ rotl64(col_xor(a, (x + 1) % 5), 1)
            },
    )
}

/// Bitwise rho: each lane rotated by its standard offset.
pub open spec fn spec_rho_bits(a: Seq<u64>) -> Seq<u64> {
    Seq::new(25, |k: int| rotl64(a[k], rotation_offsets()[k] as int))
}

/// Bitwise pi: the lane relabeling.
pub open spec fn spec_pi_bits(a: Seq<u64>) -> Seq<u64> {
    Seq::new(25, |k: int| a[pi_source(k)])
}

/// Bitwise chi: `a XOR (NOT b AND c)` along each row.
pub open spec fn spec_chi_bits(a: Seq<u64>) -> Seq<u64> {
    Seq::new(
        25,
        |k: int|
            {
                let x = k / 5;
                let y = k % 5;
                a[k] ^ (!a[5 * ((x + 1) % 5) + y] & a[5 * ((x + 2) % 5) + y])
            },
    )
}

/// Bitwise iota: the round constant XORed into lane 0.
pub open spec fn spec_iota_bits(a: Seq<u64>, rc: u64) -> Seq<u64> {
    a.update(0, a[0] ^ rc)
}

/// One full bitwise round.
pub open spec fn spec_round_bits(a: Seq<u64>, rc: u64) -> Seq<u64> {
    spec_iota_bits(spec_chi_bits(spec_pi_bits(spec_rho_bits(spec_theta_bits(a)))), rc)
}

/// The first `n` bitwise rounds.
pub open spec fn spec_keccak_f_rounds(a: Seq<u64>, n: nat) -> Seq<u64>
    decreases n,
{
    if n == 0 {
        a
    } else {
        spec_round_bits(spec_keccak_f_rounds(a, (n - 1) as nat), round_constants()[n - 1])
    }
}

/// The full 24-round bitwise Keccak-f[1600] permutation.
pub open spec fn spec_keccak_f(a: Seq<u64>) -> Seq<u64> {
    spec_keccak_f_rounds(a, 24)
}

/// Bitwise absorption: the next input block XORed into the rate lanes.
pub open spec fn spec_absorb_bits(a: Seq<u64>, next: Seq<u64>) -> Seq<u64> {
    Seq::new(25, |k: int| if k < 17 { a[k] ^ next[k] } else { a[k] })
}

/// One bitwise round, executable.
#[verifier::loop_isolation(false)]
pub fn round_bits(a: &Vec<u64>, rc: u64) -> (r: Vec<u64>)
    requires
        a@.len() == 25,
    ensures
        r@ == spec_round_bits(a@, rc),
        r@.len() == 25,
{
    // theta
    let mut c: Vec<u64> = Vec::new();
    let mut x: usize = 0;
    while x < 5
        invariant
            x <= 5,
            c@.len() == x,
            forall|u: int| 0 <= u < x ==> (#[trigger] c@[u]) == col_xor(a@, u),
        decreases 5 - x,
    {
        c.push(a[5 * x] ^ a[5 * x + 1] ^ a[5 * x + 2] ^ a[5 * x + 3] ^ a[5 * x + 4]);
        x += 1;
    }
    let mut s1: Vec<u64> = Vec::new();
    let mut k: usize = 0;
    while k < 25
        invariant
            k <= 25,
            s1@.len() == k,
            forall|u: int| 0 <= u < k ==> (#[trigger] s1@[u]) == spec_theta_bits(a@)[u],
        decreases 25 - k,
    {
        let x: usize = k / 5;
        s1.push(a[k] ^ c[(x + 4) % 5] ^ rotl64_exec(c[(x + 1) % 5], 1));
        k += 1;
    }
    // rho
    let mut s2: Vec<u64> = Vec::new();
    let mut k: usize = 0;
    while k < 25
        invariant
            k <= 25,
            s2@.len() == k,
            forall|u: int| 0 <= u < k ==> (#[trigger] s2@[u]) == spec_rho_bits(s1@)[u],
        decreases 25 - k,
    {
        let t = crate::common::rotation_offset(k);
        s2.push(rotl64_exec(s1[k], t));
        k += 1;
    }
    // pi
    let mut s3: Vec<u64> = Vec::new();
    let mut k: usize = 0;
    while k < 25
        invariant
            k <= 25,
            s3@.len() == k,
            forall|u: int| 0 <= u < k ==> (#[trigger] s3@[u]) == spec_pi_bits(s2@)[u],
        decreases 25 - k,
    {
        let x: usize = k / 5;
        let y: usize = k % 5;
        let src: usize = 5 * ((x + 3 * y) % 5) + x;
        assert(src == pi_source(k as int));
        s3.push(s2[src]);
        k += 1;
    }
    // chi
    let mut s4: Vec<u64> = Vec::new();
    let mut k: usize = 0;
    while k < 25
        invariant
            k <= 25,
            s4@.len() == k,
            forall|u: int| 0 <= u < k ==> (#[trigger] s4@[u]) == spec_chi_bits(s3@)[u],
        decreases 25 - k,
    {
        let x: usize = k / 5;
        let y: usize = k % 5;
        s4.push(s3[k] ^ (!s3[5 * ((x + 1) % 5) + y] & s3[5 * ((x + 2) % 5) + y]));
        k += 1;
    }
    // iota
    let first: u64 = s4[0] ^ rc;
    s4.set(0, first);
    proof {
        assert(spec_theta_bits(a@) =~= s1@);
        assert(spec_rho_bits(s1@) =~= s2@);
        assert(spec_pi_bits(s2@) =~= s3@);
        assert(s4@ =~= spec_round_bits(a@, rc));
    }
    s4
}

/// The full bitwise permutation, executable: 24 rounds with the
/// standard round constants.
#[verifier::loop_isolation(false)]
pub fn keccak_f_bits(a: &Vec<u64>) -> (r: Vec<u64>)
    requires
        a@.len() == 25,
    ensures
        r@ == spec_keccak_f(a@),
        r@.len() == 25,
{
    let mut state = crate::arith::copy_lane(a);
    let mut round: usize = 0;
    while round < 24
        invariant
            round <= 24,
            state@.len() == 25,
            state@ == spec_keccak_f_rounds(a@, round as nat),
        decreases 24 - round,
    {
        let rc = crate::common::round_constant(round);
        state = round_bits(&state, rc);
        round += 1;
    }
    state
}

/// The oracle itself: one permutation call, optionally followed by
/// absorption of the next input block into the rate lanes.
#[verifier::loop_isolation(false)]
pub fn permute(a: &Vec<u64>, next: Option<&Vec<u64>>) -> (r: Vec<u64>)
    requires
        a@.len() == 25,
        next.is_some() ==> next.unwrap()@.len() == 17,
    ensures
        next.is_none() ==> r@ == spec_keccak_f(a@),
        next.is_some() ==> r@ == spec_absorb_bits(spec_keccak_f(a@), next.unwrap()@),
        r@.len() == 25,
{
    let permuted = keccak_f_bits(a);
    match next {
        None => permuted,
        Some(block) => {
            let mut r: Vec<u64> = Vec::new();
            let mut k: usize = 0;
            while k < 25
                invariant
                    k <= 25,
                    r@.len() == k,
                    forall|u: int|
                        0 <= u < k ==> (#[trigger] r@[u]) == spec_absorb_bits(
                            permuted@,
                            block@,
                        )[u],
                decreases 25 - k,
            {
                if k < 17 {
                    r.push(permuted[k] ^ block[k]);
                } else {
                    r.push(permuted[k]);
                }
                k += 1;
            }
            proof {
                assert(r@ =~= spec_absorb_bits(spec_keccak_f(a@), block@));
            }
            r
        },
    }
}

} // verus!
