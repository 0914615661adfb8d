//! The rho step: per-lane rotation by a fixed offset, fused with the
//! base-13 to base-9 re-encoding.
//!
//! A lane arrives from theta as 65 dirty base-13 digits.  Each digit's
//! parity is the bit it stands for, and the overflow digit at position
//! 64 aliases position 0 (a 64-bit word wraps there), so positions 0 and
//! 64 form one special chunk whose parities are summed.  Writing the
//! normalized bit of source position `i` at target position
//! `(i + t) mod 64` rotates the lane left by its offset `t` while
//! re-encoding it as a clean base-9 lane for pi and chi.

use vstd::prelude::*;
use crate::arith::{
    b13_coef, clean_lane9, clean_state9, convert_b13_coef, lane13_bits, rotl_digits, state_view,
    wf_lane13, wf_state13, lemma_mod64,
};
use crate::common::rotation_offsets;

verus! {

/// The rotated, re-encoded lane: the digit at target position `p` is
/// the parity of the source digit at position `(p + 64 - t) % 64`, with
/// the special chunk (positions 0 and 64) folded together.
pub open spec fn rho_lane(s: Seq<u64>, t: int) -> Seq<u64> {
    Seq::new(
        64,
        |p: int|
            {
                let i = (p + 64 - t) % 64;
                if i == 0 {
                    b13_coef(s[0] + s[64])
                } else {
                    b13_coef(s[i] as int)
                }
            },
    )
}

/// The full rho transform: every lane rotated by its standard offset.
pub open spec fn spec_rho(a: Seq<Seq<u64>>) -> Seq<Seq<u64>> {
    Seq::new(25, |k: int| rho_lane(a[k], rotation_offsets()[k] as int))
}

/// What rho does to a lane is exactly a left rotation of the lane's bit
/// content by its offset.
pub proof fn lemma_rho_lane_is_rotation(s: Seq<u64>, t: int)
    requires
        s.len() == 65,
        0 <= t < 64,
    ensures
        rho_lane(s, t) == rotl_digits(lane13_bits(s), t),
{
    assert forall|p: int| 0 <= p < 64 implies rho_lane(s, t)[p] == rotl_digits(
        lane13_bits(s),
        t,
    )[p] by {
        lemma_mod64(p + 64 - t);
        let i = (p + 64 - t) % 64;
        assert(0 <= i < 64);
        assert(rotl_digits(lane13_bits(s), t)[p] == lane13_bits(s)[i]);
    }
    assert(rho_lane(s, t) =~= rotl_digits(lane13_bits(s), t));
}

/// Word-level correctness of rho on one lane: if a base-13 lane
/// represents the word `w` bit for bit, then the rotated, re-encoded
/// lane's digits are exactly the bits of `w` rotated left by `t`.
pub proof fn lemma_rho_lane_decodes_to_rotation(s: Seq<u64>, w: u64, t: int)
    requires
        s.len() == 65,
        0 <= t < 64,
        lane13_bits(s) == Seq::new(64, |i: int| crate::arith::bit_of(w, i)),
    ensures
        rho_lane(s, t) == Seq::new(
            64,
            |p: int| crate::arith::bit_of(crate::bits::rotl64(w, t), p),
        ),
{
    assert forall|p: int| 0 <= p < 64 implies rho_lane(s, t)[p] == crate::arith::bit_of(
        crate::bits::rotl64(w, t),
        p,
    ) by {
        crate::bits::lemma_rotl64_bit(w, t as u64, p as u64);
        lemma_mod64(p + 64 - t);
        let i = (p + 64 - t) % 64;
        assert(0 <= i < 64);
        assert(lane13_bits(s)[i] == crate::arith::bit_of(w, i));
        assert(rho_lane(s, t)[p] == lane13_bits(s)[i]);
    }
    assert(rho_lane(s, t) =~= Seq::new(
        64,
        |p: int| crate::arith::bit_of(crate::bits::rotl64(w, t), p),
    ));
}

/// Rotates one base-13 lane by `t` and re-encodes it in base 9.
#[verifier::loop_isolation(false)]
pub fn rho_lane_convert(lane: &Vec<u64>, t: usize) -> (r: Vec<u64>)
    requires
        wf_lane13(lane@),
        t < 64,
    ensures
        r@ == rho_lane(lane@, t as int),
        clean_lane9(r@),
{
    let mut r: Vec<u64> = Vec::new();
    let mut p: usize = 0;
    while p < 64
        invariant
            p <= 64,
            r@.len() == p,
            forall|q: int| 0 <= q < p ==> (#[trigger] r@[q]) == rho_lane(lane@, t as int)[q],
            forall|q: int| 0 <= q < p ==> (#[trigger] r@[q]) <= 1,
        decreases 64 - p,
    {
        let i: usize = (p + 64 - t) % 64;
        let d: u64 = if i == 0 {
            convert_b13_coef(lane[0] + lane[64])
        } else {
            convert_b13_coef(lane[i])
        };
        r.push(d);
        p += 1;
    }
    r
}

/// Applies rho to a well-formed base-13 state: each lane is rotated
/// left by its standard offset and lands as a clean base-9 lane.
#[verifier::loop_isolation(false)]
pub fn rho(a: &Vec<Vec<u64>>) -> (r: Vec<Vec<u64>>)
    requires
        wf_state13(state_view(*a)),
    ensures
        state_view(r) == spec_rho(state_view(*a)),
        clean_state9(state_view(r)),
        r@.len() == 25,
{
    proof {
        crate::arith::lemma_wf_state13_unpack(*a);
    }
    let mut r: Vec<Vec<u64>> = Vec::new();
    let mut k: usize = 0;
    while k < 25
        invariant
            k <= 25,
            r@.len() == k,
            forall|u: int|
                0 <= u < k ==> (#[trigger] r@[u])@ == rho_lane(
                    state_view(*a)[u],
                    rotation_offsets()[u] as int,
                ),
            forall|u: int| 0 <= u < k ==> clean_lane9((#[trigger] r@[u])@),
        decreases 25 - k,
    {
        let t: u64 = crate::common::rotation_offset(k);
        proof {
            assert(state_view(*a)[k as int] == a@[k as int]@);
        }
        let lane = rho_lane_convert(&a[k], t as usize);
        r.push(lane);
        k += 1;
    }
    proof {
        assert(state_view(r) =~= spec_rho(state_view(*a)));
    }
    r
}

} // verus!
