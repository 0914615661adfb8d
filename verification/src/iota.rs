//! The iota step: addition of a round constant to lane (0, 0).
//!
//! The constant is a fixed 64-bit word, never part of the witness.  In
//! base 9 its bit at position `i` is added with coefficient 2, which
//! flips the bit that [`crate::arith::b9_coef`] reads off a chi digit;
//! in base 13 it is added with coefficient 1, flipping the parity that
//! [`crate::arith::b13_coef`] reads.  Only lane 0 changes.

use vstd::prelude::*;
use crate::arith::{bit_of, copy_lane, state_view, wf_state13, wf_state9};

verus! {

/// The base-9 iota output: lane 0's digit `i` grows by twice bit `i` of
/// the round constant; all other lanes are unchanged.
pub open spec fn spec_iota_b9(a: Seq<Seq<u64>>, rc: u64) -> Seq<Seq<u64>> {
    a.update(0, Seq::new(64, |i: int| (a[0][i] + 2 * bit_of(rc, i)) as u64))
}

/// The base-13 iota output: lane 0's digit `i` grows by bit `i` of the
/// round constant; the overflow digit and all other lanes are
/// unchanged.
pub open spec fn spec_iota_b13(a: Seq<Seq<u64>>, rc: u64) -> Seq<Seq<u64>> {
    a.update(
        0,
        Seq::new(65, |i: int| if i < 64 { (a[0][i] + bit_of(rc, i)) as u64 } else { a[0][i] }),
    )
}

/// The iota encoding law in base 9: adding twice a round-constant bit
/// to a chi digit flips the bit the digit stands for exactly when the
/// constant's bit is set.
pub proof fn lemma_iota_b9_flips_bit(d: u64, r: u64)
    requires
        d <= 6,
        r <= 1,
    ensures
        crate::arith::b9_coef((d + 2 * r) as int) == if r == 1 {
            (1 - crate::arith::b9_coef(d as int)) as u64
        } else {
            crate::arith::b9_coef(d as int)
        },
{
}

/// Adds a round constant to lane 0 of a base-9 state whose digits came
/// from chi (at most 6), so the grown digits stay below the radix.
#[verifier::loop_isolation(false)]
pub fn iota_b9(a: &Vec<Vec<u64>>, rc: u64) -> (r: Vec<Vec<u64>>)
    requires
        wf_state9(state_view(*a)),
        forall|i: int| 0 <= i < 64 ==> #[trigger] state_view(*a)[0][i] <= 6,
    ensures
        state_view(r) == spec_iota_b9(state_view(*a), rc),
        wf_state9(state_view(r)),
        r@.len() == 25,
{
    let mut r: Vec<Vec<u64>> = Vec::new();
    let mut lane: Vec<u64> = Vec::new();
    let mut i: usize = 0;
    proof {
        assert(crate::arith::wf_lane9(state_view(*a)[0]));
        assert(state_view(*a)[0] == a@[0]@);
    }
    while i < 64
        invariant
            i <= 64,
            lane@.len() == i,
            forall|j: int|
                0 <= j < i ==> (#[trigger] lane@[j]) == (state_view(*a)[0][j] + 2 * bit_of(
                    rc,
                    j,
                )) as u64 && lane@[j] <= 8,
        decreases 64 - i,
    {
        let b: u64 = (rc >> (i as u64)) & 1;
        proof {
            let iu = i as u64;
            assert((rc >> iu) & 1 == 0 || (rc >> iu) & 1 == 1) by (bit_vector);
        }
        lane.push(a[0][i] + 2 * b);
        i += 1;
    }
    r.push(lane);
    let mut k: usize = 1;
    while k < 25
        invariant
            1 <= k <= 25,
            r@.len() == k,
            r@[0]@.len() == 64,
            forall|j: int|
                0 <= j < 64 ==> (#[trigger] r@[0]@[j]) == (state_view(*a)[0][j] + 2 * bit_of(
                    rc,
                    j,
                )) as u64 && r@[0]@[j] <= 8,
            forall|u: int| 1 <= u < k ==> (#[trigger] r@[u])@ == state_view(*a)[u],
        decreases 25 - k,
    {
        proof {
            assert(state_view(*a)[k as int] == a@[k as int]@);
        }
        r.push(copy_lane(&a[k]));
        k += 1;
    }
    proof {
        assert(state_view(r) =~~= spec_iota_b9(state_view(*a), rc));
        assert forall|u: int| 0 <= u < 25 implies crate::arith::wf_lane9(
            #[trigger] state_view(r)[u],
        ) by {
            if u > 0 {
                assert(crate::arith::wf_lane9(state_view(*a)[u]));
            }
        }
    }
    r
}

/// Adds a round constant to lane 0 of a base-13 state whose low digits
/// are small sums (at most 11), so the grown digits stay below the
/// radix.
#[verifier::loop_isolation(false)]
pub fn iota_b13(a: &Vec<Vec<u64>>, rc: u64) -> (r: Vec<Vec<u64>>)
    requires
        wf_state13(state_view(*a)),
        forall|i: int| 0 <= i < 64 ==> #[trigger] state_view(*a)[0][i] <= 11,
    ensures
        state_view(r) == spec_iota_b13(state_view(*a), rc),
        wf_state13(state_view(r)),
        r@.len() == 25,
{
    let mut r: Vec<Vec<u64>> = Vec::new();
    let mut lane: Vec<u64> = Vec::new();
    let mut i: usize = 0;
    proof {
        assert(crate::arith::wf_lane13(state_view(*a)[0]));
        assert(state_view(*a)[0] == a@[0]@);
    }
    while i < 64
        invariant
            i <= 64,
            lane@.len() == i,
            forall|j: int|
                0 <= j < i ==> (#[trigger] lane@[j]) == (state_view(*a)[0][j] + bit_of(
                    rc,
                    j,
                )) as u64 && lane@[j] <= 12,
        decreases 64 - i,
    {
        let b: u64 = (rc >> (i as u64)) & 1;
        proof {
            let iu = i as u64;
            assert((rc >> iu) & 1 == 0 || (rc >> iu) & 1 == 1) by (bit_vector);
        }
        lane.push(a[0][i] + b);
        i += 1;
    }
    lane.push(a[0][64]);
    r.push(lane);
    let mut k: usize = 1;
    while k < 25
        invariant
            1 <= k <= 25,
            r@.len() == k,
            r@[0]@.len() == 65,
            forall|j: int|
                0 <= j < 64 ==> (#[trigger] r@[0]@[j]) == (state_view(*a)[0][j] + bit_of(
                    rc,
                    j,
                )) as u64 && r@[0]@[j] <= 12,
            r@[0]@[64] == state_view(*a)[0][64],
            forall|u: int| 1 <= u < k ==> (#[trigger] r@[u])@ == state_view(*a)[u],
        decreases 25 - k,
    {
        proof {
            assert(state_view(*a)[k as int] == a@[k as int]@);
        }
        r.push(copy_lane(&a[k]));
        k += 1;
    }
    proof {
        assert(state_view(r) =~~= spec_iota_b13(state_view(*a), rc));
        assert forall|u: int| 0 <= u < 25 implies crate::arith::wf_lane13(
            #[trigger] state_view(r)[u],
        ) by {
            assert(crate::arith::wf_lane13(state_view(*a)[u]));
        }
    }
    r
}

} // verus!
