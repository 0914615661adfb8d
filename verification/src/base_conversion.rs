//! Base conversion between rounds: base-9 digits back to clean base-13.
//!
//! After chi and iota a lane's digits are small sums in base 9; the
//! next theta needs clean base-13 digits.  Each digit is normalized to
//! the bit it stands for through [`crate::arith::b9_coef`] — the
//! digit-chunk pairs involved are exactly the rows of the base-9 lookup
//! table — and written as a base-13 digit.  The step is gated by an
//! activation flag: when the flag is off the state passes through
//! unchanged.

use vstd::prelude::*;
use crate::arith::{
    b9_coef, clean_state13, convert_b9_coef, copy_lane, state_view, wf_state9,
};

verus! {

/// Clean base-13 lane normalizing a base-9 lane: digit `i` becomes the
/// bit its base-9 digit stands for; the overflow digit is zero.
pub open spec fn spec_b9_lane_to_b13(s: Seq<u64>) -> Seq<u64> {
    Seq::new(65, |i: int| if i < 64 { b9_coef(s[i] as int) } else { 0u64 })
}

/// The gated conversion of a full state: converted when the flag is
/// set, passed through unchanged when it is not.
pub open spec fn spec_base_conversion(a: Seq<Seq<u64>>, flag: bool) -> Seq<Seq<u64>> {
    if flag {
        Seq::new(25, |k: int| spec_b9_lane_to_b13(a[k]))
    } else {
        a
    }
}

/// Converts one base-9 lane to a clean base-13 lane.
#[verifier::loop_isolation(false)]
pub fn b9_lane_to_b13(lane: &Vec<u64>) -> (r: Vec<u64>)
    requires
        lane@.len() == 64,
    ensures
        r@ == spec_b9_lane_to_b13(lane@),
        crate::arith::clean_lane13(r@),
{
    let mut r: Vec<u64> = Vec::new();
    let mut i: usize = 0;
    while i < 64
        invariant
            i <= 64,
            r@.len() == i,
            forall|j: int|
                0 <= j < i ==> (#[trigger] r@[j]) == b9_coef(lane@[j] as int) && r@[j] <= 1,
        decreases 64 - i,
    {
        r.push(convert_b9_coef(lane[i]));
        i += 1;
    }
    r.push(0);
    proof {
        assert(r@ =~= spec_b9_lane_to_b13(lane@));
    }
    r
}

/// Applies the gated base conversion to a full base-9 state.
#[verifier::loop_isolation(false)]
pub fn base_conversion(a: &Vec<Vec<u64>>, flag: bool) -> (r: Vec<Vec<u64>>)
    requires
        wf_state9(state_view(*a)),
    ensures
        state_view(r) == spec_base_conversion(state_view(*a), flag),
        flag ==> clean_state13(state_view(r)),
        r@.len() == 25,
{
    if !flag {
        let mut r: Vec<Vec<u64>> = Vec::new();
        let mut k: usize = 0;
        while k < 25
            invariant
                k <= 25,
                r@.len() == k,
                forall|u: int| 0 <= u < k ==> (#[trigger] r@[u])@ == state_view(*a)[u],
            decreases 25 - k,
        {
            proof {
                assert(state_view(*a)[k as int] == a@[k as int]@);
            }
            r.push(copy_lane(&a[k]));
            k += 1;
        }
        proof {
            assert(state_view(r) =~= state_view(*a));
        }
        r
    } else {
        let mut r: Vec<Vec<u64>> = Vec::new();
        let mut k: usize = 0;
        while k < 25
            invariant
                k <= 25,
                r@.len() == k,
                forall|u: int|
                    0 <= u < k ==> (#[trigger] r@[u])@ == spec_b9_lane_to_b13(state_view(*a)[u]),
                forall|u: int| 0 <= u < k ==> crate::arith::clean_lane13((#[trigger] r@[u])@),
            decreases 25 - k,
        {
            proof {
                assert(crate::arith::wf_lane9(state_view(*a)[k as int]));
                assert(state_view(*a)[k as int] == a@[k as int]@);
            }
            r.push(b9_lane_to_b13(&a[k]));
            k += 1;
        }
        proof {
            assert(state_view(r) =~= spec_base_conversion(state_view(*a), true));
        }
        r
    }
}

} // verus!
