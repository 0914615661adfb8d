//! The xi (chi) step: the one nonlinear combination, in base 9.
//!
//! For each bit position the step computes `a XOR (NOT b AND c)` over
//! the lane, its right neighbour and the next one in the same row.  The
//! encoding writes the digit `2a + b + 3c`: a clean input keeps it at
//! most 6 < 9, and the digit determines the result bit through
//! [`crate::arith::b9_coef`] — it is 2 or 3 modulo 4 exactly when the
//! combination's bit is 1.

use vstd::prelude::*;
use crate::arith::{clean_state9, state_view, wf_state9};

verus! {

/// Digit `i` of output lane `k = 5x + y`: `2a + b + 3c` over the digits
/// of the lanes at `(x, y)`, `(x + 1, y)` and `(x + 2, y)`.
pub open spec fn xi_digit(a: Seq<Seq<u64>>, k: int, i: int) -> int {
    let x = k / 5;
    let y = k % 5;
    2 * a[k][i] + a[5 * ((x + 1) % 5) + y][i] + 3 * a[5 * ((x + 2) % 5) + y][i]
}

/// The full xi transform of a 25-lane base-9 state.
pub open spec fn spec_xi(a: Seq<Seq<u64>>) -> Seq<Seq<u64>> {
    Seq::new(25, |k: int| Seq::new(64, |i: int| xi_digit(a, k, i) as u64))
}

/// The chi encoding law: for bits `a`, `b`, `c`, the digit `2a + b + 3c`
/// stands, through the coefficient map, for exactly the bit
/// `a XOR (NOT b AND c)` of the Keccak chi step.
pub proof fn lemma_chi_digit_encodes_combination(a: u64, b: u64, c: u64)
    requires
        a <= 1,
        b <= 1,
        c <= 1,
    ensures
        crate::arith::b9_coef(2 * a + b + 3 * c) == if (a == 1) != (b == 0 && c == 1) {
            1u64
        } else {
            0u64
        },
{
}

/// Applies xi to a clean base-9 state.  Every output digit is the exact
/// sum `2a + b + 3c`, hence at most 6.
#[verifier::loop_isolation(false)]
pub fn xi(a: &Vec<Vec<u64>>) -> (r: Vec<Vec<u64>>)
    requires
        clean_state9(state_view(*a)),
    ensures
        state_view(r) == spec_xi(state_view(*a)),
        wf_state9(state_view(r)),
        forall|k: int, i: int| 0 <= k < 25 && 0 <= i < 64 ==> (#[trigger] state_view(r)[k][i]) <= 6,
        r@.len() == 25,
{
    proof {
        crate::arith::lemma_clean_state9_unpack(*a);
    }
    let mut r: Vec<Vec<u64>> = Vec::new();
    let mut k: usize = 0;
    while k < 25
        invariant
            k <= 25,
            r@.len() == k,
            forall|u: int| 0 <= u < k ==> (#[trigger] r@[u])@.len() == 64,
            forall|u: int, i: int|
                0 <= u < k && 0 <= i < 64 ==> (#[trigger] r@[u]@[i]) == xi_digit(
                    state_view(*a),
                    u,
                    i,
                ) && r@[u]@[i] <= 6,
        decreases 25 - k,
    {
        let x: usize = k / 5;
        let y: usize = k % 5;
        let kb: usize = 5 * ((x + 1) % 5) + y;
        let kc: usize = 5 * ((x + 2) % 5) + y;
        let mut lane: Vec<u64> = Vec::new();
        let mut i: usize = 0;
        while i < 64
            invariant
                i <= 64,
                k < 25,
                x == k / 5,
                y == k % 5,
                kb == 5 * ((x + 1) % 5) + y,
                kc == 5 * ((x + 2) % 5) + y,
                x < 5,
                y < 5,
                kb < 25,
                kc < 25,
                lane@.len() == i,
                forall|j: int|
                    0 <= j < i ==> (#[trigger] lane@[j]) == xi_digit(state_view(*a), k as int, j)
                        && lane@[j] <= 6,
            decreases 64 - i,
        {
            let d: u64 = 2 * a[k][i] + a[kb][i] + 3 * a[kc][i];
            proof {
                assert(state_view(*a)[k as int] == a@[k as int]@);
                assert(state_view(*a)[kb as int] == a@[kb as int]@);
                assert(state_view(*a)[kc as int] == a@[kc as int]@);
            }
            lane.push(d);
            i += 1;
        }
        r.push(lane);
        k += 1;
    }
    proof {
        assert(state_view(r) =~~= spec_xi(state_view(*a)));
    }
    r
}

} // verus!
