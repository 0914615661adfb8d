//! The theta step: column-parity mixing, in base 13.
//!
//! For each lane, theta adds (digit-wise) the parity sum of the column
//! to its left and the rotated-by-one parity sum of the column to its
//! right.  XOR is accumulated as plain addition: a clean input digit is
//! a bit, a column sum is at most 5, so an output digit is at most
//! 1 + 5 + 5 = 11 < 13 and no carry can spill into the next digit.  The
//! rotation by one bit is a shift of the digit sequence, which writes
//! the overflow digit at position 64.

use vstd::prelude::*;
use crate::arith::{clean_state13, state_view, wf_state13};

verus! {

/// Digit `i` of the parity sum of column `x`: the sum of that digit
/// over the five lanes of the column.
pub open spec fn theta_col(a: Seq<Seq<u64>>, x: int, i: int) -> int {
    a[5 * x][i] + a[5 * x + 1][i] + a[5 * x + 2][i] + a[5 * x + 3][i] + a[5 * x + 4][i]
}

/// Digit `i` of output lane `k`: the lane's own digit, plus the parity
/// sum of the column to the left, plus the parity sum of the column to
/// the right shifted up one position (theta's rotate-by-one).
pub open spec fn theta_digit(a: Seq<Seq<u64>>, k: int, i: int) -> int {
    let x = k / 5;
    a[k][i] + theta_col(a, (x + 4) % 5, i) + if i > 0 {
        theta_col(a, (x + 1) % 5, i - 1)
    } else {
        0
    }
}

/// The full theta transform of a 25-lane base-13 state.
pub open spec fn spec_theta(a: Seq<Seq<u64>>) -> Seq<Seq<u64>> {
    Seq::new(25, |k: int| Seq::new(65, |i: int| theta_digit(a, k, i) as u64))
}

/// The all-zero base-13 state.
pub open spec fn zero_state13() -> Seq<Seq<u64>> {
    Seq::new(25, |k: int| Seq::new(65, |i: int| 0u64))
}

/// Theta, applied twice, over the all-zero state returns the all-zero
/// state: every digit of theta's output is a sum of zero digits.
pub proof fn lemma_theta_twice_zero()
    ensures
        spec_theta(zero_state13()) == zero_state13(),
        spec_theta(spec_theta(zero_state13())) == zero_state13(),
{
    assert forall|k: int, i: int| 0 <= k < 25 && 0 <= i < 65 implies theta_digit(
        zero_state13(),
        k,
        i,
    ) == 0 by {
        let x = k / 5;
        assert(0 <= x < 5);
        assert(0 <= (x + 4) % 5 < 5);
        assert(0 <= (x + 1) % 5 < 5);
    }
    assert(spec_theta(zero_state13()) =~~= zero_state13());
}

/// Computes the five column parity sums of a clean state, digit-wise.
#[verifier::loop_isolation(false)]
fn theta_cols(a: &Vec<Vec<u64>>) -> (c: Vec<Vec<u64>>)
    requires
        clean_state13(state_view(*a)),
    ensures
        c@.len() == 5,
        forall|x: int| 0 <= x < 5 ==> (#[trigger] c@[x])@.len() == 65,
        forall|x: int, i: int|
            0 <= x < 5 && 0 <= i < 65 ==> (#[trigger] c@[x]@[i]) == theta_col(
                state_view(*a),
                x,
                i,
            ) && c@[x]@[i] <= 5,
{
    proof {
        crate::arith::lemma_clean_state13_unpack(*a);
    }
    let mut c: Vec<Vec<u64>> = Vec::new();
    let mut x: usize = 0;
    while x < 5
        invariant
            x <= 5,
            c@.len() == x,
            forall|u: int| 0 <= u < x ==> (#[trigger] c@[u])@.len() == 65,
            forall|u: int, i: int|
                0 <= u < x && 0 <= i < 65 ==> (#[trigger] c@[u]@[i]) == theta_col(
                    state_view(*a),
                    u,
                    i,
                ) && c@[u]@[i] <= 5,
        decreases 5 - x,
    {
        let mut col: Vec<u64> = Vec::new();
        let mut i: usize = 0;
        while i < 65
            invariant
                i <= 65,
                x < 5,
                col@.len() == i,
                forall|j: int|
                    0 <= j < i ==> (#[trigger] col@[j]) == theta_col(state_view(*a), x as int, j)
                        && col@[j] <= 5,
            decreases 65 - i,
        {
            let d: u64 = a[5 * x][i] + a[5 * x + 1][i] + a[5 * x + 2][i] + a[5 * x + 3][i] + a[5 * x
                + 4][i];
            proof {
                assert(state_view(*a)[5 * x as int] == a@[5 * x as int]@);
                assert(state_view(*a)[5 * x as int + 1] == a@[5 * x as int + 1]@);
                assert(state_view(*a)[5 * x as int + 2] == a@[5 * x as int + 2]@);
                assert(state_view(*a)[5 * x as int + 3] == a@[5 * x as int + 3]@);
                assert(state_view(*a)[5 * x as int + 4] == a@[5 * x as int + 4]@);
            }
            col.push(d);
            i += 1;
        }
        c.push(col);
        x += 1;
    }
    c
}

/// Applies theta to a clean base-13 state.  Every output digit equals
/// the exact integer sum given by [`theta_digit`]; in particular all
/// digits stay at most 11, strictly below the radix.
#[verifier::loop_isolation(false)]
pub fn theta(a: &Vec<Vec<u64>>) -> (r: Vec<Vec<u64>>)
    requires
        clean_state13(state_view(*a)),
    ensures
        state_view(r) == spec_theta(state_view(*a)),
        wf_state13(state_view(r)),
        r@.len() == 25,
{
    proof {
        crate::arith::lemma_clean_state13_unpack(*a);
    }
    let c = theta_cols(a);
    let mut r: Vec<Vec<u64>> = Vec::new();
    let mut k: usize = 0;
    while k < 25
        invariant
            k <= 25,
            r@.len() == k,
            forall|u: int| 0 <= u < k ==> (#[trigger] r@[u])@.len() == 65,
            forall|u: int, i: int|
                0 <= u < k && 0 <= i < 65 ==> (#[trigger] r@[u]@[i]) == theta_digit(
                    state_view(*a),
                    u,
                    i,
                ) && r@[u]@[i] <= 11,
        decreases 25 - k,
    {
        let x: usize = k / 5;
        let x4: usize = (x + 4) % 5;
        let x1: usize = (x + 1) % 5;
        let mut lane: Vec<u64> = Vec::new();
        let mut i: usize = 0;
        while i < 65
            invariant
                i <= 65,
                k < 25,
                x == k / 5,
                x4 == (x + 4) % 5,
                x1 == (x + 1) % 5,
                x < 5,
                lane@.len() == i,
                forall|j: int|
                    0 <= j < i ==> (#[trigger] lane@[j]) == theta_digit(state_view(*a), k as int, j)
                        && lane@[j] <= 11,
            decreases 65 - i,
        {
            let own: u64 = a[k][i];
            let left: u64 = c[x4][i];
            let right: u64 = if i > 0 {
                c[x1][i - 1]
            } else {
                0
            };
            proof {
                assert(state_view(*a)[k as int] == a@[k as int]@);
            }
            lane.push(own + left + right);
            i += 1;
        }
        r.push(lane);
        k += 1;
    }
    proof {
        assert(state_view(r) =~~= spec_theta(state_view(*a)));
    }
    r
}

} // verus!
