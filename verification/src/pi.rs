//! The pi step: a pure relabeling of the 25 lanes.
//!
//! The lane that sat at grid position `(x, y)` moves to position
//! `(y, (2x + 3y) mod 5)`.  No arithmetic constraint is emitted for it:
//! the step only rewires which lane feeds which input of the next step.

use vstd::prelude::*;
use crate::arith::{clean_lane9, clean_state9, copy_lane, state_view};

verus! {

/// Index of the input lane that lands at index `k` of pi's output.
pub open spec fn pi_source(k: int) -> int {
    let x = k / 5;
    let y = k % 5;
    5 * ((x + 3 * y) % 5) + x
}

/// The relabeled state: output lane `k` is input lane `pi_source(k)`.
pub open spec fn spec_pi(a: Seq<Seq<u64>>) -> Seq<Seq<u64>> {
    Seq::new(25, |k: int| a[pi_source(k)])
}

/// Splitting a flat lane index into its grid coordinates.
pub proof fn lemma_lane_index(x: int, y: int)
    requires
        0 <= x < 5,
        0 <= y < 5,
    ensures
        (5 * x + y) / 5 == x,
        (5 * x + y) % 5 == y,
{
    vstd::arithmetic::div_mod::lemma_fundamental_div_mod_converse(5 * x + y, 5, x, y);
}

/// The index map of pi sends the input lane at grid position `(x, y)`
/// to the output position `(y, (2x + 3y) mod 5)`, exactly as the Keccak
/// specification demands.
pub proof fn lemma_pi_index_map(a: Seq<Seq<u64>>, x: int, y: int)
    requires
        a.len() == 25,
        0 <= x < 5,
        0 <= y < 5,
    ensures
        spec_pi(a)[5 * y + (2 * x + 3 * y) % 5] == a[5 * x + y],
{
    let yy = (2 * x + 3 * y) % 5;
    let q = (2 * x + 3 * y) / 5;
    vstd::arithmetic::div_mod::lemma_fundamental_div_mod(2 * x + 3 * y, 5);
    assert(0 <= yy < 5);
    lemma_lane_index(y, yy);
    assert(y + 3 * yy == x + 5 * (x + 2 * y - 3 * q));
    vstd::arithmetic::div_mod::lemma_fundamental_div_mod_converse(
        y + 3 * yy,
        5,
        x + 2 * y - 3 * q,
        x,
    );
    assert(pi_source(5 * y + yy) == 5 * x + y);
}

/// The source index of every output position is itself a lane index.
pub proof fn lemma_pi_source_range(k: int)
    requires
        0 <= k < 25,
    ensures
        0 <= pi_source(k) < 25,
{
    vstd::arithmetic::div_mod::lemma_fundamental_div_mod(k, 5);
}

/// Relabeling lanes preserves cleanliness: pi of a clean base-9 state
/// is clean.
pub proof fn lemma_pi_preserves_clean9(a: Seq<Seq<u64>>)
    requires
        clean_state9(a),
    ensures
        clean_state9(spec_pi(a)),
{
    assert forall|k: int| 0 <= k < 25 implies clean_lane9(#[trigger] spec_pi(a)[k]) by {
        lemma_pi_source_range(k);
        assert(clean_lane9(a[pi_source(k)]));
    }
}

/// Applies the pi relabeling to a 25-lane state.
pub fn pi(a: &Vec<Vec<u64>>) -> (r: Vec<Vec<u64>>)
    requires
        a@.len() == 25,
    ensures
        state_view(r) == spec_pi(state_view(*a)),
        r@.len() == 25,
{
    let mut r: Vec<Vec<u64>> = Vec::new();
    let mut k: usize = 0;
    while k < 25
        invariant
            k <= 25,
            a@.len() == 25,
            r@.len() == k,
            forall|j: int| 0 <= j < k ==> r@[j]@ == state_view(*a)[pi_source(j)],
        decreases 25 - k,
    {
        let x: usize = k / 5;
        let y: usize = k % 5;
        let src: usize = 5 * ((x + 3 * y) % 5) + x;
        assert(src == pi_source(k as int));
        assert(0 <= pi_source(k as int) < 25);
        r.push(copy_lane(&a[src]));
        k += 1;
    }
    proof {
        assert(state_view(r) =~= spec_pi(state_view(*a)));
    }
    r
}

} // verus!
