//! Overflow bookkeeping for rho's chunked base conversion.
//!
//! The 63 ordinary digit positions of a lane (positions 1 to 63; the
//! special chunk pairing positions 0 and 64 is handled on its own) are
//! converted through the lookup table in chunks of up to four digits.
//! A chunk may not cross the lane's rotation boundary, so the positions
//! split into a run below the boundary and a run above it, and each run
//! ends in a remainder chunk of fewer than four digits.  Per lane we
//! record how many chunks of width two and of width three occurred —
//! the two bounded counters.  Their totals over all 25 lanes depend
//! only on the fixed rotation offsets, so one aggregate equality at
//! round end catches a tampered counter in any single lane.

use vstd::prelude::*;
use crate::common::rotation_offsets;

verus! {

/// The pair of bounded counters attached to one lane's rotation:
/// how many width-2 and width-3 chunks its conversion used.
#[derive(Clone, Copy, PartialEq, Eq, Structural, Debug)]
pub struct BlockCount {
    /// Number of chunks of exactly two digits.
    pub step2: u64,
    /// Number of chunks of exactly three digits.
    pub step3: u64,
}

/// Width-2 remainder chunks of a run of `len` digits chunked by four.
pub open spec fn run_step2(len: int) -> u64 {
    if len % 4 == 2 {
        1u64
    } else {
        0u64
    }
}

/// Width-3 remainder chunks of a run of `len` digits chunked by four.
pub open spec fn run_step3(len: int) -> u64 {
    if len % 4 == 3 {
        1u64
    } else {
        0u64
    }
}

/// Counters of a lane with rotation offset `t`: the 63 ordinary digit
/// positions split at the rotation boundary into runs of `63 - t` and
/// `t` digits (one run of 63 when `t` is zero).
pub open spec fn spec_lane_block_count(t: int) -> BlockCount {
    if t == 0 {
        BlockCount { step2: run_step2(63), step3: run_step3(63) }
    } else {
        BlockCount {
            step2: (run_step2(63 - t) + run_step2(t)) as u64,
            step3: (run_step3(63 - t) + run_step3(t)) as u64,
        }
    }
}

/// The counters every lane must carry: those of its standard offset.
pub open spec fn true_counts() -> Seq<BlockCount> {
    Seq::new(25, |k: int| spec_lane_block_count(rotation_offsets()[k] as int))
}

/// Sum of the width-2 counters of the first `n` lanes.
pub open spec fn sum_step2(bcs: Seq<BlockCount>, n: int) -> int
    decreases n,
{
    if n <= 0 {
        0
    } else {
        sum_step2(bcs, n - 1) + bcs[n - 1].step2
    }
}

/// Sum of the width-3 counters of the first `n` lanes.
pub open spec fn sum_step3(bcs: Seq<BlockCount>, n: int) -> int
    decreases n,
{
    if n <= 0 {
        0
    } else {
        sum_step3(bcs, n - 1) + bcs[n - 1].step3
    }
}

/// Expected total of width-2 chunks over the 25 standard offsets.
pub const STEP2_TOTAL: u64 = 12;

/// Expected total of width-3 chunks over the 25 standard offsets.
pub const STEP3_TOTAL: u64 = 13;

/// Block-count aggregate law: over all 25 lanes, the counters computed
/// from the standard rotation offsets sum to exactly the expected
/// totals.
pub proof fn lemma_block_count_aggregate()
    ensures
        sum_step2(true_counts(), 25) == STEP2_TOTAL,
        sum_step3(true_counts(), 25) == STEP3_TOTAL,
{
    reveal_with_fuel(sum_step2, 26);
    reveal_with_fuel(sum_step3, 26);
}

/// Two counter sequences that agree everywhere but possibly at `j` have
/// sums that differ exactly by the difference at `j`.
proof fn lemma_sum_except(a: Seq<BlockCount>, b: Seq<BlockCount>, j: int, n: int)
    requires
        a.len() == b.len(),
        0 <= j < a.len(),
        n <= a.len(),
        forall|k: int| 0 <= k < a.len() && k != j ==> a[k] == b[k],
    ensures
        sum_step2(a, n) == sum_step2(b, n) + if j < n {
            a[j].step2 - b[j].step2
        } else {
            0
        },
        sum_step3(a, n) == sum_step3(b, n) + if j < n {
            a[j].step3 - b[j].step3
        } else {
            0
        },
    decreases n,
{
    if n > 0 {
        lemma_sum_except(a, b, j, n - 1);
    }
}

/// Tampering with a single lane's counter pair is caught by the final
/// aggregate check: if every other lane carries its true counters and
/// lane `j` does not, at least one of the two totals misses its
/// expected value.
pub proof fn lemma_block_count_tamper(bcs: Seq<BlockCount>, j: int)
    requires
        bcs.len() == 25,
        0 <= j < 25,
        bcs[j] != true_counts()[j],
        forall|k: int| 0 <= k < 25 && k != j ==> bcs[k] == true_counts()[k],
    ensures
        sum_step2(bcs, 25) != STEP2_TOTAL || sum_step3(bcs, 25) != STEP3_TOTAL,
{
    lemma_block_count_aggregate();
    lemma_sum_except(bcs, true_counts(), j, 25);
}

/// Counters of one lane's rotation by `t`.
pub fn lane_block_count(t: u64) -> (r: BlockCount)
    requires
        t < 64,
    ensures
        r == spec_lane_block_count(t as int),
{
    if t == 0 {
        BlockCount { step2: 0, step3: 1 }
    } else {
        let low: u64 = 63 - t;
        let step2: u64 = if low % 4 == 2 {
            1
        } else {
            0
        } + if t % 4 == 2 {
            1
        } else {
            0
        };
        let step3: u64 = if low % 4 == 3 {
            1
        } else {
            0
        } + if t % 4 == 3 {
            1
        } else {
            0
        };
        BlockCount { step2, step3 }
    }
}

/// Counters of all 25 lanes under the standard rotation offsets.
#[verifier::loop_isolation(false)]
pub fn state_block_counts() -> (r: Vec<BlockCount>)
    ensures
        r@ == true_counts(),
{
    let mut r: Vec<BlockCount> = Vec::new();
    let mut k: usize = 0;
    while k < 25
        invariant
            k <= 25,
            r@.len() == k,
            forall|u: int| 0 <= u < k ==> (#[trigger] r@[u]) == true_counts()[u],
        decreases 25 - k,
    {
        let t = crate::common::rotation_offset(k);
        r.push(lane_block_count(t));
        k += 1;
    }
    proof {
        assert(r@ =~= true_counts());
    }
    r
}

/// The aggregate gate at round end: accepts a state's counter pairs
/// exactly when both totals equal the expected values.
#[verifier::loop_isolation(false)]
pub fn block_count_final_check(bcs: &Vec<BlockCount>) -> (r: bool)
    requires
        bcs@.len() == 25,
    ensures
        r <==> (sum_step2(bcs@, 25) == STEP2_TOTAL && sum_step3(bcs@, 25) == STEP3_TOTAL),
{
    let mut acc2: u128 = 0;
    let mut acc3: u128 = 0;
    let mut k: usize = 0;
    while k < 25
        invariant
            k <= 25,
            acc2 == sum_step2(bcs@, k as int),
            acc3 == sum_step3(bcs@, k as int),
            acc2 <= k * 0xffff_ffff_ffff_ffffu128,
            acc3 <= k * 0xffff_ffff_ffff_ffffu128,
        decreases 25 - k,
    {
        acc2 = acc2 + bcs[k].step2 as u128;
        acc3 = acc3 + bcs[k].step3 as u128;
        k += 1;
    }
    acc2 == STEP2_TOTAL as u128 && acc3 == STEP3_TOTAL as u128
}

} // verus!
