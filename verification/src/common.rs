//! Keccak-f[1600] constants: the 24 round constants and the fixed
//! per-lane rotation offsets of rho.
//!
//! A lane sits at grid position `(x, y)` and at index `5 * x + y` of the
//! flat 25-lane state.

use vstd::prelude::*;

verus! {

/// The 24 standard Keccak-f[1600] round constants, as 64-bit words.
pub open spec fn round_constants() -> Seq<u64> {
    seq![
        0x0000000000000001u64,
        0x0000000000008082u64,
        0x800000000000808Au64,
        0x8000000080008000u64,
        0x000000000000808Bu64,
        0x0000000080000001u64,
        0x8000000080008081u64,
        0x8000000000008009u64,
        0x000000000000008Au64,
        0x0000000000000088u64,
        0x0000000080008009u64,
        0x000000008000000Au64,
        0x000000008000808Bu64,
        0x800000000000008Bu64,
        0x8000000000008089u64,
        0x8000000000008003u64,
        0x8000000000008002u64,
        0x8000000000000080u64,
        0x000000000000800Au64,
        0x800000008000000Au64,
        0x8000000080008081u64,
        0x8000000000008080u64,
        0x0000000080000001u64,
        0x8000000080008008u64,
    ]
}

/// The standard rho rotation offsets, indexed by `5 * x + y`.
pub open spec fn rotation_offsets() -> Seq<u64> {
    seq![
        0u64, 36u64, 3u64, 41u64, 18u64,
        1u64, 44u64, 10u64, 45u64, 2u64,
        62u64, 6u64, 43u64, 15u64, 61u64,
        28u64, 55u64, 25u64, 21u64, 56u64,
        27u64, 20u64, 39u64, 8u64, 14u64,
    ]
}

/// Round constant of round `idx`.
pub fn round_constant(idx: usize) -> (r: u64)
    requires
        idx < 24,
    ensures
        r == round_constants()[idx as int],
{
    match idx {
        0 => 0x0000000000000001,
        1 => 0x0000000000008082,
        2 => 0x800000000000808A,
        3 => 0x8000000080008000,
        4 => 0x000000000000808B,
        5 => 0x0000000080000001,
        6 => 0x8000000080008081,
        7 => 0x8000000000008009,
        8 => 0x000000000000008A,
        9 => 0x0000000000000088,
        10 => 0x0000000080008009,
        11 => 0x000000008000000A,
        12 => 0x000000008000808B,
        13 => 0x800000000000008B,
        14 => 0x8000000000008089,
        15 => 0x8000000000008003,
        16 => 0x8000000000008002,
        17 => 0x8000000000000080,
        18 => 0x000000000000800A,
        19 => 0x800000008000000A,
        20 => 0x8000000080008081,
        21 => 0x8000000000008080,
        22 => 0x0000000080000001,
        _ => 0x8000000080008008,
    }
}

/// Rotation offset of the lane at index `idx`.
pub fn rotation_offset(idx: usize) -> (r: u64)
    requires
        idx < 25,
    ensures
        r == rotation_offsets()[idx as int],
        r < 64,
{
    match idx {
        0 => 0,
        1 => 36,
        2 => 3,
        3 => 41,
        4 => 18,
        5 => 1,
        6 => 44,
        7 => 10,
        8 => 45,
        9 => 2,
        10 => 62,
        11 => 6,
        12 => 43,
        13 => 15,
        14 => 61,
        15 => 28,
        16 => 55,
        17 => 25,
        18 => 21,
        19 => 56,
        20 => 27,
        21 => 20,
        22 => 39,
        23 => 8,
        _ => 14,
    }
}

/// Every rotation offset is a valid rotation amount.
pub proof fn lemma_rotation_offsets_in_range()
    ensures
        rotation_offsets().len() == 25,
        forall|k: int| 0 <= k < 25 ==> rotation_offsets()[k] < 64,
{
}

} // verus!
