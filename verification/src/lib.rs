//! Arithmetization core of the Keccak-f[1600] permutation for a
//! lookup-based proving system.
//!
//! Bitwise operations (XOR, rotation, the chi combination) have no
//! low-degree polynomial form over a prime field, so every lane of the
//! 1600-bit state is re-encoded as digits of a larger numeral base
//! (base 13 for the linear steps, base 9 for the nonlinear step) chosen
//! so that digit-wise integer arithmetic emulates the bitwise operation
//! without carries spilling into neighbouring digits.  This crate holds
//! that machinery — the digit encodings, the per-step state transforms,
//! the lookup tables and the overflow ("block count") bookkeeping —
//! together with a plain bitwise evaluator of the permutation used as an
//! independent reference.

use vstd::prelude::*;

pub mod arith;
pub mod base_conversion;
pub mod bits;
pub mod block_count;
pub mod common;
pub mod correspondence;
pub mod iota;
pub mod permutation;
pub mod pi;
pub mod rho;
pub mod tables;
pub mod theta;
pub mod xi;

verus! {

/// Number of lanes in the Keccak state (5 x 5 grid of 64-bit words).
pub const STATE_LANES: usize = 25;

/// Number of rounds of Keccak-f[1600].
pub const PERMUTATION: usize = 24;

/// Number of lanes of one absorbed input block (the sponge rate of
/// Keccak-256: 1088 bits = 17 lanes).
pub const NEXT_INPUTS_LANES: usize = 17;

} // verus!
