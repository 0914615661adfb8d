//! The base-translation lookup tables.
//!
//! A gate proves a base conversion not by a polynomial identity but by
//! membership: the pair of digit chunks it relates must be a row of a
//! precomputed table.  Chunks are up to four digits wide.  Two tables
//! are built once at circuit setup and shared read-only by every
//! consuming step: one keyed by binary chunks (giving their base-9 and
//! base-13 encodings) and one keyed by base-9 chunks (giving the
//! base-13 and binary encodings of the bits their digits stand for).

use vstd::prelude::*;
use crate::arith::b9_coef;

verus! {

/// Digits per chunk.
pub const CHUNK_WIDTH: u64 = 4;

/// Rows of the binary-keyed table: 2^4.
pub const BINARY_TABLE_ROWS: usize = 16;

/// Rows of the base-9-keyed table: 9^4.
pub const BASE9_TABLE_ROWS: usize = 6561;

/// Re-encodes a chunk of `width` binary digits in radix `to`.
pub open spec fn spec_chunk_b2(v: int, width: nat, to: int) -> int
    decreases width,
{
    if width == 0 {
        0
    } else {
        v % 2 + to * spec_chunk_b2(v / 2, (width - 1) as nat, to)
    }
}

/// Normalizes a chunk of `width` base-9 digits and re-encodes the bits
/// they stand for in radix `to`.
pub open spec fn spec_chunk_b9(v: int, width: nat, to: int) -> int
    decreases width,
{
    if width == 0 {
        0
    } else {
        b9_coef(v % 9) + to * spec_chunk_b9(v / 9, (width - 1) as nat, to)
    }
}

/// Powers of 13, used to bound chunk values.
pub open spec fn spec_pow13(w: nat) -> int
    decreases w,
{
    if w == 0 {
        1
    } else {
        13 * spec_pow13((w - 1) as nat)
    }
}

/// The concrete small powers of 13.
pub proof fn lemma_pow13_small()
    ensures
        spec_pow13(0) == 1,
        spec_pow13(1) == 13,
        spec_pow13(2) == 169,
        spec_pow13(3) == 2197,
        spec_pow13(4) == 28561,
{
    reveal_with_fuel(spec_pow13, 5);
}

/// A re-encoded binary chunk is a nonnegative value below 13^width.
pub proof fn lemma_chunk_b2_bounds(v: int, w: nat, to: int)
    requires
        0 <= v,
        1 <= to <= 13,
    ensures
        0 <= spec_chunk_b2(v, w, to) < spec_pow13(w),
    decreases w,
{
    if w > 0 {
        assert(v / 2 >= 0) by (nonlinear_arith)
            requires
                v >= 0,
        ;
        lemma_chunk_b2_bounds(v / 2, (w - 1) as nat, to);
        let rec = spec_chunk_b2(v / 2, (w - 1) as nat, to);
        assert(0 <= to * rec && to * rec <= 13 * rec) by (nonlinear_arith)
            requires
                1 <= to <= 13,
                0 <= rec,
        ;
    }
}

/// A normalized base-9 chunk is a nonnegative value below 13^width.
pub proof fn lemma_chunk_b9_bounds(v: int, w: nat, to: int)
    requires
        0 <= v,
        1 <= to <= 13,
    ensures
        0 <= spec_chunk_b9(v, w, to) < spec_pow13(w),
    decreases w,
{
    if w > 0 {
        assert(v / 9 >= 0) by (nonlinear_arith)
            requires
                v >= 0,
        ;
        lemma_chunk_b9_bounds(v / 9, (w - 1) as nat, to);
        let rec = spec_chunk_b9(v / 9, (w - 1) as nat, to);
        assert(0 <= to * rec && to * rec <= 13 * rec) by (nonlinear_arith)
            requires
                1 <= to <= 13,
                0 <= rec,
        ;
    }
}

/// Base-9 encoding of a binary chunk, executable.
pub fn chunk_b2_to_b9(v: u64, width: u64) -> (r: u64)
    requires
        width <= 4,
    ensures
        r as int == spec_chunk_b2(v as int, width as nat, 9),
        r < spec_pow13(width as nat),
    decreases width,
{
    if width == 0 {
        0
    } else {
        let rest = chunk_b2_to_b9(v / 2, width - 1);
        proof {
            lemma_pow13_small();
        }
        v % 2 + 9 * rest
    }
}

/// Base-13 encoding of a binary chunk, executable.
pub fn chunk_b2_to_b13(v: u64, width: u64) -> (r: u64)
    requires
        width <= 4,
    ensures
        r as int == spec_chunk_b2(v as int, width as nat, 13),
        r < spec_pow13(width as nat),
    decreases width,
{
    if width == 0 {
        0
    } else {
        let rest = chunk_b2_to_b13(v / 2, width - 1);
        proof {
            lemma_pow13_small();
        }
        v % 2 + 13 * rest
    }
}

/// Base-13 re-encoding of a normalized base-9 chunk, executable.
pub fn chunk_b9_to_b13(v: u64, width: u64) -> (r: u64)
    requires
        width <= 4,
    ensures
        r as int == spec_chunk_b9(v as int, width as nat, 13),
        r < spec_pow13(width as nat),
    decreases width,
{
    if width == 0 {
        0
    } else {
        let rest = chunk_b9_to_b13(v / 9, width - 1);
        proof {
            lemma_pow13_small();
        }
        crate::arith::convert_b9_coef(v % 9) + 13 * rest
    }
}

/// Binary re-encoding of a normalized base-9 chunk, executable.
pub fn chunk_b9_to_b2(v: u64, width: u64) -> (r: u64)
    requires
        width <= 4,
    ensures
        r as int == spec_chunk_b9(v as int, width as nat, 2),
        r < spec_pow13(width as nat),
    decreases width,
{
    if width == 0 {
        0
    } else {
        let rest = chunk_b9_to_b2(v / 9, width - 1);
        proof {
            lemma_pow13_small();
        }
        crate::arith::convert_b9_coef(v % 9) + 2 * rest
    }
}

/// The binary-keyed table: row `v` maps the binary chunk `v` to its
/// base-9 and base-13 encodings.
pub open spec fn spec_binary_table() -> Seq<(u64, u64, u64)> {
    Seq::new(
        16,
        |v: int| (v as u64, spec_chunk_b2(v, 4, 9) as u64, spec_chunk_b2(v, 4, 13) as u64),
    )
}

/// The base-9-keyed table: row `v` maps the base-9 chunk `v` to the
/// base-13 and binary encodings of its bits.
pub open spec fn spec_base9_table() -> Seq<(u64, u64, u64)> {
    Seq::new(
        6561,
        |v: int| (v as u64, spec_chunk_b9(v, 4, 13) as u64, spec_chunk_b9(v, 4, 2) as u64),
    )
}

/// Builds the binary-keyed table.
#[verifier::loop_isolation(false)]
pub fn build_binary_table() -> (r: Vec<(u64, u64, u64)>)
    ensures
        r@ == spec_binary_table(),
{
    let mut r: Vec<(u64, u64, u64)> = Vec::new();
    let mut v: usize = 0;
    while v < 16
        invariant
            v <= 16,
            r@.len() == v,
            forall|u: int| 0 <= u < v ==> (#[trigger] r@[u]) == spec_binary_table()[u],
        decreases 16 - v,
    {
        let b9 = chunk_b2_to_b9(v as u64, 4);
        let b13 = chunk_b2_to_b13(v as u64, 4);
        r.push((v as u64, b9, b13));
        v += 1;
    }
    proof {
        assert(r@ =~= spec_binary_table());
    }
    r
}

/// Builds the base-9-keyed table.
#[verifier::loop_isolation(false)]
pub fn build_base9_table() -> (r: Vec<(u64, u64, u64)>)
    ensures
        r@ == spec_base9_table(),
{
    let mut r: Vec<(u64, u64, u64)> = Vec::new();
    let mut v: usize = 0;
    while v < 6561
        invariant
            v <= 6561,
            r@.len() == v,
            forall|u: int| 0 <= u < v ==> (#[trigger] r@[u]) == spec_base9_table()[u],
        decreases 6561 - v,
    {
        let b13 = chunk_b9_to_b13(v as u64, 4);
        let b2 = chunk_b9_to_b2(v as u64, 4);
        r.push((v as u64, b13, b2));
        v += 1;
    }
    proof {
        assert(r@ =~= spec_base9_table());
    }
    r
}

/// Membership in the base-9-keyed table characterized by value: a row
/// belongs to the table exactly when its key is a valid chunk and its
/// two outputs are that chunk's re-encodings.
pub proof fn lemma_base9_table_membership(row: (u64, u64, u64))
    ensures
        spec_base9_table().contains(row) <==> (row.0 < 6561 && row.1 as int == spec_chunk_b9(
            row.0 as int,
            4,
            13,
        ) && row.2 as int == spec_chunk_b9(row.0 as int, 4, 2)),
{
    let t = spec_base9_table();
    lemma_pow13_small();
    if row.0 < 6561 && row.1 as int == spec_chunk_b9(row.0 as int, 4, 13) && row.2 as int
        == spec_chunk_b9(row.0 as int, 4, 2) {
        assert(t[row.0 as int] == row);
        assert(t.contains(row));
    }
    if t.contains(row) {
        let idx = choose|idx: int| 0 <= idx < t.len() && t[idx] == row;
        assert(t[idx] == row);
        lemma_chunk_b9_bounds(idx, 4, 13);
        lemma_chunk_b9_bounds(idx, 4, 2);
        assert(row.0 == idx as u64);
        assert(row.1 as int == spec_chunk_b9(idx, 4, 13));
        assert(row.2 as int == spec_chunk_b9(idx, 4, 2));
    }
}

/// The membership check a consuming gate uses: a value triple is
/// constrained to be a row of the table rather than satisfying a
/// polynomial equation.
pub fn base9_table_contains(row: (u64, u64, u64)) -> (r: bool)
    ensures
        r <==> spec_base9_table().contains(row),
{
    proof {
        lemma_base9_table_membership(row);
    }
    if row.0 < 6561 {
        let b13 = chunk_b9_to_b13(row.0, 4);
        let b2 = chunk_b9_to_b2(row.0, 4);
        row.1 == b13 && row.2 == b2
    } else {
        false
    }
}

/// Membership in the binary-keyed table characterized by value.
pub proof fn lemma_binary_table_membership(row: (u64, u64, u64))
    ensures
        spec_binary_table().contains(row) <==> (row.0 < 16 && row.1 as int == spec_chunk_b2(
            row.0 as int,
            4,
            9,
        ) && row.2 as int == spec_chunk_b2(row.0 as int, 4, 13)),
{
    let t = spec_binary_table();
    lemma_pow13_small();
    if row.0 < 16 && row.1 as int == spec_chunk_b2(row.0 as int, 4, 9) && row.2 as int
        == spec_chunk_b2(row.0 as int, 4, 13) {
        assert(t[row.0 as int] == row);
        assert(t.contains(row));
    }
    if t.contains(row) {
        let idx = choose|idx: int| 0 <= idx < t.len() && t[idx] == row;
        assert(t[idx] == row);
        lemma_chunk_b2_bounds(idx, 4, 9);
        lemma_chunk_b2_bounds(idx, 4, 13);
        assert(row.0 == idx as u64);
        assert(row.1 as int == spec_chunk_b2(idx, 4, 9));
        assert(row.2 as int == spec_chunk_b2(idx, 4, 13));
    }
}

/// Membership check against the binary-keyed table.
pub fn binary_table_contains(row: (u64, u64, u64)) -> (r: bool)
    ensures
        r <==> spec_binary_table().contains(row),
{
    proof {
        lemma_binary_table_membership(row);
    }
    if row.0 < 16 {
        let b9 = chunk_b2_to_b9(row.0, 4);
        let b13 = chunk_b2_to_b13(row.0, 4);
        row.1 == b9 && row.2 == b13
    } else {
        false
    }
}

} // verus!
