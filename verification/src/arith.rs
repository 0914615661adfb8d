//! Digit-level model of the numeral-base encodings.
//!
//! A 64-bit lane is held as a vector of digits in a chosen radix.  A
//! *clean* lane has one digit in {0, 1} per bit position, so the digits
//! are exactly the bits of the word.  The round steps accumulate XOR by
//! digit-wise addition, which leaves *dirty* digits (small sums of
//! bits); the bit a dirty digit stands for is recovered by the
//! coefficient maps below.  Base-13 lanes carry one extra digit at
//! position 64, produced by theta's rotate-by-one shift; under the
//! rotation semantics of a 64-bit word that digit aliases position 0.

use vstd::prelude::*;

verus! {

/// Radix of the lanes consumed by the linear steps (theta, rho).
pub const B13: u64 = 13;

/// Radix of the lanes produced by the nonlinear chi step.
pub const B9: u64 = 9;

/// Bit positions per lane.
pub const LANE_BITS: usize = 64;

/// Digits of a base-13 lane: one per bit position, plus the overflow
/// digit that theta's shift writes at position 64.
pub const B13_DIGITS: usize = 65;

/// Sequence of the per-lane digit sequences of a state held as nested
/// vectors.
pub open spec fn state_view(a: Vec<Vec<u64>>) -> Seq<Seq<u64>> {
    Seq::new(a@.len(), |k: int| a@[k]@)
}

/// Bit `i` of the word `w`, as a 0/1 digit.
pub open spec fn bit_of(w: u64, i: int) -> u64 {
    if (w >> (i as u64)) & 1 == 1 {
        1u64
    } else {
        0u64
    }
}

/// A base-13 lane: 65 digits, each below 13.
pub open spec fn wf_lane13(s: Seq<u64>) -> bool {
    s.len() == 65 && (forall|i: int| 0 <= i < 65 ==> s[i] < 13)
}

/// A clean base-13 lane: its 64 low digits are bits and the overflow
/// digit is zero, so it encodes a 64-bit word digit-for-bit.
pub open spec fn clean_lane13(s: Seq<u64>) -> bool {
    s.len() == 65 && (forall|i: int| 0 <= i < 64 ==> s[i] <= 1) && s[64] == 0
}

/// A base-9 lane: 64 digits, each below 9.
pub open spec fn wf_lane9(s: Seq<u64>) -> bool {
    s.len() == 64 && (forall|i: int| 0 <= i < 64 ==> s[i] < 9)
}

/// A clean base-9 lane: every digit is a bit.
pub open spec fn clean_lane9(s: Seq<u64>) -> bool {
    s.len() == 64 && (forall|i: int| 0 <= i < 64 ==> s[i] <= 1)
}

/// A full state of 25 base-13 lanes.
pub open spec fn wf_state13(a: Seq<Seq<u64>>) -> bool {
    a.len() == 25 && (forall|k: int| 0 <= k < 25 ==> wf_lane13(#[trigger] a[k]))
}

/// A full state of 25 clean base-13 lanes.
pub open spec fn clean_state13(a: Seq<Seq<u64>>) -> bool {
    a.len() == 25 && (forall|k: int| 0 <= k < 25 ==> clean_lane13(#[trigger] a[k]))
}

/// A full state of 25 base-9 lanes.
pub open spec fn wf_state9(a: Seq<Seq<u64>>) -> bool {
    a.len() == 25 && (forall|k: int| 0 <= k < 25 ==> wf_lane9(#[trigger] a[k]))
}

/// A full state of 25 clean base-9 lanes.
pub open spec fn clean_state9(a: Seq<Seq<u64>>) -> bool {
    a.len() == 25 && (forall|k: int| 0 <= k < 25 ==> clean_lane9(#[trigger] a[k]))
}

/// Bit represented by a base-13 digit that accumulated an XOR as a sum
/// of bits: the sum's parity.
pub open spec fn b13_coef(x: int) -> u64 {
    if x % 2 == 1 {
        1u64
    } else {
        0u64
    }
}

/// Bit represented by a base-9 digit written by chi as `2a + b + 3c`
/// (plus `2r` when iota added a round-constant bit `r`): equals
/// `a XOR (NOT b AND c) (XOR r)`, which works out to 1 exactly when the
/// digit is 2 or 3 modulo 4.
pub open spec fn b9_coef(x: int) -> u64 {
    if x % 4 == 2 || x % 4 == 3 {
        1u64
    } else {
        0u64
    }
}

/// Executable form of [`b13_coef`].
pub fn convert_b13_coef(x: u64) -> (r: u64)
    ensures
        r == b13_coef(x as int),
{
    x % 2
}

/// Executable form of [`b9_coef`].
pub fn convert_b9_coef(x: u64) -> (r: u64)
    ensures
        r == b9_coef(x as int),
{
    if x % 4 == 2 || x % 4 == 3 {
        1
    } else {
        0
    }
}

/// Clean base-13 encoding of a word: digit `i` is bit `i`.
pub open spec fn spec_b2_to_b13(w: u64) -> Seq<u64> {
    Seq::new(65, |i: int| if i < 64 { bit_of(w, i) } else { 0u64 })
}

/// Clean base-9 encoding of a word: digit `i` is bit `i`.
pub open spec fn spec_b2_to_b9(w: u64) -> Seq<u64> {
    Seq::new(64, |i: int| bit_of(w, i))
}

/// Encodes a 64-bit word as a clean base-13 lane.
pub fn convert_b2_to_b13(w: u64) -> (r: Vec<u64>)
    ensures
        r@ == spec_b2_to_b13(w),
        clean_lane13(r@),
{
    let mut r: Vec<u64> = Vec::new();
    let mut i: usize = 0;
    while i < 64
        invariant
            i <= 64,
            r@.len() == i,
            forall|j: int| 0 <= j < i ==> r@[j] == bit_of(w, j),
            forall|j: int| 0 <= j < i ==> r@[j] <= 1,
        decreases 64 - i,
    {
        let b: u64 = (w >> (i as u64)) & 1;
        proof {
            let iu = i as u64;
            assert((w >> iu) & 1 == 0 || (w >> iu) & 1 == 1) by (bit_vector);
        }
        r.push(b);
        i += 1;
    }
    r.push(0);
    proof {
        assert(r@ =~= spec_b2_to_b13(w));
    }
    r
}

/// Encodes a 64-bit word as a clean base-9 lane.
pub fn convert_b2_to_b9(w: u64) -> (r: Vec<u64>)
    ensures
        r@ == spec_b2_to_b9(w),
        clean_lane9(r@),
{
    let mut r: Vec<u64> = Vec::new();
    let mut i: usize = 0;
    while i < 64
        invariant
            i <= 64,
            r@.len() == i,
            forall|j: int| 0 <= j < i ==> r@[j] == bit_of(w, j),
            forall|j: int| 0 <= j < i ==> r@[j] <= 1,
        decreases 64 - i,
    {
        let b: u64 = (w >> (i as u64)) & 1;
        proof {
            let iu = i as u64;
            assert((w >> iu) & 1 == 0 || (w >> iu) & 1 == 1) by (bit_vector);
        }
        r.push(b);
        i += 1;
    }
    proof {
        assert(r@ =~= spec_b2_to_b9(w));
    }
    r
}

/// Value of a bit sequence read as a binary number, least-significant
/// bit first.
pub open spec fn word_of_bits(bits: Seq<u64>) -> int
    decreases bits.len(),
{
    if bits.len() == 0 {
        0
    } else {
        bits[0] + 2 * word_of_bits(bits.drop_first())
    }
}

/// A sequence of `n` bits encodes a value below 2^n.
pub proof fn lemma_word_of_bits_bound(bits: Seq<u64>)
    requires
        forall|i: int| 0 <= i < bits.len() ==> bits[i] <= 1,
    ensures
        0 <= word_of_bits(bits) < vstd::arithmetic::power2::pow2(bits.len()),
    decreases bits.len(),
{
    if bits.len() == 0 {
        vstd::arithmetic::power2::lemma_pow2_pos(0);
    } else {
        vstd::arithmetic::power2::lemma_pow2_unfold(bits.len());
        lemma_word_of_bits_bound(bits.drop_first());
    }
}

/// Packs 64 bits into the word they encode.
pub fn word_from_bits(bits: &Vec<u64>) -> (r: u64)
    requires
        bits@.len() == 64,
        forall|i: int| 0 <= i < 64 ==> bits@[i] <= 1,
    ensures
        r as int == word_of_bits(bits@),
{
    let mut w: u64 = 0;
    let mut j: usize = 64;
    proof {
        assert(bits@.subrange(64, 64) =~= Seq::<u64>::empty());
        vstd::arithmetic::power2::lemma2_to64();
    }
    while j > 0
        invariant
            j <= 64,
            bits@.len() == 64,
            forall|i: int| 0 <= i < 64 ==> bits@[i] <= 1,
            w as int == word_of_bits(bits@.subrange(j as int, 64)),
        decreases j,
    {
        j -= 1;
        proof {
            let tail = bits@.subrange(j as int, 64);
            let rest = bits@.subrange(j as int + 1, 64);
            assert(tail.drop_first() =~= rest);
            assert(forall|i: int| 0 <= i < rest.len() ==> rest[i] <= 1);
            lemma_word_of_bits_bound(rest);
            vstd::arithmetic::power2::lemma_pow2_unfold((64 - j) as nat);
            if j > 0 {
                vstd::arithmetic::power2::lemma_pow2_strictly_increases((64 - j) as nat, 64);
            }
            vstd::arithmetic::power2::lemma2_to64();
        }
        w = 2 * w + bits[j];
    }
    proof {
        assert(bits@.subrange(0, 64) =~= bits@);
    }
    w
}

/// Lane-level facts of a clean base-13 state, restated over the nested
/// vector views that executable indexing uses.
pub proof fn lemma_clean_state13_unpack(a: Vec<Vec<u64>>)
    requires
        clean_state13(state_view(a)),
    ensures
        a@.len() == 25,
        forall|k: int| 0 <= k < 25 ==> (#[trigger] a@[k])@.len() == 65,
        forall|k: int, i: int| 0 <= k < 25 && 0 <= i < 64 ==> (#[trigger] a@[k]@[i]) <= 1,
        forall|k: int| 0 <= k < 25 ==> (#[trigger] a@[k])@[64] == 0,
{
    assert forall|k: int| 0 <= k < 25 implies (#[trigger] a@[k])@.len() == 65 && a@[k]@[64]
        == 0 by {
        assert(clean_lane13(state_view(a)[k]));
    }
    assert forall|k: int, i: int| 0 <= k < 25 && 0 <= i < 64 implies (#[trigger] a@[k]@[i])
        <= 1 by {
        assert(clean_lane13(state_view(a)[k]));
    }
}

/// Lane-level facts of a well-formed base-13 state, restated over the
/// nested vector views that executable indexing uses.
pub proof fn lemma_wf_state13_unpack(a: Vec<Vec<u64>>)
    requires
        wf_state13(state_view(a)),
    ensures
        a@.len() == 25,
        forall|k: int| 0 <= k < 25 ==> (#[trigger] a@[k])@.len() == 65,
        forall|k: int, i: int| 0 <= k < 25 && 0 <= i < 65 ==> (#[trigger] a@[k]@[i]) < 13,
{
    assert forall|k: int| 0 <= k < 25 implies (#[trigger] a@[k])@.len() == 65 by {
        assert(wf_lane13(state_view(a)[k]));
    }
    assert forall|k: int, i: int| 0 <= k < 25 && 0 <= i < 65 implies (#[trigger] a@[k]@[i])
        < 13 by {
        assert(wf_lane13(state_view(a)[k]));
    }
}

/// Lane-level facts of a clean base-9 state, restated over the nested
/// vector views that executable indexing uses.
pub proof fn lemma_clean_state9_unpack(a: Vec<Vec<u64>>)
    requires
        clean_state9(state_view(a)),
    ensures
        a@.len() == 25,
        forall|k: int| 0 <= k < 25 ==> (#[trigger] a@[k])@.len() == 64,
        forall|k: int, i: int| 0 <= k < 25 && 0 <= i < 64 ==> (#[trigger] a@[k]@[i]) <= 1,
{
    assert forall|k: int| 0 <= k < 25 implies (#[trigger] a@[k])@.len() == 64 by {
        assert(clean_lane9(state_view(a)[k]));
    }
    assert forall|k: int, i: int| 0 <= k < 25 && 0 <= i < 64 implies (#[trigger] a@[k]@[i])
        <= 1 by {
        assert(clean_lane9(state_view(a)[k]));
    }
}

/// Copies a lane's digit vector.
pub fn copy_lane(v: &Vec<u64>) -> (r: Vec<u64>)
    ensures
        r@ == v@,
{
    let mut r: Vec<u64> = Vec::new();
    let mut i: usize = 0;
    while i < v.len()
        invariant
            i <= v@.len(),
            r@ == v@.subrange(0, i as int),
        decreases v@.len() - i,
    {
        r.push(v[i]);
        proof {
            assert(r@ =~= v@.subrange(0, i + 1));
        }
        i += 1;
    }
    proof {
        assert(v@.subrange(0, v@.len() as int) =~= v@);
    }
    r
}

/// Copies a full state of lanes.
#[verifier::loop_isolation(false)]
pub fn copy_state(a: &Vec<Vec<u64>>) -> (r: Vec<Vec<u64>>)
    ensures
        state_view(r) == state_view(*a),
        r@.len() == a@.len(),
{
    let mut r: Vec<Vec<u64>> = Vec::new();
    let mut k: usize = 0;
    while k < a.len()
        invariant
            k <= a@.len(),
            r@.len() == k,
            forall|u: int| 0 <= u < k ==> (#[trigger] r@[u])@ == a@[u]@,
        decreases a@.len() - k,
    {
        r.push(copy_lane(&a[k]));
        k += 1;
    }
    proof {
        assert(state_view(r) =~= state_view(*a));
    }
    r
}

/// Bit content of a (possibly dirty) base-13 lane: the parity of each
/// digit, with the overflow digit at position 64 folded into position 0,
/// which it aliases under 64-bit rotation.
pub open spec fn lane13_bits(s: Seq<u64>) -> Seq<u64> {
    Seq::new(64, |i: int| if i == 0 { b13_coef(s[0] + s[64]) } else { b13_coef(s[i] as int) })
}

/// Bit content of a (possibly dirty) base-9 lane.
pub open spec fn lane9_bits(s: Seq<u64>) -> Seq<u64> {
    Seq::new(64, |i: int| b9_coef(s[i] as int))
}

/// The bits of a word as a sequence, least-significant first.
pub open spec fn word_bits(w: u64) -> Seq<u64> {
    Seq::new(64, |i: int| bit_of(w, i))
}

/// Packing the bits of a word yields the word back.
pub proof fn lemma_word_of_bits_of_word(v: u64)
    ensures
        word_of_bits(word_bits(v)) == v as int,
{
    lemma_word_of_bits_of_word_from(v, 64);
    assert(word_bits(v).subrange(0, 64) =~= word_bits(v));
    assert(v >> 0u64 == v) by (bit_vector);
}

/// Packing the bits of a word from position `64 - j` up yields the
/// word shifted right by that position.
proof fn lemma_word_of_bits_of_word_from(v: u64, j: u64)
    requires
        1 <= j <= 64,
    ensures
        word_of_bits(word_bits(v).subrange(64 - j, 64)) == (v >> ((64 - j) as u64)) as int,
    decreases j,
{
    let p = (64 - j) as u64;
    let tail = word_bits(v).subrange(p as int, 64);
    assert(tail.drop_first() =~= word_bits(v).subrange(p as int + 1, 64));
    assert((v >> p) & 1 == 0 || (v >> p) & 1 == 1) by (bit_vector);
    if j == 1 {
        assert(word_bits(v).subrange(64, 64) =~= Seq::<u64>::empty());
        assert(v >> 63u64 == (v >> 63u64) & 1) by (bit_vector);
        assert(tail.len() == 1);
        assert(tail[0] == bit_of(v, 63));
        assert(word_of_bits(tail.drop_first()) == 0);
        assert(word_of_bits(tail) == tail[0] + 2 * word_of_bits(tail.drop_first()));
    } else {
        lemma_word_of_bits_of_word_from(v, (j - 1) as u64);
        let p1 = (p + 1) as u64;
        assert(v >> p == ((v >> p) & 1) + 2 * (v >> p1)) by (bit_vector)
            requires
                p < 63,
                p1 == p + 1,
        ;
    }
}

/// XOR-as-addition law of the base-13 encoding: adding two digit
/// contributions and taking the parity is the XOR of their parities,
/// which is why theta may accumulate column XORs by plain addition.
pub proof fn lemma_b13_coef_add(d1: int, d2: int)
    requires
        0 <= d1,
        0 <= d2,
    ensures
        b13_coef(d1 + d2) == if b13_coef(d1) == b13_coef(d2) {
            0u64
        } else {
            1u64
        },
{
}

/// A clean base-13 encoding decodes back to the word's own bits.
pub proof fn lemma_encode_decode_bits(w: u64)
    ensures
        lane13_bits(spec_b2_to_b13(w)) == Seq::new(64, |i: int| bit_of(w, i)),
{
    assert(lane13_bits(spec_b2_to_b13(w)) =~= Seq::new(64, |i: int| bit_of(w, i)));
}

/// Left rotation of the 64 digit positions of a lane: the digit at
/// position `p` of the result came from position `(p + 64 - r) % 64`.
pub open spec fn rotl_digits(s: Seq<u64>, r: int) -> Seq<u64> {
    Seq::new(64, |p: int| s[(p + 64 - r) % 64])
}

/// Right rotation of the 64 digit positions of a lane: the digit at
/// position `p` of the result came from position `(p + r) % 64`.
pub open spec fn rotr_digits(s: Seq<u64>, r: int) -> Seq<u64> {
    Seq::new(64, |p: int| s[(p + r) % 64])
}

/// Remainders by 64 of the values that rotation index arithmetic
/// produces.
pub proof fn lemma_mod64(v: int)
    requires
        0 <= v < 128,
    ensures
        v % 64 == if v < 64 { v } else { v - 64 },
{
    if v < 64 {
        vstd::arithmetic::div_mod::lemma_small_mod(v as nat, 64);
    } else {
        vstd::arithmetic::div_mod::lemma_mod_sub_multiples_vanish(v, 64);
        vstd::arithmetic::div_mod::lemma_small_mod((v - 64) as nat, 64);
    }
}

/// Round-trip law of lane rotation: rotating left by `r` and then
/// rotating back — right by `r`, which relabels positions exactly as a
/// left rotation by `(64 - r) % 64` does — restores the original lane.
pub proof fn lemma_rotate_round_trip(s: Seq<u64>, r: int)
    requires
        s.len() == 64,
        0 <= r < 64,
    ensures
        rotr_digits(rotl_digits(s, r), r) == s,
        rotl_digits(rotl_digits(s, r), (64 - r) % 64) == s,
{
    assert forall|p: int| 0 <= p < 64 implies rotr_digits(rotl_digits(s, r), r)[p] == s[p] by {
        lemma_mod64(p + r);
        let q = (p + r) % 64;
        lemma_mod64(q + 64 - r);
        assert(rotl_digits(s, r)[q] == s[(q + 64 - r) % 64]);
    }
    assert(rotr_digits(rotl_digits(s, r), r) =~= s);
    let r2 = (64 - r) % 64;
    lemma_mod64(64 - r);
    assert forall|p: int| 0 <= p < 64 implies rotl_digits(rotl_digits(s, r), r2)[p] == s[p] by {
        lemma_mod64(p + 64 - r2);
        let q = (p + 64 - r2) % 64;
        lemma_mod64(q + 64 - r);
        assert(rotl_digits(rotl_digits(s, r), r2)[p] == rotl_digits(s, r)[q]);
        assert(rotl_digits(s, r)[q] == s[(q + 64 - r) % 64]);
    }
    assert(rotl_digits(rotl_digits(s, r), r2) =~= s);
}

} // verus!
