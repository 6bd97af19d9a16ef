//! Boolean functions of four bits as tables of 16 bits.

use vstd::prelude::*;

use crate::n4bit::counting::{lemma_sum_same, sum};
use crate::n4bit::cryptanalysis::weight;

verus! {

/// The value of the function at `x`.
pub open spec fn bit(t: u16, x: u16) -> u16 {
    (t >> x) & 1
}

/// The parity of the low four bits.
pub open spec fn parity(v: u16) -> u16 {
    (v ^ (v >> 1) ^ (v >> 2) ^ (v >> 3)) & 1
}

/// At how many inputs the function is one.
pub closed spec fn ones(t: u16) -> int {
    bit(t, 0)
        + bit(t, 1)
        + bit(t, 2)
        + bit(t, 3)
        + bit(t, 4)
        + bit(t, 5)
        + bit(t, 6)
        + bit(t, 7)
        + bit(t, 8)
        + bit(t, 9)
        + bit(t, 10)
        + bit(t, 11)
        + bit(t, 12)
        + bit(t, 13)
        + bit(t, 14)
        + bit(t, 15)
}

/// At how many inputs the function changes when `d` is added to the input.
pub closed spec fn flips(t: u16, d: u16) -> int {
    (bit(t, 0) ^ bit(t, 0u16 ^ d))
        + (bit(t, 1) ^ bit(t, 1u16 ^ d))
        + (bit(t, 2) ^ bit(t, 2u16 ^ d))
        + (bit(t, 3) ^ bit(t, 3u16 ^ d))
        + (bit(t, 4) ^ bit(t, 4u16 ^ d))
        + (bit(t, 5) ^ bit(t, 5u16 ^ d))
        + (bit(t, 6) ^ bit(t, 6u16 ^ d))
        + (bit(t, 7) ^ bit(t, 7u16 ^ d))
        + (bit(t, 8) ^ bit(t, 8u16 ^ d))
        + (bit(t, 9) ^ bit(t, 9u16 ^ d))
        + (bit(t, 10) ^ bit(t, 10u16 ^ d))
        + (bit(t, 11) ^ bit(t, 11u16 ^ d))
        + (bit(t, 12) ^ bit(t, 12u16 ^ d))
        + (bit(t, 13) ^ bit(t, 13u16 ^ d))
        + (bit(t, 14) ^ bit(t, 14u16 ^ d))
        + (bit(t, 15) ^ bit(t, 15u16 ^ d))
}

/// At how many inputs the function differs from the linear one of mask `a`.
pub closed spec fn distance(t: u16, a: u16) -> int {
    (bit(t, 0) ^ parity(0u16 & a))
        + (bit(t, 1) ^ parity(1u16 & a))
        + (bit(t, 2) ^ parity(2u16 & a))
        + (bit(t, 3) ^ parity(3u16 & a))
        + (bit(t, 4) ^ parity(4u16 & a))
        + (bit(t, 5) ^ parity(5u16 & a))
        + (bit(t, 6) ^ parity(6u16 & a))
        + (bit(t, 7) ^ parity(7u16 & a))
        + (bit(t, 8) ^ parity(8u16 & a))
        + (bit(t, 9) ^ parity(9u16 & a))
        + (bit(t, 10) ^ parity(10u16 & a))
        + (bit(t, 11) ^ parity(11u16 & a))
        + (bit(t, 12) ^ parity(12u16 & a))
        + (bit(t, 13) ^ parity(13u16 & a))
        + (bit(t, 14) ^ parity(14u16 & a))
        + (bit(t, 15) ^ parity(15u16 & a))
}

/// How many masks take the parity of `v` to one.
spec fn odd_masks(v: u16) -> int {
    parity(0u16 & v)
        + parity(1u16 & v)
        + parity(2u16 & v)
        + parity(3u16 & v)
        + parity(4u16 & v)
        + parity(5u16 & v)
        + parity(6u16 & v)
        + parity(7u16 & v)
        + parity(8u16 & v)
        + parity(9u16 & v)
        + parity(10u16 & v)
        + parity(11u16 & v)
        + parity(12u16 & v)
        + parity(13u16 & v)
        + parity(14u16 & v)
        + parity(15u16 & v)
}

/// Whether the function is closer than 5 to the linear one of mask `a` or to its
/// complement.
pub open spec fn close(t: u16, a: u16) -> bool {
    distance(t, a) <= 4 || distance(t, a) >= 12
}

/// How far from half the inputs at which the function changes are: 0, 1 or 4.
pub closed spec fn penalty(t: u16, d: u16) -> int {
    if flips(t, d) == 8 {
        0
    } else if flips(t, d) == 0 || flips(t, d) == 16 {
        4
    } else {
        1
    }
}

/// A balanced function is far from changing at half of the inputs, over all
/// nonzero input differences together.
#[verifier::rlimit(100)]
proof fn lemma_balanced_flips(t: u16)
    by (bit_vector)
    requires
        ones(t) == 8,
    ensures
        penalty(t, 1)
            + penalty(t, 2)
            + penalty(t, 3)
            + penalty(t, 4)
            + penalty(t, 5)
            + penalty(t, 6)
            + penalty(t, 7)
            + penalty(t, 8)
            + penalty(t, 9)
            + penalty(t, 10)
            + penalty(t, 11)
            + penalty(t, 12)
            + penalty(t, 13)
            + penalty(t, 14)
            + penalty(t, 15) >= 6,
{
}

/// A balanced function is close to a linear one.
pub proof fn lemma_balanced_close(t: u16)
    by (bit_vector)
    requires
        ones(t) == 8,
    ensures
        close(t, 1)
            || close(t, 2)
            || close(t, 3)
            || close(t, 4)
            || close(t, 5)
            || close(t, 6)
            || close(t, 7)
            || close(t, 8)
            || close(t, 9)
            || close(t, 10)
            || close(t, 11)
            || close(t, 12)
            || close(t, 13)
            || close(t, 14)
            || close(t, 15),
{
}

/// A function with an even number of ones is at an even distance from every
/// linear one.
pub proof fn lemma_even_distance(t: u16, a: u16)
    by (bit_vector)
    requires
        ones(t) % 2 == 0,
        a < 16,
    ensures
        distance(t, a) % 2 == 0,
{
}

/// Half of the masks take the parity of a nonzero nibble to one.
proof fn lemma_half_of_the_masks(v: u16)
    by (bit_vector)
    requires
        0 < v < 16,
    ensures
        odd_masks(v) == 8,
{
}

/// Every function of four bits has a table.
pub proof fn lemma_table(f: spec_fn(int) -> u16) -> (t: u16)
    requires
        forall|i: int| 0 <= i < 16 ==> #[trigger] f(i) <= 1,
    ensures
        forall|i: int| 0 <= i < 16 ==> bit(t, i as u16) == #[trigger] f(i),
{
    let v0 = f(0);
    let v1 = f(1);
    let v2 = f(2);
    let v3 = f(3);
    let v4 = f(4);
    let v5 = f(5);
    let v6 = f(6);
    let v7 = f(7);
    let v8 = f(8);
    let v9 = f(9);
    let v10 = f(10);
    let v11 = f(11);
    let v12 = f(12);
    let v13 = f(13);
    let v14 = f(14);
    let v15 = f(15);
    let t = v0
        | (v1 << 1u16)
        | (v2 << 2u16)
        | (v3 << 3u16)
        | (v4 << 4u16)
        | (v5 << 5u16)
        | (v6 << 6u16)
        | (v7 << 7u16)
        | (v8 << 8u16)
        | (v9 << 9u16)
        | (v10 << 10u16)
        | (v11 << 11u16)
        | (v12 << 12u16)
        | (v13 << 13u16)
        | (v14 << 14u16)
        | (v15 << 15u16);
    assert(bit(t, 0) == v0
        && bit(t, 1) == v1
        && bit(t, 2) == v2
        && bit(t, 3) == v3
        && bit(t, 4) == v4
        && bit(t, 5) == v5
        && bit(t, 6) == v6
        && bit(t, 7) == v7
        && bit(t, 8) == v8
        && bit(t, 9) == v9
        && bit(t, 10) == v10
        && bit(t, 11) == v11
        && bit(t, 12) == v12
        && bit(t, 13) == v13
        && bit(t, 14) == v14
        && bit(t, 15) == v15) by (bit_vector)
        requires
            v0 <= 1,
            v1 <= 1,
            v2 <= 1,
            v3 <= 1,
            v4 <= 1,
            v5 <= 1,
            v6 <= 1,
            v7 <= 1,
            v8 <= 1,
            v9 <= 1,
            v10 <= 1,
            v11 <= 1,
            v12 <= 1,
            v13 <= 1,
            v14 <= 1,
            v15 <= 1,
            t == v0
                | (v1 << 1u16)
                | (v2 << 2u16)
                | (v3 << 3u16)
                | (v4 << 4u16)
                | (v5 << 5u16)
                | (v6 << 6u16)
                | (v7 << 7u16)
                | (v8 << 8u16)
                | (v9 << 9u16)
                | (v10 << 10u16)
                | (v11 << 11u16)
                | (v12 << 12u16)
                | (v13 << 13u16)
                | (v14 << 14u16)
                | (v15 << 15u16),
    ;
    assert forall|i: int| 0 <= i < 16 implies bit(t, i as u16) == #[trigger] f(i) by {
        if i == 0 {
        } else if i == 1 {
        } else if i == 2 {
        } else if i == 3 {
        } else if i == 4 {
        } else if i == 5 {
        } else if i == 6 {
        } else if i == 7 {
        } else if i == 8 {
        } else if i == 9 {
        } else if i == 10 {
        } else if i == 11 {
        } else if i == 12 {
        } else if i == 13 {
        } else if i == 14 {
        } else {
            assert(i == 15);
        }
    }
    t
}

/// A function changes at a number of inputs that is a multiple of 4 if it is
/// balanced.
proof fn lemma_flips_of_balanced(t: u16, d: u16)
    by (bit_vector)
    requires
        ones(t) == 8,
        0 < d < 16,
    ensures
        flips(t, d) % 4 == 0,
        0 <= flips(t, d) <= 16,
{
}

/// The penalties of a balanced function are 6 in sum at least.
pub proof fn lemma_penalties(t: u16)
    requires
        ones(t) == 8,
    ensures
        sum(15, |i: int| penalty(t, (i + 1) as u16)) >= 6,
{
    lemma_balanced_flips(t);
    let f = |i: int| penalty(t, (i + 1) as u16);
    assert(sum(15, f) == f(0) + f(1) + f(2) + f(3) + f(4) + f(5) + f(6) + f(7) + f(8) + f(9)
        + f(10) + f(11) + f(12) + f(13) + f(14)) by {
        reveal_with_fuel(sum, 16);
    }
}

/// What the penalty says of a balanced function.
pub proof fn lemma_penalty(t: u16, d: u16)
    requires
        ones(t) == 8,
        0 < d < 16,
    ensures
        64 * penalty(t, d) <= (16 - 2 * flips(t, d)) * (16 - 2 * flips(t, d)),
{
    lemma_flips_of_balanced(t, d);
    let c = 16 - 2 * flips(t, d);
    assert(c == 16 || c == 8 || c == 0 || c == -8 || c == -16);
    assert((c == 16 || c == -16) ==> c * c == 256) by (nonlinear_arith);
    assert((c == 8 || c == -8) ==> c * c == 64) by (nonlinear_arith);
    assert(c == 0 ==> c * c == 0) by (nonlinear_arith);
}

/// The sum of 16 terms, written out.
proof fn lemma_sum_of_16(f: spec_fn(int) -> int)
    ensures
        sum(16, f) == f(0) + f(1) + f(2) + f(3) + f(4) + f(5) + f(6) + f(7) + f(8) + f(9) + f(10)
            + f(11) + f(12) + f(13) + f(14) + f(15),
{
    reveal_with_fuel(sum, 17);
}

/// The sums over all inputs are those of the table.
pub proof fn lemma_table_sums(t: u16, d: u16, a: u16)
    ensures
        sum(16, |x: int| bit(t, x as u16) as int) == ones(t),
        sum(16, |x: int| (bit(t, x as u16) ^ bit(t, (x as u16) ^ d)) as int) == flips(t, d),
        sum(16, |x: int| (bit(t, x as u16) ^ parity((x as u16) & a)) as int) == distance(t, a),
{
    lemma_sum_of_16(|x: int| bit(t, x as u16) as int);
    lemma_sum_of_16(|x: int| (bit(t, x as u16) ^ bit(t, (x as u16) ^ d)) as int);
    lemma_sum_of_16(|x: int| (bit(t, x as u16) ^ parity((x as u16) & a)) as int);
}

/// Half of the masks take the parity of a nonzero nibble to one, and half of the
/// nibbles have it under a nonzero mask.
pub proof fn lemma_half_odd(v: u16)
    requires
        0 < v < 16,
    ensures
        sum(16, |m: int| parity(v & (m as u16)) as int) == 8,
        sum(16, |m: int| parity((m as u16) & v) as int) == 8,
{
    lemma_half_of_the_masks(v);
    lemma_sum_of_16(|m: int| parity((m as u16) & v) as int);
    let f = |m: int| parity(v & (m as u16)) as int;
    let g = |m: int| parity((m as u16) & v) as int;
    assert forall|m: int| 0 <= m < 16 implies #[trigger] f(m) == g(m) by {
        let k = m as u16;
        assert(v & k == k & v) by (bit_vector);
    }
    lemma_sum_same(16, f, g);
}

/// The parity of a nibble's weight.
pub proof fn lemma_weight_parity(v: u8)
    requires
        v < 16,
    ensures
        weight(v as nat) % 2 == parity(v as u16),
        parity(v as u16) <= 1,
{
    let w = v as u16;
    reveal_with_fuel(weight, 6);
    assert(parity(w) == (w % 2 + (w / 2) % 2 + (w / 4) % 2 + (w / 8) % 2) % 2) by (bit_vector)
        requires
            w < 16,
    ;
}

/// Parities are bits, and the parity of a sum is the sum of the parities.
pub proof fn lemma_parity_sum(u: u16, v: u16, m: u16)
    by (bit_vector)
    ensures
        parity(u & m) <= 1,
        parity(v & m) <= 1,
        parity((u ^ v) & m) == parity(u & m) ^ parity(v & m),
        parity(u & m) == parity(v & m) ==> parity(u & m) ^ parity(v & m) == 0,
        parity(u & m) != parity(v & m) ==> parity(u & m) ^ parity(v & m) == 1,
{
}

} // verus!
