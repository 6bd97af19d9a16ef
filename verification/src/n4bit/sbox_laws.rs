//! What the tables of a permutation S-box have in common.

use vstd::prelude::*;

use crate::n4bit::counting::{
    count, indicator, lemma_count_bound, lemma_count_complement, lemma_count_is_sum,
    lemma_count_none,
    lemma_count_paired, lemma_count_permuted, lemma_count_same, lemma_count_without,
    lemma_sum_at_least, lemma_sum_at_most, lemma_sum_first, lemma_sum_plus, lemma_sum_same,
    lemma_sum_square, lemma_sum_swap, lemma_sum_times, sum,
};
use crate::n4bit::cryptanalysis::{
    ddt_entry, diffs_are_nibbles, is_nonlinearity, is_uniformity, lat_deviation, lat_entry,
    law_ddt_first_row, masks_agree, output_diff,
};
use crate::n4bit::tables::{
    bit, close, distance, flips, lemma_balanced_close, lemma_even_distance, lemma_half_odd,
    lemma_parity_sum, lemma_penalties, lemma_penalty, lemma_table, lemma_table_sums,
    lemma_weight_parity, ones, parity, penalty,
};
use crate::n4bit::{law_sbox_inverse, SBOX, SBOX_INV};

verus! {

/// Whether the S-box takes the 16 nibbles one to one to nibbles.
pub open spec fn is_permutation(sbox: Seq<u8>) -> bool {
    &&& forall|x: int| 0 <= x < 16 ==> #[trigger] sbox[x] < 16
    &&& forall|x: int, y: int|
        0 <= x < 16 && 0 <= y < 16 && x != y ==> #[trigger] sbox[x] != #[trigger] sbox[y]
}

/// Whether `inverse` undoes the S-box.
pub open spec fn is_inverse(sbox: Seq<u8>, inverse: Seq<u8>) -> bool {
    forall|x: int| 0 <= x < 16 ==> inverse[#[trigger] sbox[x] as int] == x
}

/// The hash's S-box is a permutation, and its inverse undoes it.
pub proof fn law_sbox_is_permutation()
    ensures
        is_permutation(SBOX@),
        is_inverse(SBOX@, SBOX_INV@),
{
    assert forall|x: int| 0 <= x < 16 implies #[trigger] SBOX@[x] < 16 && SBOX_INV@[SBOX@[x] as int]
        == x by {
        law_sbox_inverse(x as u8);
    }
}

/// What adding a nibble to a nibble is: it undoes itself.
proof fn lemma_xor(a: u8, b: u8, c: u8)
    ensures
        a < 16 && b < 16 ==> a ^ b < 16,
        (a ^ b) ^ b == a,
        a ^ b == b ^ a,
        a ^ a == 0,
        b != 0 ==> a ^ b != a,
        a ^ b == c <==> a ^ c == b,
        a ^ b == 0 <==> a == b,
{
    assert(a < 16 && b < 16 ==> a ^ b < 16) by (bit_vector);
    assert((a ^ b) ^ b == a) by (bit_vector);
    assert(a ^ b == b ^ a) by (bit_vector);
    assert(a ^ a == 0) by (bit_vector);
    assert(b != 0 ==> a ^ b != a) by (bit_vector);
    assert(a ^ b == c <==> a ^ c == b) by (bit_vector);
    assert(a ^ b == 0 <==> a == b) by (bit_vector);
}

/// The output differences of a permutation are nibbles.
proof fn lemma_permutation_diffs(sbox: Seq<u8>)
    requires
        is_permutation(sbox),
    ensures
        diffs_are_nibbles(sbox),
{
    assert forall|x: int, y: int| 0 <= x < 16 && 0 <= y < 16 implies #[trigger] sbox[x]
        ^ #[trigger] sbox[y] < 16 by {
        lemma_xor(sbox[x], sbox[y], 0);
    }
}

/// Every entry of the DDT is even: with `x`, `x ⊕ Δx` counts too.
pub proof fn law_ddt_even(sbox: Seq<u8>, dx: int, dy: int)
    requires
        0 <= dx < 16,
        0 <= dy < 16,
    ensures
        ddt_entry(sbox, dx, dy) % 2 == 0,
{
    if dx == 0 {
        law_ddt_first_row(sbox, dy);
    } else {
        let p = |x: int| output_diff(sbox, x, dx) == dy;
        let g = |x: int| ((x as u8) ^ (dx as u8)) as int;
        assert forall|x: int| 0 <= x < 16 && #[trigger] p(x) implies 0 <= g(x) < 16 && g(x) != x
            && g(g(x)) == x && p(g(x)) by {
            lemma_xor(x as u8, dx as u8, 0);
            lemma_xor(sbox[x], sbox[g(x)], 0);
        }
        lemma_count_paired(16, p, g);
    }
}

/// The DDT of the inverse of a permutation is the transpose.
pub proof fn law_ddt_transpose(sbox: Seq<u8>, inverse: Seq<u8>, dx: int, dy: int)
    requires
        is_permutation(sbox),
        is_inverse(sbox, inverse),
        0 <= dx < 16,
        0 <= dy < 16,
    ensures
        ddt_entry(inverse, dy, dx) == ddt_entry(sbox, dx, dy),
{
    let g = |x: int| sbox[x] as int;
    let p = |y: int| output_diff(inverse, y, dy) == dx;
    let q = |x: int| output_diff(sbox, x, dx) == dy;
    assert forall|x: int| 0 <= x < 16 implies #[trigger] q(x) == p(g(x)) by {
        lemma_transposed(sbox, inverse, x, dx, dy);
    }
    lemma_count_permuted(16, p, g);
    lemma_count_same(16, q, |x: int| p(g(x)));
}

proof fn lemma_transposed(sbox: Seq<u8>, inverse: Seq<u8>, x: int, dx: int, dy: int)
    requires
        is_permutation(sbox),
        is_inverse(sbox, inverse),
        0 <= x < 16,
        0 <= dx < 16,
        0 <= dy < 16,
    ensures
        (output_diff(sbox, x, dx) == dy) == (output_diff(inverse, sbox[x] as int, dy) == dx),
{
    let (a, b) = (x as u8, dx as u8);
    let (v, w) = (sbox[x], sbox[(a ^ b) as int]);
    let e = dy as u8;
    lemma_xor(a, b, 0);
    lemma_xor(v, w, e);
    lemma_xor(v, e, w);
    assert(inverse[v as int] == a);
    assert(inverse[w as int] == a ^ b);
    if v ^ w == e {
        assert(inverse[(v ^ e) as int] == a ^ b);
        lemma_xor(a, a ^ b, b);
    } else {
        lemma_onto(sbox, v ^ e);
        let z = choose|z: int| 0 <= z < 16 && #[trigger] sbox[z] == v ^ e;
        assert(inverse[(v ^ e) as int] == z);
        lemma_xor(a, z as u8, b);
    }
}

/// A permutation reaches every nibble.
proof fn lemma_onto(sbox: Seq<u8>, y: u8)
    requires
        is_permutation(sbox),
        y < 16,
    ensures
        exists|x: int| 0 <= x < 16 && #[trigger] sbox[x] == y,
{
    let g = |x: int| sbox[x] as int;
    let p = |z: int| z == y;
    let pg = |x: int| p(g(x));
    lemma_count_permuted(16, p, g);
    lemma_count_without(16, p, y as int);
    if forall|x: int| 0 <= x < 16 ==> #[trigger] sbox[x] != y {
        assert forall|x: int| 0 <= x < 16 implies !#[trigger] pg(x) by {
            assert(sbox[x] != y);
        }
        lemma_count_none(16, pg);
    }
}

/// The sum of the first `k` entries of column `dy` of the DDT.
pub open spec fn ddt_column_sum(sbox: Seq<u8>, dy: int, k: nat) -> nat
    decreases k,
{
    if k == 0 {
        0
    } else {
        ddt_column_sum(sbox, dy, (k - 1) as nat) + ddt_entry(sbox, k - 1, dy)
    }
}

proof fn lemma_column_is_sum(sbox: Seq<u8>, dy: int, k: nat)
    ensures
        ddt_column_sum(sbox, dy, k) == sum(k, |dx: int| ddt_entry(sbox, dx, dy) as int),
    decreases k,
{
    if k > 0 {
        lemma_column_is_sum(sbox, dy, (k - 1) as nat);
    }
}

/// At each input, exactly one input difference gives a given output difference.
proof fn lemma_one_difference(sbox: Seq<u8>, x: int, dy: int)
    requires
        is_permutation(sbox),
        0 <= x < 16,
        0 <= dy < 16,
    ensures
        count(16, |dx: int| output_diff(sbox, x, dx) == dy) == 1,
{
    let (a, v, e) = (x as u8, sbox[x], dy as u8);
    lemma_xor(v, e, 0);
    let g = |dx: int| sbox[(a ^ (dx as u8)) as int] as int;
    let p = |w: int| w == v ^ e;
    assert forall|i: int| 0 <= i < 16 implies 0 <= #[trigger] g(i) < 16 by {
        lemma_xor(a, i as u8, 0);
    }
    assert forall|i: int, j: int| 0 <= i < 16 && 0 <= j < 16 && i != j implies #[trigger] g(i)
        != #[trigger] g(j) by {
        lemma_xor(a, i as u8, 0);
        lemma_xor(a, j as u8, a ^ (i as u8));
        lemma_xor(a, i as u8, a ^ (i as u8));
    }
    lemma_count_permuted(16, p, g);
    lemma_count_without(16, p, (v ^ e) as int);
    lemma_count_none(16, |w: int| p(w) && w != (v ^ e) as int);
    let q = |dx: int| output_diff(sbox, x, dx) == dy;
    assert forall|dx: int| 0 <= dx < 16 implies #[trigger] q(dx) == p(g(dx)) by {
        lemma_xor(v, sbox[(a ^ (dx as u8)) as int], e);
    }
    lemma_count_same(16, q, |dx: int| p(g(dx)));
}

/// Every column of the DDT of a permutation counts each of the 16 inputs once.
pub proof fn law_ddt_column_sum(sbox: Seq<u8>, dy: int)
    requires
        is_permutation(sbox),
        0 <= dy < 16,
    ensures
        ddt_column_sum(sbox, dy, 16) == 16,
{
    let f = |dx: int, x: int| indicator(output_diff(sbox, x, dx) == dy);
    let entries = |dx: int| ddt_entry(sbox, dx, dy) as int;
    let rows = |dx: int| sum(16, |x: int| f(dx, x));
    let columns = |x: int| sum(16, |dx: int| f(dx, x));
    assert forall|dx: int| 0 <= dx < 16 implies #[trigger] entries(dx) == rows(dx) by {
        let p = |x: int| output_diff(sbox, x, dx) == dy;
        lemma_count_is_sum(16, p);
        lemma_sum_same(16, |x: int| f(dx, x), |x: int| indicator(p(x)));
    }
    assert forall|x: int| 0 <= x < 16 implies #[trigger] columns(x) == 1 by {
        let p = |dx: int| output_diff(sbox, x, dx) == dy;
        lemma_one_difference(sbox, x, dy);
        lemma_count_is_sum(16, p);
        lemma_sum_same(16, |dx: int| f(dx, x), |dx: int| indicator(p(dx)));
    }
    lemma_column_is_sum(sbox, dy, 16);
    lemma_sum_same(16, entries, rows);
    lemma_sum_swap(16, 16, f);
    lemma_sum_at_most(16, columns, 1);
    lemma_sum_at_least(16, columns, 1);
}

// ----- components -----

/// The component of mask `b` at input `x`: the parity of the output under the
/// mask.
spec fn component(sbox: Seq<u8>, b: int, x: int) -> u16 {
    parity((sbox[x] as u16) & (b as u16))
}

/// The table of a component; a nonzero mask gives a balanced one.
proof fn lemma_component_table(sbox: Seq<u8>, b: int) -> (t: u16)
    requires
        is_permutation(sbox),
        0 <= b < 16,
    ensures
        forall|x: int| 0 <= x < 16 ==> bit(t, x as u16) == #[trigger] component(sbox, b, x),
        ones(t) == if b == 0 {
            0int
        } else {
            8int
        },
{
    let m = b as u16;
    let f = |x: int| component(sbox, b, x);
    assert forall|x: int| 0 <= x < 16 implies #[trigger] f(x) <= 1 by {
        lemma_parity_sum(sbox[x] as u16, 0, m);
    }
    let t = lemma_table(f);
    let bits = |x: int| bit(t, x as u16) as int;
    assert forall|x: int| 0 <= x < 16 implies bit(t, x as u16) == #[trigger] component(
        sbox,
        b,
        x,
    ) by {
        assert(f(x) == component(sbox, b, x));
    }
    lemma_table_sums(t, 0, 0);
    if b == 0 {
        assert forall|x: int| 0 <= x < 16 implies #[trigger] bits(x) == 0 by {
            let v = sbox[x] as u16;
            assert(f(x) == 0) by {
                assert(parity(v & 0u16) == 0) by (bit_vector);
            }
        }
        lemma_sum_at_most(16, bits, 0);
        lemma_sum_at_least(16, bits, 0);
    } else {
        let g = |x: int| sbox[x] as int;
        let odd = |y: int| parity((y as u16) & m) == 1;
        let values = |y: int| parity((y as u16) & m) as int;
        let ones_of = |y: int| indicator(odd(y));
        let odd_at = |x: int| odd(g(x));
        let ones_at = |x: int| indicator(odd_at(x));
        lemma_half_odd(m);
        assert forall|y: int| 0 <= y < 16 implies #[trigger] values(y) == ones_of(y) by {
            lemma_parity_sum(y as u16, 0, m);
        }
        lemma_sum_same(16, values, ones_of);
        lemma_count_is_sum(16, odd);
        lemma_count_permuted(16, odd, g);
        lemma_count_is_sum(16, odd_at);
        assert forall|x: int| 0 <= x < 16 implies #[trigger] bits(x) == ones_at(x) by {
            assert(f(x) <= 1);
        }
        lemma_sum_same(16, bits, ones_at);
    }
    t
}

// ----- nonlinearity -----

/// A LAT entry of a permutation is 16 less the distance of the component's table
/// from the linear function.
proof fn lemma_lat_entry(sbox: Seq<u8>, t: u16, alpha: int, beta: int)
    requires
        is_permutation(sbox),
        0 <= alpha < 16,
        0 <= beta < 16,
        forall|x: int| 0 <= x < 16 ==> bit(t, x as u16) == #[trigger] component(sbox, beta, x),
    ensures
        lat_entry(sbox, alpha, beta) == 16 - distance(t, alpha as u16),
{
    let a = alpha as u16;
    let agree = |x: int| masks_agree(sbox, x, alpha, beta);
    let differ = |x: int| !agree(x);
    let terms = |x: int| (bit(t, x as u16) ^ parity((x as u16) & a)) as int;
    let ones_of = |x: int| indicator(differ(x));
    assert forall|x: int| 0 <= x < 16 implies #[trigger] terms(x) == ones_of(x) by {
        lemma_masks(sbox, x, alpha, beta);
        assert(bit(t, x as u16) == component(sbox, beta, x));
        lemma_bits_differ(bit(t, x as u16), parity((x as u16) & a));
    }
    lemma_table_sums(t, 0, a);
    lemma_sum_same(16, terms, ones_of);
    lemma_count_is_sum(16, differ);
    lemma_count_complement(16, agree);
}

proof fn lemma_bits_differ(a: u16, b: u16)
    by (bit_vector)
    requires
        a <= 1,
        b <= 1,
    ensures
        a == b ==> a ^ b == 0,
        a != b ==> a ^ b == 1,
{
}

proof fn lemma_masks(sbox: Seq<u8>, x: int, alpha: int, beta: int)
    requires
        is_permutation(sbox),
        0 <= x < 16,
        0 <= alpha < 16,
        0 <= beta < 16,
    ensures
        masks_agree(sbox, x, alpha, beta) == (parity((x as u16) & (alpha as u16)) == component(
            sbox,
            beta,
            x,
        )),
        parity((x as u16) & (alpha as u16)) <= 1,
        component(sbox, beta, x) <= 1,
{
    let (u, a) = (x as u8, alpha as u8);
    let (v, b) = (sbox[x], beta as u8);
    assert(u < 16 && a < 16 ==> u & a < 16) by (bit_vector);
    assert(v < 16 && b < 16 ==> v & b < 16) by (bit_vector);
    lemma_weight_parity(u & a);
    lemma_weight_parity(v & b);
    assert((u & a) as u16 == (u as u16) & (a as u16)) by (bit_vector);
    assert((v & b) as u16 == (v as u16) & (b as u16)) by (bit_vector);
}

/// The nonlinearity of a permutation is 0, 2 or 4.
pub proof fn law_nonlinearity(sbox: Seq<u8>, nl: int)
    requires
        is_permutation(sbox),
        is_nonlinearity(sbox, nl),
    ensures
        nl == 0 || nl == 2 || nl == 4,
{
    let (alpha, beta) = choose|alpha: int, beta: int|
        1 <= alpha < 16 && 0 <= beta < 16 && #[trigger] lat_deviation(sbox, alpha, beta) == 8 - nl;
    let t = lemma_component_table(sbox, beta);
    lemma_lat_entry(sbox, t, alpha, beta);
    lemma_even_distance(t, alpha as u16);
    lemma_close_mask(sbox);
    lemma_count_bound_of_lat(sbox, alpha, beta);
}

proof fn lemma_count_bound_of_lat(sbox: Seq<u8>, alpha: int, beta: int)
    ensures
        lat_entry(sbox, alpha, beta) <= 16,
{
    lemma_count_bound(16, |x: int| masks_agree(sbox, x, alpha, beta));
}

/// Some LAT entry of a permutation is at least 4 from 8.
proof fn lemma_close_mask(sbox: Seq<u8>)
    requires
        is_permutation(sbox),
    ensures
        exists|alpha: int, beta: int|
            1 <= alpha < 16 && 0 <= beta < 16 && #[trigger] lat_deviation(sbox, alpha, beta) >= 4,
{
    let t = lemma_component_table(sbox, 1);
    lemma_balanced_close(t);
    let a: u16 = choose|a: u16| 1 <= a < 16 && #[trigger] close(t, a);
    lemma_lat_entry(sbox, t, a as int, 1);
    assert(lat_deviation(sbox, a as int, 1) >= 4);
}

// ----- differential uniformity -----

/// One, with the sign of the parity of `u` under the mask `b`.
spec fn sign(u: u8, b: int) -> int {
    1 - 2 * parity((u as u16) & (b as u16))
}

/// How much the component of mask `b` keeps its value, rather than changes it,
/// when `d` is added to the input.
spec fn correlation(sbox: Seq<u8>, b: int, d: int) -> int {
    sum(16, |x: int| sign(output_diff(sbox, x, d), b))
}

proof fn lemma_sign_product(u: u8, v: u8, b: int)
    ensures
        sign(u, b) * sign(v, b) == sign(u ^ v, b),
        sign(u, b) == 1 || sign(u, b) == -1,
{
    let (p, q, m) = (u as u16, v as u16, b as u16);
    lemma_parity_sum(p, q, m);
    assert((u ^ v) as u16 == (u as u16) ^ (v as u16)) by (bit_vector);
}

/// The signs of a nonzero nibble cancel over all masks.
proof fn lemma_signs_cancel(u: u8)
    requires
        u < 16,
    ensures
        sum(16, |b: int| sign(u, b)) == if u == 0 {
            16int
        } else {
            0int
        },
{
    let v = u as u16;
    let signs = |b: int| sign(u, b);
    let odd = |b: int| parity(v & (b as u16)) as int;
    let minus = |b: int| -2 * odd(b);
    let one = |b: int| 1int;
    lemma_sum_times(16, odd, -2);
    lemma_sum_plus(16, one, minus);
    lemma_sum_at_most(16, one, 1);
    lemma_sum_at_least(16, one, 1);
    lemma_sum_same(16, signs, |b: int| one(b) + minus(b));
    if u == 0 {
        assert forall|b: int| 0 <= b < 16 implies #[trigger] odd(b) == 0 by {
            let m = b as u16;
            assert(parity(0u16 & m) == 0) by (bit_vector);
        }
        lemma_sum_at_most(16, odd, 0);
        lemma_sum_at_least(16, odd, 0);
    } else {
        lemma_half_odd(v);
    }
}

/// The sign of two inputs' output differences together.
spec fn pair_sign(sbox: Seq<u8>, d: int, b: int, x: int, y: int) -> int {
    sign(output_diff(sbox, x, d) ^ output_diff(sbox, y, d), b)
}

/// Those signs over all second inputs.
spec fn pair_signs(sbox: Seq<u8>, d: int, b: int, x: int) -> int {
    sum(16, |y: int| pair_sign(sbox, d, b, x, y))
}

spec fn square(sbox: Seq<u8>, b: int, d: int) -> int {
    correlation(sbox, b, d) * correlation(sbox, b, d)
}

/// The square of one correlation, term by term.
proof fn lemma_one_square(sbox: Seq<u8>, b: int, d: int)
    ensures
        square(sbox, b, d) == sum(16, |x: int| pair_signs(sbox, d, b, x)),
{
    let f = |x: int| sign(output_diff(sbox, x, d), b);
    let rows = |x: int| sum(16, |y: int| f(x) * f(y));
    let signs = |x: int| pair_signs(sbox, d, b, x);
    lemma_sum_square(16, f);
    assert forall|x: int| 0 <= x < 16 implies #[trigger] rows(x) == signs(x) by {
        let left = |y: int| f(x) * f(y);
        let right = |y: int| pair_sign(sbox, d, b, x, y);
        assert forall|y: int| 0 <= y < 16 implies #[trigger] left(y) == right(y) by {
            lemma_sign_product(output_diff(sbox, x, d), output_diff(sbox, y, d), b);
        }
        lemma_sum_same(16, left, right);
    }
    lemma_sum_same(16, rows, signs);
}

/// Over all masks, the inputs with another output difference than `x` cancel.
proof fn lemma_pairs_of(sbox: Seq<u8>, d: int, x: int)
    requires
        is_permutation(sbox),
        0 <= d < 16,
        0 <= x < 16,
    ensures
        sum(16, |b: int| pair_signs(sbox, d, b, x)) == 16 * ddt_entry(
            sbox,
            d,
            output_diff(sbox, x, d) as int,
        ),
{
    let u = output_diff(sbox, x, d);
    let same = |y: int| output_diff(sbox, y, d) == u as int;
    let ones_of = |y: int| indicator(same(y));
    let g = |b: int, y: int| pair_sign(sbox, d, b, x, y);
    let by_mask = |b: int| sum(16, |y: int| g(b, y));
    let by_input = |y: int| sum(16, |b: int| g(b, y));
    let scaled = |y: int| 16 * ones_of(y);
    let signs = |b: int| pair_signs(sbox, d, b, x);
    assert forall|b: int| 0 <= b < 16 implies #[trigger] signs(b) == by_mask(b) by {
        lemma_sum_same(16, |y: int| pair_sign(sbox, d, b, x, y), |y: int| g(b, y));
    }
    lemma_sum_same(16, signs, by_mask);
    lemma_sum_swap(16, 16, g);
    assert forall|y: int| 0 <= y < 16 implies #[trigger] by_input(y) == scaled(y) by {
        let v = output_diff(sbox, y, d);
        lemma_xor(x as u8, d as u8, 0);
        lemma_xor(y as u8, d as u8, 0);
        lemma_permutation_diffs(sbox);
        lemma_xor(u, v, 0);
        lemma_signs_cancel(u ^ v);
        lemma_sum_same(16, |b: int| g(b, y), |b: int| sign(u ^ v, b));
    }
    lemma_sum_same(16, by_input, scaled);
    lemma_sum_times(16, ones_of, 16);
    lemma_count_is_sum(16, same);
}

/// The squares of the correlations at `d`, over all masks, count the pairs of
/// inputs with the same output difference: each pair for 16.
proof fn lemma_square_total(sbox: Seq<u8>, d: int)
    requires
        is_permutation(sbox),
        0 <= d < 16,
    ensures
        sum(16, |b: int| square(sbox, b, d)) == sum(
            16,
            |x: int| 16int * ddt_entry(sbox, d, output_diff(sbox, x, d) as int),
        ),
{
    let h = |b: int, x: int| pair_signs(sbox, d, b, x);
    let squares = |b: int| square(sbox, b, d);
    let by_mask = |b: int| sum(16, |x: int| h(b, x));
    let by_input = |x: int| sum(16, |b: int| h(b, x));
    let totals = |x: int| 16int * ddt_entry(sbox, d, output_diff(sbox, x, d) as int);
    assert forall|b: int| 0 <= b < 16 implies #[trigger] squares(b) == by_mask(b) by {
        lemma_one_square(sbox, b, d);
        lemma_sum_same(16, |x: int| pair_signs(sbox, d, b, x), |x: int| h(b, x));
    }
    lemma_sum_same(16, squares, by_mask);
    lemma_sum_swap(16, 16, h);
    assert forall|x: int| 0 <= x < 16 implies #[trigger] by_input(x) == totals(x) by {
        lemma_pairs_of(sbox, d, x);
        lemma_sum_same(16, |b: int| pair_signs(sbox, d, b, x), |b: int| h(b, x));
    }
    lemma_sum_same(16, by_input, totals);
}

/// The correlation of a nonzero component is 16 less twice the number of inputs
/// at which its table changes.
proof fn lemma_correlation_of_table(sbox: Seq<u8>, t: u16, b: int, d: int)
    requires
        is_permutation(sbox),
        0 <= b < 16,
        0 <= d < 16,
        forall|x: int| 0 <= x < 16 ==> bit(t, x as u16) == #[trigger] component(sbox, b, x),
    ensures
        correlation(sbox, b, d) == 16 - 2 * flips(t, d as u16),
{
    let k = d as u16;
    let changes = |x: int| (bit(t, x as u16) ^ bit(t, (x as u16) ^ k)) as int;
    let minus = |x: int| -2 * changes(x);
    let one = |x: int| 1int;
    let signs = |x: int| sign(output_diff(sbox, x, d), b);
    assert forall|x: int| 0 <= x < 16 implies #[trigger] signs(x) == one(x) + minus(x) by {
        let (a, e) = (x as u8, d as u8);
        let z = (a ^ e) as int;
        lemma_xor(a, e, 0);
        let (v, w) = (sbox[x], sbox[z]);
        assert((a ^ e) as u16 == (a as u16) ^ (e as u16)) by (bit_vector);
        assert((v ^ w) as u16 == (v as u16) ^ (w as u16)) by (bit_vector);
        lemma_parity_sum(v as u16, w as u16, b as u16);
        assert(bit(t, x as u16) == component(sbox, b, x));
        assert(bit(t, z as u16) == component(sbox, b, z));
    }
    lemma_table_sums(t, k, 0);
    lemma_sum_times(16, changes, -2);
    lemma_sum_plus(16, one, minus);
    lemma_sum_at_most(16, one, 1);
    lemma_sum_at_least(16, one, 1);
    lemma_sum_same(16, signs, |x: int| one(x) + minus(x));
}

/// The squares of a nonzero component's correlations are large in sum.
proof fn lemma_component_squares(sbox: Seq<u8>, b: int)
    requires
        is_permutation(sbox),
        1 <= b < 16,
    ensures
        sum(15, |i: int| square(sbox, b, i + 1)) >= 384,
{
    let t = lemma_component_table(sbox, b);
    let penalties = |i: int| penalty(t, (i + 1) as u16);
    let scaled = |i: int| 64 * penalties(i);
    let squares = |i: int| square(sbox, b, i + 1);
    let rest = |i: int| squares(i) - scaled(i);
    assert forall|i: int| 0 <= i < 15 implies 0 <= #[trigger] rest(i) by {
        lemma_correlation_of_table(sbox, t, b, i + 1);
        lemma_penalty(t, (i + 1) as u16);
    }
    lemma_sum_at_least(15, rest, 0);
    lemma_sum_plus(15, scaled, rest);
    lemma_sum_same(15, squares, |i: int| scaled(i) + rest(i));
    lemma_sum_times(15, penalties, 64);
    lemma_penalties(t);
}

/// If no entry in row `d` of the DDT is above 2, the squares of the correlations
/// at `d` are small in sum.
proof fn lemma_difference_squares(sbox: Seq<u8>, d: int)
    requires
        is_permutation(sbox),
        1 <= d < 16,
        forall|dy: int| 0 <= dy < 16 ==> #[trigger] ddt_entry(sbox, d, dy) <= 2,
    ensures
        sum(15, |i: int| square(sbox, i + 1, d)) <= 256,
{
    let squares = |b: int| square(sbox, b, d);
    let totals = |x: int| 16int * ddt_entry(sbox, d, output_diff(sbox, x, d) as int);
    lemma_permutation_diffs(sbox);
    assert forall|x: int| 0 <= x < 16 implies #[trigger] totals(x) <= 32 by {
        lemma_xor(x as u8, d as u8, 0);
        assert(output_diff(sbox, x, d) < 16);
    }
    lemma_square_total(sbox, d);
    lemma_sum_at_most(16, totals, 32);
    lemma_sum_first(15, squares);
    lemma_sum_same(15, |i: int| squares(i + 1), |i: int| square(sbox, i + 1, d));
    assert(correlation(sbox, 0, d) == 16) by {
        let signs = |x: int| sign(output_diff(sbox, x, d), 0);
        assert forall|x: int| 0 <= x < 16 implies #[trigger] signs(x) == 1 by {
            let u = output_diff(sbox, x, d) as u16;
            assert(parity(u & 0u16) == 0) by (bit_vector);
        }
        lemma_sum_at_most(16, signs, 1);
        lemma_sum_at_least(16, signs, 1);
    }
}

/// The differential uniformity of a permutation is even and 4 at least: no
/// permutation of the nibbles spreads every difference evenly over pairs.
pub proof fn law_uniformity(sbox: Seq<u8>, max: nat)
    requires
        is_permutation(sbox),
        is_uniformity(sbox, max),
    ensures
        4 <= max <= 16,
        max % 2 == 0,
{
    let (dx, dy) = choose|dx: int, dy: int|
        0 <= dx < 16 && 0 <= dy < 16 && (dx != 0 || dy != 0) && #[trigger] ddt_entry(sbox, dx, dy)
            == max;
    law_ddt_even(sbox, dx, dy);
    lemma_count_bound(16, |x: int| output_diff(sbox, x, dx) == dy);
    if max <= 2 {
        let f = |i: int, j: int| square(sbox, i + 1, j + 1);
        let by_mask = |i: int| sum(15, |j: int| f(i, j));
        let by_difference = |j: int| sum(15, |i: int| f(i, j));
        assert forall|i: int| 0 <= i < 15 implies 384 <= #[trigger] by_mask(i) by {
            lemma_component_squares(sbox, i + 1);
            lemma_sum_same(15, |j: int| f(i, j), |j: int| square(sbox, i + 1, j + 1));
        }
        assert forall|j: int| 0 <= j < 15 implies #[trigger] by_difference(j) <= 256 by {
            lemma_difference_squares(sbox, j + 1);
            lemma_sum_same(15, |i: int| f(i, j), |i: int| square(sbox, i + 1, j + 1));
        }
        lemma_sum_at_least(15, by_mask, 384);
        lemma_sum_at_most(15, by_difference, 256);
        lemma_sum_swap(15, 15, f);
    }
}

} // verus!
