//! Cryptanalysis of the n4bit hash: the S-box in isolation, and how fast a
//! difference spreads through the rounds.

use vstd::prelude::*;

use crate::n4bit::counting::{
    count, lemma_count_all, lemma_count_bound, lemma_count_none, lemma_count_same,
};
use crate::n4bit::{rounds_spec, spn_round, State, STATE_NIBBLES};

verus! {

// ----- weights -----

/// The number of ones in the binary form of `x`.
pub open spec fn weight(x: nat) -> nat
    decreases x,
{
    if x == 0 {
        0
    } else {
        x % 2 + weight(x / 2)
    }
}

/// The number of one bits of a byte.
pub fn hamming_weight(x: u8) -> (w: u32)
    ensures
        w == weight(x as nat),
        w <= 8,
{
    let mut left: u8 = x;
    let mut w: u32 = 0;
    proof {
        vstd::arithmetic::power2::lemma2_to64();
        lemma_weight_bound(x as nat, 8);
    }
    while left > 0
        invariant
            w + weight(left as nat) == weight(x as nat),
            weight(x as nat) <= 8,
        decreases left,
    {
        w = w + (left % 2) as u32;
        left = left / 2;
    }
    w
}

proof fn lemma_weight_bound(x: nat, k: nat)
    requires
        x < vstd::arithmetic::power2::pow2(k),
    ensures
        weight(x) <= k,
    decreases k,
{
    vstd::arithmetic::power2::lemma2_to64();
    if k > 0 && x > 0 {
        vstd::arithmetic::power2::lemma_pow2_adds(1, (k - 1) as nat);
        lemma_weight_bound(x / 2, (k - 1) as nat);
    }
}

proof fn lemma_xor_small(x: u8, y: u8)
    requires
        x < 16,
        y < 16,
    ensures
        x ^ y < 16,
{
    assert(x < 16 && y < 16 ==> x ^ y < 16) by (bit_vector);
}

// ----- the S-box -----

/// The output difference of the S-box at input `x` for the input difference
/// `dx`.
pub open spec fn output_diff(sbox: Seq<u8>, x: int, dx: int) -> u8 {
    sbox[x] ^ sbox[((x as u8) ^ (dx as u8)) as int]
}

/// Whether every output difference is a nibble.
pub open spec fn diffs_are_nibbles(sbox: Seq<u8>) -> bool {
    forall|x: int, y: int| 0 <= x < 16 && 0 <= y < 16 ==> #[trigger] sbox[x] ^ #[trigger] sbox[y] < 16
}

/// Entry `(dx, dy)` of the differential distribution table: how many inputs
/// have output difference `dy` for the input difference `dx`.
pub open spec fn ddt_entry(sbox: Seq<u8>, dx: int, dy: int) -> nat {
    count(16, |x: int| output_diff(sbox, x, dx) == dy)
}

/// Compute the Differential Distribution Table (DDT) of a 4-bit S-box.
///
/// Entry (Δx, Δy) counts how many inputs x satisfy S(x) ⊕ S(x ⊕ Δx) = Δy.
pub fn ddt(sbox: &[u8; 16]) -> (table: [[u32; 16]; 16])
    requires
        diffs_are_nibbles(sbox@),
    ensures
        forall|dx: int, dy: int|
            0 <= dx < 16 && 0 <= dy < 16 ==> #[trigger] table@[dx]@[dy] == ddt_entry(sbox@, dx, dy),
{
    let mut table: [[u32; 16]; 16] = [[0u32; 16]; 16];
    for dx in 0..16usize
        invariant
            diffs_are_nibbles(sbox@),
            forall|i: int, dy: int|
                0 <= i < dx && 0 <= dy < 16 ==> #[trigger] table@[i]@[dy] == ddt_entry(
                    sbox@,
                    i,
                    dy,
                ),
    {
        let mut row: [u32; 16] = [0u32; 16];
        for x in 0..16usize
            invariant
                dx < 16,
                diffs_are_nibbles(sbox@),
                forall|dy: int|
                    0 <= dy < 16 ==> #[trigger] row@[dy] == count(
                        x as nat,
                        |i: int| output_diff(sbox@, i, dx as int) == dy,
                    ) && row@[dy] <= x,
        {
            let other: u8 = (x as u8) ^ (dx as u8);
            proof {
                lemma_xor_small(x as u8, dx as u8);
            }
            let dy: u8 = sbox[x] ^ sbox[other as usize];
            assert(dy == output_diff(sbox@, x as int, dx as int));
            row[dy as usize] = row[dy as usize] + 1;
        }
        table[dx] = row;
    }
    table
}

/// Whether `max` is the largest DDT entry apart from that of (0, 0).
pub open spec fn is_uniformity(sbox: Seq<u8>, max: nat) -> bool {
    &&& forall|dx: int, dy: int|
        0 <= dx < 16 && 0 <= dy < 16 && (dx != 0 || dy != 0) ==> #[trigger] ddt_entry(sbox, dx, dy)
            <= max
    &&& exists|dx: int, dy: int|
        0 <= dx < 16 && 0 <= dy < 16 && (dx != 0 || dy != 0) && #[trigger] ddt_entry(sbox, dx, dy)
            == max
}

/// Differential uniformity: the maximum DDT entry excluding (0, 0).
pub fn differential_uniformity(sbox: &[u8; 16]) -> (max: u32)
    requires
        diffs_are_nibbles(sbox@),
    ensures
        is_uniformity(sbox@, max as nat),
{
    let table: [[u32; 16]; 16] = ddt(sbox);
    let mut max: u32 = table[0][1];
    let ghost mut at: (int, int) = (0, 1);
    for dx in 0..16usize
        invariant
            forall|i: int, j: int|
                0 <= i < 16 && 0 <= j < 16 ==> #[trigger] table@[i]@[j] == ddt_entry(sbox@, i, j),
            0 <= at.0 < 16 && 0 <= at.1 < 16 && (at.0 != 0 || at.1 != 0),
            ddt_entry(sbox@, at.0, at.1) == max,
            forall|i: int, j: int|
                0 <= i < dx && 0 <= j < 16 && (i != 0 || j != 0) ==> #[trigger] ddt_entry(
                    sbox@,
                    i,
                    j,
                ) <= max,
    {
        for dy in 0..16usize
            invariant
                dx < 16,
                forall|i: int, j: int|
                    0 <= i < 16 && 0 <= j < 16 ==> #[trigger] table@[i]@[j] == ddt_entry(
                        sbox@,
                        i,
                        j,
                    ),
                0 <= at.0 < 16 && 0 <= at.1 < 16 && (at.0 != 0 || at.1 != 0),
                ddt_entry(sbox@, at.0, at.1) == max,
                forall|i: int, j: int|
                    0 <= i < dx && 0 <= j < 16 && (i != 0 || j != 0) ==> #[trigger] ddt_entry(
                        sbox@,
                        i,
                        j,
                    ) <= max,
                forall|j: int|
                    0 <= j < dy && (dx != 0 || j != 0) ==> #[trigger] ddt_entry(
                        sbox@,
                        dx as int,
                        j,
                    ) <= max,
        {
            let entry: u32 = table[dx][dy];
            assert(table@[dx as int]@[dy as int] == ddt_entry(sbox@, dx as int, dy as int));
            if (dx != 0 || dy != 0) && entry > max {
                max = entry;
                proof {
                    at = (dx as int, dy as int);
                }
            }
        }
    }
    max
}

/// Whether the input mask `alpha` and the output mask `beta` agree in parity at
/// input `x`.
pub open spec fn masks_agree(sbox: Seq<u8>, x: int, alpha: int, beta: int) -> bool {
    weight(((x as u8) & (alpha as u8)) as nat) % 2 == weight((sbox[x] & (beta as u8)) as nat) % 2
}

/// Entry `(alpha, beta)` of the linear approximation table: how many inputs have
/// equal parities under the two masks.
pub open spec fn lat_entry(sbox: Seq<u8>, alpha: int, beta: int) -> nat {
    count(16, |x: int| masks_agree(sbox, x, alpha, beta))
}

/// Compute the Linear Approximation Table (LAT) of a 4-bit S-box.
///
/// Entry (α, β) counts how many inputs x satisfy (x · α) = (S(x) · β), where ·
/// is the parity of the bitwise AND. A count of 8 means no correlation.
pub fn lat(sbox: &[u8; 16]) -> (table: [[i32; 16]; 16])
    ensures
        forall|alpha: int, beta: int|
            0 <= alpha < 16 && 0 <= beta < 16 ==> #[trigger] table@[alpha]@[beta] == lat_entry(
                sbox@,
                alpha,
                beta,
            ),
{
    let mut table: [[i32; 16]; 16] = [[0i32; 16]; 16];
    for alpha in 0..16usize
        invariant
            forall|i: int, j: int|
                0 <= i < alpha && 0 <= j < 16 ==> #[trigger] table@[i]@[j] == lat_entry(
                    sbox@,
                    i,
                    j,
                ),
    {
        let mut row: [i32; 16] = [0i32; 16];
        for beta in 0..16usize
            invariant
                alpha < 16,
                forall|j: int|
                    0 <= j < beta ==> #[trigger] row@[j] == lat_entry(sbox@, alpha as int, j),
        {
            let mut agree: i32 = 0;
            for x in 0..16usize
                invariant
                    alpha < 16,
                    beta < 16,
                    agree <= x,
                    agree == count(
                        x as nat,
                        |i: int| masks_agree(sbox@, i, alpha as int, beta as int),
                    ),
            {
                let input_bit: u32 = hamming_weight((x as u8) & (alpha as u8)) % 2;
                let output_bit: u32 = hamming_weight(sbox[x] & (beta as u8)) % 2;
                if input_bit == output_bit {
                    agree = agree + 1;
                }
            }
            row[beta] = agree;
        }
        table[alpha] = row;
    }
    table
}

/// The distance of a LAT entry from 8.
pub open spec fn lat_deviation(sbox: Seq<u8>, alpha: int, beta: int) -> int {
    let d = lat_entry(sbox, alpha, beta) - 8;
    if d < 0 {
        -d
    } else {
        d
    }
}

/// Whether `8 - nl` is the largest distance of a LAT entry from 8, over nonzero
/// input masks.
pub open spec fn is_nonlinearity(sbox: Seq<u8>, nl: int) -> bool {
    &&& forall|alpha: int, beta: int|
        1 <= alpha < 16 && 0 <= beta < 16 ==> #[trigger] lat_deviation(sbox, alpha, beta) <= 8 - nl
    &&& exists|alpha: int, beta: int|
        1 <= alpha < 16 && 0 <= beta < 16 && #[trigger] lat_deviation(sbox, alpha, beta) == 8 - nl
}

/// Nonlinearity of the S-box: 8 less the largest deviation of a LAT entry from
/// 8, over nonzero input masks.
pub fn nonlinearity(sbox: &[u8; 16]) -> (nl: i32)
    ensures
        is_nonlinearity(sbox@, nl as int),
{
    let table: [[i32; 16]; 16] = lat(sbox);
    let mut max_dev: i32 = 0;
    let ghost mut at: (int, int) = (1, 0);
    for alpha in 1..16usize
        invariant
            forall|i: int, j: int|
                0 <= i < 16 && 0 <= j < 16 ==> #[trigger] table@[i]@[j] == lat_entry(sbox@, i, j),
            0 <= max_dev <= 8,
            1 <= at.0 < 16 && 0 <= at.1 < 16,
            alpha > 1 ==> lat_deviation(sbox@, at.0, at.1) == max_dev,
            forall|i: int, j: int|
                1 <= i < alpha && 0 <= j < 16 ==> #[trigger] lat_deviation(sbox@, i, j) <= max_dev,
    {
        for beta in 0..16usize
            invariant
                1 <= alpha < 16,
                forall|i: int, j: int|
                    0 <= i < 16 && 0 <= j < 16 ==> #[trigger] table@[i]@[j] == lat_entry(
                        sbox@,
                        i,
                        j,
                    ),
                0 <= max_dev <= 8,
                1 <= at.0 < 16 && 0 <= at.1 < 16,
                alpha > 1 || beta > 0 ==> lat_deviation(sbox@, at.0, at.1) == max_dev,
                forall|i: int, j: int|
                    1 <= i < alpha && 0 <= j < 16 ==> #[trigger] lat_deviation(sbox@, i, j)
                        <= max_dev,
                forall|j: int|
                    0 <= j < beta ==> #[trigger] lat_deviation(sbox@, alpha as int, j) <= max_dev,
        {
            let entry: i32 = table[alpha][beta];
            assert(table@[alpha as int]@[beta as int] == lat_entry(
                sbox@,
                alpha as int,
                beta as int,
            ));
            proof {
                lemma_count_bound(
                    16,
                    |x: int| masks_agree(sbox@, x, alpha as int, beta as int),
                );
            }
            let dev: i32 = if entry < 8 {
                8 - entry
            } else {
                entry - 8
            };
            assert(dev == lat_deviation(sbox@, alpha as int, beta as int));
            if dev > max_dev || (alpha == 1 && beta == 0) {
                max_dev = dev;
                proof {
                    at = (alpha as int, beta as int);
                }
            }
        }
    }
    8 - max_dev
}

/// Output bit `bit` of the S-box at input `x`.
pub open spec fn output_bit(sbox: Seq<u8>, bit: int, x: int) -> bool {
    (sbox[x] >> (bit as u8)) & 1 == 1
}

/// Whether the monomial of the input bits in `m` occurs in the algebraic normal
/// form of output bit `bit`: the output bit is one at an odd number of the
/// inputs that lie within `m`.
pub open spec fn has_monomial(sbox: Seq<u8>, bit: int, m: int) -> bool {
    count(16, |x: int| (x as u8) & (m as u8) == x && output_bit(sbox, bit, x)) % 2 == 1
}

/// Whether `d` is the degree of the normal form of output bit `bit`: that of its
/// largest monomial, 0 for no monomial.
pub open spec fn is_degree(sbox: Seq<u8>, bit: int, d: int) -> bool {
    &&& forall|m: int|
        0 <= m < 16 && #[trigger] has_monomial(sbox, bit, m) ==> weight(m as nat) <= d
    &&& d == 0 || exists|m: int|
        0 <= m < 16 && #[trigger] has_monomial(sbox, bit, m) && weight(m as nat) == d
}

/// Whether the monomial `m` occurs in the normal form of output bit `bit`.
fn monomial_occurs(sbox: &[u8; 16], bit: usize, m: usize) -> (occurs: bool)
    requires
        bit < 4,
        m < 16,
    ensures
        occurs == has_monomial(sbox@, bit as int, m as int),
{
    let mut odd: bool = false;
    for x in 0..16usize
        invariant
            bit < 4,
            m < 16,
            odd == (count(
                x as nat,
                |i: int| (i as u8) & (m as u8) == i && output_bit(sbox@, bit as int, i),
            ) % 2 == 1),
    {
        if (x as u8) & (m as u8) == x as u8 && (sbox[x] >> (bit as u8)) & 1 == 1 {
            odd = !odd;
        }
    }
    odd
}

/// The algebraic degree of each output bit of the S-box.
///
/// Each output bit is a Boolean function of 4 input bits; its algebraic normal
/// form is a polynomial over GF(2).
pub fn algebraic_degrees(sbox: &[u8; 16]) -> (degrees: [u32; 4])
    ensures
        forall|bit: int|
            0 <= bit < 4 ==> is_degree(sbox@, bit, #[trigger] degrees@[bit] as int),
{
    let mut degrees: [u32; 4] = [0u32; 4];
    for bit in 0..4usize
        invariant
            forall|b: int| 0 <= b < bit ==> is_degree(sbox@, b, #[trigger] degrees@[b] as int),
    {
        let mut max_deg: u32 = 0;
        for m in 0..16usize
            invariant
                bit < 4,
                forall|k: int|
                    0 <= k < m && #[trigger] has_monomial(sbox@, bit as int, k) ==> weight(
                        k as nat,
                    ) <= max_deg,
                max_deg == 0 || exists|k: int|
                    0 <= k < m && #[trigger] has_monomial(sbox@, bit as int, k) && weight(k as nat)
                        == max_deg,
        {
            if monomial_occurs(sbox, bit, m) {
                let deg: u32 = hamming_weight(m as u8);
                if deg > max_deg {
                    max_deg = deg;
                }
            }
        }
        degrees[bit] = max_deg;
    }
    degrees
}

/// The weights of an input difference and of the output difference it causes at
/// `x`, together.
pub open spec fn diff_weight(sbox: Seq<u8>, dx: int, x: int) -> nat {
    weight(dx as nat) + weight(output_diff(sbox, x, dx) as nat)
}

/// The differential branch number of the S-box: the least
/// `wt(Δx) + wt(S(x) ⊕ S(x ⊕ Δx))` over `Δx ≠ 0` and all `x`.
pub fn differential_branch_number(sbox: &[u8; 16]) -> (min: u32)
    ensures
        forall|dx: int, x: int|
            1 <= dx < 16 && 0 <= x < 16 ==> min <= #[trigger] diff_weight(sbox@, dx, x),
        exists|dx: int, x: int|
            1 <= dx < 16 && 0 <= x < 16 && #[trigger] diff_weight(sbox@, dx, x) == min,
{
    let mut min: u32 = 100;
    let ghost mut at: (int, int) = (1, 0);
    for dx in 1..16usize
        invariant
            1 <= at.0 < 16 && 0 <= at.1 < 16,
            dx == 1 ==> min == 100,
            dx > 1 ==> diff_weight(sbox@, at.0, at.1) == min,
            forall|i: int, x: int|
                1 <= i < dx && 0 <= x < 16 ==> min <= #[trigger] diff_weight(sbox@, i, x),
    {
        for x in 0..16usize
            invariant
                1 <= dx < 16,
                1 <= at.0 < 16 && 0 <= at.1 < 16,
                dx == 1 && x == 0 ==> min == 100,
                dx > 1 || x > 0 ==> diff_weight(sbox@, at.0, at.1) == min,
                forall|i: int, j: int|
                    1 <= i < dx && 0 <= j < 16 ==> min <= #[trigger] diff_weight(sbox@, i, j),
                forall|j: int| 0 <= j < x ==> min <= #[trigger] diff_weight(sbox@, dx as int, j),
        {
            let other: u8 = (x as u8) ^ (dx as u8);
            proof {
                lemma_xor_small(x as u8, dx as u8);
            }
            let dy: u8 = sbox[x] ^ sbox[other as usize];
            assert(dy == output_diff(sbox@, x as int, dx as int));
            let w: u32 = hamming_weight(dx as u8) + hamming_weight(dy);
            assert(w == diff_weight(sbox@, dx as int, x as int));
            if w < min {
                min = w;
                proof {
                    at = (dx as int, x as int);
                }
            }
        }
    }
    min
}

// ----- the rounds -----

/// The all-zero state.
pub open spec fn zero_state() -> Seq<u8> {
    Seq::new(STATE_NIBBLES as nat, |i: int| 0u8)
}

/// The state that differs from zero in nibble 0 only, by 1.
pub open spec fn one_state() -> Seq<u8> {
    zero_state().update(0, 1)
}

/// In how many nibbles two states differ.
pub open spec fn differing(a: Seq<u8>, b: Seq<u8>) -> nat {
    count(STATE_NIBBLES as nat, |i: int| a[i] != b[i])
}

/// How many nibbles a one-nibble difference has reached after `r` rounds.
pub open spec fn spread(r: nat) -> nat {
    differing(rounds_spec(zero_state(), 0, r), rounds_spec(one_state(), 0, r))
}

/// In how many nibbles two states differ.
fn count_differing(a: &State, b: &State) -> (n: usize)
    ensures
        n == differing(a@, b@),
        n <= STATE_NIBBLES,
{
    let mut n: usize = 0;
    for i in 0..STATE_NIBBLES
        invariant
            n <= i,
            n == count(i as nat, |j: int| a@[j] != b@[j]),
    {
        if a[i] != b[i] {
            n = n + 1;
        }
    }
    n
}

/// Whether `rounds` is the first number of rounds, from 1 on, after which the
/// difference has reached all nibbles; 100 if that takes more than 100.
pub open spec fn is_full_diffusion(rounds: nat) -> bool {
    &&& 1 <= rounds <= 100
    &&& forall|r: nat| 1 <= r < rounds ==> #[trigger] spread(r) != STATE_NIBBLES
    &&& rounds == 100 || spread(rounds) == STATE_NIBBLES
}

/// Whether `profile` lists how many nibbles differ after each round, up to the
/// first round from the sixth on after which all do, or to the thirtieth.
pub open spec fn is_profile(profile: Seq<usize>) -> bool {
    &&& 6 <= profile.len() <= 30
    &&& forall|k: int| 0 <= k < profile.len() ==> #[trigger] profile[k] == spread((k + 1) as nat)
    &&& forall|r: nat| 6 <= r < profile.len() ==> #[trigger] spread(r) != STATE_NIBBLES
    &&& profile.len() == 30 || spread(profile.len()) == STATE_NIBBLES
}

/// After how many rounds a difference of 1 in nibble 0 affects all 40 nibbles;
/// 100 if it does not within 100 rounds.
pub fn full_diffusion_rounds() -> (rounds: usize)
    ensures
        is_full_diffusion(rounds as nat),
{
    let mut a: State = [0u8; STATE_NIBBLES];
    let mut b: State = [0u8; STATE_NIBBLES];
    b[0] = 1;
    assert(a@ =~= zero_state());
    assert(b@ =~= one_state());
    for r in 0..100usize
        invariant
            a@ == rounds_spec(zero_state(), 0, r as nat),
            b@ == rounds_spec(one_state(), 0, r as nat),
            forall|k: nat| 1 <= k <= r ==> #[trigger] spread(k) != STATE_NIBBLES,
    {
        spn_round(&mut a, r);
        spn_round(&mut b, r);
        let n: usize = count_differing(&a, &b);
        assert(n == spread((r + 1) as nat));
        if n == STATE_NIBBLES {
            return r + 1;
        }
    }
    100
}

/// The diffusion profile: for each round, how many nibbles differ. It ends with
/// the first round from the sixth on that affects all of them, or with the
/// thirtieth.
pub fn diffusion_profile() -> (profile: Vec<usize>)
    ensures
        is_profile(profile@),
{
    let mut a: State = [0u8; STATE_NIBBLES];
    let mut b: State = [0u8; STATE_NIBBLES];
    b[0] = 1;
    assert(a@ =~= zero_state());
    assert(b@ =~= one_state());
    let mut profile: Vec<usize> = Vec::new();
    for r in 0..30usize
        invariant
            a@ == rounds_spec(zero_state(), 0, r as nat),
            b@ == rounds_spec(one_state(), 0, r as nat),
            profile@.len() == r,
            forall|k: int| 0 <= k < r ==> #[trigger] profile@[k] == spread((k + 1) as nat),
            forall|k: nat| 6 <= k <= r ==> #[trigger] spread(k) != STATE_NIBBLES,
    {
        spn_round(&mut a, r);
        spn_round(&mut b, r);
        let n: usize = count_differing(&a, &b);
        assert(n == spread((r + 1) as nat));
        profile.push(n);
        if n == STATE_NIBBLES && r >= 5 {
            return profile;
        }
    }
    profile
}

// ----- laws -----

/// No input difference, no output difference: the first row of the DDT is 16,
/// then zeros.
pub proof fn law_ddt_first_row(sbox: Seq<u8>, dy: int)
    requires
        0 <= dy < 16,
    ensures
        ddt_entry(sbox, 0, dy) == if dy == 0 {
            16nat
        } else {
            0nat
        },
{
    assert forall|x: int| 0 <= x < 16 implies #[trigger] output_diff(sbox, x, 0) == 0 by {
        let a: u8 = x as u8;
        assert(a ^ 0u8 == a) by (bit_vector);
        let v: u8 = sbox[x];
        assert(v ^ v == 0u8) by (bit_vector);
    }
    if dy == 0 {
        lemma_count_all(16, |x: int| output_diff(sbox, x, 0) == dy);
    } else {
        lemma_count_none(16, |x: int| output_diff(sbox, x, 0) == dy);
    }
}

/// A one-to-one S-box turns every difference into a difference: the first column
/// of its DDT is 16, then zeros.
pub proof fn law_ddt_first_column(sbox: Seq<u8>, dx: int)
    requires
        0 < dx < 16,
        forall|x: int, y: int|
            0 <= x < 16 && 0 <= y < 16 && x != y ==> #[trigger] sbox[x] != #[trigger] sbox[y],
    ensures
        ddt_entry(sbox, dx, 0) == 0,
{
    assert forall|x: int| 0 <= x < 16 implies #[trigger] output_diff(sbox, x, dx) != 0 by {
        let (a, d) = (x as u8, dx as u8);
        lemma_xor_small(a, d);
        assert(a ^ d != a) by (bit_vector)
            requires
                d != 0,
        ;
        let (v, w) = (sbox[x], sbox[(a ^ d) as int]);
        assert(v != w);
        assert(v ^ w != 0) by (bit_vector)
            requires
                v != w,
        ;
    }
    lemma_count_none(16, |x: int| output_diff(sbox, x, dx) == 0);
}

/// The sum of the first `k` entries of a DDT row, over the first `n` inputs.
spec fn row_part(sbox: Seq<u8>, dx: int, n: nat, k: nat) -> nat
    decreases k,
{
    if k == 0 {
        0
    } else {
        row_part(sbox, dx, n, (k - 1) as nat) + count(
            n,
            |x: int| output_diff(sbox, x, dx) == k - 1,
        )
    }
}

/// The sum of the first `k` entries of row `dx` of the DDT.
pub open spec fn ddt_row_sum(sbox: Seq<u8>, dx: int, k: nat) -> nat
    decreases k,
{
    if k == 0 {
        0
    } else {
        ddt_row_sum(sbox, dx, (k - 1) as nat) + ddt_entry(sbox, dx, k - 1)
    }
}

/// One more input adds one to exactly one entry.
proof fn lemma_row_part_step(sbox: Seq<u8>, dx: int, n: nat, k: nat)
    requires
        n > 0,
    ensures
        row_part(sbox, dx, n, k) == row_part(sbox, dx, (n - 1) as nat, k) + if output_diff(
            sbox,
            n - 1,
            dx,
        ) < k {
            1nat
        } else {
            0nat
        },
    decreases k,
{
    if k > 0 {
        lemma_row_part_step(sbox, dx, n, (k - 1) as nat);
    }
}

proof fn lemma_row_part_total(sbox: Seq<u8>, dx: int, n: nat)
    requires
        n <= 16,
        0 <= dx < 16,
        diffs_are_nibbles(sbox),
    ensures
        row_part(sbox, dx, n, 16) == n,
    decreases n,
{
    if n > 0 {
        lemma_row_part_total(sbox, dx, (n - 1) as nat);
        lemma_row_part_step(sbox, dx, n, 16);
        lemma_xor_small((n - 1) as u8, dx as u8);
        assert(output_diff(sbox, n - 1, dx) < 16);
    } else {
        lemma_row_part_empty(sbox, dx, 16);
    }
}

proof fn lemma_row_part_empty(sbox: Seq<u8>, dx: int, k: nat)
    ensures
        row_part(sbox, dx, 0, k) == 0,
    decreases k,
{
    if k > 0 {
        lemma_row_part_empty(sbox, dx, (k - 1) as nat);
    }
}

proof fn lemma_row_sum_is_part(sbox: Seq<u8>, dx: int, k: nat)
    ensures
        ddt_row_sum(sbox, dx, k) == row_part(sbox, dx, 16, k),
    decreases k,
{
    if k > 0 {
        lemma_row_sum_is_part(sbox, dx, (k - 1) as nat);
    }
}

/// Every row of the DDT counts each of the 16 inputs once.
pub proof fn law_ddt_row_sum(sbox: Seq<u8>, dx: int)
    requires
        0 <= dx < 16,
        diffs_are_nibbles(sbox),
    ensures
        ddt_row_sum(sbox, dx, 16) == 16,
{
    lemma_row_sum_is_part(sbox, dx, 16);
    lemma_row_part_total(sbox, dx, 16);
}

/// A balanced output bit never has the monomial of all four input bits, so its
/// degree is 3 at most.
pub proof fn law_balanced_degree(sbox: Seq<u8>, bit: int)
    requires
        count(16, |x: int| output_bit(sbox, bit, x)) == 8,
    ensures
        !has_monomial(sbox, bit, 15),
{
    let p = |x: int| (x as u8) & (15int as u8) == x && output_bit(sbox, bit, x);
    let q = |x: int| output_bit(sbox, bit, x);
    assert forall|x: int| 0 <= x < 16 implies #[trigger] p(x) == q(x) by {
        let a: u8 = x as u8;
        assert(a & 15u8 == a) by (bit_vector)
            requires
                a < 16,
        ;
    }
    lemma_count_same(16, p, q);
}

} // verus!
