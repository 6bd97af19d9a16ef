//! What the measures of the hash and of its S-box count, and what inputs they draw.

use vstd::arithmetic::power2::{lemma_pow2_pos, pow2};
use vstd::prelude::*;

use crate::n4bit::counting::{count, lemma_count_complement, lemma_count_none, lemma_count_same};
use crate::n4bit::cryptanalysis::{
    ddt_entry, diff_weight, differing, has_monomial, is_degree, is_nonlinearity, is_uniformity,
    lat_deviation, lat_entry, masks_agree, one_state, output_bit, weight, zero_state,
};
use crate::n4bit::sampling::{
    birthday_input, bit_flips, collides, counts_pair, digest_bit, digest_nibble, drawn_byte,
    drawn_bytes, flip_first, flipped_weight, is_preimage, lcg_next, lcg_state, leading,
    lists_pairs, pair_code, pair_counted, pair_index, preimage_input, preimage_target, sample, PairFlips, BIC_SEED, BIRTHDAY_SEED,
    PREIMAGE_SEED,
};
use crate::n4bit::{be_value, hash_spec};

verus! {

// ----- counting -----

/// A count of numbers below `n`: each that has the property adds one.
pub proof fn law_count(n: nat, p: spec_fn(int) -> bool)
    ensures
        count(0, p) == 0,
        count(n + 1, p) - count(n, p) == if p(n as int) {
            1int
        } else {
            0int
        },
        count(n, p) + count(n, |i: int| !p(i)) == n,
{
    lemma_count_complement(n, p);
}

proof fn lemma_count_some(n: nat, p: spec_fn(int) -> bool)
    ensures
        count(n, p) > 0 <==> exists|i: int| 0 <= i < n && #[trigger] p(i),
    decreases n,
{
    if n > 0 {
        lemma_count_some((n - 1) as nat, p);
        if p(n - 1) {
            assert(0 <= n - 1 < n && p(n - 1));
        }
        if exists|i: int| 0 <= i < n && #[trigger] p(i) {
            let i = choose|i: int| 0 <= i < n && #[trigger] p(i);
            if i < n - 1 {
                assert(0 <= i < n - 1 && p(i));
            }
        }
    }
}

/// The weight of a number is that of its half, and one more if it is odd.
pub proof fn law_weight(x: nat)
    ensures
        weight(0) == 0,
        weight(2 * x) == weight(x),
        weight(2 * x + 1) == weight(x) + 1,
{
    assert((2 * x) / 2 == x && (2 * x) % 2 == 0);
    assert((2 * x + 1) / 2 == x && (2 * x + 1) % 2 == 1);
}

// ----- the S-box -----

/// An entry of the difference table is positive exactly when some input turns the one
/// difference into the other.
pub proof fn law_ddt_finds_differences(sbox: Seq<u8>, dx: int, dy: int)
    requires
        0 <= dx < 16,
        0 <= dy < 16,
    ensures
        ddt_entry(sbox, dx, dy) > 0 <==> exists|x: int|
            0 <= x < 16 && #[trigger] sbox[x] ^ sbox[((x as u8) ^ (dx as u8)) as int] == dy,
        ddt_entry(sbox, dx, dy) == count(
            16,
            |x: int| sbox[x] ^ sbox[((x as u8) ^ (dx as u8)) as int] == dy,
        ),
{
    let p = |x: int| sbox[x] ^ sbox[((x as u8) ^ (dx as u8)) as int] == dy;
    let q = |x: int| crate::n4bit::cryptanalysis::output_diff(sbox, x, dx) == dy;
    lemma_count_same(16, p, q);
    lemma_count_some(16, p);
    if exists|x: int| 0 <= x < 16 && #[trigger] p(x) {
        let x = choose|x: int| 0 <= x < 16 && #[trigger] p(x);
        assert(sbox[x] ^ sbox[((x as u8) ^ (dx as u8)) as int] == dy);
    }
    if exists|x: int|
        0 <= x < 16 && #[trigger] sbox[x] ^ sbox[((x as u8) ^ (dx as u8)) as int] == dy {
        let x = choose|x: int|
            0 <= x < 16 && #[trigger] sbox[x] ^ sbox[((x as u8) ^ (dx as u8)) as int] == dy;
        assert(p(x));
    }
}

/// The uniformity of an S-box is one number: it is reached by an entry off the origin,
/// and no such entry is above it.
pub proof fn law_uniformity(sbox: Seq<u8>, max: nat, other: nat, dx: int, dy: int)
    requires
        is_uniformity(sbox, max),
        0 <= dx < 16 && 0 <= dy < 16 && !(dx == 0 && dy == 0),
    ensures
        ddt_entry(sbox, dx, dy) <= max,
        exists|i: int, j: int|
            0 <= i < 16 && 0 <= j < 16 && !(i == 0 && j == 0) && #[trigger] ddt_entry(sbox, i, j)
                == max,
        is_uniformity(sbox, other) ==> other == max,
{
}

/// Two masks agree on an input when the masked bits of input and output together are
/// even in number. The table counts those inputs, and the deviation is its distance
/// from a half.
pub proof fn law_lat_counts_agreement(sbox: Seq<u8>, alpha: int, beta: int, x: int)
    ensures
        masks_agree(sbox, x, alpha, beta) <==> (weight(((x as u8) & (alpha as u8)) as nat) + weight(
            (sbox[x] & (beta as u8)) as nat,
        )) % 2 == 0,
        lat_entry(sbox, alpha, beta) == count(
            16,
            |k: int|
                (weight(((k as u8) & (alpha as u8)) as nat) + weight(
                    (sbox[k] & (beta as u8)) as nat,
                )) % 2 == 0,
        ),
        lat_deviation(sbox, alpha, beta) >= 0,
        lat_entry(sbox, alpha, beta) == 8 + lat_deviation(sbox, alpha, beta) || lat_entry(
            sbox,
            alpha,
            beta,
        ) == 8 - lat_deviation(sbox, alpha, beta),
{
    let p = |k: int| masks_agree(sbox, k, alpha, beta);
    let q = |k: int|
        (weight(((k as u8) & (alpha as u8)) as nat) + weight((sbox[k] & (beta as u8)) as nat)) % 2
            == 0;
    lemma_count_same(16, p, q);
}

/// The nonlinearity of an S-box is one number: eight less the largest deviation of any
/// mask of the input but the empty one.
pub proof fn law_nonlinearity_is_least(
    sbox: Seq<u8>,
    nl: int,
    other: int,
    alpha: int,
    beta: int,
)
    requires
        is_nonlinearity(sbox, nl),
        1 <= alpha < 16 && 0 <= beta < 16,
    ensures
        nl <= 8 - lat_deviation(sbox, alpha, beta),
        exists|i: int, j: int|
            1 <= i < 16 && 0 <= j < 16 && nl == 8 - #[trigger] lat_deviation(sbox, i, j),
        is_nonlinearity(sbox, other) ==> other == nl,
{
    let (i, j) = choose|i: int, j: int|
        1 <= i < 16 && 0 <= j < 16 && #[trigger] lat_deviation(sbox, i, j) == 8 - nl;
    assert(lat_deviation(sbox, i, j) == 8 - nl);
}

/// The constant monomial of an output bit is there exactly when the output of zero has
/// the bit. The monomial of mask `m` counts the outputs of those inputs only that have
/// no bit outside `m`.
pub proof fn law_monomials(sbox: Seq<u8>, bit: int, m: int)
    requires
        0 <= m < 16,
    ensures
        has_monomial(sbox, bit, 0) <==> output_bit(sbox, bit, 0),
        (forall|x: int|
            0 <= x < 16 && (x as u8) & (m as u8) == x ==> !#[trigger] output_bit(sbox, bit, x))
            ==> !has_monomial(sbox, bit, m),
{
    let p = |x: int| (x as u8) & (0int as u8) == x && output_bit(sbox, bit, x);
    let q = |x: int| x == 0 && output_bit(sbox, bit, 0);
    assert forall|x: int| 0 <= x < 16 implies #[trigger] p(x) == q(x) by {
        let a: u8 = x as u8;
        assert(a & 0u8 == 0u8) by (bit_vector);
    }
    lemma_count_same(16, p, q);
    reveal_with_fuel(count, 17);
    let r = |x: int| (x as u8) & (m as u8) == x && output_bit(sbox, bit, x);
    if forall|x: int|
        0 <= x < 16 && (x as u8) & (m as u8) == x ==> !#[trigger] output_bit(sbox, bit, x) {
        lemma_count_none(16, r);
    }
}

/// The degree of an output bit is one number: no monomial is above it, and one of that
/// weight is there unless it is zero.
pub proof fn law_degree(sbox: Seq<u8>, bit: int, d: int, other: int, m: int)
    requires
        is_degree(sbox, bit, d),
        0 <= m < 16,
    ensures
        has_monomial(sbox, bit, m) ==> weight(m as nat) <= d,
        d > 0 ==> exists|k: int|
            0 <= k < 16 && #[trigger] has_monomial(sbox, bit, k) && weight(k as nat) == d,
        d >= 0 && other >= 0 && is_degree(sbox, bit, other) ==> other == d,
{
}

/// What a difference weighs: its own bits and those that it is turned into.
pub proof fn law_diff_weight(sbox: Seq<u8>, dx: int, x: int)
    ensures
        diff_weight(sbox, dx, x) == weight(dx as nat) + weight(
            (sbox[x] ^ sbox[((x as u8) ^ (dx as u8)) as int]) as nat,
        ),
{
}

/// Two states differ in no nibble exactly when they are the same, and in one when one
/// nibble is changed; the two states that are compared are such a pair.
pub proof fn law_differing(a: Seq<u8>, b: Seq<u8>, i: int, v: u8)
    requires
        a.len() == 40,
        b.len() == 40,
        0 <= i < 40,
    ensures
        differing(a, b) == 0 <==> a == b,
        differing(a, b) == differing(b, a),
        v != a[i] ==> differing(a, a.update(i, v)) == 1,
        forall|k: int| 0 <= k < 40 ==> #[trigger] zero_state()[k] == 0,
        one_state() == zero_state().update(0, 1),
        zero_state().len() == 40,
{
    let p = |k: int| a[k] != b[k];
    let q = |k: int| b[k] != a[k];
    lemma_count_same(40, p, q);
    lemma_count_some(40, p);
    if a != b {
        if forall|k: int| 0 <= k < 40 ==> !#[trigger] p(k) {
            assert forall|k: int| 0 <= k < 40 implies a[k] == b[k] by {
                assert(!p(k));
            }
            assert(a =~= b);
        }
    }
    if v != a[i] {
        let c = a.update(i, v);
        let r = |k: int| a[k] != c[k];
        lemma_count_one(40, r, i);
    }
}

proof fn lemma_count_one(n: nat, p: spec_fn(int) -> bool, i: int)
    requires
        0 <= i < n,
        forall|k: int| 0 <= k < n ==> (#[trigger] p(k) <==> k == i),
    ensures
        count(n, p) == 1,
    decreases n,
{
    assert(p(n - 1) <==> n - 1 == i);
    if i < n - 1 {
        lemma_count_one((n - 1) as nat, p, i);
    } else {
        lemma_count_none((n - 1) as nat, p);
    }
}

// ----- the inputs -----

/// The generator's next state is the last one times its multiplier plus its increment,
/// in 64 bits; drawing on from a state is drawing on from the seed.
pub proof fn law_generator(seed: u64, a: nat, b: nat)
    ensures
        (lcg_next(seed) - (seed * 6364136223846793005 + 1442695040888963407))
            % 0x1_0000_0000_0000_0000 == 0,
        lcg_state(seed, 0) == seed,
        lcg_state(seed, 1) == lcg_next(seed),
        lcg_state(seed, a + b) == lcg_state(lcg_state(seed, a), b),
    decreases b,
{
    reveal_with_fuel(lcg_state, 2);
    if b > 0 {
        law_generator(seed, a, (b - 1) as nat);
        assert((a + b - 1) as nat == a + (b - 1) as nat);
    }
    let y = seed * 6364136223846793005 + 1442695040888963407;
    let m = 0x1_0000_0000_0000_0000int;
    assert(y == m * (y / m) + y % m) by (nonlinear_arith)
        requires
            m == 0x1_0000_0000_0000_0000int,
    ;
    assert((lcg_next(seed) - y) == -(y / m) * m) by (nonlinear_arith)
        requires
            y == m * (y / m) + y % m,
            lcg_next(seed) == y % m,
    ;
    vstd::arithmetic::div_mod::lemma_mod_multiples_basic(-(y / m), m);
}

/// A draw is the byte of the state that 33 bits stand below: without it, less than 33
/// bits are left below the 41st.
pub proof fn law_drawn_byte(seed: u64, k: nat)
    ensures
        0 <= (lcg_state(seed, k) - drawn_byte(seed, k) * 0x2_0000_0000) % 0x200_0000_0000
            < 0x2_0000_0000,
{
    let s = lcg_state(seed, k) as int;
    let q = s / 0x2_0000_0000;
    let low = s % 0x2_0000_0000;
    let b = drawn_byte(seed, k) as int;
    assert(b == q % 256);
    assert(s == 0x2_0000_0000 * q + low && 0 <= low < 0x2_0000_0000);
    assert(q == 256 * (q / 256) + b);
    assert(s - b * 0x2_0000_0000 == 0x200_0000_0000 * (q / 256) + low);
    vstd::arithmetic::div_mod::lemma_fundamental_div_mod_converse(
        s - b * 0x2_0000_0000,
        0x200_0000_0000,
        q / 256,
        low,
    );
}

/// The draws are one stream: a longer draw is a shorter one and the draw that goes on
/// after it, the inputs of a test follow each other in the stream, and no byte is left
/// out or used twice.
pub proof fn law_draws_are_one_stream(seed: u64, skip: nat, a: nat, b: nat, len: nat, i: nat)
    ensures
        drawn_bytes(seed, skip, a + b) == drawn_bytes(seed, skip, a) + drawn_bytes(
            seed,
            skip + a,
            b,
        ),
        drawn_bytes(seed, 0, 1) == seq![drawn_byte(seed, 1)],
        sample(seed, len, 0) == drawn_bytes(seed, 0, len),
        drawn_bytes(seed, 0, (i + 1) * len) == drawn_bytes(seed, 0, i * len) + sample(seed, len, i),
{
    assert(drawn_bytes(seed, skip, a + b) =~= drawn_bytes(seed, skip, a) + drawn_bytes(
        seed,
        skip + a,
        b,
    ));
    assert(drawn_bytes(seed, 0, 1) =~= seq![drawn_byte(seed, 1)]);
    assert(0 * len == 0) by (nonlinear_arith);
    assert((i + 1) * len == i * len + len) by (nonlinear_arith);
    assert(drawn_bytes(seed, 0, (i + 1) * len) =~= drawn_bytes(seed, 0, i * len) + sample(
        seed,
        len,
        i,
    ));
}

/// The flipped input differs from the input in the lowest bit of its first byte alone.
pub proof fn law_flip_first(input: Seq<u8>)
    requires
        input.len() > 0,
    ensures
        flip_first(input).len() == input.len(),
        flip_first(input).skip(1) == input.skip(1),
        flip_first(input)[0] == if input[0] % 2 == 0 {
            input[0] + 1
        } else {
            input[0] - 1
        },
        flip_first(flip_first(input)) == input,
{
    let x: u8 = input[0];
    assert((x ^ 1u8) == if x % 2 == 0 {
        (x + 1) as u8
    } else {
        (x - 1) as u8
    }) by (bit_vector);
    assert((x ^ 1u8) ^ 1u8 == x) by (bit_vector);
    assert(flip_first(input).skip(1) =~= input.skip(1));
    assert(flip_first(flip_first(input)) =~= input);
}

// ----- digests -----

/// The bits of a digest are those of its bytes, the lowest first.
pub proof fn law_digest_bit(h: Seq<u8>, i: int, k: int)
    requires
        0 <= i < h.len(),
        0 <= k < 8,
    ensures
        digest_bit(h, 8 * i + k) <==> (h[i] as nat / pow2(k as nat)) % 2 == 1,
{
    vstd::arithmetic::power2::lemma2_to64();
    let x: u8 = h[i];
    assert((8 * i + k) / 8 == i && (8 * i + k) % 8 == k);
    assert((x >> 0u8) & 1 == x % 2 && (x >> 1u8) & 1 == (x / 2) % 2 && (x >> 2u8) & 1 == (x / 4) % 2
        && (x >> 3u8) & 1 == (x / 8) % 2 && (x >> 4u8) & 1 == (x / 16) % 2 && (x >> 5u8) & 1 == (x
        / 32) % 2 && (x >> 6u8) & 1 == (x / 64) % 2 && (x >> 7u8) & 1 == (x / 128) % 2)
        by (bit_vector);
    if k == 0 {
        assert(x as nat / pow2(0) == x);
    } else if k == 1 {
        assert(x as nat / pow2(1) == x / 2);
    } else if k == 2 {
        assert(x as nat / pow2(2) == x / 4);
    } else if k == 3 {
        assert(x as nat / pow2(3) == x / 8);
    } else if k == 4 {
        assert(x as nat / pow2(4) == x / 16);
    } else if k == 5 {
        assert(x as nat / pow2(5) == x / 32);
    } else if k == 6 {
        assert(x as nat / pow2(6) == x / 64);
    } else {
        assert(x as nat / pow2(7) == x / 128);
    }
}

/// A bit flips when the digests of the input and of the flipped input differ in it; the
/// code of a pair tells of both its bits.
pub proof fn law_flips(seed: u64, len: nat, k: int, i: int, j: int)
    requires
        k >= 0,
    ensures
        ({
            let input = sample(seed, len, k as nat);
            bit_flips(seed, len, k, i) <==> digest_bit(hash_spec(input), i) != digest_bit(
                hash_spec(flip_first(input)),
                i,
            )
        }),
        0 <= pair_code(len, k, i, j) < 4,
        pair_code(len, k, i, j) / 2 == 1 <==> bit_flips(BIC_SEED, len, k, i),
        pair_code(len, k, i, j) % 2 == 1 <==> bit_flips(BIC_SEED, len, k, j),
{
}

/// The joint counts of a pair are those of all samples.
pub proof fn law_pair_counts_add_up(p: PairFlips, len: nat, n: nat)
    requires
        counts_pair(p, len, n),
    ensures
        p.joint@[0] + p.joint@[1] + p.joint@[2] + p.joint@[3] == n,
{
    lemma_codes_partition(len, n, p.i as int, p.j as int);
}

proof fn lemma_codes_partition(len: nat, n: nat, i: int, j: int)
    ensures
        count(n, |k: int| pair_code(len, k, i, j) == 0) + count(
            n,
            |k: int| pair_code(len, k, i, j) == 1,
        ) + count(n, |k: int| pair_code(len, k, i, j) == 2) + count(
            n,
            |k: int| pair_code(len, k, i, j) == 3,
        ) == n,
    decreases n,
{
    if n > 0 {
        lemma_codes_partition(len, (n - 1) as nat, i, j);
    }
}

/// The pairs are listed by their first bit, then by their second.
pub proof fn law_pairs_in_order(i: int, j: int)
    requires
        0 <= i < j < 20,
    ensures
        pair_index(0, 1) == 0,
        j + 1 < 20 ==> pair_index(i, j + 1) == pair_index(i, j) + 1,
        i + 2 < 20 ==> pair_index(i + 1, i + 2) == pair_index(i, 19) + 1,
{
    reveal_with_fuel(crate::n4bit::sampling::pair_row, 2);
}

/// Digests differ in as many bits as their bytes do, one by one.
pub proof fn law_flipped_weight(h1: Seq<u8>, h2: Seq<u8>, n: nat)
    ensures
        flipped_weight(h1, h2, 0) == 0,
        flipped_weight(h1, h2, n + 1) == flipped_weight(h1, h2, n) + weight(
            (h1[n as int] ^ h2[n as int]) as nat,
        ),
        flipped_weight(h1, h1, n) == 0,
    decreases n,
{
    let x: u8 = h1[n as int];
    if n > 0 {
        law_flipped_weight(h1, h2, (n - 1) as nat);
        let y: u8 = h1[n - 1];
        assert(y ^ y == 0u8) by (bit_vector);
    }
}

/// The nibbles of a digest make up its bytes, the high one first.
pub proof fn law_digest_nibble(h: Seq<u8>, i: int)
    requires
        0 <= i < h.len(),
    ensures
        digest_nibble(h, 2 * i) < 16,
        digest_nibble(h, 2 * i + 1) < 16,
        h[i] == 16 * digest_nibble(h, 2 * i) + digest_nibble(h, 2 * i + 1),
{
}

/// The leading bits of a digest are what stands above the other bits of its first 128.
pub proof fn law_leading_bits(h: Seq<u8>, bits: nat)
    requires
        h.len() >= 16,
        bits <= 128,
    ensures
        leading(h, bits) * pow2((128 - bits) as nat) <= be_value(h.subrange(0, 16)),
        be_value(h.subrange(0, 16)) < (leading(h, bits) + 1) * pow2((128 - bits) as nat),
{
    let d = pow2((128 - bits) as nat);
    lemma_pow2_pos((128 - bits) as nat);
    assert(h.subrange(0, 16) =~= h.take(16));
    let v = be_value(h.take(16));
    assert(v == d * (v / d) + v % d && v % d < d) by (nonlinear_arith)
        requires
            d > 0,
    ;
    assert((v / d) * d <= v < (v / d + 1) * d) by (nonlinear_arith)
        requires
            v == d * (v / d) + v % d,
            0 <= v % d < d,
    ;
}

/// A search ends at an input whose leading bits some other, earlier input has too.
pub proof fn law_collision(bits: nat, i: int)
    ensures
        collides(bits, i) <==> exists|j: int|
            0 <= j < i && !(#[trigger] birthday_input(j) == birthday_input(i)) && leading(
                hash_spec(birthday_input(j)),
                bits,
            ) == leading(hash_spec(birthday_input(i)), bits),
        i >= 0 ==> birthday_input(i) == sample(BIRTHDAY_SEED, 48, i as nat),
        !collides(bits, 0),
{
}

/// The target of a preimage search is 48 times the first byte drawn; its inputs are the
/// bytes drawn after it, 48 each, and one is found when it is not the target itself
/// and its digest has the leading bits of the target's.
pub proof fn law_preimage(bits: nat, i: int, j: int)
    requires
        0 <= i,
        0 <= j < 48,
    ensures
        preimage_target().len() == 48,
        preimage_target()[j] == drawn_byte(PREIMAGE_SEED, 1),
        preimage_input(i).len() == 48,
        preimage_input(i)[j] == drawn_byte(PREIMAGE_SEED, (48 * i + j + 2) as nat),
        is_preimage(bits, i) ==> !(preimage_input(i) == preimage_target()),
        is_preimage(bits, i) ==> leading(hash_spec(preimage_input(i)), bits) == leading(
            hash_spec(preimage_target()),
            bits,
        ),
        !(preimage_input(i) == preimage_target()) && leading(hash_spec(preimage_input(i)), bits)
            == leading(hash_spec(preimage_target()), bits) ==> is_preimage(bits, i),
{
    assert(1 + i * 48 + j + 1 == 48 * i + j + 2);
}

/// All pairs of two of the twenty bits are listed, each at its place, and each joint
/// count is the number of samples in which the bits flip that way.
pub proof fn law_joint_counts(pairs: Seq<PairFlips>, len: nat, n: nat, i: int, j: int)
    requires
        lists_pairs(pairs),
        0 <= i < j < 20,
        pair_counted(pairs[pair_index(i, j)], len, n),
    ensures
        pairs.len() == 190,
        ({
            let p = pairs[pair_index(i, j)];
            &&& p.i == i && p.j == j
            &&& p.joint@[0] == count(
                n,
                |k: int| !bit_flips(BIC_SEED, len, k, i) && !bit_flips(BIC_SEED, len, k, j),
            )
            &&& p.joint@[1] == count(
                n,
                |k: int| !bit_flips(BIC_SEED, len, k, i) && bit_flips(BIC_SEED, len, k, j),
            )
            &&& p.joint@[2] == count(
                n,
                |k: int| bit_flips(BIC_SEED, len, k, i) && !bit_flips(BIC_SEED, len, k, j),
            )
            &&& p.joint@[3] == count(
                n,
                |k: int| bit_flips(BIC_SEED, len, k, i) && bit_flips(BIC_SEED, len, k, j),
            )
        }),
{
    let p = pairs[pair_index(i, j)];
    assert(p.joint@[0] == count(n, |k: int| pair_code(len, k, i, j) == 0));
    assert(p.joint@[1] == count(n, |k: int| pair_code(len, k, i, j) == 1));
    assert(p.joint@[2] == count(n, |k: int| pair_code(len, k, i, j) == 2));
    assert(p.joint@[3] == count(n, |k: int| pair_code(len, k, i, j) == 3));
    lemma_count_same(
        n,
        |k: int| pair_code(len, k, i, j) == 0,
        |k: int| !bit_flips(BIC_SEED, len, k, i) && !bit_flips(BIC_SEED, len, k, j),
    );
    lemma_count_same(
        n,
        |k: int| pair_code(len, k, i, j) == 1,
        |k: int| !bit_flips(BIC_SEED, len, k, i) && bit_flips(BIC_SEED, len, k, j),
    );
    lemma_count_same(
        n,
        |k: int| pair_code(len, k, i, j) == 2,
        |k: int| bit_flips(BIC_SEED, len, k, i) && !bit_flips(BIC_SEED, len, k, j),
    );
    lemma_count_same(
        n,
        |k: int| pair_code(len, k, i, j) == 3,
        |k: int| bit_flips(BIC_SEED, len, k, i) && bit_flips(BIC_SEED, len, k, j),
    );
}

} // verus!
