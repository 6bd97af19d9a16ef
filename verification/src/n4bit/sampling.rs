//! Statistics of the hash over reproducible pseudo-random inputs.
//!
//! The inputs come from a linear congruential generator with a fixed seed per
//! test. The functions here count; probabilities and test statistics are ratios
//! of these counts.

use std::collections::HashMap;
use vstd::arithmetic::power2::{lemma2_to64, lemma_pow2_pos, lemma_pow2_strictly_increases, pow2};
use vstd::prelude::*;

use crate::n4bit::counting::{count, lemma_count_bound};
use crate::n4bit::cryptanalysis::{hamming_weight, weight};
use crate::n4bit::{be_value, hash, hash_spec, Digest, DIGEST_BYTES};

verus! {

/// Seed of the strict avalanche counts.
pub const SAC_SEED: u64 = 0x12345678;

/// Seed of the bit independence counts.
pub const BIC_SEED: u64 = 0xDEADBEEF;

/// Seed of the avalanche weights.
pub const AVALANCHE_SEED: u64 = 0xABCDEF01;

/// Seed of the nibble counts.
pub const CHI_SQUARE_SEED: u64 = 0x55AA55AA;

/// Seed of the collision search.
pub const BIRTHDAY_SEED: u64 = 0xCAFEBABE;

/// Seed of the preimage search.
pub const PREIMAGE_SEED: u64 = 0xF00DCAFE;

/// Input length of the tests that fix it.
pub const INPUT_BYTES: usize = 48;

/// How many output bits the bit independence counts pair up.
pub const BIC_BITS: usize = 20;

// ----- the inputs -----

/// The generator's next state.
pub open spec fn lcg_next(state: u64) -> u64 {
    ((state * 6364136223846793005 + 1442695040888963407) % 0x1_0000_0000_0000_0000) as u64
}

/// The generator's state after `k` draws.
pub open spec fn lcg_state(seed: u64, k: nat) -> u64
    decreases k,
{
    if k == 0 {
        seed
    } else {
        lcg_next(lcg_state(seed, (k - 1) as nat))
    }
}

/// The byte of draw `k`, counted from 1: the low byte of the state's upper 31
/// bits.
pub open spec fn drawn_byte(seed: u64, k: nat) -> u8 {
    ((lcg_state(seed, k) / 0x2_0000_0000) % 256) as u8
}

/// `len` bytes drawn after the first `skip` draws.
pub open spec fn drawn_bytes(seed: u64, skip: nat, len: nat) -> Seq<u8> {
    Seq::new(len, |j: int| drawn_byte(seed, (skip + j + 1) as nat))
}

/// Input `i` of a test: the next `len` bytes.
pub open spec fn sample(seed: u64, len: nat, i: nat) -> Seq<u8> {
    drawn_bytes(seed, i * len, len)
}

/// An input with bit 0 flipped.
pub open spec fn flip_first(input: Seq<u8>) -> Seq<u8> {
    input.update(0, input[0] ^ 1u8)
}

/// The generator.
struct Lcg {
    state: u64,
}

impl Lcg {
    fn draw(&mut self) -> (byte: u8)
        ensures
            final(self).state == lcg_next(old(self).state),
            byte == ((final(self).state / 0x2_0000_0000) % 256) as u8,
    {
        self.state = self.state.wrapping_mul(6364136223846793005).wrapping_add(
            1442695040888963407,
        );
        proof {
            let s = old(self).state as int;
            let m: int = 0x1_0000_0000_0000_0000;
            let a: int = 6364136223846793005;
            let c: int = 1442695040888963407;
            vstd::arithmetic::div_mod::lemma_add_mod_noop(s * a, c, m);
            vstd::arithmetic::div_mod::lemma_add_mod_noop((s * a) % m, c, m);
            vstd::arithmetic::div_mod::lemma_mod_twice(s * a, m);
        }
        ((self.state / 0x2_0000_0000) % 256) as u8
    }

    /// The next `len` bytes.
    fn fill(&mut self, len: usize, Ghost(seed): Ghost<u64>, Ghost(skip): Ghost<nat>) -> (bytes: Vec<
        u8,
    >)
        requires
            old(self).state == lcg_state(seed, skip),
        ensures
            final(self).state == lcg_state(seed, skip + len as nat),
            bytes@ == drawn_bytes(seed, skip, len as nat),
    {
        let mut bytes: Vec<u8> = Vec::with_capacity(len);
        for j in 0..len
            invariant
                self.state == lcg_state(seed, skip + j as nat),
                bytes@.len() == j,
                forall|k: int| 0 <= k < j ==> bytes@[k] == drawn_bytes(seed, skip, len as nat)[k],
        {
            let byte: u8 = self.draw();
            assert(lcg_state(seed, (skip + j + 1) as nat) == lcg_next(
                lcg_state(seed, (skip + j) as nat),
            ));
            bytes.push(byte);
        }
        assert(bytes@ =~= drawn_bytes(seed, skip, len as nat));
        bytes
    }
}

// ----- avalanche counts -----

/// Bit `bit` of a digest, least significant bit of each byte first.
pub open spec fn digest_bit(h: Seq<u8>, bit: int) -> bool {
    (h[bit / 8] >> ((bit % 8) as u8)) & 1u8 == 1u8
}

/// Whether flipping bit 0 of sample `i` flips output bit `bit`.
pub open spec fn bit_flips(seed: u64, len: nat, i: int, bit: int) -> bool {
    let input = sample(seed, len, i as nat);
    digest_bit(hash_spec(input), bit) != digest_bit(hash_spec(flip_first(input)), bit)
}

/// Draw sample `i` and hash it, as drawn and with bit 0 flipped.
fn draw_pair(lcg: &mut Lcg, len: usize, Ghost(seed): Ghost<u64>, Ghost(i): Ghost<nat>) -> (r: (
    Digest,
    Digest,
))
    requires
        old(lcg).state == lcg_state(seed, i * len as nat),
        len > 0,
    ensures
        final(lcg).state == lcg_state(seed, (i + 1) * len as nat),
        r.0@ == hash_spec(sample(seed, len as nat, i)),
        r.1@ == hash_spec(flip_first(sample(seed, len as nat, i))),
{
    let mut input: Vec<u8> = lcg.fill(len, Ghost(seed), Ghost(i * len as nat));
    assert(i * len as nat + len == (i + 1) * len as nat) by (nonlinear_arith);
    let h1: Digest = hash(input.as_slice());
    let ghost before = input@;
    let first: u8 = input[0];
    input[0] = first ^ 1u8;
    assert(input@ =~= flip_first(before));
    let h2: Digest = hash(input.as_slice());
    (h1, h2)
}

/// Whether two digests differ in bit `bit`.
fn bit_differs(h1: &Digest, h2: &Digest, bit: usize) -> (r: bool)
    requires
        bit < 160,
    ensures
        r == (digest_bit(h1@, bit as int) != digest_bit(h2@, bit as int)),
{
    let at: u8 = (bit % 8) as u8;
    let b1: u8 = (h1[bit / 8] >> at) & 1u8;
    let b2: u8 = (h2[bit / 8] >> at) & 1u8;
    (b1 == 1u8) != (b2 == 1u8)
}

/// Strict avalanche counts: for each of the 160 output bits, in how many of the
/// samples it flips when input bit 0 is flipped.
pub fn sac_flip_counts(num_samples: usize, input_len: usize) -> (counts: [u64; 160])
    requires
        num_samples > 0 ==> input_len > 0,
    ensures
        forall|bit: int|
            0 <= bit < 160 ==> #[trigger] counts@[bit] == count(
                num_samples as nat,
                |i: int| bit_flips(SAC_SEED, input_len as nat, i, bit),
            ),
{
    let mut counts: [u64; 160] = [0u64; 160];
    let mut lcg = Lcg { state: SAC_SEED };
    for i in 0..num_samples
        invariant
            num_samples > 0 ==> input_len > 0,
            lcg.state == lcg_state(SAC_SEED, i as nat * input_len as nat),
            forall|bit: int|
                0 <= bit < 160 ==> #[trigger] counts@[bit] == count(
                    i as nat,
                    |k: int| bit_flips(SAC_SEED, input_len as nat, k, bit),
                ) && counts@[bit] <= i,
    {
        let (h1, h2): (Digest, Digest) = draw_pair(
            &mut lcg,
            input_len,
            Ghost(SAC_SEED),
            Ghost(i as nat),
        );
        let ghost before = counts@;
        for bit in 0..160usize
            invariant
                i < num_samples,
                h1@ == hash_spec(sample(SAC_SEED, input_len as nat, i as nat)),
                h2@ == hash_spec(flip_first(sample(SAC_SEED, input_len as nat, i as nat))),
                before.len() == 160,
                forall|b: int| 0 <= b < 160 ==> #[trigger] before[b] <= i,
                forall|b: int|
                    0 <= b < bit ==> #[trigger] counts@[b] == before[b] + if bit_flips(
                        SAC_SEED,
                        input_len as nat,
                        i as int,
                        b,
                    ) {
                        1int
                    } else {
                        0int
                    },
                forall|b: int| bit <= b < 160 ==> #[trigger] counts@[b] == before[b],
        {
            if bit_differs(&h1, &h2, bit) {
                counts[bit] = counts[bit] + 1;
            }
        }
        assert forall|bit: int| 0 <= bit < 160 implies #[trigger] counts@[bit] == count(
            (i + 1) as nat,
            |k: int| bit_flips(SAC_SEED, input_len as nat, k, bit),
        ) && counts@[bit] <= i + 1 by {
            assert(before[bit] == count(
                i as nat,
                |k: int| bit_flips(SAC_SEED, input_len as nat, k, bit),
            ));
        }
    }
    counts
}

/// How two output bits flip together, over the samples.
#[derive(Clone, Copy, Debug, PartialEq, Eq)]
pub struct PairFlips {
    /// The first bit.
    pub i: usize,
    /// The second bit.
    pub j: usize,
    /// How often neither, only the second, only the first, and both flip.
    pub joint: [u64; 4],
}

/// The outcome of a pair at sample `k`: 2 if the first bit flips, plus 1 if the
/// second does.
pub open spec fn pair_code(len: nat, k: int, i: int, j: int) -> int {
    (if bit_flips(BIC_SEED, len, k, i) {
        2int
    } else {
        0
    }) + (if bit_flips(BIC_SEED, len, k, j) {
        1int
    } else {
        0
    })
}

/// Where the pairs of first bit `i` start in the list of pairs.
pub open spec fn pair_row(i: nat) -> int
    decreases i,
{
    if i == 0 {
        0
    } else {
        pair_row((i - 1) as nat) + BIC_BITS - i
    }
}

/// The place of the pair `(i, j)` in the list of pairs, in the order of the
/// first and then of the second bit.
pub open spec fn pair_index(i: int, j: int) -> int {
    pair_row(i as nat) + j - i - 1
}

proof fn lemma_pair_row_monotone(a: nat, b: nat)
    requires
        a <= b <= BIC_BITS,
    ensures
        0 <= pair_row(a) <= pair_row(b) <= 190,
    decreases b,
{
    reveal_with_fuel(pair_row, 21);
    if a < b {
        lemma_pair_row_monotone(a, (b - 1) as nat);
    } else if b > 0 {
        lemma_pair_row_monotone((a - 1) as nat, (b - 1) as nat);
    }
    if b < BIC_BITS {
        lemma_pair_row_below_end(b);
    }
}

proof fn lemma_pair_row_below_end(b: nat)
    requires
        b <= BIC_BITS,
    ensures
        pair_row(b) <= 190,
    decreases BIC_BITS - b,
{
    if b < BIC_BITS {
        lemma_pair_row_below_end(b + 1);
    } else {
        reveal_with_fuel(pair_row, 21);
    }
}

/// Whether `pairs` lists all pairs of the first 20 output bits, in order.
pub open spec fn lists_pairs(pairs: Seq<PairFlips>) -> bool {
    &&& pairs.len() == 190
    &&& forall|i: int, j: int|
        #![trigger pair_index(i, j)]
        0 <= i < j < BIC_BITS ==> {
            &&& 0 <= pair_index(i, j) < 190
            &&& pairs[pair_index(i, j)].i == i
            &&& pairs[pair_index(i, j)].j == j
        }
}

/// Whether a pair's joint counts are those over `n` samples.
pub open spec fn counts_pair(p: PairFlips, len: nat, n: nat) -> bool {
    forall|c: int|
        0 <= c < 4 ==> #[trigger] p.joint@[c] == count(
            n,
            |k: int| pair_code(len, k, p.i as int, p.j as int) == c,
        )
}

/// All pairs, with no counts yet.
fn list_pairs() -> (pairs: Vec<PairFlips>)
    ensures
        lists_pairs(pairs@),
        forall|k: int|
            0 <= k < pairs@.len() ==> {
                &&& (#[trigger] pairs@[k]).i < BIC_BITS
                &&& pairs@[k].j < BIC_BITS
                &&& forall|c: int| 0 <= c < 4 ==> #[trigger] pairs@[k].joint@[c] == 0
            },
{
    let mut pairs: Vec<PairFlips> = Vec::with_capacity(190);
    for i in 0..BIC_BITS
        invariant
            pairs@.len() == pair_row(i as nat),
            forall|k: int|
                0 <= k < pairs@.len() ==> {
                    &&& (#[trigger] pairs@[k]).i < BIC_BITS
                    &&& pairs@[k].j < BIC_BITS
                    &&& forall|c: int| 0 <= c < 4 ==> #[trigger] pairs@[k].joint@[c] == 0
                },
            forall|a: int, b: int|
                #![trigger pair_index(a, b)]
                0 <= a < i && a < b < BIC_BITS ==> {
                    &&& 0 <= pair_index(a, b) < pairs@.len()
                    &&& pairs@[pair_index(a, b)].i == a
                    &&& pairs@[pair_index(a, b)].j == b
                },
    {
        for j in i + 1..BIC_BITS
            invariant
                i < BIC_BITS,
                pairs@.len() == pair_index(i as int, j as int),
                forall|k: int|
                    0 <= k < pairs@.len() ==> {
                        &&& (#[trigger] pairs@[k]).i < BIC_BITS
                        &&& pairs@[k].j < BIC_BITS
                        &&& forall|c: int| 0 <= c < 4 ==> #[trigger] pairs@[k].joint@[c] == 0
                    },
                forall|a: int, b: int|
                    #![trigger pair_index(a, b)]
                    0 <= a <= i && a < b < BIC_BITS && (a < i || b < j) ==> {
                        &&& 0 <= pair_index(a, b) < pairs@.len()
                        &&& pairs@[pair_index(a, b)].i == a
                        &&& pairs@[pair_index(a, b)].j == b
                    },
        {
            proof {
                lemma_pair_row_monotone(0, i as nat);
            }
            pairs.push(PairFlips { i, j, joint: [0u64; 4] });
        }
    }
    proof {
        reveal_with_fuel(pair_row, 21);
    }
    pairs
}

/// Whether a pair is one of the first 20 output bits, counted over `n` samples.
pub open spec fn pair_counted(p: PairFlips, len: nat, n: nat) -> bool {
    &&& p.i < BIC_BITS
    &&& p.j < BIC_BITS
    &&& counts_pair(p, len, n)
}

/// A pair with sample `s` counted too.
fn count_pair(p: PairFlips, h1: &Digest, h2: &Digest, Ghost(len): Ghost<nat>, Ghost(s): Ghost<nat>) -> (r:
    PairFlips)
    requires
        pair_counted(p, len, s),
        s < u64::MAX,
        h1@ == hash_spec(sample(BIC_SEED, len, s)),
        h2@ == hash_spec(flip_first(sample(BIC_SEED, len, s))),
    ensures
        pair_counted(r, len, s + 1),
        r.i == p.i,
        r.j == p.j,
{
    let (i, j): (usize, usize) = (p.i, p.j);
    let mut code: usize = 0;
    if bit_differs(h1, h2, i) {
        code = 2;
    }
    if bit_differs(h1, h2, j) {
        code = code + 1;
    }
    assert(code == pair_code(len, s as int, i as int, j as int));
    let mut joint: [u64; 4] = p.joint;
    proof {
        assert(p.joint@[code as int] == count(
            s,
            |k: int| pair_code(len, k, i as int, j as int) == code,
        ));
        lemma_count_bound(s, |k: int| pair_code(len, k, i as int, j as int) == code);
    }
    joint[code] = joint[code] + 1;
    let r = PairFlips { i, j, joint };
    assert forall|c: int| 0 <= c < 4 implies #[trigger] r.joint@[c] == count(
        s + 1,
        |k: int| pair_code(len, k, r.i as int, r.j as int) == c,
    ) by {
        assert(p.joint@[c] == count(
            s,
            |k: int| pair_code(len, k, p.i as int, p.j as int) == c,
        ));
    }
    r
}

/// All pairs with sample `s` counted too.
fn count_pairs(
    pairs: &mut Vec<PairFlips>,
    h1: &Digest,
    h2: &Digest,
    Ghost(len): Ghost<nat>,
    Ghost(s): Ghost<nat>,
)
    requires
        s < u64::MAX,
        lists_pairs(old(pairs)@),
        forall|k: int|
            0 <= k < old(pairs)@.len() ==> pair_counted(#[trigger] old(pairs)@[k], len, s),
        h1@ == hash_spec(sample(BIC_SEED, len, s)),
        h2@ == hash_spec(flip_first(sample(BIC_SEED, len, s))),
    ensures
        lists_pairs(final(pairs)@),
        forall|k: int|
            0 <= k < final(pairs)@.len() ==> pair_counted(#[trigger] final(pairs)@[k], len, s + 1),
{
    let ghost before = pairs@;
    let n: usize = pairs.len();
    for at in 0..n
        invariant
            s < u64::MAX,
            n == before.len(),
            n == pairs@.len(),
            h1@ == hash_spec(sample(BIC_SEED, len, s)),
            h2@ == hash_spec(flip_first(sample(BIC_SEED, len, s))),
            forall|k: int|
                0 <= k < n ==> #[trigger] pairs@[k].i == before[k].i && pairs@[k].j == before[k].j,
            forall|k: int| at <= k < n ==> pair_counted(#[trigger] pairs@[k], len, s),
            forall|k: int| 0 <= k < at ==> pair_counted(#[trigger] pairs@[k], len, s + 1),
    {
        pairs[at] = count_pair(pairs[at], h1, h2, Ghost(len), Ghost(s));
    }
    assert forall|i: int, j: int|
        #![trigger pair_index(i, j)]
        0 <= i < j < BIC_BITS implies {
        &&& 0 <= pair_index(i, j) < 190
        &&& pairs@[pair_index(i, j)].i == i
        &&& pairs@[pair_index(i, j)].j == j
    } by {
        assert(before[pair_index(i, j)].i == i);
    }
}

/// Bit independence counts: for every pair of the first 20 output bits, how
/// often the two flip together when input bit 0 is flipped.
pub fn bic_joint_counts(num_samples: usize, input_len: usize) -> (pairs: Vec<PairFlips>)
    requires
        num_samples > 0 ==> input_len > 0,
    ensures
        lists_pairs(pairs@),
        forall|k: int|
            0 <= k < pairs@.len() ==> pair_counted(
                #[trigger] pairs@[k],
                input_len as nat,
                num_samples as nat,
            ),
{
    let mut pairs: Vec<PairFlips> = list_pairs();
    let mut lcg = Lcg { state: BIC_SEED };
    for s in 0..num_samples
        invariant
            num_samples > 0 ==> input_len > 0,
            lcg.state == lcg_state(BIC_SEED, s as nat * input_len as nat),
            lists_pairs(pairs@),
            forall|k: int|
                0 <= k < pairs@.len() ==> pair_counted(
                    #[trigger] pairs@[k],
                    input_len as nat,
                    s as nat,
                ),
    {
        let (h1, h2): (Digest, Digest) = draw_pair(
            &mut lcg,
            input_len,
            Ghost(BIC_SEED),
            Ghost(s as nat),
        );
        count_pairs(&mut pairs, &h1, &h2, Ghost(input_len as nat), Ghost(s as nat));
    }
    pairs
}

/// The number of output bits that flip at sample `i`, over the first `n` bytes.
pub open spec fn flipped_weight(h1: Seq<u8>, h2: Seq<u8>, n: nat) -> nat
    decreases n,
{
    if n == 0 {
        0
    } else {
        flipped_weight(h1, h2, (n - 1) as nat) + weight((h1[n - 1] ^ h2[n - 1]) as nat)
    }
}

/// Avalanche weights: for each sample, how many of the 160 output bits flip
/// when input bit 0 is flipped.
pub fn avalanche_weights(num_samples: usize, input_len: usize) -> (weights: Vec<u32>)
    requires
        num_samples > 0 ==> input_len > 0,
    ensures
        weights@.len() == num_samples,
        forall|i: int|
            0 <= i < num_samples ==> #[trigger] weights@[i] == flipped_weight(
                hash_spec(sample(AVALANCHE_SEED, input_len as nat, i as nat)),
                hash_spec(flip_first(sample(AVALANCHE_SEED, input_len as nat, i as nat))),
                DIGEST_BYTES as nat,
            ),
{
    let mut weights: Vec<u32> = Vec::with_capacity(num_samples);
    let mut lcg = Lcg { state: AVALANCHE_SEED };
    for s in 0..num_samples
        invariant
            num_samples > 0 ==> input_len > 0,
            lcg.state == lcg_state(AVALANCHE_SEED, s as nat * input_len as nat),
            weights@.len() == s,
            forall|i: int|
                0 <= i < s ==> #[trigger] weights@[i] == flipped_weight(
                    hash_spec(sample(AVALANCHE_SEED, input_len as nat, i as nat)),
                    hash_spec(flip_first(sample(AVALANCHE_SEED, input_len as nat, i as nat))),
                    DIGEST_BYTES as nat,
                ),
    {
        let (h1, h2): (Digest, Digest) = draw_pair(
            &mut lcg,
            input_len,
            Ghost(AVALANCHE_SEED),
            Ghost(s as nat),
        );
        let mut w: u32 = 0;
        for i in 0..DIGEST_BYTES
            invariant
                w == flipped_weight(h1@, h2@, i as nat),
                w <= 8 * i,
        {
            w = w + hamming_weight(h1[i] ^ h2[i]);
        }
        weights.push(w);
    }
    weights
}

/// Nibble `p` of a digest, high nibble of each byte first.
pub open spec fn digest_nibble(h: Seq<u8>, p: int) -> u8 {
    crate::n4bit::nibbles_of(h)[p]
}

/// Nibble counts: for each of the 40 nibble positions of the digest, how many
/// samples have each value there.
pub fn nibble_counts(num_samples: usize) -> (counts: Vec<[u64; 16]>)
    ensures
        counts@.len() == 40,
        forall|p: int, v: int|
            0 <= p < 40 && 0 <= v < 16 ==> #[trigger] counts@[p]@[v] == count(
                num_samples as nat,
                |i: int|
                    digest_nibble(
                        hash_spec(sample(CHI_SQUARE_SEED, INPUT_BYTES as nat, i as nat)),
                        p,
                    ) == v,
            ),
{
    let mut counts: Vec<[u64; 16]> = Vec::with_capacity(40);
    for p in 0..40usize
        invariant
            counts@.len() == p,
            forall|q: int, v: int| 0 <= q < p && 0 <= v < 16 ==> #[trigger] counts@[q]@[v] == 0,
    {
        counts.push([0u64; 16]);
    }
    let mut lcg = Lcg { state: CHI_SQUARE_SEED };
    for s in 0..num_samples
        invariant
            counts@.len() == 40,
            lcg.state == lcg_state(CHI_SQUARE_SEED, s as nat * INPUT_BYTES as nat),
            forall|p: int, v: int|
                0 <= p < 40 && 0 <= v < 16 ==> #[trigger] counts@[p]@[v] <= s && counts@[p]@[v]
                    == count(
                    s as nat,
                    |i: int|
                        digest_nibble(
                            hash_spec(sample(CHI_SQUARE_SEED, INPUT_BYTES as nat, i as nat)),
                            p,
                        ) == v,
                ),
    {
        let input: Vec<u8> = lcg.fill(
            INPUT_BYTES,
            Ghost(CHI_SQUARE_SEED),
            Ghost(s as nat * INPUT_BYTES as nat),
        );
        assert(s as nat * INPUT_BYTES as nat + INPUT_BYTES == (s + 1) as nat * INPUT_BYTES as nat)
            by (nonlinear_arith);
        let h: Digest = hash(input.as_slice());
        let nibbles: Vec<u8> = crate::n4bit::bytes_to_nibbles(h.as_slice());
        let ghost before = counts@;
        for p in 0..40usize
            invariant
                s < num_samples,
                counts@.len() == 40,
                before.len() == 40,
                nibbles@.len() == 40,
                crate::n4bit::all_nibbles(nibbles@),
                forall|q: int, v: int|
                    0 <= q < 40 && 0 <= v < 16 ==> #[trigger] before[q]@[v] <= s,
                forall|q: int, v: int|
                    0 <= q < p && 0 <= v < 16 ==> #[trigger] counts@[q]@[v] == before[q]@[v]
                        + if nibbles@[q] == v {
                        1int
                    } else {
                        0int
                    },
                forall|q: int| p <= q < 40 ==> #[trigger] counts@[q] == before[q],
        {
            let v: usize = nibbles[p] as usize;
            assert(nibbles@[p as int] < 16);
            let mut row: [u64; 16] = counts[p];
            assert(before[p as int]@[v as int] <= s);
            row[v] = row[v] + 1;
            counts[p] = row;
        }
        assert forall|p: int, v: int| 0 <= p < 40 && 0 <= v < 16 implies #[trigger] counts@[p]@[v]
            <= s + 1 && counts@[p]@[v] == count(
            (s + 1) as nat,
            |i: int|
                digest_nibble(
                    hash_spec(sample(CHI_SQUARE_SEED, INPUT_BYTES as nat, i as nat)),
                    p,
                ) == v,
        ) by {
            assert(before[p]@[v] == count(
                s as nat,
                |i: int|
                    digest_nibble(
                        hash_spec(sample(CHI_SQUARE_SEED, INPUT_BYTES as nat, i as nat)),
                        p,
                    ) == v,
            ));
        }
    }
    counts
}

// ----- searches on a truncated digest -----

/// The first `bits` bits of a digest, as a number.
pub open spec fn leading(h: Seq<u8>, bits: nat) -> nat {
    be_value(h.take(16)) / pow2((128 - bits) as nat)
}

proof fn lemma_be_value_bound(s: Seq<u8>)
    ensures
        be_value(s) < pow2(8 * s.len()),
    decreases s.len(),
{
    lemma2_to64();
    if s.len() > 0 {
        lemma_be_value_bound(s.drop_last());
        vstd::arithmetic::power2::lemma_pow2_adds((8 * (s.len() - 1)) as nat, 8);
    }
}

/// The first `bits` bits of a digest.
fn leading_bits(h: &Digest, bits: usize) -> (r: u128)
    requires
        bits < 128,
    ensures
        r == leading(h@, bits as nat),
{
    let mut v: u128 = 0;
    assert(h@.take(0).len() == 0);
    proof {
        lemma2_to64();
    }
    for i in 0..16usize
        invariant
            v == be_value(h@.take(i as int)),
            v < pow2(8 * i as nat),
    {
        assert(h@.take(i + 1).drop_last() =~= h@.take(i as int));
        proof {
            lemma_be_value_bound(h@.take(i + 1));
            if i < 15 {
                lemma_pow2_strictly_increases((8 * i + 8) as nat, 128);
            }
            lemma_pow2_128();
        }
        v = v * 256 + h[i] as u128;
    }
    if bits == 0 {
        proof {
            lemma_be_value_bound(h@.take(16));
            vstd::arithmetic::div_mod::lemma_basic_div(v as int, pow2(128) as int);
        }
        return 0;
    }
    let mut divisor: u128 = 1;
    for k in 0..128 - bits
        invariant
            1 <= bits < 128,
            divisor == pow2(k as nat),
    {
        proof {
            vstd::arithmetic::power2::lemma_pow2_adds(1, k as nat);
            lemma2_to64();
            if k + 1 < 127 {
                lemma_pow2_strictly_increases((k + 1) as nat, 127);
            }
            lemma_pow2_128();
        }
        divisor = divisor * 2;
    }
    proof {
        lemma_pow2_pos((128 - bits) as nat);
    }
    v / divisor
}

proof fn lemma_pow2_128()
    ensures
        pow2(127) == 0x8000_0000_0000_0000_0000_0000_0000_0000,
        pow2(128) == 0x1_0000_0000_0000_0000_0000_0000_0000_0000,
{
    lemma2_to64();
    vstd::arithmetic::power2::lemma2_to64_rest();
    vstd::arithmetic::power2::lemma_pow2_adds(64, 63);
    vstd::arithmetic::power2::lemma_pow2_adds(64, 64);
}

/// Sample `i` of the collision search.
pub open spec fn birthday_input(i: int) -> Seq<u8> {
    sample(BIRTHDAY_SEED, INPUT_BYTES as nat, i as nat)
}

/// Whether sample `i` collides with an earlier, different sample in the first
/// `bits` bits.
pub open spec fn collides(bits: nat, i: int) -> bool {
    exists|j: int|
        0 <= j < i && #[trigger] birthday_input(j) != birthday_input(i) && leading(
            hash_spec(birthday_input(j)),
            bits,
        ) == leading(hash_spec(birthday_input(i)), bits)
}

/// Whether two inputs are equal.
fn same_input(a: &Vec<u8>, b: &Vec<u8>) -> (same: bool)
    ensures
        same == (a@ == b@),
{
    crate::lamport::winternitz::same_bytes(a.as_slice(), b.as_slice())
}

/// 2 to the power `e`.
fn power_of_two(e: usize) -> (r: u64)
    requires
        e < 64,
    ensures
        r == pow2(e as nat),
{
    let mut r: u64 = 1;
    proof {
        lemma2_to64();
    }
    for k in 0..e
        invariant
            e < 64,
            r == pow2(k as nat),
    {
        proof {
            vstd::arithmetic::power2::lemma_pow2_adds(1, k as nat);
            lemma2_to64();
            vstd::arithmetic::power2::lemma2_to64_rest();
            if k + 1 < 63 {
                lemma_pow2_strictly_increases((k + 1) as nat, 63);
            }
        }
        r = r * 2;
    }
    r
}

/// Birthday collision search on a truncated hash.
///
/// The digest is truncated to `bits` bits, and pseudo-random inputs are hashed
/// until two different ones agree. The first result is how many were hashed,
/// `max_hashes` if none collided; the second is the expected number,
/// 2^(bits/2).
pub fn birthday_collision_search(bits: usize, max_hashes: usize) -> (r: (usize, u64))
    requires
        bits < 128,
    ensures
        r.1 == pow2(bits as nat / 2),
        r.0 <= max_hashes,
        forall|i: int| 0 <= i < r.0 - 1 ==> !#[trigger] collides(bits as nat, i),
        max_hashes > 0 ==> r.0 > 0,
        r.0 > 0 ==> collides(bits as nat, r.0 - 1) || r.0 == max_hashes,
{
    broadcast use vstd::std_specs::hash::group_hash_axioms;

    let expected: u64 = power_of_two(bits / 2);
    let mut seen: HashMap<u128, usize> = HashMap::new();
    let mut inputs: Vec<Vec<u8>> = Vec::new();
    let mut lcg = Lcg { state: BIRTHDAY_SEED };
    for i in 0..max_hashes
        invariant
            bits < 128,
            expected == pow2(bits as nat / 2),
            lcg.state == lcg_state(BIRTHDAY_SEED, i as nat * INPUT_BYTES as nat),
            inputs@.len() == i,
            forall|j: int| 0 <= j < i ==> (#[trigger] inputs@[j])@ == birthday_input(j),
            forall|j: int| 0 <= j < i ==> !#[trigger] collides(bits as nat, j),
            forall|k: u128| #[trigger]
                seen@.contains_key(k) ==> seen@[k] < i && leading(
                    hash_spec(birthday_input(seen@[k] as int)),
                    bits as nat,
                ) == k,
            forall|j: int|
                0 <= j < i ==> seen@.contains_key(
                    leading(hash_spec(#[trigger] birthday_input(j)), bits as nat) as u128,
                ),
    {
        let input: Vec<u8> = lcg.fill(
            INPUT_BYTES,
            Ghost(BIRTHDAY_SEED),
            Ghost(i as nat * INPUT_BYTES as nat),
        );
        assert(i as nat * INPUT_BYTES as nat + INPUT_BYTES == (i + 1) as nat * INPUT_BYTES as nat)
            by (nonlinear_arith);
        assert(input@ == birthday_input(i as int));
        let h: Digest = hash(input.as_slice());
        let key: u128 = leading_bits(&h, bits);
        if let Some(prev) = seen.get(&key) {
            let j: usize = *prev;
            if !same_input(&inputs[j], &input) {
                assert(birthday_input(j as int) != birthday_input(i as int));
                return (i + 1, expected);
            }
        }
        proof {
            if collides(bits as nat, i as int) {
                let j = choose|j: int|
                    0 <= j < i && #[trigger] birthday_input(j) != birthday_input(i as int)
                        && leading(hash_spec(birthday_input(j)), bits as nat) == leading(
                        hash_spec(birthday_input(i as int)),
                        bits as nat,
                    );
                assert(seen@.contains_key(key));
                let k = seen@[key] as int;
                assert(birthday_input(k) == birthday_input(i as int));
                if j < k {
                    assert(collides(bits as nat, k));
                } else {
                    assert(birthday_input(k) != birthday_input(j));
                    assert(collides(bits as nat, j));
                }
                assert(false);
            }
        }
        seen.insert(key, i);
        inputs.push(input);
    }
    (max_hashes, expected)
}

/// The input whose digest the preimage search looks for: the first drawn byte,
/// 48 times.
pub open spec fn preimage_target() -> Seq<u8> {
    Seq::new(INPUT_BYTES as nat, |i: int| drawn_byte(PREIMAGE_SEED, 1))
}

/// Candidate `i` of the preimage search, drawn after the target's byte.
pub open spec fn preimage_input(i: int) -> Seq<u8> {
    drawn_bytes(PREIMAGE_SEED, (1 + i * INPUT_BYTES) as nat, INPUT_BYTES as nat)
}

/// Whether candidate `i` is another preimage of the target's first `bits` bits.
pub open spec fn is_preimage(bits: nat, i: int) -> bool {
    &&& preimage_input(i) != preimage_target()
    &&& leading(hash_spec(preimage_input(i)), bits) == leading(hash_spec(preimage_target()), bits)
}

/// Preimage search on a truncated hash.
///
/// The digest of a fixed input is truncated to `bits` bits, and a preimage is
/// searched by brute force. The first result is how many candidates were
/// hashed, `max_hashes` if none was a preimage; the second is the expected
/// number, 2^bits.
pub fn preimage_search(bits: usize, max_hashes: usize) -> (r: (usize, u64))
    requires
        bits < 64,
    ensures
        r.1 == pow2(bits as nat),
        r.0 <= max_hashes,
        forall|i: int| 0 <= i < r.0 - 1 ==> !#[trigger] is_preimage(bits as nat, i),
        max_hashes > 0 ==> r.0 > 0,
        r.0 > 0 ==> is_preimage(bits as nat, r.0 - 1) || r.0 == max_hashes,
{
    let expected: u64 = power_of_two(bits);
    let mut lcg = Lcg { state: PREIMAGE_SEED };
    let byte: u8 = lcg.draw();
    proof {
        reveal_with_fuel(lcg_state, 2);
    }
    let mut target: Vec<u8> = Vec::with_capacity(INPUT_BYTES);
    for k in 0..INPUT_BYTES
        invariant
            target@.len() == k,
            forall|j: int| 0 <= j < k ==> target@[j] == byte,
    {
        target.push(byte);
    }
    assert(target@ =~= preimage_target());
    let target_hash: Digest = hash(target.as_slice());
    let wanted: u128 = leading_bits(&target_hash, bits);
    for i in 0..max_hashes
        invariant
            bits < 64,
            expected == pow2(bits as nat),
            target@ == preimage_target(),
            wanted == leading(hash_spec(preimage_target()), bits as nat),
            lcg.state == lcg_state(PREIMAGE_SEED, (1 + i * INPUT_BYTES) as nat),
            forall|j: int| 0 <= j < i ==> !#[trigger] is_preimage(bits as nat, j),
    {
        let input: Vec<u8> = lcg.fill(
            INPUT_BYTES,
            Ghost(PREIMAGE_SEED),
            Ghost((1 + i * INPUT_BYTES) as nat),
        );
        assert(1 + i * INPUT_BYTES + INPUT_BYTES == 1 + (i + 1) * INPUT_BYTES) by (nonlinear_arith);
        assert(input@ == preimage_input(i as int));
        let h: Digest = hash(input.as_slice());
        if leading_bits(&h, bits) == wanted && !same_input(&input, &target) {
            return (i + 1, expected);
        }
    }
    (max_hashes, expected)
}

} // verus!
