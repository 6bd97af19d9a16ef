//! A 4-bit-word SPN sponge hash that uses ADD for key mixing.
//!
//! Bitcoin Script's only arithmetic is `OP_ADD`/`OP_SUB` on 4-byte script
//! numbers. A 4-bit S-box (a 16-entry table) and ADD for key mixing keep one
//! round small when it is written out as a Script leaf. The hash is a toy: it
//! has the right structural shape for measuring Script costs and makes no
//! security claim.
//!
//! # Construction
//!
//! - State: 40 nibbles (160 bits), 5 rows of 8 columns.
//! - Rate: 20 nibbles (10 bytes); capacity: 20 nibbles.
//! - Digest: 20 bytes, two squeezes of the rate part.
//!
//! One round adds round constants, applies the S-box, mixes nibble pairs and
//! permutes. To absorb a block, its nibbles are added to the rate part and
//! [`ROUNDS`] rounds run. After the last block, 1 is added to nibble 0 and the
//! rounds run again; the rate part is read, the rounds run once more, and the
//! rate part is read a second time.

pub mod counting;
pub mod cryptanalysis;
pub mod diffusion;
pub mod measure_laws;
pub mod sampling;
pub mod sbox_laws;
pub mod script;
pub mod script_laws;
pub mod sponge_laws;
pub mod tables;

use vstd::arithmetic::power2::{lemma_pow2_adds, lemma_pow2_pos, pow2};
use vstd::prelude::*;

verus! {

/// PRESENT's 4-bit S-box (ISO/IEC 29192-2).
pub const SBOX: [u8; 16] = [
    0xC, 0x5, 0x6, 0xB, 0x9, 0x0, 0xA, 0xD, 0x3, 0xE, 0xF, 0x8, 0x4, 0x7, 0x1, 0x2,
];

/// Inverse S-box.
pub const SBOX_INV: [u8; 16] = [
    0x5, 0xE, 0xF, 0x8, 0xC, 0x1, 0x2, 0xD, 0xB, 0x4, 0x6, 0x3, 0x0, 0x7, 0x9, 0xA,
];

/// State size in nibbles (5 rows of 8 columns, 160 bits).
pub const STATE_NIBBLES: usize = 40;

/// Rate in nibbles (80 bits, 10 bytes).
pub const RATE_NIBBLES: usize = 20;

/// Rate in bytes.
pub const RATE_BYTES: usize = 10;

/// Capacity in nibbles (80 bits, 10 bytes).
pub const CAPACITY_NIBBLES: usize = STATE_NIBBLES - RATE_NIBBLES;

/// SPN rounds per sponge absorption or squeeze.
pub const ROUNDS: usize = 20;

/// Digest size in bytes (160 bits).
pub const DIGEST_BYTES: usize = 20;

/// Columns of the state; nibble `i` is at row `i / 8`, column `i % 8`.
pub const COLS: usize = 8;

/// Rows of the state.
pub const ROWS: usize = 5;

/// A 20-byte digest.
pub type Digest = [u8; DIGEST_BYTES];

/// The internal state: 40 nibbles.
pub type State = [u8; STATE_NIBBLES];

// ----- the round, as a function on sequences -----

/// Every element is a nibble.
pub open spec fn all_nibbles(s: Seq<u8>) -> bool {
    forall|i: int| 0 <= i < s.len() ==> #[trigger] s[i] < 16
}

/// A state value: 40 nibbles.
pub open spec fn is_state(s: Seq<u8>) -> bool {
    s.len() == STATE_NIBBLES && all_nibbles(s)
}

/// Round constant of round `r` at position `i`.
pub open spec fn rc_spec(r: int, i: int) -> int {
    (r * 7 + i * 3 + 1) % 16
}

pub open spec fn add_constants_spec(s: Seq<u8>, round: int) -> Seq<u8> {
    Seq::new(s.len(), |i: int| ((s[i] + rc_spec(round, i)) % 16) as u8)
}

pub open spec fn sbox_layer_spec(s: Seq<u8>) -> Seq<u8> {
    Seq::new(s.len(), |i: int| SBOX@[s[i] as int])
}

/// The left output of the pair mixing: `(a + b) mod 16`.
pub open spec fn mix_left(a: u8, b: u8) -> u8 {
    ((a + b) % 16) as u8
}

/// The right output of the pair mixing: `b` plus the left output, mod 16.
pub open spec fn mix_right(a: u8, b: u8) -> u8 {
    ((b + mix_left(a, b)) % 16) as u8
}

pub open spec fn mix_spec(s: Seq<u8>) -> Seq<u8> {
    Seq::new(
        s.len(),
        |i: int|
            if i % 2 == 0 {
                mix_left(s[i], s[i + 1])
            } else {
                mix_right(s[i - 1], s[i])
            },
    )
}

/// ShiftRows: where position `i` takes its nibble from.
#[verifier::opaque]
pub open spec fn shift_source(i: int) -> int {
    (i / 8) * 8 + (i % 8 + i / 8) % 8
}

/// Column rotation: column `c` moves up by `c mod 5`.
#[verifier::opaque]
pub open spec fn rotate_source(i: int) -> int {
    ((i / 8 + (i % 8) % 5) % 5) * 8 + i % 8
}

/// The swap of the even positions of the rate with those of the capacity.
pub open spec fn swap_source(i: int) -> int {
    if i % 2 == 0 {
        if i < 20 {
            i + 20
        } else {
            i - 20
        }
    } else {
        i
    }
}

/// The input position that lands at output position `i` of the permutation.
pub open spec fn perm_source(i: int) -> int {
    shift_source(rotate_source(swap_source(i)))
}

pub open spec fn permute_spec(s: Seq<u8>) -> Seq<u8> {
    Seq::new(s.len(), |i: int| s[perm_source(i)])
}

/// One round: constants, S-box, mixing, permutation.
#[verifier::opaque]
pub open spec fn round_spec(s: Seq<u8>, round: int) -> Seq<u8> {
    permute_spec(mix_spec(sbox_layer_spec(add_constants_spec(s, round))))
}

/// `n` rounds, numbered from `start`.
pub open spec fn rounds_spec(s: Seq<u8>, start: int, n: nat) -> Seq<u8>
    decreases n,
{
    if n == 0 {
        s
    } else {
        round_spec(rounds_spec(s, start, (n - 1) as nat), start + n - 1)
    }
}

// ----- the sponge -----

/// The nibbles of `bytes`, high nibble first.
pub open spec fn nibbles_of(bytes: Seq<u8>) -> Seq<u8> {
    Seq::new(
        2 * bytes.len(),
        |i: int|
            if i % 2 == 0 {
                (bytes[i / 2] / 16) as u8
            } else {
                (bytes[i / 2] % 16) as u8
            },
    )
}

/// The bytes of a sequence of nibbles, high nibble first.
pub open spec fn bytes_of(nibbles: Seq<u8>) -> Seq<u8> {
    Seq::new(nibbles.len() / 2, |i: int| (nibbles[2 * i] * 16 + nibbles[2 * i + 1]) as u8)
}

/// How many rate blocks `input` fills: one at least.
pub open spec fn block_count(input: Seq<u8>) -> nat {
    if input.len() == 0 {
        1
    } else {
        (input.len() + RATE_BYTES - 1) as nat / RATE_BYTES as nat
    }
}

/// Rate block `k`: 20 nibbles of the input, zeros past its end.
#[verifier::opaque]
pub open spec fn block_spec(input: Seq<u8>, k: int) -> Seq<u8> {
    Seq::new(
        RATE_NIBBLES as nat,
        |i: int|
            {
                let at = RATE_NIBBLES * k + i;
                if at < 2 * input.len() {
                    nibbles_of(input)[at]
                } else {
                    0
                }
            },
    )
}

/// The state after adding a block to the rate part (mod 16).
#[verifier::opaque]
pub open spec fn add_block_spec(s: Seq<u8>, block: Seq<u8>) -> Seq<u8> {
    Seq::new(
        s.len(),
        |i: int|
            if i < RATE_NIBBLES {
                ((s[i] + block[i]) % 16) as u8
            } else {
                s[i]
            },
    )
}

/// The state after absorbing the first `k` blocks of `input`.
pub open spec fn absorb_spec(input: Seq<u8>, k: nat) -> Seq<u8>
    decreases k,
{
    if k == 0 {
        Seq::new(STATE_NIBBLES as nat, |i: int| 0u8)
    } else {
        rounds_spec(
            add_block_spec(absorb_spec(input, (k - 1) as nat), block_spec(input, k - 1)),
            ROUNDS * (k - 1),
            ROUNDS as nat,
        )
    }
}

/// The state at the first squeeze: all blocks absorbed, the padding added.
pub open spec fn squeeze_state(input: Seq<u8>) -> Seq<u8> {
    let s = absorb_spec(input, block_count(input));
    rounds_spec(
        s.update(0, ((s[0] + 1) % 16) as u8),
        (ROUNDS * block_count(input)) as int,
        ROUNDS as nat,
    )
}

/// The digest of `input`.
#[verifier::opaque]
pub open spec fn hash_spec(input: Seq<u8>) -> Seq<u8> {
    let first = squeeze_state(input);
    let second = rounds_spec(first, ROUNDS * block_count(input) + ROUNDS, ROUNDS as nat);
    bytes_of(
        first.subrange(0, RATE_NIBBLES as int) + second.subrange(0, RATE_NIBBLES as int),
    )
}

// ----- facts about one round -----

/// The round constant depends on the round modulo 16 only.
pub proof fn lemma_rc_mod(r: int, i: int)
    ensures
        rc_spec(r, i) == rc_spec(r % 16, i),
{
    assert(r * 7 + i * 3 + 1 == (r % 16) * 7 + i * 3 + 1 + 16 * (7 * (r / 16)));
}

proof fn lemma_rc_mod_position(r: int, i: int)
    ensures
        rc_spec(r, i) == rc_spec(r, i % 16),
{
    assert(r * 7 + i * 3 + 1 == r * 7 + (i % 16) * 3 + 1 + 16 * (3 * (i / 16)));
}

/// Rounds that lie a multiple of 16 apart are the same round.
proof fn lemma_round_congruent(s: Seq<u8>, round: int, k: int)
    ensures
        round_spec(s, round + 16 * k) == round_spec(s, round),
{
    assert forall|i: int| #[trigger] rc_spec(round + 16 * k, i) == rc_spec(round, i) by {
        assert((round + 16 * k) * 7 + i * 3 + 1 == round * 7 + i * 3 + 1 + 16 * (7 * k));
    }
    assert(add_constants_spec(s, round + 16 * k) =~= add_constants_spec(s, round));
    reveal(round_spec);
}

/// Rounds that start at numbers equal modulo 16 are the same rounds.
proof fn lemma_rounds_mod(s: Seq<u8>, start: int, n: nat)
    ensures
        rounds_spec(s, start, n) == rounds_spec(s, start % 16, n),
    decreases n,
{
    if n > 0 {
        lemma_rounds_mod(s, start, (n - 1) as nat);
        let p = rounds_spec(s, start, (n - 1) as nat);
        lemma_round_congruent(p, start % 16 + n - 1, start / 16);
        assert(start % 16 + n - 1 + 16 * (start / 16) == start + n - 1);
    }
}

/// The permutation takes every position from within the state.
pub proof fn lemma_perm_source_range(i: int)
    requires
        0 <= i < STATE_NIBBLES,
    ensures
        0 <= perm_source(i) < STATE_NIBBLES,
{
    reveal(shift_source);
    reveal(rotate_source);
}

/// A round turns 40 bytes into 40 nibbles.
pub proof fn lemma_round_is_state(s: Seq<u8>, round: int)
    requires
        s.len() == STATE_NIBBLES,
    ensures
        is_state(add_constants_spec(s, round)),
        is_state(sbox_layer_spec(add_constants_spec(s, round))),
        is_state(round_spec(s, round)),
{
    reveal(round_spec);
    let a = add_constants_spec(s, round);
    let b = sbox_layer_spec(a);
    assert forall|i: int| 0 <= i < b.len() implies #[trigger] b[i] < 16 by {
        assert(a[i] < 16);
    }
    let c = mix_spec(b);
    let d = permute_spec(c);
    assert forall|i: int| 0 <= i < d.len() implies #[trigger] d[i] < 16 by {
        lemma_perm_source_range(i);
        assert(c[perm_source(i)] < 16);
    }
}

// ----- the executable round -----

/// Round constant for round `r`, position `i`.
pub fn rc(r: usize, i: usize) -> (c: u8)
    ensures
        c == rc_spec(r as int, i as int),
        c < 16,
{
    proof {
        lemma_rc_mod(r as int, i as int);
        lemma_rc_mod_position(r as int % 16, i as int);
    }
    let c: usize = ((r % 16) * 7 + (i % 16) * 3 + 1) % 16;
    c as u8
}

/// Apply the S-box to every nibble in place.
pub fn sbox_layer(state: &mut State)
    requires
        all_nibbles(old(state)@),
    ensures
        final(state)@ == sbox_layer_spec(old(state)@),
{
    let ghost s0 = state@;
    for k in 0..STATE_NIBBLES
        invariant
            s0.len() == STATE_NIBBLES,
            all_nibbles(s0),
            forall|i: int| 0 <= i < k ==> state@[i] == sbox_layer_spec(s0)[i],
            forall|i: int| k <= i < STATE_NIBBLES ==> state@[i] == s0[i],
    {
        assert(s0[k as int] < 16);
        state[k] = SBOX[state[k] as usize];
    }
    assert(state@ =~= sbox_layer_spec(s0));
}

/// ADD round constants to every nibble (mod 16), in place.
pub fn add_constants(state: &mut State, round: usize)
    ensures
        final(state)@ == add_constants_spec(old(state)@, round as int),
{
    let ghost s0 = state@;
    for k in 0..STATE_NIBBLES
        invariant
            s0.len() == STATE_NIBBLES,
            forall|i: int| 0 <= i < k ==> state@[i] == add_constants_spec(s0, round as int)[i],
            forall|i: int| k <= i < STATE_NIBBLES ==> state@[i] == s0[i],
    {
        let sum: u16 = (state[k] as u16 + rc(round, k) as u16) % 16;
        state[k] = sum as u8;
    }
    assert(state@ =~= add_constants_spec(s0, round as int));
}

/// Feistel ADD mixing on nibble pairs: for each pair (2i, 2i+1),
/// `new[2i] = (a + b) mod 16` and `new[2i+1] = (b + new[2i]) mod 16`.
///
/// A difference in the left input alone affects both outputs. One in the right
/// input alone affects the left output, and the right one too unless it is 8.
pub fn mix(state: &mut State)
    ensures
        final(state)@ == mix_spec(old(state)@),
{
    let ghost s0 = state@;
    for k in 0..STATE_NIBBLES / 2
        invariant
            s0.len() == STATE_NIBBLES,
            forall|i: int| 0 <= i < 2 * k ==> state@[i] == mix_spec(s0)[i],
            forall|i: int| 2 * k <= i < STATE_NIBBLES ==> state@[i] == s0[i],
    {
        let a: u16 = state[2 * k] as u16;
        let b: u16 = state[2 * k + 1] as u16;
        let new_a: u16 = (a + b) % 16;
        let new_b: u16 = (b + new_a) % 16;
        state[2 * k] = new_a as u8;
        state[2 * k + 1] = new_b as u8;
    }
    assert(state@ =~= mix_spec(s0));
}

/// Permutation: ShiftRows, column rotation, cross-boundary swap, in place.
///
/// The swap of rate and capacity nibbles carries changes out of the capacity
/// rows, which the column rotation alone can keep there.
pub fn permute(state: &mut State)
    ensures
        final(state)@ == permute_spec(old(state)@),
{
    let ghost s0 = state@;
    let mut shifted: State = [0u8; STATE_NIBBLES];
    for i in 0..STATE_NIBBLES
        invariant
            s0 == state@,
            s0.len() == STATE_NIBBLES,
            forall|j: int| 0 <= j < i ==> shifted@[j] == s0[shift_source(j)],
    {
        reveal(shift_source);
        let r: usize = i / COLS;
        let c: usize = i % COLS;
        shifted[i] = state[r * COLS + (c + r) % COLS];
    }
    let mut rotated: State = [0u8; STATE_NIBBLES];
    for i in 0..STATE_NIBBLES
        invariant
            forall|j: int| 0 <= j < STATE_NIBBLES ==> shifted@[j] == s0[shift_source(j)],
            forall|j: int|
                0 <= j < i ==> rotated@[j] == s0[shift_source(rotate_source(j))],
    {
        reveal(rotate_source);
        let r: usize = i / COLS;
        let c: usize = i % COLS;
        rotated[i] = shifted[((r + c % ROWS) % ROWS) * COLS + c];
    }
    for i in 0..STATE_NIBBLES
        invariant
            s0.len() == STATE_NIBBLES,
            forall|j: int|
                0 <= j < STATE_NIBBLES ==> rotated@[j] == s0[shift_source(rotate_source(j))],
            forall|j: int| 0 <= j < i ==> state@[j] == permute_spec(s0)[j],
    {
        if i % 2 == 1 {
            state[i] = rotated[i];
        } else if i < RATE_NIBBLES {
            state[i] = rotated[i + RATE_NIBBLES];
        } else {
            state[i] = rotated[i - RATE_NIBBLES];
        }
    }
    assert(state@ =~= permute_spec(s0));
}

/// One SPN round: add constants, S-box, mix, permute, in place.
pub fn spn_round(state: &mut State, round: usize)
    ensures
        final(state)@ == round_spec(old(state)@, round as int),
        is_state(final(state)@),
{
    proof {
        lemma_round_is_state(state@, round as int);
        reveal(round_spec);
    }
    add_constants(state, round);
    sbox_layer(state);
    mix(state);
    permute(state);
}

/// Apply `ROUNDS` SPN rounds to the state.
fn apply_rounds(state: &mut State, starting_round: usize)
    requires
        starting_round + ROUNDS <= usize::MAX,
    ensures
        final(state)@ == rounds_spec(old(state)@, starting_round as int, ROUNDS as nat),
        is_state(final(state)@),
{
    let ghost s0 = state@;
    for r in 0..ROUNDS
        invariant
            starting_round + ROUNDS <= usize::MAX,
            state@ == rounds_spec(s0, starting_round as int, r as nat),
            r > 0 ==> is_state(state@),
    {
        spn_round(state, starting_round + r);
    }
}

// ----- the executable sponge -----

/// The nibbles of `bytes`, high nibble first.
pub fn bytes_to_nibbles(bytes: &[u8]) -> (nibbles: Vec<u8>)
    requires
        2 * bytes@.len() <= usize::MAX,
    ensures
        nibbles@ == nibbles_of(bytes@),
        all_nibbles(nibbles@),
{
    let mut nibbles: Vec<u8> = Vec::with_capacity(bytes.len() * 2);
    for k in 0..bytes.len()
        invariant
            nibbles@.len() == 2 * k,
            forall|i: int| 0 <= i < 2 * k ==> nibbles@[i] == nibbles_of(bytes@)[i],
    {
        nibbles.push(bytes[k] / 16);
        nibbles.push(bytes[k] % 16);
    }
    assert(nibbles@ =~= nibbles_of(bytes@));
    nibbles
}

/// Pack nibbles into bytes, high nibble first.
pub fn nibbles_to_bytes(nibbles: &[u8]) -> (bytes: Vec<u8>)
    requires
        all_nibbles(nibbles@),
        nibbles@.len() % 2 == 0,
    ensures
        bytes@ == bytes_of(nibbles@),
{
    let len: usize = nibbles.len();
    let n: usize = len / 2;
    let mut bytes: Vec<u8> = Vec::with_capacity(n);
    for k in 0..n
        invariant
            len == nibbles@.len(),
            n == len / 2,
            all_nibbles(nibbles@),
            bytes@.len() == k,
            forall|i: int| 0 <= i < k ==> bytes@[i] == bytes_of(nibbles@)[i],
    {
        assert(nibbles@[2 * k as int] < 16 && nibbles@[2 * k + 1] < 16);
        bytes.push(nibbles[2 * k] * 16 + nibbles[2 * k + 1]);
    }
    assert(bytes@ =~= bytes_of(nibbles@));
    bytes
}

/// Split the nibbles of `input` into rate blocks, the last padded with zeros.
pub fn rate_blocks(input: &[u8]) -> (blocks: Vec<[u8; RATE_NIBBLES]>)
    ensures
        blocks@.len() == block_count(input@),
        forall|k: int| 0 <= k < blocks@.len() ==> #[trigger] blocks@[k]@ == block_spec(input@, k),
{
    let mut blocks: Vec<[u8; RATE_NIBBLES]> = Vec::new();
    let mut start: usize = 0;
    while start < input.len()
        invariant
            start <= input@.len(),
            start < input@.len() ==> start == RATE_BYTES * blocks@.len(),
            start == input@.len() ==> blocks@.len() == (start + RATE_BYTES - 1) / RATE_BYTES as int,
            forall|k: int|
                0 <= k < blocks@.len() ==> #[trigger] blocks@[k]@ == block_spec(input@, k),
        decreases input@.len() - start,
    {
        let end: usize = if input.len() - start < RATE_BYTES {
            input.len()
        } else {
            start + RATE_BYTES
        };
        let nibbles: Vec<u8> = bytes_to_nibbles(&input[start..end]);
        let mut block: [u8; RATE_NIBBLES] = [0u8; RATE_NIBBLES];
        let ghost n = blocks@.len() as int;
        for i in 0..nibbles.len()
            invariant
                end <= input@.len(),
                start <= end <= start + RATE_BYTES,
                nibbles@ == nibbles_of(input@.subrange(start as int, end as int)),
                start == RATE_BYTES * n,
                end < start + RATE_BYTES ==> end == input@.len(),
                forall|j: int| 0 <= j < i ==> block@[j] == block_spec(input@, n)[j],
                forall|j: int| i <= j < RATE_NIBBLES ==> block@[j] == 0,
        {
            reveal(block_spec);
            block[i] = nibbles[i];
        }
        reveal(block_spec);
        assert(block@ =~= block_spec(input@, n));
        blocks.push(block);
        start = end;
    }
    if blocks.len() == 0 {
        reveal(block_spec);
        let block: [u8; RATE_NIBBLES] = [0u8; RATE_NIBBLES];
        assert(block@ =~= block_spec(input@, 0));
        blocks.push(block);
    }
    blocks
}

/// ADD a block's nibbles to the rate part (mod 16).
fn add_block(state: &mut State, block: &[u8; RATE_NIBBLES])
    ensures
        final(state)@ == add_block_spec(old(state)@, block@),
{
    let ghost s0 = state@;
    reveal(add_block_spec);
    for i in 0..RATE_NIBBLES
        invariant
            s0.len() == STATE_NIBBLES,
            forall|j: int| 0 <= j < i ==> state@[j] == add_block_spec(s0, block@)[j],
            forall|j: int| i <= j < STATE_NIBBLES ==> state@[j] == s0[j],
    {
        reveal(add_block_spec);
        let sum: u16 = (state[i] as u16 + block[i] as u16) % 16;
        state[i] = sum as u8;
    }
    assert(state@ =~= add_block_spec(s0, block@));
}

/// The round number after one more absorption.
proof fn lemma_next_round_number(k: int)
    ensures
        (ROUNDS * (k + 1)) % 16 == ((ROUNDS * k) % 16 + ROUNDS) % 16,
{
}

/// Absorb all of `input`. The second result is the number of the next round
/// modulo 16: the round constants depend on nothing more.
fn absorb(input: &[u8]) -> (r: (State, usize))
    ensures
        r.0@ == absorb_spec(input@, block_count(input@)),
        r.1 == (ROUNDS * block_count(input@)) % 16,
{
    let blocks: Vec<[u8; RATE_NIBBLES]> = rate_blocks(input);
    let mut state: State = [0u8; STATE_NIBBLES];
    assert(state@ =~= absorb_spec(input@, 0));
    let mut round_counter: usize = 0;
    for k in 0..blocks.len()
        invariant
            blocks@.len() == block_count(input@),
            forall|j: int|
                0 <= j < blocks@.len() ==> #[trigger] blocks@[j]@ == block_spec(input@, j),
            state@ == absorb_spec(input@, k as nat),
            round_counter == (ROUNDS * k) % 16,
    {
        let ghost before = state@;
        add_block(&mut state, &blocks[k]);
        assert(state@ == add_block_spec(before, block_spec(input@, k as int)));
        proof {
            lemma_rounds_mod(state@, ROUNDS * k, ROUNDS as nat);
        }
        apply_rounds(&mut state, round_counter);
        assert(state@ == absorb_spec(input@, (k + 1) as nat));
        proof {
            lemma_next_round_number(k as int);
        }
        round_counter = (round_counter + ROUNDS) % 16;
    }
    (state, round_counter)
}

/// Append the rate part of `state` to `output`.
fn squeeze(state: &State, output: &mut Vec<u8>)
    ensures
        final(output)@ == old(output)@ + state@.subrange(0, RATE_NIBBLES as int),
{
    let ghost before = output@;
    for i in 0..RATE_NIBBLES
        invariant
            output@ =~= before + state@.subrange(0, i as int),
    {
        output.push(state[i]);
    }
}

/// Hash an arbitrary-length input to a 160-bit (20-byte) digest.
pub fn hash(input: &[u8]) -> (digest: Digest)
    ensures
        digest@ == hash_spec(input@),
{
    let ghost n = block_count(input@);
    let (mut state, absorbed_rounds): (State, usize) = absorb(input);
    let ghost absorbed = state@;
    let first_nibble: u16 = (state[0] as u16 + 1) % 16;
    state[0] = first_nibble as u8;
    proof {
        assert(state@ =~= absorbed.update(0, ((absorbed[0] + 1) % 16) as u8));
        lemma_rounds_mod(state@, (ROUNDS * n) as int, ROUNDS as nat);
    }
    apply_rounds(&mut state, absorbed_rounds);
    let ghost first = state@;
    let mut output: Vec<u8> = Vec::with_capacity(STATE_NIBBLES);
    squeeze(&state, &mut output);
    proof {
        lemma_rounds_mod(state@, ROUNDS * n + ROUNDS, ROUNDS as nat);
    }
    apply_rounds(&mut state, (absorbed_rounds + ROUNDS) % 16);
    squeeze(&state, &mut output);
    assert(output@ =~= first.subrange(0, RATE_NIBBLES as int) + state@.subrange(
        0,
        RATE_NIBBLES as int,
    ));
    let bytes: Vec<u8> = nibbles_to_bytes(&output);
    let mut digest: Digest = [0u8; DIGEST_BYTES];
    for i in 0..DIGEST_BYTES
        invariant
            bytes@.len() == DIGEST_BYTES,
            forall|j: int| 0 <= j < i ==> digest@[j] == bytes@[j],
    {
        digest[i] = bytes[i];
    }
    assert(digest@ =~= bytes@);
    reveal(hash_spec);
    digest
}

// ----- targets -----

/// The number that `s` writes in base 256, most significant byte first.
pub open spec fn be_value(s: Seq<u8>) -> nat
    decreases s.len(),
{
    if s.len() == 0 {
        0
    } else {
        be_value(s.drop_last()) * 256 + s.last() as nat
    }
}

/// The target of a difficulty: the largest 160-bit number with `bits` leading
/// zero bits.
pub open spec fn target_value(bits: nat) -> int {
    if bits <= 160 {
        pow2((160 - bits) as nat) - 1
    } else {
        0
    }
}

/// The first byte that differs decides the order.
pub proof fn lemma_be_order(a: Seq<u8>, b: Seq<u8>, i: int)
    requires
        a.len() == b.len(),
        0 <= i < a.len(),
        forall|j: int| 0 <= j < i ==> a[j] == b[j],
        a[i] < b[i],
    ensures
        be_value(a) < be_value(b),
    decreases a.len(),
{
    if i == a.len() - 1 {
        assert(a.drop_last() =~= b.drop_last());
    } else {
        lemma_be_order(a.drop_last(), b.drop_last(), i);
    }
}

/// Check whether a digest meets a target: digest <= target, both read as
/// big-endian numbers.
pub fn meets_target(digest: &Digest, target: &[u8; DIGEST_BYTES]) -> (met: bool)
    ensures
        met == (be_value(digest@) <= be_value(target@)),
{
    for i in 0..DIGEST_BYTES
        invariant
            forall|j: int| 0 <= j < i ==> digest@[j] == target@[j],
    {
        if digest[i] != target[i] {
            proof {
                if digest@[i as int] < target@[i as int] {
                    lemma_be_order(digest@, target@, i as int);
                } else {
                    lemma_be_order(target@, digest@, i as int);
                }
            }
            return digest[i] < target[i];
        }
    }
    assert(digest@ =~= target@);
    true
}

/// The partial byte of a target.
proof fn lemma_partial_byte(rem: u32)
    requires
        rem < 8,
    ensures
        (0xFFu8 >> rem) + 1 == pow2((8 - rem) as nat),
{
    assert(0xFFu8 >> 0u32 == 255 && 0xFFu8 >> 1u32 == 127 && 0xFFu8 >> 2u32 == 63 && 0xFFu8 >> 3u32
        == 31 && 0xFFu8 >> 4u32 == 15 && 0xFFu8 >> 5u32 == 7 && 0xFFu8 >> 6u32 == 3 && 0xFFu8
        >> 7u32 == 1) by (bit_vector);
    reveal_with_fuel(vstd::arithmetic::power::pow, 9);
    vstd::arithmetic::power2::lemma2_to64();
}

/// Zeros, one partial byte, then bytes of ones: the number is a power of two
/// less one.
proof fn lemma_target_prefix(s: Seq<u8>, full: int, rem: u32, n: int)
    requires
        0 <= full < s.len(),
        rem < 8,
        0 <= n <= s.len(),
        forall|j: int| 0 <= j < full ==> s[j] == 0,
        s[full] == 0xFFu8 >> rem,
        forall|j: int| full < j < s.len() ==> s[j] == 0xFF,
    ensures
        n <= full ==> be_value(s.subrange(0, n)) == 0,
        n > full ==> be_value(s.subrange(0, n)) + 1 == pow2((8 * (n - full) - rem) as nat),
    decreases n,
{
    if n > 0 {
        lemma_target_prefix(s, full, rem, n - 1);
        assert(s.subrange(0, n).drop_last() =~= s.subrange(0, n - 1));
        lemma_partial_byte(rem);
        if n > full + 1 {
            lemma_pow2_adds((8 * (n - 1 - full) - rem) as nat, 8);
            vstd::arithmetic::power2::lemma2_to64();
        }
    }
}

/// Convert a number of leading zero bits to a 20-byte target (big-endian).
pub fn target_from_difficulty(bits: u32) -> (target: [u8; DIGEST_BYTES])
    ensures
        be_value(target@) == target_value(bits as nat),
{
    let mut target: [u8; DIGEST_BYTES] = [0u8; DIGEST_BYTES];
    let full_bytes: usize = (bits / 8) as usize;
    let rem: u32 = bits % 8;
    if full_bytes < DIGEST_BYTES {
        target[full_bytes] = 0xFFu8 >> rem;
        for i in full_bytes + 1..DIGEST_BYTES
            invariant
                full_bytes < DIGEST_BYTES,
                forall|j: int| 0 <= j < full_bytes ==> target@[j] == 0,
                target@[full_bytes as int] == 0xFFu8 >> rem,
                forall|j: int| full_bytes < j < i ==> target@[j] == 0xFF,
        {
            target[i] = 0xFF;
        }
        proof {
            lemma_target_prefix(target@, full_bytes as int, rem, DIGEST_BYTES as int);
            assert(target@.subrange(0, DIGEST_BYTES as int) =~= target@);
        }
    } else {
        proof {
            lemma_zero_value(target@);
            vstd::arithmetic::power2::lemma2_to64();
        }
    }
    target
}

proof fn lemma_zero_value(s: Seq<u8>)
    requires
        forall|j: int| 0 <= j < s.len() ==> s[j] == 0,
    ensures
        be_value(s) == 0,
    decreases s.len(),
{
    if s.len() > 0 {
        lemma_zero_value(s.drop_last());
    }
}

// ----- laws -----

/// The bit at place `i` of a byte string, counted from the most significant
/// bit of the first byte.
pub open spec fn bit_at(s: Seq<u8>, i: int) -> bool {
    (s[i / 8] as nat / pow2((7 - i % 8) as nat)) % 2 == 1
}

/// The S-box and its inverse undo each other on every nibble.
pub proof fn law_sbox_inverse(x: u8)
    requires
        x < 16,
    ensures
        SBOX@[x as int] < 16,
        SBOX_INV@[x as int] < 16,
        SBOX_INV@[SBOX@[x as int] as int] == x,
        SBOX@[SBOX_INV@[x as int] as int] == x,
{
}

/// The pair mixing is invertible: the right input is the difference of the
/// outputs, the left input is the left output less the right input.
pub proof fn law_mix_invertible(a: u8, b: u8)
    requires
        a < 16,
        b < 16,
    ensures
        b == (mix_right(a, b) - mix_left(a, b)) % 16,
        a == (mix_left(a, b) - b) % 16,
{
}

/// Where ShiftRows moves position `i` to.
#[verifier::opaque]
pub open spec fn shift_target(i: int) -> int {
    (i / 8) * 8 + (i % 8 - i / 8) % 8
}

/// Where the column rotation moves position `i` to.
#[verifier::opaque]
pub open spec fn rotate_target(i: int) -> int {
    ((i / 8 - (i % 8) % 5) % 5) * 8 + i % 8
}

/// The output position to which the permutation moves input position `i`.
pub open spec fn perm_target(i: int) -> int {
    swap_source(rotate_target(shift_target(i)))
}

proof fn lemma_shift_inverse(i: int)
    requires
        0 <= i < STATE_NIBBLES,
    ensures
        0 <= shift_source(i) < STATE_NIBBLES,
        0 <= shift_target(i) < STATE_NIBBLES,
        shift_source(shift_target(i)) == i,
        shift_target(shift_source(i)) == i,
{
    reveal(shift_source);
    reveal(shift_target);
}

proof fn lemma_rotate_inverse(i: int)
    requires
        0 <= i < STATE_NIBBLES,
    ensures
        0 <= rotate_source(i) < STATE_NIBBLES,
        0 <= rotate_target(i) < STATE_NIBBLES,
        rotate_source(rotate_target(i)) == i,
        rotate_target(rotate_source(i)) == i,
{
    reveal(rotate_source);
    reveal(rotate_target);
}

/// The permutation moves every position to exactly one other: nothing is lost
/// and nothing is doubled.
pub proof fn law_permutation(i: int)
    requires
        0 <= i < STATE_NIBBLES,
    ensures
        0 <= perm_source(i) < STATE_NIBBLES,
        0 <= perm_target(i) < STATE_NIBBLES,
        perm_source(perm_target(i)) == i,
        perm_target(perm_source(i)) == i,
{
    lemma_shift_inverse(i);
    lemma_rotate_inverse(shift_target(i));
    lemma_rotate_inverse(swap_source(i));
    lemma_shift_inverse(rotate_source(swap_source(i)));
}

/// The round constants change different nibbles into different nibbles.
proof fn lemma_constants_one_to_one(s: Seq<u8>, t: Seq<u8>, round: int, i: int)
    requires
        is_state(s),
        is_state(t),
        0 <= i < STATE_NIBBLES,
        add_constants_spec(s, round)[i] == add_constants_spec(t, round)[i],
    ensures
        s[i] == t[i],
{
    assert((s[i] + rc_spec(round, i)) % 16 == (t[i] + rc_spec(round, i)) % 16);
}

/// The S-box changes different nibbles into different nibbles.
proof fn lemma_sbox_one_to_one(s: Seq<u8>, t: Seq<u8>, i: int)
    requires
        is_state(s),
        is_state(t),
        0 <= i < STATE_NIBBLES,
        sbox_layer_spec(s)[i] == sbox_layer_spec(t)[i],
    ensures
        s[i] == t[i],
{
    law_sbox_inverse(s[i]);
    law_sbox_inverse(t[i]);
}

/// The mixing changes different pairs into different pairs.
proof fn lemma_mix_one_to_one(s: Seq<u8>, t: Seq<u8>, i: int)
    requires
        is_state(s),
        is_state(t),
        0 <= i < STATE_NIBBLES,
        mix_spec(s) == mix_spec(t),
    ensures
        s[i] == t[i],
{
    let k = i - i % 2;
    let (u, v) = (mix_spec(s), mix_spec(t));
    assert(k % 2 == 0 && (k + 1) % 2 == 1);
    assert(u[k] == mix_left(s[k], s[k + 1]) && v[k] == mix_left(t[k], t[k + 1]));
    assert(u[k + 1] == mix_right(s[k], s[k + 1]) && v[k + 1] == mix_right(t[k], t[k + 1]));
    law_mix_invertible(s[k], s[k + 1]);
    law_mix_invertible(t[k], t[k + 1]);
}

/// The permutation moves different states to different states.
proof fn lemma_permute_one_to_one(s: Seq<u8>, t: Seq<u8>, i: int)
    requires
        s.len() == STATE_NIBBLES,
        t.len() == STATE_NIBBLES,
        0 <= i < STATE_NIBBLES,
        permute_spec(s) == permute_spec(t),
    ensures
        s[i] == t[i],
{
    law_permutation(i);
    let k = perm_target(i);
    assert(permute_spec(s)[k] == s[perm_source(k)]);
    assert(permute_spec(t)[k] == t[perm_source(k)]);
}

/// A round is one to one on states: it loses nothing of the state it is given.
pub proof fn law_round_injective(s: Seq<u8>, t: Seq<u8>, round: int)
    requires
        is_state(s),
        is_state(t),
        round_spec(s, round) == round_spec(t, round),
    ensures
        s == t,
{
    reveal(round_spec);
    let (a, b) = (add_constants_spec(s, round), add_constants_spec(t, round));
    let (c, d) = (sbox_layer_spec(a), sbox_layer_spec(b));
    let (e, f) = (mix_spec(c), mix_spec(d));
    lemma_round_is_state(s, round);
    lemma_round_is_state(t, round);
    assert(e =~= f) by {
        assert forall|i: int| 0 <= i < STATE_NIBBLES implies e[i] == f[i] by {
            lemma_permute_one_to_one(e, f, i);
        }
    }
    assert forall|i: int| 0 <= i < STATE_NIBBLES implies #[trigger] s[i] == t[i] by {
        lemma_mix_one_to_one(c, d, i);
        lemma_sbox_one_to_one(a, b, i);
        lemma_constants_one_to_one(s, t, round, i);
    }
    assert(s =~= t);
}

/// The rounds repeat after 16: their constants do.
pub proof fn law_round_period(s: Seq<u8>, round: int)
    ensures
        round_spec(s, round + 16) == round_spec(s, round),
{
    lemma_round_congruent(s, round, 1);
}

/// The leading bits of one byte.
proof fn lemma_byte_leading_zeros(s: Seq<u8>, n: int, r: int)
    requires
        s.len() == n + 1,
        0 <= n,
        0 <= r <= 8,
    ensures
        (forall|i: int| 8 * n <= i < 8 * n + r ==> !bit_at(s, i)) <==> s[n] < pow2((8 - r) as nat),
    decreases r,
{
    vstd::arithmetic::power2::lemma2_to64();
    if r > 0 {
        lemma_byte_leading_zeros(s, n, r - 1);
        let i = 8 * n + r - 1;
        assert(i / 8 == n && i % 8 == r - 1);
        let x: u8 = s[n];
        assert(x < pow2((8 - r) as nat) <==> (x < pow2((9 - r) as nat) && !bit_at(s, i))) by {
            let d = pow2((7 - i % 8) as nat);
            if r == 1 {
                assert(d == 128 && x as nat / d == x as nat / 128);
            } else if r == 2 {
                assert(d == 64 && x as nat / d == x as nat / 64);
            } else if r == 3 {
                assert(d == 32 && x as nat / d == x as nat / 32);
            } else if r == 4 {
                assert(d == 16 && x as nat / d == x as nat / 16);
            } else if r == 5 {
                assert(d == 8 && x as nat / d == x as nat / 8);
            } else if r == 6 {
                assert(d == 4 && x as nat / d == x as nat / 4);
            } else if r == 7 {
                assert(d == 2 && x as nat / d == x as nat / 2);
            } else {
                assert(d == 1 && x as nat / d == x as nat / 1);
            }
        }
    }
}

/// A byte string starts with `k` zero bits exactly when its number is below
/// two to the number of bits that follow.
pub proof fn law_leading_zeros(s: Seq<u8>, k: int)
    requires
        0 <= k <= 8 * s.len(),
    ensures
        (forall|i: int| 0 <= i < k ==> !bit_at(s, i)) <==> be_value(s) < pow2(
            (8 * s.len() - k) as nat,
        ),
    decreases s.len(),
{
    vstd::arithmetic::power2::lemma2_to64();
    if s.len() > 0 {
        let n = s.len() - 1;
        let p = s.drop_last();
        assert forall|i: int| 0 <= i < 8 * n implies bit_at(p, i) == bit_at(s, i) by {
            assert(p[i / 8] == s[i / 8]);
        }
        if k <= 8 * n {
            law_leading_zeros(p, k);
            lemma_pow2_adds((8 * n - k) as nat, 8);
        } else {
            law_leading_zeros(p, 8 * n);
            lemma_byte_leading_zeros(s, n, k - 8 * n);
            lemma_pow2_pos((8 * s.len() - k) as nat);
            lemma_pow2_adds((8 * s.len() - k) as nat, (k - 8 * n) as nat);
            assert(pow2((8 * s.len() - k) as nat) <= 128) by {
                let e = 8 * s.len() - k;
                if e == 0 {
                } else if e == 1 {
                } else if e == 2 {
                } else if e == 3 {
                } else if e == 4 {
                } else if e == 5 {
                } else if e == 6 {
                } else {
                    assert(e == 7);
                }
            }
        }
    }
}

/// A digest meets the target of a difficulty exactly when it starts with that
/// many zero bits.
pub proof fn law_target_counts_leading_zeros(digest: Seq<u8>, bits: nat)
    requires
        digest.len() == DIGEST_BYTES,
        bits <= 160,
    ensures
        be_value(digest) <= target_value(bits) <==> (forall|i: int|
            0 <= i < bits ==> !bit_at(digest, i)),
{
    law_leading_zeros(digest, bits as int);
}

} // verus!
