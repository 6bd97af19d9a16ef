//! What the sponge does with a message, nibble by nibble, and that it loses nothing
//! of it on the way to the squeeze.

use vstd::prelude::*;

use crate::n4bit::{
    absorb_spec, add_block_spec, be_value, block_count, block_spec, bytes_of, hash_spec, is_state,
    law_permutation, law_round_injective, lemma_round_is_state, mix_left, mix_right, perm_target,
    rc_spec, rotate_target, round_spec, rounds_spec, shift_target, squeeze_state, target_value,
    RATE_NIBBLES, ROUNDS, SBOX, STATE_NIBBLES,
};

verus! {

// ----- rounds -----

/// The round constants start at 1, and go up by 7 from round to round and by 3 from
/// place to place, modulo 16.
pub proof fn law_round_constants(r: int, i: int)
    ensures
        rc_spec(0, 0) == 1,
        rc_spec(r + 1, i) == (rc_spec(r, i) + 7) % 16,
        rc_spec(r, i + 1) == (rc_spec(r, i) + 3) % 16,
        0 <= rc_spec(r, i) < 16,
{
}

/// Where the permutation moves the nibble in row `r` and column `c`: row `r` turns
/// left by `r`, then column `d` turns up by `d mod 5`, then the even places of the
/// rate and of the capacity change sides.
pub proof fn law_permutation_moves(r: int, c: int)
    requires
        0 <= r < 5,
        0 <= c < 8,
    ensures
        ({
            let d = (c - r) % 8;
            let place = 8 * ((r - d % 5) % 5) + d;
            perm_target(8 * r + c) == if place % 2 == 1 {
                place
            } else if place < 20 {
                place + 20
            } else {
                place - 20
            }
        }),
{
    reveal(shift_target);
    reveal(rotate_target);
    let i = 8 * r + c;
    assert(i / 8 == r && i % 8 == c);
    let d = (c - r) % 8;
    let j = 8 * r + d;
    assert(j / 8 == r && j % 8 == d);
    assert(shift_target(i) == j);
}

/// What a round does to a pair of nibbles: each is added its round constant and goes
/// through the S-box, the pair is mixed, and the two results go where the
/// permutation moves the pair's places.
pub proof fn law_round_of_a_pair(s: Seq<u8>, round: int, p: int)
    requires
        s.len() == STATE_NIBBLES,
        0 <= p < 20,
    ensures
        ({
            let a = SBOX@[(s[2 * p] + rc_spec(round, 2 * p)) % 16] as int;
            let b = SBOX@[(s[2 * p + 1] + rc_spec(round, 2 * p + 1)) % 16] as int;
            let t = round_spec(s, round);
            &&& t[perm_target(2 * p)] == (a + b) % 16
            &&& t[perm_target(2 * p + 1)] == (a + 2 * b) % 16
        }),
{
    let c = crate::n4bit::sbox_layer_spec(crate::n4bit::add_constants_spec(s, round));
    let e = crate::n4bit::mix_spec(c);
    let k = 2 * p;
    law_permutation(k);
    law_permutation(k + 1);
    lemma_round_is_state(s, round);
    assert(round_spec(s, round) == crate::n4bit::permute_spec(e)) by {
        reveal(round_spec);
    }
    assert(k % 2 == 0 && (k + 1) % 2 == 1);
    assert(e[k] == mix_left(c[k], c[k + 1]));
    assert(e[k + 1] == mix_right(c[k], c[k + 1]));
    assert(c[k] < 16 && c[k + 1] < 16);
    lemma_mixed(c[k] as int, c[k + 1] as int);
}

proof fn lemma_mixed(a: int, b: int)
    requires
        0 <= a < 16,
        0 <= b < 16,
    ensures
        (b + (a + b) % 16) % 16 == (a + 2 * b) % 16,
{
}

/// Rounds run one after another, each with its own number.
pub proof fn law_rounds_in_sequence(s: Seq<u8>, start: int, n: nat)
    ensures
        rounds_spec(s, start, 0) == s,
        rounds_spec(s, start, n + 1) == round_spec(rounds_spec(s, start, n), start + n),
{
}

proof fn lemma_rounds_state(s: Seq<u8>, start: int, n: nat)
    requires
        is_state(s),
    ensures
        is_state(rounds_spec(s, start, n)),
    decreases n,
{
    if n > 0 {
        lemma_rounds_state(s, start, (n - 1) as nat);
        lemma_round_is_state(rounds_spec(s, start, (n - 1) as nat), start + n - 1);
    }
}

/// Different states stay different through any number of rounds.
pub proof fn law_rounds_injective(s: Seq<u8>, t: Seq<u8>, start: int, n: nat)
    requires
        is_state(s),
        is_state(t),
        s != t,
    ensures
        rounds_spec(s, start, n) != rounds_spec(t, start, n),
    decreases n,
{
    if n > 0 {
        let m = (n - 1) as nat;
        law_rounds_injective(s, t, start, m);
        lemma_rounds_state(s, start, m);
        lemma_rounds_state(t, start, m);
        let (a, b) = (rounds_spec(s, start, m), rounds_spec(t, start, m));
        if round_spec(a, start + m) == round_spec(b, start + m) {
            law_round_injective(a, b, start + m);
        }
    }
}

// ----- absorbing -----

/// Nibble `i` of a message, the high half of each byte first; zero past its end.
pub open spec fn message_nibble(input: Seq<u8>, i: int) -> int {
    if i / 2 >= input.len() {
        0
    } else if i % 2 == 0 {
        input[i / 2] as int / 16
    } else {
        input[i / 2] as int % 16
    }
}

/// A message fills blocks of ten bytes, the last of them perhaps in part, and an
/// empty message one block.
pub proof fn law_block_count(input: Seq<u8>)
    ensures
        block_count(input) >= 1,
        10 * block_count(input) >= input.len(),
        input.len() > 0 ==> 10 * (block_count(input) - 1) < input.len(),
        input.len() == 0 ==> block_count(input) == 1,
{
}

/// Absorbing starts from zeros, and each block adds its twenty nibbles to the rate
/// part of the state, leaves the capacity part, and then runs twenty rounds, numbered
/// on from block to block.
pub proof fn law_absorb_adds_each_block(input: Seq<u8>, k: nat, t: Seq<u8>)
    requires
        t.len() == STATE_NIBBLES,
        forall|i: int|
            0 <= i < 20 ==> #[trigger] t[i] == (absorb_spec(input, k)[i] + message_nibble(
                input,
                20 * k + i,
            )) % 16,
        forall|i: int| 20 <= i < STATE_NIBBLES ==> #[trigger] t[i] == absorb_spec(input, k)[i],
    ensures
        absorb_spec(input, 0) == Seq::new(STATE_NIBBLES as nat, |i: int| 0u8),
        absorb_spec(input, k + 1) == rounds_spec(t, 20 * k as int, 20),
{
    lemma_absorb_state(input, k);
    let s = absorb_spec(input, k);
    let added = add_block_spec(s, block_spec(input, k as int));
    assert(added =~= t) by {
        reveal(add_block_spec);
        assert forall|i: int| 0 <= i < STATE_NIBBLES implies added[i] == t[i] by {
            if i < 20 {
                lemma_block_nibble(input, k as int, i);
            }
        }
    }
}

proof fn lemma_block_nibble(input: Seq<u8>, k: int, i: int)
    requires
        0 <= k,
        0 <= i < 20,
    ensures
        block_spec(input, k).len() == 20,
        block_spec(input, k)[i] == message_nibble(input, 20 * k + i),
        0 <= message_nibble(input, 20 * k + i) < 16,
{
    reveal(block_spec);
}

proof fn lemma_add_block_state(s: Seq<u8>, input: Seq<u8>, k: int)
    requires
        is_state(s),
        0 <= k,
    ensures
        is_state(add_block_spec(s, block_spec(input, k))),
{
    reveal(add_block_spec);
}

proof fn lemma_absorb_state(input: Seq<u8>, k: nat)
    ensures
        is_state(absorb_spec(input, k)),
    decreases k,
{
    if k > 0 {
        lemma_absorb_state(input, (k - 1) as nat);
        lemma_add_block_state(absorb_spec(input, (k - 1) as nat), input, k - 1);
        lemma_rounds_state(
            add_block_spec(absorb_spec(input, (k - 1) as nat), block_spec(input, k - 1)),
            ROUNDS * (k - 1),
            ROUNDS as nat,
        );
    }
}

/// Whether two messages of the same length differ in one block of ten bytes only.
pub open spec fn differ_in_block(a: Seq<u8>, b: Seq<u8>, k: int) -> bool {
    &&& a.len() == b.len()
    &&& a != b
    &&& forall|i: int| 0 <= i < a.len() && i / 10 != k ==> #[trigger] a[i] == b[i]
}

proof fn lemma_same_block(a: Seq<u8>, b: Seq<u8>, k: int, m: int)
    requires
        differ_in_block(a, b, k),
        0 <= m,
        m != k,
    ensures
        block_spec(a, m) == block_spec(b, m),
{
    assert forall|i: int| 0 <= i < 20 implies block_spec(a, m)[i] == block_spec(b, m)[i] by {
        lemma_block_nibble(a, m, i);
        lemma_block_nibble(b, m, i);
        let at = (20 * m + i) / 2;
        if at < a.len() {
            assert(at / 10 == m);
            assert(a[at] == b[at]);
        }
    }
    lemma_block_nibble(a, m, 0);
    lemma_block_nibble(b, m, 0);
    assert(block_spec(a, m) =~= block_spec(b, m));
}

proof fn lemma_other_block(a: Seq<u8>, b: Seq<u8>, k: int, s: Seq<u8>)
    requires
        differ_in_block(a, b, k),
        0 <= k,
        is_state(s),
    ensures
        add_block_spec(s, block_spec(a, k)) != add_block_spec(s, block_spec(b, k)),
{
    if forall|i: int| 0 <= i < a.len() ==> #[trigger] a[i] == b[i] {
        assert(a =~= b);
    }
    let at = choose|at: int| 0 <= at < a.len() && #[trigger] a[at] != b[at];
    assert(at / 10 == k);
    let i = 2 * at - 20 * k;
    assert(0 <= i < 19);
    lemma_block_nibble(a, k, i);
    lemma_block_nibble(b, k, i);
    lemma_block_nibble(a, k, i + 1);
    lemma_block_nibble(b, k, i + 1);
    assert((20 * k + i) / 2 == at && (20 * k + i) % 2 == 0);
    assert((20 * k + i + 1) / 2 == at && (20 * k + i + 1) % 2 == 1);
    let j = if block_spec(a, k)[i] != block_spec(b, k)[i] {
        i
    } else {
        i + 1
    };
    let (x, y) = (block_spec(a, k)[j], block_spec(b, k)[j]);
    assert(x != y && x < 16 && y < 16);
    reveal(add_block_spec);
    assert((s[j] + x) % 16 != (s[j] + y) % 16) by {
        assert(s[j] < 16);
    }
    assert(add_block_spec(s, block_spec(a, k))[j] != add_block_spec(s, block_spec(b, k))[j]);
}

proof fn lemma_add_block_injective(s: Seq<u8>, t: Seq<u8>, block: Seq<u8>)
    requires
        is_state(s),
        is_state(t),
        s != t,
    ensures
        add_block_spec(s, block) != add_block_spec(t, block),
{
    reveal(add_block_spec);
    if forall|i: int| 0 <= i < STATE_NIBBLES ==> #[trigger] s[i] == t[i] {
        assert(s =~= t);
    }
    let i = choose|i: int| 0 <= i < STATE_NIBBLES && #[trigger] s[i] != t[i];
    assert(s[i] < 16 && t[i] < 16);
    assert(add_block_spec(s, block)[i] != add_block_spec(t, block)[i]);
}

/// Absorbing loses no block: two messages of the same length that differ in one block
/// lead to the same states before that block, to different states from it on, and so
/// to different states at the squeeze.
pub proof fn law_absorb_loses_no_block(a: Seq<u8>, b: Seq<u8>, k: nat, j: nat)
    requires
        differ_in_block(a, b, k as int),
    ensures
        j <= k ==> absorb_spec(a, j) == absorb_spec(b, j),
        j > k ==> absorb_spec(a, j) != absorb_spec(b, j),
        squeeze_state(a) != squeeze_state(b),
{
    lemma_absorb_apart(a, b, k, j);
    let n = block_count(a);
    if forall|i: int| 0 <= i < a.len() ==> #[trigger] a[i] == b[i] {
        assert(a =~= b);
    }
    let at = choose|at: int| 0 <= at < a.len() && #[trigger] a[at] != b[at];
    assert(at / 10 == k);
    assert(k < n);
    lemma_absorb_apart(a, b, k, n);
    lemma_absorb_state(a, n);
    lemma_absorb_state(b, n);
    let (s, t) = (absorb_spec(a, n), absorb_spec(b, n));
    let (u, v) = (
        s.update(0, ((s[0] + 1) % 16) as u8),
        t.update(0, ((t[0] + 1) % 16) as u8),
    );
    if u == v {
        assert forall|i: int| 0 <= i < STATE_NIBBLES implies s[i] == t[i] by {
            assert(u[i] == v[i]);
            assert(s[0] < 16 && t[0] < 16);
        }
        assert(s =~= t);
    }
    law_rounds_injective(u, v, (ROUNDS * n) as int, ROUNDS as nat);
}

proof fn lemma_absorb_apart(a: Seq<u8>, b: Seq<u8>, k: nat, j: nat)
    requires
        differ_in_block(a, b, k as int),
    ensures
        j <= k ==> absorb_spec(a, j) == absorb_spec(b, j),
        j > k ==> absorb_spec(a, j) != absorb_spec(b, j),
    decreases j,
{
    if j > 0 {
        let m = (j - 1) as nat;
        lemma_absorb_apart(a, b, k, m);
        let (s, t) = (absorb_spec(a, m), absorb_spec(b, m));
        lemma_absorb_state(a, m);
        lemma_absorb_state(b, m);
        lemma_add_block_state(s, a, m as int);
        lemma_add_block_state(t, b, m as int);
        if m == k {
            lemma_other_block(a, b, k as int, s);
        } else {
            lemma_same_block(a, b, k as int, m as int);
            if m > k {
                lemma_add_block_injective(s, t, block_spec(a, m as int));
            }
        }
        if m >= k {
            law_rounds_injective(
                add_block_spec(s, block_spec(a, m as int)),
                add_block_spec(t, block_spec(b, m as int)),
                ROUNDS * m,
                ROUNDS as nat,
            );
        }
    }
}

// ----- squeezing -----

/// After the last block, 1 is added to the first nibble and twenty more rounds run.
/// The digest is the rate part of that state, high halves first, and after twenty
/// rounds more the rate part again.
pub proof fn law_digest(input: Seq<u8>, t: Seq<u8>, i: int)
    requires
        t.len() == STATE_NIBBLES,
        t[0] == (absorb_spec(input, block_count(input))[0] + 1) % 16,
        forall|j: int|
            1 <= j < STATE_NIBBLES ==> #[trigger] t[j] == absorb_spec(input, block_count(input))[j],
        0 <= i < 10,
    ensures
        ({
            let n = 20 * block_count(input) as int;
            let first = rounds_spec(t, n, 20);
            let second = rounds_spec(first, n + 20, 20);
            let digest = hash_spec(input);
            &&& digest.len() == 20
            &&& digest[i] == 16 * first[2 * i] + first[2 * i + 1]
            &&& digest[10 + i] == 16 * second[2 * i] + second[2 * i + 1]
        }),
{
    let n = block_count(input);
    let s = absorb_spec(input, n);
    lemma_absorb_state(input, n);
    assert(s.update(0, ((s[0] + 1) % 16) as u8) =~= t);
    let first = squeeze_state(input);
    let second = rounds_spec(first, ROUNDS * n + ROUNDS, ROUNDS as nat);
    assert(is_state(t)) by {
        assert forall|j: int| 0 <= j < STATE_NIBBLES implies #[trigger] t[j] < 16 by {
            if j > 0 {
                assert(s[j] < 16);
            }
        }
    }
    lemma_rounds_state(t, (ROUNDS * n) as int, ROUNDS as nat);
    lemma_rounds_state(first, ROUNDS * n + ROUNDS, ROUNDS as nat);
    reveal(hash_spec);
    let out = first.subrange(0, RATE_NIBBLES as int) + second.subrange(0, RATE_NIBBLES as int);
    assert(hash_spec(input) == bytes_of(out));
    assert(first[2 * i] < 16 && first[2 * i + 1] < 16);
    assert(second[2 * i] < 16 && second[2 * i + 1] < 16);
    assert(out[2 * i] == first[2 * i] && out[2 * i + 1] == first[2 * i + 1]);
    assert(out[20 + 2 * i] == second[2 * i] && out[20 + 2 * i + 1] == second[2 * i + 1]);
}

// ----- targets -----

/// Of two byte strings of the same length, that which is lower at the first place
/// where they differ is the lower number, whatever follows.
pub proof fn law_first_difference_decides(a: Seq<u8>, b: Seq<u8>, i: int)
    requires
        a.len() == b.len(),
        0 <= i < a.len(),
        forall|j: int| 0 <= j < i ==> #[trigger] a[j] == b[j],
        a[i] != b[i],
    ensures
        a[i] < b[i] <==> be_value(a) < be_value(b),
        be_value(a) != be_value(b),
{
    if a[i] < b[i] {
        crate::n4bit::lemma_be_order(a, b, i);
    } else {
        assert forall|j: int| 0 <= j < i implies #[trigger] b[j] == a[j] by {
            assert(a[j] == b[j]);
        }
        crate::n4bit::lemma_be_order(b, a, i);
    }
}

/// The target of a difficulty has all bits below its leading zeros set, and none is left
/// for a difficulty beyond the digest; one bit more halves it.
pub proof fn law_target(bits: nat)
    ensures
        bits > 160 ==> target_value(bits) == 0,
        bits < 160 ==> target_value(bits) == 2 * target_value(bits + 1) + 1,
        target_value(160) == 0,
{
    vstd::arithmetic::power2::lemma2_to64();
    if bits < 160 {
        vstd::arithmetic::power2::lemma_pow2_unfold((160 - bits) as nat);
    }
}

} // verus!
