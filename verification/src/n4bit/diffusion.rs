//! How fast a difference spreads through the rounds: a round at most doubles the
//! number of nibbles that differ, and never removes the last one.

use vstd::prelude::*;

use crate::n4bit::counting::{
    count, lemma_count_bound, lemma_count_implied, lemma_count_none, lemma_count_permuted,
    lemma_count_same, lemma_count_without, one_to_one,
};
use crate::n4bit::cryptanalysis::{
    differing, is_full_diffusion, is_profile, one_state, spread, zero_state,
};
use crate::n4bit::{
    add_constants_spec, is_state, law_permutation, law_round_injective, law_sbox_inverse,
    lemma_perm_source_range, lemma_round_is_state, mix_left, mix_right, mix_spec, perm_source,
    permute_spec, round_spec, rounds_spec, sbox_layer_spec, STATE_NIBBLES,
};

verus! {

/// The mixing of one pair spreads a difference over the pair at most.
proof fn lemma_mix_doubles(s: Seq<u8>, t: Seq<u8>, k: nat)
    requires
        s.len() == STATE_NIBBLES,
        t.len() == STATE_NIBBLES,
        2 * k <= STATE_NIBBLES,
    ensures
        count(2 * k, |i: int| mix_spec(s)[i] != mix_spec(t)[i]) <= 2 * count(
            2 * k,
            |i: int| s[i] != t[i],
        ),
    decreases k,
{
    if k > 0 {
        lemma_mix_doubles(s, t, (k - 1) as nat);
        reveal_with_fuel(count, 3);
        let i = 2 * k - 2;
        if s[i] == t[i] && s[i + 1] == t[i + 1] {
            assert(mix_spec(s)[i] == mix_spec(t)[i]);
            assert(mix_spec(s)[i + 1] == mix_spec(t)[i + 1]);
        }
    }
}

/// What one pair makes of a difference in one of its nibbles.
proof fn lemma_pair_spreads(a: u8, b: u8, c: u8, d: u8)
    requires
        a < 16 && b < 16 && c < 16 && d < 16,
        (a != c) != (b != d),
    ensures
        mix_left(a, b) != mix_left(c, d),
        mix_right(a, b) != mix_right(c, d) <==> (b - d) % 16 != 8,
{
    assert((a + b) % 16 != (c + d) % 16) by (bit_vector)
        requires
            a < 16 && b < 16 && c < 16 && d < 16,
            (a != c) != (b != d),
    ;
    assert(((b + (a + b) % 16) % 16 != (d + (c + d) % 16) % 16) == ((b + 16 - d) % 16 != 8))
        by (bit_vector)
        requires
            a < 16 && b < 16 && c < 16 && d < 16,
            (a != c) != (b != d),
    ;
    assert((b - d) % 16 == (b + 16 - d) % 16);
}

/// A difference in one nibble of a pair affects the left output, and the right one
/// too unless it is a difference of 8 in the right nibble. It stays in the pair.
pub proof fn law_mix_spreads(s: Seq<u8>, t: Seq<u8>, i: int)
    requires
        is_state(s),
        is_state(t),
        0 <= i < 20,
        (s[2 * i] != t[2 * i]) != (s[2 * i + 1] != t[2 * i + 1]),
        forall|j: int|
            0 <= j < STATE_NIBBLES && j != 2 * i && j != 2 * i + 1 ==> s[j] == #[trigger] t[j],
    ensures
        mix_spec(s)[2 * i] != mix_spec(t)[2 * i],
        mix_spec(s)[2 * i + 1] != mix_spec(t)[2 * i + 1] <==> (s[2 * i + 1] - t[2 * i + 1]) % 16
            != 8,
        forall|j: int|
            0 <= j < STATE_NIBBLES && j != 2 * i && j != 2 * i + 1 ==> mix_spec(s)[j]
                == #[trigger] mix_spec(t)[j],
{
    let k = 2 * i;
    lemma_mixed_pair(s, i);
    lemma_mixed_pair(t, i);
    lemma_pair_spreads(s[k], s[k + 1], t[k], t[k + 1]);
    assert forall|j: int| 0 <= j < STATE_NIBBLES && j != k && j != k + 1 implies mix_spec(s)[j]
        == #[trigger] mix_spec(t)[j] by {
        let p = j / 2;
        assert(p != i);
        lemma_mixed_pair(s, p);
        lemma_mixed_pair(t, p);
        assert(s[2 * p] == t[2 * p] && s[2 * p + 1] == t[2 * p + 1]);
        assert(j == 2 * p || j == 2 * p + 1);
    }
}

/// The outputs of one pair.
proof fn lemma_mixed_pair(s: Seq<u8>, i: int)
    requires
        s.len() == STATE_NIBBLES,
        0 <= i < 20,
    ensures
        mix_spec(s)[2 * i] == mix_left(s[2 * i], s[2 * i + 1]),
        mix_spec(s)[2 * i + 1] == mix_right(s[2 * i], s[2 * i + 1]),
{
    assert((2 * i) % 2 == 0 && (2 * i + 1) % 2 == 1);
}

/// The permutation moves the places that differ.
proof fn lemma_permute_keeps(s: Seq<u8>, t: Seq<u8>)
    requires
        s.len() == STATE_NIBBLES,
        t.len() == STATE_NIBBLES,
    ensures
        differing(permute_spec(s), permute_spec(t)) == differing(s, t),
{
    let n = STATE_NIBBLES as nat;
    let g = |i: int| perm_source(i);
    let p = |i: int| s[i] != t[i];
    assert(one_to_one(n, n, g)) by {
        assert forall|i: int| 0 <= i < n implies 0 <= #[trigger] g(i) < n by {
            lemma_perm_source_range(i);
        }
        assert forall|i: int, j: int| 0 <= i < n && 0 <= j < n && i != j implies #[trigger] g(i)
            != #[trigger] g(j) by {
            law_permutation(i);
            law_permutation(j);
        }
    }
    lemma_count_permuted(n, p, g);
    lemma_count_same(
        n,
        |i: int| permute_spec(s)[i] != permute_spec(t)[i],
        |i: int| p(g(i)),
    );
}

/// The constants and the S-box spread nothing: they work on each nibble alone.
proof fn lemma_nibble_layers_keep(s: Seq<u8>, t: Seq<u8>, round: int)
    requires
        s.len() == STATE_NIBBLES,
        t.len() == STATE_NIBBLES,
    ensures
        differing(
            sbox_layer_spec(add_constants_spec(s, round)),
            sbox_layer_spec(add_constants_spec(t, round)),
        ) <= differing(s, t),
{
    let (a, b) = (add_constants_spec(s, round), add_constants_spec(t, round));
    let (c, d) = (sbox_layer_spec(a), sbox_layer_spec(b));
    let p = |i: int| c[i] != d[i];
    let q = |i: int| s[i] != t[i];
    assert forall|i: int| 0 <= i < STATE_NIBBLES && #[trigger] p(i) implies q(i) by {
        if s[i] == t[i] {
            assert(a[i] == b[i]);
        }
    }
    lemma_count_implied(STATE_NIBBLES as nat, p, q);
}

/// A round at most doubles the number of nibbles in which two states differ.
pub proof fn law_round_doubles(s: Seq<u8>, t: Seq<u8>, round: int)
    requires
        is_state(s),
        is_state(t),
    ensures
        differing(round_spec(s, round), round_spec(t, round)) <= 2 * differing(s, t),
{
    reveal(round_spec);
    let c = sbox_layer_spec(add_constants_spec(s, round));
    let d = sbox_layer_spec(add_constants_spec(t, round));
    lemma_nibble_layers_keep(s, t, round);
    lemma_mix_doubles(c, d, 20);
    lemma_permute_keeps(mix_spec(c), mix_spec(d));
}

/// Different states differ in a nibble, and so do they after a round.
pub proof fn law_round_keeps_a_difference(s: Seq<u8>, t: Seq<u8>, round: int)
    requires
        is_state(s),
        is_state(t),
        s != t,
    ensures
        round_spec(s, round) != round_spec(t, round),
        1 <= differing(round_spec(s, round), round_spec(t, round)) <= STATE_NIBBLES,
{
    if round_spec(s, round) == round_spec(t, round) {
        law_round_injective(s, t, round);
    }
    lemma_round_is_state(s, round);
    lemma_round_is_state(t, round);
    lemma_differing_positive(round_spec(s, round), round_spec(t, round));
}

proof fn lemma_differing_positive(s: Seq<u8>, t: Seq<u8>)
    requires
        s.len() == STATE_NIBBLES,
        t.len() == STATE_NIBBLES,
        s != t,
    ensures
        1 <= differing(s, t) <= STATE_NIBBLES,
{
    let p = |i: int| s[i] != t[i];
    lemma_count_bound(STATE_NIBBLES as nat, p);
    if differing(s, t) == 0 {
        assert forall|i: int| 0 <= i < s.len() implies s[i] == t[i] by {
            lemma_count_zero(STATE_NIBBLES as nat, p, i);
        }
        assert(s =~= t);
    }
}

proof fn lemma_count_zero(n: nat, p: spec_fn(int) -> bool, i: int)
    requires
        count(n, p) == 0,
        0 <= i < n,
    ensures
        !p(i),
    decreases n,
{
    if i < n - 1 {
        lemma_count_zero((n - 1) as nat, p, i);
    }
}

// ----- the spread of one nibble -----

/// The two states that the spread is measured on stay states.
proof fn lemma_spread_states(r: nat)
    ensures
        is_state(rounds_spec(zero_state(), 0, r)),
        is_state(rounds_spec(one_state(), 0, r)),
        rounds_spec(zero_state(), 0, r) != rounds_spec(one_state(), 0, r),
    decreases r,
{
    if r > 0 {
        let k = (r - 1) as nat;
        let (s, t) = (rounds_spec(zero_state(), 0, k), rounds_spec(one_state(), 0, k));
        lemma_spread_states(k);
        lemma_round_is_state(s, r - 1);
        lemma_round_is_state(t, r - 1);
        law_round_keeps_a_difference(s, t, r - 1);
    } else {
        assert(zero_state()[0] != one_state()[0]);
    }
}

/// The two states differ in one nibble at the start.
proof fn lemma_spread_start()
    ensures
        spread(0) == 1,
{
    let n = STATE_NIBBLES as nat;
    let p = |i: int| zero_state()[i] != one_state()[i];
    lemma_count_without(n, p, 0);
    lemma_count_none(n, |i: int| p(i) && i != 0);
}

/// The first round spreads the difference over the first pair.
proof fn lemma_spread_first()
    ensures
        spread(1) >= 2,
{
    let (s, t) = (zero_state(), one_state());
    let (a, b) = (add_constants_spec(s, 0), add_constants_spec(t, 0));
    let (c, d) = (sbox_layer_spec(a), sbox_layer_spec(b));
    let (e, f) = (mix_spec(c), mix_spec(d));
    lemma_round_is_state(s, 0);
    lemma_round_is_state(t, 0);
    assert(a[0] == 1 && b[0] == 2);
    law_sbox_inverse(1);
    law_sbox_inverse(2);
    assert(c[0] != d[0]);
    assert(a[1] == b[1]);
    assert(c[1] == d[1]);
    assert(e[0] != f[0] && e[1] != f[1]) by {
        assert(e[0] == mix_left(c[0], c[1]) && f[0] == mix_left(d[0], d[1]));
        assert(e[1] == mix_right(c[0], c[1]) && f[1] == mix_right(d[0], d[1]));
    }
    let p = |i: int| e[i] != f[i];
    let q = |i: int| p(i) && i != 0;
    lemma_count_without(STATE_NIBBLES as nat, p, 0);
    lemma_count_without(STATE_NIBBLES as nat, q, 1);
    lemma_permute_keeps(e, f);
    assert(spread(1) == differing(permute_spec(e), permute_spec(f))) by {
        reveal(round_spec);
        reveal_with_fuel(rounds_spec, 2);
    }
}

/// A difference of one nibble reaches two nibbles in the first round, always one
/// and never more than 40, and a round at most doubles what it has reached.
pub proof fn law_spread(r: nat)
    ensures
        spread(0) == 1,
        spread(1) == 2,
        1 <= spread(r) <= STATE_NIBBLES,
        spread(r + 1) <= 2 * spread(r),
{
    lemma_spread_start();
    lemma_spread_first();
    lemma_spread_step(0);
    lemma_spread_step(r);
}

proof fn lemma_spread_step(r: nat)
    ensures
        1 <= spread(r) <= STATE_NIBBLES,
        spread(r + 1) <= 2 * spread(r),
{
    let (s, t) = (rounds_spec(zero_state(), 0, r), rounds_spec(one_state(), 0, r));
    lemma_spread_states(r);
    lemma_differing_positive(s, t);
    law_round_doubles(s, t, r as int);
}

/// Full diffusion takes six rounds at least: five can double one nibble to 32.
pub proof fn law_full_diffusion_takes_six_rounds(rounds: nat)
    requires
        is_full_diffusion(rounds),
    ensures
        6 <= rounds,
{
    law_spread(0);
    law_spread(1);
    law_spread(2);
    law_spread(3);
    law_spread(4);
}

/// The diffusion profile starts at 2 and ends with full diffusion or after 30
/// rounds, whichever comes first. Until then every entry is at least 1 and below
/// 40, and none is more than twice the one before.
pub proof fn law_profile(profile: Seq<usize>, rounds: nat)
    requires
        is_profile(profile),
        is_full_diffusion(rounds),
    ensures
        profile[0] == 2,
        forall|k: int| 0 <= k < profile.len() ==> 1 <= #[trigger] profile[k] <= STATE_NIBBLES,
        forall|j: int, k: int|
            0 <= j < profile.len() && k == j + 1 && k < profile.len() ==> #[trigger] profile[k] <= 2
                * #[trigger] profile[j],
        profile.len() == if rounds <= 30 {
            rounds
        } else {
            30
        },
        forall|k: int| 0 <= k < profile.len() - 1 ==> #[trigger] profile[k] != STATE_NIBBLES,
        rounds <= 30 <==> profile.last() == STATE_NIBBLES,
{
    law_full_diffusion_takes_six_rounds(rounds);
    law_spread(0);
    assert forall|k: int| 0 <= k < profile.len() implies 1 <= #[trigger] profile[k]
        <= STATE_NIBBLES by {
        law_spread((k + 1) as nat);
    }
    assert forall|j: int, k: int|
        0 <= j < profile.len() && k == j + 1 && k < profile.len() implies #[trigger] profile[k] <= 2
        * #[trigger] profile[j] by {
        law_spread(k as nat);
    }
    assert forall|k: int| 0 <= k < profile.len() - 1 implies #[trigger] profile[k]
        != STATE_NIBBLES by {
        assert(spread((k + 1) as nat) != STATE_NIBBLES);
    }
    assert(profile.last() == spread(profile.len()));
}

} // verus!
