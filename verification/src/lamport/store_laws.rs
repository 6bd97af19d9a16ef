//! When a key store grants what it is asked for, and what it hands out.

use vstd::arithmetic::power2::pow2;
use vstd::prelude::*;

use crate::hashing::hash160_spec;
use crate::lamport::entropy::seeded_stream;
use crate::lamport::keystore::{
    commit_all, cut_secret, reveal_all, wots_hashes, wots_public_all, StoreError, StoreState,
};
use crate::lamport::winternitz::{
    digit_secret_spec, hash_times_spec, signed_digits, WotsError, WotsParams,
};
use crate::lamport::{
    cut_from, decode_error, decoded_bit, BitCommit, BitSecret, LamportError, SecretKey,
};

verus! {

// ----- keys -----

/// The commitment of a bit is the hashes of its two preimages, and revealing the bit
/// hands out the preimage that the hash of that value opens.
pub proof fn law_bit_secret(s: BitSecret, bit: bool)
    ensures
        s.commit_spec().h0@ == hash160_spec(s.p0@),
        s.commit_spec().h1@ == hash160_spec(s.p1@),
        s.preimage_spec(true)@ == s.p1@,
        s.preimage_spec(false)@ == s.p0@,
        hash160_spec(s.preimage_spec(bit)@) == if bit {
            s.commit_spec().h1@
        } else {
            s.commit_spec().h0@
        },
{
}

/// The public half has a commitment for each bit of the key, and a reveal a preimage
/// for each bit of the value, in their places.
pub proof fn law_key_halves(sk: SecretKey, bits: Seq<bool>, i: int)
    requires
        bits.len() == sk.bits@.len(),
        0 <= i < bits.len(),
    ensures
        sk.public_spec().len() == sk.bits@.len(),
        sk.public_spec()[i].h0@ == hash160_spec(sk.bits@[i].p0@),
        sk.public_spec()[i].h1@ == hash160_spec(sk.bits@[i].p1@),
        sk.reveal_spec(bits).len() == bits.len(),
        sk.reveal_spec(bits)[i] == if bits[i] {
            sk.bits@[i].p1@
        } else {
            sk.bits@[i].p0@
        },
{
}

/// A number is refused exactly when the key is wider than 32 bits or the number does
/// not fit the key.
pub proof fn law_numbers_fit_their_keys(sk: SecretKey, value: u32)
    ensures
        ({
            let n = sk.bits@.len();
            &&& sk.refuses_uint(value) is None <==> n <= 32 && value < pow2(n)
            &&& n > 32 ==> sk.refuses_uint(value) == Some(
                LamportError::KeyTooWide { n_bits: n as usize },
            )
            &&& n <= 32 && value >= pow2(n) ==> sk.refuses_uint(value) == Some(
                LamportError::ValueTooWide { value, n_bits: n as usize },
            )
        }),
{
}

/// A preimage decodes to a bit exactly when it opens one of the bit's hashes: to 1 if
/// it opens that of 1.
pub proof fn law_decoded_bit(c: BitCommit, p: Seq<u8>)
    ensures
        decoded_bit(c, p) == Some(true) <==> hash160_spec(p) == c.h1@,
        decoded_bit(c, p) == Some(false) <==> hash160_spec(p) == c.h0@ && hash160_spec(p) != c.h1@,
        decoded_bit(c, p) is None <==> hash160_spec(p) != c.h0@ && hash160_spec(p) != c.h1@,
{
}

/// A reveal decodes exactly when it has a preimage for each bit and each opens its bit.
pub proof fn law_reveals_decode(key: Seq<BitCommit>, reveal: Seq<Seq<u8>>)
    ensures
        decode_error(key, reveal) is None <==> reveal.len() == key.len() && forall|i: int|
            0 <= i < key.len() ==> hash160_spec(#[trigger] reveal[i]) == key[i].h0@ || hash160_spec(
                reveal[i],
            ) == key[i].h1@,
        reveal.len() != key.len() ==> decode_error(key, reveal) == Some(
            LamportError::PreimageCount {
                given: reveal.len() as usize,
                expected: key.len() as usize,
            },
        ),
{
    if reveal.len() == key.len() {
        lemma_unmatched(key, reveal, 0);
    }
}

proof fn lemma_unmatched(key: Seq<BitCommit>, reveal: Seq<Seq<u8>>, i: int)
    requires
        reveal.len() == key.len(),
        0 <= i <= key.len(),
    ensures
        crate::lamport::first_unmatched(key, reveal, i) < key.len() <==> exists|k: int|
            i <= k < key.len() && decoded_bit(key[k], #[trigger] reveal[k]) is None,
    decreases key.len() - i,
{
    if i < key.len() {
        lemma_unmatched(key, reveal, i + 1);
        if decoded_bit(key[i], reveal[i]) is None {
            lemma_first_unmatched_here(key, reveal, i);
        }
    }
}

proof fn lemma_first_unmatched_here(key: Seq<BitCommit>, reveal: Seq<Seq<u8>>, i: int)
    requires
        0 <= i < key.len(),
        decoded_bit(key[i], reveal[i]) is None,
    ensures
        crate::lamport::first_unmatched(key, reveal, i) == i,
{
}

// ----- the store -----

/// A secret is cut from the bytes drawn for it, 40 for each bit: the preimage of 0,
/// then that of 1, and nothing is left out.
pub proof fn law_secret_is_cut(drawn: Seq<u8>, n: nat, i: int)
    requires
        drawn.len() == 40 * n,
        0 <= i < n,
    ensures
        cut_secret(drawn, n).len() == n,
        cut_secret(drawn, n)[i].0.len() == 20,
        cut_secret(drawn, n)[i].1.len() == 20,
        cut_secret(drawn, n)[i].0 + cut_secret(drawn, n)[i].1 == drawn.subrange(
            40 * i,
            40 * i + 40,
        ),
{
    assert(cut_secret(drawn, n)[i].0 + cut_secret(drawn, n)[i].1 =~= drawn.subrange(
        40 * i,
        40 * i + 40,
    ));
}

/// What a store hands out of a secret opens what it hands out as the public half.
pub proof fn law_revealed_opens_committed(
    secret: Seq<(Seq<u8>, Seq<u8>)>,
    bits: Seq<bool>,
    i: int,
)
    requires
        bits.len() == secret.len(),
        0 <= i < bits.len(),
    ensures
        commit_all(secret).len() == secret.len(),
        commit_all(secret)[i].0 == hash160_spec(secret[i].0),
        commit_all(secret)[i].1 == hash160_spec(secret[i].1),
        reveal_all(secret, bits).len() == bits.len(),
        hash160_spec(reveal_all(secret, bits)[i]) == if bits[i] {
            commit_all(secret)[i].1
        } else {
            commit_all(secret)[i].0
        },
        reveal_all(secret, bits)[i] == if bits[i] {
            secret[i].1
        } else {
            secret[i].0
        },
{
}

/// A key is handed out under a new label, with a secret of the size asked for that was
/// not revealed, and under a used one if it has that size; nothing else changes.
pub proof fn law_generate(
    state: StoreState,
    label: Seq<char>,
    n_bits: nat,
    entropy: Seq<u8>,
    other: Seq<char>,
)
    requires
        other != label,
    ensures
        ({
            let (after, r) = state.generate(label, n_bits, entropy);
            let used = state.keys.contains_key(label);
            &&& r is Ok <==> (used ==> state.keys[label].secret.len() == n_bits)
            &&& used ==> after == state
            &&& used && r is Err ==> r == Err::<Seq<(Seq<u8>, Seq<u8>)>, StoreError>(
                StoreError::LabelUsed { n_bits: state.keys[label].secret.len() as usize },
            )
            &&& r matches Ok(public) ==> {
                &&& after.keys.contains_key(label)
                &&& after.keys[label].secret.len() == n_bits
                &&& public == commit_all(after.keys[label].secret)
            }
            &&& !used ==> after.keys[label].revealed is None
            &&& !used ==> after.keys[label].secret == cut_secret(
                seeded_stream(entropy, 40 * n_bits),
                n_bits,
            )
            &&& after.wots == state.wots
            &&& after.keys.contains_key(other) <==> state.keys.contains_key(other)
            &&& state.keys.contains_key(other) ==> after.keys[other] == state.keys[other]
        }),
{
}

/// A value is revealed exactly when the label has a key of as many bits that was
/// revealed to no other value; the store then remembers it, and nothing else changes.
pub proof fn law_reveal(state: StoreState, label: Seq<char>, bits: Seq<bool>, other: Seq<char>)
    requires
        other != label,
    ensures
        ({
            let (after, r) = state.reveal_bits(label, bits);
            let key = state.keys[label];
            let known = state.keys.contains_key(label);
            let free = key.revealed is None || key.revealed == Some(bits);
            &&& r is Ok <==> known && free && bits.len() == key.secret.len()
            &&& !known ==> r == Err::<Seq<Seq<u8>>, StoreError>(StoreError::NoKey)
            &&& known && !free ==> r == Err::<Seq<Seq<u8>>, StoreError>(StoreError::Equivocation)
            &&& known && free && bits.len() != key.secret.len() ==> r == Err::<
                Seq<Seq<u8>>,
                StoreError,
            >(
                StoreError::Lamport(
                    LamportError::BitCount {
                        given: bits.len() as usize,
                        expected: key.secret.len() as usize,
                    },
                ),
            )
            &&& r is Err ==> after == state
            &&& r matches Ok(preimages) ==> {
                &&& preimages == reveal_all(key.secret, bits)
                &&& after.keys.contains_key(label)
                &&& after.keys[label].revealed == Some(bits)
                &&& after.keys[label].secret == key.secret
            }
            &&& after.wots == state.wots
            &&& after.keys.contains_key(other) <==> state.keys.contains_key(other)
            &&& state.keys.contains_key(other) ==> after.keys[other] == state.keys[other]
        }),
{
}

/// A Winternitz key is handed out under a new label, and under a used one if it has
/// the parameters asked for; nothing else changes.
pub proof fn law_generate_wots(
    state: StoreState,
    label: Seq<char>,
    params: WotsParams,
    entropy: Seq<u8>,
    other: Seq<char>,
)
    requires
        other != label,
    ensures
        ({
            let (after, r) = state.generate_wots(label, params, entropy);
            let used = state.wots.contains_key(label);
            &&& r is Ok <==> (used ==> state.wots[label].params == params)
            &&& r is Err ==> r == Err::<Seq<Seq<u8>>, StoreError>(StoreError::ParamsUsed)
            &&& used ==> after == state
            &&& r matches Ok(public) ==> {
                &&& after.wots.contains_key(label)
                &&& after.wots[label].params == params
                &&& public == wots_public_all(params, after.wots[label].entropy)
            }
            &&& !used ==> after.wots[label].entropy == entropy && after.wots[label].signed is None
            &&& after.keys == state.keys
            &&& after.wots.contains_key(other) <==> state.wots.contains_key(other)
            &&& state.wots.contains_key(other) ==> after.wots[other] == state.wots[other]
        }),
{
}

/// A message is signed exactly when the label has a key for messages of its length
/// that signed no other message; the store then remembers it, and nothing else
/// changes.
pub proof fn law_sign_wots(state: StoreState, label: Seq<char>, msg: Seq<u8>, other: Seq<char>)
    requires
        other != label,
    ensures
        ({
            let (after, r) = state.sign_wots(label, msg);
            let key = state.wots[label];
            let known = state.wots.contains_key(label);
            let free = key.signed is None || key.signed == Some(msg);
            let fits = key.params.message_digits == 2 * msg.len();
            &&& r is Ok <==> known && free && fits
            &&& !known ==> r == Err::<Seq<u8>, StoreError>(StoreError::NoKey)
            &&& known && !free ==> r == Err::<Seq<u8>, StoreError>(StoreError::Equivocation)
            &&& known && free && !fits ==> r == Err::<Seq<u8>, StoreError>(
                StoreError::Wots(
                    WotsError::MessageLength {
                        bytes: msg.len() as usize,
                        message_digits: key.params.message_digits,
                    },
                ),
            )
            &&& r is Err ==> after == state
            &&& r matches Ok(digits) ==> {
                &&& digits == signed_digits(key.params, msg)
                &&& after.wots.contains_key(label)
                &&& after.wots[label].signed == Some(msg)
                &&& after.wots[label].params == key.params
                &&& after.wots[label].entropy == key.entropy
            }
            &&& after.keys == state.keys
            &&& after.wots.contains_key(other) <==> state.wots.contains_key(other)
            &&& state.wots.contains_key(other) ==> after.wots[other] == state.wots[other]
        }),
{
}

/// The public digits end chains of 15 hashes, one for each digit of the parameters,
/// and the hash of a signed digit stands on its chain at the digit's value.
pub proof fn law_store_chains(params: WotsParams, entropy: Seq<u8>, digits: Seq<u8>, i: int)
    requires
        0 <= i < params.total(),
        digits.len() == params.total(),
        digits[i] <= 15,
    ensures
        wots_public_all(params, entropy).len() == params.total(),
        wots_hashes(entropy, digits).len() == digits.len(),
        hash_times_spec(wots_hashes(entropy, digits)[i], (15 - digits[i]) as nat)
            == wots_public_all(params, entropy)[i],
        digits[i] == 0 ==> wots_hashes(entropy, digits)[i] == digit_secret_spec(entropy, i as nat),
{
    lemma_chain_adds(digit_secret_spec(entropy, i as nat), digits[i] as nat, (15 - digits[i]) as nat);
}

proof fn lemma_chain_adds(x: Seq<u8>, a: nat, b: nat)
    ensures
        hash_times_spec(hash_times_spec(x, a), b) == hash_times_spec(x, a + b),
    decreases b,
{
    if b > 0 {
        lemma_chain_adds(x, a, (b - 1) as nat);
        assert((a + b - 1) as nat == a + (b - 1) as nat);
    }
}

/// A key made of drawn bytes has, for each bit, its own 40 of them: the preimage of 0,
/// then that of 1.
pub proof fn law_key_is_cut(bits: Seq<BitSecret>, drawn: Seq<u8>, i: int)
    requires
        cut_from(bits, drawn),
        drawn.len() == 40 * bits.len(),
        0 <= i < bits.len(),
    ensures
        bits[i].p0@ + bits[i].p1@ == drawn.subrange(40 * i, 40 * i + 40),
{
    assert(bits[i].p0@ + bits[i].p1@ =~= drawn.subrange(40 * i, 40 * i + 40));
}

} // verus!
