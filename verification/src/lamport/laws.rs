//! Laws of bits, keys and reveals.

use vstd::arithmetic::div_mod::{lemma_div_denominator, lemma_mod_breakdown, lemma_small_mod};
use vstd::arithmetic::power2::{lemma2_to64, lemma_pow2_adds, lemma_pow2_pos, pow2};
use vstd::prelude::*;

use crate::hashing::hash160_spec;
use crate::lamport::{
    bit_of, bits_of, bits_value, consumption_spec, decode_error, decoded, decoded_bit,
    first_unmatched, rebuild_spec, BitCommit, LamportError, SecretKey, PREIMAGE_LEN,
};

verus! {

/// Bit `i + 1` of a number is bit `i` of its half.
proof fn lemma_bit_of_half(v: nat, i: nat)
    ensures
        bit_of(v, i + 1) == bit_of(v / 2, i),
{
    lemma_pow2_adds(1, i);
    lemma2_to64();
    lemma_pow2_pos(i);
    lemma_div_denominator(v as int, 2, pow2(i) as int);
}

/// The lowest `n` bits of a number write the number modulo 2^n.
pub proof fn law_bits_write_the_number(v: nat, n: nat)
    ensures
        bits_value(bits_of(v, n)) == v % pow2(n),
    decreases n,
{
    lemma2_to64();
    if n > 0 {
        lemma_pow2_adds(1, (n - 1) as nat);
        lemma_pow2_pos((n - 1) as nat);
        lemma_mod_breakdown(v as int, 2, pow2((n - 1) as nat) as int);
        law_bits_write_the_number(v / 2, (n - 1) as nat);
        let bits = bits_of(v, n);
        assert forall|i: int| 0 <= i < n - 1 implies bits.skip(1)[i] == bits_of(
            v / 2,
            (n - 1) as nat,
        )[i] by {
            lemma_bit_of_half(v, i as nat);
        }
        assert(bits.skip(1) =~= bits_of(v / 2, (n - 1) as nat));
        assert(bits[0] == (v % 2 == 1)) by {
            assert(pow2(0) == 1);
            assert(v / 1 == v);
        }
    }
}

/// Bits are the bits of the number they write.
pub proof fn law_number_has_the_bits(bits: Seq<bool>)
    ensures
        bits_of(bits_value(bits), bits.len()) == bits,
    decreases bits.len(),
{
    lemma2_to64();
    if bits.len() > 0 {
        let v = bits_value(bits);
        law_number_has_the_bits(bits.skip(1));
        assert(v / 2 == bits_value(bits.skip(1)));
        let out = bits_of(v, bits.len());
        assert forall|i: int| 0 <= i < bits.len() implies out[i] == bits[i] by {
            if i == 0 {
                assert(v / 1 == v);
            } else {
                lemma_bit_of_half(v, (i - 1) as nat);
                assert(bits_of(v / 2, (bits.len() - 1) as nat)[i - 1] == bits.skip(1)[i - 1]);
            }
        }
        assert(out =~= bits);
    } else {
        assert(bits_of(bits_value(bits), 0) =~= bits);
    }
}

/// Whether some bit of the key has one hash for both of its values.
pub open spec fn has_collision(sk: SecretKey) -> bool {
    exists|i: int|
        0 <= i < sk.bits@.len() && hash160_spec((#[trigger] sk.bits@[i]).p0@) == hash160_spec(
            sk.bits@[i].p1@,
        )
}

proof fn lemma_all_matched(key: Seq<BitCommit>, reveal: Seq<Seq<u8>>, i: int)
    requires
        reveal.len() == key.len(),
        0 <= i <= key.len(),
        forall|j: int| 0 <= j < key.len() ==> decoded_bit(#[trigger] key[j], reveal[j]) is Some,
    ensures
        first_unmatched(key, reveal, i) == key.len(),
    decreases key.len() - i,
{
    if i < key.len() {
        lemma_all_matched(key, reveal, i + 1);
    }
}

/// What a key reveals decodes, under its public half, to the bits that were
/// revealed. The one exception is a key that has the same hash for both values
/// of some bit.
pub proof fn law_reveal_decodes(sk: SecretKey, bits: Seq<bool>)
    requires
        bits.len() == sk.bits@.len(),
        !has_collision(sk),
    ensures
        decode_error(sk.public_spec(), sk.reveal_spec(bits)) is None,
        decoded(sk.public_spec(), sk.reveal_spec(bits)) == bits,
{
    let key = sk.public_spec();
    let reveal = sk.reveal_spec(bits);
    assert forall|i: int| 0 <= i < key.len() implies decoded_bit(#[trigger] key[i], reveal[i])
        == Some(bits[i]) by {
        let s = sk.bits@[i];
        assert(hash160_spec(s.p0@) != hash160_spec(s.p1@));
    }
    lemma_all_matched(key, reveal, 0);
    assert(decoded(key, reveal) =~= bits);
}

/// A number that a key can reveal reads back as itself.
pub proof fn law_uint_reveal_decodes(sk: SecretKey, value: u32)
    requires
        sk.refuses_uint(value) is None,
        !has_collision(sk),
    ensures
        ({
            let reveal = sk.reveal_spec(bits_of(value as nat, sk.bits@.len()));
            &&& decode_error(sk.public_spec(), reveal) is None
            &&& bits_value(decoded(sk.public_spec(), reveal)) == value
        }),
{
    law_reveal_decodes(sk, bits_of(value as nat, sk.bits@.len()));
    law_bits_write_the_number(value as nat, sk.bits@.len());
    lemma_small_mod(value as nat, pow2(sk.bits@.len()));
}

/// A preimage that matches neither hash is detected, wherever it stands.
pub proof fn law_wrong_preimage_detected(key: Seq<BitCommit>, reveal: Seq<Seq<u8>>, bit: int)
    requires
        reveal.len() == key.len(),
        0 <= bit < key.len(),
        decoded_bit(key[bit], reveal[bit]) is None,
    ensures
        decode_error(key, reveal) is Some,
{
    lemma_unmatched_found(key, reveal, bit, 0);
}

proof fn lemma_unmatched_found(key: Seq<BitCommit>, reveal: Seq<Seq<u8>>, bit: int, i: int)
    requires
        0 <= i <= bit < key.len(),
        decoded_bit(key[bit], reveal[bit]) is None,
    ensures
        first_unmatched(key, reveal, i) <= bit,
    decreases bit - i,
{
    if i < bit && decoded_bit(key[i], reveal[i]) is Some {
        lemma_unmatched_found(key, reveal, bit, i + 1);
    }
}

proof fn lemma_matched_before(key: Seq<BitCommit>, reveal: Seq<Seq<u8>>, i: int)
    requires
        0 <= i,
        first_unmatched(key, reveal, i) >= key.len(),
    ensures
        forall|j: int| i <= j < key.len() ==> decoded_bit(#[trigger] key[j], reveal[j]) is Some,
    decreases key.len() - i,
{
    if i < key.len() {
        lemma_matched_before(key, reveal, i + 1);
    }
}

/// Slices agree: a part of a reveal decodes, under the same part of the key,
/// to that part of the bits.
pub proof fn law_slices_agree(key: Seq<BitCommit>, reveal: Seq<Seq<u8>>, a: int, b: int)
    requires
        decode_error(key, reveal) is None,
        0 <= a <= b <= key.len(),
    ensures
        decode_error(key.subrange(a, b), reveal.subrange(a, b)) is None,
        decoded(key.subrange(a, b), reveal.subrange(a, b)) == decoded(key, reveal).subrange(a, b),
{
    let (k, r) = (key.subrange(a, b), reveal.subrange(a, b));
    lemma_matched_before(key, reveal, 0);
    assert forall|j: int| 0 <= j < k.len() implies decoded_bit(#[trigger] k[j], r[j]) is Some by {
        assert(k[j] == key[a + j]);
    }
    lemma_all_matched(k, r, 0);
    assert(decoded(k, r) =~= decoded(key, reveal).subrange(a, b));
}

/// Witness elements in consumption order, rebuilt, are the reveal they came
/// from.
pub proof fn law_consumption_order_round_trip(reveal: Seq<Seq<u8>>)
    requires
        forall|i: int| 0 <= i < reveal.len() ==> (#[trigger] reveal[i]).len() == PREIMAGE_LEN,
    ensures
        rebuild_spec(consumption_spec(reveal)) == Ok::<Seq<Seq<u8>>, LamportError>(reveal),
    decreases reveal.len(),
{
    let items = consumption_spec(reveal);
    if reveal.len() > 0 {
        let rest = reveal.skip(1);
        assert forall|i: int| 0 <= i < rest.len() implies (#[trigger] rest[i]).len()
            == PREIMAGE_LEN by {
            assert(rest[i] == reveal[i + 1]);
        }
        law_consumption_order_round_trip(rest);
        assert(items.last() == reveal[0]);
        assert(items.drop_last() =~= consumption_spec(rest));
        assert(seq![reveal[0]] + rest =~= reveal);
    } else {
        assert(reveal =~= Seq::empty());
    }
}

/// Only elements of a preimage's length rebuild, and they do so in reversed
/// order.
pub proof fn law_rebuild(items: Seq<Seq<u8>>)
    ensures
        match rebuild_spec(items) {
            Ok(reveal) => {
                &&& reveal == items.reverse()
                &&& forall|i: int|
                    0 <= i < items.len() ==> (#[trigger] items[i]).len() == PREIMAGE_LEN
            },
            Err(e) => exists|i: int|
                0 <= i < items.len() && (#[trigger] items[i]).len() != PREIMAGE_LEN,
        },
    decreases items.len(),
{
    if items.len() > 0 {
        let last = items.len() - 1;
        law_rebuild(items.drop_last());
        if items[last].len() == PREIMAGE_LEN {
            match rebuild_spec(items.drop_last()) {
                Ok(rest) => {
                    assert(seq![items.last()] + rest =~= items.reverse());
                    assert forall|i: int| 0 <= i < items.len() implies (#[trigger] items[i]).len()
                        == PREIMAGE_LEN by {
                        if i < last {
                            assert(items.drop_last()[i] == items[i]);
                        }
                    }
                },
                Err(e) => {
                    let i = choose|i: int|
                        0 <= i < items.drop_last().len() && (#[trigger] items.drop_last()[i]).len()
                            != PREIMAGE_LEN;
                    assert(items[i].len() != PREIMAGE_LEN);
                },
            }
        }
    } else {
        assert(items.reverse() =~= Seq::empty());
    }
}

} // verus!
