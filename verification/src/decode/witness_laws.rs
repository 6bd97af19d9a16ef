//! The decoder reads back what a key opened or signed.

use vstd::prelude::*;

use crate::decode::gadgets::{blocks_of, gadgets_from, open_digits, BlockView, GadgetView};
use crate::decode::laws::read_back_all;
use crate::decode::witness::{bit_gadgets, block_digit, digit_place, opened_bit, resolved};
use crate::decode::wots_laws::law_wots_verify_recognised;
use crate::lamport::winternitz::{
    digit_secret_spec, hash_times_spec, wots_verify_ins, WotsParams, MAX_DIGIT,
};
use crate::lamport::winternitz_laws::lemma_hash_times_add;

verus! {

// ----- bits -----

/// Whether a gadget has a hash among those that open it.
pub open spec fn has_hash(gadget: GadgetView, hash: Seq<u8>) -> bool {
    match gadget {
        GadgetView::BitDecode { h0, h1, dropped } => hash == h0 || hash == h1,
        GadgetView::ExpectBit { h } => hash == h,
        _ => false,
    }
}

/// A preimage of one of a bit decode's hashes opens that gadget, to the bit of the
/// hash, unless a later gadget has the same hash or the gadget has it for both
/// bits.
pub proof fn law_preimage_opens_its_bit(
    gadgets: Seq<GadgetView>,
    g: int,
    h0: Seq<u8>,
    h1: Seq<u8>,
    dropped: bool,
    bit: bool,
)
    requires
        0 <= g < gadgets.len(),
        gadgets[g] == (GadgetView::BitDecode { h0, h1, dropped }),
        h0 != h1,
        forall|j: int|
            g < j < gadgets.len() ==> !has_hash(
                #[trigger] gadgets[j],
                if bit {
                    h1
                } else {
                    h0
                },
            ),
    ensures
        opened_bit(
            gadgets,
            if bit {
                h1
            } else {
                h0
            },
        ) == Some((bit_gadgets(gadgets.take(g)), bit)),
    decreases gadgets.len(),
{
    let rest = gadgets.drop_last();
    if g == gadgets.len() - 1 {
        assert(gadgets.take(g) =~= rest);
    } else {
        assert(!has_hash(
            gadgets[gadgets.len() - 1],
            if bit {
                h1
            } else {
                h0
            },
        ));
        assert forall|j: int| g < j < rest.len() implies !has_hash(
            #[trigger] rest[j],
            if bit {
                h1
            } else {
                h0
            },
        ) by {
            assert(gadgets[j] == rest[j]);
        }
        law_preimage_opens_its_bit(rest, g, h0, h1, dropped, bit);
        assert(rest.take(g) =~= gadgets.take(g));
    }
}

// ----- digits -----

/// The public digits of a secret: every digit's chain at its end.
pub open spec fn public_digits(secret: Seq<u8>, n: nat) -> Seq<Seq<u8>> {
    Seq::new(n, |i: int| hash_times_spec(digit_secret_spec(secret, i as nat), MAX_DIGIT as nat))
}

/// Whether the chains of a secret's digits meet nowhere: only the end of a digit's
/// own chain is its public digit.
pub open spec fn chains_apart(secret: Seq<u8>, n: nat) -> bool {
    forall|i: nat, k: nat, j: int|
        i < n && k <= MAX_DIGIT && 0 <= j < n && #[trigger] hash_times_spec(
            digit_secret_spec(secret, i),
            k,
        ) == #[trigger] public_digits(secret, n)[j] ==> i == j && k == MAX_DIGIT
}

/// The steps that verify the last `n` digits of a key, the last digit first.
spec fn steps(key: Seq<Seq<u8>>, total: int, n: nat) -> Seq<GadgetView> {
    Seq::new(n, |k: int| GadgetView::WotsStep { pk: key[total - 1 - k], tied: None })
}

proof fn lemma_steps_open(key: Seq<Seq<u8>>, total: int, n: nat)
    ensures
        open_digits(steps(key, total, n)) == Seq::new(n, |k: int| key[total - 1 - k]),
        blocks_of(steps(key, total, n)) == Seq::<BlockView>::empty(),
    decreases n,
{
    if n > 0 {
        lemma_steps_open(key, total, (n - 1) as nat);
        assert(steps(key, total, n).drop_last() =~= steps(key, total, (n - 1) as nat));
    }
    assert(open_digits(steps(key, total, n)) =~= Seq::new(n, |k: int| key[total - 1 - k]));
}

/// The verify block of a key: its digits, the last first.
pub open spec fn key_block(params: WotsParams, key: Seq<Seq<u8>>) -> BlockView {
    BlockView {
        msg: params.message_digits as nat,
        ck: params.checksum_digits as nat,
        digits: Seq::new(params.total(), |k: int| key[params.total() - 1 - k]),
    }
}

/// A Winternitz verifier forms one verify block, of the key's digits.
pub proof fn law_verifier_is_one_block(params: WotsParams, key: Seq<Seq<u8>>)
    requires
        params.message_digits >= 1,
        params.checksum_digits >= 1,
        MAX_DIGIT * params.message_digits < 0x8000_0000,
        params.total() <= key.len(),
        forall|i: int| 0 <= i < params.total() ==> (#[trigger] key[i]).len() == 20,
    ensures
        blocks_of(
            gadgets_from(read_back_all(wots_verify_ins(Seq::empty(), params, key)), 0),
        ) == seq![key_block(params, key)],
{
    law_wots_verify_recognised(params, key);
    let n = params.total();
    let all = gadgets_from(read_back_all(wots_verify_ins(Seq::empty(), params, key)), 0);
    assert(all.drop_last() =~= steps(key, n as int, n));
    lemma_steps_open(key, n as int, n);
    assert(blocks_of(all) =~= seq![key_block(params, key)]);
}

proof fn lemma_place_from(digits: Seq<Seq<u8>>, h: Seq<u8>, j: int, k: int)
    requires
        0 <= k <= j < digits.len(),
        digits[j] == h,
        forall|m: int| 0 <= m < digits.len() && #[trigger] digits[m] == h ==> m == j,
    ensures
        digit_place(digits, h, k) == Some(j),
    decreases j - k,
{
    if k < j {
        lemma_place_from(digits, h, j, k + 1);
    }
}

proof fn lemma_no_place(digits: Seq<Seq<u8>>, h: Seq<u8>, k: int)
    requires
        0 <= k,
        forall|m: int| 0 <= m < digits.len() ==> #[trigger] digits[m] != h,
    ensures
        digit_place(digits, h, k) is None,
    decreases digits.len() - k,
{
    if k < digits.len() {
        lemma_no_place(digits, h, k + 1);
    }
}

proof fn lemma_resolved_from(
    params: WotsParams,
    secret: Seq<u8>,
    i: int,
    d: int,
    k: int,
)
    requires
        0 <= i < params.total(),
        0 <= d <= MAX_DIGIT,
        0 <= k <= MAX_DIGIT - d,
        chains_apart(secret, params.total()),
    ensures
        resolved(
            seq![key_block(params, public_digits(secret, params.total()))],
            hash_times_spec(digit_secret_spec(secret, i as nat), d as nat),
            k,
        ) == Some((0int, i, d)),
    decreases MAX_DIGIT - d - k,
{
    let n = params.total();
    let key = public_digits(secret, n);
    let block = key_block(params, key);
    let start = digit_secret_spec(secret, i as nat);
    let arg = hash_times_spec(start, d as nat);
    let h = hash_times_spec(arg, k as nat);
    lemma_hash_times_add(start, d as nat, k as nat);
    if d + k == MAX_DIGIT {
        let j = n - 1 - i;
        assert(block.digits[j] == key[i]);
        assert forall|m: int| 0 <= m < block.digits.len() && #[trigger] block.digits[m]
            == h implies m == j by {
            assert(key[n - 1 - m] == h);
        }
        lemma_place_from(block.digits, h, j, 0);
        assert(block_digit(seq![block], h, 0) == Some((0int, i)));
    } else {
        assert forall|m: int| 0 <= m < block.digits.len() implies #[trigger] block.digits[m]
            != h by {
            assert(block.digits[m] == key[n - 1 - m]);
        }
        lemma_no_place(block.digits, h, 0);
        assert(block_digit(seq![block], h, 1) is None);
        assert(block_digit(seq![block], h, 0) is None);
        lemma_resolved_from(params, secret, i, d, k + 1);
    }
}

/// Every hash of a signature resolves, under the verifier of its key, to its digit
/// and the digit's value, unless two hash chains of the key meet.
pub proof fn law_signature_hash_resolves(params: WotsParams, secret: Seq<u8>, i: int, d: int)
    requires
        0 <= i < params.total(),
        0 <= d <= MAX_DIGIT,
        chains_apart(secret, params.total()),
    ensures
        resolved(
            seq![key_block(params, public_digits(secret, params.total()))],
            hash_times_spec(digit_secret_spec(secret, i as nat), d as nat),
            0,
        ) == Some((0int, i, d)),
{
    lemma_resolved_from(params, secret, i, d, 0);
}

} // verus!
