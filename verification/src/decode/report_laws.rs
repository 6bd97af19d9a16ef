//! What a report says of a witness, in terms of the witness alone.

use vstd::prelude::*;

use crate::decode::gadgets::{blocks_of, gadgets_from, BlockView, GadgetView};
use crate::decode::instructions::{parse_script, readable};
use crate::decode::laws::read_back_all;
use crate::decode::text::hex_text;
use crate::decode::witness::{
    arg_of, arg_views, args_of, bit_gadgets, block_digit, decodes, digit_place, insert_bit,
    opened_bit, opened_bits, reports_spend, resolved, run_views, runs_of, sort_bits, ArgView,
    RunView, ScriptSpend,
};
use crate::decode::witness_laws::{
    chains_apart, law_signature_hash_resolves, law_verifier_is_one_block, public_digits,
};
use crate::decode::wots_laws::law_wots_verify_recognised;
use crate::hashing::hash160_spec;
use crate::lamport::winternitz::{
    digit_item, digit_secret_spec, hash_times_spec, sig_items, wots_verify_ins, WotsParams,
    MAX_DIGIT,
};
use crate::lamport::winternitz_laws::lemma_digit_item_num;
use crate::script::machine::{lemma_num_round_trip, lemma_num_size, num_bytes};

verus! {

// ----- signatures -----

proof fn lemma_chain_len(x: Seq<u8>, n: nat)
    requires
        x.len() == 20,
    ensures
        hash_times_spec(x, n).len() == 20,
{
}

/// A hash opens no bit where there are no bits.
proof fn lemma_nothing_opened(gadgets: Seq<GadgetView>, hash: Seq<u8>)
    requires
        forall|j: int|
            0 <= j < gadgets.len() ==> !(#[trigger] gadgets[j] is BitDecode) && !(gadgets[j] is ExpectBit),
    ensures
        opened_bit(gadgets, hash) is None,
        bit_gadgets(gadgets) == 0,
    decreases gadgets.len(),
{
    if gadgets.len() > 0 {
        let rest = gadgets.drop_last();
        assert(!(gadgets[gadgets.len() - 1] is BitDecode));
        assert forall|j: int| 0 <= j < rest.len() implies !(#[trigger] rest[j] is BitDecode) && !(
        rest[j] is ExpectBit) by {
            assert(!(gadgets[j] is BitDecode));
        }
        lemma_nothing_opened(rest, hash);
    }
}

/// The report of a witness that carries a signature under the verifier of its key:
/// the elements come in pairs, the last digit first. Of each pair the first is
/// reported as the number of the digit, the second as the digit of that index, with
/// the value that was signed and the number declared beside it, which are the same.
/// Two hash chains of the key must not meet.
pub proof fn law_signature_is_reported(
    spend: ScriptSpend,
    params: WotsParams,
    secret: Seq<u8>,
    digits: Seq<u8>,
    hashes: Seq<Seq<u8>>,
    script: Seq<u8>,
    control: Seq<u8>,
    i: int,
)
    requires
        params.message_digits >= 1,
        params.checksum_digits >= 1,
        15 * params.message_digits < 0x8000_0000,
        chains_apart(secret, params.total()),
        digits.len() == params.total(),
        hashes.len() == params.total(),
        forall|j: int| 0 <= j < digits.len() ==> #[trigger] digits[j] <= 15,
        forall|j: int|
            0 <= j < hashes.len() ==> #[trigger] hashes[j] == hash_times_spec(
                digit_secret_spec(secret, j as nat),
                digits[j] as nat,
            ),
        readable(parse_script(script)) == read_back_all(
            wots_verify_ins(Seq::empty(), params, public_digits(secret, params.total())),
        ),
        reports_spend(
            spend,
            sig_items(digits, hashes).reverse() + seq![script, control],
            script,
            control,
        ),
        0 <= i < params.total(),
    ensures
        ({
            let args = arg_views(spend.args@);
            let at = 2 * (params.total() - 1 - i);
            &&& args.len() == 2 * params.total()
            &&& args[at] == ArgView::Number(digits[i] as int)
            &&& args[at + 1] == (ArgView::WotsReveal {
                head: hex_text(hashes[i].take(4)),
                block: 0,
                digit: i,
                value: digits[i] as int,
                declared: Some(digits[i] as int),
            })
        }),
{
    let n = params.total();
    let key = public_digits(secret, n);
    let gs = gadgets_from(readable(parse_script(script)), 0);
    let bs = blocks_of(gs);
    let carried = sig_items(digits, hashes);
    let items = carried.reverse() + seq![script, control];
    assert forall|j: int| 0 <= j < n implies (#[trigger] key[j]).len() == 20 by {
        lemma_chain_len(digit_secret_spec(secret, j as nat), MAX_DIGIT as nat);
    }
    law_wots_verify_recognised(params, key);
    law_verifier_is_one_block(params, key);
    let args = arg_views(spend.args@);
    let all = args_of(gs, bs, items, 2 * n as int, 2 * n as int);
    assert(args == all);
    let at = 2 * (n - 1 - i);
    let d = digits[i];
    assert(d <= 15);
    assert forall|k: int| 0 <= k < 2 * n implies #[trigger] items[2 * n - 1 - k] == carried[k] by {
        assert(carried.reverse()[2 * n - 1 - k] == carried[k]);
    }
    assert(items[2 * n - 1 - at] == carried[at]);
    assert(items[2 * n - 1 - (at + 1)] == carried[at + 1]);
    assert(at / 2 == n - 1 - i && at % 2 == 0);
    assert((at + 1) / 2 == n - 1 - i && (at + 1) % 2 == 1);
    assert(carried[at] == digit_item(d));
    assert(carried[at + 1] == hashes[i]);
    lemma_digit_item_num(d);
    lemma_num_round_trip(d as int);
    lemma_chain_len(digit_secret_spec(secret, i as nat), d as nat);
    lemma_nothing_opened(gs, hash160_spec(hashes[i]));
    law_signature_hash_resolves(params, secret, i, d as int);
}

// ----- what an argument is -----

/// The length of an element tells what it can be, and nothing else does: 64 bytes are
/// a signature, 20 bytes a preimage, a hash of a digit or an unopened hash, up to
/// four bytes a number, 32 bytes a secret.
pub proof fn law_length_tells_the_kind(
    gadgets: Seq<GadgetView>,
    blocks: Seq<BlockView>,
    item: Seq<u8>,
    before: Option<Seq<u8>>,
)
    ensures
        ({
            let arg = arg_of(gadgets, blocks, item, before);
            &&& arg is Signature <==> item.len() == 64
            &&& (arg is Preimage || arg is WotsReveal || arg is Unopened) <==> item.len() == 20
            &&& arg is Number <==> item.len() <= 4
            &&& arg is Secret <==> item.len() == 32
            &&& arg is Bytes <==> (item.len() > 4 && item.len() != 20 && item.len() != 32
                && item.len() != 64)
            &&& item.len() == 64 ==> arg->Signature_head == hex_text(item.take(8))
            &&& item.len() == 32 ==> arg->Secret_head == hex_text(item.take(4))
            &&& arg is Bytes ==> arg->len == item.len() && arg->hex == hex_text(item)
        }),
{
}

/// Hexadecimal text writes every byte as two digits, the high half first.
pub proof fn law_hex_text(bytes: Seq<u8>, i: int)
    requires
        0 <= i < bytes.len(),
    ensures
        hex_text(bytes).len() == 2 * bytes.len(),
        hex_value(hex_text(bytes)[2 * i]) * 16 + hex_value(hex_text(bytes)[2 * i + 1]) == bytes[i],
{
}

/// The number that a hexadecimal digit writes.
pub open spec fn hex_value(c: char) -> int {
    if 0x30 <= c as u32 <= 0x39 {
        c as u32 - 0x30
    } else {
        c as u32 - 0x57
    }
}

/// A script number is reported as the number that it is.
pub proof fn law_number_is_reported(
    gadgets: Seq<GadgetView>,
    blocks: Seq<BlockView>,
    v: int,
    before: Option<Seq<u8>>,
)
    requires
        -0x8000_0000 < v < 0x8000_0000,
    ensures
        arg_of(gadgets, blocks, num_bytes(v), before) == ArgView::Number(v),
{
    lemma_num_size(v);
    lemma_num_round_trip(v);
}

/// Whether gadget `j` is a bit gadget that `hash` opens to `bit`.
pub open spec fn opens_to(gadget: GadgetView, hash: Seq<u8>, bit: bool) -> bool {
    match gadget {
        GadgetView::BitDecode { h0, h1, dropped } => if bit {
            hash == h1
        } else {
            hash == h0
        },
        GadgetView::ExpectBit { h } => bit && hash == h,
        _ => false,
    }
}

/// A reported preimage does open the bit that it is reported to open: its hash is
/// that gadget's hash of the bit, and the gadget is the one of that number among the
/// bit gadgets. A hash that opens some gadget is reported.
pub proof fn law_reported_preimage_opens(gadgets: Seq<GadgetView>, hash: Seq<u8>)
    ensures
        opened_bit(gadgets, hash) matches Some((k, bit)) ==> exists|j: int|
            0 <= j < gadgets.len() && #[trigger] opens_to(gadgets[j], hash, bit) && bit_gadgets(
                gadgets.take(j),
            ) == k,
        forall|j: int, bit: bool|
            0 <= j < gadgets.len() && #[trigger] opens_to(gadgets[j], hash, bit) ==> opened_bit(
                gadgets,
                hash,
            ) is Some,
    decreases gadgets.len(),
{
    if gadgets.len() > 0 {
        let rest = gadgets.drop_last();
        let last = gadgets.len() - 1;
        law_reported_preimage_opens(rest, hash);
        assert(gadgets.take(last) =~= rest);
        let here = opens_to(gadgets[last], hash, true) || opens_to(gadgets[last], hash, false);
        if here {
            let (k, bit) = opened_bit(gadgets, hash).unwrap();
            assert(k == bit_gadgets(gadgets.take(last)));
            if bit {
                assert(opens_to(gadgets[last], hash, true));
            } else {
                assert(opens_to(gadgets[last], hash, false));
            }
            assert(opens_to(gadgets[last], hash, bit));
        } else {
            assert(opened_bit(gadgets, hash) == opened_bit(rest, hash));
            if opened_bit(rest, hash) is Some {
                let (k, bit) = opened_bit(rest, hash).unwrap();
                let j = choose|j: int|
                    0 <= j < rest.len() && #[trigger] opens_to(rest[j], hash, bit) && bit_gadgets(
                        rest.take(j),
                    ) == k;
                assert(opens_to(gadgets[j], hash, bit));
                assert(rest.take(j) =~= gadgets.take(j));
            }
        }
        assert forall|j: int, bit: bool|
            0 <= j < gadgets.len() && #[trigger] opens_to(
                gadgets[j],
                hash,
                bit,
            ) implies opened_bit(gadgets, hash) is Some by {
            if j < last {
                assert(opens_to(rest[j], hash, bit));
            }
        }
    }
}

/// Bit gadgets are counted one by one.
pub proof fn law_bit_gadgets_count(gadgets: Seq<GadgetView>, g: GadgetView)
    ensures
        bit_gadgets(Seq::<GadgetView>::empty()) == 0,
        bit_gadgets(gadgets.push(g)) == bit_gadgets(gadgets) + if g is BitDecode || g is ExpectBit {
            1nat
        } else {
            0nat
        },
{
    assert(gadgets.push(g).drop_last() =~= gadgets);
}

proof fn lemma_place_sound(digits: Seq<Seq<u8>>, h: Seq<u8>, j: int)
    requires
        0 <= j,
    ensures
        digit_place(digits, h, j) matches Some(k) ==> j <= k < digits.len() && digits[k] == h,
    decreases digits.len() - j,
{
    if j < digits.len() {
        lemma_place_sound(digits, h, j + 1);
    }
}

proof fn lemma_block_sound(blocks: Seq<BlockView>, h: Seq<u8>, b: int)
    requires
        0 <= b,
    ensures
        block_digit(blocks, h, b) matches Some((c, digit)) ==> {
            let at = blocks[c].msg + blocks[c].ck - 1 - digit;
            &&& b <= c < blocks.len()
            &&& 0 <= at < blocks[c].digits.len()
            &&& 0 <= digit
            &&& blocks[c].digits[at] == h
        },
    decreases blocks.len() - b,
{
    if b < blocks.len() {
        lemma_place_sound(blocks[b].digits, h, 0);
        lemma_block_sound(blocks, h, b + 1);
    }
}

/// A reported digit is on its chain: as many hashes as the value falls short of 15
/// lead from the element to the public digit of that index, counted from the end of
/// the block.
pub proof fn law_reported_digit_is_on_its_chain(blocks: Seq<BlockView>, item: Seq<u8>, k: int)
    requires
        0 <= k <= 15,
    ensures
        resolved(blocks, item, k) matches Some((b, digit, value)) ==> {
            &&& 0 <= b < blocks.len()
            &&& 0 <= value <= 15 - k
            &&& 0 <= digit < blocks[b].msg + blocks[b].ck
            &&& blocks[b].digits[blocks[b].msg + blocks[b].ck - 1 - digit] == hash_times_spec(
                item,
                (15 - value) as nat,
            )
        },
    decreases 16 - k,
{
    lemma_block_sound(blocks, hash_times_spec(item, k as nat), 0);
    if k < 15 {
        law_reported_digit_is_on_its_chain(blocks, item, k + 1);
    }
}

/// The arguments are reported in the order in which a script consumes them: the last
/// element before the leaf first.
pub proof fn law_arguments_in_order(
    gadgets: Seq<GadgetView>,
    blocks: Seq<BlockView>,
    items: Seq<Seq<u8>>,
    n: int,
    i: int,
)
    requires
        0 <= i < n <= items.len(),
    ensures
        args_of(gadgets, blocks, items, n, n).len() == n,
        args_of(gadgets, blocks, items, n, n)[n - 1 - i] == arg_of(
            gadgets,
            blocks,
            items[i],
            if i + 1 < n {
                Some(items[i + 1])
            } else {
                None
            },
        ),
{
}

// ----- runs of bits -----

/// Whether bits are in the order of their gadgets.
pub open spec fn in_order(s: Seq<(nat, bool)>) -> bool {
    forall|i: int, j: int| 0 <= i <= j < s.len() ==> (#[trigger] s[i]).0 <= (#[trigger] s[j]).0
}

proof fn lemma_inserted(s: Seq<(nat, bool)>, x: (nat, bool))
    requires
        in_order(s),
    ensures
        in_order(insert_bit(s, x)),
        insert_bit(s, x).len() == s.len() + 1,
        insert_bit(s, x).to_multiset() == s.to_multiset().insert(x),
        forall|i: int|
            0 <= i < insert_bit(s, x).len() ==> (#[trigger] insert_bit(s, x)[i]) == x || s.contains(
                insert_bit(s, x)[i],
            ),
    decreases s.len(),
{
    broadcast use vstd::seq_lib::group_to_multiset_ensures;

    if s.len() == 0 || s.last().0 <= x.0 {
        let t = s.push(x);
        assert forall|i: int| 0 <= i < t.len() implies (#[trigger] t[i]) == x || s.contains(
            t[i],
        ) by {
            if i < s.len() {
                assert(s[i] == t[i]);
            }
        }
        assert forall|i: int, j: int| 0 <= i <= j < t.len() implies (#[trigger] t[i]).0
            <= (#[trigger] t[j]).0 by {
            if j == s.len() && i < j {
                assert(s[i].0 <= s[s.len() - 1].0);
            } else if j < s.len() {
                assert(s[i].0 <= s[j].0);
            }
        }
    } else {
        let rest = s.drop_last();
        let inner = insert_bit(rest, x);
        assert(in_order(rest)) by {
            assert forall|i: int, j: int| 0 <= i <= j < rest.len() implies (#[trigger] rest[i]).0
                <= (#[trigger] rest[j]).0 by {
                assert(s[i].0 <= s[j].0);
            }
        }
        lemma_inserted(rest, x);
        let t = inner.push(s.last());
        assert(rest.push(s.last()) =~= s);
        assert(s.to_multiset() == rest.to_multiset().insert(s.last()));
        assert(t.to_multiset() =~= s.to_multiset().insert(x));
        assert forall|i: int| 0 <= i < t.len() implies (#[trigger] t[i]) == x || s.contains(
            t[i],
        ) by {
            if i < inner.len() {
                assert(inner[i] == x || rest.contains(inner[i]));
                if rest.contains(inner[i]) {
                    let k = choose|k: int| 0 <= k < rest.len() && rest[k] == inner[i];
                    assert(s[k] == t[i]);
                }
            } else {
                assert(s[s.len() - 1] == t[i]);
            }
        }
        assert forall|i: int, j: int| 0 <= i <= j < t.len() implies (#[trigger] t[i]).0
            <= (#[trigger] t[j]).0 by {
            if j < inner.len() {
                assert(inner[i].0 <= inner[j].0);
            } else if i < inner.len() {
                assert(inner[i] == x || rest.contains(inner[i]));
                if rest.contains(inner[i]) {
                    let k = choose|k: int| 0 <= k < rest.len() && rest[k] == inner[i];
                    assert(s[k].0 <= s[s.len() - 1].0);
                }
            }
        }
    }
}

/// Sorting puts the opened bits in the order of their gadgets, loses none and adds
/// none.
pub proof fn law_bits_are_sorted(s: Seq<(nat, bool)>)
    ensures
        in_order(sort_bits(s)),
        sort_bits(s).len() == s.len(),
        sort_bits(s).to_multiset() == s.to_multiset(),
    decreases s.len(),
{
    broadcast use vstd::seq_lib::group_to_multiset_ensures;

    if s.len() > 0 {
        let rest = s.drop_last();
        law_bits_are_sorted(rest);
        lemma_inserted(sort_bits(rest), s.last());
        assert(rest.push(s.last()) =~= s);
    }
}

/// The bits of runs, one run after another.
pub open spec fn run_bits(runs: Seq<RunView>) -> Seq<bool>
    decreases runs.len(),
{
    if runs.len() == 0 {
        Seq::empty()
    } else {
        run_bits(runs.drop_last()) + runs.last().bits
    }
}

/// Runs hold all bits in their order, no run is empty, and the last run is of the
/// kind of the last bit's gadget.
pub proof fn law_runs_hold_all_bits(gadgets: Seq<GadgetView>, s: Seq<(nat, bool)>)
    ensures
        run_bits(runs_of(gadgets, s)) == Seq::new(s.len(), |i: int| s[i].1),
        forall|r: int|
            0 <= r < runs_of(gadgets, s).len() ==> (#[trigger] runs_of(gadgets, s)[r]).bits.len() > 0,
        s.len() > 0 ==> runs_of(gadgets, s).len() > 0 && runs_of(gadgets, s).last().decoded
            == decodes(gadgets, s.last().0),
    decreases s.len(),
{
    let all = Seq::new(s.len(), |i: int| s[i].1);
    if s.len() > 0 {
        let rest = s.drop_last();
        law_runs_hold_all_bits(gadgets, rest);
        let before = runs_of(gadgets, rest);
        let runs = runs_of(gadgets, s);
        let less = Seq::new(rest.len(), |i: int| rest[i].1);
        assert(all =~= less.push(s.last().1));
        if runs.len() == before.len() {
            assert(runs.drop_last() =~= before.drop_last());
            assert(run_bits(runs) =~= all);
        } else {
            assert(runs.drop_last() =~= before);
            assert(run_bits(runs) =~= all);
        }
        assert forall|r: int| 0 <= r < runs.len() implies (#[trigger] runs[r]).bits.len() > 0 by {
            if r < runs.len() - 1 {
                assert(before[r].bits.len() > 0);
            }
        }
    } else {
        assert(run_bits(runs_of(gadgets, s)) =~= all);
    }
}

/// The opened bits are those of the reported preimages, in the order of the
/// arguments.
pub proof fn law_opened_bits(args: Seq<ArgView>, arg: ArgView)
    ensures
        opened_bits(Seq::<ArgView>::empty()) == Seq::<(nat, bool)>::empty(),
        arg matches ArgView::Preimage { head, gadget, bit } ==> opened_bits(args.push(arg))
            == opened_bits(args).push((gadget, bit)),
        !(arg is Preimage) ==> opened_bits(args.push(arg)) == opened_bits(args),
{
    assert(args.push(arg).drop_last() =~= args);
}

// ----- the spend -----

/// A report measures the leaf and the control block, gives the depth of the leaf in
/// its tree, one step for 32 bytes after the first 33, and has one argument for each
/// element before the leaf script's place.
pub proof fn law_spend_is_measured(
    spend: ScriptSpend,
    items: Seq<Seq<u8>>,
    script: Seq<u8>,
    control: Seq<u8>,
    depth: nat,
)
    requires
        reports_spend(spend, items, script, control),
        items.len() >= 2,
        control.len() == 33 + 32 * depth,
    ensures
        spend.leaf_len == script.len(),
        spend.control_len == control.len(),
        spend.depth == depth,
        spend.args@.len() == items.len() - 2,
        run_bits(run_views(spend.runs@)).len() == opened_bits(arg_views(spend.args@)).len(),
{
    let gs = gadgets_from(readable(parse_script(script)), 0);
    let n = items.len() - 2;
    assert(arg_views(spend.args@).len() == spend.args@.len());
    assert(args_of(gs, blocks_of(gs), items, n, n).len() == n);
    let bits = opened_bits(arg_views(spend.args@));
    law_bits_are_sorted(bits);
    law_runs_hold_all_bits(gs, sort_bits(bits));
}

} // verus!
