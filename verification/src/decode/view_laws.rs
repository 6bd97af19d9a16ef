//! The mathematical values of a report's parts are the parts, field by field.

use vstd::prelude::*;

use crate::decode::gadgets::{
    block_views, digit_views, gadget_views, Gadget, GadgetView, Label, LabelView, WotsBlock,
};
use crate::decode::instructions::{items_ins, read_view};
use crate::decode::text::hex_text;
use crate::decode::witness::{
    arg_views, bit_views, reports_spend, run_views, Arg, ArgView, BitRun, ScriptSpend,
};
use crate::lamport::{items_view, PublicKey, Reveal, SecretKey};
use crate::script::machine::Ins;
use crate::script::Item;

verus! {

/// An argument's value has the argument's kind and fields.
pub proof fn law_arg_view(arg: Arg)
    ensures
        match (arg, arg@) {
            (Arg::Signature { head }, ArgView::Signature { head: h }) => h == head@,
            (
                Arg::Preimage { head, gadget, bit },
                ArgView::Preimage { head: h, gadget: g, bit: b },
            ) => h == head@ && g == gadget && b == bit,
            (
                Arg::WotsReveal { head, block, digit, value, declared },
                ArgView::WotsReveal { head: h, block: b, digit: d, value: v, declared: n },
            ) => {
                &&& h == head@ && b == block && d == digit && v == value
                &&& n is Some <==> declared is Some
                &&& declared is Some ==> n->0 == declared->0
            },
            (Arg::Unopened { head }, ArgView::Unopened { head: h }) => h == head@,
            (Arg::Number(n), ArgView::Number(v)) => v == n,
            (Arg::Secret { head }, ArgView::Secret { head: h }) => h == head@,
            (Arg::Bytes { len, hex }, ArgView::Bytes { len: l, hex: h }) => l == len && h == hex@,
            _ => false,
        },
{
}

/// A gadget's value has the gadget's kind and fields.
pub proof fn law_gadget_view(g: Gadget)
    ensures
        match (g, g@) {
            (
                Gadget::BitDecode { h0, h1, dropped },
                GadgetView::BitDecode { h0: a, h1: b, dropped: d },
            ) => a == h0@ && b == h1@ && d == dropped,
            (Gadget::ExpectBit { h }, GadgetView::ExpectBit { h: a }) => a == h@,
            (Gadget::Timelock { relative, n }, GadgetView::Timelock { relative: r, n: v }) => r
                == relative && v == n,
            (Gadget::TwoOfTwo { verify }, GadgetView::TwoOfTwo { verify: v }) => v == verify,
            (Gadget::Checksig { verify, key4 }, GadgetView::Checksig { verify: v, key4: k }) => v
                == verify && k == key4@,
            (Gadget::WotsStep { pk, tied }, GadgetView::WotsStep { pk: p, tied: t }) => p == pk@ && t
                == tied,
            (Gadget::WotsFinale { msg, ck }, GadgetView::WotsFinale { msg: m, ck: c }) => m == msg
                && c == ck,
            (Gadget::Differ { m }, GadgetView::Differ { m: n }) => n == m,
            (Gadget::ReadoutChunk { point4 }, GadgetView::ReadoutChunk { point4: p }) => p
                == point4@,
            (Gadget::Park { n }, GadgetView::Park { n: m }) => m == n,
            (Gadget::Unpark { n }, GadgetView::Unpark { n: m }) => m == n,
            (Gadget::DropRun { n }, GadgetView::DropRun { n: m }) => m == n,
            (Gadget::Drop2Run { pairs }, GadgetView::Drop2Run { pairs: m }) => m == pairs,
            (Gadget::Other(label), GadgetView::Other(l)) => match (label, l) {
                (Label::Op(op), LabelView::Op(o)) => o == op,
                (Label::Zero, LabelView::Zero) => true,
                (Label::Number(n), LabelView::Number(v)) => v == n,
                (Label::Bytes { len, head }, LabelView::Bytes { len: n, head: h }) => n == len && h
                    == head@,
                _ => false,
            },
            _ => false,
        },
{
}

/// A block's value and a run's have their fields.
pub proof fn law_block_view(block: WotsBlock, run: BitRun, i: int)
    ensures
        block@.msg == block.msg,
        block@.ck == block.ck,
        block@.digits.len() == block.digits@.len(),
        0 <= i < block.digits@.len() ==> block@.digits[i] == block.digits@[i]@,
        run@.decoded == run.decoded,
        run@.bits == run.bits@,
{
}

/// The values of a list are those of its members, in order.
pub proof fn law_lists_of_views(
    args: Seq<Arg>,
    gadgets: Seq<Gadget>,
    blocks: Seq<WotsBlock>,
    digits: Seq<[u8; 20]>,
    bits: Seq<(usize, bool)>,
    runs: Seq<BitRun>,
    i: int,
)
    ensures
        arg_views(args).len() == args.len() && gadget_views(gadgets).len() == gadgets.len(),
        block_views(blocks).len() == blocks.len() && digit_views(digits).len() == digits.len(),
        bit_views(bits).len() == bits.len() && run_views(runs).len() == runs.len(),
        0 <= i < args.len() ==> arg_views(args)[i] == args[i]@,
        0 <= i < gadgets.len() ==> gadget_views(gadgets)[i] == gadgets[i]@,
        0 <= i < blocks.len() ==> block_views(blocks)[i] == blocks[i]@,
        0 <= i < digits.len() ==> digit_views(digits)[i] == digits[i]@,
        0 <= i < bits.len() ==> bit_views(bits)[i].0 == bits[i].0 && bit_views(bits)[i].1
            == bits[i].1,
        0 <= i < runs.len() ==> run_views(runs)[i] == runs[i]@,
{
}

/// An instruction's value is the instruction, and an unread one has none.
pub proof fn law_item_view(item: Item, items: Seq<Item>, i: int)
    ensures
        match (item, item@) {
            (Item::Op(op), Ins::Op(o)) => o == op,
            (Item::Int(n), Ins::Int(v)) => v == n,
            (Item::Bytes(s), Ins::Bytes(b)) => b == s@,
            _ => false,
        },
        read_view(Some(item)) == Some(item@),
        read_view(None) is None,
        items_ins(items).len() == items.len(),
        0 <= i < items.len() ==> items_ins(items)[i] == items[i]@,
{
}

/// The values of keys, reveals and elements are their bytes, in order.
pub proof fn law_key_views(
    sk: SecretKey,
    pk: PublicKey,
    reveal: Reveal,
    items: Seq<Vec<u8>>,
    i: int,
)
    ensures
        sk@.len() == sk.bits@.len() && pk@.len() == pk.bits@.len(),
        reveal@.len() == reveal.preimages@.len() && items_view(items).len() == items.len(),
        0 <= i < sk.bits@.len() ==> sk@[i].0 == sk.bits@[i].p0@ && sk@[i].1 == sk.bits@[i].p1@,
        0 <= i < pk.bits@.len() ==> pk@[i].0 == pk.bits@[i].h0@ && pk@[i].1 == pk.bits@[i].h1@,
        0 <= i < reveal.preimages@.len() ==> reveal@[i] == reveal.preimages@[i]@,
        0 <= i < items.len() ==> items_view(items)[i] == items[i]@,
{
}

/// The depth of a leaf is the number of whole steps, of 32 bytes each, behind the
/// first 33 bytes of its control block.
pub proof fn law_depth(
    spend: ScriptSpend,
    items: Seq<Seq<u8>>,
    script: Seq<u8>,
    control: Seq<u8>,
)
    requires
        reports_spend(spend, items, script, control),
    ensures
        control.len() < 33 ==> spend.depth == 0,
        control.len() >= 33 ==> 33 + 32 * spend.depth <= control.len() < 33 + 32 * (spend.depth
            + 1),
{
}

/// The text of a byte string tells it from all others.
pub proof fn law_hex_injective(a: Seq<u8>, b: Seq<u8>)
    requires
        hex_text(a) == hex_text(b),
    ensures
        a == b,
{
    if a.len() > 0 {
        crate::decode::report_laws::law_hex_text(a, 0);
    }
    if b.len() > 0 {
        crate::decode::report_laws::law_hex_text(b, 0);
    }
    assert(hex_text(a).len() == 2 * a.len());
    assert(hex_text(b).len() == 2 * b.len());
    assert forall|i: int| 0 <= i < a.len() implies a[i] == b[i] by {
        crate::decode::report_laws::law_hex_text(a, i);
        crate::decode::report_laws::law_hex_text(b, i);
    }
    assert(a =~= b);
}

} // verus!
