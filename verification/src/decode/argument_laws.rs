//! Which bit or digit an argument of a witness is reported as, where more than one
//! reading is possible, and how the bits are grouped.

use vstd::prelude::*;

use crate::decode::gadgets::{BlockView, GadgetView};
use crate::decode::text::hex_text;
use crate::decode::witness::{
    arg_of, bit_gadgets, block_digit, decodes, digit_place, fits_witness, insert_bit, leaf_script,
    length_size, opened_bit, resolved, runs_of, script_spend, sort_bits, witness_len, ArgView,
};
use crate::hashing::hash160_spec;
use crate::lamport::winternitz::hash_times_spec;
use crate::script::machine::{bytes_num, num_bytes, signed_value};

verus! {

// ----- the leaf -----

/// A witness spends the leaf in its last element but one, with the control block in
/// the last; an annex behind them changes nothing.
pub proof fn law_leaf_is_found(
    args: Seq<Seq<u8>>,
    script: Seq<u8>,
    control: Seq<u8>,
    annex: Seq<u8>,
)
    requires
        control.len() > 0 && control[0] != 0x50,
        annex.len() > 0 && annex[0] == 0x50,
    ensures
        script_spend(args.push(script).push(control)) == Some((script, control)),
        script_spend(args.push(script).push(control).push(annex)) == Some((script, control)),
        control.len() < 33 ==> leaf_script(args.push(script).push(control)) is None,
        control.len() >= 33 && control[0] & 0xfe != 0x50 ==> leaf_script(
            args.push(script).push(control),
        ) == Some(script),
        script_spend(seq![script]) is None,
        script_spend(Seq::empty()) is None,
{
}

/// The elements of a witness take their own bytes and one, three, five or nine for the
/// length of each.
pub proof fn law_witness_len(a: Seq<Seq<u8>>, b: Seq<Seq<u8>>, item: Seq<u8>)
    ensures
        witness_len(a + b) == witness_len(a) + witness_len(b),
        witness_len(seq![item]) == item.len() + length_size(item.len()),
        length_size(item.len()) == 1 <==> item.len() < 253,
        length_size(item.len()) == 3 <==> 253 <= item.len() < 0x1_0000,
        length_size(item.len()) == 5 <==> 0x1_0000 <= item.len() < 0x1_0000_0000,
        length_size(item.len()) == 9 <==> 0x1_0000_0000 <= item.len(),
    decreases b.len(),
{
    reveal_with_fuel(witness_len, 2);
    assert(seq![item].drop_last() =~= Seq::<Seq<u8>>::empty());
    if b.len() == 0 {
        assert(a + b =~= a);
    } else {
        law_witness_len(a, b.drop_last(), item);
        assert((a + b).drop_last() =~= a + b.drop_last());
        assert((a + b).last() == b.last());
    }
}

/// A witness can hold no more than can be allocated, and its last element starts at a
/// place of 32 bits; whatever holds more elements can hold fewer.
pub proof fn law_fits_witness(items: Seq<Seq<u8>>, item: Seq<u8>)
    ensures
        fits_witness(items.push(item)) <==> witness_len(items) <= 0xffff_ffff && witness_len(
            items.push(item),
        ) + 4 * (items.len() + 1) <= isize::MAX,
        fits_witness(Seq::empty()),
{
    assert(items.push(item).drop_last() =~= items);
}

// ----- arguments of 20 bytes, and short ones -----

/// An element of 20 bytes is a preimage if its hash opens a bit, else a digit if it is
/// on the chain of one, else unopened. Its first four bytes are shown; a digit comes
/// with the number before it, if that is short.
pub proof fn law_twenty_bytes(
    gadgets: Seq<GadgetView>,
    blocks: Seq<BlockView>,
    item: Seq<u8>,
    before: Option<Seq<u8>>,
)
    requires
        item.len() == 20,
    ensures
        ({
            let arg = arg_of(gadgets, blocks, item, before);
            let bit = opened_bit(gadgets, hash160_spec(item));
            let digit = resolved(blocks, item, 0);
            let head = hex_text(item.subrange(0, 4));
            &&& arg is Preimage <==> bit is Some
            &&& arg is WotsReveal <==> bit is None && digit is Some
            &&& arg is Unopened <==> bit is None && digit is None
            &&& arg matches ArgView::Preimage { head: h, gadget, bit: v } ==> h == head && bit
                == Some((gadget, v))
            &&& arg matches ArgView::WotsReveal { head: h, block, digit: d, value, declared } ==> {
                &&& h == head
                &&& digit == Some((block, d, value))
                &&& declared is Some <==> (before is Some && (before->0).len() <= 4)
                &&& declared matches Some(n) ==> (bytes_num(before->0) == Some(n) || bytes_num(
                    before->0,
                ) is None && n == 0)
            }
            &&& arg matches ArgView::Unopened { head: h } ==> h == head
        }),
{
    assert(item.subrange(0, 4) =~= item.take(4));
}

/// A short element that is no minimal number is reported as 0.
pub proof fn law_other_numbers_are_zero(
    gadgets: Seq<GadgetView>,
    blocks: Seq<BlockView>,
    item: Seq<u8>,
    before: Option<Seq<u8>>,
)
    requires
        item.len() <= 4,
        forall|v: int| #[trigger] num_bytes(v) != item,
    ensures
        arg_of(gadgets, blocks, item, before) == ArgView::Number(0),
{
    reveal(bytes_num);
    assert(num_bytes(signed_value(item)) != item);
}

/// Of several gadgets that a hash opens the last one is reported, and of its two
/// hashes that of 1.
pub proof fn law_last_gadget_is_reported(
    gadgets: Seq<GadgetView>,
    h0: Seq<u8>,
    h1: Seq<u8>,
    dropped: bool,
    other: GadgetView,
    hash: Seq<u8>,
)
    requires
        !(other is BitDecode) && !(other is ExpectBit),
    ensures
        ({
            let bit = gadgets.push(GadgetView::BitDecode { h0, h1, dropped });
            let expect = gadgets.push(GadgetView::ExpectBit { h: h1 });
            let k = bit_gadgets(gadgets);
            &&& opened_bit(bit, h1) == Some((k, true))
            &&& h0 != h1 ==> opened_bit(bit, h0) == Some((k, false))
            &&& hash != h0 && hash != h1 ==> opened_bit(bit, hash) == opened_bit(gadgets, hash)
            &&& opened_bit(expect, h1) == Some((k, true))
            &&& hash != h1 ==> opened_bit(expect, hash) == opened_bit(gadgets, hash)
            &&& opened_bit(gadgets.push(other), hash) == opened_bit(gadgets, hash)
        }),
{
    assert(gadgets.push(GadgetView::BitDecode { h0, h1, dropped }).drop_last() =~= gadgets);
    assert(gadgets.push(GadgetView::ExpectBit { h: h1 }).drop_last() =~= gadgets);
    assert(gadgets.push(other).drop_last() =~= gadgets);
}

proof fn lemma_first_place(digits: Seq<Seq<u8>>, h: Seq<u8>, j: int)
    requires
        0 <= j,
    ensures
        match digit_place(digits, h, j) {
            Some(k) => j <= k < digits.len() && digits[k] == h && forall|i: int|
                j <= i < k ==> #[trigger] digits[i] != h,
            None => forall|i: int| j <= i < digits.len() ==> #[trigger] digits[i] != h,
        },
    decreases digits.len() - j,
{
    if j < digits.len() {
        lemma_first_place(digits, h, j + 1);
    }
}

/// Whether a hash is the first of its value among a block's public digits, at a place
/// that the block's finale closes.
pub open spec fn is_digit_at(block: BlockView, h: Seq<u8>, at: int) -> bool {
    &&& 0 <= at < block.digits.len()
    &&& at < block.msg + block.ck
    &&& block.digits[at] == h
    &&& forall|i: int| 0 <= i < at ==> #[trigger] block.digits[i] != h
}

/// A hash is the digit of the first block that has it, counted from the end of the
/// block; it is none only if no block has it.
pub proof fn law_first_block_is_reported(blocks: Seq<BlockView>, h: Seq<u8>, b: int)
    requires
        0 <= b,
    ensures
        match block_digit(blocks, h, b) {
            Some((c, digit)) => {
                &&& b <= c < blocks.len()
                &&& is_digit_at(blocks[c], h, blocks[c].msg + blocks[c].ck - 1 - digit)
                &&& forall|k: int, at: int|
                    b <= k < c ==> !#[trigger] is_digit_at(blocks[k], h, at)
            },
            None => forall|k: int, at: int|
                b <= k < blocks.len() ==> !#[trigger] is_digit_at(blocks[k], h, at),
        },
    decreases blocks.len() - b,
{
    if b < blocks.len() {
        lemma_first_place(blocks[b].digits, h, 0);
        law_first_block_is_reported(blocks, h, b + 1);
        assert forall|at: int| #[trigger] is_digit_at(blocks[b], h, at) implies digit_place(
            blocks[b].digits,
            h,
            0,
        ) == Some(at) by {
            let found = digit_place(blocks[b].digits, h, 0);
            if let Some(k) = found {
                if k < at {
                    assert(blocks[b].digits[k] != h);
                } else if at < k {
                    assert(blocks[b].digits[at] != h);
                }
            } else {
                assert(blocks[b].digits[at] != h);
            }
        }
    }
}

/// An element is the digit that the fewest hashes lead to, and none only if no number
/// of hashes up to 15 leads to one.
pub proof fn law_fewest_hashes_count(blocks: Seq<BlockView>, item: Seq<u8>, k: int)
    requires
        0 <= k <= 16,
    ensures
        match resolved(blocks, item, k) {
            Some((b, digit, value)) => {
                &&& k <= 15 - value <= 15
                &&& block_digit(blocks, hash_times_spec(item, (15 - value) as nat), 0) == Some(
                    (b, digit),
                )
                &&& forall|n: nat|
                    k <= n < 15 - value ==> block_digit(
                        blocks,
                        #[trigger] hash_times_spec(item, n),
                        0,
                    ) is None
            },
            None => forall|n: nat|
                k <= n <= 15 ==> block_digit(
                    blocks,
                    #[trigger] hash_times_spec(item, n),
                    0,
                ) is None,
        },
    decreases 16 - k,
{
    if k <= 15 {
        law_fewest_hashes_count(blocks, item, k + 1);
    }
}

// ----- bits in order, and their runs -----

/// The bits that were opened of one gadget, in their order.
pub open spec fn bits_at(s: Seq<(nat, bool)>, k: nat) -> Seq<bool>
    decreases s.len(),
{
    if s.len() == 0 {
        Seq::empty()
    } else if s.last().0 == k {
        bits_at(s.drop_last(), k).push(s.last().1)
    } else {
        bits_at(s.drop_last(), k)
    }
}

proof fn lemma_bits_at_push(s: Seq<(nat, bool)>, x: (nat, bool), k: nat)
    ensures
        bits_at(s.push(x), k) == if x.0 == k {
            bits_at(s, k).push(x.1)
        } else {
            bits_at(s, k)
        },
{
    assert(s.push(x).drop_last() =~= s);
}

proof fn lemma_insert_keeps(s: Seq<(nat, bool)>, x: (nat, bool), k: nat)
    ensures
        bits_at(insert_bit(s, x), k) == bits_at(s.push(x), k),
    decreases s.len(),
{
    if !(s.len() == 0 || s.last().0 <= x.0) {
        let front = s.drop_last();
        lemma_insert_keeps(front, x, k);
        let inner = insert_bit(front, x);
        lemma_bits_at_push(inner, s.last(), k);
        lemma_bits_at_push(front, x, k);
        lemma_bits_at_push(s, x, k);
        lemma_bits_at_push(front, s.last(), k);
        assert(front.push(s.last()) =~= s);
    }
}

/// Sorting by gadget keeps the order of the bits of one gadget.
pub proof fn law_sort_is_stable(s: Seq<(nat, bool)>, k: nat)
    ensures
        bits_at(sort_bits(s), k) == bits_at(s, k),
    decreases s.len(),
{
    if s.len() > 0 {
        let front = s.drop_last();
        law_sort_is_stable(front, k);
        lemma_insert_keeps(sort_bits(front), s.last(), k);
        lemma_bits_at_push(sort_bits(front), s.last(), k);
    }
}

/// A bit gadget decodes or expects its bit, as it stands in the leaf.
pub proof fn law_gadgets_decode(gadgets: Seq<GadgetView>, j: int)
    requires
        0 <= j < gadgets.len(),
    ensures
        gadgets[j] is BitDecode ==> decodes(gadgets, bit_gadgets(gadgets.take(j))),
        gadgets[j] is ExpectBit ==> !decodes(gadgets, bit_gadgets(gadgets.take(j))),
    decreases gadgets.len(),
{
    let front = gadgets.drop_last();
    if j < front.len() {
        law_gadgets_decode(front, j);
        assert(front.take(j) =~= gadgets.take(j));
        lemma_count_grows(front, j);
    } else {
        assert(gadgets.take(j) =~= front);
    }
}

proof fn lemma_count_grows(gadgets: Seq<GadgetView>, j: int)
    requires
        0 <= j < gadgets.len(),
    ensures
        bit_gadgets(gadgets.take(j)) <= bit_gadgets(gadgets),
        gadgets[j] is BitDecode || gadgets[j] is ExpectBit ==> bit_gadgets(gadgets.take(j))
            < bit_gadgets(gadgets),
    decreases gadgets.len(),
{
    let front = gadgets.drop_last();
    if j < front.len() {
        lemma_count_grows(front, j);
        assert(front.take(j) =~= gadgets.take(j));
    } else {
        assert(gadgets.take(j) =~= front);
    }
}

/// A bit goes on with the run before it exactly when its gadget comes right after and
/// both decode, or both expect, their bits; else it starts a run.
pub proof fn law_runs_are_split(gadgets: Seq<GadgetView>, s: Seq<(nat, bool)>, x: (nat, bool))
    ensures
        ({
            let before = runs_of(gadgets, s);
            let after = runs_of(gadgets, s.push(x));
            let joins = s.len() > 0 && x.0 == s.last().0 + 1 && decodes(gadgets, x.0) == decodes(
                gadgets,
                s.last().0,
            );
            &&& after.len() == before.len() + if joins {
                0int
            } else {
                1int
            }
            &&& after.last().decoded == decodes(gadgets, x.0)
            &&& joins ==> after.last().bits == before.last().bits.push(x.1)
            &&& !joins ==> after.last().bits == seq![x.1]
            &&& forall|i: int|
                0 <= i < before.len() && i < after.len() - 1 ==> #[trigger] after[i] == before[i]
        }),
    decreases s.len(),
{
    let all = s.push(x);
    assert(all.drop_last() =~= s);
    if s.len() > 0 {
        let front = s.drop_last();
        assert(front.push(s.last()) =~= s);
        law_runs_are_split(gadgets, front, s.last());
        assert(all[all.len() - 2] == s.last());
    }
}

} // verus!
