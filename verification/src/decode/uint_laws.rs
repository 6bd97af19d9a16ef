//! The decoder reads a revealed number back.

use vstd::prelude::*;

use crate::decode::gadgets::{
    at, bit_decode_pattern, checksig_pattern, differ_pattern, expect_bit_pattern,
    finale_head_pattern, fits, gadget_at, gadgets_from, op_pattern, readout_pattern,
    tied_pattern, timelock_pattern, two_of_two_pattern, wots_step_pattern, BlockView, GadgetView,
    LabelView,
};
use crate::decode::laws::{law_bit_decode_recognised, lemma_not_at, read_back, read_back_all};
use crate::decode::witness::{
    args_of, bit_gadgets, consumed, decodes, msb_value, opened_bit,
    opened_bits, runs_of, sort_bits, RunView,
};
use crate::decode::witness_laws::{has_hash, law_preimage_opens_its_bit};
use crate::hashing::hash160_spec;
use crate::lamport::gadgets::{bit_decode_ins, decode_bit_ins, decode_uint_ins};
use crate::lamport::{bits_value, BitCommit};
use crate::script::machine::{num_bytes, Ins};
use crate::script::opcodes::{
    OP_2DROP, OP_ADD, OP_CLTV, OP_CSV, OP_DROP, OP_DUP, OP_FROMALTSTACK, OP_SIZE, OP_SWAP,
    OP_TOALTSTACK,
};

verus! {

// ----- the gadgets of a decoded number -----

/// The gadgets that decode one bit: the number so far doubled, the bit decoded and
/// added.
pub open spec fn bit_steps(c: BitCommit) -> Seq<GadgetView> {
    seq![
        GadgetView::Other(LabelView::Op(OP_DUP)),
        GadgetView::Other(LabelView::Op(OP_ADD)),
        GadgetView::Other(LabelView::Op(OP_SWAP)),
        GadgetView::BitDecode { h0: c.h0@, h1: c.h1@, dropped: false },
        GadgetView::Other(LabelView::Op(OP_ADD)),
    ]
}

/// The gadgets that decode the bits of a key from the `n`-th most significant on.
pub open spec fn uint_steps(key: Seq<BitCommit>, n: nat) -> Seq<GadgetView>
    decreases key.len() - n,
{
    if n >= key.len() {
        Seq::empty()
    } else {
        bit_steps(key[key.len() - 1 - n]) + uint_steps(key, n + 1)
    }
}

/// The gadgets of `decode_uint`: zero, then every bit.
pub open spec fn uint_gadgets(key: Seq<BitCommit>) -> Seq<GadgetView> {
    seq![GadgetView::Other(LabelView::Zero)] + uint_steps(key, 0)
}

/// Whether the opcode starts no gadget by itself, unless followed as they are.
spec fn starts_nothing(op: u8) -> bool {
    op == OP_DUP || op == OP_ADD || op == OP_SWAP
}

proof fn lemma_plain_op(ins: Seq<Ins>, i: int, op: u8)
    requires
        0 <= i < ins.len(),
        ins[i] == Ins::Op(op),
        starts_nothing(op),
        i + 1 < ins.len() ==> ins[i + 1] != Ins::Op(OP_CSV) && ins[i + 1] != Ins::Op(OP_CLTV)
            && ins[i + 1] != Ins::Op(OP_SIZE),
    ensures
        gadget_at(ins, i) == (GadgetView::Other(LabelView::Op(op)), i + 1),
{
    lemma_not_at(ins, i, tied_pattern());
    if at(ins, i, wots_step_pattern()) {
        assert(fits(ins[i + 1], wots_step_pattern()[1]));
    }
    lemma_not_at(ins, i, finale_head_pattern());
    lemma_not_at(ins, i, differ_pattern());
    lemma_not_at(ins, i, readout_pattern());
    lemma_not_at(ins, i, op_pattern(OP_TOALTSTACK));
    lemma_not_at(ins, i, op_pattern(OP_FROMALTSTACK));
    lemma_not_at(ins, i, op_pattern(OP_2DROP));
    lemma_not_at(ins, i, op_pattern(OP_DROP));
    lemma_not_at(ins, i, bit_decode_pattern());
    lemma_not_at(ins, i, expect_bit_pattern());
    if at(ins, i, timelock_pattern()) {
        assert(fits(ins[i + 1], timelock_pattern()[1]));
    }
    lemma_not_at(ins, i, two_of_two_pattern());
    lemma_not_at(ins, i, checksig_pattern());
}

proof fn lemma_zero(ins: Seq<Ins>)
    requires
        0 < ins.len(),
        ins[0] == read_back(Ins::Int(0)),
        1 < ins.len() ==> ins[1] == Ins::Op(OP_DUP),
    ensures
        gadget_at(ins, 0) == (GadgetView::Other(LabelView::Zero), 1int),
{
    reveal(num_bytes);
    assert(num_bytes(0) =~= Seq::<u8>::empty());
    if at(ins, 0, tied_pattern()) {
        assert(fits(ins[0int + 1], tied_pattern()[1]));
    }
    lemma_not_at(ins, 0, wots_step_pattern());
    lemma_not_at(ins, 0, finale_head_pattern());
    if at(ins, 0, differ_pattern()) {
        assert(fits(ins[0int + 1], differ_pattern()[1]));
    }
    lemma_not_at(ins, 0, readout_pattern());
    lemma_not_at(ins, 0, op_pattern(OP_TOALTSTACK));
    lemma_not_at(ins, 0, op_pattern(OP_FROMALTSTACK));
    lemma_not_at(ins, 0, op_pattern(OP_2DROP));
    lemma_not_at(ins, 0, op_pattern(OP_DROP));
    lemma_not_at(ins, 0, bit_decode_pattern());
    lemma_not_at(ins, 0, expect_bit_pattern());
    if at(ins, 0, timelock_pattern()) {
        assert(fits(ins[0int + 1], timelock_pattern()[1]));
    }
    lemma_not_at(ins, 0, two_of_two_pattern());
    lemma_not_at(ins, 0, checksig_pattern());
}

/// One bit's decoding, by itself.
spec fn piece(c: BitCommit) -> Seq<Ins> {
    decode_bit_ins(Seq::empty(), c)
}

proof fn lemma_piece(c: BitCommit)
    ensures
        piece(c).len() == 16,
        piece(c) == seq![Ins::Op(OP_DUP), Ins::Op(OP_ADD), Ins::Op(OP_SWAP)] + bit_decode_ins(
            Seq::empty(),
            c,
        ) + seq![Ins::Op(OP_ADD)],
{
    assert(piece(c) =~= seq![Ins::Op(OP_DUP), Ins::Op(OP_ADD), Ins::Op(OP_SWAP)]
        + bit_decode_ins(Seq::empty(), c) + seq![Ins::Op(OP_ADD)]);
}

/// The decoding of a bit stands where the bits before it end.
proof fn lemma_uint_ins_at(key: Seq<BitCommit>, total: nat, n: nat, k: int)
    requires
        total <= key.len(),
        n < total,
        0 <= k < 16,
    ensures
        decode_uint_ins(Seq::empty(), key, total).len() == 1 + 16 * total,
        decode_uint_ins(Seq::empty(), key, total)[1 + 16 * n as int + k] == piece(
            key[key.len() - 1 - n],
        )[k],
    decreases total,
{
    let before = decode_uint_ins(Seq::empty(), key, (total - 1) as nat);
    let c = key[key.len() - total];
    lemma_piece(c);
    assert(decode_bit_ins(before, c) =~= before + piece(c));
    lemma_uint_ins_len(key, (total - 1) as nat);
    if n + 1 < total {
        lemma_uint_ins_at(key, (total - 1) as nat, n, k);
    }
}

proof fn lemma_uint_ins_len(key: Seq<BitCommit>, total: nat)
    requires
        total <= key.len(),
    ensures
        decode_uint_ins(Seq::empty(), key, total).len() == 1 + 16 * total,
        decode_uint_ins(Seq::empty(), key, total)[0] == Ins::Int(0),
    decreases total,
{
    if total > 0 {
        let before = decode_uint_ins(Seq::empty(), key, (total - 1) as nat);
        let c = key[key.len() - total];
        lemma_uint_ins_len(key, (total - 1) as nat);
        lemma_piece(c);
        assert(decode_bit_ins(before, c) =~= before + piece(c));
    }
}

/// Whether a bit's decoding stands at `i`, with nothing but another behind it.
spec fn piece_at(ins: Seq<Ins>, i: int, c: BitCommit) -> bool {
    &&& 0 <= i
    &&& i + 16 <= ins.len()
    &&& forall|k: int| 0 <= k < 16 ==> #[trigger] ins[i + k] == read_back(piece(c)[k])
    &&& i + 16 < ins.len() ==> ins[i + 16] == Ins::Op(OP_DUP)
}

proof fn lemma_piece_ops(ins: Seq<Ins>, i: int, c: BitCommit)
    requires
        piece_at(ins, i, c),
    ensures
        gadget_at(ins, i) == (bit_steps(c)[0], i + 1),
        gadget_at(ins, i + 1) == (bit_steps(c)[1], i + 2),
        gadget_at(ins, i + 2) == (bit_steps(c)[2], i + 3),
        gadget_at(ins, i + 15) == (bit_steps(c)[4], i + 16),
{
    lemma_piece(c);
    assert(ins[i + 0] == Ins::Op(OP_DUP));
    assert(ins[i + 1] == Ins::Op(OP_ADD));
    assert(ins[i + 2] == Ins::Op(OP_SWAP));
    assert(ins[i + 3] == read_back(piece(c)[3]));
    assert(ins[i + 15] == Ins::Op(OP_ADD));
    lemma_plain_op(ins, i, OP_DUP);
    lemma_plain_op(ins, i + 1, OP_ADD);
    lemma_plain_op(ins, i + 2, OP_SWAP);
    lemma_plain_op(ins, i + 15, OP_ADD);
}

proof fn lemma_piece_decode(ins: Seq<Ins>, i: int, c: BitCommit)
    requires
        piece_at(ins, i, c),
    ensures
        gadget_at(ins, i + 3) == (bit_steps(c)[3], i + 15),
{
    lemma_piece(c);
    assert(ins[i + 15] == Ins::Op(OP_ADD));
    let decode = read_back_all(bit_decode_ins(Seq::empty(), c));
    let before = ins.take(i + 3);
    let after = ins.skip(i + 15);
    assert forall|k: int| 0 <= k < 12 implies #[trigger] ins[i + 3 + k] == decode[k] by {
        assert(ins[i + (3 + k)] == read_back(piece(c)[3 + k]));
    }
    assert forall|j: int| 0 <= j < ins.len() implies #[trigger] ins[j] == (before + decode
        + after)[j] by {
        if i + 3 <= j < i + 15 {
            assert(ins[i + 3 + (j - i - 3)] == decode[j - i - 3]);
        }
    }
    assert(ins =~= before + decode + after);
    law_bit_decode_recognised(before, c, after);
    assert(after[0] == ins[i + 15]);
}

proof fn lemma_next_gadget(ins: Seq<Ins>, i: int, g: GadgetView, next: int)
    requires
        0 <= i < next <= ins.len(),
        gadget_at(ins, i) == (g, next),
    ensures
        gadgets_from(ins, i) == seq![g] + gadgets_from(ins, next),
{
}

proof fn lemma_bit_steps(ins: Seq<Ins>, i: int, c: BitCommit)
    requires
        piece_at(ins, i, c),
    ensures
        gadgets_from(ins, i) == bit_steps(c) + gadgets_from(ins, i + 16),
{
    let steps = bit_steps(c);
    lemma_piece_ops(ins, i, c);
    lemma_piece_decode(ins, i, c);
    lemma_next_gadget(ins, i + 15, steps[4], i + 16);
    lemma_next_gadget(ins, i + 3, steps[3], i + 15);
    lemma_next_gadget(ins, i + 2, steps[2], i + 3);
    lemma_next_gadget(ins, i + 1, steps[1], i + 2);
    lemma_next_gadget(ins, i, steps[0], i + 1);
    assert(gadgets_from(ins, i) =~= steps + gadgets_from(ins, i + 16));
}

proof fn lemma_uint_steps(key: Seq<BitCommit>, n: nat)
    requires
        n <= key.len(),
    ensures
        gadgets_from(
            read_back_all(decode_uint_ins(Seq::empty(), key, key.len())),
            1 + 16 * n as int,
        ) == uint_steps(key, n),
    decreases key.len() - n,
{
    let total = key.len();
    let script = decode_uint_ins(Seq::empty(), key, total);
    let ins = read_back_all(script);
    lemma_uint_ins_len(key, total);
    if n < total {
        let i = 1 + 16 * n as int;
        let c = key[total - 1 - n];
        assert forall|k: int| 0 <= k < 16 implies #[trigger] ins[i + k] == read_back(
            piece(c)[k],
        ) by {
            lemma_uint_ins_at(key, total, n, k);
        }
        if n + 1 < total {
            lemma_uint_ins_at(key, total, n + 1, 0);
            lemma_piece(key[total - 2 - n]);
            assert(ins[i + 16] == read_back(script[1 + 16 * (n + 1) as int + 0]));
        }
        lemma_bit_steps(ins, i, c);
        lemma_uint_steps(key, n + 1);
    } else {
        assert(gadgets_from(ins, 1 + 16 * n as int) =~= uint_steps(key, n));
    }
}

/// `decode_uint` is recognised: every bit of the key as a bit decode, the most
/// significant first.
pub proof fn law_decode_uint_recognised(key: Seq<BitCommit>)
    ensures
        gadgets_from(read_back_all(decode_uint_ins(Seq::empty(), key, key.len())), 0)
            == uint_gadgets(key),
{
    let ins = read_back_all(decode_uint_ins(Seq::empty(), key, key.len()));
    lemma_uint_ins_len(key, key.len());
    if key.len() > 0 {
        lemma_uint_ins_at(key, key.len(), 0, 0);
        lemma_piece(key[key.len() - 1]);
    }
    lemma_zero(ins);
    lemma_uint_steps(key, 0);
}

// ----- what a reveal opens -----

/// The hash that a key has for a bit.
pub open spec fn key_hash(key: Seq<BitCommit>, i: int, bit: bool) -> Seq<u8> {
    if bit {
        key[i].h1@
    } else {
        key[i].h0@
    }
}

/// Whether the hashes of a key are all different.
pub open spec fn hashes_apart(key: Seq<BitCommit>) -> bool {
    forall|i: int, a: bool, j: int, b: bool|
        0 <= i < key.len() && 0 <= j < key.len() && #[trigger] key_hash(key, i, a)
            == #[trigger] key_hash(key, j, b) ==> i == j && a == b
}

proof fn lemma_uint_steps_at(key: Seq<BitCommit>, from: nat, n: nat)
    requires
        from <= n < key.len(),
    ensures
        uint_steps(key, from).len() == 5 * (key.len() - from),
        forall|k: int|
            0 <= k < 5 ==> #[trigger] uint_steps(key, from)[5 * (n - from) + k] == bit_steps(
                key[key.len() - 1 - n],
            )[k],
    decreases n - from,
{
    lemma_uint_steps_len(key, from);
    if from < n {
        lemma_uint_steps_at(key, from + 1, n);
        let rest = uint_steps(key, from + 1);
        assert forall|k: int| 0 <= k < 5 implies #[trigger] uint_steps(key, from)[5 * (n - from)
            + k] == bit_steps(key[key.len() - 1 - n])[k] by {
            assert(uint_steps(key, from)[5 * (n - from) + k] == rest[5 * (n - from - 1) + k]);
        }
    }
}

proof fn lemma_uint_steps_len(key: Seq<BitCommit>, from: nat)
    requires
        from <= key.len(),
    ensures
        uint_steps(key, from).len() == 5 * (key.len() - from),
    decreases key.len() - from,
{
    if from < key.len() {
        lemma_uint_steps_len(key, from + 1);
    }
}

/// Gadget `1 + 5 n + k` of a decoded number.
proof fn lemma_uint_gadget(key: Seq<BitCommit>, n: nat, k: int)
    requires
        n < key.len(),
        0 <= k < 5,
    ensures
        uint_gadgets(key).len() == 1 + 5 * key.len(),
        uint_gadgets(key)[1 + 5 * n as int + k] == bit_steps(key[key.len() - 1 - n])[k],
{
    lemma_uint_steps_at(key, 0, n);
    assert(uint_steps(key, 0)[5 * (n - 0) + k] == bit_steps(key[key.len() - 1 - n])[k]);
}

/// The bits before the `n`-th most significant have their gadgets before its own.
proof fn lemma_bits_before(key: Seq<BitCommit>, n: nat)
    requires
        n <= key.len(),
    ensures
        bit_gadgets(uint_gadgets(key).take(1 + 5 * n as int)) == n,
        forall|k: nat|
            k < n ==> #[trigger] decodes(uint_gadgets(key).take(1 + 5 * n as int), k),
    decreases n,
{
    let gs = uint_gadgets(key);
    lemma_uint_steps_len(key, 0);
    if n == 0 {
        assert(gs.take(1).drop_last() =~= Seq::<GadgetView>::empty());
        assert(bit_gadgets(Seq::<GadgetView>::empty()) == 0);
        assert(gs.take(1).last() == gs[0]);
    } else {
        let m = (n - 1) as nat;
        lemma_bits_before(key, m);
        let at0 = 1 + 5 * m as int;
        lemma_uint_gadget(key, m, 0);
        lemma_uint_gadget(key, m, 1);
        lemma_uint_gadget(key, m, 2);
        lemma_uint_gadget(key, m, 3);
        lemma_uint_gadget(key, m, 4);
        assert(gs.take(at0 + 1).drop_last() =~= gs.take(at0));
        assert(gs.take(at0 + 2).drop_last() =~= gs.take(at0 + 1));
        assert(gs.take(at0 + 3).drop_last() =~= gs.take(at0 + 2));
        assert(gs.take(at0 + 4).drop_last() =~= gs.take(at0 + 3));
        assert(gs.take(at0 + 5).drop_last() =~= gs.take(at0 + 4));
        assert(bit_gadgets(gs.take(at0 + 1)) == m);
        assert(bit_gadgets(gs.take(at0 + 2)) == m);
        assert(bit_gadgets(gs.take(at0 + 3)) == m);
        assert(bit_gadgets(gs.take(at0 + 4)) == n);
        assert(bit_gadgets(gs.take(at0 + 5)) == n);
        assert forall|k: nat| k < n implies #[trigger] decodes(gs.take(at0 + 5), k) by {
            if k < m {
                assert(decodes(gs.take(at0), k));
            }
            assert(k < m ==> decodes(gs.take(at0 + 1), k));
            assert(k < m ==> decodes(gs.take(at0 + 2), k));
            assert(k < m ==> decodes(gs.take(at0 + 3), k));
            assert(decodes(gs.take(at0 + 4), k));
        }
    }
}

/// A preimage of a key's hash opens the bit's gadget.
proof fn lemma_opens(key: Seq<BitCommit>, i: int, bit: bool)
    requires
        0 <= i < key.len(),
        hashes_apart(key),
    ensures
        opened_bit(uint_gadgets(key), key_hash(key, i, bit)) == Some(
            ((key.len() - 1 - i) as nat, bit),
        ),
{
    let gs = uint_gadgets(key);
    let n = (key.len() - 1 - i) as nat;
    let g = 1 + 5 * n + 3;
    lemma_uint_gadget(key, n, 0);
    lemma_uint_gadget(key, n, 1);
    lemma_uint_gadget(key, n, 2);
    lemma_uint_gadget(key, n, 3);
    assert(key_hash(key, i, true) != key_hash(key, i, false)) by {
        assert(hashes_apart(key));
    }
    let h = if bit {
        key[i].h1@
    } else {
        key[i].h0@
    };
    assert(h == key_hash(key, i, bit));
    assert forall|j: int| g < j < gs.len() implies !has_hash(#[trigger] gs[j], h) by {
        let m = ((j - 1) / 5) as nat;
        let k = (j - 1) % 5;
        lemma_uint_gadget(key, m, k);
        assert(j == 1 + 5 * m + k);
        if k == 3 {
            let o = key.len() - 1 - m;
            assert(o != i);
            assert(key_hash(key, o, true) != key_hash(key, i, bit));
            assert(key_hash(key, o, false) != key_hash(key, i, bit));
        }
    }
    law_preimage_opens_its_bit(gs, g as int, key[i].h0@, key[i].h1@, false, bit);
    lemma_bits_before(key, n);
    assert(gs.take(g as int - 2).drop_last() =~= gs.take(g as int - 3));
    assert(gs.take(g as int - 1).drop_last() =~= gs.take(g as int - 2));
    assert(gs.take(g as int).drop_last() =~= gs.take(g as int - 1));
    assert(bit_gadgets(gs.take(g as int - 2)) == n);
    assert(bit_gadgets(gs.take(g as int - 1)) == n);
    assert(bit_gadgets(gs.take(g as int)) == n);
}

// ----- runs -----

/// Bits of consecutive gadgets, from gadget `g` on.
pub open spec fn consecutive(g: nat, bits: Seq<bool>) -> Seq<(nat, bool)> {
    Seq::new(bits.len(), |k: int| ((g + k) as nat, bits[k]))
}

/// Bits of consecutive gadgets of one kind are reported as one run.
pub proof fn law_consecutive_bits_form_one_run(
    gadgets: Seq<GadgetView>,
    g: nat,
    bits: Seq<bool>,
    kind: bool,
)
    requires
        bits.len() > 0,
        forall|k: nat| g <= k < g + bits.len() ==> #[trigger] decodes(gadgets, k) == kind,
    ensures
        sort_bits(consecutive(g, bits)) == consecutive(g, bits),
        runs_of(gadgets, consecutive(g, bits)) == seq![RunView { decoded: kind, bits }],
    decreases bits.len(),
{
    let s = consecutive(g, bits);
    let rest = bits.drop_last();
    let last = (g + bits.len() - 1) as nat;
    assert(s.drop_last() =~= consecutive(g, rest));
    assert(decodes(gadgets, last) == kind);
    if rest.len() > 0 {
        law_consecutive_bits_form_one_run(gadgets, g, rest, kind);
        assert(sort_bits(s) =~= s);
        assert(rest.push(bits.last()) =~= bits);
        assert(runs_of(gadgets, s) =~= seq![RunView { decoded: kind, bits }]);
    } else {
        assert(s.drop_last() =~= Seq::<(nat, bool)>::empty());
        assert(sort_bits(s.drop_last()) =~= Seq::<(nat, bool)>::empty());
        assert(sort_bits(s) =~= s);
        assert(bits =~= seq![bits.last()]);
        assert(runs_of(gadgets, s.drop_last()) =~= Seq::<RunView>::empty());
        assert(runs_of(gadgets, s) =~= seq![RunView { decoded: kind, bits }]);
    }
}

/// A run's bits, the most significant first, write the number that they write the
/// other way round.
pub proof fn law_run_value(bits: Seq<bool>)
    ensures
        msb_value(bits.reverse()) == bits_value(bits),
    decreases bits.len(),
{
    if bits.len() > 0 {
        law_run_value(bits.skip(1));
        assert(bits.reverse().drop_last() =~= bits.skip(1).reverse());
        assert(bits.reverse().last() == bits[0]);
    }
}

/// The arguments that open the `k` most significant bits.
proof fn lemma_revealed_args(
    key: Seq<BitCommit>,
    blocks: Seq<BlockView>,
    preimages: Seq<Seq<u8>>,
    bits: Seq<bool>,
    k: nat,
)
    requires
        hashes_apart(key),
        preimages.len() == key.len(),
        bits.len() == key.len(),
        k <= key.len(),
        forall|i: int|
            0 <= i < key.len() ==> (#[trigger] preimages[i]).len() == 20 && hash160_spec(
                preimages[i],
            ) == key_hash(key, i, bits[i]),
    ensures
        opened_bits(
            args_of(uint_gadgets(key), blocks, preimages, key.len() as int, k as int),
        ) == consecutive(0, bits.reverse().take(k as int)),
    decreases k,
{
    let n = key.len() as int;
    let gs = uint_gadgets(key);
    let args = args_of(gs, blocks, preimages, n, k as int);
    if k == 0 {
        assert(opened_bits(args) =~= consecutive(0, bits.reverse().take(0)));
    } else {
        lemma_revealed_args(key, blocks, preimages, bits, (k - 1) as nat);
        assert(args.drop_last() =~= args_of(gs, blocks, preimages, n, k - 1));
        let i = n - k;
        assert(consumed(preimages, n, k - 1) == preimages[i]);
        lemma_opens(key, i, bits[i]);
        assert(args.last() is Preimage);
        assert(bits.reverse()[k - 1] == bits[i]);
        assert(opened_bits(args) =~= consecutive(0, bits.reverse().take(k as int)));
    }
}

/// A revealed number reads back: on the leaf that decodes it, the preimages in
/// consumption order are reported as one run of the number's bits, unless two
/// hashes of the key are equal.
pub proof fn law_revealed_number_reads_back(
    key: Seq<BitCommit>,
    blocks: Seq<BlockView>,
    preimages: Seq<Seq<u8>>,
    bits: Seq<bool>,
)
    requires
        key.len() > 0,
        hashes_apart(key),
        preimages.len() == key.len(),
        bits.len() == key.len(),
        forall|i: int|
            0 <= i < key.len() ==> (#[trigger] preimages[i]).len() == 20 && hash160_spec(
                preimages[i],
            ) == key_hash(key, i, bits[i]),
    ensures
        ({
            let gs = uint_gadgets(key);
            let args = args_of(gs, blocks, preimages, key.len() as int, key.len() as int);
            &&& runs_of(gs, sort_bits(opened_bits(args))) == seq![
                RunView { decoded: true, bits: bits.reverse() },
            ]
            &&& msb_value(bits.reverse()) == bits_value(bits)
        }),
{
    let gs = uint_gadgets(key);
    let n = key.len();
    lemma_revealed_args(key, blocks, preimages, bits, n);
    assert(bits.reverse().take(n as int) =~= bits.reverse());
    lemma_bits_before(key, n);
    lemma_uint_steps_len(key, 0);
    assert(gs.take(1 + 5 * n as int) =~= gs);
    law_consecutive_bits_form_one_run(gs, 0, bits.reverse(), true);
    law_run_value(bits);
}

} // verus!
