//! What the pieces of a leaf are recognised as, told by their instructions alone.

use vstd::prelude::*;

use crate::decode::gadgets::{
    at, bit_decode_pattern, blocks_of, checksig_pattern, differ_end, differ_pattern,
    expect_bit_pattern, finale_at, finale_head_pattern, fits, gadget_at, gadgets_from, label_spec,
    op_pattern, open_digits, pushed, readout_pattern, repeats, tied_pattern, timelock_pattern,
    two_of_two_pattern, wots_step_pattern, GadgetView, LabelView, Pat,
};
use crate::decode::instructions::ins_num;
use crate::decode::laws::lemma_not_at;
use crate::decode::text::hex_text;
use crate::script::machine::{lemma_num_round_trip, lemma_num_size, num_bytes, Ins};
use crate::script::opcodes::{
    OP_0NOTEQUAL, OP_2DROP, OP_ADD, OP_CHECKSIG, OP_CHECKSIGADD, OP_CHECKSIGVERIFY, OP_CLTV, OP_CSV,
    OP_DROP, OP_DUP, OP_FROMALTSTACK, OP_HASH160, OP_NUMEQUALVERIFY, OP_PICK, OP_ROLL, OP_SUB,
    OP_SWAP, OP_TOALTSTACK, OP_VERIFY,
};

verus! {

/// A pattern of which some place does not fit is not there.
proof fn lemma_misfit(ins: Seq<Ins>, i: int, pattern: Seq<Pat>, k: int)
    requires
        0 <= k < pattern.len(),
        !fits(ins[i + k], pattern[k]),
    ensures
        !at(ins, i, pattern),
        repeats(ins, i, pattern) == 0,
{
    if at(ins, i, pattern) {
        assert(fits(ins[i + k], pattern[k]));
    }
}

/// What starts with none of these instructions is no digit, finale, readout or run.
proof fn lemma_plain_head(ins: Seq<Ins>, i: int)
    requires
        0 <= i < ins.len(),
        ins[i] != Ins::Op(OP_SWAP),
        ins[i] != Ins::Op(OP_FROMALTSTACK),
        ins[i] != Ins::Op(OP_TOALTSTACK),
        ins[i] != Ins::Op(OP_2DROP),
        ins[i] != Ins::Op(OP_DROP),
        ins[i] != Ins::Op(OP_HASH160),
    ensures
        !at(ins, i, wots_step_pattern()),
        finale_at(ins, i) is None,
        !at(ins, i, readout_pattern()),
        repeats(ins, i, op_pattern(OP_TOALTSTACK)) == 0,
        repeats(ins, i, op_pattern(OP_FROMALTSTACK)) == 0,
        repeats(ins, i, op_pattern(OP_2DROP)) == 0,
        repeats(ins, i, op_pattern(OP_DROP)) == 0,
        !at(ins, i, bit_decode_pattern()),
        !at(ins, i, expect_bit_pattern()),
{
    lemma_not_at(ins, i, wots_step_pattern());
    lemma_not_at(ins, i, finale_head_pattern());
    lemma_not_at(ins, i, readout_pattern());
    lemma_not_at(ins, i, op_pattern(OP_TOALTSTACK));
    lemma_not_at(ins, i, op_pattern(OP_FROMALTSTACK));
    lemma_not_at(ins, i, op_pattern(OP_2DROP));
    lemma_not_at(ins, i, op_pattern(OP_DROP));
    lemma_not_at(ins, i, bit_decode_pattern());
    lemma_not_at(ins, i, expect_bit_pattern());
}

/// A number with a lock instruction and a drop behind it is a timelock of that number:
/// relative for CSV, absolute for CLTV.
pub proof fn law_timelock_recognised(ins: Seq<Ins>, i: int, v: int)
    requires
        0 <= i && i + 3 <= ins.len(),
        ins_num(ins[i]) == Some(v),
        ins[i + 1] == Ins::Op(OP_CSV) || ins[i + 1] == Ins::Op(OP_CLTV),
        ins[i + 2] == Ins::Op(OP_DROP),
    ensures
        gadget_at(ins, i) == (
            GadgetView::Timelock { relative: ins[i + 1] == Ins::Op(OP_CSV), n: v },
            i + 3,
        ),
{
    lemma_plain_head(ins, i);
    lemma_misfit(ins, i, tied_pattern(), 1);
    lemma_misfit(ins, i, differ_pattern(), 1);
    assert(at(ins, i, timelock_pattern())) by {
        assert(fits(ins[i + 0], timelock_pattern()[0]));
        assert(fits(ins[i + 1], timelock_pattern()[1]));
        assert(fits(ins[i + 2], timelock_pattern()[2]));
    }
}

/// A timelock whose number cannot be read has the number -1.
pub proof fn law_unread_timelock(ins: Seq<Ins>, i: int, s: Seq<u8>)
    requires
        0 <= i && i + 3 <= ins.len(),
        ins[i] == Ins::Bytes(s),
        ins_num(ins[i]) is None,
        ins[i + 1] == Ins::Op(OP_CSV) || ins[i + 1] == Ins::Op(OP_CLTV),
        ins[i + 2] == Ins::Op(OP_DROP),
    ensures
        gadget_at(ins, i) == (
            GadgetView::Timelock { relative: ins[i + 1] == Ins::Op(OP_CSV), n: -1 },
            i + 3,
        ),
{
    lemma_plain_head(ins, i);
    lemma_misfit(ins, i, tied_pattern(), 0);
    lemma_misfit(ins, i, differ_pattern(), 0);
    assert(at(ins, i, timelock_pattern())) by {
        assert(fits(ins[i + 0], timelock_pattern()[0]));
        assert(fits(ins[i + 1], timelock_pattern()[1]));
        assert(fits(ins[i + 2], timelock_pattern()[2]));
    }
}

/// A key with a signature check behind it is a checked signature, with the head of the
/// key; if a second key is checked and added, it is a two-of-two.
pub proof fn law_signatures_recognised(ins: Seq<Ins>, i: int, key: Seq<u8>)
    requires
        0 <= i && i + 2 <= ins.len(),
        ins[i] == Ins::Bytes(key),
        key.len() == 32,
    ensures
        ins[i + 1] == Ins::Op(OP_CHECKSIGVERIFY) ==> gadget_at(ins, i) == (
            GadgetView::Checksig { verify: true, key4: hex_text(key.subrange(0, 4)) },
            i + 2,
        ),
        ins[i + 1] == Ins::Op(OP_CHECKSIG) ==> gadget_at(ins, i) == if i + 6 <= ins.len() && ins[i
            + 3] == Ins::Op(OP_CHECKSIGADD) {
            (GadgetView::TwoOfTwo { verify: ins[i + 5] == Ins::Op(OP_NUMEQUALVERIFY) }, i + 6)
        } else {
            (
                GadgetView::Checksig { verify: false, key4: hex_text(key.subrange(0, 4)) },
                i + 2,
            )
        },
{
    assert(key.subrange(0, 4) =~= key.take(4));
    lemma_plain_head(ins, i);
    lemma_misfit(ins, i, tied_pattern(), 0);
    lemma_misfit(ins, i, differ_pattern(), 0);
    if ins[i + 1] == Ins::Op(OP_CHECKSIGVERIFY) || ins[i + 1] == Ins::Op(OP_CHECKSIG) {
        lemma_misfit(ins, i, timelock_pattern(), 1);
        assert(at(ins, i, checksig_pattern())) by {
            assert(fits(ins[i + 0], checksig_pattern()[0]));
            assert(fits(ins[i + 1], checksig_pattern()[1]));
        }
        let p = two_of_two_pattern();
        if ins[i + 1] == Ins::Op(OP_CHECKSIGVERIFY) {
            lemma_misfit(ins, i, p, 1);
        } else if i + 6 <= ins.len() && ins[i + 3] == Ins::Op(OP_CHECKSIGADD) {
            assert(at(ins, i, p)) by {
                assert(fits(ins[i + 0], p[0]));
                assert(fits(ins[i + 1], p[1]));
                assert(fits(ins[i + 2], p[2]));
                assert(fits(ins[i + 3], p[3]));
                assert(fits(ins[i + 4], p[4]));
                assert(fits(ins[i + 5], p[5]));
            }
        } else if i + 6 <= ins.len() {
            lemma_misfit(ins, i, p, 3);
        }
    }
}

/// One opcode repeats as often as it stands.
proof fn lemma_op_run(ins: Seq<Ins>, i: int, op: u8, n: nat)
    requires
        0 <= i && i + n <= ins.len(),
        forall|k: int| i <= k < i + n ==> #[trigger] ins[k] == Ins::Op(op),
        i + n < ins.len() ==> ins[i + n] != Ins::Op(op),
    ensures
        repeats(ins, i, op_pattern(op)) == n,
    decreases n,
{
    if n > 0 {
        assert(ins[i] == Ins::Op(op));
        assert(fits(ins[i + 0], op_pattern(op)[0]));
        assert(at(ins, i, op_pattern(op)));
        lemma_op_run(ins, i + 1, op, (n - 1) as nat);
    } else if i < ins.len() {
        lemma_not_at(ins, i, op_pattern(op));
    }
}

/// Three or more elements parked, unparked or dropped one by one, or two or more pairs
/// dropped, are one run of that many.
pub proof fn law_runs_recognised(ins: Seq<Ins>, i: int, op: u8, n: nat)
    requires
        0 <= i && i + n <= ins.len(),
        n >= 3 || n == 2 && op == OP_2DROP,
        op == OP_TOALTSTACK || op == OP_FROMALTSTACK || op == OP_2DROP || op == OP_DROP,
        forall|k: int| i <= k < i + n ==> #[trigger] ins[k] == Ins::Op(op),
        i + n < ins.len() ==> ins[i + n] != Ins::Op(op),
    ensures
        gadget_at(ins, i) == (
            if op == OP_TOALTSTACK {
                GadgetView::Park { n }
            } else if op == OP_FROMALTSTACK {
                GadgetView::Unpark { n }
            } else if op == OP_2DROP {
                GadgetView::Drop2Run { pairs: n }
            } else {
                GadgetView::DropRun { n }
            },
            i + n,
        ),
{
    assert(ins[i] == Ins::Op(op));
    assert(ins[i + 1] == Ins::Op(op));
    lemma_misfit(ins, i, tied_pattern(), 0);
    lemma_not_at(ins, i, wots_step_pattern());
    lemma_misfit(ins, i, finale_head_pattern(), 1);
    lemma_not_at(ins, i, differ_pattern());
    lemma_misfit(ins, i, readout_pattern(), 1);
    lemma_op_run(ins, i, op, n);
    if op != OP_TOALTSTACK {
        lemma_not_at(ins, i, op_pattern(OP_TOALTSTACK));
    }
    if op != OP_FROMALTSTACK {
        lemma_not_at(ins, i, op_pattern(OP_FROMALTSTACK));
    }
    if op != OP_2DROP {
        lemma_not_at(ins, i, op_pattern(OP_2DROP));
    }
}

/// One or two elements parked, unparked or dropped, or one pair dropped, are no run:
/// each stands for itself.
pub proof fn law_short_runs_are_none(ins: Seq<Ins>, i: int, op: u8, n: nat)
    requires
        0 <= i && i + n <= ins.len(),
        n == 1 || n == 2 && op != OP_2DROP,
        op == OP_TOALTSTACK || op == OP_FROMALTSTACK || op == OP_2DROP || op == OP_DROP,
        forall|k: int| i <= k < i + n ==> #[trigger] ins[k] == Ins::Op(op),
        i + n < ins.len() ==> ins[i + n] != Ins::Op(op),
        i + 1 < ins.len() ==> {
            &&& ins[i + 1] != Ins::Op(OP_CSV)
            &&& ins[i + 1] != Ins::Op(OP_CLTV)
            &&& ins[i + 1] != Ins::Op(OP_DUP)
            &&& !(ins[i + 1] is Bytes)
        },
    ensures
        gadget_at(ins, i) == (GadgetView::Other(LabelView::Op(op)), i + 1),
{
    assert(ins[i] == Ins::Op(op));
    lemma_misfit(ins, i, tied_pattern(), 0);
    lemma_not_at(ins, i, wots_step_pattern());
    lemma_not_at(ins, i, differ_pattern());
    lemma_not_at(ins, i, bit_decode_pattern());
    lemma_not_at(ins, i, expect_bit_pattern());
    lemma_not_at(ins, i, two_of_two_pattern());
    lemma_not_at(ins, i, checksig_pattern());
    if i + 1 < ins.len() {
        lemma_misfit(ins, i, finale_head_pattern(), 1);
        lemma_misfit(ins, i, readout_pattern(), 1);
        lemma_misfit(ins, i, timelock_pattern(), 1);
    }
    lemma_op_run(ins, i, op, n);
    if op != OP_TOALTSTACK {
        lemma_not_at(ins, i, op_pattern(OP_TOALTSTACK));
    }
    if op != OP_FROMALTSTACK {
        lemma_not_at(ins, i, op_pattern(OP_FROMALTSTACK));
    }
    if op != OP_2DROP {
        lemma_not_at(ins, i, op_pattern(OP_2DROP));
    }
    if op != OP_DROP {
        lemma_not_at(ins, i, op_pattern(OP_DROP));
    }
}

/// An opcode that starts no gadget stands for itself.
pub proof fn law_other_opcodes(ins: Seq<Ins>, i: int, op: u8)
    requires
        0 <= i < ins.len(),
        ins[i] == Ins::Op(op),
        op >= 0x61,
        op != OP_SWAP && op != OP_FROMALTSTACK && op != OP_TOALTSTACK && op != OP_2DROP && op
            != OP_DROP && op != OP_HASH160,
        i + 1 < ins.len() ==> ins[i + 1] != Ins::Op(OP_CSV) && ins[i + 1] != Ins::Op(OP_CLTV),
    ensures
        gadget_at(ins, i) == (GadgetView::Other(LabelView::Op(op)), i + 1),
{
    lemma_plain_head(ins, i);
    lemma_not_at(ins, i, tied_pattern());
    lemma_not_at(ins, i, differ_pattern());
    lemma_not_at(ins, i, two_of_two_pattern());
    lemma_not_at(ins, i, checksig_pattern());
    if i + 1 < ins.len() {
        lemma_misfit(ins, i, timelock_pattern(), 1);
    }
}

/// What a push outside any gadget is called: zero, the number that it writes, or its
/// length and the head of its bytes.
pub proof fn law_labels(v: int, s: Seq<u8>, op: u8)
    requires
        -0x8000_0000 < v < 0x8000_0000,
        s.len() > 4,
    ensures
        label_spec(Ins::Op(op)) == LabelView::Op(op),
        label_spec(Ins::Bytes(Seq::empty())) == LabelView::Zero,
        num_bytes(v).len() > 0 ==> label_spec(Ins::Bytes(num_bytes(v))) == LabelView::Number(v),
        label_spec(Ins::Bytes(s)) == (LabelView::Bytes {
            len: s.len(),
            head: hex_text(s.subrange(0, 4)),
        }),
{
    lemma_num_size(v);
    lemma_num_round_trip(v);
    assert(s.subrange(0, 4) =~= s.take(4));
}

/// One pair of the differ: pick a digit of each vector, compare, count.
pub open spec fn is_differ_pair(ins: Seq<Ins>, i: int) -> bool {
    &&& 0 <= i && i + 7 <= ins.len()
    &&& ins_num(ins[i]) is Some
    &&& ins[i + 1] == Ins::Op(OP_PICK)
    &&& ins_num(ins[i + 2]) is Some
    &&& ins[i + 3] == Ins::Op(OP_PICK)
    &&& ins[i + 4] == Ins::Op(OP_SUB)
    &&& ins[i + 5] == Ins::Op(OP_0NOTEQUAL)
    &&& ins[i + 6] == Ins::Op(OP_ADD)
}

proof fn lemma_differ_pair(ins: Seq<Ins>, i: int)
    requires
        0 <= i,
    ensures
        at(ins, i, differ_pattern()) <==> is_differ_pair(ins, i),
{
    let p = differ_pattern();
    if is_differ_pair(ins, i) {
        assert(fits(ins[i + 0], p[0]));
        assert(fits(ins[i + 1], p[1]));
        assert(fits(ins[i + 2], p[2]));
        assert(fits(ins[i + 3], p[3]));
        assert(fits(ins[i + 4], p[4]));
        assert(fits(ins[i + 5], p[5]));
        assert(fits(ins[i + 6], p[6]));
        assert forall|k: int| 0 <= k < p.len() implies #[trigger] fits(ins[i + k], p[k]) by {
            assert(k == 0 || k == 1 || k == 2 || k == 3 || k == 4 || k == 5 || k == 6);
        }
    }
    if at(ins, i, p) {
        assert(fits(ins[i + 0], p[0]));
        assert(fits(ins[i + 1], p[1]));
        assert(fits(ins[i + 2], p[2]));
        assert(fits(ins[i + 3], p[3]));
        assert(fits(ins[i + 4], p[4]));
        assert(fits(ins[i + 5], p[5]));
        assert(fits(ins[i + 6], p[6]));
    }
}

proof fn lemma_differ_repeats(ins: Seq<Ins>, i: int, m: nat)
    requires
        0 <= i,
        forall|k: int| 0 <= k < m ==> #[trigger] is_differ_pair(ins, i + 7 * k),
        !is_differ_pair(ins, i + 7 * m),
    ensures
        repeats(ins, i, differ_pattern()) == m,
    decreases m,
{
    lemma_differ_pair(ins, i);
    if m > 0 {
        assert(is_differ_pair(ins, i + 7 * 0));
        assert forall|k: int| 0 <= k < m - 1 implies #[trigger] is_differ_pair(
            ins,
            i + 7 + 7 * k,
        ) by {
            assert(is_differ_pair(ins, i + 7 * (k + 1)));
        }
        lemma_differ_repeats(ins, i + 7, (m - 1) as nat);
    }
}

/// Three or more compared pairs, a verify, and as many dropped pairs with a pushed 1
/// behind them are the differ of that many digits. Where another number of pairs is
/// dropped, a 1 behind them is not part of it.
pub proof fn law_differ_recognised(ins: Seq<Ins>, i: int, m: nat, drops: nat)
    requires
        0 <= i,
        m >= 3,
        forall|k: int| 0 <= k < m ==> #[trigger] is_differ_pair(ins, i + 7 * k),
        i + 7 * m + 1 + drops <= ins.len(),
        ins[i + 7 * m] == Ins::Op(OP_VERIFY),
        forall|k: int|
            i + 7 * m + 1 <= k < i + 7 * m + 1 + drops ==> #[trigger] ins[k] == Ins::Op(OP_2DROP),
        i + 7 * m + 1 + drops < ins.len() ==> ins[i + 7 * m + 1 + drops] != Ins::Op(OP_2DROP),
    ensures
        ({
            let end = i + 7 * m + 1 + drops;
            let one = drops == m && end < ins.len() && ins_num(ins[end]) == Some(1int);
            gadget_at(ins, i) == (GadgetView::Differ { m }, if one {
                end + 1
            } else {
                end
            })
        }),
{
    lemma_differ_repeats(ins, i, m);
    assert(is_differ_pair(ins, i + 7 * 0));
    lemma_plain_head(ins, i);
    lemma_misfit(ins, i, tied_pattern(), 1);
    let verify = i + 7 * m;
    assert(fits(ins[verify + 0], op_pattern(OP_VERIFY)[0]));
    assert(at(ins, verify, op_pattern(OP_VERIFY)));
    lemma_op_run(ins, verify + 1, OP_2DROP, drops);
    let end = verify + 1 + drops;
    let one = seq![Pat::NumIs(1)];
    if end < ins.len() {
        if ins_num(ins[end]) == Some(1int) {
            assert(fits(ins[end + 0], one[0]));
            assert(at(ins, end, one));
        } else {
            lemma_misfit(ins, end, one, 0);
        }
    }
    assert(differ_end(ins, i, m) == if drops == m && at(ins, end, one) {
        end + 1
    } else {
        end as int
    });
}

/// One or two compared pairs are no differ: their first instruction stands for itself.
pub proof fn law_short_differ_is_none(ins: Seq<Ins>, i: int, m: nat)
    requires
        0 <= i,
        1 <= m <= 2,
        forall|k: int| 0 <= k < m ==> #[trigger] is_differ_pair(ins, i + 7 * k),
        !is_differ_pair(ins, i + 7 * m),
    ensures
        gadget_at(ins, i) == (GadgetView::Other(label_spec(ins[i])), i + 1),
{
    lemma_differ_repeats(ins, i, m);
    assert(is_differ_pair(ins, i + 7 * 0));
    lemma_plain_head(ins, i);
    lemma_misfit(ins, i, tied_pattern(), 1);
}

/// A digit's verification is one step, with the digit that it compares with. The digit
/// before it is tied if its value is picked or rolled up from the registers first:
/// picked for a message digit, rolled for a checksum digit.
pub proof fn law_tied_digit_recognised(ins: Seq<Ins>, i: int, pk: Seq<u8>)
    requires
        0 <= i,
        at(ins, i + 4, wots_step_pattern()),
        ins[i + 47] == Ins::Bytes(pk),
        ins_num(ins[i]) is Some,
        ins[i + 1] == Ins::Op(OP_ROLL),
        ins_num(ins[i + 2]) is Some,
        ins[i + 3] == Ins::Op(OP_PICK) || ins[i + 3] == Ins::Op(OP_ROLL),
    ensures
        gadget_at(ins, i) == (
            GadgetView::WotsStep { pk, tied: Some(ins[i + 3] == Ins::Op(OP_PICK)) },
            i + 53,
        ),
        gadget_at(ins, i + 4) == (GadgetView::WotsStep { pk, tied: None }, i + 53),
{
    let p = tied_pattern();
    assert(at(ins, i, p)) by {
        assert(fits(ins[i + 0], p[0]));
        assert(fits(ins[i + 1], p[1]));
        assert(fits(ins[i + 2], p[2]));
        assert(fits(ins[i + 3], p[3]));
    }
    assert(fits(ins[i + 4 + 0], wots_step_pattern()[0]));
    lemma_misfit(ins, i + 4, p, 0);
    assert(ins[i + 4 + 43] == ins[i + 47]);
}

/// A readout chunk is recognised by its points, and shows the head of the first.
pub proof fn law_readout_recognised(ins: Seq<Ins>, i: int, point: Seq<u8>)
    requires
        0 <= i,
        at(ins, i, readout_pattern()),
        ins[i + 1] == Ins::Bytes(point),
        point.len() == 32,
    ensures
        gadget_at(ins, i) == (
            GadgetView::ReadoutChunk { point4: hex_text(point.subrange(0, 4)) },
            i + 36,
        ),
{
    assert(fits(ins[i + 0], readout_pattern()[0]));
    lemma_misfit(ins, i, tied_pattern(), 0);
    lemma_misfit(ins, i, wots_step_pattern(), 0);
    lemma_misfit(ins, i, finale_head_pattern(), 1);
    lemma_misfit(ins, i, differ_pattern(), 0);
    assert(point.subrange(0, 4) =~= point.take(4));
}

/// The gadgets of a leaf follow each other without a gap.
pub proof fn law_gadgets_follow_on(ins: Seq<Ins>, i: int)
    ensures
        i >= ins.len() ==> gadgets_from(ins, i).len() == 0,
        0 <= i < ins.len() && i < gadget_at(ins, i).1 <= ins.len() ==> {
            &&& gadgets_from(ins, i)[0] == gadget_at(ins, i).0
            &&& gadgets_from(ins, i).skip(1) == gadgets_from(ins, gadget_at(ins, i).1)
        },
{
    if 0 <= i < ins.len() && i < gadget_at(ins, i).1 <= ins.len() {
        assert(gadgets_from(ins, i).skip(1) =~= gadgets_from(ins, gadget_at(ins, i).1));
    }
}

/// A finale closes a block of the digits verified since the one before it, in the
/// order of the script; nothing else opens or closes a block.
pub proof fn law_blocks_are_closed(
    gadgets: Seq<GadgetView>,
    pk: Seq<u8>,
    tied: Option<bool>,
    msg: nat,
    ck: nat,
    other: GadgetView,
)
    requires
        !(other is WotsStep) && !(other is WotsFinale),
    ensures
        ({
            let step = gadgets.push(GadgetView::WotsStep { pk, tied });
            let finale = gadgets.push(GadgetView::WotsFinale { msg, ck });
            &&& blocks_of(Seq::empty()).len() == 0 && open_digits(Seq::empty()).len() == 0
            &&& blocks_of(step) == blocks_of(gadgets)
            &&& open_digits(step) == open_digits(gadgets).push(pk)
            &&& blocks_of(finale).drop_last() == blocks_of(gadgets)
            &&& blocks_of(finale).last().msg == msg && blocks_of(finale).last().ck == ck
            &&& blocks_of(finale).last().digits == open_digits(gadgets)
            &&& open_digits(finale).len() == 0
            &&& blocks_of(gadgets.push(other)) == blocks_of(gadgets)
            &&& open_digits(gadgets.push(other)) == open_digits(gadgets)
        }),
{
    let step = gadgets.push(GadgetView::WotsStep { pk, tied });
    let finale = gadgets.push(GadgetView::WotsFinale { msg, ck });
    assert(step.drop_last() =~= gadgets);
    assert(finale.drop_last() =~= gadgets);
    assert(gadgets.push(other).drop_last() =~= gadgets);
    assert(blocks_of(finale).drop_last() =~= blocks_of(gadgets));
}

} // verus!
