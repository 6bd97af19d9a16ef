//! What is built reads back: the instructions of an assembled script, and the
//! gadgets among them.

use vstd::prelude::*;

use crate::decode::gadgets::{
    at, bit_decode_pattern, differ_pattern, expect_bit_pattern, finale_head_pattern, fits,
    gadget_at, op_pattern, pushed, readout_pattern, repeats, tied_pattern, wots_step_pattern,
    GadgetView, Pat,
};
use crate::decode::instructions::{parse_push, parse_script, parse_sized_push, readable};
use crate::lamport::gadgets::bit_decode_ins;
use crate::lamport::BitCommit;
use crate::script::assembly::{int_script, push_script};
use crate::script::machine::{le_bytes, le_value, num_bytes, Ins};
use crate::script::opcodes::{OP_2DROP, OP_DROP, OP_FROMALTSTACK, OP_HASH160, OP_TOALTSTACK};
use crate::script::{encodable, hash160_verify_ins, ins_bytes, script_bytes};

verus! {

/// An instruction as it reads back: a pushed number is an opcode or a push of
/// bytes.
pub open spec fn read_back(ins: Ins) -> Ins {
    match ins {
        Ins::Int(n) => if n == -1 || 1 <= n <= 16 {
            Ins::Op((0x50 + n) as u8)
        } else {
            Ins::Bytes(num_bytes(n))
        },
        _ => ins,
    }
}

/// A script as it reads back.
pub open spec fn read_back_all(script: Seq<Ins>) -> Seq<Ins> {
    Seq::new(script.len(), |i: int| read_back(script[i]))
}

/// Whether an instruction is written as itself: its opcode is no push.
pub open spec fn plain(ins: Ins) -> bool {
    encodable(ins) && (ins matches Ins::Op(op) ==> op > 0x4e)
}

/// Whether all instructions are written as themselves.
pub open spec fn all_plain(script: Seq<Ins>) -> bool {
    forall|i: int| 0 <= i < script.len() ==> plain(#[trigger] script[i])
}

proof fn lemma_le_bytes_len(n: nat, k: nat)
    requires
        n < vstd::arithmetic::power::pow(256, k),
    ensures
        le_bytes(n).len() <= k,
    decreases k,
{
    reveal_with_fuel(vstd::arithmetic::power::pow, 2);
    if k > 0 && n > 0 {
        lemma_le_bytes_len(n / 256, (k - 1) as nat);
    }
}

proof fn lemma_num_bytes_short(n: int)
    requires
        i64::MIN < n <= i64::MAX,
    ensures
        num_bytes(n).len() <= 9,
{
    reveal(num_bytes);
    reveal_with_fuel(vstd::arithmetic::power::pow, 9);
    let m: nat = if n < 0 { (-n) as nat } else { n as nat };
    lemma_le_bytes_len(m, 8);
}

proof fn lemma_le_value_1(a: u8)
    ensures
        le_value(seq![a]) == a,
{
    assert(seq![a].skip(1) =~= Seq::<u8>::empty());
    assert(le_value(Seq::<u8>::empty()) == 0);
}

proof fn lemma_le_value_2(a: u8, b: u8)
    ensures
        le_value(seq![a, b]) == a + 256 * b,
{
    assert(seq![a, b].skip(1) =~= seq![b]);
    lemma_le_value_1(b);
}

proof fn lemma_le_value_4(a: u8, b: u8, c: u8, d: u8)
    ensures
        le_value(seq![a, b, c, d]) == a + 256 * (b + 256 * (c + 256 * d)),
{
    assert(seq![a, b, c, d].skip(1) =~= seq![b, c, d]);
    assert(seq![b, c, d].skip(1) =~= seq![c, d]);
    lemma_le_value_2(c, d);
    assert(le_value(seq![b, c, d]) == b + 256 * le_value(seq![c, d]));
}

/// A push whose length stands in the first `k` bytes after its opcode.
proof fn lemma_parse_sized(op: u8, len: Seq<u8>, data: Seq<u8>, rest: Seq<u8>)
    requires
        op == 0x4c && len.len() == 1 || op == 0x4d && len.len() == 2 || op == 0x4e && len.len()
            == 4,
        le_value(len) == data.len(),
    ensures
        parse_script(seq![op] + len + data + rest) == seq![Some(Ins::Bytes(data))] + parse_script(
            rest,
        ),
{
    let s = seq![op] + len + data + rest;
    let k = len.len() as int;
    assert(s.skip(1) =~= len + data + rest);
    assert(s.skip(1).take(k) =~= len);
    assert(s.skip(1).skip(k) =~= data + rest);
    assert((data + rest).take(data.len() as int) =~= data);
    assert((data + rest).skip(data.len() as int) =~= rest);
    assert(parse_push(data + rest, data.len()) == seq![Some(Ins::Bytes(data))] + parse_script(rest));
    assert(parse_sized_push(s.skip(1), len.len()) == parse_push(data + rest, data.len()));
}

proof fn lemma_parse_push(data: Seq<u8>, rest: Seq<u8>)
    requires
        data.len() < 0x1_0000_0000,
    ensures
        parse_script(push_script(data) + rest) == seq![Some(Ins::Bytes(data))] + parse_script(rest),
{
    let n = data.len();
    let s = push_script(data) + rest;
    if n < 0x4c {
        assert(s.skip(1) =~= data + rest);
        assert((data + rest).take(n as int) =~= data);
        assert((data + rest).skip(n as int) =~= rest);
        assert(parse_push(data + rest, n) == seq![Some(Ins::Bytes(data))] + parse_script(rest));
        assert(s[0] == n);
    } else if n < 0x100 {
        let len = seq![n as u8];
        assert(s =~= seq![0x4cu8] + len + data + rest);
        lemma_le_value_1(n as u8);
        lemma_parse_sized(0x4c, len, data, rest);
    } else if n < 0x1_0000 {
        let len = seq![(n % 0x100) as u8, (n / 0x100) as u8];
        assert(s =~= seq![0x4du8] + len + data + rest);
        lemma_le_value_2((n % 0x100) as u8, (n / 0x100) as u8);
        lemma_parse_sized(0x4d, len, data, rest);
    } else {
        let a = (n % 0x100) as u8;
        let b = ((n / 0x100) % 0x100) as u8;
        let c = ((n / 0x1_0000) % 0x100) as u8;
        let d = (n / 0x100_0000) as u8;
        let len = seq![a, b, c, d];
        assert(s =~= seq![0x4eu8] + len + data + rest);
        lemma_le_value_4(a, b, c, d);
        lemma_parse_sized(0x4e, len, data, rest);
    }
}

proof fn lemma_parse_op(op: u8, rest: Seq<u8>)
    requires
        op > 0x4e,
    ensures
        parse_script(seq![op] + rest) == seq![Some(Ins::Op(op))] + parse_script(rest),
{
    let s = seq![op] + rest;
    assert(s.skip(1) =~= rest);
}

/// One instruction reads back, and what follows it after it.
proof fn lemma_parse_one(ins: Ins, rest: Seq<u8>)
    requires
        plain(ins),
    ensures
        parse_script(ins_bytes(ins) + rest) == seq![Some(read_back(ins))] + parse_script(rest),
{
    match ins {
        Ins::Op(op) => {
            lemma_parse_op(op, rest);
        },
        Ins::Int(n) => {
            if n == 0 {
                reveal(num_bytes);
                assert(num_bytes(0) =~= Seq::<u8>::empty());
                assert(int_script(0) =~= push_script(num_bytes(0)));
                lemma_parse_push(num_bytes(0), rest);
            } else if n == -1 || 1 <= n <= 16 {
                lemma_parse_op((0x50 + n) as u8, rest);
            } else {
                lemma_num_bytes_short(n);
                lemma_parse_push(num_bytes(n), rest);
            }
        },
        Ins::Bytes(s) => {
            lemma_parse_push(s, rest);
        },
    }
}

/// A script's bytes are those of its first instruction, then the others'.
proof fn lemma_script_bytes_front(script: Seq<Ins>)
    requires
        script.len() > 0,
    ensures
        script_bytes(script) == ins_bytes(script[0]) + script_bytes(script.skip(1)),
    decreases script.len(),
{
    if script.len() == 1 {
        assert(script.drop_last() =~= Seq::<Ins>::empty());
        assert(script.skip(1) =~= Seq::<Ins>::empty());
        assert(script_bytes(Seq::<Ins>::empty()) =~= Seq::<u8>::empty());
        assert(script_bytes(script) =~= ins_bytes(script[0]) + Seq::<u8>::empty());
    } else {
        lemma_script_bytes_front(script.drop_last());
        assert(script.drop_last().skip(1) =~= script.skip(1).drop_last());
        assert(script.drop_last()[0] == script[0]);
        assert(script_bytes(script) =~= ins_bytes(script[0]) + script_bytes(script.skip(1)));
    }
}

/// What follows a first instruction that reads.
proof fn lemma_readable_front(first: Ins, rest: Seq<Option<Ins>>)
    ensures
        readable(seq![Some(first)] + rest) == seq![first] + readable(rest),
    decreases rest.len(),
{
    let s = seq![Some(first)] + rest;
    if rest.len() == 0 {
        assert(s.drop_last() =~= Seq::<Option<Ins>>::empty());
        assert(readable(s.drop_last()) =~= Seq::<Ins>::empty());
        assert(readable(rest) =~= Seq::<Ins>::empty());
        assert(readable(s) =~= seq![first] + readable(rest));
    } else {
        lemma_readable_front(first, rest.drop_last());
        assert(s.drop_last() =~= seq![Some(first)] + rest.drop_last());
        assert(s.last() == rest.last());
        assert(readable(s) =~= seq![first] + readable(rest));
    }
}

/// An assembled script reads back instruction by instruction.
pub proof fn law_script_reads_back(script: Seq<Ins>)
    requires
        all_plain(script),
    ensures
        readable(parse_script(script_bytes(script))) == read_back_all(script),
    decreases script.len(),
{
    if script.len() == 0 {
        assert(readable(parse_script(script_bytes(script))) =~= read_back_all(script));
    } else {
        let rest = script.skip(1);
        assert forall|i: int| 0 <= i < rest.len() implies plain(#[trigger] rest[i]) by {
            assert(plain(script[i + 1]));
        }
        assert(plain(script[0]));
        law_script_reads_back(rest);
        lemma_script_bytes_front(script);
        lemma_parse_one(script[0], script_bytes(rest));
        lemma_readable_front(read_back(script[0]), parse_script(script_bytes(rest)));
        assert(read_back_all(script) =~= seq![read_back(script[0])] + read_back_all(rest));
    }
}

// ----- the bit gadgets -----

/// A pattern whose first place does not fit is not there.
pub(crate) proof fn lemma_not_at(ins: Seq<Ins>, i: int, pattern: Seq<Pat>)
    requires
        pattern.len() > 0,
        !fits(ins[i], pattern[0]),
    ensures
        !at(ins, i, pattern),
        repeats(ins, i, pattern) == 0,
{
    if at(ins, i, pattern) {
        assert(fits(ins[i + 0], pattern[0]));
    }
}

/// At an instruction that is one opcode, most gadgets can be told apart at once.
proof fn lemma_hash_head(ins: Seq<Ins>, i: int)
    requires
        0 <= i < ins.len(),
        ins[i] == Ins::Op(OP_HASH160),
    ensures
        gadget_at(ins, i) == (if at(ins, i, bit_decode_pattern()) {
            let dropped = at(ins, i + 12, op_pattern(OP_DROP));
            (
                GadgetView::BitDecode { h0: pushed(ins[i + 8]), h1: pushed(ins[i + 2]), dropped },
                if dropped {
                    i + 13
                } else {
                    i + 12
                },
            )
        } else if at(ins, i, expect_bit_pattern()) {
            (GadgetView::ExpectBit { h: pushed(ins[i + 1]) }, i + 3)
        } else {
            gadget_at(ins, i)
        }),
{
    lemma_not_at(ins, i, tied_pattern());
    lemma_not_at(ins, i, wots_step_pattern());
    lemma_not_at(ins, i, finale_head_pattern());
    lemma_not_at(ins, i, differ_pattern());
    lemma_not_at(ins, i, readout_pattern());
    lemma_not_at(ins, i, op_pattern(OP_TOALTSTACK));
    lemma_not_at(ins, i, op_pattern(OP_FROMALTSTACK));
    lemma_not_at(ins, i, op_pattern(OP_2DROP));
    lemma_not_at(ins, i, op_pattern(OP_DROP));
}

/// A bit decode is recognised wherever it stands, with its two hashes.
pub proof fn law_bit_decode_recognised(before: Seq<Ins>, c: BitCommit, after: Seq<Ins>)
    ensures
        ({
            let ins = before + read_back_all(bit_decode_ins(Seq::empty(), c)) + after;
            let (g, next) = gadget_at(ins, before.len() as int);
            let dropped = after.len() > 0 && after[0] == Ins::Op(OP_DROP);
            &&& g == (GadgetView::BitDecode { h0: c.h0@, h1: c.h1@, dropped })
            &&& next == before.len() + 12 + if dropped { 1int } else { 0int }
        }),
{
    let piece = read_back_all(bit_decode_ins(Seq::empty(), c));
    let ins = before + piece + after;
    let i = before.len() as int;
    assert(piece.len() == 12);
    assert forall|k: int| 0 <= k < 12 implies #[trigger] fits(
        ins[i + k],
        bit_decode_pattern()[k],
    ) by {
        assert(ins[i + k] == piece[k]);
    }
    assert(at(ins, i, bit_decode_pattern()));
    assert(ins[i] == piece[0]);
    lemma_hash_head(ins, i);
    assert(ins[i + 2] == piece[2]);
    assert(ins[i + 8] == piece[8]);
    if after.len() > 0 {
        assert(ins[i + 12] == after[0]);
    }
    let p = op_pattern(OP_DROP);
    if at(ins, i + 12, p) {
        assert(fits(ins[i + 12 + 0], p[0]));
    } else if after.len() > 0 && after[0] == Ins::Op(OP_DROP) {
        assert(fits(ins[i + 12 + 0], p[0]));
    }
}

/// A hash check is recognised wherever it stands.
pub proof fn law_expect_bit_recognised(before: Seq<Ins>, h: Seq<u8>, after: Seq<Ins>)
    requires
        h.len() == 20,
    ensures
        gadget_at(
            before + read_back_all(hash160_verify_ins(Seq::empty(), h)) + after,
            before.len() as int,
        ) == (GadgetView::ExpectBit { h }, before.len() as int + 3),
{
    let piece = read_back_all(hash160_verify_ins(Seq::empty(), h));
    let ins = before + piece + after;
    let i = before.len() as int;
    assert(piece.len() == 3);
    assert forall|k: int| 0 <= k < 3 implies #[trigger] fits(
        ins[i + k],
        expect_bit_pattern()[k],
    ) by {
        assert(ins[i + k] == piece[k]);
    }
    assert(at(ins, i, expect_bit_pattern()));
    assert(ins[i] == piece[0]);
    assert(ins[i + 1] == piece[1]);
    if at(ins, i, bit_decode_pattern()) {
        assert(fits(ins[i + 1], bit_decode_pattern()[1]));
    }
    lemma_hash_head(ins, i);
}

} // verus!
