//! The gadgets of a leaf script, recognised by their instructions.

use vstd::prelude::*;

use crate::decode::instructions::{
    ins_num, ins_push20, instructions, items_ins, parse_script, push20, push_num, read_scriptint,
    readable,
};
use crate::decode::text::{head4, hex4, hex_text};
use crate::script::machine::{bytes_num, lemma_bytes_num_bound, Ins};
use crate::script::opcodes::{
    OP_0NOTEQUAL, OP_2DROP, OP_2DUP, OP_ADD, OP_CHECKSIG, OP_CHECKSIGADD, OP_CHECKSIGVERIFY,
    OP_CLTV, OP_CSV, OP_DROP, OP_DUP, OP_ELSE, OP_ENDIF, OP_EQUAL, OP_EQUALVERIFY,
    OP_FROMALTSTACK, OP_HASH160, OP_IF, OP_LESSTHAN, OP_MIN, OP_NEGATE, OP_NUMEQUALVERIFY, OP_PICK,
    OP_PUSHNUM_15, OP_PUSHNUM_16, OP_PUSHNUM_8, OP_ROLL, OP_SIZE, OP_SUB, OP_SWAP, OP_TOALTSTACK,
    OP_TUCK, OP_VERIFY,
};
use crate::script::Item;

verus! {

// ----- patterns -----

/// What one place of a pattern asks of an instruction.
#[derive(Clone, Copy)]
pub enum Pat {
    /// This opcode.
    Op(u8),
    /// One of two opcodes.
    Either(u8, u8),
    /// A small number.
    Num,
    /// This small number.
    NumIs(i64),
    /// A push of 20 bytes.
    Push20,
    /// A push of 32 bytes.
    Push32,
    /// Anything.
    Any,
}

/// Whether an instruction is what a place of a pattern asks.
pub open spec fn fits(ins: Ins, pat: Pat) -> bool {
    match pat {
        Pat::Op(op) => ins == Ins::Op(op),
        Pat::Either(a, b) => ins == Ins::Op(a) || ins == Ins::Op(b),
        Pat::Num => ins_num(ins) is Some,
        Pat::NumIs(n) => ins_num(ins) == Some(n as int),
        Pat::Push20 => ins_push20(ins) is Some,
        Pat::Push32 => ins matches Ins::Bytes(s) && s.len() == 32,
        Pat::Any => true,
    }
}

/// Whether the instructions from `i` on start with a pattern.
pub open spec fn at(ins: Seq<Ins>, i: int, pattern: Seq<Pat>) -> bool {
    &&& i + pattern.len() <= ins.len()
    &&& forall|k: int| 0 <= k < pattern.len() ==> #[trigger] fits(ins[i + k], pattern[k])
}

/// How often a pattern repeats from `i` on.
pub open spec fn repeats(ins: Seq<Ins>, i: int, pattern: Seq<Pat>) -> nat
    decreases ins.len() - i,
{
    if pattern.len() > 0 && 0 <= i && at(ins, i, pattern) {
        1 + repeats(ins, i + pattern.len(), pattern)
    } else {
        0
    }
}

fn item_fits(item: &Item, pat: Pat) -> (r: bool)
    ensures
        r == fits(item@, pat),
{
    match pat {
        Pat::Op(op) => matches!(item, Item::Op(o) if *o == op),
        Pat::Either(a, b) => matches!(item, Item::Op(o) if *o == a || *o == b),
        Pat::Num => push_num(item).is_some(),
        Pat::NumIs(n) => match push_num(item) {
            Some(v) => v == n,
            None => false,
        },
        Pat::Push20 => push20(item).is_some(),
        Pat::Push32 => matches!(item, Item::Bytes(p) if p.len() == 32),
        Pat::Any => true,
    }
}

fn items_at(items: &[Item], i: usize, pattern: &[Pat]) -> (r: bool)
    requires
        i <= items@.len(),
    ensures
        r == at(items_ins(items@), i as int, pattern@),
        items@.len() <= usize::MAX,
{
    let len: usize = items.len();
    if pattern.len() > len - i {
        return false;
    }
    for k in 0..pattern.len()
        invariant
            len == items@.len(),
            i + pattern@.len() <= len,
            forall|j: int|
                0 <= j < k ==> #[trigger] fits(items_ins(items@)[i + j], pattern@[j]),
    {
        if !item_fits(&items[i + k], pattern[k]) {
            assert(!fits(items_ins(items@)[i + k], pattern@[k as int]));
            return false;
        }
    }
    true
}

fn count_repeats(items: &[Item], i: usize, pattern: &[Pat]) -> (n: usize)
    requires
        i <= items@.len(),
        pattern@.len() > 0,
    ensures
        n == repeats(items_ins(items@), i as int, pattern@),
        i + n * pattern@.len() <= items@.len(),
        n <= items@.len() <= usize::MAX,
{
    let len: usize = items.len();
    let w: usize = pattern.len();
    let mut j: usize = i;
    let mut n: usize = 0;
    while items_at(items, j, pattern)
        invariant
            len == items@.len(),
            w == pattern@.len(),
            w > 0,
            i <= j <= len,
            n <= j - i,
            j == i + n * w,
            n + repeats(items_ins(items@), j as int, pattern@) == repeats(
                items_ins(items@),
                i as int,
                pattern@,
            ),
        decreases len - j,
    {
        assert((n + 1) * w == n * w + w) by (nonlinear_arith);
        j = j + w;
        n = n + 1;
    }
    n
}

// ----- the patterns of the gadgets -----

/// The tied verify's preamble to a digit: `<file> ROLL <depth> PICK` (a message
/// digit) or `<file+1> ROLL <file+1> ROLL` (a checksum digit).
pub open spec fn tied_pattern() -> Seq<Pat> {
    seq![Pat::Num, Pat::Op(OP_ROLL), Pat::Num, Pat::Either(OP_PICK, OP_ROLL)]
}

/// One digit's chain verification: 49 instructions.
pub open spec fn wots_step_pattern() -> Seq<Pat> {
    seq![
        Pat::Op(OP_SWAP),
        Pat::Op(OP_SIZE),
        Pat::NumIs(20),
        Pat::Op(OP_EQUALVERIFY),
        Pat::Op(OP_SWAP),
        Pat::Op(OP_PUSHNUM_15),
        Pat::Op(OP_MIN),
        Pat::Op(OP_DUP),
        Pat::Op(OP_TOALTSTACK),
        Pat::Op(OP_PUSHNUM_8),
        Pat::Op(OP_2DUP),
        Pat::Op(OP_LESSTHAN),
        Pat::Op(OP_IF),
        Pat::Op(OP_DROP),
        Pat::Op(OP_TOALTSTACK),
        Pat::Op(OP_HASH160),
        Pat::Op(OP_HASH160),
        Pat::Op(OP_HASH160),
        Pat::Op(OP_HASH160),
        Pat::Op(OP_HASH160),
        Pat::Op(OP_HASH160),
        Pat::Op(OP_HASH160),
        Pat::Op(OP_HASH160),
        Pat::Op(OP_ELSE),
        Pat::Op(OP_SUB),
        Pat::Op(OP_TOALTSTACK),
        Pat::Op(OP_ENDIF),
        Pat::Op(OP_DUP),
        Pat::Op(OP_HASH160),
        Pat::Op(OP_DUP),
        Pat::Op(OP_HASH160),
        Pat::Op(OP_DUP),
        Pat::Op(OP_HASH160),
        Pat::Op(OP_DUP),
        Pat::Op(OP_HASH160),
        Pat::Op(OP_DUP),
        Pat::Op(OP_HASH160),
        Pat::Op(OP_DUP),
        Pat::Op(OP_HASH160),
        Pat::Op(OP_DUP),
        Pat::Op(OP_HASH160),
        Pat::Op(OP_FROMALTSTACK),
        Pat::Op(OP_PICK),
        Pat::Push20,
        Pat::Op(OP_EQUALVERIFY),
        Pat::Op(OP_2DROP),
        Pat::Op(OP_2DROP),
        Pat::Op(OP_2DROP),
        Pat::Op(OP_2DROP),
    ]
}

/// The start of the checksum finale, with room for the rest.
pub open spec fn finale_head_pattern() -> Seq<Pat> {
    seq![
        Pat::Op(OP_FROMALTSTACK),
        Pat::Op(OP_DUP),
        Pat::Op(OP_NEGATE),
        Pat::Any,
        Pat::Any,
        Pat::Any,
        Pat::Any,
    ]
}

/// One more message digit subtracted.
pub open spec fn finale_sum_pattern() -> Seq<Pat> {
    seq![Pat::Op(OP_FROMALTSTACK), Pat::Op(OP_TUCK), Pat::Op(OP_SUB)]
}

/// The largest checksum added, the first checksum digit fetched.
pub open spec fn finale_total_pattern() -> Seq<Pat> {
    seq![Pat::Num, Pat::Op(OP_ADD), Pat::Op(OP_FROMALTSTACK)]
}

/// One more checksum digit shifted in.
pub open spec fn finale_shift_pattern() -> Seq<Pat> {
    seq![
        Pat::Op(OP_DUP),
        Pat::Op(OP_ADD),
        Pat::Op(OP_DUP),
        Pat::Op(OP_ADD),
        Pat::Op(OP_DUP),
        Pat::Op(OP_ADD),
        Pat::Op(OP_DUP),
        Pat::Op(OP_ADD),
        Pat::Op(OP_FROMALTSTACK),
        Pat::Op(OP_ADD),
    ]
}

/// One digit pair of the differ: `<m-j> PICK <2m-j+1> PICK SUB 0NOTEQUAL ADD`.
pub open spec fn differ_pattern() -> Seq<Pat> {
    seq![
        Pat::Num,
        Pat::Op(OP_PICK),
        Pat::Num,
        Pat::Op(OP_PICK),
        Pat::Op(OP_SUB),
        Pat::Op(OP_0NOTEQUAL),
        Pat::Op(OP_ADD),
    ]
}

/// An EC-OTS tied-readout chunk: 36 instructions.
pub open spec fn readout_pattern() -> Seq<Pat> {
    seq![
        Pat::Op(OP_FROMALTSTACK),
        Pat::Push32,
        Pat::Push32,
        Pat::Push32,
        Pat::Push32,
        Pat::Push32,
        Pat::Push32,
        Pat::Push32,
        Pat::Push32,
        Pat::Push32,
        Pat::Push32,
        Pat::Push32,
        Pat::Push32,
        Pat::Push32,
        Pat::Push32,
        Pat::Push32,
        Pat::Push32,
        Pat::Op(OP_PUSHNUM_16),
        Pat::Op(OP_PICK),
        Pat::Op(OP_PUSHNUM_15),
        Pat::Op(OP_SWAP),
        Pat::Op(OP_SUB),
        Pat::Op(OP_PICK),
        Pat::NumIs(18),
        Pat::Op(OP_ROLL),
        Pat::Op(OP_SWAP),
        Pat::Op(OP_CHECKSIGVERIFY),
        Pat::Op(OP_2DROP),
        Pat::Op(OP_2DROP),
        Pat::Op(OP_2DROP),
        Pat::Op(OP_2DROP),
        Pat::Op(OP_2DROP),
        Pat::Op(OP_2DROP),
        Pat::Op(OP_2DROP),
        Pat::Op(OP_2DROP),
        Pat::Op(OP_DROP),
    ]
}

/// One opcode.
pub open spec fn op_pattern(op: u8) -> Seq<Pat> {
    seq![Pat::Op(op)]
}

/// A bit decode; the two numbers it leaves are not looked at.
pub open spec fn bit_decode_pattern() -> Seq<Pat> {
    seq![
        Pat::Op(OP_HASH160),
        Pat::Op(OP_DUP),
        Pat::Push20,
        Pat::Op(OP_EQUAL),
        Pat::Op(OP_IF),
        Pat::Op(OP_DROP),
        Pat::Any,
        Pat::Op(OP_ELSE),
        Pat::Push20,
        Pat::Op(OP_EQUALVERIFY),
        Pat::Any,
        Pat::Op(OP_ENDIF),
    ]
}

/// `OP_HASH160 <h> OP_EQUALVERIFY`.
pub open spec fn expect_bit_pattern() -> Seq<Pat> {
    seq![Pat::Op(OP_HASH160), Pat::Push20, Pat::Op(OP_EQUALVERIFY)]
}

/// `<n> OP_CSV OP_DROP` or `<h> OP_CLTV OP_DROP`.
pub open spec fn timelock_pattern() -> Seq<Pat> {
    seq![Pat::Any, Pat::Either(OP_CSV, OP_CLTV), Pat::Op(OP_DROP)]
}

/// `<A> OP_CHECKSIG <B> OP_CHECKSIGADD 2 OP_NUMEQUAL[VERIFY]`.
pub open spec fn two_of_two_pattern() -> Seq<Pat> {
    seq![
        Pat::Push32,
        Pat::Op(OP_CHECKSIG),
        Pat::Any,
        Pat::Op(OP_CHECKSIGADD),
        Pat::Any,
        Pat::Any,
    ]
}

/// `<key> OP_CHECKSIG[VERIFY]`.
pub open spec fn checksig_pattern() -> Seq<Pat> {
    seq![Pat::Push32, Pat::Either(OP_CHECKSIG, OP_CHECKSIGVERIFY)]
}

// ----- gadgets -----

/// What an instruction outside any gadget is called.
#[derive(Debug, PartialEq, Eq)]
pub enum Label {
    /// The name of an opcode.
    Op(u8),
    /// The empty push.
    Zero,
    /// A number; 0 where the push is no minimal script number.
    Number(i64),
    /// A longer push: its length and its first four bytes in hexadecimal.
    Bytes { len: usize, head: String },
}

/// A recognised piece of a leaf.
#[derive(Debug, PartialEq, Eq)]
pub enum Gadget {
    BitDecode { h0: [u8; 20], h1: [u8; 20], dropped: bool },
    ExpectBit { h: [u8; 20] },
    /// A relative (CSV) or absolute (CLTV) timelock; -1 for no small number.
    Timelock { relative: bool, n: i64 },
    TwoOfTwo { verify: bool },
    Checksig { verify: bool, key4: String },
    /// One digit's chain verification. `tied`: `Some(true)` for a message digit
    /// (its value picked off the register file), `Some(false)` for a checksum
    /// digit (its declared value rolled up with the hash); `None` for the plain
    /// form (both ride the witness).
    WotsStep { pk: [u8; 20], tied: Option<bool> },
    /// The checksum finale closing a verify block.
    WotsFinale { msg: usize, ck: usize },
    /// The digitwise differ: some digit differs, then the two vectors dropped.
    Differ { m: usize },
    /// An EC-OTS tied-readout chunk, with the head of its first point.
    ReadoutChunk { point4: String },
    Park { n: usize },
    Unpark { n: usize },
    DropRun { n: usize },
    Drop2Run { pairs: usize },
    Other(Label),
}

/// A label as a mathematical value.
pub enum LabelView {
    Op(u8),
    Zero,
    Number(int),
    Bytes { len: nat, head: Seq<char> },
}

/// A gadget as a mathematical value.
pub enum GadgetView {
    BitDecode { h0: Seq<u8>, h1: Seq<u8>, dropped: bool },
    ExpectBit { h: Seq<u8> },
    Timelock { relative: bool, n: int },
    TwoOfTwo { verify: bool },
    Checksig { verify: bool, key4: Seq<char> },
    WotsStep { pk: Seq<u8>, tied: Option<bool> },
    WotsFinale { msg: nat, ck: nat },
    Differ { m: nat },
    ReadoutChunk { point4: Seq<char> },
    Park { n: nat },
    Unpark { n: nat },
    DropRun { n: nat },
    Drop2Run { pairs: nat },
    Other(LabelView),
}

impl View for Label {
    type V = LabelView;

    open spec fn view(&self) -> LabelView {
        match self {
            Label::Op(op) => LabelView::Op(*op),
            Label::Zero => LabelView::Zero,
            Label::Number(n) => LabelView::Number(*n as int),
            Label::Bytes { len, head } => LabelView::Bytes { len: *len as nat, head: head@ },
        }
    }
}

impl View for Gadget {
    type V = GadgetView;

    open spec fn view(&self) -> GadgetView {
        match self {
            Gadget::BitDecode { h0, h1, dropped } => GadgetView::BitDecode {
                h0: h0@,
                h1: h1@,
                dropped: *dropped,
            },
            Gadget::ExpectBit { h } => GadgetView::ExpectBit { h: h@ },
            Gadget::Timelock { relative, n } => GadgetView::Timelock {
                relative: *relative,
                n: *n as int,
            },
            Gadget::TwoOfTwo { verify } => GadgetView::TwoOfTwo { verify: *verify },
            Gadget::Checksig { verify, key4 } => GadgetView::Checksig {
                verify: *verify,
                key4: key4@,
            },
            Gadget::WotsStep { pk, tied } => GadgetView::WotsStep { pk: pk@, tied: *tied },
            Gadget::WotsFinale { msg, ck } => GadgetView::WotsFinale {
                msg: *msg as nat,
                ck: *ck as nat,
            },
            Gadget::Differ { m } => GadgetView::Differ { m: *m as nat },
            Gadget::ReadoutChunk { point4 } => GadgetView::ReadoutChunk { point4: point4@ },
            Gadget::Park { n } => GadgetView::Park { n: *n as nat },
            Gadget::Unpark { n } => GadgetView::Unpark { n: *n as nat },
            Gadget::DropRun { n } => GadgetView::DropRun { n: *n as nat },
            Gadget::Drop2Run { pairs } => GadgetView::Drop2Run { pairs: *pairs as nat },
            Gadget::Other(label) => GadgetView::Other(label@),
        }
    }
}

/// What a push outside any gadget is called.
pub open spec fn push_label_spec(s: Seq<u8>) -> LabelView {
    if s.len() == 0 {
        LabelView::Zero
    } else if s.len() <= 4 {
        LabelView::Number(
            match bytes_num(s) {
                Some(v) => v,
                None => 0,
            },
        )
    } else {
        LabelView::Bytes { len: s.len(), head: hex_text(head4(s)) }
    }
}

/// What an instruction outside any gadget is called.
pub open spec fn label_spec(ins: Ins) -> LabelView {
    match ins {
        Ins::Op(op) => LabelView::Op(op),
        Ins::Int(n) => LabelView::Number(n),
        Ins::Bytes(s) => push_label_spec(s),
    }
}

/// The bytes that an instruction pushes.
pub open spec fn pushed(ins: Ins) -> Seq<u8> {
    match ins {
        Ins::Bytes(s) => s,
        _ => Seq::empty(),
    }
}

/// The checksum finale at `i`, if there is one: how many instructions it takes,
/// and the numbers of message and checksum digits it closes.
pub open spec fn finale_at(ins: Seq<Ins>, i: int) -> Option<(nat, nat, nat)> {
    let more = repeats(ins, i + 3, finale_sum_pattern());
    let j = i + 3 + 3 * more;
    let msg = more + 1;
    let shifts = repeats(ins, j + 3, finale_shift_pattern());
    let end = j + 3 + 10 * shifts;
    if at(ins, i, finale_head_pattern()) && at(ins, j, finale_total_pattern()) && ins_num(ins[j])
        == Some(15 * msg as int) && at(ins, end, op_pattern(OP_EQUALVERIFY)) {
        Some(((end + 1 - i) as nat, msg, shifts + 1))
    } else {
        None
    }
}

/// Where the differ of `m` digit pairs at `i` ends: after the verify, the pair
/// drops and, if there are `m` of those, a pushed 1.
pub open spec fn differ_end(ins: Seq<Ins>, i: int, m: nat) -> int {
    let drops = i + 7 * m + 1;
    let pairs = repeats(ins, drops, op_pattern(OP_2DROP));
    if pairs == m && at(ins, drops + pairs, seq![Pat::NumIs(1)]) {
        drops + pairs + 1
    } else {
        drops + pairs
    }
}

/// The gadget at `i`, and where the next one starts.
pub open spec fn gadget_at(ins: Seq<Ins>, i: int) -> (GadgetView, int) {
    let differs = repeats(ins, i, differ_pattern());
    let parks = repeats(ins, i, op_pattern(OP_TOALTSTACK));
    let unparks = repeats(ins, i, op_pattern(OP_FROMALTSTACK));
    let drops2 = repeats(ins, i, op_pattern(OP_2DROP));
    let drops = repeats(ins, i, op_pattern(OP_DROP));
    if at(ins, i, tied_pattern()) && at(ins, i + 4, wots_step_pattern()) {
        (
            GadgetView::WotsStep {
                pk: pushed(ins[i + 4 + 43]),
                tied: Some(ins[i + 3] == Ins::Op(OP_PICK)),
            },
            i + 4 + 49,
        )
    } else if at(ins, i, wots_step_pattern()) {
        (GadgetView::WotsStep { pk: pushed(ins[i + 43]), tied: None }, i + 49)
    } else if finale_at(ins, i) is Some {
        let (n, msg, ck) = finale_at(ins, i).unwrap();
        (GadgetView::WotsFinale { msg, ck }, i + n)
    } else if differs >= 1 {
        if differs >= 3 && at(ins, i + 7 * differs, op_pattern(OP_VERIFY)) {
            (GadgetView::Differ { m: differs }, differ_end(ins, i, differs))
        } else {
            (GadgetView::Other(label_spec(ins[i])), i + 1)
        }
    } else if at(ins, i, readout_pattern()) {
        (GadgetView::ReadoutChunk { point4: hex_text(head4(pushed(ins[i + 1]))) }, i + 36)
    } else if parks >= 3 {
        (GadgetView::Park { n: parks }, i + parks)
    } else if unparks >= 3 {
        (GadgetView::Unpark { n: unparks }, i + unparks)
    } else if drops2 >= 2 {
        (GadgetView::Drop2Run { pairs: drops2 }, i + drops2)
    } else if drops >= 3 {
        (GadgetView::DropRun { n: drops }, i + drops)
    } else if at(ins, i, bit_decode_pattern()) {
        let dropped = at(ins, i + 12, op_pattern(OP_DROP));
        (
            GadgetView::BitDecode { h0: pushed(ins[i + 8]), h1: pushed(ins[i + 2]), dropped },
            if dropped {
                i + 13
            } else {
                i + 12
            },
        )
    } else if at(ins, i, expect_bit_pattern()) {
        (GadgetView::ExpectBit { h: pushed(ins[i + 1]) }, i + 3)
    } else if at(ins, i, timelock_pattern()) {
        (
            GadgetView::Timelock {
                relative: ins[i + 1] == Ins::Op(OP_CSV),
                n: match ins_num(ins[i]) {
                    Some(v) => v,
                    None => -1,
                },
            },
            i + 3,
        )
    } else if at(ins, i, two_of_two_pattern()) {
        (GadgetView::TwoOfTwo { verify: ins[i + 5] == Ins::Op(OP_NUMEQUALVERIFY) }, i + 6)
    } else if at(ins, i, checksig_pattern()) {
        (
            GadgetView::Checksig {
                verify: ins[i + 1] == Ins::Op(OP_CHECKSIGVERIFY),
                key4: hex_text(head4(pushed(ins[i]))),
            },
            i + 2,
        )
    } else {
        (GadgetView::Other(label_spec(ins[i])), i + 1)
    }
}

/// The gadgets of the instructions from `i` on.
pub open spec fn gadgets_from(ins: Seq<Ins>, i: int) -> Seq<GadgetView>
    decreases ins.len() - i,
{
    if i >= ins.len() {
        Seq::empty()
    } else {
        let (g, next) = gadget_at(ins, i);
        if i < next <= ins.len() {
            seq![g] + gadgets_from(ins, next)
        } else {
            seq![g]
        }
    }
}

// ----- the patterns, as values -----

fn tied_pats() -> (p: [Pat; 4])
    ensures
        p@ == tied_pattern(),
{
    let p: [Pat; 4] = [Pat::Num, Pat::Op(OP_ROLL), Pat::Num, Pat::Either(OP_PICK, OP_ROLL)];
    assert(p@ =~= tied_pattern());
    p
}

fn wots_step_pats() -> (p: [Pat; 49])
    ensures
        p@ == wots_step_pattern(),
{
    let p: [Pat; 49] = [
        Pat::Op(OP_SWAP),
        Pat::Op(OP_SIZE),
        Pat::NumIs(20),
        Pat::Op(OP_EQUALVERIFY),
        Pat::Op(OP_SWAP),
        Pat::Op(OP_PUSHNUM_15),
        Pat::Op(OP_MIN),
        Pat::Op(OP_DUP),
        Pat::Op(OP_TOALTSTACK),
        Pat::Op(OP_PUSHNUM_8),
        Pat::Op(OP_2DUP),
        Pat::Op(OP_LESSTHAN),
        Pat::Op(OP_IF),
        Pat::Op(OP_DROP),
        Pat::Op(OP_TOALTSTACK),
        Pat::Op(OP_HASH160),
        Pat::Op(OP_HASH160),
        Pat::Op(OP_HASH160),
        Pat::Op(OP_HASH160),
        Pat::Op(OP_HASH160),
        Pat::Op(OP_HASH160),
        Pat::Op(OP_HASH160),
        Pat::Op(OP_HASH160),
        Pat::Op(OP_ELSE),
        Pat::Op(OP_SUB),
        Pat::Op(OP_TOALTSTACK),
        Pat::Op(OP_ENDIF),
        Pat::Op(OP_DUP),
        Pat::Op(OP_HASH160),
        Pat::Op(OP_DUP),
        Pat::Op(OP_HASH160),
        Pat::Op(OP_DUP),
        Pat::Op(OP_HASH160),
        Pat::Op(OP_DUP),
        Pat::Op(OP_HASH160),
        Pat::Op(OP_DUP),
        Pat::Op(OP_HASH160),
        Pat::Op(OP_DUP),
        Pat::Op(OP_HASH160),
        Pat::Op(OP_DUP),
        Pat::Op(OP_HASH160),
        Pat::Op(OP_FROMALTSTACK),
        Pat::Op(OP_PICK),
        Pat::Push20,
        Pat::Op(OP_EQUALVERIFY),
        Pat::Op(OP_2DROP),
        Pat::Op(OP_2DROP),
        Pat::Op(OP_2DROP),
        Pat::Op(OP_2DROP),
    ];
    assert(p@ =~= wots_step_pattern());
    p
}

fn finale_head_pats() -> (p: [Pat; 7])
    ensures
        p@ == finale_head_pattern(),
{
    let p: [Pat; 7] = [
        Pat::Op(OP_FROMALTSTACK),
        Pat::Op(OP_DUP),
        Pat::Op(OP_NEGATE),
        Pat::Any,
        Pat::Any,
        Pat::Any,
        Pat::Any,
    ];
    assert(p@ =~= finale_head_pattern());
    p
}

fn finale_sum_pats() -> (p: [Pat; 3])
    ensures
        p@ == finale_sum_pattern(),
{
    let p: [Pat; 3] = [Pat::Op(OP_FROMALTSTACK), Pat::Op(OP_TUCK), Pat::Op(OP_SUB)];
    assert(p@ =~= finale_sum_pattern());
    p
}

fn finale_total_pats() -> (p: [Pat; 3])
    ensures
        p@ == finale_total_pattern(),
{
    let p: [Pat; 3] = [Pat::Num, Pat::Op(OP_ADD), Pat::Op(OP_FROMALTSTACK)];
    assert(p@ =~= finale_total_pattern());
    p
}

fn finale_shift_pats() -> (p: [Pat; 10])
    ensures
        p@ == finale_shift_pattern(),
{
    let p: [Pat; 10] = [
        Pat::Op(OP_DUP),
        Pat::Op(OP_ADD),
        Pat::Op(OP_DUP),
        Pat::Op(OP_ADD),
        Pat::Op(OP_DUP),
        Pat::Op(OP_ADD),
        Pat::Op(OP_DUP),
        Pat::Op(OP_ADD),
        Pat::Op(OP_FROMALTSTACK),
        Pat::Op(OP_ADD),
    ];
    assert(p@ =~= finale_shift_pattern());
    p
}

fn differ_pats() -> (p: [Pat; 7])
    ensures
        p@ == differ_pattern(),
{
    let p: [Pat; 7] = [
        Pat::Num,
        Pat::Op(OP_PICK),
        Pat::Num,
        Pat::Op(OP_PICK),
        Pat::Op(OP_SUB),
        Pat::Op(OP_0NOTEQUAL),
        Pat::Op(OP_ADD),
    ];
    assert(p@ =~= differ_pattern());
    p
}

fn readout_pats() -> (p: [Pat; 36])
    ensures
        p@ == readout_pattern(),
{
    let p: [Pat; 36] = [
        Pat::Op(OP_FROMALTSTACK),
        Pat::Push32,
        Pat::Push32,
        Pat::Push32,
        Pat::Push32,
        Pat::Push32,
        Pat::Push32,
        Pat::Push32,
        Pat::Push32,
        Pat::Push32,
        Pat::Push32,
        Pat::Push32,
        Pat::Push32,
        Pat::Push32,
        Pat::Push32,
        Pat::Push32,
        Pat::Push32,
        Pat::Op(OP_PUSHNUM_16),
        Pat::Op(OP_PICK),
        Pat::Op(OP_PUSHNUM_15),
        Pat::Op(OP_SWAP),
        Pat::Op(OP_SUB),
        Pat::Op(OP_PICK),
        Pat::NumIs(18),
        Pat::Op(OP_ROLL),
        Pat::Op(OP_SWAP),
        Pat::Op(OP_CHECKSIGVERIFY),
        Pat::Op(OP_2DROP),
        Pat::Op(OP_2DROP),
        Pat::Op(OP_2DROP),
        Pat::Op(OP_2DROP),
        Pat::Op(OP_2DROP),
        Pat::Op(OP_2DROP),
        Pat::Op(OP_2DROP),
        Pat::Op(OP_2DROP),
        Pat::Op(OP_DROP),
    ];
    assert(p@ =~= readout_pattern());
    p
}

fn bit_decode_pats() -> (p: [Pat; 12])
    ensures
        p@ == bit_decode_pattern(),
{
    let p: [Pat; 12] = [
        Pat::Op(OP_HASH160),
        Pat::Op(OP_DUP),
        Pat::Push20,
        Pat::Op(OP_EQUAL),
        Pat::Op(OP_IF),
        Pat::Op(OP_DROP),
        Pat::Any,
        Pat::Op(OP_ELSE),
        Pat::Push20,
        Pat::Op(OP_EQUALVERIFY),
        Pat::Any,
        Pat::Op(OP_ENDIF),
    ];
    assert(p@ =~= bit_decode_pattern());
    p
}

fn expect_bit_pats() -> (p: [Pat; 3])
    ensures
        p@ == expect_bit_pattern(),
{
    let p: [Pat; 3] = [Pat::Op(OP_HASH160), Pat::Push20, Pat::Op(OP_EQUALVERIFY)];
    assert(p@ =~= expect_bit_pattern());
    p
}

fn timelock_pats() -> (p: [Pat; 3])
    ensures
        p@ == timelock_pattern(),
{
    let p: [Pat; 3] = [Pat::Any, Pat::Either(OP_CSV, OP_CLTV), Pat::Op(OP_DROP)];
    assert(p@ =~= timelock_pattern());
    p
}

fn two_of_two_pats() -> (p: [Pat; 6])
    ensures
        p@ == two_of_two_pattern(),
{
    let p: [Pat; 6] = [
        Pat::Push32,
        Pat::Op(OP_CHECKSIG),
        Pat::Any,
        Pat::Op(OP_CHECKSIGADD),
        Pat::Any,
        Pat::Any,
    ];
    assert(p@ =~= two_of_two_pattern());
    p
}

fn checksig_pats() -> (p: [Pat; 2])
    ensures
        p@ == checksig_pattern(),
{
    let p: [Pat; 2] = [Pat::Push32, Pat::Either(OP_CHECKSIG, OP_CHECKSIGVERIFY)];
    assert(p@ =~= checksig_pattern());
    p
}

fn op_pats(op: u8) -> (p: [Pat; 1])
    ensures
        p@ == op_pattern(op),
{
    let p: [Pat; 1] = [Pat::Op(op)];
    assert(p@ =~= op_pattern(op));
    p
}

// ----- recognising gadgets -----

/// One digit's chain verification at `i`: how many instructions it takes, and
/// the public digit.
pub fn wots_step(items: &[Item], i: usize) -> (r: Option<(usize, [u8; 20])>)
    requires
        i <= items@.len(),
    ensures
        match r {
            Some((n, pk)) => {
                &&& at(items_ins(items@), i as int, wots_step_pattern())
                &&& n == 49
                &&& pk@ == pushed(items_ins(items@)[i + 43])
            },
            None => !at(items_ins(items@), i as int, wots_step_pattern()),
        },
{
    if !items_at(items, i, wots_step_pats().as_slice()) {
        return None;
    }
    assert(fits(items_ins(items@)[i + 43], wots_step_pattern()[43]));
    match push20(&items[i + 43]) {
        Some(pk) => Some((49, pk)),
        None => None,
    }
}

/// The checksum finale at `i`: how many instructions it takes, and the numbers of
/// message and checksum digits.
pub fn wots_finale(items: &[Item], i: usize) -> (r: Option<(usize, usize, usize)>)
    requires
        i <= items@.len(),
    ensures
        match finale_at(items_ins(items@), i as int) {
            Some((n, msg, ck)) => {
                &&& r matches Some((x, y, z))
                &&& x == n && y == msg && z == ck
                &&& i < i + n <= items@.len()
                &&& msg + ck <= usize::MAX
            },
            None => r is None,
        },
{
    let ghost ins = items_ins(items@);
    if !items_at(items, i, finale_head_pats().as_slice()) {
        return None;
    }
    let more: usize = count_repeats(items, i + 3, finale_sum_pats().as_slice());
    let j: usize = i + 3 + 3 * more;
    if !items_at(items, j, finale_total_pats().as_slice()) {
        return None;
    }
    assert(fits(ins[j + 0], finale_total_pattern()[0]));
    let total: i64 = match push_num(&items[j]) {
        Some(n) => n,
        None => {
            return None;
        },
    };
    if total as i128 != 15 * (more as i128 + 1) {
        return None;
    }
    let shifts: usize = count_repeats(items, j + 3, finale_shift_pats().as_slice());
    let end: usize = j + 3 + 10 * shifts;
    if !items_at(items, end, op_pats(OP_EQUALVERIFY).as_slice()) {
        return None;
    }
    Some((end + 1 - i, more + 1, shifts + 1))
}

/// What a push outside any gadget is called.
pub fn push_label(p: &[u8]) -> (label: Label)
    ensures
        label@ == push_label_spec(p@),
{
    if p.len() == 0 {
        Label::Zero
    } else if p.len() <= 4 {
        proof {
            lemma_bytes_num_bound(p@);
        }
        match read_scriptint(p) {
            Some(n) => Label::Number(n),
            None => Label::Number(0),
        }
    } else {
        Label::Bytes { len: p.len(), head: hex4(p) }
    }
}

/// An instruction outside any gadget.
fn other(item: &Item) -> (g: Gadget)
    ensures
        g@ == GadgetView::Other(label_spec(item@)),
{
    match item {
        Item::Op(op) => Gadget::Other(Label::Op(*op)),
        Item::Int(n) => Gadget::Other(Label::Number(*n)),
        Item::Bytes(p) => Gadget::Other(push_label(p.as_slice())),
    }
}

fn item_is_op(item: &Item, op: u8) -> (r: bool)
    ensures
        r == (item@ == Ins::Op(op)),
{
    matches!(item, Item::Op(o) if *o == op)
}

/// The first four pushed bytes in hexadecimal.
fn pushed4(item: &Item) -> (text: String)
    ensures
        text@ == hex_text(head4(pushed(item@))),
{
    match item {
        Item::Bytes(p) => hex4(p.as_slice()),
        _ => {
            let none: [u8; 0] = [];
            assert(none@ =~= Seq::<u8>::empty());
            hex4(none.as_slice())
        },
    }
}

/// A WOTS digit or a checksum finale at `i`, and where the next gadget starts.
fn wots_gadget(items: &[Item], i: usize) -> (r: Option<(Gadget, usize)>)
    requires
        i < items@.len(),
    ensures
        match r {
            Some((g, next)) => (g@, next as int) == gadget_at(items_ins(items@), i as int) && i
                < next <= items@.len() && finale_sized(g),
            None => {
                let ins = items_ins(items@);
                &&& !(at(ins, i as int, tied_pattern()) && at(ins, i + 4, wots_step_pattern()))
                &&& !at(ins, i as int, wots_step_pattern())
                &&& finale_at(ins, i as int) is None
            },
        },
{
    let ghost ins = items_ins(items@);
    if items_at(items, i, tied_pats().as_slice()) {
        if let Some((n, pk)) = wots_step(items, i + 4) {
            let tied: bool = item_is_op(&items[i + 3], OP_PICK);
            assert(ins[i + 4 + 43] == ins[(i + 4) as int + 43]);
            return Some((Gadget::WotsStep { pk, tied: Some(tied) }, i + 4 + n));
        }
    }
    if let Some((n, pk)) = wots_step(items, i) {
        return Some((Gadget::WotsStep { pk, tied: None }, i + n));
    }
    if let Some((n, msg, ck)) = wots_finale(items, i) {
        return Some((Gadget::WotsFinale { msg, ck }, i + n));
    }
    None
}

/// The gadget at `i`, and where the next one starts.
fn gadget_head(items: &[Item], i: usize) -> (r: (Gadget, usize))
    requires
        i < items@.len(),
    ensures
        (r.0@, r.1 as int) == gadget_at(items_ins(items@), i as int),
        i < r.1 <= items@.len(),
        finale_sized(r.0),
{
    let ghost ins = items_ins(items@);
    if let Some(found) = wots_gadget(items, i) {
        return found;
    }
    let m: usize = count_repeats(items, i, differ_pats().as_slice());
    if m >= 1 {
        let verify: usize = i + 7 * m;
        if m >= 3 && items_at(items, verify, op_pats(OP_VERIFY).as_slice()) {
            let drops: usize = verify + 1;
            let pairs: usize = count_repeats(items, drops, op_pats(OP_2DROP).as_slice());
            let mut end: usize = drops + pairs;
            let one: [Pat; 1] = [Pat::NumIs(1)];
            assert(one@ =~= seq![Pat::NumIs(1)]);
            if pairs == m && items_at(items, end, one.as_slice()) {
                end = end + 1;
            }
            return (Gadget::Differ { m }, end);
        }
        return (other(&items[i]), i + 1);
    }
    if items_at(items, i, readout_pats().as_slice()) {
        return (Gadget::ReadoutChunk { point4: pushed4(&items[i + 1]) }, i + 36);
    }
    let parks: usize = count_repeats(items, i, op_pats(OP_TOALTSTACK).as_slice());
    if parks >= 3 {
        return (Gadget::Park { n: parks }, i + parks);
    }
    let unparks: usize = count_repeats(items, i, op_pats(OP_FROMALTSTACK).as_slice());
    if unparks >= 3 {
        return (Gadget::Unpark { n: unparks }, i + unparks);
    }
    let drops2: usize = count_repeats(items, i, op_pats(OP_2DROP).as_slice());
    if drops2 >= 2 {
        return (Gadget::Drop2Run { pairs: drops2 }, i + drops2);
    }
    let drops: usize = count_repeats(items, i, op_pats(OP_DROP).as_slice());
    if drops >= 3 {
        return (Gadget::DropRun { n: drops }, i + drops);
    }
    if items_at(items, i, bit_decode_pats().as_slice()) {
        assert(fits(ins[i + 2], bit_decode_pattern()[2]));
        assert(fits(ins[i + 8], bit_decode_pattern()[8]));
        if let (Some(h1), Some(h0)) = (push20(&items[i + 2]), push20(&items[i + 8])) {
            let dropped: bool = items_at(items, i + 12, op_pats(OP_DROP).as_slice());
            let next: usize = if dropped {
                i + 13
            } else {
                i + 12
            };
            return (Gadget::BitDecode { h0, h1, dropped }, next);
        }
    }
    if items_at(items, i, expect_bit_pats().as_slice()) {
        assert(fits(ins[i + 1], expect_bit_pattern()[1]));
        if let Some(h) = push20(&items[i + 1]) {
            return (Gadget::ExpectBit { h }, i + 3);
        }
    }
    if items_at(items, i, timelock_pats().as_slice()) {
        let n: i64 = match push_num(&items[i]) {
            Some(n) => n,
            None => -1,
        };
        return (Gadget::Timelock { relative: item_is_op(&items[i + 1], OP_CSV), n }, i + 3);
    }
    if items_at(items, i, two_of_two_pats().as_slice()) {
        return (
            Gadget::TwoOfTwo { verify: item_is_op(&items[i + 5], OP_NUMEQUALVERIFY) },
            i + 6,
        );
    }
    if items_at(items, i, checksig_pats().as_slice()) {
        let verify: bool = item_is_op(&items[i + 1], OP_CHECKSIGVERIFY);
        return (Gadget::Checksig { verify, key4: pushed4(&items[i]) }, i + 2);
    }
    (other(&items[i]), i + 1)
}

// ----- the parsed leaf -----

/// A WOTS verify block: a run of per-digit steps closed by a checksum finale. The
/// public digits are in script order, in which the last digit is verified first.
#[derive(Debug, PartialEq, Eq)]
pub struct WotsBlock {
    pub msg: usize,
    pub ck: usize,
    pub digits: Vec<[u8; 20]>,
}

/// A verify block as a mathematical value.
pub struct BlockView {
    pub msg: nat,
    pub ck: nat,
    pub digits: Seq<Seq<u8>>,
}

impl View for WotsBlock {
    type V = BlockView;

    open spec fn view(&self) -> BlockView {
        BlockView {
            msg: self.msg as nat,
            ck: self.ck as nat,
            digits: Seq::new(self.digits@.len(), |i: int| self.digits@[i]@),
        }
    }
}

/// The parsed leaf: the gadget stream and the verify blocks.
#[derive(Debug, PartialEq, Eq)]
pub struct Parsed {
    pub gadgets: Vec<Gadget>,
    pub blocks: Vec<WotsBlock>,
}

/// The views of gadgets.
pub open spec fn gadget_views(gadgets: Seq<Gadget>) -> Seq<GadgetView> {
    Seq::new(gadgets.len(), |i: int| gadgets[i]@)
}

/// The views of verify blocks.
pub open spec fn block_views(blocks: Seq<WotsBlock>) -> Seq<BlockView> {
    Seq::new(blocks.len(), |i: int| blocks[i]@)
}

/// The digits verified since the last finale.
pub open spec fn open_digits(gadgets: Seq<GadgetView>) -> Seq<Seq<u8>>
    decreases gadgets.len(),
{
    if gadgets.len() == 0 {
        Seq::empty()
    } else {
        match gadgets.last() {
            GadgetView::WotsStep { pk, tied } => open_digits(gadgets.drop_last()).push(pk),
            GadgetView::WotsFinale { msg, ck } => Seq::empty(),
            _ => open_digits(gadgets.drop_last()),
        }
    }
}

/// The verify blocks: each finale closes one, of the digits verified since the
/// last.
pub open spec fn blocks_of(gadgets: Seq<GadgetView>) -> Seq<BlockView>
    decreases gadgets.len(),
{
    if gadgets.len() == 0 {
        Seq::empty()
    } else {
        match gadgets.last() {
            GadgetView::WotsFinale { msg, ck } => blocks_of(gadgets.drop_last()).push(
                BlockView { msg, ck, digits: open_digits(gadgets.drop_last()) },
            ),
            _ => blocks_of(gadgets.drop_last()),
        }
    }
}

/// Whether the digits of every block can be counted.
pub open spec fn blocks_sized(blocks: Seq<WotsBlock>) -> bool {
    forall|b: int| 0 <= b < blocks.len() ==> (#[trigger] blocks[b]).msg + blocks[b].ck <= usize::MAX
}

/// Whether the digits that a finale closes can be counted.
spec fn finale_sized(gadget: Gadget) -> bool {
    gadget matches Gadget::WotsFinale { msg, ck } ==> msg + ck <= usize::MAX
}

fn group_blocks(gadgets: &Vec<Gadget>) -> (blocks: Vec<WotsBlock>)
    requires
        forall|i: int| 0 <= i < gadgets@.len() ==> finale_sized(#[trigger] gadgets@[i]),
    ensures
        block_views(blocks@) == blocks_of(gadget_views(gadgets@)),
        blocks_sized(blocks@),
{
    let ghost all = gadget_views(gadgets@);
    let mut blocks: Vec<WotsBlock> = Vec::new();
    let mut cur: Vec<[u8; 20]> = Vec::new();
    assert(all.take(0).len() == 0);
    assert(block_views(blocks@) =~= Seq::<BlockView>::empty());
    assert(digit_views(cur@) =~= Seq::<Seq<u8>>::empty());
    for i in 0..gadgets.len()
        invariant
            all == gadget_views(gadgets@),
            forall|j: int| 0 <= j < gadgets@.len() ==> finale_sized(#[trigger] gadgets@[j]),
            blocks_sized(blocks@),
            block_views(blocks@) == blocks_of(all.take(i as int)),
            digit_views(cur@) == open_digits(all.take(i as int)),
    {
        let ghost before = cur@;
        let ghost before_blocks = blocks@;
        assert(all.take(i + 1).drop_last() =~= all.take(i as int));
        assert(all.take(i + 1).last() == gadgets@[i as int]@);
        match &gadgets[i] {
            Gadget::WotsStep { pk, tied } => {
                cur.push(*pk);
                assert(digit_views(cur@) =~= digit_views(before).push(pk@));
            },
            Gadget::WotsFinale { msg, ck } => {
                let block = WotsBlock { msg: *msg, ck: *ck, digits: cur };
                assert(block@.digits =~= digit_views(before));
                blocks.push(block);
                assert(block_views(blocks@) =~= block_views(before_blocks).push(block@));
                cur = Vec::new();
                assert(digit_views(cur@) =~= Seq::<Seq<u8>>::empty());
            },
            _ => {},
        }
    }
    assert(all.take(all.len() as int) =~= all);
    blocks
}

/// The bytes of public digits.
pub open spec fn digit_views(digits: Seq<[u8; 20]>) -> Seq<Seq<u8>> {
    Seq::new(digits.len(), |i: int| digits[i]@)
}

/// Recognise the gadgets of a leaf script and its verify blocks.
pub fn parse_gadgets(script: &[u8]) -> (parsed: Parsed)
    ensures
        gadget_views(parsed.gadgets@) == gadgets_from(readable(parse_script(script@)), 0),
        block_views(parsed.blocks@) == blocks_of(gadget_views(parsed.gadgets@)),
        blocks_sized(parsed.blocks@),
{
    let items: Vec<Item> = instructions(script);
    let ghost ins = readable(parse_script(script@));
    let mut gadgets: Vec<Gadget> = Vec::new();
    let mut i: usize = 0;
    assert(gadget_views(gadgets@) + gadgets_from(ins, 0) =~= gadgets_from(ins, 0));
    while i < items.len()
        invariant
            ins == items_ins(items@),
            i <= items@.len(),
            gadget_views(gadgets@) + gadgets_from(ins, i as int) == gadgets_from(ins, 0),
            forall|j: int| 0 <= j < gadgets@.len() ==> finale_sized(#[trigger] gadgets@[j]),
        decreases items@.len() - i,
    {
        let (g, next): (Gadget, usize) = gadget_head(items.as_slice(), i);
        let ghost before = gadgets@;
        gadgets.push(g);
        proof {
            assert(gadget_views(gadgets@) =~= gadget_views(before).push(g@));
            assert(gadget_views(before) + (seq![g@] + gadgets_from(ins, next as int))
                =~= gadget_views(gadgets@) + gadgets_from(ins, next as int));
        }
        i = next;
    }
    assert(gadget_views(gadgets@) + gadgets_from(ins, i as int) =~= gadget_views(gadgets@));
    let blocks: Vec<WotsBlock> = group_blocks(&gadgets);
    Parsed { gadgets, blocks }
}

} // verus!
