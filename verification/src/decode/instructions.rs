//! The instructions of a script, as the `bitcoin` crate reads them.

use vstd::prelude::*;

use crate::script::machine::{bytes_num, le_value, lemma_bytes_num_bound, Ins};
use crate::script::Item;

verus! {

// ----- the grammar of scripts -----

/// The instructions of a script. Bytes up to 0x4b push that many bytes that
/// follow; 0x4c, 0x4d and 0x4e push as many as the next 1, 2 or 4 bytes say,
/// least significant first; every other byte is an opcode. A push that runs past
/// the end is an error (`None`), and the last instruction.
pub open spec fn parse_script(s: Seq<u8>) -> Seq<Option<Ins>>
    decreases s.len(), 1int,
{
    if s.len() == 0 {
        Seq::empty()
    } else if s[0] <= 0x4b {
        parse_push(s.skip(1), s[0] as nat)
    } else if s[0] == 0x4c {
        parse_sized_push(s.skip(1), 1)
    } else if s[0] == 0x4d {
        parse_sized_push(s.skip(1), 2)
    } else if s[0] == 0x4e {
        parse_sized_push(s.skip(1), 4)
    } else {
        seq![Some(Ins::Op(s[0]))] + parse_script(s.skip(1))
    }
}

/// A push of the first `n` bytes of `s`, then what follows them.
pub open spec fn parse_push(s: Seq<u8>, n: nat) -> Seq<Option<Ins>>
    decreases s.len(), 2int,
{
    if s.len() < n {
        seq![None]
    } else {
        seq![Some(Ins::Bytes(s.take(n as int)))] + parse_script(s.skip(n as int))
    }
}

/// A push whose length the first `k` bytes of `s` say.
pub open spec fn parse_sized_push(s: Seq<u8>, k: nat) -> Seq<Option<Ins>>
    decreases s.len(), 3int,
{
    if s.len() < k {
        seq![None]
    } else {
        parse_push(s.skip(k as int), le_value(s.take(k as int)))
    }
}

/// An instruction that was read, or the error in its place.
pub open spec fn read_view(read: Option<Item>) -> Option<Ins> {
    match read {
        Some(item) => Some(item@),
        None => None,
    }
}

/// Calls `bitcoin::Script::instructions` on the script's bytes and hands out
/// what the iterator yields, with `None` for an error. The contract claims that
/// this follows the grammar that [`parse_script`] states.
#[verifier::external_body]
pub(crate) fn read_instructions(script: &[u8]) -> (read: Vec<Option<Item>>)
    ensures
        read@.len() == parse_script(script@).len(),
        forall|i: int|
            0 <= i < read@.len() ==> read_view(#[trigger] read@[i]) == parse_script(script@)[i],
{
    bitcoin::Script::from_bytes(script).instructions().map(
        |r| match r {
            Ok(bitcoin::script::Instruction::Op(op)) => Some(Item::Op(op.to_u8())),
            Ok(bitcoin::script::Instruction::PushBytes(p)) => Some(Item::Bytes(p.as_bytes().to_vec())),
            Err(_) => None,
        },
    ).collect()
}

/// Calls `bitcoin::script::read_scriptint`. The contract claims that it reads
/// exactly the minimal script numbers of four bytes at most.
#[verifier::external_body]
pub(crate) fn read_scriptint(bytes: &[u8]) -> (n: Option<i64>)
    ensures
        match bytes_num(bytes@) {
            Some(v) => n == Some(v as i64),
            None => n is None,
        },
{
    bitcoin::script::read_scriptint(bytes).ok()
}

/// The number that an opcode pushes, if it pushes one: -1 for 0x4f, 1 to 16 for
/// 0x51 to 0x60.
pub open spec fn op_num(op: u8) -> Option<int> {
    if op == 0x4f {
        Some(-1)
    } else if 0x51 <= op <= 0x60 {
        Some(op - 0x50)
    } else {
        None
    }
}

/// Calls `bitcoin::opcodes::Opcode::classify` for tapscript. The contract claims
/// which opcodes it classes as pushing a number, and which number.
#[verifier::external_body]
pub(crate) fn classify_num(op: u8) -> (n: Option<i32>)
    ensures
        match op_num(op) {
            Some(v) => n == Some(v as i32),
            None => n is None,
        },
{
    match bitcoin::opcodes::Opcode::from(op).classify(bitcoin::opcodes::ClassifyContext::TapScript) {
        bitcoin::opcodes::Class::PushNum(n) => Some(n),
        _ => None,
    }
}

// ----- reading a script -----

/// The instructions that can be read: all but the errors.
pub open spec fn readable(read: Seq<Option<Ins>>) -> Seq<Ins>
    decreases read.len(),
{
    if read.len() == 0 {
        Seq::empty()
    } else {
        match read.last() {
            Some(ins) => readable(read.drop_last()).push(ins),
            None => readable(read.drop_last()),
        }
    }
}

/// The views of instructions.
pub open spec fn items_ins(items: Seq<Item>) -> Seq<Ins> {
    Seq::new(items.len(), |i: int| items[i]@)
}

/// The instructions of a script, without the errors.
pub fn instructions(script: &[u8]) -> (items: Vec<Item>)
    ensures
        items_ins(items@) == readable(parse_script(script@)),
{
    let read: Vec<Option<Item>> = read_instructions(script);
    let ghost want = parse_script(script@);
    let mut items: Vec<Item> = Vec::new();
    assert(want.take(0).len() == 0);
    assert(items_ins(items@) =~= Seq::<Ins>::empty());
    for i in 0..read.len()
        invariant
            want == parse_script(script@),
            read@.len() == want.len(),
            forall|j: int| 0 <= j < read@.len() ==> read_view(#[trigger] read@[j]) == want[j],
            items_ins(items@) == readable(want.take(i as int)),
    {
        let ghost before = items@;
        assert(want.take(i + 1).drop_last() =~= want.take(i as int));
        assert(read_view(read@[i as int]) == want[i as int]);
        match &read[i] {
            Some(item) => {
                let copy: Item = copy_item(item);
                items.push(copy);
                assert(items_ins(items@) =~= items_ins(before).push(copy@));
            },
            None => {},
        }
    }
    assert(want.take(want.len() as int) =~= want);
    items
}

fn copy_item(item: &Item) -> (copy: Item)
    ensures
        copy@ == item@,
{
    match item {
        Item::Op(op) => Item::Op(*op),
        Item::Int(n) => Item::Int(*n),
        Item::Bytes(s) => Item::Bytes(vstd::slice::slice_to_vec(s.as_slice())),
    }
}

/// The number that an instruction pushes, if it is a small one: that of a number
/// opcode, or of a push of four bytes at most.
pub open spec fn ins_num(ins: Ins) -> Option<int> {
    match ins {
        Ins::Op(op) => op_num(op),
        Ins::Int(n) => None,
        Ins::Bytes(s) => if s.len() <= 4 {
            bytes_num(s)
        } else {
            None
        },
    }
}

/// The script number of a small push.
pub fn push_num(item: &Item) -> (n: Option<i64>)
    ensures
        match ins_num(item@) {
            Some(v) => n == Some(v as i64) && i64::MIN <= v <= i64::MAX,
            None => n is None,
        },
{
    match item {
        Item::Bytes(p) => {
            if p.len() <= 4 {
                proof {
                    lemma_bytes_num_bound(p@);
                }
                read_scriptint(p.as_slice())
            } else {
                None
            }
        },
        Item::Op(op) => match classify_num(*op) {
            Some(n) => Some(n as i64),
            None => None,
        },
        Item::Int(_) => None,
    }
}

/// The 20 bytes that an instruction pushes, if it pushes 20.
pub open spec fn ins_push20(ins: Ins) -> Option<Seq<u8>> {
    match ins {
        Ins::Bytes(s) => if s.len() == 20 {
            Some(s)
        } else {
            None
        },
        _ => None,
    }
}

/// The 20 bytes that an instruction pushes.
pub fn push20(item: &Item) -> (h: Option<[u8; 20]>)
    ensures
        match ins_push20(item@) {
            Some(s) => h matches Some(a) && a@ == s,
            None => h is None,
        },
{
    if let Item::Bytes(p) = item {
        if p.len() == 20 {
            let mut a: [u8; 20] = [0u8; 20];
            for i in 0..20usize
                invariant
                    p@.len() == 20,
                    forall|j: int| 0 <= j < i ==> a@[j] == p@[j],
            {
                a[i] = p[i];
            }
            assert(a@ =~= p@);
            return Some(a);
        }
    }
    None
}

/// What can be read of a script is read in order, and an error is left out.
pub proof fn law_readable(read: Seq<Option<Ins>>, ins: Ins)
    ensures
        readable(Seq::empty()).len() == 0,
        readable(read.push(Some(ins))) == readable(read).push(ins),
        readable(read.push(None)) == readable(read),
{
    assert(read.push(Some(ins)).drop_last() =~= read);
    assert(read.push(None).drop_last() =~= read);
}

/// A push of more bytes than are left is an error, and ends the script.
pub proof fn law_short_pushes(s: Seq<u8>, n: u8)
    requires
        1 <= n <= 0x4b,
    ensures
        s.len() < n ==> parse_script(seq![n] + s) == seq![None::<Ins>],
        s.len() >= n ==> parse_script(seq![n] + s)[0] == Some(
            Ins::Bytes(s.subrange(0, n as int)),
        ),
{
    reveal_with_fuel(parse_script, 2);
    reveal_with_fuel(parse_push, 2);
    let all = seq![n] + s;
    assert(all.skip(1) =~= s);
    assert(s.len() >= n ==> s.take(n as int) =~= s.subrange(0, n as int));
}

/// The number of a push is the one that it writes, and a long push is none.
pub proof fn law_ins_num(s: Seq<u8>, n: int)
    ensures
        s.len() > 4 ==> ins_num(Ins::Bytes(s)) is None,
        s.len() <= 4 ==> ins_num(Ins::Bytes(s)) == bytes_num(s),
        1 <= n <= 16 ==> ins_num(Ins::Op((0x50 + n) as u8)) == Some(n),
        ins_num(Ins::Op(0x4f)) == Some(-1int),
        ins_push20(Ins::Bytes(s)) is Some <==> s.len() == 20,
        s.len() == 20 ==> ins_push20(Ins::Bytes(s)) == Some(s),
{
}

} // verus!
