//! Bitcoin Script: opcodes, script assembly, and what a script does.

pub mod assembly;
pub mod machine;
pub mod opcodes;

use vstd::prelude::*;

use crate::script::assembly::{
    assembly_bytes, assembly_new, assembly_push_int, assembly_push_opcode, assembly_push_slice,
    int_script, push_script,
};
use crate::script::machine::Ins;
use crate::script::opcodes::{OP_EQUALVERIFY, OP_HASH160};

verus! {

/// One instruction of a script under construction.
pub enum Item {
    /// An opcode.
    Op(u8),
    /// A push of a number.
    Int(i64),
    /// A push of a byte string.
    Bytes(Vec<u8>),
}

impl View for Item {
    type V = Ins;

    open spec fn view(&self) -> Ins {
        match self {
            Item::Op(op) => Ins::Op(*op),
            Item::Int(n) => Ins::Int(*n as int),
            Item::Bytes(s) => Ins::Bytes(s@),
        }
    }
}

/// Whether an instruction has a place in a script: a number other than the
/// least `i64`, or data of less than 4 GiB.
pub open spec fn encodable(ins: Ins) -> bool {
    match ins {
        Ins::Op(op) => true,
        Ins::Int(n) => i64::MIN < n <= i64::MAX,
        Ins::Bytes(s) => s.len() < 0x1_0000_0000,
    }
}

/// A script under construction.
pub struct ScriptBuilder {
    items: Vec<Item>,
}

impl View for ScriptBuilder {
    type V = Seq<Ins>;

    closed spec fn view(&self) -> Seq<Ins> {
        Seq::new(self.items@.len(), |i: int| self.items@[i]@)
    }
}

/// The bytes of one instruction.
pub open spec fn ins_bytes(ins: Ins) -> Seq<u8> {
    match ins {
        Ins::Op(op) => seq![op],
        Ins::Int(n) => int_script(n),
        Ins::Bytes(s) => push_script(s),
    }
}

/// The bytes of a script.
pub open spec fn script_bytes(script: Seq<Ins>) -> Seq<u8>
    decreases script.len(),
{
    if script.len() == 0 {
        Seq::empty()
    } else {
        script_bytes(script.drop_last()) + ins_bytes(script.last())
    }
}

impl ScriptBuilder {
    #[verifier::type_invariant]
    spec fn wf(self) -> bool {
        forall|i: int| 0 <= i < self.items@.len() ==> encodable(#[trigger] self.items@[i]@)
    }

    /// An empty script.
    pub fn new() -> (b: ScriptBuilder)
        ensures
            b@ == Seq::<Ins>::empty(),
    {
        let b = ScriptBuilder { items: Vec::new() };
        assert(b@ =~= Seq::<Ins>::empty());
        b
    }

    fn push(self, item: Item) -> (b: ScriptBuilder)
        requires
            encodable(item@),
        ensures
            b@ == self@.push(item@),
    {
        proof {
            use_type_invariant(&self);
        }
        let ghost before = self.items@;
        let mut items: Vec<Item> = self.items;
        items.push(item);
        assert forall|i: int| 0 <= i < items@.len() implies encodable(#[trigger] items@[i]@) by {
            if i < before.len() {
                assert(encodable(before[i]@));
            }
        }
        let b = ScriptBuilder { items };
        assert(b@ =~= self@.push(item@));
        b
    }

    /// Add an opcode.
    pub fn push_opcode(self, op: u8) -> (b: ScriptBuilder)
        ensures
            b@ == self@.push(Ins::Op(op)),
    {
        self.push(Item::Op(op))
    }

    /// Add a push of a number.
    pub fn push_int(self, n: i64) -> (b: ScriptBuilder)
        requires
            n > i64::MIN,
        ensures
            b@ == self@.push(Ins::Int(n as int)),
    {
        self.push(Item::Int(n))
    }

    /// Add a push of a byte string.
    pub fn push_bytes(self, data: &[u8]) -> (b: ScriptBuilder)
        requires
            data@.len() < 0x1_0000_0000,
        ensures
            b@ == self@.push(Ins::Bytes(data@)),
    {
        let copy: Vec<u8> = vstd::slice::slice_to_vec(data);
        assert(copy@ =~= data@);
        self.push(Item::Bytes(copy))
    }

    /// Add the opcode `op`, `n` times.
    pub fn push_repeated(self, op: u8, n: usize) -> (b: ScriptBuilder)
        ensures
            b@ == repeat_ins(self@, op, n as nat),
    {
        let ghost start = self@;
        let mut b = self;
        for i in 0..n
            invariant
                b@ == repeat_ins(start, op, i as nat),
        {
            b = b.push_opcode(op);
        }
        b
    }

    /// Check that the top element is a preimage of `h`:
    /// `OP_HASH160 <h> OP_EQUALVERIFY`.
    pub fn hash160_verify(self, h: &[u8; 20]) -> (b: ScriptBuilder)
        ensures
            b@ == hash160_verify_ins(self@, h@),
    {
        self.push_opcode(OP_HASH160).push_bytes(h.as_slice()).push_opcode(OP_EQUALVERIFY)
    }

    /// The script's bytes.
    pub fn into_script(self) -> (bytes: Vec<u8>)
        ensures
            bytes@ == script_bytes(self@),
    {
        proof {
            use_type_invariant(&self);
        }
        let mut out = assembly_new();
        let ghost script = self@;
        assert(script.take(0) =~= Seq::<Ins>::empty());
        for i in 0..self.items.len()
            invariant
                script == self@,
                forall|j: int| 0 <= j < self.items@.len() ==> encodable(#[trigger] self.items@[j]@),
                assembly_bytes(out) == script_bytes(script.take(i as int)),
        {
            assert(script.take(i + 1).drop_last() =~= script.take(i as int));
            assert(script.take(i + 1).last() == self.items@[i as int]@);
            match &self.items[i] {
                Item::Op(op) => {
                    out = assembly_push_opcode(out, *op);
                },
                Item::Int(n) => {
                    out = assembly_push_int(out, *n);
                },
                Item::Bytes(s) => {
                    out = assembly_push_slice(out, s.as_slice());
                },
            }
        }
        assert(script.take(script.len() as int) =~= script);
        crate::script::assembly::assembly_into_bytes(out)
    }
}

/// `b` followed by `n` times the opcode `op`.
pub open spec fn repeat_ins(b: Seq<Ins>, op: u8, n: nat) -> Seq<Ins>
    decreases n,
{
    if n == 0 {
        b
    } else {
        repeat_ins(b, op, (n - 1) as nat).push(Ins::Op(op))
    }
}

/// `script` followed by a check that the top element is a preimage of `h`.
pub open spec fn hash160_verify_ins(script: Seq<Ins>, h: Seq<u8>) -> Seq<Ins> {
    script.push(Ins::Op(OP_HASH160)).push(Ins::Bytes(h)).push(Ins::Op(OP_EQUALVERIFY))
}

/// The bytes of two scripts one after the other are the bytes of the first, then those
/// of the second; an opcode is its own byte.
pub proof fn law_script_bytes(a: Seq<Ins>, b: Seq<Ins>, op: u8)
    ensures
        script_bytes(a + b) == script_bytes(a) + script_bytes(b),
        script_bytes(seq![Ins::Op(op)]) == seq![op],
        script_bytes(Seq::empty()) == Seq::<u8>::empty(),
    decreases b.len(),
{
    reveal_with_fuel(script_bytes, 2);
    assert(seq![Ins::Op(op)].drop_last() =~= Seq::<Ins>::empty());
    assert(script_bytes(seq![Ins::Op(op)]) =~= seq![op]);
    if b.len() == 0 {
        assert(a + b =~= a);
        assert(script_bytes(a) + script_bytes(b) =~= script_bytes(a));
    } else {
        law_script_bytes(a, b.drop_last(), op);
        assert((a + b).drop_last() =~= a + b.drop_last());
        assert((a + b).last() == b.last());
        assert(script_bytes(a + b) =~= script_bytes(a) + script_bytes(b));
    }
}

/// A repeated opcode stands behind what was there, as often as asked for.
pub proof fn law_repeat_ins(b: Seq<Ins>, op: u8, n: nat, i: int)
    ensures
        repeat_ins(b, op, n).len() == b.len() + n,
        0 <= i < b.len() ==> repeat_ins(b, op, n)[i] == b[i],
        b.len() <= i < b.len() + n ==> repeat_ins(b, op, n)[i] == Ins::Op(op),
    decreases n,
{
    if n > 0 {
        law_repeat_ins(b, op, (n - 1) as nat, i);
    }
}

} // verus!
