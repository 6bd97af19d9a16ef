//! Script gadgets over bit commitments. Each consumes witness elements from
//! the top of the stack and leaves a result, or verifies and leaves nothing.

use vstd::arithmetic::power2::pow2;
use vstd::bits::lemma_u32_shr_is_div;
use vstd::prelude::*;

use crate::hashing::Hash160;
use crate::lamport::{bit_of, BitCommit, PublicKey};
use crate::script::machine::Ins;
use crate::script::opcodes::{
    OP_ADD, OP_DROP, OP_DUP, OP_ELSE, OP_ENDIF, OP_EQUAL, OP_EQUALVERIFY, OP_HASH160, OP_IF,
    OP_SWAP,
};
use crate::script::{hash160_verify_ins, ScriptBuilder};

verus! {

pub open spec fn bit_decode_ins(b: Seq<Ins>, c: BitCommit) -> Seq<Ins> {
    b.push(Ins::Op(OP_HASH160)).push(Ins::Op(OP_DUP)).push(Ins::Bytes(c.h1@)).push(
        Ins::Op(OP_EQUAL),
    ).push(Ins::Op(OP_IF)).push(Ins::Op(OP_DROP)).push(Ins::Int(1)).push(Ins::Op(OP_ELSE)).push(
        Ins::Bytes(c.h0@),
    ).push(Ins::Op(OP_EQUALVERIFY)).push(Ins::Int(0)).push(Ins::Op(OP_ENDIF))
}

/// The hash that bit `i` of `value` has under a key.
pub open spec fn expected_hash(key: Seq<BitCommit>, value: nat, i: int) -> Seq<u8> {
    if bit_of(value, i as nat) {
        key[i].h1@
    } else {
        key[i].h0@
    }
}

/// The checks of the `n` most significant bits against those of `value`.
pub open spec fn expect_uint_ins(b: Seq<Ins>, key: Seq<BitCommit>, value: nat, n: nat) -> Seq<Ins>
    decreases n,
{
    if n == 0 {
        b
    } else {
        hash160_verify_ins(
            expect_uint_ins(b, key, value, (n - 1) as nat),
            expected_hash(key, value, key.len() - n),
        )
    }
}

/// Twice the number on top, plus the bit that the preimage below it decodes to.
pub open spec fn decode_bit_ins(b: Seq<Ins>, c: BitCommit) -> Seq<Ins> {
    bit_decode_ins(
        b.push(Ins::Op(OP_DUP)).push(Ins::Op(OP_ADD)).push(Ins::Op(OP_SWAP)),
        c,
    ).push(Ins::Op(OP_ADD))
}

/// The number of the `n` most significant bits.
pub open spec fn decode_uint_ins(b: Seq<Ins>, key: Seq<BitCommit>, n: nat) -> Seq<Ins>
    decreases n,
{
    if n == 0 {
        b.push(Ins::Int(0))
    } else {
        decode_bit_ins(decode_uint_ins(b, key, (n - 1) as nat), key[key.len() - n])
    }
}

pub open spec fn equivocation_ins(b: Seq<Ins>, c: BitCommit) -> Seq<Ins> {
    hash160_verify_ins(hash160_verify_ins(b, c.h1@), c.h0@)
}

/// Gadgets over bit commitments, for a script under construction.
pub trait LamportExt: Sized + View<V = Seq<Ins>> {
    /// Witness: `p`. Leaves the bit (0 or 1) on the stack; fails if `p` matches
    /// neither hash.
    /// ```text
    /// OP_HASH160 OP_DUP <h1> OP_EQUAL OP_IF OP_DROP 1 OP_ELSE <h0> OP_EQUALVERIFY 0 OP_ENDIF
    /// ```
    fn bit_decode(self, c: &BitCommit) -> (b: Self)
        ensures
            b@ == bit_decode_ins(self@, *c),
    ;

    /// Witness: `p`. `OP_HASH160 <h_expected> OP_EQUALVERIFY`. For constants.
    fn expect_bit(self, h_expected: &Hash160) -> (b: Self)
        ensures
            b@ == hash160_verify_ins(self@, h_expected@),
    ;

    /// Witness: the reveal of `pk` (most significant bit on top). Verifies that
    /// every preimage matches the constant `value` and leaves nothing.
    fn expect_uint(self, pk: &PublicKey, value: u32) -> (b: Self)
        requires
            pk.bits@.len() <= 32,
            value < pow2(pk.bits@.len()),
        ensures
            b@ == expect_uint_ins(self@, pk.bits@, value as nat, pk.bits@.len()),
    ;

    /// Witness: the reveal of `pk` (most significant bit on top). Leaves the
    /// decoded number (a script number, so 31 bits at most) on the stack.
    /// Per bit: `OP_DUP OP_ADD OP_SWAP bit_decode OP_ADD`.
    fn decode_uint(self, pk: &PublicKey) -> (b: Self)
        requires
            pk.bits@.len() <= 31,
        ensures
            b@ == decode_uint_ins(self@, pk.bits@, pk.bits@.len()),
    ;

    /// Witness: `p0 p1` (p1 on top). Verifies both preimages of one bit and
    /// leaves nothing.
    fn equivocation(self, c: &BitCommit) -> (b: Self)
        ensures
            b@ == equivocation_ins(self@, *c),
    ;
}

impl LamportExt for ScriptBuilder {
    fn bit_decode(self, c: &BitCommit) -> (b: Self) {
        self.push_opcode(OP_HASH160).push_opcode(OP_DUP).push_bytes(c.h1.as_slice()).push_opcode(
            OP_EQUAL,
        ).push_opcode(OP_IF).push_opcode(OP_DROP).push_int(1).push_opcode(OP_ELSE).push_bytes(
            c.h0.as_slice(),
        ).push_opcode(OP_EQUALVERIFY).push_int(0).push_opcode(OP_ENDIF)
    }

    fn expect_bit(self, h_expected: &Hash160) -> (b: Self) {
        self.hash160_verify(h_expected)
    }

    fn expect_uint(self, pk: &PublicKey, value: u32) -> (b: Self) {
        let n: usize = pk.n_bits();
        let ghost start = self@;
        let mut b = self;
        for k in 0..n
            invariant
                n == pk.bits@.len(),
                n <= 32,
                b@ == expect_uint_ins(start, pk.bits@, value as nat, k as nat),
        {
            let i: usize = n - 1 - k;
            let shifted: u32 = value >> (i as u32);
            proof {
                lemma_u32_shr_is_div(value, i as u32);
            }
            let h: Hash160 = if shifted % 2 == 1 {
                pk.bits[i].h1
            } else {
                pk.bits[i].h0
            };
            b = b.expect_bit(&h);
        }
        b
    }

    fn decode_uint(self, pk: &PublicKey) -> (b: Self) {
        let n: usize = pk.n_bits();
        let ghost start = self@;
        let mut b = self.push_int(0);
        for k in 0..n
            invariant
                n == pk.bits@.len(),
                b@ == decode_uint_ins(start, pk.bits@, k as nat),
        {
            let i: usize = n - 1 - k;
            b = b.push_opcode(OP_DUP).push_opcode(OP_ADD).push_opcode(OP_SWAP).bit_decode(
                &pk.bits[i],
            ).push_opcode(OP_ADD);
        }
        b
    }

    fn equivocation(self, c: &BitCommit) -> (b: Self) {
        self.hash160_verify(&c.h1).hash160_verify(&c.h0)
    }
}

} // verus!
