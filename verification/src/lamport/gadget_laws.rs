//! What the gadgets do on the stack machine.

use vstd::arithmetic::power2::{lemma2_to64, lemma_pow2_adds, pow2};
use vstd::prelude::*;

use crate::hashing::hash160_spec;
use crate::lamport::gadgets::{
    bit_decode_ins, decode_bit_ins, decode_uint_ins, equivocation_ins, expect_uint_ins, expected_hash,
};
use crate::lamport::{
    bit_value, bits_value, decode_error, decoded, decoded_bit, first_unmatched,
    lemma_bits_value_bound, BitCommit,
};
use crate::script::hash160_verify_ins;
use crate::script::machine::{group_machine, num_bytes, reaches, run, step, Ins, Machine};
use crate::script::opcodes::{OP_ADD, OP_DUP, OP_SWAP};

verus! {

/// `bit_decode` leaves the bit that the preimage commits to, and fails on a
/// preimage that commits to none.
pub proof fn law_bit_decode(
    b: Seq<Ins>,
    m: Machine,
    s: Seq<Seq<u8>>,
    alt: Seq<Seq<u8>>,
    c: BitCommit,
    p: Seq<u8>,
)
    requires
        m.running(),
        reaches(b, m, s.push(p), alt),
    ensures
        match decoded_bit(c, p) {
            Some(bit) => reaches(
                bit_decode_ins(b, c),
                m,
                s.push(num_bytes(bit_value(bit) as int)),
                alt,
            ),
            None => run(bit_decode_ins(b, c), m) is None,
        },
{
    broadcast use group_machine;

    reveal(step);
}

/// `OP_HASH160 <h> OP_EQUALVERIFY` consumes a preimage of `h` and fails on
/// anything else.
pub proof fn law_hash160_verify(
    b: Seq<Ins>,
    m: Machine,
    s: Seq<Seq<u8>>,
    alt: Seq<Seq<u8>>,
    h: Seq<u8>,
    p: Seq<u8>,
)
    requires
        m.running(),
        reaches(b, m, s.push(p), alt),
    ensures
        if hash160_spec(p) == h {
            reaches(hash160_verify_ins(b, h), m, s, alt)
        } else {
            run(hash160_verify_ins(b, h), m) is None
        },
{
    broadcast use group_machine;

    reveal(step);
}

/// `equivocation` passes exactly on preimages of both hashes, that of 1 on top.
pub proof fn law_equivocation(
    b: Seq<Ins>,
    m: Machine,
    s: Seq<Seq<u8>>,
    alt: Seq<Seq<u8>>,
    c: BitCommit,
    p0: Seq<u8>,
    p1: Seq<u8>,
)
    requires
        m.running(),
        reaches(b, m, s.push(p0).push(p1), alt),
    ensures
        if hash160_spec(p0) == c.h0@ && hash160_spec(p1) == c.h1@ {
            reaches(equivocation_ins(b, c), m, s, alt)
        } else {
            run(equivocation_ins(b, c), m) is None
        },
{
    law_hash160_verify(b, m, s.push(p0), alt, c.h1@, p1);
    let next = hash160_verify_ins(b, c.h1@);
    if hash160_spec(p1) == c.h1@ {
        law_hash160_verify(next, m, s, alt, c.h0@, p0);
    } else {
        broadcast use group_machine;

    }
}

/// Whether the `n` most significant preimages hash to what `value` expects.
pub open spec fn top_bits_match(
    key: Seq<BitCommit>,
    revealed: Seq<Seq<u8>>,
    value: nat,
    n: int,
) -> bool {
    forall|i: int|
        key.len() - n <= i < key.len() ==> hash160_spec(#[trigger] revealed[i]) == expected_hash(
            key,
            value,
            i,
        )
}

proof fn lemma_expect_uint(
    b: Seq<Ins>,
    m: Machine,
    s: Seq<Seq<u8>>,
    alt: Seq<Seq<u8>>,
    key: Seq<BitCommit>,
    revealed: Seq<Seq<u8>>,
    value: nat,
    n: nat,
)
    requires
        m.running(),
        revealed.len() == key.len(),
        reaches(b, m, s + revealed, alt),
        n <= key.len(),
    ensures
        if top_bits_match(key, revealed, value, n as int) {
            reaches(
                expect_uint_ins(b, key, value, n),
                m,
                s + revealed.take(key.len() - n),
                alt,
            )
        } else {
            run(expect_uint_ins(b, key, value, n), m) is None
        },
    decreases n,
{
    if n == 0 {
        assert(revealed.take(key.len() as int) =~= revealed);
    } else {
        let k = (n - 1) as nat;
        lemma_expect_uint(b, m, s, alt, key, revealed, value, k);
        let i = key.len() - n;
        let p = revealed[i];
        let rest = s + revealed.take(i);
        let prev = expect_uint_ins(b, key, value, k);
        assert(s + revealed.take(i + 1) =~= rest.push(p));
        if top_bits_match(key, revealed, value, k as int) {
            law_hash160_verify(prev, m, rest, alt, expected_hash(key, value, i), p);
            if hash160_spec(p) == expected_hash(key, value, i) {
                assert(top_bits_match(key, revealed, value, n as int));
            } else {
                assert(!top_bits_match(key, revealed, value, n as int));
            }
        } else {
            let j = choose|j: int|
                key.len() - k <= j < key.len() && hash160_spec(#[trigger] revealed[j])
                    != expected_hash(key, value, j);
            assert(hash160_spec(revealed[j]) != expected_hash(key, value, j));
            broadcast use group_machine;

        }
    }
}

/// `expect_uint` consumes the whole reveal and passes exactly where every
/// preimage is one of the hash that the constant's bit has.
pub proof fn law_expect_uint(
    b: Seq<Ins>,
    m: Machine,
    s: Seq<Seq<u8>>,
    alt: Seq<Seq<u8>>,
    key: Seq<BitCommit>,
    revealed: Seq<Seq<u8>>,
    value: nat,
)
    requires
        m.running(),
        revealed.len() == key.len(),
        reaches(b, m, s + revealed, alt),
    ensures
        if top_bits_match(key, revealed, value, key.len() as int) {
            reaches(expect_uint_ins(b, key, value, key.len()), m, s, alt)
        } else {
            run(expect_uint_ins(b, key, value, key.len()), m) is None
        },
{
    lemma_expect_uint(b, m, s, alt, key, revealed, value, key.len());
    assert(s + revealed.take(0) =~= s);
}

/// Whether the `n` most significant preimages match a commitment.
spec fn top_bits_decode(key: Seq<BitCommit>, revealed: Seq<Seq<u8>>, n: int) -> bool {
    forall|i: int|
        key.len() - n <= i < key.len() ==> decoded_bit(#[trigger] key[i], revealed[i]) is Some
}

/// One more bit of the number.
proof fn lemma_decode_bit(
    b: Seq<Ins>,
    m: Machine,
    s: Seq<Seq<u8>>,
    alt: Seq<Seq<u8>>,
    c: BitCommit,
    p: Seq<u8>,
    acc: int,
)
    requires
        m.running(),
        reaches(b, m, s.push(p).push(num_bytes(acc)), alt),
        0 <= acc < 0x4000_0000,
    ensures
        match decoded_bit(c, p) {
            Some(bit) => reaches(
                decode_bit_ins(b, c),
                m,
                s.push(num_bytes(bit_value(bit) + 2 * acc)),
                alt,
            ),
            None => run(decode_bit_ins(b, c), m) is None,
        },
{
    broadcast use group_machine;

    let mid = b.push(Ins::Op(OP_DUP)).push(Ins::Op(OP_ADD)).push(Ins::Op(OP_SWAP));
    assert(reaches(mid, m, s.push(num_bytes(acc + acc)).push(p), alt)) by {
        reveal(step);
    }
    law_bit_decode(mid, m, s.push(num_bytes(acc + acc)), alt, c, p);
    match decoded_bit(c, p) {
        Some(bit) => {
            let n = bit_value(bit) as int;
            assert(reaches(decode_bit_ins(b, c), m, s.push(num_bytes(acc + acc + n)), alt)) by {
                reveal(step);
            }
        },
        None => {},
    }
}

/// A failed script still fails with one more bit.
proof fn lemma_decode_bit_failed(b: Seq<Ins>, m: Machine, c: BitCommit)
    requires
        run(b, m) is None,
    ensures
        run(decode_bit_ins(b, c), m) is None,
{
    broadcast use group_machine;

}

proof fn lemma_decode_uint(
    b: Seq<Ins>,
    m: Machine,
    s: Seq<Seq<u8>>,
    alt: Seq<Seq<u8>>,
    key: Seq<BitCommit>,
    revealed: Seq<Seq<u8>>,
    n: nat,
)
    requires
        m.running(),
        revealed.len() == key.len(),
        key.len() <= 31,
        reaches(b, m, s + revealed, alt),
        n <= key.len(),
    ensures
        if top_bits_decode(key, revealed, n as int) {
            reaches(
                decode_uint_ins(b, key, n),
                m,
                (s + revealed.take(key.len() - n)).push(
                    num_bytes(bits_value(decoded(key, revealed).skip(key.len() - n)) as int),
                ),
                alt,
            )
        } else {
            run(decode_uint_ins(b, key, n), m) is None
        },
    decreases n,
{
    let bits = decoded(key, revealed);
    if n == 0 {
        assert(revealed.take(key.len() as int) =~= revealed);
        assert(bits.skip(key.len() as int).len() == 0);
        broadcast use group_machine;

        reveal(step);
    } else {
        let k = (n - 1) as nat;
        lemma_decode_uint(b, m, s, alt, key, revealed, k);
        let i = key.len() - n;
        let p = revealed[i];
        let rest = s + revealed.take(i);
        let prev = decode_uint_ins(b, key, k);
        assert(s + revealed.take(i + 1) =~= rest.push(p));
        if top_bits_decode(key, revealed, k as int) {
            let acc = bits_value(bits.skip(i + 1)) as int;
            lemma_bits_value_bound(bits.skip(i + 1));
            lemma_pow2_below_30(k);
            lemma_decode_bit(prev, m, rest, alt, key[i], p, acc);
            match decoded_bit(key[i], p) {
                Some(bit) => {
                    assert(bits.skip(i).skip(1) =~= bits.skip(i + 1));
                    assert(bits.skip(i)[0] == bit);
                    assert(top_bits_decode(key, revealed, n as int));
                },
                None => {
                    assert(decoded_bit(key[i], revealed[i]) is None);
                    assert(!top_bits_decode(key, revealed, n as int));
                },
            }
        } else {
            let j = choose|j: int|
                key.len() - k <= j < key.len() && decoded_bit(#[trigger] key[j], revealed[j]) is None;
            assert(decoded_bit(key[j], revealed[j]) is None);
            assert(!top_bits_decode(key, revealed, n as int));
            lemma_decode_bit_failed(prev, m, key[i]);
        }
    }
}

proof fn lemma_pow2_below_30(n: nat)
    requires
        n <= 30,
    ensures
        pow2(n) <= 0x4000_0000,
{
    lemma_pow2_adds(n, (30 - n) as nat);
    vstd::arithmetic::power2::lemma_pow2_pos((30 - n) as nat);
    lemma2_to64();
    assert(pow2(n) <= pow2(n) * pow2((30 - n) as nat)) by (nonlinear_arith)
        requires
            pow2((30 - n) as nat) >= 1,
            pow2(n) >= 0,
    ;
}

proof fn lemma_first_unmatched(key: Seq<BitCommit>, revealed: Seq<Seq<u8>>, i: int)
    requires
        0 <= i <= key.len(),
    ensures
        first_unmatched(key, revealed, i) >= key.len() <==> (forall|j: int|
            i <= j < key.len() ==> decoded_bit(#[trigger] key[j], revealed[j]) is Some),
    decreases key.len() - i,
{
    if i < key.len() {
        lemma_first_unmatched(key, revealed, i + 1);
        if decoded_bit(key[i], revealed[i]) is None {
            assert(first_unmatched(key, revealed, i) == i);
        }
    }
}

/// `decode_uint` agrees with decoding off the chain: it consumes the reveal and
/// leaves the decoded number, and fails exactly where the reveal does not
/// decode.
pub proof fn law_decode_uint(
    b: Seq<Ins>,
    m: Machine,
    s: Seq<Seq<u8>>,
    alt: Seq<Seq<u8>>,
    key: Seq<BitCommit>,
    revealed: Seq<Seq<u8>>,
)
    requires
        m.running(),
        revealed.len() == key.len(),
        key.len() <= 31,
        reaches(b, m, s + revealed, alt),
    ensures
        if decode_error(key, revealed) is None {
            reaches(
                decode_uint_ins(b, key, key.len()),
                m,
                s.push(num_bytes(bits_value(decoded(key, revealed)) as int)),
                alt,
            )
        } else {
            run(decode_uint_ins(b, key, key.len()), m) is None
        },
{
    lemma_decode_uint(b, m, s, alt, key, revealed, key.len());
    lemma_first_unmatched(key, revealed, 0);
    assert(s + revealed.take(0) =~= s);
    assert(decoded(key, revealed).skip(0) =~= decoded(key, revealed));
    assert(top_bits_decode(key, revealed, key.len() as int) <==> decode_error(key, revealed) is None);
}

} // verus!
