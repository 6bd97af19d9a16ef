//! What a script does: a stack machine over byte strings.
//!
//! The machine covers the opcodes that the gadgets of this crate emit. Numbers
//! are minimal script numbers of four bytes at most, and the argument of
//! `OP_IF` is the empty string or the single byte 1. Limits on the size of the
//! stack and of a script are not part of it.

use vstd::prelude::*;

use crate::hashing::hash160_spec;
use crate::script::opcodes::{
    OP_2DROP, OP_2DUP, OP_ADD, OP_DROP, OP_DUP, OP_ELSE, OP_ENDIF, OP_EQUAL, OP_EQUALVERIFY,
    OP_FROMALTSTACK, OP_GREATERTHANOREQUAL, OP_HASH160, OP_IF, OP_LESSTHAN, OP_MIN, OP_NEGATE,
    OP_OVER, OP_PICK, OP_ROLL, OP_ROT, OP_SIZE, OP_SUB, OP_SWAP, OP_TOALTSTACK, OP_TUCK,
};

verus! {

/// One instruction of a script.
pub enum Ins {
    /// An opcode that pushes nothing of its own.
    Op(u8),
    /// A push of a number.
    Int(int),
    /// A push of a byte string.
    Bytes(Seq<u8>),
}

/// The machine's state: the main stack and the alternative stack, both with the
/// top at the end, and the open conditionals.
pub struct Machine {
    pub stack: Seq<Seq<u8>>,
    pub alt: Seq<Seq<u8>>,
    pub cond: Seq<bool>,
}

// ----- script numbers -----

/// The bytes of `n`, least significant first, none for zero.
pub open spec fn le_bytes(n: nat) -> Seq<u8>
    decreases n,
{
    if n == 0 {
        Seq::empty()
    } else {
        seq![(n % 256) as u8] + le_bytes(n / 256)
    }
}

/// The number that `s` writes, least significant byte first.
pub open spec fn le_value(s: Seq<u8>) -> nat
    decreases s.len(),
{
    if s.len() == 0 {
        0
    } else {
        s[0] as nat + 256 * le_value(s.skip(1))
    }
}

/// The minimal script number of `n`: its magnitude, least significant byte
/// first, the sign in the top bit of the last byte.
#[verifier::opaque]
pub open spec fn num_bytes(n: int) -> Seq<u8> {
    let m = le_bytes(if n < 0 { (-n) as nat } else { n as nat });
    if n == 0 {
        m
    } else if m.last() >= 128 {
        m.push(if n < 0 { 128u8 } else { 0u8 })
    } else if n < 0 {
        m.update(m.len() - 1, (m.last() + 128) as u8)
    } else {
        m
    }
}

/// What `s` reads as, minimal or not.
pub open spec fn signed_value(s: Seq<u8>) -> int {
    if s.len() == 0 {
        0
    } else if s.last() >= 128 {
        -(le_value(s.update(s.len() - 1, (s.last() - 128) as u8)) as int)
    } else {
        le_value(s) as int
    }
}

/// The number that `s` is, if it is a minimal script number of four bytes at
/// most.
#[verifier::opaque]
pub open spec fn bytes_num(s: Seq<u8>) -> Option<int> {
    if s.len() <= 4 && num_bytes(signed_value(s)) == s {
        Some(signed_value(s))
    } else {
        None
    }
}

pub open spec fn bool_num(b: bool) -> Seq<u8> {
    num_bytes(if b { 1 } else { 0 })
}

// ----- the machine -----

impl Machine {
    /// The element `k` below the top of the stack.
    pub open spec fn top(self, k: int) -> Seq<u8> {
        self.stack[self.stack.len() - 1 - k]
    }

    /// The number `k` below the top of the stack.
    pub open spec fn num(self, k: int) -> Option<int> {
        bytes_num(self.top(k))
    }

    /// The stack without its top `k` elements.
    pub open spec fn below(self, k: int) -> Seq<Seq<u8>> {
        self.stack.take(self.stack.len() - k)
    }

    pub open spec fn with_stack(self, stack: Seq<Seq<u8>>) -> Machine {
        Machine { stack, alt: self.alt, cond: self.cond }
    }

    /// Whether instructions run: every open conditional took its branch.
    pub open spec fn running(self) -> bool {
        all_true(self.cond)
    }
}

#[verifier::opaque]
pub open spec fn all_true(cond: Seq<bool>) -> bool {
    forall|i: int| 0 <= i < cond.len() ==> #[trigger] cond[i]
}

/// Replace the top two numbers by `f` of them.
pub open spec fn binary(m: Machine, f: spec_fn(int, int) -> int) -> Option<Machine> {
    if m.stack.len() >= 2 {
        match (m.num(1), m.num(0)) {
            (Some(a), Some(b)) => Some(m.with_stack(m.below(2).push(num_bytes(f(a, b))))),
            _ => None,
        }
    } else {
        None
    }
}

/// What opcode `op` does where instructions run. `None`: the script fails.
pub open spec fn exec_op(op: u8, m: Machine) -> Option<Machine> {
    let n = m.stack.len();
    if op == OP_TOALTSTACK {
        if n >= 1 {
            Some(Machine { stack: m.below(1), alt: m.alt.push(m.top(0)), cond: m.cond })
        } else {
            None
        }
    } else if op == OP_FROMALTSTACK {
        if m.alt.len() >= 1 {
            Some(
                Machine {
                    stack: m.stack.push(m.alt.last()),
                    alt: m.alt.drop_last(),
                    cond: m.cond,
                },
            )
        } else {
            None
        }
    } else if op == OP_DROP {
        if n >= 1 {
            Some(m.with_stack(m.below(1)))
        } else {
            None
        }
    } else if op == OP_2DROP {
        if n >= 2 {
            Some(m.with_stack(m.below(2)))
        } else {
            None
        }
    } else if op == OP_DUP {
        if n >= 1 {
            Some(m.with_stack(m.stack.push(m.top(0))))
        } else {
            None
        }
    } else if op == OP_2DUP {
        if n >= 2 {
            Some(m.with_stack(m.stack.push(m.top(1)).push(m.top(0))))
        } else {
            None
        }
    } else if op == OP_OVER {
        if n >= 2 {
            Some(m.with_stack(m.stack.push(m.top(1))))
        } else {
            None
        }
    } else if op == OP_SWAP {
        if n >= 2 {
            Some(m.with_stack(m.below(2).push(m.top(0)).push(m.top(1))))
        } else {
            None
        }
    } else if op == OP_TUCK {
        if n >= 2 {
            Some(m.with_stack(m.below(2).push(m.top(0)).push(m.top(1)).push(m.top(0))))
        } else {
            None
        }
    } else if op == OP_ROT {
        if n >= 3 {
            Some(m.with_stack(m.below(3).push(m.top(1)).push(m.top(0)).push(m.top(2))))
        } else {
            None
        }
    } else if op == OP_PICK {
        if n >= 1 && m.num(0) is Some && 0 <= m.num(0).unwrap() < n - 1 {
            Some(m.with_stack(m.below(1).push(m.top(m.num(0).unwrap() + 1))))
        } else {
            None
        }
    } else if op == OP_ROLL {
        if n >= 1 && m.num(0) is Some && 0 <= m.num(0).unwrap() < n - 1 {
            let d = m.num(0).unwrap();
            Some(m.with_stack(m.below(1).remove(n - 2 - d).push(m.top(d + 1))))
        } else {
            None
        }
    } else if op == OP_SIZE {
        if n >= 1 {
            Some(m.with_stack(m.stack.push(num_bytes(m.top(0).len() as int))))
        } else {
            None
        }
    } else if op == OP_EQUAL {
        if n >= 2 {
            Some(m.with_stack(m.below(2).push(bool_num(m.top(1) == m.top(0)))))
        } else {
            None
        }
    } else if op == OP_EQUALVERIFY {
        if n >= 2 && m.top(1) == m.top(0) {
            Some(m.with_stack(m.below(2)))
        } else {
            None
        }
    } else if op == OP_NEGATE {
        if n >= 1 && m.num(0) is Some {
            Some(m.with_stack(m.below(1).push(num_bytes(-m.num(0).unwrap()))))
        } else {
            None
        }
    } else if op == OP_ADD {
        binary(m, |a: int, b: int| a + b)
    } else if op == OP_SUB {
        binary(m, |a: int, b: int| a - b)
    } else if op == OP_LESSTHAN {
        binary(m, |a: int, b: int| if a < b { 1 } else { 0 })
    } else if op == OP_GREATERTHANOREQUAL {
        binary(m, |a: int, b: int| if a >= b { 1 } else { 0 })
    } else if op == OP_MIN {
        binary(m, |a: int, b: int| if a < b { a } else { b })
    } else if op == OP_HASH160 {
        if n >= 1 {
            Some(m.with_stack(m.below(1).push(hash160_spec(m.top(0)))))
        } else {
            None
        }
    } else {
        None
    }
}

/// What one instruction does. `None`: the script fails.
#[verifier::opaque]
pub open spec fn step(ins: Ins, m: Machine) -> Option<Machine> {
    match ins {
        Ins::Op(op) => if op == OP_IF {
            if !m.running() {
                Some(Machine { cond: m.cond.push(false), ..m })
            } else if m.stack.len() >= 1 && (m.top(0) == num_bytes(0) || m.top(0) == num_bytes(1)) {
                Some(
                    Machine {
                        stack: m.below(1),
                        alt: m.alt,
                        cond: m.cond.push(m.top(0) == num_bytes(1)),
                    },
                )
            } else {
                None
            }
        } else if op == OP_ELSE {
            if m.cond.len() >= 1 {
                Some(Machine { cond: m.cond.drop_last().push(!m.cond.last()), ..m })
            } else {
                None
            }
        } else if op == OP_ENDIF {
            if m.cond.len() >= 1 {
                Some(Machine { cond: m.cond.drop_last(), ..m })
            } else {
                None
            }
        } else if m.running() {
            exec_op(op, m)
        } else {
            Some(m)
        },
        Ins::Int(n) => if m.running() {
            Some(m.with_stack(m.stack.push(num_bytes(n))))
        } else {
            Some(m)
        },
        Ins::Bytes(s) => if m.running() {
            Some(m.with_stack(m.stack.push(s)))
        } else {
            Some(m)
        },
    }
}

/// What a script does, instruction by instruction. `None`: it fails.
pub open spec fn run(script: Seq<Ins>, m: Machine) -> Option<Machine>
    decreases script.len(),
{
    if script.len() == 0 {
        Some(m)
    } else {
        match run(script.drop_last(), m) {
            Some(next) => step(script.last(), next),
            None => None,
        }
    }
}


/// `script` takes `from` to a machine with these stacks, with the conditionals
/// of `from` still open.
pub open spec fn reaches(
    script: Seq<Ins>,
    from: Machine,
    stack: Seq<Seq<u8>>,
    alt: Seq<Seq<u8>>,
) -> bool {
    run(script, from) == Some(Machine { stack, alt, cond: from.cond })
}

// ----- facts about script numbers -----

proof fn lemma_le_round_trip(n: nat)
    ensures
        le_value(le_bytes(n)) == n,
        n > 0 ==> le_bytes(n).len() > 0 && le_bytes(n).last() > 0,
    decreases n,
{
    if n > 0 {
        lemma_le_round_trip(n / 256);
        let s = le_bytes(n);
        assert(s.skip(1) =~= le_bytes(n / 256));
        if n / 256 == 0 {
            assert(le_bytes(n / 256).len() == 0);
        } else {
            assert(s.last() == le_bytes(n / 256).last());
        }
    }
}

/// The bytes of a number are the only ones that write it without a zero at the end.
pub proof fn lemma_le_unique(s: Seq<u8>, n: nat)
    ensures
        le_value(le_bytes(n)) == n,
        n > 0 ==> le_bytes(n).len() > 0 && le_bytes(n).last() > 0,
        le_value(s) == n && (s.len() > 0 ==> s.last() != 0) ==> s == le_bytes(n),
    decreases s.len(),
{
    lemma_le_round_trip(n);
    if le_value(s) == n && (s.len() > 0 ==> s.last() != 0) {
        if s.len() == 0 {
            assert(s =~= le_bytes(n));
        } else {
            let rest = s.skip(1);
            if rest.len() > 0 {
                assert(rest.last() == s.last());
            }
            lemma_le_unique(rest, n / 256);
            assert(le_value(rest) == n / 256);
            if n == 0 {
                assert(rest =~= Seq::<u8>::empty());
                assert(s.last() == s[0]);
            }
            assert(s =~= seq![s[0]] + rest);
        }
    }
}

/// The length and the last byte of a number below 2^31.
proof fn lemma_le_size(n: nat)
    requires
        n < 0x8000_0000,
    ensures
        le_bytes(n).len() <= 4,
        le_bytes(n).len() == 4 ==> le_bytes(n).last() < 128,
{
    reveal_with_fuel(le_bytes, 6);
    if n >= 0x100_0000 {
        let a = n / 256;
        let b = a / 256;
        let c = b / 256;
        assert(0 < c < 128);
        assert(c / 256 == 0);
        assert(le_bytes(c) =~= seq![c as u8]);
        assert(le_bytes(b) =~= seq![(b % 256) as u8, c as u8]);
        assert(le_bytes(a) =~= seq![(a % 256) as u8, (b % 256) as u8, c as u8]);
    }
}

proof fn lemma_le_value_last(s: Seq<u8>, x: u8)
    ensures
        x == 0 ==> le_value(s.push(x)) == le_value(s),
    decreases s.len(),
{
    if s.len() == 0 {
        assert(s.push(x).skip(1) =~= s);
        assert(le_value(s.push(x).skip(1)) == 0);
    } else {
        lemma_le_value_last(s.skip(1), x);
        assert(s.push(x).skip(1) =~= s.skip(1).push(x));
    }
}

/// The bytes of a script number read as the number.
proof fn lemma_signed_round_trip(n: int)
    ensures
        signed_value(num_bytes(n)) == n,
{
    reveal(num_bytes);
    let k: nat = if n < 0 { (-n) as nat } else { n as nat };
    let m = le_bytes(k);
    let s = num_bytes(n);
    lemma_le_round_trip(k);
    if n == 0 {
        assert(le_value(s) == 0);
    } else if m.last() >= 128 {
        lemma_le_value_last(m, 0);
        if n < 0 {
            assert(s.update(s.len() - 1, 0u8) =~= m.push(0u8));
        }
    } else if n < 0 {
        assert(s.update(s.len() - 1, (s.last() - 128) as u8) =~= m);
    }
}

/// A number below 2^31 in magnitude reads back from its script number.
pub broadcast proof fn lemma_num_round_trip(n: int)
    requires
        -0x8000_0000 < n < 0x8000_0000,
    ensures
        bytes_num(#[trigger] num_bytes(n)) == Some(n),
{
    lemma_signed_round_trip(n);
    lemma_le_size(if n < 0 { (-n) as nat } else { n as nat });
    reveal(num_bytes);
    reveal(bytes_num);
}

/// A number below 2^31 in magnitude takes four bytes at most.
pub proof fn lemma_num_size(n: int)
    requires
        -0x8000_0000 < n < 0x8000_0000,
    ensures
        num_bytes(n).len() <= 4,
{
    lemma_num_round_trip(n);
    reveal(bytes_num);
}

/// A number of 2^31 or more is not taken as an operand.
pub proof fn lemma_num_too_large(n: int)
    requires
        n >= 0x8000_0000,
    ensures
        bytes_num(num_bytes(n)) is None,
{
    lemma_signed_round_trip(n);
    lemma_bytes_num_bound(num_bytes(n));
    reveal(bytes_num);
}

proof fn lemma_le_value_bound(s: Seq<u8>)
    ensures
        le_value(s) < vstd::arithmetic::power::pow(256, s.len()),
        s.len() <= 4 && (s.len() == 4 ==> s.last() < 128) ==> le_value(s) < 0x8000_0000,
    decreases s.len(),
{
    reveal_with_fuel(vstd::arithmetic::power::pow, 5);
    if s.len() > 0 {
        lemma_le_value_bound(s.skip(1));
        if s.len() == 4 {
            let (a, b, c, d) = (s[0] as nat, s[1] as nat, s[2] as nat, s[3] as nat);
            let s1 = s.skip(1);
            let s2 = s1.skip(1);
            let s3 = s2.skip(1);
            assert(le_value(s3.skip(1)) == 0);
            assert(le_value(s3) == d);
            assert(le_value(s2) == c + 256 * d);
            assert(le_value(s1) == b + 256 * le_value(s2));
            assert(le_value(s) == a + 256 * le_value(s1));
        }
    }
}

/// A script number of four bytes at most is below 2^31 in magnitude.
pub proof fn lemma_bytes_num_bound(s: Seq<u8>)
    ensures
        bytes_num(s) is Some ==> -0x8000_0000 < bytes_num(s).unwrap() < 0x8000_0000,
{
    reveal(bytes_num);
    lemma_le_value_bound(s);
    if s.len() > 0 && s.last() >= 128 {
        lemma_le_value_bound(s.update(s.len() - 1, (s.last() - 128) as u8));
    }
}

// ----- facts about runs -----

/// A script with one more instruction.
pub broadcast proof fn lemma_run_push(script: Seq<Ins>, ins: Ins, m: Machine)
    ensures
        #[trigger] run(script.push(ins), m) == match run(script, m) {
            Some(next) => step(ins, next),
            None => None,
        },
{
    assert(script.push(ins).drop_last() =~= script);
}

/// Two scripts joined run as the second after the first.
pub proof fn law_scripts_run_in_sequence(a: Seq<Ins>, b: Seq<Ins>, m: Machine)
    ensures
        run(a + b, m) == match run(a, m) {
            Some(next) => run(b, next),
            None => None,
        },
    decreases b.len(),
{
    if b.len() == 0 {
        assert(a + b =~= a);
    } else {
        law_scripts_run_in_sequence(a, b.drop_last(), m);
        assert((a + b).drop_last() =~= a + b.drop_last());
    }
}

/// What is below the top of a stack.
pub broadcast proof fn lemma_take_push<A>(s: Seq<A>, x: A, j: int)
    requires
        0 <= j <= s.len(),
    ensures
        #[trigger] s.push(x).take(j) == s.take(j),
{
    assert(s.push(x).take(j) =~= s.take(j));
}

pub broadcast proof fn lemma_take_all<A>(s: Seq<A>, j: int)
    requires
        j == s.len(),
    ensures
        #[trigger] s.take(j) == s,
{
    assert(s.take(j) =~= s);
}

pub broadcast proof fn lemma_pop<A>(s: Seq<A>, x: A)
    ensures
        #[trigger] s.push(x).drop_last() == s,
{
    assert(s.push(x).drop_last() =~= s);
}

pub broadcast proof fn lemma_all_true_push(cond: Seq<bool>, b: bool)
    ensures
        #[trigger] all_true(cond.push(b)) == (all_true(cond) && b),
{
    reveal(all_true);
    let c = cond.push(b);
    if all_true(c) {
        assert(c[cond.len() as int]);
        assert forall|i: int| 0 <= i < cond.len() implies #[trigger] cond[i] by {
            assert(c[i]);
        }
    }
}

/// What it takes to run short scripts one instruction after another.
pub broadcast group group_machine {
    lemma_run_push,
    lemma_num_round_trip,
    lemma_take_push,
    lemma_take_all,
    lemma_pop,
    lemma_all_true_push,
}

} // verus!
