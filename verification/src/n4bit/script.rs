//! The n4bit round as Bitcoin Script (Tapscript).
//!
//! - ADD constants: `OP_ADD` and a mod-16 correction
//! - S-box: a 16-entry table on the stack, `OP_PICK`
//! - Feistel mix: `OP_ADD` on nibble pairs
//! - Permutation: `OP_ROLL` and the altstack
//!
//! The only table is the S-box, 16 stack elements.

use vstd::prelude::*;

use crate::n4bit::{
    law_permutation, lemma_perm_source_range, perm_source, rc, rc_spec, rotate_source,
    shift_source, COLS, RATE_NIBBLES, ROWS, SBOX, STATE_NIBBLES,
};
use crate::script::machine::Ins;
use crate::script::opcodes::{
    OP_ADD, OP_CHECKSIGVERIFY, OP_DROP, OP_DUP, OP_ENDIF, OP_FROMALTSTACK, OP_GREATERTHANOREQUAL,
    OP_IF, OP_OVER, OP_PICK, OP_ROLL, OP_ROT, OP_SUB, OP_SWAP, OP_TOALTSTACK,
};
use crate::script::{repeat_ins, script_bytes, ScriptBuilder};

verus! {

/// Number of stack elements the S-box table occupies.
pub const SBOX_TABLE_SIZE: usize = 16;

// ----- the scripts, as instructions appended to a script -----

/// `b` followed by pushes of the numbers `ns`.
pub open spec fn push_ints_ins(b: Seq<Ins>, ns: Seq<u8>) -> Seq<Ins>
    decreases ns.len(),
{
    if ns.len() == 0 {
        b
    } else {
        push_ints_ins(b, ns.drop_last()).push(Ins::Int(ns.last() as int))
    }
}

pub open spec fn mod16_ins(b: Seq<Ins>) -> Seq<Ins> {
    b.push(Ins::Op(OP_DUP)).push(Ins::Int(16)).push(Ins::Op(OP_GREATERTHANOREQUAL)).push(
        Ins::Op(OP_IF),
    ).push(Ins::Int(16)).push(Ins::Op(OP_SUB)).push(Ins::Op(OP_ENDIF))
}

pub open spec fn add_constant_ins(b: Seq<Ins>, c: int) -> Seq<Ins> {
    mod16_ins(b.push(Ins::Int(c)).push(Ins::Op(OP_ADD)))
}

pub open spec fn sbox_lookup_ins(b: Seq<Ins>, table_base: int) -> Seq<Ins> {
    b.push(Ins::Int(table_base - 1)).push(Ins::Op(OP_ADD)).push(Ins::Op(OP_PICK))
}

pub open spec fn feistel_add_ins(b: Seq<Ins>) -> Seq<Ins> {
    let left = mod16_ins(
        b.push(Ins::Op(OP_SWAP)).push(Ins::Op(OP_TOALTSTACK)).push(Ins::Op(OP_DUP)).push(
            Ins::Op(OP_FROMALTSTACK),
        ).push(Ins::Op(OP_ADD)),
    );
    mod16_ins(left.push(Ins::Op(OP_SWAP)).push(Ins::Op(OP_OVER)).push(Ins::Op(OP_ADD))).push(
        Ins::Op(OP_SWAP),
    )
}

/// Constants and S-box for the `n` topmost nibbles, each parked.
pub open spec fn sbox_parks_ins(b: Seq<Ins>, round: int, n: nat) -> Seq<Ins>
    decreases n,
{
    if n == 0 {
        b
    } else {
        let i = STATE_NIBBLES - n;
        sbox_lookup_ins(
            add_constant_ins(sbox_parks_ins(b, round, (n - 1) as nat), rc_spec(round, i)),
            i + 1,
        ).push(Ins::Op(OP_TOALTSTACK))
    }
}

pub open spec fn sbox_phase_ins(b: Seq<Ins>, round: int) -> Seq<Ins> {
    repeat_ins(
        sbox_parks_ins(b, round, STATE_NIBBLES as nat),
        OP_FROMALTSTACK,
        STATE_NIBBLES as nat,
    )
}

/// Feistel on the topmost pair, its results parked.
pub open spec fn mix_pair_ins(b: Seq<Ins>) -> Seq<Ins> {
    feistel_add_ins(b).push(Ins::Op(OP_SWAP)).push(Ins::Op(OP_TOALTSTACK)).push(
        Ins::Op(OP_TOALTSTACK),
    )
}

/// Feistel on the `n` topmost pairs, each parked.
pub open spec fn mix_parks_ins(b: Seq<Ins>, n: nat) -> Seq<Ins>
    decreases n,
{
    if n == 0 {
        b
    } else {
        mix_pair_ins(mix_parks_ins(b, (n - 1) as nat))
    }
}

pub open spec fn mix_ins(b: Seq<Ins>) -> Seq<Ins> {
    repeat_ins(mix_parks_ins(b, 20), OP_FROMALTSTACK, STATE_NIBBLES as nat)
}

/// The element at `depth` moved to the top.
pub open spec fn roll_to_top_ins(b: Seq<Ins>, depth: int) -> Seq<Ins> {
    if depth == 0 {
        b
    } else if depth == 1 {
        b.push(Ins::Op(OP_SWAP))
    } else if depth == 2 {
        b.push(Ins::Op(OP_ROT))
    } else {
        b.push(Ins::Int(depth)).push(Ins::Op(OP_ROLL))
    }
}

/// The sources that are still on the stack, deepest first, once the `n` last
/// outputs of the permutation are parked.
pub open spec fn sources_left(n: nat) -> Seq<int>
    decreases n,
{
    if n == 0 {
        Seq::new(STATE_NIBBLES as nat, |i: int| i)
    } else {
        let before = sources_left((n - 1) as nat);
        before.remove(before.index_of(perm_source(STATE_NIBBLES - n)))
    }
}

/// How deep the source of the output to be parked next lies.
pub open spec fn park_depth(n: nat) -> int {
    let left = sources_left(n);
    left.len() - 1 - left.index_of(perm_source(STATE_NIBBLES - 1 - n))
}

/// The `n` last outputs of the permutation rolled up and parked.
pub open spec fn permute_parks_ins(b: Seq<Ins>, n: nat) -> Seq<Ins>
    decreases n,
{
    if n == 0 {
        b
    } else {
        let k = (n - 1) as nat;
        roll_to_top_ins(permute_parks_ins(b, k), park_depth(k)).push(Ins::Op(OP_TOALTSTACK))
    }
}

pub open spec fn permute_ins(b: Seq<Ins>) -> Seq<Ins> {
    repeat_ins(
        permute_parks_ins(b, STATE_NIBBLES as nat),
        OP_FROMALTSTACK,
        STATE_NIBBLES as nat,
    )
}

pub open spec fn spn_round_ins(b: Seq<Ins>, round: int) -> Seq<Ins> {
    permute_ins(mix_ins(sbox_phase_ins(b, round)))
}

/// The S-box, last entry first.
pub open spec fn sbox_reversed() -> Seq<u8> {
    SBOX@.reverse()
}

pub open spec fn round_leaf_ins(round: int) -> Seq<Ins> {
    let sig = Seq::<Ins>::empty().push(Ins::Op(OP_CHECKSIGVERIFY));
    let table = push_ints_ins(sig, sbox_reversed());
    let state = push_ints_ins(table, Seq::new(STATE_NIBBLES as nat, |i: int| 0u8));
    repeat_ins(spn_round_ins(state, round), OP_DROP, (STATE_NIBBLES + SBOX_TABLE_SIZE) as nat).push(
        Ins::Int(1),
    )
}

// ----- the builders -----

/// The S-box table: 16 script numbers, pushed so that `SBOX[0]` is on top.
pub fn push_sbox_table(b: ScriptBuilder) -> (r: ScriptBuilder)
    ensures
        r@ == push_ints_ins(b@, sbox_reversed()),
{
    let ghost start = b@;
    let mut b = b;
    assert(sbox_reversed().take(0) =~= Seq::<u8>::empty());
    for i in 0..SBOX_TABLE_SIZE
        invariant
            b@ == push_ints_ins(start, sbox_reversed().take(i as int)),
    {
        assert(sbox_reversed().take(i + 1).drop_last() =~= sbox_reversed().take(i as int));
        b = b.push_int(SBOX[SBOX_TABLE_SIZE - 1 - i] as i64);
    }
    assert(sbox_reversed().take(16) =~= sbox_reversed());
    b
}

/// mod-16 correction: if the top element is 16 or more, subtract 16.
fn mod16(b: ScriptBuilder) -> (r: ScriptBuilder)
    ensures
        r@ == mod16_ins(b@),
{
    b.push_opcode(OP_DUP).push_int(16).push_opcode(OP_GREATERTHANOREQUAL).push_opcode(
        OP_IF,
    ).push_int(16).push_opcode(OP_SUB).push_opcode(OP_ENDIF)
}

/// Add a round constant to the top nibble: `(n + rc) mod 16`.
fn add_constant(b: ScriptBuilder, rc_val: u8) -> (r: ScriptBuilder)
    ensures
        r@ == add_constant_ins(b@, rc_val as int),
{
    mod16(b.push_int(rc_val as i64).push_opcode(OP_ADD))
}

/// Apply the S-box to the top nibble.
///
/// The table lies on the stack with `SBOX[0]` at depth `table_base`, counted
/// with the nibble itself. `OP_ADD` consumes the nibble, so at the `OP_PICK`
/// the table's top entry is one element shallower.
fn sbox_lookup(b: ScriptBuilder, table_base: usize) -> (r: ScriptBuilder)
    requires
        table_base <= STATE_NIBBLES,
    ensures
        r@ == sbox_lookup_ins(b@, table_base as int),
{
    b.push_int(table_base as i64 - 1).push_opcode(OP_ADD).push_opcode(OP_PICK)
}

/// Feistel ADD mixing on a nibble pair: `[a, b]` (b on top) becomes
/// `[new_b, new_a]` (new_a on top), with `new_a = (a + b) mod 16` and
/// `new_b = (b + new_a) mod 16`. The altstack is left as found.
pub fn feistel_add(b: ScriptBuilder) -> (r: ScriptBuilder)
    ensures
        r@ == feistel_add_ins(b@),
{
    let left: ScriptBuilder = mod16(
        b.push_opcode(OP_SWAP).push_opcode(OP_TOALTSTACK).push_opcode(OP_DUP).push_opcode(
            OP_FROMALTSTACK,
        ).push_opcode(OP_ADD),
    );
    mod16(left.push_opcode(OP_SWAP).push_opcode(OP_OVER).push_opcode(OP_ADD)).push_opcode(OP_SWAP)
}

/// The permutation: `perm[i]` is the source position of output position `i`.
pub fn compute_permutation() -> (perm: Vec<usize>)
    ensures
        perm@.len() == STATE_NIBBLES,
        forall|i: int| 0 <= i < STATE_NIBBLES ==> #[trigger] perm@[i] == perm_source(i),
{
    let mut shifted: Vec<usize> = Vec::with_capacity(STATE_NIBBLES);
    for i in 0..STATE_NIBBLES
        invariant
            shifted@.len() == i,
            forall|j: int| 0 <= j < i ==> #[trigger] shifted@[j] == shift_source(j),
    {
        reveal(shift_source);
        let r: usize = i / COLS;
        let c: usize = i % COLS;
        shifted.push(r * COLS + (c + r) % COLS);
    }
    let mut rotated: Vec<usize> = Vec::with_capacity(STATE_NIBBLES);
    for i in 0..STATE_NIBBLES
        invariant
            shifted@.len() == STATE_NIBBLES,
            forall|j: int| 0 <= j < STATE_NIBBLES ==> #[trigger] shifted@[j] == shift_source(j),
            rotated@.len() == i,
            forall|j: int|
                0 <= j < i ==> #[trigger] rotated@[j] == shift_source(rotate_source(j)),
    {
        reveal(rotate_source);
        let r: usize = i / COLS;
        let c: usize = i % COLS;
        rotated.push(shifted[((r + c % ROWS) % ROWS) * COLS + c]);
    }
    let mut perm: Vec<usize> = Vec::with_capacity(STATE_NIBBLES);
    for i in 0..STATE_NIBBLES
        invariant
            rotated@.len() == STATE_NIBBLES,
            forall|j: int|
                0 <= j < STATE_NIBBLES ==> #[trigger] rotated@[j] == shift_source(rotate_source(j)),
            perm@.len() == i,
            forall|j: int| 0 <= j < i ==> #[trigger] perm@[j] == perm_source(j),
    {
        if i % 2 == 1 {
            perm.push(rotated[i]);
        } else if i < RATE_NIBBLES {
            perm.push(rotated[i + RATE_NIBBLES]);
        } else {
            perm.push(rotated[i - RATE_NIBBLES]);
        }
    }
    perm
}

/// Roll the element at `depth` to the top (nothing at depth 0).
fn roll_to_top(b: ScriptBuilder, depth: usize) -> (r: ScriptBuilder)
    requires
        depth < STATE_NIBBLES,
    ensures
        r@ == roll_to_top_ins(b@, depth as int),
{
    if depth == 0 {
        b
    } else if depth == 1 {
        b.push_opcode(OP_SWAP)
    } else if depth == 2 {
        b.push_opcode(OP_ROT)
    } else {
        b.push_int(depth as i64).push_opcode(OP_ROLL)
    }
}

/// The sources that are left are those of the outputs not parked yet, each
/// once.
pub proof fn lemma_sources_left(n: nat)
    requires
        n <= STATE_NIBBLES,
    ensures
        sources_left(n).len() == STATE_NIBBLES - n,
        sources_left(n).no_duplicates(),
        forall|j: int|
            0 <= j < STATE_NIBBLES - n ==> sources_left(n).contains(#[trigger] perm_source(j)),
        forall|p: int|
            0 <= p < sources_left(n).len() ==> 0 <= #[trigger] sources_left(n)[p] < STATE_NIBBLES,
    decreases n,
{
    if n == 0 {
        let s = sources_left(0);
        assert forall|j: int| 0 <= j < STATE_NIBBLES implies s.contains(#[trigger] perm_source(j)) by {
            lemma_perm_source_range(j);
            assert(s[perm_source(j)] == perm_source(j));
        }
    } else {
        let before = sources_left((n - 1) as nat);
        lemma_sources_left((n - 1) as nat);
        let k = STATE_NIBBLES - n;
        let at = before.index_of(perm_source(k));
        assert(before.contains(perm_source(k)));
        let s = before.remove(at);
        assert(s == sources_left(n));
        assert forall|j: int| 0 <= j < STATE_NIBBLES - n implies s.contains(
            #[trigger] perm_source(j),
        ) by {
            law_permutation(j);
            law_permutation(k);
            let p = before.index_of(perm_source(j));
            assert(before.contains(perm_source(j)));
            assert(p != at);
            if p < at {
                assert(s[p] == perm_source(j));
            } else {
                assert(s[p - 1] == perm_source(j));
            }
        }
    }
}

/// Apply the permutation to 40 nibbles on the stack (nibble 0 deepest).
///
/// Each output nibble is rolled to the top and parked, output 39 first, so
/// that unparking all 40 lands output 0 deepest. The depth of a source nibble
/// counts the nibbles still on the stack, which shrink as they are parked.
pub fn permute_script(b: ScriptBuilder) -> (r: ScriptBuilder)
    ensures
        r@ == permute_ins(b@),
{
    let ghost start = b@;
    let perm: Vec<usize> = compute_permutation();
    let mut b = b;
    let mut remaining: Vec<usize> = Vec::with_capacity(STATE_NIBBLES);
    for i in 0..STATE_NIBBLES
        invariant
            remaining@.len() == i,
            forall|j: int| 0 <= j < i ==> #[trigger] remaining@[j] == j,
    {
        remaining.push(i);
    }
    assert(remaining@.map_values(|x: usize| x as int) =~= sources_left(0));
    for n in 0..STATE_NIBBLES
        invariant
            perm@.len() == STATE_NIBBLES,
            forall|i: int| 0 <= i < STATE_NIBBLES ==> #[trigger] perm@[i] == perm_source(i),
            b@ == permute_parks_ins(start, n as nat),
            remaining@.map_values(|x: usize| x as int) == sources_left(n as nat),
    {
        let ghost left = sources_left(n as nat);
        proof {
            lemma_sources_left(n as nat);
            assert(remaining@.map_values(|x: usize| x as int).len() == remaining@.len());
        }
        let src: usize = perm[STATE_NIBBLES - 1 - n];
        let ghost at = left.index_of(src as int);
        assert(left.contains(perm_source(STATE_NIBBLES - 1 - n)));
        let mut pos: usize = 0;
        while remaining[pos] != src
            invariant
                left == remaining@.map_values(|x: usize| x as int),
                left.no_duplicates(),
                0 <= at < left.len() <= STATE_NIBBLES,
                left[at] == src,
                pos <= at,
            decreases at - pos,
        {
            assert(left[pos as int] == remaining@[pos as int]);
            pos += 1;
        }
        assert(left[pos as int] == src);
        let depth: usize = remaining.len() - 1 - pos;
        b = roll_to_top(b, depth).push_opcode(OP_TOALTSTACK);
        let ghost before = remaining@;
        remaining.remove(pos);
        assert(remaining@.map_values(|x: usize| x as int) =~= left.remove(at));
    }
    b.push_repeated(OP_FROMALTSTACK, STATE_NIBBLES)
}

/// Constants and S-box, nibble 39 first (it is on top). When nibble `i` is
/// consumed, `i` nibbles remain above the table, so the table's top entry
/// `SBOX[0]` sits at depth `i`.
pub fn sbox_phase_script(b: ScriptBuilder, round: usize) -> (r: ScriptBuilder)
    ensures
        r@ == sbox_phase_ins(b@, round as int),
{
    let ghost start = b@;
    let mut b = b;
    for n in 0..STATE_NIBBLES
        invariant
            b@ == sbox_parks_ins(start, round as int, n as nat),
    {
        let i: usize = STATE_NIBBLES - 1 - n;
        b = add_constant(b, rc(round, i));
        b = sbox_lookup(b, i + 1).push_opcode(OP_TOALTSTACK);
    }
    b.push_repeated(OP_FROMALTSTACK, STATE_NIBBLES)
}

/// Feistel on pairs, the top pair (38, 39) first; each pair's results are
/// parked `new_b` then `new_a`, so that unparking lands `new_a` below `new_b`.
pub fn mix_script(b: ScriptBuilder) -> (r: ScriptBuilder)
    ensures
        r@ == mix_ins(b@),
{
    let ghost start = b@;
    let mut b = b;
    for n in 0..STATE_NIBBLES / 2
        invariant
            b@ == mix_parks_ins(start, n as nat),
    {
        b = feistel_add(b);
        b = b.push_opcode(OP_SWAP).push_opcode(OP_TOALTSTACK).push_opcode(OP_TOALTSTACK);
    }
    b.push_repeated(OP_FROMALTSTACK, STATE_NIBBLES)
}

/// One full round, applied to 40 nibbles on the stack (nibble 0 deepest) with
/// the S-box table below them: constants, S-box, Feistel mix, permutation.
pub fn spn_round_script(b: ScriptBuilder, round: usize) -> (r: ScriptBuilder)
    ensures
        r@ == spn_round_ins(b@, round as int),
{
    permute_script(mix_script(sbox_phase_script(b, round)))
}

/// A leaf script that runs one round on placeholder nibbles, for measuring its
/// size: a signature check, the table, 40 zeros, the round, and a clean-up that
/// leaves 1.
pub fn round_leaf_script(round: usize) -> (script: Vec<u8>)
    ensures
        script@ == script_bytes(round_leaf_ins(round as int)),
{
    let mut b: ScriptBuilder = push_sbox_table(ScriptBuilder::new().push_opcode(OP_CHECKSIGVERIFY));
    let ghost table = b@;
    let ghost zeros = Seq::new(STATE_NIBBLES as nat, |i: int| 0u8);
    assert(zeros.take(0) =~= Seq::<u8>::empty());
    for i in 0..STATE_NIBBLES
        invariant
            zeros == Seq::new(STATE_NIBBLES as nat, |i: int| 0u8),
            b@ == push_ints_ins(table, zeros.take(i as int)),
    {
        assert(zeros.take(i + 1).drop_last() =~= zeros.take(i as int));
        b = b.push_int(0);
    }
    assert(zeros.take(STATE_NIBBLES as int) =~= zeros);
    let round_done: ScriptBuilder = spn_round_script(b, round);
    round_done.push_repeated(OP_DROP, STATE_NIBBLES + SBOX_TABLE_SIZE).push_int(1).into_script()
}

} // verus!
