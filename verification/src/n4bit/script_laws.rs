//! What the round scripts do on the stack machine: exactly what the native
//! round does to the state.

use vstd::prelude::*;

use crate::n4bit::script::{
    add_constant_ins, feistel_add_ins, lemma_sources_left, mix_ins, mix_pair_ins, mix_parks_ins, mod16_ins,
    park_depth, permute_ins, permute_parks_ins, push_ints_ins, roll_to_top_ins,
    sbox_lookup_ins, sbox_parks_ins, sbox_phase_ins, sbox_reversed, sources_left, spn_round_ins,
};
use crate::n4bit::{
    add_constants_spec, is_state, lemma_round_is_state, mix_left,
    mix_right, mix_spec, perm_source, permute_spec, rc_spec, round_spec, sbox_layer_spec, SBOX,
    STATE_NIBBLES,
};
use crate::script::machine::{group_machine, num_bytes, reaches, run, step, Ins, Machine};
use crate::script::repeat_ins;
use crate::script::opcodes::{OP_ADD, OP_FROMALTSTACK, OP_SWAP, OP_TOALTSTACK};

verus! {

/// The stack elements of a sequence of small numbers, the last on top.
pub open spec fn nums(s: Seq<u8>) -> Seq<Seq<u8>> {
    Seq::new(s.len(), |i: int| num_bytes(s[i] as int))
}

/// The stack elements of the S-box table, `SBOX[0]` on top.
pub open spec fn table_nums() -> Seq<Seq<u8>> {
    nums(sbox_reversed())
}

/// The mod-16 correction turns a sum of two nibbles into its residue.
pub proof fn law_mod16_script(b: Seq<Ins>, m: Machine, s: Seq<Seq<u8>>, alt: Seq<Seq<u8>>, n: int)
    requires
        m.running(),
        reaches(b, m, s.push(num_bytes(n)), alt),
        0 <= n < 32,
    ensures
        reaches(mod16_ins(b), m, s.push(num_bytes(n % 16)), alt),
{
    broadcast use group_machine;

    reveal(step);
}

/// The pair mixing script computes both outputs of the native pair mixing.
pub proof fn law_feistel_script(
    b: Seq<Ins>,
    m: Machine,
    s: Seq<Seq<u8>>,
    alt: Seq<Seq<u8>>,
    x: u8,
    y: u8,
)
    requires
        m.running(),
        reaches(b, m, s.push(num_bytes(x as int)).push(num_bytes(y as int)), alt),
        x < 16,
        y < 16,
    ensures
        reaches(
            feistel_add_ins(b),
            m,
            s.push(num_bytes(mix_right(x, y) as int)).push(num_bytes(mix_left(x, y) as int)),
            alt,
        ),
{
    broadcast use group_machine;

    let a1 = b.push(Ins::Op(OP_SWAP)).push(Ins::Op(OP_TOALTSTACK)).push(
        Ins::Op(crate::script::opcodes::OP_DUP),
    ).push(Ins::Op(OP_FROMALTSTACK)).push(Ins::Op(OP_ADD));
    let s1 = s.push(num_bytes(y as int));
    assert(reaches(a1, m, s1.push(num_bytes(y + x)), alt)) by {
        reveal(step);
    }
    law_mod16_script(a1, m, s1, alt, x + y);
    let a2 = mod16_ins(a1);
    let left = mix_left(x, y);
    assert(reaches(a2, m, s1.push(num_bytes(left as int)), alt));
    let a3 = a2.push(Ins::Op(OP_SWAP)).push(Ins::Op(crate::script::opcodes::OP_OVER)).push(
        Ins::Op(OP_ADD),
    );
    let s2 = s.push(num_bytes(left as int));
    assert(reaches(a3, m, s2.push(num_bytes(y + left)), alt)) by {
        reveal(step);
    }
    law_mod16_script(a3, m, s2, alt, y + left);
    reveal(step);
}

/// Constant and S-box for one nibble, parked.
proof fn lemma_sbox_step(
    b: Seq<Ins>,
    m: Machine,
    s: Seq<Seq<u8>>,
    alt: Seq<Seq<u8>>,
    x: int,
    c: int,
    i: int,
)
    requires
        m.running(),
        reaches(b, m, s.push(num_bytes(x)), alt),
        0 <= x < 16,
        0 <= c < 16,
        0 <= i < STATE_NIBBLES,
        s.len() >= i + 16,
        forall|j: int|
            0 <= j < 16 ==> #[trigger] s[s.len() - 1 - i - j] == num_bytes(SBOX@[j] as int),
    ensures
        reaches(
            sbox_lookup_ins(add_constant_ins(b, c), i + 1).push(Ins::Op(OP_TOALTSTACK)),
            m,
            s,
            alt.push(num_bytes(SBOX@[(x + c) % 16] as int)),
        ),
{
    broadcast use group_machine;

    let a1 = b.push(Ins::Int(c)).push(Ins::Op(OP_ADD));
    assert(reaches(a1, m, s.push(num_bytes(x + c)), alt)) by {
        reveal(step);
    }
    law_mod16_script(a1, m, s, alt, x + c);
    let v = (x + c) % 16;
    assert(s[s.len() - 1 - i - v] == num_bytes(SBOX@[v] as int));
    reveal(step);
}

/// Unparking: what was parked comes back, the last first.
proof fn lemma_unpark(
    b: Seq<Ins>,
    m: Machine,
    s: Seq<Seq<u8>>,
    alt: Seq<Seq<u8>>,
    parked: Seq<Seq<u8>>,
    n: nat,
)
    requires
        m.running(),
        reaches(b, m, s, alt + parked),
        n <= parked.len(),
    ensures
        reaches(
            repeat_ins(b, OP_FROMALTSTACK, n),
            m,
            s + parked.reverse().take(n as int),
            alt + parked.take(parked.len() - n),
        ),
    decreases n,
{
    if n == 0 {
        assert(s + parked.reverse().take(0) =~= s);
        assert(parked.take(parked.len() as int) =~= parked);
    } else {
        lemma_unpark(b, m, s, alt, parked, (n - 1) as nat);
        let k = parked.len() - n;
        let before = alt + parked.take(k + 1);
        assert(before.last() == parked[k]);
        assert(before.drop_last() =~= alt + parked.take(k));
        assert(parked.reverse().take(n as int) =~= parked.reverse().take(n - 1).push(parked[k]));
        assert(s + parked.reverse().take(n as int) =~= (s + parked.reverse().take(n - 1)).push(
            parked[k],
        ));
        broadcast use group_machine;

        reveal(step);
    }
}

/// The first pass: constants and S-box on all 40 nibbles.
proof fn lemma_sbox_parks(
    b: Seq<Ins>,
    m: Machine,
    base: Seq<Seq<u8>>,
    alt: Seq<Seq<u8>>,
    s: Seq<u8>,
    round: int,
    n: nat,
)
    requires
        m.running(),
        is_state(s),
        reaches(b, m, base + table_nums() + nums(s), alt),
        n <= STATE_NIBBLES,
    ensures
        reaches(
            sbox_parks_ins(b, round, n),
            m,
            base + table_nums() + nums(s.take(STATE_NIBBLES - n)),
            alt + nums(sbox_layer_spec(add_constants_spec(s, round))).reverse().take(n as int),
        ),
    decreases n,
{
    let out = nums(sbox_layer_spec(add_constants_spec(s, round))).reverse();
    if n == 0 {
        assert(s.take(STATE_NIBBLES as int) =~= s);
        assert(alt + out.take(0) =~= alt);
    } else {
        lemma_sbox_parks(b, m, base, alt, s, round, (n - 1) as nat);
        let i = STATE_NIBBLES - n;
        let lower = base + table_nums() + nums(s.take(i));
        let x = s[i];
        assert(nums(s.take(i + 1)) =~= nums(s.take(i)).push(num_bytes(x as int)));
        assert(base + table_nums() + nums(s.take(i + 1)) =~= lower.push(num_bytes(x as int)));
        assert forall|j: int| 0 <= j < 16 implies #[trigger] lower[lower.len() - 1 - i - j]
            == num_bytes(SBOX@[j] as int) by {
            assert(lower[lower.len() - 1 - i - j] == table_nums()[15 - j]);
        }
        lemma_sbox_step(
            sbox_parks_ins(b, round, (n - 1) as nat),
            m,
            lower,
            alt + out.take(n - 1),
            x as int,
            rc_spec(round, i),
            i,
        );
        let y = num_bytes(SBOX@[(x + rc_spec(round, i)) % 16] as int);
        assert(out[n - 1] == y);
        assert((alt + out.take(n - 1)).push(y) =~= alt + out.take(n as int));
    }
}

/// The constants and S-box pass of the script does to the nibbles on the stack
/// what the native layers do to the state.
pub proof fn law_sbox_phase_script(
    b: Seq<Ins>,
    m: Machine,
    base: Seq<Seq<u8>>,
    alt: Seq<Seq<u8>>,
    s: Seq<u8>,
    round: int,
)
    requires
        m.running(),
        is_state(s),
        reaches(b, m, base + table_nums() + nums(s), alt),
    ensures
        reaches(
            sbox_phase_ins(b, round),
            m,
            base + table_nums() + nums(sbox_layer_spec(add_constants_spec(s, round))),
            alt,
        ),
{
    let out = nums(sbox_layer_spec(add_constants_spec(s, round)));
    lemma_sbox_parks(b, m, base, alt, s, round, STATE_NIBBLES as nat);
    let parked = out.reverse();
    assert(parked.take(STATE_NIBBLES as int) =~= parked);
    let lower = base + table_nums() + nums(s.take(0));
    assert(lower =~= base + table_nums());
    let a = sbox_parks_ins(b, round, STATE_NIBBLES as nat);
    lemma_unpark(a, m, lower, alt, parked, STATE_NIBBLES as nat);
    assert(parked.reverse().take(STATE_NIBBLES as int) =~= out);
    assert(alt + parked.take(0) =~= alt);
}

/// One pair mixed and parked.
proof fn lemma_mix_pair(
    b: Seq<Ins>,
    m: Machine,
    s: Seq<Seq<u8>>,
    alt: Seq<Seq<u8>>,
    x: u8,
    y: u8,
)
    requires
        m.running(),
        reaches(b, m, s.push(num_bytes(x as int)).push(num_bytes(y as int)), alt),
        x < 16,
        y < 16,
    ensures
        reaches(
            mix_pair_ins(b),
            m,
            s,
            alt.push(num_bytes(mix_right(x, y) as int)).push(num_bytes(mix_left(x, y) as int)),
        ),
{
    law_feistel_script(b, m, s, alt, x, y);
    let f = feistel_add_ins(b);
    assert(reaches(
        f.push(Ins::Op(OP_SWAP)).push(Ins::Op(OP_TOALTSTACK)).push(Ins::Op(OP_TOALTSTACK)),
        m,
        s,
        alt.push(num_bytes(mix_right(x, y) as int)).push(num_bytes(mix_left(x, y) as int)),
    )) by {
        broadcast use group_machine;

        reveal(step);
    }
}

proof fn lemma_mix_parks(
    b: Seq<Ins>,
    m: Machine,
    base: Seq<Seq<u8>>,
    alt: Seq<Seq<u8>>,
    s: Seq<u8>,
    n: nat,
)
    requires
        m.running(),
        is_state(s),
        reaches(b, m, base + nums(s), alt),
        n <= 20,
    ensures
        reaches(
            mix_parks_ins(b, n),
            m,
            base + nums(s.take(STATE_NIBBLES - 2 * n)),
            alt + nums(mix_spec(s)).reverse().take(2 * n as int),
        ),
    decreases n,
{
    let out = nums(mix_spec(s)).reverse();
    if n == 0 {
        assert(s.take(STATE_NIBBLES as int) =~= s);
        assert(alt + out.take(0) =~= alt);
    } else {
        lemma_mix_parks(b, m, base, alt, s, (n - 1) as nat);
        let i = STATE_NIBBLES - 2 * n;
        let lower = base + nums(s.take(i));
        let (x, y) = (s[i], s[i + 1]);
        let (nx, ny) = (num_bytes(x as int), num_bytes(y as int));
        assert(nums(s.take(i + 2)) =~= nums(s.take(i)).push(nx).push(ny));
        assert(base + nums(s.take(i + 2)) =~= lower.push(nx).push(ny));
        let p = mix_parks_ins(b, (n - 1) as nat);
        let parked = alt + out.take(2 * n - 2);
        lemma_mix_pair(p, m, lower, parked, x, y);
        let l = num_bytes(mix_left(x, y) as int);
        let r = num_bytes(mix_right(x, y) as int);
        assert(out[2 * n - 2] == r);
        assert(out[2 * n - 1] == l);
        assert(parked.push(r).push(l) =~= alt + out.take(2 * n as int));
    }
}

/// The mixing pass of the script does to the nibbles on the stack what the
/// native mixing does to the state.
pub proof fn law_mix_script(
    b: Seq<Ins>,
    m: Machine,
    base: Seq<Seq<u8>>,
    alt: Seq<Seq<u8>>,
    s: Seq<u8>,
)
    requires
        m.running(),
        is_state(s),
        reaches(b, m, base + nums(s), alt),
    ensures
        reaches(mix_ins(b), m, base + nums(mix_spec(s)), alt),
{
    let out = nums(mix_spec(s));
    lemma_mix_parks(b, m, base, alt, s, 20);
    let parked = out.reverse();
    assert(parked.take(STATE_NIBBLES as int) =~= parked);
    assert(base + nums(s.take(0)) =~= base);
    lemma_unpark(mix_parks_ins(b, 20), m, base, alt, parked, STATE_NIBBLES as nat);
    assert(parked.reverse().take(STATE_NIBBLES as int) =~= out);
    assert(alt + parked.take(0) =~= alt);
}

/// Rolling moves one element to the top and leaves the others in order.
proof fn lemma_roll(b: Seq<Ins>, m: Machine, s: Seq<Seq<u8>>, alt: Seq<Seq<u8>>, depth: int)
    requires
        m.running(),
        reaches(b, m, s, alt),
        0 <= depth < STATE_NIBBLES,
        depth < s.len(),
    ensures
        reaches(
            roll_to_top_ins(b, depth),
            m,
            s.remove(s.len() - 1 - depth).push(s[s.len() - 1 - depth]),
            alt,
        ),
{
    let n = s.len();
    let out = s.remove(n - 1 - depth).push(s[n - 1 - depth]);
    if depth == 0 {
        assert(out =~= s);
    } else {
        broadcast use group_machine;

        reveal(step);
        if depth == 1 {
            assert(out =~= s.take(n - 2).push(s[n - 1]).push(s[n - 2]));
        } else if depth == 2 {
            assert(out =~= s.take(n - 3).push(s[n - 2]).push(s[n - 1]).push(s[n - 3]));
        } else {
            let t = s.push(num_bytes(depth));
            assert(t.take(t.len() - 1) =~= s);
        }
    }
}

/// The nibbles at positions `at`, as stack elements.
spec fn picked(s: Seq<u8>, at: Seq<int>) -> Seq<Seq<u8>> {
    Seq::new(at.len(), |i: int| num_bytes(s[at[i]] as int))
}

proof fn lemma_permute_parks(
    b: Seq<Ins>,
    m: Machine,
    base: Seq<Seq<u8>>,
    alt: Seq<Seq<u8>>,
    s: Seq<u8>,
    n: nat,
)
    requires
        m.running(),
        is_state(s),
        reaches(b, m, base + nums(s), alt),
        n <= STATE_NIBBLES,
    ensures
        reaches(
            permute_parks_ins(b, n),
            m,
            base + picked(s, sources_left(n)),
            alt + nums(permute_spec(s)).reverse().take(n as int),
        ),
    decreases n,
{
    let out = nums(permute_spec(s)).reverse();
    if n == 0 {
        assert(picked(s, sources_left(0)) =~= nums(s));
        assert(alt + out.take(0) =~= alt);
    } else {
        let k = (n - 1) as nat;
        lemma_permute_parks(b, m, base, alt, s, k);
        lemma_sources_left(k);
        let left = sources_left(k);
        let src = perm_source(STATE_NIBBLES - n);
        assert(left.contains(src));
        let pos = left.index_of(src);
        let stack = base + picked(s, left);
        let d = park_depth(k);
        let parked = alt + out.take(n - 1);
        let p = permute_parks_ins(b, k);
        lemma_roll(p, m, stack, parked, d);
        let x = num_bytes(s[src] as int);
        let rest = base + picked(s, sources_left(n));
        assert(stack[stack.len() - 1 - d] == x);
        assert(stack.remove(stack.len() - 1 - d) =~= rest);
        assert(reaches(roll_to_top_ins(p, d), m, rest.push(x), parked));
        assert(reaches(permute_parks_ins(b, n), m, rest, parked.push(x))) by {
            broadcast use group_machine;

            reveal(step);
        }
        assert(out[n - 1] == x);
        assert(parked.push(x) =~= alt + out.take(n as int));
    }
}

/// The permutation pass of the script does to the nibbles on the stack what
/// the native permutation does to the state.
pub proof fn law_permute_script(
    b: Seq<Ins>,
    m: Machine,
    base: Seq<Seq<u8>>,
    alt: Seq<Seq<u8>>,
    s: Seq<u8>,
)
    requires
        m.running(),
        is_state(s),
        reaches(b, m, base + nums(s), alt),
    ensures
        reaches(permute_ins(b), m, base + nums(permute_spec(s)), alt),
{
    let out = nums(permute_spec(s));
    lemma_permute_parks(b, m, base, alt, s, STATE_NIBBLES as nat);
    lemma_sources_left(STATE_NIBBLES as nat);
    let parked = out.reverse();
    assert(parked.take(STATE_NIBBLES as int) =~= parked);
    assert(base + picked(s, sources_left(STATE_NIBBLES as nat)) =~= base);
    lemma_unpark(
        permute_parks_ins(b, STATE_NIBBLES as nat),
        m,
        base,
        alt,
        parked,
        STATE_NIBBLES as nat,
    );
    assert(parked.reverse().take(STATE_NIBBLES as int) =~= out);
    assert(alt + parked.take(0) =~= alt);
}

/// One round in Script is one native round: on any state above the S-box
/// table, for every round number, the script ends with the state that
/// `spn_round` gives, and leaves the table, what lies below it and the
/// altstack as they were.
pub proof fn law_round_script(
    b: Seq<Ins>,
    m: Machine,
    base: Seq<Seq<u8>>,
    alt: Seq<Seq<u8>>,
    s: Seq<u8>,
    round: int,
)
    requires
        m.running(),
        is_state(s),
        reaches(b, m, base + table_nums() + nums(s), alt),
    ensures
        reaches(
            spn_round_ins(b, round),
            m,
            base + table_nums() + nums(round_spec(s, round)),
            alt,
        ),
{
    lemma_round_is_state(s, round);
    let t = sbox_layer_spec(add_constants_spec(s, round));
    law_sbox_phase_script(b, m, base, alt, s, round);
    law_mix_script(sbox_phase_ins(b, round), m, base + table_nums(), alt, t);
    assert forall|i: int| 0 <= i < mix_spec(t).len() implies #[trigger] mix_spec(t)[i] < 16 by {
    }
    law_permute_script(
        mix_ins(sbox_phase_ins(b, round)),
        m,
        base + table_nums(),
        alt,
        mix_spec(t),
    );
    reveal(round_spec);
}

/// Pushing numbers puts them on the stack, the last on top.
pub proof fn law_push_ints(
    b: Seq<Ins>,
    m: Machine,
    s: Seq<Seq<u8>>,
    alt: Seq<Seq<u8>>,
    ns: Seq<u8>,
)
    requires
        m.running(),
        reaches(b, m, s, alt),
    ensures
        reaches(push_ints_ins(b, ns), m, s + nums(ns), alt),
    decreases ns.len(),
{
    if ns.len() == 0 {
        assert(s + nums(ns) =~= s);
    } else {
        law_push_ints(b, m, s, alt, ns.drop_last());
        assert(s + nums(ns) =~= (s + nums(ns.drop_last())).push(num_bytes(ns.last() as int)));
        broadcast use group_machine;

        reveal(step);
    }
}

/// The whole of it: table, state and round pushed on an empty machine leave
/// the table and the native round's state.
pub proof fn law_script_matches_native(s: Seq<u8>, round: int)
    requires
        is_state(s),
    ensures
        run(
            spn_round_ins(
                push_ints_ins(push_ints_ins(Seq::<Ins>::empty(), sbox_reversed()), s),
                round,
            ),
            (Machine { stack: Seq::empty(), alt: Seq::empty(), cond: Seq::empty() }),
        ) == Some(
            (Machine {
                stack: table_nums() + nums(round_spec(s, round)),
                alt: Seq::empty(),
                cond: Seq::empty(),
            }),
        ),
{
    let e = Seq::<Seq<u8>>::empty();
    let m = Machine { stack: e, alt: e, cond: Seq::empty() };
    reveal(crate::script::machine::all_true);
    assert(m.running());
    law_push_ints(Seq::empty(), m, e, e, sbox_reversed());
    let b = push_ints_ins(Seq::<Ins>::empty(), sbox_reversed());
    assert(e + nums(sbox_reversed()) =~= e + table_nums());
    law_push_ints(b, m, e + table_nums(), e, s);
    law_round_script(push_ints_ins(b, s), m, e, e, s, round);
    assert(e + table_nums() + nums(round_spec(s, round)) =~= table_nums() + nums(
        round_spec(s, round),
    ));
}

} // verus!
