//! Laws of Winternitz signatures, and what the verifier script does on the
//! stack machine.

use vstd::arithmetic::power::pow;
use vstd::prelude::*;

use crate::hashing::hash160_spec;
use crate::lamport::winternitz::{
    base16, base16_len, checksum_ins, checksum_of, checksum_spec, digit_at, digit_branch_ins,
    digit_error, digit_head_ins, digit_item, digit_pair, digit_secret_spec, digit_sum,
    digit_tail_ins, digit_verify_ins, digits_error, digits_verify_ins, hash_at, hash_list_ins,
    hash_times_spec, item_digit, items_error, lemma_digit_sum_bound, message_spec, params_for,
    sig_error, sig_items, signed_digits, sum_ins, times16_ins, wots_verify_ins, WotsParams,
    WotsSecret, WotsSig, MAX_DIGIT,
};
use crate::n4bit::script_laws::nums;
use crate::n4bit::{all_nibbles, nibbles_of};
use crate::script::machine::{
    bytes_num, group_machine, lemma_bytes_num_bound, lemma_num_too_large, num_bytes, reaches, run,
    step, Ins, Machine,
};
use crate::script::opcodes::{
    OP_2DROP, OP_ADD, OP_DROP, OP_DUP, OP_EQUALVERIFY, OP_FROMALTSTACK,
    OP_HASH160, OP_IF, OP_PICK, OP_SUB, OP_TOALTSTACK, OP_TUCK,
};
use crate::script::repeat_ins;

verus! {

// ----- the verifier script -----

/// Hashing again where instructions run.
proof fn lemma_hash_repeat(b: Seq<Ins>, m: Machine, cur: Machine, s: Seq<Seq<u8>>, x: Seq<u8>, k: nat)
    requires
        run(b, m) == Some(cur),
        cur.running(),
        cur.stack == s.push(x),
    ensures
        run(repeat_ins(b, OP_HASH160, k), m) == Some(
            cur.with_stack(s.push(hash_times_spec(x, k))),
        ),
    decreases k,
{
    if k > 0 {
        lemma_hash_repeat(b, m, cur, s, x, (k - 1) as nat);
        broadcast use group_machine;

        reveal(step);
    }
}

/// Opcodes that are skipped.
proof fn lemma_skip_repeat(b: Seq<Ins>, m: Machine, cur: Machine, k: nat)
    requires
        run(b, m) == Some(cur),
        !cur.running(),
    ensures
        run(repeat_ins(b, OP_HASH160, k), m) == Some(cur),
    decreases k,
{
    if k > 0 {
        lemma_skip_repeat(b, m, cur, (k - 1) as nat);
        broadcast use group_machine;

        reveal(step);
    }
}

/// The hash chain from `x` on, `n` hashes after it.
spec fn chain(x: Seq<u8>, n: nat) -> Seq<Seq<u8>> {
    Seq::new(n + 1, |i: int| hash_times_spec(x, i as nat))
}

proof fn lemma_hash_list(b: Seq<Ins>, m: Machine, s: Seq<Seq<u8>>, alt: Seq<Seq<u8>>, x: Seq<u8>, n: nat)
    requires
        m.running(),
        reaches(b, m, s.push(x), alt),
    ensures
        reaches(hash_list_ins(b, n), m, s + chain(x, n), alt),
    decreases n,
{
    if n == 0 {
        assert(s + chain(x, 0) =~= s.push(x));
    } else {
        lemma_hash_list(b, m, s, alt, x, (n - 1) as nat);
        let before = s + chain(x, (n - 1) as nat);
        let y = hash_times_spec(x, (n - 1) as nat);
        assert(before.last() == y);
        assert(s + chain(x, n) =~= before.push(hash160_spec(y)));
        assert(reaches(hash_list_ins(b, n), m, before.push(hash160_spec(y)), alt)) by {
            broadcast use group_machine;

            reveal(step);
        }
    }
}

/// `OP_2DROP` again.
proof fn lemma_drop_pairs(b: Seq<Ins>, m: Machine, s: Seq<Seq<u8>>, alt: Seq<Seq<u8>>, k: nat)
    requires
        m.running(),
        reaches(b, m, s, alt),
        2 * k <= s.len(),
    ensures
        reaches(repeat_ins(b, OP_2DROP, k), m, s.take(s.len() - 2 * k), alt),
    decreases k,
{
    if k == 0 {
        assert(s.take(s.len() as int) =~= s);
    } else {
        lemma_drop_pairs(b, m, s, alt, (k - 1) as nat);
        let before = s.take(s.len() - 2 * (k - 1));
        assert(before.take(before.len() - 2) =~= s.take(s.len() - 2 * k));
        broadcast use group_machine;

        reveal(step);
    }
}

/// The digit that the script reads: at most 15.
pub open spec fn clamped(v: int) -> int {
    if v < 15 {
        v
    } else {
        15
    }
}

/// The digit that the script accepts of two witness elements under a public
/// digit, if it accepts them: the digit element is a script number that, capped
/// at 15, is a place in the hash chain, and the 20-byte hash reaches the public
/// digit from there.
pub open spec fn accepted_digit(key: Seq<u8>, digit: Seq<u8>, hash: Seq<u8>) -> Option<int> {
    match bytes_num(digit) {
        Some(v) => {
            let d = clamped(v);
            if hash.len() == 20 && 0 <= d && hash_times_spec(hash, (15 - d) as nat) == key {
                Some(d)
            } else {
                None
            }
        },
        None => None,
    }
}

/// The machine after the head, if it gets there.
proof fn lemma_digit_head(
    b: Seq<Ins>,
    m: Machine,
    s: Seq<Seq<u8>>,
    alt: Seq<Seq<u8>>,
    digit: Seq<u8>,
    hash: Seq<u8>,
)
    requires
        m.running(),
        reaches(b, m, s.push(hash).push(digit), alt),
        hash.len() < 0x8000_0000,
    ensures
        match bytes_num(digit) {
            Some(v) => if hash.len() == 20 {
                reaches(
                    digit_head_ins(b),
                    m,
                    s.push(hash).push(num_bytes(clamped(v))).push(num_bytes(8)).push(
                        num_bytes(if clamped(v) < 8 { 1 } else { 0 }),
                    ),
                    alt.push(num_bytes(clamped(v))),
                )
            } else {
                run(digit_head_ins(b), m) is None
            },
            None => run(digit_head_ins(b), m) is None,
        },
{
    broadcast use group_machine;

    lemma_bytes_num_bound(digit);
    assert(num_bytes(hash.len() as int) == num_bytes(20) <==> hash.len() == 20);
    reveal(step);
}

/// The branch: the hash moved up if the digit is below 8, the pick parked.
proof fn lemma_digit_branch(
    b: Seq<Ins>,
    m: Machine,
    s: Seq<Seq<u8>>,
    alt: Seq<Seq<u8>>,
    hash: Seq<u8>,
    d: int,
)
    requires
        m.running(),
        -0x8000_0000 < d <= 15,
        reaches(
            b,
            m,
            s.push(hash).push(num_bytes(d)).push(num_bytes(8)).push(
                num_bytes(if d < 8 { 1 } else { 0 }),
            ),
            alt,
        ),
    ensures
        reaches(
            digit_branch_ins(b),
            m,
            s.push(if d < 8 { hash_times_spec(hash, 8) } else { hash }),
            alt.push(num_bytes(if d < 8 { d } else { d - 8 })),
        ),
{
    broadcast use group_machine;

    let b1 = b.push(Ins::Op(OP_IF)).push(Ins::Op(OP_DROP)).push(Ins::Op(OP_TOALTSTACK));
    let b2 = repeat_ins(b1, OP_HASH160, 8);
    if d < 8 {
        let cur = Machine {
            stack: s.push(hash),
            alt: alt.push(num_bytes(d)),
            cond: m.cond.push(true),
        };
        assert(run(b1, m) == Some(cur)) by {
            reveal(step);
        }
        lemma_hash_repeat(b1, m, cur, s, hash, 8);
        assert(run(b2, m) == Some(cur.with_stack(s.push(hash_times_spec(hash, 8)))));
    } else {
        let cur = Machine {
            stack: s.push(hash).push(num_bytes(d)).push(num_bytes(8)),
            alt,
            cond: m.cond.push(false),
        };
        assert(run(b1, m) == Some(cur)) by {
            reveal(step);
        }
        lemma_skip_repeat(b1, m, cur, 8);
        assert(run(b2, m) == Some(cur));
    }
    reveal(step);
}

/// The pick list and the comparison.
proof fn lemma_digit_tail(
    b: Seq<Ins>,
    m: Machine,
    s: Seq<Seq<u8>>,
    alt: Seq<Seq<u8>>,
    x: Seq<u8>,
    k: int,
    key: Seq<u8>,
)
    requires
        m.running(),
        -0x8000_0000 < k < 8,
        reaches(b, m, s.push(x), alt.push(num_bytes(k))),
    ensures
        if k >= 0 && hash_times_spec(x, (7 - k) as nat) == key {
            reaches(digit_tail_ins(b, key), m, s, alt)
        } else {
            run(digit_tail_ins(b, key), m) is None
        },
{
    broadcast use group_machine;

    lemma_hash_list(b, m, s, alt.push(num_bytes(k)), x, 7);
    let b1 = hash_list_ins(b, 7);
    let list = s + chain(x, 7);
    let b2 = b1.push(Ins::Op(OP_FROMALTSTACK)).push(Ins::Op(OP_PICK));
    if k >= 0 {
        let y = hash_times_spec(x, (7 - k) as nat);
        assert(list[list.len() - 1 - k] == y);
        assert(reaches(b2, m, list.push(y), alt)) by {
            reveal(step);
        }
        let b3 = b2.push(Ins::Bytes(key)).push(Ins::Op(OP_EQUALVERIFY));
        if y == key {
            assert(reaches(b3, m, list, alt)) by {
                reveal(step);
            }
            lemma_drop_pairs(b3, m, list, alt, 4);
            assert(list.take(list.len() - 8) =~= s);
        } else {
            assert(run(b3, m) is None) by {
                reveal(step);
            }
            lemma_failed_repeat(b3, m, 4);
        }
    } else {
        // The stack is never as deep as a negative place.
        let b3 = b2.push(Ins::Bytes(key)).push(Ins::Op(OP_EQUALVERIFY));
        assert(run(b3, m) is None) by {
            reveal(step);
        }
        lemma_failed_repeat(b3, m, 4);
    }
}

proof fn lemma_failed_repeat(b: Seq<Ins>, m: Machine, k: nat)
    requires
        run(b, m) is None,
    ensures
        run(repeat_ins(b, OP_2DROP, k), m) is None,
    decreases k,
{
    if k > 0 {
        lemma_failed_repeat(b, m, (k - 1) as nat);
        broadcast use group_machine;

    }
}

proof fn lemma_failed_hashes(b: Seq<Ins>, m: Machine, k: nat)
    requires
        run(b, m) is None,
    ensures
        run(repeat_ins(b, OP_HASH160, k), m) is None,
        run(hash_list_ins(b, k), m) is None,
    decreases k,
{
    if k > 0 {
        lemma_failed_hashes(b, m, (k - 1) as nat);
        broadcast use group_machine;

    }
}

/// A script that fails in the head of a digit fails.
proof fn lemma_failed_head(b: Seq<Ins>, m: Machine, key: Seq<u8>)
    requires
        run(digit_head_ins(b), m) is None,
    ensures
        run(digit_verify_ins(b, key), m) is None,
{
    broadcast use group_machine;

    let b0 = digit_head_ins(b);
    let b1 = b0.push(Ins::Op(OP_IF)).push(Ins::Op(OP_DROP)).push(Ins::Op(OP_TOALTSTACK));
    lemma_failed_hashes(b1, m, 8);
    let b2 = digit_branch_ins(b0);
    assert(run(b2, m) is None);
    lemma_failed_hashes(b2, m, 7);
    lemma_failed_repeat(
        hash_list_ins(b2, 7).push(Ins::Op(OP_FROMALTSTACK)).push(Ins::Op(OP_PICK)).push(
            Ins::Bytes(key),
        ).push(Ins::Op(OP_EQUALVERIFY)),
        m,
        4,
    );
}

/// Hash chains add up.
pub proof fn lemma_hash_times_add(x: Seq<u8>, a: nat, b: nat)
    ensures
        hash_times_spec(hash_times_spec(x, a), b) == hash_times_spec(x, a + b),
    decreases b,
{
    if b > 0 {
        lemma_hash_times_add(x, a, (b - 1) as nat);
    }
}

/// One digit in the script: two elements are consumed and the accepted digit is
/// parked, or the script fails.
pub proof fn law_digit_script(
    b: Seq<Ins>,
    m: Machine,
    s: Seq<Seq<u8>>,
    alt: Seq<Seq<u8>>,
    digit: Seq<u8>,
    hash: Seq<u8>,
    key: Seq<u8>,
)
    requires
        m.running(),
        reaches(b, m, s.push(hash).push(digit), alt),
        hash.len() < 0x8000_0000,
    ensures
        match accepted_digit(key, digit, hash) {
            Some(d) => reaches(digit_verify_ins(b, key), m, s, alt.push(num_bytes(d))),
            None => run(digit_verify_ins(b, key), m) is None,
        },
{
    lemma_digit_head(b, m, s, alt, digit, hash);
    lemma_bytes_num_bound(digit);
    match bytes_num(digit) {
        Some(v) => {
            if hash.len() == 20 {
                let d = clamped(v);
                let parked = alt.push(num_bytes(d));
                let b1 = digit_head_ins(b);
                lemma_digit_branch(b1, m, s, parked, hash, d);
                let x = if d < 8 { hash_times_spec(hash, 8) } else { hash };
                let k = if d < 8 { d } else { d - 8 };
                lemma_digit_tail(digit_branch_ins(b1), m, s, parked, x, k, key);
                if d >= 0 {
                    lemma_hash_times_add(hash, 8, (7 - k) as nat);
                }
            } else {
                lemma_failed_head(b, m, key);
            }
        },
        None => {
            lemma_failed_head(b, m, key);
        },
    }
}

/// The digits that the script accepts of `2 * n` witness elements.
pub open spec fn accepted(key: Seq<Seq<u8>>, items: Seq<Seq<u8>>, n: int, i: int) -> Option<int> {
    accepted_digit(key[i], digit_at(items, n, i), hash_at(items, n, i))
}

/// The digits from `i` on, where all are accepted.
pub open spec fn accepted_digits(key: Seq<Seq<u8>>, items: Seq<Seq<u8>>, n: int) -> Seq<u8> {
    Seq::new(n as nat, |i: int| accepted(key, items, n, i).unwrap() as u8)
}

/// Whether the digits from `from` on are accepted.
pub open spec fn all_accepted(key: Seq<Seq<u8>>, items: Seq<Seq<u8>>, n: int, from: int) -> bool {
    forall|i: int| from <= i < n ==> #[trigger] accepted(key, items, n, i) is Some
}

/// Elements of a witness are below 2 GiB.
pub open spec fn witness_sized(items: Seq<Seq<u8>>) -> bool {
    forall|i: int| 0 <= i < items.len() ==> (#[trigger] items[i]).len() < 0x8000_0000
}

proof fn lemma_failed_digit(b: Seq<Ins>, m: Machine, key: Seq<u8>)
    requires
        run(b, m) is None,
    ensures
        run(digit_verify_ins(b, key), m) is None,
{
    assert(run(digit_head_ins(b), m) is None) by {
        broadcast use group_machine;

    }
    lemma_failed_head(b, m, key);
}

/// The `k` last digits in the script.
proof fn lemma_digits_script(
    b: Seq<Ins>,
    m: Machine,
    base: Seq<Seq<u8>>,
    alt: Seq<Seq<u8>>,
    key: Seq<Seq<u8>>,
    items: Seq<Seq<u8>>,
    n: nat,
    k: nat,
)
    requires
        m.running(),
        items.len() == 2 * n,
        witness_sized(items),
        reaches(b, m, base + items.reverse(), alt),
        k <= n,
    ensures
        if all_accepted(key, items, n as int, n - k) {
            reaches(
                digits_verify_ins(b, key, n, k),
                m,
                base + items.skip(2 * k as int).reverse(),
                alt + nums(accepted_digits(key, items, n as int).skip(n - k)).reverse(),
            )
        } else {
            run(digits_verify_ins(b, key, n, k), m) is None
        },
    decreases k,
{
    let digits = accepted_digits(key, items, n as int);
    if k == 0 {
        assert(items.skip(0) =~= items);
        assert(alt + nums(digits.skip(n as int)).reverse() =~= alt);
    } else {
        lemma_digits_script(b, m, base, alt, key, items, n, (k - 1) as nat);
        let i = n - k;
        let prev = digits_verify_ins(b, key, n, (k - 1) as nat);
        if all_accepted(key, items, n as int, i + 1) {
            let s = base + items.skip(2 * k as int).reverse();
            let parked = alt + nums(digits.skip(i + 1)).reverse();
            let digit = digit_at(items, n as int, i);
            let hash = hash_at(items, n as int, i);
            assert(items[2 * (n - 1 - i) + 1].len() < 0x8000_0000);
            assert(base + items.skip(2 * (k - 1)).reverse() =~= s.push(hash).push(digit));
            law_digit_script(prev, m, s, parked, digit, hash, key[i]);
            match accepted(key, items, n as int, i) {
                Some(d) => {
                    assert(all_accepted(key, items, n as int, i));
                    assert(digits[i] == d as u8);
                    assert(0 <= d <= 15);
                    assert(alt + nums(digits.skip(i)).reverse() =~= parked.push(num_bytes(d))) by {
                        assert(digits.skip(i) =~= seq![digits[i]] + digits.skip(i + 1));
                    }
                },
                None => {
                    assert(!all_accepted(key, items, n as int, i));
                },
            }
        } else {
            let j = choose|j: int|
                i + 1 <= j < n && #[trigger] accepted(key, items, n as int, j) is None;
            assert(accepted(key, items, n as int, j) is None);
            assert(!all_accepted(key, items, n as int, i));
            lemma_failed_digit(prev, m, key[i]);
        }
    }
}

/// The message digits fetched back, with their negated sum.
proof fn lemma_sum_script(
    b: Seq<Ins>,
    m: Machine,
    base: Seq<Seq<u8>>,
    alt: Seq<Seq<u8>>,
    digits: Seq<u8>,
    k: nat,
)
    requires
        m.running(),
        all_nibbles(digits),
        k < digits.len(),
        MAX_DIGIT * digits.len() < 0x8000_0000,
        reaches(b, m, base, alt + nums(digits).reverse()),
    ensures
        reaches(
            sum_ins(b, k),
            m,
            (base + nums(digits.take(k as int + 1))).push(num_bytes(-(digit_sum(digits.take(k as int + 1)) as int))),
            alt + nums(digits.skip(k as int + 1)).reverse(),
        ),
    decreases k,
{
    let d = digits[k as int];
    assert(d < 16);
    let nd = num_bytes(d as int);
    let before = alt + nums(digits.skip(k as int)).reverse();
    let rest = alt + nums(digits.skip(k as int + 1)).reverse();
    assert(before =~= rest.push(nd)) by {
        assert(digits.skip(k as int) =~= seq![d] + digits.skip(k as int + 1));
    }
    if k == 0 {
        assert(digits.skip(0) =~= digits);
        assert(digits.take(1) =~= seq![d]);
        assert(seq![d].drop_last() =~= Seq::empty());
        assert(digit_sum(Seq::<u8>::empty()) == 0);
        assert(digit_sum(seq![d]) == d);
        assert(base + nums(digits.take(1)) =~= base.push(nd));
        lemma_sum_first(b, m, base, rest, d);
    } else {
        lemma_sum_script(b, m, base, alt, digits, (k - 1) as nat);
        let taken = digits.take(k as int);
        let total = digit_sum(taken) as int;
        assert(digits.take(k as int + 1).drop_last() =~= taken);
        assert forall|i: int| 0 <= i < taken.len() implies #[trigger] taken[i] < 16 by {
            assert(digits[i] < 16);
        }
        lemma_digit_sum_bound(taken);
        let s = base + nums(taken);
        assert(base + nums(digits.take(k as int + 1)) =~= s.push(nd));
        lemma_sum_next(sum_ins(b, (k - 1) as nat), m, s, rest, d, total);
    }
}

proof fn lemma_sum_first(b: Seq<Ins>, m: Machine, s: Seq<Seq<u8>>, alt: Seq<Seq<u8>>, d: u8)
    requires
        m.running(),
        reaches(b, m, s, alt.push(num_bytes(d as int))),
    ensures
        reaches(
            sum_ins(b, 0),
            m,
            s.push(num_bytes(d as int)).push(num_bytes(-(d as int))),
            alt,
        ),
{
    broadcast use group_machine;

    reveal(step);
}

proof fn lemma_sum_next(
    b: Seq<Ins>,
    m: Machine,
    s: Seq<Seq<u8>>,
    alt: Seq<Seq<u8>>,
    d: u8,
    total: int,
)
    requires
        m.running(),
        reaches(b, m, s.push(num_bytes(-total)), alt.push(num_bytes(d as int))),
        0 <= total < 0x8000_0000,
    ensures
        reaches(
            b.push(Ins::Op(OP_FROMALTSTACK)).push(Ins::Op(OP_TUCK)).push(Ins::Op(OP_SUB)),
            m,
            s.push(num_bytes(d as int)).push(num_bytes(-(total + d))),
            alt,
        ),
{
    broadcast use group_machine;

    assert(-total - d == -(total + d));
    reveal(step);
}

/// The number that base-16 digits write, most significant first.
pub open spec fn base16_value(digits: Seq<u8>) -> nat
    decreases digits.len(),
{
    if digits.len() == 0 {
        0
    } else {
        base16_value(digits.drop_last()) * 16 + digits.last() as nat
    }
}

/// A number doubled, if it is taken as an operand.
proof fn lemma_double(b: Seq<Ins>, m: Machine, s: Seq<Seq<u8>>, alt: Seq<Seq<u8>>, v: int)
    requires
        m.running(),
        reaches(b, m, s.push(num_bytes(v)), alt),
        0 <= v,
    ensures
        v < 0x8000_0000 ==> reaches(
            b.push(Ins::Op(OP_DUP)).push(Ins::Op(OP_ADD)),
            m,
            s.push(num_bytes(v + v)),
            alt,
        ),
        v >= 0x8000_0000 ==> run(b.push(Ins::Op(OP_DUP)).push(Ins::Op(OP_ADD)), m) is None,
{
    broadcast use group_machine;

    if v >= 0x8000_0000 {
        lemma_num_too_large(v);
    }
    reveal(step);
}

proof fn lemma_failed_double(b: Seq<Ins>, m: Machine)
    requires
        run(b, m) is None,
    ensures
        run(b.push(Ins::Op(OP_DUP)).push(Ins::Op(OP_ADD)), m) is None,
{
    broadcast use group_machine;

}

/// A number times 16, unless a doubling on the way is not taken as an operand.
proof fn lemma_times16(b: Seq<Ins>, m: Machine, s: Seq<Seq<u8>>, alt: Seq<Seq<u8>>, v: int)
    requires
        m.running(),
        reaches(b, m, s.push(num_bytes(v)), alt),
        0 <= v,
    ensures
        8 * v < 0x8000_0000 ==> reaches(times16_ins(b), m, s.push(num_bytes(16 * v)), alt),
        8 * v >= 0x8000_0000 ==> run(times16_ins(b), m) is None,
{
    let b1 = b.push(Ins::Op(OP_DUP)).push(Ins::Op(OP_ADD));
    let b2 = b1.push(Ins::Op(OP_DUP)).push(Ins::Op(OP_ADD));
    let b3 = b2.push(Ins::Op(OP_DUP)).push(Ins::Op(OP_ADD));
    lemma_double(b, m, s, alt, v);
    if v < 0x8000_0000 {
        lemma_double(b1, m, s, alt, v + v);
    } else {
        lemma_failed_double(b1, m);
    }
    if v + v < 0x8000_0000 {
        lemma_double(b2, m, s, alt, 4 * v);
    } else {
        lemma_failed_double(b2, m);
    }
    if 4 * v < 0x8000_0000 {
        lemma_double(b3, m, s, alt, 8 * v);
    } else {
        lemma_failed_double(b3, m);
    }
}

/// A digit fetched and added, if the number is taken as an operand.
proof fn lemma_fetch_add(b: Seq<Ins>, m: Machine, s: Seq<Seq<u8>>, alt: Seq<Seq<u8>>, v: int, d: u8)
    requires
        m.running(),
        reaches(b, m, s.push(num_bytes(v)), alt.push(num_bytes(d as int))),
        0 <= v,
    ensures
        v < 0x8000_0000 ==> reaches(
            b.push(Ins::Op(OP_FROMALTSTACK)).push(Ins::Op(OP_ADD)),
            m,
            s.push(num_bytes(v + d)),
            alt,
        ),
        v >= 0x8000_0000 ==> run(
            b.push(Ins::Op(OP_FROMALTSTACK)).push(Ins::Op(OP_ADD)),
            m,
        ) is None,
{
    broadcast use group_machine;

    if v >= 0x8000_0000 {
        lemma_num_too_large(v);
    }
    reveal(step);
}

/// One more checksum digit; a number of 2^31 or more fails.
proof fn lemma_checksum_step(
    b: Seq<Ins>,
    m: Machine,
    s: Seq<Seq<u8>>,
    alt: Seq<Seq<u8>>,
    v: int,
    d: u8,
)
    requires
        m.running(),
        d < 16,
        0 <= v,
        if v < 0x8000_0000 {
            reaches(b, m, s.push(num_bytes(v)), alt.push(num_bytes(d as int)))
        } else {
            run(b, m) is None
        },
    ensures
        ({
            let out = times16_ins(b).push(Ins::Op(OP_FROMALTSTACK)).push(Ins::Op(OP_ADD));
            if 16 * v + d < 0x8000_0000 {
                reaches(out, m, s.push(num_bytes(16 * v + d)), alt)
            } else {
                run(out, m) is None
            }
        }),
{
    let t = times16_ins(b);
    if v < 0x8000_0000 {
        lemma_times16(b, m, s, alt.push(num_bytes(d as int)), v);
        if 8 * v < 0x8000_0000 {
            lemma_fetch_add(t, m, s, alt, 16 * v, d);
        }
    } else {
        let b1 = b.push(Ins::Op(OP_DUP)).push(Ins::Op(OP_ADD));
        let b2 = b1.push(Ins::Op(OP_DUP)).push(Ins::Op(OP_ADD));
        let b3 = b2.push(Ins::Op(OP_DUP)).push(Ins::Op(OP_ADD));
        lemma_failed_double(b, m);
        lemma_failed_double(b1, m);
        lemma_failed_double(b2, m);
        lemma_failed_double(b3, m);
    }
    if run(t, m) is None {
        broadcast use group_machine;

        assert(run(t.push(Ins::Op(OP_FROMALTSTACK)), m) is None);
    }
}

/// The checksum digits fetched back as one number; a number of 2^31 or more
/// fails.
proof fn lemma_checksum_script(
    b: Seq<Ins>,
    m: Machine,
    s: Seq<Seq<u8>>,
    alt: Seq<Seq<u8>>,
    digits: Seq<u8>,
    k: nat,
)
    requires
        m.running(),
        all_nibbles(digits),
        k < digits.len(),
        reaches(b, m, s, alt + nums(digits).reverse()),
    ensures
        if base16_value(digits.take(k as int + 1)) < 0x8000_0000 {
            reaches(
                checksum_ins(b, k),
                m,
                s.push(num_bytes(base16_value(digits.take(k as int + 1)) as int)),
                alt + nums(digits.skip(k as int + 1)).reverse(),
            )
        } else {
            run(checksum_ins(b, k), m) is None
        },
    decreases k,
{
    let d = digits[k as int];
    assert(d < 16);
    let nd = num_bytes(d as int);
    let before = alt + nums(digits.skip(k as int)).reverse();
    let rest = alt + nums(digits.skip(k as int + 1)).reverse();
    assert(before =~= rest.push(nd)) by {
        assert(digits.skip(k as int) =~= seq![d] + digits.skip(k as int + 1));
    }
    if k == 0 {
        assert(digits.skip(0) =~= digits);
        assert(digits.take(1) =~= seq![d]);
        assert(seq![d].drop_last() =~= Seq::empty());
        assert(base16_value(Seq::<u8>::empty()) == 0);
        assert(base16_value(seq![d]) == d);
        assert(reaches(b.push(Ins::Op(OP_FROMALTSTACK)), m, s.push(nd), rest)) by {
            broadcast use group_machine;

            reveal(step);
        }
    } else {
        lemma_checksum_script(b, m, s, alt, digits, (k - 1) as nat);
        let taken = digits.take(k as int);
        assert(digits.take(k as int + 1).drop_last() =~= taken);
        let prev = checksum_ins(b, (k - 1) as nat);
        lemma_checksum_step(prev, m, s, rest, base16_value(taken) as int, d);
    }
}

/// Whether the script accepts `2 * n` witness elements: every digit is
/// accepted, and the checksum digits write the checksum of the message digits.
pub open spec fn script_accepts(
    params: WotsParams,
    key: Seq<Seq<u8>>,
    items: Seq<Seq<u8>>,
) -> bool {
    let n = params.total() as int;
    let md = params.message_digits as int;
    let digits = accepted_digits(key, items, n);
    &&& all_accepted(key, items, n, 0)
    &&& base16_value(digits.skip(md)) == checksum_of(params, digits.take(md))
}

/// Parameters whose numbers a script can reckon with: at least one digit of either
/// kind, a checksum that fits in its digits, and no checksum of 2^31 or more, which
/// no script takes as an operand.
pub open spec fn script_params(params: WotsParams) -> bool {
    &&& params.message_digits >= 1
    &&& params.checksum_digits >= 1
    &&& params.checksum_fits()
    &&& MAX_DIGIT * params.message_digits < 0x8000_0000
}

/// A number fits in as many base-16 digits as it has.
proof fn lemma_base16_len_fits(v: nat)
    ensures
        v < pow(16, base16_len(v)),
        base16_len(v) <= v,
    decreases v,
{
    reveal_with_fuel(pow, 2);
    if v > 0 {
        lemma_base16_len_fits(v / 16);
    }
}

/// The parameters for messages of up to 71,582,788 bytes are such.
pub proof fn law_byte_params_suit_scripts(n_bytes: u32)
    requires
        1 <= n_bytes <= 71_582_788,
    ensures
        script_params(params_for(n_bytes)),
{
    lemma_base16_len_fits((MAX_DIGIT * (2 * n_bytes)) as nat);
}


proof fn lemma_failed_sum(b: Seq<Ins>, m: Machine, k: nat)
    requires
        run(b, m) is None,
    ensures
        run(sum_ins(b, k), m) is None,
    decreases k,
{
    broadcast use group_machine;

    if k > 0 {
        lemma_failed_sum(b, m, (k - 1) as nat);
    }
}

proof fn lemma_failed_checksum(b: Seq<Ins>, m: Machine, k: nat)
    requires
        run(b, m) is None,
    ensures
        run(checksum_ins(b, k), m) is None,
    decreases k,
{
    broadcast use group_machine;

    if k > 0 {
        lemma_failed_checksum(b, m, (k - 1) as nat);
    }
}

/// The verifier script, on any witness: it consumes exactly the witness and
/// leaves the message digits, the last on top, where every digit is accepted
/// and the checksum is right; on any other witness it fails.
pub proof fn law_wots_script(
    b: Seq<Ins>,
    m: Machine,
    base: Seq<Seq<u8>>,
    alt: Seq<Seq<u8>>,
    params: WotsParams,
    key: Seq<Seq<u8>>,
    items: Seq<Seq<u8>>,
)
    requires
        m.running(),
        script_params(params),
        items.len() == 2 * params.total(),
        witness_sized(items),
        reaches(b, m, base + items.reverse(), alt),
    ensures
        if script_accepts(params, key, items) {
            reaches(
                wots_verify_ins(b, params, key),
                m,
                base + nums(
                    accepted_digits(key, items, params.total() as int).take(
                        params.message_digits as int,
                    ),
                ),
                alt,
            )
        } else {
            run(wots_verify_ins(b, params, key), m) is None
        },
{
    let n = params.total();
    let md = params.message_digits as int;
    let cd = params.checksum_digits as int;
    let digits = accepted_digits(key, items, n as int);
    lemma_digits_script(b, m, base, alt, key, items, n, n);
    let verified = digits_verify_ins(b, key, n, n);
    let k = (md - 1) as nat;
    let summed = sum_ins(verified, k);
    let with_total = summed.push(Ins::Int((MAX_DIGIT * params.message_digits) as int)).push(
        Ins::Op(OP_ADD),
    );
    let checked = checksum_ins(with_total, (cd - 1) as nat);
    if all_accepted(key, items, n as int, 0) {
        assert(items.skip(2 * n as int).reverse() =~= Seq::empty());
        assert(base + items.skip(2 * n as int).reverse() =~= base);
        assert(digits.skip(0) =~= digits);
        let message = digits.take(md);
        let check = digits.skip(md);
        assert forall|i: int| 0 <= i < digits.len() implies #[trigger] digits[i] < 16 by {
            assert(accepted(key, items, n as int, i) is Some);
        }
        assert(all_nibbles(message));
        assert(all_nibbles(check));
        let parked_check = alt + nums(check).reverse();
        assert(alt + nums(digits).reverse() =~= parked_check + nums(message).reverse()) by {
            assert(digits =~= message + check);
        }
        lemma_sum_script(verified, m, base, parked_check, message, k);
        assert(message.take(k as int + 1) =~= message);
        assert(parked_check + nums(message.skip(k as int + 1)).reverse() =~= parked_check);
        lemma_digit_sum_bound(message);
        let sum = digit_sum(message) as int;
        let total = (MAX_DIGIT * params.message_digits) as int;
        let s = base + nums(message);
        lemma_add_total(summed, m, s, parked_check, sum, total);
        let c = checksum_of(params, message);
        lemma_checksum_script(with_total, m, s.push(num_bytes(c)), alt, check, (cd - 1) as nat);
        assert(check.take(cd) =~= check);
        assert(alt + nums(check.skip(cd)).reverse() =~= alt);
        let v = base16_value(check) as int;
        if v < 0x8000_0000 {
            lemma_compare(checked, m, s, alt, c, v);
        } else {
            assert(run(checked.push(Ins::Op(OP_EQUALVERIFY)), m) is None) by {
                broadcast use group_machine;

            }
        }
    } else {
        lemma_failed_sum(verified, m, k);
        assert(run(with_total, m) is None) by {
            broadcast use group_machine;

        }
        lemma_failed_checksum(with_total, m, (cd - 1) as nat);
        assert(run(checked.push(Ins::Op(OP_EQUALVERIFY)), m) is None) by {
            broadcast use group_machine;

        }
    }
}

proof fn lemma_add_total(
    b: Seq<Ins>,
    m: Machine,
    s: Seq<Seq<u8>>,
    alt: Seq<Seq<u8>>,
    sum: int,
    total: int,
)
    requires
        m.running(),
        reaches(b, m, s.push(num_bytes(-sum)), alt),
        0 <= sum <= total < 0x8000_0000,
    ensures
        reaches(
            b.push(Ins::Int(total)).push(Ins::Op(OP_ADD)),
            m,
            s.push(num_bytes(total - sum)),
            alt,
        ),
{
    broadcast use group_machine;

    assert(-sum + total == total - sum);
    reveal(step);
}

proof fn lemma_compare(b: Seq<Ins>, m: Machine, s: Seq<Seq<u8>>, alt: Seq<Seq<u8>>, c: int, v: int)
    requires
        m.running(),
        reaches(b, m, s.push(num_bytes(c)).push(num_bytes(v)), alt),
        0 <= c < 0x8000_0000,
        0 <= v < 0x8000_0000,
    ensures
        if c == v {
            reaches(b.push(Ins::Op(OP_EQUALVERIFY)), m, s, alt)
        } else {
            run(b.push(Ins::Op(OP_EQUALVERIFY)), m) is None
        },
{
    broadcast use group_machine;

    reveal(step);
}

// ----- digits and checksums -----

/// `n` base-16 digits write every number that fits in them.
pub proof fn law_base16_writes(c: nat, n: nat)
    requires
        c < pow(16, n),
    ensures
        base16_value(base16(c, n)) == c,
        base16(c, n).len() == n,
        all_nibbles(base16(c, n)),
    decreases n,
{
    reveal_with_fuel(pow, 2);
    if n > 0 {
        law_base16_writes(c / 16, (n - 1) as nat);
        assert(base16(c, n).drop_last() =~= base16(c / 16, (n - 1) as nat));
    }
}

/// Digits are the base-16 digits of the number they write.
pub proof fn law_base16_unique(digits: Seq<u8>)
    requires
        all_nibbles(digits),
    ensures
        base16(base16_value(digits), digits.len()) == digits,
    decreases digits.len(),
{
    if digits.len() > 0 {
        let rest = digits.drop_last();
        assert(digits.last() < 16);
        assert forall|i: int| 0 <= i < rest.len() implies #[trigger] rest[i] < 16 by {
            assert(digits[i] < 16);
        }
        law_base16_unique(rest);
        assert(base16_value(digits) / 16 == base16_value(rest));
        assert(rest.push(digits.last()) =~= digits);
    } else {
        assert(base16(0, 0) =~= digits);
    }
}

/// Digits that are nowhere lower write a number that is not lower.
proof fn lemma_base16_monotone(a: Seq<u8>, b: Seq<u8>)
    requires
        a.len() == b.len(),
        forall|i: int| 0 <= i < a.len() ==> a[i] <= #[trigger] b[i],
    ensures
        base16_value(a) <= base16_value(b),
    decreases a.len(),
{
    if a.len() > 0 {
        lemma_base16_monotone(a.drop_last(), b.drop_last());
        assert(a.last() <= b.last());
    }
}

/// Digits that are nowhere lower and not the same have a larger sum.
proof fn lemma_sum_monotone(a: Seq<u8>, b: Seq<u8>)
    requires
        a.len() == b.len(),
        forall|i: int| 0 <= i < a.len() ==> a[i] <= #[trigger] b[i],
    ensures
        digit_sum(a) <= digit_sum(b),
        a != b ==> digit_sum(a) < digit_sum(b),
    decreases a.len(),
{
    if a.len() > 0 {
        lemma_sum_monotone(a.drop_last(), b.drop_last());
        assert(a.last() <= b.last());
        if a != b && a.drop_last() == b.drop_last() {
            assert(a.drop_last().push(a.last()) =~= a);
            assert(b.drop_last().push(b.last()) =~= b);
        }
    } else {
        assert(a =~= b);
    }
}

/// The checksum guards the message: of two different messages, each has a digit
/// that is lower than the other's. Hashing a signature further only raises
/// digits, so it never turns into a signature of another message.
pub proof fn law_checksum_guards(params: WotsParams, a: Seq<u8>, b: Seq<u8>)
    requires
        params.checksum_fits(),
        all_nibbles(a),
        all_nibbles(b),
        a.len() == params.message_digits,
        b.len() == params.message_digits,
        a != b,
    ensures
        exists|i: int|
            0 <= i < params.total() && (#[trigger] (b + checksum_spec(params, b))[i]) < (a
                + checksum_spec(params, a))[i],
{
    let da = a + checksum_spec(params, a);
    let db = b + checksum_spec(params, b);
    let n = params.checksum_digits as nat;
    lemma_digit_sum_bound(a);
    lemma_digit_sum_bound(b);
    let ca = checksum_of(params, a) as nat;
    let cb = checksum_of(params, b) as nat;
    law_base16_writes(ca, n);
    law_base16_writes(cb, n);
    if forall|i: int| 0 <= i < params.total() ==> (#[trigger] db[i]) >= da[i] {
        assert forall|i: int| 0 <= i < a.len() implies a[i] <= #[trigger] b[i] by {
            assert(db[i] >= da[i]);
        }
        lemma_sum_monotone(a, b);
        let (xa, xb) = (base16(ca, n), base16(cb, n));
        assert forall|i: int| 0 <= i < xa.len() implies xa[i] <= #[trigger] xb[i] by {
            assert(db[a.len() + i] >= da[a.len() + i]);
        }
        lemma_base16_monotone(xa, xb);
    }
}

// ----- signatures -----

proof fn lemma_digit_pair(b: u8)
    ensures
        digit_pair((b / 16) as u8, (b % 16) as u8) == b,
{
    let high: u8 = (b / 16) as u8;
    let low: u8 = (b % 16) as u8;
    assert((high << 4u8) | low == b) by (bit_vector)
        requires
            high == b / 16,
            low == b % 16,
    ;
}

/// The digits of a message pair up to the message.
pub proof fn law_digits_pair_up(msg: Seq<u8>)
    ensures
        message_spec(nibbles_of(msg)) == msg,
{
    let out = message_spec(nibbles_of(msg));
    assert forall|i: int| 0 <= i < msg.len() implies out[i] == msg[i] by {
        lemma_digit_pair(msg[i]);
    }
    assert(out =~= msg);
}

proof fn lemma_no_digit_error(
    key: Seq<Seq<u8>>,
    digits: Seq<u8>,
    hashes: Seq<Seq<u8>>,
    n: int,
    i: int,
)
    requires
        0 <= i,
        forall|j: int| 0 <= j < n ==> #[trigger] digit_error(key, digits, hashes, j) is None,
    ensures
        digits_error(key, digits, hashes, n, i) is None,
    decreases n - i,
{
    if i < n {
        assert(digit_error(key, digits, hashes, i) is None);
        lemma_no_digit_error(key, digits, hashes, n, i + 1);
    }
}

/// Without an error, no digit has one.
pub proof fn lemma_digit_errors(
    key: Seq<Seq<u8>>,
    digits: Seq<u8>,
    hashes: Seq<Seq<u8>>,
    n: int,
    i: int,
)
    requires
        0 <= i,
        digits_error(key, digits, hashes, n, i) is None,
    ensures
        forall|j: int| i <= j < n ==> #[trigger] digit_error(key, digits, hashes, j) is None,
    decreases n - i,
{
    if i < n {
        lemma_digit_errors(key, digits, hashes, n, i + 1);
    }
}

/// What a key signs verifies under its public half, and the message comes
/// back.
pub proof fn law_signature_verifies(sk: WotsSecret, sig: WotsSig, msg: Seq<u8>, key: Seq<Seq<u8>>)
    requires
        2 * msg.len() == sk.key_params().message_digits,
        sk.signs(sig, signed_digits(sk.key_params(), msg)),
        key.len() == sk.key_params().total(),
        forall|i: int| 0 <= i < key.len() ==> #[trigger] key[i] == sk.public_digit(i),
    ensures
        sig_error(
            sk.key_params(),
            key,
            sig.digits@,
            crate::lamport::winternitz::hashes_view(sig.hashes@),
        ) is None,
        message_spec(sig.digits@.take(sk.key_params().message_digits as int)) == msg,
{
    let params = sk.key_params();
    let md = params.message_digits as int;
    let digits = sig.digits@;
    let hashes = crate::lamport::winternitz::hashes_view(sig.hashes@);
    let message = nibbles_of(msg);
    assert(all_nibbles(message));
    lemma_base16_shape(checksum_of(params, message) as nat, params.checksum_digits as nat);
    assert(digits.take(md) =~= message);
    assert(digits.skip(md) =~= checksum_spec(params, message));
    assert forall|i: int| 0 <= i < params.total() implies #[trigger] digit_error(
        key,
        digits,
        hashes,
        i,
    ) is None by {
        assert(digits[i] < 16);
        let start = digit_secret_spec(sk.entropy(), i as nat);
        lemma_hash_times_add(start, digits[i] as nat, (MAX_DIGIT - digits[i]) as nat);
        assert(hashes[i] == sig.hashes@[i]@);
        assert(key[i] == sk.public_digit(i));
    }
    lemma_no_digit_error(key, digits, hashes, params.total() as int, 0);
    law_digits_pair_up(msg);
}

proof fn lemma_base16_shape(c: nat, n: nat)
    ensures
        base16(c, n).len() == n,
        all_nibbles(base16(c, n)),
    decreases n,
{
    if n > 0 {
        lemma_base16_shape(c / 16, (n - 1) as nat);
    }
}

/// Witness elements in consumption order, rebuilt, give the digits and hashes
/// they came from.
pub proof fn law_sig_items_round_trip(digits: Seq<u8>, hashes: Seq<Seq<u8>>)
    requires
        hashes.len() == digits.len(),
        forall|i: int| 0 <= i < hashes.len() ==> (#[trigger] hashes[i]).len() == 20,
    ensures
        ({
            let n = digits.len();
            let items = sig_items(digits, hashes);
            &&& items.len() == 2 * n
            &&& items_error(items, n as int, 0) is None
            &&& Seq::new(n, |i: int| item_digit(digit_at(items, n as int, i))) == digits
            &&& Seq::new(n, |i: int| hash_at(items, n as int, i)) == hashes
        }),
{
    let n = digits.len();
    let items = sig_items(digits, hashes);
    assert forall|i: int| 0 <= i < n implies #[trigger] digit_at(items, n as int, i) == digit_item(
        digits[i],
    ) && hash_at(items, n as int, i) == hashes[i] by {
        let k = 2 * (n - 1 - i);
        assert(n - 1 - k / 2 == i);
        assert(n - 1 - (k + 1) / 2 == i);
    }
    lemma_items_fine(items, n as int, 0);
    assert(Seq::new(n, |i: int| item_digit(digit_at(items, n as int, i))) =~= digits);
    assert forall|i: int| 0 <= i < n implies hash_at(items, n as int, i) == hashes[i] by {
        let d = digit_at(items, n as int, i);
    }
    assert(Seq::new(n, |i: int| hash_at(items, n as int, i)) =~= hashes);
}

proof fn lemma_items_fine(items: Seq<Seq<u8>>, n: int, i: int)
    requires
        0 <= i,
        forall|j: int|
            0 <= j < n ==> #[trigger] digit_at(items, n, j).len() <= 1 && hash_at(items, n, j).len()
                == 20,
    ensures
        items_error(items, n, i) is None,
    decreases n - i,
{
    if i < n {
        assert(digit_at(items, n, i).len() <= 1);
        lemma_items_fine(items, n, i + 1);
    }
}

/// A digit's witness element is its script number.
pub proof fn lemma_digit_item_num(d: u8)
    requires
        d < 16,
    ensures
        digit_item(d) == num_bytes(d as int),
{
    reveal(num_bytes);
    reveal_with_fuel(crate::script::machine::le_bytes, 3);
    if d > 0 {
        assert(d as nat / 256 == 0);
        assert(crate::script::machine::le_bytes(d as nat) =~= seq![d]);
    } else {
        assert(digit_item(d) =~= crate::script::machine::le_bytes(0));
    }
}

/// The script agrees with verification off the chain: on the witness of a
/// signature with digits up to 15, the script accepts exactly what `verify`
/// accepts, and leaves the message digits.
pub proof fn law_script_agrees_with_verify(
    b: Seq<Ins>,
    m: Machine,
    base: Seq<Seq<u8>>,
    alt: Seq<Seq<u8>>,
    params: WotsParams,
    key: Seq<Seq<u8>>,
    digits: Seq<u8>,
    hashes: Seq<Seq<u8>>,
)
    requires
        m.running(),
        script_params(params),
        key.len() == params.total(),
        digits.len() == params.total(),
        all_nibbles(digits),
        hashes.len() == params.total(),
        forall|i: int| 0 <= i < hashes.len() ==> (#[trigger] hashes[i]).len() == 20,
        reaches(b, m, base + sig_items(digits, hashes).reverse(), alt),
    ensures
        if sig_error(params, key, digits, hashes) is None {
            reaches(
                wots_verify_ins(b, params, key),
                m,
                base + nums(digits.take(params.message_digits as int)),
                alt,
            )
        } else {
            run(wots_verify_ins(b, params, key), m) is None
        },
{
    let n = params.total() as int;
    let md = params.message_digits as int;
    let items = sig_items(digits, hashes);
    law_sig_items_round_trip(digits, hashes);
    assert forall|i: int| 0 <= i < items.len() implies (#[trigger] items[i]).len()
        < 0x8000_0000 by {
        assert(hashes[digits.len() - 1 - i / 2].len() == 20);
    }
    law_wots_script(b, m, base, alt, params, key, items);
    let seen = accepted_digits(key, items, n);
    assert forall|i: int| 0 <= i < n implies #[trigger] accepted(key, items, n, i) == (
    if digit_error(key, digits, hashes, i) is None {
        Some(digits[i] as int)
    } else {
        None
    }) by {
        let k = 2 * (n - 1 - i);
        assert(n - 1 - k / 2 == i);
        assert(n - 1 - (k + 1) / 2 == i);
        assert(digit_at(items, n, i) == digit_item(digits[i]));
        assert(hash_at(items, n, i) == hashes[i]);
        assert(digits[i] < 16);
        lemma_digit_item_num(digits[i]);
        broadcast use crate::script::machine::lemma_num_round_trip;

    }
    if digits_error(key, digits, hashes, n, 0) is None {
        lemma_digit_errors(key, digits, hashes, n, 0);
        assert(all_accepted(key, items, n, 0)) by {
            assert forall|i: int| 0 <= i < n implies #[trigger] accepted(
                key,
                items,
                n,
                i,
            ) is Some by {
                assert(digit_error(key, digits, hashes, i) is None);
            }
        }
        assert forall|i: int| 0 <= i < n implies seen[i] == digits[i] by {
            assert(digit_error(key, digits, hashes, i) is None);
            assert(accepted(key, items, n, i) == Some(digits[i] as int));
        }
        assert(seen =~= digits);
        let message = digits.take(md);
        let check = digits.skip(md);
        assert(all_nibbles(message));
        assert(all_nibbles(check));
        lemma_digit_sum_bound(message);
        let c = checksum_of(params, message) as nat;
        law_base16_writes(c, params.checksum_digits as nat);
        law_base16_unique(check);
    } else {
        if all_accepted(key, items, n, 0) {
            assert forall|i: int| 0 <= i < n implies #[trigger] digit_error(
                key,
                digits,
                hashes,
                i,
            ) is None by {
                assert(accepted(key, items, n, i) is Some);
            }
            lemma_no_digit_error(key, digits, hashes, n, 0);
        }
    }
}

} // verus!
