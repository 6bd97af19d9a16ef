//! The decoder recognises the Winternitz verifier.

use vstd::prelude::*;

use crate::decode::gadgets::{
    at, finale_at, finale_head_pattern, finale_shift_pattern, finale_sum_pattern,
    finale_total_pattern, fits, gadget_at, gadgets_from, op_pattern, repeats, tied_pattern,
    wots_step_pattern, GadgetView, Pat,
};
use crate::decode::instructions::ins_num;
use crate::decode::laws::{lemma_not_at, read_back, read_back_all};
use crate::lamport::winternitz::{
    checksum_ins, digit_branch_ins, digit_head_ins, digit_tail_ins, digit_verify_ins,
    digits_verify_ins, hash_list_ins, sum_ins, wots_verify_ins, WotsParams, MAX_DIGIT,
};
use crate::script::machine::{bytes_num, lemma_num_round_trip, Ins};
use crate::script::opcodes::{
    OP_2DROP, OP_ADD, OP_DROP, OP_DUP, OP_EQUALVERIFY, OP_FROMALTSTACK, OP_HASH160, OP_IF,
    OP_NEGATE, OP_PICK, OP_SUB, OP_TOALTSTACK, OP_TUCK,
};
use crate::script::repeat_ins;

verus! {

// ----- one digit -----

/// Whether the first `n` instructions read back as a pattern asks.
spec fn all_fit(script: Seq<Ins>, pattern: Seq<Pat>, n: nat) -> bool
    decreases n,
{
    n == 0 || fits(read_back(script[n - 1]), pattern[n - 1]) && all_fit(
        script,
        pattern,
        (n - 1) as nat,
    )
}

proof fn lemma_all_fit(script: Seq<Ins>, pattern: Seq<Pat>, n: nat, k: int)
    requires
        all_fit(script, pattern, n),
        0 <= k < n,
    ensures
        fits(read_back(script[k]), pattern[k]),
    decreases n,
{
    if k < n - 1 {
        lemma_all_fit(script, pattern, (n - 1) as nat, k);
    }
}

proof fn lemma_small_num(n: int)
    requires
        0 <= n < 0x8000_0000,
    ensures
        ins_num(read_back(Ins::Int(n))) == Some(n),
{
    lemma_num_round_trip(n);
    reveal(bytes_num);
}

proof fn lemma_repeat_append(b: Seq<Ins>, op: u8, n: nat)
    ensures
        repeat_ins(b, op, n) == b + repeat_ins(Seq::empty(), op, n),
        repeat_ins(b, op, n).len() == b.len() + n,
    decreases n,
{
    if n > 0 {
        lemma_repeat_append(b, op, (n - 1) as nat);
    }
    assert(repeat_ins(b, op, n) =~= b + repeat_ins(Seq::empty(), op, n));
}

proof fn lemma_hash_list_append(b: Seq<Ins>, n: nat)
    ensures
        hash_list_ins(b, n) == b + hash_list_ins(Seq::empty(), n),
    decreases n,
{
    if n > 0 {
        lemma_hash_list_append(b, (n - 1) as nat);
    }
    assert(hash_list_ins(b, n) =~= b + hash_list_ins(Seq::empty(), n));
}

/// One digit's verification, by itself.
spec fn digit_ins(key: Seq<u8>) -> Seq<Ins> {
    digit_verify_ins(Seq::empty(), key)
}

proof fn lemma_digit_append(b: Seq<Ins>, key: Seq<u8>)
    ensures
        digit_verify_ins(b, key) == b + digit_ins(key),
{
    let e = Seq::<Ins>::empty();
    let head = digit_head_ins(e);
    assert(digit_head_ins(b) =~= b + head);
    let branch = digit_branch_ins(head);
    let opened = head.push(Ins::Op(OP_IF)).push(
        Ins::Op(OP_DROP),
    ).push(Ins::Op(OP_TOALTSTACK));
    lemma_repeat_append(opened, OP_HASH160, 8);
    lemma_repeat_append(b + opened, OP_HASH160, 8);
    assert((b + head).push(Ins::Op(OP_IF)).push(
        Ins::Op(OP_DROP),
    ).push(Ins::Op(OP_TOALTSTACK)) =~= b + opened);
    assert(digit_branch_ins(b + head) =~= b + branch);
    lemma_hash_list_append(branch, 7);
    lemma_hash_list_append(b + branch, 7);
    let picked = hash_list_ins(branch, 7).push(Ins::Op(OP_FROMALTSTACK)).push(
        Ins::Op(OP_PICK),
    ).push(Ins::Bytes(key)).push(Ins::Op(OP_EQUALVERIFY));
    assert(hash_list_ins(b + branch, 7).push(Ins::Op(OP_FROMALTSTACK)).push(
        Ins::Op(OP_PICK),
    ).push(Ins::Bytes(key)).push(Ins::Op(OP_EQUALVERIFY)) =~= b + picked);
    lemma_repeat_append(picked, OP_2DROP, 4);
    lemma_repeat_append(b + picked, OP_2DROP, 4);
    assert(digit_tail_ins(b + branch, key) =~= b + digit_tail_ins(branch, key));
}

#[verifier::rlimit(40)]
proof fn lemma_digit_fits(key: Seq<u8>)
    requires
        key.len() == 20,
    ensures
        digit_ins(key).len() == 49,
        digit_ins(key)[43] == Ins::Bytes(key),
        all_fit(digit_ins(key), wots_step_pattern(), 49),
{
    reveal_with_fuel(repeat_ins, 9);
    reveal_with_fuel(hash_list_ins, 8);
    lemma_small_num(20);
    let s = digit_ins(key);
    let p = wots_step_pattern();
    assert(all_fit(s, p, 12)) by {
        reveal_with_fuel(all_fit, 13);
    }
    assert(all_fit(s, p, 27)) by {
        reveal_with_fuel(all_fit, 16);
    }
    assert(all_fit(s, p, 41)) by {
        reveal_with_fuel(all_fit, 15);
    }
    reveal_with_fuel(all_fit, 9);
}

/// What stands at `i` when a digit's verification starts there.
proof fn lemma_digit_at(ins: Seq<Ins>, i: int, key: Seq<u8>)
    requires
        key.len() == 20,
        0 <= i,
        i + 49 <= ins.len(),
        forall|m: int| 0 <= m < 49 ==> #[trigger] ins[i + m] == read_back(digit_ins(key)[m]),
    ensures
        gadget_at(ins, i) == (GadgetView::WotsStep { pk: key, tied: None }, i + 49),
{
    lemma_digit_fits(key);
    let pattern = wots_step_pattern();
    assert forall|m: int| 0 <= m < 49 implies #[trigger] fits(ins[i + m], pattern[m]) by {
        lemma_all_fit(digit_ins(key), pattern, 49, m);
    }
    assert(at(ins, i, pattern));
    assert(fits(ins[i + 0], pattern[0]));
    lemma_not_at(ins, i, tied_pattern());
    assert(ins[i + 43] == read_back(digit_ins(key)[43]));
}

/// Where the verification of the `j`-th digit from the end stands.
proof fn lemma_digits_place(key: Seq<Seq<u8>>, n: nat, k: nat, j: int, m: int)
    requires
        k <= n,
        n <= key.len(),
        forall|i: int| 0 <= i < n ==> (#[trigger] key[i]).len() == 20,
    ensures
        digits_verify_ins(Seq::empty(), key, n, k).len() == 49 * k,
        0 <= j < k && 0 <= m < 49 ==> digits_verify_ins(Seq::empty(), key, n, k)[49 * j + m]
            == digit_ins(key[n - 1 - j])[m],
    decreases k,
{
    if k > 0 {
        let before = digits_verify_ins(Seq::empty(), key, n, (k - 1) as nat);
        lemma_digits_place(key, n, (k - 1) as nat, j, m);
        lemma_digit_append(before, key[n - k]);
        lemma_digit_fits(key[n - k]);
    }
}

// ----- the finale -----

/// A pattern that stands `m` times in a row, and then not again.
proof fn lemma_repeats(ins: Seq<Ins>, i: int, pattern: Seq<Pat>, m: nat)
    requires
        pattern.len() > 0,
        0 <= i,
        forall|t: int| 0 <= t < m ==> #[trigger] at(ins, i + t * pattern.len(), pattern),
        !at(ins, i + m * pattern.len(), pattern),
    ensures
        repeats(ins, i, pattern) == m,
    decreases m,
{
    let w = pattern.len() as int;
    if m == 0 {
        assert(0 * w == 0) by (nonlinear_arith);
    } else {
        assert(at(ins, i + 0 * w, pattern));
        assert(0 * w == 0) by (nonlinear_arith);
        assert forall|t: int| 0 <= t < m - 1 implies #[trigger] at(
            ins,
            i + w + t * w,
            pattern,
        ) by {
            assert(at(ins, i + (t + 1) * w, pattern));
            assert((t + 1) * w == w + t * w) by (nonlinear_arith);
        }
        assert((m - 1) * w + w == m * w) by (nonlinear_arith);
        lemma_repeats(ins, i + w, pattern, (m - 1) as nat);
    }
}

proof fn lemma_sum_append(b: Seq<Ins>, k: nat)
    ensures
        sum_ins(b, k) == b + sum_ins(Seq::empty(), k),
    decreases k,
{
    if k > 0 {
        lemma_sum_append(b, (k - 1) as nat);
    }
    assert(sum_ins(b, k) =~= b + sum_ins(Seq::empty(), k));
}

proof fn lemma_sum_place(k: nat, t: int)
    ensures
        sum_ins(Seq::empty(), k).len() == 3 + 3 * k,
        sum_ins(Seq::empty(), k)[0] == Ins::Op(OP_FROMALTSTACK),
        sum_ins(Seq::empty(), k)[1] == Ins::Op(OP_DUP),
        sum_ins(Seq::empty(), k)[2] == Ins::Op(OP_NEGATE),
        0 <= t < k ==> {
            &&& sum_ins(Seq::empty(), k)[3 + 3 * t] == Ins::Op(OP_FROMALTSTACK)
            &&& sum_ins(Seq::empty(), k)[3 + 3 * t + 1] == Ins::Op(OP_TUCK)
            &&& sum_ins(Seq::empty(), k)[3 + 3 * t + 2] == Ins::Op(OP_SUB)
        },
    decreases k,
{
    if k > 0 {
        lemma_sum_place((k - 1) as nat, t);
    }
}

proof fn lemma_checksum_append(b: Seq<Ins>, k: nat)
    ensures
        checksum_ins(b, k) == b + checksum_ins(Seq::empty(), k),
    decreases k,
{
    if k > 0 {
        lemma_checksum_append(b, (k - 1) as nat);
    }
    assert(checksum_ins(b, k) =~= b + checksum_ins(Seq::empty(), k));
}

proof fn lemma_checksum_place(k: nat, t: int)
    ensures
        checksum_ins(Seq::empty(), k).len() == 1 + 10 * k,
        checksum_ins(Seq::empty(), k)[0] == Ins::Op(OP_FROMALTSTACK),
        0 <= t < k ==> {
            let s = checksum_ins(Seq::empty(), k);
            let j = 1 + 10 * t;
            &&& s[j] == Ins::Op(OP_DUP) && s[j + 1] == Ins::Op(OP_ADD)
            &&& s[j + 2] == Ins::Op(OP_DUP) && s[j + 3] == Ins::Op(OP_ADD)
            &&& s[j + 4] == Ins::Op(OP_DUP) && s[j + 5] == Ins::Op(OP_ADD)
            &&& s[j + 6] == Ins::Op(OP_DUP) && s[j + 7] == Ins::Op(OP_ADD)
            &&& s[j + 8] == Ins::Op(OP_FROMALTSTACK) && s[j + 9] == Ins::Op(OP_ADD)
        },
    decreases k,
{
    if k > 0 {
        lemma_checksum_place((k - 1) as nat, t);
    }
}

/// The part of the verifier after the digits.
spec fn finale_ins(msg: nat, ck: nat) -> Seq<Ins> {
    checksum_ins(
        sum_ins(Seq::empty(), (msg - 1) as nat).push(Ins::Int((MAX_DIGIT * msg) as int)).push(
            Ins::Op(OP_ADD),
        ),
        (ck - 1) as nat,
    ).push(Ins::Op(OP_EQUALVERIFY))
}

proof fn lemma_sum_repeats(ins: Seq<Ins>, i: int, msg: nat, ck: nat)
    requires
        1 <= msg,
        1 <= ck,
        0 <= i,
        ins.len() == i + finale_ins(msg, ck).len(),
        forall|m: int|
            0 <= m < finale_ins(msg, ck).len() ==> #[trigger] ins[i + m] == read_back(
                finale_ins(msg, ck)[m],
            ),
    ensures
        ins.len() == i + 3 * msg + 10 * ck - 6,
        repeats(ins, i + 3, finale_sum_pattern()) == msg - 1,
        at(ins, i, finale_head_pattern()),
        ins[i + 3 * msg] == read_back(Ins::Int((MAX_DIGIT * msg) as int)),
        ins[i + 3 * msg + 1] == Ins::Op(OP_ADD),
        ins[i + 3 * msg + 2] == Ins::Op(OP_FROMALTSTACK),
{
    let f = finale_ins(msg, ck);
    let k = (msg - 1) as nat;
    let sums = sum_ins(Seq::empty(), k);
    let total = sums.push(Ins::Int((MAX_DIGIT * msg) as int)).push(Ins::Op(OP_ADD));
    lemma_checksum_append(total, (ck - 1) as nat);
    lemma_checksum_place((ck - 1) as nat, 0);
    lemma_sum_place(k, 0);
    assert(f.len() == 3 * msg + 10 * ck - 6);
    let head = finale_head_pattern();
    assert forall|m: int| 0 <= m < head.len() implies #[trigger] fits(ins[i + m], head[m]) by {
        if m < 3 {
            assert(ins[i + m] == read_back(f[m]));
        }
    }
    let pattern = finale_sum_pattern();
    assert forall|t: int| 0 <= t < k implies #[trigger] at(
        ins,
        i + 3 + t * pattern.len(),
        pattern,
    ) by {
        lemma_sum_place(k, t);
        let p = 3 + 3 * t;
        assert(ins[i + p] == read_back(f[p]));
        assert(ins[i + (p + 1)] == read_back(f[p + 1]));
        assert(ins[i + (p + 2)] == read_back(f[p + 2]));
        assert(t * pattern.len() == 3 * t) by (nonlinear_arith)
            requires
                pattern.len() == 3,
        ;
        assert forall|m: int| 0 <= m < 3 implies #[trigger] fits(
            ins[i + 3 + t * pattern.len() + m],
            pattern[m],
        ) by {
            assert(m == 0 || m == 1 || m == 2);
        }
    }
    assert(ins[i + 3 * msg] == read_back(f[3 * msg as int]));
    assert(ins[i + (3 * msg + 1)] == read_back(f[(3 * msg + 1) as int]));
    assert(ins[i + (3 * msg + 2)] == read_back(f[(3 * msg + 2) as int]));
    assert(k * pattern.len() == 3 * k) by (nonlinear_arith)
        requires
            pattern.len() == 3,
    ;
    assert(!fits(ins[i + 3 * msg], pattern[0]));
    lemma_not_at(ins, i + 3 * msg, pattern);
    lemma_repeats(ins, i + 3, pattern, k);
}

proof fn lemma_shift_fits(c: Seq<Ins>, j: int, m: int)
    requires
        0 <= m < 10,
        c[j] == Ins::Op(OP_DUP) && c[j + 1] == Ins::Op(OP_ADD),
        c[j + 2] == Ins::Op(OP_DUP) && c[j + 3] == Ins::Op(OP_ADD),
        c[j + 4] == Ins::Op(OP_DUP) && c[j + 5] == Ins::Op(OP_ADD),
        c[j + 6] == Ins::Op(OP_DUP) && c[j + 7] == Ins::Op(OP_ADD),
        c[j + 8] == Ins::Op(OP_FROMALTSTACK) && c[j + 9] == Ins::Op(OP_ADD),
    ensures
        fits(read_back(c[j + m]), finale_shift_pattern()[m]),
{
    if m == 8 {
    } else if m % 2 == 0 {
        assert(m == 0 || m == 2 || m == 4 || m == 6);
    } else {
        assert(m == 1 || m == 3 || m == 5 || m == 7 || m == 9);
    }
}

proof fn lemma_shift_repeats(ins: Seq<Ins>, i: int, msg: nat, ck: nat)
    requires
        1 <= msg,
        1 <= ck,
        0 <= i,
        ins.len() == i + finale_ins(msg, ck).len(),
        forall|m: int|
            0 <= m < finale_ins(msg, ck).len() ==> #[trigger] ins[i + m] == read_back(
                finale_ins(msg, ck)[m],
            ),
    ensures
        repeats(ins, i + 3 * msg + 3, finale_shift_pattern()) == ck - 1,
        at(ins, i + 3 * msg + 10 * ck - 7, op_pattern(OP_EQUALVERIFY)),
{
    let f = finale_ins(msg, ck);
    let k = (ck - 1) as nat;
    let sums = sum_ins(Seq::empty(), (msg - 1) as nat);
    let total = sums.push(Ins::Int((MAX_DIGIT * msg) as int)).push(Ins::Op(OP_ADD));
    lemma_checksum_append(total, k);
    lemma_checksum_place(k, 0);
    lemma_sum_place((msg - 1) as nat, 0);
    let start = 3 * msg + 2;
    let c = checksum_ins(Seq::empty(), k);
    assert(f =~= total + c.push(Ins::Op(OP_EQUALVERIFY)));
    let pattern = finale_shift_pattern();
    assert forall|t: int| 0 <= t < k implies #[trigger] at(
        ins,
        i + 3 * msg + 3 + t * pattern.len(),
        pattern,
    ) by {
        lemma_checksum_place(k, t);
        let p = start + 1 + 10 * t;
        assert(t * pattern.len() == 10 * t) by (nonlinear_arith)
            requires
                pattern.len() == 10,
        ;
        assert forall|m: int| 0 <= m < 10 implies #[trigger] fits(
            ins[i + 3 * msg + 3 + t * pattern.len() + m],
            pattern[m],
        ) by {
            assert(ins[i + (p + m)] == read_back(f[p + m]));
            assert(f[p + m] == c[1 + 10 * t + m]);
            lemma_shift_fits(c, 1 + 10 * t, m);
        }
    }
    let last = 3 * msg + 10 * ck - 7;
    assert(ins[i + last] == read_back(f[last]));
    assert(f[last] == Ins::Op(OP_EQUALVERIFY));
    assert(k * pattern.len() == 10 * k) by (nonlinear_arith)
        requires
            pattern.len() == 10,
    ;
    assert(!fits(ins[i + last], pattern[0]));
    lemma_not_at(ins, i + last, pattern);
    lemma_repeats(ins, i + 3 * msg + 3, pattern, k);
    let ev = op_pattern(OP_EQUALVERIFY);
    assert forall|m: int| 0 <= m < ev.len() implies #[trigger] fits(
        ins[i + 3 * msg + 10 * ck - 7 + m],
        ev[m],
    ) by {}
}

/// What stands at `i` when the finale starts there and ends the script.
proof fn lemma_finale_at(ins: Seq<Ins>, i: int, msg: nat, ck: nat)
    requires
        1 <= msg,
        1 <= ck,
        MAX_DIGIT * msg < 0x8000_0000,
        0 <= i,
        ins.len() == i + finale_ins(msg, ck).len(),
        forall|m: int|
            0 <= m < finale_ins(msg, ck).len() ==> #[trigger] ins[i + m] == read_back(
                finale_ins(msg, ck)[m],
            ),
    ensures
        i < ins.len(),
        gadget_at(ins, i) == (GadgetView::WotsFinale { msg, ck }, ins.len() as int),
{
    lemma_sum_repeats(ins, i, msg, ck);
    lemma_shift_repeats(ins, i, msg, ck);
    lemma_small_num((MAX_DIGIT * msg) as int);
    let j = i + 3 * msg;
    let total = finale_total_pattern();
    assert forall|m: int| 0 <= m < total.len() implies #[trigger] fits(ins[j + m], total[m]) by {}
    assert(at(ins, j, total));
    assert(finale_at(ins, i) == Some(((ins.len() - i) as nat, msg, ck)));
    let head = finale_head_pattern();
    assert(fits(ins[i + 0], head[0]));
    lemma_not_at(ins, i, tied_pattern());
    lemma_not_at(ins, i, wots_step_pattern());
}

// ----- the whole verifier -----

/// The gadgets of a verifier from its `j`-th step on.
spec fn steps_from(params: WotsParams, key: Seq<Seq<u8>>, j: int) -> Seq<GadgetView> {
    let n = params.total();
    Seq::new(
        (n - j) as nat,
        |k: int| GadgetView::WotsStep { pk: key[n - 1 - j - k], tied: None },
    ).push(
        GadgetView::WotsFinale {
            msg: params.message_digits as nat,
            ck: params.checksum_digits as nat,
        },
    )
}

proof fn lemma_steps_from(params: WotsParams, key: Seq<Seq<u8>>, j: int)
    requires
        params.message_digits >= 1,
        params.checksum_digits >= 1,
        MAX_DIGIT * params.message_digits < 0x8000_0000,
        params.total() <= key.len(),
        forall|i: int| 0 <= i < params.total() ==> (#[trigger] key[i]).len() == 20,
        0 <= j <= params.total(),
    ensures
        gadgets_from(read_back_all(wots_verify_ins(Seq::empty(), params, key)), 49 * j)
            == steps_from(params, key, j),
    decreases params.total() - j,
{
    let n = params.total();
    let msg = params.message_digits as nat;
    let ck = params.checksum_digits as nat;
    let e = Seq::<Ins>::empty();
    let script = wots_verify_ins(e, params, key);
    let ins = read_back_all(script);
    let digits = digits_verify_ins(e, key, n, n);
    let f = finale_ins(msg, ck);
    lemma_digits_place(key, n, n, 0, 0);
    assert(script =~= digits + f) by {
        let k = (msg - 1) as nat;
        lemma_sum_append(digits, k);
        let total = sum_ins(e, k).push(Ins::Int((MAX_DIGIT * msg) as int)).push(Ins::Op(OP_ADD));
        assert(sum_ins(digits, k).push(Ins::Int((MAX_DIGIT * msg) as int)).push(Ins::Op(OP_ADD))
            =~= digits + total);
        lemma_checksum_append(digits + total, (ck - 1) as nat);
        lemma_checksum_append(total, (ck - 1) as nat);
    }
    if j == n {
        assert forall|m: int| 0 <= m < f.len() implies #[trigger] ins[49 * j + m] == read_back(
            f[m],
        ) by {}
        lemma_finale_at(ins, 49 * j, msg, ck);
        assert(gadgets_from(ins, ins.len() as int) =~= Seq::<GadgetView>::empty());
        assert(gadgets_from(ins, 49 * j) =~= steps_from(params, key, j));
    } else {
        let own = key[n - 1 - j];
        assert forall|m: int| 0 <= m < 49 implies #[trigger] ins[49 * j + m] == read_back(
            digit_ins(own)[m],
        ) by {
            lemma_digits_place(key, n, n, j, m);
        }
        lemma_digit_at(ins, 49 * j, own);
        lemma_steps_from(params, key, j + 1);
        assert(steps_from(params, key, j) =~= seq![
            GadgetView::WotsStep { pk: own, tied: None },
        ] + steps_from(params, key, j + 1));
    }
}

/// A Winternitz verifier reads back as one step for each digit, the last digit
/// first, and the finale that closes them.
pub proof fn law_wots_verify_recognised(params: WotsParams, key: Seq<Seq<u8>>)
    requires
        params.message_digits >= 1,
        params.checksum_digits >= 1,
        MAX_DIGIT * params.message_digits < 0x8000_0000,
        params.total() <= key.len(),
        forall|i: int| 0 <= i < params.total() ==> (#[trigger] key[i]).len() == 20,
    ensures
        gadgets_from(read_back_all(wots_verify_ins(Seq::empty(), params, key)), 0) == Seq::new(
            params.total(),
            |k: int| GadgetView::WotsStep { pk: key[params.total() - 1 - k], tied: None },
        ).push(
            GadgetView::WotsFinale {
                msg: params.message_digits as nat,
                ck: params.checksum_digits as nat,
            },
        ),
{
    lemma_steps_from(params, key, 0);
    assert(steps_from(params, key, 0) =~= Seq::new(
        params.total(),
        |k: int| GadgetView::WotsStep { pk: key[params.total() - 1 - k], tied: None },
    ).push(
        GadgetView::WotsFinale {
            msg: params.message_digits as nat,
            ck: params.checksum_digits as nat,
        },
    ));
}

} // verus!
