//! What holds of games on a proof-of-stake venue: the slots, their deadlines, the
//! flags, and the evidence.

use vstd::prelude::*;

use crate::decode::report_laws::{hex_value, law_hex_text};
use crate::harness::pos::{PosPlan, PosWorld, SealError, SealedEntry};
use crate::harness::pos_game::{
    first_difference, first_flags, flags_in, graph_spec, labels_of, open_error, spend_row, vsize_sum,
    Flag, OpenError, OpenFacts, PosGame, Spend, Suite,
};
use crate::harness::pos_labels::{absent_text, disproof_spec, outcome_text};
use crate::harness::text::{decimal_text, has_prefix};
use crate::harness::mover;

verus! {

// ----- moves and sealed entries -----

/// The party on turn plays the move scripted for its turn, as long as the game is open
/// and its nine moves are not made.
pub proof fn law_scripted_move_is_published(w: PosWorld)
    ensures
        ({
            let b = w.brains@[if w.depth % 2 == 0 {
                0int
            } else {
                1int
            }];
            let turn = w.depth as int / 2;
            &&& w.publish_spec() == PosPlan::Nothing <==> !w.board.open || w.depth >= 9
            &&& w.board.open && w.depth < 9 && turn < b.moves@.len() ==> w.publish_spec() == (
            PosPlan::Move { cell: b.moves@[turn] })
            &&& w.board.open && w.depth < 9 && turn >= b.moves@.len() ==> w.publish_spec()
                == PosPlan::NoMove
        }),
{
}

/// Whether a sealed entry is the one that was handed in, for this slot and by the
/// slot's mover.
pub open spec fn as_meant(slot: u32, sealed: SealedEntry) -> bool {
    sealed.same && (sealed.decoded matches Some(e) && e.depth == slot && e.mover == (if slot % 2
        == 1 {
        0u8
    } else {
        1u8
    }))
}

/// A sealed entry is taken exactly when it is the one that was handed in, its
/// signature opens and its move is legal; else the first of these that fails is named.
pub proof fn law_sealed_entries(slot: u32, sealed: SealedEntry)
    ensures
        PosWorld::seal_error(slot, sealed) is None <==> as_meant(slot, sealed) && sealed.opens
            && sealed.next is Some,
        sealed.decoded is None ==> PosWorld::seal_error(slot, sealed) == Some(
            SealError::Undecodable,
        ),
        sealed.decoded is Some && !as_meant(slot, sealed) ==> PosWorld::seal_error(slot, sealed)
            == Some(SealError::Mismatch),
        as_meant(slot, sealed) && !sealed.opens ==> PosWorld::seal_error(slot, sealed) == Some(
            SealError::BadSignature,
        ),
        as_meant(slot, sealed) && sealed.opens && sealed.next is None ==> PosWorld::seal_error(
            slot,
            sealed,
        ) == Some(SealError::Illegal),
{
}

// ----- opening -----

/// A game is opened exactly when both sides merged the same keys, the funding mined
/// one block, the graph is complete and, for chess, the threshold is the majority of
/// the five members; else the first of these that fails is named.
pub proof fn law_games_are_opened(suite: Suite, f: OpenFacts)
    ensures
        ({
            let roster = suite == Suite::TicTacToe || f.threshold == 3 && f.members == 5;
            let funded = f.funded_height - f.height == 1;
            let wired = f.graph_len == (if suite == Suite::Chess {
                129int
            } else {
                282int
            });
            &&& open_error(suite, f) is None <==> roster && f.keys_agree && funded && wired
            &&& !roster ==> open_error(suite, f) == Some(OpenError::Roster)
            &&& roster && !f.keys_agree ==> open_error(suite, f) == Some(OpenError::KeysDiffer)
            &&& roster && f.keys_agree && !funded ==> open_error(suite, f) == Some(
                OpenError::Funding,
            )
            &&& roster && f.keys_agree && funded && !wired ==> open_error(suite, f) == Some(
                OpenError::Graph,
            )
        }),
        graph_spec(Suite::TicTacToe) == 282,
        graph_spec(Suite::Chess) == 129,
{
}

// ----- deadlines and flags -----

/// A slot is to be flagged exactly when it was due, its deadline, a block after its
/// own, has come, no entry was sealed in it and it is not flagged yet.
pub proof fn law_flags_are_due(g: PosGame, slot: u32, h: u32)
    ensures
        g.passed(slot, h) <==> slot < g.next_slot && h >= g.btc_open + slot + 1,
        g.flag_due(slot, h) <==> {
            &&& 1 <= slot < g.next_slot
            &&& h >= g.btc_open + slot + 1
            &&& !g.flagged@.contains(slot)
            &&& !(g.sealed@.contains_key(slot) && !g.sealed@[slot])
        },
{
}

/// The slots that a tick flags are those that are due, each once, in order.
pub proof fn law_slots_due(g: PosGame, h: u32, n: u32)
    ensures
        forall|s: u32| #[trigger]
            g.due_below(h, n).contains(s) <==> s < n && g.flag_due(s, h),
        forall|i: int, j: int|
            0 <= i < j < g.due_below(h, n).len() ==> #[trigger] g.due_below(h, n)[i]
                < #[trigger] g.due_below(h, n)[j],
    decreases n,
{
    if n > 0 {
        let m = (n - 1) as u32;
        law_slots_due(g, h, m);
        let before = g.due_below(h, m);
        let all = g.due_below(h, n);
        assert forall|s: u32| #[trigger] all.contains(s) <==> s < n && g.flag_due(s, h) by {
            assert(before.contains(s) <==> s < m && g.flag_due(s, h));
            if g.flag_due(m, h) {
                assert(all[before.len() as int] == m);
                if before.contains(s) {
                    let k = choose|k: int| 0 <= k < before.len() && before[k] == s;
                    assert(all[k] == s);
                }
                if all.contains(s) {
                    let k = choose|k: int| 0 <= k < all.len() && all[k] == s;
                    if k < before.len() {
                        assert(before[k] == s);
                    }
                }
            }
        }
        assert forall|i: int, j: int| 0 <= i < j < all.len() implies #[trigger] all[i]
            < #[trigger] all[j] by {
            if j < before.len() {
                assert(before[i] < before[j]);
            } else {
                assert(before.contains(before[i]));
            }
        }
    }
}

/// The flags of two groups of members together are the flags of the groups; a member
/// counts once it has published.
pub proof fn law_flags_are_counted(a: Seq<Flag>, b: Seq<Flag>, flag: Flag)
    ensures
        flags_in(a + b) == flags_in(a) + flags_in(b),
        flags_in(seq![flag]) == if flag is Some {
            1nat
        } else {
            0nat
        },
        flags_in(a) <= a.len(),
    decreases b.len(), a.len(),
{
    reveal_with_fuel(flags_in, 2);
    assert(seq![flag].drop_last() =~= Seq::<Flag>::empty());
    if a.len() > 0 {
        law_flags_are_counted(a.drop_last(), Seq::empty(), flag);
    }
    if b.len() == 0 {
        assert(a + b =~= a);
    } else {
        law_flags_are_counted(a, b.drop_last(), flag);
        assert((a + b).drop_last() =~= a + b.drop_last());
        assert((a + b).last() == b.last());
    }
}

/// A claimant who collected only the first `n` flags holds the flags of the first `n`
/// members that published, in their places, and no others: `n` of them, or all.
pub proof fn law_first_flags(flags: Seq<Flag>, n: nat, i: int)
    requires
        0 <= i < flags.len(),
    ensures
        first_flags(flags, n).len() == flags.len(),
        first_flags(flags, n)[i] == flags[i] || first_flags(flags, n)[i] is None,
        flags[i] is Some ==> (first_flags(flags, n)[i] is Some <==> flags_in(flags.take(i)) < n),
        flags_in(first_flags(flags, n)) == if flags_in(flags) < n {
            flags_in(flags)
        } else {
            n
        },
{
    lemma_first_flags_counted(flags, n, flags.len() as int);
    assert(first_flags(flags, n).take(flags.len() as int) =~= first_flags(flags, n));
    assert(flags.take(flags.len() as int) =~= flags);
}

proof fn lemma_first_flags_counted(flags: Seq<Flag>, n: nat, k: int)
    requires
        0 <= k <= flags.len(),
    ensures
        flags_in(first_flags(flags, n).take(k)) == if flags_in(flags.take(k)) < n {
            flags_in(flags.take(k))
        } else {
            n
        },
    decreases k,
{
    if k > 0 {
        lemma_first_flags_counted(flags, n, k - 1);
        let held = first_flags(flags, n);
        assert(held.take(k).drop_last() =~= held.take(k - 1));
        assert(flags.take(k).drop_last() =~= flags.take(k - 1));
        assert(held.take(k).last() == held[k - 1]);
        assert(flags.take(k).last() == flags[k - 1]);
    }
}

/// Two states first differ where all bits before agree and the bits themselves do not;
/// at their end if they are the same.
pub proof fn law_first_difference(a: Seq<bool>, b: Seq<bool>, k: int)
    requires
        a.len() == b.len(),
        0 <= k <= a.len(),
        forall|j: int| 0 <= j < k ==> a[j] == b[j],
        k < a.len() ==> a[k] != b[k],
    ensures
        first_difference(a, b, 0) == k,
{
    lemma_difference_from(a, b, 0, k);
}

proof fn lemma_difference_from(a: Seq<bool>, b: Seq<bool>, i: int, k: int)
    requires
        a.len() == b.len(),
        0 <= i <= k <= a.len(),
        forall|j: int| 0 <= j < k ==> a[j] == b[j],
        k < a.len() ==> a[k] != b[k],
    ensures
        first_difference(a, b, i) == k,
    decreases k - i,
{
    if i < k {
        assert(a[i] == b[i]);
        lemma_difference_from(a, b, i + 1, k);
    }
}

// ----- what was broadcast -----

/// The sizes of two records together are the size of both one after the other.
pub proof fn law_sizes_add_up(a: Seq<Spend>, b: Seq<Spend>, tx: Spend)
    ensures
        vsize_sum(a + b) == vsize_sum(a) + vsize_sum(b),
        vsize_sum(seq![tx]) == tx.vsize,
    decreases b.len(),
{
    reveal_with_fuel(vsize_sum, 2);
    assert(seq![tx].drop_last() =~= Seq::<Spend>::empty());
    if b.len() == 0 {
        assert(a + b =~= a);
    } else {
        law_sizes_add_up(a, b.drop_last(), tx);
        assert((a + b).drop_last() =~= a + b.drop_last());
        assert((a + b).last() == b.last());
    }
}

/// The labels are those of the transactions, in order.
pub proof fn law_labels(seen: Seq<Spend>, i: int)
    requires
        0 <= i < seen.len(),
    ensures
        labels_of(seen).len() == seen.len(),
        labels_of(seen)[i] == seen[i].label@,
{
}

/// A transaction stands in a report with its height, its label, its broadcaster's name
/// and its id in hexadecimal, the last byte first.
pub proof fn law_spend_row(tx: Spend, i: int)
    requires
        0 <= i < 32,
    ensures
        spend_row(tx).height == tx.height,
        spend_row(tx).role == tx.label@,
        spend_row(tx).by == (if tx.by is User {
            "user"@
        } else {
            "hub"@
        }),
        spend_row(tx).txid.len() == 64,
        hex_value(spend_row(tx).txid[2 * i]) * 16 + hex_value(spend_row(tx).txid[2 * i + 1])
            == tx.txid@[31 - i],
{
    law_hex_text(tx.txid@.reverse(), i);
}

// ----- labels -----

/// The label of an absence claim tells its depth, and the names of the three outcomes
/// differ.
pub proof fn law_labels_tell(d: u32, code: u8)
    ensures
        has_prefix(absent_text(d), "absent_"@),
        absent_text(d).skip("absent_"@.len() as int) == decimal_text(d as nat),
        outcome_text(0) == "UserWins"@,
        outcome_text(1) == "HubWins"@,
        code >= 2 ==> outcome_text(code) == "Draw"@,
        outcome_text(0) != outcome_text(1),
        outcome_text(1) != outcome_text(2),
        outcome_text(0) != outcome_text(2),
{
    assert(absent_text(d).take("absent_"@.len() as int) =~= "absent_"@);
    assert(absent_text(d).skip("absent_"@.len() as int) =~= decimal_text(d as nat));
    reveal_strlit("UserWins");
    reveal_strlit("HubWins");
    reveal_strlit("Draw");
    assert("UserWins"@.len() == 8 && "HubWins"@.len() == 7 && "Draw"@.len() == 4);
}

/// A leaf is spent exactly when one fires, and it is one that fires: the preferred one
/// whenever it does, and the first one otherwise.
pub proof fn law_chosen_disproof(firing: Seq<Seq<char>>, prefer: Seq<char>)
    ensures
        disproof_spec(firing, prefer) is Some <==> firing.len() > 0,
        disproof_spec(firing, prefer) matches Some(name) ==> firing.contains(name),
        firing.contains(prefer) ==> disproof_spec(firing, prefer) == Some(prefer),
        firing.len() > 0 && !firing.contains(prefer) ==> disproof_spec(firing, prefer) == Some(
            firing[0],
        ),
{
}

} // verus!
