//! What a harness's record says: who broadcast what, which transactions count, and how
//! they are reported.

use vstd::prelude::*;

use crate::decode::report_laws::{hex_value, law_hex_text};
use crate::harness::ledger::{
    after_funding, broadcast_role, by_height, contract_roles, fees_account, first_leaf, heights_of,
    is_disproof_leaf, is_kind, law_by_height_ordered, narrative_lines, of_kind, of_no_kind,
    party_roles, place_of, recorded_block, recorded_tx, report_row, report_rows, role_allowed,
    row_views, seen_views, settled_spec, tx_line, without_repeats, Broadcast, ReportTx,
    ReportTxView, SeenTx, SeenView, Summary, TxKind, TxidBytes,
};
use crate::harness::text::{decimal_text, has_prefix, views};
use crate::harness::text_laws::{law_after_last, law_prefix};
use crate::harness::Role;

verus! {

// ----- recording -----

/// Whether a transaction is in a party's list of broadcasts.
pub open spec fn was_broadcast(list: Seq<Broadcast>, txid: Seq<u8>) -> bool {
    exists|i: int| 0 <= i < list.len() && (#[trigger] list[i]).txid@ == txid
}

/// A transaction has the role of its first broadcast, and none if it was not
/// broadcast.
pub proof fn law_first_broadcast_names_the_role(list: Seq<Broadcast>, txid: Seq<u8>, k: int)
    requires
        0 <= k <= list.len(),
        forall|j: int| 0 <= j < k ==> (#[trigger] list[j]).txid@ != txid,
        k < list.len() ==> list[k].txid@ == txid,
    ensures
        broadcast_role(list, txid) == if k < list.len() {
            Some(list[k].role@)
        } else {
            None
        },
    decreases list.len(),
{
    if list.len() > 0 && k > 0 {
        assert(list[0].txid@ != txid);
        let rest = list.skip(1);
        assert forall|j: int| 0 <= j < k - 1 implies (#[trigger] rest[j]).txid@ != txid by {
            assert(list[j + 1].txid@ != txid);
        }
        law_first_broadcast_names_the_role(rest, txid, k - 1);
    }
}

proof fn lemma_broadcast_or_not(list: Seq<Broadcast>, txid: Seq<u8>)
    ensures
        broadcast_role(list, txid) is Some <==> was_broadcast(list, txid),
    decreases list.len(),
{
    if list.len() > 0 {
        let rest = list.skip(1);
        lemma_broadcast_or_not(rest, txid);
        if was_broadcast(rest, txid) {
            let i = choose|i: int| 0 <= i < rest.len() && (#[trigger] rest[i]).txid@ == txid;
            assert(list[i + 1].txid@ == txid);
        }
        if was_broadcast(list, txid) && list[0].txid@ != txid {
            let i = choose|i: int| 0 <= i < list.len() && (#[trigger] list[i]).txid@ == txid;
            assert(rest[i - 1].txid@ == txid);
        }
    }
}

/// A confirmed transaction is the user's if the user broadcast it, the hub's if only
/// the hub did, and external if neither did; its height and id are those of the block.
pub proof fn law_transactions_are_attributed(
    height: u32,
    txid: Seq<u8>,
    user: Seq<Broadcast>,
    hub: Seq<Broadcast>,
)
    ensures
        ({
            let tx = recorded_tx(height, txid, user, hub);
            &&& tx.height == height && tx.txid == txid
            &&& tx.by == Some(Role::User) <==> was_broadcast(user, txid)
            &&& tx.by == Some(Role::Hub) <==> !was_broadcast(user, txid) && was_broadcast(hub, txid)
            &&& tx.by is None <==> !was_broadcast(user, txid) && !was_broadcast(hub, txid)
            &&& tx.by is None ==> tx.role == "external"@
            &&& tx.by == Some(Role::User) ==> broadcast_role(user, txid) == Some(tx.role)
            &&& tx.by == Some(Role::Hub) ==> broadcast_role(hub, txid) == Some(tx.role)
        }),
{
    lemma_broadcast_or_not(user, txid);
    lemma_broadcast_or_not(hub, txid);
}

/// A block adds its transactions in their order, each but the coinbase.
pub proof fn law_blocks_are_recorded(
    height: u32,
    txids: Seq<TxidBytes>,
    user: Seq<Broadcast>,
    hub: Seq<Broadcast>,
    i: int,
)
    requires
        1 <= i < txids.len(),
    ensures
        recorded_block(height, txids, user, hub).len() == txids.len() - 1,
        recorded_block(height, txids, user, hub)[i - 1] == recorded_tx(
            height,
            txids[i]@,
            user,
            hub,
        ),
        recorded_block(height, Seq::empty(), user, hub).len() == 0,
{
}

/// The record as a mathematical value is the record, entry by entry.
pub proof fn law_record_views(seen: Seq<SeenTx>, rows: Seq<ReportTx>, i: int)
    ensures
        seen_views(seen).len() == seen.len(),
        row_views(rows).len() == rows.len(),
        0 <= i < seen.len() ==> seen_views(seen)[i].height == seen[i].height && seen_views(
            seen,
        )[i].txid == seen[i].txid@ && seen_views(seen)[i].role == seen[i].role@ && seen_views(
            seen,
        )[i].by == seen[i].by,
        0 <= i < rows.len() ==> row_views(rows)[i].height == rows[i].height && row_views(
            rows,
        )[i].txid == rows[i].txid@ && row_views(rows)[i].role == rows[i].role@ && row_views(
            rows,
        )[i].by == rows[i].by@,
{
}

// ----- which transactions count -----

/// The parties' roles of a record are those of its parts, one after the other; a
/// transaction counts when a party broadcast it.
pub proof fn law_party_roles(a: Seq<SeenView>, b: Seq<SeenView>, tx: SeenView)
    ensures
        party_roles(a + b) == party_roles(a) + party_roles(b),
        party_roles(seq![tx]) == if tx.by is Some {
            seq![tx.role]
        } else {
            Seq::<Seq<char>>::empty()
        },
    decreases b.len(),
{
    reveal_with_fuel(party_roles, 2);
    assert(seq![tx].drop_last() =~= Seq::<SeenView>::empty());
    if b.len() == 0 {
        assert(a + b =~= a);
        assert(party_roles(a) + party_roles(b) =~= party_roles(a));
    } else {
        law_party_roles(a, b.drop_last(), tx);
        assert((a + b).drop_last() =~= a + b.drop_last());
        assert((a + b).last() == b.last());
        assert(party_roles(a + b) =~= party_roles(a) + party_roles(b));
    }
}

/// The roles after the funding of a record are those of its parts, one after the
/// other; every transaction counts but the funding.
pub proof fn law_after_funding(a: Seq<SeenView>, b: Seq<SeenView>, tx: SeenView)
    ensures
        after_funding(a + b) == after_funding(a) + after_funding(b),
        after_funding(seq![tx]) == if tx.role == "funding"@ {
            Seq::<Seq<char>>::empty()
        } else {
            seq![tx.role]
        },
    decreases b.len(),
{
    reveal_with_fuel(after_funding, 2);
    assert(seq![tx].drop_last() =~= Seq::<SeenView>::empty());
    if b.len() == 0 {
        assert(a + b =~= a);
        assert(after_funding(a) + after_funding(b) =~= after_funding(a));
    } else {
        law_after_funding(a, b.drop_last(), tx);
        assert((a + b).drop_last() =~= a + b.drop_last());
        assert((a + b).last() == b.last());
        assert(after_funding(a + b) =~= after_funding(a) + after_funding(b));
    }
}

/// The heights of a role in a record are those in its parts, one after the other.
pub proof fn law_heights_of(a: Seq<SeenView>, b: Seq<SeenView>, tx: SeenView, role: Seq<char>)
    ensures
        heights_of(a + b, role) == heights_of(a, role) + heights_of(b, role),
        heights_of(seq![tx], role) == if tx.role == role {
            seq![tx.height]
        } else {
            Seq::<u32>::empty()
        },
    decreases b.len(),
{
    reveal_with_fuel(heights_of, 2);
    assert(seq![tx].drop_last() =~= Seq::<SeenView>::empty());
    if b.len() == 0 {
        assert(a + b =~= a);
        assert(heights_of(a, role) + heights_of(b, role) =~= heights_of(a, role));
    } else {
        law_heights_of(a, b.drop_last(), tx, role);
        assert((a + b).drop_last() =~= a + b.drop_last());
        assert((a + b).last() == b.last());
        assert(heights_of(a + b, role) =~= heights_of(a, role) + heights_of(b, role));
    }
}

proof fn lemma_filter_one(r: Seq<char>, pred: spec_fn(Seq<char>) -> bool)
    ensures
        seq![r].filter(pred) == if pred(r) {
            seq![r]
        } else {
            Seq::<Seq<char>>::empty()
        },
{
    reveal_with_fuel(Seq::filter, 2);
    assert(seq![r].drop_last() =~= Seq::<Seq<char>>::empty());
    assert(Seq::<Seq<char>>::empty().push(r) =~= seq![r]);
}

/// The roles of a kind are selected one by one, and so are those of none of the kinds
/// that a summary counts.
pub proof fn law_roles_are_selected(
    a: Seq<Seq<char>>,
    b: Seq<Seq<char>>,
    r: Seq<char>,
    kind: TxKind,
)
    ensures
        of_kind(a + b, kind) == of_kind(a, kind) + of_kind(b, kind),
        of_kind(seq![r], kind) == if is_kind(r, kind) {
            seq![r]
        } else {
            Seq::<Seq<char>>::empty()
        },
        of_no_kind(a + b, kind) == of_no_kind(a, kind) + of_no_kind(b, kind),
        of_no_kind(seq![r], kind) == if is_kind(r, kind) || is_kind(r, TxKind::Commitment)
            || is_kind(r, TxKind::Split) || is_kind(r, TxKind::Disproof) {
            Seq::<Seq<char>>::empty()
        } else {
            seq![r]
        },
{
    broadcast use Seq::filter_distributes_over_add;

    lemma_filter_one(r, |r: Seq<char>| is_kind(r, kind));
    lemma_filter_one(
        r,
        |r: Seq<char>|
            !is_kind(r, TxKind::Commitment) && !is_kind(r, kind) && !is_kind(r, TxKind::Split)
                && !is_kind(r, TxKind::Disproof),
    );
}

/// The roles that touch the contract are the parties' that are no balance sweeps.
pub proof fn law_contract_roles(a: Seq<SeenView>, b: Seq<SeenView>, tx: SeenView)
    ensures
        contract_roles(a + b) == contract_roles(a) + contract_roles(b),
        contract_roles(seq![tx]) == if tx.by is Some && !is_kind(tx.role, TxKind::BalanceSweep) {
            seq![tx.role]
        } else {
            Seq::<Seq<char>>::empty()
        },
{
    broadcast use Seq::filter_distributes_over_add;

    law_party_roles(a, b, tx);
    lemma_filter_one(tx.role, |r: Seq<char>| !is_kind(r, TxKind::BalanceSweep));
    if tx.by is None {
        reveal(Seq::filter);
    }
}

/// A summary counts the commitments, and lists the main kind, the splits, the
/// disproofs and the rest, each role where it belongs.
pub proof fn law_summary(s: Summary, roles: Seq<Seq<char>>, main: TxKind, i: int)
    requires
        s.describes(roles, main),
        0 <= i < roles.len(),
    ensures
        ({
            let r = roles[i];
            &&& is_kind(r, TxKind::Commitment) ==> s.commitments >= 1
            &&& is_kind(r, main) <==> views(s.main@).contains(r)
            &&& is_kind(r, TxKind::Split) <==> views(s.splits@).contains(r)
            &&& is_kind(r, TxKind::Disproof) <==> views(s.disproofs@).contains(r)
            &&& !is_kind(r, TxKind::Commitment) && !is_kind(r, main) && !is_kind(r, TxKind::Split)
                && !is_kind(r, TxKind::Disproof) <==> views(s.other@).contains(r)
        }),
        s.commitments == of_kind(roles, TxKind::Commitment).len(),
{
    broadcast use Seq::lemma_filter_pred, Seq::lemma_filter_contains;

    let r = roles[i];
    if is_kind(r, TxKind::Commitment) {
        assert(of_kind(roles, TxKind::Commitment).contains(r));
    }
}

/// A dispute is settled once a split or a disproof is among its roles.
pub proof fn law_settled(roles: Seq<Seq<char>>, r: Seq<char>)
    ensures
        !settled_spec(Seq::<Seq<char>>::empty()),
        settled_spec(roles.push(r)) <==> settled_spec(roles) || is_kind(r, TxKind::Split)
            || is_kind(r, TxKind::Disproof),
{
    let all = roles.push(r);
    let n = roles.len() as int;
    assert(all[n] == r);
    if settled_spec(roles) {
        let i = choose|i: int|
            0 <= i < roles.len() && (is_kind(#[trigger] roles[i], TxKind::Split) || is_kind(
                roles[i],
                TxKind::Disproof,
            ));
        assert(all[i] == roles[i]);
    }
    if settled_spec(all) {
        let i = choose|i: int|
            0 <= i < all.len() && (is_kind(#[trigger] all[i], TxKind::Split) || is_kind(
                all[i],
                TxKind::Disproof,
            ));
        if i < n {
            assert(all[i] == roles[i]);
        }
    }
}

// ----- kinds -----

/// The text that a kind's roles start with: the whole role, or its last piece.
pub open spec fn kind_text(kind: TxKind) -> Seq<char> {
    match kind {
        TxKind::Commitment => "commitment_"@,
        TxKind::Move => "move_"@,
        TxKind::Claim => "stall_"@,
        TxKind::Split => "split_"@,
        TxKind::Disproof => "disprove_"@,
        TxKind::BalanceSweep => "claim_to_"@,
    }
}

/// A role that starts with its kind's text is of the kind, whatever follows in the
/// same piece; a move and a split may stand in a piece of their own behind any others.
pub proof fn law_roles_tell_their_kind(kind: TxKind, front: Seq<char>, rest: Seq<char>)
    requires
        !rest.contains('/'),
    ensures
        is_kind(kind_text(kind) + rest, kind),
        is_kind("lie_"@ + rest, TxKind::Claim),
        is_kind("sig_"@ + rest, TxKind::Claim),
        kind is Move || kind is Split ==> is_kind(front.push('/') + (kind_text(kind) + rest), kind),
        !is_kind(front.push('/') + rest, TxKind::Claim),
{
    reveal_strlit("commitment_");
    reveal_strlit("move_");
    reveal_strlit("stall_");
    reveal_strlit("lie_");
    reveal_strlit("sig_");
    reveal_strlit("split_");
    reveal_strlit("disprove_");
    reveal_strlit("claim_to_");
    let role = kind_text(kind) + rest;
    law_prefix(role, kind_text(kind), rest);
    law_prefix("lie_"@ + rest, "lie_"@, rest);
    law_prefix("sig_"@ + rest, "sig_"@, rest);
    assert forall|j: int| 0 <= j < rest.len() implies #[trigger] rest[j] != '/' by {
        assert(rest.contains(rest[j]));
    }
    assert(forall|j: int| 0 <= j < role.len() ==> #[trigger] role[j] != '/');
    law_after_last(front, '/', role);
    let lie = "lie_"@ + rest;
    let sig = "sig_"@ + rest;
    assert(forall|j: int| 0 <= j < lie.len() ==> #[trigger] lie[j] != '/');
    assert(forall|j: int| 0 <= j < sig.len() ==> #[trigger] sig[j] != '/');
    let deep = front.push('/') + rest;
    assert(deep[front.len() as int] == '/');
}

/// A role in one piece is of a kind only if it starts with the kind's text; so no such
/// role is of two of the kinds.
pub proof fn law_kinds_exclude_each_other(role: Seq<char>, a: TxKind, b: TxKind)
    requires
        !role.contains('/'),
        a != b,
    ensures
        a !is Claim ==> (is_kind(role, a) <==> has_prefix(role, kind_text(a))),
        is_kind(role, TxKind::Claim) <==> has_prefix(role, "stall_"@) || has_prefix(role, "lie_"@)
            || has_prefix(role, "sig_"@),
        !(is_kind(role, a) && is_kind(role, b)),
{
    reveal_strlit("commitment_");
    reveal_strlit("move_");
    reveal_strlit("stall_");
    reveal_strlit("lie_");
    reveal_strlit("sig_");
    reveal_strlit("split_");
    reveal_strlit("disprove_");
    reveal_strlit("claim_to_");
    assert forall|j: int| 0 <= j < role.len() implies #[trigger] role[j] != '/' by {
        assert(role.contains(role[j]));
    }
    law_after_last(Seq::empty(), '/', role);
    lemma_starts(role, "commitment_"@);
    lemma_starts(role, "move_"@);
    lemma_starts(role, "stall_"@);
    lemma_starts(role, "lie_"@);
    lemma_starts(role, "sig_"@);
    lemma_starts(role, "split_"@);
    lemma_starts(role, "disprove_"@);
    lemma_starts(role, "claim_to_"@);
}

proof fn lemma_starts(role: Seq<char>, p: Seq<char>)
    requires
        p.len() >= 2,
    ensures
        has_prefix(role, p) ==> role.len() >= 2 && role[0] == p[0] && role[1] == p[1],
{
    if has_prefix(role, p) {
        assert(role.take(p.len() as int)[0] == role[0]);
        assert(role.take(p.len() as int)[1] == role[1]);
    }
}

/// How the roles of the leaves that end a bisection start.
pub open spec fn leaf_texts() -> Seq<Seq<char>> {
    seq![
        "cpred_"@,
        "simple_"@,
        "round_"@,
        "sched_"@,
        "block_"@,
        "ccopy_"@,
        "ckeep_"@,
        "re_"@,
    ]
}

/// A role is that of a leaf exactly when one of the leaves' texts, and something,
/// makes it up.
pub proof fn law_disproof_leaves(role: Seq<char>, k: int, rest: Seq<char>)
    requires
        0 <= k < 8,
    ensures
        is_disproof_leaf(leaf_texts()[k] + rest),
        is_disproof_leaf(role) ==> exists|j: int|
            0 <= j < 8 && role == #[trigger] leaf_texts()[j] + role.skip(
                leaf_texts()[j].len() as int,
            ),
{
    law_prefix(leaf_texts()[k] + rest, leaf_texts()[k], rest);
    if is_disproof_leaf(role) {
        assert(exists|j: int| 0 <= j < 8 && has_prefix(role, #[trigger] leaf_texts()[j])) by {
            let t = leaf_texts();
            assert(has_prefix(role, t[0]) || has_prefix(role, t[1]) || has_prefix(role, t[2])
                || has_prefix(role, t[3]) || has_prefix(role, t[4]) || has_prefix(role, t[5])
                || has_prefix(role, t[6]) || has_prefix(role, t[7]));
        }
        let j = choose|j: int| 0 <= j < 8 && has_prefix(role, #[trigger] leaf_texts()[j]);
        law_prefix(role, leaf_texts()[j], rest);
    }
}

/// The leaf that ended a bisection is the first one among the roles.
pub proof fn law_first_leaf(roles: Seq<Seq<char>>, k: int)
    requires
        0 <= k <= roles.len(),
        forall|j: int| 0 <= j < k ==> !is_disproof_leaf(#[trigger] roles[j]),
        k < roles.len() ==> is_disproof_leaf(roles[k]),
    ensures
        first_leaf(roles) == if k < roles.len() {
            Some(roles[k])
        } else {
            None
        },
    decreases roles.len(),
{
    if roles.len() > 0 && k > 0 {
        assert(!is_disproof_leaf(roles[0]));
        let rest = roles.skip(1);
        assert forall|j: int| 0 <= j < k - 1 implies !is_disproof_leaf(#[trigger] rest[j]) by {
            assert(rest[j] == roles[j + 1]);
        }
        law_first_leaf(rest, k - 1);
    }
}

/// How the roles start that may occur with anything behind.
pub open spec fn allowed_texts() -> Seq<Seq<char>> {
    seq![
        "disprove_"@,
        "revoke_sweep"@,
        "claim_to_"@,
        "commitment_"@,
        "move_"@,
        "split_"@,
    ]
}

/// The roles that may occur as they stand.
pub open spec fn allowed_names() -> Seq<Seq<char>> {
    seq!["settle"@, "coop_close"@, "funding"@, "external"@]
}

/// A role may occur exactly when one of the texts, and something, makes it up, or it
/// is one of the names.
pub proof fn law_allowed_roles(role: Seq<char>, k: int, rest: Seq<char>, n: int)
    requires
        0 <= k < 6,
        0 <= n < 4,
    ensures
        role_allowed(allowed_texts()[k] + rest),
        role_allowed(allowed_names()[n]),
        role_allowed(role) ==> allowed_names().contains(role) || exists|j: int|
            0 <= j < 6 && role == #[trigger] allowed_texts()[j] + role.skip(
                allowed_texts()[j].len() as int,
            ),
{
    law_prefix(allowed_texts()[k] + rest, allowed_texts()[k], rest);
    let names = allowed_names();
    if role_allowed(role) {
        if role == names[0] || role == names[1] || role == names[2] || role == names[3] {
            assert(names.contains(role));
        } else {
            let t = allowed_texts();
            assert(has_prefix(role, t[0]) || has_prefix(role, t[1]) || has_prefix(role, t[2])
                || has_prefix(role, t[3]) || has_prefix(role, t[4]) || has_prefix(role, t[5]));
            let j = choose|j: int| 0 <= j < 6 && has_prefix(role, #[trigger] allowed_texts()[j]);
            law_prefix(role, allowed_texts()[j], rest);
        }
    }
}

/// The books balance: without transactions the balances are the funding, and each
/// transaction of a party costs a thousand satoshis; others cost the parties nothing.
pub proof fn law_fees_account(seen: Seq<SeenView>, tx: SeenView, user: int, hub: int)
    ensures
        fees_account(Seq::<SeenView>::empty(), user, hub) <==> user + hub == 200_000,
        tx.by is Some ==> (fees_account(seen.push(tx), user, hub) <==> fees_account(
            seen,
            user + 1_000,
            hub,
        )),
        tx.by is None ==> (fees_account(seen.push(tx), user, hub) <==> fees_account(
            seen,
            user,
            hub,
        )),
{
    assert(seen.push(tx).drop_last() =~= seen);
    let n = party_roles(seen).len();
    assert(1_000 * (n + 1) == 1_000 * n + 1_000);
}

// ----- reports -----

/// A row of a report has the transaction's height, its role behind the channel's tag,
/// its broadcaster's name, and its id in hexadecimal, the last byte first.
pub proof fn law_report_row(tx: SeenView, tag: Seq<char>, nobody: Seq<char>, i: int)
    requires
        tx.txid.len() == 32,
        0 <= i < 32,
    ensures
        ({
            let row = report_row(tx, tag, nobody);
            &&& row.height == tx.height
            &&& row.role.len() == tag.len() + tx.role.len()
            &&& has_prefix(row.role, tag)
            &&& row.role.skip(tag.len() as int) == tx.role
            &&& row.by == match tx.by {
                Some(Role::User) => "user"@,
                Some(Role::Hub) => "hub"@,
                None => nobody,
            }
            &&& row.txid.len() == 64
            &&& hex_value(row.txid[2 * i]) * 16 + hex_value(row.txid[2 * i + 1]) == tx.txid[31 - i]
        }),
{
    let row = report_row(tx, tag, nobody);
    assert(row.role.take(tag.len() as int) =~= tag);
    assert(row.role.skip(tag.len() as int) =~= tx.role);
    law_hex_text(tx.txid.reverse(), i);
}

/// A report has a row for each transaction of the record, in its order.
pub proof fn law_report_rows(seen: Seq<SeenView>, tag: Seq<char>, nobody: Seq<char>, i: int)
    requires
        0 <= i < seen.len(),
    ensures
        report_rows(seen, tag, nobody).len() == seen.len(),
        report_rows(seen, tag, nobody)[i] == report_row(seen[i], tag, nobody),
{
}

/// The rows of one height, in their order.
pub open spec fn rows_at(rows: Seq<ReportTxView>, height: u32) -> Seq<ReportTxView> {
    rows.filter(|r: ReportTxView| r.height == height)
}

proof fn lemma_none_at(rows: Seq<ReportTxView>, height: u32)
    requires
        forall|i: int| 0 <= i < rows.len() ==> (#[trigger] rows[i]).height != height,
    ensures
        rows_at(rows, height) == Seq::<ReportTxView>::empty(),
{
    broadcast use Seq::lemma_filter_pred;

    rows.lemma_filter_len(|r: ReportTxView| r.height == height);
    let got = rows_at(rows, height);
    if got.len() > 0 {
        assert(got[0].height == height);
        lemma_filtered_is_in(rows, |r: ReportTxView| r.height == height, 0);
    }
    assert(got =~= Seq::<ReportTxView>::empty());
}

proof fn lemma_filtered_is_in(
    rows: Seq<ReportTxView>,
    pred: spec_fn(ReportTxView) -> bool,
    k: int,
)
    requires
        0 <= k < rows.filter(pred).len(),
    ensures
        exists|i: int| 0 <= i < rows.len() && #[trigger] rows[i] == rows.filter(pred)[k],
    decreases rows.len(),
{
    reveal(Seq::filter);
    if rows.len() > 0 {
        let front = rows.drop_last();
        if k < front.filter(pred).len() {
            lemma_filtered_is_in(front, pred, k);
            let i = choose|i: int|
                0 <= i < front.len() && #[trigger] front[i] == front.filter(pred)[k];
            assert(rows[i] == rows.filter(pred)[k]);
        } else {
            assert(rows[rows.len() - 1] == rows.filter(pred)[k]);
        }
    }
}

/// A row put into rows comes last of its height, if all behind it are higher.
proof fn lemma_insert_at(
    low: Seq<ReportTxView>,
    row: ReportTxView,
    high: Seq<ReportTxView>,
    height: u32,
)
    requires
        forall|i: int| 0 <= i < high.len() ==> (#[trigger] high[i]).height > row.height,
    ensures
        rows_at(low + seq![row] + high, height) == rows_at(low + high + seq![row], height),
{
    let pred = |r: ReportTxView| r.height == height;
    let one = seq![row];
    Seq::filter_distributes_over_add(low + one, high, pred);
    Seq::filter_distributes_over_add(low, one, pred);
    Seq::filter_distributes_over_add(low + high, one, pred);
    Seq::filter_distributes_over_add(low, high, pred);
    if row.height == height {
        lemma_none_at(high, height);
    } else {
        lemma_none_at(one, height);
    }
    assert(rows_at(low + one + high, height) =~= rows_at(low + high + one, height));
}

/// Whether rows stand in the order of their heights.
spec fn in_height_order(rows: Seq<ReportTxView>) -> bool {
    forall|i: int, j: int|
        0 <= i <= j < rows.len() ==> #[trigger] rows[i].height <= #[trigger] rows[j].height
}

proof fn lemma_place(sorted: Seq<ReportTxView>, height: u32)
    requires
        in_height_order(sorted),
    ensures
        place_of(sorted, height) <= sorted.len(),
        forall|i: int|
            place_of(sorted, height) <= i < sorted.len() ==> height < (#[trigger] sorted[i]).height,
    decreases sorted.len(),
{
    if sorted.len() > 0 && sorted.last().height > height {
        let head = sorted.drop_last();
        assert(forall|i: int| 0 <= i < head.len() ==> #[trigger] head[i] == sorted[i]);
        assert(in_height_order(head));
        lemma_place(head, height);
        assert forall|i: int| place_of(sorted, height) <= i < sorted.len() implies height < (
        #[trigger] sorted[i]).height by {
            if i < head.len() {
                assert(height < head[i].height);
            }
        }
    }
}

proof fn lemma_insert_row(sorted: Seq<ReportTxView>, row: ReportTxView, height: u32)
    requires
        in_height_order(sorted),
    ensures
        rows_at(sorted.insert(place_of(sorted, row.height) as int, row), height) == rows_at(
            sorted + seq![row],
            height,
        ),
{
    let k = place_of(sorted, row.height) as int;
    lemma_place(sorted, row.height);
    let low = sorted.take(k);
    let high = sorted.skip(k);
    assert forall|i: int| 0 <= i < high.len() implies (#[trigger] high[i]).height > row.height by {
        assert(high[i] == sorted[k + i]);
    }
    lemma_insert_at(low, row, high, height);
    assert(sorted =~= low + high);
    assert(sorted.insert(k, row) =~= low + seq![row] + high);
}

proof fn lemma_rows_at_push(rows: Seq<ReportTxView>, row: ReportTxView, height: u32)
    ensures
        rows_at(rows + seq![row], height) == rows_at(rows, height) + rows_at(seq![row], height),
{
    Seq::filter_distributes_over_add(rows, seq![row], |r: ReportTxView| r.height == height);
}

proof fn lemma_sorted_in_order(rows: Seq<ReportTxView>)
    ensures
        in_height_order(by_height(rows)),
{
    law_by_height_ordered(rows);
}

/// A merged report keeps the order of the rows of one height.
pub proof fn law_by_height_is_stable(rows: Seq<ReportTxView>, height: u32)
    ensures
        rows_at(by_height(rows), height) == rows_at(rows, height),
    decreases rows.len(),
{
    if rows.len() > 0 {
        let front = rows.drop_last();
        let row = rows.last();
        law_by_height_is_stable(front, height);
        lemma_sorted_in_order(front);
        lemma_insert_row(by_height(front), row, height);
        lemma_rows_at_push(by_height(front), row, height);
        lemma_rows_at_push(front, row, height);
        assert(rows =~= front + seq![row]);
    }
}

/// A row that repeats the transaction of the row before it changes nothing, wherever
/// it stands.
pub proof fn law_repeats_change_nothing(
    a: Seq<ReportTxView>,
    x: ReportTxView,
    y: ReportTxView,
    b: Seq<ReportTxView>,
)
    requires
        x.txid == y.txid,
    ensures
        without_repeats(a.push(x).push(y) + b) == without_repeats(a.push(x) + b),
    decreases b.len(),
{
    let with = a.push(x).push(y) + b;
    let sans = a.push(x) + b;
    if b.len() == 0 {
        assert(with =~= a.push(x).push(y));
        assert(sans =~= a.push(x));
        assert(a.push(x).push(y).drop_last() =~= a.push(x));
        assert(a.push(x).drop_last() =~= a);
        assert(without_repeats(a.push(x)).last().txid == x.txid);
    } else {
        law_repeats_change_nothing(a, x, y, b.drop_last());
        assert(with.drop_last() =~= a.push(x).push(y) + b.drop_last());
        assert(sans.drop_last() =~= a.push(x) + b.drop_last());
        assert(with.last() == sans.last());
    }
}

/// Rows of which no two neighbours show the same transaction stay as they are.
pub proof fn law_other_rows_are_kept(rows: Seq<ReportTxView>)
    requires
        forall|i: int| 0 < i < rows.len() ==> (#[trigger] rows[i]).txid != rows[i - 1].txid,
    ensures
        without_repeats(rows) == rows,
    decreases rows.len(),
{
    if rows.len() > 0 {
        let front = rows.drop_last();
        assert forall|i: int| 0 < i < front.len() implies (#[trigger] front[i]).txid != front[i
            - 1].txid by {
            assert(rows[i].txid != rows[i - 1].txid);
        }
        law_other_rows_are_kept(front);
        assert(front.push(rows.last()) =~= rows);
        if front.len() > 0 {
            assert(rows[rows.len() - 1].txid != rows[rows.len() - 2].txid);
        }
    }
}

// ----- narratives -----

/// The line of a transaction starts with its block and its role, ends with its
/// broadcaster, and has its id between them.
pub proof fn law_tx_line(tx: SeenView)
    ensures
        ({
            let head = "block "@ + decimal_text(tx.height as nat) + ": "@ + tx.role + " "@;
            let who = match tx.by {
                Some(Role::User) => " (user)"@,
                Some(Role::Hub) => " (hub)"@,
                None => " (harness)"@,
            };
            let n = head.len() as int;
            let line = tx_line(tx);
            &&& has_prefix(line, head)
            &&& line.len() == head.len() + 2 * tx.txid.len() + who.len()
            &&& line.skip(n + 2 * tx.txid.len()) == who
            &&& forall|i: int|
                0 <= i < tx.txid.len() ==> hex_value(#[trigger] line[n + 2 * i]) * 16 + hex_value(
                    line[n + 2 * i + 1],
                ) == tx.txid[tx.txid.len() - 1 - i]
        }),
{
    reveal_strlit(" (user)");
    reveal_strlit(" (hub)");
    reveal_strlit(" (harness)");
    reveal_strlit(" (");
    reveal_strlit(")");
    reveal_strlit("user");
    reveal_strlit("hub");
    reveal_strlit("harness");
    let head = "block "@ + decimal_text(tx.height as nat) + ": "@ + tx.role + " "@;
    let who = match tx.by {
        Some(Role::User) => " (user)"@,
        Some(Role::Hub) => " (hub)"@,
        None => " (harness)"@,
    };
    let id = crate::decode::text::hex_text(tx.txid.reverse());
    let line = tx_line(tx);
    if tx.txid.len() > 0 {
        law_hex_text(tx.txid.reverse(), 0);
    }
    assert(id.len() == 2 * tx.txid.len());
    assert(line =~= head + id + who);
    assert(line.take(head.len() as int) =~= head);
    assert(line.skip(head.len() + 2 * tx.txid.len() as int) =~= who);
    assert forall|i: int| 0 <= i < tx.txid.len() implies hex_value(
        #[trigger] line[head.len() + 2 * i],
    ) * 16 + hex_value(line[head.len() + 2 * i + 1]) == tx.txid[tx.txid.len() - 1 - i] by {
        law_hex_text(tx.txid.reverse(), i);
        assert(line[head.len() + 2 * i] == id[2 * i]);
        assert(line[head.len() + 2 * i + 1] == id[2 * i + 1]);
    }
}

/// A narrative has a heading, a line for each transaction seen, a heading, all that
/// the user tells, a heading, and all that the hub tells.
pub proof fn law_narrative(
    seen: Seq<SeenView>,
    user: Seq<Seq<char>>,
    hub: Seq<Seq<char>>,
    i: int,
)
    ensures
        ({
            let lines = narrative_lines(seen, user, hub);
            let n = seen.len() as int;
            let u = user.len() as int;
            &&& lines.len() == n + u + hub.len() + 3
            &&& lines[0] == "--- on-chain ---"@
            &&& lines[n + 1] == "--- user ---"@
            &&& lines[n + u + 2] == "--- hub ---"@
            &&& 0 <= i < n ==> lines[1 + i] == tx_line(seen[i])
            &&& 0 <= i < u ==> lines[n + 2 + i] == user[i]
            &&& 0 <= i < hub.len() ==> lines[n + u + 3 + i] == hub[i]
        }),
{
}

} // verus!
