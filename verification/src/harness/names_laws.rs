//! What the hub and the users of the anchored registry do, in terms of the receipts
//! issued and of what is anchored.

use vstd::prelude::*;

use crate::harness::names::{
    law_slots_differ, omitted_spec, sale_legs, slot_text, Forked, HubChange, HubRefusal, Moved,
    NamesWorld, OpenPlan, Opened, Outpoint, ReceiptRefusal, ReceiptRow,
};

verus! {

/// The hub accepts a payment that a user opens exactly when the hub locks nothing into
/// it, whatever the user locks.
pub proof fn law_payments_lock_nothing_of_the_hub(w: NamesWorld, stakes: [u64; 2])
    ensures
        w.hub_spec(false, HubChange::Open { opened: Opened::Payment, stakes }) is Ok <==> stakes@[1]
            == 0,
        stakes@[1] != 0 ==> w.hub_spec(
            false,
            HubChange::Open { opened: Opened::Payment, stakes },
        ) == Err::<(), HubRefusal>(HubRefusal::Locked),
{
}

/// The hub accepts the buyer's payment of any sale.
pub proof fn law_sale_is_accepted(
    w: NamesWorld,
    h_sale: u32,
    legs: [OpenPlan; 2],
    stakes: [u64; 2],
)
    requires
        call_ensures(sale_legs, (h_sale,), legs),
        stakes@[0] == legs@[0].user_stake && stakes@[1] == legs@[0].hub_stake,
    ensures
        w.hub_spec(false, HubChange::Open { opened: Opened::Payment, stakes }) is Ok,
{
}

/// The hub accepts a bond exactly when it issued a receipt for the request, the bond
/// has the receipt's shape, the user has no stake in it and the hub's is no larger
/// than a bond.
pub proof fn law_bonds_follow_receipts(
    w: NamesWorld,
    req_id: u32,
    shape: Vec<u8>,
    stakes: [u64; 2],
)
    ensures
        w.hub_spec(
            false,
            HubChange::Open { opened: Opened::Registration { req_id, shape }, stakes },
        ) is Ok <==> {
            &&& w.issued@.contains_key(req_id)
            &&& w.issued@[req_id]@ == shape@
            &&& stakes@[0] == 0
            &&& stakes@[1] <= 40_000
        },
        !w.issued@.contains_key(req_id) ==> w.hub_spec(
            false,
            HubChange::Open { opened: Opened::Registration { req_id, shape }, stakes },
        ) == Err::<(), HubRefusal>(HubRefusal::NoReceipt(req_id)),
        ({
            let own = w.issued@[req_id]@ == shape@;
            let small = stakes@[0] == 0 && stakes@[1] <= 40_000;
            w.issued@.contains_key(req_id) && !(own && small) ==> w.hub_spec(
                false,
                HubChange::Open { opened: Opened::Registration { req_id, shape }, stakes },
            ) == Err::<(), HubRefusal>(
                if own {
                    HubRefusal::BondTerms
                } else {
                    HubRefusal::Mismatch
                },
            )
        }),
{
}

/// The hub refuses the first move of a bond exactly when it can prove that the request
/// in the bond's slot is anchored; it agrees to any other move of a contract that is
/// there and can be read.
pub proof fn law_provable_claims_are_refused(w: NamesWorld, req_id: u32, slot: String, id: u32)
    requires
        slot@ == slot_text(id),
    ensures
        w.hub_spec(
            false,
            HubChange::Move { moved: Moved::Registration { req_id, slot, state: 0 } },
        ) == if w.included@.contains(id) {
            Err::<(), HubRefusal>(HubRefusal::CanProve(req_id))
        } else {
            Ok::<(), HubRefusal>(())
        },
        forall|state: u32|
            state != 0 ==> #[trigger] w.hub_spec(
                false,
                HubChange::Move { moved: Moved::Registration { req_id, slot, state } },
            ) is Ok,
        w.hub_spec(false, HubChange::Move { moved: Moved::Other }) is Ok,
        w.hub_spec(false, HubChange::Other) is Ok,
        w.hub_spec(false, HubChange::Move { moved: Moved::Missing }) == Err::<(), HubRefusal>(
            HubRefusal::NoContract,
        ),
        w.hub_spec(false, HubChange::Move { moved: Moved::Unreadable }) == Err::<(), HubRefusal>(
            HubRefusal::Unreadable,
        ),
{
    assert forall|k: u32| #[trigger] slot_text(k) == slot@ implies k == id by {
        law_slots_differ(k, id);
    }
}

/// A slot that is no request's is never included.
pub proof fn law_foreign_slots_are_not_included(w: NamesWorld, slot: Seq<char>)
    requires
        forall|id: u32| #[trigger] slot_text(id) != slot,
    ensures
        !w.slot_included(slot),
{
}

/// The hub opens nothing that it does not know or cannot read, and nothing at all
/// against a veto.
pub proof fn law_unknown_and_vetoed_changes_are_refused(
    w: NamesWorld,
    change: HubChange,
    stakes: [u64; 2],
)
    ensures
        w.hub_spec(true, change) == Err::<(), HubRefusal>(HubRefusal::Veto),
        w.hub_spec(false, HubChange::Open { opened: Opened::Unknown, stakes }) == Err::<
            (),
            HubRefusal,
        >(HubRefusal::UnknownProgram),
        w.hub_spec(false, HubChange::Open { opened: Opened::Unreadable, stakes }) == Err::<
            (),
            HubRefusal,
        >(HubRefusal::Unreadable),
{
}

/// An untouched bond is claimed from its height on, and not before, as long as the
/// entry is not anchored, and folded as soon as it is. A claim is answered once the
/// hub has its proof, and the answer refuted once a heavier chain is served.
pub proof fn law_bonds_in_time(w: NamesWorld, req_id: u32, height: u32, d_receipt: u32, state: u32)
    ensures
        w.user_moves_spec(req_id, 0, height, d_receipt) <==> d_receipt <= height
            && !w.anchored@.contains(req_id),
        w.user_moves_spec(req_id, 2, height, d_receipt) <==> w.refuted@.contains(req_id),
        state != 0 && state != 2 ==> !w.user_moves_spec(req_id, state, height, d_receipt),
        w.user_folds_spec(req_id, 0) <==> w.anchored@.contains(req_id),
        state != 0 ==> !w.user_folds_spec(req_id, state),
        w.hub_moves_spec(req_id, 1) <==> w.included@.contains(req_id),
        state != 1 ==> !w.hub_moves_spec(req_id, state),
{
}

/// A user trusts a receipt exactly when it names the tip of the anchors, by
/// transaction and by output; where the anchors form no chain, no receipt is trusted.
pub proof fn law_receipts_name_the_tip(prev: Outpoint, tip: Outpoint)
    ensures
        NamesWorld::tip_spec(prev, Some(tip)) is Ok <==> prev.txid@ == tip.txid@ && prev.vout
            == tip.vout,
        NamesWorld::tip_spec(prev, Some(tip)) is Err ==> NamesWorld::tip_spec(prev, Some(tip))
            == Err::<(), ReceiptRefusal>(ReceiptRefusal::WrongTip),
        NamesWorld::tip_spec(prev, None) == Err::<(), ReceiptRefusal>(ReceiptRefusal::BrokenChain),
{
}

/// Alice reveals once: after her commit is anchored, and not before.
pub proof fn law_reveal_follows_the_commit(w: NamesWorld, id: u32, sent: NamesWorld)
    requires
        sent.reveal_sent,
    ensures
        w.registering && !w.reveal_sent && w.commit_req == Some(id) ==> (w.reveal_spec()
            <==> w.anchored@.contains(id)),
        w.reveal_spec() ==> w.registering && w.commit_req is Some,
        !sent.reveal_spec(),
{
}

/// A refutation is due exactly when the real chain has passed the fork's tip and it is
/// not served yet; once due, it stays due while the chain grows.
pub proof fn law_refutation_needs_a_longer_chain(w: NamesWorld, f: Forked, h: u32, later: u32)
    requires
        h <= later,
    ensures
        w.refutation_spec(f, h) <==> !w.refuted@.contains(f.req_id) && h > f.receipt_height
            + f.n_headers,
        w.refutation_spec(f, h) ==> w.refutation_spec(f, later),
{
}

/// A request is among those left out exactly when some row promises it for the height
/// and is not anchored.
pub proof fn law_omitted_requests(rows: Seq<ReceiptRow>, h: u32, id: u32)
    ensures
        omitted_spec(rows, h).contains(id) <==> exists|i: int|
            0 <= i < rows.len() && (#[trigger] rows[i]).promised_height == h && !rows[i].anchored
                && rows[i].req_id == id,
        omitted_spec(rows, h).len() <= rows.len(),
    decreases rows.len(),
{
    if rows.len() > 0 {
        let front = rows.drop_last();
        let last = rows.last();
        law_omitted_requests(front, h, id);
        let a = omitted_spec(front, h);
        let b = omitted_spec(rows, h);
        assert(forall|i: int| 0 <= i < front.len() ==> front[i] == rows[i]);
        assert(rows[rows.len() - 1] == last);
        if last.promised_height == h && !last.anchored {
            assert(b == a.push(last.req_id));
            assert(b[a.len() as int] == last.req_id);
            if a.contains(id) {
                let k = choose|k: int| 0 <= k < a.len() && a[k] == id;
                assert(b[k] == id);
            }
            if b.contains(id) {
                let k = choose|k: int| 0 <= k < b.len() && b[k] == id;
                if k < a.len() {
                    assert(a[k] == id);
                }
            }
        }
        if exists|i: int|
            0 <= i < front.len() && (#[trigger] front[i]).promised_height == h
                && !front[i].anchored && front[i].req_id == id {
            let i = choose|i: int|
                0 <= i < front.len() && (#[trigger] front[i]).promised_height == h
                    && !front[i].anchored && front[i].req_id == id;
            assert(rows[i].promised_height == h && !rows[i].anchored && rows[i].req_id == id);
        }
        if exists|i: int|
            0 <= i < rows.len() && (#[trigger] rows[i]).promised_height == h && !rows[i].anchored
                && rows[i].req_id == id {
            let i = choose|i: int|
                0 <= i < rows.len() && (#[trigger] rows[i]).promised_height == h
                    && !rows[i].anchored && rows[i].req_id == id;
            if i < front.len() {
                assert(front[i].promised_height == h && !front[i].anchored && front[i].req_id
                    == id);
            }
        }
    }
}

/// The requests left out stand in the order of the rows, each row once.
pub proof fn law_omitted_in_order(a: Seq<ReceiptRow>, b: Seq<ReceiptRow>, row: ReceiptRow, h: u32)
    ensures
        omitted_spec(a + b, h) == omitted_spec(a, h) + omitted_spec(b, h),
        omitted_spec(seq![row], h) == if row.promised_height == h && !row.anchored {
            seq![row.req_id]
        } else {
            Seq::<u32>::empty()
        },
    decreases b.len(),
{
    reveal_with_fuel(omitted_spec, 2);
    assert(seq![row].drop_last() =~= Seq::<ReceiptRow>::empty());
    if b.len() == 0 {
        assert(a + b =~= a);
        assert(omitted_spec(a, h) + omitted_spec(b, h) =~= omitted_spec(a, h));
    } else {
        law_omitted_in_order(a, b.drop_last(), row, h);
        assert((a + b).drop_last() =~= a + b.drop_last());
        assert((a + b).last() == b.last());
        assert(omitted_spec(a + b, h) =~= omitted_spec(a, h) + omitted_spec(b, h));
    }
}

} // verus!
