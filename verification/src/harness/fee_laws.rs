//! What the two sides of a fee lock accept, and what is recorded of their broadcasts.

use vstd::prelude::*;

use crate::harness::fee::{
    has_contract, payee_error, payer_error, spend_of, spend_views, spends_of, BlockTx,
    ChannelContract, ChannelView, Expected, FeeRefusal,
};
use crate::harness::ledger::{broadcast_role, Broadcast};
use crate::harness::ledger_laws::{law_transactions_are_attributed, was_broadcast};
use crate::harness::pos_game::Spend;

verus! {

/// A contract is in a state exactly when one of the state's contracts has its id.
pub proof fn law_has_contract(state: ChannelView, more: ChannelView, c: ChannelContract, id: u32)
    requires
        more.contracts@ == state.contracts@.push(c),
    ensures
        has_contract(more, id) <==> has_contract(state, id) || c.id == id,
        state.contracts@.len() == 0 ==> !has_contract(state, id),
{
    let n = state.contracts@.len() as int;
    assert(more.contracts@[n] == c);
    if has_contract(state, id) {
        let i = choose|i: int| 0 <= i < n && #[trigger] state.contracts@[i].id == id;
        assert(more.contracts@[i].id == id);
    }
    if has_contract(more, id) {
        let i = choose|i: int| 0 <= i <= n && #[trigger] more.contracts@[i].id == id;
        if i < n {
            assert(state.contracts@[i].id == id);
        }
    }
}

/// Whether a contract may be removed: it is a lock, and either its payee gains and the
/// secret that opens it was handed over, or its payee gains nothing and the balances
/// are those of the refund.
pub open spec fn may_go(before: ChannelView, after: ChannelView, c: ChannelContract) -> bool {
    c.lock matches Some(lock) && {
        let payee = if lock.payer is User {
            1int
        } else {
            0int
        };
        if after.balances@[payee] > before.balances@[payee] {
            lock.settles
        } else {
            after.balances@[0] == lock.refunded@[0] && after.balances@[1] == lock.refunded@[1]
        }
    }
}

/// The payer accepts a state exactly when every contract that is gone may go.
pub proof fn law_payer_accepts(before: ChannelView, after: ChannelView, n: int)
    requires
        0 <= n <= before.contracts@.len(),
    ensures
        payer_error(before, after, n) is None <==> forall|i: int|
            0 <= i < n ==> has_contract(after, (#[trigger] before.contracts@[i]).id) || may_go(
                before,
                after,
                before.contracts@[i],
            ),
    decreases n,
{
    if n > 0 {
        law_payer_accepts(before, after, n - 1);
        let c = before.contracts@[n - 1];
        if let Some(lock) = c.lock {
            if after.balances@[0] == lock.refunded@[0] && after.balances@[1] == lock.refunded@[1] {
                assert(after.balances@ =~= lock.refunded@);
            }
        }
    }
}

/// The payer objects to the first contract that is gone and may not go, and says what
/// is wrong with it.
pub proof fn law_payer_objects(before: ChannelView, after: ChannelView, k: int, n: int)
    requires
        0 <= k < n <= before.contracts@.len(),
        payer_error(before, after, k) is None,
        !has_contract(after, before.contracts@[k].id),
        !may_go(before, after, before.contracts@[k]),
    ensures
        ({
            let c = before.contracts@[k];
            let said = payer_error(before, after, n);
            &&& c.lock is None ==> said == Some(FeeRefusal::NotALock(c.id))
            &&& c.lock matches Some(lock) ==> {
                let payee = if lock.payer is User {
                    1int
                } else {
                    0int
                };
                said == if after.balances@[payee] > before.balances@[payee] {
                    Some(FeeRefusal::NotSettled(c.id))
                } else {
                    Some(FeeRefusal::NotRefunded(c.id))
                }
            }
        }),
    decreases n,
{
    if k < n - 1 {
        law_payer_objects(before, after, k, n - 1);
    } else {
        let c = before.contracts@[k];
        if let Some(lock) = c.lock {
            if after.balances@[0] == lock.refunded@[0] && after.balances@[1] == lock.refunded@[1] {
                assert(after.balances@ =~= lock.refunded@);
            }
        }
    }
}

/// Whether a contract may be added: it is a lock of five thousand satoshis that the
/// user pays, over the head that was handed in for it.
pub open spec fn may_come(expected: Map<u32, Expected>, c: ChannelContract) -> bool {
    c.lock matches Some(lock) && lock.payer is User && lock.value == 5_000
        && expected.contains_key(c.id) && expected[c.id].point@ == lock.point@
}

/// The payee accepts a state exactly when every new contract may come.
pub proof fn law_payee_accepts(
    expected: Map<u32, Expected>,
    before: ChannelView,
    after: ChannelView,
    n: int,
)
    requires
        0 <= n <= after.contracts@.len(),
    ensures
        payee_error(expected, before, after, n) is None <==> forall|i: int|
            0 <= i < n ==> has_contract(before, (#[trigger] after.contracts@[i]).id) || may_come(
                expected,
                after.contracts@[i],
            ),
    decreases n,
{
    if n > 0 {
        law_payee_accepts(expected, before, after, n - 1);
    }
}

/// The payee objects to the first new contract that may not come, and says what is
/// wrong with it.
pub proof fn law_payee_objects(
    expected: Map<u32, Expected>,
    before: ChannelView,
    after: ChannelView,
    k: int,
    n: int,
)
    requires
        0 <= k < n <= after.contracts@.len(),
        payee_error(expected, before, after, k) is None,
        !has_contract(before, after.contracts@[k].id),
        !may_come(expected, after.contracts@[k]),
    ensures
        ({
            let c = after.contracts@[k];
            let said = payee_error(expected, before, after, n);
            &&& c.lock is None ==> said == Some(FeeRefusal::NotALock(c.id))
            &&& c.lock is Some && !expected.contains_key(c.id) ==> said == Some(
                FeeRefusal::NothingHandedIn(c.id),
            )
            &&& c.lock is Some && expected.contains_key(c.id) && expected[c.id].point@
                == (c.lock->0).point@ ==> said == Some(FeeRefusal::Terms(c.id))
            &&& c.lock is Some && expected.contains_key(c.id) && (c.lock->0).payer is User && (
            c.lock->0).value == 5_000 ==> said == Some(FeeRefusal::WrongHead(c.id))
        }),
    decreases n,
{
    if k < n - 1 {
        law_payee_objects(expected, before, after, k, n - 1);
    }
}

/// A transaction is recorded when a party broadcast it: under the label of that
/// broadcast, the user's before the hub's, with the block's height and its size.
pub proof fn law_spends_are_attributed(
    height: u32,
    tx: BlockTx,
    user: Seq<Broadcast>,
    hub: Seq<Broadcast>,
)
    ensures
        spend_of(height, tx, user, hub) is Some <==> was_broadcast(user, tx.txid@) || was_broadcast(
            hub,
            tx.txid@,
        ),
        spend_of(height, tx, user, hub) matches Some(s) ==> {
            &&& s.height == height && s.txid == tx.txid@ && s.vsize == tx.vsize
            &&& s.by is User <==> was_broadcast(user, tx.txid@)
            &&& s.by is User ==> broadcast_role(user, tx.txid@) == Some(s.label)
            &&& s.by is Hub ==> broadcast_role(hub, tx.txid@) == Some(s.label)
        },
{
    law_transactions_are_attributed(height, tx.txid@, user, hub);
}

proof fn lemma_spends_extend(
    height: u32,
    a: Seq<BlockTx>,
    b: Seq<BlockTx>,
    user: Seq<Broadcast>,
    hub: Seq<Broadcast>,
    n: int,
)
    requires
        n <= a.len(),
        n <= b.len(),
        forall|i: int| 0 <= i < n ==> a[i] == b[i],
    ensures
        spends_of(height, a, user, hub, n) == spends_of(height, b, user, hub, n),
    decreases n,
{
    if n > 1 {
        lemma_spends_extend(height, a, b, user, hub, n - 1);
    }
}

/// A block's transactions are recorded one by one, but for the coinbase: one more adds
/// its own record, if it has one, behind the others.
pub proof fn law_spends_one_by_one(
    height: u32,
    txs: Seq<BlockTx>,
    tx: BlockTx,
    user: Seq<Broadcast>,
    hub: Seq<Broadcast>,
)
    ensures
        ({
            let before = spends_of(height, txs, user, hub, txs.len() as int);
            let after = spends_of(height, txs.push(tx), user, hub, txs.len() + 1int);
            if txs.len() == 0 {
                before.len() == 0 && after.len() == 0
            } else {
                match spend_of(height, tx, user, hub) {
                    Some(s) => after == before.push(s),
                    None => after == before,
                }
            }
        }),
{
    lemma_spends_extend(height, txs, txs.push(tx), user, hub, txs.len() as int);
}

/// The record as a mathematical value is the record, entry by entry.
pub proof fn law_spend_views(seen: Seq<Spend>, i: int)
    requires
        0 <= i < seen.len(),
    ensures
        spend_views(seen).len() == seen.len(),
        spend_views(seen)[i].height == seen[i].height,
        spend_views(seen)[i].label == seen[i].label@,
        spend_views(seen)[i].txid == seen[i].txid@,
        spend_views(seen)[i].by == seen[i].by,
        spend_views(seen)[i].vsize == seen[i].vsize,
{
}

} // verus!
