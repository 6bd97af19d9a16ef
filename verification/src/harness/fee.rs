//! Fee locks: a mover pays a slot's proposer for the attestation of exactly its
//! entry, atomically, in a channel.
//!
//! The user is the payer, the hub (a member's node) the payee. A lock is a channel
//! output that pays the hub if a scalar for the entry's content, plus the member's
//! proposer scalar, appears; after its expiry it returns to the user.

use std::collections::HashMap;

use vstd::prelude::*;

use crate::harness::game::same_pair;
use crate::harness::ledger::{broadcast_role, find_broadcast, Broadcast, TxidBytes};
use crate::harness::names::same_bytes;
use crate::harness::pos::member_seeds;
use crate::harness::pos_game::Spend;
use crate::harness::Role;

verus! {

broadcast use vstd::std_specs::hash::group_hash_axioms;

/// The attestation fee that the mover offers, in satoshis.
pub const FEE: u64 = 5_000;

pub const LOCK_ID: u32 = 1;

/// The slot that the user's entry is due in.
pub const SLOT: u32 = 1;

/// The hub's member: the intended proposer of the user's entry, the lock's payee.
pub const HUB_MEMBER: u32 = 1;

/// The first byte of the roster's base seed.
pub const SEED: u8 = 0x77;

/// The members of the roster.
pub const MEMBERS: u8 = 5;

pub const REGISTRY_SLOTS: u32 = 16;

/// The lock's refund height, relative to the channel's funding height.
pub const EXPIRY_AFTER: u32 = 20;

/// The seeds of the roster's members.
pub fn members() -> (seeds: Vec<[u8; 32]>)
    ensures
        seeds@.len() == MEMBERS,
        forall|i: int, j: int|
            0 <= i < MEMBERS && 0 <= j < 32 ==> #[trigger] seeds@[i]@[j] == SEED + i,
{
    member_seeds(SEED, MEMBERS)
}

/// The height from which a lock returns to its payer.
pub fn expiry(funding_height: u32) -> (h: u32)
    requires
        funding_height + EXPIRY_AFTER <= u32::MAX,
    ensures
        h == funding_height + EXPIRY_AFTER,
{
    funding_height + EXPIRY_AFTER
}

/// A fee lock of a channel's state.
pub struct Lock {
    pub payer: Role,
    pub value: u64,
    /// The point that the revealed scalar must open.
    pub point: Vec<u8>,
    /// The balances of the state in which the lock is refunded.
    pub refunded: [u64; 2],
    /// Whether the secret handed over opens the lock and the new state settles it
    /// exactly.
    pub settles: bool,
}

/// A contract of a channel's state: a fee lock, or another one.
pub struct ChannelContract {
    pub id: u32,
    pub lock: Option<Lock>,
}

/// A channel's state.
pub struct ChannelView {
    pub balances: [u64; 2],
    pub contracts: Vec<ChannelContract>,
}

/// What the payee expects a lock to be over: the slot, and the point of the head
/// that it was handed for it.
pub struct Expected {
    pub slot: u32,
    pub point: Vec<u8>,
}

/// Why a party refuses a state.
#[derive(Clone, Copy, Debug, PartialEq, Eq, Structural)]
pub enum FeeRefusal {
    /// The contract is not a fee lock.
    NotALock(u32),
    /// The lock is settled without its secret, or not exactly.
    NotSettled(u32),
    /// A refund must return exactly the lock.
    NotRefunded(u32),
    /// No entry was handed in for the lock.
    NothingHandedIn(u32),
    /// The payer or the fee is not the agreed one.
    Terms(u32),
    /// The lock is not over the head that was handed in.
    WrongHead(u32),
}

/// Whether a state has a contract of this id.
pub open spec fn has_contract(state: ChannelView, id: u32) -> bool {
    exists|i: int| 0 <= i < state.contracts@.len() && #[trigger] state.contracts@[i].id == id
}

fn holds(state: &ChannelView, id: u32) -> (r: bool)
    ensures
        r == has_contract(*state, id),
{
    for i in 0..state.contracts.len()
        invariant
            forall|j: int| 0 <= j < i ==> #[trigger] state.contracts@[j].id != id,
    {
        if state.contracts[i].id == id {
            return true;
        }
    }
    false
}

// ----- the payer -----

/// What the payer says of one removed contract: a lock is either settled, with the
/// secret that opens it, or refunded exactly.
pub open spec fn removal_error(old_state: ChannelView, new_state: ChannelView, c: ChannelContract) -> Option<
    FeeRefusal,
> {
    match c.lock {
        None => Some(FeeRefusal::NotALock(c.id)),
        Some(lock) => {
            let payee = lock.payer.opponent().place() as int;
            if new_state.balances@[payee] > old_state.balances@[payee] {
                if lock.settles {
                    None
                } else {
                    Some(FeeRefusal::NotSettled(c.id))
                }
            } else if new_state.balances@ != lock.refunded@ {
                Some(FeeRefusal::NotRefunded(c.id))
            } else {
                None
            }
        },
    }
}

/// The first objection of the payer among the first `n` contracts of the old
/// state: contracts that stay raise none.
pub open spec fn payer_error(old_state: ChannelView, new_state: ChannelView, n: int) -> Option<
    FeeRefusal,
>
    decreases n,
{
    if n <= 0 {
        None
    } else if payer_error(old_state, new_state, n - 1) is Some {
        payer_error(old_state, new_state, n - 1)
    } else if has_contract(new_state, old_state.contracts@[n - 1].id) {
        None
    } else {
        removal_error(old_state, new_state, old_state.contracts@[n - 1])
    }
}

/// The payer accepts a lock's removal only as a settlement that it was handed the
/// secret for, or as its own refund.
pub fn payer_policy(old_state: &ChannelView, new_state: &ChannelView) -> (r: Result<
    (),
    FeeRefusal,
>)
    ensures
        r == (match payer_error(
            *old_state,
            *new_state,
            old_state.contracts@.len() as int,
        ) {
            Some(e) => Err(e),
            None => Ok(()),
        }),
{
    let n: usize = old_state.contracts.len();
    for i in 0..n
        invariant
            n == old_state.contracts@.len(),
            payer_error(*old_state, *new_state, i as int) is None,
    {
        let c: &ChannelContract = &old_state.contracts[i];
        if !holds(new_state, c.id) {
            let refusal: Option<FeeRefusal> = match &c.lock {
                None => Some(FeeRefusal::NotALock(c.id)),
                Some(lock) => {
                    let payee: usize = lock.payer.other().idx();
                    if new_state.balances[payee] > old_state.balances[payee] {
                        if lock.settles {
                            None
                        } else {
                            Some(FeeRefusal::NotSettled(c.id))
                        }
                    } else if !same_pair(&new_state.balances, &lock.refunded) {
                        Some(FeeRefusal::NotRefunded(c.id))
                    } else {
                        None
                    }
                },
            };
            assert(refusal == removal_error(*old_state, *new_state, *c));
            if let Some(e) = refusal {
                proof {
                    lemma_payer_error_stays(*old_state, *new_state, i + 1, n as int);
                }
                return Err(e);
            }
        }
    }
    Ok(())
}

proof fn lemma_payer_error_stays(old_state: ChannelView, new_state: ChannelView, i: int, n: int)
    requires
        i <= n,
        payer_error(old_state, new_state, i) is Some,
    ensures
        payer_error(old_state, new_state, n) == payer_error(old_state, new_state, i),
    decreases n - i,
{
    if i < n {
        lemma_payer_error_stays(old_state, new_state, i, n - 1);
    }
}

// ----- the payee -----

/// What the payee says of one added contract: a lock over the head that it was
/// handed, of the agreed fee, paid by the user.
pub open spec fn addition_error(expected: Map<u32, Expected>, c: ChannelContract) -> Option<
    FeeRefusal,
> {
    match c.lock {
        None => Some(FeeRefusal::NotALock(c.id)),
        Some(lock) => if !expected.contains_key(c.id) {
            Some(FeeRefusal::NothingHandedIn(c.id))
        } else if !(lock.payer == Role::User && lock.value == FEE) {
            Some(FeeRefusal::Terms(c.id))
        } else if lock.point@ != expected[c.id].point@ {
            Some(FeeRefusal::WrongHead(c.id))
        } else {
            None
        },
    }
}

/// The first objection of the payee among the first `n` contracts of the new
/// state: contracts that were there raise none.
pub open spec fn payee_error(
    expected: Map<u32, Expected>,
    old_state: ChannelView,
    new_state: ChannelView,
    n: int,
) -> Option<FeeRefusal>
    decreases n,
{
    if n <= 0 {
        None
    } else if payee_error(expected, old_state, new_state, n - 1) is Some {
        payee_error(expected, old_state, new_state, n - 1)
    } else if has_contract(old_state, new_state.contracts@[n - 1].id) {
        None
    } else {
        addition_error(expected, new_state.contracts@[n - 1])
    }
}

/// The payee accepts a lock only over the head that it was handed for its slot.
pub fn payee_policy(
    expected: &HashMap<u32, Expected>,
    old_state: &ChannelView,
    new_state: &ChannelView,
) -> (r: Result<(), FeeRefusal>)
    ensures
        r == (match payee_error(
            expected@,
            *old_state,
            *new_state,
            new_state.contracts@.len() as int,
        ) {
            Some(e) => Err(e),
            None => Ok(()),
        }),
{
    let n: usize = new_state.contracts.len();
    for i in 0..n
        invariant
            n == new_state.contracts@.len(),
            payee_error(expected@, *old_state, *new_state, i as int) is None,
    {
        let c: &ChannelContract = &new_state.contracts[i];
        if !holds(old_state, c.id) {
            let refusal: Option<FeeRefusal> = match &c.lock {
                None => Some(FeeRefusal::NotALock(c.id)),
                Some(lock) => match expected.get(&c.id) {
                    None => Some(FeeRefusal::NothingHandedIn(c.id)),
                    Some(e) => if !(lock.payer == Role::User && lock.value == FEE) {
                        Some(FeeRefusal::Terms(c.id))
                    } else if !same_bytes(lock.point.as_slice(), e.point.as_slice()) {
                        Some(FeeRefusal::WrongHead(c.id))
                    } else {
                        None
                    },
                },
            };
            assert(refusal == addition_error(expected@, *c));
            if let Some(e) = refusal {
                proof {
                    lemma_payee_error_stays(expected@, *old_state, *new_state, i + 1, n as int);
                }
                return Err(e);
            }
        }
    }
    Ok(())
}

proof fn lemma_payee_error_stays(
    expected: Map<u32, Expected>,
    old_state: ChannelView,
    new_state: ChannelView,
    i: int,
    n: int,
)
    requires
        i <= n,
        payee_error(expected, old_state, new_state, i) is Some,
    ensures
        payee_error(expected, old_state, new_state, n) == payee_error(
            expected,
            old_state,
            new_state,
            i,
        ),
    decreases n - i,
{
    if i < n {
        lemma_payee_error_stays(expected, old_state, new_state, i, n - 1);
    }
}

// ----- the venue's record -----

/// A sealed block: its proposer and its head.
#[derive(Clone, Copy, Debug)]
pub struct SealedHead {
    pub proposer: u32,
    pub head: [u8; 48],
}

/// Whether the venue's record bears a claim out: the hub's member sealed a block
/// with exactly the user's head at the slot. If not, the member took a fee for an
/// attestation that it did not make.
pub fn claim_consistent(sealed: Option<SealedHead>, head: &[u8; 48]) -> (r: bool)
    ensures
        r == (sealed matches Some(b) && b.proposer == HUB_MEMBER && b.head@ == head@),
{
    match sealed {
        Some(b) => b.proposer == HUB_MEMBER && same_bytes(b.head.as_slice(), head.as_slice()),
        None => false,
    }
}

/// The slot that is sealed next, when so many are.
pub fn slot_after(sealed: usize) -> (slot: u32)
    requires
        sealed < u32::MAX,
    ensures
        slot == sealed + 1,
{
    sealed as u32 + 1
}

/// A transaction of a block, with its size.
#[derive(Clone, Copy, Debug)]
pub struct BlockTx {
    pub txid: TxidBytes,
    pub vsize: u32,
}

/// A transaction that was broadcast, as a mathematical value.
pub struct SpendView {
    pub height: u32,
    pub label: Seq<char>,
    pub txid: Seq<u8>,
    pub by: Role,
    pub vsize: u32,
}

/// The views of broadcast transactions.
pub open spec fn spend_views(seen: Seq<Spend>) -> Seq<SpendView> {
    Seq::new(
        seen.len(),
        |i: int|
            SpendView {
                height: seen[i].height,
                label: seen[i].label@,
                txid: seen[i].txid@,
                by: seen[i].by,
                vsize: seen[i].vsize,
            },
    )
}

/// The record of one confirmed transaction, if a party broadcast it: the user's
/// broadcasts are looked through first.
pub open spec fn spend_of(
    height: u32,
    tx: BlockTx,
    user: Seq<Broadcast>,
    hub: Seq<Broadcast>,
) -> Option<SpendView> {
    match broadcast_role(user, tx.txid@) {
        Some(label) => Some(
            SpendView { height, label, txid: tx.txid@, by: Role::User, vsize: tx.vsize },
        ),
        None => match broadcast_role(hub, tx.txid@) {
            Some(label) => Some(
                SpendView { height, label, txid: tx.txid@, by: Role::Hub, vsize: tx.vsize },
            ),
            None => None,
        },
    }
}

/// The records of a block's transactions from the second to the `n`-th.
pub open spec fn spends_of(
    height: u32,
    txs: Seq<BlockTx>,
    user: Seq<Broadcast>,
    hub: Seq<Broadcast>,
    n: int,
) -> Seq<SpendView>
    decreases n,
{
    if n <= 1 {
        Seq::empty()
    } else {
        match spend_of(height, txs[n - 1], user, hub) {
            Some(s) => spends_of(height, txs, user, hub, n - 1).push(s),
            None => spends_of(height, txs, user, hub, n - 1),
        }
    }
}

/// Record a block: each transaction but the coinbase that a party broadcast.
pub fn advance(
    seen: &mut Vec<Spend>,
    height: u32,
    txs: &[BlockTx],
    user: &[Broadcast],
    hub: &[Broadcast],
)
    ensures
        spend_views(final(seen)@) == spend_views(old(seen)@) + spends_of(
            height,
            txs@,
            user@,
            hub@,
            txs@.len() as int,
        ),
{
    let ghost before = spend_views(seen@);
    assert(before + spends_of(height, txs@, user@, hub@, 0) =~= before);
    assert(spends_of(height, txs@, user@, hub@, 1) =~= Seq::<SpendView>::empty());
    assert(before + spends_of(height, txs@, user@, hub@, 1) =~= before);
    let n: usize = txs.len();
    if n == 0 {
        return;
    }
    for i in 1..n
        invariant
            n == txs@.len(),
            spend_views(seen@) == before + spends_of(height, txs@, user@, hub@, i as int),
    {
        let tx: BlockTx = txs[i];
        let found: Option<(String, Role)> = match find_broadcast(user, &tx.txid) {
            Some(label) => Some((label, Role::User)),
            None => match find_broadcast(hub, &tx.txid) {
                Some(label) => Some((label, Role::Hub)),
                None => None,
            },
        };
        let ghost held = seen@;
        if let Some((label, by)) = found {
            let spend = Spend { height, label, txid: tx.txid, by, vsize: tx.vsize };
            seen.push(spend);
            let ghost s = spend_of(height, tx, user@, hub@)->0;
            assert(spend_views(seen@) =~= spend_views(held).push(s));
            assert(before + spends_of(height, txs@, user@, hub@, i as int).push(s) =~= (before
                + spends_of(height, txs@, user@, hub@, i as int)).push(s));
        }
    }
}

// ----- laws -----

/// A state that keeps all contracts and adds none is refused by neither side.
pub proof fn law_unchanged_contracts_are_accepted(
    expected: Map<u32, Expected>,
    old_state: ChannelView,
    new_state: ChannelView,
    n: int,
)
    requires
        forall|i: int|
            0 <= i < old_state.contracts@.len() ==> has_contract(
                new_state,
                (#[trigger] old_state.contracts@[i]).id,
            ),
        forall|i: int|
            0 <= i < new_state.contracts@.len() ==> has_contract(
                old_state,
                (#[trigger] new_state.contracts@[i]).id,
            ),
    ensures
        n <= old_state.contracts@.len() ==> payer_error(old_state, new_state, n) is None,
        n <= new_state.contracts@.len() ==> payee_error(expected, old_state, new_state, n) is None,
    decreases n,
{
    if n > 0 {
        law_unchanged_contracts_are_accepted(expected, old_state, new_state, n - 1);
        if n <= old_state.contracts@.len() {
            assert(has_contract(new_state, old_state.contracts@[n - 1].id));
        }
        if n <= new_state.contracts@.len() {
            assert(has_contract(old_state, new_state.contracts@[n - 1].id));
        }
    }
}

/// The payer never lets the payee's balance grow by a removed lock without the
/// secret that opens it.
pub proof fn law_no_payment_without_secret(old_state: ChannelView, new_state: ChannelView, i: int)
    requires
        payer_error(old_state, new_state, old_state.contracts@.len() as int) is None,
        0 <= i < old_state.contracts@.len(),
        !has_contract(new_state, old_state.contracts@[i].id),
    ensures
        old_state.contracts@[i].lock matches Some(lock) && (lock.settles || new_state.balances@
            == lock.refunded@),
{
    lemma_payer_checks_all(old_state, new_state, i, old_state.contracts@.len() as int);
}

proof fn lemma_payer_checks_all(old_state: ChannelView, new_state: ChannelView, i: int, n: int)
    requires
        0 <= i < n <= old_state.contracts@.len(),
        payer_error(old_state, new_state, n) is None,
        !has_contract(new_state, old_state.contracts@[i].id),
    ensures
        removal_error(old_state, new_state, old_state.contracts@[i]) is None,
    decreases n,
{
    if i < n - 1 {
        lemma_payer_checks_all(old_state, new_state, i, n - 1);
    }
}

} // verus!
