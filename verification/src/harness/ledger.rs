//! What a harness saw on the chain, and what can be said of it.

use vstd::prelude::*;
use vstd::string::StringExecFns;

use crate::decode::text::hex_text;
use crate::harness::text::{
    after_last, contains_char, decimal, decimal_text, has_prefix, join, joined, last_piece,
    starts_with, views,
};
use crate::harness::{Role, FUNDING};

verus! {

/// The fee of every transaction that a party broadcasts, in satoshis.
pub const PARTY_FEE: u64 = 1_000;

/// The id of a transaction: its hash, as the bytes stand in a transaction.
pub type TxidBytes = [u8; 32];

/// One on-chain transaction that the harness saw, with the role that the
/// broadcasting party gave it.
pub struct SeenTx {
    pub height: u32,
    pub txid: TxidBytes,
    pub role: String,
    pub by: Option<Role>,
}

/// A transaction that a party broadcast.
pub struct Broadcast {
    pub txid: TxidBytes,
    pub role: String,
}

/// A seen transaction as a mathematical value.
pub struct SeenView {
    pub height: u32,
    pub txid: Seq<u8>,
    pub role: Seq<char>,
    pub by: Option<Role>,
}

impl View for SeenTx {
    type V = SeenView;

    open spec fn view(&self) -> SeenView {
        SeenView { height: self.height, txid: self.txid@, role: self.role@, by: self.by }
    }
}

/// The views of seen transactions.
pub open spec fn seen_views(seen: Seq<SeenTx>) -> Seq<SeenView> {
    Seq::new(seen.len(), |i: int| seen[i]@)
}

/// Whether two ids are the same.
pub fn same_txid(a: &TxidBytes, b: &TxidBytes) -> (r: bool)
    ensures
        r == (a@ == b@),
{
    for i in 0..32usize
        invariant
            forall|j: int| 0 <= j < i ==> a@[j] == b@[j],
    {
        if a[i] != b[i] {
            return false;
        }
    }
    assert(a@ =~= b@);
    true
}

// ----- recording blocks -----

/// The role of the first broadcast of a transaction, if it was broadcast.
pub open spec fn broadcast_role(list: Seq<Broadcast>, txid: Seq<u8>) -> Option<Seq<char>>
    decreases list.len(),
{
    if list.len() == 0 {
        None
    } else if list[0].txid@ == txid {
        Some(list[0].role@)
    } else {
        broadcast_role(list.skip(1), txid)
    }
}

/// How a confirmed transaction is recorded: by the user if the user broadcast
/// it, else by the hub if the hub did, else as external.
pub open spec fn recorded_tx(
    height: u32,
    txid: Seq<u8>,
    user: Seq<Broadcast>,
    hub: Seq<Broadcast>,
) -> SeenView {
    match broadcast_role(user, txid) {
        Some(role) => SeenView { height, txid, role, by: Some(Role::User) },
        None => match broadcast_role(hub, txid) {
            Some(role) => SeenView { height, txid, role, by: Some(Role::Hub) },
            None => SeenView { height, txid, role: "external"@, by: None },
        },
    }
}

/// What a block adds to the record: all its transactions but the first.
pub open spec fn recorded_block(
    height: u32,
    txids: Seq<TxidBytes>,
    user: Seq<Broadcast>,
    hub: Seq<Broadcast>,
) -> Seq<SeenView> {
    Seq::new(
        if txids.len() == 0 { 0 } else { (txids.len() - 1) as nat },
        |i: int| recorded_tx(height, txids[i + 1]@, user, hub),
    )
}

pub(crate) fn find_broadcast(list: &[Broadcast], txid: &TxidBytes) -> (role: Option<String>)
    ensures
        match broadcast_role(list@, txid@) {
            Some(text) => role matches Some(r) && r@ == text,
            None => role is None,
        },
{
    assert(list@.skip(0) =~= list@);
    for i in 0..list.len()
        invariant
            broadcast_role(list@, txid@) == broadcast_role(list@.skip(i as int), txid@),
    {
        assert(list@.skip(i as int)[0] == list@[i as int]);
        assert(list@.skip(i as int).skip(1) =~= list@.skip(i + 1));
        if same_txid(&list[i].txid, txid) {
            return Some(list[i].role.clone());
        }
    }
    assert(list@.skip(list@.len() as int).len() == 0);
    None
}

/// Record a block: each transaction but the coinbase, attributed to the party
/// that broadcast it.
pub fn record_block(
    seen: &mut Vec<SeenTx>,
    height: u32,
    txids: &[TxidBytes],
    user: &[Broadcast],
    hub: &[Broadcast],
)
    ensures
        seen_views(final(seen)@) == seen_views(old(seen)@) + recorded_block(
            height,
            txids@,
            user@,
            hub@,
        ),
{
    let ghost before = seen_views(seen@);
    let ghost all = recorded_block(height, txids@, user@, hub@);
    assert(before + all.take(0) =~= before);
    if txids.len() == 0 {
        assert(all =~= all.take(0));
        return;
    }
    for i in 1..txids.len()
        invariant
            all == recorded_block(height, txids@, user@, hub@),
            seen_views(seen@) == before + all.take(i - 1),
    {
        let txid: TxidBytes = txids[i];
        let (role, by): (String, Option<Role>) = match find_broadcast(user, &txid) {
            Some(role) => (role, Some(Role::User)),
            None => match find_broadcast(hub, &txid) {
                Some(role) => (role, Some(Role::Hub)),
                None => (String::from_str("external"), None),
            },
        };
        let ghost held = seen@;
        let tx = SeenTx { height, txid, role, by };
        seen.push(tx);
        assert(tx@ == all[i - 1]);
        assert(seen_views(seen@) =~= seen_views(held).push(tx@));
        assert(all.take(i as int) =~= all.take(i - 1).push(all[i - 1]));
        assert(before + all.take(i as int) =~= (before + all.take(i - 1)).push(tx@));
    }
    assert(all.take(all.len() as int) =~= all);
}

// ----- roles -----

/// The roles of the transactions that parties broadcast, in order.
pub open spec fn party_roles(seen: Seq<SeenView>) -> Seq<Seq<char>>
    decreases seen.len(),
{
    if seen.len() == 0 {
        Seq::empty()
    } else if seen.last().by is Some {
        party_roles(seen.drop_last()).push(seen.last().role)
    } else {
        party_roles(seen.drop_last())
    }
}

/// Roles of the transactions that the parties broadcast, in order.
pub fn party_txs(seen: &[SeenTx]) -> (roles: Vec<String>)
    ensures
        views(roles@) == party_roles(seen_views(seen@)),
{
    let ghost all = seen_views(seen@);
    let mut roles: Vec<String> = Vec::new();
    assert(views(roles@) =~= party_roles(all.take(0)));
    for i in 0..seen.len()
        invariant
            all == seen_views(seen@),
            views(roles@) == party_roles(all.take(i as int)),
    {
        let ghost held = roles@;
        assert(all.take(i + 1).drop_last() =~= all.take(i as int));
        assert(all.take(i + 1).last() == seen@[i as int]@);
        if seen[i].by.is_some() {
            roles.push(seen[i].role.clone());
            assert(views(roles@) =~= views(held).push(seen@[i as int].role@));
        }
    }
    assert(all.take(all.len() as int) =~= all);
    roles
}

/// The roles of the transactions other than the funding, in order.
pub open spec fn after_funding(seen: Seq<SeenView>) -> Seq<Seq<char>>
    decreases seen.len(),
{
    if seen.len() == 0 {
        Seq::empty()
    } else if seen.last().role != "funding"@ {
        after_funding(seen.drop_last()).push(seen.last().role)
    } else {
        after_funding(seen.drop_last())
    }
}

/// Roles of the transactions confirmed after funding.
pub fn roles_seen(seen: &[SeenTx]) -> (roles: Vec<String>)
    ensures
        views(roles@) == after_funding(seen_views(seen@)),
{
    let ghost all = seen_views(seen@);
    let mut roles: Vec<String> = Vec::new();
    let funding: String = String::from_str("funding");
    assert(views(roles@) =~= after_funding(all.take(0)));
    for i in 0..seen.len()
        invariant
            all == seen_views(seen@),
            funding@ == "funding"@,
            views(roles@) == after_funding(all.take(i as int)),
    {
        let ghost held = roles@;
        assert(all.take(i + 1).drop_last() =~= all.take(i as int));
        assert(all.take(i + 1).last() == seen@[i as int]@);
        if !(seen[i].role == funding) {
            roles.push(seen[i].role.clone());
            assert(views(roles@) =~= views(held).push(seen@[i as int].role@));
        }
    }
    assert(all.take(all.len() as int) =~= all);
    roles
}

/// The heights at which transactions of a role confirmed.
pub open spec fn heights_of(seen: Seq<SeenView>, role: Seq<char>) -> Seq<u32>
    decreases seen.len(),
{
    if seen.len() == 0 {
        Seq::empty()
    } else if seen.last().role == role {
        heights_of(seen.drop_last(), role).push(seen.last().height)
    } else {
        heights_of(seen.drop_last(), role)
    }
}

/// The heights at which transactions of a role confirmed, in order.
pub fn heights(seen: &[SeenTx], role: &String) -> (hs: Vec<u32>)
    ensures
        hs@ == heights_of(seen_views(seen@), role@),
{
    let ghost all = seen_views(seen@);
    let mut hs: Vec<u32> = Vec::new();
    assert(hs@ =~= heights_of(all.take(0), role@));
    for i in 0..seen.len()
        invariant
            all == seen_views(seen@),
            hs@ == heights_of(all.take(i as int), role@),
    {
        assert(all.take(i + 1).drop_last() =~= all.take(i as int));
        assert(all.take(i + 1).last() == seen@[i as int]@);
        if seen[i].role == *role {
            hs.push(seen[i].height);
        }
    }
    assert(all.take(all.len() as int) =~= all);
    hs
}

// ----- kinds of transactions -----

/// What a role says of a transaction.
#[derive(Clone, Copy, Debug, PartialEq, Eq, Structural)]
pub enum TxKind {
    /// A commitment: `commitment_…`.
    Commitment,
    /// A move: the last piece of the role is `move_…`.
    Move,
    /// A claim on the contract output: `stall_…`, `lie_…` or `sig_…`, in one piece.
    Claim,
    /// A split: the last piece of the role is `split_…`.
    Split,
    /// A disproof: `disprove_…`.
    Disproof,
    /// A sweep of the commitment's balances: `claim_to_…`.
    BalanceSweep,
}

/// Whether a role is of a kind.
pub open spec fn is_kind(role: Seq<char>, kind: TxKind) -> bool {
    match kind {
        TxKind::Commitment => has_prefix(role, "commitment_"@),
        TxKind::Move => has_prefix(after_last(role, '/'), "move_"@),
        TxKind::Claim => !role.contains('/') && (has_prefix(role, "stall_"@) || has_prefix(
            role,
            "lie_"@,
        ) || has_prefix(role, "sig_"@)),
        TxKind::Split => has_prefix(after_last(role, '/'), "split_"@),
        TxKind::Disproof => has_prefix(role, "disprove_"@),
        TxKind::BalanceSweep => has_prefix(role, "claim_to_"@),
    }
}

/// Whether a role is of a kind.
pub fn role_is(role: &str, kind: TxKind) -> (r: bool)
    ensures
        r == is_kind(role@, kind),
{
    match kind {
        TxKind::Commitment => starts_with(role, "commitment_"),
        TxKind::Move => starts_with(last_piece(role, '/'), "move_"),
        TxKind::Claim => !contains_char(role, '/') && (starts_with(role, "stall_") || starts_with(
            role,
            "lie_",
        ) || starts_with(role, "sig_")),
        TxKind::Split => starts_with(last_piece(role, '/'), "split_"),
        TxKind::Disproof => starts_with(role, "disprove_"),
        TxKind::BalanceSweep => starts_with(role, "claim_to_"),
    }
}

/// The roles of a kind, in order.
pub open spec fn of_kind(roles: Seq<Seq<char>>, kind: TxKind) -> Seq<Seq<char>> {
    roles.filter(|r: Seq<char>| is_kind(r, kind))
}

/// The roles of none of four kinds, in order.
pub open spec fn of_no_kind(roles: Seq<Seq<char>>, main: TxKind) -> Seq<Seq<char>> {
    roles.filter(
        |r: Seq<char>|
            !is_kind(r, TxKind::Commitment) && !is_kind(r, main) && !is_kind(r, TxKind::Split)
                && !is_kind(r, TxKind::Disproof),
    )
}

/// The roles of a kind, in order.
pub fn select(roles: &[String], kind: TxKind) -> (r: Vec<String>)
    ensures
        views(r@) == of_kind(views(roles@), kind),
        r@.len() <= roles@.len(),
{
    let ghost all = views(roles@);
    let ghost keep = |r: Seq<char>| is_kind(r, kind);
    let mut r: Vec<String> = Vec::new();
    assert(views(r@) =~= all.take(0).filter(keep)) by {
        reveal(Seq::filter);
    }
    for i in 0..roles.len()
        invariant
            all == views(roles@),
            keep == |r: Seq<char>| is_kind(r, kind),
            views(r@) == all.take(i as int).filter(keep),
            r@.len() <= i,
    {
        reveal(Seq::filter);
        let ghost held = r@;
        assert(all.take(i + 1).drop_last() =~= all.take(i as int));
        assert(all.take(i + 1).last() == roles@[i as int]@);
        if role_is(roles[i].as_str(), kind) {
            r.push(roles[i].clone());
            assert(views(r@) =~= views(held).push(roles@[i as int]@));
        }
    }
    assert(all.take(all.len() as int) =~= all);
    r
}

fn select_other(roles: &[String], main: TxKind) -> (r: Vec<String>)
    ensures
        views(r@) == of_no_kind(views(roles@), main),
{
    let ghost all = views(roles@);
    let ghost keep = |r: Seq<char>|
        !is_kind(r, TxKind::Commitment) && !is_kind(r, main) && !is_kind(r, TxKind::Split)
            && !is_kind(r, TxKind::Disproof);
    let mut r: Vec<String> = Vec::new();
    assert(views(r@) =~= all.take(0).filter(keep)) by {
        reveal(Seq::filter);
    }
    for i in 0..roles.len()
        invariant
            all == views(roles@),
            keep == |r: Seq<char>|
                !is_kind(r, TxKind::Commitment) && !is_kind(r, main) && !is_kind(r, TxKind::Split)
                    && !is_kind(r, TxKind::Disproof),
            views(r@) == all.take(i as int).filter(keep),
    {
        reveal(Seq::filter);
        let ghost held = r@;
        assert(all.take(i + 1).drop_last() =~= all.take(i as int));
        assert(all.take(i + 1).last() == roles@[i as int]@);
        let role: &str = roles[i].as_str();
        if !role_is(role, TxKind::Commitment) && !role_is(role, main) && !role_is(
            role,
            TxKind::Split,
        ) && !role_is(role, TxKind::Disproof) {
            r.push(roles[i].clone());
            assert(views(r@) =~= views(held).push(roles@[i as int]@));
        }
    }
    assert(all.take(all.len() as int) =~= all);
    r
}

/// The parties' transactions that touch the contract: all but the commitment's
/// balance sweeps.
pub open spec fn contract_roles(seen: Seq<SeenView>) -> Seq<Seq<char>> {
    party_roles(seen).filter(|r: Seq<char>| !is_kind(r, TxKind::BalanceSweep))
}

/// Roles of the parties' transactions that touch the contract.
pub fn contract_txs(seen: &[SeenTx]) -> (roles: Vec<String>)
    ensures
        views(roles@) == contract_roles(seen_views(seen@)),
{
    let all_roles: Vec<String> = party_txs(seen);
    let ghost all = views(all_roles@);
    let ghost keep = |r: Seq<char>| !is_kind(r, TxKind::BalanceSweep);
    let mut roles: Vec<String> = Vec::new();
    assert(views(roles@) =~= all.take(0).filter(keep)) by {
        reveal(Seq::filter);
    }
    for i in 0..all_roles.len()
        invariant
            all == views(all_roles@),
            keep == |r: Seq<char>| !is_kind(r, TxKind::BalanceSweep),
            views(roles@) == all.take(i as int).filter(keep),
    {
        reveal(Seq::filter);
        let ghost held = roles@;
        assert(all.take(i + 1).drop_last() =~= all.take(i as int));
        assert(all.take(i + 1).last() == all_roles@[i as int]@);
        if !role_is(all_roles[i].as_str(), TxKind::BalanceSweep) {
            roles.push(all_roles[i].clone());
            assert(views(roles@) =~= views(held).push(all_roles@[i as int]@));
        }
    }
    assert(all.take(all.len() as int) =~= all);
    roles
}

/// Contract transactions by kind.
pub struct Summary {
    pub commitments: usize,
    /// Moves, or claims on the contract output.
    pub main: Vec<String>,
    pub splits: Vec<String>,
    pub disproofs: Vec<String>,
    pub other: Vec<String>,
}

impl Summary {
    /// What a summary of roles is, with moves or claims as the main kind.
    pub open spec fn describes(self, roles: Seq<Seq<char>>, main: TxKind) -> bool {
        &&& self.commitments == of_kind(roles, TxKind::Commitment).len()
        &&& views(self.main@) == of_kind(roles, main)
        &&& views(self.splits@) == of_kind(roles, TxKind::Split)
        &&& views(self.disproofs@) == of_kind(roles, TxKind::Disproof)
        &&& views(self.other@) == of_no_kind(roles, main)
    }
}

/// Contract transactions by kind, with moves or claims as the main kind.
pub fn summary(seen: &[SeenTx], main: TxKind) -> (s: Summary)
    ensures
        s.describes(contract_roles(seen_views(seen@)), main),
{
    let roles: Vec<String> = contract_txs(seen);
    let commitments: Vec<String> = select(roles.as_slice(), TxKind::Commitment);
    assert(views(commitments@).len() == commitments@.len());
    Summary {
        commitments: commitments.len(),
        main: select(roles.as_slice(), main),
        splits: select(roles.as_slice(), TxKind::Split),
        disproofs: select(roles.as_slice(), TxKind::Disproof),
        other: select_other(roles.as_slice(), main),
    }
}

/// Whether a dispute has come to an end on the chain: a split or a disproof.
pub open spec fn settled_spec(roles: Seq<Seq<char>>) -> bool {
    exists|i: int|
        0 <= i < roles.len() && (is_kind(#[trigger] roles[i], TxKind::Split) || is_kind(
            roles[i],
            TxKind::Disproof,
        ))
}

/// Whether a split or a disproof is among the roles.
pub fn settled(roles: &[String]) -> (r: bool)
    ensures
        r == settled_spec(views(roles@)),
{
    let ghost all = views(roles@);
    for i in 0..roles.len()
        invariant
            all == views(roles@),
            forall|j: int|
                0 <= j < i ==> !is_kind(#[trigger] all[j], TxKind::Split) && !is_kind(
                    all[j],
                    TxKind::Disproof,
                ),
    {
        assert(all[i as int] == roles@[i as int]@);
        if role_is(roles[i].as_str(), TxKind::Split) || role_is(
            roles[i].as_str(),
            TxKind::Disproof,
        ) {
            return true;
        }
    }
    false
}

/// Whether a role is that of a leaf that ends a bisection.
pub open spec fn is_disproof_leaf(role: Seq<char>) -> bool {
    ||| has_prefix(role, "cpred_"@)
    ||| has_prefix(role, "simple_"@)
    ||| has_prefix(role, "round_"@)
    ||| has_prefix(role, "sched_"@)
    ||| has_prefix(role, "block_"@)
    ||| has_prefix(role, "ccopy_"@)
    ||| has_prefix(role, "ckeep_"@)
    ||| has_prefix(role, "re_"@)
}

fn disproof_leaf(role: &str) -> (r: bool)
    ensures
        r == is_disproof_leaf(role@),
{
    starts_with(role, "cpred_") || starts_with(role, "simple_") || starts_with(role, "round_")
        || starts_with(role, "sched_") || starts_with(role, "block_") || starts_with(role, "ccopy_")
        || starts_with(role, "ckeep_") || starts_with(role, "re_")
}

/// The first role that is that of a leaf that ends a bisection.
pub open spec fn first_leaf(roles: Seq<Seq<char>>) -> Option<Seq<char>>
    decreases roles.len(),
{
    if roles.len() == 0 {
        None
    } else if is_disproof_leaf(roles[0]) {
        Some(roles[0])
    } else {
        first_leaf(roles.skip(1))
    }
}

/// The leaf that ended a bisection, if one did.
pub fn disproof(seen: &[SeenTx]) -> (r: Option<String>)
    ensures
        match first_leaf(party_roles(seen_views(seen@))) {
            Some(text) => r matches Some(role) && role@ == text,
            None => r is None,
        },
{
    let roles: Vec<String> = party_txs(seen);
    let ghost all = views(roles@);
    assert(all.skip(0) =~= all);
    for i in 0..roles.len()
        invariant
            all == views(roles@),
            all == party_roles(seen_views(seen@)),
            first_leaf(all) == first_leaf(all.skip(i as int)),
    {
        assert(all.skip(i as int)[0] == roles@[i as int]@);
        assert(all.skip(i as int).skip(1) =~= all.skip(i + 1));
        if disproof_leaf(roles[i].as_str()) {
            return Some(roles[i].clone());
        }
    }
    assert(all.skip(all.len() as int).len() == 0);
    None
}

// ----- cross-cutting rules -----

/// Whether a role may occur: a transaction of one signer is a disproof or a
/// sweep; one of two signers is a commitment, a settlement, a move, a split or a
/// cooperative close; the rest is the funding or not of the parties.
pub open spec fn role_allowed(role: Seq<char>) -> bool {
    ||| has_prefix(role, "disprove_"@)
    ||| has_prefix(role, "revoke_sweep"@)
    ||| has_prefix(role, "claim_to_"@)
    ||| has_prefix(role, "commitment_"@)
    ||| role == "settle"@
    ||| has_prefix(role, "move_"@)
    ||| has_prefix(role, "split_"@)
    ||| role == "coop_close"@
    ||| role == "funding"@
    ||| role == "external"@
}

fn allowed(role: &String) -> (r: bool)
    ensures
        r == role_allowed(role@),
{
    let s: &str = role.as_str();
    starts_with(s, "disprove_") || starts_with(s, "revoke_sweep") || starts_with(s, "claim_to_")
        || starts_with(s, "commitment_") || *role == String::from_str("settle") || starts_with(
        s,
        "move_",
    ) || starts_with(s, "split_") || *role == String::from_str("coop_close") || *role
        == String::from_str("funding") || *role == String::from_str("external")
}

/// Every seen transaction has a role that may occur, or the place of the first
/// that has not.
pub fn signing_rule(seen: &[SeenTx]) -> (r: Result<(), usize>)
    ensures
        match r {
            Ok(()) => forall|i: int| 0 <= i < seen@.len() ==> role_allowed(#[trigger] seen@[i].role@),
            Err(k) => k < seen@.len() && !role_allowed(seen@[k as int].role@) && forall|i: int|
                0 <= i < k ==> role_allowed(#[trigger] seen@[i].role@),
        },
{
    for i in 0..seen.len()
        invariant
            forall|j: int| 0 <= j < i ==> role_allowed(#[trigger] seen@[j].role@),
    {
        if !allowed(&seen[i].role) {
            return Err(i);
        }
    }
    Ok(())
}

/// Whether the parties' balances and the fees of their transactions make up the
/// funding.
pub open spec fn fees_account(seen: Seq<SeenView>, user: int, hub: int) -> bool {
    user + hub + PARTY_FEE * party_roles(seen).len() == FUNDING
}

/// Whether the parties' balances and the fees of their transactions make up the
/// funding.
pub fn balances_account(seen: &[SeenTx], user: u64, hub: u64) -> (r: bool)
    ensures
        r == fees_account(seen_views(seen@), user as int, hub as int),
{
    let roles: Vec<String> = party_txs(seen);
    assert(views(roles@).len() == roles@.len());
    let n: u128 = roles.len() as u128;
    let fees: u128 = (PARTY_FEE as u128) * n;
    let total: u128 = user as u128 + hub as u128;
    total + fees == FUNDING as u128
}

/// What breaks a cross-cutting rule.
#[derive(Clone, Copy, Debug, PartialEq, Eq, Structural)]
pub enum RuleError {
    /// The transaction at this place has a role that may not occur.
    UnexpectedRole(usize),
    /// The balances and fees do not make up the funding.
    Unbalanced,
}

/// What one channel's harness saw on the chain.
pub struct Harness {
    pub funding_txid: TxidBytes,
    pub funding_height: u32,
    pub seen: Vec<SeenTx>,
}

impl Harness {
    /// A channel that was funded by this transaction at this height.
    pub fn new(funding_txid: TxidBytes, funding_height: u32) -> (h: Harness)
        ensures
            h.funding_txid == funding_txid,
            h.funding_height == funding_height,
            seen_views(h.seen@) == seq![
                SeenView {
                    height: funding_height,
                    txid: funding_txid@,
                    role: "funding"@,
                    by: None,
                },
            ],
    {
        let mut seen: Vec<SeenTx> = Vec::new();
        seen.push(
            SeenTx {
                height: funding_height,
                txid: funding_txid,
                role: String::from_str("funding"),
                by: None,
            },
        );
        let h = Harness { funding_txid, funding_height, seen };
        assert(seen_views(h.seen@) =~= seq![
            SeenView { height: funding_height, txid: funding_txid@, role: "funding"@, by: None },
        ]);
        h
    }

    /// Record a block.
    pub fn record_block(
        &mut self,
        height: u32,
        txids: &[TxidBytes],
        user: &[Broadcast],
        hub: &[Broadcast],
    )
        ensures
            seen_views(final(self).seen@) == seen_views(old(self).seen@) + recorded_block(
                height,
                txids@,
                user@,
                hub@,
            ),
            final(self).funding_txid == old(self).funding_txid,
            final(self).funding_height == old(self).funding_height,
    {
        record_block(&mut self.seen, height, txids, user, hub);
    }

    /// Roles of the transactions that the parties broadcast, in order.
    pub fn party_txs(&self) -> (roles: Vec<String>)
        ensures
            views(roles@) == party_roles(seen_views(self.seen@)),
    {
        party_txs(self.seen.as_slice())
    }

    /// Those that touch the contract.
    pub fn contract_txs(&self) -> (roles: Vec<String>)
        ensures
            views(roles@) == contract_roles(seen_views(self.seen@)),
    {
        contract_txs(self.seen.as_slice())
    }

    /// Roles of the transactions confirmed after funding.
    pub fn roles_seen(&self) -> (roles: Vec<String>)
        ensures
            views(roles@) == after_funding(seen_views(self.seen@)),
    {
        roles_seen(self.seen.as_slice())
    }

    /// The narrative of the channel: what was seen on the chain, then what each
    /// party tells.
    pub fn narrative(&self, user: &[String], hub: &[String]) -> (text: String)
        ensures
            text@ == joined(
                narrative_lines(seen_views(self.seen@), views(user@), views(hub@)),
                "\n"@,
            ),
    {
        narrative(self.seen.as_slice(), user, hub)
    }

    /// Every party's transaction was signed by both parties unless it is a
    /// disproof or a sweep; or the place of the first that is neither.
    pub fn assert_signing_rule(&self) -> (r: Result<(), usize>)
        ensures
            match r {
                Ok(()) => forall|i: int|
                    0 <= i < self.seen@.len() ==> role_allowed(#[trigger] self.seen@[i].role@),
                Err(k) => k < self.seen@.len() && !role_allowed(self.seen@[k as int].role@)
                    && forall|i: int|
                    0 <= i < k ==> role_allowed(#[trigger] self.seen@[i].role@),
            },
    {
        signing_rule(self.seen.as_slice())
    }
}

/// The cross-cutting rules of a scenario: the signing rule, and that the final
/// balances and the fees of the parties' transactions make up the funding.
pub fn assert_cross_cutting(h: &Harness, user: u64, hub: u64) -> (r: Result<(), RuleError>)
    ensures
        match r {
            Ok(()) => {
                &&& forall|i: int|
                    0 <= i < h.seen@.len() ==> role_allowed(#[trigger] h.seen@[i].role@)
                &&& fees_account(seen_views(h.seen@), user as int, hub as int)
            },
            Err(RuleError::UnexpectedRole(k)) => {
                &&& k < h.seen@.len()
                &&& !role_allowed(h.seen@[k as int].role@)
                &&& forall|i: int| 0 <= i < k ==> role_allowed(#[trigger] h.seen@[i].role@)
            },
            Err(RuleError::Unbalanced) => {
                &&& forall|i: int|
                    0 <= i < h.seen@.len() ==> role_allowed(#[trigger] h.seen@[i].role@)
                &&& !fees_account(seen_views(h.seen@), user as int, hub as int)
            },
        },
{
    match h.assert_signing_rule() {
        Err(k) => Err(RuleError::UnexpectedRole(k)),
        Ok(()) => if balances_account(h.seen.as_slice(), user, hub) {
            Ok(())
        } else {
            Err(RuleError::Unbalanced)
        },
    }
}

// ----- reports -----

/// Calls `bitcoin::Txid::to_string`, which writes the bytes in hexadecimal, the
/// last one first.
#[verifier::external_body]
pub(crate) fn txid_text(txid: &TxidBytes) -> (text: String)
    ensures
        text@ == hex_text(txid@.reverse()),
{
    <bitcoin::Txid as bitcoin::hashes::Hash>::from_byte_array(*txid).to_string()
}

/// A transaction of a report.
pub struct ReportTx {
    pub height: u32,
    pub role: String,
    pub txid: String,
    pub by: String,
}

/// A transaction of a report as a mathematical value.
pub struct ReportTxView {
    pub height: u32,
    pub role: Seq<char>,
    pub txid: Seq<char>,
    pub by: Seq<char>,
}

impl View for ReportTx {
    type V = ReportTxView;

    open spec fn view(&self) -> ReportTxView {
        ReportTxView { height: self.height, role: self.role@, txid: self.txid@, by: self.by@ }
    }
}

/// What a scenario came to.
pub struct Report {
    pub id: String,
    pub title: String,
    pub expected: String,
    pub txs: Vec<ReportTx>,
    pub balances: [u64; 2],
    pub narrative: String,
}

/// The views of a report's transactions.
pub open spec fn row_views(rows: Seq<ReportTx>) -> Seq<ReportTxView> {
    Seq::new(rows.len(), |i: int| rows[i]@)
}

/// How a seen transaction stands in a report: with `tag` before its role, and
/// `nobody` where no party broadcast it.
pub open spec fn report_row(tx: SeenView, tag: Seq<char>, nobody: Seq<char>) -> ReportTxView {
    ReportTxView {
        height: tx.height,
        role: tag + tx.role,
        txid: hex_text(tx.txid.reverse()),
        by: match tx.by {
            Some(r) => r.title(),
            None => nobody,
        },
    }
}

/// The rows of a report, in the order of the record.
pub open spec fn report_rows(seen: Seq<SeenView>, tag: Seq<char>, nobody: Seq<char>) -> Seq<
    ReportTxView,
> {
    Seq::new(seen.len(), |i: int| report_row(seen[i], tag, nobody))
}

fn add_rows(rows: &mut Vec<ReportTx>, seen: &[SeenTx], tag: &str, nobody: &str)
    ensures
        row_views(final(rows)@) == row_views(old(rows)@) + report_rows(
            seen_views(seen@),
            tag@,
            nobody@,
        ),
{
    let ghost before = row_views(rows@);
    let ghost all = report_rows(seen_views(seen@), tag@, nobody@);
    assert(before + all.take(0) =~= before);
    for i in 0..seen.len()
        invariant
            all == report_rows(seen_views(seen@), tag@, nobody@),
            row_views(rows@) == before + all.take(i as int),
    {
        let tx: &SeenTx = &seen[i];
        let by: String = match tx.by {
            Some(r) => String::from_str(r.name()),
            None => String::from_str(nobody),
        };
        let ghost held = rows@;
        let row = ReportTx {
            height: tx.height,
            role: String::from_str(tag).concat(tx.role.as_str()),
            txid: txid_text(&tx.txid),
            by,
        };
        rows.push(row);
        assert(row@ == all[i as int]);
        assert(row_views(rows@) =~= row_views(held).push(row@));
        assert(all.take(i + 1) =~= all.take(i as int).push(all[i as int]));
        assert(before + all.take(i + 1) =~= (before + all.take(i as int)).push(row@));
    }
    assert(all.take(all.len() as int) =~= all);
}

impl Report {
    /// The report of one channel.
    pub fn from_harness(
        seen: &[SeenTx],
        id: &str,
        title: &str,
        expected: &str,
        balances: [u64; 2],
        narrative: String,
    ) -> (r: Report)
        ensures
            r.id@ == id@,
            r.title@ == title@,
            r.expected@ == expected@,
            row_views(r.txs@) == report_rows(seen_views(seen@), ""@, "harness"@),
            r.balances == balances,
            r.narrative == narrative,
    {
        let mut txs: Vec<ReportTx> = Vec::new();
        add_rows(&mut txs, seen, "", "harness");
        assert(row_views(Seq::<ReportTx>::empty()) + report_rows(
            seen_views(seen@),
            ""@,
            "harness"@,
        ) =~= report_rows(seen_views(seen@), ""@, "harness"@));
        Report {
            id: String::from_str(id),
            title: String::from_str(title),
            expected: String::from_str(expected),
            txs,
            balances,
            narrative,
        }
    }
}

// ----- two channels in one report -----

/// Where a row goes among rows in the order of their heights: after all that are
/// not higher.
pub open spec fn place_of(sorted: Seq<ReportTxView>, height: u32) -> nat
    decreases sorted.len(),
{
    if sorted.len() == 0 || sorted.last().height <= height {
        sorted.len()
    } else {
        place_of(sorted.drop_last(), height)
    }
}

/// Rows in the order of their heights; rows of one height keep their order.
pub open spec fn by_height(rows: Seq<ReportTxView>) -> Seq<ReportTxView>
    decreases rows.len(),
{
    if rows.len() == 0 {
        rows
    } else {
        let sorted = by_height(rows.drop_last());
        sorted.insert(place_of(sorted, rows.last().height) as int, rows.last())
    }
}

/// Rows without those whose transaction is that of the row kept before them.
pub open spec fn without_repeats(rows: Seq<ReportTxView>) -> Seq<ReportTxView>
    decreases rows.len(),
{
    if rows.len() == 0 {
        rows
    } else {
        let kept = without_repeats(rows.drop_last());
        if kept.len() > 0 && kept.last().txid == rows.last().txid {
            kept
        } else {
            kept.push(rows.last())
        }
    }
}

proof fn lemma_place_of(sorted: Seq<ReportTxView>, height: u32, i: int)
    requires
        0 <= i <= sorted.len(),
        forall|j: int| i <= j < sorted.len() ==> sorted[j].height > height,
        i == 0 || sorted[i - 1].height <= height,
    ensures
        place_of(sorted, height) == i,
    decreases sorted.len(),
{
    if i < sorted.len() {
        assert(sorted.last() == sorted[sorted.len() - 1]);
        lemma_place_of(sorted.drop_last(), height, i);
    }
}

fn insert_row(sorted: &mut Vec<ReportTx>, row: ReportTx)
    ensures
        row_views(final(sorted)@) == row_views(old(sorted)@).insert(
            place_of(row_views(old(sorted)@), row.height) as int,
            row@,
        ),
{
    let ghost all = row_views(sorted@);
    let n: usize = sorted.len();
    let mut i: usize = n;
    while i > 0 && sorted[i - 1].height > row.height
        invariant
            n == sorted@.len(),
            i <= n,
            all == row_views(sorted@),
            forall|j: int| i <= j < n ==> all[j].height > row.height,
        decreases i,
    {
        assert(all[i - 1] == sorted@[i - 1]@);
        i = i - 1;
    }
    proof {
        if i > 0 {
            assert(all[i - 1] == sorted@[i - 1]@);
        }
        lemma_place_of(all, row.height, i as int);
    }
    sorted.insert(i, row);
    assert(row_views(sorted@) =~= all.insert(i as int, row@));
}

/// The transactions of Alice's and Bob's channels in one list: by height, and a
/// transaction that both saw once.
pub fn merged_txs(alice: &[SeenTx], bob: &[SeenTx]) -> (rows: Vec<ReportTx>)
    ensures
        row_views(rows@) == without_repeats(
            by_height(
                report_rows(seen_views(alice@), "alice:"@, "hub-registry"@) + report_rows(
                    seen_views(bob@),
                    "bob:"@,
                    "hub-registry"@,
                ),
            ),
        ),
{
    let mut all: Vec<ReportTx> = Vec::new();
    let ghost none = row_views(all@);
    let ghost a = report_rows(seen_views(alice@), "alice:"@, "hub-registry"@);
    let ghost b = report_rows(seen_views(bob@), "bob:"@, "hub-registry"@);
    add_rows(&mut all, alice, "alice:", "hub-registry");
    assert(none + a =~= a);
    add_rows(&mut all, bob, "bob:", "hub-registry");
    let ghost rows = row_views(all@);
    assert(rows == a + b);
    let sorted: Vec<ReportTx> = sort_rows(all);
    dedup_rows(sorted)
}

fn sort_rows(rows: Vec<ReportTx>) -> (sorted: Vec<ReportTx>)
    ensures
        row_views(sorted@) == by_height(row_views(rows@)),
{
    let ghost all = row_views(rows@);
    let mut sorted: Vec<ReportTx> = Vec::new();
    assert(row_views(sorted@) =~= by_height(all.take(0)));
    for i in 0..rows.len()
        invariant
            all == row_views(rows@),
            row_views(sorted@) == by_height(all.take(i as int)),
    {
        assert(all.take(i + 1).drop_last() =~= all.take(i as int));
        assert(all.take(i + 1).last() == rows@[i as int]@);
        let copy: ReportTx = copy_row(&rows[i]);
        insert_row(&mut sorted, copy);
    }
    assert(all.take(all.len() as int) =~= all);
    sorted
}

fn copy_row(row: &ReportTx) -> (copy: ReportTx)
    ensures
        copy@ == row@,
{
    ReportTx {
        height: row.height,
        role: row.role.clone(),
        txid: row.txid.clone(),
        by: row.by.clone(),
    }
}

fn dedup_rows(rows: Vec<ReportTx>) -> (kept: Vec<ReportTx>)
    ensures
        row_views(kept@) == without_repeats(row_views(rows@)),
{
    let ghost all = row_views(rows@);
    let mut kept: Vec<ReportTx> = Vec::new();
    assert(row_views(kept@) =~= without_repeats(all.take(0)));
    for i in 0..rows.len()
        invariant
            all == row_views(rows@),
            row_views(kept@) == without_repeats(all.take(i as int)),
    {
        assert(all.take(i + 1).drop_last() =~= all.take(i as int));
        assert(all.take(i + 1).last() == rows@[i as int]@);
        let ghost held = kept@;
        let n: usize = kept.len();
        assert(row_views(kept@).len() == n);
        if n > 0 {
            assert(row_views(kept@).last() == kept@[n - 1]@);
        }
        if n == 0 || !(kept[n - 1].txid == rows[i].txid) {
            let copy: ReportTx = copy_row(&rows[i]);
            kept.push(copy);
            assert(row_views(kept@) =~= row_views(held).push(copy@));
        }
    }
    assert(all.take(all.len() as int) =~= all);
    kept
}

// ----- narratives -----

/// The line of a seen transaction.
pub open spec fn tx_line(tx: SeenView) -> Seq<char> {
    "block "@ + decimal_text(tx.height as nat) + ": "@ + tx.role + " "@ + hex_text(
        tx.txid.reverse(),
    ) + " ("@ + (match tx.by {
        Some(r) => r.title(),
        None => "harness"@,
    }) + ")"@
}

/// The lines of a channel's narrative.
pub open spec fn narrative_lines(
    seen: Seq<SeenView>,
    user: Seq<Seq<char>>,
    hub: Seq<Seq<char>>,
) -> Seq<Seq<char>> {
    seq!["--- on-chain ---"@] + Seq::new(seen.len(), |i: int| tx_line(seen[i])) + seq![
        "--- user ---"@,
    ] + user + seq!["--- hub ---"@] + hub
}

fn push_all(lines: &mut Vec<String>, more: &[String])
    ensures
        views(final(lines)@) == views(old(lines)@) + views(more@),
{
    let ghost before = views(lines@);
    let ghost all = views(more@);
    assert(before + all.take(0) =~= before);
    for i in 0..more.len()
        invariant
            all == views(more@),
            views(lines@) == before + all.take(i as int),
    {
        let ghost held = lines@;
        lines.push(more[i].clone());
        assert(views(lines@) =~= views(held).push(more@[i as int]@));
        assert(all.take(i + 1) =~= all.take(i as int).push(all[i as int]));
        assert(before + all.take(i + 1) =~= (before + all.take(i as int)).push(all[i as int]));
    }
    assert(all.take(all.len() as int) =~= all);
}

fn line_of(tx: &SeenTx) -> (line: String)
    ensures
        line@ == tx_line(tx@),
{
    let by: &str = match tx.by {
        Some(r) => r.name(),
        None => "harness",
    };
    String::from_str("block ").concat(decimal(tx.height).as_str()).concat(": ").concat(
        tx.role.as_str(),
    ).concat(" ").concat(txid_text(&tx.txid).as_str()).concat(" (").concat(by).concat(")")
}

/// The narrative of a channel: what was seen on the chain, then what each party
/// tells.
pub fn narrative(seen: &[SeenTx], user: &[String], hub: &[String]) -> (text: String)
    ensures
        text@ == joined(
            narrative_lines(seen_views(seen@), views(user@), views(hub@)),
            "\n"@,
        ),
{
    let ghost all = seen_views(seen@);
    let ghost txs = Seq::new(all.len(), |i: int| tx_line(all[i]));
    let mut lines: Vec<String> = Vec::new();
    lines.push(String::from_str("--- on-chain ---"));
    assert(views(lines@) =~= seq!["--- on-chain ---"@] + txs.take(0));
    for i in 0..seen.len()
        invariant
            all == seen_views(seen@),
            txs == Seq::new(all.len(), |i: int| tx_line(all[i])),
            views(lines@) == seq!["--- on-chain ---"@] + txs.take(i as int),
    {
        let ghost held = lines@;
        let line: String = line_of(&seen[i]);
        lines.push(line);
        assert(views(lines@) =~= views(held).push(txs[i as int]));
        assert(txs.take(i + 1) =~= txs.take(i as int).push(txs[i as int]));
        assert(seq!["--- on-chain ---"@] + txs.take(i + 1) =~= (seq!["--- on-chain ---"@]
            + txs.take(i as int)).push(txs[i as int]));
    }
    assert(txs.take(txs.len() as int) =~= txs);
    let ghost held = lines@;
    lines.push(String::from_str("--- user ---"));
    assert(views(lines@) =~= views(held) + seq!["--- user ---"@]);
    push_all(&mut lines, user);
    let ghost held2 = lines@;
    lines.push(String::from_str("--- hub ---"));
    assert(views(lines@) =~= views(held2) + seq!["--- hub ---"@]);
    push_all(&mut lines, hub);
    join(lines.as_slice(), "\n")
}

/// The narrative of a game's world: its log, then the channel's narrative.
pub fn venue_narrative(log: &[String], channel: &str) -> (text: String)
    ensures
        text@ == "--- venue ---\n"@ + joined(views(log@), "\n"@) + "\n"@ + channel@,
{
    String::from_str("--- venue ---\n").concat(join(log, "\n").as_str()).concat("\n").concat(
        channel,
    )
}

/// The narrative of a registry's world: its log, the registry's, then both
/// channels' narratives.
pub fn registry_narrative(log: &[String], registry: &[String], alice: &str, bob: &str) -> (text:
    String)
    ensures
        text@ == "--- world ---\n"@ + joined(views(log@), "\n"@) + "\n--- registry ---\n"@ + joined(
            views(registry@),
            "\n"@,
        ) + "\n=== alice's channel ===\n"@ + alice@ + "\n=== bob's channel ===\n"@ + bob@,
{
    String::from_str("--- world ---\n").concat(join(log, "\n").as_str()).concat(
        "\n--- registry ---\n",
    ).concat(join(registry, "\n").as_str()).concat("\n=== alice's channel ===\n").concat(
        alice,
    ).concat("\n=== bob's channel ===\n").concat(bob)
}

// ----- laws -----

/// The transactions of a merged report stand in the order of their heights.
pub proof fn law_by_height_ordered(rows: Seq<ReportTxView>)
    ensures
        by_height(rows).len() == rows.len(),
        by_height(rows).to_multiset() == rows.to_multiset(),
        forall|i: int, j: int|
            0 <= i <= j < rows.len() ==> #[trigger] by_height(rows)[i].height
                <= #[trigger] by_height(rows)[j].height,
    decreases rows.len(),
{
    broadcast use vstd::seq_lib::group_to_multiset_ensures;

    if rows.len() > 0 {
        law_by_height_ordered(rows.drop_last());
        let sorted = by_height(rows.drop_last());
        let row = rows.last();
        let k = place_of(sorted, row.height) as int;
        lemma_place_bounds(sorted, row.height);
        assert(rows =~= rows.drop_last().push(row));
        vstd::seq_lib::to_multiset_insert(sorted, k, row);
        assert(by_height(rows) == sorted.insert(k, row));
    }
}

proof fn lemma_place_bounds(sorted: Seq<ReportTxView>, height: u32)
    requires
        forall|i: int, j: int|
            0 <= i <= j < sorted.len() ==> #[trigger] sorted[i].height
                <= #[trigger] sorted[j].height,
    ensures
        place_of(sorted, height) <= sorted.len(),
        forall|i: int|
            0 <= i < place_of(sorted, height) ==> #[trigger] sorted[i].height <= height,
        forall|i: int|
            place_of(sorted, height) <= i < sorted.len() ==> height < #[trigger] sorted[i].height,
    decreases sorted.len(),
{
    if sorted.len() > 0 && sorted.last().height > height {
        let head = sorted.drop_last();
        assert forall|i: int, j: int| 0 <= i <= j < head.len() implies #[trigger] head[i].height
            <= #[trigger] head[j].height by {
            assert(sorted[i].height <= sorted[j].height);
        }
        lemma_place_bounds(head, height);
        assert forall|i: int| 0 <= i < place_of(sorted, height) implies #[trigger] sorted[i].height
            <= height by {
            assert(head[i].height <= height);
        }
        assert forall|i: int| place_of(sorted, height) <= i < sorted.len() implies height
            < #[trigger] sorted[i].height by {
            if i < head.len() {
                assert(height < head[i].height);
            }
        }
    }
}

/// A merged report never shows one transaction twice in a row.
pub proof fn law_without_repeats(rows: Seq<ReportTxView>)
    ensures
        forall|i: int|
            0 < i < without_repeats(rows).len() ==> (#[trigger] without_repeats(rows)[i]).txid
                != without_repeats(rows)[i - 1].txid,
    decreases rows.len(),
{
    if rows.len() > 0 {
        law_without_repeats(rows.drop_last());
        let kept = without_repeats(rows.drop_last());
        let all = without_repeats(rows);
        assert forall|i: int| 0 < i < all.len() implies (#[trigger] all[i]).txid != all[i
            - 1].txid by {
            if i < kept.len() {
                assert(kept[i].txid != kept[i - 1].txid);
            }
        }
    }
}

} // verus!
