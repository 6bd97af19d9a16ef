//! What the registry's hub and users do, in terms of the promises made and of what is
//! confirmed.

use vstd::prelude::*;

use crate::harness::factchain::{
    alice_sells, bond_terms_spec, leg_spec, promise_terms, FcPromise, FcWorld, Forked, HubChange,
    HubRefusal, Moved, NRegFcParams, Opened, SalePlan, GRACE,
};
use crate::harness::Role;

verus! {

/// The hub accepts a payment that a user opens exactly when the hub locks nothing into
/// it, whatever the user locks.
pub proof fn law_payments_lock_nothing_of_the_hub(w: FcWorld, stakes: [u64; 2])
    ensures
        w.hub_spec(false, HubChange::Open { opened: Opened::Payment, stakes }) is Ok <==> stakes@[1]
            == 0,
        stakes@[1] != 0 ==> w.hub_spec(
            false,
            HubChange::Open { opened: Opened::Payment, stakes },
        ) == Err::<(), HubRefusal>(HubRefusal::Locked),
{
}

/// The hub accepts the buyer's payment of any sale, and the seller's bond once it has
/// promised the transfer.
pub proof fn law_sale_is_accepted(
    w: FcWorld,
    p: FcPromise,
    h_sale: u32,
    offset: u32,
    plan: SalePlan,
    leg: [u64; 2],
    bond: [u64; 2],
)
    requires
        call_ensures(alice_sells, (&p, h_sale, offset), plan),
        p.h_max + GRACE <= u32::MAX,
        leg@[0] == plan.leg1.user_stake && leg@[1] == plan.leg1.hub_stake,
        bond@[0] == plan.bond.user_stake && bond@[1] == plan.bond.hub_stake,
        w.made@.contains_key(p.req_id),
        w.made@[p.req_id] == promise_terms(p),
    ensures
        w.hub_spec(false, HubChange::Open { opened: Opened::Payment, stakes: leg }) is Ok,
        w.hub_spec(
            false,
            HubChange::Open { opened: Opened::Registration(plan.bond_terms), stakes: bond },
        ) is Ok,
{
}

/// The hub accepts a bond exactly when it made a promise for the request, the bond
/// names the promise's checkpoint and lets the user claim from the grace after the
/// promised height on, the user has no stake in it and the hub's is no larger than a
/// bond.
pub proof fn law_bonds_follow_promises(w: FcWorld, terms: NRegFcParams, stakes: [u64; 2])
    ensures
        w.hub_spec(false, HubChange::Open { opened: Opened::Registration(terms), stakes }) is Ok
            <==> {
            &&& w.made@.contains_key(terms.req_id)
            &&& w.made@[terms.req_id].checkpoint@ == terms.checkpoint@
            &&& w.made@[terms.req_id].checkpoint_height == terms.checkpoint_height
            &&& w.made@[terms.req_id].h_max + 2 == terms.claim_from
            &&& stakes@[0] == 0
            &&& stakes@[1] <= 40_000
        },
        !w.made@.contains_key(terms.req_id) ==> w.hub_spec(
            false,
            HubChange::Open { opened: Opened::Registration(terms), stakes },
        ) == Err::<(), HubRefusal>(HubRefusal::NoPromise(terms.req_id)),
        ({
            let made = w.made@[terms.req_id];
            let own = made.checkpoint@ == terms.checkpoint@ && made.checkpoint_height
                == terms.checkpoint_height && made.h_max + 2 == terms.claim_from;
            let small = stakes@[0] == 0 && stakes@[1] <= 40_000;
            w.made@.contains_key(terms.req_id) && !(own && small) ==> w.hub_spec(
                false,
                HubChange::Open { opened: Opened::Registration(terms), stakes },
            ) == Err::<(), HubRefusal>(
                if own {
                    HubRefusal::BondTerms
                } else {
                    HubRefusal::Mismatch
                },
            )
        }),
{
}

/// The hub agrees to a move in a claimed bond only when it sees the entry confirmed;
/// to any other move of a contract that is there and can be read, always.
pub proof fn law_claims_wait_for_confirmation(w: FcWorld, req_id: u32, state: u32)
    ensures
        w.hub_spec(
            false,
            HubChange::Move { moved: Moved::Registration { req_id, state } },
        ) is Ok <==> (state == 1 ==> w.hub_confirmed@.contains(req_id)),
        w.hub_spec(false, HubChange::Move { moved: Moved::Other }) is Ok,
        w.hub_spec(false, HubChange::Move { moved: Moved::Missing }) == Err::<(), HubRefusal>(
            HubRefusal::NoContract,
        ),
        w.hub_spec(false, HubChange::Move { moved: Moved::Unreadable }) == Err::<(), HubRefusal>(
            HubRefusal::Unreadable,
        ),
        w.hub_spec(false, HubChange::Other) is Ok,
{
}

/// The hub opens nothing that it does not know or cannot read, and nothing at all
/// against a veto.
pub proof fn law_unknown_and_vetoed_changes_are_refused(
    w: FcWorld,
    change: HubChange,
    stakes: [u64; 2],
)
    ensures
        w.hub_spec(true, change) == Err::<(), HubRefusal>(HubRefusal::Veto),
        w.hub_spec(false, HubChange::Open { opened: Opened::Unknown, stakes }) == Err::<
            (),
            HubRefusal,
        >(HubRefusal::UnknownProgram),
        w.hub_spec(false, HubChange::Open { opened: Opened::Unreadable, stakes }) == Err::<
            (),
            HubRefusal,
        >(HubRefusal::Unreadable),
{
}

/// A change that the hub accepts stays accepted when more promises are made, or more
/// entries confirmed.
pub proof fn law_acceptance_is_kept(w: FcWorld, later: FcWorld, change: HubChange)
    requires
        w.hub_spec(false, change) is Ok,
        forall|k: u32| #[trigger]
            w.made@.contains_key(k) ==> later.made@.contains_key(k) && later.made@[k] == w.made@[k],
        forall|k: u32| #[trigger]
            w.hub_confirmed@.contains(k) ==> later.hub_confirmed@.contains(k),
    ensures
        later.hub_spec(false, change) is Ok,
{
}

/// A bond's terms name the request, the checkpoint and the height of the promise, and
/// the user may claim it two blocks after that height.
pub proof fn law_bond_names_its_promise(p: FcPromise)
    requires
        p.h_max + GRACE <= u32::MAX,
    ensures
        bond_terms_spec(p).req_id == p.req_id,
        bond_terms_spec(p).checkpoint@ == p.checkpoint@,
        bond_terms_spec(p).checkpoint_height == p.checkpoint_height,
        bond_terms_spec(p).h_max == p.h_max,
        bond_terms_spec(p).claim_from == p.h_max + 2,
        promise_terms(p).h_max == p.h_max,
        promise_terms(p).checkpoint@ == p.checkpoint@,
        promise_terms(p).checkpoint_height == p.checkpoint_height,
{
}

/// Both payments of a sale hang on the same entry, and different sides prove it.
pub proof fn law_legs_hang_on_one_entry(p: FcPromise)
    ensures
        leg_spec(Role::Hub, p).prover == Role::Hub,
        leg_spec(Role::User, p).prover == Role::User,
        leg_spec(Role::Hub, p).checkpoint@ == p.checkpoint@,
        leg_spec(Role::User, p).checkpoint@ == p.checkpoint@,
        leg_spec(Role::Hub, p).checkpoint_height == p.checkpoint_height,
        leg_spec(Role::User, p).checkpoint_height == p.checkpoint_height,
        leg_spec(Role::Hub, p).h_max == p.h_max,
        leg_spec(Role::User, p).h_max == p.h_max,
{
}

/// An untouched bond is claimed from its height on, and not before, as long as the
/// user does not see the entry confirmed.
pub proof fn law_bonds_are_claimed_in_time(w: FcWorld, req_id: u32, height: u32, claim_from: u32)
    ensures
        w.user_moves_spec(req_id, 0, height, claim_from) <==> claim_from <= height
            && !w.confirmed@.contains(req_id),
        w.user_moves_spec(req_id, 2, height, claim_from) <==> w.refuted@.contains(req_id),
        forall|state: u32|
            state != 0 && state != 2 ==> !#[trigger] w.user_moves_spec(
                req_id,
                state,
                height,
                claim_from,
            ),
{
}

/// The hub submits every request to the miner but the one it leaves out, and none at
/// all if it submits nothing.
pub proof fn law_submissions(w: FcWorld, req_id: u32)
    ensures
        w.faults.no_submit ==> !w.submits(req_id),
        !w.faults.no_submit && w.faults.omit_req is None ==> w.submits(req_id),
        !w.faults.no_submit ==> (!w.submits(req_id) <==> w.faults.omit_req == Some(req_id)),
{
}

/// A promise may come no more than a hundred blocks after the end of the reveal
/// window; without a window any height will do.
pub proof fn law_reveal_window(p: FcPromise, start: u32, len: u32)
    ensures
        FcWorld::in_window(p, None),
        FcWorld::in_window(p, Some((start, len))) <==> p.h_max - 100 <= start + len,
{
}

/// A refutation is due exactly when the chain that the users know has passed the
/// fork's tip and it is not served yet; once due, it stays due while the chain grows,
/// until it is served.
pub proof fn law_refutation_needs_a_longer_chain(w: FcWorld, later: FcWorld, f: Forked)
    requires
        later.genesis_height == w.genesis_height,
        later.chain_length >= w.chain_length,
    ensures
        w.refutation_spec(f) <==> !w.refuted@.contains(f.req_id) && w.genesis_height
            + w.chain_length > f.checkpoint_height + f.n_headers,
        w.refutation_spec(f) && !later.refuted@.contains(f.req_id) ==> later.refutation_spec(f),
{
}

/// Alice reveals once: after her commit is confirmed, and not before.
pub proof fn law_reveal_follows_the_commit(w: FcWorld, id: u32, sent: FcWorld)
    requires
        sent.reveal_sent,
    ensures
        w.registering && !w.reveal_sent && w.commit_req == Some(id) ==> (w.reveal_spec()
            <==> w.confirmed@.contains(id)),
        w.reveal_spec() ==> w.registering && w.commit_req is Some,
        !sent.reveal_spec(),
{
}

/// A request is on the fork once it was anchored there.
pub proof fn law_on_fork(w: FcWorld, f: Forked, after: FcWorld, req_id: u32)
    requires
        after.forked@ == w.forked@.push(f),
    ensures
        after.on_fork(req_id) <==> w.on_fork(req_id) || req_id == f.req_id,
        w.forked@.len() == 0 ==> !w.on_fork(req_id),
{
    let n = w.forked@.len() as int;
    assert(after.forked@[n] == f);
    if w.on_fork(req_id) {
        let i = choose|i: int| 0 <= i < n && #[trigger] w.forked@[i].req_id == req_id;
        assert(after.forked@[i].req_id == req_id);
    }
    if after.on_fork(req_id) {
        let i = choose|i: int| 0 <= i <= n && #[trigger] after.forked@[i].req_id == req_id;
        if i < n {
            assert(w.forked@[i].req_id == req_id);
        }
    }
}

} // verus!
