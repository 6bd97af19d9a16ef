//! A bonded name registry on a fact chain: two channels (Alice's and Bob's), one
//! miner of facts, one hub.
//!
//! The hub promises inclusion by a height, submits entries to the miner and serves
//! proof data once they are confirmed. Users verify fact-chain blocks and fold
//! bonds once their entries are confirmed. In fork mode the hub's entries are
//! mined on a private fork that only the hub sees.

use std::collections::{HashMap, HashSet};

use vstd::prelude::*;
use vstd::string::StringExecFns;

use crate::harness::names::{slot_text, MinePlan};
use crate::harness::text::{has_prefix, starts_with, strip_prefix};
use crate::harness::Role;
use crate::hashing::{same_hash, Hash160};

verus! {

broadcast use vstd::std_specs::hash::group_hash_axioms;

pub const BOND: u64 = 40_000;

pub const PRICE: u64 = 40_000;

pub const ID_BOND: u32 = 10;

pub const ID_RBOND: u32 = 11;

pub const ID_LEG1: u32 = 20;

pub const ID_LEG2: u32 = 21;

pub const ID_TBOND: u32 = 22;

pub const GRACE: u32 = 2;

/// Maximum headers between checkpoint and claim.
pub const W_MAX: u32 = 100;

/// Blocks that a bond stays open after the channel's own deadline offset.
pub const BOND_SPAN: u32 = 40;

/// A user of the registry.
#[derive(Clone, Copy, Debug, PartialEq, Eq, Hash, Structural)]
pub enum Who {
    Alice,
    Bob,
}

/// The name of a request's slot.
pub fn slot(req_id: u32) -> (s: String)
    ensures
        s@ == slot_text(req_id),
{
    crate::harness::names::slot(req_id)
}

// ----- promises and bonds -----

/// A promise of the hub: the entry will be confirmed by `h_max`.
pub struct FcPromise {
    pub req_id: u32,
    pub h_max: u32,
    pub checkpoint: Hash160,
    pub checkpoint_height: u32,
    pub entry: Vec<u8>,
}

/// The terms of a bond on a promise.
#[derive(Clone, Copy, Debug)]
pub struct NRegFcParams {
    pub req_id: u32,
    pub claim_from: u32,
    pub checkpoint: Hash160,
    pub checkpoint_height: u32,
    pub h_max: u32,
}

/// The terms of the bond that a promise is written into.
pub open spec fn bond_terms_spec(p: FcPromise) -> NRegFcParams {
    NRegFcParams {
        req_id: p.req_id,
        claim_from: (p.h_max + GRACE) as u32,
        checkpoint: p.checkpoint,
        checkpoint_height: p.checkpoint_height,
        h_max: p.h_max,
    }
}

/// The terms of the bond that a promise is written into.
pub fn bond_terms(p: &FcPromise) -> (terms: NRegFcParams)
    requires
        p.h_max + GRACE <= u32::MAX,
    ensures
        terms == bond_terms_spec(*p),
{
    NRegFcParams {
        req_id: p.req_id,
        claim_from: p.h_max + GRACE,
        checkpoint: p.checkpoint,
        checkpoint_height: p.checkpoint_height,
        h_max: p.h_max,
    }
}

/// The height by which the hub promises inclusion.
pub fn promised_height(btc_height: u32) -> (h_max: u32)
    requires
        btc_height + W_MAX <= u32::MAX,
    ensures
        h_max == btc_height + W_MAX,
{
    btc_height + W_MAX
}

// ----- the hub's policy -----

/// What a program's name says that it is.
pub enum ProgramKind {
    /// A bond on a registration, with its parameters' text.
    Registration(String),
    /// A payment gated on an inclusion proof.
    Payment,
    Unknown,
}

/// What the hub takes a program for, by its name's prefix.
pub fn program_kind(name: &str) -> (kind: ProgramKind)
    ensures
        match kind {
            ProgramKind::Registration(params) => has_prefix(name@, "nreg-fc:"@) && params@
                == name@.skip("nreg-fc:"@.len() as int),
            ProgramKind::Payment => !has_prefix(name@, "nreg-fc:"@) && has_prefix(
                name@,
                "anchorpay-fc:"@,
            ),
            ProgramKind::Unknown => !has_prefix(name@, "nreg-fc:"@) && !has_prefix(
                name@,
                "anchorpay-fc:"@,
            ),
        },
{
    match strip_prefix(name, "nreg-fc:") {
        Some(params) => ProgramKind::Registration(params),
        None => if starts_with(name, "anchorpay-fc:") {
            ProgramKind::Payment
        } else {
            ProgramKind::Unknown
        },
    }
}

/// What a change opens.
#[derive(Clone, Copy, Debug)]
pub enum Opened {
    /// A bond on these terms.
    Registration(NRegFcParams),
    Payment,
    Unknown,
    /// A bond whose parameters cannot be read.
    Unreadable,
}

/// The contract that a change moves.
#[derive(Clone, Copy, Debug)]
pub enum Moved {
    /// There is none of that id.
    Missing,
    /// A bond on a request, in this state.
    Registration { req_id: u32, state: u32 },
    /// A bond whose parameters cannot be read.
    Unreadable,
    /// Another contract.
    Other,
}

/// A change of the channel's state that the user proposes.
#[derive(Clone, Copy, Debug)]
pub enum HubChange {
    Open { opened: Opened, stakes: [u64; 2] },
    Move { moved: Moved },
    Other,
}

/// Why the hub refuses a change.
#[derive(Clone, Copy, Debug, PartialEq, Eq, Structural)]
pub enum HubRefusal {
    /// The scenario's own refusal.
    Veto,
    Unreadable,
    /// No such promise was made.
    NoPromise(u32),
    /// The bond's terms do not match the promise.
    Mismatch,
    /// The bond is too large, or the user has a stake in it.
    BondTerms,
    /// The hub does not lock into payments that users open.
    Locked,
    UnknownProgram,
    NoContract,
    /// The entry is not confirmed: the hub cannot prove inclusion.
    NotConfirmed,
}

/// What the hub keeps of a promise that it made: what a bond on it has to name.
#[derive(Clone, Copy, Debug)]
pub struct PromiseTerms {
    pub h_max: u32,
    pub checkpoint: Hash160,
    pub checkpoint_height: u32,
}

/// What the hub keeps of a promise.
pub open spec fn promise_terms(p: FcPromise) -> PromiseTerms {
    PromiseTerms {
        h_max: p.h_max,
        checkpoint: p.checkpoint,
        checkpoint_height: p.checkpoint_height,
    }
}

/// What the hub does not do, by scenario.
#[derive(Clone, Copy, Debug, PartialEq, Eq, Structural)]
pub struct HubFaults {
    /// Submit nothing to the miner.
    pub no_submit: bool,
    /// Do not submit this request.
    pub omit_req: Option<u32>,
}

/// A request that is anchored on the hub's fork: `n_headers` headers after the
/// promise's checkpoint.
#[derive(Clone, Copy, Debug, PartialEq, Eq, Structural)]
pub struct Forked {
    pub req_id: u32,
    pub checkpoint_height: u32,
    pub n_headers: u32,
}

/// Why the world stops.
#[derive(Clone, Copy, Debug, PartialEq, Eq, Structural)]
pub enum FcError {
    /// The promised height is outside the reveal window.
    OutsideWindow,
    /// No promise was taken for this request.
    NoPromise(u32),
}

/// The registry's world.
pub struct FcWorld {
    pub genesis_height: u32,
    /// Blocks of the real chain that the users know, after genesis.
    pub chain_length: u32,
    /// The promises that the hub made, by request, whether or not a user took them.
    pub made: HashMap<u32, PromiseTerms>,
    /// The promises that the users took, by request.
    pub promises: HashMap<u32, FcPromise>,
    /// Requests confirmed on the fact chain that the users see.
    pub confirmed: HashSet<u32>,
    /// Requests that the hub sees confirmed.
    pub hub_confirmed: HashSet<u32>,
    /// Requests whose inclusion proof is served.
    pub included: HashSet<u32>,
    /// Requests whose refutation (a heavier chain) is served.
    pub refuted: HashSet<u32>,
    /// Whether the hub's entries are mined on a private fork.
    pub fork: bool,
    /// Requests anchored on the fork.
    pub forked: Vec<Forked>,
    pub faults: HubFaults,
    /// The entry to be mined next.
    pub pending_entry: Option<Vec<u8>>,
    pub reveal_sent: bool,
    pub registering: bool,
    pub commit_req: Option<u32>,
}

impl FcWorld {
    /// A registry at its start, with the chain at genesis.
    pub fn new(genesis_height: u32) -> (w: FcWorld)
        ensures
            w.genesis_height == genesis_height && w.chain_length == 0,
            w.made@ == Map::<u32, PromiseTerms>::empty(),
            w.promises@ == Map::<u32, FcPromise>::empty(),
            w.confirmed@ == Set::<u32>::empty(),
            w.hub_confirmed@ == Set::<u32>::empty(),
            w.included@ == Set::<u32>::empty(),
            w.refuted@ == Set::<u32>::empty(),
            !w.fork && w.forked@.len() == 0,
            !w.faults.no_submit && w.faults.omit_req is None,
            w.pending_entry is None,
            !w.reveal_sent && !w.registering && w.commit_req is None,
    {
        FcWorld {
            genesis_height,
            chain_length: 0,
            made: HashMap::new(),
            promises: HashMap::new(),
            confirmed: HashSet::new(),
            hub_confirmed: HashSet::new(),
            included: HashSet::new(),
            refuted: HashSet::new(),
            fork: false,
            forked: Vec::new(),
            faults: HubFaults { no_submit: false, omit_req: None },
            pending_entry: None,
            reveal_sent: false,
            registering: false,
            commit_req: None,
        }
    }

    /// The fact chain's height: genesis and the blocks mined.
    pub fn fc_height(&self) -> (h: u32)
        requires
            self.genesis_height + self.chain_length <= u32::MAX,
        ensures
            h == self.genesis_height + self.chain_length,
    {
        self.genesis_height + self.chain_length
    }

    /// Whether the users see a request confirmed.
    pub fn is_confirmed(&self, req_id: u32) -> (r: bool)
        ensures
            r == self.confirmed@.contains(req_id),
    {
        self.confirmed.contains(&req_id)
    }

    /// Whether the terms of a bond are those of a promise.
    pub open spec fn terms_match(promise: PromiseTerms, terms: NRegFcParams) -> bool {
        &&& promise.checkpoint@ == terms.checkpoint@
        &&& promise.checkpoint_height == terms.checkpoint_height
        &&& promise.h_max + GRACE == terms.claim_from
    }

    /// What the hub says of a change: bonds only for promises that it made, on
    /// their terms and without a stake of the user's; payments only where it locks
    /// nothing; an answer to a claim only when the entry is confirmed. `veto` is the
    /// scenario's own refusal.
    pub open spec fn hub_spec(self, veto: bool, change: HubChange) -> Result<(), HubRefusal> {
        if veto {
            Err(HubRefusal::Veto)
        } else {
            match change {
                HubChange::Open { opened, stakes } => match opened {
                    Opened::Unreadable => Err(HubRefusal::Unreadable),
                    Opened::Registration(terms) => if !self.made@.contains_key(terms.req_id) {
                        Err(HubRefusal::NoPromise(terms.req_id))
                    } else if !FcWorld::terms_match(self.made@[terms.req_id], terms) {
                        Err(HubRefusal::Mismatch)
                    } else if stakes@[1] > BOND || stakes@[0] != 0 {
                        Err(HubRefusal::BondTerms)
                    } else {
                        Ok(())
                    },
                    Opened::Payment => if stakes@[1] != 0 {
                        Err(HubRefusal::Locked)
                    } else {
                        Ok(())
                    },
                    Opened::Unknown => Err(HubRefusal::UnknownProgram),
                },
                HubChange::Move { moved } => match moved {
                    Moved::Missing => Err(HubRefusal::NoContract),
                    Moved::Unreadable => Err(HubRefusal::Unreadable),
                    Moved::Registration { req_id, state } => if state == 1
                        && !self.hub_confirmed@.contains(req_id) {
                        Err(HubRefusal::NotConfirmed)
                    } else {
                        Ok(())
                    },
                    Moved::Other => Ok(()),
                },
                HubChange::Other => Ok(()),
            }
        }
    }

    /// What the hub says of a change.
    pub fn hub_policy(&self, veto: bool, change: &HubChange) -> (r: Result<(), HubRefusal>)
        ensures
            r == self.hub_spec(veto, *change),
    {
        if veto {
            return Err(HubRefusal::Veto);
        }
        match change {
            HubChange::Open { opened, stakes } => match opened {
                Opened::Unreadable => Err(HubRefusal::Unreadable),
                Opened::Registration(terms) => match self.made.get(&terms.req_id) {
                    None => Err(HubRefusal::NoPromise(terms.req_id)),
                    Some(p) => if !(same_hash(&p.checkpoint, &terms.checkpoint)
                        && p.checkpoint_height == terms.checkpoint_height && p.h_max as u64
                        + GRACE as u64 == terms.claim_from as u64) {
                        Err(HubRefusal::Mismatch)
                    } else if stakes[1] > BOND || stakes[0] != 0 {
                        Err(HubRefusal::BondTerms)
                    } else {
                        Ok(())
                    },
                },
                Opened::Payment => if stakes[1] != 0 {
                    Err(HubRefusal::Locked)
                } else {
                    Ok(())
                },
                Opened::Unknown => Err(HubRefusal::UnknownProgram),
            },
            HubChange::Move { moved } => match moved {
                Moved::Missing => Err(HubRefusal::NoContract),
                Moved::Unreadable => Err(HubRefusal::Unreadable),
                Moved::Registration { req_id, state } => if *state == 1
                    && !self.hub_confirmed.contains(req_id) {
                    Err(HubRefusal::NotConfirmed)
                } else {
                    Ok(())
                },
                Moved::Other => Ok(()),
            },
            HubChange::Other => Ok(()),
        }
    }

    // ----- promises -----

    /// Whether the hub submits a request's entry to the miner.
    pub open spec fn submits(self, req_id: u32) -> bool {
        !self.faults.no_submit && self.faults.omit_req != Some(req_id)
    }

    /// Whether a promise is inside the reveal window that starts at `window.0`
    /// and is `window.1` blocks long.
    pub open spec fn in_window(p: FcPromise, window: Option<(u32, u32)>) -> bool {
        window matches Some(w) ==> p.h_max <= w.0 + w.1 + W_MAX
    }

    /// The user's check before opening a bond: the promised height is inside the
    /// reveal window.
    pub fn user_checks_promise(p: &FcPromise, window: Option<(u32, u32)>) -> (r: Result<
        (),
        FcError,
    >)
        ensures
            r == (if FcWorld::in_window(*p, window) {
                Ok(())
            } else {
                Err(FcError::OutsideWindow)
            }),
    {
        match window {
            Some((h1, n)) => if p.h_max as u64 > h1 as u64 + n as u64 + W_MAX as u64 {
                Err(FcError::OutsideWindow)
            } else {
                Ok(())
            },
            None => Ok(()),
        }
    }

    /// Take the hub's promise: the hub has made it, and its entry is to be mined
    /// next, unless the hub does not submit it; the user takes the promise once it
    /// has checked it.
    pub fn take_promise(&mut self, p: FcPromise, window: Option<(u32, u32)>) -> (r: Result<
        (),
        FcError,
    >)
        ensures
            r == (if FcWorld::in_window(p, window) {
                Ok(())
            } else {
                Err(FcError::OutsideWindow)
            }),
            if old(self).submits(p.req_id) {
                final(self).pending_entry matches Some(e) && e@ == p.entry@
            } else {
                final(self).pending_entry == old(self).pending_entry
            },
            final(self).made@ == old(self).made@.insert(p.req_id, promise_terms(p)),
            final(self).promises@ == (if r is Ok {
                old(self).promises@.insert(p.req_id, p)
            } else {
                old(self).promises@
            }),
            *final(self) == (FcWorld {
                pending_entry: final(self).pending_entry,
                made: final(self).made,
                promises: final(self).promises,
                ..*old(self)
            }),
    {
        self.made.insert(
            p.req_id,
            PromiseTerms {
                h_max: p.h_max,
                checkpoint: p.checkpoint,
                checkpoint_height: p.checkpoint_height,
            },
        );
        let omitted: bool = match self.faults.omit_req {
            Some(id) => id == p.req_id,
            None => false,
        };
        if !self.faults.no_submit && !omitted {
            self.pending_entry = Some(vstd::slice::slice_to_vec(p.entry.as_slice()));
        }
        match FcWorld::user_checks_promise(&p, window) {
            Err(e) => Err(e),
            Ok(()) => {
                self.promises.insert(p.req_id, p);
                Ok(())
            },
        }
    }

    // ----- the bond's moves -----

    /// Whether the user moves in a bond: claims from `claim_from` on if the entry
    /// is not confirmed, and refutes the hub's chain once a heavier one is served.
    pub open spec fn user_moves_spec(
        self,
        req_id: u32,
        state: u32,
        height: u32,
        claim_from: u32,
    ) -> bool {
        match state {
            0 => height >= claim_from && !self.confirmed@.contains(req_id),
            2 => self.refuted@.contains(req_id),
            _ => false,
        }
    }

    /// Whether the user moves in a bond.
    pub fn user_moves(&self, req_id: u32, state: u32, height: u32, claim_from: u32) -> (r: bool)
        ensures
            r == self.user_moves_spec(req_id, state, height, claim_from),
    {
        match state {
            0 => height >= claim_from && !self.confirmed.contains(&req_id),
            2 => self.refuted.contains(&req_id),
            _ => false,
        }
    }

    /// Whether the user folds a bond: once the entry is confirmed.
    pub fn user_folds(&self, req_id: u32) -> (r: bool)
        ensures
            r == self.confirmed@.contains(req_id),
    {
        self.confirmed.contains(&req_id)
    }

    /// Whether the hub answers a claim: once its inclusion proof is served.
    pub fn hub_moves(&self, req_id: u32, state: u32) -> (r: bool)
        ensures
            r == (state == 1 && self.included@.contains(req_id)),
    {
        state == 1 && self.included.contains(&req_id)
    }

    /// Whether the prover of a payment claims it: the entry is confirmed.
    pub fn prover_moves(&self, req_id: u32, state: u32) -> (r: bool)
        ensures
            r == (state == 0 && self.confirmed@.contains(req_id)),
    {
        state == 0 && self.confirmed.contains(&req_id)
    }

    // ----- the clock -----

    /// What the next step mines: nothing without an entry to mine, unless in fork
    /// mode, where the real chain advances with an empty block every step and the
    /// entry, if there is one, goes to the fork. The entry is taken.
    pub fn step_plan(&mut self) -> (r: (MinePlan, Option<Vec<u8>>))
        ensures
            r.0 == (if old(self).fork {
                MinePlan::Fork
            } else if old(self).pending_entry is Some {
                MinePlan::Anchor
            } else {
                MinePlan::Plain
            }),
            r.1 == old(self).pending_entry,
            *final(self) == (FcWorld { pending_entry: None, ..*old(self) }),
    {
        let entry: Option<Vec<u8>> = self.pending_entry.take();
        let plan: MinePlan = if self.fork {
            MinePlan::Fork
        } else if entry.is_some() {
            MinePlan::Anchor
        } else {
            MinePlan::Plain
        };
        (plan, entry)
    }

    /// A block of the real chain is mined and verified by the users.
    pub fn block_mined(&mut self)
        requires
            old(self).chain_length < u32::MAX,
        ensures
            *final(self) == (FcWorld {
                chain_length: (old(self).chain_length + 1) as u32,
                ..*old(self)
            }),
    {
        self.chain_length = self.chain_length + 1;
    }

    /// The hub sees requests confirmed on the real chain: everyone does, and their
    /// proofs are served.
    pub fn confirm(&mut self, ids: &[u32])
        ensures
            final(self).confirmed@ == old(self).confirmed@.union(ids@.to_set()),
            final(self).hub_confirmed@ == old(self).hub_confirmed@.union(ids@.to_set()),
            final(self).included@ == old(self).included@.union(ids@.to_set()),
            *final(self) == (FcWorld {
                confirmed: final(self).confirmed,
                hub_confirmed: final(self).hub_confirmed,
                included: final(self).included,
                ..*old(self)
            }),
    {
        let ghost before = *self;
        let ghost none = ids@.take(0).to_set();
        assert(none =~= Set::<u32>::empty());
        assert(before.confirmed@.union(none) =~= before.confirmed@);
        assert(before.hub_confirmed@.union(none) =~= before.hub_confirmed@);
        assert(before.included@.union(none) =~= before.included@);
        for i in 0..ids.len()
            invariant
                self.confirmed@ == before.confirmed@.union(ids@.take(i as int).to_set()),
                self.hub_confirmed@ == before.hub_confirmed@.union(ids@.take(i as int).to_set()),
                self.included@ == before.included@.union(ids@.take(i as int).to_set()),
                *self == (FcWorld {
                    confirmed: self.confirmed,
                    hub_confirmed: self.hub_confirmed,
                    included: self.included,
                    ..before
                }),
        {
            let id: u32 = ids[i];
            proof {
                lemma_take_to_set(ids@, i as int);
            }
            self.confirmed.insert(id);
            self.hub_confirmed.insert(id);
            self.included.insert(id);
            let ghost upto = ids@.take(i + 1).to_set();
            assert(self.confirmed@ =~= before.confirmed@.union(upto));
            assert(self.hub_confirmed@ =~= before.hub_confirmed@.union(upto));
            assert(self.included@ =~= before.included@.union(upto));
        }
        assert(ids@.take(ids@.len() as int) =~= ids@);
    }

    /// Whether a request is already known to be on the fork.
    pub open spec fn on_fork(self, req_id: u32) -> bool {
        exists|i: int| 0 <= i < self.forked@.len() && #[trigger] self.forked@[i].req_id == req_id
    }

    fn is_on_fork(&self, req_id: u32) -> (r: bool)
        ensures
            r == self.on_fork(req_id),
    {
        for i in 0..self.forked.len()
            invariant
                forall|j: int| 0 <= j < i ==> #[trigger] self.forked@[j].req_id != req_id,
        {
            if self.forked[i].req_id == req_id {
                return true;
            }
        }
        false
    }

    /// The hub sees a request confirmed at `confirmed_height` on its fork: its proof
    /// covers the fork, and the request is remembered for its refutation, once. The
    /// users' view does not change.
    pub fn confirm_on_fork(&mut self, req_id: u32, checkpoint_height: u32, confirmed_height: u32)
        requires
            checkpoint_height <= confirmed_height,
        ensures
            final(self).hub_confirmed@ == old(self).hub_confirmed@.insert(req_id),
            final(self).included@ == (if old(self).on_fork(req_id) {
                old(self).included@
            } else {
                old(self).included@.insert(req_id)
            }),
            final(self).forked@ == (if old(self).on_fork(req_id) {
                old(self).forked@
            } else {
                old(self).forked@.push(
                    (Forked {
                        req_id,
                        checkpoint_height,
                        n_headers: (confirmed_height - checkpoint_height) as u32,
                    }),
                )
            }),
            *final(self) == (FcWorld {
                hub_confirmed: final(self).hub_confirmed,
                included: final(self).included,
                forked: final(self).forked,
                ..*old(self)
            }),
    {
        self.hub_confirmed.insert(req_id);
        if self.is_on_fork(req_id) {
            return;
        }
        self.included.insert(req_id);
        self.forked.push(
            Forked { req_id, checkpoint_height, n_headers: confirmed_height - checkpoint_height },
        );
    }

    /// Whether the refutation of a request on the fork is due: it is not served,
    /// and the real chain is one header longer than the fork.
    pub open spec fn refutation_spec(self, f: Forked) -> bool {
        !self.refuted@.contains(f.req_id) && self.genesis_height + self.chain_length
            >= f.checkpoint_height + f.n_headers + 1
    }

    /// The first request on the fork, from `start` on, whose refutation is due: its
    /// place, or an error if no promise was taken for it.
    pub fn refutation_due(&self, start: usize) -> (r: Result<Option<usize>, FcError>)
        ensures
            match r {
                Ok(Some(i)) => {
                    &&& start <= i < self.forked@.len()
                    &&& self.refutation_spec(self.forked@[i as int])
                    &&& self.promises@.contains_key(self.forked@[i as int].req_id)
                    &&& forall|j: int|
                        start <= j < i ==> !self.refutation_spec(#[trigger] self.forked@[j])
                },
                Ok(None) => forall|j: int|
                    start <= j < self.forked@.len() ==> !self.refutation_spec(
                        #[trigger] self.forked@[j],
                    ),
                Err(e) => exists|i: int|
                    {
                        &&& start <= i < self.forked@.len()
                        &&& self.refutation_spec(#[trigger] self.forked@[i])
                        &&& e == FcError::NoPromise(self.forked@[i].req_id)
                        &&& !self.promises@.contains_key(self.forked@[i].req_id)
                        &&& forall|j: int|
                            start <= j < i ==> !self.refutation_spec(#[trigger] self.forked@[j])
                    },
            },
    {
        let n: usize = self.forked.len();
        let tip: u64 = self.genesis_height as u64 + self.chain_length as u64;
        let mut i: usize = start;
        while i < n
            invariant
                n == self.forked@.len(),
                tip == self.genesis_height + self.chain_length,
                start <= i,
                forall|j: int|
                    start <= j < i && j < n ==> !self.refutation_spec(#[trigger] self.forked@[j]),
            decreases n - i,
        {
            let f: Forked = self.forked[i];
            if !self.refuted.contains(&f.req_id) && tip >= f.checkpoint_height as u64
                + f.n_headers as u64 + 1 {
                assert(self.refutation_spec(self.forked@[i as int]));
                return if self.promises.contains_key(&f.req_id) {
                    Ok(Some(i))
                } else {
                    Err(FcError::NoPromise(f.req_id))
                };
            }
            i = i + 1;
        }
        Ok(None)
    }

    /// The refutation of a request is served.
    pub fn serve_refutation(&mut self, req_id: u32)
        ensures
            final(self).refuted@ == old(self).refuted@.insert(req_id),
            *final(self) == (FcWorld { refuted: final(self).refuted, ..*old(self) }),
    {
        self.refuted.insert(req_id);
    }

    // ----- Alice's application steps -----

    /// Alice's commit is promised and bonded: she is registering.
    pub fn registered(&mut self, req_id: u32)
        ensures
            *final(self) == (FcWorld { registering: true, commit_req: Some(req_id), ..*old(self) }),
    {
        self.registering = true;
        self.commit_req = Some(req_id);
    }

    /// Whether Alice sends her reveal: she is registering, has not sent it, and her
    /// commit is confirmed.
    pub open spec fn reveal_spec(self) -> bool {
        self.registering && !self.reveal_sent && (self.commit_req matches Some(id)
            && self.confirmed@.contains(id))
    }

    /// Whether Alice sends her reveal now.
    pub fn reveal_due(&self) -> (r: bool)
        ensures
            r == self.reveal_spec(),
    {
        if self.registering && !self.reveal_sent {
            match self.commit_req {
                Some(id) => self.is_confirmed(id),
                None => false,
            }
        } else {
            false
        }
    }

    /// Alice sent her reveal.
    pub fn revealed(&mut self)
        ensures
            *final(self) == (FcWorld { reveal_sent: true, ..*old(self) }),
    {
        self.reveal_sent = true;
    }
}

proof fn lemma_take_to_set(ids: Seq<u32>, i: int)
    requires
        0 <= i < ids.len(),
    ensures
        ids.take(i + 1).to_set() == ids.take(i).to_set().insert(ids[i]),
{
    let a = ids.take(i + 1);
    let b = ids.take(i);
    assert forall|x: u32| a.to_set().contains(x) <==> b.to_set().insert(ids[i]).contains(x) by {
        if a.contains(x) {
            let k = choose|k: int| 0 <= k < a.len() && a[k] == x;
            if k < i {
                assert(b[k] == x);
            }
        }
        if b.contains(x) {
            let k = choose|k: int| 0 <= k < b.len() && b[k] == x;
            assert(a[k] == x);
        }
        if x == ids[i] {
            assert(a[i] == x);
        }
    }
    assert(a.to_set() =~= b.to_set().insert(ids[i]));
}

// ----- contracts -----

/// A contract to open.
#[derive(Clone, Copy, Debug, PartialEq, Eq, Structural)]
pub struct OpenPlan {
    /// In whose channel.
    pub who: Who,
    /// Who opens it.
    pub opener: Role,
    pub id: u32,
    /// The user's and the hub's stake.
    pub user_stake: u64,
    pub hub_stake: u64,
    pub deadline: u32,
}

/// A bond that the user opens: the hub's stake, until well after the claims.
pub fn bond_plan(who: Who, id: u32, h_max: u32, deadline_offset: u32) -> (plan: OpenPlan)
    requires
        h_max + GRACE + deadline_offset + BOND_SPAN <= u32::MAX,
    ensures
        plan == (OpenPlan {
            who,
            opener: Role::User,
            id,
            user_stake: 0,
            hub_stake: BOND,
            deadline: (h_max + GRACE + deadline_offset + BOND_SPAN) as u32,
        }),
{
    OpenPlan {
        who,
        opener: Role::User,
        id,
        user_stake: 0,
        hub_stake: BOND,
        deadline: h_max + GRACE + deadline_offset + BOND_SPAN,
    }
}

/// What a payment of a sale is gated on, and who proves it.
#[derive(Clone, Copy, Debug)]
pub struct LegTerms {
    pub prover: Role,
    pub checkpoint: Hash160,
    pub checkpoint_height: u32,
    pub h_max: u32,
}

/// The terms of a payment gated on a promise.
pub open spec fn leg_spec(prover: Role, p: FcPromise) -> LegTerms {
    LegTerms {
        prover,
        checkpoint: p.checkpoint,
        checkpoint_height: p.checkpoint_height,
        h_max: p.h_max,
    }
}

/// The contracts of a sale: leg 1, where Bob locks the price for the hub, who
/// proves the transfer; leg 2, where the hub locks it for Alice, who proves the
/// same; and Alice's bond on the transfer.
pub struct SalePlan {
    pub leg1: OpenPlan,
    pub leg1_terms: LegTerms,
    pub leg2: OpenPlan,
    pub leg2_terms: LegTerms,
    pub bond: OpenPlan,
    pub bond_terms: NRegFcParams,
}

/// The contracts of a sale on the terms of the transfer's promise, valid until
/// `h_sale`.
pub fn alice_sells(p: &FcPromise, h_sale: u32, deadline_offset: u32) -> (plan: SalePlan)
    requires
        p.h_max + GRACE + deadline_offset + BOND_SPAN <= u32::MAX,
    ensures
        plan.leg1 == (OpenPlan {
            who: Who::Bob,
            opener: Role::User,
            id: ID_LEG1,
            user_stake: PRICE,
            hub_stake: 0,
            deadline: h_sale,
        }),
        plan.leg1_terms == leg_spec(Role::Hub, *p),
        plan.leg2 == (OpenPlan {
            who: Who::Alice,
            opener: Role::Hub,
            id: ID_LEG2,
            user_stake: 0,
            hub_stake: PRICE,
            deadline: h_sale,
        }),
        plan.leg2_terms == leg_spec(Role::User, *p),
        plan.bond == (OpenPlan {
            who: Who::Alice,
            opener: Role::User,
            id: ID_TBOND,
            user_stake: 0,
            hub_stake: BOND,
            deadline: (p.h_max + GRACE + deadline_offset + BOND_SPAN) as u32,
        }),
        plan.bond_terms == bond_terms_spec(*p),
{
    SalePlan {
        leg1: OpenPlan {
            who: Who::Bob,
            opener: Role::User,
            id: ID_LEG1,
            user_stake: PRICE,
            hub_stake: 0,
            deadline: h_sale,
        },
        leg1_terms: LegTerms {
            prover: Role::Hub,
            checkpoint: p.checkpoint,
            checkpoint_height: p.checkpoint_height,
            h_max: p.h_max,
        },
        leg2: OpenPlan {
            who: Who::Alice,
            opener: Role::Hub,
            id: ID_LEG2,
            user_stake: 0,
            hub_stake: PRICE,
            deadline: h_sale,
        },
        leg2_terms: LegTerms {
            prover: Role::User,
            checkpoint: p.checkpoint,
            checkpoint_height: p.checkpoint_height,
            h_max: p.h_max,
        },
        bond: bond_plan(Who::Alice, ID_TBOND, p.h_max, deadline_offset),
        bond_terms: bond_terms(p),
    }
}

// ----- laws -----

/// The hub accepts the bond that a user opens on the terms of a promise that it
/// made, whatever the user's own check of the promise said.
pub proof fn law_bond_on_promise_is_accepted(
    w: FcWorld,
    p: FcPromise,
    promised: FcWorld,
    stakes: [u64; 2],
)
    requires
        promised.made@ == w.made@.insert(p.req_id, promise_terms(p)),
        p.h_max + GRACE <= u32::MAX,
        stakes@[0] == 0,
        stakes@[1] <= BOND,
    ensures
        promised.hub_spec(
            false,
            HubChange::Open { opened: Opened::Registration(bond_terms_spec(p)), stakes },
        ) == Ok::<(), HubRefusal>(()),
{
}

/// A user never both claims a bond and folds it before the claim.
pub proof fn law_claim_or_fold(w: FcWorld, req_id: u32, height: u32, claim_from: u32)
    ensures
        !(w.user_moves_spec(req_id, 0, height, claim_from) && w.confirmed@.contains(req_id)),
{
}

/// Once the refutation of the hub's fork is served, the user refutes the hub's
/// answer with it, and it is not due again.
pub proof fn law_fork_is_refuted(w: FcWorld, f: Forked, served: FcWorld, height: u32, from: u32)
    requires
        w.refutation_spec(f),
        served.refuted@ == w.refuted@.insert(f.req_id),
    ensures
        served.user_moves_spec(f.req_id, 2, height, from),
        !served.refutation_spec(f),
{
}

} // verus!
