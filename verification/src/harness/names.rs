//! A bonded name registry: two channels (Alice's and Bob's) with one hub that
//! anchors the registry on the chain.
//!
//! The hub promises an anchor height, the bond is written against it, and every
//! fact about the registry is an inclusion proof. The world serves the registry's
//! proof data to everyone and performs the users' application steps; it never
//! tells a party what to broadcast.

use std::collections::{HashMap, HashSet};

use vstd::prelude::*;
use vstd::string::StringExecFns;

use crate::harness::ledger::{same_txid, TxidBytes};
use crate::harness::text::{
    decimal, decimal_text, has_prefix, law_decimal_injective, parse_decimal, starts_with,
    strip_prefix,
};
use crate::harness::Role;

verus! {

broadcast use vstd::std_specs::hash::group_hash_axioms;

/// Contracts that carry a claim of 128 steps reserve about 27k satoshis of
/// pre-signed dispute fees per depth, so bonds and payments are 40k.
pub const BOND: u64 = 40_000;

pub const PRICE: u64 = 40_000;

pub const ID_BOND: u32 = 10;

pub const ID_RBOND: u32 = 11;

pub const ID_LEG1: u32 = 20;

pub const ID_LEG2: u32 = 21;

pub const ID_TBOND: u32 = 22;

/// Blocks after the promised anchor height from which the user may claim.
pub const GRACE: u32 = 2;

/// Blocks that a bond stays open after the channel's own deadline offset.
pub const BOND_SPAN: u32 = 40;

/// A user of the registry.
#[derive(Clone, Copy, Debug, PartialEq, Eq, Hash, Structural)]
pub enum Who {
    Alice,
    Bob,
}

// ----- slots and programs -----

/// The name of a request's slot.
pub open spec fn slot_text(req_id: u32) -> Seq<char> {
    "req"@ + decimal_text(req_id as nat)
}

/// The name of a request's slot.
pub fn slot(req_id: u32) -> (s: String)
    ensures
        s@ == slot_text(req_id),
{
    String::from_str("req").concat(decimal(req_id).as_str())
}

/// Different requests have different slots.
pub proof fn law_slots_differ(a: u32, b: u32)
    requires
        slot_text(a) == slot_text(b),
    ensures
        a == b,
{
    let n = "req"@.len() as int;
    assert(slot_text(a).skip(n) =~= decimal_text(a as nat));
    assert(slot_text(b).skip(n) =~= decimal_text(b as nat));
    law_decimal_injective(a as nat, b as nat);
}

/// Program names for logs and opens.
pub trait ProgramName {
    /// The program's name.
    spec fn full_name(&self) -> Seq<char>;

    fn program_name(&self) -> (name: String)
        ensures
            name@ == self.full_name(),
    ;
}

/// A bond on a registration, by its parameters' text.
pub struct NReg {
    pub params: String,
}

/// A payment gated on an inclusion proof, by its parameters' text.
pub struct AnchorPay {
    pub params: String,
}

impl ProgramName for NReg {
    open spec fn full_name(&self) -> Seq<char> {
        "nreg:"@ + self.params@
    }

    fn program_name(&self) -> (name: String) {
        String::from_str("nreg:").concat(self.params.as_str())
    }
}

impl ProgramName for AnchorPay {
    open spec fn full_name(&self) -> Seq<char> {
        "anchorpay:"@ + self.params@
    }

    fn program_name(&self) -> (name: String) {
        String::from_str("anchorpay:").concat(self.params.as_str())
    }
}

/// What a program's name says that it is.
pub enum ProgramKind {
    /// A bond on a registration, with its parameters' text.
    Registration(String),
    /// A payment gated on an inclusion proof.
    Payment,
    Unknown,
}

/// What the hub takes a program for, by its name's prefix.
pub fn program_kind(name: &str) -> (kind: ProgramKind)
    ensures
        match kind {
            ProgramKind::Registration(params) => has_prefix(name@, "nreg:"@) && params@
                == name@.skip("nreg:"@.len() as int),
            ProgramKind::Payment => !has_prefix(name@, "nreg:"@) && has_prefix(
                name@,
                "anchorpay:"@,
            ),
            ProgramKind::Unknown => !has_prefix(name@, "nreg:"@) && !has_prefix(
                name@,
                "anchorpay:"@,
            ),
        },
{
    match strip_prefix(name, "nreg:") {
        Some(params) => ProgramKind::Registration(params),
        None => if starts_with(name, "anchorpay:") {
            ProgramKind::Payment
        } else {
            ProgramKind::Unknown
        },
    }
}

/// The hub knows the programs by the names that they give themselves.
pub proof fn law_names_are_recognised(bond: NReg, payment: AnchorPay)
    ensures
        has_prefix(bond.full_name(), "nreg:"@),
        bond.full_name().skip("nreg:"@.len() as int) == bond.params@,
        has_prefix(payment.full_name(), "anchorpay:"@),
        !has_prefix(payment.full_name(), "nreg:"@),
{
    let n = "nreg:"@.len() as int;
    assert(bond.full_name().take(n) =~= "nreg:"@);
    assert(bond.full_name().skip(n) =~= bond.params@);
    assert(payment.full_name().take("anchorpay:"@.len() as int) =~= "anchorpay:"@);
    reveal_strlit("nreg:");
    reveal_strlit("anchorpay:");
    assert(payment.full_name()[0] == 'a');
    if has_prefix(payment.full_name(), "nreg:"@) {
        assert(payment.full_name().take(n)[0] == 'n');
    }
}

// ----- the hub's policy -----

/// Whether two byte strings are the same.
pub fn same_bytes(a: &[u8], b: &[u8]) -> (r: bool)
    ensures
        r == (a@ == b@),
{
    if a.len() != b.len() {
        return false;
    }
    for i in 0..a.len()
        invariant
            a@.len() == b@.len(),
            forall|j: int| 0 <= j < i ==> a@[j] == b@[j],
    {
        if a[i] != b[i] {
            return false;
        }
    }
    assert(a@ =~= b@);
    true
}

/// An output of a transaction.
#[derive(Clone, Copy, Debug)]
pub struct Outpoint {
    pub txid: TxidBytes,
    pub vout: u32,
}

impl Outpoint {
    /// Whether two outputs are the same.
    pub open spec fn same_spec(self, other: Outpoint) -> bool {
        self.txid@ == other.txid@ && self.vout == other.vout
    }

    /// Whether two outputs are the same.
    pub fn same(&self, other: &Outpoint) -> (r: bool)
        ensures
            r == self.same_spec(*other),
    {
        same_txid(&self.txid, &other.txid) && self.vout == other.vout
    }
}

/// A receipt of the hub: the height that it promised the anchor for, the anchor
/// that it is to follow, and the shape of the proof, in bytes.
pub struct Receipt {
    pub promised_height: u32,
    pub prev_anchor: Outpoint,
    pub shape: Vec<u8>,
    /// Headers that the proof covers.
    pub n_headers: u32,
}

/// What a change opens.
pub enum Opened {
    /// A bond on a request, with a proof of this shape.
    Registration { req_id: u32, shape: Vec<u8> },
    Payment,
    Unknown,
    /// A bond whose parameters cannot be read.
    Unreadable,
}

/// The contract that a change moves.
pub enum Moved {
    /// There is none of that id.
    Missing,
    /// A bond on a request, in this state; the slot is the one that it names.
    Registration { req_id: u32, slot: String, state: u32 },
    /// A bond whose parameters cannot be read.
    Unreadable,
    /// Another contract.
    Other,
}

/// A change of the channel's state that the user proposes.
pub enum HubChange {
    Open { opened: Opened, stakes: [u64; 2] },
    Move { moved: Moved },
    Other,
}

/// Why the hub refuses a change.
#[derive(Clone, Copy, Debug, PartialEq, Eq, Structural)]
pub enum HubRefusal {
    /// The scenario's own refusal.
    Veto,
    Unreadable,
    /// No such receipt was issued.
    NoReceipt(u32),
    /// The bond's terms do not match the receipt.
    Mismatch,
    /// The bond is too large, or the user has a stake in it.
    BondTerms,
    /// The hub does not lock into payments that users open.
    Locked,
    UnknownProgram,
    NoContract,
    /// The hub can prove that the request is anchored, and answers on-chain.
    CanProve(u32),
}

/// Why a user refuses a receipt.
#[derive(Clone, Copy, Debug, PartialEq, Eq, Structural)]
pub enum ReceiptRefusal {
    /// The anchors that the user sees do not form a chain.
    BrokenChain,
    /// The receipt names another anchor than the tip of the chain.
    WrongTip,
}

/// The registry's world.
pub struct NamesWorld {
    /// The shapes of the receipts that the hub issued, by request, whether or not
    /// a user took them.
    pub issued: HashMap<u32, Vec<u8>>,
    /// The receipts that the users took, by request.
    pub receipts: HashMap<u32, Receipt>,
    /// Requests whose entry the public ledger shows anchored.
    pub anchored: HashSet<u32>,
    /// Requests whose inclusion proof is served.
    pub included: HashSet<u32>,
    /// Requests whose refutation (a heavier chain) is served.
    pub refuted: HashSet<u32>,
    /// Whether the hub mines its anchors on a private fork.
    pub fork: bool,
    /// Requests anchored on the fork.
    pub forked: Vec<Forked>,
    pub reveal_sent: bool,
    pub registering: bool,
    pub commit_req: Option<u32>,
}

/// A request that is anchored on the hub's fork: the proof covers `n_headers`
/// headers after `receipt_height`.
#[derive(Clone, Copy, Debug, PartialEq, Eq, Structural)]
pub struct Forked {
    pub req_id: u32,
    pub receipt_height: u32,
    pub n_headers: u32,
}

impl NamesWorld {
    /// A registry at its start.
    pub fn new() -> (w: NamesWorld)
        ensures
            w.issued@ == Map::<u32, Vec<u8>>::empty(),
            w.receipts@ == Map::<u32, Receipt>::empty(),
            w.anchored@ == Set::<u32>::empty(),
            w.included@ == Set::<u32>::empty(),
            w.refuted@ == Set::<u32>::empty(),
            !w.fork && w.forked@.len() == 0,
            !w.reveal_sent && !w.registering && w.commit_req is None,
    {
        NamesWorld {
            issued: HashMap::new(),
            receipts: HashMap::new(),
            anchored: HashSet::new(),
            included: HashSet::new(),
            refuted: HashSet::new(),
            fork: false,
            forked: Vec::new(),
            reveal_sent: false,
            registering: false,
            commit_req: None,
        }
    }

    /// Whether the public ledger shows a request anchored.
    pub fn is_anchored(&self, req_id: u32) -> (r: bool)
        ensures
            r == self.anchored@.contains(req_id),
    {
        self.anchored.contains(&req_id)
    }

    /// Whether the inclusion proof of the request in a slot is served.
    pub open spec fn slot_included(self, slot: Seq<char>) -> bool {
        exists|id: u32| self.included@.contains(id) && #[trigger] slot_text(id) == slot
    }

    /// Whether the inclusion proof of the request in a slot is served.
    fn is_slot_included(&self, slot: &str) -> (r: bool)
        ensures
            r == self.slot_included(slot@),
    {
        let ghost prefix = "req"@;
        match strip_prefix(slot, "req") {
            None => {
                assert forall|id: u32| #[trigger] slot_text(id) != slot@ by {
                    assert(slot_text(id).take(prefix.len() as int) =~= prefix);
                }
                false
            },
            Some(rest) => match parse_decimal(rest.as_str()) {
                None => {
                    assert forall|id: u32| #[trigger] slot_text(id) != slot@ by {
                        assert(slot_text(id).skip(prefix.len() as int) =~= decimal_text(id as nat));
                    }
                    false
                },
                Some(id) => {
                    assert(slot_text(id) =~= slot@) by {
                        assert(slot@ =~= slot@.take(prefix.len() as int) + rest@);
                    }
                    assert forall|k: u32| #[trigger] slot_text(k) == slot@ implies k == id by {
                        law_slots_differ(k, id);
                    }
                    self.included.contains(&id)
                },
            },
        }
    }

    /// What the hub says of a change: bonds only for receipts that it issued, on
    /// their terms and without a stake of the user's; payments only where it locks
    /// nothing; no claim of a request that it can prove anchored. `veto` is the
    /// scenario's own refusal.
    pub open spec fn hub_spec(self, veto: bool, change: HubChange) -> Result<(), HubRefusal> {
        if veto {
            Err(HubRefusal::Veto)
        } else {
            match change {
                HubChange::Open { opened, stakes } => match opened {
                    Opened::Unreadable => Err(HubRefusal::Unreadable),
                    Opened::Registration { req_id, shape } => if !self.issued@.contains_key(
                        req_id,
                    ) {
                        Err(HubRefusal::NoReceipt(req_id))
                    } else if self.issued@[req_id]@ != shape@ {
                        Err(HubRefusal::Mismatch)
                    } else if stakes@[1] > BOND || stakes@[0] != 0 {
                        Err(HubRefusal::BondTerms)
                    } else {
                        Ok(())
                    },
                    Opened::Payment => if stakes@[1] != 0 {
                        Err(HubRefusal::Locked)
                    } else {
                        Ok(())
                    },
                    Opened::Unknown => Err(HubRefusal::UnknownProgram),
                },
                HubChange::Move { moved } => match moved {
                    Moved::Missing => Err(HubRefusal::NoContract),
                    Moved::Unreadable => Err(HubRefusal::Unreadable),
                    Moved::Registration { req_id, slot, state } => if state == 0
                        && self.slot_included(slot@) {
                        Err(HubRefusal::CanProve(req_id))
                    } else {
                        Ok(())
                    },
                    Moved::Other => Ok(()),
                },
                HubChange::Other => Ok(()),
            }
        }
    }

    /// What the hub says of a change.
    pub fn hub_policy(&self, veto: bool, change: &HubChange) -> (r: Result<(), HubRefusal>)
        ensures
            r == self.hub_spec(veto, *change),
    {
        if veto {
            return Err(HubRefusal::Veto);
        }
        match change {
            HubChange::Open { opened, stakes } => match opened {
                Opened::Unreadable => Err(HubRefusal::Unreadable),
                Opened::Registration { req_id, shape } => match self.issued.get(req_id) {
                    None => Err(HubRefusal::NoReceipt(*req_id)),
                    Some(issued) => if !same_bytes(issued.as_slice(), shape.as_slice()) {
                        Err(HubRefusal::Mismatch)
                    } else if stakes[1] > BOND || stakes[0] != 0 {
                        Err(HubRefusal::BondTerms)
                    } else {
                        Ok(())
                    },
                },
                Opened::Payment => if stakes[1] != 0 {
                    Err(HubRefusal::Locked)
                } else {
                    Ok(())
                },
                Opened::Unknown => Err(HubRefusal::UnknownProgram),
            },
            HubChange::Move { moved } => match moved {
                Moved::Missing => Err(HubRefusal::NoContract),
                Moved::Unreadable => Err(HubRefusal::Unreadable),
                Moved::Registration { req_id, slot, state } => if *state == 0
                    && self.is_slot_included(slot.as_str()) {
                    Err(HubRefusal::CanProve(*req_id))
                } else {
                    Ok(())
                },
                Moved::Other => Ok(()),
            },
            HubChange::Other => Ok(()),
        }
    }

    // ----- the bond's moves -----

    /// Whether the user moves in a bond: claims from `d_receipt` on if the entry is
    /// not anchored, and refutes the hub's chain once a heavier one is served.
    pub open spec fn user_moves_spec(
        self,
        req_id: u32,
        state: u32,
        height: u32,
        d_receipt: u32,
    ) -> bool {
        match state {
            0 => height >= d_receipt && !self.anchored@.contains(req_id),
            2 => self.refuted@.contains(req_id),
            _ => false,
        }
    }

    /// Whether the user folds a bond: before any claim, once the entry is anchored.
    pub open spec fn user_folds_spec(self, req_id: u32, state: u32) -> bool {
        state == 0 && self.anchored@.contains(req_id)
    }

    /// Whether the user moves in a bond.
    pub fn user_moves(&self, req_id: u32, state: u32, height: u32, d_receipt: u32) -> (r: bool)
        ensures
            r == self.user_moves_spec(req_id, state, height, d_receipt),
    {
        match state {
            0 => height >= d_receipt && !self.anchored.contains(&req_id),
            2 => self.refuted.contains(&req_id),
            _ => false,
        }
    }

    /// Whether the user folds a bond.
    pub fn user_folds(&self, req_id: u32, state: u32) -> (r: bool)
        ensures
            r == self.user_folds_spec(req_id, state),
    {
        state == 0 && self.anchored.contains(&req_id)
    }

    /// Whether the hub answers a claim: once it has its inclusion proof.
    pub open spec fn hub_moves_spec(self, req_id: u32, state: u32) -> bool {
        state == 1 && self.included@.contains(req_id)
    }

    /// Whether the hub answers a claim.
    pub fn hub_moves(&self, req_id: u32, state: u32) -> (r: bool)
        ensures
            r == self.hub_moves_spec(req_id, state),
    {
        state == 1 && self.included.contains(&req_id)
    }

    /// Whether the prover of a payment claims it: the inclusion proof is served.
    pub fn prover_moves(&self, req_id: u32, state: u32) -> (r: bool)
        ensures
            r == (state == 0 && self.included@.contains(req_id)),
    {
        state == 0 && self.included.contains(&req_id)
    }

    /// Whether the payer refutes a claimed payment: a heavier chain is served.
    pub fn payer_moves(&self, req_id: u32, state: u32) -> (r: bool)
        ensures
            r == (state == 1 && self.refuted@.contains(req_id)),
    {
        state == 1 && self.refuted.contains(&req_id)
    }

    // ----- what the world does -----

    /// What the user says of a receipt: it has to name the tip of the chain of
    /// anchors that the user walked, `None` where they form no chain.
    pub open spec fn tip_spec(prev_anchor: Outpoint, tip: Option<Outpoint>) -> Result<
        (),
        ReceiptRefusal,
    > {
        match tip {
            None => Err(ReceiptRefusal::BrokenChain),
            Some(t) => if t.same_spec(prev_anchor) {
                Ok(())
            } else {
                Err(ReceiptRefusal::WrongTip)
            },
        }
    }

    /// The user's check before trusting a receipt: the anchor that it names is the
    /// tip of the chain of anchors.
    pub fn user_checks_tip(prev_anchor: &Outpoint, tip: Option<Outpoint>) -> (r: Result<
        (),
        ReceiptRefusal,
    >)
        ensures
            r == NamesWorld::tip_spec(*prev_anchor, tip),
    {
        match tip {
            None => Err(ReceiptRefusal::BrokenChain),
            Some(t) => if t.same(prev_anchor) {
                Ok(())
            } else {
                Err(ReceiptRefusal::WrongTip)
            },
        }
    }

    /// Take the receipt of a request: the hub has issued it, and the user takes it
    /// once it has checked it against the tip of the anchors.
    pub fn take_receipt(&mut self, req_id: u32, receipt: Receipt, tip: Option<Outpoint>) -> (r:
        Result<(), ReceiptRefusal>)
        ensures
            r == NamesWorld::tip_spec(receipt.prev_anchor, tip),
            final(self).issued@ == old(self).issued@.insert(req_id, final(self).issued@[req_id]),
            final(self).issued@[req_id]@ == receipt.shape@,
            final(self).receipts@ == (if r is Ok {
                old(self).receipts@.insert(req_id, receipt)
            } else {
                old(self).receipts@
            }),
            *final(self) == (NamesWorld {
                issued: final(self).issued,
                receipts: final(self).receipts,
                ..*old(self)
            }),
    {
        self.issued.insert(req_id, vstd::slice::slice_to_vec(receipt.shape.as_slice()));
        match NamesWorld::user_checks_tip(&receipt.prev_anchor, tip) {
            Err(e) => Err(e),
            Ok(()) => {
                self.receipts.insert(req_id, receipt);
                Ok(())
            },
        }
    }

    /// Alice's commit is receipted and bonded: she is registering.
    pub fn registered(&mut self, req_id: u32)
        ensures
            *final(self) == (NamesWorld {
                registering: true,
                commit_req: Some(req_id),
                ..*old(self)
            }),
    {
        self.registering = true;
        self.commit_req = Some(req_id);
    }

    /// Whether Alice sends her reveal: she is registering, has not sent it, and her
    /// commit is anchored.
    pub open spec fn reveal_spec(self) -> bool {
        self.registering && !self.reveal_sent && (self.commit_req matches Some(id)
            && self.anchored@.contains(id))
    }

    /// Whether Alice sends her reveal now.
    pub fn reveal_due(&self) -> (r: bool)
        ensures
            r == self.reveal_spec(),
    {
        if self.registering && !self.reveal_sent {
            match self.commit_req {
                Some(id) => self.is_anchored(id),
                None => false,
            }
        } else {
            false
        }
    }

    /// Alice sent her reveal.
    pub fn revealed(&mut self)
        ensures
            *final(self) == (NamesWorld { reveal_sent: true, ..*old(self) }),
    {
        self.reveal_sent = true;
    }

    /// How the next block is mined: plainly without an anchor; else with it, and
    /// orphaned again on the hub's private fork.
    pub fn mine_plan(&self, anchor_pending: bool) -> (plan: MinePlan)
        ensures
            plan == (if !anchor_pending {
                MinePlan::Plain
            } else if self.fork {
                MinePlan::Fork
            } else {
                MinePlan::Anchor
            }),
    {
        if !anchor_pending {
            MinePlan::Plain
        } else if self.fork {
            MinePlan::Fork
        } else {
            MinePlan::Anchor
        }
    }

    /// The first of the headers that the inclusion proof of a request anchored at
    /// `h` covers, and whether the request is known.
    pub fn proof_start(&self, req_id: u32, h: u32) -> (r: Option<u32>)
        requires
            h < u32::MAX,
            self.receipts@.contains_key(req_id) ==> self.receipts@[req_id].n_headers <= h,
        ensures
            r == (if self.receipts@.contains_key(req_id) {
                Some((h + 1 - self.receipts@[req_id].n_headers) as u32)
            } else {
                None
            }),
    {
        match self.receipts.get(&req_id) {
            None => None,
            Some(r) => Some(h + 1 - r.n_headers),
        }
    }

    /// The inclusion proof of a request anchored at `h` is served. The public ledger
    /// shows the entry if the hub included it and the anchor is in the users'
    /// chain; a request anchored on the fork is remembered for its refutation.
    pub fn serve_inclusion(&mut self, req_id: u32, h: u32, listed: bool) -> (r: Served)
        requires
            old(self).receipts@.contains_key(req_id),
            old(self).receipts@[req_id].n_headers <= h,
        ensures
            r == (if !listed {
                Served::NotListed
            } else if old(self).fork {
                Served::OnFork
            } else {
                Served::Anchored
            }),
            final(self).included@ == old(self).included@.insert(req_id),
            final(self).anchored@ == (if listed && !old(self).fork {
                old(self).anchored@.insert(req_id)
            } else {
                old(self).anchored@
            }),
            final(self).forked@ == (if old(self).fork {
                old(self).forked@.push(
                    (Forked {
                        req_id,
                        receipt_height: (h - old(self).receipts@[req_id].n_headers) as u32,
                        n_headers: old(self).receipts@[req_id].n_headers,
                    }),
                )
            } else {
                old(self).forked@
            }),
            *final(self) == (NamesWorld {
                included: final(self).included,
                anchored: final(self).anchored,
                forked: final(self).forked,
                ..*old(self)
            }),
    {
        let n: u32 = match self.receipts.get(&req_id) {
            Some(r) => r.n_headers,
            None => 0,
        };
        self.included.insert(req_id);
        if listed && !self.fork {
            self.anchored.insert(req_id);
        }
        if self.fork {
            self.forked.push(Forked { req_id, receipt_height: h - n, n_headers: n });
        }
        if !listed {
            Served::NotListed
        } else if self.fork {
            Served::OnFork
        } else {
            Served::Anchored
        }
    }

    /// Whether the refutation of a request on the fork is due at height `h`: it is
    /// not served, and the real chain is one header longer than the fork.
    pub open spec fn refutation_spec(self, f: Forked, h: u32) -> bool {
        !self.refuted@.contains(f.req_id) && h >= f.receipt_height + f.n_headers + 1
    }

    /// The first request on the fork, from `start` on, whose refutation is due.
    pub fn refutation_due(&self, start: usize, h: u32) -> (r: Option<usize>)
        ensures
            match r {
                Some(i) => {
                    &&& start <= i < self.forked@.len()
                    &&& self.refutation_spec(self.forked@[i as int], h)
                    &&& forall|j: int|
                        start <= j < i ==> !self.refutation_spec(#[trigger] self.forked@[j], h)
                },
                None => forall|j: int|
                    start <= j < self.forked@.len() ==> !self.refutation_spec(
                        #[trigger] self.forked@[j],
                        h,
                    ),
            },
    {
        let n: usize = self.forked.len();
        let mut i: usize = start;
        while i < n
            invariant
                n == self.forked@.len(),
                start <= i,
                forall|j: int|
                    start <= j < i && j < n ==> !self.refutation_spec(
                        #[trigger] self.forked@[j],
                        h,
                    ),
            decreases n - i,
        {
            let f: Forked = self.forked[i];
            let tip: u64 = f.receipt_height as u64 + f.n_headers as u64 + 1;
            if !self.refuted.contains(&f.req_id) && h as u64 >= tip {
                return Some(i);
            }
            i = i + 1;
        }
        None
    }

    /// The refutation of a request is served.
    pub fn serve_refutation(&mut self, req_id: u32)
        ensures
            final(self).refuted@ == old(self).refuted@.insert(req_id),
            *final(self) == (NamesWorld { refuted: final(self).refuted, ..*old(self) }),
    {
        self.refuted.insert(req_id);
    }
}

/// How a block is mined.
#[derive(Clone, Copy, Debug, PartialEq, Eq, Structural)]
pub enum MinePlan {
    /// Without an anchor.
    Plain,
    /// With the hub's anchor.
    Anchor,
    /// With the hub's anchor on a private fork that only the hub sees.
    Fork,
}

/// What a served proof shows.
#[derive(Clone, Copy, Debug, PartialEq, Eq, Structural)]
pub enum Served {
    /// The entry is not in the anchored ledger.
    NotListed,
    /// The entry is anchored on the hub's fork only.
    OnFork,
    /// The entry is anchored.
    Anchored,
}

/// A receipt as the hub sees it when a block is anchored.
#[derive(Clone, Copy, Debug)]
pub struct ReceiptRow {
    pub req_id: u32,
    pub promised_height: u32,
    pub anchored: bool,
}

/// The requests that the hub promised for a height and left out.
pub open spec fn omitted_spec(rows: Seq<ReceiptRow>, h: u32) -> Seq<u32>
    decreases rows.len(),
{
    if rows.len() == 0 {
        Seq::empty()
    } else if rows.last().promised_height == h && !rows.last().anchored {
        omitted_spec(rows.drop_last(), h).push(rows.last().req_id)
    } else {
        omitted_spec(rows.drop_last(), h)
    }
}

/// The requests that the hub promised for a height and left out, in the order of
/// the rows.
pub fn omitted(rows: &[ReceiptRow], h: u32) -> (ids: Vec<u32>)
    ensures
        ids@ == omitted_spec(rows@, h),
{
    let mut ids: Vec<u32> = Vec::new();
    assert(ids@ =~= omitted_spec(rows@.take(0), h));
    for i in 0..rows.len()
        invariant
            ids@ == omitted_spec(rows@.take(i as int), h),
    {
        assert(rows@.take(i + 1).drop_last() =~= rows@.take(i as int));
        assert(rows@.take(i + 1).last() == rows@[i as int]);
        if rows[i].promised_height == h && !rows[i].anchored {
            ids.push(rows[i].req_id);
        }
    }
    assert(rows@.take(rows@.len() as int) =~= rows@);
    ids
}

/// The place of a transaction in a block.
pub fn position(txids: &[TxidBytes], txid: &TxidBytes) -> (r: Option<usize>)
    ensures
        match r {
            Some(i) => i < txids@.len() && txids@[i as int]@ == txid@ && forall|j: int|
                0 <= j < i ==> (#[trigger] txids@[j])@ != txid@,
            None => forall|j: int| 0 <= j < txids@.len() ==> (#[trigger] txids@[j])@ != txid@,
        },
{
    for i in 0..txids.len()
        invariant
            forall|j: int| 0 <= j < i ==> (#[trigger] txids@[j])@ != txid@,
    {
        if same_txid(&txids[i], txid) {
            return Some(i);
        }
    }
    None
}

// ----- contracts -----

/// A contract to open.
#[derive(Clone, Copy, Debug, PartialEq, Eq, Structural)]
pub struct OpenPlan {
    /// In whose channel.
    pub who: Who,
    /// Who opens it.
    pub opener: Role,
    pub id: u32,
    /// The user's and the hub's stake.
    pub user_stake: u64,
    pub hub_stake: u64,
    pub deadline: u32,
}

/// The height from which a bond's user may claim.
pub fn claim_from(promised_height: u32) -> (d: u32)
    requires
        promised_height + GRACE <= u32::MAX,
    ensures
        d == promised_height + GRACE,
{
    promised_height + GRACE
}

/// A bond that the user opens: the hub's stake, until well after the claims.
pub fn bond_plan(who: Who, id: u32, promised_height: u32, deadline_offset: u32) -> (plan: OpenPlan)
    requires
        promised_height + GRACE + deadline_offset + BOND_SPAN <= u32::MAX,
    ensures
        plan == (OpenPlan {
            who,
            opener: Role::User,
            id,
            user_stake: 0,
            hub_stake: BOND,
            deadline: (promised_height + GRACE + deadline_offset + BOND_SPAN) as u32,
        }),
{
    OpenPlan {
        who,
        opener: Role::User,
        id,
        user_stake: 0,
        hub_stake: BOND,
        deadline: claim_from(promised_height) + deadline_offset + BOND_SPAN,
    }
}

/// The two payments of a sale: Bob locks the price for the hub, the hub locks it
/// for Alice, both until the sale's height.
pub fn sale_legs(h_sale: u32) -> (legs: [OpenPlan; 2])
    ensures
        legs@[0] == (OpenPlan {
            who: Who::Bob,
            opener: Role::User,
            id: ID_LEG1,
            user_stake: PRICE,
            hub_stake: 0,
            deadline: h_sale,
        }),
        legs@[1] == (OpenPlan {
            who: Who::Alice,
            opener: Role::Hub,
            id: ID_LEG2,
            user_stake: 0,
            hub_stake: PRICE,
            deadline: h_sale,
        }),
{
    [
        OpenPlan {
            who: Who::Bob,
            opener: Role::User,
            id: ID_LEG1,
            user_stake: PRICE,
            hub_stake: 0,
            deadline: h_sale,
        },
        OpenPlan {
            who: Who::Alice,
            opener: Role::Hub,
            id: ID_LEG2,
            user_stake: 0,
            hub_stake: PRICE,
            deadline: h_sale,
        },
    ]
}

// ----- laws -----

/// The hub accepts the bond that a user opens on the terms of a receipt that it
/// issued, whatever the user's own check of the receipt said.
pub proof fn law_bond_on_receipt_is_accepted(
    w: NamesWorld,
    req_id: u32,
    shape: Vec<u8>,
    stakes: [u64; 2],
)
    requires
        w.issued@.contains_key(req_id),
        shape@ == w.issued@[req_id]@,
        stakes@[0] == 0,
        stakes@[1] <= BOND,
    ensures
        w.hub_spec(
            false,
            HubChange::Open { opened: Opened::Registration { req_id, shape }, stakes },
        ) == Ok::<(), HubRefusal>(()),
{
}

/// The hub refuses the claim of a bond that names its request's slot off-chain
/// exactly where it can answer it on-chain.
pub proof fn law_hub_answers_where_it_refuses(w: NamesWorld, req_id: u32, slot: String)
    requires
        slot@ == slot_text(req_id),
    ensures
        w.hub_spec(
            false,
            HubChange::Move { moved: Moved::Registration { req_id, slot, state: 0 } },
        ) is Err <==> w.hub_moves_spec(req_id, 1),
{
    assert forall|k: u32| #[trigger] slot_text(k) == slot@ implies k == req_id by {
        law_slots_differ(k, req_id);
    }
}

/// A user never both claims a bond and folds it.
pub proof fn law_claim_or_fold(w: NamesWorld, req_id: u32, state: u32, height: u32, d_receipt: u32)
    ensures
        !(w.user_moves_spec(req_id, state, height, d_receipt) && w.user_folds_spec(req_id, state)),
{
}

} // verus!
