//! One game of chess played on a fact chain and settled with the stall graph.
//!
//! The user is White and moves at odd depths. The world mines one Bitcoin block
//! and one fact-chain block per step; the brains publish moves into their slots
//! and react to the venue by queueing stall proofs and exhibits.

use std::collections::HashMap;

use vstd::prelude::*;

use crate::harness::game::{
    exhibit_spec, exhibited_bit, rejection_told, same_pair, tells_rejection, win_code, ClaimKind,
    EntryFields, Refusal, SlotOutcome, Verdict, Why, WorldError,
};
use crate::harness::text::{has_prefix, strip_prefix, views};
use crate::harness::{mover, mover_at, Role};
use crate::hashing::{same_hash, Hash160};

verus! {

broadcast use vstd::std_specs::hash::group_hash_axioms;

pub const STAKE: u64 = 50_000;

pub const RESERVE: u64 = 15_000;

pub const ID_CHESS: u32 = 31;

pub const CHESS_ID: u16 = 2;

/// Header slots that the claims cover: the game must end before this slot.
pub const W_MAX: u32 = 20;

/// The signed bit whose preimage a garbage signature replaces.
pub const GARBAGE_BIT: usize = 7;

/// A state of the game as an entry carries it: the position, the move that led to
/// it and its depth.
pub type StateBytes = [u8; 40];

/// A party's game plan and scripted misbehaviour.
#[derive(Debug)]
pub struct ChessBrain {
    /// Moves in UCI, in the order of this party's turns.
    pub moves: Vec<&'static str>,
    /// Do not publish the move at this depth.
    pub stall_at: Option<u32>,
    /// Publish this illegal move at this depth, with the state that it would
    /// mechanically produce.
    pub illegal_at: Option<(u32, &'static str)>,
    /// After publishing my illegal move, prove a stall once the opponent's slot
    /// passes.
    pub claim_own_illegal: bool,
    /// Do not exhibit the opponent's illegal move (wait for its stall proof).
    pub no_exhibit: bool,
    /// Exhibit the opponent's legal move at this depth as a lie.
    pub frame_at: Option<u32>,
    /// Do not publish at this depth, but prove a stall with the move that I meant
    /// to publish (the slot is empty).
    pub fabricate_at: Option<u32>,
    /// Refuse the cooperative fold at the end.
    pub refuse_fold: bool,
    /// Never react on the venue.
    pub passive: bool,
    /// Publish the (legal) move at this depth with one garbage preimage in place
    /// of a signed bit's.
    pub garbage_sig_at: Option<u32>,
    /// Exhibit the opponent's soundly signed entry at this depth as
    /// garbage-signed (a baseless signature exhibit).
    pub fabricate_sig_at: Option<u32>,
}

impl ChessBrain {
    /// Whether no fault is scripted.
    pub open spec fn is_honest(self) -> bool {
        &&& self.stall_at is None
        &&& self.illegal_at is None
        &&& !self.claim_own_illegal
        &&& !self.no_exhibit
        &&& self.frame_at is None
        &&& self.fabricate_at is None
        &&& !self.refuse_fold
        &&& !self.passive
        &&& self.garbage_sig_at is None
        &&& self.fabricate_sig_at is None
    }

    /// A brain that plays these moves and nothing else.
    pub fn playing(moves: Vec<&'static str>) -> (b: ChessBrain)
        ensures
            b.is_honest(),
            b.moves == moves,
    {
        ChessBrain {
            moves,
            stall_at: None,
            illegal_at: None,
            claim_own_illegal: false,
            no_exhibit: false,
            frame_at: None,
            fabricate_at: None,
            refuse_fold: false,
            passive: false,
            garbage_sig_at: None,
            fabricate_sig_at: None,
        }
    }
}

impl Default for ChessBrain {
    fn default() -> (b: ChessBrain)
        ensures
            b.is_honest(),
            b.moves@.len() == 0,
    {
        ChessBrain::playing(Vec::new())
    }
}

/// The brains of the reference game: 1.e4 e5 2.Nf3 Nc6 3.Bc4 Nf6.
pub fn honest() -> (brains: [ChessBrain; 2])
    ensures
        brains@[0].is_honest(),
        brains@[1].is_honest(),
        brains@[0].moves@ == seq!["e2e4", "g1f3", "f1c4"],
        brains@[1].moves@ == seq!["e7e5", "b8c6", "g8f6"],
{
    let user: Vec<&'static str> = vec!["e2e4", "g1f3", "f1c4"];
    let hub: Vec<&'static str> = vec!["e7e5", "b8c6", "g8f6"];
    assert(user@ =~= seq!["e2e4", "g1f3", "f1c4"]);
    assert(hub@ =~= seq!["e7e5", "b8c6", "g8f6"]);
    [ChessBrain::playing(user), ChessBrain::playing(hub)]
}

/// A move published on the venue.
#[derive(Debug)]
pub struct Published {
    /// The state that the mover claimed to leave.
    pub claimed: StateBytes,
    /// The entry, encoded.
    pub bytes: Vec<u8>,
    /// Do the entry's preimages open the mover's pinned key?
    pub signed: bool,
    /// The legal successor, if the move was legal and signed.
    pub state: Option<StateBytes>,
}

/// The game on the venue, and what the parties know of each other.
pub struct ChessWorld {
    pub brains: [ChessBrain; 2],
    /// The depth after which the hub resigns and the parties fold.
    pub resign_after: u32,
    /// Fact-chain blocks mined since the game opened.
    pub slots: u32,
    /// Legal moves on the venue so far, and the state that they lead to.
    pub depth: u32,
    pub state: StateBytes,
    /// The state before the first move.
    pub initial: StateBytes,
    pub published: HashMap<u32, Published>,
    /// The entry for the coming slot.
    pub pending: Option<Published>,
    /// The agreed distribution once the game is over.
    pub result: Option<[u64; 2]>,
    /// Set once a claim is queued: the venue game is over.
    pub escalated: bool,
    pub fold_rejected: bool,
}

/// What a party queues in the channel's contract.
#[derive(Clone, Copy, Debug)]
pub enum ChessReaction {
    /// No move follows the party's move at `depth`, which is the one published, or
    /// this one.
    Stall { by: Role, depth: u32, uci: Option<&'static str>, why: Why },
    /// The opponent's move at `depth` is a lie.
    Lie { by: Role, depth: u32, why: Why },
    /// The opponent's entry at `depth` is garbage-signed.
    Sig { by: Role, depth: u32, why: Why },
}

/// What a brain does with the coming slot.
#[derive(Clone, Copy, Debug)]
pub enum ChessPlan {
    /// Nothing is due.
    Nothing,
    /// It does not publish its move.
    Stall,
    /// It does not publish its move, and will prove a stall with it all the same.
    Fabricate,
    /// It has no move scripted.
    NoMove,
    /// It plays a move, legal or not; with a garbage preimage, if so scripted.
    Move { uci: &'static str, legal: bool, garbage: bool },
}

/// What the venue says of a mined entry.
#[derive(Clone, Copy, Debug)]
pub struct MinedChess {
    /// The fields of the entry, if it can be decoded.
    pub decoded: Option<EntryFields>,
    /// Do its preimages open the mover's pinned key?
    pub opens: bool,
}

/// A claim queued in the channel's contract.
#[derive(Clone, Copy, Debug)]
pub struct ChessClaim {
    pub kind: ClaimKind,
    pub depth: u32,
    /// The state that the claimed move leaves from.
    pub prior: StateBytes,
    /// The state that the move leads to, where the claim names it.
    pub new: Option<StateBytes>,
    /// The outcome, where the claim names it.
    pub code: Option<u8>,
}

/// Whether a legal move was published at a depth.
pub open spec fn legal_in(published: Map<u32, Published>, d: u32) -> bool {
    published.contains_key(d) && published[d].state is Some
}

impl ChessWorld {
    /// A side's brain.
    pub open spec fn brain(self, r: Role) -> ChessBrain {
        self.brains@[r.place() as int]
    }

    /// Whether a legal move was published at a depth.
    pub open spec fn legal_at(self, d: u32) -> bool {
        legal_in(self.published@, d)
    }

    /// The state is one that play on the venue leads to: every move up to `depth`
    /// is published and legal, the one after it, if published, is not, and
    /// nothing else is published; the state is the last legal move's. An entry is
    /// pending only for the slot of the next move.
    pub open spec fn wf(self) -> bool {
        &&& self.depth < W_MAX
        &&& self.depth <= self.slots
        &&& forall|d: u32| 1 <= d <= self.depth ==> #[trigger] legal_in(self.published@, d)
        &&& forall|d: u32|
            #[trigger] self.published@.contains_key(d) ==> 1 <= d <= self.slots && d <= self.depth
                + 1
        &&& forall|d: u32| d == self.depth + 1 ==> !#[trigger] legal_in(self.published@, d)
        &&& forall|d: u32|
            #[trigger] self.published@.contains_key(d) ==> (self.published@[d].state matches Some(
                s,
            ) ==> s == self.published@[d].claimed && self.published@[d].signed)
        &&& self.state == if self.depth == 0 {
            self.initial
        } else {
            self.published@[self.depth].state->0
        }
        &&& self.pending matches Some(p) ==> {
            &&& self.slots == self.depth
            &&& self.depth + 1 < W_MAX - 1
            &&& self.depth < self.resign_after
            &&& p.state matches Some(s) ==> s == p.claimed
        }
    }

    /// A game at its start, with these brains.
    pub fn new(brains: [ChessBrain; 2], initial: StateBytes, resign_after: u32) -> (w: ChessWorld)
        ensures
            w.wf(),
            w.brains == brains,
            w.resign_after == resign_after,
            w.initial == initial && w.state == initial,
            w.slots == 0 && w.depth == 0,
            w.published@ == Map::<u32, Published>::empty(),
            w.pending is None && w.result is None,
            !w.escalated && !w.fold_rejected,
    {
        ChessWorld {
            brains,
            resign_after,
            slots: 0,
            depth: 0,
            state: initial,
            initial,
            published: HashMap::new(),
            pending: None,
            result: None,
            escalated: false,
            fold_rejected: false,
        }
    }

    /// What can be read of the state before a depth's move: the initial state
    /// before the first, else the state of the move before, if it was published
    /// and legal.
    pub open spec fn prior_spec(self, d: u32) -> Result<StateBytes, WorldError> {
        if d == 1 {
            Ok(self.initial)
        } else if !self.published@.contains_key((d - 1) as u32) {
            Err(WorldError::NoMove((d - 1) as u32))
        } else {
            match self.published@[(d - 1) as u32].state {
                Some(s) => Ok(s),
                None => Err(WorldError::InvalidMove((d - 1) as u32)),
            }
        }
    }

    /// The state that a move leaves from.
    pub fn state_before(&self, d: u32) -> (r: Result<StateBytes, WorldError>)
        requires
            d >= 1,
        ensures
            r == self.prior_spec(d),
    {
        if d == 1 {
            return Ok(self.initial);
        }
        match self.published.get(&(d - 1)) {
            None => Err(WorldError::NoMove(d - 1)),
            Some(p) => match p.state {
                Some(s) => Ok(s),
                None => Err(WorldError::InvalidMove(d - 1)),
            },
        }
    }

    fn is_legal_at(&self, d: u32) -> (r: bool)
        ensures
            r == self.legal_at(d),
    {
        match self.published.get(&d) {
            Some(p) => p.state.is_some(),
            None => false,
        }
    }

    // ----- publishing -----

    /// The slot that the next fact-chain block will be.
    pub fn next_slot(&self) -> (d: u32)
        requires
            self.slots < u32::MAX,
        ensures
            d == self.slots + 1,
    {
        self.slots + 1
    }

    /// Whether the brain on turn has something to decide for the coming slot.
    pub open spec fn on_turn(self) -> bool {
        !self.escalated && self.depth < self.resign_after && self.slots == self.depth && self.depth
            + 1 < W_MAX - 1
    }

    /// What the brain on turn does with the coming slot.
    pub open spec fn publish_spec(self) -> ChessPlan {
        let d = (self.slots + 1) as u32;
        let r = mover(d as int);
        let brain = self.brain(r);
        let turn = (d - 1) / 2;
        let garbage = brain.garbage_sig_at == Some(d);
        if !self.on_turn() {
            ChessPlan::Nothing
        } else if brain.stall_at == Some(d) {
            ChessPlan::Stall
        } else if brain.fabricate_at == Some(d) {
            ChessPlan::Fabricate
        } else if brain.illegal_at is Some && (brain.illegal_at->0).0 == d {
            ChessPlan::Move { uci: (brain.illegal_at->0).1, legal: false, garbage }
        } else if turn >= brain.moves@.len() {
            ChessPlan::NoMove
        } else {
            ChessPlan::Move { uci: brain.moves@[turn], legal: true, garbage }
        }
    }

    /// Decide what the brain on turn publishes in the coming slot.
    pub fn publish_step(&self) -> (plan: ChessPlan)
        requires
            self.wf(),
            self.slots < u32::MAX,
        ensures
            plan == self.publish_spec(),
    {
        if self.escalated || self.depth >= self.resign_after {
            return ChessPlan::Nothing;
        }
        let d: u32 = self.next_slot();
        if d != self.depth + 1 || d >= W_MAX - 1 {
            return ChessPlan::Nothing;
        }
        let r: Role = mover_at(d);
        let brain: &ChessBrain = &self.brains[r.idx()];
        if brain.stall_at == Some(d) {
            return ChessPlan::Stall;
        }
        if brain.fabricate_at == Some(d) {
            return ChessPlan::Fabricate;
        }
        let garbage: bool = brain.garbage_sig_at == Some(d);
        if let Some((k, uci)) = brain.illegal_at {
            if k == d {
                return ChessPlan::Move { uci, legal: false, garbage };
            }
        }
        let turn: usize = ((d - 1) / 2) as usize;
        if turn >= brain.moves.len() {
            return ChessPlan::NoMove;
        }
        ChessPlan::Move { uci: brain.moves[turn], legal: true, garbage }
    }

    /// Hand in the entry for the coming slot, as planned: its state is the claimed
    /// one if the move is legal, and none otherwise.
    pub fn publish(&mut self, entry: Published)
        requires
            old(self).wf(),
            old(self).slots < u32::MAX,
            old(self).publish_spec() is Move,
            entry.state == if old(self).publish_spec()->legal {
                Some(entry.claimed)
            } else {
                None
            },
        ensures
            final(self).wf(),
            *final(self) == (ChessWorld { pending: Some(entry), ..*old(self) }),
    {
        self.pending = Some(entry);
    }

    // ----- mining -----

    /// Why a mined entry is not taken, if it is not.
    pub open spec fn entry_error(self, mined: MinedChess) -> Option<WorldError> {
        let d = self.slots + 1;
        match mined.decoded {
            None => Some(WorldError::Undecodable),
            Some(e) => if e.mover == mover(d).place() && e.depth == d {
                None
            } else {
                Some(WorldError::Mismatch)
            },
        }
    }

    /// The world after the coming slot is mined.
    pub open spec fn mined_world(self, mined: MinedChess, after: ChessWorld) -> bool {
        let d = (self.slots + 1) as u32;
        &&& after.brains == self.brains
        &&& after.resign_after == self.resign_after
        &&& after.initial == self.initial
        &&& after.slots == self.slots + 1
        &&& after.pending is None
        &&& after.escalated == self.escalated
        &&& after.fold_rejected == self.fold_rejected
        &&& if self.pending is None || self.entry_error(mined) is Some {
            &&& after.published@ == self.published@
            &&& after.depth == self.depth
            &&& after.state == self.state
            &&& after.result == self.result
        } else {
            let p = self.pending->0;
            let q = Published {
                signed: mined.opens,
                state: if mined.opens {
                    p.state
                } else {
                    None
                },
                ..p
            };
            &&& after.published@ == self.published@.insert(d, q)
            &&& after.depth == if q.state is Some {
                d
            } else {
                self.depth
            }
            &&& after.state == if q.state is Some {
                q.state->0
            } else {
                self.state
            }
            &&& if q.state is Some && d == self.resign_after {
                after.result matches Some(dist) && dist@ == seq![
                    (2 * STAKE + RESERVE) as u64,
                    RESERVE,
                ]
            } else {
                after.result == self.result
            }
        }
    }

    /// Mine the coming slot with the pending entry (or empty), and take what
    /// everyone sees of it. After its last move the hub resigns.
    pub fn mine_slot(&mut self, mined: MinedChess) -> (r: Result<SlotOutcome, WorldError>)
        requires
            old(self).wf(),
            old(self).slots < u32::MAX,
        ensures
            final(self).wf(),
            old(self).mined_world(mined, *final(self)),
            match old(self).pending {
                None => r == Ok::<SlotOutcome, WorldError>(
                    SlotOutcome::Empty {
                        due: old(self).slots + 1 < W_MAX - 1 && !old(self).escalated && old(
                            self,
                        ).depth < old(self).resign_after,
                    },
                ),
                Some(p) => match old(self).entry_error(mined) {
                    Some(e) => r == Err::<SlotOutcome, WorldError>(e),
                    None => r == Ok::<SlotOutcome, WorldError>(
                        SlotOutcome::Held {
                            signed: mined.opens,
                            valid: mined.opens && p.state is Some,
                            over: mined.opens && p.state is Some && old(self).slots + 1 == old(
                                self,
                            ).resign_after,
                        },
                    ),
                },
            },
    {
        let ghost before = *self;
        let d: u32 = self.next_slot();
        let pending: Option<Published> = self.pending.take();
        self.slots = d;
        let mut p: Published = match pending {
            None => {
                let due: bool = d < W_MAX - 1 && !self.escalated && self.depth < self.resign_after;
                return Ok(SlotOutcome::Empty { due });
            },
            Some(p) => p,
        };
        let m: Role = mover_at(d);
        let e: EntryFields = match mined.decoded {
            None => {
                return Err(WorldError::Undecodable);
            },
            Some(e) => e,
        };
        if e.mover as usize != m.idx() || e.depth as u32 != d {
            return Err(WorldError::Mismatch);
        }
        p.signed = mined.opens;
        if !mined.opens {
            p.state = None;
        }
        let mut valid: bool = false;
        if let Some(s) = p.state {
            self.state = s;
            self.depth = d;
            valid = true;
        }
        let signed: bool = p.signed;
        self.published.insert(d, p);
        let over: bool = self.depth == self.resign_after;
        if over {
            let dist: [u64; 2] = [STAKE + STAKE + RESERVE, RESERVE];
            assert(dist@ =~= seq![(2 * STAKE + RESERVE) as u64, RESERVE]);
            self.result = Some(dist);
        }
        assert(self.wf()) by {
            assert forall|k: u32| 1 <= k <= self.depth implies #[trigger] legal_in(
                self.published@,
                k,
            ) by {
                if k != d {
                    assert(legal_in(before.published@, k));
                }
            }
            assert forall|k: u32| k == self.depth + 1 implies !#[trigger] legal_in(
                self.published@,
                k,
            ) by {
                if k != d {
                    assert(!before.published@.contains_key(k));
                }
            }
        }
        Ok(SlotOutcome::Held { signed, valid, over })
    }

    // ----- reacting -----

    /// The party's slot passed empty, and it claims the move all the same.
    pub open spec fn fabricates(self, r: Role) -> bool {
        self.brain(r).fabricate_at matches Some(d) && self.slots >= d + 1 && mover(d as int) == r
            && self.depth == d - 1
    }

    /// A party that fabricates a move has one scripted.
    pub open spec fn fabrication_scripted(self, r: Role) -> bool {
        !self.brain(r).passive && self.depth < self.resign_after && self.fabricates(r) ==> (
        self.brain(r).fabricate_at->0 - 1) / 2 < self.brain(r).moves@.len()
    }

    /// The party proves a stall with its own illegal move.
    pub open spec fn pushes_illegal(self, r: Role) -> bool {
        self.brain(r).illegal_at matches Some(m) && self.brain(r).claim_own_illegal && mover(
            m.0 as int,
        ) == r && self.published@.contains_key(m.0) && self.slots >= m.0 + 1
    }

    /// The party exhibits the opponent's legal move as a lie.
    pub open spec fn frames(self, r: Role) -> bool {
        self.brain(r).frame_at matches Some(k) && mover(k as int) == r.opponent() && self.legal_at(
            k,
        )
    }

    /// The party exhibits the opponent's soundly signed entry as garbage-signed.
    pub open spec fn fakes_garbage(self, r: Role) -> bool {
        self.brain(r).fabricate_sig_at matches Some(k) && mover(k as int) == r.opponent()
            && self.published@.contains_key(k) && self.published@[k].signed
    }

    /// The opponent's slot passed, after some move.
    pub open spec fn opponents_slot_passed(self, r: Role) -> bool {
        self.depth >= 1 && mover(self.depth + 1) == r.opponent() && self.slots >= self.depth + 1
    }

    /// What a party queues.
    pub open spec fn reaction_of(self, r: Role) -> Option<ChessReaction> {
        let brain = self.brain(r);
        let k = (self.depth + 1) as u32;
        if brain.passive {
            None
        } else if self.depth >= self.resign_after {
            if self.fold_rejected && mover(self.depth as int) == r && self.slots >= self.depth + 1 {
                Some(
                    ChessReaction::Stall {
                        by: r,
                        depth: self.depth,
                        uci: None,
                        why: Why::FoldRefused,
                    },
                )
            } else {
                None
            }
        } else if self.fabricates(r) {
            let d = brain.fabricate_at->0;
            Some(
                ChessReaction::Stall {
                    by: r,
                    depth: d,
                    uci: Some(brain.moves@[(d - 1) / 2]),
                    why: Why::Fabricated,
                },
            )
        } else if self.pushes_illegal(r) {
            Some(
                ChessReaction::Stall {
                    by: r,
                    depth: (brain.illegal_at->0).0,
                    uci: None,
                    why: Why::OwnInvalid,
                },
            )
        } else if self.frames(r) {
            Some(ChessReaction::Lie { by: r, depth: brain.frame_at->0, why: Why::Framed })
        } else if self.fakes_garbage(r) {
            Some(
                ChessReaction::Sig {
                    by: r,
                    depth: brain.fabricate_sig_at->0,
                    why: Why::FabricatedSig,
                },
            )
        } else if self.opponents_slot_passed(r) {
            if !self.published@.contains_key(k) {
                Some(
                    ChessReaction::Stall { by: r, depth: self.depth, uci: None, why: Why::Timeout },
                )
            } else if brain.no_exhibit || self.published@[k].state is Some {
                None
            } else if self.published@[k].signed {
                Some(ChessReaction::Lie { by: r, depth: k, why: Why::InvalidMove })
            } else {
                Some(ChessReaction::Sig { by: r, depth: k, why: Why::GarbageSigned })
            }
        } else {
            None
        }
    }

    /// What is queued: by the user, if the user reacts, else by the hub; nothing
    /// more once a claim is queued.
    pub open spec fn reaction(self) -> Option<ChessReaction> {
        if self.escalated {
            None
        } else if self.reaction_of(Role::User) is Some {
            self.reaction_of(Role::User)
        } else {
            self.reaction_of(Role::Hub)
        }
    }

    /// The moves that the brains need for their reactions are scripted.
    pub open spec fn scripted(self) -> bool {
        !self.escalated ==> {
            &&& self.fabrication_scripted(Role::User)
            &&& self.reaction_of(Role::User) is None ==> self.fabrication_scripted(Role::Hub)
        }
    }

    fn react(&self, r: Role) -> (reaction: Option<ChessReaction>)
        requires
            self.wf(),
            self.fabrication_scripted(r),
        ensures
            reaction == self.reaction_of(r),
    {
        let brain: &ChessBrain = &self.brains[r.idx()];
        let other: Role = r.other();
        if brain.passive {
            return None;
        }
        if self.depth >= self.resign_after {
            if self.fold_rejected && mover_at(self.depth) == r && self.slots > self.depth {
                return Some(
                    ChessReaction::Stall {
                        by: r,
                        depth: self.depth,
                        uci: None,
                        why: Why::FoldRefused,
                    },
                );
            }
            return None;
        }
        if let Some(d) = brain.fabricate_at {
            if self.slots > d && mover_at(d) == r && d >= 1 && self.depth == d - 1 {
                let turn: usize = ((d - 1) / 2) as usize;
                let uci: &'static str = brain.moves[turn];
                return Some(
                    ChessReaction::Stall { by: r, depth: d, uci: Some(uci), why: Why::Fabricated },
                );
            }
        }
        if brain.claim_own_illegal {
            if let Some((d, _)) = brain.illegal_at {
                if mover_at(d) == r && self.published.contains_key(&d) && self.slots > d {
                    return Some(
                        ChessReaction::Stall { by: r, depth: d, uci: None, why: Why::OwnInvalid },
                    );
                }
            }
        }
        if let Some(k) = brain.frame_at {
            if mover_at(k) == other && self.is_legal_at(k) {
                return Some(ChessReaction::Lie { by: r, depth: k, why: Why::Framed });
            }
        }
        if let Some(k) = brain.fabricate_sig_at {
            if mover_at(k) == other {
                if let Some(p) = self.published.get(&k) {
                    if p.signed {
                        return Some(
                            ChessReaction::Sig { by: r, depth: k, why: Why::FabricatedSig },
                        );
                    }
                }
            }
        }
        let k: u32 = self.depth + 1;
        if k >= 2 && mover_at(k) == other && self.slots >= k {
            return match self.published.get(&k) {
                None => Some(
                    ChessReaction::Stall { by: r, depth: self.depth, uci: None, why: Why::Timeout },
                ),
                Some(p) => if brain.no_exhibit || p.state.is_some() {
                    None
                } else if p.signed {
                    Some(ChessReaction::Lie { by: r, depth: k, why: Why::InvalidMove })
                } else {
                    Some(ChessReaction::Sig { by: r, depth: k, why: Why::GarbageSigned })
                },
            };
        }
        None
    }

    /// How the brains react to the venue: what one of them is to queue, if
    /// anything.
    pub fn react_step(&self) -> (reaction: Option<ChessReaction>)
        requires
            self.wf(),
            self.scripted(),
        ensures
            reaction == self.reaction(),
    {
        if self.escalated {
            return None;
        }
        let mut reaction: Option<ChessReaction> = self.react(Role::User);
        if reaction.is_none() {
            reaction = self.react(Role::Hub);
        }
        reaction
    }

    // ----- claims in the contract -----

    /// Queue the proof that no move follows the one at a depth: the one published, or
    /// a fabricated one that would lead to this state. Once a claim is queued, the
    /// venue game is over.
    pub fn queue_stall(&mut self, d: u32, fabricated: Option<StateBytes>) -> (r: Result<
        ChessClaim,
        WorldError,
    >)
        requires
            d >= 1,
        ensures
            r == match old(self).prior_spec(d) {
                Err(e) => Err::<ChessClaim, WorldError>(e),
                Ok(prior) => if fabricated is None && !old(self).published@.contains_key(d) {
                    Err(WorldError::NoMove(d))
                } else {
                    Ok(
                        ChessClaim {
                            kind: ClaimKind::Stall,
                            depth: d,
                            prior,
                            new: Some(
                                match fabricated {
                                    Some(s) => s,
                                    None => old(self).published@[d].claimed,
                                },
                            ),
                            code: None,
                        },
                    )
                },
            },
            *final(self) == (ChessWorld {
                escalated: old(self).escalated || r is Ok,
                ..*old(self)
            }),
    {
        let prior: StateBytes = match self.state_before(d) {
            Err(e) => {
                return Err(e);
            },
            Ok(s) => s,
        };
        let new: StateBytes = match fabricated {
            Some(s) => s,
            None => match self.published.get(&d) {
                None => {
                    return Err(WorldError::NoMove(d));
                },
                Some(p) => p.claimed,
            },
        };
        self.escalated = true;
        Ok(ChessClaim { kind: ClaimKind::Stall, depth: d, prior, new: Some(new), code: None })
    }

    /// Queue the exhibit of the opponent's move at a depth as a lie.
    pub fn queue_lie(&mut self, k: u32) -> (r: Result<ChessClaim, WorldError>)
        requires
            k >= 1,
        ensures
            r == match old(self).prior_spec(k) {
                Err(e) => Err::<ChessClaim, WorldError>(e),
                Ok(prior) => if !old(self).published@.contains_key(k) {
                    Err(WorldError::NoMove(k))
                } else {
                    Ok(
                        ChessClaim {
                            kind: ClaimKind::Lie,
                            depth: k,
                            prior,
                            new: Some(old(self).published@[k].claimed),
                            code: None,
                        },
                    )
                },
            },
            *final(self) == (ChessWorld {
                escalated: old(self).escalated || r is Ok,
                ..*old(self)
            }),
    {
        let prior: StateBytes = match self.state_before(k) {
            Err(e) => {
                return Err(e);
            },
            Ok(s) => s,
        };
        let new: StateBytes = match self.published.get(&k) {
            None => {
                return Err(WorldError::NoMove(k));
            },
            Some(p) => p.claimed,
        };
        self.escalated = true;
        Ok(ChessClaim { kind: ClaimKind::Lie, depth: k, prior, new: Some(new), code: None })
    }

    /// Queue the exhibit of the opponent's entry at a depth as garbage-signed, with
    /// the winning code of the party that exhibits it, and the bit to exhibit.
    /// `first` is the first bit that the entry signs, `found` the first bit whose
    /// preimage opens nothing. The venue game is over once there is a bit to
    /// exhibit.
    pub fn queue_sig(
        &mut self,
        r: Role,
        k: u32,
        fabricated: bool,
        first: bool,
        found: Option<(usize, bool)>,
    ) -> (c: Result<(ChessClaim, (usize, bool)), WorldError>)
        requires
            k >= 1,
        ensures
            if !old(self).published@.contains_key(k) {
                &&& c == Err::<(ChessClaim, (usize, bool)), WorldError>(WorldError::NoMove(k))
                &&& *final(self) == *old(self)
            } else {
                match exhibit_spec(k, fabricated, first, found) {
                    Err(e) => {
                        &&& c == Err::<(ChessClaim, (usize, bool)), WorldError>(e)
                        &&& *final(self) == *old(self)
                    },
                    Ok(bit) => {
                        &&& c == match old(self).prior_spec(k) {
                            Err(e) => Err::<(ChessClaim, (usize, bool)), WorldError>(e),
                            Ok(prior) => Ok(
                                (
                                    ChessClaim {
                                        kind: ClaimKind::Sig,
                                        depth: k,
                                        prior,
                                        new: None,
                                        code: Some(win_code(r)),
                                    },
                                    bit,
                                ),
                            ),
                        }
                        &&& *final(self) == (ChessWorld { escalated: true, ..*old(self) })
                    },
                }
            },
    {
        if !self.published.contains_key(&k) {
            return Err(WorldError::NoMove(k));
        }
        let bit: (usize, bool) = match exhibited_bit(k, fabricated, first, found) {
            Err(e) => {
                return Err(e);
            },
            Ok(bit) => bit,
        };
        self.escalated = true;
        let code: u8 = match r {
            Role::User => 0,
            Role::Hub => 1,
        };
        match self.state_before(k) {
            Err(e) => Err(e),
            Ok(prior) => Ok(
                (
                    ChessClaim {
                        kind: ClaimKind::Sig,
                        depth: k,
                        prior,
                        new: None,
                        code: Some(code),
                    },
                    bit,
                ),
            ),
        }
    }

    // ----- policies -----

    /// What a party agrees to when the game is folded: nothing if it refuses, else
    /// the venue's result, if the game is over.
    pub fn fold_policy(&self, r: Role) -> (dist: Option<[u64; 2]>)
        ensures
            dist == (if self.brain(r).refuse_fold {
                None
            } else {
                self.result
            }),
    {
        if self.brains[r.idx()].refuse_fold {
            None
        } else {
            self.result
        }
    }

    /// Take note of what the parties tell: a refused fold shows as a rejection in
    /// the proposer's narrative.
    pub fn hear(&mut self, user: &[String], hub: &[String])
        requires
            old(self).wf(),
        ensures
            final(self).wf(),
            *final(self) == (ChessWorld {
                fold_rejected: old(self).fold_rejected || rejection_told(views(user@))
                    || rejection_told(views(hub@)),
                ..*old(self)
            }),
    {
        if !self.fold_rejected && (tells_rejection(user) || tells_rejection(hub)) {
            self.fold_rejected = true;
        }
    }
}

/// Put garbage in place of one signed bit's preimage.
pub fn garble(sigs: &mut Vec<Hash160>)
    requires
        old(sigs)@.len() > GARBAGE_BIT,
    ensures
        final(sigs)@.len() == old(sigs)@.len(),
        forall|j: int| 0 <= j < 20 ==> #[trigger] final(sigs)@[GARBAGE_BIT as int]@[j] == 0xEE,
        forall|i: int|
            0 <= i < old(sigs)@.len() && i != GARBAGE_BIT ==> #[trigger] final(sigs)@[i] == old(
                sigs,
            )@[i],
{
    let garbage: Hash160 = [0xEEu8; 20];
    sigs.set(GARBAGE_BIT, garbage);
}

/// The terms of a game, as its program names them.
#[derive(Clone, Copy, Debug)]
pub struct ChessTerms {
    pub game_id: u16,
    pub checkpoint: Hash160,
    pub w_max: u64,
}

/// What is offered in a contract.
#[derive(Clone, Copy, Debug)]
pub enum ChessOffer {
    /// The program is not a game of chess on the fact chain.
    UnknownProgram,
    /// Its parameters cannot be read.
    Unreadable,
    /// A game on these terms.
    Game(ChessTerms),
}

/// A change of the channel's state that the counterparty proposes.
#[derive(Clone, Copy, Debug)]
pub enum ChessChange {
    Open { offer: ChessOffer, stakes: [u64; 2] },
    Fold { id: u32, dist: [u64; 2] },
    Other,
}

/// The parameters of a program that is a game of chess on the fact chain.
pub fn chess_params(program: &str) -> (params: Option<String>)
    ensures
        match params {
            Some(t) => has_prefix(program@, "chess-fc:"@) && t@ == program@.skip(
                "chess-fc:"@.len() as int,
            ),
            None => !has_prefix(program@, "chess-fc:"@),
        },
{
    strip_prefix(program, "chess-fc:")
}

/// What a party says of a change: a game only on its own terms and with both
/// sides' full stakes, a fold only of a finished game to the venue's result.
pub open spec fn change_spec(
    change: ChessChange,
    checkpoint: Seq<u8>,
    refuse: bool,
    result: Option<[u64; 2]>,
) -> Result<Verdict, Refusal> {
    match change {
        ChessChange::Open { offer, stakes } => match offer {
            ChessOffer::UnknownProgram => Err(Refusal::UnknownProgram),
            ChessOffer::Unreadable => Err(Refusal::Unreadable),
            ChessOffer::Game(terms) => if !(terms.checkpoint@ == checkpoint && terms.game_id
                == CHESS_ID && terms.w_max == W_MAX) {
                Err(Refusal::Terms)
            } else if !(stakes@[0] == STAKE + RESERVE && stakes@[1] == STAKE + RESERVE) {
                Err(Refusal::Stakes)
            } else {
                Ok(Verdict::Agree)
            },
        },
        ChessChange::Fold { id, dist } => if id != ID_CHESS {
            Err(Refusal::UnknownContract)
        } else if refuse {
            Err(Refusal::Unwilling)
        } else {
            match result {
                None => Err(Refusal::NotOver),
                Some(agreed) => if dist@ == agreed@ {
                    Ok(Verdict::Agree)
                } else {
                    Err(Refusal::WrongResult)
                },
            }
        },
        ChessChange::Other => Ok(Verdict::Default),
    }
}

/// What a party says of a change.
pub fn change_policy(
    change: &ChessChange,
    checkpoint: &Hash160,
    refuse: bool,
    result: Option<[u64; 2]>,
) -> (r: Result<Verdict, Refusal>)
    ensures
        r == change_spec(*change, checkpoint@, refuse, result),
{
    match *change {
        ChessChange::Open { offer, stakes } => match offer {
            ChessOffer::UnknownProgram => Err(Refusal::UnknownProgram),
            ChessOffer::Unreadable => Err(Refusal::Unreadable),
            ChessOffer::Game(terms) => if !(same_hash(&terms.checkpoint, checkpoint)
                && terms.game_id == CHESS_ID && terms.w_max == W_MAX as u64) {
                Err(Refusal::Terms)
            } else if !(stakes[0] == STAKE + RESERVE && stakes[1] == STAKE + RESERVE) {
                Err(Refusal::Stakes)
            } else {
                Ok(Verdict::Agree)
            },
        },
        ChessChange::Fold { id, dist } => if id != ID_CHESS {
            Err(Refusal::UnknownContract)
        } else if refuse {
            Err(Refusal::Unwilling)
        } else {
            match result {
                None => Err(Refusal::NotOver),
                Some(agreed) => if same_pair(&dist, &agreed) {
                    Ok(Verdict::Agree)
                } else {
                    Err(Refusal::WrongResult)
                },
            }
        },
        ChessChange::Other => Ok(Verdict::Default),
    }
}

/// The deadline of a game's contract: the slots that the claims cover, and 60
/// blocks.
pub fn chess_deadline(btc_open: u32) -> (deadline: u32)
    requires
        btc_open + W_MAX + 60 <= u32::MAX,
    ensures
        deadline == btc_open + W_MAX + 60,
{
    btc_open + W_MAX + 60
}

} // verus!
