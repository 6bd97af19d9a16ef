//! A game of tic-tac-toe played into a proof-of-stake venue: each move becomes the
//! entry of the block that is sealed at its slot. Anyone verifies the chain, and
//! an empty slot still gets its (empty) block.

use std::collections::HashMap;

use vstd::prelude::*;

use crate::harness::game::{Board, Brain, EntryFields, LAST_DEPTH};
use crate::harness::{mover, mover_at, Role};

verus! {

broadcast use vstd::std_specs::hash::group_hash_axioms;

pub const STAKE: u64 = 50_000;

pub const ID_GAME: u32 = 30;

pub const GAME_ID: u16 = 1;

/// The first byte of the roster's base seed: member `i` is seeded with bytes
/// `VENUE_SEED + i`.
pub const VENUE_SEED: u8 = 0x5A;

/// Five members in strict round robin.
pub const N_MEMBERS: u8 = 5;

/// The registry announced at open covers slots up to this one.
pub const REGISTRY_SLOTS: u32 = 32;

/// The seeds of a roster: member `i`'s bytes are all `base + i`.
pub fn member_seeds(base: u8, n: u8) -> (seeds: Vec<[u8; 32]>)
    requires
        base + n <= 256,
    ensures
        seeds@.len() == n,
        forall|i: int, j: int|
            0 <= i < n && 0 <= j < 32 ==> #[trigger] seeds@[i]@[j] == base + i,
{
    let mut seeds: Vec<[u8; 32]> = Vec::new();
    for i in 0..n
        invariant
            base + n <= 256,
            seeds@.len() == i,
            forall|k: int, j: int|
                0 <= k < i && 0 <= j < 32 ==> #[trigger] seeds@[k]@[j] == base + k,
    {
        let seed: [u8; 32] = [base + i; 32];
        seeds.push(seed);
    }
    seeds
}

/// The seeds of the venue's members.
pub fn members() -> (seeds: Vec<[u8; 32]>)
    ensures
        seeds@.len() == N_MEMBERS,
        forall|i: int, j: int|
            0 <= i < N_MEMBERS && 0 <= j < 32 ==> #[trigger] seeds@[i]@[j] == VENUE_SEED + i,
{
    member_seeds(VENUE_SEED, N_MEMBERS)
}

/// An entry prepared for the coming slot.
#[derive(Debug)]
pub struct PosEntry {
    pub mv: u8,
    /// The entry, encoded.
    pub bytes: Vec<u8>,
}

/// What a brain does with the coming slot.
#[derive(Clone, Copy, Debug, PartialEq, Eq, Structural)]
pub enum PosPlan {
    /// Nothing is due.
    Nothing,
    /// It has no move scripted.
    NoMove,
    /// It plays a cell.
    Move { cell: u8 },
}

/// What anyone sees of a sealed entry.
#[derive(Clone, Copy, Debug)]
pub struct SealedEntry {
    /// The fields of the entry, if it can be decoded.
    pub decoded: Option<EntryFields>,
    /// Whether it is the entry that was handed in.
    pub same: bool,
    /// Do its preimages open the mover's venue key?
    pub opens: bool,
    /// The board that its move leads to, if it is legal.
    pub next: Option<Board>,
}

/// What came of a slot.
#[derive(Clone, Copy, Debug, PartialEq, Eq, Structural)]
pub enum SealOutcome {
    Empty,
    Moved,
}

/// Why a sealed entry is not taken.
#[derive(Clone, Copy, Debug, PartialEq, Eq, Structural)]
pub enum SealError {
    Undecodable,
    /// The entry is not the one that was meant for the slot.
    Mismatch,
    /// The entry does not open the mover's venue key.
    BadSignature,
    /// The move is not legal.
    Illegal,
}

/// The game on the venue.
pub struct PosWorld {
    pub brains: [Brain; 2],
    pub board: Board,
    pub depth: u32,
    /// The entry for the coming slot, prepared by the mover's brain.
    pub pending: Option<PosEntry>,
    /// What each sealed slot's block carried (empty for an empty block).
    pub blocks: HashMap<u32, Vec<u8>>,
}

impl PosWorld {
    /// A game at its start.
    pub fn new(brains: [Brain; 2]) -> (w: PosWorld)
        ensures
            w.brains == brains,
            w.board == Board::start(),
            w.depth == 0,
            w.pending is None,
            w.blocks@ == Map::<u32, Vec<u8>>::empty(),
    {
        PosWorld {
            brains,
            board: Board::empty(),
            depth: 0,
            pending: None,
            blocks: HashMap::new(),
        }
    }

    /// The slot that the venue seals at a Bitcoin height: one venue block per
    /// Bitcoin block.
    pub fn coming_slot(height: u32, btc_open: u32) -> (slot: u32)
        requires
            btc_open <= height,
        ensures
            slot == height - btc_open,
    {
        height - btc_open
    }

    /// What the brain on turn does with the coming slot.
    pub open spec fn publish_spec(self) -> PosPlan {
        let d = self.depth + 1;
        let brain = self.brains@[mover(d).place() as int];
        let turn = (d - 1) / 2;
        if !self.board.open || d > LAST_DEPTH {
            PosPlan::Nothing
        } else if turn >= brain.moves@.len() {
            PosPlan::NoMove
        } else {
            PosPlan::Move { cell: brain.moves@[turn] }
        }
    }

    /// Decide what the brain on turn publishes.
    pub fn publish_step(&self) -> (plan: PosPlan)
        ensures
            plan == self.publish_spec(),
    {
        if !self.board.open || self.depth >= LAST_DEPTH {
            return PosPlan::Nothing;
        }
        let d: u32 = self.depth + 1;
        let r: Role = mover_at(d);
        let brain: &Brain = &self.brains[r.idx()];
        let turn: usize = ((d - 1) / 2) as usize;
        if turn >= brain.moves.len() {
            return PosPlan::NoMove;
        }
        PosPlan::Move { cell: brain.moves[turn] }
    }

    /// Hand in the entry for the coming slot.
    pub fn publish(&mut self, entry: PosEntry)
        ensures
            *final(self) == (PosWorld { pending: Some(entry), ..*old(self) }),
    {
        self.pending = Some(entry);
    }

    /// Why a sealed entry is not taken, if it is not.
    pub open spec fn seal_error(slot: u32, sealed: SealedEntry) -> Option<SealError> {
        match sealed.decoded {
            None => Some(SealError::Undecodable),
            Some(e) => if !(sealed.same && e.depth == slot && e.mover == mover(slot as int).place()) {
                Some(SealError::Mismatch)
            } else if !sealed.opens {
                Some(SealError::BadSignature)
            } else if sealed.next is None {
                Some(SealError::Illegal)
            } else {
                None
            },
        }
    }

    /// Seal a slot with the pending entry (or empty), and take what anyone sees of
    /// it.
    pub fn seal_step(&mut self, slot: u32, sealed: SealedEntry) -> (r: Result<
        SealOutcome,
        SealError,
    >)
        ensures
            match old(self).pending {
                None => {
                    &&& r == Ok::<SealOutcome, SealError>(SealOutcome::Empty)
                    &&& final(self).blocks@.contains_key(slot)
                    &&& final(self).blocks@[slot]@ == Seq::<u8>::empty()
                    &&& final(self).blocks@.remove(slot) == old(self).blocks@.remove(slot)
                    &&& *final(self) == (PosWorld { blocks: final(self).blocks, ..*old(self) })
                },
                Some(p) => match PosWorld::seal_error(slot, sealed) {
                    Some(e) => {
                        &&& r == Err::<SealOutcome, SealError>(e)
                        &&& *final(self) == (PosWorld { pending: None, ..*old(self) })
                    },
                    None => {
                        &&& r == Ok::<SealOutcome, SealError>(SealOutcome::Moved)
                        &&& final(self).blocks@ == old(self).blocks@.insert(slot, p.bytes)
                        &&& *final(self) == (PosWorld {
                            board: sealed.next->0,
                            depth: slot,
                            pending: None,
                            blocks: final(self).blocks,
                            ..*old(self)
                        })
                    },
                },
            },
    {
        let pending: Option<PosEntry> = self.pending.take();
        let entry: PosEntry = match pending {
            None => {
                let ghost before = self.blocks@;
                self.blocks.insert(slot, Vec::new());
                assert(self.blocks@[slot]@ =~= Seq::<u8>::empty());
                assert(self.blocks@.remove(slot) =~= before.remove(slot));
                return Ok(SealOutcome::Empty);
            },
            Some(e) => e,
        };
        let m: Role = mover_at(slot);
        let e: EntryFields = match sealed.decoded {
            None => {
                return Err(SealError::Undecodable);
            },
            Some(e) => e,
        };
        if !(sealed.same && e.depth as u32 == slot && e.mover as usize == m.idx()) {
            return Err(SealError::Mismatch);
        }
        if !sealed.opens {
            return Err(SealError::BadSignature);
        }
        match sealed.next {
            None => Err(SealError::Illegal),
            Some(b) => {
                self.board = b;
                self.depth = slot;
                self.blocks.insert(slot, entry.bytes);
                Ok(SealOutcome::Moved)
            },
        }
    }
}

} // verus!
