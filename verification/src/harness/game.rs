//! One game of tic-tac-toe played on a fact chain, settled in a channel.
//!
//! The world mines one Bitcoin block and one fact-chain block per step. The
//! fact-chain block mined at step `d` after the game opens is slot `d`: the block
//! that move `d` must sit in. Each party's brain reads the venue and either
//! publishes its next move into the coming slot or, when the opponent's slot
//! passed without a valid move, claims it in the channel's contract. Scenario
//! faults live in the brains.

use std::collections::HashMap;

use vstd::prelude::*;

use crate::harness::text::{contains, has_prefix, has_text, strip_prefix, views};
use crate::harness::{mover, mover_at, Role};
use crate::hashing::{same_hash, Hash160};
use crate::lamport::{bits_of, uint_to_bits};

verus! {

broadcast use vstd::std_specs::hash::group_hash_axioms;

/// Each side's stake, in satoshis: the winner takes both.
pub const STAKE: u64 = 50_000;

/// Each side's fee reserve: returned on a cooperative fold, forfeited to the
/// winner on any on-chain resolution.
pub const RESERVE: u64 = 15_000;

pub const ID_GAME: u32 = 30;

pub const GAME_ID: u16 = 1;

pub const GRACE: u32 = 1;

/// The last depth of a game.
pub const LAST_DEPTH: u32 = 9;

/// A party's game plan and scripted misbehaviour. Honest brains leave the faults
/// unset.
#[derive(Debug)]
pub struct Brain {
    /// Cells to play, in the order of this party's turns.
    pub moves: Vec<u8>,
    /// Do not publish the move at this depth (a stall).
    pub stall_at: Option<u32>,
    /// Publish an occupied cell at this depth (an invalid move).
    pub invalid_at: Option<u32>,
    /// Do not publish the move at this depth, but claim it on-chain with
    /// fabricated inclusion data (the slot's block is empty).
    pub fabricate_at: Option<u32>,
    /// Treat the opponent's valid move at this depth as absent: a spurious
    /// timeout claim at the depth before.
    pub ignore_at: Option<u32>,
    /// Refuse the cooperative fold at the end of the game.
    pub refuse_fold: bool,
    /// Never claim on-chain (whatever the opponent does).
    pub passive: bool,
    /// Publish the move at this depth with garbage in place of the signature.
    pub garbage_at: Option<u32>,
    /// Answer a timeout claim with a garbage-signed move of mine.
    pub refute_with_garbage: bool,
    /// Stall graphs: exhibit the opponent's soundly signed entry at this depth as
    /// garbage-signed (a baseless signature exhibit).
    pub fabricate_sig_at: Option<u32>,
    /// Stall graphs: after publishing my invalid move, prove a stall against the
    /// opponent once its slot passes (a liar's stall proof).
    pub claim_own_invalid: bool,
    /// Stall graphs: do not exhibit the opponent's invalid move (wait for its
    /// stall proof instead).
    pub no_exhibit: bool,
    /// Stall graphs: exhibit the opponent's valid move at this depth as a lie (a
    /// baseless exhibit).
    pub frame_at: Option<u32>,
}

impl Brain {
    /// Whether no fault is scripted.
    pub open spec fn is_honest(self) -> bool {
        &&& self.stall_at is None
        &&& self.invalid_at is None
        &&& self.fabricate_at is None
        &&& self.ignore_at is None
        &&& !self.refuse_fold
        &&& !self.passive
        &&& self.garbage_at is None
        &&& !self.refute_with_garbage
        &&& self.fabricate_sig_at is None
        &&& !self.claim_own_invalid
        &&& !self.no_exhibit
        &&& self.frame_at is None
    }

    /// A brain that plays these moves and nothing else.
    pub fn playing(moves: Vec<u8>) -> (b: Brain)
        ensures
            b.is_honest(),
            b.moves == moves,
    {
        Brain {
            moves,
            stall_at: None,
            invalid_at: None,
            fabricate_at: None,
            ignore_at: None,
            refuse_fold: false,
            passive: false,
            garbage_at: None,
            refute_with_garbage: false,
            fabricate_sig_at: None,
            claim_own_invalid: false,
            no_exhibit: false,
            frame_at: None,
        }
    }
}

impl Default for Brain {
    fn default() -> (b: Brain)
        ensures
            b.is_honest(),
            b.moves@.len() == 0,
    {
        Brain::playing(Vec::new())
    }
}

/// The brains of the reference game: 4, 1, 0, 8, 6, 3, 2, and the user wins at
/// move 7.
pub fn honest() -> (brains: [Brain; 2])
    ensures
        brains@[0].is_honest(),
        brains@[1].is_honest(),
        brains@[0].moves@ == seq![4u8, 0, 6, 2],
        brains@[1].moves@ == seq![1u8, 8, 3],
{
    let user: Vec<u8> = vec![4u8, 0, 6, 2];
    let hub: Vec<u8> = vec![1u8, 8, 3];
    assert(user@ =~= seq![4u8, 0, 6, 2]);
    assert(hub@ =~= seq![1u8, 8, 3]);
    [Brain::playing(user), Brain::playing(hub)]
}

// ----- boards -----

/// A board: the marks in its cells (0 for none), who is on turn, and whether the
/// game is open.
#[derive(Clone, Copy, Debug)]
pub struct Board {
    pub cells: [u8; 9],
    pub turn: Role,
    pub open: bool,
}

/// A side's mark. The values are this library's choice: whoever hands it boards of
/// a game program writes that program's marks as these.
pub open spec fn mark_spec(r: Role) -> u8 {
    match r {
        Role::User => 1,
        Role::Hub => 2,
    }
}

/// A side's mark.
pub fn mark(r: Role) -> (m: u8)
    ensures
        m == mark_spec(r),
{
    match r {
        Role::User => 1,
        Role::Hub => 2,
    }
}

impl Board {
    /// The empty board, the user on turn.
    pub open spec fn start() -> Board {
        Board { cells: [0u8, 0, 0, 0, 0, 0, 0, 0, 0], turn: Role::User, open: true }
    }

    /// A board of an open game has a free cell.
    pub open spec fn wf(self) -> bool {
        self.open ==> exists|c: int| 0 <= c < 9 && #[trigger] self.cells@[c] == 0
    }

    /// Whether some cell is taken.
    pub open spec fn has_taken(self) -> bool {
        exists|c: int| 0 <= c < 9 && #[trigger] self.cells@[c] != 0
    }

    /// The first free cell from `c` on, or 9.
    pub open spec fn free_from(self, c: int) -> int
        decreases 9 - c,
    {
        if c >= 9 || self.cells@[c] == 0 {
            c
        } else {
            self.free_from(c + 1)
        }
    }

    /// The first taken cell from `c` on, or 9.
    pub open spec fn taken_from(self, c: int) -> int
        decreases 9 - c,
    {
        if c >= 9 || self.cells@[c] != 0 {
            c
        } else {
            self.taken_from(c + 1)
        }
    }

    /// The board that a player claims who plays a taken cell as if it were free.
    pub open spec fn overwritten(self, c: u8, r: Role) -> Board {
        Board {
            cells: vstd::array::spec_array_update(self.cells, c as int, mark_spec(r)),
            turn: r.opponent(),
            open: self.open,
        }
    }

    /// The empty board.
    pub fn empty() -> (b: Board)
        ensures
            b == Board::start(),
            b.wf(),
    {
        let b = Board { cells: [0u8, 0, 0, 0, 0, 0, 0, 0, 0], turn: Role::User, open: true };
        assert(b.cells@[0] == 0);
        b
    }

    fn find_free(&self) -> (c: u8)
        requires
            exists|c: int| 0 <= c < 9 && #[trigger] self.cells@[c] == 0,
        ensures
            c == self.free_from(0),
            c < 9,
    {
        let mut c: u8 = 0;
        while self.cells[c as usize] != 0
            invariant
                c < 9,
                self.free_from(0) == self.free_from(c as int),
                exists|k: int| c <= k < 9 && #[trigger] self.cells@[k] == 0,
            decreases 9 - c,
        {
            c = c + 1;
        }
        c
    }

    fn find_taken(&self) -> (c: u8)
        requires
            self.has_taken(),
        ensures
            c == self.taken_from(0),
            c < 9,
    {
        let mut c: u8 = 0;
        while self.cells[c as usize] == 0
            invariant
                c < 9,
                self.taken_from(0) == self.taken_from(c as int),
                exists|k: int| c <= k < 9 && #[trigger] self.cells@[k] != 0,
            decreases 9 - c,
        {
            c = c + 1;
        }
        c
    }

    /// Whether two boards are the same.
    pub fn same(&self, other: &Board) -> (r: bool)
        ensures
            r == (*self == *other),
    {
        if self.turn != other.turn || self.open != other.open {
            return false;
        }
        for i in 0..9usize
            invariant
                forall|j: int| 0 <= j < i ==> self.cells@[j] == other.cells@[j],
        {
            if self.cells[i] != other.cells[i] {
                return false;
            }
        }
        assert(self.cells@ =~= other.cells@);
        assert(self.cells =~= other.cells);
        true
    }
}

// ----- the world -----

/// A move published on the venue.
#[derive(Debug)]
pub struct Published {
    /// The cell played.
    pub mv: u8,
    /// The word of the state that the mover claimed to leave.
    pub state: u32,
    /// The entry, encoded.
    pub bytes: Vec<u8>,
    /// The board that the mover claimed to leave.
    pub claimed: Board,
    /// Do the entry's preimages open the mover's pinned key?
    pub signed: bool,
    /// The board after it (`None` if the move was invalid or unsigned).
    pub board: Option<Board>,
}

/// The game on the venue, and what the parties know of each other.
pub struct GameWorld {
    pub brains: [Brain; 2],
    /// Fact-chain blocks mined since the game opened.
    pub slots: u32,
    /// Valid moves on the venue so far, and the board that they produce.
    pub depth: u32,
    pub board: Board,
    pub published: HashMap<u32, Published>,
    /// What each mined slot's block carries (empty for an empty block).
    pub blocks: HashMap<u32, Vec<u8>>,
    /// The entry for the coming slot.
    pub pending: Option<Published>,
    /// The agreed distribution once the game is over.
    pub result: Option<[u64; 2]>,
    /// Set once a claim is queued: the venue game is over.
    pub escalated: bool,
    pub fold_rejected: bool,
    /// The stall graph instead of the star graph.
    pub stall: bool,
}

/// Why a party goes on-chain.
#[derive(Clone, Copy, Debug, PartialEq, Eq, Structural)]
pub enum Why {
    /// The game is over and the opponent refused the fold.
    FoldRefused,
    /// A move that was never published.
    Fabricated,
    /// The party's own invalid move.
    OwnInvalid,
    /// The opponent's valid move, treated as absent.
    Ignored,
    /// The opponent's valid move, exhibited as a lie.
    Framed,
    /// The opponent's sound signature, exhibited as garbage.
    FabricatedSig,
    /// The opponent published nothing (or, on the star graph, nothing valid).
    Timeout,
    /// The opponent's move is invalid.
    InvalidMove,
    /// The opponent's entry is garbage-signed.
    GarbageSigned,
}

/// What a party queues in the channel's contract.
#[derive(Clone, Copy, Debug, PartialEq, Eq, Structural)]
pub enum Reaction {
    /// Star graph: a claim at `depth` with the party's own move there.
    Claim { by: Role, depth: u32, cell: u8, why: Why },
    /// Stall graph: no move follows the party's move at `depth`, which is the one
    /// published, or this cell.
    Stall { by: Role, depth: u32, cell: Option<u8>, why: Why },
    /// Stall graph: the opponent's move at `depth` is a lie.
    Lie { by: Role, depth: u32, why: Why },
    /// Stall graph: the opponent's entry at `depth` is garbage-signed.
    Sig { by: Role, depth: u32, why: Why },
}

/// What cannot be read off the venue.
#[derive(Clone, Copy, Debug, PartialEq, Eq, Structural)]
pub enum WorldError {
    /// No move was published at this depth.
    NoMove(u32),
    /// The move at this depth was invalid.
    InvalidMove(u32),
    /// The contract pins another mover's keys at the coming depth.
    WrongProver,
    /// The mined entry cannot be decoded.
    Undecodable,
    /// The mined entry is not the one that was meant.
    Mismatch,
    /// The entry at this depth is soundly signed: no bit shows it to be garbage.
    SoundlySigned(u32),
}

/// Whether a valid move was published at a depth.
pub open spec fn valid_in(published: Map<u32, Published>, d: u32) -> bool {
    published.contains_key(d) && published[d].board is Some
}

impl GameWorld {
    /// A side's brain.
    pub open spec fn brain(self, r: Role) -> Brain {
        self.brains@[r.place() as int]
    }

    /// Whether a valid move was published at a depth.
    pub open spec fn valid_at(self, d: u32) -> bool {
        valid_in(self.published@, d)
    }

    /// The state is one that play on the venue leads to: every move up to `depth`
    /// is published and valid, the one after it, if published, is not, and
    /// nothing else is published; the board is the last valid move's. An entry is
    /// pending only for the slot of the next move.
    pub open spec fn wf(self) -> bool {
        &&& self.depth <= LAST_DEPTH
        &&& self.depth <= self.slots
        &&& forall|d: u32| 1 <= d <= self.depth ==> #[trigger] valid_in(self.published@, d)
        &&& forall|d: u32|
            #[trigger] self.published@.contains_key(d) ==> 1 <= d <= self.slots && d <= self.depth
                + 1
        &&& forall|d: u32| d == self.depth + 1 ==> !#[trigger] valid_in(self.published@, d)
        &&& forall|d: u32|
            #[trigger] self.published@.contains_key(d) ==> (self.published@[d].board matches Some(
                b,
            ) ==> b == self.published@[d].claimed && b.wf() && self.published@[d].signed)
        &&& self.board == self.board_at(self.depth)
        &&& self.board.wf()
        &&& self.depth == 0 ==> self.board.open
        &&& self.pending matches Some(p) ==> {
            &&& self.slots == self.depth
            &&& self.depth < LAST_DEPTH
            &&& self.board.open
            &&& p.board matches Some(b) ==> b == p.claimed && b.wf()
        }
    }

    /// The board after a depth's moves.
    pub open spec fn board_at(self, d: u32) -> Board {
        if d == 0 {
            Board::start()
        } else {
            self.published@[d].board->0
        }
    }

    /// A game at its start, with these brains.
    pub fn new_with(brains: [Brain; 2], stall: bool) -> (w: GameWorld)
        ensures
            w.wf(),
            w.brains == brains,
            w.stall == stall,
            w.slots == 0 && w.depth == 0 && w.board == Board::start(),
            w.published@ == Map::<u32, Published>::empty(),
            w.blocks@ == Map::<u32, Vec<u8>>::empty(),
            w.pending is None && w.result is None,
            !w.escalated && !w.fold_rejected,
    {
        GameWorld {
            brains,
            slots: 0,
            depth: 0,
            board: Board::empty(),
            published: HashMap::new(),
            blocks: HashMap::new(),
            pending: None,
            result: None,
            escalated: false,
            fold_rejected: false,
            stall,
        }
    }

    /// A game on the star graph.
    pub fn new(brains: [Brain; 2]) -> (w: GameWorld)
        ensures
            w.wf(),
            w.brains == brains,
            !w.stall,
            w.slots == 0 && w.depth == 0 && w.board == Board::start(),
            w.published@ == Map::<u32, Published>::empty(),
            w.blocks@ == Map::<u32, Vec<u8>>::empty(),
            w.pending is None && w.result is None,
            !w.escalated && !w.fold_rejected,
    {
        GameWorld::new_with(brains, false)
    }

    /// A game on the stall graph.
    pub fn new_stall(brains: [Brain; 2]) -> (w: GameWorld)
        ensures
            w.wf(),
            w.brains == brains,
            w.stall,
            w.slots == 0 && w.depth == 0 && w.board == Board::start(),
            w.published@ == Map::<u32, Published>::empty(),
            w.blocks@ == Map::<u32, Vec<u8>>::empty(),
            w.pending is None && w.result is None,
            !w.escalated && !w.fold_rejected,
    {
        GameWorld::new_with(brains, true)
    }

    /// What can be read of the board before a depth's move: the empty board before
    /// the first, else the board of the move before, if it was published and valid.
    pub open spec fn prior_spec(self, d: u32) -> Result<Board, WorldError> {
        if d == 1 {
            Ok(Board::start())
        } else if !self.published@.contains_key((d - 1) as u32) {
            Err(WorldError::NoMove((d - 1) as u32))
        } else {
            match self.published@[(d - 1) as u32].board {
                Some(b) => Ok(b),
                None => Err(WorldError::InvalidMove((d - 1) as u32)),
            }
        }
    }

    /// The board that a move leaves from.
    pub fn board_before(&self, d: u32) -> (r: Result<Board, WorldError>)
        requires
            d >= 1,
        ensures
            r == self.prior_spec(d),
    {
        if d == 1 {
            return Ok(Board::empty());
        }
        match self.published.get(&(d - 1)) {
            None => Err(WorldError::NoMove(d - 1)),
            Some(p) => match p.board {
                Some(b) => Ok(b),
                None => Err(WorldError::InvalidMove(d - 1)),
            },
        }
    }

    fn is_valid_at(&self, d: u32) -> (r: bool)
        ensures
            r == self.valid_at(d),
    {
        match self.published.get(&d) {
            Some(p) => p.board.is_some(),
            None => false,
        }
    }

    // ----- publishing -----

    /// The slot that the next fact-chain block will be.
    pub fn next_slot(&self) -> (d: u32)
        requires
            self.slots < u32::MAX,
        ensures
            d == self.slots + 1,
    {
        self.slots + 1
    }

    /// Whether the brain on turn has something to decide for the coming slot.
    pub open spec fn on_turn(self) -> bool {
        !self.escalated && self.board.open && self.slots == self.depth && self.depth < LAST_DEPTH
    }

    /// What the brain on turn does with the coming slot.
    pub open spec fn publish_spec(self) -> PublishPlan {
        let d = (self.slots + 1) as u32;
        let r = mover(d as int);
        let brain = self.brain(r);
        let turn = (d - 1) / 2;
        if !self.on_turn() {
            PublishPlan::Nothing
        } else if brain.stall_at == Some(d) {
            PublishPlan::Stall
        } else if brain.fabricate_at == Some(d) {
            PublishPlan::Fabricate
        } else if turn >= brain.moves@.len() {
            PublishPlan::NoMove
        } else if brain.invalid_at == Some(d) {
            let cell = self.board.taken_from(0) as u8;
            PublishPlan::Invalid {
                cell,
                claimed: self.board.overwritten(cell, r),
                garbage: brain.garbage_at == Some(d),
            }
        } else {
            PublishPlan::Move { cell: brain.moves@[turn], garbage: brain.garbage_at == Some(d) }
        }
    }

    /// Decide what the brain on turn publishes in the coming slot.
    pub fn publish_step(&self) -> (plan: PublishPlan)
        requires
            self.wf(),
            self.slots < u32::MAX,
            self.publish_spec() is Invalid ==> self.board.has_taken(),
        ensures
            plan == self.publish_spec(),
    {
        if self.escalated || !self.board.open {
            return PublishPlan::Nothing;
        }
        let d: u32 = self.next_slot();
        if d != self.depth + 1 || d > LAST_DEPTH {
            return PublishPlan::Nothing;
        }
        let r: Role = mover_at(d);
        let brain: &Brain = &self.brains[r.idx()];
        if brain.stall_at == Some(d) {
            return PublishPlan::Stall;
        }
        if brain.fabricate_at == Some(d) {
            return PublishPlan::Fabricate;
        }
        let turn: usize = ((d - 1) / 2) as usize;
        if turn >= brain.moves.len() {
            return PublishPlan::NoMove;
        }
        let garbage: bool = brain.garbage_at == Some(d);
        if brain.invalid_at == Some(d) {
            let cell: u8 = self.board.find_taken();
            let mut claimed: Board = self.board;
            claimed.cells[cell as usize] = mark(r);
            claimed.turn = r.other();
            assert(claimed == self.board.overwritten(cell, r));
            return PublishPlan::Invalid { cell, claimed, garbage };
        }
        PublishPlan::Move { cell: brain.moves[turn], garbage }
    }
}

/// What a brain does with the coming slot.
#[derive(Clone, Copy, Debug)]
pub enum PublishPlan {
    /// Nothing is due.
    Nothing,
    /// It does not publish its move.
    Stall,
    /// It does not publish its move, and will claim it all the same.
    Fabricate,
    /// It has no move scripted.
    NoMove,
    /// It plays a taken cell and claims this board; with garbage in place of the
    /// signature, if so scripted.
    Invalid { cell: u8, claimed: Board, garbage: bool },
    /// It plays a cell; with garbage in place of the signature, if so scripted.
    Move { cell: u8, garbage: bool },
}

/// What stands in place of a signature of `n` preimages when it is garbage: the
/// bytes of preimage `i` are all `0xEE` xor the low byte of `i`.
pub fn garbage_sigs(n: usize) -> (sigs: Vec<Hash160>)
    ensures
        sigs@.len() == n,
        forall|i: int, j: int|
            0 <= i < n && 0 <= j < 20 ==> #[trigger] sigs@[i]@[j] == 0xEEu8 ^ ((i % 256) as u8),
{
    let mut sigs: Vec<Hash160> = Vec::new();
    for i in 0..n
        invariant
            sigs@.len() == i,
            forall|k: int, j: int|
                0 <= k < i && 0 <= j < 20 ==> #[trigger] sigs@[k]@[j] == 0xEEu8 ^ ((k % 256) as u8),
    {
        let low: u8 = (i % 256) as u8;
        let sig: Hash160 = [0xEEu8 ^ low; 20];
        sigs.push(sig);
    }
    sigs
}

// ----- mining -----

/// Who takes the stakes.
#[derive(Clone, Copy, Debug, PartialEq, Eq, Structural)]
pub enum Payout {
    UserAll,
    HubAll,
    Even,
}

/// What each side gets when a finished game is folded: the stakes as the payout
/// says, and its own reserve.
pub open spec fn fold_spec(payout: Payout) -> (int, int) {
    match payout {
        Payout::UserAll => (2 * STAKE + RESERVE, RESERVE as int),
        Payout::HubAll => (RESERVE as int, 2 * STAKE + RESERVE),
        Payout::Even => (STAKE + RESERVE, STAKE + RESERVE),
    }
}

/// What each side gets when a finished game is folded.
pub fn fold_dist(payout: Payout) -> (dist: [u64; 2])
    ensures
        dist@[0] == fold_spec(payout).0,
        dist@[1] == fold_spec(payout).1,
{
    match payout {
        Payout::UserAll => [STAKE + STAKE + RESERVE, RESERVE],
        Payout::HubAll => [RESERVE, STAKE + STAKE + RESERVE],
        Payout::Even => [STAKE + RESERVE, STAKE + RESERVE],
    }
}

/// What the venue and the contract say of a mined entry.
#[derive(Clone, Copy, Debug)]
pub struct MinedEntry {
    /// Whose keys the contract pins at this depth (star graph).
    pub prover: Role,
    /// The fields of the entry, if it can be decoded.
    pub decoded: Option<EntryFields>,
    /// Do its preimages open the mover's pinned key?
    pub opens: bool,
    /// The payout of the claimed board, should the game be over.
    pub payout: Payout,
}

/// The fields of a decoded entry.
#[derive(Clone, Copy, Debug)]
pub struct EntryFields {
    pub state: u32,
    pub mover: u8,
    pub depth: u8,
}

/// What came of a slot.
#[derive(Clone, Copy, Debug, PartialEq, Eq, Structural)]
pub enum SlotOutcome {
    /// The block is empty; whether a move was due in it.
    Empty { due: bool },
    /// The block carries the mover's entry.
    Held { signed: bool, valid: bool, over: bool },
}

impl GameWorld {
    /// Why a mined entry is not taken, if it is not.
    pub open spec fn entry_error(self, p: Published, mined: MinedEntry) -> Option<WorldError> {
        let d = self.slots + 1;
        let m = mover(d);
        if !self.stall && mined.prover != m {
            Some(WorldError::WrongProver)
        } else {
            match mined.decoded {
                None => Some(WorldError::Undecodable),
                Some(e) => if e.state == p.state && e.mover == m.place() && e.depth == d {
                    None
                } else {
                    Some(WorldError::Mismatch)
                },
            }
        }
    }

    /// Whether a mined entry counts as a move: it is signed, and was valid.
    pub open spec fn counts(self, p: Published, mined: MinedEntry) -> bool {
        mined.opens && p.board is Some
    }

    /// The world after the coming slot is mined.
    pub open spec fn mined_world(self, mined: MinedEntry, after: GameWorld) -> bool {
        let d = (self.slots + 1) as u32;
        &&& after.brains == self.brains
        &&& after.slots == self.slots + 1
        &&& after.pending is None
        &&& after.escalated == self.escalated
        &&& after.fold_rejected == self.fold_rejected
        &&& after.stall == self.stall
        &&& match self.pending {
            None => {
                &&& after.blocks@.dom() == self.blocks@.dom().insert(d)
                &&& after.blocks@[d]@ == Seq::<u8>::empty()
                &&& after.published@ == self.published@
                &&& after.depth == self.depth
                &&& after.board == self.board
                &&& after.result == self.result
            },
            Some(p) => {
                &&& after.blocks@.dom() == self.blocks@.dom().insert(d)
                &&& after.blocks@[d]@ == p.bytes@
                &&& if self.entry_error(p, mined) is Some {
                    &&& after.published@ == self.published@
                    &&& after.depth == self.depth
                    &&& after.board == self.board
                    &&& after.result == self.result
                } else {
                    let q = Published {
                        signed: mined.opens,
                        board: if mined.opens {
                            p.board
                        } else {
                            None
                        },
                        ..p
                    };
                    &&& after.published@ == self.published@.insert(d, q)
                    &&& after.depth == if self.counts(p, mined) {
                        d
                    } else {
                        self.depth
                    }
                    &&& after.board == if self.counts(p, mined) {
                        p.board->0
                    } else {
                        self.board
                    }
                    &&& if self.counts(p, mined) && !(p.board->0).open {
                        after.result matches Some(dist) && dist@[0] == fold_spec(mined.payout).0
                            && dist@[1] == fold_spec(mined.payout).1
                    } else {
                        after.result == self.result
                    }
                }
            },
        }
        &&& forall|k: u32| k != d && self.blocks@.contains_key(k) ==> #[trigger] after.blocks@[k]
            == self.blocks@[k]
    }

    /// Hand in the entry for the coming slot, as planned: its board is the claimed
    /// one if the move is valid, and none otherwise.
    pub fn publish(&mut self, entry: Published)
        requires
            old(self).wf(),
            old(self).slots < u32::MAX,
            old(self).publish_spec() is Move || old(self).publish_spec() is Invalid,
            old(self).publish_spec() is Move ==> entry.board == Some(entry.claimed),
            old(self).publish_spec() is Invalid ==> entry.board is None,
            entry.board matches Some(b) ==> b.wf(),
        ensures
            final(self).wf(),
            *final(self) == (GameWorld { pending: Some(entry), ..*old(self) }),
    {
        self.pending = Some(entry);
    }

    /// Mine the coming slot with the pending entry (or empty), and take what
    /// everyone sees of it.
    pub fn mine_slot(&mut self, mined: MinedEntry) -> (r: Result<SlotOutcome, WorldError>)
        requires
            old(self).wf(),
            old(self).slots < u32::MAX,
        ensures
            final(self).wf(),
            old(self).mined_world(mined, *final(self)),
            match old(self).pending {
                None => r == Ok::<SlotOutcome, WorldError>(
                    SlotOutcome::Empty {
                        due: old(self).slots < LAST_DEPTH && !old(self).escalated && old(
                            self,
                        ).board.open,
                    },
                ),
                Some(p) => match old(self).entry_error(p, mined) {
                    Some(e) => r == Err::<SlotOutcome, WorldError>(e),
                    None => r == Ok::<SlotOutcome, WorldError>(
                        SlotOutcome::Held {
                            signed: mined.opens,
                            valid: old(self).counts(p, mined),
                            over: old(self).counts(p, mined) && !(p.board->0).open,
                        },
                    ),
                },
            },
    {
        let ghost before = *self;
        let d: u32 = self.next_slot();
        let pending: Option<Published> = self.pending.take();
        self.slots = d;
        let mut p: Published = match pending {
            None => {
                self.blocks.insert(d, Vec::new());
                assert(self.blocks@.dom() =~= before.blocks@.dom().insert(d));
                assert(self.blocks@[d]@ =~= Seq::<u8>::empty());
                let due: bool = d <= LAST_DEPTH && !self.escalated && self.board.open;
                return Ok(SlotOutcome::Empty { due });
            },
            Some(p) => p,
        };
        let bytes: Vec<u8> = vstd::slice::slice_to_vec(p.bytes.as_slice());
        self.blocks.insert(d, bytes);
        assert(self.blocks@.dom() =~= before.blocks@.dom().insert(d));
        let m: Role = mover_at(d);
        if !self.stall && mined.prover != m {
            return Err(WorldError::WrongProver);
        }
        let e: EntryFields = match mined.decoded {
            None => {
                return Err(WorldError::Undecodable);
            },
            Some(e) => e,
        };
        if e.state != p.state || e.mover as usize != m.idx() || e.depth as u32 != d {
            return Err(WorldError::Mismatch);
        }
        p.signed = mined.opens;
        if !mined.opens {
            p.board = None;
        }
        let mut valid: bool = false;
        let mut over: bool = false;
        if let Some(b) = p.board {
            self.board = b;
            self.depth = d;
            valid = true;
            over = !b.open;
        }
        let signed: bool = p.signed;
        let ghost q = p;
        self.published.insert(d, p);
        if over {
            self.result = Some(fold_dist(mined.payout));
        }
        assert(self.wf()) by {
            assert forall|k: u32| 1 <= k <= self.depth implies #[trigger] valid_in(
                self.published@,
                k,
            ) by {
                if k != d {
                    assert(valid_in(before.published@, k));
                }
            }
            assert forall|k: u32| k == self.depth + 1 implies !#[trigger] valid_in(
                self.published@,
                k,
            ) by {
                if k != d {
                    assert(!before.published@.contains_key(k));
                }
            }
        }
        Ok(SlotOutcome::Held { signed, valid, over })
    }
}

// ----- reacting -----

impl GameWorld {
    /// The party's slot passed empty, and it claims the move all the same.
    pub open spec fn fabricates(self, r: Role) -> bool {
        self.brain(r).fabricate_at matches Some(d) && self.slots >= d + 1 && mover(d as int) == r
            && self.depth == d - 1
    }

    /// The cell of a party's fabricated move.
    pub open spec fn fabricated_cell(self, r: Role) -> u8 {
        self.brain(r).moves@[(self.brain(r).fabricate_at->0 - 1) / 2]
    }

    /// A party that fabricates a move has one scripted.
    pub open spec fn fabrication_scripted(self, r: Role) -> bool {
        !self.brain(r).passive && self.board.open && self.fabricates(r) ==> (self.brain(
            r,
        ).fabricate_at->0 - 1) / 2 < self.brain(r).moves@.len()
    }

    /// The party's own invalid move is published and the opponent's slot passed.
    pub open spec fn has_own_invalid(self, r: Role) -> bool {
        self.brain(r).invalid_at matches Some(d) && self.published@.contains_key(d) && mover(
            d as int,
        ) == r && self.slots >= d + 1 && self.published@[d].board is None
    }

    /// The party proves a stall with its own invalid move.
    pub open spec fn pushes_invalid(self, r: Role) -> bool {
        self.brain(r).invalid_at matches Some(d) && self.brain(r).claim_own_invalid && mover(
            d as int,
        ) == r && self.published@.contains_key(d) && self.slots >= d + 1
    }

    /// The party exhibits the opponent's soundly signed entry as garbage-signed.
    pub open spec fn fakes_garbage(self, r: Role) -> bool {
        self.brain(r).fabricate_sig_at matches Some(d) && mover(d as int) == r.opponent()
            && self.published@.contains_key(d) && self.published@[d].signed
    }

    /// The party ignores the opponent's valid move.
    pub open spec fn ignores(self, r: Role) -> bool {
        self.brain(r).ignore_at matches Some(k) && k >= 2 && mover(k as int) == r.opponent()
            && self.valid_at(k)
    }

    /// The opponent's slot passed, after some move, without a valid move in it.
    pub open spec fn overdue(self, r: Role) -> bool {
        self.depth >= 1 && mover(self.depth + 1) == r.opponent() && self.slots >= self.depth + 1
            && !self.valid_at((self.depth + 1) as u32)
    }

    /// What a party queues on the star graph: a result claim when the fold was
    /// refused, a fabricated claim, a claim of its own invalid move, a spurious
    /// timeout claim, or a timeout claim.
    pub open spec fn star_reaction(self, r: Role) -> Option<Reaction> {
        let brain = self.brain(r);
        if brain.passive {
            None
        } else if !self.board.open {
            if self.fold_rejected && mover(self.depth as int) == r {
                Some(
                    Reaction::Claim {
                        by: r,
                        depth: self.depth,
                        cell: self.published@[self.depth].mv,
                        why: Why::FoldRefused,
                    },
                )
            } else {
                None
            }
        } else if self.fabricates(r) {
            Some(
                Reaction::Claim {
                    by: r,
                    depth: brain.fabricate_at->0,
                    cell: self.fabricated_cell(r),
                    why: Why::Fabricated,
                },
            )
        } else if self.has_own_invalid(r) {
            Some(
                Reaction::Claim {
                    by: r,
                    depth: brain.invalid_at->0,
                    cell: self.board.free_from(0) as u8,
                    why: Why::OwnInvalid,
                },
            )
        } else if self.ignores(r) {
            let d = (brain.ignore_at->0 - 1) as u32;
            Some(
                Reaction::Claim {
                    by: r,
                    depth: d,
                    cell: self.published@[d].mv,
                    why: Why::Ignored,
                },
            )
        } else if self.overdue(r) {
            Some(
                Reaction::Claim {
                    by: r,
                    depth: self.depth,
                    cell: self.published@[self.depth].mv,
                    why: Why::Timeout,
                },
            )
        } else {
            None
        }
    }

    /// The opponent's valid move at a depth.
    pub open spec fn opponents_valid(self, r: Role, k: Option<u32>) -> bool {
        k matches Some(d) && mover(d as int) == r.opponent() && self.valid_at(d)
    }

    /// What a party queues on the stall graph: a stall proof when the opponent's
    /// slot passed empty (or is ignored, or the game is over and the fold was
    /// refused), a lie exhibit when its move was invalid (or is framed), a
    /// signature exhibit when its entry was garbage-signed (or is said to be), a
    /// stall proof of the party's own invalid or fabricated move.
    pub open spec fn stall_reaction(self, r: Role) -> Option<Reaction> {
        let brain = self.brain(r);
        let k = (self.depth + 1) as u32;
        if brain.passive {
            None
        } else if !self.board.open {
            if self.fold_rejected && mover(self.depth as int) == r && self.slots >= self.depth + 1 {
                Some(
                    Reaction::Stall {
                        by: r,
                        depth: self.depth,
                        cell: None,
                        why: Why::FoldRefused,
                    },
                )
            } else {
                None
            }
        } else if self.fabricates(r) {
            Some(
                Reaction::Stall {
                    by: r,
                    depth: brain.fabricate_at->0,
                    cell: Some(self.fabricated_cell(r)),
                    why: Why::Fabricated,
                },
            )
        } else if self.pushes_invalid(r) {
            Some(
                Reaction::Stall {
                    by: r,
                    depth: brain.invalid_at->0,
                    cell: None,
                    why: Why::OwnInvalid,
                },
            )
        } else if self.opponents_valid(r, brain.frame_at) {
            Some(Reaction::Lie { by: r, depth: brain.frame_at->0, why: Why::Framed })
        } else if self.ignores(r) && self.slots >= brain.ignore_at->0 {
            Some(
                Reaction::Stall {
                    by: r,
                    depth: (brain.ignore_at->0 - 1) as u32,
                    cell: None,
                    why: Why::Ignored,
                },
            )
        } else if self.fakes_garbage(r) {
            Some(Reaction::Sig { by: r, depth: brain.fabricate_sig_at->0, why: Why::FabricatedSig })
        } else if self.depth >= 1 && mover(k as int) == r.opponent() && self.slots >= k {
            if !self.published@.contains_key(k) {
                Some(
                    Reaction::Stall { by: r, depth: self.depth, cell: None, why: Why::Timeout },
                )
            } else if brain.no_exhibit || self.published@[k].board is Some {
                None
            } else if self.published@[k].signed {
                Some(Reaction::Lie { by: r, depth: k, why: Why::InvalidMove })
            } else {
                Some(Reaction::Sig { by: r, depth: k, why: Why::GarbageSigned })
            }
        } else {
            None
        }
    }

    /// What a party queues.
    pub open spec fn reaction_of(self, r: Role) -> Option<Reaction> {
        if self.stall {
            self.stall_reaction(r)
        } else {
            self.star_reaction(r)
        }
    }

    /// What is queued: by the user, if the user reacts, else by the hub; nothing
    /// more once a claim is queued.
    pub open spec fn reaction(self) -> Option<Reaction> {
        if self.escalated {
            None
        } else if self.reaction_of(Role::User) is Some {
            self.reaction_of(Role::User)
        } else {
            self.reaction_of(Role::Hub)
        }
    }

    /// The moves that the brains need for their reactions are scripted.
    pub open spec fn scripted(self) -> bool {
        !self.escalated ==> {
            &&& self.fabrication_scripted(Role::User)
            &&& self.reaction_of(Role::User) is None ==> self.fabrication_scripted(Role::Hub)
        }
    }

    fn fabricating(&self, r: Role) -> (d: Option<u32>)
        requires
            self.wf(),
        ensures
            self.fabricates(r) ==> d == self.brain(r).fabricate_at,
            !self.fabricates(r) ==> d is None,
    {
        match self.brains[r.idx()].fabricate_at {
            Some(d) => if self.slots > d && mover_at(d) == r && d >= 1 && self.depth == d - 1 {
                Some(d)
            } else {
                None
            },
            None => None,
        }
    }

    fn published_mv(&self, d: u32) -> (mv: u8)
        requires
            self.published@.contains_key(d),
        ensures
            mv == self.published@[d].mv,
    {
        match self.published.get(&d) {
            Some(p) => p.mv,
            None => 0,
        }
    }

    fn star_react(&self, r: Role) -> (reaction: Option<Reaction>)
        requires
            self.wf(),
            self.fabrication_scripted(r),
        ensures
            reaction == self.star_reaction(r),
    {
        let brain: &Brain = &self.brains[r.idx()];
        let other: Role = r.other();
        if brain.passive {
            return None;
        }
        proof {
            if self.depth >= 1 {
                assert(valid_in(self.published@, self.depth));
            }
        }
        if !self.board.open {
            if self.fold_rejected && mover_at(self.depth) == r {
                let cell: u8 = self.published_mv(self.depth);
                return Some(
                    Reaction::Claim { by: r, depth: self.depth, cell, why: Why::FoldRefused },
                );
            }
            return None;
        }
        if let Some(d) = self.fabricating(r) {
            let turn: usize = ((d - 1) / 2) as usize;
            let cell: u8 = brain.moves[turn];
            return Some(Reaction::Claim { by: r, depth: d, cell, why: Why::Fabricated });
        }
        if let Some(d) = brain.invalid_at {
            if let Some(p) = self.published.get(&d) {
                if mover_at(d) == r && self.slots > d && p.board.is_none() {
                    let cell: u8 = self.board.find_free();
                    return Some(Reaction::Claim { by: r, depth: d, cell, why: Why::OwnInvalid });
                }
            }
        }
        if let Some(k) = brain.ignore_at {
            if k >= 2 && mover_at(k) == other && self.is_valid_at(k) {
                assert(k <= self.depth);
                assert(valid_in(self.published@, (k - 1) as u32));
                let cell: u8 = self.published_mv(k - 1);
                return Some(Reaction::Claim { by: r, depth: k - 1, cell, why: Why::Ignored });
            }
        }
        let k: u32 = self.depth + 1;
        if k >= 2 && mover_at(k) == other && self.slots >= k && !self.is_valid_at(k) {
            let cell: u8 = self.published_mv(self.depth);
            return Some(Reaction::Claim { by: r, depth: self.depth, cell, why: Why::Timeout });
        }
        None
    }

    fn stall_react(&self, r: Role) -> (reaction: Option<Reaction>)
        requires
            self.wf(),
            self.fabrication_scripted(r),
        ensures
            reaction == self.stall_reaction(r),
    {
        let brain: &Brain = &self.brains[r.idx()];
        let other: Role = r.other();
        if brain.passive {
            return None;
        }
        if !self.board.open {
            if self.fold_rejected && mover_at(self.depth) == r && self.slots > self.depth {
                return Some(
                    Reaction::Stall {
                        by: r,
                        depth: self.depth,
                        cell: None,
                        why: Why::FoldRefused,
                    },
                );
            }
            return None;
        }
        if let Some(d) = self.fabricating(r) {
            let turn: usize = ((d - 1) / 2) as usize;
            let cell: u8 = brain.moves[turn];
            return Some(
                Reaction::Stall { by: r, depth: d, cell: Some(cell), why: Why::Fabricated },
            );
        }
        if brain.claim_own_invalid {
            if let Some(d) = brain.invalid_at {
                if mover_at(d) == r && self.published.contains_key(&d) && self.slots > d {
                    return Some(
                        Reaction::Stall { by: r, depth: d, cell: None, why: Why::OwnInvalid },
                    );
                }
            }
        }
        if let Some(k) = brain.frame_at {
            if mover_at(k) == other && self.is_valid_at(k) {
                return Some(Reaction::Lie { by: r, depth: k, why: Why::Framed });
            }
        }
        if let Some(k) = brain.ignore_at {
            if k >= 2 && mover_at(k) == other && self.is_valid_at(k) && self.slots >= k {
                return Some(
                    Reaction::Stall { by: r, depth: k - 1, cell: None, why: Why::Ignored },
                );
            }
        }
        if let Some(k) = brain.fabricate_sig_at {
            if mover_at(k) == other {
                if let Some(p) = self.published.get(&k) {
                    if p.signed {
                        return Some(Reaction::Sig { by: r, depth: k, why: Why::FabricatedSig });
                    }
                }
            }
        }
        let k: u32 = self.depth + 1;
        if k >= 2 && mover_at(k) == other && self.slots >= k {
            return match self.published.get(&k) {
                None => Some(
                    Reaction::Stall { by: r, depth: self.depth, cell: None, why: Why::Timeout },
                ),
                Some(p) => if brain.no_exhibit || p.board.is_some() {
                    None
                } else if p.signed {
                    Some(Reaction::Lie { by: r, depth: k, why: Why::InvalidMove })
                } else {
                    Some(Reaction::Sig { by: r, depth: k, why: Why::GarbageSigned })
                },
            };
        }
        None
    }

    /// How the brains react to the venue: what one of them is to queue, if
    /// anything.
    pub fn react_step(&self) -> (reaction: Option<Reaction>)
        requires
            self.wf(),
            self.scripted(),
        ensures
            reaction == self.reaction(),
    {
        if self.escalated {
            return None;
        }
        let mut reaction: Option<Reaction> = if self.stall {
            self.stall_react(Role::User)
        } else {
            self.star_react(Role::User)
        };
        if reaction.is_none() {
            reaction = if self.stall {
                self.stall_react(Role::Hub)
            } else {
                self.star_react(Role::Hub)
            };
        }
        reaction
    }
}

// ----- claims in the contract -----

/// What a queued claim asserts.
#[derive(Clone, Copy, Debug, PartialEq, Eq, Structural)]
pub enum ClaimKind {
    Star,
    Stall,
    Lie,
    Sig,
}

/// A claim queued in the channel's contract.
pub struct QueuedClaim {
    pub kind: ClaimKind,
    pub depth: u32,
    /// The board that the claimed move leaves from.
    pub prior: Board,
    /// The bits of the move.
    pub mv: Vec<bool>,
    /// The board that the move leads to, where the claim names it.
    pub new: Option<Board>,
    /// The outcome, where the claim names it.
    pub code: Option<u8>,
}

/// The number of bits of a move.
pub const MOVE_BITS: usize = 4;

/// The code of a side's win. The values are this library's choice: whoever hands
/// the claim to a game program writes them as that program's codes.
pub open spec fn win_code(r: Role) -> u8 {
    match r {
        Role::User => 0,
        Role::Hub => 1,
    }
}

/// The bit that a signature exhibit shows, and its value: the first bit with the
/// value that the entry claims, if the exhibit is fabricated, else the one that
/// was found.
pub open spec fn exhibit_spec(
    k: u32,
    fabricated: bool,
    first: bool,
    found: Option<(usize, bool)>,
) -> Result<(usize, bool), WorldError> {
    if fabricated {
        Ok((0, first))
    } else {
        match found {
            Some(bit) => Ok(bit),
            None => Err(WorldError::SoundlySigned(k)),
        }
    }
}

/// The bit that a signature exhibit shows.
pub fn exhibited_bit(
    k: u32,
    fabricated: bool,
    first: bool,
    found: Option<(usize, bool)>,
) -> (r: Result<(usize, bool), WorldError>)
    ensures
        r == exhibit_spec(k, fabricated, first, found),
{
    if fabricated {
        Ok((0, first))
    } else {
        match found {
            Some(bit) => Ok(bit),
            None => Err(WorldError::SoundlySigned(k)),
        }
    }
}

impl GameWorld {
    /// Star graph: queue the claim of a move at a depth. Once a claim is queued, the
    /// venue game is over.
    pub fn queue_claim(&mut self, d: u32, cell: u8) -> (r: Result<QueuedClaim, WorldError>)
        requires
            d >= 1,
        ensures
            match old(self).prior_spec(d) {
                Err(e) => r == Err::<QueuedClaim, WorldError>(e),
                Ok(b) => {
                    &&& r matches Ok(q)
                    &&& q.kind == ClaimKind::Star && q.depth == d && q.prior == b
                    &&& q.mv@ == bits_of(cell as nat, MOVE_BITS as nat)
                    &&& q.new is None && q.code is None
                },
            },
            *final(self) == (GameWorld {
                escalated: old(self).escalated || r is Ok,
                ..*old(self)
            }),
    {
        match self.board_before(d) {
            Err(e) => Err(e),
            Ok(prior) => {
                self.escalated = true;
                Ok(
                    QueuedClaim {
                        kind: ClaimKind::Star,
                        depth: d,
                        prior,
                        mv: uint_to_bits(cell as u32, MOVE_BITS),
                        new: None,
                        code: None,
                    },
                )
            },
        }
    }

    /// Stall graph: queue the proof that no move follows the one at a depth: the one
    /// published, or a fabricated one with the board that it would lead to.
    pub fn queue_stall(&mut self, d: u32, fabricated: Option<(u8, Board)>) -> (r: Result<
        QueuedClaim,
        WorldError,
    >)
        requires
            d >= 1,
        ensures
            match old(self).prior_spec(d) {
                Err(e) => r == Err::<QueuedClaim, WorldError>(e),
                Ok(b) => if fabricated is None && !old(self).published@.contains_key(d) {
                    r == Err::<QueuedClaim, WorldError>(WorldError::NoMove(d))
                } else {
                    let (cell, new) = match fabricated {
                        Some(f) => f,
                        None => (old(self).published@[d].mv, old(self).published@[d].claimed),
                    };
                    &&& r matches Ok(q)
                    &&& q.kind == ClaimKind::Stall && q.depth == d && q.prior == b
                    &&& q.mv@ == bits_of(cell as nat, MOVE_BITS as nat)
                    &&& q.new == Some(new) && q.code is None
                },
            },
            *final(self) == (GameWorld {
                escalated: old(self).escalated || r is Ok,
                ..*old(self)
            }),
    {
        let prior: Board = match self.board_before(d) {
            Err(e) => {
                return Err(e);
            },
            Ok(b) => b,
        };
        let (cell, new): (u8, Board) = match fabricated {
            Some(f) => f,
            None => match self.published.get(&d) {
                None => {
                    return Err(WorldError::NoMove(d));
                },
                Some(p) => (p.mv, p.claimed),
            },
        };
        self.escalated = true;
        Ok(
            QueuedClaim {
                kind: ClaimKind::Stall,
                depth: d,
                prior,
                mv: uint_to_bits(cell as u32, MOVE_BITS),
                new: Some(new),
                code: None,
            },
        )
    }

    /// Stall graph: queue the exhibit of the opponent's move at a depth as a lie.
    pub fn queue_lie(&mut self, k: u32) -> (r: Result<QueuedClaim, WorldError>)
        requires
            k >= 1,
        ensures
            match old(self).prior_spec(k) {
                Err(e) => r == Err::<QueuedClaim, WorldError>(e),
                Ok(b) => if !old(self).published@.contains_key(k) {
                    r == Err::<QueuedClaim, WorldError>(WorldError::NoMove(k))
                } else {
                    &&& r matches Ok(q)
                    &&& q.kind == ClaimKind::Lie && q.depth == k && q.prior == b
                    &&& q.mv@ == bits_of(old(self).published@[k].mv as nat, MOVE_BITS as nat)
                    &&& q.new == Some(old(self).published@[k].claimed) && q.code is None
                },
            },
            *final(self) == (GameWorld {
                escalated: old(self).escalated || r is Ok,
                ..*old(self)
            }),
    {
        let prior: Board = match self.board_before(k) {
            Err(e) => {
                return Err(e);
            },
            Ok(b) => b,
        };
        let (cell, new): (u8, Board) = match self.published.get(&k) {
            None => {
                return Err(WorldError::NoMove(k));
            },
            Some(p) => (p.mv, p.claimed),
        };
        self.escalated = true;
        Ok(
            QueuedClaim {
                kind: ClaimKind::Lie,
                depth: k,
                prior,
                mv: uint_to_bits(cell as u32, MOVE_BITS),
                new: Some(new),
                code: None,
            },
        )
    }

    /// The first bit of the state that the entry at a depth claims.
    pub open spec fn head_bit(self, k: u32) -> bool {
        self.published@[k].state % 2 == 1
    }

    /// Stall graph: queue the exhibit of the opponent's entry at a depth as
    /// garbage-signed, with the winning code of the party that exhibits it, and
    /// the bit to exhibit; `found` is the first bit whose preimage opens nothing.
    /// The venue game is over once there is a bit to exhibit.
    pub fn queue_sig(
        &mut self,
        r: Role,
        k: u32,
        fabricated: bool,
        found: Option<(usize, bool)>,
    ) -> (c: Result<(QueuedClaim, (usize, bool)), WorldError>)
        requires
            k >= 1,
        ensures
            if !old(self).published@.contains_key(k) {
                &&& c == Err::<(QueuedClaim, (usize, bool)), WorldError>(WorldError::NoMove(k))
                &&& *final(self) == *old(self)
            } else {
                match exhibit_spec(k, fabricated, old(self).head_bit(k), found) {
                    Err(e) => {
                        &&& c == Err::<(QueuedClaim, (usize, bool)), WorldError>(e)
                        &&& *final(self) == *old(self)
                    },
                    Ok(bit) => {
                        &&& match old(self).prior_spec(k) {
                            Err(e) => c == Err::<(QueuedClaim, (usize, bool)), WorldError>(e),
                            Ok(b) => {
                                &&& c matches Ok(x)
                                &&& x.0.kind == ClaimKind::Sig && x.0.depth == k && x.0.prior == b
                                &&& x.0.mv@ == seq![false, false, false, false]
                                &&& x.0.new is None && x.0.code == Some(win_code(r))
                                &&& x.1 == bit
                            },
                        }
                        &&& *final(self) == (GameWorld { escalated: true, ..*old(self) })
                    },
                }
            },
    {
        let first: bool = match self.published.get(&k) {
            None => {
                return Err(WorldError::NoMove(k));
            },
            Some(p) => p.state % 2 == 1,
        };
        let bit: (usize, bool) = match exhibited_bit(k, fabricated, first, found) {
            Err(e) => {
                return Err(e);
            },
            Ok(bit) => bit,
        };
        self.escalated = true;
        let code: u8 = match r {
            Role::User => 0,
            Role::Hub => 1,
        };
        match self.board_before(k) {
            Err(e) => Err(e),
            Ok(prior) => {
                let mv: Vec<bool> = vec![false, false, false, false];
                assert(mv@ =~= seq![false, false, false, false]);
                Ok(
                    (
                        QueuedClaim {
                            kind: ClaimKind::Sig,
                            depth: k,
                            prior,
                            mv,
                            new: None,
                            code: Some(code),
                        },
                        bit,
                    ),
                )
            },
        }
    }

    /// Whether a party answers a claim made from `state` with its move `d`: it is
    /// the party's move, valid (or garbage-signed, if the brain refutes with
    /// garbage), and was published from that very state.
    pub open spec fn answers(self, r: Role, state: Board, d: u32) -> bool {
        &&& d >= 1
        &&& self.published@.contains_key(d)
        &&& mover(d as int) == r
        &&& self.published@[d].board is Some || (self.brain(r).refute_with_garbage
            && !self.published@[d].signed)
        &&& self.prior_spec(d) == Ok::<Board, WorldError>(state)
    }

    /// The cell with which a party answers a claim made from `state`: that of its
    /// first move that does.
    pub fn answer(&self, r: Role, state: &Board) -> (cell: Option<u8>)
        requires
            self.wf(),
        ensures
            match cell {
                Some(c) => exists|d: u32|
                    {
                        &&& #[trigger] self.answers(r, *state, d)
                        &&& c == self.published@[d].mv
                        &&& forall|e: u32| e < d ==> !#[trigger] self.answers(r, *state, e)
                    },
                None => forall|d: u32| !#[trigger] self.answers(r, *state, d),
            },
    {
        let with_garbage: bool = self.brains[r.idx()].refute_with_garbage;
        let mut d: u32 = 1;
        while d <= self.depth + 1
            invariant
                self.wf(),
                1 <= d <= self.depth + 2,
                with_garbage == self.brain(r).refute_with_garbage,
                forall|e: u32| e < d ==> !#[trigger] self.answers(r, *state, e),
            decreases self.depth + 2 - d,
        {
            if let Some(p) = self.published.get(&d) {
                if mover_at(d) == r && (p.board.is_some() || with_garbage && !p.signed) {
                    if let Ok(prior) = self.board_before(d) {
                        if prior.same(state) {
                            assert(self.answers(r, *state, d));
                            return Some(p.mv);
                        }
                    }
                }
            }
            d = d + 1;
        }
        None
    }

    // ----- policies -----

    /// What a party agrees to when the game is folded: nothing if it refuses, else
    /// the venue's result, if the game is over.
    pub fn fold_policy(&self, r: Role) -> (dist: Option<[u64; 2]>)
        ensures
            dist == (if self.brain(r).refuse_fold {
                None
            } else {
                self.result
            }),
    {
        if self.brains[r.idx()].refuse_fold {
            None
        } else {
            self.result
        }
    }

    /// Take note of what the parties tell: a refused fold shows as a rejection in
    /// the proposer's narrative.
    pub fn hear(&mut self, user: &[String], hub: &[String])
        requires
            old(self).wf(),
        ensures
            final(self).wf(),
            *final(self) == (GameWorld {
                fold_rejected: old(self).fold_rejected || rejection_told(views(user@))
                    || rejection_told(views(hub@)),
                ..*old(self)
            }),
    {
        if !self.fold_rejected && (tells_rejection(user) || tells_rejection(hub)) {
            self.fold_rejected = true;
        }
    }
}

/// Whether a narrative tells of a refused fold.
pub open spec fn rejection_told(lines: Seq<Seq<char>>) -> bool {
    exists|i: int|
        0 <= i < lines.len() && has_text(
            #[trigger] lines[i],
            "rejected by counterparty: I refuse to fold"@,
        )
}

/// Whether a narrative tells of a refused fold.
pub fn tells_rejection(lines: &[String]) -> (r: bool)
    ensures
        r == rejection_told(views(lines@)),
{
    let ghost all = views(lines@);
    for i in 0..lines.len()
        invariant
            all == views(lines@),
            forall|j: int|
                0 <= j < i ==> !has_text(
                    #[trigger] all[j],
                    "rejected by counterparty: I refuse to fold"@,
                ),
    {
        assert(all[i as int] == lines@[i as int]@);
        if contains(lines[i].as_str(), "rejected by counterparty: I refuse to fold") {
            return true;
        }
    }
    false
}

/// The terms of a game, as its program names them.
#[derive(Clone, Copy, Debug)]
pub struct GameTerms {
    pub game_id: u16,
    pub checkpoint: Hash160,
    pub btc_open: u32,
    pub grace: u32,
}

/// What is offered in a contract.
#[derive(Clone, Copy, Debug)]
pub enum Offer {
    /// The program is not a game on the fact chain.
    UnknownProgram,
    /// Its parameters cannot be read.
    Unreadable,
    /// A game on these terms.
    Game(GameTerms),
}

/// A change of the channel's state that the counterparty proposes.
#[derive(Clone, Copy, Debug)]
pub enum GameChange {
    Open { offer: Offer, stakes: [u64; 2] },
    Fold { id: u32, dist: [u64; 2] },
    Other,
}

/// Why a party refuses a change.
#[derive(Clone, Copy, Debug, PartialEq, Eq, Structural)]
pub enum Refusal {
    UnknownProgram,
    Unreadable,
    /// The game's terms do not match the party's view of the venue.
    Terms,
    /// The stakes are not symmetric.
    Stakes,
    UnknownContract,
    /// The party refuses to fold.
    Unwilling,
    /// The game is not over.
    NotOver,
    /// The fold does not match the venue's result.
    WrongResult,
}

/// What a party says of a change that it does not refuse.
#[derive(Clone, Copy, Debug, PartialEq, Eq, Structural)]
pub enum Verdict {
    Agree,
    /// The party has no rule of its own for it.
    Default,
}

/// The parameters of a program that is a game on the fact chain.
pub fn game_params(program: &str) -> (params: Option<String>)
    ensures
        match params {
            Some(t) => has_prefix(program@, "ttt-fc:"@) && t@ == program@.skip(
                "ttt-fc:"@.len() as int,
            ),
            None => !has_prefix(program@, "ttt-fc:"@),
        },
{
    strip_prefix(program, "ttt-fc:")
}

/// What a party says of a change: a game only on its own terms and with both
/// sides' full stakes, a fold only of a finished game to the venue's result.
pub open spec fn change_spec(
    change: GameChange,
    checkpoint: Seq<u8>,
    btc_open: u32,
    refuse: bool,
    result: Option<[u64; 2]>,
) -> Result<Verdict, Refusal> {
    match change {
        GameChange::Open { offer, stakes } => match offer {
            Offer::UnknownProgram => Err(Refusal::UnknownProgram),
            Offer::Unreadable => Err(Refusal::Unreadable),
            Offer::Game(terms) => if !(terms.checkpoint@ == checkpoint && terms.btc_open == btc_open
                && terms.grace == GRACE && terms.game_id == GAME_ID) {
                Err(Refusal::Terms)
            } else if !(stakes@[0] == STAKE + RESERVE && stakes@[1] == STAKE + RESERVE) {
                Err(Refusal::Stakes)
            } else {
                Ok(Verdict::Agree)
            },
        },
        GameChange::Fold { id, dist } => if id != ID_GAME {
            Err(Refusal::UnknownContract)
        } else if refuse {
            Err(Refusal::Unwilling)
        } else {
            match result {
                None => Err(Refusal::NotOver),
                Some(agreed) => if dist@ == agreed@ {
                    Ok(Verdict::Agree)
                } else {
                    Err(Refusal::WrongResult)
                },
            }
        },
        GameChange::Other => Ok(Verdict::Default),
    }
}

/// What a party says of a change.
pub fn change_policy(
    change: &GameChange,
    checkpoint: &Hash160,
    btc_open: u32,
    refuse: bool,
    result: Option<[u64; 2]>,
) -> (r: Result<Verdict, Refusal>)
    ensures
        r == change_spec(*change, checkpoint@, btc_open, refuse, result),
{
    match *change {
        GameChange::Open { offer, stakes } => match offer {
            Offer::UnknownProgram => Err(Refusal::UnknownProgram),
            Offer::Unreadable => Err(Refusal::Unreadable),
            Offer::Game(terms) => if !(same_hash(&terms.checkpoint, checkpoint) && terms.btc_open
                == btc_open && terms.grace == GRACE && terms.game_id == GAME_ID) {
                Err(Refusal::Terms)
            } else if !(stakes[0] == STAKE + RESERVE && stakes[1] == STAKE + RESERVE) {
                Err(Refusal::Stakes)
            } else {
                Ok(Verdict::Agree)
            },
        },
        GameChange::Fold { id, dist } => if id != ID_GAME {
            Err(Refusal::UnknownContract)
        } else if refuse {
            Err(Refusal::Unwilling)
        } else {
            match result {
                None => Err(Refusal::NotOver),
                Some(agreed) => if same_pair(&dist, &agreed) {
                    Ok(Verdict::Agree)
                } else {
                    Err(Refusal::WrongResult)
                },
            }
        },
        GameChange::Other => Ok(Verdict::Default),
    }
}

/// Whether two distributions are the same.
pub fn same_pair(a: &[u64; 2], b: &[u64; 2]) -> (r: bool)
    ensures
        r == (a@ == b@),
{
    let r: bool = a[0] == b[0] && a[1] == b[1];
    if r {
        assert(a@ =~= b@);
    }
    r
}

/// The deadline of a game's contract: the nine slots, the one after them, the
/// grace, and 20 blocks.
pub fn game_deadline(btc_open: u32) -> (deadline: u32)
    requires
        btc_open + LAST_DEPTH + 1 + GRACE + 20 <= u32::MAX,
    ensures
        deadline == btc_open + LAST_DEPTH + 1 + GRACE + 20,
{
    btc_open + LAST_DEPTH + 1 + GRACE + 20
}

} // verus!
