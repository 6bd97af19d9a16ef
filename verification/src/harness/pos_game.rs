//! Games on a proof-of-stake venue whose contract is played by hand on the chain:
//! the slot clock, the sealed slots and their deadlines, and the evidence.

use std::collections::{HashMap, HashSet};

use vstd::prelude::*;
use vstd::string::StringExecFns;

use crate::decode::text::hex_text;
use crate::harness::ledger::{row_views, txid_text, ReportTx, ReportTxView, TxidBytes};
use crate::harness::text::views;
use crate::harness::{mover, mover_at, Role};
use crate::hashing::{hash160, hash160_spec, same_hash, Hash160};
use crate::lamport::{items_view, PublicKey, Reveal};
use crate::script::machine::{le_bytes, num_bytes};

verus! {

broadcast use vstd::std_specs::hash::group_hash_axioms;

pub const GAME_ID: u16 = 1;

pub const CONTRACT_ID: u32 = 1;

pub const GRACE: u32 = 1;

/// Blocks from the opening of a contract to its deadline.
pub const DEADLINE_AFTER: u32 = 400;

/// The depths of tic-tac-toe's graph.
pub const TTT_DEPTHS: u32 = 9;

/// The depths of chess's graph.
pub const CHESS_DEPTHS: u32 = 8;

/// The members of chess's roster.
pub const ROSTER: usize = 5;

/// The members whose flags make a slot empty: the majority.
pub const THRESHOLD: u32 = 3;

/// Which game is played.
#[derive(Clone, Copy, Debug, PartialEq, Eq, Structural)]
pub enum Suite {
    TicTacToe,
    Chess,
}

/// The pre-signed transactions of a graph. Tic-tac-toe: settle, at each depth a
/// claim, its refutation and three splits off either, five exhibits with three
/// splits each, and at each depth an equivocation leaf for each of 21 state bits.
/// Chess: settle, the same at each depth, one equivocation leaf per depth, and at
/// each depth but the first a counter with its own refutation and splits.
pub open spec fn graph_spec(suite: Suite) -> int {
    match suite {
        Suite::TicTacToe => 1 + TTT_DEPTHS * (1 + 1 + 3 + 3) + 5 * (1 + 3) + TTT_DEPTHS * 21,
        Suite::Chess => 1 + CHESS_DEPTHS * (1 + 1 + 3 + 3) + CHESS_DEPTHS + (CHESS_DEPTHS - 1) * (1
            + 1 + 3 + 3),
    }
}

/// The number of pre-signed transactions of a graph.
pub fn graph_len(suite: Suite) -> (n: usize)
    ensures
        n == graph_spec(suite),
        n == (match suite {
            Suite::TicTacToe => 282int,
            Suite::Chess => 129,
        }),
{
    match suite {
        Suite::TicTacToe => 282,
        Suite::Chess => 129,
    }
}

/// What is known when a game is opened.
#[derive(Clone, Copy, Debug)]
pub struct OpenFacts {
    /// The flag threshold and the size of the roster, as the registry names them
    /// (chess).
    pub threshold: u32,
    pub members: usize,
    /// Whether both sides merged the same key sets.
    pub keys_agree: bool,
    /// The height before the contract is funded.
    pub height: u32,
    /// The height after.
    pub funded_height: u32,
    /// The pre-signed transactions.
    pub graph_len: usize,
}

/// Why a game is not opened.
#[derive(Clone, Copy, Debug, PartialEq, Eq, Structural)]
pub enum OpenError {
    /// The threshold is not the majority of the roster.
    Roster,
    /// The merged key sets differ.
    KeysDiffer,
    /// The funding did not mine exactly one block.
    Funding,
    /// The graph is not the wired one.
    Graph,
}

/// Why a game is not opened, if it is not.
pub open spec fn open_error(suite: Suite, f: OpenFacts) -> Option<OpenError> {
    if suite == Suite::Chess && !(f.threshold == THRESHOLD && f.members == ROSTER) {
        Some(OpenError::Roster)
    } else if !f.keys_agree {
        Some(OpenError::KeysDiffer)
    } else if f.funded_height != f.height + 1 {
        Some(OpenError::Funding)
    } else if f.graph_len != graph_spec(suite) {
        Some(OpenError::Graph)
    } else {
        None
    }
}

/// A transaction that was broadcast and mined.
pub struct Spend {
    pub height: u32,
    pub label: String,
    pub txid: TxidBytes,
    pub by: Role,
    pub vsize: u32,
}

/// What came of a slot.
#[derive(Clone, Copy, Debug, PartialEq, Eq, Structural)]
pub enum Sealing {
    /// The slot's proposer is silent: there is no block, and an entry is lost.
    Silent { lost: bool },
    /// The block is empty.
    Empty,
    /// The block holds the mover's move.
    Moved,
}

/// Why a sealed entry is not taken.
#[derive(Clone, Copy, Debug, PartialEq, Eq, Structural)]
pub enum SealFault {
    /// The entry does not open the mover's state key.
    BadSignature,
}

/// A game on the venue: the slot clock and what is sealed.
pub struct PosGame {
    /// The height at which slot 1 seals.
    pub btc_open: u32,
    /// The deepest sealed move.
    pub depth: u32,
    /// The next slot to seal: move `depth + 1` sits in it.
    pub next_slot: u32,
    /// The sealed slots, and whether their block is empty.
    pub sealed: HashMap<u32, bool>,
    /// The slots whose deadline passed empty, as the members flagged them.
    pub flagged: HashSet<u32>,
}

/// The height at which slot 1 seals, and the contract's deadline, for a contract
/// that is funded in the next block.
pub fn open_clock(height: u32) -> (r: (u32, u32))
    requires
        height + 1 + DEADLINE_AFTER <= u32::MAX,
    ensures
        r.0 == height + 1,
        r.1 == height + 1 + DEADLINE_AFTER,
{
    (height + 1, height + 1 + DEADLINE_AFTER)
}

impl PosGame {
    /// Slots from 1 on are sealed in order, and moves sit in sealed slots.
    pub open spec fn wf(self) -> bool {
        &&& self.next_slot >= 1
        &&& self.depth < self.next_slot
        &&& forall|s: u32| #[trigger] self.sealed@.contains_key(s) ==> s < self.next_slot
        &&& forall|s: u32| #[trigger] self.flagged@.contains(s) ==> 1 <= s < self.next_slot
    }

    /// Open a game: the venue at genesis, the contract funded, the graph
    /// pre-signed.
    pub fn open(suite: Suite, facts: OpenFacts) -> (r: Result<PosGame, OpenError>)
        requires
            facts.height < u32::MAX,
        ensures
            match open_error(suite, facts) {
                Some(e) => r == Err::<PosGame, OpenError>(e),
                None => {
                    &&& r matches Ok(g)
                    &&& g.wf()
                    &&& g.btc_open == facts.height + 1
                    &&& g.depth == 0 && g.next_slot == 1
                    &&& g.sealed@ == Map::<u32, bool>::empty().insert(0, true)
                    &&& g.flagged@ == Set::<u32>::empty()
                },
            },
    {
        if suite == Suite::Chess && !(facts.threshold == THRESHOLD && facts.members == ROSTER) {
            return Err(OpenError::Roster);
        }
        if !facts.keys_agree {
            return Err(OpenError::KeysDiffer);
        }
        let btc_open: u32 = facts.height + 1;
        if facts.funded_height != btc_open {
            return Err(OpenError::Funding);
        }
        if facts.graph_len != graph_len(suite) {
            return Err(OpenError::Graph);
        }
        let mut sealed: HashMap<u32, bool> = HashMap::new();
        sealed.insert(0, true);
        Ok(PosGame { btc_open, depth: 0, next_slot: 1, sealed, flagged: HashSet::new() })
    }

    /// Seal the next slot with an entry (which opens the mover's state key, or does
    /// not) or empty; a silent proposer seals nothing.
    pub fn seal(&mut self, entry: Option<bool>, silent: bool) -> (r: Result<Sealing, SealFault>)
        requires
            old(self).wf(),
            old(self).next_slot < u32::MAX,
        ensures
            final(self).wf(),
            final(self).next_slot == old(self).next_slot + 1,
            final(self).btc_open == old(self).btc_open,
            final(self).flagged == old(self).flagged,
            if silent {
                &&& r == Ok::<Sealing, SealFault>(Sealing::Silent { lost: entry is Some })
                &&& final(self).sealed@ == old(self).sealed@
                &&& final(self).depth == old(self).depth
            } else {
                match entry {
                    None => {
                        &&& r == Ok::<Sealing, SealFault>(Sealing::Empty)
                        &&& final(self).sealed@ == old(self).sealed@.insert(
                            old(self).next_slot,
                            true,
                        )
                        &&& final(self).depth == old(self).depth
                    },
                    Some(opens) => if opens {
                        &&& r == Ok::<Sealing, SealFault>(Sealing::Moved)
                        &&& final(self).sealed@ == old(self).sealed@.insert(
                            old(self).next_slot,
                            false,
                        )
                        &&& final(self).depth == old(self).next_slot
                    } else {
                        &&& r == Err::<Sealing, SealFault>(SealFault::BadSignature)
                        &&& final(self).sealed@ == old(self).sealed@
                        &&& final(self).depth == old(self).depth
                    },
                }
            },
    {
        let slot: u32 = self.next_slot;
        self.next_slot = slot + 1;
        if silent {
            return Ok(Sealing::Silent { lost: entry.is_some() });
        }
        match entry {
            None => {
                self.sealed.insert(slot, true);
                Ok(Sealing::Empty)
            },
            Some(opens) => if opens {
                self.depth = slot;
                self.sealed.insert(slot, false);
                Ok(Sealing::Moved)
            } else {
                Err(SealFault::BadSignature)
            },
        }
    }

    /// Seal the next slot with an entry that is no move (its signature is garbage,
    /// or it cannot be decoded): attested, but the game does not advance.
    pub fn seal_void(&mut self)
        requires
            old(self).wf(),
            old(self).next_slot < u32::MAX,
        ensures
            final(self).wf(),
            final(self).sealed@ == old(self).sealed@.insert(old(self).next_slot, false),
            *final(self) == (PosGame {
                next_slot: (old(self).next_slot + 1) as u32,
                sealed: final(self).sealed,
                ..*old(self)
            }),
    {
        let slot: u32 = self.next_slot;
        self.next_slot = slot + 1;
        self.sealed.insert(slot, false);
    }

    // ----- deadlines -----

    /// Whether a slot's deadline has passed at a height.
    pub open spec fn passed(self, slot: u32, h: u32) -> bool {
        slot < self.next_slot && h > self.btc_open + slot
    }

    /// Whether a slot is to be flagged at a height: its deadline passed with no
    /// entry sealed, and it is not flagged yet.
    pub open spec fn flag_due(self, slot: u32, h: u32) -> bool {
        &&& slot >= 1
        &&& self.passed(slot, h)
        &&& !self.flagged@.contains(slot)
        &&& self.sealed@.contains_key(slot) ==> self.sealed@[slot]
    }

    /// The slots below `n` that are to be flagged at a height.
    pub open spec fn due_below(self, h: u32, n: u32) -> Seq<u32>
        decreases n,
    {
        if n == 0 {
            Seq::empty()
        } else {
            let before = self.due_below(h, (n - 1) as u32);
            if self.flag_due((n - 1) as u32, h) {
                before.push((n - 1) as u32)
            } else {
                before
            }
        }
    }

    fn is_flag_due(&self, slot: u32, h: u32) -> (r: bool)
        requires
            1 <= slot < self.next_slot,
        ensures
            r == self.flag_due(slot, h),
    {
        let empty: bool = match self.sealed.get(&slot) {
            Some(e) => *e,
            None => true,
        };
        h as u64 > self.btc_open as u64 + slot as u64 && !self.flagged.contains(&slot) && empty
    }

    /// One Bitcoin block: the slots whose deadline has passed empty are flagged,
    /// once.
    pub fn tick(&mut self, h: u32) -> (slots: Vec<u32>)
        requires
            old(self).wf(),
        ensures
            final(self).wf(),
            slots@ == old(self).due_below(h, old(self).next_slot),
            forall|s: u32|
                #[trigger] final(self).flagged@.contains(s) <==> old(self).flagged@.contains(s)
                    || old(self).flag_due(s, h),
            *final(self) == (PosGame { flagged: final(self).flagged, ..*old(self) }),
    {
        let ghost before = *self;
        let n: u32 = self.next_slot;
        let mut slots: Vec<u32> = Vec::new();
        let mut s: u32 = 1;
        reveal_with_fuel(PosGame::due_below, 3);
        assert(slots@ =~= before.due_below(h, 1));
        while s < n
            invariant
                before.wf(),
                n == before.next_slot,
                1 <= s <= n,
                slots@ == before.due_below(h, s),
                *self == (PosGame { flagged: self.flagged, ..before }),
                forall|k: u32|
                    #[trigger] self.flagged@.contains(k) <==> before.flagged@.contains(k) || (k < s
                        && before.flag_due(k, h)),
            decreases n - s,
        {
            let due: bool = self.is_flag_due(s, h);
            assert(due == before.flag_due(s, h));
            if due {
                slots.push(s);
                self.flagged.insert(s);
            }
            s = s + 1;
        }
        slots
    }

    /// Whether a late block may be sealed at a slot: its deadline passed, and the
    /// block on time was empty.
    pub fn late_allowed(&self, slot: u32, h: u32) -> (r: bool)
        requires
            self.sealed@.contains_key(slot),
        ensures
            r == (self.passed(slot, h) && self.sealed@[slot]),
    {
        let empty: bool = match self.sealed.get(&slot) {
            Some(e) => *e,
            None => false,
        };
        slot < self.next_slot && h as u64 > self.btc_open as u64 + slot as u64 && empty
    }

    /// A colluding proposer seals the mover's move late, in place of the empty
    /// block.
    pub fn seal_late(&mut self, slot: u32)
        requires
            old(self).wf(),
            old(self).sealed@.contains_key(slot),
        ensures
            final(self).wf(),
            final(self).sealed@ == old(self).sealed@.insert(slot, false),
            *final(self) == (PosGame { depth: slot, sealed: final(self).sealed, ..*old(self) }),
    {
        self.sealed.insert(slot, false);
        self.depth = slot;
    }

    /// The height from which a claim or an exhibit matures: its own, or that of the
    /// broadcaster's delay on the contract output.
    pub fn mature_at(&self, claim_from: u32, to_self_delay: u16) -> (h: u32)
        requires
            self.btc_open + to_self_delay <= u32::MAX,
        ensures
            h == (if claim_from >= self.btc_open + to_self_delay {
                claim_from as int
            } else {
                self.btc_open + to_self_delay
            }),
    {
        let own: u32 = self.btc_open + to_self_delay as u32;
        if claim_from >= own {
            claim_from
        } else {
            own
        }
    }
}

/// Who spends a split at a depth: the mover its own, which checks itself, and the
/// claimant the one that times out.
pub fn split_spender(d: u32, self_checking: bool) -> (r: Role)
    ensures
        r == (if self_checking {
            mover(d as int)
        } else {
            mover(d as int).opponent()
        }),
{
    if self_checking {
        mover_at(d)
    } else {
        mover_at(d).other()
    }
}

/// The witness of the claimant's timeout split: the outcome's preimages, bit 0 at
/// the bottom of the stack, then both signatures.
pub fn timeout_split_witness(code: &Reveal, sig_hub: Vec<u8>, sig_user: Vec<u8>) -> (items: Vec<
    Vec<u8>,
>)
    ensures
        items_view(items@) == code@.push(sig_hub@).push(sig_user@),
{
    let mut items: Vec<Vec<u8>> = Vec::new();
    assert(items_view(items@) =~= code@.take(0));
    for i in 0..code.preimages.len()
        invariant
            items_view(items@) == code@.take(i as int),
    {
        let ghost before = items@;
        let item: Vec<u8> = vstd::slice::slice_to_vec(code.preimages[i].as_slice());
        items.push(item);
        assert(items_view(items@) =~= items_view(before).push(item@));
        assert(code@.take(i + 1) =~= code@.take(i as int).push(code@[i as int]));
        assert(item@ =~= code@[i as int]);
    }
    assert(code@.take(code@.len() as int) =~= code@);
    let ghost revealed = items@;
    items.push(sig_hub);
    items.push(sig_user);
    assert(items_view(items@) =~= items_view(revealed).push(sig_hub@).push(sig_user@));
    items
}

/// The height from which the claimant's timeout split of an output mined at `h`
/// can be mined.
pub fn timeout_split_at(h: u32, delta: u16) -> (r: u32)
    requires
        h + delta + 1 <= u32::MAX,
    ensures
        r == h + delta + 1,
{
    h + delta as u32 + 1
}

/// The height from which the mover's split of an output mined at `h` can be mined.
pub fn checked_split_at(h: u32, delta: u16, delta_prime: u16) -> (r: u32)
    requires
        h + delta + delta_prime + 1 <= u32::MAX,
    ensures
        r == h + delta + delta_prime + 1,
{
    h + delta as u32 + delta_prime as u32 + 1
}

// ----- evidence -----

/// The published flag scalar of a member, if it published one.
pub type Flag = Option<[u8; 32]>;

/// How many of the members flagged.
pub open spec fn flags_in(flags: Seq<Flag>) -> nat
    decreases flags.len(),
{
    if flags.len() == 0 {
        0
    } else {
        flags_in(flags.drop_last()) + if flags.last() is Some {
            1nat
        } else {
            0
        }
    }
}

/// The flags that a claimant holds who collected only the first `n`.
pub open spec fn first_flags(flags: Seq<Flag>, n: nat) -> Seq<Flag> {
    Seq::new(
        flags.len(),
        |i: int|
            if flags_in(flags.take(i)) < n {
                flags[i]
            } else {
                None
            },
    )
}

/// Keep only the first `n` flags, and count those that are left.
pub fn collect_flags(flags: &[Flag], held: Option<usize>) -> (r: (Vec<Flag>, usize))
    ensures
        r.0@ == (match held {
            Some(n) => first_flags(flags@, n as nat),
            None => flags@,
        }),
        r.1 == flags_in(r.0@),
{
    let ghost want = match held {
        Some(n) => first_flags(flags@, n as nat),
        None => flags@,
    };
    let mut kept: Vec<Flag> = Vec::new();
    let mut seen: usize = 0;
    let mut count: usize = 0;
    assert(kept@ =~= want.take(0));
    for i in 0..flags.len()
        invariant
            want == (match held {
                Some(n) => first_flags(flags@, n as nat),
                None => flags@,
            }),
            kept@ == want.take(i as int),
            seen == flags_in(flags@.take(i as int)),
            count == flags_in(kept@),
            seen <= i,
            count <= i,
    {
        let flag: Flag = flags[i];
        let keep: bool = match held {
            Some(n) => seen < n,
            None => true,
        };
        let next: Flag = if keep {
            flag
        } else {
            None
        };
        assert(want.take(i + 1) =~= want.take(i as int).push(want[i as int]));
        let ghost before = kept@;
        kept.push(next);
        assert(kept@.drop_last() =~= before);
        if next.is_some() {
            count = count + 1;
        }
        assert(flags@.take(i + 1).drop_last() =~= flags@.take(i as int));
        if flag.is_some() {
            seen = seen + 1;
        }
    }
    assert(want.take(want.len() as int) =~= want);
    (kept, count)
}

/// Why two reveals are no evidence of a double signature.
#[derive(Clone, Copy, Debug, PartialEq, Eq, Structural)]
pub enum EquivError {
    /// The states do not differ.
    SameState,
    /// A preimage does not open the key's bit.
    NotOpened(usize),
}

/// Where two states first differ.
pub open spec fn first_difference(a: Seq<bool>, b: Seq<bool>, i: int) -> int
    decreases a.len() - i,
{
    if i >= a.len() || a[i] != b[i] {
        i
    } else {
        first_difference(a, b, i + 1)
    }
}

/// The evidence of a double signature: the first bit at which two signed states
/// differ, and its two preimages, that of 0 first. Both must open the bit of the
/// mover's key.
pub fn equivocation(
    bits_a: &[bool],
    reveal_a: &Reveal,
    bits_b: &[bool],
    reveal_b: &Reveal,
    key: &PublicKey,
) -> (r: Result<(usize, Hash160, Hash160), EquivError>)
    requires
        bits_a@.len() == bits_b@.len(),
        bits_a@.len() <= reveal_a.preimages@.len(),
        bits_a@.len() <= reveal_b.preimages@.len(),
        bits_a@.len() <= key.bits@.len(),
    ensures
        ({
            let i = first_difference(bits_a@, bits_b@, 0);
            if i >= bits_a@.len() {
                r == Err::<(usize, Hash160, Hash160), EquivError>(EquivError::SameState)
            } else {
                let (p0, p1) = if bits_a@[i] {
                    (reveal_b.preimages@[i], reveal_a.preimages@[i])
                } else {
                    (reveal_a.preimages@[i], reveal_b.preimages@[i])
                };
                if hash160_spec(p0@) == key.bits@[i].h0@ && hash160_spec(p1@) == key.bits@[i].h1@ {
                    r matches Ok(e) && e.0 == i && e.1 == p0 && e.2 == p1
                } else {
                    r matches Err(EquivError::NotOpened(k)) && k == i
                }
            }
        }),
{
    let n: usize = bits_a.len();
    let mut i: usize = 0;
    while i < n && bits_a[i] == bits_b[i]
        invariant
            n == bits_a@.len(),
            n == bits_b@.len(),
            i <= n,
            first_difference(bits_a@, bits_b@, 0) == first_difference(bits_a@, bits_b@, i as int),
        decreases n - i,
    {
        i = i + 1;
    }
    if i >= n {
        return Err(EquivError::SameState);
    }
    let pa: Hash160 = reveal_a.preimages[i];
    let pb: Hash160 = reveal_b.preimages[i];
    let (p0, p1): (Hash160, Hash160) = if bits_a[i] {
        (pb, pa)
    } else {
        (pa, pb)
    };
    let h0: Hash160 = hash160(p0.as_slice());
    let h1: Hash160 = hash160(p1.as_slice());
    if same_hash(&h0, &key.bits[i].h0) && same_hash(&h1, &key.bits[i].h1) {
        Ok((i, p0, p1))
    } else {
        Err(EquivError::NotOpened(i))
    }
}

/// What a chess entry's mover signs: the 40 state bytes, then the move's two bytes,
/// low first.
pub fn entry_msg(state: &[u8; 40], mv: u16) -> (msg: Vec<u8>)
    ensures
        msg@ == state@ + seq![(mv % 256) as u8, (mv / 256) as u8],
{
    let mut msg: Vec<u8> = vstd::slice::slice_to_vec(state.as_slice());
    msg.push((mv % 256) as u8);
    msg.push((mv / 256) as u8);
    assert(msg@ =~= state@ + seq![(mv % 256) as u8, (mv / 256) as u8]);
    msg
}

/// What a mover signs to park the heads of two slots: the earlier one first.
pub fn pair_message(prev: &[u8; 48], new: &[u8; 48]) -> (msg: Vec<u8>)
    ensures
        msg@ == prev@ + new@,
{
    let mut msg: Vec<u8> = vstd::slice::slice_to_vec(prev.as_slice());
    for i in 0..48usize
        invariant
            msg@ == prev@ + new@.take(i as int),
    {
        msg.push(new[i]);
        assert(new@.take(i + 1) =~= new@.take(i as int).push(new@[i as int]));
    }
    assert(new@.take(48) =~= new@);
    msg
}

/// The state that a head claims: the low three bytes of its second word.
pub fn head_state(head: &[u8; 48]) -> (state: u32)
    ensures
        state == head@[5] * 0x1_0000 + head@[6] * 0x100 + head@[7],
{
    head[5] as u32 * 0x1_0000 + head[6] as u32 * 0x100 + head[7] as u32
}

/// The minimal script number of a small value (squares and ray indices).
pub fn scriptnum(v: i64) -> (s: Vec<u8>)
    requires
        0 <= v < 128,
    ensures
        s@ == num_bytes(v as int),
{
    proof {
        reveal(num_bytes);
        reveal_with_fuel(le_bytes, 3);
    }
    let mut s: Vec<u8> = Vec::new();
    if v != 0 {
        s.push(v as u8);
    }
    assert(s@ =~= num_bytes(v as int));
    s
}

// ----- what was broadcast -----

/// The labels of the transactions, in order.
pub open spec fn labels_of(seen: Seq<Spend>) -> Seq<Seq<char>> {
    Seq::new(seen.len(), |i: int| seen[i].label@)
}

/// The labels of the transactions, in order.
pub fn roles(seen: &[Spend]) -> (labels: Vec<String>)
    ensures
        views(labels@) == labels_of(seen@),
{
    let ghost all = labels_of(seen@);
    let mut labels: Vec<String> = Vec::new();
    assert(views(labels@) =~= all.take(0));
    for i in 0..seen.len()
        invariant
            all == labels_of(seen@),
            views(labels@) == all.take(i as int),
    {
        let ghost held = labels@;
        labels.push(seen[i].label.clone());
        assert(views(labels@) =~= views(held).push(all[i as int]));
        assert(all.take(i + 1) =~= all.take(i as int).push(all[i as int]));
    }
    assert(all.take(all.len() as int) =~= all);
    labels
}

/// The size of the transactions together.
pub open spec fn vsize_sum(seen: Seq<Spend>) -> nat
    decreases seen.len(),
{
    if seen.len() == 0 {
        0
    } else {
        vsize_sum(seen.drop_last()) + seen.last().vsize as nat
    }
}

/// The size of the transactions together, in virtual bytes.
pub fn total_vsize(seen: &[Spend]) -> (total: u128)
    ensures
        total == vsize_sum(seen@),
{
    let mut total: u128 = 0;
    for i in 0..seen.len()
        invariant
            total == vsize_sum(seen@.take(i as int)),
            total <= i * 0xffff_ffff,
    {
        assert(seen@.take(i + 1).drop_last() =~= seen@.take(i as int));
        assert(seen@.take(i + 1).last() == seen@[i as int]);
        total = total + seen[i].vsize as u128;
    }
    assert(seen@.take(seen@.len() as int) =~= seen@);
    total
}

/// How a transaction stands in a report.
pub open spec fn spend_row(tx: Spend) -> ReportTxView {
    ReportTxView {
        height: tx.height,
        role: tx.label@,
        txid: hex_text(tx.txid@.reverse()),
        by: tx.by.title(),
    }
}

/// The transactions as a report shows them, in order.
pub fn spend_rows(seen: &[Spend]) -> (rows: Vec<ReportTx>)
    ensures
        row_views(rows@) == Seq::new(seen@.len(), |i: int| spend_row(seen@[i])),
{
    let ghost all = Seq::new(seen@.len(), |i: int| spend_row(seen@[i]));
    let mut rows: Vec<ReportTx> = Vec::new();
    assert(row_views(rows@) =~= all.take(0));
    for i in 0..seen.len()
        invariant
            all == Seq::new(seen@.len(), |i: int| spend_row(seen@[i])),
            row_views(rows@) == all.take(i as int),
    {
        let tx: &Spend = &seen[i];
        let ghost held = rows@;
        let row = ReportTx {
            height: tx.height,
            role: tx.label.clone(),
            txid: txid_text(&tx.txid),
            by: String::from_str(tx.by.name()),
        };
        rows.push(row);
        assert(row@ == all[i as int]);
        assert(row_views(rows@) =~= row_views(held).push(row@));
        assert(all.take(i + 1) =~= all.take(i as int).push(all[i as int]));
    }
    assert(all.take(all.len() as int) =~= all);
    rows
}

// ----- laws -----

/// A slot that holds an entry is never flagged; one that passed empty is, by the
/// next tick at the latest.
pub proof fn law_flags_are_fair(before: PosGame, after: PosGame, h: u32, slot: u32)
    requires
        before.wf(),
        forall|s: u32|
            #[trigger] after.flagged@.contains(s) <==> before.flagged@.contains(s)
                || before.flag_due(s, h),
    ensures
        !before.flagged@.contains(slot) && before.sealed@.contains_key(slot)
            && !before.sealed@[slot] ==> !after.flagged@.contains(slot),
        slot >= 1 && before.passed(slot, h) && !before.sealed@.contains_key(slot)
            ==> after.flagged@.contains(slot),
        before.flagged@.contains(slot) ==> after.flagged@.contains(slot),
{
}

/// Two states that a mover signed with one key, and that differ, are evidence: the
/// preimages of the bit at which they differ open both of its hashes.
pub proof fn law_double_signature_is_evidence(
    bits_a: Seq<bool>,
    a: Seq<Seq<u8>>,
    bits_b: Seq<bool>,
    b: Seq<Seq<u8>>,
    key: PublicKey,
)
    requires
        bits_a.len() == bits_b.len(),
        bits_a != bits_b,
        a.len() == bits_a.len(),
        b.len() == bits_a.len(),
        key.bits@.len() == bits_a.len(),
        forall|i: int|
            0 <= i < bits_a.len() ==> hash160_spec(#[trigger] a[i]) == if bits_a[i] {
                key.bits@[i].h1@
            } else {
                key.bits@[i].h0@
            },
        forall|i: int|
            0 <= i < bits_a.len() ==> hash160_spec(#[trigger] b[i]) == if bits_b[i] {
                key.bits@[i].h1@
            } else {
                key.bits@[i].h0@
            },
    ensures
        ({
            let i = first_difference(bits_a, bits_b, 0);
            &&& 0 <= i < bits_a.len()
            &&& if bits_a[i] {
                hash160_spec(b[i]) == key.bits@[i].h0@ && hash160_spec(a[i]) == key.bits@[i].h1@
            } else {
                hash160_spec(a[i]) == key.bits@[i].h0@ && hash160_spec(b[i]) == key.bits@[i].h1@
            }
        }),
{
    lemma_first_difference(bits_a, bits_b, 0);
    let i = first_difference(bits_a, bits_b, 0);
    if i >= bits_a.len() {
        assert(bits_a =~= bits_b);
    }
}

proof fn lemma_first_difference(a: Seq<bool>, b: Seq<bool>, i: int)
    requires
        a.len() == b.len(),
        0 <= i <= a.len(),
    ensures
        i <= first_difference(a, b, i) <= a.len(),
        forall|j: int| i <= j < first_difference(a, b, i) ==> a[j] == b[j],
        first_difference(a, b, i) < a.len() ==> a[first_difference(a, b, i)]
            != b[first_difference(a, b, i)],
    decreases a.len() - i,
{
    if i < a.len() && a[i] == b[i] {
        lemma_first_difference(a, b, i + 1);
    }
}

} // verus!
