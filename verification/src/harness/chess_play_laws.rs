//! What the parties of a game of chess do, in terms of what stands on the venue and
//! what they are scripted to do.

use vstd::prelude::*;

use crate::harness::chess::{
    change_spec, legal_in, ChessBrain, ChessChange, ChessOffer, ChessPlan, ChessReaction,
    ChessTerms, ChessWorld, MinedChess, StateBytes,
};
use crate::harness::game::{Refusal, Verdict, Why, WorldError};
use crate::harness::{mover, Role};

verus! {

/// A side's brain: the user's is the first.
pub open spec fn brain_of(w: ChessWorld, r: Role) -> ChessBrain {
    w.brains@[if r is User { 0int } else { 1int }]
}

/// Whether the game has a legal move at a depth.
pub open spec fn stands(w: ChessWorld, d: u32) -> bool {
    w.published@.contains_key(d) && w.published@[d].state is Some
}

/// Whether a party's brain has no fault that concerns the reactions.
pub open spec fn reacts_fairly(b: ChessBrain) -> bool {
    &&& b.fabricate_at is None
    &&& !b.claim_own_illegal
    &&& b.frame_at is None
    &&& b.fabricate_sig_at is None
    &&& !b.passive
    &&& !b.no_exhibit
}

/// An honest brain has no fault of any kind scripted.
pub proof fn law_honest_brains(b: ChessBrain)
    ensures
        b.is_honest() <==> {
            &&& reacts_fairly(b)
            &&& b.stall_at is None
            &&& b.illegal_at is None
            &&& b.garbage_sig_at is None
            &&& !b.refuse_fold
        },
{
}

// ----- reactions -----

/// A refused fold is answered: once the hub has resigned, the fold was refused and the
/// slot after the last move has passed, the party that made the last move proves that
/// nothing follows it. The other party does nothing.
pub proof fn law_refused_fold_is_answered(w: ChessWorld, r: Role)
    requires
        w.wf(),
        w.depth >= w.resign_after,
        w.fold_rejected,
        mover(w.depth as int) == r,
        w.slots > w.depth,
        !brain_of(w, r).passive,
    ensures
        w.reaction_of(r) == Some(
            ChessReaction::Stall { by: r, depth: w.depth, uci: None, why: Why::FoldRefused },
        ),
        w.reaction_of(r.opponent()) is None,
        !w.escalated ==> w.reaction() == w.reaction_of(r),
{
}

/// A finished game stays off-chain as long as the fold was not refused.
pub proof fn law_finished_game_waits_for_the_fold(w: ChessWorld, r: Role)
    requires
        w.depth >= w.resign_after,
        !w.fold_rejected || mover(w.depth as int) != r || w.slots <= w.depth,
    ensures
        w.reaction_of(r) is None,
{
}

/// A passed slot is answered: when the opponent's slot after some move passed without
/// a legal move, a fair party proves a stall if nothing was published, exhibits the
/// entry as a lie if it is signed, and as garbage-signed if it is not.
pub proof fn law_passed_slot_is_answered(w: ChessWorld, r: Role)
    requires
        w.wf(),
        w.depth < w.resign_after,
        w.depth >= 1,
        mover(w.depth as int) == r,
        w.slots > w.depth,
        reacts_fairly(brain_of(w, r)),
    ensures
        ({
            let k = (w.depth + 1) as u32;
            &&& !w.published@.contains_key(k) ==> w.reaction_of(r) == Some(
                ChessReaction::Stall { by: r, depth: w.depth, uci: None, why: Why::Timeout },
            )
            &&& w.published@.contains_key(k) && w.published@[k].signed ==> w.reaction_of(r)
                == Some(ChessReaction::Lie { by: r, depth: k, why: Why::InvalidMove })
            &&& w.published@.contains_key(k) && !w.published@[k].signed ==> w.reaction_of(r)
                == Some(ChessReaction::Sig { by: r, depth: k, why: Why::GarbageSigned })
        }),
{
    assert(!legal_in(w.published@, (w.depth + 1) as u32));
}

/// A fair party does nothing while the opponent's slot has not passed, while the slot
/// is its own, or before the first move.
pub proof fn law_fair_party_waits(w: ChessWorld, r: Role)
    requires
        w.wf(),
        w.depth < w.resign_after,
        reacts_fairly(brain_of(w, r)),
        w.depth == 0 || mover(w.depth as int) != r || w.slots == w.depth,
    ensures
        w.reaction_of(r) is None,
{
}

/// A passive party never goes on-chain.
pub proof fn law_passive_party_does_nothing(w: ChessWorld, r: Role)
    requires
        brain_of(w, r).passive,
    ensures
        w.reaction_of(r) is None,
{
}

/// The user's reaction goes before the hub's, and nothing is queued after a claim.
pub proof fn law_user_reacts_first(w: ChessWorld)
    ensures
        w.escalated ==> w.reaction() is None,
        !w.escalated && w.reaction_of(Role::User) is Some ==> w.reaction() == w.reaction_of(
            Role::User,
        ),
        !w.escalated && w.reaction_of(Role::User) is None ==> w.reaction() == w.reaction_of(
            Role::Hub,
        ),
{
}

/// Every reaction has its ground: what a party says it goes on-chain for is on the
/// venue, or scripted for it.
pub proof fn law_reactions_have_grounds(w: ChessWorld, r: Role)
    requires
        w.wf(),
        w.reaction_of(r) is Some,
    ensures
        ({
            let b = brain_of(w, r);
            let next = (w.depth + 1) as u32;
            let (by, d, why) = match w.reaction_of(r)->0 {
                ChessReaction::Stall { by, depth, uci, why } => (by, depth, why),
                ChessReaction::Lie { by, depth, why } => (by, depth, why),
                ChessReaction::Sig { by, depth, why } => (by, depth, why),
            };
            &&& by == r && !b.passive
            &&& match why {
                Why::FoldRefused => w.depth >= w.resign_after && w.fold_rejected && d == w.depth
                    && mover(d as int) == r && w.slots > d,
                Why::Fabricated => b.fabricate_at == Some(d) && mover(d as int) == r && w.slots > d
                    && !stands(w, d),
                Why::OwnInvalid => b.illegal_at is Some && (b.illegal_at->0).0 == d && mover(
                    d as int,
                ) == r && w.published@.contains_key(d) && w.slots > d && b.claim_own_illegal,
                Why::Ignored => false,
                Why::Framed => b.frame_at == Some(d) && mover(d as int) != r && stands(w, d),
                Why::FabricatedSig => b.fabricate_sig_at == Some(d) && mover(d as int) != r
                    && w.published@.contains_key(d) && w.published@[d].signed,
                Why::Timeout => w.depth < w.resign_after && d == w.depth && mover(d as int) == r
                    && stands(w, d) && w.slots > d && !w.published@.contains_key(next),
                Why::InvalidMove => w.depth < w.resign_after && d == next && mover(d as int) != r
                    && w.slots >= d && w.published@.contains_key(d) && w.published@[d].signed
                    && w.published@[d].state is None && !b.no_exhibit,
                Why::GarbageSigned => w.depth < w.resign_after && d == next && mover(d as int) != r
                    && w.slots >= d && w.published@.contains_key(d) && !w.published@[d].signed
                    && !b.no_exhibit,
            }
        }),
{
    if w.depth >= 1 {
        assert(legal_in(w.published@, w.depth));
    }
    assert(!legal_in(w.published@, (w.depth + 1) as u32));
}

/// Why a party reacts, if it does.
pub open spec fn why_of(reaction: Option<ChessReaction>) -> Option<Why> {
    match reaction {
        None => None,
        Some(ChessReaction::Stall { by, depth, uci, why }) => Some(why),
        Some(ChessReaction::Lie { by, depth, why }) => Some(why),
        Some(ChessReaction::Sig { by, depth, why }) => Some(why),
    }
}

/// Before the hub resigns a party acts on the first of these that it finds: a move of
/// its own to fabricate, an illegal move of its own to push, a move to frame, a
/// signature to call garbage, and the opponent's passed slot. If it finds none, it
/// does nothing.
pub proof fn law_reactions_in_order(w: ChessWorld, r: Role)
    requires
        w.wf(),
        w.depth < w.resign_after,
        !brain_of(w, r).passive,
    ensures
        ({
            let b = brain_of(w, r);
            let next = (w.depth + 1) as u32;
            let fabricates = b.fabricate_at is Some && b.fabricate_at->0 == next && mover(
                next as int,
            ) == r && w.slots > next;
            let own = (b.illegal_at->0).0;
            let pushes = b.illegal_at is Some && b.claim_own_illegal && mover(own as int) == r
                && w.published@.contains_key(own) && w.slots > own;
            let frames = b.frame_at is Some && mover(b.frame_at->0 as int) != r && stands(
                w,
                b.frame_at->0,
            );
            let fakes = b.fabricate_sig_at is Some && mover(b.fabricate_sig_at->0 as int) != r
                && w.published@.contains_key(b.fabricate_sig_at->0)
                && w.published@[b.fabricate_sig_at->0].signed;
            let passed = w.depth >= 1 && mover(w.depth as int) == r && w.slots > w.depth;
            let shown = w.published@.contains_key(next);
            why_of(w.reaction_of(r)) == if fabricates {
                Some(Why::Fabricated)
            } else if pushes {
                Some(Why::OwnInvalid)
            } else if frames {
                Some(Why::Framed)
            } else if fakes {
                Some(Why::FabricatedSig)
            } else if passed && !shown {
                Some(Why::Timeout)
            } else if passed && !b.no_exhibit {
                Some(
                    if w.published@[next].signed {
                        Why::InvalidMove
                    } else {
                        Why::GarbageSigned
                    },
                )
            } else {
                None
            }
        }),
{
    assert(!legal_in(w.published@, (w.depth + 1) as u32));
}

/// What a party queues fits why it does, and only a fabricated move is named.
pub proof fn law_reactions_carry_their_move(w: ChessWorld, r: Role)
    requires
        w.wf(),
    ensures
        w.reaction_of(r) matches Some(x) ==> match x {
            ChessReaction::Stall { by, depth, uci, why } => {
                &&& why == Why::Fabricated ==> uci == Some(
                    brain_of(w, r).moves@[(depth - 1) / 2],
                )
                &&& why != Why::Fabricated ==> uci is None
                &&& why == Why::Fabricated || why == Why::OwnInvalid || why == Why::Timeout || why
                    == Why::FoldRefused
            },
            ChessReaction::Lie { by, depth, why } => why == Why::Framed || why == Why::InvalidMove,
            ChessReaction::Sig { by, depth, why } => why == Why::FabricatedSig || why
                == Why::GarbageSigned,
        },
{
}

/// The scripted reactions: a fabricated move is claimed with the move that was meant,
/// the party's own illegal move is pushed, a legal move of the opponent framed, and a
/// sound signature exhibited, each where it is scripted and its entry is there.
pub proof fn law_scripted_reactions(w: ChessWorld, r: Role, d: u32)
    requires
        w.wf(),
        w.depth < w.resign_after,
        !brain_of(w, r).passive,
    ensures
        ({
            let b = brain_of(w, r);
            &&& b.fabricate_at == Some(d) && mover(d as int) == r && w.depth + 1 == d && w.slots > d
                ==> w.reaction_of(r) == Some(
                ChessReaction::Stall {
                    by: r,
                    depth: d,
                    uci: Some(b.moves@[(d - 1) / 2]),
                    why: Why::Fabricated,
                },
            )
            &&& b.fabricate_at is None && b.claim_own_illegal && b.illegal_at is Some && (
            b.illegal_at->0).0 == d && mover(d as int) == r && w.published@.contains_key(d)
                && w.slots > d ==> w.reaction_of(r) == Some(
                ChessReaction::Stall { by: r, depth: d, uci: None, why: Why::OwnInvalid },
            )
            &&& b.fabricate_at is None && !b.claim_own_illegal && b.frame_at == Some(d) && mover(
                d as int,
            ) != r && stands(w, d) ==> w.reaction_of(r) == Some(
                ChessReaction::Lie { by: r, depth: d, why: Why::Framed },
            )
            &&& b.fabricate_at is None && !b.claim_own_illegal && b.frame_at is None
                && b.fabricate_sig_at == Some(d) && mover(d as int) != r
                && w.published@.contains_key(d) && w.published@[d].signed ==> w.reaction_of(r)
                == Some(ChessReaction::Sig { by: r, depth: d, why: Why::FabricatedSig })
        }),
{
}

// ----- publishing and mining -----

/// Whether a move is due in the coming slot.
pub open spec fn move_due(w: ChessWorld) -> bool {
    !w.escalated && w.depth < w.resign_after && w.slots == w.depth && w.depth < 18
}

/// The party on turn publishes the move that is scripted for its turn, unless a fault
/// is scripted for this depth; an illegal move goes before the one of the turn. Where
/// no move is due, nothing is published.
pub proof fn law_scripted_move_is_published(w: ChessWorld)
    requires
        w.slots < u32::MAX,
    ensures
        !move_due(w) ==> w.publish_spec() == ChessPlan::Nothing,
        move_due(w) ==> {
            let d = (w.depth + 1) as u32;
            let b = brain_of(w, mover(d as int));
            let turn = w.depth as int / 2;
            let garbage = b.garbage_sig_at == Some(d);
            let illegal = b.illegal_at is Some && (b.illegal_at->0).0 == d;
            let held = b.stall_at == Some(d) || b.fabricate_at == Some(d);
            &&& b.stall_at == Some(d) ==> w.publish_spec() == ChessPlan::Stall
            &&& b.stall_at != Some(d) && b.fabricate_at == Some(d) ==> w.publish_spec()
                == ChessPlan::Fabricate
            &&& !held && illegal ==> w.publish_spec() == (ChessPlan::Move {
                uci: (b.illegal_at->0).1,
                legal: false,
                garbage,
            })
            &&& !held && !illegal && turn < b.moves@.len() ==> w.publish_spec() == (
            ChessPlan::Move { uci: b.moves@[turn], legal: true, garbage })
            &&& !held && !illegal && turn >= b.moves@.len() ==> w.publish_spec()
                == ChessPlan::NoMove
        },
{
}

/// Before the first move the state is the initial one; before any other it is the
/// state of the move before, if that was published and legal.
pub proof fn law_state_before(w: ChessWorld, d: u32)
    requires
        d >= 1,
    ensures
        w.prior_spec(1) == Ok::<StateBytes, WorldError>(w.initial),
        d > 1 && stands(w, (d - 1) as u32) ==> w.prior_spec(d) == Ok::<StateBytes, WorldError>(
            w.published@[(d - 1) as u32].state->0,
        ),
        d > 1 && !w.published@.contains_key((d - 1) as u32) ==> w.prior_spec(d) == Err::<
            StateBytes,
            WorldError,
        >(WorldError::NoMove((d - 1) as u32)),
        d > 1 && w.published@.contains_key((d - 1) as u32) && w.published@[(d
            - 1) as u32].state is None ==> w.prior_spec(d) == Err::<StateBytes, WorldError>(
            WorldError::InvalidMove((d - 1) as u32),
        ),
{
}

/// Whether a mined entry is the one that was meant: its mover and its depth.
pub open spec fn as_meant(w: ChessWorld, mined: MinedChess) -> bool {
    let d = w.slots + 1;
    mined.decoded matches Some(e) && e.depth == d && e.mover == (if mover(d) is User {
        0u8
    } else {
        1u8
    })
}

/// A mined entry counts as the next move exactly when it is the one that was meant,
/// its signature opens and the move was legal: then the state is the move's. At the
/// last move the hub resigns, and the user gets both stakes; each side keeps its
/// reserve. Whatever was mined, the slot has passed and nothing is pending any more.
pub proof fn law_mined_move_counts(w: ChessWorld, mined: MinedChess, after: ChessWorld)
    requires
        w.wf(),
        w.slots < u32::MAX,
        w.mined_world(mined, after),
    ensures
        ({
            let d = (w.slots + 1) as u32;
            &&& after.slots == w.slots + 1
            &&& after.pending is None
            &&& match w.pending {
                None => {
                    &&& after.depth == w.depth && after.state == w.state
                    &&& after.published@ == w.published@ && after.result == w.result
                },
                Some(p) => {
                    let counts = as_meant(w, mined) && mined.opens && p.state is Some;
                    &&& after.published@.contains_key(d) <==> as_meant(w, mined)
                    &&& counts ==> after.depth == d && Some(after.state) == p.state
                    &&& !counts ==> after.depth == w.depth && after.state == w.state
                        && after.result == w.result
                    &&& counts && d != w.resign_after ==> after.result == w.result
                    &&& counts && d == w.resign_after ==> {
                        &&& after.result matches Some(dist)
                        &&& dist@[0] == 115_000 && dist@[1] == 15_000
                    }
                    &&& as_meant(w, mined) ==> {
                        &&& after.published@[d].claimed == p.claimed
                        &&& after.published@[d].signed == mined.opens
                        &&& after.published@[d].state is Some <==> counts
                    }
                },
            }
        }),
{
    let d = (w.slots + 1) as u32;
    assert(!w.published@.contains_key(d));
}

/// What is refused of a mined entry, and why.
pub proof fn law_refused_entries(w: ChessWorld, mined: MinedChess)
    ensures
        w.entry_error(mined) is None <==> as_meant(w, mined),
        mined.decoded is None ==> w.entry_error(mined) == Some(WorldError::Undecodable),
        mined.decoded is Some && !as_meant(w, mined) ==> w.entry_error(mined) == Some(
            WorldError::Mismatch,
        ),
{
}

// ----- what a party agrees to -----

/// A party opens a game exactly when the terms are its own and both sides put in
/// stake and reserve; it looks at the terms first.
pub proof fn law_games_are_opened_on_own_terms(
    terms: ChessTerms,
    stakes: [u64; 2],
    checkpoint: Seq<u8>,
    refuse: bool,
    result: Option<[u64; 2]>,
)
    ensures
        ({
            let said = change_spec(
                ChessChange::Open { offer: ChessOffer::Game(terms), stakes },
                checkpoint,
                refuse,
                result,
            );
            let own = terms.checkpoint@ == checkpoint && terms.w_max == 20 && terms.game_id == 2;
            let full = stakes@[0] == 65_000 && stakes@[1] == 65_000;
            &&& own && full ==> said == Ok::<Verdict, Refusal>(Verdict::Agree)
            &&& !own ==> said == Err::<Verdict, Refusal>(Refusal::Terms)
            &&& own && !full ==> said == Err::<Verdict, Refusal>(Refusal::Stakes)
        }),
        change_spec(
            ChessChange::Open { offer: ChessOffer::UnknownProgram, stakes },
            checkpoint,
            refuse,
            result,
        ) == Err::<Verdict, Refusal>(Refusal::UnknownProgram),
        change_spec(
            ChessChange::Open { offer: ChessOffer::Unreadable, stakes },
            checkpoint,
            refuse,
            result,
        ) == Err::<Verdict, Refusal>(Refusal::Unreadable),
        change_spec(ChessChange::Other, checkpoint, refuse, result) == Ok::<Verdict, Refusal>(
            Verdict::Default,
        ),
{
}

/// A party folds exactly the game's contract, once the game is over, to the venue's
/// result, and only if it is willing.
pub proof fn law_folds_follow_the_result(
    id: u32,
    dist: [u64; 2],
    checkpoint: Seq<u8>,
    refuse: bool,
    result: Option<[u64; 2]>,
)
    ensures
        ({
            let said = change_spec(ChessChange::Fold { id, dist }, checkpoint, refuse, result);
            &&& said == Ok::<Verdict, Refusal>(Verdict::Agree) <==> {
                &&& id == 31
                &&& !refuse
                &&& result matches Some(agreed) && agreed@ == dist@
            }
            &&& id != 31 ==> said == Err::<Verdict, Refusal>(Refusal::UnknownContract)
            &&& id == 31 && refuse ==> said == Err::<Verdict, Refusal>(Refusal::Unwilling)
            &&& id == 31 && !refuse && result is None ==> said == Err::<Verdict, Refusal>(
                Refusal::NotOver,
            )
            &&& id == 31 && !refuse && result is Some && !((result->0)@ == dist@) ==> said == Err::<
                Verdict,
                Refusal,
            >(Refusal::WrongResult)
        }),
{
}

} // verus!
