//! What holds of every game of chess on the venue.

use vstd::prelude::*;

use crate::harness::chess::{legal_in, ChessReaction, ChessWorld, MinedChess};
use crate::harness::game::Why;
use crate::harness::{mover, Role};

verus! {

/// Whose reaction it is, at which depth, and why.
pub open spec fn terms_of(reaction: ChessReaction) -> (Role, u32, Why) {
    match reaction {
        ChessReaction::Stall { by, depth, uci, why } => (by, depth, why),
        ChessReaction::Lie { by, depth, why } => (by, depth, why),
        ChessReaction::Sig { by, depth, why } => (by, depth, why),
    }
}

/// A party proves a stall with its own move, and exhibits only the opponent's.
pub proof fn law_reactions_name_their_mover(w: ChessWorld, r: Role)
    requires
        w.wf(),
    ensures
        w.reaction_of(r) matches Some(x) ==> {
            &&& terms_of(x).0 == r
            &&& match x {
                ChessReaction::Stall { .. } => mover(terms_of(x).1 as int) == r,
                ChessReaction::Lie { .. } | ChessReaction::Sig { .. } => mover(
                    terms_of(x).1 as int,
                ) == r.opponent(),
            }
        },
{
    assert(mover(w.depth + 1) == mover(w.depth as int).opponent());
}

/// While the game has begun, whatever a party queues can be queued: the state
/// before the move is known, and a move that the claim speaks of was published,
/// unless it is a fabricated one.
pub proof fn law_reactions_can_be_queued(w: ChessWorld, r: Role)
    requires
        w.wf(),
        w.resign_after >= 1,
    ensures
        w.reaction_of(r) matches Some(x) ==> {
            let d = terms_of(x).1;
            &&& d >= 1
            &&& w.prior_spec(d) is Ok
            &&& terms_of(x).2 != Why::Fabricated ==> w.published@.contains_key(d)
        },
{
    if let Some(x) = w.reaction_of(r) {
        let d = terms_of(x).1;
        assert(1 <= d <= w.depth + 1);
        if d >= 2 {
            assert(legal_in(w.published@, (d - 1) as u32));
        }
        if d <= w.depth {
            assert(legal_in(w.published@, d));
        }
    }
}

/// An honest party goes on-chain only when the hub has resigned and the fold was
/// refused, or when the opponent's slot passed without a legal move.
pub proof fn law_honest_reactions_are_grounded(w: ChessWorld, r: Role)
    requires
        w.wf(),
        w.brain(r).is_honest(),
    ensures
        w.reaction_of(r) is Some ==> if w.depth < w.resign_after {
            w.opponents_slot_passed(r) && !w.legal_at((w.depth + 1) as u32)
        } else {
            w.fold_rejected && mover(w.depth as int) == r
        },
{
}

/// An honest party does not let the opponent's slot pass without a legal move.
pub proof fn law_honest_parties_react(w: ChessWorld, r: Role)
    requires
        w.wf(),
        w.brain(r).is_honest(),
        w.depth < w.resign_after,
        w.opponents_slot_passed(r),
    ensures
        w.reaction_of(r) is Some,
{
    assert(!legal_in(w.published@, (w.depth + 1) as u32));
}

/// While both parties are honest, every slot holds a legal move and no fold was
/// refused, nothing goes on-chain.
pub proof fn law_fair_play_stays_off_chain(w: ChessWorld)
    requires
        w.wf(),
        w.brain(Role::User).is_honest(),
        w.brain(Role::Hub).is_honest(),
        w.slots == w.depth,
        !w.fold_rejected,
    ensures
        w.reaction() is None,
{
    law_honest_reactions_are_grounded(w, Role::User);
    law_honest_reactions_are_grounded(w, Role::Hub);
}

/// After one claim is queued, no other is.
pub proof fn law_one_claim_only(w: ChessWorld)
    ensures
        (ChessWorld { escalated: true, ..w }).reaction() is None,
{
}

/// A slot adds at most one move, and never takes one back: what was published
/// stays.
pub proof fn law_moves_stay(before: ChessWorld, mined: MinedChess, after: ChessWorld)
    requires
        before.wf(),
        before.slots < u32::MAX,
        before.mined_world(mined, after),
    ensures
        before.depth <= after.depth <= before.depth + 1,
        before.published@.submap_of(after.published@),
{
    assert(!before.published@.contains_key((before.slots + 1) as u32));
    assert(before.published@.submap_of(after.published@));
}

} // verus!
