//! What holds of every game on the venue.

use vstd::prelude::*;

use crate::harness::game::{
    fold_spec, valid_in, GameWorld, MinedEntry, Payout, Reaction, Why, RESERVE, STAKE,
};
use crate::harness::{mover, Role};

verus! {

/// Whose reaction it is, at which depth, and why.
pub open spec fn terms_of(reaction: Reaction) -> (Role, u32, Why) {
    match reaction {
        Reaction::Claim { by, depth, cell, why } => (by, depth, why),
        Reaction::Stall { by, depth, cell, why } => (by, depth, why),
        Reaction::Lie { by, depth, why } => (by, depth, why),
        Reaction::Sig { by, depth, why } => (by, depth, why),
    }
}

/// A party claims, or proves a stall with, its own move, and exhibits only the
/// opponent's.
pub proof fn law_reactions_name_their_mover(w: GameWorld, r: Role)
    requires
        w.wf(),
    ensures
        w.reaction_of(r) matches Some(x) ==> {
            &&& terms_of(x).0 == r
            &&& match x {
                Reaction::Claim { .. } | Reaction::Stall { .. } => mover(terms_of(x).1 as int) == r,
                Reaction::Lie { .. } | Reaction::Sig { .. } => mover(terms_of(x).1 as int)
                    == r.opponent(),
            }
        },
{
    if let Some(k) = w.brain(r).ignore_at {
        assert(k >= 1 ==> mover(k as int) == mover(k - 1).opponent());
    }
    assert(mover(w.depth + 1) == mover(w.depth as int).opponent());
}

/// Whatever a party queues can be queued: the board before the move is known, and
/// a move that the claim speaks of was published, unless it is a fabricated one.
pub proof fn law_reactions_can_be_queued(w: GameWorld, r: Role)
    requires
        w.wf(),
    ensures
        w.reaction_of(r) matches Some(x) ==> {
            let d = terms_of(x).1;
            &&& d >= 1
            &&& w.prior_spec(d) is Ok
            &&& terms_of(x).2 != Why::Fabricated ==> w.published@.contains_key(d)
        },
{
    if let Some(x) = w.reaction_of(r) {
        let d = terms_of(x).1;
        assert(1 <= d <= w.depth + 1) by {
            if let Some(k) = w.brain(r).ignore_at {
                if w.ignores(r) {
                    assert(w.published@.contains_key(k));
                }
            }
        }
        if d >= 2 {
            assert(valid_in(w.published@, (d - 1) as u32));
        }
        if d <= w.depth {
            assert(valid_in(w.published@, d));
        }
    }
}

/// An honest party goes on-chain only when the game is over and the fold was
/// refused, or when the opponent's slot passed without a valid move.
pub proof fn law_honest_reactions_are_grounded(w: GameWorld, r: Role)
    requires
        w.wf(),
        w.brain(r).is_honest(),
    ensures
        w.reaction_of(r) is Some ==> if w.board.open {
            &&& w.slots >= w.depth + 1
            &&& mover(w.depth + 1) == r.opponent()
            &&& !w.valid_at((w.depth + 1) as u32)
        } else {
            w.fold_rejected && mover(w.depth as int) == r
        },
{
}

/// An honest party does not let the opponent's slot pass: once it did, after some
/// move and without a valid move in it, the party goes on-chain.
pub proof fn law_honest_parties_react(w: GameWorld, r: Role)
    requires
        w.wf(),
        w.brain(r).is_honest(),
        w.board.open,
        w.overdue(r),
    ensures
        w.reaction_of(r) is Some,
{
}

/// While both parties are honest, every slot holds a valid move and no fold was
/// refused, nothing goes on-chain.
pub proof fn law_fair_play_stays_off_chain(w: GameWorld)
    requires
        w.wf(),
        w.brain(Role::User).is_honest(),
        w.brain(Role::Hub).is_honest(),
        w.slots == w.depth,
        !w.fold_rejected,
    ensures
        w.reaction() is None,
{
    law_honest_reactions_are_grounded(w, Role::User);
    law_honest_reactions_are_grounded(w, Role::Hub);
}

/// After one claim is queued, no other is.
pub proof fn law_one_claim_only(w: GameWorld)
    ensures
        (GameWorld { escalated: true, ..w }).reaction() is None,
{
}

/// A slot adds at most one move, and never takes one back: what was published
/// stays.
pub proof fn law_moves_stay(before: GameWorld, mined: MinedEntry, after: GameWorld)
    requires
        before.wf(),
        before.slots < u32::MAX,
        before.mined_world(mined, after),
    ensures
        before.depth <= after.depth <= before.depth + 1,
        before.published@.submap_of(after.published@),
{
    assert(!before.published@.contains_key((before.slots + 1) as u32));
    assert(before.published@.submap_of(after.published@));
}

/// A fold pays out all that was put in, and each side its reserve.
pub proof fn law_fold_conserves(payout: Payout)
    ensures
        fold_spec(payout).0 + fold_spec(payout).1 == 2 * (STAKE + RESERVE),
        fold_spec(payout).0 >= RESERVE,
        fold_spec(payout).1 >= RESERVE,
{
}

} // verus!
