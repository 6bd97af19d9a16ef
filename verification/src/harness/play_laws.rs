//! What the parties of a game do, in terms of what stands on the venue and what they
//! are scripted to do.

use vstd::prelude::*;

use crate::harness::game::{
    change_spec, exhibit_spec, fold_spec, rejection_told, valid_in, win_code, Board, Brain,
    GameChange, GameTerms, GameWorld, MinedEntry, Offer, Payout, PublishPlan, Published, Reaction,
    Refusal, Verdict, Why, WorldError, RESERVE, STAKE,
};
use crate::harness::text::has_text;
use crate::harness::{mover, Role};

verus! {

/// A side's brain: the user's is the first.
pub open spec fn brain_of(w: GameWorld, r: Role) -> Brain {
    w.brains@[if r is User { 0int } else { 1int }]
}

/// Whether the game has a valid move at a depth.
pub open spec fn stands(w: GameWorld, d: u32) -> bool {
    w.published@.contains_key(d) && w.published@[d].board is Some
}

/// Whether a party's brain has no fault that concerns the reactions.
pub open spec fn reacts_fairly(b: Brain) -> bool {
    &&& b.fabricate_at is None
    &&& b.invalid_at is None
    &&& b.ignore_at is None
    &&& b.frame_at is None
    &&& b.fabricate_sig_at is None
    &&& !b.passive
    &&& !b.no_exhibit
}

/// An honest brain has no fault of any kind scripted.
pub proof fn law_honest_brains(b: Brain)
    ensures
        b.is_honest() <==> {
            &&& reacts_fairly(b)
            &&& b.stall_at is None
            &&& b.garbage_at is None
            &&& !b.refuse_fold
            &&& !b.refute_with_garbage
            &&& !b.claim_own_invalid
        },
{
}

// ----- reactions of a fair party -----

/// A refused fold is answered: once the game is over, the fold was refused and the
/// slot after the last move has passed, the party that made the last move goes
/// on-chain at that move; with the move itself on the star graph, with the proof that
/// nothing follows it on the stall graph. The other party does nothing.
pub proof fn law_refused_fold_is_answered(w: GameWorld, r: Role)
    requires
        w.wf(),
        !w.board.open,
        w.fold_rejected,
        mover(w.depth as int) == r,
        w.slots > w.depth,
        !brain_of(w, r).passive,
    ensures
        w.stall ==> w.reaction_of(r) == Some(
            Reaction::Stall { by: r, depth: w.depth, cell: None, why: Why::FoldRefused },
        ),
        !w.stall ==> w.reaction_of(r) == Some(
            Reaction::Claim {
                by: r,
                depth: w.depth,
                cell: w.published@[w.depth].mv,
                why: Why::FoldRefused,
            },
        ),
        w.reaction_of(r.opponent()) is None,
        !w.escalated ==> w.reaction() == w.reaction_of(r),
{
}

/// On the star graph the winner need not wait for the slot after the last move.
pub proof fn law_star_result_is_claimed_at_once(w: GameWorld, r: Role)
    requires
        w.wf(),
        !w.stall,
        !w.board.open,
        w.fold_rejected,
        mover(w.depth as int) == r,
        !brain_of(w, r).passive,
    ensures
        w.reaction_of(r) is Some,
{
}

/// A finished game stays off-chain as long as the fold was not refused.
pub proof fn law_finished_game_waits_for_the_fold(w: GameWorld, r: Role)
    requires
        !w.board.open,
        !w.fold_rejected || mover(w.depth as int) != r,
    ensures
        w.reaction_of(r) is None,
{
}

/// A passed slot is answered: when the opponent's slot after some move passed without
/// a valid move, a fair party claims a timeout at its own last move on the star graph.
/// On the stall graph it proves a stall if nothing was published, exhibits the
/// opponent's entry as a lie if it is signed, and as garbage-signed if it is not.
pub proof fn law_passed_slot_is_answered(w: GameWorld, r: Role)
    requires
        w.wf(),
        w.board.open,
        w.depth >= 1,
        mover(w.depth as int) == r,
        w.slots > w.depth,
        reacts_fairly(brain_of(w, r)),
    ensures
        ({
            let k = (w.depth + 1) as u32;
            let reaction = w.reaction_of(r);
            &&& !w.stall ==> reaction == Some(
                Reaction::Claim {
                    by: r,
                    depth: w.depth,
                    cell: w.published@[w.depth].mv,
                    why: Why::Timeout,
                },
            )
            &&& w.stall && !w.published@.contains_key(k) ==> reaction == Some(
                Reaction::Stall { by: r, depth: w.depth, cell: None, why: Why::Timeout },
            )
            &&& w.stall && w.published@.contains_key(k) && w.published@[k].signed ==> reaction
                == Some(Reaction::Lie { by: r, depth: k, why: Why::InvalidMove })
            &&& w.stall && w.published@.contains_key(k) && !w.published@[k].signed ==> reaction
                == Some(Reaction::Sig { by: r, depth: k, why: Why::GarbageSigned })
        }),
{
    let k = (w.depth + 1) as u32;
    assert(!valid_in(w.published@, k));
}

/// A fair party does nothing while the opponent's slot has not passed, while the slot
/// is its own, or before the first move.
pub proof fn law_fair_party_waits(w: GameWorld, r: Role)
    requires
        w.wf(),
        w.board.open,
        reacts_fairly(brain_of(w, r)),
        w.depth == 0 || mover(w.depth as int) != r || w.slots == w.depth,
    ensures
        w.reaction_of(r) is None,
{
}

/// A passive party never goes on-chain.
pub proof fn law_passive_party_does_nothing(w: GameWorld, r: Role)
    requires
        brain_of(w, r).passive,
    ensures
        w.reaction_of(r) is None,
{
}

/// The user's reaction goes before the hub's, and nothing is queued after a claim.
pub proof fn law_user_reacts_first(w: GameWorld)
    ensures
        w.escalated ==> w.reaction() is None,
        !w.escalated && w.reaction_of(Role::User) is Some ==> w.reaction() == w.reaction_of(
            Role::User,
        ),
        !w.escalated && w.reaction_of(Role::User) is None ==> w.reaction() == w.reaction_of(
            Role::Hub,
        ),
{
}

/// Every reaction has its ground: what a party says it goes on-chain for is on the
/// venue, or scripted for it.
pub proof fn law_reactions_have_grounds(w: GameWorld, r: Role)
    requires
        w.wf(),
        w.reaction_of(r) is Some,
    ensures
        ({
            let b = brain_of(w, r);
            let next = (w.depth + 1) as u32;
            let (by, d, why) = match w.reaction_of(r)->0 {
                Reaction::Claim { by, depth, cell, why } => (by, depth, why),
                Reaction::Stall { by, depth, cell, why } => (by, depth, why),
                Reaction::Lie { by, depth, why } => (by, depth, why),
                Reaction::Sig { by, depth, why } => (by, depth, why),
            };
            &&& by == r && !b.passive
            &&& match why {
                Why::FoldRefused => !w.board.open && w.fold_rejected && d == w.depth && mover(
                    d as int,
                ) == r && (w.stall ==> w.slots > d),
                Why::Fabricated => b.fabricate_at == Some(d) && mover(d as int) == r && w.slots > d
                    && !stands(w, d),
                Why::OwnInvalid => b.invalid_at == Some(d) && mover(d as int) == r
                    && w.published@.contains_key(d) && w.slots > d && (w.stall
                    ==> b.claim_own_invalid) && (!w.stall ==> w.published@[d].board is None),
                Why::Ignored => b.ignore_at == Some((d + 1) as u32) && mover(d as int) == r
                    && stands(w, d) && stands(w, (d + 1) as u32),
                Why::Framed => b.frame_at == Some(d) && mover(d as int) != r && stands(w, d),
                Why::FabricatedSig => b.fabricate_sig_at == Some(d) && mover(d as int) != r
                    && w.published@.contains_key(d) && w.published@[d].signed,
                Why::Timeout => w.board.open && d == w.depth && mover(d as int) == r && stands(w, d)
                    && w.slots > d && (w.stall ==> !w.published@.contains_key(next)),
                Why::InvalidMove => w.stall && w.board.open && d == next && mover(d as int) != r
                    && w.slots >= d && w.published@.contains_key(d) && w.published@[d].signed
                    && w.published@[d].board is None && !b.no_exhibit,
                Why::GarbageSigned => w.stall && w.board.open && d == next && mover(d as int) != r
                    && w.slots >= d && w.published@.contains_key(d) && !w.published@[d].signed
                    && !b.no_exhibit,
            }
        }),
{
    if w.depth >= 1 {
        assert(valid_in(w.published@, w.depth));
    }
    assert(!valid_in(w.published@, (w.depth + 1) as u32));
    if let Some(k) = brain_of(w, r).ignore_at {
        assert(w.published@.contains_key(k) ==> k <= w.depth + 1);
        assert(k == w.depth + 1 ==> !valid_in(w.published@, k));
        if 2 <= k && stands(w, k) {
            assert(valid_in(w.published@, (k - 1) as u32));
        }
    }
}

/// Why a party reacts, if it does.
pub open spec fn why_of(reaction: Option<Reaction>) -> Option<Why> {
    match reaction {
        None => None,
        Some(Reaction::Claim { by, depth, cell, why }) => Some(why),
        Some(Reaction::Stall { by, depth, cell, why }) => Some(why),
        Some(Reaction::Lie { by, depth, why }) => Some(why),
        Some(Reaction::Sig { by, depth, why }) => Some(why),
    }
}

/// In an open game a party acts on the first of these that it finds: a move of its own
/// to fabricate, an invalid move of its own to push, on the stall graph a move to
/// frame, a move to ignore, on the stall graph a signature to call garbage, and the
/// opponent's passed slot. If it finds none, it does nothing.
pub proof fn law_reactions_in_order(w: GameWorld, r: Role)
    requires
        w.wf(),
        w.board.open,
        !brain_of(w, r).passive,
    ensures
        ({
            let b = brain_of(w, r);
            let next = (w.depth + 1) as u32;
            let fabricates = b.fabricate_at is Some && b.fabricate_at->0 == next && mover(
                next as int,
            ) == r && w.slots > next;
            let own = b.invalid_at is Some && mover(b.invalid_at->0 as int) == r
                && w.published@.contains_key(b.invalid_at->0) && w.slots > b.invalid_at->0;
            let pushes = own && if w.stall {
                b.claim_own_invalid
            } else {
                w.published@[b.invalid_at->0].board is None
            };
            let frames = w.stall && b.frame_at is Some && mover(b.frame_at->0 as int) != r
                && stands(w, b.frame_at->0);
            let ignores = b.ignore_at is Some && b.ignore_at->0 >= 2 && mover(
                b.ignore_at->0 as int,
            ) != r && stands(w, b.ignore_at->0);
            let fakes = w.stall && b.fabricate_sig_at is Some && mover(
                b.fabricate_sig_at->0 as int,
            ) != r && w.published@.contains_key(b.fabricate_sig_at->0)
                && w.published@[b.fabricate_sig_at->0].signed;
            let passed = w.depth >= 1 && mover(w.depth as int) == r && w.slots > w.depth;
            let shown = w.stall && w.published@.contains_key(next);
            why_of(w.reaction_of(r)) == if fabricates {
                Some(Why::Fabricated)
            } else if pushes {
                Some(Why::OwnInvalid)
            } else if frames {
                Some(Why::Framed)
            } else if ignores {
                Some(Why::Ignored)
            } else if fakes {
                Some(Why::FabricatedSig)
            } else if passed && !shown {
                Some(Why::Timeout)
            } else if passed && !b.no_exhibit {
                Some(
                    if w.published@[next].signed {
                        Why::InvalidMove
                    } else {
                        Why::GarbageSigned
                    },
                )
            } else {
                None
            }
        }),
{
    assert(!valid_in(w.published@, (w.depth + 1) as u32));
}

/// What a party queues fits why it does: claims on the star graph alone, all else on
/// the stall graph; a fabricated move with its own cell, any other with the cell that
/// was published, or, for its own invalid move on the star graph, with a free one.
pub proof fn law_reactions_carry_their_cell(w: GameWorld, r: Role)
    requires
        w.wf(),
    ensures
        w.reaction_of(r) matches Some(x) ==> {
            let b = brain_of(w, r);
            match x {
                Reaction::Claim { by, depth, cell, why } => {
                    &&& !w.stall
                    &&& why == Why::Fabricated ==> cell == b.moves@[(depth - 1) / 2]
                    &&& why == Why::OwnInvalid ==> cell == w.board.free_from(0)
                    &&& why != Why::Fabricated && why != Why::OwnInvalid ==> cell
                        == w.published@[depth].mv
                },
                Reaction::Stall { by, depth, cell, why } => {
                    &&& w.stall
                    &&& why == Why::Fabricated ==> cell == Some(b.moves@[(depth - 1) / 2])
                    &&& why != Why::Fabricated ==> cell is None
                    &&& why == Why::Fabricated || why == Why::OwnInvalid || why == Why::Ignored
                        || why == Why::Timeout || why == Why::FoldRefused
                },
                Reaction::Lie { by, depth, why } => w.stall && (why == Why::Framed || why
                    == Why::InvalidMove),
                Reaction::Sig { by, depth, why } => w.stall && (why == Why::FabricatedSig || why
                    == Why::GarbageSigned),
            }
        },
{
    law_first_free_cell(w.board, 0);
    if w.board.open {
        let c = choose|c: int| 0 <= c < 9 && #[trigger] w.board.cells@[c] == 0;
        assert(w.board.free_from(0) <= c);
    }
}

/// The first bit of the claimed state is its lowest.
pub proof fn law_head_bit(w: GameWorld, k: u32)
    ensures
        w.head_bit(k) <==> w.published@[k].state as int == 2 * (w.published@[k].state as int / 2)
            + 1,
{
}

// ----- scripted reactions -----

/// A party that fabricates a move claims it, with the cell that was scripted for it,
/// once its own slot and the next have passed and no move stands in it.
pub proof fn law_fabricated_move_is_claimed(w: GameWorld, r: Role, d: u32)
    requires
        w.board.open,
        !brain_of(w, r).passive,
        brain_of(w, r).fabricate_at == Some(d),
        d >= 1,
        mover(d as int) == r,
        w.depth + 1 == d,
    ensures
        w.slots > d ==> w.reaction_of(r) == Some(
            if w.stall {
                Reaction::Stall {
                    by: r,
                    depth: d,
                    cell: Some(brain_of(w, r).moves@[(d - 1) / 2]),
                    why: Why::Fabricated,
                }
            } else {
                Reaction::Claim {
                    by: r,
                    depth: d,
                    cell: brain_of(w, r).moves@[(d - 1) / 2],
                    why: Why::Fabricated,
                }
            },
        ),
        w.reaction_of(r) matches Some(x) ==> (w.slots <= d ==> match x {
            Reaction::Claim { by, depth, cell, why } => why != Why::Fabricated,
            Reaction::Stall { by, depth, cell, why } => why != Why::Fabricated,
            _ => true,
        }),
{
}

/// A party that pushes its own invalid move does so once the next slot has passed: on
/// the star graph with a cell that is free on the board, on the stall graph, if it is
/// scripted to, with the move as published.
pub proof fn law_own_invalid_move_is_pushed(w: GameWorld, r: Role, d: u32)
    requires
        w.wf(),
        w.board.open,
        !brain_of(w, r).passive,
        brain_of(w, r).fabricate_at is None,
        brain_of(w, r).invalid_at == Some(d),
        mover(d as int) == r,
        w.published@.contains_key(d),
        w.published@[d].board is None,
        w.slots > d,
    ensures
        !w.stall ==> {
            &&& w.reaction_of(r) matches Some(Reaction::Claim { by, depth, cell, why })
            &&& by == r && depth == d && why == Why::OwnInvalid
            &&& cell < 9 && w.board.cells@[cell as int] == 0
            &&& forall|c: int| 0 <= c < cell ==> #[trigger] w.board.cells@[c] != 0
        },
        w.stall && brain_of(w, r).claim_own_invalid ==> w.reaction_of(r) == Some(
            Reaction::Stall { by: r, depth: d, cell: None, why: Why::OwnInvalid },
        ),
{
    law_first_free_cell(w.board, 0);
}

/// A party that ignores the opponent's valid move claims a timeout at its own move
/// before it.
pub proof fn law_ignored_move_is_claimed_over(w: GameWorld, r: Role, k: u32)
    requires
        w.wf(),
        w.board.open,
        !brain_of(w, r).passive,
        brain_of(w, r).fabricate_at is None,
        brain_of(w, r).invalid_at is None,
        brain_of(w, r).frame_at is None,
        brain_of(w, r).ignore_at == Some(k),
        k >= 2,
        mover(k as int) != r,
        stands(w, k),
    ensures
        w.reaction_of(r) == Some(
            if w.stall {
                Reaction::Stall {
                    by: r,
                    depth: (k - 1) as u32,
                    cell: None,
                    why: Why::Ignored,
                }
            } else {
                Reaction::Claim {
                    by: r,
                    depth: (k - 1) as u32,
                    cell: w.published@[(k - 1) as u32].mv,
                    why: Why::Ignored,
                }
            },
        ),
{
    assert(w.published@.contains_key(k));
}

/// On the stall graph a party that frames the opponent exhibits its valid move as a
/// lie, and one that fakes garbage exhibits its sound signature; neither where there
/// is no such entry.
pub proof fn law_baseless_exhibits(w: GameWorld, r: Role, k: u32)
    requires
        w.wf(),
        w.stall,
        w.board.open,
        !brain_of(w, r).passive,
        brain_of(w, r).fabricate_at is None,
        brain_of(w, r).invalid_at is None,
        brain_of(w, r).ignore_at is None,
        mover(k as int) != r,
    ensures
        brain_of(w, r).frame_at == Some(k) && stands(w, k) ==> w.reaction_of(r) == Some(
            Reaction::Lie { by: r, depth: k, why: Why::Framed },
        ),
        brain_of(w, r).frame_at is None && brain_of(w, r).fabricate_sig_at == Some(k)
            && w.published@.contains_key(k) && w.published@[k].signed ==> w.reaction_of(r) == Some(
            Reaction::Sig { by: r, depth: k, why: Why::FabricatedSig },
        ),
{
}

/// The bit that an exhibit shows is the one that was found, and a fabricated exhibit
/// shows the first bit as the entry claims it. Where nothing was found and nothing is
/// fabricated, there is none.
pub proof fn law_exhibited_bit(k: u32, first: bool, found: Option<(usize, bool)>)
    ensures
        exhibit_spec(k, true, first, found) == Ok::<(usize, bool), WorldError>((0, first)),
        found matches Some(bit) ==> exhibit_spec(k, false, first, found) == Ok::<
            (usize, bool),
            WorldError,
        >(bit),
        exhibit_spec(k, false, first, None) == Err::<(usize, bool), WorldError>(
            WorldError::SoundlySigned(k),
        ),
{
}

// ----- boards -----

/// The first free cell from `c` on, and the first taken one.
pub proof fn law_first_free_cell(b: Board, c: int)
    requires
        0 <= c <= 9,
    ensures
        c <= b.free_from(c) <= 9,
        b.free_from(c) < 9 ==> b.cells@[b.free_from(c)] == 0,
        forall|k: int| c <= k < b.free_from(c) ==> #[trigger] b.cells@[k] != 0,
        c <= b.taken_from(c) <= 9,
        b.taken_from(c) < 9 ==> b.cells@[b.taken_from(c)] != 0,
        forall|k: int| c <= k < b.taken_from(c) ==> #[trigger] b.cells@[k] == 0,
    decreases 9 - c,
{
    if c < 9 {
        law_first_free_cell(b, c + 1);
    }
}

/// Before the first move the board is empty and the user is on turn; before any other
/// it is the board of the move before, if that was published and valid.
pub proof fn law_board_before(w: GameWorld, d: u32, c: int)
    requires
        d >= 1,
        0 <= c < 9,
    ensures
        w.prior_spec(1) matches Ok(b) && b.cells@[c] == 0 && b.turn == Role::User && b.open,
        d > 1 && stands(w, (d - 1) as u32) ==> w.prior_spec(d) == Ok::<Board, WorldError>(
            w.published@[(d - 1) as u32].board->0,
        ),
        d > 1 && !w.published@.contains_key((d - 1) as u32) ==> w.prior_spec(d) == Err::<
            Board,
            WorldError,
        >(WorldError::NoMove((d - 1) as u32)),
        d > 1 && w.published@.contains_key((d - 1) as u32) && w.published@[(d
            - 1) as u32].board is None ==> w.prior_spec(d) == Err::<Board, WorldError>(
            WorldError::InvalidMove((d - 1) as u32),
        ),
{
}

/// A party answers a claim from a state with its own move from that very state, a
/// valid one, or a garbage-signed one if it is scripted to.
pub proof fn law_answers(w: GameWorld, r: Role, state: Board, d: u32)
    requires
        w.published@.contains_key(d),
        d >= 1,
    ensures
        w.answers(r, state, d) <==> {
            &&& mover(d as int) == r
            &&& w.prior_spec(d) == Ok::<Board, WorldError>(state)
            &&& w.published@[d].board is Some || (brain_of(w, r).refute_with_garbage
                && !w.published@[d].signed)
        },
{
}

// ----- publishing -----

/// Whether a move is due in the coming slot.
pub open spec fn move_due(w: GameWorld) -> bool {
    !w.escalated && w.board.open && w.slots == w.depth && w.depth < 9
}

/// The party on turn publishes the move that is scripted for its turn, signed, unless
/// a fault is scripted for this depth. Where no move is due, nothing is published.
pub proof fn law_scripted_move_is_published(w: GameWorld)
    requires
        w.slots < u32::MAX,
    ensures
        !move_due(w) ==> w.publish_spec() == PublishPlan::Nothing,
        move_due(w) ==> {
            let d = (w.depth + 1) as u32;
            let b = brain_of(w, mover(d as int));
            let turn = w.depth as int / 2;
            &&& b.stall_at == Some(d) ==> w.publish_spec() == PublishPlan::Stall
            &&& b.stall_at != Some(d) && b.fabricate_at == Some(d) ==> w.publish_spec()
                == PublishPlan::Fabricate
            &&& b.stall_at != Some(d) && b.fabricate_at != Some(d) ==> {
                &&& turn >= b.moves@.len() ==> w.publish_spec() == PublishPlan::NoMove
                &&& turn < b.moves@.len() && b.invalid_at == Some(d) ==> w.publish_spec() is Invalid
                &&& turn < b.moves@.len() && b.invalid_at != Some(d) ==> w.publish_spec() == (
                PublishPlan::Move { cell: b.moves@[turn], garbage: b.garbage_at == Some(d) })
            }
        },
{
}

/// An invalid move is played onto the first taken cell; the player claims the board
/// with its mark there, the opponent on turn, and nothing else changed.
pub proof fn law_invalid_move_overwrites(w: GameWorld, k: int)
    requires
        w.slots < u32::MAX,
        w.board.has_taken(),
        w.publish_spec() is Invalid,
        0 <= k < 9,
    ensures
        w.publish_spec() matches PublishPlan::Invalid { cell, claimed, garbage } ==> {
            let r = mover(w.slots + 1);
            &&& cell < 9 && w.board.cells@[cell as int] != 0
            &&& forall|c: int| 0 <= c < cell ==> #[trigger] w.board.cells@[c] == 0
            &&& claimed.cells@[k] == if k == cell {
                if r is User {
                    1u8
                } else {
                    2u8
                }
            } else {
                w.board.cells@[k]
            }
            &&& claimed.turn != r
            &&& claimed.open == w.board.open
            &&& brain_of(w, r).invalid_at == Some((w.slots + 1) as u32)
            &&& garbage == (brain_of(w, r).garbage_at == Some((w.slots + 1) as u32))
        },
{
    law_first_free_cell(w.board, 0);
    let c = choose|c: int| 0 <= c < 9 && #[trigger] w.board.cells@[c] != 0;
    assert(w.board.taken_from(0) <= c);
}

// ----- mining -----

/// Whether a mined entry is the one that was meant: its claimed state, its mover and
/// its depth, and on the star graph the prover's keys.
pub open spec fn as_meant(w: GameWorld, p: Published, mined: MinedEntry) -> bool {
    let d = w.slots + 1;
    &&& w.stall || mined.prover == mover(d)
    &&& mined.decoded matches Some(e) && e.state == p.state && e.depth == d && e.mover == (
    if mover(d) is User {
        0u8
    } else {
        1u8
    })
}

/// A mined entry counts as the next move exactly when it is the one that was meant,
/// its signature opens and the move was valid: then the board is the move's. Whatever
/// was mined, the slot has passed, its block holds what was pending, and nothing is
/// pending any more.
pub proof fn law_mined_move_counts(w: GameWorld, mined: MinedEntry, after: GameWorld)
    requires
        w.wf(),
        w.slots < u32::MAX,
        w.mined_world(mined, after),
    ensures
        ({
            let d = (w.slots + 1) as u32;
            &&& after.slots == w.slots + 1
            &&& after.pending is None
            &&& match w.pending {
                None => {
                    &&& after.depth == w.depth && after.board == w.board
                    &&& after.published@ == w.published@ && after.blocks@[d]@.len() == 0
                    &&& after.result == w.result
                },
                Some(p) => {
                    let counts = as_meant(w, p, mined) && mined.opens && p.board is Some;
                    &&& after.blocks@[d]@ == p.bytes@
                    &&& after.published@.contains_key(d) <==> as_meant(w, p, mined)
                    &&& counts ==> after.depth == d && Some(after.board) == p.board
                    &&& !counts ==> after.depth == w.depth && after.board == w.board
                        && after.result == w.result
                    &&& as_meant(w, p, mined) ==> {
                        &&& after.published@[d].mv == p.mv
                        &&& after.published@[d].claimed == p.claimed
                        &&& after.published@[d].signed == mined.opens
                        &&& after.published@[d].board is Some <==> counts
                    }
                },
            }
        }),
{
    let d = (w.slots + 1) as u32;
    assert(!w.published@.contains_key(d));
}

/// A move that ends the game settles who gets what: the winner both stakes, each side
/// its own reserve. A move that does not end it settles nothing.
pub proof fn law_last_move_settles(w: GameWorld, mined: MinedEntry, after: GameWorld, p: Published)
    requires
        w.wf(),
        w.slots < u32::MAX,
        w.mined_world(mined, after),
        w.pending == Some(p),
        as_meant(w, p, mined),
        mined.opens,
        p.board is Some,
    ensures
        (p.board->0).open ==> after.result == w.result,
        !(p.board->0).open ==> {
            &&& after.result matches Some(dist)
            &&& dist@[0] + dist@[1] == 2 * (STAKE + RESERVE)
            &&& dist@[0] - dist@[1] == (match mined.payout {
                Payout::UserAll => 2 * STAKE,
                Payout::HubAll => -2 * STAKE,
                Payout::Even => 0,
            })
        },
{
}

/// The winner of a fold gets both stakes more than the loser; a draw splits them.
pub proof fn law_fold_pays_the_winner()
    ensures
        fold_spec(Payout::UserAll).0 - fold_spec(Payout::UserAll).1 == 2 * STAKE,
        fold_spec(Payout::HubAll).1 - fold_spec(Payout::HubAll).0 == 2 * STAKE,
        fold_spec(Payout::Even).0 == fold_spec(Payout::Even).1,
        fold_spec(Payout::UserAll).1 == RESERVE,
        fold_spec(Payout::HubAll).0 == RESERVE,
{
}

/// What is refused of a mined entry, and why.
pub proof fn law_refused_entries(w: GameWorld, p: Published, mined: MinedEntry)
    ensures
        w.entry_error(p, mined) is None <==> as_meant(w, p, mined),
        !w.stall && mined.prover != mover(w.slots + 1) ==> w.entry_error(p, mined) == Some(
            WorldError::WrongProver,
        ),
        (w.stall || mined.prover == mover(w.slots + 1)) && mined.decoded is None ==> w.entry_error(
            p,
            mined,
        ) == Some(WorldError::Undecodable),
        w.stall && mined.decoded is Some && !as_meant(w, p, mined) ==> w.entry_error(p, mined)
            == Some(WorldError::Mismatch),
{
}

// ----- what a party agrees to -----

/// A party opens a game exactly when the terms are its own and both sides put in
/// stake and reserve; it looks at the terms first.
pub proof fn law_games_are_opened_on_own_terms(
    terms: GameTerms,
    stakes: [u64; 2],
    checkpoint: Seq<u8>,
    btc_open: u32,
    refuse: bool,
    result: Option<[u64; 2]>,
)
    ensures
        ({
            let said = change_spec(
                GameChange::Open { offer: Offer::Game(terms), stakes },
                checkpoint,
                btc_open,
                refuse,
                result,
            );
            let own = terms.checkpoint@ == checkpoint && terms.btc_open == btc_open && terms.grace
                == 1 && terms.game_id == 1;
            let full = stakes@[0] == 65_000 && stakes@[1] == 65_000;
            &&& own && full ==> said == Ok::<Verdict, Refusal>(Verdict::Agree)
            &&& !own ==> said == Err::<Verdict, Refusal>(Refusal::Terms)
            &&& own && !full ==> said == Err::<Verdict, Refusal>(Refusal::Stakes)
        }),
        change_spec(
            GameChange::Open { offer: Offer::UnknownProgram, stakes },
            checkpoint,
            btc_open,
            refuse,
            result,
        ) == Err::<Verdict, Refusal>(Refusal::UnknownProgram),
        change_spec(
            GameChange::Open { offer: Offer::Unreadable, stakes },
            checkpoint,
            btc_open,
            refuse,
            result,
        ) == Err::<Verdict, Refusal>(Refusal::Unreadable),
        change_spec(GameChange::Other, checkpoint, btc_open, refuse, result) == Ok::<
            Verdict,
            Refusal,
        >(Verdict::Default),
{
}

/// A party folds exactly the game's contract, once the game is over, to the venue's
/// result, and only if it is willing.
pub proof fn law_folds_follow_the_result(
    id: u32,
    dist: [u64; 2],
    checkpoint: Seq<u8>,
    btc_open: u32,
    refuse: bool,
    result: Option<[u64; 2]>,
)
    ensures
        ({
            let said = change_spec(
                GameChange::Fold { id, dist },
                checkpoint,
                btc_open,
                refuse,
                result,
            );
            &&& said == Ok::<Verdict, Refusal>(Verdict::Agree) <==> {
                &&& id == 30
                &&& !refuse
                &&& result matches Some(agreed) && agreed@ == dist@
            }
            &&& id != 30 ==> said == Err::<Verdict, Refusal>(Refusal::UnknownContract)
            &&& id == 30 && refuse ==> said == Err::<Verdict, Refusal>(Refusal::Unwilling)
            &&& id == 30 && !refuse && result is None ==> said == Err::<Verdict, Refusal>(
                Refusal::NotOver,
            )
            &&& id == 30 && !refuse && result is Some && !((result->0)@ == dist@) ==> said == Err::<
                Verdict,
                Refusal,
            >(Refusal::WrongResult)
        }),
{
}

/// A refused fold is heard exactly when some line tells of it.
pub proof fn law_rejection_is_heard(lines: Seq<Seq<char>>, line: Seq<char>)
    ensures
        rejection_told(lines.push(line)) <==> rejection_told(lines) || has_text(
            line,
            "rejected by counterparty: I refuse to fold"@,
        ),
        !rejection_told(Seq::<Seq<char>>::empty()),
{
    let all = lines.push(line);
    if rejection_told(lines) {
        let i = choose|i: int|
            0 <= i < lines.len() && has_text(
                #[trigger] lines[i],
                "rejected by counterparty: I refuse to fold"@,
            );
        assert(all[i] == lines[i]);
    }
    assert(all[lines.len() as int] == line);
    if rejection_told(all) {
        let i = choose|i: int|
            0 <= i < all.len() && has_text(
                #[trigger] all[i],
                "rejected by counterparty: I refuse to fold"@,
            );
        if i < lines.len() {
            assert(lines[i] == all[i]);
        }
    }
}

/// The two sides win under different codes.
pub proof fn law_win_codes_differ(r: Role)
    ensures
        win_code(Role::User) == 0,
        win_code(Role::Hub) == 1,
        win_code(r) != win_code(r.opponent()),
{
}

} // verus!
