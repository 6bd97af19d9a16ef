//! Games on the fact chain: what the brains publish, claim and answer.

use lngap::harness::chess::{
    self, chess_deadline, chess_params, garble, ChessBrain, ChessChange, ChessOffer, ChessPlan,
    ChessReaction, ChessTerms, ChessWorld, MinedChess,
};
use lngap::harness::game::{
    self, change_policy, fold_dist, game_deadline, game_params, garbage_sigs, honest, mark,
    tells_rejection, Board, Brain, ClaimKind, EntryFields, GameChange, GameTerms, GameWorld,
    MinedEntry, Offer, Payout, PublishPlan, Published, Reaction, Refusal, SlotOutcome, Verdict,
    Why, WorldError,
};
use lngap::harness::{mover_at, Role};

const LINES: [[usize; 3]; 8] = [
    [0, 1, 2],
    [3, 4, 5],
    [6, 7, 8],
    [0, 3, 6],
    [1, 4, 7],
    [2, 5, 8],
    [0, 4, 8],
    [2, 4, 6],
];

/// The board after a legal move, and what it pays.
fn play(b: &Board, cell: u8, r: Role) -> (Board, Payout) {
    let mut cells = b.cells;
    assert_eq!(cells[cell as usize], 0);
    cells[cell as usize] = mark(r);
    let won = |m: u8| LINES.iter().any(|l| l.iter().all(|&c| cells[c] == m));
    let (open, payout) = if won(1) {
        (false, Payout::UserAll)
    } else if won(2) {
        (false, Payout::HubAll)
    } else {
        (cells.contains(&0), Payout::Even)
    };
    (Board { cells, turn: r.other(), open }, payout)
}

/// One slot: the mover's brain publishes or does not, and the block is mined.
fn slot(w: &mut GameWorld) -> Result<SlotOutcome, WorldError> {
    let d = w.next_slot();
    let r = mover_at(d);
    let mut opens = true;
    let mut payout = Payout::Even;
    match w.publish_step() {
        PublishPlan::Move { cell, garbage } => {
            let (next, pays) = play(&w.board, cell, r);
            payout = pays;
            opens = !garbage;
            w.publish(Published {
                mv: cell,
                state: 1000 + d,
                bytes: vec![d as u8, cell],
                claimed: next,
                signed: true,
                board: Some(next),
            });
        }
        PublishPlan::Invalid { cell, claimed, garbage } => {
            opens = !garbage;
            w.publish(Published {
                mv: cell,
                state: 1000 + d,
                bytes: vec![d as u8, cell],
                claimed,
                signed: true,
                board: None,
            });
        }
        _ => (),
    }
    let decoded = Some(EntryFields { state: 1000 + d, mover: r.idx() as u8, depth: d as u8 });
    w.mine_slot(MinedEntry { prover: r, decoded, opens, payout })
}

/// Slots until a party reacts, or until the given number has passed.
fn until_reaction(w: &mut GameWorld, slots: u32) -> Option<Reaction> {
    for _ in 0..slots {
        slot(w).unwrap();
        let reaction = w.react_step();
        if reaction.is_some() {
            return reaction;
        }
    }
    None
}

#[test]
fn the_reference_game_stays_off_chain() {
    for stall in [false, true] {
        let mut w = GameWorld::new_with(honest(), stall);
        for d in 1..=7u32 {
            let outcome = slot(&mut w).unwrap();
            assert_eq!(
                outcome,
                SlotOutcome::Held { signed: true, valid: true, over: d == 7 },
                "move {d}"
            );
            assert_eq!(w.react_step(), None);
        }
        assert_eq!(w.depth, 7);
        // XOX / OX. / X.O, the user on the diagonal from 2 to 6
        assert_eq!(w.board.cells, [1, 2, 1, 2, 1, 0, 1, 0, 2]);
        assert!(!w.board.open);
        assert_eq!(w.result, Some([115_000, 15_000]));
        assert_eq!(w.fold_policy(Role::User), w.result);
        assert_eq!(w.fold_policy(Role::Hub), w.result);
        // nothing is published once the game is over
        assert!(matches!(w.publish_step(), PublishPlan::Nothing));
        assert_eq!(slot(&mut w), Ok(SlotOutcome::Empty { due: false }));
    }
}

#[test]
fn folds_pay_out_the_stakes_and_return_the_reserves() {
    assert_eq!(fold_dist(Payout::UserAll), [2 * game::STAKE + game::RESERVE, game::RESERVE]);
    assert_eq!(fold_dist(Payout::HubAll), [game::RESERVE, 2 * game::STAKE + game::RESERVE]);
    assert_eq!(
        fold_dist(Payout::Even),
        [game::STAKE + game::RESERVE, game::STAKE + game::RESERVE]
    );
}

#[test]
fn a_stall_is_claimed_at_the_depth_before() {
    let mut brains = honest();
    brains[1].stall_at = Some(4);
    let mut w = GameWorld::new(brains);
    let reaction = until_reaction(&mut w, 10);
    assert_eq!(
        reaction,
        Some(Reaction::Claim { by: Role::User, depth: 3, cell: 0, why: Why::Timeout })
    );
    assert_eq!((w.slots, w.depth), (4, 3));
    // a claim that cannot be queued changes nothing
    assert_eq!(w.queue_claim(6, 0).err(), Some(WorldError::NoMove(5)));
    assert!(!w.escalated);
    assert_eq!(w.react_step(), reaction);
    // once a claim is queued, the venue game is over
    let q = w.queue_claim(3, 0).unwrap();
    assert!(w.escalated);
    assert_eq!(w.react_step(), None);
    assert!(matches!(w.publish_step(), PublishPlan::Nothing));
    assert_eq!(q.kind, ClaimKind::Star);
    assert_eq!(q.mv, vec![false, false, false, false]);
    assert!(q.prior.same(&w.board_before(3).unwrap()));
    assert_eq!(w.board_before(3).unwrap().cells, [0, 2, 0, 0, 1, 0, 0, 0, 0]);
    assert_eq!(w.board_before(5).err(), Some(WorldError::NoMove(4)));

    let mut brains = honest();
    brains[1].stall_at = Some(4);
    let mut w = GameWorld::new_stall(brains);
    assert_eq!(
        until_reaction(&mut w, 10),
        Some(Reaction::Stall { by: Role::User, depth: 3, cell: None, why: Why::Timeout })
    );
    let q = w.queue_stall(3, None).unwrap();
    assert_eq!(q.kind, ClaimKind::Stall);
    assert!(q.new.unwrap().same(&w.board));
    assert_eq!(w.queue_stall(4, None).err(), Some(WorldError::NoMove(4)));
}

#[test]
fn an_invalid_move_is_claimed_or_exhibited() {
    let mut brains = honest();
    brains[1].invalid_at = Some(2);
    let mut w = GameWorld::new(brains);
    slot(&mut w).unwrap();
    // the first taken cell is the user's centre
    assert!(matches!(w.publish_step(), PublishPlan::Invalid { cell: 4, garbage: false, .. }));
    let outcome = slot(&mut w).unwrap();
    assert_eq!(outcome, SlotOutcome::Held { signed: true, valid: false, over: false });
    assert_eq!(
        w.react_step(),
        Some(Reaction::Claim { by: Role::User, depth: 1, cell: 4, why: Why::Timeout })
    );
    assert_eq!(w.board_before(3).err(), Some(WorldError::InvalidMove(2)));

    let mut brains = honest();
    brains[1].invalid_at = Some(2);
    let mut w = GameWorld::new_stall(brains);
    assert_eq!(
        until_reaction(&mut w, 5),
        Some(Reaction::Lie { by: Role::User, depth: 2, why: Why::InvalidMove })
    );
    let q = w.queue_lie(2).unwrap();
    assert_eq!(q.kind, ClaimKind::Lie);
    assert_eq!(q.mv, vec![false, false, true, false]);
    assert_eq!(w.queue_lie(3).err(), Some(WorldError::InvalidMove(2)));
}

#[test]
fn a_liar_pushes_its_own_invalid_move() {
    // on the star graph the liar claims a free cell once the opponent's slot passed
    let mut brains = honest();
    brains[0].passive = true;
    brains[1].invalid_at = Some(2);
    let mut w = GameWorld::new(brains);
    assert_eq!(
        until_reaction(&mut w, 5),
        Some(Reaction::Claim { by: Role::Hub, depth: 2, cell: 0, why: Why::OwnInvalid })
    );
    assert_eq!(w.slots, 3);

    let mut brains = honest();
    brains[0].no_exhibit = true;
    brains[1].invalid_at = Some(2);
    brains[1].claim_own_invalid = true;
    let mut w = GameWorld::new_stall(brains);
    assert_eq!(
        until_reaction(&mut w, 5),
        Some(Reaction::Stall { by: Role::Hub, depth: 2, cell: None, why: Why::OwnInvalid })
    );
}

#[test]
fn garbage_signatures_are_exhibited() {
    let mut brains = honest();
    brains[1].garbage_at = Some(2);
    let mut w = GameWorld::new_stall(brains);
    assert_eq!(
        until_reaction(&mut w, 5),
        Some(Reaction::Sig { by: Role::User, depth: 2, why: Why::GarbageSigned })
    );
    // a soundly signed entry cannot be exhibited, and changes nothing
    assert_eq!(
        w.queue_sig(Role::User, 1, false, None).err(),
        Some(WorldError::SoundlySigned(1))
    );
    assert_eq!(w.queue_sig(Role::User, 5, true, None).err(), Some(WorldError::NoMove(5)));
    assert!(!w.escalated);
    let (q, bit) = w.queue_sig(Role::User, 2, false, Some((6, true))).unwrap();
    assert_eq!((q.kind, q.code), (ClaimKind::Sig, Some(0)));
    assert_eq!(bit, (6, true));
    assert!(w.escalated);
    // a fabricated exhibit shows bit 0 of the claimed state, here 1001 and 1002
    let (q, bit) = w.queue_sig(Role::Hub, 1, true, None).unwrap();
    assert_eq!((q.code, bit), (Some(1), (0, true)));
    assert_eq!(w.queue_sig(Role::Hub, 2, true, Some((3, true))).unwrap().1, (0, false));
    let sigs = garbage_sigs(3);
    assert_eq!(sigs, vec![[0xEE; 20], [0xEF; 20], [0xEC; 20]]);
}

#[test]
fn baseless_reactions_are_scripted() {
    let mut brains = honest();
    brains[0].fabricate_at = Some(3);
    brains[1].passive = true;
    let mut w = GameWorld::new(brains);
    assert_eq!(
        until_reaction(&mut w, 5),
        Some(Reaction::Claim { by: Role::User, depth: 3, cell: 0, why: Why::Fabricated })
    );

    let mut brains = honest();
    brains[0].ignore_at = Some(4);
    let mut w = GameWorld::new(brains);
    assert_eq!(
        until_reaction(&mut w, 5),
        Some(Reaction::Claim { by: Role::User, depth: 3, cell: 0, why: Why::Ignored })
    );
    // the hub answers from the state that the user's move left: with its own move
    let state = w.board_before(4).unwrap();
    assert_eq!(w.answer(Role::Hub, &state), Some(8));
    assert_eq!(w.answer(Role::User, &state), None);

    let mut brains = honest();
    brains[0].frame_at = Some(2);
    let mut w = GameWorld::new_stall(brains);
    assert_eq!(
        until_reaction(&mut w, 5),
        Some(Reaction::Lie { by: Role::User, depth: 2, why: Why::Framed })
    );

    let mut brains = honest();
    brains[0].fabricate_sig_at = Some(2);
    let mut w = GameWorld::new_stall(brains);
    assert_eq!(
        until_reaction(&mut w, 5),
        Some(Reaction::Sig { by: Role::User, depth: 2, why: Why::FabricatedSig })
    );
}

#[test]
fn a_refused_fold_is_claimed_by_the_last_mover() {
    let mut brains = honest();
    brains[1].refuse_fold = true;
    let mut w = GameWorld::new(brains);
    assert_eq!(until_reaction(&mut w, 7), None);
    assert_eq!(w.fold_policy(Role::Hub), None);
    let told = vec!["fold rejected by counterparty: I refuse to fold".to_string()];
    assert!(tells_rejection(&told));
    assert!(!tells_rejection(&["all is well".to_string()]));
    w.hear(&[], &[]);
    assert!(!w.fold_rejected);
    w.hear(&told, &[]);
    assert!(w.fold_rejected);
    assert_eq!(
        w.react_step(),
        Some(Reaction::Claim { by: Role::User, depth: 7, cell: 2, why: Why::FoldRefused })
    );
}

#[test]
fn the_hub_pays_for_its_faults() {
    // what each fault of the hub's leads to, on the star graph and on the stall graph
    let run = |stall: bool, fault: &dyn Fn(&mut [Brain; 2])| {
        let mut b = honest();
        fault(&mut b);
        let mut w = GameWorld::new_with(b, stall);
        until_reaction(&mut w, 9)
    };
    let claim = |by: Role, depth: u32, cell: u8, why: Why| {
        Some(Reaction::Claim { by, depth, cell, why })
    };
    let stalled = |by: Role, depth: u32, cell: Option<u8>, why: Why| {
        Some(Reaction::Stall { by, depth, cell, why })
    };
    assert_eq!(run(false, &|b| b[1].stall_at = Some(2)), claim(Role::User, 1, 4, Why::Timeout));
    assert_eq!(run(false, &|b| b[1].stall_at = Some(6)), claim(Role::User, 5, 6, Why::Timeout));
    assert_eq!(run(true, &|b| b[1].stall_at = Some(6)), stalled(Role::User, 5, None, Why::Timeout));
    assert_eq!(run(false, &|b| b[1].ignore_at = Some(3)), claim(Role::Hub, 2, 1, Why::Ignored));
    assert_eq!(run(true, &|b| b[1].ignore_at = Some(3)), stalled(Role::Hub, 2, None, Why::Ignored));
    let fabricates = |b: &mut [Brain; 2]| {
        b[0].passive = true;
        b[1].fabricate_at = Some(4);
    };
    assert_eq!(run(false, &fabricates), claim(Role::Hub, 4, 8, Why::Fabricated));
    assert_eq!(run(true, &fabricates), stalled(Role::Hub, 4, Some(8), Why::Fabricated));
    assert_eq!(run(false, &|b| b[1].garbage_at = Some(4)), claim(Role::User, 3, 0, Why::Timeout));
    assert_eq!(
        run(true, &|b| b[1].invalid_at = Some(2)),
        Some(Reaction::Lie { by: Role::User, depth: 2, why: Why::InvalidMove })
    );
}

#[test]
fn garbage_answers_a_claim_only_where_it_is_scripted() {
    for refutes in [false, true] {
        let mut b = honest();
        b[1].garbage_at = Some(4);
        b[1].refute_with_garbage = refutes;
        let mut w = GameWorld::new(b);
        assert!(until_reaction(&mut w, 9).is_some());
        let state = w.board_before(4).unwrap();
        assert_eq!(w.answer(Role::Hub, &state), if refutes { Some(8) } else { None });
    }
}

#[test]
fn mined_entries_must_be_the_meant_ones() {
    let fields = EntryFields { state: 5, mover: 0, depth: 1 };
    let start = |stall: bool| {
        let mut w = GameWorld::new_with(honest(), stall);
        let (next, _) = play(&w.board, 4, Role::User);
        w.publish(Published {
            mv: 4,
            state: 5,
            bytes: vec![1],
            claimed: next,
            signed: true,
            board: Some(next),
        });
        w
    };
    let mined = |prover: Role, decoded: Option<EntryFields>| MinedEntry {
        prover,
        decoded,
        opens: true,
        payout: Payout::Even,
    };
    let mut w = start(false);
    assert_eq!(w.mine_slot(mined(Role::Hub, Some(fields))), Err(WorldError::WrongProver));
    let mut w = start(true);
    assert!(w.mine_slot(mined(Role::Hub, Some(fields))).is_ok());
    let mut w = start(false);
    assert_eq!(w.mine_slot(mined(Role::User, None)), Err(WorldError::Undecodable));
    let mut w = start(false);
    let other = EntryFields { state: 6, ..fields };
    assert_eq!(w.mine_slot(mined(Role::User, Some(other))), Err(WorldError::Mismatch));
    // the block still carries what was handed in
    assert_eq!(w.blocks[&1], vec![1]);
    assert_eq!(w.depth, 0);
}

#[test]
fn a_brain_without_moves_stalls() {
    let mut w = GameWorld::new([Brain::default(), Brain::playing(vec![1])]);
    assert!(matches!(w.publish_step(), PublishPlan::NoMove));
    assert_eq!(slot(&mut w), Ok(SlotOutcome::Empty { due: true }));
    // nobody claims before the first move
    assert_eq!(w.react_step(), None);
}

#[test]
fn parties_agree_to_their_own_terms_only() {
    let checkpoint = [3u8; 20];
    let terms = GameTerms { game_id: game::GAME_ID, checkpoint, btc_open: 120, grace: game::GRACE };
    let stakes = [game::STAKE + game::RESERVE; 2];
    let say = |offer: Offer, stakes: [u64; 2]| {
        change_policy(&GameChange::Open { offer, stakes }, &checkpoint, 120, false, None)
    };
    assert_eq!(say(Offer::Game(terms), stakes), Ok(Verdict::Agree));
    let late = GameTerms { game_id: game::GAME_ID, checkpoint, btc_open: 121, grace: game::GRACE };
    assert_eq!(say(Offer::Game(late), stakes), Err(Refusal::Terms));
    let terms = GameTerms { game_id: game::GAME_ID, checkpoint, btc_open: 120, grace: game::GRACE };
    assert_eq!(say(Offer::Game(terms), [stakes[0], 0]), Err(Refusal::Stakes));
    assert_eq!(say(Offer::Unreadable, stakes), Err(Refusal::Unreadable));
    assert_eq!(say(Offer::UnknownProgram, stakes), Err(Refusal::UnknownProgram));

    let fold = |id: u32, dist: [u64; 2], refuse: bool, result: Option<[u64; 2]>| {
        change_policy(&GameChange::Fold { id, dist }, &checkpoint, 120, refuse, result)
    };
    let dist = fold_dist(Payout::UserAll);
    assert_eq!(fold(game::ID_GAME, dist, false, Some(dist)), Ok(Verdict::Agree));
    assert_eq!(fold(1, dist, false, Some(dist)), Err(Refusal::UnknownContract));
    assert_eq!(fold(game::ID_GAME, dist, true, Some(dist)), Err(Refusal::Unwilling));
    assert_eq!(fold(game::ID_GAME, dist, false, None), Err(Refusal::NotOver));
    assert_eq!(fold(game::ID_GAME, [1, 2], false, Some(dist)), Err(Refusal::WrongResult));
    assert_eq!(
        change_policy(&GameChange::Other, &checkpoint, 120, true, None),
        Ok(Verdict::Default)
    );
    assert_eq!(game_params("ttt-fc:{}"), Some("{}".to_string()));
    assert_eq!(game_params("chess-fc:{}"), None);
    assert_eq!(game_deadline(100), 131);
}

#[test]
fn movers_alternate() {
    assert_eq!(mover_at(1), Role::User);
    assert_eq!(mover_at(2), Role::Hub);
    assert_eq!(mover_at(9), Role::User);
    assert_eq!(Role::User.other(), Role::Hub);
    assert_eq!((Role::User.idx(), Role::Hub.idx()), (0, 1));
    assert_eq!((Role::User.name(), Role::Hub.name()), ("user", "hub"));
}

// ----- chess -----

fn chess_slot(w: &mut ChessWorld) -> Result<SlotOutcome, WorldError> {
    let d = w.next_slot();
    let mut opens = true;
    if let ChessPlan::Move { legal, garbage, .. } = w.publish_step() {
        let claimed = [d as u8; 40];
        opens = !garbage;
        w.publish(chess::Published {
            claimed,
            bytes: vec![d as u8],
            signed: true,
            state: if legal { Some(claimed) } else { None },
        });
    }
    let decoded = Some(EntryFields { state: 0, mover: mover_at(d).idx() as u8, depth: d as u8 });
    w.mine_slot(MinedChess { decoded, opens })
}

fn until_chess_reaction(w: &mut ChessWorld, slots: u32) -> Option<ChessReaction> {
    for _ in 0..slots {
        chess_slot(w).unwrap();
        let reaction = w.react_step();
        if reaction.is_some() {
            return reaction;
        }
    }
    None
}

#[test]
fn a_game_of_chess_ends_with_the_resignation() {
    let mut w = ChessWorld::new(chess::honest(), [0; 40], 6);
    assert!(matches!(
        w.publish_step(),
        ChessPlan::Move { uci: "e2e4", legal: true, garbage: false }
    ));
    for d in 1..=6u32 {
        let outcome = chess_slot(&mut w).unwrap();
        assert_eq!(outcome, SlotOutcome::Held { signed: true, valid: true, over: d == 6 });
        assert!(w.react_step().is_none());
    }
    assert_eq!(w.state, [6; 40]);
    assert_eq!(w.fold_policy(Role::User), w.result);
    assert_eq!(w.result, Some([2 * chess::STAKE + chess::RESERVE, chess::RESERVE]));
    assert_eq!(w.state_before(1).unwrap(), [0; 40]);
    assert_eq!(w.state_before(3).unwrap(), [2; 40]);
}

#[test]
fn chess_faults_are_answered() {
    let brains = |f: &dyn Fn(&mut [ChessBrain; 2])| {
        let mut b = chess::honest();
        f(&mut b);
        ChessWorld::new(b, [0; 40], 6)
    };
    let mut w = brains(&|b| b[1].stall_at = Some(2));
    assert!(matches!(
        until_chess_reaction(&mut w, 5),
        Some(ChessReaction::Stall { by: Role::User, depth: 1, uci: None, why: Why::Timeout })
    ));
    assert!(w.queue_stall(4, None).is_err() && !w.escalated);
    let q = w.queue_stall(1, None).unwrap();
    assert_eq!((q.prior, q.new), ([0; 40], Some([1; 40])));
    assert!(w.escalated && w.react_step().is_none());

    let mut w = brains(&|b| b[1].illegal_at = Some((2, "e7e4")));
    assert!(matches!(
        until_chess_reaction(&mut w, 5),
        Some(ChessReaction::Lie { by: Role::User, depth: 2, why: Why::InvalidMove })
    ));
    assert_eq!(w.queue_lie(2).unwrap().new, Some([2; 40]));
    assert!(w.queue_lie(4).is_err());

    let mut w = brains(&|b| b[1].garbage_sig_at = Some(2));
    assert!(matches!(
        until_chess_reaction(&mut w, 5),
        Some(ChessReaction::Sig { by: Role::User, depth: 2, why: Why::GarbageSigned })
    ));
    assert!(w.queue_sig(Role::User, 2, false, true, None).is_err() && !w.escalated);
    let (q, bit) = w.queue_sig(Role::User, 2, false, true, Some((9, false))).unwrap();
    assert_eq!((q.code, bit), (Some(0), (9, false)));
    assert_eq!(w.queue_sig(Role::User, 2, true, true, None).unwrap().1, (0, true));
    assert!(w.escalated);

    let mut w = brains(&|b| {
        b[0].fabricate_at = Some(3);
        b[1].passive = true;
    });
    assert!(matches!(
        until_chess_reaction(&mut w, 5),
        Some(ChessReaction::Stall {
            by: Role::User,
            depth: 3,
            uci: Some("g1f3"),
            why: Why::Fabricated
        })
    ));
    let q = w.queue_stall(3, Some([9; 40])).unwrap();
    assert_eq!((q.prior, q.new), ([2; 40], Some([9; 40])));
}

#[test]
fn one_preimage_is_garbled() {
    let mut sigs = vec![[1u8; 20]; 10];
    garble(&mut sigs);
    for (i, s) in sigs.iter().enumerate() {
        assert_eq!(*s, if i == chess::GARBAGE_BIT { [0xEE; 20] } else { [1; 20] });
    }
}

#[test]
fn chess_terms() {
    let checkpoint = [4u8; 20];
    let stakes = [chess::STAKE + chess::RESERVE; 2];
    let offer = |game_id: u16, w_max: u64| ChessChange::Open {
        offer: ChessOffer::Game(ChessTerms { game_id, checkpoint, w_max }),
        stakes,
    };
    let say = |c: &ChessChange| chess::change_policy(c, &checkpoint, false, None);
    assert_eq!(say(&offer(chess::CHESS_ID, u64::from(chess::W_MAX))), Ok(Verdict::Agree));
    assert_eq!(say(&offer(chess::CHESS_ID, 21)), Err(Refusal::Terms));
    assert_eq!(say(&offer(9, u64::from(chess::W_MAX))), Err(Refusal::Terms));
    let fold = ChessChange::Fold { id: chess::ID_CHESS, dist: [1, 2] };
    assert_eq!(say(&fold), Err(Refusal::NotOver));
    assert_eq!(
        chess::change_policy(&fold, &checkpoint, false, Some([1, 2])),
        Ok(Verdict::Agree)
    );
    assert_eq!(chess_params("chess-fc:abc"), Some("abc".to_string()));
    assert_eq!(chess_deadline(100), 180);
}
