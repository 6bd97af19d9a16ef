//! The venue of members: sealing, flags, labels, fees.

use std::collections::HashMap;

use lngap::harness::fee::{
    self, advance, claim_consistent, expiry, payee_policy, payer_policy, slot_after, BlockTx,
    ChannelContract, ChannelView, Expected, FeeRefusal, Lock, SealedHead, FEE, HUB_MEMBER, SLOT,
};
use lngap::harness::game::{honest, Board, EntryFields};
use lngap::harness::ledger::Broadcast;
use lngap::harness::pos::{
    member_seeds, members, PosEntry, PosPlan, PosWorld, SealError, SealOutcome, SealedEntry,
};
use lngap::harness::pos_game::{
    checked_split_at, collect_flags, entry_msg, equivocation, graph_len, head_state, open_clock,
    pair_message, roles, scriptnum, spend_rows, split_spender, timeout_split_at,
    timeout_split_witness, total_vsize, EquivError,
    OpenError, OpenFacts, PosGame, SealFault, Sealing, Suite,
};
use lngap::harness::pos_labels::{
    absent_label, choose_disproof, counter_label, disprove_label, equiv_bit_label, equiv_label,
    exhibit_label, find_label, refute_label, split_label,
};
use lngap::harness::Role;
use lngap::lamport::SecretKey;

fn facts(suite: Suite) -> OpenFacts {
    OpenFacts {
        threshold: 3,
        members: 5,
        keys_agree: true,
        height: 100,
        funded_height: 101,
        graph_len: graph_len(suite),
    }
}

#[test]
fn games_open_with_the_wired_graph() {
    assert_eq!(graph_len(Suite::TicTacToe), 282);
    assert_eq!(graph_len(Suite::Chess), 129);
    assert_eq!(open_clock(100), (101, 501));
    for suite in [Suite::TicTacToe, Suite::Chess] {
        let g = PosGame::open(suite, facts(suite)).ok().unwrap();
        assert_eq!((g.btc_open, g.depth, g.next_slot), (101, 0, 1));
    }
    let mut f = facts(Suite::Chess);
    f.members = 4;
    assert_eq!(PosGame::open(Suite::Chess, f).err(), Some(OpenError::Roster));
    let mut f = facts(Suite::TicTacToe);
    f.keys_agree = false;
    assert_eq!(PosGame::open(Suite::TicTacToe, f).err(), Some(OpenError::KeysDiffer));
    let mut f = facts(Suite::TicTacToe);
    f.funded_height = 102;
    assert_eq!(PosGame::open(Suite::TicTacToe, f).err(), Some(OpenError::Funding));
    let mut f = facts(Suite::TicTacToe);
    f.graph_len = 281;
    assert_eq!(PosGame::open(Suite::TicTacToe, f).err(), Some(OpenError::Graph));
}

#[test]
fn members_flag_the_slots_that_passed_empty() {
    let mut g = PosGame::open(Suite::TicTacToe, facts(Suite::TicTacToe)).ok().unwrap();
    assert_eq!(g.seal(Some(true), false), Ok(Sealing::Moved));
    assert_eq!(g.seal(None, false), Ok(Sealing::Empty));
    assert_eq!(g.seal(Some(true), true), Ok(Sealing::Silent { lost: true }));
    assert_eq!(g.seal(Some(false), false), Err(SealFault::BadSignature));
    g.seal_void();
    assert_eq!((g.depth, g.next_slot), (1, 6));
    // slot s has passed once the height is above that at which it seals
    assert_eq!(g.tick(103), vec![] as Vec<u32>);
    assert_eq!(g.tick(104), vec![2]);
    assert_eq!(g.tick(106), vec![3, 4]);
    assert_eq!(g.tick(200), vec![] as Vec<u32>);
    assert!(g.late_allowed(2, 104));
    assert!(!g.late_allowed(2, 103));
    assert!(!g.late_allowed(1, 200));
    g.seal_late(2);
    assert_eq!(g.depth, 2);
    assert!(!g.late_allowed(2, 200));
    assert_eq!(g.mature_at(150, 10), 150);
    assert_eq!(g.mature_at(105, 10), 111);
    assert_eq!(timeout_split_at(100, 6), 107);
    assert_eq!(checked_split_at(100, 6, 3), 110);
}

#[test]
fn flags_are_held_back_beyond_a_number() {
    let f = |b: u8| Some([b; 32]);
    let flags = [f(1), None, f(2), f(3)];
    assert_eq!(collect_flags(&flags, None), (vec![f(1), None, f(2), f(3)], 3));
    assert_eq!(collect_flags(&flags, Some(2)), (vec![f(1), None, f(2), None], 2));
    assert_eq!(collect_flags(&flags, Some(0)), (vec![None; 4], 0));
}

#[test]
fn a_double_signature_is_evidence() {
    let sk = SecretKey::from_entropy(4, [1; 32]);
    let key = sk.public();
    let (a, b) = ([true, false, true, false], [true, true, false, false]);
    let (ra, rb) = (sk.reveal_bits(&a).unwrap(), sk.reveal_bits(&b).unwrap());
    let (i, p0, p1) = equivocation(&a, &ra, &b, &rb, &key).unwrap();
    assert_eq!((i, p0, p1), (1, sk.bits[1].p0, sk.bits[1].p1));
    // whichever state comes first, the preimage of 0 does
    assert_eq!(equivocation(&b, &rb, &a, &ra, &key).unwrap(), (1, p0, p1));
    assert_eq!(equivocation(&a, &ra, &a, &ra, &key), Err(EquivError::SameState));
    let mut bad = rb.clone();
    bad.preimages[1] = [0; 20];
    assert_eq!(equivocation(&a, &ra, &b, &bad, &key), Err(EquivError::NotOpened(1)));
}

#[test]
fn splits_are_spent_by_their_side() {
    assert_eq!(split_spender(3, true), Role::User);
    assert_eq!(split_spender(3, false), Role::Hub);
    let sk = SecretKey::from_entropy(2, [7; 32]);
    let code = sk.reveal_uint(1).unwrap();
    let items = timeout_split_witness(&code, vec![1; 64], vec![2; 64]);
    // the preimages in reversed consumption order, then the signatures
    let mut want: Vec<Vec<u8>> = code.consumption_order();
    want.reverse();
    want.push(vec![1; 64]);
    want.push(vec![2; 64]);
    assert_eq!(items, want);
}

#[test]
fn messages_of_the_venue() {
    let msg = entry_msg(&[7; 40], 0x1234);
    assert_eq!(msg.len(), 42);
    assert_eq!(msg[40..], [0x34, 0x12]);
    let mut pair = vec![1u8; 48];
    pair.extend([2u8; 48]);
    assert_eq!(pair_message(&[1; 48], &[2; 48]), pair);
    let mut head = [0u8; 48];
    head[5..8].copy_from_slice(&[1, 2, 3]);
    assert_eq!(head_state(&head), 0x010203);
    assert_eq!(scriptnum(0), vec![] as Vec<u8>);
    assert_eq!(scriptnum(5), vec![5]);
}

#[test]
fn labels_of_the_graph() {
    assert_eq!(absent_label(10), "absent_10");
    assert_eq!(refute_label("absent_3"), "absent_3/refute");
    assert_eq!(counter_label(3), "absent_3/counter");
    assert_eq!(exhibit_label(4), "exhibit_4");
    assert_eq!(equiv_label(5), "equiv_5");
    assert_eq!(equiv_bit_label(5, 21), "equiv_5_21");
    assert_eq!(disprove_label("x"), "disprove_x");
    assert_eq!(split_label("absent_3", 0), "absent_3/split_UserWins");
    assert_eq!(split_label("absent_3", 1), "absent_3/split_HubWins");
    assert_eq!(split_label("absent_3", 2), "absent_3/split_Draw");
    let labels: Vec<String> = (0..12).map(absent_label).collect();
    assert_eq!(find_label(&labels, &absent_label(11)), Some(11));
    assert_eq!(find_label(&labels, &absent_label(12)), None);
    let firing = ["a".to_string(), "b".to_string()];
    assert_eq!(choose_disproof(&firing, &"b".to_string()), Some("b".to_string()));
    assert_eq!(choose_disproof(&firing, &"c".to_string()), Some("a".to_string()));
    assert_eq!(choose_disproof(&[], &"c".to_string()), None);
}

#[test]
fn moves_are_sealed_slot_by_slot() {
    assert_eq!(member_seeds(3, 2), vec![[3; 32], [4; 32]]);
    assert_eq!(members().len(), 5);
    assert_eq!(members()[4], [0x5E; 32]);
    assert_eq!(PosWorld::coming_slot(105, 101), 4);
    let mut w = PosWorld::new(honest());
    assert!(matches!(w.publish_step(), PosPlan::Move { cell: 4 }));
    let mut next = Board::empty();
    next.cells[4] = 1;
    next.turn = Role::Hub;
    let sealed = |same: bool, opens: bool, next: Option<Board>| SealedEntry {
        decoded: Some(EntryFields { state: 0, mover: 0, depth: 1 }),
        same,
        opens,
        next,
    };
    assert_eq!(w.seal_step(1, sealed(true, true, Some(next))), Ok(SealOutcome::Empty));
    w.publish(PosEntry { mv: 4, bytes: vec![9] });
    assert_eq!(w.seal_step(1, sealed(false, true, Some(next))), Err(SealError::Mismatch));
    w.publish(PosEntry { mv: 4, bytes: vec![9] });
    assert_eq!(w.seal_step(1, sealed(true, false, Some(next))), Err(SealError::BadSignature));
    w.publish(PosEntry { mv: 4, bytes: vec![9] });
    assert_eq!(w.seal_step(1, sealed(true, true, None)), Err(SealError::Illegal));
    w.publish(PosEntry { mv: 4, bytes: vec![9] });
    let mut garbled = sealed(true, true, Some(next));
    garbled.decoded = None;
    assert_eq!(w.seal_step(1, garbled), Err(SealError::Undecodable));
    w.publish(PosEntry { mv: 4, bytes: vec![9] });
    assert_eq!(w.seal_step(1, sealed(true, true, Some(next))), Ok(SealOutcome::Moved));
    assert_eq!((w.depth, w.blocks[&1].clone()), (1, vec![9]));
    assert!(matches!(w.publish_step(), PosPlan::Move { cell: 1 }));
}

fn lock(payer: Role, value: u64, point: u8, settles: bool) -> Lock {
    Lock { payer, value, point: vec![point; 33], refunded: [100_000, 100_000], settles }
}

fn view(balances: [u64; 2], contracts: Vec<(u32, Option<Lock>)>) -> ChannelView {
    ChannelView {
        balances,
        contracts: contracts.into_iter().map(|(id, lock)| ChannelContract { id, lock }).collect(),
    }
}

#[test]
fn the_payer_pays_for_the_secret_only() {
    let locked = |settles: bool| view([95_000, 100_000], vec![(1, Some(lock(Role::User, FEE, 1, settles)))]);
    // the lock stays
    assert_eq!(payer_policy(&locked(false), &locked(false)), Ok(()));
    // the secret was handed over, and the hub is paid
    assert_eq!(payer_policy(&locked(true), &view([95_000, 105_000], vec![])), Ok(()));
    assert_eq!(
        payer_policy(&locked(false), &view([95_000, 105_000], vec![])),
        Err(FeeRefusal::NotSettled(1))
    );
    // a refund returns exactly the lock
    assert_eq!(payer_policy(&locked(false), &view([100_000, 100_000], vec![])), Ok(()));
    assert_eq!(
        payer_policy(&view([1, 1], vec![(4, None)]), &view([1, 1], vec![])),
        Err(FeeRefusal::NotALock(4))
    );
}

#[test]
fn the_payee_locks_over_what_was_handed_in() {
    let mut expected = HashMap::new();
    expected.insert(1, Expected { slot: SLOT, point: vec![1; 33] });
    let before = view([100_000, 100_000], vec![]);
    let with = |id: u32, l: Option<Lock>| view([95_000, 100_000], vec![(id, l)]);
    let say = |after: &ChannelView| payee_policy(&expected, &before, after);
    assert_eq!(say(&with(1, Some(lock(Role::User, FEE, 1, false)))), Ok(()));
    assert_eq!(
        say(&with(2, Some(lock(Role::User, FEE, 1, false)))),
        Err(FeeRefusal::NothingHandedIn(2))
    );
    assert_eq!(
        say(&with(1, Some(lock(Role::User, FEE - 1, 1, false)))),
        Err(FeeRefusal::Terms(1))
    );
    assert_eq!(
        say(&with(1, Some(lock(Role::Hub, FEE, 1, false)))),
        Err(FeeRefusal::Terms(1))
    );
    assert_eq!(
        say(&with(1, Some(lock(Role::User, FEE, 2, false)))),
        Err(FeeRefusal::WrongHead(1))
    );
    assert_eq!(say(&with(1, None)), Err(FeeRefusal::NotALock(1)));
}

#[test]
fn heads_and_slots() {
    assert_eq!(fee::members(), member_seeds(0x77, 5));
    assert_eq!(expiry(100), 120);
    assert_eq!(slot_after(3), 4);
    let sealed = |proposer: u32, b: u8| Some(SealedHead { proposer, head: [b; 48] });
    assert!(claim_consistent(sealed(HUB_MEMBER, 1), &[1; 48]));
    assert!(!claim_consistent(sealed(0, 1), &[1; 48]));
    assert!(!claim_consistent(sealed(HUB_MEMBER, 2), &[1; 48]));
    assert!(!claim_consistent(None, &[1; 48]));
}

#[test]
fn spends_are_recorded() {
    let mut seen = vec![];
    let tx = |b: u8, vsize: u32| BlockTx { txid: [b; 32], vsize };
    let cast = |b: u8, role: &str| Broadcast { txid: [b; 32], role: role.to_string() };
    advance(
        &mut seen,
        110,
        &[tx(0, 1), tx(1, 150), tx(2, 250), tx(3, 10)],
        &[cast(1, "absent_3")],
        &[cast(2, "absent_3/refute"), cast(0, "coinbase")],
    );
    assert_eq!(roles(&seen), vec!["absent_3", "absent_3/refute"]);
    assert_eq!(total_vsize(&seen), 400);
    let rows = spend_rows(&seen);
    assert_eq!((rows[1].height, rows[1].by.as_str()), (110, "hub"));
    assert_eq!(rows[1].txid, "02".repeat(32));
}
