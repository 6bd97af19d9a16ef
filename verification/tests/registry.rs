//! The name registries: what the hub accepts and what the parties do.

use lngap::harness::factchain::{self, alice_sells, bond_terms, FcError, FcPromise, FcWorld};
use lngap::harness::names::{
    self, bond_plan, claim_from, omitted, position, program_kind, sale_legs, slot, AnchorPay,
    HubChange, HubRefusal, MinePlan, Moved, NReg, NamesWorld, Opened, Outpoint, ProgramKind,
    ProgramName, Receipt, ReceiptRefusal, ReceiptRow, Served, Who,
};
use lngap::harness::Role;

fn anchor(vout: u32) -> Outpoint {
    Outpoint { txid: [8; 32], vout }
}

fn receipt() -> Receipt {
    Receipt { promised_height: 110, prev_anchor: anchor(1), shape: vec![1, 2, 3], n_headers: 6 }
}

#[test]
fn receipts_name_the_tip_of_the_anchors() {
    let mut w = NamesWorld::new();
    assert_eq!(w.take_receipt(7, receipt(), Some(anchor(0))), Err(ReceiptRefusal::WrongTip));
    let other = Outpoint { txid: [9; 32], vout: 1 };
    assert_eq!(NamesWorld::user_checks_tip(&anchor(1), Some(other)), Err(ReceiptRefusal::WrongTip));
    assert_eq!(w.take_receipt(8, receipt(), None), Err(ReceiptRefusal::BrokenChain));
    assert!(w.receipts.is_empty());
    // the hub issued both, and bonds on them
    for req_id in [7, 8] {
        let bond = HubChange::Open {
            opened: Opened::Registration { req_id, shape: vec![1, 2, 3] },
            stakes: [0, names::BOND],
        };
        assert_eq!(w.hub_policy(false, &bond), Ok(()));
    }
    assert_eq!(w.take_receipt(7, receipt(), Some(anchor(1))), Ok(()));
    assert_eq!(w.receipts[&7].promised_height, 110);
}

#[test]
fn the_hub_bonds_on_its_receipts_only() {
    let mut w = NamesWorld::new();
    w.take_receipt(7, receipt(), Some(anchor(1))).unwrap();
    let open = |req_id: u32, shape: Vec<u8>, stakes: [u64; 2]| HubChange::Open {
        opened: Opened::Registration { req_id, shape },
        stakes,
    };
    let good = [0, names::BOND];
    assert_eq!(w.hub_policy(false, &open(7, vec![1, 2, 3], good)), Ok(()));
    assert_eq!(w.hub_policy(true, &open(7, vec![1, 2, 3], good)), Err(HubRefusal::Veto));
    assert_eq!(w.hub_policy(false, &open(8, vec![1, 2, 3], good)), Err(HubRefusal::NoReceipt(8)));
    assert_eq!(w.hub_policy(false, &open(7, vec![1, 2], good)), Err(HubRefusal::Mismatch));
    assert_eq!(
        w.hub_policy(false, &open(7, vec![1, 2, 3], [0, names::BOND + 1])),
        Err(HubRefusal::BondTerms)
    );
    assert_eq!(
        w.hub_policy(false, &open(7, vec![1, 2, 3], [1, names::BOND])),
        Err(HubRefusal::BondTerms)
    );
    let payment = |hub: u64| HubChange::Open { opened: Opened::Payment, stakes: [40_000, hub] };
    assert_eq!(w.hub_policy(false, &payment(0)), Ok(()));
    assert_eq!(w.hub_policy(false, &payment(1)), Err(HubRefusal::Locked));
    let other = |opened: Opened| HubChange::Open { opened, stakes: [0, 0] };
    assert_eq!(w.hub_policy(false, &other(Opened::Unknown)), Err(HubRefusal::UnknownProgram));
    assert_eq!(w.hub_policy(false, &other(Opened::Unreadable)), Err(HubRefusal::Unreadable));
    let moved = |moved: Moved| HubChange::Move { moved };
    assert_eq!(w.hub_policy(false, &moved(Moved::Missing)), Err(HubRefusal::NoContract));
    assert_eq!(w.hub_policy(false, &moved(Moved::Other)), Ok(()));
    let claim = || moved(Moved::Registration { req_id: 7, slot: slot(7), state: 0 });
    assert_eq!(w.hub_policy(false, &claim()), Ok(()));
    assert_eq!(w.serve_inclusion(7, 120, true), Served::Anchored);
    // the hub refuses what it can answer on-chain, and does answer it
    assert_eq!(w.hub_policy(false, &claim()), Err(HubRefusal::CanProve(7)));
    assert!(w.hub_moves(7, 1));
    assert_eq!(w.hub_policy(false, &HubChange::Other), Ok(()));
}

#[test]
fn the_hub_looks_a_claim_up_by_its_slot() {
    let mut w = NamesWorld::new();
    w.take_receipt(2, receipt(), Some(anchor(1))).unwrap();
    w.serve_inclusion(2, 120, true);
    let claim = |req_id: u32, slot: &str| HubChange::Move {
        moved: Moved::Registration { req_id, slot: slot.to_string(), state: 0 },
    };
    assert_eq!(w.hub_policy(false, &claim(1, "req2")), Err(HubRefusal::CanProve(1)));
    for slot in ["req1", "req02", "req", "req2 ", "2", "req4294967298", "Req2"] {
        assert_eq!(w.hub_policy(false, &claim(2, slot)), Ok(()), "{slot}");
    }
    let claimed = HubChange::Move {
        moved: Moved::Registration { req_id: 2, slot: slot(2), state: 1 },
    };
    assert_eq!(w.hub_policy(false, &claimed), Ok(()));
}

#[test]
fn users_claim_what_is_overdue_and_fold_what_is_anchored() {
    let mut w = NamesWorld::new();
    w.take_receipt(7, receipt(), Some(anchor(1))).unwrap();
    assert_eq!(claim_from(110), 112);
    assert!(!w.user_moves(7, 0, 111, 112));
    assert!(w.user_moves(7, 0, 112, 112));
    assert!(!w.user_folds(7, 0));
    assert!(!w.prover_moves(7, 0));
    w.serve_inclusion(7, 120, true);
    assert!(w.is_anchored(7));
    assert!(!w.user_moves(7, 0, 112, 112));
    assert!(w.user_folds(7, 0));
    assert!(w.prover_moves(7, 0));
    assert_eq!(w.proof_start(7, 120), Some(115));
    assert_eq!(w.proof_start(8, 120), None);
}

#[test]
fn a_fork_is_refuted_once_the_chain_is_longer() {
    let mut w = NamesWorld::new();
    w.fork = true;
    assert_eq!(w.mine_plan(true), MinePlan::Fork);
    assert_eq!(w.mine_plan(false), MinePlan::Plain);
    w.take_receipt(7, receipt(), Some(anchor(1))).unwrap();
    assert_eq!(w.serve_inclusion(7, 120, true), Served::OnFork);
    assert!(!w.is_anchored(7));
    assert_eq!(w.forked.len(), 1);
    assert_eq!(w.refutation_due(0, 120), None);
    assert_eq!(w.refutation_due(0, 121), Some(0));
    assert!(!w.user_moves(7, 2, 121, 112));
    w.serve_refutation(7);
    assert_eq!(w.refutation_due(0, 121), None);
    assert!(w.user_moves(7, 2, 121, 112));
    assert!(w.payer_moves(7, 1));
}

#[test]
fn reveals_follow_anchored_commitments() {
    let mut w = NamesWorld::new();
    w.take_receipt(7, receipt(), Some(anchor(1))).unwrap();
    assert!(!w.reveal_due());
    w.registered(7);
    assert!(!w.reveal_due());
    assert_eq!(w.mine_plan(true), MinePlan::Anchor);
    w.serve_inclusion(7, 120, true);
    assert!(w.reveal_due());
    w.revealed();
    assert!(!w.reveal_due());
}

#[test]
fn contracts_of_the_registry() {
    let plan = bond_plan(Who::Alice, names::ID_BOND, 110, 5);
    assert_eq!((plan.user_stake, plan.hub_stake, plan.deadline), (0, names::BOND, 157));
    assert_eq!(plan.opener, Role::User);
    let legs = sale_legs(140);
    assert_eq!((legs[0].id, legs[0].user_stake, legs[0].hub_stake), (20, names::PRICE, 0));
    assert_eq!((legs[1].id, legs[1].user_stake, legs[1].hub_stake), (21, 0, names::PRICE));
    assert_eq!(slot(12), "req12");
    assert_ne!(slot(1), slot(12));
    let name = NReg { params: "{}".to_string() }.program_name();
    assert_eq!(name, "nreg:{}");
    assert!(matches!(program_kind(&name), ProgramKind::Registration(p) if p == "{}"));
    let name = AnchorPay { params: "x".to_string() }.program_name();
    assert!(matches!(program_kind(&name), ProgramKind::Payment));
    assert!(matches!(program_kind("htlc"), ProgramKind::Unknown));
    let rows = [
        ReceiptRow { req_id: 1, promised_height: 110, anchored: true },
        ReceiptRow { req_id: 2, promised_height: 110, anchored: false },
        ReceiptRow { req_id: 3, promised_height: 111, anchored: false },
    ];
    assert_eq!(omitted(&rows, 110), vec![2]);
    assert_eq!(position(&[[1; 32], [2; 32]], &[2; 32]), Some(1));
    assert_eq!(position(&[[1; 32]], &[2; 32]), None);
}

fn promise(req_id: u32) -> FcPromise {
    FcPromise { req_id, h_max: 200, checkpoint: [5; 20], checkpoint_height: 100, entry: vec![req_id as u8] }
}

#[test]
fn promises_are_checked_and_submitted() {
    let mut w = FcWorld::new(50);
    assert_eq!(factchain::promised_height(100), 200);
    assert_eq!(FcWorld::user_checks_promise(&promise(1), None), Ok(()));
    assert_eq!(FcWorld::user_checks_promise(&promise(1), Some((90, 10))), Ok(()));
    assert_eq!(
        FcWorld::user_checks_promise(&promise(1), Some((90, 9))),
        Err(FcError::OutsideWindow)
    );
    assert_eq!(w.take_promise(promise(1), None), Ok(()));
    assert_eq!(w.pending_entry, Some(vec![1]));
    let (plan, entry) = w.step_plan();
    assert_eq!((plan, entry), (MinePlan::Anchor, Some(vec![1])));
    assert_eq!(w.step_plan().0, MinePlan::Plain);
    w.block_mined();
    assert_eq!(w.fc_height(), 51);
    w.faults.omit_req = Some(2);
    assert_eq!(w.take_promise(promise(2), None), Ok(()));
    assert_eq!(w.pending_entry, None);
    w.faults.no_submit = true;
    assert_eq!(w.take_promise(promise(3), Some((0, 0))), Err(FcError::OutsideWindow));
    assert!(!w.promises.contains_key(&3));
    assert!(w.made.contains_key(&3));
}

#[test]
fn a_promise_that_the_user_refuses_still_binds_the_hub() {
    let mut w = FcWorld::new(50);
    assert_eq!(w.take_promise(promise(3), Some((0, 0))), Err(FcError::OutsideWindow));
    let bond = factchain::HubChange::Open {
        opened: factchain::Opened::Registration(bond_terms(&promise(3))),
        stakes: [0, factchain::BOND],
    };
    assert_eq!(w.hub_policy(false, &bond), Ok(()));
    w.confirm_on_fork(3, 100, 100);
    for _ in 0..60 {
        w.block_mined();
    }
    assert_eq!(w.refutation_due(0), Err(FcError::NoPromise(3)));
}

#[test]
fn the_fact_chain_hub_bonds_on_its_promises_only() {
    let mut w = FcWorld::new(50);
    w.take_promise(promise(1), None).unwrap();
    let terms = bond_terms(&promise(1));
    assert_eq!((terms.claim_from, terms.h_max), (202, 200));
    let open = |opened: factchain::Opened, hub: u64| factchain::HubChange::Open {
        opened,
        stakes: [0, hub],
    };
    let bond = factchain::BOND;
    let on = |req: u32| factchain::Opened::Registration(bond_terms(&promise(req)));
    assert_eq!(w.hub_policy(false, &open(on(1), bond)), Ok(()));
    assert_eq!(
        w.hub_policy(false, &open(on(2), bond)),
        Err(factchain::HubRefusal::NoPromise(2))
    );
    assert_eq!(
        w.hub_policy(false, &open(on(1), bond + 1)),
        Err(factchain::HubRefusal::BondTerms)
    );
    let mut other = promise(1);
    other.h_max = 201;
    let wrong = factchain::Opened::Registration(bond_terms(&other));
    assert_eq!(w.hub_policy(false, &open(wrong, bond)), Err(factchain::HubRefusal::Mismatch));
    let claim = factchain::HubChange::Move {
        moved: factchain::Moved::Registration { req_id: 1, state: 1 },
    };
    assert_eq!(w.hub_policy(false, &claim), Err(factchain::HubRefusal::NotConfirmed));
    w.confirm(&[1]);
    assert_eq!(w.hub_policy(false, &claim), Ok(()));
    assert!(w.is_confirmed(1) && w.user_folds(1) && w.prover_moves(1, 0) && w.hub_moves(1, 1));
    assert!(!w.user_moves(1, 0, 300, 202));
    assert!(w.user_moves(2, 0, 202, 202));
}

#[test]
fn fact_chain_forks_are_refuted() {
    let mut w = FcWorld::new(100);
    w.fork = true;
    w.take_promise(promise(1), None).unwrap();
    assert_eq!(w.step_plan().0, MinePlan::Fork);
    w.confirm_on_fork(1, 100, 103);
    w.confirm_on_fork(1, 100, 103);
    assert_eq!(w.forked.len(), 1);
    assert!(!w.is_confirmed(1));
    for _ in 0..3 {
        w.block_mined();
    }
    assert_eq!(w.refutation_due(0), Ok(None));
    w.block_mined();
    assert_eq!(w.refutation_due(0), Ok(Some(0)));
    w.serve_refutation(1);
    assert_eq!(w.refutation_due(0), Ok(None));
    w.confirm_on_fork(9, 100, 101);
    assert_eq!(w.refutation_due(0), Err(FcError::NoPromise(9)));
}

#[test]
fn a_sale_on_the_fact_chain() {
    let plan = alice_sells(&promise(4), 230, 10);
    assert_eq!((plan.leg1.id, plan.leg2.id, plan.bond.id), (20, 21, 22));
    assert_eq!(plan.leg1_terms.prover, Role::Hub);
    assert_eq!(plan.leg2_terms.prover, Role::User);
    assert_eq!(plan.bond.deadline, 252);
    assert_eq!(plan.leg1.deadline, 230);
    assert_eq!(plan.bond_terms.req_id, 4);
    assert_eq!(factchain::bond_plan(factchain::Who::Bob, 10, 200, 0).deadline, 242);
    assert!(matches!(
        factchain::program_kind("nreg-fc:p"),
        factchain::ProgramKind::Registration(p) if p == "p"
    ));
    assert!(matches!(factchain::program_kind("anchorpay-fc:p"), factchain::ProgramKind::Payment));
    assert_eq!(factchain::slot(3), "req3");
    let mut w = FcWorld::new(0);
    w.registered(1);
    w.confirm(&[1]);
    assert!(w.reveal_due());
    w.revealed();
    assert!(!w.reveal_due());
}
