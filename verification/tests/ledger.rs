//! What the chain shows: recorded transactions, rules and reports.

use lngap::harness::ledger::{
    assert_cross_cutting, balances_account, contract_txs, disproof, heights, merged_txs, narrative,
    party_txs, registry_narrative, role_is, roles_seen, select, settled, summary, venue_narrative,
    Broadcast, Harness, Report, RuleError, SeenTx, TxKind,
};
use lngap::harness::text::{
    contains, contains_char, decimal, join, last_piece, parse_decimal, same_text, starts_with,
    strip_prefix,
};
use lngap::harness::settle::{settle_step, Settle};
use lngap::harness::Role;

fn seen(height: u32, b: u8, role: &str, by: Option<Role>) -> SeenTx {
    SeenTx { height, txid: [b; 32], role: role.to_string(), by }
}

fn sample() -> Vec<SeenTx> {
    vec![
        seen(101, 1, "funding", None),
        seen(110, 2, "commitment_user", Some(Role::User)),
        seen(111, 3, "move_3", Some(Role::User)),
        seen(112, 4, "move_3/move_4", Some(Role::Hub)),
        seen(115, 5, "move_3/split_UserWins", Some(Role::User)),
        seen(116, 6, "claim_to_hub", Some(Role::Hub)),
        seen(116, 7, "external", None),
    ]
}

#[test]
fn blocks_are_recorded_with_their_broadcasters() {
    let mut h = Harness::new([1; 32], 101);
    assert_eq!(h.seen.len(), 1);
    let cast = |b: u8, role: &str| Broadcast { txid: [b; 32], role: role.to_string() };
    h.record_block(
        102,
        &[[9; 32], [2; 32], [3; 32], [4; 32]],
        &[cast(2, "commitment_user")],
        &[cast(3, "settle")],
    );
    // the coinbase is left out, and a stranger's transaction is nobody's
    assert_eq!(h.roles_seen(), vec!["commitment_user", "settle", "external"]);
    assert_eq!(h.party_txs(), vec!["commitment_user", "settle"]);
    assert_eq!(h.seen[2].by, Some(Role::Hub));
    assert_eq!(h.seen[3].by, None);
    assert_eq!(h.assert_signing_rule(), Ok(()));
    h.record_block(103, &[[9; 32], [5; 32]], &[cast(5, "steal")], &[]);
    assert_eq!(h.assert_signing_rule(), Err(4));
}

#[test]
fn roles_have_kinds() {
    assert!(role_is("commitment_hub", TxKind::Commitment));
    assert!(role_is("a/move_3", TxKind::Move));
    assert!(!role_is("move_3/split_Draw", TxKind::Move));
    assert!(role_is("move_3/split_Draw", TxKind::Split));
    assert!(role_is("stall_2", TxKind::Claim));
    assert!(role_is("lie_2", TxKind::Claim));
    assert!(role_is("sig_2", TxKind::Claim));
    assert!(!role_is("stall_2/split_Draw", TxKind::Claim));
    assert!(role_is("disprove_x", TxKind::Disproof));
    assert!(role_is("claim_to_user", TxKind::BalanceSweep));
    let roles = vec!["move_1".to_string(), "settle".to_string(), "x/move_2".to_string()];
    assert_eq!(select(&roles, TxKind::Move), vec!["move_1", "x/move_2"]);
}

#[test]
fn the_chain_is_summed_up() {
    let s = sample();
    assert_eq!(party_txs(&s).len(), 5);
    assert_eq!(contract_txs(&s).len(), 4);
    assert_eq!(roles_seen(&s).len(), 6);
    assert_eq!(heights(&s, &"move_3".to_string()), vec![111]);
    let sum = summary(&s, TxKind::Move);
    assert_eq!(sum.commitments, 1);
    assert_eq!(sum.main, vec!["move_3", "move_3/move_4"]);
    assert_eq!(sum.splits, vec!["move_3/split_UserWins"]);
    assert!(sum.disproofs.is_empty() && sum.other.is_empty());
    assert!(settled(&party_txs(&s)));
    assert!(!settled(&["move_1".to_string()]));
    assert_eq!(disproof(&s), None);
}

#[test]
fn fees_and_balances_make_up_the_funding() {
    let s = sample();
    assert!(balances_account(&s, 100_000, 95_000));
    assert!(!balances_account(&s, 100_000, 95_001));
    let mut h = Harness::new([1; 32], 101);
    assert_eq!(assert_cross_cutting(&h, 100_000, 100_000), Ok(()));
    assert_eq!(assert_cross_cutting(&h, 100_000, 99_000), Err(RuleError::Unbalanced));
    h.seen.push(seen(102, 2, "steal", None));
    assert_eq!(assert_cross_cutting(&h, 100_000, 100_000), Err(RuleError::UnexpectedRole(1)));
}

#[test]
fn reports_tell_what_was_seen() {
    let mut s = sample();
    for i in 0..32 {
        s[0].txid[i] = i as u8;
    }
    let r = Report::from_harness(&s, "A1", "title", "expected", [1, 2], "story".to_string());
    assert_eq!((r.id.as_str(), r.title.as_str(), r.expected.as_str()), ("A1", "title", "expected"));
    assert_eq!(r.txs.len(), 7);
    // a transaction id is shown with its bytes reversed
    assert!(r.txs[0].txid.starts_with("1f1e1d1c") && r.txs[0].txid.ends_with("03020100"));
    assert_eq!(r.txs[0].by, "harness");
    assert_eq!(r.txs[1].by, "user");
    assert_eq!(r.txs[3].by, "hub");
    let text = narrative(&s, &["I move".to_string()], &["I wait".to_string()]);
    assert!(text.starts_with("--- on-chain ---\n"));
    assert!(text.ends_with("--- user ---\nI move\n--- hub ---\nI wait"));
    assert_eq!(venue_narrative(&["a".to_string(), "b".to_string()], "c"), "--- venue ---\na\nb\nc");
    assert_eq!(
        registry_narrative(&["w".to_string()], &["r".to_string()], "A", "B"),
        "--- world ---\nw\n--- registry ---\nr\n=== alice's channel ===\nA\n=== bob's channel ===\nB"
    );
}

#[test]
fn two_channels_are_merged_by_height() {
    let alice = vec![seen(101, 1, "funding", None), seen(120, 2, "settle", Some(Role::User))];
    let bob = vec![
        seen(102, 3, "funding", None),
        seen(110, 4, "commitment_user", Some(Role::Hub)),
        seen(110, 4, "commitment_user", Some(Role::Hub)),
    ];
    let rows = merged_txs(&alice, &bob);
    let shown: Vec<(u32, &str, &str)> =
        rows.iter().map(|r| (r.height, r.role.as_str(), r.by.as_str())).collect();
    println!("{shown:?}");
    let hs: Vec<u32> = rows.iter().map(|r| r.height).collect();
    assert_eq!(hs, vec![101, 102, 110, 120]);
    assert_eq!(rows[0].by, "hub-registry");
}

#[test]
fn texts() {
    assert!(starts_with("abc", "ab") && !starts_with("a", "ab") && starts_with("a", ""));
    assert!(contains("abcd", "bc") && !contains("abcd", "cb") && contains("", ""));
    assert!(contains_char("a/b", '/') && !contains_char("ab", '/'));
    assert_eq!(strip_prefix("ttt:x", "ttt:"), Some("x".to_string()));
    assert_eq!(strip_prefix("x", "ttt:"), None);
    assert_eq!(last_piece("a/b/c", '/'), "c");
    assert_eq!(last_piece("abc", '/'), "abc");
    assert_eq!(join(&["a".to_string(), "b".to_string()], ", "), "a, b");
    assert_eq!(join(&[], ", "), "");
    assert_eq!(decimal(0), "0");
    assert_eq!(decimal(4_294_967_295), "4294967295");
}

#[test]
fn parties_are_polled_until_both_are_idle() {
    assert_eq!(settle_step(0, None, None), Settle::PollUser);
    assert_eq!(settle_step(3, Some(false), None), Settle::Relay);
    assert_eq!(settle_step(3, Some(true), None), Settle::PollHub);
    assert_eq!(settle_step(99, Some(true), Some(false)), Settle::Relay);
    assert_eq!(settle_step(99, Some(true), Some(true)), Settle::Done);
    assert_eq!(settle_step(100, None, None), Settle::GiveUp);
}

#[test]
fn decimal_texts_read_back() {
    for n in [0, 7, 10, 4_294_967_295] {
        assert_eq!(parse_decimal(&decimal(n)), Some(n));
    }
    for text in ["", "00", "+1", "1a", "4294967296", "99999999999999999999999"] {
        assert_eq!(parse_decimal(text), None, "{text}");
    }
    assert!(same_text("req2", "req2") && !same_text("req2", "req") && !same_text("req", "req2"));
}
