//! Reading leaf scripts and witnesses.

use lngap::decode::gadgets::{parse_gadgets, push_label, Gadget, Label, WotsBlock};
use lngap::decode::instructions::{instructions, push20, push_num};
use lngap::decode::roles::{role_of, scenario_roles};
use lngap::decode::text::hex4;
use lngap::decode::witness::{
    decode_witness, is_witness_sized, resolve_wots, Arg, BitRun, WitnessReport,
};
use lngap::lamport::gadgets::LamportExt;
use lngap::lamport::winternitz::{WotsExt, WotsParams, WotsSecret};
use lngap::lamport::SecretKey;
use lngap::script::{Item, ScriptBuilder};

fn control(depth: usize) -> Vec<u8> {
    let mut c = vec![0u8; 33 + 32 * depth];
    c[0] = 0xc0;
    c
}

#[test]
fn scripts_read_back() {
    let script = ScriptBuilder::new()
        .push_int(5)
        .push_int(-1)
        .push_int(300)
        .push_int(0)
        .push_bytes(&[9u8; 20])
        .push_opcode(0x76)
        .into_script();
    let items = instructions(&script);
    assert_eq!(items.len(), 6);
    assert_eq!(push_num(&items[0]), Some(5));
    assert_eq!(push_num(&items[2]), Some(300));
    assert_eq!(push_num(&items[3]), Some(0));
    assert_eq!(push20(&items[4]), Some([9u8; 20]));
    assert_eq!(push_num(&items[4]), None);
    assert_eq!(push20(&items[2]), None);
    assert!(matches!(items[5], Item::Op(0x76)));
    assert_eq!(push_num(&items[5]), None);
    // a push that runs past the end ends the reading
    assert_eq!(instructions(&[0x76, 0x05, 0x01]).len(), 1);
    assert_eq!(instructions(&[]).len(), 0);
}

#[test]
fn bytes_in_short_hexadecimal() {
    assert_eq!(hex4(&[0xde, 0xad, 0xbe, 0xef, 0x01]), "deadbeef");
    assert_eq!(hex4(&[0x0a]), "0a");
    assert_eq!(hex4(&[]), "");
}

#[test]
fn bit_gadgets_are_recognised() {
    let pk = SecretKey::from_entropy(3, [1u8; 32]).public();
    let script = ScriptBuilder::new()
        .bit_decode(&pk.bits[0])
        .expect_bit(&pk.bits[1].h1)
        .push_opcode(0xac)
        .into_script();
    let parsed = parse_gadgets(&script);
    assert_eq!(
        parsed.gadgets,
        vec![
            Gadget::BitDecode { h0: pk.bits[0].h0, h1: pk.bits[0].h1, dropped: false },
            Gadget::ExpectBit { h: pk.bits[1].h1 },
            Gadget::Other(Label::Op(0xac)),
        ]
    );
    assert_eq!(parsed.blocks, vec![]);
}

#[test]
fn timelocks_and_signatures_are_recognised() {
    let key = [0x42u8; 32];
    let script = ScriptBuilder::new()
        .push_int(144)
        .push_opcode(0xb2)
        .push_opcode(0x75)
        .push_int(700)
        .push_opcode(0xb1)
        .push_opcode(0x75)
        .push_bytes(&key)
        .push_opcode(0xad)
        .push_bytes(&key)
        .push_opcode(0xac)
        .push_bytes(&key)
        .push_opcode(0xba)
        .push_int(2)
        .push_opcode(0x9d)
        .into_script();
    assert_eq!(
        parse_gadgets(&script).gadgets,
        vec![
            Gadget::Timelock { relative: true, n: 144 },
            Gadget::Timelock { relative: false, n: 700 },
            Gadget::Checksig { verify: true, key4: "42424242".to_string() },
            Gadget::TwoOfTwo { verify: true },
        ]
    );
}

#[test]
fn runs_are_recognised() {
    let script = ScriptBuilder::new()
        .push_repeated(0x6b, 4)
        .push_repeated(0x6c, 3)
        .push_repeated(0x6d, 2)
        .push_repeated(0x75, 5)
        .push_repeated(0x6b, 2)
        .into_script();
    assert_eq!(
        parse_gadgets(&script).gadgets,
        vec![
            Gadget::Park { n: 4 },
            Gadget::Unpark { n: 3 },
            Gadget::Drop2Run { pairs: 2 },
            Gadget::DropRun { n: 5 },
            Gadget::Other(Label::Op(0x6b)),
            Gadget::Other(Label::Op(0x6b)),
        ]
    );
}

#[test]
fn pushes_are_labelled() {
    assert_eq!(push_label(&[]), Label::Zero);
    assert_eq!(push_label(&[0x11]), Label::Number(17));
    assert_eq!(push_label(&[0x2c, 0x81]), Label::Number(-300));
    assert_eq!(push_label(&[0x11, 0x00]), Label::Number(0));
    assert_eq!(
        push_label(&[1, 2, 3, 4, 5, 6]),
        Label::Bytes { len: 6, head: "01020304".to_string() }
    );
}

#[test]
fn winternitz_verifies_are_recognised() {
    let ps = WotsParams::for_bytes(2);
    let sk = WotsSecret::from_entropy(ps, [6u8; 32]);
    let pk = sk.public();
    let script = ScriptBuilder::new().wots_verify(&pk).into_script();
    let parsed = parse_gadgets(&script);
    assert_eq!(parsed.blocks.len(), 1);
    let block = &parsed.blocks[0];
    assert_eq!((block.msg, block.ck), (4, ps.checksum_digits as usize));
    assert_eq!(block.digits.len(), ps.total_digits() as usize);
    for d in &pk.digits {
        assert!(block.digits.contains(d));
    }
    let steps = parsed
        .gadgets
        .iter()
        .filter(|g| matches!(g, Gadget::WotsStep { tied: None, .. }))
        .count();
    assert_eq!(steps, ps.total_digits() as usize);
    assert!(parsed.gadgets.iter().any(|g| matches!(g, Gadget::WotsFinale { msg: 4, ck: 2 })));

    // every hash of a signature resolves to its digit and its value
    let sig = sk.sign(&[0x3f, 0xc1]).unwrap();
    for (i, h) in sig.hashes.iter().enumerate() {
        assert_eq!(resolve_wots(&parsed.blocks, h), Some((0, i, i64::from(sig.digits[i]))));
    }
    assert_eq!(resolve_wots(&parsed.blocks, &[0u8; 20]), None);
    assert_eq!(resolve_wots(&parsed.blocks, &[0u8; 19]), None);
}

#[test]
fn hashes_resolve_to_message_digits_only_where_the_block_counts_them() {
    let sk = WotsSecret::from_entropy(WotsParams::for_bytes(1), [6u8; 32]);
    let pk = sk.public();
    let blocks = vec![WotsBlock { msg: 2, ck: 2, digits: pk.digits.clone() }];
    let sig = sk.sign(&[0x70]).unwrap();
    let found: Vec<_> = sig.hashes.iter().map(|h| resolve_wots(&blocks, h).unwrap()).collect();
    println!("{found:?}");
    assert_eq!(found[0].2, 7);
    assert_eq!(found[1].2, 0);
}

#[test]
fn key_path_and_loose_witnesses() {
    let sig = vec![0xabu8; 64];
    assert_eq!(
        decode_witness(&vec![sig]),
        WitnessReport::KeyPath { signature: "ab".repeat(64) }
    );
    assert_eq!(decode_witness(&vec![]), WitnessReport::Raw { items: vec![] });
    assert_eq!(
        decode_witness(&vec![vec![1, 2, 3]]),
        WitnessReport::Raw { items: vec![(3, "010203".to_string())] }
    );
}

#[test]
fn script_path_witnesses() {
    let sk = SecretKey::from_entropy(3, [2u8; 32]);
    let pk = sk.public();
    let script = ScriptBuilder::new()
        .bit_decode(&pk.bits[2])
        .bit_decode(&pk.bits[1])
        .expect_bit(&pk.bits[0].h1)
        .into_script();
    let witness = vec![
        vec![],
        sk.bits[0].p1.to_vec(),
        sk.bits[1].p0.to_vec(),
        sk.bits[2].p1.to_vec(),
        vec![7u8; 32],
        vec![9u8; 64],
        vec![3u8; 20],
        vec![0x05],
        vec![1u8; 5],
        script.clone(),
        control(2),
    ];
    let report = decode_witness(&witness);
    let spend = match report {
        WitnessReport::ScriptPath(spend) => spend,
        other => panic!("{other:?}"),
    };
    assert_eq!((spend.leaf_len, spend.control_len, spend.depth), (script.len(), 97, 2));
    assert_eq!(spend.parsed.gadgets.len(), 3);
    assert_eq!(
        spend.args,
        vec![
            Arg::Bytes { len: 5, hex: "0101010101".to_string() },
            Arg::Number(5),
            Arg::Unopened { head: hex4(&[3u8; 20]) },
            Arg::Signature { head: "0909090909090909".to_string() },
            Arg::Secret { head: hex4(&[7u8; 32]) },
            Arg::Preimage { head: hex4(&sk.bits[2].p1), gadget: 0, bit: true },
            Arg::Preimage { head: hex4(&sk.bits[1].p0), gadget: 1, bit: false },
            Arg::Preimage { head: hex4(&sk.bits[0].p1), gadget: 2, bit: true },
            Arg::Number(0),
        ]
    );
    // the decoded bits form one run, the expected bit another
    assert_eq!(
        spend.runs,
        vec![
            BitRun { decoded: true, bits: vec![true, false] },
            BitRun { decoded: false, bits: vec![true] },
        ]
    );
    assert_eq!(spend.runs[0].value(), 2);

    // with a key's signature, digits resolve and their declared values stand beside them
    let wots = WotsSecret::from_entropy(WotsParams::for_bytes(1), [4u8; 32]);
    let leaf = ScriptBuilder::new().wots_verify(&wots.public()).into_script();
    let sig = wots.sign(&[0x29]).unwrap();
    let mut items: Vec<Vec<u8>> = sig.consumption_order().into_iter().rev().collect();
    items.push(leaf);
    items.push(control(0));
    let spend = match decode_witness(&items) {
        WitnessReport::ScriptPath(spend) => spend,
        other => panic!("{other:?}"),
    };
    let reveals = spend.args.iter().filter(|a| matches!(a, Arg::WotsReveal { .. })).count();
    assert_eq!(reveals, sig.hashes.len());
    for arg in &spend.args {
        if let Arg::WotsReveal { value, declared, .. } = arg {
            println!("digit {value}, declared {declared:?}");
        }
    }
}

#[test]
fn a_revealed_number_reads_back() {
    let sk = SecretKey::from_entropy(8, [5u8; 32]);
    let leaf = ScriptBuilder::new().decode_uint(&sk.public()).into_script();
    let decoded = parse_gadgets(&leaf)
        .gadgets
        .iter()
        .filter(|g| matches!(g, Gadget::BitDecode { dropped: false, .. }))
        .count();
    assert_eq!(decoded, 8);
    let order = sk.reveal_uint(0b1010_0110).unwrap().consumption_order();
    let mut items: Vec<Vec<u8>> = order.into_iter().rev().collect();
    items.push(leaf);
    items.push(control(1));
    let spend = match decode_witness(&items) {
        WitnessReport::ScriptPath(spend) => spend,
        other => panic!("{other:?}"),
    };
    assert_eq!(spend.runs.len(), 1);
    assert!(spend.runs[0].decoded);
    assert_eq!(spend.runs[0].value(), 0b1010_0110);
}

#[test]
fn roles_are_read_from_the_table() {
    let a = "a".repeat(64);
    let b = "b".repeat(64);
    let report = format!(
        "# A scenario\n\n| height | role | by | txid |\n|---|---|---|---|\n| 101 | `funding` | | `{a}` |\r\n| 102 | claim | Hub | {b} |\n|103 | x | | {a} |\n| 104 | short | | abc |\n"
    );
    let rows = scenario_roles(&report);
    assert_eq!(rows.len(), 2);
    assert_eq!(role_of(&rows, &a), Some("funding".to_string()));
    assert_eq!(role_of(&rows, &b), Some("claim by Hub".to_string()));
    assert_eq!(role_of(&rows, &"c".repeat(64)), None);
    // the last row of a transaction counts
    let report = format!("| 1 | one | | {a} |\n| 2 | two | | {a} |");
    assert_eq!(role_of(&scenario_roles(&report), &a), Some("two".to_string()));
}

#[test]
fn cells_are_trimmed_of_white_space() {
    let a = "a".repeat(64);
    let wide = '\u{3000}';
    let narrow = '\u{202f}';
    let report = format!("| 1 |{wide}\tclaim by Hub{narrow} \u{85}| |\u{2009}`{a}`\u{a0}|");
    assert_eq!(role_of(&scenario_roles(&report), &a), Some("claim by Hub".to_string()));
    // a zero-width space is no white space
    let report = format!("| 1 |\u{200b}x\u{200b}| | `{a}` |");
    assert_eq!(role_of(&scenario_roles(&report), &a), Some("\u{200b}x\u{200b}".to_string()));
}

#[test]
fn witnesses_are_sized() {
    assert!(is_witness_sized(&vec![]));
    assert!(is_witness_sized(&vec![vec![], vec![1; 0xfc], vec![2; 0xfd], vec![3; 0x1_0000]]));
}
