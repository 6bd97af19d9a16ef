//! The gadgets, executed by a small script interpreter.

use bitcoin::opcodes::Opcode;
use bitcoin::script::Instruction;
use lngap::lamport::gadgets::LamportExt;
use lngap::lamport::winternitz::{message_digits, WotsExt, WotsParams, WotsSecret};
use lngap::lamport::{Reveal, SecretKey};
use lngap::n4bit::script::{
    compute_permutation, feistel_add, mix_script, permute_script, push_sbox_table,
    round_leaf_script, sbox_phase_script, spn_round_script, SBOX_TABLE_SIZE,
};
use lngap::n4bit::{add_constants, mix, permute, sbox_layer, spn_round, SBOX, STATE_NIBBLES};
use lngap::script::ScriptBuilder;

type Stack = Vec<Vec<u8>>;

fn hash160(data: &[u8]) -> [u8; 20] {
    let h = <bitcoin::hashes::hash160::Hash as bitcoin::hashes::Hash>::hash(data);
    <bitcoin::hashes::hash160::Hash as bitcoin::hashes::Hash>::to_byte_array(h)
}

fn number(n: i64) -> Vec<u8> {
    let mut out = [0u8; 8];
    let len = bitcoin::script::write_scriptint(&mut out, n);
    out[..len].to_vec()
}

fn truth(item: &[u8]) -> bool {
    match item.split_last() {
        None => false,
        Some((last, rest)) => rest.iter().any(|&b| b != 0) || (*last != 0 && *last != 0x80),
    }
}

struct Machine {
    stack: Stack,
    alt: Stack,
    branches: Vec<bool>,
}

impl Machine {
    fn pop(&mut self) -> Result<Vec<u8>, String> {
        self.stack.pop().ok_or_else(|| "stack underflow".to_string())
    }

    fn num(&mut self) -> Result<i64, String> {
        let item = self.pop()?;
        bitcoin::script::read_scriptint(&item).map_err(|e| format!("{e:?}"))
    }

    fn push_num(&mut self, n: i64) {
        self.stack.push(number(n));
    }

    fn at(&self, depth: usize) -> Result<usize, String> {
        if depth < self.stack.len() {
            Ok(self.stack.len() - 1 - depth)
        } else {
            Err("stack underflow".to_string())
        }
    }

    fn verify(&mut self) -> Result<(), String> {
        if truth(&self.pop()?) {
            Ok(())
        } else {
            Err("verify failed".to_string())
        }
    }

    fn branch(&mut self, op: u8) -> Result<(), String> {
        match op {
            0x63 => {
                let taken = if self.branches.iter().all(|&b| b) {
                    let top = self.pop()?;
                    // only the minimal forms of true and false select a branch
                    if top.is_empty() {
                        false
                    } else if top == [1] {
                        true
                    } else {
                        return Err("minimal if".to_string());
                    }
                } else {
                    false
                };
                self.branches.push(taken);
            }
            0x67 => {
                let last = self.branches.pop().ok_or("else without if")?;
                self.branches.push(!last);
            }
            _ => {
                self.branches.pop().ok_or("endif without if")?;
            }
        }
        Ok(())
    }

    fn step(&mut self, op: u8) -> Result<(), String> {
        match op {
            0x4f => self.push_num(-1),
            0x51..=0x60 => self.push_num(i64::from(op) - 0x50),
            0x69 => self.verify()?,
            0x6b => {
                let top = self.pop()?;
                self.alt.push(top);
            }
            0x6c => {
                let top = self.alt.pop().ok_or("alt stack underflow")?;
                self.stack.push(top);
            }
            0x6d => {
                self.pop()?;
                self.pop()?;
            }
            0x6e => {
                let (a, b) = (self.at(1)?, self.at(0)?);
                self.stack.push(self.stack[a].clone());
                self.stack.push(self.stack[b].clone());
            }
            0x75 => {
                self.pop()?;
            }
            0x76 => {
                let a = self.at(0)?;
                self.stack.push(self.stack[a].clone());
            }
            0x78 => {
                let a = self.at(1)?;
                self.stack.push(self.stack[a].clone());
            }
            0x79 => {
                let n = self.num()?;
                let a = self.at(usize::try_from(n).map_err(|e| e.to_string())?)?;
                self.stack.push(self.stack[a].clone());
            }
            0x7a => {
                let n = self.num()?;
                let a = self.at(usize::try_from(n).map_err(|e| e.to_string())?)?;
                let item = self.stack.remove(a);
                self.stack.push(item);
            }
            0x7b => {
                let a = self.at(2)?;
                let item = self.stack.remove(a);
                self.stack.push(item);
            }
            0x7c => {
                let a = self.at(1)?;
                let item = self.stack.remove(a);
                self.stack.push(item);
            }
            0x7d => {
                let a = self.at(1)?;
                let top = self.stack[a + 1].clone();
                self.stack.insert(a, top);
            }
            0x82 => {
                let a = self.at(0)?;
                let len = self.stack[a].len() as i64;
                self.push_num(len);
            }
            0x87 | 0x88 => {
                let same = self.pop()? == self.pop()?;
                self.push_num(i64::from(same));
                if op == 0x88 {
                    self.verify()?;
                }
            }
            0x8f => {
                let a = self.num()?;
                self.push_num(-a);
            }
            0x92 => {
                let a = self.num()?;
                self.push_num(i64::from(a != 0));
            }
            0x93..=0xa4 => {
                let b = self.num()?;
                let a = self.num()?;
                let r = match op {
                    0x93 => a + b,
                    0x94 => a - b,
                    0x9c | 0x9d => i64::from(a == b),
                    0x9f => i64::from(a < b),
                    0xa0 => i64::from(a > b),
                    0xa1 => i64::from(a <= b),
                    0xa2 => i64::from(a >= b),
                    0xa3 => a.min(b),
                    0xa4 => a.max(b),
                    _ => return Err(format!("opcode {op:#x}")),
                };
                self.push_num(r);
                if op == 0x9d {
                    self.verify()?;
                }
            }
            0xa9 => {
                let top = self.pop()?;
                self.stack.push(hash160(&top).to_vec());
            }
            _ => return Err(format!("opcode {op:#x}")),
        }
        Ok(())
    }
}

fn run(script: &[u8], stack: Stack) -> Result<Stack, String> {
    let mut m = Machine { stack, alt: vec![], branches: vec![] };
    for instruction in bitcoin::Script::from_bytes(script).instructions_minimal() {
        let live = m.branches.iter().all(|&b| b);
        match instruction.map_err(|e| e.to_string())? {
            Instruction::PushBytes(p) => {
                if live {
                    m.stack.push(p.as_bytes().to_vec());
                }
            }
            Instruction::Op(op) => {
                let op: Opcode = op;
                let code = op.to_u8();
                if matches!(code, 0x63 | 0x67 | 0x68) {
                    m.branch(code)?;
                } else if live {
                    m.step(code)?;
                }
            }
        }
    }
    if m.branches.is_empty() {
        Ok(m.stack)
    } else {
        Err("unbalanced if".to_string())
    }
}

fn run_nums(script: &[u8]) -> Result<Vec<i64>, String> {
    let out = run(script, vec![])?;
    out.iter().map(|e| bitcoin::script::read_scriptint(e).map_err(|e| format!("{e:?}"))).collect()
}

/// Whether a leaf accepts the arguments, given in consumption order: one true element is left.
fn accepts(leaf: &[u8], args: &[Vec<u8>]) -> Result<(), String> {
    let out = run(leaf, args.iter().rev().cloned().collect())?;
    if out.len() == 1 && truth(&out[0]) {
        Ok(())
    } else {
        Err("rejected".to_string())
    }
}

#[test]
fn permutation_is_correct() {
    let perm = compute_permutation();
    let mut sorted = perm.clone();
    sorted.sort();
    assert_eq!(sorted, (0..STATE_NIBBLES).collect::<Vec<_>>());
    // Verify against the native permute
    let mut state = [0u8; STATE_NIBBLES];
    for i in 0..STATE_NIBBLES {
        state[i] = i as u8;
    }
    let original = state;
    permute(&mut state);
    for i in 0..STATE_NIBBLES {
        assert_eq!(state[i], original[perm[i]], "position {} mismatch", i);
    }
    println!("Permutation: {:?}", perm);
}

#[test]
fn sbox_table_size() {
    assert_eq!(SBOX_TABLE_SIZE, 16);
    assert_eq!(SBOX.len(), 16);
    println!("S-box table: {} stack elements (vs SHA-256: 608)", SBOX_TABLE_SIZE);
}

/// One Script round against the native round, through the interpreter,
/// on random states and round counters (including counters past 128,
/// which the header chain's later steps reach).
#[test]
fn script_round_matches_native_round() {
    let mut x: u64 = 0x1234_5678_9abc_def0;
    let mut next = || {
        x ^= x << 13;
        x ^= x >> 7;
        x ^= x << 17;
        x
    };
    for round in [0usize, 1, 19, 20, 100, 140, 159, 255] {
        for _ in 0..4 {
            let state: [u8; STATE_NIBBLES] = std::array::from_fn(|_| (next() % 16) as u8);
            let mut b = push_sbox_table(ScriptBuilder::new());
            for &n in &state {
                b = b.push_int(i64::from(n));
            }
            let script = spn_round_script(b, round).into_script();
            let out = run_nums(&script).unwrap_or_else(|e| panic!("round {round}: {e}"));
            assert_eq!(out.len(), SBOX_TABLE_SIZE + STATE_NIBBLES, "round {round}: stack size");
            let got: Vec<u8> = out[SBOX_TABLE_SIZE..].iter().map(|&v| v as u8).collect();
            let mut want = state;
            spn_round(&mut want, round);
            assert_eq!(got, want.to_vec(), "round {round} on {state:?}");
        }
    }
}

/// Each pass of the round against its native counterpart.
#[test]
fn script_passes_match_native_passes() {
    let state: [u8; STATE_NIBBLES] = std::array::from_fn(|i| ((i * 7 + 3) % 16) as u8);
    let run_pass = |f: &dyn Fn(ScriptBuilder) -> ScriptBuilder| -> Vec<u8> {
        let mut b = push_sbox_table(ScriptBuilder::new());
        for &n in &state {
            b = b.push_int(i64::from(n));
        }
        let out = run_nums(&f(b).into_script()).unwrap();
        assert_eq!(out.len(), SBOX_TABLE_SIZE + STATE_NIBBLES);
        out[SBOX_TABLE_SIZE..].iter().map(|&v| v as u8).collect()
    };
    let mut want = state;
    add_constants(&mut want, 5);
    sbox_layer(&mut want);
    assert_eq!(run_pass(&|b| sbox_phase_script(b, 5)), want.to_vec(), "constants and S-box");
    let mut want = state;
    mix(&mut want);
    assert_eq!(run_pass(&|b| mix_script(b)), want.to_vec(), "mix");
    let mut want = state;
    permute(&mut want);
    assert_eq!(run_pass(&|b| permute_script(b)), want.to_vec(), "permute");
}

#[test]
fn script_size_measurement() {
    let script = round_leaf_script(0);
    let size = script.len();
    println!("\n=== n4bit round leaf script size ===");
    println!("  Script size: {} bytes", size);
    println!("  vs SHA-256 round leaf: ~12,000 bytes");
    println!("  Ratio: {:.1}x smaller", 12000.0 / size as f64);
    println!(
        "  Stack elements: ~{} (S-box {} + state {} + working ~5)",
        SBOX_TABLE_SIZE + STATE_NIBBLES + 5,
        SBOX_TABLE_SIZE,
        STATE_NIBBLES
    );
    assert!(size < 2000, "round leaf should be < 2000 bytes, got {}", size);
}

#[test]
fn feistel_script_correctness() {
    let b = ScriptBuilder::new();
    let _ = feistel_add(b);
    // the gadget leaves the sum modulo 16 of the two top elements below the first
    for (x, y) in [(3i64, 5i64), (9, 12), (15, 15), (0, 0)] {
        let b = ScriptBuilder::new().push_int(x).push_int(y);
        let out = run_nums(&feistel_add(b).into_script()).unwrap();
        println!("feistel_add({x}, {y}) leaves {out:?}");
        assert_eq!(out.len(), 2);
        assert!(out.contains(&((x + y) % 16)));
    }
}

#[test]
fn m0_decode_uint_greater_than_100() {
    let sk = SecretKey::from_entropy(8, [9u8; 32]);
    let pk = sk.public();
    // OP_GREATERTHAN
    let leaf = ScriptBuilder::new().decode_uint(&pk).push_int(100).push_opcode(0xa0).into_script();
    println!("gt100 leaf: {} bytes script", leaf.len());

    // positive: 150 > 100
    let r = sk.reveal_uint(150).unwrap();
    accepts(&leaf, &r.consumption_order()).unwrap();
    // boundary
    assert!(accepts(&leaf, &sk.reveal_uint(101).unwrap().consumption_order()).is_ok());
    assert!(accepts(&leaf, &sk.reveal_uint(255).unwrap().consumption_order()).is_ok());
    // negative: value not > 100
    assert!(accepts(&leaf, &sk.reveal_uint(100).unwrap().consumption_order()).is_err());
    assert!(accepts(&leaf, &sk.reveal_uint(0).unwrap().consumption_order()).is_err());
    // negative: a wrong preimage for one bit
    let mut r = sk.reveal_uint(200).unwrap();
    r.preimages[3][0] ^= 1;
    assert!(accepts(&leaf, &r.consumption_order()).is_err());
    // negative: missing element
    let r = sk.reveal_uint(200).unwrap();
    let mut args = r.consumption_order();
    args.pop();
    assert!(accepts(&leaf, &args).is_err());
    // negative: reversed order (lsb on top) decodes to a different number for asymmetric values
    let r = sk.reveal_uint(0b1000_0000).unwrap(); // 128 msb-first; reversed = 1
    let mut args = r.consumption_order();
    args.reverse();
    assert!(accepts(&leaf, &args).is_err());
    // negative: a different key's preimages
    let other = SecretKey::from_entropy(8, [10u8; 32]);
    assert!(accepts(&leaf, &other.reveal_uint(200).unwrap().consumption_order()).is_err());
}

#[test]
fn expect_uint_and_equivocation() {
    let sk = SecretKey::from_entropy(5, [3u8; 32]);
    let pk = sk.public();
    let expect_21 = ScriptBuilder::new().expect_uint(&pk, 21).push_int(1).into_script();
    let equiv_bit2 = ScriptBuilder::new().equivocation(&pk.bits[2]).push_int(1).into_script();
    let bit2 = ScriptBuilder::new().bit_decode(&pk.bits[2]).into_script();

    // expect_uint: exact value passes, any other fails
    assert!(accepts(&expect_21, &sk.reveal_uint(21).unwrap().consumption_order()).is_ok());
    assert!(accepts(&expect_21, &sk.reveal_uint(20).unwrap().consumption_order()).is_err());
    assert!(accepts(&expect_21, &sk.reveal_uint(5).unwrap().consumption_order()).is_err());
    let short = Reveal { preimages: sk.reveal_uint(21).unwrap().preimages[1..].to_vec() };
    assert!(accepts(&expect_21, &short.consumption_order()).is_err());

    // bit_decode: leaves the bit; a leaf ending in the bit is satisfiable only for bit = 1
    assert!(accepts(&bit2, &[sk.bits[2].p1.to_vec()]).is_ok());
    assert!(accepts(&bit2, &[sk.bits[2].p0.to_vec()]).is_err(), "bit 0 leaves a false top element");
    assert!(accepts(&bit2, &[sk.bits[3].p1.to_vec()]).is_err(), "other bit's preimage");

    // equivocation: needs both preimages; witness p0 then p1 with p1 consumed first
    let (p0, p1) = (sk.bits[2].p0.to_vec(), sk.bits[2].p1.to_vec());
    assert!(accepts(&equiv_bit2, &[p1.clone(), p0.clone()]).is_ok());
    assert!(accepts(&equiv_bit2, &[p0.clone(), p1.clone()]).is_err(), "order matters");
    assert!(accepts(&equiv_bit2, &[p1.clone(), p1.clone()]).is_err(), "same preimage twice");
}

#[test]
fn winternitz_leaf_on_regtest() {
    let ps = WotsParams::for_bytes(32);
    let sk = WotsSecret::from_entropy(ps, [3u8; 32]);
    let pk = sk.public();
    let msg: Vec<u8> = (0..32u8).map(|i| i.wrapping_mul(59).wrapping_add(1)).collect();
    // leaf: verify, then require the 64 digits equal the message's nibbles (last nibble on top)
    let mut b = ScriptBuilder::new().wots_verify(&pk);
    for n in message_digits(&msg).iter().rev() {
        b = b.push_int(i64::from(*n)).push_opcode(0x88);
    }
    let leaf = b.push_opcode(0x51).into_script();
    println!("SIZE wots verify leaf: {} bytes", leaf.len());
    let sig = sk.sign(&msg).unwrap();
    accepts(&leaf, &sig.consumption_order()).unwrap();
    // wrong message
    let mut other = msg.clone();
    other[7] ^= 0x30;
    assert!(accepts(&leaf, &sk.sign(&other).unwrap().consumption_order()).is_err());
    // forgery: bump one digit by hashing its signature once more, checksum untouched
    let mut forged = sig.clone();
    forged.digits[10] += 1;
    forged.hashes[10] = hash160(&forged.hashes[10]);
    assert!(
        accepts(&leaf, &forged.consumption_order()).is_err(),
        "forged digit must fail the checksum"
    );
}

#[test]
fn long_checksums_agree_with_verification() {
    for checksum_digits in [8, 9] {
        let ps = WotsParams { message_digits: 2, checksum_digits };
        let sk = WotsSecret::from_entropy(ps, [6u8; 32]);
        let pk = sk.public();
        let leaf = ScriptBuilder::new()
            .wots_verify(&pk)
            .push_int(0xb)
            .push_opcode(0x88)
            .push_int(0xa)
            .push_opcode(0x88)
            .push_opcode(0x51)
            .into_script();
        let sig = sk.sign(&[0xab]).unwrap();
        assert_eq!(pk.verify(&sig), Ok(vec![0xab]));
        accepts(&leaf, &sig.consumption_order()).unwrap();
        // a checksum that no script takes as a number
        let mut raised = sig.clone();
        raised.digits[2] = 15;
        for _ in 0..15 {
            raised.hashes[2] = hash160(&raised.hashes[2]);
        }
        assert!(pk.verify(&raised).is_err());
        assert!(accepts(&leaf, &raised.consumption_order()).is_err());
    }
}

#[test]
fn assembled_bytes_are_the_script() {
    // numbers take their opcodes, bytes their length, and opcodes stand as they are
    let script = ScriptBuilder::new()
        .push_int(0)
        .push_int(-1)
        .push_int(16)
        .push_int(17)
        .push_int(-300)
        .push_bytes(&[0xAA, 0xBB])
        .push_repeated(0x93, 2)
        .hash160_verify(&[7u8; 20])
        .into_script();
    let mut want = vec![0x00, 0x4f, 0x60, 0x01, 0x11, 0x02, 0x2c, 0x81, 0x02, 0xAA, 0xBB, 0x93, 0x93];
    want.push(0xa9);
    want.push(0x14);
    want.extend([7u8; 20]);
    want.push(0x88);
    assert_eq!(script, want);
    // a push of 76 bytes has its length in a byte of its own
    let script = ScriptBuilder::new().push_bytes(&[1u8; 76]).into_script();
    assert_eq!(&script[..2], &[0x4c, 76]);
    assert_eq!(script.len(), 78);
}
