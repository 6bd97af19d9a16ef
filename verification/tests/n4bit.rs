//! The hash function.

use lngap::n4bit::{
    bytes_to_nibbles, hash, meets_target, mix, nibbles_to_bytes, permute, rate_blocks,
    rc, spn_round, target_from_difficulty, DIGEST_BYTES, ROUNDS, SBOX, SBOX_INV, STATE_NIBBLES,
};

#[test]
fn sbox_is_permutation() {
    let mut seen = [false; 16];
    for &s in &SBOX {
        assert!(!seen[s as usize], "S-box not a permutation: {} appears twice", s);
        seen[s as usize] = true;
    }
    assert!(seen.iter().all(|&x| x), "S-box not surjective");
}

#[test]
fn sbox_inv_is_correct() {
    for x in 0..16u8 {
        assert_eq!(SBOX_INV[SBOX[x as usize] as usize], x);
    }
}

#[test]
fn permute_is_permutation() {
    let mut state = [0u8; STATE_NIBBLES];
    for i in 0..STATE_NIBBLES {
        state[i] = (i % 16) as u8;
    }
    let original = state;
    permute(&mut state);
    // Check it's a permutation: every value appears the same number of times
    let mut counts = [0u8; 16];
    for &n in &state {
        counts[n as usize] += 1;
    }
    for i in 0..16 {
        let expected = original.iter().filter(|&&x| x == i as u8).count() as u8;
        assert_eq!(counts[i as usize], expected, "value {} count changed", i);
    }
}

#[test]
fn hash_empty() {
    let h = hash(&[]);
    // Non-zero digest for empty input (sponge with padding)
    assert_ne!(h, [0u8; DIGEST_BYTES]);
}

#[test]
fn hash_deterministic() {
    let input = b"hello world";
    assert_eq!(hash(input), hash(input));
}

#[test]
fn hash_different_inputs() {
    let a = hash(b"alice");
    let b = hash(b"bob");
    assert_ne!(a, b, "different inputs must hash differently");
}

#[test]
fn hash_avalanche() {
    // A one-bit change in the input should change many output bits
    let input1 = [0x48u8; 48]; // 48-byte header
    let mut input2 = input1;
    input2[0] ^= 1; // flip one bit
    let h1 = hash(&input1);
    let h2 = hash(&input2);
    let mut diff_bits = 0;
    for i in 0..DIGEST_BYTES {
        diff_bits += (h1[i] ^ h2[i]).count_ones();
    }
    // With 160 bits of output, expect ~80 bits to change (50% avalanche)
    assert!(diff_bits > 40, "avalanche too weak: {} bits changed out of 160", diff_bits);
}

#[test]
fn hash_header_size() {
    // 48-byte header (the actual use case)
    let header = [0xABu8; 48];
    let h = hash(&header);
    assert_eq!(h.len(), DIGEST_BYTES);
}

#[test]
fn hash_entry_size() {
    // 64-byte entry (the names registry entry size)
    let entry = [0xCDu8; 64];
    let h = hash(&entry);
    assert_eq!(h.len(), DIGEST_BYTES);
}

#[test]
fn meets_target_5bits() {
    let target = target_from_difficulty(5);
    // 5 leading zero bits: target = 0x07FF...FF
    assert_eq!(target[0], 0x07);
    assert_eq!(target[1], 0xFF);

    // A digest below the target
    let mut d_low = [0u8; DIGEST_BYTES];
    d_low[0] = 0x03;
    assert!(meets_target(&d_low, &target));

    // A digest above the target
    let mut d_high = [0u8; DIGEST_BYTES];
    d_high[0] = 0x08;
    assert!(!meets_target(&d_high, &target));

    // A digest at the target
    let mut d_eq = [0u8; DIGEST_BYTES];
    d_eq[0] = 0x07;
    d_eq[1] = 0xFF;
    for i in 2..DIGEST_BYTES {
        d_eq[i] = 0xFF;
    }
    assert!(meets_target(&d_eq, &target));
}

#[test]
fn pow_mining_loop() {
    // Simulate mining: find a nonce such that hash(header) <= target
    let target = target_from_difficulty(5);
    let mut header = [0u8; 48];
    // Fill with some fixed data (prev, root, height)
    header[0..20].copy_from_slice(&[0xAA; 20]);
    header[20..40].copy_from_slice(&[0xBB; 20]);
    header[40..44].copy_from_slice(&100u32.to_le_bytes());

    let mut nonce = 0u32;
    loop {
        header[44..48].copy_from_slice(&nonce.to_le_bytes());
        let h = hash(&header);
        if meets_target(&h, &target) {
            break;
        }
        nonce += 1;
        assert!(nonce < 100_000, "mining took too long for 5-bit difficulty");
    }
    // Verify
    header[44..48].copy_from_slice(&nonce.to_le_bytes());
    let h = hash(&header);
    assert!(meets_target(&h, &target), "mined nonce does not meet target");
}

#[test]
fn print_test_vectors() {
    // Test vectors for cross-checking the Script implementation later
    let h_empty = hash(&[]);
    let h_48 = hash(&[0xABu8; 48]);
    let h_64 = hash(&[0xCDu8; 64]);
    println!("n4bit(empty) = {}", hex::encode(h_empty));
    println!("n4bit(48×0xAB) = {}", hex::encode(h_48));
    println!("n4bit(64×0xCD) = {}", hex::encode(h_64));
}

#[test]
fn round_constant_check() {
    for r in 0..ROUNDS {
        for i in 0..STATE_NIBBLES {
            let val = rc(r, i);
            assert!(val < 16, "rc({}, {}) = {} >= 16", r, i, val);
        }
    }
}

#[test]
fn targets_of_whole_bytes_and_beyond() {
    assert_eq!(target_from_difficulty(0), [0xFFu8; DIGEST_BYTES]);
    let t = target_from_difficulty(8);
    assert_eq!(t[0], 0x00);
    assert_eq!(&t[1..], &[0xFFu8; 19]);
    let t = target_from_difficulty(16);
    assert_eq!(&t[..2], &[0x00, 0x00]);
    assert_eq!(&t[2..], &[0xFFu8; 18]);
    let t = target_from_difficulty(13);
    assert_eq!(&t[..2], &[0x00, 0x07]);
}

#[test]
fn leading_zeros_decide_the_target() {
    // the digests that meet a target of 12 bits are those with 12 leading zero bits
    let target = target_from_difficulty(12);
    let mut d = [0xFFu8; DIGEST_BYTES];
    d[0] = 0;
    d[1] = 0x0F;
    assert!(meets_target(&d, &target));
    d[1] = 0x10;
    assert!(!meets_target(&d, &target));
}

#[test]
fn nibbles_go_high_first() {
    assert_eq!(bytes_to_nibbles(&[0xAB, 0x0C]), vec![0xA, 0xB, 0x0, 0xC]);
    assert_eq!(nibbles_to_bytes(&[0xA, 0xB, 0x0, 0xC]), vec![0xAB, 0x0C]);
    let all: Vec<u8> = (0..=255u8).collect();
    assert_eq!(nibbles_to_bytes(&bytes_to_nibbles(&all)), all);
}

#[test]
fn blocks_are_filled_with_zeros() {
    // the empty message is one block, and every ten bytes fill another
    assert_eq!(rate_blocks(&[]), vec![[0u8; 20]]);
    assert_eq!(rate_blocks(&[0xFF; 10]), vec![[0xF; 20]]);
    let blocks = rate_blocks(&[0xAB; 11]);
    assert_eq!(blocks.len(), 2);
    assert_eq!(blocks[0][..4], [0xA, 0xB, 0xA, 0xB]);
    assert_eq!(blocks[1][..4], [0xA, 0xB, 0, 0]);
    assert_eq!(blocks[1][2..], [0u8; 18]);
}

#[test]
fn rounds_keep_states_apart() {
    let a: [u8; STATE_NIBBLES] = std::array::from_fn(|i| (i % 16) as u8);
    let mut b = a;
    b[17] ^= 1;
    let (mut ra, mut rb) = (a, b);
    for round in 0..ROUNDS {
        spn_round(&mut ra, round);
        spn_round(&mut rb, round);
        assert_ne!(ra, rb);
    }
    let (mut ma, mut mb) = (a, b);
    mix(&mut ma);
    mix(&mut mb);
    assert_ne!(ma, mb);
}

#[test]
fn rounds_repeat_after_16() {
    let start: [u8; STATE_NIBBLES] = std::array::from_fn(|i| (5 * i % 16) as u8);
    for round in [0, 3, 15, 40] {
        let (mut a, mut b) = (start, start);
        spn_round(&mut a, round);
        spn_round(&mut b, round + 16);
        assert_eq!(a, b);
        spn_round(&mut a, round);
        spn_round(&mut b, round + 1);
        assert_ne!(a, b);
    }
}

#[test]
fn a_right_difference_of_8_leaves_the_right_output() {
    let mut a = [0u8; STATE_NIBBLES];
    let mut b = [0u8; STATE_NIBBLES];
    b[1] = 8;
    b[2] = 8;
    mix(&mut a);
    mix(&mut b);
    assert_eq!(b[..4], [8, 0, 8, 8]);
    assert_eq!(a[..4], [0, 0, 0, 0]);
}

#[test]
fn differences_spread_over_their_pair() {
    let base: [u8; STATE_NIBBLES] = std::array::from_fn(|i| (11 * i % 16) as u8);
    let mut mixed = base;
    mix(&mut mixed);
    for place in 0..STATE_NIBBLES {
        for delta in 1..16u8 {
            let mut other = base;
            other[place] = (other[place] + delta) % 16;
            mix(&mut other);
            let left = place - place % 2;
            for j in 0..STATE_NIBBLES {
                let hit = j == left || (j == left + 1 && !(place % 2 == 1 && delta == 8));
                assert_eq!(mixed[j] != other[j], hit, "place {place}, {delta}, at {j}");
            }
        }
    }
}
