//! Lamport and Winternitz keys, and the store that holds them.

use lngap::lamport::keystore::{lamport_path, wots_path, KeyStore, StoreError};
use lngap::lamport::winternitz::{message_digits, WotsError, WotsParams, WotsSecret, WotsSig};
use lngap::lamport::{
    bits_to_uint, uint_to_bits, BitSecret, LamportError, Reveal, SecretKey,
};

fn hash160(data: &[u8]) -> [u8; 20] {
    let h = <bitcoin::hashes::hash160::Hash as bitcoin::hashes::Hash>::hash(data);
    <bitcoin::hashes::hash160::Hash as bitcoin::hashes::Hash>::to_byte_array(h)
}

#[test]
fn roundtrip_uint() {
    let sk = SecretKey::from_entropy(8, [7u8; 32]);
    let pk = sk.public();
    for v in [0u32, 1, 100, 101, 255] {
        let r = sk.reveal_uint(v).unwrap();
        assert_eq!(pk.decode_uint(&r).unwrap(), v);
        let items = r.consumption_order();
        assert_eq!(Reveal::from_consumption_order(&items).unwrap(), r);
    }
    assert!(sk.reveal_uint(256).is_err());
}

#[test]
fn wrong_preimage_detected() {
    let sk = SecretKey::from_entropy(4, [1u8; 32]);
    let mut r = sk.reveal_uint(5).unwrap();
    r.preimages[2][0] ^= 1;
    assert!(sk.public().decode_uint(&r).is_err());
}

#[test]
fn slices_agree() {
    let sk = SecretKey::from_entropy(6, [2u8; 32]);
    let pk = sk.public();
    let r = sk.reveal_uint(0b101100).unwrap();
    assert_eq!(pk.slice(0..2).decode_uint(&r.slice(0..2)).unwrap(), 0b00);
    assert_eq!(pk.slice(2..4).decode_uint(&r.slice(2..4)).unwrap(), 0b11);
    assert_eq!(pk.slice(4..6).decode_uint(&r.slice(4..6)).unwrap(), 0b10);
}

#[test]
fn sign_verify_roundtrip_and_forgery() {
    let ps = WotsParams::for_bytes(32);
    assert_eq!((ps.message_digits, ps.checksum_digits), (64, 3));
    let sk = WotsSecret::from_entropy(ps, [9u8; 32]);
    let pk = sk.public();
    let msg: Vec<u8> = (0..32u8).map(|i| i.wrapping_mul(77)).collect();
    let sig = sk.sign(&msg).unwrap();
    assert_eq!(pk.verify(&sig).unwrap(), msg);
    let items = sig.consumption_order();
    assert_eq!(WotsSig::from_consumption_order(ps, &items).unwrap(), sig);
    // forging a higher digit by hashing once more fails the checksum
    let mut forged = sig.clone();
    forged.digits[5] += 1;
    forged.hashes[5] = hash160(&forged.hashes[5]);
    assert!(pk.verify(&forged).is_err());
}

#[test]
fn refuses_equivocation() {
    let mut ks = KeyStore::new();
    let entropy = [0x74u8; 32];
    let pk = ks.generate("c1/d1/move", 4, entropy).unwrap();
    let r = ks.reveal_uint("c1/d1/move", 3).unwrap();
    assert_eq!(pk.decode_uint(&r).unwrap(), 3);
    assert!(ks.reveal_uint("c1/d1/move", 3).is_ok());
    assert!(ks.reveal_uint("c1/d1/move", 4).is_err());
    assert!(ks.generate("c1/d1/move", 5, entropy).is_err());
}

#[test]
fn commitments_are_hashes_of_the_preimages() {
    let s = BitSecret::generate([1u8; 20], [2u8; 20]);
    let c = s.commit();
    assert_eq!(c.h0, hash160(&[1u8; 20]));
    assert_eq!(c.h1, hash160(&[2u8; 20]));
    assert_eq!(s.preimage(false), [1u8; 20]);
    assert_eq!(s.preimage(true), [2u8; 20]);
}

#[test]
fn bits_are_little_endian() {
    assert_eq!(uint_to_bits(0b1101, 6), vec![true, false, true, true, false, false]);
    assert_eq!(bits_to_uint(&[true, false, true, true, false, false]), 0b1101);
    assert_eq!(bits_to_uint(&[]), 0);
    assert_eq!(bits_to_uint(&uint_to_bits(u32::MAX, 32)), u32::MAX);
}

#[test]
fn secrets_are_cut_from_the_drawn_bytes() {
    let drawn: Vec<u8> = (0..80u8).collect();
    let sk = SecretKey::generate(2, &drawn);
    assert_eq!(sk.n_bits(), 2);
    assert_eq!(sk.bits[0].p0[..], drawn[0..20]);
    assert_eq!(sk.bits[0].p1[..], drawn[20..40]);
    assert_eq!(sk.bits[1].p0[..], drawn[40..60]);
    assert_eq!(sk.bits[1].p1[..], drawn[60..80]);
}

#[test]
fn entropy_decides_the_secrets() {
    let a = SecretKey::from_entropy(3, [5u8; 32]);
    let b = SecretKey::from_entropy(3, [5u8; 32]);
    let c = SecretKey::from_entropy(3, [6u8; 32]);
    assert_eq!(a.bits[2].p1, b.bits[2].p1);
    assert_ne!(a.bits[2].p1, c.bits[2].p1);
    // the stream goes on: a longer key begins as a shorter one
    let d = SecretKey::from_entropy(5, [5u8; 32]);
    assert_eq!(a.bits[2].p0, d.bits[2].p0);
    assert_ne!(d.bits[3].p0, d.bits[2].p0);
}

#[test]
fn preimages_are_drawn_one_after_the_other() {
    let mut rng = <rand::rngs::StdRng as rand::SeedableRng>::from_seed([5u8; 32]);
    let mut draw = || {
        let mut p = [0u8; 20];
        rand::RngCore::fill_bytes(&mut rng, &mut p);
        p
    };
    let sk = SecretKey::from_entropy(7, [5u8; 32]);
    for bit in &sk.bits {
        assert_eq!(bit.p0, draw());
        assert_eq!(bit.p1, draw());
    }
}

#[test]
fn lamport_errors_come_where_they_are_due() {
    let sk = SecretKey::from_entropy(3, [4u8; 32]);
    let pk = sk.public();
    assert_eq!(
        sk.reveal_bits(&[true]),
        Err(LamportError::BitCount { given: 1, expected: 3 })
    );
    assert_eq!(sk.reveal_uint(8), Err(LamportError::ValueTooWide { value: 8, n_bits: 3 }));
    let r = sk.reveal_bits(&[true, false, true]).unwrap();
    assert_eq!(pk.decode_bits(&r).unwrap(), vec![true, false, true]);
    assert_eq!(
        pk.decode_bits(&r.slice(0..2)),
        Err(LamportError::PreimageCount { given: 2, expected: 3 })
    );
    let mut bad = r.clone();
    bad.preimages[1] = [0u8; 20];
    assert_eq!(pk.decode_bits(&bad), Err(LamportError::NoMatch { bit: 1 }));
    assert_eq!(
        Reveal::from_consumption_order(&[vec![0u8; 20], vec![0u8; 19]]),
        Err(LamportError::ElementLength { len: 19 })
    );
    let wide = SecretKey::from_entropy(33, [4u8; 32]);
    assert_eq!(wide.reveal_uint(1), Err(LamportError::KeyTooWide { n_bits: 33 }));
    let r = wide.reveal_bits(&[false; 33]).unwrap();
    assert_eq!(wide.public().decode_uint(&r), Err(LamportError::KeyTooWide { n_bits: 33 }));
}

#[test]
fn parameters_for_a_message() {
    let ps = WotsParams::for_bytes(20);
    assert_eq!((ps.message_digits, ps.checksum_digits, ps.total_digits()), (40, 3, 43));
    let ps = WotsParams::for_bytes(1);
    assert_eq!((ps.message_digits, ps.checksum_digits, ps.total_digits()), (2, 2, 4));
    assert_eq!(message_digits(&[0xAB, 0x0C]), vec![0xA, 0xB, 0x0, 0xC]);
}

#[test]
fn every_digit_starts_from_its_own_secret() {
    let sk = WotsSecret::from_entropy(WotsParams::for_bytes(1), [8u8; 32]);
    let sig = sk.sign(&[0xFF]).unwrap();
    assert_eq!(sig.digits, vec![15, 15, 0, 0]);
    assert_eq!(sig.message(), vec![0xFF]);
    // digit zero is not hashed further: the signature holds the digit's secret
    let mut seeded = vec![8u8; 32];
    seeded.push(2);
    assert_eq!(sig.hashes[2], hash160(&seeded));
    // digit fifteen is hashed fifteen times, up to the public key
    let mut h = hash160(&[8u8; 32]);
    for _ in 0..15 {
        h = hash160(&h);
    }
    assert_eq!(sig.hashes[0], h);
}

#[test]
fn winternitz_errors_come_where_they_are_due() {
    let ps = WotsParams::for_bytes(2);
    let sk = WotsSecret::from_entropy(ps, [1u8; 32]);
    let pk = sk.public();
    assert_eq!(sk.sign(&[1]), Err(WotsError::MessageLength { bytes: 1, message_digits: 4 }));
    let sig = sk.sign(&[1, 2]).unwrap();
    assert_eq!(pk.verify(&sig), Ok(vec![1, 2]));
    let mut bad = sig.clone();
    bad.digits[0] = 16;
    assert_eq!(pk.verify(&bad), Err(WotsError::DigitOutOfRange { digit: 0 }));
    let mut bad = sig.clone();
    bad.hashes[3][0] ^= 1;
    assert_eq!(pk.verify(&bad), Err(WotsError::ChainMismatch { digit: 3 }));
    let mut bad = sig.clone();
    bad.params = WotsParams::for_bytes(3);
    assert_eq!(pk.verify(&bad), Err(WotsError::ParamsMismatch));
    let mut bad = sig.clone();
    bad.digits[1] += 1;
    bad.hashes[1] = hash160(&bad.hashes[1]);
    assert_eq!(pk.verify(&bad), Err(WotsError::ChecksumMismatch));
    let items = sig.consumption_order();
    assert_eq!(
        WotsSig::from_consumption_order(ps, &items[1..]),
        Err(WotsError::ElementCount { given: 11, expected: 12 })
    );
    for (i, item) in items.iter().enumerate() {
        let mut bad = items.clone();
        bad[i] = vec![1; 2];
        let want = if item.len() == 20 { WotsError::HashLength } else { WotsError::DigitTooLong };
        assert_eq!(WotsSig::from_consumption_order(ps, &bad), Err(want));
    }
}

#[test]
fn a_store_signs_one_message_per_label() {
    let mut ks = KeyStore::new();
    let pk = ks.generate_wots("hdr", 4, [2u8; 32]).unwrap();
    let sig = ks.sign_wots("hdr", &[1, 2, 3, 4]).unwrap();
    assert_eq!(pk.verify(&sig).unwrap(), vec![1, 2, 3, 4]);
    assert_eq!(ks.sign_wots("hdr", &[1, 2, 3, 4]).unwrap(), sig);
    assert!(matches!(ks.sign_wots("hdr", &[1, 2, 3, 5]), Err(StoreError::Equivocation)));
    assert!(matches!(ks.sign_wots("other", &[1]), Err(StoreError::NoKey)));
    assert!(matches!(ks.generate_wots("hdr", 5, [2u8; 32]), Err(StoreError::ParamsUsed)));
    assert!(ks.wots_public("hdr").is_ok());
    assert!(matches!(ks.wots_public("other"), Err(StoreError::NoKey)));
    assert!(matches!(
        ks.sign_wots("hdr", &[1]),
        Err(StoreError::Equivocation)
    ));
    ks.generate_wots("fresh", 4, [2u8; 32]).unwrap();
    assert!(matches!(
        ks.sign_wots("fresh", &[1]),
        Err(StoreError::Wots(WotsError::MessageLength { bytes: 1, message_digits: 8 }))
    ));
    // the two kinds of keys do not share their labels
    assert!(ks.public("hdr").is_err());
    assert!(!ks.is_revealed("hdr"));
    ks.generate("hdr", 3, [2u8; 32]).unwrap();
    assert!(!ks.is_revealed("hdr"));
    assert!(matches!(
        ks.generate("hdr", 4, [2u8; 32]),
        Err(StoreError::LabelUsed { n_bits: 3 })
    ));
    assert!(matches!(
        ks.reveal_bits("hdr", &[true]),
        Err(StoreError::Lamport(LamportError::BitCount { given: 1, expected: 3 }))
    ));
    ks.reveal_bits("hdr", &[true, false, true]).unwrap();
    assert!(ks.is_revealed("hdr"));
    assert!(ks.reveal_bits("hdr", &[true, true, true]).is_err());
    assert_eq!(lamport_path("a/b"), "lamport/a/b");
    assert_eq!(wots_path("a/b"), "wots/a/b");
}
