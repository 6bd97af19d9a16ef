//! Lamport one-time bit commitments.
//!
//! A *bit commitment* is `(h0, h1) = (HASH160(p0), HASH160(p1))`. Revealing `p0`
//! commits the bit to 0, `p1` to 1. Revealing both is equivocation.
//! A *key* for an n-bit value is n bit commitments; bit `i` is
//! `(value >> i) & 1`, so index 0 is the least significant bit.
//!
//! A gadget consumes the top stack element first. `decode_uint` consumes the
//! most significant bit first, so a reveal's witness elements are pushed least
//! significant first.

pub mod entropy;
pub mod gadget_laws;
pub mod gadgets;
pub mod key_laws;
pub mod keystore;
pub mod keystore_laws;
pub mod laws;
pub mod store_laws;
pub mod winternitz;
pub mod winternitz_laws;

use vstd::arithmetic::power2::{lemma2_to64, lemma_pow2_adds, lemma_pow2_pos, pow2};
use vstd::bits::lemma_u32_shr_is_div;
use vstd::prelude::*;

use crate::hashing::{hash160, hash160_of, hash160_spec, same_hash, Hash160};
use crate::lamport::entropy::{seeded_bytes, seeded_stream};

verus! {

/// Length of a preimage in bytes.
pub const PREIMAGE_LEN: usize = 20;

/// A secret whose hash is published.
pub type Preimage = [u8; PREIMAGE_LEN];

/// Public half of one bit commitment.
#[derive(Clone, Copy, Debug, PartialEq, Eq)]
pub struct BitCommit {
    pub h0: Hash160,
    pub h1: Hash160,
}

/// Secret half of one bit commitment.
#[derive(Clone, Copy)]
pub struct BitSecret {
    pub p0: Preimage,
    pub p1: Preimage,
}

/// Public Lamport key for an n-bit value.
#[derive(Clone, Debug, PartialEq, Eq)]
pub struct PublicKey {
    pub bits: Vec<BitCommit>,
}

/// Secret Lamport key for an n-bit value.
#[derive(Clone)]
pub struct SecretKey {
    pub bits: Vec<BitSecret>,
}

/// Revealed preimages, `preimages[i]` for bit `i` (least significant first).
#[derive(Clone, Debug, PartialEq, Eq)]
pub struct Reveal {
    pub preimages: Vec<Preimage>,
}

/// Why a key or a reveal is refused.
#[derive(Clone, Copy, Debug, PartialEq, Eq, Structural)]
pub enum LamportError {
    /// `given` bits for a key of `expected` bits.
    BitCount { given: usize, expected: usize },
    /// A number asked of a key of more than 32 bits.
    KeyTooWide { n_bits: usize },
    /// The value does not fit in the key's bits.
    ValueTooWide { value: u32, n_bits: usize },
    /// `given` preimages for a key of `expected` bits.
    PreimageCount { given: usize, expected: usize },
    /// The preimage of this bit matches neither commitment.
    NoMatch { bit: usize },
    /// A witness element of this many bytes is not a preimage.
    ElementLength { len: usize },
}

impl View for Reveal {
    type V = Seq<Seq<u8>>;

    open spec fn view(&self) -> Seq<Seq<u8>> {
        Seq::new(self.preimages@.len(), |i: int| self.preimages@[i]@)
    }
}

impl View for SecretKey {
    type V = Seq<(Seq<u8>, Seq<u8>)>;

    /// The preimages of 0 and of 1, bit by bit.
    open spec fn view(&self) -> Seq<(Seq<u8>, Seq<u8>)> {
        Seq::new(self.bits@.len(), |i: int| (self.bits@[i].p0@, self.bits@[i].p1@))
    }
}

impl View for PublicKey {
    type V = Seq<(Seq<u8>, Seq<u8>)>;

    /// The hashes of 0 and of 1, bit by bit.
    open spec fn view(&self) -> Seq<(Seq<u8>, Seq<u8>)> {
        Seq::new(self.bits@.len(), |i: int| (self.bits@[i].h0@, self.bits@[i].h1@))
    }
}

// ----- numbers and bits -----

/// Bit `i` of a number.
pub open spec fn bit_of(value: nat, i: nat) -> bool {
    (value / pow2(i)) % 2 == 1
}

/// The lowest `n` bits of a number, least significant first.
pub open spec fn bits_of(value: nat, n: nat) -> Seq<bool> {
    Seq::new(n, |i: int| bit_of(value, i as nat))
}

pub open spec fn bit_value(b: bool) -> nat {
    if b {
        1
    } else {
        0
    }
}

/// The number that bits write, least significant first.
pub open spec fn bits_value(bits: Seq<bool>) -> nat
    decreases bits.len(),
{
    if bits.len() == 0 {
        0
    } else {
        bit_value(bits[0]) + 2 * bits_value(bits.skip(1))
    }
}

/// The lowest `n_bits` bits of `value`, least significant first.
pub fn uint_to_bits(value: u32, n_bits: usize) -> (bits: Vec<bool>)
    requires
        n_bits <= 32,
    ensures
        bits@ == bits_of(value as nat, n_bits as nat),
{
    let mut bits: Vec<bool> = Vec::with_capacity(n_bits);
    for i in 0..n_bits
        invariant
            n_bits <= 32,
            bits@.len() == i,
            forall|j: int| 0 <= j < i ==> bits@[j] == bit_of(value as nat, j as nat),
    {
        let shifted: u32 = value >> (i as u32);
        proof {
            lemma_u32_shr_is_div(value, i as u32);
        }
        bits.push(shifted % 2 == 1);
    }
    assert(bits@ =~= bits_of(value as nat, n_bits as nat));
    bits
}

/// The number that `bits` write, least significant first, modulo 2^32.
pub fn bits_to_uint(bits: &[bool]) -> (value: u32)
    ensures
        value == bits_value(bits@) % 0x1_0000_0000,
{
    let mut value: u32 = 0;
    let n: usize = bits.len();
    assert(bits@.skip(n as int).len() == 0);
    for k in 0..n
        invariant
            n == bits@.len(),
            value == bits_value(bits@.skip(n - k)) % 0x1_0000_0000,
    {
        let i: usize = n - 1 - k;
        let ghost tail = bits@.skip(i as int);
        assert(tail.skip(1) =~= bits@.skip(i + 1));
        assert(tail[0] == bits@[i as int]);
        let low: u32 = value % 0x8000_0000;
        value = low * 2 + if bits[i] { 1u32 } else { 0u32 };
    }
    assert(bits@.skip(0) =~= bits@);
    value
}

// ----- keys -----

impl BitSecret {
    /// A commitment to the two drawn preimages.
    pub fn generate(p0: Preimage, p1: Preimage) -> (s: BitSecret)
        ensures
            s.p0 == p0,
            s.p1 == p1,
    {
        BitSecret { p0, p1 }
    }

    /// The hashes of both preimages.
    pub open spec fn commit_spec(self) -> BitCommit {
        BitCommit { h0: hash160_of(self.p0@), h1: hash160_of(self.p1@) }
    }

    pub fn commit(&self) -> (c: BitCommit)
        ensures
            c == self.commit_spec(),
    {
        BitCommit { h0: hash160(self.p0.as_slice()), h1: hash160(self.p1.as_slice()) }
    }

    pub open spec fn preimage_spec(self, bit: bool) -> Preimage {
        if bit {
            self.p1
        } else {
            self.p0
        }
    }

    pub fn preimage(&self, bit: bool) -> (p: Preimage)
        ensures
            p == self.preimage_spec(bit),
    {
        if bit {
            self.p1
        } else {
            self.p0
        }
    }
}

/// The 20 bytes of `bytes` at `at`.
fn take_preimage(bytes: &[u8], at: usize) -> (p: Preimage)
    requires
        at + PREIMAGE_LEN <= bytes@.len(),
    ensures
        p@ == bytes@.subrange(at as int, at + PREIMAGE_LEN),
{
    let mut p: Preimage = [0u8; PREIMAGE_LEN];
    let len: usize = bytes.len();
    for i in 0..PREIMAGE_LEN
        invariant
            len == bytes@.len(),
            at + PREIMAGE_LEN <= len,
            forall|j: int| 0 <= j < i ==> p@[j] == bytes@[at + j],
    {
        p[i] = bytes[at + i];
    }
    assert(p@ =~= bytes@.subrange(at as int, at + PREIMAGE_LEN));
    p
}

/// Whether `bits` are the secrets cut out of `drawn`: the preimages of bit 0,
/// then those of bit 1, and so on, the preimage of 0 first.
pub open spec fn cut_from(bits: Seq<BitSecret>, drawn: Seq<u8>) -> bool {
    forall|i: int|
        0 <= i < bits.len() ==> {
            &&& (#[trigger] bits[i]).p0@ == drawn.subrange(40 * i, 40 * i + 20)
            &&& bits[i].p1@ == drawn.subrange(40 * i + 20, 40 * i + 40)
        }
}

impl SecretKey {
    /// A key of `n_bits` bits made of 40 drawn bytes per bit.
    pub fn generate(n_bits: usize, drawn: &[u8]) -> (sk: SecretKey)
        requires
            drawn@.len() == 40 * n_bits,
        ensures
            sk.bits@.len() == n_bits,
            cut_from(sk.bits@, drawn@),
    {
        let mut bits: Vec<BitSecret> = Vec::with_capacity(n_bits);
        let len: usize = drawn.len();
        for i in 0..n_bits
            invariant
                len == drawn@.len(),
                len == 40 * n_bits,
                bits@.len() == i,
                cut_from(bits@, drawn@),
        {
            let p0: Preimage = take_preimage(drawn, 40 * i);
            let p1: Preimage = take_preimage(drawn, 40 * i + 20);
            let ghost before = bits@;
            bits.push(BitSecret::generate(p0, p1));
            assert forall|j: int| 0 <= j < bits@.len() implies {
                &&& (#[trigger] bits@[j]).p0@ == drawn@.subrange(40 * j, 40 * j + 20)
                &&& bits@[j].p1@ == drawn@.subrange(40 * j + 20, 40 * j + 40)
            } by {
                if j < before.len() {
                    assert(before[j] == bits@[j]);
                }
            }
        }
        SecretKey { bits }
    }

    /// Deterministic key from 32 bytes of entropy.
    pub fn from_entropy(n_bits: usize, entropy: [u8; 32]) -> (sk: SecretKey)
        requires
            40 * n_bits <= usize::MAX,
        ensures
            sk.bits@.len() == n_bits,
            cut_from(sk.bits@, seeded_stream(entropy@, 40 * n_bits as nat)),
    {
        let drawn: Vec<u8> = seeded_bytes(entropy, 40 * n_bits);
        SecretKey::generate(n_bits, drawn.as_slice())
    }

    pub fn n_bits(&self) -> (n: usize)
        ensures
            n == self.bits@.len(),
    {
        self.bits.len()
    }

    /// The commitments of a key.
    pub open spec fn public_spec(self) -> Seq<BitCommit> {
        Seq::new(self.bits@.len(), |i: int| self.bits@[i].commit_spec())
    }

    pub fn public(&self) -> (pk: PublicKey)
        ensures
            pk.bits@ == self.public_spec(),
    {
        let mut bits: Vec<BitCommit> = Vec::with_capacity(self.bits.len());
        for i in 0..self.bits.len()
            invariant
                bits@.len() == i,
                forall|j: int| 0 <= j < i ==> bits@[j] == self.public_spec()[j],
        {
            bits.push(self.bits[i].commit());
        }
        assert(bits@ =~= self.public_spec());
        PublicKey { bits }
    }

    /// The preimages that commit to `bits`.
    pub open spec fn reveal_spec(self, bits: Seq<bool>) -> Seq<Seq<u8>> {
        Seq::new(bits.len(), |i: int| self.bits@[i].preimage_spec(bits[i])@)
    }

    pub fn reveal_bits(&self, bits: &[bool]) -> (r: Result<Reveal, LamportError>)
        ensures
            match r {
                Ok(reveal) => bits@.len() == self.bits@.len() && reveal@ == self.reveal_spec(bits@),
                Err(e) => bits@.len() != self.bits@.len() && e == (LamportError::BitCount {
                    given: bits@.len() as usize,
                    expected: self.bits@.len() as usize,
                }),
            },
    {
        if bits.len() != self.bits.len() {
            return Err(LamportError::BitCount { given: bits.len(), expected: self.bits.len() });
        }
        let mut preimages: Vec<Preimage> = Vec::with_capacity(bits.len());
        for i in 0..bits.len()
            invariant
                bits@.len() == self.bits@.len(),
                preimages@.len() == i,
                forall|j: int| 0 <= j < i ==> #[trigger] preimages@[j]@ == self.reveal_spec(bits@)[j],
        {
            preimages.push(self.bits[i].preimage(bits[i]));
        }
        let reveal = Reveal { preimages };
        assert(reveal@ =~= self.reveal_spec(bits@));
        Ok(reveal)
    }

    /// Why this key cannot reveal the number `value`, if it cannot.
    pub open spec fn refuses_uint(self, value: u32) -> Option<LamportError> {
        let n = self.bits@.len();
        if n > 32 {
            Some(LamportError::KeyTooWide { n_bits: n as usize })
        } else if value >= pow2(n) {
            Some(LamportError::ValueTooWide { value, n_bits: n as usize })
        } else {
            None
        }
    }

    pub fn reveal_uint(&self, value: u32) -> (r: Result<Reveal, LamportError>)
        ensures
            match self.refuses_uint(value) {
                Some(e) => r == Err::<Reveal, LamportError>(e),
                None => r matches Ok(reveal) && reveal@ == self.reveal_spec(
                    bits_of(value as nat, self.bits@.len()),
                ),
            },
    {
        let n: usize = self.n_bits();
        if n > 32 {
            return Err(LamportError::KeyTooWide { n_bits: n });
        }
        proof {
            lemma2_to64();
            lemma_pow2_pos(n as nat);
        }
        if n < 32 {
            let high: u32 = value >> (n as u32);
            proof {
                lemma_u32_shr_is_div(value, n as u32);
                lemma_below_iff_div_zero(value as nat, pow2(n as nat));
            }
            if high != 0 {
                return Err(LamportError::ValueTooWide { value, n_bits: n });
            }
        }
        self.reveal_bits(uint_to_bits(value, n).as_slice())
    }
}

proof fn lemma_below_iff_div_zero(v: nat, d: nat)
    requires
        d > 0,
    ensures
        v / d == 0 <==> v < d,
{
    vstd::arithmetic::div_mod::lemma_fundamental_div_mod(v as int, d as int);
    if v < d {
        vstd::arithmetic::div_mod::lemma_basic_div(v as int, d as int);
    } else {
        vstd::arithmetic::div_mod::lemma_div_non_zero(v as int, d as int);
    }
}

/// The bit that preimage `p` commits to under `c`, if any. A preimage of both
/// hashes counts as 1.
pub open spec fn decoded_bit(c: BitCommit, p: Seq<u8>) -> Option<bool> {
    if hash160_spec(p) == c.h1@ {
        Some(true)
    } else if hash160_spec(p) == c.h0@ {
        Some(false)
    } else {
        None
    }
}

/// Why a reveal does not decode under a key, if it does not: the first reason.
pub open spec fn decode_error(key: Seq<BitCommit>, reveal: Seq<Seq<u8>>) -> Option<LamportError> {
    if reveal.len() != key.len() {
        Some(
            LamportError::PreimageCount {
                given: reveal.len() as usize,
                expected: key.len() as usize,
            },
        )
    } else if first_unmatched(key, reveal, 0) < key.len() {
        Some(LamportError::NoMatch { bit: first_unmatched(key, reveal, 0) as usize })
    } else {
        None
    }
}

/// The first bit from `i` on whose preimage matches neither commitment, or the
/// number of bits.
pub open spec fn first_unmatched(key: Seq<BitCommit>, reveal: Seq<Seq<u8>>, i: int) -> int
    decreases key.len() - i,
{
    if i >= key.len() {
        key.len() as int
    } else if decoded_bit(key[i], reveal[i]) is None {
        i
    } else {
        first_unmatched(key, reveal, i + 1)
    }
}

/// The bits that a reveal commits to under a key.
pub open spec fn decoded(key: Seq<BitCommit>, reveal: Seq<Seq<u8>>) -> Seq<bool> {
    Seq::new(key.len(), |i: int| decoded_bit(key[i], reveal[i]).unwrap())
}

impl PublicKey {
    pub fn n_bits(&self) -> (n: usize)
        ensures
            n == self.bits@.len(),
    {
        self.bits.len()
    }

    /// A sub-key covering the bits of `range`.
    pub fn slice(&self, range: core::ops::Range<usize>) -> (pk: PublicKey)
        requires
            range.start <= range.end <= self.bits@.len(),
        ensures
            pk.bits@ == self.bits@.subrange(range.start as int, range.end as int),
    {
        let part: &[BitCommit] = vstd::slice::slice_subrange(
            self.bits.as_slice(),
            range.start,
            range.end,
        );
        PublicKey { bits: vstd::slice::slice_to_vec(part) }
    }

    /// Which bit each preimage commits to. Fails if any preimage matches
    /// neither hash.
    pub fn decode_bits(&self, reveal: &Reveal) -> (r: Result<Vec<bool>, LamportError>)
        ensures
            match decode_error(self.bits@, reveal@) {
                Some(e) => r == Err::<Vec<bool>, LamportError>(e),
                None => r matches Ok(bits) && bits@ == decoded(self.bits@, reveal@),
            },
    {
        let n: usize = self.bits.len();
        if reveal.preimages.len() != n {
            return Err(
                LamportError::PreimageCount { given: reveal.preimages.len(), expected: n },
            );
        }
        let mut out: Vec<bool> = Vec::with_capacity(n);
        for i in 0..n
            invariant
                n == self.bits@.len(),
                n == reveal@.len(),
                n == reveal.preimages@.len(),
                out@.len() == i,
                forall|j: int| 0 <= j < i ==> out@[j] == decoded(self.bits@, reveal@)[j],
                first_unmatched(self.bits@, reveal@, 0) == first_unmatched(
                    self.bits@,
                    reveal@,
                    i as int,
                ),
        {
            let c: BitCommit = self.bits[i];
            assert(reveal@[i as int] == reveal.preimages@[i as int]@);
            let h: Hash160 = hash160(reveal.preimages[i].as_slice());
            if same_hash(&h, &c.h1) {
                out.push(true);
            } else if same_hash(&h, &c.h0) {
                out.push(false);
            } else {
                return Err(LamportError::NoMatch { bit: i });
            }
        }
        assert(out@ =~= decoded(self.bits@, reveal@));
        Ok(out)
    }

    pub fn decode_uint(&self, reveal: &Reveal) -> (r: Result<u32, LamportError>)
        ensures
            if self.bits@.len() > 32 {
                r == Err::<u32, LamportError>(
                    LamportError::KeyTooWide { n_bits: self.bits@.len() as usize },
                )
            } else {
                match decode_error(self.bits@, reveal@) {
                    Some(e) => r == Err::<u32, LamportError>(e),
                    None => r matches Ok(v) && v == bits_value(decoded(self.bits@, reveal@)),
                }
            },
    {
        let n: usize = self.n_bits();
        if n > 32 {
            return Err(LamportError::KeyTooWide { n_bits: n });
        }
        match self.decode_bits(reveal) {
            Ok(bits) => {
                proof {
                    lemma_bits_value_bound(bits@);
                    lemma_pow2_at_most_32(n as nat);
                }
                Ok(bits_to_uint(bits.as_slice()))
            },
            Err(e) => Err(e),
        }
    }
}

proof fn lemma_pow2_at_most_32(n: nat)
    requires
        n <= 32,
    ensures
        pow2(n) <= 0x1_0000_0000,
{
    lemma_pow2_adds(n, (32 - n) as nat);
    lemma_pow2_pos((32 - n) as nat);
    lemma_pow2_pos(n);
    lemma2_to64();
    assert(pow2(n) <= pow2(n) * pow2((32 - n) as nat)) by (nonlinear_arith)
        requires
            pow2((32 - n) as nat) >= 1,
            pow2(n) >= 0,
    ;
}

/// `n` bits write a number below 2^n.
pub proof fn lemma_bits_value_bound(bits: Seq<bool>)
    ensures
        bits_value(bits) < pow2(bits.len()),
    decreases bits.len(),
{
    lemma2_to64();
    if bits.len() > 0 {
        lemma_bits_value_bound(bits.skip(1));
        lemma_pow2_adds(1, (bits.len() - 1) as nat);
    }
}

// ----- witness elements -----

/// The byte strings of a list of witness elements.
pub open spec fn items_view(items: Seq<Vec<u8>>) -> Seq<Seq<u8>> {
    Seq::new(items.len(), |i: int| items[i]@)
}

/// A reveal's witness elements, most significant bit first.
pub open spec fn consumption_spec(revealed: Seq<Seq<u8>>) -> Seq<Seq<u8>> {
    revealed.reverse()
}

/// The reveal that witness elements in consumption order make up. The elements
/// are read from the last one on; the first that is not as long as a preimage
/// is the error.
pub open spec fn rebuild_spec(items: Seq<Seq<u8>>) -> Result<Seq<Seq<u8>>, LamportError>
    decreases items.len(),
{
    if items.len() == 0 {
        Ok(Seq::empty())
    } else if items.last().len() != PREIMAGE_LEN {
        Err(LamportError::ElementLength { len: items.last().len() as usize })
    } else {
        match rebuild_spec(items.drop_last()) {
            Ok(rest) => Ok(seq![items.last()] + rest),
            Err(e) => Err(e),
        }
    }
}

impl Reveal {
    /// Witness elements in the order in which `decode_uint` and `expect_uint`
    /// consume them (most significant first).
    pub fn consumption_order(&self) -> (items: Vec<Vec<u8>>)
        ensures
            items_view(items@) == consumption_spec(self@),
    {
        let n: usize = self.preimages.len();
        let mut items: Vec<Vec<u8>> = Vec::with_capacity(n);
        for i in 0..n
            invariant
                n == self.preimages@.len(),
                items@.len() == i,
                forall|j: int| 0 <= j < i ==> (#[trigger] items@[j])@ == self@.reverse()[j],
        {
            items.push(vstd::slice::slice_to_vec(self.preimages[n - 1 - i].as_slice()));
        }
        assert(items_view(items@) =~= consumption_spec(self@));
        items
    }

    /// Sub-reveal for the bits of `range`.
    pub fn slice(&self, range: core::ops::Range<usize>) -> (r: Reveal)
        requires
            range.start <= range.end <= self@.len(),
        ensures
            r@ == self@.subrange(range.start as int, range.end as int),
    {
        let part: &[Preimage] = vstd::slice::slice_subrange(
            self.preimages.as_slice(),
            range.start,
            range.end,
        );
        let r = Reveal { preimages: vstd::slice::slice_to_vec(part) };
        assert(r@ =~= self@.subrange(range.start as int, range.end as int));
        r
    }

    /// Rebuild a reveal from witness elements taken in consumption order. Fails
    /// on an element that is not as long as a preimage.
    pub fn from_consumption_order(items: &[Vec<u8>]) -> (r: Result<Reveal, LamportError>)
        ensures
            match rebuild_spec(items_view(items@)) {
                Ok(reveal) => r matches Ok(built) && built@ == reveal,
                Err(e) => r == Err::<Reveal, LamportError>(e),
            },
    {
        let n: usize = items.len();
        let ghost all = items_view(items@);
        let mut preimages: Vec<Preimage> = Vec::with_capacity(n);
        let ghost mut taken: Seq<Seq<u8>> = Seq::empty();
        assert(all.take(n as int) =~= all);
        for k in 0..n
            invariant
                n == items@.len(),
                all == items_view(items@),
                preimages@.len() == k,
                taken.len() == k,
                forall|j: int| 0 <= j < k ==> #[trigger] preimages@[j]@ == taken[j],
                match rebuild_spec(all.take(n - k)) {
                    Ok(rest) => rebuild_spec(all) == Ok::<Seq<Seq<u8>>, LamportError>(taken + rest),
                    Err(e) => rebuild_spec(all) == Err::<Seq<Seq<u8>>, LamportError>(e),
                },
        {
            let it: &Vec<u8> = &items[n - 1 - k];
            let ghost left = all.take(n - k);
            assert(left.last() == it@);
            assert(left.drop_last() =~= all.take(n - k - 1));
            if it.len() != PREIMAGE_LEN {
                return Err(LamportError::ElementLength { len: it.len() });
            }
            let p: Preimage = take_preimage(it.as_slice(), 0);
            assert(p@ =~= it@);
            preimages.push(p);
            proof {
                let before = taken;
                taken = taken.push(it@);
                if let Ok(rest) = rebuild_spec(left.drop_last()) {
                    assert(before + (seq![it@] + rest) =~= taken + rest);
                }
            }
        }
        let reveal = Reveal { preimages };
        assert(all.take(0).len() == 0);
        assert(taken + Seq::<Seq<u8>>::empty() =~= taken);
        assert(reveal@ =~= taken);
        Ok(reveal)
    }
}

} // verus!
