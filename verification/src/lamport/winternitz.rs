//! Winternitz one-time signatures for byte strings (midstates, digests):
//! 4-bit digits, so a 32-byte message is 64 digits plus 3 checksum digits.
//!
//! Digit `i` is nibble `i` of the message in message order (high nibble of
//! byte 0 first), so after verification the digits sit on the stack with the
//! *last* nibble on top.

use vstd::arithmetic::power::pow;
use vstd::prelude::*;

use crate::hashing::{hash160, hash160_spec, same_hash, Hash160};
use crate::lamport::items_view;
use crate::n4bit::{all_nibbles, bytes_to_nibbles, nibbles_of};
use crate::script::machine::{le_bytes, Ins};
use crate::script::opcodes::{
    OP_2DROP, OP_2DUP, OP_ADD, OP_DROP, OP_DUP, OP_ELSE, OP_ENDIF, OP_EQUALVERIFY,
    OP_FROMALTSTACK, OP_HASH160, OP_IF, OP_LESSTHAN, OP_MIN, OP_NEGATE, OP_PICK, OP_SIZE, OP_SUB,
    OP_SWAP, OP_TOALTSTACK, OP_TUCK,
};
use crate::script::{repeat_ins, ScriptBuilder};

verus! {

/// Bits per digit.
pub const LOG2_BASE: u32 = 4;

/// The largest digit.
pub const MAX_DIGIT: u32 = 15;

/// How many digits a key signs.
#[derive(Clone, Copy, Debug, PartialEq, Eq, Structural)]
pub struct WotsParams {
    pub message_digits: u32,
    pub checksum_digits: u32,
}

/// Public key: one hash per digit (message digits, then checksum digits).
#[derive(Clone, Debug, PartialEq, Eq)]
pub struct WotsPublic {
    pub params: WotsParams,
    pub digits: Vec<Hash160>,
}

/// Secret key: 32 bytes from which every digit's secret is derived.
#[derive(Clone)]
pub struct WotsSecret {
    pub params: WotsParams,
    secret: [u8; 32],
}

/// A signature: per digit, `(H^digit(sk_i), digit)`.
#[derive(Clone, Debug, PartialEq, Eq)]
pub struct WotsSig {
    pub params: WotsParams,
    pub hashes: Vec<Hash160>,
    pub digits: Vec<u8>,
}

/// Why a message, a witness or a signature is refused.
#[derive(Clone, Copy, Debug, PartialEq, Eq, Structural)]
pub enum WotsError {
    /// A message of `bytes` bytes for a key of `message_digits` digits.
    MessageLength { bytes: usize, message_digits: u32 },
    /// `given` witness elements where `expected` were due.
    ElementCount { given: usize, expected: usize },
    /// A digit element of more than one byte.
    DigitTooLong,
    /// A hash element that is not 20 bytes long.
    HashLength,
    /// The signature is for other parameters.
    ParamsMismatch,
    /// A digit above the largest digit.
    DigitOutOfRange { digit: usize },
    /// The digit's hash chain does not reach the public key.
    ChainMismatch { digit: usize },
    /// The checksum digits are not those of the message digits.
    ChecksumMismatch,
}

/// How many base-16 digits `v` has.
pub open spec fn base16_len(v: nat) -> nat
    decreases v,
{
    if v == 0 {
        0
    } else {
        1 + base16_len(v / 16)
    }
}

/// The parameters for messages of `n_bytes` bytes: two digits per byte, and as
/// many checksum digits as the largest checksum has.
pub open spec fn params_for(n_bytes: u32) -> WotsParams {
    WotsParams {
        message_digits: (2 * n_bytes) as u32,
        checksum_digits: base16_len((MAX_DIGIT * (2 * n_bytes)) as nat) as u32,
    }
}

/// The digits of a number are the least that fit it.
proof fn lemma_base16_len_least(v: nat, c: nat)
    requires
        v < pow(16, c),
        c > 0 ==> pow(16, (c - 1) as nat) <= v,
    ensures
        base16_len(v) == c,
    decreases c,
{
    reveal_with_fuel(pow, 3);
    if c > 0 {
        vstd::arithmetic::power::lemma_pow_positive(16, (c - 1) as nat);
        lemma_base16_len_least(v / 16, (c - 1) as nat);
    }
}

impl WotsParams {
    /// The total number of digits.
    pub open spec fn total(self) -> nat {
        (self.message_digits + self.checksum_digits) as nat
    }

    /// Whether the checksum of every message fits in the checksum digits.
    pub open spec fn checksum_fits(self) -> bool {
        MAX_DIGIT * self.message_digits < pow(16, self.checksum_digits as nat)
    }

    /// Parameters for messages of `n_bytes` bytes: two digits per byte, and as
    /// many checksum digits as the largest checksum has in base 16.
    pub fn for_bytes(n_bytes: u32) -> (params: WotsParams)
        requires
            30 * n_bytes + 1 <= u32::MAX,
        ensures
            params == params_for(n_bytes),
            params.checksum_fits(),
            params.checksum_digits <= 8,
    {
        let message_digits: u32 = n_bytes * 2;
        let limit: u64 = (MAX_DIGIT * message_digits + 1) as u64;
        let mut checksum_digits: u32 = 0;
        let mut cur: u64 = 1;
        proof {
            reveal_with_fuel(pow, 2);
        }
        while cur < limit
            invariant
                limit <= u32::MAX,
                cur >= 1,
                cur == pow(16, checksum_digits as nat),
                checksum_digits > 0 ==> pow(16, (checksum_digits - 1) as nat) < limit,
                checksum_digits <= 8,
            decreases 9 - checksum_digits,
        {
            proof {
                reveal_with_fuel(pow, 10);
                if checksum_digits == 8 {
                    assert(pow(16, 8) == 0x1_0000_0000);
                }
            }
            cur = cur * 16;
            checksum_digits += 1;
        }
        proof {
            lemma_base16_len_least(
                (MAX_DIGIT * message_digits) as nat,
                checksum_digits as nat,
            );
        }
        WotsParams { message_digits, checksum_digits }
    }

    pub fn total_digits(&self) -> (n: u32)
        requires
            self.total() <= u32::MAX,
        ensures
            n == self.total(),
    {
        self.message_digits + self.checksum_digits
    }
}

// ----- hash chains and digits -----

/// `h` hashed `n` times.
pub open spec fn hash_times_spec(h: Seq<u8>, n: nat) -> Seq<u8>
    decreases n,
{
    if n == 0 {
        h
    } else {
        hash160_spec(hash_times_spec(h, (n - 1) as nat))
    }
}

/// The start of the hash chain of digit `index`: the hash of the secret
/// followed by the index, least significant byte first, no byte for zero.
pub open spec fn digit_secret_spec(secret: Seq<u8>, index: nat) -> Seq<u8> {
    hash160_spec(secret + le_bytes(index))
}

/// The sum of digits.
pub open spec fn digit_sum(digits: Seq<u8>) -> nat
    decreases digits.len(),
{
    if digits.len() == 0 {
        0
    } else {
        digit_sum(digits.drop_last()) + digits.last() as nat
    }
}

/// The `n` last base-16 digits of `c`, most significant first.
pub open spec fn base16(c: nat, n: nat) -> Seq<u8>
    decreases n,
{
    if n == 0 {
        Seq::empty()
    } else {
        base16(c / 16, (n - 1) as nat).push((c % 16) as u8)
    }
}

/// The checksum: how far the message digits are from all being the largest.
pub open spec fn checksum_of(params: WotsParams, digits: Seq<u8>) -> int {
    MAX_DIGIT * params.message_digits - digit_sum(digits)
}

/// The checksum digits of message digits.
pub open spec fn checksum_spec(params: WotsParams, digits: Seq<u8>) -> Seq<u8> {
    base16(checksum_of(params, digits) as nat, params.checksum_digits as nat)
}

/// All digits of a message: its nibbles, then the checksum.
pub open spec fn signed_digits(params: WotsParams, msg: Seq<u8>) -> Seq<u8> {
    nibbles_of(msg) + checksum_spec(params, nibbles_of(msg))
}

fn digit_secret(secret: &[u8; 32], index: u32) -> (h: Hash160)
    ensures
        h@ == digit_secret_spec(secret@, index as nat),
{
    let mut s: Vec<u8> = vstd::slice::slice_to_vec(secret.as_slice());
    let mut i: u32 = index;
    while i > 0
        invariant
            s@ + le_bytes(i as nat) == secret@ + le_bytes(index as nat),
        decreases i,
    {
        let ghost before = s@;
        s.push((i % 256) as u8);
        assert(s@ + le_bytes((i / 256) as nat) =~= before + le_bytes(i as nat));
        i = i / 256;
    }
    assert(s@ + le_bytes(0) =~= s@);
    hash160(s.as_slice())
}

fn hash_times(h: Hash160, n: u32) -> (r: Hash160)
    ensures
        r@ == hash_times_spec(h@, n as nat),
{
    let mut r: Hash160 = h;
    for i in 0..n
        invariant
            r@ == hash_times_spec(h@, i as nat),
    {
        r = hash160(r.as_slice());
    }
    r
}

/// The digits of a message: its nibbles, high nibble first.
pub fn message_digits(msg: &[u8]) -> (digits: Vec<u8>)
    requires
        2 * msg@.len() <= usize::MAX,
    ensures
        digits@ == nibbles_of(msg@),
{
    bytes_to_nibbles(msg)
}

/// The sum of digits is at most 15 for each.
pub proof fn lemma_digit_sum_bound(digits: Seq<u8>)
    requires
        all_nibbles(digits),
    ensures
        digit_sum(digits) <= MAX_DIGIT * digits.len(),
    decreases digits.len(),
{
    if digits.len() > 0 {
        assert(digits.last() < 16);
        assert forall|i: int| 0 <= i < digits.drop_last().len() implies #[trigger] digits.drop_last()[i]
            < 16 by {
            assert(digits[i] < 16);
        }
        lemma_digit_sum_bound(digits.drop_last());
    }
}

proof fn lemma_base16_len(c: nat, n: nat)
    ensures
        base16(c, n).len() == n,
        all_nibbles(base16(c, n)),
    decreases n,
{
    if n > 0 {
        lemma_base16_len(c / 16, (n - 1) as nat);
    }
}

fn checksum_digits(ps: &WotsParams, digits: &[u8]) -> (out: Vec<u8>)
    requires
        all_nibbles(digits@),
        digits@.len() == ps.message_digits,
        MAX_DIGIT * ps.message_digits <= u32::MAX,
    ensures
        out@ == checksum_spec(*ps, digits@),
{
    let mut sum: u32 = 0;
    assert(digits@.take(0).len() == 0);
    for i in 0..digits.len()
        invariant
            all_nibbles(digits@),
            digits@.len() == ps.message_digits,
            MAX_DIGIT * ps.message_digits <= u32::MAX,
            sum == digit_sum(digits@.take(i as int)),
            sum <= MAX_DIGIT * i,
    {
        assert(digits@.take(i + 1).drop_last() =~= digits@.take(i as int));
        assert(digits@[i as int] < 16);
        sum = sum + digits[i] as u32;
    }
    assert(digits@.take(digits@.len() as int) =~= digits@);
    let mut c: u32 = MAX_DIGIT * ps.message_digits - sum;
    let n: usize = ps.checksum_digits as usize;
    let mut out: Vec<u8> = Vec::new();
    for k in 0..n
        invariant
            out@.len() == k,
            forall|j: int| 0 <= j < k ==> out@[j] == 0,
    {
        out.push(0);
    }
    let ghost total = c as nat;
    let ghost want = base16(total, n as nat);
    proof {
        lemma_base16_len(total, n as nat);
    }
    for k in 0..n
        invariant
            out@.len() == n,
            want.len() == n,
            want == base16(total, n as nat),
            base16(c as nat, (n - k) as nat) == want.take(n - k),
            forall|j: int| n - k <= j < n ==> out@[j] == want[j],
    {
        proof {
            let left = (n - k) as nat;
            lemma_base16_len(c as nat, left);
            lemma_base16_len((c / 16) as nat, (left - 1) as nat);
            let digits_left = base16(c as nat, left);
            assert(digits_left[left - 1] == (c % 16) as u8);
            assert(want[left - 1] == want.take(left as int)[left - 1]);
            assert(base16((c / 16) as nat, (left - 1) as nat) =~= digits_left.take(left - 1));
            assert(want.take(left as int).take(left - 1) =~= want.take(left - 1));
        }
        let at: usize = n - 1 - k;
        out[at] = (c % 16) as u8;
        c = c / 16;
    }
    assert(out@ =~= want);
    out
}

// ----- keys and signatures -----

impl WotsSecret {
    /// The bytes from which the digits' secrets are derived.
    pub closed spec fn entropy(self) -> Seq<u8> {
        self.secret@
    }

    /// How many digits this key signs.
    pub closed spec fn key_params(self) -> WotsParams {
        self.params
    }

    /// How many digits this key signs.
    pub fn params(&self) -> (params: WotsParams)
        ensures
            params == self.key_params(),
    {
        self.params
    }

    /// The same key again.
    pub(crate) fn copy(&self) -> (sk: WotsSecret)
        ensures
            sk.key_params() == self.key_params(),
            sk.entropy() == self.entropy(),
    {
        WotsSecret { params: self.params, secret: self.secret }
    }

    pub fn from_entropy(params: WotsParams, secret: [u8; 32]) -> (sk: WotsSecret)
        ensures
            sk.key_params() == params,
            sk.entropy() == secret@,
    {
        WotsSecret { params, secret }
    }

    /// The end of the hash chain of digit `i`.
    pub open spec fn public_digit(self, i: int) -> Seq<u8> {
        hash_times_spec(digit_secret_spec(self.entropy(), i as nat), MAX_DIGIT as nat)
    }

    pub fn public(&self) -> (pk: WotsPublic)
        requires
            self.key_params().total() <= u32::MAX,
        ensures
            pk.params == self.key_params(),
            pk.digits@.len() == self.key_params().total(),
            forall|i: int|
                0 <= i < pk.digits@.len() ==> (#[trigger] pk.digits@[i])@ == self.public_digit(i),
    {
        let total: u32 = self.params.total_digits();
        let mut digits: Vec<Hash160> = Vec::new();
        for i in 0..total
            invariant
                total == self.key_params().total(),
                digits@.len() == i,
                forall|j: int|
                    0 <= j < i ==> (#[trigger] digits@[j])@ == self.public_digit(j),
        {
            digits.push(hash_times(digit_secret(&self.secret, i), MAX_DIGIT));
        }
        WotsPublic { params: self.params, digits }
    }

    /// Whether `sig` is this key's signature of the digits `digits`.
    pub open spec fn signs(self, sig: WotsSig, digits: Seq<u8>) -> bool {
        &&& sig.params == self.key_params()
        &&& sig.digits@ == digits
        &&& sig.hashes@.len() == digits.len()
        &&& forall|i: int|
            0 <= i < digits.len() ==> (#[trigger] sig.hashes@[i])@ == hash_times_spec(
                digit_secret_spec(self.entropy(), i as nat),
                digits[i] as nat,
            )
    }

    pub fn sign(&self, msg: &[u8]) -> (r: Result<WotsSig, WotsError>)
        requires
            2 * msg@.len() == self.key_params().message_digits ==> {
                &&& self.key_params().total() <= u32::MAX
                &&& MAX_DIGIT * self.key_params().message_digits <= u32::MAX
            },
        ensures
            if 2 * msg@.len() == self.key_params().message_digits {
                r matches Ok(sig) && self.signs(sig, signed_digits(self.key_params(), msg@))
            } else {
                r == Err::<WotsSig, WotsError>(
                    WotsError::MessageLength {
                        bytes: msg@.len() as usize,
                        message_digits: self.key_params().message_digits,
                    },
                )
            },
    {
        let expected: u32 = self.params.message_digits;
        if msg.len() as u128 * 2 != expected as u128 {
            return Err(WotsError::MessageLength { bytes: msg.len(), message_digits: expected });
        }
        let mut digits: Vec<u8> = message_digits(msg);
        proof {
            assert(all_nibbles(nibbles_of(msg@)));
        }
        let mut check: Vec<u8> = checksum_digits(&self.params, digits.as_slice());
        proof {
            lemma_base16_len(
                checksum_of(self.key_params(), nibbles_of(msg@)) as nat,
                self.key_params().checksum_digits as nat,
            );
        }
        digits.append(&mut check);
        assert(digits@ =~= signed_digits(self.key_params(), msg@));
        let n: usize = digits.len();
        let mut hashes: Vec<Hash160> = Vec::with_capacity(n);
        for i in 0..n
            invariant
                n == digits@.len(),
                n <= u32::MAX,
                hashes@.len() == i,
                forall|j: int|
                    0 <= j < i ==> (#[trigger] hashes@[j])@ == hash_times_spec(
                        digit_secret_spec(self.entropy(), j as nat),
                        digits@[j] as nat,
                    ),
        {
            hashes.push(hash_times(digit_secret(&self.secret, i as u32), digits[i] as u32));
        }
        Ok(WotsSig { params: self.params, hashes, digits })
    }
}

/// A digit as a witness element: nothing for 0, else its byte.
pub open spec fn digit_item(d: u8) -> Seq<u8> {
    if d == 0 {
        Seq::empty()
    } else {
        seq![d]
    }
}

fn scriptnum(d: u8) -> (item: Vec<u8>)
    ensures
        item@ == digit_item(d),
{
    let mut item: Vec<u8> = Vec::new();
    if d != 0 {
        item.push(d);
    }
    assert(item@ =~= digit_item(d));
    item
}

/// The witness elements of digits and hashes in consumption order: digit and
/// hash of the last digit, then of the one before it, and so on.
pub open spec fn sig_items(digits: Seq<u8>, hashes: Seq<Seq<u8>>) -> Seq<Seq<u8>> {
    Seq::new(
        2 * digits.len(),
        |k: int|
            {
                let i = digits.len() - 1 - k / 2;
                if k % 2 == 0 {
                    digit_item(digits[i])
                } else {
                    hashes[i]
                }
            },
    )
}

/// The bytes of hashes.
pub open spec fn hashes_view(hashes: Seq<Hash160>) -> Seq<Seq<u8>> {
    Seq::new(hashes.len(), |i: int| hashes[i]@)
}

/// The message byte of two digits.
pub open spec fn digit_pair(high: u8, low: u8) -> u8 {
    (high << 4u8) | low
}

/// The bytes of message digits, two digits each.
pub open spec fn message_spec(digits: Seq<u8>) -> Seq<u8> {
    Seq::new(digits.len() / 2, |i: int| digit_pair(digits[2 * i], digits[2 * i + 1]))
}

/// The elements of digit `i` in `2 * n` witness elements: digit, then hash.
pub open spec fn digit_at(items: Seq<Seq<u8>>, n: int, i: int) -> Seq<u8> {
    items[2 * (n - 1 - i)]
}

pub open spec fn hash_at(items: Seq<Seq<u8>>, n: int, i: int) -> Seq<u8> {
    items[2 * (n - 1 - i) + 1]
}

/// The digit that a witness element writes.
pub open spec fn item_digit(item: Seq<u8>) -> u8 {
    if item.len() == 0 {
        0
    } else {
        item[0]
    }
}

/// Why the elements from digit `i` on are not those of a signature, if they are
/// not: the first reason.
pub open spec fn items_error(items: Seq<Seq<u8>>, n: int, i: int) -> Option<WotsError>
    decreases n - i,
{
    if i >= n {
        None
    } else if digit_at(items, n, i).len() > 1 {
        Some(WotsError::DigitTooLong)
    } else if hash_at(items, n, i).len() != 20 {
        Some(WotsError::HashLength)
    } else {
        items_error(items, n, i + 1)
    }
}

impl WotsSig {
    /// Witness elements in consumption order (top of the stack first):
    /// `digit[last], hash[last], ..., digit[0], hash[0]`.
    pub fn consumption_order(&self) -> (items: Vec<Vec<u8>>)
        requires
            self.digits@.len() <= self.hashes@.len(),
            2 * self.digits@.len() <= usize::MAX,
        ensures
            items_view(items@) == sig_items(self.digits@, hashes_view(self.hashes@)),
    {
        let n: usize = self.digits.len();
        let ghost want = sig_items(self.digits@, hashes_view(self.hashes@));
        let mut items: Vec<Vec<u8>> = Vec::with_capacity(2 * n);
        for k in 0..n
            invariant
                n == self.digits@.len(),
                n <= self.hashes@.len(),
                want == sig_items(self.digits@, hashes_view(self.hashes@)),
                items@.len() == 2 * k,
                forall|j: int| 0 <= j < 2 * k ==> (#[trigger] items@[j])@ == want[j],
        {
            let i: usize = n - 1 - k;
            items.push(scriptnum(self.digits[i]));
            items.push(vstd::slice::slice_to_vec(self.hashes[i].as_slice()));
        }
        assert(items_view(items@) =~= want);
        items
    }

    /// The message bytes this signature commits to.
    pub fn message(&self) -> (msg: Vec<u8>)
        requires
            self.params.message_digits <= self.digits@.len(),
            self.params.message_digits % 2 == 0,
        ensures
            msg@ == message_spec(self.digits@.take(self.params.message_digits as int)),
    {
        let n: usize = self.params.message_digits as usize;
        let ghost digits = self.digits@.take(n as int);
        let mut msg: Vec<u8> = Vec::with_capacity(n / 2);
        for i in 0..n / 2
            invariant
                n == self.params.message_digits,
                n <= self.digits@.len(),
                digits == self.digits@.take(n as int),
                msg@.len() == i,
                forall|j: int| 0 <= j < i ==> msg@[j] == message_spec(digits)[j],
        {
            msg.push((self.digits[2 * i] << 4u8) | self.digits[2 * i + 1]);
        }
        assert(msg@ =~= message_spec(digits));
        msg
    }

    /// Rebuild from witness elements in consumption order.
    pub fn from_consumption_order(params: WotsParams, items: &[Vec<u8>]) -> (r: Result<
        WotsSig,
        WotsError,
    >)
        requires
            params.total() <= u32::MAX,
            2 * params.total() <= usize::MAX,
        ensures
            ({
                let n = params.total();
                let given = items_view(items@);
                if given.len() != 2 * n {
                    r == Err::<WotsSig, WotsError>(
                        WotsError::ElementCount {
                            given: given.len() as usize,
                            expected: (2 * n) as usize,
                        },
                    )
                } else {
                    match items_error(given, n as int, 0) {
                        Some(e) => r == Err::<WotsSig, WotsError>(e),
                        None => {
                            &&& r matches Ok(sig)
                            &&& sig.params == params
                            &&& sig.digits@ == Seq::new(
                                n,
                                |i: int| item_digit(digit_at(given, n as int, i)),
                            )
                            &&& hashes_view(sig.hashes@) == Seq::new(
                                n,
                                |i: int| hash_at(given, n as int, i),
                            )
                        },
                    }
                }
            }),
    {
        let n: usize = params.total_digits() as usize;
        if items.len() != 2 * n {
            return Err(WotsError::ElementCount { given: items.len(), expected: 2 * n });
        }
        let ghost given = items_view(items@);
        let mut digits: Vec<u8> = Vec::with_capacity(n);
        let mut hashes: Vec<Hash160> = Vec::with_capacity(n);
        for i in 0..n
            invariant
                n == params.total(),
                2 * n <= usize::MAX,
                items@.len() == 2 * n,
                given == items_view(items@),
                digits@.len() == i,
                hashes@.len() == i,
                forall|j: int|
                    0 <= j < i ==> digits@[j] == item_digit(digit_at(given, n as int, j)),
                forall|j: int| 0 <= j < i ==> (#[trigger] hashes@[j])@ == hash_at(given, n as int, j),
                items_error(given, n as int, 0) == items_error(given, n as int, i as int),
        {
            let d: &Vec<u8> = &items[2 * (n - 1 - i)];
            let h: &Vec<u8> = &items[2 * (n - 1 - i) + 1];
            assert(d@ == digit_at(given, n as int, i as int));
            assert(h@ == hash_at(given, n as int, i as int));
            if d.len() > 1 {
                return Err(WotsError::DigitTooLong);
            }
            if h.len() != 20 {
                return Err(WotsError::HashLength);
            }
            let digit: u8 = if d.len() == 0 {
                0
            } else {
                d[0]
            };
            digits.push(digit);
            let mut hash: Hash160 = [0u8; 20];
            for k in 0..20usize
                invariant
                    h@.len() == 20,
                    forall|j: int| 0 <= j < k ==> hash@[j] == h@[j],
            {
                hash[k] = h[k];
            }
            assert(hash@ =~= h@);
            hashes.push(hash);
        }
        assert(digits@ =~= Seq::new(n as nat, |i: int| item_digit(digit_at(given, n as int, i))));
        assert(hashes_view(hashes@) =~= Seq::new(n as nat, |i: int| hash_at(given, n as int, i)));
        Ok(WotsSig { params, hashes, digits })
    }
}

/// What is wrong with digit `i` of a signature, if anything is.
pub open spec fn digit_error(
    key: Seq<Seq<u8>>,
    digits: Seq<u8>,
    hashes: Seq<Seq<u8>>,
    i: int,
) -> Option<WotsError> {
    if digits[i] > MAX_DIGIT {
        Some(WotsError::DigitOutOfRange { digit: i as usize })
    } else if hash_times_spec(hashes[i], (MAX_DIGIT - digits[i]) as nat) != key[i] {
        Some(WotsError::ChainMismatch { digit: i as usize })
    } else {
        None
    }
}

/// The first error in the digits from `i` up to `n`, if there is one.
pub open spec fn digits_error(
    key: Seq<Seq<u8>>,
    digits: Seq<u8>,
    hashes: Seq<Seq<u8>>,
    n: int,
    i: int,
) -> Option<WotsError>
    decreases n - i,
{
    if i >= n {
        None
    } else if digit_error(key, digits, hashes, i) is Some {
        digit_error(key, digits, hashes, i)
    } else {
        digits_error(key, digits, hashes, n, i + 1)
    }
}

/// What off-chain verification finds wrong with a signature, if anything.
pub open spec fn sig_error(
    params: WotsParams,
    key: Seq<Seq<u8>>,
    digits: Seq<u8>,
    hashes: Seq<Seq<u8>>,
) -> Option<WotsError> {
    let md = params.message_digits as int;
    if digits_error(key, digits, hashes, params.total() as int, 0) is Some {
        digits_error(key, digits, hashes, params.total() as int, 0)
    } else if digits.skip(md) != checksum_spec(params, digits.take(md)) {
        Some(WotsError::ChecksumMismatch)
    } else {
        None
    }
}

impl WotsPublic {
    /// Whether verification has what it looks at: up to the first bad digit,
    /// every digit has a digit, a hash and a key; once all digits are good, the
    /// checksum is a `u32`, and if it is right, the digits pair up to bytes.
    pub open spec fn can_verify(self, sig: WotsSig) -> bool {
        let key = hashes_view(self.digits@);
        let hashes = hashes_view(sig.hashes@);
        let n = self.params.total();
        sig.params == self.params ==> {
            &&& n <= u32::MAX
            &&& forall|i: int|
                #![trigger digit_error(key, sig.digits@, hashes, i)]
                0 <= i < n && (forall|j: int|
                    0 <= j < i ==> digit_error(key, sig.digits@, hashes, j) is None) ==> {
                    &&& i < sig.digits@.len()
                    &&& sig.digits@[i] <= MAX_DIGIT ==> i < hashes.len() && i < key.len()
                }
            &&& digits_error(key, sig.digits@, hashes, n as int, 0) is None ==> MAX_DIGIT
                * self.params.message_digits <= u32::MAX
            &&& sig_error(self.params, key, sig.digits@, hashes) is None
                ==> self.params.message_digits % 2 == 0
        }
    }

    /// Off-chain verification; returns the message.
    pub fn verify(&self, sig: &WotsSig) -> (r: Result<Vec<u8>, WotsError>)
        requires
            self.can_verify(*sig),
        ensures
            if sig.params != self.params {
                r == Err::<Vec<u8>, WotsError>(WotsError::ParamsMismatch)
            } else {
                match sig_error(
                    self.params,
                    hashes_view(self.digits@),
                    sig.digits@,
                    hashes_view(sig.hashes@),
                ) {
                    Some(e) => r == Err::<Vec<u8>, WotsError>(e),
                    None => r matches Ok(msg) && msg@ == message_spec(
                        sig.digits@.take(self.params.message_digits as int),
                    ),
                }
            },
    {
        if sig.params != self.params {
            return Err(WotsError::ParamsMismatch);
        }
        let ghost key = hashes_view(self.digits@);
        let ghost hashes = hashes_view(sig.hashes@);
        let n: usize = self.params.total_digits() as usize;
        for i in 0..n
            invariant
                n == self.params.total(),
                sig.params == self.params,
                self.can_verify(*sig),
                key == hashes_view(self.digits@),
                hashes == hashes_view(sig.hashes@),
                forall|j: int|
                    0 <= j < i ==> #[trigger] digit_error(key, sig.digits@, hashes, j) is None,
                forall|j: int| 0 <= j < i ==> j < sig.digits@.len() && #[trigger] sig.digits@[j] < 16,
                i <= sig.digits@.len(),
                digits_error(key, sig.digits@, hashes, n as int, 0) == digits_error(
                    key,
                    sig.digits@,
                    hashes,
                    n as int,
                    i as int,
                ),
        {
            let ghost here = digit_error(key, sig.digits@, hashes, i as int);
            let d: u8 = sig.digits[i];
            if d as u32 > MAX_DIGIT {
                return Err(WotsError::DigitOutOfRange { digit: i });
            }
            let reached: Hash160 = hash_times(sig.hashes[i], MAX_DIGIT - d as u32);
            assert(hashes[i as int] == sig.hashes@[i as int]@);
            assert(key[i as int] == self.digits@[i as int]@);
            if !same_hash(&reached, &self.digits[i]) {
                return Err(WotsError::ChainMismatch { digit: i });
            }
        }
        let md: usize = self.params.message_digits as usize;
        let msg_digits: &[u8] = vstd::slice::slice_subrange(sig.digits.as_slice(), 0, md);
        assert(msg_digits@ =~= sig.digits@.take(md as int));
        assert(all_nibbles(msg_digits@));
        let check: Vec<u8> = checksum_digits(&self.params, msg_digits);
        if !same_bytes(
            vstd::slice::slice_subrange(sig.digits.as_slice(), md, sig.digits.len()),
            check.as_slice(),
        ) {
            assert(sig.digits@.skip(md as int) =~= sig.digits@.subrange(
                md as int,
                sig.digits@.len() as int,
            ));
            return Err(WotsError::ChecksumMismatch);
        }
        assert(sig.digits@.skip(md as int) =~= sig.digits@.subrange(
            md as int,
            sig.digits@.len() as int,
        ));
        Ok(sig.message())
    }
}

/// Whether two byte strings are equal.
pub(crate) fn same_bytes(a: &[u8], b: &[u8]) -> (same: bool)
    ensures
        same == (a@ == b@),
{
    if a.len() != b.len() {
        return false;
    }
    for i in 0..a.len()
        invariant
            a@.len() == b@.len(),
            forall|j: int| 0 <= j < i ==> a@[j] == b@[j],
    {
        if a[i] != b[i] {
            return false;
        }
    }
    assert(a@ =~= b@);
    true
}

// ----- the verifier in Script -----

/// `b` followed by `n` times `OP_DUP OP_HASH160`.
pub open spec fn hash_list_ins(b: Seq<Ins>, n: nat) -> Seq<Ins>
    decreases n,
{
    if n == 0 {
        b
    } else {
        hash_list_ins(b, (n - 1) as nat).push(Ins::Op(OP_DUP)).push(Ins::Op(OP_HASH160))
    }
}

/// The digit checked for its hash's length, clamped, and compared with 8.
pub open spec fn digit_head_ins(b: Seq<Ins>) -> Seq<Ins> {
    b.push(Ins::Op(OP_SWAP)).push(Ins::Op(OP_SIZE)).push(Ins::Int(20)).push(
        Ins::Op(OP_EQUALVERIFY),
    ).push(Ins::Op(OP_SWAP)).push(Ins::Int(15)).push(Ins::Op(OP_MIN)).push(Ins::Op(OP_DUP)).push(
        Ins::Op(OP_TOALTSTACK),
    ).push(Ins::Int(8)).push(Ins::Op(OP_2DUP)).push(Ins::Op(OP_LESSTHAN))
}

/// Below 8 the hash is moved eight steps up its chain; the place in the pick
/// list is parked.
pub open spec fn digit_branch_ins(b: Seq<Ins>) -> Seq<Ins> {
    repeat_ins(
        b.push(Ins::Op(OP_IF)).push(Ins::Op(OP_DROP)).push(Ins::Op(OP_TOALTSTACK)),
        OP_HASH160,
        8,
    ).push(Ins::Op(OP_ELSE)).push(Ins::Op(OP_SUB)).push(Ins::Op(OP_TOALTSTACK)).push(
        Ins::Op(OP_ENDIF),
    )
}

/// The pick list, the pick and the comparison with the public key.
pub open spec fn digit_tail_ins(b: Seq<Ins>, key: Seq<u8>) -> Seq<Ins> {
    repeat_ins(
        hash_list_ins(b, 7).push(Ins::Op(OP_FROMALTSTACK)).push(Ins::Op(OP_PICK)).push(
            Ins::Bytes(key),
        ).push(Ins::Op(OP_EQUALVERIFY)),
        OP_2DROP,
        4,
    )
}

/// One digit verified against its public key and parked.
pub open spec fn digit_verify_ins(b: Seq<Ins>, key: Seq<u8>) -> Seq<Ins> {
    digit_tail_ins(digit_branch_ins(digit_head_ins(b)), key)
}

/// The `k` last of `n` digits verified.
pub open spec fn digits_verify_ins(b: Seq<Ins>, key: Seq<Seq<u8>>, n: nat, k: nat) -> Seq<Ins>
    decreases k,
{
    if k == 0 {
        b
    } else {
        digit_verify_ins(digits_verify_ins(b, key, n, (k - 1) as nat), key[n - k])
    }
}

/// The first message digit fetched, then `k` more, with the negated sum on top.
pub open spec fn sum_ins(b: Seq<Ins>, k: nat) -> Seq<Ins>
    decreases k,
{
    if k == 0 {
        b.push(Ins::Op(OP_FROMALTSTACK)).push(Ins::Op(OP_DUP)).push(Ins::Op(OP_NEGATE))
    } else {
        sum_ins(b, (k - 1) as nat).push(Ins::Op(OP_FROMALTSTACK)).push(Ins::Op(OP_TUCK)).push(
            Ins::Op(OP_SUB),
        )
    }
}

/// Sixteen times the number on top.
pub open spec fn times16_ins(b: Seq<Ins>) -> Seq<Ins> {
    b.push(Ins::Op(OP_DUP)).push(Ins::Op(OP_ADD)).push(Ins::Op(OP_DUP)).push(Ins::Op(OP_ADD)).push(
        Ins::Op(OP_DUP),
    ).push(Ins::Op(OP_ADD)).push(Ins::Op(OP_DUP)).push(Ins::Op(OP_ADD))
}

/// The first checksum digit fetched, then `k` more, as one number.
pub open spec fn checksum_ins(b: Seq<Ins>, k: nat) -> Seq<Ins>
    decreases k,
{
    if k == 0 {
        b.push(Ins::Op(OP_FROMALTSTACK))
    } else {
        times16_ins(checksum_ins(b, (k - 1) as nat)).push(Ins::Op(OP_FROMALTSTACK)).push(
            Ins::Op(OP_ADD),
        )
    }
}

/// The whole verifier.
pub open spec fn wots_verify_ins(b: Seq<Ins>, params: WotsParams, key: Seq<Seq<u8>>) -> Seq<Ins> {
    let n = params.total();
    let summed = sum_ins(
        digits_verify_ins(b, key, n, n),
        if params.message_digits == 0 { 0 } else { (params.message_digits - 1) as nat },
    );
    checksum_ins(
        summed.push(Ins::Int((MAX_DIGIT * params.message_digits) as int)).push(Ins::Op(OP_ADD)),
        (params.checksum_digits - 1) as nat,
    ).push(Ins::Op(OP_EQUALVERIFY))
}

/// Script gadget: verify a Winternitz signature against `pk`, consuming the
/// witness and leaving the message digits `d_0 … d_{n-1}` on the stack with
/// `d_{n-1}` on top. The checksum is verified in the script.
pub trait WotsExt: Sized + View<V = Seq<Ins>> {
    fn wots_verify(self, pk: &WotsPublic) -> (b: Self)
        requires
            pk.params.total() <= u32::MAX,
            pk.params.total() <= pk.digits@.len(),
            pk.params.checksum_digits >= 1,
            MAX_DIGIT * pk.params.message_digits <= u32::MAX,
        ensures
            b@ == wots_verify_ins(self@, pk.params, hashes_view(pk.digits@)),
    ;
}

/// One digit verified.
fn digit_verify(b: ScriptBuilder, key: &Hash160) -> (r: ScriptBuilder)
    ensures
        r@ == digit_verify_ins(b@, key@),
{
    let head: ScriptBuilder = b.push_opcode(OP_SWAP).push_opcode(OP_SIZE).push_int(20).push_opcode(
        OP_EQUALVERIFY,
    ).push_opcode(OP_SWAP).push_int(15).push_opcode(OP_MIN).push_opcode(OP_DUP).push_opcode(
        OP_TOALTSTACK,
    ).push_int(8).push_opcode(OP_2DUP).push_opcode(OP_LESSTHAN);
    let branch: ScriptBuilder = head.push_opcode(OP_IF).push_opcode(OP_DROP).push_opcode(
        OP_TOALTSTACK,
    ).push_repeated(OP_HASH160, 8).push_opcode(OP_ELSE).push_opcode(OP_SUB).push_opcode(
        OP_TOALTSTACK,
    ).push_opcode(OP_ENDIF);
    let ghost start = branch@;
    let mut list: ScriptBuilder = branch;
    for i in 0..7usize
        invariant
            list@ == hash_list_ins(start, i as nat),
    {
        list = list.push_opcode(OP_DUP).push_opcode(OP_HASH160);
    }
    list.push_opcode(OP_FROMALTSTACK).push_opcode(OP_PICK).push_bytes(key.as_slice()).push_opcode(
        OP_EQUALVERIFY,
    ).push_repeated(OP_2DROP, 4)
}

impl WotsExt for ScriptBuilder {
    fn wots_verify(self, pk: &WotsPublic) -> (b: Self) {
        let total: usize = pk.params.total_digits() as usize;
        let ghost key = hashes_view(pk.digits@);
        let ghost start = self@;
        let mut b = self;
        for k in 0..total
            invariant
                total <= pk.digits@.len(),
                key == hashes_view(pk.digits@),
                b@ == digits_verify_ins(start, key, total as nat, k as nat),
        {
            assert(key[total - 1 - k] == pk.digits@[total - 1 - k]@);
            b = digit_verify(b, &pk.digits[total - 1 - k]);
        }
        let ghost verified = b@;
        b = b.push_opcode(OP_FROMALTSTACK).push_opcode(OP_DUP).push_opcode(OP_NEGATE);
        let more: u32 = if pk.params.message_digits == 0 {
            0
        } else {
            pk.params.message_digits - 1
        };
        for k in 0..more
            invariant
                b@ == sum_ins(verified, k as nat),
        {
            b = b.push_opcode(OP_FROMALTSTACK).push_opcode(OP_TUCK).push_opcode(OP_SUB);
        }
        b = b.push_int((MAX_DIGIT * pk.params.message_digits) as i64).push_opcode(OP_ADD);
        let ghost summed = b@;
        b = b.push_opcode(OP_FROMALTSTACK);
        for k in 0..pk.params.checksum_digits - 1
            invariant
                b@ == checksum_ins(summed, k as nat),
        {
            let ghost before = b@;
            for j in 0..LOG2_BASE
                invariant
                    j <= 4,
                    j == 0 ==> b@ == before,
                    j == 1 ==> b@ == before.push(Ins::Op(OP_DUP)).push(Ins::Op(OP_ADD)),
                    j == 2 ==> b@ == before.push(Ins::Op(OP_DUP)).push(Ins::Op(OP_ADD)).push(
                        Ins::Op(OP_DUP),
                    ).push(Ins::Op(OP_ADD)),
                    j == 3 ==> b@ == before.push(Ins::Op(OP_DUP)).push(Ins::Op(OP_ADD)).push(
                        Ins::Op(OP_DUP),
                    ).push(Ins::Op(OP_ADD)).push(Ins::Op(OP_DUP)).push(Ins::Op(OP_ADD)),
                    j == 4 ==> b@ == times16_ins(before),
            {
                b = b.push_opcode(OP_DUP).push_opcode(OP_ADD);
            }
            b = b.push_opcode(OP_FROMALTSTACK).push_opcode(OP_ADD);
        }
        b.push_opcode(OP_EQUALVERIFY)
    }
}

} // verus!
