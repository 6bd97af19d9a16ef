//! What a Winternitz key is made of, and what verification says, in terms of the
//! hash function alone.

use vstd::arithmetic::power::pow;
use vstd::prelude::*;

use crate::hashing::hash160_spec;
use crate::lamport::winternitz::{
    base16_len, checksum_of, digit_at, digit_error, digit_secret_spec, digit_sum, digits_error,
    hash_at, hash_times_spec, item_digit, items_error, lemma_digit_sum_bound, params_for, sig_error, signed_digits, WotsError,
    WotsParams, WotsPublic, WotsSecret, WotsSig, MAX_DIGIT,
};
use crate::lamport::winternitz_laws::{base16_value, law_base16_unique, law_base16_writes};
use crate::n4bit::{all_nibbles, nibbles_of};
use crate::script::machine::{le_bytes, le_value, lemma_le_unique};

verus! {

// ----- hash chains -----

/// `n` values, each the hash of the one before: a chain from `x` to `y`.
pub open spec fn is_chain(links: Seq<Seq<u8>>, x: Seq<u8>, y: Seq<u8>, n: nat) -> bool {
    &&& links.len() == n + 1
    &&& links[0] == x
    &&& links[n as int] == y
    &&& forall|k: int, j: int|
        0 <= k < n && j == k + 1 ==> #[trigger] links[j] == hash160_spec(#[trigger] links[k])
}

/// Hashing `n` times leads along a chain of `n` hashes, and there is no other end.
pub proof fn law_hash_chain(links: Seq<Seq<u8>>, x: Seq<u8>, y: Seq<u8>, n: nat)
    requires
        is_chain(links, x, y, n),
    ensures
        hash_times_spec(x, n) == y,
    decreases n,
{
    if n > 0 {
        let k = n - 1;
        assert(links[k + 1] == hash160_spec(links[k]));
        let shorter = links.take(n as int);
        assert forall|i: int, j: int| 0 <= i < k && j == i + 1 implies #[trigger] shorter[j]
            == hash160_spec(#[trigger] shorter[i]) by {
            assert(links[j] == hash160_spec(links[i]));
        }
        law_hash_chain(shorter, x, links[k], k as nat);
    }
}

// ----- the secrets of digits -----

/// Whether a byte string is the secret followed by the index of a digit: its bytes,
/// the least significant first, without a zero byte at the end.
pub open spec fn is_digit_seed(seed: Seq<u8>, secret: Seq<u8>, index: nat) -> bool {
    let n = secret.len() as int;
    &&& seed.len() >= n
    &&& seed.take(n) == secret
    &&& le_value(seed.skip(n)) == index
    &&& seed.len() > n ==> seed.last() != 0
}

/// Every digit has a seed, and digits of different indices have different ones. The
/// chain of a digit starts at the hash of its seed.
pub proof fn law_digit_seeds(secret: Seq<u8>, i: nat, j: nat, seed: Seq<u8>)
    ensures
        exists|s: Seq<u8>| #[trigger] is_digit_seed(s, secret, i),
        is_digit_seed(seed, secret, i) && is_digit_seed(seed, secret, j) ==> i == j,
        is_digit_seed(seed, secret, i) ==> digit_secret_spec(secret, i) == hash160_spec(seed),
{
    if is_digit_seed(seed, secret, i) {
        lemma_seed_bytes(secret, i, seed);
    }
    let s = secret + le_bytes(i);
    lemma_le_unique(le_bytes(i), i);
    assert(s.take(secret.len() as int) =~= secret);
    assert(s.skip(secret.len() as int) =~= le_bytes(i));
    assert(is_digit_seed(s, secret, i));
}

proof fn lemma_seed_bytes(secret: Seq<u8>, index: nat, seed: Seq<u8>)
    requires
        is_digit_seed(seed, secret, index),
    ensures
        seed == secret + le_bytes(index),
{
    let n = secret.len() as int;
    lemma_le_unique(seed.skip(n), index);
    assert(seed =~= seed.take(n) + seed.skip(n));
}

/// A key's public digit is the seed of its index hashed once, and then 15 times
/// more: the chain of every digit starts from the secret and the digit's own index.
pub proof fn law_public_digit(sk: WotsSecret, pk: WotsPublic, i: int, seed: Seq<u8>)
    requires
        0 <= i < sk.key_params().total(),
        pk.digits@.len() == sk.key_params().total(),
        forall|j: int| 0 <= j < pk.digits@.len() ==> (#[trigger] pk.digits@[j])@ == sk.public_digit(j),
        is_digit_seed(seed, sk.entropy(), i as nat),
    ensures
        pk.digits@[i]@ == hash_times_spec(hash160_spec(seed), 15),
{
    lemma_seed_bytes(sk.entropy(), i as nat, seed);
}

/// A signature's hash of digit `i` is the seed of its index hashed once, and then as
/// often as the digit says; 15 less the digit more hashes end in the public digit.
pub proof fn law_signature_hash(
    sk: WotsSecret,
    sig: WotsSig,
    digits: Seq<u8>,
    i: int,
    seed: Seq<u8>,
)
    requires
        sk.signs(sig, digits),
        0 <= i < digits.len(),
        digits[i] <= 15,
        is_digit_seed(seed, sk.entropy(), i as nat),
    ensures
        sig.digits@[i] == digits[i],
        sig.hashes@[i]@ == hash_times_spec(hash160_spec(seed), digits[i] as nat),
        hash_times_spec(sig.hashes@[i]@, (15 - digits[i]) as nat) == sk.public_digit(i),
{
    lemma_seed_bytes(sk.entropy(), i as nat, seed);
    crate::lamport::winternitz_laws::lemma_hash_times_add(
        hash160_spec(seed),
        digits[i] as nat,
        (15 - digits[i]) as nat,
    );
}

// ----- the digits of a message -----

/// What is signed: for each byte its high and its low half, then digits that write,
/// most significant first, how much the message's digits fall short of 15 each.
pub proof fn law_signed_digits(params: WotsParams, msg: Seq<u8>, i: int)
    requires
        params.checksum_fits(),
        2 * msg.len() == params.message_digits,
        0 <= i < msg.len(),
    ensures
        ({
            let digits = signed_digits(params, msg);
            let m = params.message_digits as int;
            &&& digits.len() == params.total()
            &&& all_nibbles(digits)
            &&& msg[i] == 16 * digits[2 * i] + digits[2 * i + 1]
            &&& base16_value(digits.skip(m)) + digit_sum(digits.take(m)) == 15
                * params.message_digits
        }),
{
    let digits = signed_digits(params, msg);
    let m = params.message_digits as int;
    let message = nibbles_of(msg);
    assert(all_nibbles(message));
    lemma_digit_sum_bound(message);
    law_base16_writes(checksum_of(params, message) as nat, params.checksum_digits as nat);
    assert(digits.take(m) =~= message);
    assert(digits.skip(m) =~= crate::lamport::winternitz::checksum_spec(params, message));
    assert forall|k: int| 0 <= k < digits.len() implies #[trigger] digits[k] < 16 by {
        if k < m {
            assert(message[k] < 16);
        } else {
            assert(digits.skip(m)[k - m] < 16);
        }
    }
    assert(digits[2 * i] == message[2 * i] && digits[2 * i + 1] == message[2 * i + 1]);
}

/// The sum of digits adds one digit at a time.
pub proof fn law_digit_sum(digits: Seq<u8>, d: u8)
    ensures
        digit_sum(Seq::<u8>::empty()) == 0,
        digit_sum(digits.push(d)) == digit_sum(digits) + d,
{
    assert(digits.push(d).drop_last() =~= digits);
}

/// Base-16 digits write a number place by place.
pub proof fn law_base16_value(digits: Seq<u8>, d: u8)
    ensures
        base16_value(Seq::<u8>::empty()) == 0,
        base16_value(digits.push(d)) == 16 * base16_value(digits) + d,
{
    assert(digits.push(d).drop_last() =~= digits);
}

proof fn lemma_base16_len_least(v: nat)
    ensures
        v < pow(16, base16_len(v)),
        v > 0 ==> base16_len(v) > 0 && pow(16, (base16_len(v) - 1) as nat) <= v,
        base16_len(v) <= v,
    decreases v,
{
    reveal_with_fuel(pow, 3);
    if v > 0 {
        lemma_base16_len_least(v / 16);
    }
}

/// The parameters for a message of `n_bytes` bytes: two digits for each byte, and
/// the fewest digits in which the largest checksum can be written.
pub proof fn law_params_for_bytes(n_bytes: u32)
    requires
        1 <= n_bytes,
        30 * n_bytes + 1 <= u32::MAX,
    ensures
        params_for(n_bytes).message_digits == 2 * n_bytes,
        params_for(n_bytes).checksum_digits >= 1,
        30 * n_bytes < pow(16, params_for(n_bytes).checksum_digits as nat),
        pow(16, (params_for(n_bytes).checksum_digits - 1) as nat) <= 30 * n_bytes,
{
    lemma_base16_len_least((MAX_DIGIT * (2 * n_bytes)) as nat);
}

// ----- verification -----

proof fn lemma_first_digit_error(
    key: Seq<Seq<u8>>,
    digits: Seq<u8>,
    hashes: Seq<Seq<u8>>,
    n: int,
    i: int,
    bad: int,
)
    requires
        0 <= i <= bad <= n,
        forall|j: int| i <= j < bad ==> #[trigger] digit_error(key, digits, hashes, j) is None,
        bad < n ==> digit_error(key, digits, hashes, bad) is Some,
    ensures
        digits_error(key, digits, hashes, n, i) == if bad < n {
            digit_error(key, digits, hashes, bad)
        } else {
            None
        },
    decreases n - i,
{
    if i < bad {
        assert(digit_error(key, digits, hashes, i) is None);
        lemma_first_digit_error(key, digits, hashes, n, i + 1, bad);
    }
}

/// Whether digit `j` of a signature is at its place in the key's chain.
pub open spec fn on_chain(
    key: Seq<Seq<u8>>,
    digits: Seq<u8>,
    hashes: Seq<Seq<u8>>,
    j: int,
) -> bool {
    digits[j] <= 15 && hash_times_spec(hashes[j], (15 - digits[j]) as nat) == key[j]
}

/// Verification accepts exactly the signatures whose digits are all on their chains
/// and whose checksum digits write what the message's digits fall short of 15 each.
pub proof fn law_verify_accepts(
    params: WotsParams,
    key: Seq<Seq<u8>>,
    digits: Seq<u8>,
    hashes: Seq<Seq<u8>>,
)
    requires
        params.checksum_fits(),
        digits.len() == params.total(),
    ensures
        sig_error(params, key, digits, hashes) is None <==> {
            &&& forall|j: int|
                0 <= j < params.total() ==> #[trigger] on_chain(key, digits, hashes, j)
            &&& base16_value(digits.skip(params.message_digits as int)) + digit_sum(
                digits.take(params.message_digits as int),
            ) == 15 * params.message_digits
        },
{
    let n = params.total() as int;
    let md = params.message_digits as int;
    if forall|j: int| 0 <= j < n ==> #[trigger] on_chain(key, digits, hashes, j) {
        assert forall|j: int| 0 <= j < n implies #[trigger] digit_error(
            key,
            digits,
            hashes,
            j,
        ) is None by {
            assert(on_chain(key, digits, hashes, j));
        }
        lemma_first_digit_error(key, digits, hashes, n, 0, n);
        assert forall|j: int| 0 <= j < n implies #[trigger] digits[j] < 16 by {
            assert(on_chain(key, digits, hashes, j));
        }
        let (message, check) = (digits.take(md), digits.skip(md));
        assert(all_nibbles(message));
        assert(all_nibbles(check));
        lemma_digit_sum_bound(message);
        law_base16_writes(checksum_of(params, message) as nat, params.checksum_digits as nat);
        law_base16_unique(check);
    } else {
        let j = choose|j: int| 0 <= j < n && !#[trigger] on_chain(key, digits, hashes, j);
        assert(digit_error(key, digits, hashes, j) is Some);
        if digits_error(key, digits, hashes, n, 0) is None {
            crate::lamport::winternitz_laws::lemma_digit_errors(key, digits, hashes, n, 0);
        }
    }
}

/// Verification names the first digit that is out of range or off its chain, and
/// which of the two it is.
pub proof fn law_verify_names_the_first_bad_digit(
    params: WotsParams,
    key: Seq<Seq<u8>>,
    digits: Seq<u8>,
    hashes: Seq<Seq<u8>>,
    bad: int,
)
    requires
        0 <= bad < params.total(),
        params.total() <= u32::MAX,
        forall|j: int| 0 <= j < bad ==> #[trigger] on_chain(key, digits, hashes, j),
        !on_chain(key, digits, hashes, bad),
    ensures
        sig_error(params, key, digits, hashes) == Some(
            if digits[bad] > 15 {
                WotsError::DigitOutOfRange { digit: bad as usize }
            } else {
                WotsError::ChainMismatch { digit: bad as usize }
            },
        ),
{
    assert forall|j: int| 0 <= j < bad implies #[trigger] digit_error(
        key,
        digits,
        hashes,
        j,
    ) is None by {
        assert(on_chain(key, digits, hashes, j));
    }
    lemma_first_digit_error(key, digits, hashes, params.total() as int, 0, bad);
}

// ----- signatures as elements -----

/// The elements of a signature can be read from digit `i` on exactly when each digit is
/// at most one byte and each hash 20 bytes; the first pair that cannot be read is
/// objected to, its digit before its hash. An empty digit is zero.
pub proof fn law_elements_are_read(items: Seq<Seq<u8>>, n: int, i: int, d: u8)
    requires
        0 <= i <= n,
        items.len() == 2 * n,
    ensures
        items_error(items, n, i) is None <==> forall|k: int|
            i <= k < n ==> (#[trigger] digit_at(items, n, k)).len() <= 1 && hash_at(
                items,
                n,
                k,
            ).len() == 20,
        i < n && items[2 * (n - 1 - i)].len() > 1 ==> items_error(items, n, i) == Some(
            WotsError::DigitTooLong,
        ),
        i < n && items[2 * (n - 1 - i)].len() <= 1 && items[2 * (n - 1 - i) + 1].len() != 20
            ==> items_error(items, n, i) == Some(WotsError::HashLength),
        i < n && items[2 * (n - 1 - i)].len() <= 1 && items[2 * (n - 1 - i) + 1].len() == 20
            ==> items_error(items, n, i) == items_error(items, n, i + 1),
        i < n ==> digit_at(items, n, i) == items[2 * n - 2 * i - 2],
        i < n ==> hash_at(items, n, i) == items[2 * n - 2 * i - 1],
        item_digit(Seq::empty()) == 0,
        item_digit(seq![d]) == d,
    decreases n - i,
{
    if i < n {
        law_elements_are_read(items, n, i + 1, d);
        assert(2 * (n - 1 - i) == 2 * n - 2 * i - 2);
        if digit_at(items, n, i).len() > 1 || hash_at(items, n, i).len() != 20 {
            assert(!(digit_at(items, n, i).len() <= 1 && hash_at(items, n, i).len() == 20));
        }
    }
}

} // verus!
