//! Per-party store of one-time keys. Keys are generated per label, consumed
//! on reveal, and can never be revealed to two different values.

use vstd::hash_map::StringHashMap;
use vstd::prelude::*;
use vstd::string::StringExecFns;

use crate::hashing::hash160_spec;
use crate::lamport::entropy::seeded_stream;
use crate::lamport::winternitz::{
    digit_secret_spec, hash_times_spec, hashes_view, params_for, same_bytes, signed_digits, WotsError,
    WotsParams, WotsPublic, WotsSecret, WotsSig, MAX_DIGIT,
};
use crate::lamport::{
    bits_of, uint_to_bits, BitSecret, LamportError, PublicKey, Reveal, SecretKey,
};

verus! {

/// A bit key and what it was revealed to.
struct Entry {
    sk: SecretKey,
    revealed: Option<Vec<bool>>,
}

/// A Winternitz key and what it signed.
struct WotsEntry {
    sk: WotsSecret,
    signed: Option<Vec<u8>>,
}

/// A bit key as the store sees it: its preimages and what it was revealed to.
pub struct KeyState {
    pub secret: Seq<(Seq<u8>, Seq<u8>)>,
    pub revealed: Option<Seq<bool>>,
}

/// A Winternitz key as the store sees it, and what it signed.
pub struct WotsState {
    pub params: WotsParams,
    pub entropy: Seq<u8>,
    pub signed: Option<Seq<u8>>,
}

/// The keys of a store, by label.
#[verifier::ext_equal]
pub struct StoreState {
    pub keys: Map<Seq<char>, KeyState>,
    pub wots: Map<Seq<char>, WotsState>,
}

/// Why the store refuses.
#[derive(Clone, Copy, Debug, PartialEq, Eq, Structural)]
pub enum StoreError {
    /// There is no key of that label.
    NoKey,
    /// The label is used for a key of this many bits.
    LabelUsed { n_bits: usize },
    /// The label is used for a key of other parameters.
    ParamsUsed,
    /// The key was revealed to, or signed, another value.
    Equivocation,
    /// The bits do not suit the key.
    Lamport(LamportError),
    /// The message does not suit the key.
    Wots(WotsError),
}

/// Owned by one party, who derives each key's entropy from its own seed.
pub struct KeyStore {
    keys: StringHashMap<Entry>,
    wots: StringHashMap<WotsEntry>,
}

impl Entry {
    spec fn state(self) -> KeyState {
        KeyState {
            secret: self.sk@,
            revealed: match self.revealed {
                Some(bits) => Some(bits@),
                None => None,
            },
        }
    }
}

impl WotsEntry {
    spec fn state(self) -> WotsState {
        WotsState {
            params: self.sk.key_params(),
            entropy: self.sk.entropy(),
            signed: match self.signed {
                Some(msg) => Some(msg@),
                None => None,
            },
        }
    }
}

impl View for KeyStore {
    type V = StoreState;

    closed spec fn view(&self) -> StoreState {
        StoreState {
            keys: self.keys@.map_values(|e: Entry| e.state()),
            wots: self.wots@.map_values(|e: WotsEntry| e.state()),
        }
    }
}

// ----- what the operations do -----

/// The preimages of a key of `n` bits cut out of drawn bytes: 20 bytes for 0
/// and 20 bytes for 1, bit by bit.
pub open spec fn cut_secret(drawn: Seq<u8>, n: nat) -> Seq<(Seq<u8>, Seq<u8>)> {
    Seq::new(
        n,
        |i: int| (drawn.subrange(40 * i, 40 * i + 20), drawn.subrange(40 * i + 20, 40 * i + 40)),
    )
}

/// The hashes of a key's preimages.
pub open spec fn commit_all(secret: Seq<(Seq<u8>, Seq<u8>)>) -> Seq<(Seq<u8>, Seq<u8>)> {
    Seq::new(secret.len(), |i: int| (hash160_spec(secret[i].0), hash160_spec(secret[i].1)))
}

/// The preimages that commit a key to `bits`.
pub open spec fn reveal_all(secret: Seq<(Seq<u8>, Seq<u8>)>, bits: Seq<bool>) -> Seq<Seq<u8>> {
    Seq::new(
        bits.len(),
        |i: int|
            if bits[i] {
                secret[i].1
            } else {
                secret[i].0
            },
    )
}

/// The public digits of a Winternitz key.
pub open spec fn wots_public_all(params: WotsParams, entropy: Seq<u8>) -> Seq<Seq<u8>> {
    Seq::new(
        params.total(),
        |i: int| hash_times_spec(digit_secret_spec(entropy, i as nat), MAX_DIGIT as nat),
    )
}

/// The hashes of a Winternitz signature of `digits`.
pub open spec fn wots_hashes(entropy: Seq<u8>, digits: Seq<u8>) -> Seq<Seq<u8>> {
    Seq::new(
        digits.len(),
        |i: int| hash_times_spec(digit_secret_spec(entropy, i as nat), digits[i] as nat),
    )
}

impl StoreState {
    /// Generating a bit key: the key of a new label is cut out of the drawn
    /// bytes; a used label gives its key back, or refuses another size.
    pub open spec fn generate(self, label: Seq<char>, n_bits: nat, entropy: Seq<u8>) -> (
        StoreState,
        Result<Seq<(Seq<u8>, Seq<u8>)>, StoreError>,
    ) {
        if self.keys.contains_key(label) {
            let secret = self.keys[label].secret;
            if secret.len() != n_bits {
                (self, Err(StoreError::LabelUsed { n_bits: secret.len() as usize }))
            } else {
                (self, Ok(commit_all(secret)))
            }
        } else {
            let secret = cut_secret(seeded_stream(entropy, 40 * n_bits), n_bits);
            let key = KeyState { secret, revealed: None };
            (
                StoreState { keys: self.keys.insert(label, key), wots: self.wots },
                Ok(commit_all(secret)),
            )
        }
    }

    /// Revealing bits: a key is revealed to one value only.
    pub open spec fn reveal_bits(self, label: Seq<char>, bits: Seq<bool>) -> (
        StoreState,
        Result<Seq<Seq<u8>>, StoreError>,
    ) {
        if !self.keys.contains_key(label) {
            (self, Err(StoreError::NoKey))
        } else {
            let key = self.keys[label];
            if key.revealed is Some && key.revealed.unwrap() != bits {
                (self, Err(StoreError::Equivocation))
            } else if bits.len() != key.secret.len() {
                (
                    self,
                    Err(
                        StoreError::Lamport(
                            LamportError::BitCount {
                                given: bits.len() as usize,
                                expected: key.secret.len() as usize,
                            },
                        ),
                    ),
                )
            } else {
                let shown = KeyState { secret: key.secret, revealed: Some(bits) };
                (
                    StoreState { keys: self.keys.insert(label, shown), wots: self.wots },
                    Ok(reveal_all(key.secret, bits)),
                )
            }
        }
    }

    /// Generating a Winternitz key.
    pub open spec fn generate_wots(self, label: Seq<char>, params: WotsParams, entropy: Seq<u8>) -> (
        StoreState,
        Result<Seq<Seq<u8>>, StoreError>,
    ) {
        if self.wots.contains_key(label) {
            let key = self.wots[label];
            if key.params != params {
                (self, Err(StoreError::ParamsUsed))
            } else {
                (self, Ok(wots_public_all(params, key.entropy)))
            }
        } else {
            let key = WotsState { params, entropy, signed: None };
            (
                StoreState { keys: self.keys, wots: self.wots.insert(label, key) },
                Ok(wots_public_all(params, entropy)),
            )
        }
    }

    /// Signing: a key signs one message only. The result is the digits signed.
    pub open spec fn sign_wots(self, label: Seq<char>, msg: Seq<u8>) -> (
        StoreState,
        Result<Seq<u8>, StoreError>,
    ) {
        if !self.wots.contains_key(label) {
            (self, Err(StoreError::NoKey))
        } else {
            let key = self.wots[label];
            if key.signed is Some && key.signed.unwrap() != msg {
                (self, Err(StoreError::Equivocation))
            } else if 2 * msg.len() != key.params.message_digits {
                (
                    self,
                    Err(
                        StoreError::Wots(
                            WotsError::MessageLength {
                                bytes: msg.len() as usize,
                                message_digits: key.params.message_digits,
                            },
                        ),
                    ),
                )
            } else {
                let used = WotsState {
                    params: key.params,
                    entropy: key.entropy,
                    signed: Some(msg),
                };
                (
                    StoreState { keys: self.keys, wots: self.wots.insert(label, used) },
                    Ok(signed_digits(key.params, msg)),
                )
            }
        }
    }
}

// ----- the store -----

/// Where a party derives the entropy of the bit key `label`.
pub fn lamport_path(label: &str) -> (path: String)
    ensures
        path@ == "lamport/"@ + label@,
{
    String::from_str("lamport/").concat(label)
}

/// Where a party derives the entropy of the Winternitz key `label`.
pub fn wots_path(label: &str) -> (path: String)
    ensures
        path@ == "wots/"@ + label@,
{
    String::from_str("wots/").concat(label)
}

/// Whether two lists of bits are equal.
fn same_bits(a: &[bool], b: &[bool]) -> (same: bool)
    ensures
        same == (a@ == b@),
{
    if a.len() != b.len() {
        return false;
    }
    for i in 0..a.len()
        invariant
            a@.len() == b@.len(),
            forall|j: int| 0 <= j < i ==> a@[j] == b@[j],
    {
        if a[i] != b[i] {
            return false;
        }
    }
    assert(a@ =~= b@);
    true
}

proof fn lemma_commit_view(sk: SecretKey, pk: PublicKey)
    requires
        pk.bits@ == sk.public_spec(),
    ensures
        pk@ == commit_all(sk@),
{
    assert(pk@ =~= commit_all(sk@));
}

/// Whether the store's Winternitz keys have parameters that can be worked with.
spec fn params_fit(params: WotsParams) -> bool {
    &&& params.total() <= u32::MAX
    &&& MAX_DIGIT * params.message_digits <= u32::MAX
}

impl KeyStore {
    /// Every Winternitz key's digit count and largest checksum is a `u32`.
    pub closed spec fn wf(self) -> bool {
        forall|label: Seq<char>|
            self.wots@.contains_key(label) ==> params_fit(
                (#[trigger] self.wots@[label]).sk.key_params(),
            )
    }

    /// An empty store.
    pub fn new() -> (store: KeyStore)
        ensures
            store.wf(),
            store@.keys == Map::<Seq<char>, KeyState>::empty(),
            store@.wots == Map::<Seq<char>, WotsState>::empty(),
    {
        let store = KeyStore { keys: StringHashMap::new(), wots: StringHashMap::new() };
        assert(store@.keys =~= Map::<Seq<char>, KeyState>::empty());
        assert(store@.wots =~= Map::<Seq<char>, WotsState>::empty());
        store
    }

    /// Generate (or return the existing) key for `label`, from the entropy that
    /// the party's seed gives at [`lamport_path`]. The store refuses to hand out
    /// a differently-sized key under a used label.
    pub fn generate(&mut self, label: &str, n_bits: usize, entropy: [u8; 32]) -> (r: Result<
        PublicKey,
        StoreError,
    >)
        requires
            old(self).wf(),
            !old(self)@.keys.contains_key(label@) ==> 40 * n_bits <= usize::MAX,
        ensures
            final(self).wf(),
            ({
                let (state, result) = old(self)@.generate(label@, n_bits as nat, entropy@);
                &&& final(self)@ == state
                &&& match result {
                    Ok(key) => r matches Ok(pk) && pk@ == key,
                    Err(e) => r == Err::<PublicKey, StoreError>(e),
                }
            }),
    {
        let ghost before = *self;
        if let Some(e) = self.keys.get(label) {
            if e.sk.n_bits() != n_bits {
                return Err(StoreError::LabelUsed { n_bits: e.sk.n_bits() });
            }
            let pk: PublicKey = e.sk.public();
            proof {
                lemma_commit_view(e.sk, pk);
            }
            return Ok(pk);
        }
        let sk: SecretKey = SecretKey::from_entropy(n_bits, entropy);
        let pk: PublicKey = sk.public();
        proof {
            lemma_commit_view(sk, pk);
            let drawn = seeded_stream(entropy@, 40 * n_bits as nat);
            assert forall|i: int| 0 <= i < n_bits implies sk@[i] == cut_secret(
                drawn,
                n_bits as nat,
            )[i] by {
                let b = sk.bits@[i];
                assert(b.p0@ == drawn.subrange(40 * i, 40 * i + 20));
            }
            assert(sk@ =~= cut_secret(drawn, n_bits as nat));
        }
        let entry = Entry { sk, revealed: None };
        self.keys.insert(String::from_str(label), entry);
        proof {
            assert(self@.keys =~= before@.keys.insert(label@, entry.state()));
            assert(self@.wots =~= before@.wots);
        }
        Ok(pk)
    }

    /// The public half of the key of `label`.
    pub fn public(&self, label: &str) -> (r: Result<PublicKey, StoreError>)
        ensures
            if self@.keys.contains_key(label@) {
                r matches Ok(pk) && pk@ == commit_all(self@.keys[label@].secret)
            } else {
                r == Err::<PublicKey, StoreError>(StoreError::NoKey)
            },
    {
        match self.keys.get(label) {
            Some(e) => {
                let pk: PublicKey = e.sk.public();
                proof {
                    lemma_commit_view(e.sk, pk);
                }
                Ok(pk)
            },
            None => Err(StoreError::NoKey),
        }
    }

    /// Reveal `bits` under `label`. A second reveal of the same bits is fine
    /// (idempotent re-broadcast); a reveal of different bits is refused.
    pub fn reveal_bits(&mut self, label: &str, bits: &[bool]) -> (r: Result<Reveal, StoreError>)
        requires
            old(self).wf(),
        ensures
            final(self).wf(),
            ({
                let (state, result) = old(self)@.reveal_bits(label@, bits@);
                &&& final(self)@ == state
                &&& match result {
                    Ok(preimages) => r matches Ok(revealed) && revealed@ == preimages,
                    Err(e) => r == Err::<Reveal, StoreError>(e),
                }
            }),
    {
        let ghost before = *self;
        let (shown, copy): (Reveal, SecretKey) = match self.keys.get(label) {
            None => {
                return Err(StoreError::NoKey);
            },
            Some(e) => {
                if let Some(prev) = &e.revealed {
                    if !same_bits(prev.as_slice(), bits) {
                        return Err(StoreError::Equivocation);
                    }
                }
                match e.sk.reveal_bits(bits) {
                    Err(err) => {
                        return Err(StoreError::Lamport(err));
                    },
                    Ok(shown) => {
                        proof {
                            assert(e.sk.reveal_spec(bits@) =~= reveal_all(e.sk@, bits@));
                        }
                        let copy: Vec<BitSecret> = vstd::slice::slice_to_vec(e.sk.bits.as_slice());
                        let copied = SecretKey { bits: copy };
                        assert(copied@ =~= e.sk@);
                        (shown, copied)
                    },
                }
            },
        };
        let entry = Entry { sk: copy, revealed: Some(vstd::slice::slice_to_vec(bits)) };
        self.keys.insert(String::from_str(label), entry);
        proof {
            assert(self@.keys =~= before@.keys.insert(label@, entry.state()));
            assert(self@.wots =~= before@.wots);
        }
        Ok(shown)
    }

    /// Reveal the lowest bits of `value`, as many as the key has.
    pub fn reveal_uint(&mut self, label: &str, value: u32) -> (r: Result<Reveal, StoreError>)
        requires
            old(self).wf(),
            old(self)@.keys.contains_key(label@) ==> old(self)@.keys[label@].secret.len() <= 32,
        ensures
            final(self).wf(),
            ({
                let n = old(self)@.keys[label@].secret.len();
                let (state, result) = old(self)@.reveal_bits(label@, bits_of(value as nat, n));
                &&& final(self)@ == state
                &&& match result {
                    Ok(preimages) => r matches Ok(revealed) && revealed@ == preimages,
                    Err(e) => r == Err::<Reveal, StoreError>(e),
                }
            }),
    {
        let n: usize = match self.keys.get(label) {
            Some(e) => e.sk.n_bits(),
            None => {
                return Err(StoreError::NoKey);
            },
        };
        let bits: Vec<bool> = uint_to_bits(value, n);
        self.reveal_bits(label, bits.as_slice())
    }

    /// Whether the key of `label` was revealed.
    pub fn is_revealed(&self, label: &str) -> (r: bool)
        ensures
            r == (self@.keys.contains_key(label@) && self@.keys[label@].revealed is Some),
    {
        match self.keys.get(label) {
            Some(e) => e.revealed.is_some(),
            None => false,
        }
    }

    /// Generate (or return) the Winternitz key for `label` over `n_bytes`, from
    /// the entropy that the party's seed gives at [`wots_path`].
    pub fn generate_wots(&mut self, label: &str, n_bytes: u32, entropy: [u8; 32]) -> (r: Result<
        WotsPublic,
        StoreError,
    >)
        requires
            old(self).wf(),
            30 * n_bytes + 1 <= u32::MAX,
        ensures
            final(self).wf(),
            ({
                let params = params_for(n_bytes);
                let (state, result) = old(self)@.generate_wots(label@, params, entropy@);
                &&& final(self)@ == state
                &&& match result {
                    Ok(digits) => r matches Ok(pk) && pk.params == params && hashes_view(pk.digits@)
                        == digits,
                    Err(e) => r == Err::<WotsPublic, StoreError>(e),
                }
            }),
    {
        let ghost before = *self;
        let params: WotsParams = WotsParams::for_bytes(n_bytes);
        if let Some(e) = self.wots.get(label) {
            assert(params_fit(self.wots@[label@].sk.key_params()));
            if e.sk.params() != params {
                return Err(StoreError::ParamsUsed);
            }
            let pk: WotsPublic = e.sk.public();
            assert(hashes_view(pk.digits@) =~= wots_public_all(params, e.sk.entropy()));
            return Ok(pk);
        }
        let sk: WotsSecret = WotsSecret::from_entropy(params, entropy);
        let pk: WotsPublic = sk.public();
        let entry = WotsEntry { sk, signed: None };
        self.wots.insert(String::from_str(label), entry);
        proof {
            assert(self@.keys =~= before@.keys);
            assert(self@.wots =~= before@.wots.insert(label@, entry.state()));
            assert(hashes_view(pk.digits@) =~= wots_public_all(params, entropy@));
            assert forall|l: Seq<char>| self.wots@.contains_key(l) implies params_fit(
                (#[trigger] self.wots@[l]).sk.key_params(),
            ) by {
                if l != label@ {
                    assert(before.wots@.contains_key(l));
                    assert(params_fit(before.wots@[l].sk.key_params()));
                }
            }
        }
        Ok(pk)
    }

    /// The public half of the Winternitz key of `label`.
    pub fn wots_public(&self, label: &str) -> (r: Result<WotsPublic, StoreError>)
        requires
            self.wf(),
        ensures
            if self@.wots.contains_key(label@) {
                let key = self@.wots[label@];
                r matches Ok(pk) && pk.params == key.params && hashes_view(pk.digits@)
                    == wots_public_all(key.params, key.entropy)
            } else {
                r == Err::<WotsPublic, StoreError>(StoreError::NoKey)
            },
    {
        match self.wots.get(label) {
            Some(e) => {
                assert(params_fit(self.wots@[label@].sk.key_params()));
                let pk: WotsPublic = e.sk.public();
                assert(hashes_view(pk.digits@) =~= wots_public_all(
                    e.sk.key_params(),
                    e.sk.entropy(),
                ));
                Ok(pk)
            },
            None => Err(StoreError::NoKey),
        }
    }

    /// Sign `msg` under `label`; refuses a second signature of a different
    /// message.
    pub fn sign_wots(&mut self, label: &str, msg: &[u8]) -> (r: Result<WotsSig, StoreError>)
        requires
            old(self).wf(),
        ensures
            final(self).wf(),
            ({
                let (state, result) = old(self)@.sign_wots(label@, msg@);
                &&& final(self)@ == state
                &&& match result {
                    Ok(digits) => {
                        &&& r matches Ok(sig)
                        &&& sig.params == old(self)@.wots[label@].params
                        &&& sig.digits@ == digits
                        &&& hashes_view(sig.hashes@) == wots_hashes(
                            old(self)@.wots[label@].entropy,
                            digits,
                        )
                    },
                    Err(e) => r == Err::<WotsSig, StoreError>(e),
                }
            }),
    {
        let ghost before = *self;
        let (sig, params, copy): (WotsSig, WotsParams, WotsSecret) = match self.wots.get(label) {
            None => {
                return Err(StoreError::NoKey);
            },
            Some(e) => {
                if let Some(prev) = &e.signed {
                    if !same_bytes(prev.as_slice(), msg) {
                        return Err(StoreError::Equivocation);
                    }
                }
                assert(params_fit(self.wots@[label@].sk.key_params()));
                match e.sk.sign(msg) {
                    Err(err) => {
                        return Err(StoreError::Wots(err));
                    },
                    Ok(sig) => {
                        assert(hashes_view(sig.hashes@) =~= wots_hashes(
                            e.sk.entropy(),
                            sig.digits@,
                        ));
                        (sig, e.sk.params(), e.sk.copy())
                    },
                }
            },
        };
        let entry = WotsEntry { sk: copy, signed: Some(vstd::slice::slice_to_vec(msg)) };
        self.wots.insert(String::from_str(label), entry);
        proof {
            assert(self@.keys =~= before@.keys);
            assert(self@.wots =~= before@.wots.insert(label@, entry.state()));
            assert forall|l: Seq<char>| self.wots@.contains_key(l) implies params_fit(
                (#[trigger] self.wots@[l]).sk.key_params(),
            ) by {
                if l != label@ {
                    assert(before.wots@.contains_key(l));
                }
                assert(params_fit(before.wots@[l].sk.key_params()));
            }
        }
        Ok(sig)
    }
}

} // verus!
