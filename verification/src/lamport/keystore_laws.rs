//! What holds of a key store over any run of operations.

use vstd::prelude::*;

use crate::lamport::keystore::StoreState;
use crate::lamport::winternitz::WotsParams;

verus! {

/// One operation on a store.
pub enum StoreOp {
    Generate { label: Seq<char>, n_bits: nat, entropy: Seq<u8> },
    Reveal { label: Seq<char>, bits: Seq<bool> },
    GenerateWots { label: Seq<char>, params: WotsParams, entropy: Seq<u8> },
    SignWots { label: Seq<char>, msg: Seq<u8> },
}

/// The store after one operation.
pub open spec fn apply(state: StoreState, op: StoreOp) -> StoreState {
    match op {
        StoreOp::Generate { label, n_bits, entropy } => state.generate(label, n_bits, entropy).0,
        StoreOp::Reveal { label, bits } => state.reveal_bits(label, bits).0,
        StoreOp::GenerateWots { label, params, entropy } => state.generate_wots(
            label,
            params,
            entropy,
        ).0,
        StoreOp::SignWots { label, msg } => state.sign_wots(label, msg).0,
    }
}

/// The store after a run of operations.
pub open spec fn apply_all(state: StoreState, ops: Seq<StoreOp>) -> StoreState
    decreases ops.len(),
{
    if ops.len() == 0 {
        state
    } else {
        apply(apply_all(state, ops.drop_last()), ops.last())
    }
}

/// Keys stay, with their secrets, and what a key was revealed to or signed
/// stays what it was.
pub open spec fn extends(before: StoreState, after: StoreState) -> bool {
    &&& forall|l: Seq<char>|
        #![trigger before.keys[l]]
        #![trigger after.keys[l]]
        before.keys.contains_key(l) ==> {
            &&& after.keys.contains_key(l)
            &&& after.keys[l].secret == before.keys[l].secret
            &&& before.keys[l].revealed is Some ==> after.keys[l].revealed
                == before.keys[l].revealed
        }
    &&& forall|l: Seq<char>|
        #![trigger before.wots[l]]
        #![trigger after.wots[l]]
        before.wots.contains_key(l) ==> {
            &&& after.wots.contains_key(l)
            &&& after.wots[l].params == before.wots[l].params
            &&& after.wots[l].entropy == before.wots[l].entropy
            &&& before.wots[l].signed is Some ==> after.wots[l].signed == before.wots[l].signed
        }
}

/// No run of operations takes a key away, changes it, or changes what it was
/// revealed to or signed.
pub proof fn law_store_extends(state: StoreState, ops: Seq<StoreOp>)
    ensures
        extends(state, apply_all(state, ops)),
    decreases ops.len(),
{
    if ops.len() > 0 {
        law_store_extends(state, ops.drop_last());
    }
}

/// A key is never revealed to two different values: once a reveal of `first`
/// has succeeded, whatever happens in between, a reveal of anything else under
/// that label is refused.
pub proof fn law_no_equivocation(
    state: StoreState,
    label: Seq<char>,
    first: Seq<bool>,
    ops: Seq<StoreOp>,
    second: Seq<bool>,
)
    requires
        state.reveal_bits(label, first).1 is Ok,
        apply_all(state.reveal_bits(label, first).0, ops).reveal_bits(label, second).1 is Ok,
    ensures
        second == first,
{
    let shown = state.reveal_bits(label, first).0;
    law_store_extends(shown, ops);
    assert(shown.keys[label].revealed == Some(first));
}

/// The same value can be revealed again at any time, with the same preimages.
pub proof fn law_reveal_is_idempotent(
    state: StoreState,
    label: Seq<char>,
    bits: Seq<bool>,
    ops: Seq<StoreOp>,
)
    requires
        state.reveal_bits(label, bits).1 is Ok,
    ensures
        apply_all(state.reveal_bits(label, bits).0, ops).reveal_bits(label, bits).1
            == state.reveal_bits(label, bits).1,
{
    let shown = state.reveal_bits(label, bits).0;
    law_store_extends(shown, ops);
    assert(shown.keys[label].revealed == Some(bits));
}

/// A Winternitz key never signs two different messages.
pub proof fn law_no_double_signing(
    state: StoreState,
    label: Seq<char>,
    first: Seq<u8>,
    ops: Seq<StoreOp>,
    second: Seq<u8>,
)
    requires
        state.sign_wots(label, first).1 is Ok,
        apply_all(state.sign_wots(label, first).0, ops).sign_wots(label, second).1 is Ok,
    ensures
        second == first,
{
    let used = state.sign_wots(label, first).0;
    law_store_extends(used, ops);
    assert(used.wots[label].signed == Some(first));
}

/// A used label keeps its key: asking for it again at any time gives the same
/// public half, and asking for another size is refused.
pub proof fn law_labels_keep_their_keys(
    state: StoreState,
    label: Seq<char>,
    n_bits: nat,
    entropy: Seq<u8>,
    ops: Seq<StoreOp>,
    other_bits: nat,
    other_entropy: Seq<u8>,
)
    requires
        state.generate(label, n_bits, entropy).1 is Ok,
    ensures
        ({
            let later = apply_all(state.generate(label, n_bits, entropy).0, ops);
            let again = later.generate(label, other_bits, other_entropy).1;
            if other_bits == n_bits {
                again == state.generate(label, n_bits, entropy).1
            } else {
                again is Err
            }
        }),
{
    let made = state.generate(label, n_bits, entropy).0;
    law_store_extends(made, ops);
    assert(made.keys[label].secret.len() == n_bits);
}

} // verus!
