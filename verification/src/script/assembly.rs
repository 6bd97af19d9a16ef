//! Script bytes, as the `bitcoin` crate's builder writes them.

use vstd::prelude::*;

use crate::script::machine::num_bytes;

verus! {

/// `bitcoin::script::Builder`, of which only [`assembly_bytes`] is known.
#[verifier::external_type_specification]
#[verifier::external_body]
pub struct ExBuilder(bitcoin::script::Builder);

/// The script bytes that a builder holds.
pub uninterp spec fn assembly_bytes(b: bitcoin::script::Builder) -> Seq<u8>;

/// The bytes of a push of `data`: its length, then the data.
pub open spec fn push_script(data: Seq<u8>) -> Seq<u8> {
    let n = data.len();
    if n < 0x4c {
        seq![n as u8] + data
    } else if n < 0x100 {
        seq![0x4cu8, n as u8] + data
    } else if n < 0x1_0000 {
        seq![0x4du8, (n % 0x100) as u8, (n / 0x100) as u8] + data
    } else {
        seq![
            0x4eu8,
            (n % 0x100) as u8,
            ((n / 0x100) % 0x100) as u8,
            ((n / 0x1_0000) % 0x100) as u8,
            (n / 0x100_0000) as u8,
        ] + data
    }
}

/// The bytes of a push of the number `n`: a dedicated opcode where there is
/// one, else a push of the script number.
pub open spec fn int_script(n: int) -> Seq<u8> {
    if n == 0 {
        seq![0x00u8]
    } else if n == -1 || 1 <= n <= 16 {
        seq![(0x50 + n) as u8]
    } else {
        push_script(num_bytes(n))
    }
}

/// Calls `bitcoin::script::Builder::new`, which holds no bytes.
#[verifier::external_body]
pub(crate) fn assembly_new() -> (b: bitcoin::script::Builder)
    ensures
        assembly_bytes(b) == Seq::<u8>::empty(),
{
    bitcoin::script::Builder::new()
}

/// Calls `bitcoin::script::Builder::push_opcode`, which appends the opcode's
/// byte.
#[verifier::external_body]
pub(crate) fn assembly_push_opcode(b: bitcoin::script::Builder, op: u8) -> (r:
    bitcoin::script::Builder)
    ensures
        assembly_bytes(r) == assembly_bytes(b) + seq![op],
{
    b.push_opcode(bitcoin::opcodes::Opcode::from(op))
}

/// Calls `bitcoin::script::Builder::push_int`, which appends the dedicated
/// opcode of a small number or a push of the minimal script number. It writes
/// the number into eight bytes, so the least `i64` is left out.
#[verifier::external_body]
pub(crate) fn assembly_push_int(b: bitcoin::script::Builder, n: i64) -> (r:
    bitcoin::script::Builder)
    requires
        n > i64::MIN,
    ensures
        assembly_bytes(r) == assembly_bytes(b) + int_script(n as int),
{
    b.push_int(n)
}

/// Calls `bitcoin::script::Builder::push_slice`, which appends the shortest
/// length prefix and the data. It takes less than 4 GiB of data.
#[verifier::external_body]
pub(crate) fn assembly_push_slice(b: bitcoin::script::Builder, data: &[u8]) -> (r:
    bitcoin::script::Builder)
    requires
        data@.len() < 0x1_0000_0000,
    ensures
        assembly_bytes(r) == assembly_bytes(b) + push_script(data@),
{
    let push: &bitcoin::script::PushBytes = data.try_into().unwrap();
    b.push_slice(push)
}

/// Calls `bitcoin::script::Builder::into_bytes`, which hands the bytes out.
#[verifier::external_body]
pub(crate) fn assembly_into_bytes(b: bitcoin::script::Builder) -> (bytes: Vec<u8>)
    ensures
        bytes@ == assembly_bytes(b),
{
    b.into_bytes()
}

} // verus!
