//! Hexadecimal text.

use vstd::prelude::*;

verus! {

/// The lowercase hexadecimal digit of a nibble.
pub open spec fn hex_digit(n: int) -> char {
    if n < 10 {
        (0x30 + n) as char
    } else {
        (0x57 + n) as char
    }
}

/// The hexadecimal text of bytes: two lowercase digits each.
pub open spec fn hex_text(bytes: Seq<u8>) -> Seq<char> {
    Seq::new(
        2 * bytes.len(),
        |i: int|
            if i % 2 == 0 {
                hex_digit(bytes[i / 2] as int / 16)
            } else {
                hex_digit(bytes[i / 2] as int % 16)
            },
    )
}

/// Calls `hex::encode`, which writes each byte as two lowercase digits.
#[verifier::external_body]
pub(crate) fn hex_encode(bytes: &[u8]) -> (text: String)
    ensures
        text@ == hex_text(bytes@),
{
    hex::encode(bytes)
}

/// The first four bytes, or all if there are fewer.
pub open spec fn head4(bytes: Seq<u8>) -> Seq<u8> {
    if bytes.len() < 4 {
        bytes
    } else {
        bytes.take(4)
    }
}

/// The hexadecimal text of the first four bytes.
pub fn hex4(bytes: &[u8]) -> (text: String)
    ensures
        text@ == hex_text(head4(bytes@)),
{
    let n: usize = if bytes.len() < 4 {
        bytes.len()
    } else {
        4
    };
    let head: &[u8] = vstd::slice::slice_subrange(bytes, 0, n);
    assert(head@ =~= head4(bytes@));
    hex_encode(head)
}

} // verus!
