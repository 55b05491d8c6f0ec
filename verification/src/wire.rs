use vstd::prelude::*;
use bytes::Buf;

verus! {

/// The value of two bytes read as a big-endian unsigned integer.
pub open spec fn be_u16(hi: u8, lo: u8) -> nat {
    (hi as nat) * 256 + (lo as nat)
}

/// Reads the first two bytes of `buf` as a big-endian `u16`, through
/// `bytes::Buf::get_u16` on a byte slice: the result is the first byte
/// times 256 plus the second. `buf` must hold at least two bytes.
#[verifier::external_body]
pub fn read_u16_be(buf: &[u8]) -> (r: u16)
    requires
        buf@.len() >= 2,
    ensures
        r as nat == be_u16(buf@[0], buf@[1]),
{
    let mut reader: &[u8] = buf;
    reader.get_u16()
}

} // verus!
