//! The wire format: `[length: u16, little-endian][payload: length bytes]`.

use byteorder::ByteOrder;
use vstd::prelude::*;

verus! {

/// Number of bytes taken by the length prefix of a frame.
pub const HEADER_LEN: usize = 2;

/// Largest payload length that the length prefix can declare.
pub const MAX_PAYLOAD_LEN: usize = 65535;

/// The number that the two bytes of a length prefix declare, low byte first.
pub open spec fn le16(b0: u8, b1: u8) -> nat {
    b0 as nat + 256 * (b1 as nat)
}

/// The two bytes of the length prefix that declares `len`.
pub open spec fn header(len: nat) -> Seq<u8>
    recommends
        len <= 65535,
{
    seq![(len % 256) as u8, (len / 256) as u8]
}

/// The frame that carries `payload`: its length prefix, then the payload.
pub open spec fn frame(payload: Seq<u8>) -> Seq<u8>
    recommends
        payload.len() <= 65535,
{
    header(payload.len()) + payload
}

/// Calls `byteorder::LittleEndian::read_u16`, which reads the first two
/// bytes of `buf` as a little-endian number and panics on a shorter slice.
#[verifier::external_body]
pub(crate) fn read_u16_le(buf: &[u8]) -> (n: u16)
    requires
        buf@.len() >= 2,
    ensures
        n as nat == le16(buf@[0], buf@[1]),
{
    byteorder::LittleEndian::read_u16(buf)
}

/// Calls `byteorder::LittleEndian::write_u16`, which overwrites the first
/// two bytes of `buf` with `n` in little-endian order, leaves the rest as
/// it was, and panics on a shorter slice.
#[verifier::external_body]
pub(crate) fn write_u16_le(buf: &mut [u8], n: u16)
    requires
        old(buf)@.len() >= 2,
    ensures
        final(buf)@ == header(n as nat) + old(buf)@.subrange(2, old(buf)@.len() as int),
{
    byteorder::LittleEndian::write_u16(buf, n)
}

/// A length prefix declares the length it was made from.
pub proof fn lemma_header_declares(len: nat)
    requires
        len <= 65535,
    ensures
        header(len).len() == 2,
        le16(header(len)[0], header(len)[1]) == len,
{
}

/// Every pair of bytes is the length prefix of the length it declares.
pub proof fn lemma_header_of_le16(b0: u8, b1: u8)
    ensures
        le16(b0, b1) <= 65535,
        header(le16(b0, b1)) == seq![b0, b1],
{
    assert(header(le16(b0, b1)) =~= seq![b0, b1]);
}

} // verus!
