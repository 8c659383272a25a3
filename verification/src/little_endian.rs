//! Little-endian layout of integers, as the device protocols use it.

use byteorder::{ByteOrder, LittleEndian, WriteBytesExt};
use vstd::prelude::*;

verus! {

/// The `width` low bytes of `n`, least significant first.
pub open spec fn le_bytes(n: nat, width: nat) -> Seq<u8>
    decreases width,
{
    if width == 0 {
        Seq::empty()
    } else {
        seq![(n % 256) as u8] + le_bytes(n / 256, (width - 1) as nat)
    }
}

/// `le_bytes` gives as many bytes as asked for.
pub broadcast proof fn lemma_le_bytes_len(n: nat, width: nat)
    ensures
        (#[trigger] le_bytes(n, width)).len() == width,
    decreases width,
{
    if width > 0 {
        lemma_le_bytes_len(n / 256, (width - 1) as nat);
    }
}

/// `byteorder::WriteBytesExt::write_u16` in little-endian order on a vector: the two
/// bytes of `n` are appended, low byte first. Writing to a vector does not fail.
#[verifier::external_body]
pub(crate) fn append_u16(buf: &mut Vec<u8>, n: u16)
    ensures
        final(buf)@ == old(buf)@ + le_bytes(n as nat, 2),
{
    buf.write_u16::<LittleEndian>(n).unwrap();
}

/// `byteorder::WriteBytesExt::write_u32` in little-endian order on a vector: the four
/// bytes of `n` are appended, low byte first. Writing to a vector does not fail.
#[verifier::external_body]
pub(crate) fn append_u32(buf: &mut Vec<u8>, n: u32)
    ensures
        final(buf)@ == old(buf)@ + le_bytes(n as nat, 4),
{
    buf.write_u32::<LittleEndian>(n).unwrap();
}

/// `byteorder::WriteBytesExt::write_u64` in little-endian order on a vector: the eight
/// bytes of `n` are appended, low byte first. Writing to a vector does not fail.
#[verifier::external_body]
pub(crate) fn append_u64(buf: &mut Vec<u8>, n: u64)
    ensures
        final(buf)@ == old(buf)@ + le_bytes(n as nat, 8),
{
    buf.write_u64::<LittleEndian>(n).unwrap();
}

/// `byteorder::ByteOrder::read_u16` of `LittleEndian`: the number that the first two
/// bytes spell, low byte first. It panics on fewer than two bytes.
#[verifier::external_body]
pub(crate) fn first_u16(bytes: &[u8]) -> (r: u16)
    requires
        bytes@.len() >= 2,
    ensures
        r == bytes@[0] as int + 256 * bytes@[1] as int,
{
    LittleEndian::read_u16(bytes)
}

} // verus!
