//! CRC-32 over the metadata and payload of a block.
use vstd::prelude::*;

verus! {

/// The CRC-32 (IEEE) checksum of a byte sequence.
pub uninterp spec fn crc32_of(bytes: Seq<u8>) -> u32;

/// Relies on `crc32fast::hash`: the CRC-32 of the bytes, a function of them alone.
#[verifier::external_body]
fn crc32(bytes: &[u8]) -> (r: u32)
    ensures
        r == crc32_of(bytes@),
{
    crc32fast::hash(bytes)
}

/// Checksum of `metadata ‖ data`, as stored in a block header.
pub fn compute_checksum(metadata: &Vec<u8>, data: &[u8]) -> (r: u32)
    ensures
        r == crc32_of(metadata@ + data@),
{
    let mut buf: Vec<u8> = Vec::new();
    buf.extend_from_slice(metadata.as_slice());
    buf.extend_from_slice(data);
    assert(buf@ =~= metadata@ + data@);
    crc32(buf.as_slice())
}

} // verus!
