//! The self-describing WAL block: a fixed 64-byte little-endian header,
//! the metadata envelope, the payload, and an optional reserve region.
//!
//! Header layout (byte ranges): magic 0..8, metadata_offset 8..16,
//! metadata_length 16..18, reserved_flags 18..20, checksum 20..24,
//! reserve_offset 24..32, reserve_length 32..40, data_offset 40..48,
//! data_length 48..56, total_block_size 56..64. Offsets are absolute
//! positions in the segment.
use vstd::bytes::*;
use vstd::prelude::*;
use vstd::slice::slice_to_vec;

use crate::checksum::{compute_checksum, crc32_of};

verus! {

/// Size of the block header in bytes.
pub const HEADER_SIZE: u64 = 64;

/// The ASCII bytes `WALBLOCK` read as a little-endian `u64`.
pub const WAL_MAGIC: u64 = 0x4B434F4C424C4157;

/// Largest metadata envelope a header can describe.
pub const MAX_METADATA_LEN: u64 = 0xffff;

#[derive(Debug, Clone, Copy, PartialEq, Eq)]
pub struct WalBlockHeader {
    pub magic: u64,
    pub metadata_offset: u64,
    pub metadata_length: u16,
    pub reserved_flags: u16,
    pub checksum: u32,
    pub reserve_offset: u64,
    pub reserve_length: u64,
    pub data_offset: u64,
    pub data_length: u64,
    pub total_block_size: u64,
}

/// An optional region after the payload, described by the header.
#[derive(Debug, Clone, Copy, PartialEq, Eq, Structural)]
pub struct Reserve {
    pub offset: u64,
    pub length: u64,
}

/// A block read back from a segment.
#[derive(Debug, Clone)]
pub struct DecodedBlock {
    pub header: WalBlockHeader,
    pub metadata: Vec<u8>,
    pub payload: Vec<u8>,
}

#[derive(Debug, Clone, Copy, PartialEq, Eq, Structural)]
pub enum EncodeError {
    /// The metadata envelope is longer than a 16-bit length can state.
    MetadataTooLong,
    /// The block's end would not fit in a 64-bit file offset.
    BlockTooLarge,
}

#[derive(Debug, Clone, Copy, PartialEq, Eq, Structural)]
pub enum DecodeError {
    /// The segment ends before the header or the block does.
    ShortRead,
    /// The first eight bytes are not `WALBLOCK`.
    BadMagic,
    /// The header's offsets and lengths do not describe a block at this position.
    BadLayout,
    /// The stored checksum differs from the CRC-32 of metadata and payload.
    ChecksumMismatch,
}

/// The 64 header bytes of `h`.
pub open spec fn header_bytes(h: WalBlockHeader) -> Seq<u8> {
    spec_u64_to_le_bytes(h.magic) + spec_u64_to_le_bytes(h.metadata_offset)
        + spec_u16_to_le_bytes(h.metadata_length) + spec_u16_to_le_bytes(h.reserved_flags)
        + spec_u32_to_le_bytes(h.checksum) + spec_u64_to_le_bytes(h.reserve_offset)
        + spec_u64_to_le_bytes(h.reserve_length) + spec_u64_to_le_bytes(h.data_offset)
        + spec_u64_to_le_bytes(h.data_length) + spec_u64_to_le_bytes(h.total_block_size)
}

/// The header stored in 64 bytes `s`.
pub open spec fn parse_header(s: Seq<u8>) -> WalBlockHeader {
    WalBlockHeader {
        magic: spec_u64_from_le_bytes(s.subrange(0, 8)),
        metadata_offset: spec_u64_from_le_bytes(s.subrange(8, 16)),
        metadata_length: spec_u16_from_le_bytes(s.subrange(16, 18)),
        reserved_flags: spec_u16_from_le_bytes(s.subrange(18, 20)),
        checksum: spec_u32_from_le_bytes(s.subrange(20, 24)),
        reserve_offset: spec_u64_from_le_bytes(s.subrange(24, 32)),
        reserve_length: spec_u64_from_le_bytes(s.subrange(32, 40)),
        data_offset: spec_u64_from_le_bytes(s.subrange(40, 48)),
        data_length: spec_u64_from_le_bytes(s.subrange(48, 56)),
        total_block_size: spec_u64_from_le_bytes(s.subrange(56, 64)),
    }
}

/// Whether a block of this metadata and payload can be placed at `start`.
pub open spec fn encodable(meta: Seq<u8>, payload: Seq<u8>, start: u64) -> bool {
    &&& meta.len() <= MAX_METADATA_LEN
    &&& start + HEADER_SIZE + meta.len() + payload.len() <= u64::MAX
}

/// Length in bytes of the block holding `meta` and `payload`.
pub open spec fn block_len(meta: Seq<u8>, payload: Seq<u8>) -> int {
    HEADER_SIZE + meta.len() + payload.len()
}

/// The header written for `meta` and `payload` at `start`.
pub open spec fn block_header_for(meta: Seq<u8>, payload: Seq<u8>, start: u64) -> WalBlockHeader {
    WalBlockHeader {
        magic: WAL_MAGIC,
        metadata_offset: (start + HEADER_SIZE) as u64,
        metadata_length: meta.len() as u16,
        reserved_flags: 0,
        checksum: crc32_of(meta + payload),
        reserve_offset: 0,
        reserve_length: 0,
        data_offset: (start + HEADER_SIZE + meta.len()) as u64,
        data_length: payload.len() as u64,
        total_block_size: block_len(meta, payload) as u64,
    }
}

/// The bytes of the block holding `meta` and `payload` at `start`.
pub open spec fn block_bytes(meta: Seq<u8>, payload: Seq<u8>, start: u64) -> Seq<u8> {
    header_bytes(block_header_for(meta, payload, start)) + meta + payload
}

/// Whether the offsets and lengths of `h` describe a block starting at `start`.
pub open spec fn layout_ok(h: WalBlockHeader, start: int) -> bool {
    &&& h.metadata_offset == start + HEADER_SIZE
    &&& h.data_offset == h.metadata_offset + h.metadata_length
    &&& h.reserved_flags == 0
    &&& h.total_block_size == HEADER_SIZE + h.metadata_length + h.data_length + h.reserve_length
    &&& h.reserve_length == 0 ==> h.reserve_offset == 0
    &&& h.reserve_length > 0 ==> h.reserve_offset == h.data_offset + h.data_length
}

/// What reading the block at `start` of `seg` gives: its header, metadata and payload.
pub open spec fn decode_spec(seg: Seq<u8>, start: int) -> Result<
    (WalBlockHeader, Seq<u8>, Seq<u8>),
    DecodeError,
> {
    if start < 0 || start + HEADER_SIZE > seg.len() {
        Err(DecodeError::ShortRead)
    } else {
        let h = parse_header(seg.subrange(start, start + HEADER_SIZE));
        if h.magic != WAL_MAGIC {
            Err(DecodeError::BadMagic)
        } else if !layout_ok(h, start) {
            Err(DecodeError::BadLayout)
        } else if start + h.total_block_size > seg.len() {
            Err(DecodeError::ShortRead)
        } else {
            let m = seg.subrange(h.metadata_offset as int, h.data_offset as int);
            let p = seg.subrange(h.data_offset as int, h.data_offset + h.data_length);
            if crc32_of(m + p) != h.checksum {
                Err(DecodeError::ChecksumMismatch)
            } else {
                Ok((h, m, p))
            }
        }
    }
}

/// The header bytes of `h` parse back to `h`.
pub proof fn lemma_parse_header_bytes(h: WalBlockHeader)
    ensures
        header_bytes(h).len() == HEADER_SIZE,
        parse_header(header_bytes(h)) == h,
{
    lemma_auto_spec_u64_to_from_le_bytes();
    lemma_auto_spec_u32_to_from_le_bytes();
    lemma_auto_spec_u16_to_from_le_bytes();
    let s = header_bytes(h);
    assert(s.subrange(0, 8) =~= spec_u64_to_le_bytes(h.magic));
    assert(s.subrange(8, 16) =~= spec_u64_to_le_bytes(h.metadata_offset));
    assert(s.subrange(16, 18) =~= spec_u16_to_le_bytes(h.metadata_length));
    assert(s.subrange(18, 20) =~= spec_u16_to_le_bytes(h.reserved_flags));
    assert(s.subrange(20, 24) =~= spec_u32_to_le_bytes(h.checksum));
    assert(s.subrange(24, 32) =~= spec_u64_to_le_bytes(h.reserve_offset));
    assert(s.subrange(32, 40) =~= spec_u64_to_le_bytes(h.reserve_length));
    assert(s.subrange(40, 48) =~= spec_u64_to_le_bytes(h.data_offset));
    assert(s.subrange(48, 56) =~= spec_u64_to_le_bytes(h.data_length));
    assert(s.subrange(56, 64) =~= spec_u64_to_le_bytes(h.total_block_size));
}

/// The 64 header bytes of `h`.
pub fn encode_header(h: &WalBlockHeader) -> (r: Vec<u8>)
    ensures
        r@ == header_bytes(*h),
{
    let mut out: Vec<u8> = Vec::new();
    out.append(&mut u64_to_le_bytes(h.magic));
    out.append(&mut u64_to_le_bytes(h.metadata_offset));
    out.append(&mut u16_to_le_bytes(h.metadata_length));
    out.append(&mut u16_to_le_bytes(h.reserved_flags));
    out.append(&mut u32_to_le_bytes(h.checksum));
    out.append(&mut u64_to_le_bytes(h.reserve_offset));
    out.append(&mut u64_to_le_bytes(h.reserve_length));
    out.append(&mut u64_to_le_bytes(h.data_offset));
    out.append(&mut u64_to_le_bytes(h.data_length));
    out.append(&mut u64_to_le_bytes(h.total_block_size));
    assert(out@ =~= header_bytes(*h));
    out
}

/// Reads the header stored at `start` of `seg`.
pub fn read_header(seg: &[u8], start: usize) -> (r: WalBlockHeader)
    requires
        start + HEADER_SIZE <= seg@.len(),
    ensures
        r == parse_header(seg@.subrange(start as int, start + HEADER_SIZE)),
{
    let n = seg.len();
    assert(n == seg@.len());
    let s = &seg[start..start + 64];
    assert(s@.subrange(0, 8) =~= seg@.subrange(start as int, start + 64).subrange(0, 8));
    let magic = u64_from_le_bytes(&s[0..8]);
    let metadata_offset = u64_from_le_bytes(&s[8..16]);
    let metadata_length = u16_from_le_bytes(&s[16..18]);
    let reserved_flags = u16_from_le_bytes(&s[18..20]);
    let checksum = u32_from_le_bytes(&s[20..24]);
    let reserve_offset = u64_from_le_bytes(&s[24..32]);
    let reserve_length = u64_from_le_bytes(&s[32..40]);
    let data_offset = u64_from_le_bytes(&s[40..48]);
    let data_length = u64_from_le_bytes(&s[48..56]);
    let total_block_size = u64_from_le_bytes(&s[56..64]);
    WalBlockHeader {
        magic,
        metadata_offset,
        metadata_length,
        reserved_flags,
        checksum,
        reserve_offset,
        reserve_length,
        data_offset,
        data_length,
        total_block_size,
    }
}

/// Frames `meta` and `payload` as one block to be placed at `block_start`.
pub fn encode(meta: &Vec<u8>, payload: &Vec<u8>, block_start: u64) -> (r: Result<
    Vec<u8>,
    EncodeError,
>)
    ensures
        r is Ok <==> encodable(meta@, payload@, block_start),
        r matches Ok(b) ==> b@ == block_bytes(meta@, payload@, block_start),
        meta@.len() > MAX_METADATA_LEN ==> r == Err::<Vec<u8>, EncodeError>(
            EncodeError::MetadataTooLong,
        ),
        meta@.len() <= MAX_METADATA_LEN && !encodable(meta@, payload@, block_start) ==> r == Err::<
            Vec<u8>,
            EncodeError,
        >(EncodeError::BlockTooLarge),
{
    if meta.len() as u64 > MAX_METADATA_LEN {
        return Err(EncodeError::MetadataTooLong);
    }
    let room = u64::MAX - block_start;
    let meta_len = meta.len() as u64;
    let payload_len = payload.len() as u64;
    if room < HEADER_SIZE || room - HEADER_SIZE < meta_len || room - HEADER_SIZE - meta_len
        < payload_len {
        return Err(EncodeError::BlockTooLarge);
    }
    let checksum = compute_checksum(meta, payload.as_slice());
    let header = WalBlockHeader {
        magic: WAL_MAGIC,
        metadata_offset: block_start + HEADER_SIZE,
        metadata_length: meta.len() as u16,
        reserved_flags: 0,
        checksum,
        reserve_offset: 0,
        reserve_length: 0,
        data_offset: block_start + HEADER_SIZE + meta.len() as u64,
        data_length: payload.len() as u64,
        total_block_size: HEADER_SIZE + meta.len() as u64 + payload.len() as u64,
    };
    assert(header == block_header_for(meta@, payload@, block_start));
    let mut out = encode_header(&header);
    out.extend_from_slice(meta.as_slice());
    out.extend_from_slice(payload.as_slice());
    assert(out@ =~= block_bytes(meta@, payload@, block_start));
    Ok(out)
}

/// Parses, checks and returns the block that starts at `block_start` of `seg`.
pub fn decode(seg: &[u8], block_start: u64) -> (r: Result<DecodedBlock, DecodeError>)
    ensures
        r matches Ok(d) ==> decode_spec(seg@, block_start as int) == Ok::<
            (WalBlockHeader, Seq<u8>, Seq<u8>),
            DecodeError,
        >((d.header, d.metadata@, d.payload@)),
        r matches Err(e) ==> decode_spec(seg@, block_start as int) == Err::<
            (WalBlockHeader, Seq<u8>, Seq<u8>),
            DecodeError,
        >(e),
{
    let n = seg.len();
    if (n as u64) < HEADER_SIZE || block_start > (n as u64) - HEADER_SIZE {
        return Err(DecodeError::ShortRead);
    }
    let start = block_start as usize;
    let h = read_header(seg, start);
    if h.magic != WAL_MAGIC {
        return Err(DecodeError::BadMagic);
    }
    let ml = h.metadata_length as u64;
    let layout = h.metadata_offset == block_start + HEADER_SIZE
        && h.data_offset >= h.metadata_offset
        && h.data_offset - h.metadata_offset == ml
        && h.reserved_flags == 0
        && h.total_block_size >= HEADER_SIZE
        && h.total_block_size - HEADER_SIZE >= ml
        && h.total_block_size - HEADER_SIZE - ml >= h.data_length
        && h.total_block_size - HEADER_SIZE - ml - h.data_length == h.reserve_length
        && (h.reserve_length != 0 || h.reserve_offset == 0)
        && (h.reserve_length == 0 || (h.reserve_offset >= h.data_offset && h.reserve_offset
            - h.data_offset == h.data_length));
    if !layout {
        return Err(DecodeError::BadLayout);
    }
    if h.total_block_size > (n as u64) - block_start {
        return Err(DecodeError::ShortRead);
    }
    let mo = h.metadata_offset as usize;
    let dof = h.data_offset as usize;
    let de = dof + h.data_length as usize;
    let metadata = slice_to_vec(&seg[mo..dof]);
    let payload = slice_to_vec(&seg[dof..de]);
    let sum = compute_checksum(&metadata, payload.as_slice());
    if sum != h.checksum {
        return Err(DecodeError::ChecksumMismatch);
    }
    Ok(DecodedBlock { header: h, metadata, payload })
}

/// A block written by `encode` at `start` and found at that position of a
/// segment reads back as the same metadata and payload, under the header that
/// `encode` wrote, whose checksum is that of metadata and payload.
pub proof fn lemma_decode_encoded(seg: Seq<u8>, meta: Seq<u8>, payload: Seq<u8>, start: u64)
    requires
        encodable(meta, payload, start),
        start + block_len(meta, payload) <= seg.len(),
        seg.subrange(start as int, start + block_len(meta, payload)) == block_bytes(
            meta,
            payload,
            start,
        ),
    ensures
        decode_spec(seg, start as int) == Ok::<(WalBlockHeader, Seq<u8>, Seq<u8>), DecodeError>(
            (block_header_for(meta, payload, start), meta, payload),
        ),
        block_header_for(meta, payload, start).checksum == crc32_of(meta + payload),
{
    let h = block_header_for(meta, payload, start);
    let b = block_bytes(meta, payload, start);
    lemma_parse_header_bytes(h);
    let s = start as int;
    assert(seg.subrange(s, s + HEADER_SIZE) =~= b.subrange(0, HEADER_SIZE as int));
    assert(b.subrange(0, HEADER_SIZE as int) =~= header_bytes(h));
    let len = block_len(meta, payload);
    assert forall|k: int| 0 <= k < len implies seg[s + k] == b[k] by {
        assert(seg.subrange(s, s + len)[k] == b[k]);
    }
    assert forall|k: int| 0 <= k < meta.len() implies b[HEADER_SIZE + k] == meta[k] by {
        assert(b[HEADER_SIZE + k] == (header_bytes(h) + meta)[HEADER_SIZE + k]);
    }
    assert forall|k: int| 0 <= k < payload.len() implies b[HEADER_SIZE + meta.len() + k]
        == payload[k] by {}
    assert(seg.subrange(h.metadata_offset as int, h.data_offset as int) =~= meta);
    assert(seg.subrange(h.data_offset as int, h.data_offset + h.data_length) =~= payload);
}

/// Changing one byte of the metadata or payload of an encoded block makes
/// reading it fail with `ChecksumMismatch`, whenever the CRC-32 of the changed
/// bytes differs from that of the bytes as written.
pub proof fn lemma_corruption_detected(
    seg: Seq<u8>,
    meta: Seq<u8>,
    payload: Seq<u8>,
    start: u64,
    i: int,
    v: u8,
)
    requires
        encodable(meta, payload, start),
        start + block_len(meta, payload) <= seg.len(),
        seg.subrange(start as int, start + block_len(meta, payload)) == block_bytes(
            meta,
            payload,
            start,
        ),
        0 <= i < meta.len() + payload.len(),
        crc32_of((meta + payload).update(i, v)) != crc32_of(meta + payload),
    ensures
        decode_spec(seg.update(start + HEADER_SIZE + i, v), start as int) == Err::<
            (WalBlockHeader, Seq<u8>, Seq<u8>),
            DecodeError,
        >(DecodeError::ChecksumMismatch),
{
    let h = block_header_for(meta, payload, start);
    let b = block_bytes(meta, payload, start);
    let bad = seg.update(start + HEADER_SIZE + i, v);
    lemma_parse_header_bytes(h);
    let s = start as int;
    assert(bad.subrange(s, s + HEADER_SIZE) =~= b.subrange(0, HEADER_SIZE as int));
    assert(b.subrange(0, HEADER_SIZE as int) =~= header_bytes(h));
    let m = bad.subrange(h.metadata_offset as int, h.data_offset as int);
    let p = bad.subrange(h.data_offset as int, h.data_offset + h.data_length);
    let len = block_len(meta, payload);
    assert forall|k: int| 0 <= k < len implies seg[s + k] == b[k] by {
        assert(seg.subrange(s, s + len)[k] == b[k]);
    }
    assert forall|k: int| 0 <= k < meta.len() implies b[HEADER_SIZE + k] == meta[k] by {
        assert(b[HEADER_SIZE + k] == (header_bytes(h) + meta)[HEADER_SIZE + k]);
    }
    assert forall|k: int| 0 <= k < payload.len() implies b[HEADER_SIZE + meta.len() + k]
        == payload[k] by {}
    assert(m + p =~= (meta + payload).update(i, v));
}

} // verus!
