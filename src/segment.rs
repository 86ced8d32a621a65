//! A pre-allocated WAL segment held in memory: blocks are appended at offsets
//! reserved from the segment's offset manager, and a segment's bytes are
//! replayed block by block until the first block that does not read back.
use vstd::bytes::*;
use vstd::prelude::*;

use crate::block::{
    block_bytes, block_header_for, block_len, decode, decode_spec, encodable, encode,
    header_bytes, lemma_decode_encoded, lemma_parse_header_bytes,
    parse_header, DecodeError, DecodedBlock, WalBlockHeader, HEADER_SIZE,
    MAX_METADATA_LEN, WAL_MAGIC,
};
use crate::offset::{SegmentFull, WalOffsetManager};

verus! {

#[derive(Debug, Clone, Copy, PartialEq, Eq, Structural)]
pub enum WalError {
    /// The metadata envelope is longer than a block header can describe.
    MetadataTooLong,
    /// The block does not fit in what is left of the segment.
    SegmentFull(SegmentFull),
}

/// The blocks read from the start of a segment, where reading stopped, and why.
#[derive(Debug, Clone)]
pub struct Replay {
    pub blocks: Vec<DecodedBlock>,
    /// End of the last block read: the segment is valid up to here.
    pub end: u64,
    /// Why the block at `end` could not be read.
    pub stopped_on: DecodeError,
}

/// A segment of fixed capacity being filled with blocks.
pub struct Segment {
    manager: WalOffsetManager,
    bytes: Vec<u8>,
    log: Ghost<Seq<(Seq<u8>, Seq<u8>)>>,
}

/// A segment that takes no further writes.
#[derive(Debug, Clone)]
pub struct SealedSegment {
    pub bytes: Vec<u8>,
    /// Bytes used by blocks; the rest of the segment is zero.
    pub used: u64,
}

/// Bytes of `blocks` laid out one after another from offset `start`.
pub open spec fn layout_from(blocks: Seq<(Seq<u8>, Seq<u8>)>, start: int) -> Seq<u8>
    decreases blocks.len(),
{
    if blocks.len() == 0 {
        Seq::empty()
    } else {
        block_bytes(blocks[0].0, blocks[0].1, start as u64) + layout_from(
            blocks.drop_first(),
            start + block_len(blocks[0].0, blocks[0].1),
        )
    }
}

/// Whether every block of `blocks` has metadata short enough for a header.
pub open spec fn metadata_fits(blocks: Seq<(Seq<u8>, Seq<u8>)>) -> bool {
    forall|i: int| 0 <= i < blocks.len() ==> (#[trigger] blocks[i]).0.len() <= MAX_METADATA_LEN
}

/// Size reported for a block that does not fit: its length, or `u64::MAX`
/// when that does not fit in 64 bits.
pub open spec fn requested_size(meta: Seq<u8>, payload: Seq<u8>) -> u64 {
    if block_len(meta, payload) <= u64::MAX {
        block_len(meta, payload) as u64
    } else {
        u64::MAX
    }
}

/// Blocks read by replaying `seg` from `pos`, and where the replay stops.
pub open spec fn replay_spec(seg: Seq<u8>, pos: int) -> (Seq<(Seq<u8>, Seq<u8>)>, int)
    decreases seg.len() - pos,
{
    match decode_spec(seg, pos) {
        Ok((h, m, p)) => {
            if pos >= 0 && h.total_block_size > 0 && pos + h.total_block_size <= seg.len() {
                let rest = replay_spec(seg, pos + h.total_block_size);
                (seq![(m, p)] + rest.0, rest.1)
            } else {
                (Seq::empty(), pos)
            }
        },
        Err(_) => (Seq::empty(), pos),
    }
}

/// The view of decoded blocks as (metadata, payload) pairs.
pub open spec fn pairs_of(blocks: Seq<DecodedBlock>) -> Seq<(Seq<u8>, Seq<u8>)> {
    blocks.map_values(|d: DecodedBlock| (d.metadata@, d.payload@))
}

proof fn lemma_layout_push(blocks: Seq<(Seq<u8>, Seq<u8>)>, x: (Seq<u8>, Seq<u8>), start: int)
    ensures
        layout_from(blocks.push(x), start) =~= layout_from(blocks, start) + block_bytes(
            x.0,
            x.1,
            (start + layout_from(blocks, start).len()) as u64,
        ),
        layout_from(blocks, start).len() + block_len(x.0, x.1) == layout_from(
            blocks.push(x),
            start,
        ).len(),
    decreases blocks.len(),
{
    lemma_block_bytes_len(x.0, x.1, (start + layout_from(blocks, start).len()) as u64);
    if blocks.len() > 0 {
        let b0 = blocks[0];
        let rest = blocks.drop_first();
        let s1 = start + block_len(b0.0, b0.1);
        lemma_block_bytes_len(b0.0, b0.1, start as u64);
        let lb = layout_from(blocks, start);
        let bb0 = block_bytes(b0.0, b0.1, start as u64);
        let lr = layout_from(rest, s1);
        assert(lb == bb0 + lr);
        assert(blocks.push(x)[0] == b0);
        assert(blocks.push(x).drop_first() =~= rest.push(x));
        assert(layout_from(blocks.push(x), start) == bb0 + layout_from(rest.push(x), s1));
        lemma_layout_push(rest, x, s1);
        assert(s1 + lr.len() == start + lb.len());
    } else {
        let one = blocks.push(x);
        assert(one[0] == x);
        assert(one.drop_first() =~= Seq::<(Seq<u8>, Seq<u8>)>::empty());
        assert(layout_from(one.drop_first(), start + block_len(x.0, x.1)) == Seq::<u8>::empty());
        assert(layout_from(blocks, start) == Seq::<u8>::empty());
        assert(layout_from(one, start) == block_bytes(x.0, x.1, start as u64) + Seq::<
            u8,
        >::empty());
    }
}

proof fn lemma_block_bytes_len(meta: Seq<u8>, payload: Seq<u8>, start: u64)
    ensures
        block_bytes(meta, payload, start).len() == block_len(meta, payload),
{
    lemma_auto_spec_u64_to_from_le_bytes();
    lemma_auto_spec_u32_to_from_le_bytes();
    lemma_auto_spec_u16_to_from_le_bytes();
}

/// Eight zero bytes do not read as the block magic.
proof fn lemma_zero_magic(z: Seq<u8>)
    requires
        z.len() == 8,
        z[0] == 0,
    ensures
        spec_u64_from_le_bytes(z) != WAL_MAGIC,
{
    lemma_auto_spec_u64_to_from_le_bytes();
    spec_u64_to_le_bytes_to_open(WAL_MAGIC);
    if spec_u64_from_le_bytes(z) == WAL_MAGIC {
        assert(spec_u64_to_le_bytes(spec_u64_from_le_bytes(z)) == z);
        assert((WAL_MAGIC & 0xff) as u8 == 0x57u8) by (bit_vector);
    }
}

/// Replaying bytes that hold `blocks` laid out from `pos`, followed by bytes
/// that do not start a block, yields exactly `blocks` and stops at their end.
proof fn lemma_replay_layout(seg: Seq<u8>, blocks: Seq<(Seq<u8>, Seq<u8>)>, pos: int)
    requires
        0 <= pos,
        metadata_fits(blocks),
        pos + layout_from(blocks, pos).len() <= seg.len(),
        seg.len() <= u64::MAX,
        seg.subrange(pos, pos + layout_from(blocks, pos).len()) == layout_from(blocks, pos),
        decode_spec(seg, pos + layout_from(blocks, pos).len()) is Err,
    ensures
        replay_spec(seg, pos) == (blocks, pos + layout_from(blocks, pos).len()),
    decreases blocks.len(),
{
    if blocks.len() == 0 {
        assert(blocks =~= Seq::<(Seq<u8>, Seq<u8>)>::empty());
    } else {
        let (m, p) = blocks[0];
        let rest = blocks.drop_first();
        let n = block_len(m, p);
        let lay = layout_from(blocks, pos);
        let s1 = pos + n;
        lemma_block_bytes_len(m, p, pos as u64);
        assert(seg.subrange(pos, pos + n) =~= lay.subrange(0, n));
        assert(lay.subrange(0, n) =~= block_bytes(m, p, pos as u64));
        lemma_decode_encoded(seg, m, p, pos as u64);
        assert(lay.subrange(n, lay.len() as int) =~= layout_from(rest, s1));
        assert(seg.subrange(s1, s1 + layout_from(rest, s1).len()) =~= lay.subrange(
            n,
            lay.len() as int,
        ));
        assert(metadata_fits(rest)) by {
            assert forall|i: int| 0 <= i < rest.len() implies (#[trigger] rest[i]).0.len()
                <= MAX_METADATA_LEN by {
                assert(rest[i] == blocks[i + 1]);
            }
        }
        lemma_replay_layout(seg, rest, s1);
        assert(seq![(m, p)] + rest =~= blocks);
    }
}

/// Whatever follows the last block in a well-formed segment reads as no block.
proof fn lemma_zeros_stop_replay(seg: Seq<u8>, pos: int)
    requires
        0 <= pos <= seg.len(),
        forall|i: int| pos <= i < seg.len() ==> seg[i] == 0,
    ensures
        decode_spec(seg, pos) is Err,
{
    if pos + HEADER_SIZE <= seg.len() {
        let hb = seg.subrange(pos, pos + HEADER_SIZE);
        let h = parse_header(hb);
        assert(hb.subrange(0, 8)[0] == 0);
        lemma_zero_magic(hb.subrange(0, 8));
    }
}

/// A crash while writing a block leaves only a prefix of its bytes after the
/// complete blocks; replaying such a segment yields exactly the complete
/// blocks and stops where the cut block starts, so the segment is truncated
/// to the end of the last complete block.
pub proof fn lemma_replay_truncated_block(
    blocks: Seq<(Seq<u8>, Seq<u8>)>,
    meta: Seq<u8>,
    payload: Seq<u8>,
    t: int,
)
    requires
        metadata_fits(blocks),
        meta.len() <= MAX_METADATA_LEN,
        0 <= t < block_len(meta, payload),
        layout_from(blocks, 0).len() + block_len(meta, payload) <= u64::MAX,
    ensures
        replay_spec(
            layout_from(blocks, 0) + block_bytes(
                meta,
                payload,
                layout_from(blocks, 0).len() as u64,
            ).take(t),
            0,
        ) == (blocks, layout_from(blocks, 0).len() as int),
{
    let lay = layout_from(blocks, 0);
    let l = lay.len() as int;
    let full = block_bytes(meta, payload, l as u64);
    let seg = lay + full.take(t);
    lemma_block_bytes_len(meta, payload, l as u64);
    assert(seg.subrange(0, l) =~= lay);
    if l + HEADER_SIZE <= seg.len() {
        let h = block_header_for(meta, payload, l as u64);
        lemma_parse_header_bytes(h);
        assert(seg.subrange(l, l + HEADER_SIZE) =~= header_bytes(h));
    }
    assert(decode_spec(seg, l) is Err);
    lemma_replay_layout(seg, blocks, 0);
}

impl Segment {
    /// Segment invariant: the bytes hold the appended blocks back to back from
    /// offset zero, the counter marks their end, and the rest is zero.
    pub closed spec fn wf(&self) -> bool {
        let lay = layout_from(self.log@, 0);
        &&& self.bytes@.len() == self.manager.max_file_size
        &&& self.manager.current_offset == lay.len()
        &&& lay.len() <= self.bytes@.len()
        &&& self.bytes@.subrange(0, lay.len() as int) == lay
        &&& forall|i: int| lay.len() <= i < self.bytes@.len() ==> self.bytes@[i] == 0
        &&& metadata_fits(self.log@)
    }

    /// The (metadata, payload) pairs appended so far, in write order.
    pub closed spec fn blocks(&self) -> Seq<(Seq<u8>, Seq<u8>)> {
        self.log@
    }

    /// The segment's bytes.
    pub closed spec fn contents(&self) -> Seq<u8> {
        self.bytes@
    }

    /// Bytes used by the appended blocks.
    pub closed spec fn used_spec(&self) -> u64 {
        self.manager.current_offset
    }

    /// The segment's capacity in bytes.
    pub closed spec fn cap_spec(&self) -> u64 {
        self.manager.max_file_size
    }

    /// A zero-filled segment of `cap` bytes with no blocks.
    pub fn new(cap: u64) -> (r: Self)
        requires
            cap <= usize::MAX,
        ensures
            r.wf(),
            r.blocks() == Seq::<(Seq<u8>, Seq<u8>)>::empty(),
            r.used_spec() == 0,
            r.cap_spec() == cap,
            r.contents().len() == cap,
    {
        let bytes: Vec<u8> = vec![0u8; cap as usize];
        let r = Segment {
            manager: WalOffsetManager::new(cap),
            bytes,
            log: Ghost(Seq::empty()),
        };
        assert(r.bytes@.subrange(0, 0) =~= Seq::<u8>::empty());
        r
    }

    pub fn used(&self) -> (r: u64)
        ensures
            r == self.used_spec(),
    {
        self.manager.get_current_offset()
    }

    pub fn capacity(&self) -> (r: u64)
        ensures
            r == self.cap_spec(),
    {
        self.manager.max_file_size
    }

    pub fn bytes(&self) -> (r: &[u8])
        ensures
            r@ == self.contents(),
    {
        self.bytes.as_slice()
    }

    /// Writes one block at the next free offset and returns that offset.
    /// Claims exactly `64 + |meta| + |payload|` bytes.
    pub fn append(&mut self, meta: &Vec<u8>, payload: &Vec<u8>) -> (r: Result<u64, WalError>)
        requires
            old(self).wf(),
        ensures
            final(self).wf(),
            final(self).cap_spec() == old(self).cap_spec(),
            meta@.len() > MAX_METADATA_LEN ==> r == Err::<u64, WalError>(
                WalError::MetadataTooLong,
            ) && *final(self) == *old(self),
            meta@.len() <= MAX_METADATA_LEN && old(self).used_spec() + block_len(meta@, payload@)
                <= old(self).cap_spec() ==> {
                &&& r == Ok::<u64, WalError>(old(self).used_spec())
                &&& final(self).blocks() == old(self).blocks().push((meta@, payload@))
                &&& final(self).used_spec() == old(self).used_spec() + block_len(
                    meta@,
                    payload@,
                )
                &&& final(self).contents() == old(self).contents().subrange(
                    0,
                    old(self).used_spec() as int,
                ) + block_bytes(meta@, payload@, old(self).used_spec()) + old(
                    self,
                ).contents().subrange(
                    old(self).used_spec() + block_len(meta@, payload@),
                    old(self).cap_spec() as int,
                )
            },
            meta@.len() <= MAX_METADATA_LEN && old(self).used_spec() + block_len(meta@, payload@)
                > old(self).cap_spec() ==> r == Err::<u64, WalError>(
                WalError::SegmentFull(
                    SegmentFull {
                        current_offset: old(self).used_spec(),
                        requested: requested_size(meta@, payload@),
                    },
                ),
            ) && *final(self) == *old(self),
    {
        let ghost pre = *self;
        if meta.len() as u64 > MAX_METADATA_LEN {
            return Err(WalError::MetadataTooLong);
        }
        let blen = self.bytes.len();
        let room = self.manager.max_file_size - self.manager.current_offset;
        let meta_len = meta.len() as u64;
        let payload_len = payload.len() as u64;
        let head = HEADER_SIZE + meta_len;
        if payload_len > u64::MAX - head {
            return Err(
                WalError::SegmentFull(
                    SegmentFull { current_offset: self.manager.current_offset, requested: u64::MAX },
                ),
            );
        }
        let size = head + payload_len;
        if size > room {
            return Err(
                WalError::SegmentFull(
                    SegmentFull { current_offset: self.manager.current_offset, requested: size },
                ),
            );
        }
        let offset = match self.manager.claim_offset(size) {
            Ok(o) => o,
            Err(e) => {
                return Err(WalError::SegmentFull(e));
            },
        };
        assert(encodable(meta@, payload@, offset));
        let block = match encode(meta, payload, offset) {
            Ok(b) => b,
            Err(_) => {
                return Err(WalError::MetadataTooLong);
            },
        };
        let ghost old_bytes = self.bytes@;
        let ghost pre_manager = self.manager;
        proof {
            lemma_block_bytes_len(meta@, payload@, offset);
        }
        let start = offset as usize;
        let mut i: usize = 0;
        while i < block.len()
            invariant
                start + block@.len() <= self.bytes@.len(),
                self.bytes@.len() == blen,
                self.manager == pre_manager,
                self.log == pre.log,
                self.bytes@.len() == old_bytes.len(),
                block@.len() == size,
                0 <= i <= block@.len(),
                forall|k: int| 0 <= k < start ==> self.bytes@[k] == old_bytes[k],
                forall|k: int| 0 <= k < i ==> self.bytes@[start + k] == block@[k],
                forall|k: int| start + i <= k < self.bytes@.len() ==> self.bytes@[k]
                    == old_bytes[k],
            decreases block@.len() - i,
        {
            self.bytes.set(start + i, block[i]);
            i = i + 1;
        }
        let ghost x = (meta@, payload@);
        proof {
            lemma_layout_push(pre.log@, x, 0);
            self.log@ = pre.log@.push(x);
            let lay = layout_from(self.log@, 0);
            let old_lay = layout_from(pre.log@, 0);
            assert(old_lay.len() == start);
            assert forall|k: int| 0 <= k < old_lay.len() implies self.bytes@[k] == lay[k] by {
                assert(old_bytes.subrange(0, old_lay.len() as int)[k] == old_lay[k]);
            }
            assert forall|k: int| old_lay.len() <= k < lay.len() implies self.bytes@[k]
                == lay[k] by {
                assert(self.bytes@[start + (k - start)] == block@[k - start]);
            }
            assert(self.bytes@.subrange(0, lay.len() as int) =~= lay);
            assert(self.manager.current_offset == lay.len());
            assert(self.bytes@ =~= old_bytes.subrange(0, start as int) + block@ + old_bytes.subrange(
                start + block@.len(),
                old_bytes.len() as int,
            ));
            assert(old_bytes == pre.bytes@);
            assert forall|k: int| lay.len() <= k < self.bytes@.len() implies self.bytes@[k]
                == 0 by {
                assert(self.bytes@[k] == old_bytes[k]);
                assert(pre.bytes@[k] == 0);
            }
            assert(metadata_fits(self.log@)) by {
                assert forall|j: int| 0 <= j < self.log@.len() implies (
                #[trigger] self.log@[j]).0.len() <= MAX_METADATA_LEN by {
                    if j < pre.log@.len() {
                        assert(self.log@[j] == pre.log@[j]);
                    }
                }
            }
        }
        Ok(offset)
    }

    /// Ends writing; the sealed segment keeps the bytes and the used length.
    pub fn seal(self) -> (r: SealedSegment)
        requires
            self.wf(),
        ensures
            r.bytes@ == self.contents(),
            r.used == self.used_spec(),
    {
        SealedSegment { bytes: self.bytes, used: self.manager.current_offset }
    }
}

/// Appending blocks to a fresh segment and replaying its bytes yields exactly
/// the appended (metadata, payload) pairs, in write order, and stops at the
/// end of the last one.
pub proof fn lemma_replay_after_appends(seg: &Segment)
    requires
        seg.wf(),
    ensures
        replay_spec(seg.contents(), 0) == (seg.blocks(), seg.used_spec() as int),
{
    let lay = layout_from(seg.log@, 0);
    lemma_zeros_stop_replay(seg.bytes@, lay.len() as int);
    lemma_replay_layout(seg.bytes@, seg.log@, 0);
}

/// Reads blocks from the start of `seg` until one does not read back; the
/// segment is valid up to `end`, and everything from there on is discarded
/// on recovery.
pub fn replay(seg: &[u8]) -> (r: Replay)
    requires
        seg@.len() <= u64::MAX,
    ensures
        pairs_of(r.blocks@) == replay_spec(seg@, 0).0,
        r.end == replay_spec(seg@, 0).1,
        decode_spec(seg@, r.end as int) == Err::<(WalBlockHeader, Seq<u8>, Seq<u8>), DecodeError>(
            r.stopped_on,
        ),
{
    let mut pos: u64 = 0;
    let mut blocks: Vec<DecodedBlock> = Vec::new();
    assert(pairs_of(blocks@) + replay_spec(seg@, 0).0 =~= replay_spec(seg@, 0).0);
    loop
        invariant
            seg@.len() <= u64::MAX,
            pos <= seg@.len(),
            replay_spec(seg@, 0) == (
                pairs_of(blocks@) + replay_spec(seg@, pos as int).0,
                replay_spec(seg@, pos as int).1,
            ),
        decreases seg@.len() - pos,
    {
        match decode(seg, pos) {
            Ok(d) => {
                let t = d.header.total_block_size;
                let ghost rest = replay_spec(seg@, pos + t);
                assert(replay_spec(seg@, pos as int) == (
                    seq![(d.metadata@, d.payload@)] + rest.0,
                    rest.1,
                ));
                let ghost before = blocks@;
                blocks.push(d);
                assert(pairs_of(blocks@) =~= pairs_of(before).push((d.metadata@, d.payload@)));
                assert(pairs_of(blocks@) + rest.0 =~= pairs_of(before) + (seq![
                    (d.metadata@, d.payload@),
                ] + rest.0));
                pos = pos + t;
            },
            Err(e) => {
                assert(replay_spec(seg@, pos as int).0 =~= Seq::<(Seq<u8>, Seq<u8>)>::empty());
                assert(pairs_of(blocks@) + Seq::<(Seq<u8>, Seq<u8>)>::empty() =~= pairs_of(
                    blocks@,
                ));
                return Replay { blocks, end: pos, stopped_on: e };
            },
        }
    }
}

impl Segment {
    /// Replays this segment: yields exactly the appended blocks, in write
    /// order, and stops at the end of the last one.
    pub fn replay(&self) -> (r: Replay)
        requires
            self.wf(),
        ensures
            pairs_of(r.blocks@) == self.blocks(),
            r.end == self.used_spec(),
    {
        proof {
            lemma_replay_after_appends(self);
        }
        replay(self.bytes.as_slice())
    }
}

} // verus!
