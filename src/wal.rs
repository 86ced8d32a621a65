//! The WAL writer: appends blocks to the active segment, seals it when the
//! next block does not fit and continues in a fresh one; and the fsync policy.
use vstd::prelude::*;

use crate::block::{block_len, MAX_METADATA_LEN};
use crate::segment::{SealedSegment, Segment, WalError};

verus! {

/// When the writer flushes appended blocks to stable storage.
#[derive(Debug, Clone, Copy, PartialEq, Eq, Structural)]
pub enum SyncPolicy {
    /// After every append.
    Every,
    /// After every `n` appends.
    EveryN(u32),
    /// When at least this many milliseconds passed since the last sync.
    Interval(u64),
}

impl Default for SyncPolicy {
    fn default() -> (r: Self)
        ensures
            r == SyncPolicy::EveryN(64),
    {
        SyncPolicy::EveryN(64)
    }
}

/// Whether `policy` asks for a sync now.
pub open spec fn sync_due(policy: SyncPolicy, appends_since_sync: u64, ms_since_sync: u64) -> bool {
    match policy {
        SyncPolicy::Every => true,
        SyncPolicy::EveryN(n) => appends_since_sync >= n,
        SyncPolicy::Interval(ms) => ms_since_sync >= ms,
    }
}

/// Decides whether to fsync after an append.
pub fn should_sync(policy: SyncPolicy, appends_since_sync: u64, ms_since_sync: u64) -> (r: bool)
    ensures
        r == sync_due(policy, appends_since_sync, ms_since_sync),
{
    match policy {
        SyncPolicy::Every => true,
        SyncPolicy::EveryN(n) => appends_since_sync >= n as u64,
        SyncPolicy::Interval(ms) => ms_since_sync >= ms,
    }
}

/// Whether the block fits in what is left of a segment of capacity `cap`
/// with `used` bytes taken.
pub open spec fn fits_active(used: u64, cap: u64, meta: Seq<u8>, payload: Seq<u8>) -> bool {
    meta.len() <= MAX_METADATA_LEN && used + block_len(meta, payload) <= cap
}

/// Whether the block does not fit there but fits in an empty segment, so
/// that appending it seals the segment and opens a new one.
pub open spec fn needs_rotation(used: u64, cap: u64, meta: Seq<u8>, payload: Seq<u8>) -> bool {
    meta.len() <= MAX_METADATA_LEN && used + block_len(meta, payload) > cap && block_len(
        meta,
        payload,
    ) <= cap
}

/// A block that exactly fills the rest of the active segment is written
/// there, and leaves it full; any next block that fits in an empty segment
/// then opens a new segment.
pub proof fn lemma_exact_fill_then_rotation(
    used: u64,
    cap: u64,
    meta1: Seq<u8>,
    payload1: Seq<u8>,
    meta2: Seq<u8>,
    payload2: Seq<u8>,
)
    requires
        meta1.len() <= MAX_METADATA_LEN,
        used + block_len(meta1, payload1) == cap,
        meta2.len() <= MAX_METADATA_LEN,
        block_len(meta2, payload2) <= cap,
    ensures
        fits_active(used, cap, meta1, payload1),
        needs_rotation(cap, cap, meta2, payload2),
{
}

/// Where an appended block went: the segment's sequence number and the
/// block's offset in it.
#[derive(Debug, Clone, Copy, PartialEq, Eq, Structural)]
pub struct BlockPosition {
    pub segment: u64,
    pub offset: u64,
}

/// A WAL of rotating segments of one capacity.
pub struct Wal {
    active: Segment,
    sealed: Vec<SealedSegment>,
    cap: u64,
}

impl Wal {
    pub closed spec fn wf(&self) -> bool {
        &&& self.active.wf()
        &&& self.active.cap_spec() == self.cap
        &&& self.cap <= usize::MAX
    }

    /// The segment being written.
    pub closed spec fn active_spec(&self) -> Segment {
        self.active
    }

    /// The segments sealed so far, oldest first.
    pub closed spec fn sealed_spec(&self) -> Seq<SealedSegment> {
        self.sealed@
    }

    pub closed spec fn cap_spec(&self) -> u64 {
        self.cap
    }

    pub fn new(cap: u64) -> (r: Self)
        requires
            cap <= usize::MAX,
        ensures
            r.wf(),
            r.cap_spec() == cap,
            r.sealed_spec().len() == 0,
            r.active_spec().blocks().len() == 0,
            r.active_spec().used_spec() == 0,
    {
        Wal { active: Segment::new(cap), sealed: Vec::new(), cap }
    }

    pub fn active(&self) -> (r: &Segment)
        ensures
            *r == self.active_spec(),
    {
        &self.active
    }

    pub fn sealed(&self) -> (r: &Vec<SealedSegment>)
        ensures
            r@ == self.sealed_spec(),
    {
        &self.sealed
    }

    /// Appends one block. A block that does not fit in the active segment
    /// but fits in an empty one seals the active segment and opens a new one.
    pub fn append(&mut self, meta: &Vec<u8>, payload: &Vec<u8>) -> (r: Result<
        BlockPosition,
        WalError,
    >)
        requires
            old(self).wf(),
        ensures
            final(self).wf(),
            final(self).cap_spec() == old(self).cap_spec(),
            meta@.len() > MAX_METADATA_LEN ==> r == Err::<BlockPosition, WalError>(
                WalError::MetadataTooLong,
            ) && *final(self) == *old(self),
            fits_active(old(self).active_spec().used_spec(), old(self).cap_spec(), meta@, payload@)
                ==> {
                &&& r == Ok::<BlockPosition, WalError>(
                    BlockPosition {
                        segment: old(self).sealed_spec().len() as u64,
                        offset: old(self).active_spec().used_spec(),
                    },
                )
                &&& final(self).sealed_spec() == old(self).sealed_spec()
                &&& final(self).active_spec().blocks() == old(
                    self,
                ).active_spec().blocks().push((meta@, payload@))
                &&& final(self).active_spec().used_spec() == old(self).active_spec().used_spec()
                    + block_len(meta@, payload@)
            },
            needs_rotation(
                old(self).active_spec().used_spec(),
                old(self).cap_spec(),
                meta@,
                payload@,
            ) ==> {
                &&& r == Ok::<BlockPosition, WalError>(
                    BlockPosition { segment: (old(self).sealed_spec().len() + 1) as u64, offset: 0 },
                )
                &&& final(self).sealed_spec().len() == old(self).sealed_spec().len() + 1
                &&& final(self).sealed_spec().drop_last() == old(self).sealed_spec()
                &&& final(self).sealed_spec().last().bytes@ == old(self).active_spec().contents()
                &&& final(self).sealed_spec().last().used == old(self).active_spec().used_spec()
                &&& final(self).active_spec().blocks() == seq![(meta@, payload@)]
                &&& final(self).active_spec().used_spec() == block_len(meta@, payload@)
            },
            meta@.len() <= MAX_METADATA_LEN && block_len(meta@, payload@) > old(self).cap_spec()
                ==> r is Err && r->Err_0 is SegmentFull && *final(self) == *old(self),
    {
        let first = self.active.append(meta, payload);
        match first {
            Ok(offset) => Ok(BlockPosition { segment: self.sealed.len() as u64, offset }),
            Err(WalError::MetadataTooLong) => Err(WalError::MetadataTooLong),
            Err(WalError::SegmentFull(full)) => {
                let meta_len = meta.len() as u64;
                let payload_len = payload.len() as u64;
                if self.cap < 64 || self.cap - 64 < meta_len || self.cap - 64 - meta_len
                    < payload_len {
                    return Err(WalError::SegmentFull(full));
                }
                let ghost pre = *self;
                let mut fresh = Segment::new(self.cap);
                core::mem::swap(&mut self.active, &mut fresh);
                let sealed = fresh.seal();
                self.sealed.push(sealed);
                let second = self.active.append(meta, payload);
                match second {
                    Ok(offset) => {
                        assert(self.sealed@.drop_last() =~= pre.sealed@);
                        assert(self.active.blocks() =~= seq![(meta@, payload@)]);
                        Ok(BlockPosition { segment: self.sealed.len() as u64, offset })
                    },
                    Err(e) => Err(e),
                }
            },
        }
    }

    /// Seals the active segment and returns every sealed segment, oldest first.
    pub fn finish(self) -> (r: Vec<SealedSegment>)
        requires
            self.wf(),
        ensures
            r@.len() == self.sealed_spec().len() + 1,
            r@.drop_last() == self.sealed_spec(),
            r@.last().bytes@ == self.active_spec().contents(),
            r@.last().used == self.active_spec().used_spec(),
    {
        let mut all = self.sealed;
        let ghost before = all@;
        all.push(self.active.seal());
        assert(all@.drop_last() =~= before);
        all
    }
}

} // verus!
