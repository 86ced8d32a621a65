//! Reservation of disjoint byte ranges inside a fixed-capacity segment.
//!
//! On overflow the counter is left unchanged: a claim that does not fit fails
//! and the counter keeps its value, so later claims that do fit still succeed.
use vstd::prelude::*;

verus! {

/// Error of a claim that would take the counter past the segment capacity.
#[derive(Debug, Clone, Copy, PartialEq, Eq, Structural)]
pub struct SegmentFull {
    pub current_offset: u64,
    pub requested: u64,
}

/// Counter of the bytes already reserved in one segment.
pub struct WalOffsetManager {
    pub current_offset: u64,
    pub max_file_size: u64,
}

/// Whether a claim of `size` bytes fits when `current` bytes are taken.
pub open spec fn claim_fits(current: u64, cap: u64, size: u64) -> bool {
    current + size <= cap
}

/// Counter value after one claim of `size` bytes.
pub open spec fn counter_after_claim(current: u64, cap: u64, size: u64) -> u64 {
    if claim_fits(current, cap, size) {
        (current + size) as u64
    } else {
        current
    }
}

/// Counter value after the claims `sizes`, in order, starting from `start`.
pub open spec fn counter_after(start: u64, cap: u64, sizes: Seq<u64>) -> u64
    decreases sizes.len(),
{
    if sizes.len() == 0 {
        start
    } else {
        counter_after_claim(counter_after(start, cap, sizes.drop_last()), cap, sizes.last())
    }
}

/// Offset handed out by the `i`-th of the claims `sizes`, if it succeeded.
pub open spec fn claim_result(start: u64, cap: u64, sizes: Seq<u64>, i: int) -> Option<u64> {
    let c = counter_after(start, cap, sizes.take(i));
    if claim_fits(c, cap, sizes[i]) {
        Some(c)
    } else {
        None
    }
}

/// Sum of the sizes of the claims among `sizes` that succeeded.
pub open spec fn claimed_total(start: u64, cap: u64, sizes: Seq<u64>) -> int
    decreases sizes.len(),
{
    if sizes.len() == 0 {
        0
    } else {
        let c = counter_after(start, cap, sizes.drop_last());
        claimed_total(start, cap, sizes.drop_last()) + if claim_fits(c, cap, sizes.last()) {
            sizes.last() as int
        } else {
            0
        }
    }
}

/// The counter never decreases along a run of claims.
proof fn lemma_counter_monotone(start: u64, cap: u64, sizes: Seq<u64>, k: int, l: int)
    requires
        0 <= k <= l <= sizes.len(),
    ensures
        counter_after(start, cap, sizes.take(k)) <= counter_after(start, cap, sizes.take(l)),
    decreases l - k,
{
    if k < l {
        lemma_counter_monotone(start, cap, sizes, k, l - 1);
        assert(sizes.take(l).drop_last() =~= sizes.take(l - 1));
    }
}

/// Starting within the capacity, the counter stays within it.
proof fn lemma_counter_within_cap(start: u64, cap: u64, sizes: Seq<u64>)
    requires
        start <= cap,
    ensures
        counter_after(start, cap, sizes) <= cap,
    decreases sizes.len(),
{
    if sizes.len() > 0 {
        lemma_counter_within_cap(start, cap, sizes.drop_last());
    }
}

/// The bytes handed out are exactly how far the counter moved.
proof fn lemma_total_is_counter_advance(start: u64, cap: u64, sizes: Seq<u64>)
    ensures
        claimed_total(start, cap, sizes) == counter_after(start, cap, sizes) - start,
    decreases sizes.len(),
{
    if sizes.len() > 0 {
        lemma_total_is_counter_advance(start, cap, sizes.drop_last());
    }
}

/// Any run of claims on a fresh manager of capacity `cap` hands out offsets
/// whose ranges lie within the capacity and do not overlap, and hands out at
/// most `cap` bytes in total.
pub proof fn lemma_claims_disjoint_within_cap(cap: u64, sizes: Seq<u64>)
    ensures
        forall|i: int|
            0 <= i < sizes.len() && #[trigger] claim_result(0, cap, sizes, i) is Some
                ==> claim_result(0, cap, sizes, i)->Some_0 + sizes[i] <= cap,
        forall|i: int, j: int|
            0 <= i < j < sizes.len() && #[trigger] claim_result(0, cap, sizes, i) is Some
                && #[trigger] claim_result(0, cap, sizes, j) is Some
                ==> claim_result(0, cap, sizes, i)->Some_0 + sizes[i] <= claim_result(
                0,
                cap,
                sizes,
                j,
            )->Some_0,
        claimed_total(0, cap, sizes) <= cap,
{
    assert forall|i: int, j: int|
        0 <= i < j < sizes.len() && #[trigger] claim_result(0, cap, sizes, i) is Some
            && #[trigger] claim_result(0, cap, sizes, j) is Some implies claim_result(
        0,
        cap,
        sizes,
        i,
    )->Some_0 + sizes[i] <= claim_result(0, cap, sizes, j)->Some_0 by {
        assert(sizes.take(i + 1).drop_last() =~= sizes.take(i));
        assert(sizes.take(i + 1).last() == sizes[i]);
        lemma_counter_monotone(0, cap, sizes, i + 1, j);
    }
    lemma_total_is_counter_advance(0, cap, sizes);
    lemma_counter_within_cap(0, cap, sizes);
}

/// The run model advances exactly as `claim_offset` does: after calls with
/// `sizes` on a fresh manager its counter is `counter_after(0, cap, sizes)`,
/// and a further call of size `s` returns `claim_result` of the longer run
/// (`Ok` of the offset, or `Err` for `None`) and moves the counter to the
/// longer run's `counter_after`. So `lemma_claims_disjoint_within_cap`
/// speaks of the results of any sequence of calls.
pub proof fn lemma_claim_step(cap: u64, sizes: Seq<u64>, s: u64)
    ensures
        ({
            let c = counter_after(0, cap, sizes);
            &&& claim_result(0, cap, sizes.push(s), sizes.len() as int) == if claim_fits(
                c,
                cap,
                s,
            ) {
                Some(c)
            } else {
                None::<u64>
            }
            &&& counter_after(0, cap, sizes.push(s)) == counter_after_claim(c, cap, s)
        }),
{
    assert(sizes.push(s).take(sizes.len() as int) =~= sizes);
    assert(sizes.push(s).drop_last() =~= sizes);
}

/// A claim larger than the capacity fails whatever the counter holds, and
/// leaves the counter where it was.
pub proof fn lemma_oversized_claim_fails(current: u64, cap: u64, size: u64)
    requires
        size > cap,
    ensures
        !claim_fits(current, cap, size),
        counter_after_claim(current, cap, size) == current,
{
}

impl WalOffsetManager {
    pub fn new(max_file_size: u64) -> (r: Self)
        ensures
            r.current_offset == 0,
            r.max_file_size == max_file_size,
    {
        WalOffsetManager { current_offset: 0, max_file_size }
    }

    pub fn get_current_offset(&self) -> (r: u64)
        ensures
            r == self.current_offset,
    {
        self.current_offset
    }

    pub fn update_offset(&mut self, offset: u64)
        ensures
            final(self).current_offset == offset,
            final(self).max_file_size == old(self).max_file_size,
    {
        self.current_offset = offset;
    }

    pub fn reset_offset(&mut self)
        ensures
            final(self).current_offset == 0,
            final(self).max_file_size == old(self).max_file_size,
    {
        self.current_offset = 0;
    }

    pub fn is_max_size_reached(&self) -> (r: bool)
        ensures
            r == (self.current_offset >= self.max_file_size),
    {
        self.get_current_offset() >= self.max_file_size
    }

    /// Advances the counter by `increment`, stopping at `u64::MAX`.
    pub fn increment_offset(&mut self, increment: u64)
        ensures
            final(self).current_offset == if old(self).current_offset + increment > u64::MAX {
                u64::MAX as int
            } else {
                old(self).current_offset + increment
            },
            final(self).max_file_size == old(self).max_file_size,
    {
        let new_offset = self.get_current_offset().saturating_add(increment);
        self.update_offset(new_offset);
    }

    /// Reserves `buffer_size` bytes; on success the caller owns
    /// `[offset, offset + buffer_size)`. On failure nothing changes.
    pub fn claim_offset(&mut self, buffer_size: u64) -> (r: Result<u64, SegmentFull>)
        ensures
            final(self).max_file_size == old(self).max_file_size,
            final(self).current_offset == counter_after_claim(
                old(self).current_offset,
                old(self).max_file_size,
                buffer_size,
            ),
            claim_fits(old(self).current_offset, old(self).max_file_size, buffer_size) ==> r
                == Ok::<u64, SegmentFull>(old(self).current_offset),
            !claim_fits(old(self).current_offset, old(self).max_file_size, buffer_size) ==> r
                == Err::<u64, SegmentFull>(
                SegmentFull { current_offset: old(self).current_offset, requested: buffer_size },
            ),
    {
        let current_offset = self.get_current_offset();
        if current_offset > self.max_file_size || buffer_size > self.max_file_size - current_offset {
            return Err(SegmentFull { current_offset, requested: buffer_size });
        }
        self.current_offset = current_offset + buffer_size;
        Ok(current_offset)
    }
}

} // verus!
