//! Physical Memory Manager: a bitmap allocator with one bit per
//! `PAGE_SIZE` frame of a managed extent, reserved ranges fixed at
//! construction, and cached per-state counters.
//!
//! Every frame of the extent is in exactly one state: `Reserved` (inside
//! a reserved range), `Allocated` (handed out and not yet freed) or
//! `Free`. The counters always equal the number of frames in each state,
//! and allocation always hands out the lowest-addressed free frame.

use vstd::prelude::*;
use crate::hal::mmu::{FrameProvider, PhysAddr, PhysFrame, PAGE_SIZE};
use crate::mm::PhysFrameRange;

verus! {

/// Bit `k` (0..8) of byte `b`.
pub open spec fn byte_bit(b: u8, k: int) -> bool {
    (b >> (k as u8)) & 1u8 == 1u8
}

/// Bit `i` of a little-endian bitmap: bit `i % 8` of byte `i / 8`.
pub open spec fn bit_at(bytes: Seq<u8>, i: int) -> bool {
    byte_bit(bytes[i / 8], i % 8)
}

proof fn lemma_byte_set(b: u8, k: u8, j: u8)
    by (bit_vector)
    requires
        k < 8,
        j < 8,
    ensures
        (((b | (1u8 << k)) >> j) & 1u8 == 1u8) == (j == k || (b >> j) & 1u8 == 1u8),
{
}

proof fn lemma_byte_clear(b: u8, k: u8, j: u8)
    by (bit_vector)
    requires
        k < 8,
        j < 8,
    ensures
        (((b & !(1u8 << k)) >> j) & 1u8 == 1u8) == (j != k && (b >> j) & 1u8 == 1u8),
{
}

proof fn lemma_byte_zero(j: u8)
    by (bit_vector)
    requires
        j < 8,
    ensures
        (0u8 >> j) & 1u8 != 1u8,
{
}

/// A bitmap of `n` zero bytes.
fn zeroed_bitmap(n: usize) -> (r: Vec<u8>)
    ensures
        r@.len() == n,
        forall|i: int| 0 <= i < 8 * n ==> !#[trigger] bit_at(r@, i),
{
    let mut v: Vec<u8> = Vec::new();
    let mut k: usize = 0;
    while k < n
        invariant
            k <= n,
            v@.len() == k,
            forall|j: int| 0 <= j < k ==> #[trigger] v@[j] == 0u8,
        decreases n - k,
    {
        v.push(0u8);
        k = k + 1;
    }
    assert forall|i: int| 0 <= i < 8 * n implies !#[trigger] bit_at(v@, i) by {
        assert(v@[i / 8] == 0u8);
        lemma_byte_zero((i % 8) as u8);
    }
    v
}

/// Set bit `idx`.
fn set_bit(bitmap: &mut Vec<u8>, idx: usize)
    requires
        idx < 8 * old(bitmap)@.len(),
    ensures
        final(bitmap)@.len() == old(bitmap)@.len(),
        forall|i: int| 0 <= i < 8 * old(bitmap)@.len() ==> #[trigger] bit_at(final(bitmap)@, i) == (
        i == idx || bit_at(old(bitmap)@, i)),
{
    let byte = idx / 8;
    let bit = (idx % 8) as u8;
    let v = bitmap[byte] | (1u8 << bit);
    bitmap.set(byte, v);
    proof {
        assert forall|i: int| 0 <= i < 8 * old(bitmap)@.len() implies #[trigger] bit_at(bitmap@, i)
            == (i == idx || bit_at(old(bitmap)@, i)) by {
            if i / 8 == byte as int {
                lemma_byte_set(old(bitmap)@[byte as int], bit, (i % 8) as u8);
            }
        }
    }
}

/// Clear bit `idx`.
fn clear_bit(bitmap: &mut Vec<u8>, idx: usize)
    requires
        idx < 8 * old(bitmap)@.len(),
    ensures
        final(bitmap)@.len() == old(bitmap)@.len(),
        forall|i: int| 0 <= i < 8 * old(bitmap)@.len() ==> #[trigger] bit_at(final(bitmap)@, i) == (
        i != idx && bit_at(old(bitmap)@, i)),
{
    let byte = idx / 8;
    let bit = (idx % 8) as u8;
    let v = bitmap[byte] & !(1u8 << bit);
    bitmap.set(byte, v);
    proof {
        assert forall|i: int| 0 <= i < 8 * old(bitmap)@.len() implies #[trigger] bit_at(bitmap@, i)
            == (i != idx && bit_at(old(bitmap)@, i)) by {
            if i / 8 == byte as int {
                lemma_byte_clear(old(bitmap)@[byte as int], bit, (i % 8) as u8);
            }
        }
    }
}

/// Read bit `idx`.
fn read_bit(bitmap: &Vec<u8>, idx: usize) -> (r: bool)
    requires
        idx < 8 * bitmap@.len(),
    ensures
        r == bit_at(bitmap@, idx as int),
{
    let byte = idx / 8;
    let bit = (idx % 8) as u8;
    (bitmap[byte] >> bit) & 1u8 == 1u8
}

/// The lowest clear bit below `frame_count`, or `None` when all are set.
fn first_zero_bit(bitmap: &Vec<u8>, frame_count: usize) -> (r: Option<usize>)
    requires
        frame_count <= 8 * bitmap@.len(),
    ensures
        r matches Some(i) ==> i < frame_count && !bit_at(bitmap@, i as int) && forall|j: int|
            0 <= j < i ==> #[trigger] bit_at(bitmap@, j),
        r is None ==> forall|j: int| 0 <= j < frame_count ==> #[trigger] bit_at(bitmap@, j),
{
    let mut idx: usize = 0;
    while idx < frame_count
        invariant
            idx <= frame_count,
            frame_count <= 8 * bitmap@.len(),
            forall|j: int| 0 <= j < idx ==> #[trigger] bit_at(bitmap@, j),
        decreases frame_count - idx,
    {
        if !read_bit(bitmap, idx) {
            return Some(idx);
        }
        idx = idx + 1;
    }
    None
}


/// The state of one managed frame.
#[derive(Copy, Clone, Debug, PartialEq, Eq, Structural)]
pub enum FrameState {
    /// Available for the next allocation.
    Free,
    /// Handed out by `alloc_frame`, not yet freed.
    Allocated,
    /// Inside a reserved range; never handed out.
    Reserved,
}

/// The number of entries of `s` equal to `st`.
pub open spec fn count_state(s: Seq<FrameState>, st: FrameState) -> nat
    decreases s.len(),
{
    if s.len() == 0 {
        0
    } else {
        count_state(s.drop_last(), st) + if s.last() == st { 1nat } else { 0nat }
    }
}

/// Changing one entry moves one unit of count from its old state to its
/// new one.
pub proof fn lemma_count_update(s: Seq<FrameState>, i: int, x: FrameState, st: FrameState)
    requires
        0 <= i < s.len(),
    ensures
        count_state(s.update(i, x), st) + (if s[i] == st { 1int } else { 0int }) == count_state(s, st)
            + (if x == st { 1int } else { 0int }),
    decreases s.len(),
{
    if i == s.len() - 1 {
        assert(s.update(i, x).drop_last() =~= s.drop_last());
    } else {
        lemma_count_update(s.drop_last(), i, x, st);
        assert(s.update(i, x).drop_last() =~= s.drop_last().update(i, x));
    }
}

/// The three state counts add up to the length.
pub proof fn lemma_count_total(s: Seq<FrameState>)
    ensures
        count_state(s, FrameState::Free) + count_state(s, FrameState::Allocated) + count_state(
            s,
            FrameState::Reserved,
        ) == s.len(),
    decreases s.len(),
{
    if s.len() > 0 {
        lemma_count_total(s.drop_last());
    }
}

/// A state that occurs nowhere has count zero.
pub proof fn lemma_count_absent(s: Seq<FrameState>, st: FrameState)
    requires
        forall|i: int| 0 <= i < s.len() ==> #[trigger] s[i] != st,
    ensures
        count_state(s, st) == 0,
    decreases s.len(),
{
    if s.len() > 0 {
        lemma_count_absent(s.drop_last(), st);
    }
}

/// A state with a first occurrence at `i` has count at least one.
pub proof fn lemma_count_present(s: Seq<FrameState>, st: FrameState, i: int)
    requires
        0 <= i < s.len(),
        s[i] == st,
    ensures
        count_state(s, st) > 0,
    decreases s.len(),
{
    if i < s.len() - 1 {
        lemma_count_present(s.drop_last(), st, i);
    }
}

/// Errors returned by the Physical Memory Manager.
#[derive(Copy, Clone, Debug, PartialEq, Eq, Structural)]
#[non_exhaustive]
pub enum PmmError {
    /// An extent or reserved-range bound is not page-aligned.
    MisalignedAddress,
    /// The bitmap cannot cover the extent, a reserved range leaves the
    /// extent or is inverted, or a freed frame lies outside the extent.
    OutOfRange,
    /// More reserved ranges than the cache holds.
    TooManyReservedRanges,
    /// Two reserved ranges share a frame.
    OverlappingReservedRanges,
    /// The freed frame is already free or lies in a reserved range.
    DoubleFree,
}

/// Counter snapshot of the PMM.
#[derive(Copy, Clone, Debug, PartialEq, Eq, Structural)]
pub struct PmmStats {
    /// Frames in the managed extent.
    pub total_frames: usize,
    /// Frames inside reserved ranges.
    pub reserved_frames: usize,
    /// Frames handed out and not yet freed.
    pub allocated_frames: usize,
    /// Frames available for allocation.
    pub free_frames: usize,
}

/// The error a reserved range alone causes, if any: misalignment, a
/// bound outside the extent, or inversion (checked in that order).
pub open spec fn range_error(r: PhysFrameRange, extent: PhysFrameRange) -> Option<PmmError> {
    if !r.spec_is_aligned() {
        Some(PmmError::MisalignedAddress)
    } else if r.start.0 < extent.start.0 || r.end.0 > extent.end.0 {
        Some(PmmError::OutOfRange)
    } else if r.end.0 < r.start.0 {
        Some(PmmError::OutOfRange)
    } else {
        None
    }
}

/// The error of the first failing range among the first `k`.
pub open spec fn first_range_error(s: Seq<PhysFrameRange>, extent: PhysFrameRange, k: int) -> Option<
    PmmError,
>
    decreases k,
{
    if k <= 0 {
        None
    } else {
        match first_range_error(s, extent, k - 1) {
            Some(e) => Some(e),
            None => range_error(s[k - 1], extent),
        }
    }
}

/// Two half-open ranges share an address.
pub open spec fn ranges_overlap(a: PhysFrameRange, b: PhysFrameRange) -> bool {
    a.start.0 < b.end.0 && b.start.0 < a.end.0
}

/// Some pair of distinct entries of `s` overlaps.
pub open spec fn any_overlap(s: Seq<PhysFrameRange>) -> bool {
    exists|i: int, j: int| 0 <= i < j < s.len() && #[trigger] ranges_overlap(s[i], s[j])
}

/// The error `Pmm::new` reports for these arguments, if any.
pub open spec fn new_error(
    extent: PhysFrameRange,
    reserved: Seq<PhysFrameRange>,
    n: usize,
    r: usize,
) -> Option<PmmError> {
    if !extent.spec_is_aligned() {
        Some(PmmError::MisalignedAddress)
    } else if extent.spec_frame_count() > 8 * n {
        Some(PmmError::OutOfRange)
    } else if reserved.len() > r {
        Some(PmmError::TooManyReservedRanges)
    } else if first_range_error(reserved, extent, reserved.len() as int).is_some() {
        first_range_error(reserved, extent, reserved.len() as int)
    } else if any_overlap(reserved) {
        Some(PmmError::OverlappingReservedRanges)
    } else {
        None
    }
}

/// `pa` lies in one of the first `k` ranges of `s`.
pub open spec fn covered_by(s: Seq<PhysFrameRange>, k: int, pa: int) -> bool {
    exists|j: int| 0 <= j < k && #[trigger] s[j].spec_contains(pa)
}

/// The frame states a bitmap describes when every set bit is a
/// reservation.
spec fn marked(bytes: Seq<u8>, total: nat) -> Seq<FrameState> {
    Seq::new(total, |i: int| if bit_at(bytes, i) { FrameState::Reserved } else { FrameState::Free })
}

proof fn lemma_first_range_error_none(s: Seq<PhysFrameRange>, extent: PhysFrameRange, k: int)
    requires
        first_range_error(s, extent, k).is_none(),
    ensures
        forall|j: int| 0 <= j < k ==> range_error(#[trigger] s[j], extent).is_none(),
    decreases k,
{
    if k > 0 {
        lemma_first_range_error_none(s, extent, k - 1);
    }
}

proof fn lemma_first_range_error_stable(s: Seq<PhysFrameRange>, extent: PhysFrameRange, k: int, m: int)
    requires
        0 <= k <= m,
        first_range_error(s, extent, k).is_some(),
    ensures
        first_range_error(s, extent, m) == first_range_error(s, extent, k),
    decreases m - k,
{
    if m > k {
        lemma_first_range_error_stable(s, extent, k, m - 1);
    }
}

/// Frame `i` of an extent starting at `es` lies in the aligned range
/// `[rs, re)` exactly when its index is in the range's index span.
proof fn lemma_range_frame_indices(es: int, rs: int, re: int, i: int)
    requires
        es % 4096 == 0,
        rs % 4096 == 0,
        re % 4096 == 0,
        0 <= es <= rs <= re,
    ensures
        (rs <= es + i * 4096 < re) <==> ((rs - es) / 4096 <= i < (rs - es) / 4096 + (re - rs)
            / 4096),
{
    let a = (rs - es) / 4096;
    let f = (re - rs) / 4096;
    assert((rs - es) % 4096 == 0);
    assert((re - rs) % 4096 == 0);
    vstd::arithmetic::div_mod::lemma_fundamental_div_mod(rs - es, 4096);
    vstd::arithmetic::div_mod::lemma_fundamental_div_mod(re - rs, 4096);
    assert((rs <= es + i * 4096 < re) <==> (a <= i < a + f)) by (nonlinear_arith)
        requires
            rs - es == 4096 * a,
            re - rs == 4096 * f,
    ;
}

/// An aligned range inside an aligned extent spans frame indices below
/// the extent's frame count.
proof fn lemma_range_span_in_extent(es: int, ee: int, rs: int, re: int)
    requires
        es % 4096 == 0,
        ee % 4096 == 0,
        rs % 4096 == 0,
        re % 4096 == 0,
        0 <= es <= rs <= re <= ee,
    ensures
        (rs - es) / 4096 + (re - rs) / 4096 == (re - es) / 4096,
        (re - es) / 4096 <= (ee - es) / 4096,
{
    vstd::arithmetic::div_mod::lemma_fundamental_div_mod(rs - es, 4096);
    vstd::arithmetic::div_mod::lemma_fundamental_div_mod(re - rs, 4096);
    vstd::arithmetic::div_mod::lemma_fundamental_div_mod(re - es, 4096);
    vstd::arithmetic::div_mod::lemma_div_is_ordered(re - es, ee - es, 4096);
}

/// Every entry of `s` passes [`range_error`]; returns the first error
/// otherwise.
fn validate_ranges(extent: PhysFrameRange, reserved: &[PhysFrameRange]) -> (r: Result<(), PmmError>)
    ensures
        r == match first_range_error(reserved@, extent, reserved@.len() as int) {
            Some(e) => Err::<(), PmmError>(e),
            None => Ok::<(), PmmError>(()),
        },
{
    let mut k: usize = 0;
    while k < reserved.len()
        invariant
            k <= reserved@.len(),
            first_range_error(reserved@, extent, k as int).is_none(),
        decreases reserved@.len() - k,
    {
        let range = reserved[k];
        proof {
            if range_error(range, extent).is_some() {
                assert(first_range_error(reserved@, extent, k + 1) == range_error(range, extent));
                lemma_first_range_error_stable(reserved@, extent, k + 1, reserved@.len() as int);
            }
        }
        if !range.is_aligned() {
            return Err(PmmError::MisalignedAddress);
        }
        if range.start.0 < extent.start.0 || range.end.0 > extent.end.0 {
            return Err(PmmError::OutOfRange);
        }
        if range.end.0 < range.start.0 {
            return Err(PmmError::OutOfRange);
        }
        k = k + 1;
    }
    Ok(())
}

/// `true` when two entries of `reserved` overlap.
fn has_overlap(reserved: &[PhysFrameRange]) -> (r: bool)
    ensures
        r == any_overlap(reserved@),
{
    let n = reserved.len();
    let mut i: usize = 0;
    while i < n
        invariant
            n == reserved@.len(),
            i <= n,
            forall|a: int, b: int| 0 <= a < i && a < b < n ==> !#[trigger] ranges_overlap(
                reserved@[a],
                reserved@[b],
            ),
        decreases n - i,
    {
        let mut j: usize = i + 1;
        while j < n
            invariant
                n == reserved@.len(),
                i < n,
                i + 1 <= j <= n,
                forall|a: int, b: int| 0 <= a < i && a < b < n ==> !#[trigger] ranges_overlap(
                    reserved@[a],
                    reserved@[b],
                ),
                forall|b: int| i < b < j ==> !#[trigger] ranges_overlap(reserved@[i as int], reserved@[b]),
            decreases n - j,
        {
            let ra = reserved[i];
            let rb = reserved[j];
            if ra.start.0 < rb.end.0 && rb.start.0 < ra.end.0 {
                assert(ranges_overlap(reserved@[i as int], reserved@[j as int]));
                return true;
            }
            j = j + 1;
        }
        i = i + 1;
    }
    false
}

/// Set the bit of every frame the (validated, pairwise disjoint)
/// reserved ranges cover; returns how many frames that is.
fn mark_reserved(
    bitmap: &mut Vec<u8>,
    extent: PhysFrameRange,
    reserved: &[PhysFrameRange],
    total: usize,
) -> (rc: usize)
    requires
        extent.spec_is_aligned(),
        total == extent.spec_frame_count(),
        total <= 8 * old(bitmap)@.len(),
        forall|i: int| 0 <= i < 8 * old(bitmap)@.len() ==> !#[trigger] bit_at(old(bitmap)@, i),
        first_range_error(reserved@, extent, reserved@.len() as int).is_none(),
        !any_overlap(reserved@),
    ensures
        final(bitmap)@.len() == old(bitmap)@.len(),
        forall|i: int| 0 <= i < total ==> #[trigger] bit_at(final(bitmap)@, i) == covered_by(
            reserved@,
            reserved@.len() as int,
            extent.start.0 + i * 4096,
        ),
        count_state(marked(final(bitmap)@, total as nat), FrameState::Reserved) == rc,
        rc <= total,
{
    let ghost es = extent.start.0 as int;
    proof {
        lemma_first_range_error_none(reserved@, extent, reserved@.len() as int);
        assert(marked(bitmap@, total as nat) =~= Seq::new(total as nat, |i: int| FrameState::Free));
        lemma_count_absent(marked(bitmap@, total as nat), FrameState::Reserved);
    }
    let mut rc: usize = 0;
    let mut k: usize = 0;
    while k < reserved.len()
        invariant
            extent.spec_is_aligned(),
            es == extent.start.0,
            total == extent.spec_frame_count(),
            total <= 8 * bitmap@.len(),
            bitmap@.len() == old(bitmap)@.len(),
            k <= reserved@.len(),
            forall|j: int| 0 <= j < reserved@.len() ==> range_error(#[trigger] reserved@[j], extent).is_none(),
            !any_overlap(reserved@),
            forall|i: int| 0 <= i < total ==> #[trigger] bit_at(bitmap@, i) == covered_by(
                reserved@,
                k as int,
                es + i * 4096,
            ),
            count_state(marked(bitmap@, total as nat), FrameState::Reserved) == rc,
            rc <= total,
        decreases reserved@.len() - k,
    {
        let range = reserved[k];
        assert(range_error(reserved@[k as int], extent).is_none());
        let start_idx = (range.start.0 - extent.start.0) / PAGE_SIZE;
        let frames_in_range = range.frame_count();
        proof {
            lemma_range_span_in_extent(
                es,
                extent.end.0 as int,
                range.start.0 as int,
                range.end.0 as int,
            );
        }
        let mut off: usize = 0;
        while off < frames_in_range
            invariant
                extent.spec_is_aligned(),
                es == extent.start.0,
                total == extent.spec_frame_count(),
                total <= 8 * bitmap@.len(),
                bitmap@.len() == old(bitmap)@.len(),
                k < reserved@.len(),
                range == reserved@[k as int],
                range_error(range, extent).is_none(),
                forall|j: int| 0 <= j < reserved@.len() ==> range_error(#[trigger] reserved@[j], extent).is_none(),
                !any_overlap(reserved@),
                start_idx == (range.start.0 - es) / 4096,
                frames_in_range == (range.end.0 - range.start.0) / 4096,
                start_idx + frames_in_range <= total,
                off <= frames_in_range,
                forall|i: int| 0 <= i < total ==> #[trigger] bit_at(bitmap@, i) == (covered_by(
                    reserved@,
                    k as int,
                    es + i * 4096,
                ) || (start_idx <= i < start_idx + off)),
                count_state(marked(bitmap@, total as nat), FrameState::Reserved) == rc + off,
                rc + off <= total,
            decreases frames_in_range - off,
        {
            let idx = start_idx + off;
            proof {
                lemma_range_frame_indices(es, range.start.0 as int, range.end.0 as int, idx as int);
                if covered_by(reserved@, k as int, es + idx * 4096) {
                    let j = choose|j: int| 0 <= j < k && #[trigger] reserved@[j].spec_contains(
                        es + idx * 4096,
                    );
                    assert(ranges_overlap(reserved@[j], reserved@[k as int]));
                    assert(false);
                }
                assert(!bit_at(bitmap@, idx as int));
            }
            let ghost before = marked(bitmap@, total as nat);
            set_bit(bitmap, idx);
            proof {
                assert(marked(bitmap@, total as nat) =~= before.update(
                    idx as int,
                    FrameState::Reserved,
                ));
                lemma_count_update(before, idx as int, FrameState::Reserved, FrameState::Reserved);
                lemma_count_total(marked(bitmap@, total as nat));
            }
            off = off + 1;
        }
        proof {
            assert forall|i: int| 0 <= i < total implies #[trigger] bit_at(bitmap@, i) == covered_by(
                reserved@,
                k + 1,
                es + i * 4096,
            ) by {
                lemma_range_frame_indices(es, range.start.0 as int, range.end.0 as int, i);
                if covered_by(reserved@, k as int, es + i * 4096) {
                    let j = choose|j: int| 0 <= j < k && #[trigger] reserved@[j].spec_contains(
                        es + i * 4096,
                    );
                    assert(reserved@[j].spec_contains(es + i * 4096));
                }
                if start_idx <= i < start_idx + frames_in_range {
                    assert(reserved@[k as int].spec_contains(es + i * 4096));
                }
            }
        }
        rc = rc + frames_in_range;
        k = k + 1;
    }
    rc
}

/// `i` is the lowest-indexed free frame of `s`.
pub open spec fn is_lowest_free(s: Seq<FrameState>, i: int) -> bool {
    &&& 0 <= i < s.len()
    &&& s[i] == FrameState::Free
    &&& forall|j: int| 0 <= j < i ==> #[trigger] s[j] != FrameState::Free
}

/// Some frame of `s` is free.
pub open spec fn has_free(s: Seq<FrameState>) -> bool {
    exists|i: int| 0 <= i < s.len() && #[trigger] s[i] == FrameState::Free
}

proof fn lemma_floor_div(x: int, q: int)
    requires
        x >= 0,
        q >= 0,
    ensures
        (x / 4096 <= q) <==> (x < 4096 * (q + 1)),
{
    vstd::arithmetic::div_mod::lemma_fundamental_div_mod(x, 4096);
    let d = x / 4096;
    assert((d <= q) <==> (x < 4096 * (q + 1))) by (nonlinear_arith)
        requires
            x == 4096 * d + x % 4096,
            0 <= x % 4096 < 4096,
    ;
}

proof fn lemma_ceil_div(x: int, q: int)
    requires
        x >= 0,
        q >= 0,
    ensures
        (q < (x + 4095) / 4096) <==> (4096 * q < x),
{
    vstd::arithmetic::div_mod::lemma_fundamental_div_mod(x + 4095, 4096);
    let d = (x + 4095) / 4096;
    assert((q < d) <==> (4096 * q < x)) by (nonlinear_arith)
        requires
            x + 4095 == 4096 * d + (x + 4095) % 4096,
            0 <= (x + 4095) % 4096 < 4096,
    ;
}

/// Bitmap-based Physical Memory Manager over `N` bitmap bytes and at most
/// `R` reserved ranges.
pub struct Pmm<const N: usize, const R: usize> {
    bitmap: Vec<u8>,
    extent: PhysFrameRange,
    reserved_ranges: Vec<Option<PhysFrameRange>>,
    hint: usize,
    free_count: usize,
    reserved_count: usize,
    allocated_count: usize,
    alloc_failure_after: Option<usize>,
}

impl<const N: usize, const R: usize> Pmm<N, R> {
    /// The managed extent.
    pub closed spec fn spec_extent(&self) -> PhysFrameRange {
        self.extent
    }

    /// The number of managed frames.
    pub open spec fn total(&self) -> nat {
        self.spec_extent().spec_frame_count()
    }

    /// The base address of frame `i`.
    pub open spec fn base_of(&self, i: int) -> int {
        self.spec_extent().start.0 + i * (PAGE_SIZE as int)
    }

    /// The cached reserved-range slots.
    pub closed spec fn reserved_slots(&self) -> Seq<Option<PhysFrameRange>> {
        self.reserved_ranges@
    }

    /// `pa` lies in a cached reserved range.
    pub open spec fn in_reserved(&self, pa: int) -> bool {
        exists|k: int| 0 <= k < self.reserved_slots().len() && (#[trigger] self.reserved_slots()[k]
            matches Some(r) && r.spec_contains(pa))
    }

    /// The bitmap bit of frame `i` (set for reserved and allocated frames).
    pub closed spec fn used(&self, i: int) -> bool {
        bit_at(self.bitmap@, i)
    }

    /// The state of frame `i`.
    pub open spec fn state(&self, i: int) -> FrameState {
        if self.in_reserved(self.base_of(i)) {
            FrameState::Reserved
        } else if self.used(i) {
            FrameState::Allocated
        } else {
            FrameState::Free
        }
    }

    /// `self` has the extent and reserved ranges of `earlier`, and every
    /// frame allocated in `earlier` is still allocated.
    pub open spec fn kept_allocations(&self, earlier: &Self) -> bool {
        &&& self.spec_extent() == earlier.spec_extent()
        &&& self.reserved_slots() == earlier.reserved_slots()
        &&& forall|i: int|
            0 <= i < earlier.total() && earlier.states()[i] == FrameState::Allocated
                ==> #[trigger] self.states()[i] == FrameState::Allocated
    }

    /// The state of every managed frame, lowest address first.
    pub open spec fn states(&self) -> Seq<FrameState> {
        Seq::new(self.total(), |i: int| self.state(i))
    }

    /// The forward-scan starting index.
    pub closed spec fn spec_hint(&self) -> usize {
        self.hint
    }

    /// The bitmap bytes.
    pub closed spec fn bitmap_bytes(&self) -> Seq<u8> {
        self.bitmap@
    }

    /// The remaining successful allocations before injected failure, if a
    /// failure is scheduled.
    pub closed spec fn failure_budget(&self) -> Option<usize> {
        self.alloc_failure_after
    }

    /// `alloc_frame` would hand out a frame: no injected failure is due
    /// and some frame is free.
    pub open spec fn can_alloc(&self) -> bool {
        self.failure_budget() != Some(0usize) && has_free(self.states())
    }

    /// The counters as last reported.
    pub closed spec fn counters(&self) -> (usize, usize, usize) {
        (self.reserved_count, self.allocated_count, self.free_count)
    }

    /// Internal consistency: sizes, an aligned extent the bitmap covers,
    /// reserved frames marked used, every frame below the hint used, and
    /// counters equal to the state counts.
    pub closed spec fn wf(&self) -> bool {
        &&& self.bitmap@.len() == N
        &&& self.reserved_ranges@.len() == R
        &&& self.extent.spec_is_aligned()
        &&& self.total() <= 8 * N
        &&& forall|i: int| 0 <= i < self.total() && #[trigger] self.in_reserved(self.base_of(i))
            ==> self.used(i)
        &&& self.hint <= self.total()
        &&& forall|i: int| 0 <= i < self.hint ==> #[trigger] self.used(i)
        &&& self.reserved_count == count_state(self.states(), FrameState::Reserved)
        &&& self.allocated_count == count_state(self.states(), FrameState::Allocated)
        &&& self.free_count == count_state(self.states(), FrameState::Free)
    }

    /// Construct a PMM over `extent` with the given reserved ranges.
    ///
    /// Validates, before building anything: the extent is page-aligned;
    /// the bitmap covers it; at most `R` reserved ranges; each range is
    /// aligned, inside the extent and not inverted (ranges checked in
    /// order); no two ranges overlap (touching ranges are accepted). On
    /// success the reserved frames are `Reserved`, all others `Free`, and
    /// the hint is the lowest free frame.
    ///
    /// # Errors
    ///
    /// Exactly the first failing validation, per [`new_error`].
    pub fn new(extent: PhysFrameRange, reserved: &[PhysFrameRange]) -> (r: Result<Self, PmmError>)
        ensures
            r.is_ok() <==> new_error(extent, reserved@, N, R).is_none(),
            r matches Err(e) ==> new_error(extent, reserved@, N, R) == Some(e),
            r matches Ok(p) ==> {
                &&& p.wf()
                &&& p.spec_extent() == extent
                &&& p.failure_budget().is_none()
                &&& p.reserved_slots() == Seq::new(
                    R as nat,
                    |k: int|
                        if k < reserved@.len() {
                            Some(reserved@[k])
                        } else {
                            None
                        },
                )
                &&& forall|i: int| 0 <= i < p.total() ==> #[trigger] p.state(i) == if covered_by(
                    reserved@,
                    reserved@.len() as int,
                    p.base_of(i),
                ) {
                    FrameState::Reserved
                } else {
                    FrameState::Free
                }
                &&& forall|i: int| 0 <= i < p.spec_hint() ==> #[trigger] p.state(i)
                    == FrameState::Reserved
                &&& p.spec_hint() < p.total() ==> p.state(p.spec_hint() as int) == FrameState::Free
            },
    {
        if !extent.is_aligned() {
            return Err(PmmError::MisalignedAddress);
        }
        let total_frames = extent.frame_count();
        let cap_bits: usize = if N > usize::MAX / 8 { usize::MAX } else { N * 8 };
        if total_frames > cap_bits {
            return Err(PmmError::OutOfRange);
        }
        if reserved.len() > R {
            return Err(PmmError::TooManyReservedRanges);
        }
        match validate_ranges(extent, reserved) {
            Ok(()) => {},
            Err(e) => return Err(e),
        }
        if has_overlap(reserved) {
            return Err(PmmError::OverlappingReservedRanges);
        }
        let mut bitmap = zeroed_bitmap(N);
        let mut reserved_ranges: Vec<Option<PhysFrameRange>> = Vec::new();
        let mut k: usize = 0;
        while k < R
            invariant
                k <= R,
                reserved@.len() <= R,
                reserved_ranges@.len() == k,
                forall|j: int| 0 <= j < k ==> #[trigger] reserved_ranges@[j] == if j
                    < reserved@.len() {
                    Some(reserved@[j])
                } else {
                    None
                },
            decreases R - k,
        {
            if k < reserved.len() {
                reserved_ranges.push(Some(reserved[k]));
            } else {
                reserved_ranges.push(None);
            }
            k = k + 1;
        }
        let reserved_count = mark_reserved(&mut bitmap, extent, reserved, total_frames);
        let hint = match first_zero_bit(&bitmap, total_frames) {
            Some(i) => i,
            None => total_frames,
        };
        let free_count = total_frames - reserved_count;
        let p = Pmm {
            bitmap,
            extent,
            reserved_ranges,
            hint,
            free_count,
            reserved_count,
            allocated_count: 0,
            alloc_failure_after: None,
        };
        proof {
            let es = extent.start.0 as int;
            assert(p.reserved_slots() =~= Seq::new(
                R as nat,
                |k: int|
                    if k < reserved@.len() {
                        Some(reserved@[k])
                    } else {
                        None
                    },
            ));
            assert forall|i: int| 0 <= i < p.total() implies #[trigger] p.in_reserved(p.base_of(i))
                == covered_by(reserved@, reserved@.len() as int, p.base_of(i)) by {
                if covered_by(reserved@, reserved@.len() as int, p.base_of(i)) {
                    let j = choose|j: int| 0 <= j < reserved@.len() && #[trigger] reserved@[j].spec_contains(
                        p.base_of(i),
                    );
                    assert(p.reserved_slots()[j] == Some(reserved@[j]));
                }
                if p.in_reserved(p.base_of(i)) {
                    let j = choose|j: int| 0 <= j < p.reserved_slots().len() && (
                    #[trigger] p.reserved_slots()[j] matches Some(r) && r.spec_contains(p.base_of(i)));
                    assert(reserved@[j].spec_contains(p.base_of(i)));
                }
            }
            assert(p.states() =~= marked(p.bitmap@, total_frames as nat));
            lemma_count_total(p.states());
            assert forall|i: int| 0 <= i < p.states().len() implies #[trigger] p.states()[i]
                != FrameState::Allocated by {
            }
            lemma_count_absent(p.states(), FrameState::Allocated);
        }
        Ok(p)
    }

    /// The managed extent.
    pub fn extent(&self) -> (r: PhysFrameRange)
        ensures
            r == self.spec_extent(),
    {
        self.extent
    }

    /// The forward-scan starting index of `alloc_frame`.
    pub fn hint(&self) -> (r: usize)
        ensures
            r == self.spec_hint(),
    {
        self.hint
    }

    /// The cached reserved-range slots (the populated ones first).
    pub fn reserved_ranges(&self) -> (r: &Vec<Option<PhysFrameRange>>)
        ensures
            r@ == self.reserved_slots(),
    {
        &self.reserved_ranges
    }

    /// The bitmap bytes (bit `i` set when frame `i` is reserved or
    /// allocated).
    pub fn bitmap(&self) -> (r: &Vec<u8>)
        ensures
            r@ == self.bitmap_bytes(),
    {
        &self.bitmap
    }

    /// A snapshot of the counters: the extent's frame count and the number
    /// of reserved, allocated and free frames.
    pub fn stats(&self) -> (r: PmmStats)
        requires
            self.wf(),
        ensures
            r.total_frames == self.total(),
            r.reserved_frames == count_state(self.states(), FrameState::Reserved),
            r.allocated_frames == count_state(self.states(), FrameState::Allocated),
            r.free_frames == count_state(self.states(), FrameState::Free),
    {
        PmmStats {
            total_frames: self.extent.frame_count(),
            reserved_frames: self.reserved_count,
            allocated_frames: self.allocated_count,
            free_frames: self.free_count,
        }
    }

    /// Schedule `alloc_frame` to return `None` after the next `n`
    /// successful calls (failure injection for exercising recovery paths).
    pub fn force_alloc_failure_after(&mut self, n: usize)
        requires
            old(self).wf(),
        ensures
            final(self).wf(),
            final(self).failure_budget() == Some(n),
            final(self).states() == old(self).states(),
            final(self).spec_extent() == old(self).spec_extent(),
            final(self).reserved_slots() == old(self).reserved_slots(),
            final(self).bitmap_bytes() == old(self).bitmap_bytes(),
    {
        self.alloc_failure_after = Some(n);
        proof {
            Self::lemma_wf_transfer(&*old(self), &*self);
        }
    }

    /// Two PMMs that agree on everything but the failure budget have the
    /// same frame states and are both well formed.
    proof fn lemma_wf_transfer(a: &Self, b: &Self)
        requires
            a.wf(),
            a.bitmap@ == b.bitmap@,
            a.extent == b.extent,
            a.reserved_ranges@ == b.reserved_ranges@,
            a.hint == b.hint,
            a.free_count == b.free_count,
            a.reserved_count == b.reserved_count,
            a.allocated_count == b.allocated_count,
        ensures
            b.wf(),
            b.states() == a.states(),
    {
        assert(b.states() =~= a.states());
        assert forall|i: int| 0 <= i < b.hint implies #[trigger] b.used(i) by {
            assert(a.used(i));
        }
        assert forall|i: int| 0 <= i < b.total() && #[trigger] b.in_reserved(b.base_of(i)) implies b.used(
            i,
        ) by {
            assert(a.in_reserved(a.base_of(i)));
            assert(a.used(i));
        }
    }

    /// The lowest unused frame index in `[from, to)`.
    fn scan_unused(&self, from: usize, to: usize) -> (r: Option<usize>)
        requires
            self.wf(),
            to <= self.total(),
        ensures
            r matches Some(i) ==> from <= i < to && !self.used(i as int) && forall|j: int|
                from <= j < i ==> #[trigger] self.used(j),
            r is None ==> forall|j: int| from <= j < to ==> #[trigger] self.used(j),
    {
        let mut idx: usize = from;
        while idx < to
            invariant
                self.wf(),
                to <= self.total(),
                from <= idx || idx >= to,
                forall|j: int| from <= j < idx && j < to ==> #[trigger] self.used(j),
            decreases to - idx,
        {
            if !read_bit(&self.bitmap, idx) {
                return Some(idx);
            }
            idx = idx + 1;
        }
        None
    }

    /// Allocate the lowest-addressed free frame.
    ///
    /// Scans forward from the hint (every frame below it is in use), marks
    /// the frame allocated and moves the hint past it. Returns `None`,
    /// with nothing changed, when no frame is free or an injected failure
    /// is due. The frame's contents are not touched here.
    pub fn alloc_frame(&mut self) -> (r: Option<PhysFrame>)
        requires
            old(self).wf(),
        ensures
            final(self).wf(),
            final(self).spec_extent() == old(self).spec_extent(),
            final(self).reserved_slots() == old(self).reserved_slots(),
            old(self).failure_budget() == Some(0usize) ==> r.is_none() && *final(self) == *old(self),
            old(self).failure_budget() != Some(0usize) ==> {
                &&& final(self).failure_budget() == match old(self).failure_budget() {
                    Some(n) => Some((n - 1) as usize),
                    None => None,
                }
                &&& r.is_some() <==> has_free(old(self).states())
                &&& r.is_none() ==> final(self).states() == old(self).states()
            },
            r matches Some(f) ==> {
                let i = (f.base() - old(self).spec_extent().start.0) / (PAGE_SIZE as int);
                &&& is_lowest_free(old(self).states(), i)
                &&& f.base() == old(self).base_of(i)
                &&& final(self).states() == old(self).states().update(i, FrameState::Allocated)
                &&& final(self).spec_hint() == i + 1
            },
    {
        if let Some(remaining) = self.alloc_failure_after {
            if remaining == 0 {
                return None;
            }
            self.alloc_failure_after = Some(remaining - 1);
        }
        proof {
            Self::lemma_wf_transfer(&*old(self), &*self);
        }
        let total_frames = self.extent.frame_count();
        let mut found = self.scan_unused(self.hint, total_frames);
        if found.is_none() && self.hint > 0 {
            found = self.scan_unused(0, self.hint);
        }
        let i = match found {
            Some(i) => i,
            None => {
                proof {
                    assert forall|k: int| 0 <= k < self.states().len() implies #[trigger] self.states()[k]
                        != FrameState::Free by {
                        assert(self.used(k));
                    }
                }
                return None;
            },
        };
        proof {
            assert(!self.used(i as int));
            assert(i < total_frames);
            assert forall|k: int| 0 <= k < i implies #[trigger] self.states()[k] != FrameState::Free by {
                assert(self.used(k));
            }
            assert(self.states()[i as int] == FrameState::Free);
            assert(is_lowest_free(self.states(), i as int));
            lemma_count_present(self.states(), FrameState::Free, i as int);
            self.lemma_frame_in_extent(i as int);
        }
        let ghost before = self.states();
        let ghost pre = *self;
        proof {
            lemma_count_total(before);
        }
        set_bit(&mut self.bitmap, i);
        self.hint = i + 1;
        self.free_count = self.free_count - 1;
        self.allocated_count = self.allocated_count + 1;
        proof {
            assert forall|k: int| 0 <= k < self.hint implies #[trigger] self.used(k) by {
                if k != i {
                    assert(pre.used(k));
                }
            }
            assert forall|k: int| 0 <= k < self.total() && #[trigger] self.in_reserved(
                self.base_of(k),
            ) implies self.used(k) by {
                assert(pre.in_reserved(pre.base_of(k)));
                assert(pre.used(k));
            }
            assert forall|k: int| 0 <= k < self.total() implies #[trigger] self.states()[k]
                == before.update(i as int, FrameState::Allocated)[k] by {
                assert(bit_at(self.bitmap@, k) == (k == i || bit_at(pre.bitmap@, k)));
                assert(pre.in_reserved(pre.base_of(k)) == self.in_reserved(self.base_of(k)));
            }
            assert(self.states() =~= before.update(i as int, FrameState::Allocated));
            lemma_count_update(before, i as int, FrameState::Allocated, FrameState::Free);
            lemma_count_update(before, i as int, FrameState::Allocated, FrameState::Allocated);
            lemma_count_update(before, i as int, FrameState::Allocated, FrameState::Reserved);
        }
        let pa_usize = self.extent.start.0 + i * PAGE_SIZE;
        let frame = PhysFrame::from_aligned(PhysAddr(pa_usize));
        proof {
            assert((pa_usize - old(self).spec_extent().start.0) / (PAGE_SIZE as int) == i);
        }
        frame
    }

    /// Free a frame handed out by `alloc_frame`.
    ///
    /// # Errors
    ///
    /// - [`PmmError::OutOfRange`]: the frame lies outside the extent.
    /// - [`PmmError::DoubleFree`]: the frame is reserved or already free.
    ///
    /// Nothing changes on error.
    pub fn free_frame(&mut self, frame: PhysFrame) -> (r: Result<(), PmmError>)
        requires
            old(self).wf(),
        ensures
            final(self).wf(),
            final(self).spec_extent() == old(self).spec_extent(),
            final(self).reserved_slots() == old(self).reserved_slots(),
            final(self).failure_budget() == old(self).failure_budget(),
            r is Err ==> *final(self) == *old(self),
            ({
                let pa = frame.base() as int;
                let i = (pa - old(self).spec_extent().start.0) / (PAGE_SIZE as int);
                if !old(self).spec_extent().spec_contains(pa) {
                    r == Err::<(), PmmError>(PmmError::OutOfRange)
                } else {
                    &&& 0 <= i < old(self).total()
                    &&& old(self).base_of(i) == pa
                    &&& if old(self).states()[i] != FrameState::Allocated {
                        r == Err::<(), PmmError>(PmmError::DoubleFree)
                    } else {
                        &&& r == Ok::<(), PmmError>(())
                        &&& final(self).states() == old(self).states().update(i, FrameState::Free)
                        &&& final(self).spec_hint() == if i < old(self).spec_hint() {
                            i as usize
                        } else {
                            old(self).spec_hint()
                        }
                    }
                }
            }),
    {
        let pa = frame.addr();
        if !self.extent.contains(pa) {
            return Err(PmmError::OutOfRange);
        }
        let idx = (pa.0 - self.extent.start.0) / PAGE_SIZE;
        proof {
            let es = self.extent.start.0 as int;
            let ee = self.extent.end.0 as int;
            let t = self.total() as int;
            let p = pa.0 as int;
            vstd::arithmetic::div_mod::lemma_fundamental_div_mod(p - es, 4096);
            vstd::arithmetic::div_mod::lemma_fundamental_div_mod(ee - es, 4096);
            assert((p - es) % 4096 == 0);
            assert((ee - es) % 4096 == 0);
            assert(idx < t) by (nonlinear_arith)
                requires
                    p - es == 4096 * (idx as int),
                    ee - es == 4096 * t,
                    p < ee,
            ;
            assert(self.base_of(idx as int) == p);
        }
        let mut k: usize = 0;
        while k < self.reserved_ranges.len()
            invariant
                self.wf(),
                *self == *old(self),
                pa.0 == frame.base(),
                idx == (pa.0 - self.extent.start.0) / (PAGE_SIZE as int),
                idx < self.total(),
                self.base_of(idx as int) == pa.0,
                k <= self.reserved_ranges@.len(),
                forall|j: int| 0 <= j < k ==> !(#[trigger] self.reserved_slots()[j] matches Some(r)
                    && r.spec_contains(pa.0 as int)),
            decreases self.reserved_ranges@.len() - k,
        {
            if let Some(range) = self.reserved_ranges[k] {
                if range.contains(pa) {
                    proof {
                        assert(self.reserved_slots()[k as int] == Some(range));
                        assert(self.in_reserved(pa.0 as int));
                        assert(self.states()[idx as int] == FrameState::Reserved);
                    }
                    return Err(PmmError::DoubleFree);
                }
            }
            k = k + 1;
        }
        if !read_bit(&self.bitmap, idx) {
            proof {
                assert(self.states()[idx as int] != FrameState::Allocated);
            }
            return Err(PmmError::DoubleFree);
        }
        let ghost before = self.states();
        let ghost pre = *self;
        proof {
            assert(!self.in_reserved(pa.0 as int));
            assert(before[idx as int] == FrameState::Allocated);
            lemma_count_present(before, FrameState::Allocated, idx as int);
            lemma_count_total(before);
        }
        clear_bit(&mut self.bitmap, idx);
        if idx < self.hint {
            self.hint = idx;
        }
        self.free_count = self.free_count + 1;
        self.allocated_count = self.allocated_count - 1;
        proof {
            assert forall|k: int| 0 <= k < self.hint implies #[trigger] self.used(k) by {
                assert(pre.used(k));
            }
            assert forall|k: int| 0 <= k < self.total() && #[trigger] self.in_reserved(
                self.base_of(k),
            ) implies self.used(k) by {
                assert(pre.in_reserved(pre.base_of(k)));
                assert(pre.used(k));
            }
            assert forall|k: int| 0 <= k < self.total() implies #[trigger] self.states()[k]
                == before.update(idx as int, FrameState::Free)[k] by {
                assert(bit_at(self.bitmap@, k) == (k != idx && bit_at(pre.bitmap@, k)));
                assert(pre.in_reserved(pre.base_of(k)) == self.in_reserved(self.base_of(k)));
            }
            assert(self.states() =~= before.update(idx as int, FrameState::Free));
            lemma_count_update(before, idx as int, FrameState::Free, FrameState::Free);
            lemma_count_update(before, idx as int, FrameState::Free, FrameState::Allocated);
            lemma_count_update(before, idx as int, FrameState::Free, FrameState::Reserved);
        }
        Ok(())
    }

    /// Some frame `alloc_frame` could ever yield (a managed frame whose base
    /// is in no reserved range) shares a byte with `[lo, hi)`. Allocated
    /// frames count, since they may be freed and handed out again.
    pub open spec fn spec_could_yield(&self, lo: int, hi: int) -> bool {
        lo < hi && exists|i: int|
            0 <= i < self.total() && #[trigger] self.base_of(i) < hi && lo < self.base_of(i)
                + PAGE_SIZE && !self.in_reserved(self.base_of(i))
    }

    /// `true` if a byte of `pa_range` lies in a frame `alloc_frame` could
    /// yield: inside the extent and outside every reserved range. Empty
    /// ranges and ranges disjoint from the extent give `false`.
    pub fn could_yield_pa_overlapping(&self, pa_range: core::ops::Range<usize>) -> (r: bool)
        requires
            self.wf(),
        ensures
            r == self.spec_could_yield(pa_range.start as int, pa_range.end as int),
    {
        let lo = pa_range.start;
        let hi = pa_range.end;
        if lo >= hi {
            return false;
        }
        let extent_start = self.extent.start.0;
        let extent_end = self.extent.end.0;
        let ghost t = self.total() as int;
        proof {
            let es = extent_start as int;
            let ee = extent_end as int;
            if ee >= es {
                vstd::arithmetic::div_mod::lemma_fundamental_div_mod(ee - es, 4096);
                assert((ee - es) % 4096 == 0);
                assert(ee - es == 4096 * t);
            } else {
                assert(t == 0);
            }
        }
        if hi <= extent_start || lo >= extent_end {
            proof {
                assert forall|i: int| 0 <= i < self.total() implies !(#[trigger] self.base_of(i) < hi
                    && lo < self.base_of(i) + PAGE_SIZE) by {
                    self.lemma_frame_in_extent(i);
                }
            }
            return false;
        }
        let clipped_start = if lo > extent_start { lo } else { extent_start };
        let clipped_end = if hi < extent_end { hi } else { extent_end };
        proof {
            assert(usize::MAX == 0xffff_ffff || usize::MAX == 0xffff_ffff_ffff_ffff);
            assert(usize::MAX % 4096 == 4095);
            if clipped_end >= extent_start {
                assert(clipped_end - extent_start + 4095 <= usize::MAX);
            }
        }
        let start_idx = (clipped_start - extent_start) / PAGE_SIZE;
        let span = if clipped_end >= extent_start { clipped_end - extent_start } else { 0 };
        let end_idx = (span + (PAGE_SIZE - 1)) / PAGE_SIZE;
        proof {
            let es = extent_start as int;
            let x = span as int;
            lemma_ceil_div(x, t);
            assert forall|i: int| 0 <= i < t implies ((#[trigger] self.base_of(i) < hi && lo
                < self.base_of(i) + PAGE_SIZE) <==> (start_idx <= i < end_idx)) by {
                lemma_floor_div(clipped_start - es, i);
                lemma_ceil_div(x, i);
                self.lemma_frame_in_extent(i);
            }
        }
        let mut idx = start_idx;
        while idx < end_idx
            invariant
                self.wf(),
                start_idx <= idx <= end_idx,
                end_idx <= self.total(),
                lo == pa_range.start,
                hi == pa_range.end,
                lo < hi,
                forall|i: int| 0 <= i < self.total() ==> ((#[trigger] self.base_of(i) < hi && lo
                    < self.base_of(i) + PAGE_SIZE) <==> (start_idx <= i < end_idx)),
                forall|i: int| start_idx <= i < idx ==> self.in_reserved(#[trigger] self.base_of(i)),
            decreases end_idx - idx,
        {
            proof {
                self.lemma_frame_in_extent(idx as int);
            }
            let frame_addr = PhysAddr(self.extent.start.0 + idx * PAGE_SIZE);
            let mut in_reserved = false;
            let mut k: usize = 0;
            while k < self.reserved_ranges.len()
                invariant
                    self.wf(),
                    k <= self.reserved_ranges@.len(),
                    frame_addr.0 == self.base_of(idx as int),
                    in_reserved == self.in_reserved(frame_addr.0 as int) || (!in_reserved && forall|j: int|
                        0 <= j < k ==> !(#[trigger] self.reserved_slots()[j] matches Some(r)
                        && r.spec_contains(frame_addr.0 as int))),
                decreases self.reserved_ranges@.len() - k,
            {
                if let Some(range) = self.reserved_ranges[k] {
                    if range.contains(frame_addr) {
                        proof {
                            assert(self.reserved_slots()[k as int] == Some(range));
                        }
                        in_reserved = true;
                    }
                }
                k = k + 1;
            }
            if !in_reserved {
                proof {
                    assert(!self.in_reserved(self.base_of(idx as int)));
                    assert(self.base_of(idx as int) < hi && lo < self.base_of(idx as int) + PAGE_SIZE);
                    assert(0 <= idx < self.total());
                    assert(self.spec_could_yield(lo as int, hi as int));
                }
                return true;
            }
            idx = idx + 1;
        }
        false
    }

    /// The managed frames fit in the address space: frame `i` spans
    /// `[base_of(i), base_of(i) + PAGE_SIZE)` within the extent.
    pub proof fn lemma_frame_in_extent(&self, i: int)
        requires
            self.wf(),
            0 <= i < self.total(),
        ensures
            self.spec_extent().start.0 <= self.base_of(i),
            self.base_of(i) + PAGE_SIZE <= self.spec_extent().end.0,
            self.base_of(i) % (PAGE_SIZE as int) == 0,
    {
        let es = self.extent.start.0 as int;
        let ee = self.extent.end.0 as int;
        let t = self.total() as int;
        assert(t * 4096 <= ee - es) by (nonlinear_arith)
            requires
                ee >= es,
                t == (ee - es) / 4096,
        ;
        assert(i * 4096 + 4096 <= t * 4096) by (nonlinear_arith)
            requires
                0 <= i < t,
        ;
        assert((es + i * 4096) % 4096 == 0) by (nonlinear_arith)
            requires
                es % 4096 == 0,
        ;
    }
}

/// Every managed frame is in exactly one state: the reserved, allocated
/// and free counts add up to the number of frames.
pub proof fn law_counts_partition_frames<const N: usize, const R: usize>(p: &Pmm<N, R>)
    requires
        p.wf(),
    ensures
        count_state(p.states(), FrameState::Reserved) + count_state(
            p.states(),
            FrameState::Allocated,
        ) + count_state(p.states(), FrameState::Free) == p.total(),
{
    lemma_count_total(p.states());
}

/// Freeing the frame that an allocation just handed out restores the
/// state of every frame (and hence every counter).
pub proof fn law_free_undoes_alloc<const N: usize, const R: usize>(
    p0: &Pmm<N, R>,
    p1: &Pmm<N, R>,
    p2: &Pmm<N, R>,
    f: PhysFrame,
)
    requires
        p0.wf(),
        p1.spec_extent() == p0.spec_extent(),
        ({
            let i = (f.base() - p0.spec_extent().start.0) / (PAGE_SIZE as int);
            &&& is_lowest_free(p0.states(), i)
            &&& f.base() == p0.base_of(i)
            &&& p1.states() == p0.states().update(i, FrameState::Allocated)
            &&& p2.states() == p1.states().update(i, FrameState::Free)
        }),
    ensures
        p2.states() == p0.states(),
        count_state(p2.states(), FrameState::Free) == count_state(p0.states(), FrameState::Free),
{
    let i = (f.base() - p0.spec_extent().start.0) / (PAGE_SIZE as int);
    assert(p2.states() =~= p0.states());
}

impl<const N: usize, const R: usize> FrameProvider for Pmm<N, R> {
    open spec fn inv(&self) -> bool {
        self.wf()
    }

    open spec fn grew_from(&self, earlier: &Self) -> bool {
        self.kept_allocations(earlier)
    }

    proof fn lemma_grew_from_refl(p: &Self) {
    }

    proof fn lemma_grew_from_trans(a: &Self, b: &Self, c: &Self) {
    }

    /// Allocate the lowest-addressed free frame (see [`Pmm::alloc_frame`]).
    fn alloc_frame(&mut self) -> (r: Option<PhysFrame>)
        ensures
            final(self).spec_extent() == old(self).spec_extent(),
            final(self).reserved_slots() == old(self).reserved_slots(),
            old(self).failure_budget() == Some(0usize) ==> r.is_none() && *final(self) == *old(self),
            old(self).failure_budget() != Some(0usize) ==> {
                &&& final(self).failure_budget() == match old(self).failure_budget() {
                    Some(n) => Some((n - 1) as usize),
                    None => None,
                }
                &&& r.is_some() <==> has_free(old(self).states())
                &&& r.is_none() ==> final(self).states() == old(self).states()
            },
            r matches Some(f) ==> {
                let i = (f.base() - old(self).spec_extent().start.0) / (PAGE_SIZE as int);
                &&& is_lowest_free(old(self).states(), i)
                &&& f.base() == old(self).base_of(i)
                &&& final(self).states() == old(self).states().update(i, FrameState::Allocated)
            },
    {
        Pmm::<N, R>::alloc_frame(self)
    }
}

/// Clear `page`, the bytes of a frame just allocated, so nothing its
/// previous owner wrote reaches the next one.
pub fn zero_frame_bytes(page: &mut [u8])
    requires
        old(page)@.len() == PAGE_SIZE,
    ensures
        final(page)@ == Seq::new(PAGE_SIZE as nat, |i: int| 0u8),
{
    let mut i: usize = 0;
    while i < PAGE_SIZE
        invariant
            page@.len() == PAGE_SIZE,
            i <= PAGE_SIZE,
            forall|k: int| 0 <= k < i ==> #[trigger] page@[k] == 0u8,
        decreases PAGE_SIZE - i,
    {
        page[i] = 0;
        i = i + 1;
    }
    assert(page@ =~= Seq::new(PAGE_SIZE as nat, |i: int| 0u8));
}

/// A reserved range is refused on its own exactly when it is misaligned,
/// leaves the extent or is inverted: an aligned range with
/// `extent.start <= start <= end <= extent.end` (reserving the last frame
/// included) is accepted, and an aligned range that starts before the
/// extent, ends after it, or ends before it starts is out of range.
pub proof fn law_reserved_range_accepted_iff_inside_extent(r: PhysFrameRange, extent: PhysFrameRange)
    ensures
        r.start.0 % PAGE_SIZE == 0 && r.end.0 % PAGE_SIZE == 0 ==> (range_error(r, extent).is_none()
            <==> (extent.start.0 <= r.start.0 && r.start.0 <= r.end.0 && r.end.0 <= extent.end.0)),
        r.start.0 % PAGE_SIZE == 0 && r.end.0 % PAGE_SIZE == 0 && !(extent.start.0 <= r.start.0
            && r.start.0 <= r.end.0 && r.end.0 <= extent.end.0) ==> range_error(r, extent) == Some(
            PmmError::OutOfRange,
        ),
        !(r.start.0 % PAGE_SIZE == 0 && r.end.0 % PAGE_SIZE == 0) ==> range_error(r, extent) == Some(
            PmmError::MisalignedAddress,
        ),
{
}

proof fn lemma_first_range_error_all_none(s: Seq<PhysFrameRange>, extent: PhysFrameRange, k: int)
    requires
        0 <= k <= s.len(),
        forall|j: int| 0 <= j < k ==> range_error(#[trigger] s[j], extent).is_none(),
    ensures
        first_range_error(s, extent, k).is_none(),
    decreases k,
{
    if k > 0 {
        lemma_first_range_error_all_none(s, extent, k - 1);
    }
}

/// `Pmm::new` accepts every configuration that the original rules allow:
/// an aligned extent the bitmap can cover, at most `r` reserved ranges,
/// each aligned, not inverted and within `[extent.start, extent.end]`,
/// and no two sharing an address.
pub proof fn law_new_accepts_valid_configurations(
    extent: PhysFrameRange,
    reserved: Seq<PhysFrameRange>,
    n: usize,
    r: usize,
)
    requires
        extent.start.0 % PAGE_SIZE == 0,
        extent.end.0 % PAGE_SIZE == 0,
        extent.spec_frame_count() <= 8 * n,
        reserved.len() <= r,
        forall|j: int|
            0 <= j < reserved.len() ==> (#[trigger] reserved[j]).start.0 % PAGE_SIZE == 0
                && reserved[j].end.0 % PAGE_SIZE == 0 && extent.start.0 <= reserved[j].start.0
                && reserved[j].start.0 <= reserved[j].end.0 && reserved[j].end.0 <= extent.end.0,
        forall|i: int, j: int|
            0 <= i < j < reserved.len() ==> (#[trigger] reserved[i]).end.0 <= (
            #[trigger] reserved[j]).start.0 || reserved[j].end.0 <= reserved[i].start.0,
    ensures
        new_error(extent, reserved, n, r).is_none(),
{
    assert forall|j: int| 0 <= j < reserved.len() implies range_error(#[trigger] reserved[j], extent).is_none() by {
        law_reserved_range_accepted_iff_inside_extent(reserved[j], extent);
    }
    lemma_first_range_error_all_none(reserved, extent, reserved.len() as int);
    assert(!any_overlap(reserved)) by {
        if any_overlap(reserved) {
            let (i, j) = choose|i: int, j: int| 0 <= i < j < reserved.len() && #[trigger] ranges_overlap(reserved[i], reserved[j]);
            assert(reserved[i].end.0 <= reserved[j].start.0 || reserved[j].end.0 <= reserved[i].start.0);
        }
    }
}

/// `Pmm::new` refuses every configuration with a reserved range that is
/// misaligned, inverted or not within the extent, and every one where two
/// reserved ranges share an address.
pub proof fn law_new_rejects_invalid_ranges(
    extent: PhysFrameRange,
    reserved: Seq<PhysFrameRange>,
    n: usize,
    r: usize,
    j: int,
    k: int,
)
    requires
        0 <= j < reserved.len(),
        0 <= k < reserved.len(),
        !(reserved[j].start.0 % PAGE_SIZE == 0 && reserved[j].end.0 % PAGE_SIZE == 0
            && extent.start.0 <= reserved[j].start.0 && reserved[j].start.0 <= reserved[j].end.0
            && reserved[j].end.0 <= extent.end.0) || (j != k && reserved[j].start.0
            < reserved[k].end.0 && reserved[k].start.0 < reserved[j].end.0),
    ensures
        new_error(extent, reserved, n, r).is_some(),
{
    law_reserved_range_accepted_iff_inside_extent(reserved[j], extent);
    if first_range_error(reserved, extent, reserved.len() as int).is_none() {
        lemma_first_range_error_none(reserved, extent, reserved.len() as int);
        assert(range_error(reserved[j], extent).is_none());
        if j < k {
            assert(ranges_overlap(reserved[j], reserved[k]));
        } else {
            assert(ranges_overlap(reserved[k], reserved[j]));
        }
    }
}

} // verus!
