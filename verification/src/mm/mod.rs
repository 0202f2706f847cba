//! Memory management: physical frame ranges, the physical memory manager
//! and the address-space kernel object.

pub mod address_space;
pub mod pmm;

use vstd::prelude::*;
use crate::hal::mmu::{PhysAddr, PAGE_SIZE};

verus! {

/// A half-open physical range `[start, end)`. An inverted range
/// (`end < start`) covers nothing.
#[derive(Copy, Clone, Debug, PartialEq, Eq, Structural)]
pub struct PhysFrameRange {
    /// Inclusive start.
    pub start: PhysAddr,
    /// Exclusive end.
    pub end: PhysAddr,
}

impl PhysFrameRange {
    /// Both bounds are page-aligned.
    pub open spec fn spec_is_aligned(self) -> bool {
        self.start.0 % PAGE_SIZE == 0 && self.end.0 % PAGE_SIZE == 0
    }

    /// Length in bytes; zero for an inverted range.
    pub open spec fn spec_len_bytes(self) -> nat {
        if self.end.0 >= self.start.0 { (self.end.0 - self.start.0) as nat } else { 0 }
    }

    /// Number of whole frames the range covers.
    pub open spec fn spec_frame_count(self) -> nat {
        self.spec_len_bytes() / (PAGE_SIZE as nat)
    }

    /// `pa` lies in `[start, end)`.
    pub open spec fn spec_contains(self, pa: int) -> bool {
        self.start.0 <= pa < self.end.0
    }

    /// Construct a range from raw bounds.
    pub fn new(start: PhysAddr, end: PhysAddr) -> (r: Self)
        ensures
            r.start == start,
            r.end == end,
    {
        PhysFrameRange { start, end }
    }

    /// `true` if both bounds are page-aligned.
    pub fn is_aligned(self) -> (r: bool)
        ensures
            r == self.spec_is_aligned(),
    {
        self.start.0 % PAGE_SIZE == 0 && self.end.0 % PAGE_SIZE == 0
    }

    /// The length in bytes, or 0 if `end < start`.
    pub fn len_bytes(self) -> (r: usize)
        ensures
            r == self.spec_len_bytes(),
    {
        if self.end.0 >= self.start.0 {
            self.end.0 - self.start.0
        } else {
            0
        }
    }

    /// The number of whole frames the range covers.
    pub fn frame_count(self) -> (r: usize)
        ensures
            r == self.spec_frame_count(),
    {
        self.len_bytes() / PAGE_SIZE
    }

    /// `true` if `pa` falls in `[start, end)`.
    pub fn contains(self, pa: PhysAddr) -> (r: bool)
        ensures
            r == self.spec_contains(pa.0 as int),
    {
        pa.0 >= self.start.0 && pa.0 < self.end.0
    }
}

} // verus!
