//! Memory-management-unit vocabulary: addresses, frames, mapping flags,
//! errors and the flush token.

use vstd::prelude::*;

verus! {

/// Page size used by the MMU (4 KiB).
pub const PAGE_SIZE: usize = 4096;

/// A virtual address.
#[derive(Copy, Clone, Debug, Default, PartialEq, Eq, Structural, Hash)]
pub struct VirtAddr(pub usize);

/// A physical address.
#[derive(Copy, Clone, Debug, Default, PartialEq, Eq, Structural, Hash)]
pub struct PhysAddr(pub usize);

/// A `PAGE_SIZE`-aligned physical address.
#[derive(Copy, Clone, Debug, PartialEq, Eq, Structural, Hash)]
pub struct PhysFrame(PhysAddr);

impl PhysFrame {
    #[verifier::type_invariant]
    closed spec fn aligned(self) -> bool {
        self.0.0 % PAGE_SIZE == 0
    }

    /// The frame's base address.
    pub closed spec fn base(self) -> usize {
        self.0.0
    }

    /// Construct a frame from a page-aligned address; `None` when `addr`
    /// is not aligned to `PAGE_SIZE`.
    pub fn from_aligned(addr: PhysAddr) -> (r: Option<Self>)
        ensures
            r.is_some() <==> addr.0 % PAGE_SIZE == 0,
            r.is_some() ==> r.unwrap().base() == addr.0,
    {
        if addr.0 % PAGE_SIZE == 0 {
            Some(PhysFrame(addr))
        } else {
            None
        }
    }

    /// The physical address at the base of this frame.
    pub fn addr(self) -> (r: PhysAddr)
        ensures
            r.0 == self.base(),
            r.0 % PAGE_SIZE == 0,
    {
        proof { use_type_invariant(&self); }
        self.0
    }

    /// The frame's base address as a raw `usize`.
    pub fn as_usize(self) -> (r: usize)
        ensures
            r == self.base(),
            r % PAGE_SIZE == 0,
    {
        proof { use_type_invariant(&self); }
        self.0.0
    }
}


/// Access and attribute flags for a mapping (a hand-rolled bitfield).
///
/// Read permission is implicit. Bits: `WRITE` (0), `EXECUTE` (1),
/// `USER` (2), `DEVICE` (3), `GLOBAL` (4).
#[derive(Copy, Clone, Debug, Default, PartialEq, Eq, Structural)]
pub struct MappingFlags(u32);

/// Bit of [`MappingFlags`]: writable.
pub const WRITE_BIT: u32 = 1;
/// Bit of [`MappingFlags`]: executable.
pub const EXECUTE_BIT: u32 = 2;
/// Bit of [`MappingFlags`]: user-accessible.
pub const USER_BIT: u32 = 4;
/// Bit of [`MappingFlags`]: device memory.
pub const DEVICE_BIT: u32 = 8;
/// Bit of [`MappingFlags`]: global.
pub const GLOBAL_BIT: u32 = 16;

impl View for MappingFlags {
    type V = u32;

    closed spec fn view(&self) -> u32 {
        self.0
    }
}

impl MappingFlags {
    /// No flags set: kernel-only, read-only, normal-cached, non-global.
    pub fn empty() -> (r: Self)
        ensures
            r@ == 0,
    {
        MappingFlags(0)
    }

    /// The mapping is writable (bit 0).
    pub fn write() -> (r: Self)
        ensures
            r@ == WRITE_BIT,
    {
        MappingFlags(WRITE_BIT)
    }

    /// The mapping is executable (bit 1).
    pub fn execute() -> (r: Self)
        ensures
            r@ == EXECUTE_BIT,
    {
        MappingFlags(EXECUTE_BIT)
    }

    /// The mapping is accessible from unprivileged (user) mode (bit 2).
    pub fn user() -> (r: Self)
        ensures
            r@ == USER_BIT,
    {
        MappingFlags(USER_BIT)
    }

    /// The mapping targets device memory rather than normal RAM (bit 3).
    pub fn device() -> (r: Self)
        ensures
            r@ == DEVICE_BIT,
    {
        MappingFlags(DEVICE_BIT)
    }

    /// The mapping is global, not scoped to the current ASID (bit 4).
    pub fn global() -> (r: Self)
        ensures
            r@ == GLOBAL_BIT,
    {
        MappingFlags(GLOBAL_BIT)
    }

    /// `true` when every bit of `other` is set in `self`.
    pub open spec fn spec_contains(self, other: MappingFlags) -> bool {
        self@ & other@ == other@
    }

    /// Construct a flag set from raw bits.
    pub fn from_raw(bits: u32) -> (r: Self)
        ensures
            r@ == bits,
    {
        MappingFlags(bits)
    }

    /// The raw bit pattern.
    pub fn raw(self) -> (r: u32)
        ensures
            r == self@,
    {
        self.0
    }

    /// `true` if every flag in `other` is set in `self`.
    pub fn contains(self, other: Self) -> (r: bool)
        ensures
            r == self.spec_contains(other),
    {
        (self.0 & other.0) == other.0
    }

    /// The bitwise union of two flag sets.
    pub fn union(self, other: Self) -> (r: Self)
        ensures
            r@ == self@ | other@,
    {
        MappingFlags(self.0 | other.0)
    }

    /// The bitwise intersection of two flag sets.
    pub fn intersection(self, other: Self) -> (r: Self)
        ensures
            r@ == self@ & other@,
    {
        MappingFlags(self.0 & other.0)
    }

    /// `self` with every flag of `other` cleared.
    pub fn difference(self, other: Self) -> (r: Self)
        ensures
            r@ == self@ & !other@,
    {
        MappingFlags(self.0 & !other.0)
    }

    /// `true` if no flags are set.
    pub fn is_empty(self) -> (r: bool)
        ensures
            r == (self@ == 0),
    {
        self.0 == 0
    }
}

impl core::ops::BitOr for MappingFlags {
    type Output = Self;

    fn bitor(self, rhs: Self) -> (r: Self) {
        self.union(rhs)
    }
}

impl vstd::std_specs::ops::BitOrSpecImpl for MappingFlags {
    open spec fn obeys_bitor_spec() -> bool {
        true
    }

    open spec fn bitor_req(self, rhs: Self) -> bool {
        true
    }

    closed spec fn bitor_spec(self, rhs: Self) -> Self {
        MappingFlags(self.0 | rhs.0)
    }
}

/// The `|` operator on flag sets is the bitwise union of their bits.
pub broadcast proof fn lemma_bitor_is_union(a: MappingFlags, b: MappingFlags)
    ensures
        #[trigger] vstd::std_specs::ops::BitOrSpec::bitor_spec(a, b)@ == a@ | b@,
{
}


impl core::ops::BitAnd for MappingFlags {
    type Output = Self;

    fn bitand(self, rhs: Self) -> (r: Self) {
        self.intersection(rhs)
    }
}

impl vstd::std_specs::ops::BitAndSpecImpl for MappingFlags {
    open spec fn obeys_bitand_spec() -> bool {
        true
    }

    open spec fn bitand_req(self, rhs: Self) -> bool {
        true
    }

    closed spec fn bitand_spec(self, rhs: Self) -> Self {
        MappingFlags(self.0 & rhs.0)
    }
}

/// The `&` operator on flag sets is the bitwise intersection of their bits.
pub broadcast proof fn lemma_bitand_is_intersection(a: MappingFlags, b: MappingFlags)
    ensures
        #[trigger] vstd::std_specs::ops::BitAndSpec::bitand_spec(a, b)@ == a@ & b@,
{
}

impl core::ops::BitOrAssign for MappingFlags {
    fn bitor_assign(&mut self, rhs: Self)
        ensures
            final(self)@ == old(self)@ | rhs@,
    {
        *self = self.union(rhs);
    }
}

/// Error returned by MMU operations.
#[derive(Copy, Clone, Debug, PartialEq, Eq, Structural)]
#[non_exhaustive]
pub enum MmuError {
    /// The target virtual address is already mapped in this address space.
    AlreadyMapped,
    /// The target virtual address is not mapped in this address space.
    NotMapped,
    /// The provided address is not aligned as the operation requires.
    MisalignedAddress,
    /// A frame could not be obtained from the supplied frame provider.
    OutOfFrames,
    /// The requested flags are invalid for this operation.
    InvalidFlags,
    /// The virtual address falls inside a large-block descriptor.
    BlockMapped,
}

/// Typed flush token returned by `map` and `unmap`: it carries the
/// just-mutated virtual address and must be discharged with `flush` or
/// `ignore`.
#[must_use]
#[derive(Copy, Clone, Debug, PartialEq, Eq, Structural)]
pub struct MapperFlush(VirtAddr);

impl MapperFlush {
    /// The virtual address this token covers.
    pub closed spec fn va(self) -> VirtAddr {
        self.0
    }

    /// Mint a flush token for `va`.
    pub fn new(va: VirtAddr) -> (r: Self)
        ensures
            r.va() == va,
    {
        MapperFlush(va)
    }

    /// The virtual address this token covers.
    pub fn virt_addr(self) -> (r: VirtAddr)
        ensures
            r == self.va(),
    {
        self.0
    }

    /// Discharge the token by invalidating the TLB entry for its address
    /// on `mmu`.
    pub fn flush<M: Mmu>(self, mmu: &mut M)
        ensures
            M::address_invalidated(old(mmu), final(mmu), self.va()),
    {
        mmu.invalidate_tlb_address(self.0);
    }

    /// Discharge the token without issuing a per-address invalidate (for
    /// bulk updates followed by one full invalidate).
    pub fn ignore(self) {
    }
}

/// Source of frames for intermediate translation tables. A provider only
/// hands frames out; clearing a frame before it is used as a table is up
/// to the code that writes the table.
pub trait FrameProvider {
    /// The provider's internal consistency, kept by every allocation.
    spec fn inv(&self) -> bool;

    /// `self` is `earlier` after allocations only: every frame handed out
    /// by `earlier` is still handed out.
    spec fn grew_from(&self, earlier: &Self) -> bool;

    /// A provider has grown from itself.
    proof fn lemma_grew_from_refl(p: &Self)
        ensures
            p.grew_from(p),
    ;

    /// Growth composes.
    proof fn lemma_grew_from_trans(a: &Self, b: &Self, c: &Self)
        requires
            b.grew_from(a),
            c.grew_from(b),
        ensures
            c.grew_from(a),
    ;

    /// A fresh frame, or `None` when none is available.
    fn alloc_frame(&mut self) -> (r: Option<PhysFrame>)
        requires
            old(self).inv(),
        ensures
            final(self).inv(),
            final(self).grew_from(old(self)),
    ;
}

/// A single-page mapping: the target frame and its flags.
pub type Mapping = (PhysFrame, MappingFlags);

/// Memory-management-unit operations over a per-board address-space type.
///
/// Every implementation exposes the leaf mappings of an address space as
/// a map from page-aligned virtual address to frame and flags, and keeps
/// the contracts below: `map` installs exactly one mapping or changes
/// nothing, `unmap` removes exactly one or changes nothing.
///
/// The spec functions have bodies only so that a board implementation
/// written outside Verus (whose translation tables live in physical
/// memory) compiles without them: such a body says nothing of a board
/// (an unspecified value, `true`, or `false` for `map_keeps_frames`).
/// Code generic over `Mmu` never sees these bodies, and every
/// implementation in this crate defines its own.
pub trait Mmu {
    /// Per-board address-space representation.
    type AddressSpace;

    /// The leaf mappings of `as_`, keyed by virtual address.
    open spec fn mappings(as_: &Self::AddressSpace) -> Map<usize, Mapping> {
        vstd::pervasive::arbitrary()
    }

    /// The root translation-table frame of `as_`.
    open spec fn root_of(as_: &Self::AddressSpace) -> PhysFrame {
        vstd::pervasive::arbitrary()
    }

    /// `after` is `before` once the address space rooted at `root` has
    /// been made active.
    open spec fn activated(before: &Self, after: &Self, root: PhysFrame) -> bool {
        true
    }

    /// `after` is `before` once the TLB entry covering `va` has been
    /// invalidated.
    open spec fn address_invalidated(before: &Self, after: &Self, va: VirtAddr) -> bool {
        true
    }

    /// `after` is `before` once every TLB entry has been invalidated.
    open spec fn all_invalidated(before: &Self, after: &Self) -> bool {
        true
    }

    /// `map` never takes a frame from its frame provider (an MMU without
    /// intermediate tables of its own).
    open spec fn map_keeps_frames() -> bool {
        false
    }

    /// A new, empty address space rooted at `root`.
    fn create_address_space(&self, root: PhysFrame) -> (r: Self::AddressSpace)
        ensures
            Self::root_of(&r) == root,
            Self::mappings(&r) == Map::<usize, Mapping>::empty(),
    ;

    /// The root translation-table frame of `as_`.
    fn address_space_root(&self, as_: &Self::AddressSpace) -> (r: PhysFrame)
        ensures
            r == Self::root_of(as_),
    ;

    /// Make `as_` the active address space on the current core.
    fn activate(&mut self, as_: &Self::AddressSpace)
        ensures
            Self::activated(old(self), final(self), Self::root_of(as_)),
    ;

    /// Map the page at `va` to `pa` with `flags`, taking intermediate
    /// tables from `frames`.
    ///
    /// # Errors
    ///
    /// [`MmuError::MisalignedAddress`] when `va` is not page-aligned;
    /// [`MmuError::AlreadyMapped`] when `va` is mapped, unless the
    /// implementation rejects `flags` first ([`MmuError::InvalidFlags`]);
    /// otherwise an
    /// implementation may fail for want of frames or for flags it cannot
    /// express. The mappings are unchanged on error.
    fn map<F: FrameProvider>(
        &self,
        as_: &mut Self::AddressSpace,
        va: VirtAddr,
        pa: PhysFrame,
        flags: MappingFlags,
        frames: &mut F,
    ) -> (r: Result<MapperFlush, MmuError>)
        requires
            old(frames).inv(),
        ensures
            final(frames).inv(),
            final(frames).grew_from(old(frames)),
            Self::map_keeps_frames() ==> *final(frames) == *old(frames),
            Self::root_of(final(as_)) == Self::root_of(old(as_)),
            va.0 % PAGE_SIZE != 0 ==> r == Err::<MapperFlush, MmuError>(MmuError::MisalignedAddress),
            va.0 % PAGE_SIZE == 0 && Self::mappings(old(as_)).contains_key(va.0) ==> (r == Err::<
                MapperFlush,
                MmuError,
            >(MmuError::AlreadyMapped) || r == Err::<MapperFlush, MmuError>(MmuError::InvalidFlags)),
            r is Err ==> Self::mappings(final(as_)) == Self::mappings(old(as_)),
            r matches Ok(t) ==> t.va() == va && Self::mappings(final(as_)) == Self::mappings(
                old(as_),
            ).insert(va.0, (pa, flags)),
    ;

    /// Remove the mapping at `va`, returning its frame. A mapping that
    /// `map` installed can always be removed.
    ///
    /// # Errors
    ///
    /// [`MmuError::MisalignedAddress`] when `va` is not page-aligned,
    /// [`MmuError::NotMapped`] when `va` has no mapping. The mappings are
    /// unchanged on error.
    fn unmap(&self, as_: &mut Self::AddressSpace, va: VirtAddr) -> (r: Result<
        (MapperFlush, PhysFrame),
        MmuError,
    >)
        ensures
            Self::root_of(final(as_)) == Self::root_of(old(as_)),
            va.0 % PAGE_SIZE != 0 ==> r == Err::<(MapperFlush, PhysFrame), MmuError>(
                MmuError::MisalignedAddress,
            ),
            va.0 % PAGE_SIZE == 0 && !Self::mappings(old(as_)).contains_key(va.0) ==> r == Err::<
                (MapperFlush, PhysFrame),
                MmuError,
            >(MmuError::NotMapped),
            va.0 % PAGE_SIZE == 0 && Self::mappings(old(as_)).contains_key(va.0) ==> r is Ok,
            r is Err ==> Self::mappings(final(as_)) == Self::mappings(old(as_)),
            r matches Ok((t, f)) ==> {
                &&& t.va() == va
                &&& Self::mappings(old(as_)).contains_key(va.0)
                &&& f == Self::mappings(old(as_))[va.0].0
                &&& Self::mappings(final(as_)) == Self::mappings(old(as_)).remove(va.0)
            },
    ;

    /// Invalidate any TLB entry covering `va` on the current core.
    fn invalidate_tlb_address(&mut self, va: VirtAddr)
        ensures
            Self::address_invalidated(old(self), final(self), va),
    ;

    /// Invalidate every TLB entry on the current core.
    fn invalidate_tlb_all(&mut self)
        ensures
            Self::all_invalidated(old(self), final(self)),
    ;
}

/// A union of flag sets contains each operand; a difference keeps exactly
/// the bits of the first set that the second lacks.
pub proof fn law_flag_set_algebra(a: u32, b: u32)
    ensures
        (a | b) & a == a,
        (a | b) & b == b,
        (a & !b) & b == 0,
        (a & !b) | (a & b) == a,
        (a & b) & a == a & b,
{
    assert((a | b) & a == a) by (bit_vector);
    assert((a | b) & b == b) by (bit_vector);
    assert((a & !b) & b == 0) by (bit_vector);
    assert((a & !b) | (a & b) == a) by (bit_vector);
    assert((a & b) & a == a & b) by (bit_vector);
}

/// Unmapping a page that a successful `map` just installed returns the
/// frame it mapped and restores the mappings to what they were before
/// the `map`.
pub proof fn law_unmap_undoes_map(
    before: Map<usize, Mapping>,
    va: usize,
    pa: PhysFrame,
    flags: MappingFlags,
)
    requires
        !before.contains_key(va),
    ensures
        ({
            let mapped = before.insert(va, (pa, flags));
            &&& mapped.contains_key(va)
            &&& mapped[va].0 == pa
            &&& mapped.remove(va) == before
        }),
{
    assert(before.insert(va, (pa, flags)).remove(va) =~= before);
}

} // verus!
