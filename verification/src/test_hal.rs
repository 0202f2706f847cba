//! Deterministic [`Mmu`] and [`FrameProvider`] implementations for
//! host-side use: they keep mappings in a hash map and record
//! activations and TLB invalidations instead of touching hardware.

use vstd::prelude::*;
use std::collections::HashMap;
use crate::hal::mmu::{
    FrameProvider, MapperFlush, Mapping, MappingFlags, Mmu, MmuError, PhysFrame, VirtAddr,
    PAGE_SIZE,
};

verus! {

broadcast use vstd::std_specs::hash::group_hash_axioms;

/// A [`FrameProvider`] backed by a `Vec` of frames, handed out from the
/// end (the reverse of insertion order).
pub struct VecFrameProvider {
    available: Vec<PhysFrame>,
}

impl View for VecFrameProvider {
    type V = Seq<PhysFrame>;

    /// The frames still available, in insertion order.
    closed spec fn view(&self) -> Seq<PhysFrame> {
        self.available@
    }
}

impl VecFrameProvider {
    /// A provider holding `frames`.
    pub fn new(frames: Vec<PhysFrame>) -> (r: Self)
        ensures
            r@ == frames@,
    {
        VecFrameProvider { available: frames }
    }

    /// The number of frames not yet handed out.
    pub fn remaining(&self) -> (r: usize)
        ensures
            r == self@.len(),
    {
        self.available.len()
    }
}

impl FrameProvider for VecFrameProvider {
    open spec fn inv(&self) -> bool {
        true
    }

    /// The remaining frames are a prefix of those `earlier` had.
    open spec fn grew_from(&self, earlier: &Self) -> bool {
        self@.len() <= earlier@.len() && self@ == earlier@.subrange(0, self@.len() as int)
    }

    proof fn lemma_grew_from_refl(p: &Self) {
        assert(p@ =~= p@.subrange(0, p@.len() as int));
    }

    proof fn lemma_grew_from_trans(a: &Self, b: &Self, c: &Self) {
        assert(c@ =~= a@.subrange(0, c@.len() as int));
    }

    /// The most recently inserted remaining frame, or `None` when empty.
    fn alloc_frame(&mut self) -> (r: Option<PhysFrame>)
        ensures
            old(self)@.len() == 0 ==> r is None && final(self)@ == old(self)@,
            old(self)@.len() > 0 ==> r == Some(old(self)@.last()) && final(self)@ == old(
                self,
            )@.drop_last(),
    {
        let r = self.available.pop();
        proof {
            assert(self@ =~= old(self)@.subrange(0, self@.len() as int));
        }
        r
    }
}

/// Address space of [`FakeMmu`]: a root frame and the leaf mappings,
/// keyed by virtual address. There are no intermediate tables.
pub struct FakeAddressSpace {
    root: PhysFrame,
    mappings: HashMap<usize, Mapping>,
}

impl FakeAddressSpace {
    /// The root frame the address space was created with.
    pub closed spec fn spec_root(&self) -> PhysFrame {
        self.root
    }

    /// The live mappings, keyed by virtual address.
    pub closed spec fn spec_mappings(&self) -> Map<usize, Mapping> {
        self.mappings@
    }

    /// The number of live mappings.
    pub fn mapping_count(&self) -> (r: usize)
        ensures
            r == self.spec_mappings().len(),
    {
        self.mappings.len()
    }

    /// The mapping at `va`, if any.
    pub fn lookup(&self, va: VirtAddr) -> (r: Option<Mapping>)
        ensures
            r == (if self.spec_mappings().contains_key(va.0) {
                Some(self.spec_mappings()[va.0])
            } else {
                None
            }),
    {
        match self.mappings.get(&va.0) {
            Some(m) => Some(*m),
            None => None,
        }
    }
}

/// An [`Mmu`] that keeps mappings in memory and records activations and
/// TLB invalidations for later inspection.
pub struct FakeMmu {
    activated_root: Option<PhysFrame>,
    tlb_address_invalidations: Vec<VirtAddr>,
    tlb_all_count: u64,
}

impl FakeMmu {
    /// The root of the most recently activated address space.
    pub closed spec fn spec_activated_root(&self) -> Option<PhysFrame> {
        self.activated_root
    }

    /// The per-address invalidations issued so far, oldest first.
    pub closed spec fn spec_invalidations(&self) -> Seq<VirtAddr> {
        self.tlb_address_invalidations@
    }

    /// The number of full invalidations issued so far (wrapping).
    pub closed spec fn spec_all_count(&self) -> u64 {
        self.tlb_all_count
    }

    /// A fake MMU with nothing activated and nothing recorded.
    pub fn new() -> (r: Self)
        ensures
            r.spec_activated_root().is_none(),
            r.spec_invalidations() == Seq::<VirtAddr>::empty(),
            r.spec_all_count() == 0,
    {
        FakeMmu {
            activated_root: None,
            tlb_address_invalidations: Vec::new(),
            tlb_all_count: 0,
        }
    }

    /// The root of the most recently activated address space, if any.
    pub fn activated_root(&self) -> (r: Option<PhysFrame>)
        ensures
            r == self.spec_activated_root(),
    {
        self.activated_root
    }

    /// A copy of the per-address invalidations, in issue order.
    pub fn tlb_address_invalidations(&self) -> (r: Vec<VirtAddr>)
        ensures
            r@ == self.spec_invalidations(),
    {
        let mut out: Vec<VirtAddr> = Vec::new();
        let mut i: usize = 0;
        while i < self.tlb_address_invalidations.len()
            invariant
                i <= self.tlb_address_invalidations@.len(),
                out@ == self.tlb_address_invalidations@.subrange(0, i as int),
            decreases self.tlb_address_invalidations@.len() - i,
        {
            out.push(self.tlb_address_invalidations[i]);
            i = i + 1;
        }
        assert(self.tlb_address_invalidations@.subrange(0, i as int)
            =~= self.tlb_address_invalidations@);
        out
    }

    /// The number of full invalidations issued.
    pub fn tlb_all_count(&self) -> (r: u64)
        ensures
            r == self.spec_all_count(),
    {
        self.tlb_all_count
    }
}

impl Default for FakeMmu {
    fn default() -> (r: Self)
        ensures
            r.spec_activated_root().is_none(),
            r.spec_invalidations() == Seq::<VirtAddr>::empty(),
            r.spec_all_count() == 0,
    {
        Self::new()
    }
}

impl Mmu for FakeMmu {
    type AddressSpace = FakeAddressSpace;

    open spec fn mappings(as_: &FakeAddressSpace) -> Map<usize, Mapping> {
        as_.spec_mappings()
    }

    open spec fn root_of(as_: &FakeAddressSpace) -> PhysFrame {
        as_.spec_root()
    }

    /// No intermediate tables: `map` takes no frame.
    open spec fn map_keeps_frames() -> bool {
        true
    }

    /// The activated root is recorded; nothing else changes.
    open spec fn activated(before: &FakeMmu, after: &FakeMmu, root: PhysFrame) -> bool {
        &&& after.spec_activated_root() == Some(root)
        &&& after.spec_invalidations() == before.spec_invalidations()
        &&& after.spec_all_count() == before.spec_all_count()
    }

    /// `va` is appended to the recorded invalidations; nothing else
    /// changes.
    open spec fn address_invalidated(before: &FakeMmu, after: &FakeMmu, va: VirtAddr) -> bool {
        &&& after.spec_invalidations() == before.spec_invalidations().push(va)
        &&& after.spec_activated_root() == before.spec_activated_root()
        &&& after.spec_all_count() == before.spec_all_count()
    }

    /// The full-invalidation count goes up by one (wrapping); nothing
    /// else changes.
    open spec fn all_invalidated(before: &FakeMmu, after: &FakeMmu) -> bool {
        &&& after.spec_all_count() == (if before.spec_all_count() == u64::MAX {
            0
        } else {
            before.spec_all_count() + 1
        })
        &&& after.spec_invalidations() == before.spec_invalidations()
        &&& after.spec_activated_root() == before.spec_activated_root()
    }

    fn create_address_space(&self, root: PhysFrame) -> (r: FakeAddressSpace) {
        FakeAddressSpace { root, mappings: HashMap::new() }
    }

    fn address_space_root(&self, as_: &FakeAddressSpace) -> (r: PhysFrame) {
        as_.root
    }

    /// Record `as_`'s root as the active one.
    fn activate(&mut self, as_: &FakeAddressSpace)
        ensures
            final(self).spec_activated_root() == Some(as_.spec_root()),
            final(self).spec_invalidations() == old(self).spec_invalidations(),
            final(self).spec_all_count() == old(self).spec_all_count(),
    {
        self.activated_root = Some(as_.root);
    }

    /// Insert the mapping unless `va` is misaligned or already mapped;
    /// no frame is ever taken from `frames`.
    fn map<F: FrameProvider>(
        &self,
        as_: &mut FakeAddressSpace,
        va: VirtAddr,
        pa: PhysFrame,
        flags: MappingFlags,
        frames: &mut F,
    ) -> (r: Result<MapperFlush, MmuError>)
        ensures
            *final(frames) == *old(frames),
            r is Ok <==> va.0 % PAGE_SIZE == 0 && !old(as_).spec_mappings().contains_key(va.0),
            va.0 % PAGE_SIZE == 0 && old(as_).spec_mappings().contains_key(va.0) ==> r
                == Err::<MapperFlush, MmuError>(MmuError::AlreadyMapped),
    {
        proof {
            F::lemma_grew_from_refl(&*frames);
        }
        if va.0 % PAGE_SIZE != 0 {
            return Err(MmuError::MisalignedAddress);
        }
        if as_.mappings.contains_key(&va.0) {
            return Err(MmuError::AlreadyMapped);
        }
        as_.mappings.insert(va.0, (pa, flags));
        Ok(MapperFlush::new(va))
    }

    fn unmap(&self, as_: &mut FakeAddressSpace, va: VirtAddr) -> (r: Result<
        (MapperFlush, PhysFrame),
        MmuError,
    >) {
        if va.0 % PAGE_SIZE != 0 {
            return Err(MmuError::MisalignedAddress);
        }
        match as_.mappings.remove(&va.0) {
            Some((pa, _)) => Ok((MapperFlush::new(va), pa)),
            None => Err(MmuError::NotMapped),
        }
    }

    /// Append `va` to the recorded per-address invalidations.
    fn invalidate_tlb_address(&mut self, va: VirtAddr)
        ensures
            final(self).spec_invalidations() == old(self).spec_invalidations().push(va),
            final(self).spec_activated_root() == old(self).spec_activated_root(),
            final(self).spec_all_count() == old(self).spec_all_count(),
    {
        self.tlb_address_invalidations.push(va);
    }

    /// Count one more full invalidation.
    fn invalidate_tlb_all(&mut self)
        ensures
            final(self).spec_all_count() == (if old(self).spec_all_count() == u64::MAX {
                0
            } else {
                old(self).spec_all_count() + 1
            }),
            final(self).spec_invalidations() == old(self).spec_invalidations(),
            final(self).spec_activated_root() == old(self).spec_activated_root(),
    {
        self.tlb_all_count = if self.tlb_all_count == u64::MAX {
            0
        } else {
            self.tlb_all_count + 1
        };
    }
}

/// An [`Mmu`] that behaves as [`FakeMmu`], except that it refuses, with
/// [`MmuError::AlreadyMapped`], to map a page-aligned address into an
/// address space that already holds `fail_at` mappings. It drives
/// mid-sequence mapping failures deterministically.
pub struct FailingMapMmu {
    inner: FakeMmu,
    fail_at: usize,
}

impl FailingMapMmu {
    /// The mapping count from which `map` fails.
    pub closed spec fn spec_fail_at(&self) -> usize {
        self.fail_at
    }

    /// A failing MMU around a fresh [`FakeMmu`].
    pub fn new(fail_at: usize) -> (r: Self)
        ensures
            r.spec_fail_at() == fail_at,
            r.spec_inner().spec_activated_root().is_none(),
            r.spec_inner().spec_invalidations() == Seq::<VirtAddr>::empty(),
            r.spec_inner().spec_all_count() == 0,
    {
        FailingMapMmu { inner: FakeMmu::new(), fail_at }
    }

    /// The wrapped fake MMU.
    pub closed spec fn spec_inner(&self) -> FakeMmu {
        self.inner
    }

    /// The wrapped fake MMU, with its records.
    pub fn inner(&self) -> (r: &FakeMmu)
        ensures
            *r == self.spec_inner(),
    {
        &self.inner
    }
}

impl Mmu for FailingMapMmu {
    type AddressSpace = FakeAddressSpace;

    open spec fn mappings(as_: &FakeAddressSpace) -> Map<usize, Mapping> {
        as_.spec_mappings()
    }

    open spec fn root_of(as_: &FakeAddressSpace) -> PhysFrame {
        as_.spec_root()
    }

    /// No intermediate tables: `map` takes no frame.
    open spec fn map_keeps_frames() -> bool {
        true
    }

    /// The wrapped fake MMU records the activation; `fail_at` is kept.
    open spec fn activated(before: &FailingMapMmu, after: &FailingMapMmu, root: PhysFrame) -> bool {
        &&& FakeMmu::activated(&before.spec_inner(), &after.spec_inner(), root)
        &&& after.spec_fail_at() == before.spec_fail_at()
    }

    /// The wrapped fake MMU records the invalidation; `fail_at` is kept.
    open spec fn address_invalidated(
        before: &FailingMapMmu,
        after: &FailingMapMmu,
        va: VirtAddr,
    ) -> bool {
        &&& FakeMmu::address_invalidated(&before.spec_inner(), &after.spec_inner(), va)
        &&& after.spec_fail_at() == before.spec_fail_at()
    }

    /// The wrapped fake MMU counts the invalidation; `fail_at` is kept.
    open spec fn all_invalidated(before: &FailingMapMmu, after: &FailingMapMmu) -> bool {
        &&& FakeMmu::all_invalidated(&before.spec_inner(), &after.spec_inner())
        &&& after.spec_fail_at() == before.spec_fail_at()
    }

    fn create_address_space(&self, root: PhysFrame) -> (r: FakeAddressSpace) {
        self.inner.create_address_space(root)
    }

    fn address_space_root(&self, as_: &FakeAddressSpace) -> (r: PhysFrame) {
        self.inner.address_space_root(as_)
    }

    fn activate(&mut self, as_: &FakeAddressSpace) {
        self.inner.activate(as_);
    }

    /// As [`FakeMmu`], but a page-aligned `va` fails once `as_` holds
    /// `fail_at` mappings.
    fn map<F: FrameProvider>(
        &self,
        as_: &mut FakeAddressSpace,
        va: VirtAddr,
        pa: PhysFrame,
        flags: MappingFlags,
        frames: &mut F,
    ) -> (r: Result<MapperFlush, MmuError>)
        ensures
            *final(frames) == *old(frames),
            va.0 % PAGE_SIZE == 0 && old(as_).spec_mappings().len() >= self.spec_fail_at() ==> r
                == Err::<MapperFlush, MmuError>(MmuError::AlreadyMapped),
    {
        if va.0 % PAGE_SIZE == 0 && as_.mapping_count() >= self.fail_at {
            proof {
                F::lemma_grew_from_refl(&*frames);
            }
            return Err(MmuError::AlreadyMapped);
        }
        self.inner.map(as_, va, pa, flags, frames)
    }

    fn unmap(&self, as_: &mut FakeAddressSpace, va: VirtAddr) -> (r: Result<
        (MapperFlush, PhysFrame),
        MmuError,
    >) {
        self.inner.unmap(as_, va)
    }

    fn invalidate_tlb_address(&mut self, va: VirtAddr) {
        self.inner.invalidate_tlb_address(va);
    }

    fn invalidate_tlb_all(&mut self) {
        self.inner.invalidate_tlb_all();
    }
}

} // verus!
