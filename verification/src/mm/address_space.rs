//! `AddressSpace` kernel object: a per-task translation context that lives
//! in a generation-tagged arena and is reached through an address-space
//! capability.
//!
//! The capability-gated operations check authority, then delegate the
//! page-table work to the board's [`Mmu`]. Each of them either succeeds or
//! leaves the capability table, the arena and the frame allocator as they
//! were (up to the internal representation of the touched address space,
//! whose mappings and root are unchanged).

use vstd::prelude::*;
use crate::cap::{
    CapError, CapHandle, CapKind, CapObject, CapRights, Capability, CapabilityTable, RIGHT_DERIVE,
};
use crate::hal::mmu::{Mapping, MappingFlags, Mmu, MmuError, PhysFrame, VirtAddr, PAGE_SIZE};
use crate::mm::pmm::{is_lowest_free, FrameState, Pmm};
use crate::obj::arena::{Arena, SlotId};

verus! {

/// Bound on the number of live address spaces.
pub const ADDRESS_SPACE_ARENA_CAPACITY: usize = 8;

/// Kernel-side address-space object: wraps the board-specific
/// address-space value.
pub struct AddressSpace<M: Mmu> {
    inner: M::AddressSpace,
}

impl<M: Mmu> AddressSpace<M> {
    /// The wrapped board-specific value.
    pub closed spec fn spec_inner(&self) -> M::AddressSpace {
        self.inner
    }

    /// The root translation-table frame.
    pub open spec fn spec_root(&self) -> PhysFrame {
        M::root_of(&self.spec_inner())
    }

    /// The leaf mappings, keyed by virtual address.
    pub open spec fn spec_mappings(&self) -> Map<usize, Mapping> {
        M::mappings(&self.spec_inner())
    }

    /// Wrap an already-built board-specific value (used for the address
    /// space that is live at boot; nothing is allocated or cleared).
    pub fn wrap_bootstrap(inner: M::AddressSpace) -> (r: Self)
        ensures
            r.spec_inner() == inner,
    {
        AddressSpace { inner }
    }

    /// The root translation-table frame.
    pub fn root_frame(&self, mmu: &M) -> (r: PhysFrame)
        ensures
            r == self.spec_root(),
    {
        mmu.address_space_root(&self.inner)
    }

    /// The wrapped board-specific value.
    pub fn inner(&self) -> (r: &M::AddressSpace)
        ensures
            *r == self.spec_inner(),
    {
        &self.inner
    }

    /// The wrapped board-specific value, mutably.
    pub fn inner_mut(&mut self) -> (r: &mut M::AddressSpace)
        ensures
            *r == old(self).spec_inner(),
            final(self).spec_inner() == *final(r),
    {
        &mut self.inner
    }
}

/// Typed handle naming an address space in an address-space arena.
#[derive(Copy, Clone, Debug, PartialEq, Eq, Structural)]
pub struct AddressSpaceHandle(SlotId);

impl View for AddressSpaceHandle {
    type V = SlotId;

    closed spec fn view(&self) -> SlotId {
        self.0
    }
}

impl AddressSpaceHandle {
    /// Wrap an arena slot id.
    pub fn from_slot(slot: SlotId) -> (r: Self)
        ensures
            r@ == slot,
    {
        AddressSpaceHandle(slot)
    }

    /// The arena slot id this handle names.
    pub fn slot(self) -> (r: SlotId)
        ensures
            r == self@,
    {
        self.0
    }

    /// A handle built from raw `(index, generation)` parts.
    pub fn test_handle(index: u16, generation: u32) -> (r: Self)
        ensures
            r@.spec_index() == index,
            r@.spec_generation() == generation,
    {
        AddressSpaceHandle(SlotId::from_parts(index, generation))
    }
}

/// The handle of the bootstrap address space: slot 0, generation 0 (the
/// first allocation in a fresh arena).
pub fn bootstrap_address_space_handle() -> (r: AddressSpaceHandle)
    ensures
        r@.spec_index() == 0,
        r@.spec_generation() == 0,
{
    AddressSpaceHandle(SlotId::from_parts(0, 0))
}

/// The arena that stores address spaces.
pub type AddressSpaceArena<M> = Arena<AddressSpace<M>, ADDRESS_SPACE_ARENA_CAPACITY>;

/// Errors returned by address-space operations.
#[derive(Copy, Clone, Debug, PartialEq, Eq, Structural)]
#[non_exhaustive]
pub enum AddressSpaceError {
    /// Every arena slot is in use.
    ArenaFull,
    /// The handle names no live address space.
    StaleHandle,
    /// No frame was available for the new root table.
    OutOfFrames,
    /// The capability check failed.
    CapError(CapError),
    /// The MMU refused the mapping.
    MmuMapError(MmuError),
    /// The MMU refused the unmapping.
    MmuUnmapError(MmuError),
}

/// Store `address_space` in `arena` and return its handle.
///
/// # Errors
///
/// [`AddressSpaceError::ArenaFull`] when every slot is in use (arena
/// unchanged).
pub fn create_address_space<M: Mmu>(
    arena: &mut AddressSpaceArena<M>,
    address_space: AddressSpace<M>,
) -> (r: Result<AddressSpaceHandle, AddressSpaceError>)
    requires
        old(arena).wf(),
    ensures
        final(arena).wf(),
        r is Ok <==> !old(arena).is_full(),
        r matches Ok(h) ==> old(arena).allocated_into(*final(arena), h@, address_space),
        r is Err ==> r == Err::<AddressSpaceHandle, AddressSpaceError>(AddressSpaceError::ArenaFull)
            && *final(arena) == *old(arena),
        r matches Ok(h) ==> !old(arena)@.contains_key(h@) && final(arena)@ == old(arena)@.insert(
            h@,
            address_space,
        ),
{
    match arena.allocate(address_space) {
        Some(slot) => Ok(AddressSpaceHandle(slot)),
        None => Err(AddressSpaceError::ArenaFull),
    }
}

/// Remove the address space named by `handle` and return it.
///
/// # Errors
///
/// [`AddressSpaceError::StaleHandle`] when `handle` names no live address
/// space (arena unchanged).
pub fn destroy_address_space<M: Mmu>(
    arena: &mut AddressSpaceArena<M>,
    handle: AddressSpaceHandle,
) -> (r: Result<AddressSpace<M>, AddressSpaceError>)
    requires
        old(arena).wf(),
    ensures
        final(arena).wf(),
        r is Ok <==> old(arena)@.contains_key(handle@),
        r is Ok ==> old(arena).freed_from(*final(arena), handle@),
        r is Err ==> r == Err::<AddressSpace<M>, AddressSpaceError>(AddressSpaceError::StaleHandle)
            && *final(arena) == *old(arena),
        r matches Ok(a) ==> a == old(arena)@[handle@] && final(arena)@ == old(arena)@.remove(
            handle@,
        ),
{
    match arena.free(handle.0) {
        Some(a) => Ok(a),
        None => Err(AddressSpaceError::StaleHandle),
    }
}

/// The address space named by `handle`, or `None` when stale.
pub fn get_address_space<M: Mmu>(arena: &AddressSpaceArena<M>, handle: AddressSpaceHandle) -> (r:
    Option<&AddressSpace<M>>)
    requires
        arena.wf(),
    ensures
        r.is_some() <==> arena@.contains_key(handle@),
        r.is_some() ==> *r.unwrap() == arena@[handle@],
{
    arena.get(handle.0)
}

/// The address space named by `handle`, mutably, or `None` when stale.
pub fn get_address_space_mut<M: Mmu>(
    arena: &mut AddressSpaceArena<M>,
    handle: AddressSpaceHandle,
) -> (r: Option<&mut AddressSpace<M>>)
    requires
        old(arena).wf(),
    ensures
        r.is_some() <==> old(arena)@.contains_key(handle@),
        r.is_none() ==> *final(arena) == *old(arena),
        r.is_some() ==> *r.unwrap() == old(arena)@[handle@],
        r.is_some() ==> final(arena).wf() && final(arena)@ == old(arena)@.insert(
            handle@,
            *final(r.unwrap()),
        ),
{
    arena.get_mut(handle.0)
}

/// The address-space handle a live capability names, when it names one.
pub open spec fn as_handle_of(table: &CapabilityTable, cap: CapHandle) -> Option<
    AddressSpaceHandle,
> {
    if table@.contains_key(cap@) {
        match table@[cap@].spec_object() {
            CapObject::AddressSpace(h) => Some(h),
            _ => None,
        }
    } else {
        None
    }
}

/// The error, if any, that resolving `cap` to a live address space gives:
/// the capability check first, then the arena lookup.
pub open spec fn resolve_error<M: Mmu>(
    table: &CapabilityTable,
    cap: CapHandle,
    arena: &AddressSpaceArena<M>,
) -> Option<AddressSpaceError> {
    if !table@.contains_key(cap@) {
        Some(AddressSpaceError::CapError(CapError::InvalidHandle))
    } else if as_handle_of(table, cap).is_none() {
        Some(AddressSpaceError::CapError(CapError::WrongKind))
    } else if !arena@.contains_key(as_handle_of(table, cap).unwrap()@) {
        Some(AddressSpaceError::StaleHandle)
    } else {
        None
    }
}

/// The error, if any, that `cap_create_address_space` reports, in the
/// order the checks run: parent lookup, parent kind, DERIVE right and no
/// amplification of rights, a free capability slot, a free arena slot, a
/// frame for the root table.
pub open spec fn create_error<M: Mmu, const N: usize, const R: usize>(
    table: &CapabilityTable,
    parent: CapHandle,
    new_rights: CapRights,
    pmm: &Pmm<N, R>,
    arena: &AddressSpaceArena<M>,
) -> Option<AddressSpaceError> {
    if !table@.contains_key(parent@) {
        Some(AddressSpaceError::CapError(CapError::InvalidHandle))
    } else if as_handle_of(table, parent).is_none() {
        Some(AddressSpaceError::CapError(CapError::WrongKind))
    } else if table@[parent@].spec_rights()@ & RIGHT_DERIVE != RIGHT_DERIVE
        || !table@[parent@].spec_rights().spec_contains(new_rights) {
        Some(AddressSpaceError::CapError(CapError::InsufficientRights))
    } else if table.spec_is_full() {
        Some(AddressSpaceError::CapError(CapError::CapsExhausted))
    } else if arena.is_full() {
        Some(AddressSpaceError::ArenaFull)
    } else if !pmm.can_alloc() {
        Some(AddressSpaceError::OutOfFrames)
    } else {
        None
    }
}

/// Create a fresh address space under the authority of `parent_as_cap`
/// and mint a capability for it, derived from the parent, carrying
/// `new_rights`.
///
/// Every check runs before anything is committed: on error the table,
/// the arena and the PMM's frame states are unchanged (a frame request
/// that finds no free frame still consumes one step of a scheduled
/// failure injection). On success one frame (the lowest
/// free one) becomes the new root table, the new address space has no
/// mappings, and the new capability is a child of the parent. The root
/// frame is handed to the MMU as the PMM gives it out; clearing it is the
/// job of the code that owns physical memory.
///
/// # Errors
///
/// Exactly [`create_error`].
pub fn cap_create_address_space<M: Mmu, const N: usize, const R: usize>(
    table: &mut CapabilityTable,
    parent_as_cap: CapHandle,
    new_rights: CapRights,
    mmu: &M,
    pmm: &mut Pmm<N, R>,
    as_arena: &mut AddressSpaceArena<M>,
) -> (r: Result<CapHandle, AddressSpaceError>)
    requires
        old(table).wf(),
        old(pmm).wf(),
        old(as_arena).wf(),
    ensures
        final(table).wf(),
        final(pmm).wf(),
        final(as_arena).wf(),
        final(pmm).spec_extent() == old(pmm).spec_extent(),
        final(pmm).reserved_slots() == old(pmm).reserved_slots(),
        r is Ok <==> create_error(&*old(table), parent_as_cap, new_rights, &*old(pmm), &*old(as_arena)).is_none(),
        r matches Err(e) ==> {
            &&& create_error(&*old(table), parent_as_cap, new_rights, &*old(pmm), &*old(as_arena)) == Some(e)
            &&& *final(table) == *old(table)
            &&& final(pmm).states() == old(pmm).states()
            &&& e != AddressSpaceError::OutOfFrames ==> *final(pmm) == *old(pmm)
            &&& *final(as_arena) == *old(as_arena)
        },
        r matches Ok(c) ==> {
            &&& !old(table)@.contains_key(c@)
            &&& final(table).parent_of(c@) == Some(parent_as_cap@)
            &&& !final(table).has_children(c@)
            &&& forall|s: SlotId| #[trigger] old(table)@.contains_key(s) ==> final(table).parent_of(s)
                == old(table).parent_of(s)
            &&& final(table)@[c@].spec_rights() == new_rights
            &&& final(table)@ == old(table)@.insert(c@, final(table)@[c@])
            &&& as_handle_of(&*final(table), c) matches Some(h) && {
                &&& !old(as_arena)@.contains_key(h@)
                &&& final(as_arena)@ == old(as_arena)@.insert(h@, final(as_arena)@[h@])
                &&& final(as_arena)@[h@].spec_mappings() == Map::<usize, Mapping>::empty()
                &&& {
                    let i = (final(as_arena)@[h@].spec_root().base() - old(pmm).spec_extent().start.0)
                        / (PAGE_SIZE as int);
                    &&& is_lowest_free(old(pmm).states(), i)
                    &&& final(as_arena)@[h@].spec_root().base() == old(pmm).base_of(i)
                    &&& final(pmm).states() == old(pmm).states().update(i, FrameState::Allocated)
                }
            }
        },
{
    let parent = match table.lookup(parent_as_cap) {
        Ok(c) => c,
        Err(e) => return Err(AddressSpaceError::CapError(e)),
    };
    if parent.kind() != CapKind::AddressSpace {
        return Err(AddressSpaceError::CapError(CapError::WrongKind));
    }
    let rights = parent.rights();
    if !rights.contains(CapRights::derive()) || !rights.contains(new_rights) {
        return Err(AddressSpaceError::CapError(CapError::InsufficientRights));
    }
    if table.is_full() {
        return Err(AddressSpaceError::CapError(CapError::CapsExhausted));
    }
    if !as_arena.has_free_slot() {
        return Err(AddressSpaceError::ArenaFull);
    }
    let root = match pmm.alloc_frame() {
        Some(f) => f,
        None => return Err(AddressSpaceError::OutOfFrames),
    };
    let inner = mmu.create_address_space(root);
    let handle = match create_address_space(as_arena, AddressSpace::wrap_bootstrap(inner)) {
        Ok(h) => h,
        Err(_) => {
            assert(false);
            return Err(AddressSpaceError::ArenaFull);
        },
    };
    let cap = Capability::new(new_rights, CapObject::AddressSpace(handle));
    match table.insert_child(parent_as_cap, cap) {
        Ok(c) => Ok(c),
        Err(e) => {
            assert(false);
            Err(AddressSpaceError::CapError(e))
        },
    }
}

/// Map `frame` at `va` with `flags` in the address space that `as_cap`
/// names, taking intermediate tables from `pmm`, and flush the TLB entry
/// for `va`. No right beyond holding the capability is required.
///
/// # Errors
///
/// [`resolve_error`] first (nothing changes then); otherwise
/// [`AddressSpaceError::MmuMapError`] with the MMU's error, the mappings
/// and root of every address space unchanged.
pub fn cap_map<M: Mmu, const N: usize, const R: usize>(
    table: &CapabilityTable,
    as_cap: CapHandle,
    mmu: &mut M,
    pmm: &mut Pmm<N, R>,
    as_arena: &mut AddressSpaceArena<M>,
    va: VirtAddr,
    frame: PhysFrame,
    flags: MappingFlags,
) -> (r: Result<(), AddressSpaceError>)
    requires
        table.wf(),
        old(pmm).wf(),
        old(as_arena).wf(),
    ensures
        final(pmm).wf(),
        final(as_arena).wf(),
        final(pmm).kept_allocations(&*old(pmm)),
        M::map_keeps_frames() ==> *final(pmm) == *old(pmm),
        resolve_error(table, as_cap, &*old(as_arena)) matches Some(e) ==> {
            &&& r == Err::<(), AddressSpaceError>(e)
            &&& *final(as_arena) == *old(as_arena)
            &&& *final(pmm) == *old(pmm)
        },
        resolve_error(table, as_cap, &*old(as_arena)) is None ==> {
            let h = as_handle_of(table, as_cap).unwrap();
            let before = old(as_arena)@[h@];
            let after = final(as_arena)@[h@];
            &&& final(as_arena)@ == old(as_arena)@.insert(h@, after)
            &&& after.spec_root() == before.spec_root()
            &&& va.0 % PAGE_SIZE != 0 ==> r == Err::<(), AddressSpaceError>(
                AddressSpaceError::MmuMapError(MmuError::MisalignedAddress),
            )
            &&& va.0 % PAGE_SIZE == 0 && before.spec_mappings().contains_key(va.0) ==> (r
                == Err::<(), AddressSpaceError>(
                AddressSpaceError::MmuMapError(MmuError::AlreadyMapped),
            ) || r == Err::<(), AddressSpaceError>(
                AddressSpaceError::MmuMapError(MmuError::InvalidFlags),
            ))
            &&& r is Err ==> (r matches Err(AddressSpaceError::MmuMapError(_)))
            &&& r is Err ==> after.spec_mappings() == before.spec_mappings()
            &&& r is Ok ==> after.spec_mappings() == before.spec_mappings().insert(
                va.0,
                (frame, flags),
            )
        },
{
    let cap = match table.lookup(as_cap) {
        Ok(c) => c,
        Err(e) => return Err(AddressSpaceError::CapError(e)),
    };
    let handle = match cap.object() {
        CapObject::AddressSpace(h) => h,
        _ => return Err(AddressSpaceError::CapError(CapError::WrongKind)),
    };
    let address_space = match get_address_space_mut(as_arena, handle) {
        Some(a) => a,
        None => return Err(AddressSpaceError::StaleHandle),
    };
    match mmu.map(address_space.inner_mut(), va, frame, flags, pmm) {
        Ok(flush) => {
            flush.flush(mmu);
            Ok(())
        },
        Err(e) => Err(AddressSpaceError::MmuMapError(e)),
    }
}

/// Remove the mapping at `va` from the address space that `as_cap`
/// names, flush the TLB entry for `va`, and return the frame that was
/// mapped there.
///
/// # Errors
///
/// [`resolve_error`] first (nothing changes then); otherwise
/// [`AddressSpaceError::MmuUnmapError`] with the MMU's error, the
/// mappings and root of every address space unchanged.
pub fn cap_unmap<M: Mmu>(
    table: &CapabilityTable,
    as_cap: CapHandle,
    mmu: &mut M,
    as_arena: &mut AddressSpaceArena<M>,
    va: VirtAddr,
) -> (r: Result<PhysFrame, AddressSpaceError>)
    requires
        table.wf(),
        old(as_arena).wf(),
    ensures
        final(as_arena).wf(),
        resolve_error(table, as_cap, &*old(as_arena)) matches Some(e) ==> {
            &&& r == Err::<PhysFrame, AddressSpaceError>(e)
            &&& *final(as_arena) == *old(as_arena)
        },
        resolve_error(table, as_cap, &*old(as_arena)) is None ==> {
            let h = as_handle_of(table, as_cap).unwrap();
            let before = old(as_arena)@[h@];
            let after = final(as_arena)@[h@];
            &&& final(as_arena)@ == old(as_arena)@.insert(h@, after)
            &&& after.spec_root() == before.spec_root()
            &&& va.0 % PAGE_SIZE != 0 ==> r == Err::<PhysFrame, AddressSpaceError>(
                AddressSpaceError::MmuUnmapError(MmuError::MisalignedAddress),
            )
            &&& va.0 % PAGE_SIZE == 0 && !before.spec_mappings().contains_key(va.0) ==> r
                == Err::<PhysFrame, AddressSpaceError>(
                AddressSpaceError::MmuUnmapError(MmuError::NotMapped),
            )
            &&& va.0 % PAGE_SIZE == 0 && before.spec_mappings().contains_key(va.0) ==> r is Ok
            &&& r is Err ==> (r matches Err(AddressSpaceError::MmuUnmapError(_)))
            &&& r is Err ==> after.spec_mappings() == before.spec_mappings()
            &&& r matches Ok(f) ==> {
                &&& before.spec_mappings().contains_key(va.0)
                &&& f == before.spec_mappings()[va.0].0
                &&& after.spec_mappings() == before.spec_mappings().remove(va.0)
            }
        },
{
    let cap = match table.lookup(as_cap) {
        Ok(c) => c,
        Err(e) => return Err(AddressSpaceError::CapError(e)),
    };
    let handle = match cap.object() {
        CapObject::AddressSpace(h) => h,
        _ => return Err(AddressSpaceError::CapError(CapError::WrongKind)),
    };
    let address_space = match get_address_space_mut(as_arena, handle) {
        Some(a) => a,
        None => return Err(AddressSpaceError::StaleHandle),
    };
    match mmu.unmap(address_space.inner_mut(), va) {
        Ok((flush, frame)) => {
            flush.flush(mmu);
            Ok(frame)
        },
        Err(e) => Err(AddressSpaceError::MmuUnmapError(e)),
    }
}

/// Make the address space named by `handle` the active one on `mmu`.
///
/// # Errors
///
/// [`AddressSpaceError::StaleHandle`] when `handle` names no live address
/// space (nothing is activated then).
pub fn activate_address_space_handle<M: Mmu>(
    mmu: &mut M,
    arena: &AddressSpaceArena<M>,
    handle: AddressSpaceHandle,
) -> (r: Result<(), AddressSpaceError>)
    requires
        arena.wf(),
    ensures
        r is Ok <==> arena@.contains_key(handle@),
        r is Err ==> r == Err::<(), AddressSpaceError>(AddressSpaceError::StaleHandle),
        r is Err ==> *final(mmu) == *old(mmu),
{
    match get_address_space(arena, handle) {
        Some(a) => {
            mmu.activate(a.inner());
            Ok(())
        },
        None => Err(AddressSpaceError::StaleHandle),
    }
}

/// A capability minted by `cap_create_address_space` only ever comes from
/// a parent that holds DERIVE, and never carries a right the parent
/// lacks.
pub proof fn law_created_cap_never_amplifies_rights<M: Mmu, const N: usize, const R: usize>(
    table: &CapabilityTable,
    parent: CapHandle,
    new_rights: CapRights,
    pmm: &Pmm<N, R>,
    arena: &AddressSpaceArena<M>,
)
    requires
        create_error(table, parent, new_rights, pmm, arena) is None,
    ensures
        table@.contains_key(parent@),
        table@[parent@].spec_rights()@ & RIGHT_DERIVE == RIGHT_DERIVE,
        table@[parent@].spec_rights().spec_contains(new_rights),
{
}

} // verus!
