use tyrne::cap::{CapError, CapObject, CapRights, Capability, CapabilityTable};
use tyrne::hal::mmu::{MappingFlags, Mmu, MmuError, PhysAddr, PhysFrame, VirtAddr};
use tyrne::mm::address_space::{
    activate_address_space_handle, cap_create_address_space, cap_map, cap_unmap,
    create_address_space, destroy_address_space, get_address_space, get_address_space_mut,
    AddressSpace, AddressSpaceArena, AddressSpaceError, AddressSpaceHandle,
    ADDRESS_SPACE_ARENA_CAPACITY,
};
use tyrne::mm::pmm::Pmm;
use tyrne::mm::PhysFrameRange;
use tyrne::test_hal::{FakeAddressSpace, FakeMmu};

fn frame(addr: usize) -> PhysFrame {
    PhysFrame::from_aligned(PhysAddr(addr)).expect("test addr must be page-aligned")
}

fn fake_inner(mmu: &FakeMmu, root: PhysFrame) -> FakeAddressSpace {
    mmu.create_address_space(root)
}

#[test]
fn wrap_bootstrap_returns_address_space_with_root() {
    let mmu = FakeMmu::new();
    let root = frame(0x4000_0000);
    let inner = fake_inner(&mmu, root);
    let address_space: AddressSpace<FakeMmu> = AddressSpace::wrap_bootstrap(inner);
    assert_eq!(address_space.root_frame(&mmu), root);
}

#[test]
fn arena_alloc_returns_distinct_handles() {
    let mmu = FakeMmu::new();
    let mut arena: AddressSpaceArena<FakeMmu> = AddressSpaceArena::new();

    let as_a = AddressSpace::wrap_bootstrap(fake_inner(&mmu, frame(0x4000_0000)));
    let as_b = AddressSpace::wrap_bootstrap(fake_inner(&mmu, frame(0x4000_1000)));

    let h_a = create_address_space(&mut arena, as_a).unwrap();
    let h_b = create_address_space(&mut arena, as_b).unwrap();

    assert_ne!(h_a, h_b, "distinct allocs produce distinct handles");
    assert_eq!(get_address_space(&arena, h_a).map(|a| a.root_frame(&mmu)), Some(frame(0x4000_0000)));
    assert_eq!(get_address_space(&arena, h_b).map(|a| a.root_frame(&mmu)), Some(frame(0x4000_1000)));
}

#[test]
fn arena_get_with_stale_handle_returns_none() {
    let mmu = FakeMmu::new();
    let mut arena: AddressSpaceArena<FakeMmu> = AddressSpaceArena::new();

    let first = AddressSpace::wrap_bootstrap(fake_inner(&mmu, frame(0x4000_0000)));
    let h_first = create_address_space(&mut arena, first).unwrap();
    let _removed = destroy_address_space(&mut arena, h_first).ok().unwrap();

    assert!(get_address_space(&arena, h_first).is_none());
    assert!(get_address_space_mut(&mut arena, h_first).is_none());

    let second = AddressSpace::wrap_bootstrap(fake_inner(&mmu, frame(0x4000_1000)));
    let h_second = create_address_space(&mut arena, second).unwrap();
    assert_ne!(h_first, h_second, "slot reuse must produce a distinct handle");

    assert_eq!(
        get_address_space(&arena, h_second).map(|a| a.root_frame(&mmu)),
        Some(frame(0x4000_1000))
    );
    assert!(get_address_space(&arena, h_first).is_none());
}

#[test]
fn arena_full_returns_arena_full_error() {
    let mmu = FakeMmu::new();
    let mut arena: AddressSpaceArena<FakeMmu> = AddressSpaceArena::new();

    for i in 0..ADDRESS_SPACE_ARENA_CAPACITY {
        let inner = fake_inner(&mmu, frame(0x4000_0000 + i * 0x1000));
        create_address_space(&mut arena, AddressSpace::wrap_bootstrap(inner))
            .expect("arena fill within capacity must succeed");
    }

    let overflow_inner = fake_inner(&mmu, frame(0x4001_0000));
    let result = create_address_space(&mut arena, AddressSpace::wrap_bootstrap(overflow_inner));
    assert_eq!(result, Err(AddressSpaceError::ArenaFull));
}

#[test]
fn destroy_with_stale_handle_returns_stale_handle_error() {
    let mmu = FakeMmu::new();
    let mut arena: AddressSpaceArena<FakeMmu> = AddressSpaceArena::new();

    let inner = fake_inner(&mmu, frame(0x4000_0000));
    let handle = create_address_space(&mut arena, AddressSpace::wrap_bootstrap(inner)).unwrap();
    assert!(destroy_address_space(&mut arena, handle).is_ok());

    let result = destroy_address_space(&mut arena, handle);
    assert!(
        matches!(result, Err(AddressSpaceError::StaleHandle)),
        "expected Err(StaleHandle) on double-free of the same handle"
    );
}

#[test]
fn inner_accessors_provide_borrow_and_borrow_mut() {
    let mmu = FakeMmu::new();
    let mut address_space: AddressSpace<FakeMmu> =
        AddressSpace::wrap_bootstrap(fake_inner(&mmu, frame(0x4000_0000)));
    assert_eq!(address_space.root_frame(&mmu), frame(0x4000_0000));
    let inner_mut = address_space.inner_mut();
    assert_eq!(inner_mut.mapping_count(), 0);
    assert_eq!(address_space.root_frame(&mmu), frame(0x4000_0000));
    assert_eq!(address_space.inner().mapping_count(), 0);
}

#[test]
fn address_space_handle_parts_round_trip() {
    let h = AddressSpaceHandle::test_handle(3, 9);
    assert_eq!(h.slot().index(), 3);
    assert_eq!(h.slot().generation(), 9);
}

// ── capability-gated operations ──────────────────────────────────────────

struct Kernel {
    table: CapabilityTable,
    parent: tyrne::cap::CapHandle,
    mmu: FakeMmu,
    arena: AddressSpaceArena<FakeMmu>,
    pmm: Pmm<32, 4>,
}

fn kernel(parent_rights: CapRights, frames: usize) -> Kernel {
    let mmu = FakeMmu::new();
    let mut arena: AddressSpaceArena<FakeMmu> = AddressSpaceArena::new();
    let boot = create_address_space(
        &mut arena,
        AddressSpace::wrap_bootstrap(mmu.create_address_space(frame(0x4000_0000))),
    )
    .unwrap();
    let mut table = CapabilityTable::new();
    let parent = table
        .insert_root(Capability::new(parent_rights, CapObject::AddressSpace(boot)))
        .unwrap();
    let extent = PhysFrameRange::new(PhysAddr(0x8000_0000), PhysAddr(0x8000_0000 + frames * 4096));
    let pmm = Pmm::new(extent, &[]).unwrap();
    Kernel { table, parent, mmu, arena, pmm }
}

#[test]
fn cap_create_then_map_and_unmap_round_trip() {
    let mut k = kernel(CapRights::derive() | CapRights::duplicate(), 8);
    let cap = cap_create_address_space(
        &mut k.table,
        k.parent,
        CapRights::duplicate(),
        &k.mmu,
        &mut k.pmm,
        &mut k.arena,
    )
    .unwrap();
    assert_eq!(k.pmm.stats().allocated_frames, 1);
    assert_eq!(k.table.lookup(cap).unwrap().rights(), CapRights::duplicate());

    let leaf = frame(0x9000_0000);
    cap_map(&k.table, cap, &mut k.mmu, &mut k.pmm, &mut k.arena, VirtAddr(0x40_0000), leaf, MappingFlags::user())
        .unwrap();
    assert_eq!(k.mmu.tlb_address_invalidations(), vec![VirtAddr(0x40_0000)]);
    let returned = cap_unmap(&k.table, cap, &mut k.mmu, &mut k.arena, VirtAddr(0x40_0000)).unwrap();
    assert_eq!(returned, leaf);
    assert_eq!(
        cap_unmap(&k.table, cap, &mut k.mmu, &mut k.arena, VirtAddr(0x40_0000)),
        Err(AddressSpaceError::MmuUnmapError(MmuError::NotMapped))
    );
}

#[test]
fn cap_create_requires_derive_and_no_amplification() {
    let mut k = kernel(CapRights::duplicate(), 8);
    assert_eq!(
        cap_create_address_space(&mut k.table, k.parent, CapRights::empty(), &k.mmu, &mut k.pmm, &mut k.arena),
        Err(AddressSpaceError::CapError(CapError::InsufficientRights))
    );
    let mut k = kernel(CapRights::derive(), 8);
    assert_eq!(
        cap_create_address_space(&mut k.table, k.parent, CapRights::revoke(), &k.mmu, &mut k.pmm, &mut k.arena),
        Err(AddressSpaceError::CapError(CapError::InsufficientRights))
    );
    assert_eq!(k.pmm.stats().allocated_frames, 0);
}

#[test]
fn cap_create_reports_out_of_frames_without_committing() {
    let mut k = kernel(CapRights::derive(), 1);
    k.pmm.force_alloc_failure_after(0);
    assert_eq!(
        cap_create_address_space(&mut k.table, k.parent, CapRights::empty(), &k.mmu, &mut k.pmm, &mut k.arena),
        Err(AddressSpaceError::OutOfFrames)
    );
}

#[test]
fn cap_map_rejects_wrong_kind_and_stale_handles() {
    let mut k = kernel(CapRights::derive(), 8);
    let ep = k
        .table
        .insert_root(Capability::new(
            CapRights::empty(),
            CapObject::Endpoint(tyrne::obj::endpoint::EndpointHandle::test_handle(0, 0)),
        ))
        .unwrap();
    assert_eq!(
        cap_map(&k.table, ep, &mut k.mmu, &mut k.pmm, &mut k.arena, VirtAddr(0), frame(0x1000), MappingFlags::empty()),
        Err(AddressSpaceError::CapError(CapError::WrongKind))
    );
    let stale = k
        .table
        .insert_root(Capability::new(
            CapRights::empty(),
            CapObject::AddressSpace(AddressSpaceHandle::test_handle(5, 0)),
        ))
        .unwrap();
    assert_eq!(
        cap_unmap(&k.table, stale, &mut k.mmu, &mut k.arena, VirtAddr(0)),
        Err(AddressSpaceError::StaleHandle)
    );
}

#[test]
fn activate_handle_records_root_or_reports_stale() {
    let mut k = kernel(CapRights::derive(), 8);
    let boot = AddressSpaceHandle::test_handle(0, 0);
    activate_address_space_handle(&mut k.mmu, &k.arena, boot).unwrap();
    assert_eq!(k.mmu.activated_root(), Some(frame(0x4000_0000)));
    assert_eq!(
        activate_address_space_handle(&mut k.mmu, &k.arena, AddressSpaceHandle::test_handle(0, 1)),
        Err(AddressSpaceError::StaleHandle)
    );
}
