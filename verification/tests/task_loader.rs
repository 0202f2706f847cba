use tyrne::cap::{CapError, CapHandle, CapObject, CapRights, Capability, CapabilityTable};
use tyrne::hal::mmu::{MappingFlags, Mmu, MmuError, PhysAddr, PhysFrame, VirtAddr, PAGE_SIZE};
use tyrne::mm::address_space::{
    cap_create_address_space, create_address_space, get_address_space, AddressSpace,
    AddressSpaceArena, AddressSpaceError, AddressSpaceHandle,
};
use tyrne::mm::pmm::Pmm;
use tyrne::mm::PhysFrameRange;
use tyrne::obj::endpoint::EndpointHandle;
use tyrne::obj::task_loader::{
    load_image, rollback, write_page_fill, LoadError, LoadedImage, PageFill,
    INTERMEDIATE_FRAME_BUDGET,
};
use tyrne::test_hal::{FailingMapMmu, FakeAddressSpace, FakeMmu};

const TEST_PMM_N: usize = 32;
const TEST_PMM_R: usize = 4;
type TestPmm = Pmm<TEST_PMM_N, TEST_PMM_R>;

/// Base of the synthetic PMM extent; frame contents are never touched by
/// the library.
const EXTENT_BASE: usize = 0x4100_0000;
/// A physical address for images that lies outside every test extent.
const IMAGE_PA: usize = 0x1000_0000;

fn frame(addr: usize) -> PhysFrame {
    PhysFrame::from_aligned(PhysAddr(addr)).expect("test addr must be page-aligned")
}

fn pmm_over(frames: usize) -> TestPmm {
    let extent = PhysFrameRange::new(
        PhysAddr(EXTENT_BASE),
        PhysAddr(EXTENT_BASE + frames * PAGE_SIZE),
    );
    Pmm::new(extent, &[]).expect("test Pmm::new must succeed")
}

fn parent_rights() -> CapRights {
    CapRights::duplicate() | CapRights::derive() | CapRights::revoke() | CapRights::transfer()
}

fn fixture(
    frames: usize,
) -> (CapabilityTable, CapHandle, FakeMmu, AddressSpaceArena<FakeMmu>, TestPmm) {
    let mmu = FakeMmu::new();
    let mut arena: AddressSpaceArena<FakeMmu> = AddressSpaceArena::new();
    let mut table = CapabilityTable::new();
    let bootstrap_inner = mmu.create_address_space(frame(0x4000_0000));
    let bootstrap_handle =
        create_address_space(&mut arena, AddressSpace::wrap_bootstrap(bootstrap_inner)).unwrap();
    let parent_cap = Capability::new(parent_rights(), CapObject::AddressSpace(bootstrap_handle));
    let parent_cap_handle = table.insert_root(parent_cap).unwrap();
    (table, parent_cap_handle, mmu, arena, pmm_over(frames))
}

fn fixture_with_failing_mmu(
    frames: usize,
    fail_at: usize,
) -> (CapabilityTable, CapHandle, FailingMapMmu, AddressSpaceArena<FailingMapMmu>, TestPmm) {
    let mmu = FailingMapMmu::new(fail_at);
    let mut arena: AddressSpaceArena<FailingMapMmu> = AddressSpaceArena::new();
    let mut table = CapabilityTable::new();
    let bootstrap_inner = mmu.create_address_space(frame(0x4000_0000));
    let bootstrap_handle =
        create_address_space(&mut arena, AddressSpace::wrap_bootstrap(bootstrap_inner)).unwrap();
    let parent_cap = Capability::new(parent_rights(), CapObject::AddressSpace(bootstrap_handle));
    let parent_cap_handle = table.insert_root(parent_cap).unwrap();
    (table, parent_cap_handle, mmu, arena, pmm_over(frames))
}

fn fresh_cap_handle() -> CapHandle {
    let mut table = CapabilityTable::new();
    let cap = Capability::new(
        CapRights::empty(),
        CapObject::Endpoint(EndpointHandle::test_handle(0, 0)),
    );
    table.insert_root(cap).unwrap()
}

fn resolve_new_as(table: &CapabilityTable, cap_handle: CapHandle) -> AddressSpaceHandle {
    match table.lookup(cap_handle).unwrap().object() {
        CapObject::AddressSpace(h) => h,
        other => panic!("expected AddressSpace cap, got {other:?}"),
    }
}

#[test]
fn rejects_empty_image() {
    let (mut table, parent_cap, mut mmu, mut arena, mut pmm) = fixture(16);
    let pmm_before = pmm.stats().free_frames;
    let table_before = table.is_full();
    let mut fills: Vec<PageFill> = Vec::new();

    let result = load_image(
        &[], IMAGE_PA, &mut pmm, &mut mmu, &mut table, &mut arena, parent_cap,
        CapRights::empty(), VirtAddr(0x0080_0000), 4, &mut fills,
    );

    assert_eq!(result, Err(LoadError::InvalidImage));
    assert_eq!(pmm.stats().free_frames, pmm_before);
    assert_eq!(table.is_full(), table_before);
}

#[test]
fn rejects_zero_stack() {
    let (mut table, parent_cap, mut mmu, mut arena, mut pmm) = fixture(16);
    let pmm_before = pmm.stats().free_frames;
    let mut fills: Vec<PageFill> = Vec::new();

    let result = load_image(
        &[0x01, 0x02, 0x03], IMAGE_PA, &mut pmm, &mut mmu, &mut table, &mut arena, parent_cap,
        CapRights::empty(), VirtAddr(0x0080_0000), 0, &mut fills,
    );

    assert_eq!(result, Err(LoadError::InvalidStackSize));
    assert_eq!(pmm.stats().free_frames, pmm_before);
}

#[test]
fn rejects_invalid_parent_cap_lookup() {
    let (mut table, _real_cap, mut mmu, mut arena, mut pmm) = fixture(16);
    let pmm_before = pmm.stats().free_frames;

    let throwaway = Capability::new(
        CapRights::empty(),
        CapObject::Endpoint(EndpointHandle::test_handle(0, 0)),
    );
    let stale = table.insert_root(throwaway).unwrap();
    table.cap_drop(stale).unwrap();
    let mut fills: Vec<PageFill> = Vec::new();

    let result = load_image(
        &[0xAA, 0xBB], IMAGE_PA, &mut pmm, &mut mmu, &mut table, &mut arena, stale,
        CapRights::empty(), VirtAddr(0x0080_0000), 2, &mut fills,
    );

    assert!(
        matches!(result, Err(LoadError::InvalidParentCap(CapError::InvalidHandle))),
        "expected InvalidParentCap(InvalidHandle), got {result:?}"
    );
    assert_eq!(pmm.stats().free_frames, pmm_before);
}

#[test]
fn rejects_invalid_parent_cap_wrong_kind() {
    let (_t, _c, mut mmu, mut arena, mut pmm) = fixture(16);
    let pmm_before = pmm.stats().free_frames;

    let mut table = CapabilityTable::new();
    let ep_cap = Capability::new(
        CapRights::derive(),
        CapObject::Endpoint(EndpointHandle::test_handle(0, 0)),
    );
    let ep_cap_handle = table.insert_root(ep_cap).unwrap();
    let mut fills: Vec<PageFill> = Vec::new();

    let result = load_image(
        &[0xAA, 0xBB], IMAGE_PA, &mut pmm, &mut mmu, &mut table, &mut arena, ep_cap_handle,
        CapRights::empty(), VirtAddr(0x0080_0000), 2, &mut fills,
    );

    assert!(
        matches!(result, Err(LoadError::InvalidParentCap(CapError::WrongKind))),
        "expected InvalidParentCap(WrongKind), got {result:?}"
    );
    assert_eq!(pmm.stats().free_frames, pmm_before);
}

#[test]
fn rejects_when_pmm_budget_exceeded() {
    let (mut table, parent_cap, mut mmu, mut arena, mut pmm) = fixture(4);
    let pmm_before = pmm.stats().free_frames;
    let image: Vec<u8> = vec![0xCDu8; 8 * PAGE_SIZE];
    let mut fills: Vec<PageFill> = Vec::new();

    let result = load_image(
        &image, IMAGE_PA, &mut pmm, &mut mmu, &mut table, &mut arena, parent_cap,
        CapRights::empty(), VirtAddr(0x0080_0000), 8, &mut fills,
    );

    match result {
        Err(LoadError::FrameBudgetExceeded { needed, available }) => {
            assert_eq!(needed, 1 + 8 + 8 + INTERMEDIATE_FRAME_BUDGET);
            assert_eq!(available, pmm_before);
        }
        other => panic!("expected FrameBudgetExceeded, got {other:?}"),
    }
    assert_eq!(pmm.stats().free_frames, pmm_before);
}

#[test]
fn frame_budget_includes_root_plus_intermediates() {
    let frames_available = 1 + 2 + 1 + INTERMEDIATE_FRAME_BUDGET - 1;
    let (mut table, parent_cap, mut mmu, mut arena, mut pmm) = fixture(frames_available);
    let image: Vec<u8> = vec![0u8; 2 * PAGE_SIZE];
    let mut fills: Vec<PageFill> = Vec::new();

    let result = load_image(
        &image, IMAGE_PA, &mut pmm, &mut mmu, &mut table, &mut arena, parent_cap,
        CapRights::empty(), VirtAddr(0x0080_0000), 1, &mut fills,
    );

    match result {
        Err(LoadError::FrameBudgetExceeded { needed, available }) => {
            assert_eq!(needed, 1 + 2 + 1 + INTERMEDIATE_FRAME_BUDGET);
            assert_eq!(available, frames_available);
            assert!(needed > 2 + 1, "needed must exceed bare image+stack count");
            assert!(needed >= INTERMEDIATE_FRAME_BUDGET, "needed must include intermediates");
        }
        other => panic!("expected FrameBudgetExceeded, got {other:?}"),
    }
}

#[test]
fn rejects_when_image_overlaps_allocatable_memory() {
    let (mut table, parent_cap, mut mmu, mut arena, mut pmm) = fixture(16);
    let pmm_before = pmm.stats().free_frames;
    // The image's physical address lies inside the PMM's extent.
    let image = [0u8; 8];
    let mut fills: Vec<PageFill> = Vec::new();

    let result = load_image(
        &image, EXTENT_BASE, &mut pmm, &mut mmu, &mut table, &mut arena, parent_cap,
        CapRights::empty(), VirtAddr(0x0080_0000), 1, &mut fills,
    );

    assert_eq!(result, Err(LoadError::ImageOverlapsAllocatableMemory));
    assert_eq!(pmm.stats().free_frames, pmm_before);
    assert!(fills.is_empty());
}

#[test]
fn accepts_image_disjoint_from_pmm_extent() {
    let (mut table, parent_cap, mut mmu, mut arena, mut pmm) = fixture(16);
    let image: Vec<u8> = vec![0xAAu8; 8];
    let extent_start = pmm.extent().start.0;
    let extent_end = pmm.extent().end.0;
    assert!(IMAGE_PA + image.len() <= extent_start || IMAGE_PA >= extent_end);
    let mut fills: Vec<PageFill> = Vec::new();

    let result = load_image(
        &image, IMAGE_PA, &mut pmm, &mut mmu, &mut table, &mut arena, parent_cap,
        CapRights::empty(), VirtAddr(0x0080_0000), 1, &mut fills,
    );
    assert!(result.is_ok(), "disjoint image must not trigger overlap preflight; got {result:?}");
}

#[test]
fn missing_derive_surfaces_via_address_space_creation_failed() {
    let mut mmu = FakeMmu::new();
    let mut arena: AddressSpaceArena<FakeMmu> = AddressSpaceArena::new();
    let mut table = CapabilityTable::new();
    let bootstrap_inner = mmu.create_address_space(frame(0x4000_0000));
    let bootstrap_handle =
        create_address_space(&mut arena, AddressSpace::wrap_bootstrap(bootstrap_inner)).unwrap();

    let no_derive_cap = Capability::new(CapRights::empty(), CapObject::AddressSpace(bootstrap_handle));
    let cap_handle = table.insert_root(no_derive_cap).unwrap();
    let mut pmm = pmm_over(16);
    let mut fills: Vec<PageFill> = Vec::new();

    let result = load_image(
        &[0xAAu8; 2 * PAGE_SIZE], IMAGE_PA, &mut pmm, &mut mmu, &mut table, &mut arena,
        cap_handle, CapRights::empty(), VirtAddr(0x0080_0000), 1, &mut fills,
    );

    assert!(
        matches!(
            result,
            Err(LoadError::AddressSpaceCreationFailed(AddressSpaceError::CapError(
                CapError::InsufficientRights
            )))
        ),
        "expected AddressSpaceCreationFailed(InsufficientRights), got {result:?}"
    );
    assert_eq!(pmm.stats().free_frames, 16);
}

#[test]
fn returns_loaded_image_with_correct_metadata() {
    let (mut table, parent_cap, mut mmu, mut arena, mut pmm) = fixture(32);
    let pmm_before = pmm.stats().free_frames;
    let image: Vec<u8> = vec![0xDEu8; 3 * PAGE_SIZE + 100];
    let image_base = VirtAddr(0x0080_0000);
    let mut fills: Vec<PageFill> = Vec::new();

    let loaded = load_image(
        &image, IMAGE_PA, &mut pmm, &mut mmu, &mut table, &mut arena, parent_cap,
        CapRights::empty(), image_base, 2, &mut fills,
    )
    .expect("load_image must succeed on healthy fixture");

    assert_eq!(loaded.entry_va, image_base);
    assert_eq!(loaded.image_bytes, 3 * PAGE_SIZE + 100);
    assert_eq!(loaded.stack_bytes, 2 * PAGE_SIZE);
    assert_eq!(loaded.stack_top_va, VirtAddr(0x0080_0000 + 4 * PAGE_SIZE + 2 * PAGE_SIZE));
    // Root + 4 image pages + 2 stack pages; FakeMmu takes no intermediate frames.
    assert_eq!(pmm.stats().free_frames, pmm_before - 7);
}

#[test]
fn stack_top_va_is_one_past_highest_mapped() {
    let (mut table, parent_cap, mut mmu, mut arena, mut pmm) = fixture(32);
    let image_base = VirtAddr(0x0080_0000);
    let mut fills: Vec<PageFill> = Vec::new();
    let loaded = load_image(
        &[0xAAu8; PAGE_SIZE], IMAGE_PA, &mut pmm, &mut mmu, &mut table, &mut arena, parent_cap,
        CapRights::empty(), image_base, 3, &mut fills,
    )
    .unwrap();

    let stack_base = 0x0080_0000 + PAGE_SIZE;
    assert_eq!(
        loaded.stack_top_va,
        VirtAddr(stack_base + 3 * PAGE_SIZE),
        "stack_top_va must be one past highest mapped"
    );
    let h = resolve_new_as(&table, loaded.as_cap);
    let inner: &FakeAddressSpace = get_address_space(&arena, h).unwrap().inner();
    assert!(inner.lookup(VirtAddr(stack_base + 2 * PAGE_SIZE)).is_some());
    assert!(inner.lookup(loaded.stack_top_va).is_none());
}

#[test]
fn maps_image_pages_with_user_execute_flags() {
    let (mut table, parent_cap, mut mmu, mut arena, mut pmm) = fixture(32);
    let image_base = VirtAddr(0x0080_0000);
    let mut fills: Vec<PageFill> = Vec::new();

    let loaded = load_image(
        &[0xAAu8; 2 * PAGE_SIZE], IMAGE_PA, &mut pmm, &mut mmu, &mut table, &mut arena,
        parent_cap, CapRights::empty(), image_base, 1, &mut fills,
    )
    .unwrap();

    let new_as_handle = resolve_new_as(&table, loaded.as_cap);
    let as_ref = get_address_space(&arena, new_as_handle).unwrap();
    let inner: &FakeAddressSpace = as_ref.inner();
    for i in 0..2 {
        let va = VirtAddr(image_base.0 + i * PAGE_SIZE);
        let (_pa, flags) = inner.lookup(va).expect("image page must be mapped");
        assert!(flags.contains(MappingFlags::user()));
        assert!(flags.contains(MappingFlags::execute()));
        assert!(!flags.contains(MappingFlags::write()));
    }
}

#[test]
fn maps_stack_with_user_write_flags() {
    let (mut table, parent_cap, mut mmu, mut arena, mut pmm) = fixture(32);
    let image_base = VirtAddr(0x0080_0000);
    let mut fills: Vec<PageFill> = Vec::new();

    let loaded = load_image(
        &[0xAAu8; PAGE_SIZE], IMAGE_PA, &mut pmm, &mut mmu, &mut table, &mut arena, parent_cap,
        CapRights::empty(), image_base, 2, &mut fills,
    )
    .unwrap();

    let new_as_handle = resolve_new_as(&table, loaded.as_cap);
    let as_ref = get_address_space(&arena, new_as_handle).unwrap();
    let inner: &FakeAddressSpace = as_ref.inner();
    let stack_base = image_base.0 + PAGE_SIZE;
    for i in 0..2 {
        let va = VirtAddr(stack_base + i * PAGE_SIZE);
        let (_pa, flags) = inner.lookup(va).expect("stack page must be mapped");
        assert!(flags.contains(MappingFlags::user()));
        assert!(flags.contains(MappingFlags::write()));
        assert!(!flags.contains(MappingFlags::execute()));
    }
}

#[test]
fn tail_zeroing_on_partial_last_page() {
    // The loader reports what each fresh frame must hold: the page's
    // image bytes, zeros for the rest of the page.
    let (mut table, parent_cap, mut mmu, mut arena, mut pmm) = fixture(32);
    let image_base = VirtAddr(0x0080_0000);
    let image: Vec<u8> = (0u8..100u8).map(|i| 0xC0u8 ^ i).collect();
    let mut fills: Vec<PageFill> = Vec::new();

    let loaded = load_image(
        &image, IMAGE_PA, &mut pmm, &mut mmu, &mut table, &mut arena, parent_cap,
        CapRights::empty(), image_base, 1, &mut fills,
    )
    .unwrap();
    assert_eq!(loaded.image_bytes, 100);

    let new_as_handle = resolve_new_as(&table, loaded.as_cap);
    let inner = get_address_space(&arena, new_as_handle).unwrap().inner();
    let (pa, _flags) = inner.lookup(image_base).expect("page mapped");
    let (stack_pa, _flags) = inner.lookup(VirtAddr(image_base.0 + PAGE_SIZE)).expect("stack mapped");

    assert_eq!(
        fills,
        vec![
            PageFill { frame: pa, image_offset: 0, len: 100 },
            PageFill { frame: stack_pa, image_offset: 0, len: 0 },
        ],
        "the image page holds the 100 image bytes then zeros; the stack page is all zeros"
    );
}

#[test]
fn rolls_back_on_cap_map_failure_mid_image_loop() {
    let (mut table, parent_cap, mut mmu, mut arena, mut pmm) = fixture_with_failing_mmu(32, 2);
    let pmm_before = pmm.stats().free_frames;
    let mut fills: Vec<PageFill> = Vec::new();

    let result = load_image(
        &[0xAAu8; 4 * PAGE_SIZE], IMAGE_PA, &mut pmm, &mut mmu, &mut table, &mut arena,
        parent_cap, CapRights::empty(), VirtAddr(0x0080_0000), 2, &mut fills,
    );

    assert!(
        matches!(
            result,
            Err(LoadError::MapFailed(AddressSpaceError::MmuMapError(MmuError::AlreadyMapped)))
        ),
        "expected MapFailed(AlreadyMapped), got {result:?}"
    );
    assert_eq!(
        pmm.stats().free_frames,
        pmm_before - 1,
        "rollback must free all leaf frames; only the root leaks"
    );
}

#[test]
fn rolls_back_on_cap_map_failure_mid_stack_loop() {
    let (mut table, parent_cap, mut mmu, mut arena, mut pmm) = fixture_with_failing_mmu(32, 3);
    let pmm_before = pmm.stats().free_frames;
    let mut fills: Vec<PageFill> = Vec::new();

    let result = load_image(
        &[0xAAu8; 3 * PAGE_SIZE], IMAGE_PA, &mut pmm, &mut mmu, &mut table, &mut arena,
        parent_cap, CapRights::empty(), VirtAddr(0x0080_0000), 2, &mut fills,
    );

    assert!(
        matches!(
            result,
            Err(LoadError::MapFailed(AddressSpaceError::MmuMapError(MmuError::AlreadyMapped)))
        ),
        "expected MapFailed(AlreadyMapped), got {result:?}"
    );
    assert_eq!(
        pmm.stats().free_frames,
        pmm_before - 1,
        "rollback must free all leaf frames; only the root leaks"
    );
}

#[test]
fn rolls_back_on_pmm_exhausted_mid_image_loop() {
    let (mut table, parent_cap, mut mmu, mut arena, mut pmm) = fixture(32);
    let pmm_before = pmm.stats().free_frames;
    pmm.force_alloc_failure_after(2);
    let mut fills: Vec<PageFill> = Vec::new();

    let result = load_image(
        &[0xAAu8; 4 * PAGE_SIZE], IMAGE_PA, &mut pmm, &mut mmu, &mut table, &mut arena,
        parent_cap, CapRights::empty(), VirtAddr(0x0080_0000), 2, &mut fills,
    );

    assert_eq!(result, Err(LoadError::OutOfFrames));
    assert_eq!(
        pmm.stats().free_frames,
        pmm_before - 1,
        "OutOfFrames rollback must free the one committed image leaf; only the root leaks"
    );
}

#[test]
fn rolls_back_on_misaligned_image_base_va() {
    let (mut table, parent_cap, mut mmu, mut arena, mut pmm) = fixture(32);
    let pmm_before = pmm.stats().free_frames;
    let mut fills: Vec<PageFill> = Vec::new();

    let result = load_image(
        &[0xAAu8; 2 * PAGE_SIZE], IMAGE_PA, &mut pmm, &mut mmu, &mut table, &mut arena,
        parent_cap, CapRights::empty(), VirtAddr(0x0080_0001), 2, &mut fills,
    );

    assert!(
        matches!(
            result,
            Err(LoadError::MapFailed(AddressSpaceError::MmuMapError(MmuError::MisalignedAddress)))
        ),
        "expected MapFailed(MisalignedAddress), got {result:?}"
    );
    assert_eq!(pmm.stats().free_frames, pmm_before - 1);
}

#[test]
fn failed_load_leaves_no_capability_and_no_mapping() {
    let (mut table, parent_cap, mut mmu, mut arena, mut pmm) = fixture_with_failing_mmu(32, 3);
    let mut fills: Vec<PageFill> = Vec::new();
    let result = load_image(
        &[0xAAu8; 3 * PAGE_SIZE], IMAGE_PA, &mut pmm, &mut mmu, &mut table, &mut arena,
        parent_cap, CapRights::empty(), VirtAddr(0x0080_0000), 2, &mut fills,
    );
    assert!(result.is_err());
    // The only capability left is the parent; the leaked address space
    // (slot 1) holds no mapping.
    assert!(table.lookup(parent_cap).is_ok());
    let leaked = get_address_space(&arena, AddressSpaceHandle::test_handle(1, 0)).unwrap();
    assert_eq!(leaked.inner().mapping_count(), 0);
}

#[test]
fn loaded_image_struct_literal_round_trips_through_copy_and_eq() {
    let cap = fresh_cap_handle();
    let img = LoadedImage {
        as_cap: cap,
        entry_va: VirtAddr(0x0080_0000),
        stack_top_va: VirtAddr(0x0090_0000),
        image_bytes: 4096,
        stack_bytes: 65_536,
    };
    let copy = img;
    assert_eq!(img, copy);
    assert_eq!(img.as_cap, cap);
    assert_eq!(img.entry_va, VirtAddr(0x0080_0000));
    assert_eq!(img.stack_top_va, VirtAddr(0x0090_0000));
    assert_eq!(img.image_bytes, 4096);
    assert_eq!(img.stack_bytes, 65_536);
}

#[test]
fn loaded_image_distinguishes_different_field_values() {
    let cap = fresh_cap_handle();
    let a = LoadedImage {
        as_cap: cap,
        entry_va: VirtAddr(0x0080_0000),
        stack_top_va: VirtAddr(0x0090_0000),
        image_bytes: 4096,
        stack_bytes: 65_536,
    };
    let b = LoadedImage { stack_bytes: 131_072, ..a };
    assert_ne!(a, b);
}

#[test]
fn load_error_variants_pattern_match_exhaustively() {
    let cases = [
        LoadError::InvalidImage,
        LoadError::InvalidStackSize,
        LoadError::InvalidParentCap(CapError::InvalidHandle),
        LoadError::FrameBudgetExceeded { needed: 100, available: 50 },
        LoadError::ImageOverlapsAllocatableMemory,
        LoadError::AddressSpaceCreationFailed(AddressSpaceError::OutOfFrames),
        LoadError::OutOfFrames,
        LoadError::MapFailed(AddressSpaceError::StaleHandle),
    ];
    let mut seen = 0;
    for err in cases {
        match err {
            LoadError::InvalidImage
            | LoadError::InvalidStackSize
            | LoadError::InvalidParentCap(_)
            | LoadError::FrameBudgetExceeded { .. }
            | LoadError::ImageOverlapsAllocatableMemory
            | LoadError::AddressSpaceCreationFailed(_)
            | LoadError::OutOfFrames
            | LoadError::MapFailed(_) => seen += 1,
            _ => panic!("unexpected variant {err:?}"),
        }
    }
    assert_eq!(seen, 8);
}

#[test]
fn load_error_variants_are_distinct() {
    assert_ne!(LoadError::InvalidImage, LoadError::InvalidStackSize);
    assert_ne!(LoadError::InvalidImage, LoadError::OutOfFrames);
    assert_ne!(LoadError::InvalidStackSize, LoadError::OutOfFrames);
    assert_ne!(LoadError::ImageOverlapsAllocatableMemory, LoadError::OutOfFrames);
    assert_ne!(LoadError::ImageOverlapsAllocatableMemory, LoadError::InvalidImage);
    assert_ne!(
        LoadError::InvalidParentCap(CapError::InvalidHandle),
        LoadError::InvalidParentCap(CapError::WrongKind),
    );
    assert_ne!(
        LoadError::FrameBudgetExceeded { needed: 100, available: 50 },
        LoadError::FrameBudgetExceeded { needed: 200, available: 50 },
    );
    assert_ne!(
        LoadError::AddressSpaceCreationFailed(AddressSpaceError::OutOfFrames),
        LoadError::AddressSpaceCreationFailed(AddressSpaceError::StaleHandle),
    );
    assert_ne!(
        LoadError::MapFailed(AddressSpaceError::StaleHandle),
        LoadError::MapFailed(AddressSpaceError::OutOfFrames),
    );
}

#[test]
fn load_error_frame_budget_exceeded_fields_round_trip() {
    let err = LoadError::FrameBudgetExceeded { needed: 1024, available: 8 };
    match err {
        LoadError::FrameBudgetExceeded { needed, available } => {
            assert_eq!(needed, 1024);
            assert_eq!(available, 8);
        }
        other => panic!("expected FrameBudgetExceeded, got {other:?}"),
    }
}

#[test]
fn rollback_helper_zero_pages_only_drops_cap() {
    let (mut table, parent_cap, mut mmu, mut arena, mut pmm) = fixture(32);
    let new_cap = cap_create_address_space(
        &mut table, parent_cap, CapRights::empty(), &mmu, &mut pmm, &mut arena,
    )
    .unwrap();
    assert!(table.lookup(new_cap).is_ok());

    rollback(
        &mut table, &mut pmm, &mut mmu, &mut arena, new_cap, VirtAddr(0x0080_0000),
        VirtAddr(0x0090_0000), 0, 0,
    );

    assert!(matches!(table.lookup(new_cap), Err(CapError::InvalidHandle)));
}

#[test]
fn applied_fills_give_each_frame_its_page_then_zeros() {
    // Two image pages (the second partial) and one stack page; a buffer
    // poisoned with 0xEE stands for the RAM behind the PMM's extent.
    let (mut table, parent_cap, mut mmu, mut arena, mut pmm) = fixture(32);
    let image: Vec<u8> = (0..PAGE_SIZE + 100).map(|i| (i % 251) as u8 + 1).collect();
    let mut ram = vec![0xEEu8; 32 * PAGE_SIZE];
    let mut fills: Vec<PageFill> = Vec::new();

    let loaded = load_image(
        &image, IMAGE_PA, &mut pmm, &mut mmu, &mut table, &mut arena, parent_cap,
        CapRights::empty(), VirtAddr(0x0080_0000), 1, &mut fills,
    )
    .expect("load must succeed");
    assert_eq!(loaded.image_bytes, PAGE_SIZE + 100);
    assert_eq!(fills.len(), 3);

    for fill in &fills {
        let off = fill.frame.as_usize() - EXTENT_BASE;
        write_page_fill(&mut ram[off..off + PAGE_SIZE], &image, fill);
    }
    let page_of = |fill: &PageFill| {
        let off = fill.frame.as_usize() - EXTENT_BASE;
        ram[off..off + PAGE_SIZE].to_vec()
    };
    // Image page 0: the first page of the image.
    assert_eq!(page_of(&fills[0]), image[..PAGE_SIZE].to_vec());
    // Image page 1: the last 100 bytes, then zeros.
    let second = page_of(&fills[1]);
    assert_eq!(&second[..100], &image[PAGE_SIZE..]);
    assert!(second[100..].iter().all(|b| *b == 0));
    // Stack page: all zero.
    assert!(page_of(&fills[2]).iter().all(|b| *b == 0));
    // The three frames are distinct.
    assert_ne!(fills[0].frame, fills[1].frame);
    assert_ne!(fills[0].frame, fills[2].frame);
    assert_ne!(fills[1].frame, fills[2].frame);
}

#[test]
fn write_page_fill_copies_the_named_bytes_then_zeros() {
    let image: Vec<u8> = (0..300).map(|i| i as u8).collect();
    let mut page = vec![0x55u8; PAGE_SIZE];
    let fill = PageFill { frame: frame(0x4100_0000), image_offset: 10, len: 5 };
    write_page_fill(&mut page, &image, &fill);
    assert_eq!(&page[..5], &[10, 11, 12, 13, 14]);
    assert!(page[5..].iter().all(|b| *b == 0));
}
