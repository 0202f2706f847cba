use tyrne::bsp::qemu_virt::{
    check_map_request, check_unmap_request, leaf_entry_step, table_entry_step, tlbi_va_operand, va_index, LeafStep,
    QemuVirtAddressSpace, QemuVirtMmu, TableStep, VA_L0_SHIFT, VA_L1_SHIFT, VA_L2_SHIFT,
    VA_L3_SHIFT,
};
use tyrne::hal::mmu::{MappingFlags, MmuError, PhysAddr, PhysFrame, VirtAddr};
use tyrne::hal::vmsav8::{flags_to_descriptor_bits, page_descriptor, table_descriptor};

fn frame(addr: usize) -> PhysFrame {
    PhysFrame::from_aligned(PhysAddr(addr)).unwrap()
}

#[test]
fn va_index_splits_the_four_levels() {
    // L0 = 1, L1 = 2, L2 = 3, L3 = 4, offset 0x123.
    let va = VirtAddr((1 << 39) | (2 << 30) | (3 << 21) | (4 << 12) | 0x123);
    assert_eq!(va_index(va, VA_L0_SHIFT), 1);
    assert_eq!(va_index(va, VA_L1_SHIFT), 2);
    assert_eq!(va_index(va, VA_L2_SHIFT), 3);
    assert_eq!(va_index(va, VA_L3_SHIFT), 4);
    assert_eq!(va_index(VirtAddr(usize::MAX), VA_L3_SHIFT), 511);
}

#[test]
fn table_step_descends_allocates_or_fails() {
    let t = table_descriptor(0x4007_F000);
    assert_eq!(table_entry_step(t, false), TableStep::Descend(frame(0x4007_F000)));
    assert_eq!(table_entry_step(t, true), TableStep::Descend(frame(0x4007_F000)));
    assert_eq!(table_entry_step(0, false), TableStep::AllocateTable);
    assert_eq!(table_entry_step(0, true), TableStep::Fail(MmuError::NotMapped));
    // A valid block descriptor (bit 1 clear) blocks the walk.
    assert_eq!(table_entry_step(0x4020_0401, false), TableStep::Fail(MmuError::BlockMapped));
    assert_eq!(table_entry_step(0x4020_0401, true), TableStep::Fail(MmuError::BlockMapped));
}

#[test]
fn leaf_step_writes_page_descriptor_and_unmap_returns_frame() {
    let flags = MappingFlags::user() | MappingFlags::write();
    let pa = frame(0x4040_1000);
    let LeafStep::Write { descriptor, frame: returned } = leaf_entry_step(0, pa, flags, false) else {
        panic!("map over an empty entry must write");
    };
    assert_eq!(returned, pa);
    assert_eq!(descriptor, page_descriptor(0x4040_1000, flags_to_descriptor_bits(flags)));

    assert_eq!(leaf_entry_step(descriptor, pa, flags, false), LeafStep::Fail(MmuError::AlreadyMapped));
    assert_eq!(
        leaf_entry_step(descriptor, frame(0), MappingFlags::empty(), true),
        LeafStep::Write { descriptor: 0, frame: pa }
    );
    assert_eq!(
        leaf_entry_step(0, frame(0), MappingFlags::empty(), true),
        LeafStep::Fail(MmuError::NotMapped)
    );
}

#[test]
fn map_request_checks_alignment_then_device_execute() {
    assert_eq!(check_map_request(VirtAddr(0x1001), MappingFlags::empty()), Err(MmuError::MisalignedAddress));
    assert_eq!(
        check_map_request(VirtAddr(0x1000), MappingFlags::device() | MappingFlags::execute()),
        Err(MmuError::InvalidFlags)
    );
    assert_eq!(check_map_request(VirtAddr(0x1000), MappingFlags::device() | MappingFlags::write()), Ok(()));
}

#[test]
fn tlbi_operand_is_the_page_number() {
    assert_eq!(tlbi_va_operand(VirtAddr(0x12_3456)), 0x123);
    assert_eq!(tlbi_va_operand(VirtAddr(usize::MAX)), 0x0000_FFFF_FFFF_FFFF);
}

#[test]
fn address_space_keeps_its_root() {
    let root = frame(0x4008_0000);
    assert_eq!(QemuVirtAddressSpace::from_existing_root(root).root(), root);
    let _mmu = QemuVirtMmu::new();
}

use std::collections::HashMap;
use tyrne::bsp::qemu_virt::{PageWalk, WalkRequest};

/// Translation tables held in a map from (table base, index) to entry.
struct SimTables {
    entries: HashMap<(usize, usize), u64>,
    next_free: usize,
    allocations: usize,
}

impl SimTables {
    fn new() -> Self {
        Self { entries: HashMap::new(), next_free: 0x5000_0000, allocations: 0 }
    }

    fn read(&self, table: PhysFrame, index: usize) -> u64 {
        *self.entries.get(&(table.as_usize(), index)).unwrap_or(&0)
    }

    fn run(&mut self, mut walk: PageWalk, mut req: WalkRequest, can_alloc: bool) -> Result<PhysFrame, MmuError> {
        loop {
            req = match req {
                WalkRequest::Read { table, index } => walk.entry_read(self.read(table, index)),
                WalkRequest::NewTable => {
                    let f = if can_alloc {
                        self.allocations += 1;
                        self.next_free += 0x1000;
                        Some(frame(self.next_free))
                    } else {
                        None
                    };
                    walk.table_allocated(f)
                }
                WalkRequest::LinkThenRead { table, index, value, next_table, next_index } => {
                    self.entries.insert((table.as_usize(), index), value);
                    walk.entry_read(self.read(next_table, next_index))
                }
                WalkRequest::WriteAndFinish { table, index, value, result } => {
                    self.entries.insert((table.as_usize(), index), value);
                    return Ok(result);
                }
                WalkRequest::Fail(e) => return Err(e),
            };
        }
    }
}

#[test]
fn page_walk_maps_then_unmaps_through_fresh_tables() {
    let root = frame(0x4000_0000);
    let va = VirtAddr(0x0080_3000);
    let pa = frame(0x4040_1000);
    let flags = MappingFlags::user() | MappingFlags::write();
    let mut mem = SimTables::new();

    let (walk, req) = PageWalk::start_map(root, va, pa, flags);
    assert_eq!(mem.run(walk, req, true), Ok(pa));
    assert_eq!(mem.allocations, 3, "a fresh tree needs level-1, level-2 and level-3 tables");

    // Mapping the same address again reaches the same leaf and fails.
    let (walk, req) = PageWalk::start_map(root, va, pa, flags);
    assert_eq!(mem.run(walk, req, true), Err(MmuError::AlreadyMapped));
    assert_eq!(mem.allocations, 3, "existing tables are reused");

    let (walk, req) = PageWalk::start_unmap(root, va);
    assert_eq!(mem.run(walk, req, false), Ok(pa));
    let (walk, req) = PageWalk::start_unmap(root, va);
    assert_eq!(mem.run(walk, req, false), Err(MmuError::NotMapped));
}

#[test]
fn page_walk_reports_out_of_frames_and_unmapped_trees() {
    let root = frame(0x4000_0000);
    let mut mem = SimTables::new();
    let (walk, req) = PageWalk::start_map(root, VirtAddr(0x1000), frame(0x2000), MappingFlags::empty());
    assert_eq!(mem.run(walk, req, false), Err(MmuError::OutOfFrames));
    let (walk, req) = PageWalk::start_unmap(root, VirtAddr(0x1000));
    assert_eq!(mem.run(walk, req, false), Err(MmuError::NotMapped));
}

#[test]
fn unmap_request_checks_alignment() {
    assert_eq!(check_unmap_request(VirtAddr(0x1001)), Err(MmuError::MisalignedAddress));
    assert_eq!(check_unmap_request(VirtAddr(0x1000)), Ok(()));
}
