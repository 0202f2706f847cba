//! QEMU `virt` MMU: the decisions of the `VMSAv8` page-table walk (4 KiB
//! granule, 48-bit virtual addresses, four levels).
//!
//! A walk reads one entry per level. At each table level
//! [`table_entry_step`] says whether to descend, to install a fresh table
//! or to stop; at the last level [`leaf_entry_step`] says what to write
//! and what to return. The reads and writes themselves, and the system
//! register and TLB instructions, are performed by the board glue.

use vstd::prelude::*;
use crate::hal::mmu::{
    MappingFlags, MmuError, PhysAddr, PhysFrame, VirtAddr, DEVICE_BIT, EXECUTE_BIT, PAGE_SIZE,
};
use crate::hal::vmsav8::{
    descriptor_bits_of, flags_to_descriptor_bits, leaf_attrs_match, page_descriptor,
    table_descriptor, PAGE_OA_MASK_L3, PAGE_ZERO_MASK, TABLE_NLA_MASK,
};

verus! {

/// Shift of the level-0 index (VA bits 47:39).
pub const VA_L0_SHIFT: u32 = 39;
/// Shift of the level-1 index (VA bits 38:30).
pub const VA_L1_SHIFT: u32 = 30;
/// Shift of the level-2 index (VA bits 29:21).
pub const VA_L2_SHIFT: u32 = 21;
/// Shift of the level-3 index (VA bits 20:12).
pub const VA_L3_SHIFT: u32 = 12;
/// Mask of one 9-bit table index.
pub const VA_INDEX_MASK: u64 = 0x1FF;
/// Number of 8-byte entries in a 4 KiB table.
pub const ENTRIES_PER_TABLE: usize = PAGE_SIZE / 8;

/// Address space of the QEMU `virt` MMU: its root (level-0) table.
#[derive(Copy, Clone, Debug, PartialEq, Eq, Structural)]
pub struct QemuVirtAddressSpace {
    root: PhysFrame,
}

impl QemuVirtAddressSpace {
    /// The root table frame.
    pub closed spec fn spec_root(self) -> PhysFrame {
        self.root
    }

    /// The root table frame.
    pub fn root(self) -> (r: PhysFrame)
        ensures
            r == self.spec_root(),
    {
        self.root
    }

    /// Name the translation tables already rooted at `root` (for the
    /// tables that are live at boot); nothing is read or written.
    pub fn from_existing_root(root: PhysFrame) -> (r: Self)
        ensures
            r.spec_root() == root,
    {
        QemuVirtAddressSpace { root }
    }
}

/// The QEMU `virt` MMU. It has no state of its own: the translation
/// tables live in physical memory.
#[derive(Copy, Clone, Debug)]
pub struct QemuVirtMmu;

impl QemuVirtMmu {
    /// The MMU handle.
    pub fn new() -> (r: Self) {
        QemuVirtMmu
    }
}

/// The 9-bit table index of `va` at the level whose index starts at bit
/// `shift`.
pub fn va_index(va: VirtAddr, shift: u32) -> (r: usize)
    requires
        shift < 64,
    ensures
        r as u64 == ((va.0 as u64) >> (shift as u64)) & VA_INDEX_MASK,
        r < ENTRIES_PER_TABLE,
{
    let v: u64 = va.0 as u64;
    let idx: u64 = (v >> (shift as u64)) & VA_INDEX_MASK;
    assert(idx < 512) by (bit_vector)
        requires
            idx == (v >> (shift as u64)) & 0x1FFu64,
    ;
    idx as usize
}

/// What a table-level entry tells the walk to do.
#[derive(Copy, Clone, Debug, PartialEq, Eq, Structural)]
pub enum TableStep {
    /// The entry points at the next-level table in this frame.
    Descend(PhysFrame),
    /// The entry is empty: install a fresh table and descend into it.
    AllocateTable,
    /// Stop with this error.
    Fail(MmuError),
}

/// Decide from a table-level entry: a valid table descriptor descends to
/// the next-level address it holds; a valid block descriptor means the
/// address is covered by a block ([`MmuError::BlockMapped`]); an
/// invalid entry is [`MmuError::NotMapped`] when unmapping and needs a
/// fresh table when mapping.
pub fn table_entry_step(existing: u64, unmap: bool) -> (r: TableStep)
    ensures
        existing & 1 != 0 && existing & 2 == 0 ==> r == TableStep::Fail(MmuError::BlockMapped),
        existing & 1 != 0 && existing & 2 != 0 ==> (r matches TableStep::Descend(f) && f.base()
            == (existing & TABLE_NLA_MASK) as usize),
        existing & 1 == 0 && unmap ==> r == TableStep::Fail(MmuError::NotMapped),
        existing & 1 == 0 && !unmap ==> r == TableStep::AllocateTable,
{
    if existing & 1 != 0 {
        if existing & 2 == 0 {
            return TableStep::Fail(MmuError::BlockMapped);
        }
        let next: u64 = existing & TABLE_NLA_MASK;
        assert((next as usize) % 4096 == 0) by (bit_vector)
            requires
                next == existing & 0x0000_FFFF_FFFF_F000u64,
        ;
        match PhysFrame::from_aligned(PhysAddr(next as usize)) {
            Some(f) => TableStep::Descend(f),
            None => TableStep::Fail(MmuError::MisalignedAddress),
        }
    } else if unmap {
        TableStep::Fail(MmuError::NotMapped)
    } else {
        TableStep::AllocateTable
    }
}

/// What the last-level entry tells the walk to do.
#[derive(Copy, Clone, Debug, PartialEq, Eq, Structural)]
pub enum LeafStep {
    /// Write `descriptor` to the entry and return `frame`.
    Write {
        /// The new entry value.
        descriptor: u64,
        /// The frame the operation returns.
        frame: PhysFrame,
    },
    /// Stop with this error; the entry is left as it is.
    Fail(MmuError),
}

/// Decide from the last-level entry. Unmapping a valid entry clears it
/// and returns the frame it mapped; mapping over an empty entry writes a
/// page descriptor for `pa` with `flags`. Unmapping an empty entry is
/// [`MmuError::NotMapped`]; mapping over a valid one is
/// [`MmuError::AlreadyMapped`].
pub fn leaf_entry_step(existing: u64, pa: PhysFrame, flags: MappingFlags, unmap: bool) -> (r:
    LeafStep)
    ensures
        unmap && existing & 1 == 0 ==> r == LeafStep::Fail(MmuError::NotMapped),
        unmap && existing & 1 != 0 ==> (r matches LeafStep::Write { descriptor, frame }
            && descriptor == 0 && frame.base() == (existing & PAGE_OA_MASK_L3) as usize),
        !unmap && existing & 1 != 0 ==> r == LeafStep::Fail(MmuError::AlreadyMapped),
        !unmap && existing & 1 == 0 ==> (r matches LeafStep::Write { descriptor, frame } && {
            &&& frame == pa
            &&& descriptor & 3 == 3
            &&& leaf_attrs_match(descriptor, descriptor_bits_of(flags@))
            &&& descriptor & PAGE_OA_MASK_L3 == (pa.base() as u64) & PAGE_OA_MASK_L3
            &&& descriptor & PAGE_ZERO_MASK == 0
        }),
{
    if unmap {
        if existing & 1 == 0 {
            return LeafStep::Fail(MmuError::NotMapped);
        }
        let leaf: u64 = existing & PAGE_OA_MASK_L3;
        assert((leaf as usize) % 4096 == 0) by (bit_vector)
            requires
                leaf == existing & 0x0000_FFFF_FFFF_F000u64,
        ;
        match PhysFrame::from_aligned(PhysAddr(leaf as usize)) {
            Some(frame) => LeafStep::Write { descriptor: 0, frame },
            None => LeafStep::Fail(MmuError::MisalignedAddress),
        }
    } else {
        if existing & 1 != 0 {
            return LeafStep::Fail(MmuError::AlreadyMapped);
        }
        let bits = flags_to_descriptor_bits(flags);
        let d = page_descriptor(pa.as_usize() as u64, bits);
        assert(d & 3 == 3) by (bit_vector)
            requires
                d & 1 == 1,
                d & 2 == 2,
        ;
        LeafStep::Write { descriptor: d, frame: pa }
    }
}

/// Shift of the table index at `level` (0 to 3).
pub open spec fn level_shift(level: int) -> u64 {
    (39 - 9 * level) as u64
}

/// The table index of `va` at `level`.
pub open spec fn level_index(va: VirtAddr, level: int) -> usize {
    (((va.0 as u64) >> level_shift(level)) & VA_INDEX_MASK) as usize
}

/// The next thing a [`PageWalk`] needs done.
#[derive(Copy, Clone, Debug, PartialEq, Eq, Structural)]
pub enum WalkRequest {
    /// Read entry `index` of `table` and pass it to [`PageWalk::entry_read`].
    Read {
        /// The table to read.
        table: PhysFrame,
        /// The entry within it.
        index: usize,
    },
    /// Provide a zero-filled frame for a new table (or `None`) to
    /// [`PageWalk::table_allocated`].
    NewTable,
    /// Write `value` to entry `index` of `table` (linking a new table),
    /// then read entry `next_index` of `next_table` and pass it to
    /// [`PageWalk::entry_read`].
    LinkThenRead {
        /// The table that receives the link.
        table: PhysFrame,
        /// The entry within it.
        index: usize,
        /// The table descriptor to write.
        value: u64,
        /// The newly linked table.
        next_table: PhysFrame,
        /// The entry to read in it.
        next_index: usize,
    },
    /// Write `value` to entry `index` of the last-level `table`; the walk
    /// then succeeds with `result`.
    WriteAndFinish {
        /// The last-level table.
        table: PhysFrame,
        /// The entry within it.
        index: usize,
        /// The new entry value.
        value: u64,
        /// The frame the operation returns.
        result: PhysFrame,
    },
    /// The walk fails with this error.
    Fail(MmuError),
}

/// A page-table walk for one `map` or `unmap` of a virtual address: it
/// descends from the root one level per entry read, asks for fresh tables
/// where a map finds none, and ends with the last-level decision.
pub struct PageWalk {
    va: VirtAddr,
    pa: PhysFrame,
    flags: MappingFlags,
    unmap: bool,
    level: u32,
    table: PhysFrame,
}

impl PageWalk {
    #[verifier::type_invariant]
    closed spec fn level_in_range(self) -> bool {
        self.level <= 3
    }

    /// The level whose entry is read next.
    pub closed spec fn spec_level(self) -> int {
        self.level as int
    }

    /// The table of that level.
    pub closed spec fn spec_table(self) -> PhysFrame {
        self.table
    }

    /// The address being walked.
    pub closed spec fn spec_va(self) -> VirtAddr {
        self.va
    }

    /// The frame a map installs.
    pub closed spec fn spec_pa(self) -> PhysFrame {
        self.pa
    }

    /// The flags a map installs.
    pub closed spec fn spec_flags(self) -> MappingFlags {
        self.flags
    }

    /// `true` for an unmap walk.
    pub closed spec fn spec_unmap(self) -> bool {
        self.unmap
    }

    /// Start a walk from `root` for mapping `va` to `pa` with `flags`; the
    /// first request reads the level-0 entry.
    pub fn start_map(root: PhysFrame, va: VirtAddr, pa: PhysFrame, flags: MappingFlags) -> (r: (
        Self,
        WalkRequest,
    ))
        ensures
            r.0.spec_level() == 0,
            r.0.spec_table() == root,
            r.0.spec_va() == va,
            r.0.spec_pa() == pa,
            r.0.spec_flags() == flags,
            !r.0.spec_unmap(),
            r.1 == (WalkRequest::Read { table: root, index: level_index(va, 0) }),
    {
        let index = va_index(va, VA_L0_SHIFT);
        (PageWalk { va, pa, flags, unmap: false, level: 0, table: root }, WalkRequest::Read {
            table: root,
            index,
        })
    }

    /// Start a walk from `root` for unmapping `va`; the first request
    /// reads the level-0 entry.
    pub fn start_unmap(root: PhysFrame, va: VirtAddr) -> (r: (Self, WalkRequest))
        ensures
            r.0.spec_level() == 0,
            r.0.spec_table() == root,
            r.0.spec_va() == va,
            r.0.spec_unmap(),
            r.1 == (WalkRequest::Read { table: root, index: level_index(va, 0) }),
    {
        let index = va_index(va, VA_L0_SHIFT);
        (
            PageWalk { va, pa: root, flags: MappingFlags::empty(), unmap: true, level: 0, table: root },
            WalkRequest::Read { table: root, index },
        )
    }

    /// Continue with the value of the entry the last request read.
    ///
    /// Above the last level, [`table_entry_step`] decides: descend (and
    /// read the next level's entry), ask for a new table, or fail. At the
    /// last level, [`leaf_entry_step`] decides what to write, or fails.
    pub fn entry_read(&mut self, existing: u64) -> (r: WalkRequest)
        ensures
            final(self).spec_va() == old(self).spec_va(),
            final(self).spec_pa() == old(self).spec_pa(),
            final(self).spec_flags() == old(self).spec_flags(),
            final(self).spec_unmap() == old(self).spec_unmap(),
            ({
                let w = *old(self);
                let unmap = w.spec_unmap();
                let valid = existing & 1 != 0;
                if w.spec_level() < 3 {
                    &&& valid && existing & 2 == 0 ==> r == WalkRequest::Fail(MmuError::BlockMapped)
                    &&& valid && existing & 2 != 0 ==> {
                        &&& final(self).spec_level() == w.spec_level() + 1
                        &&& final(self).spec_table().base() == (existing & TABLE_NLA_MASK) as usize
                        &&& r == (WalkRequest::Read {
                            table: final(self).spec_table(),
                            index: level_index(w.spec_va(), w.spec_level() + 1),
                        })
                    }
                    &&& !valid && unmap ==> r == WalkRequest::Fail(MmuError::NotMapped)
                    &&& !valid && !unmap ==> r == WalkRequest::NewTable && *final(self) == w
                } else {
                    &&& unmap && !valid ==> r == WalkRequest::Fail(MmuError::NotMapped)
                    &&& unmap && valid ==> (r matches WalkRequest::WriteAndFinish {
                        table,
                        index,
                        value,
                        result,
                    } && table == w.spec_table() && index == level_index(w.spec_va(), 3)
                        && value == 0 && result.base() == (existing & PAGE_OA_MASK_L3) as usize)
                    &&& !unmap && valid ==> r == WalkRequest::Fail(MmuError::AlreadyMapped)
                    &&& !unmap && !valid ==> (r matches WalkRequest::WriteAndFinish {
                        table,
                        index,
                        value,
                        result,
                    } && table == w.spec_table() && index == level_index(w.spec_va(), 3)
                        && result == w.spec_pa() && value & 3 == 3 && leaf_attrs_match(
                        value,
                        descriptor_bits_of(w.spec_flags()@),
                    ) && value & PAGE_OA_MASK_L3 == (w.spec_pa().base() as u64) & PAGE_OA_MASK_L3
                        && value & PAGE_ZERO_MASK == 0)
                }
            }),
    {
        proof {
            use_type_invariant(&*self);
        }
        if self.level < 3 {
            match table_entry_step(existing, self.unmap) {
                TableStep::Descend(next) => {
                    self.level = self.level + 1;
                    self.table = next;
                    let index = va_index(self.va, 39 - 9 * self.level);
                    WalkRequest::Read { table: next, index }
                },
                TableStep::AllocateTable => WalkRequest::NewTable,
                TableStep::Fail(e) => WalkRequest::Fail(e),
            }
        } else {
            let index = va_index(self.va, VA_L3_SHIFT);
            match leaf_entry_step(existing, self.pa, self.flags, self.unmap) {
                LeafStep::Write { descriptor, frame } => WalkRequest::WriteAndFinish {
                    table: self.table,
                    index,
                    value: descriptor,
                    result: frame,
                },
                LeafStep::Fail(e) => WalkRequest::Fail(e),
            }
        }
    }

    /// Continue with the frame provided for a new table: link it below the
    /// current table and descend into it; without a frame the walk fails
    /// with [`MmuError::OutOfFrames`].
    pub fn table_allocated(&mut self, frame: Option<PhysFrame>) -> (r: WalkRequest)
        requires
            old(self).spec_level() < 3,
        ensures
            final(self).spec_va() == old(self).spec_va(),
            final(self).spec_pa() == old(self).spec_pa(),
            final(self).spec_flags() == old(self).spec_flags(),
            final(self).spec_unmap() == old(self).spec_unmap(),
            frame is None ==> r == WalkRequest::Fail(MmuError::OutOfFrames) && *final(self) == *old(
                self,
            ),
            frame matches Some(f) ==> {
                &&& final(self).spec_level() == old(self).spec_level() + 1
                &&& final(self).spec_table() == f
                &&& r matches WalkRequest::LinkThenRead {
                    table,
                    index,
                    value,
                    next_table,
                    next_index,
                } && table == old(self).spec_table() && index == level_index(
                    old(self).spec_va(),
                    old(self).spec_level(),
                ) && next_table == f && next_index == level_index(
                    old(self).spec_va(),
                    old(self).spec_level() + 1,
                ) && value & 3 == 3 && value & TABLE_NLA_MASK == (f.base() as u64) & TABLE_NLA_MASK
                    && value & !(3u64 | TABLE_NLA_MASK) == 0
            },
    {
        match frame {
            None => WalkRequest::Fail(MmuError::OutOfFrames),
            Some(f) => {
                let index = va_index(self.va, 39 - 9 * self.level);
                let value = table_descriptor(f.as_usize() as u64);
                assert(value & 3 == 3) by (bit_vector)
                    requires
                        value & 1 == 1,
                        value & 2 == 2,
                ;
                let parent = self.table;
                self.level = self.level + 1;
                self.table = f;
                let next_index = va_index(self.va, 39 - 9 * self.level);
                WalkRequest::LinkThenRead { table: parent, index, value, next_table: f, next_index }
            },
        }
    }
}

/// The checks `map` runs before walking: the address must be
/// page-aligned, and device memory cannot be executable.
pub fn check_map_request(va: VirtAddr, flags: MappingFlags) -> (r: Result<(), MmuError>)
    ensures
        va.0 % PAGE_SIZE != 0 ==> r == Err::<(), MmuError>(MmuError::MisalignedAddress),
        va.0 % PAGE_SIZE == 0 && flags@ & DEVICE_BIT == DEVICE_BIT && flags@ & EXECUTE_BIT
            == EXECUTE_BIT ==> r == Err::<(), MmuError>(MmuError::InvalidFlags),
        r is Ok <==> va.0 % PAGE_SIZE == 0 && !(flags@ & DEVICE_BIT == DEVICE_BIT && flags@
            & EXECUTE_BIT == EXECUTE_BIT),
{
    if va.0 % PAGE_SIZE != 0 {
        return Err(MmuError::MisalignedAddress);
    }
    if flags.contains(MappingFlags::device()) && flags.contains(MappingFlags::execute()) {
        return Err(MmuError::InvalidFlags);
    }
    Ok(())
}

/// The check `unmap` runs before walking: the address must be
/// page-aligned.
pub fn check_unmap_request(va: VirtAddr) -> (r: Result<(), MmuError>)
    ensures
        va.0 % PAGE_SIZE != 0 ==> r == Err::<(), MmuError>(MmuError::MisalignedAddress),
        va.0 % PAGE_SIZE == 0 ==> r == Ok::<(), MmuError>(()),
{
    if va.0 % PAGE_SIZE != 0 {
        Err(MmuError::MisalignedAddress)
    } else {
        Ok(())
    }
}

/// The operand of a by-address TLB invalidation: the page number of `va`
/// (bits 55:12 shifted down, kept to 48 bits).
pub fn tlbi_va_operand(va: VirtAddr) -> (r: u64)
    ensures
        r == ((va.0 as u64) >> 12u64) & 0x0000_FFFF_FFFF_FFFF,
{
    ((va.0 as u64) >> 12u64) & 0x0000_FFFF_FFFF_FFFF
}

/// Unmapping undoes mapping at the last level: the page descriptor a map
/// writes for a frame below 2^48 (valid, page, output address of the
/// frame) is a valid entry, so an unmap of it clears the entry and returns
/// exactly that frame; an unmap of the cleared entry then finds it empty
/// ([`MmuError::NotMapped`]).
pub proof fn law_unmap_returns_mapped_frame(pa: PhysFrame, d: u64)
    requires
        (pa.base() as u64) < 0x0001_0000_0000_0000,
        pa.base() % PAGE_SIZE == 0,
        d & 3 == 3,
        d & PAGE_OA_MASK_L3 == (pa.base() as u64) & PAGE_OA_MASK_L3,
    ensures
        d & 1 != 0,
        (d & PAGE_OA_MASK_L3) as usize == pa.base(),
        0u64 & 1 == 0,
{
    let b = pa.base() as u64;
    assert(b & 0x0000_FFFF_FFFF_F000u64 == b) by (bit_vector)
        requires
            b < 0x0001_0000_0000_0000u64,
            b % 4096 == 0,
    ;
    assert(d & 1 != 0) by (bit_vector)
        requires
            d & 3 == 3,
    ;
    assert(0u64 & 1 == 0) by (bit_vector);
}

/// Entry `index` of the table in `table`, in a model of physical memory
/// that maps (table base, index) to the entry's value; an entry never
/// written holds zero.
pub open spec fn entry_at(mem: Map<(usize, usize), u64>, table: PhysFrame, index: usize) -> u64 {
    if mem.contains_key((table.base(), index)) {
        mem[(table.base(), index)]
    } else {
        0
    }
}

/// What a successful map walk for `va` leaves in memory, going from
/// `before` to `after`, with `tables` the tables it went through (the
/// root first): at each table level it either descended an existing
/// table descriptor, which it left as it was, or found the entry empty
/// and linked a new table there (the value
/// [`PageWalk::table_allocated`] asks to write); at the last level it
/// found the entry empty and wrote the page descriptor for `pa` (as
/// [`PageWalk::entry_read`] asks).
pub open spec fn map_walk_wrote(
    before: Map<(usize, usize), u64>,
    after: Map<(usize, usize), u64>,
    va: VirtAddr,
    pa: PhysFrame,
    tables: Seq<PhysFrame>,
) -> bool {
    &&& tables.len() == 4
    &&& forall|l: int|
        0 <= l < 3 ==> {
            let i = level_index(va, l);
            let e0 = entry_at(before, #[trigger] tables[l], i);
            let e1 = entry_at(after, tables[l], i);
            ||| (e0 & 1 != 0 && e0 & 2 != 0 && (e0 & TABLE_NLA_MASK) as usize == tables[l + 1].base()
                && e1 == e0)
            ||| (e0 & 1 == 0 && e1 & 3 == 3 && e1 & TABLE_NLA_MASK == (tables[l + 1].base() as u64)
                & TABLE_NLA_MASK)
        }
    &&& entry_at(before, tables[3], level_index(va, 3)) & 1 == 0
    &&& entry_at(after, tables[3], level_index(va, 3)) & 3 == 3
    &&& entry_at(after, tables[3], level_index(va, 3)) & PAGE_OA_MASK_L3 == (pa.base() as u64)
        & PAGE_OA_MASK_L3
}

/// An unmap walk for `va` over `mem` descends through `tables` (each table
/// level holds a valid table descriptor for the next table, which
/// [`table_entry_step`] descends) and reaches a last-level entry that is
/// valid for `frame` when `mapped`, empty otherwise.
pub open spec fn unmap_walk_finds(
    mem: Map<(usize, usize), u64>,
    va: VirtAddr,
    tables: Seq<PhysFrame>,
    mapped: bool,
    frame: PhysFrame,
) -> bool {
    &&& forall|l: int|
        0 <= l < 3 ==> {
            let e = entry_at(mem, #[trigger] tables[l], level_index(va, l));
            &&& e & 1 != 0
            &&& e & 2 != 0
            &&& (e & TABLE_NLA_MASK) as usize == tables[l + 1].base()
        }
    &&& mapped ==> entry_at(mem, tables[3], level_index(va, 3)) & 1 != 0 && (entry_at(
        mem,
        tables[3],
        level_index(va, 3),
    ) & PAGE_OA_MASK_L3) as usize == frame.base()
    &&& !mapped ==> entry_at(mem, tables[3], level_index(va, 3)) & 1 == 0
}

/// Unmapping undoes mapping over the whole walk: after a successful map
/// of `va` to `pa` (tables and `pa` below 2^48, the last-level table
/// distinct from the others), an unmap walk over the resulting tables
/// descends through the same tables and finds the leaf valid for exactly
/// `pa`, so it returns `pa`; once it has cleared that entry, a second
/// unmap walk descends the same way and finds the leaf empty
/// ([`MmuError::NotMapped`]).
pub proof fn law_unmap_walk_undoes_map_walk(
    before: Map<(usize, usize), u64>,
    after: Map<(usize, usize), u64>,
    va: VirtAddr,
    pa: PhysFrame,
    tables: Seq<PhysFrame>,
)
    requires
        map_walk_wrote(before, after, va, pa, tables),
        (pa.base() as u64) < 0x0001_0000_0000_0000,
        pa.base() % PAGE_SIZE == 0,
        forall|l: int|
            0 <= l < 4 ==> (#[trigger] tables[l].base() as u64) < 0x0001_0000_0000_0000
                && tables[l].base() % PAGE_SIZE == 0,
        forall|l: int| 0 <= l < 3 ==> #[trigger] tables[l].base() != tables[3].base(),
    ensures
        unmap_walk_finds(after, va, tables, true, pa),
        unmap_walk_finds(
            after.insert((tables[3].base(), level_index(va, 3)), 0u64),
            va,
            tables,
            false,
            pa,
        ),
{
    let cleared = after.insert((tables[3].base(), level_index(va, 3)), 0u64);
    assert forall|l: int| 0 <= l < 3 implies {
        let e = entry_at(after, #[trigger] tables[l], level_index(va, l));
        &&& e & 1 != 0
        &&& e & 2 != 0
        &&& (e & TABLE_NLA_MASK) as usize == tables[l + 1].base()
    } by {
        let e = entry_at(after, tables[l], level_index(va, l));
        let b = tables[l + 1].base() as u64;
        assert((tables[l + 1].base() as u64) < 0x0001_0000_0000_0000);
        if e & 3 == 3 && e & TABLE_NLA_MASK == b & TABLE_NLA_MASK {
            assert(e & 1 != 0 && e & 2 != 0 && e & 0x0000_FFFF_FFFF_F000u64 == b) by (bit_vector)
                requires
                    e & 3 == 3,
                    e & 0x0000_FFFF_FFFF_F000u64 == b & 0x0000_FFFF_FFFF_F000u64,
                    b < 0x0001_0000_0000_0000u64,
                    b % 4096 == 0,
            ;
        }
    }
    let d = entry_at(after, tables[3], level_index(va, 3));
    let pb = pa.base() as u64;
    assert(d & 1 != 0 && d & 0x0000_FFFF_FFFF_F000u64 == pb) by (bit_vector)
        requires
            d & 3 == 3,
            d & 0x0000_FFFF_FFFF_F000u64 == pb & 0x0000_FFFF_FFFF_F000u64,
            pb < 0x0001_0000_0000_0000u64,
            pb % 4096 == 0,
    ;
    assert(0u64 & 1 == 0) by (bit_vector);
    assert forall|l: int| 0 <= l < 3 implies #[trigger] entry_at(cleared, tables[l], level_index(va, l))
        == entry_at(after, tables[l], level_index(va, l)) by {
        assert(tables[l].base() != tables[3].base());
    }
}

/// The walk reads, at level 0, 1, 2 and 3, the table index held in VA
/// bits 47:39, 38:30, 29:21 and 20:12 respectively.
pub proof fn law_level_indices_are_the_va_fields(va: VirtAddr)
    ensures
        level_index(va, 0) == (((va.0 as u64) >> 39u64) & 0x1FF) as usize,
        level_index(va, 1) == (((va.0 as u64) >> 30u64) & 0x1FF) as usize,
        level_index(va, 2) == (((va.0 as u64) >> 21u64) & 0x1FF) as usize,
        level_index(va, 3) == (((va.0 as u64) >> 12u64) & 0x1FF) as usize,
{
}

/// Two distinct page-aligned virtual addresses below 2^48 differ in the
/// table index of at least one level, so no two pages share a leaf slot.
pub proof fn law_distinct_pages_have_distinct_indices(a: VirtAddr, b: VirtAddr)
    requires
        a.0 % PAGE_SIZE == 0,
        b.0 % PAGE_SIZE == 0,
        (a.0 as u64) < 0x0001_0000_0000_0000,
        (b.0 as u64) < 0x0001_0000_0000_0000,
        a.0 != b.0,
    ensures
        exists|l: int| 0 <= l < 4 && #[trigger] level_index(a, l) != level_index(b, l),
{
    let x = a.0 as u64;
    let y = b.0 as u64;
    assert(x != y);
    assert(x % 4096 == 0 && y % 4096 == 0);
    assert(((x >> 39u64) & 0x1FF) != ((y >> 39u64) & 0x1FF) || ((x >> 30u64) & 0x1FF) != ((y
        >> 30u64) & 0x1FF) || ((x >> 21u64) & 0x1FF) != ((y >> 21u64) & 0x1FF) || ((x >> 12u64)
        & 0x1FF) != ((y >> 12u64) & 0x1FF)) by (bit_vector)
        requires
            x != y,
            x % 4096 == 0,
            y % 4096 == 0,
            x < 0x0001_0000_0000_0000u64,
            y < 0x0001_0000_0000_0000u64,
    ;
    let fx0 = (x >> 39u64) & 0x1FF;
    let fy0 = (y >> 39u64) & 0x1FF;
    let fx1 = (x >> 30u64) & 0x1FF;
    let fy1 = (y >> 30u64) & 0x1FF;
    let fx2 = (x >> 21u64) & 0x1FF;
    let fy2 = (y >> 21u64) & 0x1FF;
    let fx3 = (x >> 12u64) & 0x1FF;
    let fy3 = (y >> 12u64) & 0x1FF;
    assert(fx0 < 512 && fy0 < 512 && fx1 < 512 && fy1 < 512 && fx2 < 512 && fy2 < 512 && fx3 < 512
        && fy3 < 512) by (bit_vector)
        requires
            fx0 == (x >> 39u64) & 0x1FF,
            fy0 == (y >> 39u64) & 0x1FF,
            fx1 == (x >> 30u64) & 0x1FF,
            fy1 == (y >> 30u64) & 0x1FF,
            fx2 == (x >> 21u64) & 0x1FF,
            fy2 == (y >> 21u64) & 0x1FF,
            fx3 == (x >> 12u64) & 0x1FF,
            fy3 == (y >> 12u64) & 0x1FF,
    ;
    if fx0 != fy0 {
        assert(level_index(a, 0) != level_index(b, 0));
    } else if fx1 != fy1 {
        assert(level_index(a, 1) != level_index(b, 1));
    } else if fx2 != fy2 {
        assert(level_index(a, 2) != level_index(b, 2));
    } else {
        assert(level_index(a, 3) != level_index(b, 3));
    }
}

} // verus!
