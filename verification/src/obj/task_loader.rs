//! Task loader: an embedded raw-flat user image becomes a populated
//! address space, described by a [`LoadedImage`].
//!
//! The pipeline checks its arguments, the parent capability, the frame
//! budget and that the image does not lie in allocatable memory before it
//! changes anything; it then creates the address space, maps the image
//! pages (`USER | EXECUTE`) and the stack pages (`USER | WRITE`) directly
//! above them. A failure while mapping undoes every committed mapping,
//! returns the leaf frames to the PMM and drops the new capability.

use vstd::prelude::*;
use crate::cap::{CapError, CapHandle, CapKind, CapRights, CapabilityTable};
use crate::hal::mmu::{
    lemma_bitor_is_union, Mapping, MappingFlags, Mmu, PhysFrame, VirtAddr, EXECUTE_BIT, PAGE_SIZE,
    USER_BIT, WRITE_BIT,
};
use crate::mm::address_space::{
    as_handle_of, cap_create_address_space, cap_map, cap_unmap, create_error, resolve_error,
    AddressSpaceArena, AddressSpaceError,
};
use crate::mm::pmm::{count_state, is_lowest_free, lemma_count_total, lemma_count_update, FrameState, Pmm};
use crate::obj::arena::SlotId;

verus! {


/// Upper bound on the intermediate translation-table frames the two
/// contiguous ranges (image and stack) may need: three levels each.
pub const INTERMEDIATE_FRAME_BUDGET: usize = 6;

/// What a successful [`load_image`] produced.
#[derive(Copy, Clone, Debug, PartialEq, Eq, Structural)]
pub struct LoadedImage {
    /// Capability for the new address space.
    pub as_cap: CapHandle,
    /// Entry point: the image's base virtual address.
    pub entry_va: VirtAddr,
    /// One past the highest mapped stack address.
    pub stack_top_va: VirtAddr,
    /// Length of the image in bytes.
    pub image_bytes: usize,
    /// Size of the stack region in bytes.
    pub stack_bytes: usize,
}

/// Why [`load_image`] failed.
#[derive(Copy, Clone, Debug, PartialEq, Eq, Structural)]
#[non_exhaustive]
pub enum LoadError {
    /// The image is empty.
    InvalidImage,
    /// The stack size is zero pages.
    InvalidStackSize,
    /// The parent capability is stale or names no address space.
    InvalidParentCap(CapError),
    /// More frames would be needed than the PMM has free.
    FrameBudgetExceeded {
        /// Root, image, stack and intermediate frames.
        needed: usize,
        /// Free frames in the PMM.
        available: usize,
    },
    /// Creating the address space failed (nothing was committed).
    AddressSpaceCreationFailed(AddressSpaceError),
    /// The image's physical range overlaps memory the PMM could hand out.
    ImageOverlapsAllocatableMemory,
    /// The PMM ran out of frames while mapping (rolled back).
    OutOfFrames,
    /// Mapping a page failed (rolled back).
    MapFailed(AddressSpaceError),
}

/// What a frame the loader allocated must hold before its address space
/// is used: `len` bytes of the image starting at `image_offset`, then
/// zero bytes to the end of the page.
#[derive(Copy, Clone, Debug, PartialEq, Eq, Structural)]
pub struct PageFill {
    /// The frame to fill.
    pub frame: PhysFrame,
    /// Offset in the image of the first byte to copy.
    pub image_offset: usize,
    /// Number of image bytes to copy (at most a page).
    pub len: usize,
}

/// The fill of the frame that holds image page `j`: that page's bytes,
/// the rest of the page zero.
pub open spec fn image_fill(frame: PhysFrame, image_len: int, j: int) -> PageFill {
    PageFill {
        frame,
        image_offset: (j * PAGE_SIZE) as usize,
        len: if image_len - j * PAGE_SIZE < PAGE_SIZE {
            (image_len - j * PAGE_SIZE) as usize
        } else {
            PAGE_SIZE
        },
    }
}

/// The fill of a stack frame: all zero.
pub open spec fn stack_fill(frame: PhysFrame) -> PageFill {
    PageFill { frame, image_offset: 0, len: 0 }
}

/// `plan[start + j]` fills the frame mapped at image page `j`, for the
/// first `count` image pages.
pub open spec fn image_fills_planned(
    plan: Seq<PageFill>,
    start: int,
    m: Map<usize, Mapping>,
    base: usize,
    image_len: int,
    count: int,
) -> bool {
    forall|j: int|
        0 <= j < count ==> #[trigger] plan[start + j] == image_fill(
            m[page_va(base, j)].0,
            image_len,
            j,
        )
}

/// `plan[start + k]` zero-fills the frame mapped at stack page `k`, for
/// the first `count` stack pages.
pub open spec fn stack_fills_planned(
    plan: Seq<PageFill>,
    start: int,
    m: Map<usize, Mapping>,
    base: usize,
    count: int,
) -> bool {
    forall|k: int| 0 <= k < count ==> #[trigger] plan[start + k] == stack_fill(m[page_va(base, k)].0)
}

/// The bytes of a frame once `fill` has been applied to it: `fill.len`
/// image bytes from `fill.image_offset`, then zeros to the end of the
/// page.
pub open spec fn filled_page(image: Seq<u8>, fill: PageFill) -> Seq<u8> {
    Seq::new(
        PAGE_SIZE as nat,
        |i: int|
            if i < fill.len {
                image[fill.image_offset + i]
            } else {
                0u8
            },
    )
}

/// Give `page`, the bytes of `fill.frame`, the contents `fill` plans for
/// it.
pub fn write_page_fill(page: &mut [u8], image: &[u8], fill: &PageFill)
    requires
        old(page)@.len() == PAGE_SIZE,
        fill.len <= PAGE_SIZE,
        fill.image_offset + fill.len <= image@.len(),
    ensures
        final(page)@ == filled_page(image@, *fill),
{
    let n: usize = image.len();
    let mut i: usize = 0;
    while i < PAGE_SIZE
        invariant
            page@.len() == PAGE_SIZE,
            n == image@.len(),
            fill.len <= PAGE_SIZE,
            fill.image_offset + fill.len <= image@.len(),
            i <= PAGE_SIZE,
            forall|k: int| 0 <= k < i ==> #[trigger] page@[k] == filled_page(image@, *fill)[k],
        decreases PAGE_SIZE - i,
    {
        let b: u8 = if i < fill.len {
            image[fill.image_offset + i]
        } else {
            0
        };
        page[i] = b;
        i = i + 1;
    }
    assert(page@ =~= filled_page(image@, *fill));
}

/// The fills [`load_image`] plans can always be applied, and they give
/// each image frame exactly its page of the image followed by zeros, and
/// each stack frame zeros.
pub proof fn law_planned_fills_hold_the_image(image: Seq<u8>, frame: PhysFrame, j: int)
    requires
        0 <= j < page_count(image.len() as int),
        image.len() <= usize::MAX,
    ensures
        image_fill(frame, image.len() as int, j).len <= PAGE_SIZE,
        image_fill(frame, image.len() as int, j).image_offset + image_fill(
            frame,
            image.len() as int,
            j,
        ).len <= image.len(),
        forall|i: int|
            0 <= i < PAGE_SIZE ==> #[trigger] filled_page(image, image_fill(frame, image.len() as int, j))[i]
                == if j * PAGE_SIZE + i < image.len() {
                image[j * PAGE_SIZE + i]
            } else {
                0u8
            },
        stack_fill(frame).len <= PAGE_SIZE,
        stack_fill(frame).image_offset + stack_fill(frame).len <= image.len(),
        forall|i: int| 0 <= i < PAGE_SIZE ==> #[trigger] filled_page(image, stack_fill(frame))[i] == 0u8,
{
    lemma_page_count(image.len() as int);
    assert(j * 4096 < image.len());
}

/// `x` clamped to `usize::MAX` (for `x >= 0`).
pub open spec fn sat_usize(x: int) -> usize {
    if x > usize::MAX {
        usize::MAX
    } else {
        x as usize
    }
}

/// Pages needed for `len` bytes.
pub open spec fn page_count(len: int) -> int {
    (len + PAGE_SIZE - 1) / (PAGE_SIZE as int)
}

/// The `n`-th page address above `base`, saturating.
pub open spec fn page_va(base: usize, n: int) -> usize {
    sat_usize(base + n * PAGE_SIZE)
}

/// Frames the loader asks for: root, image pages, stack pages and the
/// intermediate-table budget (saturating).
pub open spec fn frames_needed(image_len: int, stack_pages: int) -> usize {
    sat_usize(1 + page_count(image_len) + stack_pages + INTERMEDIATE_FRAME_BUDGET)
}

/// `k` is one of the first `count` page addresses above `base`.
pub open spec fn in_region(k: usize, base: usize, count: int) -> bool {
    exists|j: int| 0 <= j < count && k == #[trigger] page_va(base, j)
}

/// Every mapping is page-aligned and lies in one of the two regions.
pub open spec fn mappings_within(
    m: Map<usize, Mapping>,
    image_base: usize,
    image_count: int,
    stack_base: usize,
    stack_count: int,
) -> bool {
    forall|k: usize| #[trigger]
        m.contains_key(k) ==> k % PAGE_SIZE == 0 && (in_region(k, image_base, image_count)
            || in_region(k, stack_base, stack_count))
}

/// The first `count` pages above `base` are mapped with flags `bits`.
pub open spec fn region_mapped(m: Map<usize, Mapping>, base: usize, count: int, bits: u32) -> bool {
    forall|j: int|
        0 <= j < count ==> m.contains_key(#[trigger] page_va(base, j)) && m[page_va(
            base,
            j,
        )].1@ == bits
}

/// The error the checks that precede any change report, in order.
pub open spec fn preflight_error<const N: usize, const R: usize>(
    image: Seq<u8>,
    image_pa: usize,
    pmm: &Pmm<N, R>,
    table: &CapabilityTable,
    parent_as_cap: CapHandle,
    stack_size_pages: usize,
) -> Option<LoadError> {
    if image.len() == 0 {
        Some(LoadError::InvalidImage)
    } else if stack_size_pages == 0 {
        Some(LoadError::InvalidStackSize)
    } else if !table@.contains_key(parent_as_cap@) {
        Some(LoadError::InvalidParentCap(CapError::InvalidHandle))
    } else if as_handle_of(table, parent_as_cap).is_none() {
        Some(LoadError::InvalidParentCap(CapError::WrongKind))
    } else if frames_needed(image.len() as int, stack_size_pages as int) > count_state(
        pmm.states(),
        FrameState::Free,
    ) {
        Some(
            LoadError::FrameBudgetExceeded {
                needed: frames_needed(image.len() as int, stack_size_pages as int),
                available: count_state(pmm.states(), FrameState::Free) as usize,
            },
        )
    } else if pmm.spec_could_yield(image_pa as int, sat_usize(image_pa + image.len()) as int) {
        Some(LoadError::ImageOverlapsAllocatableMemory)
    } else {
        None
    }
}

/// The frame budget refuses a load only when it does not fit: a refusal
/// names a need above the free frames it reports, which are the PMM's free
/// frames; and when the root, the image pages, the stack pages and the
/// intermediate-table allowance fit in the free frames (the checks before
/// the budget passing), the checks end without a budget refusal.
pub proof fn law_budget_refuses_only_what_does_not_fit<const N: usize, const R: usize>(
    image: Seq<u8>,
    image_pa: usize,
    pmm: &Pmm<N, R>,
    table: &CapabilityTable,
    parent_as_cap: CapHandle,
    stack_size_pages: usize,
)
    ensures
        preflight_error(image, image_pa, pmm, table, parent_as_cap, stack_size_pages) matches Some(
            LoadError::FrameBudgetExceeded { needed, available },
        ) ==> needed > available && available == count_state(pmm.states(), FrameState::Free),
        image.len() > 0 && stack_size_pages > 0 && as_handle_of(table, parent_as_cap).is_some()
            && table@.contains_key(parent_as_cap@) && 1 + (image.len() + 4095) / 4096
            + stack_size_pages + 6 <= count_state(pmm.states(), FrameState::Free) ==> {
            ||| preflight_error(image, image_pa, pmm, table, parent_as_cap, stack_size_pages) is None
            ||| preflight_error(image, image_pa, pmm, table, parent_as_cap, stack_size_pages)
                == Some(LoadError::ImageOverlapsAllocatableMemory)
        },
{
    let free = count_state(pmm.states(), FrameState::Free);
    lemma_count_total(pmm.states());
    assert(free <= pmm.total());
    assert(pmm.total() <= usize::MAX) by {
        let e = pmm.spec_extent();
        vstd::arithmetic::div_mod::lemma_div_is_ordered_by_denominator(e.spec_len_bytes() as int, 1, 4096);
    }
}

/// `base + n * PAGE_SIZE`, saturating.
fn page_offset(base: usize, n: usize) -> (r: usize)
    ensures
        r == page_va(base, n as int),
{
    let off: usize = if n > usize::MAX / PAGE_SIZE {
        assert(n * PAGE_SIZE > usize::MAX) by (nonlinear_arith)
            requires
                n > usize::MAX / 4096,
        ;
        usize::MAX
    } else {
        assert(n * PAGE_SIZE <= usize::MAX) by (nonlinear_arith)
            requires
                n <= usize::MAX / 4096,
        ;
        n * PAGE_SIZE
    };
    base.saturating_add(off)
}

/// Every mapping of `m` is also in `m0`, with the same frame and flags.
pub open spec fn sub_mappings(m: Map<usize, Mapping>, m0: Map<usize, Mapping>) -> bool {
    forall|k: usize| #[trigger] m.contains_key(k) ==> m0.contains_key(k) && m[k] == m0[k]
}

/// Some mapping of `m` maps a frame whose base is `b`.
pub open spec fn frame_mapped(m: Map<usize, Mapping>, b: int) -> bool {
    exists|va: usize| #[trigger] m.contains_key(va) && m[va].0.base() == b
}

/// Some mapping of `m0` that `m` no longer has maps a frame whose base is
/// `b`.
pub open spec fn frame_unmapped(m0: Map<usize, Mapping>, m: Map<usize, Mapping>, b: int) -> bool {
    exists|va: usize| #[trigger] m0.contains_key(va) && !m.contains_key(va) && m0[va].0.base() == b
}

/// The frame states after freeing, once, every allocated frame that some
/// mapping removed from `m0` (leaving `m`) mapped.
pub open spec fn freed_states<const N: usize, const R: usize>(
    p: &Pmm<N, R>,
    m0: Map<usize, Mapping>,
    m: Map<usize, Mapping>,
) -> Seq<FrameState> {
    Seq::new(
        p.total(),
        |i: int|
            if p.states()[i] == FrameState::Allocated && frame_unmapped(m0, m, p.base_of(i)) {
                FrameState::Free
            } else {
                p.states()[i]
            },
    )
}

/// Unmap `va` from the address space `as_cap` names and return the frame
/// it mapped to the PMM; either step may fail and is then skipped.
fn unmap_and_free<M: Mmu, const N: usize, const R: usize>(
    table: &CapabilityTable,
    pmm: &mut Pmm<N, R>,
    mmu: &mut M,
    as_arena: &mut AddressSpaceArena<M>,
    as_cap: CapHandle,
    va: VirtAddr,
)
    requires
        table.wf(),
        old(pmm).wf(),
        old(as_arena).wf(),
    ensures
        final(pmm).wf(),
        final(as_arena).wf(),
        final(pmm).spec_extent() == old(pmm).spec_extent(),
        final(pmm).reserved_slots() == old(pmm).reserved_slots(),
        final(pmm).failure_budget() == old(pmm).failure_budget(),
        resolve_error(table, as_cap, &*old(as_arena)) is Some ==> *final(as_arena) == *old(as_arena)
            && final(pmm).states() == old(pmm).states(),
        resolve_error(table, as_cap, &*old(as_arena)) is None ==> {
            let h = as_handle_of(table, as_cap).unwrap();
            let before = old(as_arena)@[h@].spec_mappings();
            let after = final(as_arena)@[h@].spec_mappings();
            &&& final(as_arena)@ == old(as_arena)@.insert(h@, final(as_arena)@[h@])
            &&& final(as_arena)@[h@].spec_root() == old(as_arena)@[h@].spec_root()
            &&& if va.0 % PAGE_SIZE == 0 && before.contains_key(va.0) {
                &&& after == before.remove(va.0)
                &&& final(pmm).states() == freed_states(&*old(pmm), before, after)
            } else {
                &&& after == before
                &&& final(pmm).states() == old(pmm).states()
            }
        },
{
    let ghost before_pmm = *pmm;
    if let Ok(frame) = cap_unmap(table, as_cap, mmu, as_arena, va) {
        let _ = pmm.free_frame(frame);
        proof {
            let h = as_handle_of(table, as_cap).unwrap();
            let before = old(as_arena)@[h@].spec_mappings();
            let after = as_arena@[h@].spec_mappings();
            let fs = freed_states(&before_pmm, before, after);
            assert forall|i: int| 0 <= i < before_pmm.total() implies #[trigger] pmm.states()[i]
                == fs[i] by {
                if frame_unmapped(before, after, before_pmm.base_of(i)) {
                    let w = choose|w: usize|
                        #[trigger] before.contains_key(w) && !after.contains_key(w)
                            && before[w].0.base() == before_pmm.base_of(i);
                    assert(w == va.0);
                } else {
                    assert(!(before.contains_key(va.0) && !after.contains_key(va.0)
                        && before[va.0].0.base() == before_pmm.base_of(i)));
                }
            }
            assert(pmm.states() =~= fs);
        }
    }
}

/// Undo a partial load: unmap the stack pages, then the image pages, in
/// reverse order, returning each unmapped frame to the PMM, and drop the
/// address-space capability. Failures of the individual steps are
/// ignored.
///
/// When every mapping of the address space was page-aligned and in one of
/// the two regions, none is left afterwards, and every frame that was
/// allocated and mapped there is free again; no other frame changes.
pub fn rollback<M: Mmu, const N: usize, const R: usize>(
    table: &mut CapabilityTable,
    pmm: &mut Pmm<N, R>,
    mmu: &mut M,
    as_arena: &mut AddressSpaceArena<M>,
    loaded_as_cap: CapHandle,
    image_base_va: VirtAddr,
    stack_base_va: VirtAddr,
    image_pages_mapped: usize,
    stack_pages_mapped: usize,
)
    requires
        old(table).wf(),
        old(pmm).wf(),
        old(as_arena).wf(),
    ensures
        final(table).wf(),
        final(pmm).wf(),
        final(as_arena).wf(),
        final(pmm).spec_extent() == old(pmm).spec_extent(),
        final(pmm).reserved_slots() == old(pmm).reserved_slots(),
        final(pmm).failure_budget() == old(pmm).failure_budget(),
        old(table)@.contains_key(loaded_as_cap@) && !old(table).has_children(loaded_as_cap@) ==> {
            &&& final(table)@ == old(table)@.remove(loaded_as_cap@)
            &&& forall|s: SlotId| #[trigger]
                final(table)@.contains_key(s) ==> final(table).parent_of(s) == old(table).parent_of(
                    s,
                )
        },
        !(old(table)@.contains_key(loaded_as_cap@) && !old(table).has_children(loaded_as_cap@))
            ==> *final(table) == *old(table),
        resolve_error(&*old(table), loaded_as_cap, &*old(as_arena)) is Some ==> *final(as_arena)
            == *old(as_arena) && final(pmm).states() == old(pmm).states(),
        resolve_error(&*old(table), loaded_as_cap, &*old(as_arena)) is None ==> {
            let h = as_handle_of(&*old(table), loaded_as_cap).unwrap();
            let m0 = old(as_arena)@[h@].spec_mappings();
            &&& final(as_arena)@ == old(as_arena)@.insert(h@, final(as_arena)@[h@])
            &&& final(as_arena)@[h@].spec_root() == old(as_arena)@[h@].spec_root()
            &&& mappings_within(
                m0,
                image_base_va.0,
                image_pages_mapped as int,
                stack_base_va.0,
                stack_pages_mapped as int,
            ) ==> {
                &&& final(as_arena)@[h@].spec_mappings() == Map::<usize, Mapping>::empty()
                &&& forall|i: int| 0 <= i < old(pmm).total() ==> #[trigger] final(pmm).states()[i]
                    == if old(pmm).states()[i] == FrameState::Allocated && frame_mapped(
                    m0,
                    old(pmm).base_of(i),
                ) {
                    FrameState::Free
                } else {
                    old(pmm).states()[i]
                }
            }
        },
{
    let ghost t0 = *table;
    let ghost a0 = *as_arena;
    let ghost p0 = *pmm;
    let ghost live = resolve_error(&t0, loaded_as_cap, &a0) is None;
    let ghost h = as_handle_of(&t0, loaded_as_cap).unwrap();
    let ghost m0 = a0@[h@].spec_mappings();
    let ghost within = live && mappings_within(
        m0,
        image_base_va.0,
        image_pages_mapped as int,
        stack_base_va.0,
        stack_pages_mapped as int,
    );
    proof {
        assert(p0.states() =~= freed_states(&p0, m0, m0));
    }
    let mut i: usize = stack_pages_mapped;
    while i > 0
        invariant
            *table == t0,
            t0.wf(),
            pmm.wf(),
            as_arena.wf(),
            i <= stack_pages_mapped,
            pmm.spec_extent() == p0.spec_extent(),
            pmm.reserved_slots() == p0.reserved_slots(),
            pmm.failure_budget() == p0.failure_budget(),
            live == (resolve_error(&t0, loaded_as_cap, &a0) is None),
            h == as_handle_of(&t0, loaded_as_cap).unwrap(),
            m0 == a0@[h@].spec_mappings(),
            !live ==> *as_arena == a0 && pmm.states() == p0.states(),
            live ==> as_arena@ == a0@.insert(h@, as_arena@[h@]) && as_arena@[h@].spec_root()
                == a0@[h@].spec_root(),
            live ==> sub_mappings(as_arena@[h@].spec_mappings(), m0),
            live ==> pmm.states() == freed_states(&p0, m0, as_arena@[h@].spec_mappings()),
            within ==> live && mappings_within(
                as_arena@[h@].spec_mappings(),
                image_base_va.0,
                image_pages_mapped as int,
                stack_base_va.0,
                i as int,
            ),
        decreases i,
    {
        i = i - 1;
        let va = VirtAddr(page_offset(stack_base_va.0, i));
        let ghost before = as_arena@[h@].spec_mappings();
        let ghost before_pmm = *pmm;
        unmap_and_free(table, pmm, mmu, as_arena, loaded_as_cap, va);
        proof {
            if live {
                lemma_freed_step(&p0, &before_pmm, &*pmm, m0, before, as_arena@[h@].spec_mappings(), va.0);
            }
            if within {
                let after = as_arena@[h@].spec_mappings();
                assert(!after.contains_key(va.0));
                assert forall|k: usize| #[trigger] after.contains_key(k) implies k % PAGE_SIZE == 0
                    && (in_region(k, image_base_va.0, image_pages_mapped as int) || in_region(
                    k,
                    stack_base_va.0,
                    i as int,
                )) by {
                    assert(before.contains_key(k));
                    if !in_region(k, image_base_va.0, image_pages_mapped as int) {
                        let j = choose|j: int|
                            0 <= j < i + 1 && k == #[trigger] page_va(stack_base_va.0, j);
                        assert(j != i);
                    }
                }
            }
        }
    }
    let mut i: usize = image_pages_mapped;
    while i > 0
        invariant
            *table == t0,
            t0.wf(),
            pmm.wf(),
            as_arena.wf(),
            i <= image_pages_mapped,
            pmm.spec_extent() == p0.spec_extent(),
            pmm.reserved_slots() == p0.reserved_slots(),
            pmm.failure_budget() == p0.failure_budget(),
            live == (resolve_error(&t0, loaded_as_cap, &a0) is None),
            h == as_handle_of(&t0, loaded_as_cap).unwrap(),
            m0 == a0@[h@].spec_mappings(),
            !live ==> *as_arena == a0 && pmm.states() == p0.states(),
            live ==> as_arena@ == a0@.insert(h@, as_arena@[h@]) && as_arena@[h@].spec_root()
                == a0@[h@].spec_root(),
            live ==> sub_mappings(as_arena@[h@].spec_mappings(), m0),
            live ==> pmm.states() == freed_states(&p0, m0, as_arena@[h@].spec_mappings()),
            within ==> live && mappings_within(
                as_arena@[h@].spec_mappings(),
                image_base_va.0,
                i as int,
                stack_base_va.0,
                0,
            ),
        decreases i,
    {
        i = i - 1;
        let va = VirtAddr(page_offset(image_base_va.0, i));
        let ghost before = as_arena@[h@].spec_mappings();
        let ghost before_pmm = *pmm;
        unmap_and_free(table, pmm, mmu, as_arena, loaded_as_cap, va);
        proof {
            if live {
                lemma_freed_step(&p0, &before_pmm, &*pmm, m0, before, as_arena@[h@].spec_mappings(), va.0);
            }
            if within {
                let after = as_arena@[h@].spec_mappings();
                assert(!after.contains_key(va.0));
                assert forall|k: usize| #[trigger] after.contains_key(k) implies k % PAGE_SIZE == 0
                    && (in_region(k, image_base_va.0, i as int) || in_region(
                    k,
                    stack_base_va.0,
                    0,
                )) by {
                    assert(before.contains_key(k));
                    let j = choose|j: int|
                        0 <= j < i + 1 && k == #[trigger] page_va(image_base_va.0, j);
                    assert(j != i);
                }
            }
        }
    }
    proof {
        if within {
            let m = as_arena@[h@].spec_mappings();
            assert forall|k: usize| !m.contains_key(k) by {
                if m.contains_key(k) {
                    assert(in_region(k, image_base_va.0, 0) || in_region(k, stack_base_va.0, 0));
                }
            }
            assert(m =~= Map::<usize, Mapping>::empty());
            assert forall|i: int| 0 <= i < p0.total() implies #[trigger] pmm.states()[i] == (if p0.states()[i]
                == FrameState::Allocated && frame_mapped(m0, p0.base_of(i)) {
                FrameState::Free
            } else {
                p0.states()[i]
            }) by {
                if frame_mapped(m0, p0.base_of(i)) {
                    let w = choose|w: usize| #[trigger] m0.contains_key(w) && m0[w].0.base() == p0.base_of(i);
                    assert(!m.contains_key(w));
                }
                if frame_unmapped(m0, m, p0.base_of(i)) {
                    let w = choose|w: usize|
                        #[trigger] m0.contains_key(w) && !m.contains_key(w) && m0[w].0.base() == p0.base_of(i);
                    assert(m0.contains_key(w));
                }
            }
        }
    }
    let _ = table.cap_drop(loaded_as_cap);
}

/// One unmap-and-free step keeps the freed-states description: the
/// mapping removed (if any) joins the removed ones, and its frame is freed
/// if it was allocated.
proof fn lemma_freed_step<const N: usize, const R: usize>(
    p0: &Pmm<N, R>,
    before_pmm: &Pmm<N, R>,
    after_pmm: &Pmm<N, R>,
    m0: Map<usize, Mapping>,
    before: Map<usize, Mapping>,
    after: Map<usize, Mapping>,
    va: usize,
)
    requires
        before_pmm.spec_extent() == p0.spec_extent(),
        after_pmm.spec_extent() == p0.spec_extent(),
        sub_mappings(before, m0),
        before_pmm.states() == freed_states(p0, m0, before),
        if va % PAGE_SIZE == 0 && before.contains_key(va) {
            &&& after == before.remove(va)
            &&& after_pmm.states() == freed_states(before_pmm, before, after)
        } else {
            &&& after == before
            &&& after_pmm.states() == before_pmm.states()
        },
    ensures
        sub_mappings(after, m0),
        after_pmm.states() == freed_states(p0, m0, after),
{
    let target = freed_states(p0, m0, after);
    if va % PAGE_SIZE == 0 && before.contains_key(va) {
        assert forall|i: int| 0 <= i < p0.total() implies #[trigger] after_pmm.states()[i]
            == target[i] by {
            let b = p0.base_of(i);
            assert(before_pmm.base_of(i) == b);
            if frame_unmapped(before, after, b) {
                let w = choose|w: usize|
                    #[trigger] before.contains_key(w) && !after.contains_key(w) && before[w].0.base()
                        == b;
                assert(before.contains_key(w) && !after.contains_key(w) && before[w].0.base() == b);
                assert(m0.contains_key(w) && !after.contains_key(w) && m0[w].0.base() == b);
            }
            if frame_unmapped(m0, before, b) {
                let w = choose|w: usize|
                    #[trigger] m0.contains_key(w) && !before.contains_key(w) && m0[w].0.base() == b;
                assert(m0.contains_key(w) && !after.contains_key(w));
            }
            if frame_unmapped(m0, after, b) && !frame_unmapped(m0, before, b) {
                let w = choose|w: usize|
                    #[trigger] m0.contains_key(w) && !after.contains_key(w) && m0[w].0.base() == b;
                assert(before.contains_key(w));
                assert(w == va);
                assert(before.dom().contains(w));
                assert(before.contains_key(w) && !after.contains_key(w) && before[w].0.base() == b);
            }
        }
        assert(after_pmm.states() =~= target);
    } else {
        assert(after_pmm.states() =~= target);
    }
}

/// The frames mapped at the `pages` image pages and `stack` stack pages
/// are the frames `leaves` indexes (image pages first): each free in `p0`
/// and allocated in `p`, pairwise distinct, and distinct from the root
/// frame, frame `ri`, which was also free in `p0` and is allocated in `p`.
pub open spec fn fresh_page_frames<const N: usize, const R: usize>(
    p0: &Pmm<N, R>,
    p: &Pmm<N, R>,
    m: Map<usize, Mapping>,
    ib: usize,
    pages: int,
    sb: usize,
    stack: int,
    root: PhysFrame,
    ri: int,
    leaves: Seq<int>,
) -> bool {
    &&& 0 <= ri < p0.total()
    &&& root.base() == p0.base_of(ri)
    &&& p0.states()[ri] == FrameState::Free
    &&& p.states()[ri] == FrameState::Allocated
    &&& leaves.len() == pages + stack
    &&& forall|k: int|
        0 <= k < leaves.len() ==> 0 <= #[trigger] leaves[k] < p0.total() && leaves[k] != ri
            && p0.states()[leaves[k]] == FrameState::Free && p.states()[leaves[k]]
            == FrameState::Allocated
    &&& forall|a: int, b: int|
        0 <= a < b < leaves.len() ==> #[trigger] leaves[a] != #[trigger] leaves[b]
    &&& forall|j: int| 0 <= j < pages ==> m[#[trigger] page_va(ib, j)].0.base() == p0.base_of(leaves[j])
    &&& forall|k: int|
        0 <= k < stack ==> m[#[trigger] page_va(sb, k)].0.base() == p0.base_of(leaves[pages + k])
}

/// A frame `alloc_frame` just took from `pre` (frame `i0`, the lowest
/// free one) was free in `p0`, since `pre` only kept allocations of
/// `p0`, and it is none of the frames (`ri` and `leaves`) already taken.
proof fn lemma_fresh_leaf<const N: usize, const R: usize>(
    p0: &Pmm<N, R>,
    pre: &Pmm<N, R>,
    post: &Pmm<N, R>,
    ri: int,
    leaves: Seq<int>,
    i0: int,
)
    requires
        pre.kept_allocations(p0),
        pre.states()[ri] == FrameState::Allocated,
        forall|k: int|
            0 <= k < leaves.len() ==> 0 <= #[trigger] leaves[k] < p0.total()
                && pre.states()[leaves[k]] == FrameState::Allocated,
        is_lowest_free(pre.states(), i0),
        post.spec_extent() == pre.spec_extent(),
        post.reserved_slots() == pre.reserved_slots(),
        post.states() == pre.states().update(i0, FrameState::Allocated),
    ensures
        0 <= i0 < p0.total(),
        p0.states()[i0] == FrameState::Free,
        i0 != ri,
        !leaves.contains(i0),
        post.kept_allocations(p0),
        post.states()[i0] == FrameState::Allocated,
{
    assert(pre.states()[i0] == FrameState::Free);
    assert(p0.states()[i0] != FrameState::Allocated);
    assert(p0.in_reserved(p0.base_of(i0)) == pre.in_reserved(pre.base_of(i0)));
    if leaves.contains(i0) {
        let k = choose|k: int| 0 <= k < leaves.len() && leaves[k] == i0;
        assert(pre.states()[leaves[k]] == FrameState::Allocated);
    }
    assert forall|i: int| 0 <= i < p0.total() && p0.states()[i] == FrameState::Allocated
        implies #[trigger] post.states()[i] == FrameState::Allocated by {
        assert(pre.states()[i] == FrameState::Allocated);
    }
}

/// Frame states `p1` with every frame in `leaves` allocated.
pub open spec fn leaf_states(p1: Seq<FrameState>, leaves: Seq<int>) -> Seq<FrameState> {
    Seq::new(
        p1.len(),
        |i: int|
            if leaves.contains(i) {
                FrameState::Allocated
            } else {
                p1[i]
            },
    )
}

/// Rolling back a load whose committed pages are exactly the `leaves`
/// frames (allocated after `p1`, each mapped in `m` as the plan records)
/// brings the frame states back to `p1`.
proof fn lemma_leaves_restored<const N: usize, const R: usize>(
    cur: &Pmm<N, R>,
    fin: &Pmm<N, R>,
    p1: Seq<FrameState>,
    leaves: Seq<int>,
    plan: Seq<PageFill>,
    m: Map<usize, Mapping>,
    ib: usize,
    im: int,
    sb: usize,
    sm: int,
    image_len: int,
)
    requires
        fin.spec_extent() == cur.spec_extent(),
        p1.len() == cur.total(),
        cur.states() == leaf_states(p1, leaves),
        0 <= im,
        0 <= sm,
        leaves.len() == im + sm,
        plan.len() == im + sm,
        forall|k: int|
            0 <= k < leaves.len() ==> 0 <= #[trigger] leaves[k] < p1.len() && p1[leaves[k]]
                == FrameState::Free && plan[k].frame.base() == cur.base_of(leaves[k]),
        image_fills_planned(plan, 0, m, ib, image_len, im),
        stack_fills_planned(plan, im, m, sb, sm),
        region_mapped(m, ib, im, USER_BIT | EXECUTE_BIT),
        region_mapped(m, sb, sm, USER_BIT | WRITE_BIT),
        mappings_within(m, ib, im, sb, sm),
        forall|i: int|
            0 <= i < cur.total() ==> #[trigger] fin.states()[i] == if cur.states()[i]
                == FrameState::Allocated && frame_mapped(m, cur.base_of(i)) {
                FrameState::Free
            } else {
                cur.states()[i]
            },
    ensures
        fin.states() == p1,
{
    assert forall|i: int| 0 <= i < p1.len() implies #[trigger] fin.states()[i] == p1[i] by {
        if leaves.contains(i) {
            let k = choose|k: int| 0 <= k < leaves.len() && leaves[k] == i;
            assert(cur.states()[i] == FrameState::Allocated);
            if k < im {
                assert(plan[0 + k] == image_fill(m[page_va(ib, k)].0, image_len, k));
                assert(m.contains_key(page_va(ib, k)));
                assert(m.contains_key(page_va(ib, k)) && m[page_va(ib, k)].0.base() == cur.base_of(i));
            } else {
                let k2 = k - im;
                assert(plan[im + k2] == stack_fill(m[page_va(sb, k2)].0));
                assert(m.contains_key(page_va(sb, k2)));
                assert(m.contains_key(page_va(sb, k2)) && m[page_va(sb, k2)].0.base() == cur.base_of(i));
            }
            assert(frame_mapped(m, cur.base_of(i)));
        } else {
            assert(cur.states()[i] == p1[i]);
            if cur.states()[i] == FrameState::Allocated && frame_mapped(m, cur.base_of(i)) {
                let va = choose|va: usize| #[trigger] m.contains_key(va) && m[va].0.base() == cur.base_of(i);
                if in_region(va, ib, im) {
                    let j = choose|j: int| 0 <= j < im && va == #[trigger] page_va(ib, j);
                    assert(plan[0 + j] == image_fill(m[page_va(ib, j)].0, image_len, j));
                    assert(cur.base_of(leaves[j]) == cur.base_of(i));
                    assert(leaves[j] == i);
                    assert(leaves.contains(i));
                } else {
                    assert(in_region(va, sb, sm));
                    let j = choose|j: int| 0 <= j < sm && va == #[trigger] page_va(sb, j);
                    assert(plan[im + j] == stack_fill(m[page_va(sb, j)].0));
                    assert(cur.base_of(leaves[im + j]) == cur.base_of(i));
                    assert(leaves[im + j] == i);
                    assert(leaves.contains(i));
                }
            }
        }
    }
    assert(fin.states() =~= p1);
}

/// `page_count` in terms of division and remainder.
proof fn lemma_page_count(len: int)
    requires
        len >= 0,
    ensures
        page_count(len) == len / 4096 + (if len % 4096 != 0 { 1int } else { 0int }),
        forall|i: int| 0 <= i < page_count(len) ==> #[trigger] (i * 4096) < len,
{
    vstd::arithmetic::div_mod::lemma_fundamental_div_mod(len, 4096);
    vstd::arithmetic::div_mod::lemma_fundamental_div_mod(len + 4095, 4096);
    let q = len / 4096;
    let r = len % 4096;
    assert(page_count(len) == q + (if r != 0 { 1int } else { 0int })) by (nonlinear_arith)
        requires
            len == 4096 * q + r,
            0 <= r < 4096,
            len + 4095 == 4096 * ((len + 4095) / 4096) + (len + 4095) % 4096,
            0 <= (len + 4095) % 4096 < 4096,
            page_count(len) == (len + 4095) / 4096,
    ;
    assert forall|i: int| 0 <= i < page_count(len) implies #[trigger] (i * 4096) < len by {
        assert(i * 4096 < len) by (nonlinear_arith)
            requires
                0 <= i,
                i < q + (if r != 0 { 1int } else { 0int }),
                len == 4096 * q + r,
                0 <= r < 4096,
        ;
    }
}

/// Load `image` (whose physical address is `image_pa`) into a fresh
/// address space created under `parent_as_cap`, with `new_rights` on the
/// new capability: image pages at `image_base_va` mapped `USER | EXECUTE`,
/// `stack_size_pages` stack pages directly above them mapped
/// `USER | WRITE`. Each page gets a fresh frame from `pmm`; on success
/// `fills` is extended with what each of those frames must hold (the
/// image page's bytes, the rest zero; a stack page all zero), in page
/// order, for the caller to write before the address space is used.
///
/// Nothing changes when a check before the address space is created
/// fails ([`preflight_error`], then [`create_error`]). A failure while
/// mapping rolls back: the capability table is as before, no address
/// space that existed before is changed, and the new address space keeps
/// no mapping (it, its root frame and any intermediate tables stay
/// allocated).
///
/// Whatever the MMU, a successful load maps each image and stack page to
/// a frame of its own that this call took from the PMM free and that is
/// still allocated, none of them the root frame ([`fresh_page_frames`]),
/// and frees no frame. With an MMU that takes no frames for tables of its
/// own, the PMM ends a failed load with only the root frame newly
/// allocated, and a successful one with exactly the root, image and stack
/// frames newly allocated.
///
/// # Errors
///
/// Every variant of [`LoadError`], as above.
pub fn load_image<M: Mmu, const N: usize, const R: usize>(
    image: &[u8],
    image_pa: usize,
    pmm: &mut Pmm<N, R>,
    mmu: &mut M,
    table: &mut CapabilityTable,
    as_arena: &mut AddressSpaceArena<M>,
    parent_as_cap: CapHandle,
    new_rights: CapRights,
    image_base_va: VirtAddr,
    stack_size_pages: usize,
    fills: &mut Vec<PageFill>,
) -> (r: Result<LoadedImage, LoadError>)
    requires
        old(pmm).wf(),
        old(table).wf(),
        old(as_arena).wf(),
    ensures
        final(pmm).wf(),
        final(table).wf(),
        final(as_arena).wf(),
        r is Err ==> final(fills)@ == old(fills)@,
        r matches Err(LoadError::FrameBudgetExceeded { needed, available }) ==> needed > available
            && available == count_state(old(pmm).states(), FrameState::Free),
        preflight_error(image@, image_pa, &*old(pmm), &*old(table), parent_as_cap, stack_size_pages)
            matches Some(e) ==> {
            &&& r == Err::<LoadedImage, LoadError>(e)
            &&& *final(pmm) == *old(pmm)
            &&& *final(table) == *old(table)
            &&& *final(as_arena) == *old(as_arena)
            &&& *final(mmu) == *old(mmu)
        },
        preflight_error(image@, image_pa, &*old(pmm), &*old(table), parent_as_cap, stack_size_pages)
            is None ==> {
            let ce = create_error(&*old(table), parent_as_cap, new_rights, &*old(pmm), &*old(as_arena));
            &&& ce matches Some(e) ==> {
                &&& r == Err::<LoadedImage, LoadError>(LoadError::AddressSpaceCreationFailed(e))
                &&& *final(table) == *old(table)
                &&& *final(as_arena) == *old(as_arena)
                &&& final(pmm).states() == old(pmm).states()
            }
            &&& ce is None && r is Err && M::map_keeps_frames() ==> {
                let s0 = old(pmm).states();
                let s1 = final(pmm).states();
                &&& exists|ri: int| is_lowest_free(s0, ri) && s1 == s0.update(ri, FrameState::Allocated)
                &&& count_state(s1, FrameState::Free) + 1 == count_state(s0, FrameState::Free)
            }
            &&& ce is None && r is Ok && M::map_keeps_frames() ==> {
                let s0 = old(pmm).states();
                let s1 = final(pmm).states();
                &&& count_state(s1, FrameState::Free) + 1 + page_count(image@.len() as int)
                    + stack_size_pages == count_state(s0, FrameState::Free)
                &&& s1.len() == s0.len()
                &&& forall|i: int| 0 <= i < s0.len() && #[trigger] s1[i] != s0[i]
                    ==> s0[i] == FrameState::Free && s1[i] == FrameState::Allocated
            }
            &&& ce is None && r is Err ==> {
                &&& (r == Err::<LoadedImage, LoadError>(LoadError::OutOfFrames) || r matches Err(
                    LoadError::MapFailed(_),
                ))
                &&& final(table)@ == old(table)@
                &&& forall|s: SlotId| #[trigger] final(table)@.contains_key(s)
                    ==> final(table).parent_of(s) == old(table).parent_of(s)
                &&& forall|s: SlotId| #[trigger] old(as_arena)@.contains_key(s)
                    ==> final(as_arena)@.contains_key(s) && final(as_arena)@[s] == old(as_arena)@[s]
                &&& forall|s: SlotId| #[trigger] final(as_arena)@.contains_key(s)
                    && !old(as_arena)@.contains_key(s)
                    ==> final(as_arena)@[s].spec_mappings() == Map::<usize, Mapping>::empty()
            }
        },
        r matches Ok(li) ==> {
            let pages = page_count(image@.len() as int);
            let stack_base = page_va(image_base_va.0, pages);
            &&& li.entry_va == image_base_va
            &&& final(pmm).kept_allocations(&*old(pmm))
            &&& li.image_bytes == image@.len()
            &&& li.stack_bytes == sat_usize(stack_size_pages * PAGE_SIZE)
            &&& li.stack_top_va.0 == page_va(stack_base, stack_size_pages as int)
            &&& !old(table)@.contains_key(li.as_cap@)
            &&& final(table)@ == old(table)@.insert(li.as_cap@, final(table)@[li.as_cap@])
            &&& final(table)@[li.as_cap@].spec_rights() == new_rights
            &&& final(table).parent_of(li.as_cap@) == Some(parent_as_cap@)
            &&& as_handle_of(&*final(table), li.as_cap) matches Some(h) && {
                let m = final(as_arena)@[h@].spec_mappings();
                &&& !old(as_arena)@.contains_key(h@)
                &&& final(as_arena)@ == old(as_arena)@.insert(h@, final(as_arena)@[h@])
                &&& region_mapped(m, image_base_va.0, pages, USER_BIT | EXECUTE_BIT)
                &&& region_mapped(m, stack_base, stack_size_pages as int, USER_BIT | WRITE_BIT)
                &&& mappings_within(
                    m,
                    image_base_va.0,
                    pages,
                    stack_base,
                    stack_size_pages as int,
                )
                &&& final(fills)@.len() == old(fills)@.len() + pages + stack_size_pages
                &&& final(fills)@.subrange(0, old(fills)@.len() as int) == old(fills)@
                &&& image_fills_planned(
                    final(fills)@,
                    old(fills)@.len() as int,
                    m,
                    image_base_va.0,
                    image@.len() as int,
                    pages,
                )
                &&& stack_fills_planned(
                    final(fills)@,
                    old(fills)@.len() + pages,
                    m,
                    stack_base,
                    stack_size_pages as int,
                )
                &&& exists|ri: int, leaves: Seq<int>|
                    #[trigger] fresh_page_frames(
                        &*old(pmm),
                        &*final(pmm),
                        m,
                        image_base_va.0,
                        pages,
                        stack_base,
                        stack_size_pages as int,
                        final(as_arena)@[h@].spec_root(),
                        ri,
                        leaves,
                    )
            }
        },
{
    if image.len() == 0 {
        return Err(LoadError::InvalidImage);
    }
    if stack_size_pages == 0 {
        return Err(LoadError::InvalidStackSize);
    }
    let parent = match table.lookup(parent_as_cap) {
        Ok(c) => c,
        Err(e) => return Err(LoadError::InvalidParentCap(e)),
    };
    if parent.kind() != CapKind::AddressSpace {
        return Err(LoadError::InvalidParentCap(CapError::WrongKind));
    }
    let len = image.len();
    proof {
        lemma_page_count(len as int);
    }
    let image_pages: usize = len / PAGE_SIZE + if len % PAGE_SIZE != 0 {
        1
    } else {
        0
    };
    let stack_pages = stack_size_pages;
    let needed = 1usize.saturating_add(image_pages).saturating_add(stack_pages).saturating_add(
        INTERMEDIATE_FRAME_BUDGET,
    );
    let available = pmm.stats().free_frames;
    if needed > available {
        return Err(LoadError::FrameBudgetExceeded { needed, available });
    }
    let image_pa_end = image_pa.saturating_add(len);
    if pmm.could_yield_pa_overlapping(image_pa..image_pa_end) {
        return Err(LoadError::ImageOverlapsAllocatableMemory);
    }
    let ghost t0 = *table;
    let ghost a0 = *as_arena;
    let loaded_as_cap = match cap_create_address_space(
        table,
        parent_as_cap,
        new_rights,
        mmu,
        pmm,
        as_arena,
    ) {
        Ok(c) => c,
        Err(e) => return Err(LoadError::AddressSpaceCreationFailed(e)),
    };
    let ghost t1 = *table;
    let ghost a1 = *as_arena;
    let ghost h = as_handle_of(&t1, loaded_as_cap).unwrap();
    let stack_base_va = VirtAddr(page_offset(image_base_va.0, image_pages));
    let (user, execute, write) = (MappingFlags::user(), MappingFlags::execute(), MappingFlags::write());
    let ux = user | execute;
    let uw = user | write;
    proof {
        lemma_bitor_is_union(user, execute);
        lemma_bitor_is_union(user, write);
        assert(a1@[h@].spec_mappings() =~= Map::<usize, Mapping>::empty());
    }
    let ghost p1s = pmm.states();
    let ghost ri = (a1@[h@].spec_root().base() - old(pmm).spec_extent().start.0) / (PAGE_SIZE as int);
    let ghost mut leaves: Seq<int> = Seq::empty();
    proof {
        lemma_count_update(old(pmm).states(), ri, FrameState::Allocated, FrameState::Free);
        assert(pmm.states() =~= leaf_states(p1s, leaves));
        assert(pmm.kept_allocations(&*old(pmm)));
    }
    let mut plan: Vec<PageFill> = Vec::new();
    let mut i: usize = 0;
    while i < image_pages
        invariant
            *fills == *old(fills),
            p1s == old(pmm).states().update(ri, FrameState::Allocated),
            is_lowest_free(old(pmm).states(), ri),
            count_state(p1s, FrameState::Free) + 1 == count_state(old(pmm).states(), FrameState::Free),
            leaves.len() == plan@.len(),
            M::map_keeps_frames() ==> {
                &&& pmm.states() == leaf_states(p1s, leaves)
                &&& forall|k: int| 0 <= k < leaves.len() ==> 0 <= #[trigger] leaves[k] < p1s.len()
                    && p1s[leaves[k]] == FrameState::Free
                &&& count_state(pmm.states(), FrameState::Free) + 1 + leaves.len() == count_state(
                    old(pmm).states(),
                    FrameState::Free,
                )
            },
            pmm.kept_allocations(&*old(pmm)),
            0 <= ri < old(pmm).total(),
            pmm.states()[ri] == FrameState::Allocated,
            forall|k: int|
                0 <= k < leaves.len() ==> 0 <= #[trigger] leaves[k] < old(pmm).total() && leaves[k]
                    != ri && old(pmm).states()[leaves[k]] == FrameState::Free
                    && pmm.states()[leaves[k]] == FrameState::Allocated && plan@[k].frame.base()
                    == old(pmm).base_of(leaves[k]),
            forall|a: int, b: int|
                0 <= a < b < leaves.len() ==> #[trigger] leaves[a] != #[trigger] leaves[b],
            a1@[h@].spec_root().base() == old(pmm).base_of(ri),
            as_arena@[h@].spec_root() == a1@[h@].spec_root(),
            plan@.len() == i,
            image_fills_planned(plan@, 0, as_arena@[h@].spec_mappings(), image_base_va.0, len as int, i as int),
            len == image@.len(),
            image_pages == page_count(len as int),
            i <= image_pages,
            forall|k: int| 0 <= k < page_count(len as int) ==> #[trigger] (k * 4096) < len,
            stack_base_va.0 == page_va(image_base_va.0, image_pages as int),
            ux@ == USER_BIT | EXECUTE_BIT,
            t0 == *old(table),
            a0 == *old(as_arena),
            preflight_error(image@, image_pa, &*old(pmm), &t0, parent_as_cap, stack_size_pages)
                is None,
            create_error(&t0, parent_as_cap, new_rights, &*old(pmm), &a0) is None,
            !t0@.contains_key(loaded_as_cap@),
            t1@ == t0@.insert(loaded_as_cap@, t1@[loaded_as_cap@]),
            forall|s: SlotId| #[trigger] t0@.contains_key(s) ==> t1.parent_of(s) == t0.parent_of(s),
            t1.parent_of(loaded_as_cap@) == Some(parent_as_cap@),
            t1@[loaded_as_cap@].spec_rights() == new_rights,
            !a0@.contains_key(h@),
            a1@ == a0@.insert(h@, a1@[h@]),
            *table == t1,
            t1.wf(),
            t1@.contains_key(loaded_as_cap@),
            !t1.has_children(loaded_as_cap@),
            as_handle_of(&t1, loaded_as_cap) == Some(h),
            pmm.wf(),
            as_arena.wf(),
            a1@.contains_key(h@),
            as_arena@ == a1@.insert(h@, as_arena@[h@]),
            region_mapped(as_arena@[h@].spec_mappings(), image_base_va.0, i as int, USER_BIT
                | EXECUTE_BIT),
            mappings_within(
                as_arena@[h@].spec_mappings(),
                image_base_va.0,
                i as int,
                stack_base_va.0,
                0,
            ),
        decreases image_pages - i,
    {
        let ghost pre = *pmm;
        let frame = match pmm.alloc_frame() {
            Some(f) => f,
            None => {
                let ghost rb = *pmm;
                let ghost m_rb = as_arena@[h@].spec_mappings();
                rollback(
                    table,
                    pmm,
                    mmu,
                    as_arena,
                    loaded_as_cap,
                    image_base_va,
                    stack_base_va,
                    i,
                    0,
                );
                proof {
                    if M::map_keeps_frames() {
                        lemma_leaves_restored(&rb, &*pmm, p1s, leaves, plan@, m_rb, image_base_va.0, i as int, stack_base_va.0, 0, len as int);
                    }
                }
                return Err(LoadError::OutOfFrames);
            },
        };
        let ghost i0 = (frame.base() - pre.spec_extent().start.0) / (PAGE_SIZE as int);
        proof {
            lemma_fresh_leaf(&*old(pmm), &pre, &*pmm, ri, leaves, i0);
            if M::map_keeps_frames() {
                assert(p1s[i0] == FrameState::Free);
                lemma_count_update(pre.states(), i0, FrameState::Allocated, FrameState::Free);
            }
        }
        let ghost post_alloc = *pmm;
        assert((i as int) * 4096 < len);
        let start = i * PAGE_SIZE;
        let rem = len - start;
        let n = if rem < PAGE_SIZE {
            rem
        } else {
            PAGE_SIZE
        };
        let va = VirtAddr(page_offset(image_base_va.0, i));
        let ghost before = as_arena@[h@].spec_mappings();
        match cap_map(&*table, loaded_as_cap, mmu, pmm, as_arena, va, frame, ux) {
            Ok(()) => {},
            Err(e) => {
                proof {
                    if M::map_keeps_frames() {
                        pre.lemma_frame_in_extent(i0);
                    }
                }
                let _ = pmm.free_frame(frame);
                proof {
                    if M::map_keeps_frames() {
                        assert(pmm.states() =~= pre.states());
                    }
                }
                let ghost rb = *pmm;
                let ghost m_rb = as_arena@[h@].spec_mappings();
                rollback(
                    table,
                    pmm,
                    mmu,
                    as_arena,
                    loaded_as_cap,
                    image_base_va,
                    stack_base_va,
                    i,
                    0,
                );
                proof {
                    if M::map_keeps_frames() {
                        lemma_leaves_restored(&rb, &*pmm, p1s, leaves, plan@, m_rb, image_base_va.0, i as int, stack_base_va.0, 0, len as int);
                    }
                }
                return Err(LoadError::MapFailed(e));
            },
        }
        plan.push(PageFill { frame, image_offset: start, len: n });
        proof {
            let ghost_old_leaves = leaves;
            leaves = leaves.push(i0);
            assert forall|x: int| 0 <= x < old(pmm).total() && old(pmm).states()[x] == FrameState::Allocated
                implies #[trigger] pmm.states()[x] == FrameState::Allocated by {
                assert(post_alloc.states()[x] == FrameState::Allocated);
            }
            assert forall|k: int| 0 <= k < leaves.len() implies 0 <= #[trigger] leaves[k] < old(pmm).total()
                && leaves[k] != ri && old(pmm).states()[leaves[k]] == FrameState::Free
                && pmm.states()[leaves[k]] == FrameState::Allocated && plan@[k].frame.base()
                == old(pmm).base_of(leaves[k]) by {
                if k < ghost_old_leaves.len() {
                    assert(ghost_old_leaves[k] == leaves[k]);
                    assert(post_alloc.states()[leaves[k]] == FrameState::Allocated);
                } else {
                    assert(leaves[k] == i0);
                }
            }
            assert forall|a: int, b: int| 0 <= a < b < leaves.len() implies #[trigger] leaves[a]
                != #[trigger] leaves[b] by {
                assert(leaves[a] == ghost_old_leaves[a]);
                if b < ghost_old_leaves.len() {
                    assert(leaves[b] == ghost_old_leaves[b]);
                } else {
                    assert(leaves[b] == i0);
                    assert(ghost_old_leaves.contains(leaves[a]));
                }
            }
            assert(pmm.states()[ri] == FrameState::Allocated) by {
                assert(post_alloc.states()[ri] == FrameState::Allocated);
            }
            if M::map_keeps_frames() {
                assert forall|x: int| 0 <= x < p1s.len() implies #[trigger] pmm.states()[x] == leaf_states(p1s, leaves)[x] by {
                    if x == i0 {
                        assert(leaves[leaves.len() - 1] == i0);
                    } else if ghost_old_leaves.contains(x) {
                        let k = choose|k: int| 0 <= k < ghost_old_leaves.len() && ghost_old_leaves[k] == x;
                        assert(leaves[k] == x);
                    } else if leaves.contains(x) {
                        let k = choose|k: int| 0 <= k < leaves.len() && leaves[k] == x;
                        assert(k < ghost_old_leaves.len());
                        assert(ghost_old_leaves[k] == x);
                    }
                }
                assert(pmm.states() =~= leaf_states(p1s, leaves));
                assert forall|k: int| 0 <= k < leaves.len() implies 0 <= #[trigger] leaves[k] < p1s.len()
                    && p1s[leaves[k]] == FrameState::Free by {
                    if k < ghost_old_leaves.len() {
                        assert(ghost_old_leaves[k] == leaves[k]);
                    }
                }
            }
            let after = as_arena@[h@].spec_mappings();
            assert(after == before.insert(va.0, (frame, ux)));
            assert(!before.contains_key(va.0));
            assert(page_va(image_base_va.0, i as int) == va.0);
            assert forall|j: int| 0 <= j < i + 1 implies #[trigger] plan@[0 + j] == image_fill(
                after[page_va(image_base_va.0, j)].0,
                len as int,
                j,
            ) by {
                if j < i {
                    assert(plan@[0 + j] == image_fill(before[page_va(image_base_va.0, j)].0, len as int, j));
                    assert(before.contains_key(page_va(image_base_va.0, j)));
                }
            }
            assert forall|k: usize| #[trigger] after.contains_key(k) implies k % PAGE_SIZE == 0
                && (in_region(k, image_base_va.0, i + 1) || in_region(k, stack_base_va.0, 0)) by {
                if k != va.0 {
                    assert(before.contains_key(k));
                }
            }
        }
        i = i + 1;
    }
    let mut i: usize = 0;
    while i < stack_pages
        invariant
            *fills == *old(fills),
            p1s == old(pmm).states().update(ri, FrameState::Allocated),
            is_lowest_free(old(pmm).states(), ri),
            count_state(p1s, FrameState::Free) + 1 == count_state(old(pmm).states(), FrameState::Free),
            leaves.len() == plan@.len(),
            M::map_keeps_frames() ==> {
                &&& pmm.states() == leaf_states(p1s, leaves)
                &&& forall|k: int| 0 <= k < leaves.len() ==> 0 <= #[trigger] leaves[k] < p1s.len()
                    && p1s[leaves[k]] == FrameState::Free
                &&& count_state(pmm.states(), FrameState::Free) + 1 + leaves.len() == count_state(
                    old(pmm).states(),
                    FrameState::Free,
                )
            },
            pmm.kept_allocations(&*old(pmm)),
            0 <= ri < old(pmm).total(),
            pmm.states()[ri] == FrameState::Allocated,
            forall|k: int|
                0 <= k < leaves.len() ==> 0 <= #[trigger] leaves[k] < old(pmm).total() && leaves[k]
                    != ri && old(pmm).states()[leaves[k]] == FrameState::Free
                    && pmm.states()[leaves[k]] == FrameState::Allocated && plan@[k].frame.base()
                    == old(pmm).base_of(leaves[k]),
            forall|a: int, b: int|
                0 <= a < b < leaves.len() ==> #[trigger] leaves[a] != #[trigger] leaves[b],
            a1@[h@].spec_root().base() == old(pmm).base_of(ri),
            as_arena@[h@].spec_root() == a1@[h@].spec_root(),
            plan@.len() == image_pages + i,
            len == image@.len(),
            image_fills_planned(plan@, 0, as_arena@[h@].spec_mappings(), image_base_va.0, len as int, image_pages as int),
            stack_fills_planned(plan@, image_pages as int, as_arena@[h@].spec_mappings(), stack_base_va.0, i as int),
            stack_pages == stack_size_pages,
            i <= stack_pages,
            image_pages == page_count(image@.len() as int),
            stack_base_va.0 == page_va(image_base_va.0, image_pages as int),
            ux@ == USER_BIT | EXECUTE_BIT,
            uw@ == USER_BIT | WRITE_BIT,
            t0 == *old(table),
            a0 == *old(as_arena),
            preflight_error(image@, image_pa, &*old(pmm), &t0, parent_as_cap, stack_size_pages)
                is None,
            create_error(&t0, parent_as_cap, new_rights, &*old(pmm), &a0) is None,
            !t0@.contains_key(loaded_as_cap@),
            t1@ == t0@.insert(loaded_as_cap@, t1@[loaded_as_cap@]),
            forall|s: SlotId| #[trigger] t0@.contains_key(s) ==> t1.parent_of(s) == t0.parent_of(s),
            t1.parent_of(loaded_as_cap@) == Some(parent_as_cap@),
            t1@[loaded_as_cap@].spec_rights() == new_rights,
            !a0@.contains_key(h@),
            a1@ == a0@.insert(h@, a1@[h@]),
            *table == t1,
            t1.wf(),
            t1@.contains_key(loaded_as_cap@),
            !t1.has_children(loaded_as_cap@),
            as_handle_of(&t1, loaded_as_cap) == Some(h),
            pmm.wf(),
            as_arena.wf(),
            a1@.contains_key(h@),
            as_arena@ == a1@.insert(h@, as_arena@[h@]),
            region_mapped(as_arena@[h@].spec_mappings(), image_base_va.0, image_pages as int, USER_BIT
                | EXECUTE_BIT),
            region_mapped(as_arena@[h@].spec_mappings(), stack_base_va.0, i as int, USER_BIT
                | WRITE_BIT),
            mappings_within(
                as_arena@[h@].spec_mappings(),
                image_base_va.0,
                image_pages as int,
                stack_base_va.0,
                i as int,
            ),
        decreases stack_pages - i,
    {
        let ghost pre = *pmm;
        let frame = match pmm.alloc_frame() {
            Some(f) => f,
            None => {
                let ghost rb = *pmm;
                let ghost m_rb = as_arena@[h@].spec_mappings();
                rollback(
                    table,
                    pmm,
                    mmu,
                    as_arena,
                    loaded_as_cap,
                    image_base_va,
                    stack_base_va,
                    image_pages,
                    i,
                );
                proof {
                    if M::map_keeps_frames() {
                        lemma_leaves_restored(&rb, &*pmm, p1s, leaves, plan@, m_rb, image_base_va.0, image_pages as int, stack_base_va.0, i as int, len as int);
                    }
                }
                return Err(LoadError::OutOfFrames);
            },
        };
        let ghost i0 = (frame.base() - pre.spec_extent().start.0) / (PAGE_SIZE as int);
        proof {
            lemma_fresh_leaf(&*old(pmm), &pre, &*pmm, ri, leaves, i0);
            if M::map_keeps_frames() {
                assert(p1s[i0] == FrameState::Free);
                lemma_count_update(pre.states(), i0, FrameState::Allocated, FrameState::Free);
            }
        }
        let ghost post_alloc = *pmm;
        let va = VirtAddr(page_offset(stack_base_va.0, i));
        let ghost before = as_arena@[h@].spec_mappings();
        match cap_map(&*table, loaded_as_cap, mmu, pmm, as_arena, va, frame, uw) {
            Ok(()) => {},
            Err(e) => {
                proof {
                    if M::map_keeps_frames() {
                        pre.lemma_frame_in_extent(i0);
                    }
                }
                let _ = pmm.free_frame(frame);
                proof {
                    if M::map_keeps_frames() {
                        assert(pmm.states() =~= pre.states());
                    }
                }
                let ghost rb = *pmm;
                let ghost m_rb = as_arena@[h@].spec_mappings();
                rollback(
                    table,
                    pmm,
                    mmu,
                    as_arena,
                    loaded_as_cap,
                    image_base_va,
                    stack_base_va,
                    image_pages,
                    i,
                );
                proof {
                    if M::map_keeps_frames() {
                        lemma_leaves_restored(&rb, &*pmm, p1s, leaves, plan@, m_rb, image_base_va.0, image_pages as int, stack_base_va.0, i as int, len as int);
                    }
                }
                return Err(LoadError::MapFailed(e));
            },
        }
        plan.push(PageFill { frame, image_offset: 0, len: 0 });
        proof {
            let ghost_old_leaves = leaves;
            leaves = leaves.push(i0);
            assert forall|x: int| 0 <= x < old(pmm).total() && old(pmm).states()[x] == FrameState::Allocated
                implies #[trigger] pmm.states()[x] == FrameState::Allocated by {
                assert(post_alloc.states()[x] == FrameState::Allocated);
            }
            assert forall|k: int| 0 <= k < leaves.len() implies 0 <= #[trigger] leaves[k] < old(pmm).total()
                && leaves[k] != ri && old(pmm).states()[leaves[k]] == FrameState::Free
                && pmm.states()[leaves[k]] == FrameState::Allocated && plan@[k].frame.base()
                == old(pmm).base_of(leaves[k]) by {
                if k < ghost_old_leaves.len() {
                    assert(ghost_old_leaves[k] == leaves[k]);
                    assert(post_alloc.states()[leaves[k]] == FrameState::Allocated);
                } else {
                    assert(leaves[k] == i0);
                }
            }
            assert forall|a: int, b: int| 0 <= a < b < leaves.len() implies #[trigger] leaves[a]
                != #[trigger] leaves[b] by {
                assert(leaves[a] == ghost_old_leaves[a]);
                if b < ghost_old_leaves.len() {
                    assert(leaves[b] == ghost_old_leaves[b]);
                } else {
                    assert(leaves[b] == i0);
                    assert(ghost_old_leaves.contains(leaves[a]));
                }
            }
            assert(pmm.states()[ri] == FrameState::Allocated) by {
                assert(post_alloc.states()[ri] == FrameState::Allocated);
            }
            if M::map_keeps_frames() {
                assert forall|x: int| 0 <= x < p1s.len() implies #[trigger] pmm.states()[x] == leaf_states(p1s, leaves)[x] by {
                    if x == i0 {
                        assert(leaves[leaves.len() - 1] == i0);
                    } else if ghost_old_leaves.contains(x) {
                        let k = choose|k: int| 0 <= k < ghost_old_leaves.len() && ghost_old_leaves[k] == x;
                        assert(leaves[k] == x);
                    } else if leaves.contains(x) {
                        let k = choose|k: int| 0 <= k < leaves.len() && leaves[k] == x;
                        assert(k < ghost_old_leaves.len());
                        assert(ghost_old_leaves[k] == x);
                    }
                }
                assert(pmm.states() =~= leaf_states(p1s, leaves));
                assert forall|k: int| 0 <= k < leaves.len() implies 0 <= #[trigger] leaves[k] < p1s.len()
                    && p1s[leaves[k]] == FrameState::Free by {
                    if k < ghost_old_leaves.len() {
                        assert(ghost_old_leaves[k] == leaves[k]);
                    }
                }
            }
            let after = as_arena@[h@].spec_mappings();
            assert(after == before.insert(va.0, (frame, uw)));
            assert(!before.contains_key(va.0));
            assert(page_va(stack_base_va.0, i as int) == va.0);
            assert forall|j: int| 0 <= j < image_pages implies #[trigger] plan@[0 + j] == image_fill(
                after[page_va(image_base_va.0, j)].0,
                len as int,
                j,
            ) by {
                assert(plan@[0 + j] == image_fill(before[page_va(image_base_va.0, j)].0, len as int, j));
                assert(before.contains_key(page_va(image_base_va.0, j)));
            }
            assert forall|k: int| 0 <= k < i + 1 implies #[trigger] plan@[image_pages + k] == stack_fill(
                after[page_va(stack_base_va.0, k)].0,
            ) by {
                if k < i {
                    assert(plan@[image_pages + k] == stack_fill(before[page_va(stack_base_va.0, k)].0));
                    assert(before.contains_key(page_va(stack_base_va.0, k)));
                }
            }
            assert forall|k: usize| #[trigger] after.contains_key(k) implies k % PAGE_SIZE == 0
                && (in_region(k, image_base_va.0, image_pages as int) || in_region(
                k,
                stack_base_va.0,
                i + 1,
            )) by {
                if k != va.0 {
                    assert(before.contains_key(k));
                }
            }
            assert forall|j: int| 0 <= j < image_pages implies after.contains_key(
                #[trigger] page_va(image_base_va.0, j),
            ) && after[page_va(image_base_va.0, j)].1@ == USER_BIT | EXECUTE_BIT by {
                assert(before.contains_key(page_va(image_base_va.0, j)));
            }
        }
        i = i + 1;
    }
    let ghost old_fills = fills@;
    let ghost planned = plan@;
    fills.append(&mut plan);
    proof {
        let m = as_arena@[h@].spec_mappings();
        let n0 = old_fills.len() as int;
        assert(fills@ == old_fills + planned);
        assert(fills@.subrange(0, n0) =~= old_fills);
        assert forall|j: int| 0 <= j < image_pages implies #[trigger] fills@[n0 + j] == image_fill(
            m[page_va(image_base_va.0, j)].0,
            len as int,
            j,
        ) by {
            assert(planned[0 + j] == image_fill(m[page_va(image_base_va.0, j)].0, len as int, j));
        }
        assert forall|k: int| 0 <= k < stack_pages implies #[trigger] fills@[n0 + image_pages + k]
            == stack_fill(m[page_va(stack_base_va.0, k)].0) by {
            assert(planned[image_pages + k] == stack_fill(m[page_va(stack_base_va.0, k)].0));
        }
    }
    proof {
        let m = as_arena@[h@].spec_mappings();
        assert forall|j: int| 0 <= j < image_pages implies m[#[trigger] page_va(
            image_base_va.0,
            j,
        )].0.base() == old(pmm).base_of(leaves[j]) by {
            assert(planned[0 + j] == image_fill(m[page_va(image_base_va.0, j)].0, len as int, j));
        }
        assert forall|k: int| 0 <= k < stack_pages implies m[#[trigger] page_va(
            stack_base_va.0,
            k,
        )].0.base() == old(pmm).base_of(leaves[image_pages + k]) by {
            assert(planned[image_pages + k] == stack_fill(m[page_va(stack_base_va.0, k)].0));
        }
        assert(fresh_page_frames(
            &*old(pmm),
            &*pmm,
            m,
            image_base_va.0,
            image_pages as int,
            stack_base_va.0,
            stack_pages as int,
            as_arena@[h@].spec_root(),
            ri,
            leaves,
        ));
    }
    let stack_top_va = VirtAddr(page_offset(stack_base_va.0, stack_pages));
    Ok(
        LoadedImage {
            as_cap: loaded_as_cap,
            entry_va: image_base_va,
            stack_top_va,
            image_bytes: len,
            stack_bytes: page_offset(0, stack_pages),
        },
    )
}

} // verus!
