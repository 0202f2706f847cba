use tyrne::hal::mmu::{FrameProvider, PhysAddr, PhysFrame};
use tyrne::mm::pmm::{zero_frame_bytes, Pmm, PmmError};
use tyrne::mm::PhysFrameRange;

/// Base of the synthetic extent the allocation tests manage. The PMM
/// itself never touches frame memory, so any page-aligned address range
/// works; where a test needs frame contents, a buffer stands for RAM.
const BASE: usize = 0x4000_0000;

fn extent_4f() -> PhysFrameRange {
    PhysFrameRange::new(PhysAddr(0x4000_0000), PhysAddr(0x4000_4000))
}

fn pmm_over(frames: usize, reserved: &[(usize, usize)]) -> Pmm<2, 4> {
    let extent = PhysFrameRange::new(PhysAddr(BASE), PhysAddr(BASE + frames * 4096));
    let reserved_ranges: Vec<PhysFrameRange> = reserved
        .iter()
        .map(|&(s, e)| PhysFrameRange::new(PhysAddr(BASE + s * 4096), PhysAddr(BASE + e * 4096)))
        .collect();
    Pmm::new(extent, &reserved_ranges).expect("Pmm::new must succeed")
}

fn alloc_via_provider<F: FrameProvider>(p: &mut F) -> Option<PhysFrame> {
    p.alloc_frame()
}

#[test]
fn new_marks_reserved_ranges_and_initialises_counters() {
    let extent = PhysFrameRange::new(PhysAddr(0x4000_0000), PhysAddr(0x4001_0000));
    let reserved = [
        PhysFrameRange::new(PhysAddr(0x4000_0000), PhysAddr(0x4000_1000)),
        PhysFrameRange::new(PhysAddr(0x4000_8000), PhysAddr(0x4000_9000)),
    ];
    let pmm: Pmm<2, 4> = Pmm::new(extent, &reserved).expect("new must succeed");

    let stats = pmm.stats();
    assert_eq!(stats.total_frames, 16);
    assert_eq!(stats.reserved_frames, 2);
    assert_eq!(stats.allocated_frames, 0);
    assert_eq!(stats.free_frames, 14);
    assert_eq!(pmm.hint(), 1);
    assert_eq!(pmm.reserved_ranges()[0], Some(reserved[0]));
    assert_eq!(pmm.reserved_ranges()[1], Some(reserved[1]));
    assert_eq!(pmm.reserved_ranges()[2], None);
    assert_eq!(pmm.reserved_ranges()[3], None);
}

#[test]
fn new_rejects_too_many_reserved_ranges() {
    let extent = PhysFrameRange::new(PhysAddr(0x4000_0000), PhysAddr(0x4001_0000));
    let reserved: [PhysFrameRange; 5] = [
        PhysFrameRange::new(PhysAddr(0x4000_0000), PhysAddr(0x4000_1000)),
        PhysFrameRange::new(PhysAddr(0x4000_1000), PhysAddr(0x4000_2000)),
        PhysFrameRange::new(PhysAddr(0x4000_2000), PhysAddr(0x4000_3000)),
        PhysFrameRange::new(PhysAddr(0x4000_3000), PhysAddr(0x4000_4000)),
        PhysFrameRange::new(PhysAddr(0x4000_4000), PhysAddr(0x4000_5000)),
    ];
    let result: Result<Pmm<2, 4>, _> = Pmm::new(extent, &reserved);
    assert_eq!(result.err(), Some(PmmError::TooManyReservedRanges));
}

#[test]
fn new_rejects_overlapping_reserved_ranges() {
    let extent = PhysFrameRange::new(PhysAddr(0x4000_0000), PhysAddr(0x4001_0000));
    let overlapping = [
        PhysFrameRange::new(PhysAddr(0x4000_0000), PhysAddr(0x4000_3000)),
        PhysFrameRange::new(PhysAddr(0x4000_2000), PhysAddr(0x4000_5000)),
    ];
    let result: Result<Pmm<2, 4>, _> = Pmm::new(extent, &overlapping);
    assert_eq!(result.err(), Some(PmmError::OverlappingReservedRanges));

    let duplicate = [
        PhysFrameRange::new(PhysAddr(0x4000_1000), PhysAddr(0x4000_2000)),
        PhysFrameRange::new(PhysAddr(0x4000_1000), PhysAddr(0x4000_2000)),
    ];
    let result: Result<Pmm<2, 4>, _> = Pmm::new(extent, &duplicate);
    assert_eq!(result.err(), Some(PmmError::OverlappingReservedRanges));

    let touching = [
        PhysFrameRange::new(PhysAddr(0x4000_0000), PhysAddr(0x4000_2000)),
        PhysFrameRange::new(PhysAddr(0x4000_2000), PhysAddr(0x4000_4000)),
    ];
    let result: Result<Pmm<2, 4>, _> = Pmm::new(extent, &touching);
    assert!(result.is_ok(), "touching half-open ranges must NOT trigger overlap rejection");
}

#[test]
fn new_rejects_unaligned_extent() {
    let extent_bad_start = PhysFrameRange::new(PhysAddr(0x4000_0001), PhysAddr(0x4001_0000));
    let result: Result<Pmm<2, 4>, _> = Pmm::new(extent_bad_start, &[]);
    assert_eq!(result.err(), Some(PmmError::MisalignedAddress));

    let extent_bad_end = PhysFrameRange::new(PhysAddr(0x4000_0000), PhysAddr(0x4001_0001));
    let result: Result<Pmm<2, 4>, _> = Pmm::new(extent_bad_end, &[]);
    assert_eq!(result.err(), Some(PmmError::MisalignedAddress));
}

#[test]
fn new_rejects_reserved_range_outside_extent() {
    let extent = PhysFrameRange::new(PhysAddr(0x4000_0000), PhysAddr(0x4001_0000));

    let reserved_above = [PhysFrameRange::new(PhysAddr(0x4002_0000), PhysAddr(0x4002_1000))];
    let result: Result<Pmm<2, 4>, _> = Pmm::new(extent, &reserved_above);
    assert_eq!(result.err(), Some(PmmError::OutOfRange));

    let reserved_partial = [PhysFrameRange::new(PhysAddr(0x4000_F000), PhysAddr(0x4001_2000))];
    let result: Result<Pmm<2, 4>, _> = Pmm::new(extent, &reserved_partial);
    assert_eq!(result.err(), Some(PmmError::OutOfRange));

    let reserved_below = [PhysFrameRange::new(PhysAddr(0x3FFF_0000), PhysAddr(0x3FFF_1000))];
    let result: Result<Pmm<2, 4>, _> = Pmm::new(extent, &reserved_below);
    assert_eq!(result.err(), Some(PmmError::OutOfRange));

    let reserved_unaligned = [PhysFrameRange::new(PhysAddr(0x4000_0001), PhysAddr(0x4000_1000))];
    let result: Result<Pmm<2, 4>, _> = Pmm::new(extent, &reserved_unaligned);
    assert_eq!(result.err(), Some(PmmError::MisalignedAddress));
}

#[test]
fn extent_4f_fixture_sanity() {
    let e = extent_4f();
    assert_eq!(e.frame_count(), 4);
    assert!(e.is_aligned());
    assert!(e.contains(PhysAddr(0x4000_0000)));
    assert!(e.contains(PhysAddr(0x4000_3FFF)));
    assert!(!e.contains(PhysAddr(0x4000_4000)));
}

#[test]
fn alloc_frame_returns_first_free_and_zeroes_payload() {
    // RAM behind the 16-frame extent, pre-poisoned so that the clear is
    // observable. The board glue clears each allocated frame with
    // `zero_frame_bytes`; the same is done here on the buffer.
    let mut ram = vec![0xA5u8; 16 * 4096];
    // Reserve frame 0; alloc should return frame 1.
    let mut pmm = pmm_over(16, &[(0, 1)]);
    let frame = pmm.alloc_frame().expect("alloc must succeed");
    assert_eq!(frame.addr(), PhysAddr(BASE + 4096));

    let off = frame.as_usize() - BASE;
    zero_frame_bytes(&mut ram[off..off + 4096]);
    for (i, byte) in ram[off..off + 4096].iter().enumerate() {
        assert_eq!(*byte, 0u8, "the allocated frame must be zero-filled (off={i})");
    }
    // The neighbouring frames keep their bytes.
    assert!(ram[..off].iter().all(|b| *b == 0xA5));
    assert!(ram[off + 4096..].iter().all(|b| *b == 0xA5));

    let stats = pmm.stats();
    assert_eq!(stats.allocated_frames, 1);
    assert_eq!(stats.free_frames, 14);
    assert_eq!(stats.reserved_frames, 1);
}

#[test]
fn free_frame_clears_bit_and_rewinds_hint() {
    let mut pmm = pmm_over(16, &[]);
    let f1 = pmm.alloc_frame().expect("alloc 1");
    let f2 = pmm.alloc_frame().expect("alloc 2");
    let f3 = pmm.alloc_frame().expect("alloc 3");
    assert!(pmm.hint() >= 3);

    pmm.free_frame(f1).expect("free f1");
    assert_eq!(pmm.hint(), 0);

    let f1_again = pmm.alloc_frame().expect("alloc after free");
    assert_eq!(f1_again, f1);

    pmm.free_frame(f2).expect("free f2");
    pmm.free_frame(f3).expect("free f3");

    let stats = pmm.stats();
    assert_eq!(stats.allocated_frames, 1);
    assert_eq!(stats.free_frames, 15);
}

#[test]
fn free_frame_rejects_double_free_and_reserved() {
    let mut pmm = pmm_over(16, &[(0, 1)]);

    let reserved_frame = PhysFrame::from_aligned(PhysAddr(BASE)).expect("aligned");
    assert_eq!(
        pmm.free_frame(reserved_frame),
        Err(PmmError::DoubleFree),
        "free of reserved frame must be DoubleFree"
    );

    let already_free = PhysFrame::from_aligned(PhysAddr(BASE + 4096)).expect("aligned");
    assert_eq!(
        pmm.free_frame(already_free),
        Err(PmmError::DoubleFree),
        "free of never-allocated frame must be DoubleFree"
    );

    let stats = pmm.stats();
    assert_eq!(stats.reserved_frames, 1);
    assert_eq!(stats.allocated_frames, 0);
    assert_eq!(stats.free_frames, 15);
}

#[test]
fn alloc_frame_returns_none_when_exhausted() {
    let mut pmm = pmm_over(4, &[]);
    let _f0 = pmm.alloc_frame().expect("alloc 0");
    let _f1 = pmm.alloc_frame().expect("alloc 1");
    let _f2 = pmm.alloc_frame().expect("alloc 2");
    let _f3 = pmm.alloc_frame().expect("alloc 3");

    assert_eq!(pmm.alloc_frame(), None);
    assert_eq!(pmm.stats().free_frames, 0);
    assert_eq!(pmm.stats().allocated_frames, 4);
}

#[test]
fn alloc_frame_recovers_after_free_under_exhaustion() {
    let mut pmm = pmm_over(4, &[]);
    let f0 = pmm.alloc_frame().expect("alloc 0");
    let _f1 = pmm.alloc_frame().expect("alloc 1");
    let _f2 = pmm.alloc_frame().expect("alloc 2");
    let _f3 = pmm.alloc_frame().expect("alloc 3");
    assert_eq!(pmm.alloc_frame(), None);

    pmm.free_frame(f0).expect("free f0");
    let f0_again = pmm.alloc_frame().expect("alloc after free");
    assert_eq!(f0_again, f0);
}

#[test]
fn stats_parity_with_bitmap_bit_count() {
    let mut pmm = pmm_over(16, &[(0, 2)]);
    let _f0 = pmm.alloc_frame().expect("alloc 0");
    let _f1 = pmm.alloc_frame().expect("alloc 1");
    let f2 = pmm.alloc_frame().expect("alloc 2");
    pmm.free_frame(f2).expect("free f2");

    let mut set_bits: usize = 0;
    for byte in pmm.bitmap() {
        set_bits += byte.count_ones() as usize;
    }
    assert_eq!(set_bits, 4);

    let stats = pmm.stats();
    assert_eq!(
        stats.reserved_frames + stats.allocated_frames,
        set_bits,
        "cached counters must match bitmap bit-count"
    );
    assert_eq!(stats.total_frames, 16);
    assert_eq!(stats.free_frames, 16 - set_bits);
}

#[test]
fn free_frame_reserved_check_iterates_only_populated_slots() {
    let mut pmm = pmm_over(16, &[(0, 1)]);
    let f = pmm.alloc_frame().expect("alloc");
    assert_eq!(
        pmm.free_frame(f),
        Ok(()),
        "non-reserved frame must free OK even when R=4 has None slots"
    );
}

#[test]
fn alloc_frame_implements_frame_provider() {
    let mut pmm = pmm_over(4, &[]);
    let f0 = alloc_via_provider(&mut pmm).expect("alloc via trait");
    let f1 = alloc_via_provider(&mut pmm).expect("alloc 2 via trait");
    assert_ne!(f0, f1);
    let _f2 = alloc_via_provider(&mut pmm).expect("alloc 3");
    let _f3 = alloc_via_provider(&mut pmm).expect("alloc 4");
    assert_eq!(alloc_via_provider(&mut pmm), None);
}

#[test]
fn could_yield_pa_overlapping_treats_allocated_frame_as_yieldable() {
    let mut pmm = pmm_over(4, &[]);
    let frame0 = pmm.alloc_frame().expect("alloc must succeed");
    assert_eq!(frame0.as_usize(), BASE);
    assert_eq!(pmm.stats().allocated_frames, 1);
    assert_eq!(pmm.stats().free_frames, 3);

    assert!(
        pmm.could_yield_pa_overlapping(BASE..BASE.saturating_add(4096)),
        "an allocated frame still counts as a yield candidate"
    );

    let pmm2 = pmm_over(4, &[(0, 1)]);
    assert!(
        !pmm2.could_yield_pa_overlapping(BASE..BASE.saturating_add(4096)),
        "helper must exclude reserved-range frames"
    );
}

#[test]
fn free_frame_rejects_pa_outside_extent() {
    let mut pmm = pmm_over(16, &[]);

    let below = PhysFrame::from_aligned(PhysAddr(BASE.saturating_sub(4096))).expect("aligned");
    assert_eq!(pmm.free_frame(below), Err(PmmError::OutOfRange));

    let above = PhysFrame::from_aligned(PhysAddr(BASE + 16 * 4096)).expect("aligned");
    assert_eq!(pmm.free_frame(above), Err(PmmError::OutOfRange));

    let stats = pmm.stats();
    assert_eq!(stats.allocated_frames, 0);
    assert_eq!(stats.free_frames, 16);
}

#[test]
fn alloc_then_free_restores_counters() {
    let mut pmm = pmm_over(8, &[(2, 3)]);
    let before = pmm.stats();
    let f = pmm.alloc_frame().unwrap();
    pmm.free_frame(f).unwrap();
    assert_eq!(pmm.stats(), before);
    let s = pmm.stats();
    assert_eq!(s.reserved_frames + s.allocated_frames + s.free_frames, s.total_frames);
}

#[test]
fn injected_failure_returns_none_then_nothing_changes() {
    let mut pmm = pmm_over(8, &[]);
    pmm.force_alloc_failure_after(1);
    assert!(pmm.alloc_frame().is_some());
    let before = pmm.stats();
    assert_eq!(pmm.alloc_frame(), None);
    assert_eq!(pmm.stats(), before);
}

#[test]
fn could_yield_rejects_empty_and_disjoint_ranges() {
    let pmm = pmm_over(4, &[]);
    assert!(!pmm.could_yield_pa_overlapping(BASE..BASE));
    assert!(!pmm.could_yield_pa_overlapping(0x1000..0x2000));
    assert!(pmm.could_yield_pa_overlapping(BASE + 4095..BASE + 4097));
}
