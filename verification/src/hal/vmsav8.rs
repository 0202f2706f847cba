//! `VMSAv8` (aarch64 stage-1) page-table descriptor encoders.
//!
//! Pure arithmetic: flags to descriptor fields, and the block (L2, 2 MiB),
//! page (L3, 4 KiB) and table descriptor formats. Every encoder's contract
//! states each descriptor field, so the result is fixed bit for bit.

use vstd::prelude::*;
use crate::hal::mmu::{MappingFlags, WRITE_BIT, EXECUTE_BIT, USER_BIT, DEVICE_BIT, GLOBAL_BIT};

verus! {

/// MAIR index for device-nGnRnE memory (encoding `0x00`).
pub const ATTR_IDX_DEVICE: u8 = 0;
/// MAIR index for normal cached memory (encoding `0xFF`).
pub const ATTR_IDX_NORMAL: u8 = 1;
/// `MAIR_EL1`: Attr0 = device-nGnRnE, Attr1 = normal write-back, others 0.
pub const MAIR_EL1_VALUE: u64 = 0xFF00;

/// Shareability: non-shareable (device mappings).
pub const SH_NON_SHAREABLE: u8 = 0;
/// Shareability: outer shareable.
pub const SH_OUTER_SHAREABLE: u8 = 2;
/// Shareability: inner shareable (normal RAM mappings).
pub const SH_INNER_SHAREABLE: u8 = 3;

/// Access permissions: kernel R/W, no userspace.
pub const AP_KERNEL_RW: u8 = 0;
/// Access permissions: user R/W (and kernel R/W).
pub const AP_USER_RW: u8 = 1;
/// Access permissions: kernel R/O, no userspace.
pub const AP_KERNEL_RO: u8 = 2;
/// Access permissions: user R/O (and kernel R/O).
pub const AP_USER_RO: u8 = 3;

/// `TCR_EL1`: T0SZ = 16, IRGN0 = ORGN0 = 0b01, SH0 = 0b11, TG0 = 0b00,
/// T1SZ = 16, EPD1 = 1, IRGN1 = ORGN1 = 0b01, SH1 = 0b11, TG1 = 0b10,
/// IPS = 0b010 (40-bit), EPD0 = A1 = AS = 0.
pub const TCR_EL1_VALUE: u64 = 16 | (1 << 8) | (1 << 10) | (3 << 12) | (16 << 16) | (1 << 23)
    | (1 << 24) | (1 << 26) | (3 << 28) | (2 << 30) | (2 << 32);

/// `SCTLR_EL1` bits set when the MMU is turned on: M (0), C (2), I (12).
pub const SCTLR_EL1_MMU_ENABLE_MASK: u64 = 1 | 4 | 4096;

/// Bit 0 of a descriptor: valid.
pub const DESC_VALID_BIT: u64 = 1;
/// Bit 1 of a descriptor: table (L0-L2) or page (L3); clear for a block.
pub const DESC_TABLE_OR_PAGE_BIT: u64 = 2;
const DESC_AF_BIT: u64 = 1024;
const DESC_NG_BIT: u64 = 2048;
const DESC_PXN_BIT: u64 = 0x0020_0000_0000_0000;
const DESC_UXN_BIT: u64 = 0x0040_0000_0000_0000;

/// Output-address bits `[47:21]` of an L2 block descriptor.
pub const BLOCK_OA_MASK_L2: u64 = 0x0000_FFFF_FFE0_0000;
/// Output-address bits `[47:12]` of an L3 page descriptor.
pub const PAGE_OA_MASK_L3: u64 = 0x0000_FFFF_FFFF_F000;
/// Next-level-table address bits `[47:12]` of a table descriptor.
pub const TABLE_NLA_MASK: u64 = 0x0000_FFFF_FFFF_F000;

/// Bits a block descriptor always leaves clear: NS (5), `[20:12]`,
/// `[52:48]` and `[63:55]`.
pub const BLOCK_ZERO_MASK: u64 = 0xFF9F_0000_001F_F020;
/// Bits a page descriptor always leaves clear: NS (5), `[52:48]` and
/// `[63:55]`.
pub const PAGE_ZERO_MASK: u64 = 0xFF9F_0000_0000_0020;

/// Decomposed descriptor fields produced by [`flags_to_descriptor_bits`].
#[derive(Copy, Clone, Debug, PartialEq, Eq, Structural)]
pub struct DescriptorBits {
    /// `MAIR_EL1` index.
    pub attr_idx: u8,
    /// `AP[2:1]` access-permission encoding.
    pub ap: u8,
    /// `SH[1:0]` shareability encoding.
    pub sh: u8,
    /// Privileged execute-never.
    pub pxn: bool,
    /// Unprivileged execute-never.
    pub uxn: bool,
    /// Not-global.
    pub ng: bool,
}

/// `true` when the bit (or bits) `bit` are all set in `flags`.
pub open spec fn has_flag(flags: u32, bit: u32) -> bool {
    flags & bit == bit
}

/// The access-permission encoding for a (user, write) pair.
pub open spec fn ap_for(user: bool, write: bool) -> u8 {
    if user {
        if write { AP_USER_RW } else { AP_USER_RO }
    } else {
        if write { AP_KERNEL_RW } else { AP_KERNEL_RO }
    }
}

/// The descriptor fields that `flags` translate to (see
/// [`flags_to_descriptor_bits`]).
pub open spec fn descriptor_bits_of(flags: u32) -> DescriptorBits {
    DescriptorBits {
        attr_idx: if has_flag(flags, DEVICE_BIT) { ATTR_IDX_DEVICE } else { ATTR_IDX_NORMAL },
        ap: ap_for(has_flag(flags, USER_BIT), has_flag(flags, WRITE_BIT)),
        sh: if has_flag(flags, DEVICE_BIT) { SH_NON_SHAREABLE } else { SH_INNER_SHAREABLE },
        pxn: has_flag(flags, DEVICE_BIT) || !has_flag(flags, EXECUTE_BIT) || has_flag(flags, USER_BIT),
        uxn: has_flag(flags, DEVICE_BIT) || !has_flag(flags, EXECUTE_BIT) || !has_flag(flags, USER_BIT),
        ng: !has_flag(flags, GLOBAL_BIT),
    }
}

/// Translate flags to descriptor fields. Device memory is never
/// executable; an executable kernel mapping is never user-executable and
/// an executable user mapping never kernel-executable; nG is the inverse
/// of GLOBAL.
pub fn flags_to_descriptor_bits(flags: MappingFlags) -> (r: DescriptorBits)
    ensures
        r.attr_idx == (if has_flag(flags@, DEVICE_BIT) { ATTR_IDX_DEVICE } else { ATTR_IDX_NORMAL }),
        r.ap == ap_for(has_flag(flags@, USER_BIT), has_flag(flags@, WRITE_BIT)),
        r.sh == (if has_flag(flags@, DEVICE_BIT) { SH_NON_SHAREABLE } else { SH_INNER_SHAREABLE }),
        r.pxn == (has_flag(flags@, DEVICE_BIT) || !has_flag(flags@, EXECUTE_BIT)
            || has_flag(flags@, USER_BIT)),
        r.uxn == (has_flag(flags@, DEVICE_BIT) || !has_flag(flags@, EXECUTE_BIT)
            || !has_flag(flags@, USER_BIT)),
        r.ng == !has_flag(flags@, GLOBAL_BIT),
        r == descriptor_bits_of(flags@),
{
    let device = flags.contains(MappingFlags::device());
    let write = flags.contains(MappingFlags::write());
    let execute = flags.contains(MappingFlags::execute());
    let user = flags.contains(MappingFlags::user());
    let global = flags.contains(MappingFlags::global());

    let attr_idx = if device { ATTR_IDX_DEVICE } else { ATTR_IDX_NORMAL };
    let ap = match (user, write) {
        (false, true) => AP_KERNEL_RW,
        (false, false) => AP_KERNEL_RO,
        (true, true) => AP_USER_RW,
        (true, false) => AP_USER_RO,
    };
    let sh = if device { SH_NON_SHAREABLE } else { SH_INNER_SHAREABLE };
    let (pxn, uxn) = if device {
        (true, true)
    } else if execute && !user {
        (false, true)
    } else if execute && user {
        (true, false)
    } else {
        (true, true)
    };
    let ng = !global;
    DescriptorBits { attr_idx, ap, sh, pxn, uxn, ng }
}

/// The attribute fields every leaf (block or page) descriptor carries:
/// AttrIndx `[4:2]`, AP `[7:6]`, SH `[9:8]`, AF (10), nG (11), PXN (53),
/// UXN (54).
pub open spec fn leaf_attrs_match(d: u64, bits: DescriptorBits) -> bool {
    &&& (d >> 2u64) & 7 == (bits.attr_idx as u64) & 7
    &&& (d >> 6u64) & 3 == (bits.ap as u64) & 3
    &&& (d >> 8u64) & 3 == (bits.sh as u64) & 3
    &&& (d >> 10u64) & 1 == 1
    &&& ((d >> 11u64) & 1 == 1) == bits.ng
    &&& ((d >> 53u64) & 1 == 1) == bits.pxn
    &&& ((d >> 54u64) & 1 == 1) == bits.uxn
}

spec fn leaf_word(attr: u8, ap: u8, sh: u8, ng: bool, pxn: bool, uxn: bool) -> u64 {
    (((attr as u64) & 7) << 2u64) | (((ap as u64) & 3) << 6u64) | (((sh as u64) & 3) << 8u64)
        | 1024u64 | (if ng { 2048u64 } else { 0u64 })
        | (if pxn { 0x0020_0000_0000_0000u64 } else { 0u64 })
        | (if uxn { 0x0040_0000_0000_0000u64 } else { 0u64 })
}

proof fn lemma_block_fields(pa: u64, attr: u8, ap: u8, sh: u8, ng: bool, pxn: bool, uxn: bool)
    by (bit_vector)
    ensures
        ({
            let d = 1u64 | leaf_word(attr, ap, sh, ng, pxn, uxn) | (pa & 0x0000_FFFF_FFE0_0000u64);
            &&& d & 1 == 1
            &&& (d >> 1u64) & 1 == 0
            &&& (d >> 2u64) & 7 == (attr as u64) & 7
            &&& (d >> 6u64) & 3 == (ap as u64) & 3
            &&& (d >> 8u64) & 3 == (sh as u64) & 3
            &&& (d >> 10u64) & 1 == 1
            &&& ((d >> 11u64) & 1 == 1) == ng
            &&& ((d >> 53u64) & 1 == 1) == pxn
            &&& ((d >> 54u64) & 1 == 1) == uxn
            &&& d & 0x0000_FFFF_FFE0_0000u64 == pa & 0x0000_FFFF_FFE0_0000u64
            &&& d & 0xFF9F_0000_001F_F020u64 == 0
        }),
{
}

proof fn lemma_page_fields(pa: u64, attr: u8, ap: u8, sh: u8, ng: bool, pxn: bool, uxn: bool)
    by (bit_vector)
    ensures
        ({
            let d = (1u64 | 2u64) | leaf_word(attr, ap, sh, ng, pxn, uxn) | (pa & 0x0000_FFFF_FFFF_F000u64);
            &&& d & 1 == 1
            &&& (d >> 1u64) & 1 == 1
            &&& (d >> 2u64) & 7 == (attr as u64) & 7
            &&& (d >> 6u64) & 3 == (ap as u64) & 3
            &&& (d >> 8u64) & 3 == (sh as u64) & 3
            &&& (d >> 10u64) & 1 == 1
            &&& ((d >> 11u64) & 1 == 1) == ng
            &&& ((d >> 53u64) & 1 == 1) == pxn
            &&& ((d >> 54u64) & 1 == 1) == uxn
            &&& d & 0x0000_FFFF_FFFF_F000u64 == pa & 0x0000_FFFF_FFFF_F000u64
            &&& d & 0xFF9F_0000_0000_0020u64 == 0
        }),
{
}

/// Encode an L2 block descriptor (2 MiB block). The output address keeps
/// bits `[47:21]` of `pa`; lower bits of an unaligned `pa` are dropped.
pub fn block_descriptor(pa: u64, bits: DescriptorBits) -> (r: u64)
    ensures
        r & DESC_VALID_BIT == DESC_VALID_BIT,
        r & DESC_TABLE_OR_PAGE_BIT == 0,
        leaf_attrs_match(r, bits),
        (r >> 2u64) & 7 == (bits.attr_idx as u64) & 7,
        (r >> 6u64) & 3 == (bits.ap as u64) & 3,
        (r >> 8u64) & 3 == (bits.sh as u64) & 3,
        (r >> 10u64) & 1 == 1,
        ((r >> 11u64) & 1 == 1) == bits.ng,
        ((r >> 53u64) & 1 == 1) == bits.pxn,
        ((r >> 54u64) & 1 == 1) == bits.uxn,
        r & BLOCK_OA_MASK_L2 == pa & BLOCK_OA_MASK_L2,
        r & BLOCK_ZERO_MASK == 0,
{
    let attr = bits.attr_idx as u64;
    let ap = bits.ap as u64;
    let sh = bits.sh as u64;
    let r = DESC_VALID_BIT
        | (((attr & 7) << 2u64) | ((ap & 3) << 6u64) | ((sh & 3) << 8u64) | DESC_AF_BIT
        | (if bits.ng { DESC_NG_BIT } else { 0 })
        | (if bits.pxn { DESC_PXN_BIT } else { 0 })
        | (if bits.uxn { DESC_UXN_BIT } else { 0 }))
        | (pa & BLOCK_OA_MASK_L2);
    proof {
        lemma_block_fields(pa, bits.attr_idx, bits.ap, bits.sh, bits.ng, bits.pxn, bits.uxn);
        let d = r;
        assert(d & 1 == 1 && (d >> 1u64) & 1 == 0 ==> d & 2 == 0) by (bit_vector);
    }
    r
}

/// Encode an L3 page descriptor (4 KiB page). The output address keeps
/// bits `[47:12]` of `pa`; lower bits of an unaligned `pa` are dropped.
pub fn page_descriptor(pa: u64, bits: DescriptorBits) -> (r: u64)
    ensures
        r & DESC_VALID_BIT == DESC_VALID_BIT,
        r & DESC_TABLE_OR_PAGE_BIT == DESC_TABLE_OR_PAGE_BIT,
        leaf_attrs_match(r, bits),
        (r >> 2u64) & 7 == (bits.attr_idx as u64) & 7,
        (r >> 6u64) & 3 == (bits.ap as u64) & 3,
        (r >> 8u64) & 3 == (bits.sh as u64) & 3,
        (r >> 10u64) & 1 == 1,
        ((r >> 11u64) & 1 == 1) == bits.ng,
        ((r >> 53u64) & 1 == 1) == bits.pxn,
        ((r >> 54u64) & 1 == 1) == bits.uxn,
        r & PAGE_OA_MASK_L3 == pa & PAGE_OA_MASK_L3,
        r & PAGE_ZERO_MASK == 0,
{
    let attr = bits.attr_idx as u64;
    let ap = bits.ap as u64;
    let sh = bits.sh as u64;
    let r = (DESC_VALID_BIT | DESC_TABLE_OR_PAGE_BIT)
        | (((attr & 7) << 2u64) | ((ap & 3) << 6u64) | ((sh & 3) << 8u64) | DESC_AF_BIT
        | (if bits.ng { DESC_NG_BIT } else { 0 })
        | (if bits.pxn { DESC_PXN_BIT } else { 0 })
        | (if bits.uxn { DESC_UXN_BIT } else { 0 }))
        | (pa & PAGE_OA_MASK_L3);
    proof {
        lemma_page_fields(pa, bits.attr_idx, bits.ap, bits.sh, bits.ng, bits.pxn, bits.uxn);
        let d = r;
        assert(d & 1 == 1 && (d >> 1u64) & 1 == 1 ==> d & 2 == 2) by (bit_vector);
    }
    r
}

/// Encode a table descriptor pointing at the next-level table at
/// `next_level_pa`: valid and table bits set, the address bits `[47:12]`,
/// and nothing else.
pub fn table_descriptor(next_level_pa: u64) -> (r: u64)
    ensures
        r & DESC_VALID_BIT == DESC_VALID_BIT,
        r & DESC_TABLE_OR_PAGE_BIT == DESC_TABLE_OR_PAGE_BIT,
        r & TABLE_NLA_MASK == next_level_pa & TABLE_NLA_MASK,
        r & !(3u64 | TABLE_NLA_MASK) == 0,
{
    let r = DESC_VALID_BIT | DESC_TABLE_OR_PAGE_BIT | (next_level_pa & TABLE_NLA_MASK);
    assert(r & 1 == 1 && r & 2 == 2 && r & 0x0000_FFFF_FFFF_F000u64
        == next_level_pa & 0x0000_FFFF_FFFF_F000u64
        && r & !(3u64 | 0x0000_FFFF_FFFF_F000u64) == 0) by (bit_vector)
        requires
            r == 1u64 | 2u64 | (next_level_pa & 0x0000_FFFF_FFFF_F000u64),
    ;
    r
}

/// Two-bit and one-bit field reads of a descriptor, for constants.
proof fn lemma_ap_bits(d: u64, ap: u64)
    by (bit_vector)
    requires
        (d >> 6u64) & 3 == ap & 3,
    ensures
        ((d >> 7u64) & 1 == 1) == (ap & 2 == 2),
        ((d >> 6u64) & 1 == 1) == (ap & 1 == 1),
{
}

/// The access-permission field of a leaf descriptor is the whole two-bit
/// encoding asked for, not only part of it: bit 6 is `AP[1]` and bit 7
/// is `AP[2]`.
pub proof fn law_leaf_ap_field_is_both_bits(d: u64, bits: DescriptorBits)
    requires
        leaf_attrs_match(d, bits),
    ensures
        ((d >> 6u64) & 1 == 1) == ((bits.ap as u64) & 1 == 1),
        ((d >> 7u64) & 1 == 1) == ((bits.ap as u64) & 2 == 2),
{
    lemma_ap_bits(d, bits.ap as u64);
}

/// What a leaf descriptor for `flags` lets the hardware do, read from its
/// bits: `AP[2]` (bit 7) is set exactly for read-only mappings, `AP[1]`
/// (bit 6) exactly for user-accessible ones; unprivileged execute-never
/// (bit 54) is clear exactly for executable user normal memory,
/// privileged execute-never (bit 53) exactly for executable kernel normal
/// memory; the memory-attribute index (bits 4:2) is 0 (device) exactly
/// for device memory, which is non-shareable (SH, bits 9:8, 0) where
/// other memory is inner shareable (3); nG (bit 11) is set exactly for non-global
/// mappings; the access flag (bit 10) is always set.
pub proof fn law_leaf_descriptor_follows_flags(d: u64, flags: u32)
    requires
        leaf_attrs_match(d, descriptor_bits_of(flags)),
    ensures
        ((d >> 7u64) & 1 == 1) == !has_flag(flags, WRITE_BIT),
        ((d >> 6u64) & 1 == 1) == has_flag(flags, USER_BIT),
        ((d >> 54u64) & 1 == 0) == (has_flag(flags, USER_BIT) && has_flag(flags, EXECUTE_BIT)
            && !has_flag(flags, DEVICE_BIT)),
        ((d >> 53u64) & 1 == 0) == (!has_flag(flags, USER_BIT) && has_flag(flags, EXECUTE_BIT)
            && !has_flag(flags, DEVICE_BIT)),
        ((d >> 2u64) & 7 == 0) == has_flag(flags, DEVICE_BIT),
        (d >> 8u64) & 3 == (if has_flag(flags, DEVICE_BIT) { 0u64 } else { 3u64 }),
        ((d >> 11u64) & 1 == 1) == !has_flag(flags, GLOBAL_BIT),
        (d >> 10u64) & 1 == 1,
{
    let b = descriptor_bits_of(flags);
    lemma_ap_bits(d, b.ap as u64);
    assert(0u64 & 2 == 0 && 0u64 & 1 == 0) by (bit_vector);
    assert(1u64 & 2 == 0 && 1u64 & 1 == 1) by (bit_vector);
    assert(2u64 & 2 == 2 && 2u64 & 1 == 0) by (bit_vector);
    assert(3u64 & 2 == 2 && 3u64 & 1 == 1) by (bit_vector);
    assert(0u64 & 7 == 0 && 1u64 & 7 == 1) by (bit_vector);
    assert(0u64 & 3 == 0 && 3u64 & 3 == 3) by (bit_vector);
    let x = (d >> 53u64) & 1;
    let y = (d >> 54u64) & 1;
    assert(x == 0 || x == 1) by (bit_vector)
        requires
            x == (d >> 53u64) & 1,
    ;
    assert(y == 0 || y == 1) by (bit_vector)
        requires
            y == (d >> 54u64) & 1,
    ;
}

} // verus!
