use tyrne::hal::mmu::MappingFlags;
use tyrne::hal::vmsav8::{
    block_descriptor, flags_to_descriptor_bits, page_descriptor, table_descriptor, AP_KERNEL_RO,
    AP_KERNEL_RW, AP_USER_RO, AP_USER_RW, ATTR_IDX_DEVICE, ATTR_IDX_NORMAL, MAIR_EL1_VALUE,
    SCTLR_EL1_MMU_ENABLE_MASK, SH_INNER_SHAREABLE, SH_NON_SHAREABLE, TCR_EL1_VALUE,
};

#[test]
fn mair_value_attr0_device_attr1_normal_others_zero() {
    assert_eq!(MAIR_EL1_VALUE & 0xFF, 0x00);
    assert_eq!((MAIR_EL1_VALUE >> 8) & 0xFF, 0xFF);
    assert_eq!(MAIR_EL1_VALUE >> 16, 0);
}

#[test]
fn tcr_value_carries_t0sz_16_and_ips_2_and_epd1_set() {
    assert_eq!(TCR_EL1_VALUE & 0x3F, 16);
    assert_eq!((TCR_EL1_VALUE >> 16) & 0x3F, 16);
    assert_eq!((TCR_EL1_VALUE >> 32) & 0x7, 0b010);
    assert_eq!((TCR_EL1_VALUE >> 23) & 0x1, 1);
    assert_eq!((TCR_EL1_VALUE >> 7) & 0x1, 0);
    assert_eq!((TCR_EL1_VALUE >> 12) & 0x3, 0b11);
    assert_eq!((TCR_EL1_VALUE >> 14) & 0x3, 0b00);
    assert_eq!((TCR_EL1_VALUE >> 30) & 0x3, 0b10);
}

#[test]
fn sctlr_mmu_enable_mask_sets_m_c_i_only() {
    assert_eq!(SCTLR_EL1_MMU_ENABLE_MASK & (1 << 0), 1 << 0);
    assert_eq!(SCTLR_EL1_MMU_ENABLE_MASK & (1 << 2), 1 << 2);
    assert_eq!(SCTLR_EL1_MMU_ENABLE_MASK & (1 << 12), 1 << 12);
    assert_eq!(
        SCTLR_EL1_MMU_ENABLE_MASK,
        (1 << 0) | (1 << 2) | (1 << 12),
        "only M, C, I should be in the OR mask"
    );
}

#[test]
fn empty_flags_kernel_ro_normal_no_execute_global_inverted() {
    let bits = flags_to_descriptor_bits(MappingFlags::empty());
    assert_eq!(bits.attr_idx, ATTR_IDX_NORMAL);
    assert_eq!(bits.ap, AP_KERNEL_RO);
    assert_eq!(bits.sh, SH_INNER_SHAREABLE);
    assert!(bits.pxn, "non-X mapping must have PXN=1");
    assert!(bits.uxn, "non-X mapping must have UXN=1");
    assert!(bits.ng, "GLOBAL not set -> nG=1");
}

#[test]
fn write_alone_yields_kernel_rw_no_execute() {
    let bits = flags_to_descriptor_bits(MappingFlags::write());
    assert_eq!(bits.ap, AP_KERNEL_RW);
    assert!(bits.pxn);
    assert!(bits.uxn);
}

#[test]
fn write_plus_execute_yields_kernel_rwx_uxn_pxn_zero() {
    let bits = flags_to_descriptor_bits(MappingFlags::write() | MappingFlags::execute());
    assert_eq!(bits.ap, AP_KERNEL_RW);
    assert!(!bits.pxn, "kernel-X must have PXN=0");
    assert!(bits.uxn, "kernel-X mapping must keep UXN=1");
}

#[test]
fn user_write_yields_user_rw_no_execute() {
    let bits = flags_to_descriptor_bits(MappingFlags::write() | MappingFlags::user());
    assert_eq!(bits.ap, AP_USER_RW);
    assert!(bits.pxn, "non-X user mapping must have PXN=1");
    assert!(bits.uxn, "non-X user mapping must have UXN=1");
}

#[test]
fn user_execute_yields_user_ro_pxn_one_uxn_zero() {
    let bits = flags_to_descriptor_bits(MappingFlags::user() | MappingFlags::execute());
    assert_eq!(bits.ap, AP_USER_RO);
    assert!(bits.pxn, "user-X kernel-PXN must be 1");
    assert!(!bits.uxn, "user-X mapping must have UXN=0");
}

#[test]
fn device_flag_picks_device_attr_index() {
    let bits = flags_to_descriptor_bits(MappingFlags::device() | MappingFlags::write());
    assert_eq!(bits.attr_idx, ATTR_IDX_DEVICE);
    assert_eq!(bits.sh, SH_NON_SHAREABLE);
    assert!(bits.pxn);
    assert!(bits.uxn);
}

#[test]
fn global_flag_clears_ng_bit() {
    let bits = flags_to_descriptor_bits(MappingFlags::write() | MappingFlags::global());
    assert!(!bits.ng, "GLOBAL set -> nG=0 (entry is global across ASIDs)");
}

#[test]
fn block_descriptor_v1_kernel_ram_block_encoding() {
    let bits = flags_to_descriptor_bits(
        MappingFlags::write() | MappingFlags::execute() | MappingFlags::global(),
    );
    let entry = block_descriptor(0x4020_0000, bits);
    assert_eq!(entry & 0x1, 1, "V");
    assert_eq!((entry >> 1) & 0x1, 0, "block bit");
    assert_eq!((entry >> 2) & 0x7, u64::from(ATTR_IDX_NORMAL), "AttrIdx");
    assert_eq!((entry >> 6) & 0x3, u64::from(AP_KERNEL_RW), "AP");
    assert_eq!((entry >> 8) & 0x3, u64::from(SH_INNER_SHAREABLE), "SH");
    assert_eq!((entry >> 10) & 0x1, 1, "AF");
    assert_eq!((entry >> 11) & 0x1, 0, "nG");
    assert_eq!(entry & 0x0000_FFFF_FFE0_0000, 0x4020_0000, "OA");
    assert_eq!((entry >> 53) & 0x1, 0, "PXN");
    assert_eq!((entry >> 54) & 0x1, 1, "UXN");
}

#[test]
fn block_descriptor_v1_device_block_encoding() {
    let bits = flags_to_descriptor_bits(
        MappingFlags::device() | MappingFlags::write() | MappingFlags::global(),
    );
    let entry = block_descriptor(0x0800_0000, bits);
    assert_eq!(entry & 0x1, 1, "V");
    assert_eq!((entry >> 2) & 0x7, u64::from(ATTR_IDX_DEVICE));
    assert_eq!((entry >> 8) & 0x3, u64::from(SH_NON_SHAREABLE));
    assert_eq!(entry & 0x0000_FFFF_FFE0_0000, 0x0800_0000);
    assert_eq!((entry >> 53) & 0x1, 1, "device PXN");
    assert_eq!((entry >> 54) & 0x1, 1, "device UXN");
}

#[test]
fn block_descriptor_drops_low_bits_for_unaligned_pa() {
    let bits = flags_to_descriptor_bits(
        MappingFlags::write() | MappingFlags::execute() | MappingFlags::global(),
    );
    let entry = block_descriptor(0x4020_1234, bits);
    assert_eq!(entry & 0x0000_FFFF_FFE0_0000, 0x4020_0000);
}

#[test]
fn page_descriptor_v1_kernel_rw_page_encoding() {
    let bits = flags_to_descriptor_bits(MappingFlags::write() | MappingFlags::global());
    let entry = page_descriptor(0x4040_1000, bits);
    assert_eq!(entry & 0x1, 1, "V");
    assert_eq!((entry >> 1) & 0x1, 1, "page bit");
    assert_eq!((entry >> 2) & 0x7, u64::from(ATTR_IDX_NORMAL));
    assert_eq!((entry >> 6) & 0x3, u64::from(AP_KERNEL_RW));
    assert_eq!((entry >> 10) & 0x1, 1, "AF");
    assert_eq!((entry >> 11) & 0x1, 0, "nG (GLOBAL was set)");
    assert_eq!(entry & 0x0000_FFFF_FFFF_F000, 0x4040_1000);
}

#[test]
fn page_descriptor_drops_low_bits_for_unaligned_pa() {
    let bits = flags_to_descriptor_bits(MappingFlags::write() | MappingFlags::global());
    let entry = page_descriptor(0x4040_1ABC, bits);
    assert_eq!(entry & 0x0000_FFFF_FFFF_F000, 0x4040_1000);
}

#[test]
fn table_descriptor_carries_valid_and_table_bits_and_address() {
    let entry = table_descriptor(0x4007_F000);
    assert_eq!(entry & 0x1, 1, "V");
    assert_eq!((entry >> 1) & 0x1, 1, "table bit");
    assert_eq!((entry >> 2) & 0x3FF, 0);
    assert_eq!(entry & 0x0000_FFFF_FFFF_F000, 0x4007_F000);
    assert_eq!((entry >> 53) & 0x3, 0);
}

#[test]
fn table_descriptor_drops_low_bits_for_unaligned_address() {
    let entry = table_descriptor(0x4007_FABC);
    assert_eq!(entry & 0x0000_FFFF_FFFF_F000, 0x4007_F000);
}
