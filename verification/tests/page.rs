use lib::page::{
    AccessWidth, GuestFault, GuestMemory, LegacyOnDemand, LinearHost, MemorySpec, PageTable, SharedPageTable,
    DEFAULT_PAGE_SIZE,
};

#[test]
fn legacy_on_demand_zero_on_read() {
    let mem = LegacyOnDemand::new();
    assert_eq!(mem.read(0x1234, AccessWidth::W32).unwrap(), 0);
    assert_eq!(mem.read(0x1234, AccessWidth::W8).unwrap(), 0);
}

#[test]
fn legacy_on_demand_write_and_read() {
    let mut mem = LegacyOnDemand::new();
    mem.write(0x1234, AccessWidth::W32, 0xDEAD_BEEF).unwrap();
    assert_eq!(mem.read(0x1234, AccessWidth::W32).unwrap(), 0xDEAD_BEEF);
    assert_eq!(mem.read(0x1235, AccessWidth::W8).unwrap(), 0xBE);
}

#[test]
fn linear_host_bounds() {
    let mut mem = LinearHost::new(1024);
    mem.write(0, AccessWidth::W32, 0xCAFE_BABE).unwrap();
    assert_eq!(mem.read(0, AccessWidth::W32).unwrap(), 0xCAFE_BABE);
    assert!(mem.read(1024, AccessWidth::W8).is_err());
}

#[test]
fn shared_page_table_identity_like_vane() {
    let mut legacy = LegacyOnDemand::new();
    let page_num = 0x10000u64;
    let pte = (page_num << 16) | 1;
    legacy.write(0x0, AccessWidth::W64, pte).unwrap();
    legacy.write(0x1000 + 4, AccessWidth::W32, 0).unwrap();

    let shared = SharedPageTable::new(&legacy, 0, 0x1000);
    assert_eq!(shared.translate(0).unwrap(), 0x10000_0000);
    assert_eq!(shared.translate(0x1234).unwrap(), 0x10000_0000 + 0x1234);
}

#[test]
fn read_after_write_truncates_to_width() {
    let mut mem = LegacyOnDemand::new();
    mem.write(0x20, AccessWidth::W16, 0x1234_5678).unwrap();
    assert_eq!(mem.read(0x20, AccessWidth::W16).unwrap(), 0x5678);
    assert_eq!(mem.read(0x20, AccessWidth::W32).unwrap(), 0x5678);
}

#[test]
fn write_across_page_boundary() {
    let mut mem = LegacyOnDemand::new();
    mem.write(0xFFFE, AccessWidth::W32, 0xAABB_CCDD).unwrap();
    assert_eq!(mem.read(0xFFFE, AccessWidth::W32).unwrap(), 0xAABB_CCDD);
    assert_eq!(mem.read(0x10000, AccessWidth::W8).unwrap(), 0xBB);
    assert_eq!(mem.get_page(1)[0], 0xBB);
    assert_eq!(mem.get_page(0)[0xFFFF], 0xCC);
}

#[test]
fn write_wraps_around_the_address_space() {
    let mut mem = LegacyOnDemand::new();
    mem.write(u64::MAX, AccessWidth::W16, 0x0102).unwrap();
    assert_eq!(mem.read(u64::MAX, AccessWidth::W16).unwrap(), 0x0102);
    assert_eq!(mem.read(0, AccessWidth::W8).unwrap(), 0x01);
}

#[test]
fn w128_accesses_fault() {
    let mut mem = LegacyOnDemand::new();
    assert_eq!(mem.read(0, AccessWidth::W128), Err(GuestFault::OutOfBounds));
    assert_eq!(mem.write(0, AccessWidth::W128, 1), Err(GuestFault::OutOfBounds));
    let lin = LinearHost::new(16);
    assert_eq!(lin.read(0, AccessWidth::W128), Err(GuestFault::OutOfBounds));
}

#[test]
fn linear_host_base_offset_and_bounds() {
    let mut mem = LinearHost::with_base(16, 0x1000);
    assert_eq!(mem.translate(0x1008), Ok(8));
    assert_eq!(mem.translate(0xFFF), Err(GuestFault::OutOfBounds));
    mem.write(0x100C, AccessWidth::W32, 0x0403_0201).unwrap();
    assert_eq!(mem.memory[12..16], [1, 2, 3, 4]);
    assert_eq!(mem.read(0x100C, AccessWidth::W32), Ok(0x0403_0201));
    assert_eq!(mem.write(0x100D, AccessWidth::W32, 0), Err(GuestFault::OutOfBounds));
    assert_eq!(mem.read(0x0, AccessWidth::W8), Err(GuestFault::OutOfBounds));
}

#[test]
fn legacy_identity_translation_and_page_size() {
    let mem = LegacyOnDemand::new();
    assert_eq!(mem.translate(0xdead_beef), Ok(0xdead_beef));
    assert_eq!(mem.page_size(), DEFAULT_PAGE_SIZE);
    assert_eq!(AccessWidth::W64.bytes(), Some(8));
    assert_eq!(AccessWidth::W128.bytes(), None);
}

#[test]
fn memory_spec_page_size() {
    let spec = MemorySpec::wasm_64k();
    assert_eq!(spec.page_size(), 65536);
    assert_eq!(spec.levels, 2);
    assert_eq!(spec.physical_address_bits, 56);
}

#[test]
fn shared_page_table_three_levels_and_unmapped() {
    let mut legacy = LegacyOnDemand::new();
    // l3 table at 0x0: entry 0 -> l2 table at 0x100
    legacy.write(0x0, AccessWidth::W64, 0x100).unwrap();
    // l2 table at 0x100: entry 0 -> l1 table at 0x200
    legacy.write(0x100, AccessWidth::W64, 0x200).unwrap();
    // l1 table at 0x200: entry 1 -> page pointer (page 0x7 << 16 | sec idx 2)
    legacy.write(0x208, AccessWidth::W64, (0x7u64 << 16) | 2).unwrap();
    let mut shared = SharedPageTable::new(&legacy, 0, 0x1000);
    shared.levels = 3;
    assert_eq!(shared.translate(0x1_0042).unwrap(), (0x7u64 << 16) + 0x42);
    shared.levels = 4;
    assert_eq!(shared.translate(0), Err(GuestFault::Unmapped));
}

#[test]
fn get_page_and_byte_accesses_agree() {
    let mut mem = LegacyOnDemand::new();
    assert!(mem.get_page(7).iter().all(|&b| b == 0));
    mem.write(0x1234, AccessWidth::W32, 0xDEAD_BEEF).unwrap();
    assert_eq!(&mem.get_page(0)[0x1234..0x1238], &[0xEF, 0xBE, 0xAD, 0xDE]);
    mem.get_page(3)[0x10] = 0x5A;
    assert_eq!(mem.read(3 * 65536 + 0x10, AccessWidth::W8).unwrap(), 0x5A);
    mem.get_page(u64::MAX)[0] = 1;
    assert_eq!(mem.read(0, AccessWidth::W8).unwrap(), 0);
}
