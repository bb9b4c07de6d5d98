use m1saka::exceptions::ExceptionLevel;
use m1saka::mmu::{
    create_block_page_table_entry, create_table_page_table_entry, sctlr_mmu_enabled, setup,
    MapError, Mapping, MemoryAttribute, PageTables, Permission, MAIR_VALUE, TCR_VALUE,
};

const BLOCK: u64 = 0x200_0000;

fn tables(pool: usize) -> PageTables {
    let addrs: Vec<u64> = (0..pool as u64).map(|k| 0x10_0000 + k * 0x4000).collect();
    PageTables::new([0x4000, 0x8000], addrs).unwrap()
}

#[test]
fn mapped_range_translates_to_same_offset() {
    let mut t = tables(2);
    let va = 0x2_0000_0000;
    let pa = 0x8_0000_0000;
    assert_eq!(t.map(va, pa, 2 * BLOCK, MemoryAttribute::Normal, Permission::ReadOnly), Ok(()));
    let ro = (1 << 7) | (1 << 53) | (1 << 54);
    assert_eq!(t.lookup(va), Some(Mapping { pa, attr: 0, perm: ro }));
    assert_eq!(t.lookup(va + 0x1234), Some(Mapping { pa: pa + 0x1234, attr: 0, perm: ro }));
    assert_eq!(
        t.lookup(va + 2 * BLOCK - 1),
        Some(Mapping { pa: pa + 2 * BLOCK - 1, attr: 0, perm: ro })
    );
    assert_eq!(t.lookup(va + 2 * BLOCK), None);
    assert_eq!(t.lookup(va - 1), None);
    assert_eq!(t.tables_in_use(), 1);
}

#[test]
fn table_entries_encode_the_walk() {
    let mut t = tables(1);
    assert_eq!(t.map(0, 0x4000_0000, BLOCK, MemoryAttribute::DeviceNGnRE, Permission::ReadWrite), Ok(()));
    assert_eq!(t.root_entries(), [0x4000 | 0x403, 0x8000 | 0x403]);
    assert_eq!(t.level1_entries()[0], 0x10_0000 | 0x403);
    assert_eq!(t.level1_entries().len(), 4096);
    let block = t.level2_entries()[0];
    assert_eq!(block, 0x4000_0000 | 0x401 | (2 << 2) | (1 << 53) | (1 << 54));
    assert_eq!(block, create_block_page_table_entry(0x4000_0000, 2, (1 << 53) | (1 << 54)));
    assert_eq!(create_table_page_table_entry(0x10_0000), 0x10_0403);
    assert_eq!(t.level2_entries().len(), 2048);
}

#[test]
fn map_errors_leave_tables_unchanged() {
    let mut t = tables(1);
    assert_eq!(t.map(0x1000, 0, BLOCK, MemoryAttribute::Normal, Permission::ReadWrite), Err(MapError::Misaligned));
    assert_eq!(t.map(0, 0x1000, BLOCK, MemoryAttribute::Normal, Permission::ReadWrite), Err(MapError::Misaligned));
    assert_eq!(t.map(0, 0, BLOCK + 1, MemoryAttribute::Normal, Permission::ReadWrite), Err(MapError::Misaligned));
    assert_eq!(
        t.map(0xFFFF_FE00_0000, 0, 2 * BLOCK, MemoryAttribute::Normal, Permission::ReadWrite),
        Err(MapError::OutOfRange)
    );
    assert_eq!(t.map(0, 0, BLOCK, MemoryAttribute::Normal, Permission::ReadWrite), Ok(()));
    assert!(!t.is_range_unmapped(0, 2 * BLOCK));
    assert!(t.is_range_unmapped(BLOCK, BLOCK));
    assert_eq!(t.lookup(BLOCK), None);
    assert_eq!(
        t.map(0x10_0000_0000, 0, BLOCK, MemoryAttribute::Normal, Permission::ReadWrite),
        Err(MapError::PoolExhausted)
    );
    assert_eq!(t.lookup(0x10_0000_0000), None);
    assert_eq!(t.map(BLOCK, BLOCK, BLOCK, MemoryAttribute::Normal, Permission::ReadWrite), Ok(()));
}

#[test]
fn range_spanning_two_level1_entries_takes_two_tables() {
    let mut t = tables(2);
    let va = 0x10_0000_0000 - BLOCK;
    assert_eq!(t.map(va, va, 2 * BLOCK, MemoryAttribute::Normal, Permission::ReadWriteExecute), Ok(()));
    assert_eq!(t.tables_in_use(), 2);
    assert_eq!(t.lookup(va + BLOCK + 5), Some(Mapping { pa: va + BLOCK + 5, attr: 0, perm: 0 }));
    let mut small = tables(1);
    assert_eq!(
        small.map(va, va, 2 * BLOCK, MemoryAttribute::Normal, Permission::ReadWriteExecute),
        Err(MapError::PoolExhausted)
    );
    assert_eq!(small.tables_in_use(), 0);
}

#[test]
fn upper_half_of_root_is_used_above_bit_47() {
    let mut t = tables(1);
    let va = 0x8000_0000_0000;
    assert_eq!(t.map(va, 0, BLOCK, MemoryAttribute::Normal, Permission::ReadWrite), Ok(()));
    assert_eq!(t.level1_entries()[2048], 0x10_0000 | 0x403);
    assert_eq!(t.lookup(va + 8), Some(Mapping { pa: 8, attr: 0, perm: (1 << 53) | (1 << 54) }));
    assert_eq!(t.lookup(8), None);
}

#[test]
fn zero_size_map_changes_nothing() {
    let mut t = tables(0);
    assert_eq!(t.map(0, 0, 0, MemoryAttribute::Normal, Permission::ReadWrite), Ok(()));
    assert_eq!(t.lookup(0), None);
}

#[test]
fn bad_table_addresses_are_refused() {
    assert_eq!(PageTables::new([0x4001, 0x8000], vec![]).err(), Some(MapError::BadTableAddress));
    assert_eq!(PageTables::new([0x4000, 0x4000], vec![]).err(), Some(MapError::BadTableAddress));
    assert_eq!(PageTables::new([0x4000, 0x8000], vec![0x8000]).err(), Some(MapError::BadTableAddress));
    assert_eq!(
        PageTables::new([0x4000, 0x1_0000_0000_0000], vec![]).err(),
        Some(MapError::BadTableAddress)
    );
    let big: Vec<u64> = (0..4097u64).map(|k| 0x100_0000 + k * 0x4000).collect();
    assert_eq!(PageTables::new([0x4000, 0x8000], big).err(), Some(MapError::PoolTooLarge));
}

#[test]
fn default_map() {
    let t = setup([0x4000, 0x8000], vec![0xC000]).unwrap();
    let device = Mapping { pa: 0x2_3520_0000, attr: 2, perm: (1 << 53) | (1 << 54) };
    assert_eq!(t.lookup(0x2_3520_0000), Some(device));
    assert_eq!(t.lookup(0x8_0000_0000), Some(Mapping { pa: 0x8_0000_0000, attr: 0, perm: 0 }));
    assert_eq!(t.lookup(0xB_FFFF_FFFF), Some(Mapping { pa: 0xB_FFFF_FFFF, attr: 0, perm: 0 }));
    assert_eq!(t.lookup(0xC_0000_0000), None);
    assert_eq!(t.tables_in_use(), 1);
    assert_eq!(setup([0x4000, 0x8000], vec![]).err(), Some(MapError::PoolExhausted));
}

#[test]
fn register_values() {
    assert_eq!(MAIR_VALUE, 0x0004_00FF);
    assert_eq!(TCR_VALUE, 0x2_7510_B510);
    assert_eq!(sctlr_mmu_enabled(0, ExceptionLevel::El2), Some(0x30C5_183F));
    assert_eq!(sctlr_mmu_enabled(0, ExceptionLevel::El1), Some(0x30D0_181F));
    assert_eq!(sctlr_mmu_enabled(0x4_0000_0000, ExceptionLevel::El3), Some(0x4_30C5_183F));
    assert_eq!(sctlr_mmu_enabled(0, ExceptionLevel::El0), None);
}

#[test]
fn mapped_blocks_are_detected() {
    let mut t = tables(1);
    assert!(t.is_range_unmapped(0, 0x1_0000_0000_0000));
    assert!(t.is_range_unmapped(u64::MAX - BLOCK, BLOCK));
    assert_eq!(t.map(3 * BLOCK, 0, BLOCK, MemoryAttribute::Normal, Permission::ReadWrite), Ok(()));
    assert!(!t.is_range_unmapped(0, 4 * BLOCK));
    assert!(!t.is_range_unmapped(3 * BLOCK + 5, 1));
    assert!(t.is_range_unmapped(0, 3 * BLOCK));
    assert!(t.is_range_unmapped(4 * BLOCK, BLOCK));
}

#[test]
fn installed_blocks_carry_the_access_flag() {
    let t = setup([0x4000, 0x8000], vec![0xC000]).unwrap();
    let mapped: Vec<u64> = t.level2_entries().iter().copied().filter(|e| *e != 0).collect();
    assert_eq!(mapped.len(), 1536);
    assert!(mapped.iter().all(|e| e & 3 == 1 && e & (1 << 10) != 0));
}

#[test]
fn level1_assignments_stay_and_new_ones_take_the_next_pool_table() {
    let mut t = tables(3);
    assert_eq!(t.map(0, 0, BLOCK, MemoryAttribute::Normal, Permission::ReadWrite), Ok(()));
    let first = t.level1_entries().to_vec();
    assert_eq!(first[0], 0x10_0000 | 0x403);
    assert_eq!(t.map(BLOCK, BLOCK, BLOCK, MemoryAttribute::Normal, Permission::ReadWrite), Ok(()));
    assert_eq!(t.level1_entries()[0], first[0]);
    assert_eq!(t.tables_in_use(), 1);
    let va = 3 * 0x10_0000_0000;
    assert_eq!(t.map(va, 0, BLOCK, MemoryAttribute::Normal, Permission::ReadWrite), Ok(()));
    assert_eq!(t.level1_entries()[0], first[0]);
    assert_eq!(t.level1_entries()[3], 0x10_4000 | 0x403);
    assert_eq!(t.tables_in_use(), 2);
    assert_eq!(t.level2_entries()[2048..].iter().filter(|e| **e != 0).count(), 1);
}
