use learn_os::paging::{
    address_to_page_map_indices, page_map_indices_to_address, BumpAllocator, PageAllocator,
    PageMap, PageMapFlags, PageMapIndices, PageMapMode, PagingError, Recorded, Visit, VisitLog,
    PDE, PDPTE, PML4E, PTE,
};

fn fresh_map() -> (Recorded<BumpAllocator>, PageMap) {
    let mut allocator = Recorded::new(BumpAllocator::new(0x10_0000, 0x20_0000));
    let map = PageMap::new(&mut allocator).unwrap();
    (allocator, map)
}

fn leaves(map: &PageMap) -> Vec<(u64, PTE)> {
    let mut log = VisitLog::new();
    map.debug(&mut log);
    let mut found = Vec::new();
    for visit in log.visits() {
        if let Visit::Pte { virtual_address, entry, .. } = visit {
            found.push((*virtual_address, *entry));
        }
    }
    found
}

struct Stuck(u64);

impl PageAllocator for Stuck {
    fn allocate_pages(&mut self, _count: usize) -> Option<u64> {
        Some(self.0)
    }
}

#[test]
fn indices_of_an_address_are_its_bit_fields() {
    let indices = address_to_page_map_indices(0x0000_1234_5678_9abc);
    assert_eq!(
        indices,
        PageMapIndices { pml4: 0x24, pdpt: 0xd1, pd: 0xb3, pt: 0x189, offset: 0xabc }
    );
    assert_eq!(page_map_indices_to_address(indices), 0x0000_1234_5678_9abc);
}

#[test]
fn splitting_and_joining_gives_the_address_back() {
    for address in [
        0u64,
        0xfff,
        0x1000,
        0x1f_f000,
        0x7fff_ffff_f000,
        0xffff_ffff_ffff,
        0x8000_0000_0000,
        0x0123_4567_89ab,
    ] {
        assert_eq!(page_map_indices_to_address(address_to_page_map_indices(address)), address);
    }
}

#[test]
fn bits_above_the_translated_range_are_ignored() {
    assert_eq!(
        address_to_page_map_indices(0xffff_8000_0000_1000),
        address_to_page_map_indices(0x8000_0000_1000)
    );
}

#[test]
fn joining_the_largest_indices_gives_the_last_byte() {
    let indices = PageMapIndices { pml4: 511, pdpt: 511, pd: 511, pt: 511, offset: 4095 };
    assert_eq!(page_map_indices_to_address(indices), 0xffff_ffff_ffff);
}

#[test]
fn an_entry_is_its_address_and_its_flag_bits() {
    let entry = PML4E::new(true, 0x1234_5000, true, true, true, true).unwrap();
    assert_eq!(entry.value(), 0x8000_0000_1234_501f);
    let entry = PDPTE::new(false, 0x1234_5000, false, false, false, false).unwrap();
    assert_eq!(entry.value(), 0x1234_5001);
    let entry = PDE::new(false, 0xf_ffff_ffff_f000, false, true, false, true).unwrap();
    assert_eq!(entry.value(), 0xf_ffff_ffff_f00b);
    let entry = PTE::new(true, 0, true, false, true, false).unwrap();
    assert_eq!(entry.value(), 0x8000_0000_0000_0015);
}

#[test]
fn an_entry_refuses_a_misaligned_address() {
    assert_eq!(PML4E::new(false, 0x1001, false, false, false, false), Err(PagingError::Alignment));
    assert_eq!(PDPTE::new(false, 0x800, false, false, false, false), Err(PagingError::Alignment));
    assert_eq!(PDE::new(false, 0xfff, false, false, false, false), Err(PagingError::Alignment));
    assert_eq!(PTE::new(false, 0x1, false, false, false, false), Err(PagingError::Alignment));
}

#[test]
fn an_entry_refuses_an_address_of_more_than_52_bits() {
    let large = 0x10_0000_0000_0000;
    assert_eq!(PML4E::new(false, large, false, false, false, false), Err(PagingError::Range));
    assert_eq!(PDPTE::new(false, large, false, false, false, false), Err(PagingError::Range));
    assert_eq!(PDE::new(false, large, false, false, false, false), Err(PagingError::Range));
    assert_eq!(
        PTE::new(false, 0x8000_0000_0000_0000, false, false, false, false),
        Err(PagingError::Range)
    );
    assert!(PTE::new(false, large - 0x1000, false, false, false, false).is_ok());
}

#[test]
fn a_misaligned_address_of_more_than_52_bits_is_an_alignment_error() {
    assert_eq!(
        PTE::new(false, 0x10_0000_0000_0001, false, false, false, false),
        Err(PagingError::Alignment)
    );
}

#[test]
fn the_unset_entry_is_zero_and_not_present() {
    let entry = PTE::unset();
    assert_eq!(entry.value(), 0);
    assert!(!entry.present());
    assert!(PTE::new(false, 0, false, false, false, false).unwrap().present());
    assert_ne!(PTE::new(false, 0, false, false, false, false).unwrap(), PTE::unset());
}

#[test]
fn accessors_read_the_bits() {
    let entry = PML4E::new(true, 0x7000, false, false, false, true).unwrap();
    assert!(entry.present());
    assert!(entry.writable());
    assert!(entry.execute_disable());
    assert_eq!(entry.pdpt_address(), 0x7000);
    let entry = PDPTE::new(false, 0x8000, false, false, false, false).unwrap();
    assert!(entry.present());
    assert!(!entry.writable());
    assert!(!entry.execute_disable());
    assert_eq!(entry.pd_address(), 0x8000);
    let entry = PDE::new(false, 0x9000, true, true, true, false).unwrap();
    assert_eq!(entry.pt_address(), 0x9000);
    let entry = PTE::new(true, 0xa000, false, false, false, true).unwrap();
    assert_eq!(entry.page_address(), 0xa000);
    assert!(entry.writable() && entry.execute_disable());
}

#[test]
fn mutators_change_one_bit() {
    let mut entry = PML4E::new(true, 0x7000, false, false, false, false).unwrap();
    entry.set_writable(true);
    assert_eq!(entry.value(), 0x8000_0000_0000_7003);
    entry.set_execute_disable(false);
    assert_eq!(entry.value(), 0x7003);
    entry.set_writable(false);
    assert_eq!(entry.value(), 0x7001);
    entry.set_execute_disable(true);
    assert_eq!(entry.value(), 0x8000_0000_0000_7001);
    let mut entry = PDPTE::new(false, 0x7000, false, false, false, false).unwrap();
    entry.set_writable(true);
    entry.set_execute_disable(true);
    assert_eq!(entry.value(), 0x8000_0000_0000_7003);
    let mut entry = PDE::new(true, 0x7000, false, false, false, true).unwrap();
    entry.set_writable(false);
    entry.set_execute_disable(false);
    assert_eq!(entry.value(), 0x7001);
}

#[test]
fn flags_combine() {
    assert_eq!(PageMapFlags::W | PageMapFlags::X, PageMapFlags::WX);
    assert_eq!(PageMapFlags::default(), PageMapFlags::R);
    assert_eq!(PageMapFlags::R | PageMapFlags::W, PageMapFlags::W);
    assert_eq!(PageMapFlags::X | PageMapFlags::X, PageMapFlags::X);
    assert!(PageMapFlags::WX.writeable() && PageMapFlags::WX.executable());
    assert!(!PageMapFlags::R.writeable() && !PageMapFlags::R.executable());
    assert_eq!(PageMapFlags::new(true, false), PageMapFlags::W);
    assert_eq!(PageMapFlags::new(false, true), PageMapFlags::X);
}

#[test]
fn a_new_page_map_is_one_empty_table() {
    let (allocator, map) = fresh_map();
    assert_eq!(map.address(), 0x10_0000);
    assert_eq!(map.table_count(), 1);
    assert_eq!(map.table_address(0), 0x10_0000);
    assert!(map.table_entries(0).iter().all(|entry| *entry == 0));
    assert_eq!(map.table_entries(0).len(), 512);
    assert_eq!(PageMap::PAGE_SIZE, 4096);
    assert_eq!(map.size(), 0);
    assert_eq!(allocator.get().remaining(), 0x10_0000 - 0x1000);
}

#[test]
fn a_root_must_be_a_valid_physical_address() {
    assert_eq!(PageMap::with_root(0x1234).err(), Some(PagingError::Alignment));
    assert_eq!(PageMap::with_root(0x10_0000_0000_0000).err(), Some(PagingError::Range));
    assert_eq!(PageMap::with_root(0xf_ffff_ffff_f000).unwrap().address(), 0xf_ffff_ffff_f000);
}

#[test]
fn a_page_map_needs_a_page_for_its_root() {
    let mut allocator = Recorded::new(BumpAllocator::new(0x1000, 0x1000));
    assert_eq!(PageMap::new(&mut allocator).err(), Some(PagingError::AllocationExhausted));
}

#[test]
fn three_pages_are_visited_with_their_addresses_and_permissions() {
    let (mut allocator, mut map) = fresh_map();
    map.set(&mut allocator, 0x1000, 0x50_0000, PageMapFlags::W).unwrap();
    map.set(&mut allocator, 0x40_0000, 0x60_0000, PageMapFlags::X).unwrap();
    map.set(&mut allocator, 0x80_0000_0000, 0x70_0000, PageMapFlags::default()).unwrap();
    let found = leaves(&map);
    assert_eq!(found.len(), 3);
    assert_eq!(found[0].0, 0x1000);
    assert_eq!(found[0].1.value(), 0x8000_0000_0050_0003);
    assert_eq!(found[1].0, 0x40_0000);
    assert_eq!(found[1].1.value(), 0x60_0001);
    assert_eq!(found[2].0, 0x80_0000_0000);
    assert_eq!(found[2].1.value(), 0x8000_0000_0070_0001);
    assert_eq!(map.size(), 3 * 4096);
}

#[test]
fn the_walk_goes_depth_first() {
    let (mut allocator, mut map) = fresh_map();
    map.set(&mut allocator, 0x1000, 0x50_0000, PageMapFlags::W).unwrap();
    let mut log = VisitLog::new();
    map.debug(&mut log);
    assert_eq!(log.len(), 4);
    assert_eq!(
        log.get(0),
        Visit::Pml4e {
            index: 0,
            entry: {
                let mut entry = PML4E::new(true, 0x10_1000, false, false, false, false).unwrap();
                entry.set_writable(true);
                entry
            }
        }
    );
    assert!(matches!(log.get(1), Visit::Pdpte { index: 0, entry } if entry.pd_address() == 0x10_2000));
    assert!(matches!(log.get(2), Visit::Pde { index: 0, entry } if entry.pt_address() == 0x10_3000));
    assert_eq!(
        log.get(3),
        Visit::Pte {
            index: 1,
            virtual_address: 0x1000,
            entry: PTE::new(true, 0x50_0000, false, false, false, true).unwrap()
        }
    );
}

#[test]
fn missing_tables_are_made_in_order_and_linked() {
    let (mut allocator, mut map) = fresh_map();
    assert_eq!(map.missing_tables(0x1000), 3);
    map.set(&mut allocator, 0x1000, 0x50_0000, PageMapFlags::R).unwrap();
    assert_eq!(map.missing_tables(0x1000), 0);
    assert_eq!(map.missing_tables(0x2000), 0);
    assert_eq!(map.missing_tables(0x20_0000), 1);
    assert_eq!(map.missing_tables(0x4000_0000), 2);
    assert_eq!(map.missing_tables(0x80_0000_0000), 3);
    assert_eq!(map.table_count(), 4);
    assert_eq!(map.table_address(1), 0x10_1000);
    assert_eq!(map.table_address(2), 0x10_2000);
    assert_eq!(map.table_address(3), 0x10_3000);
    assert_eq!(map.table_entries(0)[0], 0x8000_0000_0010_1001);
    assert_eq!(map.table_entries(1)[0], 0x8000_0000_0010_2001);
    assert_eq!(map.table_entries(2)[0], 0x8000_0000_0010_3001);
    assert_eq!(map.table_entries(3)[1], 0x8000_0000_0050_0001);
    assert!(map.uses_frame(0x10_2000));
    assert!(!map.uses_frame(0x50_0000));
}

#[test]
fn set_rejects_a_misaligned_address() {
    let (mut allocator, mut map) = fresh_map();
    assert_eq!(
        map.set(&mut allocator, 0x1001, 0x50_0000, PageMapFlags::W),
        Err(PagingError::Alignment)
    );
    assert_eq!(
        map.set(&mut allocator, 0x1000, 0x50_0800, PageMapFlags::W),
        Err(PagingError::Alignment)
    );
    assert_eq!(map.size(), 0);
    assert_eq!(map.table_count(), 1);
    assert_eq!(allocator.get().remaining(), 0x10_0000 - 0x1000);
}

#[test]
fn set_rejects_a_physical_address_of_more_than_52_bits() {
    let (mut allocator, mut map) = fresh_map();
    assert_eq!(
        map.set(&mut allocator, 0x1000, 0x10_0000_0000_0000, PageMapFlags::W),
        Err(PagingError::Range)
    );
    assert_eq!(map.table_count(), 1);
}

#[test]
fn set_fails_without_pages_for_tables() {
    let mut allocator = Recorded::new(BumpAllocator::new(0x10_0000, 0x10_3000));
    let mut map = PageMap::new(&mut allocator).unwrap();
    assert_eq!(
        map.set(&mut allocator, 0x1000, 0x50_0000, PageMapFlags::W),
        Err(PagingError::AllocationExhausted)
    );
    assert_eq!(map.table_count(), 1);
    assert_eq!(map.size(), 0);
    assert_eq!(leaves(&map).len(), 0);
}

#[test]
fn set_refuses_a_page_that_holds_a_table_already() {
    let mut map = PageMap::with_root(0x10_0000).unwrap();
    let mut stuck = Recorded::new(Stuck(0x10_0000));
    assert_eq!(
        map.set(&mut stuck, 0x1000, 0x50_0000, PageMapFlags::W),
        Err(PagingError::AllocationExhausted)
    );
    let mut stuck = Recorded::new(Stuck(0x20_0000));
    assert_eq!(
        map.set(&mut stuck, 0x1000, 0x50_0000, PageMapFlags::W),
        Err(PagingError::AllocationExhausted)
    );
    let mut stuck = Recorded::new(Stuck(0x20_0001));
    assert_eq!(
        map.set(&mut stuck, 0x1000, 0x50_0000, PageMapFlags::W),
        Err(PagingError::AllocationExhausted)
    );
    assert_eq!(map.table_count(), 1);
}

#[test]
fn set_with_takes_the_frames_it_is_given() {
    let mut map = PageMap::with_root(0x10_0000).unwrap();
    assert_eq!(
        map.set_with(&[0x30_0000, 0x20_0000], 0x1000, 0x50_0000, PageMapFlags::W),
        Err(PagingError::AllocationExhausted)
    );
    assert_eq!(
        map.set_with(&[0x30_0000, 0x20_0000, 0x30_0000], 0x1000, 0x50_0000, PageMapFlags::W),
        Err(PagingError::AllocationExhausted)
    );
    assert_eq!(
        map.set_with(&[0x30_0000, 0x20_0000, 0x40_0000], 0x1000, 0x50_0000, PageMapFlags::W),
        Ok(())
    );
    assert_eq!(map.table_address(1), 0x30_0000);
    assert_eq!(map.table_address(2), 0x20_0000);
    assert_eq!(map.table_address(3), 0x40_0000);
    assert_eq!(map.set_with(&[], 0x2000, 0x60_0000, PageMapFlags::X), Ok(()));
    assert_eq!(
        map.set_with(&[0x40_0000], 0x20_0000, 0x60_0000, PageMapFlags::X),
        Err(PagingError::AllocationExhausted)
    );
    assert_eq!(map.set_with(&[0x70_0000], 0x20_0000, 0x60_0000, PageMapFlags::X), Ok(()));
    assert_eq!(map.size(), 3 * 4096);
}

#[test]
fn mapping_again_replaces_the_entry() {
    let (mut allocator, mut map) = fresh_map();
    map.set(&mut allocator, 0x1000, 0x50_0000, PageMapFlags::WX).unwrap();
    map.set(&mut allocator, 0x1000, 0x60_0000, PageMapFlags::R).unwrap();
    assert_eq!(map.leaf(0x1000).value(), 0x8000_0000_0060_0001);
    assert_eq!(map.size(), 4096);
}

#[test]
fn ancestors_are_widened_and_never_narrowed() {
    let (mut allocator, mut map) = fresh_map();
    map.set(&mut allocator, 0x1000, 0x50_0000, PageMapFlags::W).unwrap();
    for table in 0..3 {
        assert_eq!(map.table_entries(table)[0] & 0x8000_0000_0000_0003, 0x8000_0000_0000_0003);
    }
    map.set(&mut allocator, 0x2000, 0x60_0000, PageMapFlags::R).unwrap();
    for table in 0..3 {
        assert_eq!(map.table_entries(table)[0] & 0x8000_0000_0000_0003, 0x8000_0000_0000_0003);
    }
    assert!(map.leaf(0x1000).writable());
    assert!(!map.leaf(0x2000).writable());
    map.set(&mut allocator, 0x3000, 0x70_0000, PageMapFlags::X).unwrap();
    for table in 0..3 {
        assert_eq!(map.table_entries(table)[0] & 0x8000_0000_0000_0003, 0x3);
    }
    assert!(map.leaf(0x1000).writable() && map.leaf(0x1000).execute_disable());
    assert!(!map.leaf(0x2000).writable() && map.leaf(0x2000).execute_disable());
    assert!(!map.leaf(0x3000).writable() && !map.leaf(0x3000).execute_disable());
}

#[test]
fn unset_clears_the_entry_and_keeps_the_tables() {
    let (mut allocator, mut map) = fresh_map();
    map.set(&mut allocator, 0x1000, 0x50_0000, PageMapFlags::W).unwrap();
    map.set(&mut allocator, 0x2000, 0x60_0000, PageMapFlags::W).unwrap();
    assert_eq!(map.unset(0x1000), Ok(()));
    assert_eq!(map.leaf(0x1000), PTE::unset());
    assert_eq!(map.leaf(0x2000).page_address(), 0x60_0000);
    assert_eq!(map.size(), 4096);
    assert_eq!(map.table_count(), 4);
    assert_eq!(map.missing_tables(0x1000), 0);
}

#[test]
fn unset_twice_is_unset_once() {
    let (mut allocator, mut map) = fresh_map();
    map.set(&mut allocator, 0x1000, 0x50_0000, PageMapFlags::W).unwrap();
    map.set(&mut allocator, 0x2000, 0x60_0000, PageMapFlags::W).unwrap();
    map.unset(0x1000).unwrap();
    let once: Vec<Vec<u64>> =
        (0..map.table_count()).map(|table| map.table_entries(table).clone()).collect();
    map.unset(0x1000).unwrap();
    let twice: Vec<Vec<u64>> =
        (0..map.table_count()).map(|table| map.table_entries(table).clone()).collect();
    assert_eq!(once, twice);
}

#[test]
fn unset_without_tables_changes_nothing() {
    let (mut allocator, mut map) = fresh_map();
    assert_eq!(map.unset(0x1000), Ok(()));
    assert_eq!(map.table_count(), 1);
    map.set(&mut allocator, 0x1000, 0x50_0000, PageMapFlags::W).unwrap();
    assert_eq!(map.unset(0x80_0000_0000), Ok(()));
    assert_eq!(map.unset(0x4000_0000), Ok(()));
    assert_eq!(map.unset(0x20_0000), Ok(()));
    assert_eq!(map.size(), 4096);
    assert_eq!(map.table_count(), 4);
}

#[test]
fn unset_rejects_a_misaligned_address() {
    let (mut allocator, mut map) = fresh_map();
    map.set(&mut allocator, 0x1000, 0x50_0000, PageMapFlags::W).unwrap();
    assert_eq!(map.unset(0x1008), Err(PagingError::Alignment));
    assert_eq!(map.size(), 4096);
}

#[test]
fn size_counts_the_mapped_pages() {
    let (mut allocator, mut map) = fresh_map();
    for page in 0..20u64 {
        map.set(&mut allocator, page * 0x1000, 0x50_0000 + page * 0x1000, PageMapFlags::R)
            .unwrap();
    }
    assert_eq!(map.size(), 20 * 4096);
    for page in 0..20u64 {
        map.set(&mut allocator, page * 0x1000, 0x90_0000, PageMapFlags::W).unwrap();
    }
    assert_eq!(map.size(), 20 * 4096);
    for page in (0..20u64).step_by(2) {
        map.unset(page * 0x1000).unwrap();
    }
    assert_eq!(map.size(), 10 * 4096);
    map.set(&mut allocator, 0xffff_ffff_f000, 0x50_0000, PageMapFlags::R).unwrap();
    assert_eq!(map.size(), 11 * 4096);
}

#[test]
fn the_recursive_window_repeats_the_last_index() {
    let (_, mut map) = fresh_map();
    let top = map.pml4(PageMapMode::Active);
    assert_eq!(top, 0xffff_ffff_f000);
    assert_eq!(
        address_to_page_map_indices(top),
        PageMapIndices { pml4: 511, pdpt: 511, pd: 511, pt: 511, offset: 0 }
    );
    assert_eq!(map.pml4_mut(PageMapMode::Active), top);
    for k in [0u16, 1, 17, 511] {
        let second = map.pdpt(PageMapMode::Active, k);
        assert_eq!(
            address_to_page_map_indices(second),
            PageMapIndices { pml4: 511, pdpt: 511, pd: 511, pt: k as usize, offset: 0 }
        );
        assert_eq!(map.pdpt_mut(PageMapMode::Active, k), second);
    }
    assert_eq!(map.pdpt(PageMapMode::Active, 3), 0xffff_ffe0_3000);
    let third = map.pd_mut(PageMapMode::Active, 5, 7);
    assert_eq!(third, 0xffff_c0a0_7000);
    assert_eq!(
        address_to_page_map_indices(third),
        PageMapIndices { pml4: 511, pdpt: 511, pd: 5, pt: 7, offset: 0 }
    );
}

#[test]
fn tables_that_are_not_in_use_are_reached_by_their_addresses() {
    let (mut allocator, mut map) = fresh_map();
    assert_eq!(map.pml4(PageMapMode::Inactive), 0x10_0000);
    assert_eq!(map.pml4_mut(PageMapMode::Inactive), 0x10_0000);
    assert_eq!(map.pdpt(PageMapMode::Inactive, 0), 0);
    assert_eq!(map.pd_mut(PageMapMode::Inactive, 0, 0), 0);
    map.set(&mut allocator, 0x1000, 0x50_0000, PageMapFlags::W).unwrap();
    assert_eq!(map.pdpt(PageMapMode::Inactive, 0), 0x10_1000);
    assert_eq!(map.pdpt_mut(PageMapMode::Inactive, 0), 0x10_1000);
    assert_eq!(map.pdpt(PageMapMode::Inactive, 1), 0);
    assert_eq!(map.pd_mut(PageMapMode::Inactive, 0, 0), 0x10_2000);
    assert_eq!(map.pd_mut(PageMapMode::Inactive, 0, 1), 0);
    assert_eq!(map.pd_mut(PageMapMode::Inactive, 1, 0), 0);
}

#[test]
fn a_bump_allocator_hands_out_its_range_once() {
    let mut allocator = BumpAllocator::new(0x1001, 0x5000);
    assert_eq!(allocator.remaining(), 0x3000);
    assert_eq!(allocator.allocate_pages(0), None);
    assert_eq!(allocator.allocate_pages(2), Some(0x2000));
    assert_eq!(allocator.allocate_pages(2), None);
    assert_eq!(allocator.allocate_pages(1), Some(0x4000));
    assert_eq!(allocator.allocate_pages(1), None);
    assert_eq!(allocator.remaining(), 0);
    let mut empty = BumpAllocator::new(0xffff_ffff_ffff_f001, 0xffff_ffff_ffff_ffff);
    assert_eq!(empty.allocate_pages(1), None);
}

struct Counting {
    pages: BumpAllocator,
    requests: Vec<usize>,
}

impl Counting {
    fn over(start: u64, end: u64) -> Recorded<Counting> {
        Recorded::new(Counting { pages: BumpAllocator::new(start, end), requests: Vec::new() })
    }
}

impl PageAllocator for Counting {
    fn allocate_pages(&mut self, count: usize) -> Option<u64> {
        self.requests.push(count);
        self.pages.allocate_pages(count)
    }
}

#[test]
fn a_new_page_map_asks_for_one_page_once() {
    let mut allocator = Counting::over(0x10_0000, 0x20_0000);
    let map = PageMap::new(&mut allocator).unwrap();
    assert_eq!(allocator.get().requests, vec![1]);
    assert_eq!(map.address(), 0x10_0000);
    let mut nothing = Counting::over(0, 0);
    assert_eq!(PageMap::new(&mut nothing).err(), Some(PagingError::AllocationExhausted));
    assert_eq!(nothing.get().requests, vec![1]);
}

#[test]
fn a_mapping_asks_for_one_page_for_each_missing_table() {
    let mut allocator = Counting::over(0x10_0000, 0x20_0000);
    let mut map = PageMap::with_root(0x9000).unwrap();
    map.set(&mut allocator, 0x1000, 0x50_0000, PageMapFlags::W).unwrap();
    assert_eq!(allocator.get().requests, vec![1, 1, 1]);
    assert_eq!(map.table_address(1), 0x10_0000);
    assert_eq!(map.table_address(2), 0x10_1000);
    assert_eq!(map.table_address(3), 0x10_2000);
    map.set(&mut allocator, 0x2000, 0x60_0000, PageMapFlags::W).unwrap();
    assert_eq!(allocator.get().requests, vec![1, 1, 1]);
    map.set(&mut allocator, 0x20_0000, 0x60_0000, PageMapFlags::W).unwrap();
    assert_eq!(allocator.get().requests, vec![1, 1, 1, 1]);
    map.set(&mut allocator, 0x4000_0000, 0x60_0000, PageMapFlags::W).unwrap();
    assert_eq!(allocator.get().requests, vec![1, 1, 1, 1, 1, 1]);
}

#[test]
fn a_rejected_mapping_asks_for_no_page() {
    let mut allocator = Counting::over(0x10_0000, 0x20_0000);
    let mut map = PageMap::with_root(0x9000).unwrap();
    assert_eq!(
        map.set(&mut allocator, 0x1001, 0x50_0000, PageMapFlags::W),
        Err(PagingError::Alignment)
    );
    assert_eq!(
        map.set(&mut allocator, 0x1000, 0x50_0001, PageMapFlags::W),
        Err(PagingError::Alignment)
    );
    assert_eq!(
        map.set(&mut allocator, 0x1000, 0x10_0000_0000_0000, PageMapFlags::W),
        Err(PagingError::Range)
    );
    assert!(allocator.get().requests.is_empty());
    assert_eq!(map.table_count(), 1);
    assert_eq!(map.size(), 0);
}

#[test]
fn a_mapping_stops_asking_at_the_first_refusal() {
    let mut allocator = Counting::over(0x10_0000, 0x10_2000);
    let mut map = PageMap::with_root(0x9000).unwrap();
    assert_eq!(
        map.set(&mut allocator, 0x1000, 0x50_0000, PageMapFlags::W),
        Err(PagingError::AllocationExhausted)
    );
    assert_eq!(allocator.get().requests, vec![1, 1, 1]);
    assert_eq!(map.table_count(), 1);
}

#[test]
fn the_walk_shows_the_mapped_pages_in_ascending_order() {
    let (mut allocator, mut map) = fresh_map();
    let pages = [0x80_0000_3000u64, 0x1000, 0xffff_ffff_f000, 0x40_0000, 0x2000, 0x4000_0000];
    for (n, page) in pages.iter().enumerate() {
        map.set(&mut allocator, *page, 0x50_0000 + 0x1000 * n as u64, PageMapFlags::W).unwrap();
    }
    map.unset(0x2000).unwrap();
    let shown: Vec<u64> = leaves(&map).iter().map(|(address, _)| *address).collect();
    assert_eq!(shown, vec![0x1000, 0x40_0000, 0x4000_0000, 0x80_0000_3000, 0xffff_ffff_f000]);
    for (address, entry) in leaves(&map) {
        assert_eq!(entry, map.leaf(address));
        assert!(entry.present());
    }
}
