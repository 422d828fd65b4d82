use learn_os::boot::{
    map_kernel, map_kernel_segment, map_pages, map_stack, map_switch_to_kernel, page_image,
    pages_for, prepare, BootError, KERNEL_ENTRYPOINT,
};
use learn_os::exe::v0::{Error, SegmentInfo};
use learn_os::paging::{
    BumpAllocator, PageAllocator, PageMap, PageMapFlags, PagingError, Recorded, PTE,
};
use learn_os::registers::{CR0, CR3, CR4, IA32_EFER};

fn descriptor(start: u64, size: u64, load_address: u64) -> Vec<u8> {
    let mut bytes = Vec::new();
    bytes.extend_from_slice(&start.to_le_bytes());
    bytes.extend_from_slice(&size.to_le_bytes());
    bytes.extend_from_slice(&load_address.to_le_bytes());
    bytes
}

fn kernel_image() -> Vec<u8> {
    let mut bytes = b"learn-os".to_vec();
    bytes.extend_from_slice(&0u16.to_le_bytes());
    bytes.extend(descriptor(82, 5000, 0x1000));
    bytes.extend(descriptor(5082, 3, 0x3000));
    bytes.extend(descriptor(5085, 0, 0x4000));
    bytes.extend((0..5003u32).map(|n| (n % 251) as u8 + 1));
    bytes
}

fn fresh_map() -> (Recorded<BumpAllocator>, PageMap) {
    let mut allocator = Recorded::new(BumpAllocator::new(0x10_0000, 0x20_0000));
    let map = PageMap::new(&mut allocator).unwrap();
    (allocator, map)
}

fn registers() -> (CR0, CR3, CR4, IA32_EFER) {
    (
        CR0::from_value(0x8000_0011),
        CR3::from_value(0x7ff_e018),
        CR4::from_value(0x668),
        IA32_EFER::from_value(0xd00),
    )
}

#[test]
fn pages_are_counted_rounding_up() {
    assert_eq!(pages_for(0), 0);
    assert_eq!(pages_for(1), 1);
    assert_eq!(pages_for(4096), 1);
    assert_eq!(pages_for(4097), 2);
    assert_eq!(pages_for(KERNEL_ENTRYPOINT), 1);
    assert_eq!(pages_for(u64::MAX), 0x10_0000_0000_0000);
}

#[test]
fn a_page_image_is_padded_with_zeros() {
    assert_eq!(page_image(&[1, 2, 3], 5), vec![1, 2, 3, 0, 0]);
    assert_eq!(page_image(&[1, 2, 3], 2), vec![1, 2]);
    assert_eq!(page_image(&[], 0), Vec::<u8>::new());
    let image = page_image(&[9; 5000], 8192);
    assert_eq!(image.len(), 8192);
    assert!(image[..5000].iter().all(|byte| *byte == 9));
    assert!(image[5000..].iter().all(|byte| *byte == 0));
}

#[test]
fn a_run_of_pages_is_mapped_page_by_page() {
    let (mut allocator, mut map) = fresh_map();
    assert_eq!(map_pages(&mut allocator, &mut map, 0x1f_e000, 0x50_0000, 4, PageMapFlags::W), Ok(()));
    assert_eq!(map.size(), 4 * 4096);
    for page in 0..4u64 {
        assert_eq!(
            map.leaf(0x1f_e000 + page * 0x1000),
            PTE::new(true, 0x50_0000 + page * 0x1000, false, false, false, true).unwrap()
        );
    }
    assert_eq!(map.leaf(0x1f_d000), PTE::unset());
    assert_eq!(map.leaf(0x20_2000), PTE::unset());
    assert_eq!(map.table_count(), 5);
}

#[test]
fn a_run_of_pages_must_be_aligned_and_in_range() {
    let (mut allocator, mut map) = fresh_map();
    assert_eq!(
        map_pages(&mut allocator, &mut map, 0x1001, 0x50_0000, 1, PageMapFlags::W),
        Err(PagingError::Alignment)
    );
    assert_eq!(
        map_pages(&mut allocator, &mut map, 0x1000, 0x50_0008, 0, PageMapFlags::W),
        Err(PagingError::Alignment)
    );
    assert_eq!(
        map_pages(&mut allocator, &mut map, 0xffff_ffff_f000, 0x50_0000, 2, PageMapFlags::W),
        Err(PagingError::Range)
    );
    assert_eq!(
        map_pages(&mut allocator, &mut map, 0x1000, 0xf_ffff_ffff_f000, 2, PageMapFlags::W),
        Err(PagingError::Range)
    );
    assert_eq!(
        map_pages(&mut allocator, &mut map, 0x1_0000_0000_0000, 0x1000, 0, PageMapFlags::W),
        Ok(())
    );
    assert_eq!(
        map_pages(&mut allocator, &mut map, 0x1_0000_0000_1000, 0x1000, 0, PageMapFlags::W),
        Err(PagingError::Range)
    );
    assert_eq!(map.size(), 0);
    assert_eq!(map.table_count(), 1);
}

#[test]
fn a_run_of_pages_stops_where_tables_run_out() {
    let mut allocator = Recorded::new(BumpAllocator::new(0x10_0000, 0x10_4000));
    let mut map = PageMap::new(&mut allocator).unwrap();
    assert_eq!(
        map_pages(&mut allocator, &mut map, 0x1f_f000, 0x50_0000, 2, PageMapFlags::W),
        Err(PagingError::AllocationExhausted)
    );
    assert_eq!(map.size(), 4096);
    assert!(map.leaf(0x1f_f000).present());
    assert!(!map.leaf(0x20_0000).present());
}

#[test]
fn the_stack_is_mapped_below_the_entry_point() {
    let (mut allocator, mut map) = fresh_map();
    let stack = map_stack(&mut allocator, &mut map).unwrap();
    assert_eq!(stack.physical_address, 0x10_1000);
    assert_eq!(stack.pages, 1);
    assert_eq!(stack.bytes, vec![0u8; 4096]);
    assert_eq!(map.leaf(0), PTE::new(true, 0x10_1000, false, false, false, true).unwrap());
    assert_eq!(map.size(), 4096);
    let mut empty = Recorded::new(BumpAllocator::new(0, 0));
    assert_eq!(map_stack(&mut empty, &mut map).err(), Some(PagingError::AllocationExhausted));
    assert_eq!(map.leaf(0).page_address(), 0x10_1000);
}

#[test]
fn a_stack_that_cannot_be_mapped_leaves_the_page_map_as_it_was() {
    let mut allocator = Recorded::new(BumpAllocator::new(0x10_0000, 0x10_3000));
    let mut map = PageMap::new(&mut allocator).unwrap();
    assert_eq!(map_stack(&mut allocator, &mut map).err(), Some(PagingError::AllocationExhausted));
    assert_eq!(map.table_count(), 1);
    assert!(map.table_entries(0).iter().all(|entry| *entry == 0));
    assert_eq!(map.size(), 0);
}

#[test]
fn a_segment_is_laid_out_and_mapped() {
    let (mut allocator, mut map) = fresh_map();
    let data: Vec<u8> = (0..5000u32).map(|n| n as u8).collect();
    let info = SegmentInfo { start: 82, size: 5000, load_address: 0x4000_0000 };
    let segment =
        map_kernel_segment(&mut allocator, &mut map, info, &data, PageMapFlags::X).unwrap();
    assert_eq!(segment.physical_address, 0x10_1000);
    assert_eq!(segment.pages, 2);
    assert_eq!(segment.bytes.len(), 8192);
    assert_eq!(&segment.bytes[..5000], &data[..]);
    assert!(segment.bytes[5000..].iter().all(|byte| *byte == 0));
    assert_eq!(map.leaf(0x4000_0000).value(), 0x10_1001);
    assert_eq!(map.leaf(0x4000_1000).value(), 0x10_2001);
    assert_eq!(map.size(), 2 * 4096);
}

#[test]
fn an_empty_segment_takes_no_page() {
    let (mut allocator, mut map) = fresh_map();
    let info = SegmentInfo { start: 82, size: 0, load_address: 0x2000 };
    let segment = map_kernel_segment(&mut allocator, &mut map, info, &[], PageMapFlags::R).unwrap();
    assert_eq!(segment.pages, 0);
    assert_eq!(segment.physical_address, 0);
    assert!(segment.bytes.is_empty());
    assert_eq!(map.size(), 0);
    assert_eq!(allocator.get().remaining(), 0xf_f000);
}

#[test]
fn a_segment_must_load_at_a_page_boundary() {
    let (mut allocator, mut map) = fresh_map();
    let info = SegmentInfo { start: 82, size: 4, load_address: 0x2004 };
    assert_eq!(
        map_kernel_segment(&mut allocator, &mut map, info, &[1, 2, 3, 4], PageMapFlags::R).err(),
        Some(PagingError::Alignment)
    );
    assert_eq!(map.size(), 0);
}

#[test]
fn the_kernel_is_mapped_segment_by_segment() {
    let (mut allocator, mut map) = fresh_map();
    let image = kernel_image();
    let kernel = map_kernel(&mut allocator, &mut map, &image).unwrap();
    assert_eq!(kernel.code.pages, 2);
    assert_eq!(kernel.rodata.pages, 1);
    assert_eq!(kernel.rwdata.pages, 0);
    assert_eq!(&kernel.code.bytes[..5000], &image[82..5082]);
    assert_eq!(&kernel.rodata.bytes[..3], &image[5082..5085]);
    assert!(kernel.rodata.bytes[3..].iter().all(|byte| *byte == 0));
    let code = kernel.code.physical_address;
    assert_eq!(map.leaf(0x1000), PTE::new(false, code, false, false, false, false).unwrap());
    assert_eq!(
        map.leaf(0x2000),
        PTE::new(false, code + 0x1000, false, false, false, false).unwrap()
    );
    assert_eq!(
        map.leaf(0x3000),
        PTE::new(true, kernel.rodata.physical_address, false, false, false, false).unwrap()
    );
    assert_eq!(map.leaf(0x4000), PTE::unset());
    assert_eq!(map.size(), 3 * 4096);
}

#[test]
fn a_later_segment_wins_where_segments_overlap() {
    let (mut allocator, mut map) = fresh_map();
    let mut image = b"learn-os".to_vec();
    image.extend_from_slice(&0u16.to_le_bytes());
    image.extend(descriptor(82, 1, 0x1000));
    image.extend(descriptor(82, 1, 0x2000));
    image.extend(descriptor(82, 1, 0x1000));
    image.push(0xcc);
    let kernel = map_kernel(&mut allocator, &mut map, &image).unwrap();
    assert_eq!(
        map.leaf(0x1000),
        PTE::new(true, kernel.rwdata.physical_address, false, false, false, true).unwrap()
    );
    assert_eq!(map.size(), 2 * 4096);
}

#[test]
fn a_broken_kernel_image_is_not_mapped() {
    let (mut allocator, mut map) = fresh_map();
    let image = kernel_image();
    assert_eq!(
        map_kernel(&mut allocator, &mut map, &image[..70]).err(),
        Some(BootError::Format(Error::Length { minimum_length: 82, actual_length: 70 }))
    );
    assert_eq!(
        map_kernel(&mut allocator, &mut map, &image[..5084]).err(),
        Some(BootError::Format(Error::SegmentBounds {
            start: 5082,
            size: 3,
            actual_length: 5084
        }))
    );
    let mut other = image.clone();
    other[8] = 1;
    assert_eq!(
        map_kernel(&mut allocator, &mut map, &other).err(),
        Some(BootError::Format(Error::Version { expected: 0, actual: 1 }))
    );
    assert_eq!(map.size(), 0);
    assert_eq!(map.table_count(), 1);
}

#[test]
fn the_kernel_needs_pages() {
    let mut allocator = Recorded::new(BumpAllocator::new(0x10_0000, 0x10_2000));
    let mut map = PageMap::new(&mut allocator).unwrap();
    assert_eq!(
        map_kernel(&mut allocator, &mut map, &kernel_image()).err(),
        Some(BootError::Paging(PagingError::AllocationExhausted))
    );
}

#[test]
fn the_switching_routine_is_mapped_onto_itself() {
    let (mut allocator, mut map) = fresh_map();
    assert_eq!(map_switch_to_kernel(&mut allocator, &mut map, 0x7e5_4321), Ok(0x7e5_4000));
    assert_eq!(map.leaf(0x7e5_4000), PTE::new(false, 0x7e5_4000, false, false, false, false).unwrap());
    assert_eq!(map.size(), 4096);
    assert_eq!(map_switch_to_kernel(&mut allocator, &mut map, 0x2000), Ok(0x2000));
}

#[test]
fn the_switching_routine_must_lie_above_the_kernels_first_page() {
    let (mut allocator, mut map) = fresh_map();
    for address in [0, 0xfff, 0x1000, 0x1abc, 0x1fff] {
        assert_eq!(
            map_switch_to_kernel(&mut allocator, &mut map, address),
            Err(BootError::TransitionOverlap)
        );
    }
    assert_eq!(
        map_switch_to_kernel(&mut allocator, &mut map, 0x1_0000_0000_0000),
        Err(BootError::Paging(PagingError::Range))
    );
    let mut empty = Recorded::new(BumpAllocator::new(0, 0));
    assert_eq!(
        map_switch_to_kernel(&mut empty, &mut map, 0x7e5_4321),
        Err(BootError::Paging(PagingError::AllocationExhausted))
    );
    assert_eq!(map.size(), 0);
}

#[test]
fn the_transition_is_prepared_step_by_step() {
    let mut allocator = Recorded::new(BumpAllocator::new(0x10_0000, 0x20_0000));
    let (cr0, cr3, cr4, efer) = registers();
    let image = kernel_image();
    let transition =
        prepare(&mut allocator, &image, 0x7e5_4321, cr0, cr3, cr4, efer, 0xc050).unwrap();
    assert_eq!(transition.entrypoint, 0x1000);
    assert_eq!(transition.arguments.page_size, 4096);
    assert_eq!(transition.arguments.switch_to_kernel_page_addr, 0x7e5_4000);
    assert_eq!(transition.arguments.serial_controller_port, 0xc050);
    assert_eq!(transition.page_map.address(), 0x10_0000);
    assert_eq!(transition.cr3.value(), 0x10_0018);
    assert_eq!(transition.stack.physical_address, 0x10_1000);
    assert_eq!(transition.stack.pages, 1);
    assert_eq!(transition.stack.bytes, vec![0u8; 4096]);
    let map = &transition.page_map;
    assert_eq!(map.leaf(0).value(), 0x8000_0000_0010_1003);
    assert_eq!(map.leaf(0x1000).value(), transition.kernel.code.physical_address | 1);
    assert_eq!(map.leaf(0x2000).value(), (transition.kernel.code.physical_address + 0x1000) | 1);
    assert_eq!(
        map.leaf(0x3000).value(),
        transition.kernel.rodata.physical_address | 0x8000_0000_0000_0001
    );
    assert_eq!(map.leaf(0x7e5_4000).value(), 0x7e5_4001);
    assert_eq!(map.size(), 5 * 4096);
}

#[test]
fn the_transition_fails_at_the_first_broken_step() {
    let (cr0, cr3, cr4, efer) = registers();
    let image = kernel_image();
    let mut allocator = Recorded::new(BumpAllocator::new(0x10_0000, 0x20_0000));
    assert_eq!(
        prepare(&mut allocator, &image[..10], 0x7e5_4321, cr0, cr3, cr4, efer, 0).err(),
        Some(BootError::Format(Error::Length { minimum_length: 82, actual_length: 10 }))
    );
    assert_eq!(allocator.get().remaining(), 0x10_0000);
    assert_eq!(
        prepare(&mut allocator, &image, 0x1234, cr0, cr3, cr4, efer, 0).err(),
        Some(BootError::TransitionOverlap)
    );
    let mut allocator = Recorded::new(BumpAllocator::new(0x10_0000, 0x20_0000));
    assert_eq!(
        prepare(&mut allocator, &image, 0x7e5_4321, CR0::from_value(1), cr3, cr4, efer, 0).err(),
        Some(BootError::PagingNotEnabled)
    );
    let mut allocator = Recorded::new(BumpAllocator::new(0x10_0000, 0x10_0000));
    assert_eq!(
        prepare(&mut allocator, &image, 0x7e5_4321, cr0, cr3, cr4, efer, 0).err(),
        Some(BootError::Paging(PagingError::AllocationExhausted))
    );
}

#[test]
fn an_image_with_a_segment_out_of_bounds_is_turned_down_before_a_page_is_taken() {
    let (cr0, cr3, cr4, efer) = registers();
    let image = kernel_image();
    let mut allocator = Recorded::new(BumpAllocator::new(0x10_0000, 0x20_0000));
    assert_eq!(
        prepare(&mut allocator, &image[..5084], 0x7e5_4321, cr0, cr3, cr4, efer, 0).err(),
        Some(BootError::Format(Error::SegmentBounds {
            start: 5082,
            size: 3,
            actual_length: 5084
        }))
    );
    assert_eq!(allocator.get().remaining(), 0x10_0000);
}

struct Counting {
    pages: BumpAllocator,
    requests: Vec<usize>,
}

impl Counting {
    fn over(start: u64, end: u64) -> Recorded<Counting> {
        Recorded::new(Counting { pages: BumpAllocator::new(start, end), requests: Vec::new() })
    }
}

impl PageAllocator for Counting {
    fn allocate_pages(&mut self, count: usize) -> Option<u64> {
        self.requests.push(count);
        self.pages.allocate_pages(count)
    }
}

fn image_of(segments: [(u64, u64, u64); 3], payload: usize) -> Vec<u8> {
    let mut bytes = b"learn-os".to_vec();
    bytes.extend_from_slice(&0u16.to_le_bytes());
    for (start, size, load_address) in segments {
        bytes.extend(descriptor(start, size, load_address));
    }
    bytes.extend(std::iter::repeat(7u8).take(payload));
    bytes
}

#[test]
fn a_segment_asks_for_its_pages_first_and_then_for_tables() {
    let mut allocator = Counting::over(0x10_0000, 0x20_0000);
    let mut map = PageMap::with_root(0x9000).unwrap();
    let info = SegmentInfo { start: 82, size: 8193, load_address: 0x1f_f000 };
    let data = vec![1u8; 8193];
    let segment =
        map_kernel_segment(&mut allocator, &mut map, info, &data, PageMapFlags::W).unwrap();
    assert_eq!(segment.physical_address, 0x10_0000);
    assert_eq!(segment.pages, 3);
    assert_eq!(allocator.get().requests, vec![3, 1, 1, 1, 1]);
}

#[test]
fn a_segment_that_cannot_be_mapped_asks_for_no_page() {
    let mut allocator = Counting::over(0x10_0000, 0x20_0000);
    let mut map = PageMap::with_root(0x9000).unwrap();
    let info = SegmentInfo { start: 82, size: 4, load_address: 0x2004 };
    assert_eq!(
        map_kernel_segment(&mut allocator, &mut map, info, &[1, 2, 3, 4], PageMapFlags::R).err(),
        Some(PagingError::Alignment)
    );
    let info = SegmentInfo { start: 82, size: 0, load_address: 0x2004 };
    assert_eq!(
        map_kernel_segment(&mut allocator, &mut map, info, &[], PageMapFlags::R).err(),
        Some(PagingError::Alignment)
    );
    let info = SegmentInfo { start: 82, size: 4097, load_address: 0xffff_ffff_f000 };
    assert_eq!(
        map_kernel_segment(&mut allocator, &mut map, info, &[0; 4097], PageMapFlags::R).err(),
        Some(PagingError::Range)
    );
    let info = SegmentInfo { start: 82, size: 0, load_address: 0x1_0000_0000_0000 };
    assert!(map_kernel_segment(&mut allocator, &mut map, info, &[], PageMapFlags::R).is_ok());
    let info = SegmentInfo { start: 82, size: 0, load_address: 0x1_0000_0000_1000 };
    assert_eq!(
        map_kernel_segment(&mut allocator, &mut map, info, &[], PageMapFlags::R).err(),
        Some(PagingError::Range)
    );
    assert!(allocator.get().requests.is_empty());
    assert_eq!(map.table_count(), 1);
}

#[test]
fn a_kernel_without_bytes_is_mapped_without_a_page() {
    let mut allocator = Counting::over(0, 0);
    let mut map = PageMap::with_root(0x9000).unwrap();
    let image = image_of([(82, 0, 0x1000), (82, 0, 0x2000), (82, 0, 0x3000)], 0);
    let kernel = map_kernel(&mut allocator, &mut map, &image).unwrap();
    assert_eq!(kernel.code.pages + kernel.rodata.pages + kernel.rwdata.pages, 0);
    assert!(allocator.get().requests.is_empty());
    assert_eq!(map.table_count(), 1);
}

#[test]
fn a_kernel_with_a_misplaced_segment_is_turned_down_before_a_page_is_taken() {
    let mut allocator = Counting::over(0x10_0000, 0x20_0000);
    let mut map = PageMap::with_root(0x9000).unwrap();
    let image = image_of([(82, 4, 0x1000), (86, 4, 0x2000), (90, 4, 0x3008)], 12);
    assert_eq!(
        map_kernel(&mut allocator, &mut map, &image).err(),
        Some(BootError::Paging(PagingError::Alignment))
    );
    let image = image_of([(82, 4, 0x1000), (86, 4, 0xffff_ffff_f000), (90, 4097, 0xffff_ffff_f000)], 4200);
    assert_eq!(
        map_kernel(&mut allocator, &mut map, &image).err(),
        Some(BootError::Paging(PagingError::Range))
    );
    assert!(allocator.get().requests.is_empty());
    assert_eq!(map.table_count(), 1);
}

#[test]
fn a_kernel_asks_for_the_pages_of_each_segment_that_has_bytes() {
    let mut allocator = Counting::over(0x10_0000, 0x20_0000);
    let mut map = PageMap::with_root(0x9000).unwrap();
    let image = image_of([(82, 0, 0x1000), (82, 5000, 0x2000), (82, 1, 0x4000)], 5000);
    let kernel = map_kernel(&mut allocator, &mut map, &image).unwrap();
    assert_eq!(allocator.get().requests, vec![2, 1, 1, 1, 1]);
    assert_eq!(kernel.code.physical_address, 0);
    assert_eq!(kernel.rodata.physical_address, 0x10_0000);
    assert_eq!(kernel.rwdata.physical_address, 0x10_5000);
}

#[test]
fn the_switching_routine_needs_a_page_only_for_a_missing_table() {
    let mut allocator = Counting::over(0x10_0000, 0x20_0000);
    let mut map = PageMap::with_root(0x9000).unwrap();
    assert_eq!(map_switch_to_kernel(&mut allocator, &mut map, 0x7e5_4321), Ok(0x7e5_4000));
    assert_eq!(allocator.get().requests, vec![1, 1, 1]);
    let mut nothing = Counting::over(0, 0);
    assert_eq!(map_switch_to_kernel(&mut nothing, &mut map, 0x7e5_5123), Ok(0x7e5_5000));
    assert!(nothing.get().requests.is_empty());
    assert_eq!(
        map_switch_to_kernel(&mut nothing, &mut map, 0x1234),
        Err(BootError::TransitionOverlap)
    );
    assert!(nothing.get().requests.is_empty());
}

#[test]
fn the_stack_asks_for_its_page_first() {
    let mut allocator = Counting::over(0x10_0000, 0x20_0000);
    let mut map = PageMap::with_root(0x9000).unwrap();
    let stack = map_stack(&mut allocator, &mut map).unwrap();
    assert_eq!(stack.physical_address, 0x10_0000);
    assert_eq!(allocator.get().requests, vec![1, 1, 1, 1]);
}

#[test]
fn the_transition_takes_the_root_first_and_the_stack_next() {
    let mut allocator = Counting::over(0x10_0000, 0x20_0000);
    let (cr0, cr3, cr4, efer) = registers();
    let image = kernel_image();
    let transition = prepare(&mut allocator, &image, 0x7e5_4321, cr0, cr3, cr4, efer, 0).unwrap();
    assert_eq!(&allocator.get().requests[..2], &[1, 1]);
    assert_eq!(transition.page_map.address(), 0x10_0000);
    assert_eq!(transition.stack.physical_address, 0x10_1000);
    assert_eq!(allocator.get().requests[5], 2);
    assert_eq!(transition.kernel.code.physical_address, 0x10_5000);
}
