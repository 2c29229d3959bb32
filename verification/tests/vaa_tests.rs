use kernel_mem::mem::VirtAddr;
use kernel_mem::vaa::{
    init_vaa_from_limine, is_power_of_two, memory_map_end, skip_to_alignment, HandoutError,
    MemoryMapEntry, StartError, VirtualAddressAllocator, MIN_MEM_SPAN, PAGE_SIZE,
    UNINIT_MAX_PAGE,
};

const HHDM: usize = 0x1000_0000_0000;
const SPAN: usize = 0x800_0000_0000;

#[test]
fn constants_have_their_values() {
    assert_eq!(PAGE_SIZE, 4096);
    assert_eq!(MIN_MEM_SPAN, 8 * 1024 * 1024 * 1024 * 1024);
    assert_eq!(MIN_MEM_SPAN, SPAN as u64);
    assert_eq!(UNINIT_MAX_PAGE, 1000);
}

#[test]
fn powers_of_two_are_recognised() {
    for exponent in 0..usize::BITS {
        assert!(is_power_of_two(1usize << exponent));
    }
    for other in [0usize, 3, 5, 6, 7, 9, 12, 0x1001, 0x3000, 0xffff, usize::MAX, usize::MAX - 1] {
        assert!(!is_power_of_two(other));
    }
}

#[test]
fn no_page_is_skipped_for_an_alignment_of_a_page_or_less() {
    for alignment in [1usize, 2, 8, 0x800, 0x1000] {
        for page in [0usize, 1, 2, 3, 7, 1000, usize::MAX] {
            assert_eq!(skip_to_alignment(page, alignment), 0);
        }
    }
}

#[test]
fn pages_are_skipped_up_to_the_alignment() {
    // 0x4000 is four pages.
    assert_eq!(skip_to_alignment(0, 0x4000), 0);
    assert_eq!(skip_to_alignment(1, 0x4000), 3);
    assert_eq!(skip_to_alignment(2, 0x4000), 2);
    assert_eq!(skip_to_alignment(3, 0x4000), 1);
    assert_eq!(skip_to_alignment(4, 0x4000), 0);
    assert_eq!(skip_to_alignment(5, 0x4000), 3);
    // 0x2000 is two pages.
    assert_eq!(skip_to_alignment(7, 0x2000), 1);
    assert_eq!(skip_to_alignment(8, 0x2000), 0);
    // 2 MiB is 512 pages.
    assert_eq!(skip_to_alignment(1, 0x20_0000), 511);
    assert_eq!(skip_to_alignment(512, 0x20_0000), 0);
    assert_eq!(skip_to_alignment(513, 0x20_0000), 511);
    assert_eq!(skip_to_alignment(1000, 0x20_0000), 24);
}

#[test]
fn start_has_to_be_page_aligned() {
    assert!(VirtualAddressAllocator::accepts_start(VirtAddr(0x8000_0000), HHDM));
    assert!(!VirtualAddressAllocator::accepts_start(VirtAddr(0x8000_0001), HHDM));
    assert!(!VirtualAddressAllocator::accepts_start(VirtAddr(0x8000_0800), HHDM));
    assert!(!VirtualAddressAllocator::accepts_start(VirtAddr(0x8000_0fff), HHDM));
    assert!(VirtualAddressAllocator::accepts_start(VirtAddr(0), HHDM));
}

#[test]
fn start_needs_the_minimum_span_below_the_hhdm_offset() {
    let boundary = VirtAddr(HHDM - SPAN);
    assert!(VirtualAddressAllocator::accepts_start(boundary, HHDM));
    assert!(VirtualAddressAllocator::accepts_start(VirtAddr(HHDM - SPAN - PAGE_SIZE), HHDM));
    assert!(!VirtualAddressAllocator::accepts_start(VirtAddr(HHDM - SPAN + PAGE_SIZE), HHDM));
    assert!(!VirtualAddressAllocator::accepts_start(boundary, HHDM - 1));
    assert!(VirtualAddressAllocator::accepts_start(boundary, HHDM + 1));
    // A start at or above the offset has no span at all.
    assert!(!VirtualAddressAllocator::accepts_start(VirtAddr(HHDM), HHDM));
    assert!(!VirtualAddressAllocator::accepts_start(VirtAddr(HHDM + PAGE_SIZE), HHDM));
    // Without an offset nothing is accepted.
    assert!(!VirtualAddressAllocator::accepts_start(VirtAddr(0), 0));
    assert!(!VirtualAddressAllocator::accepts_start(VirtAddr(0), SPAN - 1));
    assert!(VirtualAddressAllocator::accepts_start(VirtAddr(0), SPAN));
}

#[test]
fn allocator_at_the_boundary_hands_out_from_its_start() {
    let start = VirtAddr(HHDM - SPAN);
    let mut vaa = VirtualAddressAllocator::new(start, HHDM);
    assert!(vaa.can_handout(1, PAGE_SIZE));
    assert_eq!(vaa.handout(1, PAGE_SIZE), start);
    // The page after the range went to end it.
    assert_eq!(vaa.handout(1, PAGE_SIZE), VirtAddr(start.0 + 2 * PAGE_SIZE));
}

#[test]
fn uninit_allocator_hands_out_the_first_pages() {
    let mut vaa = VirtualAddressAllocator::uninit();
    assert_eq!(vaa.handout(1, PAGE_SIZE), VirtAddr(0));
    assert_eq!(vaa.handout(2, PAGE_SIZE), VirtAddr(0x2000));
    assert_eq!(vaa.handout(1, PAGE_SIZE), VirtAddr(0x5000));
}

#[test]
fn uninit_allocator_is_exhausted_at_its_last_page() {
    let mut vaa = VirtualAddressAllocator::uninit();
    // The hander has the pages 0 to 1000, and the last one it hands out
    // ends the range: a thousand pages are the most that one call gets.
    assert!(vaa.can_handout(UNINIT_MAX_PAGE, PAGE_SIZE));
    assert!(!vaa.can_handout(UNINIT_MAX_PAGE + 1, PAGE_SIZE));
    assert!(!vaa.can_handout(UNINIT_MAX_PAGE + 2, PAGE_SIZE));
    assert_eq!(vaa.handout(UNINIT_MAX_PAGE - 1, PAGE_SIZE), VirtAddr(0));
    assert!(!vaa.can_handout(1, PAGE_SIZE));
    assert!(vaa.can_handout(0, PAGE_SIZE));
    assert_eq!(vaa.handout(0, PAGE_SIZE), VirtAddr(UNINIT_MAX_PAGE * PAGE_SIZE));
    // Now the hander is past its last page: nothing is served any more.
    assert!(!vaa.can_handout(0, PAGE_SIZE));
    assert!(!vaa.can_handout(1, PAGE_SIZE));
    assert_eq!(vaa.try_handout(0, PAGE_SIZE), Err(HandoutError::OutOfPages));
}

#[test]
fn uninit_allocator_never_goes_above_its_last_page() {
    let mut vaa = VirtualAddressAllocator::uninit();
    let requests: [(usize, usize); 8] = [
        (400, 0x1000),
        (0, 0x1000),
        (300, 0x4000),
        (1, 0x20_0000),
        (290, 0x1000),
        (3, 1),
        (0, 1),
        (0, 1),
    ];
    let mut served = 0usize;
    for (count, alignment) in requests {
        if let Ok(addr) = vaa.try_handout(count, alignment) {
            assert!(addr.0 + count * PAGE_SIZE <= UNINIT_MAX_PAGE * PAGE_SIZE);
            served += 1;
        }
    }
    // The request at 0x20_0000 finds no such page, and the last one no page at all.
    assert_eq!(served, 6);
    assert!(!vaa.can_handout(0, 1));
}

#[test]
fn alignment_has_to_be_a_power_of_two() {
    let vaa = VirtualAddressAllocator::uninit();
    assert!(!vaa.can_handout(1, 0));
    assert!(!vaa.can_handout(1, 3));
    assert!(!vaa.can_handout(1, 0x3000));
    assert!(!vaa.can_handout(1, 0x1001));
    assert!(vaa.can_handout(1, 1));
    assert!(vaa.can_handout(1, 0x10));
    assert!(vaa.can_handout(1, 0x1000));
    assert!(vaa.can_handout(1, 0x2000));
}

#[test]
fn handout_starts_at_the_alignment() {
    let mut vaa = VirtualAddressAllocator::uninit();
    assert_eq!(vaa.handout(1, PAGE_SIZE), VirtAddr(0));
    // The next free page is page 2; the next address at 0x4000 is page 4.
    assert_eq!(vaa.handout(2, 0x4000), VirtAddr(0x4000));
    // The next free page is page 7; the next address at 0x8000 is page 8.
    assert_eq!(vaa.handout(1, 0x8000), VirtAddr(0x8000));
    // The next free page is page 10, which lies at any alignment up to a page.
    assert_eq!(vaa.handout(3, 0x10), VirtAddr(0xa000));
    assert_eq!(vaa.handout(1, 1), VirtAddr(0xe000));
    // The next free page is page 16, which lies at 0x10000.
    assert_eq!(vaa.handout(1, 0x1_0000), VirtAddr(0x1_0000));
    assert_eq!(vaa.handout(1, PAGE_SIZE), VirtAddr(0x1_2000));
}

#[test]
fn handed_out_ranges_are_aligned_and_do_not_overlap() {
    let mut vaa = VirtualAddressAllocator::new(VirtAddr(0x8000_3000), HHDM);
    let requests: [(usize, usize); 12] = [
        (10, 0x1000),
        (1, 0x1000),
        (3, 0x4000),
        (1, 0x20_0000),
        (7, 0x2000),
        (0, 0x1000),
        (2, 0x1),
        (512, 0x20_0000),
        (1, 0x8000),
        (1, 0x1000),
        (5, 0x4000_0000),
        (1, 0x1000),
    ];
    let mut ranges: Vec<(usize, usize)> = Vec::new();
    for (count, alignment) in requests {
        assert!(vaa.can_handout(count, alignment));
        let start = vaa.handout(count, alignment).0;
        assert_eq!(start % alignment, 0);
        assert_eq!(start % PAGE_SIZE, 0);
        assert!(start >= 0x8000_3000);
        let end = start + count * PAGE_SIZE;
        for (earlier_start, earlier_end) in &ranges {
            assert!(*earlier_end < start);
            assert!(*earlier_start < start);
        }
        ranges.push((start, end));
    }
    assert_eq!(ranges[0], (0x8000_3000, 0x8000_d000));
    assert_eq!(ranges[1], (0x8000_e000, 0x8000_f000));
    assert_eq!(ranges[2], (0x8001_0000, 0x8001_3000));
    assert_eq!(ranges[3], (0x8020_0000, 0x8020_1000));
    assert_eq!(ranges[4], (0x8020_2000, 0x8020_9000));
    assert_eq!(ranges[5], (0x8020_a000, 0x8020_a000));
    assert_eq!(ranges[6], (0x8020_b000, 0x8020_d000));
    assert_eq!(ranges[7], (0x8040_0000, 0x8060_0000));
    assert_eq!(ranges[8], (0x8060_8000, 0x8060_9000));
    assert_eq!(ranges[9], (0x8060_a000, 0x8060_b000));
    assert_eq!(ranges[10], (0xc000_0000, 0xc000_5000));
    assert_eq!(ranges[11], (0xc000_6000, 0xc000_7000));
}

#[test]
fn a_smaller_request_after_a_larger_one_does_not_overlap_it() {
    let mut vaa = VirtualAddressAllocator::uninit();
    let large = vaa.handout(10, PAGE_SIZE);
    let small = vaa.handout(1, PAGE_SIZE);
    assert_eq!(large, VirtAddr(0));
    assert_eq!(small, VirtAddr(11 * PAGE_SIZE));
}

#[test]
fn handout_of_no_pages_still_draws_a_page() {
    let mut vaa = VirtualAddressAllocator::uninit();
    assert_eq!(vaa.handout(0, PAGE_SIZE), VirtAddr(0));
    assert_eq!(vaa.handout(0, PAGE_SIZE), VirtAddr(0x1000));
    assert_eq!(vaa.handout(1, PAGE_SIZE), VirtAddr(0x2000));
    assert_eq!(vaa.handout(0, 0x4000), VirtAddr(0x4000));
    assert_eq!(vaa.handout(1, PAGE_SIZE), VirtAddr(0x5000));
}

#[test]
fn addresses_rise_strictly_whatever_is_asked() {
    let mut vaa = VirtualAddressAllocator::uninit();
    let requests: [(usize, usize); 8] = [
        (0, 0x1000),
        (1, 0x1000),
        (0, 0x1000),
        (0, 0x2000),
        (5, 0x1),
        (0, 0x1),
        (1, 0x8000),
        (0, 0x8000),
    ];
    let mut last: Option<VirtAddr> = None;
    for (count, alignment) in requests {
        let addr = vaa.handout(count, alignment);
        if let Some(earlier) = last {
            assert!(earlier < addr);
        }
        last = Some(addr);
    }
    assert_eq!(last, Some(VirtAddr(0x1_8000)));
}

#[test]
fn try_handout_says_why_it_refuses() {
    let mut vaa = VirtualAddressAllocator::uninit();
    assert_eq!(vaa.try_handout(1, 0), Err(HandoutError::BadAlignment));
    assert_eq!(vaa.try_handout(1, 0x3000), Err(HandoutError::BadAlignment));
    assert_eq!(vaa.try_handout(5000, 0x3000), Err(HandoutError::BadAlignment));
    assert_eq!(vaa.try_handout(1001, 0x1000), Err(HandoutError::OutOfPages));
    assert_eq!(vaa.try_handout(1, 0x80_0000), Ok(VirtAddr(0)));
    // No page at this alignment is left below the last page.
    assert_eq!(vaa.try_handout(1, 0x80_0000), Err(HandoutError::OutOfPages));
    // The refusals took nothing.
    assert_eq!(vaa.try_handout(2, 0x1000), Ok(VirtAddr(0x2000)));
    assert_eq!(vaa.try_handout(995, 0x1000), Ok(VirtAddr(0x5000)));
    assert_eq!(vaa.try_handout(0, 0x1000), Err(HandoutError::OutOfPages));
}

#[test]
fn try_new_says_what_is_wrong_with_the_start() {
    assert!(VirtualAddressAllocator::try_new(VirtAddr(HHDM - SPAN), HHDM).is_ok());
    assert_eq!(
        VirtualAddressAllocator::try_new(VirtAddr(HHDM - SPAN + PAGE_SIZE), HHDM).err(),
        Some(StartError::SpanTooSmall)
    );
    assert_eq!(
        VirtualAddressAllocator::try_new(VirtAddr(HHDM), HHDM).err(),
        Some(StartError::SpanTooSmall)
    );
    assert_eq!(
        VirtualAddressAllocator::try_new(VirtAddr(HHDM + PAGE_SIZE), HHDM).err(),
        Some(StartError::SpanTooSmall)
    );
    assert_eq!(
        VirtualAddressAllocator::try_new(VirtAddr(0x8000_0004), HHDM).err(),
        Some(StartError::Misaligned)
    );
    // A start that is wrong on both counts is called misaligned.
    assert_eq!(
        VirtualAddressAllocator::try_new(VirtAddr(HHDM + 1), HHDM).err(),
        Some(StartError::Misaligned)
    );
    let mut vaa = VirtualAddressAllocator::try_new(VirtAddr(0x7000), HHDM).ok().unwrap();
    assert_eq!(vaa.handout(1, PAGE_SIZE), VirtAddr(0x7000));
}

#[test]
fn ranges_have_to_lie_within_the_address_space() {
    let hhdm = 0xffff_8000_0000_0000usize;
    let start = VirtAddr(hhdm - SPAN);
    let vaa = VirtualAddressAllocator::new(start, hhdm);
    let pages_up_to_the_top = (usize::MAX - start.0) / PAGE_SIZE + 1;
    assert!(vaa.can_handout(pages_up_to_the_top, PAGE_SIZE));
    assert!(!vaa.can_handout(pages_up_to_the_top + 1, PAGE_SIZE));
    assert!(!vaa.can_handout(usize::MAX, PAGE_SIZE));
    // No address at this alignment lies at or above the start.
    assert!(!vaa.can_handout(1, 1usize << 63));
    let mut vaa = vaa;
    assert_eq!(vaa.handout(pages_up_to_the_top, PAGE_SIZE), start);
    assert!(!vaa.can_handout(1, PAGE_SIZE));
}

#[test]
fn two_handouts_after_boot_do_not_overlap() {
    let mem_map = [
        MemoryMapEntry { base: 0, length: 0x9_f000 },
        MemoryMapEntry { base: 0x10_0000, length: 0x7fe0_0000 },
        MemoryMapEntry { base: 0x7ff0_0000, length: 0x10_0000 },
    ];
    assert_eq!(memory_map_end(&mem_map), Some(VirtAddr(0x8000_0000)));
    assert!(VirtualAddressAllocator::accepts_start(VirtAddr(0x8000_0000), HHDM));
    let mut vaa = init_vaa_from_limine(&mem_map, HHDM);
    let first = vaa.handout(4, 0x1000);
    let second = vaa.handout(4, 0x1000);
    assert_eq!(first.0 & 0xfff, 0);
    assert_eq!(second.0 & 0xfff, 0);
    assert_ne!(first, second);
    assert!(second.0 - first.0 >= 4 * PAGE_SIZE);
    assert_eq!(first, VirtAddr(0x8000_0000));
    assert_eq!(second, VirtAddr(0x8000_5000));
}

#[test]
fn start_two_gib_below_the_hhdm_offset_is_refused() {
    // The span from there to the offset is 2 GiB, far below the minimum.
    let start = VirtAddr(HHDM - 0x8000_0000);
    assert_eq!(start.0 % PAGE_SIZE, 0);
    assert!(!VirtualAddressAllocator::accepts_start(start, HHDM));
}

#[test]
fn memory_map_end_is_the_end_of_the_last_entry() {
    let mem_map = [
        MemoryMapEntry { base: 0x5000_0000, length: 0x1000_0000 },
        MemoryMapEntry { base: 0x1000, length: 0x2000 },
    ];
    assert_eq!(memory_map_end(&mem_map), Some(VirtAddr(0x3000)));
    assert_eq!(memory_map_end(&mem_map[..1]), Some(VirtAddr(0x6000_0000)));
    let empty_region = [MemoryMapEntry { base: 0x7000, length: 0 }];
    assert_eq!(memory_map_end(&empty_region), Some(VirtAddr(0x7000)));
}

#[test]
fn memory_map_end_of_an_empty_map_is_none() {
    assert_eq!(memory_map_end(&[]), None);
}

#[test]
fn memory_map_end_beyond_the_largest_address_is_none() {
    let mem_map = [MemoryMapEntry { base: u64::MAX, length: 1 }];
    assert_eq!(memory_map_end(&mem_map), None);
    let mem_map = [MemoryMapEntry { base: 1 << 63, length: 1 << 63 }];
    assert_eq!(memory_map_end(&mem_map), None);
    let mem_map = [MemoryMapEntry { base: u64::MAX - 1, length: 1 }];
    assert_eq!(memory_map_end(&mem_map), Some(VirtAddr(usize::MAX)));
}

#[test]
fn allocator_is_seeded_from_the_last_entry() {
    let mem_map = [
        MemoryMapEntry { base: 0x1_0000_0000, length: 0x1000 },
        MemoryMapEntry { base: 0x4000, length: 0xc000 },
    ];
    let mut vaa = init_vaa_from_limine(&mem_map, HHDM);
    assert_eq!(vaa.handout(1, PAGE_SIZE), VirtAddr(0x1_0000));
}

#[test]
fn page_alignment_and_span_are_told_apart() {
    assert!(VirtualAddressAllocator::is_page_aligned(VirtAddr(0)));
    assert!(VirtualAddressAllocator::is_page_aligned(VirtAddr(0x7000)));
    assert!(!VirtualAddressAllocator::is_page_aligned(VirtAddr(0x7008)));
    assert!(!VirtualAddressAllocator::is_page_aligned(VirtAddr(usize::MAX)));
    // A misaligned start can have the span, and an aligned one can lack it.
    assert!(VirtualAddressAllocator::has_min_span(VirtAddr(0x7008), HHDM));
    assert!(!VirtualAddressAllocator::has_min_span(VirtAddr(HHDM - SPAN + 1), HHDM));
    assert!(VirtualAddressAllocator::has_min_span(VirtAddr(HHDM - SPAN), HHDM));
    assert!(!VirtualAddressAllocator::has_min_span(VirtAddr(HHDM + 1), HHDM));
}
