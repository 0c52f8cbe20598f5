use blog_kernel::allocator::fixed_size_block::{block_size, list_index, FixedSizeBlockAllocator};
use blog_kernel::allocator::linked_list::{LinkedListAllocator, ListNode};
use blog_kernel::allocator::{align_up, heap_page, heap_page_count, Dummy, HEAP_SIZE, HEAP_START};
use blog_kernel::interrupts::{is_pic_vector, InterruptIndex, QemuExitCode};
use blog_kernel::memory::{valid_memory_map, BootInfoFrameAllocator, EmptyFrameAllocator, MemoryRegion, MemoryRegionType, PageWalk, PhysFrame, WalkEntry, WalkStatus};
use blog_kernel::vga_buffer::{Color, ColorCode, Writer};
use blog_kernel::virtio::pci::{config_address, is_virtio_vendor};

#[test]
fn align_up_values() {
    assert_eq!(align_up(0, 8), 0);
    assert_eq!(align_up(1, 8), 8);
    assert_eq!(align_up(8, 8), 8);
    assert_eq!(align_up(4097, 4096), 8192);
}

#[test]
fn heap_pages_cover_the_heap() {
    assert_eq!(heap_page_count(), 25);
    assert_eq!(heap_page(0), 0x4444_4444_0000);
    assert_eq!(heap_page(24), 0x4444_4444_0000 + 24 * 4096);
}

#[test]
fn size_classes() {
    assert_eq!(block_size(0), 8);
    assert_eq!(block_size(8), 2048);
    assert_eq!(list_index(1, 1), Some(0));
    assert_eq!(list_index(8, 8), Some(0));
    assert_eq!(list_index(9, 1), Some(1));
    assert_eq!(list_index(3, 64), Some(3));
    assert_eq!(list_index(2048, 8), Some(8));
    assert_eq!(list_index(2049, 8), None);
}

#[test]
fn linked_list_first_fit_splits() {
    let mut a = LinkedListAllocator::new();
    a.init(0x1000, 0x100);
    let p = a.allocate(24, 8);
    assert_eq!(p, 0x1000);
    let q = a.allocate(16, 64);
    assert_eq!(q, 0x1040);
    assert_eq!(a.allocate(0x200, 8), 0);
    a.deallocate(p, 24, 8);
    assert_eq!(a.allocate(24, 8), 0x1000);
    a.deallocate(0x1000, 24, 8);
    assert_eq!(a.allocate(8, 8), 0x1080);
}

#[test]
fn alloc_from_region_rules() {
    let r = ListNode::new(0x1000, 64);
    assert_eq!(r.end_addr(), 0x1040);
    assert_eq!(LinkedListAllocator::alloc_from_region(&r, 64, 8), Ok(0x1000));
    assert_eq!(LinkedListAllocator::alloc_from_region(&r, 56, 8), Err(()));
    assert_eq!(LinkedListAllocator::alloc_from_region(&r, 48, 8), Ok(0x1000));
    assert_eq!(LinkedListAllocator::alloc_from_region(&r, 65, 8), Err(()));
    assert_eq!(LinkedListAllocator::size_align(1, 1), (16, 8));
    assert_eq!(LinkedListAllocator::size_align(17, 4), (24, 8));
    assert_eq!(LinkedListAllocator::size_align(5, 32), (32, 32));
}

#[test]
fn u64_alloc_free_never_exhausts_heap() {
    let mut a = FixedSizeBlockAllocator::new();
    a.init(HEAP_START, HEAP_SIZE);
    for _ in 0..HEAP_SIZE {
        let p = a.allocate(8, 8);
        assert_ne!(p, 0);
        a.deallocate(p, 8, 8);
    }
}

#[test]
fn size_class_blocks_are_reused() {
    let mut a = FixedSizeBlockAllocator::new();
    a.init(HEAP_START, HEAP_SIZE);
    let sizes: Vec<u64> = (0..9).map(|i| 8u64 << i).collect();
    let first: Vec<u64> = sizes.iter().map(|&s| a.allocate(s, s)).collect();
    assert!(first.iter().all(|&p| p != 0));
    for (p, s) in first.iter().zip(sizes.iter()) {
        assert_eq!(p % s, 0);
        a.deallocate(*p, *s, *s);
    }
    let second: Vec<u64> = sizes.iter().map(|&s| a.allocate(s, s)).collect();
    assert_eq!(first, second);
}

#[test]
fn large_request_goes_to_fallback() {
    let mut a = FixedSizeBlockAllocator::new();
    a.init(HEAP_START, HEAP_SIZE);
    let p = a.allocate(4096, 8);
    assert_eq!(p, HEAP_START);
    a.deallocate(p, 4096, 8);
    assert_eq!(a.allocate(4096, 8), HEAP_START);
    assert_eq!(a.allocate(HEAP_SIZE * 2, 8), 0);
}

#[test]
fn empty_heap_allocation_fails() {
    let mut a = FixedSizeBlockAllocator::new();
    assert_eq!(a.allocate(8, 8), 0);
    assert_eq!(Dummy.allocate(8, 8), 0);
}

fn map_of(regions: &[MemoryRegion]) -> ([MemoryRegion; 64], usize) {
    let mut map = [usable(0, 0); 64];
    map[..regions.len()].copy_from_slice(regions);
    (map, regions.len())
}

fn usable(start: u64, end: u64) -> MemoryRegion {
    MemoryRegion { start_addr: start, end_addr: end, region_type: MemoryRegionType::Usable }
}

#[test]
fn frames_are_distinct_and_usable() {
    let start = 0x100000u64;
    let end = start + 16 * 1024 * 1024;
    let (map, n) = map_of(&[usable(start, end)]);
    let mut fa = BootInfoFrameAllocator::init(map, n);
    let mut seen = std::collections::HashSet::new();
    for k in 0..4096u64 {
        let f = fa.allocate_frame().expect("frame");
        assert_eq!(f, PhysFrame { start_address: start + 4096 * k });
        assert!(f.start_address >= start && f.start_address + 4096 <= end);
        assert!(seen.insert(f.start_address));
    }
    assert_eq!(fa.allocate_frame(), None);
}

#[test]
fn reserved_regions_are_skipped() {
    let (map, n) = map_of(&[
        usable(0x0, 0x2000),
        MemoryRegion { start_addr: 0x2000, end_addr: 0x10000, region_type: MemoryRegionType::Reserved },
        usable(0x10000, 0x11000),
    ]);
    let mut fa = BootInfoFrameAllocator::init(map, n);
    assert_eq!(fa.allocate_frame(), Some(PhysFrame { start_address: 0x0 }));
    assert_eq!(fa.allocate_frame(), Some(PhysFrame { start_address: 0x1000 }));
    assert_eq!(fa.allocate_frame(), Some(PhysFrame { start_address: 0x10000 }));
    assert_eq!(fa.allocate_frame(), None);
    assert_eq!(EmptyFrameAllocator.allocate_frame(), None);
}

#[test]
fn interrupt_vectors() {
    assert_eq!(InterruptIndex::Timer.as_u8(), 32);
    assert_eq!(InterruptIndex::Keyboard.as_u8(), 33);
    assert_eq!(InterruptIndex::Keyboard.as_usize(), 33);
    assert!(is_pic_vector(32));
    assert!(is_pic_vector(47));
    assert!(!is_pic_vector(48));
    assert!(!is_pic_vector(14));
    assert_eq!(QemuExitCode::Success.as_u32(), 0x10);
    assert_eq!(QemuExitCode::Failed.as_u32(), 0x11);
}

#[test]
fn page_walk_translates_through_four_levels() {
    let addr: u64 = (1 << 39) * 3 + (1 << 30) * 5 + (1 << 21) * 7 + (1 << 12) * 9 + 0x123;
    let mut walk = PageWalk::new(addr, 0x1000);
    assert_eq!(walk.table_index(), 3);
    assert_eq!(walk.step(WalkEntry::Frame(0x2000)), WalkStatus::Continue(0x2000));
    assert_eq!(walk.table_frame(), 0x2000);
    assert_eq!(walk.table_index(), 5);
    assert_eq!(walk.step(WalkEntry::Frame(0x3000)), WalkStatus::Continue(0x3000));
    assert_eq!(walk.table_index(), 7);
    assert_eq!(walk.step(WalkEntry::Frame(0x4000)), WalkStatus::Continue(0x4000));
    assert_eq!(walk.table_index(), 9);
    assert_eq!(walk.step(WalkEntry::Frame(0x9000)), WalkStatus::Mapped(0x9123));
}

#[test]
fn page_walk_stops_at_missing_or_huge_entries() {
    let mut walk = PageWalk::new(0xdead_b000, 0x1000);
    assert_eq!(walk.step(WalkEntry::NotPresent), WalkStatus::Unmapped);
    let mut walk = PageWalk::new(0xdead_b000, 0x1000);
    assert_eq!(walk.step(WalkEntry::Frame(0x5000)), WalkStatus::Continue(0x5000));
    assert_eq!(walk.step(WalkEntry::HugeFrame), WalkStatus::HugePage);
}

#[test]
fn pci_configuration_address() {
    assert_eq!(config_address(0, 0, 0, 0), 0x8000_0000);
    assert_eq!(config_address(1, 2, 3, 0x13), 0x8001_1310);
    assert!(is_virtio_vendor(0x1AF4));
    assert!(!is_virtio_vendor(0x8086));
}

#[test]
fn vga_writer_writes_and_scrolls() {
    let code = ColorCode::new(Color::Yellow, Color::Black);
    assert_eq!(code.0, 0x0e);
    assert_eq!(ColorCode::new(Color::White, Color::Blue).0, 0x1f);
    let mut w = Writer::new(code);
    w.write_string("hi\u{e9}");
    assert_eq!(w.cell(24, 0).ascii_character, b'h');
    assert_eq!(w.cell(24, 1).ascii_character, b'i');
    assert_eq!(w.cell(24, 2).ascii_character, 0xfe);
    assert_eq!(w.cell(24, 3).ascii_character, 0xfe);
    assert_eq!(w.cell(24, 4).ascii_character, b' ');
    w.write_byte(b'\n');
    assert_eq!(w.cell(23, 0).ascii_character, b'h');
    assert_eq!(w.cell(24, 0).ascii_character, b' ');
    for _ in 0..81 {
        w.write_byte(b'x');
    }
    assert_eq!(w.cell(23, 79).ascii_character, b'x');
    assert_eq!(w.cell(24, 0).ascii_character, b'x');
    assert_eq!(w.cell(24, 1).ascii_character, b' ');
    assert_eq!(w.cell(22, 0).ascii_character, b'h');
    w.clear_row(24);
    assert_eq!(w.cell(24, 0).ascii_character, b' ');
}

#[test]
fn memory_map_validity() {
    let (map, n) = map_of(&[usable(0x0, 0x2000), usable(0x2000, 0x3000)]);
    assert!(valid_memory_map(&map, n));
    let (map, n) = map_of(&[usable(0x2000, 0x3000), usable(0x0, 0x2000)]);
    assert!(!valid_memory_map(&map, n));
    let (map, n) = map_of(&[usable(0x10, 0x2000)]);
    assert!(!valid_memory_map(&map, n));
    assert!(!valid_memory_map(&map, 65));
}
