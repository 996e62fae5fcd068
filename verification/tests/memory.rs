use arrayvec::ArrayVec;
use kproc::boot::{count_usable, frame_number, MemoryRegion};
use kproc::frame::FrameAllocator;
use kproc::paging::PageTableContext;
use kproc::vm::{ElfImage, ProcessVm, Segment, PAGE_SIZE, STACK_BOTTOM_PAGE, STACK_TOP_PAGE};

fn image() -> ElfImage {
    ElfImage {
        entry: 0x40_0000,
        segments: vec![
            Segment { start: 0x40_0000, size: 0x1800, writable: false },
            Segment { start: 0x40_3000, size: 1, writable: true },
        ],
    }
}

fn frame_of(vm: &ProcessVm, page: u64) -> Option<u64> {
    vm.page_table.translate(page).map(|e| e.frame)
}

#[test]
fn frames_are_handed_out_lowest_first_and_reused_last_in_first_out() {
    let mut alloc = FrameAllocator::new(3);
    assert_eq!(alloc.allocate(), Some(0));
    assert_eq!(alloc.allocate(), Some(1));
    assert!(alloc.deallocate(0));
    assert!(!alloc.deallocate(0));
    assert!(!alloc.deallocate(2));
    assert!(alloc.deallocate(1));
    assert_eq!(alloc.allocate(), Some(1));
    assert_eq!(alloc.allocate(), Some(0));
    assert_eq!(alloc.allocate(), Some(2));
    assert_eq!(alloc.allocate(), None);
    assert!(alloc.has_available(0));
    assert!(!alloc.has_available(1));
}

#[test]
fn availability_counts_fresh_and_recycled_frames() {
    let mut alloc = FrameAllocator::new(4);
    assert!(alloc.has_available(4));
    assert!(!alloc.has_available(5));
    alloc.allocate();
    alloc.allocate();
    assert!(alloc.has_available(2));
    assert!(!alloc.has_available(3));
    alloc.deallocate(0);
    assert!(alloc.has_available(3));
    assert!(alloc.is_allocated(1));
    assert!(!alloc.is_allocated(0));
    assert!(!alloc.is_allocated(3));
}

#[test]
fn measure_counts_pages_and_finds_the_end_of_the_code() {
    assert_eq!(image().measure(16), Some((0x404, 3)));
    let empty = ElfImage { entry: 0, segments: vec![] };
    assert_eq!(empty.measure(16), Some((0, 0)));
}

#[test]
fn measure_refuses_segments_out_of_order_or_out_of_room() {
    let overlapping = ElfImage {
        entry: 0,
        segments: vec![
            Segment { start: 0x1000, size: 0x1001, writable: false },
            Segment { start: 0x2000, size: 0x10, writable: false },
        ],
    };
    assert_eq!(overlapping.measure(0), None);
    let unsorted = ElfImage {
        entry: 0,
        segments: vec![
            Segment { start: 0x5000, size: 0x10, writable: false },
            Segment { start: 0x1000, size: 0x10, writable: false },
        ],
    };
    assert_eq!(unsorted.measure(0), None);
    let high = ElfImage {
        entry: 0,
        segments: vec![Segment { start: (STACK_BOTTOM_PAGE - 1) * PAGE_SIZE, size: 0x1000, writable: false }],
    };
    assert_eq!(high.measure(0), Some((STACK_BOTTOM_PAGE, 1)));
    assert_eq!(high.measure(1), None);
    let wrapping = ElfImage {
        entry: 0,
        segments: vec![Segment { start: u64::MAX, size: 2, writable: false }],
    };
    assert_eq!(wrapping.measure(0), None);
    assert_eq!(image().measure(STACK_BOTTOM_PAGE + 1), None);
}

#[test]
fn load_maps_every_page_of_every_segment() {
    let mut alloc = FrameAllocator::new(8);
    let vm = ProcessVm::load(&image(), 16, &mut alloc).expect("loaded");
    assert_eq!(vm.heap_base, 0x404);
    assert_eq!(vm.heap_end, 0x404);
    assert_eq!(vm.heap_max, 16);
    assert_eq!(vm.page_table.table.len(), 3);
    let e0 = vm.page_table.translate(0x400).expect("first page");
    let e1 = vm.page_table.translate(0x401).expect("second page");
    let e3 = vm.page_table.translate(0x403).expect("data page");
    assert!(!e0.writable && !e1.writable && e3.writable);
    assert_eq!((e0.frame, e1.frame, e3.frame), (0, 1, 2));
    assert_eq!(vm.page_table.translate(0x402), None);
    assert_eq!(vm.page_table.translate(0x3ff), None);
    assert!(alloc.has_available(5) && !alloc.has_available(6));
}

#[test]
fn load_needs_a_frame_for_each_page() {
    let mut alloc = FrameAllocator::new(2);
    assert!(ProcessVm::load(&image(), 16, &mut alloc).is_none());
    assert!(alloc.has_available(2));
    assert!(!alloc.is_allocated(0));
}

#[test]
fn brk_reports_grows_and_shrinks() {
    let mut alloc = FrameAllocator::new(16);
    let mut vm = ProcessVm::load(&image(), 4, &mut alloc).expect("loaded");
    let h0 = vm.brk(None, &mut alloc);
    assert_eq!(h0, 0x404 * PAGE_SIZE);
    assert_eq!(vm.brk(None, &mut alloc), h0);
    assert_eq!(vm.brk(Some(h0 + 4096), &mut alloc), h0 + 4096);
    assert!(vm.page_table.translate(0x404).expect("heap page").writable);
    assert_eq!(vm.brk(Some(h0 + 4097), &mut alloc), h0 + 2 * 4096);
    assert_eq!(vm.page_table.table.len(), 5);
    assert_eq!(vm.brk(Some(h0), &mut alloc), h0);
    assert_eq!(vm.page_table.translate(0x404), None);
    assert_eq!(vm.page_table.translate(0x405), None);
    assert_eq!(vm.page_table.table.len(), 3);
    assert!(alloc.has_available(13));
}

#[test]
fn brk_that_cannot_be_met_changes_nothing() {
    let mut alloc = FrameAllocator::new(5);
    let mut vm = ProcessVm::load(&image(), 4, &mut alloc).expect("loaded");
    let h0 = vm.brk(None, &mut alloc);
    assert_eq!(vm.brk(Some(h0 + 5 * 4096), &mut alloc), h0);
    assert_eq!(vm.brk(Some(h0 - 1), &mut alloc), h0);
    assert_eq!(vm.brk(Some(h0 + 3 * 4096), &mut alloc), h0);
    assert_eq!(vm.page_table.table.len(), 3);
    assert!(alloc.has_available(2));
    assert_eq!(vm.brk(Some(h0 + 2 * 4096), &mut alloc), h0 + 2 * 4096);
    assert_eq!(vm.brk(Some(h0 + 4 * 4096), &mut alloc), h0 + 2 * 4096);
    assert_eq!(vm.brk(Some(u64::MAX), &mut alloc), h0 + 2 * 4096);
}

#[test]
fn stack_pages_are_mapped_on_first_touch() {
    let mut alloc = FrameAllocator::new(5);
    let mut vm = ProcessVm::load(&image(), 4, &mut alloc).expect("loaded");
    let top = STACK_TOP_PAGE * PAGE_SIZE - 8;
    assert!(vm.fault_answerable(top, 6, &alloc));
    assert!(vm.handle_page_fault(top, 6, &mut alloc));
    let entry = vm.page_table.translate(STACK_TOP_PAGE - 1).expect("stack page");
    assert!(entry.writable);
    assert_eq!(entry.frame, 3);
    assert!(!vm.handle_page_fault(top, 6, &mut alloc));
    assert!(vm.handle_page_fault(STACK_BOTTOM_PAGE * PAGE_SIZE, 4, &mut alloc));
    assert!(!vm.handle_page_fault((STACK_BOTTOM_PAGE + 1) * PAGE_SIZE, 4, &mut alloc));
    assert_eq!(vm.page_table.table.len(), 5);
}

#[test]
fn faults_outside_the_stack_are_not_answered() {
    let mut alloc = FrameAllocator::new(8);
    let mut vm = ProcessVm::load(&image(), 4, &mut alloc).expect("loaded");
    assert!(!vm.handle_page_fault(STACK_TOP_PAGE * PAGE_SIZE, 6, &mut alloc));
    assert!(!vm.handle_page_fault(STACK_BOTTOM_PAGE * PAGE_SIZE - 1, 6, &mut alloc));
    assert!(!vm.handle_page_fault(0x402 * PAGE_SIZE, 6, &mut alloc));
    assert!(!vm.handle_page_fault(0x404 * PAGE_SIZE, 6, &mut alloc));
    assert!(!vm.handle_page_fault(0, 6, &mut alloc));
    assert!(!vm.handle_page_fault(STACK_BOTTOM_PAGE * PAGE_SIZE, 7, &mut alloc));
    assert_eq!(vm.page_table.table.len(), 3);
    assert!(alloc.has_available(5));
}

#[test]
fn a_freed_heap_page_faults_for_good() {
    let mut alloc = FrameAllocator::new(8);
    let mut vm = ProcessVm::load(&image(), 4, &mut alloc).expect("loaded");
    let h0 = vm.brk(None, &mut alloc);
    assert_eq!(vm.brk(Some(h0 + 4096), &mut alloc), h0 + 4096);
    assert!(vm.page_table.translate(h0 / PAGE_SIZE).is_some());
    assert_eq!(vm.brk(Some(h0), &mut alloc), h0);
    assert!(vm.page_table.translate(h0 / PAGE_SIZE).is_none());
    assert!(!vm.handle_page_fault(h0 + 17, 4, &mut alloc));
}

#[test]
fn fork_copies_the_mapping_onto_frames_of_its_own() {
    let mut alloc = FrameAllocator::new(16);
    let mut parent = ProcessVm::load(&image(), 4, &mut alloc).expect("loaded");
    let h0 = parent.brk(None, &mut alloc);
    parent.brk(Some(h0 + 4096), &mut alloc);
    parent.handle_page_fault(STACK_TOP_PAGE * PAGE_SIZE - 8, 6, &mut alloc);
    let before: Vec<(u64, u64, bool)> =
        parent.page_table.table.entries.iter().map(|e| (e.key, e.value.frame, e.value.writable)).collect();
    let child = parent.fork(&mut alloc).expect("forked");
    let after: Vec<(u64, u64, bool)> =
        parent.page_table.table.entries.iter().map(|e| (e.key, e.value.frame, e.value.writable)).collect();
    assert_eq!(before, after);
    assert_eq!(child.page_table.table.len(), 5);
    assert_eq!((child.heap_base, child.heap_end, child.heap_max), (parent.heap_base, parent.heap_end, 4));
    for row in parent.page_table.table.entries.iter() {
        let twin = child.page_table.translate(row.key).expect("same page");
        assert_eq!(twin.writable, row.value.writable);
        assert!(before.iter().all(|(_, frame, _)| *frame != twin.frame));
        assert!(alloc.is_allocated(twin.frame));
    }
    assert_eq!(frame_of(&parent, 0x400), Some(0));
    assert_eq!(frame_of(&child, 0x400), Some(5));
}

#[test]
fn fork_needs_a_frame_for_each_page() {
    let mut alloc = FrameAllocator::new(5);
    let parent = ProcessVm::load(&image(), 4, &mut alloc).expect("loaded");
    assert!(parent.fork(&mut alloc).is_none());
    assert!(alloc.has_available(2) && !alloc.has_available(3));
}

#[test]
fn release_gives_every_frame_back() {
    let mut alloc = FrameAllocator::new(8);
    let mut vm = ProcessVm::load(&image(), 4, &mut alloc).expect("loaded");
    let h0 = vm.brk(None, &mut alloc);
    vm.brk(Some(h0 + 2 * 4096), &mut alloc);
    assert!(!alloc.has_available(4));
    vm.release(&mut alloc);
    assert_eq!(vm.page_table.table.len(), 0);
    assert_eq!(vm.heap_end, vm.heap_base);
    assert!(alloc.has_available(8));
    for frame in 0..5 {
        assert!(!alloc.is_allocated(frame));
    }
}

#[test]
fn unmap_says_whether_the_page_was_mapped() {
    let mut alloc = FrameAllocator::new(4);
    let mut table = PageTableContext::new();
    assert!(table.map_fresh(9, true, &mut alloc));
    assert!(table.map_fresh(4, false, &mut alloc));
    assert!(!table.unmap(5, &mut alloc));
    assert!(table.unmap(9, &mut alloc));
    assert!(!table.unmap(9, &mut alloc));
    assert_eq!(table.translate(9), None);
    assert_eq!(table.translate(4).map(|e| (e.frame, e.writable)), Some((1, false)));
    assert!(!alloc.is_allocated(0));
}

#[test]
fn an_empty_address_space_has_no_heap() {
    let mut alloc = FrameAllocator::new(4);
    let mut vm = ProcessVm::empty();
    assert_eq!(vm.brk(None, &mut alloc), 0);
    assert_eq!(vm.brk(Some(1), &mut alloc), 0);
    assert_eq!(vm.brk(Some(0), &mut alloc), 0);
    assert!(alloc.has_available(4));
}

#[test]
fn usable_frames_are_counted_and_numbered_in_the_order_of_the_map() {
    let map: ArrayVec<MemoryRegion, 256> = [
        MemoryRegion { first_frame: 0, frames: 160, usable: false },
        MemoryRegion { first_frame: 256, frames: 3, usable: true },
        MemoryRegion { first_frame: 300, frames: 0, usable: true },
        MemoryRegion { first_frame: 1024, frames: 2, usable: true },
    ]
    .into_iter()
    .collect();
    assert_eq!(count_usable(&map), 5);
    let frames: Vec<Option<u64>> = (0..6).map(|i| frame_number(&map, i)).collect();
    assert_eq!(frames, vec![Some(256), Some(257), Some(258), Some(1024), Some(1025), None]);
    assert_eq!(frame_number(&ArrayVec::new(), 0), None);
    assert_eq!(count_usable(&ArrayVec::new()), 0);
    let huge: ArrayVec<MemoryRegion, 256> = [
        MemoryRegion { first_frame: u64::MAX - 1, frames: u64::MAX, usable: true },
        MemoryRegion { first_frame: 7, frames: 9, usable: true },
    ]
    .into_iter()
    .collect();
    assert_eq!(count_usable(&huge), u64::MAX);
    assert_eq!(frame_number(&huge, 1), Some(u64::MAX));
    assert_eq!(frame_number(&huge, 2), None);
    assert_eq!(frame_number(&huge, u64::MAX), Some(7));
}
