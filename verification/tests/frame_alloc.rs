//! Frame allocator behaviour on concrete memory maps.

use kernel::bootinfo::{Architecture, BootInfo, FramebufferInfo};
use kernel::mem::{MemoryMapEntry, MemoryType};
use kernel::phys::{self, FrameAllocator, MAX_PAGES};

fn boot_info_with(map: Vec<MemoryMapEntry>) -> BootInfo {
    BootInfo {
        magic: 0x36d76289,
        memory_map: map,
        framebuffer: FramebufferInfo {
            address: 0,
            width: 0,
            height: 0,
            pitch: 0,
            bpp: 0,
            red_shift: 0,
            green_shift: 0,
            blue_shift: 0,
            red_mask: 0,
            green_mask: 0,
            blue_mask: 0,
        },
        arch: Architecture::X86_64,
        kernel_start: 0,
        kernel_end: 0,
        initrd_start: 0,
        initrd_end: 0,
        cmdline: Vec::new(),
    }
}

fn small_map() -> BootInfo {
    boot_info_with(vec![MemoryMapEntry {
        base: 0,
        length: 0x4000,
        mem_type: MemoryType::Available,
    }])
}

#[test]
fn single_entry_map_yields_four_frames() {
    let mut fa = FrameAllocator::new();
    fa.init(&small_map());
    assert_eq!(fa.total_count(), 4);
    assert_eq!(fa.free_count(), 4);
    assert_eq!(fa.allocate(), Some(0));
    assert_eq!(fa.allocate(), Some(0x1000));
}

#[test]
fn counts_always_balance() {
    let mut fa = FrameAllocator::new();
    fa.init(&small_map());
    let (total, used, free) = phys::stats(&fa);
    assert_eq!(total, used + free);
    fa.allocate().unwrap();
    let (total, used, free) = phys::stats(&fa);
    assert_eq!(total, used + free);
    assert_eq!(used, 1);
    fa.free(0);
    let (total, used, free) = phys::stats(&fa);
    assert_eq!(total, used + free);
    assert_eq!(free, 4);
}

#[test]
fn consecutive_allocations_never_repeat() {
    let mut fa = FrameAllocator::new();
    fa.init(&small_map());
    let a = fa.allocate().unwrap();
    let b = fa.allocate().unwrap();
    let c = fa.allocate().unwrap();
    assert_ne!(a, b);
    assert_ne!(b, c);
    assert_ne!(a, c);
}

#[test]
fn freed_frame_comes_back_only_after_free() {
    let mut fa = FrameAllocator::new();
    fa.init(&small_map());
    let a = fa.allocate().unwrap();
    let b = fa.allocate().unwrap();
    assert_ne!(a, b);
    fa.free(a);
    // the cursor rewinds on free, so the freed frame is handed out again
    assert_eq!(fa.allocate(), Some(a));
}

#[test]
fn exhaustion_is_reported_and_recoverable() {
    let mut fa = FrameAllocator::new();
    fa.init(&small_map());
    for _ in 0..4 {
        assert!(fa.allocate().is_some());
    }
    assert_eq!(fa.allocate(), None);
    fa.free(0x2000);
    assert_eq!(fa.allocate(), Some(0x2000));
    assert_eq!(fa.allocate(), None);
}

#[test]
fn contiguous_run_is_all_or_nothing() {
    let mut fa = FrameAllocator::new();
    fa.init(&small_map());
    assert_eq!(fa.alloc_contiguous(3), Some(0));
    assert_eq!(fa.free_count(), 1);
    // only one frame left: the request must fail without partial allocation
    assert_eq!(fa.alloc_contiguous(2), None);
    assert_eq!(fa.free_count(), 1);
    assert_eq!(fa.alloc_contiguous(1), Some(0x3000));
}

#[test]
fn contiguous_finds_next_run_after_hole() {
    let mut fa = FrameAllocator::new();
    fa.init(&boot_info_with(vec![MemoryMapEntry {
        base: 0,
        length: 0x8000,
        mem_type: MemoryType::Available,
    }]));
    assert_eq!(fa.alloc_contiguous(3), Some(0));
    assert_eq!(fa.alloc_contiguous(2), Some(0x3000));
    assert_eq!(fa.free_count(), 3);
}

#[test]
fn contiguous_does_not_wrap_behind_cursor() {
    // free frames 0 and 2..4, with frame 1 reserved
    let mut fa = FrameAllocator::new();
    fa.init(&boot_info_with(vec![
        MemoryMapEntry { base: 0, length: 0x1000, mem_type: MemoryType::Available },
        MemoryMapEntry { base: 0x2000, length: 0x2000, mem_type: MemoryType::Available },
    ]));
    // the run is found past the hole, and the cursor moves beyond it
    assert_eq!(fa.alloc_contiguous(2), Some(0x2000));
    // frame 0 is still free, but it lies behind the cursor: the run scan
    // does not wrap, a documented limitation
    assert_eq!(fa.alloc_contiguous(1), None);
    // the single-frame path does wrap
    assert_eq!(fa.allocate(), Some(0));
}

#[test]
fn zero_page_contiguous_request_fails() {
    let mut fa = FrameAllocator::new();
    fa.init(&small_map());
    assert_eq!(fa.alloc_contiguous(0), None);
}

#[test]
fn double_free_is_a_silent_no_op() {
    let mut fa = FrameAllocator::new();
    fa.init(&small_map());
    let a = fa.allocate().unwrap();
    fa.free(a);
    assert_eq!(fa.free_count(), 4);
    fa.free(a);
    assert_eq!(fa.free_count(), 4);
}

#[test]
fn out_of_range_free_is_ignored() {
    let mut fa = FrameAllocator::new();
    fa.init(&small_map());
    fa.free(0xFFFF_FFFF_F000);
    assert_eq!(fa.free_count(), 4);
    assert_eq!(fa.total_count(), 4);
}

#[test]
fn free_contiguous_releases_a_whole_run() {
    let mut fa = FrameAllocator::new();
    fa.init(&small_map());
    assert_eq!(fa.alloc_contiguous(4), Some(0));
    assert_eq!(fa.free_count(), 0);
    fa.free_contiguous(0x1000, 2);
    assert_eq!(fa.free_count(), 2);
    assert_eq!(fa.allocate(), Some(0x1000));
}

#[test]
fn unaligned_region_is_trimmed_to_whole_frames() {
    // 0x800..0x3800 fully covers only frames 1 and 2
    let mut fa = FrameAllocator::new();
    fa.init(&boot_info_with(vec![MemoryMapEntry {
        base: 0x800,
        length: 0x3000,
        mem_type: MemoryType::Available,
    }]));
    assert_eq!(fa.free_count(), 2);
    assert_eq!(fa.total_count(), 3);
    assert_eq!(fa.allocate(), Some(0x1000));
    assert_eq!(fa.allocate(), Some(0x2000));
    assert_eq!(fa.allocate(), None);
}

#[test]
fn reserved_regions_contribute_nothing() {
    let mut fa = FrameAllocator::new();
    fa.init(&boot_info_with(vec![
        MemoryMapEntry { base: 0, length: 0x2000, mem_type: MemoryType::Reserved },
        MemoryMapEntry { base: 0x2000, length: 0x2000, mem_type: MemoryType::Available },
    ]));
    assert_eq!(fa.free_count(), 2);
    assert_eq!(fa.allocate(), Some(0x2000));
}

#[test]
fn empty_map_falls_back_to_whole_ceiling() {
    let mut fa = FrameAllocator::new();
    fa.init(&boot_info_with(Vec::new()));
    assert_eq!(fa.total_count(), MAX_PAGES);
    assert_eq!(fa.free_count(), MAX_PAGES);
    assert_eq!(fa.allocate(), Some(0));
}

#[test]
fn fresh_allocator_hands_out_nothing() {
    let mut fa = FrameAllocator::new();
    assert_eq!(fa.allocate(), None);
    assert_eq!(fa.alloc_contiguous(1), None);
    fa.free(0);
    assert_eq!(fa.free_count(), 0);
}

#[test]
fn module_level_wrappers_delegate() {
    let mut fa = FrameAllocator::new();
    phys::init(&mut fa, &small_map());
    assert_eq!(phys::total_frames_count(&fa), 4);
    assert_eq!(phys::free_frames_count(&fa), 4);
    assert_eq!(phys::alloc_frame(&mut fa), Some(0));
    assert_eq!(phys::alloc_frames(&mut fa, 2), Some(0x1000));
    phys::free_frame(&mut fa, 0);
    phys::free_frames(&mut fa, 0x1000, 2);
    assert_eq!(phys::free_frames_count(&fa), 4);
}
