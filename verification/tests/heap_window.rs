//! Heap window growth, its hard ceiling, and the whole-subsystem
//! initialization through the owning context.

use kernel::bootinfo::{Architecture, BootInfo, FramebufferInfo};
use kernel::heap::{self, EXTEND_CHUNK_SIZE, INITIAL_HEAP_SIZE, KernelHeap, MAX_HEAP_SIZE};
use kernel::mem::{self, MemoryManager, MemoryMapEntry, MemoryType};
use kernel::paging::Mapper;
use kernel::phys::FrameAllocator;

fn boot_info_with_bytes(bytes: u64) -> BootInfo {
    BootInfo {
        magic: 0,
        memory_map: vec![MemoryMapEntry {
            base: 0,
            length: bytes,
            mem_type: MemoryType::Available,
        }],
        framebuffer: FramebufferInfo {
            address: 0,
            width: 0,
            height: 0,
            pitch: 0,
            bpp: 0,
            red_shift: 0,
            green_shift: 0,
            blue_shift: 0,
            red_mask: 0,
            green_mask: 0,
            blue_mask: 0,
        },
        arch: Architecture::X86_64,
        kernel_start: 0,
        kernel_end: 0,
        initrd_start: 0,
        initrd_end: 0,
        cmdline: Vec::new(),
    }
}

fn allocator_with_bytes(bytes: u64) -> FrameAllocator {
    let mut fa = FrameAllocator::new();
    fa.init(&boot_info_with_bytes(bytes));
    fa
}

#[test]
fn fresh_heap_is_empty() {
    let h = KernelHeap::new();
    assert_eq!(h.heap_size(), 0);
}

#[test]
fn init_maps_the_initial_extent() {
    let mut fa = allocator_with_bytes(64 * 1024 * 1024);
    let mut m = Mapper::new();
    let mut h = KernelHeap::new();
    assert!(heap::init(&mut h, &mut fa, &mut m));
    assert_eq!(heap::heap_size(&h), INITIAL_HEAP_SIZE);
    // the window really is mapped, each page behind its own frame
    let first = m.translate(heap::HEAP_START).unwrap();
    let second = m.translate(heap::HEAP_START + 0x1000).unwrap();
    let last = m.translate(heap::HEAP_START + (INITIAL_HEAP_SIZE as u64) - 0x1000).unwrap();
    assert_ne!(first, second);
    assert_ne!(first, last);
    assert_ne!(second, last);
    assert_eq!(m.translate(heap::HEAP_START + INITIAL_HEAP_SIZE as u64), None);
}

#[test]
fn extension_grows_by_at_least_one_chunk() {
    let mut fa = allocator_with_bytes(64 * 1024 * 1024);
    let mut m = Mapper::new();
    let mut h = KernelHeap::new();
    heap::init(&mut h, &mut fa, &mut m);
    assert!(h.try_extend(&mut fa, &mut m, 16));
    assert_eq!(h.heap_size(), INITIAL_HEAP_SIZE + EXTEND_CHUNK_SIZE);
    assert!(h.try_extend(&mut fa, &mut m, 2 * EXTEND_CHUNK_SIZE));
    assert_eq!(h.heap_size(), INITIAL_HEAP_SIZE + 3 * EXTEND_CHUNK_SIZE);
}

#[test]
fn extent_never_passes_the_ceiling() {
    let mut fa = allocator_with_bytes(1024 * 1024 * 1024);
    let mut m = Mapper::new();
    let mut h = KernelHeap::new();
    heap::init(&mut h, &mut fa, &mut m);
    assert!(h.try_extend(&mut fa, &mut m, MAX_HEAP_SIZE));
    assert_eq!(h.heap_size(), MAX_HEAP_SIZE);
    // at the ceiling, further pressure is reported, not absorbed
    assert!(!h.try_extend(&mut fa, &mut m, 1));
    assert_eq!(h.heap_size(), MAX_HEAP_SIZE);
    assert!(!h.try_extend(&mut fa, &mut m, EXTEND_CHUNK_SIZE));
    assert_eq!(h.heap_size(), MAX_HEAP_SIZE);
}

#[test]
fn exhausted_frames_stop_growth_but_keep_progress() {
    // frames for the tables and a handful of pages, far less than a chunk
    let mut fa = allocator_with_bytes(16 * 0x1000);
    let mut m = Mapper::new();
    let mut h = KernelHeap::new();
    let full = heap::init(&mut h, &mut fa, &mut m);
    assert!(!full);
    let size = h.heap_size();
    assert!(size > 0);
    assert!(size < INITIAL_HEAP_SIZE);
    assert_eq!(size % 0x1000, 0);
    // everything usable was committed; a retry cannot map a single page
    assert!(!h.try_extend(&mut fa, &mut m, 16));
}

#[test]
fn no_frames_at_all_means_no_extension() {
    let mut fa = FrameAllocator::new();
    let mut m = Mapper::new();
    let mut h = KernelHeap::new();
    assert!(!heap::init(&mut h, &mut fa, &mut m));
    assert_eq!(h.heap_size(), 0);
    assert!(!h.try_extend(&mut fa, &mut m, 1));
    assert_eq!(h.heap_size(), 0);
}

#[test]
fn memory_manager_brings_everything_up() {
    let mut mgr = MemoryManager::new();
    let boot_info = boot_info_with_bytes(64 * 1024 * 1024);
    assert!(mem::init(&mut mgr, &boot_info));
    assert_eq!(mgr.stats.total_memory, 64 * 1024 * 1024);
    assert_eq!(mgr.stats.available_memory, 64 * 1024 * 1024);
    assert_eq!(mgr.heap.heap_size(), INITIAL_HEAP_SIZE);
    // the heap pages came out of the frame pool: 1024 page frames, plus
    // the two table levels down to the leaves and the two leaf tables the
    // 4 MiB window spans
    assert_eq!(mgr.frames.free_count(), 16384 - 1024 - 4);
}

#[test]
fn memory_manager_survives_missing_map() {
    let mut mgr = MemoryManager::new();
    let boot_info = BootInfo { memory_map: Vec::new(), ..boot_info_with_bytes(0) };
    assert!(mem::init(&mut mgr, &boot_info));
    assert_eq!(mgr.stats.total_memory, 32 * 1024 * 1024);
    assert_eq!(mgr.heap.heap_size(), INITIAL_HEAP_SIZE);
}
