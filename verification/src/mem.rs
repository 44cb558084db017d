//! Memory-map records, page-size arithmetic, and the owning context that
//! ties the frame allocator, the mapper and the heap together.

use vstd::prelude::*;
use crate::bootinfo::BootInfo;
use crate::heap::{HEAP_START, KernelHeap, window_clear};
use crate::paging::{MAX_TABLES, Mapper};
use crate::phys::{
    FrameAllocator, MAX_PAGES, covered, covered_count_below, lemma_covered_count_matches,
    lemma_free_frames_below_extend,
};

verus! {

/// Size of a page frame in bytes: the allocation granularity of the whole
/// memory subsystem.
pub const PAGE_SIZE: usize = 4096;

/// log2 of [`PAGE_SIZE`].
pub const PAGE_SHIFT: usize = 12;

/// Kind of a memory-map record handed over by the bootloader. Only
/// `Available` regions contribute free frames.
#[derive(Debug, Clone, Copy, PartialEq, Eq, Structural)]
pub enum MemoryType {
    Available,
    Reserved,
    AcpiReclaimable,
    AcpiNvs,
    BadMemory,
    Kernel,
    Bootloader,
    Framebuffer,
    PageTable,
}

/// One record of the bootloader's memory map: a physical region of
/// `length` bytes starting at `base`.
#[derive(Debug, Clone, Copy, PartialEq, Eq, Structural)]
pub struct MemoryMapEntry {
    pub base: u64,
    pub length: u64,
    pub mem_type: MemoryType,
}

/// Totals derived from the memory map, surfaced through kernel logging and
/// the out-of-memory diagnostic path.
#[derive(Debug, Clone, Copy, PartialEq, Eq, Structural)]
pub struct MemoryStats {
    pub total_memory: u64,
    pub available_memory: u64,
    pub used_memory: u64,
    pub free_pages: u64,
    pub used_pages: u64,
}

/// Whether a region of this type is actual RAM. Reserved and MMIO regions
/// cover huge holes in the physical address space and would make the total
/// misleadingly large.
pub open spec fn is_ram_type(t: MemoryType) -> bool {
    t == MemoryType::Available || t == MemoryType::AcpiReclaimable || t == MemoryType::AcpiNvs
        || t == MemoryType::Kernel || t == MemoryType::Bootloader
}

/// Sum of the lengths of the RAM-backed records of `s` from index `i` on.
pub open spec fn sum_ram_from(s: Seq<MemoryMapEntry>, i: int) -> int
    decreases s.len() - i,
{
    if i < 0 || i >= s.len() {
        0
    } else {
        (if is_ram_type(s[i].mem_type) {
            s[i].length as int
        } else {
            0
        }) + sum_ram_from(s, i + 1)
    }
}

/// Sum of the lengths of the `Available` records of `s` from index `i` on.
pub open spec fn sum_available_from(s: Seq<MemoryMapEntry>, i: int) -> int
    decreases s.len() - i,
{
    if i < 0 || i >= s.len() {
        0
    } else {
        (if s[i].mem_type == MemoryType::Available {
            s[i].length as int
        } else {
            0
        }) + sum_available_from(s, i + 1)
    }
}

pub proof fn lemma_sum_ram_from_nonneg(s: Seq<MemoryMapEntry>, i: int)
    ensures
        sum_ram_from(s, i) >= 0,
    decreases s.len() - i,
{
    if 0 <= i < s.len() {
        lemma_sum_ram_from_nonneg(s, i + 1);
    }
}

pub proof fn lemma_sum_available_from_nonneg(s: Seq<MemoryMapEntry>, i: int)
    ensures
        sum_available_from(s, i) >= 0,
    decreases s.len() - i,
{
    if 0 <= i < s.len() {
        lemma_sum_available_from_nonneg(s, i + 1);
    }
}

/// Totals assumed when the bootloader hands over no memory map at all:
/// a small, safe floor for the amount of RAM present.
pub const FALLBACK_MEMORY_BYTES: u64 = 33554432;

/// Walk the memory map once and add up the RAM-backed and the `Available`
/// bytes. An empty map falls back to assuming [`FALLBACK_MEMORY_BYTES`] of
/// RAM, all of it available, so the kernel can keep booting without one.
pub fn parse_mem_map(entries: &Vec<MemoryMapEntry>) -> (stats: MemoryStats)
    requires
        sum_ram_from(entries@, 0) <= u64::MAX,
        sum_available_from(entries@, 0) <= u64::MAX,
    ensures
        entries@.len() == 0 ==> stats.total_memory == FALLBACK_MEMORY_BYTES
            && stats.available_memory == FALLBACK_MEMORY_BYTES,
        entries@.len() > 0 ==> stats.total_memory == sum_ram_from(entries@, 0)
            && stats.available_memory == sum_available_from(entries@, 0),
        stats.used_memory == 0 && stats.free_pages == 0 && stats.used_pages == 0,
{
    if entries.len() == 0 {
        return MemoryStats {
            total_memory: FALLBACK_MEMORY_BYTES,
            available_memory: FALLBACK_MEMORY_BYTES,
            used_memory: 0,
            free_pages: 0,
            used_pages: 0,
        };
    }
    let mut total: u64 = 0;
    let mut available: u64 = 0;
    let n: usize = entries.len();
    for i in 0..n
        invariant
            n == entries@.len(),
            total + sum_ram_from(entries@, i as int) == sum_ram_from(entries@, 0),
            available + sum_available_from(entries@, i as int) == sum_available_from(entries@, 0),
            sum_ram_from(entries@, 0) <= u64::MAX,
            sum_available_from(entries@, 0) <= u64::MAX,
    {
        proof {
            lemma_sum_ram_from_nonneg(entries@, i + 1);
            lemma_sum_available_from_nonneg(entries@, i + 1);
        }
        let entry = entries[i];
        let is_ram = match entry.mem_type {
            MemoryType::Available => true,
            MemoryType::AcpiReclaimable => true,
            MemoryType::AcpiNvs => true,
            MemoryType::Kernel => true,
            MemoryType::Bootloader => true,
            _ => false,
        };
        if is_ram {
            total = total + entry.length;
        }
        if entry.mem_type == MemoryType::Available {
            available = available + entry.length;
        }
    }
    MemoryStats {
        total_memory: total,
        available_memory: available,
        used_memory: 0,
        free_pages: 0,
        used_pages: 0,
    }
}

/// Align an address down to the page boundary at or below it.
pub fn page_align_down(addr: u64) -> (r: u64)
    ensures
        r == addr - addr % (PAGE_SIZE as u64),
{
    proof {
        assert(addr & 0xFFFF_FFFF_FFFF_F000u64 == addr - addr % 4096) by (bit_vector);
    }
    addr & 0xFFFF_FFFF_FFFF_F000u64
}

/// Align an address up to the page boundary at or above it.
pub fn page_align_up(addr: u64) -> (r: u64)
    requires
        addr + PAGE_SIZE - 1 <= u64::MAX,
    ensures
        r % (PAGE_SIZE as u64) == 0,
        addr <= r < addr + PAGE_SIZE,
{
    let s: u64 = addr + 4095;
    let r: u64 = s & 0xFFFF_FFFF_FFFF_F000u64;
    proof {
        assert((s & 0xFFFF_FFFF_FFFF_F000u64) % 4096 == 0 && s - 4095 <= (s
            & 0xFFFF_FFFF_FFFF_F000u64) <= s) by (bit_vector);
    }
    r
}

/// Number of the page frame containing an address.
pub fn addr_to_page(addr: u64) -> (r: u64)
    ensures
        r == addr / (PAGE_SIZE as u64),
{
    proof {
        assert(addr >> 12 == addr / 4096) by (bit_vector);
    }
    addr >> 12
}

/// Base address of a page frame given its number.
pub fn page_to_addr(page: u64) -> (r: u64)
    requires
        page * PAGE_SIZE <= u64::MAX,
    ensures
        r == page * (PAGE_SIZE as u64),
{
    proof {
        assert(page * 4096 <= 0xFFFF_FFFF_FFFF_FFFF ==> (page << 12) == page * 4096)
            by (bit_vector);
    }
    page << 12
}

/// The one owning context for the whole memory subsystem: the statistics,
/// the frame allocator, the mapper and the heap bookkeeping, constructed
/// once at boot and handed by reference to every subsystem that needs it.
pub struct MemoryManager {
    pub stats: MemoryStats,
    pub frames: FrameAllocator,
    pub mapper: Mapper,
    pub heap: KernelHeap,
}

impl MemoryManager {
    pub open spec fn wf(self) -> bool {
        &&& self.frames.wf()
        &&& self.mapper.wf()
        &&& self.heap.wf()
    }

    /// A fresh context: no frames available, nothing mapped, no heap.
    pub fn new() -> (r: MemoryManager)
        ensures
            r.wf(),
            window_clear(r.mapper),
            r.heap.spec_end() == HEAP_START,
            r.frames.num_free() == 0,
            r.frames.num_total() == 0,
            forall|w: u64| #[trigger] r.mapper.spec_translate(w) is None,
    {
        let r = MemoryManager {
            stats: MemoryStats {
                total_memory: 0,
                available_memory: 0,
                used_memory: 0,
                free_pages: 0,
                used_pages: 0,
            },
            frames: FrameAllocator::new(),
            mapper: Mapper::new(),
            heap: KernelHeap::new(),
        };
        r
    }
}

/// Bring the whole memory subsystem up from the bootloader's memory map:
/// parse the totals, carve the frame allocator's free pool out of the
/// map, and map the initial heap extent. True exactly when the full
/// initial heap could be mapped.
pub fn init(mgr: &mut MemoryManager, boot_info: &BootInfo) -> (r: bool)
    requires
        old(mgr).wf(),
        window_clear(old(mgr).mapper),
        old(mgr).heap.spec_end() == HEAP_START,
        sum_ram_from(boot_info.memory_map@, 0) <= u64::MAX,
        sum_available_from(boot_info.memory_map@, 0) <= u64::MAX,
        forall|i: int|
            0 <= i < boot_info.memory_map@.len() ==> (#[trigger] boot_info.memory_map@[i].base)
                + boot_info.memory_map@[i].length <= u64::MAX,
    ensures
        final(mgr).wf(),
        window_clear(final(mgr).mapper),
        boot_info.memory_map@.len() > 0 ==> final(mgr).stats.total_memory == sum_ram_from(
            boot_info.memory_map@,
            0,
        ) && final(mgr).stats.available_memory == sum_available_from(boot_info.memory_map@, 0),
        boot_info.memory_map@.len() == 0 ==> final(mgr).stats.total_memory
            == FALLBACK_MEMORY_BYTES,
        boot_info.memory_map@.len() > 0 ==> forall|p: int|
            #[trigger] final(mgr).frames.page_is_free(p) ==> covered(boot_info.memory_map@, p),
        boot_info.memory_map@.len() == 0 ==> final(mgr).frames.num_total() == MAX_PAGES,
        final(mgr).heap.mapped_bytes() <= crate::heap::INITIAL_HEAP_SIZE,
        r == true <==> final(mgr).heap.mapped_bytes() == crate::heap::INITIAL_HEAP_SIZE,
        boot_info.memory_map@.len() == 0 && old(mgr).mapper.table_count() + 3 * (
        crate::heap::INITIAL_HEAP_SIZE / PAGE_SIZE) <= MAX_TABLES ==> r == true,
        boot_info.memory_map@.len() > 0 && covered_count_below(
            boot_info.memory_map@,
            MAX_PAGES as int,
        ) >= 4 * (crate::heap::INITIAL_HEAP_SIZE / PAGE_SIZE) && old(mgr).mapper.table_count() + 3
            * (crate::heap::INITIAL_HEAP_SIZE / PAGE_SIZE) <= MAX_TABLES ==> r == true,
{
    mgr.stats = parse_mem_map(&boot_info.memory_map);
    crate::phys::init(&mut mgr.frames, boot_info);
    let ghost post_frames = mgr.frames;
    proof {
        // a map covering enough frames leaves enough in the pool for the
        // whole initial heap, so the growth below cannot stop early
        let mm = boot_info.memory_map@;
        if mm.len() > 0 && covered_count_below(mm, MAX_PAGES as int) >= 4 * (
        crate::heap::INITIAL_HEAP_SIZE / PAGE_SIZE) {
            mgr.frames.lemma_counts_invariant();
            lemma_covered_count_matches(mgr.frames, mm, MAX_PAGES as int);
            assert forall|p: int|
                mgr.frames.num_total() <= p < MAX_PAGES implies !mgr.frames.page_is_free(p) by {
                if mgr.frames.page_is_free(p) {
                    assert(covered(mm, p));
                }
            }
            lemma_free_frames_below_extend(
                mgr.frames,
                mgr.frames.num_total(),
                MAX_PAGES as int,
            );
            assert(mgr.frames.num_free() >= 4 * (crate::heap::INITIAL_HEAP_SIZE / PAGE_SIZE));
        }
    }
    let full = crate::heap::init(&mut mgr.heap, &mut mgr.frames, &mut mgr.mapper);
    proof {
        if boot_info.memory_map@.len() > 0 {
            assert forall|p: int| #[trigger] mgr.frames.page_is_free(p) implies covered(
                boot_info.memory_map@,
                p,
            ) by {
                assert(post_frames.page_is_free(p) ==> covered(boot_info.memory_map@, p));
            }
        }
    }
    full
}

} // verus!
