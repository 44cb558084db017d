//! Page-table entries, address decomposition, and map / unmap / translate
//! round trips on a fresh address space.

use kernel::bootinfo::{Architecture, BootInfo, FramebufferInfo};
use kernel::mem::{MemoryMapEntry, MemoryType};
use kernel::paging::{
    GLOBAL, HUGE_PAGE, MapError, Mapper, PRESENT, PageTable, PageTableEntry, UnmapError,
    VirtualAddress, WRITABLE,
};
use kernel::phys::FrameAllocator;

fn allocator_with_frames(frames: u64) -> FrameAllocator {
    let boot_info = BootInfo {
        magic: 0,
        memory_map: vec![MemoryMapEntry {
            base: 0,
            length: frames * 0x1000,
            mem_type: MemoryType::Available,
        }],
        framebuffer: FramebufferInfo {
            address: 0,
            width: 0,
            height: 0,
            pitch: 0,
            bpp: 0,
            red_shift: 0,
            green_shift: 0,
            blue_shift: 0,
            red_mask: 0,
            green_mask: 0,
            blue_mask: 0,
        },
        arch: Architecture::X86_64,
        kernel_start: 0,
        kernel_end: 0,
        initrd_start: 0,
        initrd_end: 0,
        cmdline: Vec::new(),
    };
    let mut fa = FrameAllocator::new();
    fa.init(&boot_info);
    fa
}

#[test]
fn entry_packs_address_and_flags_disjointly() {
    let e = PageTableEntry::new(0x7001234567, PRESENT | WRITABLE | GLOBAL);
    assert_eq!(e.addr(), 0x7001234000);
    assert_eq!(e.flags(), PRESENT | WRITABLE | GLOBAL);
    assert!(e.is_present());
    assert!(e.is_writable());
    assert!(e.is_global());
    assert!(!e.is_huge_page());
    assert!(!e.is_user_accessible());
    assert!(!e.is_no_execute());
}

#[test]
fn entry_masks_each_input_to_its_range() {
    // flag bits in the address argument are dropped, address bits in the
    // flags argument are dropped
    let e = PageTableEntry::new(0xFFF, 0x3000);
    assert_eq!(e.addr(), 0);
    assert_eq!(e.flags(), 0);
    let e2 = PageTableEntry::new(0x5000, HUGE_PAGE);
    assert!(e2.is_huge_page());
    assert_eq!(e2.addr(), 0x5000);
}

#[test]
fn entry_setters_keep_the_other_half() {
    let mut e = PageTableEntry::new(0x1000, PRESENT);
    e.set_addr(0x2000);
    assert_eq!(e.addr(), 0x2000);
    assert_eq!(e.flags(), PRESENT);
    e.set_flags(PRESENT | WRITABLE);
    assert_eq!(e.addr(), 0x2000);
    assert!(e.is_writable());
}

#[test]
fn empty_entry_is_absent() {
    let e = PageTableEntry::empty();
    assert!(!e.is_present());
    assert_eq!(e.addr(), 0);
    assert_eq!(e.flags(), 0);
    let t = PageTable::empty();
    assert_eq!(t.entries.len(), 512);
    assert!(!t.entries[0].is_present());
}

#[test]
fn address_decomposes_into_fixed_fields() {
    let i = VirtualAddress(0x500123).indices();
    assert_eq!(i.pml4, 0);
    assert_eq!(i.pdpt, 0);
    assert_eq!(i.pd, 2);
    assert_eq!(i.pt, 0x100);
    assert_eq!(i.offset, 0x123);
    let j = VirtualAddress(0xFFFF_FF80_1234_5678).indices();
    assert_eq!(j.pml4, 511);
    assert_eq!(j.offset, 0x678);
}

#[test]
fn map_then_translate_round_trip() {
    let mut fa = allocator_with_frames(16);
    let mut m = Mapper::new();
    assert_eq!(m.map_page(&mut fa, 0x500000, 0x700000, PRESENT | WRITABLE), Ok(()));
    assert_eq!(m.translate(0x500000), Some(0x700000));
    assert_eq!(m.translate(0x500000 + 0x123), Some(0x700123));
    assert_eq!(m.translate(0x501000), None);
}

#[test]
fn mapping_an_unaligned_address_maps_its_page() {
    let mut fa = allocator_with_frames(16);
    let mut m = Mapper::new();
    assert_eq!(m.map_page(&mut fa, 0x500123, 0x700000, PRESENT), Ok(()));
    assert_eq!(m.translate(0x500123), Some(0x700123));
    assert_eq!(m.translate(0x500000), Some(0x700000));
}

#[test]
fn mapping_consumes_one_frame_per_missing_level() {
    let mut fa = allocator_with_frames(16);
    let mut m = Mapper::new();
    assert_eq!(fa.free_count(), 16);
    m.map_page(&mut fa, 0x500000, 0x700000, PRESENT | WRITABLE).unwrap();
    // three fresh levels below the root
    assert_eq!(fa.free_count(), 13);
    // same leaf table: no further frames needed
    m.map_page(&mut fa, 0x501000, 0x701000, PRESENT | WRITABLE).unwrap();
    assert_eq!(fa.free_count(), 13);
    assert_eq!(m.translate(0x500000), Some(0x700000));
    assert_eq!(m.translate(0x501000), Some(0x701000));
}

#[test]
fn mapping_fails_exactly_on_frame_exhaustion() {
    let mut fa = allocator_with_frames(2);
    let mut m = Mapper::new();
    assert_eq!(
        m.map_page(&mut fa, 0x500000, 0x700000, PRESENT | WRITABLE),
        Err(MapError::PtAllocFailed)
    );
    // both frames went into the tables that could still be built
    assert_eq!(fa.free_count(), 0);
    assert_eq!(m.translate(0x500000), None);
    let mut fa0 = allocator_with_frames(0);
    let mut m0 = Mapper::new();
    assert_eq!(
        m0.map_page(&mut fa0, 0x500000, 0x700000, PRESENT),
        Err(MapError::PdptAllocFailed)
    );
}

#[test]
fn remapping_overwrites_the_leaf() {
    let mut fa = allocator_with_frames(16);
    let mut m = Mapper::new();
    m.map_page(&mut fa, 0x500000, 0x700000, PRESENT | WRITABLE).unwrap();
    m.map_page(&mut fa, 0x500000, 0x900000, PRESENT | WRITABLE).unwrap();
    assert_eq!(m.translate(0x500000), Some(0x900000));
}

#[test]
fn unmap_then_translate_yields_nothing() {
    let mut fa = allocator_with_frames(16);
    let mut m = Mapper::new();
    m.map_page(&mut fa, 0x500000, 0x700000, PRESENT | WRITABLE).unwrap();
    assert_eq!(m.unmap_page(0x500000), Ok(0x700000));
    assert_eq!(m.translate(0x500000), None);
    // a second unmap reports the absent leaf instead of succeeding
    assert_eq!(m.unmap_page(0x500000), Err(UnmapError::PtNotPresent));
}

#[test]
fn unmap_of_never_mapped_address_names_the_missing_level() {
    let mut fa = allocator_with_frames(16);
    let mut m = Mapper::new();
    assert_eq!(m.unmap_page(0x500000), Err(UnmapError::Pml4NotPresent));
    m.map_page(&mut fa, 0x500000, 0x700000, PRESENT).unwrap();
    // same level-3 table, absent level-2 slot
    assert_eq!(m.unmap_page(0x4000_0000), Err(UnmapError::PdptNotPresent));
    assert_eq!(m.unmap_page(0x600000), Err(UnmapError::PdNotPresent));
    assert_eq!(m.unmap_page(0x501000), Err(UnmapError::PtNotPresent));
}

#[test]
fn unmap_leaves_other_mappings_alone() {
    let mut fa = allocator_with_frames(16);
    let mut m = Mapper::new();
    m.map_page(&mut fa, 0x500000, 0x700000, PRESENT | WRITABLE).unwrap();
    m.map_page(&mut fa, 0x501000, 0x701000, PRESENT | WRITABLE).unwrap();
    m.unmap_page(0x500000).unwrap();
    assert_eq!(m.translate(0x501000), Some(0x701000));
}

#[test]
fn distinct_page_tables_for_distant_addresses() {
    let mut fa = allocator_with_frames(16);
    let mut m = Mapper::new();
    m.map_page(&mut fa, 0x500000, 0x700000, PRESENT | WRITABLE).unwrap();
    // a higher-half address shares no table below the root
    m.map_page(&mut fa, 0xFFFF_FF80_0000_0000, 0xABC000, PRESENT | WRITABLE).unwrap();
    assert_eq!(fa.free_count(), 16 - 6);
    assert_eq!(m.translate(0xFFFF_FF80_0000_0000), Some(0xABC000));
    assert_eq!(m.translate(0x500000), Some(0x700000));
}

#[test]
fn bootstrap_identity_maps_the_low_gigabytes() {
    let mut m = Mapper::new();
    kernel::paging::init(&mut m);
    assert_eq!(m.translate(0), Some(0));
    assert_eq!(m.translate(0x500123), Some(0x500123));
    assert_eq!(m.translate(0xFFFF_FFFF), Some(0xFFFF_FFFF));
    // past the identity window nothing is mapped
    assert_eq!(m.translate(0x1_0000_0000), None);
    // the higher-half window mirrors the low one
    assert_eq!(m.translate(0xFFFF_FF80_0000_0000), Some(0));
    assert_eq!(m.translate(0xFFFF_FF80_1234_5678), Some(0x1234_5678));
}

#[test]
fn module_level_paging_functions_delegate() {
    let mut fa = allocator_with_frames(16);
    let mut m = Mapper::new();
    assert_eq!(
        kernel::paging::map_page(&mut m, &mut fa, 0x500000, 0x700000, PRESENT | WRITABLE),
        Ok(())
    );
    assert_eq!(kernel::paging::translate(&m, 0x500000), Some(0x700000));
    assert_eq!(kernel::paging::unmap_page(&mut m, 0x500000), Ok(0x700000));
    assert_eq!(kernel::paging::translate(&m, 0x500000), None);
}

#[test]
fn each_table_level_reports_its_own_exhaustion() {
    // one frame: the level-3 table can be built, the level-2 one cannot
    let mut fa = allocator_with_frames(1);
    let mut m = Mapper::new();
    assert_eq!(
        m.map_page(&mut fa, 0x500000, 0x700000, PRESENT),
        Err(MapError::PdAllocFailed)
    );
    assert_eq!(fa.free_count(), 0);
}
