//! Keyboard decoding, descriptor packing, process bookkeeping, region
//! flags, the screen buffer, and the page-arithmetic helpers.

use kernel::bootinfo::{Architecture, BootInfo, FramebufferInfo};
use kernel::gdt::{Gdt, GdtEntry, TSS_SIZE, TaskStateSegment, TssEntry};
use kernel::idt::{GateType, IdtEntry};
use kernel::keyboard::{
    KeyCode, Keyboard, extended_scancode_to_keycode, keyevent_to_char, scancode_to_keycode,
};
use kernel::mem::{
    MemoryMapEntry, MemoryType, addr_to_page, page_align_down, page_align_up, page_to_addr,
    parse_mem_map,
};
use kernel::proc::{Manager, Process, get_process};
use kernel::screen::{self, Screen};
use kernel::virt::{VM_READ, VM_WRITE, VmFlags, VmRegion};

fn framebuffer_boot_info() -> BootInfo {
    BootInfo {
        magic: 0,
        memory_map: Vec::new(),
        framebuffer: FramebufferInfo {
            address: 0xE000_0000,
            width: 640,
            height: 480,
            pitch: 2560,
            bpp: 32,
            red_shift: 16,
            green_shift: 8,
            blue_shift: 0,
            red_mask: 8,
            green_mask: 8,
            blue_mask: 8,
        },
        arch: Architecture::X86_64,
        kernel_start: 0,
        kernel_end: 0,
        initrd_start: 0,
        initrd_end: 0,
        cmdline: Vec::new(),
    }
}

#[test]
fn page_arithmetic_helpers() {
    assert_eq!(page_align_down(0x1234), 0x1000);
    assert_eq!(page_align_down(0x1000), 0x1000);
    assert_eq!(page_align_up(0x1234), 0x2000);
    assert_eq!(page_align_up(0x1000), 0x1000);
    assert_eq!(page_align_up(0), 0);
    assert_eq!(addr_to_page(0x5123), 5);
    assert_eq!(page_to_addr(5), 0x5000);
}

#[test]
fn memory_map_totals() {
    let entries = vec![
        MemoryMapEntry { base: 0, length: 0x10000, mem_type: MemoryType::Available },
        MemoryMapEntry { base: 0x10000, length: 0x4000, mem_type: MemoryType::Kernel },
        MemoryMapEntry { base: 0x14000, length: 0x8000, mem_type: MemoryType::Reserved },
    ];
    let stats = parse_mem_map(&entries);
    assert_eq!(stats.total_memory, 0x14000);
    assert_eq!(stats.available_memory, 0x10000);
    let fallback = parse_mem_map(&Vec::new());
    assert_eq!(fallback.total_memory, 32 * 1024 * 1024);
    assert_eq!(fallback.available_memory, 32 * 1024 * 1024);
}

#[test]
fn scancode_tables() {
    assert_eq!(scancode_to_keycode(0x1E), KeyCode::A);
    assert_eq!(scancode_to_keycode(0x39), KeyCode::Space);
    assert_eq!(scancode_to_keycode(0x7F), KeyCode::Unknown);
    assert_eq!(extended_scancode_to_keycode(0x48), KeyCode::Up);
    assert_eq!(extended_scancode_to_keycode(0x01), KeyCode::Unknown);
}

#[test]
fn typing_produces_characters() {
    let mut kb = Keyboard::new();
    kb.handle_interrupt(0x1E);
    assert!(kb.has_key());
    assert_eq!(kb.read_char(), Some('a'));
    assert!(!kb.has_key());
}

#[test]
fn shift_and_caps_lock_pick_the_case() {
    let mut kb = Keyboard::new();
    kb.handle_interrupt(0x2A);
    kb.handle_interrupt(0x1E);
    kb.handle_interrupt(0x2A | 0x80);
    kb.handle_interrupt(0x1E);
    let shifted = kb.read_char();
    // the shift press itself queues a non-printable event
    let a_upper = if shifted.is_none() { kb.read_char() } else { shifted };
    assert_eq!(a_upper, Some('A'));
    // skip the shift release, then the plain press
    assert_eq!(kb.get_char(), Some('a'));
    // caps lock latches
    kb.handle_interrupt(0x3A);
    kb.handle_interrupt(0x1E);
    assert_eq!(kb.get_char(), Some('A'));
    // shift under caps lock flips back to lower case for letters
    kb.handle_interrupt(0x2A);
    kb.handle_interrupt(0x1E);
    assert_eq!(kb.get_char(), Some('a'));
    // but digits follow shift alone
    kb.handle_interrupt(0x02);
    assert_eq!(kb.get_char(), Some('!'));
}

#[test]
fn extended_prefix_latches_for_one_byte() {
    let mut kb = Keyboard::new();
    kb.handle_interrupt(0xE0);
    assert!(!kb.has_key());
    kb.handle_interrupt(0x48);
    let ev = kb.read_key().unwrap();
    assert_eq!(ev.keycode, KeyCode::Up);
    // the next plain byte decodes through the plain table again
    kb.handle_interrupt(0x48);
    assert_eq!(kb.read_key().unwrap().keycode, KeyCode::Keypad8);
}

#[test]
fn releases_type_nothing() {
    let mut kb = Keyboard::new();
    kb.handle_interrupt(0x1E | 0x80);
    let ev = kb.read_key().unwrap();
    assert!(!ev.pressed);
    assert_eq!(keyevent_to_char(&ev), None);
    assert_eq!(kb.get_char(), None);
}

#[test]
fn queue_is_bounded() {
    let mut kb = Keyboard::new();
    for _ in 0..105 {
        kb.handle_interrupt(0x1E);
    }
    let mut n = 0;
    while kb.read_key().is_some() {
        n += 1;
    }
    assert_eq!(n, 100);
}

#[test]
fn gdt_entries_pack_their_fields() {
    let e = GdtEntry::new(0x12345678, 0xABCDE, 0x9A, 0xA0);
    assert_eq!(e.limit_low, 0xBCDE);
    assert_eq!(e.base_low, 0x5678);
    assert_eq!(e.base_mid, 0x34);
    assert_eq!(e.access, 0x9A);
    assert_eq!(e.granularity, 0xAA);
    assert_eq!(e.base_high, 0x12);
    let g = Gdt::new();
    assert_eq!(g.kernel_code.access, 0x9A);
    assert_eq!(g.kernel_data.access, 0x92);
    assert_eq!(g.user_code.access, 0xFA);
    assert_eq!(g.user_data.access, 0xF2);
    assert_eq!(g.null, GdtEntry::null());
}

#[test]
fn tss_descriptor_and_segment() {
    let t = TssEntry::new(0xFFFF_8000_1234_5678, TSS_SIZE - 1);
    assert_eq!(t.length, 103);
    assert_eq!(t.base_low, 0x5678);
    assert_eq!(t.base_mid, 0x34);
    assert_eq!(t.flags1, 0x89);
    assert_eq!(t.base_high, 0x12);
    assert_eq!(t.base_upper, 0xFFFF_8000);
    let tss = TaskStateSegment::new();
    assert_eq!(tss.rsps.len(), 3);
    assert_eq!(tss.ists.len(), 7);
    assert_eq!(tss.io_map_base, 104);
}

#[test]
fn idt_entries_pack_their_fields() {
    let e = IdtEntry::new(0xFFFF_FFFF_8012_3456, 0x08, 1, GateType::Interrupt, 0);
    assert_eq!(e.offset_low, 0x3456);
    assert_eq!(e.offset_mid, 0x8012);
    assert_eq!(e.offset_high, 0xFFFF_FFFF);
    assert_eq!(e.selector, 0x08);
    assert_eq!(e.ist, 1);
    assert_eq!(e.type_attr, 0x8E);
    let t = IdtEntry::new(0, 0x08, 0, GateType::Trap, 3);
    assert_eq!(t.type_attr, 0xEF);
    let mut s = IdtEntry::null();
    s.set_handler(0xABCD_1234);
    assert_eq!(s.offset_low, 0x1234);
    assert_eq!(s.selector, 0x08);
    assert_eq!(s.type_attr, 0x8E);
}

#[test]
fn process_identifiers_start_after_the_kernel() {
    let mut mgr = Manager::new();
    assert_eq!(mgr.create_process(), 1);
    assert_eq!(mgr.create_process(), 2);
    assert_eq!(mgr.processes.len(), 2);
    // the fresh records carry no threads and no paging root yet
    assert!(mgr.processes[0].threads.is_empty());
    assert_eq!(mgr.processes[0].cr3, 0);
    assert!(get_process(&mgr, 1).is_some());
    assert_eq!(get_process(&mgr, 1).unwrap().pid, 1);
    assert!(get_process(&mgr, 0).is_none());
    assert!(get_process(&mgr, 7).is_none());
    let p = Process::new(9);
    assert_eq!(p.pid, 9);
    assert_eq!(p.cr3, 0);
    assert!(p.threads.is_empty());
}

#[test]
fn region_flags_combine() {
    let rw = VmFlags::from_bits(VM_READ | VM_WRITE);
    assert!(rw.contains(VmFlags::from_bits(VM_READ)));
    assert!(!VmFlags::from_bits(VM_READ).contains(rw));
    assert_eq!(VmFlags::empty().union(rw).bits, 3);
    let region = VmRegion { start: 0x1000, end: 0x3000, flags: rw };
    assert_eq!(region.end - region.start, 0x2000);
}

#[test]
fn screen_adopts_framebuffer_geometry() {
    let mut s = Screen::new();
    s.init(&framebuffer_boot_info());
    assert_eq!(s.width, 640);
    assert_eq!(s.height, 480);
    assert_eq!(s.buffer.len(), 640 * 480 * 4);
    assert_eq!(screen::get_info(&s), (640, 480));
    s.write(&[1, 2, 3]);
    assert_eq!(s.get_buffer()[0..4], [1, 2, 3, 0]);
    screen::write(&mut s, &[9]);
    assert_eq!(s.get_buffer()[0..2], [9, 2]);
}

#[test]
fn architecture_is_fixed() {
    assert_eq!(Architecture::current(), Architecture::X86_64);
}
