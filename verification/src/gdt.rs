//! Segment descriptors: the global descriptor table's entries and the
//! task-state segment, as bit-packed records whose every field is packed
//! from its legal bit range. Loading them into the CPU is privileged
//! hardware access and belongs to the kernel shell around this crate.

use vstd::prelude::*;

verus! {

/// Byte size of the packed 64-bit task-state segment.
pub const TSS_SIZE: u16 = 104;

/// One eight-byte segment descriptor: base, limit, access byte and
/// granularity nibble, scattered over the fields the CPU expects.
#[derive(Debug, Clone, Copy, PartialEq, Eq, Structural)]
pub struct GdtEntry {
    pub limit_low: u16,
    pub base_low: u16,
    pub base_mid: u8,
    pub access: u8,
    pub granularity: u8,
    pub base_high: u8,
}

impl GdtEntry {
    /// The descriptor `new` packs from a base, limit, access byte and
    /// granularity.
    pub open spec fn spec_new(base: u32, limit: u32, access: u8, granularity: u8) -> GdtEntry {
        GdtEntry {
            limit_low: (limit & 0xFFFF) as u16,
            base_low: (base & 0xFFFF) as u16,
            base_mid: ((base >> 16) & 0xFF) as u8,
            access,
            granularity: ((limit >> 16) & 0x0F) as u8 | (granularity & 0xF0),
            base_high: ((base >> 24) & 0xFF) as u8,
        }
    }

    /// Pack a descriptor: the low 16 limit bits, the base split over
    /// three fields, and the high limit nibble sharing a byte with the
    /// granularity flags.
    pub fn new(base: u32, limit: u32, access: u8, granularity: u8) -> (r: GdtEntry)
        ensures
            r == Self::spec_new(base, limit, access, granularity),
    {
        proof {
            assert(limit & 0xFFFF < 0x10000 && base & 0xFFFF < 0x10000 && (base >> 16) & 0xFF
                < 0x100 && (limit >> 16) & 0x0F < 0x100 && (base >> 24) & 0xFF < 0x100)
                by (bit_vector);
        }
        GdtEntry {
            limit_low: (limit & 0xFFFF) as u16,
            base_low: (base & 0xFFFF) as u16,
            base_mid: ((base >> 16) & 0xFF) as u8,
            access,
            granularity: ((limit >> 16) & 0x0F) as u8 | (granularity & 0xF0),
            base_high: ((base >> 24) & 0xFF) as u8,
        }
    }

    /// Kernel code segment: present, ring 0, executable, readable.
    pub fn code() -> (r: GdtEntry)
        ensures
            r == Self::spec_new(0, 0xFFFFF, 0x9A, 0xA0),
    {
        Self::new(0, 0xFFFFF, 0x9A, 0xA0)
    }

    /// Kernel data segment: present, ring 0, writable.
    pub fn data() -> (r: GdtEntry)
        ensures
            r == Self::spec_new(0, 0xFFFFF, 0x92, 0xA0),
    {
        Self::new(0, 0xFFFFF, 0x92, 0xA0)
    }

    /// User code segment: present, ring 3, executable, readable.
    pub fn user_code() -> (r: GdtEntry)
        ensures
            r == Self::spec_new(0, 0xFFFFF, 0xFA, 0xA0),
    {
        Self::new(0, 0xFFFFF, 0xFA, 0xA0)
    }

    /// User data segment: present, ring 3, writable.
    pub fn user_data() -> (r: GdtEntry)
        ensures
            r == Self::spec_new(0, 0xFFFFF, 0xF2, 0xA0),
    {
        Self::new(0, 0xFFFFF, 0xF2, 0xA0)
    }

    /// The mandatory all-zero null descriptor.
    pub fn null() -> (r: GdtEntry)
        ensures
            r == Self::spec_new(0, 0, 0, 0),
    {
        Self::new(0, 0, 0, 0)
    }
}

/// The sixteen-byte system descriptor that points the CPU at the
/// task-state segment; it occupies two ordinary descriptor slots.
#[derive(Debug, Clone, Copy, PartialEq, Eq, Structural)]
pub struct TssEntry {
    pub length: u16,
    pub base_low: u16,
    pub base_mid: u8,
    pub flags1: u8,
    pub flags2: u8,
    pub base_high: u8,
    pub base_upper: u32,
    pub reserved: u32,
}

impl TssEntry {
    /// The descriptor `new` packs from a base address and a limit.
    pub open spec fn spec_new(tss_addr: u64, tss_size: u16) -> TssEntry {
        TssEntry {
            length: tss_size,
            base_low: (tss_addr & 0xFFFF) as u16,
            base_mid: ((tss_addr >> 16) & 0xFF) as u8,
            flags1: 0x89,
            flags2: 0,
            base_high: ((tss_addr >> 24) & 0xFF) as u8,
            base_upper: (tss_addr >> 32) as u32,
            reserved: 0,
        }
    }

    /// A placeholder descriptor, filled in once the segment's address is
    /// known.
    pub fn null() -> (r: TssEntry)
        ensures
            r.length == 0 && r.base_low == 0 && r.base_mid == 0 && r.flags1 == 0 && r.flags2 == 0
                && r.base_high == 0 && r.base_upper == 0 && r.reserved == 0,
    {
        TssEntry {
            length: 0,
            base_low: 0,
            base_mid: 0,
            flags1: 0,
            flags2: 0,
            base_high: 0,
            base_upper: 0,
            reserved: 0,
        }
    }

    /// Pack the descriptor for a task-state segment at `tss_addr`:
    /// present, ring 0, available 64-bit segment.
    pub fn new(tss_addr: u64, tss_size: u16) -> (r: TssEntry)
        ensures
            r == Self::spec_new(tss_addr, tss_size),
    {
        proof {
            assert(tss_addr & 0xFFFF < 0x10000 && (tss_addr >> 16) & 0xFF < 0x100 && (tss_addr
                >> 24) & 0xFF < 0x100) by (bit_vector);
        }
        TssEntry {
            length: tss_size,
            base_low: (tss_addr & 0xFFFF) as u16,
            base_mid: ((tss_addr >> 16) & 0xFF) as u8,
            flags1: 0x89,
            flags2: 0,
            base_high: ((tss_addr >> 24) & 0xFF) as u8,
            base_upper: (tss_addr >> 32) as u32,
            reserved: 0,
        }
    }
}

/// The task-state segment itself: the stack pointers the CPU loads when
/// crossing privilege levels or taking an interrupt on a dedicated stack.
#[derive(Debug, Clone, PartialEq, Eq)]
pub struct TaskStateSegment {
    pub reserved1: u32,
    pub rsps: Vec<u64>,
    pub reserved2: u64,
    pub ists: Vec<u64>,
    pub reserved3: u64,
    pub reserved4: u16,
    pub io_map_base: u16,
}

impl TaskStateSegment {
    /// A segment with all stack slots empty and the I/O map pushed past
    /// the segment's end, disabling it.
    pub fn new() -> (r: TaskStateSegment)
        ensures
            r.rsps@.len() == 3,
            r.ists@.len() == 7,
            forall|k: int| 0 <= k < 3 ==> r.rsps@[k] == 0,
            forall|k: int| 0 <= k < 7 ==> r.ists@[k] == 0,
            r.reserved1 == 0,
            r.reserved2 == 0,
            r.reserved3 == 0,
            r.reserved4 == 0,
            r.io_map_base == TSS_SIZE,
    {
        TaskStateSegment {
            reserved1: 0,
            rsps: vec![0u64, 0u64, 0u64],
            reserved2: 0,
            ists: vec![0u64, 0u64, 0u64, 0u64, 0u64, 0u64, 0u64],
            reserved3: 0,
            reserved4: 0,
            io_map_base: TSS_SIZE,
        }
    }
}

/// The full descriptor table: the null slot, the four flat segments, and
/// the two slots of the task-state descriptor.
#[derive(Debug, Clone, Copy, PartialEq, Eq, Structural)]
pub struct Gdt {
    pub null: GdtEntry,
    pub kernel_code: GdtEntry,
    pub kernel_data: GdtEntry,
    pub user_code: GdtEntry,
    pub user_data: GdtEntry,
    pub tss_entry: TssEntry,
}

impl Gdt {
    /// The kernel's descriptor table, with the task-state slot still to
    /// be filled in.
    pub fn new() -> (r: Gdt)
        ensures
            r.null == GdtEntry::spec_new(0, 0, 0, 0),
            r.kernel_code == GdtEntry::spec_new(0, 0xFFFFF, 0x9A, 0xA0),
            r.kernel_data == GdtEntry::spec_new(0, 0xFFFFF, 0x92, 0xA0),
            r.user_code == GdtEntry::spec_new(0, 0xFFFFF, 0xFA, 0xA0),
            r.user_data == GdtEntry::spec_new(0, 0xFFFFF, 0xF2, 0xA0),
    {
        Gdt {
            null: GdtEntry::null(),
            kernel_code: GdtEntry::code(),
            kernel_data: GdtEntry::data(),
            user_code: GdtEntry::user_code(),
            user_data: GdtEntry::user_data(),
            tss_entry: TssEntry::null(),
        }
    }
}

/// Segment selectors of the table's slots.
pub const KERNEL_CODE_SELECTOR: u16 = 0x08;

pub const KERNEL_DATA_SELECTOR: u16 = 0x10;

pub const USER_CODE_SELECTOR: u16 = 0x1B;

pub const USER_DATA_SELECTOR: u16 = 0x23;

pub const TSS_SELECTOR: u16 = 0x28;

} // verus!
