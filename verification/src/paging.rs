//! Virtual memory mapper: the four-level x86-64 page-table structure, with
//! map / unmap / translate primitives. Table levels are created lazily from
//! the frame allocator and never demoted back to absent, an accepted
//! simplification. The tables live in an owned arena; an entry that points
//! at a lower-level table identifies it by its arena slot scaled to the
//! page size, and the physical frame consumed for the table stays accounted
//! for in the frame allocator.

use vstd::prelude::*;
use crate::mem::PAGE_SIZE;
use crate::phys::{FrameAllocator, MAX_PAGES};

verus! {

// Page-table entry flag bits. These control how a page is accessed,
// whether it is present, writable, and so on.
pub const PRESENT: u64 = 1;
pub const WRITABLE: u64 = 2;
pub const USER_ACCESSIBLE: u64 = 4;
pub const WRITE_THROUGH: u64 = 8;
pub const CACHE_DISABLE: u64 = 16;
pub const ACCESSED: u64 = 32;
pub const DIRTY: u64 = 64;
pub const HUGE_PAGE: u64 = 128;
pub const GLOBAL: u64 = 256;
pub const NO_EXECUTE: u64 = 0x8000_0000_0000_0000;

/// Bits 12..52 of an entry: the 4 KiB-aligned physical address.
pub const ADDR_MASK: u64 = 0x000F_FFFF_FFFF_F000;

/// Bits 0..12 and bit 63 of an entry: the flag bits.
pub const FLAG_MASK: u64 = 0x8000_0000_0000_0FFF;

proof fn lemma_entry_masks(a: u64, f: u64)
    by (bit_vector)
    ensures
        ((a & 0x000F_FFFF_FFFF_F000u64) | (f & 0x8000_0000_0000_0FFFu64))
            & 0x000F_FFFF_FFFF_F000u64 == a & 0x000F_FFFF_FFFF_F000u64,
        ((a & 0x000F_FFFF_FFFF_F000u64) | (f & 0x8000_0000_0000_0FFFu64))
            & 0x8000_0000_0000_0FFFu64 == f & 0x8000_0000_0000_0FFFu64,
        (f & 0x8000_0000_0000_0FFFu64) & 1 == f & 1,
        (f & 0x8000_0000_0000_0FFFu64) & 128 == f & 128,
        a & 0x000F_FFFF_FFFF_F000u64 < 0x0010_0000_0000_0000u64,
        (a & 0x000F_FFFF_FFFF_F000u64) % 4096 == 0,
        ((f & 0x8000_0000_0000_0FFFu64) | (a & 0x000F_FFFF_FFFF_F000u64))
            & 0x000F_FFFF_FFFF_F000u64 == a & 0x000F_FFFF_FFFF_F000u64,
        ((f & 0x8000_0000_0000_0FFFu64) | (a & 0x000F_FFFF_FFFF_F000u64))
            & 0x8000_0000_0000_0FFFu64 == f & 0x8000_0000_0000_0FFFu64,
        (a & 0x000F_FFFF_FFFF_F000u64) & 0x000F_FFFF_FFFF_F000u64 == a
            & 0x000F_FFFF_FFFF_F000u64,
        (f & 0x8000_0000_0000_0FFFu64) & 0x8000_0000_0000_0FFFu64 == f
            & 0x8000_0000_0000_0FFFu64,
{
}

proof fn lemma_table_handle(c: u64)
    by (bit_vector)
    requires
        c < 0x100000u64,
    ensures
        (c << 12u64) & 0x000F_FFFF_FFFF_F000u64 == (c << 12u64),
        (c << 12u64) >> 12u64 == c,
        (c << 12u64) & 0x8000_0000_0000_0FFFu64 == 0,
        (c << 12u64) == c * 4096,
        (c << 12u64) / 4096 == c,
{
}

/// A page-table entry: a 64-bit value holding the physical address of a
/// page and the flags that control how it is accessed. Bits 0-11 and bit
/// 63 are flags, bits 12-51 the 4 KiB-aligned physical address, bits 52-62
/// reserved.
#[derive(Debug, Clone, Copy, PartialEq, Eq, Structural)]
pub struct PageTableEntry(u64);

impl PageTableEntry {
    /// The raw 64-bit value.
    pub closed spec fn bits(self) -> u64 {
        self.0
    }

    /// The address bits of the entry.
    pub open spec fn spec_addr(self) -> u64 {
        self.bits() & ADDR_MASK
    }

    /// The flag bits of the entry.
    pub open spec fn spec_flags(self) -> u64 {
        self.bits() & FLAG_MASK
    }

    pub open spec fn spec_present(self) -> bool {
        self.spec_flags() & PRESENT != 0
    }

    pub open spec fn spec_huge(self) -> bool {
        self.spec_flags() & HUGE_PAGE != 0
    }

    /// An all-zero entry: absent, no address, no flags.
    pub fn empty() -> (r: PageTableEntry)
        ensures
            r.bits() == 0,
            !r.spec_present(),
            !r.spec_huge(),
    {
        proof {
            lemma_entry_masks(0, 0);
            assert(0u64 & 0x8000_0000_0000_0FFFu64 == 0 && 0u64 & 1 == 0 && 0u64 & 128 == 0)
                by (bit_vector);
        }
        PageTableEntry(0)
    }

    /// The value `new` builds from an address and flags.
    pub closed spec fn spec_new(addr: u64, flags: u64) -> PageTableEntry {
        PageTableEntry((addr & ADDR_MASK) | (flags & FLAG_MASK))
    }

    /// Build an entry from an address and flags, each masked to its legal
    /// bit range so the two can never overlap.
    pub fn new(addr: u64, flags: u64) -> (r: PageTableEntry)
        ensures
            r == Self::spec_new(addr, flags),
            r.bits() == (addr & ADDR_MASK) | (flags & FLAG_MASK),
            r.spec_addr() == addr & ADDR_MASK,
            r.spec_flags() == flags & FLAG_MASK,
            Self::spec_new(r.spec_addr(), r.spec_flags()) == r,
    {
        proof {
            lemma_entry_masks(addr, flags);
            Self::lemma_reconstruct(addr, flags);
        }
        PageTableEntry((addr & ADDR_MASK) | (flags & FLAG_MASK))
    }

    /// What a built entry's two halves read back as.
    pub proof fn lemma_spec_new_fields(addr: u64, flags: u64)
        ensures
            Self::spec_new(addr, flags).spec_addr() == addr & ADDR_MASK,
            Self::spec_new(addr, flags).spec_flags() == flags & FLAG_MASK,
    {
        lemma_entry_masks(addr, flags);
    }

    /// Flag bits outside the legal range never reach the entry: two flag
    /// words that agree on the legal bits build the same entry.
    pub proof fn lemma_spec_new_flags_congruent(addr: u64, f1: u64, f2: u64)
        requires
            f1 & FLAG_MASK == f2 & FLAG_MASK,
        ensures
            Self::spec_new(addr, f1) == Self::spec_new(addr, f2),
    {
    }

    /// A built entry is lossless: rebuilding it from its own address and
    /// flag bits gives the same entry, since the two ranges never overlap
    /// and the reserved bits of a built entry are clear.
    pub proof fn lemma_reconstruct(addr: u64, flags: u64)
        ensures
            ({
                let e = Self::spec_new(addr, flags);
                Self::spec_new(e.spec_addr(), e.spec_flags()) == e
            }),
    {
        lemma_entry_masks(addr, flags);
        lemma_entry_masks(addr & ADDR_MASK, flags & FLAG_MASK);
    }

    /// The physical address stored in the entry.
    pub fn addr(&self) -> (r: u64)
        ensures
            r == self.spec_addr(),
            r % 4096 == 0,
            r < 0x0010_0000_0000_0000u64,
    {
        proof {
            lemma_entry_masks(self.0, 0);
        }
        self.0 & ADDR_MASK
    }

    /// The flag bits stored in the entry.
    pub fn flags(&self) -> (r: u64)
        ensures
            r == self.spec_flags(),
    {
        self.0 & FLAG_MASK
    }

    /// Replace the address bits, keeping the flags.
    pub fn set_addr(&mut self, addr: u64)
        ensures
            final(self).spec_addr() == addr & ADDR_MASK,
            final(self).spec_flags() == old(self).spec_flags(),
    {
        let ghost b0: u64 = self.0;
        proof {
            lemma_entry_masks(addr, b0 & FLAG_MASK);
            assert((b0 & 0x8000_0000_0000_0FFFu64) & 0x8000_0000_0000_0FFFu64 == b0
                & 0x8000_0000_0000_0FFFu64) by (bit_vector);
        }
        self.0 = (self.0 & FLAG_MASK) | (addr & ADDR_MASK);
    }

    /// Replace the flag bits, keeping the address.
    pub fn set_flags(&mut self, flags: u64)
        ensures
            final(self).spec_addr() == old(self).spec_addr(),
            final(self).spec_flags() == flags & FLAG_MASK,
    {
        let ghost b0: u64 = self.0;
        proof {
            lemma_entry_masks(b0 & ADDR_MASK, flags);
            assert((b0 & 0x000F_FFFF_FFFF_F000u64) & 0x000F_FFFF_FFFF_F000u64 == b0
                & 0x000F_FFFF_FFFF_F000u64) by (bit_vector);
        }
        self.0 = (self.0 & ADDR_MASK) | (flags & FLAG_MASK);
    }

    pub fn is_present(&self) -> (r: bool)
        ensures
            r == self.spec_present(),
    {
        self.flags() & PRESENT != 0
    }

    pub fn is_writable(&self) -> (r: bool)
        ensures
            r == (self.spec_flags() & WRITABLE != 0),
    {
        self.flags() & WRITABLE != 0
    }

    pub fn is_user_accessible(&self) -> (r: bool)
        ensures
            r == (self.spec_flags() & USER_ACCESSIBLE != 0),
    {
        self.flags() & USER_ACCESSIBLE != 0
    }

    pub fn is_write_through(&self) -> (r: bool)
        ensures
            r == (self.spec_flags() & WRITE_THROUGH != 0),
    {
        self.flags() & WRITE_THROUGH != 0
    }

    pub fn is_cache_disabled(&self) -> (r: bool)
        ensures
            r == (self.spec_flags() & CACHE_DISABLE != 0),
    {
        self.flags() & CACHE_DISABLE != 0
    }

    pub fn is_accessed(&self) -> (r: bool)
        ensures
            r == (self.spec_flags() & ACCESSED != 0),
    {
        self.flags() & ACCESSED != 0
    }

    pub fn is_dirty(&self) -> (r: bool)
        ensures
            r == (self.spec_flags() & DIRTY != 0),
    {
        self.flags() & DIRTY != 0
    }

    pub fn is_huge_page(&self) -> (r: bool)
        ensures
            r == self.spec_huge(),
    {
        self.flags() & HUGE_PAGE != 0
    }

    pub fn is_global(&self) -> (r: bool)
        ensures
            r == (self.spec_flags() & GLOBAL != 0),
    {
        self.flags() & GLOBAL != 0
    }

    pub fn is_no_execute(&self) -> (r: bool)
        ensures
            r == (self.spec_flags() & NO_EXECUTE != 0),
    {
        self.flags() & NO_EXECUTE != 0
    }
}

/// One level of the page-table hierarchy: 512 entries.
#[derive(Debug)]
pub struct PageTable {
    pub entries: Vec<PageTableEntry>,
}

impl PageTable {
    /// Whether the table has its full complement of 512 entries.
    pub open spec fn wf(self) -> bool {
        self.entries@.len() == 512
    }

    /// A table of 512 absent entries.
    pub fn empty() -> (r: PageTable)
        ensures
            r.wf(),
            forall|j: int| 0 <= j < 512 ==> (#[trigger] r.entries@[j]).bits() == 0,
    {
        let e = PageTableEntry::empty();
        let entries: Vec<PageTableEntry> = vec![e; 512];
        PageTable { entries }
    }
}

/// The four 9-bit table indices and the 12-bit page offset that a virtual
/// address splits into.
#[derive(Debug, Clone, Copy, PartialEq, Eq, Structural)]
pub struct PageTableIndices {
    pub pml4: usize,
    pub pdpt: usize,
    pub pd: usize,
    pub pt: usize,
    pub offset: usize,
}

/// Index into the top-level table for a virtual address.
pub open spec fn idx4(va: u64) -> int {
    ((va >> 39) & 0x1ff) as int
}

/// Index into the third-level table.
pub open spec fn idx3(va: u64) -> int {
    ((va >> 30) & 0x1ff) as int
}

/// Index into the second-level table.
pub open spec fn idx2(va: u64) -> int {
    ((va >> 21) & 0x1ff) as int
}

/// Index into the leaf table.
pub open spec fn idx1(va: u64) -> int {
    ((va >> 12) & 0x1ff) as int
}

proof fn lemma_index_bounds(va: u64)
    by (bit_vector)
    ensures
        (va >> 39) & 0x1ff < 512,
        (va >> 30) & 0x1ff < 512,
        (va >> 21) & 0x1ff < 512,
        (va >> 12) & 0x1ff < 512,
        va & 0xfff < 4096,
        va & 0x3FFF_FFFF < 0x4000_0000,
        va & 0x1F_FFFF < 0x20_0000,
{
}

/// A virtual address, decomposable into table indices by fixed shifts and
/// masks; the decomposition is pure and has no side effects.
#[derive(Debug, Clone, Copy, PartialEq, Eq, Structural)]
pub struct VirtualAddress(pub u64);

impl VirtualAddress {
    /// Split the address into its four table indices and page offset.
    pub fn indices(&self) -> (r: PageTableIndices)
        ensures
            r.pml4 == idx4(self.0),
            r.pdpt == idx3(self.0),
            r.pd == idx2(self.0),
            r.pt == idx1(self.0),
            r.offset == self.0 & 0xfff,
            r.pml4 < 512 && r.pdpt < 512 && r.pd < 512 && r.pt < 512 && r.offset < 4096,
    {
        proof {
            lemma_index_bounds(self.0);
        }
        PageTableIndices {
            pml4: ((self.0 >> 39) & 0x1FF) as usize,
            pdpt: ((self.0 >> 30) & 0x1FF) as usize,
            pd: ((self.0 >> 21) & 0x1FF) as usize,
            pt: ((self.0 >> 12) & 0x1FF) as usize,
            offset: (self.0 & 0xFFF) as usize,
        }
    }
}


proof fn lemma_aligned_low_addr(v: u64)
    by (bit_vector)
    requires
        v < 0x1_0000_0000,
        v % 0x20_0000 == 0,
    ensures
        v & 0x000F_FFFF_FFFF_F000u64 == v,
{
}

proof fn lemma_low_decomp(va: u64)
    by (bit_vector)
    requires
        va < 0x1_0000_0000,
    ensures
        (va >> 39) & 0x1ff == 0,
        (va >> 30) & 0x1ff < 4,
        (((va >> 30) & 0x1ff) * 512 + ((va >> 21) & 0x1ff)) * 0x20_0000 + (va & 0x1F_FFFF) == va,
{
}

proof fn lemma_hh_decomp(va: u64)
    by (bit_vector)
    requires
        (va >> 39) & 0x1ff == 511,
        (va >> 30) & 0x1ff < 4,
    ensures
        (((va >> 30) & 0x1ff) * 512 + ((va >> 21) & 0x1ff)) * 0x20_0000 + (va & 0x1F_FFFF) == va
            & 0xFFFF_FFFFu64,
{
}

/// Ceiling on the number of tables the arena can hold: one per backing
/// frame below the physical ceiling, which no reachable configuration can
/// exceed.
pub const MAX_TABLES: usize = 0x100000;

/// The 36-bit virtual page number: what selects the leaf entry a virtual
/// address maps through. Two addresses with equal page numbers share one
/// mapping; the offset and the bits above the four indices do not take
/// part in the walk.
pub open spec fn vpn(va: u64) -> u64 {
    (va >> 12) & 0xF_FFFF_FFFFu64
}

proof fn lemma_vpn_indices(w: u64, v: u64)
    by (bit_vector)
    ensures
        ((w >> 12) & 0xF_FFFF_FFFFu64 == (v >> 12) & 0xF_FFFF_FFFFu64) <==> ((w >> 39) & 0x1ff == (
        v >> 39) & 0x1ff && (w >> 30) & 0x1ff == (v >> 30) & 0x1ff && (w >> 21) & 0x1ff == (v >> 21)
            & 0x1ff && (w >> 12) & 0x1ff == (v >> 12) & 0x1ff),
{
}

/// Why a page could not be mapped: the table level whose backing frame
/// could not be obtained from the frame allocator.
#[derive(Debug, Clone, Copy, PartialEq, Eq, Structural)]
pub enum MapError {
    PdptAllocFailed,
    PdAllocFailed,
    PtAllocFailed,
}

/// Why a page could not be unmapped: the first table level found absent
/// while walking down to the leaf.
#[derive(Debug, Clone, Copy, PartialEq, Eq, Structural)]
pub enum UnmapError {
    Pml4NotPresent,
    PdptNotPresent,
    PdNotPresent,
    PtNotPresent,
}

/// The page-table structure of an address space: an owned arena of tables,
/// slot 0 being the top-level table. A present, non-huge entry of a table
/// above the leaf level holds the arena slot of its child table, scaled by
/// the page size.
pub struct Mapper {
    tables: Vec<PageTable>,
    levels: Vec<u8>,
}

impl Mapper {
    /// Number of tables in the arena.
    pub closed spec fn table_count(self) -> int {
        self.tables@.len() as int
    }

    /// The hierarchy level of arena slot `t`: 4 for the top level down to
    /// 1 for the leaf level.
    pub closed spec fn level_of(self, t: int) -> int {
        self.levels@[t] as int
    }

    /// Entry `j` of the table in arena slot `t`.
    pub closed spec fn ent(self, t: int, j: int) -> PageTableEntry {
        self.tables@[t].entries@[j]
    }

    /// The arena slot a table-pointer entry refers to.
    pub open spec fn child_of(e: PageTableEntry) -> int {
        e.spec_addr() as int / 4096
    }

    /// Whether entry `j` of table `t` points at a lower-level table.
    pub closed spec fn is_child_ptr(self, t: int, j: int) -> bool {
        &&& 0 <= t < self.table_count()
        &&& 0 <= j < 512
        &&& self.level_of(t) >= 2
        &&& self.ent(t, j).spec_present()
        &&& !self.ent(t, j).spec_huge()
    }

    /// Structural soundness of the arena: slot 0 is the level-4 root,
    /// every table has 512 entries, every table pointer leads one level
    /// down to a valid slot, huge mappings sit only at the 1 GiB or 2 MiB
    /// levels, and no two entries claim the same child table.
    pub closed spec fn wf(self) -> bool {
        &&& 1 <= self.tables@.len() <= MAX_TABLES
        &&& self.levels@.len() == self.tables@.len()
        &&& self.level_of(0) == 4
        &&& forall|t: int| 0 <= t < self.table_count() ==> (#[trigger] self.tables@[t]).wf()
        &&& forall|t: int|
            0 <= t < self.table_count() ==> 1 <= #[trigger] self.level_of(t) <= 4
        &&& forall|t: int, j: int|
            self.is_child_ptr(t, j) ==> {
                let c = Self::child_of(#[trigger] self.ent(t, j));
                &&& 0 < c < self.table_count()
                &&& self.level_of(c) == self.level_of(t) - 1
                &&& self.ent(t, j).spec_addr() == c * 4096
            }
        &&& forall|t: int, j: int|
            0 <= t < self.table_count() && 0 <= j < 512 && (#[trigger] self.ent(t, j)).spec_present()
                && self.ent(t, j).spec_huge() ==> self.level_of(t) != 4
        &&& forall|t: int, j: int, t2: int, j2: int|
            self.is_child_ptr(t, j) && self.is_child_ptr(t2, j2) && Self::child_of(
                #[trigger] self.ent(t, j),
            ) == Self::child_of(#[trigger] self.ent(t2, j2)) ==> t == t2 && j == j2
    }

    /// The table the walk for `va` visits at level 3, behind the root
    /// entry. Meaningful only when that entry is a table pointer.
    pub closed spec fn t3_of(self, va: u64) -> int {
        Self::child_of(self.ent(0, idx4(va)))
    }

    pub closed spec fn t2_of(self, va: u64) -> int {
        Self::child_of(self.ent(self.t3_of(va), idx3(va)))
    }

    pub closed spec fn t1_of(self, va: u64) -> int {
        Self::child_of(self.ent(self.t2_of(va), idx2(va)))
    }

    /// The result of walking the tables for `va` read-only: the physical
    /// address it maps to, short-circuiting at a huge mapping at the 1 GiB
    /// or 2 MiB level, or nothing if any level on the way is absent.
    pub closed spec fn spec_translate(self, va: u64) -> Option<u64> {
        let e4 = self.ent(0, idx4(va));
        if !e4.spec_present() {
            Option::None
        } else {
            let e3 = self.ent(self.t3_of(va), idx3(va));
            if !e3.spec_present() {
                Option::None
            } else if e3.spec_huge() {
                Option::Some((e3.spec_addr() + (va & 0x3FFF_FFFFu64)) as u64)
            } else {
                let e2 = self.ent(self.t2_of(va), idx2(va));
                if !e2.spec_present() {
                    Option::None
                } else if e2.spec_huge() {
                    Option::Some((e2.spec_addr() + (va & 0x1F_FFFFu64)) as u64)
                } else {
                    let e1 = self.ent(self.t1_of(va), idx1(va));
                    if !e1.spec_present() {
                        Option::None
                    } else {
                        Option::Some((e1.spec_addr() + (va & 0xFFFu64)) as u64)
                    }
                }
            }
        }
    }

    /// The leaf entry the full four-level walk for `va` ends at, if every
    /// level on the way is present and none is huge.
    pub closed spec fn spec_leaf(self, va: u64) -> Option<PageTableEntry> {
        let e4 = self.ent(0, idx4(va));
        if !e4.spec_present() {
            Option::None
        } else {
            let e3 = self.ent(self.t3_of(va), idx3(va));
            if !e3.spec_present() || e3.spec_huge() {
                Option::None
            } else {
                let e2 = self.ent(self.t2_of(va), idx2(va));
                if !e2.spec_present() || e2.spec_huge() {
                    Option::None
                } else {
                    let e1 = self.ent(self.t1_of(va), idx1(va));
                    if e1.spec_present() {
                        Option::Some(e1)
                    } else {
                        Option::None
                    }
                }
            }
        }
    }

    /// Whether the walk for `va` runs into a huge mapping at the 1 GiB or
    /// 2 MiB level. `map_page` and `unmap_page` never split huge pages —
    /// those are installed only by the bootstrap initializer — so both
    /// demand a path clear of them.
    pub closed spec fn hits_huge(self, va: u64) -> bool {
        let e4 = self.ent(0, idx4(va));
        e4.spec_present() && {
            let e3 = self.ent(self.t3_of(va), idx3(va));
            (e3.spec_present() && e3.spec_huge()) || (e3.spec_present() && !e3.spec_huge() && {
                let e2 = self.ent(self.t2_of(va), idx2(va));
                e2.spec_present() && e2.spec_huge()
            })
        }
    }

    /// How many table levels the walk for `va` still lacks before a leaf
    /// entry for it exists: the tables `map_page` would have to create.
    pub closed spec fn missing_tables(self, va: u64) -> int {
        if !self.ent(0, idx4(va)).spec_present() {
            3
        } else if !self.ent(self.t3_of(va), idx3(va)).spec_present() {
            2
        } else if !self.ent(self.t2_of(va), idx2(va)).spec_present() {
            1
        } else {
            0
        }
    }


    /// Which allocation error `map_page` reports, given how many tables
    /// were missing and how many it managed to create before failing.
    pub open spec fn map_err_of(m: int, created: int) -> MapError {
        if m == 3 {
            if created == 0 {
                MapError::PdptAllocFailed
            } else if created == 1 {
                MapError::PdAllocFailed
            } else {
                MapError::PtAllocFailed
            }
        } else if m == 2 {
            if created == 0 {
                MapError::PdAllocFailed
            } else {
                MapError::PtAllocFailed
            }
        } else {
            MapError::PtAllocFailed
        }
    }

    /// What `map_page` does. Success comes exactly when every missing
    /// table level can be backed by a free frame and an arena slot; the
    /// virtual page then translates to the given frame, with every other
    /// page untouched. On failure the tables already created stay, but no
    /// translation anywhere changes.
    pub open spec fn map_page_spec(
        pre_m: Mapper,
        pre_fa: FrameAllocator,
        post_m: Mapper,
        post_fa: FrameAllocator,
        virt: u64,
        phys: u64,
        flags: u64,
        r: Result<(), MapError>,
    ) -> bool {
        let m = pre_m.missing_tables(virt);
        let cap = MAX_TABLES - pre_m.table_count();
        let budget = if pre_fa.num_free() <= cap {
            pre_fa.num_free()
        } else {
            cap
        };
        &&& post_m.wf()
        &&& post_fa.wf()
        &&& 0 <= m <= 3
        &&& post_fa.num_total() == pre_fa.num_total()
        &&& forall|q: int| #[trigger] post_fa.page_is_free(q) ==> pre_fa.page_is_free(q)
        &&& forall|w: u64| #[trigger] post_m.hits_huge(w) == pre_m.hits_huge(w)
        &&& (r is Ok <==> m <= budget)
        &&& match r {
            Result::Ok(_) => {
                &&& post_m.table_count() == pre_m.table_count() + m
                &&& post_fa.num_free() == pre_fa.num_free() - m
                &&& forall|w: u64|
                    vpn(w) == vpn(virt) ==> #[trigger] post_m.spec_translate(w) == Option::Some(
                        (((phys & ADDR_MASK) + (w & 0xFFFu64)) as u64),
                    )
                &&& forall|w: u64|
                    vpn(w) != vpn(virt) ==> #[trigger] post_m.spec_translate(w)
                        == pre_m.spec_translate(w)
                &&& forall|w: u64|
                    vpn(w) != vpn(virt) ==> #[trigger] post_m.spec_leaf(w) == pre_m.spec_leaf(w)
                &&& post_m.spec_leaf(virt) == Option::Some(
                    PageTableEntry::spec_new(phys, flags | PRESENT),
                )
            },
            Result::Err(err) => {
                &&& err == Self::map_err_of(m, budget)
                &&& post_m.table_count() == pre_m.table_count() + budget
                &&& post_fa.num_free() == pre_fa.num_free() - budget
                &&& forall|w: u64|
                    #[trigger] post_m.spec_translate(w) == pre_m.spec_translate(w)
                &&& forall|w: u64| #[trigger] post_m.spec_leaf(w) == pre_m.spec_leaf(w)
            },
        }
    }

    /// An address space with a single empty top-level table: nothing
    /// mapped anywhere.
    pub fn new() -> (r: Mapper)
        ensures
            r.wf(),
            r.table_count() == 1,
            forall|w: u64| #[trigger] r.spec_translate(w) is None,
            forall|w: u64| !(#[trigger] r.hits_huge(w)),
            forall|w: u64| #[trigger] r.missing_tables(w) == 3,
    {
        let mut tables: Vec<PageTable> = Vec::new();
        tables.push(PageTable::empty());
        let mut levels: Vec<u8> = Vec::new();
        levels.push(4u8);
        let r = Mapper { tables, levels };
        proof {
            assert forall|j: int| 0 <= j < 512 implies !(#[trigger] r.ent(0, j)).spec_present() by {
                assert(r.ent(0, j).bits() == 0);
                assert(0u64 & 0x8000_0000_0000_0FFFu64 == 0 && 0u64 & 1 == 0) by (bit_vector);
            }
            assert forall|w: u64| #[trigger] r.spec_translate(w) is None by {
                lemma_index_bounds(w);
                assert(!r.ent(0, idx4(w)).spec_present());
            }
            assert forall|w: u64| !(#[trigger] r.hits_huge(w)) by {
                lemma_index_bounds(w);
                assert(!r.ent(0, idx4(w)).spec_present());
            }
            assert forall|w: u64| #[trigger] r.missing_tables(w) == 3 by {
                lemma_index_bounds(w);
                assert(!r.ent(0, idx4(w)).spec_present());
            }
        }
        r
    }

    /// Walk the tables for `virt` without changing them and return the
    /// physical address it maps to, or nothing if the address is unmapped.
    pub fn translate(&self, virt: u64) -> (r: Option<u64>)
        requires
            self.wf(),
        ensures
            r == self.spec_translate(virt),
    {
        let i = VirtualAddress(virt).indices();
        proof {
            lemma_index_bounds(virt);
            assert(self.tables@[0].wf());
        }
        let e4 = self.tables[0].entries[i.pml4];
        proof {
            assert(e4 == self.ent(0, idx4(virt)));
        }
        if !e4.is_present() {
            return None;
        }
        proof {
            assert(self.is_child_ptr(0, idx4(virt)));
        }
        let t3: usize = (e4.addr() / (PAGE_SIZE as u64)) as usize;
        proof {
            assert(t3 as int == self.t3_of(virt));
            assert(self.tables@[t3 as int].wf());
        }
        let e3 = self.tables[t3].entries[i.pdpt];
        proof {
            assert(e3 == self.ent(self.t3_of(virt), idx3(virt)));
        }
        if !e3.is_present() {
            return None;
        }
        if e3.is_huge_page() {
            // A 1 GiB mapping: the low 30 bits of the address select the
            // byte inside it.
            return Some(e3.addr() + (virt & 0x3FFF_FFFF));
        }
        proof {
            assert(self.is_child_ptr(self.t3_of(virt), idx3(virt)));
        }
        let t2: usize = (e3.addr() / (PAGE_SIZE as u64)) as usize;
        proof {
            assert(t2 as int == self.t2_of(virt));
            assert(self.tables@[t2 as int].wf());
        }
        let e2 = self.tables[t2].entries[i.pd];
        proof {
            assert(e2 == self.ent(self.t2_of(virt), idx2(virt)));
        }
        if !e2.is_present() {
            return None;
        }
        if e2.is_huge_page() {
            // A 2 MiB mapping: the low 21 bits select the byte inside it.
            return Some(e2.addr() + (virt & 0x1F_FFFF));
        }
        proof {
            assert(self.is_child_ptr(self.t2_of(virt), idx2(virt)));
        }
        let t1: usize = (e2.addr() / (PAGE_SIZE as u64)) as usize;
        proof {
            assert(t1 as int == self.t1_of(virt));
            assert(self.tables@[t1 as int].wf());
        }
        let e1 = self.tables[t1].entries[i.pt];
        proof {
            assert(e1 == self.ent(self.t1_of(virt), idx1(virt)));
        }
        if !e1.is_present() {
            return None;
        }
        Some(e1.addr() + (i.offset as u64))
    }

    /// Append a fresh, empty table one level below `parent` and install a
    /// present + writable pointer to it in entry `slot` of `parent`. The
    /// new table maps nothing, so every translation reads exactly as
    /// before.
    fn create_child(&mut self, parent: usize, slot: usize) -> (child: usize)
        requires
            old(self).wf(),
            old(self).table_count() < MAX_TABLES,
            parent < old(self).table_count(),
            slot < 512,
            old(self).level_of(parent as int) >= 2,
            !old(self).ent(parent as int, slot as int).spec_present(),
        ensures
            final(self).wf(),
            child == old(self).table_count(),
            final(self).table_count() == old(self).table_count() + 1,
            final(self).level_of(child as int) == old(self).level_of(parent as int) - 1,
            forall|t: int|
                0 <= t < old(self).table_count() ==> #[trigger] final(self).level_of(t) == old(
                    self,
                ).level_of(t),
            final(self).ent(parent as int, slot as int).spec_present(),
            !final(self).ent(parent as int, slot as int).spec_huge(),
            Mapper::child_of(final(self).ent(parent as int, slot as int)) == child,
            forall|t: int, j: int|
                0 <= t < old(self).table_count() && 0 <= j < 512 && !(t == parent && j == slot)
                    ==> #[trigger] final(self).ent(t, j) == old(self).ent(t, j),
            forall|j: int|
                0 <= j < 512 ==> !(#[trigger] final(self).ent(child as int, j)).spec_present(),
            forall|w: u64| #[trigger] final(self).spec_translate(w) == old(self).spec_translate(w),
            forall|w: u64| #[trigger] final(self).hits_huge(w) == old(self).hits_huge(w),
            forall|w: u64| #[trigger] final(self).spec_leaf(w) == old(self).spec_leaf(w),
    {
        let ghost pre = *old(self);
        let child: usize = self.tables.len();
        let parent_level: u8 = self.levels[parent];
        proof {
            assert(1 <= parent_level <= 4);
        }
        self.tables.push(PageTable::empty());
        self.levels.push(parent_level - 1);
        let handle: u64 = (child as u64) << 12u64;
        proof {
            lemma_table_handle(child as u64);
            assert(1u64 | 2u64 == 3 && 3u64 & 0x8000_0000_0000_0FFFu64 == 3 && 3u64 & 1 == 1
                && 3u64 & 128 == 0) by (bit_vector);
        }
        let e = PageTableEntry::new(handle, PRESENT | WRITABLE);
        self.tables[parent].entries[slot] = e;
        proof {
            let post = *self;
            let pl = pre.level_of(parent as int);
            let c = child as int;
            assert(e.spec_addr() == handle);
            assert(handle == c * 4096);
            assert(c * 4096 / 4096 == c) by (nonlinear_arith)
                requires
                    c >= 0,
            ;
            assert(Mapper::child_of(e) == c);
            assert(e.spec_flags() == 3);
            assert(e.spec_present() && !e.spec_huge());
            // every old entry except (parent, slot) is unchanged
            assert forall|t: int, j: int|
                0 <= t < pre.table_count() && 0 <= j < 512 && !(t == parent && j == slot)
                    implies #[trigger] post.ent(t, j) == pre.ent(t, j) by {
                assert(pre.tables@[t].wf());
            }
            assert forall|j: int| 0 <= j < 512 implies !(#[trigger] post.ent(c, j)).spec_present()
                && !post.ent(c, j).spec_huge() by {
                assert(post.ent(c, j).bits() == 0);
                assert(0u64 & 0x8000_0000_0000_0FFFu64 == 0 && 0u64 & 1 == 0 && 0u64 & 128 == 0)
                    by (bit_vector);
            }
            assert(post.ent(parent as int, slot as int) == e);
            // well-formedness of the grown arena
            assert(post.levels@ == pre.levels@.push((pl - 1) as u8));
            assert(post.level_of(0) == 4);
            assert forall|t: int| 0 <= t < post.table_count() implies 1 <= #[trigger] post.level_of(
                t,
            ) <= 4 by {
                if t < pre.table_count() {
                    assert(post.level_of(t) == pre.level_of(t));
                } else {
                    assert(post.level_of(t) == pl - 1);
                }
            }
            assert forall|t: int| 0 <= t < pre.table_count() implies #[trigger] post.level_of(t)
                == pre.level_of(t) by {}
            assert forall|t: int| 0 <= t < post.table_count() implies (
            #[trigger] post.tables@[t]).wf() by {
                if t < pre.table_count() {
                    assert(pre.tables@[t].wf());
                }
            }
            assert forall|t: int, j: int| post.is_child_ptr(t, j) implies {
                let cc = Mapper::child_of(#[trigger] post.ent(t, j));
                &&& 0 < cc < post.table_count()
                &&& post.level_of(cc) == post.level_of(t) - 1
                &&& post.ent(t, j).spec_addr() == cc * 4096
            } by {
                if t == parent as int && j == slot as int {
                    assert(Mapper::child_of(post.ent(t, j)) == c);
                    assert(handle == c * 4096);
                } else if t < pre.table_count() {
                    assert(post.ent(t, j) == pre.ent(t, j));
                    assert(pre.is_child_ptr(t, j));
                }
            }
            assert forall|t: int, j: int|
                0 <= t < post.table_count() && 0 <= j < 512 && (
                #[trigger] post.ent(t, j)).spec_present() && post.ent(t, j).spec_huge()
                    implies post.level_of(t) != 4 by {
                if !(t == parent as int && j == slot as int) && t < pre.table_count() {
                    assert(post.ent(t, j) == pre.ent(t, j));
                }
            }
            assert forall|t: int, j: int, t2: int, j2: int|
                post.is_child_ptr(t, j) && post.is_child_ptr(t2, j2) && Mapper::child_of(
                    #[trigger] post.ent(t, j),
                ) == Mapper::child_of(#[trigger] post.ent(t2, j2)) implies t == t2 && j == j2 by {
                if t == parent as int && j == slot as int {
                    if !(t2 == parent as int && j2 == slot as int) {
                        assert(post.ent(t2, j2) == pre.ent(t2, j2));
                        assert(pre.is_child_ptr(t2, j2));
                        assert(Mapper::child_of(pre.ent(t2, j2)) < pre.table_count());
                    }
                } else {
                    assert(post.ent(t, j) == pre.ent(t, j));
                    assert(pre.is_child_ptr(t, j));
                    if t2 == parent as int && j2 == slot as int {
                        assert(Mapper::child_of(pre.ent(t, j)) < pre.table_count());
                    } else {
                        assert(post.ent(t2, j2) == pre.ent(t2, j2));
                        assert(pre.is_child_ptr(t2, j2));
                    }
                }
            }
            assert(post.wf());
            // translations, huge hits and leaves all read as before
            assert forall|w: u64| #![trigger post.spec_translate(w)]
                post.spec_translate(w) == pre.spec_translate(w) && post.hits_huge(w)
                    == pre.hits_huge(w) && post.spec_leaf(w) == pre.spec_leaf(w) by {
                lemma_index_bounds(w);
                let i4 = idx4(w);
                let i3 = idx3(w);
                let i2 = idx2(w);
                let i1 = idx1(w);
                if parent as int == 0 && slot as int == i4 {
                    assert(!pre.ent(0, i4).spec_present());
                    assert(post.ent(0, i4) == e);
                    assert(post.t3_of(w) == c);
                    assert(!post.ent(c, i3).spec_present());
                } else {
                    assert(post.ent(0, i4) == pre.ent(0, i4));
                    if pre.ent(0, i4).spec_present() {
                        assert(pre.is_child_ptr(0, i4));
                        let t3 = pre.t3_of(w);
                        assert(post.t3_of(w) == t3);
                        assert(0 < t3 < pre.table_count());
                        if parent as int == t3 && slot as int == i3 {
                            assert(!pre.ent(t3, i3).spec_present());
                            assert(post.ent(t3, i3) == e);
                            assert(post.t2_of(w) == c);
                            assert(!post.ent(c, i2).spec_present());
                        } else {
                            assert(post.ent(t3, i3) == pre.ent(t3, i3));
                            if pre.ent(t3, i3).spec_present() && !pre.ent(t3, i3).spec_huge() {
                                assert(pre.is_child_ptr(t3, i3));
                                let t2 = pre.t2_of(w);
                                assert(post.t2_of(w) == t2);
                                assert(0 < t2 < pre.table_count());
                                if parent as int == t2 && slot as int == i2 {
                                    assert(!pre.ent(t2, i2).spec_present());
                                    assert(post.ent(t2, i2) == e);
                                    assert(post.t1_of(w) == c);
                                    assert(!post.ent(c, i1).spec_present());
                                } else {
                                    assert(post.ent(t2, i2) == pre.ent(t2, i2));
                                    if pre.ent(t2, i2).spec_present() && !pre.ent(
                                        t2,
                                        i2,
                                    ).spec_huge() {
                                        assert(pre.is_child_ptr(t2, i2));
                                        let t1 = pre.t1_of(w);
                                        assert(post.t1_of(w) == t1);
                                        assert(0 < t1 < pre.table_count());
                                        assert(pre.level_of(t1) == 1);
                                        assert(!(parent as int == t1 && slot as int == i1));
                                        assert(post.ent(t1, i1) == pre.ent(t1, i1));
                                    }
                                }
                            }
                        }
                    }
                }
                assert(post.spec_translate(w) == pre.spec_translate(w));
                assert(post.hits_huge(w) == pre.hits_huge(w));
                assert(post.spec_leaf(w) == pre.spec_leaf(w));
            }
            assert forall|w: u64| #[trigger] post.spec_translate(w) == pre.spec_translate(w) by {
                assert(post.spec_translate(w) == pre.spec_translate(w) && post.hits_huge(w)
                    == pre.hits_huge(w) && post.spec_leaf(w) == pre.spec_leaf(w));
            }
            assert forall|w: u64| #[trigger] post.hits_huge(w) == pre.hits_huge(w) by {
                assert(post.spec_translate(w) == pre.spec_translate(w) && post.hits_huge(w)
                    == pre.hits_huge(w) && post.spec_leaf(w) == pre.spec_leaf(w));
            }
            assert forall|w: u64| #[trigger] post.spec_leaf(w) == pre.spec_leaf(w) by {
                assert(post.spec_translate(w) == pre.spec_translate(w) && post.hits_huge(w)
                    == pre.hits_huge(w) && post.spec_leaf(w) == pre.spec_leaf(w));
            }
        }
        child
    }

    /// Walk one level down from entry `j` of table `t`, creating the child
    /// table if the entry is absent. Creation consumes one frame from the
    /// allocator; failure to obtain one, or a full arena, is reported
    /// without any other change.
    fn ensure_child(&mut self, fa: &mut FrameAllocator, t: usize, j: usize) -> (r: Result<
        usize,
        (),
    >)
        requires
            old(self).wf(),
            old(fa).wf(),
            t < old(self).table_count(),
            j < 512,
            old(self).level_of(t as int) >= 2,
            old(self).ent(t as int, j as int).spec_present() ==> !old(self).ent(
                t as int,
                j as int,
            ).spec_huge(),
        ensures
            final(self).wf(),
            final(fa).wf(),
            final(fa).num_total() == old(fa).num_total(),
            forall|q: int| #[trigger] final(fa).page_is_free(q) ==> old(fa).page_is_free(q),
            forall|w: u64|
                #[trigger] final(self).spec_translate(w) == old(self).spec_translate(w),
            forall|w: u64| #[trigger] final(self).hits_huge(w) == old(self).hits_huge(w),
            forall|w: u64| #[trigger] final(self).spec_leaf(w) == old(self).spec_leaf(w),
            forall|tt: int|
                0 <= tt < old(self).table_count() ==> #[trigger] final(self).level_of(tt) == old(
                    self,
                ).level_of(tt),
            match r {
                Result::Ok(c) => {
                    &&& c < final(self).table_count()
                    &&& final(self).ent(t as int, j as int).spec_present()
                    &&& !final(self).ent(t as int, j as int).spec_huge()
                    &&& Mapper::child_of(final(self).ent(t as int, j as int)) == c as int
                    &&& final(self).level_of(c as int) == old(self).level_of(t as int) - 1
                    &&& if old(self).ent(t as int, j as int).spec_present() {
                        &&& *final(self) == *old(self)
                        &&& *final(fa) == *old(fa)
                    } else {
                        &&& final(self).table_count() == old(self).table_count() + 1
                        &&& final(fa).num_free() == old(fa).num_free() - 1
                        &&& c as int == old(self).table_count()
                        &&& old(fa).num_free() > 0
                        &&& old(self).table_count() < MAX_TABLES
                        &&& forall|jj: int|
                            0 <= jj < 512 ==> !(#[trigger] final(self).ent(
                                c as int,
                                jj,
                            )).spec_present()
                        &&& forall|t2: int, j2: int|
                            0 <= t2 < old(self).table_count() && 0 <= j2 < 512 && !(t2 == t as int
                                && j2 == j as int) ==> #[trigger] final(self).ent(t2, j2) == old(
                                self,
                            ).ent(t2, j2)
                    }
                },
                Result::Err(()) => {
                    &&& !old(self).ent(t as int, j as int).spec_present()
                    &&& (old(fa).num_free() == 0 || old(self).table_count() == MAX_TABLES)
                    &&& *final(self) == *old(self)
                    &&& *final(fa) == *old(fa)
                },
            },
    {
        proof {
            assert(self.tables@[t as int].wf());
        }
        let e = self.tables[t].entries[j];
        proof {
            assert(e == self.ent(t as int, j as int));
        }
        if e.is_present() {
            proof {
                assert(self.is_child_ptr(t as int, j as int));
            }
            let c: usize = (e.addr() / (PAGE_SIZE as u64)) as usize;
            proof {
                assert(c as int == Mapper::child_of(self.ent(t as int, j as int)));
                assert((c as int) < self.table_count());
            }
            return Ok(c);
        }
        if self.tables.len() >= MAX_TABLES {
            return Err(());
        }
        match fa.allocate() {
            None => Err(()),
            Some(_table_frame) => {
                // The frame now backs the new table level; the arena slot
                // stands for it in the parent entry.
                let c = self.create_child(t, j);
                proof {
                    assert(Mapper::child_of(self.ent(t as int, j as int)) == c as int);
                    assert forall|q: int| #[trigger] fa.page_is_free(q) implies old(
                        fa,
                    ).page_is_free(q) by {
                        let p = _table_frame as int / (PAGE_SIZE as int);
                        if q != p {
                            assert(fa.page_is_free(q) == old(fa).page_is_free(q));
                        } else {
                            assert(!fa.page_is_free(p));
                        }
                    }
                }
                Ok(c)
            },
        }
    }

    /// Map the page holding `virt` to the frame holding `phys`, creating
    /// any missing table levels from the frame allocator; the present bit
    /// is always forced on. Fails, keeping whatever tables it could
    /// already create, only when a needed table cannot be backed by a
    /// frame.
    #[verifier::rlimit(100)]
    pub fn map_page(&mut self, fa: &mut FrameAllocator, virt: u64, phys: u64, flags: u64) -> (r:
        Result<(), MapError>)
        requires
            old(self).wf(),
            old(fa).wf(),
            !old(self).hits_huge(virt),
        ensures
            Self::map_page_spec(
                *old(self),
                *old(fa),
                *final(self),
                *final(fa),
                virt,
                phys,
                flags,
                r,
            ),
    {
        let ghost pre_m = *old(self);
        let ghost pre_fa = *old(fa);
        let ghost m = pre_m.missing_tables(virt);
        let i = VirtualAddress(virt).indices();
        let ghost v4 = idx4(virt);
        let ghost v3 = idx3(virt);
        let ghost v2 = idx2(virt);
        let ghost v1 = idx1(virt);
        proof {
            lemma_index_bounds(virt);
            pre_fa.lemma_counts_nonneg();
            assert(pre_m.ent(0, v4).spec_present() ==> !pre_m.ent(0, v4).spec_huge());
        }
        // Level 4: the root entry.
        let t3 = match self.ensure_child(fa, 0, i.pml4) {
            Ok(c) => c,
            Err(()) => {
                proof {
                    assert(m == 3);
                }
                return Err(MapError::PdptAllocFailed);
            },
        };
        let ghost m1 = *self;
        let ghost fa1 = *fa;
        let ghost c1 = !pre_m.ent(0, v4).spec_present();
        proof {
            assert(m1.level_of(t3 as int) == 3);
            assert(m1.ent(0, v4).spec_present());
            assert(Mapper::child_of(m1.ent(0, v4)) == t3 as int);
            if !c1 {
                assert(m1.ent(t3 as int, v3) == pre_m.ent(t3 as int, v3));
                assert(pre_m.t3_of(virt) == t3 as int);
                if pre_m.ent(t3 as int, v3).spec_present() {
                    assert(!pre_m.hits_huge(virt));
                    assert(!m1.ent(t3 as int, v3).spec_huge());
                }
            } else {
                assert(!m1.ent(t3 as int, v3).spec_present());
            }
        }
        // Level 3.
        let t2 = match self.ensure_child(fa, t3, i.pdpt) {
            Ok(c) => c,
            Err(()) => {
                proof {
                    if c1 {
                        assert(m == 3);
                        assert(fa1.num_free() == pre_fa.num_free() - 1);
                        assert(m1.table_count() == pre_m.table_count() + 1);
                        assert(pre_fa.num_free() >= 1);
                        assert(pre_m.table_count() + 1 <= MAX_TABLES);
                        assert(fa1.num_free() == 0 || m1.table_count() == MAX_TABLES);
                    } else {
                        assert(m == 2);
                        assert(m1 == pre_m && fa1 == pre_fa);
                    }
                    assert forall|w: u64|
                        #[trigger] self.spec_translate(w) == pre_m.spec_translate(w) by {
                        assert(self.spec_translate(w) == m1.spec_translate(w));
                        assert(m1.spec_translate(w) == pre_m.spec_translate(w));
                    }
                    assert forall|w: u64| #[trigger] self.hits_huge(w) == pre_m.hits_huge(w) by {
                        assert(self.hits_huge(w) == m1.hits_huge(w));
                        assert(m1.hits_huge(w) == pre_m.hits_huge(w));
                    }
                    assert forall|w: u64| #[trigger] self.spec_leaf(w) == pre_m.spec_leaf(w) by {
                        assert(self.spec_leaf(w) == m1.spec_leaf(w));
                        assert(m1.spec_leaf(w) == pre_m.spec_leaf(w));
                    }
                    assert forall|q: int| #[trigger] fa.page_is_free(q) implies pre_fa.page_is_free(
                        q,
                    ) by {
                        assert(fa1.page_is_free(q) ==> pre_fa.page_is_free(q));
                    }
                }
                return Err(MapError::PdAllocFailed);
            },
        };
        let ghost m2 = *self;
        let ghost fa2 = *fa;
        let ghost c2 = !m1.ent(t3 as int, v3).spec_present();
        proof {
            assert(m2.level_of(t2 as int) == 2);
            assert(m2.ent(t3 as int, v3).spec_present());
            assert(!m2.ent(t3 as int, v3).spec_huge());
            assert(Mapper::child_of(m2.ent(t3 as int, v3)) == t2 as int);
            // the root entry survives the second step: its table is not t3
            assert(m2.ent(0, v4) == m1.ent(0, v4));
            if !c2 {
                assert(m2.ent(t2 as int, v2) == m1.ent(t2 as int, v2));
                if !c1 {
                    assert(pre_m.t2_of(virt) == t2 as int);
                    if pre_m.ent(t2 as int, v2).spec_present() {
                        assert(!pre_m.hits_huge(virt));
                        assert(!m2.ent(t2 as int, v2).spec_huge());
                    }
                }
            } else {
                assert(!m2.ent(t2 as int, v2).spec_present());
            }
            if c1 {
                // a fresh level-3 table has no entries, so its slot was
                // created in the second step as well
                assert(c2);
            }
        }
        // Level 2.
        let t1 = match self.ensure_child(fa, t2, i.pd) {
            Ok(c) => c,
            Err(()) => {
                proof {
                    let created = if c1 {
                        2int
                    } else if c2 {
                        1int
                    } else {
                        0int
                    };
                    if c1 {
                        assert(m == 3);
                    } else if c2 {
                        assert(m == 2);
                    } else {
                        assert(m == 1);
                    }
                    assert(fa2.num_free() == pre_fa.num_free() - created);
                    assert(m2.table_count() == pre_m.table_count() + created);
                    assert(fa2.num_free() == 0 || m2.table_count() == MAX_TABLES);
                    if c1 {
                        assert(fa1.num_free() > 0);
                        assert(pre_fa.num_free() >= 2);
                        assert(m1.table_count() < MAX_TABLES);
                    } else if c2 {
                        assert(pre_fa.num_free() >= 1);
                        assert(pre_m.table_count() < MAX_TABLES);
                    }
                    assert forall|w: u64|
                        #[trigger] self.spec_translate(w) == pre_m.spec_translate(w) by {
                        assert(self.spec_translate(w) == m2.spec_translate(w));
                        assert(m2.spec_translate(w) == m1.spec_translate(w));
                        assert(m1.spec_translate(w) == pre_m.spec_translate(w));
                    }
                    assert forall|w: u64| #[trigger] self.hits_huge(w) == pre_m.hits_huge(w) by {
                        assert(self.hits_huge(w) == m2.hits_huge(w));
                        assert(m2.hits_huge(w) == m1.hits_huge(w));
                        assert(m1.hits_huge(w) == pre_m.hits_huge(w));
                    }
                    assert forall|w: u64| #[trigger] self.spec_leaf(w) == pre_m.spec_leaf(w) by {
                        assert(self.spec_leaf(w) == m2.spec_leaf(w));
                        assert(m2.spec_leaf(w) == m1.spec_leaf(w));
                        assert(m1.spec_leaf(w) == pre_m.spec_leaf(w));
                    }
                    assert forall|q: int| #[trigger] fa.page_is_free(q) implies pre_fa.page_is_free(
                        q,
                    ) by {
                        assert(fa2.page_is_free(q) ==> fa1.page_is_free(q));
                        assert(fa1.page_is_free(q) ==> pre_fa.page_is_free(q));
                    }
                }
                return Err(MapError::PtAllocFailed);
            },
        };
        let ghost m3 = *self;
        let ghost fa3 = *fa;
        let ghost c3 = !m2.ent(t2 as int, v2).spec_present();
        proof {
            assert(m3.level_of(t1 as int) == 1);
            assert(m3.ent(t2 as int, v2).spec_present());
            assert(!m3.ent(t2 as int, v2).spec_huge());
            assert(Mapper::child_of(m3.ent(t2 as int, v2)) == t1 as int);
            assert(m3.ent(0, v4) == m2.ent(0, v4));
            assert(m3.ent(t3 as int, v3) == m2.ent(t3 as int, v3));
            if c2 {
                assert(c3);
            }
            assert(m3.tables@[t1 as int].wf());
            assert(m3.t3_of(virt) == t3 as int);
            assert(m3.t2_of(virt) == t2 as int);
            assert(m3.t1_of(virt) == t1 as int);
        }
        // Level 1: install the leaf mapping itself.
        let e1 = PageTableEntry::new(phys, flags | PRESENT);
        proof {
            assert forall|f: u64| ((f | 1u64) & 0x8000_0000_0000_0FFFu64) & 1 == 1 by {
                assert(((f | 1u64) & 0x8000_0000_0000_0FFFu64) & 1 == 1) by (bit_vector);
            }
            assert(e1.spec_present());
        }
        self.tables[t1].entries[i.pt] = e1;
        proof {
            let post = *self;
            assert(post.table_count() == m3.table_count());
            assert(post.levels@ == m3.levels@);
            assert(post.ent(t1 as int, v1) == e1);
            assert forall|tt: int, jj: int|
                0 <= tt < m3.table_count() && 0 <= jj < 512 && !(tt == t1 as int && jj == v1)
                    implies #[trigger] post.ent(tt, jj) == m3.ent(tt, jj) by {
                assert(m3.tables@[tt].wf());
            }
            assert forall|tt: int| 0 <= tt < post.table_count() implies (
            #[trigger] post.tables@[tt]).wf() by {
                assert(m3.tables@[tt].wf());
            }
            Self::lemma_leaf_write(m3, post, virt, e1);
            // bookkeeping: how many tables this call created
            let created = if c1 {
                3int
            } else if c2 {
                2int
            } else if c3 {
                1int
            } else {
                0int
            };
            if c1 {
                assert(m == 3);
            } else if c2 {
                assert(m == 2);
            } else if c3 {
                assert(m == 1);
            } else {
                assert(m == 0);
            }
            assert(m == created);
            assert(m3.table_count() == pre_m.table_count() + created);
            assert(fa3.num_free() == pre_fa.num_free() - created);
            // the budget covered every creation
            if c1 {
                assert(fa2.num_free() == pre_fa.num_free() - 2);
                assert(fa2.num_free() > 0);
                assert(m2.table_count() == pre_m.table_count() + 2);
                assert(m2.table_count() < MAX_TABLES);
            } else if c2 {
                assert(fa1 == pre_fa && m1 == pre_m);
                assert(fa2.num_free() == pre_fa.num_free() - 1);
                assert(fa1.num_free() > 0);
                assert(m1.table_count() < MAX_TABLES);
                if c3 {
                    assert(fa2.num_free() > 0);
                    assert(pre_fa.num_free() >= 2);
                    assert(m2.table_count() < MAX_TABLES);
                    assert(pre_m.table_count() + 2 <= MAX_TABLES);
                } else {
                    assert(pre_fa.num_free() >= 1);
                    assert(pre_m.table_count() + 1 <= MAX_TABLES);
                }
            } else if c3 {
                assert(fa2.num_free() > 0);
                assert(fa2 == pre_fa);
                assert(m2.table_count() < MAX_TABLES);
            }
            // chain the preservation facts back to the initial state
            assert forall|w: u64|
                vpn(w) != vpn(virt) implies #[trigger] post.spec_translate(w)
                    == pre_m.spec_translate(w) by {
                assert(post.spec_translate(w) == m3.spec_translate(w));
                assert(m3.spec_translate(w) == m2.spec_translate(w));
                assert(m2.spec_translate(w) == m1.spec_translate(w));
                assert(m1.spec_translate(w) == pre_m.spec_translate(w));
            }
            assert forall|w: u64|
                vpn(w) == vpn(virt) implies #[trigger] post.spec_translate(w) == Option::Some(
                (((phys & ADDR_MASK) + (w & 0xFFFu64)) as u64)) by {
                assert(post.spec_translate(w) == (if e1.spec_present() {
                    Option::Some((e1.spec_addr() + (w & 0xFFFu64)) as u64)
                } else {
                    Option::None
                }));
            }
            assert forall|w: u64| #[trigger] post.hits_huge(w) == pre_m.hits_huge(w) by {
                assert(post.hits_huge(w) == m3.hits_huge(w));
                assert(m3.hits_huge(w) == m2.hits_huge(w));
                assert(m2.hits_huge(w) == m1.hits_huge(w));
                assert(m1.hits_huge(w) == pre_m.hits_huge(w));
            }
            assert forall|w: u64|
                vpn(w) != vpn(virt) implies #[trigger] post.spec_leaf(w) == pre_m.spec_leaf(w) by {
                assert(post.spec_leaf(w) == m3.spec_leaf(w));
                assert(m3.spec_leaf(w) == m2.spec_leaf(w));
                assert(m2.spec_leaf(w) == m1.spec_leaf(w));
                assert(m1.spec_leaf(w) == pre_m.spec_leaf(w));
            }
            assert forall|q: int| #[trigger] fa3.page_is_free(q) implies pre_fa.page_is_free(
                q,
            ) by {
                assert(fa3.page_is_free(q) ==> fa2.page_is_free(q));
                assert(fa2.page_is_free(q) ==> fa1.page_is_free(q));
                assert(fa1.page_is_free(q) ==> pre_fa.page_is_free(q));
            }
            assert(post.spec_leaf(virt) == Option::Some(e1));
            assert(e1 == PageTableEntry::spec_new(phys, flags | PRESENT));
        }
        Ok(())
    }


    /// Which error `unmap_page` reports for an unmapped address: the first
    /// table level found absent on the way down.
    pub open spec fn unmap_err_of(pre: Mapper, virt: u64) -> UnmapError {
        if pre.missing_tables(virt) == 3 {
            UnmapError::Pml4NotPresent
        } else if pre.missing_tables(virt) == 2 {
            UnmapError::PdptNotPresent
        } else if pre.missing_tables(virt) == 1 {
            UnmapError::PdNotPresent
        } else {
            UnmapError::PtNotPresent
        }
    }

    /// What `unmap_page` does: if and only if the address has a leaf
    /// mapping, that mapping is cleared and its physical address returned,
    /// with every other page untouched and no table reclaimed; an
    /// unmapped address is reported as the level at which the walk ended.
    pub open spec fn unmap_page_spec(pre: Mapper, post: Mapper, virt: u64, r: Result<
        u64,
        UnmapError,
    >) -> bool {
        &&& post.wf()
        &&& post.table_count() == pre.table_count()
        &&& forall|w: u64| #[trigger] post.hits_huge(w) == pre.hits_huge(w)
        &&& (r is Ok <==> pre.spec_leaf(virt) is Some)
        &&& match r {
            Result::Ok(phys) => {
                &&& pre.spec_leaf(virt) matches Option::Some(e) && phys == e.spec_addr()
                &&& post.spec_leaf(virt) is None
                &&& forall|w: u64|
                    vpn(w) == vpn(virt) ==> #[trigger] post.spec_translate(w) is None
                &&& forall|w: u64|
                    vpn(w) != vpn(virt) ==> #[trigger] post.spec_translate(w)
                        == pre.spec_translate(w)
                &&& forall|w: u64|
                    vpn(w) != vpn(virt) ==> #[trigger] post.spec_leaf(w) == pre.spec_leaf(w)
            },
            Result::Err(e) => {
                &&& post == pre
                &&& e == Self::unmap_err_of(pre, virt)
            },
        }
    }

    /// Remove the mapping of the page holding `virt`, walking the tables
    /// without creating any, and return the physical address it pointed
    /// at. An address with no mapping is reported as an error naming the
    /// absent level; nothing is ever reclaimed.
    pub fn unmap_page(&mut self, virt: u64) -> (r: Result<u64, UnmapError>)
        requires
            old(self).wf(),
            !old(self).hits_huge(virt),
        ensures
            Self::unmap_page_spec(*old(self), *final(self), virt, r),
    {
        let ghost pre = *old(self);
        let i = VirtualAddress(virt).indices();
        proof {
            lemma_index_bounds(virt);
            assert(self.tables@[0].wf());
        }
        let e4 = self.tables[0].entries[i.pml4];
        proof {
            assert(e4 == self.ent(0, idx4(virt)));
        }
        if !e4.is_present() {
            return Err(UnmapError::Pml4NotPresent);
        }
        proof {
            assert(self.is_child_ptr(0, idx4(virt)));
        }
        let t3: usize = (e4.addr() / (PAGE_SIZE as u64)) as usize;
        proof {
            assert(t3 as int == self.t3_of(virt));
            assert(self.tables@[t3 as int].wf());
        }
        let e3 = self.tables[t3].entries[i.pdpt];
        proof {
            assert(e3 == self.ent(self.t3_of(virt), idx3(virt)));
        }
        if !e3.is_present() {
            return Err(UnmapError::PdptNotPresent);
        }
        proof {
            assert(!pre.hits_huge(virt));
            assert(!e3.spec_huge());
            assert(self.is_child_ptr(self.t3_of(virt), idx3(virt)));
        }
        let t2: usize = (e3.addr() / (PAGE_SIZE as u64)) as usize;
        proof {
            assert(t2 as int == self.t2_of(virt));
            assert(self.tables@[t2 as int].wf());
        }
        let e2 = self.tables[t2].entries[i.pd];
        proof {
            assert(e2 == self.ent(self.t2_of(virt), idx2(virt)));
        }
        if !e2.is_present() {
            return Err(UnmapError::PdNotPresent);
        }
        proof {
            assert(!pre.hits_huge(virt));
            assert(!e2.spec_huge());
            assert(self.is_child_ptr(self.t2_of(virt), idx2(virt)));
        }
        let t1: usize = (e2.addr() / (PAGE_SIZE as u64)) as usize;
        proof {
            assert(t1 as int == self.t1_of(virt));
            assert(self.tables@[t1 as int].wf());
        }
        let e1 = self.tables[t1].entries[i.pt];
        proof {
            assert(e1 == self.ent(self.t1_of(virt), idx1(virt)));
        }
        if !e1.is_present() {
            return Err(UnmapError::PtNotPresent);
        }
        let phys = e1.addr();
        let cleared = PageTableEntry::empty();
        self.tables[t1].entries[i.pt] = cleared;
        proof {
            let post = *self;
            assert(post.table_count() == pre.table_count());
            assert(post.levels@ == pre.levels@);
            assert(post.ent(t1 as int, idx1(virt)) == cleared);
            assert forall|tt: int, jj: int|
                0 <= tt < pre.table_count() && 0 <= jj < 512 && !(tt == t1 as int && jj == idx1(
                    virt,
                )) implies #[trigger] post.ent(tt, jj) == pre.ent(tt, jj) by {
                assert(pre.tables@[tt].wf());
            }
            assert forall|tt: int| 0 <= tt < post.table_count() implies (
            #[trigger] post.tables@[tt]).wf() by {
                assert(pre.tables@[tt].wf());
            }
            Self::lemma_leaf_write(pre, post, virt, cleared);
            assert(pre.spec_leaf(virt) == Option::Some(e1));
        }
        Ok(phys)
    }

    /// Mapping a page and then translating any address inside it yields
    /// exactly the mapped frame plus the page offset. The unconditional
    /// form carries the address mask: an entry holds only bits 12..52 of
    /// the frame, so a frame outside that range, or one with offset bits
    /// set, comes back masked — for a page-aligned frame within the
    /// range, the round trip returns it exactly.
    pub proof fn lemma_map_then_translate(
        pre_m: Mapper,
        pre_fa: FrameAllocator,
        post_m: Mapper,
        post_fa: FrameAllocator,
        virt: u64,
        phys: u64,
        flags: u64,
    )
        requires
            Mapper::map_page_spec(pre_m, pre_fa, post_m, post_fa, virt, phys, flags, Ok(())),
        ensures
            post_m.spec_translate(virt) == Option::Some(
                (((phys & ADDR_MASK) + (virt % 4096)) as u64),
            ),
            phys & ADDR_MASK == phys && virt % 4096 == 0 ==> post_m.spec_translate(virt)
                == Option::Some(phys),
    {
        assert(vpn(virt) == vpn(virt));
        assert(virt & 0xFFFu64 == virt % 4096) by (bit_vector);
        assert(post_m.spec_translate(virt) == Option::Some(
            (((phys & ADDR_MASK) + (virt & 0xFFFu64)) as u64),
        ));
    }

    /// Unmapping a page and then translating it yields nothing, and a
    /// second unmap of the same page reports the not-mapped error instead
    /// of silently succeeding.
    pub proof fn lemma_unmap_then_translate(
        pre: Mapper,
        mid: Mapper,
        post: Mapper,
        virt: u64,
        phys: u64,
        r2: Result<u64, UnmapError>,
    )
        requires
            Mapper::unmap_page_spec(pre, mid, virt, Ok(phys)),
            Mapper::unmap_page_spec(mid, post, virt, r2),
        ensures
            mid.spec_translate(virt) is None,
            r2 is Err,
            post == mid,
    {
        assert(vpn(virt) == vpn(virt));
        assert(mid.spec_translate(virt) is None);
    }


    /// One bootstrap page directory: 512 two-megabyte identity mappings
    /// covering the `j`-th gigabyte of physical memory.
    fn identity_pd(j: usize) -> (r: PageTable)
        requires
            j < 4,
        ensures
            r.wf(),
            forall|k: int|
                0 <= k < 512 ==> (#[trigger] r.entries@[k]) == PageTableEntry::spec_new(
                    ((j * 512 + k) * 0x20_0000) as u64,
                    PRESENT | WRITABLE | HUGE_PAGE,
                ),
    {
        let mut t = PageTable::empty();
        let mut k: usize = 0;
        while k < 512
            invariant
                j < 4,
                k <= 512,
                t.entries@.len() == 512,
                forall|q: int|
                    0 <= q < k ==> (#[trigger] t.entries@[q]) == PageTableEntry::spec_new(
                        ((j * 512 + q) * 0x20_0000) as u64,
                        PRESENT | WRITABLE | HUGE_PAGE,
                    ),
            decreases 512 - k,
        {
            let base: u64 = ((j * 512 + k) as u64) * 0x20_0000;
            t.entries[k] = PageTableEntry::new(base, PRESENT | WRITABLE | HUGE_PAGE);
            k = k + 1;
        }
        t
    }

    /// Install the bootstrap identity mappings: the first four gigabytes
    /// of physical memory mapped with two-megabyte pages, both at virtual
    /// address zero and at the matching higher-half window, so the
    /// kernel's own code and data are reachable the moment the top-level
    /// table is loaded. The higher-half window is materialized as tables
    /// of its own, so every table has exactly one owning parent entry.
    #[verifier::rlimit(100)]
    pub fn init(&mut self)
        ensures
            final(self).wf(),
            final(self).table_count() == 11,
            forall|va: u64|
                va < 0x1_0000_0000 ==> #[trigger] final(self).spec_translate(va) == Option::Some(
                    va,
                ),
            forall|va: u64|
                idx4(va) == 511 && idx3(va) < 4 ==> #[trigger] final(self).spec_translate(va)
                    == Option::Some(va & 0xFFFF_FFFFu64),
            forall|va: u64|
                #[trigger] final(self).hits_huge(va) <==> ((idx4(va) == 0 || idx4(va) == 511)
                    && idx3(va) < 4),
    {
        proof {
            assert(0u64 & 0x8000_0000_0000_0FFFu64 == 0 && 0u64 & 1 == 0 && 0u64 & 128 == 0)
                by (bit_vector);
            assert(1u64 | 2u64 == 3 && 3u64 & 0x8000_0000_0000_0FFFu64 == 3 && 3u64 & 1 == 1
                && 3u64 & 128 == 0) by (bit_vector);
            assert(1u64 | 2u64 | 128u64 == 131 && 131u64 & 0x8000_0000_0000_0FFFu64 == 131
                && 131u64 & 1 == 1 && 131u64 & 128 == 128) by (bit_vector);
        }
        let mut tables: Vec<PageTable> = Vec::new();
        let mut levels: Vec<u8> = Vec::new();
        // the top-level table: the low window and the higher-half window
        let mut root = PageTable::empty();
        root.entries[0] = PageTableEntry::new(1u64 << 12u64, PRESENT | WRITABLE);
        root.entries[511] = PageTableEntry::new(6u64 << 12u64, PRESENT | WRITABLE);
        tables.push(root);
        levels.push(4u8);
        // the low window: a directory pointer table and four directories
        let mut pdpt_lo = PageTable::empty();
        pdpt_lo.entries[0] = PageTableEntry::new(2u64 << 12u64, PRESENT | WRITABLE);
        pdpt_lo.entries[1] = PageTableEntry::new(3u64 << 12u64, PRESENT | WRITABLE);
        pdpt_lo.entries[2] = PageTableEntry::new(4u64 << 12u64, PRESENT | WRITABLE);
        pdpt_lo.entries[3] = PageTableEntry::new(5u64 << 12u64, PRESENT | WRITABLE);
        tables.push(pdpt_lo);
        levels.push(3u8);
        tables.push(Self::identity_pd(0));
        levels.push(2u8);
        tables.push(Self::identity_pd(1));
        levels.push(2u8);
        tables.push(Self::identity_pd(2));
        levels.push(2u8);
        tables.push(Self::identity_pd(3));
        levels.push(2u8);
        // the higher-half window: the same four gigabytes again
        let mut pdpt_hi = PageTable::empty();
        pdpt_hi.entries[0] = PageTableEntry::new(7u64 << 12u64, PRESENT | WRITABLE);
        pdpt_hi.entries[1] = PageTableEntry::new(8u64 << 12u64, PRESENT | WRITABLE);
        pdpt_hi.entries[2] = PageTableEntry::new(9u64 << 12u64, PRESENT | WRITABLE);
        pdpt_hi.entries[3] = PageTableEntry::new(10u64 << 12u64, PRESENT | WRITABLE);
        tables.push(pdpt_hi);
        levels.push(3u8);
        tables.push(Self::identity_pd(0));
        levels.push(2u8);
        tables.push(Self::identity_pd(1));
        levels.push(2u8);
        tables.push(Self::identity_pd(2));
        levels.push(2u8);
        tables.push(Self::identity_pd(3));
        levels.push(2u8);
        self.tables = tables;
        self.levels = levels;
        proof {
            let m = *self;
            lemma_table_handle(1);
            lemma_table_handle(2);
            lemma_table_handle(3);
            lemma_table_handle(4);
            lemma_table_handle(5);
            lemma_table_handle(6);
            lemma_table_handle(7);
            lemma_table_handle(8);
            lemma_table_handle(9);
            lemma_table_handle(10);
            assert(m.table_count() == 11);
            assert(m.level_of(0) == 4 && m.level_of(1) == 3 && m.level_of(6) == 3);
            assert(m.level_of(2) == 2 && m.level_of(3) == 2 && m.level_of(4) == 2 && m.level_of(5)
                == 2);
            assert(m.level_of(7) == 2 && m.level_of(8) == 2 && m.level_of(9) == 2 && m.level_of(10)
                == 2);
            // the root's two window entries, and nothing else
            assert(Mapper::child_of(m.ent(0, 0)) == 1 && m.ent(0, 0).spec_flags() == 3);
            assert(Mapper::child_of(m.ent(0, 511)) == 6 && m.ent(0, 511).spec_flags() == 3);
            assert forall|jj: int|
                0 <= jj < 512 && jj != 0 && jj != 511 implies !(#[trigger] m.ent(
                0,
                jj,
            )).spec_present() by {
                assert(m.ent(0, jj).bits() == 0);
            }
            // the two pointer tables: four window slots each
            assert(Mapper::child_of(m.ent(1, 0)) == 2 && m.ent(1, 0).spec_flags() == 3);
            assert(Mapper::child_of(m.ent(1, 1)) == 3 && m.ent(1, 1).spec_flags() == 3);
            assert(Mapper::child_of(m.ent(1, 2)) == 4 && m.ent(1, 2).spec_flags() == 3);
            assert(Mapper::child_of(m.ent(1, 3)) == 5 && m.ent(1, 3).spec_flags() == 3);
            assert(Mapper::child_of(m.ent(6, 0)) == 7 && m.ent(6, 0).spec_flags() == 3);
            assert(Mapper::child_of(m.ent(6, 1)) == 8 && m.ent(6, 1).spec_flags() == 3);
            assert(Mapper::child_of(m.ent(6, 2)) == 9 && m.ent(6, 2).spec_flags() == 3);
            assert(Mapper::child_of(m.ent(6, 3)) == 10 && m.ent(6, 3).spec_flags() == 3);
            assert forall|jj: int|
                4 <= jj < 512 implies !(#[trigger] m.ent(1, jj)).spec_present() && !(
                #[trigger] m.ent(6, jj)).spec_present() by {
                assert(m.ent(1, jj).bits() == 0);
                assert(m.ent(6, jj).bits() == 0);
            }
            // the eight directories hold exactly the identity mappings
            assert forall|t: int, k: int|
                (2 <= t < 6 || 7 <= t < 11) && 0 <= k < 512 implies (#[trigger] m.ent(t, k))
                    == PageTableEntry::spec_new(
                    (((if t < 6 {
                        t - 2
                    } else {
                        t - 7
                    }) * 512 + k) * 0x20_0000) as u64,
                    131,
                ) by {}
            assert forall|t: int, k: int|
                (2 <= t < 6 || 7 <= t < 11) && 0 <= k < 512 implies {
                let jv = if t < 6 {
                    t - 2
                } else {
                    t - 7
                };
                &&& (#[trigger] m.ent(t, k)).spec_present()
                &&& m.ent(t, k).spec_huge()
                &&& m.ent(t, k).spec_addr() == (jv * 512 + k) * 0x20_0000
            } by {
                let jv = if t < 6 {
                    t - 2
                } else {
                    t - 7
                };
                let a = jv * 512 + k;
                let v: u64 = (a * 0x20_0000) as u64;
                assert(a * 0x20_0000 % 0x20_0000 == 0) by (nonlinear_arith)
                    requires
                        a >= 0,
                ;
                assert(v < 0x1_0000_0000);
                lemma_aligned_low_addr(v);
                lemma_entry_masks(v, 131);
            }
            // structural soundness
            assert forall|t: int| 0 <= t < 11 implies (#[trigger] m.tables@[t]).wf() by {}
            assert forall|t: int, j: int| m.is_child_ptr(t, j) implies {
                let cc = Mapper::child_of(#[trigger] m.ent(t, j));
                &&& 0 < cc < m.table_count()
                &&& m.level_of(cc) == m.level_of(t) - 1
                &&& m.ent(t, j).spec_addr() == cc * 4096
            } by {
                if t == 0 {
                    assert(j == 0 || j == 511);
                } else if t == 1 || t == 6 {
                    assert(0 <= j < 4);
                } else {
                    assert(m.ent(t, j).spec_huge());
                }
            }
            assert forall|t: int, j: int|
                0 <= t < m.table_count() && 0 <= j < 512 && (#[trigger] m.ent(t, j)).spec_present()
                    && m.ent(t, j).spec_huge() implies m.level_of(t) != 4 by {
                if t == 0 {
                    assert(j == 0 || j == 511);
                    assert(!m.ent(t, j).spec_huge());
                }
            }
            assert forall|t: int, j: int, t2: int, j2: int|
                m.is_child_ptr(t, j) && m.is_child_ptr(t2, j2) && Mapper::child_of(
                    #[trigger] m.ent(t, j),
                ) == Mapper::child_of(#[trigger] m.ent(t2, j2)) implies t == t2 && j == j2 by {
                if t == 0 {
                    assert(j == 0 || j == 511);
                } else if t == 1 || t == 6 {
                    assert(0 <= j < 4);
                } else {
                    assert(m.ent(t, j).spec_huge());
                }
                if t2 == 0 {
                    assert(j2 == 0 || j2 == 511);
                } else if t2 == 1 || t2 == 6 {
                    assert(0 <= j2 < 4);
                } else {
                    assert(m.ent(t2, j2).spec_huge());
                }
            }
            assert(m.wf());
            // every low address translates to itself
            assert forall|va: u64| va < 0x1_0000_0000 implies #[trigger] m.spec_translate(va)
                == Option::Some(va) by {
                lemma_index_bounds(va);
                lemma_low_decomp(va);
                let i3 = idx3(va);
                let i2 = idx2(va);
                assert(idx4(va) == 0);
                assert(i3 == 0 || i3 == 1 || i3 == 2 || i3 == 3);
                assert(m.t3_of(va) == 1);
                assert(Mapper::child_of(m.ent(1, i3)) == 2 + i3);
                assert(m.t2_of(va) == 2 + i3);
                assert(m.ent(2 + i3, i2).spec_addr() == (i3 * 512 + i2) * 0x20_0000);
            }
            // every higher-half address translates to its low counterpart
            assert forall|va: u64|
                idx4(va) == 511 && idx3(va) < 4 implies #[trigger] m.spec_translate(va)
                    == Option::Some(va & 0xFFFF_FFFFu64) by {
                lemma_index_bounds(va);
                lemma_hh_decomp(va);
                let i3 = idx3(va);
                let i2 = idx2(va);
                assert(i3 == 0 || i3 == 1 || i3 == 2 || i3 == 3);
                assert(m.t3_of(va) == 6);
                assert(Mapper::child_of(m.ent(6, i3)) == 7 + i3);
                assert(m.t2_of(va) == 7 + i3);
                assert(m.ent(7 + i3, i2).spec_addr() == (i3 * 512 + i2) * 0x20_0000);
            }
            // and those are exactly the addresses whose walk meets a huge
            // mapping
            assert forall|va: u64| #[trigger]
                m.hits_huge(va) <==> ((idx4(va) == 0 || idx4(va) == 511) && idx3(va) < 4) by {
                lemma_index_bounds(va);
                let i4 = idx4(va);
                let i3 = idx3(va);
                if i4 == 0 || i4 == 511 {
                    if i3 < 4 {
                        assert(i3 == 0 || i3 == 1 || i3 == 2 || i3 == 3);
                        let t3 = if i4 == 0 {
                            1int
                        } else {
                            6int
                        };
                        assert(m.t3_of(va) == t3);
                        let t2 = Mapper::child_of(m.ent(t3, i3));
                        assert(m.ent(t2, idx2(va)).spec_huge());
                    } else {
                        assert(!m.ent(m.t3_of(va), i3).spec_present());
                    }
                } else {
                    assert(!m.ent(0, i4).spec_present());
                }
            }
        }
    }

    /// Writing the leaf entry of a fully built walk changes exactly the
    /// translations of that one virtual page; every other page, and every
    /// huge-page hit, reads as before.
    proof fn lemma_leaf_write(pre: Mapper, post: Mapper, virt: u64, e: PageTableEntry)
        requires
            pre.wf(),
            pre.ent(0, idx4(virt)).spec_present(),
            pre.ent(pre.t3_of(virt), idx3(virt)).spec_present(),
            !pre.ent(pre.t3_of(virt), idx3(virt)).spec_huge(),
            pre.ent(pre.t2_of(virt), idx2(virt)).spec_present(),
            !pre.ent(pre.t2_of(virt), idx2(virt)).spec_huge(),
            post.table_count() == pre.table_count(),
            post.levels@ == pre.levels@,
            forall|t: int| 0 <= t < post.table_count() ==> (#[trigger] post.tables@[t]).wf(),
            post.ent(pre.t1_of(virt), idx1(virt)) == e,
            forall|t: int, j: int|
                0 <= t < pre.table_count() && 0 <= j < 512 && !(t == pre.t1_of(virt) && j == idx1(
                    virt,
                )) ==> #[trigger] post.ent(t, j) == pre.ent(t, j),
        ensures
            post.wf(),
            forall|w: u64|
                vpn(w) == vpn(virt) ==> #[trigger] post.spec_translate(w) == (if e.spec_present() {
                    Option::Some((e.spec_addr() + (w & 0xFFFu64)) as u64)
                } else {
                    Option::None
                }),
            forall|w: u64|
                vpn(w) != vpn(virt) ==> #[trigger] post.spec_translate(w) == pre.spec_translate(w),
            forall|w: u64| #[trigger] post.hits_huge(w) == pre.hits_huge(w),
            forall|w: u64|
                vpn(w) != vpn(virt) ==> #[trigger] post.spec_leaf(w) == pre.spec_leaf(w),
            post.spec_leaf(virt) == (if e.spec_present() {
                Option::Some(e)
            } else {
                Option::None
            }),
    {
        lemma_index_bounds(virt);
        let v4 = idx4(virt);
        let v3 = idx3(virt);
        let v2 = idx2(virt);
        let v1 = idx1(virt);
        let t3v = pre.t3_of(virt);
        let t2v = pre.t2_of(virt);
        let t1v = pre.t1_of(virt);
        assert(pre.is_child_ptr(0, v4));
        assert(pre.is_child_ptr(t3v, v3));
        assert(pre.is_child_ptr(t2v, v2));
        assert(pre.level_of(t3v) == 3);
        assert(pre.level_of(t2v) == 2);
        assert(pre.level_of(t1v) == 1);
        // the three interior tables are untouched: their levels differ from 1
        assert(post.ent(0, v4) == pre.ent(0, v4));
        assert(post.ent(t3v, v3) == pre.ent(t3v, v3));
        assert(post.ent(t2v, v2) == pre.ent(t2v, v2));
        // well-formedness: only a leaf-level cell changed
        assert forall|t: int, j: int| post.is_child_ptr(t, j) implies {
            let cc = Mapper::child_of(#[trigger] post.ent(t, j));
            &&& 0 < cc < post.table_count()
            &&& post.level_of(cc) == post.level_of(t) - 1
            &&& post.ent(t, j).spec_addr() == cc * 4096
        } by {
            assert(!(t == t1v && j == v1));
            assert(post.ent(t, j) == pre.ent(t, j));
            assert(pre.is_child_ptr(t, j));
        }
        assert forall|t: int, j: int|
            0 <= t < post.table_count() && 0 <= j < 512 && (
            #[trigger] post.ent(t, j)).spec_present() && post.ent(t, j).spec_huge()
                implies post.level_of(t) != 4 by {
            if !(t == t1v && j == v1) {
                assert(post.ent(t, j) == pre.ent(t, j));
            }
        }
        assert forall|t: int, j: int, t2: int, j2: int|
            post.is_child_ptr(t, j) && post.is_child_ptr(t2, j2) && Mapper::child_of(
                #[trigger] post.ent(t, j),
            ) == Mapper::child_of(#[trigger] post.ent(t2, j2)) implies t == t2 && j == j2 by {
            assert(!(t == t1v && j == v1));
            assert(!(t2 == t1v && j2 == v1));
            assert(post.ent(t, j) == pre.ent(t, j));
            assert(post.ent(t2, j2) == pre.ent(t2, j2));
            assert(pre.is_child_ptr(t, j));
            assert(pre.is_child_ptr(t2, j2));
        }
        assert(post.levels@.len() == pre.levels@.len());
        assert(post.level_of(0) == 4);
        assert forall|t: int| 0 <= t < post.table_count() implies 1 <= #[trigger] post.level_of(t)
            <= 4 by {
            assert(post.level_of(t) == pre.level_of(t));
            assert(1 <= pre.level_of(t) <= 4);
        }
        assert(post.wf());
        // walk comparison for every address
        assert forall|w: u64| #![trigger post.spec_translate(w)]
            (vpn(w) == vpn(virt) ==> post.spec_translate(w) == (if e.spec_present() {
                Option::Some((e.spec_addr() + (w & 0xFFFu64)) as u64)
            } else {
                Option::None
            })) && (vpn(w) != vpn(virt) ==> post.spec_translate(w) == pre.spec_translate(w)) && (
        post.hits_huge(w) == pre.hits_huge(w)) && (vpn(w) != vpn(virt) ==> post.spec_leaf(w)
            == pre.spec_leaf(w)) by {
            lemma_index_bounds(w);
            lemma_vpn_indices(w, virt);
            let i4 = idx4(w);
            let i3 = idx3(w);
            let i2 = idx2(w);
            let i1 = idx1(w);
            assert(!(0 == t1v));
            assert(post.ent(0, i4) == pre.ent(0, i4));
            if pre.ent(0, i4).spec_present() {
                assert(pre.is_child_ptr(0, i4));
                let t3 = pre.t3_of(w);
                assert(post.t3_of(w) == t3);
                assert(pre.level_of(t3) == 3);
                assert(!(t3 == t1v));
                assert(post.ent(t3, i3) == pre.ent(t3, i3));
                if pre.ent(t3, i3).spec_present() && !pre.ent(t3, i3).spec_huge() {
                    assert(pre.is_child_ptr(t3, i3));
                    let t2 = pre.t2_of(w);
                    assert(post.t2_of(w) == t2);
                    assert(pre.level_of(t2) == 2);
                    assert(!(t2 == t1v));
                    assert(post.ent(t2, i2) == pre.ent(t2, i2));
                    if pre.ent(t2, i2).spec_present() && !pre.ent(t2, i2).spec_huge() {
                        assert(pre.is_child_ptr(t2, i2));
                        let t1 = pre.t1_of(w);
                        assert(post.t1_of(w) == t1);
                        if t1 == t1v && i1 == v1 {
                            // same leaf cell: the chain of parents is forced
                            // to be the same, so the page numbers agree
                            assert(Mapper::child_of(pre.ent(t2, i2)) == Mapper::child_of(
                                pre.ent(t2v, v2),
                            ));
                            assert(t2 == t2v && i2 == v2);
                            assert(Mapper::child_of(pre.ent(t3, i3)) == Mapper::child_of(
                                pre.ent(t3v, v3),
                            ));
                            assert(t3 == t3v && i3 == v3);
                            assert(Mapper::child_of(pre.ent(0, i4)) == Mapper::child_of(
                                pre.ent(0, v4),
                            ));
                            assert(i4 == v4);
                            assert(vpn(w) == vpn(virt));
                            assert(post.ent(t1, i1) == e);
                        } else {
                            assert(post.ent(t1, i1) == pre.ent(t1, i1));
                            if vpn(w) == vpn(virt) {
                                assert(i4 == v4 && i3 == v3 && i2 == v2 && i1 == v1);
                                assert(t3 == t3v);
                                assert(t2 == t2v);
                                assert(t1 == t1v);
                                assert(false);
                            }
                        }
                    } else {
                        if vpn(w) == vpn(virt) {
                            assert(i2 == v2 && i3 == v3 && i4 == v4);
                            assert(t3 == t3v && t2 == t2v);
                            assert(false);
                        }
                    }
                } else {
                    if vpn(w) == vpn(virt) {
                        assert(i3 == v3 && i4 == v4);
                        assert(t3 == t3v);
                        assert(false);
                    }
                }
            } else {
                if vpn(w) == vpn(virt) {
                    assert(i4 == v4);
                    assert(false);
                }
            }
        }
        assert forall|w: u64|
            vpn(w) == vpn(virt) implies #[trigger] post.spec_translate(w) == (if e.spec_present() {
            Option::Some((e.spec_addr() + (w & 0xFFFu64)) as u64)
        } else {
            Option::None
        }) by {
            assert(post.spec_translate(w) == post.spec_translate(w));
        }
        assert forall|w: u64|
            vpn(w) != vpn(virt) implies #[trigger] post.spec_translate(w) == pre.spec_translate(
            w,
        ) by {
            assert(post.spec_translate(w) == post.spec_translate(w));
        }
        assert forall|w: u64| #[trigger] post.hits_huge(w) == pre.hits_huge(w) by {
            assert(post.spec_translate(w) == post.spec_translate(w));
        }
        assert forall|w: u64|
            vpn(w) != vpn(virt) implies #[trigger] post.spec_leaf(w) == pre.spec_leaf(w) by {
            assert(post.spec_translate(w) == post.spec_translate(w));
        }
    }

}


/// Install the bootstrap identity mappings into an address space.
pub fn init(mapper: &mut Mapper)
    ensures
        final(mapper).wf(),
        final(mapper).table_count() == 11,
        forall|va: u64|
            va < 0x1_0000_0000 ==> #[trigger] final(mapper).spec_translate(va) == Option::Some(va),
        forall|va: u64|
            idx4(va) == 511 && idx3(va) < 4 ==> #[trigger] final(mapper).spec_translate(va)
                == Option::Some(va & 0xFFFF_FFFFu64),
        forall|va: u64|
            #[trigger] final(mapper).hits_huge(va) <==> ((idx4(va) == 0 || idx4(va) == 511)
                && idx3(va) < 4),
{
    mapper.init();
}

/// Map the page holding `virt` to the frame holding `phys`.
pub fn map_page(
    mapper: &mut Mapper,
    fa: &mut FrameAllocator,
    virt: u64,
    phys: u64,
    flags: u64,
) -> (r: Result<(), MapError>)
    requires
        old(mapper).wf(),
        old(fa).wf(),
        !old(mapper).hits_huge(virt),
    ensures
        Mapper::map_page_spec(
            *old(mapper),
            *old(fa),
            *final(mapper),
            *final(fa),
            virt,
            phys,
            flags,
            r,
        ),
{
    mapper.map_page(fa, virt, phys, flags)
}

/// Remove the mapping of the page holding `virt`.
pub fn unmap_page(mapper: &mut Mapper, virt: u64) -> (r: Result<u64, UnmapError>)
    requires
        old(mapper).wf(),
        !old(mapper).hits_huge(virt),
    ensures
        Mapper::unmap_page_spec(*old(mapper), *final(mapper), virt, r),
{
    mapper.unmap_page(virt)
}

/// Translate a virtual address through the tables.
pub fn translate(mapper: &Mapper, virt: u64) -> (r: Option<u64>)
    requires
        mapper.wf(),
    ensures
        r == mapper.spec_translate(virt),
{
    mapper.translate(virt)
}

} // verus!
