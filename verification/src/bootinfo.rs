//! Boot information handed to the kernel by the bootloader, reduced to plain
//! values: the memory map as a vector of records, the framebuffer geometry,
//! and the kernel / initrd extents. Parsing the bootloader's raw tag
//! structure into this shape is the bootloader interface's job, done before
//! anything here runs.

use vstd::prelude::*;
use crate::mem::MemoryMapEntry;

verus! {

/// Description of the linear framebuffer the bootloader set up. The core
/// consumes it only to size the display surface; it interprets nothing else.
#[derive(Debug, Clone, Copy, PartialEq, Eq, Structural)]
pub struct FramebufferInfo {
    pub address: u64,
    pub width: u32,
    pub height: u32,
    pub pitch: u32,
    pub bpp: u8,
    pub red_shift: u8,
    pub green_shift: u8,
    pub blue_shift: u8,
    pub red_mask: u8,
    pub green_mask: u8,
    pub blue_mask: u8,
}

/// CPU architecture a boot record was produced for.
#[derive(Debug, Clone, Copy, PartialEq, Eq, Structural)]
pub enum Architecture {
    X86,
    X86_64,
    Arm32,
    Arm64,
    Unknown,
}

impl Architecture {
    /// The architecture this kernel core is built for. The paging model is
    /// the four-level x86-64 scheme throughout.
    pub fn current() -> (r: Architecture)
        ensures
            r == Architecture::X86_64,
    {
        Architecture::X86_64
    }
}

/// Everything the kernel learns from the bootloader, as owned plain data.
/// An empty `memory_map` means the bootloader supplied none.
#[derive(Debug, Clone)]
pub struct BootInfo {
    pub magic: u64,
    pub memory_map: Vec<MemoryMapEntry>,
    pub framebuffer: FramebufferInfo,
    pub arch: Architecture,
    pub kernel_start: u64,
    pub kernel_end: u64,
    pub initrd_start: u64,
    pub initrd_end: u64,
    pub cmdline: Vec<u8>,
}

} // verus!
