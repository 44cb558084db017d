//! Virtual memory regions: an address range with the permission and kind
//! flags a region carries.

use vstd::prelude::*;

verus! {

/// Permission and kind flags of a virtual memory region, one bit each.
#[derive(Debug, Clone, Copy, PartialEq, Eq, Structural)]
pub struct VmFlags {
    pub bits: u32,
}

pub const VM_READ: u32 = 1;

pub const VM_WRITE: u32 = 2;

pub const VM_EXECUTE: u32 = 4;

pub const VM_USER: u32 = 8;

pub const VM_SHARED: u32 = 16;

pub const VM_STACK: u32 = 32;

pub const VM_HEAP: u32 = 64;

pub const VM_MMIO: u32 = 128;

impl VmFlags {
    /// No flag set.
    pub fn empty() -> (r: VmFlags)
        ensures
            r.bits == 0,
    {
        VmFlags { bits: 0 }
    }

    /// The flags named by `bits`.
    pub fn from_bits(bits: u32) -> (r: VmFlags)
        ensures
            r.bits == bits,
    {
        VmFlags { bits }
    }

    /// Whether every flag of `other` is set here too.
    pub fn contains(&self, other: VmFlags) -> (r: bool)
        ensures
            r == (self.bits & other.bits == other.bits),
    {
        self.bits & other.bits == other.bits
    }

    /// The union of two flag sets.
    pub fn union(&self, other: VmFlags) -> (r: VmFlags)
        ensures
            r.bits == self.bits | other.bits,
    {
        VmFlags { bits: self.bits | other.bits }
    }
}

/// A virtual memory region: a half-open address range and its flags.
#[derive(Debug, Clone, Copy, PartialEq, Eq, Structural)]
pub struct VmRegion {
    pub start: u64,
    pub end: u64,
    pub flags: VmFlags,
}

} // verus!
