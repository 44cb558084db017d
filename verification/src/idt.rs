//! Interrupt descriptor entries: the records that tell the CPU where to
//! jump for each vector. Loading the table and programming the interrupt
//! controller are privileged hardware access and belong to the kernel
//! shell around this crate; this module owns the bit packing of the
//! entries themselves.

use vstd::prelude::*;
use crate::gdt::KERNEL_CODE_SELECTOR;

verus! {

/// Kind of a descriptor: an interrupt kind clears the interrupt flag on
/// entry, a trap kind leaves it set.
#[derive(Debug, Clone, Copy, PartialEq, Eq, Structural)]
pub enum GateType {
    Interrupt,
    Trap,
}

impl GateType {
    /// The four-bit type field the CPU expects for this kind.
    pub open spec fn spec_bits(self) -> u8 {
        match self {
            GateType::Interrupt => 0xE,
            GateType::Trap => 0xF,
        }
    }

    /// The four-bit type field the CPU expects for this kind.
    pub fn bits(self) -> (r: u8)
        ensures
            r == self.spec_bits(),
    {
        match self {
            GateType::Interrupt => 0xE,
            GateType::Trap => 0xF,
        }
    }
}

/// One interrupt descriptor: the handler address split over three fields,
/// the code-segment selector, the interrupt-stack slot and the type and
/// attribute byte.
#[derive(Debug, Clone, Copy, PartialEq, Eq, Structural)]
pub struct IdtEntry {
    pub offset_low: u16,
    pub selector: u16,
    pub ist: u8,
    pub type_attr: u8,
    pub offset_mid: u16,
    pub offset_high: u32,
    pub reserved: u32,
}

impl IdtEntry {
    /// The entry `new` packs from a handler address, selector, stack
    /// slot, gate kind and privilege level.
    pub open spec fn spec_new(
        handler: u64,
        selector: u16,
        ist: u8,
        gate_type: GateType,
        dpl: u8,
    ) -> IdtEntry {
        IdtEntry {
            offset_low: (handler & 0xFFFF) as u16,
            selector,
            ist,
            type_attr: (128 + (dpl & 3) * 32 + gate_type.spec_bits()) as u8,
            offset_mid: ((handler >> 16) & 0xFFFF) as u16,
            offset_high: ((handler >> 32) & 0xFFFFFFFF) as u32,
            reserved: 0,
        }
    }

    /// An empty descriptor: no handler, not present.
    pub fn null() -> (r: IdtEntry)
        ensures
            r.offset_low == 0 && r.selector == 0 && r.ist == 0 && r.type_attr == 0 && r.offset_mid
                == 0 && r.offset_high == 0 && r.reserved == 0,
    {
        IdtEntry {
            offset_low: 0,
            selector: 0,
            ist: 0,
            type_attr: 0,
            offset_mid: 0,
            offset_high: 0,
            reserved: 0,
        }
    }

    /// Pack a descriptor: handler address scattered over three fields,
    /// and the attribute byte holding present bit, privilege level and
    /// descriptor kind.
    pub fn new(handler: u64, selector: u16, ist: u8, gate_type: GateType, dpl: u8) -> (r: IdtEntry)
        ensures
            r == Self::spec_new(handler, selector, ist, gate_type, dpl),
    {
        let gb = gate_type.bits();
        let attr: u8 = (1u8 << 7) | ((dpl & 0b11) << 5) | gb;
        proof {
            assert(handler & 0xFFFF < 0x10000 && (handler >> 16) & 0xFFFF < 0x10000 && (handler
                >> 32) & 0xFFFFFFFF < 0x1_0000_0000) by (bit_vector);
            assert(gb <= 0xF ==> ((1u8 << 7) | ((dpl & 0b11) << 5) | gb) == 128 + (dpl & 3) * 32
                + gb) by (bit_vector);
        }
        IdtEntry {
            offset_low: (handler & 0xFFFF) as u16,
            selector,
            ist,
            type_attr: attr,
            offset_mid: ((handler >> 16) & 0xFFFF) as u16,
            offset_high: ((handler >> 32) & 0xFFFFFFFF) as u32,
            reserved: 0,
        }
    }

    /// Point the descriptor at a handler as a plain kernel interrupt
    /// entry: kernel code segment, no dedicated stack, ring 0.
    pub fn set_handler(&mut self, handler: u64)
        ensures
            *final(self) == Self::spec_new(handler, KERNEL_CODE_SELECTOR, 0, GateType::Interrupt, 0),
    {
        *self = Self::new(handler, KERNEL_CODE_SELECTOR, 0, GateType::Interrupt, 0);
    }
}

} // verus!
