//! Memory-management core of a small x86-64 kernel.
//!
//! Three layered components, leaves first:
//!
//! - [`phys`]: the physical frame allocator, a bitmap of all page frames below
//!   a fixed ceiling; the sole source and sink of physical memory.
//! - [`paging`]: the virtual memory mapper, which builds and mutates the
//!   four-level page-table structure and provides map / unmap / translate.
//! - [`heap`]: the bookkeeping of the kernel heap window, which grows by
//!   mapping additional frames up to a hard ceiling.
//!
//! Around the core stand the data types the rest of the kernel exchanges with
//! it: the boot information ([`bootinfo`]), segment and interrupt descriptors
//! ([`gdt`], [`idt`]), the keyboard state machine ([`keyboard`]), the screen
//! back buffer ([`screen`]), and process bookkeeping ([`proc`]).
//!
//! Every piece of shared state is an explicitly owned structure handed by
//! reference through [`mem::MemoryManager`]; nothing in this crate is an
//! ambient global, performs I/O, or touches raw memory.

pub mod bootinfo;
pub mod gdt;
pub mod heap;
pub mod idt;
pub mod keyboard;
pub mod mem;
pub mod paging;
pub mod phys;
pub mod proc;
pub mod screen;
pub mod virt;

pub use bootinfo::BootInfo;
pub use mem::PAGE_SIZE;
