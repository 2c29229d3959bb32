//! Memory-resource core of a kernel and hypervisor stack: identifier
//! hand-out, address newtypes, a virtual address reservation allocator, a
//! fixed-layout slab allocator and the guest execution vessel built on them.

pub mod id;
pub mod mem;
pub mod slab;
pub mod vaa;
pub mod vessel;
