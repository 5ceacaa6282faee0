//! Physical memory access core: byte-count and address value types, a
//! request batcher over a physical memory backend, and an x86-64 page-table
//! walker that resolves virtual addresses through that backend.

pub mod hex;
pub mod length;
pub mod address;
pub mod mem;
pub mod dummy;
pub mod batcher;
pub mod x86;
