//! Live memory introspection: batched page-table walks over a physical
//! memory backend, and a write-through page cache in front of it.
pub mod error;
pub mod types;
pub mod phys_mem;
pub mod batcher;
pub mod mmu;
pub mod architecture;
pub mod page_cache;
pub mod cached_memory_access;
pub mod section;
pub mod text;
