//! Verified core of klint: the preemption-count lattice, the klint attribute
//! grammar, and the address and relocation bookkeeping used when reading DWARF
//! information out of relocatable object files.

pub mod attribute;
pub mod binary_analysis;
pub mod diagnostic_items;
pub mod preempt_count;
pub mod util;
