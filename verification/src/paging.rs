//! Four-level address translation for x86-64.

pub mod allocator;
pub mod entry;
pub mod flags;
pub mod indices;
pub mod laws;
pub mod map;
pub mod model;
pub mod translate;
pub mod visit;
pub mod walk;

pub use self::allocator::{BumpAllocator, PageAllocator, Recorded};
pub use self::entry::{PagingError, PDE, PDPTE, PML4E, PTE};
pub use self::flags::{PageMapFlags, PageMapMode};
pub use self::indices::{
    address_to_page_map_indices, page_map_indices_to_address, PageMapIndices, PAGE_SIZE,
};
pub use self::map::PageMap;
pub use self::visit::{PageMapVisitor, Visit, VisitLog};
