//! Boot-time building blocks for an x86-64 system: four-level page tables,
//! the executable image format of the kernel, control-register views and the
//! plan that carries a loader into the kernel's address space.

pub mod boot;
pub mod bytes;
pub mod exe;
pub mod firmware;
pub mod io;
pub mod paging;
pub mod pci;
pub mod registers;
pub mod report;
pub mod serial;
