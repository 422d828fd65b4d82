//! Executable image formats.

pub mod v0;
