//! Ports of the processor's I/O address space.

use vstd::prelude::*;

verus! {

/// The number of a port.
#[derive(Clone, Copy, Debug, PartialEq, Eq, Structural)]
pub struct IoPort(pub u16);

impl IoPort {
    /// The port that lies `offset` ports after this one.
    pub fn add(&self, offset: u16) -> (port: Self)
        requires
            self.0 + offset <= u16::MAX,
        ensures
            port.0 == self.0 + offset,
    {
        Self(self.0 + offset)
    }
}

} // verus!
