//! Permissions of a mapping, and the two ways to reach a table.

use vstd::prelude::*;

verus! {

/// Memory mapping permissions.
///
/// The default is read-only and not executable. Combine `W` and `X` with `|`
/// to allow more.
#[derive(Clone, Copy, Debug, PartialEq, Eq, Structural)]
pub enum PageMapFlags {
    /// Neither writes nor instruction fetches are allowed.
    R,
    /// Writes are allowed.
    W,
    /// Instruction fetches are allowed.
    X,
    /// Writes and instruction fetches are allowed.
    WX,
}

impl PageMapFlags {
    /// Whether writes are allowed.
    pub open spec fn is_writeable(self) -> bool {
        self == PageMapFlags::W || self == PageMapFlags::WX
    }

    /// Whether instruction fetches are allowed.
    pub open spec fn is_executable(self) -> bool {
        self == PageMapFlags::X || self == PageMapFlags::WX
    }

    /// The permissions with the given two parts.
    pub open spec fn from_parts(writeable: bool, executable: bool) -> PageMapFlags {
        if writeable {
            if executable {
                PageMapFlags::WX
            } else {
                PageMapFlags::W
            }
        } else {
            if executable {
                PageMapFlags::X
            } else {
                PageMapFlags::R
            }
        }
    }

    /// The permissions with the given two parts.
    pub fn new(writeable: bool, executable: bool) -> (flags: Self)
        ensures
            flags == Self::from_parts(writeable, executable),
            flags.is_writeable() == writeable,
            flags.is_executable() == executable,
    {
        if writeable {
            if executable {
                PageMapFlags::WX
            } else {
                PageMapFlags::W
            }
        } else {
            if executable {
                PageMapFlags::X
            } else {
                PageMapFlags::R
            }
        }
    }

    /// Whether writes are allowed.
    pub fn writeable(&self) -> (flag: bool)
        ensures
            flag == self.is_writeable(),
    {
        match self {
            PageMapFlags::W | PageMapFlags::WX => true,
            _ => false,
        }
    }

    /// Whether instruction fetches are allowed.
    pub fn executable(&self) -> (flag: bool)
        ensures
            flag == self.is_executable(),
    {
        match self {
            PageMapFlags::X | PageMapFlags::WX => true,
            _ => false,
        }
    }
}

impl Default for PageMapFlags {
    fn default() -> (flags: Self)
        ensures
            flags == PageMapFlags::R,
    {
        PageMapFlags::R
    }
}

impl core::ops::BitOr for PageMapFlags {
    type Output = Self;

    /// Allows what either side allows.
    fn bitor(self, rhs: Self) -> (flags: Self) {
        PageMapFlags::new(self.writeable() || rhs.writeable(), self.executable() || rhs.executable())
    }
}

impl vstd::std_specs::ops::BitOrSpecImpl for PageMapFlags {
    open spec fn obeys_bitor_spec() -> bool {
        true
    }

    open spec fn bitor_req(self, rhs: Self) -> bool {
        true
    }

    open spec fn bitor_spec(self, rhs: Self) -> Self {
        PageMapFlags::from_parts(
            self.is_writeable() || rhs.is_writeable(),
            self.is_executable() || rhs.is_executable(),
        )
    }
}

/// How the tables of a page map are reached.
#[derive(Clone, Copy, Debug, PartialEq, Eq, Structural)]
pub enum PageMapMode {
    /// The page map is in use for address translation: its tables are
    /// reached through the recursive window.
    Active,
    /// The page map is not in use for address translation: its tables are
    /// reached by their physical addresses.
    Inactive,
}

} // verus!
