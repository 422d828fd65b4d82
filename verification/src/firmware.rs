//! Decisions in a loader's dialogue with the firmware.
//!
//! The firmware is asked by the caller; what to do with each answer is
//! decided here.

use vstd::prelude::*;

verus! {

/// By how many bytes a buffer grows that was too small for a file's
/// description.
pub const INFO_GROWTH: usize = 100;

/// How long the loader waits for a key before it boots, in seconds.
pub const BOOT_DELAY_SECONDS: u64 = 2;

/// How many timer ticks of 100 nanoseconds make up `seconds`.
pub fn timer_ticks(seconds: u64) -> (ticks: u64)
    requires
        seconds * 10_000_000 <= u64::MAX,
    ensures
        ticks == seconds * 10_000_000,
{
    seconds * 10_000_000
}

/// The size with which a request is made again after the firmware turned
/// it down with a buffer of `size` bytes.
///
/// A request is made again only where the buffer was too small, with a
/// buffer that is `step` bytes larger; any other failure ends the
/// attempts, and so does a size that cannot be written down.
pub fn grown(size: usize, step: usize, too_small: bool) -> (next: Option<usize>)
    ensures
        next == if too_small && size + step <= usize::MAX {
            Some((size + step) as usize)
        } else {
            None
        },
{
    if too_small {
        size.checked_add(step)
    } else {
        None
    }
}

/// Whether a key interrupted the boot, from the number of the event that
/// ended the wait: event 0 is the key, event 1 the timer. There is no
/// other event.
pub fn boot_interrupted(event: usize) -> (interrupted: Option<bool>)
    ensures
        interrupted == if event == 0 {
            Some(true)
        } else if event == 1 {
            Some(false)
        } else {
            None
        },
{
    if event == 0 {
        Some(true)
    } else if event == 1 {
        Some(false)
    } else {
        None
    }
}

/// What to do with the entry of the memory map that is up next.
#[derive(Clone, Copy, Debug, PartialEq, Eq, Structural)]
pub enum BrowseAction {
    /// Show the entry and go on to the next.
    Show,
    /// Go on to the next entry without showing this one.
    Skip,
    /// Leave the remaining entries out.
    Quit,
    /// Ask once more.
    Ask,
}

/// What the key that was pressed asks for: `y` shows the entry, `n` skips
/// it, `q` ends the browsing. Any other key, and a key that prints
/// nothing, is asked about again.
pub fn browse_action(key: Option<char>) -> (action: BrowseAction)
    ensures
        action == match key {
            Some(c) => if c == 'y' {
                BrowseAction::Show
            } else if c == 'n' {
                BrowseAction::Skip
            } else if c == 'q' {
                BrowseAction::Quit
            } else {
                BrowseAction::Ask
            },
            None => BrowseAction::Ask,
        },
{
    match key {
        Some(c) => if c == 'y' {
            BrowseAction::Show
        } else if c == 'n' {
            BrowseAction::Skip
        } else if c == 'q' {
            BrowseAction::Quit
        } else {
            BrowseAction::Ask
        },
        None => BrowseAction::Ask,
    }
}

} // verus!
