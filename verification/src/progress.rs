//! The state of a terminal progress bar: counting received chunks and
//! the running total they announce. Drawing is the caller's concern.
use vstd::prelude::*;

verus! {

/// Progress through a download: how many chunks arrived and the total
/// implied by the latest remaining-length report.
#[derive(Debug, Clone, Copy, PartialEq, Eq, Structural)]
pub struct ProgressBar {
    pub total: u64,
    pub current: u64,
    pub width: u16,
}

impl Default for ProgressBar {
    /// An empty bar of the fixed display width.
    fn default() -> (r: ProgressBar)
        ensures
            r.total == 0 && r.current == 0 && r.width == 50,
    {
        ProgressBar { total: 0, current: 0, width: 50 }
    }
}

impl ProgressBar {
    /// Counts one more received chunk and rebases the total on the
    /// reported remaining length, saturating at the integer limit.
    pub fn inc_and_set_remaining(&mut self, new_total: u64)
        ensures
            final(self).current == if old(self).current < u64::MAX {
                old(self).current + 1
            } else {
                u64::MAX as int
            },
            final(self).total == if new_total + final(self).current <= u64::MAX {
                new_total + final(self).current
            } else {
                u64::MAX as int
            },
            final(self).width == old(self).width,
    {
        if self.current < u64::MAX {
            self.current = self.current + 1;
        }
        if new_total <= u64::MAX - self.current {
            self.total = new_total + self.current;
        } else {
            self.total = u64::MAX;
        }
    }
}

} // verus!
