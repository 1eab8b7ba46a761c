//! A ten-cell progress bar: the counting behind it, without the drawing.

use vstd::prelude::*;

verus! {

/// The number of cells in the bar.
pub const BAR_CELLS: u64 = 10;

/// Progress through a known number of steps.
pub struct ProgressBar {
    pub total_steps: u64,
    pub current_step: u64,
}

impl ProgressBar {
    /// The whole percent of the steps that are done. With no steps to do at
    /// all, and whenever the quotient exceeds the machine word, it is the
    /// largest value the word holds.
    pub open spec fn percent(self) -> int {
        if self.total_steps == 0 || self.current_step * 100 / (self.total_steps as int) > u64::MAX {
            u64::MAX as int
        } else {
            self.current_step * 100 / (self.total_steps as int)
        }
    }

    /// The number of cells to fill: one for every ten percent.
    pub open spec fn filled_cells(self) -> int {
        self.percent() / 10
    }

    /// A bar with nothing done yet.
    pub fn new(total_steps: u64) -> (bar: ProgressBar)
        ensures
            bar.total_steps == total_steps,
            bar.current_step == 0,
    {
        ProgressBar { total_steps, current_step: 0 }
    }

    /// Counts one more step as done and returns the number of cells to fill.
    pub fn progress(&mut self) -> (cells: u64)
        requires
            old(self).current_step < u64::MAX,
        ensures
            final(self).total_steps == old(self).total_steps,
            final(self).current_step == old(self).current_step + 1,
            cells == final(self).filled_cells(),
    {
        self.current_step = self.current_step + 1;
        if self.total_steps == 0 {
            return u64::MAX / 10;
        }
        let done: u128 = self.current_step as u128;
        let total: u128 = self.total_steps as u128;
        let percent: u128 = done * 100 / total;
        if percent > u64::MAX as u128 {
            u64::MAX / 10
        } else {
            (percent / 10) as u64
        }
    }

    /// Whether every step is done.
    pub fn is_complete(&self) -> (done: bool)
        ensures
            done == (self.current_step >= self.total_steps),
    {
        self.current_step >= self.total_steps
    }
}

} // verus!
