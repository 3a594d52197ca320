//! The progress tracker: a three-state machine that learns the total up
//! front, advances by scanned identifiers (emitted or not), and is torn down
//! once the pager signals exhaustion.

use vstd::prelude::*;

verus! {

/// The phases a run moves through, in order.
#[derive(Clone, Copy, PartialEq, Eq, Structural, Debug)]
pub enum ProgressState {
    /// Before the total-count probe.
    Starting,
    /// Walking pages; the position advances by scanned identifiers.
    Paging,
    /// The pager signalled exhaustion; the display is torn down.
    Exhausted,
}

/// Progress over one run: the phase, the position reached, and the total
/// estimated up front.
#[derive(Debug)]
pub struct Progress {
    state: ProgressState,
    position: usize,
    total: usize,
}

impl Progress {
    /// The current phase.
    pub closed spec fn state(&self) -> ProgressState {
        self.state
    }

    /// How many identifiers were scanned so far.
    pub closed spec fn position(&self) -> int {
        self.position as int
    }

    /// The total estimated by the probe.
    pub closed spec fn total(&self) -> int {
        self.total as int
    }

    /// A tracker that has not probed yet.
    pub fn new() -> (r: Progress)
        ensures
            r.state() == ProgressState::Starting,
            r.position() == 0,
            r.total() == 0,
    {
        Progress { state: ProgressState::Starting, position: 0, total: 0 }
    }

    /// Accepts the probe's total and starts paging.
    pub fn begin(&mut self, total: usize)
        requires
            old(self).state() == ProgressState::Starting,
        ensures
            final(self).state() == ProgressState::Paging,
            final(self).position() == 0,
            final(self).total() == total,
    {
        self.state = ProgressState::Paging;
        self.position = 0;
        self.total = total;
    }

    /// Advances by the number of identifiers scanned on one page.
    pub fn advance(&mut self, scanned: usize)
        requires
            old(self).state() == ProgressState::Paging,
            old(self).position() + scanned <= old(self).total(),
        ensures
            final(self).state() == ProgressState::Paging,
            final(self).position() == old(self).position() + scanned,
            final(self).total() == old(self).total(),
    {
        self.position = self.position + scanned;
    }

    /// Tears the display down once the pager signals exhaustion.
    pub fn finish(&mut self)
        requires
            old(self).state() == ProgressState::Paging,
        ensures
            final(self).state() == ProgressState::Exhausted,
            final(self).position() == old(self).position(),
            final(self).total() == old(self).total(),
    {
        self.state = ProgressState::Exhausted;
    }

    /// The position, for display.
    pub fn current_position(&self) -> (r: usize)
        ensures
            r == self.position(),
    {
        self.position
    }

    /// The total, for display.
    pub fn current_total(&self) -> (r: usize)
        ensures
            r == self.total(),
    {
        self.total
    }
}

} // verus!
