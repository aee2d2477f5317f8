//! The progress of the deleted-video scan, as the task board shows it.

use vstd::prelude::*;

verus! {

/// The progress of the deleted-video scan.
#[derive(Debug, Clone, PartialEq)]
pub struct ScanTaskProgress {
    /// `"idle"`, `"queued"` or `"running"`.
    pub state: String,
    /// The source being scanned, counted from 1.
    pub current: usize,
    /// The sources to scan.
    pub total: usize,
    /// The name of the source being scanned.
    pub current_source: String,
    /// Differences confirmed so far in the current source.
    pub confirm_current: usize,
    /// Differences to confirm in the current source.
    pub confirm_total: usize,
}

/// A progress with the given state and totals, everything else empty.
pub open spec fn progress_is(p: ScanTaskProgress, state: Seq<char>, current: usize, total: usize) -> bool {
    &&& p.state@ == state
    &&& p.current == current
    &&& p.total == total
    &&& p.current_source@.len() == 0
    &&& p.confirm_current == 0
    &&& p.confirm_total == 0
}

impl Default for ScanTaskProgress {
    /// No scan: state `idle`, all counts 0.
    fn default() -> (r: Self)
        ensures
            progress_is(r, "idle"@, 0, 0),
    {
        ScanTaskProgress {
            state: "idle".to_owned(),
            current: 0,
            total: 0,
            current_source: String::new(),
            confirm_current: 0,
            confirm_total: 0,
        }
    }
}

impl ScanTaskProgress {
    /// A scan of `total` sources waiting for the video task to finish.
    pub fn queued(total: usize) -> (r: Self)
        ensures
            progress_is(r, "queued"@, 0, total),
    {
        ScanTaskProgress {
            state: "queued".to_owned(),
            current: 0,
            total,
            current_source: String::new(),
            confirm_current: 0,
            confirm_total: 0,
        }
    }

    /// A scan of `total` sources that has started.
    pub fn running(total: usize) -> (r: Self)
        ensures
            progress_is(r, "running"@, 0, total),
    {
        ScanTaskProgress {
            state: "running".to_owned(),
            current: 0,
            total,
            current_source: String::new(),
            confirm_current: 0,
            confirm_total: 0,
        }
    }

    /// Moves to the `idx`-th source (from 0), named `name`.
    pub fn start_source(&mut self, idx: usize, name: String)
        requires
            idx < usize::MAX,
        ensures
            final(self).current == idx + 1,
            final(self).current_source@ == name@,
            final(self).state == old(self).state,
            final(self).total == old(self).total,
            final(self).confirm_current == old(self).confirm_current,
            final(self).confirm_total == old(self).confirm_total,
    {
        self.current = idx + 1;
        self.current_source = name;
    }

    /// Reports how many differences of the current source are confirmed.
    pub fn update_confirm(&mut self, current: usize, total: usize)
        ensures
            final(self).confirm_current == current,
            final(self).confirm_total == total,
            final(self).state == old(self).state,
            final(self).current == old(self).current,
            final(self).total == old(self).total,
            final(self).current_source == old(self).current_source,
    {
        self.confirm_current = current;
        self.confirm_total = total;
    }
}

} // verus!
