//! Alternative peak-finder interface: a lighter summary record and the
//! strategy trait of a smoothed-z-score style detector.
//!
//! No finder of this family is implemented yet; the types fix the
//! interface for one.

use vstd::prelude::*;

verus! {

/// A summarised peak: width, height and position, in micro-units.
#[derive(Debug, Clone, Copy, PartialEq, Eq, Structural)]
pub struct PeakInfo {
    pub width: i64,
    pub height: i64,
    pub pos: i64,
}

/// Parameters of a smoothed-deviation peak finder: the lag of its rolling
/// window, and its influence and threshold in micro-units.
#[derive(Debug, Clone, Copy, PartialEq, Eq, Structural)]
pub struct SDPeakFinder {
    pub lag: usize,
    pub influence: i64,
    pub threshold: i64,
}

/// A peak-finding strategy over a raw trace.
pub trait PeakFinder {
    /// Finds the peaks of the trace.
    fn find_peaks(&self, data: &Vec<i64>) -> Vec<PeakInfo>;
}

} // verus!
