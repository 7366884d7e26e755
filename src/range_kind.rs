//! Which ends of a key range include their key.
use vstd::prelude::*;

verus! {

/// How the boundaries of a key range treat their keys.
#[derive(Debug, Clone, Copy, PartialEq, Eq)]
pub enum RangeKind {
    /// Closed on the left and open on the right: the start key is included,
    /// the end key is excluded.
    ClosedOpen,
    /// Closed on both sides: both keys are included.
    ClosedClosed,
    /// Open on the left and closed on the right: the start key is excluded,
    /// the end key is included.
    OpenClosed,
    /// Open on both sides: neither key is included.
    OpenOpen,
}

impl RangeKind {
    /// The start key belongs to the range.
    pub open spec fn includes_start(self) -> bool {
        self is ClosedOpen || self is ClosedClosed
    }

    /// The end key belongs to the range.
    pub open spec fn includes_end(self) -> bool {
        self is ClosedClosed || self is OpenClosed
    }
}

} // verus!
