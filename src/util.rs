//! Progress reporting for long transfers, with a no-op implementation on `()`.
use vstd::prelude::*;

verus! {

/// Creates a progress bar for each long operation
pub trait ProgressBarFactory {
    type BarType: ProgressBar;

    /// A bar expecting `len` units, labelled `msg`, with an optional unit suffix
    fn create(&self, len: usize, msg: &'static str, unit: Option<&'static str>) -> Self::BarType;
}

/// Receives the progress of one operation
pub trait ProgressBar {
    /// Advance by `n` units
    fn inc(&self, n: usize);

    /// Move to absolute position `n`
    fn set(&self, n: usize);

    /// The operation is complete
    fn finish(&self);
}

impl ProgressBarFactory for () {
    type BarType = ();

    fn create(&self, _len: usize, _msg: &'static str, _unit: Option<&'static str>) -> Self::BarType {
    }
}

impl ProgressBar for () {
    fn inc(&self, _n: usize) {
    }

    fn set(&self, _n: usize) {
    }

    fn finish(&self) {
    }
}

} // verus!
