//! Whole seconds of a modification time.

use vstd::prelude::*;
use crate::models::ModTime;

verus! {

/// Conversion of a point in time to whole seconds since the Unix epoch.
pub trait SystemTimeExt {
    fn to_sec(&self) -> u64;
}

impl SystemTimeExt for ModTime {
    fn to_sec(&self) -> (r: u64)
        ensures
            r == self.secs,
    {
        self.secs
    }
}

} // verus!
