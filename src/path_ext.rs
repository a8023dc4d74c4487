//! Absolute paths as plain values, and their root test.

use vstd::prelude::*;

verus! {

/// An absolute path as its components: a drive or volume prefix (possibly
/// empty), whether a root separator follows it, the normal segments, and the
/// separator used to write it out.
#[derive(Clone, Debug)]
pub struct AbsPath {
    pub prefix: String,
    pub has_root: bool,
    pub parts: Vec<String>,
    pub sep: String,
}

impl AbsPath {
    /// The segments as character sequences.
    pub open spec fn parts_view(&self) -> Seq<Seq<char>> {
        self.parts@.map_values(|p: String| p@)
    }
}

/// Root test on paths.
pub trait PathExt {
    /// Whether the last component of the path is the root separator.
    fn is_root(&self) -> bool;
}

impl PathExt for AbsPath {
    fn is_root(&self) -> (r: bool)
        ensures
            r == (self.has_root && self.parts@.len() == 0),
    {
        self.has_root && self.parts.len() == 0
    }
}

} // verus!
