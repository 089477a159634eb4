//! The mode switch of the durable file-save utility.
//!
//! The file operations themselves (atomic save with backup, load with
//! backup fallback, removal, directory creation) are I/O and live
//! outside the library; they read this value to pick permissions and
//! extra verification steps.

use vstd::prelude::*;

verus! {

/// Selects between production and test behaviour of the file
/// operations.
#[derive(Debug, Clone, Copy)]
pub struct FileOps {
    test_mode: bool,
}

impl FileOps {
    /// Whether this instance was built for testing.
    pub closed spec fn spec_test_mode(self) -> bool {
        self.test_mode
    }

    /// A new instance; `test_mode` asks for the more permissive
    /// behaviour used in tests.
    pub fn new(test_mode: bool) -> (r: FileOps)
        ensures
            r.spec_test_mode() == test_mode,
    {
        FileOps { test_mode }
    }

    /// The production instance.
    pub fn production() -> (r: FileOps)
        ensures
            !r.spec_test_mode(),
    {
        FileOps::new(false)
    }

    /// The testing instance.
    pub fn testing() -> (r: FileOps)
        ensures
            r.spec_test_mode(),
    {
        FileOps::new(true)
    }

    /// Whether this instance is in test mode.
    pub fn is_test_mode(&self) -> (r: bool)
        ensures
            r == self.spec_test_mode(),
    {
        self.test_mode
    }
}

} // verus!
