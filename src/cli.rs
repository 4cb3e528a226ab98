//! The commands of the harvesting tool.

use vstd::prelude::*;

verus! {

/// What the tool is asked to do.
#[derive(Debug, Clone, Copy, PartialEq, Eq, Structural)]
pub enum Commands {
    /// Resolve the catalog and download its data files.
    Update {},
    /// Load the downloaded files into the database, first emptying it where
    /// `init` is set.
    Process { init: bool },
}

/// A parsed command line.
#[derive(Debug, Clone, Copy, PartialEq, Eq, Structural)]
pub struct Cli {
    pub command: Commands,
}

} // verus!
