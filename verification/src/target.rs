use vstd::prelude::*;

verus! {

/// Where a directory entry's content lives.
#[derive(Debug, Clone, Copy, PartialEq, Eq, Structural)]
pub enum Target {
    /// Redirect specified as a URL index.
    Redirect(u32),
    /// Cluster index and blob index.
    Cluster(u32, u32),
}

} // verus!
