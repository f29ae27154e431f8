use vstd::prelude::*;

verus! {

/// The kind of content a directory entry's MIME id denotes: one of the three
/// reserved sentinels, or a string drawn from the archive's MIME dictionary.
#[derive(Debug, PartialEq)]
pub enum MimeType {
    /// A special kind that represents a redirection.
    Redirect,
    LinkTarget,
    DeletedEntry,
    Type(String),
}

} // verus!
