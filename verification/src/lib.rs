//! A library for reading ZIM archives.
//!
//! ZIM files are a single-file container format used to store wikis for
//! offline use: a fixed header, a MIME-type dictionary, offset tables
//! (by URL, by title, by cluster), variable-length directory entries, and
//! clusters of blobs that may be LZMA2-compressed.
//!
//! The archive is held in memory as a byte vector; every parsing step is
//! specified against little-endian reads of that byte sequence.

pub mod bytes;
pub mod cluster;
pub mod directory_entry;
pub mod mime_type;
pub mod namespace;
pub mod target;
pub mod uuid;
pub mod zim;
pub mod errors;
pub mod extract;

pub use crate::cluster::Cluster;
pub use crate::directory_entry::DirectoryEntry;
pub use crate::mime_type::MimeType;
pub use crate::namespace::Namespace;
pub use crate::target::Target;
pub use crate::uuid::Uuid;
pub use crate::zim::Zim;
