use vstd::prelude::*;

verus! {

/// Errors arising while opening or reading a ZIM archive.
#[derive(Debug, Clone, Copy, PartialEq, Eq, Structural)]
pub enum Error {
    UnknownCompression,
    UnknownMimeType,
    InvalidMagicNumber,
    InvalidVersion,
    InvalidHeader,
    InvalidClusterExtension,
    InvalidNamespace,
    MissingBlobList,
    MissingChecksum,
    InvalidChecksum,
    OutOfBounds,
    ParsingError,
}

impl Error {
    /// The description of each error, as a character sequence.
    pub open spec fn spec_description(self) -> Seq<char> {
        match self {
            Error::UnknownCompression => "unknown compression"@,
            Error::UnknownMimeType => "unknown mimetype"@,
            Error::InvalidMagicNumber => "invalid magic number"@,
            Error::InvalidVersion => "invalid major version, must be 5 or 6"@,
            Error::InvalidHeader => "invalid header"@,
            Error::InvalidClusterExtension => "cluster extension requires major version 6"@,
            Error::InvalidNamespace => "invalid namespace"@,
            Error::MissingBlobList => "cluster is missing a blob list"@,
            Error::MissingChecksum => "missing checksum"@,
            Error::InvalidChecksum => "invalid checksum"@,
            Error::OutOfBounds => "out of bounds access"@,
            Error::ParsingError => "failed to parse"@,
        }
    }

    /// A short human-readable description of the error.
    pub fn description(&self) -> (r: String)
        ensures
            r@ == self.spec_description(),
    {
        match self {
            Error::UnknownCompression => "unknown compression".to_owned(),
            Error::UnknownMimeType => "unknown mimetype".to_owned(),
            Error::InvalidMagicNumber => "invalid magic number".to_owned(),
            Error::InvalidVersion => "invalid major version, must be 5 or 6".to_owned(),
            Error::InvalidHeader => "invalid header".to_owned(),
            Error::InvalidClusterExtension => "cluster extension requires major version 6".to_owned(),
            Error::InvalidNamespace => "invalid namespace".to_owned(),
            Error::MissingBlobList => "cluster is missing a blob list".to_owned(),
            Error::MissingChecksum => "missing checksum".to_owned(),
            Error::InvalidChecksum => "invalid checksum".to_owned(),
            Error::OutOfBounds => "out of bounds access".to_owned(),
            Error::ParsingError => "failed to parse".to_owned(),
        }
    }
}

} // verus!
