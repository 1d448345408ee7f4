//! What can go wrong in the overlay and below it.

use vstd::prelude::*;

verus! {

/// A failure reported by the storage client, or by the transcript that
/// stands for it.
#[derive(Clone, Copy, Debug, PartialEq, Eq, Structural)]
pub enum ClientError {
    /// The network holds nothing under the name asked for.
    NoSuchData,
    /// The network refused a record because its version counter is stale.
    VersionConflict,
    /// The request did not reach the network or no answer came back.
    Network,
    /// A value could not be written as bytes or read back from them.
    Serialisation,
    /// Sealing or opening a payload failed.
    Crypto,
    /// The answer is of another kind than the request calls for.
    ReceivedUnexpectedData,
    /// The transcript holds no answer to this request yet.
    Unanswered,
    /// The transcript's next exchange belongs to another request.
    Diverged,
}

/// Errors of the directory and file overlay.
#[derive(Clone, Copy, Debug, PartialEq, Eq, Structural)]
pub enum NfsError {
    AlreadyExists,
    ClientError(ClientError),
    DestinationAndSourceAreSame,
    DirectoryNotFound,
    FailedToUpdateDirectory,
    FailedToUpdateFile,
    FileExistsInDestination,
    FileNotFound,
    InvalidOperation,
    InvalidRangeSpecified,
    MetadataIsEmpty,
    MetaDataMissingOrCorrupted,
    NameIsEmpty,
    NotFound,
}

impl NfsError {
    /// The error's printed form, as a sequence of characters.
    pub open spec fn spec_describe(self) -> Seq<char> {
        match self {
            NfsError::AlreadyExists => "NfsError::AlreadyExists"@,
            NfsError::ClientError(_) => "NfsError::ClientError"@,
            NfsError::DestinationAndSourceAreSame => "NfsError::DestinationAndSourceAreSame"@,
            NfsError::DirectoryNotFound => "NfsError::DirectoryNotFound"@,
            NfsError::FailedToUpdateDirectory => "NfsError::FailedToUpdateDirectory"@,
            NfsError::FailedToUpdateFile => "NfsError::FailedToUpdateFile"@,
            NfsError::FileExistsInDestination => "NfsError::FileExistsInDestination"@,
            NfsError::FileNotFound => "NfsError::FileNotFound"@,
            NfsError::InvalidOperation => "NfsError::InvalidOperation"@,
            NfsError::InvalidRangeSpecified => "NfsError::InvalidRangeSpecified"@,
            NfsError::MetadataIsEmpty => "NfsError::MetadataIsEmpty"@,
            NfsError::MetaDataMissingOrCorrupted => "NfsError::MetaDataMissingOrCorrupted"@,
            NfsError::NameIsEmpty => "NfsError::NameIsEmpty"@,
            NfsError::NotFound => "NfsError::NotFound"@,
        }
    }

    /// Wraps a failure of the storage client.
    pub fn from(error: ClientError) -> (r: NfsError)
        ensures
            r == NfsError::ClientError(error),
    {
        NfsError::ClientError(error)
    }

    /// The error's printed form: the type's name, two colons and the
    /// variant's name. A wrapped client failure prints without its cause.
    pub fn describe(&self) -> (r: String)
        ensures
            r@ == self.spec_describe(),
    {
        match self {
            NfsError::AlreadyExists => "NfsError::AlreadyExists".to_owned(),
            NfsError::ClientError(_) => "NfsError::ClientError".to_owned(),
            NfsError::DestinationAndSourceAreSame => {
                "NfsError::DestinationAndSourceAreSame".to_owned()
            },
            NfsError::DirectoryNotFound => "NfsError::DirectoryNotFound".to_owned(),
            NfsError::FailedToUpdateDirectory => "NfsError::FailedToUpdateDirectory".to_owned(),
            NfsError::FailedToUpdateFile => "NfsError::FailedToUpdateFile".to_owned(),
            NfsError::FileExistsInDestination => "NfsError::FileExistsInDestination".to_owned(),
            NfsError::FileNotFound => "NfsError::FileNotFound".to_owned(),
            NfsError::InvalidOperation => "NfsError::InvalidOperation".to_owned(),
            NfsError::InvalidRangeSpecified => "NfsError::InvalidRangeSpecified".to_owned(),
            NfsError::MetadataIsEmpty => "NfsError::MetadataIsEmpty".to_owned(),
            NfsError::MetaDataMissingOrCorrupted => {
                "NfsError::MetaDataMissingOrCorrupted".to_owned()
            },
            NfsError::NameIsEmpty => "NfsError::NameIsEmpty".to_owned(),
            NfsError::NotFound => "NfsError::NotFound".to_owned(),
        }
    }

    /// Whether the operation stopped only because the transcript ran out.
    pub fn is_unanswered(&self) -> (r: bool)
        ensures
            r == (*self == NfsError::ClientError(ClientError::Unanswered)),
    {
        match self {
            NfsError::ClientError(ClientError::Unanswered) => true,
            _ => false,
        }
    }
}

} // verus!
