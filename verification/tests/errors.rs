use maidsafe_nfs::errors::{ClientError, NfsError};

#[test]
fn describe_names_the_variant() {
    let all = [
        (NfsError::AlreadyExists, "NfsError::AlreadyExists"),
        (NfsError::ClientError(ClientError::Network), "NfsError::ClientError"),
        (NfsError::ClientError(ClientError::Unanswered), "NfsError::ClientError"),
        (NfsError::DestinationAndSourceAreSame, "NfsError::DestinationAndSourceAreSame"),
        (NfsError::DirectoryNotFound, "NfsError::DirectoryNotFound"),
        (NfsError::FailedToUpdateDirectory, "NfsError::FailedToUpdateDirectory"),
        (NfsError::FailedToUpdateFile, "NfsError::FailedToUpdateFile"),
        (NfsError::FileExistsInDestination, "NfsError::FileExistsInDestination"),
        (NfsError::FileNotFound, "NfsError::FileNotFound"),
        (NfsError::InvalidOperation, "NfsError::InvalidOperation"),
        (NfsError::InvalidRangeSpecified, "NfsError::InvalidRangeSpecified"),
        (NfsError::MetadataIsEmpty, "NfsError::MetadataIsEmpty"),
        (NfsError::MetaDataMissingOrCorrupted, "NfsError::MetaDataMissingOrCorrupted"),
        (NfsError::NameIsEmpty, "NfsError::NameIsEmpty"),
        (NfsError::NotFound, "NfsError::NotFound"),
    ];
    for (error, text) in all {
        assert_eq!(error.describe(), text);
    }
}

#[test]
fn a_client_error_is_wrapped() {
    assert_eq!(
        NfsError::from(ClientError::ReceivedUnexpectedData),
        NfsError::ClientError(ClientError::ReceivedUnexpectedData)
    );
    assert!(NfsError::from(ClientError::Unanswered).is_unanswered());
    assert!(!NfsError::from(ClientError::Diverged).is_unanswered());
    assert!(!NfsError::NotFound.is_unanswered());
}
