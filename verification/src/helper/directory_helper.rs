//! Creating, fetching, updating and deleting directory listings.
//!
//! Each operation comes in two forms. The spec function on
//! [`ClientView`] says what the operation comes to on a given transcript:
//! its result and the client it leaves behind. The method of
//! [`DirectoryHelper`] carries it out and is proved to come to just that.

use vstd::prelude::*;
use crate::client::{
    result_view, Client, ClientView, Request, RequestView, Response, ResponseView, StructuredData,
    StructuredDataView,
};
use crate::codec::{
    decode_listing, decode_versions, decoded_listing, decoded_versions, encode_listing,
    encode_versions,
};
use crate::view::views;
use crate::directory_listing::{
    directory_named, lemma_position, position, DirectoryListing, DirectoryListingView,
};
use crate::errors::{ClientError, NfsError};
use crate::laws::{lemma_client_fits_memory, lemma_entered_once};
use crate::listing_tag;
use crate::metadata::DirectoryInfoView;
use crate::substrate::consistent;
use crate::name::{key_option_view, NetworkName};
use crate::nonce::{generate_nonce, nonce_of};
use crate::timestamp::Timestamp;
use crate::wire::{enc_list, Wire};
use crate::{
    AccessLevel, CONFIGURATION_DIRECTORY_NAME, ROOT_DIRECTORY_NAME,
    UNVERSIONED_DIRECTORY_LISTING_TAG, VERSIONED_DIRECTORY_LISTING_TAG,
};

verus! {

/// A result together with the client that the operation leaves behind.
pub type Outcome<T> = (Result<T, NfsError>, ClientView);

/// A failure of the storage client as the overlay reports it: a name under
/// which nothing lies is reported as not found.
pub open spec fn surfaced(e: NfsError) -> NfsError {
    if e == NfsError::ClientError(ClientError::NoSuchData) {
        NfsError::NotFound
    } else {
        e
    }
}

/// The views of the names in a result.
pub open spec fn names_result_view(r: Result<Vec<NetworkName>, NfsError>) -> Result<
    Seq<Seq<u8>>,
    NfsError,
> {
    match r {
        Ok(x) => Ok(views(x@)),
        Err(e) => Err(e),
    }
}

/// The view of a result that holds bytes.
pub open spec fn bytes_result_view(r: Result<Vec<u8>, NfsError>) -> Result<Seq<u8>, NfsError> {
    match r {
        Ok(x) => Ok(x@),
        Err(e) => Err(e),
    }
}

/// The listing that plain bytes stand for.
pub open spec fn listing_of(plain: Seq<u8>) -> Result<DirectoryListingView, NfsError> {
    match decoded_listing(plain) {
        Some(l) => Ok(l),
        None => Err(NfsError::MetaDataMissingOrCorrupted),
    }
}

/// Whether a listing is what lies under a key: it carries the key's
/// identifier and type tag, says of itself what it was fetched as, and has
/// no two entries of one name.
pub open spec fn describes(
    listing: DirectoryListingView,
    id: Seq<u8>,
    type_tag: u64,
    versioned: bool,
    access_level: AccessLevel,
) -> bool {
    &&& listing.info.id == id
    &&& listing.info.type_tag == type_tag
    &&& listing.info.versioned == versioned
    &&& listing.info.access_level == access_level
    &&& listing.wf()
}

/// Whether a listing holds a description once: in one place, and no other
/// place holds its name or its identifier.
pub open spec fn holds_once(listing: DirectoryListingView, info: DirectoryInfoView) -> bool {
    exists|i: int| holds_at(listing, info, i)
}

/// Whether a listing holds a description at `i` and nowhere else its name
/// or its identifier.
pub open spec fn holds_at(listing: DirectoryListingView, info: DirectoryInfoView, i: int) -> bool {
    &&& 0 <= i < listing.sub_directories.len()
    &&& listing.sub_directories[i] == info
    &&& forall|j: int|
        0 <= j < listing.sub_directories.len() && j != i ==> (
        #[trigger] listing.sub_directories[j]).name != info.name
            && listing.sub_directories[j].id != info.id
}

/// Whether a type tag is one of the two under which listings are stored.
pub open spec fn is_listing_tag(type_tag: u64) -> bool {
    type_tag == VERSIONED_DIRECTORY_LISTING_TAG || type_tag == UNVERSIONED_DIRECTORY_LISTING_TAG
}

/// The versions that a record's payload lists.
pub open spec fn versions_of(payload: Seq<u8>) -> Result<Seq<Seq<u8>>, NfsError> {
    match decoded_versions(payload) {
        Some(v) => Ok(v),
        None => Err(NfsError::MetaDataMissingOrCorrupted),
    }
}

impl ClientView {
    /// Fetching the record with the given identifier and type tag. A
    /// record that carries another identifier or type tag is unexpected
    /// data.
    pub open spec fn get_structured_data(self, id: Seq<u8>, type_tag: u64) -> Outcome<
        StructuredDataView,
    > {
        match self.call(RequestView::GetRecord { type_tag, id }) {
            (Ok(ResponseView::Record(record)), c) => if record.type_tag == type_tag && record.id
                == id {
                (Ok(record), c)
            } else {
                (Err(NfsError::ClientError(ClientError::ReceivedUnexpectedData)), c)
            },
            (Ok(_), c) => (Err(NfsError::ClientError(ClientError::ReceivedUnexpectedData)), c),
            (Err(e), c) => (Err(surfaced(e)), c),
        }
    }

    /// Fetching the blob with the given name.
    pub open spec fn get_immutable_data(self, name: Seq<u8>) -> Outcome<Seq<u8>> {
        match self.call(RequestView::GetBlob { name }) {
            (Ok(ResponseView::Blob(content)), c) => (Ok(content), c),
            (Ok(_), c) => (Err(NfsError::ClientError(ClientError::ReceivedUnexpectedData)), c),
            (Err(e), c) => (Err(surfaced(e)), c),
        }
    }

    /// Storing a content as a blob; the result is the blob's name.
    pub open spec fn save_as_immutable_data(self, content: Seq<u8>) -> Outcome<Seq<u8>> {
        match self.call(RequestView::PutBlob { content }) {
            (Ok(ResponseView::Stored(name)), c) => (Ok(name), c),
            (Ok(_), c) => (Err(NfsError::ClientError(ClientError::ReceivedUnexpectedData)), c),
            (Err(e), c) => (Err(e), c),
        }
    }

    /// Storing a new record.
    pub open spec fn put_record(self, record: StructuredDataView) -> Outcome<()> {
        match self.call(RequestView::PutRecord { record }) {
            (Ok(ResponseView::Done), c) => (Ok(()), c),
            (Ok(_), c) => (Err(NfsError::ClientError(ClientError::ReceivedUnexpectedData)), c),
            (Err(e), c) => (Err(e), c),
        }
    }

    /// Replacing a record. A stale version counter is reported as a failed
    /// update.
    pub open spec fn post_record(self, record: StructuredDataView) -> Outcome<()> {
        match self.call(RequestView::PostRecord { record }) {
            (Ok(ResponseView::Done), c) => (Ok(()), c),
            (Ok(_), c) => (Err(NfsError::ClientError(ClientError::ReceivedUnexpectedData)), c),
            (Err(e), c) => if e == NfsError::ClientError(ClientError::VersionConflict) {
                (Err(NfsError::FailedToUpdateDirectory), c)
            } else {
                (Err(e), c)
            },
        }
    }

    /// The bytes to store for a listing's plain bytes: sealed under the
    /// nonce that goes with the listing's name where the listing is
    /// private.
    pub open spec fn sealed(self, id: Seq<u8>, access_level: AccessLevel, plain: Seq<u8>) -> Outcome<
        Seq<u8>,
    > {
        match access_level {
            AccessLevel::Public => (Ok(plain), self),
            AccessLevel::Private => match self.call(
                RequestView::Seal { nonce: nonce_of(id), plain },
            ) {
                (Ok(ResponseView::Sealed(body)), c) => (Ok(body), c),
                (Ok(_), c) => (
                    Err(NfsError::ClientError(ClientError::ReceivedUnexpectedData)),
                    c,
                ),
                (Err(e), c) => (Err(e), c),
            },
        }
    }

    /// The plain bytes of a stored body: opened under the nonce that goes
    /// with the listing's name where the listing is private.
    pub open spec fn opened(self, id: Seq<u8>, access_level: AccessLevel, body: Seq<u8>) -> Outcome<
        Seq<u8>,
    > {
        match access_level {
            AccessLevel::Public => (Ok(body), self),
            AccessLevel::Private => match self.call(
                RequestView::Open { nonce: nonce_of(id), sealed: body },
            ) {
                (Ok(ResponseView::Opened(plain)), c) => (Ok(plain), c),
                (Ok(_), c) => (
                    Err(NfsError::ClientError(ClientError::ReceivedUnexpectedData)),
                    c,
                ),
                (Err(e), c) => (Err(e), c),
            },
        }
    }

    /// Fetching one stored version of a listing.
    #[verifier::opaque]
    pub open spec fn get_by_version(
        self,
        id: Seq<u8>,
        access_level: AccessLevel,
        version: Seq<u8>,
    ) -> Outcome<DirectoryListingView> {
        match self.get_immutable_data(version) {
            (Err(e), c) => (Err(e), c),
            (Ok(body), c) => match c.opened(id, access_level, body) {
                (Err(e), c2) => (Err(e), c2),
                (Ok(plain), c2) => (listing_of(plain), c2),
            },
        }
    }

    /// Listing the stored versions of a listing, oldest first.
    #[verifier::opaque]
    pub open spec fn get_versions(self, id: Seq<u8>, type_tag: u64) -> Outcome<Seq<Seq<u8>>> {
        if type_tag != VERSIONED_DIRECTORY_LISTING_TAG {
            (Err(NfsError::InvalidOperation), self)
        } else {
            match self.get_structured_data(id, VERSIONED_DIRECTORY_LISTING_TAG) {
                (Err(e), c) => (Err(e), c),
                (Ok(record), c) => (versions_of(record.payload), c),
            }
        }
    }

    /// Fetching the latest state of a listing: the record is fetched;
    /// where the listing keeps history, the blob that the record lists
    /// last holds the listing, otherwise the record's payload does.
    #[verifier::opaque]
    pub open spec fn get(
        self,
        id: Seq<u8>,
        type_tag: u64,
        versioned: bool,
        access_level: AccessLevel,
    ) -> Outcome<DirectoryListingView> {
        match self.get_structured_data(id, type_tag) {
            (Err(e), c) => (Err(e), c),
            (Ok(record), c) => if versioned {
                match versions_of(record.payload) {
                    Err(e) => (Err(e), c),
                    Ok(versions) => if versions.len() == 0 {
                        (Err(NfsError::NotFound), c)
                    } else {
                        c.get_by_version(id, access_level, versions.last())
                    },
                }
            } else {
                match c.opened(id, access_level, record.payload) {
                    (Err(e), c2) => (Err(e), c2),
                    (Ok(plain), c2) => (listing_of(plain), c2),
                }
            },
        }
    }
}

/// What creating a directory comes to: the result, the parent listing as
/// the operation leaves it, and the client.
pub struct Created {
    pub result: Result<DirectoryListingView, NfsError>,
    pub parent: Option<DirectoryListingView>,
    pub client: ClientView,
}

/// What deleting a sub-directory comes to: the result, the parent listing
/// as the operation leaves it, and the client.
pub struct Deleted {
    pub result: Result<(), NfsError>,
    pub parent: DirectoryListingView,
    pub client: ClientView,
}

/// The view of an optional name in a result.
pub open spec fn root_result_view(r: Result<Option<NetworkName>, NfsError>) -> Result<
    Option<Seq<u8>>,
    NfsError,
> {
    match r {
        Ok(Some(x)) => Ok(Some(x@)),
        Ok(None) => Ok(None),
        Err(e) => Err(e),
    }
}

/// The view of an optional listing in a result.
pub open spec fn parent_result_view(r: Result<Option<DirectoryListing>, NfsError>) -> Result<
    Option<DirectoryListingView>,
    NfsError,
> {
    match r {
        Ok(Some(x)) => Ok(Some(x@)),
        Ok(None) => Ok(None),
        Err(e) => Err(e),
    }
}

/// The request that hands the session the identifier of the user's root
/// listing, or of the configuration root listing.
pub open spec fn keep_root(user: bool, id: Seq<u8>) -> RequestView {
    if user {
        RequestView::SetUserRoot { id }
    } else {
        RequestView::SetConfigurationRoot { id }
    }
}

/// The key of an optional listing.
pub open spec fn parent_key(parent: Option<DirectoryListingView>) -> Option<(Seq<u8>, u64)> {
    match parent {
        Some(p) => Some(p.key()),
        None => None,
    }
}

impl ClientView {
    /// Asking for a name that nothing goes by yet.
    pub open spec fn fresh_name(self) -> Outcome<Seq<u8>> {
        match self.call(RequestView::FreshName) {
            (Ok(ResponseView::Name(name)), c) => (Ok(name), c),
            (Ok(_), c) => (Err(NfsError::ClientError(ClientError::ReceivedUnexpectedData)), c),
            (Err(e), c) => (Err(e), c),
        }
    }

    /// Asking for the time.
    pub open spec fn clock(self) -> Outcome<Timestamp> {
        match self.call(RequestView::Clock) {
            (Ok(ResponseView::Time(t)), c) => (Ok(t), c),
            (Ok(_), c) => (Err(NfsError::ClientError(ClientError::ReceivedUnexpectedData)), c),
            (Err(e), c) => (Err(e), c),
        }
    }

    /// Asking for one of the session's root identifiers.
    pub open spec fn root(self, request: RequestView) -> Outcome<Option<Seq<u8>>> {
        match self.call(request) {
            (Ok(ResponseView::Root(id)), c) => (Ok(id), c),
            (Ok(_), c) => (Err(NfsError::ClientError(ClientError::ReceivedUnexpectedData)), c),
            (Err(e), c) => (Err(e), c),
        }
    }

    /// Handing the session one of its root identifiers.
    pub open spec fn set_root(self, request: RequestView) -> Outcome<()> {
        match self.call(request) {
            (Ok(ResponseView::Done), c) => (Ok(()), c),
            (Ok(_), c) => (Err(NfsError::ClientError(ClientError::ReceivedUnexpectedData)), c),
            (Err(e), c) => (Err(e), c),
        }
    }

    /// Making the first record of a listing: the listing's bytes are sealed
    /// where it is private; where it keeps history they are stored as a
    /// blob and the record lists that blob alone, otherwise the record
    /// holds them.
    #[verifier::opaque]
    pub open spec fn save_directory_listing(self, directory: DirectoryListingView) -> Outcome<
        StructuredDataView,
    > {
        match self.sealed(
            directory.info.id,
            directory.info.access_level,
            DirectoryListing::enc(directory),
        ) {
            (Err(e), c) => (Err(e), c),
            (Ok(body), c) => if directory.info.versioned {
                match c.save_as_immutable_data(body) {
                    (Err(e), c2) => (Err(e), c2),
                    (Ok(version), c2) => (
                        Ok(
                            StructuredDataView {
                                type_tag: VERSIONED_DIRECTORY_LISTING_TAG,
                                id: directory.info.id,
                                version: 0,
                                payload: enc_list::<NetworkName>(seq![version]),
                            },
                        ),
                        c2,
                    ),
                }
            } else {
                (
                    Ok(
                        StructuredDataView {
                            type_tag: UNVERSIONED_DIRECTORY_LISTING_TAG,
                            id: directory.info.id,
                            version: 0,
                            payload: body,
                        },
                    ),
                    c,
                )
            },
        }
    }

    /// Replacing a record and fetching the listing again.
    #[verifier::opaque]
    pub open spec fn post_and_get(
        self,
        record: StructuredDataView,
        directory: DirectoryListingView,
    ) -> Outcome<DirectoryListingView> {
        match self.post_record(record) {
            (Err(e), c) => (Err(e), c),
            (Ok(_), c) => c.get(
                directory.info.id,
                directory.info.type_tag,
                directory.info.versioned,
                directory.info.access_level,
            ),
        }
    }

    /// Storing a new state of a listing: a listing with two entries of one
    /// name is refused before anything is asked of the network. The record
    /// is fetched, the listing's bytes are sealed where it is private;
    /// where it keeps
    /// history they are stored as a blob whose name is added to the
    /// record's list, otherwise they take the place of the record's
    /// payload. The record is counted up and replaced, and the listing is
    /// fetched again.
    #[verifier::opaque]
    pub open spec fn update_directory_listing(self, directory: DirectoryListingView) -> Outcome<
        DirectoryListingView,
    > {
        if !directory.wf() {
            (Err(NfsError::MetaDataMissingOrCorrupted), self)
        } else {
            self.replace(directory)
        }
    }

    /// Storing a new state of a listing that has no two entries of one
    /// name.
    #[verifier::opaque]
    pub open spec fn replace(self, directory: DirectoryListingView) -> Outcome<
        DirectoryListingView,
    > {
        match self.get_structured_data(directory.info.id, directory.info.type_tag) {
            (Err(e), c) => (Err(e), c),
            (Ok(record), c) => if record.version == u64::MAX {
                (Err(NfsError::FailedToUpdateDirectory), c)
            } else if directory.info.versioned {
                match versions_of(record.payload) {
                    Err(e) => (Err(e), c),
                    Ok(versions) => match c.sealed(
                        directory.info.id,
                        directory.info.access_level,
                        DirectoryListing::enc(directory),
                    ) {
                        (Err(e), c2) => (Err(e), c2),
                        (Ok(body), c2) => match c2.save_as_immutable_data(body) {
                            (Err(e), c3) => (Err(e), c3),
                            (Ok(version), c3) => c3.post_and_get(
                                StructuredDataView {
                                    type_tag: record.type_tag,
                                    id: record.id,
                                    version: (record.version + 1) as u64,
                                    payload: enc_list::<NetworkName>(versions.push(version)),
                                },
                                directory,
                            ),
                        },
                    },
                }
            } else {
                match c.sealed(
                    directory.info.id,
                    directory.info.access_level,
                    DirectoryListing::enc(directory),
                ) {
                    (Err(e), c2) => (Err(e), c2),
                    (Ok(body), c2) => c2.post_and_get(
                        StructuredDataView {
                            type_tag: UNVERSIONED_DIRECTORY_LISTING_TAG,
                            id: directory.info.id,
                            version: (record.version + 1) as u64,
                            payload: body,
                        },
                        directory,
                    ),
                }
            },
        }
    }

    /// The parent as it is stored after a listing was entered in it: the
    /// parent that was fetched, with the listing's description put in at
    /// the time that the clock gave.
    pub open spec fn entering(self, directory: DirectoryListingView) -> DirectoryListingView {
        let c1 = self.update_directory_listing(directory).1;
        let key = directory.info.parent_dir_key.unwrap();
        let fetched = c1.get(
            key.0,
            key.1,
            key.1 == VERSIONED_DIRECTORY_LISTING_TAG,
            directory.info.access_level,
        );
        let now = fetched.1.clock().0.unwrap();
        fetched.0.unwrap().with_sub_directory(directory.info, now)
    }

    /// Storing a new state of a listing and entering it in its parent: the
    /// listing is stored; where it has a parent, the parent is fetched,
    /// takes the listing's description in, and is stored in turn. Whether
    /// the parent keeps history is read off the type tag of its key; it is
    /// opened as the listing itself is. What was fetched is taken for the
    /// parent only where it carries the parent's key, is of that kind and
    /// has no two entries of one name; otherwise it is reported as
    /// corrupted and nothing more is stored.
    #[verifier::opaque]
    pub open spec fn update_directory_listing_and_parent(
        self,
        directory: DirectoryListingView,
    ) -> Outcome<Option<DirectoryListingView>> {
        match self.update_directory_listing(directory) {
            (Err(e), c) => (Err(e), c),
            (Ok(_), c) => match directory.info.parent_dir_key {
                None => (Ok(None), c),
                Some(key) => match c.get(
                    key.0,
                    key.1,
                    key.1 == VERSIONED_DIRECTORY_LISTING_TAG,
                    directory.info.access_level,
                ) {
                    (Err(e), c2) => (Err(e), c2),
                    (Ok(parent), c2) => if !describes(
                        parent,
                        key.0,
                        key.1,
                        key.1 == VERSIONED_DIRECTORY_LISTING_TAG,
                        directory.info.access_level,
                    ) {
                        (Err(NfsError::MetaDataMissingOrCorrupted), c2)
                    } else {
                        match parent.refusal(directory.info) {
                        Some(e) => (Err(e), c2),
                        None => match c2.clock() {
                            (Err(e), c3) => (Err(e), c3),
                            (Ok(now), c3) => match c3.update_directory_listing(
                                parent.with_sub_directory(directory.info, now),
                            ) {
                                (Err(e), c4) => (Err(e), c4),
                                (Ok(stored), c4) => (Ok(Some(stored)), c4),
                            },
                        },
                        }
                    },
                },
            },
        }
    }

    /// Making a listing and storing its first record: the listing gets a
    /// fresh identifier and the time, its record is made and stored. The
    /// result is the listing and the time it was stamped with.
    #[verifier::opaque]
    pub open spec fn make(
        self,
        name: Seq<char>,
        type_tag: u64,
        user_metadata: Seq<u8>,
        versioned: bool,
        access_level: AccessLevel,
        parent_dir_key: Option<(Seq<u8>, u64)>,
    ) -> Outcome<(DirectoryListingView, Timestamp)> {
        match self.fresh_name() {
            (Err(e), c) => (Err(e), c),
            (Ok(id), c) => match c.clock() {
                (Err(e), c2) => (Err(e), c2),
                (Ok(now), c2) => {
                    let directory = DirectoryListingView::created(
                        id,
                        name,
                        type_tag,
                        user_metadata,
                        versioned,
                        access_level,
                        parent_dir_key,
                        now,
                    );
                    match c2.save_directory_listing(directory) {
                        (Err(e), c3) => (Err(e), c3),
                        (Ok(record), c3) => match c3.put_record(record) {
                            (Err(e), c4) => (Err(e), c4),
                            (Ok(_), c4) => (Ok((directory, now)), c4),
                        },
                    }
                },
            },
        }
    }

    /// Creating a directory: an empty name and a name that the parent
    /// already holds are refused before anything is asked of the network.
    /// The listing is made and its first record stored; where there is a
    /// parent, the parent takes the listing's description in and is stored
    /// with its own parent.
    #[verifier::opaque]
    pub open spec fn create(
        self,
        name: Seq<char>,
        type_tag: u64,
        user_metadata: Seq<u8>,
        versioned: bool,
        access_level: AccessLevel,
        parent: Option<DirectoryListingView>,
    ) -> Created {
        if name.len() == 0 {
            Created { result: Err(NfsError::NameIsEmpty), parent, client: self }
        } else if parent is Some && parent->0.find_sub_directory(name) is Some {
            Created { result: Err(NfsError::AlreadyExists), parent, client: self }
        } else {
            match self.make(
                name,
                type_tag,
                user_metadata,
                versioned,
                access_level,
                parent_key(parent),
            ) {
                (Err(e), c) => Created { result: Err(e), parent, client: c },
                (Ok((directory, now)), c) => match parent {
                    None => Created { result: Ok(directory), parent, client: c },
                    Some(p) => {
                        let entered = p.with_sub_directory(directory.info, now);
                        match c.update_directory_listing_and_parent(entered) {
                            (Err(e), c2) => Created {
                                result: Err(e),
                                parent: Some(entered),
                                client: c2,
                            },
                            (Ok(_), c2) => Created {
                                result: Ok(directory),
                                parent: Some(entered),
                                client: c2,
                            },
                        }
                    },
                },
            }
        }
    }

    /// Deleting a sub-directory: the first entry of that name leaves the
    /// parent, and the parent is stored with its own parent. The
    /// sub-directory's own record and blobs stay where they are.
    #[verifier::opaque]
    pub open spec fn delete(self, parent: DirectoryListingView, name: Seq<char>) -> Deleted {
        match position(parent.sub_directories, directory_named(name)) {
            None => Deleted {
                result: Err(NfsError::DirectoryNotFound),
                parent,
                client: self,
            },
            Some(i) => {
                let left = parent.without_sub_directory(i);
                match self.update_directory_listing_and_parent(left) {
                    (Err(e), c) => Deleted { result: Err(e), parent: left, client: c },
                    (Ok(_), c) => Deleted { result: Ok(()), parent: left, client: c },
                }
            },
        }
    }

    /// Creating one of the two root listings and handing its identifier to
    /// the session.
    #[verifier::opaque]
    pub open spec fn create_root(self, name: Seq<char>, user: bool) -> Outcome<
        DirectoryListingView,
    > {
        let made = self.create(
            name,
            UNVERSIONED_DIRECTORY_LISTING_TAG,
            Seq::empty(),
            false,
            AccessLevel::Private,
            None,
        );
        match made.result {
            Err(e) => (Err(e), made.client),
            Ok(directory) => match made.client.set_root(keep_root(user, directory.info.id)) {
                (Err(e), c) => (Err(e), c),
                (Ok(_), c) => (Ok(directory), c),
            },
        }
    }

    /// Fetching the user's root listing, or creating it where the session
    /// has none.
    #[verifier::opaque]
    pub open spec fn get_user_root_directory_listing(self) -> Outcome<DirectoryListingView> {
        match self.root(RequestView::UserRoot) {
            (Err(e), c) => (Err(e), c),
            (Ok(Some(id)), c) => c.get(
                id,
                UNVERSIONED_DIRECTORY_LISTING_TAG,
                false,
                AccessLevel::Private,
            ),
            (Ok(None), c) => c.create_root(ROOT_DIRECTORY_NAME@, true),
        }
    }

    /// Fetching the configuration root listing, or creating it where the
    /// session has none.
    #[verifier::opaque]
    pub open spec fn get_configuration_root(self) -> Outcome<DirectoryListingView> {
        match self.root(RequestView::ConfigurationRoot) {
            (Err(e), c) => (Err(e), c),
            (Ok(Some(id)), c) => c.get(
                id,
                UNVERSIONED_DIRECTORY_LISTING_TAG,
                false,
                AccessLevel::Private,
            ),
            (Ok(None), c) => c.create_root(CONFIGURATION_DIRECTORY_NAME@, false),
        }
    }

    /// Fetching a configuration directory by name, or creating it under
    /// the configuration root where there is none of that name.
    #[verifier::opaque]
    pub open spec fn get_configuration_directory_listing(self, name: Seq<char>) -> Outcome<
        DirectoryListingView,
    > {
        match self.get_configuration_root() {
            (Err(e), c) => (Err(e), c),
            (Ok(root), c) => match root.find_sub_directory(name) {
                Some(info) => c.get(
                    info.id,
                    info.type_tag,
                    false,
                    AccessLevel::Private,
                ),
                None => {
                    let made = c.create(
                        name,
                        UNVERSIONED_DIRECTORY_LISTING_TAG,
                        Seq::empty(),
                        false,
                        AccessLevel::Private,
                        Some(root),
                    );
                    (made.result, made.client)
                },
            },
        }
    }
}

/// Carries out the operations on directory listings through a storage
/// client.
#[derive(Debug)]
pub struct DirectoryHelper {
    pub client: Client,
}

impl DirectoryHelper {
    /// A helper that works through the given client.
    pub fn new(client: Client) -> (r: DirectoryHelper)
        ensures
            r.client@ == client@,
    {
        DirectoryHelper { client }
    }

    /// Hands the client back.
    pub fn into_client(self) -> (r: Client)
        ensures
            r@ == self.client@,
    {
        self.client
    }

    /// Fetches the record with the given identifier and type tag.
    pub fn get_structured_data(&mut self, id: &NetworkName, type_tag: u64) -> (r: Result<
        StructuredData,
        NfsError,
    >)
        ensures
            (result_view(r), final(self).client@) == old(self).client@.get_structured_data(
                id@,
                type_tag,
            ),
    {
        match self.client.call(Request::GetRecord { type_tag, id: id.clone() }) {
            Ok(Response::Record(record)) => {
                if record.type_tag == type_tag && record.id.same(id) {
                    Ok(record)
                } else {
                    Err(NfsError::from(ClientError::ReceivedUnexpectedData))
                }
            },
            Ok(_) => Err(NfsError::from(ClientError::ReceivedUnexpectedData)),
            Err(NfsError::ClientError(ClientError::NoSuchData)) => Err(NfsError::NotFound),
            Err(e) => Err(e),
        }
    }

    /// Fetches the blob with the given name.
    pub fn get_immutable_data(&mut self, name: &NetworkName) -> (r: Result<Vec<u8>, NfsError>)
        ensures
            (bytes_result_view(r), final(self).client@) == old(self).client@.get_immutable_data(
                name@,
            ),
    {
        match self.client.call(Request::GetBlob { name: name.clone() }) {
            Ok(Response::Blob(content)) => Ok(content),
            Ok(_) => Err(NfsError::from(ClientError::ReceivedUnexpectedData)),
            Err(NfsError::ClientError(ClientError::NoSuchData)) => Err(NfsError::NotFound),
            Err(e) => Err(e),
        }
    }

    /// Stores a content as a blob and returns the blob's name.
    pub fn save_as_immutable_data(&mut self, content: Vec<u8>) -> (r: Result<
        NetworkName,
        NfsError,
    >)
        ensures
            (result_view(r), final(self).client@) == old(self).client@.save_as_immutable_data(
                content@,
            ),
    {
        match self.client.call(Request::PutBlob { content }) {
            Ok(Response::Stored(name)) => Ok(name),
            Ok(_) => Err(NfsError::from(ClientError::ReceivedUnexpectedData)),
            Err(e) => Err(e),
        }
    }

    /// Stores a new record.
    pub fn put_record(&mut self, record: StructuredData) -> (r: Result<(), NfsError>)
        ensures
            (r, final(self).client@) == old(self).client@.put_record(record@),
    {
        match self.client.call(Request::PutRecord { record }) {
            Ok(Response::Done) => Ok(()),
            Ok(_) => Err(NfsError::from(ClientError::ReceivedUnexpectedData)),
            Err(e) => Err(e),
        }
    }

    /// Replaces a record.
    pub fn post_record(&mut self, record: StructuredData) -> (r: Result<(), NfsError>)
        ensures
            (r, final(self).client@) == old(self).client@.post_record(record@),
    {
        match self.client.call(Request::PostRecord { record }) {
            Ok(Response::Done) => Ok(()),
            Ok(_) => Err(NfsError::from(ClientError::ReceivedUnexpectedData)),
            Err(NfsError::ClientError(ClientError::VersionConflict)) => Err(
                NfsError::FailedToUpdateDirectory,
            ),
            Err(e) => Err(e),
        }
    }

    /// The bytes to store for a listing's plain bytes.
    pub fn seal(&mut self, id: &NetworkName, access_level: AccessLevel, plain: Vec<u8>) -> (r:
        Result<Vec<u8>, NfsError>)
        ensures
            (bytes_result_view(r), final(self).client@) == old(self).client@.sealed(
                id@,
                access_level,
                plain@,
            ),
    {
        match access_level {
            AccessLevel::Public => Ok(plain),
            AccessLevel::Private => match self.client.call(
                Request::Seal { nonce: generate_nonce(id), plain },
            ) {
                Ok(Response::Sealed(body)) => Ok(body),
                Ok(_) => Err(NfsError::from(ClientError::ReceivedUnexpectedData)),
                Err(e) => Err(e),
            },
        }
    }

    /// The plain bytes of a stored body.
    pub fn open(&mut self, id: &NetworkName, access_level: AccessLevel, body: Vec<u8>) -> (r:
        Result<Vec<u8>, NfsError>)
        ensures
            (bytes_result_view(r), final(self).client@) == old(self).client@.opened(
                id@,
                access_level,
                body@,
            ),
    {
        match access_level {
            AccessLevel::Public => Ok(body),
            AccessLevel::Private => match self.client.call(
                Request::Open { nonce: generate_nonce(id), sealed: body },
            ) {
                Ok(Response::Opened(plain)) => Ok(plain),
                Ok(_) => Err(NfsError::from(ClientError::ReceivedUnexpectedData)),
                Err(e) => Err(e),
            },
        }
    }

    /// Returns the listing as it was stored under the given version.
    pub fn get_by_version(
        &mut self,
        directory_key: (&NetworkName, u64),
        access_level: AccessLevel,
        version: &NetworkName,
    ) -> (r: Result<DirectoryListing, NfsError>)
        ensures
            (result_view(r), final(self).client@) == old(self).client@.get_by_version(
                directory_key.0@,
                access_level,
                version@,
            ),
    {
        reveal(ClientView::get_by_version);
        let body = match self.get_immutable_data(version) {
            Ok(x) => x,
            Err(e) => {
                return Err(e);
            },
        };
        let plain = match self.open(directory_key.0, access_level, body) {
            Ok(x) => x,
            Err(e) => {
                return Err(e);
            },
        };
        match decode_listing(&plain) {
            Some(listing) => Ok(listing),
            None => Err(NfsError::MetaDataMissingOrCorrupted),
        }
    }

    /// Returns the names of the stored versions of a listing, oldest first.
    /// Only a listing that keeps its history has any.
    pub fn get_versions(&mut self, directory_key: (&NetworkName, u64)) -> (r: Result<
        Vec<NetworkName>,
        NfsError,
    >)
        ensures
            (names_result_view(r), final(self).client@) == old(self).client@.get_versions(
                directory_key.0@,
                directory_key.1,
            ),
    {
        reveal(ClientView::get_versions);
        if directory_key.1 != VERSIONED_DIRECTORY_LISTING_TAG {
            return Err(NfsError::InvalidOperation);
        }
        let record = match self.get_structured_data(
            directory_key.0,
            VERSIONED_DIRECTORY_LISTING_TAG,
        ) {
            Ok(x) => x,
            Err(e) => {
                return Err(e);
            },
        };
        match decode_versions(&record.payload) {
            Some(versions) => Ok(versions),
            None => Err(NfsError::MetaDataMissingOrCorrupted),
        }
    }

    /// Returns the latest state of a listing: for a listing that keeps
    /// history, the version that its record lists last.
    pub fn get(
        &mut self,
        directory_key: (&NetworkName, u64),
        versioned: bool,
        access_level: AccessLevel,
    ) -> (r: Result<DirectoryListing, NfsError>)
        ensures
            (result_view(r), final(self).client@) == old(self).client@.get(
                directory_key.0@,
                directory_key.1,
                versioned,
                access_level,
            ),
    {
        reveal(ClientView::get);
        let record = match self.get_structured_data(directory_key.0, directory_key.1) {
            Ok(x) => x,
            Err(e) => {
                return Err(e);
            },
        };
        if versioned {
            let versions = match decode_versions(&record.payload) {
                Some(x) => x,
                None => {
                    return Err(NfsError::MetaDataMissingOrCorrupted);
                },
            };
            if versions.len() == 0 {
                return Err(NfsError::NotFound);
            }
            let last: usize = versions.len() - 1;
            assert(views(versions@).last() == versions@[last as int]@);
            self.get_by_version(directory_key, access_level, &versions[last])
        } else {
            let plain = match self.open(directory_key.0, access_level, record.payload) {
                Ok(x) => x,
                Err(e) => {
                    return Err(e);
                },
            };
            match decode_listing(&plain) {
                Some(listing) => Ok(listing),
                None => Err(NfsError::MetaDataMissingOrCorrupted),
            }
        }
    }

    /// Asks for a name that nothing goes by yet.
    pub fn fresh_name(&mut self) -> (r: Result<NetworkName, NfsError>)
        ensures
            (result_view(r), final(self).client@) == old(self).client@.fresh_name(),
    {
        match self.client.call(Request::FreshName) {
            Ok(Response::Name(name)) => Ok(name),
            Ok(_) => Err(NfsError::from(ClientError::ReceivedUnexpectedData)),
            Err(e) => Err(e),
        }
    }

    /// Asks for the time.
    pub fn clock(&mut self) -> (r: Result<Timestamp, NfsError>)
        ensures
            (r, final(self).client@) == old(self).client@.clock(),
    {
        match self.client.call(Request::Clock) {
            Ok(Response::Time(t)) => Ok(t),
            Ok(_) => Err(NfsError::from(ClientError::ReceivedUnexpectedData)),
            Err(e) => Err(e),
        }
    }

    /// Asks for one of the session's root identifiers.
    fn root(&mut self, request: Request) -> (r: Result<Option<NetworkName>, NfsError>)
        ensures
            (root_result_view(r), final(self).client@) == old(self).client@.root(request@),
    {
        match self.client.call(request) {
            Ok(Response::Root(id)) => Ok(id),
            Ok(_) => Err(NfsError::from(ClientError::ReceivedUnexpectedData)),
            Err(e) => Err(e),
        }
    }

    /// Hands the session one of its root identifiers.
    fn set_root(&mut self, request: Request) -> (r: Result<(), NfsError>)
        ensures
            (r, final(self).client@) == old(self).client@.set_root(request@),
    {
        match self.client.call(request) {
            Ok(Response::Done) => Ok(()),
            Ok(_) => Err(NfsError::from(ClientError::ReceivedUnexpectedData)),
            Err(e) => Err(e),
        }
    }

    /// Makes the first record of a listing. The record is not stored yet.
    pub fn save_directory_listing(&mut self, directory: &DirectoryListing) -> (r: Result<
        StructuredData,
        NfsError,
    >)
        ensures
            (result_view(r), final(self).client@) == old(self).client@.save_directory_listing(
                directory@,
            ),
            DirectoryListing::fits(directory@),
    {
        reveal(ClientView::save_directory_listing);
        let access_level = directory.get_metadata().get_access_level();
        let versioned = directory.get_metadata().is_versioned();
        let plain = encode_listing(directory);
        let body = match self.seal(directory.get_key().0, access_level, plain) {
            Ok(x) => x,
            Err(e) => {
                return Err(e);
            },
        };
        if versioned {
            let version = match self.save_as_immutable_data(body) {
                Ok(x) => x,
                Err(e) => {
                    return Err(e);
                },
            };
            let ghost name = version@;
            let mut versions: Vec<NetworkName> = Vec::new();
            versions.push(version);
            assert(views(versions@) =~= seq![name]);
            Ok(
                StructuredData::new(
                    VERSIONED_DIRECTORY_LISTING_TAG,
                    directory.get_key().0.clone(),
                    0,
                    encode_versions(&versions),
                ),
            )
        } else {
            Ok(
                StructuredData::new(
                    UNVERSIONED_DIRECTORY_LISTING_TAG,
                    directory.get_key().0.clone(),
                    0,
                    body,
                ),
            )
        }
    }

    /// Replaces a record and fetches the listing again.
    fn post_and_get(&mut self, record: StructuredData, directory: &DirectoryListing) -> (r:
        Result<DirectoryListing, NfsError>)
        ensures
            (result_view(r), final(self).client@) == old(self).client@.post_and_get(
                record@,
                directory@,
            ),
    {
        reveal(ClientView::post_and_get);
        match self.post_record(record) {
            Ok(_) => {},
            Err(e) => {
                return Err(e);
            },
        }
        self.get(
            directory.get_key(),
            directory.get_metadata().is_versioned(),
            directory.get_metadata().get_access_level(),
        )
    }

    /// Stores a new state of a listing and returns the listing as the
    /// network then holds it.
    pub fn update_directory_listing(&mut self, directory: &DirectoryListing) -> (r: Result<
        DirectoryListing,
        NfsError,
    >)
        ensures
            (result_view(r), final(self).client@) == old(self).client@.update_directory_listing(
                directory@,
            ),
            r is Ok ==> DirectoryListing::fits(directory@),
    {
        reveal(ClientView::update_directory_listing);
        reveal(ClientView::replace);
        if !directory.is_well_formed() {
            return Err(NfsError::MetaDataMissingOrCorrupted);
        }
        let directory_key = directory.get_info().get_key();
        let record = match self.get_structured_data(directory_key.0, directory_key.1) {
            Ok(x) => x,
            Err(e) => {
                return Err(e);
            },
        };
        if record.get_version() == u64::MAX {
            return Err(NfsError::FailedToUpdateDirectory);
        }
        let access_level = directory.get_metadata().get_access_level();
        let versioned = directory.get_metadata().is_versioned();
        if versioned {
            let mut versions = match decode_versions(&record.payload) {
                Some(x) => x,
                None => {
                    return Err(NfsError::MetaDataMissingOrCorrupted);
                },
            };
            let plain = encode_listing(directory);
            let body = match self.seal(directory_key.0, access_level, plain) {
                Ok(x) => x,
                Err(e) => {
                    return Err(e);
                },
            };
            let version = match self.save_as_immutable_data(body) {
                Ok(x) => x,
                Err(e) => {
                    return Err(e);
                },
            };
            let ghost before = views(versions@);
            let ghost name = version@;
            versions.push(version);
            assert(views(versions@) =~= before.push(name));
            let updated = StructuredData::new(
                record.type_tag,
                record.id.clone(),
                record.version + 1,
                encode_versions(&versions),
            );
            self.post_and_get(updated, directory)
        } else {
            let plain = encode_listing(directory);
            let body = match self.seal(directory_key.0, access_level, plain) {
                Ok(x) => x,
                Err(e) => {
                    return Err(e);
                },
            };
            let updated = StructuredData::new(
                UNVERSIONED_DIRECTORY_LISTING_TAG,
                directory_key.0.clone(),
                record.version + 1,
                body,
            );
            self.post_and_get(updated, directory)
        }
    }

    /// Stores a new state of a listing and returns the listing as the
    /// network then holds it.
    pub fn update(&mut self, directory: &DirectoryListing) -> (r: Result<
        DirectoryListing,
        NfsError,
    >)
        ensures
            (result_view(r), final(self).client@) == old(self).client@.update_directory_listing(
                directory@,
            ),
            r is Ok ==> DirectoryListing::fits(directory@),
    {
        self.update_directory_listing(directory)
    }

    /// Stores a new state of a listing and enters it in its parent.
    /// Returns the parent as the network then holds it, or `None` where
    /// the listing has no parent.
    pub fn update_directory_listing_and_parent(&mut self, directory: &DirectoryListing) -> (r:
        Result<Option<DirectoryListing>, NfsError>)
        ensures
            (parent_result_view(r), final(self).client@)
                == old(self).client@.update_directory_listing_and_parent(directory@),
            r matches Ok(Some(stored)) ==> (consistent(old(self).client@.transcript)
                && directory@.info.type_tag == listing_tag(directory@.info.versioned)
                && is_listing_tag(directory@.info.parent_dir_key.unwrap().1) ==> stored@ == old(
                self,
            ).client@.entering(directory@) && stored@.wf() && holds_once(
                stored@,
                directory@.info,
            )),
    {
        reveal(ClientView::update_directory_listing_and_parent);
        proof {
            lemma_client_fits_memory(&self.client);
        }
        let ghost c0 = self.client@;
        match self.update_directory_listing(directory) {
            Ok(_) => {},
            Err(e) => {
                return Err(e);
            },
        }
        match directory.get_metadata().get_parent_dir_key() {
            None => Ok(None),
            Some(parent_dir_key) => {
                let mut parent_directory = match self.get(
                    parent_dir_key,
                    parent_dir_key.1 == VERSIONED_DIRECTORY_LISTING_TAG,
                    directory.get_metadata().get_access_level(),
                ) {
                    Ok(x) => x,
                    Err(e) => {
                        return Err(e);
                    },
                };

                let info = parent_directory.get_info();
                if !(info.get_id().same(parent_dir_key.0) && info.type_tag == parent_dir_key.1
                    && info.is_versioned() == (parent_dir_key.1 == VERSIONED_DIRECTORY_LISTING_TAG)
                    && info.get_access_level() == directory.get_metadata().get_access_level()
                    && parent_directory.is_well_formed()) {
                    return Err(NfsError::MetaDataMissingOrCorrupted);
                }
                match parent_directory.check_sub_directory(directory.get_info()) {
                    Ok(_) => {},
                    Err(e) => {
                        return Err(e);
                    },
                }
                let now = match self.clock() {
                    Ok(x) => x,
                    Err(e) => {
                        return Err(e);
                    },
                };
                let entered = parent_directory.upsert_sub_directory(
                    directory.get_info().clone(),
                    now,
                );
                assert(entered is Ok);
                assert(parent_directory@ == c0.entering(directory@));
                match self.update_directory_listing(&parent_directory) {
                    Ok(stored) => {
                        proof {
                            if consistent(c0.transcript) && directory@.info.type_tag
                                == listing_tag(directory@.info.versioned) && is_listing_tag(
                                parent_dir_key.1,
                            ) {
                                lemma_entered_once(c0, directory@);
                            }
                        }
                        Ok(Some(stored))
                    },
                    Err(e) => Err(e),
                }
            },
        }
    }

    /// Makes a listing and stores its first record.
    fn make(
        &mut self,
        directory_name: String,
        tag_type: u64,
        user_metadata: Vec<u8>,
        versioned: bool,
        access_level: AccessLevel,
        parent_dir_key: Option<(NetworkName, u64)>,
    ) -> (r: Result<(DirectoryListing, Timestamp), NfsError>)
        ensures
            ({
                let made = old(self).client@.make(
                    directory_name@,
                    tag_type,
                    user_metadata@,
                    versioned,
                    access_level,
                    key_option_view(parent_dir_key),
                );
                &&& final(self).client@ == made.1
                &&& match r {
                    Ok(x) => made.0 == Ok::<(DirectoryListingView, Timestamp), NfsError>(
                        (x.0@, x.1),
                    ) && x.0@.wf() && x.0@.info.name == directory_name@ && DirectoryListing::fits(
                        x.0@,
                    ),
                    Err(e) => made.0 == Err::<(DirectoryListingView, Timestamp), NfsError>(e),
                }
            }),
    {
        reveal(ClientView::make);
        let id = match self.fresh_name() {
            Ok(x) => x,
            Err(e) => {
                return Err(e);
            },
        };
        let now = match self.clock() {
            Ok(x) => x,
            Err(e) => {
                return Err(e);
            },
        };
        let directory = DirectoryListing::new(
            id,
            directory_name,
            tag_type,
            user_metadata,
            versioned,
            access_level,
            parent_dir_key,
            now,
        );
        let record = match self.save_directory_listing(&directory) {
            Ok(x) => x,
            Err(e) => {
                return Err(e);
            },
        };
        match self.put_record(record) {
            Ok(_) => Ok((directory, now)),
            Err(e) => Err(e),
        }
    }

    /// Creates a directory in the network and returns its listing. Where a
    /// parent is given, the new directory is entered in it and the parent
    /// is stored again.
    pub fn create(
        &mut self,
        directory_name: String,
        tag_type: u64,
        user_metadata: Vec<u8>,
        versioned: bool,
        access_level: AccessLevel,
        parent_directory: Option<&mut DirectoryListing>,
    ) -> (r: Result<DirectoryListing, NfsError>)
        ensures
            match parent_directory {
                Some(p) => {
                    let made = old(self).client@.create(
                        directory_name@,
                        tag_type,
                        user_metadata@,
                        versioned,
                        access_level,
                        Some((*p)@),
                    );
                    &&& result_view(r) == made.result
                    &&& final(self).client@ == made.client
                    &&& made.parent == Some((*final(p))@)
                    &&& (*p)@.wf() ==> (*final(p))@.wf()
                },
                None => {
                    let made = old(self).client@.create(
                        directory_name@,
                        tag_type,
                        user_metadata@,
                        versioned,
                        access_level,
                        None,
                    );
                    &&& result_view(r) == made.result
                    &&& final(self).client@ == made.client
                },
            },
            r matches Ok(d) ==> d@.wf() && DirectoryListing::fits(d@),
    {
        reveal(ClientView::create);
        if directory_name.as_str().is_empty() {
            return Err(NfsError::NameIsEmpty);
        }
        match parent_directory {
            None => {
                match self.make(
                    directory_name,
                    tag_type,
                    user_metadata,
                    versioned,
                    access_level,
                    None,
                ) {
                    Ok(made) => Ok(made.0),
                    Err(e) => Err(e),
                }
            },
            Some(parent) => {
                if parent.find_sub_directory(&directory_name).is_some() {
                    return Err(NfsError::AlreadyExists);
                }
                let ghost before = parent@;
                let key = parent.get_key();
                let parent_dir_key = Some((key.0.clone(), key.1));
                let (directory, now) = match self.make(
                    directory_name,
                    tag_type,
                    user_metadata,
                    versioned,
                    access_level,
                    parent_dir_key,
                ) {
                    Ok(x) => x,
                    Err(e) => {
                        return Err(e);
                    },
                };
                proof {
                    lemma_position(before.sub_directories, directory_named(directory@.info.name));
                    assert(!before.name_taken(directory@.info));
                }
                let entered = parent.upsert_sub_directory(directory.get_info().clone(), now);
                assert(entered is Ok);
                match self.update_directory_listing_and_parent(parent) {
                    Ok(_) => Ok(directory),
                    Err(e) => Err(e),
                }
            },
        }
    }

    /// Deletes a sub-directory from its parent and stores the parent. The
    /// sub-directory's own record and blobs stay where they are.
    pub fn delete(&mut self, parent_directory: &mut DirectoryListing, directory_to_delete: &String) -> (r:
        Result<(), NfsError>)
        ensures
            ({
                let done = old(self).client@.delete(
                    old(parent_directory)@,
                    directory_to_delete@,
                );
                &&& r == done.result
                &&& final(self).client@ == done.client
                &&& final(parent_directory)@ == done.parent
            }),
            old(parent_directory)@.wf() ==> final(parent_directory)@.wf(),
    {
        reveal(ClientView::delete);
        let pos = match parent_directory.get_sub_directory_index(directory_to_delete) {
            Some(x) => x,
            None => {
                return Err(NfsError::DirectoryNotFound);
            },
        };
        proof {
            lemma_position(
                parent_directory@.sub_directories,
                directory_named(directory_to_delete@),
            );
        }
        let _ = parent_directory.remove_sub_directory(pos);
        match self.update_directory_listing_and_parent(parent_directory) {
            Ok(_) => Ok(()),
            Err(e) => Err(e),
        }
    }

    /// Creates one of the two root listings and hands its identifier to
    /// the session.
    fn create_root(&mut self, name: String, user: bool) -> (r: Result<DirectoryListing, NfsError>)
        ensures
            (result_view(r), final(self).client@) == old(self).client@.create_root(name@, user),
            r matches Ok(d) ==> d@.wf(),
    {
        reveal(ClientView::create_root);
        let created_directory = match self.create(
            name,
            UNVERSIONED_DIRECTORY_LISTING_TAG,
            Vec::new(),
            false,
            AccessLevel::Private,
            None,
        ) {
            Ok(x) => x,
            Err(e) => {
                return Err(e);
            },
        };
        let id = created_directory.get_key().0.clone();
        let keep = if user {
            Request::SetUserRoot { id }
        } else {
            Request::SetConfigurationRoot { id }
        };
        match self.set_root(keep) {
            Ok(_) => Ok(created_directory),
            Err(e) => Err(e),
        }
    }

    /// Returns the user's root listing. Where the session has none yet, it
    /// is created, unversioned and private, and the session keeps its
    /// identifier.
    pub fn get_user_root_directory_listing(&mut self) -> (r: Result<DirectoryListing, NfsError>)
        ensures
            (result_view(r), final(self).client@)
                == old(self).client@.get_user_root_directory_listing(),
    {
        reveal(ClientView::get_user_root_directory_listing);
        match self.root(Request::UserRoot) {
            Err(e) => Err(e),
            Ok(Some(id)) => self.get(
                (&id, UNVERSIONED_DIRECTORY_LISTING_TAG),
                false,
                AccessLevel::Private,
            ),
            Ok(None) => self.create_root(ROOT_DIRECTORY_NAME.to_owned(), true),
        }
    }

    /// Returns the configuration root listing, created where the session
    /// has none yet.
    fn get_configuration_root(&mut self) -> (r: Result<DirectoryListing, NfsError>)
        ensures
            (result_view(r), final(self).client@) == old(self).client@.get_configuration_root(),
    {
        reveal(ClientView::get_configuration_root);
        match self.root(Request::ConfigurationRoot) {
            Err(e) => Err(e),
            Ok(Some(id)) => self.get(
                (&id, UNVERSIONED_DIRECTORY_LISTING_TAG),
                false,
                AccessLevel::Private,
            ),
            Ok(None) => self.create_root(CONFIGURATION_DIRECTORY_NAME.to_owned(), false),
        }
    }

    /// Returns the configuration directory of the given name from the
    /// configuration root, and creates it where there is none.
    pub fn get_configuration_directory_listing(&mut self, directory_name: String) -> (r: Result<
        DirectoryListing,
        NfsError,
    >)
        ensures
            (result_view(r), final(self).client@)
                == old(self).client@.get_configuration_directory_listing(directory_name@),
    {
        reveal(ClientView::get_configuration_directory_listing);
        let mut config_directory_listing = match self.get_configuration_root() {
            Ok(x) => x,
            Err(e) => {
                return Err(e);
            },
        };
        match config_directory_listing.get_sub_directory_index(&directory_name) {
            Some(index) => {
                assert(config_directory_listing@.sub_directories[index as int]
                    == config_directory_listing.sub_directories@[index as int]@);
                self.get(
                    config_directory_listing.sub_directories[index].get_key(),
                    false,
                    AccessLevel::Private,
                )
            },
            None => self.create(
                directory_name,
                UNVERSIONED_DIRECTORY_LISTING_TAG,
                Vec::new(),
                false,
                AccessLevel::Private,
                Some(&mut config_directory_listing),
            ),
        }
    }
}

} // verus!
