//! The life of a file inside a listing.

use vstd::prelude::*;
use crate::client::{result_view, Client, ClientView};
use crate::datamap::{DataMap, DataMapView};
use crate::view::views;
use crate::directory_listing::{
    file_named, lemma_position, position, DirectoryListing, DirectoryListingView,
};
use crate::errors::NfsError;
use crate::file::{File, FileView};
use crate::helper::directory_helper::{DirectoryHelper, Outcome};
use crate::helper::reader::Reader;
use crate::helper::writer::{Mode, Writer, WriterView};
use crate::metadata::{FileMetadata, FileMetadataView};
use crate::timestamp::Timestamp;
use crate::AccessLevel;

verus! {

/// What deleting a file comes to: the result, the listing as the operation
/// leaves it, and the client.
pub struct FileDeleted {
    pub result: Result<(), NfsError>,
    pub directory_listing: DirectoryListingView,
    pub client: ClientView,
}

/// The view of a result that holds a list of files.
pub open spec fn files_result_view(r: Result<Vec<File>, NfsError>) -> Result<Seq<FileView>, NfsError> {
    match r {
        Ok(x) => Ok(views(x@)),
        Err(e) => Err(e),
    }
}

/// A new, empty file created at `now`.
pub open spec fn new_file(name: Seq<char>, user_metadata: Seq<u8>, now: Timestamp) -> FileView {
    FileView {
        metadata: FileMetadataView {
            name,
            user_metadata,
            size: 0,
            created_time: now,
            modified_time: now,
        },
        datamap: DataMapView::Empty,
    }
}

/// The file with other user metadata, changed at `now`. Its name, size,
/// time of creation and data map stay as they are.
pub open spec fn with_user_metadata(file: FileView, user_metadata: Seq<u8>, now: Timestamp) -> FileView {
    FileView {
        metadata: FileMetadataView { user_metadata, modified_time: now, ..file.metadata },
        datamap: file.datamap,
    }
}

impl ClientView {
    /// Creating a file: a name that the listing already holds is refused;
    /// otherwise the result is a writer, in overwrite mode, for a new and
    /// empty file.
    #[verifier::opaque]
    pub open spec fn create_file(
        self,
        name: Seq<char>,
        user_metadata: Seq<u8>,
        directory_listing: DirectoryListingView,
    ) -> Outcome<WriterView> {
        if directory_listing.find_file(name) is Some {
            (Err(NfsError::AlreadyExists), self)
        } else {
            match self.clock() {
                (Err(e), c) => (Err(e), c),
                (Ok(now), c) => (
                    Ok(
                        WriterView {
                            mode: Mode::Overwrite,
                            directory_listing,
                            file: new_file(name, user_metadata, now),
                            patches: Seq::empty(),
                        },
                    ),
                    c,
                ),
            }
        }
    }

    /// Deleting a file: the first file of that name leaves the listing and
    /// the listing is stored. The file's chunks stay where they are.
    #[verifier::opaque]
    pub open spec fn delete_file(self, name: Seq<char>, directory_listing: DirectoryListingView) -> FileDeleted {
        match position(directory_listing.files, file_named(name)) {
            None => FileDeleted {
                result: Err(NfsError::FileNotFound),
                directory_listing,
                client: self,
            },
            Some(i) => {
                let left = directory_listing.without_file(i);
                match self.update_directory_listing(left) {
                    (Err(e), c) => FileDeleted { result: Err(e), directory_listing: left, client: c },
                    (Ok(_), c) => FileDeleted { result: Ok(()), directory_listing: left, client: c },
                }
            },
        }
    }

    /// Opening a file for writing: the file has to be in the listing.
    /// Nothing is asked of the network; the result is a writer for the
    /// given file and listing, in the given mode, to which nothing was
    /// written yet.
    pub open spec fn update_file(
        self,
        file: FileView,
        mode: Mode,
        directory_listing: DirectoryListingView,
    ) -> Outcome<WriterView> {
        if directory_listing.find_file(file.metadata.name) is None {
            (Err(NfsError::FileNotFound), self)
        } else {
            (Ok(WriterView { mode, directory_listing, file, patches: Seq::empty() }), self)
        }
    }

    /// Giving a file other user metadata: the file has to be in the
    /// listing and have a name. The file gets the metadata and the time,
    /// takes its place in the listing, and the listing is stored.
    #[verifier::opaque]
    pub open spec fn update_metadata(
        self,
        file: FileView,
        user_metadata: Seq<u8>,
        directory_listing: DirectoryListingView,
    ) -> Outcome<DirectoryListingView> {
        if directory_listing.find_file(file.metadata.name) is None {
            (Err(NfsError::FileNotFound), self)
        } else if file.metadata.name.len() == 0 {
            (Err(NfsError::NameIsEmpty), self)
        } else {
            match self.clock() {
                (Err(e), c) => (Err(e), c),
                (Ok(now), c) => c.update_directory_listing(
                    directory_listing.with_file(with_user_metadata(file, user_metadata, now), now),
                ),
            }
        }
    }

    /// Going through stored versions of a listing, oldest first: from each
    /// the file of the given name is taken where there is one and no file
    /// was taken yet, or its time of modification is another than that of
    /// the file taken last. `last` is that time, or `None` where no file
    /// was taken yet.
    pub open spec fn file_versions(
        self,
        id: Seq<u8>,
        access_level: AccessLevel,
        name: Seq<char>,
        versions: Seq<Seq<u8>>,
        last: Option<Timestamp>,
    ) -> Outcome<Seq<FileView>>
        decreases versions.len(),
    {
        if versions.len() == 0 {
            (Ok(Seq::empty()), self)
        } else {
            match self.get_by_version(id, access_level, versions[0]) {
                (Err(e), c) => (Err(e), c),
                (Ok(listing), c) => match listing.find_file(name) {
                    Some(file) => if last != Some(file.metadata.modified_time) {
                        match c.file_versions(
                            id,
                            access_level,
                            name,
                            versions.drop_first(),
                            Some(file.metadata.modified_time),
                        ) {
                            (Err(e), c2) => (Err(e), c2),
                            (Ok(rest), c2) => (Ok(seq![file] + rest), c2),
                        }
                    } else {
                        c.file_versions(id, access_level, name, versions.drop_first(), last)
                    },
                    None => c.file_versions(id, access_level, name, versions.drop_first(), last),
                },
            }
        }
    }

    /// The states that a file went through in the history of its listing.
    #[verifier::opaque]
    pub open spec fn get_file_versions(self, file: FileView, directory_listing: DirectoryListingView) -> Outcome<
        Seq<FileView>,
    > {
        match self.get_versions(directory_listing.info.id, directory_listing.info.type_tag) {
            (Err(e), c) => (Err(e), c),
            (Ok(versions), c) => c.file_versions(
                directory_listing.info.id,
                directory_listing.info.access_level,
                file.metadata.name,
                versions,
                None,
            ),
        }
    }
}

/// Carries out the operations on the files of a listing.
#[derive(Debug)]
pub struct FileHelper {
    pub directory_helper: DirectoryHelper,
}

impl FileHelper {
    /// A helper that works through the given client.
    pub fn new(client: Client) -> (r: FileHelper)
        ensures
            r.directory_helper.client@ == client@,
    {
        FileHelper { directory_helper: DirectoryHelper::new(client) }
    }

    /// Hands the client back.
    pub fn into_client(self) -> (r: Client)
        ensures
            r@ == self.directory_helper.client@,
    {
        self.directory_helper.into_client()
    }

    /// Creates a file in a listing. The result is a writer through which
    /// the content is written; the file enters the listing when the writer
    /// is closed.
    pub fn create(&mut self, name: String, user_metadata: Vec<u8>, directory_listing: DirectoryListing) -> (r:
        Result<Writer, NfsError>)
        ensures
            (result_view(r), final(self).directory_helper.client@) == old(
                self,
            ).directory_helper.client@.create_file(name@, user_metadata@, directory_listing@),
    {
        reveal(ClientView::create_file);
        if directory_listing.find_file(&name).is_some() {
            return Err(NfsError::AlreadyExists);
        }
        let now = match self.directory_helper.clock() {
            Ok(x) => x,
            Err(e) => {
                return Err(e);
            },
        };
        let file = File::new(FileMetadata::new(name, user_metadata, now), DataMap::Empty);
        Ok(Writer::new(Mode::Overwrite, directory_listing, file))
    }

    /// Deletes a file from a listing and stores the listing. The file's
    /// chunks stay where they are.
    pub fn delete(&mut self, file_name: String, directory_listing: &mut DirectoryListing) -> (r:
        Result<(), NfsError>)
        ensures
            ({
                let done = old(self).directory_helper.client@.delete_file(
                    file_name@,
                    old(directory_listing)@,
                );
                &&& r == done.result
                &&& final(self).directory_helper.client@ == done.client
                &&& final(directory_listing)@ == done.directory_listing
            }),
            old(directory_listing)@.wf() ==> final(directory_listing)@.wf(),
            r is Ok ==> final(directory_listing)@.files.len() + 1 == old(
                directory_listing,
            )@.files.len(),
    {
        reveal(ClientView::delete_file);
        let index = match directory_listing.get_file_index(&file_name) {
            Some(x) => x,
            None => {
                return Err(NfsError::FileNotFound);
            },
        };
        proof {
            lemma_position(directory_listing@.files, file_named(file_name@));
        }
        let _ = directory_listing.remove_file(index);
        match self.directory_helper.update(directory_listing) {
            Ok(_) => Ok(()),
            Err(e) => Err(e),
        }
    }

    /// Opens a file of a listing for writing. The result is a writer; the
    /// file changes in the listing when the writer is closed. Nothing is
    /// asked of the network: the only failure is a file that is not in the
    /// listing.
    pub fn update(&mut self, file: File, mode: Mode, directory_listing: DirectoryListing) -> (r:
        Result<Writer, NfsError>)
        ensures
            (result_view(r), final(self).directory_helper.client@) == old(
                self,
            ).directory_helper.client@.update_file(file@, mode, directory_listing@),
            final(self).directory_helper.client@ == old(self).directory_helper.client@,
            directory_listing@.find_file(file@.metadata.name) is Some ==> r is Ok,
            directory_listing@.find_file(file@.metadata.name) is None ==> r == Err::<
                Writer,
                NfsError,
            >(NfsError::FileNotFound),
    {
        if directory_listing.find_file(file.get_name()).is_none() {
            return Err(NfsError::FileNotFound);
        }
        Ok(Writer::new(mode, directory_listing, file))
    }

    /// Gives a file other user metadata and stores the listing. Returns
    /// the listing as the network then holds it.
    pub fn update_metadata(&mut self, file: File, user_metadata: Vec<u8>, directory_listing: &DirectoryListing) -> (r:
        Result<DirectoryListing, NfsError>)
        ensures
            (result_view(r), final(self).directory_helper.client@) == old(
                self,
            ).directory_helper.client@.update_metadata(
                file@,
                user_metadata@,
                directory_listing@,
            ),
    {
        reveal(ClientView::update_metadata);
        if directory_listing.find_file(file.get_name()).is_none() {
            return Err(NfsError::FileNotFound);
        }
        if file.metadata.name.as_str().is_empty() {
            return Err(NfsError::NameIsEmpty);
        }
        let now = match self.directory_helper.clock() {
            Ok(x) => x,
            Err(e) => {
                return Err(e);
            },
        };
        let mut file = file;
        file.metadata.set_user_metadata(user_metadata);
        file.metadata.set_modified_time(now);
        let mut mutable_listing = directory_listing.clone();
        let entered = mutable_listing.upsert_file(file, now);
        assert(entered is Ok);
        self.directory_helper.update(&mutable_listing)
    }

    /// Returns the states that a file went through in the history of its
    /// listing, oldest first: the first stored version of the listing that
    /// holds the file gives the first state, and every later version in
    /// which the file's time of modification is another than in the state
    /// returned before it gives one more.
    pub fn get_versions(&mut self, file: &File, directory_listing: &DirectoryListing) -> (r: Result<
        Vec<File>,
        NfsError,
    >)
        ensures
            (files_result_view(r), final(self).directory_helper.client@) == old(
                self,
            ).directory_helper.client@.get_file_versions(file@, directory_listing@),
    {
        reveal(ClientView::get_file_versions);
        let mut versions: Vec<File> = Vec::new();
        let sdv_versions = match self.directory_helper.get_versions(directory_listing.get_key()) {
            Ok(x) => x,
            Err(e) => {
                return Err(e);
            },
        };
        let mut modified_time: Option<Timestamp> = None;
        let access_level = directory_listing.get_metadata().get_access_level();
        let ghost all = views(sdv_versions@);
        let ghost id = directory_listing@.info.id;
        let ghost name = file@.metadata.name;
        let ghost start = self.directory_helper.client@;
        let ghost goal = start.file_versions(id, access_level, name, all, None);
        let mut i: usize = 0;
        assert(all.skip(0) =~= all);
        assert(views(versions@) =~= Seq::<FileView>::empty());
        while i < sdv_versions.len()
            invariant
                i <= sdv_versions.len(),
                all == views(sdv_versions@),
                id == directory_listing@.info.id,
                name == file@.metadata.name,
                access_level == directory_listing@.info.access_level,
                goal == old(self).directory_helper.client@.get_file_versions(
                    file@,
                    directory_listing@,
                ),
                goal == match self.directory_helper.client@.file_versions(
                    id,
                    access_level,
                    name,
                    all.skip(i as int),
                    modified_time,
                ) {
                    (Ok(rest), c) => (Ok::<Seq<FileView>, NfsError>(views(versions@) + rest), c),
                    (Err(e), c) => (Err::<Seq<FileView>, NfsError>(e), c),
                },
            decreases sdv_versions.len() - i,
        {
            let ghost before = views(versions@);
            let ghost here = self.directory_helper.client@;
            let ghost tail = all.skip(i as int);
            assert(tail[0] == sdv_versions@[i as int]@);
            assert(tail.drop_first() =~= all.skip(i + 1));
            let listing = match self.directory_helper.get_by_version(
                directory_listing.get_key(),
                access_level,
                &sdv_versions[i],
            ) {
                Ok(x) => x,
                Err(e) => {
                    assert(here.file_versions(id, access_level, name, tail, modified_time).0
                        == Err::<Seq<FileView>, NfsError>(e));
                    return Err(e);
                },
            };
            match listing.find_file(file.get_name()) {
                Some(found) => {
                    let stamped = found.get_metadata().get_modified_time();
                    let changed = match modified_time {
                        Some(last) => !stamped.same(&last),
                        None => true,
                    };
                    if changed {
                        proof {
                            let next = self.directory_helper.client@.file_versions(
                                id,
                                access_level,
                                name,
                                all.skip(i + 1),
                                Some(found@.metadata.modified_time),
                            );
                            if next.0 is Ok {
                                assert(before + (seq![found@] + next.0->Ok_0) =~= before.push(
                                    found@,
                                ) + next.0->Ok_0);
                            }
                        }
                        modified_time = Some(stamped);
                        versions.push(found.clone());
                        assert(views(versions@) =~= before.push(found@));
                    }
                },
                None => {},
            }
            i += 1;
        }
        assert(views(versions@) + Seq::<FileView>::empty() =~= views(versions@));
        Ok(versions)
    }

    /// Returns a reader of a file's content. The file has to be in the
    /// listing.
    pub fn read(&self, file: File, directory_listing: &DirectoryListing) -> (r: Result<
        Reader,
        NfsError,
    >)
        ensures
            match r {
                Ok(reader) => directory_listing@.find_file(file@.metadata.name) is Some
                    && reader.file@ == file@,
                Err(e) => directory_listing@.find_file(file@.metadata.name) is None && e
                    == NfsError::FileNotFound,
            },
    {
        if directory_listing.find_file(file.get_name()).is_none() {
            return Err(NfsError::FileNotFound);
        }
        Ok(Reader::new(file))
    }
}

} // verus!
