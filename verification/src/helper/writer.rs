//! Writing a file's content and committing it to its listing.

use vstd::prelude::*;
use crate::client::{result_view, ClientView};
use crate::datamap::{
    encrypted_option_view, self_encrypt, self_encrypted, shrunk_at_most_once, ChunkMap,
    ChunkMapView, DataMap, DataMapView, Encrypted, EncryptedView,
};
use crate::view::views;
use crate::directory_listing::{DirectoryListing, DirectoryListingView};
use crate::errors::NfsError;
use crate::file::{File, FileView};
use crate::helper::directory_helper::{DirectoryHelper, Outcome};
use crate::codec::lemma_listing_round_trip;
use crate::bytes::bytes_copy;
use crate::helper::reader::Reader;
use crate::laws::{
    lemma_asked, lemma_client_fits_memory, lemma_content_keeps_transcript,
    lemma_store_keeps_transcript, lemma_updated,
};
use crate::listing_tag;
use crate::substrate::consistent;
use crate::wire::Wire;
use crate::metadata::FileMetadataView;
use crate::name::NetworkName;

verus! {

/// What a writer starts from.
#[derive(Clone, Copy, Debug, PartialEq, Eq, Structural)]
pub enum Mode {
    /// Nothing: what the file held before is left behind.
    Overwrite,
    /// The file's content as it is stored.
    Modify,
}

/// A content after `data` was written at `position`: the data takes the
/// place of what was there, what lies outside it stays, and a gap between
/// the old end and the data is filled with zeros.
pub open spec fn written(base: Seq<u8>, position: int, data: Seq<u8>) -> Seq<u8> {
    Seq::new(
        (if base.len() >= position + data.len() {
            base.len() as int
        } else {
            position + data.len()
        }) as nat,
        |i: int|
            if position <= i < position + data.len() {
                data[i - position]
            } else if i < base.len() {
                base[i]
            } else {
                0u8
            },
    )
}

/// One write: the bytes and where they go.
#[derive(Debug)]
pub struct Patch {
    pub position: u64,
    pub data: Vec<u8>,
}

/// The mathematical value of a [`Patch`].
pub struct PatchView {
    pub position: u64,
    pub data: Seq<u8>,
}

impl View for Patch {
    type V = PatchView;

    open spec fn view(&self) -> PatchView {
        PatchView { position: self.position, data: self.data@ }
    }
}

/// Whether every write ends within what memory can address.
pub open spec fn patches_fit(patches: Seq<PatchView>) -> bool {
    forall|i: int|
        0 <= i < patches.len() ==> (#[trigger] patches[i]).position + patches[i].data.len()
            <= usize::MAX
}

/// A content after the writes were made over it, in order.
pub open spec fn patched(base: Seq<u8>, patches: Seq<PatchView>) -> Seq<u8>
    decreases patches.len(),
{
    if patches.len() == 0 {
        base
    } else {
        written(
            patched(base, patches.drop_last()),
            patches.last().position as int,
            patches.last().data,
        )
    }
}

/// The view of a result that holds a data map.
pub open spec fn datamap_result_view(r: Result<DataMap, NfsError>) -> Result<DataMapView, NfsError> {
    match r {
        Ok(x) => Ok(x@),
        Err(e) => Err(e),
    }
}

/// The view of a result that holds a list of names.
pub open spec fn stored_result_view(r: Result<Vec<NetworkName>, NfsError>) -> Result<
    Seq<Seq<u8>>,
    NfsError,
> {
    match r {
        Ok(x) => Ok(views(x@)),
        Err(e) => Err(e),
    }
}

/// The file after a content of the given length was committed at `now`.
pub open spec fn committed(file: FileView, length: nat, datamap: DataMapView, now: crate::timestamp::Timestamp) -> FileView {
    FileView {
        metadata: FileMetadataView { size: length as u64, modified_time: now, ..file.metadata },
        datamap,
    }
}

impl ClientView {
    /// Storing chunks as blobs, in order; the result is their names.
    pub open spec fn store_chunks(self, chunks: Seq<Seq<u8>>) -> Outcome<Seq<Seq<u8>>>
        decreases chunks.len(),
    {
        if chunks.len() == 0 {
            (Ok(Seq::empty()), self)
        } else {
            match self.save_as_immutable_data(chunks[0]) {
                (Err(e), c) => (Err(e), c),
                (Ok(name), c) => match c.store_chunks(chunks.drop_first()) {
                    (Err(e), c2) => (Err(e), c2),
                    (Ok(rest), c2) => (Ok(seq![name] + rest), c2),
                },
            }
        }
    }

    /// Making the data map of a content that is not empty, from what
    /// encrypting it gave: the chunks are stored and the map leads to
    /// them. A content that cannot be encrypted is kept inline, and so is
    /// one whose list of keys was itself encrypted more than once.
    #[verifier::opaque]
    pub open spec fn store_encrypted(self, content: Seq<u8>, encrypted: Option<EncryptedView>) -> Outcome<
        DataMapView,
    > {
        match encrypted {
            None => (Ok(DataMapView::Content(content)), self),
            Some(e) => if shrunk_at_most_once(e.level) {
                match self.store_chunks(e.chunks) {
                    (Err(err), c) => (Err(err), c),
                    (Ok(stored), c) => (
                        Ok(
                            DataMapView::Chunks(
                                ChunkMapView { keys: e.keys, level: e.level, stored },
                            ),
                        ),
                        c,
                    ),
                }
            } else {
                (Ok(DataMapView::Content(content)), self)
            },
        }
    }

    /// Making the data map of a content: none for an empty content.
    #[verifier::opaque]
    pub open spec fn store(self, content: Seq<u8>) -> Outcome<DataMapView> {
        if content.len() == 0 {
            (Ok(DataMapView::Empty), self)
        } else {
            self.store_encrypted(content, self_encrypted(content))
        }
    }

    /// The listing that closing a writer stores: the writer's listing
    /// with the file as it is committed.
    pub open spec fn closing(
        self,
        directory_listing: DirectoryListingView,
        file: FileView,
        content: Seq<u8>,
    ) -> DirectoryListingView {
        let stored = self.store(content);
        let now = stored.1.clock().0.unwrap();
        directory_listing.with_file(
            committed(file, content.len(), stored.0.unwrap(), now),
            now,
        )
    }

    /// What a writer starts from: nothing in overwrite mode, the file's
    /// stored content in modify mode.
    pub open spec fn pre_image(self, mode: Mode, file: FileView) -> Outcome<Seq<u8>> {
        match mode {
            Mode::Overwrite => (Ok(Seq::empty()), self),
            Mode::Modify => self.content(file),
        }
    }

    /// Closing a writer: a file without a name and a write that would end
    /// beyond what memory can address are refused before anything is
    /// asked of the network. Then the content that the writer starts from
    /// is fetched, the writes are made over it in order, and the outcome
    /// is committed.
    #[verifier::opaque]
    pub open spec fn close(
        self,
        directory_listing: DirectoryListingView,
        file: FileView,
        mode: Mode,
        patches: Seq<PatchView>,
    ) -> Outcome<DirectoryListingView> {
        if file.metadata.name.len() == 0 {
            (Err(NfsError::NameIsEmpty), self)
        } else if !patches_fit(patches) {
            (Err(NfsError::InvalidRangeSpecified), self)
        } else {
            match self.pre_image(mode, file) {
                (Err(e), c) => (Err(e), c),
                (Ok(base), c) => c.commit(directory_listing, file, patched(base, patches)),
            }
        }
    }

    /// Committing a content: a file without a name is refused before
    /// anything is asked of the network. The content is stored, the file
    /// takes its size, the time and the new data map, the listing takes
    /// the file in, and the listing is stored.
    #[verifier::opaque]
    pub open spec fn commit(
        self,
        directory_listing: DirectoryListingView,
        file: FileView,
        content: Seq<u8>,
    ) -> Outcome<DirectoryListingView> {
        if file.metadata.name.len() == 0 {
            (Err(NfsError::NameIsEmpty), self)
        } else {
            match self.store(content) {
                (Err(e), c) => (Err(e), c),
                (Ok(datamap), c) => match c.clock() {
                    (Err(e), c2) => (Err(e), c2),
                    (Ok(now), c2) => c2.update_directory_listing(
                        directory_listing.with_file(
                            committed(file, content.len(), datamap, now),
                            now,
                        ),
                    ),
                },
            }
        }
    }
}

/// Takes the writes to one file and, on `close`, commits them.
#[derive(Debug)]
pub struct Writer {
    pub mode: Mode,
    pub directory_listing: DirectoryListing,
    pub file: File,
    pub patches: Vec<Patch>,
}

/// The mathematical value of a [`Writer`].
pub struct WriterView {
    pub mode: Mode,
    pub directory_listing: DirectoryListingView,
    pub file: FileView,
    pub patches: Seq<PatchView>,
}

impl View for Writer {
    type V = WriterView;

    open spec fn view(&self) -> WriterView {
        WriterView {
            mode: self.mode,
            directory_listing: self.directory_listing@,
            file: self.file@,
            patches: views(self.patches@),
        }
    }
}

impl Writer {
    /// A writer for `file` in `directory_listing` to which nothing was
    /// written yet.
    pub fn new(mode: Mode, directory_listing: DirectoryListing, file: File) -> (r: Writer)
        ensures
            r@ == (WriterView {
                mode,
                directory_listing: directory_listing@,
                file: file@,
                patches: Seq::empty(),
            }),
    {
        let r = Writer { mode, directory_listing, file, patches: Vec::new() };
        assert(r@.patches =~= Seq::<PatchView>::empty());
        r
    }

    /// Takes note of a write of `data` at `position`. Nothing reaches the
    /// network before `close`. A write that would end beyond what memory
    /// can address is refused.
    pub fn write(&mut self, data: &Vec<u8>, position: u64) -> (r: Result<(), NfsError>)
        ensures
            position + data@.len() > usize::MAX ==> r == Err::<(), NfsError>(
                NfsError::InvalidRangeSpecified,
            ) && final(self)@ == old(self)@,
            position + data@.len() <= usize::MAX ==> r is Ok && final(self)@ == (WriterView {
                patches: old(self)@.patches.push(PatchView { position, data: data@ }),
                ..old(self)@
            }),
    {
        if position > usize::MAX as u64 || data.len() > usize::MAX - position as usize {
            return Err(NfsError::InvalidRangeSpecified);
        }
        let ghost before = views(self.patches@);
        self.patches.push(Patch { position, data: bytes_copy(data) });
        assert(views(self.patches@) =~= before.push(PatchView { position, data: data@ }));
        Ok(())
    }

    /// Whether every write that was taken note of ends within what memory
    /// can address.
    pub fn patches_fit(&self) -> (r: bool)
        ensures
            r == patches_fit(self@.patches),
    {
        let mut i: usize = 0;
        while i < self.patches.len()
            invariant
                i <= self.patches.len(),
                forall|j: int|
                    0 <= j < i ==> (#[trigger] self@.patches[j]).position
                        + self@.patches[j].data.len() <= usize::MAX,
            decreases self.patches.len() - i,
        {
            assert(self@.patches[i as int] == self.patches@[i as int]@);
            let p = &self.patches[i];
            if p.position > usize::MAX as u64 || p.data.len() > usize::MAX - p.position as usize {
                return false;
            }
            i += 1;
        }
        true
    }

    /// Writes `data` into `content` at `position`: the data takes the
    /// place of what was there, and a gap between the old end and the data
    /// is filled with zeros. A write that would end beyond what memory can
    /// address is refused.
    pub fn patch(content: &mut Vec<u8>, data: &Vec<u8>, position: u64) -> (r: Result<(), NfsError>)
        ensures
            position + data@.len() > usize::MAX ==> r == Err::<(), NfsError>(
                NfsError::InvalidRangeSpecified,
            ) && final(content)@ == old(content)@,
            position + data@.len() <= usize::MAX ==> r is Ok && final(content)@ == written(
                old(content)@,
                position as int,
                data@,
            ),
    {
        if position > usize::MAX as u64 || data.len() > usize::MAX - position as usize {
            return Err(NfsError::InvalidRangeSpecified);
        }
        let start: usize = position as usize;
        let end: usize = start + data.len();
        let ghost base = content@;
        while content.len() < end
            invariant
                content@.len() >= base.len(),
                forall|i: int| 0 <= i < base.len() ==> content@[i] == base[i],
                forall|i: int| base.len() <= i < content@.len() ==> content@[i] == 0u8,
                content@.len() <= end || content@.len() == base.len(),
            decreases end - content.len(),
        {
            content.push(0u8);
        }
        let ghost padded = content@;
        let mut i: usize = 0;
        while i < data.len()
            invariant
                i <= data.len(),
                end == start + data.len(),
                content@.len() == padded.len(),
                padded.len() >= end,
                forall|j: int| 0 <= j < i ==> content@[start + j] == data@[j],
                forall|j: int|
                    0 <= j < padded.len() && !(start <= j < start + i) ==> content@[j]
                        == padded[j],
            decreases data.len() - i,
        {
            content.set(start + i, data[i]);
            i += 1;
        }
        assert(padded.len() == if base.len() >= end {
            base.len()
        } else {
            end as nat
        });
        assert forall|k: int| 0 <= k < content@.len() implies content@[k] == written(
            base,
            position as int,
            data@,
        )[k] by {
            if start <= k < start + data.len() {
                assert(content@[start + (k - start)] == data@[k - start]);
            } else {
                assert(content@[k] == padded[k]);
            }
        }
        assert(content@ =~= written(base, position as int, data@));
        Ok(())
    }

    /// Stores chunks as blobs, in order, and returns their names.
    pub fn store_chunks(helper: &mut DirectoryHelper, chunks: Vec<Vec<u8>>) -> (r: Result<
        Vec<NetworkName>,
        NfsError,
    >)
        ensures
            (stored_result_view(r), final(helper).client@) == old(helper).client@.store_chunks(
                views(chunks@),
            ),
    {
        let mut stored: Vec<NetworkName> = Vec::new();
        let ghost all = views(chunks@);
        let mut left = chunks;
        let ghost start = helper.client@;
        let mut i: usize = 0;
        let n: usize = left.len();
        assert(all.skip(0) =~= all);
        assert(views(stored@) =~= Seq::<Seq<u8>>::empty());
        while i < n
            invariant
                i <= n,
                n == left.len(),
                all.len() == n,
                all == views(chunks@),
                start == old(helper).client@,
                forall|j: int| i <= j < n ==> left@[j]@ == all[j],
                start.store_chunks(all) == match helper.client@.store_chunks(all.skip(i as int)) {
                    (Ok(rest), c) => (Ok::<Seq<Seq<u8>>, NfsError>(views(stored@) + rest), c),
                    (Err(e), c) => (Err::<Seq<Seq<u8>>, NfsError>(e), c),
                },
            decreases n - i,
        {
            let ghost before = views(stored@);
            let ghost here = helper.client@;
            let ghost tail = all.skip(i as int);
            assert(tail[0] == all[i as int]);
            assert(tail.drop_first() =~= all.skip(i + 1));
            let mut chunk: Vec<u8> = Vec::new();
            let ghost kept = left@;
            std::mem::swap(&mut chunk, &mut left[i]);
            assert(forall|j: int| i < j < n ==> left@[j] == kept[j]);
            match helper.save_as_immutable_data(chunk) {
                Err(e) => {
                    assert(here.store_chunks(tail).0 == Err::<Seq<Seq<u8>>, NfsError>(e));
                    return Err(e);
                },
                Ok(name) => {
                    proof {
                        let next = helper.client@.store_chunks(all.skip(i + 1));
                        if next.0 is Ok {
                            assert(before + (seq![name@] + next.0->Ok_0) =~= before.push(name@)
                                + next.0->Ok_0);
                        }
                    }
                    stored.push(name);
                    assert(views(stored@) =~= before.push(name@));
                    i += 1;
                },
            }
        }
        assert(views(stored@) + Seq::<Seq<u8>>::empty() =~= views(stored@));
        Ok(stored)
    }

    /// Makes the data map of a content that is not empty, from what
    /// encrypting it gave.
    pub fn store_encrypted(helper: &mut DirectoryHelper, content: Vec<u8>, encrypted: Option<Encrypted>) -> (r:
        Result<DataMap, NfsError>)
        ensures
            (datamap_result_view(r), final(helper).client@) == old(helper).client@.store_encrypted(
                content@,
                encrypted_option_view(encrypted),
            ),
    {
        reveal(ClientView::store_encrypted);
        match encrypted {
            None => Ok(DataMap::Content(content)),
            Some(e) => {
                let once = match e.level {
                    Some(l) => l <= 1,
                    None => true,
                };
                if !once {
                    return Ok(DataMap::Content(content));
                }
                let stored = match Writer::store_chunks(helper, e.chunks) {
                    Ok(x) => x,
                    Err(err) => {
                        return Err(err);
                    },
                };
                Ok(DataMap::Chunks(ChunkMap { keys: e.keys, level: e.level, stored }))
            },
        }
    }

    /// Makes the data map of a content and stores what it leads to.
    pub fn store(helper: &mut DirectoryHelper, content: Vec<u8>) -> (r: Result<DataMap, NfsError>)
        ensures
            (datamap_result_view(r), final(helper).client@) == old(helper).client@.store(content@),
            r matches Ok(d) ==> (d@ is Empty <==> content@.len() == 0),
    {
        reveal(ClientView::store);
        reveal(ClientView::store_encrypted);
        if content.len() == 0 {
            return Ok(DataMap::Empty);
        }
        let encrypted = self_encrypt(&content);
        Writer::store_encrypted(helper, content, encrypted)
    }

    /// Commits a content for a file: stores the content, updates the file
    /// and the listing, stores the listing and returns it as the network
    /// then holds it. On a consistent transcript, and for a listing whose
    /// key carries the type tag that goes with its kind, the listing
    /// returned is the listing stored: the given listing with the
    /// committed file.
    pub fn commit(
        helper: &mut DirectoryHelper,
        directory_listing: DirectoryListing,
        file: File,
        content: Vec<u8>,
    ) -> (r: Result<DirectoryListing, NfsError>)
        ensures
            (result_view(r), final(helper).client@) == old(helper).client@.commit(
                directory_listing@,
                file@,
                content@,
            ),
            r is Ok ==> old(helper).client@.store(content@).0 is Ok,
            r is Ok ==> DirectoryListing::fits(
                old(helper).client@.closing(directory_listing@, file@, content@),
            ),
            r matches Ok(stored) ==> (consistent(old(helper).client@.transcript)
                && directory_listing@.info.type_tag == listing_tag(
                directory_listing@.info.versioned,
            ) ==> stored@ == old(helper).client@.closing(directory_listing@, file@, content@)
                && final(helper).client@.transcript == old(helper).client@.transcript && old(
                helper,
            ).client@.store(content@).1.cursor <= final(helper).client@.cursor),
    {
        reveal(ClientView::commit);
        proof {
            lemma_client_fits_memory(&helper.client);
            lemma_store_keeps_transcript(helper.client@, content@);
        }
        let ghost start = helper.client@;
        let ghost bytes = content@;
        let mut directory_listing = directory_listing;
        let mut file = file;
        if file.metadata.name.as_str().is_empty() {
            return Err(NfsError::NameIsEmpty);
        }
        let size = content.len() as u64;
        let datamap = match Writer::store(helper, content) {
            Ok(x) => x,
            Err(e) => {
                return Err(e);
            },
        };
        let now = match helper.clock() {
            Ok(x) => x,
            Err(e) => {
                return Err(e);
            },
        };
        file.metadata.set_size(size);
        file.metadata.set_modified_time(now);
        file.set_datamap(datamap);
        let entered = directory_listing.upsert_file(file, now);
        assert(entered is Ok);
        let ghost at = helper.client@;
        let r = helper.update(&directory_listing);
        proof {
            if r is Ok && consistent(start.transcript) && directory_listing@.info.type_tag
                == listing_tag(directory_listing@.info.versioned) {
                assert(at.transcript == start.transcript);
                lemma_asked(start.store(bytes).1);
                lemma_updated(at, directory_listing@);
                lemma_listing_round_trip(directory_listing@);
            }
        }
        r
    }

    /// Makes the writes over `base`, in order.
    pub fn patched(base: Vec<u8>, patches: &Vec<Patch>) -> (r: Result<Vec<u8>, NfsError>)
        ensures
            patches_fit(views(patches@)) ==> r is Ok && r.unwrap()@ == patched(
                base@,
                views(patches@),
            ),
            !patches_fit(views(patches@)) ==> r == Err::<Vec<u8>, NfsError>(
                NfsError::InvalidRangeSpecified,
            ),
    {
        let mut content = base;
        let mut i: usize = 0;
        assert(views(patches@).take(0) =~= Seq::<PatchView>::empty());
        while i < patches.len()
            invariant
                i <= patches.len(),
                content@ == patched(base@, views(patches@).take(i as int)),
                forall|j: int|
                    0 <= j < i ==> (#[trigger] views(patches@)[j]).position + views(
                        patches@,
                    )[j].data.len() <= usize::MAX,
            decreases patches.len() - i,
        {
            assert(views(patches@)[i as int] == patches@[i as int]@);
            let ghost upto = views(patches@).take(i + 1);
            assert(upto.drop_last() =~= views(patches@).take(i as int));
            assert(upto.last() == patches@[i as int]@);
            match Writer::patch(&mut content, &patches[i].data, patches[i].position) {
                Ok(_) => {},
                Err(e) => {
                    return Err(e);
                },
            }
            i += 1;
        }
        assert(views(patches@).take(patches.len() as int) =~= views(patches@));
        Ok(content)
    }

    /// Commits what was written: fetches what the writer starts from,
    /// makes the writes over it, stores the outcome, updates the file and
    /// its listing, stores the listing and returns it as the network then
    /// holds it. On a consistent transcript, and for a listing whose key
    /// carries the type tag that goes with its kind, the listing returned
    /// is the listing stored: the writer's listing with the committed
    /// file.
    pub fn close(self, helper: &mut DirectoryHelper) -> (r: Result<DirectoryListing, NfsError>)
        ensures
            (result_view(r), final(helper).client@) == old(helper).client@.close(
                self@.directory_listing,
                self@.file,
                self@.mode,
                self@.patches,
            ),
            r is Ok ==> ({
                let pre = old(helper).client@.pre_image(self@.mode, self@.file);
                let content = patched(pre.0.unwrap(), self@.patches);
                &&& pre.0 is Ok
                &&& pre.1.store(content).0 is Ok
                &&& DirectoryListing::fits(
                    pre.1.closing(self@.directory_listing, self@.file, content),
                )
                &&& consistent(old(helper).client@.transcript)
                    && self@.directory_listing.info.type_tag == listing_tag(
                    self@.directory_listing.info.versioned,
                ) ==> r.unwrap()@ == pre.1.closing(self@.directory_listing, self@.file, content)
                    && pre.1.transcript == old(helper).client@.transcript
                    && final(helper).client@.transcript == old(helper).client@.transcript
                    && pre.1.store(content).1.cursor <= final(helper).client@.cursor
            }),
    {
        reveal(ClientView::close);
        proof {
            lemma_content_keeps_transcript(helper.client@, self@.file);
        }
        if self.file.metadata.name.as_str().is_empty() {
            return Err(NfsError::NameIsEmpty);
        }
        if !self.patches_fit() {
            return Err(NfsError::InvalidRangeSpecified);
        }
        let base = match self.mode {
            Mode::Overwrite => Vec::new(),
            Mode::Modify => {
                let reader = Reader::new(self.file.clone());
                match reader.content(helper) {
                    Ok(x) => x,
                    Err(e) => {
                        return Err(e);
                    },
                }
            },
        };
        let content = match Writer::patched(base, &self.patches) {
            Ok(x) => x,
            Err(e) => {
                return Err(e);
            },
        };
        Writer::commit(helper, self.directory_listing, self.file, content)
    }
}

} // verus!
