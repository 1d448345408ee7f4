//! Reading a file's content by offset and length.

use vstd::prelude::*;
use crate::bytes::{bytes_append, bytes_copy, bytes_slice};
use crate::client::ClientView;
use crate::datamap::{
    bytes_option_view, lemma_offsets_grow, offset, pre_hashes, recovers, self_chunk_decrypted,
    self_decrypt, self_decrypt_chunk, self_decrypted, self_encrypted, shrunk_at_most_once,
    ChunkDetailsView, ChunkMap, ChunkMapView, DataMap, DataMapView,
};
use crate::view::views;
use crate::errors::NfsError;
use crate::file::{File, FileView};
use crate::helper::directory_helper::{bytes_result_view, DirectoryHelper, Outcome};
use crate::laws::{lemma_fetched_what_was_stored, lemma_read_after_write, written_before};
use crate::name::NetworkName;

verus! {

/// The view of a result that holds a list of byte strings.
pub open spec fn chunks_result_view(r: Result<Vec<Vec<u8>>, NfsError>) -> Result<
    Seq<Seq<u8>>,
    NfsError,
> {
    match r {
        Ok(x) => Ok(views(x@)),
        Err(e) => Err(e),
    }
}

/// The part of a content from `position` on that is `length` long. A range
/// that reaches past the end of the content is refused.
pub open spec fn cut(content: Seq<u8>, position: u64, length: u64) -> Result<Seq<u8>, NfsError> {
    if position + length > content.len() {
        Err(NfsError::InvalidRangeSpecified)
    } else {
        Ok(content.subrange(position as int, position + length))
    }
}

/// What the recovered content of a chunked file comes to: chunks from
/// which nothing can be recovered are reported as corrupted.
pub open spec fn recovered(content: Option<Seq<u8>>) -> Result<Seq<u8>, NfsError> {
    match content {
        Some(b) => Ok(b),
        None => Err(NfsError::MetaDataMissingOrCorrupted),
    }
}

/// Whether the chunk at `i` holds a part of the range.
pub open spec fn overlaps(keys: Seq<ChunkDetailsView>, i: int, position: u64, length: u64) -> bool {
    length > 0 && offset(keys, i) < position + length && offset(keys, i + 1) > position
}

/// What one decrypted chunk comes to: a chunk from which nothing can be
/// recovered, or not as much as its key says, is reported as corrupted.
pub open spec fn chunk_plain(decrypted: Option<Seq<u8>>, size: u64) -> Result<Seq<u8>, NfsError> {
    match decrypted {
        Some(plain) => if plain.len() == size {
            Ok(plain)
        } else {
            Err(NfsError::MetaDataMissingOrCorrupted)
        },
        None => Err(NfsError::MetaDataMissingOrCorrupted),
    }
}

/// How far into the first chunk that holds a part of the range the range
/// begins, going through the chunks from `i` on.
pub open spec fn span_skip(keys: Seq<ChunkDetailsView>, position: u64, length: u64, i: int) -> int
    decreases keys.len() - i,
{
    if i < 0 || i >= keys.len() {
        0
    } else if overlaps(keys, i, position, length) {
        position - offset(keys, i)
    } else {
        span_skip(keys, position, length, i + 1)
    }
}

/// Whether a read is served from the chunks that hold the range alone: the
/// range is not the whole file, and the keys lead to the chunks
/// themselves.
pub open spec fn reads_span(file: FileView, position: u64, length: u64) -> bool {
    file.datamap matches DataMapView::Chunks(map) && map.level is None && !(position == 0
        && length == file.metadata.size)
}

impl ClientView {
    /// Fetching and decrypting, from the chunk at `i` on, the chunks that
    /// hold a part of the range; the result is their parts of the content,
    /// one after the other.
    pub open spec fn gather(self, map: ChunkMapView, position: u64, length: u64, i: int) -> Outcome<
        Seq<u8>,
    >
        decreases map.keys.len() - i,
    {
        if i < 0 || i >= map.keys.len() {
            (Ok(Seq::empty()), self)
        } else if overlaps(map.keys, i, position, length) {
            match self.get_immutable_data(map.stored[i]) {
                (Err(e), c) => (Err(e), c),
                (Ok(chunk), c) => match chunk_plain(
                    self_chunk_decrypted(pre_hashes(map.keys), 0, i as u64, chunk),
                    map.keys[i].source_size,
                ) {
                    Err(e) => (Err(e), c),
                    Ok(part) => match c.gather(map, position, length, i + 1) {
                        (Err(e), c2) => (Err(e), c2),
                        (Ok(rest), c2) => (Ok(part + rest), c2),
                    },
                },
            }
        } else {
            self.gather(map, position, length, i + 1)
        }
    }

    /// Reading a range from the chunks that hold it: a map whose keys and
    /// names do not pair up, or whose sizes add up to more than 64 bits
    /// hold, is reported as corrupted, and a range that reaches past what
    /// the chunks hold is refused, before anything is asked of the
    /// network. Then the chunks that hold a part of the range are fetched
    /// and decrypted, and the range is cut out of their parts.
    #[verifier::opaque]
    pub open spec fn read_span(self, map: ChunkMapView, position: u64, length: u64) -> Outcome<
        Seq<u8>,
    > {
        let total = offset(map.keys, map.keys.len() as int);
        if map.keys.len() != map.stored.len() || total > u64::MAX {
            (Err(NfsError::MetaDataMissingOrCorrupted), self)
        } else if position + length > total {
            (Err(NfsError::InvalidRangeSpecified), self)
        } else {
            match self.gather(map, position, length, 0) {
                (Err(e), c) => (Err(e), c),
                (Ok(parts), c) => (
                    cut(parts, span_skip(map.keys, position, length, 0) as u64, length),
                    c,
                ),
            }
        }
    }

    /// Reading a range of a file: a range that reaches past the recorded
    /// size is refused before anything is asked of the network. A range
    /// that is not the whole file is read from the chunks that hold it,
    /// where the file's keys lead to the chunks themselves; otherwise the
    /// whole content is recovered and the range cut out of it.
    #[verifier::opaque]
    pub open spec fn read(self, file: FileView, position: u64, length: u64) -> Outcome<Seq<u8>> {
        if position + length > file.metadata.size {
            (Err(NfsError::InvalidRangeSpecified), self)
        } else if reads_span(file, position, length) {
            self.read_span(file.datamap->Chunks_0, position, length)
        } else {
            self.read_whole(file, position, length)
        }
    }

    /// Fetching the blobs with the given names, in order.
    pub open spec fn fetch_chunks(self, names: Seq<Seq<u8>>) -> Outcome<Seq<Seq<u8>>>
        decreases names.len(),
    {
        if names.len() == 0 {
            (Ok(Seq::empty()), self)
        } else {
            match self.get_immutable_data(names[0]) {
                (Err(e), c) => (Err(e), c),
                (Ok(chunk), c) => match c.fetch_chunks(names.drop_first()) {
                    (Err(e), c2) => (Err(e), c2),
                    (Ok(rest), c2) => (Ok(seq![chunk] + rest), c2),
                },
            }
        }
    }

    /// Recovering a file's whole content: nothing for an empty file, the
    /// inline bytes of a small one, and otherwise what the fetched chunks
    /// decrypt to.
    #[verifier::opaque]
    pub open spec fn content(self, file: FileView) -> Outcome<Seq<u8>> {
        match file.datamap {
            DataMapView::Empty => (Ok(Seq::empty()), self),
            DataMapView::Content(inline) => (Ok(inline), self),
            DataMapView::Chunks(map) => match self.fetch_chunks(map.stored) {
                (Err(e), c) => (Err(e), c),
                (Ok(chunks), c) => (recovered(self_decrypted(map.keys, map.level, chunks)), c),
            },
        }
    }

    /// Reading a range of a file out of its whole content: a range that
    /// reaches past the recorded size is refused before anything is asked
    /// of the network; otherwise the content is recovered and the range
    /// cut out of it.
    #[verifier::opaque]
    pub open spec fn read_whole(self, file: FileView, position: u64, length: u64) -> Outcome<
        Seq<u8>,
    > {
        if position + length > file.metadata.size {
            (Err(NfsError::InvalidRangeSpecified), self)
        } else {
            match self.content(file) {
                (Err(e), c) => (Err(e), c),
                (Ok(content), c) => (cut(content, position, length), c),
            }
        }
    }
}

/// A view of one file's content that can be read at any offset.
#[derive(Debug)]
pub struct Reader {
    pub file: File,
}

impl Reader {
    /// A reader of the given file.
    pub fn new(file: File) -> (r: Reader)
        ensures
            r.file@ == file@,
    {
        Reader { file }
    }

    /// The file's recorded size.
    pub fn size(&self) -> (r: u64)
        ensures
            r == self.file@.metadata.size,
    {
        self.file.get_metadata().get_size()
    }

    /// The part of `content` from `position` on that is `length` long.
    pub fn cut(content: &Vec<u8>, position: u64, length: u64) -> (r: Result<Vec<u8>, NfsError>)
        ensures
            bytes_result_view(r) == cut(content@, position, length),
    {
        if position > content.len() as u64 || length > content.len() as u64 - position {
            return Err(NfsError::InvalidRangeSpecified);
        }
        Ok(bytes_slice(content, position as usize, (position + length) as usize))
    }

    /// What the recovered content of a chunked file comes to.
    pub fn recovered(content: Option<Vec<u8>>) -> (r: Result<Vec<u8>, NfsError>)
        ensures
            bytes_result_view(r) == recovered(
                match content {
                    Some(b) => Some(b@),
                    None => None,
                },
            ),
    {
        match content {
            Some(b) => Ok(b),
            None => Err(NfsError::MetaDataMissingOrCorrupted),
        }
    }

    /// Fetches the blobs with the given names, in order.
    pub fn fetch_chunks(helper: &mut DirectoryHelper, names: &Vec<NetworkName>) -> (r: Result<
        Vec<Vec<u8>>,
        NfsError,
    >)
        ensures
            (chunks_result_view(r), final(helper).client@) == old(helper).client@.fetch_chunks(
                views(names@),
            ),
    {
        let mut chunks: Vec<Vec<u8>> = Vec::new();
        let mut i: usize = 0;
        let ghost start = helper.client@;
        assert(views(names@).skip(0) =~= views(names@));
        assert(views(chunks@) =~= Seq::<Seq<u8>>::empty());
        while i < names.len()
            invariant
                i <= names.len(),
                start == old(helper).client@,
                start.fetch_chunks(views(names@)) == match helper.client@.fetch_chunks(
                    views(names@).skip(i as int),
                ) {
                    (Ok(rest), c) => (Ok::<Seq<Seq<u8>>, NfsError>(views(chunks@) + rest), c),
                    (Err(e), c) => (Err::<Seq<Seq<u8>>, NfsError>(e), c),
                },
            decreases names.len() - i,
        {
            let ghost before = views(chunks@);
            let ghost here = helper.client@;
            let ghost tail = views(names@).skip(i as int);
            assert(tail[0] == names@[i as int]@);
            assert(tail.drop_first() =~= views(names@).skip(i + 1));
            match helper.get_immutable_data(&names[i]) {
                Err(e) => {
                    assert(here.fetch_chunks(tail).0 == Err::<Seq<Seq<u8>>, NfsError>(e));
                    return Err(e);
                },
                Ok(chunk) => {
                    proof {
                        let next = helper.client@.fetch_chunks(views(names@).skip(i + 1));
                        if next.0 is Ok {
                            assert(before + (seq![chunk@] + next.0->Ok_0) =~= before.push(chunk@)
                                + next.0->Ok_0);
                        }
                    }
                    chunks.push(chunk);
                    assert(views(chunks@) =~= before.push(chunk@));
                    i += 1;
                },
            }
        }
        assert(views(chunks@) + Seq::<Seq<u8>>::empty() =~= views(chunks@));
        Ok(chunks)
    }

    /// Recovers the file's whole content. Where the chunks that were
    /// fetched are what encrypting a content gave, that content is what is
    /// recovered.
    pub fn content(&self, helper: &mut DirectoryHelper) -> (r: Result<Vec<u8>, NfsError>)
        ensures
            (bytes_result_view(r), final(helper).client@) == old(helper).client@.content(
                self.file@,
            ),
            self.file@.datamap matches DataMapView::Chunks(map) ==> (old(
                helper,
            ).client@.fetch_chunks(map.stored).0 matches Ok(chunks) ==> forall|bytes: Seq<u8>|
                #![trigger self_encrypted(bytes)]
                recovers(map.keys, map.level, chunks, bytes)),
    {
        reveal(ClientView::content);
        match self.file.get_datamap() {
            DataMap::Empty => Ok(Vec::new()),
            DataMap::Content(inline) => Ok(bytes_copy(inline)),
            DataMap::Chunks(map) => {
                let chunks = match Reader::fetch_chunks(helper, &map.stored) {
                    Ok(x) => x,
                    Err(e) => {
                        return Err(e);
                    },
                };
                Reader::recovered(self_decrypt(&map.keys, map.level, &chunks))
            },
        }
    }

    /// What one decrypted chunk comes to.
    pub fn chunk_plain(decrypted: Option<Vec<u8>>, size: u64) -> (r: Result<Vec<u8>, NfsError>)
        ensures
            bytes_result_view(r) == chunk_plain(bytes_option_view(decrypted), size),
    {
        match decrypted {
            Some(plain) => {
                if plain.len() as u64 == size {
                    Ok(plain)
                } else {
                    Err(NfsError::MetaDataMissingOrCorrupted)
                }
            },
            None => Err(NfsError::MetaDataMissingOrCorrupted),
        }
    }

    /// Reads a range from the chunks that hold it, for a map whose keys
    /// lead to the chunks themselves.
    pub fn read_span(helper: &mut DirectoryHelper, map: &ChunkMap, position: u64, length: u64) -> (r:
        Result<Vec<u8>, NfsError>)
        ensures
            (bytes_result_view(r), final(helper).client@) == old(helper).client@.read_span(
                map@,
                position,
                length,
            ),
    {
        reveal(ClientView::read_span);
        let ghost keys = map@.keys;
        let n: usize = map.keys.len();
        assert(keys.len() == n);
        if map.stored.len() != n {
            assert(map@.stored.len() == map.stored.len());
            return Err(NfsError::MetaDataMissingOrCorrupted);
        }
        assert(map@.stored.len() == n);
        let total = match map.total_size() {
            Some(x) => x,
            None => {
                return Err(NfsError::MetaDataMissingOrCorrupted);
            },
        };
        if position > total || length > total - position {
            return Err(NfsError::InvalidRangeSpecified);
        }
        let stop: u64 = position + length;
        let ghost start = helper.client@;
        let ghost goal = start.gather(map@, position, length, 0);
        let ghost goal_skip = span_skip(keys, position, length, 0);
        let mut out: Vec<u8> = Vec::new();
        let mut skip: Option<u64> = None;
        let mut off: u64 = 0;
        let mut i: usize = 0;
        while i < n
            invariant
                i <= n,
                n == map.keys.len(),
                n == map.stored.len(),
                keys == map@.keys,
                total == offset(keys, n as int),
                stop == position + length,
                stop <= total,
                off == offset(keys, i as int),
                skip is None && length > 0 ==> off <= position,
                goal_skip == match skip {
                    Some(s) => s as int,
                    None => span_skip(keys, position, length, i as int),
                },
                old(helper).client@.read_span(map@, position, length) == match goal {
                    (Ok(parts), c) => (cut(parts, goal_skip as u64, length), c),
                    (Err(e), c) => (Err::<Seq<u8>, NfsError>(e), c),
                },
                goal == match helper.client@.gather(map@, position, length, i as int) {
                    (Ok(rest), c) => (Ok::<Seq<u8>, NfsError>(out@ + rest), c),
                    (Err(e), c) => (Err::<Seq<u8>, NfsError>(e), c),
                },
            decreases n - i,
        {
            let ghost before = out@;
            let ghost here = helper.client@;
            assert(keys[i as int] == map.keys@[i as int]@);
            assert(map@.stored[i as int] == map.stored@[i as int]@);
            proof {
                lemma_offsets_grow(keys, i + 1, n as int);
            }
            let size: u64 = map.keys[i].source_size;
            let next: u64 = off + size;
            if length > 0 && off < stop && next > position {
                assert(overlaps(keys, i as int, position, length));
                let chunk = match helper.get_immutable_data(&map.stored[i]) {
                    Ok(x) => x,
                    Err(e) => {
                        assert(here.gather(map@, position, length, i as int).0 == Err::<
                            Seq<u8>,
                            NfsError,
                        >(e));
                        return Err(e);
                    },
                };
                let part = match Reader::chunk_plain(
                    self_decrypt_chunk(&map.keys, 0, i as u64, &chunk),
                    size,
                ) {
                    Ok(x) => x,
                    Err(e) => {
                        assert(here.gather(map@, position, length, i as int).0 == Err::<
                            Seq<u8>,
                            NfsError,
                        >(e));
                        return Err(e);
                    },
                };
                proof {
                    let next_gather = helper.client@.gather(map@, position, length, i + 1);
                    if next_gather.0 is Ok {
                        assert(before + (part@ + next_gather.0->Ok_0) =~= (before + part@)
                            + next_gather.0->Ok_0);
                    }
                }
                if skip.is_none() {
                    skip = Some(position - off);
                }
                bytes_append(&mut out, &part);
            } else {
                assert(!overlaps(keys, i as int, position, length));
            }
            off = next;
            i += 1;
        }
        assert(out@ + Seq::<u8>::empty() =~= out@);
        let from: u64 = match skip {
            Some(s) => s,
            None => 0,
        };
        Reader::cut(&out, from, length)
    }

    /// Reads `length` bytes from `position` on. A range that reaches past
    /// the file's size is refused. A range that is not the whole file is
    /// read from the chunks that hold it. Where the file holds what
    /// storing a content gave, reading the whole file gives that content.
    pub fn read(&self, helper: &mut DirectoryHelper, position: u64, length: u64) -> (r: Result<
        Vec<u8>,
        NfsError,
    >)
        ensures
            (bytes_result_view(r), final(helper).client@) == old(helper).client@.read(
                self.file@,
                position,
                length,
            ),
            position + length > self.file@.metadata.size ==> r == Err::<Vec<u8>, NfsError>(
                NfsError::InvalidRangeSpecified,
            ) && final(helper).client@ == old(helper).client@,
            forall|bytes: Seq<u8>, before: ClientView|
                #![trigger before.store(bytes)]
                written_before(before, old(helper).client@, self.file@, bytes) && position == 0
                    && length == bytes.len() && r is Ok ==> bytes_result_view(r) == Ok::<
                    Seq<u8>,
                    NfsError,
                >(bytes),
    {
        reveal(ClientView::read);
        reveal(ClientView::read_whole);
        let size = self.size();
        if position > size || length > size - position {
            return Err(NfsError::InvalidRangeSpecified);
        }
        let whole = position == 0 && length == size;
        match self.file.get_datamap() {
            DataMap::Chunks(map) => {
                if map.level.is_none() && !whole {
                    return Reader::read_span(helper, map, position, length);
                }
            },
            _ => {},
        }
        self.read_whole(helper, position, length)
    }

    /// Reads `length` bytes from `position` on out of the file's whole
    /// content.
    pub fn read_whole(&self, helper: &mut DirectoryHelper, position: u64, length: u64) -> (r: Result<
        Vec<u8>,
        NfsError,
    >)
        ensures
            (bytes_result_view(r), final(helper).client@) == old(helper).client@.read_whole(
                self.file@,
                position,
                length,
            ),
            position + length > self.file@.metadata.size ==> r == Err::<Vec<u8>, NfsError>(
                NfsError::InvalidRangeSpecified,
            ) && final(helper).client@ == old(helper).client@,
            forall|bytes: Seq<u8>, before: ClientView|
                #![trigger before.store(bytes)]
                written_before(before, old(helper).client@, self.file@, bytes) && position == 0
                    && length == bytes.len() && r is Ok ==> bytes_result_view(r) == Ok::<
                    Seq<u8>,
                    NfsError,
                >(bytes),
    {
        reveal(ClientView::read_whole);
        let ghost start = helper.client@;
        let size = self.size();
        if position > size || length > size - position {
            return Err(NfsError::InvalidRangeSpecified);
        }
        let content = match self.content(helper) {
            Ok(x) => x,
            Err(e) => {
                return Err(e);
            },
        };
        let r = Reader::cut(&content, position, length);
        proof {
            reveal(ClientView::content);
            assert forall|bytes: Seq<u8>, before: ClientView|
                written_before(before, start, self.file@, bytes) && position == 0 && length
                    == bytes.len() && r is Ok implies bytes_result_view(r) == Ok::<
                Seq<u8>,
                NfsError,
            >(bytes) by {
                if bytes.len() > 0 && self_encrypted(bytes) is Some {
                    let e = self_encrypted(bytes).unwrap();
                    if shrunk_at_most_once(e.level) {
                        lemma_fetched_what_was_stored(before, start, self.file@, bytes);
                    }
                    assert(recovers(e.keys, e.level, e.chunks, bytes));
                }
                lemma_read_after_write(before, start, self.file@, bytes);
            }
        }
        r
    }
}

} // verus!
