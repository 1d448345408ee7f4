//! Where a file's content lies: nowhere, inline, or in encrypted chunks.

use vstd::prelude::*;
use crate::bytes::{bytes_copy, bytes_eq};
use crate::name::NetworkName;
use crate::view::views;

verus! {

/// The key to one encrypted chunk: its place in the sequence, the hashes of
/// the chunk after and before encryption, and the size it had before.
#[derive(Clone, Copy, Debug)]
pub struct ChunkDetails {
    pub chunk_num: u64,
    pub hash: [u8; 32],
    pub pre_hash: [u8; 32],
    pub source_size: u64,
}

/// The mathematical value of a [`ChunkDetails`].
pub struct ChunkDetailsView {
    pub chunk_num: u64,
    pub hash: Seq<u8>,
    pub pre_hash: Seq<u8>,
    pub source_size: u64,
}

impl View for ChunkDetails {
    type V = ChunkDetailsView;

    open spec fn view(&self) -> ChunkDetailsView {
        ChunkDetailsView {
            chunk_num: self.chunk_num,
            hash: self.hash@,
            pre_hash: self.pre_hash@,
            source_size: self.source_size,
        }
    }
}

/// Whether two hashes are the same.
pub fn hash_eq(a: &[u8; 32], b: &[u8; 32]) -> (r: bool)
    ensures
        r == (a@ == b@),
{
    let mut i: usize = 0;
    while i < 32
        invariant
            i <= 32,
            forall|j: int| 0 <= j < i ==> a@[j] == b@[j],
        decreases 32 - i,
    {
        if a[i] != b[i] {
            return false;
        }
        i += 1;
    }
    assert(a@ =~= b@);
    true
}

impl ChunkDetails {
    pub fn new(chunk_num: u64, hash: [u8; 32], pre_hash: [u8; 32], source_size: u64) -> (r:
        ChunkDetails)
        ensures
            r@ == (ChunkDetailsView {
                chunk_num,
                hash: hash@,
                pre_hash: pre_hash@,
                source_size,
            }),
    {
        ChunkDetails { chunk_num, hash, pre_hash, source_size }
    }

    /// Whether both are the key to the same chunk.
    pub fn same(&self, other: &ChunkDetails) -> (r: bool)
        ensures
            r == (self@ == other@),
    {
        self.chunk_num == other.chunk_num && hash_eq(&self.hash, &other.hash) && hash_eq(
            &self.pre_hash,
            &other.pre_hash,
        ) && self.source_size == other.source_size
    }
}

/// The keys to a file's encrypted chunks, and where each chunk is stored.
#[derive(Debug)]
pub struct ChunkMap {
    /// The keys from which the content is recovered.
    pub keys: Vec<ChunkDetails>,
    /// How many times the list of keys was itself encrypted into chunks.
    pub level: Option<u64>,
    /// The names under which the network holds the encrypted chunks.
    pub stored: Vec<NetworkName>,
}

/// The mathematical value of a [`ChunkMap`].
pub struct ChunkMapView {
    pub keys: Seq<ChunkDetailsView>,
    pub level: Option<u64>,
    pub stored: Seq<Seq<u8>>,
}

impl View for ChunkMap {
    type V = ChunkMapView;

    open spec fn view(&self) -> ChunkMapView {
        ChunkMapView { keys: views(self.keys@), level: self.level, stored: views(self.stored@) }
    }
}

/// A copy of a list of keys.
pub fn keys_clone(keys: &Vec<ChunkDetails>) -> (r: Vec<ChunkDetails>)
    ensures
        views(r@) == views(keys@),
{
    let mut out: Vec<ChunkDetails> = Vec::new();
    let mut i: usize = 0;
    while i < keys.len()
        invariant
            i <= keys.len(),
            out@ == keys@.subrange(0, i as int),
        decreases keys.len() - i,
    {
        out.push(keys[i]);
        assert(out@ =~= keys@.subrange(0, i + 1));
        i += 1;
    }
    assert(out@ =~= keys@);
    out
}

/// Whether two lists hold the same keys in the same order.
pub fn keys_same(a: &Vec<ChunkDetails>, b: &Vec<ChunkDetails>) -> (r: bool)
    ensures
        r == (views(a@) == views(b@)),
{
    if a.len() != b.len() {
        assert(views(a@).len() != views(b@).len());
        return false;
    }
    let mut i: usize = 0;
    while i < a.len()
        invariant
            a.len() == b.len(),
            i <= a.len(),
            forall|j: int| 0 <= j < i ==> a@[j]@ == b@[j]@,
        decreases a.len() - i,
    {
        if !a[i].same(&b[i]) {
            assert(views(a@)[i as int] == a@[i as int]@);
            assert(views(b@)[i as int] == b@[i as int]@);
            return false;
        }
        i += 1;
    }
    assert(views(a@) =~= views(b@));
    true
}

/// A copy of a list of names.
pub fn names_clone(names: &Vec<NetworkName>) -> (r: Vec<NetworkName>)
    ensures
        views(r@) == views(names@),
{
    let mut out: Vec<NetworkName> = Vec::new();
    let mut i: usize = 0;
    while i < names.len()
        invariant
            i <= names.len(),
            out.len() == i,
            forall|j: int| 0 <= j < i ==> out@[j]@ == names@[j]@,
        decreases names.len() - i,
    {
        out.push(names[i].clone());
        i += 1;
    }
    assert(views(out@) =~= views(names@));
    out
}

/// Whether two lists hold the same names in the same order.
pub fn names_same(a: &Vec<NetworkName>, b: &Vec<NetworkName>) -> (r: bool)
    ensures
        r == (views(a@) == views(b@)),
{
    if a.len() != b.len() {
        assert(views(a@).len() != views(b@).len());
        return false;
    }
    let mut i: usize = 0;
    while i < a.len()
        invariant
            a.len() == b.len(),
            i <= a.len(),
            forall|j: int| 0 <= j < i ==> a@[j]@ == b@[j]@,
        decreases a.len() - i,
    {
        if !a[i].same(&b[i]) {
            assert(views(a@)[i as int] == a@[i as int]@);
            assert(views(b@)[i as int] == b@[i as int]@);
            return false;
        }
        i += 1;
    }
    assert(views(a@) =~= views(b@));
    true
}

impl Clone for ChunkMap {
    fn clone(&self) -> (r: Self)
        ensures
            r@ == self@,
    {
        ChunkMap {
            keys: keys_clone(&self.keys),
            level: self.level,
            stored: names_clone(&self.stored),
        }
    }
}

impl ChunkMap {
    /// Whether both lead to the same chunks.
    pub fn same(&self, other: &ChunkMap) -> (r: bool)
        ensures
            r == (self@ == other@),
    {
        keys_same(&self.keys, &other.keys) && self.level == other.level && names_same(
            &self.stored,
            &other.stored,
        )
    }
}

/// Where a file's content lies.
#[derive(Debug)]
pub enum DataMap {
    /// The file is empty.
    Empty,
    /// The content itself, for a file too small to encrypt.
    Content(Vec<u8>),
    /// The content lies in encrypted chunks on the network.
    Chunks(ChunkMap),
}

/// The mathematical value of a [`DataMap`].
pub enum DataMapView {
    Empty,
    Content(Seq<u8>),
    Chunks(ChunkMapView),
}

impl View for DataMap {
    type V = DataMapView;

    open spec fn view(&self) -> DataMapView {
        match self {
            DataMap::Empty => DataMapView::Empty,
            DataMap::Content(c) => DataMapView::Content(c@),
            DataMap::Chunks(m) => DataMapView::Chunks(m@),
        }
    }
}

impl Clone for DataMap {
    fn clone(&self) -> (r: Self)
        ensures
            r@ == self@,
    {
        match self {
            DataMap::Empty => DataMap::Empty,
            DataMap::Content(c) => DataMap::Content(bytes_copy(c)),
            DataMap::Chunks(m) => DataMap::Chunks(m.clone()),
        }
    }
}

impl DataMap {
    /// Whether both lead to the same content in the same way.
    pub fn same(&self, other: &DataMap) -> (r: bool)
        ensures
            r == (self@ == other@),
    {
        match (self, other) {
            (DataMap::Empty, DataMap::Empty) => true,
            (DataMap::Content(a), DataMap::Content(b)) => bytes_eq(a, b),
            (DataMap::Chunks(a), DataMap::Chunks(b)) => a.same(b),
            _ => false,
        }
    }

    /// Whether the content lies in chunks on the network.
    pub fn has_chunks(&self) -> (r: bool)
        ensures
            r == (self@ is Chunks),
    {
        match self {
            DataMap::Chunks(_) => true,
            _ => false,
        }
    }
}

/// What encrypting a file's content gives: the keys, how often the list of
/// keys was encrypted in turn, and every encrypted chunk.
pub struct Encrypted {
    pub keys: Vec<ChunkDetails>,
    pub level: Option<u64>,
    pub chunks: Vec<Vec<u8>>,
}

/// The mathematical value of an [`Encrypted`].
pub struct EncryptedView {
    pub keys: Seq<ChunkDetailsView>,
    pub level: Option<u64>,
    pub chunks: Seq<Seq<u8>>,
}

impl View for Encrypted {
    type V = EncryptedView;

    open spec fn view(&self) -> EncryptedView {
        EncryptedView { keys: views(self.keys@), level: self.level, chunks: views(self.chunks@) }
    }
}

/// The view of an optional encryption result.
pub open spec fn encrypted_option_view(e: Option<Encrypted>) -> Option<EncryptedView> {
    match e {
        Some(x) => Some(x@),
        None => None,
    }
}

/// The view of optional bytes.
pub open spec fn bytes_option_view(b: Option<Vec<u8>>) -> Option<Seq<u8>> {
    match b {
        Some(x) => Some(x@),
        None => None,
    }
}

/// What `self_encryption::encrypt` makes of a content, where it succeeds.
/// The crate's largest chunk size is fixed when it is built, so this is
/// one function for one build.
pub uninterp spec fn self_encrypted(content: Seq<u8>) -> Option<EncryptedView>;

/// Whether the list of keys was encrypted into chunks at most once.
pub open spec fn shrunk_at_most_once(level: Option<u64>) -> bool {
    match level {
        Some(l) => l <= 1,
        None => true,
    }
}

/// Whether decrypting recovers `content` from the keys, level and chunks
/// where they are what encrypting `content` gave and the list of keys was
/// encrypted at most once.
pub open spec fn recovers(
    keys: Seq<ChunkDetailsView>,
    level: Option<u64>,
    chunks: Seq<Seq<u8>>,
    content: Seq<u8>,
) -> bool {
    self_encrypted(content) == Some(EncryptedView { keys, level, chunks })
        && shrunk_at_most_once(level) ==> self_decrypted(keys, level, chunks) == Some(content)
}

/// What `self_encryption::decrypt` recovers from keys and chunks, where it
/// succeeds.
pub uninterp spec fn self_decrypted(
    keys: Seq<ChunkDetailsView>,
    level: Option<u64>,
    chunks: Seq<Seq<u8>>,
) -> Option<Seq<u8>>;

/// Encrypts a content into chunks with `self_encryption::encrypt`. The
/// result is a function of the content alone; `None` stands for any error
/// of the crate, among them the one it gives for a content too short to
/// split.
#[verifier::external_body]
pub(crate) fn self_encrypt(content: &Vec<u8>) -> (r: Option<Encrypted>)
    ensures
        encrypted_option_view(r) == self_encrypted(content@),
{
    let bytes = self_encryption::bytes::Bytes::copy_from_slice(content);
    let (map, chunks) = self_encryption::encrypt(bytes).ok()?;
    Some(Encrypted {
        keys: map.infos().iter().map(|c|
            ChunkDetails::new(c.index as u64, c.dst_hash.0, c.src_hash.0, c.src_size as u64)
        ).collect(),
        level: map.child().map(|l| l as u64),
        chunks: chunks.iter().map(|c| c.content.to_vec()).collect(),
    })
}

/// Recovers a content with `self_encryption::decrypt`. The result is a
/// function of the keys, the level and the chunks alone. From what
/// `encrypt` made of a content, `decrypt` recovers that content; this is
/// claimed where the list of keys was itself encrypted at most once, which
/// is so for every content that fits in memory with the crate's chunk
/// size as it is set.
#[verifier::external_body]
pub(crate) fn self_decrypt(keys: &Vec<ChunkDetails>, level: Option<u64>, chunks: &Vec<Vec<u8>>) -> (r:
    Option<Vec<u8>>)
    ensures
        bytes_option_view(r) == self_decrypted(views(keys@), level, views(chunks@)),
        forall|content: Seq<u8>|
            #[trigger] self_encrypted(content) == Some(
                EncryptedView { keys: views(keys@), level, chunks: views(chunks@) },
            ) && shrunk_at_most_once(level) ==> bytes_option_view(r) == Some(content),
{
    let map = self_encryption::DataMap {
        chunk_identifiers: keys.iter().map(|k| self_encryption::ChunkInfo {
            index: k.chunk_num as usize,
            dst_hash: self_encryption::XorName(k.hash),
            src_hash: self_encryption::XorName(k.pre_hash),
            src_size: k.source_size as usize,
        }).collect(),
        child: level.map(|l| l as usize),
    };
    let sealed: Vec<self_encryption::EncryptedChunk> = chunks.iter().map(|c|
        self_encryption::EncryptedChunk { content: self_encryption::bytes::Bytes::copy_from_slice(c) }
    ).collect();
    self_encryption::decrypt(&map, &sealed).ok().map(|b| b.to_vec())
}

/// The hashes that the chunks had before encryption, in the order of the
/// keys.
pub open spec fn pre_hashes(keys: Seq<ChunkDetailsView>) -> Seq<Seq<u8>> {
    keys.map_values(|k: ChunkDetailsView| k.pre_hash)
}

/// What `self_encryption::decrypt_chunk` recovers from one chunk, where it
/// succeeds.
pub uninterp spec fn self_chunk_decrypted(
    pre_hashes: Seq<Seq<u8>>,
    level: u64,
    index: u64,
    chunk: Seq<u8>,
) -> Option<Seq<u8>>;

/// Recovers the part of a content that one chunk holds, with
/// `self_encryption::decrypt_chunk`. The result is a function of the
/// hashes before encryption of all the chunks, the level, the chunk's
/// place among the chunks and the chunk alone.
#[verifier::external_body]
pub(crate) fn self_decrypt_chunk(keys: &Vec<ChunkDetails>, level: u64, index: u64, chunk: &Vec<u8>) -> (r:
    Option<Vec<u8>>)
    ensures
        bytes_option_view(r) == self_chunk_decrypted(
            pre_hashes(views(keys@)),
            level,
            index,
            chunk@,
        ),
{
    let hashes: Vec<self_encryption::XorName> = keys.iter().map(|k|
        self_encryption::XorName(k.pre_hash)
    ).collect();
    let sealed = self_encryption::bytes::Bytes::copy_from_slice(chunk);
    self_encryption::decrypt_chunk(index as usize, &sealed, &hashes, level as usize).ok().map(|b|
        b.to_vec()
    )
}

/// Where the part of the content begins that the chunk at `i` holds: the
/// sizes of the chunks before it, added up.
pub open spec fn offset(keys: Seq<ChunkDetailsView>, i: int) -> int
    decreases i,
{
    if i <= 0 {
        0
    } else {
        offset(keys, i - 1) + keys[i - 1].source_size
    }
}

/// The parts of a content begin one after the other.
pub proof fn lemma_offsets_grow(keys: Seq<ChunkDetailsView>, i: int, j: int)
    requires
        0 <= i <= j,
    ensures
        0 <= offset(keys, i) <= offset(keys, j),
    decreases j,
{
    if i < j {
        lemma_offsets_grow(keys, i, j - 1);
    } else if i > 0 {
        lemma_offsets_grow(keys, i - 1, i - 1);
        lemma_offsets_grow(keys, 0, i - 1);
    }
}

impl ChunkMap {
    /// The size of the content that the keys lead to, or `None` where the
    /// sizes of the chunks add up to more than 64 bits hold.
    pub fn total_size(&self) -> (r: Option<u64>)
        ensures
            match r {
                Some(total) => total == offset(self@.keys, self@.keys.len() as int),
                None => offset(self@.keys, self@.keys.len() as int) > u64::MAX,
            },
    {
        let mut total: u64 = 0;
        let mut i: usize = 0;
        while i < self.keys.len()
            invariant
                i <= self.keys.len(),
                total == offset(self@.keys, i as int),
            decreases self.keys.len() - i,
        {
            assert(self@.keys[i as int] == self.keys@[i as int]@);
            match total.checked_add(self.keys[i].source_size) {
                Some(next) => {
                    total = next;
                },
                None => {
                    proof {
                        lemma_offsets_grow(self@.keys, i + 1, self@.keys.len() as int);
                    }
                    return None;
                },
            }
            i += 1;
        }
        Some(total)
    }
}

} // verus!
