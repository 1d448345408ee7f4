//! The byte format of listings and of version lists.

use vstd::prelude::*;
use crate::AccessLevel;
use crate::datamap::{ChunkDetails, ChunkDetailsView, ChunkMap, ChunkMapView, DataMap, DataMapView};
use crate::view::views;
use crate::directory_listing::{DirectoryListing, DirectoryListingView};
use crate::file::{File, FileView};
use crate::metadata::{DirectoryInfo, DirectoryInfoView, FileMetadata, FileMetadataView};
use crate::name::{key_option_view, KeyView, NetworkName};
use crate::wire::{
    dec_byte, dec_bytes, dec_flag, dec_items, dec_list, dec_text, dec_time, dec_u64, enc_byte, enc_bytes,
    enc_flag, enc_list, enc_text, enc_time, enc_u64, lemma_byte, lemma_bytes, lemma_flag,
    lemma_list, lemma_text, lemma_time, lemma_u64, list_fits, read_byte,
    read_bytes, read_flag, read_list, read_text, read_time, read_u64, write_byte, write_bytes,
    write_flag, write_list, write_text, write_time, write_u64, Parsed, Wire,
};
use vstd::utf8::encode_utf8;

verus! {

// Names.

impl Wire for NetworkName {
    open spec fn fits(v: Seq<u8>) -> bool {
        v.len() <= u64::MAX
    }

    open spec fn enc(v: Seq<u8>) -> Seq<u8> {
        enc_bytes(v)
    }

    open spec fn dec(s: Seq<u8>) -> Parsed<Seq<u8>> {
        dec_bytes(s)
    }

    proof fn lemma_round_trip(v: Seq<u8>, rest: Seq<u8>) {
        lemma_bytes(v, rest);
    }

    fn write(&self, out: &mut Vec<u8>) {
        write_bytes(out, &self.bytes);
    }

    fn read(bytes: &Vec<u8>, pos: usize) -> (r: Option<(Self, usize)>) {
        match read_bytes(bytes, pos) {
            None => None,
            Some((b, end)) => Some((NetworkName { bytes: b }, end)),
        }
    }
}

// Hashes: thirty-two bytes as they are.

pub open spec fn dec_hash(s: Seq<u8>) -> Parsed<Seq<u8>> {
    if s.len() >= 32 {
        Some((s.subrange(0, 32), s.skip(32)))
    } else {
        None
    }
}

pub proof fn lemma_hash(h: Seq<u8>, rest: Seq<u8>)
    requires
        h.len() == 32,
    ensures
        dec_hash(h + rest) == Some((h, rest)),
{
    assert((h + rest).subrange(0, 32) =~= h);
    assert((h + rest).skip(32) =~= rest);
}

pub fn write_hash(out: &mut Vec<u8>, h: &[u8; 32])
    ensures
        final(out)@ == old(out)@ + h@,
{
    let mut i: usize = 0;
    while i < 32
        invariant
            i <= 32,
            out@ == old(out)@ + h@.subrange(0, i as int),
        decreases 32 - i,
    {
        out.push(h[i]);
        assert(out@ =~= old(out)@ + h@.subrange(0, i + 1));
        i += 1;
    }
    assert(h@.subrange(0, 32) =~= h@);
}

pub fn read_hash(bytes: &Vec<u8>, pos: usize) -> (r: Option<([u8; 32], usize)>)
    requires
        pos <= bytes.len(),
    ensures
        match r {
            Some((v, end)) => pos <= end <= bytes.len() && dec_hash(bytes@.skip(pos as int))
                == Some((v@, bytes@.skip(end as int))),
            None => dec_hash(bytes@.skip(pos as int)) is None,
        },
{
    if bytes.len() - pos < 32 {
        return None;
    }
    let mut h: [u8; 32] = [0u8; 32];
    let mut i: usize = 0;
    while i < 32
        invariant
            i <= 32,
            pos + 32 <= bytes.len(),
            forall|j: int| 0 <= j < i ==> h@[j] == bytes@[pos + j],
        decreases 32 - i,
    {
        h[i] = bytes[pos + i];
        i += 1;
    }
    assert(bytes@.skip(pos as int).subrange(0, 32) =~= h@);
    assert(bytes@.skip(pos as int).skip(32) =~= bytes@.skip(pos + 32));
    Some((h, pos + 32))
}

// Keys to chunks.

impl Wire for ChunkDetails {
    open spec fn fits(v: ChunkDetailsView) -> bool {
        v.hash.len() == 32 && v.pre_hash.len() == 32
    }

    open spec fn enc(v: ChunkDetailsView) -> Seq<u8> {
        enc_u64(v.chunk_num) + v.hash + v.pre_hash + enc_u64(v.source_size)
    }

    open spec fn dec(s: Seq<u8>) -> Parsed<ChunkDetailsView> {
        match dec_u64(s) {
            Some((chunk_num, r1)) => match dec_hash(r1) {
                Some((hash, r2)) => match dec_hash(r2) {
                    Some((pre_hash, r3)) => match dec_u64(r3) {
                        Some((source_size, r4)) => Some(
                            (ChunkDetailsView { chunk_num, hash, pre_hash, source_size }, r4),
                        ),
                        None => None,
                    },
                    None => None,
                },
                None => None,
            },
            None => None,
        }
    }

    proof fn lemma_round_trip(v: ChunkDetailsView, rest: Seq<u8>) {
        let r3 = enc_u64(v.source_size) + rest;
        let r2 = v.pre_hash + r3;
        let r1 = v.hash + r2;
        assert(Self::enc(v) + rest =~= enc_u64(v.chunk_num) + r1);
        lemma_u64(v.chunk_num, r1);
        lemma_hash(v.hash, r2);
        lemma_hash(v.pre_hash, r3);
        lemma_u64(v.source_size, rest);
    }

    fn write(&self, out: &mut Vec<u8>) {
        write_u64(out, self.chunk_num);
        write_hash(out, &self.hash);
        write_hash(out, &self.pre_hash);
        write_u64(out, self.source_size);
        assert(out@ =~= old(out)@ + Self::enc(self@));
    }

    fn read(bytes: &Vec<u8>, pos: usize) -> (r: Option<(Self, usize)>) {
        let (chunk_num, p1) = match read_u64(bytes, pos) {
            Some(x) => x,
            None => {
                return None;
            },
        };
        let (hash, p2) = match read_hash(bytes, p1) {
            Some(x) => x,
            None => {
                return None;
            },
        };
        let (pre_hash, p3) = match read_hash(bytes, p2) {
            Some(x) => x,
            None => {
                return None;
            },
        };
        let (source_size, p4) = match read_u64(bytes, p3) {
            Some(x) => x,
            None => {
                return None;
            },
        };
        Some((ChunkDetails { chunk_num, hash, pre_hash, source_size }, p4))
    }
}

// Optional integers and optional keys: a flag, then the value where the
// flag is set.

pub open spec fn enc_level(l: Option<u64>) -> Seq<u8> {
    match l {
        Some(x) => enc_flag(true) + enc_u64(x),
        None => enc_flag(false),
    }
}

pub open spec fn dec_level(s: Seq<u8>) -> Parsed<Option<u64>> {
    match dec_flag(s) {
        Some((true, r)) => match dec_u64(r) {
            Some((x, r2)) => Some((Some(x), r2)),
            None => None,
        },
        Some((false, r)) => Some((None, r)),
        None => None,
    }
}

pub proof fn lemma_level(l: Option<u64>, rest: Seq<u8>)
    ensures
        dec_level(enc_level(l) + rest) == Some((l, rest)),
{
    match l {
        Some(x) => {
            assert(enc_level(l) + rest =~= enc_flag(true) + (enc_u64(x) + rest));
            lemma_flag(true, enc_u64(x) + rest);
            lemma_u64(x, rest);
        },
        None => {
            lemma_flag(false, rest);
        },
    }
}

pub fn write_level(out: &mut Vec<u8>, l: Option<u64>)
    ensures
        final(out)@ == old(out)@ + enc_level(l),
{
    match l {
        Some(x) => {
            write_flag(out, true);
            write_u64(out, x);
            assert(out@ =~= old(out)@ + enc_level(l));
        },
        None => {
            write_flag(out, false);
        },
    }
}

pub fn read_level(bytes: &Vec<u8>, pos: usize) -> (r: Option<(Option<u64>, usize)>)
    requires
        pos <= bytes.len(),
    ensures
        match r {
            Some((v, end)) => pos <= end <= bytes.len() && dec_level(bytes@.skip(pos as int))
                == Some((v, bytes@.skip(end as int))),
            None => dec_level(bytes@.skip(pos as int)) is None,
        },
{
    match read_flag(bytes, pos) {
        None => None,
        Some((false, end)) => Some((None, end)),
        Some((true, mid)) => match read_u64(bytes, mid) {
            None => None,
            Some((x, end)) => Some((Some(x), end)),
        },
    }
}

pub open spec fn key_fits(k: Option<KeyView>) -> bool {
    k matches Some(key) ==> key.0.len() <= u64::MAX
}

pub open spec fn enc_key(k: Option<KeyView>) -> Seq<u8> {
    match k {
        Some(key) => enc_flag(true) + enc_bytes(key.0) + enc_u64(key.1),
        None => enc_flag(false),
    }
}

pub open spec fn dec_key(s: Seq<u8>) -> Parsed<Option<KeyView>> {
    match dec_flag(s) {
        Some((true, r)) => match dec_bytes(r) {
            Some((id, r2)) => match dec_u64(r2) {
                Some((tag, r3)) => Some((Some((id, tag)), r3)),
                None => None,
            },
            None => None,
        },
        Some((false, r)) => Some((None, r)),
        None => None,
    }
}

pub proof fn lemma_key(k: Option<KeyView>, rest: Seq<u8>)
    requires
        key_fits(k),
    ensures
        dec_key(enc_key(k) + rest) == Some((k, rest)),
{
    match k {
        Some(key) => {
            let r2 = enc_u64(key.1) + rest;
            let r1 = enc_bytes(key.0) + r2;
            assert(enc_key(k) + rest =~= enc_flag(true) + r1);
            lemma_flag(true, r1);
            lemma_bytes(key.0, r2);
            lemma_u64(key.1, rest);
        },
        None => {
            lemma_flag(false, rest);
        },
    }
}

pub fn write_key(out: &mut Vec<u8>, k: &Option<(NetworkName, u64)>)
    ensures
        final(out)@ == old(out)@ + enc_key(key_option_view(*k)),
        key_fits(key_option_view(*k)),
{
    match k {
        Some(key) => {
            write_flag(out, true);
            write_bytes(out, &key.0.bytes);
            write_u64(out, key.1);
            assert(out@ =~= old(out)@ + enc_key(key_option_view(*k)));
        },
        None => {
            write_flag(out, false);
        },
    }
}

pub fn read_key(bytes: &Vec<u8>, pos: usize) -> (r: Option<(Option<(NetworkName, u64)>, usize)>)
    requires
        pos <= bytes.len(),
    ensures
        match r {
            Some((v, end)) => pos <= end <= bytes.len() && dec_key(bytes@.skip(pos as int))
                == Some((key_option_view(v), bytes@.skip(end as int))),
            None => dec_key(bytes@.skip(pos as int)) is None,
        },
{
    match read_flag(bytes, pos) {
        None => None,
        Some((false, end)) => Some((None, end)),
        Some((true, p1)) => match read_bytes(bytes, p1) {
            None => None,
            Some((id, p2)) => match read_u64(bytes, p2) {
                None => None,
                Some((tag, end)) => Some((Some((NetworkName { bytes: id }, tag)), end)),
            },
        },
    }
}

// Directories.

impl Wire for DirectoryInfo {
    open spec fn fits(v: DirectoryInfoView) -> bool {
        &&& v.id.len() <= u64::MAX
        &&& encode_utf8(v.name).len() <= u64::MAX
        &&& v.user_metadata.len() <= u64::MAX
        &&& key_fits(v.parent_dir_key)
    }

    open spec fn enc(v: DirectoryInfoView) -> Seq<u8> {
        enc_bytes(v.id) + enc_u64(v.type_tag) + enc_text(v.name) + enc_bytes(v.user_metadata)
            + enc_flag(v.versioned) + enc_flag(v.access_level == AccessLevel::Private) + enc_time(
            v.created_time,
        ) + enc_time(v.modified_time) + enc_key(v.parent_dir_key)
    }

    open spec fn dec(s: Seq<u8>) -> Parsed<DirectoryInfoView> {
        match dec_bytes(s) {
            Some((id, r1)) => match dec_u64(r1) {
                Some((type_tag, r2)) => match dec_text(r2) {
                    Some((name, r3)) => match dec_bytes(r3) {
                        Some((user_metadata, r4)) => match dec_flag(r4) {
                            Some((versioned, r5)) => match dec_flag(r5) {
                                Some((sealed, r6)) => match dec_time(r6) {
                                    Some((created_time, r7)) => match dec_time(r7) {
                                        Some((modified_time, r8)) => match dec_key(r8) {
                                            Some((parent_dir_key, r9)) => Some(
                                                (
                                                    DirectoryInfoView {
                                                        id,
                                                        type_tag,
                                                        name,
                                                        user_metadata,
                                                        versioned,
                                                        access_level: if sealed {
                                                            AccessLevel::Private
                                                        } else {
                                                            AccessLevel::Public
                                                        },
                                                        created_time,
                                                        modified_time,
                                                        parent_dir_key,
                                                    },
                                                    r9,
                                                ),
                                            ),
                                            None => None,
                                        },
                                        None => None,
                                    },
                                    None => None,
                                },
                                None => None,
                            },
                            None => None,
                        },
                        None => None,
                    },
                    None => None,
                },
                None => None,
            },
            None => None,
        }
    }

    proof fn lemma_round_trip(v: DirectoryInfoView, rest: Seq<u8>) {
        let sealed = v.access_level == AccessLevel::Private;
        let r8 = enc_key(v.parent_dir_key) + rest;
        let r7 = enc_time(v.modified_time) + r8;
        let r6 = enc_time(v.created_time) + r7;
        let r5 = enc_flag(sealed) + r6;
        let r4 = enc_flag(v.versioned) + r5;
        let r3 = enc_bytes(v.user_metadata) + r4;
        let r2 = enc_text(v.name) + r3;
        let r1 = enc_u64(v.type_tag) + r2;
        assert(Self::enc(v) + rest =~= enc_bytes(v.id) + r1);
        lemma_bytes(v.id, r1);
        lemma_u64(v.type_tag, r2);
        lemma_text(v.name, r3);
        lemma_bytes(v.user_metadata, r4);
        lemma_flag(v.versioned, r5);
        lemma_flag(sealed, r6);
        lemma_time(v.created_time, r7);
        lemma_time(v.modified_time, r8);
        lemma_key(v.parent_dir_key, rest);
    }

    fn write(&self, out: &mut Vec<u8>) {
        write_bytes(out, &self.id.bytes);
        write_u64(out, self.type_tag);
        write_text(out, &self.name);
        write_bytes(out, &self.user_metadata);
        write_flag(out, self.versioned);
        write_flag(out, self.access_level == AccessLevel::Private);
        write_time(out, self.created_time);
        write_time(out, self.modified_time);
        write_key(out, &self.parent_dir_key);
        assert(out@ =~= old(out)@ + Self::enc(self@));
    }

    fn read(bytes: &Vec<u8>, pos: usize) -> (r: Option<(Self, usize)>) {
        let (id, p1) = match read_bytes(bytes, pos) {
            Some(x) => x,
            None => {
                return None;
            },
        };
        let (type_tag, p2) = match read_u64(bytes, p1) {
            Some(x) => x,
            None => {
                return None;
            },
        };
        let (name, p3) = match read_text(bytes, p2) {
            Some(x) => x,
            None => {
                return None;
            },
        };
        let (user_metadata, p4) = match read_bytes(bytes, p3) {
            Some(x) => x,
            None => {
                return None;
            },
        };
        let (versioned, p5) = match read_flag(bytes, p4) {
            Some(x) => x,
            None => {
                return None;
            },
        };
        let (sealed, p6) = match read_flag(bytes, p5) {
            Some(x) => x,
            None => {
                return None;
            },
        };
        let (created_time, p7) = match read_time(bytes, p6) {
            Some(x) => x,
            None => {
                return None;
            },
        };
        let (modified_time, p8) = match read_time(bytes, p7) {
            Some(x) => x,
            None => {
                return None;
            },
        };
        let (parent_dir_key, p9) = match read_key(bytes, p8) {
            Some(x) => x,
            None => {
                return None;
            },
        };
        let access_level = if sealed {
            AccessLevel::Private
        } else {
            AccessLevel::Public
        };
        Some(
            (
                DirectoryInfo {
                    id: NetworkName { bytes: id },
                    type_tag,
                    name,
                    user_metadata,
                    versioned,
                    access_level,
                    created_time,
                    modified_time,
                    parent_dir_key,
                },
                p9,
            ),
        )
    }
}

// Files.

impl Wire for FileMetadata {
    open spec fn fits(v: FileMetadataView) -> bool {
        &&& encode_utf8(v.name).len() <= u64::MAX
        &&& v.user_metadata.len() <= u64::MAX
    }

    open spec fn enc(v: FileMetadataView) -> Seq<u8> {
        enc_text(v.name) + enc_bytes(v.user_metadata) + enc_u64(v.size) + enc_time(v.created_time)
            + enc_time(v.modified_time)
    }

    open spec fn dec(s: Seq<u8>) -> Parsed<FileMetadataView> {
        match dec_text(s) {
            Some((name, r1)) => match dec_bytes(r1) {
                Some((user_metadata, r2)) => match dec_u64(r2) {
                    Some((size, r3)) => match dec_time(r3) {
                        Some((created_time, r4)) => match dec_time(r4) {
                            Some((modified_time, r5)) => Some(
                                (
                                    FileMetadataView {
                                        name,
                                        user_metadata,
                                        size,
                                        created_time,
                                        modified_time,
                                    },
                                    r5,
                                ),
                            ),
                            None => None,
                        },
                        None => None,
                    },
                    None => None,
                },
                None => None,
            },
            None => None,
        }
    }

    proof fn lemma_round_trip(v: FileMetadataView, rest: Seq<u8>) {
        let r4 = enc_time(v.modified_time) + rest;
        let r3 = enc_time(v.created_time) + r4;
        let r2 = enc_u64(v.size) + r3;
        let r1 = enc_bytes(v.user_metadata) + r2;
        assert(Self::enc(v) + rest =~= enc_text(v.name) + r1);
        lemma_text(v.name, r1);
        lemma_bytes(v.user_metadata, r2);
        lemma_u64(v.size, r3);
        lemma_time(v.created_time, r4);
        lemma_time(v.modified_time, rest);
    }

    fn write(&self, out: &mut Vec<u8>) {
        write_text(out, &self.name);
        write_bytes(out, &self.user_metadata);
        write_u64(out, self.size);
        write_time(out, self.created_time);
        write_time(out, self.modified_time);
        assert(out@ =~= old(out)@ + Self::enc(self@));
    }

    fn read(bytes: &Vec<u8>, pos: usize) -> (r: Option<(Self, usize)>) {
        let (name, p1) = match read_text(bytes, pos) {
            Some(x) => x,
            None => {
                return None;
            },
        };
        let (user_metadata, p2) = match read_bytes(bytes, p1) {
            Some(x) => x,
            None => {
                return None;
            },
        };
        let (size, p3) = match read_u64(bytes, p2) {
            Some(x) => x,
            None => {
                return None;
            },
        };
        let (created_time, p4) = match read_time(bytes, p3) {
            Some(x) => x,
            None => {
                return None;
            },
        };
        let (modified_time, p5) = match read_time(bytes, p4) {
            Some(x) => x,
            None => {
                return None;
            },
        };
        Some((FileMetadata { name, user_metadata, size, created_time, modified_time }, p5))
    }
}

pub open spec fn chunk_map_fits(m: ChunkMapView) -> bool {
    list_fits::<ChunkDetails>(m.keys) && list_fits::<NetworkName>(m.stored)
}

pub open spec fn enc_chunk_map(m: ChunkMapView) -> Seq<u8> {
    enc_list::<ChunkDetails>(m.keys) + enc_level(m.level) + enc_list::<NetworkName>(m.stored)
}

pub open spec fn dec_chunk_map(s: Seq<u8>) -> Parsed<ChunkMapView> {
    match dec_list::<ChunkDetails>(s) {
        Some((keys, r1)) => match dec_level(r1) {
            Some((level, r2)) => match dec_list::<NetworkName>(r2) {
                Some((stored, r3)) => Some((ChunkMapView { keys, level, stored }, r3)),
                None => None,
            },
            None => None,
        },
        None => None,
    }
}

pub proof fn lemma_chunk_map(m: ChunkMapView, rest: Seq<u8>)
    requires
        chunk_map_fits(m),
    ensures
        dec_chunk_map(enc_chunk_map(m) + rest) == Some((m, rest)),
{
    let r2 = enc_list::<NetworkName>(m.stored) + rest;
    let r1 = enc_level(m.level) + r2;
    assert(enc_chunk_map(m) + rest =~= enc_list::<ChunkDetails>(m.keys) + r1);
    lemma_list::<ChunkDetails>(m.keys, r1);
    lemma_level(m.level, r2);
    lemma_list::<NetworkName>(m.stored, rest);
}

impl Wire for DataMap {
    open spec fn fits(v: DataMapView) -> bool {
        match v {
            DataMapView::Empty => true,
            DataMapView::Content(c) => c.len() <= u64::MAX,
            DataMapView::Chunks(m) => chunk_map_fits(m),
        }
    }

    open spec fn enc(v: DataMapView) -> Seq<u8> {
        match v {
            DataMapView::Empty => enc_byte(0),
            DataMapView::Content(c) => enc_byte(1) + enc_bytes(c),
            DataMapView::Chunks(m) => enc_byte(2) + enc_chunk_map(m),
        }
    }

    open spec fn dec(s: Seq<u8>) -> Parsed<DataMapView> {
        match dec_byte(s) {
            Some((tag, r)) => if tag == 0 {
                Some((DataMapView::Empty, r))
            } else if tag == 1 {
                match dec_bytes(r) {
                    Some((c, r2)) => Some((DataMapView::Content(c), r2)),
                    None => None,
                }
            } else if tag == 2 {
                match dec_chunk_map(r) {
                    Some((m, r2)) => Some((DataMapView::Chunks(m), r2)),
                    None => None,
                }
            } else {
                None
            },
            None => None,
        }
    }

    proof fn lemma_round_trip(v: DataMapView, rest: Seq<u8>) {
        match v {
            DataMapView::Empty => {
                lemma_byte(0, rest);
            },
            DataMapView::Content(c) => {
                assert(Self::enc(v) + rest =~= enc_byte(1) + (enc_bytes(c) + rest));
                lemma_byte(1, enc_bytes(c) + rest);
                lemma_bytes(c, rest);
            },
            DataMapView::Chunks(m) => {
                assert(Self::enc(v) + rest =~= enc_byte(2) + (enc_chunk_map(m) + rest));
                lemma_byte(2, enc_chunk_map(m) + rest);
                lemma_chunk_map(m, rest);
            },
        }
    }

    fn write(&self, out: &mut Vec<u8>) {
        match self {
            DataMap::Empty => {
                write_byte(out, 0);
            },
            DataMap::Content(c) => {
                write_byte(out, 1);
                write_bytes(out, c);
                assert(out@ =~= old(out)@ + Self::enc(self@));
            },
            DataMap::Chunks(m) => {
                write_byte(out, 2);
                write_list::<ChunkDetails>(out, &m.keys);
                write_level(out, m.level);
                write_list::<NetworkName>(out, &m.stored);
                assert(out@ =~= old(out)@ + Self::enc(self@));
            },
        }
    }

    fn read(bytes: &Vec<u8>, pos: usize) -> (r: Option<(Self, usize)>) {
        let (tag, p1) = match read_byte(bytes, pos) {
            Some(x) => x,
            None => {
                return None;
            },
        };
        if tag == 0 {
            Some((DataMap::Empty, p1))
        } else if tag == 1 {
            match read_bytes(bytes, p1) {
                Some((c, end)) => Some((DataMap::Content(c), end)),
                None => None,
            }
        } else if tag == 2 {
            let (keys, p2) = match read_list::<ChunkDetails>(bytes, p1) {
                Some(x) => x,
                None => {
                    return None;
                },
            };
            let (level, p3) = match read_level(bytes, p2) {
                Some(x) => x,
                None => {
                    return None;
                },
            };
            let (stored, p4) = match read_list::<NetworkName>(bytes, p3) {
                Some(x) => x,
                None => {
                    return None;
                },
            };
            Some((DataMap::Chunks(ChunkMap { keys, level, stored }), p4))
        } else {
            None
        }
    }
}

impl Wire for File {
    open spec fn fits(v: FileView) -> bool {
        FileMetadata::fits(v.metadata) && DataMap::fits(v.datamap)
    }

    open spec fn enc(v: FileView) -> Seq<u8> {
        FileMetadata::enc(v.metadata) + DataMap::enc(v.datamap)
    }

    open spec fn dec(s: Seq<u8>) -> Parsed<FileView> {
        match FileMetadata::dec(s) {
            Some((metadata, r1)) => match DataMap::dec(r1) {
                Some((datamap, r2)) => Some((FileView { metadata, datamap }, r2)),
                None => None,
            },
            None => None,
        }
    }

    proof fn lemma_round_trip(v: FileView, rest: Seq<u8>) {
        assert(Self::enc(v) + rest =~= FileMetadata::enc(v.metadata) + (DataMap::enc(v.datamap)
            + rest));
        FileMetadata::lemma_round_trip(v.metadata, DataMap::enc(v.datamap) + rest);
        DataMap::lemma_round_trip(v.datamap, rest);
    }

    fn write(&self, out: &mut Vec<u8>) {
        self.metadata.write(out);
        self.datamap.write(out);
        assert(out@ =~= old(out)@ + Self::enc(self@));
    }

    fn read(bytes: &Vec<u8>, pos: usize) -> (r: Option<(Self, usize)>) {
        let (metadata, p1) = match FileMetadata::read(bytes, pos) {
            Some(x) => x,
            None => {
                return None;
            },
        };
        let (datamap, p2) = match DataMap::read(bytes, p1) {
            Some(x) => x,
            None => {
                return None;
            },
        };
        Some((File { metadata, datamap }, p2))
    }
}

// Listings.

impl Wire for DirectoryListing {
    open spec fn fits(v: DirectoryListingView) -> bool {
        &&& DirectoryInfo::fits(v.info)
        &&& list_fits::<DirectoryInfo>(v.sub_directories)
        &&& list_fits::<File>(v.files)
    }

    open spec fn enc(v: DirectoryListingView) -> Seq<u8> {
        DirectoryInfo::enc(v.info) + enc_list::<DirectoryInfo>(v.sub_directories) + enc_list::<
            File,
        >(v.files)
    }

    open spec fn dec(s: Seq<u8>) -> Parsed<DirectoryListingView> {
        match DirectoryInfo::dec(s) {
            Some((info, r1)) => match dec_list::<DirectoryInfo>(r1) {
                Some((sub_directories, r2)) => match dec_list::<File>(r2) {
                    Some((files, r3)) => Some(
                        (DirectoryListingView { info, sub_directories, files }, r3),
                    ),
                    None => None,
                },
                None => None,
            },
            None => None,
        }
    }

    proof fn lemma_round_trip(v: DirectoryListingView, rest: Seq<u8>) {
        let r2 = enc_list::<File>(v.files) + rest;
        let r1 = enc_list::<DirectoryInfo>(v.sub_directories) + r2;
        assert(Self::enc(v) + rest =~= DirectoryInfo::enc(v.info) + r1);
        DirectoryInfo::lemma_round_trip(v.info, r1);
        lemma_list::<DirectoryInfo>(v.sub_directories, r2);
        lemma_list::<File>(v.files, rest);
    }

    fn write(&self, out: &mut Vec<u8>) {
        self.info.write(out);
        write_list::<DirectoryInfo>(out, &self.sub_directories);
        write_list::<File>(out, &self.files);
        assert(out@ =~= old(out)@ + Self::enc(self@));
    }

    fn read(bytes: &Vec<u8>, pos: usize) -> (r: Option<(Self, usize)>) {
        let (info, p1) = match DirectoryInfo::read(bytes, pos) {
            Some(x) => x,
            None => {
                return None;
            },
        };
        let (sub_directories, p2) = match read_list::<DirectoryInfo>(bytes, p1) {
            Some(x) => x,
            None => {
                return None;
            },
        };
        let (files, p3) = match read_list::<File>(bytes, p2) {
            Some(x) => x,
            None => {
                return None;
            },
        };
        Some((DirectoryListing { info, sub_directories, files }, p3))
    }
}

/// The listing that a whole byte string stands for, if it stands for one.
pub open spec fn decoded_listing(s: Seq<u8>) -> Option<DirectoryListingView> {
    match DirectoryListing::dec(s) {
        Some((l, rest)) => if rest.len() == 0 {
            Some(l)
        } else {
            None
        },
        None => None,
    }
}

/// The view of an optional listing.
pub open spec fn listing_option_view(l: Option<DirectoryListing>) -> Option<DirectoryListingView> {
    match l {
        Some(x) => Some(x@),
        None => None,
    }
}

/// The bytes that stand for a listing.
pub fn encode_listing(listing: &DirectoryListing) -> (r: Vec<u8>)
    ensures
        r@ == DirectoryListing::enc(listing@),
        DirectoryListing::fits(listing@),
{
    let mut out: Vec<u8> = Vec::new();
    listing.write(&mut out);
    assert(out@ =~= DirectoryListing::enc(listing@));
    out
}

/// The listing that the bytes stand for; `None` where they stand for none
/// or something follows the listing.
pub fn decode_listing(bytes: &Vec<u8>) -> (r: Option<DirectoryListing>)
    ensures
        listing_option_view(r) == decoded_listing(bytes@),
{
    assert(bytes@.skip(0) =~= bytes@);
    match DirectoryListing::read(bytes, 0) {
        None => None,
        Some((l, end)) => {
            if end == bytes.len() {
                Some(l)
            } else {
                None
            }
        },
    }
}

/// Reading the bytes of a listing gives the listing.
pub proof fn lemma_listing_round_trip(l: DirectoryListingView)
    requires
        DirectoryListing::fits(l),
    ensures
        decoded_listing(DirectoryListing::enc(l)) == Some(l),
{
    DirectoryListing::lemma_round_trip(l, Seq::<u8>::empty());
    assert(DirectoryListing::enc(l) + Seq::<u8>::empty() =~= DirectoryListing::enc(l));
}

// Version lists: the names of the stored versions, oldest first.

/// The names that a whole byte string lists, if it is a list of names.
pub open spec fn decoded_versions(s: Seq<u8>) -> Option<Seq<Seq<u8>>> {
    match dec_list::<NetworkName>(s) {
        Some((names, rest)) => if rest.len() == 0 {
            Some(names)
        } else {
            None
        },
        None => None,
    }
}

/// The view of an optional list of names.
pub open spec fn names_option_view(n: Option<Vec<NetworkName>>) -> Option<Seq<Seq<u8>>> {
    match n {
        Some(x) => Some(views(x@)),
        None => None,
    }
}

/// The bytes that stand for a list of versions.
pub fn encode_versions(names: &Vec<NetworkName>) -> (r: Vec<u8>)
    ensures
        r@ == enc_list::<NetworkName>(views(names@)),
        list_fits::<NetworkName>(views(names@)),
{
    let mut out: Vec<u8> = Vec::new();
    write_list::<NetworkName>(&mut out, names);
    assert(out@ =~= enc_list::<NetworkName>(views(names@)));
    out
}

/// The versions that the bytes list; `None` where they are no such list.
pub fn decode_versions(bytes: &Vec<u8>) -> (r: Option<Vec<NetworkName>>)
    ensures
        names_option_view(r) == decoded_versions(bytes@),
{
    assert(bytes@.skip(0) =~= bytes@);
    match read_list::<NetworkName>(bytes, 0) {
        None => None,
        Some((names, end)) => {
            if end == bytes.len() {
                Some(names)
            } else {
                None
            }
        },
    }
}

/// Reading the bytes of a list of versions gives the list.
pub proof fn lemma_versions_round_trip(names: Seq<Seq<u8>>)
    requires
        list_fits::<NetworkName>(names),
    ensures
        decoded_versions(enc_list::<NetworkName>(names)) == Some(names),
{
    lemma_list::<NetworkName>(names, Seq::<u8>::empty());
    assert(enc_list::<NetworkName>(names) + Seq::<u8>::empty() =~= enc_list::<NetworkName>(names));
}

/// Names that were read from bytes can be written again.
pub proof fn lemma_read_names_fit(s: Seq<u8>, n: nat)
    requires
        dec_items::<NetworkName>(s, n) is Some,
    ensures
        dec_items::<NetworkName>(s, n).unwrap().0.len() == n,
        forall|i: int|
            0 <= i < n ==> (#[trigger] dec_items::<NetworkName>(s, n).unwrap().0[i]).len()
                <= u64::MAX,
    decreases n,
{
    if n > 0 {
        let first = dec_bytes(s).unwrap();
        lemma_read_names_fit(first.1, (n - 1) as nat);
        let tail = dec_items::<NetworkName>(first.1, (n - 1) as nat).unwrap().0;
        let all = dec_items::<NetworkName>(s, n).unwrap().0;
        assert(all =~= seq![first.0] + tail);
        assert forall|i: int| 0 <= i < n implies (#[trigger] all[i]).len() <= u64::MAX by {
            if i > 0 {
                assert(all[i] == tail[i - 1]);
            }
        }
    }
}

/// A list of versions that was read from bytes can be written again.
pub proof fn lemma_decoded_versions_fit(s: Seq<u8>)
    requires
        decoded_versions(s) is Some,
    ensures
        list_fits::<NetworkName>(decoded_versions(s).unwrap()),
{
    let head = dec_u64(s).unwrap();
    lemma_read_names_fit(head.1, head.0 as nat);
}

} // verus!
