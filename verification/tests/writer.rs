use maidsafe_nfs::datamap::{ChunkDetails, ChunkMap, DataMap};
use maidsafe_nfs::directory_listing::DirectoryListing;
use maidsafe_nfs::errors::NfsError;
use maidsafe_nfs::file::File;
use maidsafe_nfs::helper::reader::Reader;
use maidsafe_nfs::helper::writer::{Mode, Patch, Writer};
use maidsafe_nfs::metadata::FileMetadata;
use maidsafe_nfs::name::NetworkName;
use maidsafe_nfs::timestamp::Timestamp;
use maidsafe_nfs::AccessLevel;

fn writer(mode: Mode) -> Writer {
    let listing = DirectoryListing::new(
        NetworkName::new(vec![1; 64]),
        "Dir".to_string(),
        15100,
        Vec::new(),
        true,
        AccessLevel::Private,
        None,
        Timestamp::new(1, 0),
    );
    let file = File::new(
        FileMetadata::new("f".to_string(), Vec::new(), Timestamp::new(2, 0)),
        DataMap::Empty,
    );
    Writer::new(mode, listing, file)
}

#[test]
fn a_write_takes_the_place_of_what_was_there() {
    let mut content = vec![1u8, 2, 3, 4, 5];
    assert_eq!(Writer::patch(&mut content, &vec![9, 9], 1), Ok(()));
    assert_eq!(content, vec![1, 9, 9, 4, 5]);
    assert_eq!(Writer::patch(&mut content, &vec![7], 4), Ok(()));
    assert_eq!(content, vec![1, 9, 9, 4, 7]);
    assert_eq!(Writer::patch(&mut content, &vec![], 2), Ok(()));
    assert_eq!(content, vec![1, 9, 9, 4, 7]);
}

#[test]
fn a_write_past_the_end_lengthens_the_content() {
    let mut content = vec![1u8, 2, 3];
    assert_eq!(Writer::patch(&mut content, &vec![8, 8], 2), Ok(()));
    assert_eq!(content, vec![1, 2, 8, 8]);
    assert_eq!(Writer::patch(&mut content, &vec![6], 4), Ok(()));
    assert_eq!(content, vec![1, 2, 8, 8, 6]);
    assert_eq!(Writer::patch(&mut content, &vec![5, 5], 8), Ok(()));
    assert_eq!(content, vec![1, 2, 8, 8, 6, 0, 0, 0, 5, 5]);
    assert_eq!(Writer::patch(&mut content, &vec![], 12), Ok(()));
    assert_eq!(content, vec![1, 2, 8, 8, 6, 0, 0, 0, 5, 5, 0, 0]);
    let mut fresh = Vec::new();
    assert_eq!(Writer::patch(&mut fresh, &vec![12; 20], 0), Ok(()));
    assert_eq!(fresh, vec![12; 20]);
}

#[test]
fn a_write_beyond_memory_is_refused() {
    let mut content = vec![1u8, 2, 3];
    assert_eq!(
        Writer::patch(&mut content, &vec![1], u64::MAX),
        Err(NfsError::InvalidRangeSpecified)
    );
    assert_eq!(content, vec![1, 2, 3]);
    let mut w = writer(Mode::Overwrite);
    assert_eq!(w.write(&vec![1], u64::MAX), Err(NfsError::InvalidRangeSpecified));
    assert_eq!(w.write(&vec![1, 2], u64::MAX - 1), Err(NfsError::InvalidRangeSpecified));
    assert!(w.patches.is_empty());
    assert!(w.patches_fit());
    w.patches.push(Patch { position: u64::MAX, data: vec![1] });
    assert!(!w.patches_fit());
    assert_eq!(
        Writer::patched(vec![1], &w.patches),
        Err(NfsError::InvalidRangeSpecified)
    );
}

#[test]
fn a_writer_takes_note_of_its_writes_in_order() {
    let mut w = writer(Mode::Modify);
    assert_eq!(w.mode, Mode::Modify);
    assert_eq!(w.file.get_name(), "f");
    assert!(w.patches.is_empty());
    assert_eq!(w.write(&vec![2u8; 4], 8), Ok(()));
    assert_eq!(w.write(&vec![3u8; 2], 14), Ok(()));
    assert_eq!(w.write(&vec![9u8], 8), Ok(()));
    assert_eq!(w.patches.len(), 3);
    assert_eq!(w.patches[0].position, 8);
    assert_eq!(w.patches[1].data, vec![3u8, 3]);
    assert!(w.patches_fit());
    let over = Writer::patched(vec![1u8; 10], &w.patches).unwrap();
    let mut expected = vec![1u8; 8];
    expected.extend_from_slice(&[9, 2, 2, 2, 0, 0, 3, 3]);
    assert_eq!(over, expected);
    let from_nothing = Writer::patched(Vec::new(), &w.patches).unwrap();
    let mut expected = vec![0u8; 8];
    expected.extend_from_slice(&[9, 2, 2, 2, 0, 0, 3, 3]);
    assert_eq!(from_nothing, expected);
    assert_eq!(Writer::patched(vec![4, 5], &Vec::new()), Ok(vec![4, 5]));
}

#[test]
fn cutting_a_range_out_of_a_content() {
    let content = vec![10u8, 11, 12, 13, 14];
    assert_eq!(Reader::cut(&content, 0, 5), Ok(content.clone()));
    assert_eq!(Reader::cut(&content, 1, 3), Ok(vec![11, 12, 13]));
    assert_eq!(Reader::cut(&content, 5, 0), Ok(vec![]));
    assert_eq!(Reader::cut(&content, 4, 1), Ok(vec![14]));
    assert_eq!(Reader::cut(&content, 4, 2), Err(NfsError::InvalidRangeSpecified));
    assert_eq!(Reader::cut(&content, 6, 0), Err(NfsError::InvalidRangeSpecified));
    assert_eq!(Reader::cut(&content, 0, 6), Err(NfsError::InvalidRangeSpecified));
    assert_eq!(Reader::cut(&content, u64::MAX, u64::MAX), Err(NfsError::InvalidRangeSpecified));
    assert_eq!(Reader::cut(&Vec::new(), 0, 0), Ok(vec![]));
}

#[test]
fn chunks_that_decrypt_to_nothing_are_corrupted() {
    assert_eq!(Reader::recovered(Some(vec![1, 2])), Ok(vec![1, 2]));
    assert_eq!(Reader::recovered(None), Err(NfsError::MetaDataMissingOrCorrupted));
    let a = DataMap::Chunks(ChunkMap {
        keys: vec![ChunkDetails::new(0, [1; 32], [2; 32], 3)],
        level: None,
        stored: vec![NetworkName::new(vec![4])],
    });
    let b = DataMap::Chunks(ChunkMap {
        keys: vec![ChunkDetails::new(0, [1; 32], [2; 32], 3)],
        level: Some(0),
        stored: vec![NetworkName::new(vec![4])],
    });
    assert!(a.same(&a.clone()));
    assert!(!a.same(&b));
    assert!(a.has_chunks());
    assert!(!DataMap::Content(vec![1]).has_chunks());
    assert!(!DataMap::Empty.same(&DataMap::Content(vec![])));
}
