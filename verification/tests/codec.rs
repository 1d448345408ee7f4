use maidsafe_nfs::codec::{decode_listing, decode_versions, encode_listing, encode_versions};
use maidsafe_nfs::datamap::{ChunkDetails, ChunkMap, DataMap};
use maidsafe_nfs::directory_listing::DirectoryListing;
use maidsafe_nfs::file::File;
use maidsafe_nfs::metadata::{DirectoryInfo, FileMetadata};
use maidsafe_nfs::name::NetworkName;
use maidsafe_nfs::timestamp::Timestamp;
use maidsafe_nfs::AccessLevel;

fn small() -> DirectoryListing {
    DirectoryListing::new(
        NetworkName::new(vec![1]),
        "a".to_string(),
        2,
        Vec::new(),
        true,
        AccessLevel::Private,
        None,
        Timestamp::new(0, 0),
    )
}

fn full() -> DirectoryListing {
    let mut l = DirectoryListing::new(
        NetworkName::new(vec![7; 64]),
        "Dir \u{00e9}\u{4e16}\u{1F600}".to_string(),
        15100,
        vec![0, 255, 3],
        false,
        AccessLevel::Public,
        Some((NetworkName::new(vec![8; 64]), 15101)),
        Timestamp::new(-5, 999_999_999),
    );
    l.upsert_sub_directory(
        DirectoryInfo::new(
            NetworkName::new(vec![9; 64]),
            "sub".to_string(),
            15100,
            vec![1],
            true,
            AccessLevel::Private,
            Some((NetworkName::new(vec![7; 64]), 15100)),
            Timestamp::new(i64::MAX, i32::MAX),
        ),
        Timestamp::new(i64::MIN, i32::MIN),
    )
    .unwrap();
    l.upsert_file(
        File::new(FileMetadata::new("empty".to_string(), vec![], Timestamp::new(1, 2)), DataMap::Empty),
        Timestamp::new(3, 4),
    )
    .unwrap();
    l.upsert_file(
        File::new(
            FileMetadata::new("inline".to_string(), vec![5], Timestamp::new(1, 2)),
            DataMap::Content(vec![1, 2]),
        ),
        Timestamp::new(3, 4),
    )
    .unwrap();
    let map = ChunkMap {
        keys: vec![
            ChunkDetails::new(0, [1; 32], [2; 32], 10),
            ChunkDetails::new(1, [3; 32], [4; 32], u64::MAX),
        ],
        level: Some(2),
        stored: vec![NetworkName::new(vec![5; 32]), NetworkName::new(vec![])],
    };
    l.upsert_file(
        File::new(
            FileMetadata::new("chunked".to_string(), vec![], Timestamp::new(1, 2)),
            DataMap::Chunks(map),
        ),
        Timestamp::new(3, 4),
    )
    .unwrap();
    l
}

#[test]
fn a_small_listing_has_these_bytes() {
    let mut expected: Vec<u8> = Vec::new();
    expected.extend_from_slice(&[1, 0, 0, 0, 0, 0, 0, 0, 1]); // identifier
    expected.extend_from_slice(&[2, 0, 0, 0, 0, 0, 0, 0]); // type tag
    expected.extend_from_slice(&[1, 0, 0, 0, 0, 0, 0, 0, 0x61]); // name
    expected.extend_from_slice(&[0, 0, 0, 0, 0, 0, 0, 0]); // user metadata
    expected.push(1); // keeps history
    expected.push(1); // private
    for _ in 0..2 {
        expected.extend_from_slice(&[0, 0, 0, 0, 0, 0, 0, 0x80]); // seconds
        expected.extend_from_slice(&[0, 0, 0, 0x80, 0, 0, 0, 0]); // nanoseconds
    }
    expected.push(0); // no parent
    expected.extend_from_slice(&[0; 8]); // no sub-directories
    expected.extend_from_slice(&[0; 8]); // no files
    assert_eq!(encode_listing(&small()), expected);
    assert!(decode_listing(&expected).unwrap().same(&small()));
}

#[test]
fn times_are_written_from_the_smallest_up() {
    let mut l = small();
    l.info.set_modified_time(Timestamp::new(i64::MIN, i32::MIN));
    let bytes = encode_listing(&l);
    let modified = &bytes[bytes.len() - 33..bytes.len() - 17];
    assert_eq!(modified, &[0u8; 16]);
    l.info.set_modified_time(Timestamp::new(-1, 1));
    let bytes = encode_listing(&l);
    let modified = &bytes[bytes.len() - 33..bytes.len() - 17];
    assert_eq!(
        modified,
        &[0xff, 0xff, 0xff, 0xff, 0xff, 0xff, 0xff, 0x7f, 1, 0, 0, 0x80, 0, 0, 0, 0]
    );
    l.info.set_modified_time(Timestamp::new(i64::MAX, i32::MAX));
    let bytes = encode_listing(&l);
    let modified = &bytes[bytes.len() - 33..bytes.len() - 17];
    assert_eq!(
        modified,
        &[0xff, 0xff, 0xff, 0xff, 0xff, 0xff, 0xff, 0xff, 0xff, 0xff, 0xff, 0xff, 0, 0, 0, 0]
    );
    assert!(decode_listing(&bytes).unwrap().same(&l));
}

#[test]
fn reading_gives_back_what_was_written() {
    let l = full();
    let bytes = encode_listing(&l);
    let back = decode_listing(&bytes).expect("the bytes stand for a listing");
    assert!(back.same(&l));
    assert_eq!(encode_listing(&back), bytes);
    assert_eq!(back.get_info().get_name(), "Dir \u{00e9}\u{4e16}\u{1F600}");
    assert_eq!(back.get_files().len(), 3);
    assert!(matches!(back.get_files()[2].get_datamap(), DataMap::Chunks(_)));
}

#[test]
fn bytes_that_stand_for_no_listing_are_refused() {
    let bytes = encode_listing(&full());
    assert!(decode_listing(&Vec::new()).is_none());
    for cut in [1usize, 8, 9, 40, bytes.len() / 2, bytes.len() - 1] {
        assert!(decode_listing(&bytes[..cut].to_vec()).is_none(), "cut at {}", cut);
    }
    let mut longer = bytes.clone();
    longer.push(0);
    assert!(decode_listing(&longer).is_none());

    // A name that is no text.
    let mut bad_text = encode_listing(&small());
    bad_text[25] = 0xff;
    assert!(decode_listing(&bad_text).is_none());
    // A flag that is neither set nor clear.
    let mut bad_flag = encode_listing(&small());
    bad_flag[34] = 2;
    assert!(decode_listing(&bad_flag).is_none());
    // Nanoseconds that do not fit.
    let mut bad_time = encode_listing(&small());
    bad_time[48] = 1;
    assert!(decode_listing(&bad_time).is_none());
    // A length that reaches past the end.
    let mut bad_length = encode_listing(&small());
    bad_length[0] = 200;
    assert!(decode_listing(&bad_length).is_none());
    let mut huge = encode_listing(&small());
    for byte in huge.iter_mut().take(8) {
        *byte = 0xff;
    }
    assert!(decode_listing(&huge).is_none());
}

#[test]
fn a_list_of_versions_has_these_bytes() {
    let names = vec![NetworkName::new(vec![1, 2, 3]), NetworkName::new(vec![])];
    let bytes = encode_versions(&names);
    assert_eq!(
        bytes,
        vec![
            2, 0, 0, 0, 0, 0, 0, 0, // two names
            3, 0, 0, 0, 0, 0, 0, 0, 1, 2, 3, // the first
            0, 0, 0, 0, 0, 0, 0, 0, // the second
        ]
    );
    let back = decode_versions(&bytes).unwrap();
    assert_eq!(back.len(), 2);
    assert!(back[0].same(&names[0]));
    assert!(back[1].same(&names[1]));
    assert_eq!(encode_versions(&Vec::new()), vec![0u8; 8]);
    assert!(decode_versions(&vec![0u8; 8]).unwrap().is_empty());
    assert!(decode_versions(&vec![0u8; 7]).is_none());
    assert!(decode_versions(&vec![1, 0, 0, 0, 0, 0, 0, 0]).is_none());
    assert!(decode_versions(&vec![0, 0, 0, 0, 0, 0, 0, 0, 9]).is_none());
    assert!(decode_versions(&vec![0xff; 16]).is_none());
}
