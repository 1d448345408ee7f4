use maidsafe_nfs::datamap::DataMap;
use maidsafe_nfs::directory_listing::DirectoryListing;
use maidsafe_nfs::errors::NfsError;
use maidsafe_nfs::file::File;
use maidsafe_nfs::metadata::{DirectoryInfo, FileMetadata};
use maidsafe_nfs::name::NetworkName;
use maidsafe_nfs::timestamp::Timestamp;
use maidsafe_nfs::{AccessLevel, VERSIONED_DIRECTORY_LISTING_TAG};

fn at(sec: i64) -> Timestamp {
    Timestamp::new(sec, 0)
}

fn listing() -> DirectoryListing {
    DirectoryListing::new(
        NetworkName::new(vec![0xAA; 64]),
        "Top".to_string(),
        VERSIONED_DIRECTORY_LISTING_TAG,
        vec![1, 2],
        true,
        AccessLevel::Private,
        None,
        at(10),
    )
}

fn info(id: u8, name: &str, metadata: Vec<u8>) -> DirectoryInfo {
    DirectoryInfo::new(
        NetworkName::new(vec![id; 64]),
        name.to_string(),
        VERSIONED_DIRECTORY_LISTING_TAG,
        metadata,
        true,
        AccessLevel::Private,
        Some((NetworkName::new(vec![0xAA; 64]), VERSIONED_DIRECTORY_LISTING_TAG)),
        at(11),
    )
}

fn file(name: &str, metadata: Vec<u8>) -> File {
    File::new(FileMetadata::new(name.to_string(), metadata, at(12)), DataMap::Empty)
}

#[test]
fn a_new_listing_is_empty_and_stamped() {
    let l = listing();
    assert_eq!(l.get_info().get_name(), "Top");
    assert_eq!(l.get_info().get_user_metadata(), &vec![1u8, 2]);
    assert_eq!(l.get_info().get_created_time(), at(10));
    assert_eq!(l.get_info().get_modified_time(), at(10));
    assert_eq!(l.get_key().1, VERSIONED_DIRECTORY_LISTING_TAG);
    assert_eq!(l.get_key().0.bytes, vec![0xAA; 64]);
    assert!(l.get_sub_directories().is_empty());
    assert!(l.get_files().is_empty());
    assert!(l.get_metadata().get_parent_dir_key().is_none());
}

#[test]
fn upsert_sub_directory_twice_leaves_the_later_one() {
    let mut l = listing();
    assert_eq!(l.upsert_sub_directory(info(1, "Other", vec![]), at(20)), Ok(()));
    assert_eq!(l.upsert_sub_directory(info(2, "Child", vec![1]), at(21)), Ok(()));
    assert_eq!(l.upsert_sub_directory(info(2, "Child", vec![2]), at(22)), Ok(()));
    assert_eq!(l.get_sub_directories().len(), 2);
    let named: Vec<&DirectoryInfo> = l
        .get_sub_directories()
        .iter()
        .filter(|d| d.get_name() == "Child")
        .collect();
    assert_eq!(named.len(), 1);
    assert_eq!(named[0].get_user_metadata(), &vec![2u8]);
    assert_eq!(l.get_sub_directory_index(&"Child".to_string()), Some(1));
    assert_eq!(l.get_info().get_modified_time(), at(22));
    assert_eq!(l.get_info().get_created_time(), at(10));
}

#[test]
fn upsert_sub_directory_replaces_by_identifier() {
    let mut l = listing();
    l.upsert_sub_directory(info(1, "Old", vec![]), at(20)).unwrap();
    l.upsert_sub_directory(info(1, "New", vec![]), at(21)).unwrap();
    assert_eq!(l.get_sub_directories().len(), 1);
    assert!(l.find_sub_directory(&"Old".to_string()).is_none());
    assert!(l.find_sub_directory(&"New".to_string()).unwrap().same(&info(1, "New", vec![])));
    assert_eq!(l.get_sub_directory_index_by_id(&NetworkName::new(vec![1; 64])), Some(0));
    assert_eq!(l.get_sub_directory_index_by_id(&NetworkName::new(vec![2; 64])), None);
}

#[test]
fn upsert_sub_directory_refuses_a_taken_or_empty_name() {
    let mut l = listing();
    l.upsert_sub_directory(info(1, "Child", vec![7]), at(20)).unwrap();
    let before = l.clone();
    assert!(l.is_name_taken(&info(2, "Child", vec![])));
    assert!(!l.is_name_taken(&info(1, "Child", vec![])));
    assert_eq!(l.check_sub_directory(&info(2, "Child", vec![])), Err(NfsError::AlreadyExists));
    assert_eq!(
        l.upsert_sub_directory(info(2, "Child", vec![]), at(21)),
        Err(NfsError::AlreadyExists)
    );
    assert_eq!(l.upsert_sub_directory(info(3, "", vec![]), at(21)), Err(NfsError::NameIsEmpty));
    assert!(l.same(&before));
    l.upsert_sub_directory(info(2, "Second", vec![]), at(22)).unwrap();
    assert_eq!(
        l.upsert_sub_directory(info(2, "Child", vec![]), at(23)),
        Err(NfsError::AlreadyExists)
    );
    assert_eq!(l.get_sub_directories().len(), 2);
}

#[test]
fn upsert_file_replaces_by_name() {
    let mut l = listing();
    assert_eq!(l.upsert_file(file("a", vec![1]), at(30)), Ok(()));
    assert_eq!(l.upsert_file(file("b", vec![2]), at(31)), Ok(()));
    assert_eq!(l.upsert_file(file("a", vec![3]), at(32)), Ok(()));
    assert_eq!(l.get_files().len(), 2);
    assert_eq!(l.get_file_index(&"a".to_string()), Some(0));
    assert_eq!(l.get_file_index(&"b".to_string()), Some(1));
    assert_eq!(l.get_file_index(&"c".to_string()), None);
    assert_eq!(
        l.find_file(&"a".to_string()).unwrap().get_metadata().get_user_metadata(),
        &vec![3u8]
    );
    assert_eq!(l.get_info().get_modified_time(), at(32));
    let before = l.clone();
    assert_eq!(l.upsert_file(file("", vec![]), at(33)), Err(NfsError::NameIsEmpty));
    assert!(l.same(&before));
}

#[test]
fn removing_takes_one_entry_out() {
    let mut l = listing();
    l.upsert_file(file("a", vec![1]), at(30)).unwrap();
    l.upsert_file(file("b", vec![2]), at(31)).unwrap();
    l.upsert_sub_directory(info(1, "x", vec![]), at(32)).unwrap();
    l.upsert_sub_directory(info(2, "y", vec![]), at(33)).unwrap();
    let gone = l.remove_file(0);
    assert_eq!(gone.get_name(), "a");
    assert!(l.find_file(&"a".to_string()).is_none());
    assert_eq!(l.get_files().len(), 1);
    assert_eq!(l.get_files()[0].get_name(), "b");
    let gone = l.remove_sub_directory(1);
    assert_eq!(gone.get_name(), "y");
    assert_eq!(l.get_sub_directories().len(), 1);
    assert!(l.find_sub_directory(&"x".to_string()).is_some());
    assert_eq!(l.get_info().get_modified_time(), at(33));
}

#[test]
fn same_tells_listings_apart() {
    let mut a = listing();
    let mut b = listing();
    assert!(a.same(&b));
    a.upsert_file(file("a", vec![1]), at(30)).unwrap();
    assert!(!a.same(&b));
    b.upsert_file(file("a", vec![1]), at(30)).unwrap();
    assert!(a.same(&b));
    b.upsert_file(file("a", vec![2]), at(30)).unwrap();
    assert!(!a.same(&b));
    assert!(a.clone().same(&a));
    assert!(!info(1, "a", vec![]).same(&info(1, "a", vec![0])));
    assert!(!file("a", vec![]).same(&file("b", vec![])));
    assert!(Timestamp::new(0, 0).same(&Timestamp::new(0, 0)));
    assert!(!at(1).same(&Timestamp::new(1, 1)));
}

#[test]
fn well_formed_means_no_two_entries_of_one_name_or_identifier() {
    let mut l = listing();
    assert!(l.is_well_formed());
    l.upsert_sub_directory(info(1, "x", vec![]), at(20)).unwrap();
    l.upsert_sub_directory(info(2, "y", vec![]), at(21)).unwrap();
    l.upsert_file(file("a", vec![]), at(22)).unwrap();
    l.upsert_file(file("b", vec![]), at(23)).unwrap();
    assert!(l.is_well_formed());
    let mut same_name = l.clone();
    same_name.sub_directories.push(info(3, "x", vec![]));
    assert!(!same_name.is_well_formed());
    let mut same_id = l.clone();
    same_id.sub_directories.push(info(2, "z", vec![]));
    assert!(!same_id.is_well_formed());
    let mut same_file = l.clone();
    same_file.files.push(file("a", vec![9]));
    assert!(!same_file.is_well_formed());
    let mut fine = l.clone();
    fine.sub_directories.push(info(3, "a", vec![]));
    fine.files.push(file("x", vec![]));
    assert!(fine.is_well_formed());
}
