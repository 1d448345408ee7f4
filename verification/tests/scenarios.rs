use std::collections::HashMap;

use maidsafe_nfs::client::{Client, Request, Response, StructuredData};
use maidsafe_nfs::datamap::DataMap;
use maidsafe_nfs::directory_listing::DirectoryListing;
use maidsafe_nfs::errors::{ClientError, NfsError};
use maidsafe_nfs::file::File;
use maidsafe_nfs::helper::file_helper::FileHelper;
use maidsafe_nfs::helper::reader::Reader;
use maidsafe_nfs::helper::writer::Mode;
use maidsafe_nfs::name::NetworkName;
use maidsafe_nfs::timestamp::Timestamp;
use maidsafe_nfs::{
    AccessLevel, CONFIGURATION_DIRECTORY_NAME, ROOT_DIRECTORY_NAME,
    UNVERSIONED_DIRECTORY_LISTING_TAG, VERSIONED_DIRECTORY_LISTING_TAG,
};

/// A network in memory that keeps what it is given.
struct Network {
    records: HashMap<(u64, Vec<u8>), StructuredData>,
    blobs: HashMap<Vec<u8>, Vec<u8>>,
    user_root: Option<Vec<u8>>,
    configuration_root: Option<Vec<u8>>,
    names_given: u64,
    seconds: i64,
    requests: usize,
}

fn content_name(content: &[u8]) -> Vec<u8> {
    let mut a: u64 = 0xcbf2_9ce4_8422_2325;
    let mut b: u64 = 0x8422_2325_cbf2_9ce4;
    for byte in content {
        a = (a ^ (*byte as u64)).wrapping_mul(0x0000_0100_0000_01b3);
        b = (b.rotate_left(7) ^ (*byte as u64)).wrapping_mul(0x9e37_79b9_7f4a_7c15);
    }
    let mut name = a.to_be_bytes().to_vec();
    name.extend_from_slice(&b.to_be_bytes());
    name.extend_from_slice(&(content.len() as u64).to_be_bytes());
    name
}

fn pad(name: &[u8], at: usize) -> u8 {
    let k = name.len().max(1);
    name.get(at % k).copied().unwrap_or(0x5a) ^ (at as u8).wrapping_mul(31) ^ 0xa5
}

impl Network {
    fn new() -> Network {
        Network {
            records: HashMap::new(),
            blobs: HashMap::new(),
            user_root: None,
            configuration_root: None,
            names_given: 0,
            seconds: 1_000,
            requests: 0,
        }
    }

    fn perform(&mut self, request: &Request) -> Response {
        self.requests += 1;
        match request {
            Request::GetRecord { type_tag, id } => {
                match self.records.get(&(*type_tag, id.bytes.clone())) {
                    Some(record) => Response::Record(record.clone()),
                    None => Response::Failed(ClientError::NoSuchData),
                }
            }
            Request::GetBlob { name } => match self.blobs.get(&name.bytes) {
                Some(content) => Response::Blob(content.clone()),
                None => Response::Failed(ClientError::NoSuchData),
            },
            Request::PutBlob { content } => {
                let name = content_name(content);
                self.blobs.insert(name.clone(), content.clone());
                Response::Stored(NetworkName::new(name))
            }
            Request::PutRecord { record } => {
                let key = (record.type_tag, record.id.bytes.clone());
                if self.records.contains_key(&key) {
                    return Response::Failed(ClientError::VersionConflict);
                }
                self.records.insert(key, record.clone());
                Response::Done
            }
            Request::PostRecord { record } => {
                let key = (record.type_tag, record.id.bytes.clone());
                match self.records.get(&key) {
                    None => Response::Failed(ClientError::NoSuchData),
                    Some(old) if old.version + 1 != record.version => {
                        Response::Failed(ClientError::VersionConflict)
                    }
                    Some(_) => {
                        self.records.insert(key, record.clone());
                        Response::Done
                    }
                }
            }
            Request::Seal { nonce, plain } => {
                assert_eq!(nonce.len(), 24);
                let mut sealed = vec![0x53u8];
                for (at, byte) in plain.iter().enumerate() {
                    sealed.push(byte ^ pad(nonce, at));
                }
                Response::Sealed(sealed)
            }
            Request::Open { nonce, sealed } => {
                if sealed.first() != Some(&0x53u8) {
                    return Response::Failed(ClientError::Crypto);
                }
                let mut plain = Vec::new();
                for (at, byte) in sealed[1..].iter().enumerate() {
                    plain.push(byte ^ pad(nonce, at));
                }
                Response::Opened(plain)
            }
            Request::FreshName => {
                self.names_given += 1;
                let mut name = vec![0x4eu8; 56];
                name.extend_from_slice(&self.names_given.to_be_bytes());
                Response::Name(NetworkName::new(name))
            }
            Request::Clock => {
                self.seconds += 1;
                Response::Time(Timestamp::new(self.seconds, 0))
            }
            Request::UserRoot => {
                Response::Root(self.user_root.clone().map(NetworkName::new))
            }
            Request::SetUserRoot { id } => {
                self.user_root = Some(id.bytes.clone());
                Response::Done
            }
            Request::ConfigurationRoot => {
                Response::Root(self.configuration_root.clone().map(NetworkName::new))
            }
            Request::SetConfigurationRoot { id } => {
                self.configuration_root = Some(id.bytes.clone());
                Response::Done
            }
        }
    }
}

/// Runs a scenario against the network: whenever the scenario stops for
/// want of an answer, the pending request is performed once, its answer
/// recorded, and the scenario run again from the start.
fn run<T>(
    network: &mut Network,
    scenario: impl Fn(&mut FileHelper) -> Result<T, NfsError>,
) -> Result<T, NfsError> {
    let mut client = Client::new();
    loop {
        let mut helper = FileHelper::new(client);
        let outcome = scenario(&mut helper);
        client = helper.into_client();
        match outcome {
            Err(e) if e.is_unanswered() => {
                let request = client.get_pending().expect("a pending request").clone();
                let response = network.perform(&request);
                assert!(client.answer(response));
            }
            other => return other,
        }
    }
}

fn name(text: &str) -> String {
    text.to_string()
}

fn create_versioned(network: &mut Network, dir: &str) -> DirectoryListing {
    let dir = name(dir);
    run(network, |h| {
        h.directory_helper.create(
            dir.clone(),
            VERSIONED_DIRECTORY_LISTING_TAG,
            Vec::new(),
            true,
            AccessLevel::Private,
            None,
        )
    })
    .unwrap()
}

fn fetch(network: &mut Network, listing: &DirectoryListing) -> DirectoryListing {
    run(network, |h| {
        h.directory_helper.get(
            listing.get_key(),
            listing.get_metadata().is_versioned(),
            listing.get_metadata().get_access_level(),
        )
    })
    .unwrap()
}

fn write_file(
    network: &mut Network,
    listing: &DirectoryListing,
    file_name: &str,
    data: &[u8],
) -> DirectoryListing {
    run(network, |h| {
        let mut writer = h.create(name(file_name), vec![98u8; 100], listing.clone())?;
        writer.write(&data.to_vec(), 0)?;
        writer.close(&mut h.directory_helper)
    })
    .unwrap()
}

fn read_file(network: &mut Network, file: &File, position: u64, length: u64) -> Result<Vec<u8>, NfsError> {
    run(network, |h| {
        Reader::new(file.clone()).read(&mut h.directory_helper, position, length)
    })
}

#[test]
fn create_dir_listing() {
    let mut network = Network::new();
    let directory = create_versioned(&mut network, "DirName");
    assert_eq!(directory.get_info().get_name(), "DirName");
    assert!(directory.get_metadata().is_versioned());
    assert!(directory.get_metadata().get_parent_dir_key().is_none());

    let fetched = fetch(&mut network, &directory);
    assert!(directory.same(&fetched));

    let child = run(&mut network, |h| {
        let mut parent = directory.clone();
        h.directory_helper.create(
            name("Child"),
            VERSIONED_DIRECTORY_LISTING_TAG,
            Vec::new(),
            true,
            AccessLevel::Private,
            Some(&mut parent),
        )
    })
    .unwrap();
    let parent_key = child.get_metadata().get_parent_dir_key().unwrap();
    assert!(parent_key.0.same(directory.get_key().0));
    assert_eq!(parent_key.1, directory.get_key().1);

    let parent = fetch(&mut network, &directory);
    let entry = parent.find_sub_directory(&name("Child")).expect("the child is entered");
    assert!(entry.same(child.get_info()));
    assert!(fetch(&mut network, &child).same(&child));
}

#[test]
fn create_updates_the_parent_in_place() {
    let mut network = Network::new();
    let mut parent = create_versioned(&mut network, "Parent");
    // The parent that the last run worked on is the one that is kept.
    let child = {
        let mut client = Client::new();
        loop {
            let mut helper = FileHelper::new(client);
            let mut copy = parent.clone();
            let outcome = helper.directory_helper.create(
                name("Child"),
                VERSIONED_DIRECTORY_LISTING_TAG,
                vec![1, 2, 3],
                true,
                AccessLevel::Public,
                Some(&mut copy),
            );
            client = helper.into_client();
            match outcome {
                Err(e) if e.is_unanswered() => {
                    let request = client.get_pending().unwrap().clone();
                    let response = network.perform(&request);
                    client.answer(response);
                }
                Ok(child) => {
                    parent = copy;
                    break child;
                }
                Err(e) => panic!("{}", e.describe()),
            }
        }
    };
    assert_eq!(parent.get_sub_directories().len(), 1);
    assert!(parent.get_sub_directories()[0].same(child.get_info()));
    assert_eq!(child.get_info().get_user_metadata(), &vec![1u8, 2, 3]);
    assert_eq!(child.get_info().get_access_level(), AccessLevel::Public);
}

#[test]
fn create_refuses_an_empty_name_before_asking_anything() {
    let mut network = Network::new();
    let outcome = run(&mut network, |h| {
        h.directory_helper.create(
            String::new(),
            VERSIONED_DIRECTORY_LISTING_TAG,
            Vec::new(),
            true,
            AccessLevel::Private,
            None,
        )
    });
    assert_eq!(outcome.err(), Some(NfsError::NameIsEmpty));
    assert_eq!(network.requests, 0);
}

#[test]
fn create_refuses_a_name_the_parent_holds() {
    let mut network = Network::new();
    let directory = create_versioned(&mut network, "DirName");
    let make_child = |h: &mut FileHelper, parent: &DirectoryListing| {
        let mut parent = parent.clone();
        h.directory_helper.create(
            name("Child"),
            VERSIONED_DIRECTORY_LISTING_TAG,
            Vec::new(),
            true,
            AccessLevel::Private,
            Some(&mut parent),
        )
    };
    run(&mut network, |h| make_child(h, &directory)).unwrap();
    let parent = fetch(&mut network, &directory);
    let before = network.requests;
    let again = run(&mut network, |h| make_child(h, &parent));
    assert_eq!(again.err(), Some(NfsError::AlreadyExists));
    assert_eq!(network.requests, before);
}

#[test]
fn user_root_configuration() {
    let mut network = Network::new();
    let root = run(&mut network, |h| h.directory_helper.get_user_root_directory_listing()).unwrap();
    assert_eq!(root.get_info().get_name(), ROOT_DIRECTORY_NAME);
    assert!(!root.get_metadata().is_versioned());
    assert_eq!(root.get_metadata().get_access_level(), AccessLevel::Private);
    assert!(root.get_metadata().get_parent_dir_key().is_none());
    assert_eq!(root.get_key().1, UNVERSIONED_DIRECTORY_LISTING_TAG);
    assert_eq!(network.user_root, Some(root.get_key().0.bytes.clone()));

    let again = run(&mut network, |h| h.directory_helper.get_user_root_directory_listing()).unwrap();
    assert!(again.get_key().0.same(root.get_key().0));
    assert!(again.same(&root));

    run(&mut network, |h| {
        let mut parent = again.clone();
        h.directory_helper.create(
            name("DirName"),
            VERSIONED_DIRECTORY_LISTING_TAG,
            Vec::new(),
            true,
            AccessLevel::Private,
            Some(&mut parent),
        )
    })
    .unwrap();
    let root = run(&mut network, |h| h.directory_helper.get_user_root_directory_listing()).unwrap();
    assert!(root.find_sub_directory(&name("DirName")).is_some());
}

#[test]
fn configuration_directory() {
    let mut network = Network::new();
    let config_dir = run(&mut network, |h| {
        h.directory_helper.get_configuration_directory_listing(name("DNS"))
    })
    .unwrap();
    assert_eq!(config_dir.get_info().get_name(), "DNS");
    let id = config_dir.get_info().get_key().0.clone();

    let root_id = NetworkName::new(network.configuration_root.clone().unwrap());
    let root = run(&mut network, |h| {
        h.directory_helper.get(
            (&root_id, UNVERSIONED_DIRECTORY_LISTING_TAG),
            false,
            AccessLevel::Private,
        )
    })
    .unwrap();
    assert_eq!(root.get_info().get_name(), CONFIGURATION_DIRECTORY_NAME);
    assert!(root.find_sub_directory(&name("DNS")).unwrap().get_id().same(&id));
    let parent_key = config_dir.get_metadata().get_parent_dir_key().unwrap();
    assert!(parent_key.0.same(&root_id));

    let again = run(&mut network, |h| {
        h.directory_helper.get_configuration_directory_listing(name("DNS"))
    })
    .unwrap();
    assert!(again.get_info().get_key().0.same(&id));
}

#[test]
fn update_and_versioning() {
    let mut network = Network::new();
    let mut dir_listing = create_versioned(&mut network, "DirName2");
    let versions = run(&mut network, |h| h.directory_helper.get_versions(dir_listing.get_key())).unwrap();
    assert_eq!(versions.len(), 1);

    dir_listing.info.set_name(name("NewName"));
    let updated = run(&mut network, |h| h.directory_helper.update(&dir_listing)).unwrap();
    assert!(updated.same(&dir_listing));

    let versions = run(&mut network, |h| h.directory_helper.get_versions(dir_listing.get_key())).unwrap();
    assert_eq!(versions.len(), 2);

    let latest = run(&mut network, |h| {
        h.directory_helper.get_by_version(
            dir_listing.get_key(),
            dir_listing.get_metadata().get_access_level(),
            versions.last().unwrap(),
        )
    })
    .unwrap();
    assert!(latest.same(&dir_listing));
    assert_eq!(latest.get_metadata().get_name(), "NewName");

    let first = run(&mut network, |h| {
        h.directory_helper.get_by_version(
            dir_listing.get_key(),
            dir_listing.get_metadata().get_access_level(),
            &versions[0],
        )
    })
    .unwrap();
    assert_eq!(first.get_metadata().get_name(), "DirName2");
}

#[test]
fn each_update_adds_one_version_and_old_versions_stay() {
    let mut network = Network::new();
    let mut listing = create_versioned(&mut network, "History");
    let mut seen: Vec<DirectoryListing> = vec![listing.clone()];
    for round in 0..4u8 {
        listing.info.set_user_metadata(vec![round; 3]);
        let before = run(&mut network, |h| h.directory_helper.get_versions(listing.get_key())).unwrap();
        run(&mut network, |h| h.directory_helper.update(&listing)).unwrap();
        let after = run(&mut network, |h| h.directory_helper.get_versions(listing.get_key())).unwrap();
        assert_eq!(after.len(), before.len() + 1);
        for (old, new) in before.iter().zip(after.iter()) {
            assert!(old.same(new));
        }
        seen.push(listing.clone());
        for (version, expected) in after.iter().zip(seen.iter()) {
            let stored = run(&mut network, |h| {
                h.directory_helper.get_by_version(listing.get_key(), AccessLevel::Private, version)
            })
            .unwrap();
            assert!(stored.same(expected));
        }
    }
}

#[test]
fn unversioned_update_replaces_in_place() {
    let mut network = Network::new();
    let mut listing = run(&mut network, |h| {
        h.directory_helper.create(
            name("Plain"),
            UNVERSIONED_DIRECTORY_LISTING_TAG,
            vec![9],
            false,
            AccessLevel::Public,
            None,
        )
    })
    .unwrap();
    let key = (UNVERSIONED_DIRECTORY_LISTING_TAG, listing.get_key().0.bytes.clone());
    assert_eq!(network.records[&key].version, 0);
    listing.info.set_name(name("Plainer"));
    let stored = run(&mut network, |h| h.directory_helper.update(&listing)).unwrap();
    assert_eq!(stored.get_info().get_name(), "Plainer");
    assert_eq!(network.records[&key].version, 1);
    assert!(network.blobs.is_empty());
    let outcome = run(&mut network, |h| h.directory_helper.get_versions(listing.get_key()));
    assert_eq!(outcome.err(), Some(NfsError::InvalidOperation));
}

#[test]
fn update_directory_listing_and_parent_returns_the_parent() {
    let mut network = Network::new();
    let root = create_versioned(&mut network, "Root");
    let mut child = run(&mut network, |h| {
        let mut parent = root.clone();
        h.directory_helper.create(
            name("Child"),
            VERSIONED_DIRECTORY_LISTING_TAG,
            Vec::new(),
            true,
            AccessLevel::Private,
            Some(&mut parent),
        )
    })
    .unwrap();
    assert!(run(&mut network, |h| h.directory_helper.update_directory_listing_and_parent(&root))
        .unwrap()
        .is_none());
    child.info.set_user_metadata(vec![4, 5]);
    let parent = run(&mut network, |h| {
        h.directory_helper.update_directory_listing_and_parent(&child)
    })
    .unwrap()
    .expect("the child has a parent");
    assert!(parent.get_key().0.same(root.get_key().0));
    let entry = parent.find_sub_directory(&name("Child")).unwrap();
    assert_eq!(entry.get_user_metadata(), &vec![4u8, 5]);
}

#[test]
fn delete_directory() {
    let mut network = Network::new();
    let root = create_versioned(&mut network, "Root");
    let child = run(&mut network, |h| {
        let mut parent = root.clone();
        h.directory_helper.create(
            name("Child"),
            VERSIONED_DIRECTORY_LISTING_TAG,
            Vec::new(),
            true,
            AccessLevel::Private,
            Some(&mut parent),
        )
    })
    .unwrap();
    let parent = fetch(&mut network, &root);
    let missing = run(&mut network, |h| {
        let mut parent = parent.clone();
        h.directory_helper.delete(&mut parent, &name("Other"))
    });
    assert_eq!(missing.err(), Some(NfsError::DirectoryNotFound));
    run(&mut network, |h| {
        let mut parent = parent.clone();
        h.directory_helper.delete(&mut parent, &name("Child"))
    })
    .unwrap();
    let parent = fetch(&mut network, &root);
    assert!(parent.find_sub_directory(&name("Child")).is_none());
    // The child's own record stays.
    assert!(fetch(&mut network, &child).same(&child));
}

#[test]
fn create_read_update() {
    let mut network = Network::new();
    let created = create_versioned(&mut network, "DirName");
    let data = vec![12u8; 20];
    let dir_listing = write_file(&mut network, &created, "Name", &data);
    assert!(fetch(&mut network, &created).same(&dir_listing));
    assert_eq!(dir_listing.get_files().len(), 1);
    let file = dir_listing.get_files()[0].clone();
    assert_eq!(file.get_name(), "Name");
    assert_eq!(file.get_metadata().get_size(), 20);
    assert_eq!(file.get_metadata().get_user_metadata(), &vec![98u8; 100]);
    assert_eq!(read_file(&mut network, &file, 0, 20).unwrap(), data);

    let data = vec![11u8; 90];
    let dir_listing = run(&mut network, |h| {
        let mut writer = h.update(file.clone(), Mode::Overwrite, dir_listing.clone())?;
        writer.write(&data, 0)?;
        writer.close(&mut h.directory_helper)
    })
    .unwrap();
    assert_eq!(dir_listing.get_files().len(), 1);
    let file = dir_listing.get_files()[0].clone();
    assert_eq!(file.get_metadata().get_size(), 90);
    assert_eq!(read_file(&mut network, &file, 0, 90).unwrap(), data);

    let versions = run(&mut network, |h| h.get_versions(&file, &dir_listing)).unwrap();
    assert_eq!(versions.len(), 2);
    assert_eq!(versions[0].get_metadata().get_size(), 20);
    assert_eq!(versions[1].get_metadata().get_size(), 90);
    assert_eq!(read_file(&mut network, &versions[0], 0, 20).unwrap(), vec![12u8; 20]);
}

#[test]
fn content_is_stored_encrypted_in_chunks() {
    let mut network = Network::new();
    let created = create_versioned(&mut network, "DirName");
    let data: Vec<u8> = (0..5000u32).map(|i| (i % 251) as u8).collect();
    let listing = write_file(&mut network, &created, "Big", &data);
    let file = listing.find_file(&name("Big")).unwrap().clone();
    match file.get_datamap() {
        DataMap::Chunks(map) => {
            assert_eq!(map.keys.len(), 3);
            assert!(map.stored.len() >= 3);
            for stored in &map.stored {
                let chunk = &network.blobs[&stored.bytes];
                assert!(!chunk.is_empty());
                assert_ne!(chunk, &data);
            }
            let total: u64 = map.keys.iter().map(|k| k.source_size).sum();
            assert_eq!(total, 5000);
        }
        _ => panic!("a content of this size is chunked"),
    }
    assert_eq!(read_file(&mut network, &file, 0, 5000).unwrap(), data);
    assert_eq!(read_file(&mut network, &file, 4990, 10).unwrap(), data[4990..].to_vec());
    assert_eq!(read_file(&mut network, &file, 17, 5).unwrap(), data[17..22].to_vec());
}

#[test]
fn small_and_empty_contents() {
    let mut network = Network::new();
    let created = create_versioned(&mut network, "DirName");
    let listing = write_file(&mut network, &created, "Empty", &[]);
    let empty = listing.find_file(&name("Empty")).unwrap().clone();
    assert!(matches!(empty.get_datamap(), DataMap::Empty));
    assert_eq!(empty.get_metadata().get_size(), 0);
    assert_eq!(read_file(&mut network, &empty, 0, 0).unwrap(), Vec::<u8>::new());
    assert_eq!(
        read_file(&mut network, &empty, 0, 1).err(),
        Some(NfsError::InvalidRangeSpecified)
    );
    assert_eq!(
        read_file(&mut network, &empty, 1, 0).err(),
        Some(NfsError::InvalidRangeSpecified)
    );

    let listing = write_file(&mut network, &listing, "Tiny", &[7, 8]);
    let tiny = listing.find_file(&name("Tiny")).unwrap().clone();
    match tiny.get_datamap() {
        DataMap::Content(inline) => assert_eq!(inline, &vec![7u8, 8]),
        _ => panic!("two bytes are kept inline"),
    }
    assert_eq!(read_file(&mut network, &tiny, 0, 2).unwrap(), vec![7, 8]);
    assert_eq!(read_file(&mut network, &tiny, 1, 1).unwrap(), vec![8]);
}

#[test]
fn read_refuses_a_range_past_the_end() {
    let mut network = Network::new();
    let created = create_versioned(&mut network, "DirName");
    let listing = write_file(&mut network, &created, "Name", &[12u8; 20]);
    let file = listing.get_files()[0].clone();
    let before = network.requests;
    for (position, length) in [(0u64, 21u64), (20, 1), (21, 0), (5, 16), (u64::MAX, 1), (1, u64::MAX)] {
        assert_eq!(
            read_file(&mut network, &file, position, length).err(),
            Some(NfsError::InvalidRangeSpecified)
        );
    }
    assert_eq!(network.requests, before);
    assert_eq!(read_file(&mut network, &file, 20, 0).unwrap(), Vec::<u8>::new());
    assert_eq!(read_file(&mut network, &file, 5, 15).unwrap(), vec![12u8; 15]);
}

#[test]
fn modify_starts_from_the_stored_content() {
    let mut network = Network::new();
    let created = create_versioned(&mut network, "DirName");
    let listing = write_file(&mut network, &created, "Name", &[1u8; 10]);
    let file = listing.get_files()[0].clone();
    let listing = run(&mut network, |h| {
        let mut writer = h.update(file.clone(), Mode::Modify, listing.clone())?;
        writer.write(&vec![2u8; 4], 8)?;
        writer.write(&vec![3u8; 2], 14)?;
        writer.close(&mut h.directory_helper)
    })
    .unwrap();
    let file = listing.get_files()[0].clone();
    let mut expected = vec![1u8; 8];
    expected.extend_from_slice(&[2, 2, 2, 2, 0, 0, 3, 3]);
    assert_eq!(file.get_metadata().get_size(), 16);
    assert_eq!(read_file(&mut network, &file, 0, 16).unwrap(), expected);
}

#[test]
fn file_create_update_read_need_the_file_in_the_listing() {
    let mut network = Network::new();
    let created = create_versioned(&mut network, "DirName");
    let listing = write_file(&mut network, &created, "Name", &[12u8; 20]);
    let file = listing.get_files()[0].clone();
    let twice = run(&mut network, |h| h.create(name("Name"), Vec::new(), listing.clone()).map(|_| ()));
    assert_eq!(twice.err(), Some(NfsError::AlreadyExists));
    let elsewhere = run(&mut network, |h| {
        h.update(file.clone(), Mode::Overwrite, created.clone()).map(|_| ())
    });
    assert_eq!(elsewhere.err(), Some(NfsError::FileNotFound));
    let helper = FileHelper::new(Client::new());
    assert_eq!(helper.read(file.clone(), &created).err(), Some(NfsError::FileNotFound));
    assert!(helper.read(file.clone(), &listing).unwrap().file.same(&file));
    let stale = run(&mut network, |h| h.update_metadata(file.clone(), vec![1], &created));
    assert_eq!(stale.err(), Some(NfsError::FileNotFound));
}

#[test]
fn update_metadata_changes_only_the_user_metadata_and_the_time() {
    let mut network = Network::new();
    let created = create_versioned(&mut network, "DirName");
    let listing = write_file(&mut network, &created, "Name", &[12u8; 20]);
    let file = listing.get_files()[0].clone();
    let stored = run(&mut network, |h| h.update_metadata(file.clone(), vec![5, 6, 7], &listing)).unwrap();
    assert_eq!(stored.get_files().len(), 1);
    let changed = stored.find_file(&name("Name")).unwrap();
    assert_eq!(changed.get_metadata().get_user_metadata(), &vec![5u8, 6, 7]);
    assert!(changed.get_datamap().same(file.get_datamap()));
    assert_eq!(changed.get_metadata().get_size(), 20);
    assert_eq!(changed.get_metadata().get_created_time(), file.get_metadata().get_created_time());
    assert_ne!(changed.get_metadata().get_modified_time(), file.get_metadata().get_modified_time());
    assert!(fetch(&mut network, &created).same(&stored));
    assert_eq!(read_file(&mut network, changed, 0, 20).unwrap(), vec![12u8; 20]);
}

#[test]
fn delete_file() {
    let mut network = Network::new();
    let created = create_versioned(&mut network, "DirName");
    let listing = write_file(&mut network, &created, "Name", &[12u8; 20]);
    let left = run(&mut network, |h| {
        let mut listing = listing.clone();
        h.delete(name("Name"), &mut listing)?;
        Ok(listing)
    })
    .unwrap();
    assert!(left.find_file(&name("Name")).is_none());
    assert!(fetch(&mut network, &created).find_file(&name("Name")).is_none());
    let again = run(&mut network, |h| {
        let mut listing = left.clone();
        h.delete(name("Name"), &mut listing)
    });
    assert_eq!(again.err(), Some(NfsError::FileNotFound));
}

#[test]
fn failures_of_the_network_are_passed_on() {
    let id = NetworkName::new(vec![1, 2, 3]);
    let ask = |response: Response| {
        let mut helper = FileHelper::new(Client::new());
        let first = helper
            .directory_helper
            .get((&id, UNVERSIONED_DIRECTORY_LISTING_TAG), false, AccessLevel::Public);
        assert!(first.err().unwrap().is_unanswered());
        let mut client = helper.into_client();
        assert!(matches!(
            client.get_pending(),
            Some(Request::GetRecord { type_tag: UNVERSIONED_DIRECTORY_LISTING_TAG, .. })
        ));
        assert!(client.answer(response));
        assert!(client.get_pending().is_none());
        let mut helper = FileHelper::new(client);
        helper
            .directory_helper
            .get((&id, UNVERSIONED_DIRECTORY_LISTING_TAG), false, AccessLevel::Public)
            .err()
    };
    assert_eq!(
        ask(Response::Failed(ClientError::Network)),
        Some(NfsError::ClientError(ClientError::Network))
    );
    assert_eq!(ask(Response::Failed(ClientError::NoSuchData)), Some(NfsError::NotFound));
    assert_eq!(
        ask(Response::Blob(vec![1])),
        Some(NfsError::ClientError(ClientError::ReceivedUnexpectedData))
    );
    let other = StructuredData::new(UNVERSIONED_DIRECTORY_LISTING_TAG, NetworkName::new(vec![9]), 0, vec![]);
    assert_eq!(
        ask(Response::Record(other)),
        Some(NfsError::ClientError(ClientError::ReceivedUnexpectedData))
    );
    let garbage = StructuredData::new(UNVERSIONED_DIRECTORY_LISTING_TAG, id.clone(), 0, vec![1, 2, 3]);
    assert_eq!(ask(Response::Record(garbage)), Some(NfsError::MetaDataMissingOrCorrupted));
}

#[test]
fn a_stale_version_counter_is_a_failed_update() {
    let mut network = Network::new();
    let mut listing = create_versioned(&mut network, "DirName");
    listing.info.set_name(name("Other"));
    let mut client = Client::new();
    let outcome = loop {
        let mut helper = FileHelper::new(client);
        let outcome = helper.directory_helper.update(&listing);
        client = helper.into_client();
        match outcome {
            Err(e) if e.is_unanswered() => {
                let request = client.get_pending().unwrap().clone();
                let response = match request {
                    Request::PostRecord { .. } => Response::Failed(ClientError::VersionConflict),
                    other => network.perform(&other),
                };
                client.answer(response);
            }
            other => break other,
        }
    };
    assert_eq!(outcome.err(), Some(NfsError::FailedToUpdateDirectory));
}

#[test]
fn a_missing_version_is_not_found() {
    let mut network = Network::new();
    let listing = create_versioned(&mut network, "DirName");
    let nowhere = NetworkName::new(vec![0u8; 24]);
    let outcome = run(&mut network, |h| {
        h.directory_helper.get_by_version(listing.get_key(), AccessLevel::Private, &nowhere)
    });
    assert_eq!(outcome.err(), Some(NfsError::NotFound));
}

#[test]
fn a_transcript_for_another_request_is_refused() {
    let mut helper = FileHelper::new(Client::new());
    let a = NetworkName::new(vec![1]);
    let b = NetworkName::new(vec![2]);
    assert!(helper.directory_helper.get_immutable_data(&a).err().unwrap().is_unanswered());
    let mut client = helper.into_client();
    client.answer(Response::Blob(vec![7]));
    let mut helper = FileHelper::new(client);
    assert_eq!(
        helper.directory_helper.get_immutable_data(&b).err(),
        Some(NfsError::ClientError(ClientError::Diverged))
    );
    assert_eq!(helper.directory_helper.get_immutable_data(&a).unwrap(), vec![7]);
    let mut client = helper.into_client();
    client.begin();
    assert!(client.transcript.is_empty());
    assert!(!client.answer(Response::Done));
}

#[test]
fn the_client_reads_the_clock_itself() {
    let mut helper = FileHelper::new(Client::new());
    assert!(helper.directory_helper.clock().err().unwrap().is_unanswered());
    let mut client = helper.into_client();
    assert!(client.serve());
    assert!(!client.serve());
    let mut helper = FileHelper::new(client);
    let now = helper.directory_helper.clock().unwrap();
    assert!(now.sec > 1_600_000_000);
    assert!(now.nsec >= 0 && now.nsec < 1_000_000_000);
    let mut other = Client::new();
    other.pending = Some(Request::FreshName);
    assert!(!other.serve());
    assert!(matches!(other.get_pending(), Some(Request::FreshName)));
}

/// Runs a scenario with answers that `answer` gives in place of the
/// network's where it gives any.
fn run_with<T>(
    network: &mut Network,
    answer: impl Fn(&Request) -> Option<Response>,
    scenario: impl Fn(&mut FileHelper) -> Result<T, NfsError>,
) -> Result<T, NfsError> {
    let mut client = Client::new();
    loop {
        let mut helper = FileHelper::new(client);
        let outcome = scenario(&mut helper);
        client = helper.into_client();
        match outcome {
            Err(e) if e.is_unanswered() => {
                let request = client.get_pending().unwrap().clone();
                let response = match answer(&request) {
                    Some(response) => response,
                    None => network.perform(&request),
                };
                client.answer(response);
            }
            other => return other,
        }
    }
}

#[test]
fn a_version_counter_at_its_end_is_a_failed_update() {
    let mut network = Network::new();
    let listing = create_versioned(&mut network, "DirName");
    let worn = StructuredData::new(
        VERSIONED_DIRECTORY_LISTING_TAG,
        listing.get_key().0.clone(),
        u64::MAX,
        vec![0u8; 8],
    );
    let before = network.requests;
    let outcome = run_with(
        &mut network,
        |request| match request {
            Request::GetRecord { .. } => Some(Response::Record(worn.clone())),
            _ => None,
        },
        |h| h.directory_helper.update(&listing),
    );
    assert_eq!(outcome.err(), Some(NfsError::FailedToUpdateDirectory));
    assert_eq!(network.requests, before);
}

#[test]
fn a_record_without_versions_is_not_found() {
    let mut network = Network::new();
    let listing = create_versioned(&mut network, "DirName");
    let bare = StructuredData::new(
        VERSIONED_DIRECTORY_LISTING_TAG,
        listing.get_key().0.clone(),
        3,
        vec![0u8; 8],
    );
    let outcome = run_with(
        &mut network,
        |request| match request {
            Request::GetRecord { .. } => Some(Response::Record(bare.clone())),
            _ => None,
        },
        |h| h.directory_helper.get(listing.get_key(), true, AccessLevel::Private),
    );
    assert_eq!(outcome.err(), Some(NfsError::NotFound));
    let versions = run_with(
        &mut network,
        |request| match request {
            Request::GetRecord { .. } => Some(Response::Record(bare.clone())),
            _ => None,
        },
        |h| h.directory_helper.get_versions(listing.get_key()),
    );
    assert!(versions.unwrap().is_empty());
}

#[test]
fn a_payload_that_cannot_be_opened_fails_as_the_client_says() {
    let mut network = Network::new();
    let listing = create_versioned(&mut network, "DirName");
    let outcome = run_with(
        &mut network,
        |request| match request {
            Request::Open { .. } => Some(Response::Failed(ClientError::Crypto)),
            _ => None,
        },
        |h| h.directory_helper.get(listing.get_key(), true, AccessLevel::Private),
    );
    assert_eq!(outcome.err(), Some(NfsError::ClientError(ClientError::Crypto)));
    let public = run(&mut network, |h| {
        h.directory_helper.get(listing.get_key(), true, AccessLevel::Public)
    });
    assert_eq!(public.err(), Some(NfsError::MetaDataMissingOrCorrupted));
}

#[test]
fn a_public_listing_is_stored_in_the_clear() {
    let mut network = Network::new();
    let listing = run(&mut network, |h| {
        h.directory_helper.create(
            name("Open"),
            UNVERSIONED_DIRECTORY_LISTING_TAG,
            Vec::new(),
            false,
            AccessLevel::Public,
            None,
        )
    })
    .unwrap();
    let key = (UNVERSIONED_DIRECTORY_LISTING_TAG, listing.get_key().0.bytes.clone());
    let payload = network.records[&key].payload.clone();
    assert_eq!(payload, maidsafe_nfs::codec::encode_listing(&listing));
    let private = run(&mut network, |h| {
        h.directory_helper.create(
            name("Shut"),
            UNVERSIONED_DIRECTORY_LISTING_TAG,
            Vec::new(),
            false,
            AccessLevel::Private,
            None,
        )
    })
    .unwrap();
    let key = (UNVERSIONED_DIRECTORY_LISTING_TAG, private.get_key().0.bytes.clone());
    assert_ne!(network.records[&key].payload, maidsafe_nfs::codec::encode_listing(&private));
    assert!(fetch(&mut network, &private).same(&private));
    assert!(fetch(&mut network, &listing).same(&listing));
}

#[test]
fn get_versions_of_a_file_skips_versions_without_a_change() {
    let mut network = Network::new();
    let created = create_versioned(&mut network, "DirName");
    let listing = write_file(&mut network, &created, "Name", &[1u8; 5]);
    let file = listing.get_files()[0].clone();
    // Two updates of the listing that leave the file as it is.
    let mut renamed = listing.clone();
    renamed.info.set_user_metadata(vec![1]);
    run(&mut network, |h| h.directory_helper.update(&renamed)).unwrap();
    renamed.info.set_user_metadata(vec![2]);
    let listing = run(&mut network, |h| h.directory_helper.update(&renamed)).unwrap();
    let listing = write_file_again(&mut network, &listing, &file, &[2u8; 6]);
    let versions = run(&mut network, |h| h.directory_helper.get_versions(listing.get_key())).unwrap();
    assert_eq!(versions.len(), 5);
    let states = run(&mut network, |h| h.get_versions(&file, &listing)).unwrap();
    assert_eq!(states.len(), 2);
    assert_eq!(states[0].get_metadata().get_size(), 5);
    assert_eq!(states[1].get_metadata().get_size(), 6);
    let other = File::new(
        maidsafe_nfs::metadata::FileMetadata::new(name("Other"), Vec::new(), Timestamp::new(1, 1)),
        DataMap::Empty,
    );
    assert!(run(&mut network, |h| h.get_versions(&other, &listing)).unwrap().is_empty());
}

fn write_file_again(
    network: &mut Network,
    listing: &DirectoryListing,
    file: &File,
    data: &[u8],
) -> DirectoryListing {
    run(network, |h| {
        let mut writer = h.update(file.clone(), Mode::Overwrite, listing.clone())?;
        writer.write(&data.to_vec(), 0)?;
        writer.close(&mut h.directory_helper)
    })
    .unwrap()
}

#[test]
fn the_history_of_a_file_begins_with_its_first_state_whatever_its_time() {
    let mut network = Network::new();
    let created = create_versioned(&mut network, "DirName");
    // The next reading of the clock is second 0 of 1970.
    network.seconds = -2;
    let listing = write_file(&mut network, &created, "Name", &[3u8; 7]);
    let file = listing.get_files()[0].clone();
    assert_eq!(file.get_metadata().get_modified_time(), Timestamp::new(0, 0));
    let states = run(&mut network, |h| h.get_versions(&file, &listing)).unwrap();
    assert_eq!(states.len(), 1);
    assert!(states[0].same(&file));
    let listing = write_file_again(&mut network, &listing, &file, &[4u8; 9]);
    let states = run(&mut network, |h| h.get_versions(&file, &listing)).unwrap();
    assert_eq!(states.len(), 2);
    assert_eq!(states[0].get_metadata().get_modified_time(), Timestamp::new(0, 0));
    assert_eq!(states[1].get_metadata().get_size(), 9);
}

#[test]
fn a_versioned_directory_under_the_unversioned_root_takes_a_child() {
    let mut network = Network::new();
    let root = run(&mut network, |h| h.directory_helper.get_user_root_directory_listing()).unwrap();
    let middle = run(&mut network, |h| {
        let mut parent = root.clone();
        h.directory_helper.create(
            name("Middle"),
            VERSIONED_DIRECTORY_LISTING_TAG,
            Vec::new(),
            true,
            AccessLevel::Private,
            Some(&mut parent),
        )
    })
    .unwrap();
    let child = run(&mut network, |h| {
        let mut parent = middle.clone();
        h.directory_helper.create(
            name("Leaf"),
            VERSIONED_DIRECTORY_LISTING_TAG,
            Vec::new(),
            true,
            AccessLevel::Private,
            Some(&mut parent),
        )
    })
    .unwrap();
    let middle = fetch(&mut network, &middle);
    assert!(middle.find_sub_directory(&name("Leaf")).unwrap().same(child.get_info()));
    let root = run(&mut network, |h| h.directory_helper.get_user_root_directory_listing()).unwrap();
    let entry = root.find_sub_directory(&name("Middle")).unwrap();
    assert!(entry.same(middle.get_info()));
    assert_eq!(root.get_sub_directories().len(), 1);
}

#[test]
fn entering_a_listing_in_its_parent_twice_leaves_it_once() {
    let mut network = Network::new();
    let root = create_versioned(&mut network, "Root");
    run(&mut network, |h| {
        let mut parent = root.clone();
        h.directory_helper.create(
            name("Other"),
            VERSIONED_DIRECTORY_LISTING_TAG,
            Vec::new(),
            true,
            AccessLevel::Private,
            Some(&mut parent),
        )
    })
    .unwrap();
    let root = fetch(&mut network, &root);
    let mut child = run(&mut network, |h| {
        let mut parent = root.clone();
        h.directory_helper.create(
            name("Child"),
            VERSIONED_DIRECTORY_LISTING_TAG,
            Vec::new(),
            true,
            AccessLevel::Private,
            Some(&mut parent),
        )
    })
    .unwrap();
    for round in 0..3u8 {
        child.info.set_user_metadata(vec![round]);
        let parent = run(&mut network, |h| {
            h.directory_helper.update_directory_listing_and_parent(&child)
        })
        .unwrap()
        .unwrap();
        let entries = parent.get_sub_directories();
        assert_eq!(entries.len(), 2);
        assert_eq!(entries[0].get_name(), "Other");
        assert_eq!(entries.iter().filter(|d| d.get_name() == "Child").count(), 1);
        assert_eq!(entries.iter().filter(|d| d.get_id().same(child.get_key().0)).count(), 1);
        assert_eq!(entries[1].get_user_metadata(), &vec![round]);
        assert!(parent.is_well_formed());
    }
}

#[test]
fn get_hands_out_what_lies_under_the_key() {
    let mut network = Network::new();
    let first = create_versioned(&mut network, "First");
    let second = create_versioned(&mut network, "Second");
    // The network hands out the second listing's versions under the first key.
    let first_key = (VERSIONED_DIRECTORY_LISTING_TAG, first.get_key().0.bytes.clone());
    let second_key = (VERSIONED_DIRECTORY_LISTING_TAG, second.get_key().0.bytes.clone());
    let mut swapped = network.records[&second_key].clone();
    swapped.id = first.get_key().0.clone();
    network.records.insert(first_key, swapped);
    let versions = run(&mut network, |h| h.directory_helper.get_versions(first.get_key())).unwrap();
    // Sealed under the second name, it opens under that name alone.
    let newest = run(&mut network, |h| {
        h.directory_helper.get_by_version(second.get_key(), AccessLevel::Private, &versions[0])
    })
    .unwrap();
    assert!(newest.same(&second));
    let under_first = run(&mut network, |h| {
        h.directory_helper.get(first.get_key(), true, AccessLevel::Private)
    });
    let by_version = run(&mut network, |h| {
        h.directory_helper.get_by_version(first.get_key(), AccessLevel::Private, &versions[0])
    });
    assert_eq!(under_first.is_ok(), by_version.is_ok());
    assert_eq!(under_first.err(), by_version.err());
}

#[test]
fn get_is_the_fetch_of_the_newest_version() {
    let mut network = Network::new();
    let mut listing = run(&mut network, |h| {
        h.directory_helper.create(
            name("Open"),
            VERSIONED_DIRECTORY_LISTING_TAG,
            Vec::new(),
            true,
            AccessLevel::Public,
            None,
        )
    })
    .unwrap();
    listing.info.set_user_metadata(vec![1]);
    run(&mut network, |h| h.directory_helper.update(&listing)).unwrap();
    // A stored version that carries another key and two files of one name.
    let mut odd = create_versioned(&mut network, "Odd");
    let twin = File::new(
        maidsafe_nfs::metadata::FileMetadata::new(name("twin"), Vec::new(), Timestamp::new(1, 1)),
        DataMap::Empty,
    );
    odd.files.push(twin.clone());
    odd.files.push(twin);
    let bytes = maidsafe_nfs::codec::encode_listing(&odd);
    let answer = |request: &Request| match request {
        Request::GetBlob { .. } => Some(Response::Blob(bytes.clone())),
        _ => None,
    };
    let versions = run(&mut network, |h| h.directory_helper.get_versions(listing.get_key())).unwrap();
    assert_eq!(versions.len(), 2);
    let newest = run_with(&mut network, answer, |h| {
        h.directory_helper.get_by_version(listing.get_key(), AccessLevel::Public, &versions[1])
    })
    .unwrap();
    let got = run_with(&mut network, answer, |h| {
        h.directory_helper.get(listing.get_key(), true, AccessLevel::Public)
    })
    .unwrap();
    assert!(got.same(&newest));
    assert!(got.same(&odd));
    assert!(!got.is_well_formed());
}

#[test]
fn a_parent_that_is_not_what_its_key_says_takes_no_child() {
    let mut network = Network::new();
    let other = run(&mut network, |h| {
        h.directory_helper.create(
            name("Other"),
            VERSIONED_DIRECTORY_LISTING_TAG,
            Vec::new(),
            true,
            AccessLevel::Public,
            None,
        )
    })
    .unwrap();
    let mut orphan = run(&mut network, |h| {
        h.directory_helper.create(
            name("Orphan"),
            VERSIONED_DIRECTORY_LISTING_TAG,
            Vec::new(),
            true,
            AccessLevel::Public,
            None,
        )
    })
    .unwrap();
    // The orphan names a parent key under which the other listing's bytes lie.
    let claimed = NetworkName::new(vec![0x77; 64]);
    orphan.info.parent_dir_key = Some((claimed.clone(), VERSIONED_DIRECTORY_LISTING_TAG));
    let other_key = (VERSIONED_DIRECTORY_LISTING_TAG, other.get_key().0.bytes.clone());
    let mut record = network.records[&other_key].clone();
    record.id = claimed.clone();
    network.records.insert((VERSIONED_DIRECTORY_LISTING_TAG, claimed.bytes.clone()), record);
    let posts_before = network.records[&other_key].version;
    let outcome = run(&mut network, |h| {
        h.directory_helper.update_directory_listing_and_parent(&orphan)
    });
    assert_eq!(outcome.err(), Some(NfsError::MetaDataMissingOrCorrupted));
    assert_eq!(network.records[&other_key].version, posts_before);
}

#[test]
fn a_listing_with_two_entries_of_one_name_is_refused() {
    let mut network = Network::new();
    let mut listing = create_versioned(&mut network, "DirName");
    assert!(listing.is_well_formed());
    let twin = File::new(
        maidsafe_nfs::metadata::FileMetadata::new(name("twin"), Vec::new(), Timestamp::new(1, 1)),
        DataMap::Empty,
    );
    listing.files.push(twin.clone());
    assert!(listing.is_well_formed());
    listing.files.push(twin);
    assert!(!listing.is_well_formed());
    let before = network.requests;
    let outcome = run(&mut network, |h| h.directory_helper.update(&listing));
    assert_eq!(outcome.err(), Some(NfsError::MetaDataMissingOrCorrupted));
    assert_eq!(network.requests, before);
}

#[test]
fn update_asks_nothing_of_the_network() {
    let mut network = Network::new();
    let created = create_versioned(&mut network, "DirName");
    let data: Vec<u8> = (0..400u32).map(|i| (i % 7) as u8).collect();
    let listing = write_file(&mut network, &created, "Name", &data);
    let file = listing.get_files()[0].clone();
    assert!(file.get_datamap().has_chunks());
    for mode in [Mode::Modify, Mode::Overwrite] {
        let mut helper = FileHelper::new(Client::new());
        let writer = helper.update(file.clone(), mode, listing.clone()).unwrap();
        assert_eq!(writer.mode, mode);
        assert!(writer.file.same(&file));
        assert!(writer.directory_listing.same(&listing));
        assert!(writer.patches.is_empty());
        let client = helper.into_client();
        assert!(client.get_pending().is_none());
        assert!(client.transcript.is_empty());
    }
    // The failure of the network shows when the writer is closed.
    let outcome = run_with(
        &mut network,
        |request| match request {
            Request::GetBlob { .. } => Some(Response::Failed(ClientError::Network)),
            _ => None,
        },
        |h| {
            let mut writer = h.update(file.clone(), Mode::Modify, listing.clone())?;
            writer.write(&vec![1u8], 0)?;
            writer.close(&mut h.directory_helper)
        },
    );
    assert_eq!(outcome.err(), Some(NfsError::ClientError(ClientError::Network)));
    let before = network.requests;
    let stored = run(&mut network, |h| {
        let mut writer = h.update(file.clone(), Mode::Modify, listing.clone())?;
        writer.write(&vec![9u8, 9], 398)?;
        writer.write(&vec![8u8], 401)?;
        writer.close(&mut h.directory_helper)
    })
    .unwrap();
    assert!(network.requests > before);
    let changed = stored.get_files()[0].clone();
    let mut expected = data[..398].to_vec();
    expected.extend_from_slice(&[9, 9, 0, 8]);
    assert_eq!(read_file(&mut network, &changed, 0, 402).unwrap(), expected);
}

#[test]
fn a_read_fetches_the_chunks_that_hold_the_range_alone() {
    let mut network = Network::new();
    let created = create_versioned(&mut network, "DirName");
    let data: Vec<u8> = (0..6000u32).map(|i| (i % 253) as u8).collect();
    let listing = write_file(&mut network, &created, "Big", &data);
    let file = listing.find_file(&name("Big")).unwrap().clone();
    let map = match file.get_datamap() {
        DataMap::Chunks(map) => map.clone(),
        _ => panic!("a content of this size is chunked"),
    };
    assert!(map.level.is_none());
    assert_eq!(map.total_size(), Some(6000));
    let sizes: Vec<u64> = map.keys.iter().map(|k| k.source_size).collect();
    assert_eq!(sizes, vec![2000, 2000, 2000]);

    let before = network.requests;
    assert_eq!(read_file(&mut network, &file, 2100, 50).unwrap(), data[2100..2150].to_vec());
    assert_eq!(network.requests - before, 1);
    let before = network.requests;
    assert_eq!(read_file(&mut network, &file, 1990, 20).unwrap(), data[1990..2010].to_vec());
    assert_eq!(network.requests - before, 2);
    let before = network.requests;
    assert_eq!(read_file(&mut network, &file, 1, 5999).unwrap(), data[1..].to_vec());
    assert_eq!(network.requests - before, 3);
    let before = network.requests;
    assert_eq!(read_file(&mut network, &file, 4000, 0).unwrap(), Vec::<u8>::new());
    assert_eq!(read_file(&mut network, &file, 6000, 0).unwrap(), Vec::<u8>::new());
    assert_eq!(network.requests, before);
    assert_eq!(read_file(&mut network, &file, 2000, 2000).unwrap(), data[2000..4000].to_vec());
    assert_eq!(read_file(&mut network, &file, 0, 6000).unwrap(), data);

    // A chunk that is lost fails only the reads that need it.
    network.blobs.remove(&map.stored[2].bytes);
    assert_eq!(read_file(&mut network, &file, 10, 3000).unwrap(), data[10..3010].to_vec());
    assert_eq!(read_file(&mut network, &file, 3999, 2).err(), Some(NfsError::NotFound));
    assert_eq!(read_file(&mut network, &file, 0, 6000).err(), Some(NfsError::NotFound));

    // A chunk that is not what its key says is corrupted.
    let junk = network.blobs[&map.stored[1].bytes].clone();
    network.blobs.insert(map.stored[0].bytes.clone(), junk);
    assert_eq!(
        read_file(&mut network, &file, 5, 5).err(),
        Some(NfsError::MetaDataMissingOrCorrupted)
    );
    // A map whose names do not pair up with its keys is corrupted.
    let mut short = map.clone();
    short.stored.pop();
    let mut odd = file.clone();
    odd.set_datamap(DataMap::Chunks(short));
    assert_eq!(
        read_file(&mut network, &odd, 2100, 5).err(),
        Some(NfsError::MetaDataMissingOrCorrupted)
    );
}

#[test]
fn the_nonce_is_the_front_of_the_hash_of_the_name() {
    // SHA-256 of the empty string and of "abc".
    let empty = maidsafe_nfs::nonce::generate_nonce(&NetworkName::new(Vec::new()));
    assert_eq!(
        empty,
        vec![
            0xe3, 0xb0, 0xc4, 0x42, 0x98, 0xfc, 0x1c, 0x14, 0x9a, 0xfb, 0xf4, 0xc8, 0x99, 0x6f,
            0xb9, 0x24, 0x27, 0xae, 0x41, 0xe4, 0x64, 0x9b, 0x93, 0x4c
        ]
    );
    let abc = maidsafe_nfs::nonce::generate_nonce(&NetworkName::new(b"abc".to_vec()));
    assert_eq!(
        abc,
        vec![
            0xba, 0x78, 0x16, 0xbf, 0x8f, 0x01, 0xcf, 0xea, 0x41, 0x41, 0x40, 0xde, 0x5d, 0xae,
            0x22, 0x23, 0xb0, 0x03, 0x61, 0xa3, 0x96, 0x17, 0x7a, 0x9c
        ]
    );
    // The request to seal a listing carries the nonce of its name.
    let mut helper = FileHelper::new(Client::new());
    let id = NetworkName::new(b"abc".to_vec());
    let outcome = helper.directory_helper.seal(&id, AccessLevel::Private, vec![1, 2, 3]);
    assert!(outcome.err().unwrap().is_unanswered());
    let client = helper.into_client();
    match client.get_pending() {
        Some(Request::Seal { nonce, plain }) => {
            assert_eq!(nonce, &abc);
            assert_eq!(plain, &vec![1u8, 2, 3]);
        }
        _ => panic!("a request to seal is pending"),
    }
}
