//! What a listing records about a directory and about a file.

use vstd::prelude::*;
use crate::AccessLevel;
use crate::bytes::{bytes_copy, bytes_eq};
use crate::name::{key_option_clone, key_option_same, key_option_view, KeyView, NetworkName};
use crate::timestamp::Timestamp;

verus! {

/// A directory as its own listing and its parent's listing describe it.
#[derive(Debug)]
pub struct DirectoryInfo {
    pub id: NetworkName,
    pub type_tag: u64,
    pub name: String,
    pub user_metadata: Vec<u8>,
    pub versioned: bool,
    pub access_level: AccessLevel,
    pub created_time: Timestamp,
    pub modified_time: Timestamp,
    pub parent_dir_key: Option<(NetworkName, u64)>,
}

/// The mathematical value of a [`DirectoryInfo`].
pub struct DirectoryInfoView {
    pub id: Seq<u8>,
    pub type_tag: u64,
    pub name: Seq<char>,
    pub user_metadata: Seq<u8>,
    pub versioned: bool,
    pub access_level: AccessLevel,
    pub created_time: Timestamp,
    pub modified_time: Timestamp,
    pub parent_dir_key: Option<KeyView>,
}

impl DirectoryInfoView {
    /// The key under which the directory's own listing is found.
    pub open spec fn key(self) -> KeyView {
        (self.id, self.type_tag)
    }
}

impl View for DirectoryInfo {
    type V = DirectoryInfoView;

    open spec fn view(&self) -> DirectoryInfoView {
        DirectoryInfoView {
            id: self.id@,
            type_tag: self.type_tag,
            name: self.name@,
            user_metadata: self.user_metadata@,
            versioned: self.versioned,
            access_level: self.access_level,
            created_time: self.created_time,
            modified_time: self.modified_time,
            parent_dir_key: key_option_view(self.parent_dir_key),
        }
    }
}

impl Clone for DirectoryInfo {
    fn clone(&self) -> (r: Self)
        ensures
            r@ == self@,
    {
        DirectoryInfo {
            id: self.id.clone(),
            type_tag: self.type_tag,
            name: self.name.clone(),
            user_metadata: bytes_copy(&self.user_metadata),
            versioned: self.versioned,
            access_level: self.access_level,
            created_time: self.created_time,
            modified_time: self.modified_time,
            parent_dir_key: key_option_clone(&self.parent_dir_key),
        }
    }
}

impl DirectoryInfo {
    /// A directory created at `now` under the identifier `id`.
    pub fn new(
        id: NetworkName,
        name: String,
        type_tag: u64,
        user_metadata: Vec<u8>,
        versioned: bool,
        access_level: AccessLevel,
        parent_dir_key: Option<(NetworkName, u64)>,
        now: Timestamp,
    ) -> (r: DirectoryInfo)
        ensures
            r@ == (DirectoryInfoView {
                id: id@,
                type_tag,
                name: name@,
                user_metadata: user_metadata@,
                versioned,
                access_level,
                created_time: now,
                modified_time: now,
                parent_dir_key: key_option_view(parent_dir_key),
            }),
    {
        DirectoryInfo {
            id,
            type_tag,
            name,
            user_metadata,
            versioned,
            access_level,
            created_time: now,
            modified_time: now,
            parent_dir_key,
        }
    }

    /// Whether both describe the same directory in the same way.
    pub fn same(&self, other: &DirectoryInfo) -> (r: bool)
        ensures
            r == (self@ == other@),
    {
        self.id.same(&other.id) && self.type_tag == other.type_tag && self.name == other.name
            && bytes_eq(&self.user_metadata, &other.user_metadata) && self.versioned
            == other.versioned && self.access_level == other.access_level
            && self.created_time.same(&other.created_time) && self.modified_time.same(
            &other.modified_time,
        ) && key_option_same(&self.parent_dir_key, &other.parent_dir_key)
    }

    pub fn get_key(&self) -> (r: (&NetworkName, u64))
        ensures
            r.0@ == self@.id,
            r.1 == self@.type_tag,
    {
        (&self.id, self.type_tag)
    }

    pub fn get_id(&self) -> (r: &NetworkName)
        ensures
            r@ == self@.id,
    {
        &self.id
    }

    pub fn get_name(&self) -> (r: &String)
        ensures
            r@ == self@.name,
    {
        &self.name
    }

    pub fn set_name(&mut self, name: String)
        ensures
            final(self)@ == (DirectoryInfoView { name: name@, ..old(self)@ }),
    {
        self.name = name;
    }

    pub fn get_user_metadata(&self) -> (r: &Vec<u8>)
        ensures
            r@ == self@.user_metadata,
    {
        &self.user_metadata
    }

    pub fn set_user_metadata(&mut self, user_metadata: Vec<u8>)
        ensures
            final(self)@ == (DirectoryInfoView { user_metadata: user_metadata@, ..old(self)@ }),
    {
        self.user_metadata = user_metadata;
    }

    pub fn is_versioned(&self) -> (r: bool)
        ensures
            r == self@.versioned,
    {
        self.versioned
    }

    pub fn get_access_level(&self) -> (r: AccessLevel)
        ensures
            r == self@.access_level,
    {
        self.access_level
    }

    pub fn get_created_time(&self) -> (r: Timestamp)
        ensures
            r == self@.created_time,
    {
        self.created_time
    }

    pub fn get_modified_time(&self) -> (r: Timestamp)
        ensures
            r == self@.modified_time,
    {
        self.modified_time
    }

    pub fn set_modified_time(&mut self, modified_time: Timestamp)
        ensures
            final(self)@ == (DirectoryInfoView { modified_time, ..old(self)@ }),
    {
        self.modified_time = modified_time;
    }

    pub fn get_parent_dir_key(&self) -> (r: Option<(&NetworkName, u64)>)
        ensures
            match r {
                Some(k) => self@.parent_dir_key == Some((k.0@, k.1)),
                None => self@.parent_dir_key is None,
            },
    {
        match &self.parent_dir_key {
            Some(k) => Some((&k.0, k.1)),
            None => None,
        }
    }
}

/// What a listing records about a file besides where its content lies.
#[derive(Debug)]
pub struct FileMetadata {
    pub name: String,
    pub user_metadata: Vec<u8>,
    pub size: u64,
    pub created_time: Timestamp,
    pub modified_time: Timestamp,
}

/// The mathematical value of a [`FileMetadata`].
pub struct FileMetadataView {
    pub name: Seq<char>,
    pub user_metadata: Seq<u8>,
    pub size: u64,
    pub created_time: Timestamp,
    pub modified_time: Timestamp,
}

impl View for FileMetadata {
    type V = FileMetadataView;

    open spec fn view(&self) -> FileMetadataView {
        FileMetadataView {
            name: self.name@,
            user_metadata: self.user_metadata@,
            size: self.size,
            created_time: self.created_time,
            modified_time: self.modified_time,
        }
    }
}

impl Clone for FileMetadata {
    fn clone(&self) -> (r: Self)
        ensures
            r@ == self@,
    {
        FileMetadata {
            name: self.name.clone(),
            user_metadata: bytes_copy(&self.user_metadata),
            size: self.size,
            created_time: self.created_time,
            modified_time: self.modified_time,
        }
    }
}

impl FileMetadata {
    /// The metadata of an empty file created at `now`.
    pub fn new(name: String, user_metadata: Vec<u8>, now: Timestamp) -> (r: FileMetadata)
        ensures
            r@ == (FileMetadataView {
                name: name@,
                user_metadata: user_metadata@,
                size: 0,
                created_time: now,
                modified_time: now,
            }),
    {
        FileMetadata { name, user_metadata, size: 0, created_time: now, modified_time: now }
    }

    /// Whether both record the same.
    pub fn same(&self, other: &FileMetadata) -> (r: bool)
        ensures
            r == (self@ == other@),
    {
        self.name == other.name && bytes_eq(&self.user_metadata, &other.user_metadata)
            && self.size == other.size && self.created_time.same(&other.created_time)
            && self.modified_time.same(&other.modified_time)
    }

    pub fn get_name(&self) -> (r: &String)
        ensures
            r@ == self@.name,
    {
        &self.name
    }

    pub fn set_name(&mut self, name: String)
        ensures
            final(self)@ == (FileMetadataView { name: name@, ..old(self)@ }),
    {
        self.name = name;
    }

    pub fn get_user_metadata(&self) -> (r: &Vec<u8>)
        ensures
            r@ == self@.user_metadata,
    {
        &self.user_metadata
    }

    pub fn set_user_metadata(&mut self, user_metadata: Vec<u8>)
        ensures
            final(self)@ == (FileMetadataView { user_metadata: user_metadata@, ..old(self)@ }),
    {
        self.user_metadata = user_metadata;
    }

    pub fn get_size(&self) -> (r: u64)
        ensures
            r == self@.size,
    {
        self.size
    }

    pub fn set_size(&mut self, size: u64)
        ensures
            final(self)@ == (FileMetadataView { size, ..old(self)@ }),
    {
        self.size = size;
    }

    pub fn get_created_time(&self) -> (r: Timestamp)
        ensures
            r == self@.created_time,
    {
        self.created_time
    }

    pub fn get_modified_time(&self) -> (r: Timestamp)
        ensures
            r == self@.modified_time,
    {
        self.modified_time
    }

    pub fn set_modified_time(&mut self, modified_time: Timestamp)
        ensures
            final(self)@ == (FileMetadataView { modified_time, ..old(self)@ }),
    {
        self.modified_time = modified_time;
    }
}

} // verus!
