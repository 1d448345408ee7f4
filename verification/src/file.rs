//! A file as its directory's listing holds it.

use vstd::prelude::*;
use crate::datamap::{DataMap, DataMapView};
use crate::metadata::{FileMetadata, FileMetadataView};

verus! {

/// A file: what is recorded about it, and where its content lies.
#[derive(Debug)]
pub struct File {
    pub metadata: FileMetadata,
    pub datamap: DataMap,
}

/// The mathematical value of a [`File`].
pub struct FileView {
    pub metadata: FileMetadataView,
    pub datamap: DataMapView,
}

impl View for File {
    type V = FileView;

    open spec fn view(&self) -> FileView {
        FileView { metadata: self.metadata@, datamap: self.datamap@ }
    }
}

impl Clone for File {
    fn clone(&self) -> (r: Self)
        ensures
            r@ == self@,
    {
        File { metadata: self.metadata.clone(), datamap: self.datamap.clone() }
    }
}

impl File {
    pub fn new(metadata: FileMetadata, datamap: DataMap) -> (r: File)
        ensures
            r@ == (FileView { metadata: metadata@, datamap: datamap@ }),
    {
        File { metadata, datamap }
    }

    /// Whether both are the same file with the same content.
    pub fn same(&self, other: &File) -> (r: bool)
        ensures
            r == (self@ == other@),
    {
        self.metadata.same(&other.metadata) && self.datamap.same(&other.datamap)
    }

    pub fn get_name(&self) -> (r: &String)
        ensures
            r@ == self@.metadata.name,
    {
        &self.metadata.name
    }

    pub fn get_metadata(&self) -> (r: &FileMetadata)
        ensures
            r@ == self@.metadata,
    {
        &self.metadata
    }

    pub fn get_datamap(&self) -> (r: &DataMap)
        ensures
            r@ == self@.datamap,
    {
        &self.datamap
    }

    pub fn set_datamap(&mut self, datamap: DataMap)
        ensures
            final(self)@ == (FileView { datamap: datamap@, ..old(self)@ }),
    {
        self.datamap = datamap;
    }
}

} // verus!
