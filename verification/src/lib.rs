//! A directory and file overlay for a content-addressed storage network.
//!
//! The network knows two kinds of object: immutable blobs, found by a name
//! that the network derives from their content, and structured records,
//! found by a type tag and an identifier and replaced as a whole. This crate
//! lays directories, files and their history over the two.
//!
//! # Transcripts
//!
//! Nothing here performs network traffic. A [`client::Client`] carries a
//! transcript: the exchanges with the network that have taken place so far.
//! An operation reads its answers from the transcript in order. When it
//! needs an answer that the transcript does not hold yet, it stops with
//! [`errors::ClientError::Unanswered`] and leaves the request in the
//! client. The caller performs the request, records the answer with
//! [`client::Client::answer`] and runs the operation again from the start;
//! the operation then goes through the same exchanges and one more.
//!
//! # What is proved
//!
//! Every operation has a spec function on [`client::ClientView`] that says
//! what it comes to on a given transcript, and is proved to come to just
//! that. [`substrate`] says what a transcript shows of the network and when
//! a transcript is consistent: when it reads as if the network kept what
//! it was given. [`laws`] proves what then holds of the operations taken
//! together: what was created is what is fetched, each update adds one
//! version, stored versions do not change. Two laws stand at the
//! operations themselves, because they rest on what the chunking crate
//! promises or on what only running code can know: that reading gives
//! back what was written stands at [`helper::reader::Reader::read`] and
//! [`helper::writer::Writer::close`], and that a listing is entered in
//! its parent once stands at
//! [`helper::directory_helper::DirectoryHelper::update_directory_listing_and_parent`].
//!
//! # Modules
//!
//! - [`directory_listing`], [`metadata`], [`file`], [`datamap`]: the data.
//! - [`wire`], [`codec`]: the byte format of listings, with the proof that
//!   reading gives back what was written.
//! - [`nonce`]: the nonce under which a private listing is sealed.
//! - [`client`]: requests, answers and the transcript.
//! - [`helper`]: the operations on directories and files, the writer and
//!   the reader.
//! - [`substrate`], [`laws`]: the model of the network and the laws.

use vstd::prelude::*;

pub mod bytes;
pub mod client;
pub mod codec;
pub mod datamap;
pub mod directory_listing;
pub mod errors;
pub mod file;
pub mod helper;
pub mod laws;
pub mod metadata;
pub mod name;
pub mod nonce;
pub mod substrate;
pub mod timestamp;
pub mod view;
pub mod wire;

verus! {

/// Name of the listing at the root of a user's tree.
pub const ROOT_DIRECTORY_NAME: &'static str = "USER-ROOT";

/// Name of the listing that holds the configuration directories.
pub const CONFIGURATION_DIRECTORY_NAME: &'static str = "CONFIGURATION-ROOT";

/// Type tag of the record behind a listing that keeps its history.
pub const VERSIONED_DIRECTORY_LISTING_TAG: u64 = 15100;

/// Type tag of the record behind a listing that is replaced in place.
pub const UNVERSIONED_DIRECTORY_LISTING_TAG: u64 = 15101;

/// Whether a listing's body is stored sealed or in the clear.
#[derive(Clone, Copy, Debug, PartialEq, Eq, Structural)]
pub enum AccessLevel {
    Private,
    Public,
}

/// The type tag under which a listing is stored, by whether it keeps history.
pub open spec fn listing_tag(versioned: bool) -> u64 {
    if versioned {
        VERSIONED_DIRECTORY_LISTING_TAG
    } else {
        UNVERSIONED_DIRECTORY_LISTING_TAG
    }
}

} // verus!
