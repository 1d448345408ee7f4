//! What a transcript shows of the network, and what it means for a
//! transcript to come from a network that keeps what it is given.
//!
//! The network is never seen whole. Each exchange shows a little of it: a
//! record under a key, a blob under a name, the plain bytes behind a sealed
//! payload. A transcript is consistent when no exchange contradicts what
//! the exchanges before it have shown. That is how the transcript of one
//! session reads when nobody else writes to the same records meanwhile.

use vstd::prelude::*;
use crate::client::{ExchangeView, RequestView, ResponseView, StructuredDataView};

verus! {

/// What the exchanges so far have shown of the network.
pub struct Known {
    /// The record under each key that was fetched or stored.
    pub records: Map<(u64, Seq<u8>), StructuredDataView>,
    /// The content under each blob name that was fetched or stored.
    pub blobs: Map<Seq<u8>, Seq<u8>>,
    /// The plain bytes behind each sealed payload, by the nonce under which
    /// it was sealed.
    pub seals: Map<(Seq<u8>, Seq<u8>), Seq<u8>>,
    /// The session's identifier of the user's root listing, once asked for
    /// or set.
    pub user_root: Option<Option<Seq<u8>>>,
    /// The session's identifier of the configuration root listing, once
    /// asked for or set.
    pub configuration_root: Option<Option<Seq<u8>>>,
}

impl Known {
    /// Nothing is known.
    pub open spec fn nothing() -> Known {
        Known {
            records: Map::empty(),
            blobs: Map::empty(),
            seals: Map::empty(),
            user_root: None,
            configuration_root: None,
        }
    }

    /// Whether an exchange agrees with what is known: a fetched record or
    /// blob is the one known under that key or name, a stored blob gets a
    /// name under which no other content is known, sealing and opening
    /// agree with each other, a fresh name is one under which no record is
    /// known, and the session's root identifiers are as they were last
    /// seen or set. A reported failure contradicts nothing.
    pub open spec fn admits(self, exchange: ExchangeView) -> bool {
        match (exchange.request, exchange.response) {
            (RequestView::GetRecord { type_tag, id }, ResponseView::Record(record)) => {
                self.records.contains_key((type_tag, id)) ==> self.records[(type_tag, id)]
                    == record
            },
            (RequestView::GetBlob { name }, ResponseView::Blob(content)) => {
                self.blobs.contains_key(name) ==> self.blobs[name] == content
            },
            (RequestView::PutBlob { content }, ResponseView::Stored(name)) => {
                self.blobs.contains_key(name) ==> self.blobs[name] == content
            },
            (RequestView::Seal { nonce, plain }, ResponseView::Sealed(sealed)) => {
                self.seals.contains_key((nonce, sealed)) ==> self.seals[(nonce, sealed)] == plain
            },
            (RequestView::Open { nonce, sealed }, ResponseView::Opened(plain)) => {
                self.seals.contains_key((nonce, sealed)) ==> self.seals[(nonce, sealed)] == plain
            },
            (RequestView::FreshName, ResponseView::Name(name)) => {
                forall|type_tag: u64| !self.records.contains_key((type_tag, name))
            },
            (RequestView::UserRoot, ResponseView::Root(id)) => {
                self.user_root is Some ==> self.user_root == Some(id)
            },
            (RequestView::ConfigurationRoot, ResponseView::Root(id)) => {
                self.configuration_root is Some ==> self.configuration_root == Some(id)
            },
            _ => true,
        }
    }

    /// What is known after an exchange.
    pub open spec fn learn(self, exchange: ExchangeView) -> Known {
        match (exchange.request, exchange.response) {
            (RequestView::GetRecord { type_tag, id }, ResponseView::Record(record)) => Known {
                records: self.records.insert((type_tag, id), record),
                ..self
            },
            (RequestView::PutRecord { record }, ResponseView::Done) => Known {
                records: self.records.insert((record.type_tag, record.id), record),
                ..self
            },
            (RequestView::PostRecord { record }, ResponseView::Done) => Known {
                records: self.records.insert((record.type_tag, record.id), record),
                ..self
            },
            (RequestView::GetBlob { name }, ResponseView::Blob(content)) => Known {
                blobs: self.blobs.insert(name, content),
                ..self
            },
            (RequestView::PutBlob { content }, ResponseView::Stored(name)) => Known {
                blobs: self.blobs.insert(name, content),
                ..self
            },
            (RequestView::Seal { nonce, plain }, ResponseView::Sealed(sealed)) => Known {
                seals: self.seals.insert((nonce, sealed), plain),
                ..self
            },
            (RequestView::Open { nonce, sealed }, ResponseView::Opened(plain)) => Known {
                seals: self.seals.insert((nonce, sealed), plain),
                ..self
            },
            (RequestView::UserRoot, ResponseView::Root(id)) => Known {
                user_root: Some(id),
                ..self
            },
            (RequestView::SetUserRoot { id }, ResponseView::Done) => Known {
                user_root: Some(Some(id)),
                ..self
            },
            (RequestView::ConfigurationRoot, ResponseView::Root(id)) => Known {
                configuration_root: Some(id),
                ..self
            },
            (RequestView::SetConfigurationRoot { id }, ResponseView::Done) => Known {
                configuration_root: Some(Some(id)),
                ..self
            },
            _ => self,
        }
    }
}

/// What the first `k` exchanges of a transcript show.
pub open spec fn known(transcript: Seq<ExchangeView>, k: int) -> Known
    decreases k,
{
    if k <= 0 {
        Known::nothing()
    } else {
        known(transcript, k - 1).learn(transcript[k - 1])
    }
}

/// Whether no exchange of a transcript contradicts those before it.
pub open spec fn consistent(transcript: Seq<ExchangeView>) -> bool {
    forall|k: int| 0 <= k < transcript.len() ==> (#[trigger] known(transcript, k)).admits(
        transcript[k],
    )
}

/// In a consistent transcript, what is once known of a blob or of a sealed
/// payload stays known and stays the same.
pub proof fn lemma_known_persists(transcript: Seq<ExchangeView>, j: int, k: int)
    requires
        consistent(transcript),
        0 <= j <= k <= transcript.len(),
    ensures
        forall|name: Seq<u8>| #[trigger]
            known(transcript, j).blobs.contains_key(name) ==> known(
                transcript,
                k,
            ).blobs.contains_key(name) && known(transcript, k).blobs[name] == known(
                transcript,
                j,
            ).blobs[name],
        forall|key: (Seq<u8>, Seq<u8>)| #[trigger]
            known(transcript, j).seals.contains_key(key) ==> known(
                transcript,
                k,
            ).seals.contains_key(key) && known(transcript, k).seals[key] == known(
                transcript,
                j,
            ).seals[key],
    decreases k - j,
{
    if j < k {
        lemma_known_persists(transcript, j, k - 1);
        assert(known(transcript, k - 1).admits(transcript[k - 1]));
    }
}

} // verus!
