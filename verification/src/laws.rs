//! What holds of the operations taken together.
//!
//! The laws speak of clients that share one transcript and differ in how
//! far they have gone through it: the client that an operation leaves
//! behind is where the next operation starts.

use vstd::prelude::*;
use crate::client::{
    Client, ClientView, Exchange, ExchangeView, RequestView, Response, ResponseView,
    StructuredDataView,
};
use crate::codec::{
    decoded_versions, lemma_decoded_versions_fit, lemma_listing_round_trip,
    lemma_versions_round_trip,
};
use crate::datamap::{recovers, self_encrypted, shrunk_at_most_once, DataMapView};
use crate::directory_listing::{
    directory_named, directory_with_id, file_named, lemma_first_exists, lemma_position,
    lemma_position_some, position, upserted, DirectoryListing, DirectoryListingView,
};
use crate::errors::NfsError;
use crate::file::FileView;
use crate::helper::directory_helper::{
    describes, holds_at, holds_once, is_listing_tag, listing_of, versions_of,
};
use crate::helper::file_helper::with_user_metadata;
use crate::metadata::DirectoryInfoView;
use crate::name::NetworkName;
use crate::nonce::nonce_of;
use crate::substrate::{consistent, known, lemma_known_persists, Known};
use crate::timestamp::Timestamp;
use crate::wire::{dec_bytes, dec_items, dec_u64, enc_list, list_fits, Wire};
use crate::{
    listing_tag, AccessLevel, CONFIGURATION_DIRECTORY_NAME, ROOT_DIRECTORY_NAME,
    UNVERSIONED_DIRECTORY_LISTING_TAG, VERSIONED_DIRECTORY_LISTING_TAG,
};

verus! {

/// What a request that was answered shows: the client has gone one
/// exchange further, the exchange agrees with what was known, and what it
/// shows is known from then on.
pub proof fn lemma_answered(c: ClientView, request: RequestView)
    requires
        consistent(c.transcript),
        c.call(request).0 is Ok,
    ensures
        ({
            let (r, c2) = c.call(request);
            let exchange = ExchangeView { request, response: r->Ok_0 };
            &&& 0 <= c.cursor < c.transcript.len()
            &&& c.transcript[c.cursor] == exchange
            &&& c2 == c.advanced()
            &&& known(c.transcript, c.cursor).admits(exchange)
            &&& known(c.transcript, c.cursor + 1) == known(c.transcript, c.cursor).learn(exchange)
        }),
{
}

/// A blob that was fetched is known from then on, and is the blob that
/// was known under its name before.
pub proof fn lemma_fetched_blob(c: ClientView, name: Seq<u8>)
    requires
        consistent(c.transcript),
        c.get_immutable_data(name).0 is Ok,
    ensures
        ({
            let (r, c2) = c.get_immutable_data(name);
            &&& 0 <= c.cursor < c.transcript.len()
            &&& c2 == c.advanced()
            &&& known(c.transcript, c.cursor + 1).blobs.contains_key(name)
            &&& known(c.transcript, c.cursor + 1).blobs[name] == r->Ok_0
            &&& known(c.transcript, c.cursor).blobs.contains_key(name) ==> known(
                c.transcript,
                c.cursor,
            ).blobs[name] == r->Ok_0
        }),
{
    lemma_answered(c, RequestView::GetBlob { name });
}

/// A body that was opened is known from then on, and opens to the plain
/// bytes that were known for it before.
pub proof fn lemma_opened(c: ClientView, id: Seq<u8>, access_level: AccessLevel, body: Seq<u8>)
    requires
        consistent(c.transcript),
        c.opened(id, access_level, body).0 is Ok,
        access_level == AccessLevel::Private,
    ensures
        ({
            let (r, c2) = c.opened(id, access_level, body);
            &&& 0 <= c.cursor < c.transcript.len()
            &&& c2 == c.advanced()
            &&& known(c.transcript, c.cursor + 1).seals.contains_key((nonce_of(id), body))
            &&& known(c.transcript, c.cursor + 1).seals[(nonce_of(id), body)] == r->Ok_0
            &&& known(c.transcript, c.cursor).seals.contains_key((nonce_of(id), body)) ==> known(
                c.transcript,
                c.cursor,
            ).seals[(nonce_of(id), body)] == r->Ok_0
        }),
{
    lemma_answered(c, RequestView::Open { nonce: nonce_of(id), sealed: body });
}

/// Stored versions do not change: what was once fetched as a version of a
/// listing is fetched as the same listing ever after, whatever was stored
/// in between.
pub proof fn law_stored_versions_do_not_change(
    earlier: ClientView,
    later: ClientView,
    id: Seq<u8>,
    access_level: AccessLevel,
    version: Seq<u8>,
)
    requires
        consistent(earlier.transcript),
        later.transcript == earlier.transcript,
        earlier.cursor <= later.cursor,
        earlier.get_by_version(id, access_level, version).0 is Ok,
        later.get_by_version(id, access_level, version).0 is Ok,
    ensures
        earlier.get_by_version(id, access_level, version).0 == later.get_by_version(
            id,
            access_level,
            version,
        ).0,
{
    reveal(ClientView::get_by_version);
    let t = earlier.transcript;
    lemma_fetched_blob(earlier, version);
    lemma_fetched_blob(later, version);
    let (b1, e2) = earlier.get_immutable_data(version);
    let (b2, l2) = later.get_immutable_data(version);
    if earlier.cursor < later.cursor {
        lemma_known_persists(t, earlier.cursor + 1, later.cursor);
    }
    assert(b1 == b2);
    let body = b1->Ok_0;
    match access_level {
        AccessLevel::Public => {},
        AccessLevel::Private => {
            lemma_opened(e2, id, access_level, body);
            lemma_opened(l2, id, access_level, body);
            if e2.cursor < l2.cursor {
                lemma_known_persists(t, e2.cursor + 1, l2.cursor);
            }
        },
    }
}

/// Whether a transcript could be held in memory: every name that the
/// network gave to a stored blob has a length that fits in 64 bits, and
/// every list of versions in a fetched record has room for one more.
pub open spec fn fits_memory(transcript: Seq<ExchangeView>) -> bool {
    forall|k: int|
        0 <= k < transcript.len() ==> match (#[trigger] transcript[k]).response {
            ResponseView::Stored(name) => name.len() <= u64::MAX,
            ResponseView::Record(record) => decoded_versions(record.payload) matches Some(v)
                ==> v.len() < u64::MAX,
            _ => true,
        }
}

/// A list of names takes at least eight bytes for each name.
pub proof fn lemma_names_take_room(s: Seq<u8>, n: nat)
    requires
        dec_items::<NetworkName>(s, n) is Some,
    ensures
        8 * n <= s.len(),
    decreases n,
{
    if n > 0 {
        let first = dec_bytes(s).unwrap();
        lemma_names_take_room(first.1, (n - 1) as nat);
    }
}

/// Every transcript in memory fits in memory.
pub proof fn lemma_client_fits_memory(client: &Client)
    ensures
        fits_memory(client@.transcript),
{
    let t = client@.transcript;
    assert forall|k: int| 0 <= k < t.len() implies match (#[trigger] t[k]).response {
        ResponseView::Stored(name) => name.len() <= u64::MAX,
        ResponseView::Record(record) => decoded_versions(record.payload) matches Some(v)
            ==> v.len() < u64::MAX,
        _ => true,
    } by {
        let exchange: Exchange = client.transcript@[k];
        assert(t[k] == exchange@);
        match exchange.response {
            Response::Stored(name) => {
                assert(name@.len() == name.bytes.len());
            },
            Response::Record(record) => {
                let payload = record.payload@;
                assert(payload.len() == record.payload.len());
                if decoded_versions(payload) is Some {
                    let head = dec_u64(payload).unwrap();
                    lemma_names_take_room(head.1, head.0 as nat);
                    crate::codec::lemma_read_names_fit(head.1, head.0 as nat);
                }
            },
            _ => {},
        }
    }
}

impl Known {
    /// The plain bytes of the listing that is known to be stored under a
    /// key, as far as they are known: the payload of the record, or the
    /// blob that the record lists last, opened where the listing is
    /// private.
    pub open spec fn stored_plain(
        self,
        id: Seq<u8>,
        type_tag: u64,
        versioned: bool,
        access_level: AccessLevel,
    ) -> Option<Seq<u8>> {
        if !self.records.contains_key((type_tag, id)) {
            None
        } else {
            let record = self.records[(type_tag, id)];
            let body = if versioned {
                match decoded_versions(record.payload) {
                    Some(versions) => if versions.len() > 0 && self.blobs.contains_key(
                        versions.last(),
                    ) {
                        Some(self.blobs[versions.last()])
                    } else {
                        None
                    },
                    None => None,
                }
            } else {
                Some(record.payload)
            };
            match body {
                None => None,
                Some(b) => match access_level {
                    AccessLevel::Public => Some(b),
                    AccessLevel::Private => if self.seals.contains_key((nonce_of(id), b)) {
                        Some(self.seals[(nonce_of(id), b)])
                    } else {
                        None
                    },
                },
            }
        }
    }
}

/// A record that was fetched is known from then on, and is the record that
/// was known under its key before.
pub proof fn lemma_fetched_record(c: ClientView, id: Seq<u8>, type_tag: u64)
    requires
        consistent(c.transcript),
        c.get_structured_data(id, type_tag).0 is Ok,
    ensures
        ({
            let (r, c2) = c.get_structured_data(id, type_tag);
            let before = known(c.transcript, c.cursor);
            &&& 0 <= c.cursor < c.transcript.len()
            &&& c2 == c.advanced()
            &&& r->Ok_0.type_tag == type_tag
            &&& r->Ok_0.id == id
            &&& known(c.transcript, c.cursor + 1) == (Known {
                records: before.records.insert((type_tag, id), r->Ok_0),
                ..before
            })
            &&& before.records.contains_key((type_tag, id)) ==> before.records[(type_tag, id)]
                == r->Ok_0
        }),
{
    lemma_answered(c, RequestView::GetRecord { type_tag, id });
}

/// A blob that was stored is known from then on under the name it was
/// given.
pub proof fn lemma_stored_blob(c: ClientView, content: Seq<u8>)
    requires
        consistent(c.transcript),
        c.save_as_immutable_data(content).0 is Ok,
    ensures
        ({
            let (r, c2) = c.save_as_immutable_data(content);
            let before = known(c.transcript, c.cursor);
            &&& 0 <= c.cursor < c.transcript.len()
            &&& c2 == c.advanced()
            &&& c.transcript[c.cursor].response == ResponseView::Stored(r->Ok_0)
            &&& known(c.transcript, c.cursor + 1) == (Known {
                blobs: before.blobs.insert(r->Ok_0, content),
                ..before
            })
        }),
{
    lemma_answered(c, RequestView::PutBlob { content });
}

/// What sealing shows: the sealed body opens to the plain bytes.
pub proof fn lemma_sealed(c: ClientView, id: Seq<u8>, access_level: AccessLevel, plain: Seq<u8>)
    requires
        consistent(c.transcript),
        0 <= c.cursor,
        c.sealed(id, access_level, plain).0 is Ok,
    ensures
        ({
            let (r, c2) = c.sealed(id, access_level, plain);
            let before = known(c.transcript, c.cursor);
            &&& c2.transcript == c.transcript
            &&& match access_level {
                AccessLevel::Public => c2 == c && r->Ok_0 == plain,
                AccessLevel::Private => c2 == c.advanced() && c.cursor < c.transcript.len()
                    && known(c.transcript, c2.cursor) == (Known {
                    seals: before.seals.insert((nonce_of(id), r->Ok_0), plain),
                    ..before
                }),
            }
        }),
{
    match access_level {
        AccessLevel::Public => {},
        AccessLevel::Private => {
            lemma_answered(c, RequestView::Seal { nonce: nonce_of(id), plain });
        },
    }
}

/// A record that was stored or replaced is known from then on.
pub proof fn lemma_stored_record(c: ClientView, record: StructuredDataView, replace: bool)
    requires
        consistent(c.transcript),
        if replace {
            c.post_record(record).0 is Ok
        } else {
            c.put_record(record).0 is Ok
        },
    ensures
        ({
            let c2 = if replace {
                c.post_record(record).1
            } else {
                c.put_record(record).1
            };
            let before = known(c.transcript, c.cursor);
            &&& 0 <= c.cursor < c.transcript.len()
            &&& c2 == c.advanced()
            &&& known(c.transcript, c.cursor + 1) == (Known {
                records: before.records.insert((record.type_tag, record.id), record),
                ..before
            })
        }),
{
    if replace {
        lemma_answered(c, RequestView::PostRecord { record });
    } else {
        lemma_answered(c, RequestView::PutRecord { record });
    }
}

/// What fetching a stored version shows and leaves: the records that are
/// known stay as they are, and where the blob and what it opens to were
/// known, the result is the listing that those bytes stand for.
pub proof fn lemma_got_version(
    c: ClientView,
    id: Seq<u8>,
    access_level: AccessLevel,
    version: Seq<u8>,
)
    requires
        consistent(c.transcript),
        c.get_by_version(id, access_level, version).0 is Ok,
    ensures
        ({
            let (r, c2) = c.get_by_version(id, access_level, version);
            let before = known(c.transcript, c.cursor);
            let after = known(c.transcript, c2.cursor);
            &&& c2.transcript == c.transcript
            &&& 0 <= c.cursor < c2.cursor <= c.transcript.len()
            &&& after.records == before.records
            &&& after.user_root == before.user_root
            &&& after.configuration_root == before.configuration_root
            &&& before.blobs.contains_key(version) ==> match access_level {
                AccessLevel::Public => r == listing_of(before.blobs[version]),
                AccessLevel::Private => before.seals.contains_key((nonce_of(id), before.blobs[version]))
                    ==> r == listing_of(before.seals[(nonce_of(id), before.blobs[version])]),
            }
        }),
{
    reveal(ClientView::get_by_version);
    lemma_fetched_blob(c, version);
    lemma_answered(c, RequestView::GetBlob { name: version });
    let (b, c1) = c.get_immutable_data(version);
    match access_level {
        AccessLevel::Public => {},
        AccessLevel::Private => {
            lemma_opened(c1, id, access_level, b->Ok_0);
            lemma_answered(c1, RequestView::Open { nonce: nonce_of(id), sealed: b->Ok_0 });
        },
    }
}

/// What fetching a listing shows and leaves: the record under its key is
/// known afterwards and is the one that was known before, no other record
/// changes, and where the stored bytes were known, the result is the
/// listing that they stand for.
pub proof fn lemma_got(
    c: ClientView,
    id: Seq<u8>,
    type_tag: u64,
    versioned: bool,
    access_level: AccessLevel,
)
    requires
        consistent(c.transcript),
        c.get(id, type_tag, versioned, access_level).0 is Ok,
    ensures
        ({
            let (r, c2) = c.get(id, type_tag, versioned, access_level);
            let before = known(c.transcript, c.cursor);
            let after = known(c.transcript, c2.cursor);
            &&& c2.transcript == c.transcript
            &&& 0 <= c.cursor < c2.cursor <= c.transcript.len()
            &&& after.records.contains_key((type_tag, id))
            &&& after.records == before.records.insert((type_tag, id), after.records[(type_tag, id)])
            &&& before.records.contains_key((type_tag, id)) ==> after.records == before.records
            &&& after.user_root == before.user_root
            &&& after.configuration_root == before.configuration_root
            &&& before.stored_plain(id, type_tag, versioned, access_level) matches Some(plain)
                ==> r == listing_of(plain)
        }),
{
    reveal(ClientView::get);
    lemma_fetched_record(c, id, type_tag);
    let (rec, c1) = c.get_structured_data(id, type_tag);
    let record = rec->Ok_0;
    let before = known(c.transcript, c.cursor);
    let mid = known(c.transcript, c1.cursor);
    if before.records.contains_key((type_tag, id)) {
        assert(mid.records =~= before.records);
    }
    if versioned {
        let versions = versions_of(record.payload)->Ok_0;
        lemma_got_version(c1, id, access_level, versions.last());
    } else {
        match access_level {
            AccessLevel::Public => {},
            AccessLevel::Private => {
                lemma_opened(c1, id, access_level, record.payload);
                lemma_answered(c1, RequestView::Open { nonce: nonce_of(id), sealed: record.payload });
            },
        }
    }
}

/// Asking for a fresh name or for the time shows nothing of the network.
pub proof fn lemma_asked(c: ClientView)
    requires
        consistent(c.transcript),
    ensures
        c.fresh_name().0 is Ok ==> c.fresh_name().1 == c.advanced() && 0 <= c.cursor
            < c.transcript.len() && known(c.transcript, c.cursor + 1) == known(
            c.transcript,
            c.cursor,
        ),
        c.clock().0 is Ok ==> c.clock().1 == c.advanced() && 0 <= c.cursor < c.transcript.len()
            && known(c.transcript, c.cursor + 1) == known(c.transcript, c.cursor),
{
    if c.fresh_name().0 is Ok {
        lemma_answered(c, RequestView::FreshName);
    }
    if c.clock().0 is Ok {
        lemma_answered(c, RequestView::Clock);
    }
}

/// What making a listing's first record shows: once the record is known
/// under the listing's key, the listing's bytes are known to be stored
/// there.
pub proof fn lemma_saved(c: ClientView, directory: DirectoryListingView)
    requires
        consistent(c.transcript),
        fits_memory(c.transcript),
        0 <= c.cursor <= c.transcript.len(),
        c.save_directory_listing(directory).0 is Ok,
    ensures
        ({
            let (r, c2) = c.save_directory_listing(directory);
            let record = r->Ok_0;
            let before = known(c.transcript, c.cursor);
            let after = known(c.transcript, c2.cursor);
            let tag = listing_tag(directory.info.versioned);
            &&& c2.transcript == c.transcript
            &&& c.cursor <= c2.cursor <= c.transcript.len()
            &&& record.type_tag == tag
            &&& record.id == directory.info.id
            &&& directory.info.versioned ==> decoded_versions(record.payload) is Some
                && decoded_versions(record.payload).unwrap().len() == 1
            &&& after.records == before.records
            &&& after.user_root == before.user_root
            &&& after.configuration_root == before.configuration_root
            &&& (Known {
                records: after.records.insert((tag, directory.info.id), record),
                ..after
            }).stored_plain(
                directory.info.id,
                tag,
                directory.info.versioned,
                directory.info.access_level,
            ) == Some(DirectoryListing::enc(directory))
        }),
{
    reveal(ClientView::save_directory_listing);
    let id = directory.info.id;
    let access_level = directory.info.access_level;
    let plain = DirectoryListing::enc(directory);
    lemma_sealed(c, id, access_level, plain);
    let (b, c1) = c.sealed(id, access_level, plain);
    let body = b->Ok_0;
    if directory.info.versioned {
        lemma_stored_blob(c1, body);
        let name = c1.save_as_immutable_data(body).0->Ok_0;
        assert(name.len() <= u64::MAX);
        assert(list_fits::<NetworkName>(seq![name]));
        lemma_versions_round_trip(seq![name]);
        assert(seq![name].last() == name);
    }
}

/// What replacing a record and fetching the listing again shows and
/// leaves, where the record goes under the listing's key and leads to
/// bytes that are known: the result is the listing that those bytes stand
/// for, the record is known under the key, and no other record changes.
pub proof fn lemma_posted_and_got(
    c: ClientView,
    record: StructuredDataView,
    directory: DirectoryListingView,
    plain: Seq<u8>,
)
    requires
        consistent(c.transcript),
        c.post_and_get(record, directory).0 is Ok,
        record.type_tag == directory.info.type_tag,
        record.id == directory.info.id,
        (Known {
            records: known(c.transcript, c.cursor).records.insert(
                (record.type_tag, record.id),
                record,
            ),
            ..known(c.transcript, c.cursor)
        }).stored_plain(
            directory.info.id,
            directory.info.type_tag,
            directory.info.versioned,
            directory.info.access_level,
        ) == Some(plain),
    ensures
        ({
            let (r, c2) = c.post_and_get(record, directory);
            let before = known(c.transcript, c.cursor);
            let after = known(c.transcript, c2.cursor);
            let key = (directory.info.type_tag, directory.info.id);
            &&& c2.transcript == c.transcript
            &&& 0 <= c.cursor < c2.cursor <= c.transcript.len()
            &&& after.records == before.records.insert(key, record)
            &&& after.user_root == before.user_root
            &&& after.configuration_root == before.configuration_root
            &&& after.stored_plain(
                directory.info.id,
                directory.info.type_tag,
                directory.info.versioned,
                directory.info.access_level,
            ) == Some(plain)
            &&& r == listing_of(plain)
        }),
{
    reveal(ClientView::post_and_get);
    let t = c.transcript;
    let id = directory.info.id;
    let tag = directory.info.type_tag;
    lemma_stored_record(c, record, true);
    let c1 = c.post_record(record).1;
    lemma_got(c1, id, tag, directory.info.versioned, directory.info.access_level);
    let c2 = c1.get(id, tag, directory.info.versioned, directory.info.access_level).1;
    lemma_known_persists(t, c1.cursor, c2.cursor);
    assert(known(t, c2.cursor).records =~= known(t, c.cursor).records.insert((tag, id), record));
}

/// What storing a new state of a listing shows and leaves, for a listing
/// whose key carries the type tag that goes with its kind: the result is
/// the listing that the stored bytes stand for, those bytes are known to
/// be stored under the listing's key, no other record changes, and where
/// the listing keeps history, the record lists one version more than the
/// record that was known before.
#[verifier::rlimit(60)]
pub proof fn lemma_updated(c: ClientView, directory: DirectoryListingView)
    requires
        consistent(c.transcript),
        fits_memory(c.transcript),
        directory.info.type_tag == listing_tag(directory.info.versioned),
        c.update_directory_listing(directory).0 is Ok,
    ensures
        ({
            let (r, c2) = c.update_directory_listing(directory);
            let before = known(c.transcript, c.cursor);
            let after = known(c.transcript, c2.cursor);
            let key = (directory.info.type_tag, directory.info.id);
            &&& c2.transcript == c.transcript
            &&& 0 <= c.cursor < c2.cursor <= c.transcript.len()
            &&& after.records.contains_key(key)
            &&& after.records == before.records.insert(key, after.records[key])
            &&& after.user_root == before.user_root
            &&& after.configuration_root == before.configuration_root
            &&& after.stored_plain(
                directory.info.id,
                directory.info.type_tag,
                directory.info.versioned,
                directory.info.access_level,
            ) == Some(DirectoryListing::enc(directory))
            &&& directory.wf()
            &&& DirectoryListing::fits(directory) ==> r == Ok::<DirectoryListingView, NfsError>(
                directory,
            )
            &&& directory.info.versioned && before.records.contains_key(key) ==> {
                &&& decoded_versions(before.records[key].payload) is Some
                &&& decoded_versions(after.records[key].payload) is Some
                &&& decoded_versions(after.records[key].payload).unwrap().len()
                    == decoded_versions(before.records[key].payload).unwrap().len() + 1
                &&& decoded_versions(after.records[key].payload).unwrap().drop_last()
                    == decoded_versions(before.records[key].payload).unwrap()
            }
        }),
{
    reveal(ClientView::update_directory_listing);
    reveal(ClientView::replace);
    if DirectoryListing::fits(directory) {
        lemma_listing_round_trip(directory);
    }
    let t = c.transcript;
    let id = directory.info.id;
    let tag = directory.info.type_tag;
    let key = (tag, id);
    let versioned = directory.info.versioned;
    let access_level = directory.info.access_level;
    let plain = DirectoryListing::enc(directory);
    lemma_fetched_record(c, id, tag);
    let (rec, c1) = c.get_structured_data(id, tag);
    let record = rec->Ok_0;
    let k0 = known(t, c.cursor);
    lemma_sealed(c1, id, access_level, plain);
    let (b, c2) = c1.sealed(id, access_level, plain);
    let body = b->Ok_0;
    if versioned {
        let versions = versions_of(record.payload)->Ok_0;
        lemma_decoded_versions_fit(record.payload);
        lemma_stored_blob(c2, body);
        let (n, c3) = c2.save_as_immutable_data(body);
        let name = n->Ok_0;
        let updated = StructuredDataView {
            type_tag: record.type_tag,
            id: record.id,
            version: (record.version + 1) as u64,
            payload: enc_list::<NetworkName>(versions.push(name)),
        };
        assert(t[c.cursor].response == ResponseView::Record(record));
        assert(versions.len() < u64::MAX);
        assert(name.len() <= u64::MAX);
        assert(list_fits::<NetworkName>(versions.push(name)));
        lemma_versions_round_trip(versions.push(name));
        assert(versions.push(name).last() == name);
        assert(versions.push(name).drop_last() =~= versions);
        lemma_posted_and_got(c3, updated, directory, plain);
        let c5 = c3.post_and_get(updated, directory).1;
        assert(known(t, c5.cursor).records =~= k0.records.insert(key, updated));
    } else {
        let updated = StructuredDataView {
            type_tag: crate::UNVERSIONED_DIRECTORY_LISTING_TAG,
            id,
            version: (record.version + 1) as u64,
            payload: body,
        };
        lemma_posted_and_got(c2, updated, directory, plain);
        let c5 = c2.post_and_get(updated, directory).1;
        assert(known(t, c5.cursor).records =~= k0.records.insert(key, updated));
    }
}

/// Each update adds one version: for a listing that keeps history, the
/// list of its versions after an update is the list before it and one
/// version more.
pub proof fn law_update_adds_one_version(
    c: ClientView,
    directory: DirectoryListingView,
    before: Seq<Seq<u8>>,
    after: Seq<Seq<u8>>,
)
    requires
        consistent(c.transcript),
        fits_memory(c.transcript),
        directory.info.versioned,
        directory.info.type_tag == listing_tag(true),
        c.get_versions(directory.info.id, directory.info.type_tag).0 == Ok::<
            Seq<Seq<u8>>,
            NfsError,
        >(before),
        c.get_versions(
            directory.info.id,
            directory.info.type_tag,
        ).1.update_directory_listing(directory).0 is Ok,
        c.get_versions(
            directory.info.id,
            directory.info.type_tag,
        ).1.update_directory_listing(directory).1.get_versions(
            directory.info.id,
            directory.info.type_tag,
        ).0 == Ok::<Seq<Seq<u8>>, NfsError>(after),
    ensures
        after.len() == before.len() + 1,
        after.drop_last() == before,
{
    reveal(ClientView::get_versions);
    let id = directory.info.id;
    let tag = directory.info.type_tag;
    lemma_fetched_record(c, id, tag);
    let c1 = c.get_versions(id, tag).1;
    lemma_updated(c1, directory);
    let c2 = c1.update_directory_listing(directory).1;
    lemma_fetched_record(c2, id, tag);
}

/// What was created is what is fetched: a listing that was created without
/// a parent, under the type tag that goes with its kind, is fetched
/// afterwards equal in every field.
pub proof fn law_create_then_get(
    c: ClientView,
    name: Seq<char>,
    user_metadata: Seq<u8>,
    versioned: bool,
    access_level: AccessLevel,
    created: DirectoryListingView,
)
    requires
        consistent(c.transcript),
        fits_memory(c.transcript),
        c.create(name, listing_tag(versioned), user_metadata, versioned, access_level, None).result
            == Ok::<DirectoryListingView, NfsError>(created),
        DirectoryListing::fits(created),
        c.create(
            name,
            listing_tag(versioned),
            user_metadata,
            versioned,
            access_level,
            None,
        ).client.get(created.info.id, created.info.type_tag, versioned, access_level).0 is Ok,
    ensures
        c.create(
            name,
            listing_tag(versioned),
            user_metadata,
            versioned,
            access_level,
            None,
        ).client.get(created.info.id, created.info.type_tag, versioned, access_level).0 == Ok::<
            DirectoryListingView,
            NfsError,
        >(created),
{
    reveal(ClientView::create);
    lemma_made(c, name, listing_tag(versioned), user_metadata, versioned, access_level, None);
    let made = c.create(name, listing_tag(versioned), user_metadata, versioned, access_level, None);
    lemma_got(made.client, created.info.id, created.info.type_tag, versioned, access_level);
    lemma_listing_round_trip(created);
}

/// What is known to be stored under a key stays known to be stored there
/// as long as the record under that key stays the same.
pub proof fn lemma_stored_plain_persists(
    transcript: Seq<ExchangeView>,
    j: int,
    k: int,
    id: Seq<u8>,
    type_tag: u64,
    versioned: bool,
    access_level: AccessLevel,
)
    requires
        consistent(transcript),
        0 <= j <= k <= transcript.len(),
        known(transcript, j).stored_plain(id, type_tag, versioned, access_level) is Some,
        known(transcript, k).records.contains_key((type_tag, id)),
        known(transcript, k).records[(type_tag, id)] == known(transcript, j).records[(
            type_tag,
            id,
        )],
    ensures
        known(transcript, k).stored_plain(id, type_tag, versioned, access_level) == known(
            transcript,
            j,
        ).stored_plain(id, type_tag, versioned, access_level),
{
    lemma_known_persists(transcript, j, k);
}

/// What was created under a parent is what is fetched: a listing that was
/// created under a parent which has no parent of its own, both under the
/// type tags that go with their kinds and under different identifiers, is
/// fetched afterwards equal in every field.
pub proof fn law_create_under_parent_then_get(
    c: ClientView,
    name: Seq<char>,
    user_metadata: Seq<u8>,
    versioned: bool,
    access_level: AccessLevel,
    parent: DirectoryListingView,
    created: DirectoryListingView,
)
    requires
        consistent(c.transcript),
        fits_memory(c.transcript),
        parent.info.parent_dir_key is None,
        parent.info.type_tag == listing_tag(parent.info.versioned),
        c.create(
            name,
            listing_tag(versioned),
            user_metadata,
            versioned,
            access_level,
            Some(parent),
        ).result == Ok::<DirectoryListingView, NfsError>(created),
        created.info.id != parent.info.id,
        DirectoryListing::fits(created),
        c.create(
            name,
            listing_tag(versioned),
            user_metadata,
            versioned,
            access_level,
            Some(parent),
        ).client.get(created.info.id, created.info.type_tag, versioned, access_level).0 is Ok,
    ensures
        c.create(
            name,
            listing_tag(versioned),
            user_metadata,
            versioned,
            access_level,
            Some(parent),
        ).client.get(created.info.id, created.info.type_tag, versioned, access_level).0 == Ok::<
            DirectoryListingView,
            NfsError,
        >(created),
{
    reveal(ClientView::create);
    reveal(ClientView::update_directory_listing_and_parent);
    let t = c.transcript;
    let tag = listing_tag(versioned);
    lemma_made(c, name, tag, user_metadata, versioned, access_level, Some(parent.key()));
    let (m, c1) = c.make(name, tag, user_metadata, versioned, access_level, Some(parent.key()));
    let now = m.unwrap().1;
    let entered = parent.with_sub_directory(created.info, now);
    lemma_updated(c1, entered);
    let c2 = c1.update_directory_listing(entered).1;
    lemma_stored_plain_persists(
        t,
        c1.cursor,
        c2.cursor,
        created.info.id,
        tag,
        versioned,
        access_level,
    );
    lemma_got(c2, created.info.id, tag, versioned, access_level);
    lemma_listing_round_trip(created);
}

/// What making a listing and storing its first record shows: the
/// listing's bytes are known to be stored under its key, and no other
/// record changes.
pub proof fn lemma_made(
    c: ClientView,
    name: Seq<char>,
    type_tag: u64,
    user_metadata: Seq<u8>,
    versioned: bool,
    access_level: AccessLevel,
    parent_dir_key: Option<(Seq<u8>, u64)>,
)
    requires
        consistent(c.transcript),
        fits_memory(c.transcript),
        type_tag == listing_tag(versioned),
        c.make(name, type_tag, user_metadata, versioned, access_level, parent_dir_key).0 is Ok,
    ensures
        ({
            let (r, c2) = c.make(
                name,
                type_tag,
                user_metadata,
                versioned,
                access_level,
                parent_dir_key,
            );
            let directory = r.unwrap().0;
            let before = known(c.transcript, c.cursor);
            let after = known(c.transcript, c2.cursor);
            let key = (type_tag, directory.info.id);
            &&& c2.transcript == c.transcript
            &&& 0 <= c.cursor < c2.cursor <= c.transcript.len()
            &&& directory.info.name == name
            &&& directory.info.type_tag == type_tag
            &&& directory.info.versioned == versioned
            &&& directory.info.access_level == access_level
            &&& directory.info.parent_dir_key == parent_dir_key
            &&& directory.sub_directories.len() == 0
            &&& directory.files.len() == 0
            &&& after.records.contains_key(key)
            &&& after.records == before.records.insert(key, after.records[key])
            &&& versioned ==> decoded_versions(after.records[key].payload) is Some
                && decoded_versions(after.records[key].payload).unwrap().len() == 1
            &&& after.user_root == before.user_root
            &&& after.configuration_root == before.configuration_root
            &&& after.stored_plain(directory.info.id, type_tag, versioned, access_level) == Some(
                DirectoryListing::enc(directory),
            )
        }),
{
    reveal(ClientView::make);
    lemma_asked(c);
    let (i, c1) = c.fresh_name();
    lemma_asked(c1);
    let (n, c2) = c1.clock();
    let directory = DirectoryListingView::created(
        i->Ok_0,
        name,
        type_tag,
        user_metadata,
        versioned,
        access_level,
        parent_dir_key,
        n->Ok_0,
    );
    lemma_saved(c2, directory);
    let (rec, c3) = c2.save_directory_listing(directory);
    lemma_stored_record(c3, rec->Ok_0, false);
}

/// After an item was put into a list, it is in the list, every other
/// place holds what it held, and the list is as long as before or one
/// longer.
pub proof fn lemma_upserted<T>(s: Seq<T>, p: spec_fn(T) -> bool, x: T)
    ensures
        match position(s, p) {
            Some(i) => upserted(s, p, x) == s.update(i, x) && 0 <= i < s.len() && p(s[i])
                && forall|j: int| 0 <= j < i ==> !p(#[trigger] s[j]),
            None => upserted(s, p, x) == s.push(x) && forall|j: int|
                0 <= j < s.len() ==> !p(#[trigger] s[j]),
        },
{
    lemma_position(s, p);
}

/// Where an accepted description ends up: in exactly one place of the
/// listing, which is the first place that holds its identifier. No other
/// place holds its identifier or its name, every other place holds what it
/// held, and the listing still has no two entries of one name.
pub proof fn lemma_upsert_places(listing: DirectoryListingView, info: DirectoryInfoView, now: Timestamp) -> (i:
    int)
    requires
        listing.wf(),
        listing.refusal(info) is None,
    ensures
        ({
            let after = listing.with_sub_directory(info, now);
            &&& after.wf()
            &&& 0 <= i < after.sub_directories.len()
            &&& after.sub_directories[i] == info
            &&& position(after.sub_directories, directory_with_id(info.id)) == Some(i)
            &&& forall|j: int|
                0 <= j < after.sub_directories.len() && j != i ==> (
                #[trigger] after.sub_directories[j]).id != info.id && after.sub_directories[j].name
                    != info.name
            &&& if position(listing.sub_directories, directory_with_id(info.id)) is Some {
                after.sub_directories.len() == listing.sub_directories.len()
            } else {
                after.sub_directories.len() == listing.sub_directories.len() + 1
            }
        }),
{
    let subs = listing.sub_directories;
    let by_id = directory_with_id(info.id);
    lemma_upserted(subs, by_id, info);
    let after = listing.with_sub_directory(info, now);
    let s1 = after.sub_directories;
    let i = match position(subs, by_id) {
        Some(i) => i,
        None => subs.len() as int,
    };
    assert(s1[i] == info);
    assert forall|j: int| 0 <= j < s1.len() && j != i implies (#[trigger] s1[j]).id != info.id
        && s1[j].name != info.name by {
        assert(s1[j] == subs[j]);
        if position(subs, by_id) is Some {
            if j < i {
                assert(subs[j].id != subs[i].id);
            } else {
                assert(subs[i].id != subs[j].id);
            }
        } else {
            assert(!by_id(subs[j]));
        }
        if subs[j].name == info.name {
            assert(listing.name_taken(info));
        }
    }
    assert(by_id(s1[i]));
    lemma_position_some(s1, by_id, i);
    assert forall|a: int, b: int| 0 <= a < b < s1.len() implies (#[trigger] s1[a]).name != (
    #[trigger] s1[b]).name && s1[a].id != s1[b].id by {
        if a != i && b != i {
            assert(s1[a] == subs[a] && s1[b] == subs[b]);
        }
    }
    assert forall|a: int, b: int| 0 <= a < b < after.files.len() implies (
    #[trigger] after.files[a]).metadata.name != (#[trigger] after.files[b]).metadata.name by {
        assert(after.files[a] == listing.files[a] && after.files[b] == listing.files[b]);
    }
    i
}

/// Putting a sub-directory in twice leaves it once: after two upserts of
/// descriptions with the same identifier and name, of which the first is
/// accepted, the second is accepted too, and the listing holds exactly one
/// sub-directory of that name: the later description.
pub proof fn law_upsert_twice_leaves_one(
    listing: DirectoryListingView,
    first: DirectoryInfoView,
    second: DirectoryInfoView,
    t1: Timestamp,
    t2: Timestamp,
)
    requires
        listing.wf(),
        first.id == second.id,
        first.name == second.name,
        listing.refusal(first) is None,
    ensures
        ({
            let once = listing.with_sub_directory(first, t1);
            let twice = once.with_sub_directory(second, t2);
            &&& once.refusal(second) is None
            &&& twice.wf()
            &&& twice.sub_directories.len() == once.sub_directories.len()
            &&& exists|i: int|
                0 <= i < twice.sub_directories.len() && twice.sub_directories[i] == second
                    && forall|j: int|
                    0 <= j < twice.sub_directories.len() && (
                    #[trigger] twice.sub_directories[j]).name == second.name ==> j == i
        }),
{
    let i = lemma_upsert_places(listing, first, t1);
    let once = listing.with_sub_directory(first, t1);
    assert(!once.name_taken(second));
    let k = lemma_upsert_places(once, second, t2);
    let twice = once.with_sub_directory(second, t2);
    assert(twice.sub_directories[k] == second);
}

/// A created directory is linked with its parent: after a directory was
/// created under a parent, the parent holds a sub-directory of its name,
/// and the directory names the parent's key as that of its parent.
pub proof fn law_created_is_linked(
    c: ClientView,
    name: Seq<char>,
    type_tag: u64,
    user_metadata: Seq<u8>,
    versioned: bool,
    access_level: AccessLevel,
    parent: DirectoryListingView,
)
    requires
        c.create(name, type_tag, user_metadata, versioned, access_level, Some(parent)).result is Ok,
    ensures
        ({
            let made = c.create(
                name,
                type_tag,
                user_metadata,
                versioned,
                access_level,
                Some(parent),
            );
            &&& made.parent is Some
            &&& made.parent.unwrap().find_sub_directory(name) is Some
            &&& made.result.unwrap().info.parent_dir_key == Some(parent.key())
            &&& made.result.unwrap().info.name == name
        }),
{
    reveal(ClientView::create);
    reveal(ClientView::make);
    let made = c.create(name, type_tag, user_metadata, versioned, access_level, Some(parent));
    let directory = made.result.unwrap();
    let entered = made.parent.unwrap();
    let by_id = directory_with_id(directory.info.id);
    lemma_upserted(parent.sub_directories, by_id, directory.info);
    let i = match position(parent.sub_directories, by_id) {
        Some(i) => i,
        None => parent.sub_directories.len() as int,
    };
    assert(entered.sub_directories[i] == directory.info);
    assert(directory_named(name)(entered.sub_directories[i]));
    lemma_first_exists(entered.sub_directories, directory_named(name), i);
    lemma_position(entered.sub_directories, directory_named(name));
}

/// A deleted file is gone: in a listing without two files of one name,
/// once the first file of a name has left, the listing holds no file of
/// that name.
pub proof fn law_deleted_file_is_gone(listing: DirectoryListingView, name: Seq<char>)
    requires
        listing.wf(),
        position(listing.files, file_named(name)) is Some,
    ensures
        listing.without_file(position(listing.files, file_named(name)).unwrap()).find_file(name)
            is None,
        listing.without_file(position(listing.files, file_named(name)).unwrap()).files.len() + 1
            == listing.files.len(),
{
    let by_name = file_named(name);
    lemma_position(listing.files, by_name);
    let i = position(listing.files, by_name).unwrap();
    let left = listing.without_file(i).files;
    assert forall|j: int| 0 <= j < left.len() implies !by_name(#[trigger] left[j]) by {
        if j < i {
            assert(left[j] == listing.files[j]);
        } else {
            assert(left[j] == listing.files[j + 1]);
            assert(listing.files[i].metadata.name != listing.files[j + 1].metadata.name);
        }
    }
    crate::directory_listing::lemma_position_none(left, by_name);
}

/// Changing a file's user metadata changes nothing else of the file but
/// its time of modification: where the listing's key carries the type tag
/// that goes with its kind, the listing that is stored and returned holds
/// the file under its name with the new user metadata, and with the data
/// map, the size and the time of creation that the file had.
pub proof fn law_metadata_update_keeps_content(
    c: ClientView,
    file: FileView,
    user_metadata: Seq<u8>,
    listing: DirectoryListingView,
    stored: DirectoryListingView,
)
    requires
        consistent(c.transcript),
        fits_memory(c.transcript),
        listing.info.type_tag == listing_tag(listing.info.versioned),
        c.update_metadata(file, user_metadata, listing).0 == Ok::<DirectoryListingView, NfsError>(
            stored,
        ),
        c.clock().0 is Ok ==> DirectoryListing::fits(
            listing.with_file(
                with_user_metadata(file, user_metadata, c.clock().0.unwrap()),
                c.clock().0.unwrap(),
            ),
        ),
    ensures
        stored.find_file(file.metadata.name) is Some,
        stored.find_file(file.metadata.name).unwrap().datamap == file.datamap,
        stored.find_file(file.metadata.name).unwrap().metadata.user_metadata == user_metadata,
        stored.find_file(file.metadata.name).unwrap().metadata.name == file.metadata.name,
        stored.find_file(file.metadata.name).unwrap().metadata.size == file.metadata.size,
        stored.find_file(file.metadata.name).unwrap().metadata.created_time
            == file.metadata.created_time,
        stored.sub_directories == listing.sub_directories,
        stored.files.len() == listing.files.len(),
{
    reveal(ClientView::update_metadata);
    lemma_asked(c);
    let (n, c1) = c.clock();
    let now = n.unwrap();
    let changed = with_user_metadata(file, user_metadata, now);
    let entered = listing.with_file(changed, now);
    lemma_updated(c1, entered);
    lemma_listing_round_trip(entered);
    let by_name = file_named(file.metadata.name);
    lemma_upserted(listing.files, by_name, changed);
    lemma_position(listing.files, by_name);
    let i = position(listing.files, by_name).unwrap();
    assert(entered.files[i] == changed);
    assert forall|j: int| 0 <= j < i implies !by_name(#[trigger] entered.files[j]) by {
        assert(entered.files[j] == listing.files[j]);
    }
    lemma_position_some(entered.files, by_name, i);
}

/// Chunks that were stored are known from then on, each under the name it
/// was given.
pub proof fn lemma_stored_chunks(c: ClientView, chunks: Seq<Seq<u8>>)
    requires
        consistent(c.transcript),
        c.store_chunks(chunks).0 is Ok,
    ensures
        ({
            let (r, c2) = c.store_chunks(chunks);
            let names = r.unwrap();
            let after = known(c.transcript, c2.cursor);
            &&& c2.transcript == c.transcript
            &&& chunks.len() == 0 ==> c2 == c
            &&& chunks.len() > 0 ==> 0 <= c.cursor < c2.cursor <= c.transcript.len()
            &&& names.len() == chunks.len()
            &&& forall|i: int|
                0 <= i < chunks.len() ==> after.blobs.contains_key(#[trigger] names[i])
                    && after.blobs[names[i]] == chunks[i]
        }),
    decreases chunks.len(),
{
    if chunks.len() > 0 {
        let t = c.transcript;
        lemma_stored_blob(c, chunks[0]);
        let (n, c1) = c.save_as_immutable_data(chunks[0]);
        let rest = chunks.drop_first();
        lemma_stored_chunks(c1, rest);
        let (r, c2) = c1.store_chunks(rest);
        let names = c.store_chunks(chunks).0.unwrap();
        assert(names =~= seq![n.unwrap()] + r.unwrap());
        lemma_known_persists(t, c1.cursor, c2.cursor);
        assert forall|i: int| 0 <= i < chunks.len() implies known(t, c2.cursor).blobs.contains_key(
            #[trigger] names[i],
        ) && known(t, c2.cursor).blobs[names[i]] == chunks[i] by {
            if i > 0 {
                assert(names[i] == r.unwrap()[i - 1]);
                assert(chunks[i] == rest[i - 1]);
            } else {
                assert(known(t, c1.cursor).blobs.contains_key(names[0]));
            }
        }
    }
}

/// Chunks that are fetched are the chunks that were known under their
/// names.
pub proof fn lemma_fetched_chunks(c: ClientView, names: Seq<Seq<u8>>)
    requires
        consistent(c.transcript),
        0 <= c.cursor,
        c.fetch_chunks(names).0 is Ok,
    ensures
        ({
            let (r, c2) = c.fetch_chunks(names);
            let chunks = r.unwrap();
            let before = known(c.transcript, c.cursor);
            &&& c2.transcript == c.transcript
            &&& c.cursor <= c2.cursor
            &&& names.len() > 0 ==> c2.cursor <= c.transcript.len()
            &&& chunks.len() == names.len()
            &&& forall|i: int|
                0 <= i < names.len() && before.blobs.contains_key(#[trigger] names[i])
                    ==> chunks[i] == before.blobs[names[i]]
        }),
    decreases names.len(),
{
    if names.len() > 0 {
        let t = c.transcript;
        lemma_fetched_blob(c, names[0]);
        let (b, c1) = c.get_immutable_data(names[0]);
        let rest = names.drop_first();
        lemma_fetched_chunks(c1, rest);
        let (r, c2) = c1.fetch_chunks(rest);
        let chunks = c.fetch_chunks(names).0.unwrap();
        assert(chunks =~= seq![b.unwrap()] + r.unwrap());
        lemma_known_persists(t, c.cursor, c1.cursor);
        assert forall|i: int|
            0 <= i < names.len() && known(t, c.cursor).blobs.contains_key(
                #[trigger] names[i],
            ) implies chunks[i] == known(t, c.cursor).blobs[names[i]] by {
            if i > 0 {
                assert(names[i] == rest[i - 1]);
                assert(chunks[i] == r.unwrap()[i - 1]);
            }
        }
    }
}

/// Storing a content leaves the transcript as it is.
pub proof fn lemma_store_keeps_transcript(c: ClientView, content: Seq<u8>)
    ensures
        c.store(content).1.transcript == c.transcript,
{
    reveal(ClientView::store);
    reveal(ClientView::store_encrypted);
    if content.len() > 0 && self_encrypted(content) is Some {
        lemma_store_chunks_keeps_transcript(c, self_encrypted(content).unwrap().chunks);
    }
}

/// Storing chunks leaves the transcript as it is.
pub proof fn lemma_store_chunks_keeps_transcript(c: ClientView, chunks: Seq<Seq<u8>>)
    ensures
        c.store_chunks(chunks).1.transcript == c.transcript,
    decreases chunks.len(),
{
    if chunks.len() > 0 {
        let c1 = c.save_as_immutable_data(chunks[0]).1;
        lemma_store_chunks_keeps_transcript(c1, chunks.drop_first());
    }
}

/// Fetching chunks leaves the transcript as it is.
pub proof fn lemma_fetch_chunks_keeps_transcript(c: ClientView, names: Seq<Seq<u8>>)
    ensures
        c.fetch_chunks(names).1.transcript == c.transcript,
    decreases names.len(),
{
    if names.len() > 0 {
        let c1 = c.get_immutable_data(names[0]).1;
        lemma_fetch_chunks_keeps_transcript(c1, names.drop_first());
    }
}

/// Recovering a file's content leaves the transcript as it is.
pub proof fn lemma_content_keeps_transcript(c: ClientView, file: FileView)
    ensures
        c.content(file).1.transcript == c.transcript,
{
    reveal(ClientView::content);
    match file.datamap {
        DataMapView::Chunks(map) => {
            lemma_fetch_chunks_keeps_transcript(c, map.stored);
        },
        _ => {},
    }
}

/// The first write into nothing is the content: a write at the start,
/// made over an empty content, gives the bytes written.
pub proof fn law_one_write_from_the_start_is_the_content(bytes: Seq<u8>)
    ensures
        crate::helper::writer::patched(
            Seq::empty(),
            seq![crate::helper::writer::PatchView { position: 0, data: bytes }],
        ) == bytes,
{
    let one = seq![crate::helper::writer::PatchView { position: 0, data: bytes }];
    assert(one.drop_last() =~= Seq::<crate::helper::writer::PatchView>::empty());
    assert(crate::helper::writer::patched(Seq::empty(), one.drop_last()) == Seq::<u8>::empty());
    assert(crate::helper::writer::written(Seq::empty(), 0, bytes) =~= bytes);
}

/// Whether `file` holds what storing `bytes` gave at a point of the
/// transcript that `later` has gone past, on a consistent transcript.
pub open spec fn written_before(
    before: ClientView,
    later: ClientView,
    file: FileView,
    bytes: Seq<u8>,
) -> bool {
    &&& consistent(later.transcript)
    &&& before.transcript == later.transcript
    &&& before.store(bytes).0 == Ok::<DataMapView, NfsError>(file.datamap)
    &&& before.store(bytes).1.cursor <= later.cursor
    &&& 0 <= later.cursor
    &&& file.metadata.size == bytes.len()
}

/// The chunks that are fetched for a file are the chunks that were stored
/// for it: where a content was encrypted into chunks and stored, the
/// file's data map holds the keys and the names that storing gave, and
/// fetching under those names gives the chunks.
pub proof fn lemma_fetched_what_was_stored(
    before: ClientView,
    later: ClientView,
    file: FileView,
    bytes: Seq<u8>,
)
    requires
        written_before(before, later, file, bytes),
        bytes.len() > 0,
        self_encrypted(bytes) is Some,
        shrunk_at_most_once(self_encrypted(bytes).unwrap().level),
        file.datamap matches DataMapView::Chunks(map) ==> later.fetch_chunks(map.stored).0 is Ok,
    ensures
        file.datamap matches DataMapView::Chunks(map) && map.keys == self_encrypted(
            bytes,
        ).unwrap().keys && map.level == self_encrypted(bytes).unwrap().level
            && later.fetch_chunks(map.stored).0 == Ok::<Seq<Seq<u8>>, NfsError>(
            self_encrypted(bytes).unwrap().chunks,
        ),
{
    reveal(ClientView::store);
    reveal(ClientView::store_encrypted);
    let t = before.transcript;
    let e = self_encrypted(bytes).unwrap();
    lemma_stored_chunks(before, e.chunks);
    let (n, c1) = before.store_chunks(e.chunks);
    let names = n.unwrap();
    lemma_fetched_chunks(later, names);
    let fetched = later.fetch_chunks(names).0.unwrap();
    if e.chunks.len() > 0 {
        lemma_known_persists(t, c1.cursor, later.cursor);
    }
    assert forall|i: int| 0 <= i < e.chunks.len() implies fetched[i] == e.chunks[i] by {
        assert(known(t, c1.cursor).blobs.contains_key(names[i]));
        assert(known(t, later.cursor).blobs.contains_key(names[i]));
    }
    assert(fetched =~= e.chunks);
}

/// What reading a whole file gives where the file holds what storing
/// `bytes` gave: `bytes`, provided that decrypting recovers `bytes` from
/// the chunks they were encrypted into. `Reader::read` has that from the
/// chunking crate and states the law without the proviso.
pub proof fn lemma_read_after_write(
    before: ClientView,
    later: ClientView,
    file: FileView,
    bytes: Seq<u8>,
)
    requires
        written_before(before, later, file, bytes),
        later.read_whole(file, 0, bytes.len() as u64).0 is Ok,
    ensures
        (bytes.len() > 0 ==> (self_encrypted(bytes) matches Some(e) ==> recovers(
            e.keys,
            e.level,
            e.chunks,
            bytes,
        ))) ==> later.read_whole(file, 0, bytes.len() as u64).0 == Ok::<
            Seq<u8>,
            NfsError,
        >(bytes),
{
    reveal(ClientView::store);
    reveal(ClientView::store_encrypted);
    reveal(ClientView::read_whole);
    reveal(ClientView::content);
    let length = bytes.len() as u64;
    assert(bytes.subrange(0u64 as int, 0u64 + length) =~= bytes);
    assert(crate::helper::reader::cut(bytes, 0, length) == Ok::<Seq<u8>, NfsError>(bytes));
    if bytes.len() > 0 {
        match self_encrypted(bytes) {
            None => {},
            Some(e) => {
                if shrunk_at_most_once(e.level) && recovers(e.keys, e.level, e.chunks, bytes) {
                    lemma_fetched_what_was_stored(before, later, file, bytes);
                    assert(later.content(file).0 == Ok::<Seq<u8>, NfsError>(bytes));
                }
            },
        }
    } else {
        assert(bytes =~= Seq::<u8>::empty());
        assert(later.content(file).0 == Ok::<Seq<u8>, NfsError>(bytes));
    }
}

/// A committed file is found: the listing that closing a writer stores
/// holds, under the file's name, the file with the size of the content,
/// the time of closing and the data map that storing the content gave.
pub proof fn law_closed_file_is_found(
    c: ClientView,
    listing: DirectoryListingView,
    file: FileView,
    content: Seq<u8>,
)
    ensures
        ({
            let stored = c.store(content);
            let now = stored.1.clock().0.unwrap();
            let found = c.closing(listing, file, content).find_file(file.metadata.name);
            &&& found == Some(
                crate::helper::writer::committed(file, content.len(), stored.0.unwrap(), now),
            )
            &&& found.unwrap().datamap == stored.0.unwrap()
            &&& found.unwrap().metadata.size == content.len() as u64
        }),
{
    let stored = c.store(content);
    let now = stored.1.clock().0.unwrap();
    let changed = crate::helper::writer::committed(file, content.len(), stored.0.unwrap(), now);
    let by_name = file_named(file.metadata.name);
    lemma_upserted(listing.files, by_name, changed);
    let entered = listing.with_file(changed, now);
    let i = match position(listing.files, by_name) {
        Some(i) => i,
        None => listing.files.len() as int,
    };
    assert(entered.files[i] == changed);
    assert forall|j: int| 0 <= j < i implies !by_name(#[trigger] entered.files[j]) by {
        assert(entered.files[j] == listing.files[j]);
    }
    lemma_position_some(entered.files, by_name, i);
}

/// An update returns what it stored: where a listing's key carries the
/// type tag that goes with its kind, the listing that an update returns is
/// the listing that was handed to it.
pub proof fn law_update_returns_what_was_stored(c: ClientView, directory: DirectoryListingView)
    requires
        consistent(c.transcript),
        fits_memory(c.transcript),
        directory.info.type_tag == listing_tag(directory.info.versioned),
        DirectoryListing::fits(directory),
        c.update_directory_listing(directory).0 is Ok,
    ensures
        c.update_directory_listing(directory).0 == Ok::<DirectoryListingView, NfsError>(directory),
{
    lemma_updated(c, directory);
    lemma_listing_round_trip(directory);
}

/// The user's root listing is kept: once it was created and its
/// identifier handed to the session, fetching the user's root listing
/// gives the listing that was created.
pub proof fn law_user_root_is_kept(c: ClientView, later: ClientView, root: DirectoryListingView)
    requires
        consistent(c.transcript),
        fits_memory(c.transcript),
        c.root(RequestView::UserRoot).0 == Ok::<Option<Seq<u8>>, NfsError>(None),
        c.get_user_root_directory_listing().0 == Ok::<DirectoryListingView, NfsError>(root),
        DirectoryListing::fits(root),
        later == c.get_user_root_directory_listing().1,
        later.get_user_root_directory_listing().0 is Ok,
    ensures
        later.get_user_root_directory_listing().0 == Ok::<DirectoryListingView, NfsError>(root),
{
    reveal(ClientView::get_user_root_directory_listing);
    reveal(ClientView::create_root);
    reveal(ClientView::create);
    let t = c.transcript;
    let tag = UNVERSIONED_DIRECTORY_LISTING_TAG;
    lemma_answered(c, RequestView::UserRoot);
    let c1 = c.root(RequestView::UserRoot).1;
    lemma_made(c1, ROOT_DIRECTORY_NAME@, tag, Seq::empty(), false, AccessLevel::Private, None);
    let c2 = c1.make(ROOT_DIRECTORY_NAME@, tag, Seq::empty(), false, AccessLevel::Private, None).1;
    let keep = RequestView::SetUserRoot { id: root.info.id };
    lemma_answered(c2, keep);
    let c3 = c2.set_root(keep).1;
    assert(c3 == later);
    assert(known(t, c3.cursor).user_root == Some(Some(root.info.id)));
    lemma_answered(c3, RequestView::UserRoot);
    let c4 = c3.root(RequestView::UserRoot).1;
    lemma_stored_plain_persists(
        t,
        c2.cursor,
        c4.cursor,
        root.info.id,
        tag,
        false,
        AccessLevel::Private,
    );
    lemma_got(c4, root.info.id, tag, false, AccessLevel::Private);
    lemma_listing_round_trip(root);
}

/// What going through stored versions gives: no more states than there
/// are versions, each of the file of the given name, no two in a row with
/// one time of modification, and none at the front with the time of the
/// state taken last. Where no state was taken yet and the first version
/// holds the file, that file is the first state.
pub proof fn lemma_file_versions(
    c: ClientView,
    id: Seq<u8>,
    access_level: AccessLevel,
    name: Seq<char>,
    versions: Seq<Seq<u8>>,
    last: Option<Timestamp>,
)
    requires
        c.file_versions(id, access_level, name, versions, last).0 is Ok,
    ensures
        ({
            let states = c.file_versions(id, access_level, name, versions, last).0.unwrap();
            &&& states.len() <= versions.len()
            &&& states.len() > 0 ==> last != Some(states[0].metadata.modified_time)
            &&& forall|i: int|
                0 <= i < states.len() ==> (#[trigger] states[i]).metadata.name == name
            &&& forall|i: int|
                0 <= i < states.len() - 1 ==> (#[trigger] states[i]).metadata.modified_time
                    != states[i + 1].metadata.modified_time
            &&& last is None && versions.len() > 0 && c.get_by_version(
                id,
                access_level,
                versions[0],
            ).0.unwrap().find_file(name) is Some ==> states.len() > 0 && states[0]
                == c.get_by_version(id, access_level, versions[0]).0.unwrap().find_file(
                name,
            ).unwrap()
        }),
    decreases versions.len(),
{
    if versions.len() > 0 {
        let (l, c1) = c.get_by_version(id, access_level, versions[0]);
        let listing = l.unwrap();
        let rest = versions.drop_first();
        lemma_position(listing.files, file_named(name));
        let states = c.file_versions(id, access_level, name, versions, last).0.unwrap();
        match listing.find_file(name) {
            Some(file) => {
                if last != Some(file.metadata.modified_time) {
                    let next = Some(file.metadata.modified_time);
                    lemma_file_versions(c1, id, access_level, name, rest, next);
                    let tail = c1.file_versions(id, access_level, name, rest, next).0.unwrap();
                    assert(states =~= seq![file] + tail);
                    assert forall|i: int| 0 <= i < states.len() implies (
                    #[trigger] states[i]).metadata.name == name by {
                        if i > 0 {
                            assert(states[i] == tail[i - 1]);
                        }
                    }
                    assert forall|i: int| 0 <= i < states.len() - 1 implies (
                    #[trigger] states[i]).metadata.modified_time
                        != states[i + 1].metadata.modified_time by {
                        assert(states[i + 1] == tail[i]);
                        if i > 0 {
                            assert(states[i] == tail[i - 1]);
                        }
                    }
                } else {
                    lemma_file_versions(c1, id, access_level, name, rest, last);
                }
            },
            None => {
                lemma_file_versions(c1, id, access_level, name, rest, last);
            },
        }
    }
}

/// The history of a file shows each change once: it holds no more states
/// than the listing has versions, each is a state of the file of that
/// name, and no two states in a row carry one time of modification.
pub proof fn law_file_history_shows_each_change_once(
    c: ClientView,
    file: FileView,
    listing: DirectoryListingView,
)
    requires
        c.get_file_versions(file, listing).0 is Ok,
    ensures
        ({
            let states = c.get_file_versions(file, listing).0.unwrap();
            let chain = c.get_versions(listing.info.id, listing.info.type_tag).0.unwrap();
            &&& c.get_versions(listing.info.id, listing.info.type_tag).0 is Ok
            &&& states.len() <= chain.len()
            &&& forall|i: int|
                0 <= i < states.len() ==> (#[trigger] states[i]).metadata.name
                    == file.metadata.name
            &&& forall|i: int|
                0 <= i < states.len() - 1 ==> (#[trigger] states[i]).metadata.modified_time
                    != states[i + 1].metadata.modified_time
        }),
{
    reveal(ClientView::get_file_versions);
    let (v, c1) = c.get_versions(listing.info.id, listing.info.type_tag);
    lemma_file_versions(
        c1,
        listing.info.id,
        listing.info.access_level,
        file.metadata.name,
        v.unwrap(),
        None,
    );
}

/// The history of a file begins with the first state found: where the
/// oldest version of the listing holds the file, that state is the first
/// of the history, whatever its time of modification.
pub proof fn law_file_history_begins_with_the_first_state(
    c: ClientView,
    file: FileView,
    listing: DirectoryListingView,
)
    requires
        c.get_file_versions(file, listing).0 is Ok,
        c.get_versions(listing.info.id, listing.info.type_tag).0.unwrap().len() > 0,
        c.get_versions(listing.info.id, listing.info.type_tag).1.get_by_version(
            listing.info.id,
            listing.info.access_level,
            c.get_versions(listing.info.id, listing.info.type_tag).0.unwrap()[0],
        ).0.unwrap().find_file(file.metadata.name) is Some,
    ensures
        c.get_file_versions(file, listing).0.unwrap().len() > 0,
        c.get_file_versions(file, listing).0.unwrap()[0] == c.get_versions(
            listing.info.id,
            listing.info.type_tag,
        ).1.get_by_version(
            listing.info.id,
            listing.info.access_level,
            c.get_versions(listing.info.id, listing.info.type_tag).0.unwrap()[0],
        ).0.unwrap().find_file(file.metadata.name).unwrap(),
{
    reveal(ClientView::get_file_versions);
    let (v, c1) = c.get_versions(listing.info.id, listing.info.type_tag);
    lemma_file_versions(
        c1,
        listing.info.id,
        listing.info.access_level,
        file.metadata.name,
        v.unwrap(),
        None,
    );
}

/// On the way to entering a listing in its parent, the transcript is the
/// same when the parent is stored.
pub proof fn lemma_parent_fetched(c: ClientView, directory: DirectoryListingView)
    requires
        consistent(c.transcript),
        fits_memory(c.transcript),
        directory.info.type_tag == listing_tag(directory.info.versioned),
        directory.info.parent_dir_key is Some,
        c.update_directory_listing(directory).0 is Ok,
        c.update_directory_listing(directory).1.get(
            directory.info.parent_dir_key.unwrap().0,
            directory.info.parent_dir_key.unwrap().1,
            directory.info.parent_dir_key.unwrap().1 == VERSIONED_DIRECTORY_LISTING_TAG,
            directory.info.access_level,
        ).0 is Ok,
        c.update_directory_listing(directory).1.get(
            directory.info.parent_dir_key.unwrap().0,
            directory.info.parent_dir_key.unwrap().1,
            directory.info.parent_dir_key.unwrap().1 == VERSIONED_DIRECTORY_LISTING_TAG,
            directory.info.access_level,
        ).1.clock().0 is Ok,
    ensures
        ({
            let key = directory.info.parent_dir_key.unwrap();
            let fetched = c.update_directory_listing(directory).1.get(
                key.0,
                key.1,
                key.1 == VERSIONED_DIRECTORY_LISTING_TAG,
                directory.info.access_level,
            );
            fetched.1.clock().1.transcript == c.transcript
        }),
{
    let key = directory.info.parent_dir_key.unwrap();
    let versioned = key.1 == VERSIONED_DIRECTORY_LISTING_TAG;
    lemma_updated(c, directory);
    let c1 = c.update_directory_listing(directory).1;
    lemma_got(c1, key.0, key.1, versioned, directory.info.access_level);
    let c2 = c1.get(key.0, key.1, versioned, directory.info.access_level).1;
    lemma_asked(c2);
}

/// A listing is entered in its parent once: where storing a listing and
/// entering it in its parent came to an end, the parent that is returned
/// is the parent that was fetched with the listing's description put in.
/// It holds the description in one place, and no other entry of the
/// listing's name or identifier.
pub proof fn lemma_entered_once(c: ClientView, directory: DirectoryListingView)
    requires
        consistent(c.transcript),
        fits_memory(c.transcript),
        directory.info.type_tag == listing_tag(directory.info.versioned),
        directory.info.parent_dir_key is Some,
        is_listing_tag(directory.info.parent_dir_key.unwrap().1),
        c.update_directory_listing_and_parent(directory).0 is Ok,
        DirectoryListing::fits(c.entering(directory)),
    ensures
        c.update_directory_listing_and_parent(directory).0 == Ok::<
            Option<DirectoryListingView>,
            NfsError,
        >(Some(c.entering(directory))),
        c.entering(directory).wf(),
        holds_once(c.entering(directory), directory.info),
{
    reveal(ClientView::update_directory_listing_and_parent);
    let key = directory.info.parent_dir_key.unwrap();
    let versioned = key.1 == VERSIONED_DIRECTORY_LISTING_TAG;
    let c1 = c.update_directory_listing(directory).1;
    let (p, c2) = c1.get(key.0, key.1, versioned, directory.info.access_level);
    let parent = p.unwrap();
    let (n, c3) = c2.clock();
    let now = n.unwrap();
    lemma_parent_fetched(c, directory);
    let entered = parent.with_sub_directory(directory.info, now);
    law_update_returns_what_was_stored(c3, entered);
    lemma_holds_once(parent, directory.info, now);
}

/// After an accepted description was put into a listing without two
/// entries of one name, the listing holds it once and still has no two
/// entries of one name.
pub proof fn lemma_holds_once(listing: DirectoryListingView, info: DirectoryInfoView, now: Timestamp)
    requires
        listing.wf(),
        listing.refusal(info) is None,
    ensures
        listing.with_sub_directory(info, now).wf(),
        holds_once(listing.with_sub_directory(info, now), info),
{
    let i = lemma_upsert_places(listing, info, now);
    assert(holds_at(listing.with_sub_directory(info, now), info, i));
}

/// Fetching a listing that keeps history is fetching its newest version:
/// where the record lists at least one version, the result is what
/// fetching the version listed last gives.
pub proof fn law_get_is_the_newest_version(
    c: ClientView,
    id: Seq<u8>,
    type_tag: u64,
    access_level: AccessLevel,
)
    requires
        c.get_structured_data(id, type_tag).0 is Ok,
        versions_of(c.get_structured_data(id, type_tag).0.unwrap().payload) is Ok,
        versions_of(c.get_structured_data(id, type_tag).0.unwrap().payload).unwrap().len() > 0,
    ensures
        c.get(id, type_tag, true, access_level) == c.get_structured_data(id, type_tag).1.get_by_version(
            id,
            access_level,
            versions_of(c.get_structured_data(id, type_tag).0.unwrap().payload).unwrap().last(),
        ),
{
    reveal(ClientView::get);
}

/// A created listing is what lies under its key: it carries the key it
/// was created under, is of the kind and access level asked for, and has
/// no two entries of one name.
pub proof fn law_created_describes_its_key(
    c: ClientView,
    name: Seq<char>,
    type_tag: u64,
    user_metadata: Seq<u8>,
    versioned: bool,
    access_level: AccessLevel,
    parent: Option<DirectoryListingView>,
)
    requires
        c.create(name, type_tag, user_metadata, versioned, access_level, parent).result is Ok,
    ensures
        describes(
            c.create(name, type_tag, user_metadata, versioned, access_level, parent).result.unwrap(),
            c.create(
                name,
                type_tag,
                user_metadata,
                versioned,
                access_level,
                parent,
            ).result.unwrap().info.id,
            type_tag,
            versioned,
            access_level,
        ),
{
    reveal(ClientView::create);
    reveal(ClientView::make);
}

/// A created listing has a key of its own: no record was known under its
/// identifier before it was created, under whatever type tag. So it
/// differs from its parent and from every listing created or fetched
/// before.
pub proof fn law_created_key_is_new(
    c: ClientView,
    name: Seq<char>,
    type_tag: u64,
    user_metadata: Seq<u8>,
    versioned: bool,
    access_level: AccessLevel,
    parent: Option<DirectoryListingView>,
)
    requires
        consistent(c.transcript),
        c.create(name, type_tag, user_metadata, versioned, access_level, parent).result is Ok,
    ensures
        forall|other: u64|
            !(#[trigger] known(c.transcript, c.cursor).records.contains_key(
                (
                    other,
                    c.create(
                        name,
                        type_tag,
                        user_metadata,
                        versioned,
                        access_level,
                        parent,
                    ).result.unwrap().info.id,
                ),
            )),
{
    reveal(ClientView::create);
    reveal(ClientView::make);
    lemma_answered(c, RequestView::FreshName);
}

/// The new root is handed to the session: once the user's root listing
/// was created, its identifier is the session's user root, and what is
/// known of the configuration root is as it was.
pub proof fn law_user_root_is_handed_over(c: ClientView, root: DirectoryListingView)
    requires
        consistent(c.transcript),
        fits_memory(c.transcript),
        c.root(RequestView::UserRoot).0 == Ok::<Option<Seq<u8>>, NfsError>(None),
        c.get_user_root_directory_listing().0 == Ok::<DirectoryListingView, NfsError>(root),
    ensures
        ({
            let later = c.get_user_root_directory_listing().1;
            &&& later.transcript == c.transcript
            &&& known(c.transcript, later.cursor).user_root == Some(Some(root.info.id))
            &&& known(c.transcript, later.cursor).configuration_root == known(
                c.transcript,
                c.cursor,
            ).configuration_root
            &&& later.cursor > 0
            &&& c.transcript[later.cursor - 1].request == (RequestView::SetUserRoot {
                id: root.info.id,
            })
        }),
{
    reveal(ClientView::get_user_root_directory_listing);
    reveal(ClientView::create_root);
    reveal(ClientView::create);
    let tag = UNVERSIONED_DIRECTORY_LISTING_TAG;
    lemma_answered(c, RequestView::UserRoot);
    let c1 = c.root(RequestView::UserRoot).1;
    lemma_made(c1, ROOT_DIRECTORY_NAME@, tag, Seq::empty(), false, AccessLevel::Private, None);
    let c2 = c1.make(ROOT_DIRECTORY_NAME@, tag, Seq::empty(), false, AccessLevel::Private, None).1;
    lemma_answered(c2, RequestView::SetUserRoot { id: root.info.id });
}

/// A root that could not be created is not handed over: where creating
/// the user's root listing failed, the session was asked for nothing
/// after the failure.
pub proof fn law_failed_root_is_not_handed_over(c: ClientView)
    requires
        c.root(RequestView::UserRoot).0 == Ok::<Option<Seq<u8>>, NfsError>(None),
        c.root(RequestView::UserRoot).1.create(
            ROOT_DIRECTORY_NAME@,
            UNVERSIONED_DIRECTORY_LISTING_TAG,
            Seq::empty(),
            false,
            AccessLevel::Private,
            None,
        ).result is Err,
    ensures
        c.get_user_root_directory_listing().0 is Err,
        c.get_user_root_directory_listing().1 == c.root(RequestView::UserRoot).1.create(
            ROOT_DIRECTORY_NAME@,
            UNVERSIONED_DIRECTORY_LISTING_TAG,
            Seq::empty(),
            false,
            AccessLevel::Private,
            None,
        ).client,
{
    reveal(ClientView::get_user_root_directory_listing);
    reveal(ClientView::create_root);
}

/// The newest version is what the update stored: after an update of a
/// listing that keeps history, the version that the record lists last is
/// fetched as the listing that was handed to the update.
pub proof fn law_newest_version_is_what_was_stored(
    c: ClientView,
    directory: DirectoryListingView,
    versions: Seq<Seq<u8>>,
)
    requires
        consistent(c.transcript),
        fits_memory(c.transcript),
        directory.info.versioned,
        directory.info.type_tag == listing_tag(true),
        DirectoryListing::fits(directory),
        c.update_directory_listing(directory).0 is Ok,
        c.update_directory_listing(directory).1.get_versions(
            directory.info.id,
            directory.info.type_tag,
        ).0 == Ok::<Seq<Seq<u8>>, NfsError>(versions),
        c.update_directory_listing(directory).1.get_versions(
            directory.info.id,
            directory.info.type_tag,
        ).1.get_by_version(directory.info.id, directory.info.access_level, versions.last()).0
            is Ok,
    ensures
        versions.len() > 0,
        c.update_directory_listing(directory).1.get_versions(
            directory.info.id,
            directory.info.type_tag,
        ).1.get_by_version(directory.info.id, directory.info.access_level, versions.last()).0
            == Ok::<DirectoryListingView, NfsError>(directory),
{
    reveal(ClientView::get_versions);
    let id = directory.info.id;
    let tag = directory.info.type_tag;
    lemma_updated(c, directory);
    let c1 = c.update_directory_listing(directory).1;
    lemma_fetched_record(c1, id, tag);
    let c2 = c1.get_versions(id, tag).1;
    assert(known(c.transcript, c2.cursor).records =~= known(c.transcript, c1.cursor).records);
    lemma_got_version(c2, id, directory.info.access_level, versions.last());
    lemma_listing_round_trip(directory);
}

/// The oldest version keeps the created state: a listing that keeps
/// history is created with one version, and that version is fetched as
/// the created listing ever after.
pub proof fn law_oldest_version_keeps_the_created_state(
    c: ClientView,
    later: ClientView,
    name: Seq<char>,
    user_metadata: Seq<u8>,
    access_level: AccessLevel,
    created: DirectoryListingView,
    versions: Seq<Seq<u8>>,
)
    requires
        consistent(c.transcript),
        fits_memory(c.transcript),
        c.create(name, listing_tag(true), user_metadata, true, access_level, None).result == Ok::<
            DirectoryListingView,
            NfsError,
        >(created),
        DirectoryListing::fits(created),
        c.create(
            name,
            listing_tag(true),
            user_metadata,
            true,
            access_level,
            None,
        ).client.get_versions(created.info.id, created.info.type_tag).0 == Ok::<
            Seq<Seq<u8>>,
            NfsError,
        >(versions),
        later.transcript == c.transcript,
        c.create(name, listing_tag(true), user_metadata, true, access_level, None).client.cursor
            <= later.cursor,
        later.get_by_version(created.info.id, access_level, versions[0]).0 is Ok,
    ensures
        versions.len() == 1,
        later.get_by_version(created.info.id, access_level, versions[0]).0 == Ok::<
            DirectoryListingView,
            NfsError,
        >(created),
{
    reveal(ClientView::create);
    reveal(ClientView::get_versions);
    let t = c.transcript;
    let tag = listing_tag(true);
    lemma_made(c, name, tag, user_metadata, true, access_level, None);
    let c1 = c.create(name, tag, user_metadata, true, access_level, None).client;
    lemma_fetched_record(c1, created.info.id, tag);
    assert(versions.last() == versions[0]);
    lemma_got_version(later, created.info.id, access_level, versions[0]);
    lemma_known_persists(t, c1.cursor, later.cursor);
    lemma_listing_round_trip(created);
}

/// A listing that holds a description once is found to hold it under the
/// description's name.
pub proof fn lemma_held_is_found(listing: DirectoryListingView, info: DirectoryInfoView)
    requires
        holds_once(listing, info),
    ensures
        listing.find_sub_directory(info.name) == Some(info),
{
    let i = choose|i: int| holds_at(listing, info, i);
    let by_name = directory_named(info.name);
    assert(by_name(listing.sub_directories[i]));
    assert forall|j: int| 0 <= j < i implies !by_name(#[trigger] listing.sub_directories[j]) by {}
    lemma_position_some(listing.sub_directories, by_name, i);
}

/// The stored parent holds the created directory: after a directory was
/// created under a parent that has no parent of its own and no two
/// entries of one name, the parent as it is fetched afterwards holds,
/// under the new name, the created listing's description, once.
pub proof fn law_created_is_entered_in_the_stored_parent(
    c: ClientView,
    name: Seq<char>,
    user_metadata: Seq<u8>,
    versioned: bool,
    access_level: AccessLevel,
    parent: DirectoryListingView,
    created: DirectoryListingView,
)
    requires
        consistent(c.transcript),
        fits_memory(c.transcript),
        parent.wf(),
        parent.info.parent_dir_key is None,
        parent.info.type_tag == listing_tag(parent.info.versioned),
        c.create(
            name,
            listing_tag(versioned),
            user_metadata,
            versioned,
            access_level,
            Some(parent),
        ).result == Ok::<DirectoryListingView, NfsError>(created),
        DirectoryListing::fits(
            c.create(
                name,
                listing_tag(versioned),
                user_metadata,
                versioned,
                access_level,
                Some(parent),
            ).parent.unwrap(),
        ),
        c.create(
            name,
            listing_tag(versioned),
            user_metadata,
            versioned,
            access_level,
            Some(parent),
        ).client.get(
            parent.info.id,
            parent.info.type_tag,
            parent.info.versioned,
            parent.info.access_level,
        ).0 is Ok,
    ensures
        ({
            let made = c.create(
                name,
                listing_tag(versioned),
                user_metadata,
                versioned,
                access_level,
                Some(parent),
            );
            let fetched = made.client.get(
                parent.info.id,
                parent.info.type_tag,
                parent.info.versioned,
                parent.info.access_level,
            ).0;
            &&& fetched == Ok::<DirectoryListingView, NfsError>(made.parent.unwrap())
            &&& fetched.unwrap().find_sub_directory(name) == Some(created.info)
            &&& holds_once(fetched.unwrap(), created.info)
            &&& fetched.unwrap().wf()
        }),
{
    reveal(ClientView::create);
    reveal(ClientView::update_directory_listing_and_parent);
    let tag = listing_tag(versioned);
    lemma_made(c, name, tag, user_metadata, versioned, access_level, Some(parent.key()));
    let (m, c1) = c.make(name, tag, user_metadata, versioned, access_level, Some(parent.key()));
    let now = m.unwrap().1;
    let entered = parent.with_sub_directory(created.info, now);
    lemma_position(parent.sub_directories, directory_named(name));
    assert(!parent.name_taken(created.info));
    lemma_holds_once(parent, created.info, now);
    lemma_held_is_found(entered, created.info);
    lemma_updated(c1, entered);
    let c2 = c1.update_directory_listing(entered).1;
    lemma_got(
        c2,
        parent.info.id,
        parent.info.type_tag,
        parent.info.versioned,
        parent.info.access_level,
    );
    lemma_listing_round_trip(entered);
}

/// The client after the configuration root was created and handed to the
/// session, for a session that had none.
pub open spec fn configured(c: ClientView) -> ClientView {
    c.get_configuration_root().1
}

/// The configuration root as it was created, for a session that had none.
pub open spec fn configuration_root_of(c: ClientView) -> DirectoryListingView {
    c.get_configuration_root().0.unwrap()
}

/// What creating the configuration root shows and leaves, for a session
/// that had none: an empty listing without a parent, stored under its key
/// and known to the session as its configuration root.
pub proof fn lemma_configuration_root_made(c: ClientView)
    requires
        consistent(c.transcript),
        fits_memory(c.transcript),
        c.root(RequestView::ConfigurationRoot).0 == Ok::<Option<Seq<u8>>, NfsError>(None),
        c.get_configuration_root().0 is Ok,
    ensures
        ({
            let root = configuration_root_of(c);
            let after = known(c.transcript, configured(c).cursor);
            let tag = UNVERSIONED_DIRECTORY_LISTING_TAG;
            &&& configured(c).transcript == c.transcript
            &&& 0 <= configured(c).cursor <= c.transcript.len()
            &&& root.sub_directories.len() == 0
            &&& root.files.len() == 0
            &&& root.info.parent_dir_key is None
            &&& root.info.type_tag == tag
            &&& !root.info.versioned
            &&& root.info.access_level == AccessLevel::Private
            &&& after.configuration_root == Some(Some(root.info.id))
            &&& after.records.contains_key((tag, root.info.id))
        }),
{
    reveal(ClientView::get_configuration_root);
    reveal(ClientView::create_root);
    reveal(ClientView::create);
    let tag = UNVERSIONED_DIRECTORY_LISTING_TAG;
    lemma_answered(c, RequestView::ConfigurationRoot);
    let c1 = c.root(RequestView::ConfigurationRoot).1;
    lemma_made(
        c1,
        CONFIGURATION_DIRECTORY_NAME@,
        tag,
        Seq::empty(),
        false,
        AccessLevel::Private,
        None,
    );
    let c2 = c1.make(
        CONFIGURATION_DIRECTORY_NAME@,
        tag,
        Seq::empty(),
        false,
        AccessLevel::Private,
        None,
    ).1;
    lemma_answered(c2, RequestView::SetConfigurationRoot { id: configuration_root_of(c).info.id });
}

/// What creating a directory under a stored root shows and leaves: the
/// directory and the root with the directory entered are known to be
/// stored under their keys, the root holds the directory once, and what
/// the session knows of its roots is as it was.
pub proof fn lemma_created_under_root(
    c: ClientView,
    name: Seq<char>,
    root: DirectoryListingView,
)
    requires
        consistent(c.transcript),
        fits_memory(c.transcript),
        root.wf(),
        root.info.parent_dir_key is None,
        root.info.type_tag == UNVERSIONED_DIRECTORY_LISTING_TAG,
        !root.info.versioned,
        root.info.access_level == AccessLevel::Private,
        known(c.transcript, c.cursor).records.contains_key(
            (UNVERSIONED_DIRECTORY_LISTING_TAG, root.info.id),
        ),
        c.create(
            name,
            UNVERSIONED_DIRECTORY_LISTING_TAG,
            Seq::empty(),
            false,
            AccessLevel::Private,
            Some(root),
        ).result is Ok,
    ensures
        ({
            let made = c.create(
                name,
                UNVERSIONED_DIRECTORY_LISTING_TAG,
                Seq::empty(),
                false,
                AccessLevel::Private,
                Some(root),
            );
            let created = made.result.unwrap();
            let entered = made.parent.unwrap();
            let before = known(c.transcript, c.cursor);
            let after = known(c.transcript, made.client.cursor);
            let tag = UNVERSIONED_DIRECTORY_LISTING_TAG;
            &&& made.client.transcript == c.transcript
            &&& 0 <= c.cursor < made.client.cursor <= c.transcript.len()
            &&& created.info.type_tag == tag
            &&& created.info.name == name
            &&& created.info.id != root.info.id
            &&& entered.info.id == root.info.id
            &&& holds_once(entered, created.info)
            &&& entered.find_sub_directory(name) == Some(created.info)
            &&& after.configuration_root == before.configuration_root
            &&& after.user_root == before.user_root
            &&& after.stored_plain(created.info.id, tag, false, AccessLevel::Private) == Some(
                DirectoryListing::enc(created),
            )
            &&& after.stored_plain(root.info.id, tag, false, AccessLevel::Private) == Some(
                DirectoryListing::enc(entered),
            )
        }),
{
    reveal(ClientView::create);
    reveal(ClientView::update_directory_listing_and_parent);
    let t = c.transcript;
    let tag = UNVERSIONED_DIRECTORY_LISTING_TAG;
    let private = AccessLevel::Private;
    law_created_key_is_new(c, name, tag, Seq::empty(), false, private, Some(root));
    lemma_made(c, name, tag, Seq::empty(), false, private, Some(root.key()));
    let (m, c1) = c.make(name, tag, Seq::empty(), false, private, Some(root.key()));
    let created = m.unwrap().0;
    let now = m.unwrap().1;
    assert(!known(t, c.cursor).records.contains_key((tag, created.info.id)));
    let entered = root.with_sub_directory(created.info, now);
    lemma_position(root.sub_directories, directory_named(name));
    assert(!root.name_taken(created.info));
    lemma_holds_once(root, created.info, now);
    lemma_held_is_found(entered, created.info);
    lemma_updated(c1, entered);
    let c2 = c1.update_directory_listing(entered).1;
    lemma_stored_plain_persists(t, c1.cursor, c2.cursor, created.info.id, tag, false, private);
}

/// The configuration directory is kept: once a configuration directory
/// was created under a new configuration root, asking for the directory
/// of that name again gives the listing that was created, and the root as
/// it is stored holds the directory once.
pub proof fn law_configuration_directory_is_kept(
    c: ClientView,
    name: Seq<char>,
    created: DirectoryListingView,
)
    requires
        consistent(c.transcript),
        fits_memory(c.transcript),
        c.root(RequestView::ConfigurationRoot).0 == Ok::<Option<Seq<u8>>, NfsError>(None),
        c.get_configuration_directory_listing(name).0 == Ok::<DirectoryListingView, NfsError>(
            created,
        ),
        DirectoryListing::fits(created),
        DirectoryListing::fits(
            configured(c).create(
                name,
                UNVERSIONED_DIRECTORY_LISTING_TAG,
                Seq::empty(),
                false,
                AccessLevel::Private,
                Some(configuration_root_of(c)),
            ).parent.unwrap(),
        ),
        c.get_configuration_directory_listing(name).1.get_configuration_directory_listing(name).0
            is Ok,
    ensures
        c.get_configuration_directory_listing(name).1.get_configuration_directory_listing(name).0
            == Ok::<DirectoryListingView, NfsError>(created),
        holds_once(
            configured(c).create(
                name,
                UNVERSIONED_DIRECTORY_LISTING_TAG,
                Seq::empty(),
                false,
                AccessLevel::Private,
                Some(configuration_root_of(c)),
            ).parent.unwrap(),
            created.info,
        ),
{
    reveal(ClientView::get_configuration_directory_listing);
    let t = c.transcript;
    let tag = UNVERSIONED_DIRECTORY_LISTING_TAG;
    let private = AccessLevel::Private;
    lemma_configuration_root_made(c);
    let root = configuration_root_of(c);
    let c3 = configured(c);
    lemma_position(root.sub_directories, directory_named(name));
    lemma_created_under_root(c3, name, root);
    let made = c3.create(name, tag, Seq::empty(), false, private, Some(root));
    let entered = made.parent.unwrap();
    let later = made.client;
    assert(later == c.get_configuration_directory_listing(name).1);
    lemma_second_call(later, name, created, entered);
}

/// What asking for a configuration directory comes to where the session
/// knows its configuration root and the root and the directory are known
/// to be stored: the directory.
pub proof fn lemma_second_call(
    later: ClientView,
    name: Seq<char>,
    created: DirectoryListingView,
    entered: DirectoryListingView,
)
    requires
        consistent(later.transcript),
        0 <= later.cursor,
        known(later.transcript, later.cursor).configuration_root == Some(Some(entered.info.id)),
        known(later.transcript, later.cursor).stored_plain(
            entered.info.id,
            UNVERSIONED_DIRECTORY_LISTING_TAG,
            false,
            AccessLevel::Private,
        ) == Some(DirectoryListing::enc(entered)),
        known(later.transcript, later.cursor).stored_plain(
            created.info.id,
            UNVERSIONED_DIRECTORY_LISTING_TAG,
            false,
            AccessLevel::Private,
        ) == Some(DirectoryListing::enc(created)),
        created.info.type_tag == UNVERSIONED_DIRECTORY_LISTING_TAG,
        created.info.id != entered.info.id,
        entered.find_sub_directory(name) == Some(created.info),
        DirectoryListing::fits(created),
        DirectoryListing::fits(entered),
        later.get_configuration_directory_listing(name).0 is Ok,
    ensures
        later.get_configuration_directory_listing(name).0 == Ok::<DirectoryListingView, NfsError>(
            created,
        ),
{
    reveal(ClientView::get_configuration_directory_listing);
    reveal(ClientView::get_configuration_root);
    let t = later.transcript;
    let tag = UNVERSIONED_DIRECTORY_LISTING_TAG;
    let private = AccessLevel::Private;
    lemma_answered(later, RequestView::ConfigurationRoot);
    let l1 = later.root(RequestView::ConfigurationRoot).1;
    lemma_got(l1, entered.info.id, tag, false, private);
    lemma_listing_round_trip(entered);
    let l2 = l1.get(entered.info.id, tag, false, private).1;
    lemma_stored_plain_persists(t, later.cursor, l2.cursor, created.info.id, tag, false, private);
    lemma_got(l2, created.info.id, tag, false, private);
    lemma_listing_round_trip(created);
}

/// The time of the state taken last: that of the last state of a history,
/// or `last` where the history is empty.
pub open spec fn last_time(states: Seq<FileView>, last: Option<Timestamp>) -> Option<Timestamp> {
    if states.len() > 0 {
        Some(states.last().metadata.modified_time)
    } else {
        last
    }
}

/// What one more version adds to a history: the file of the given name in
/// that version's listing, where there is one and its time of modification
/// is another than that of the state taken last.
pub open spec fn next_state(
    listing: DirectoryListingView,
    name: Seq<char>,
    last: Option<Timestamp>,
) -> Seq<FileView> {
    match listing.find_file(name) {
        Some(file) => if last != Some(file.metadata.modified_time) {
            seq![file]
        } else {
            Seq::empty()
        },
        None => Seq::empty(),
    }
}

/// Fetching a version takes one exchange, and one more where the listing
/// is private, and shows nothing of the records.
pub proof fn lemma_version_fetch_advances(
    c: ClientView,
    id: Seq<u8>,
    access_level: AccessLevel,
    version: Seq<u8>,
)
    requires
        consistent(c.transcript),
        c.get_by_version(id, access_level, version).0 is Ok,
    ensures
        ({
            let c2 = c.get_by_version(id, access_level, version).1;
            &&& c2.transcript == c.transcript
            &&& 0 <= c.cursor
            &&& c2.cursor <= c.transcript.len()
            &&& c2.cursor == c.cursor + (if access_level == AccessLevel::Private {
                2int
            } else {
                1int
            })
            &&& known(c.transcript, c2.cursor).records == known(c.transcript, c.cursor).records
        }),
{
    reveal(ClientView::get_by_version);
    lemma_got_version(c, id, access_level, version);
    lemma_fetched_blob(c, version);
    let (b, c1) = c.get_immutable_data(version);
    match access_level {
        AccessLevel::Public => {},
        AccessLevel::Private => {
            lemma_opened(c1, id, access_level, b->Ok_0);
        },
    }
}

/// Going through stored versions gives the same states whenever it is
/// done: two walks over one list of versions on one consistent
/// transcript, the second begun no earlier than the first, give the same
/// states and take the same number of exchanges, and show nothing of the
/// records.
pub proof fn lemma_file_versions_same(
    a: ClientView,
    b: ClientView,
    id: Seq<u8>,
    access_level: AccessLevel,
    name: Seq<char>,
    versions: Seq<Seq<u8>>,
    last: Option<Timestamp>,
)
    requires
        consistent(a.transcript),
        b.transcript == a.transcript,
        0 <= a.cursor <= b.cursor <= a.transcript.len(),
        a.file_versions(id, access_level, name, versions, last).0 is Ok,
        b.file_versions(id, access_level, name, versions, last).0 is Ok,
    ensures
        ({
            let (ra, a2) = a.file_versions(id, access_level, name, versions, last);
            let (rb, b2) = b.file_versions(id, access_level, name, versions, last);
            &&& ra == rb
            &&& a2.transcript == a.transcript
            &&& b2.transcript == a.transcript
            &&& a2.cursor - a.cursor == b2.cursor - b.cursor
            &&& a.cursor <= a2.cursor <= a.transcript.len()
            &&& b2.cursor <= a.transcript.len()
            &&& known(a.transcript, a2.cursor).records == known(a.transcript, a.cursor).records
            &&& known(a.transcript, b2.cursor).records == known(a.transcript, b.cursor).records
        }),
    decreases versions.len(),
{
    if versions.len() > 0 {
        let v = versions[0];
        let rest = versions.drop_first();
        lemma_version_fetch_advances(a, id, access_level, v);
        lemma_version_fetch_advances(b, id, access_level, v);
        law_stored_versions_do_not_change(a, b, id, access_level, v);
        let (l, a1) = a.get_by_version(id, access_level, v);
        let b1 = b.get_by_version(id, access_level, v).1;
        let listing = l.unwrap();
        match listing.find_file(name) {
            Some(file) => {
                if last != Some(file.metadata.modified_time) {
                    lemma_file_versions_same(
                        a1,
                        b1,
                        id,
                        access_level,
                        name,
                        rest,
                        Some(file.metadata.modified_time),
                    );
                } else {
                    lemma_file_versions_same(a1, b1, id, access_level, name, rest, last);
                }
            },
            None => {
                lemma_file_versions_same(a1, b1, id, access_level, name, rest, last);
            },
        }
    }
}

/// Going through one more version: the walk over a list of versions and
/// one more is the walk over the list, followed by what the one more
/// version adds.
pub proof fn lemma_file_versions_append(
    c: ClientView,
    id: Seq<u8>,
    access_level: AccessLevel,
    name: Seq<char>,
    versions: Seq<Seq<u8>>,
    version: Seq<u8>,
    last: Option<Timestamp>,
)
    requires
        c.file_versions(id, access_level, name, versions.push(version), last).0 is Ok,
    ensures
        ({
            let (h, c1) = c.file_versions(id, access_level, name, versions, last);
            let (l, c2) = c1.get_by_version(id, access_level, version);
            &&& h is Ok
            &&& l is Ok
            &&& c.file_versions(id, access_level, name, versions.push(version), last) == (
                Ok::<Seq<FileView>, NfsError>(
                    h.unwrap() + next_state(l.unwrap(), name, last_time(h.unwrap(), last)),
                ),
                c2,
            )
        }),
    decreases versions.len(),
{
    let all = versions.push(version);
    if versions.len() == 0 {
        assert(all.drop_first() =~= Seq::<Seq<u8>>::empty());
        assert(all[0] == version);
        let (l, c2) = c.get_by_version(id, access_level, version);
        let added = next_state(l.unwrap(), name, last);
        let none = Seq::<Seq<u8>>::empty();
        assert(c2.file_versions(id, access_level, name, none, last) == (
            Ok::<Seq<FileView>, NfsError>(Seq::empty()),
            c2,
        ));
        if added.len() > 0 {
            assert(c2.file_versions(
                id,
                access_level,
                name,
                none,
                Some(added[0].metadata.modified_time),
            ) == (Ok::<Seq<FileView>, NfsError>(Seq::empty()), c2));
        }
        assert(c.file_versions(id, access_level, name, versions, last) == (
            Ok::<Seq<FileView>, NfsError>(Seq::empty()),
            c,
        ));
        assert(added + Seq::<FileView>::empty() =~= added);
        assert(Seq::<FileView>::empty() + added =~= added);
    } else {
        let v = versions[0];
        let rest = versions.drop_first();
        assert(all[0] == v);
        assert(all.drop_first() =~= rest.push(version));
        let (l, c1) = c.get_by_version(id, access_level, v);
        let listing = l.unwrap();
        let taken = next_state(listing, name, last);
        let then = if taken.len() > 0 {
            Some(taken[0].metadata.modified_time)
        } else {
            last
        };
        lemma_file_versions_append(c1, id, access_level, name, rest, version, then);
        let (h, c2) = c1.file_versions(id, access_level, name, rest, then);
        let (l2, c3) = c2.get_by_version(id, access_level, version);
        let tail = h.unwrap();
        let added = next_state(l2.unwrap(), name, last_time(tail, then));
        assert(c.file_versions(id, access_level, name, versions, last).0.unwrap() =~= taken
            + tail);
        assert(last_time(taken + tail, last) == last_time(tail, then));
        assert((taken + tail) + added =~= taken + (tail + added));
    }
}

/// Each stored state of a listing adds to the history of a file what it
/// holds of the file: after an update of a listing that keeps history,
/// the history of a file is the history before the update, and after it
/// the file as the updated listing holds it, where it holds the file and
/// the file's time of modification is another than that of the last
/// state before.
pub proof fn law_update_adds_to_the_file_history(
    c: ClientView,
    file: FileView,
    directory: DirectoryListingView,
    before: Seq<FileView>,
    after: Seq<FileView>,
)
    requires
        consistent(c.transcript),
        fits_memory(c.transcript),
        directory.info.versioned,
        directory.info.type_tag == listing_tag(true),
        DirectoryListing::fits(directory),
        c.get_file_versions(file, directory).0 == Ok::<Seq<FileView>, NfsError>(before),
        c.get_file_versions(file, directory).1.update_directory_listing(directory).0 is Ok,
        c.get_file_versions(file, directory).1.update_directory_listing(
            directory,
        ).1.get_file_versions(file, directory).0 == Ok::<Seq<FileView>, NfsError>(after),
    ensures
        after == before + next_state(directory, file.metadata.name, last_time(before, None)),
{
    reveal(ClientView::get_file_versions);
    reveal(ClientView::get_versions);
    let t = c.transcript;
    let id = directory.info.id;
    let tag = directory.info.type_tag;
    let access_level = directory.info.access_level;
    let name = file.metadata.name;
    lemma_fetched_record(c, id, tag);
    let (v0, ca) = c.get_versions(id, tag);
    let chain0 = v0.unwrap();
    lemma_file_versions_same(ca, ca, id, access_level, name, chain0, None);
    let c1 = ca.file_versions(id, access_level, name, chain0, None).1;
    lemma_updated(c1, directory);
    let c2 = c1.update_directory_listing(directory).1;
    lemma_fetched_record(c2, id, tag);
    let (v1, cb) = c2.get_versions(id, tag);
    let chain1 = v1.unwrap();
    let newest = chain1.last();
    assert(chain1 =~= chain0.push(newest));
    lemma_file_versions_append(cb, id, access_level, name, chain0, newest, None);
    let (h, cc) = cb.file_versions(id, access_level, name, chain0, None);
    lemma_file_versions_same(ca, cb, id, access_level, name, chain0, None);
    assert(h.unwrap() == before);
    lemma_known_persists(t, c2.cursor, cc.cursor);
    assert(known(t, cc.cursor).records =~= known(t, c2.cursor).records);
    lemma_got_version(cc, id, access_level, newest);
    lemma_listing_round_trip(directory);
}

} // verus!
