//! The storage client as the overlay sees it: requests, their answers, and
//! the transcript of the exchanges that have taken place.

use vstd::prelude::*;
use crate::bytes::{bytes_copy, bytes_eq};
use crate::errors::{ClientError, NfsError};
use crate::name::NetworkName;
use crate::timestamp::{read_clock, Timestamp};

verus! {

/// A structured record: found by its type tag and identifier, replaced as
/// a whole, and counted up with each replacement.
#[derive(Debug)]
pub struct StructuredData {
    pub type_tag: u64,
    pub id: NetworkName,
    pub version: u64,
    pub payload: Vec<u8>,
}

/// The mathematical value of a [`StructuredData`].
pub struct StructuredDataView {
    pub type_tag: u64,
    pub id: Seq<u8>,
    pub version: u64,
    pub payload: Seq<u8>,
}

impl View for StructuredData {
    type V = StructuredDataView;

    open spec fn view(&self) -> StructuredDataView {
        StructuredDataView {
            type_tag: self.type_tag,
            id: self.id@,
            version: self.version,
            payload: self.payload@,
        }
    }
}

impl Clone for StructuredData {
    fn clone(&self) -> (r: Self)
        ensures
            r@ == self@,
    {
        StructuredData {
            type_tag: self.type_tag,
            id: self.id.clone(),
            version: self.version,
            payload: bytes_copy(&self.payload),
        }
    }
}

impl StructuredData {
    pub fn new(type_tag: u64, id: NetworkName, version: u64, payload: Vec<u8>) -> (r:
        StructuredData)
        ensures
            r@ == (StructuredDataView { type_tag, id: id@, version, payload: payload@ }),
    {
        StructuredData { type_tag, id, version, payload }
    }

    /// Whether both are the same record in the same state.
    pub fn same(&self, other: &StructuredData) -> (r: bool)
        ensures
            r == (self@ == other@),
    {
        self.type_tag == other.type_tag && self.id.same(&other.id) && self.version
            == other.version && bytes_eq(&self.payload, &other.payload)
    }

    pub fn get_version(&self) -> (r: u64)
        ensures
            r == self@.version,
    {
        self.version
    }
}

/// What the overlay asks of the storage client.
#[derive(Debug)]
pub enum Request {
    /// The record with this type tag and identifier.
    GetRecord { type_tag: u64, id: NetworkName },
    /// The blob with this name.
    GetBlob { name: NetworkName },
    /// Store this content as a blob and say under which name it lies.
    PutBlob { content: Vec<u8> },
    /// Store a record that does not exist yet.
    PutRecord { record: StructuredData },
    /// Replace a record that exists.
    PostRecord { record: StructuredData },
    /// Seal a payload with the session's keys under this nonce.
    Seal { nonce: Vec<u8>, plain: Vec<u8> },
    /// Open a payload that was sealed under this nonce.
    Open { nonce: Vec<u8>, sealed: Vec<u8> },
    /// A name that nothing goes by yet.
    FreshName,
    /// The time.
    Clock,
    /// The identifier of the user's root listing, if the session has one.
    UserRoot,
    /// Keep this identifier as that of the user's root listing.
    SetUserRoot { id: NetworkName },
    /// The identifier of the configuration root listing, if the session
    /// has one.
    ConfigurationRoot,
    /// Keep this identifier as that of the configuration root listing.
    SetConfigurationRoot { id: NetworkName },
}

/// The mathematical value of a [`Request`].
pub enum RequestView {
    GetRecord { type_tag: u64, id: Seq<u8> },
    GetBlob { name: Seq<u8> },
    PutBlob { content: Seq<u8> },
    PutRecord { record: StructuredDataView },
    PostRecord { record: StructuredDataView },
    Seal { nonce: Seq<u8>, plain: Seq<u8> },
    Open { nonce: Seq<u8>, sealed: Seq<u8> },
    FreshName,
    Clock,
    UserRoot,
    SetUserRoot { id: Seq<u8> },
    ConfigurationRoot,
    SetConfigurationRoot { id: Seq<u8> },
}

impl View for Request {
    type V = RequestView;

    open spec fn view(&self) -> RequestView {
        match self {
            Request::GetRecord { type_tag, id } => RequestView::GetRecord {
                type_tag: *type_tag,
                id: id@,
            },
            Request::GetBlob { name } => RequestView::GetBlob { name: name@ },
            Request::PutBlob { content } => RequestView::PutBlob { content: content@ },
            Request::PutRecord { record } => RequestView::PutRecord { record: record@ },
            Request::PostRecord { record } => RequestView::PostRecord { record: record@ },
            Request::Seal { nonce, plain } => RequestView::Seal { nonce: nonce@, plain: plain@ },
            Request::Open { nonce, sealed } => RequestView::Open {
                nonce: nonce@,
                sealed: sealed@,
            },
            Request::FreshName => RequestView::FreshName,
            Request::Clock => RequestView::Clock,
            Request::UserRoot => RequestView::UserRoot,
            Request::SetUserRoot { id } => RequestView::SetUserRoot { id: id@ },
            Request::ConfigurationRoot => RequestView::ConfigurationRoot,
            Request::SetConfigurationRoot { id } => RequestView::SetConfigurationRoot { id: id@ },
        }
    }
}

impl Clone for Request {
    fn clone(&self) -> (r: Self)
        ensures
            r@ == self@,
    {
        match self {
            Request::GetRecord { type_tag, id } => Request::GetRecord {
                type_tag: *type_tag,
                id: id.clone(),
            },
            Request::GetBlob { name } => Request::GetBlob { name: name.clone() },
            Request::PutBlob { content } => Request::PutBlob { content: bytes_copy(content) },
            Request::PutRecord { record } => Request::PutRecord { record: record.clone() },
            Request::PostRecord { record } => Request::PostRecord { record: record.clone() },
            Request::Seal { nonce, plain } => Request::Seal {
                nonce: bytes_copy(nonce),
                plain: bytes_copy(plain),
            },
            Request::Open { nonce, sealed } => Request::Open {
                nonce: bytes_copy(nonce),
                sealed: bytes_copy(sealed),
            },
            Request::FreshName => Request::FreshName,
            Request::Clock => Request::Clock,
            Request::UserRoot => Request::UserRoot,
            Request::SetUserRoot { id } => Request::SetUserRoot { id: id.clone() },
            Request::ConfigurationRoot => Request::ConfigurationRoot,
            Request::SetConfigurationRoot { id } => Request::SetConfigurationRoot {
                id: id.clone(),
            },
        }
    }
}

impl Request {
    /// Whether both ask the same.
    pub fn same(&self, other: &Request) -> (r: bool)
        ensures
            r == (self@ == other@),
    {
        match (self, other) {
            (
                Request::GetRecord { type_tag: t1, id: i1 },
                Request::GetRecord { type_tag: t2, id: i2 },
            ) => *t1 == *t2 && i1.same(i2),
            (Request::GetBlob { name: n1 }, Request::GetBlob { name: n2 }) => n1.same(n2),
            (Request::PutBlob { content: c1 }, Request::PutBlob { content: c2 }) => bytes_eq(
                c1,
                c2,
            ),
            (Request::PutRecord { record: r1 }, Request::PutRecord { record: r2 }) => r1.same(r2),
            (Request::PostRecord { record: r1 }, Request::PostRecord { record: r2 }) => r1.same(
                r2,
            ),
            (Request::Seal { nonce: n1, plain: p1 }, Request::Seal { nonce: n2, plain: p2 }) => {
                bytes_eq(n1, n2) && bytes_eq(p1, p2)
            },
            (Request::Open { nonce: n1, sealed: s1 }, Request::Open { nonce: n2, sealed: s2 }) => {
                bytes_eq(n1, n2) && bytes_eq(s1, s2)
            },
            (Request::FreshName, Request::FreshName) => true,
            (Request::Clock, Request::Clock) => true,
            (Request::UserRoot, Request::UserRoot) => true,
            (Request::SetUserRoot { id: i1 }, Request::SetUserRoot { id: i2 }) => i1.same(i2),
            (Request::ConfigurationRoot, Request::ConfigurationRoot) => true,
            (
                Request::SetConfigurationRoot { id: i1 },
                Request::SetConfigurationRoot { id: i2 },
            ) => i1.same(i2),
            _ => false,
        }
    }
}

/// What the storage client answers.
#[derive(Debug)]
pub enum Response {
    Record(StructuredData),
    Blob(Vec<u8>),
    /// The content was stored and lies under this name.
    Stored(NetworkName),
    /// The request was carried out; there is nothing to hand back.
    Done,
    Sealed(Vec<u8>),
    Opened(Vec<u8>),
    Name(NetworkName),
    Time(Timestamp),
    Root(Option<NetworkName>),
    Failed(ClientError),
}

/// The mathematical value of a [`Response`].
pub enum ResponseView {
    Record(StructuredDataView),
    Blob(Seq<u8>),
    Stored(Seq<u8>),
    Done,
    Sealed(Seq<u8>),
    Opened(Seq<u8>),
    Name(Seq<u8>),
    Time(Timestamp),
    Root(Option<Seq<u8>>),
    Failed(ClientError),
}

/// The view of an optional name.
pub open spec fn name_option_view(n: Option<NetworkName>) -> Option<Seq<u8>> {
    match n {
        Some(x) => Some(x@),
        None => None,
    }
}

impl View for Response {
    type V = ResponseView;

    open spec fn view(&self) -> ResponseView {
        match self {
            Response::Record(r) => ResponseView::Record(r@),
            Response::Blob(b) => ResponseView::Blob(b@),
            Response::Stored(n) => ResponseView::Stored(n@),
            Response::Done => ResponseView::Done,
            Response::Sealed(b) => ResponseView::Sealed(b@),
            Response::Opened(b) => ResponseView::Opened(b@),
            Response::Name(n) => ResponseView::Name(n@),
            Response::Time(t) => ResponseView::Time(*t),
            Response::Root(n) => ResponseView::Root(name_option_view(*n)),
            Response::Failed(e) => ResponseView::Failed(*e),
        }
    }
}

impl Clone for Response {
    fn clone(&self) -> (r: Self)
        ensures
            r@ == self@,
    {
        match self {
            Response::Record(r) => Response::Record(r.clone()),
            Response::Blob(b) => Response::Blob(bytes_copy(b)),
            Response::Stored(n) => Response::Stored(n.clone()),
            Response::Done => Response::Done,
            Response::Sealed(b) => Response::Sealed(bytes_copy(b)),
            Response::Opened(b) => Response::Opened(bytes_copy(b)),
            Response::Name(n) => Response::Name(n.clone()),
            Response::Time(t) => Response::Time(*t),
            Response::Root(n) => Response::Root(
                match n {
                    Some(x) => Some(x.clone()),
                    None => None,
                },
            ),
            Response::Failed(e) => Response::Failed(*e),
        }
    }
}

/// A request together with the answer it got.
#[derive(Debug)]
pub struct Exchange {
    pub request: Request,
    pub response: Response,
}

/// The mathematical value of an [`Exchange`].
pub struct ExchangeView {
    pub request: RequestView,
    pub response: ResponseView,
}

impl View for Exchange {
    type V = ExchangeView;

    open spec fn view(&self) -> ExchangeView {
        ExchangeView { request: self.request@, response: self.response@ }
    }
}

/// The view of a result: the view of what was returned, or the error.
pub open spec fn result_view<T: View>(r: Result<T, NfsError>) -> Result<T::V, NfsError> {
    match r {
        Ok(x) => Ok(x@),
        Err(e) => Err(e),
    }
}

/// The storage client: the exchanges that have taken place, how many of
/// them the running operation has gone through, and the request on which
/// it stopped.
#[derive(Debug)]
pub struct Client {
    pub transcript: Vec<Exchange>,
    pub cursor: usize,
    pub pending: Option<Request>,
}

/// The mathematical value of a [`Client`].
pub struct ClientView {
    pub transcript: Seq<ExchangeView>,
    pub cursor: int,
    pub pending: Option<RequestView>,
}

/// The view of an optional request.
pub open spec fn request_option_view(r: Option<Request>) -> Option<RequestView> {
    match r {
        Some(x) => Some(x@),
        None => None,
    }
}

impl View for Client {
    type V = ClientView;

    open spec fn view(&self) -> ClientView {
        ClientView {
            transcript: self.transcript@.map_values(|e: Exchange| e@),
            cursor: self.cursor as int,
            pending: request_option_view(self.pending),
        }
    }
}

impl ClientView {
    /// The exchange that the next request has to match, if one is recorded.
    pub open spec fn next(self) -> Option<ExchangeView> {
        if 0 <= self.cursor < self.transcript.len() {
            Some(self.transcript[self.cursor])
        } else {
            None
        }
    }

    /// The client after it went through one more exchange.
    pub open spec fn advanced(self) -> ClientView {
        ClientView { cursor: self.cursor + 1, ..self }
    }

    /// The client after it stopped on a request without an answer.
    pub open spec fn stopped(self, request: RequestView) -> ClientView {
        ClientView { pending: Some(request), ..self }
    }

    /// What a request comes to: the recorded answer where the next exchange
    /// is for this request, a failure where it is for another or reports
    /// one, and a stop where the transcript has run out.
    pub open spec fn call(self, request: RequestView) -> (Result<ResponseView, NfsError>, ClientView) {
        match self.next() {
            Some(exchange) => if exchange.request == request {
                match exchange.response {
                    ResponseView::Failed(e) => (Err(NfsError::ClientError(e)), self.advanced()),
                    response => (Ok(response), self.advanced()),
                }
            } else {
                (Err(NfsError::ClientError(ClientError::Diverged)), self)
            },
            None => (Err(NfsError::ClientError(ClientError::Unanswered)), self.stopped(request)),
        }
    }
}

impl Client {
    /// A client with an empty transcript.
    pub fn new() -> (r: Client)
        ensures
            r@ == (ClientView {
                transcript: Seq::<ExchangeView>::empty(),
                cursor: 0,
                pending: None,
            }),
    {
        let r = Client { transcript: Vec::new(), cursor: 0, pending: None };
        assert(r@.transcript =~= Seq::<ExchangeView>::empty());
        r
    }

    /// Forgets the transcript: the next operation starts afresh.
    pub fn begin(&mut self)
        ensures
            final(self)@ == (ClientView {
                transcript: Seq::<ExchangeView>::empty(),
                cursor: 0,
                pending: None,
            }),
    {
        self.transcript = Vec::new();
        self.cursor = 0;
        self.pending = None;
        assert(self@.transcript =~= Seq::<ExchangeView>::empty());
    }

    /// The request on which the last operation stopped.
    pub fn get_pending(&self) -> (r: Option<&Request>)
        ensures
            match r {
                Some(q) => self@.pending == Some(q@),
                None => self@.pending is None,
            },
    {
        match &self.pending {
            Some(q) => Some(q),
            None => None,
        }
    }

    /// Records the answer to the pending request and goes back to the start
    /// of the transcript, so that the operation can run again. Without a
    /// pending request nothing changes and `false` is returned.
    pub fn answer(&mut self, response: Response) -> (r: bool)
        ensures
            r == old(self)@.pending is Some,
            r ==> final(self)@ == (ClientView {
                transcript: old(self)@.transcript.push(
                    ExchangeView { request: old(self)@.pending->0, response: response@ },
                ),
                cursor: 0,
                pending: None,
            }),
            !r ==> final(self)@ == old(self)@,
    {
        match self.pending.take() {
            Some(request) => {
                let ghost before = self@.transcript;
                let ghost added = ExchangeView { request: request@, response: response@ };
                self.transcript.push(Exchange { request, response });
                self.cursor = 0;
                assert(self@.transcript =~= before.push(added));
                true
            },
            None => false,
        }
    }

    /// Answers the pending request where this library can do so by itself:
    /// it reads the clock for a pending `Clock`. Says whether it did.
    pub fn serve(&mut self) -> (r: bool)
        ensures
            r == (old(self)@.pending == Some(RequestView::Clock)),
            r ==> exists|t: Timestamp|
                final(self)@ == (ClientView {
                    transcript: old(self)@.transcript.push(
                        ExchangeView {
                            request: RequestView::Clock,
                            response: ResponseView::Time(t),
                        },
                    ),
                    cursor: 0,
                    pending: None,
                }),
            !r ==> final(self)@ == old(self)@,
    {
        let is_clock = match &self.pending {
            Some(Request::Clock) => true,
            _ => false,
        };
        if is_clock {
            let t = read_clock();
            self.answer(Response::Time(t))
        } else {
            false
        }
    }

    /// Asks the storage client: hands back the recorded answer, or stops.
    pub fn call(&mut self, request: Request) -> (r: Result<Response, NfsError>)
        ensures
            (result_view(r), final(self)@) == old(self)@.call(request@),
    {
        if self.cursor < self.transcript.len() {
            assert(self@.transcript[self.cursor as int] == self.transcript@[self.cursor as int]@);
            if self.transcript[self.cursor].request.same(&request) {
                let response = self.transcript[self.cursor].response.clone();
                self.cursor = self.cursor + 1;
                match response {
                    Response::Failed(e) => Err(NfsError::ClientError(e)),
                    other => Ok(other),
                }
            } else {
                Err(NfsError::ClientError(ClientError::Diverged))
            }
        } else {
            self.pending = Some(request);
            Err(NfsError::ClientError(ClientError::Unanswered))
        }
    }
}

} // verus!
