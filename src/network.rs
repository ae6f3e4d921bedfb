//! The request/response exchange between peers: messages, the state of one
//! outstanding exchange, and how a node answers requests from its store.

use crate::content::{content_id, content_id_of, ContentId};
use crate::error::KnapError;
use crate::storage::Storage;
use crate::video::VideoMetadata;
use vstd::prelude::*;

verus! {

/// A local handle for a peer; the networking layer maps it to the peer's identity.
pub type PeerHandle = u64;

/// A request sent to a peer.
#[derive(Debug)]
pub enum KnapRequest {
    /// Metadata of the video with this identifier.
    Metadata(ContentId),
    /// Payload of the chunk with this identifier.
    Chunk(ContentId),
    /// Videos whose title contains this text.
    Search(String),
}

/// A peer's answer to a request.
#[derive(Debug)]
pub enum KnapResponse {
    Metadata(VideoMetadata),
    Chunk(Vec<u8>),
    SearchResults(Vec<VideoMetadata>),
    NotFound,
}

/// Where an exchange stands. `Pending` is the only state that can change.
#[derive(Debug, Clone, Copy, PartialEq, Eq, Structural)]
pub enum ExchangeState {
    Pending,
    Fulfilled,
    TimedOut,
    Errored,
}

/// The kind of response that answers a request, `NotFound` aside.
pub open spec fn answers(req: KnapRequest, resp: KnapResponse) -> bool {
    match req {
        KnapRequest::Metadata(_) => resp is Metadata || resp is NotFound,
        KnapRequest::Chunk(_) => resp is Chunk || resp is NotFound,
        KnapRequest::Search(_) => resp is SearchResults,
    }
}

/// A received response is acceptable: it answers the request, a payload
/// matches the requested chunk identifier and metadata carries the requested
/// video identifier.
pub open spec fn acceptable(req: KnapRequest, resp: KnapResponse) -> bool {
    &&& answers(req, resp)
    &&& match (req, resp) {
        (KnapRequest::Chunk(id), KnapResponse::Chunk(d)) => content_id_of(d@) == id@,
        (KnapRequest::Metadata(id), KnapResponse::Metadata(m)) => m.hash@ == id@,
        _ => true,
    }
}

/// One request sent to one peer, awaiting its response until a deadline.
#[derive(Debug)]
pub struct Exchange {
    pub peer: PeerHandle,
    pub request: KnapRequest,
    pub state: ExchangeState,
    /// The time after which no response is accepted.
    pub deadline: u64,
}

fn kind_answers(req: &KnapRequest, resp: &KnapResponse) -> (r: bool)
    ensures
        r == answers(*req, *resp),
{
    match req {
        KnapRequest::Metadata(_) => match resp {
            KnapResponse::Metadata(_) | KnapResponse::NotFound => true,
            _ => false,
        },
        KnapRequest::Chunk(_) => match resp {
            KnapResponse::Chunk(_) | KnapResponse::NotFound => true,
            _ => false,
        },
        KnapRequest::Search(_) => match resp {
            KnapResponse::SearchResults(_) => true,
            _ => false,
        },
    }
}

/// Whether a response is acceptable for a request.
pub fn check_response(req: &KnapRequest, resp: &KnapResponse) -> (r: bool)
    ensures
        r == acceptable(*req, *resp),
{
    if !kind_answers(req, resp) {
        return false;
    }
    match req {
        KnapRequest::Chunk(id) => match resp {
            KnapResponse::Chunk(d) => {
                let actual = content_id(d.as_slice());
                actual == *id
            },
            _ => true,
        },
        KnapRequest::Metadata(id) => match resp {
            KnapResponse::Metadata(m) => m.hash == *id,
            _ => true,
        },
        KnapRequest::Search(_) => true,
    }
}

impl Exchange {
    /// An exchange sent at `now` that waits `timeout` at most. A deadline past
    /// the largest time is the largest time.
    pub fn new(peer: PeerHandle, request: KnapRequest, now: u64, timeout: u64) -> (r: Exchange)
        ensures
            r.peer == peer,
            r.request == request,
            r.state == ExchangeState::Pending,
            r.deadline == if now + timeout <= u64::MAX { now + timeout } else { u64::MAX as int },
    {
        Exchange { peer, request, state: ExchangeState::Pending, deadline: now.saturating_add(timeout) }
    }

    /// Records that time `now` has come: a pending exchange whose deadline has
    /// passed is timed out.
    pub fn tick(&mut self, now: u64)
        ensures
            final(self).peer == old(self).peer,
            final(self).request == old(self).request,
            final(self).deadline == old(self).deadline,
            final(self).state == if old(self).state == ExchangeState::Pending && now > old(
                self,
            ).deadline {
                ExchangeState::TimedOut
            } else {
                old(self).state
            },
    {
        if self.state == ExchangeState::Pending && now > self.deadline {
            self.state = ExchangeState::TimedOut;
        }
    }

    /// Records a transport failure: a pending exchange has errored.
    pub fn transport_failed(&mut self)
        ensures
            final(self).peer == old(self).peer,
            final(self).request == old(self).request,
            final(self).deadline == old(self).deadline,
            final(self).state == if old(self).state == ExchangeState::Pending {
                ExchangeState::Errored
            } else {
                old(self).state
            },
    {
        if self.state == ExchangeState::Pending {
            self.state = ExchangeState::Errored;
        }
    }

    /// Takes a response that arrived at `now`.
    ///
    /// An exchange that is no longer pending, or whose deadline has passed,
    /// refuses it with `TimedOut` (and a pending one becomes `TimedOut`). A
    /// chunk whose payload does not match the requested identifier, or metadata
    /// for another video, is an `IntegrityViolation`; a response of the wrong
    /// kind leaves the exchange `Errored` as well. Otherwise the exchange is
    /// `Fulfilled` and the response is handed back.
    pub fn receive(&mut self, resp: KnapResponse, now: u64) -> (r: Result<KnapResponse, KnapError>)
        ensures
            final(self).peer == old(self).peer,
            final(self).request == old(self).request,
            final(self).deadline == old(self).deadline,
            old(self).state != ExchangeState::Pending ==> r == Err::<KnapResponse, KnapError>(
                KnapError::TimedOut,
            ) && final(self).state == old(self).state,
            old(self).state == ExchangeState::Pending && now > old(self).deadline ==> r == Err::<
                KnapResponse,
                KnapError,
            >(KnapError::TimedOut) && final(self).state == ExchangeState::TimedOut,
            old(self).state == ExchangeState::Pending && now <= old(self).deadline ==> {
                if acceptable(old(self).request, resp) {
                    r == Ok::<KnapResponse, KnapError>(resp) && final(self).state
                        == ExchangeState::Fulfilled
                } else {
                    r == Err::<KnapResponse, KnapError>(KnapError::IntegrityViolation)
                        && final(self).state == ExchangeState::Errored
                }
            },
    {
        if self.state != ExchangeState::Pending {
            return Err(KnapError::TimedOut);
        }
        if now > self.deadline {
            self.state = ExchangeState::TimedOut;
            return Err(KnapError::TimedOut);
        }
        if check_response(&self.request, &resp) {
            self.state = ExchangeState::Fulfilled;
            Ok(resp)
        } else {
            self.state = ExchangeState::Errored;
            Err(KnapError::IntegrityViolation)
        }
    }
}

/// Answers a request from the local store: the metadata or payload asked for,
/// `NotFound` when absent, and for a search every stored video whose title
/// contains the query.
pub fn handle_request(store: &Storage, req: &KnapRequest) -> (r: KnapResponse)
    requires
        store.wf(),
    ensures
        req matches KnapRequest::Metadata(id) ==> if store.video_map().contains_key(id@) {
            r matches KnapResponse::Metadata(m) && m@ == store.video_map()[id@]
        } else {
            r is NotFound
        },
        req matches KnapRequest::Chunk(id) ==> if store.chunk_map().contains_key(id@) {
            r matches KnapResponse::Chunk(d) && d@ == store.chunk_map()[id@].data
        } else {
            r is NotFound
        },
        req matches KnapRequest::Search(q) ==> r matches KnapResponse::SearchResults(v)
            && store.is_search_result(q@, v@),
{
    match req {
        KnapRequest::Metadata(id) => match store.get_video(id) {
            Ok(m) => KnapResponse::Metadata(m),
            Err(_) => KnapResponse::NotFound,
        },
        KnapRequest::Chunk(id) => match store.get_chunk(id) {
            Ok(d) => KnapResponse::Chunk(d),
            Err(_) => KnapResponse::NotFound,
        },
        KnapRequest::Search(q) => KnapResponse::SearchResults(store.search(q)),
    }
}

} // verus!
