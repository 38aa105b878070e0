//! The request side of the database worker. Requests are numbered; the newest
//! number is the only one that still matters, so that a newer request or a
//! cancellation supersedes all that came before.
use vstd::prelude::*;

use crate::db::{Page, PageModel, Query, QueryModel};
use crate::load::{text_of, LoadError, LoadErrorModel};

verus! {

/// A page to load, with an expression to add to the query where there is one.
pub struct Request {
    pub id: u64,
    pub query: Query,
    pub add: Option<String>,
}

#[verifier::ext_equal]
pub struct RequestModel {
    pub id: u64,
    pub query: QueryModel,
    pub add: Option<Seq<char>>,
}

impl View for Request {
    type V = RequestModel;

    open spec fn view(&self) -> RequestModel {
        RequestModel { id: self.id, query: self.query@, add: text_of(self.add) }
    }
}

pub open spec fn requests_of(v: Seq<Request>) -> Seq<RequestModel> {
    Seq::new(v.len(), |i: int| v[i]@)
}

/// What became of a request.
pub struct Reply {
    pub id: u64,
    pub result: Result<Page, LoadError>,
}

#[verifier::ext_equal]
pub struct ReplyModel {
    pub id: u64,
    pub result: Result<PageModel, LoadErrorModel>,
}

impl View for Reply {
    type V = ReplyModel;

    open spec fn view(&self) -> ReplyModel {
        ReplyModel {
            id: self.id,
            result: match self.result {
                Ok(page) => Ok(page@),
                Err(e) => Err(e@),
            },
        }
    }
}

pub open spec fn replies_of(v: Seq<Reply>) -> Seq<ReplyModel> {
    Seq::new(v.len(), |i: int| v[i]@)
}

/// The number of the newest request or cancellation, and the requests that are
/// still to be handed to the database thread.
pub struct Worker {
    pub generation: u64,
    pub outbox: Vec<Request>,
}

#[verifier::ext_equal]
pub struct WorkerModel {
    pub generation: u64,
    pub outbox: Seq<RequestModel>,
}

impl View for Worker {
    type V = WorkerModel;

    open spec fn view(&self) -> WorkerModel {
        WorkerModel { generation: self.generation, outbox: requests_of(self.outbox@) }
    }
}

/// The number after `generation`; numbers wrap around.
pub open spec fn successor(generation: u64) -> u64 {
    if generation == u64::MAX {
        0
    } else {
        (generation + 1) as u64
    }
}

/// The worker after a request.
pub open spec fn requested(w: WorkerModel, query: QueryModel, add: Option<Seq<char>>) -> WorkerModel {
    let id = successor(w.generation);
    WorkerModel { generation: id, outbox: w.outbox.push(RequestModel { id, query, add }) }
}

/// The worker after a cancellation.
pub open spec fn cancelled(w: WorkerModel) -> WorkerModel {
    WorkerModel { generation: successor(w.generation), ..w }
}

impl Worker {
    pub fn new() -> (w: Self)
        ensures
            w@ == (WorkerModel { generation: 0, outbox: Seq::empty() }),
    {
        let w = Worker { generation: 0, outbox: Vec::new() };
        assert(w@.outbox =~= Seq::empty());
        w
    }

    /// Asks for a page; returns the number of the request.
    pub fn request(&mut self, query: Query, add: Option<String>) -> (id: u64)
        ensures
            final(self)@ == requested(old(self)@, query@, text_of(add)),
            id == final(self)@.generation,
    {
        let id: u64 = self.generation.wrapping_add(1);
        let ghost outbox0 = self.outbox@;
        let request = Request { id, query, add };
        let ghost asked = request@;
        self.generation = id;
        self.outbox.push(request);
        assert(requests_of(self.outbox@) =~= requests_of(outbox0).push(asked));
        id
    }

    /// Supersedes whatever was asked for.
    pub fn cancel(&mut self)
        ensures
            final(self)@ == cancelled(old(self)@),
    {
        self.generation = self.generation.wrapping_add(1);
    }

    /// Hands over the requests that the database thread has not seen yet.
    pub fn take_requests(&mut self) -> (requests: Vec<Request>)
        ensures
            requests_of(requests@) == old(self)@.outbox,
            final(self)@ == (WorkerModel { outbox: Seq::empty(), ..old(self)@ }),
    {
        let mut requests: Vec<Request> = Vec::new();
        std::mem::swap(&mut requests, &mut self.outbox);
        assert(self@.outbox =~= Seq::empty());
        requests
    }
}

/// Whether the request `id` has been superseded.
pub fn superseded(generation: u64, id: u64) -> (r: bool)
    ensures
        r == (generation != id),
{
    generation != id
}

/// The request to work on out of those that wait: the newest, if nothing has
/// superseded it.
pub open spec fn chosen(
    first: RequestModel,
    newer: Seq<RequestModel>,
    generation: u64,
) -> Option<RequestModel> {
    let newest = if newer.len() == 0 {
        first
    } else {
        newer.last()
    };
    if newest.id == generation {
        Some(newest)
    } else {
        None
    }
}

/// Picks the request to work on, so that no database work is done for the others.
pub fn next_request(first: Request, newer: Vec<Request>, generation: u64) -> (r: Option<Request>)
    ensures
        match r {
            Some(request) => chosen(first@, requests_of(newer@), generation) == Some(request@),
            None => chosen(first@, requests_of(newer@), generation) is None,
        },
{
    let mut newer = newer;
    let request = match newer.pop() {
        Some(newest) => newest,
        None => first,
    };
    if superseded(generation, request.id) {
        None
    } else {
        Some(request)
    }
}

} // verus!
