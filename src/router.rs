//! Routing of inbound requests to handlers by path.
use vstd::prelude::*;

use crate::codec::{decode_request, parse_request};

verus! {

/// The status of a request that could not be decoded.
pub const BAD_REQUEST: u16 = 400;

/// Whether two byte strings are equal.
fn bytes_eq(a: &Vec<u8>, b: &Vec<u8>) -> (r: bool)
    ensures
        r == (a@ == b@),
{
    if a.len() != b.len() {
        return false;
    }
    let mut i: usize = 0;
    while i < a.len()
        invariant
            i <= a@.len(),
            a@.len() == b@.len(),
            forall|k: int| 0 <= k < i ==> a@[k] == b@[k],
        decreases a@.len() - i,
    {
        if a[i] != b[i] {
            return false;
        }
        i += 1;
    }
    assert(a@ =~= b@);
    true
}

/// The status of a response for a path that no handler is registered for.
pub const NOT_FOUND: u16 = 404;

/// A response carried back on a stream: a status and a body.
pub struct WireResponse {
    pub status: u16,
    pub body: Vec<u8>,
}

impl WireResponse {
    /// The well-formed answer to a request for an unregistered path.
    pub fn not_found() -> (r: WireResponse)
        ensures
            r.status == NOT_FOUND,
            r.body@.len() == 0,
    {
        WireResponse { status: NOT_FOUND, body: Vec::new() }
    }
}

/// Where an inbound request goes.
#[derive(Debug, PartialEq, Eq, Structural)]
pub enum Dispatch {
    /// To the handler registered at this position.
    Handler(usize),
    /// Nowhere: the answer is a not-found response.
    NotFound,
}

/// The paths that handlers are registered under, in order of registration.
pub struct StreamRouter {
    paths: Vec<Vec<u8>>,
}

impl View for StreamRouter {
    type V = Seq<Seq<u8>>;

    closed spec fn view(&self) -> Seq<Seq<u8>> {
        self.paths@.map_values(|p: Vec<u8>| p@)
    }
}

impl StreamRouter {
    pub fn new() -> (r: Self)
        ensures
            r@ == Seq::<Seq<u8>>::empty(),
    {
        StreamRouter { paths: Vec::new() }
    }

    /// Registers a handler under `path`; it gets the next position. A path
    /// registered twice goes to the earlier handler.
    pub fn route(&mut self, path: Vec<u8>) -> (r: usize)
        requires
            old(self)@.len() < usize::MAX,
        ensures
            final(self)@ == old(self)@.push(path@),
            r == old(self)@.len(),
    {
        let r = self.paths.len();
        self.paths.push(path);
        assert(self@ =~= old(self)@.push(path@));
        r
    }

    /// The handler for `path`: the first one registered under it, or
    /// not-found when there is none.
    pub fn dispatch(&self, path: &Vec<u8>) -> (r: Dispatch)
        ensures
            match r {
                Dispatch::Handler(i) => i < self@.len() && self@[i as int] == path@
                    && forall|k: int| 0 <= k < i ==> self@[k] != path@,
                Dispatch::NotFound => forall|k: int| 0 <= k < self@.len() ==> self@[k] != path@,
            },
    {
        let mut i: usize = 0;
        while i < self.paths.len()
            invariant
                i <= self@.len(),
                self@.len() == self.paths@.len(),
                forall|k: int| 0 <= k < i ==> self@[k] != path@,
            decreases self.paths@.len() - i,
        {
            if bytes_eq(&self.paths[i], path) {
                return Dispatch::Handler(i);
            }
            i += 1;
        }
        Dispatch::NotFound
    }

    /// Reads one inbound stream's request and finds where it goes: the
    /// handler with its body, not-found for an unregistered path, or
    /// malformed when the bytes are not a request.
    pub fn route_request(&self, request: &Vec<u8>) -> (r: Inbound)
        ensures
            match parse_request(request@) {
                None => r is Malformed,
                Some((p, b)) => match r {
                    Inbound::Handler { index, body } => index < self@.len() && self@[index as int] == p
                        && (forall|k: int| 0 <= k < index ==> self@[k] != p) && body@ == b,
                    Inbound::NotFound => forall|k: int| 0 <= k < self@.len() ==> self@[k] != p,
                    Inbound::Malformed => false,
                },
            },
    {
        match decode_request(request) {
            None => Inbound::Malformed,
            Some(q) => match self.dispatch(&q.path) {
                Dispatch::Handler(index) => Inbound::Handler { index, body: q.body },
                Dispatch::NotFound => Inbound::NotFound,
            },
        }
    }
}

/// Where an inbound stream's request goes.
pub enum Inbound {
    /// To the handler at `index`, with the request body.
    Handler { index: usize, body: Vec<u8> },
    /// Nowhere: answered with `NOT_FOUND`.
    NotFound,
    /// The bytes are not a request: answered with `BAD_REQUEST`.
    Malformed,
}

} // verus!
