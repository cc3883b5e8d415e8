//! A node on its own: it records what it is handed and forwards nothing.

use crate::dedup::{is_snapshot, DedupStore};
use crate::message::{answers, malformed, names_operation, Refusal, Reply, Request};
use vstd::prelude::*;

verus! {

/// The values a lone node knows after `req`, if it knew `values` before. Only a
/// `Broadcast` changes them; a topology is acknowledged and ignored.
pub open spec fn next_values(values: Set<u64>, req: Option<Request>) -> Set<u64> {
    match req {
        Some(Request::Broadcast { message }) => values.insert(message),
        _ => values,
    }
}

/// The state of a node without neighbours; its view is the set of values it knows.
pub struct Handler {
    store: DedupStore,
}

impl View for Handler {
    type V = Set<u64>;

    closed spec fn view(&self) -> Set<u64> {
        self.store@
    }
}

impl Default for Handler {
    fn default() -> (handler: Self)
        ensures
            handler@ == Set::<u64>::empty(),
    {
        Handler::new()
    }
}

impl Handler {
    /// A node that knows no value.
    pub fn new() -> (handler: Self)
        ensures
            handler@ == Set::<u64>::empty(),
    {
        Handler { store: DedupStore::new() }
    }

    /// Records `element`, if the node did not know it yet.
    pub fn add(&mut self, element: u64)
        ensures
            final(self)@ == old(self)@.insert(element),
    {
        let _ = self.store.insert(element);
    }

    /// Every value the node knows, each once, in no particular order.
    pub fn get_data(&self) -> (values: Vec<u64>)
        ensures
            is_snapshot(values@, self@),
    {
        self.store.snapshot()
    }

    /// Handles one request: `tag` is the type that the body names, `req` the decoded body,
    /// and `None` where the body could not be decoded. Where the body was decoded, `tag`
    /// plays no part.
    ///
    /// `Read` is answered with the known values, `Broadcast` and `Topology` with an
    /// acknowledgment, whatever the topology holds. A body of a type that is none of the
    /// node's operations is left unhandled, which is no failure. The one request that
    /// fails, and leaves the node as it was, is a body that names an operation and could
    /// not be decoded.
    pub fn process(&mut self, tag: &str, req: Option<Request>) -> (out: Result<Reply, Refusal>)
        ensures
            out is Err <==> malformed(tag@, req),
            out matches Err(why) ==> why == Refusal::Malformed,
            final(self)@ == next_values(old(self)@, req),
            out matches Ok(reply) ==> answers(old(self)@, req, reply),
    {
        match req {
            Some(Request::Read) => Ok(Reply::ReadOk { messages: self.get_data() }),
            Some(Request::Broadcast { message }) => {
                self.add(message);
                Ok(Reply::Ack)
            },
            Some(Request::Topology { topology: _ }) => Ok(Reply::Ack),
            Some(_) => Ok(Reply::Unhandled),
            None => {
                if names_operation(tag) {
                    Err(Refusal::Malformed)
                } else {
                    Ok(Reply::Unhandled)
                }
            },
        }
    }

    /// A node never knows more than finitely many values.
    pub proof fn lemma_finite(&self)
        ensures
            self@.finite(),
    {
        self.store.lemma_finite();
    }
}

} // verus!
