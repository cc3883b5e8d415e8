//! The bodies a node receives and the answers and sends it decides on.

use crate::dedup::is_snapshot;
use crate::topology::Topology;
use vstd::prelude::*;

verus! {

/// A decoded message body. One variant for each kind of body a node may be handed.
#[derive(Debug)]
pub enum Request {
    /// The handshake that gives the node its identity; the runtime answers it.
    Init,
    /// Asks for every value the node knows.
    Read,
    /// The answer to `Read`.
    ReadOk { messages: Vec<u64> },
    /// Hands the node one value.
    Broadcast { message: u64 },
    /// Hands the node the neighbour graph.
    Topology { topology: Topology },
}

/// What a node answers to the sender of a request.
#[derive(Debug, PartialEq, Eq)]
pub enum Reply {
    /// The values the node knows, each once, in no particular order.
    ReadOk { messages: Vec<u64> },
    /// An acknowledgment without payload.
    Ack,
    /// The node does not handle the request and leaves it to the runtime.
    Unhandled,
}

/// Why a node refuses a request. A refused request changes nothing at the node and is
/// answered by no acknowledgment.
#[derive(Debug, Clone, Copy, PartialEq, Eq, Structural)]
pub enum Refusal {
    /// The topology does not name the node that was to read its neighbours from it.
    NodeNotListed,
    /// The body names an operation of the node but could not be decoded: a field that
    /// the operation needs is missing or holds the wrong kind of value.
    Malformed,
}

/// Whether `tag` names one of the operations that a node carries out itself.
pub open spec fn is_operation(tag: Seq<char>) -> bool {
    tag == "read"@ || tag == "broadcast"@ || tag == "topology"@
}

/// Whether a body of type `tag` is malformed, given what decoding it came to: it is where
/// it names an operation and decoding failed, which `None` stands for. A body that could
/// not be decoded and names no operation is merely unknown to the node.
pub open spec fn malformed(tag: Seq<char>, req: Option<Request>) -> bool {
    req is None && is_operation(tag)
}

/// Whether `tag` names one of the operations that a node carries out itself.
pub fn names_operation(tag: &str) -> (named: bool)
    ensures
        named == is_operation(tag@),
{
    *tag == *"read" || *tag == *"broadcast" || *tag == *"topology"
}

/// Whether `reply` is what a node that knows `values` answers to `req`, where it does not
/// refuse it; `None` stands for a body that could not be decoded. `Read` is answered with
/// the values, `Broadcast` and `Topology` are acknowledged, and the rest, a body of a type
/// unknown to the node among it, is left unhandled.
pub open spec fn answers(values: Set<u64>, req: Option<Request>, reply: Reply) -> bool {
    match req {
        Some(Request::Read) => reply matches Reply::ReadOk { messages } && is_snapshot(
            messages@,
            values,
        ),
        Some(Request::Broadcast { .. }) => reply is Ack,
        Some(Request::Topology { .. }) => reply is Ack,
        _ => reply is Unhandled,
    }
}

/// A `Broadcast` of `message` that is to be sent to the node `dest`, without waiting for
/// an answer.
#[derive(Debug, PartialEq, Eq)]
pub struct Outbound {
    pub dest: String,
    pub message: u64,
}

impl DeepView for Outbound {
    type V = (Seq<char>, u64);

    open spec fn deep_view(&self) -> (Seq<char>, u64) {
        (self.dest@, self.message)
    }
}

/// One send of `element` to each of `neighbors`, in their order.
pub open spec fn fan_out(neighbors: Seq<Seq<char>>, element: u64) -> Seq<(Seq<char>, u64)> {
    Seq::new(neighbors.len(), |i: int| (neighbors[i], element))
}

} // verus!
