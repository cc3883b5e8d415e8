//! A node that records each value once and forwards a value to its neighbours the first
//! time it is handed it.

use crate::dedup::{is_snapshot, DedupStore};
use crate::message::{
    answers, fan_out, malformed, names_operation, Outbound, Refusal, Reply, Request,
};
use crate::topology::{updated, Topology, TopologyError, TopologyTable};
use vstd::prelude::*;

verus! {

/// What a node holds: the values it has accepted and the neighbours it forwards to.
pub struct NodeState {
    pub values: Set<u64>,
    pub neighbors: Seq<Seq<char>>,
}

/// The state of a node that has been handed nothing yet.
pub open spec fn initial() -> NodeState {
    NodeState { values: Set::empty(), neighbors: Seq::empty() }
}

/// The state after a node in state `s` has been handed `element`.
pub open spec fn observed(s: NodeState, element: u64) -> NodeState {
    NodeState { values: s.values.insert(element), neighbors: s.neighbors }
}

/// The sends that handing `element` to a node in state `s` gives rise to: one to each
/// neighbour if the value is new to the node, none if it is not.
pub open spec fn forwarded(s: NodeState, element: u64) -> Seq<(Seq<char>, u64)> {
    if s.values.contains(element) {
        Seq::empty()
    } else {
        fan_out(s.neighbors, element)
    }
}

/// Why the node `id` refuses a body of type `tag` that decoding turned into `req`, or
/// `None` where it does not refuse it. It refuses a malformed body and a topology that
/// does not name it, and nothing else.
pub open spec fn refusal(id: Seq<char>, tag: Seq<char>, req: Option<Request>) -> Option<Refusal> {
    match req {
        None => if malformed(tag, req) {
            Some(Refusal::Malformed)
        } else {
            None
        },
        Some(Request::Topology { topology }) => if topology@.contains_key(id) {
            None
        } else {
            Some(Refusal::NodeNotListed)
        },
        Some(_) => None,
    }
}

/// The state in which `req` leaves the node `id` that was in state `s`. A request that is
/// refused or not handled leaves the state as it was.
pub open spec fn next_state(s: NodeState, id: Seq<char>, req: Option<Request>) -> NodeState {
    match req {
        Some(Request::Broadcast { message }) => observed(s, message),
        Some(Request::Topology { topology }) => NodeState {
            values: s.values,
            neighbors: updated(s.neighbors, topology@, id),
        },
        _ => s,
    }
}

/// The sends that `req` gives rise to at a node in state `s`.
pub open spec fn sends_for(s: NodeState, req: Option<Request>) -> Seq<(Seq<char>, u64)> {
    match req {
        Some(Request::Broadcast { message }) => forwarded(s, message),
        _ => Seq::empty(),
    }
}

/// What became of a value handed to the node.
#[derive(Debug, PartialEq, Eq)]
pub enum Observation {
    /// The value was not known. It is recorded, and `sends` are to be carried out.
    New { sends: Vec<Outbound> },
    /// The value was known already. Nothing changed and nothing is to be sent.
    Duplicate,
}

/// What a request asks of the transport: one reply to its sender, and the sends, which
/// are carried out without waiting for an answer and apart from the reply.
#[derive(Debug, PartialEq, Eq)]
pub struct Outcome {
    pub reply: Reply,
    pub sends: Vec<Outbound>,
}

/// The state of one node. Every change goes through `&mut self`, so the test whether a
/// value is known and its recording cannot be parted by another caller.
pub struct Handler {
    store: DedupStore,
    table: TopologyTable,
}

impl View for Handler {
    type V = NodeState;

    closed spec fn view(&self) -> NodeState {
        NodeState { values: self.store@, neighbors: self.table@ }
    }
}

impl Default for Handler {
    fn default() -> (handler: Self)
        ensures
            handler@ == initial(),
    {
        Handler::new()
    }
}

impl Handler {
    /// A node that knows no value and has no neighbour.
    pub fn new() -> (handler: Self)
        ensures
            handler@ == initial(),
    {
        Handler { store: DedupStore::new(), table: TopologyTable::new() }
    }

    /// Records `element`. Returns whether it was new to the node.
    pub fn add(&mut self, element: u64) -> (fresh: bool)
        ensures
            fresh == !old(self)@.values.contains(element),
            final(self)@ == observed(old(self)@, element),
    {
        self.store.insert(element)
    }

    /// Every value the node knows, each once, in no particular order.
    pub fn get_data(&self) -> (values: Vec<u64>)
        ensures
            is_snapshot(values@, self@.values),
    {
        self.store.snapshot()
    }

    /// Takes from `topology` the neighbours listed for `id`, in place of those the node
    /// had. A topology that does not name `id` is refused and changes nothing.
    pub fn update_topology(&mut self, topology: Topology, id: &str) -> (done: Result<
        (),
        TopologyError,
    >)
        ensures
            done is Ok <==> topology@.contains_key(id@),
            final(self)@ == next_state(old(self)@, id@, Some(Request::Topology { topology })),
    {
        self.table.update(&topology, id)
    }

    /// The neighbours the node forwards to, in the order the topology gave them.
    pub fn current_neighbors(&self) -> (list: &Vec<String>)
        ensures
            list.deep_view() == self@.neighbors,
    {
        self.table.current_neighbors()
    }

    /// The sends that forward `element` to every neighbour, one each, in their order.
    pub fn send_to_nbrs(&self, element: u64) -> (sends: Vec<Outbound>)
        ensures
            sends.deep_view() == fan_out(self@.neighbors, element),
    {
        let nbrs = self.table.current_neighbors();
        let mut sends: Vec<Outbound> = Vec::new();
        let mut i: usize = 0;
        while i < nbrs.len()
            invariant
                i <= nbrs.len(),
                sends@.len() == i,
                nbrs.deep_view() == self@.neighbors,
                sends.deep_view() == fan_out(self@.neighbors, element).take(i as int),
            decreases nbrs.len() - i,
        {
            let ghost before = sends;
            let dest = nbrs[i].clone();
            assert(dest@ == nbrs.deep_view()[i as int]);
            sends.push(Outbound { dest, message: element });
            assert forall|j: int| 0 <= j < i + 1 implies sends.deep_view()[j] == fan_out(
                self@.neighbors,
                element,
            )[j] by {
                if j < i {
                    assert(sends@[j] == before@[j]);
                    assert(before.deep_view()[j] == fan_out(self@.neighbors, element)[j]);
                }
            }
            assert(sends.deep_view() =~= fan_out(self@.neighbors, element).take(i + 1));
            i += 1;
        }
        assert(sends.deep_view() =~= fan_out(self@.neighbors, element));
        sends
    }

    /// Hands the node one value. A new value is recorded and comes back with the sends
    /// that forward it; a known value changes nothing.
    pub fn observe(&mut self, v: u64) -> (seen: Observation)
        ensures
            seen is New <==> !old(self)@.values.contains(v),
            final(self)@ == observed(old(self)@, v),
            seen matches Observation::New { sends } ==> sends.deep_view() == forwarded(
                old(self)@,
                v,
            ),
    {
        if self.add(v) {
            Observation::New { sends: self.send_to_nbrs(v) }
        } else {
            Observation::Duplicate
        }
    }

    /// Handles one request at the node `node_id`: `tag` is the type that the body names,
    /// `req` the decoded body, and `None` where the body could not be decoded. Where the
    /// body was decoded, `tag` plays no part.
    ///
    /// `Read` is answered with the known values, `Broadcast` and `Topology` with an
    /// acknowledgment. A body of a type that is none of the node's operations is left
    /// unhandled, which is no failure. Two requests fail, and leave the node as it was: a
    /// body that names an operation and could not be decoded, and a topology that does not
    /// name `node_id`.
    pub fn process(&mut self, node_id: &str, tag: &str, req: Option<Request>) -> (out: Result<
        Outcome,
        Refusal,
    >)
        ensures
            out is Ok <==> refusal(node_id@, tag@, req) is None,
            out matches Err(why) ==> refusal(node_id@, tag@, req) == Some(why),
            final(self)@ == next_state(old(self)@, node_id@, req),
            out matches Ok(outcome) ==> {
                &&& answers(old(self)@.values, req, outcome.reply)
                &&& outcome.sends.deep_view() == sends_for(old(self)@, req)
            },
    {
        match req {
            Some(Request::Read) => {
                let data = self.get_data();
                Ok(Outcome { reply: Reply::ReadOk { messages: data }, sends: Vec::new() })
            },
            Some(Request::Broadcast { message }) => {
                let sends = match self.observe(message) {
                    Observation::New { sends } => sends,
                    Observation::Duplicate => Vec::new(),
                };
                Ok(Outcome { reply: Reply::Ack, sends })
            },
            Some(Request::Topology { topology }) => {
                match self.update_topology(topology, node_id) {
                    Ok(()) => Ok(Outcome { reply: Reply::Ack, sends: Vec::new() }),
                    Err(TopologyError::NodeNotListed) => Err(Refusal::NodeNotListed),
                }
            },
            Some(_) => Ok(Outcome { reply: Reply::Unhandled, sends: Vec::new() }),
            None => {
                if names_operation(tag) {
                    Err(Refusal::Malformed)
                } else {
                    Ok(Outcome { reply: Reply::Unhandled, sends: Vec::new() })
                }
            },
        }
    }

    /// A node never knows more than finitely many values.
    pub proof fn lemma_finite(&self)
        ensures
            self@.values.finite(),
    {
        self.store.lemma_finite();
    }
}

} // verus!
