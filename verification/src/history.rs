//! What holds of a node over a whole run of requests, in whatever order they arrive.
//!
//! A node is changed through `&mut` alone, so however many callers press on it, their
//! requests take effect one after another: a run is a sequence. The laws below speak of
//! every sequence, and so of every order in which racing callers may be served.

use crate::message::{fan_out, Request};
use crate::multi_node::{initial, next_state, sends_for, NodeState};
use crate::single_node::next_values;
use crate::topology::updated;
use vstd::prelude::*;

verus! {

/// Whether `req` hands the value `v` to the node.
pub open spec fn hands(req: Option<Request>, v: u64) -> bool {
    req matches Some(Request::Broadcast { message }) && message == v
}

/// Whether some request of `reqs` hands over `v`.
pub open spec fn handed(reqs: Seq<Option<Request>>, v: u64) -> bool {
    exists|i: int| 0 <= i < reqs.len() && hands(#[trigger] reqs[i], v)
}

/// Whether `req` is a topology that the node `id` accepts.
pub open spec fn rewires(req: Option<Request>, id: Seq<char>) -> bool {
    req matches Some(Request::Topology { topology }) && topology@.contains_key(id)
}

/// The state of the node `id` after it has taken `reqs` in turn, starting in state `s`.
pub open spec fn run(s: NodeState, id: Seq<char>, reqs: Seq<Option<Request>>) -> NodeState
    decreases reqs.len(),
{
    if reqs.len() == 0 {
        s
    } else {
        next_state(run(s, id, reqs.drop_last()), id, reqs.last())
    }
}

/// Every send that the node `id` asks for while it takes `reqs` in turn, starting in
/// state `s`, in the order in which it asks for them.
pub open spec fn sent(s: NodeState, id: Seq<char>, reqs: Seq<Option<Request>>) -> Seq<
    (Seq<char>, u64),
>
    decreases reqs.len(),
{
    if reqs.len() == 0 {
        Seq::empty()
    } else {
        sent(s, id, reqs.drop_last()) + sends_for(run(s, id, reqs.drop_last()), reqs.last())
    }
}

/// The test whether a send carries the value `v`.
pub open spec fn carries(v: u64) -> spec_fn((Seq<char>, u64)) -> bool {
    |send: (Seq<char>, u64)| send.1 == v
}

/// The sends of the run that carry the value `v`.
pub open spec fn sent_of(
    s: NodeState,
    id: Seq<char>,
    reqs: Seq<Option<Request>>,
    v: u64,
) -> Seq<(Seq<char>, u64)> {
    sent(s, id, reqs).filter(carries(v))
}

/// Whether the `i`-th request of the run hands over `v` and the node finds it new.
pub open spec fn new_at(
    s: NodeState,
    id: Seq<char>,
    reqs: Seq<Option<Request>>,
    i: int,
    v: u64,
) -> bool {
    &&& 0 <= i < reqs.len()
    &&& hands(reqs[i], v)
    &&& !run(s, id, reqs.take(i)).values.contains(v)
}

/// The values a node without neighbours knows after it has taken `reqs` in turn, if it
/// knew `values` before.
pub open spec fn run_alone(values: Set<u64>, reqs: Seq<Option<Request>>) -> Set<u64>
    decreases reqs.len(),
{
    if reqs.len() == 0 {
        values
    } else {
        next_values(run_alone(values, reqs.drop_last()), reqs.last())
    }
}

/// A run hands over what its last request hands over and what the requests before it do.
proof fn lemma_handed_step(reqs: Seq<Option<Request>>, v: u64)
    requires
        reqs.len() > 0,
    ensures
        handed(reqs, v) <==> handed(reqs.drop_last(), v) || hands(reqs.last(), v),
{
    let front = reqs.drop_last();
    if handed(reqs, v) {
        let i = choose|i: int| 0 <= i < reqs.len() && hands(#[trigger] reqs[i], v);
        if i < reqs.len() - 1 {
            assert(hands(front[i], v));
        }
    }
    if handed(front, v) {
        let i = choose|i: int| 0 <= i < front.len() && hands(#[trigger] front[i], v);
        assert(hands(reqs[i], v));
    }
    if hands(reqs.last(), v) {
        assert(hands(reqs[reqs.len() - 1], v));
    }
}

/// The values a node knows never shrink and never change but by being handed a value:
/// after a run it knows exactly what it knew before and what the run handed it. The
/// neighbours it started with have no part in that.
pub proof fn lemma_run_values(s: NodeState, id: Seq<char>, reqs: Seq<Option<Request>>)
    ensures
        s.values.subset_of(run(s, id, reqs).values),
        forall|v: u64| #[trigger]
            run(s, id, reqs).values.contains(v) <==> s.values.contains(v) || handed(reqs, v),
    decreases reqs.len(),
{
    if reqs.len() > 0 {
        lemma_run_values(s, id, reqs.drop_last());
        assert forall|v: u64| #[trigger]
            run(s, id, reqs).values.contains(v) <==> s.values.contains(v) || handed(
                reqs,
                v,
            ) by {
            lemma_handed_step(reqs, v);
        }
    }
}

/// A read after a run that began with a node that knew nothing returns exactly the
/// values that the run handed over, which are exactly those that some request found new.
pub proof fn lemma_read_complete(id: Seq<char>, reqs: Seq<Option<Request>>)
    ensures
        run(initial(), id, reqs).values == Set::new(|v: u64| handed(reqs, v)),
        run(initial(), id, reqs).values == Set::new(
            |v: u64| exists|i: int| new_at(initial(), id, reqs, i, v),
        ),
{
    lemma_run_values(initial(), id, reqs);
    assert(run(initial(), id, reqs).values =~= Set::new(|v: u64| handed(reqs, v)));
    assert forall|v: u64| handed(reqs, v) <==> exists|i: int|
        new_at(initial(), id, reqs, i, v) by {
        lemma_new_exists(initial(), id, reqs, v);
    }
    assert(run(initial(), id, reqs).values =~= Set::new(
        |v: u64| exists|i: int| new_at(initial(), id, reqs, i, v),
    ));
}

/// A request finds the value it hands over new exactly when the node did not know the
/// value at the start and no earlier request of the run handed it over.
pub proof fn lemma_new_is_first(
    s: NodeState,
    id: Seq<char>,
    reqs: Seq<Option<Request>>,
    i: int,
    v: u64,
)
    requires
        0 <= i < reqs.len(),
        hands(reqs[i], v),
    ensures
        new_at(s, id, reqs, i, v) <==> !s.values.contains(v) && forall|k: int|
            0 <= k < i ==> !hands(#[trigger] reqs[k], v),
{
    let before = reqs.take(i);
    lemma_run_values(s, id, before);
    if handed(before, v) {
        let k = choose|k: int| 0 <= k < before.len() && hands(#[trigger] before[k], v);
        assert(hands(reqs[k], v));
    }
    if exists|k: int| 0 <= k < i && hands(#[trigger] reqs[k], v) {
        let k = choose|k: int| 0 <= k < i && hands(#[trigger] reqs[k], v);
        assert(hands(before[k], v));
    }
}

/// However often a run hands the same value to a node, at most one of those requests
/// finds it new; every other finds a duplicate.
pub proof fn lemma_new_at_most_once(
    s: NodeState,
    id: Seq<char>,
    reqs: Seq<Option<Request>>,
    i: int,
    j: int,
    v: u64,
)
    requires
        new_at(s, id, reqs, i, v),
        new_at(s, id, reqs, j, v),
    ensures
        i == j,
{
    lemma_new_is_first(s, id, reqs, i, v);
    lemma_new_is_first(s, id, reqs, j, v);
}

/// Some request of a run finds `v` new exactly when the node did not know `v` at the
/// start and the run hands it over.
pub proof fn lemma_new_exists(s: NodeState, id: Seq<char>, reqs: Seq<Option<Request>>, v: u64)
    ensures
        (exists|i: int| new_at(s, id, reqs, i, v)) <==> !s.values.contains(v) && handed(reqs, v),
    decreases reqs.len(),
{
    if exists|i: int| new_at(s, id, reqs, i, v) {
        let i = choose|i: int| new_at(s, id, reqs, i, v);
        lemma_new_is_first(s, id, reqs, i, v);
        assert(hands(reqs[i], v));
    }
    if !s.values.contains(v) && handed(reqs, v) {
        let front = reqs.drop_last();
        lemma_handed_step(reqs, v);
        if handed(front, v) {
            lemma_new_exists(s, id, front, v);
            let i = choose|i: int| new_at(s, id, front, i, v);
            assert(front.take(i) =~= reqs.take(i));
            assert(new_at(s, id, reqs, i, v));
        } else {
            let last = reqs.len() - 1;
            lemma_run_values(s, id, front);
            assert(reqs.take(last) =~= front);
            assert(new_at(s, id, reqs, last, v));
        }
    }
}

/// The sends that forward one value all carry that value, and no other.
proof fn lemma_fan_out_filter(neighbors: Seq<Seq<char>>, element: u64, v: u64)
    ensures
        fan_out(neighbors, element).filter(carries(v)) == if element == v {
            fan_out(neighbors, element)
        } else {
            Seq::empty()
        },
    decreases neighbors.len(),
{
    reveal(Seq::filter);
    let all = fan_out(neighbors, element);
    if neighbors.len() > 0 {
        lemma_fan_out_filter(neighbors.drop_last(), element, v);
        assert(all.drop_last() =~= fan_out(neighbors.drop_last(), element));
        assert(carries(v)(all.last()) == (element == v));
        if element == v {
            assert(all.filter(carries(v)) =~= all);
        }
    } else {
        assert(all.filter(carries(v)) =~= Seq::empty());
    }
}

/// The last request of a run adds to the sends that carry `v` one for each neighbour where
/// it hands `v` to a node that does not know it, and nothing otherwise.
proof fn lemma_sent_of_step(s: NodeState, id: Seq<char>, reqs: Seq<Option<Request>>, v: u64)
    requires
        reqs.len() > 0,
    ensures
        sent_of(s, id, reqs, v) == sent_of(s, id, reqs.drop_last(), v) + if hands(reqs.last(), v)
            && !run(s, id, reqs.drop_last()).values.contains(v) {
            fan_out(run(s, id, reqs.drop_last()).neighbors, v)
        } else {
            Seq::empty()
        },
{
    let before = run(s, id, reqs.drop_last());
    let earlier = sent(s, id, reqs.drop_last());
    let latest = sends_for(before, reqs.last());
    let none = Seq::<(Seq<char>, u64)>::empty();
    assert(sent(s, id, reqs) == earlier + latest);
    Seq::filter_distributes_over_add(earlier, latest, carries(v));
    assert(none.filter(carries(v)) =~= none) by {
        reveal(Seq::filter);
    }
    match reqs.last() {
        Some(Request::Broadcast { message }) => {
            lemma_fan_out_filter(before.neighbors, message, v);
        },
        _ => {},
    }
}

/// A value that the node knew at the start, or that the run never hands over, is never
/// sent on.
pub proof fn lemma_not_forwarded(s: NodeState, id: Seq<char>, reqs: Seq<Option<Request>>, v: u64)
    requires
        s.values.contains(v) || !handed(reqs, v),
    ensures
        sent_of(s, id, reqs, v) == Seq::<(Seq<char>, u64)>::empty(),
    decreases reqs.len(),
{
    if reqs.len() == 0 {
        assert(sent_of(s, id, reqs, v) =~= Seq::empty()) by {
            reveal(Seq::filter);
        }
    } else {
        lemma_handed_step(reqs, v);
        lemma_not_forwarded(s, id, reqs.drop_last(), v);
        lemma_run_values(s, id, reqs.drop_last());
        lemma_sent_of_step(s, id, reqs, v);
    }
}

/// A value is forwarded once, however often the node is handed it: where the `i`-th
/// request of a run finds `v` new, the sends of the whole run that carry `v` are one to
/// each neighbour that the node had at that moment, in their order, and no more.
pub proof fn lemma_forwarded_once(
    s: NodeState,
    id: Seq<char>,
    reqs: Seq<Option<Request>>,
    i: int,
    v: u64,
)
    requires
        new_at(s, id, reqs, i, v),
    ensures
        sent_of(s, id, reqs, v) == fan_out(run(s, id, reqs.take(i)).neighbors, v),
        sent_of(s, id, reqs, v).len() == run(s, id, reqs.take(i)).neighbors.len(),
    decreases reqs.len(),
{
    let front = reqs.drop_last();
    lemma_sent_of_step(s, id, reqs, v);
    lemma_run_values(s, id, front);
    if i == reqs.len() - 1 {
        assert(reqs.take(i) =~= front);
        lemma_not_forwarded(s, id, front, v);
    } else {
        assert(front.take(i) =~= reqs.take(i));
        assert(hands(front[i], v));
        lemma_forwarded_once(s, id, front, i, v);
    }
}

/// An accepted topology replaces the neighbour list whole: after two updates in a row the
/// list is what the second mapping gives the node, whatever the first one gave.
pub proof fn lemma_topology_replaced(
    current: Seq<Seq<char>>,
    first: Map<Seq<char>, Seq<Seq<char>>>,
    second: Map<Seq<char>, Seq<Seq<char>>>,
    id: Seq<char>,
)
    requires
        second.contains_key(id),
    ensures
        updated(updated(current, first, id), second, id) == second[id],
        updated(updated(current, first, id), second, id) == updated(current, second, id),
{
}

/// A run in which the node accepts no topology leaves its neighbours as they were.
pub proof fn lemma_neighbors_kept(s: NodeState, id: Seq<char>, reqs: Seq<Option<Request>>)
    requires
        forall|k: int| 0 <= k < reqs.len() ==> !rewires(#[trigger] reqs[k], id),
    ensures
        run(s, id, reqs).neighbors == s.neighbors,
    decreases reqs.len(),
{
    if reqs.len() > 0 {
        let front = reqs.drop_last();
        assert forall|k: int| 0 <= k < front.len() implies !rewires(#[trigger] front[k], id) by {
            assert(front[k] == reqs[k]);
        }
        lemma_neighbors_kept(s, id, front);
        assert(!rewires(reqs[reqs.len() - 1], id));
    }
}

/// After a run the neighbours of a node are those that the last topology it accepted
/// lists for it, with nothing left of any earlier one: where the `i`-th request is the
/// last accepted topology, the node ends with that topology's list.
pub proof fn lemma_latest_topology_rules(
    s: NodeState,
    id: Seq<char>,
    reqs: Seq<Option<Request>>,
    i: int,
    topology: Map<Seq<char>, Seq<Seq<char>>>,
)
    requires
        0 <= i < reqs.len(),
        reqs[i] matches Some(Request::Topology { topology: latest }) && latest@ == topology,
        topology.contains_key(id),
        forall|k: int| i < k < reqs.len() ==> !rewires(#[trigger] reqs[k], id),
    ensures
        run(s, id, reqs).neighbors == topology[id],
    decreases reqs.len(),
{
    let front = reqs.drop_last();
    if i < reqs.len() - 1 {
        assert(front[i] == reqs[i]);
        assert forall|k: int| i < k < front.len() implies !rewires(#[trigger] front[k], id) by {
            assert(front[k] == reqs[k]);
        }
        lemma_latest_topology_rules(s, id, front, i, topology);
        assert(!rewires(reqs[reqs.len() - 1], id));
    }
}

/// A node that was never handed a topology has no neighbour and asks for no send, and
/// still knows every value it was handed.
pub proof fn lemma_lone_node(id: Seq<char>, reqs: Seq<Option<Request>>)
    requires
        forall|k: int| 0 <= k < reqs.len() ==> !(#[trigger] reqs[k] matches Some(
            Request::Topology { .. },
        )),
    ensures
        run(initial(), id, reqs).neighbors == Seq::<Seq<char>>::empty(),
        sent(initial(), id, reqs) == Seq::<(Seq<char>, u64)>::empty(),
        run(initial(), id, reqs).values == Set::new(|v: u64| handed(reqs, v)),
    decreases reqs.len(),
{
    lemma_read_complete(id, reqs);
    if reqs.len() > 0 {
        let front = reqs.drop_last();
        assert forall|k: int| 0 <= k < front.len() implies !(#[trigger] front[k] matches Some(
            Request::Topology { .. },
        )) by {
            assert(front[k] == reqs[k]);
        }
        lemma_lone_node(id, front);
        assert(!(reqs[reqs.len() - 1] matches Some(Request::Topology { .. })));
        assert(sends_for(run(initial(), id, front), reqs.last()) =~= Seq::empty());
        assert(sent(initial(), id, reqs) =~= Seq::empty());
    }
}

/// A node without neighbours knows after a run what a forwarding node knows after the
/// same run: what it knew before and what the run handed it.
pub proof fn lemma_run_alone(values: Set<u64>, reqs: Seq<Option<Request>>)
    ensures
        forall|s: NodeState, id: Seq<char>|
            s.values == values ==> #[trigger] run(s, id, reqs).values == run_alone(values, reqs),
        forall|v: u64| #[trigger]
            run_alone(values, reqs).contains(v) <==> values.contains(v) || handed(reqs, v),
    decreases reqs.len(),
{
    if reqs.len() > 0 {
        let front = reqs.drop_last();
        lemma_run_alone(values, front);
        assert forall|s: NodeState, id: Seq<char>| s.values == values implies #[trigger] run(
            s,
            id,
            reqs,
        ).values == run_alone(values, reqs) by {
            assert(run(s, id, front).values == run_alone(values, front));
        }
    }
    let s = NodeState { values, neighbors: Seq::empty() };
    let id = Seq::<char>::empty();
    lemma_run_values(s, id, reqs);
    assert(run(s, id, reqs).values == run_alone(values, reqs));
}

} // verus!
