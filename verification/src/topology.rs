//! The neighbour graph a node is handed, and the part of it the node keeps.

use vstd::prelude::*;

verus! {

/// One node of the graph with the nodes it is told to forward to.
#[derive(Debug)]
struct Entry {
    node: String,
    neighbors: Vec<String>,
}

/// The neighbours listed for `node` by the first entry of `entries` that names it.
spec fn lookup(entries: Seq<Entry>, node: Seq<char>) -> Option<Seq<Seq<char>>>
    decreases entries.len(),
{
    if entries.len() == 0 {
        None
    } else if entries[0].node@ == node {
        Some(entries[0].neighbors.deep_view())
    } else {
        lookup(entries.skip(1), node)
    }
}

/// Replacing the first entry that names a node changes what is listed for that node and
/// for no other.
proof fn lemma_lookup_update(entries: Seq<Entry>, i: int, entry: Entry, node: Seq<char>)
    requires
        0 <= i < entries.len(),
        entries[i].node@ == entry.node@,
        forall|j: int| 0 <= j < i ==> entries[j].node@ != entry.node@,
    ensures
        lookup(entries.update(i, entry), node) == if node == entry.node@ {
            Some(entry.neighbors.deep_view())
        } else {
            lookup(entries, node)
        },
    decreases i,
{
    let updated = entries.update(i, entry);
    if i == 0 {
        assert(updated.skip(1) =~= entries.skip(1));
    } else {
        assert(updated[0] == entries[0]);
        assert(updated.skip(1) =~= entries.skip(1).update(i - 1, entry));
        assert forall|j: int| 0 <= j < i - 1 implies entries.skip(1)[j].node@ != entry.node@ by {
            assert(entries.skip(1)[j] == entries[j + 1]);
        }
        lemma_lookup_update(entries.skip(1), i - 1, entry, node);
    }
}

/// An entry added at the end is found only for a node that no earlier entry names.
proof fn lemma_lookup_push(entries: Seq<Entry>, entry: Entry, node: Seq<char>)
    ensures
        lookup(entries.push(entry), node) == if lookup(entries, node) is Some {
            lookup(entries, node)
        } else if node == entry.node@ {
            Some(entry.neighbors.deep_view())
        } else {
            None
        },
    decreases entries.len(),
{
    let pushed = entries.push(entry);
    if entries.len() == 0 {
        assert(pushed.skip(1) =~= entries);
    } else {
        assert(pushed[0] == entries[0]);
        assert(pushed.skip(1) =~= entries.skip(1).push(entry));
        lemma_lookup_push(entries.skip(1), entry, node);
    }
}

/// A mapping from node identifier to that node's ordered list of neighbours.
#[derive(Debug)]
pub struct Topology {
    entries: Vec<Entry>,
}

impl View for Topology {
    type V = Map<Seq<char>, Seq<Seq<char>>>;

    closed spec fn view(&self) -> Map<Seq<char>, Seq<Seq<char>>> {
        Map::new(
            |node: Seq<char>| lookup(self.entries@, node) is Some,
            |node: Seq<char>| lookup(self.entries@, node)->0,
        )
    }
}

impl Topology {
    /// A mapping with no node in it.
    pub fn new() -> (topology: Self)
        ensures
            topology@ == Map::<Seq<char>, Seq<Seq<char>>>::empty(),
    {
        let topology = Topology { entries: Vec::new() };
        assert(topology@ =~= Map::<Seq<char>, Seq<Seq<char>>>::empty());
        topology
    }

    /// Lists `neighbors` for `node`, in place of what was listed for it before, if anything.
    pub fn insert(&mut self, node: String, neighbors: Vec<String>)
        ensures
            final(self)@ == old(self)@.insert(node@, neighbors.deep_view()),
    {
        let entry = Entry { node, neighbors };
        let at = self.position(entry.node.as_str());
        if at < self.entries.len() {
            proof {
                assert forall|other: Seq<char>|
                    lookup(self.entries@.update(at as int, entry), other) == if other
                        == entry.node@ {
                        Some(entry.neighbors.deep_view())
                    } else {
                        lookup(self.entries@, other)
                    } by {
                    lemma_lookup_update(self.entries@, at as int, entry, other);
                }
            }
            self.entries.set(at, entry);
        } else {
            proof {
                assert forall|other: Seq<char>|
                    lookup(self.entries@.push(entry), other) == if lookup(self.entries@, other)
                        is Some {
                        lookup(self.entries@, other)
                    } else if other == entry.node@ {
                        Some(entry.neighbors.deep_view())
                    } else {
                        None
                    } by {
                    lemma_lookup_push(self.entries@, entry, other);
                }
            }
            self.entries.push(entry);
        }
        assert(self@ =~= old(self)@.insert(entry.node@, entry.neighbors.deep_view()));
    }

    /// The index of the first entry that names `node`, or the number of entries if none
    /// does.
    fn position(&self, node: &str) -> (at: usize)
        ensures
            at <= self.entries.len(),
            forall|j: int| 0 <= j < at ==> self.entries@[j].node@ != node@,
            at < self.entries.len() ==> self.entries@[at as int].node@ == node@,
            lookup(self.entries@, node@) == if at < self.entries.len() {
                Some(self.entries@[at as int].neighbors.deep_view())
            } else {
                None
            },
    {
        let mut i: usize = 0;
        assert(self.entries@.skip(0) =~= self.entries@);
        while i < self.entries.len()
            invariant
                i <= self.entries.len(),
                forall|j: int| 0 <= j < i ==> self.entries@[j].node@ != node@,
                lookup(self.entries@, node@) == lookup(self.entries@.skip(i as int), node@),
            decreases self.entries.len() - i,
        {
            let ghost rest = self.entries@.skip(i as int);
            assert(rest.len() > 0 && rest[0] == self.entries@[i as int]);
            if *self.entries[i].node.as_str() == *node {
                return i;
            }
            assert(rest.skip(1) =~= self.entries@.skip(i + 1));
            i += 1;
        }
        i
    }

    /// The neighbours listed for `node`, if the mapping names it.
    pub fn get(&self, node: &str) -> (found: Option<&Vec<String>>)
        ensures
            match found {
                Some(list) => self@.contains_key(node@) && list.deep_view() == self@[node@],
                None => !self@.contains_key(node@),
            },
    {
        let at = self.position(node);
        if at < self.entries.len() {
            Some(&self.entries[at].neighbors)
        } else {
            None
        }
    }
}

/// Why a topology update was refused.
#[derive(Debug, Clone, Copy, PartialEq, Eq, Structural)]
pub enum TopologyError {
    /// The mapping does not name the node that was to read its neighbours from it.
    NodeNotListed,
}

/// The neighbour list after an update from `mapping` is offered to the node `self_id`
/// whose list was `current`: what `mapping` lists for the node, or `current` where
/// `mapping` does not name it.
pub open spec fn updated(
    current: Seq<Seq<char>>,
    mapping: Map<Seq<char>, Seq<Seq<char>>>,
    self_id: Seq<char>,
) -> Seq<Seq<char>> {
    if mapping.contains_key(self_id) {
        mapping[self_id]
    } else {
        current
    }
}

/// The neighbours a node currently forwards to: what the latest accepted update listed
/// for it, and nothing of any earlier update.
pub struct TopologyTable {
    nbrs: Vec<String>,
}

impl View for TopologyTable {
    type V = Seq<Seq<char>>;

    closed spec fn view(&self) -> Seq<Seq<char>> {
        self.nbrs.deep_view()
    }
}

impl TopologyTable {
    /// A table with no neighbour, as it is before any update.
    pub fn new() -> (table: Self)
        ensures
            table@ == Seq::<Seq<char>>::empty(),
    {
        let table = TopologyTable { nbrs: Vec::new() };
        assert(table@ =~= Seq::<Seq<char>>::empty());
        table
    }

    /// Replaces the neighbour list by the one that `mapping` lists for `self_id`. If
    /// `mapping` does not name `self_id`, the update is refused and the list stays as it
    /// was.
    pub fn update(&mut self, mapping: &Topology, self_id: &str) -> (done: Result<
        (),
        TopologyError,
    >)
        ensures
            done is Ok <==> mapping@.contains_key(self_id@),
            final(self)@ == updated(old(self)@, mapping@, self_id@),
    {
        match mapping.get(self_id) {
            Some(list) => {
                self.nbrs = list.clone();
                Ok(())
            },
            None => Err(TopologyError::NodeNotListed),
        }
    }

    /// The neighbours as of the last accepted update, in the order the update gave them.
    pub fn current_neighbors(&self) -> (list: &Vec<String>)
        ensures
            list.deep_view() == self@,
    {
        &self.nbrs
    }
}

} // verus!
