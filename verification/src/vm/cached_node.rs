//! A cache in front of a provider of nodes.

use crate::vm::api;
use crate::vm::api::{Node, NodeKind, NodeKindView};
use crate::vm::driver::driver::{all_valid, id_space, IdTable, Kinds, NodeId};
use crate::vm::driver::machine;
use crate::vm::driver::machine::Config;
use crate::vm::driver::resolution;
use vstd::prelude::*;

verus! {

/// A node of a cache: it stands for the source node that the cache keeps at
/// this position.
#[derive(PartialEq, Eq, Hash, Debug, Clone, Copy, Structural)]
pub struct CachedNode {
    id: NodeId,
}

impl CachedNode {
    /// The position of the source node in the cache.
    pub closed spec fn position(self) -> NodeId {
        self.id
    }

    /// The position of the source node in the cache.
    pub fn id(&self) -> (id: NodeId)
        ensures
            id == self.position(),
    {
        self.id
    }
}

/// `kind` with each cached node replaced by its position.
pub open spec fn positions(kind: NodeKindView<CachedNode>) -> NodeKindView<NodeId> {
    match kind {
        NodeKindView::Command { command, next } => NodeKindView::Command {
            command,
            next: next.position(),
        },
        NodeKindView::Branch { condition, if_true, if_false } => NodeKindView::Branch {
            condition,
            if_true: if_true.position(),
            if_false: if_false.position(),
        },
        NodeKindView::Call { offset, call, next } => NodeKindView::Call {
            offset,
            call: call.position(),
            next: next.position(),
        },
        NodeKindView::Final => NodeKindView::Final,
    }
}

/// A cache in front of a node provider: it asks each source node for its
/// kind once and keeps the answer, so that a graph is explored in time
/// linear in the number of its nodes, whatever an answer costs.
pub struct Cache<N: Node> {
    sources: IdTable<N>,
    cached: Vec<Option<NodeKind<NodeId>>>,
}

impl<N: Node> View for Cache<N> {
    type V = Seq<N>;

    /// The source nodes, by position.
    closed spec fn view(&self) -> Seq<N> {
        self.sources@
    }
}

fn wrap(kind: &NodeKind<NodeId>) -> (wrapped: NodeKind<CachedNode>)
    ensures
        positions(wrapped@) == kind@,
{
    match kind {
        NodeKind::Command { command, next } => NodeKind::Command {
            command: command.duplicate(),
            next: CachedNode { id: *next },
        },
        NodeKind::Branch { condition, if_true, if_false } => NodeKind::Branch {
            condition: *condition,
            if_true: CachedNode { id: *if_true },
            if_false: CachedNode { id: *if_false },
        },
        NodeKind::Call { offset, call, next } => NodeKind::Call {
            offset: *offset,
            call: CachedNode { id: *call },
            next: CachedNode { id: *next },
        },
        NodeKind::Final => NodeKind::Final,
    }
}

impl<N: Node> Cache<N> {
    /// The kinds that the cache keeps, by position.
    pub closed spec fn table(&self) -> Kinds {
        Map::new(
            |id: NodeId| id.0 < self.cached@.len() && self.cached@[id.0 as int] is Some,
            |id: NodeId| self.cached@[id.0 as int]->Some_0@,
        )
    }

    /// Each source node has one position, and each kind that the cache keeps
    /// is the kind of the source node at its position, with positions in
    /// place of the successors.
    pub closed spec fn well_formed(&self) -> bool {
        &&& self.sources.well_formed()
        &&& all_valid(self.sources@)
        &&& self.cached@.len() == self.sources@.len()
        &&& resolution::consistent(self.table(), self.sources@, resolution::plain_graph::<N>())
    }

    pub fn new() -> (cache: Cache<N>)
        ensures
            cache.well_formed(),
            cache@.len() == 0,
    {
        Cache { sources: IdTable::new(), cached: Vec::new() }
    }

    /// The number of source nodes that the cache holds.
    pub fn len(&self) -> (len: usize)
        ensures
            len == self@.len(),
    {
        self.sources.len()
    }

    /// The cached node that stands for `node`. Equal source nodes get the
    /// same cached node.
    pub fn cache(&mut self, node: N) -> (cached: CachedNode)
        requires
            old(self).well_formed(),
            node.valid(),
            api::behaves_as_value::<N>(),
            old(self)@.len() < id_space(),
        ensures
            final(self).well_formed(),
            cached.position().0 < final(self)@.len(),
            final(self)@[cached.position().0 as int] == node,
            resolution::grows_from(final(self)@, old(self)@),
            final(self)@.len() <= old(self)@.len() + 1,
            old(self)@.contains(node) ==> final(self)@ == old(self)@,
            final(self).table() == old(self).table(),
    {
        CachedNode { id: self.get_inner(node) }
    }

    /// The kind of the source node that `node` stands for, with cached nodes
    /// in place of its successors. The source node is asked at most once.
    pub fn kind(&mut self, node: CachedNode) -> (kind: NodeKind<CachedNode>)
        requires
            old(self).well_formed(),
            api::behaves_as_value::<N>(),
            node.position().0 < old(self)@.len(),
            old(self)@.len() + 2 <= id_space(),
        ensures
            final(self).well_formed(),
            resolution::grows_from(final(self)@, old(self)@),
            final(self)@.len() <= old(self)@.len() + 2,
            resolution::in_range(positions(kind@), final(self)@.len()),
            resolution::resolve(positions(kind@), final(self)@) == old(self)@[node.position().0 as int].kind(),
            old(self).table().contains_key(node.position()) ==> positions(kind@) == old(
                self,
            ).table()[node.position()] && final(self)@ == old(self)@,
            final(self).table() == old(self).table().insert(node.position(), positions(kind@)),
    {
        let ghost nodes = self.sources@;
        let ghost graph = resolution::plain_graph::<N>();
        let at: usize = node.id.0 as usize;
        match &self.cached[at] {
            Some(found) => {
                let kind = wrap(found);
                proof {
                    assert(self.table().contains_key(node.id));
                    assert(self.sources@.take(nodes.len() as int) =~= nodes);
                    assert(self.table() =~= self.table().insert(node.id, positions(kind@)));
                }
                return kind;
            },
            None => {},
        }
        let source = self.sources.node_of(node.id).get();
        let computed: NodeKind<NodeId> = match source {
            NodeKind::Command { command, next } => {
                let next = self.get_inner(next);
                NodeKind::Command { command, next }
            },
            NodeKind::Branch { condition, if_true, if_false } => {
                let if_true = self.get_inner(if_true);
                let ghost middle = self.sources@;
                let if_false = self.get_inner(if_false);
                proof {
                    resolution::lemma_grows_keeps_nodes(self.sources@, middle, if_true.0 as int);
                    resolution::lemma_grows_twice(self.sources@, middle, nodes);
                }
                NodeKind::Branch { condition, if_true, if_false }
            },
            NodeKind::Call { offset, call, next } => {
                let call = self.get_inner(call);
                let ghost middle = self.sources@;
                let next = self.get_inner(next);
                proof {
                    resolution::lemma_grows_keeps_nodes(self.sources@, middle, call.0 as int);
                    resolution::lemma_grows_twice(self.sources@, middle, nodes);
                }
                NodeKind::Call { offset, call, next }
            },
            NodeKind::Final => {
                assert(self.sources@.take(nodes.len() as int) =~= nodes);
                NodeKind::Final
            },
        };
        let kind = wrap(&computed);
        let ghost before = self.table();
        proof {
            resolution::lemma_consistent_grows(old(self).table(), nodes, self.sources@, graph);
            resolution::lemma_grows_keeps_nodes(self.sources@, nodes, at as int);
        }
        self.cached[at] = Some(computed);
        proof {
            assert(self.table() =~= before.insert(node.id, positions(kind@)));
            let longer = self.sources@;
            assert forall|id: NodeId| #[trigger] self.table().contains_key(id) implies {
                &&& id.0 < longer.len()
                &&& resolution::in_range(self.table()[id], longer.len())
                &&& graph.contains_key(longer[id.0 as int])
                &&& resolution::resolve(self.table()[id], longer) == graph[longer[id.0 as int]]
            } by {
                if id != node.id {
                    assert(before.contains_key(id));
                }
            }
        }
        kind
    }

    /// The position of `node`, which is a new one where the cache did not
    /// hold the node.
    fn get_inner(&mut self, node: N) -> (id: NodeId)
        requires
            old(self).well_formed(),
            node.valid(),
            api::behaves_as_value::<N>(),
            old(self)@.len() < id_space(),
        ensures
            final(self).well_formed(),
            id.0 < final(self)@.len(),
            final(self)@[id.0 as int] == node,
            resolution::grows_from(final(self)@, old(self)@),
            final(self)@.len() <= old(self)@.len() + 1,
            old(self)@.contains(node) ==> final(self)@ == old(self)@,
            final(self).table() == old(self).table(),
    {
        let ghost nodes = self.sources@;
        let id = self.sources.intern(node);
        assert(self.sources@.take(nodes.len() as int) =~= nodes);
        if self.cached.len() < self.sources.len() {
            self.cached.push(None);
        }
        proof {
            assert(self.table() =~= old(self).table());
            resolution::lemma_consistent_grows(
                old(self).table(),
                nodes,
                self.sources@,
                resolution::plain_graph::<N>(),
            );
        }
        id
    }
}


/// The cache is transparent: on the kinds that a cache keeps, the frame
/// machine goes the way that it goes on the graph of the source nodes, for
/// as long as the cache knows the nodes that it meets. From a state from
/// which the machine finishes on the source graph within `steps` steps, it
/// settles on the cache after `taken` of them, in the state that it reaches
/// on the source graph by them: the same frames, with cached nodes for the
/// source nodes, and the same stack.
pub proof fn lemma_cache_is_transparent<N: Node>(
    cache: &Cache<N>,
    frames: Seq<(NodeId, nat)>,
    stack: Seq<u8>,
    steps: nat,
) -> (taken: nat)
    requires
        cache.well_formed(),
        resolution::frames_in_range(frames, cache@.len()),
        machine::finishes_within(
            resolution::plain_graph::<N>(),
            resolution::lifted(Config { frames, stack }, cache@),
            steps,
        ),
    ensures
        taken <= steps,
        machine::settles_within(cache.table(), Config { frames, stack }, taken),
        resolution::lifted(machine::run(cache.table(), Config { frames, stack }, taken), cache@)
            == machine::run(
            resolution::plain_graph::<N>(),
            resolution::lifted(Config { frames, stack }, cache@),
            taken,
        ),
{
    resolution::lemma_engine_follows_graph(
        cache.table(),
        cache@,
        resolution::plain_graph::<N>(),
        Config { frames, stack },
        steps,
    )
}

} // verus!
