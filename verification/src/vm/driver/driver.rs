//! The driver, the table of identifiers, and what every engine promises.

use crate::vm::api;
use crate::vm::api::{Node, NodeKind, NodeKindView};
use crate::vm::driver::equivalence;
use crate::vm::driver::machine;
use crate::vm::driver::resolution;
use crate::vm::interpreter;
use crate::vm::interpreter::get_final_kind;
use std::collections::HashMap;
use vstd::prelude::*;

verus! {

/// The identifier of a node: its position in the order in which the driver
/// first saw the nodes.
#[derive(Debug, Eq, PartialEq, Clone, Copy, Hash, Structural)]
pub struct NodeId(pub u32);

impl NodeId {
    pub fn next(self) -> (id: NodeId)
        requires
            self.0 < u32::MAX,
        ensures
            id.0 == self.0 + 1,
    {
        NodeId(self.0 + 1)
    }
}

/// The kinds that an engine knows, by identifier.
pub type Kinds = Map<NodeId, NodeKindView<NodeId>>;

/// A node to run, with the offset of its frame.
pub struct Frame {
    pub id: NodeId,
    // with what offset, counted from the frame below, this and the
    // subsequent nodes are executed
    pub offset: usize,
}

/// The frames of an evaluation, innermost last.
pub struct RunState {
    pub frames: Vec<Frame>,
}

impl View for RunState {
    type V = Seq<(NodeId, nat)>;

    open spec fn view(&self) -> Seq<(NodeId, nat)> {
        Seq::new(self.frames@.len(), |i: int| (self.frames@[i].id, self.frames@[i].offset as nat))
    }
}

impl RunState {
    /// Pushes a frame for `id` that starts `offset` bytes into the frame
    /// below it.
    pub fn push(&mut self, id: NodeId, offset: usize)
        ensures
            final(self)@ == old(self)@.push((id, offset as nat)),
    {
        self.frames.push(Frame { id, offset });
        assert(self@ =~= old(self)@.push((id, offset as nat)));
    }

    /// Pops the innermost frame.
    pub fn pop(&mut self) -> (frame: Frame)
        requires
            old(self)@.len() > 0,
        ensures
            final(self)@ == old(self)@.drop_last(),
            (frame.id, frame.offset as nat) == old(self)@.last(),
    {
        let frame = self.frames.pop().unwrap();
        assert(self@ =~= old(self)@.drop_last());
        frame
    }

    /// Hands the innermost frame over to `id`.
    pub fn replace_top(&mut self, id: NodeId)
        requires
            old(self)@.len() > 0,
        ensures
            final(self)@ == old(self)@.drop_last().push((id, old(self)@.last().1)),
            machine::base(final(self)@) == machine::base(old(self)@),
    {
        let frame = self.pop();
        self.push(id, frame.offset);
        assert(self@.drop_last() =~= old(self)@.drop_last());
    }

    /// The node of the innermost frame.
    pub fn top(&self) -> (id: NodeId)
        requires
            self@.len() > 0,
        ensures
            id == self@.last().0,
    {
        self.frames[self.frames.len() - 1].id
    }

    /// Whether no frame is left.
    pub fn is_empty(&self) -> (empty: bool)
        ensures
            empty == (self@.len() == 0),
    {
        self.frames.len() == 0
    }

    /// The position in the data stack at which the innermost frame starts.
    pub fn offset(&self) -> (offset: usize)
        requires
            machine::base(self@) <= usize::MAX,
        ensures
            offset == machine::base(self@),
    {
        let mut total: usize = 0;
        let mut i: usize = 0;
        proof {
            lemma_base_of_prefix(self@, 0);
        }
        while i < self.frames.len()
            invariant
                i <= self.frames@.len(),
                total == machine::base(self@.take(i as int)),
                machine::base(self@) <= usize::MAX,
            decreases self.frames@.len() - i,
        {
            proof {
                lemma_base_of_prefix(self@, i as int + 1);
                lemma_base_is_monotone(self@, i as int + 1);
            }
            total = total + self.frames[i].offset;
            i += 1;
        }
        assert(self@.take(i as int) =~= self@);
        total
    }
}

/// The base of a prefix of the frames unfolds at its last frame.
pub proof fn lemma_base_of_prefix<K>(frames: Seq<(K, nat)>, count: int)
    requires
        0 <= count <= frames.len(),
    ensures
        count == 0 ==> machine::base(frames.take(count)) == 0,
        count > 0 ==> machine::base(frames.take(count)) == machine::base(frames.take(count - 1))
            + frames[count - 1].1,
{
    if count > 0 {
        assert(frames.take(count).drop_last() =~= frames.take(count - 1));
    }
}

/// The base of a prefix of the frames is at most the base of them all.
pub proof fn lemma_base_is_monotone<K>(frames: Seq<(K, nat)>, count: int)
    requires
        0 <= count <= frames.len(),
    ensures
        machine::base(frames.take(count)) <= machine::base(frames),
    decreases frames.len() - count,
{
    if count < frames.len() {
        lemma_base_is_monotone(frames, count + 1);
        lemma_base_of_prefix(frames, count + 1);
    } else {
        assert(frames.take(count) =~= frames);
    }
}

/// The state of the frame machine that `frames` and `stack` stand for.
pub open spec fn config(frames: Seq<(NodeId, nat)>, stack: Seq<u8>) -> machine::Config<NodeId> {
    machine::Config { frames, stack }
}

/// An engine runs registered nodes. It knows a node by its identifier and
/// by the kind that was registered for it.
pub trait Engine {
    /// The engine's own invariant.
    spec fn well_formed(&self) -> bool;

    /// The kinds that were registered, by identifier.
    spec fn kinds(&self) -> Kinds;

    /// Records `kind` for `id`, unless a kind was recorded for it before: a
    /// recorded kind is never changed, and to register a node again changes
    /// nothing. The driver never registers a command that leaves the stack as
    /// it is.
    fn register(&mut self, id: NodeId, kind: NodeKind<NodeId>)
        requires
            old(self).well_formed(),
            !kind@.is_skip(),
        ensures
            final(self).well_formed(),
            final(self).kinds() == if old(self).kinds().contains_key(id) {
                old(self).kinds()
            } else {
                old(self).kinds().insert(id, kind@)
            },
    ;

    /// Runs the frame machine on the registered kinds until no frame is left
    /// or the node of the innermost frame is not registered. Returns `true`
    /// where it stopped at a node that is not registered.
    fn run(&self, state: &mut RunState, stack: &mut [u8]) -> (suspended: bool)
        requires
            self.well_formed(),
            machine::settles(self.kinds(), config(old(state)@, old(stack)@)),
        ensures
            config(final(state)@, final(stack)@) == machine::outcome(
                self.kinds(),
                config(old(state)@, old(stack)@),
            ),
            suspended == (final(state)@.len() > 0),
    ;
}


/// The number of identifiers.
pub open spec fn id_space() -> nat {
    0x1_0000_0000
}

/// The table that gives each node seen so far an identifier: the first node
/// gets 0, the next 1, and so on. It only grows.
pub struct IdTable<N: Node> {
    nodes: Vec<N>,
    idx: HashMap<N, NodeId>,
}

impl<N: Node> View for IdTable<N> {
    type V = Seq<N>;

    /// The nodes in the order of their identifiers.
    closed spec fn view(&self) -> Seq<N> {
        self.nodes@
    }
}

impl<N: Node> IdTable<N> {
    /// The index finds each node at its identifier, and no node is there
    /// twice.
    pub closed spec fn well_formed(&self) -> bool {
        &&& self.nodes@.len() <= id_space()
        &&& forall|node: N| #[trigger]
            self.idx@.contains_key(node) ==> self.idx@[node].0 < self.nodes@.len()
                && self.nodes@[self.idx@[node].0 as int] == node
        &&& forall|at: int|
            0 <= at < self.nodes@.len() ==> self.idx@.contains_key(#[trigger] self.nodes@[at])
                && self.idx@[self.nodes@[at]].0 == at
    }

    pub fn new() -> (table: IdTable<N>)
        ensures
            table.well_formed(),
            table@.len() == 0,
    {
        IdTable { nodes: Vec::new(), idx: HashMap::new() }
    }

    /// No node has two identifiers.
    pub proof fn lemma_ids_are_unique(&self, first: int, second: int)
        requires
            self.well_formed(),
            0 <= first < self@.len(),
            0 <= second < self@.len(),
            self@[first] == self@[second],
        ensures
            first == second,
    {
        assert(self.idx@.contains_key(self.nodes@[first]));
        assert(self.idx@.contains_key(self.nodes@[second]));
    }

    /// The identifier of `node`, which is a new one where the node was not
    /// seen before.
    pub fn intern(&mut self, node: N) -> (id: NodeId)
        requires
            old(self).well_formed(),
            api::behaves_as_value::<N>(),
            old(self)@.len() < id_space(),
        ensures
            final(self).well_formed(),
            id.0 < final(self)@.len(),
            final(self)@[id.0 as int] == node,
            final(self)@ == old(self)@ || (final(self)@ == old(self)@.push(node) && id.0 == old(
                self,
            )@.len()),
            old(self)@.contains(node) ==> final(self)@ == old(self)@,
    {
        broadcast use vstd::std_specs::hash::group_hash_axioms;

        if self.idx.contains_key(&node) {
            let id = *self.idx.get(&node).unwrap();
            id
        } else {
            assert(!old(self)@.contains(node)) by {
                if old(self)@.contains(node) {
                    let at = choose|at: int| 0 <= at < old(self)@.len() && old(self)@[at] == node;
                    assert(self.idx@.contains_key(self.nodes@[at]));
                }
            }
            let copy = node.clone();
            assert(cloned(node, copy));
            self.nodes.push(copy);
            let id = NodeId((self.nodes.len() - 1) as u32);
            self.idx.insert(node, id);
            proof {
                assert forall|other: N| #[trigger] self.idx@.contains_key(other) implies self.idx@[other].0
                    < self.nodes@.len() && self.nodes@[self.idx@[other].0 as int] == other by {
                    if other != node {
                        assert(old(self).idx@.contains_key(other));
                    }
                }
                assert forall|at: int| 0 <= at < self.nodes@.len() implies self.idx@.contains_key(
                    #[trigger] self.nodes@[at],
                ) && self.idx@[self.nodes@[at]].0 == at by {
                    if at < old(self).nodes@.len() {
                        assert(old(self).idx@.contains_key(old(self).nodes@[at]));
                    }
                }
            }
            id
        }
    }

    /// The node that has the identifier `id`.
    pub fn node_of(&self, id: NodeId) -> (node: &N)
        requires
            id.0 < self@.len(),
        ensures
            *node == self@[id.0 as int],
    {
        &self.nodes[id.0 as usize]
    }

    /// The number of nodes seen so far.
    pub fn len(&self) -> (len: usize)
        ensures
            len == self@.len(),
    {
        self.nodes.len()
    }
}


/// The driver evaluates programs with an engine of its choice. It gives the
/// nodes identifiers as it comes across them, lets the engine run until the
/// engine meets a node that it does not know, registers that node's kind
/// with the engine, and lets it go on.
pub struct Driver<N: Node, E: Engine> {
    table: IdTable<N>,
    engine: E,
}

impl<N: Node, E: Engine> Driver<N, E> {
    /// The table of identifiers and the engine are in order, and what the
    /// engine knows is true of the graph.
    pub closed spec fn well_formed(&self) -> bool {
        &&& self.table.well_formed()
        &&& all_valid(self.table@)
        &&& self.engine.well_formed()
        &&& resolution::consistent(
            self.engine.kinds(),
            self.table@,
            resolution::folded_graph::<N>(),
        )
    }

    /// The number of nodes that have an identifier.
    pub closed spec fn seen(&self) -> nat {
        self.table@.len()
    }

    /// A driver for an engine that knows no node yet.
    pub fn new(engine: E) -> (driver: Driver<N, E>)
        requires
            engine.well_formed(),
            forall|id: NodeId| !engine.kinds().contains_key(id),
        ensures
            driver.well_formed(),
            driver.seen() == 0,
    {
        Driver { table: IdTable::new(), engine }
    }

    /// Evaluates the program that starts at `node` on `stack`.
    ///
    /// The graph must lead the frame machine to the end within a number of
    /// steps for which identifiers are left: each step may bring two new
    /// nodes.
    pub fn eval(&mut self, node: N, stack: &mut [u8])
        requires
            old(self).well_formed(),
            api::behaves_as_value::<N>(),
            node.valid(),
            exists|steps: nat|
                machine::finishes_within(
                    resolution::folded_graph::<N>(),
                    resolution::start(node, old(stack)@),
                    steps,
                ) && old(self).seen() + 1 + 2 * steps <= id_space(),
        ensures
            final(self).well_formed(),
            final(stack)@ == machine::outcome(
                resolution::folded_graph::<N>(),
                resolution::start(node, old(stack)@),
            ).stack,
            interpreter::evaluates(node, old(stack)@) ==> final(stack)@
                == interpreter::eval_result(node, old(stack)@),
    {
        proof {
            if interpreter::evaluates(node, stack@) {
                equivalence::lemma_driver_matches_interpreter(node, stack@);
            }
        }
        let ghost graph = resolution::folded_graph::<N>();
        let ghost steps = choose|steps: nat|
            machine::finishes_within(graph, resolution::start(node, stack@), steps) && self.seen()
                + 1 + 2 * steps <= id_space();
        let id = self.get_id(node);
        let mut ctx = RunState { frames: Vec::new() };
        ctx.push(id, 0);
        proof {
            assert(ctx@ =~= seq![(id, 0nat)]);
            assert(resolution::lift(ctx@, self.table@) =~= seq![(node, 0nat)]);
            machine::lemma_outcome(graph, resolution::start(node, stack@), steps);
        }
        self.eval_inner(&mut ctx, stack, Ghost(steps));
    }

    /// Lets the engine run, and registers the node at which it stops, until
    /// no frame is left.
    fn eval_inner(&mut self, ctx: &mut RunState, stack: &mut [u8], Ghost(steps): Ghost<nat>)
        requires
            old(self).well_formed(),
            api::behaves_as_value::<N>(),
            resolution::frames_in_range(old(ctx)@, old(self).seen()),
            machine::finishes_within(
                resolution::folded_graph::<N>(),
                resolution::lifted(config(old(ctx)@, old(stack)@), old(self).table@),
                steps,
            ),
            old(self).seen() + 2 * steps <= id_space(),
        ensures
            final(self).well_formed(),
            final(ctx)@.len() == 0,
            final(stack)@ == machine::run(
                resolution::folded_graph::<N>(),
                resolution::lifted(config(old(ctx)@, old(stack)@), old(self).table@),
                steps,
            ).stack,
    {
        let ghost graph = resolution::folded_graph::<N>();
        let ghost target = machine::run(
            graph,
            resolution::lifted(config(ctx@, stack@), self.table@),
            steps,
        );
        let ghost mut left = steps;
        while !ctx.is_empty()
            invariant
                self.well_formed(),
                api::behaves_as_value::<N>(),
                graph == resolution::folded_graph::<N>(),
                resolution::frames_in_range(ctx@, self.table@.len()),
                machine::finishes_within(
                    graph,
                    resolution::lifted(config(ctx@, stack@), self.table@),
                    left,
                ),
                machine::run(graph, resolution::lifted(config(ctx@, stack@), self.table@), left)
                    == target,
                self.table@.len() + 2 * left <= id_space() + 2 * known(
                    self.engine.kinds(),
                    ctx@,
                ),
            ensures
                ctx@.len() == 0,
                stack@ == target.stack,
            decreases left, 1 - known(self.engine.kinds(), ctx@),
        {
            let ghost before = config(ctx@, stack@);
            let ghost nodes = self.table@;
            let ghost kinds = self.engine.kinds();
            let ghost taken = resolution::lemma_engine_follows_graph(
                kinds,
                nodes,
                graph,
                before,
                left,
            );
            proof {
                machine::lemma_outcome(kinds, before, taken);
                machine::lemma_run_split(
                    graph,
                    resolution::lifted(before, nodes),
                    taken,
                    (left - taken) as nat,
                );
            }
            let suspended = self.engine.run(ctx, stack);
            proof {
                left = (left - taken) as nat;
            }
            if suspended {
                let id_to_register = ctx.top();
                let ghost after = config(ctx@, stack@);
                proof {
                    assert(ctx@[ctx@.len() - 1].0.0 < nodes.len());
                    assert(!kinds.contains_key(id_to_register));
                    let high = resolution::lifted(after, nodes);
                    machine::lemma_run_halted(graph, high, left);
                    assert(high.frames.last().0 == nodes[id_to_register.0 as int]);
                    assert(machine::status(graph, high) is Ready);
                    assert(left >= 1);
                }
                let kind = self.get_kind(id_to_register);
                proof {
                    resolution::lemma_consistent_grows(kinds, nodes, self.table@, graph);
                    resolution::lemma_lift_grows(ctx@, nodes, self.table@);
                    resolution::lemma_grows_keeps_nodes(
                        self.table@,
                        nodes,
                        id_to_register.0 as int,
                    );
                }
                self.engine.register(id_to_register, kind);
                proof {
                    let longer = self.table@;
                    assert forall|id: NodeId| #[trigger]
                        self.engine.kinds().contains_key(id) implies {
                        &&& id.0 < longer.len()
                        &&& resolution::in_range(self.engine.kinds()[id], longer.len())
                        &&& graph.contains_key(longer[id.0 as int])
                        &&& resolution::resolve(self.engine.kinds()[id], longer)
                            == graph[longer[id.0 as int]]
                    } by {
                        if id != id_to_register {
                            assert(kinds.contains_key(id));
                        }
                    }
                }
            }
        }
        proof {
            machine::lemma_run_halted(
                graph,
                resolution::lifted(config(ctx@, stack@), self.table@),
                left,
            );
        }
    }

    /// The final kind of the node `node`, with the identifiers of its
    /// successors.
    fn get_kind(&mut self, node: NodeId) -> (kind: NodeKind<NodeId>)
        requires
            old(self).table.well_formed(),
            all_valid(old(self).table@),
            api::behaves_as_value::<N>(),
            node.0 < old(self).table@.len(),
            interpreter::has_final_kind(old(self).table@[node.0 as int]),
            old(self).table@.len() + 2 <= id_space(),
        ensures
            final(self).table.well_formed(),
            all_valid(final(self).table@),
            final(self).engine == old(self).engine,
            resolution::grows_from(final(self).table@, old(self).table@),
            final(self).table@.len() <= old(self).table@.len() + 2,
            resolution::in_range(kind@, final(self).table@.len()),
            resolution::resolve(kind@, final(self).table@) == interpreter::final_kind(
                old(self).table@[node.0 as int],
            ),
            !kind@.is_skip(),
    {
        let ghost nodes = self.table@;
        match get_final_kind(self.table.node_of(node)) {
            NodeKind::Command { command, next } => {
                let next = self.get_id(next);
                NodeKind::Command { command, next }
            },
            NodeKind::Branch { condition, if_true, if_false } => {
                let if_true = self.get_id(if_true);
                let ghost middle = self.table@;
                let if_false = self.get_id(if_false);
                proof {
                    resolution::lemma_grows_keeps_nodes(self.table@, middle, if_true.0 as int);
                    resolution::lemma_grows_twice(self.table@, middle, nodes);
                }
                NodeKind::Branch { condition, if_true, if_false }
            },
            NodeKind::Call { offset, call, next } => {
                let call = self.get_id(call);
                let ghost middle = self.table@;
                let next = self.get_id(next);
                proof {
                    resolution::lemma_grows_keeps_nodes(self.table@, middle, call.0 as int);
                    resolution::lemma_grows_twice(self.table@, middle, nodes);
                }
                NodeKind::Call { offset, call, next }
            },
            NodeKind::Final => {
                assert(self.table@.take(nodes.len() as int) =~= nodes);
                NodeKind::Final
            },
        }
    }

    /// The identifier of `node`.
    fn get_id(&mut self, node: N) -> (id: NodeId)
        requires
            old(self).table.well_formed(),
            all_valid(old(self).table@),
            node.valid(),
            api::behaves_as_value::<N>(),
            old(self).table@.len() < id_space(),
        ensures
            final(self).table.well_formed(),
            all_valid(final(self).table@),
            final(self).engine == old(self).engine,
            id.0 < final(self).table@.len(),
            final(self).table@[id.0 as int] == node,
            resolution::grows_from(final(self).table@, old(self).table@),
            final(self).table@.len() <= old(self).table@.len() + 1,
    {
        let id = self.table.intern(node);
        assert(self.table@.take(old(self).table@.len() as int) =~= old(self).table@);
        id
    }
}

/// Each of the nodes can be asked for its kind.
pub open spec fn all_valid<N: Node>(nodes: Seq<N>) -> bool {
    forall|at: int| 0 <= at < nodes.len() ==> (#[trigger] nodes[at]).valid()
}

/// Whether the engine knows the node of the innermost frame: 1 where it does.
pub open spec fn known(kinds: Kinds, frames: Seq<(NodeId, nat)>) -> nat {
    if frames.len() > 0 && kinds.contains_key(frames.last().0) {
        1
    } else {
        0
    }
}


} // verus!
