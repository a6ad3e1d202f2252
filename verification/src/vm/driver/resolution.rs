//! How identifiers stand for nodes: a table of kinds by identifier leads the
//! frame machine the way that the graph of the nodes leads it.

use crate::vm::api::{Node, NodeKindView};
use crate::vm::driver::driver::{Kinds, NodeId};
use crate::vm::driver::machine;
use crate::vm::driver::machine::{Config, Status};
use crate::vm::interpreter;
use vstd::prelude::*;

verus! {

/// The program graph as the driver hands it to an engine: each node with the
/// kind that it has once its leading skipped commands are folded away.
pub open spec fn folded_graph<N: Node>() -> Map<N, NodeKindView<N>> {
    Map::new(
        |node: N| interpreter::has_final_kind(node),
        |node: N| interpreter::final_kind(node),
    )
}

/// The state in which the evaluation of `node` on `stack` starts.
pub open spec fn start<K>(node: K, stack: Seq<u8>) -> Config<K> {
    Config { frames: seq![(node, 0nat)], stack }
}

/// Every successor of `kind` is an identifier below `bound`.
pub open spec fn in_range(kind: NodeKindView<NodeId>, bound: nat) -> bool {
    match kind {
        NodeKindView::Command { next, .. } => next.0 < bound,
        NodeKindView::Branch { if_true, if_false, .. } => if_true.0 < bound && if_false.0 < bound,
        NodeKindView::Call { call, next, .. } => call.0 < bound && next.0 < bound,
        NodeKindView::Final => true,
    }
}

/// `kind` with each identifier replaced by the node that has it.
pub open spec fn resolve<N>(kind: NodeKindView<NodeId>, nodes: Seq<N>) -> NodeKindView<N> {
    match kind {
        NodeKindView::Command { command, next } => NodeKindView::Command {
            command,
            next: nodes[next.0 as int],
        },
        NodeKindView::Branch { condition, if_true, if_false } => NodeKindView::Branch {
            condition,
            if_true: nodes[if_true.0 as int],
            if_false: nodes[if_false.0 as int],
        },
        NodeKindView::Call { offset, call, next } => NodeKindView::Call {
            offset,
            call: nodes[call.0 as int],
            next: nodes[next.0 as int],
        },
        NodeKindView::Final => NodeKindView::Final,
    }
}

/// Every frame runs an identifier below `bound`.
pub open spec fn frames_in_range(frames: Seq<(NodeId, nat)>, bound: nat) -> bool {
    forall|at: int| 0 <= at < frames.len() ==> (#[trigger] frames[at]).0.0 < bound
}

/// The frames with each identifier replaced by the node that has it.
pub open spec fn lift<N>(frames: Seq<(NodeId, nat)>, nodes: Seq<N>) -> Seq<(N, nat)> {
    Seq::new(frames.len(), |at: int| (nodes[frames[at].0.0 as int], frames[at].1))
}

/// The state with each identifier replaced by the node that has it.
pub open spec fn lifted<N>(config: Config<NodeId>, nodes: Seq<N>) -> Config<N> {
    Config { frames: lift(config.frames, nodes), stack: config.stack }
}

/// The graph in which each node has the kind that it answers with.
pub open spec fn plain_graph<N: Node>() -> Map<N, NodeKindView<N>> {
    Map::new(|node: N| true, |node: N| node.kind())
}

/// What a table of kinds by identifier says is true of `graph`: each kind in
/// it is the kind that the graph gives to the node that has the identifier,
/// with identifiers in place of the successors.
pub open spec fn consistent<N>(table: Kinds, nodes: Seq<N>, graph: Map<N, NodeKindView<N>>) -> bool {
    forall|id: NodeId| #[trigger]
        table.contains_key(id) ==> {
            &&& id.0 < nodes.len()
            &&& in_range(table[id], nodes.len())
            &&& graph.contains_key(nodes[id.0 as int])
            &&& resolve(table[id], nodes) == graph[nodes[id.0 as int]]
        }
}

/// `longer` holds the nodes of `nodes` at the same identifiers.
pub open spec fn grows_from<N>(longer: Seq<N>, nodes: Seq<N>) -> bool {
    nodes.len() <= longer.len() && longer.take(nodes.len() as int) == nodes
}

pub proof fn lemma_grows_keeps_nodes<N>(longer: Seq<N>, nodes: Seq<N>, at: int)
    requires
        grows_from(longer, nodes),
        0 <= at < nodes.len(),
    ensures
        longer[at] == nodes[at],
{
    assert(longer.take(nodes.len() as int)[at] == longer[at]);
}

pub proof fn lemma_grows_twice<N>(longest: Seq<N>, longer: Seq<N>, nodes: Seq<N>)
    requires
        grows_from(longest, longer),
        grows_from(longer, nodes),
    ensures
        grows_from(longest, nodes),
{
    assert forall|at: int| 0 <= at < nodes.len() implies longest[at] == nodes[at] by {
        lemma_grows_keeps_nodes(longer, nodes, at);
        lemma_grows_keeps_nodes(longest, longer, at);
    }
    assert(longest.take(nodes.len() as int) =~= nodes);
}

/// What is consistent stays so when nodes are added.
pub proof fn lemma_consistent_grows<N>(
    table: Kinds,
    nodes: Seq<N>,
    longer: Seq<N>,
    graph: Map<N, NodeKindView<N>>,
)
    requires
        consistent(table, nodes, graph),
        grows_from(longer, nodes),
    ensures
        consistent(table, longer, graph),
{
    assert forall|id: NodeId| #[trigger] table.contains_key(id) implies {
        &&& id.0 < longer.len()
        &&& in_range(table[id], longer.len())
        &&& graph.contains_key(longer[id.0 as int])
        &&& resolve(table[id], longer) == graph[longer[id.0 as int]]
    } by {
        lemma_grows_keeps_nodes(longer, nodes, id.0 as int);
        lemma_resolve_grows(table[id], nodes, longer);
    }
}

pub proof fn lemma_resolve_grows<N>(kind: NodeKindView<NodeId>, nodes: Seq<N>, longer: Seq<N>)
    requires
        in_range(kind, nodes.len()),
        grows_from(longer, nodes),
    ensures
        resolve(kind, longer) == resolve(kind, nodes),
        in_range(kind, longer.len()),
{
    match kind {
        NodeKindView::Command { next, .. } => {
            lemma_grows_keeps_nodes(longer, nodes, next.0 as int);
        },
        NodeKindView::Branch { if_true, if_false, .. } => {
            lemma_grows_keeps_nodes(longer, nodes, if_true.0 as int);
            lemma_grows_keeps_nodes(longer, nodes, if_false.0 as int);
        },
        NodeKindView::Call { call, next, .. } => {
            lemma_grows_keeps_nodes(longer, nodes, call.0 as int);
            lemma_grows_keeps_nodes(longer, nodes, next.0 as int);
        },
        NodeKindView::Final => {},
    }
}

/// Frames stand for the same nodes when nodes are added.
pub proof fn lemma_lift_grows<N>(frames: Seq<(NodeId, nat)>, nodes: Seq<N>, longer: Seq<N>)
    requires
        frames_in_range(frames, nodes.len()),
        grows_from(longer, nodes),
    ensures
        lift(frames, longer) == lift(frames, nodes),
        frames_in_range(frames, longer.len()),
{
    assert forall|at: int| 0 <= at < frames.len() implies lift(frames, longer)[at] == lift(
        frames,
        nodes,
    )[at] by {
        assert(frames[at].0.0 < nodes.len());
        lemma_grows_keeps_nodes(longer, nodes, frames[at].0.0 as int);
    }
    assert(lift(frames, longer) =~= lift(frames, nodes));
    assert forall|at: int| 0 <= at < frames.len() implies (#[trigger] frames[at]).0.0
        < longer.len() by {
        assert(frames[at].0.0 < nodes.len());
    }
}

/// Frames start where the frames of their nodes start.
pub proof fn lemma_lift_keeps_base<N>(frames: Seq<(NodeId, nat)>, nodes: Seq<N>)
    ensures
        machine::base(lift(frames, nodes)) == machine::base(frames),
    decreases frames.len(),
{
    if frames.len() > 0 {
        assert(lift(frames, nodes).drop_last() =~= lift(frames.drop_last(), nodes));
        lemma_lift_keeps_base(frames.drop_last(), nodes);
    }
}

/// Where the table knows the node of the innermost frame, the machine can do
/// on the table what it can do on the graph, and does the same.
pub proof fn lemma_step_follows_graph<N>(
    table: Kinds,
    nodes: Seq<N>,
    graph: Map<N, NodeKindView<N>>,
    config: Config<NodeId>,
)
    requires
        consistent(table, nodes, graph),
        frames_in_range(config.frames, nodes.len()),
        config.frames.len() > 0,
        table.contains_key(config.frames.last().0),
    ensures
        machine::status(table, config) == machine::status(graph, lifted(config, nodes)),
        machine::status(table, config) is Ready ==> {
            &&& lifted(machine::step(table, config), nodes) == machine::step(
                graph,
                lifted(config, nodes),
            )
            &&& frames_in_range(machine::step(table, config).frames, nodes.len())
        },
{
    let high = lifted(config, nodes);
    let id = config.frames.last().0;
    let offset = config.frames.last().1;
    assert(config.frames[config.frames.len() - 1].0.0 < nodes.len());
    lemma_lift_keeps_base(config.frames, nodes);
    assert(high.frames.last() == (nodes[id.0 as int], offset));
    assert(graph[nodes[id.0 as int]] == resolve(table[id], nodes));
    if machine::status(table, config) is Ready {
        let low_next = machine::step(table, config);
        let high_next = machine::step(graph, high);
        let below = config.frames.drop_last();
        assert(high.frames.drop_last() =~= lift(below, nodes));
        assert forall|at: int| 0 <= at < below.len() implies (#[trigger] below[at]).0.0
            < nodes.len() by {
            assert(below[at] == config.frames[at]);
        }
        match table[id] {
            NodeKindView::Command { command, next } => {
                assert(lift(below.push((next, offset)), nodes) =~= lift(below, nodes).push(
                    (nodes[next.0 as int], offset),
                ));
            },
            NodeKindView::Branch { condition, if_true, if_false } => {
                assert(lift(below.push((if_true, offset)), nodes) =~= lift(below, nodes).push(
                    (nodes[if_true.0 as int], offset),
                ));
                assert(lift(below.push((if_false, offset)), nodes) =~= lift(below, nodes).push(
                    (nodes[if_false.0 as int], offset),
                ));
            },
            NodeKindView::Call { offset: inner, call, next } => {
                assert(lift(below.push((next, offset)).push((call, inner as nat)), nodes) =~= lift(
                    below,
                    nodes,
                ).push((nodes[next.0 as int], offset)).push((nodes[call.0 as int], inner as nat)));
            },
            NodeKindView::Final => {},
        }
        assert(lifted(low_next, nodes).frames =~= high_next.frames);
        assert forall|at: int| 0 <= at < low_next.frames.len() implies (
        #[trigger] low_next.frames[at]).0.0 < nodes.len() by {
            if at < below.len() {
                assert(low_next.frames[at] == below[at]);
            }
        }
    }
}

/// A table that is consistent with the graph leads the machine the way of
/// the graph: from a state from which the machine finishes on the graph
/// within `steps` steps, it settles on the table after `taken` of them, in
/// the state that it reaches on the graph by them. It takes at least one step
/// where the table knows the next node.
pub proof fn lemma_engine_follows_graph<N>(
    table: Kinds,
    nodes: Seq<N>,
    graph: Map<N, NodeKindView<N>>,
    config: Config<NodeId>,
    steps: nat,
) -> (taken: nat)
    requires
        consistent(table, nodes, graph),
        frames_in_range(config.frames, nodes.len()),
        machine::finishes_within(graph, lifted(config, nodes), steps),
    ensures
        taken <= steps,
        machine::settles_within(table, config, taken),
        frames_in_range(machine::run(table, config, taken).frames, nodes.len()),
        lifted(machine::run(table, config, taken), nodes) == machine::run(
            graph,
            lifted(config, nodes),
            taken,
        ),
        machine::finishes_within(
            graph,
            lifted(machine::run(table, config, taken), nodes),
            (steps - taken) as nat,
        ),
        config.frames.len() > 0 && table.contains_key(config.frames.last().0) ==> taken >= 1,
    decreases steps,
{
    let high = lifted(config, nodes);
    if config.frames.len() == 0 {
        0
    } else if !table.contains_key(config.frames.last().0) {
        0
    } else {
        lemma_step_follows_graph(table, nodes, graph, config);
        machine::lemma_run_halted(graph, high, steps);
        assert(machine::status(graph, high) is Ready);
        assert(steps > 0);
        let rest = lemma_engine_follows_graph(
            table,
            nodes,
            graph,
            machine::step(table, config),
            (steps - 1) as nat,
        );
        rest + 1
    }
}

} // verus!
