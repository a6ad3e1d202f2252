//! The frame machine: the states that an engine moves through, one step at a
//! time, on the kinds that it knows.

use crate::vm::api::NodeKindView;
use crate::vm::interpreter;
use vstd::prelude::*;

verus! {

/// A state of the frame machine: the frames, innermost last, each a node
/// with the offset of its frame inside the frame below it; and the data
/// stack.
pub struct Config<K> {
    pub frames: Seq<(K, nat)>,
    pub stack: Seq<u8>,
}

/// The position in the data stack at which the innermost frame starts: the
/// sum of the offsets of all frames.
pub open spec fn base<K>(frames: Seq<(K, nat)>) -> nat
    decreases frames.len(),
{
    if frames.len() == 0 {
        0
    } else {
        base(frames.drop_last()) + frames.last().1
    }
}

/// What the machine can do in a state.
pub enum Status {
    /// No frame is left.
    Finished,
    /// The node of the innermost frame is not in the graph.
    Suspended,
    /// The next step is undefined: it would leave the stack, or its width is
    /// not supported.
    Fault,
    /// The next step can be taken.
    Ready,
}

/// The status of `config` in the (partial) graph `graph`.
pub open spec fn status<K>(graph: Map<K, NodeKindView<K>>, config: Config<K>) -> Status {
    if config.frames.len() == 0 {
        Status::Finished
    } else if !graph.contains_key(config.frames.last().0) {
        Status::Suspended
    } else if base(config.frames) > config.stack.len() {
        Status::Fault
    } else {
        let frame = config.stack.skip(base(config.frames) as int);
        let defined = match graph[config.frames.last().0] {
            NodeKindView::Command { command, .. } => interpreter::command_defined(command, frame),
            NodeKindView::Branch { condition, .. } => interpreter::condition_defined(
                condition,
                frame,
            ),
            NodeKindView::Call { offset, .. } => offset <= frame.len(),
            NodeKindView::Final => true,
        };
        if defined {
            Status::Ready
        } else {
            Status::Fault
        }
    }
}

/// The state after one step from a state that is ready.
///
/// A command rewrites the innermost frame and hands over to its successor;
/// a branch hands over to one of its successors; a call replaces the frame
/// by that of `next` and pushes a frame for `call` that starts `offset`
/// bytes further in; `Final` pops the frame.
pub open spec fn step<K>(graph: Map<K, NodeKindView<K>>, config: Config<K>) -> Config<K> {
    let (node, offset) = config.frames.last();
    let below = config.frames.drop_last();
    let start = base(config.frames) as int;
    let frame = config.stack.skip(start);
    match graph[node] {
        NodeKindView::Command { command, next } => Config {
            frames: below.push((next, offset)),
            stack: config.stack.take(start) + interpreter::command_effect(command, frame),
        },
        NodeKindView::Branch { condition, if_true, if_false } => Config {
            frames: below.push(
                (
                    if interpreter::condition_holds(condition, frame) {
                        if_true
                    } else {
                        if_false
                    },
                    offset,
                ),
            ),
            stack: config.stack,
        },
        NodeKindView::Call { offset: inner, call, next } => Config {
            frames: below.push((next, offset)).push((call, inner as nat)),
            stack: config.stack,
        },
        NodeKindView::Final => Config { frames: below, stack: config.stack },
    }
}

/// The state after up to `steps` steps: the machine stops early where it is
/// not ready.
pub open spec fn run<K>(graph: Map<K, NodeKindView<K>>, config: Config<K>, steps: nat) -> Config<K>
    decreases steps,
{
    if steps == 0 || !(status(graph, config) is Ready) {
        config
    } else {
        run(graph, step(graph, config), (steps - 1) as nat)
    }
}

/// The machine has finished or is suspended.
pub open spec fn settled<K>(graph: Map<K, NodeKindView<K>>, config: Config<K>) -> bool {
    status(graph, config) is Finished || status(graph, config) is Suspended
}

/// From `config` the machine finishes or suspends after at most `steps`
/// steps, each of them defined.
pub open spec fn settles_within<K>(
    graph: Map<K, NodeKindView<K>>,
    config: Config<K>,
    steps: nat,
) -> bool {
    settled(graph, run(graph, config, steps))
}

/// From `config` the machine finishes or suspends, and every step on the way
/// is defined.
pub open spec fn settles<K>(graph: Map<K, NodeKindView<K>>, config: Config<K>) -> bool {
    exists|steps: nat| settles_within(graph, config, steps)
}

/// The state in which the machine finishes or suspends.
pub open spec fn outcome<K>(graph: Map<K, NodeKindView<K>>, config: Config<K>) -> Config<K>
    recommends
        settles(graph, config),
{
    run(graph, config, choose|steps: nat| settles_within(graph, config, steps))
}

/// From `config` the machine comes to the end of the last frame after at most
/// `steps` steps, each of them defined.
pub open spec fn finishes_within<K>(
    graph: Map<K, NodeKindView<K>>,
    config: Config<K>,
    steps: nat,
) -> bool {
    status(graph, run(graph, config, steps)) is Finished
}

/// From `config` the machine comes to the end of the last frame, and every
/// step on the way is defined.
pub open spec fn finishes<K>(graph: Map<K, NodeKindView<K>>, config: Config<K>) -> bool {
    exists|steps: nat| finishes_within(graph, config, steps)
}

/// Once the machine has settled, further steps change nothing.
pub proof fn lemma_run_stable<K>(
    graph: Map<K, NodeKindView<K>>,
    config: Config<K>,
    steps: nat,
    more: nat,
)
    requires
        settles_within(graph, config, steps),
        steps <= more,
    ensures
        run(graph, config, more) == run(graph, config, steps),
    decreases steps,
{
    if steps > 0 && status(graph, config) is Ready {
        lemma_run_stable(graph, step(graph, config), (steps - 1) as nat, (more - 1) as nat);
    }
}

/// Whatever number of steps suffices leads to the outcome.
pub proof fn lemma_outcome<K>(graph: Map<K, NodeKindView<K>>, config: Config<K>, steps: nat)
    requires
        settles_within(graph, config, steps),
    ensures
        settles(graph, config),
        run(graph, config, steps) == outcome(graph, config),
        settled(graph, outcome(graph, config)),
{
    let chosen = choose|steps: nat| settles_within(graph, config, steps);
    if chosen <= steps {
        lemma_run_stable(graph, config, chosen, steps);
    } else {
        lemma_run_stable(graph, config, steps, chosen);
    }
}

/// Steps can be taken in two stretches.
pub proof fn lemma_run_split<K>(
    graph: Map<K, NodeKindView<K>>,
    config: Config<K>,
    first: nat,
    second: nat,
)
    ensures
        run(graph, config, first + second) == run(graph, run(graph, config, first), second),
    decreases first,
{
    if first > 0 && status(graph, config) is Ready {
        lemma_run_split(graph, step(graph, config), (first - 1) as nat, second);
    } else if first > 0 {
        lemma_run_halted(graph, config, second);
        lemma_run_halted(graph, config, first + second);
        lemma_run_halted(graph, config, first);
    }
}

/// A machine that is not ready stays where it is.
pub proof fn lemma_run_halted<K>(graph: Map<K, NodeKindView<K>>, config: Config<K>, steps: nat)
    ensures
        !(status(graph, config) is Ready) ==> run(graph, config, steps) == config,
{
}

/// Determinism: the machine has one outcome, whatever number of steps it is
/// given beyond what it needs.
pub proof fn lemma_outcome_is_unique<K>(
    graph: Map<K, NodeKindView<K>>,
    config: Config<K>,
    steps: nat,
    other: nat,
)
    requires
        settles_within(graph, config, steps),
        settles_within(graph, config, other),
    ensures
        run(graph, config, steps) == run(graph, config, other),
{
    lemma_outcome(graph, config, steps);
    lemma_outcome(graph, config, other);
}

} // verus!
