//! What holds of every engine and every program: the frame machine does what
//! the interpreter does, engines are interchangeable, evaluation is
//! deterministic, and a call leaves its caller's bytes alone.

use crate::vm::api::{Node, NodeKindView};
use crate::vm::driver::driver::{Engine, NodeId};
use crate::vm::driver::machine;
use crate::vm::driver::machine::Config;
use crate::vm::driver::resolution::{folded_graph, start};
use crate::vm::interpreter;
use vstd::prelude::*;

verus! {

/// A node that starts with a skipped command has the final kind of its
/// successor.
pub proof fn lemma_final_kind_of_skip<N: Node>(node: N)
    requires
        node.kind().is_skip(),
        interpreter::has_final_kind(node.kind()->Command_next),
    ensures
        interpreter::has_final_kind(node),
        interpreter::final_kind(node) == interpreter::final_kind(node.kind()->Command_next),
{
    let next = node.kind()->Command_next;
    let fuel = choose|fuel: nat| interpreter::final_kind_within(next, fuel) is Some;
    interpreter::lemma_final_kind(next, fuel);
    assert(interpreter::final_kind_within(node, fuel + 1) == interpreter::final_kind_within(
        next,
        fuel,
    ));
    interpreter::lemma_final_kind(node, fuel + 1);
}

/// A node that does not start with a skipped command has its own kind as
/// its final kind.
pub proof fn lemma_final_kind_of_other<N: Node>(node: N)
    requires
        !node.kind().is_skip(),
    ensures
        interpreter::has_final_kind(node),
        interpreter::final_kind(node) == node.kind(),
{
    assert(interpreter::final_kind_within(node, 1) == Some(node.kind()));
    interpreter::lemma_final_kind(node, 1);
}

/// The machine goes the same way from two nodes that have the same final
/// kind.
proof fn lemma_same_kind_same_run<N: Node>(
    first: N,
    second: N,
    below: Seq<(N, nat)>,
    offset: nat,
    stack: Seq<u8>,
    steps: nat,
)
    requires
        interpreter::has_final_kind(first),
        interpreter::has_final_kind(second),
        interpreter::final_kind(first) == interpreter::final_kind(second),
        steps >= 1,
        machine::status(
            folded_graph::<N>(),
            Config { frames: below.push((second, offset)), stack },
        ) is Ready,
    ensures
        machine::run(
            folded_graph::<N>(),
            Config { frames: below.push((first, offset)), stack },
            steps,
        ) == machine::run(
            folded_graph::<N>(),
            Config { frames: below.push((second, offset)), stack },
            steps,
        ),
{
    let graph = folded_graph::<N>();
    let one = Config { frames: below.push((first, offset)), stack };
    let two = Config { frames: below.push((second, offset)), stack };
    assert(one.frames.drop_last() =~= below);
    assert(two.frames.drop_last() =~= below);
    assert(machine::base(one.frames) == machine::base(two.frames));
    assert(machine::status(graph, one) == machine::status(graph, two));
    if machine::status(graph, one) is Ready {
        assert(machine::step(graph, one) == machine::step(graph, two));
    }
}

/// The frame machine on the folded graph does what the interpreter does:
/// where the interpreter evaluates `node` on the frame at the top of `stack`
/// to a result, the machine, started with a frame for `node` on top of the
/// frames `below`, pops that frame after `steps` steps with the result in
/// its place, and with the stack below the frame as it was.
pub proof fn lemma_machine_follows_interpreter<N: Node>(
    node: N,
    fuel: nat,
    below: Seq<(N, nat)>,
    offset: nat,
    stack: Seq<u8>,
) -> (steps: nat)
    requires
        machine::base(below) + offset <= stack.len(),
        interpreter::eval_within(node, stack.skip((machine::base(below) + offset) as int), fuel)
            is Some,
    ensures
        steps >= 1,
        machine::run(
            folded_graph::<N>(),
            Config { frames: below.push((node, offset)), stack },
            steps,
        ) == (Config {
            frames: below,
            stack: stack.take((machine::base(below) + offset) as int) + interpreter::eval_within(
                node,
                stack.skip((machine::base(below) + offset) as int),
                fuel,
            )->Some_0,
        }),
    decreases fuel,
{
    let graph = folded_graph::<N>();
    let from = (machine::base(below) + offset) as int;
    let frame = stack.skip(from);
    let config = Config { frames: below.push((node, offset)), stack };
    let rest = (fuel - 1) as nat;
    assert(config.frames.drop_last() =~= below);
    assert(machine::base(config.frames) == from);
    match node.kind() {
        NodeKindView::Final => {
            lemma_final_kind_of_other(node);
            assert(machine::status(graph, config) is Ready);
            assert(stack.take(from) + frame =~= stack);
            assert(machine::run(graph, machine::step(graph, config), 0) == machine::step(
                graph,
                config,
            ));
            1
        },
        NodeKindView::Command { command, next } => {
            if command.is_skip() {
                let steps = lemma_machine_follows_interpreter(next, rest, below, offset, stack);
                interpreter::lemma_folding_keeps_result(next, frame, rest);
                lemma_final_kind_of_skip(node);
                let skipped = Config { frames: below.push((next, offset)), stack };
                assert(machine::status(graph, skipped) is Ready) by {
                    machine::lemma_run_halted(graph, skipped, steps);
                    assert(skipped.frames.len() == below.len() + 1);
                }
                lemma_same_kind_same_run(node, next, below, offset, stack, steps);
                steps
            } else {
                lemma_final_kind_of_other(node);
                assert(machine::status(graph, config) is Ready);
                let after = stack.take(from) + interpreter::command_effect(command, frame);
                interpreter::lemma_command_keeps_length(command, frame);
                assert(after.skip(from) =~= interpreter::command_effect(command, frame));
                assert(after.take(from) =~= stack.take(from));
                let steps = lemma_machine_follows_interpreter(next, rest, below, offset, after);
                assert(machine::step(graph, config) == Config {
                    frames: below.push((next, offset)),
                    stack: after,
                });
                steps + 1
            }
        },
        NodeKindView::Branch { condition, if_true, if_false } => {
            lemma_final_kind_of_other(node);
            assert(machine::status(graph, config) is Ready);
            let chosen = if interpreter::condition_holds(condition, frame) {
                if_true
            } else {
                if_false
            };
            let steps = lemma_machine_follows_interpreter(chosen, rest, below, offset, stack);
            assert(machine::step(graph, config) == Config {
                frames: below.push((chosen, offset)),
                stack,
            });
            steps + 1
        },
        NodeKindView::Call { offset: inner, call, next } => {
            lemma_final_kind_of_other(node);
            assert(machine::status(graph, config) is Ready);
            let outer = below.push((next, offset));
            assert(outer.drop_last() =~= below);
            assert(machine::base(outer) == from);
            assert(stack.skip(from + inner) =~= frame.skip(inner as int));
            let first = lemma_machine_follows_interpreter(call, rest, outer, inner as nat, stack);
            let returned = interpreter::eval_within(call, frame.skip(inner as int), rest)->Some_0;
            interpreter::lemma_eval_keeps_length(call, frame.skip(inner as int), rest);
            let middle = stack.take(from + inner) + returned;
            assert(middle.skip(from) =~= frame.take(inner as int) + returned);
            assert(middle.take(from) =~= stack.take(from));
            let second = lemma_machine_follows_interpreter(next, rest, below, offset, middle);
            let called = Config { frames: outer.push((call, inner as nat)), stack };
            assert(machine::step(graph, config) == called);
            machine::lemma_run_split(graph, called, first, second);
            first + second + 1
        },
    }
}

/// The driver and the interpreter agree: where the interpreter evaluates the
/// program that starts at `node`, the frame machine on the folded graph
/// comes to the end and leaves the stack that the interpreter leaves.
/// Leading skipped commands, which the graph folds away and the interpreter
/// runs, make no difference.
pub proof fn lemma_driver_matches_interpreter<N: Node>(node: N, stack: Seq<u8>)
    requires
        interpreter::evaluates(node, stack),
    ensures
        machine::finishes(folded_graph::<N>(), start(node, stack)),
        machine::outcome(folded_graph::<N>(), start(node, stack)) == (Config::<N> {
            frames: Seq::empty(),
            stack: interpreter::eval_result(node, stack),
        }),
{
    let graph = folded_graph::<N>();
    let fuel = choose|fuel: nat| interpreter::eval_within(node, stack, fuel) is Some;
    let below = Seq::<(N, nat)>::empty();
    assert(stack.skip(0) =~= stack);
    let steps = lemma_machine_follows_interpreter(node, fuel, below, 0, stack);
    assert(below.push((node, 0nat)) =~= seq![(node, 0nat)]);
    assert(stack.take(0) + interpreter::eval_result(node, stack) =~= interpreter::eval_result(
        node,
        stack,
    ));
    assert(machine::finishes_within(graph, start(node, stack), steps));
    machine::lemma_outcome(graph, start(node, stack), steps);
}

/// Engines that know the same kinds are interchangeable: from the same
/// frames and the same stack they settle in the same frames with the same
/// stack.
pub proof fn lemma_engines_agree<A: Engine, B: Engine>(
    first: &A,
    second: &B,
    frames: Seq<(NodeId, nat)>,
    stack: Seq<u8>,
)
    requires
        first.kinds() == second.kinds(),
    ensures
        machine::outcome(first.kinds(), Config { frames, stack }) == machine::outcome(
            second.kinds(),
            Config { frames, stack },
        ),
{
}

/// For a call, the bytes of the caller's frame before the callee's frame are
/// the same after the call as before it.
pub proof fn lemma_call_keeps_callers_bytes<N: Node>(node: N, stack: Seq<u8>, fuel: nat)
    requires
        node.kind() is Call,
        interpreter::eval_within(node, stack, fuel) is Some,
    ensures
        ({
            let offset = node.kind()->Call_offset as int;
            let call = node.kind()->Call_call;
            let next = node.kind()->Call_next;
            let returned = interpreter::eval_within(call, stack.skip(offset), (fuel - 1) as nat);
            let after_call = stack.take(offset) + returned->Some_0;
            &&& returned is Some
            &&& after_call.len() == stack.len()
            &&& after_call.take(offset) == stack.take(offset)
            &&& interpreter::eval_within(node, stack, fuel) == interpreter::eval_within(
                next,
                after_call,
                (fuel - 1) as nat,
            )
        }),
{
    let offset = node.kind()->Call_offset as int;
    let call = node.kind()->Call_call;
    let returned = interpreter::eval_within(call, stack.skip(offset), (fuel - 1) as nat);
    interpreter::lemma_eval_keeps_length(call, stack.skip(offset), (fuel - 1) as nat);
    let after_call = stack.take(offset) + returned->Some_0;
    assert(after_call.take(offset) =~= stack.take(offset));
}


/// A step of the frame machine keeps the size of the stack and every byte
/// below the innermost frame: an engine never changes a byte outside the
/// current frame.
pub proof fn lemma_step_keeps_lower_bytes<K>(graph: Map<K, NodeKindView<K>>, config: Config<K>)
    requires
        machine::status(graph, config) is Ready,
    ensures
        machine::step(graph, config).stack.len() == config.stack.len(),
        machine::step(graph, config).stack.take(machine::base(config.frames) as int)
            == config.stack.take(machine::base(config.frames) as int),
{
    let start = machine::base(config.frames) as int;
    let frame = config.stack.skip(start);
    match graph[config.frames.last().0] {
        NodeKindView::Command { command, .. } => {
            interpreter::lemma_command_keeps_length(command, frame);
            let after = config.stack.take(start) + interpreter::command_effect(command, frame);
            assert(after.take(start) =~= config.stack.take(start));
        },
        _ => {},
    }
}

/// Evaluation is deterministic: whatever fuel suffices gives the same
/// result.
pub proof fn lemma_evaluation_is_deterministic<N: Node>(
    node: N,
    stack: Seq<u8>,
    fuel: nat,
    other: nat,
)
    requires
        interpreter::eval_within(node, stack, fuel) is Some,
        interpreter::eval_within(node, stack, other) is Some,
    ensures
        interpreter::eval_within(node, stack, fuel) == interpreter::eval_within(node, stack, other),
{
    interpreter::lemma_eval_result(node, stack, fuel);
    interpreter::lemma_eval_result(node, stack, other);
}

} // verus!
