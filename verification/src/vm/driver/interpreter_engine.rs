//! The baseline engine.

use crate::vm::api::{NodeKind, NodeKindView};
use crate::vm::driver::driver::{config, Engine, Frame, Kinds, NodeId, RunState};
use crate::vm::driver::machine;
use crate::vm::interpreter::{eval_command, eval_condition, subframe};
use vstd::prelude::*;

verus! {

/// Takes the step of a node of kind `kind`, which is that of the innermost
/// frame in `graph`. `offset` is the position at which that frame starts;
/// the result is that position for the frame that is innermost afterwards.
pub(crate) fn step_kind(
    kind: &NodeKind<NodeId>,
    state: &mut RunState,
    stack: &mut [u8],
    offset: usize,
    Ghost(graph): Ghost<Kinds>,
) -> (next_offset: usize)
    requires
        machine::status(graph, config(old(state)@, old(stack)@)) is Ready,
        kind@ == graph[old(state)@.last().0],
        offset == machine::base(old(state)@),
    ensures
        config(final(state)@, final(stack)@) == machine::step(
            graph,
            config(old(state)@, old(stack)@),
        ),
        next_offset == machine::base(final(state)@),
{
    let ghost before = config(state@, stack@);
    let len: usize = stack.len();
    match kind {
        NodeKind::Command { command, next } => {
            let frame = subframe(stack, offset);
            eval_command(command, frame);
            state.replace_top(*next);
            offset
        },
        NodeKind::Branch { condition, if_true, if_false } => {
            let frame = subframe(stack, offset);
            let holds = eval_condition(condition, frame);
            if holds {
                state.replace_top(*if_true);
            } else {
                state.replace_top(*if_false);
            }
            assert(stack@ =~= before.stack);
            offset
        },
        NodeKind::Call { offset: call_offset, call, next } => {
            state.replace_top(*next);
            let ghost middle = state@;
            state.push(*call, *call_offset as usize);
            assert(state@.drop_last() =~= middle);
            offset + *call_offset as usize
        },
        NodeKind::Final => {
            let current = state.pop();
            offset - current.offset
        },
    }
}

/// The baseline engine: it keeps the registered kinds as they are and walks
/// them.
pub struct InterpreterEngine {
    computed: Vec<Option<NodeKind<NodeId>>>,
    debug: bool,
}

impl InterpreterEngine {
    /// The kinds that were registered, by identifier.
    pub closed spec fn table(&self) -> Kinds {
        Map::new(
            |id: NodeId| id.0 < self.computed@.len() && self.computed@[id.0 as int] is Some,
            |id: NodeId| self.computed@[id.0 as int]->Some_0@,
        )
    }

    pub fn new(debug: bool) -> (engine: InterpreterEngine)
        ensures
            engine.table() == Map::<NodeId, NodeKindView<NodeId>>::empty(),
            engine.debugging() == debug,
    {
        let engine = InterpreterEngine { computed: Vec::new(), debug };
        assert(engine.table() =~= Map::<NodeId, NodeKindView<NodeId>>::empty());
        engine
    }

    /// Whether the engine was made for debugging.
    pub fn debug(&self) -> (debug: bool)
        ensures
            debug == self.debugging(),
    {
        self.debug
    }

    /// Whether the engine was made for debugging: what `new` was given, which
    /// no registration changes.
    pub closed spec fn debugging(&self) -> bool {
        self.debug
    }

    /// Records `kind` for `id`, unless a kind was recorded for it before.
    fn register(&mut self, id: NodeId, kind: NodeKind<NodeId>)
        ensures
            final(self).table() == if old(self).table().contains_key(id) {
                old(self).table()
            } else {
                old(self).table().insert(id, kind@)
            },
            final(self).debugging() == old(self).debugging(),
    {
        while self.computed.len() <= id.0 as usize
            invariant
                self.table() == old(self).table(),
                self.debug == old(self).debug,
            decreases id.0 + 1 - self.computed@.len(),
        {
            let ghost before = self.table();
            self.computed.push(None);
            assert(self.table() =~= before);
        }
        if self.get(id).is_some() {
            return ;
        }
        let ghost before = self.table();
        self.computed[id.0 as usize] = Some(kind);
        assert(self.table() =~= before.insert(id, kind@));
    }

    /// The kind that was recorded for `id`, if any.
    fn get(&self, id: NodeId) -> (kind: Option<&NodeKind<NodeId>>)
        ensures
            kind is Some <==> self.table().contains_key(id),
            kind matches Some(found) ==> found@ == self.table()[id],
    {
        if (id.0 as usize) < self.computed.len() {
            self.computed[id.0 as usize].as_ref()
        } else {
            None
        }
    }

    /// Runs the frame machine on the registered kinds until no frame is left
    /// or the node of the innermost frame is not registered.
    fn run(&self, state: &mut RunState, stack: &mut [u8]) -> (suspended: bool)
        requires
            machine::settles(self.table(), config(old(state)@, old(stack)@)),
        ensures
            config(final(state)@, final(stack)@) == machine::outcome(
                self.table(),
                config(old(state)@, old(stack)@),
            ),
            suspended == (final(state)@.len() > 0),
    {
        let ghost graph = self.table();
        let ghost target = machine::outcome(graph, config(state@, stack@));
        let ghost mut left: nat = choose|steps: nat|
            machine::settles_within(graph, config(state@, stack@), steps);
        proof {
            machine::lemma_outcome(graph, config(state@, stack@), left);
        }
        if state.is_empty() {
            return false;
        }
        if self.get(state.top()).is_none() {
            return true;
        }
        let len: usize = stack.len();
        assert(machine::status(graph, config(state@, stack@)) is Ready) by {
            machine::lemma_run_halted(graph, config(state@, stack@), left);
        }
        let mut offset: usize = state.offset();
        while !state.is_empty()
            invariant
                graph == self.table(),
                target == machine::outcome(graph, config(old(state)@, old(stack)@)),
                machine::settles_within(graph, config(state@, stack@), left),
                machine::run(graph, config(state@, stack@), left) == target,
                offset == machine::base(state@),
            ensures
                state@.len() == 0,
                config(state@, stack@) == target,
            decreases left,
        {
            match self.get(state.top()) {
                None => {
                    proof {
                        machine::lemma_run_halted(graph, config(state@, stack@), left);
                    }
                    return true;
                },
                Some(kind) => {
                    assert(machine::status(graph, config(state@, stack@)) is Ready) by {
                        machine::lemma_run_halted(graph, config(state@, stack@), left);
                    }
                    offset = step_kind(kind, state, stack, offset, Ghost(graph));
                    proof {
                        left = (left - 1) as nat;
                    }
                },
            }
        }
        false
    }
}

impl Engine for InterpreterEngine {
    open spec fn well_formed(&self) -> bool {
        true
    }

    open spec fn kinds(&self) -> Kinds {
        self.table()
    }

    fn register(&mut self, id: NodeId, kind: NodeKind<NodeId>) {
        self.register(id, kind)
    }

    fn run(&self, state: &mut RunState, stack: &mut [u8]) -> (suspended: bool) {
        self.run(state, stack)
    }
}

} // verus!
