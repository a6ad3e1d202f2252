//! An interpreter that remembers the graphs that it has run.

use crate::vm::api;
use crate::vm::api::Node;
use crate::vm::aux::specialized_interpreter_engine::SpecializedInterpreterEngine;
use crate::vm::driver::driver::{id_space, Driver};
use crate::vm::driver::machine;
use crate::vm::driver::resolution;
use crate::vm::interpreter;
use vstd::prelude::*;

verus! {

/// An interpreter that keeps what it has learnt of a graph from one
/// evaluation to the next: a driver with the engine that packs kinds.
pub struct Interpreter<N: Node> {
    driver: Driver<N, SpecializedInterpreterEngine>,
}

impl<N: Node> Interpreter<N> {
    pub closed spec fn well_formed(&self) -> bool {
        self.driver.well_formed()
    }

    /// The number of nodes that the interpreter has come across.
    pub closed spec fn seen(&self) -> nat {
        self.driver.seen()
    }

    pub fn new() -> (interpreter: Interpreter<N>)
        ensures
            interpreter.well_formed(),
            interpreter.seen() == 0,
    {
        Interpreter { driver: Driver::new(SpecializedInterpreterEngine::new()) }
    }

    /// Evaluates the program that starts at `node` on `stack`.
    pub fn eval(&mut self, node: N, stack: &mut [u8])
        requires
            old(self).well_formed(),
            api::behaves_as_value::<N>(),
            node.valid(),
            exists|steps: nat|
                machine::finishes_within(
                    resolution::folded_graph::<N>(),
                    resolution::start(node, old(stack)@),
                    steps,
                ) && old(self).seen() + 1 + 2 * steps <= id_space(),
        ensures
            final(self).well_formed(),
            final(stack)@ == machine::outcome(
                resolution::folded_graph::<N>(),
                resolution::start(node, old(stack)@),
            ).stack,
            interpreter::evaluates(node, old(stack)@) ==> final(stack)@
                == interpreter::eval_result(node, old(stack)@),
    {
        self.driver.eval(node, stack)
    }
}

} // verus!
