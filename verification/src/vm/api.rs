//! The algebra of nodes: locations, commands, conditions and kinds, and what a
//! provider of nodes promises.

use std::hash::Hash;
use vstd::prelude::*;

verus! {

/// A location in the current data-stack frame.
#[derive(Debug, Hash, PartialEq, Eq, Clone, Copy, Structural)]
pub enum Ref {
    Stack(u32),
}

impl Ref {
    /// Byte position of the location, counted from the start of the frame.
    pub open spec fn at(self) -> int {
        match self {
            Ref::Stack(offset) => offset as int,
        }
    }
}

/// A pure transformation of the data stack.
#[derive(Debug, Hash, PartialEq, Eq, Clone)]
pub enum Command {
    Noop,
    // The bytes at and above `dst` are not needed any more.
    PoisonFrom { dst: Ref },
    SetBytes { dst: Ref, bytes: Vec<u8> },
    Copy { dst: Ref, size: u32, op: Ref },
    Add { size: u32, dst: Ref, op1: Ref, op2: Ref },
    Sub { size: u32, dst: Ref, op1: Ref, op2: Ref },
}

/// The mathematical content of a [`Command`]: the payload of `SetBytes` is a
/// sequence of bytes.
pub enum CommandView {
    Noop,
    PoisonFrom { dst: Ref },
    SetBytes { dst: Ref, bytes: Seq<u8> },
    Copy { dst: Ref, size: u32, op: Ref },
    Add { size: u32, dst: Ref, op1: Ref, op2: Ref },
    Sub { size: u32, dst: Ref, op1: Ref, op2: Ref },
}

impl View for Command {
    type V = CommandView;

    open spec fn view(&self) -> CommandView {
        match *self {
            Command::Noop => CommandView::Noop,
            Command::PoisonFrom { dst } => CommandView::PoisonFrom { dst },
            Command::SetBytes { dst, bytes } => CommandView::SetBytes { dst, bytes: bytes@ },
            Command::Copy { dst, size, op } => CommandView::Copy { dst, size, op },
            Command::Add { size, dst, op1, op2 } => CommandView::Add { size, dst, op1, op2 },
            Command::Sub { size, dst, op1, op2 } => CommandView::Sub { size, dst, op1, op2 },
        }
    }
}

impl CommandView {
    /// Commands that leave every observable byte as it is.
    pub open spec fn is_skip(self) -> bool {
        self is Noop || self is PoisonFrom
    }
}

impl Command {
    /// A copy with the same content.
    pub fn duplicate(&self) -> (copy: Command)
        ensures
            copy@ == self@,
    {
        match self {
            Command::Noop => Command::Noop,
            Command::PoisonFrom { dst } => Command::PoisonFrom { dst: *dst },
            Command::SetBytes { dst, bytes } => Command::SetBytes { dst: *dst, bytes: bytes.clone() },
            Command::Copy { dst, size, op } => Command::Copy { dst: *dst, size: *size, op: *op },
            Command::Add { size, dst, op1, op2 } => Command::Add {
                size: *size,
                dst: *dst,
                op1: *op1,
                op2: *op2,
            },
            Command::Sub { size, dst, op1, op2 } => Command::Sub {
                size: *size,
                dst: *dst,
                op1: *op1,
                op2: *op2,
            },
        }
    }
}

/// A pure predicate over the data stack.
#[derive(Debug, Clone, Copy, Hash, Eq, PartialEq, Structural)]
pub enum Condition {
    Ne { size: u32, op1: Ref, op2: Ref },
    // not equal to zero
    Ne0 { size: u32, op: Ref },
}

/// What a node does, with successors of type `N`.
#[derive(Debug, Clone, Hash, PartialEq, Eq)]
pub enum NodeKind<N> {
    Command { command: Command, next: N },
    Branch { condition: Condition, if_true: N, if_false: N },
    // Evaluate `call` on the subframe that starts `offset` bytes into the
    // current frame, then go on with `next` in the current frame.
    Call { offset: u32, call: N, next: N },
    Final,
}

/// The mathematical content of a [`NodeKind`].
pub enum NodeKindView<N> {
    Command { command: CommandView, next: N },
    Branch { condition: Condition, if_true: N, if_false: N },
    Call { offset: u32, call: N, next: N },
    Final,
}

impl<N> View for NodeKind<N> {
    type V = NodeKindView<N>;

    open spec fn view(&self) -> NodeKindView<N> {
        match *self {
            NodeKind::Command { command, next } => NodeKindView::Command { command: command@, next },
            NodeKind::Branch { condition, if_true, if_false } => NodeKindView::Branch {
                condition,
                if_true,
                if_false,
            },
            NodeKind::Call { offset, call, next } => NodeKindView::Call { offset, call, next },
            NodeKind::Final => NodeKindView::Final,
        }
    }
}

impl<N> NodeKindView<N> {
    /// A command node whose command leaves the stack as it is.
    pub open spec fn is_skip(self) -> bool {
        self matches NodeKindView::Command { command, .. } && command.is_skip()
    }
}

/// Every successor named in `kind` can be asked for its kind.
pub open spec fn successors_valid<N: Node>(kind: NodeKindView<N>) -> bool {
    match kind {
        NodeKindView::Command { next, .. } => next.valid(),
        NodeKindView::Branch { if_true, if_false, .. } => if_true.valid() && if_false.valid(),
        NodeKindView::Call { call, next, .. } => call.valid() && next.valid(),
        NodeKindView::Final => true,
    }
}

/// Equality and hashing of `N` are those of the mathematical value, and a
/// clone is equal to what it was made of: what a table keyed by nodes relies on.
pub open spec fn behaves_as_value<N: Node>() -> bool {
    &&& vstd::std_specs::hash::obeys_key_model::<N>()
    &&& forall|node: N, copy: N| cloned(node, copy) ==> node == copy
}

/// A node of the program graph. The graph is defined structurally: a node
/// answers with its kind, whose successors are nodes again.
///
/// An implementation promises that `get` is referentially transparent: it
/// returns the kind that `kind` names, on every call. A provider that reads
/// its nodes from a source that may be malformed says with `valid` for which
/// nodes it can answer; it then answers with valid nodes only.
pub trait Node: Hash + Eq + Sized + Clone {
    /// The node can be asked for its kind.
    spec fn valid(&self) -> bool;

    /// The kind of this node.
    spec fn kind(&self) -> NodeKindView<Self>;

    fn get(&self) -> (kind: NodeKind<Self>)
        requires
            self.valid(),
        ensures
            kind@ == self.kind(),
            match kind@ {
                NodeKindView::Command { next, .. } => next.valid(),
                NodeKindView::Branch { if_true, if_false, .. } => if_true.valid() && if_false.valid(),
                NodeKindView::Call { call, next, .. } => call.valid() && next.valid(),
                NodeKindView::Final => true,
            },
    ;
}

} // verus!
