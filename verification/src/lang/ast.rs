//! The operations of the textual language.

use crate::lang::operations;
use vstd::prelude::*;
use vstd::string::StringExecFns;

verus! {

/// A constant operand.
#[derive(Clone, Debug)]
pub enum Const {
    Literal { bytes: Vec<u8> },
    Stack { from_offset: Vec<u8>, length: Vec<u8> },
    // resolved to 4 bytes during execution
    Symbol { name: String },
}

/// An operand that names a place.
#[derive(Debug)]
pub enum Address {
    // The place in the stack at `address`.
    Stack { address: Const },
    // The place in native memory that the 8 bytes in the stack at
    // `stack_offset` point to.
    Native { stack_offset: Const },
}

#[derive(Debug)]
pub enum ConstOrAddress {
    Left { value: Const },
    Right { value: Address },
}

#[derive(Debug)]
pub enum Operation {
    // Stack operations
    Extend { length: Const },
    Shrink { length: Const },
    CheckSize { length: Const },
    // Control flow operations
    Branch { modifier: Const, length: Const, op1: ConstOrAddress, op2: ConstOrAddress, target: Const },
    Jump { target: Const },
    // Call operations
    Call { offset: Const, target: Const },
    // Constant operations
    Specialize { length: Const, dst: Address },
    NotSpecialize { length: Const, dst: Address },
    // Memory operations
    SetBytes { length: Const, src: ConstOrAddress, dst: Address },
    // Integer arithmetic operations
    Add { length: Const, op1: ConstOrAddress, op2: ConstOrAddress, dst: Address },
    Mult { length: Const, op1: ConstOrAddress, op2: ConstOrAddress, dst: Address },
    Neg { length: Const, op: ConstOrAddress, dst: Address },
}

impl Const {
    /// What `text` says of the constant: a literal is described by its
    /// bytes; a constant on the stack reads `${offset, length}`; a symbol is
    /// its name after a colon.
    pub open spec fn shown_as(self, text: String) -> bool {
        match self {
            Const::Literal { bytes } => operations::describes(bytes@, text),
            Const::Stack { from_offset, length } => exists|offset: String, size: String|
                operations::describes(from_offset@, offset) && operations::describes(
                    length@,
                    size,
                ) && text@ == "${"@ + offset@ + ", "@ + size@ + "}"@,
            Const::Symbol { name } => text@ == ":"@ + name@,
        }
    }

    /// The constant as the language writes it.
    pub fn to_string(&self) -> (text: String)
        ensures
            self.shown_as(text),
    {
        match self {
            Const::Literal { bytes } => operations::bytes_to_string(bytes.as_slice()),
            Const::Stack { from_offset, length } => {
                let offset = operations::bytes_to_string(from_offset.as_slice());
                let size = operations::bytes_to_string(length.as_slice());
                let text = String::from_str("${").concat(offset.as_str()).concat(", ").concat(
                    size.as_str(),
                ).concat("}");
                text
            },
            Const::Symbol { name } => String::from_str(":").concat(name.as_str()),
        }
    }
}


/// Where an operation was written.
#[derive(Debug, Clone)]
pub struct Source {
    pub file: String,
    pub line: usize,
}

/// A function of the language: its operations, and the positions that its
/// labels name.
#[derive(Debug)]
pub struct Func {
    pub name: String,
    pub ops: Vec<(Operation, Source)>,
    pub labels: Vec<(String, usize)>,
}

/// The position that the label `name` names: that of the last entry with
/// the name.
pub open spec fn label_of(labels: Seq<(String, usize)>, name: Seq<char>) -> Option<usize>
    decreases labels.len(),
{
    if labels.len() == 0 {
        None
    } else if labels.last().0@ == name {
        Some(labels.last().1)
    } else {
        label_of(labels.drop_last(), name)
    }
}

impl Func {
    /// The position that the label `name` names.
    pub fn label(&self, name: &str) -> (position: Option<usize>)
        ensures
            position == label_of(self.labels@, name@),
    {
        let wanted = String::from_str(name);
        let mut left: usize = self.labels.len();
        assert(self.labels@.take(left as int) =~= self.labels@);
        while left > 0
            invariant
                left <= self.labels@.len(),
                wanted@ == name@,
                label_of(self.labels@, name@) == label_of(self.labels@.take(left as int), name@),
            decreases left,
        {
            left -= 1;
            assert(self.labels@.take(left as int + 1).drop_last() =~= self.labels@.take(left as int));
            if self.labels[left].0 == wanted {
                return Some(self.labels[left].1);
            }
        }
        None
    }
}


/// The mathematical content of a [`Const`].
pub enum ConstView {
    Literal { bytes: Seq<u8> },
    Stack { from_offset: Seq<u8>, length: Seq<u8> },
    Symbol { name: Seq<char> },
}

impl View for Const {
    type V = ConstView;

    open spec fn view(&self) -> ConstView {
        match *self {
            Const::Literal { bytes } => ConstView::Literal { bytes: bytes@ },
            Const::Stack { from_offset, length } => ConstView::Stack {
                from_offset: from_offset@,
                length: length@,
            },
            Const::Symbol { name } => ConstView::Symbol { name: name@ },
        }
    }
}

/// The mathematical content of an [`Address`].
pub enum AddressView {
    Stack { address: ConstView },
    Native { stack_offset: ConstView },
}

impl View for Address {
    type V = AddressView;

    open spec fn view(&self) -> AddressView {
        match *self {
            Address::Stack { address } => AddressView::Stack { address: address@ },
            Address::Native { stack_offset } => AddressView::Native { stack_offset: stack_offset@ },
        }
    }
}

/// The mathematical content of a [`ConstOrAddress`].
pub enum ConstOrAddressView {
    Left { value: ConstView },
    Right { value: AddressView },
}

impl View for ConstOrAddress {
    type V = ConstOrAddressView;

    open spec fn view(&self) -> ConstOrAddressView {
        match *self {
            ConstOrAddress::Left { value } => ConstOrAddressView::Left { value: value@ },
            ConstOrAddress::Right { value } => ConstOrAddressView::Right { value: value@ },
        }
    }
}

/// The mathematical content of an [`Operation`].
pub enum OperationView {
    Extend { length: ConstView },
    Shrink { length: ConstView },
    CheckSize { length: ConstView },
    Branch {
        modifier: ConstView,
        length: ConstView,
        op1: ConstOrAddressView,
        op2: ConstOrAddressView,
        target: ConstView,
    },
    Jump { target: ConstView },
    Call { offset: ConstView, target: ConstView },
    Specialize { length: ConstView, dst: AddressView },
    NotSpecialize { length: ConstView, dst: AddressView },
    SetBytes { length: ConstView, src: ConstOrAddressView, dst: AddressView },
    Add { length: ConstView, op1: ConstOrAddressView, op2: ConstOrAddressView, dst: AddressView },
    Mult { length: ConstView, op1: ConstOrAddressView, op2: ConstOrAddressView, dst: AddressView },
    Neg { length: ConstView, op: ConstOrAddressView, dst: AddressView },
}

impl View for Operation {
    type V = OperationView;

    open spec fn view(&self) -> OperationView {
        match *self {
            Operation::Extend { length } => OperationView::Extend { length: length@ },
            Operation::Shrink { length } => OperationView::Shrink { length: length@ },
            Operation::CheckSize { length } => OperationView::CheckSize { length: length@ },
            Operation::Branch { modifier, length, op1, op2, target } => OperationView::Branch {
                modifier: modifier@,
                length: length@,
                op1: op1@,
                op2: op2@,
                target: target@,
            },
            Operation::Jump { target } => OperationView::Jump { target: target@ },
            Operation::Call { offset, target } => OperationView::Call {
                offset: offset@,
                target: target@,
            },
            Operation::Specialize { length, dst } => OperationView::Specialize {
                length: length@,
                dst: dst@,
            },
            Operation::NotSpecialize { length, dst } => OperationView::NotSpecialize {
                length: length@,
                dst: dst@,
            },
            Operation::SetBytes { length, src, dst } => OperationView::SetBytes {
                length: length@,
                src: src@,
                dst: dst@,
            },
            Operation::Add { length, op1, op2, dst } => OperationView::Add {
                length: length@,
                op1: op1@,
                op2: op2@,
                dst: dst@,
            },
            Operation::Mult { length, op1, op2, dst } => OperationView::Mult {
                length: length@,
                op1: op1@,
                op2: op2@,
                dst: dst@,
            },
            Operation::Neg { length, op, dst } => OperationView::Neg {
                length: length@,
                op: op@,
                dst: dst@,
            },
        }
    }
}

/// The mathematical content of a [`Func`]: its name, each operation with
/// the number of its line, and its labels.
pub struct FuncView {
    pub name: Seq<char>,
    pub ops: Seq<(OperationView, usize)>,
    pub labels: Seq<(Seq<char>, usize)>,
}

impl View for Func {
    type V = FuncView;

    open spec fn view(&self) -> FuncView {
        FuncView {
            name: self.name@,
            ops: Seq::new(self.ops@.len(), |at: int| (self.ops@[at].0@, self.ops@[at].1.line)),
            labels: Seq::new(
                self.labels@.len(),
                |at: int| (self.labels@[at].0@, self.labels@[at].1),
            ),
        }
    }
}

} // verus!
