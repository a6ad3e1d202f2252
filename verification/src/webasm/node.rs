//! The functions of a WebAssembly module as graphs of nodes.

use crate::lang::operations;
use crate::vm::api::{Command, CommandView, Condition, Node, NodeKind, NodeKindView, Ref};
use crate::vm::interpreter;
use crate::webasm::ast::{
    block_end_of, Code, Export, ExportTag, FuncIdx, FuncType, Instruction, InstructionIdx,
    Instructions, LocalIdx, Module, NumType, ValType,
};
use std::rc::Rc;
use vstd::prelude::*;
use vstd::string::StringExecFns;

verus! {

/// Stands for std's `Rc::clone`: another pointer to the same value.
#[verifier::external_body]
fn share<T>(shared: &Rc<T>) -> (copy: Rc<T>)
    ensures
        copy == *shared,
{
    Rc::clone(shared)
}

/// A module with the name under which it was read.
#[derive(Debug, Clone, PartialEq, Eq, Hash)]
pub struct Source {
    pub uuid: u128,
    pub name: String,
    pub module: Module,
}

/// The number of bytes that a value of the type takes on the stack.
pub open spec fn num_type_size_of(num_type: NumType) -> u8 {
    match num_type {
        NumType::I32 => 4,
        NumType::I64 => 8,
        NumType::F32 => 4,
        NumType::F64 => 8,
    }
}

/// The number of bytes that a value of the type takes on the stack:
/// references have no place there.
pub open spec fn val_type_size_of(val_type: ValType) -> u8
    recommends
        val_type is Num,
{
    match val_type {
        ValType::Num(num_type) => num_type_size_of(num_type),
        ValType::Ref(_) => 0,
    }
}

/// Every one of the types is a number type.
pub open spec fn all_numbers(items: Seq<ValType>) -> bool {
    forall|at: int| 0 <= at < items.len() ==> (#[trigger] items[at]) is Num
}

/// The number of bytes that values of the types take together.
pub open spec fn total_size(items: Seq<ValType>) -> nat
    decreases items.len(),
{
    if items.len() == 0 {
        0
    } else {
        total_size(items.drop_last()) + val_type_size_of(items.last()) as nat
    }
}

/// A part of the types takes no more bytes than all of them.
pub proof fn lemma_total_size_of_prefix(items: Seq<ValType>, count: int)
    requires
        0 <= count <= items.len(),
    ensures
        total_size(items.take(count)) <= total_size(items),
        count < items.len() ==> total_size(items.take(count + 1)) == total_size(items.take(count))
            + val_type_size_of(items[count]),
    decreases items.len() - count,
{
    if count < items.len() {
        assert(items.take(count + 1).drop_last() =~= items.take(count));
        lemma_total_size_of_prefix(items, count + 1);
    } else {
        assert(items.take(count) =~= items);
    }
}

fn num_type_size(num_type: NumType) -> (size: u8)
    ensures
        size == num_type_size_of(num_type),
{
    match num_type {
        NumType::I32 => 4,
        NumType::I64 => 8,
        NumType::F32 => 4,
        NumType::F64 => 8,
    }
}

fn val_type_size(val_type: ValType) -> (size: u8)
    requires
        val_type is Num,
    ensures
        size == val_type_size_of(val_type),
{
    match val_type {
        ValType::Num(num_type) => num_type_size(num_type),
        ValType::Ref(_) => 0,
    }
}

/// The number of bytes that the first `count` of the types take together.
fn size_of_first(items: &Vec<ValType>, count: usize) -> (size: u32)
    requires
        count <= items@.len(),
        all_numbers(items@),
        total_size(items@) <= u32::MAX,
    ensures
        size == total_size(items@.take(count as int)),
{
    let mut size: u32 = 0;
    let mut at: usize = 0;
    while at < count
        invariant
            at <= count <= items@.len(),
            all_numbers(items@),
            total_size(items@) <= u32::MAX,
            size == total_size(items@.take(at as int)),
        decreases count - at,
    {
        proof {
            lemma_total_size_of_prefix(items@, at as int);
            lemma_total_size_of_prefix(items@, at as int + 1);
        }
        size = size + val_type_size(items[at]) as u32;
        at += 1;
    }
    size
}

fn size_of(items: &Vec<ValType>) -> (size: u32)
    requires
        all_numbers(items@),
        total_size(items@) <= u32::MAX,
    ensures
        size == total_size(items@),
{
    assert(items@.take(items@.len() as int) =~= items@);
    size_of_first(items, items.len())
}

impl Source {
    /// The type of the function `id`, where the module declares it.
    pub open spec fn func_type_of(&self, id: FuncIdx) -> Option<FuncType> {
        if self.module.func_section is Some && self.module.type_section is Some && id.0
            < self.module.func_section->Some_0.0@.len()
            && self.module.func_section->Some_0.0@[id.0 as int].0
            < self.module.type_section->Some_0.0@.len() {
            Some(
                self.module.type_section->Some_0.0@[self.module.func_section->Some_0.0@[id.0 as int].0 as int],
            )
        } else {
            None
        }
    }

    /// The body of the function `id`, where the module holds it.
    pub open spec fn code_of(&self, id: FuncIdx) -> Option<Code> {
        if self.module.code_section is Some && id.0 < self.module.code_section->Some_0.0@.len() {
            Some(self.module.code_section->Some_0.0@[id.0 as int])
        } else {
            None
        }
    }

    /// The function `id` has a type whose parameters and results are
    /// numbers of no more than 2^32 bytes, and a body.
    pub open spec fn declares(&self, id: FuncIdx) -> bool {
        &&& self.func_type_of(id) matches Some(func_type) && all_numbers(func_type.params@)
            && all_numbers(func_type.results@) && total_size(func_type.params@) <= u32::MAX
            && total_size(func_type.results@) <= u32::MAX
        &&& self.code_of(id) is Some
    }

    fn func_type(&self, id: FuncIdx) -> (func_type: &FuncType)
        requires
            self.func_type_of(id) is Some,
        ensures
            Some(*func_type) == self.func_type_of(id),
    {
        let funcs = self.module.func_section.as_ref().unwrap();
        let types = self.module.type_section.as_ref().unwrap();
        let type_id = funcs.0[id.0 as usize];
        &types.0[type_id.0 as usize]
    }

    fn code(&self, id: FuncIdx) -> (code: &Code)
        requires
            self.code_of(id) is Some,
        ensures
            Some(*code) == self.code_of(id),
    {
        let codes = self.module.code_section.as_ref().unwrap();
        &codes.0[id.0 as usize]
    }
}

/// A function of a module.
#[derive(Debug, Clone, PartialEq, Eq, Hash)]
struct FuncContext {
    source: Rc<Source>,
    id: FuncIdx,
}

/// The node at which the function of `ctx` is entered.
#[derive(Debug, Clone, PartialEq, Eq, Hash)]
pub struct CallFuncNode {
    ctx: Rc<FuncContext>,
}

/// The node at which the instruction `inst` runs with `stack_size` bytes of
/// the frame in use.
#[derive(Debug, Clone, PartialEq, Eq, Hash)]
pub struct InstructionNode {
    ctx: Rc<FuncContext>,
    inst: InstructionIdx,
    stack_size: u32,
}

/// A node between two instructions.
#[derive(Debug, Clone, PartialEq, Eq, Hash)]
pub enum Intermediate {
    /// On the way to `next`, the bytes above those that `next` has in use
    /// are not needed any more.
    Poison { next: InstructionNode },
    /// Writes the 32-bit number `value` at `dst` on the way from a frame with
    /// `height` bytes in use to `next`.
    Write4 { dst: u32, value: u32, height: u32, next: InstructionNode },
    /// The bytes from `from` on are not needed any more, and the function is
    /// left.
    Leave { from: u32 },
    /// The function is left.
    Final,
}

#[derive(Debug, Hash, Clone, PartialEq, Eq)]
pub enum WebAsmNode {
    CallFunc(CallFuncNode),
    Instruction(InstructionNode),
    Intermediate(Intermediate),
}

/// The way from a frame with `height` bytes in use to `next`: where `next`
/// has fewer bytes in use, the bytes above are poisoned on the way.
pub open spec fn way_to(height: u32, next: InstructionNode) -> WebAsmNode {
    if height <= next.height() {
        WebAsmNode::Instruction(next)
    } else {
        WebAsmNode::Intermediate(Intermediate::Poison { next })
    }
}

impl Intermediate {
    pub open spec fn kind_of(self) -> NodeKindView<WebAsmNode> {
        match self {
            Intermediate::Poison { next } => NodeKindView::Command {
                command: CommandView::PoisonFrom { dst: Ref::Stack(next.height()) },
                next: WebAsmNode::Instruction(next),
            },
            Intermediate::Write4 { dst, value, height, next } => NodeKindView::Command {
                command: CommandView::SetBytes {
                    dst: Ref::Stack(dst),
                    bytes: crate::vm::interpreter::u32_le(value),
                },
                next: way_to(height, next),
            },
            Intermediate::Leave { from } => NodeKindView::Command {
                command: CommandView::PoisonFrom { dst: Ref::Stack(from) },
                next: WebAsmNode::Intermediate(Intermediate::Final),
            },
            Intermediate::Final => NodeKindView::Final,
        }
    }
}

impl CallFuncNode {
    /// The module and the function that the node belongs to.
    pub closed spec fn source(self) -> Source {
        *self.ctx.source
    }

    pub closed spec fn func(self) -> FuncIdx {
        self.ctx.id
    }

    /// The function is declared.
    pub open spec fn expressible(self) -> bool {
        self.source().declares(self.func())
    }

    /// The first instruction, with the parameters in the frame.
    pub closed spec fn entry(self) -> InstructionNode {
        InstructionNode {
            ctx: self.ctx,
            inst: InstructionIdx(0),
            stack_size: total_size(self.source().func_type_of(self.func())->Some_0.params@) as u32,
        }
    }

    /// Entering a function does nothing and hands over to its first
    /// instruction, with the parameters in the frame.
    pub open spec fn kind_of(self) -> NodeKindView<WebAsmNode> {
        NodeKindView::Command {
            command: CommandView::Noop,
            next: WebAsmNode::Instruction(self.entry()),
        }
    }

    fn get_kind(&self) -> (kind: NodeKind<WebAsmNode>)
        requires
            self.expressible(),
        ensures
            kind@ == self.kind_of(),
    {
        let stack_size = size_of(&self.ctx.source.func_type(self.ctx.id).params);
        NodeKind::Command {
            command: Command::Noop,
            next: WebAsmNode::Instruction(
                InstructionNode { ctx: share(&self.ctx), inst: InstructionIdx(0), stack_size },
            ),
        }
    }
}

impl InstructionNode {
    pub closed spec fn source(self) -> Source {
        *self.ctx.source
    }

    pub closed spec fn func(self) -> FuncIdx {
        self.ctx.id
    }

    /// The position of the instruction in the body of the function.
    pub closed spec fn position(self) -> InstructionIdx {
        self.inst
    }

    /// The number of bytes of the frame that are in use before the
    /// instruction runs.
    pub closed spec fn height(self) -> u32 {
        self.stack_size
    }

    /// The node of the same function at the instruction `inst`, with
    /// `stack_size` bytes in use.
    pub closed spec fn at(self, inst: InstructionIdx, stack_size: u32) -> InstructionNode {
        InstructionNode { ctx: self.ctx, inst, stack_size }
    }

    /// The node at which the function `id` of the same module is entered.
    pub closed spec fn callee(self, id: FuncIdx) -> CallFuncNode {
        CallFuncNode { ctx: Rc::new(FuncContext { source: self.ctx.source, id }) }
    }

    /// The type of the function.
    pub open spec fn signature(self) -> FuncType {
        self.source().func_type_of(self.func())->Some_0
    }

    /// The instructions of the function.
    pub open spec fn body(self) -> Instructions {
        self.source().code_of(self.func())->Some_0.expr
    }

    /// The instruction of the node.
    pub open spec fn instruction_of(self) -> Instruction {
        self.body().instructions@[self.position().0 as int]
    }

    /// The way to the instruction `inst` with `stack_size` bytes in use:
    /// where fewer bytes are in use than before, the bytes above are poisoned
    /// on the way.
    pub open spec fn goto_of(self, inst: InstructionIdx, stack_size: u32) -> WebAsmNode {
        way_to(self.height(), self.at(inst, stack_size))
    }

    /// The node of the next instruction, with `stack_size` bytes in use.
    pub open spec fn after(self, stack_size: u32) -> InstructionNode {
        self.at(InstructionIdx((self.position().0 + 1) as u32), stack_size)
    }

    /// The way to the next instruction.
    pub open spec fn next_of(self, stack_size: u32) -> WebAsmNode {
        self.goto_of(InstructionIdx((self.position().0 + 1) as u32), stack_size)
    }

    /// Leaving the function: the results are copied to the start of the
    /// frame, the bytes above them are poisoned, and the evaluation of the
    /// function ends.
    pub open spec fn ret_of(self) -> NodeKindView<WebAsmNode> {
        let ret_size = total_size(self.signature().results@) as u32;
        NodeKindView::Command {
            command: CommandView::Copy {
                dst: Ref::Stack(0),
                size: ret_size,
                op: Ref::Stack((self.height() - ret_size) as u32),
            },
            next: WebAsmNode::Intermediate(Intermediate::Leave { from: ret_size }),
        }
    }

    /// The place of the parameter `id` in the frame.
    pub open spec fn local_ref_of(self, id: LocalIdx) -> Ref {
        Ref::Stack(total_size(self.signature().params@.take(id.0 as int)) as u32)
    }

    /// The instruction can be expressed as a node: what it names exists, the frame
    /// holds its operands, and no size leaves 32 bits.
    pub open spec fn expressible(self) -> bool {
        &&& self.source().declares(self.func())
        &&& self.position().0 < self.body().instructions@.len()
        &&& self.position().0 < u32::MAX
        &&& match self.instruction_of() {
            Instruction::Nop => true,
            Instruction::If { .. } => {
                &&& self.height() >= 4
                &&& block_end_of(self.body().blocks@, self.position()) matches Some(end) && end.0
                    < u32::MAX
            },
            Instruction::Else => false,
            Instruction::BlockEnd => self.position().0 == self.body().instructions@.len() - 1
                ==> total_size(self.signature().results@) <= self.height(),
            Instruction::Return => total_size(self.signature().results@) <= self.height(),
            Instruction::Call(id) => {
                &&& self.source().declares(id)
                &&& total_size(self.source().func_type_of(id)->Some_0.params@) <= self.height()
                &&& self.height() - total_size(self.source().func_type_of(id)->Some_0.params@)
                    + total_size(self.source().func_type_of(id)->Some_0.results@) <= u32::MAX
            },
            Instruction::LocalGet(id) => {
                &&& id.0 < self.signature().params@.len()
                &&& self.height() + val_type_size_of(self.signature().params@[id.0 as int])
                    <= u32::MAX
            },
            Instruction::I32Const(_) => self.height() + 4 <= u32::MAX,
            Instruction::I64Const(_) => self.height() + 8 <= u32::MAX,
            Instruction::Eq(num_type) => self.height() >= 2 * num_type_size_of(num_type),
            Instruction::Add(num_type) => self.height() >= 2 * num_type_size_of(num_type),
            Instruction::Sub(num_type) => self.height() >= 2 * num_type_size_of(num_type),
        }
    }

    /// What the instruction does, as a node:
    /// a constant or a parameter is pushed, an operation replaces its two
    /// operands by the result, a comparison by 1 or 0, `if` branches on the
    /// number at the top, a call runs the callee on the frame that starts at
    /// its parameters, and the end of the body and `return` leave the
    /// function.
    pub open spec fn kind_of(self) -> NodeKindView<WebAsmNode> {
        let height = self.height();
        match self.instruction_of() {
            Instruction::Nop => NodeKindView::Command {
                command: CommandView::Noop,
                next: self.next_of(height),
            },
            Instruction::If { .. } => NodeKindView::Branch {
                condition: Condition::Ne0 { size: 4, op: Ref::Stack((height - 4) as u32) },
                if_true: self.next_of((height - 4) as u32),
                if_false: self.goto_of(
                    InstructionIdx(
                        (block_end_of(self.body().blocks@, self.position())->Some_0.0 + 1) as u32,
                    ),
                    (height - 4) as u32,
                ),
            },
            Instruction::Else => NodeKindView::Final,
            Instruction::BlockEnd => if self.position().0 == self.body().instructions@.len() - 1 {
                self.ret_of()
            } else {
                NodeKindView::Command { command: CommandView::Noop, next: self.next_of(height) }
            },
            Instruction::Return => self.ret_of(),
            Instruction::Call(id) => {
                let params = total_size(self.source().func_type_of(id)->Some_0.params@);
                let results = total_size(self.source().func_type_of(id)->Some_0.results@);
                NodeKindView::Call {
                    offset: (height - params) as u32,
                    call: WebAsmNode::CallFunc(self.callee(id)),
                    next: self.next_of((height - params + results) as u32),
                }
            },
            Instruction::LocalGet(id) => {
                let size = val_type_size_of(self.signature().params@[id.0 as int]);
                NodeKindView::Command {
                    command: CommandView::Copy {
                        size: size as u32,
                        dst: Ref::Stack(height),
                        op: self.local_ref_of(id),
                    },
                    next: self.next_of((height + size) as u32),
                }
            },
            Instruction::I32Const(value) => NodeKindView::Command {
                command: CommandView::SetBytes {
                    dst: Ref::Stack(height),
                    bytes: operations::i32_le(value),
                },
                next: self.next_of((height + 4) as u32),
            },
            Instruction::I64Const(value) => NodeKindView::Command {
                command: CommandView::SetBytes {
                    dst: Ref::Stack(height),
                    bytes: operations::i64_le(value),
                },
                next: self.next_of((height + 8) as u32),
            },
            Instruction::Eq(num_type) => {
                let size = num_type_size_of(num_type) as u32;
                let first = (height - 2 * size) as u32;
                NodeKindView::Branch {
                    condition: Condition::Ne {
                        size,
                        op1: Ref::Stack(first),
                        op2: Ref::Stack((height - size) as u32),
                    },
                    if_true: WebAsmNode::Intermediate(
                        Intermediate::Write4 {
                            dst: first,
                            value: 0,
                            height,
                            next: self.after((first + 4) as u32),
                        },
                    ),
                    if_false: WebAsmNode::Intermediate(
                        Intermediate::Write4 {
                            dst: first,
                            value: 1,
                            height,
                            next: self.after((first + 4) as u32),
                        },
                    ),
                }
            },
            Instruction::Add(num_type) => {
                let size = num_type_size_of(num_type) as u32;
                let first = (height - 2 * size) as u32;
                NodeKindView::Command {
                    command: CommandView::Add {
                        size,
                        dst: Ref::Stack(first),
                        op1: Ref::Stack(first),
                        op2: Ref::Stack((height - size) as u32),
                    },
                    next: self.next_of((height - size) as u32),
                }
            },
            Instruction::Sub(num_type) => {
                let size = num_type_size_of(num_type) as u32;
                let first = (height - 2 * size) as u32;
                NodeKindView::Command {
                    command: CommandView::Sub {
                        size,
                        dst: Ref::Stack(first),
                        op1: Ref::Stack(first),
                        op2: Ref::Stack((height - size) as u32),
                    },
                    next: self.next_of((height - size) as u32),
                }
            },
        }
    }

    fn func_type(&self) -> (func_type: &FuncType)
        requires
            self.source().func_type_of(self.func()) is Some,
        ensures
            *func_type == self.signature(),
    {
        self.ctx.source.func_type(self.ctx.id)
    }

    fn instructions(&self) -> (body: &Instructions)
        requires
            self.source().code_of(self.func()) is Some,
        ensures
            *body == self.body(),
    {
        &self.ctx.source.code(self.ctx.id).expr
    }

    fn instruction(&self) -> (instruction: Instruction)
        requires
            self.source().code_of(self.func()) is Some,
            self.position().0 < self.body().instructions@.len(),
        ensures
            instruction == self.instruction_of(),
    {
        self.instructions().instructions[self.inst.0 as usize]
    }

    fn local_ref(&self, id: LocalIdx) -> (place: Ref)
        requires
            self.source().declares(self.func()),
            id.0 < self.signature().params@.len(),
        ensures
            place == self.local_ref_of(id),
    {
        Ref::Stack(size_of_first(&self.func_type().params, id.0 as usize))
    }

    fn local_size(&self, id: LocalIdx) -> (size: u8)
        requires
            self.source().declares(self.func()),
            id.0 < self.signature().params@.len(),
        ensures
            size == val_type_size_of(self.signature().params@[id.0 as int]),
    {
        val_type_size(self.func_type().params[id.0 as usize])
    }

    fn next(&self, stack_size: u32) -> (node: WebAsmNode)
        requires
            self.position().0 < u32::MAX,
        ensures
            node == self.next_of(stack_size),
    {
        self.goto(InstructionIdx(self.inst.0 + 1), stack_size)
    }

    fn command(&self, stack_size: u32, command: Command) -> (kind: NodeKind<WebAsmNode>)
        requires
            self.position().0 < u32::MAX,
        ensures
            kind@ == (NodeKindView::Command { command: command@, next: self.next_of(stack_size) }),
    {
        NodeKind::Command { command, next: self.next(stack_size) }
    }

    fn goto(&self, inst: InstructionIdx, stack_size: u32) -> (node: WebAsmNode)
        ensures
            node == self.goto_of(inst, stack_size),
    {
        let node = InstructionNode { ctx: share(&self.ctx), inst, stack_size };
        if self.stack_size <= stack_size {
            WebAsmNode::Instruction(node)
        } else {
            WebAsmNode::Intermediate(Intermediate::Poison { next: node })
        }
    }

    fn last_instruction(&self) -> (last: bool)
        requires
            self.source().code_of(self.func()) is Some,
            self.body().instructions@.len() > 0,
        ensures
            last == (self.position().0 == self.body().instructions@.len() - 1),
    {
        self.inst.0 as usize == self.instructions().instructions.len() - 1
    }

    fn get_kind(&self) -> (kind: NodeKind<WebAsmNode>)
        requires
            self.expressible(),
        ensures
            kind@ == self.kind_of(),
    {
        match self.instruction() {
            Instruction::Nop => self.command(self.stack_size, Command::Noop),
            Instruction::If { bt: _ } => {
                let block_end = self.instructions().block_end(self.inst).unwrap();
                NodeKind::Branch {
                    condition: Condition::Ne0 { size: 4, op: Ref::Stack(self.stack_size - 4) },
                    if_true: self.next(self.stack_size - 4),
                    if_false: self.goto(InstructionIdx(block_end.0 + 1), self.stack_size - 4),
                }
            },
            Instruction::Else => NodeKind::Final,
            Instruction::BlockEnd => {
                if self.last_instruction() {
                    self.ret()
                } else {
                    self.command(self.stack_size, Command::Noop)
                }
            },
            Instruction::Return => self.ret(),
            Instruction::Call(id) => {
                let params_size = size_of(&self.ctx.source.func_type(id).params);
                let result_size = size_of(&self.ctx.source.func_type(id).results);
                NodeKind::Call {
                    offset: self.stack_size - params_size,
                    call: WebAsmNode::CallFunc(
                        CallFuncNode {
                            ctx: Rc::new(FuncContext { source: share(&self.ctx.source), id }),
                        },
                    ),
                    next: self.next(self.stack_size - params_size + result_size),
                }
            },
            Instruction::LocalGet(id) => self.push(self.local_size(id) as u32, self.local_ref(id)),
            Instruction::I32Const(value) => self.push_const(operations::bytes_from_i32(value)),
            Instruction::I64Const(value) => self.push_const(operations::bytes_from_i64(value)),
            Instruction::Eq(num_type) => {
                let size: u32 = num_type_size(num_type) as u32;
                let first: u32 = self.stack_size - size * 2;
                NodeKind::Branch {
                    condition: Condition::Ne {
                        size,
                        op1: Ref::Stack(first),
                        op2: Ref::Stack(self.stack_size - size),
                    },
                    if_true: self.command_node(first + 4, first, 0),
                    if_false: self.command_node(first + 4, first, 1),
                }
            },
            Instruction::Add(num_type) => self.binary_op(num_type, true),
            Instruction::Sub(num_type) => self.binary_op(num_type, false),
        }
    }

    /// The node of an operation that replaces the two numbers at the top of
    /// the frame by their sum, or by their difference.
    fn binary_op(&self, num_type: NumType, sum: bool) -> (kind: NodeKind<WebAsmNode>)
        requires
            self.position().0 < u32::MAX,
            self.height() >= 2 * num_type_size_of(num_type),
        ensures
            kind@ == (NodeKindView::Command {
                command: if sum {
                    CommandView::Add {
                        size: num_type_size_of(num_type) as u32,
                        dst: Ref::Stack((self.height() - 2 * num_type_size_of(num_type)) as u32),
                        op1: Ref::Stack((self.height() - 2 * num_type_size_of(num_type)) as u32),
                        op2: Ref::Stack((self.height() - num_type_size_of(num_type)) as u32),
                    }
                } else {
                    CommandView::Sub {
                        size: num_type_size_of(num_type) as u32,
                        dst: Ref::Stack((self.height() - 2 * num_type_size_of(num_type)) as u32),
                        op1: Ref::Stack((self.height() - 2 * num_type_size_of(num_type)) as u32),
                        op2: Ref::Stack((self.height() - num_type_size_of(num_type)) as u32),
                    }
                },
                next: self.next_of((self.height() - num_type_size_of(num_type)) as u32),
            }),
    {
        let size: u32 = num_type_size(num_type) as u32;
        let dst = Ref::Stack(self.stack_size - 2 * size);
        let op1 = Ref::Stack(self.stack_size - 2 * size);
        let op2 = Ref::Stack(self.stack_size - size);
        let command = if sum {
            Command::Add { size, dst, op1, op2 }
        } else {
            Command::Sub { size, dst, op1, op2 }
        };
        self.command(self.stack_size - size, command)
    }

    /// The node that writes the number `value` at `dst` on the way to the
    /// next instruction.
    fn command_node(&self, stack_size: u32, dst: u32, value: u32) -> (node: WebAsmNode)
        requires
            self.position().0 < u32::MAX,
        ensures
            node == WebAsmNode::Intermediate(
                Intermediate::Write4 {
                    dst,
                    value,
                    height: self.height(),
                    next: self.after(stack_size),
                },
            ),
    {
        WebAsmNode::Intermediate(
            Intermediate::Write4 {
                dst,
                value,
                height: self.stack_size,
                next: InstructionNode {
                    ctx: share(&self.ctx),
                    inst: InstructionIdx(self.inst.0 + 1),
                    stack_size,
                },
            },
        )
    }

    fn push_const(&self, bytes: Vec<u8>) -> (kind: NodeKind<WebAsmNode>)
        requires
            self.position().0 < u32::MAX,
            self.height() + bytes@.len() <= u32::MAX,
        ensures
            kind@ == (NodeKindView::Command {
                command: CommandView::SetBytes { dst: Ref::Stack(self.height()), bytes: bytes@ },
                next: self.next_of((self.height() + bytes@.len()) as u32),
            }),
    {
        let bytes_len: u32 = bytes.len() as u32;
        self.command(
            self.stack_size + bytes_len,
            Command::SetBytes { dst: Ref::Stack(self.stack_size), bytes },
        )
    }

    fn push(&self, size: u32, src: Ref) -> (kind: NodeKind<WebAsmNode>)
        requires
            self.position().0 < u32::MAX,
            self.height() + size <= u32::MAX,
        ensures
            kind@ == (NodeKindView::Command {
                command: CommandView::Copy { size, dst: Ref::Stack(self.height()), op: src },
                next: self.next_of((self.height() + size) as u32),
            }),
    {
        self.command(
            self.stack_size + size,
            Command::Copy { size, dst: Ref::Stack(self.stack_size), op: src },
        )
    }

    fn ret(&self) -> (kind: NodeKind<WebAsmNode>)
        requires
            self.source().declares(self.func()),
            total_size(self.signature().results@) <= self.height(),
        ensures
            kind@ == self.ret_of(),
    {
        let ret_size = size_of(&self.func_type().results);
        NodeKind::Command {
            // copy result
            command: Command::Copy {
                dst: Ref::Stack(0),
                size: ret_size,
                op: Ref::Stack(self.stack_size - ret_size),
            },
            // clean stack
            next: WebAsmNode::Intermediate(Intermediate::Leave { from: ret_size }),
        }
    }
}


/// The first of `exports` that has the name `name`.
pub open spec fn first_export(exports: Seq<Export>, name: Seq<char>) -> Option<int>
    decreases exports.len(),
{
    if exports.len() == 0 {
        None
    } else {
        match first_export(exports.drop_last(), name) {
            Some(at) => Some(at),
            None => if exports.last().name@ == name {
                Some(exports.len() - 1)
            } else {
                None
            },
        }
    }
}

/// The first export with the name is the one before which none has it.
pub proof fn lemma_first_export(exports: Seq<Export>, name: Seq<char>, at: int)
    requires
        0 <= at <= exports.len(),
        forall|before: int| 0 <= before < at ==> exports[before].name@ != name,
        at < exports.len() ==> exports[at].name@ == name,
    ensures
        first_export(exports, name) == if at < exports.len() {
            Some(at)
        } else {
            None
        },
    decreases exports.len(),
{
    if exports.len() > 0 {
        let shorter = exports.drop_last();
        if at < shorter.len() {
            lemma_first_export(shorter, name, at);
        } else {
            lemma_first_export(shorter, name, shorter.len() as int);
        }
    }
}

impl CallFuncNode {
    /// The node at which the function `id` of `source` is entered.
    pub closed spec fn of(source: Source, id: FuncIdx) -> CallFuncNode {
        CallFuncNode { ctx: Rc::new(FuncContext { source: Rc::new(source), id }) }
    }
}

impl Intermediate {
    fn get_kind(&self) -> (kind: NodeKind<WebAsmNode>)
        ensures
            kind@ == self.kind_of(),
    {
        match self {
            Intermediate::Poison { next } => NodeKind::Command {
                command: Command::PoisonFrom { dst: Ref::Stack(next.stack_size) },
                next: WebAsmNode::Instruction(next.duplicate()),
            },
            Intermediate::Write4 { dst, value, height, next } => {
                let mut bytes: Vec<u8> = Vec::new();
                bytes.push(0);
                bytes.push(0);
                bytes.push(0);
                bytes.push(0);
                interpreter::put_u32(Ref::Stack(0), bytes.as_mut_slice(), *value);
                assert(bytes@ =~= interpreter::u32_le(*value));
                NodeKind::Command {
                    command: Command::SetBytes { dst: Ref::Stack(*dst), bytes },
                    next: if *height <= next.stack_size {
                        WebAsmNode::Instruction(next.duplicate())
                    } else {
                        WebAsmNode::Intermediate(Intermediate::Poison { next: next.duplicate() })
                    },
                }
            },
            Intermediate::Leave { from } => NodeKind::Command {
                command: Command::PoisonFrom { dst: Ref::Stack(*from) },
                next: WebAsmNode::Intermediate(Intermediate::Final),
            },
            Intermediate::Final => NodeKind::Final,
        }
    }
}

impl InstructionNode {
    fn duplicate(&self) -> (copy: InstructionNode)
        ensures
            copy == *self,
    {
        InstructionNode { ctx: share(&self.ctx), inst: self.inst, stack_size: self.stack_size }
    }
}

impl WebAsmNode {
    /// The node has a kind.
    pub open spec fn expressible(self) -> bool {
        match self {
            WebAsmNode::CallFunc(node) => node.expressible(),
            WebAsmNode::Instruction(node) => node.expressible(),
            WebAsmNode::Intermediate(_) => true,
        }
    }

    /// The kind of the node.
    pub open spec fn kind_of(self) -> NodeKindView<WebAsmNode> {
        match self {
            WebAsmNode::CallFunc(node) => node.kind_of(),
            WebAsmNode::Instruction(node) => node.kind_of(),
            WebAsmNode::Intermediate(node) => node.kind_of(),
        }
    }

    /// The node hands over to `next`.
    pub open spec fn hands_over_to(self, next: WebAsmNode) -> bool {
        match self.kind_of() {
            NodeKindView::Command { next: only, .. } => next == only,
            NodeKindView::Branch { if_true, if_false, .. } => next == if_true || next == if_false,
            NodeKindView::Call { call, next: then, .. } => next == call || next == then,
            NodeKindView::Final => false,
        }
    }

    /// A path of at most `steps` nodes leads from the node to `to`.
    pub open spec fn leads_within(self, to: WebAsmNode, steps: nat) -> bool
        decreases steps,
    {
        self == to || (steps > 0 && exists|next: WebAsmNode|
            self.hands_over_to(next) && next.leads_within(to, (steps - 1) as nat))
    }

    /// A path of nodes leads from the node to `to`.
    pub open spec fn leads_to(self, to: WebAsmNode) -> bool {
        exists|steps: nat| self.leads_within(to, steps)
    }

    /// Every node to which a path leads from the node has a kind:
    /// the function is well formed as far as the node can tell.
    pub open spec fn sound(self) -> bool {
        forall|to: WebAsmNode| self.leads_to(to) ==> to.expressible()
    }

    /// What follows a sound node is sound.
    pub proof fn lemma_sound_successor(self, next: WebAsmNode)
        requires
            self.sound(),
            self.hands_over_to(next),
        ensures
            next.sound(),
    {
        assert forall|to: WebAsmNode| next.leads_to(to) implies to.expressible() by {
            let steps = choose|steps: nat| next.leads_within(to, steps);
            assert(self.leads_within(to, steps + 1));
        }
    }

    /// The node at which the function that `source` exports under `name` is
    /// entered: that of the first export with the name, if it is a function.
    pub fn exported_func(source: Rc<Source>, name: &str) -> (node: Option<WebAsmNode>)
        ensures
            node == match source.module.export_section {
                Some(section) => match first_export(section.0@, name@) {
                    Some(at) => if section.0@[at].tag == ExportTag::Func {
                        Some(
                            WebAsmNode::CallFunc(
                                CallFuncNode::of(*source, FuncIdx(section.0@[at].idx)),
                            ),
                        )
                    } else {
                        None
                    },
                    None => None,
                },
                None => None,
            },
    {
        let wanted = String::from_str(name);
        let found: Option<(ExportTag, u32)> = match &source.module.export_section {
            Some(section) => {
                let mut at: usize = 0;
                while at < section.0.len() && !(section.0[at].name == wanted)
                    invariant
                        at <= section.0@.len(),
                        wanted@ == name@,
                        forall|before: int| 0 <= before < at ==> section.0@[before].name@ != name@,
                    decreases section.0@.len() - at,
                {
                    at += 1;
                }
                proof {
                    lemma_first_export(section.0@, name@, at as int);
                }
                if at < section.0.len() {
                    Some((section.0[at].tag, section.0[at].idx))
                } else {
                    None
                }
            },
            None => None,
        };
        match found {
            Some((ExportTag::Func, idx)) => Some(
                WebAsmNode::CallFunc(
                    CallFuncNode { ctx: Rc::new(FuncContext { source, id: FuncIdx(idx) }) },
                ),
            ),
            _ => None,
        }
    }
}

impl Node for WebAsmNode {
    open spec fn valid(&self) -> bool {
        self.sound()
    }

    open spec fn kind(&self) -> NodeKindView<WebAsmNode> {
        self.kind_of()
    }

    fn get(&self) -> (kind: NodeKind<WebAsmNode>) {
        proof {
            assert(self.leads_within(*self, 0));
            assert(self.leads_to(*self));
            assert(self.expressible());
            match self.kind_of() {
                NodeKindView::Command { next, .. } => {
                    self.lemma_sound_successor(next);
                },
                NodeKindView::Branch { if_true, if_false, .. } => {
                    self.lemma_sound_successor(if_true);
                    self.lemma_sound_successor(if_false);
                },
                NodeKindView::Call { call, next, .. } => {
                    self.lemma_sound_successor(call);
                    self.lemma_sound_successor(next);
                },
                NodeKindView::Final => {},
            }
        }
        match self {
            WebAsmNode::CallFunc(ctx) => ctx.get_kind(),
            WebAsmNode::Instruction(node) => node.get_kind(),
            WebAsmNode::Intermediate(node) => node.get_kind(),
        }
    }
}

} // verus!
