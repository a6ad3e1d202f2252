use leshy::vm::api::{Command, Node, NodeKind, NodeKindView, Ref};
use leshy::vm::cached_node::{Cache, CachedNode};
use leshy::vm::aux::specialized_interpreter_engine::SpecializedInterpreterEngine;
use leshy::vm::caching_interpreter::Interpreter;
use leshy::vm::driver::driver::Driver;
use leshy::vm::driver::interpreter_engine::InterpreterEngine;
use leshy::vm::interpreter::{eval, get_u32, put_u32};
use leshy::vm::utils::{pretty_lines, traverse_node, Content};
use leshy::webasm::ast::{
    BlockType, ExportTag, FuncIdx, Instruction, InstructionIdx, LocalIdx, Module, NumType, TypeIdx,
    ValType,
};
use leshy::webasm::node::{Source, WebAsmNode};
use leshy::webasm::parser::common::{
    read_i32, read_i64, read_string, read_u32, read_u8, read_vector, Error, Reader,
};
use std::rc::Rc;

#[test]
fn test_data_sizes() {
    assert_eq!(1, std::mem::size_of::<NumType>());
    assert_eq!(1, std::mem::size_of::<ValType>());
    assert_eq!(4, std::mem::size_of::<InstructionIdx>());
}

/// A module with one function of type `i32 -> i32`, exported as `fib`.
fn fib_module() -> Vec<u8> {
    let body: Vec<u8> = vec![
        0x20, 0x00, // local.get 0
        0x41, 0x00, // i32.const 0
        0x46, // i32.eq
        0x04, 0x40, // if
        0x41, 0x00, // i32.const 0
        0x0F, // return
        0x0B, // end
        0x20, 0x00, // local.get 0
        0x41, 0x01, // i32.const 1
        0x46, // i32.eq
        0x04, 0x40, // if
        0x41, 0x01, // i32.const 1
        0x0F, // return
        0x0B, // end
        0x20, 0x00, // local.get 0
        0x41, 0x01, // i32.const 1
        0x6B, // i32.sub
        0x10, 0x00, // call 0
        0x20, 0x00, // local.get 0
        0x41, 0x02, // i32.const 2
        0x6B, // i32.sub
        0x10, 0x00, // call 0
        0x6A, // i32.add
        0x0B, // end
    ];
    let mut bytes: Vec<u8> = vec![0x00, 0x61, 0x73, 0x6D, 0x01, 0x00, 0x00, 0x00];
    bytes.extend_from_slice(&[0x01, 0x06, 0x01, 0x60, 0x01, 0x7F, 0x01, 0x7F]);
    bytes.extend_from_slice(&[0x03, 0x02, 0x01, 0x00]);
    bytes.extend_from_slice(&[0x07, 0x07, 0x01, 0x03, 0x66, 0x69, 0x62, 0x00, 0x00]);
    bytes.extend_from_slice(&[0x0A, (body.len() + 3) as u8, 0x01, (body.len() + 1) as u8, 0x00]);
    bytes.extend_from_slice(&body);
    bytes
}

fn fib_node() -> WebAsmNode {
    let bytes = fib_module();
    let module = Module::read(&mut Reader::new(&bytes)).unwrap();
    let source = Rc::new(Source { uuid: 0, name: String::from("fib"), module });
    WebAsmNode::exported_func(source, "fib").unwrap()
}

fn run_fib<F: FnOnce(&mut [u8])>(eval: F, n: u32) -> u32 {
    let mut stack = [0u8; 1000];
    put_u32(Ref::Stack(0), &mut stack, n);
    eval(&mut stack);
    get_u32(Ref::Stack(0), &stack)
}

#[test]
fn module_is_read() {
    let bytes = fib_module();
    let module = Module::read(&mut Reader::new(&bytes)).unwrap();
    let types = module.type_section.unwrap();
    assert_eq!(1, types.0.len());
    assert_eq!(vec![ValType::Num(NumType::I32)], types.0[0].params);
    assert_eq!(vec![ValType::Num(NumType::I32)], types.0[0].results);
    assert_eq!(vec![TypeIdx(0)], module.func_section.unwrap().0);
    let exports = module.export_section.unwrap();
    assert_eq!("fib", exports.0[0].name);
    assert_eq!(ExportTag::Func, exports.0[0].tag);
    assert_eq!(0, exports.0[0].idx);
    let code = module.code_section.unwrap();
    assert_eq!(1, code.0.len());
    assert!(code.0[0].locals.is_empty());
    let expr = &code.0[0].expr;
    assert_eq!(24, expr.instructions.len());
    assert_eq!(Instruction::LocalGet(LocalIdx(0)), expr.instructions[0]);
    assert_eq!(Instruction::I32Const(0), expr.instructions[1]);
    assert_eq!(Instruction::Eq(NumType::I32), expr.instructions[2]);
    assert_eq!(Instruction::If { bt: BlockType::Empty }, expr.instructions[3]);
    assert_eq!(Instruction::Return, expr.instructions[5]);
    assert_eq!(Instruction::BlockEnd, expr.instructions[6]);
    assert_eq!(Instruction::Sub(NumType::I32), expr.instructions[16]);
    assert_eq!(Instruction::Call(FuncIdx(0)), expr.instructions[17]);
    assert_eq!(Instruction::Add(NumType::I32), expr.instructions[22]);
    assert_eq!(Instruction::BlockEnd, expr.instructions[23]);
    assert_eq!(
        vec![(InstructionIdx(3), InstructionIdx(6)), (InstructionIdx(10), InstructionIdx(13))],
        expr.blocks
    );
    assert_eq!(Some(InstructionIdx(13)), expr.block_end(InstructionIdx(10)));
    assert_eq!(None, expr.block_end(InstructionIdx(4)));
    assert!(module.other_sections.is_empty());
}

#[test]
fn malformed_modules_are_rejected() {
    let good = fib_module();
    assert_eq!(Err(Error::UnexpectedEnd), Module::read(&mut Reader::new(&good[0..5])).map(|_| ()));
    let mut bad_magic = good.clone();
    bad_magic[1] = 0x62;
    assert_eq!(Err(Error::Malformed), Module::read(&mut Reader::new(&bad_magic)).map(|_| ()));
    let mut bad_version = good.clone();
    bad_version[4] = 2;
    assert_eq!(Err(Error::Malformed), Module::read(&mut Reader::new(&bad_version)).map(|_| ()));
    // a section that says it is longer than the bytes
    assert_eq!(
        Err(Error::UnexpectedEnd),
        Module::read(&mut Reader::new(&good[0..good.len() - 1])).map(|_| ())
    );
    // a type that does not start with 0x60
    let mut bad_type = good.clone();
    bad_type[11] = 0x61;
    assert_eq!(Err(Error::Malformed), Module::read(&mut Reader::new(&bad_type)).map(|_| ()));
    // a value type that is not known
    let mut bad_val_type = good.clone();
    bad_val_type[13] = 0x11;
    assert_eq!(Err(Error::Unsupported), Module::read(&mut Reader::new(&bad_val_type)).map(|_| ()));
    // an opcode that is not known
    let mut bad_opcode = good.clone();
    let last_add = good.len() - 2;
    bad_opcode[last_add] = 0xFC;
    assert_eq!(Err(Error::Unsupported), Module::read(&mut Reader::new(&bad_opcode)).map(|_| ()));
    // a code entry whose size is wrong
    let mut bad_size = good.clone();
    let size_at = good.len() - 40;
    assert_eq!(0x27, bad_size[size_at]);
    bad_size[size_at] = 0x26;
    assert_eq!(Err(Error::Malformed), Module::read(&mut Reader::new(&bad_size)).map(|_| ()));
    // an export whose name is not UTF-8
    let mut bad_name = good.clone();
    bad_name[8 + 8 + 4 + 4] = 0xFF;
    assert_eq!(Err(Error::InvalidText), Module::read(&mut Reader::new(&bad_name)).map(|_| ()));
    // a module without sections
    let empty = Module::read(&mut Reader::new(&good[0..8])).unwrap();
    assert!(empty.type_section.is_none() && empty.code_section.is_none());
    // a custom section keeps its name
    let mut custom = good[0..8].to_vec();
    custom.extend_from_slice(&[0x00, 0x05, 0x02, 0x68, 0x69, 0xAA, 0xBB]);
    let module = Module::read(&mut Reader::new(&custom)).unwrap();
    assert_eq!(1, module.other_sections.len());
    assert_eq!(0, module.other_sections[0].0);
    assert_eq!("hi", module.other_sections[0].1 .0);
}

#[test]
fn numbers_are_read_in_leb128() {
    let bytes = [0xE5u8, 0x8E, 0x26, 0x7F, 0xC0, 0xBB, 0x78, 0x05];
    let mut reader = Reader::new(&bytes);
    assert_eq!(Ok(624485), read_u32(&mut reader));
    assert_eq!(3, reader.stream_position());
    assert_eq!(Ok(-1), read_i32(&mut reader));
    assert_eq!(Ok(-123456), read_i64(&mut reader));
    assert_eq!(Ok(5), read_u8(&mut reader));
    assert_eq!(Err(Error::UnexpectedEnd), read_u8(&mut reader));
    assert_eq!(Err(Error::UnexpectedEnd), read_u32(&mut reader));

    // one byte is its own number, and 0x3F is the largest positive one
    assert_eq!(Ok(0x7F), read_u32(&mut Reader::new(&[0x7F])));
    assert_eq!(Ok(0x3F), read_i32(&mut Reader::new(&[0x3F])));
    assert_eq!(Ok(-64), read_i32(&mut Reader::new(&[0x40])));
    // the largest and the smallest
    assert_eq!(Ok(u32::MAX), read_u32(&mut Reader::new(&[0xFF, 0xFF, 0xFF, 0xFF, 0x0F])));
    assert_eq!(Err(Error::OutOfRange), read_u32(&mut Reader::new(&[0xFF, 0xFF, 0xFF, 0xFF, 0x1F])));
    assert_eq!(Ok(i32::MIN), read_i32(&mut Reader::new(&[0x80, 0x80, 0x80, 0x80, 0x78])));
    assert_eq!(Ok(i32::MAX), read_i32(&mut Reader::new(&[0xFF, 0xFF, 0xFF, 0xFF, 0x07])));
    assert_eq!(Err(Error::OutOfRange), read_i32(&mut Reader::new(&[0x80, 0x80, 0x80, 0x80, 0x08])));
    let min = [0x80u8, 0x80, 0x80, 0x80, 0x80, 0x80, 0x80, 0x80, 0x80, 0x7F];
    assert_eq!(Ok(i64::MIN), read_i64(&mut Reader::new(&min)));
    let max = [0xFFu8, 0xFF, 0xFF, 0xFF, 0xFF, 0xFF, 0xFF, 0xFF, 0xFF, 0x00];
    assert_eq!(Ok(i64::MAX), read_i64(&mut Reader::new(&max)));
    let too_long = [0xFFu8, 0xFF, 0xFF, 0xFF, 0xFF, 0xFF, 0xFF, 0xFF, 0xFF, 0x02];
    assert_eq!(Err(Error::Overflow), read_i64(&mut Reader::new(&too_long)));
    assert_eq!(Err(Error::Overflow), read_u32(&mut Reader::new(&too_long)));
    // a number that does not end
    assert_eq!(Err(Error::UnexpectedEnd), read_u32(&mut Reader::new(&[0x80, 0x80])));
}

#[test]
fn vectors_and_names_are_read() {
    let bytes = [0x03u8, 0x7F, 0x7E, 0x70, 0x02, 0x68, 0x69, 0x02, 0x7F];
    let mut reader = Reader::new(&bytes);
    assert_eq!(
        Ok(vec![ValType::Num(NumType::I32), ValType::Num(NumType::I64), ValType::Ref(leshy::webasm::ast::RefType::Func)]),
        read_vector::<ValType>(&mut reader)
    );
    assert_eq!(Ok(String::from("hi")), read_string(&mut reader));
    assert_eq!(Err(Error::UnexpectedEnd), read_vector::<ValType>(&mut reader));
    assert_eq!(Ok(Vec::<u8>::new()), read_vector::<u8>(&mut Reader::new(&[0x00])));
    assert_eq!(
        Ok(Instruction::I64Const(-2)),
        Instruction::read_non_blocked(&mut Reader::new(&[0x7E]), 0x42)
    );
    assert_eq!(Ok(Instruction::Nop), Instruction::read_non_blocked(&mut Reader::new(&[]), 0x01));
    assert_eq!(Ok(TypeIdx(300)), <TypeIdx as leshy::webasm::parser::common::Readable>::read(&mut Reader::new(&[0xAC, 0x02])));
    assert_eq!(Ok(LocalIdx(1)), LocalIdx::read(&mut Reader::new(&[0x01])));
    assert_eq!(Ok(FuncIdx(2)), FuncIdx::read(&mut Reader::new(&[0x02])));
}

#[test]
fn exported_functions_are_found_by_name() {
    let bytes = fib_module();
    let module = Module::read(&mut Reader::new(&bytes)).unwrap();
    let source = Rc::new(Source { uuid: 0, name: String::from("fib"), module });
    assert!(WebAsmNode::exported_func(source.clone(), "fib").is_some());
    assert!(WebAsmNode::exported_func(source.clone(), "fi").is_none());
    assert!(WebAsmNode::exported_func(source, "fact").is_none());
}

#[test]
fn entering_a_function_leads_to_its_first_instruction() {
    let entry = fib_node();
    let first = match entry.get() {
        NodeKind::Command { command: Command::Noop, next } => next,
        other => panic!("{:?}", other),
    };
    // local.get 0 copies the parameter above the four bytes in use
    match first.get() {
        NodeKind::Command { command, .. } => {
            assert_eq!(Command::Copy { dst: Ref::Stack(4), size: 4, op: Ref::Stack(0) }, command)
        }
        other => panic!("{:?}", other),
    }
}

#[test]
fn fibonacci_of_ten() {
    assert_eq!(55, run_fib(|stack| eval(fib_node(), stack), 10));
    assert_eq!(
        55,
        run_fib(|stack| Driver::new(InterpreterEngine::new(false)).eval(fib_node(), stack), 10)
    );
    assert_eq!(
        55,
        run_fib(|stack| Driver::new(SpecializedInterpreterEngine::new()).eval(fib_node(), stack), 10)
    );
    assert_eq!(55, run_fib(|stack| Interpreter::new().eval(fib_node(), stack), 10));
}

#[test]
fn fibonacci_of_twenty_five_on_every_engine() {
    let expected = run_fib(|stack| eval(fib_node(), stack), 25);
    assert_eq!(75025, expected);
    assert_eq!(
        expected,
        run_fib(|stack| Driver::new(InterpreterEngine::new(false)).eval(fib_node(), stack), 25)
    );
    assert_eq!(
        expected,
        run_fib(|stack| Driver::new(SpecializedInterpreterEngine::new()).eval(fib_node(), stack), 25)
    );
}

#[test]
fn an_interpreter_keeps_what_it_has_learnt() {
    let mut interpreter = Interpreter::new();
    assert_eq!(8, run_fib(|stack| interpreter.eval(fib_node(), stack), 6));
    assert_eq!(13, run_fib(|stack| interpreter.eval(fib_node(), stack), 7));
    assert_eq!(8, run_fib(|stack| interpreter.eval(fib_node(), stack), 6));
}

#[test]
fn fib_tests_test_node_creation() {
    let nodes = traverse_node(fib_node());
    assert!(nodes.contains(&fib_node()));
    // 1 entry, 24 instructions of which some are reached with one height
    // only, and the nodes between them
    assert!(nodes.len() > 24);
    let again = traverse_node(fib_node());
    assert_eq!(nodes, again);
}

#[test]
fn fib_tests_test_node_pretty_print() {
    let lines = pretty_lines(fib_node());
    assert_eq!(1, lines[0].number);
    assert_eq!(0, lines[0].indent);
    assert_eq!(Content::Command(Command::Noop), lines[0].content);
    for (at, line) in lines.iter().enumerate() {
        assert_eq!(at as u32 + 1, line.number);
    }
    // the function calls itself: the callee is printed as a reference to
    // the first line
    assert!(lines.iter().any(|line| line.content == Content::Seen(1) && line.indent > 0));
    assert!(lines.iter().any(|line| line.content == Content::Else));
    assert!(lines.iter().any(|line| line.content == Content::Final));
    let nodes = traverse_node(fib_node());
    let defined = lines
        .iter()
        .filter(|line| !matches!(line.content, Content::Seen(_) | Content::Else))
        .count();
    assert_eq!(nodes.len(), defined);
}

/// A cached node that can be asked for its kind: the cache is shared.
#[derive(Clone)]
struct Shared<'a> {
    cache: &'a std::cell::RefCell<Cache<WebAsmNode>>,
    node: CachedNode,
}

impl<'a> std::fmt::Debug for Shared<'a> {
    fn fmt(&self, f: &mut std::fmt::Formatter<'_>) -> std::fmt::Result {
        std::fmt::Debug::fmt(&self.node, f)
    }
}

impl<'a> PartialEq for Shared<'a> {
    fn eq(&self, other: &Self) -> bool {
        self.node == other.node
    }
}

impl<'a> Eq for Shared<'a> {}

impl<'a> std::hash::Hash for Shared<'a> {
    fn hash<H: std::hash::Hasher>(&self, state: &mut H) {
        std::hash::Hash::hash(&self.node, state)
    }
}

impl<'a> Shared<'a> {
    fn of(&self, node: CachedNode) -> Shared<'a> {
        Shared { cache: self.cache, node }
    }
}

impl<'a> Node for Shared<'a> {
    fn valid(&self) -> bool {
        unreachable!()
    }

    fn kind(&self) -> NodeKindView<Self> {
        unreachable!()
    }

    fn get(&self) -> NodeKind<Self> {
        let kind = self.cache.borrow_mut().kind(self.node);
        match kind {
            NodeKind::Command { command, next } => NodeKind::Command { command, next: self.of(next) },
            NodeKind::Branch { condition, if_true, if_false } => NodeKind::Branch {
                condition,
                if_true: self.of(if_true),
                if_false: self.of(if_false),
            },
            NodeKind::Call { offset, call, next } => {
                NodeKind::Call { offset, call: self.of(call), next: self.of(next) }
            }
            NodeKind::Final => NodeKind::Final,
        }
    }
}

fn run_fib_node<N: Node>(node: N, n: u32) -> u32 {
    run_fib(|stack| eval(node, stack), n)
}

// The module of these tests is written out above: no file holds it.

#[test]
fn fib_tests_test_cached_node_pretty_print() {
    let cache = std::cell::RefCell::new(Cache::new());
    let node = cache.borrow_mut().cache(fib_node());
    let lines = pretty_lines(Shared { cache: &cache, node });
    let plain = pretty_lines(fib_node());
    assert_eq!(plain, lines);
}

#[test]
fn fib_tests_test_node_eval() {
    assert_eq!(75025, run_fib_node(fib_node(), 25));
}

#[test]
fn fib_tests_test_cached_node_eval() {
    let cache = std::cell::RefCell::new(Cache::new());
    let node = cache.borrow_mut().cache(fib_node());
    assert_eq!(75025, run_fib_node(Shared { cache: &cache, node }, 25));
}

#[test]
fn test_specialized_interpreter_eval() {
    let mut interpreter = Driver::new(SpecializedInterpreterEngine::new());
    assert_eq!(832040, run_fib(|stack| interpreter.eval(fib_node(), stack), 30));
}

#[test]
fn test_caching_interpreter_eval() {
    assert_eq!(
        832040,
        run_fib(|stack| Driver::new(InterpreterEngine::new(false)).eval(fib_node(), stack), 30)
    );
}

#[test]
fn long_numbers_in_leb128() {
    // ten bytes that end in 1 are a number of 64 bits, which is no index
    let largest = [0xFFu8, 0xFF, 0xFF, 0xFF, 0xFF, 0xFF, 0xFF, 0xFF, 0xFF, 0x01];
    assert_eq!(Err(Error::OutOfRange), read_u32(&mut Reader::new(&largest)));
    let high_bit = [0x80u8, 0x80, 0x80, 0x80, 0x80, 0x80, 0x80, 0x80, 0x80, 0x01];
    assert_eq!(Err(Error::OutOfRange), read_u32(&mut Reader::new(&high_bit)));
    // ten bytes of zero digits are zero, and the position is after them
    let zero = [0x80u8, 0x80, 0x80, 0x80, 0x80, 0x80, 0x80, 0x80, 0x80, 0x00, 0x07];
    let mut reader = Reader::new(&zero);
    assert_eq!(Ok(0), read_u32(&mut reader));
    assert_eq!(10, reader.stream_position());
    let mut reader = Reader::new(&zero);
    assert_eq!(Ok(0), read_i64(&mut reader));
    assert_eq!(10, reader.stream_position());
    // more than ten bytes overflow where the number ends, and end the bytes where it does not
    let long = [0xFFu8, 0xFF, 0xFF, 0xFF, 0xFF, 0xFF, 0xFF, 0xFF, 0xFF, 0xFF, 0xFF, 0x00];
    assert_eq!(Err(Error::Overflow), read_u32(&mut Reader::new(&long)));
    assert_eq!(Err(Error::Overflow), read_i64(&mut Reader::new(&long)));
    assert_eq!(Err(Error::UnexpectedEnd), read_u32(&mut Reader::new(&long[0..11])));
    assert_eq!(Err(Error::UnexpectedEnd), read_i64(&mut Reader::new(&long[0..11])));
    // signed numbers of ten bytes end in 0 or 127
    let minus_one = [0xFFu8, 0xFF, 0xFF, 0xFF, 0xFF, 0xFF, 0xFF, 0xFF, 0xFF, 0x7F];
    assert_eq!(Ok(-1), read_i64(&mut Reader::new(&minus_one)));
    assert_eq!(Ok(-1), read_i32(&mut Reader::new(&minus_one)));
    assert_eq!(Err(Error::Overflow), read_i64(&mut Reader::new(&largest)));
    // nine bytes carry 63 bits
    let nine = [0x80u8, 0x80, 0x80, 0x80, 0x80, 0x80, 0x80, 0x80, 0x40];
    assert_eq!(Ok(-(1i64 << 62)), read_i64(&mut Reader::new(&nine)));
    let nine = [0xFFu8, 0xFF, 0xFF, 0xFF, 0xFF, 0xFF, 0xFF, 0xFF, 0x3F];
    assert_eq!(Ok((1i64 << 62) - 1), read_i64(&mut Reader::new(&nine)));
    assert_eq!(Ok(-128), read_i64(&mut Reader::new(&[0x80, 0x7F])));
    assert_eq!(Ok(128), read_i64(&mut Reader::new(&[0x80, 0x01])));
    assert_eq!(Ok(-2), read_i32(&mut Reader::new(&[0xFE, 0xFF, 0x7F])));
}
