use leshy::vm::api::{Command, Condition, Node, NodeKind, NodeKindView, Ref};
use leshy::vm::aux::specialized_interpreter_engine::SpecializedInterpreterEngine;
use leshy::vm::driver::driver::{Driver, Engine, Kinds, NodeId, RunState};
use leshy::vm::driver::interpreter_engine::InterpreterEngine;
use leshy::vm::interpreter::eval;
use std::ops::Deref;

#[derive(Clone, Debug, PartialEq, Eq, Hash)]
struct TestNode(Box<NodeKind<TestNode>>);

fn node(kind: NodeKind<TestNode>) -> TestNode {
    TestNode(Box::new(kind))
}

impl Node for TestNode {
    fn valid(&self) -> bool {
        unreachable!()
    }

    fn kind(&self) -> NodeKindView<Self> {
        unreachable!()
    }

    fn get(&self) -> NodeKind<Self> {
        self.0.deref().clone()
    }
}

struct EngineBox(Box<dyn Engine>);

impl Engine for EngineBox {
    fn well_formed(&self) -> bool {
        unreachable!()
    }

    fn kinds(&self) -> Kinds {
        unreachable!()
    }

    fn register(&mut self, id: NodeId, kind: NodeKind<NodeId>) {
        self.0.register(id, kind)
    }

    fn run(&self, state: &mut RunState, stack: &mut [u8]) -> bool {
        self.0.run(state, stack)
    }
}

fn engines() -> Vec<(&'static str, EngineBox)> {
    vec![
        ("interpreter", EngineBox(Box::new(InterpreterEngine::new(false)))),
        ("specialized", EngineBox(Box::new(SpecializedInterpreterEngine::new()))),
    ]
}

const TEST_STACK_SIZE: usize = 24;

fn test_node(input: Vec<u8>, node: TestNode) -> [u8; TEST_STACK_SIZE] {
    let mut expected = [0u8; TEST_STACK_SIZE];
    expected[0..input.len()].copy_from_slice(input.as_slice());
    eval(node.clone(), &mut expected);

    for (name, engine) in engines() {
        let mut actual = [0u8; TEST_STACK_SIZE];
        actual[0..input.len()].copy_from_slice(input.as_slice());
        Driver::<TestNode, EngineBox>::new(engine).eval(node.clone(), &mut actual);
        assert_eq!(
            expected, actual,
            "\"{}\" output differs from expected for {:?} on {:?}",
            name, node, input
        );
    }
    expected
}

fn test_command(input: Vec<u8>, command: Command) -> [u8; TEST_STACK_SIZE] {
    test_node(input, node(NodeKind::Command { command, next: node(NodeKind::Final) }))
}

fn test_condition(input: Vec<u8>, condition: Condition) -> [u8; TEST_STACK_SIZE] {
    test_node(
        input,
        node(NodeKind::Branch {
            condition,
            if_true: write_node(vec![2, 2, 2, 2]),
            if_false: write_node(vec![3, 3, 3, 3]),
        }),
    )
}

fn write_node(bytes: Vec<u8>) -> TestNode {
    let command = Command::SetBytes { dst: Ref::Stack(0), bytes };
    node(NodeKind::Command { command, next: node(NodeKind::Final) })
}

#[test]
fn test_final() {
    test_node(vec![1, 2, 3, 4], node(NodeKind::Final));
}

#[test]
fn test_noop() {
    test_command(vec![7, 7, 7, 7], Command::Noop);
}

#[test]
fn test_set() {
    test_command(vec![7, 7, 7, 7], Command::SetBytes { dst: Ref::Stack(0), bytes: vec![1, 0, 0, 0] });
    test_command(vec![7, 7, 7, 7], Command::SetBytes { dst: Ref::Stack(0), bytes: vec![1, 2, 3, 4] });
    test_command(
        vec![7, 7, 7, 7, 7, 7, 7, 7],
        Command::SetBytes { dst: Ref::Stack(0), bytes: vec![1, 2, 3, 4, 5, 6, 7, 8] },
    );
}

#[test]
fn test_copy() {
    test_command(vec![1, 2, 3, 4], Command::Copy { size: 4, dst: Ref::Stack(4), op: Ref::Stack(0) });
    test_command(
        vec![1, 2, 3, 4, 5, 6, 7, 8],
        Command::Copy { size: 8, dst: Ref::Stack(8), op: Ref::Stack(0) },
    );
}

#[test]
fn test_poison_from() {
    test_command(vec![1, 2, 3, 4], Command::PoisonFrom { dst: Ref::Stack(0) });
}

#[test]
fn test_add() {
    test_command(
        vec![1, 2, 3, 4, 5, 6, 7, 8],
        Command::Add { size: 4, dst: Ref::Stack(8), op1: Ref::Stack(0), op2: Ref::Stack(4) },
    );
    test_command(
        vec![1, 2, 3, 4, 5, 6, 7, 8, 9, 10, 11, 12, 13, 14, 15, 16],
        Command::Add { size: 8, dst: Ref::Stack(16), op1: Ref::Stack(0), op2: Ref::Stack(8) },
    );
}

#[test]
fn test_sub() {
    test_command(
        vec![1, 2, 3, 4, 5, 6, 7, 8],
        Command::Sub { size: 4, dst: Ref::Stack(8), op1: Ref::Stack(0), op2: Ref::Stack(4) },
    );
}

#[test]
fn test_eq() {
    let condition = Condition::Ne { size: 4, op1: Ref::Stack(0), op2: Ref::Stack(4) };
    test_condition(vec![1, 2, 3, 4, 1, 2, 3, 4], condition.clone());
    test_condition(vec![1, 2, 3, 4, 5, 6, 7, 8], condition.clone());
}

#[test]
fn test_ne0() {
    let condition = Condition::Ne0 { size: 4, op: Ref::Stack(0) };
    test_condition(vec![1, 2, 3, 4], condition.clone());
    test_condition(vec![0, 0, 0, 0], condition.clone());
}

#[test]
fn test_call() {
    test_node(
        vec![],
        node(NodeKind::Call {
            offset: 4,
            call: write_node(vec![1, 2, 3, 4]),
            next: write_node(vec![5, 6, 7, 8]),
        }),
    );
}

#[test]
fn set_then_terminate() {
    let out =
        test_command(vec![7, 7, 7, 7], Command::SetBytes { dst: Ref::Stack(0), bytes: vec![1, 0, 0, 0] });
    assert_eq!([1, 0, 0, 0], out[0..4]);
}

#[test]
fn copy_eight_bytes() {
    let out = test_command(
        vec![1, 2, 3, 4, 5, 6, 7, 8, 0, 0, 0, 0, 0, 0, 0, 0],
        Command::Copy { size: 8, dst: Ref::Stack(8), op: Ref::Stack(0) },
    );
    assert_eq!([1, 2, 3, 4, 5, 6, 7, 8], out[8..16]);
    assert_eq!([1, 2, 3, 4, 5, 6, 7, 8], out[0..8]);
}

#[test]
fn add_32_bit() {
    let out = test_command(
        vec![1, 0, 0, 0, 2, 0, 0, 0, 0, 0, 0, 0],
        Command::Add { size: 4, dst: Ref::Stack(8), op1: Ref::Stack(0), op2: Ref::Stack(4) },
    );
    assert_eq!([3, 0, 0, 0], out[8..12]);
}

#[test]
fn add_wraps_around() {
    let out = test_command(
        vec![255, 255, 255, 255, 2, 0, 0, 0, 9, 9, 9, 9],
        Command::Add { size: 4, dst: Ref::Stack(8), op1: Ref::Stack(0), op2: Ref::Stack(4) },
    );
    assert_eq!([1, 0, 0, 0], out[8..12]);
}

#[test]
fn sub_wraps_around() {
    let out = test_command(
        vec![1, 0, 0, 0, 2, 0, 0, 0, 9, 9, 9, 9],
        Command::Sub { size: 4, dst: Ref::Stack(8), op1: Ref::Stack(0), op2: Ref::Stack(4) },
    );
    assert_eq!([255, 255, 255, 255], out[8..12]);
}

#[test]
fn sub_64_bit() {
    let out = test_command(
        vec![0, 0, 0, 0, 1, 0, 0, 0, 1, 0, 0, 0, 0, 0, 0, 0],
        Command::Sub { size: 8, dst: Ref::Stack(16), op1: Ref::Stack(0), op2: Ref::Stack(8) },
    );
    assert_eq!([255, 255, 255, 255, 0, 0, 0, 0], out[16..24]);
}

#[test]
fn branch_on_inequality() {
    let condition = Condition::Ne { size: 4, op1: Ref::Stack(0), op2: Ref::Stack(4) };
    let out = test_condition(vec![1, 2, 3, 4, 1, 2, 3, 4], condition.clone());
    assert_eq!([3, 3, 3, 3, 1, 2, 3, 4], out[0..8]);
    let out = test_condition(vec![1, 2, 3, 4, 5, 6, 7, 8], condition);
    assert_eq!([2, 2, 2, 2, 5, 6, 7, 8], out[0..8]);
}

#[test]
fn branch_on_nonzero() {
    let condition = Condition::Ne0 { size: 4, op: Ref::Stack(0) };
    let out = test_condition(vec![0, 0, 1, 0], condition.clone());
    assert_eq!([2, 2, 2, 2], out[0..4]);
    let out = test_condition(vec![0, 0, 0, 0], condition);
    assert_eq!([3, 3, 3, 3], out[0..4]);
}

#[test]
fn call_with_offset() {
    let out = test_node(
        vec![0, 0, 0, 0, 0, 0, 0, 0],
        node(NodeKind::Call {
            offset: 4,
            call: write_node(vec![1, 2, 3, 4]),
            next: write_node(vec![5, 6, 7, 8]),
        }),
    );
    assert_eq!([5, 6, 7, 8, 1, 2, 3, 4], out[0..8]);
}

#[test]
fn call_keeps_the_callers_bytes() {
    let callee = node(NodeKind::Command {
        command: Command::Add { size: 4, dst: Ref::Stack(0), op1: Ref::Stack(0), op2: Ref::Stack(4) },
        next: node(NodeKind::Final),
    });
    let out = test_node(
        vec![9, 8, 7, 6, 5, 4, 1, 0, 0, 0, 2, 0, 0, 0],
        node(NodeKind::Call { offset: 6, call: callee, next: node(NodeKind::Final) }),
    );
    assert_eq!([9, 8, 7, 6, 5, 4], out[0..6]);
    assert_eq!([3, 0, 0, 0, 2, 0, 0, 0], out[6..14]);
}

#[test]
fn nested_calls_add_their_offsets() {
    let inner = node(NodeKind::Call {
        offset: 3,
        call: write_node(vec![1, 1, 1, 1]),
        next: write_node(vec![2, 2]),
    });
    let out = test_node(
        vec![],
        node(NodeKind::Call { offset: 5, call: inner, next: write_node(vec![7]) }),
    );
    assert_eq!([7, 0, 0, 0, 0, 2, 2, 0, 1, 1, 1, 1, 0], out[0..13]);
}

#[test]
fn skipped_commands_change_nothing() {
    let plain = write_node(vec![4, 3, 2, 1]);
    let stuffed = node(NodeKind::Command {
        command: Command::Noop,
        next: node(NodeKind::Command {
            command: Command::PoisonFrom { dst: Ref::Stack(2) },
            next: node(NodeKind::Command {
                command: Command::SetBytes { dst: Ref::Stack(0), bytes: vec![4, 3, 2, 1] },
                next: node(NodeKind::Command {
                    command: Command::PoisonFrom { dst: Ref::Stack(4) },
                    next: node(NodeKind::Command { command: Command::Noop, next: node(NodeKind::Final) }),
                }),
            }),
        }),
    });
    let input = vec![9, 9, 9, 9, 9, 9];
    assert_eq!(test_node(input.clone(), plain), test_node(input, stuffed));
}

#[test]
fn evaluation_is_repeatable() {
    let program = node(NodeKind::Branch {
        condition: Condition::Ne0 { size: 4, op: Ref::Stack(0) },
        if_true: node(NodeKind::Command {
            command: Command::Sub { size: 4, dst: Ref::Stack(4), op1: Ref::Stack(4), op2: Ref::Stack(0) },
            next: node(NodeKind::Final),
        }),
        if_false: write_node(vec![1, 1, 1, 1]),
    });
    let mut driver = Driver::<TestNode, EngineBox>::new(EngineBox(Box::new(
        SpecializedInterpreterEngine::new(),
    )));
    let mut first = [3u8, 0, 0, 0, 10, 0, 0, 0];
    driver.eval(program.clone(), &mut first);
    let mut second = [3u8, 0, 0, 0, 10, 0, 0, 0];
    driver.eval(program.clone(), &mut second);
    assert_eq!([3, 0, 0, 0, 7, 0, 0, 0], first);
    assert_eq!(first, second);
}

/// A node of a program that is kept in a table: the node is its position.
#[derive(Clone, Debug)]
struct TableNode {
    program: std::rc::Rc<Vec<NodeKind<usize>>>,
    at: usize,
}

impl PartialEq for TableNode {
    fn eq(&self, other: &Self) -> bool {
        self.at == other.at
    }
}

impl Eq for TableNode {}

impl std::hash::Hash for TableNode {
    fn hash<H: std::hash::Hasher>(&self, state: &mut H) {
        state.write_usize(self.at)
    }
}

impl TableNode {
    fn at(&self, at: usize) -> TableNode {
        TableNode { program: self.program.clone(), at }
    }
}

impl Node for TableNode {
    fn valid(&self) -> bool {
        unreachable!()
    }

    fn kind(&self) -> NodeKindView<Self> {
        unreachable!()
    }

    fn get(&self) -> NodeKind<Self> {
        match &self.program[self.at] {
            NodeKind::Command { command, next } => {
                NodeKind::Command { command: command.clone(), next: self.at(*next) }
            }
            NodeKind::Branch { condition, if_true, if_false } => NodeKind::Branch {
                condition: condition.clone(),
                if_true: self.at(*if_true),
                if_false: self.at(*if_false),
            },
            NodeKind::Call { offset, call, next } => {
                NodeKind::Call { offset: *offset, call: self.at(*call), next: self.at(*next) }
            }
            NodeKind::Final => NodeKind::Final,
        }
    }
}

fn table_engines() -> Vec<EngineBox> {
    vec![
        EngineBox(Box::new(InterpreterEngine::new(false))),
        EngineBox(Box::new(SpecializedInterpreterEngine::new())),
    ]
}

#[test]
fn far_successors_and_wide_words_are_kept_in_full() {
    // Node 0 counts down the word at 0 by the word at 4 and loops through a
    // node that lies 40000 identifiers away once the driver has seen the
    // chain of skipped and 8-byte commands in between.
    let mut program: Vec<NodeKind<usize>> = Vec::new();
    program.push(NodeKind::Branch {
        condition: Condition::Ne0 { size: 4, op: Ref::Stack(0) },
        if_true: 1,
        if_false: 3,
    });
    program.push(NodeKind::Command {
        command: Command::Sub { size: 4, dst: Ref::Stack(0), op1: Ref::Stack(0), op2: Ref::Stack(4) },
        next: 2,
    });
    program.push(NodeKind::Command {
        command: Command::Add { size: 8, dst: Ref::Stack(8), op1: Ref::Stack(8), op2: Ref::Stack(16) },
        next: 4,
    });
    program.push(NodeKind::Final);
    for at in 4..40000usize {
        program.push(NodeKind::Command {
            command: Command::SetBytes { dst: Ref::Stack(300), bytes: vec![(at % 251) as u8, 1, 2, 3] },
            next: at + 1,
        });
    }
    program.push(NodeKind::Command {
        command: Command::Copy { size: 4, dst: Ref::Stack(24), op: Ref::Stack(300) },
        next: 0,
    });
    let root = TableNode { program: std::rc::Rc::new(program), at: 0 };

    let mut input = [0u8; 512];
    input[0] = 3;
    input[4] = 1;
    input[8] = 255;
    input[9] = 255;
    input[10] = 255;
    input[11] = 255;
    input[16] = 2;
    let mut expected = input;
    eval(root.clone(), &mut expected);
    assert_eq!([0, 0, 0, 0, 1, 0, 0, 0], expected[0..8]);
    assert_eq!([5, 0, 0, 0, 1, 0, 0, 0], expected[8..16]);
    assert_eq!([(39999 % 251) as u8, 1, 2, 3], expected[24..28]);
    for engine in table_engines() {
        let mut actual = input;
        Driver::<TableNode, EngineBox>::new(engine).eval(root.clone(), &mut actual);
        assert_eq!(expected, actual);
    }
}
