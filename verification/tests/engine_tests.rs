use leshy::vm::api::{Command, Condition, Node, NodeKind, NodeKindView, Ref};
use leshy::vm::aux::specialized_interpreter_engine::SpecializedInterpreterEngine;
use leshy::vm::cached_node::Cache;
use std::fmt::Debug;
use leshy::vm::driver::aarch64_utils::{b, bne, OutOfRange};
use leshy::vm::driver::code_generator_engine::{resume, CodeLinker, Link, ReturnInfo, SuspendTrace};
use leshy::vm::driver::driver::{Frame, IdTable, NodeId, RunState};
use leshy::vm::driver::interpreter_engine::InterpreterEngine;
use leshy::vm::interpreter::{eval_command, eval_condition, get_final_kind, get_u64, put_u64};
use leshy::vm::utils::{pretty_lines, traverse_node, Content, Line};

#[derive(Clone, Debug, PartialEq, Eq, Hash)]
struct Numbered(u32);

/// 0 -> 1 -> 2 -> 0 with a branch from 1 to 3, which is final; 4 and 5 are
/// skipped commands in front of 1.
impl Node for Numbered {
    fn valid(&self) -> bool {
        unreachable!()
    }

    fn kind(&self) -> NodeKindView<Self> {
        unreachable!()
    }

    fn get(&self) -> NodeKind<Self> {
        match self.0 {
            0 => NodeKind::Command {
                command: Command::SetBytes { dst: Ref::Stack(0), bytes: vec![1] },
                next: Numbered(1),
            },
            1 => NodeKind::Branch {
                condition: Condition::Ne0 { size: 4, op: Ref::Stack(0) },
                if_true: Numbered(2),
                if_false: Numbered(3),
            },
            2 => NodeKind::Call { offset: 2, call: Numbered(3), next: Numbered(0) },
            3 => NodeKind::Final,
            4 => NodeKind::Command { command: Command::Noop, next: Numbered(5) },
            _ => NodeKind::Command {
                command: Command::PoisonFrom { dst: Ref::Stack(0) },
                next: Numbered(1),
            },
        }
    }
}

#[test]
fn next_identifier() {
    assert_eq!(NodeId(8), NodeId(7).next());
}

#[test]
fn identifiers_are_given_in_order_and_once() {
    let mut table: IdTable<Numbered> = IdTable::new();
    assert_eq!(NodeId(0), table.intern(Numbered(7)));
    assert_eq!(NodeId(1), table.intern(Numbered(3)));
    assert_eq!(NodeId(0), table.intern(Numbered(7)));
    assert_eq!(NodeId(2), table.intern(Numbered(9)));
    assert_eq!(3, table.len());
    assert_eq!(&Numbered(3), table.node_of(NodeId(1)));
    assert_eq!(&Numbered(9), table.node_of(NodeId(2)));
}

#[test]
fn final_kind_skips_leading_commands() {
    let folded = get_final_kind(&Numbered(4));
    assert_eq!(Numbered(1).get(), folded);
    assert_eq!(Numbered(0).get(), get_final_kind(&Numbered(0)));
    assert_eq!(NodeKind::Final, get_final_kind(&Numbered(3)));
}

#[test]
fn commands_on_a_frame() {
    let mut stack = [1u8, 2, 3, 4, 5, 6, 7, 8, 9, 10, 11, 12, 13, 14, 15, 16];
    eval_command(&Command::Copy { dst: Ref::Stack(2), size: 4, op: Ref::Stack(0) }, &mut stack);
    assert_eq!([1, 2, 1, 2, 3, 4, 7, 8], stack[0..8]);
    eval_command(&Command::SetBytes { dst: Ref::Stack(13), bytes: vec![0, 0, 0] }, &mut stack);
    assert_eq!([13, 0, 0, 0], stack[12..16]);
    eval_command(&Command::SetBytes { dst: Ref::Stack(16), bytes: vec![] }, &mut stack);
    eval_command(&Command::PoisonFrom { dst: Ref::Stack(0) }, &mut stack);
    assert_eq!([1, 2, 1, 2], stack[0..4]);
    put_u64(Ref::Stack(8), &mut stack, 0x0102030405060708);
    assert_eq!([8, 7, 6, 5, 4, 3, 2, 1], stack[8..16]);
    assert_eq!(0x0102030405060708, get_u64(Ref::Stack(8), &stack));
    assert!(eval_condition(
        &Condition::Ne { size: 4, op1: Ref::Stack(0), op2: Ref::Stack(1) },
        &mut stack
    ));
    assert!(!eval_condition(
        &Condition::Ne { size: 4, op1: Ref::Stack(0), op2: Ref::Stack(0) },
        &mut stack
    ));
}

#[test]
fn an_engine_stops_at_a_node_that_it_does_not_know() {
    let mut engine = InterpreterEngine::new(false);
    let mut specialized = SpecializedInterpreterEngine::new();
    let kinds = vec![
        (NodeId(0), NodeKind::Call { offset: 3, call: NodeId(1), next: NodeId(70000) }),
        (
            NodeId(1),
            NodeKind::Command {
                command: Command::SetBytes { dst: Ref::Stack(1), bytes: vec![9, 9, 9, 9] },
                next: NodeId(2),
            },
        ),
        (NodeId(2), NodeKind::Final),
    ];
    for (id, kind) in kinds {
        leshy::vm::driver::driver::Engine::register(&mut engine, id, kind.clone());
        specialized.register(id, kind);
    }
    let mut state = RunState { frames: vec![Frame { id: NodeId(0), offset: 2 }] };
    let mut stack = [0u8; 12];
    assert!(leshy::vm::driver::driver::Engine::run(&engine, &mut state, &mut stack));
    assert_eq!(1, state.frames.len());
    assert_eq!(NodeId(70000), state.frames[0].id);
    assert_eq!(2, state.frames[0].offset);
    assert_eq!(2, state.offset());
    assert_eq!([0, 0, 0, 0, 0, 0, 9, 9, 9, 9, 0, 0], stack);

    let mut other_state = RunState { frames: vec![Frame { id: NodeId(0), offset: 2 }] };
    let mut other_stack = [0u8; 12];
    assert!(specialized.run(&mut other_state, &mut other_stack));
    assert_eq!(stack, other_stack);
    assert_eq!(1, other_state.frames.len());
    assert_eq!(NodeId(70000), other_state.frames[0].id);

    // a kind that was registered stays
    specialized.register(NodeId(2), NodeKind::Call { offset: 0, call: NodeId(2), next: NodeId(2) });
    leshy::vm::driver::driver::Engine::register(
        &mut engine,
        NodeId(2),
        NodeKind::Call { offset: 0, call: NodeId(2), next: NodeId(2) },
    );
    let mut state = RunState { frames: vec![Frame { id: NodeId(1), offset: 0 }] };
    assert!(!leshy::vm::driver::driver::Engine::run(&engine, &mut state, &mut stack));
    assert!(state.frames.is_empty());
    assert!(!engine.debug());
    assert_eq!(0, specialized.full_kinds().len() - 1);
    let mut state = RunState { frames: vec![Frame { id: NodeId(1), offset: 0 }] };
    assert!(!specialized.run(&mut state, &mut other_stack));
    assert!(state.frames.is_empty());
}

#[test]
fn a_cache_asks_once_and_answers_alike() {
    let mut cache: Cache<Numbered> = Cache::new();
    let root = cache.cache(Numbered(0));
    assert_eq!(root, cache.cache(Numbered(0)));
    let first = cache.kind(root);
    let second = cache.kind(root);
    assert_eq!(first, second);
    let next = match first {
        NodeKind::Command { command, next } => {
            assert_eq!(Command::SetBytes { dst: Ref::Stack(0), bytes: vec![1] }, command);
            next
        }
        other => panic!("{:?}", other),
    };
    assert_eq!(next, cache.cache(Numbered(1)));
    match cache.kind(next) {
        NodeKind::Branch { condition, if_true, if_false } => {
            assert_eq!(Condition::Ne0 { size: 4, op: Ref::Stack(0) }, condition);
            assert_eq!(if_true, cache.cache(Numbered(2)));
            assert_eq!(if_false, cache.cache(Numbered(3)));
            assert_eq!(NodeKind::Final, cache.kind(if_false));
            match cache.kind(if_true) {
                NodeKind::Call { offset, call, next } => {
                    assert_eq!(2, offset);
                    assert_eq!(if_false, call);
                    assert_eq!(root, next);
                }
                other => panic!("{:?}", other),
            }
        }
        other => panic!("{:?}", other),
    }
}

#[test]
fn a_graph_with_a_cycle_is_traversed() {
    let nodes = traverse_node(Numbered(4));
    assert_eq!(6, nodes.len());
    let nodes = traverse_node(Numbered(2));
    assert_eq!(4, nodes.len());
    assert!(!nodes.contains(&Numbered(4)));
    assert_eq!(1, traverse_node(Numbered(3)).len());
}

#[test]
fn a_graph_with_a_cycle_is_printed() {
    let lines = pretty_lines(Numbered(0));
    let expected = vec![
        Line {
            number: 1,
            indent: 0,
            content: Content::Command(Command::SetBytes { dst: Ref::Stack(0), bytes: vec![1] }),
        },
        Line {
            number: 2,
            indent: 0,
            content: Content::Condition(Condition::Ne0 { size: 4, op: Ref::Stack(0) }),
        },
        Line { number: 3, indent: 1, content: Content::Call(2) },
        Line { number: 4, indent: 2, content: Content::Final },
        Line { number: 5, indent: 1, content: Content::Seen(1) },
        Line { number: 6, indent: 0, content: Content::Else },
        Line { number: 7, indent: 1, content: Content::Seen(4) },
    ];
    assert_eq!(expected, lines);
}

#[test]
fn branches_are_encoded() {
    assert_eq!(Ok(vec![0x02, 0x00, 0x00, 0x14]), b(8));
    assert_eq!(Ok(vec![0x00, 0x00, 0x00, 0x14]), b(0));
    assert_eq!(Ok(vec![0xFF, 0xFF, 0xFF, 0x17]), b(-4));
    assert_eq!(Ok(vec![0xFF, 0xFF, 0xFF, 0x15]), b(0x800_0000 - 4));
    assert_eq!(Ok(vec![0x00, 0x00, 0x00, 0x16]), b(-0x800_0000));
    assert_eq!(Err(OutOfRange { distance: 0x800_0000 }), b(0x800_0000));
    assert_eq!(Err(OutOfRange { distance: 6 }), b(6));
    assert_eq!(Ok(vec![0x01, 0x01, 0x00, 0x54]), bne(32));
    assert_eq!(Ok(vec![0xE1, 0xFF, 0xFF, 0x54]), bne(-4));
    assert_eq!(Err(OutOfRange { distance: 0x10_0000 }), bne(0x10_0000));
    assert_eq!(
        Ok(vec![0x03, 0x00, 0x00, 0x14]),
        CodeLinker::replace_ret(ReturnInfo { id: NodeId(1), from: 28, to: 56 }, 40)
    );
}

#[test]
fn stubs_are_linked_once_their_node_is_generated() {
    let mut linker = CodeLinker::new();
    assert_eq!(None, linker.entry(NodeId(0)));
    // node 0 is a branch: its code ends in stubs for 2 and for 1
    assert_eq!(Some(0), linker.begin(NodeId(0)));
    let stubs = vec![
        ReturnInfo { id: NodeId(2), from: 16, to: 44 },
        ReturnInfo { id: NodeId(1), from: 44, to: 72 },
    ];
    assert!(linker.finish(NodeId(0), 0, 72, stubs).is_empty());
    assert_eq!(72, linker.offset());
    assert_eq!(Some(0), linker.entry(NodeId(0)));
    // registering it again changes nothing
    assert_eq!(None, linker.begin(NodeId(0)));
    assert_eq!(72, linker.offset());
    // node 1 is generated over the stub that waits for it at the end
    assert_eq!(Some(44), linker.begin(NodeId(1)));
    assert_eq!(44, linker.offset());
    // its code loops back to 0, and jumps to itself
    let stubs = vec![
        ReturnInfo { id: NodeId(0), from: 52, to: 80 },
        ReturnInfo { id: NodeId(1), from: 80, to: 108 },
        ReturnInfo { id: NodeId(2), from: 108, to: 136 },
    ];
    assert_eq!(
        vec![Link { from: 52, dest: 0 }, Link { from: 80, dest: 44 }],
        linker.finish(NodeId(1), 44, 136, stubs)
    );
    // node 2 is generated over the last stub; the first stub for it is linked
    assert_eq!(Some(108), linker.begin(NodeId(2)));
    assert_eq!(
        vec![Link { from: 16, dest: 108 }],
        linker.finish(NodeId(2), 108, 112, Vec::new())
    );
    assert_eq!(Some(108), linker.entry(NodeId(2)));
    assert_eq!(112, linker.offset());
    // nothing waits for 3
    linker.remove_last_return_if_needed(NodeId(3));
    assert_eq!(112, linker.offset());
}

#[test]
fn frames_are_resumed_from_a_trace() {
    let mut state = RunState { frames: vec![Frame { id: NodeId(9), offset: 1 }] };
    let trace = vec![
        SuspendTrace { offset: 0, id: NodeId(5) },
        SuspendTrace { offset: 4, id: NodeId(6) },
        SuspendTrace { offset: 8, id: NodeId(7) },
    ];
    assert!(resume(&mut state, 100, &trace));
    let frames: Vec<(u32, usize)> = state.frames.iter().map(|f| (f.id.0, f.offset)).collect();
    assert_eq!(vec![(9, 1), (7, 108), (6, 4), (5, 0)], frames);
    let mut done = RunState { frames: Vec::new() };
    assert!(!resume(&mut done, 3, &Vec::new()));
    assert!(done.frames.is_empty());
}

/// A cached node that can be asked for its kind: the cache is shared.
#[derive(Clone)]
struct Shared<'a> {
    cache: &'a std::cell::RefCell<Cache<Counting>>,
    node: leshy::vm::cached_node::CachedNode,
}

impl<'a> std::fmt::Debug for Shared<'a> {
    fn fmt(&self, f: &mut std::fmt::Formatter<'_>) -> std::fmt::Result {
        self.node.fmt(f)
    }
}

impl<'a> PartialEq for Shared<'a> {
    fn eq(&self, other: &Self) -> bool {
        self.node == other.node
    }
}

impl<'a> Eq for Shared<'a> {}

impl<'a> std::hash::Hash for Shared<'a> {
    fn hash<H: std::hash::Hasher>(&self, state: &mut H) {
        self.node.hash(state)
    }
}

impl<'a> Shared<'a> {
    fn of(&self, node: leshy::vm::cached_node::CachedNode) -> Shared<'a> {
        Shared { cache: self.cache, node }
    }
}

impl<'a> Node for Shared<'a> {
    fn valid(&self) -> bool {
        unreachable!()
    }

    fn kind(&self) -> NodeKindView<Self> {
        unreachable!()
    }

    fn get(&self) -> NodeKind<Self> {
        let kind = self.cache.borrow_mut().kind(self.node);
        match kind {
            NodeKind::Command { command, next } => NodeKind::Command { command, next: self.of(next) },
            NodeKind::Branch { condition, if_true, if_false } => NodeKind::Branch {
                condition,
                if_true: self.of(if_true),
                if_false: self.of(if_false),
            },
            NodeKind::Call { offset, call, next } => {
                NodeKind::Call { offset, call: self.of(call), next: self.of(next) }
            }
            NodeKind::Final => NodeKind::Final,
        }
    }
}

/// 10 counts the word at 0 down to zero and adds the word at 4 to the word
/// at 8 each time, through a call.
#[derive(Clone, Debug, PartialEq, Eq, Hash)]
struct Counting(u32);

impl Node for Counting {
    fn valid(&self) -> bool {
        unreachable!()
    }

    fn kind(&self) -> NodeKindView<Self> {
        unreachable!()
    }

    fn get(&self) -> NodeKind<Self> {
        match self.0 {
            10 => NodeKind::Branch {
                condition: Condition::Ne0 { size: 4, op: Ref::Stack(0) },
                if_true: Counting(11),
                if_false: Counting(14),
            },
            11 => NodeKind::Command {
                command: Command::Sub {
                    size: 4,
                    dst: Ref::Stack(0),
                    op1: Ref::Stack(0),
                    op2: Ref::Stack(12),
                },
                next: Counting(12),
            },
            12 => NodeKind::Call { offset: 4, call: Counting(13), next: Counting(10) },
            13 => NodeKind::Command {
                command: Command::Add {
                    size: 4,
                    dst: Ref::Stack(4),
                    op1: Ref::Stack(4),
                    op2: Ref::Stack(0),
                },
                next: Counting(14),
            },
            _ => NodeKind::Final,
        }
    }
}

#[test]
fn a_cache_changes_no_byte() {
    let input = [5u8, 0, 0, 0, 3, 0, 0, 0, 100, 0, 0, 0, 1, 0, 0, 0];
    let mut plain = input;
    leshy::vm::interpreter::eval(Counting(10), &mut plain);
    assert_eq!([0, 0, 0, 0, 3, 0, 0, 0, 115, 0, 0, 0, 1, 0, 0, 0], plain);

    let cache = std::cell::RefCell::new(Cache::new());
    let node = cache.borrow_mut().cache(Counting(10));
    let root = Shared { cache: &cache, node };
    let mut cached = input;
    leshy::vm::interpreter::eval(root.clone(), &mut cached);
    assert_eq!(plain, cached);
    assert_eq!(5, cache.borrow().len());

    let mut through_interpreter = input;
    leshy::vm::driver::driver::Driver::new(InterpreterEngine::new(true))
        .eval(root.clone(), &mut through_interpreter);
    assert_eq!(plain, through_interpreter);
    let mut through_specialized = input;
    leshy::vm::driver::driver::Driver::new(SpecializedInterpreterEngine::new())
        .eval(root, &mut through_specialized);
    assert_eq!(plain, through_specialized);
    assert_eq!(5, cache.borrow().len());
}
