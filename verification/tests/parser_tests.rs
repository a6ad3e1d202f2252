use leshy::indexed_data::build_index;
use leshy::lang::ast::{Address, Const, ConstOrAddress, Operation};
use leshy::lang::interpreter::run;
use leshy::lang::loader::HashMapLoader;
use leshy::lang::operations::{bytes_as_i32, bytes_from_i32};
use leshy::lang::parser::{parse_text, ParseError};
use leshy::lang::stack::Stack;

#[test]
fn test_parse() {
    let text = "def test
  init:
    check_size 4 ; comment
  ret:
    extend 4
";

    let funcs = parse_text("/example/path.lsh", text).unwrap();
    assert_eq!(1, funcs.len());
    assert_eq!("test", funcs[0].name);
    assert_eq!(
        vec![(String::from("init"), 0usize), (String::from("ret"), 1usize)],
        funcs[0].labels
    );
    assert_eq!(2, funcs[0].ops.len());
    match &funcs[0].ops[0] {
        (Operation::CheckSize { length: Const::Literal { bytes } }, source) => {
            assert_eq!(&bytes_from_i32(4), bytes);
            assert_eq!(2, source.line);
            assert_eq!("/example/path.lsh", source.file);
        }
        other => panic!("{:?}", other),
    }
    match &funcs[0].ops[1] {
        (Operation::Extend { length: Const::Literal { bytes } }, source) => {
            assert_eq!(&bytes_from_i32(4), bytes);
            assert_eq!(4, source.line);
        }
        other => panic!("{:?}", other),
    }
}

fn only_operation(line: &str) -> Operation {
    let text = format!("def f\n{}", line);
    let mut funcs = parse_text("t", &text).unwrap();
    assert_eq!(1, funcs.len());
    assert_eq!(1, funcs[0].ops.len());
    funcs.pop().unwrap().ops.pop().unwrap().0
}

fn shown(operation: &Operation) -> String {
    format!("{:?}", operation)
}

#[test]
fn every_operation_is_read() {
    let lit = |value: i32| Const::Literal { bytes: bytes_from_i32(value) };
    let sym = |name: &str| Const::Symbol { name: String::from(name) };
    let on_stack = |offset: i32| Const::Stack {
        from_offset: bytes_from_i32(offset),
        length: bytes_from_i32(4),
    };
    let cases: Vec<(&str, Operation)> = vec![
        ("extend 4", Operation::Extend { length: lit(4) }),
        ("shrink -8", Operation::Shrink { length: lit(-8) }),
        ("check_size +12", Operation::CheckSize { length: lit(12) }),
        ("jump :out", Operation::Jump { target: sym("out") }),
        ("call $0 :fib", Operation::Call { offset: on_stack(0), target: sym("fib") }),
        (
            "specialize 4 #0",
            Operation::Specialize { length: lit(4), dst: Address::Stack { address: lit(0) } },
        ),
        (
            "not_specialize 4 *$-8",
            Operation::NotSpecialize {
                length: lit(4),
                dst: Address::Native { stack_offset: on_stack(-8) },
            },
        ),
        (
            "set 4 7 #4",
            Operation::SetBytes {
                length: lit(4),
                src: ConstOrAddress::Left { value: lit(7) },
                dst: Address::Stack { address: lit(4) },
            },
        ),
        (
            "neg 4 #0 #4",
            Operation::Neg {
                length: lit(4),
                op: ConstOrAddress::Right { value: Address::Stack { address: lit(0) } },
                dst: Address::Stack { address: lit(4) },
            },
        ),
        (
            "add 4 #0 -1 #4",
            Operation::Add {
                length: lit(4),
                op1: ConstOrAddress::Right { value: Address::Stack { address: lit(0) } },
                op2: ConstOrAddress::Left { value: lit(-1) },
                dst: Address::Stack { address: lit(4) },
            },
        ),
        (
            "mult 8 $0 $8 #-8",
            Operation::Mult {
                length: lit(8),
                op1: ConstOrAddress::Left { value: on_stack(0) },
                op2: ConstOrAddress::Left { value: on_stack(8) },
                dst: Address::Stack { address: lit(-8) },
            },
        ),
        (
            "  branch :le 4 1 #0 :ret  ; done",
            Operation::Branch {
                modifier: sym("le"),
                length: lit(4),
                op1: ConstOrAddress::Left { value: lit(1) },
                op2: ConstOrAddress::Right { value: Address::Stack { address: lit(0) } },
                target: sym("ret"),
            },
        ),
        ("extend 2147483647", Operation::Extend { length: lit(i32::MAX) }),
        ("extend -2147483648", Operation::Extend { length: lit(i32::MIN) }),
        ("extend 007", Operation::Extend { length: lit(7) }),
    ];
    for (line, expected) in cases {
        assert_eq!(shown(&expected), shown(&only_operation(line)), "{}", line);
    }
}

#[test]
fn what_is_no_operation_is_rejected() {
    let bad = vec![
        "extend",
        "extend 4 4",
        "extend  4",
        "extends 4",
        "extend 2147483648",
        "extend -2147483649",
        "extend 4x",
        "extend -",
        "extend $",
        "extend $x",
        "set 4 7 4",
        "set 4 7 &4",
        "jump out extra",
        "branch :le 4 1 #0",
        "a b c d e f g",
    ];
    for line in bad {
        let text = format!("def f\n; nothing\n\n{}", line);
        assert_eq!(Err(ParseError { line: 3 }), parse_text("t", &text).map(|_| ()), "{}", line);
    }
}

#[test]
fn functions_begin_with_def() {
    let text = "; a comment before any function\nextend what\ndef one\nextend 1\nx:\ndef two ; with a comment\n";
    let funcs = parse_text("t", text).unwrap();
    // the lines before the first `def` are no function, whatever they hold
    assert_eq!(2, funcs.len());
    assert_eq!("one", funcs[0].name);
    assert_eq!(1, funcs[0].ops.len());
    assert_eq!(vec![(String::from("x"), 1usize)], funcs[0].labels);
    assert_eq!("two ; with a comment", funcs[1].name);
    assert!(funcs[1].ops.is_empty());
    assert_eq!(Ok(0), parse_text("t", "").map(|funcs| funcs.len()));
    assert_eq!(Ok(0), parse_text("t", "no function").map(|funcs| funcs.len()));
    assert_eq!(Ok(1), parse_text("t", "def f").map(|funcs| funcs.len()));
    assert_eq!(
        Err(ParseError { line: 1 }),
        parse_text("t", "def f\n  def inner\n").map(|_| ())
    );
}

#[test]
fn a_program_is_read_and_run() {
    let text = "def fib4
  check_size 4
  branch :le 4 1 #0 :ret ; n <= 1
  extend 8
  add 4 #0 -1 #4
  add 4 #0 -2 #8
  call 8 :fib4
  shrink 4
  call 4 :fib4
  extend 4
  add 4 #4 #8 #0
  shrink 8
ret:
def twice
  extend 4
  set 4 #0 #4
  add 4 #0 #4 #0
  jump :end
  set 4 0 #0
end:
  shrink 4
";
    let loader = HashMapLoader::new(parse_text("fib.lsh", text).unwrap());
    let mut stack = Stack::create();
    stack.push(&bytes_from_i32(10));
    run(&loader, "fib4", &mut stack);
    assert_eq!(Some(55), bytes_as_i32(stack.as_slice(0)));
    run(&loader, "twice", &mut stack);
    assert_eq!(Some(110), bytes_as_i32(stack.as_slice(0)));
    assert_eq!(4, stack.size());
}

#[test]
fn lines_are_indexed() {
    let index = build_index(b"// first line for test\n\nlast").unwrap();
    assert_eq!(3, index.len());
    assert_eq!("// first line for test", index.line(0));
    assert_eq!("", index.line(1));
    assert_eq!("last", index.line(2));
    assert_eq!(1, build_index(b"").unwrap().len());
    assert_eq!(2, build_index(b"\n").unwrap().len());
    assert!(build_index(&[0x61, 0xff, 0x0a]).is_none());
    assert_eq!("\u{e9}", build_index("a\n\u{e9}".as_bytes()).unwrap().line(1));
}
