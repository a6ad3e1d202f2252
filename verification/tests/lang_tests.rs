use leshy::example::native_impl::{ffact4, ffact8, fib4, fib8};
use leshy::lang::ast::Const;
use leshy::lang::common::Bytes;
use leshy::lang::operations;
use leshy::lang::operations::{
    bytes_as_base64, bytes_as_i32, bytes_as_i64, bytes_as_string, bytes_from_i32, bytes_from_i64,
    bytes_to_string,
};
use leshy::lang::stack::Stack;

#[test]
fn test_impls() {
    assert_eq!(21, fib4(8));
    assert_eq!(21, fib8(8));

    assert_eq!(7 * 5 * 3, ffact4(7));
    assert_eq!(8 * 6 * 4 * 2, ffact4(8));
    assert_eq!(7 * 5 * 3, ffact8(7));
    assert_eq!(8 * 6 * 4 * 2, ffact8(8));
}

#[test]
fn test_native() {
    println!("fib({}) = {}", 39, fib4(39));
}

#[test]
fn native_edges() {
    assert_eq!(0, fib4(0));
    assert_eq!(1, fib4(1));
    assert_eq!(832040, fib4(30));
    assert_eq!(832040, fib8(30));
    assert_eq!(0, ffact4(0));
    assert_eq!(1, ffact4(1));
    assert_eq!(2, ffact4(2));
    assert_eq!(3, ffact4(3));
    assert_eq!(2027025, ffact8(15));
}

#[test]
fn test_to_string() {
    assert_eq!(String::from("4"), Const::Literal { bytes: operations::bytes_from_i32(4) }.to_string());
    assert_eq!(String::from(":symbol"), Const::Symbol { name: String::from("symbol") }.to_string());
}

#[test]
fn stack_constant_to_string() {
    assert_eq!(
        String::from("${4, 16_L}"),
        Const::Stack { from_offset: bytes_from_i32(4), length: bytes_from_i64(16) }.to_string()
    );
}

#[test]
fn common_decode_encode_i32() {
    let bytes = Bytes::from_i32(4);
    assert_eq!(Some(4), bytes.as_i32());
    assert_eq!(None, bytes.as_i64());
    assert_eq!(None, bytes.as_string());
    assert_eq!(String::from("BAAAAA=="), bytes.as_base64());
}

#[test]
fn decode_encode_i64() {
    let bytes = Bytes::from_i64(16);
    assert_eq!(None, bytes.as_i32());
    assert_eq!(Some(16), bytes.as_i64());
    assert_eq!(None, bytes.as_string());
    assert_eq!(String::from("EAAAAAAAAAA="), bytes.as_base64());
}

#[test]
fn decode_encode_string() {
    let bytes = Bytes::from_string(String::from("hello"));
    assert_eq!(None, bytes.as_i32());
    assert_eq!(None, bytes.as_i64());
    assert_eq!(Some(String::from("hello")), bytes.as_string());
    assert_eq!(String::from("aGVsbG8="), bytes.as_base64());
}

#[test]
fn operations_decode_encode_i32() {
    let bytes = bytes_from_i32(4);
    assert_eq!(Some(4), bytes_as_i32(&bytes));
    assert_eq!(None, bytes_as_i64(&bytes));
    assert_eq!(None, bytes_as_string(&bytes));
    assert_eq!(String::from("BAAAAA=="), bytes_as_base64(&bytes));
}

#[test]
fn bytes_from_bytes() {
    let bytes = Bytes::from_bytes(vec![104, 105]);
    assert_eq!(Some(String::from("hi")), bytes.as_string());
    assert_eq!("hi", bytes.to_string());
    assert_eq!("7", Bytes::from_bytes(vec![7, 0, 0, 0]).to_string());
    assert_eq!("AQ==", Bytes::from_bytes(vec![1]).to_string());
}

#[test]
fn negative_numbers_round_trip() {
    assert_eq!(vec![255, 255, 255, 255], bytes_from_i32(-1));
    assert_eq!(vec![0, 0, 0, 128], bytes_from_i32(i32::MIN));
    assert_eq!(Some(-2), bytes_as_i32(&[254, 255, 255, 255]));
    assert_eq!(Some(i32::MIN), bytes_as_i32(&bytes_from_i32(i32::MIN)));
    assert_eq!(Some(i64::MIN), bytes_as_i64(&bytes_from_i64(i64::MIN)));
    assert_eq!(Some(-3), bytes_as_i64(&bytes_from_i64(-3)));
    assert_eq!(vec![1, 2, 3, 4, 5, 6, 7, 8], bytes_from_i64(0x0807060504030201));
}

#[test]
fn comparisons_are_signed() {
    let minus_one = bytes_from_i32(-1);
    let two = bytes_from_i32(2);
    assert!(operations::cmp_le(4, &minus_one, &two));
    assert!(!operations::cmp_le(4, &two, &two));
    assert!(operations::cmp_gt(4, &two, &minus_one));
    assert!(operations::cmp_eq(4, &two, &two));
    assert!(!operations::cmp_eq(4, &two, &minus_one));
}

#[test]
fn put_and_get() {
    let mut bytes = [9u8; 10];
    operations::put_i32(&mut bytes, -2);
    assert_eq!([254, 255, 255, 255, 9, 9, 9, 9, 9, 9], bytes);
    assert_eq!(Some(-2), operations::get_i32(&bytes));
    operations::put_i64(&mut bytes, 258);
    assert_eq!([2, 1, 0, 0, 0, 0, 0, 0, 9, 9], bytes);
    assert_eq!(Some(258), operations::get_i64(&bytes));
}

#[test]
fn bytes_to_string_picks_the_most_readable() {
    assert_eq!("ab 1", bytes_to_string(b"ab 1"));
    assert_eq!("-7", bytes_to_string(&bytes_from_i32(-7)));
    assert_eq!("5_L", bytes_to_string(&bytes_from_i64(5)));
    assert_eq!("AQI=", bytes_to_string(&[1, 2]));
    assert_eq!("", bytes_to_string(&[]));
    assert_eq!(None, bytes_as_string(&[0xc3, 0xa9]));
    assert_eq!(Some(String::from("a\tb\n")), bytes_as_string(b"a\tb\n"));
    assert_eq!(None, bytes_as_string(b"a-b"));
}

#[test]
fn stack_frames() {
    let mut stack = Stack::create();
    stack.push(&bytes_from_i32(8));
    assert_eq!(4, stack.size());
    assert_eq!(0, stack.offset());
    assert_eq!(&[8, 0, 0, 0], stack.as_slice(0));
    stack.extend(4);
    assert_eq!(8, stack.size());
    assert_eq!(&[0, 0, 0, 0], stack.as_slice(4));
    assert_eq!(6, stack.frame_offset(-2));
    assert_eq!(3, stack.frame_offset(3));
    stack.check_frame_size(8);
    stack.move_forward(4);
    assert_eq!(2, stack.frame_offset(-2));
    stack.push(&[1, 2]);
    assert_eq!(10, stack.size());
    stack.as_slice_mut(2)[0] = 7;
    stack.move_back(4);
    assert_eq!(&[8, 0, 0, 0, 1, 2, 7, 0, 0, 0], stack.as_slice(0));
    stack.shrink(6);
    assert_eq!(&[8, 0, 0, 0], stack.as_slice(0));
}

use leshy::lang::ast::{Address, ConstOrAddress, Func, Operation, Source};
use leshy::lang::interpreter::run;
use leshy::lang::loader::HashMapLoader;

fn lit(value: i32) -> Const {
    Const::Literal { bytes: bytes_from_i32(value) }
}

fn sym(name: &str) -> Const {
    Const::Symbol { name: String::from(name) }
}

fn at(offset: i32) -> Address {
    Address::Stack { address: lit(offset) }
}

fn place(offset: i32) -> ConstOrAddress {
    ConstOrAddress::Right { value: at(offset) }
}

fn number(value: i32) -> ConstOrAddress {
    ConstOrAddress::Left { value: lit(value) }
}

fn func(name: &str, ops: Vec<Operation>, labels: Vec<(&str, usize)>) -> Func {
    Func {
        name: String::from(name),
        ops: ops
            .into_iter()
            .enumerate()
            .map(|(line, op)| (op, Source { file: String::from("test"), line }))
            .collect(),
        labels: labels.into_iter().map(|(name, at)| (String::from(name), at)).collect(),
    }
}

/// fib4: the frame holds n in its first four bytes and gets fib(n) there.
fn fib_program() -> HashMapLoader {
    let fib4 = func(
        "fib4",
        vec![
            Operation::CheckSize { length: lit(4) },
            // n <= 1: done
            Operation::Branch {
                modifier: sym("le"),
                length: lit(4),
                op1: number(1),
                op2: place(0),
                target: sym("ret"),
            },
            // frame: n, n - 1, n - 2
            Operation::Extend { length: lit(8) },
            Operation::Add { length: lit(4), op1: place(0), op2: number(-1), dst: at(4) },
            Operation::Add { length: lit(4), op1: place(0), op2: number(-2), dst: at(8) },
            // fib(n - 2) on the last four bytes, then fib(n - 1) on the four before
            Operation::Call { offset: lit(8), target: sym("fib4") },
            Operation::Shrink { length: lit(4) },
            Operation::Call { offset: lit(4), target: sym("fib4") },
            Operation::Extend { length: lit(4) },
            Operation::Add { length: lit(4), op1: place(4), op2: place(8), dst: at(0) },
            Operation::Shrink { length: lit(8) },
            Operation::Specialize { length: lit(4), dst: at(0) },
        ],
        vec![("ret", 11)],
    );
    HashMapLoader::new(vec![fib4])
}

#[test]
fn test_fib4() {
    let loader = fib_program();
    let mut stack = Stack::create();
    stack.push(&operations::bytes_from_i32(8));
    run(&loader, "fib4", &mut stack);
    assert_eq!(Some(21), operations::bytes_as_i32(stack.as_slice(0)));
}

#[test]
fn language_operations() {
    let program = HashMapLoader::new(vec![
        func(
            "main",
            vec![
                Operation::Extend { length: lit(16) },
                Operation::SetBytes { length: lit(4), src: number(7), dst: at(0) },
                Operation::SetBytes { length: lit(8), src: place(0), dst: at(8) },
                Operation::Jump { target: sym("over") },
                Operation::SetBytes { length: lit(4), src: number(9), dst: at(0) },
                Operation::Branch {
                    modifier: sym("ne"),
                    length: lit(4),
                    op1: place(0),
                    op2: place(8),
                    target: sym("bad"),
                },
                Operation::Branch {
                    modifier: sym("eq"),
                    length: lit(4),
                    op1: place(0),
                    op2: place(-8),
                    target: sym("good"),
                },
                Operation::SetBytes { length: lit(4), src: number(1), dst: at(4) },
                Operation::NotSpecialize { length: lit(4), dst: at(0) },
                Operation::Add {
                    length: lit(8),
                    op1: ConstOrAddress::Left {
                        value: Const::Literal { bytes: bytes_from_i64(-1) },
                    },
                    op2: place(8),
                    dst: at(8),
                },
                Operation::Add {
                    length: lit(4),
                    op1: ConstOrAddress::Left {
                        value: Const::Stack { from_offset: bytes_from_i32(8), length: bytes_from_i32(4) },
                    },
                    op2: number(10),
                    dst: at(4),
                },
            ],
            vec![("bad", 7), ("over", 5), ("good", 8)],
        ),
        func("main", vec![Operation::Mult {
            length: lit(4),
            op1: number(1),
            op2: number(1),
            dst: at(0),
        }], vec![]),
        func(
            "main",
            vec![
                Operation::Extend { length: lit(4) },
                Operation::Call { offset: lit(4), target: sym("inner") },
            ],
            vec![],
        ),
        func("inner", vec![], vec![]),
    ]);
    let mut stack = Stack::create();
    // the last function of a name is the one that is found
    run(&program, "main", &mut stack);
    assert_eq!(4, stack.size());
    assert_eq!(0, stack.offset());

    let first = HashMapLoader::new(vec![func("inner", vec![], vec![]), {
        let mut all = Vec::new();
        all.push(func("x", vec![], vec![]));
        all.pop().unwrap()
    }]);
    run(&first, "inner", &mut stack);
    assert_eq!(4, stack.size());
}

#[test]
fn language_operations_on_a_frame() {
    let ops = vec![
        Operation::Extend { length: lit(16) },
        Operation::SetBytes { length: lit(4), src: number(7), dst: at(0) },
        Operation::SetBytes { length: lit(8), src: place(0), dst: at(8) },
        Operation::Jump { target: sym("over") },
        Operation::SetBytes { length: lit(4), src: number(9), dst: at(0) },
        Operation::Branch {
            modifier: sym("ne"),
            length: lit(4),
            op1: place(0),
            op2: place(8),
            target: sym("bad"),
        },
        Operation::Branch {
            modifier: sym("eq"),
            length: lit(4),
            op1: place(0),
            op2: place(-8),
            target: sym("good"),
        },
        Operation::SetBytes { length: lit(4), src: number(1), dst: at(4) },
        Operation::NotSpecialize { length: lit(4), dst: at(0) },
        Operation::Add {
            length: lit(8),
            op1: ConstOrAddress::Left { value: Const::Literal { bytes: bytes_from_i64(-1) } },
            op2: place(8),
            dst: at(8),
        },
        Operation::Add {
            length: lit(4),
            op1: ConstOrAddress::Left {
                value: Const::Stack { from_offset: bytes_from_i32(8), length: bytes_from_i32(4) },
            },
            op2: number(10),
            dst: at(4),
        },
    ];
    let program = HashMapLoader::new(vec![func(
        "main",
        ops,
        vec![("bad", 7), ("over", 5), ("over", 5), ("good", 8)],
    )]);
    let mut stack = Stack::create();
    run(&program, "main", &mut stack);
    assert_eq!(16, stack.size());
    assert_eq!(Some(7), operations::get_i32(stack.as_slice(0)));
    // 6 + 10, from the number that the add before it left at 8
    assert_eq!(Some(16), operations::get_i32(stack.as_slice(4)));
    assert_eq!(Some(6), operations::get_i64(stack.as_slice(8)));
}
