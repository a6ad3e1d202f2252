//! What the operations of the textual language do, and the interpreter that
//! runs them.

use crate::lang::ast::{label_of, Address, Const, ConstOrAddress, Func, Operation};
use crate::lang::operations;
use crate::lang::stack::{Stack, StackView};
use crate::vm::interpreter;
use vstd::prelude::*;
use vstd::string::StringExecFns;

verus! {

/// What finds the functions of a program by their names.
pub trait FuncLoader {
    /// The function with the name `name`.
    spec fn find(&self, name: Seq<char>) -> Option<Func>;

    fn load(&self, name: &str) -> (func: Option<&Func>)
        ensures
            match func {
                Some(found) => self.find(name@) == Some(*found),
                None => self.find(name@) is None,
            },
    ;
}

/// `bytes`, with zeros after them up to `expected_len` bytes.
pub open spec fn extended(bytes: Seq<u8>, expected_len: int) -> Seq<u8> {
    if bytes.len() >= expected_len {
        bytes
    } else {
        bytes + Seq::new((expected_len - bytes.len()) as nat, |at: int| 0u8)
    }
}

/// The bytes of the constant `value`, of which `expected_len` are wanted: a
/// literal gives its bytes, with zeros after them where they are fewer; a
/// constant on the stack gives the bytes at its place. `None` where the
/// constant has no bytes.
pub open spec fn const_value(stack: StackView, value: Const, expected_len: int) -> Option<Seq<u8>> {
    match value {
        Const::Literal { bytes } => Some(extended(bytes@, expected_len)),
        Const::Stack { from_offset, length } => {
            let from = stack.frame_offset(operations::le_i32(from_offset@));
            let count = operations::le_i32(length@) as int;
            if from_offset@.len() == 4 && length@.len() == 4 && stack.names_offset(
                operations::le_i32(from_offset@),
            ) && stack.holds(from) && expected_len <= count <= stack.slice(from).len() {
                Some(stack.slice(from).take(count))
            } else {
                None
            }
        },
        Const::Symbol { .. } => None,
    }
}

/// The offset into the frame that the constant `value` names.
pub open spec fn stack_size_value(stack: StackView, value: Const) -> Option<int> {
    match const_value(stack, value, 4) {
        Some(bytes) => if bytes.len() == 4 && stack.names_offset(operations::le_i32(bytes)) {
            Some(stack.frame_offset(operations::le_i32(bytes)))
        } else {
            None
        },
        None => None,
    }
}

/// The offset into the frame of the place that `value` names.
pub open spec fn address_value(stack: StackView, value: Address) -> Option<int> {
    match value {
        Address::Stack { address } => match stack_size_value(stack, address) {
            Some(at) => if stack.holds(at) {
                Some(at)
            } else {
                None
            },
            None => None,
        },
        Address::Native { .. } => None,
    }
}

/// The bytes of the operand `value`: those of a constant, or those in use
/// from the place on that an address names.
pub open spec fn operand_value(stack: StackView, value: ConstOrAddress, len: int) -> Option<
    Seq<u8>,
> {
    match value {
        ConstOrAddress::Left { value } => const_value(stack, value, len),
        ConstOrAddress::Right { value } => match address_value(stack, value) {
            Some(at) => Some(stack.slice(at)),
            None => None,
        },
    }
}

/// The name that the constant `value` is.
pub open spec fn symbol_value(value: Const) -> Option<Seq<char>> {
    match value {
        Const::Symbol { name } => Some(name@),
        _ => None,
    }
}

/// Whether a branch with the modifier `modifier` is taken for the numbers
/// `first` and `second`.
pub open spec fn branch_taken(modifier: Seq<char>, first: i32, second: i32) -> Option<bool> {
    if modifier == "eq"@ {
        Some(first == second)
    } else if modifier == "ne"@ {
        Some(first != second)
    } else if modifier == "le"@ {
        Some(!(first < second))
    } else if modifier == "gt"@ {
        Some(!(first > second))
    } else {
        None
    }
}

/// The stack with another number of bytes in use.
pub open spec fn resized(stack: StackView, size: int) -> StackView {
    StackView { bytes: stack.bytes, offset: stack.offset, size }
}

/// The stack with its frame starting elsewhere.
pub open spec fn moved(stack: StackView, offset: int) -> StackView {
    StackView { bytes: stack.bytes, offset, size: stack.size }
}

/// The bytes that an operation on numbers of `len` bytes writes: the sum of
/// the numbers at the start of `first` and `second`, where it does not
/// overflow.
pub open spec fn sum_value(len: int, first: Seq<u8>, second: Seq<u8>) -> Option<Seq<u8>> {
    if len == 4 && first.len() >= 4 && second.len() >= 4 && i32::MIN <= operations::le_i32(first)
        + operations::le_i32(second) <= i32::MAX {
        Some(operations::i32_le((operations::le_i32(first) + operations::le_i32(second)) as i32))
    } else if len == 8 && first.len() >= 8 && second.len() >= 8 && i64::MIN <= operations::le_i64(
        first,
    ) + operations::le_i64(second) <= i64::MAX {
        Some(operations::i64_le((operations::le_i64(first) + operations::le_i64(second)) as i64))
    } else {
        None
    }
}

/// What the operation at `line` of `func` does to `stack`, and the line to
/// go on with; calls may nest `fuel` deep. `None` where the operation is
/// undefined or the fuel runs out.
pub open spec fn line_within<L: FuncLoader>(
    loader: &L,
    func: Func,
    line: int,
    stack: StackView,
    fuel: nat,
) -> Option<(int, StackView)>
    decreases fuel, 0nat, 0nat,
{
    match func.ops@[line].0 {
        Operation::Extend { length } => match stack_size_value(stack, length) {
            Some(count) => if stack.size + count <= usize::MAX {
                Some((line + 1, resized(stack, stack.size + count)))
            } else {
                None
            },
            None => None,
        },
        Operation::Shrink { length } => match stack_size_value(stack, length) {
            Some(count) => if count <= stack.size {
                Some((line + 1, resized(stack, stack.size - count)))
            } else {
                None
            },
            None => None,
        },
        Operation::CheckSize { length } => match stack_size_value(stack, length) {
            Some(count) => if stack.offset <= stack.size && count == stack.frame_size() {
                Some((line + 1, stack))
            } else {
                None
            },
            None => None,
        },
        Operation::Branch { modifier, length, op1, op2, target } => {
            match (symbol_value(modifier), stack_size_value(stack, length)) {
                (Some(name), Some(len)) => match (
                    operand_value(stack, op1, len),
                    operand_value(stack, op2, len),
                ) {
                    (Some(first), Some(second)) => if len == 4 && first.len() >= 4 && second.len()
                        >= 4 {
                        match branch_taken(
                            name,
                            operations::le_i32(first),
                            operations::le_i32(second),
                        ) {
                            Some(true) => match symbol_value(target) {
                                Some(label) => match label_of(func.labels@, label) {
                                    Some(position) => Some((position as int, stack)),
                                    None => None,
                                },
                                None => None,
                            },
                            Some(false) => Some((line + 1, stack)),
                            None => None,
                        }
                    } else {
                        None
                    },
                    _ => None,
                },
                _ => None,
            }
        },
        Operation::Jump { target } => match symbol_value(target) {
            Some(label) => match label_of(func.labels@, label) {
                Some(position) => Some((position as int, stack)),
                None => None,
            },
            None => None,
        },
        Operation::Call { offset, target } => {
            match (stack_size_value(stack, offset), symbol_value(target)) {
                (Some(count), Some(name)) => if fuel > 0 && stack.offset + count <= usize::MAX {
                    match run_within(
                        loader,
                        name,
                        moved(stack, stack.offset + count),
                        (fuel - 1) as nat,
                    ) {
                        Some(after) => if count <= after.offset {
                            Some((line + 1, moved(after, after.offset - count)))
                        } else {
                            None
                        },
                        None => None,
                    }
                } else {
                    None
                },
                _ => None,
            }
        },
        Operation::Specialize { .. } => Some((line + 1, stack)),
        Operation::NotSpecialize { .. } => Some((line + 1, stack)),
        Operation::SetBytes { length, src, dst } => match stack_size_value(stack, length) {
            Some(len) => match (operand_value(stack, src, len), address_value(stack, dst)) {
                (Some(bytes), Some(at)) => if (len == 4 || len == 8) && bytes.len() >= len
                    && stack.slice(at).len() >= len {
                    Some((line + 1, stack.written(at, bytes.take(len))))
                } else {
                    None
                },
                _ => None,
            },
            None => None,
        },
        Operation::Add { length, op1, op2, dst } => match stack_size_value(stack, length) {
            Some(len) => match (
                operand_value(stack, op1, len),
                operand_value(stack, op2, len),
                address_value(stack, dst),
            ) {
                (Some(first), Some(second), Some(at)) => match sum_value(len, first, second) {
                    Some(sum) => if stack.slice(at).len() >= len {
                        Some((line + 1, stack.written(at, sum)))
                    } else {
                        None
                    },
                    None => None,
                },
                _ => None,
            },
            None => None,
        },
        Operation::Mult { .. } => None,
        Operation::Neg { .. } => None,
    }
}

/// The stack after `func` ran from `line` on, where that takes chains of
/// at most `fuel` operations and calls.
pub open spec fn run_from<L: FuncLoader>(
    loader: &L,
    func: Func,
    line: int,
    stack: StackView,
    fuel: nat,
) -> Option<StackView>
    decreases fuel, 1nat,
{
    if line == func.ops@.len() {
        Some(stack)
    } else if fuel == 0 || line < 0 || line > func.ops@.len() {
        None
    } else {
        match line_within(loader, func, line, stack, (fuel - 1) as nat) {
            Some((next, after)) => run_from(loader, func, next, after, (fuel - 1) as nat),
            None => None,
        }
    }
}

/// The stack after the function `name` ran on `stack`.
pub open spec fn run_within<L: FuncLoader>(
    loader: &L,
    name: Seq<char>,
    stack: StackView,
    fuel: nat,
) -> Option<StackView>
    decreases fuel, 2nat,
{
    match loader.find(name) {
        Some(func) => run_from(loader, func, 0, stack, fuel),
        None => None,
    }
}

/// The function `name` runs to its end on `stack`, and every operation on
/// the way is defined.
pub open spec fn runs<L: FuncLoader>(loader: &L, name: Seq<char>, stack: StackView) -> bool {
    exists|fuel: nat| run_within(loader, name, stack, fuel) is Some
}

/// The stack that the function `name` leaves, given `stack`.
pub open spec fn run_result<L: FuncLoader>(loader: &L, name: Seq<char>, stack: StackView) -> StackView {
    run_within(
        loader,
        name,
        stack,
        choose|fuel: nat| run_within(loader, name, stack, fuel) is Some,
    )->Some_0
}

/// More fuel does not change what an operation does.
pub proof fn lemma_line_fuel_monotone<L: FuncLoader>(
    loader: &L,
    func: Func,
    line: int,
    stack: StackView,
    fuel: nat,
    more: nat,
)
    requires
        line_within(loader, func, line, stack, fuel) is Some,
        fuel <= more,
    ensures
        line_within(loader, func, line, stack, more) == line_within(loader, func, line, stack, fuel),
    decreases fuel, 0nat,
{
    match func.ops@[line].0 {
        Operation::Call { offset, target } => {
            let count = stack_size_value(stack, offset)->Some_0;
            let name = symbol_value(target)->Some_0;
            lemma_run_fuel_monotone(
                loader,
                name,
                moved(stack, stack.offset + count),
                (fuel - 1) as nat,
                (more - 1) as nat,
            );
        },
        _ => {},
    }
}

/// More fuel does not change where a function gets from a line on.
pub proof fn lemma_run_from_fuel_monotone<L: FuncLoader>(
    loader: &L,
    func: Func,
    line: int,
    stack: StackView,
    fuel: nat,
    more: nat,
)
    requires
        run_from(loader, func, line, stack, fuel) is Some,
        fuel <= more,
    ensures
        run_from(loader, func, line, stack, more) == run_from(loader, func, line, stack, fuel),
    decreases fuel, 1nat,
{
    if line != func.ops@.len() {
        lemma_line_fuel_monotone(loader, func, line, stack, (fuel - 1) as nat, (more - 1) as nat);
        let (next, after) = line_within(loader, func, line, stack, (fuel - 1) as nat)->Some_0;
        lemma_run_from_fuel_monotone(loader, func, next, after, (fuel - 1) as nat, (more - 1) as nat);
    }
}

/// More fuel does not change what a function leaves.
pub proof fn lemma_run_fuel_monotone<L: FuncLoader>(
    loader: &L,
    name: Seq<char>,
    stack: StackView,
    fuel: nat,
    more: nat,
)
    requires
        run_within(loader, name, stack, fuel) is Some,
        fuel <= more,
    ensures
        run_within(loader, name, stack, more) == run_within(loader, name, stack, fuel),
    decreases fuel, 2nat,
{
    lemma_run_from_fuel_monotone(loader, loader.find(name)->Some_0, 0, stack, fuel, more);
}

/// Whatever fuel suffices gives the result.
pub proof fn lemma_run_result<L: FuncLoader>(loader: &L, name: Seq<char>, stack: StackView, fuel: nat)
    requires
        run_within(loader, name, stack, fuel) is Some,
    ensures
        runs(loader, name, stack),
        run_within(loader, name, stack, fuel) == Some(run_result(loader, name, stack)),
{
    let chosen = choose|fuel: nat| run_within(loader, name, stack, fuel) is Some;
    if chosen <= fuel {
        lemma_run_fuel_monotone(loader, name, stack, chosen, fuel);
    } else {
        lemma_run_fuel_monotone(loader, name, stack, fuel, chosen);
    }
}

/// `bytes`, with zeros after them up to `expected_len` bytes.
fn extend(bytes: &[u8], expected_len: usize) -> (result: Vec<u8>)
    ensures
        result@ == extended(bytes@, expected_len as int),
{
    let mut result: Vec<u8> = vstd::slice::slice_to_vec(bytes);
    while result.len() < expected_len
        invariant
            result@.len() >= bytes@.len(),
            result@.len() <= expected_len || result@.len() == bytes@.len(),
            result@ == bytes@ + Seq::new((result@.len() - bytes@.len()) as nat, |at: int| 0u8),
        decreases expected_len - result@.len(),
    {
        result.push(0);
        assert(result@ =~= bytes@ + Seq::new(
            (result@.len() - bytes@.len()) as nat,
            |at: int| 0u8,
        ));
    }
    assert(result@ =~= extended(bytes@, expected_len as int));
    result
}

fn eval_const(stack: &Stack, value: &Const, expected_len: usize) -> (result: Vec<u8>)
    requires
        stack.well_formed(),
        const_value(stack@, *value, expected_len as int) is Some,
    ensures
        Some(result@) == const_value(stack@, *value, expected_len as int),
{
    broadcast use Stack::lemma_view;

    match value {
        Const::Literal { bytes } => extend(bytes.as_slice(), expected_len),
        Const::Stack { from_offset, length } => {
            let from_offset_v = stack.frame_offset(
                operations::bytes_as_i32(from_offset.as_slice()).unwrap(),
            );
            let length_v: usize = operations::bytes_as_i32(length.as_slice()).unwrap() as usize;
            let slice = stack.as_slice(from_offset_v);
            let part = vstd::slice::slice_subrange(slice, 0, length_v);
            vstd::slice::slice_to_vec(part)
        },
        Const::Symbol { .. } => {
            proof {
                assert(false);
            }
            Vec::new()
        },
    }
}

fn eval_stack_size(stack: &Stack, value: &Const) -> (result: usize)
    requires
        stack.well_formed(),
        stack_size_value(stack@, *value) is Some,
    ensures
        Some(result as int) == stack_size_value(stack@, *value),
{
    broadcast use Stack::lemma_view;

    let bytes = eval_const(stack, value, 4);
    stack.frame_offset(operations::bytes_as_i32(bytes.as_slice()).unwrap())
}

fn eval_address(stack: &Stack, value: &Address) -> (result: usize)
    requires
        stack.well_formed(),
        address_value(stack@, *value) is Some,
    ensures
        Some(result as int) == address_value(stack@, *value),
{
    match value {
        Address::Stack { address } => eval_stack_size(stack, address),
        Address::Native { .. } => {
            proof {
                assert(false);
            }
            0
        },
    }
}

fn eval_const_or_address(stack: &Stack, value: &ConstOrAddress, const_expected_len: usize) -> (result:
    Vec<u8>)
    requires
        stack.well_formed(),
        operand_value(stack@, *value, const_expected_len as int) is Some,
    ensures
        Some(result@) == operand_value(stack@, *value, const_expected_len as int),
{
    broadcast use Stack::lemma_view;

    match value {
        ConstOrAddress::Left { value } => eval_const(stack, value, const_expected_len),
        ConstOrAddress::Right { value } => {
            let at = eval_address(stack, value);
            vstd::slice::slice_to_vec(stack.as_slice(at))
        },
    }
}

fn eval_symbol(value: &Const) -> (result: &str)
    requires
        symbol_value(*value) is Some,
    ensures
        Some(result@) == symbol_value(*value),
{
    match value {
        Const::Symbol { name } => name.as_str(),
        _ => {
            proof {
                assert(false);
            }
            ""
        },
    }
}

/// Whether the text `text` is the word `word`.
fn is_word(text: &str, word: &str) -> (same: bool)
    ensures
        same == (text@ == word@),
{
    String::from_str(text) == String::from_str(word)
}

/// Whether a branch with the modifier `modifier` is taken for the numbers at
/// the start of `first` and `second`.
fn branches(modifier: &str, length: usize, first: &[u8], second: &[u8]) -> (taken: bool)
    requires
        length == 4,
        first@.len() >= 4,
        second@.len() >= 4,
        branch_taken(modifier@, operations::le_i32(first@), operations::le_i32(second@)) is Some,
    ensures
        Some(taken) == branch_taken(
            modifier@,
            operations::le_i32(first@),
            operations::le_i32(second@),
        ),
{
    if is_word(modifier, "eq") {
        operations::cmp_eq(length, first, second)
    } else if is_word(modifier, "ne") {
        !operations::cmp_eq(length, first, second)
    } else if is_word(modifier, "le") {
        !operations::cmp_le(length, first, second)
    } else {
        !operations::cmp_gt(length, first, second)
    }
}

/// Writes `bytes` into the frame of `stack`, `at` bytes in.
fn write_at(stack: &mut Stack, at: usize, bytes: &Vec<u8>)
    requires
        old(stack).well_formed(),
        old(stack)@.holds(at as int),
        bytes@.len() <= old(stack)@.slice(at as int).len(),
    ensures
        final(stack).well_formed(),
        final(stack)@ == old(stack)@.written(at as int, bytes@),
{
    broadcast use Stack::lemma_view;

    let ghost before = stack@;
    let slice = stack.as_slice_mut(at);
    let mut next: usize = 0;
    let ghost start = slice@;
    while next < bytes.len()
        invariant
            next <= bytes@.len(),
            bytes@.len() <= start.len(),
            slice@.len() == start.len(),
            slice@ == interpreter::splice(start, 0, bytes@.take(next as int)),
        decreases bytes@.len() - next,
    {
        slice[next] = bytes[next];
        next += 1;
        assert(slice@ =~= interpreter::splice(start, 0, bytes@.take(next as int)));
    }
    proof {
        assert(bytes@.take(next as int) =~= bytes@);
        assert(before.bytes.take(before.offset + at) + interpreter::splice(start, 0, bytes@)
            + before.bytes.skip(before.size) =~= interpreter::splice(
            before.bytes,
            before.offset + at,
            bytes@,
        ));
    }
}

fn run_branch<L: FuncLoader>(
    loader: &L,
    func: &Func,
    line: usize,
    stack: &mut Stack,
    Ghost(fuel): Ghost<nat>,
) -> (next: usize)
    requires
        old(stack).well_formed(),
        line < func.ops@.len(),
        func.ops@[line as int].0 is Branch,
        line_within(loader, *func, line as int, old(stack)@, fuel) is Some,
    ensures
        final(stack).well_formed(),
        Some((next as int, final(stack)@)) == line_within(
            loader,
            *func,
            line as int,
            old(stack)@,
            fuel,
        ),
{
    broadcast use Stack::lemma_view;

    let count: usize = func.ops.len();
    assert(line < count);
    match &func.ops[line].0 {
        Operation::Branch { modifier, length, op1, op2, target } => {
            let modifier_v = eval_symbol(modifier);
            let length_v = eval_stack_size(stack, length);
            let op1_v = eval_const_or_address(stack, op1, length_v);
            let op2_v = eval_const_or_address(stack, op2, length_v);
            let taken = branches(modifier_v, length_v, op1_v.as_slice(), op2_v.as_slice());
            if taken {
                func.label(eval_symbol(target)).unwrap()
            } else {
                line + 1
            }
        },
        _ => line,
    }
}

fn run_set<L: FuncLoader>(
    loader: &L,
    func: &Func,
    line: usize,
    stack: &mut Stack,
    Ghost(fuel): Ghost<nat>,
) -> (next: usize)
    requires
        old(stack).well_formed(),
        line < func.ops@.len(),
        func.ops@[line as int].0 is SetBytes,
        line_within(loader, *func, line as int, old(stack)@, fuel) is Some,
    ensures
        final(stack).well_formed(),
        Some((next as int, final(stack)@)) == line_within(
            loader,
            *func,
            line as int,
            old(stack)@,
            fuel,
        ),
{
    broadcast use Stack::lemma_view;

    let count: usize = func.ops.len();
    assert(line < count);
    match &func.ops[line].0 {
        Operation::SetBytes { length, src, dst } => {
            let len = eval_stack_size(stack, length);
            let bytes = eval_const_or_address(stack, src, len);
            let at = eval_address(stack, dst);
            let part = vstd::slice::slice_to_vec(
                vstd::slice::slice_subrange(bytes.as_slice(), 0, len),
            );
            assert(part@ =~= bytes@.take(len as int));
            write_at(stack, at, &part);
            line + 1
        },
        _ => line,
    }
}

/// The bytes of the sum of the numbers of `len` bytes at the start of
/// `first` and `second`.
fn added(len: usize, first: &[u8], second: &[u8]) -> (sum: Vec<u8>)
    requires
        sum_value(len as int, first@, second@) is Some,
    ensures
        Some(sum@) == sum_value(len as int, first@, second@),
        sum@.len() == len,
{
    if len == 4 {
        let v1: i32 = operations::get_i32(first).unwrap();
        let v2: i32 = operations::get_i32(second).unwrap();
        operations::bytes_from_i32(v1 + v2)
    } else {
        let v1: i64 = operations::get_i64(first).unwrap();
        let v2: i64 = operations::get_i64(second).unwrap();
        operations::bytes_from_i64(v1 + v2)
    }
}

fn run_add<L: FuncLoader>(
    loader: &L,
    func: &Func,
    line: usize,
    stack: &mut Stack,
    Ghost(fuel): Ghost<nat>,
) -> (next: usize)
    requires
        old(stack).well_formed(),
        line < func.ops@.len(),
        func.ops@[line as int].0 is Add,
        line_within(loader, *func, line as int, old(stack)@, fuel) is Some,
    ensures
        final(stack).well_formed(),
        Some((next as int, final(stack)@)) == line_within(
            loader,
            *func,
            line as int,
            old(stack)@,
            fuel,
        ),
{
    broadcast use Stack::lemma_view;

    let count: usize = func.ops.len();
    assert(line < count);
    match &func.ops[line].0 {
        Operation::Add { length, op1, op2, dst } => {
            let len = eval_stack_size(stack, length);
            let first = eval_const_or_address(stack, op1, len);
            let second = eval_const_or_address(stack, op2, len);
            let at = eval_address(stack, dst);
            let sum = added(len, first.as_slice(), second.as_slice());
            write_at(stack, at, &sum);
            line + 1
        },
        _ => line,
    }
}

/// Runs the operation at `line` of `func` and gives the line to go on with.
fn run_line<L: FuncLoader>(
    loader: &L,
    func: &Func,
    line: usize,
    stack: &mut Stack,
    Ghost(fuel): Ghost<nat>,
) -> (next: usize)
    requires
        old(stack).well_formed(),
        line < func.ops@.len(),
        line_within(loader, *func, line as int, old(stack)@, fuel) is Some,
    ensures
        final(stack).well_formed(),
        Some((next as int, final(stack)@)) == line_within(
            loader,
            *func,
            line as int,
            old(stack)@,
            fuel,
        ),
    decreases fuel, 0nat,
{
    broadcast use Stack::lemma_view;

    let count: usize = func.ops.len();
    assert(line < count);
    match &func.ops[line].0 {
        Operation::Extend { length } => {
            let count = eval_stack_size(stack, length);
            stack.extend(count);
        },
        Operation::Shrink { length } => {
            let count = eval_stack_size(stack, length);
            stack.shrink(count);
        },
        Operation::CheckSize { length } => {
            let count = eval_stack_size(stack, length);
            stack.check_frame_size(count);
        },
        Operation::Branch { .. } => {
            return run_branch(loader, func, line, stack, Ghost(fuel));
        },
        Operation::Jump { target } => {
            return func.label(eval_symbol(target)).unwrap();
        },
        Operation::Call { offset, target } => {
            let offset_v = eval_stack_size(stack, offset);
            stack.move_forward(offset_v);
            run_bounded(loader, eval_symbol(target), stack, Ghost((fuel - 1) as nat));
            stack.move_back(offset_v);
        },
        Operation::Specialize { .. } => {},
        Operation::NotSpecialize { .. } => {},
        Operation::SetBytes { .. } => {
            return run_set(loader, func, line, stack, Ghost(fuel));
        },
        Operation::Add { .. } => {
            return run_add(loader, func, line, stack, Ghost(fuel));
        },
        Operation::Mult { .. } => {},
        Operation::Neg { .. } => {},
    }
    line + 1
}

fn run_bounded<L: FuncLoader>(loader: &L, name: &str, stack: &mut Stack, Ghost(fuel): Ghost<nat>)
    requires
        old(stack).well_formed(),
        run_within(loader, name@, old(stack)@, fuel) is Some,
    ensures
        final(stack).well_formed(),
        Some(final(stack)@) == run_within(loader, name@, old(stack)@, fuel),
    decreases fuel, 2nat,
{
    let func = loader.load(name).unwrap();
    let ghost target = run_within(loader, name@, stack@, fuel);
    let ghost mut left = fuel;
    let mut line: usize = 0;
    while line != func.ops.len()
        invariant
            stack.well_formed(),
            left <= fuel,
            Some(*func) == loader.find(name@),
            run_from(loader, *func, line as int, stack@, left) == target,
            target is Some,
        decreases left,
    {
        proof {
            left = (left - 1) as nat;
        }
        line = run_line(loader, func, line, stack, Ghost(left));
    }
}

/// Runs the function `name` on `stack`.
pub fn run<L: FuncLoader>(loader: &L, name: &str, stack: &mut Stack)
    requires
        old(stack).well_formed(),
        runs(loader, name@, old(stack)@),
    ensures
        final(stack).well_formed(),
        final(stack)@ == run_result(loader, name@, old(stack)@),
{
    let ghost fuel = choose|fuel: nat| run_within(loader, name@, stack@, fuel) is Some;
    run_bounded(loader, name, stack, Ghost(fuel));
}

} // verus!
