//! What commands and conditions do to a frame, and the interpreter that walks
//! a graph of nodes directly: the meaning of a program.

use crate::vm::api;
use crate::vm::api::{Command, CommandView, Condition, Node, NodeKind, NodeKindView, Ref};
use vstd::prelude::*;

verus! {

/// The 32-bit little-endian word that starts at position `at`.
pub open spec fn le_u32(bytes: Seq<u8>, at: int) -> u32
    recommends
        0 <= at,
        at + 4 <= bytes.len(),
{
    (bytes[at] + 0x100 * bytes[at + 1] + 0x1_0000 * bytes[at + 2] + 0x100_0000 * bytes[at + 3]) as u32
}

/// The 64-bit little-endian word that starts at position `at`.
pub open spec fn le_u64(bytes: Seq<u8>, at: int) -> u64
    recommends
        0 <= at,
        at + 8 <= bytes.len(),
{
    (le_u32(bytes, at) + 0x1_0000_0000 * le_u32(bytes, at + 4)) as u64
}

/// The four bytes of `value`, least significant first.
pub open spec fn u32_le(value: u32) -> Seq<u8> {
    seq![
        (value % 0x100) as u8,
        (value / 0x100 % 0x100) as u8,
        (value / 0x1_0000 % 0x100) as u8,
        (value / 0x100_0000) as u8,
    ]
}

/// The eight bytes of `value`, least significant first.
pub open spec fn u64_le(value: u64) -> Seq<u8> {
    u32_le((value % 0x1_0000_0000) as u32) + u32_le((value / 0x1_0000_0000) as u32)
}

/// `stack` with `bytes` written over it from position `at` on.
pub open spec fn splice(stack: Seq<u8>, at: int, bytes: Seq<u8>) -> Seq<u8>
    recommends
        0 <= at,
        at + bytes.len() <= stack.len(),
{
    stack.subrange(0, at) + bytes + stack.subrange(at + bytes.len(), stack.len() as int)
}

/// Decoding what was encoded gives the value back.
pub proof fn lemma_u32_le_round_trip(value: u32)
    ensures
        u32_le(value).len() == 4,
        le_u32(u32_le(value), 0) == value,
{
    let whole = value as int;
    vstd::arithmetic::div_mod::lemma_fundamental_div_mod(whole, 0x100);
    vstd::arithmetic::div_mod::lemma_fundamental_div_mod(whole / 0x100, 0x100);
    vstd::arithmetic::div_mod::lemma_fundamental_div_mod(whole / 0x1_0000, 0x100);
    vstd::arithmetic::div_mod::lemma_div_denominator(whole, 0x100, 0x100);
    vstd::arithmetic::div_mod::lemma_div_denominator(whole, 0x1_0000, 0x100);
    assert(whole / 0x100 / 0x100 == whole / 0x1_0000);
    assert(whole / 0x1_0000 / 0x100 == whole / 0x100_0000);
}

/// Encoding a decoded word gives the four bytes back.
pub proof fn lemma_le_u32_round_trip(bytes: Seq<u8>, at: int)
    requires
        0 <= at,
        at + 4 <= bytes.len(),
    ensures
        u32_le(le_u32(bytes, at)) == bytes.subrange(at, at + 4),
{
    let b0 = bytes[at] as int;
    let b1 = bytes[at + 1] as int;
    let b2 = bytes[at + 2] as int;
    let b3 = bytes[at + 3] as int;
    let value = le_u32(bytes, at) as int;
    assert(value == b0 + 0x100 * b1 + 0x1_0000 * b2 + 0x100_0000 * b3);
    vstd::arithmetic::div_mod::lemma_fundamental_div_mod_converse(
        value,
        0x100,
        b1 + 0x100 * b2 + 0x1_0000 * b3,
        b0,
    );
    vstd::arithmetic::div_mod::lemma_fundamental_div_mod_converse(
        b1 + 0x100 * b2 + 0x1_0000 * b3,
        0x100,
        b2 + 0x100 * b3,
        b1,
    );
    vstd::arithmetic::div_mod::lemma_fundamental_div_mod_converse(
        value,
        0x1_0000,
        b2 + 0x100 * b3,
        b0 + 0x100 * b1,
    );
    vstd::arithmetic::div_mod::lemma_fundamental_div_mod_converse(b2 + 0x100 * b3, 0x100, b3, b2);
    vstd::arithmetic::div_mod::lemma_fundamental_div_mod_converse(
        value,
        0x100_0000,
        b3,
        b0 + 0x100 * b1 + 0x1_0000 * b2,
    );
    let encoded = u32_le(le_u32(bytes, at));
    assert(encoded[0] == bytes[at]);
    assert(encoded[1] == bytes[at + 1]);
    assert(encoded[2] == bytes[at + 2]);
    assert(encoded[3] == bytes[at + 3]);
    assert(encoded =~= bytes.subrange(at, at + 4));
}

/// Encoding a decoded word gives the eight bytes back.
pub proof fn lemma_le_u64_round_trip(bytes: Seq<u8>, at: int)
    requires
        0 <= at,
        at + 8 <= bytes.len(),
    ensures
        u64_le(le_u64(bytes, at)) == bytes.subrange(at, at + 8),
{
    let low = le_u32(bytes, at);
    let high = le_u32(bytes, at + 4);
    let value = le_u64(bytes, at);
    assert(value == low + 0x1_0000_0000 * high);
    vstd::arithmetic::div_mod::lemma_fundamental_div_mod_converse(
        value as int,
        0x1_0000_0000,
        high as int,
        low as int,
    );
    lemma_le_u32_round_trip(bytes, at);
    lemma_le_u32_round_trip(bytes, at + 4);
    assert(bytes.subrange(at, at + 4) + bytes.subrange(at + 4, at + 8) =~= bytes.subrange(
        at,
        at + 8,
    ));
}

fn read_u32_at(stack: &[u8], at: usize) -> (value: u32)
    requires
        at + 4 <= stack@.len(),
    ensures
        value == le_u32(stack@, at as int),
{
    let b0: u32 = stack[at] as u32;
    let b1: u32 = stack[at + 1] as u32;
    let b2: u32 = stack[at + 2] as u32;
    let b3: u32 = stack[at + 3] as u32;
    b0 + 0x100 * b1 + 0x1_0000 * b2 + 0x100_0000 * b3
}

fn write_u32_at(stack: &mut [u8], at: usize, value: u32)
    requires
        at + 4 <= old(stack)@.len(),
    ensures
        final(stack)@ == splice(old(stack)@, at as int, u32_le(value)),
{
    stack[at] = (value % 0x100) as u8;
    stack[at + 1] = (value / 0x100 % 0x100) as u8;
    stack[at + 2] = (value / 0x1_0000 % 0x100) as u8;
    stack[at + 3] = (value / 0x100_0000) as u8;
    assert(stack@ =~= splice(old(stack)@, at as int, u32_le(value)));
}

fn read_u64_at(stack: &[u8], at: usize) -> (value: u64)
    requires
        at + 8 <= stack@.len(),
    ensures
        value == le_u64(stack@, at as int),
{
    let len: usize = stack.len();
    assert(at + 8 <= len);
    let low: u64 = read_u32_at(stack, at) as u64;
    let high: u64 = read_u32_at(stack, at + 4) as u64;
    low + 0x1_0000_0000 * high
}

fn write_u64_at(stack: &mut [u8], at: usize, value: u64)
    requires
        at + 8 <= old(stack)@.len(),
    ensures
        final(stack)@ == splice(old(stack)@, at as int, u64_le(value)),
{
    let len: usize = stack.len();
    assert(at + 8 <= len);
    write_u32_at(stack, at, (value % 0x1_0000_0000) as u32);
    write_u32_at(stack, at + 4, (value / 0x1_0000_0000) as u32);
    assert(stack@ =~= splice(old(stack)@, at as int, u64_le(value)));
}

/// Reads the 32-bit little-endian word at `src`.
pub fn get_u32(src: Ref, stack: &[u8]) -> (value: u32)
    requires
        src.at() + 4 <= stack@.len(),
    ensures
        value == le_u32(stack@, src.at()),
{
    match src {
        Ref::Stack(offset) => read_u32_at(stack, offset as usize),
    }
}

/// Reads the 64-bit little-endian word at `src`.
pub fn get_u64(src: Ref, stack: &[u8]) -> (value: u64)
    requires
        src.at() + 8 <= stack@.len(),
    ensures
        value == le_u64(stack@, src.at()),
{
    match src {
        Ref::Stack(offset) => read_u64_at(stack, offset as usize),
    }
}

/// Writes `value` at `dst` as a 32-bit little-endian word.
pub fn put_u32(dst: Ref, stack: &mut [u8], value: u32)
    requires
        dst.at() + 4 <= old(stack)@.len(),
    ensures
        final(stack)@ == splice(old(stack)@, dst.at(), u32_le(value)),
{
    match dst {
        Ref::Stack(offset) => write_u32_at(stack, offset as usize, value),
    }
}

/// Writes `value` at `dst` as a 64-bit little-endian word.
pub fn put_u64(dst: Ref, stack: &mut [u8], value: u64)
    requires
        dst.at() + 8 <= old(stack)@.len(),
    ensures
        final(stack)@ == splice(old(stack)@, dst.at(), u64_le(value)),
{
    match dst {
        Ref::Stack(offset) => write_u64_at(stack, offset as usize, value),
    }
}


/// The widths at which words are copied, added and subtracted.
pub open spec fn supported_width(size: u32) -> bool {
    size == 4 || size == 8
}

/// The bytes of the wrapping sum of the `size`-byte words at `op1` and `op2`.
pub open spec fn sum_bytes(stack: Seq<u8>, size: u32, op1: Ref, op2: Ref) -> Seq<u8> {
    if size == 4 {
        u32_le(le_u32(stack, op1.at()).wrapping_add(le_u32(stack, op2.at())))
    } else {
        u64_le(le_u64(stack, op1.at()).wrapping_add(le_u64(stack, op2.at())))
    }
}

/// The bytes of the wrapping difference of the `size`-byte words at `op1`
/// and `op2`.
pub open spec fn difference_bytes(stack: Seq<u8>, size: u32, op1: Ref, op2: Ref) -> Seq<u8> {
    if size == 4 {
        u32_le(le_u32(stack, op1.at()).wrapping_sub(le_u32(stack, op2.at())))
    } else {
        u64_le(le_u64(stack, op1.at()).wrapping_sub(le_u64(stack, op2.at())))
    }
}

/// Whether `command` can run on a frame that holds `stack`: its width is
/// supported and every byte it touches lies inside the frame.
pub open spec fn command_defined(command: CommandView, stack: Seq<u8>) -> bool {
    match command {
        CommandView::Noop => true,
        CommandView::PoisonFrom { .. } => true,
        CommandView::SetBytes { dst, bytes } => dst.at() + bytes.len() <= stack.len(),
        CommandView::Copy { dst, size, op } => {
            &&& supported_width(size)
            &&& dst.at() + size <= stack.len()
            &&& op.at() + size <= stack.len()
        },
        CommandView::Add { size, dst, op1, op2 } => {
            &&& supported_width(size)
            &&& dst.at() + size <= stack.len()
            &&& op1.at() + size <= stack.len()
            &&& op2.at() + size <= stack.len()
        },
        CommandView::Sub { size, dst, op1, op2 } => {
            &&& supported_width(size)
            &&& dst.at() + size <= stack.len()
            &&& op1.at() + size <= stack.len()
            &&& op2.at() + size <= stack.len()
        },
    }
}

/// The frame after `command` ran on a frame that held `stack`. Operands are
/// read before the destination is written. Poisoned bytes keep their value.
pub open spec fn command_effect(command: CommandView, stack: Seq<u8>) -> Seq<u8> {
    match command {
        CommandView::Noop => stack,
        CommandView::PoisonFrom { .. } => stack,
        CommandView::SetBytes { dst, bytes } => splice(stack, dst.at(), bytes),
        CommandView::Copy { dst, size, op } => splice(
            stack,
            dst.at(),
            stack.subrange(op.at(), op.at() + size),
        ),
        CommandView::Add { size, dst, op1, op2 } => splice(
            stack,
            dst.at(),
            sum_bytes(stack, size, op1, op2),
        ),
        CommandView::Sub { size, dst, op1, op2 } => splice(
            stack,
            dst.at(),
            difference_bytes(stack, size, op1, op2),
        ),
    }
}

/// Whether `condition` can be tested on a frame that holds `stack`.
pub open spec fn condition_defined(condition: Condition, stack: Seq<u8>) -> bool {
    match condition {
        Condition::Ne { size, op1, op2 } => {
            &&& size == 4
            &&& op1.at() + 4 <= stack.len()
            &&& op2.at() + 4 <= stack.len()
        },
        Condition::Ne0 { size, op } => size == 4 && op.at() + 4 <= stack.len(),
    }
}

/// The truth of `condition` on a frame that holds `stack`.
pub open spec fn condition_holds(condition: Condition, stack: Seq<u8>) -> bool {
    match condition {
        Condition::Ne { op1, op2, .. } => le_u32(stack, op1.at()) != le_u32(stack, op2.at()),
        Condition::Ne0 { op, .. } => le_u32(stack, op.at()) != 0,
    }
}

/// Writing bytes over a stack keeps its size.
pub proof fn lemma_splice_keeps_length(stack: Seq<u8>, at: int, bytes: Seq<u8>)
    requires
        0 <= at,
        at + bytes.len() <= stack.len(),
    ensures
        splice(stack, at, bytes).len() == stack.len(),
{
}

/// A command never changes the size of the frame.
pub proof fn lemma_command_keeps_length(command: CommandView, stack: Seq<u8>)
    requires
        command_defined(command, stack),
    ensures
        command_effect(command, stack).len() == stack.len(),
{
    match command {
        CommandView::Noop => {},
        CommandView::PoisonFrom { .. } => {},
        CommandView::SetBytes { dst, bytes } => {
            lemma_splice_keeps_length(stack, dst.at(), bytes);
        },
        CommandView::Copy { dst, size, op } => {
            lemma_splice_keeps_length(stack, dst.at(), stack.subrange(op.at(), op.at() + size));
        },
        CommandView::Add { size, dst, op1, op2 } => {
            assert(sum_bytes(stack, size, op1, op2).len() == size);
            lemma_splice_keeps_length(stack, dst.at(), sum_bytes(stack, size, op1, op2));
        },
        CommandView::Sub { size, dst, op1, op2 } => {
            assert(difference_bytes(stack, size, op1, op2).len() == size);
            lemma_splice_keeps_length(stack, dst.at(), difference_bytes(stack, size, op1, op2));
        },
    }
}

fn write_bytes_at(stack: &mut [u8], at: usize, bytes: &Vec<u8>)
    requires
        at + bytes@.len() <= old(stack)@.len(),
    ensures
        final(stack)@ == splice(old(stack)@, at as int, bytes@),
{
    let len: usize = stack.len();
    let count: usize = bytes.len();
    let mut i: usize = 0;
    while i < count
        invariant
            i <= count,
            count == bytes@.len(),
            at + count <= len,
            len == stack@.len(),
            len == old(stack)@.len(),
            stack@ == splice(old(stack)@, at as int, bytes@.subrange(0, i as int)),
        decreases count - i,
    {
        stack[at + i] = bytes[i];
        i += 1;
        assert(stack@ =~= splice(old(stack)@, at as int, bytes@.subrange(0, i as int)));
    }
    assert(bytes@.subrange(0, count as int) =~= bytes@);
}

/// Runs `command` on the frame `stack`.
pub fn eval_command(command: &Command, stack: &mut [u8])
    requires
        command_defined(command@, old(stack)@),
    ensures
        final(stack)@ == command_effect(command@, old(stack)@),
{
    match command {
        Command::Noop => {},
        Command::PoisonFrom { .. } => {},
        Command::SetBytes { dst, bytes } => {
            match dst {
                Ref::Stack(offset) => {
                    write_bytes_at(stack, *offset as usize, bytes);
                },
            }
        },
        Command::Copy { size, dst, op } => {
            if *size == 4 {
                let value: u32 = get_u32(*op, stack);
                put_u32(*dst, stack, value);
                proof {
                    lemma_le_u32_round_trip(old(stack)@, op.at());
                }
            } else {
                let value: u64 = get_u64(*op, stack);
                put_u64(*dst, stack, value);
                proof {
                    lemma_le_u64_round_trip(old(stack)@, op.at());
                }
            }
        },
        Command::Add { size, dst, op1, op2 } => {
            if *size == 4 {
                let value: u32 = get_u32(*op1, stack).wrapping_add(get_u32(*op2, stack));
                put_u32(*dst, stack, value);
            } else {
                let value: u64 = get_u64(*op1, stack).wrapping_add(get_u64(*op2, stack));
                put_u64(*dst, stack, value);
            }
        },
        Command::Sub { size, dst, op1, op2 } => {
            if *size == 4 {
                let value: u32 = get_u32(*op1, stack).wrapping_sub(get_u32(*op2, stack));
                put_u32(*dst, stack, value);
            } else {
                let value: u64 = get_u64(*op1, stack).wrapping_sub(get_u64(*op2, stack));
                put_u64(*dst, stack, value);
            }
        },
    }
}

/// Tests `condition` on the frame `stack`, which it leaves as it is.
pub fn eval_condition(condition: &Condition, stack: &mut [u8]) -> (result: bool)
    requires
        condition_defined(*condition, old(stack)@),
    ensures
        result == condition_holds(*condition, old(stack)@),
        final(stack)@ == old(stack)@,
{
    match condition {
        Condition::Ne { op1, op2, .. } => get_u32(*op1, stack) != get_u32(*op2, stack),
        Condition::Ne0 { op, .. } => get_u32(*op, stack) != 0,
    }
}

/// The bytes of `bytes` from `from` up to `to`, borrowed for writing.
///
/// Stands for std's `IndexMut` on a slice with a `Range`: the result holds
/// the bytes of the range, it keeps its length, and what is written through
/// it is what `bytes` holds there afterwards, the other bytes being kept.
#[verifier::external_body]
pub(crate) fn window<'a>(bytes: &'a mut [u8], from: usize, to: usize) -> (part: &'a mut [u8])
    requires
        from <= to <= old(bytes)@.len(),
    ensures
        part@ == old(bytes)@.subrange(from as int, to as int),
        final(part)@.len() == part@.len(),
        final(bytes)@ == old(bytes)@.take(from as int) + final(part)@ + old(bytes)@.skip(to as int),
{
    &mut bytes[from..to]
}

/// The part of `stack` from position `offset` on, borrowed for writing: the
/// frame of a callee. The bytes before `offset` are out of its reach.
pub(crate) fn subframe<'a>(stack: &'a mut [u8], offset: usize) -> (frame: &'a mut [u8])
    requires
        offset <= old(stack)@.len(),
    ensures
        frame@ == old(stack)@.skip(offset as int),
        final(frame)@.len() == frame@.len(),
        final(stack)@ == old(stack)@.take(offset as int) + final(frame)@,
{
    let len: usize = stack.len();
    let ghost before = stack@;
    let frame = window(stack, offset, len);
    proof {
        assert(before.subrange(offset as int, len as int) =~= before.skip(offset as int));
        assert(before.skip(len as int) =~= Seq::<u8>::empty());
        assert(before.take(offset as int) + final(frame)@ + Seq::<u8>::empty()
            =~= before.take(offset as int) + final(frame)@);
    }
    frame
}

/// The one step that a node of kind `kind` takes on `stack`, and then the
/// evaluation of what follows with `fuel` further nodes allowed:
/// the resulting stack, or `None` where the fuel runs out or an operation is
/// undefined.
pub open spec fn eval_kind_within<N: Node>(
    kind: NodeKindView<N>,
    stack: Seq<u8>,
    fuel: nat,
) -> Option<Seq<u8>>
    decreases fuel, 0nat,
{
    match kind {
        NodeKindView::Final => Some(stack),
        NodeKindView::Command { command, next } => {
            if fuel > 0 && command_defined(command, stack) {
                eval_within(next, command_effect(command, stack), (fuel - 1) as nat)
            } else {
                None
            }
        },
        NodeKindView::Branch { condition, if_true, if_false } => {
            if fuel > 0 && condition_defined(condition, stack) {
                if condition_holds(condition, stack) {
                    eval_within(if_true, stack, (fuel - 1) as nat)
                } else {
                    eval_within(if_false, stack, (fuel - 1) as nat)
                }
            } else {
                None
            }
        },
        NodeKindView::Call { offset, call, next } => {
            if fuel > 0 && offset <= stack.len() {
                match eval_within(call, stack.skip(offset as int), (fuel - 1) as nat) {
                    Some(frame) => eval_within(
                        next,
                        stack.take(offset as int) + frame,
                        (fuel - 1) as nat,
                    ),
                    None => None,
                }
            } else {
                None
            }
        },
    }
}

/// The evaluation of the program that starts at `node`, on `stack`, with
/// chains of at most `fuel` nodes after the first.
pub open spec fn eval_within<N: Node>(node: N, stack: Seq<u8>, fuel: nat) -> Option<Seq<u8>>
    decreases fuel, 1nat,
{
    eval_kind_within(node.kind(), stack, fuel)
}

/// The program that starts at `node` comes to an end on `stack`, and every
/// operation on the way is defined.
pub open spec fn evaluates<N: Node>(node: N, stack: Seq<u8>) -> bool {
    exists|fuel: nat| eval_within(node, stack, fuel) is Some
}

/// The stack that the program that starts at `node` leaves, given `stack`.
pub open spec fn eval_result<N: Node>(node: N, stack: Seq<u8>) -> Seq<u8>
    recommends
        evaluates(node, stack),
{
    let fuel = choose|fuel: nat| eval_within(node, stack, fuel) is Some;
    eval_within(node, stack, fuel)->Some_0
}

/// More fuel does not change a result.
pub proof fn lemma_eval_fuel_monotone<N: Node>(node: N, stack: Seq<u8>, fuel: nat, more: nat)
    requires
        eval_within(node, stack, fuel) is Some,
        fuel <= more,
    ensures
        eval_within(node, stack, more) == eval_within(node, stack, fuel),
    decreases fuel,
{
    match node.kind() {
        NodeKindView::Final => {},
        NodeKindView::Command { command, next } => {
            lemma_eval_fuel_monotone(
                next,
                command_effect(command, stack),
                (fuel - 1) as nat,
                (more - 1) as nat,
            );
        },
        NodeKindView::Branch { condition, if_true, if_false } => {
            if condition_holds(condition, stack) {
                lemma_eval_fuel_monotone(if_true, stack, (fuel - 1) as nat, (more - 1) as nat);
            } else {
                lemma_eval_fuel_monotone(if_false, stack, (fuel - 1) as nat, (more - 1) as nat);
            }
        },
        NodeKindView::Call { offset, call, next } => {
            let inner = stack.skip(offset as int);
            lemma_eval_fuel_monotone(call, inner, (fuel - 1) as nat, (more - 1) as nat);
            let frame = eval_within(call, inner, (fuel - 1) as nat)->Some_0;
            lemma_eval_fuel_monotone(
                next,
                stack.take(offset as int) + frame,
                (fuel - 1) as nat,
                (more - 1) as nat,
            );
        },
    }
}

/// Whatever fuel suffices gives the result.
pub proof fn lemma_eval_result<N: Node>(node: N, stack: Seq<u8>, fuel: nat)
    requires
        eval_within(node, stack, fuel) is Some,
    ensures
        evaluates(node, stack),
        eval_within(node, stack, fuel) == Some(eval_result(node, stack)),
{
    let chosen = choose|fuel: nat| eval_within(node, stack, fuel) is Some;
    if chosen <= fuel {
        lemma_eval_fuel_monotone(node, stack, chosen, fuel);
    } else {
        lemma_eval_fuel_monotone(node, stack, fuel, chosen);
    }
}

/// Evaluation never changes the size of the stack.
pub proof fn lemma_eval_keeps_length<N: Node>(node: N, stack: Seq<u8>, fuel: nat)
    requires
        eval_within(node, stack, fuel) is Some,
    ensures
        eval_within(node, stack, fuel)->Some_0.len() == stack.len(),
    decreases fuel,
{
    match node.kind() {
        NodeKindView::Final => {},
        NodeKindView::Command { command, next } => {
            lemma_eval_keeps_length(next, command_effect(command, stack), (fuel - 1) as nat);
        },
        NodeKindView::Branch { condition, if_true, if_false } => {
            if condition_holds(condition, stack) {
                lemma_eval_keeps_length(if_true, stack, (fuel - 1) as nat);
            } else {
                lemma_eval_keeps_length(if_false, stack, (fuel - 1) as nat);
            }
        },
        NodeKindView::Call { offset, call, next } => {
            let inner = stack.skip(offset as int);
            lemma_eval_keeps_length(call, inner, (fuel - 1) as nat);
            let frame = eval_within(call, inner, (fuel - 1) as nat)->Some_0;
            lemma_eval_keeps_length(next, stack.take(offset as int) + frame, (fuel - 1) as nat);
        },
    }
}

fn eval_bounded<N: Node>(node: N, stack: &mut [u8], Ghost(fuel): Ghost<nat>)
    requires
        node.valid(),
        eval_within(node, old(stack)@, fuel) is Some,
    ensures
        Some(final(stack)@) == eval_within(node, old(stack)@, fuel),
    decreases fuel,
{
    let ghost target = eval_within(node, stack@, fuel);
    let ghost mut left = fuel;
    let mut current = node;
    loop
        invariant
            left <= fuel,
            current.valid(),
            eval_within(current, stack@, left) == target,
            target is Some,
        ensures
            Some(stack@) == target,
        decreases left,
    {
        match current.get() {
            NodeKind::Command { command, next } => {
                eval_command(&command, stack);
                current = next;
            },
            NodeKind::Branch { condition, if_true, if_false } => {
                if eval_condition(&condition, stack) {
                    current = if_true;
                } else {
                    current = if_false;
                }
            },
            NodeKind::Call { offset, call, next } => {
                let frame = subframe(stack, offset as usize);
                eval_bounded(call, frame, Ghost((left - 1) as nat));
                current = next;
            },
            NodeKind::Final => {
                break ;
            },
        }
        proof {
            left = (left - 1) as nat;
        }
    }
}

/// Evaluates the program that starts at `node` on `stack`, walking the graph
/// node by node.
pub fn eval<N: Node>(node: N, stack: &mut [u8])
    requires
        node.valid(),
        evaluates(node, old(stack)@),
    ensures
        final(stack)@ == eval_result(node, old(stack)@),
{
    let ghost fuel = choose|fuel: nat| eval_within(node, stack@, fuel) is Some;
    eval_bounded(node, stack, Ghost(fuel));
}

/// The kind of the first node, from `node` on along `next`, whose kind is
/// not a command that leaves the stack as it is; `None` where no such node
/// is among the first `fuel`.
pub open spec fn final_kind_within<N: Node>(node: N, fuel: nat) -> Option<NodeKindView<N>>
    decreases fuel,
{
    if fuel == 0 {
        None
    } else {
        match node.kind() {
            NodeKindView::Command { command, next } => {
                if command.is_skip() {
                    final_kind_within(next, (fuel - 1) as nat)
                } else {
                    Some(node.kind())
                }
            },
            kind => Some(kind),
        }
    }
}

/// The chain of skipped commands that starts at `node` ends.
pub open spec fn has_final_kind<N: Node>(node: N) -> bool {
    exists|fuel: nat| final_kind_within(node, fuel) is Some
}

/// The kind that `node` has once its leading skipped commands are folded
/// away.
pub open spec fn final_kind<N: Node>(node: N) -> NodeKindView<N>
    recommends
        has_final_kind(node),
{
    let fuel = choose|fuel: nat| final_kind_within(node, fuel) is Some;
    final_kind_within(node, fuel)->Some_0
}

/// More fuel does not change a final kind.
pub proof fn lemma_final_kind_monotone<N: Node>(node: N, fuel: nat, more: nat)
    requires
        final_kind_within(node, fuel) is Some,
        fuel <= more,
    ensures
        final_kind_within(node, more) == final_kind_within(node, fuel),
    decreases fuel,
{
    match node.kind() {
        NodeKindView::Command { command, next } => {
            if command.is_skip() {
                lemma_final_kind_monotone(next, (fuel - 1) as nat, (more - 1) as nat);
            }
        },
        _ => {},
    }
}

/// Whatever fuel suffices gives the final kind.
pub proof fn lemma_final_kind<N: Node>(node: N, fuel: nat)
    requires
        final_kind_within(node, fuel) is Some,
    ensures
        has_final_kind(node),
        final_kind_within(node, fuel) == Some(final_kind(node)),
{
    let chosen = choose|fuel: nat| final_kind_within(node, fuel) is Some;
    if chosen <= fuel {
        lemma_final_kind_monotone(node, chosen, fuel);
    } else {
        lemma_final_kind_monotone(node, fuel, chosen);
    }
}

/// A final kind is never a skipped command.
pub proof fn lemma_final_kind_is_no_skip<N: Node>(node: N, fuel: nat)
    requires
        final_kind_within(node, fuel) is Some,
    ensures
        !final_kind_within(node, fuel)->Some_0.is_skip(),
    decreases fuel,
{
    match node.kind() {
        NodeKindView::Command { command, next } => {
            if command.is_skip() {
                lemma_final_kind_is_no_skip(next, (fuel - 1) as nat);
            }
        },
        _ => {},
    }
}

/// The kind of `node` with its leading `Noop` and `PoisonFrom` commands
/// folded away.
pub fn get_final_kind<N: Node>(node: &N) -> (kind: NodeKind<N>)
    requires
        node.valid(),
        has_final_kind(*node),
    ensures
        kind@ == final_kind(*node),
        !kind@.is_skip(),
        api::successors_valid(kind@),
{
    let ghost fuel = choose|fuel: nat| final_kind_within(*node, fuel) is Some;
    proof {
        lemma_final_kind(*node, fuel);
        lemma_final_kind_is_no_skip(*node, fuel);
    }
    let ghost mut left = fuel;
    let ghost mut current = *node;
    let mut kind = node.get();
    loop
        invariant
            kind@ == current.kind(),
            api::successors_valid(kind@),
            final_kind_within(current, left) == Some(final_kind(*node)),
        ensures
            kind@ == final_kind(*node),
            api::successors_valid(kind@),
        decreases left,
    {
        match kind {
            NodeKind::Command { command: Command::Noop, next } => {
                proof {
                    current = next;
                    left = (left - 1) as nat;
                }
                kind = next.get();
            },
            NodeKind::Command { command: Command::PoisonFrom { .. }, next } => {
                proof {
                    current = next;
                    left = (left - 1) as nat;
                }
                kind = next.get();
            },
            other => {
                kind = other;
                break ;
            },
        }
    }
    kind
}

/// Leading skipped commands do not influence the result: the program that
/// starts at `node` leaves what it would leave if `node` had its final kind.
pub proof fn lemma_folding_keeps_result<N: Node>(node: N, stack: Seq<u8>, fuel: nat)
    requires
        eval_within(node, stack, fuel) is Some,
    ensures
        has_final_kind(node),
        eval_kind_within(final_kind(node), stack, fuel) == eval_within(node, stack, fuel),
    decreases fuel,
{
    match node.kind() {
        NodeKindView::Command { command, next } => {
            if command.is_skip() {
                let rest = (fuel - 1) as nat;
                lemma_folding_keeps_result(next, stack, rest);
                let chosen = choose|f: nat| final_kind_within(next, f) is Some;
                lemma_final_kind(next, chosen);
                assert(final_kind_within(node, chosen + 1) == Some(final_kind(next)));
                lemma_final_kind(node, chosen + 1);
                lemma_eval_kind_fuel_monotone(final_kind(next), stack, rest, fuel);
            } else {
                assert(final_kind_within(node, 1) == Some(node.kind()));
                lemma_final_kind(node, 1);
            }
        },
        _ => {
            assert(final_kind_within(node, 1) == Some(node.kind()));
            lemma_final_kind(node, 1);
        },
    }
}

/// More fuel does not change the result of a step and what follows.
pub proof fn lemma_eval_kind_fuel_monotone<N: Node>(
    kind: NodeKindView<N>,
    stack: Seq<u8>,
    fuel: nat,
    more: nat,
)
    requires
        eval_kind_within(kind, stack, fuel) is Some,
        fuel <= more,
    ensures
        eval_kind_within(kind, stack, more) == eval_kind_within(kind, stack, fuel),
{
    match kind {
        NodeKindView::Final => {},
        NodeKindView::Command { command, next } => {
            lemma_eval_fuel_monotone(
                next,
                command_effect(command, stack),
                (fuel - 1) as nat,
                (more - 1) as nat,
            );
        },
        NodeKindView::Branch { condition, if_true, if_false } => {
            if condition_holds(condition, stack) {
                lemma_eval_fuel_monotone(if_true, stack, (fuel - 1) as nat, (more - 1) as nat);
            } else {
                lemma_eval_fuel_monotone(if_false, stack, (fuel - 1) as nat, (more - 1) as nat);
            }
        },
        NodeKindView::Call { offset, call, next } => {
            let inner = stack.skip(offset as int);
            lemma_eval_fuel_monotone(call, inner, (fuel - 1) as nat, (more - 1) as nat);
            let frame = eval_within(call, inner, (fuel - 1) as nat)->Some_0;
            lemma_eval_fuel_monotone(
                next,
                stack.take(offset as int) + frame,
                (fuel - 1) as nat,
                (more - 1) as nat,
            );
        },
    }
}

} // verus!
