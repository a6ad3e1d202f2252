//! Reading programs in the textual language.

use crate::lang::ast::{
    Address, AddressView, Const, ConstOrAddress, ConstOrAddressView, ConstView, Func, FuncView,
    Operation, OperationView, Source,
};
use crate::lang::operations;
use vstd::prelude::*;
use vstd::string::StringExecFns;

verus! {

/// A line that is no operation of the language, or a name that is no text.
#[derive(Debug, Clone, Copy, PartialEq, Eq, Structural)]
pub struct ParseError {
    pub line: usize,
}

/// White space: a blank, or one of the control characters from the tab to
/// the carriage return.
pub open spec fn is_space(byte: u8) -> bool {
    byte == 0x20 || (0x09 <= byte <= 0x0d)
}

/// `text` without the white space at its start.
pub open spec fn trimmed_start(text: Seq<u8>) -> Seq<u8>
    decreases text.len(),
{
    if text.len() > 0 && is_space(text.first()) {
        trimmed_start(text.drop_first())
    } else {
        text
    }
}

/// `text` without the white space at its end.
pub open spec fn trimmed_end(text: Seq<u8>) -> Seq<u8>
    decreases text.len(),
{
    if text.len() > 0 && is_space(text.last()) {
        trimmed_end(text.drop_last())
    } else {
        text
    }
}

/// `text` without the white space around it.
pub open spec fn trimmed(text: Seq<u8>) -> Seq<u8> {
    trimmed_end(trimmed_start(text))
}

/// Whether `text` begins with `prefix`.
pub open spec fn starts_with(text: Seq<u8>, prefix: Seq<u8>) -> bool {
    text.len() >= prefix.len() && text.take(prefix.len() as int) == prefix
}

/// The position of the first `byte` in `text`; the length of `text` where
/// there is none.
pub open spec fn position_of(text: Seq<u8>, byte: u8) -> int
    decreases text.len(),
{
    if text.len() == 0 || text.first() == byte {
        0
    } else {
        1 + position_of(text.drop_first(), byte)
    }
}

pub proof fn lemma_position_in_range(text: Seq<u8>, byte: u8)
    ensures
        0 <= position_of(text, byte) <= text.len(),
        position_of(text, byte) < text.len() ==> text[position_of(text, byte)] == byte,
        forall|at: int| 0 <= at < position_of(text, byte) ==> text[at] != byte,
    decreases text.len(),
{
    if text.len() > 0 && text.first() != byte {
        lemma_position_in_range(text.drop_first(), byte);
        assert forall|at: int| 0 <= at < position_of(text, byte) implies text[at] != byte by {
            if at > 0 {
                assert(text.drop_first()[at - 1] == text[at]);
            }
        }
    }
}

/// The first position is the one before which the byte does not occur.
pub proof fn lemma_position_of(text: Seq<u8>, byte: u8, at: int)
    requires
        0 <= at <= text.len(),
        forall|before: int| 0 <= before < at ==> text[before] != byte,
        at < text.len() ==> text[at] == byte,
    ensures
        position_of(text, byte) == at,
    decreases text.len(),
{
    if text.len() > 0 && text.first() != byte {
        assert forall|before: int| 0 <= before < at - 1 implies text.drop_first()[before]
            != byte by {
            assert(text.drop_first()[before] == text[before + 1]);
        }
        lemma_position_of(text.drop_first(), byte, at - 1);
    }
}

/// `line` up to its comment, which a semicolon begins, without the white
/// space around it.
pub open spec fn without_comments(line: Seq<u8>) -> Seq<u8> {
    trimmed(line.take(position_of(line, 0x3b)))
}

/// The parts of `text` between the occurrences of `byte`.
pub open spec fn split(text: Seq<u8>, byte: u8) -> Seq<Seq<u8>>
    decreases text.len(),
{
    let at = position_of(text, byte);
    if at >= text.len() {
        seq![text]
    } else {
        proof {
            lemma_position_in_range(text, byte);
        }
        seq![text.take(at)] + split(text.skip(at + 1), byte)
    }
}

/// The number that the decimal digits `digits` write, which is 0 where
/// there is no digit, and none where a byte is no digit.
pub open spec fn digits_number(digits: Seq<u8>) -> Option<int>
    decreases digits.len(),
{
    if digits.len() == 0 {
        Some(0)
    } else if !(0x30 <= digits.last() <= 0x39) {
        None
    } else {
        match digits_number(digits.drop_last()) {
            Some(value) => Some(value * 10 + (digits.last() - 0x30)),
            None => None,
        }
    }
}

/// The number that the decimal digits `digits` write, and none where they
/// are no digits or there is none.
pub open spec fn digits_value(digits: Seq<u8>) -> Option<int> {
    if digits.len() == 0 {
        None
    } else {
        digits_number(digits)
    }
}

/// The 32-bit number that `text` writes in decimal, with or without a sign.
pub open spec fn literal_value(text: Seq<u8>) -> Option<i32> {
    if text.len() > 0 && text.first() == 0x2d {
        match digits_value(text.drop_first()) {
            Some(value) => if -value >= i32::MIN {
                Some((-value) as i32)
            } else {
                None
            },
            None => None,
        }
    } else if text.len() > 0 && text.first() == 0x2b {
        match digits_value(text.drop_first()) {
            Some(value) => if value <= i32::MAX {
                Some(value as i32)
            } else {
                None
            },
            None => None,
        }
    } else {
        match digits_value(text) {
            Some(value) => if value <= i32::MAX {
                Some(value as i32)
            } else {
                None
            },
            None => None,
        }
    }
}

/// The text that the bytes are in UTF-8.
pub open spec fn text_of(bytes: Seq<u8>) -> Option<Seq<char>> {
    if vstd::utf8::valid_utf8(bytes) {
        Some(vstd::utf8::decode_utf8(bytes))
    } else {
        None
    }
}

/// The constant that `text` writes: `$` and a number for the four bytes on
/// the stack at that offset, `:` and a name for a symbol, or a number.
pub open spec fn const_of(text: Seq<u8>) -> Option<ConstView> {
    if text.len() > 0 && text.first() == 0x24 {
        match literal_value(text.drop_first()) {
            Some(value) => Some(
                ConstView::Stack {
                    from_offset: operations::i32_le(value),
                    length: operations::i32_le(4),
                },
            ),
            None => None,
        }
    } else if text.len() > 0 && text.first() == 0x3a {
        match text_of(text.drop_first()) {
            Some(name) => Some(ConstView::Symbol { name }),
            None => None,
        }
    } else {
        match literal_value(text) {
            Some(value) => Some(ConstView::Literal { bytes: operations::i32_le(value) }),
            None => None,
        }
    }
}

/// The address that `text` writes: `*` and a constant for native memory,
/// `#` and a constant for the stack.
pub open spec fn address_of(text: Seq<u8>) -> Option<AddressView> {
    if text.len() > 0 && text.first() == 0x2a {
        match const_of(text.drop_first()) {
            Some(stack_offset) => Some(AddressView::Native { stack_offset }),
            None => None,
        }
    } else if text.len() > 0 && text.first() == 0x23 {
        match const_of(text.drop_first()) {
            Some(address) => Some(AddressView::Stack { address }),
            None => None,
        }
    } else {
        None
    }
}

/// The operand that `text` writes: an address where it begins with `*` or
/// `#`, else a constant.
pub open spec fn const_or_address_of(text: Seq<u8>) -> Option<ConstOrAddressView> {
    if text.len() > 0 && (text.first() == 0x2a || text.first() == 0x23) {
        match address_of(text) {
            Some(value) => Some(ConstOrAddressView::Right { value }),
            None => None,
        }
    } else {
        match const_of(text) {
            Some(value) => Some(ConstOrAddressView::Left { value }),
            None => None,
        }
    }
}

/// The bytes of the word `word`.
pub open spec fn word(word: &str) -> Seq<u8> {
    vstd::utf8::encode_utf8(word@)
}

/// The operation with one operand that `name` and the word `first` write.
pub open spec fn operation_of_two(name: Seq<u8>, first: Seq<u8>) -> Option<OperationView> {
    match const_of(first) {
        Some(value) => if name == word("extend") {
            Some(OperationView::Extend { length: value })
        } else if name == word("shrink") {
            Some(OperationView::Shrink { length: value })
        } else if name == word("check_size") {
            Some(OperationView::CheckSize { length: value })
        } else if name == word("jump") {
            Some(OperationView::Jump { target: value })
        } else {
            None
        },
        None => None,
    }
}

/// The operation with two operands that `name` and the words write.
pub open spec fn operation_of_three(name: Seq<u8>, first: Seq<u8>, second: Seq<u8>) -> Option<
    OperationView,
> {
    if name == word("call") {
        match (const_of(first), const_of(second)) {
            (Some(offset), Some(target)) => Some(OperationView::Call { offset, target }),
            _ => None,
        }
    } else if name == word("not_specialize") {
        match (const_of(first), address_of(second)) {
            (Some(length), Some(dst)) => Some(OperationView::NotSpecialize { length, dst }),
            _ => None,
        }
    } else if name == word("specialize") {
        match (const_of(first), address_of(second)) {
            (Some(length), Some(dst)) => Some(OperationView::Specialize { length, dst }),
            _ => None,
        }
    } else {
        None
    }
}

/// The operation with three operands that `name` and the words write.
pub open spec fn operation_of_four(
    name: Seq<u8>,
    first: Seq<u8>,
    second: Seq<u8>,
    third: Seq<u8>,
) -> Option<OperationView> {
    match (const_of(first), const_or_address_of(second), address_of(third)) {
        (Some(length), Some(operand), Some(dst)) => if name == word("set") {
            Some(OperationView::SetBytes { length, src: operand, dst })
        } else if name == word("neg") {
            Some(OperationView::Neg { length, op: operand, dst })
        } else {
            None
        },
        _ => None,
    }
}

/// The operation with four operands that `name` and the words write.
pub open spec fn operation_of_five(
    name: Seq<u8>,
    first: Seq<u8>,
    second: Seq<u8>,
    third: Seq<u8>,
    fourth: Seq<u8>,
) -> Option<OperationView> {
    match (
        const_of(first),
        const_or_address_of(second),
        const_or_address_of(third),
        address_of(fourth),
    ) {
        (Some(length), Some(op1), Some(op2), Some(dst)) => if name == word("add") {
            Some(OperationView::Add { length, op1, op2, dst })
        } else if name == word("mult") {
            Some(OperationView::Mult { length, op1, op2, dst })
        } else {
            None
        },
        _ => None,
    }
}

/// The branch that the words write.
pub open spec fn operation_of_six(words: Seq<Seq<u8>>) -> Option<OperationView> {
    if words[0] == word("branch") {
        match (
            const_of(words[1]),
            const_of(words[2]),
            const_or_address_of(words[3]),
            const_or_address_of(words[4]),
            const_of(words[5]),
        ) {
            (Some(modifier), Some(length), Some(op1), Some(op2), Some(target)) => Some(
                OperationView::Branch { modifier, length, op1, op2, target },
            ),
            _ => None,
        }
    } else {
        None
    }
}

/// The operation that the words `words` write: the name of the operation
/// and its operands. `Some(None)` for an empty line, `None` for what is no
/// operation.
pub open spec fn operation_of(words: Seq<Seq<u8>>) -> Option<Option<OperationView>> {
    if words.len() == 1 && words[0].len() == 0 {
        Some(None)
    } else {
        let found = if words.len() == 2 {
            operation_of_two(words[0], words[1])
        } else if words.len() == 3 {
            operation_of_three(words[0], words[1], words[2])
        } else if words.len() == 4 {
            operation_of_four(words[0], words[1], words[2], words[3])
        } else if words.len() == 5 {
            operation_of_five(words[0], words[1], words[2], words[3], words[4])
        } else if words.len() == 6 {
            operation_of_six(words)
        } else {
            None
        };
        match found {
            Some(operation) => Some(Some(operation)),
            None => None,
        }
    }
}

/// Whether the bytes are equal.
fn same_bytes(first: &[u8], second: &[u8]) -> (same: bool)
    ensures
        same == (first@ == second@),
{
    if first.len() != second.len() {
        return false;
    }
    let mut at: usize = 0;
    while at < first.len()
        invariant
            at <= first@.len(),
            first@.len() == second@.len(),
            forall|before: int| 0 <= before < at ==> first@[before] == second@[before],
        decreases first@.len() - at,
    {
        if first[at] != second[at] {
            return false;
        }
        at += 1;
    }
    assert(first@ =~= second@);
    true
}

/// Whether the bytes are those of the word `word`.
fn is_word(bytes: &[u8], text: &str) -> (same: bool)
    ensures
        same == (bytes@ == word(text)),
{
    same_bytes(bytes, text.as_bytes())
}

/// The bytes of `text` from `from` up to `to`.
fn part(text: &[u8], from: usize, to: usize) -> (bytes: Vec<u8>)
    requires
        from <= to <= text@.len(),
    ensures
        bytes@ == text@.subrange(from as int, to as int),
{
    vstd::slice::slice_to_vec(vstd::slice::slice_subrange(text, from, to))
}

fn space(byte: u8) -> (result: bool)
    ensures
        result == is_space(byte),
{
    byte == 0x20 || (0x09 <= byte && byte <= 0x0d)
}

/// `text` without the white space around it.
fn trim(text: &[u8]) -> (result: Vec<u8>)
    ensures
        result@ == trimmed(text@),
{
    let mut from: usize = 0;
    assert(text@.skip(0) =~= text@);
    while from < text.len() && space(text[from])
        invariant
            from <= text@.len(),
            trimmed_start(text@) == trimmed_start(text@.skip(from as int)),
        decreases text@.len() - from,
    {
        assert(text@.skip(from as int).drop_first() =~= text@.skip(from as int + 1));
        from += 1;
    }
    let mut to: usize = text.len();
    assert(text@.subrange(from as int, to as int) =~= text@.skip(from as int));
    while to > from && space(text[to - 1])
        invariant
            from <= to <= text@.len(),
            trimmed(text@) == trimmed_end(text@.subrange(from as int, to as int)),
        decreases to,
    {
        assert(text@.subrange(from as int, to as int).drop_last() =~= text@.subrange(
            from as int,
            to as int - 1,
        ));
        to -= 1;
    }
    part(text, from, to)
}

/// The position of the first `byte` in `text` from `from` on.
fn find(text: &[u8], from: usize, byte: u8) -> (at: usize)
    requires
        from <= text@.len(),
    ensures
        at == from + position_of(text@.skip(from as int), byte),
        from <= at <= text@.len(),
{
    let mut at: usize = from;
    while at < text.len() && text[at] != byte
        invariant
            from <= at <= text@.len(),
            forall|before: int| from <= before < at ==> text@[before] != byte,
        decreases text@.len() - at,
    {
        at += 1;
    }
    proof {
        lemma_position_of(text@.skip(from as int), byte, at - from);
    }
    at
}

fn remove_comments(line: &[u8]) -> (result: Vec<u8>)
    ensures
        result@ == without_comments(line@),
{
    assert(line@.skip(0) =~= line@);
    let end_index = find(line, 0, 0x3b);
    let code = part(line, 0, end_index);
    trim(code.as_slice())
}

/// The parts of `text` between the occurrences of `byte`.
pub(crate) fn split_at(text: &[u8], byte: u8) -> (parts: Vec<Vec<u8>>)
    ensures
        views(parts@) == split(text@, byte),
{
    let mut parts: Vec<Vec<u8>> = Vec::new();
    let mut from: usize = 0;
    assert(text@.skip(0) =~= text@);
    assert(views(parts@) =~= Seq::<Seq<u8>>::empty());
    loop
        invariant
            from <= text@.len(),
            split(text@, byte) == views(parts@) + split(text@.skip(from as int), byte),
        decreases text@.len() - from,
    {
        let ghost rest = text@.skip(from as int);
        let ghost before = views(parts@);
        let at = find(text, from, byte);
        parts.push(part(text, from, at));
        proof {
            assert(text@.subrange(from as int, at as int) =~= rest.take(at - from));
            assert(views(parts@) =~= before.push(rest.take(at - from)));
        }
        if at >= text.len() {
            return parts;
        }
        proof {
            assert(rest.skip(at - from + 1) =~= text@.skip(at as int + 1));
            assert(before + (seq![rest.take(at - from)] + split(text@.skip(at as int + 1), byte))
                =~= before.push(rest.take(at - from)) + split(text@.skip(at as int + 1), byte));
        }
        from = at + 1;
    }
}

/// The contents of the vectors.
pub open spec fn views(parts: Seq<Vec<u8>>) -> Seq<Seq<u8>> {
    Seq::new(parts.len(), |at: int| parts[at]@)
}

fn parse_digits(digits: &[u8]) -> (result: Option<i64>)
    ensures
        match digits_value(digits@) {
            Some(value) => if value <= 0x8000_0000 {
                result == Some(value as i64)
            } else {
                result is None
            },
            None => result is None,
        },
        result matches Some(value) ==> 0 <= value <= 0x8000_0000,
{
    if digits.len() == 0 {
        return None;
    }
    let mut value: i64 = 0;
    let mut at: usize = 0;
    let mut large: bool = false;
    while at < digits.len()
        invariant
            at <= digits@.len(),
            0 <= value <= 0x8000_0000,
            match digits_number(digits@.take(at as int)) {
                Some(so_far) => 0 <= so_far && if large {
                    so_far > 0x8000_0000
                } else {
                    so_far == value
                },
                None => false,
            },
        decreases digits@.len() - at,
    {
        let digit = digits[at];
        proof {
            assert(digits@.take(at as int + 1).drop_last() =~= digits@.take(at as int));
            assert(digits@.take(at as int + 1).last() == digit);
        }
        if !(0x30 <= digit && digit <= 0x39) {
            proof {
                lemma_digits_reject(digits@, at as int);
            }
            return None;
        }
        if !large {
            value = value * 10 + (digit - 0x30) as i64;
            if value > 0x8000_0000 {
                large = true;
                value = 0;
            }
        }
        at += 1;
    }
    assert(digits@.take(at as int) =~= digits@);
    if large {
        None
    } else {
        Some(value)
    }
}

/// Digits write no negative number.
pub proof fn lemma_digits_are_positive(digits: Seq<u8>)
    ensures
        digits_number(digits) matches Some(value) ==> value >= 0,
    decreases digits.len(),
{
    if digits.len() > 0 {
        lemma_digits_are_positive(digits.drop_last());
    }
}

/// Digits with a byte among them that is no digit write no number.
pub proof fn lemma_digits_reject(digits: Seq<u8>, at: int)
    requires
        0 <= at < digits.len(),
        !(0x30 <= digits[at] <= 0x39),
    ensures
        digits_number(digits) is None,
    decreases digits.len(),
{
    if at < digits.len() - 1 {
        lemma_digits_reject(digits.drop_last(), at);
    }
}

fn parse_literal(s: &[u8]) -> (result: Option<Vec<u8>>)
    ensures
        match literal_value(s@) {
            Some(value) => result is Some && result->Some_0@ == operations::i32_le(value),
            None => result is None,
        },
{
    if s.len() > 0 && s[0] == 0x2d {
        let digits = part(s, 1, s.len());
        assert(digits@ =~= s@.drop_first());
        let parsed = parse_digits(digits.as_slice());
        assert(digits_value(digits@) is Some ==> digits_value(digits@)->Some_0 >= 0) by {
            lemma_digits_are_positive(digits@);
        }
        match parsed {
            Some(value) => {
                let negated: i32 = (-value) as i32;
                assert(literal_value(s@) == Some(negated));
                Some(operations::bytes_from_i32(negated))
            },
            None => {
                assert(literal_value(s@) is None);
                None
            },
        }
    } else if s.len() > 0 && s[0] == 0x2b {
        let digits = part(s, 1, s.len());
        assert(digits@ =~= s@.drop_first());
        proof {
            lemma_digits_are_positive(digits@);
        }
        match parse_digits(digits.as_slice()) {
            Some(value) => if value <= 0x7fff_ffff {
                assert(literal_value(s@) == Some(value as i32));
                Some(operations::bytes_from_i32(value as i32))
            } else {
                assert(literal_value(s@) is None);
                None
            },
            None => {
                assert(literal_value(s@) is None);
                None
            },
        }
    } else {
        proof {
            lemma_digits_are_positive(s@);
        }
        match parse_digits(s) {
            Some(value) => if value <= 0x7fff_ffff {
                assert(literal_value(s@) == Some(value as i32));
                Some(operations::bytes_from_i32(value as i32))
            } else {
                assert(literal_value(s@) is None);
                None
            },
            None => {
                assert(literal_value(s@) is None);
                None
            },
        }
    }
}

fn parse_const(s: &[u8]) -> (result: Option<Const>)
    ensures
        match const_of(s@) {
            Some(value) => result is Some && result->Some_0@ == value,
            None => result is None,
        },
{
    if s.len() > 0 && s[0] == 0x24 {
        let rest = part(s, 1, s.len());
        assert(rest@ =~= s@.drop_first());
        match parse_literal(rest.as_slice()) {
            Some(from_offset) => Some(
                Const::Stack { from_offset, length: operations::bytes_from_i32(4) },
            ),
            None => None,
        }
    } else if s.len() > 0 && s[0] == 0x3a {
        let rest = part(s, 1, s.len());
        assert(rest@ =~= s@.drop_first());
        match operations::text_of_utf8(rest) {
            Some(name) => Some(Const::Symbol { name }),
            None => None,
        }
    } else {
        match parse_literal(s) {
            Some(bytes) => Some(Const::Literal { bytes }),
            None => None,
        }
    }
}

fn parse_address(s: &[u8]) -> (result: Option<Address>)
    ensures
        match address_of(s@) {
            Some(value) => result is Some && result->Some_0@ == value,
            None => result is None,
        },
{
    if s.len() > 0 && s[0] == 0x2a {
        let rest = part(s, 1, s.len());
        assert(rest@ =~= s@.drop_first());
        match parse_const(rest.as_slice()) {
            Some(stack_offset) => Some(Address::Native { stack_offset }),
            None => None,
        }
    } else if s.len() > 0 && s[0] == 0x23 {
        let rest = part(s, 1, s.len());
        assert(rest@ =~= s@.drop_first());
        match parse_const(rest.as_slice()) {
            Some(address) => Some(Address::Stack { address }),
            None => None,
        }
    } else {
        None
    }
}

fn parse_const_or_address(s: &[u8]) -> (result: Option<ConstOrAddress>)
    ensures
        match const_or_address_of(s@) {
            Some(value) => result is Some && result->Some_0@ == value,
            None => result is None,
        },
{
    if s.len() > 0 && (s[0] == 0x2a || s[0] == 0x23) {
        match parse_address(s) {
            Some(value) => Some(ConstOrAddress::Right { value }),
            None => None,
        }
    } else {
        match parse_const(s) {
            Some(value) => Some(ConstOrAddress::Left { value }),
            None => None,
        }
    }
}


fn parse_two(name: &[u8], first: &[u8]) -> (result: Option<Operation>)
    ensures
        match operation_of_two(name@, first@) {
            Some(operation) => result is Some && result->Some_0@ == operation,
            None => result is None,
        },
{
    match parse_const(first) {
        Some(value) => if is_word(name, "extend") {
            Some(Operation::Extend { length: value })
        } else if is_word(name, "shrink") {
            Some(Operation::Shrink { length: value })
        } else if is_word(name, "check_size") {
            Some(Operation::CheckSize { length: value })
        } else if is_word(name, "jump") {
            Some(Operation::Jump { target: value })
        } else {
            None
        },
        None => None,
    }
}

fn parse_three(name: &[u8], first: &[u8], second: &[u8]) -> (result: Option<Operation>)
    ensures
        match operation_of_three(name@, first@, second@) {
            Some(operation) => result is Some && result->Some_0@ == operation,
            None => result is None,
        },
{
    if is_word(name, "call") {
        match (parse_const(first), parse_const(second)) {
            (Some(offset), Some(target)) => Some(Operation::Call { offset, target }),
            _ => None,
        }
    } else if is_word(name, "not_specialize") {
        match (parse_const(first), parse_address(second)) {
            (Some(length), Some(dst)) => Some(Operation::NotSpecialize { length, dst }),
            _ => None,
        }
    } else if is_word(name, "specialize") {
        match (parse_const(first), parse_address(second)) {
            (Some(length), Some(dst)) => Some(Operation::Specialize { length, dst }),
            _ => None,
        }
    } else {
        None
    }
}

fn parse_four(name: &[u8], first: &[u8], second: &[u8], third: &[u8]) -> (result: Option<Operation>)
    ensures
        match operation_of_four(name@, first@, second@, third@) {
            Some(operation) => result is Some && result->Some_0@ == operation,
            None => result is None,
        },
{
    match (parse_const(first), parse_const_or_address(second), parse_address(third)) {
        (Some(length), Some(operand), Some(dst)) => if is_word(name, "set") {
            Some(Operation::SetBytes { length, src: operand, dst })
        } else if is_word(name, "neg") {
            Some(Operation::Neg { length, op: operand, dst })
        } else {
            None
        },
        _ => None,
    }
}

fn parse_five(name: &[u8], first: &[u8], second: &[u8], third: &[u8], fourth: &[u8]) -> (result:
    Option<Operation>)
    ensures
        match operation_of_five(name@, first@, second@, third@, fourth@) {
            Some(operation) => result is Some && result->Some_0@ == operation,
            None => result is None,
        },
{
    match (
        parse_const(first),
        parse_const_or_address(second),
        parse_const_or_address(third),
        parse_address(fourth),
    ) {
        (Some(length), Some(op1), Some(op2), Some(dst)) => if is_word(name, "add") {
            Some(Operation::Add { length, op1, op2, dst })
        } else if is_word(name, "mult") {
            Some(Operation::Mult { length, op1, op2, dst })
        } else {
            None
        },
        _ => None,
    }
}

fn parse_six(v: &Vec<Vec<u8>>) -> (result: Option<Operation>)
    requires
        v@.len() == 6,
    ensures
        match operation_of_six(views(v@)) {
            Some(operation) => result is Some && result->Some_0@ == operation,
            None => result is None,
        },
{
    if is_word(v[0].as_slice(), "branch") {
        match (
            parse_const(v[1].as_slice()),
            parse_const(v[2].as_slice()),
            parse_const_or_address(v[3].as_slice()),
            parse_const_or_address(v[4].as_slice()),
            parse_const(v[5].as_slice()),
        ) {
            (Some(modifier), Some(length), Some(op1), Some(op2), Some(target)) => Some(
                Operation::Branch { modifier, length, op1, op2, target },
            ),
            _ => None,
        }
    } else {
        None
    }
}

fn parse_operation(s: &[u8]) -> (result: Option<Option<Operation>>)
    ensures
        match operation_of(split(s@, 0x20)) {
            Some(Some(operation)) => result matches Some(Some(found)) && found@ == operation,
            Some(None) => result == Some(None::<Operation>),
            None => result is None,
        },
{
    let v = split_at(s, 0x20);
    let count = v.len();
    if count == 1 && v[0].len() == 0 {
        // noop
        return Some(None);
    }
    let found = if count == 2 {
        parse_two(v[0].as_slice(), v[1].as_slice())
    } else if count == 3 {
        parse_three(v[0].as_slice(), v[1].as_slice(), v[2].as_slice())
    } else if count == 4 {
        parse_four(v[0].as_slice(), v[1].as_slice(), v[2].as_slice(), v[3].as_slice())
    } else if count == 5 {
        parse_five(
            v[0].as_slice(),
            v[1].as_slice(),
            v[2].as_slice(),
            v[3].as_slice(),
            v[4].as_slice(),
        )
    } else if count == 6 {
        parse_six(&v)
    } else {
        None
    };
    match found {
        Some(operation) => Some(Some(operation)),
        None => None,
    }
}

/// The lines of a function with their numbers, as they are.
pub open spec fn numbered(lines: Seq<(usize, Vec<u8>)>) -> Seq<(usize, Seq<u8>)> {
    Seq::new(lines.len(), |at: int| (lines[at].0, lines[at].1@))
}

/// The function `so_far` with what the lines from `at` on add to it: a line
/// that ends in a colon, after its comment is taken away, is a label for
/// the position of the next operation; any other line is an operation, or
/// is empty.
pub open spec fn func_with_lines(lines: Seq<(usize, Seq<u8>)>, at: int, so_far: FuncView) -> Result<
    FuncView,
    ParseError,
>
    decreases lines.len() - at,
{
    if at < 0 || at >= lines.len() {
        Ok(so_far)
    } else {
        let code = without_comments(lines[at].1);
        if code.len() > 0 && code.last() == 0x3a {
            match text_of(code.drop_last()) {
                Some(name) => func_with_lines(
                    lines,
                    at + 1,
                    FuncView {
                        labels: so_far.labels.push((name, so_far.ops.len() as usize)),
                        ..so_far
                    },
                ),
                None => Err(ParseError { line: lines[at].0 }),
            }
        } else {
            match operation_of(split(code, 0x20)) {
                Some(Some(operation)) => func_with_lines(
                    lines,
                    at + 1,
                    FuncView { ops: so_far.ops.push((operation, lines[at].0)), ..so_far },
                ),
                Some(None) => func_with_lines(lines, at + 1, so_far),
                None => Err(ParseError { line: lines[at].0 }),
            }
        }
    }
}

/// The function that the lines write: its first line is `def` and its name;
/// lines that do not begin so write no function.
pub open spec fn func_of_lines(lines: Seq<(usize, Seq<u8>)>) -> Result<Option<FuncView>, ParseError> {
    let first = trimmed(lines[0].1);
    if !starts_with(first, word("def ")) {
        Ok(None)
    } else {
        match text_of(first.skip(word("def ").len() as int)) {
            Some(name) => match func_with_lines(
                lines,
                1,
                FuncView { name, ops: Seq::empty(), labels: Seq::empty() },
            ) {
                Ok(func) => Ok(Some(func)),
                Err(error) => Err(error),
            },
            None => Err(ParseError { line: lines[0].0 }),
        }
    }
}

/// Whether `text` begins with the bytes of `prefix`.
fn begins_with(text: &[u8], prefix: &str) -> (result: bool)
    ensures
        result == starts_with(text@, word(prefix)),
{
    let wanted = prefix.as_bytes();
    if text.len() < wanted.len() {
        return false;
    }
    let head = part(text, 0, wanted.len());
    assert(head@ =~= text@.take(wanted@.len() as int));
    same_bytes(head.as_slice(), wanted)
}

fn parse_func(src: &str, lines: &Vec<(usize, Vec<u8>)>) -> (result: Result<Option<Func>, ParseError>)
    requires
        lines@.len() > 0,
    ensures
        match func_of_lines(numbered(lines@)) {
            Ok(Some(func)) => result matches Ok(Some(found)) && found@ == func,
            Ok(None) => result matches Ok(None),
            Err(error) => result == Err::<Option<Func>, ParseError>(error),
        },
{
    let ghost all = numbered(lines@);
    let first = trim(lines[0].1.as_slice());
    if !begins_with(first.as_slice(), "def ") {
        return Ok(None);
    }
    let prefix: usize = "def ".as_bytes().len();
    // remove "def "
    let name_bytes = part(first.as_slice(), prefix, first.len());
    assert(name_bytes@ =~= first@.skip(prefix as int));
    let name = match operations::text_of_utf8(name_bytes) {
        Some(name) => name,
        None => {
            return Err(ParseError { line: lines[0].0 });
        },
    };

    let mut ops: Vec<(Operation, Source)> = Vec::new();
    let mut labels: Vec<(String, usize)> = Vec::new();
    let ghost start = FuncView { name: name@, ops: Seq::empty(), labels: Seq::empty() };
    let mut at: usize = 1;
    proof {
        let built = Func { name, ops, labels };
        assert(built@.ops =~= start.ops);
        assert(built@.labels =~= start.labels);
    }
    while at < lines.len()
        invariant
            1 <= at <= lines@.len(),
            all == numbered(lines@),
            func_with_lines(all, 1, start) == func_with_lines(
                all,
                at as int,
                (Func { name, ops, labels })@,
            ),
            func_of_lines(all) == match func_with_lines(all, 1, start) {
                Ok(func) => Ok::<Option<FuncView>, ParseError>(Some(func)),
                Err(error) => Err::<Option<FuncView>, ParseError>(error),
            },
        decreases lines@.len() - at,
    {
        let ghost so_far = (Func { name, ops, labels })@;
        let line_num: usize = lines[at].0;
        let no_comments = remove_comments(lines[at].1.as_slice());
        if no_comments.len() > 0 && no_comments[no_comments.len() - 1] == 0x3a {
            // label
            let label_bytes = part(no_comments.as_slice(), 0, no_comments.len() - 1);
            assert(label_bytes@ =~= no_comments@.drop_last());
            match operations::text_of_utf8(label_bytes) {
                Some(label) => {
                    labels.push((label, ops.len()));
                    proof {
                        let built = (Func { name, ops, labels })@;
                        assert(built.labels =~= so_far.labels.push((label@, ops@.len() as usize)));
                        assert(built.ops =~= so_far.ops);
                    }
                },
                None => {
                    return Err(ParseError { line: line_num });
                },
            }
        } else {
            // operation
            match parse_operation(no_comments.as_slice()) {
                Some(Some(operation)) => {
                    let ghost found = operation@;
                    ops.push((operation, Source { file: String::from_str(src), line: line_num }));
                    proof {
                        let built = (Func { name, ops, labels })@;
                        assert(built.ops =~= so_far.ops.push((found, line_num)));
                        assert(built.labels =~= so_far.labels);
                    }
                },
                Some(None) => {},
                None => {
                    return Err(ParseError { line: line_num });
                },
            }
        }
        at += 1;
    }
    Ok(Some(Func { name, ops, labels }))
}

/// The functions that the lines from `at` on add to `funcs`, where the
/// lines `current` were read since the last line that begins a function. A
/// line that begins with `def` begins a function.
pub open spec fn program_with_lines(
    lines: Seq<Seq<u8>>,
    at: int,
    current: Seq<(usize, Seq<u8>)>,
    funcs: Seq<FuncView>,
) -> Result<Seq<FuncView>, ParseError>
    decreases lines.len() - at,
{
    if at < 0 || at >= lines.len() {
        if current.len() > 0 {
            match func_of_lines(current) {
                Ok(Some(func)) => Ok(funcs.push(func)),
                Ok(None) => Ok(funcs),
                Err(error) => Err(error),
            }
        } else {
            Ok(funcs)
        }
    } else if starts_with(lines[at], word("def ")) && current.len() > 0 {
        match func_of_lines(current) {
            Ok(Some(func)) => program_with_lines(
                lines,
                at + 1,
                seq![(at as usize, lines[at])],
                funcs.push(func),
            ),
            Ok(None) => program_with_lines(lines, at + 1, seq![(at as usize, lines[at])], funcs),
            Err(error) => Err(error),
        }
    } else {
        program_with_lines(lines, at + 1, current.push((at as usize, lines[at])), funcs)
    }
}

/// The functions that `text` writes.
pub open spec fn program_of(text: Seq<u8>) -> Result<Seq<FuncView>, ParseError> {
    program_with_lines(split(text, 0x0a), 0, Seq::empty(), Seq::empty())
}

/// The functions as they are, mathematically.
pub open spec fn func_views(funcs: Seq<Func>) -> Seq<FuncView> {
    Seq::new(funcs.len(), |at: int| funcs[at]@)
}

/// Reads the functions that `text` writes; `src` is the name of the file
/// that the text is from.
pub fn parse_text(src: &str, text: &str) -> (result: Result<Vec<Func>, ParseError>)
    ensures
        match program_of(vstd::utf8::encode_utf8(text@)) {
            Ok(funcs) => result matches Ok(found) && func_views(found@) == funcs,
            Err(error) => result == Err::<Vec<Func>, ParseError>(error),
        },
{
    let lines = split_at(text.as_bytes(), 0x0a);
    let ghost all = split(vstd::utf8::encode_utf8(text@), 0x0a);
    assert(forall|at: int| 0 <= at < lines@.len() ==> lines@[at]@ == #[trigger] all[at]);
    let mut current_func: Vec<(usize, Vec<u8>)> = Vec::new();
    let mut funcs: Vec<Func> = Vec::new();
    let mut line_num: usize = 0;
    assert(numbered(current_func@) =~= Seq::empty());
    assert(func_views(funcs@) =~= Seq::empty());
    while line_num < lines.len()
        invariant
            line_num <= lines@.len(),
            all.len() == lines@.len(),
            forall|at: int| 0 <= at < lines@.len() ==> lines@[at]@ == #[trigger] all[at],
            program_of(vstd::utf8::encode_utf8(text@)) == program_with_lines(
                all,
                line_num as int,
                numbered(current_func@),
                func_views(funcs@),
            ),
        decreases lines@.len() - line_num,
    {
        let ghost current = numbered(current_func@);
        let ghost done = func_views(funcs@);
        let line = part(lines[line_num].as_slice(), 0, lines[line_num].len());
        assert(line@ =~= all[line_num as int]);
        if begins_with(line.as_slice(), "def ") && current_func.len() > 0 {
            match parse_func(src, &current_func) {
                Ok(Some(func)) => {
                    let ghost found = func@;
                    funcs.push(func);
                    assert(func_views(funcs@) =~= done.push(found));
                },
                Ok(None) => {},
                Err(error) => {
                    return Err(error);
                },
            }
            current_func = Vec::new();
            current_func.push((line_num, line));
            assert(numbered(current_func@) =~= seq![(line_num, all[line_num as int])]);
        } else {
            current_func.push((line_num, line));
            assert(numbered(current_func@) =~= current.push((line_num, all[line_num as int])));
        }
        line_num += 1;
    }
    if current_func.len() > 0 {
        let ghost done = func_views(funcs@);
        match parse_func(src, &current_func) {
            Ok(Some(func)) => {
                let ghost found = func@;
                funcs.push(func);
                assert(func_views(funcs@) =~= done.push(found));
            },
            Ok(None) => {},
            Err(error) => {
                return Err(error);
            },
        }
    }
    Ok(funcs)
}

} // verus!
