//! Numbers as bytes, and bytes as text.

use crate::vm::interpreter;
use vstd::prelude::*;
use vstd::string::StringExecFns;

verus! {

/// The signed number that the 32 bits of `value` stand for.
pub open spec fn signed32(value: u32) -> i32 {
    if value < 0x8000_0000 {
        value as i32
    } else {
        (value - 0x1_0000_0000) as i32
    }
}

/// The 32 bits that stand for `value`.
pub open spec fn unsigned32(value: i32) -> u32 {
    if value >= 0 {
        value as u32
    } else {
        (value + 0x1_0000_0000) as u32
    }
}

/// The signed number that the 64 bits of `value` stand for.
pub open spec fn signed64(value: u64) -> i64 {
    if value < 0x8000_0000_0000_0000 {
        value as i64
    } else {
        (value - 0x1_0000_0000_0000_0000) as i64
    }
}

/// The 64 bits that stand for `value`.
pub open spec fn unsigned64(value: i64) -> u64 {
    if value >= 0 {
        value as u64
    } else {
        (value + 0x1_0000_0000_0000_0000) as u64
    }
}

/// The signed 32-bit little-endian number at the start of `bytes`.
pub open spec fn le_i32(bytes: Seq<u8>) -> i32 {
    signed32(interpreter::le_u32(bytes, 0))
}

/// The signed 64-bit little-endian number at the start of `bytes`.
pub open spec fn le_i64(bytes: Seq<u8>) -> i64 {
    signed64(interpreter::le_u64(bytes, 0))
}

/// The four bytes of `value`, least significant first.
pub open spec fn i32_le(value: i32) -> Seq<u8> {
    interpreter::u32_le(unsigned32(value))
}

/// The eight bytes of `value`, least significant first.
pub open spec fn i64_le(value: i64) -> Seq<u8> {
    interpreter::u64_le(unsigned64(value))
}

fn to_signed32(value: u32) -> (signed: i32)
    ensures
        signed == signed32(value),
{
    if value < 0x8000_0000 {
        value as i32
    } else {
        (value - 0x8000_0000) as i32 + i32::MIN
    }
}

fn to_unsigned32(value: i32) -> (unsigned: u32)
    ensures
        unsigned == unsigned32(value),
{
    if value >= 0 {
        value as u32
    } else {
        (value - i32::MIN) as u32 + 0x8000_0000
    }
}

fn to_signed64(value: u64) -> (signed: i64)
    ensures
        signed == signed64(value),
{
    if value < 0x8000_0000_0000_0000 {
        value as i64
    } else {
        (value - 0x8000_0000_0000_0000) as i64 + i64::MIN
    }
}

fn to_unsigned64(value: i64) -> (unsigned: u64)
    ensures
        unsigned == unsigned64(value),
{
    if value >= 0 {
        value as u64
    } else {
        (value - i64::MIN) as u64 + 0x8000_0000_0000_0000
    }
}

/// Whether the 32-bit numbers at the start of `r1` and `r2` are equal.
pub fn cmp_eq(len: usize, r1: &[u8], r2: &[u8]) -> (result: bool)
    requires
        len == 4,
        r1@.len() >= 4,
        r2@.len() >= 4,
    ensures
        result == (le_i32(r1@) == le_i32(r2@)),
{
    let first: i32 = to_signed32(interpreter::get_u32(crate::vm::api::Ref::Stack(0), r1));
    let second: i32 = to_signed32(interpreter::get_u32(crate::vm::api::Ref::Stack(0), r2));
    first == second
}

/// Whether the 32-bit number at the start of `r1` is less than that of `r2`.
pub fn cmp_le(len: usize, r1: &[u8], r2: &[u8]) -> (result: bool)
    requires
        len == 4,
        r1@.len() >= 4,
        r2@.len() >= 4,
    ensures
        result == (le_i32(r1@) < le_i32(r2@)),
{
    let first: i32 = to_signed32(interpreter::get_u32(crate::vm::api::Ref::Stack(0), r1));
    let second: i32 = to_signed32(interpreter::get_u32(crate::vm::api::Ref::Stack(0), r2));
    first < second
}

/// Whether the 32-bit number at the start of `r1` is greater than that of
/// `r2`.
pub fn cmp_gt(len: usize, r1: &[u8], r2: &[u8]) -> (result: bool)
    requires
        len == 4,
        r1@.len() >= 4,
        r2@.len() >= 4,
    ensures
        result == (le_i32(r1@) > le_i32(r2@)),
{
    let first: i32 = to_signed32(interpreter::get_u32(crate::vm::api::Ref::Stack(0), r1));
    let second: i32 = to_signed32(interpreter::get_u32(crate::vm::api::Ref::Stack(0), r2));
    first > second
}

/// The number that `bytes` stand for, where they are four.
pub fn bytes_as_i32(bytes: &[u8]) -> (result: Option<i32>)
    ensures
        result == if bytes@.len() == 4 {
            Some(le_i32(bytes@))
        } else {
            None
        },
{
    if bytes.len() != 4 {
        return None;
    }
    get_i32(bytes)
}

/// The 32-bit number at the start of `bytes`.
pub fn get_i32(bytes: &[u8]) -> (result: Option<i32>)
    requires
        bytes@.len() >= 4,
    ensures
        result == Some(le_i32(bytes@)),
{
    Some(to_signed32(interpreter::get_u32(crate::vm::api::Ref::Stack(0), bytes)))
}

/// Writes `value` at the start of `bytes`.
pub fn put_i32(bytes: &mut [u8], value: i32)
    requires
        old(bytes)@.len() >= 4,
    ensures
        final(bytes)@ == interpreter::splice(old(bytes)@, 0, i32_le(value)),
{
    interpreter::put_u32(crate::vm::api::Ref::Stack(0), bytes, to_unsigned32(value))
}

/// The number that `bytes` stand for, where they are eight.
pub fn bytes_as_i64(bytes: &[u8]) -> (result: Option<i64>)
    ensures
        result == if bytes@.len() == 8 {
            Some(le_i64(bytes@))
        } else {
            None
        },
{
    if bytes.len() != 8 {
        return None;
    }
    get_i64(bytes)
}

/// The 64-bit number at the start of `bytes`.
pub fn get_i64(bytes: &[u8]) -> (result: Option<i64>)
    requires
        bytes@.len() >= 8,
    ensures
        result == Some(le_i64(bytes@)),
{
    Some(to_signed64(interpreter::get_u64(crate::vm::api::Ref::Stack(0), bytes)))
}

/// Writes `value` at the start of `bytes`.
pub fn put_i64(bytes: &mut [u8], value: i64)
    requires
        old(bytes)@.len() >= 8,
    ensures
        final(bytes)@ == interpreter::splice(old(bytes)@, 0, i64_le(value)),
{
    interpreter::put_u64(crate::vm::api::Ref::Stack(0), bytes, to_unsigned64(value))
}

/// The four bytes of `value`, least significant first.
pub fn bytes_from_i32(value: i32) -> (bytes: Vec<u8>)
    ensures
        bytes@ == i32_le(value),
{
    let mut bytes: Vec<u8> = Vec::new();
    bytes.push(0);
    bytes.push(0);
    bytes.push(0);
    bytes.push(0);
    put_i32(bytes.as_mut_slice(), value);
    assert(bytes@ =~= i32_le(value));
    bytes
}

/// The eight bytes of `value`, least significant first.
pub fn bytes_from_i64(value: i64) -> (bytes: Vec<u8>)
    ensures
        bytes@ == i64_le(value),
{
    let mut bytes: Vec<u8> = Vec::new();
    let mut i: usize = 0;
    while i < 8
        invariant
            i <= 8,
            bytes@.len() == i,
        decreases 8 - i,
    {
        bytes.push(0);
        i += 1;
    }
    put_i64(bytes.as_mut_slice(), value);
    assert(bytes@ =~= i64_le(value));
    bytes
}

/// The text of `bytes` in base 64, with the standard alphabet and padding.
pub uninterp spec fn base64_of(bytes: Seq<u8>) -> Seq<char>;

/// Stands for `base64::encode`, which encodes its input as base 64 with the
/// standard alphabet and padding: the text depends on the bytes alone.
#[verifier::external_body]
fn encode_base64(bytes: &[u8]) -> (text: String)
    ensures
        text@ == base64_of(bytes@),
{
    #[allow(deprecated)]
    base64::encode(bytes)
}

/// The text of `bytes` in base 64.
pub fn bytes_as_base64(bytes: &[u8]) -> (text: String)
    ensures
        text@ == base64_of(bytes@),
{
    encode_base64(bytes)
}

/// An ASCII letter or digit, or ASCII white space.
pub open spec fn is_plain(byte: u8) -> bool {
    ||| 0x30 <= byte <= 0x39
    ||| 0x41 <= byte <= 0x5a
    ||| 0x61 <= byte <= 0x7a
    ||| byte == 0x20
    ||| byte == 0x09
    ||| byte == 0x0a
    ||| byte == 0x0c
    ||| byte == 0x0d
}

/// Every byte is an ASCII letter or digit, or ASCII white space.
pub open spec fn all_plain(bytes: Seq<u8>) -> bool {
    forall|at: int| 0 <= at < bytes.len() ==> is_plain(#[trigger] bytes[at])
}

/// The characters that ASCII bytes stand for.
pub open spec fn ascii_text(bytes: Seq<u8>) -> Seq<char> {
    Seq::new(bytes.len(), |at: int| bytes[at] as char)
}

/// Stands for std's `String::from_utf8`: the text that the bytes are in
/// UTF-8, and none where they are not valid UTF-8. Bytes below 128 are valid,
/// and the text then has one character for each byte, with the byte's
/// number.
#[verifier::external_body]
pub(crate) fn text_of_utf8(bytes: Vec<u8>) -> (text: Option<String>)
    ensures
        text is Some <==> vstd::utf8::valid_utf8(bytes@),
        text is Some ==> text->Some_0@ == vstd::utf8::decode_utf8(bytes@),
        (forall|at: int| 0 <= at < bytes@.len() ==> bytes@[at] < 0x80) ==> text is Some
            && text->Some_0@ == ascii_text(bytes@),
{
    String::from_utf8(bytes).ok()
}

/// The text that `bytes` are, where each of them is an ASCII letter or
/// digit or ASCII white space.
pub fn bytes_as_string(bytes: &[u8]) -> (result: Option<String>)
    ensures
        result is Some <==> all_plain(bytes@),
        result matches Some(text) ==> text@ == ascii_text(bytes@),
{
    let mut copy: Vec<u8> = Vec::new();
    let mut at: usize = 0;
    while at < bytes.len()
        invariant
            at <= bytes@.len(),
            copy@ == bytes@.take(at as int),
            all_plain(bytes@.take(at as int)),
        decreases bytes@.len() - at,
    {
        let byte: u8 = bytes[at];
        let plain = (0x30 <= byte && byte <= 0x39) || (0x41 <= byte && byte <= 0x5a) || (0x61
            <= byte && byte <= 0x7a) || byte == 0x20 || byte == 0x09 || byte == 0x0a || byte
            == 0x0c || byte == 0x0d;
        if !plain {
            return None;
        }
        copy.push(byte);
        at += 1;
        assert(copy@ =~= bytes@.take(at as int));
    }
    assert(bytes@.take(at as int) =~= bytes@);
    text_of_utf8(copy)
}

/// What `text` says of `bytes`: the text itself where the bytes are plain
/// text; else the number in decimal where they are four bytes; else the
/// number in decimal, followed by `_L`, where they are eight; else the bytes
/// in base 64.
pub open spec fn describes(bytes: Seq<u8>, text: String) -> bool {
    if all_plain(bytes) {
        text@ == ascii_text(bytes)
    } else if bytes.len() == 4 {
        vstd::string::to_string_from_display_ensures::<i32>(&le_i32(bytes), text)
    } else if bytes.len() == 8 {
        exists|number: String|
            vstd::string::to_string_from_display_ensures::<i64>(&le_i64(bytes), number) && text@
                == number@ + "_L"@
    } else {
        text@ == base64_of(bytes)
    }
}

/// A text for `bytes`, as readable as the bytes allow.
pub fn bytes_to_string(bytes: &[u8]) -> (text: String)
    ensures
        describes(bytes@, text),
{
    if let Some(s) = bytes_as_string(bytes) {
        return s;
    }
    if let Some(number) = bytes_as_i32(bytes) {
        return number.to_string();
    }
    if let Some(number) = bytes_as_i64(bytes) {
        let digits = number.to_string();
        return digits.concat("_L");
    }
    bytes_as_base64(bytes)
}

} // verus!
