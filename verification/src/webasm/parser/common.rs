//! Reading the binary format of WebAssembly: bytes, numbers in LEB128,
//! vectors and names.

use crate::lang::operations;
use vstd::prelude::*;

verus! {

/// Why a module could not be read.
#[derive(Debug, Clone, Copy, PartialEq, Eq, Structural)]
pub enum Error {
    /// The bytes end before what is read does.
    UnexpectedEnd,
    /// A number is larger than 64 bits can hold.
    Overflow,
    /// A number does not fit where it belongs.
    OutOfRange,
    /// A name is not valid UTF-8.
    InvalidText,
    /// The module uses what this front end does not know.
    Unsupported,
    /// The module is not well formed.
    Malformed,
}

pub type Result<T> = core::result::Result<T, Error>;

/// The bytes of a module, and the position up to which they were read.
pub struct Reader<'a> {
    bytes: &'a [u8],
    at: usize,
}

impl<'a> Reader<'a> {
    /// All the bytes.
    pub closed spec fn input(&self) -> Seq<u8> {
        self.bytes@
    }

    /// The position of the next byte to read.
    pub closed spec fn position(&self) -> int {
        self.at as int
    }

    /// The position lies within the bytes, or at their end.
    pub closed spec fn well_formed(&self) -> bool {
        self.at <= self.bytes@.len()
    }

    pub fn new(bytes: &'a [u8]) -> (reader: Reader<'a>)
        ensures
            reader.well_formed(),
            reader.input() == bytes@,
            reader.position() == 0,
    {
        Reader { bytes, at: 0 }
    }

    /// The position of the next byte to read.
    pub fn stream_position(&self) -> (at: usize)
        ensures
            at == self.position(),
    {
        self.at
    }

    /// The number of bytes in all.
    pub fn len(&self) -> (len: usize)
        ensures
            len == self.input().len(),
    {
        self.bytes.len()
    }

    /// Goes on reading at `at`.
    pub fn seek(&mut self, at: usize)
        requires
            at <= old(self).input().len(),
        ensures
            final(self).well_formed(),
            final(self).input() == old(self).input(),
            final(self).position() == at,
    {
        self.at = at;
    }
}

/// What a reading function has done: it has left the input as it was, and
/// where `expected` is a value with the position after it, it has returned
/// the value and stands at that position; where `expected` is an error, it
/// has returned that error.
pub open spec fn has_read<T>(
    before: Reader,
    after: Reader,
    result: Result<T>,
    expected: Result<(T, int)>,
) -> bool {
    &&& after.well_formed()
    &&& after.input() == before.input()
    &&& match expected {
        Ok((value, end)) => result == Ok::<T, Error>(value) && after.position() == end,
        Err(error) => result == Err::<T, Error>(error),
    }
}

/// The byte at `at`.
pub open spec fn u8_decoded(bytes: Seq<u8>, at: int) -> Result<(u8, int)> {
    if 0 <= at < bytes.len() {
        Ok((bytes[at], at + 1))
    } else {
        Err(Error::UnexpectedEnd)
    }
}

pub fn read_u8(src: &mut Reader) -> (result: Result<u8>)
    requires
        old(src).well_formed(),
    ensures
        has_read(*old(src), *final(src), result, u8_decoded(old(src).input(), old(src).position())),
{
    if src.at < src.bytes.len() {
        let byte: u8 = src.bytes[src.at];
        src.at += 1;
        Ok(byte)
    } else {
        Err(Error::UnexpectedEnd)
    }
}

/// The position of the first byte from `at` on that ends a number in
/// LEB128: the first that is below 128.
pub open spec fn leb_end(bytes: Seq<u8>, at: int) -> Option<int>
    decreases bytes.len() - at,
{
    if at < 0 || at >= bytes.len() {
        None
    } else if bytes[at] < 0x80 {
        Some(at)
    } else {
        leb_end(bytes, at + 1)
    }
}

/// The number whose digits to the base 128 are the low seven bits of the
/// bytes from `at` up to `last`, least significant first.
pub open spec fn leb_digits(bytes: Seq<u8>, at: int, last: int) -> nat
    decreases last - at + 1,
{
    if at > last {
        0
    } else {
        (bytes[at] % 0x80) as nat + 0x80 * leb_digits(bytes, at + 1, last)
    }
}

/// The unsigned 64-bit number that is written at `at` in LEB128, and the
/// position after it. A number of ten bytes must end in 0 or 1; longer ones
/// overflow.
pub open spec fn unsigned_decoded(bytes: Seq<u8>, at: int) -> Result<(u64, int)> {
    match leb_end(bytes, at) {
        None => Err(Error::UnexpectedEnd),
        Some(last) => if last - at < 9 || (last - at == 9 && bytes[last] <= 1) {
            Ok((leb_digits(bytes, at, last) as u64, last + 1))
        } else {
            Err(Error::Overflow)
        },
    }
}

/// 128 to the power of `count`.
pub open spec fn leb_scale(count: nat) -> nat
    decreases count,
{
    if count == 0 {
        1
    } else {
        0x80 * leb_scale((count - 1) as nat)
    }
}

/// The signed 64-bit number that is written at `at` in LEB128, and the
/// position after it: the digits stand for a number in two's complement of
/// seven bits for each byte. A number of ten bytes must end in 0 or 127;
/// longer ones overflow.
pub open spec fn signed_decoded(bytes: Seq<u8>, at: int) -> Result<(i64, int)> {
    match leb_end(bytes, at) {
        None => Err(Error::UnexpectedEnd),
        Some(last) => if last - at < 9 {
            if bytes[last] >= 0x40 {
                Ok(
                    (
                        (leb_digits(bytes, at, last) - leb_scale((last - at + 1) as nat)) as i64,
                        last + 1,
                    ),
                )
            } else {
                Ok((leb_digits(bytes, at, last) as i64, last + 1))
            }
        } else if last - at == 9 && bytes[last] == 0 {
            Ok((leb_digits(bytes, at, last - 1) as i64, last + 1))
        } else if last - at == 9 && bytes[last] == 0x7f {
            Ok(((leb_digits(bytes, at, last - 1) - 0x8000_0000_0000_0000) as i64, last + 1))
        } else {
            Err(Error::Overflow)
        },
    }
}

/// Stands for `leb128::read::unsigned` on the bytes from `at` on: the bytes
/// are read up to the first that is below 128, and their low seven bits are
/// the digits of the number, least significant first. The call fails at the
/// end of the bytes, and it reports an overflow where ten bytes or more
/// were read and the tenth is not 0 or 1.
#[verifier::external_body]
fn leb128_unsigned(bytes: &[u8], at: usize) -> (result: Result<(u64, usize)>)
    requires
        at <= bytes@.len(),
    ensures
        match unsigned_decoded(bytes@, at as int) {
            Ok((value, end)) => result == Ok::<(u64, usize), Error>((value, end as usize)),
            Err(error) => result == Err::<(u64, usize), Error>(error),
        },
{
    let mut cursor = std::io::Cursor::new(bytes);
    cursor.set_position(at as u64);
    match leb128::read::unsigned(&mut cursor) {
        Ok(value) => Ok((value, cursor.position() as usize)),
        Err(leb128::read::Error::IoError(_)) => Err(Error::UnexpectedEnd),
        Err(leb128::read::Error::Overflow) => Err(Error::Overflow),
    }
}

/// Stands for `leb128::read::signed` on the bytes from `at` on: the bytes
/// are read up to the first that is below 128, and their low seven bits are
/// the digits of the number in two's complement, least significant first.
/// The call fails at the end of the bytes, and it reports an overflow where
/// ten bytes or more were read and the tenth is not 0 or 127.
#[verifier::external_body]
fn leb128_signed(bytes: &[u8], at: usize) -> (result: Result<(i64, usize)>)
    requires
        at <= bytes@.len(),
    ensures
        match signed_decoded(bytes@, at as int) {
            Ok((value, end)) => result == Ok::<(i64, usize), Error>((value, end as usize)),
            Err(error) => result == Err::<(i64, usize), Error>(error),
        },
{
    let mut cursor = std::io::Cursor::new(bytes);
    cursor.set_position(at as u64);
    match leb128::read::signed(&mut cursor) {
        Ok(value) => Ok((value, cursor.position() as usize)),
        Err(leb128::read::Error::IoError(_)) => Err(Error::UnexpectedEnd),
        Err(leb128::read::Error::Overflow) => Err(Error::Overflow),
    }
}

/// The end of a number lies within the bytes.
pub proof fn lemma_leb_end_in_range(bytes: Seq<u8>, at: int)
    ensures
        leb_end(bytes, at) matches Some(last) ==> 0 <= at <= last < bytes.len(),
    decreases bytes.len() - at,
{
    if 0 <= at < bytes.len() && bytes[at] >= 0x80 {
        lemma_leb_end_in_range(bytes, at + 1);
    }
}

/// The unsigned 32-bit number that is written at `at` in LEB128.
pub open spec fn u32_decoded(bytes: Seq<u8>, at: int) -> Result<(u32, int)> {
    match unsigned_decoded(bytes, at) {
        Ok((value, end)) => if value <= u32::MAX {
            Ok((value as u32, end))
        } else {
            Err(Error::OutOfRange)
        },
        Err(error) => Err(error),
    }
}

/// The signed 32-bit number that is written at `at` in LEB128.
pub open spec fn i32_decoded(bytes: Seq<u8>, at: int) -> Result<(i32, int)> {
    match signed_decoded(bytes, at) {
        Ok((value, end)) => if i32::MIN <= value <= i32::MAX {
            Ok((value as i32, end))
        } else {
            Err(Error::OutOfRange)
        },
        Err(error) => Err(error),
    }
}

pub fn read_u32(src: &mut Reader) -> (result: Result<u32>)
    requires
        old(src).well_formed(),
    ensures
        has_read(
            *old(src),
            *final(src),
            result,
            u32_decoded(old(src).input(), old(src).position()),
        ),
{
    let len: usize = src.bytes.len();
    proof {
        lemma_leb_end_in_range(src.bytes@, src.at as int);
    }
    match leb128_unsigned(src.bytes, src.at) {
        Ok((value, end)) => {
            src.at = end;
            if value <= u32::MAX as u64 {
                Ok(value as u32)
            } else {
                Err(Error::OutOfRange)
            }
        },
        Err(error) => Err(error),
    }
}

pub fn read_i32(src: &mut Reader) -> (result: Result<i32>)
    requires
        old(src).well_formed(),
    ensures
        has_read(
            *old(src),
            *final(src),
            result,
            i32_decoded(old(src).input(), old(src).position()),
        ),
{
    let len: usize = src.bytes.len();
    proof {
        lemma_leb_end_in_range(src.bytes@, src.at as int);
    }
    match leb128_signed(src.bytes, src.at) {
        Ok((value, end)) => {
            src.at = end;
            if i32::MIN as i64 <= value && value <= i32::MAX as i64 {
                Ok(value as i32)
            } else {
                Err(Error::OutOfRange)
            }
        },
        Err(error) => Err(error),
    }
}

pub fn read_i64(src: &mut Reader) -> (result: Result<i64>)
    requires
        old(src).well_formed(),
    ensures
        has_read(
            *old(src),
            *final(src),
            result,
            signed_decoded(old(src).input(), old(src).position()),
        ),
{
    let len: usize = src.bytes.len();
    proof {
        lemma_leb_end_in_range(src.bytes@, src.at as int);
    }
    match leb128_signed(src.bytes, src.at) {
        Ok((value, end)) => {
            src.at = end;
            Ok(value)
        },
        Err(error) => Err(error),
    }
}

/// What can be read from the bytes of a module.
pub trait Readable: Sized {
    /// What a value is, mathematically.
    type Model;

    spec fn model(&self) -> Self::Model;

    /// The value that is written at `at`, and the position after it.
    spec fn decoded(bytes: Seq<u8>, at: int) -> Result<(Self::Model, int)>;

    /// What is written at `at` ends within the bytes, and not before `at`.
    proof fn lemma_decoded_in_range(bytes: Seq<u8>, at: int)
        requires
            0 <= at <= bytes.len(),
        ensures
            Self::decoded(bytes, at) matches Ok(found) ==> at <= found.1 <= bytes.len(),
    ;

    fn read(src: &mut Reader) -> (result: Result<Self>)
        requires
            old(src).well_formed(),
        ensures
            final(src).well_formed(),
            final(src).input() == old(src).input(),
            match Self::decoded(old(src).input(), old(src).position()) {
                Ok((model, end)) => result is Ok && result->Ok_0.model() == model && final(src).position() == end,
                Err(error) => result == Err::<Self, Error>(error),
            },
    ;
}

/// `count` values, one after the other, from `at` on.
pub open spec fn elements_decoded<T: Readable>(bytes: Seq<u8>, at: int, count: nat) -> Result<
    (Seq<T::Model>, int),
>
    decreases count,
{
    if count == 0 {
        Ok((Seq::empty(), at))
    } else {
        match T::decoded(bytes, at) {
            Ok((first, next)) => match elements_decoded::<T>(bytes, next, (count - 1) as nat) {
                Ok((rest, end)) => Ok((seq![first] + rest, end)),
                Err(error) => Err(error),
            },
            Err(error) => Err(error),
        }
    }
}

/// A vector of values: their number, and then the values.
pub open spec fn vector_decoded<T: Readable>(bytes: Seq<u8>, at: int) -> Result<
    (Seq<T::Model>, int),
> {
    match u32_decoded(bytes, at) {
        Ok((count, next)) => elements_decoded::<T>(bytes, next, count as nat),
        Err(error) => Err(error),
    }
}

/// The models of the values.
pub open spec fn models<T: Readable>(values: Seq<T>) -> Seq<T::Model> {
    Seq::new(values.len(), |at: int| values[at].model())
}

/// `done` in front of what `rest` holds.
pub open spec fn joined<M>(done: Seq<M>, rest: Result<(Seq<M>, int)>) -> Result<(Seq<M>, int)> {
    match rest {
        Ok((values, end)) => Ok((done + values, end)),
        Err(error) => Err(error),
    }
}

pub proof fn lemma_u32_decoded_in_range(bytes: Seq<u8>, at: int)
    requires
        0 <= at <= bytes.len(),
    ensures
        u32_decoded(bytes, at) matches Ok(found) ==> at < found.1 <= bytes.len(),
        signed_decoded(bytes, at) matches Ok(found) ==> at < found.1 <= bytes.len(),
        i32_decoded(bytes, at) matches Ok(found) ==> at < found.1 <= bytes.len(),
        unsigned_decoded(bytes, at) matches Ok(found) ==> at < found.1 <= bytes.len(),
{
    lemma_leb_end_in_range(bytes, at);
}

pub proof fn lemma_elements_in_range<T: Readable>(bytes: Seq<u8>, at: int, count: nat)
    requires
        0 <= at <= bytes.len(),
    ensures
        elements_decoded::<T>(bytes, at, count) matches Ok(found) ==> at <= found.1 <= bytes.len()
            && found.0.len() == count,
    decreases count,
{
    if count > 0 {
        T::lemma_decoded_in_range(bytes, at);
        match T::decoded(bytes, at) {
            Ok((first, next)) => {
                lemma_elements_in_range::<T>(bytes, next, (count - 1) as nat);
            },
            Err(_) => {},
        }
    }
}

pub proof fn lemma_vector_in_range<T: Readable>(bytes: Seq<u8>, at: int)
    requires
        0 <= at <= bytes.len(),
    ensures
        vector_decoded::<T>(bytes, at) matches Ok(found) ==> at < found.1 <= bytes.len(),
{
    lemma_u32_decoded_in_range(bytes, at);
    match u32_decoded(bytes, at) {
        Ok((count, next)) => {
            lemma_elements_in_range::<T>(bytes, next, count as nat);
        },
        Err(_) => {},
    }
}

/// Reads a vector: the number of its elements, and then the elements.
pub fn read_vector<T: Readable>(src: &mut Reader) -> (result: Result<Vec<T>>)
    requires
        old(src).well_formed(),
    ensures
        final(src).well_formed(),
        final(src).input() == old(src).input(),
        match vector_decoded::<T>(old(src).input(), old(src).position()) {
            Ok((found, end)) => result is Ok && models(result->Ok_0@) == found && final(src).position() == end,
            Err(error) => result == Err::<Vec<T>, Error>(error),
        },
{
    let ghost bytes = src.input();
    let len = match read_u32(src) {
        Ok(len) => len,
        Err(error) => {
            return Err(error);
        },
    };
    let ghost start = src.position();
    let mut result: Vec<T> = Vec::new();
    let mut done: u32 = 0;
    assert(models(result@) =~= Seq::<T::Model>::empty());
    while done < len
        invariant
            done <= len,
            src.well_formed(),
            src.input() == bytes,
            bytes == old(src).input(),
            vector_decoded::<T>(bytes, old(src).position()) == elements_decoded::<T>(
                bytes,
                start,
                len as nat,
            ),
            result@.len() == done,
            elements_decoded::<T>(bytes, start, len as nat) == joined(
                models(result@),
                elements_decoded::<T>(bytes, src.position(), (len - done) as nat),
            ),
        decreases len - done,
    {
        let ghost before = models(result@);
        let ghost at = src.position();
        match T::read(src) {
            Ok(value) => {
                result.push(value);
                proof {
                    assert(models(result@) =~= before.push(value.model()));
                    match elements_decoded::<T>(bytes, src.position(), (len - done - 1) as nat) {
                        Ok((rest, end)) => {
                            assert(before + (seq![value.model()] + rest) =~= before.push(
                                value.model(),
                            ) + rest);
                        },
                        Err(_) => {},
                    }
                }
            },
            Err(error) => {
                return Err(error);
            },
        }
        done += 1;
    }
    assert(models(result@) + Seq::<T::Model>::empty() =~= models(result@));
    Ok(result)
}

impl Readable for u8 {
    type Model = u8;

    open spec fn model(&self) -> u8 {
        *self
    }

    open spec fn decoded(bytes: Seq<u8>, at: int) -> Result<(u8, int)> {
        u8_decoded(bytes, at)
    }

    proof fn lemma_decoded_in_range(bytes: Seq<u8>, at: int) {
    }

    fn read(src: &mut Reader) -> (result: Result<u8>) {
        read_u8(src)
    }
}

/// The name that is written at `at`: a vector of bytes that are text in
/// UTF-8.
pub open spec fn string_decoded(bytes: Seq<u8>, at: int) -> Result<(Seq<char>, int)> {
    match vector_decoded::<u8>(bytes, at) {
        Ok((text, end)) => if vstd::utf8::valid_utf8(text) {
            Ok((vstd::utf8::decode_utf8(text), end))
        } else {
            Err(Error::InvalidText)
        },
        Err(error) => Err(error),
    }
}

pub fn read_string(src: &mut Reader) -> (result: Result<String>)
    requires
        old(src).well_formed(),
    ensures
        final(src).well_formed(),
        final(src).input() == old(src).input(),
        match string_decoded(old(src).input(), old(src).position()) {
            Ok((text, end)) => result is Ok && result->Ok_0@ == text && final(src).position()
                == end,
            Err(error) => result == Err::<String, Error>(error),
        },
{
    let bytes: Vec<u8> = match read_vector::<u8>(src) {
        Ok(bytes) => bytes,
        Err(error) => {
            return Err(error);
        },
    };
    assert(models(bytes@) =~= bytes@);
    match operations::text_of_utf8(bytes) {
        Some(text) => Ok(text),
        None => Err(Error::InvalidText),
    }
}

} // verus!
