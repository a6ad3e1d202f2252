//! The encoding of the branch instructions of AArch64.

use crate::vm::interpreter;
use dynasmrt::aarch64::Aarch64Relocation;
use dynasmrt::relocations::{ImpossibleRelocation, Relocation};
use vstd::prelude::*;

verus! {

/// The error of dynasmrt for a value that a relocation cannot hold.
#[verifier::external_type_specification]
#[verifier::external_body]
pub struct ExImpossibleRelocation(ImpossibleRelocation);

/// The encoding of the relocation of `b` and `bl`: a distance of 26 bits,
/// counted in words.
pub const RELOCATION_B: u8 = 4;

/// The encoding of the relocation of `b.cond`: a distance of 19 bits,
/// counted in words.
pub const RELOCATION_BCOND: u8 = 5;

/// The instruction `b` with distance 0.
pub const TEMPLATE_B: u32 = 0x1400_0000;

/// The instruction `b.ne` with distance 0.
pub const TEMPLATE_BNE: u32 = 0x5400_0001;

/// Whether the distance `value`, in bytes, can be written into a relocation
/// with the encoding `encoding`: it is a whole number of words that fits in
/// the relocation's bits as a signed number.
pub open spec fn relocation_fits(encoding: u8, value: int) -> bool {
    &&& value % 4 == 0
    &&& if encoding == RELOCATION_B {
        -0x200_0000 <= value / 4 < 0x200_0000
    } else {
        -0x4_0000 <= value / 4 < 0x4_0000
    }
}

/// The instruction word `template` with the distance `value` written into
/// the bits of the relocation, the other bits kept.
pub open spec fn relocated_word(encoding: u8, template: u32, value: int) -> u32 {
    if encoding == RELOCATION_B {
        (template / 0x400_0000 * 0x400_0000 + (value / 4) % 0x400_0000) as u32
    } else {
        (template / 0x100_0000 * 0x100_0000 + template % 0x20 + (value / 4) % 0x8_0000 * 0x20) as u32
    }
}

/// Stands for dynasmrt's `Relocation::write_value` on the `Aarch64Relocation`
/// that `from_encoding` makes of `encoding`, for the encodings of `b` and
/// `b.cond`. The call reads the instruction word in `bytes`, little-endian;
/// it fails, and leaves the bytes, where the distance is no whole number of
/// words or does not fit in the relocation's bits; otherwise it writes the
/// word back with the distance, in words, in those bits.
#[verifier::external_body]
fn write_relocation(encoding: u8, bytes: &mut Vec<u8>, value: isize) -> (result: Result<
    (),
    ImpossibleRelocation,
>)
    requires
        encoding == RELOCATION_B || encoding == RELOCATION_BCOND,
        old(bytes)@.len() == 4,
    ensures
        result is Ok <==> relocation_fits(encoding, value as int),
        result is Ok ==> final(bytes)@ == interpreter::u32_le(
            relocated_word(encoding, interpreter::le_u32(old(bytes)@, 0), value as int),
        ),
        result is Err ==> final(bytes)@ == old(bytes)@,
{
    Aarch64Relocation::from_encoding(encoding).write_value(bytes.as_mut_slice(), value)
}

/// A distance that no branch instruction can hold.
#[derive(Debug, Clone, Copy, PartialEq, Eq, Structural)]
pub struct OutOfRange {
    pub distance: isize,
}

/// The bytes of the instruction `template` with the distance `value`.
fn relocated(encoding: u8, template: u32, value: isize) -> (result: Result<Vec<u8>, OutOfRange>)
    requires
        encoding == RELOCATION_B || encoding == RELOCATION_BCOND,
    ensures
        result is Ok <==> relocation_fits(encoding, value as int),
        result matches Ok(bytes) ==> bytes@ == interpreter::u32_le(
            relocated_word(encoding, template, value as int),
        ),
        result matches Err(error) ==> error.distance == value,
{
    let mut bytes: Vec<u8> = Vec::new();
    bytes.push((template % 0x100) as u8);
    bytes.push((template / 0x100 % 0x100) as u8);
    bytes.push((template / 0x1_0000 % 0x100) as u8);
    bytes.push((template / 0x100_0000) as u8);
    proof {
        assert(bytes@ =~= interpreter::u32_le(template));
        interpreter::lemma_u32_le_round_trip(template);
    }
    match write_relocation(encoding, &mut bytes, value) {
        Ok(()) => Ok(bytes),
        Err(_) => Err(OutOfRange { distance: value }),
    }
}

/// The bytes of the unconditional branch over `rel_dst` bytes, least
/// significant first: the instruction word is `0x14000000` plus the
/// distance in words, taken modulo 2^26. A distance that is no whole number
/// of words, or is 128 MiB or more away, is out of range.
pub fn b(rel_dst: isize) -> (result: Result<Vec<u8>, OutOfRange>)
    ensures
        result is Ok <==> rel_dst % 4 == 0 && -0x800_0000 <= rel_dst < 0x800_0000,
        result matches Ok(bytes) ==> bytes@ == interpreter::u32_le(
            (0x1400_0000 + (rel_dst / 4) % 0x400_0000) as u32,
        ),
        result matches Err(error) ==> error.distance == rel_dst,
{
    relocated(RELOCATION_B, TEMPLATE_B, rel_dst)
}

/// The bytes of the branch over `offset` bytes that is taken where the last
/// comparison found a difference: the instruction word is `0x54000001` plus
/// 32 times the distance in words, taken modulo 2^19. A distance that is no
/// whole number of words, or is 1 MiB or more away, is out of range.
pub fn bne(offset: isize) -> (result: Result<Vec<u8>, OutOfRange>)
    ensures
        result is Ok <==> offset % 4 == 0 && -0x10_0000 <= offset < 0x10_0000,
        result matches Ok(bytes) ==> bytes@ == interpreter::u32_le(
            (0x5400_0001 + (offset / 4) % 0x8_0000 * 0x20) as u32,
        ),
        result matches Err(error) ==> error.distance == offset,
{
    relocated(RELOCATION_BCOND, TEMPLATE_BNE, offset)
}

} // verus!
