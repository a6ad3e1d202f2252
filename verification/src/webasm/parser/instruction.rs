//! Reading instructions and their operands.

use crate::webasm::ast::{FuncIdx, Instruction, LocalIdx, NumType};
use crate::webasm::parser::common;
use crate::webasm::parser::common::{read_i32, read_i64, read_u32, Error, Reader, Result};
use vstd::prelude::*;

verus! {

/// The instruction with the opcode `opcode` whose operands are written at
/// `at`, for the instructions that open no block.
pub open spec fn non_blocked_decoded(bytes: Seq<u8>, at: int, opcode: u8) -> Result<
    (Instruction, int),
> {
    if opcode == 0x01 {
        Ok((Instruction::Nop, at))
    } else if opcode == 0x0F {
        Ok((Instruction::Return, at))
    } else if opcode == 0x10 {
        match common::u32_decoded(bytes, at) {
            Ok((idx, end)) => Ok((Instruction::Call(FuncIdx(idx)), end)),
            Err(error) => Err(error),
        }
    } else if opcode == 0x20 {
        match common::u32_decoded(bytes, at) {
            Ok((idx, end)) => Ok((Instruction::LocalGet(LocalIdx(idx)), end)),
            Err(error) => Err(error),
        }
    } else if opcode == 0x41 {
        match common::i32_decoded(bytes, at) {
            Ok((value, end)) => Ok((Instruction::I32Const(value), end)),
            Err(error) => Err(error),
        }
    } else if opcode == 0x42 {
        match common::signed_decoded(bytes, at) {
            Ok((value, end)) => Ok((Instruction::I64Const(value), end)),
            Err(error) => Err(error),
        }
    } else if opcode == 0x46 {
        Ok((Instruction::Eq(NumType::I32), at))
    } else if opcode == 0x51 {
        Ok((Instruction::Eq(NumType::I64), at))
    } else if opcode == 0x6A {
        Ok((Instruction::Add(NumType::I32), at))
    } else if opcode == 0x6B {
        Ok((Instruction::Sub(NumType::I32), at))
    } else if opcode == 0x7C {
        Ok((Instruction::Add(NumType::I64), at))
    } else if opcode == 0x7D {
        Ok((Instruction::Sub(NumType::I64), at))
    } else {
        Err(Error::Unsupported)
    }
}

impl Instruction {
    /// Reads the operands of the instruction with the opcode `opcode`, which
    /// opens no block.
    pub fn read_non_blocked(src: &mut Reader, opcode: u8) -> (result: Result<Instruction>)
        requires
            old(src).well_formed(),
        ensures
            common::has_read(
                *old(src),
                *final(src),
                result,
                non_blocked_decoded(old(src).input(), old(src).position(), opcode),
            ),
    {
        match opcode {
            0x01 => Ok(Instruction::Nop),
            0x0F => Ok(Instruction::Return),
            0x10 => match FuncIdx::read(src) {
                Ok(idx) => Ok(Instruction::Call(idx)),
                Err(error) => Err(error),
            },
            0x20 => match LocalIdx::read(src) {
                Ok(idx) => Ok(Instruction::LocalGet(idx)),
                Err(error) => Err(error),
            },
            0x41 => match read_i32(src) {
                Ok(value) => Ok(Instruction::I32Const(value)),
                Err(error) => Err(error),
            },
            0x42 => match read_i64(src) {
                Ok(value) => Ok(Instruction::I64Const(value)),
                Err(error) => Err(error),
            },
            0x46 => Ok(Instruction::Eq(NumType::I32)),
            0x51 => Ok(Instruction::Eq(NumType::I64)),
            0x6A => Ok(Instruction::Add(NumType::I32)),
            0x6B => Ok(Instruction::Sub(NumType::I32)),
            0x7C => Ok(Instruction::Add(NumType::I64)),
            0x7D => Ok(Instruction::Sub(NumType::I64)),
            _ => Err(Error::Unsupported),
        }
    }
}

/// The index that is written at `at`.
pub open spec fn func_idx_decoded(bytes: Seq<u8>, at: int) -> Result<(FuncIdx, int)> {
    match common::u32_decoded(bytes, at) {
        Ok((idx, end)) => Ok((FuncIdx(idx), end)),
        Err(error) => Err(error),
    }
}

/// The index that is written at `at`.
pub open spec fn local_idx_decoded(bytes: Seq<u8>, at: int) -> Result<(LocalIdx, int)> {
    match common::u32_decoded(bytes, at) {
        Ok((idx, end)) => Ok((LocalIdx(idx), end)),
        Err(error) => Err(error),
    }
}

impl LocalIdx {
    pub fn read(src: &mut Reader) -> (result: Result<LocalIdx>)
        requires
            old(src).well_formed(),
        ensures
            common::has_read(
                *old(src),
                *final(src),
                result,
                local_idx_decoded(old(src).input(), old(src).position()),
            ),
    {
        match read_u32(src) {
            Ok(idx) => Ok(LocalIdx(idx)),
            Err(error) => Err(error),
        }
    }
}

impl FuncIdx {
    pub fn read(src: &mut Reader) -> (result: Result<FuncIdx>)
        requires
            old(src).well_formed(),
        ensures
            common::has_read(
                *old(src),
                *final(src),
                result,
                func_idx_decoded(old(src).input(), old(src).position()),
            ),
    {
        match read_u32(src) {
            Ok(idx) => Ok(FuncIdx(idx)),
            Err(error) => Err(error),
        }
    }
}

} // verus!
