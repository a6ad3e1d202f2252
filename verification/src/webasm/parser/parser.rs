//! Reading types, exports, code and the module as a whole.

use crate::webasm::ast::{
    BlockType, Code, CodeSection, CodeView, Export, ExportSection, ExportTag, ExportView,
    FuncSection, FuncType, FuncTypeView, Instruction, InstructionIdx, Instructions,
    InstructionsView, Locals, Module, ModuleView, NumType, RefType, TypeIdx, TypeSection,
    UnrecognizedSection, ValType,
};
use crate::webasm::parser::common;
use crate::webasm::parser::common::{
    read_string, read_u32, read_u8, read_vector, Error, Readable, Reader, Result,
};
use crate::webasm::parser::instruction;
use vstd::prelude::*;

verus! {

/// The value type with the code `code`.
pub open spec fn val_type_of(code: u8) -> Result<ValType> {
    if code == 0x7F {
        Ok(ValType::Num(NumType::I32))
    } else if code == 0x7E {
        Ok(ValType::Num(NumType::I64))
    } else if code == 0x7D {
        Ok(ValType::Num(NumType::F32))
    } else if code == 0x7C {
        Ok(ValType::Num(NumType::F64))
    } else if code == 0x70 || code == 0x6F {
        Ok(ValType::Ref(RefType::Func))
    } else {
        Err(Error::Unsupported)
    }
}

impl Readable for ValType {
    type Model = ValType;

    open spec fn model(&self) -> ValType {
        *self
    }

    open spec fn decoded(bytes: Seq<u8>, at: int) -> Result<(ValType, int)> {
        match common::u8_decoded(bytes, at) {
            Ok((code, end)) => match val_type_of(code) {
                Ok(val_type) => Ok((val_type, end)),
                Err(error) => Err(error),
            },
            Err(error) => Err(error),
        }
    }

    proof fn lemma_decoded_in_range(bytes: Seq<u8>, at: int) {
    }

    fn read(src: &mut Reader) -> (result: Result<ValType>) {
        match read_u8(src) {
            Ok(code) => match code {
                0x7F => Ok(ValType::Num(NumType::I32)),
                0x7E => Ok(ValType::Num(NumType::I64)),
                0x7D => Ok(ValType::Num(NumType::F32)),
                0x7C => Ok(ValType::Num(NumType::F64)),
                0x70 => Ok(ValType::Ref(RefType::Func)),
                0x6F => Ok(ValType::Ref(RefType::Func)),
                _ => Err(Error::Unsupported),
            },
            Err(error) => Err(error),
        }
    }
}

impl Readable for TypeIdx {
    type Model = TypeIdx;

    open spec fn model(&self) -> TypeIdx {
        *self
    }

    open spec fn decoded(bytes: Seq<u8>, at: int) -> Result<(TypeIdx, int)> {
        match common::u32_decoded(bytes, at) {
            Ok((idx, end)) => Ok((TypeIdx(idx), end)),
            Err(error) => Err(error),
        }
    }

    proof fn lemma_decoded_in_range(bytes: Seq<u8>, at: int) {
        common::lemma_u32_decoded_in_range(bytes, at);
    }

    fn read(src: &mut Reader) -> (result: Result<TypeIdx>) {
        match read_u32(src) {
            Ok(idx) => Ok(TypeIdx(idx)),
            Err(error) => Err(error),
        }
    }
}

impl Readable for FuncType {
    type Model = FuncTypeView;

    open spec fn model(&self) -> FuncTypeView {
        self@
    }

    /// A function type is the byte 0x60, the vector of the types of the
    /// parameters and the vector of the types of the results.
    open spec fn decoded(bytes: Seq<u8>, at: int) -> Result<(FuncTypeView, int)> {
        match common::u8_decoded(bytes, at) {
            Ok((mark, next)) => if mark == 0x60 {
                match common::vector_decoded::<ValType>(bytes, next) {
                    Ok((params, middle)) => match common::vector_decoded::<ValType>(bytes, middle) {
                        Ok((results, end)) => Ok((FuncTypeView { params, results }, end)),
                        Err(error) => Err(error),
                    },
                    Err(error) => Err(error),
                }
            } else {
                Err(Error::Malformed)
            },
            Err(error) => Err(error),
        }
    }

    proof fn lemma_decoded_in_range(bytes: Seq<u8>, at: int) {
        if at < bytes.len() {
            common::lemma_vector_in_range::<ValType>(bytes, at + 1);
            match common::vector_decoded::<ValType>(bytes, at + 1) {
                Ok((params, middle)) => {
                    common::lemma_vector_in_range::<ValType>(bytes, middle);
                },
                Err(_) => {},
            }
        }
    }

    fn read(src: &mut Reader) -> (result: Result<FuncType>) {
        let ghost bytes = src.input();
        let ghost at = src.position();
        let mark = match read_u8(src) {
            Ok(mark) => mark,
            Err(error) => {
                return Err(error);
            },
        };
        if mark != 0x60 {
            return Err(Error::Malformed);
        }
        let params = match read_vector::<ValType>(src) {
            Ok(params) => params,
            Err(error) => {
                return Err(error);
            },
        };
        let results = match read_vector::<ValType>(src) {
            Ok(results) => results,
            Err(error) => {
                return Err(error);
            },
        };
        proof {
            assert(common::models(params@) =~= params@);
            assert(common::models(results@) =~= results@);
        }
        Ok(FuncType { params, results })
    }
}

/// The kind of export with the code `code`.
pub open spec fn export_tag_of(code: u8) -> Result<ExportTag> {
    if code == 0 {
        Ok(ExportTag::Func)
    } else if code == 1 {
        Ok(ExportTag::Table)
    } else if code == 2 {
        Ok(ExportTag::Mem)
    } else if code == 3 {
        Ok(ExportTag::Global)
    } else {
        Err(Error::Unsupported)
    }
}

impl Export {
    fn read_tag(src: &mut Reader) -> (result: Result<ExportTag>)
        requires
            old(src).well_formed(),
        ensures
            final(src).well_formed(),
            final(src).input() == old(src).input(),
            match common::u8_decoded(old(src).input(), old(src).position()) {
                Ok((code, end)) => match export_tag_of(code) {
                    Ok(tag) => result == Ok::<ExportTag, Error>(tag) && final(src).position() == end,
                    Err(error) => result == Err::<ExportTag, Error>(error),
                },
                Err(error) => result == Err::<ExportTag, Error>(error),
            },
    {
        match read_u8(src) {
            Ok(code) => match code {
                0 => Ok(ExportTag::Func),
                1 => Ok(ExportTag::Table),
                2 => Ok(ExportTag::Mem),
                3 => Ok(ExportTag::Global),
                _ => Err(Error::Unsupported),
            },
            Err(error) => Err(error),
        }
    }
}

impl Readable for Export {
    type Model = ExportView;

    open spec fn model(&self) -> ExportView {
        self@
    }

    /// An export is a name, the code of its kind and an index.
    open spec fn decoded(bytes: Seq<u8>, at: int) -> Result<(ExportView, int)> {
        match common::string_decoded(bytes, at) {
            Ok((name, next)) => match common::u8_decoded(bytes, next) {
                Ok((code, middle)) => match export_tag_of(code) {
                    Ok(tag) => match common::u32_decoded(bytes, middle) {
                        Ok((idx, end)) => Ok((ExportView { name, tag, idx }, end)),
                        Err(error) => Err(error),
                    },
                    Err(error) => Err(error),
                },
                Err(error) => Err(error),
            },
            Err(error) => Err(error),
        }
    }

    proof fn lemma_decoded_in_range(bytes: Seq<u8>, at: int) {
        common::lemma_vector_in_range::<u8>(bytes, at);
        match common::string_decoded(bytes, at) {
            Ok((name, next)) => {
                if next < bytes.len() {
                    common::lemma_u32_decoded_in_range(bytes, next + 1);
                }
            },
            Err(_) => {},
        }
    }

    fn read(src: &mut Reader) -> (result: Result<Export>) {
        let name = match read_string(src) {
            Ok(name) => name,
            Err(error) => {
                return Err(error);
            },
        };
        let tag = match Export::read_tag(src) {
            Ok(tag) => tag,
            Err(error) => {
                return Err(error);
            },
        };
        let idx = match read_u32(src) {
            Ok(idx) => idx,
            Err(error) => {
                return Err(error);
            },
        };
        Ok(Export { name, tag, idx })
    }
}

impl Readable for Locals {
    type Model = Locals;

    open spec fn model(&self) -> Locals {
        *self
    }

    /// A run of locals is their number and their type.
    open spec fn decoded(bytes: Seq<u8>, at: int) -> Result<(Locals, int)> {
        match common::u32_decoded(bytes, at) {
            Ok((n, next)) => match ValType::decoded(bytes, next) {
                Ok((tpe, end)) => Ok((Locals { n, tpe }, end)),
                Err(error) => Err(error),
            },
            Err(error) => Err(error),
        }
    }

    proof fn lemma_decoded_in_range(bytes: Seq<u8>, at: int) {
        common::lemma_u32_decoded_in_range(bytes, at);
    }

    fn read(src: &mut Reader) -> (result: Result<Locals>) {
        let n = match read_u32(src) {
            Ok(n) => n,
            Err(error) => {
                return Err(error);
            },
        };
        match ValType::read(src) {
            Ok(tpe) => Ok(Locals { n, tpe }),
            Err(error) => Err(error),
        }
    }
}

/// The state of reading the instructions of a body: the instructions so far,
/// the blocks that have ended, and the blocks that are open, innermost last.
pub struct Body {
    pub instructions: Seq<Instruction>,
    pub blocks: Seq<(InstructionIdx, InstructionIdx)>,
    pub open: Seq<InstructionIdx>,
}

impl Body {
    /// With one more instruction.
    pub open spec fn with(self, instruction: Instruction) -> Body {
        Body {
            instructions: self.instructions.push(instruction),
            blocks: self.blocks,
            open: self.open,
        }
    }

    /// With one more instruction, which opens a block.
    pub open spec fn opening(self, instruction: Instruction) -> Body {
        Body {
            instructions: self.instructions.push(instruction),
            blocks: self.blocks,
            open: self.open.push(InstructionIdx(self.instructions.len() as u32)),
        }
    }

    /// With the innermost block ended at the instruction `end`.
    pub open spec fn closing(self, end: nat) -> Body {
        Body {
            instructions: self.instructions,
            blocks: self.blocks.push((self.open.last(), InstructionIdx(end as u32))),
            open: self.open.drop_last(),
        }
    }
}

/// The block type with the code `code`.
pub open spec fn block_type_of(code: u8) -> Result<BlockType> {
    if code == 0x40 {
        Ok(BlockType::Empty)
    } else {
        Err(Error::Unsupported)
    }
}

/// The instructions of a body that goes on at `at` after `body` was read,
/// and the position after the end of the body. `end` closes the innermost
/// open block, or the body where no block is open; `if` opens a block;
/// `else` closes a block and opens the next.
pub open spec fn body_decoded(bytes: Seq<u8>, at: int, body: Body) -> Result<
    (InstructionsView, int),
>
    decreases bytes.len() - at,
{
    if at < 0 || at >= bytes.len() {
        Err(Error::UnexpectedEnd)
    } else if body.instructions.len() >= u32::MAX {
        Err(Error::OutOfRange)
    } else if bytes[at] == 0x0B {
        if body.open.len() == 0 {
            Ok(
                (
                    InstructionsView {
                        instructions: body.instructions.push(Instruction::BlockEnd),
                        blocks: body.blocks,
                    },
                    at + 1,
                ),
            )
        } else {
            body_decoded(
                bytes,
                at + 1,
                body.with(Instruction::BlockEnd).closing(body.instructions.len()),
            )
        }
    } else if bytes[at] == 0x02 || bytes[at] == 0x03 {
        Err(Error::Unsupported)
    } else if bytes[at] == 0x04 {
        match common::u8_decoded(bytes, at + 1) {
            Ok((code, next)) => match block_type_of(code) {
                Ok(bt) => body_decoded(bytes, next, body.opening(Instruction::If { bt })),
                Err(error) => Err(error),
            },
            Err(error) => Err(error),
        }
    } else if bytes[at] == 0x05 {
        if body.open.len() == 0 {
            Err(Error::Malformed)
        } else {
            body_decoded(
                bytes,
                at + 1,
                body.closing(body.instructions.len()).opening(Instruction::Else),
            )
        }
    } else {
        match instruction::non_blocked_decoded(bytes, at + 1, bytes[at]) {
            Ok((found, next)) => {
                if at < next <= bytes.len() {
                    body_decoded(bytes, next, body.with(found))
                } else {
                    Err(Error::Malformed)
                }
            },
            Err(error) => Err(error),
        }
    }
}

/// The operands of an instruction end within the bytes.
pub proof fn lemma_non_blocked_in_range(bytes: Seq<u8>, at: int, opcode: u8)
    requires
        0 <= at <= bytes.len(),
    ensures
        instruction::non_blocked_decoded(bytes, at, opcode) matches Ok(found) ==> at <= found.1
            <= bytes.len(),
{
    common::lemma_u32_decoded_in_range(bytes, at);
}

/// The body that is written at `at`.
pub open spec fn instructions_decoded(bytes: Seq<u8>, at: int) -> Result<(InstructionsView, int)> {
    body_decoded(
        bytes,
        at,
        Body { instructions: Seq::empty(), blocks: Seq::empty(), open: Seq::empty() },
    )
}

pub proof fn lemma_body_in_range(bytes: Seq<u8>, at: int, body: Body)
    requires
        0 <= at <= bytes.len(),
    ensures
        body_decoded(bytes, at, body) matches Ok(found) ==> at < found.1 <= bytes.len(),
    decreases bytes.len() - at,
{
    if at < bytes.len() && body.instructions.len() < u32::MAX {
        if bytes[at] == 0x0B {
            if body.open.len() > 0 {
                lemma_body_in_range(
                    bytes,
                    at + 1,
                    body.with(Instruction::BlockEnd).closing(body.instructions.len()),
                );
            }
        } else if bytes[at] == 0x02 || bytes[at] == 0x03 {
        } else if bytes[at] == 0x04 {
            match common::u8_decoded(bytes, at + 1) {
                Ok((code, next)) => match block_type_of(code) {
                    Ok(bt) => {
                        lemma_body_in_range(bytes, next, body.opening(Instruction::If { bt }));
                    },
                    Err(_) => {},
                },
                Err(_) => {},
            }
        } else if bytes[at] == 0x05 {
            if body.open.len() > 0 {
                lemma_body_in_range(
                    bytes,
                    at + 1,
                    body.closing(body.instructions.len()).opening(Instruction::Else),
                );
            }
        } else {
            match instruction::non_blocked_decoded(bytes, at + 1, bytes[at]) {
                Ok((found, next)) => {
                    if at < next <= bytes.len() {
                        lemma_body_in_range(bytes, next, body.with(found));
                    }
                },
                Err(_) => {},
            }
        }
    }
}

impl Instructions {
    /// Reads the instructions of a body, up to the `end` that closes it.
    pub fn read(src: &mut Reader) -> (result: Result<Instructions>)
        requires
            old(src).well_formed(),
        ensures
            final(src).well_formed(),
            final(src).input() == old(src).input(),
            match instructions_decoded(old(src).input(), old(src).position()) {
                Ok((found, end)) => result is Ok && result->Ok_0@ == found && final(src).position()
                    == end,
                Err(error) => result == Err::<Instructions, Error>(error),
            },
    {
        let ghost bytes = src.input();
        let ghost target = instructions_decoded(src.input(), src.position());
        let mut instructions: Vec<Instruction> = Vec::new();
        let mut blocks: Vec<(InstructionIdx, InstructionIdx)> = Vec::new();
        let mut current_blocks: Vec<InstructionIdx> = Vec::new();
        let total: usize = src.len();
        loop
            invariant
                src.well_formed(),
                src.input() == bytes,
                bytes == old(src).input(),
                total == bytes.len(),
                target == instructions_decoded(old(src).input(), old(src).position()),
                target == body_decoded(
                    bytes,
                    src.position(),
                    Body { instructions: instructions@, blocks: blocks@, open: current_blocks@ },
                ),
            decreases total - src.position(),
        {
            let ghost body = Body {
                instructions: instructions@,
                blocks: blocks@,
                open: current_blocks@,
            };
            let ghost at = src.position();
            let opcode = match read_u8(src) {
                Ok(opcode) => opcode,
                Err(error) => {
                    return Err(error);
                },
            };
            if instructions.len() >= u32::MAX as usize {
                return Err(Error::OutOfRange);
            }
            if opcode == 0x0B {
                // end block
                instructions.push(Instruction::BlockEnd);
                match current_blocks.pop() {
                    None => {
                        return Ok(Instructions { instructions, blocks });
                    },
                    Some(block) => {
                        blocks.push((block, InstructionIdx((instructions.len() - 1) as u32)));
                    },
                }
            } else if opcode == 0x02 || opcode == 0x03 {
                return Err(Error::Unsupported);
            } else if opcode == 0x04 {
                let bt = match Instructions::read_block_type(src) {
                    Ok(bt) => bt,
                    Err(error) => {
                        return Err(error);
                    },
                };
                instructions.push(Instruction::If { bt });
                current_blocks.push(InstructionIdx((instructions.len() - 1) as u32));
            } else if opcode == 0x05 {
                // `else` is:
                // 1) end of `if` block
                match current_blocks.pop() {
                    None => {
                        return Err(Error::Malformed);
                    },
                    Some(block) => {
                        blocks.push((block, InstructionIdx(instructions.len() as u32)));
                    },
                }
                // 2) beginning of new block
                instructions.push(Instruction::Else);
                current_blocks.push(InstructionIdx((instructions.len() - 1) as u32));
            } else {
                proof {
                    lemma_non_blocked_in_range(bytes, at + 1, opcode);
                }
                match Instruction::read_non_blocked(src, opcode) {
                    Ok(found) => {
                        instructions.push(found);
                    },
                    Err(error) => {
                        return Err(error);
                    },
                }
            }
        }
    }

    fn read_block_type(src: &mut Reader) -> (result: Result<BlockType>)
        requires
            old(src).well_formed(),
        ensures
            final(src).well_formed(),
            final(src).input() == old(src).input(),
            match common::u8_decoded(old(src).input(), old(src).position()) {
                Ok((code, end)) => match block_type_of(code) {
                    Ok(bt) => result == Ok::<BlockType, Error>(bt) && final(src).position() == end,
                    Err(error) => result == Err::<BlockType, Error>(error),
                },
                Err(error) => result == Err::<BlockType, Error>(error),
            },
    {
        match read_u8(src) {
            Ok(code) => match code {
                0x40 => Ok(BlockType::Empty),
                _ => Err(Error::Unsupported),
            },
            Err(error) => Err(error),
        }
    }
}


impl Readable for Code {
    type Model = CodeView;

    open spec fn model(&self) -> CodeView {
        self@
    }

    /// The code of a function is its size in bytes, the vector of its
    /// locals and its instructions, which end where the size says.
    open spec fn decoded(bytes: Seq<u8>, at: int) -> Result<(CodeView, int)> {
        match common::u32_decoded(bytes, at) {
            Ok((size, start)) => match common::vector_decoded::<Locals>(bytes, start) {
                Ok((locals, middle)) => match instructions_decoded(bytes, middle) {
                    Ok((expr, end)) => if end == start + size {
                        Ok((CodeView { locals, expr }, end))
                    } else {
                        Err(Error::Malformed)
                    },
                    Err(error) => Err(error),
                },
                Err(error) => Err(error),
            },
            Err(error) => Err(error),
        }
    }

    proof fn lemma_decoded_in_range(bytes: Seq<u8>, at: int) {
        common::lemma_u32_decoded_in_range(bytes, at);
        match common::u32_decoded(bytes, at) {
            Ok((size, start)) => {
                common::lemma_vector_in_range::<Locals>(bytes, start);
                match common::vector_decoded::<Locals>(bytes, start) {
                    Ok((locals, middle)) => {
                        lemma_body_in_range(
                            bytes,
                            middle,
                            Body {
                                instructions: Seq::empty(),
                                blocks: Seq::empty(),
                                open: Seq::empty(),
                            },
                        );
                    },
                    Err(_) => {},
                }
            },
            Err(_) => {},
        }
    }

    fn read(src: &mut Reader) -> (result: Result<Code>) {
        let size = match read_u32(src) {
            Ok(size) => size,
            Err(error) => {
                return Err(error);
            },
        };
        let start: usize = src.stream_position();
        let locals = match read_vector::<Locals>(src) {
            Ok(locals) => locals,
            Err(error) => {
                return Err(error);
            },
        };
        let expr = match Instructions::read(src) {
            Ok(expr) => expr,
            Err(error) => {
                return Err(error);
            },
        };
        proof {
            assert(common::models(locals@) =~= locals@);
            common::lemma_vector_in_range::<Locals>(src.input(), start as int);
            lemma_body_in_range(
                src.input(),
                common::vector_decoded::<Locals>(src.input(), start as int)->Ok_0.1,
                Body { instructions: Seq::empty(), blocks: Seq::empty(), open: Seq::empty() },
            );
        }
        let end: usize = src.stream_position();
        if end - start != size as usize {
            return Err(Error::Malformed);
        }
        Ok(Code { locals, expr })
    }
}

/// What a section holds: a vector that fills the section from `start` up to
/// `finish`.
pub open spec fn section_decoded<T: Readable>(bytes: Seq<u8>, start: int, finish: int) -> Result<
    Seq<T::Model>,
> {
    match common::vector_decoded::<T>(bytes, start) {
        Ok((found, end)) => if end == finish {
            Ok(found)
        } else {
            Err(Error::Malformed)
        },
        Err(error) => Err(error),
    }
}

fn read_section<T: Readable>(src: &mut Reader, finish: usize) -> (result: Result<Vec<T>>)
    requires
        old(src).well_formed(),
    ensures
        final(src).well_formed(),
        final(src).input() == old(src).input(),
        match section_decoded::<T>(old(src).input(), old(src).position(), finish as int) {
            Ok(found) => result is Ok && common::models(result->Ok_0@) == found && final(src).position() == finish,
            Err(error) => result == Err::<Vec<T>, Error>(error),
        },
{
    match read_vector::<T>(src) {
        Ok(found) => {
            if src.stream_position() == finish {
                Ok(found)
            } else {
                Err(Error::Malformed)
            }
        },
        Err(error) => Err(error),
    }
}

/// The module that the sections from `at` on make of `module`: each section
/// is the byte of its kind, its size and its content. The sections of types,
/// functions, exports and code take the place of earlier ones of their kind;
/// of any other section the name is kept.
pub open spec fn sections_decoded(bytes: Seq<u8>, at: int, module: ModuleView) -> Result<ModuleView>
    decreases bytes.len() - at,
{
    if at < 0 || at >= bytes.len() {
        Ok(module)
    } else {
        match common::u32_decoded(bytes, at + 1) {
            Ok((size, start)) => {
                let finish = start + size;
                if finish > bytes.len() {
                    Err(Error::UnexpectedEnd)
                } else if start <= at {
                    Err(Error::Malformed)
                } else if bytes[at] == 1 {
                    match section_decoded::<FuncType>(bytes, start, finish) {
                        Ok(found) => sections_decoded(
                            bytes,
                            finish,
                            ModuleView { type_section: Some(found), ..module },
                        ),
                        Err(error) => Err(error),
                    }
                } else if bytes[at] == 3 {
                    match section_decoded::<TypeIdx>(bytes, start, finish) {
                        Ok(found) => sections_decoded(
                            bytes,
                            finish,
                            ModuleView { func_section: Some(found), ..module },
                        ),
                        Err(error) => Err(error),
                    }
                } else if bytes[at] == 7 {
                    match section_decoded::<Export>(bytes, start, finish) {
                        Ok(found) => sections_decoded(
                            bytes,
                            finish,
                            ModuleView { export_section: Some(found), ..module },
                        ),
                        Err(error) => Err(error),
                    }
                } else if bytes[at] == 10 {
                    match section_decoded::<Code>(bytes, start, finish) {
                        Ok(found) => sections_decoded(
                            bytes,
                            finish,
                            ModuleView { code_section: Some(found), ..module },
                        ),
                        Err(error) => Err(error),
                    }
                } else {
                    match common::string_decoded(bytes, start) {
                        Ok((name, end)) => if end <= finish {
                            sections_decoded(
                                bytes,
                                finish,
                                ModuleView {
                                    other_sections: module.other_sections.push((bytes[at], name)),
                                    ..module
                                },
                            )
                        } else {
                            Err(Error::Malformed)
                        },
                        Err(error) => Err(error),
                    }
                }
            },
            Err(error) => Err(error),
        }
    }
}

/// The bytes with which a module begins: the magic number and the version 1.
pub open spec fn preamble() -> Seq<u8> {
    seq![0x00u8, 0x61, 0x73, 0x6D, 0x01, 0x00, 0x00, 0x00]
}

/// The module that the bytes are.
pub open spec fn module_decoded(bytes: Seq<u8>) -> Result<ModuleView> {
    if bytes.len() < 8 {
        Err(Error::UnexpectedEnd)
    } else if bytes.take(8) != preamble() {
        Err(Error::Malformed)
    } else {
        sections_decoded(
            bytes,
            8,
            ModuleView {
                type_section: None,
                func_section: None,
                export_section: None,
                code_section: None,
                other_sections: Seq::empty(),
            },
        )
    }
}

impl Module {
    /// Reads a module from the start of the bytes of `src` to their end.
    pub fn read(src: &mut Reader) -> (result: Result<Module>)
        requires
            old(src).well_formed(),
            old(src).position() == 0,
        ensures
            final(src).well_formed(),
            final(src).input() == old(src).input(),
            match module_decoded(old(src).input()) {
                Ok(found) => result is Ok && result->Ok_0@ == found,
                Err(error) => result == Err::<Module, Error>(error),
            },
    {
        let ghost bytes = src.input();
        let total: usize = src.len();
        if total < 8 {
            return Err(Error::UnexpectedEnd);
        }
        let mut at: usize = 0;
        let expected: [u8; 8] = [0x00, 0x61, 0x73, 0x6D, 0x01, 0x00, 0x00, 0x00];
        while at < 8
            invariant
                at <= 8,
                src.well_formed(),
                src.input() == bytes,
                bytes == old(src).input(),
                bytes.len() == total,
                total >= 8,
                src.position() == at,
                expected@ == preamble(),
                forall|before: int| 0 <= before < at ==> bytes[before] == preamble()[before],
            decreases 8 - at,
        {
            let byte = match read_u8(src) {
                Ok(byte) => byte,
                Err(error) => {
                    return Err(error);
                },
            };
            if byte != expected[at] {
                assert(bytes.take(8)[at as int] != preamble()[at as int]);
                return Err(Error::Malformed);
            }
            at += 1;
        }
        assert(bytes.take(8) =~= preamble());
        let mut module = Module {
            type_section: None,
            func_section: None,
            export_section: None,
            code_section: None,
            other_sections: Vec::new(),
        };
        assert(module@.other_sections =~= Seq::empty());
        loop
            invariant
                src.well_formed(),
                src.input() == bytes,
                bytes == old(src).input(),
                bytes.len() == total,
                module_decoded(bytes) == sections_decoded(bytes, src.position(), module@),
            decreases total - src.position(),
        {
            let ghost before = module@;
            let ghost from = src.position();
            let id = match read_u8(src) {
                Ok(id) => id,
                Err(_) => {
                    return Ok(module);
                },
            };
            let size = match read_u32(src) {
                Ok(size) => size,
                Err(error) => {
                    return Err(error);
                },
            };
            proof {
                common::lemma_u32_decoded_in_range(bytes, from + 1);
            }
            let start: usize = src.stream_position();
            if size as usize > total - start {
                return Err(Error::UnexpectedEnd);
            }
            let finish: usize = start + size as usize;
            if id == 1 {
                match read_section::<FuncType>(src, finish) {
                    Ok(found) => {
                        module.type_section = Some(TypeSection(found));
                        assert(module@.type_section->Some_0 =~= common::models(found@));
                        assert(module@ == ModuleView {
                            type_section: Some(common::models(found@)),
                            ..before
                        });
                    },
                    Err(error) => {
                        return Err(error);
                    },
                }
            } else if id == 3 {
                match read_section::<TypeIdx>(src, finish) {
                    Ok(found) => {
                        assert(common::models(found@) =~= found@);
                        module.func_section = Some(FuncSection(found));
                        assert(module@ == ModuleView { func_section: Some(found@), ..before });
                    },
                    Err(error) => {
                        return Err(error);
                    },
                }
            } else if id == 7 {
                match read_section::<Export>(src, finish) {
                    Ok(found) => {
                        module.export_section = Some(ExportSection(found));
                        assert(module@.export_section->Some_0 =~= common::models(found@));
                        assert(module@ == ModuleView {
                            export_section: Some(common::models(found@)),
                            ..before
                        });
                    },
                    Err(error) => {
                        return Err(error);
                    },
                }
            } else if id == 10 {
                match read_section::<Code>(src, finish) {
                    Ok(found) => {
                        module.code_section = Some(CodeSection(found));
                        assert(module@.code_section->Some_0 =~= common::models(found@));
                        assert(module@ == ModuleView {
                            code_section: Some(common::models(found@)),
                            ..before
                        });
                    },
                    Err(error) => {
                        return Err(error);
                    },
                }
            } else {
                let name = match read_string(src) {
                    Ok(name) => name,
                    Err(error) => {
                        return Err(error);
                    },
                };
                if src.stream_position() > finish {
                    return Err(Error::Malformed);
                }
                src.seek(finish);
                module.other_sections.push((id, UnrecognizedSection(name)));
                assert(module@.other_sections =~= before.other_sections.push((id, name@)));
                assert(module@ == ModuleView {
                    other_sections: before.other_sections.push((id, name@)),
                    ..before
                });
            }
        }
    }
}

} // verus!
