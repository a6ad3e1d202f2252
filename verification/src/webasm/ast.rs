//! The parts of a WebAssembly module.

use vstd::prelude::*;

verus! {

/// A module of WebAssembly, as far as this front end reads it.
#[derive(Debug, Clone, PartialEq, Eq, Hash)]
pub struct Module {
    pub type_section: Option<TypeSection>,
    pub func_section: Option<FuncSection>,
    pub export_section: Option<ExportSection>,
    pub code_section: Option<CodeSection>,
    pub other_sections: Vec<(u8, UnrecognizedSection)>,
}

#[derive(Debug, Clone, PartialEq, Eq, Hash)]
pub struct TypeSection(pub Vec<FuncType>);

#[derive(Debug, Clone, PartialEq, Eq, Hash)]
pub struct FuncSection(pub Vec<TypeIdx>);

#[derive(Debug, Clone, PartialEq, Eq, Hash)]
pub struct ExportSection(pub Vec<Export>);

#[derive(Debug, Clone, PartialEq, Eq, Hash)]
pub struct CodeSection(pub Vec<Code>);

#[derive(Debug, Clone, PartialEq, Eq, Hash)]
pub struct UnrecognizedSection(pub String);

#[derive(Debug, Clone, PartialEq, Eq, Hash)]
pub struct FuncType {
    pub params: Vec<ValType>,
    pub results: Vec<ValType>,
}

#[derive(Debug, PartialEq, Eq, Clone, Copy, Hash, Structural)]
pub enum NumType {
    I32,
    I64,
    F32,
    F64,
}

#[derive(Debug, PartialEq, Eq, Clone, Copy, Hash, Structural)]
pub enum RefType {
    Func,
}

#[derive(Debug, PartialEq, Eq, Clone, Copy, Hash, Structural)]
pub enum ValType {
    Num(NumType),
    Ref(RefType),
}

#[derive(Debug, PartialEq, Eq, Clone, Copy, Hash, Structural)]
pub struct TypeIdx(pub u32);

#[derive(Debug, PartialEq, Eq, Clone, Copy, Hash, Structural)]
pub struct LocalIdx(pub u32);

#[derive(Debug, PartialEq, Eq, Clone, Copy, Hash, Structural)]
pub struct FuncIdx(pub u32);

#[derive(Debug, PartialEq, Eq, Clone, Copy, Hash, Structural)]
pub struct GlobalIdx(pub u32);

#[derive(Debug, Clone, PartialEq, Eq, Hash)]
pub struct Export {
    pub name: String,
    pub tag: ExportTag,
    pub idx: u32,
}

#[derive(Debug, PartialEq, Eq, Clone, Copy, Hash, Structural)]
pub enum ExportTag {
    Func,
    Table,
    Mem,
    Global,
}

/// The instructions of a function body, and for each instruction that opens
/// a block the instruction at which the block ends.
#[derive(Debug, Clone, PartialEq, Eq, Hash)]
pub struct Instructions {
    pub instructions: Vec<Instruction>,
    // (idx of blocked instruction, idx of the instruction that ends the block)
    pub blocks: Vec<(InstructionIdx, InstructionIdx)>,
}

#[derive(Debug, Clone, PartialEq, Eq, Hash)]
pub struct Code {
    pub locals: Vec<Locals>,
    pub expr: Instructions,
}

#[derive(Debug, PartialEq, Eq, Clone, Copy, Hash, Structural)]
pub struct Locals {
    pub n: u32,
    pub tpe: ValType,
}

#[derive(Debug, PartialEq, Eq, Clone, Copy, Hash, Structural)]
pub enum Instruction {
    Nop,
    If { bt: BlockType },
    Else,
    BlockEnd,
    Return,
    Call(FuncIdx),
    LocalGet(LocalIdx),
    I32Const(i32),
    I64Const(i64),
    Eq(NumType),
    Add(NumType),
    Sub(NumType),
}

#[derive(Debug, Clone, Eq, PartialEq, Hash, Copy, Structural)]
pub struct InstructionIdx(pub u32);

#[derive(Debug, PartialEq, Eq, Clone, Copy, Hash, Structural)]
pub enum BlockType {
    Empty,
}

/// The end of the block that the instruction `idx` opens: the second part of
/// the first pair of `blocks` whose first part is `idx`.
pub open spec fn block_end_of(blocks: Seq<(InstructionIdx, InstructionIdx)>, idx: InstructionIdx) -> Option<
    InstructionIdx,
>
    decreases blocks.len(),
{
    if blocks.len() == 0 {
        None
    } else if blocks.first().0 == idx {
        Some(blocks.first().1)
    } else {
        block_end_of(blocks.drop_first(), idx)
    }
}

impl Instructions {
    /// The end of the block that the instruction `idx` opens.
    pub fn block_end(&self, idx: InstructionIdx) -> (end: Option<InstructionIdx>)
        ensures
            end == block_end_of(self.blocks@, idx),
    {
        let mut at: usize = 0;
        assert(self.blocks@.skip(0) =~= self.blocks@);
        while at < self.blocks.len()
            invariant
                at <= self.blocks@.len(),
                block_end_of(self.blocks@, idx) == block_end_of(self.blocks@.skip(at as int), idx),
            decreases self.blocks@.len() - at,
        {
            if self.blocks[at].0.0 == idx.0 {
                assert(self.blocks@.skip(at as int).first() == self.blocks@[at as int]);
                return Some(self.blocks[at].1);
            }
            assert(self.blocks@.skip(at as int).drop_first() =~= self.blocks@.skip(at as int + 1));
            at += 1;
        }
        None
    }
}


/// The mathematical content of a [`FuncType`].
pub struct FuncTypeView {
    pub params: Seq<ValType>,
    pub results: Seq<ValType>,
}

impl View for FuncType {
    type V = FuncTypeView;

    open spec fn view(&self) -> FuncTypeView {
        FuncTypeView { params: self.params@, results: self.results@ }
    }
}

/// The mathematical content of an [`Export`].
pub struct ExportView {
    pub name: Seq<char>,
    pub tag: ExportTag,
    pub idx: u32,
}

impl View for Export {
    type V = ExportView;

    open spec fn view(&self) -> ExportView {
        ExportView { name: self.name@, tag: self.tag, idx: self.idx }
    }
}

/// The mathematical content of [`Instructions`].
pub struct InstructionsView {
    pub instructions: Seq<Instruction>,
    pub blocks: Seq<(InstructionIdx, InstructionIdx)>,
}

impl View for Instructions {
    type V = InstructionsView;

    open spec fn view(&self) -> InstructionsView {
        InstructionsView { instructions: self.instructions@, blocks: self.blocks@ }
    }
}

/// The mathematical content of a [`Code`].
pub struct CodeView {
    pub locals: Seq<Locals>,
    pub expr: InstructionsView,
}

impl View for Code {
    type V = CodeView;

    open spec fn view(&self) -> CodeView {
        CodeView { locals: self.locals@, expr: self.expr@ }
    }
}


/// The mathematical content of a [`Module`].
pub struct ModuleView {
    pub type_section: Option<Seq<FuncTypeView>>,
    pub func_section: Option<Seq<TypeIdx>>,
    pub export_section: Option<Seq<ExportView>>,
    pub code_section: Option<Seq<CodeView>>,
    pub other_sections: Seq<(u8, Seq<char>)>,
}

impl View for Module {
    type V = ModuleView;

    open spec fn view(&self) -> ModuleView {
        ModuleView {
            type_section: match self.type_section {
                Some(section) => Some(Seq::new(section.0@.len(), |at: int| section.0@[at]@)),
                None => None,
            },
            func_section: match self.func_section {
                Some(section) => Some(section.0@),
                None => None,
            },
            export_section: match self.export_section {
                Some(section) => Some(Seq::new(section.0@.len(), |at: int| section.0@[at]@)),
                None => None,
            },
            code_section: match self.code_section {
                Some(section) => Some(Seq::new(section.0@.len(), |at: int| section.0@[at]@)),
                None => None,
            },
            other_sections: Seq::new(
                self.other_sections@.len(),
                |at: int| (self.other_sections@[at].0, self.other_sections@[at].1.0@),
            ),
        }
    }
}

} // verus!
