//! A MIPS-subset toolchain, verified with Verus.
//!
//! Three stages share this crate: a tiny expression compiler that emits
//! assembly text, an assembler that turns assembly text into a binary image
//! with a three-word header, and an emulator that executes such an image.
//! The instruction codec at the bottom is shared by the assembler and the
//! emulator.

use vstd::prelude::*;

pub mod assembler;
pub mod codec;
pub mod compile;
pub mod decimal;
pub mod emulator;
pub mod node;
pub mod parser;
pub mod register;
pub mod token;

verus! {

/// The machine word of the whole toolchain: instructions, memory cells,
/// registers and immediates are all signed 32-bit words.
pub type Binary = i32;

/// Byte order used when a word sequence is serialized to bytes.
#[derive(Debug, PartialEq, Eq, Structural, Clone, Copy)]
pub enum Endian {
    Little,
    Big,
}

/// An assembler operand: a register index, a not yet resolved label, or an
/// immediate constant.
#[derive(Debug, PartialEq)]
pub enum Operand {
    Register(Binary),
    Label(String),
    Constant(Binary),
}

/// The mathematical shape of an operand: label names as character
/// sequences.
pub ghost enum OperandV {
    Register(Binary),
    Label(Seq<char>),
    Constant(Binary),
}

impl View for Operand {
    type V = OperandV;

    open spec fn view(&self) -> OperandV {
        match self {
            Operand::Register(b) => OperandV::Register(*b),
            Operand::Label(name) => OperandV::Label(name@),
            Operand::Constant(b) => OperandV::Constant(*b),
        }
    }
}

/// An opcode value, kept distinct from constants for clarity.
#[derive(Debug, PartialEq, Clone, Copy)]
pub struct Operation(pub Binary);

/// A directive found in assembly text: a section opener, stored words,
/// zero-filled space, or exported names.
#[derive(Debug, PartialEq)]
pub enum SectionType {
    Text,
    Data,
    Word(Vec<Binary>),
    Space(Binary),
    Globl(Vec<String>),
}

/// The mathematical shape of a directive.
pub ghost enum SectionV {
    Text,
    Data,
    Word(Seq<Binary>),
    Space(Binary),
    Globl(Seq<Seq<char>>),
}

impl View for SectionType {
    type V = SectionV;

    open spec fn view(&self) -> SectionV {
        match self {
            SectionType::Text => SectionV::Text,
            SectionType::Data => SectionV::Data,
            SectionType::Word(v) => SectionV::Word(v@),
            SectionType::Space(n) => SectionV::Space(*n),
            SectionType::Globl(names) => SectionV::Globl(
                Seq::new(names@.len(), |i: int| names@[i]@),
            ),
        }
    }
}

/// One parsed assembly item: an instruction in one of the three formats, a
/// label definition, or a directive.
#[derive(Debug, PartialEq)]
pub enum Instruction {
    I { op: Operation, rs: Operand, rt: Operand, im: Operand },
    R { op: Operation, rs: Operand, rt: Operand, rd: Operand, sh: Operand, fc: Operand },
    J { op: Operation, ad: Operand },
    LabelDef { name: String },
    Section(SectionType),
}

/// The mathematical shape of a parsed item.
pub ghost enum ItemV {
    I { op: Binary, rs: OperandV, rt: OperandV, im: OperandV },
    R { op: Binary, rs: OperandV, rt: OperandV, rd: OperandV, sh: OperandV, fc: OperandV },
    J { op: Binary, ad: OperandV },
    LabelDef { name: Seq<char> },
    Section(SectionV),
}

impl View for Instruction {
    type V = ItemV;

    open spec fn view(&self) -> ItemV {
        match self {
            Instruction::I { op, rs, rt, im } => ItemV::I {
                op: op.0,
                rs: rs@,
                rt: rt@,
                im: im@,
            },
            Instruction::R { op, rs, rt, rd, sh, fc } => ItemV::R {
                op: op.0,
                rs: rs@,
                rt: rt@,
                rd: rd@,
                sh: sh@,
                fc: fc@,
            },
            Instruction::J { op, ad } => ItemV::J { op: op.0, ad: ad@ },
            Instruction::LabelDef { name } => ItemV::LabelDef { name: name@ },
            Instruction::Section(s) => ItemV::Section(s@),
        }
    }
}

/// The file header: three words ahead of the image body.
#[derive(Debug, PartialEq, Clone, Copy)]
pub struct FileHeader {
    pub(crate) entry_point: Binary,
    pub(crate) start_text: Binary,
    pub(crate) start_data: Binary,
}

/// The mathematical shape of the header.
pub ghost struct HeaderV {
    pub entry_point: Binary,
    pub start_text: Binary,
    pub start_data: Binary,
}

impl View for FileHeader {
    type V = HeaderV;

    closed spec fn view(&self) -> HeaderV {
        HeaderV {
            entry_point: self.entry_point,
            start_text: self.start_text,
            start_data: self.start_data,
        }
    }
}

/// The views of a sequence of parsed items.
pub open spec fn items_view(items: Seq<Instruction>) -> Seq<ItemV> {
    Seq::new(items.len(), |i: int| items[i]@)
}

/// The views of a sequence of item groups.
pub open spec fn groups_view(groups: Seq<Vec<Instruction>>) -> Seq<Seq<ItemV>> {
    Seq::new(groups.len(), |i: int| items_view(groups[i]@))
}

/// What the assembler can reject: unparsable text, a label defined twice,
/// or a reference to a label never defined.
#[derive(Debug, PartialEq)]
pub enum AsmError {
    Parse(String),
    DuplicateLabel(String),
    UndefinedLabel(String),
}

/// The mathematical shape of an assembler error.
pub ghost enum AsmErrorV {
    Parse(Seq<char>),
    DuplicateLabel(Seq<char>),
    UndefinedLabel(Seq<char>),
}

impl View for AsmError {
    type V = AsmErrorV;

    open spec fn view(&self) -> AsmErrorV {
        match self {
            AsmError::Parse(s) => AsmErrorV::Parse(s@),
            AsmError::DuplicateLabel(s) => AsmErrorV::DuplicateLabel(s@),
            AsmError::UndefinedLabel(s) => AsmErrorV::UndefinedLabel(s@),
        }
    }
}

} // verus!
