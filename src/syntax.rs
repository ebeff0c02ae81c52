//! Parsed source lines, as the line parser hands them to the first pass.
use vstd::prelude::*;

verus! {

/// An address operand: a 16-bit literal or a label name.
#[derive(Debug)]
pub enum Address {
    Literal(u16),
    Label(String),
}

/// The operand of an immediate-mode instruction.
#[derive(Debug)]
pub enum ImmediateValue {
    Literal(u8),
    /// The full value of a label, which must fit in a byte when resolved.
    Label(String),
    /// `<label`: the low byte of a label's value.
    LowByte(String),
    /// `>label`: the high byte of a label's value.
    HighByte(String),
}

/// An addressing mode together with its operand.
#[derive(Debug)]
pub enum AddressingMode {
    Implied,
    Accumulator,
    Immediate(ImmediateValue),
    ZeroPage(Address),
    ZeroPageX(Address),
    ZeroPageY(Address),
    Absolute(Address),
    AbsoluteX(Address),
    AbsoluteY(Address),
    Indirect(Address),
    IndirectX(Address),
    IndirectY(Address),
    Relative(Address),
}

/// An instruction line: a lower-case mnemonic and its addressing mode.
#[derive(Debug)]
pub struct ParsedInstruction {
    pub mnemonic: String,
    pub addr_mode: AddressingMode,
}

/// A directive that acts on the assembler's state.
#[derive(Debug)]
pub enum Pragma {
    Byte(u8),
    Bytes(Vec<u8>),
    Word(Address),
    Origin(Address),
    Define(String, Address),
    Include(String),
}

/// What a source line holds besides its label.
#[derive(Debug)]
pub enum LineValue {
    Instruction(ParsedInstruction),
    Pragma(Pragma),
    Empty,
}

/// One parsed source line; an empty `label` means the line binds no label.
#[derive(Debug)]
pub struct ParsedLine {
    pub label: String,
    pub value: LineValue,
}

} // verus!
