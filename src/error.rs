//! Errors of the assembler core.
use vstd::prelude::*;

verus! {

/// What went wrong.
#[derive(Debug, PartialEq)]
pub enum ErrorKind {
    /// The mnemonic is not one the encoder knows.
    InvalidOpcode(String),
    /// The mnemonic is known but the addressing mode is not legal for it.
    InvalidArgument(String),
    /// A literal that must fit in one byte does not.
    Overflow(u16),
    /// A label was looked up before it was bound.
    UndefinedLabel(String),
    /// A label was bound a second time.
    DuplicateLabel(String),
    /// A label in a byte operand slot resolved to a value above 0xFF.
    WideByteLabel(String),
    /// The `include` directive, which the core does not handle.
    Unsupported(String),
    /// Output would run past the end of the 64 KiB address space.
    AddressOverflow,
}

/// An error, with the index of the line (parsed line in the first pass,
/// annotated line in the second) where it was raised.
#[derive(Debug, PartialEq)]
pub struct ParseError {
    pub line: usize,
    pub kind: ErrorKind,
}

} // verus!
