//! A two-pass assembler core for the MOS 6502.
//!
//! The first pass walks parsed source lines, keeps the location counter,
//! binds labels and encodes instructions into annotated lines; the second
//! pass resolves label operands and produces the final byte stream.
use vstd::prelude::*;

pub mod encoder;
pub mod error;
pub mod lexer;
pub mod pass_1;
pub mod pass_2;
pub mod substitution;
pub mod symbols;
pub mod syntax;

verus! {

} // verus!
