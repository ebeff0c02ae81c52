//! The instruction encoder for the `cc = 01` group (`aaa_bbb_cc` opcodes).
use vstd::prelude::*;

use crate::error::ErrorKind;
use crate::pass_1::InstructionArg;
use crate::syntax::{Address, AddressingMode, ImmediateValue, ParsedInstruction};

verus! {

/// The `aaa` field of a three-letter mnemonic of the `cc = 01` group.
pub open spec fn aaa_of_chars(a: char, b: char, c: char) -> Option<u8> {
    if a == 'o' && b == 'r' && c == 'a' {
        Some(0u8)
    } else if a == 'a' && b == 'n' && c == 'd' {
        Some(1u8)
    } else if a == 'e' && b == 'o' && c == 'r' {
        Some(2u8)
    } else if a == 'a' && b == 'd' && c == 'c' {
        Some(3u8)
    } else if a == 's' && b == 't' && c == 'a' {
        Some(4u8)
    } else if a == 'l' && b == 'd' && c == 'a' {
        Some(5u8)
    } else if a == 'c' && b == 'm' && c == 'p' {
        Some(6u8)
    } else if a == 's' && b == 'b' && c == 'c' {
        Some(7u8)
    } else {
        None
    }
}

/// The `aaa` field of a mnemonic, or `None` when the encoder does not know it.
pub open spec fn aaa_of(m: Seq<char>) -> Option<u8> {
    if m.len() == 3 {
        aaa_of_chars(m[0], m[1], m[2])
    } else {
        None
    }
}

/// The `bbb` field of an addressing mode, or `None` when the mode is not
/// legal for the `cc = 01` group.
pub open spec fn bbb_of(mode: AddressingMode) -> Option<u8> {
    match mode {
        AddressingMode::IndirectX(_) => Some(0u8),
        AddressingMode::ZeroPage(_) => Some(1u8),
        AddressingMode::Immediate(_) => Some(2u8),
        AddressingMode::Absolute(_) => Some(3u8),
        AddressingMode::IndirectY(_) => Some(4u8),
        AddressingMode::ZeroPageX(_) => Some(5u8),
        AddressingMode::AbsoluteY(_) => Some(6u8),
        AddressingMode::AbsoluteX(_) => Some(7u8),
        _ => None,
    }
}

/// The size in bytes of an instruction in a legal mode: two bytes, or three
/// for the absolute modes with a 16-bit operand.
pub open spec fn mode_size(mode: AddressingMode) -> u8 {
    match mode {
        AddressingMode::Absolute(_) => 3u8,
        AddressingMode::AbsoluteX(_) => 3u8,
        AddressingMode::AbsoluteY(_) => 3u8,
        _ => 2u8,
    }
}

/// The opcode byte `aaa_bbb_01`, for fields `aaa` and `bbb` below 8.
pub open spec fn compose_opcode(aaa: u8, bbb: u8) -> u8 {
    (aaa * 32 + bbb * 4 + 1) as u8
}

/// A one-byte operand slot: a literal must fit in 8 bits.
pub open spec fn byte_operand_of(a: Address) -> Result<InstructionArg, ErrorKind> {
    match a {
        Address::Literal(n) => if n <= 0xFF {
            Ok(InstructionArg::ByteArg(n as u8))
        } else {
            Err(ErrorKind::Overflow(n))
        },
        Address::Label(l) => Ok(InstructionArg::ByteLabelArg(l)),
    }
}

/// A two-byte operand slot.
pub open spec fn word_operand_of(a: Address) -> InstructionArg {
    match a {
        Address::Literal(n) => InstructionArg::WordArg(n),
        Address::Label(l) => InstructionArg::WordLabelArg(l),
    }
}

/// The operand slot of an immediate value.
pub open spec fn immediate_operand_of(i: ImmediateValue) -> InstructionArg {
    match i {
        ImmediateValue::Literal(n) => InstructionArg::ByteArg(n),
        ImmediateValue::Label(l) => InstructionArg::ByteLabelArg(l),
        ImmediateValue::LowByte(l) => InstructionArg::ByteLabelLowArg(l),
        ImmediateValue::HighByte(l) => InstructionArg::ByteLabelHighArg(l),
    }
}

/// The operand placeholder of a legal addressing mode.
pub open spec fn operand_of(mode: AddressingMode) -> Result<InstructionArg, ErrorKind> {
    match mode {
        AddressingMode::Immediate(i) => Ok(immediate_operand_of(i)),
        AddressingMode::Absolute(a) => Ok(word_operand_of(a)),
        AddressingMode::AbsoluteX(a) => Ok(word_operand_of(a)),
        AddressingMode::AbsoluteY(a) => Ok(word_operand_of(a)),
        AddressingMode::IndirectX(a) => byte_operand_of(a),
        AddressingMode::ZeroPage(a) => byte_operand_of(a),
        AddressingMode::IndirectY(a) => byte_operand_of(a),
        AddressingMode::ZeroPageX(a) => byte_operand_of(a),
        AddressingMode::ZeroPageY(a) => byte_operand_of(a),
        AddressingMode::Indirect(a) => byte_operand_of(a),
        AddressingMode::Relative(a) => byte_operand_of(a),
        _ => Ok(InstructionArg::NoArgs),
    }
}

/// What encoding an instruction gives: the opcode byte, the operand
/// placeholder and the size, or the error.
pub open spec fn encode_spec(instr: ParsedInstruction) -> Result<(u8, InstructionArg, u8), ErrorKind> {
    match aaa_of(instr.mnemonic@) {
        None => Err(ErrorKind::InvalidOpcode(instr.mnemonic)),
        Some(aaa) => match bbb_of(instr.addr_mode) {
            None => Err(ErrorKind::InvalidArgument(instr.mnemonic)),
            Some(bbb) => match operand_of(instr.addr_mode) {
                Ok(arg) => Ok((compose_opcode(aaa, bbb), arg, mode_size(instr.addr_mode))),
                Err(e) => Err(e),
            },
        },
    }
}

/// Looks up the `aaa` field of a mnemonic.
pub fn mnemonic_aaa(m: &str) -> (r: Option<u8>)
    ensures
        r == aaa_of(m@),
{
    let n = m.unicode_len();
    if n != 3 {
        return None;
    }
    let a = m.get_char(0);
    let b = m.get_char(1);
    let c = m.get_char(2);
    if a == 'o' && b == 'r' && c == 'a' {
        Some(0u8)
    } else if a == 'a' && b == 'n' && c == 'd' {
        Some(1u8)
    } else if a == 'e' && b == 'o' && c == 'r' {
        Some(2u8)
    } else if a == 'a' && b == 'd' && c == 'c' {
        Some(3u8)
    } else if a == 's' && b == 't' && c == 'a' {
        Some(4u8)
    } else if a == 'l' && b == 'd' && c == 'a' {
        Some(5u8)
    } else if a == 'c' && b == 'm' && c == 'p' {
        Some(6u8)
    } else if a == 's' && b == 'b' && c == 'c' {
        Some(7u8)
    } else {
        None
    }
}

/// Checks that a literal fits in 8 bits.
pub fn check_overflow(n: u16) -> (r: Result<u8, ErrorKind>)
    ensures
        n <= 0xFF ==> r == Ok::<u8, ErrorKind>(n as u8),
        n > 0xFF ==> r == Err::<u8, ErrorKind>(ErrorKind::Overflow(n)),
{
    if n <= 0xFF {
        Ok(n as u8)
    } else {
        Err(ErrorKind::Overflow(n))
    }
}

/// Translates an address in a one-byte operand slot.
pub fn byte_operand(a: &Address) -> (r: Result<InstructionArg, ErrorKind>)
    ensures
        r == byte_operand_of(*a),
{
    match a {
        Address::Literal(n) => match check_overflow(*n) {
            Ok(b) => Ok(InstructionArg::ByteArg(b)),
            Err(e) => Err(e),
        },
        Address::Label(l) => Ok(InstructionArg::ByteLabelArg(l.clone())),
    }
}

/// Translates an address in a two-byte operand slot.
pub fn word_operand(a: &Address) -> (r: InstructionArg)
    ensures
        r == word_operand_of(*a),
{
    match a {
        Address::Literal(n) => InstructionArg::WordArg(*n),
        Address::Label(l) => InstructionArg::WordLabelArg(l.clone()),
    }
}

/// Translates an immediate operand.
pub fn immediate_operand(i: &ImmediateValue) -> (r: InstructionArg)
    ensures
        r == immediate_operand_of(*i),
{
    match i {
        ImmediateValue::Literal(n) => InstructionArg::ByteArg(*n),
        ImmediateValue::Label(l) => InstructionArg::ByteLabelArg(l.clone()),
        ImmediateValue::LowByte(l) => InstructionArg::ByteLabelLowArg(l.clone()),
        ImmediateValue::HighByte(l) => InstructionArg::ByteLabelHighArg(l.clone()),
    }
}

/// Encodes an instruction into its opcode byte, operand placeholder and size.
pub fn encode(instr: &ParsedInstruction) -> (r: Result<(u8, InstructionArg, u8), ErrorKind>)
    ensures
        r == encode_spec(*instr),
{
    let aaa = match mnemonic_aaa(instr.mnemonic.as_str()) {
        Some(a) => a,
        None => return Err(ErrorKind::InvalidOpcode(instr.mnemonic.clone())),
    };
    let bbb: u8;
    let size: u8;
    let arg: InstructionArg;
    match &instr.addr_mode {
        AddressingMode::IndirectX(a) => {
            bbb = 0;
            size = 2;
            arg = match byte_operand(a) {
                Ok(x) => x,
                Err(e) => return Err(e),
            };
        },
        AddressingMode::ZeroPage(a) => {
            bbb = 1;
            size = 2;
            arg = match byte_operand(a) {
                Ok(x) => x,
                Err(e) => return Err(e),
            };
        },
        AddressingMode::Immediate(i) => {
            bbb = 2;
            size = 2;
            arg = immediate_operand(i);
        },
        AddressingMode::Absolute(a) => {
            bbb = 3;
            size = 3;
            arg = word_operand(a);
        },
        AddressingMode::IndirectY(a) => {
            bbb = 4;
            size = 2;
            arg = match byte_operand(a) {
                Ok(x) => x,
                Err(e) => return Err(e),
            };
        },
        AddressingMode::ZeroPageX(a) => {
            bbb = 5;
            size = 2;
            arg = match byte_operand(a) {
                Ok(x) => x,
                Err(e) => return Err(e),
            };
        },
        AddressingMode::AbsoluteY(a) => {
            bbb = 6;
            size = 3;
            arg = word_operand(a);
        },
        AddressingMode::AbsoluteX(a) => {
            bbb = 7;
            size = 3;
            arg = word_operand(a);
        },
        _ => return Err(ErrorKind::InvalidArgument(instr.mnemonic.clone())),
    }
    let opcode: u8 = (aaa << 5u8) | (bbb << 2u8) | 1u8;
    proof {
        lemma_compose_fields(aaa, bbb);
    }
    Ok((opcode, arg, size))
}

} // verus!

verus! {

/// `aaa_bbb_01` composed with shifts is the arithmetic composition, and its
/// three fields read back as composed.
proof fn lemma_compose_fields(aaa: u8, bbb: u8)
    by (bit_vector)
    requires
        aaa < 8,
        bbb < 8,
    ensures
        ((aaa << 5u8) | (bbb << 2u8) | 1u8) as u8 == (aaa * 32 + bbb * 4 + 1) as u8,
        ((aaa << 5u8) | (bbb << 2u8) | 1u8) as u8 >> 5u8 == aaa,
        (((aaa << 5u8) | (bbb << 2u8) | 1u8) as u8 >> 2u8) & 7u8 == bbb,
        ((aaa << 5u8) | (bbb << 2u8) | 1u8) as u8 & 3u8 == 1u8,
{
}

/// For every mnemonic of the group and every legal mode whose literal
/// operand fits its slot, encoding gives the opcode `aaa_bbb_01`, whose
/// fields are the mnemonic's `aaa`, the mode's `bbb` and `01`, and a size of
/// three for the absolute modes and two for the others.
pub proof fn lemma_opcode_fields(instr: ParsedInstruction)
    requires
        aaa_of(instr.mnemonic@) is Some,
        bbb_of(instr.addr_mode) is Some,
        operand_of(instr.addr_mode) is Ok,
    ensures
        ({
            let aaa = aaa_of(instr.mnemonic@)->Some_0;
            let bbb = bbb_of(instr.addr_mode)->Some_0;
            let r = encode_spec(instr);
            &&& r is Ok
            &&& r->Ok_0.0 == compose_opcode(aaa, bbb)
            &&& r->Ok_0.0 == (aaa << 5u8) | (bbb << 2u8) | 1u8
            &&& r->Ok_0.0 >> 5u8 == aaa
            &&& (r->Ok_0.0 >> 2u8) & 7u8 == bbb
            &&& r->Ok_0.0 & 3u8 == 1u8
            &&& (r->Ok_0.2 == 3 <==> (bbb == 3 || bbb == 6 || bbb == 7))
            &&& (r->Ok_0.2 == 2 <==> !(bbb == 3 || bbb == 6 || bbb == 7))
        }),
{
    let aaa = aaa_of(instr.mnemonic@)->Some_0;
    let bbb = bbb_of(instr.addr_mode)->Some_0;
    lemma_compose_fields(aaa, bbb);
}

} // verus!
