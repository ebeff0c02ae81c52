use asm6502::encoder::{check_overflow, encode, mnemonic_aaa};
use asm6502::error::{ErrorKind, ParseError};
use asm6502::pass_1::{first_pass, AnnotatedLine, InstructionArg};
use asm6502::pass_2::{assemble, second_pass};
use asm6502::symbols::{add_symbol, SymbolTable};
use asm6502::syntax::{Address, AddressingMode, ImmediateValue, LineValue, ParsedInstruction, ParsedLine, Pragma};

fn s(x: &str) -> String {
    String::from(x)
}

fn instr(m: &str, mode: AddressingMode) -> ParsedLine {
    ParsedLine {
        label: String::new(),
        value: LineValue::Instruction(ParsedInstruction { mnemonic: s(m), addr_mode: mode }),
    }
}

fn pragma(p: Pragma) -> ParsedLine {
    ParsedLine { label: String::new(), value: LineValue::Pragma(p) }
}

fn label(name: &str) -> ParsedLine {
    ParsedLine { label: s(name), value: LineValue::Empty }
}

fn lit(n: u16) -> Address {
    Address::Literal(n)
}

fn lab(name: &str) -> Address {
    Address::Label(s(name))
}

#[test]
fn immediate_load_and_store() {
    let src = vec![
        instr("lda", AddressingMode::Immediate(ImmediateValue::Literal(0x2a))),
        instr("sta", AddressingMode::ZeroPage(lit(0x10))),
    ];
    assert_eq!(assemble(&src).unwrap(), vec![0xA9, 0x2A, 0x85, 0x10]);
}

#[test]
fn absolute_x_and_zero_page_x() {
    let src = vec![
        instr("lda", AddressingMode::AbsoluteX(lit(0x1234))),
        instr("and", AddressingMode::ZeroPageX(lit(0x20))),
    ];
    assert_eq!(assemble(&src).unwrap(), vec![0xBD, 0x34, 0x12, 0x35, 0x20]);
}

#[test]
fn forward_label_low_and_high_byte() {
    let src = vec![
        instr("lda", AddressingMode::Immediate(ImmediateValue::LowByte(s("target")))),
        instr("lda", AddressingMode::Immediate(ImmediateValue::HighByte(s("target")))),
        pragma(Pragma::Origin(lit(0x1234))),
        label("target"),
    ];
    assert_eq!(assemble(&src).unwrap(), vec![0xA9, 0x34, 0xA9, 0x12]);
    let first = first_pass(&src).unwrap();
    assert_eq!(first.symbol_table.get(&s("target")), Some(0x1234));
    assert_eq!(first.lines[0].addr, 0);
    assert_eq!(first.lines[1].addr, 2);
    assert_eq!(first.lines[0].arg, InstructionArg::ByteLabelLowArg(s("target")));
}

#[test]
fn word_pragma_little_endian() {
    let src = vec![pragma(Pragma::Word(lit(0x1234))), pragma(Pragma::Word(lit(0x00ff)))];
    assert_eq!(assemble(&src).unwrap(), vec![0x34, 0x12, 0xFF, 0x00]);
    let first = first_pass(&src).unwrap();
    assert_eq!(first.lines.len(), 4);
    assert_eq!(first.lines[3], AnnotatedLine { addr: 3, opcode: 0x00, arg: InstructionArg::NoArgs });
}

#[test]
fn define_and_use() {
    let src = vec![
        pragma(Pragma::Define(s("PORT"), lit(0x2000))),
        instr("sta", AddressingMode::Absolute(lab("PORT"))),
    ];
    assert_eq!(assemble(&src).unwrap(), vec![0x8D, 0x00, 0x20]);
}

#[test]
fn error_unknown_mnemonic() {
    let src = vec![instr("foo", AddressingMode::Immediate(ImmediateValue::Literal(1)))];
    assert_eq!(assemble(&src), Err(ParseError { line: 0, kind: ErrorKind::InvalidOpcode(s("foo")) }));
}

#[test]
fn opcode_fields_for_every_mnemonic_and_mode() {
    let mnemonics = ["ora", "and", "eor", "adc", "sta", "lda", "cmp", "sbc"];
    for (aaa, m) in mnemonics.iter().enumerate() {
        let modes: Vec<(u8, AddressingMode, u8)> = vec![
            (0, AddressingMode::IndirectX(lit(0x12)), 2),
            (1, AddressingMode::ZeroPage(lit(0x12)), 2),
            (2, AddressingMode::Immediate(ImmediateValue::Literal(0x12)), 2),
            (3, AddressingMode::Absolute(lit(0x1234)), 3),
            (4, AddressingMode::IndirectY(lit(0x12)), 2),
            (5, AddressingMode::ZeroPageX(lit(0x12)), 2),
            (6, AddressingMode::AbsoluteY(lit(0x1234)), 3),
            (7, AddressingMode::AbsoluteX(lit(0x1234)), 3),
        ];
        for (bbb, mode, size) in modes {
            let (op, _, got) = encode(&ParsedInstruction { mnemonic: s(m), addr_mode: mode }).unwrap();
            assert_eq!(op, ((aaa as u8) << 5) | (bbb << 2) | 1);
            assert_eq!(op >> 5, aaa as u8);
            assert_eq!((op >> 2) & 7, bbb);
            assert_eq!(op & 3, 1);
            assert_eq!(got, size);
        }
    }
}

#[test]
fn encoder_exact_values() {
    assert_eq!(
        encode(&ParsedInstruction { mnemonic: s("sbc"), addr_mode: AddressingMode::AbsoluteX(lab("t")) }),
        Ok((0xFD, InstructionArg::WordLabelArg(s("t")), 3))
    );
    assert_eq!(
        encode(&ParsedInstruction { mnemonic: s("ora"), addr_mode: AddressingMode::IndirectX(lit(0x44)) }),
        Ok((0x01, InstructionArg::ByteArg(0x44), 2))
    );
    assert_eq!(
        encode(&ParsedInstruction { mnemonic: s("cmp"), addr_mode: AddressingMode::IndirectY(lab("p")) }),
        Ok((0xD1, InstructionArg::ByteLabelArg(s("p")), 2))
    );
    assert_eq!(mnemonic_aaa("eor"), Some(2));
    assert_eq!(mnemonic_aaa("LDA"), None);
    assert_eq!(mnemonic_aaa("ld"), None);
    assert_eq!(check_overflow(0xff), Ok(0xff));
    assert_eq!(check_overflow(0x100), Err(ErrorKind::Overflow(0x100)));
}

#[test]
fn error_invalid_addressing_mode() {
    let src = vec![instr("lda", AddressingMode::Implied)];
    assert_eq!(assemble(&src), Err(ParseError { line: 0, kind: ErrorKind::InvalidArgument(s("lda")) }));
    let src = vec![instr("sta", AddressingMode::ZeroPageY(lit(1)))];
    assert_eq!(assemble(&src), Err(ParseError { line: 0, kind: ErrorKind::InvalidArgument(s("sta")) }));
}

#[test]
fn error_operand_overflow() {
    let src = vec![pragma(Pragma::Byte(1)), instr("lda", AddressingMode::ZeroPage(lit(0x100)))];
    assert_eq!(assemble(&src), Err(ParseError { line: 1, kind: ErrorKind::Overflow(0x100) }));
}

#[test]
fn error_undefined_label_in_first_pass() {
    let src = vec![pragma(Pragma::Word(lab("later"))), label("later")];
    assert_eq!(assemble(&src), Err(ParseError { line: 0, kind: ErrorKind::UndefinedLabel(s("later")) }));
    let src = vec![pragma(Pragma::Origin(lab("nowhere")))];
    assert_eq!(assemble(&src), Err(ParseError { line: 0, kind: ErrorKind::UndefinedLabel(s("nowhere")) }));
    let src = vec![pragma(Pragma::Define(s("a"), lab("b")))];
    assert_eq!(assemble(&src), Err(ParseError { line: 0, kind: ErrorKind::UndefinedLabel(s("b")) }));
}

#[test]
fn error_undefined_label_in_second_pass() {
    let src = vec![pragma(Pragma::Byte(0xEA)), instr("lda", AddressingMode::Absolute(lab("missing")))];
    assert_eq!(assemble(&src), Err(ParseError { line: 1, kind: ErrorKind::UndefinedLabel(s("missing")) }));
}

#[test]
fn error_duplicate_label() {
    let src = vec![
        label("here"),
        instr("lda", AddressingMode::Immediate(ImmediateValue::Literal(1))),
        label("here"),
    ];
    assert_eq!(assemble(&src), Err(ParseError { line: 2, kind: ErrorKind::DuplicateLabel(s("here")) }));
    let src = vec![label("x"), pragma(Pragma::Define(s("x"), lit(3)))];
    assert_eq!(first_pass(&src).unwrap_err(), ParseError { line: 1, kind: ErrorKind::DuplicateLabel(s("x")) });
}

#[test]
fn error_wide_label_in_byte_slot() {
    let src = vec![
        pragma(Pragma::Define(s("far"), lit(0x1234))),
        pragma(Pragma::Define(s("near"), lit(0x12))),
        instr("lda", AddressingMode::Immediate(ImmediateValue::Label(s("near")))),
        instr("lda", AddressingMode::ZeroPage(lab("far"))),
    ];
    assert_eq!(assemble(&src), Err(ParseError { line: 1, kind: ErrorKind::WideByteLabel(s("far")) }));
    let src = vec![
        pragma(Pragma::Define(s("near"), lit(0x12))),
        instr("lda", AddressingMode::Immediate(ImmediateValue::Label(s("near")))),
    ];
    assert_eq!(assemble(&src).unwrap(), vec![0xA9, 0x12]);
}

#[test]
fn error_include_unsupported() {
    let src = vec![pragma(Pragma::Include(s("other.s")))];
    assert_eq!(assemble(&src), Err(ParseError { line: 0, kind: ErrorKind::Unsupported(s("other.s")) }));
}

#[test]
fn error_address_space_overflow() {
    let src = vec![pragma(Pragma::Origin(lit(0xFFFE))), instr("lda", AddressingMode::Absolute(lit(1)))];
    assert_eq!(assemble(&src), Err(ParseError { line: 1, kind: ErrorKind::AddressOverflow }));
    let src = vec![pragma(Pragma::Origin(lit(0xFFFF))), pragma(Pragma::Byte(7))];
    let first = first_pass(&src).unwrap();
    assert_eq!(first.lines[0].addr, 0xFFFF);
    let src = vec![pragma(Pragma::Origin(lit(0xFFFF))), pragma(Pragma::Byte(7)), label("end")];
    assert_eq!(assemble(&src), Err(ParseError { line: 2, kind: ErrorKind::AddressOverflow }));
}

#[test]
fn bytes_pragma_and_empty_lines() {
    let src = vec![
        pragma(Pragma::Origin(lit(0x0200))),
        ParsedLine { label: String::new(), value: LineValue::Empty },
        pragma(Pragma::Bytes(vec![1, 2, 3])),
    ];
    let first = first_pass(&src).unwrap();
    let addrs: Vec<u16> = first.lines.iter().map(|l| l.addr).collect();
    assert_eq!(addrs, vec![0x0200, 0x0201, 0x0202]);
    assert_eq!(assemble(&src).unwrap(), vec![1, 2, 3]);
}

#[test]
fn label_line_skips_its_value() {
    let src = vec![ParsedLine {
        label: s("start"),
        value: LineValue::Instruction(ParsedInstruction {
            mnemonic: s("lda"),
            addr_mode: AddressingMode::Immediate(ImmediateValue::Literal(1)),
        }),
    }];
    let first = first_pass(&src).unwrap();
    assert_eq!(first.lines.len(), 0);
    assert_eq!(first.symbol_table.get(&s("start")), Some(0));
}

#[test]
fn sizes_add_up_to_counter() {
    let src = vec![
        instr("lda", AddressingMode::Absolute(lit(0x1234))),
        pragma(Pragma::Bytes(vec![9, 9])),
        instr("adc", AddressingMode::Immediate(ImmediateValue::Literal(1))),
        pragma(Pragma::Word(lit(5))),
        label("end"),
    ];
    let first = first_pass(&src).unwrap();
    let total: usize = first
        .lines
        .iter()
        .map(|l| match l.arg {
            InstructionArg::NoArgs => 1,
            InstructionArg::WordArg(_) | InstructionArg::WordLabelArg(_) => 3,
            _ => 2,
        })
        .sum();
    assert_eq!(total, 9);
    assert_eq!(first.symbol_table.get(&s("end")), Some(9));
    assert_eq!(assemble(&src).unwrap().len(), 9);
}

#[test]
fn labels_and_literals_give_same_bytes() {
    let with_labels = vec![
        pragma(Pragma::Define(s("zp"), lit(0x40))),
        pragma(Pragma::Define(s("io"), lit(0xD020))),
        label("top"),
        instr("lda", AddressingMode::ZeroPage(lab("zp"))),
        instr("sta", AddressingMode::Absolute(lab("io"))),
        instr("cmp", AddressingMode::Immediate(ImmediateValue::HighByte(s("io")))),
        pragma(Pragma::Word(lab("top"))),
    ];
    let with_literals = vec![
        pragma(Pragma::Define(s("zp"), lit(0x40))),
        pragma(Pragma::Define(s("io"), lit(0xD020))),
        label("top"),
        instr("lda", AddressingMode::ZeroPage(lit(0x40))),
        instr("sta", AddressingMode::Absolute(lit(0xD020))),
        instr("cmp", AddressingMode::Immediate(ImmediateValue::Literal(0xD0))),
        pragma(Pragma::Word(lit(0))),
    ];
    let a = assemble(&with_labels).unwrap();
    assert_eq!(a, vec![0xA5, 0x40, 0x8D, 0x20, 0xD0, 0xC9, 0xD0, 0x00, 0x00]);
    assert_eq!(a, assemble(&with_literals).unwrap());
}

#[test]
fn second_pass_twice_gives_same_bytes() {
    let src = vec![
        instr("lda", AddressingMode::Immediate(ImmediateValue::LowByte(s("data")))),
        instr("eor", AddressingMode::AbsoluteY(lab("data"))),
        label("data"),
        pragma(Pragma::Byte(0x55)),
    ];
    let first = first_pass(&src).unwrap();
    let once = second_pass(&first.lines, &first.symbol_table).unwrap();
    let twice = second_pass(&first.lines, &first.symbol_table).unwrap();
    assert_eq!(once, vec![0xA9, 0x05, 0x59, 0x05, 0x00, 0x55]);
    assert_eq!(once, twice);
}

#[test]
fn symbol_table_bindings() {
    let mut table = SymbolTable::new();
    assert_eq!(table.get(&s("a")), None);
    assert_eq!(add_symbol(&mut table, s("a"), 1), Ok(()));
    assert_eq!(add_symbol(&mut table, s("A"), 2), Ok(()));
    assert_eq!(add_symbol(&mut table, s("a"), 3), Err(ErrorKind::DuplicateLabel(s("a"))));
    assert_eq!(table.get(&s("a")), Some(1));
    assert_eq!(table.get(&s("A")), Some(2));
    assert!(table.contains(&s("A")));
    assert!(!table.contains(&s("b")));
}
