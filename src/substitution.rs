//! Labels against literals: a program assembles to the same bytes as the
//! program in which every label reference is replaced by the label's value.
use vstd::prelude::*;

use crate::encoder::{byte_operand_of, encode_spec};
use crate::pass_1::{lemma_step_grows, run_first, step, AnnotatedLine, PassState};
use crate::pass_2::{assemble_spec, line_bytes, run_second};
use crate::syntax::{Address, AddressingMode, ImmediateValue, LineValue, ParsedInstruction, ParsedLine, Pragma};

verus! {

/// An address with a bound label replaced by its value.
pub open spec fn subst_address(a: Address, symbols: Map<Seq<char>, u16>) -> Address {
    match a {
        Address::Label(l) => if symbols.contains_key(l@) {
            Address::Literal(symbols[l@])
        } else {
            a
        },
        _ => a,
    }
}

/// An immediate operand with a bound label replaced by the byte it stands for.
pub open spec fn subst_immediate(i: ImmediateValue, symbols: Map<Seq<char>, u16>) -> ImmediateValue {
    match i {
        ImmediateValue::Label(l) => if symbols.contains_key(l@) {
            ImmediateValue::Literal(symbols[l@] as u8)
        } else {
            i
        },
        ImmediateValue::LowByte(l) => if symbols.contains_key(l@) {
            ImmediateValue::Literal(symbols[l@] as u8)
        } else {
            i
        },
        ImmediateValue::HighByte(l) => if symbols.contains_key(l@) {
            ImmediateValue::Literal((symbols[l@] >> 8u16) as u8)
        } else {
            i
        },
        _ => i,
    }
}

/// An addressing mode with its operand's labels replaced by values.
pub open spec fn subst_mode(m: AddressingMode, symbols: Map<Seq<char>, u16>) -> AddressingMode {
    match m {
        AddressingMode::Immediate(i) => AddressingMode::Immediate(subst_immediate(i, symbols)),
        AddressingMode::ZeroPage(a) => AddressingMode::ZeroPage(subst_address(a, symbols)),
        AddressingMode::ZeroPageX(a) => AddressingMode::ZeroPageX(subst_address(a, symbols)),
        AddressingMode::ZeroPageY(a) => AddressingMode::ZeroPageY(subst_address(a, symbols)),
        AddressingMode::Absolute(a) => AddressingMode::Absolute(subst_address(a, symbols)),
        AddressingMode::AbsoluteX(a) => AddressingMode::AbsoluteX(subst_address(a, symbols)),
        AddressingMode::AbsoluteY(a) => AddressingMode::AbsoluteY(subst_address(a, symbols)),
        AddressingMode::Indirect(a) => AddressingMode::Indirect(subst_address(a, symbols)),
        AddressingMode::IndirectX(a) => AddressingMode::IndirectX(subst_address(a, symbols)),
        AddressingMode::IndirectY(a) => AddressingMode::IndirectY(subst_address(a, symbols)),
        AddressingMode::Relative(a) => AddressingMode::Relative(subst_address(a, symbols)),
        _ => m,
    }
}

/// A line with every label reference replaced by its value; the label the
/// line binds, if any, stays.
pub open spec fn subst_line(line: ParsedLine, symbols: Map<Seq<char>, u16>) -> ParsedLine {
    ParsedLine {
        label: line.label,
        value: match line.value {
            LineValue::Instruction(ins) => LineValue::Instruction(
                ParsedInstruction { mnemonic: ins.mnemonic, addr_mode: subst_mode(ins.addr_mode, symbols) },
            ),
            LineValue::Pragma(p) => LineValue::Pragma(
                match p {
                    Pragma::Word(a) => Pragma::Word(subst_address(a, symbols)),
                    Pragma::Origin(a) => Pragma::Origin(subst_address(a, symbols)),
                    Pragma::Define(n, a) => Pragma::Define(n, subst_address(a, symbols)),
                    _ => p,
                },
            ),
            LineValue::Empty => LineValue::Empty,
        },
    }
}

/// A program with every label reference replaced by its value.
pub open spec fn subst_program(src: Seq<ParsedLine>, symbols: Map<Seq<char>, u16>) -> Seq<ParsedLine> {
    src.map_values(|l: ParsedLine| subst_line(l, symbols))
}

/// Two lists of annotated lines that give the same bytes, line by line.
pub open spec fn same_bytes(a: Seq<AnnotatedLine>, b: Seq<AnnotatedLine>, symbols: Map<Seq<char>, u16>) -> bool {
    a.len() == b.len() && forall|i: int| 0 <= i < a.len() ==> #[trigger] line_bytes(a[i], symbols) == line_bytes(b[i], symbols)
}

/// First-pass states that agree but for label references resolved early.
pub open spec fn corresponds(s: PassState, t: PassState, symbols: Map<Seq<char>, u16>) -> bool {
    s.symbols == t.symbols && s.counter == t.counter && same_bytes(s.lines, t.lines, symbols)
}

proof fn lemma_second_ok_each(lines: Seq<AnnotatedLine>, symbols: Map<Seq<char>, u16>)
    requires
        run_second(lines, symbols) is Ok,
    ensures
        forall|i: int| 0 <= i < lines.len() ==> (#[trigger] line_bytes(lines[i], symbols)) is Ok,
    decreases lines.len(),
{
    if lines.len() > 0 {
        lemma_second_ok_each(lines.drop_last(), symbols);
        assert forall|i: int| 0 <= i < lines.len() implies (#[trigger] line_bytes(lines[i], symbols)) is Ok by {
            if i < lines.len() - 1 {
                assert(lines[i] == lines.drop_last()[i]);
            }
        }
    }
}

proof fn lemma_second_same(a: Seq<AnnotatedLine>, b: Seq<AnnotatedLine>, symbols: Map<Seq<char>, u16>)
    requires
        same_bytes(a, b, symbols),
    ensures
        run_second(a, symbols) == run_second(b, symbols),
    decreases a.len(),
{
    if a.len() > 0 {
        assert(line_bytes(a[a.len() - 1], symbols) == line_bytes(b[b.len() - 1], symbols));
        assert forall|i: int| 0 <= i < a.drop_last().len() implies #[trigger] line_bytes(a.drop_last()[i], symbols)
            == line_bytes(b.drop_last()[i], symbols) by {
            assert(line_bytes(a[i], symbols) == line_bytes(b[i], symbols));
        }
        lemma_second_same(a.drop_last(), b.drop_last(), symbols);
    }
}

/// Every prefix of a program whose first pass succeeds succeeds too, with a
/// part of the final symbol table and a prefix of the final lines.
proof fn lemma_prefix_ok(src: Seq<ParsedLine>, k: int)
    requires
        0 <= k <= src.len(),
        run_first(src) is Ok,
    ensures
        run_first(src.take(k)) is Ok,
        run_first(src.take(k))->Ok_0.symbols.submap_of(run_first(src)->Ok_0.symbols),
        run_first(src.take(k))->Ok_0.lines.len() <= run_first(src)->Ok_0.lines.len(),
        run_first(src)->Ok_0.lines.take(run_first(src.take(k))->Ok_0.lines.len() as int)
            == run_first(src.take(k))->Ok_0.lines,
    decreases src.len(),
{
    let fin = run_first(src)->Ok_0;
    if k == src.len() {
        assert(src.take(k) =~= src);
        assert(fin.lines.take(fin.lines.len() as int) =~= fin.lines);
    } else {
        let prev = src.drop_last();
        assert(prev.take(k) =~= src.take(k));
        lemma_prefix_ok(prev, k);
        let mid = run_first(prev)->Ok_0;
        let pre = run_first(src.take(k))->Ok_0;
        lemma_step_grows(mid, src.last());
        assert(fin.lines.take(mid.lines.len() as int).take(pre.lines.len() as int) =~= fin.lines.take(
            pre.lines.len() as int,
        ));
    }
}

proof fn lemma_byte_slot(a: Address, f: Map<Seq<char>, u16>, opcode: u8, addr: u16)
    requires
        byte_operand_of(a) is Ok,
        line_bytes(AnnotatedLine { addr, opcode, arg: byte_operand_of(a)->Ok_0 }, f) is Ok,
    ensures
        byte_operand_of(subst_address(a, f)) is Ok,
        line_bytes(AnnotatedLine { addr, opcode, arg: byte_operand_of(subst_address(a, f))->Ok_0 }, f)
            == line_bytes(AnnotatedLine { addr, opcode, arg: byte_operand_of(a)->Ok_0 }, f),
{
}

/// One step of the first pass on a line and on its substituted form keeps
/// the two states in correspondence.
proof fn lemma_step_subst(s: PassState, t: PassState, line: ParsedLine, f: Map<Seq<char>, u16>)
    requires
        corresponds(s, t, f),
        step(s, line) is Ok,
        step(s, line)->Ok_0.symbols.submap_of(f),
        forall|i: int|
            0 <= i < step(s, line)->Ok_0.lines.len() ==> (#[trigger] line_bytes(step(s, line)->Ok_0.lines[i], f)) is Ok,
    ensures
        step(t, subst_line(line, f)) is Ok,
        corresponds(step(s, line)->Ok_0, step(t, subst_line(line, f))->Ok_0, f),
{
    let s2 = step(s, line)->Ok_0;
    let sl = subst_line(line, f);
    lemma_step_grows(s, line);
    assert forall|k: Seq<char>| #[trigger] s.symbols.contains_key(k) implies f.contains_key(k) && f[k]
        == s.symbols[k] by {
        assert(s2.symbols.contains_key(k));
        assert(s2.symbols[k] == s.symbols[k]);
        assert(f.contains_key(k));
        assert(f[k] == s2.symbols[k]);
    }
    assert(s.symbols.submap_of(f));
    if line.label@.len() == 0 {
        match line.value {
            LineValue::Instruction(ins) => {
                let sins = ParsedInstruction { mnemonic: ins.mnemonic, addr_mode: subst_mode(ins.addr_mode, f) };
                let (op, arg, size) = encode_spec(ins)->Ok_0;
                let n = s.lines.len() as int;
                let addr = s2.lines[n].addr;
                assert(s2.lines[n] == AnnotatedLine { addr, opcode: op, arg });
                assert(line_bytes(s2.lines[n], f) is Ok);
                match ins.addr_mode {
                    AddressingMode::IndirectX(a) => lemma_byte_slot(a, f, op, addr),
                    AddressingMode::ZeroPage(a) => lemma_byte_slot(a, f, op, addr),
                    AddressingMode::IndirectY(a) => lemma_byte_slot(a, f, op, addr),
                    AddressingMode::ZeroPageX(a) => lemma_byte_slot(a, f, op, addr),
                    _ => {},
                }
                let t2 = step(t, sl)->Ok_0;
                assert(encode_spec(sins) is Ok);
                assert(line_bytes(s2.lines[n], f) == line_bytes(t2.lines[n], f));
                assert forall|i: int| 0 <= i < s2.lines.len() implies #[trigger] line_bytes(s2.lines[i], f)
                    == line_bytes(t2.lines[i], f) by {
                    if i < n {
                        assert(line_bytes(s.lines[i], f) == line_bytes(t.lines[i], f));
                    }
                }
            },
            LineValue::Pragma(p) => {
                let t2 = step(t, sl)->Ok_0;
                match p {
                    Pragma::Bytes(bs) => {
                        assert forall|i: int| 0 <= i < s2.lines.len() implies #[trigger] line_bytes(s2.lines[i], f)
                            == line_bytes(t2.lines[i], f) by {
                            if i < s.lines.len() {
                                assert(line_bytes(s.lines[i], f) == line_bytes(t.lines[i], f));
                            }
                        }
                    },
                    Pragma::Word(a) => {
                        assert forall|i: int| 0 <= i < s2.lines.len() implies #[trigger] line_bytes(s2.lines[i], f)
                            == line_bytes(t2.lines[i], f) by {
                            if i < s.lines.len() {
                                assert(line_bytes(s.lines[i], f) == line_bytes(t.lines[i], f));
                            }
                        }
                    },
                    Pragma::Byte(b) => {
                        assert forall|i: int| 0 <= i < s2.lines.len() implies #[trigger] line_bytes(s2.lines[i], f)
                            == line_bytes(t2.lines[i], f) by {
                            if i < s.lines.len() {
                                assert(line_bytes(s.lines[i], f) == line_bytes(t.lines[i], f));
                            }
                        }
                    },
                    _ => {},
                }
            },
            LineValue::Empty => {},
        }
    }
}

/// The substituted program's first pass keeps pace with the original's.
proof fn lemma_subst_prefix(src: Seq<ParsedLine>, k: int)
    requires
        0 <= k <= src.len(),
        assemble_spec(src) is Ok,
    ensures
        run_first(subst_program(src, run_first(src)->Ok_0.symbols).take(k)) is Ok,
        corresponds(
            run_first(src.take(k))->Ok_0,
            run_first(subst_program(src, run_first(src)->Ok_0.symbols).take(k))->Ok_0,
            run_first(src)->Ok_0.symbols,
        ),
    decreases k,
{
    let fin = run_first(src)->Ok_0;
    let f = fin.symbols;
    let sub = subst_program(src, f);
    lemma_prefix_ok(src, k);
    if k == 0 {
        assert(src.take(0) =~= Seq::<ParsedLine>::empty());
        assert(sub.take(0) =~= Seq::<ParsedLine>::empty());
    } else {
        lemma_subst_prefix(src, k - 1);
        lemma_prefix_ok(src, k - 1);
        assert(src.take(k).drop_last() =~= src.take(k - 1));
        assert(sub.take(k).drop_last() =~= sub.take(k - 1));
        let s = run_first(src.take(k - 1))->Ok_0;
        let t = run_first(sub.take(k - 1))->Ok_0;
        let s2 = run_first(src.take(k))->Ok_0;
        lemma_second_ok_each(fin.lines, f);
        assert forall|i: int| 0 <= i < s2.lines.len() implies (#[trigger] line_bytes(s2.lines[i], f)) is Ok by {
            assert(s2.lines[i] == fin.lines[i]);
        }
        assert(sub.take(k).last() == subst_line(src[k - 1], f));
        lemma_step_subst(s, t, src[k - 1], f);
    }
}

/// A program whose labels are all bound where they are needed assembles to
/// the same bytes as the same program with every label reference replaced
/// by the label's value.
pub proof fn lemma_labels_as_literals(src: Seq<ParsedLine>)
    requires
        assemble_spec(src) is Ok,
    ensures
        assemble_spec(subst_program(src, run_first(src)->Ok_0.symbols)) == assemble_spec(src),
{
    let fin = run_first(src)->Ok_0;
    let sub = subst_program(src, fin.symbols);
    lemma_subst_prefix(src, src.len() as int);
    assert(src.take(src.len() as int) =~= src);
    assert(sub.take(src.len() as int) =~= sub);
    lemma_second_same(fin.lines, run_first(sub)->Ok_0.lines, fin.symbols);
}

} // verus!
