//! The second pass: resolves operand placeholders against the symbol table
//! and produces the byte stream, in emission order.
use vstd::prelude::*;

use crate::error::{ErrorKind, ParseError};
use crate::pass_1::{binding_of, first_pass, lemma_duplicate_binding, run_first, AnnotatedLine, InstructionArg};
use crate::symbols::SymbolTable;
use crate::syntax::ParsedLine;

verus! {

/// The value of a label in the symbol table.
pub open spec fn lookup_spec(name: String, symbols: Map<Seq<char>, u16>) -> Result<u16, ErrorKind> {
    if symbols.contains_key(name@) {
        Ok(symbols[name@])
    } else {
        Err(ErrorKind::UndefinedLabel(name))
    }
}

/// The bytes of one annotated line: the opcode, then the resolved operand,
/// words low byte first.
pub open spec fn line_bytes(l: AnnotatedLine, symbols: Map<Seq<char>, u16>) -> Result<Seq<u8>, ErrorKind> {
    match l.arg {
        InstructionArg::NoArgs => Ok(seq![l.opcode]),
        InstructionArg::ByteArg(b) => Ok(seq![l.opcode, b]),
        InstructionArg::ByteLabelArg(n) => match lookup_spec(n, symbols) {
            Ok(v) => if v <= 0xFF {
                Ok(seq![l.opcode, v as u8])
            } else {
                Err(ErrorKind::WideByteLabel(n))
            },
            Err(e) => Err(e),
        },
        InstructionArg::ByteLabelLowArg(n) => match lookup_spec(n, symbols) {
            Ok(v) => Ok(seq![l.opcode, v as u8]),
            Err(e) => Err(e),
        },
        InstructionArg::ByteLabelHighArg(n) => match lookup_spec(n, symbols) {
            Ok(v) => Ok(seq![l.opcode, (v >> 8u16) as u8]),
            Err(e) => Err(e),
        },
        InstructionArg::WordArg(w) => Ok(seq![l.opcode, w as u8, (w >> 8u16) as u8]),
        InstructionArg::WordLabelArg(n) => match lookup_spec(n, symbols) {
            Ok(v) => Ok(seq![l.opcode, v as u8, (v >> 8u16) as u8]),
            Err(e) => Err(e),
        },
    }
}

/// The second pass over `lines`: their bytes concatenated in order, or the
/// first error with the index of the annotated line that raised it.
pub open spec fn run_second(lines: Seq<AnnotatedLine>, symbols: Map<Seq<char>, u16>) -> Result<Seq<u8>, ParseError>
    decreases lines.len(),
{
    if lines.len() == 0 {
        Ok(Seq::empty())
    } else {
        match run_second(lines.drop_last(), symbols) {
            Ok(bytes) => match line_bytes(lines.last(), symbols) {
                Ok(b) => Ok(bytes + b),
                Err(k) => Err(ParseError { line: (lines.len() - 1) as usize, kind: k }),
            },
            Err(e) => Err(e),
        }
    }
}

/// The whole assembler: the first pass, then the second on what it produced.
pub open spec fn assemble_spec(src: Seq<ParsedLine>) -> Result<Seq<u8>, ParseError> {
    match run_first(src) {
        Ok(st) => run_second(st.lines, st.symbols),
        Err(e) => Err(e),
    }
}

/// The bytes of a returned byte stream.
pub open spec fn bytes_outcome(r: Result<Vec<u8>, ParseError>) -> Result<Seq<u8>, ParseError> {
    match r {
        Ok(v) => Ok(v@),
        Err(e) => Err(e),
    }
}

/// Once a prefix of the annotated lines fails, the whole pass fails with
/// that error.
pub proof fn lemma_second_error_persists(lines: Seq<AnnotatedLine>, symbols: Map<Seq<char>, u16>, k: int)
    requires
        0 <= k <= lines.len(),
        run_second(lines.take(k), symbols) is Err,
    ensures
        run_second(lines, symbols) == run_second(lines.take(k), symbols),
    decreases lines.len(),
{
    if lines.len() > k {
        assert(lines.drop_last().take(k) =~= lines.take(k));
        lemma_second_error_persists(lines.drop_last(), symbols, k);
    } else {
        assert(lines.take(k) =~= lines);
    }
}

/// Looks up a label.
fn lookup(name: &String, table: &SymbolTable) -> (r: Result<u16, ErrorKind>)
    ensures
        r == lookup_spec(*name, table@),
{
    match table.get(name) {
        Some(v) => Ok(v),
        None => Err(ErrorKind::UndefinedLabel(name.clone())),
    }
}

/// Appends the bytes of one annotated line to `out`.
fn emit_line(l: &AnnotatedLine, table: &SymbolTable, out: &mut Vec<u8>) -> (r: Result<(), ErrorKind>)
    ensures
        match line_bytes(*l, table@) {
            Ok(b) => r is Ok && final(out)@ == old(out)@ + b,
            Err(k) => r == Err::<(), ErrorKind>(k),
        },
{
    let ghost start = out@;
    out.push(l.opcode);
    match &l.arg {
        InstructionArg::NoArgs => {},
        InstructionArg::ByteArg(b) => {
            out.push(*b);
        },
        InstructionArg::ByteLabelArg(n) => {
            let v = match lookup(n, table) {
                Ok(v) => v,
                Err(e) => return Err(e),
            };
            if v > 0xFF {
                return Err(ErrorKind::WideByteLabel(n.clone()));
            }
            out.push(v as u8);
        },
        InstructionArg::ByteLabelLowArg(n) => {
            let v = match lookup(n, table) {
                Ok(v) => v,
                Err(e) => return Err(e),
            };
            out.push(v as u8);
        },
        InstructionArg::ByteLabelHighArg(n) => {
            let v = match lookup(n, table) {
                Ok(v) => v,
                Err(e) => return Err(e),
            };
            out.push((v >> 8u16) as u8);
        },
        InstructionArg::WordArg(w) => {
            out.push(*w as u8);
            out.push((*w >> 8u16) as u8);
        },
        InstructionArg::WordLabelArg(n) => {
            let v = match lookup(n, table) {
                Ok(v) => v,
                Err(e) => return Err(e),
            };
            out.push(v as u8);
            out.push((v >> 8u16) as u8);
        },
    }
    proof {
        if let Ok(b) = line_bytes(*l, table@) {
            assert(out@ =~= start + b);
        }
    }
    Ok(())
}

/// Performs the second pass: resolves every placeholder and returns the
/// bytes of all annotated lines, in emission order.
pub fn second_pass(lines: &Vec<AnnotatedLine>, symbol_table: &SymbolTable) -> (r: Result<Vec<u8>, ParseError>)
    ensures
        bytes_outcome(r) == run_second(lines@, symbol_table@),
{
    let mut out: Vec<u8> = Vec::new();
    let mut i: usize = 0;
    assert(lines@.take(0) =~= Seq::<AnnotatedLine>::empty());
    assert(out@ =~= Seq::<u8>::empty());
    while i < lines.len()
        invariant
            i <= lines@.len(),
            run_second(lines@.take(i as int), symbol_table@) == Ok::<Seq<u8>, ParseError>(out@),
        decreases lines@.len() - i,
    {
        assert(lines@.take(i + 1).drop_last() =~= lines@.take(i as int));
        match emit_line(&lines[i], symbol_table, &mut out) {
            Ok(()) => {},
            Err(kind) => {
                proof {
                    lemma_second_error_persists(lines@, symbol_table@, i + 1);
                }
                return Err(ParseError { line: i, kind });
            },
        }
        i = i + 1;
    }
    assert(lines@.take(i as int) =~= lines@);
    Ok(out)
}

/// Assembles a program: the first pass, then the second.
pub fn assemble(src: &Vec<ParsedLine>) -> (r: Result<Vec<u8>, ParseError>)
    ensures
        bytes_outcome(r) == assemble_spec(src@),
{
    let first = match first_pass(src) {
        Ok(f) => f,
        Err(e) => return Err(e),
    };
    second_pass(&first.lines, &first.symbol_table)
}

/// Running the second pass twice on the same annotated lines and symbol
/// table gives the same outcome, byte for byte.
pub proof fn lemma_second_pass_idempotent(
    lines: Seq<AnnotatedLine>,
    symbols: Map<Seq<char>, u16>,
    first: Result<Vec<u8>, ParseError>,
    second: Result<Vec<u8>, ParseError>,
)
    requires
        bytes_outcome(first) == run_second(lines, symbols),
        bytes_outcome(second) == run_second(lines, symbols),
    ensures
        bytes_outcome(first) == bytes_outcome(second),
        first is Ok <==> second is Ok,
        first is Ok ==> first->Ok_0@ == second->Ok_0@,
{
}

/// A program that binds a name twice assembles to an error and no bytes.
pub proof fn lemma_duplicate_binding_no_output(src: Seq<ParsedLine>, i: int, j: int)
    requires
        0 <= i < j < src.len(),
        binding_of(src[i]) is Some,
        binding_of(src[j]) is Some,
        binding_of(src[i])->Some_0@ == binding_of(src[j])->Some_0@,
    ensures
        assemble_spec(src) is Err,
        assemble_spec(src) == Err::<Seq<u8>, ParseError>(run_first(src)->Err_0),
{
    lemma_duplicate_binding(src, i, j);
}

} // verus!
