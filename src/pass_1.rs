//! The first pass: walks parsed lines, keeps the location counter, binds
//! labels and produces annotated lines.
use vstd::prelude::*;

use crate::encoder::{encode, encode_spec};
use crate::error::{ErrorKind, ParseError};
use crate::symbols::SymbolTable;
use crate::syntax::{Address, LineValue, ParsedLine, Pragma};

verus! {

/// The operand placeholder of an annotated line.
#[derive(Debug, PartialEq)]
pub enum InstructionArg {
    NoArgs,
    ByteArg(u8),
    ByteLabelArg(String),
    ByteLabelLowArg(String),
    ByteLabelHighArg(String),
    WordArg(u16),
    WordLabelArg(String),
}

/// One emitted byte (`arg` is `NoArgs`), or an instruction whose operand the
/// second pass resolves.
#[derive(Debug, PartialEq)]
pub struct AnnotatedLine {
    pub addr: u16,
    pub opcode: u8,
    pub arg: InstructionArg,
}

} // verus!

verus! {

/// The state of the first pass: the annotated lines so far, the symbol
/// table and the location counter (at most 0x10000, one past the last
/// address).
pub struct PassState {
    pub lines: Seq<AnnotatedLine>,
    pub symbols: Map<Seq<char>, u16>,
    pub counter: int,
}

/// The result of the first pass.
#[derive(Debug)]
pub struct FirstPassResult {
    pub lines: Vec<AnnotatedLine>,
    pub symbol_table: SymbolTable,
}

/// The state before the first line: nothing emitted, no symbols, counter 0.
pub open spec fn initial_state() -> PassState {
    PassState { lines: Seq::empty(), symbols: Map::empty(), counter: 0 }
}

/// The value of an address: a literal, or a label that must be bound.
pub open spec fn resolve_spec(a: Address, symbols: Map<Seq<char>, u16>) -> Result<u16, ErrorKind> {
    match a {
        Address::Literal(n) => Ok(n),
        Address::Label(l) => if symbols.contains_key(l@) {
            Ok(symbols[l@])
        } else {
            Err(ErrorKind::UndefinedLabel(l))
        },
    }
}

/// One annotated line per byte, at consecutive addresses from `start`.
pub open spec fn byte_lines(start: int, bytes: Seq<u8>) -> Seq<AnnotatedLine> {
    Seq::new(
        bytes.len(),
        |i: int| AnnotatedLine { addr: (start + i) as u16, opcode: bytes[i], arg: InstructionArg::NoArgs },
    )
}

/// The two bytes of a word, low byte first.
pub open spec fn word_bytes(w: u16) -> Seq<u8> {
    seq![w as u8, (w >> 8u16) as u8]
}

/// Appends an annotated line of `size` bytes at the location counter.
pub open spec fn emit(st: PassState, opcode: u8, arg: InstructionArg, size: int) -> Result<PassState, ErrorKind> {
    if st.counter + size > 0x10000 {
        Err(ErrorKind::AddressOverflow)
    } else {
        Ok(
            PassState {
                lines: st.lines.push(AnnotatedLine { addr: st.counter as u16, opcode, arg }),
                counter: st.counter + size,
                ..st
            },
        )
    }
}

/// Appends one annotated line per byte at the location counter.
pub open spec fn emit_bytes(st: PassState, bytes: Seq<u8>) -> Result<PassState, ErrorKind> {
    if st.counter + bytes.len() > 0x10000 {
        Err(ErrorKind::AddressOverflow)
    } else {
        Ok(
            PassState {
                lines: st.lines + byte_lines(st.counter, bytes),
                counter: st.counter + bytes.len(),
                ..st
            },
        )
    }
}

/// What a pragma does to the state.
pub open spec fn pragma_step(st: PassState, p: Pragma) -> Result<PassState, ErrorKind> {
    match p {
        Pragma::Byte(b) => emit(st, b, InstructionArg::NoArgs, 1),
        Pragma::Bytes(bs) => emit_bytes(st, bs@),
        Pragma::Word(a) => match resolve_spec(a, st.symbols) {
            Ok(w) => emit_bytes(st, word_bytes(w)),
            Err(e) => Err(e),
        },
        Pragma::Origin(a) => match resolve_spec(a, st.symbols) {
            Ok(v) => Ok(PassState { counter: v as int, ..st }),
            Err(e) => Err(e),
        },
        Pragma::Define(name, a) => if st.symbols.contains_key(name@) {
            Err(ErrorKind::DuplicateLabel(name))
        } else {
            match resolve_spec(a, st.symbols) {
                Ok(v) => Ok(PassState { symbols: st.symbols.insert(name@, v), ..st }),
                Err(e) => Err(e),
            }
        },
        Pragma::Include(path) => Err(ErrorKind::Unsupported(path)),
    }
}

/// What one parsed line does to the state. A line with a label binds it to
/// the location counter, and its value is not processed.
pub open spec fn step(st: PassState, line: ParsedLine) -> Result<PassState, ErrorKind> {
    if line.label@.len() > 0 {
        if st.symbols.contains_key(line.label@) {
            Err(ErrorKind::DuplicateLabel(line.label))
        } else if st.counter > 0xFFFF {
            Err(ErrorKind::AddressOverflow)
        } else {
            Ok(PassState { symbols: st.symbols.insert(line.label@, st.counter as u16), ..st })
        }
    } else {
        match line.value {
            LineValue::Instruction(instr) => match encode_spec(instr) {
                Ok((opcode, arg, size)) => emit(st, opcode, arg, size as int),
                Err(e) => Err(e),
            },
            LineValue::Pragma(p) => pragma_step(st, p),
            LineValue::Empty => Ok(st),
        }
    }
}

/// The first pass over `src`: the final state, or the first error with the
/// index of the line that raised it.
pub open spec fn run_first(src: Seq<ParsedLine>) -> Result<PassState, ParseError>
    decreases src.len(),
{
    if src.len() == 0 {
        Ok(initial_state())
    } else {
        match run_first(src.drop_last()) {
            Ok(st) => match step(st, src.last()) {
                Ok(next) => Ok(next),
                Err(k) => Err(ParseError { line: (src.len() - 1) as usize, kind: k }),
            },
            Err(e) => Err(e),
        }
    }
}

/// The annotated lines and symbol table of a first-pass outcome.
pub open spec fn outputs(r: Result<PassState, ParseError>) -> Result<(Seq<AnnotatedLine>, Map<Seq<char>, u16>), ParseError> {
    match r {
        Ok(st) => Ok((st.lines, st.symbols)),
        Err(e) => Err(e),
    }
}

/// The annotated lines and symbol table of what `first_pass` returned.
pub open spec fn result_outputs(r: Result<FirstPassResult, ParseError>) -> Result<(Seq<AnnotatedLine>, Map<Seq<char>, u16>), ParseError> {
    match r {
        Ok(res) => Ok((res.lines@, res.symbol_table@)),
        Err(e) => Err(e),
    }
}

/// Once a prefix of the input fails, the whole input fails with that error.
pub proof fn lemma_error_persists(src: Seq<ParsedLine>, k: int)
    requires
        0 <= k <= src.len(),
        run_first(src.take(k)) is Err,
    ensures
        run_first(src) == run_first(src.take(k)),
    decreases src.len(),
{
    if src.len() > k {
        assert(src.drop_last().take(k) =~= src.take(k));
        lemma_error_persists(src.drop_last(), k);
    } else {
        assert(src.take(k) =~= src);
    }
}

/// The value of an address operand of a pragma.
fn resolve(a: &Address, table: &SymbolTable) -> (r: Result<u16, ErrorKind>)
    ensures
        r == resolve_spec(*a, table@),
{
    match a {
        Address::Literal(n) => Ok(*n),
        Address::Label(l) => match table.get(l) {
            Some(v) => Ok(v),
            None => Err(ErrorKind::UndefinedLabel(l.clone())),
        },
    }
}

/// Appends one annotated line per byte of `bytes` at `*counter`.
fn push_bytes(bytes: &Vec<u8>, lines: &mut Vec<AnnotatedLine>, counter: &mut u32)
    requires
        *old(counter) + bytes@.len() <= 0x10000,
    ensures
        final(lines)@ == old(lines)@ + byte_lines(*old(counter) as int, bytes@),
        *final(counter) == *old(counter) + bytes@.len(),
{
    let ghost start = *counter as int;
    let mut j: usize = 0;
    while j < bytes.len()
        invariant
            j <= bytes@.len(),
            start + bytes@.len() <= 0x10000,
            *counter == start + j,
            lines@ == old(lines)@ + byte_lines(start, bytes@.take(j as int)),
        decreases bytes@.len() - j,
    {
        lines.push(AnnotatedLine { addr: *counter as u16, opcode: bytes[j], arg: InstructionArg::NoArgs });
        *counter = *counter + 1;
        j = j + 1;
        assert(lines@ =~= old(lines)@ + byte_lines(start, bytes@.take(j as int)));
    }
    assert(bytes@.take(j as int) =~= bytes@);
}

/// Performs one parsed line on the state held in `lines`, `table` and
/// `counter`, as `step` says.
fn step_line(line: &ParsedLine, lines: &mut Vec<AnnotatedLine>, table: &mut SymbolTable, counter: &mut u32) -> (r: Result<(), ErrorKind>)
    requires
        *old(counter) <= 0x10000,
    ensures
        ({
            let before = PassState { lines: old(lines)@, symbols: old(table)@, counter: *old(counter) as int };
            match step(before, *line) {
                Ok(st) => r is Ok && final(lines)@ == st.lines && final(table)@ == st.symbols
                    && *final(counter) as int == st.counter,
                Err(k) => r == Err::<(), ErrorKind>(k),
            }
        }),
        r is Ok ==> *final(counter) <= 0x10000,
{
    if line.label.as_str().unicode_len() > 0 {
        if table.contains(&line.label) {
            return Err(ErrorKind::DuplicateLabel(line.label.clone()));
        }
        if *counter > 0xFFFF {
            return Err(ErrorKind::AddressOverflow);
        }
        table.insert(line.label.clone(), *counter as u16);
        return Ok(());
    }
    match &line.value {
        LineValue::Instruction(instr) => {
            let (opcode, arg, size) = match encode(instr) {
                Ok(x) => x,
                Err(e) => return Err(e),
            };
            if *counter + size as u32 > 0x10000 {
                return Err(ErrorKind::AddressOverflow);
            }
            lines.push(AnnotatedLine { addr: *counter as u16, opcode, arg });
            *counter = *counter + size as u32;
            Ok(())
        },
        LineValue::Pragma(p) => match p {
            Pragma::Byte(b) => {
                if *counter + 1 > 0x10000 {
                    return Err(ErrorKind::AddressOverflow);
                }
                lines.push(AnnotatedLine { addr: *counter as u16, opcode: *b, arg: InstructionArg::NoArgs });
                *counter = *counter + 1;
                Ok(())
            },
            Pragma::Bytes(bs) => {
                if bs.len() > 0x10000 || *counter + bs.len() as u32 > 0x10000 {
                    return Err(ErrorKind::AddressOverflow);
                }
                push_bytes(bs, lines, counter);
                Ok(())
            },
            Pragma::Word(a) => {
                let w = match resolve(a, table) {
                    Ok(w) => w,
                    Err(e) => return Err(e),
                };
                if *counter + 2 > 0x10000 {
                    return Err(ErrorKind::AddressOverflow);
                }
                let pair = vec![w as u8, (w >> 8u16) as u8];
                assert(pair@ =~= word_bytes(w));
                push_bytes(&pair, lines, counter);
                Ok(())
            },
            Pragma::Origin(a) => {
                let v = match resolve(a, table) {
                    Ok(v) => v,
                    Err(e) => return Err(e),
                };
                *counter = v as u32;
                Ok(())
            },
            Pragma::Define(name, a) => {
                if table.contains(name) {
                    return Err(ErrorKind::DuplicateLabel(name.clone()));
                }
                let v = match resolve(a, table) {
                    Ok(v) => v,
                    Err(e) => return Err(e),
                };
                table.insert(name.clone(), v);
                Ok(())
            },
            Pragma::Include(path) => Err(ErrorKind::Unsupported(path.clone())),
        },
        LineValue::Empty => Ok(()),
    }
}

/// Performs the first pass on the parsed lines of a program.
pub fn first_pass(src: &Vec<ParsedLine>) -> (r: Result<FirstPassResult, ParseError>)
    ensures
        result_outputs(r) == outputs(run_first(src@)),
{
    let mut lines: Vec<AnnotatedLine> = Vec::new();
    let mut symbol_table = SymbolTable::new();
    let mut counter: u32 = 0;
    let mut i: usize = 0;
    assert(src@.take(0) =~= Seq::<ParsedLine>::empty());
    assert(lines@ =~= Seq::<AnnotatedLine>::empty());
    while i < src.len()
        invariant
            i <= src@.len(),
            counter <= 0x10000,
            run_first(src@.take(i as int)) == Ok::<PassState, ParseError>(
                PassState { lines: lines@, symbols: symbol_table@, counter: counter as int },
            ),
        decreases src@.len() - i,
    {
        assert(src@.take(i + 1).drop_last() =~= src@.take(i as int));
        match step_line(&src[i], &mut lines, &mut symbol_table, &mut counter) {
            Ok(()) => {},
            Err(kind) => {
                let e = ParseError { line: i, kind };
                proof {
                    lemma_error_persists(src@, i + 1);
                }
                return Err(e);
            },
        }
        i = i + 1;
    }
    assert(src@.take(i as int) =~= src@);
    Ok(FirstPassResult { lines, symbol_table })
}

} // verus!

verus! {

/// The number of bytes an annotated line stands for.
pub open spec fn line_size(l: AnnotatedLine) -> int {
    match l.arg {
        InstructionArg::NoArgs => 1,
        InstructionArg::WordArg(_) => 3,
        InstructionArg::WordLabelArg(_) => 3,
        _ => 2,
    }
}

/// The number of bytes a list of annotated lines stands for.
pub open spec fn total_size(lines: Seq<AnnotatedLine>) -> int
    decreases lines.len(),
{
    if lines.len() == 0 {
        0
    } else {
        total_size(lines.drop_last()) + line_size(lines.last())
    }
}

/// Whether a line moves the location counter with an origin directive.
pub open spec fn sets_origin(line: ParsedLine) -> bool {
    line.label@.len() == 0 && match line.value {
        LineValue::Pragma(Pragma::Origin(_)) => true,
        _ => false,
    }
}

/// The name a line binds: its label, or the name of a define directive.
pub open spec fn binding_of(line: ParsedLine) -> Option<String> {
    if line.label@.len() > 0 {
        Some(line.label)
    } else {
        match line.value {
            LineValue::Pragma(Pragma::Define(name, _)) => Some(name),
            _ => None,
        }
    }
}

proof fn lemma_total_size_bytes(lines: Seq<AnnotatedLine>, start: int, bytes: Seq<u8>)
    ensures
        total_size(lines + byte_lines(start, bytes)) == total_size(lines) + bytes.len(),
    decreases bytes.len(),
{
    if bytes.len() == 0 {
        assert(lines + byte_lines(start, bytes) =~= lines);
    } else {
        assert((lines + byte_lines(start, bytes)).drop_last() =~= lines + byte_lines(start, bytes.drop_last()));
        lemma_total_size_bytes(lines, start, bytes.drop_last());
    }
}

proof fn lemma_step_size(st: PassState, line: ParsedLine)
    requires
        !sets_origin(line),
        step(st, line) is Ok,
    ensures
        step(st, line)->Ok_0.counter - total_size(step(st, line)->Ok_0.lines) == st.counter - total_size(st.lines),
{
    let next = step(st, line)->Ok_0;
    if line.label@.len() == 0 {
        match line.value {
            LineValue::Instruction(instr) => {
                assert(next.lines.drop_last() =~= st.lines);
            },
            LineValue::Pragma(p) => match p {
                Pragma::Byte(_) => {
                    assert(next.lines.drop_last() =~= st.lines);
                },
                Pragma::Bytes(bs) => {
                    lemma_total_size_bytes(st.lines, st.counter, bs@);
                },
                Pragma::Word(a) => {
                    lemma_total_size_bytes(st.lines, st.counter, word_bytes(resolve_spec(a, st.symbols)->Ok_0));
                },
                _ => {},
            },
            LineValue::Empty => {},
        }
    }
}

/// Where no origin directive follows the first `k` lines, the location
/// counter advances from there by exactly the bytes that the annotated lines
/// emitted after that point stand for; with `k == 0`, in a program without
/// origin directives the sizes add up to the final counter.
pub proof fn lemma_size_matches_counter(src: Seq<ParsedLine>, k: int)
    requires
        0 <= k <= src.len(),
        forall|i: int| k <= i < src.len() ==> !sets_origin(#[trigger] src[i]),
        run_first(src) is Ok,
    ensures
        run_first(src.take(k)) is Ok,
        run_first(src)->Ok_0.counter - run_first(src.take(k))->Ok_0.counter == total_size(run_first(src)->Ok_0.lines)
            - total_size(run_first(src.take(k))->Ok_0.lines),
        k == 0 ==> total_size(run_first(src)->Ok_0.lines) == run_first(src)->Ok_0.counter,
    decreases src.len(),
{
    if src.len() == k {
        assert(src.take(k) =~= src);
    } else {
        let prev = src.drop_last();
        assert(prev.take(k) =~= src.take(k));
        assert forall|i: int| k <= i < prev.len() implies !sets_origin(#[trigger] prev[i]) by {
            assert(prev[i] == src[i]);
        }
        lemma_size_matches_counter(prev, k);
        assert(!sets_origin(src[src.len() - 1]));
        lemma_step_size(run_first(prev)->Ok_0, src.last());
    }
    if k == 0 {
        assert(src.take(0) =~= Seq::<ParsedLine>::empty());
    }
}

/// A step keeps every binding and every annotated line made so far, and
/// binds the name the line binds.
pub proof fn lemma_step_grows(st: PassState, line: ParsedLine)
    requires
        step(st, line) is Ok,
    ensures
        st.symbols.submap_of(step(st, line)->Ok_0.symbols),
        step(st, line)->Ok_0.lines.take(st.lines.len() as int) == st.lines,
        st.lines.len() <= step(st, line)->Ok_0.lines.len(),
        binding_of(line) is Some ==> step(st, line)->Ok_0.symbols.contains_key(binding_of(line)->Some_0@),
{
    let next = step(st, line)->Ok_0;
    assert(next.lines.take(st.lines.len() as int) =~= st.lines);
}

/// After a successful prefix longer than `i`, the name that line `i` binds
/// is in the symbol table.
proof fn lemma_binding_kept(src: Seq<ParsedLine>, i: int, k: int)
    requires
        0 <= i < k <= src.len(),
        binding_of(src[i]) is Some,
        run_first(src.take(k)) is Ok,
    ensures
        run_first(src.take(k))->Ok_0.symbols.contains_key(binding_of(src[i])->Some_0@),
    decreases k,
{
    let pre = src.take(k);
    assert(pre.drop_last() =~= src.take(k - 1));
    let prev = run_first(src.take(k - 1))->Ok_0;
    lemma_step_grows(prev, src[k - 1]);
    if i < k - 1 {
        lemma_binding_kept(src, i, k - 1);
    }
}

/// Binding a name a second time anywhere in the input makes the first pass
/// fail, so that no bytes are emitted; when nothing before the second binding
/// fails, the error is the duplicate label at that line.
pub proof fn lemma_duplicate_binding(src: Seq<ParsedLine>, i: int, j: int)
    requires
        0 <= i < j < src.len(),
        binding_of(src[i]) is Some,
        binding_of(src[j]) is Some,
        binding_of(src[i])->Some_0@ == binding_of(src[j])->Some_0@,
    ensures
        run_first(src) is Err,
        run_first(src.take(j)) is Ok ==> run_first(src) == Err::<PassState, ParseError>(
            ParseError { line: j as usize, kind: ErrorKind::DuplicateLabel(binding_of(src[j])->Some_0) },
        ),
{
    if run_first(src.take(j)) is Ok {
        lemma_binding_kept(src, i, j);
        assert(src.take(j + 1).drop_last() =~= src.take(j));
        lemma_error_persists(src, j + 1);
    } else {
        lemma_error_persists(src, j);
    }
}

} // verus!
