//! A textual disassembler for chunks, used for diagnostics.
use vstd::prelude::*;
use crate::chunk::{decode, Chunk, OpCode};
use crate::number::NumberHost;
use crate::object::StringTable;
use crate::text::{decimal, push_chars, push_decimal, push_str, string_of};
use crate::value::{Value, ValueType};

verus! {

/// `s` preceded by `fill` up to `width` characters.
pub open spec fn pad_left(s: Seq<char>, width: nat, fill: char) -> Seq<char> {
    if s.len() >= width {
        s
    } else {
        Seq::new((width - s.len()) as nat, |i: int| fill) + s
    }
}

/// The mnemonic of an instruction.
pub open spec fn op_name(op: OpCode) -> Seq<char> {
    match op {
        OpCode::OpConstant => "OpConstant"@,
        OpCode::OpNil => "OpNil"@,
        OpCode::OpTrue => "OpTrue"@,
        OpCode::OpFalse => "OpFalse"@,
        OpCode::OpPop => "OpPop"@,
        OpCode::OpGetGlobal => "OpGetGlobal"@,
        OpCode::OpDefineGlobal => "OpDefineGlobal"@,
        OpCode::OpSetGlobal => "OpSetGlobal"@,
        OpCode::OpEqual => "OpEqual"@,
        OpCode::OpGreater => "OpGreater"@,
        OpCode::OpLess => "OpLess"@,
        OpCode::OpAdd => "OpAdd"@,
        OpCode::OpSubtract => "OpSubtract"@,
        OpCode::OpMultiply => "OpMultiply"@,
        OpCode::OpDivide => "OpDivide"@,
        OpCode::OpNot => "OpNot"@,
        OpCode::OpNegate => "OpNegate"@,
        OpCode::OpPrint => "OpPrint"@,
        OpCode::OpReturn => "OpReturn"@,
    }
}

/// Whether an instruction carries a constant-pool operand.
pub open spec fn has_operand(op: OpCode) -> bool {
    op == OpCode::OpConstant || op == OpCode::OpGetGlobal || op == OpCode::OpDefineGlobal
        || op == OpCode::OpSetGlobal
}

/// The offset column and the line column of the instruction at `offset`:
/// `   | ` when it shares the previous byte's line.
pub open spec fn instruction_prefix(chunk: Chunk, offset: int) -> Seq<char> {
    let lines = chunk.lines@;
    pad_left(decimal(offset as nat), 4, '0') + " "@ + if offset > 0 && lines[offset] == lines[offset - 1] {
        "   | "@
    } else {
        pad_left(decimal(lines[offset] as nat), 4, ' ') + " "@
    }
}

/// The offset of the instruction after the one at `offset`.
pub open spec fn next_offset(chunk: Chunk, offset: int) -> int {
    match decode(chunk.code@[offset]) {
        Some(op) => if has_operand(op) && offset + 1 < chunk.code@.len() { offset + 2 } else { offset + 1 },
        None => offset + 1,
    }
}

fn op_name_of(op: OpCode) -> (r: &'static str)
    ensures
        r@ == op_name(op),
{
    match op {
        OpCode::OpConstant => "OpConstant",
        OpCode::OpNil => "OpNil",
        OpCode::OpTrue => "OpTrue",
        OpCode::OpFalse => "OpFalse",
        OpCode::OpPop => "OpPop",
        OpCode::OpGetGlobal => "OpGetGlobal",
        OpCode::OpDefineGlobal => "OpDefineGlobal",
        OpCode::OpSetGlobal => "OpSetGlobal",
        OpCode::OpEqual => "OpEqual",
        OpCode::OpGreater => "OpGreater",
        OpCode::OpLess => "OpLess",
        OpCode::OpAdd => "OpAdd",
        OpCode::OpSubtract => "OpSubtract",
        OpCode::OpMultiply => "OpMultiply",
        OpCode::OpDivide => "OpDivide",
        OpCode::OpNot => "OpNot",
        OpCode::OpNegate => "OpNegate",
        OpCode::OpPrint => "OpPrint",
        OpCode::OpReturn => "OpReturn",
    }
}

/// Appends `fill` `count` times.
fn push_fill(out: &mut Vec<char>, fill: char, count: usize)
    ensures
        final(out)@ == old(out)@ + Seq::new(count as nat, |i: int| fill),
{
    let mut i: usize = 0;
    while i < count
        invariant
            i <= count,
            out@ == old(out)@ + Seq::new(i as nat, |k: int| fill),
        decreases count - i,
    {
        out.push(fill);
        assert(old(out)@ + Seq::new((i + 1) as nat, |k: int| fill) =~= (old(out)@ + Seq::new(i as nat, |k: int| fill)).push(fill));
        i = i + 1;
    }
}

/// Appends `s` padded on the left to `width` characters.
fn push_padded_left(out: &mut Vec<char>, s: &Vec<char>, width: usize, fill: char)
    ensures
        final(out)@ == old(out)@ + pad_left(s@, width as nat, fill),
{
    if s.len() < width {
        push_fill(out, fill, width - s.len());
    }
    push_chars(out, s);
    proof {
        if s@.len() < width {
            assert(old(out)@ + pad_left(s@, width as nat, fill) =~= old(out)@ + Seq::new((width - s@.len()) as nat, |i: int| fill) + s@);
        }
    }
}

/// The decimal spelling of `n`.
fn decimal_of(n: u64) -> (r: Vec<char>)
    ensures
        r@ == decimal(n as nat),
{
    let mut r: Vec<char> = Vec::new();
    push_decimal(&mut r, n);
    assert(r@ =~= decimal(n as nat));
    r
}

/// The offset and line columns of the instruction at `offset`.
fn prefix_text(chunk: &Chunk, offset: usize) -> (r: Vec<char>)
    requires
        chunk.wf(),
        offset < chunk.code@.len(),
    ensures
        r@ == instruction_prefix(*chunk, offset as int),
{
    let mut text: Vec<char> = Vec::new();
    push_padded_left(&mut text, &decimal_of(offset as u64), 4, '0');
    push_str(&mut text, " ");
    if offset > 0 && chunk.lines[offset] == chunk.lines[offset - 1] {
        push_str(&mut text, "   | ");
    } else {
        push_padded_left(&mut text, &decimal_of(chunk.lines[offset] as u64), 4, ' ');
        push_str(&mut text, " ");
    }
    assert(text@ =~= instruction_prefix(*chunk, offset as int));
    text
}

/// Appends the mnemonic of an instruction without operand; returns the
/// offset of the next instruction.
pub fn simple_instruction(text: &mut Vec<char>, name: &str, offset: usize) -> (next: usize)
    requires
        offset < usize::MAX,
    ensures
        final(text)@ == old(text)@ + name@,
        next == offset + 1,
{
    push_str(text, name);
    offset + 1
}

/// Appends the mnemonic padded to 16 columns, the constant's index and,
/// between quotes, its value; returns the offset of the next instruction.
pub fn constant_instruction<H: NumberHost>(
    text: &mut Vec<char>,
    name: &str,
    chunk: &Chunk,
    strings: &StringTable,
    offset: usize,
    host: &H,
) -> (next: usize)
    requires
        offset + 1 < chunk.code@.len(),
    ensures
        final(text)@.len() >= old(text)@.len(),
        final(text)@.subrange(0, old(text)@.len() as int) == old(text)@,
        next == offset + 2,
{
    let len = chunk.code.len();
    assert(offset + 2 <= len);
    let index = chunk.code[offset + 1];
    let ghost start = text@;
    let n = name.unicode_len();
    push_str(text, name);
    if n < 16 {
        push_fill(text, ' ', 16 - n);
    }
    push_str(text, "\t");
    push_padded_left(text, &decimal_of(index as u64), 4, ' ');
    push_str(text, " '");
    if (index as usize) < chunk.constants.values.len() {
        let v: Value = chunk.constants.values[index as usize];
        match v.value_type {
            ValueType::ValBool(b) => push_str(text, if b { "true" } else { "false" }),
            ValueType::ValNil => push_str(text, "nil"),
            ValueType::ValNumber(bits) => {
                let shown = host.format_number(bits);
                push_str(text, shown.as_str());
            },
            ValueType::ValObj(_) => {
                let s = v.GetString();
                if s.index < strings.len() {
                    push_chars(text, strings.content(s));
                }
            },
        }
    }
    push_str(text, "'");
    assert(text@.subrange(0, start.len() as int) =~= start);
    offset + 2
}

/// One line describing the instruction at `offset`, and the offset of the
/// next instruction. A constant operand is shown as its index and its value.
pub fn disassemble_instruction<H: NumberHost>(
    chunk: &Chunk,
    strings: &StringTable,
    offset: usize,
    host: &H,
) -> (r: (String, usize))
    requires
        chunk.wf(),
        offset < chunk.code@.len(),
    ensures
        r.1 == next_offset(*chunk, offset as int),
        r.0@.len() >= instruction_prefix(*chunk, offset as int).len(),
        r.0@.subrange(0, instruction_prefix(*chunk, offset as int).len() as int) == instruction_prefix(*chunk, offset as int),
        match decode(chunk.code@[offset as int]) {
            Some(op) => !has_operand(op) ==> r.0@ == instruction_prefix(*chunk, offset as int) + op_name(op),
            None => r.0@ == instruction_prefix(*chunk, offset as int) + "Unknown opcode "@ + decimal(chunk.code@[offset as int] as nat),
        },
{
    let len = chunk.code.len();
    let mut text = prefix_text(chunk, offset);
    let ghost prefix = text@;
    let byte = chunk.code[offset];
    let op = match OpCode::from_byte(byte) {
        Some(op) => op,
        None => {
            push_str(&mut text, "Unknown opcode ");
            push_chars(&mut text, &decimal_of(byte as u64));
            assert(text@.subrange(0, prefix.len() as int) =~= prefix);
            return (string_of(&text), offset + 1);
        },
    };
    let name = op_name_of(op);
    let operand = match op {
        OpCode::OpConstant | OpCode::OpGetGlobal | OpCode::OpDefineGlobal | OpCode::OpSetGlobal => true,
        _ => false,
    };
    if !operand || offset >= len - 1 {
        let next = simple_instruction(&mut text, name, offset);
        assert(text@.subrange(0, prefix.len() as int) =~= prefix);
        return (string_of(&text), next);
    }
    let next = constant_instruction(&mut text, name, chunk, strings, offset, host);
    (string_of(&text), next)
}

/// A heading line with `name`, then one line per instruction of the chunk.
pub fn disassemble_chunk<H: NumberHost>(chunk: &Chunk, strings: &StringTable, name: &str, host: &H) -> (r: Vec<String>)
    requires
        chunk.wf(),
    ensures
        r@.len() >= 1,
        r@[0]@ == "== "@ + name@ + " =="@,
        r@.len() <= chunk.code@.len() + 1,
{
    let mut lines: Vec<String> = Vec::new();
    let mut heading: Vec<char> = Vec::new();
    push_str(&mut heading, "== ");
    push_str(&mut heading, name);
    push_str(&mut heading, " ==");
    lines.push(string_of(&heading));
    let mut offset: usize = 0;
    while offset < chunk.code.len()
        invariant
            chunk.wf(),
            offset <= chunk.code@.len(),
            1 <= lines@.len() <= offset + 1,
            lines@[0]@ == "== "@ + name@ + " =="@,
        decreases chunk.code@.len() - offset,
    {
        let (line, next) = disassemble_instruction(chunk, strings, offset, host);
        lines.push(line);
        offset = next;
    }
    lines
}

} // verus!
