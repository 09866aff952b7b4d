//! Compiled code: bytes, a constant pool and a line table.
use vstd::prelude::*;
use crate::value::{Value, ValueArray, write_value_array};

verus! {

/// The instruction set. `OpConstant` and the three global instructions are
/// followed by a one-byte index into the constant pool.
#[derive(Clone, Copy, Debug, PartialEq, Eq, Structural)]
pub enum OpCode {
    OpConstant,
    OpNil,
    OpTrue,
    OpFalse,
    OpPop,
    OpGetGlobal,
    OpDefineGlobal,
    OpSetGlobal,
    OpEqual,
    OpGreater,
    OpLess,
    OpAdd,
    OpSubtract,
    OpMultiply,
    OpDivide,
    OpNot,
    OpNegate,
    OpPrint,
    OpReturn,
}

/// The byte that encodes each instruction.
pub open spec fn op_byte(op: OpCode) -> u8 {
    match op {
        OpCode::OpConstant => 0,
        OpCode::OpNil => 1,
        OpCode::OpTrue => 2,
        OpCode::OpFalse => 3,
        OpCode::OpPop => 4,
        OpCode::OpGetGlobal => 5,
        OpCode::OpDefineGlobal => 6,
        OpCode::OpSetGlobal => 7,
        OpCode::OpEqual => 8,
        OpCode::OpGreater => 9,
        OpCode::OpLess => 10,
        OpCode::OpAdd => 11,
        OpCode::OpSubtract => 12,
        OpCode::OpMultiply => 13,
        OpCode::OpDivide => 14,
        OpCode::OpNot => 15,
        OpCode::OpNegate => 16,
        OpCode::OpPrint => 17,
        OpCode::OpReturn => 18,
    }
}

/// The instruction that a byte encodes, if any.
pub open spec fn decode(b: u8) -> Option<OpCode> {
    if b == 0 { Some(OpCode::OpConstant) }
    else if b == 1 { Some(OpCode::OpNil) }
    else if b == 2 { Some(OpCode::OpTrue) }
    else if b == 3 { Some(OpCode::OpFalse) }
    else if b == 4 { Some(OpCode::OpPop) }
    else if b == 5 { Some(OpCode::OpGetGlobal) }
    else if b == 6 { Some(OpCode::OpDefineGlobal) }
    else if b == 7 { Some(OpCode::OpSetGlobal) }
    else if b == 8 { Some(OpCode::OpEqual) }
    else if b == 9 { Some(OpCode::OpGreater) }
    else if b == 10 { Some(OpCode::OpLess) }
    else if b == 11 { Some(OpCode::OpAdd) }
    else if b == 12 { Some(OpCode::OpSubtract) }
    else if b == 13 { Some(OpCode::OpMultiply) }
    else if b == 14 { Some(OpCode::OpDivide) }
    else if b == 15 { Some(OpCode::OpNot) }
    else if b == 16 { Some(OpCode::OpNegate) }
    else if b == 17 { Some(OpCode::OpPrint) }
    else if b == 18 { Some(OpCode::OpReturn) }
    else { None }
}

impl OpCode {
    pub fn byte(self) -> (b: u8)
        ensures
            b == op_byte(self),
    {
        match self {
            OpCode::OpConstant => 0,
            OpCode::OpNil => 1,
            OpCode::OpTrue => 2,
            OpCode::OpFalse => 3,
            OpCode::OpPop => 4,
            OpCode::OpGetGlobal => 5,
            OpCode::OpDefineGlobal => 6,
            OpCode::OpSetGlobal => 7,
            OpCode::OpEqual => 8,
            OpCode::OpGreater => 9,
            OpCode::OpLess => 10,
            OpCode::OpAdd => 11,
            OpCode::OpSubtract => 12,
            OpCode::OpMultiply => 13,
            OpCode::OpDivide => 14,
            OpCode::OpNot => 15,
            OpCode::OpNegate => 16,
            OpCode::OpPrint => 17,
            OpCode::OpReturn => 18,
        }
    }

    pub fn from_byte(b: u8) -> (r: Option<OpCode>)
        ensures
            r == decode(b),
    {
        if b == 0 { Some(OpCode::OpConstant) }
        else if b == 1 { Some(OpCode::OpNil) }
        else if b == 2 { Some(OpCode::OpTrue) }
        else if b == 3 { Some(OpCode::OpFalse) }
        else if b == 4 { Some(OpCode::OpPop) }
        else if b == 5 { Some(OpCode::OpGetGlobal) }
        else if b == 6 { Some(OpCode::OpDefineGlobal) }
        else if b == 7 { Some(OpCode::OpSetGlobal) }
        else if b == 8 { Some(OpCode::OpEqual) }
        else if b == 9 { Some(OpCode::OpGreater) }
        else if b == 10 { Some(OpCode::OpLess) }
        else if b == 11 { Some(OpCode::OpAdd) }
        else if b == 12 { Some(OpCode::OpSubtract) }
        else if b == 13 { Some(OpCode::OpMultiply) }
        else if b == 14 { Some(OpCode::OpDivide) }
        else if b == 15 { Some(OpCode::OpNot) }
        else if b == 16 { Some(OpCode::OpNegate) }
        else if b == 17 { Some(OpCode::OpPrint) }
        else if b == 18 { Some(OpCode::OpReturn) }
        else { None }
    }
}

/// The most constants one chunk can hold: operands are one byte wide.
pub const MAX_CONSTANTS: usize = 256;

/// A compiled program. `lines[i]` is the source line of `code[i]`.
pub struct Chunk {
    pub code: Vec<u8>,
    pub constants: ValueArray,
    pub lines: Vec<u32>,
}

impl Chunk {
    pub open spec fn wf(&self) -> bool {
        &&& self.lines@.len() == self.code@.len()
        &&& self.constants.values@.len() <= MAX_CONSTANTS
    }
}

pub fn init_chunk() -> (c: Chunk)
    ensures
        c.wf(),
        c.code@.len() == 0,
        c.constants.values@.len() == 0,
{
    Chunk { code: Vec::new(), constants: crate::value::init_value_array(), lines: Vec::new() }
}

/// Appends one byte of code, with its source line.
pub fn write_chunk(chunk: &mut Chunk, byte: u8, line: u32)
    ensures
        final(chunk).code@ == old(chunk).code@.push(byte),
        final(chunk).lines@ == old(chunk).lines@.push(line),
        final(chunk).constants.values@ == old(chunk).constants.values@,
{
    chunk.code.push(byte);
    chunk.lines.push(line);
}

/// Appends a constant to the pool and returns its index.
pub fn add_constant(chunk: &mut Chunk, value: Value) -> (i: usize)
    requires
        old(chunk).constants.values@.len() < MAX_CONSTANTS,
    ensures
        final(chunk).constants.values@ == old(chunk).constants.values@.push(value),
        i == old(chunk).constants.values@.len(),
        final(chunk).code@ == old(chunk).code@,
        final(chunk).lines@ == old(chunk).lines@,
{
    write_value_array(&mut chunk.constants, value);
    chunk.constants.values.len() - 1
}

} // verus!
